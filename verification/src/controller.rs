//! Ensures that the desired resources are computed and applied for each
//! cluster object: the desired-state builders, the per-role-group
//! configuration transform, and the reconcile driver.

use vstd::prelude::*;
use vstd::string::*;

use crate::crd::{spec_name_any, object_name_view, seq_views, clone_affinity,
    CurrentlySupportedListenerClasses, HelloCluster, HelloClusterView, HelloConfig,
    HelloConfigView, PodTemplateOverrides, PodTemplateOverridesView, ResolvedProductImage,
    ResolvedProductImageView, RoleGroup, RoleGroupRef, RoleGroupRefView, RoleGroupView,
};
use crate::resources::{ConfigMapData, ConfigMapDataView, ContainerResources,
    ContainerResourcesView, ContainerSpec, ContainerSpecView, ObjectLabels, ObjectLabelsView,
    PodTemplate, PodTemplateView, Probe, ProbeView, PvcClaim, PvcClaimView, Resource,
    ResourceKind, ResourcePayload, ResourcePayloadView, ResourceView, ServiceSpec,
    ServiceSpecView, StatefulSetSpec, StatefulSetSpecView, Volume, VolumeSource,
    VolumeSourceView, VolumeView};
use crate::resources::lemma_first_duplicate_at;
use crate::strings::concat2;
use crate::tracker::Store;
use crate::{APP_NAME, OPERATOR_NAME};

verus! {

pub const HELLO_CONTROLLER_NAME: &'static str = "hellocluster";

pub const DOCKER_IMAGE_BASE_NAME: &'static str = "hello";

/// Fixed backoff before a failed reconcile is retried.
pub const ERROR_REQUEUE_SECS: u64 = 5;

/// Errors of one reconciliation pass.
#[derive(Clone, Debug, PartialEq, Eq)]
pub enum Error {
    /// A role or role-group lookup that should have succeeded failed.
    InternalOperatorFailure { source: crate::crd::Error },
    /// The cluster object carries no namespace.
    ObjectHasNoNamespace,
    /// The cluster object declares no server role.
    NoServerRole,
    /// The cluster object carries no name to derive the endpoint from.
    GlobalServiceNameNotFound,
    /// Merging and validating a role-group's configuration failed.
    FailedToResolveResourceConfig { source: crate::crd::Error },
    /// Building or applying the disruption budget failed.
    FailedToCreatePdb { source: crate::pdb::Error },
    /// Two resources of one desired set share an identity: a programming
    /// defect, surfaced verbatim and never silently swallowed.
    InternalInvariantError { name: String },
}

/// The description of each reconcile error.
pub open spec fn spec_error_message(e: Error) -> Seq<char> {
    match e {
        Error::InternalOperatorFailure { .. } => "internal operator failure"@,
        Error::ObjectHasNoNamespace => "object defines no namespace"@,
        Error::NoServerRole => "object defines no server role"@,
        Error::GlobalServiceNameNotFound => "failed to calculate global service name"@,
        Error::FailedToResolveResourceConfig { .. } => "failed to resolve and merge resource config for role and role group"@,
        Error::FailedToCreatePdb { .. } => "failed to create PodDisruptionBudget"@,
        Error::InternalInvariantError { name } => "duplicate resource identity in desired set: "@
            + name@,
    }
}

/// The category name of a reconcile error.
pub open spec fn spec_error_category(e: Error) -> Seq<char> {
    match e {
        Error::InternalOperatorFailure { .. } => "InternalOperatorFailure"@,
        Error::ObjectHasNoNamespace => "ObjectHasNoNamespace"@,
        Error::NoServerRole => "NoServerRole"@,
        Error::GlobalServiceNameNotFound => "GlobalServiceNameNotFound"@,
        Error::FailedToResolveResourceConfig { .. } => "FailedToResolveResourceConfig"@,
        Error::FailedToCreatePdb { .. } => "FailedToCreatePdb"@,
        Error::InternalInvariantError { .. } => "InternalInvariantError"@,
    }
}

impl Error {
    /// The variant name, as the trigger source logs and aggregates it.
    pub fn category(&self) -> (r: &'static str)
        ensures
            r@ == spec_error_category(*self),
    {
        match self {
            Error::InternalOperatorFailure { .. } => "InternalOperatorFailure",
            Error::ObjectHasNoNamespace => "ObjectHasNoNamespace",
            Error::NoServerRole => "NoServerRole",
            Error::GlobalServiceNameNotFound => "GlobalServiceNameNotFound",
            Error::FailedToResolveResourceConfig { .. } => "FailedToResolveResourceConfig",
            Error::FailedToCreatePdb { .. } => "FailedToCreatePdb",
            Error::InternalInvariantError { .. } => "InternalInvariantError",
        }
    }

    /// A short human-readable description of the error.
    pub fn message(&self) -> (r: String)
        ensures
            r@ == spec_error_message(*self),
    {
        match self {
            Error::InternalOperatorFailure { .. } => "internal operator failure".to_owned(),
            Error::ObjectHasNoNamespace => "object defines no namespace".to_owned(),
            Error::NoServerRole => "object defines no server role".to_owned(),
            Error::GlobalServiceNameNotFound => {
                "failed to calculate global service name".to_owned()
            },
            Error::FailedToResolveResourceConfig { .. } => {
                "failed to resolve and merge resource config for role and role group".to_owned()
            },
            Error::FailedToCreatePdb { .. } => "failed to create PodDisruptionBudget".to_owned(),
            Error::InternalInvariantError { name } => {
                concat2("duplicate resource identity in desired set: ", name.as_str())
            },
        }
    }
}

/// What the driver asks the trigger source to do next.
#[derive(Clone, Copy, Debug, PartialEq, Eq, Structural)]
pub enum Action {
    /// Wait for the next change event; no fixed poll interval.
    AwaitChange,
    /// Retry after a bounded delay.
    RequeueAfterSecs(u64),
}

/// Every error leads to the same bounded-delay retry; the process never
/// crashes over a per-object error.
pub fn error_policy(_error: &Error) -> (r: Action)
    ensures
        r == Action::RequeueAfterSecs(ERROR_REQUEUE_SECS),
{
    Action::RequeueAfterSecs(ERROR_REQUEUE_SECS)
}

/// The one service port every endpoint exposes.
pub open spec fn spec_service_ports() -> Seq<(Seq<char>, u16, Seq<char>)> {
    seq![(crate::crd::HTTP_PORT_NAME@, crate::crd::HTTP_PORT, "TCP"@)]
}

pub fn service_ports() -> (r: Vec<(String, u16, String)>)
    ensures
        r.deep_view() == spec_service_ports(),
{
    let mut r: Vec<(String, u16, String)> = Vec::new();
    r.push((crate::crd::HTTP_PORT_NAME.to_owned(), crate::crd::HTTP_PORT, "TCP".to_owned()));
    proof {
        assert(r.deep_view() =~= spec_service_ports());
    }
    r
}

/// The recommended labels of a deployed resource; the ownership marker is
/// part of them.
pub open spec fn spec_recommended_labels(
    owner_name: Seq<char>,
    app_version: Seq<char>,
    role: Seq<char>,
    role_group: Seq<char>,
) -> ObjectLabelsView {
    ObjectLabelsView {
        app_name: APP_NAME@,
        owner_name: owner_name,
        app_version: app_version,
        operator_name: OPERATOR_NAME@,
        controller_name: HELLO_CONTROLLER_NAME@,
        role: role,
        role_group: role_group,
    }
}

/// Creates recommended labels to be used in deployed resources.
pub fn build_recommended_labels(
    owner_name: &str,
    app_version: &str,
    role: &str,
    role_group: &str,
) -> (r: ObjectLabels)
    ensures
        r@ == spec_recommended_labels(owner_name@, app_version@, role@, role_group@),
{
    ObjectLabels {
        app_name: APP_NAME.to_owned(),
        owner_name: owner_name.to_owned(),
        app_version: app_version.to_owned(),
        operator_name: OPERATOR_NAME.to_owned(),
        controller_name: HELLO_CONTROLLER_NAME.to_owned(),
        role: role.to_owned(),
        role_group: role_group.to_owned(),
    }
}

/// The selector matching every pod of a role.
pub open spec fn spec_role_selector(owner_name: Seq<char>, role: Seq<char>) -> Seq<
    (Seq<char>, Seq<char>),
> {
    seq![
        ("app.kubernetes.io/name"@, APP_NAME@),
        ("app.kubernetes.io/instance"@, owner_name),
        ("app.kubernetes.io/component"@, role),
    ]
}

pub(crate) fn role_selector(owner_name: &str, role: &str) -> (r: Vec<(String, String)>)
    ensures
        r.deep_view() == spec_role_selector(owner_name@, role@),
{
    let mut r: Vec<(String, String)> = Vec::new();
    r.push(("app.kubernetes.io/name".to_owned(), APP_NAME.to_owned()));
    r.push(("app.kubernetes.io/instance".to_owned(), owner_name.to_owned()));
    r.push(("app.kubernetes.io/component".to_owned(), role.to_owned()));
    proof {
        assert(r.deep_view() =~= spec_role_selector(owner_name@, role@));
    }
    r
}

/// The selector matching every pod of one role-group.
pub open spec fn spec_role_group_selector(
    owner_name: Seq<char>,
    role: Seq<char>,
    role_group: Seq<char>,
) -> Seq<(Seq<char>, Seq<char>)> {
    spec_role_selector(owner_name, role).push(("app.kubernetes.io/role-group"@, role_group))
}

fn role_group_selector(owner_name: &str, role: &str, role_group: &str) -> (r: Vec<
    (String, String),
>)
    ensures
        r.deep_view() == spec_role_group_selector(owner_name@, role@, role_group@),
{
    let mut r = role_selector(owner_name, role);
    r.push(("app.kubernetes.io/role-group".to_owned(), role_group.to_owned()));
    proof {
        assert(r.deep_view() =~= spec_role_group_selector(owner_name@, role@, role_group@));
    }
    r
}

/// The role-level service: the cluster's stable endpoint, exposed
/// according to the configured listener class.
pub open spec fn spec_server_role_service(
    c: HelloClusterView,
    img: ResolvedProductImageView,
) -> ResourceView {
    ResourceView {
        name: c.name.unwrap(),
        namespace: c.namespace.unwrap(),
        labels: spec_recommended_labels(
            spec_name_any(c),
            img.app_version_label,
            "server"@,
            "global"@,
        ),
        payload: ResourcePayloadView::Service(
            ServiceSpecView {
                type_: c.cluster_config.listener_class.spec_k8s_service_type(),
                cluster_ip: None,
                ports: spec_service_ports(),
                selector: spec_role_selector(spec_name_any(c), "server"@),
                publish_not_ready_addresses: None,
            },
        ),
    }
}

pub fn build_server_role_service(
    hello: &HelloCluster,
    resolved_product_image: &ResolvedProductImage,
) -> (r: Result<Resource, Error>)
    ensures
        hello@.name is None ==> r == Err::<Resource, Error>(Error::GlobalServiceNameNotFound),
        hello@.name is Some && hello@.namespace is None ==> r == Err::<Resource, Error>(
            Error::ObjectHasNoNamespace,
        ),
        hello@.name is Some && hello@.namespace is Some ==> (r matches Ok(res) && res@
            == spec_server_role_service(hello@, resolved_product_image@)),
{
    let role_svc_name = match hello.server_role_service_name() {
        Some(n) => n,
        None => {
            return Err(Error::GlobalServiceNameNotFound);
        },
    };
    let namespace = match &hello.metadata.namespace {
        Some(ns) => ns.clone(),
        None => {
            return Err(Error::ObjectHasNoNamespace);
        },
    };
    let owner = hello.name_any();
    let labels = build_recommended_labels(
        owner.as_str(),
        resolved_product_image.app_version_label.as_str(),
        "server",
        "global",
    );
    let selector = role_selector(owner.as_str(), "server");
    Ok(
        Resource {
            name: role_svc_name.to_owned(),
            namespace,
            labels,
            payload: ResourcePayload::Service(
                ServiceSpec {
                    type_: hello.spec.cluster_config.listener_class.k8s_service_type(),
                    cluster_ip: None,
                    ports: service_ports(),
                    selector,
                    publish_not_ready_addresses: None,
                },
            ),
        },
    )
}

/// Setting a key in a key/value list: the first occurrence of the key is
/// replaced in place, a fresh key is appended. Explicit overrides keyed
/// by property name thus take priority over computed defaults.
pub open spec fn spec_kv_set(
    s: Seq<(Seq<char>, Seq<char>)>,
    k: Seq<char>,
    v: Seq<char>,
) -> Seq<(Seq<char>, Seq<char>)>
    decreases s.len(),
{
    if s.len() == 0 {
        seq![(k, v)]
    } else if s.first().0 == k {
        seq![(k, v)] + s.drop_first()
    } else {
        seq![s.first()] + spec_kv_set(s.drop_first(), k, v)
    }
}

/// The value under a key, if the list holds one.
pub open spec fn spec_kv_lookup(s: Seq<(Seq<char>, Seq<char>)>, k: Seq<char>) -> Option<Seq<char>>
    decreases s.len(),
{
    if s.len() == 0 {
        None
    } else if s.first().0 == k {
        Some(s.first().1)
    } else {
        spec_kv_lookup(s.drop_first(), k)
    }
}

/// Setting a key makes lookup return the new value: an explicit override
/// always takes priority over whatever the list held for that key.
pub proof fn lemma_kv_set_lookup(s: Seq<(Seq<char>, Seq<char>)>, k: Seq<char>, v: Seq<char>)
    ensures
        spec_kv_lookup(spec_kv_set(s, k, v), k) == Some(v),
    decreases s.len(),
{
    if s.len() == 0 {
    } else if s.first().0 == k {
        assert((seq![(k, v)] + s.drop_first()).first() == (k, v));
    } else {
        lemma_kv_set_lookup(s.drop_first(), k, v);
        assert((seq![s.first()] + spec_kv_set(s.drop_first(), k, v)).first() == s.first());
        assert((seq![s.first()] + spec_kv_set(s.drop_first(), k, v)).drop_first()
            =~= spec_kv_set(s.drop_first(), k, v));
    }
}

/// Setting one key never changes what lookup returns for any other key.
pub proof fn lemma_kv_set_preserves_others(
    s: Seq<(Seq<char>, Seq<char>)>,
    k: Seq<char>,
    v: Seq<char>,
    other: Seq<char>,
)
    requires
        other != k,
    ensures
        spec_kv_lookup(spec_kv_set(s, k, v), other) == spec_kv_lookup(s, other),
    decreases s.len(),
{
    if s.len() == 0 {
        let t = seq![(k, v)];
        assert(spec_kv_set(s, k, v) == t);
        assert(t.first() == (k, v));
        assert(t.drop_first() =~= Seq::<(Seq<char>, Seq<char>)>::empty());
        assert(spec_kv_lookup(t, other) == spec_kv_lookup(t.drop_first(), other));
    } else if s.first().0 == k {
        let t = seq![(k, v)] + s.drop_first();
        assert(spec_kv_set(s, k, v) == t);
        assert(t.first() == (k, v));
        assert(t.drop_first() =~= s.drop_first());
        assert(spec_kv_lookup(t, other) == spec_kv_lookup(t.drop_first(), other));
    } else {
        lemma_kv_set_preserves_others(s.drop_first(), k, v, other);
        let t = seq![s.first()] + spec_kv_set(s.drop_first(), k, v);
        assert(spec_kv_set(s, k, v) == t);
        assert(t.first() == s.first());
        assert(t.drop_first() =~= spec_kv_set(s.drop_first(), k, v));
        if s.first().0 == other {
            assert(spec_kv_lookup(t, other) == Some(s.first().1));
        } else {
            assert(spec_kv_lookup(t, other) == spec_kv_lookup(t.drop_first(), other));
        }
    }
}

/// Setting a key that occurs first at `i` updates that position.
proof fn lemma_kv_set_found(s: Seq<(Seq<char>, Seq<char>)>, k: Seq<char>, v: Seq<char>, i: int)
    requires
        0 <= i < s.len(),
        s[i].0 == k,
        forall|j: int| 0 <= j < i ==> (#[trigger] s[j]).0 != k,
    ensures
        spec_kv_set(s, k, v) == s.update(i, (k, v)),
    decreases i,
{
    if i == 0 {
        assert(spec_kv_set(s, k, v) =~= s.update(0, (k, v)));
    } else {
        assert(s[0].0 != k);
        lemma_kv_set_found(s.drop_first(), k, v, i - 1);
        assert(seq![s.first()] + s.drop_first().update(i - 1, (k, v)) =~= s.update(i, (k, v)));
    }
}

/// Setting a key the list lacks appends the pair.
proof fn lemma_kv_set_absent(s: Seq<(Seq<char>, Seq<char>)>, k: Seq<char>, v: Seq<char>)
    requires
        forall|j: int| 0 <= j < s.len() ==> (#[trigger] s[j]).0 != k,
    ensures
        spec_kv_set(s, k, v) == s.push((k, v)),
    decreases s.len(),
{
    if s.len() == 0 {
        assert(spec_kv_set(s, k, v) =~= s.push((k, v)));
    } else {
        assert(s[0].0 != k);
        lemma_kv_set_absent(s.drop_first(), k, v);
        assert(seq![s.first()] + s.drop_first().push((k, v)) =~= s.push((k, v)));
    }
}

/// Sets one key in a key/value list, replacing in place or appending.
#[verifier::loop_isolation(false)]
fn kv_set(list: &mut Vec<(String, String)>, key: String, value: String)
    ensures
        final(list).deep_view() == spec_kv_set(old(list).deep_view(), key@, value@),
{
    let mut i: usize = 0;
    while i < list.len()
        invariant
            i <= list@.len(),
            list@ == old(list)@,
            forall|j: int| 0 <= j < i ==> (#[trigger] list.deep_view()[j]).0 != key@,
        decreases list@.len() - i,
    {
        if list[i].0 == key {
            proof {
                assert(list.deep_view()[i as int].0 == key@);
            }
            let ghost before = list.deep_view();
            list.remove(i);
            list.insert(i, (key, value));
            proof {
                lemma_kv_set_found(before, key@, value@, i as int);
                assert(list.deep_view() =~= before.update(i as int, (key@, value@)));
            }
            return ;
        }
        i = i + 1;
    }
    let ghost before = list.deep_view();
    list.push((key, value));
    proof {
        lemma_kv_set_absent(before, key@, value@);
        assert(list.deep_view() =~= before.push((key@, value@)));
    }
}

/// Applying a list of overrides, in order; later entries win over
/// earlier ones and all of them over the base.
pub open spec fn spec_apply_overrides(
    base: Seq<(Seq<char>, Seq<char>)>,
    ovs: Seq<(Seq<char>, Seq<char>)>,
) -> Seq<(Seq<char>, Seq<char>)>
    decreases ovs.len(),
{
    if ovs.len() == 0 {
        base
    } else {
        spec_kv_set(spec_apply_overrides(base, ovs.drop_last()), ovs.last().0, ovs.last().1)
    }
}

#[verifier::loop_isolation(false)]
fn apply_overrides(base: &mut Vec<(String, String)>, ovs: &Vec<(String, String)>)
    ensures
        final(base).deep_view() == spec_apply_overrides(old(base).deep_view(), ovs.deep_view()),
{
    let ghost base0 = base.deep_view();
    let ghost ovs_v = ovs.deep_view();
    let mut i: usize = 0;
    while i < ovs.len()
        invariant
            i <= ovs@.len(),
            base.deep_view() == spec_apply_overrides(base0, ovs_v.subrange(0, i as int)),
        decreases ovs@.len() - i,
    {
        let pair = &ovs[i];
        proof {
            assert(ovs_v[i as int] == (pair.0@, pair.1@));
        }
        kv_set(base, pair.0.clone(), pair.1.clone());
        proof {
            assert(ovs_v.subrange(0, i as int + 1).drop_last() =~= ovs_v.subrange(0, i as int));
            assert(ovs_v.subrange(0, i as int + 1).last() == ovs_v[i as int]);
        }
        i = i + 1;
    }
    proof {
        assert(ovs_v.subrange(0, ovs_v.len() as int) =~= ovs_v);
    }
}

/// The overrides declared for one file kind, or nothing.
pub open spec fn spec_find_file_overrides(
    s: Seq<(Seq<char>, Seq<(Seq<char>, Seq<char>)>)>,
    name: Seq<char>,
) -> Seq<(Seq<char>, Seq<char>)>
    decreases s.len(),
{
    if s.len() == 0 {
        Seq::empty()
    } else if s.first().0 == name {
        s.first().1
    } else {
        spec_find_file_overrides(s.drop_first(), name)
    }
}

#[verifier::loop_isolation(false)]
fn find_file_overrides<'a>(s: &'a Vec<(String, Vec<(String, String)>)>, name: &str) -> (r: Option<
    &'a Vec<(String, String)>,
>)
    ensures
        match r {
            Some(v) => v.deep_view() == spec_find_file_overrides(s.deep_view(), name@),
            None => spec_find_file_overrides(s.deep_view(), name@) == Seq::<
                (Seq<char>, Seq<char>),
            >::empty(),
        },
{
    let ghost s_v = s.deep_view();
    proof {
        assert(s_v.skip(0) =~= s_v);
    }
    let mut i: usize = 0;
    while i < s.len()
        invariant
            i <= s@.len(),
            spec_find_file_overrides(s_v, name@) == spec_find_file_overrides(
                s_v.skip(i as int),
                name@,
            ),
        decreases s@.len() - i,
    {
        let entry = &s[i];
        proof {
            assert(s_v[i as int] == (entry.0@, entry.1.deep_view()));
            assert(s_v.skip(i as int).first() == s_v[i as int]);
            assert(s_v.skip(i as int).drop_first() =~= s_v.skip(i as int + 1));
        }
        if entry.0 == name.to_owned() {
            return Some(&entry.1);
        }
        i = i + 1;
    }
    proof {
        assert(s_v.skip(s_v.len() as int).len() == 0);
    }
    None
}

/// The merged configuration of one role-group and one file kind: the
/// computed defaults, overridden by the role's explicit overrides, then
/// by the role-group's.
pub open spec fn spec_file_config(
    c: HelloClusterView,
    role_cfg: crate::crd::CommonConfigurationView,
    group_cfg: crate::crd::CommonConfigurationView,
    file: Seq<char>,
) -> Seq<(Seq<char>, Seq<char>)> {
    spec_apply_overrides(
        spec_apply_overrides(
            crate::crd::spec_compute_files(c, file),
            spec_find_file_overrides(role_cfg.config_overrides, file),
        ),
        spec_find_file_overrides(group_cfg.config_overrides, file),
    )
}

/// The validated per-role-group configuration: environment, command line
/// and the requested config files, each with role and role-group
/// overrides applied.
pub struct RoleGroupConfig {
    pub env: Vec<(String, String)>,
    pub cli: Vec<(String, String)>,
    /// (file name, key/value pairs)
    pub files: Vec<(String, Vec<(String, String)>)>,
}

pub struct RoleGroupConfigView {
    pub env: Seq<(Seq<char>, Seq<char>)>,
    pub cli: Seq<(Seq<char>, Seq<char>)>,
    pub files: Seq<(Seq<char>, Seq<(Seq<char>, Seq<char>)>)>,
}

impl View for RoleGroupConfig {
    type V = RoleGroupConfigView;

    open spec fn view(&self) -> RoleGroupConfigView {
        RoleGroupConfigView {
            env: self.env.deep_view(),
            cli: self.cli.deep_view(),
            files: self.files.deep_view(),
        }
    }
}

/// The transform of one role-group's configuration.
pub open spec fn spec_transform(
    c: HelloClusterView,
    role_cfg: crate::crd::CommonConfigurationView,
    group_cfg: crate::crd::CommonConfigurationView,
) -> RoleGroupConfigView {
    RoleGroupConfigView {
        env: spec_apply_overrides(
            spec_apply_overrides(Seq::empty(), role_cfg.env_overrides),
            group_cfg.env_overrides,
        ),
        cli: spec_apply_overrides(
            spec_apply_overrides(Seq::empty(), role_cfg.cli_overrides),
            group_cfg.cli_overrides,
        ),
        files: seq![
            (
                crate::crd::APPLICATION_PROPERTIES@,
                spec_file_config(c, role_cfg, group_cfg, crate::crd::APPLICATION_PROPERTIES@),
            ),
            (
                crate::crd::JVM_SECURITY_PROPERTIES@,
                spec_file_config(c, role_cfg, group_cfg, crate::crd::JVM_SECURITY_PROPERTIES@),
            ),
        ],
    }
}

/// Computes the merged configuration of one role-group: computed
/// defaults, then the role's overrides, then the role-group's, later
/// entries winning per key.
pub fn transform_role_group_config(
    hello: &HelloCluster,
    role: &crate::crd::Role,
    group: &crate::crd::RoleGroup,
) -> (r: RoleGroupConfig)
    ensures
        r@ == spec_transform(hello@, role@.config, group@.config),
{
    let mut env = group.config.config.compute_env(hello, "server");
    apply_overrides(&mut env, &role.config.env_overrides);
    apply_overrides(&mut env, &group.config.env_overrides);

    let mut cli = group.config.config.compute_cli(hello, "server");
    apply_overrides(&mut cli, &role.config.cli_overrides);
    apply_overrides(&mut cli, &group.config.cli_overrides);

    let mut files: Vec<(String, Vec<(String, String)>)> = Vec::new();
    let mut app_props = group.config.config.compute_files(
        hello,
        "server",
        crate::crd::APPLICATION_PROPERTIES,
    );
    if let Some(ovs) = find_file_overrides(&role.config.config_overrides, crate::crd::APPLICATION_PROPERTIES) {
        apply_overrides(&mut app_props, ovs);
    }
    if let Some(ovs) = find_file_overrides(&group.config.config_overrides, crate::crd::APPLICATION_PROPERTIES) {
        apply_overrides(&mut app_props, ovs);
    }
    files.push((crate::crd::APPLICATION_PROPERTIES.to_owned(), app_props));

    let mut sec_props = group.config.config.compute_files(
        hello,
        "server",
        crate::crd::JVM_SECURITY_PROPERTIES,
    );
    if let Some(ovs) = find_file_overrides(&role.config.config_overrides, crate::crd::JVM_SECURITY_PROPERTIES) {
        apply_overrides(&mut sec_props, ovs);
    }
    if let Some(ovs) = find_file_overrides(&group.config.config_overrides, crate::crd::JVM_SECURITY_PROPERTIES) {
        apply_overrides(&mut sec_props, ovs);
    }
    files.push((crate::crd::JVM_SECURITY_PROPERTIES.to_owned(), sec_props));

    let r = RoleGroupConfig { env, cli, files };
    proof {
        assert(spec_apply_overrides(Seq::empty(), Seq::<(Seq<char>, Seq<char>)>::empty())
            =~= Seq::<(Seq<char>, Seq<char>)>::empty());
        assert(r@.files =~= spec_transform(hello@, role@.config, group@.config).files);
    }
    r
}

/// The per-role-group service: headless and address-stable, enumerating
/// every replica of the group independently of readiness, for peer
/// discovery and direct client addressing.
pub open spec fn spec_rolegroup_service(
    c: HelloClusterView,
    img: ResolvedProductImageView,
    rg: RoleGroupRefView,
) -> ResourceView {
    ResourceView {
        name: object_name_view(rg.cluster_name, rg.role, rg.role_group),
        namespace: c.namespace.unwrap(),
        labels: spec_recommended_labels(
            spec_name_any(c),
            img.app_version_label,
            rg.role,
            rg.role_group,
        ),
        payload: ResourcePayloadView::Service(
            ServiceSpecView {
                type_: "ClusterIP"@,
                cluster_ip: Some("None"@),
                ports: spec_service_ports(),
                selector: spec_role_group_selector(spec_name_any(c), rg.role, rg.role_group),
                publish_not_ready_addresses: Some(true),
            },
        ),
    }
}

pub fn build_rolegroup_service(
    hello: &HelloCluster,
    resolved_product_image: &ResolvedProductImage,
    rolegroup: &RoleGroupRef,
) -> (r: Result<Resource, Error>)
    ensures
        hello@.namespace is None ==> r == Err::<Resource, Error>(Error::ObjectHasNoNamespace),
        hello@.namespace is Some ==> (r matches Ok(res) && res@ == spec_rolegroup_service(
            hello@,
            resolved_product_image@,
            rolegroup@,
        )),
{
    let namespace = match &hello.metadata.namespace {
        Some(ns) => ns.clone(),
        None => {
            return Err(Error::ObjectHasNoNamespace);
        },
    };
    let owner = hello.name_any();
    let labels = build_recommended_labels(
        owner.as_str(),
        resolved_product_image.app_version_label.as_str(),
        rolegroup.role.as_str(),
        rolegroup.role_group.as_str(),
    );
    let selector = role_group_selector(
        owner.as_str(),
        rolegroup.role.as_str(),
        rolegroup.role_group.as_str(),
    );
    Ok(
        Resource {
            name: rolegroup.object_name(),
            namespace,
            labels,
            payload: ResourcePayload::Service(
                ServiceSpec {
                    type_: "ClusterIP".to_owned(),
                    cluster_ip: Some("None".to_owned()),
                    ports: service_ports(),
                    selector,
                    publish_not_ready_addresses: Some(true),
                },
            ),
        },
    )
}

fn clone_kv(v: &Vec<(String, String)>) -> (r: Vec<(String, String)>)
    ensures
        r@ == v@,
{
    let mut r: Vec<(String, String)> = Vec::new();
    let mut i: usize = 0;
    while i < v.len()
        invariant
            i <= v.len(),
            r@ =~= v@.subrange(0, i as int),
        decreases v.len() - i,
    {
        let p = &v[i];
        r.push((p.0.clone(), p.1.clone()));
        i = i + 1;
    }
    proof {
        assert(r@ =~= v@);
    }
    r
}

#[verifier::loop_isolation(false)]
fn clone_files(v: &Vec<(String, Vec<(String, String)>)>) -> (r: Vec<
    (String, Vec<(String, String)>),
>)
    ensures
        r.deep_view() == v.deep_view(),
{
    let mut r: Vec<(String, Vec<(String, String)>)> = Vec::new();
    let mut i: usize = 0;
    while i < v.len()
        invariant
            i <= v.len(),
            r@.len() == i,
            forall|j: int|
                0 <= j < i ==> #[trigger] r.deep_view()[j] == v.deep_view()[j],
        decreases v.len() - i,
    {
        let p = &v[i];
        let copied = clone_kv(&p.1);
        proof {
            assert(copied.deep_view() =~= p.1.deep_view());
        }
        let pushed = (p.0.clone(), copied);
        proof {
            assert(pushed.deep_view() == v.deep_view()[i as int]);
        }
        let ghost prev = r@;
        let ghost old_deep = r.deep_view();
        let ghost pv = pushed.deep_view();
        r.push(pushed);
        proof {
            assert forall|j: int|
                0 <= j < i + 1 implies #[trigger] r.deep_view()[j] == v.deep_view()[j] by {
                assert(r.deep_view()[j] == r@[j].deep_view());
                if j < i {
                    assert(r@[j] == prev[j]);
                    assert(old_deep[j] == prev[j].deep_view());
                } else {
                    assert(r@[j].deep_view() == pv);
                }
            }
        }
        i = i + 1;
    }
    proof {
        assert(r.deep_view() =~= v.deep_view());
    }
    r
}

/// The role-group's configuration bundle: the key/value mapping of each
/// requested file kind. Rendering the mappings to file text is the
/// configuration-file content generator's job, a collaborator.
pub open spec fn spec_rolegroup_config_map(
    c: HelloClusterView,
    img: ResolvedProductImageView,
    rg: RoleGroupRefView,
    files: Seq<(Seq<char>, Seq<(Seq<char>, Seq<char>)>)>,
) -> ResourceView {
    ResourceView {
        name: object_name_view(rg.cluster_name, rg.role, rg.role_group),
        namespace: c.namespace.unwrap(),
        labels: spec_recommended_labels(
            spec_name_any(c),
            img.app_version_label,
            rg.role,
            rg.role_group,
        ),
        payload: ResourcePayloadView::ConfigMap(ConfigMapDataView { files }),
    }
}

/// The rolegroup ConfigMap configures the rolegroup based on the
/// configuration given by the administrator.
pub fn build_server_rolegroup_config_map(
    hello: &HelloCluster,
    resolved_product_image: &ResolvedProductImage,
    rolegroup: &RoleGroupRef,
    rolegroup_config: &RoleGroupConfig,
) -> (r: Result<Resource, Error>)
    ensures
        hello@.namespace is None ==> r == Err::<Resource, Error>(Error::ObjectHasNoNamespace),
        hello@.namespace is Some ==> (r matches Ok(res) && res@ == spec_rolegroup_config_map(
            hello@,
            resolved_product_image@,
            rolegroup@,
            rolegroup_config@.files,
        )),
{
    let namespace = match &hello.metadata.namespace {
        Some(ns) => ns.clone(),
        None => {
            return Err(Error::ObjectHasNoNamespace);
        },
    };
    let owner = hello.name_any();
    let labels = build_recommended_labels(
        owner.as_str(),
        resolved_product_image.app_version_label.as_str(),
        rolegroup.role.as_str(),
        rolegroup.role_group.as_str(),
    );
    Ok(
        Resource {
            name: rolegroup.object_name(),
            namespace,
            labels,
            payload: ResourcePayload::ConfigMap(
                ConfigMapData { files: clone_files(&rolegroup_config.files) },
            ),
        },
    )
}

/// The environment entries with a non-empty name; entries with an empty
/// name are skipped.
pub open spec fn spec_nonempty_env(env: Seq<(Seq<char>, Seq<char>)>) -> Seq<(Seq<char>, Seq<char>)>
    decreases env.len(),
{
    if env.len() == 0 {
        Seq::empty()
    } else if env.last().0.len() != 0 {
        spec_nonempty_env(env.drop_last()).push(env.last())
    } else {
        spec_nonempty_env(env.drop_last())
    }
}

#[verifier::loop_isolation(false)]
fn nonempty_env(env: &Vec<(String, String)>) -> (r: Vec<(String, String)>)
    ensures
        r.deep_view() == spec_nonempty_env(env.deep_view()),
{
    let ghost env_v = env.deep_view();
    let mut r: Vec<(String, String)> = Vec::new();
    let mut i: usize = 0;
    while i < env.len()
        invariant
            i <= env@.len(),
            r.deep_view() == spec_nonempty_env(env_v.subrange(0, i as int)),
        decreases env@.len() - i,
    {
        let pair = &env[i];
        proof {
            assert(env_v[i as int] == (pair.0@, pair.1@));
            assert(env_v.subrange(0, i as int + 1).drop_last() =~= env_v.subrange(0, i as int));
            assert(env_v.subrange(0, i as int + 1).last() == env_v[i as int]);
        }
        if !pair.0.as_str().is_empty() {
            let ghost before = r@;
            r.push((pair.0.clone(), pair.1.clone()));
            proof {
                assert(r.deep_view() =~= spec_nonempty_env(env_v.subrange(0, i as int)).push(
                    env_v[i as int],
                ));
            }
        }
        i = i + 1;
    }
    proof {
        assert(env_v.subrange(0, env_v.len() as int) =~= env_v);
    }
    r
}

/// The shell the primary container runs its startup script with.
pub open spec fn spec_container_command() -> Seq<Seq<char>> {
    seq!["/bin/bash"@, "-x"@, "-euo"@, "pipefail"@, "-c"@]
}

/// The shell preamble every startup script shares: it defines
/// `prepare_signal_handlers`, which forwards a TERM signal to the child
/// process, and `wait_for_termination`, which waits for the child up to
/// the pod's graceful period.
pub const BASH_TRAP_FUNCTIONS: &'static str = "prepare_signal_handlers()
{
  unset term_child_pid
  unset term_kill_needed
  trap 'handle_term_signal' TERM
}

handle_term_signal()
{
  if [ \"${term_child_pid}\" ]; then
    kill -TERM \"${term_child_pid}\" 2>/dev/null
  else
    term_kill_needed=\"yes\"
  fi
}

wait_for_termination()
{
  set +e
  term_child_pid=$1
  if [[ -v term_kill_needed ]]; then
    kill -TERM \"${term_child_pid}\" 2>/dev/null
  fi
  wait ${term_child_pid} 2>/dev/null
  trap - TERM
  wait ${term_child_pid} 2>/dev/null
  set -e
}";

/// The startup script the shell receives as its single argument: the
/// signal-handling preamble, then, line by line: clear the
/// sidecar-shutdown marker, install the signal handlers, run the process,
/// wait up to the graceful period, then emit the sidecar-shutdown marker.
pub open spec fn spec_container_script() -> Seq<char> {
    BASH_TRAP_FUNCTIONS@ + "\n"@ + "rm -f /stackable/log/_vector/shutdown"@ + "\n"@
        + "prepare_signal_handlers"@ + "\n"@ + "java -Djava.security.properties="@
        + crate::crd::STACKABLE_CONFIG_DIR@ + "/"@ + crate::crd::JVM_SECURITY_PROPERTIES@
        + " -jar hello-world.jar &"@ + "\n"@ + "wait_for_termination $!"@ + "\n"@
        + "touch /stackable/log/_vector/shutdown"@
}

/// The one argument handed to the shell.
pub open spec fn spec_container_args() -> Seq<Seq<char>> {
    seq![spec_container_script()]
}

/// The primary container: fixed probe timing (readiness: short initial
/// delay, frequent polling, moderate failure tolerance; liveness: longer
/// initial delay, same polling, stricter tolerance), resources from the
/// resolved configuration, environment from the validated overrides.
pub open spec fn spec_hello_container(
    img: ResolvedProductImageView,
    merged: HelloConfigView,
    env: Seq<(Seq<char>, Seq<char>)>,
) -> ContainerSpecView {
    ContainerSpecView {
        name: APP_NAME@,
        image: img.image,
        command: spec_container_command(),
        args: spec_container_args(),
        env: spec_nonempty_env(env),
        ports: seq![(crate::crd::HTTP_PORT_NAME@, crate::crd::HTTP_PORT)],
        volume_mounts: seq![
            (crate::crd::STACKABLE_CONFIG_DIR_NAME@, crate::crd::STACKABLE_CONFIG_DIR@),
            (crate::crd::STACKABLE_LOG_DIR_NAME@, crate::crd::STACKABLE_LOG_DIR@),
            (
                crate::crd::STACKABLE_LOG_CONFIG_MOUNT_DIR_NAME@,
                crate::crd::STACKABLE_LOG_CONFIG_MOUNT_DIR@,
            ),
        ],
        resources: Some(
            ContainerResourcesView {
                cpu_min: merged.cpu_min,
                cpu_max: merged.cpu_max,
                memory_limit: merged.memory_limit,
            },
        ),
        readiness_probe: Some(
            ProbeView {
                initial_delay_seconds: 10,
                period_seconds: 10,
                failure_threshold: Some(5),
                tcp_socket_port_name: crate::crd::HTTP_PORT_NAME@,
            },
        ),
        liveness_probe: Some(
            ProbeView {
                initial_delay_seconds: 30,
                period_seconds: 10,
                failure_threshold: None,
                tcp_socket_port_name: crate::crd::HTTP_PORT_NAME@,
            },
        ),
    }
}

/// The log-shipping sidecar, present when the resolved logging policy
/// enables it.
pub open spec fn spec_vector_container(img: ResolvedProductImageView) -> ContainerSpecView {
    ContainerSpecView {
        name: "vector"@,
        image: img.image,
        command: Seq::empty(),
        args: Seq::empty(),
        env: Seq::empty(),
        ports: Seq::empty(),
        volume_mounts: seq![
            (crate::crd::STACKABLE_CONFIG_DIR_NAME@, crate::crd::STACKABLE_CONFIG_DIR@),
            (crate::crd::STACKABLE_LOG_DIR_NAME@, crate::crd::STACKABLE_LOG_DIR@),
        ],
        resources: Some(
            ContainerResourcesView {
                cpu_min: "250m"@,
                cpu_max: "500m"@,
                memory_limit: "128Mi"@,
            },
        ),
        readiness_probe: None,
        liveness_probe: None,
    }
}

/// Raw administrator overrides replace computed template fields whole,
/// later level wins: a deliberate escape hatch, not a merge.
pub open spec fn spec_apply_pod_overrides(
    t: PodTemplateView,
    ov: PodTemplateOverridesView,
) -> PodTemplateView {
    PodTemplateView {
        labels: t.labels,
        containers: t.containers,
        volumes: t.volumes,
        affinity: match ov.affinity {
            Some(a) => a,
            None => t.affinity,
        },
        service_account_name: match ov.service_account_name {
            Some(s) => s,
            None => t.service_account_name,
        },
        termination_grace_period_seconds: match ov.termination_grace_period_seconds {
            Some(s) => s,
            None => t.termination_grace_period_seconds,
        },
    }
}

fn apply_pod_overrides(t: &mut PodTemplate, ov: &PodTemplateOverrides)
    ensures
        final(t)@ == spec_apply_pod_overrides(old(t)@, ov@),
{
    if let Some(secs) = ov.termination_grace_period_seconds {
        t.termination_grace_period_seconds = secs;
    }
    if let Some(sa) = &ov.service_account_name {
        t.service_account_name = sa.clone();
    }
    if let Some(aff) = &ov.affinity {
        t.affinity = clone_affinity(aff);
    }
}

/// The volumes of the workload's pod: the configuration bundle, an
/// ephemeral log directory, and the log configuration, mounted from the
/// administrator's custom ConfigMap when one is named, else from the
/// role-group's own bundle.
pub open spec fn spec_pod_volumes(
    merged: HelloConfigView,
    object_name: Seq<char>,
) -> Seq<VolumeView> {
    seq![
        VolumeView {
            name: crate::crd::STACKABLE_CONFIG_DIR_NAME@,
            source: VolumeSourceView::ConfigMap { config_map_name: object_name },
        },
        VolumeView {
            name: crate::crd::STACKABLE_LOG_DIR_NAME@,
            source: VolumeSourceView::EmptyDir { size_limit: Some("10Mi"@) },
        },
        VolumeView {
            name: crate::crd::STACKABLE_LOG_CONFIG_MOUNT_DIR_NAME@,
            source: VolumeSourceView::ConfigMap {
                config_map_name: match merged.logging.hello_custom_log_config {
                    Some(cm) => cm,
                    None => object_name,
                },
            },
        },
    ]
}

/// The workload's pod template before the raw overrides.
pub open spec fn spec_pod_template(
    c: HelloClusterView,
    img: ResolvedProductImageView,
    rg: RoleGroupRefView,
    merged: HelloConfigView,
    env: Seq<(Seq<char>, Seq<char>)>,
    sa_name: Seq<char>,
) -> PodTemplateView {
    PodTemplateView {
        labels: spec_recommended_labels(
            spec_name_any(c),
            img.app_version_label,
            rg.role,
            rg.role_group,
        ),
        containers: if merged.logging.enable_vector_agent {
            seq![spec_hello_container(img, merged, env), spec_vector_container(img)]
        } else {
            seq![spec_hello_container(img, merged, env)]
        },
        volumes: spec_pod_volumes(merged, object_name_view(rg.cluster_name, rg.role, rg.role_group)),
        affinity: merged.affinity,
        service_account_name: sa_name,
        termination_grace_period_seconds: merged.graceful_shutdown_timeout_secs,
    }
}

/// The role-group's workload: an ordinal-indexed, stable-identity group
/// of replicas, addressable through the role-group's headless service,
/// with the raw role and role-group overrides applied last. An absent
/// replica count stays absent, for the store to default; a stopped
/// cluster keeps the workload but scales it to zero.
pub open spec fn spec_rolegroup_statefulset(
    c: HelloClusterView,
    img: ResolvedProductImageView,
    rg: RoleGroupRefView,
    cfg: RoleGroupConfigView,
    merged: HelloConfigView,
    sa_name: Seq<char>,
    group: RoleGroupView,
) -> ResourceView {
    ResourceView {
        name: object_name_view(rg.cluster_name, rg.role, rg.role_group),
        namespace: c.namespace.unwrap(),
        labels: spec_recommended_labels(
            spec_name_any(c),
            img.app_version_label,
            rg.role,
            rg.role_group,
        ),
        payload: ResourcePayloadView::StatefulSet(
            StatefulSetSpecView {
                pod_management_policy: "Parallel"@,
                replicas: if c.cluster_operation.stopped {
                    Some(0u16)
                } else {
                    group.replicas
                },
                selector: spec_role_group_selector(spec_name_any(c), rg.role, rg.role_group),
                service_name: object_name_view(rg.cluster_name, rg.role, rg.role_group),
                template: spec_apply_pod_overrides(
                    spec_apply_pod_overrides(
                        spec_pod_template(c, img, rg, merged, cfg.env, sa_name),
                        c.servers.unwrap().config.pod_overrides,
                    ),
                    group.config.pod_overrides,
                ),
                volume_claim_templates: seq![
                    PvcClaimView {
                        name: "data"@,
                        capacity: merged.storage_capacity,
                        storage_class: merged.storage_class,
                        access_modes: seq!["ReadWriteOnce"@],
                    },
                ],
            },
        ),
    }
}

/// The rolegroup StatefulSet runs the rolegroup, as configured by the
/// administrator. Its pods are reachable through the role-group service
/// from `build_rolegroup_service`.
pub fn build_server_rolegroup_statefulset(
    hello: &HelloCluster,
    resolved_product_image: &ResolvedProductImage,
    hello_role: &crate::crd::HelloRole,
    role_group_ref: &RoleGroupRef,
    rolegroup_config: &RoleGroupConfig,
    merged_config: &HelloConfig,
    sa_name: &str,
) -> (r: Result<Resource, Error>)
    ensures
        hello@.servers is None ==> (r matches Err(e) && (e matches Error::InternalOperatorFailure {
            source } && (source matches crate::crd::Error::CannotRetrieveHelloRole { .. }))),
        hello@.servers is Some && role_group_ref@.role != "server"@ ==> (r matches Err(e)
            && (e matches Error::InternalOperatorFailure { source }
                && (source matches crate::crd::Error::UnknownHelloRole { .. }))),
        hello@.servers is Some && role_group_ref@.role == "server"@ ==> match crate::crd::spec_find_role_group(
            crate::crd::spec_server_groups(hello@),
            role_group_ref@.role_group,
        ) {
            None => r matches Err(e) && (e matches Error::InternalOperatorFailure { source }
                && (source matches crate::crd::Error::CannotRetrieveHelloRoleGroup { .. })),
            Some(group) => {
                if hello@.namespace is None {
                    r == Err::<Resource, Error>(Error::ObjectHasNoNamespace)
                } else {
                    r matches Ok(res) && res@ == spec_rolegroup_statefulset(
                        hello@,
                        resolved_product_image@,
                        role_group_ref@,
                        rolegroup_config@,
                        merged_config@,
                        sa_name@,
                        group,
                    )
                }
            },
        },
{
    let role = match hello.role(hello_role) {
        Ok(role) => role,
        Err(e) => {
            return Err(Error::InternalOperatorFailure { source: e });
        },
    };
    let role_group = match hello.role_group(role_group_ref) {
        Ok(role_group) => role_group,
        Err(e) => {
            return Err(Error::InternalOperatorFailure { source: e });
        },
    };
    let namespace = match &hello.metadata.namespace {
        Some(ns) => ns.clone(),
        None => {
            return Err(Error::ObjectHasNoNamespace);
        },
    };
    let owner = hello.name_any();
    let object_name = role_group_ref.object_name();

    let env = nonempty_env(&rolegroup_config.env);

    let container_hello = ContainerSpec {
        name: APP_NAME.to_owned(),
        image: resolved_product_image.image.clone(),
        command: build_container_command(),
        args: build_container_args(),
        env,
        ports: build_container_ports(),
        volume_mounts: build_hello_volume_mounts(),
        resources: Some(
            ContainerResources {
                cpu_min: merged_config.cpu_min.clone(),
                cpu_max: merged_config.cpu_max.clone(),
                memory_limit: merged_config.memory_limit.clone(),
            },
        ),
        readiness_probe: Some(
            Probe {
                initial_delay_seconds: 10,
                period_seconds: 10,
                failure_threshold: Some(5),
                tcp_socket_port_name: crate::crd::HTTP_PORT_NAME.to_owned(),
            },
        ),
        liveness_probe: Some(
            Probe {
                initial_delay_seconds: 30,
                period_seconds: 10,
                failure_threshold: None,
                tcp_socket_port_name: crate::crd::HTTP_PORT_NAME.to_owned(),
            },
        ),
    };
    proof {
        assert(container_hello@ == spec_hello_container(
            resolved_product_image@,
            merged_config@,
            rolegroup_config@.env,
        ));
    }

    let mut containers: Vec<ContainerSpec> = Vec::new();
    containers.push(container_hello);
    if merged_config.logging.enable_vector_agent {
        let vector = ContainerSpec {
            name: "vector".to_owned(),
            image: resolved_product_image.image.clone(),
            command: Vec::new(),
            args: Vec::new(),
            env: Vec::new(),
            ports: Vec::new(),
            volume_mounts: build_vector_volume_mounts(),
            resources: Some(
                ContainerResources {
                    cpu_min: "250m".to_owned(),
                    cpu_max: "500m".to_owned(),
                    memory_limit: "128Mi".to_owned(),
                },
            ),
            readiness_probe: None,
            liveness_probe: None,
        };
        proof {
            assert(vector@.command =~= Seq::<Seq<char>>::empty());
            assert(vector@.args =~= Seq::<Seq<char>>::empty());
            assert(vector@.env =~= Seq::<(Seq<char>, Seq<char>)>::empty());
            assert(vector@.ports =~= Seq::<(Seq<char>, u16)>::empty());
            assert(vector@ == spec_vector_container(resolved_product_image@));
        }
        containers.push(vector);
    }

    let log_config_map = match &merged_config.logging.hello_custom_log_config {
        Some(cm) => cm.clone(),
        None => object_name.clone(),
    };
    let mut volumes: Vec<Volume> = Vec::new();
    volumes.push(
        Volume {
            name: crate::crd::STACKABLE_CONFIG_DIR_NAME.to_owned(),
            source: VolumeSource::ConfigMap { config_map_name: object_name.clone() },
        },
    );
    volumes.push(
        Volume {
            name: crate::crd::STACKABLE_LOG_DIR_NAME.to_owned(),
            source: VolumeSource::EmptyDir { size_limit: Some("10Mi".to_owned()) },
        },
    );
    volumes.push(
        Volume {
            name: crate::crd::STACKABLE_LOG_CONFIG_MOUNT_DIR_NAME.to_owned(),
            source: VolumeSource::ConfigMap { config_map_name: log_config_map },
        },
    );

    let labels = build_recommended_labels(
        owner.as_str(),
        resolved_product_image.app_version_label.as_str(),
        role_group_ref.role.as_str(),
        role_group_ref.role_group.as_str(),
    );
    let template_labels = build_recommended_labels(
        owner.as_str(),
        resolved_product_image.app_version_label.as_str(),
        role_group_ref.role.as_str(),
        role_group_ref.role_group.as_str(),
    );

    let ghost base_template = spec_pod_template(
        hello@,
        resolved_product_image@,
        role_group_ref@,
        merged_config@,
        rolegroup_config@.env,
        sa_name@,
    );
    proof {
        crate::crd::lemma_seq_views(containers@);
        crate::crd::lemma_seq_views(volumes@);
        assert(seq_views(containers@) =~= base_template.containers);
        assert(seq_views(volumes@) =~= base_template.volumes);
    }
    let mut pod_template = PodTemplate {
        labels: template_labels,
        containers,
        volumes,
        affinity: clone_affinity(&merged_config.affinity),
        service_account_name: sa_name.to_owned(),
        termination_grace_period_seconds: merged_config.graceful_shutdown_timeout_secs,
    };
    proof {
        assert(pod_template@ == base_template);
    }
    apply_pod_overrides(&mut pod_template, &role.config.pod_overrides);
    apply_pod_overrides(&mut pod_template, &role_group.config.pod_overrides);

    let replicas: Option<u16> = if hello.spec.cluster_operation.stopped {
        Some(0)
    } else {
        match &role_group.replicas {
            Some(n) => Some(*n),
            None => None,
        }
    };

    let selector = role_group_selector(
        owner.as_str(),
        role_group_ref.role.as_str(),
        role_group_ref.role_group.as_str(),
    );
    let mut access_modes: Vec<String> = Vec::new();
    access_modes.push("ReadWriteOnce".to_owned());
    let mut volume_claim_templates: Vec<PvcClaim> = Vec::new();
    let claim = PvcClaim {
        name: "data".to_owned(),
        capacity: merged_config.storage_capacity.clone(),
        storage_class: match &merged_config.storage_class {
            Some(sc) => Some(sc.clone()),
            None => None,
        },
        access_modes,
    };
    proof {
        assert(claim@.access_modes =~= seq!["ReadWriteOnce"@]);
    }
    volume_claim_templates.push(claim);
    let ghost expected = spec_rolegroup_statefulset(
        hello@,
        resolved_product_image@,
        role_group_ref@,
        rolegroup_config@,
        merged_config@,
        sa_name@,
        crate::crd::spec_find_role_group(
            crate::crd::spec_server_groups(hello@),
            role_group_ref@.role_group,
        ).unwrap(),
    );
    proof {
        crate::crd::lemma_seq_views(volume_claim_templates@);
        assert(seq_views(volume_claim_templates@)
            =~= expected.payload->StatefulSet_0.volume_claim_templates);
    }

    let res = Resource {
        name: role_group_ref.object_name(),
        namespace,
        labels,
        payload: ResourcePayload::StatefulSet(
            StatefulSetSpec {
                pod_management_policy: "Parallel".to_owned(),
                replicas,
                selector,
                service_name: object_name,
                template: pod_template,
                volume_claim_templates,
            },
        ),
    };
    proof {
        assert(res@ == expected);
    }
    Ok(res)
}

/// The service account the workload pods run under.
pub const SERVICE_ACCOUNT_NAME: &'static str = "hello-world-serviceaccount";

/// The ownership marker of one cluster's tracker.
pub open spec fn spec_marker(c: HelloClusterView) -> crate::resources::OwnershipMarkerView {
    crate::resources::OwnershipMarkerView {
        app_name: APP_NAME@,
        cluster_name: spec_name_any(c),
        operator_name: OPERATOR_NAME@,
        controller_name: HELLO_CONTROLLER_NAME@,
    }
}

/// A boolean as a condition status.
pub open spec fn spec_condition_status(b: bool) -> crate::crd::ConditionStatus {
    if b {
        crate::crd::ConditionStatus::True
    } else {
        crate::crd::ConditionStatus::False
    }
}

/// The aggregated conditions of one reconcile: workload availability and
/// the cluster's operational mode.
pub open spec fn spec_conditions(available: bool, paused: bool, stopped: bool) -> Seq<
    crate::crd::ClusterConditionView,
> {
    seq![
        crate::crd::ClusterConditionView {
            type_: crate::crd::ClusterConditionType::Available,
            status: spec_condition_status(available),
            message: if available {
                "every workload is ready"@
            } else {
                "a workload is not yet ready"@
            },
        },
        crate::crd::ClusterConditionView {
            type_: crate::crd::ClusterConditionType::ReconciliationPaused,
            status: spec_condition_status(paused),
            message: if paused {
                "reconciliation is paused"@
            } else {
                "reconciliation is active"@
            },
        },
        crate::crd::ClusterConditionView {
            type_: crate::crd::ClusterConditionType::Stopped,
            status: spec_condition_status(stopped),
            message: if stopped {
                "the cluster is stopped"@
            } else {
                "the cluster is running"@
            },
        },
    ]
}

fn condition(
    type_: crate::crd::ClusterConditionType,
    holds: bool,
    yes: &str,
    no: &str,
) -> (r: crate::crd::ClusterCondition)
    ensures
        r@ == (crate::crd::ClusterConditionView {
            type_: type_,
            status: spec_condition_status(holds),
            message: if holds {
                yes@
            } else {
                no@
            },
        }),
{
    crate::crd::ClusterCondition {
        type_,
        status: if holds {
            crate::crd::ConditionStatus::True
        } else {
            crate::crd::ConditionStatus::False
        },
        message: if holds {
            yes.to_owned()
        } else {
            no.to_owned()
        },
    }
}

fn build_status(available: bool, paused: bool, stopped: bool) -> (r:
    crate::crd::HelloClusterStatus)
    ensures
        r@.conditions == spec_conditions(available, paused, stopped),
{
    let mut conditions: Vec<crate::crd::ClusterCondition> = Vec::new();
    conditions.push(
        condition(
            crate::crd::ClusterConditionType::Available,
            available,
            "every workload is ready",
            "a workload is not yet ready",
        ),
    );
    conditions.push(
        condition(
            crate::crd::ClusterConditionType::ReconciliationPaused,
            paused,
            "reconciliation is paused",
            "reconciliation is active",
        ),
    );
    conditions.push(
        condition(
            crate::crd::ClusterConditionType::Stopped,
            stopped,
            "the cluster is stopped",
            "the cluster is running",
        ),
    );
    let r = crate::crd::HelloClusterStatus { conditions };
    proof {
        crate::crd::lemma_seq_views(r.conditions@);
        assert(r@.conditions =~= spec_conditions(available, paused, stopped));
    }
    r
}

/// The resolved configuration of one role-group, or the field that failed
/// validation.
pub open spec fn spec_merged_of_group(
    c: HelloClusterView,
    g: RoleGroupView,
) -> Result<HelloConfigView, Seq<char>> {
    crate::crd::spec_validate(
        crate::crd::spec_merge(
            g.config.config,
            crate::crd::spec_merge(
                c.servers.unwrap().config.config,
                HelloConfig::spec_default_config(spec_name_any(c), "server"@),
            ),
        ),
    )
}

/// The three resources of one role-group, in apply order: the headless
/// service first, then the configuration bundle, then the workload that
/// references both by name.
pub open spec fn spec_group_resources(
    c: HelloClusterView,
    img: ResolvedProductImageView,
    name: Seq<char>,
) -> Seq<ResourceView> {
    let g = crate::crd::spec_find_role_group(crate::crd::spec_server_groups(c), name).unwrap();
    let rg = RoleGroupRefView {
        cluster_name: spec_name_any(c),
        role: "server"@,
        role_group: name,
    };
    let cfg = spec_transform(c, c.servers.unwrap().config, g.config);
    let merged = spec_merged_of_group(c, g)->Ok_0;
    seq![
        spec_rolegroup_service(c, img, rg),
        spec_rolegroup_config_map(c, img, rg, cfg.files),
        spec_rolegroup_statefulset(c, img, rg, cfg, merged, SERVICE_ACCOUNT_NAME@, g),
    ]
}

/// The resources of a list of role-groups, in declaration order.
pub open spec fn spec_groups_resources(
    c: HelloClusterView,
    img: ResolvedProductImageView,
    groups: Seq<(Seq<char>, RoleGroupView)>,
) -> Seq<ResourceView>
    decreases groups.len(),
{
    if groups.len() == 0 {
        Seq::empty()
    } else {
        spec_groups_resources(c, img, groups.drop_last()) + spec_group_resources(
            c,
            img,
            groups.last().0,
        )
    }
}

/// The complete desired resource set of one reconcile, without the
/// disruption budget: the cluster endpoint first, then each role-group's
/// resources.
pub open spec fn spec_desired_resources(
    c: HelloClusterView,
    img: ResolvedProductImageView,
) -> Seq<ResourceView> {
    seq![spec_server_role_service(c, img)] + spec_groups_resources(
        c,
        img,
        crate::crd::spec_server_groups(c),
    )
}

/// The complete desired resource set, the disruption budget appended when
/// the role-level policy enables one.
pub open spec fn spec_desired_with_pdb(
    c: HelloClusterView,
    img: ResolvedProductImageView,
) -> Seq<ResourceView> {
    let pdb = c.servers.unwrap().role_config.pod_disruption_budget;
    if pdb.enabled {
        spec_desired_resources(c, img) + seq![
            crate::pdb::spec_pdb_resource(c, crate::pdb::spec_max_unavailable(pdb)),
        ]
    } else {
        spec_desired_resources(c, img)
    }
}

/// The first role-group, in declaration order, whose merged configuration
/// fails validation: its name and the missing field.
pub open spec fn spec_first_invalid_group(
    c: HelloClusterView,
    groups: Seq<(Seq<char>, RoleGroupView)>,
) -> Option<(Seq<char>, Seq<char>)>
    decreases groups.len(),
{
    if groups.len() == 0 {
        None
    } else {
        let name = groups.first().0;
        let g = crate::crd::spec_find_role_group(crate::crd::spec_server_groups(c), name).unwrap();
        match spec_merged_of_group(c, g) {
            Err(f) => Some((name, f)),
            Ok(_) => spec_first_invalid_group(c, groups.drop_first()),
        }
    }
}

/// Every group segment of the desired list is a prefix-aligned segment:
/// the list is three resources per group, and the resources of the first
/// `i` groups are its first `3 i` entries.
proof fn lemma_groups_resources_prefix(
    c: HelloClusterView,
    img: ResolvedProductImageView,
    groups: Seq<(Seq<char>, RoleGroupView)>,
    i: int,
)
    requires
        0 <= i <= groups.len(),
    ensures
        spec_groups_resources(c, img, groups).len() == 3 * groups.len(),
        spec_groups_resources(c, img, groups.subrange(0, i)) =~= spec_groups_resources(
            c,
            img,
            groups,
        ).subrange(0, 3 * i),
    decreases groups.len(),
{
    if groups.len() == 0 {
        assert(groups.subrange(0, i) =~= groups);
    } else {
        let pre = groups.drop_last();
        if i <= pre.len() {
            lemma_groups_resources_prefix(c, img, pre, i);
            assert(groups.subrange(0, i) =~= pre.subrange(0, i));
            assert(spec_groups_resources(c, img, groups).subrange(0, 3 * i)
                =~= spec_groups_resources(c, img, pre).subrange(0, 3 * i));
        } else {
            lemma_groups_resources_prefix(c, img, pre, pre.len() as int);
            assert(groups.subrange(0, i) =~= groups);
            assert(spec_groups_resources(c, img, groups).subrange(0, 3 * i)
                =~= spec_groups_resources(c, img, groups));
        }
    }
}

/// Every resource the builders produce carries the cluster's ownership
/// marker.
proof fn lemma_groups_resources_marker(
    c: HelloClusterView,
    img: ResolvedProductImageView,
    groups: Seq<(Seq<char>, RoleGroupView)>,
)
    ensures
        forall|j: int|
            0 <= j < spec_groups_resources(c, img, groups).len()
                ==> crate::resources::spec_marker_matches(
                (#[trigger] spec_groups_resources(c, img, groups)[j]).labels,
                spec_marker(c),
            ),
    decreases groups.len(),
{
    if groups.len() > 0 {
        lemma_groups_resources_marker(c, img, groups.drop_last());
    }
}

/// Appending to a common prefix is injective.
proof fn lemma_append_cancel(q: Seq<char>, a: Seq<char>, b: Seq<char>)
    requires
        q + a == q + b,
    ensures
        a == b,
{
    assert((q + a).len() == q.len() + a.len());
    assert((q + b).len() == q.len() + b.len());
    assert((q + a).len() == (q + b).len());
    assert(a.len() == b.len());
    assert forall|t: int| 0 <= t < a.len() implies a[t] == b[t] by {
        assert((q + a)[q.len() + t] == a[t]);
        assert((q + b)[q.len() + t] == b[t]);
    }
    assert(a =~= b);
}

/// Distinct role-group names give distinct object names.
proof fn lemma_object_names_injective(cluster: Seq<char>, g1: Seq<char>, g2: Seq<char>)
    requires
        g1 != g2,
    ensures
        object_name_view(cluster, "server"@, g1) != object_name_view(cluster, "server"@, g2),
{
    if object_name_view(cluster, "server"@, g1) == object_name_view(cluster, "server"@, g2) {
        lemma_append_cancel(cluster + "-"@ + "server"@ + "-"@, g1, g2);
    }
}

/// The element of the desired list each group position holds.
proof fn lemma_groups_resources_index(
    c: HelloClusterView,
    img: ResolvedProductImageView,
    groups: Seq<(Seq<char>, RoleGroupView)>,
    i: int,
)
    requires
        0 <= i < groups.len(),
    ensures
        spec_groups_resources(c, img, groups).len() == 3 * groups.len(),
        forall|k: int|
            0 <= k < 3 ==> spec_groups_resources(c, img, groups)[3 * i + k]
                == spec_group_resources(c, img, groups[i].0)[k],
    decreases groups.len(),
{
    lemma_groups_resources_prefix(c, img, groups, groups.len() as int);
    if i == groups.len() - 1 {
        let pre = groups.drop_last();
        lemma_groups_resources_prefix(c, img, pre, pre.len() as int);
        assert forall|k: int|
            0 <= k < 3 implies spec_groups_resources(c, img, groups)[3 * i + k]
            == spec_group_resources(c, img, groups[i].0)[k] by {
            assert(spec_groups_resources(c, img, groups)[3 * i + k] == (spec_groups_resources(
                c,
                img,
                pre,
            ) + spec_group_resources(c, img, groups.last().0))[3 * i + k]);
        }
    } else {
        let pre = groups.drop_last();
        lemma_groups_resources_index(c, img, pre, i);
        assert forall|k: int|
            0 <= k < 3 implies spec_groups_resources(c, img, groups)[3 * i + k]
            == spec_group_resources(c, img, groups[i].0)[k] by {
            assert(pre[i] == groups[i]);
            assert(spec_groups_resources(c, img, groups)[3 * i + k] == (spec_groups_resources(
                c,
                img,
                pre,
            ) + spec_group_resources(c, img, groups.last().0))[3 * i + k]);
            assert((spec_groups_resources(c, img, pre) + spec_group_resources(
                c,
                img,
                groups.last().0,
            ))[3 * i + k] == spec_groups_resources(c, img, pre)[3 * i + k]);
        }
    }
}

/// When the cluster object is named and the role-group names are
/// distinct, every resource of the desired set has a distinct identity:
/// a well-formed specification never trips the internal invariant.
pub proof fn lemma_desired_identities_unique(c: HelloClusterView, img: ResolvedProductImageView)
    requires
        c.name is Some,
        c.servers is Some,
        forall|i: int, j: int|
            0 <= i < j < crate::crd::spec_server_groups(c).len() ==> (
            #[trigger] crate::crd::spec_server_groups(c)[i]).0 != (
            #[trigger] crate::crd::spec_server_groups(c)[j]).0,
    ensures
        crate::resources::spec_unique_identities(spec_desired_with_pdb(c, img)),
{
    let groups = crate::crd::spec_server_groups(c);
    let full = spec_groups_resources(c, img, groups);
    let ds_nopdb = spec_desired_resources(c, img);
    let ds = spec_desired_with_pdb(c, img);
    lemma_groups_resources_prefix(c, img, groups, groups.len() as int);
    let n = spec_name_any(c);
    reveal_strlit("-");
    reveal_strlit("server");

    // Characterize every position of the desired list.
    assert forall|p: int|
        1 <= p < 1 + full.len() implies #[trigger] ds_nopdb[p] == spec_group_resources(
        c,
        img,
        groups[(p - 1) / 3].0,
    )[(p - 1) % 3] by {
        let i = (p - 1) / 3;
        let k = (p - 1) % 3;
        lemma_groups_resources_index(c, img, groups, i);
        assert(ds_nopdb[p] == full[p - 1]);
        assert(full[3 * i + k] == spec_group_resources(c, img, groups[i].0)[k]);
    }
    assert(ds_nopdb[0] == spec_server_role_service(c, img));

    assert forall|a: int, b: int|
        0 <= a < b < ds.len() implies crate::resources::spec_identity(#[trigger] ds[a])
        != crate::resources::spec_identity(#[trigger] ds[b]) by {
        let pdb_cfg = c.servers.unwrap().role_config.pod_disruption_budget;
        assert(ds.len() == ds_nopdb.len() + if pdb_cfg.enabled { 1int } else { 0int });
        assert(forall|p: int| 0 <= p < ds_nopdb.len() ==> #[trigger] ds[p] == ds_nopdb[p]);
        if b >= ds_nopdb.len() {
            // `b` is the disruption budget: the only resource of its kind.
            assert(crate::resources::spec_identity(ds[b]).kind
                == crate::resources::ResourceKind::PodDisruptionBudget);
            if a == 0 {
                assert(crate::resources::spec_identity(ds[a]).kind
                    == crate::resources::ResourceKind::Service);
            } else {
                let i = (a - 1) / 3;
                let k = (a - 1) % 3;
                assert(ds[a] == spec_group_resources(c, img, groups[i].0)[k]);
                assert(crate::resources::spec_identity(ds[a]).kind
                    != crate::resources::ResourceKind::PodDisruptionBudget);
            }
        } else if a == 0 {
            // The role service against a group resource: same kind only
            // for the group services, whose names are strictly longer.
            let i = (b - 1) / 3;
            let k = (b - 1) % 3;
            assert(ds[b] == spec_group_resources(c, img, groups[i].0)[k]);
            let obj = object_name_view(n, "server"@, groups[i].0);
            assert(obj.len() > n.len());
            assert(crate::resources::spec_identity(ds[a]).name == c.name.unwrap());
            assert(c.name.unwrap() == n);
            assert(crate::resources::spec_identity(ds[b]).name == obj);
        } else {
            let i = (a - 1) / 3;
            let k = (a - 1) % 3;
            let i2 = (b - 1) / 3;
            let k2 = (b - 1) % 3;
            assert(ds[a] == spec_group_resources(c, img, groups[i].0)[k]);
            assert(ds[b] == spec_group_resources(c, img, groups[i2].0)[k2]);
            if i == i2 {
                // Within one group the three kinds differ.
                assert(k != k2);
            } else {
                // Across groups the object names differ; within equal
                // positions the kinds agree but the names cannot.
                assert(groups[i].0 != groups[i2].0);
                lemma_object_names_injective(n, groups[i].0, groups[i2].0);
            }
        }
    }
}

/// The disruption budget is the only resource of its kind: nothing else
/// in the desired list carries it.
proof fn lemma_desired_kinds(c: HelloClusterView, img: ResolvedProductImageView)
    ensures
        forall|p: int|
            0 <= p < spec_desired_resources(c, img).len() ==> crate::resources::spec_identity(
                #[trigger] spec_desired_resources(c, img)[p],
            ).kind != crate::resources::ResourceKind::PodDisruptionBudget,
{
    let groups = crate::crd::spec_server_groups(c);
    let ds_nopdb = spec_desired_resources(c, img);
    lemma_groups_resources_prefix(c, img, groups, groups.len() as int);
    assert forall|p: int|
        0 <= p < ds_nopdb.len() implies crate::resources::spec_identity(
        #[trigger] ds_nopdb[p],
    ).kind != crate::resources::ResourceKind::PodDisruptionBudget by {
        if p >= 1 {
            let i = (p - 1) / 3;
            let k = (p - 1) % 3;
            lemma_groups_resources_index(c, img, groups, i);
            assert(ds_nopdb[p] == spec_groups_resources(c, img, groups)[p - 1]);
            assert(spec_groups_resources(c, img, groups)[3 * i + k] == spec_group_resources(
                c,
                img,
                groups[i].0,
            )[k]);
        }
    }
}

/// A repeated identity between a built prefix of the desired list and the
/// next resource breaks the uniqueness of the whole list.
proof fn lemma_duplicate_breaks_uniqueness(
    ds: Seq<ResourceView>,
    ds_nopdb: Seq<ResourceView>,
    prefix: Seq<ResourceView>,
    x: ResourceView,
)
    requires
        prefix.len() < ds_nopdb.len(),
        forall|k: int| 0 <= k < prefix.len() ==> #[trigger] prefix[k] == ds_nopdb[k],
        x == ds_nopdb[prefix.len() as int],
        ds.len() >= ds_nopdb.len(),
        forall|k: int| 0 <= k < ds_nopdb.len() ==> #[trigger] ds[k] == ds_nopdb[k],
        crate::resources::spec_identities(prefix).contains(crate::resources::spec_identity(x)),
    ensures
        !crate::resources::spec_unique_identities(ds),
{
    let k = choose|k: int|
        0 <= k < prefix.len() && #[trigger] crate::resources::spec_identities(prefix)[k]
            == crate::resources::spec_identity(x);
    assert(crate::resources::spec_identities(prefix)[k] == crate::resources::spec_identity(
        prefix[k],
    ));
    assert(crate::resources::spec_identity(ds[k]) == crate::resources::spec_identity(
        ds[prefix.len() as int],
    ));
}

/// One reconciliation pass for one cluster object: resolve the
/// configuration of every role-group, build the desired resource set,
/// apply it, aggregate the status, and prune this cluster's orphans. A
/// paused cluster only gets its status refreshed. Every error asks for a
/// bounded-delay retry through `error_policy`; convergence comes from
/// repeating the pass.
///
/// Success is owed whenever the object carries a name, a namespace and a
/// server role, every role-group's configuration validates, and the
/// desired identities are distinct; `lemma_desired_identities_unique`
/// discharges the last hypothesis for any specification whose role-group
/// names are distinct.
#[verifier::loop_isolation(false)]
#[verifier::rlimit(100)]
pub fn reconcile_hello(hello: &HelloCluster, store: &mut Store) -> (r: Result<
    (crate::crd::HelloClusterStatus, Action),
    Error,
>)
    requires
        old(store).wf(),
    ensures
        final(store).wf(),
        r matches Ok((status, action)) ==> action == Action::AwaitChange,
        r is Err ==> final(store)@ == old(store)@,
        hello@.cluster_operation.reconciliation_paused ==> (r matches Ok((status, action))
            && final(store)@ == old(store)@ && status@.conditions == spec_conditions(
            crate::tracker::spec_all_statefulsets_ready(old(store)@, spec_marker(hello@)),
            true,
            hello@.cluster_operation.stopped,
        )),
        !hello@.cluster_operation.reconciliation_paused && hello@.servers is None ==> r == Err::<
            (crate::crd::HelloClusterStatus, Action),
            Error,
        >(Error::NoServerRole) && final(store)@ == old(store)@,
        (!hello@.cluster_operation.reconciliation_paused && hello@.servers is Some
            && spec_first_invalid_group(hello@, crate::crd::spec_server_groups(hello@)) is Some)
            ==> (r matches Err(e) && (e matches Error::FailedToResolveResourceConfig { source }
            && (source matches crate::crd::Error::FragmentValidationFailure { field, role_group }
                && field@ == spec_first_invalid_group(
                hello@,
                crate::crd::spec_server_groups(hello@),
            ).unwrap().1 && role_group@ == spec_first_invalid_group(
                hello@,
                crate::crd::spec_server_groups(hello@),
            ).unwrap().0)) && final(store)@ == old(store)@),
        !hello@.cluster_operation.reconciliation_paused && hello@.servers is Some
            && spec_first_invalid_group(hello@, crate::crd::spec_server_groups(hello@)) is None
            && hello@.name is None ==> r == Err::<(crate::crd::HelloClusterStatus, Action), Error>(
            Error::GlobalServiceNameNotFound,
        ) && final(store)@ == old(store)@,
        !hello@.cluster_operation.reconciliation_paused && hello@.servers is Some
            && spec_first_invalid_group(hello@, crate::crd::spec_server_groups(hello@)) is None
            && hello@.name is Some && hello@.namespace is None ==> r == Err::<
            (crate::crd::HelloClusterStatus, Action),
            Error,
        >(Error::ObjectHasNoNamespace) && final(store)@ == old(store)@,
        !hello@.cluster_operation.reconciliation_paused && hello@.servers is Some
            && spec_first_invalid_group(hello@, crate::crd::spec_server_groups(hello@)) is None
            && hello@.name is Some && hello@.namespace is Some
            && !crate::resources::spec_unique_identities(
            spec_desired_with_pdb(
                hello@,
                crate::crd::ProductImage::spec_resolve(hello@.image, DOCKER_IMAGE_BASE_NAME@),
            ),
        ) ==> (r matches Err(e) && (e matches Error::InternalInvariantError { name } && name@
            == crate::resources::spec_first_duplicate(
            spec_desired_with_pdb(
                hello@,
                crate::crd::ProductImage::spec_resolve(hello@.image, DOCKER_IMAGE_BASE_NAME@),
            ),
        ).unwrap().name)),
        !hello@.cluster_operation.reconciliation_paused && hello@.servers is Some
            && spec_first_invalid_group(hello@, crate::crd::spec_server_groups(hello@)) is None
            && hello@.name is Some && hello@.namespace is Some
            && crate::resources::spec_unique_identities(
            spec_desired_with_pdb(
                hello@,
                crate::crd::ProductImage::spec_resolve(hello@.image, DOCKER_IMAGE_BASE_NAME@),
            ),
        ) ==> {
            let img = crate::crd::ProductImage::spec_resolve(
                hello@.image,
                DOCKER_IMAGE_BASE_NAME@,
            );
            let ds = spec_desired_with_pdb(hello@, img);
            let applied = crate::tracker::spec_apply_seq(old(store)@, ds);
            &&& r matches Ok(sa)
            &&& sa.1 == Action::AwaitChange
            &&& final(store)@ == crate::tracker::spec_prune(
                applied,
                spec_marker(hello@),
                crate::resources::spec_identities(ds),
            )
            &&& sa.0@.conditions == spec_conditions(
                crate::tracker::spec_all_statefulsets_ready(applied, spec_marker(hello@)),
                false,
                hello@.cluster_operation.stopped,
            )
        },
{
    let resolved_image = hello.spec.image.resolve(DOCKER_IMAGE_BASE_NAME);
    let marker = crate::tracker::OwnershipMarker {
        app_name: APP_NAME.to_owned(),
        cluster_name: hello.name_any(),
        operator_name: OPERATOR_NAME.to_owned(),
        controller_name: HELLO_CONTROLLER_NAME.to_owned(),
    };
    proof {
        assert(marker@ == spec_marker(hello@));
    }
    let stopped = hello.spec.cluster_operation.stopped;

    if hello.spec.cluster_operation.reconciliation_paused {
        // A paused cluster: skip building, applying and pruning; only
        // refresh the status.
        let available = store.all_owned_statefulsets_ready(&marker);
        let status = build_status(available, true, stopped);
        return Ok((status, Action::AwaitChange));
    }

    let role = match &hello.spec.servers {
        Some(role) => role,
        None => {
            return Err(Error::NoServerRole);
        },
    };
    let ghost c = hello@;
    let ghost img_v = resolved_image@;
    let ghost groups_v = crate::crd::spec_server_groups(c);
    let groups = &role.role_groups;

    // Resolving: merge and validate every role-group's configuration; the
    // first validation failure short-circuits the pass.
    let mut merged_configs: Vec<HelloConfig> = Vec::new();
    proof {
        assert(groups_v.skip(0) =~= groups_v);
    }
    let mut i: usize = 0;
    while i < groups.len()
        invariant
            i <= groups@.len(),
            merged_configs@.len() == i,
            spec_first_invalid_group(c, groups_v) == spec_first_invalid_group(
                c,
                groups_v.skip(i as int),
            ),
            forall|j: int|
                0 <= j < i ==> {
                    let g = crate::crd::spec_find_role_group(groups_v, groups_v[j].0).unwrap();
                    spec_merged_of_group(c, g) is Ok && (#[trigger] merged_configs@[j])@
                        == spec_merged_of_group(c, g)->Ok_0
                },
        decreases groups@.len() - i,
    {
        let entry = &groups[i];
        proof {
            assert(groups_v[i as int] == (entry.0@, entry.1@));
            assert(groups_v.skip(i as int).first() == groups_v[i as int]);
            assert(groups_v.skip(i as int).drop_first() =~= groups_v.skip(i as int + 1));
            crate::crd::lemma_find_role_group_present(groups_v, i as int);
        }
        let rg_ref = hello.server_rolegroup_ref(entry.0.as_str());
        let merged = match hello.merged_config(&crate::crd::HelloRole::Server, &rg_ref) {
            Ok(m) => m,
            Err(e) => {
                return Err(Error::FailedToResolveResourceConfig { source: e });
            },
        };
        merged_configs.push(merged);
        i = i + 1;
    }
    proof {
        assert(groups_v.skip(groups_v.len() as int).len() == 0);
        assert(spec_first_invalid_group(c, groups_v) is None);
    }

    // The cluster-level endpoint, built once per cluster.
    let role_service = match build_server_role_service(hello, &resolved_image) {
        Ok(svc) => svc,
        Err(e) => {
            return Err(e);
        },
    };
    proof {
        assert(c.name is Some);
        assert(c.namespace is Some);
    }
    let ghost ds_nopdb = spec_desired_resources(c, img_v);
    let ghost ds = spec_desired_with_pdb(c, img_v);
    proof {
        lemma_groups_resources_prefix(c, img_v, groups_v, 0);
        assert forall|k: int| 0 <= k < ds_nopdb.len() implies #[trigger] ds[k] == ds_nopdb[k] by {}
    }

    // Building: accumulate every role-group's resources into one desired
    // resource set; a duplicate identity is a programming defect.
    let mut set = crate::resources::DesiredResourceSet::new();
    let dup_name = role_service.name.clone();
    let ghost role_svc_v = role_service@;
    if !set.add(role_service) {
        proof {
            assert(false);
        }
        return Err(Error::InternalInvariantError { name: dup_name });
    }

    let mut i: usize = 0;
    while i < groups.len()
        invariant
            i <= groups@.len(),
            set.wf(),
            set@ =~= seq![role_svc_v] + spec_groups_resources(
                c,
                img_v,
                groups_v.subrange(0, i as int),
            ),
        decreases groups@.len() - i,
    {
        let entry = &groups[i];
        proof {
            assert(groups_v[i as int] == (entry.0@, entry.1@));
            crate::crd::lemma_find_role_group_present(groups_v, i as int);
        }
        let rg_ref = hello.server_rolegroup_ref(entry.0.as_str());
        let found = match hello.role_group(&rg_ref) {
            Ok(g) => g,
            Err(_) => {
                proof {
                    assert(false);
                }
                return Err(Error::NoServerRole);
            },
        };
        let cfg = transform_role_group_config(hello, role, found);
        let merged = &merged_configs[i];
        let svc = match build_rolegroup_service(hello, &resolved_image, &rg_ref) {
            Ok(s) => s,
            Err(e) => {
                proof {
                    assert(false);
                }
                return Err(e);
            },
        };
        let cm = match build_server_rolegroup_config_map(hello, &resolved_image, &rg_ref, &cfg) {
            Ok(s) => s,
            Err(e) => {
                proof {
                    assert(false);
                }
                return Err(e);
            },
        };
        let sts = match build_server_rolegroup_statefulset(
            hello,
            &resolved_image,
            &crate::crd::HelloRole::Server,
            &rg_ref,
            &cfg,
            merged,
            SERVICE_ACCOUNT_NAME,
        ) {
            Ok(s) => s,
            Err(e) => {
                proof {
                    assert(false);
                }
                return Err(e);
            },
        };
        let ghost group3 = spec_group_resources(c, img_v, groups_v[i as int].0);
        let ghost full = spec_groups_resources(c, img_v, groups_v);
        proof {
            assert(svc@ == group3[0]);
            assert(cm@ == group3[1]);
            assert(sts@ == group3[2]);
            lemma_groups_resources_prefix(c, img_v, groups_v, i as int);
            lemma_groups_resources_prefix(c, img_v, groups_v, i as int + 1);
            assert(groups_v.subrange(0, i as int + 1).drop_last() =~= groups_v.subrange(
                0,
                i as int,
            ));
            assert(groups_v.subrange(0, i as int + 1).last() == groups_v[i as int]);
            assert(spec_groups_resources(c, img_v, groups_v.subrange(0, i as int + 1))
                == spec_groups_resources(c, img_v, groups_v.subrange(0, i as int)) + group3);
            assert(full.subrange(0, 3 * (i as int + 1)) =~= full.subrange(0, 3 * i as int)
                + group3);
            assert(full.subrange(0, 3 * (i as int + 1))[3 * i as int] == full[3 * i as int]);
            assert(full.subrange(0, 3 * (i as int + 1))[3 * i as int + 1] == full[3 * i as int
                + 1]);
            assert(full.subrange(0, 3 * (i as int + 1))[3 * i as int + 2] == full[3 * i as int
                + 2]);
            assert((full.subrange(0, 3 * i as int) + group3)[3 * i as int] == group3[0]);
            assert((full.subrange(0, 3 * i as int) + group3)[3 * i as int + 1] == group3[1]);
            assert((full.subrange(0, 3 * i as int) + group3)[3 * i as int + 2] == group3[2]);
            assert(full[3 * i as int] == group3[0]);
            assert(full[3 * i as int + 1] == group3[1]);
            assert(full[3 * i as int + 2] == group3[2]);
            assert forall|k: int|
                0 <= k < set@.len() implies #[trigger] set@[k] == ds_nopdb[k] by {
                if k >= 1 {
                    assert(set@[k] == spec_groups_resources(
                        c,
                        img_v,
                        groups_v.subrange(0, i as int),
                    )[k - 1]);
                    assert(ds_nopdb[k] == full[k - 1]);
                }
            }
        }
        let svc_name = svc.name.clone();
        let ghost svc_v = svc@;
        let ghost pos0 = set@.len();
        proof {
            assert(ds_nopdb[pos0 as int] == full[3 * i as int]);
            assert(full[3 * i as int] == group3[0]);
        }
        if !set.add(svc) {
            proof {
                lemma_duplicate_breaks_uniqueness(ds, ds_nopdb, set@, svc_v);
                assert(svc_v == ds[pos0 as int]);
                assert(ds.take(pos0 as int) =~= set@);
                lemma_first_duplicate_at(ds, pos0 as int);
            }
            return Err(Error::InternalInvariantError { name: svc_name });
        }
        let cm_name = cm.name.clone();
        let ghost cm_v = cm@;
        let ghost pos1 = set@.len();
        proof {
            assert(ds_nopdb[pos1 as int] == full[3 * i as int + 1]);
            assert(full[3 * i as int + 1] == group3[1]);
            assert forall|k: int|
                0 <= k < set@.len() implies #[trigger] set@[k] == ds_nopdb[k] by {}
        }
        if !set.add(cm) {
            proof {
                lemma_duplicate_breaks_uniqueness(ds, ds_nopdb, set@, cm_v);
                assert(cm_v == ds[pos1 as int]);
                assert(ds.take(pos1 as int) =~= set@);
                lemma_first_duplicate_at(ds, pos1 as int);
            }
            return Err(Error::InternalInvariantError { name: cm_name });
        }
        let sts_name = sts.name.clone();
        let ghost sts_v = sts@;
        let ghost pos2 = set@.len();
        proof {
            assert(ds_nopdb[pos2 as int] == full[3 * i as int + 2]);
            assert(full[3 * i as int + 2] == group3[2]);
            assert forall|k: int|
                0 <= k < set@.len() implies #[trigger] set@[k] == ds_nopdb[k] by {}
        }
        if !set.add(sts) {
            proof {
                lemma_duplicate_breaks_uniqueness(ds, ds_nopdb, set@, sts_v);
                assert(sts_v == ds[pos2 as int]);
                assert(ds.take(pos2 as int) =~= set@);
                lemma_first_duplicate_at(ds, pos2 as int);
            }
            return Err(Error::InternalInvariantError { name: sts_name });
        }
        proof {
            assert(set@ =~= seq![role_svc_v] + spec_groups_resources(
                c,
                img_v,
                groups_v.subrange(0, i as int + 1),
            ));
        }
        i = i + 1;
    }
    proof {
        assert(groups_v.subrange(0, groups_v.len() as int) =~= groups_v);
        assert(set@ =~= ds_nopdb);
    }

    // Applying: hand the whole set to the tracker; service objects come
    // before the workloads that reference them.
    let mut tracker = crate::tracker::ResourceTracker::new(marker);
    proof {
        lemma_groups_resources_marker(c, img_v, groups_v);
        assert forall|k: int|
            0 <= k < set@.len() implies crate::resources::spec_marker_matches(
            (#[trigger] set@[k]).labels,
            tracker@.marker,
        ) by {
            if k >= 1 {
                assert(set@[k] == spec_groups_resources(c, img_v, groups_v)[k - 1]);
            }
        }
    }
    let ghost m0 = store@;
    let ghost set_v = set@;
    tracker.apply_all(store, set);

    // The role-level disruption budget, when the policy enables one.
    let role_config = match hello.role_config(&crate::crd::HelloRole::Server) {
        Some(rc) => rc,
        None => {
            proof {
                assert(false);
            }
            return Err(Error::NoServerRole);
        },
    };
    match crate::pdb::add_pdbs(
        &role_config.pod_disruption_budget,
        hello,
        &crate::crd::HelloRole::Server,
        &mut tracker,
        store,
    ) {
        Ok(_) => {},
        Err(e) => {
            proof {
                assert(false);
            }
            return Err(Error::FailedToCreatePdb { source: e });
        },
    }
    proof {
        let pdb_cfg = c.servers.unwrap().role_config.pod_disruption_budget;
        if pdb_cfg.enabled {
            let p = crate::pdb::spec_pdb_resource(c, crate::pdb::spec_max_unavailable(pdb_cfg));
            assert(ds =~= ds_nopdb.push(p));
            assert(ds.drop_last() =~= ds_nopdb);
            assert(store@ == crate::tracker::spec_apply_seq(m0, ds));
            assert(crate::resources::spec_identities(ds) =~= crate::resources::spec_identities(
                ds_nopdb,
            ).push(crate::resources::spec_identity(p)));
            assert(tracker@.applied =~= crate::resources::spec_identities(ds));
        } else {
            assert(ds == ds_nopdb);
            assert(tracker@.applied =~= crate::resources::spec_identities(ds));
        }
        assert(tracker@.applied == crate::resources::spec_identities(ds));
    }

    // StatusUpdating: aggregate readiness and the operational mode, over
    // the freshly applied store, before pruning.
    let available = store.all_owned_statefulsets_ready(tracker.marker());
    let status = build_status(available, false, stopped);

    // Pruning: everything this cluster owns that was not applied in this
    // pass is an orphan and goes.
    tracker.delete_orphaned_resources(store);

    proof {
        // The completed set is duplicate-free, and the disruption budget
        // is the only resource of its kind, so the whole desired list is.
        assert(crate::resources::spec_unique_identities(ds_nopdb));
        lemma_desired_kinds(c, img_v);
        let pdb_cfg = c.servers.unwrap().role_config.pod_disruption_budget;
        if pdb_cfg.enabled {
            let p = crate::pdb::spec_pdb_resource(c, crate::pdb::spec_max_unavailable(pdb_cfg));
            assert(ds =~= ds_nopdb.push(p));
            assert forall|a: int, b: int|
                0 <= a < b < ds.len() implies crate::resources::spec_identity(#[trigger] ds[a])
                != crate::resources::spec_identity(#[trigger] ds[b]) by {
                if b < ds_nopdb.len() {
                    assert(ds[a] == ds_nopdb[a] && ds[b] == ds_nopdb[b]);
                } else {
                    assert(ds[b] == p);
                    assert(crate::resources::spec_identity(p).kind
                        == crate::resources::ResourceKind::PodDisruptionBudget);
                    assert(ds[a] == ds_nopdb[a]);
                    assert(crate::resources::spec_identity(ds_nopdb[a]).kind
                        != crate::resources::ResourceKind::PodDisruptionBudget);
                }
            }
        } else {
            assert(ds == ds_nopdb);
        }
        assert(crate::resources::spec_unique_identities(ds));
    }
    Ok((status, Action::AwaitChange))
}

fn build_container_command() -> (r: Vec<String>)
    ensures
        r.deep_view() == spec_container_command(),
{
    let mut r: Vec<String> = Vec::new();
    r.push("/bin/bash".to_owned());
    r.push("-x".to_owned());
    r.push("-euo".to_owned());
    r.push("pipefail".to_owned());
    r.push("-c".to_owned());
    proof {
        assert(r.deep_view() =~= spec_container_command());
    }
    r
}

fn build_container_args() -> (r: Vec<String>)
    ensures
        r.deep_view() == spec_container_args(),
{
    let mut script = BASH_TRAP_FUNCTIONS.to_owned();
    script.append("\n");
    script.append("rm -f /stackable/log/_vector/shutdown");
    script.append("\n");
    script.append("prepare_signal_handlers");
    script.append("\n");
    script.append("java -Djava.security.properties=");
    script.append(crate::crd::STACKABLE_CONFIG_DIR);
    script.append("/");
    script.append(crate::crd::JVM_SECURITY_PROPERTIES);
    script.append(" -jar hello-world.jar &");
    script.append("\n");
    script.append("wait_for_termination $!");
    script.append("\n");
    script.append("touch /stackable/log/_vector/shutdown");
    proof {
        assert(script@ =~= spec_container_script());
    }
    let mut r: Vec<String> = Vec::new();
    r.push(script);
    proof {
        assert(r.deep_view() =~= spec_container_args());
    }
    r
}

fn build_container_ports() -> (r: Vec<(String, u16)>)
    ensures
        r.deep_view() == seq![(crate::crd::HTTP_PORT_NAME@, crate::crd::HTTP_PORT)],
{
    let mut r: Vec<(String, u16)> = Vec::new();
    r.push((crate::crd::HTTP_PORT_NAME.to_owned(), crate::crd::HTTP_PORT));
    proof {
        assert(r.deep_view() =~= seq![(crate::crd::HTTP_PORT_NAME@, crate::crd::HTTP_PORT)]);
    }
    r
}

fn build_hello_volume_mounts() -> (r: Vec<(String, String)>)
    ensures
        r.deep_view() == seq![
            (crate::crd::STACKABLE_CONFIG_DIR_NAME@, crate::crd::STACKABLE_CONFIG_DIR@),
            (crate::crd::STACKABLE_LOG_DIR_NAME@, crate::crd::STACKABLE_LOG_DIR@),
            (
                crate::crd::STACKABLE_LOG_CONFIG_MOUNT_DIR_NAME@,
                crate::crd::STACKABLE_LOG_CONFIG_MOUNT_DIR@,
            ),
        ],
{
    let mut r: Vec<(String, String)> = Vec::new();
    r.push(
        (crate::crd::STACKABLE_CONFIG_DIR_NAME.to_owned(), crate::crd::STACKABLE_CONFIG_DIR.to_owned()),
    );
    r.push((crate::crd::STACKABLE_LOG_DIR_NAME.to_owned(), crate::crd::STACKABLE_LOG_DIR.to_owned()));
    r.push(
        (
            crate::crd::STACKABLE_LOG_CONFIG_MOUNT_DIR_NAME.to_owned(),
            crate::crd::STACKABLE_LOG_CONFIG_MOUNT_DIR.to_owned(),
        ),
    );
    proof {
        assert(r.deep_view() =~= seq![
            (crate::crd::STACKABLE_CONFIG_DIR_NAME@, crate::crd::STACKABLE_CONFIG_DIR@),
            (crate::crd::STACKABLE_LOG_DIR_NAME@, crate::crd::STACKABLE_LOG_DIR@),
            (
                crate::crd::STACKABLE_LOG_CONFIG_MOUNT_DIR_NAME@,
                crate::crd::STACKABLE_LOG_CONFIG_MOUNT_DIR@,
            ),
        ]);
    }
    r
}

fn build_vector_volume_mounts() -> (r: Vec<(String, String)>)
    ensures
        r.deep_view() == seq![
            (crate::crd::STACKABLE_CONFIG_DIR_NAME@, crate::crd::STACKABLE_CONFIG_DIR@),
            (crate::crd::STACKABLE_LOG_DIR_NAME@, crate::crd::STACKABLE_LOG_DIR@),
        ],
{
    let mut r: Vec<(String, String)> = Vec::new();
    r.push(
        (crate::crd::STACKABLE_CONFIG_DIR_NAME.to_owned(), crate::crd::STACKABLE_CONFIG_DIR.to_owned()),
    );
    r.push((crate::crd::STACKABLE_LOG_DIR_NAME.to_owned(), crate::crd::STACKABLE_LOG_DIR.to_owned()));
    proof {
        assert(r.deep_view() =~= seq![
            (crate::crd::STACKABLE_CONFIG_DIR_NAME@, crate::crd::STACKABLE_CONFIG_DIR@),
            (crate::crd::STACKABLE_LOG_DIR_NAME@, crate::crd::STACKABLE_LOG_DIR@),
        ]);
    }
    r
}

} // verus!
