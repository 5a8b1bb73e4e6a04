//! The resource specifications the engine computes: network endpoints,
//! configuration bundles, workloads and disruption budgets, each carrying
//! the ownership marker of the cluster that produced it, and the desired
//! resource set that collects them for one reconcile.

use vstd::prelude::*;
use vstd::string::*;

use crate::crd::{opt_view, seq_views, LoggingView, StackableAffinity, StackableAffinityView};

verus! {

/// The kinds of resource the engine manages.
#[derive(Clone, Copy, Debug, PartialEq, Eq, Structural)]
pub enum ResourceKind {
    Service,
    ConfigMap,
    StatefulSet,
    PodDisruptionBudget,
}

/// Unique key of one applied resource: kind, namespace and name.
#[derive(Clone, Debug, PartialEq, Eq)]
pub struct ResourceIdentity {
    pub kind: ResourceKind,
    pub namespace: String,
    pub name: String,
}

pub struct ResourceIdentityView {
    pub kind: ResourceKind,
    pub namespace: Seq<char>,
    pub name: Seq<char>,
}

impl View for ResourceIdentity {
    type V = ResourceIdentityView;

    open spec fn view(&self) -> ResourceIdentityView {
        ResourceIdentityView {
            kind: self.kind,
            namespace: self.namespace@,
            name: self.name@,
        }
    }
}

impl ResourceIdentity {
    /// Whether two identities name the same resource.
    pub fn same_as(&self, other: &ResourceIdentity) -> (r: bool)
        ensures
            r == (self@ == other@),
    {
        let kind_eq = match (self.kind, other.kind) {
            (ResourceKind::Service, ResourceKind::Service) => true,
            (ResourceKind::ConfigMap, ResourceKind::ConfigMap) => true,
            (ResourceKind::StatefulSet, ResourceKind::StatefulSet) => true,
            (ResourceKind::PodDisruptionBudget, ResourceKind::PodDisruptionBudget) => true,
            _ => false,
        };
        kind_eq && self.namespace == other.namespace && self.name == other.name
    }

    pub fn duplicate(&self) -> (r: ResourceIdentity)
        ensures
            r == *self,
    {
        ResourceIdentity {
            kind: self.kind,
            namespace: self.namespace.clone(),
            name: self.name.clone(),
        }
    }
}

/// The recommended labels every applied resource carries; the first five
/// fields form the ownership marker used for orphan detection.
#[derive(Clone, Debug, PartialEq, Eq)]
pub struct ObjectLabels {
    pub app_name: String,
    /// Name of the owning cluster object.
    pub owner_name: String,
    pub app_version: String,
    pub operator_name: String,
    pub controller_name: String,
    pub role: String,
    pub role_group: String,
}

pub struct ObjectLabelsView {
    pub app_name: Seq<char>,
    pub owner_name: Seq<char>,
    pub app_version: Seq<char>,
    pub operator_name: Seq<char>,
    pub controller_name: Seq<char>,
    pub role: Seq<char>,
    pub role_group: Seq<char>,
}

impl View for ObjectLabels {
    type V = ObjectLabelsView;

    open spec fn view(&self) -> ObjectLabelsView {
        ObjectLabelsView {
            app_name: self.app_name@,
            owner_name: self.owner_name@,
            app_version: self.app_version@,
            operator_name: self.operator_name@,
            controller_name: self.controller_name@,
            role: self.role@,
            role_group: self.role_group@,
        }
    }
}

impl ObjectLabels {
    pub fn duplicate(&self) -> (r: ObjectLabels)
        ensures
            r == *self,
    {
        ObjectLabels {
            app_name: self.app_name.clone(),
            owner_name: self.owner_name.clone(),
            app_version: self.app_version.clone(),
            operator_name: self.operator_name.clone(),
            controller_name: self.controller_name.clone(),
            role: self.role.clone(),
            role_group: self.role_group.clone(),
        }
    }
}

/// The ownership marker: which application, cluster, operator and
/// controller produced a resource.
pub struct OwnershipMarkerView {
    pub app_name: Seq<char>,
    pub cluster_name: Seq<char>,
    pub operator_name: Seq<char>,
    pub controller_name: Seq<char>,
}

/// Whether labels carry exactly this ownership marker.
pub open spec fn spec_marker_matches(labels: ObjectLabelsView, marker: OwnershipMarkerView) -> bool {
    &&& labels.app_name == marker.app_name
    &&& labels.owner_name == marker.cluster_name
    &&& labels.operator_name == marker.operator_name
    &&& labels.controller_name == marker.controller_name
}

/// A service endpoint specification.
#[derive(Clone, Debug, PartialEq, Eq)]
pub struct ServiceSpec {
    /// The exposure mechanism: `ClusterIP`, `NodePort` or `LoadBalancer`.
    pub type_: String,
    /// `None` for ordinary services; `Some("None")` for a headless,
    /// address-stable service.
    pub cluster_ip: Option<String>,
    /// (port name, port, protocol)
    pub ports: Vec<(String, u16, String)>,
    pub selector: Vec<(String, String)>,
    pub publish_not_ready_addresses: Option<bool>,
}

pub struct ServiceSpecView {
    pub type_: Seq<char>,
    pub cluster_ip: Option<Seq<char>>,
    pub ports: Seq<(Seq<char>, u16, Seq<char>)>,
    pub selector: Seq<(Seq<char>, Seq<char>)>,
    pub publish_not_ready_addresses: Option<bool>,
}

impl View for ServiceSpec {
    type V = ServiceSpecView;

    open spec fn view(&self) -> ServiceSpecView {
        ServiceSpecView {
            type_: self.type_@,
            cluster_ip: opt_view(self.cluster_ip),
            ports: self.ports.deep_view(),
            selector: self.selector.deep_view(),
            publish_not_ready_addresses: self.publish_not_ready_addresses,
        }
    }
}

/// A configuration bundle: named files, each a list of key/value pairs.
/// Rendering the pairs to file text is the content generator's job, not
/// this engine's.
#[derive(Clone, Debug, PartialEq, Eq)]
pub struct ConfigMapData {
    pub files: Vec<(String, Vec<(String, String)>)>,
}

pub struct ConfigMapDataView {
    pub files: Seq<(Seq<char>, Seq<(Seq<char>, Seq<char>)>)>,
}

impl View for ConfigMapData {
    type V = ConfigMapDataView;

    open spec fn view(&self) -> ConfigMapDataView {
        ConfigMapDataView { files: self.files.deep_view() }
    }
}

/// A liveness or readiness check against a named port.
#[derive(Clone, Debug, PartialEq, Eq)]
pub struct Probe {
    pub initial_delay_seconds: u16,
    pub period_seconds: u16,
    pub failure_threshold: Option<u16>,
    pub tcp_socket_port_name: String,
}

pub struct ProbeView {
    pub initial_delay_seconds: u16,
    pub period_seconds: u16,
    pub failure_threshold: Option<u16>,
    pub tcp_socket_port_name: Seq<char>,
}

impl View for Probe {
    type V = ProbeView;

    open spec fn view(&self) -> ProbeView {
        ProbeView {
            initial_delay_seconds: self.initial_delay_seconds,
            period_seconds: self.period_seconds,
            failure_threshold: self.failure_threshold,
            tcp_socket_port_name: self.tcp_socket_port_name@,
        }
    }
}

/// Where a volume's content comes from.
#[derive(Clone, Debug, PartialEq, Eq)]
pub enum VolumeSource {
    ConfigMap { config_map_name: String },
    EmptyDir { size_limit: Option<String> },
}

pub enum VolumeSourceView {
    ConfigMap { config_map_name: Seq<char> },
    EmptyDir { size_limit: Option<Seq<char>> },
}

impl View for VolumeSource {
    type V = VolumeSourceView;

    open spec fn view(&self) -> VolumeSourceView {
        match self {
            VolumeSource::ConfigMap { config_map_name } => VolumeSourceView::ConfigMap {
                config_map_name: config_map_name@,
            },
            VolumeSource::EmptyDir { size_limit } => VolumeSourceView::EmptyDir {
                size_limit: opt_view(*size_limit),
            },
        }
    }
}

/// A named volume of a pod.
#[derive(Clone, Debug, PartialEq, Eq)]
pub struct Volume {
    pub name: String,
    pub source: VolumeSource,
}

pub struct VolumeView {
    pub name: Seq<char>,
    pub source: VolumeSourceView,
}

impl View for Volume {
    type V = VolumeView;

    open spec fn view(&self) -> VolumeView {
        VolumeView { name: self.name@, source: self.source@ }
    }
}

/// Resource requests and limits of one container.
#[derive(Clone, Debug, PartialEq, Eq)]
pub struct ContainerResources {
    pub cpu_min: String,
    pub cpu_max: String,
    pub memory_limit: String,
}

pub struct ContainerResourcesView {
    pub cpu_min: Seq<char>,
    pub cpu_max: Seq<char>,
    pub memory_limit: Seq<char>,
}

impl View for ContainerResources {
    type V = ContainerResourcesView;

    open spec fn view(&self) -> ContainerResourcesView {
        ContainerResourcesView {
            cpu_min: self.cpu_min@,
            cpu_max: self.cpu_max@,
            memory_limit: self.memory_limit@,
        }
    }
}

/// One container of the workload's pod.
#[derive(Clone, Debug, PartialEq, Eq)]
pub struct ContainerSpec {
    pub name: String,
    pub image: String,
    pub command: Vec<String>,
    pub args: Vec<String>,
    pub env: Vec<(String, String)>,
    /// (port name, port)
    pub ports: Vec<(String, u16)>,
    /// (volume name, mount path)
    pub volume_mounts: Vec<(String, String)>,
    pub resources: Option<ContainerResources>,
    pub readiness_probe: Option<Probe>,
    pub liveness_probe: Option<Probe>,
}

pub struct ContainerSpecView {
    pub name: Seq<char>,
    pub image: Seq<char>,
    pub command: Seq<Seq<char>>,
    pub args: Seq<Seq<char>>,
    pub env: Seq<(Seq<char>, Seq<char>)>,
    pub ports: Seq<(Seq<char>, u16)>,
    pub volume_mounts: Seq<(Seq<char>, Seq<char>)>,
    pub resources: Option<ContainerResourcesView>,
    pub readiness_probe: Option<ProbeView>,
    pub liveness_probe: Option<ProbeView>,
}

impl View for ContainerSpec {
    type V = ContainerSpecView;

    open spec fn view(&self) -> ContainerSpecView {
        ContainerSpecView {
            name: self.name@,
            image: self.image@,
            command: self.command.deep_view(),
            args: self.args.deep_view(),
            env: self.env.deep_view(),
            ports: self.ports.deep_view(),
            volume_mounts: self.volume_mounts.deep_view(),
            resources: opt_view(self.resources),
            readiness_probe: opt_view(self.readiness_probe),
            liveness_probe: opt_view(self.liveness_probe),
        }
    }
}

/// The pod template of a workload.
#[derive(Clone, Debug, PartialEq, Eq)]
pub struct PodTemplate {
    pub labels: ObjectLabels,
    pub containers: Vec<ContainerSpec>,
    pub volumes: Vec<Volume>,
    pub affinity: StackableAffinity,
    pub service_account_name: String,
    pub termination_grace_period_seconds: u64,
}

pub struct PodTemplateView {
    pub labels: ObjectLabelsView,
    pub containers: Seq<ContainerSpecView>,
    pub volumes: Seq<VolumeView>,
    pub affinity: StackableAffinityView,
    pub service_account_name: Seq<char>,
    pub termination_grace_period_seconds: u64,
}

impl View for PodTemplate {
    type V = PodTemplateView;

    open spec fn view(&self) -> PodTemplateView {
        PodTemplateView {
            labels: self.labels@,
            containers: seq_views(self.containers@),
            volumes: seq_views(self.volumes@),
            affinity: self.affinity@,
            service_account_name: self.service_account_name@,
            termination_grace_period_seconds: self.termination_grace_period_seconds,
        }
    }
}

/// A claim for persistent storage, one per replica.
#[derive(Clone, Debug, PartialEq, Eq)]
pub struct PvcClaim {
    pub name: String,
    pub capacity: String,
    pub storage_class: Option<String>,
    pub access_modes: Vec<String>,
}

pub struct PvcClaimView {
    pub name: Seq<char>,
    pub capacity: Seq<char>,
    pub storage_class: Option<Seq<char>>,
    pub access_modes: Seq<Seq<char>>,
}

impl View for PvcClaim {
    type V = PvcClaimView;

    open spec fn view(&self) -> PvcClaimView {
        PvcClaimView {
            name: self.name@,
            capacity: self.capacity@,
            storage_class: opt_view(self.storage_class),
            access_modes: self.access_modes.deep_view(),
        }
    }
}

/// An ordinal-indexed, stable-identity group of replicas.
#[derive(Clone, Debug, PartialEq, Eq)]
pub struct StatefulSetSpec {
    pub pod_management_policy: String,
    pub replicas: Option<u16>,
    pub selector: Vec<(String, String)>,
    /// The headless service that gives each replica its address.
    pub service_name: String,
    pub template: PodTemplate,
    pub volume_claim_templates: Vec<PvcClaim>,
}

pub struct StatefulSetSpecView {
    pub pod_management_policy: Seq<char>,
    pub replicas: Option<u16>,
    pub selector: Seq<(Seq<char>, Seq<char>)>,
    pub service_name: Seq<char>,
    pub template: PodTemplateView,
    pub volume_claim_templates: Seq<PvcClaimView>,
}

impl View for StatefulSetSpec {
    type V = StatefulSetSpecView;

    open spec fn view(&self) -> StatefulSetSpecView {
        StatefulSetSpecView {
            pod_management_policy: self.pod_management_policy@,
            replicas: self.replicas,
            selector: self.selector.deep_view(),
            service_name: self.service_name@,
            template: self.template@,
            volume_claim_templates: seq_views(self.volume_claim_templates@),
        }
    }
}

/// A disruption budget for one role.
#[derive(Clone, Debug, PartialEq, Eq)]
pub struct PdbSpec {
    pub max_unavailable: u16,
    pub selector: Vec<(String, String)>,
}

pub struct PdbSpecView {
    pub max_unavailable: u16,
    pub selector: Seq<(Seq<char>, Seq<char>)>,
}

impl View for PdbSpec {
    type V = PdbSpecView;

    open spec fn view(&self) -> PdbSpecView {
        PdbSpecView {
            max_unavailable: self.max_unavailable,
            selector: self.selector.deep_view(),
        }
    }
}

/// The typed payload of one resource.
#[derive(Clone, Debug, PartialEq, Eq)]
pub enum ResourcePayload {
    Service(ServiceSpec),
    ConfigMap(ConfigMapData),
    StatefulSet(StatefulSetSpec),
    PodDisruptionBudget(PdbSpec),
}

pub enum ResourcePayloadView {
    Service(ServiceSpecView),
    ConfigMap(ConfigMapDataView),
    StatefulSet(StatefulSetSpecView),
    PodDisruptionBudget(PdbSpecView),
}

impl View for ResourcePayload {
    type V = ResourcePayloadView;

    open spec fn view(&self) -> ResourcePayloadView {
        match self {
            ResourcePayload::Service(s) => ResourcePayloadView::Service(s@),
            ResourcePayload::ConfigMap(c) => ResourcePayloadView::ConfigMap(c@),
            ResourcePayload::StatefulSet(s) => ResourcePayloadView::StatefulSet(s@),
            ResourcePayload::PodDisruptionBudget(p) => ResourcePayloadView::PodDisruptionBudget(
                p@,
            ),
        }
    }
}

/// The kind a payload belongs to.
pub open spec fn spec_payload_kind(p: ResourcePayloadView) -> ResourceKind {
    match p {
        ResourcePayloadView::Service(_) => ResourceKind::Service,
        ResourcePayloadView::ConfigMap(_) => ResourceKind::ConfigMap,
        ResourcePayloadView::StatefulSet(_) => ResourceKind::StatefulSet,
        ResourcePayloadView::PodDisruptionBudget(_) => ResourceKind::PodDisruptionBudget,
    }
}

impl ResourcePayload {
    pub fn kind(&self) -> (r: ResourceKind)
        ensures
            r == spec_payload_kind(self@),
    {
        match self {
            ResourcePayload::Service(_) => ResourceKind::Service,
            ResourcePayload::ConfigMap(_) => ResourceKind::ConfigMap,
            ResourcePayload::StatefulSet(_) => ResourceKind::StatefulSet,
            ResourcePayload::PodDisruptionBudget(_) => ResourceKind::PodDisruptionBudget,
        }
    }
}

/// One fully specified resource: name, namespace, labels and payload.
#[derive(Clone, Debug, PartialEq, Eq)]
pub struct Resource {
    pub name: String,
    pub namespace: String,
    pub labels: ObjectLabels,
    pub payload: ResourcePayload,
}

pub struct ResourceView {
    pub name: Seq<char>,
    pub namespace: Seq<char>,
    pub labels: ObjectLabelsView,
    pub payload: ResourcePayloadView,
}

impl View for Resource {
    type V = ResourceView;

    open spec fn view(&self) -> ResourceView {
        ResourceView {
            name: self.name@,
            namespace: self.namespace@,
            labels: self.labels@,
            payload: self.payload@,
        }
    }
}

/// The identity of a resource at the view level.
pub open spec fn spec_identity(r: ResourceView) -> ResourceIdentityView {
    ResourceIdentityView {
        kind: spec_payload_kind(r.payload),
        namespace: r.namespace,
        name: r.name,
    }
}

impl Resource {
    /// The unique key under which this resource is applied.
    pub fn identity(&self) -> (r: ResourceIdentity)
        ensures
            r@ == spec_identity(self@),
    {
        ResourceIdentity {
            kind: self.payload.kind(),
            namespace: self.namespace.clone(),
            name: self.name.clone(),
        }
    }
}

/// The desired resource set of one reconcile: resources under their
/// identities, each identity present at most once.
pub struct DesiredResourceSet {
    items: Vec<Resource>,
}

/// The identities of a sequence of resources, in order.
pub open spec fn spec_identities(items: Seq<ResourceView>) -> Seq<ResourceIdentityView> {
    Seq::new(items.len(), |i: int| spec_identity(items[i]))
}

/// No identity occurs twice.
pub open spec fn spec_unique_identities(items: Seq<ResourceView>) -> bool {
    forall|i: int, j: int|
        0 <= i < j < items.len() ==> spec_identity(#[trigger] items[i]) != spec_identity(
            #[trigger] items[j],
        )
}

/// The first resource whose identity already occurred earlier in the
/// list, if the list repeats one.
pub open spec fn spec_first_duplicate(rs: Seq<ResourceView>) -> Option<ResourceView>
    decreases rs.len(),
{
    if rs.len() == 0 {
        None
    } else if spec_first_duplicate(rs.drop_last()) is Some {
        spec_first_duplicate(rs.drop_last())
    } else if spec_identities(rs.drop_last()).contains(spec_identity(rs.last())) {
        Some(rs.last())
    } else {
        None
    }
}

/// A list with unique identities repeats none.
pub proof fn lemma_unique_no_duplicate(rs: Seq<ResourceView>)
    requires
        spec_unique_identities(rs),
    ensures
        spec_first_duplicate(rs) is None,
    decreases rs.len(),
{
    if rs.len() > 0 {
        let pre = rs.drop_last();
        assert(spec_unique_identities(pre)) by {
            assert forall|i: int, j: int|
                0 <= i < j < pre.len() implies spec_identity(#[trigger] pre[i]) != spec_identity(
                #[trigger] pre[j],
            ) by {
                assert(pre[i] == rs[i] && pre[j] == rs[j]);
            }
        }
        lemma_unique_no_duplicate(pre);
        if spec_identities(pre).contains(spec_identity(rs.last())) {
            let k = choose|k: int|
                0 <= k < pre.len() && #[trigger] spec_identities(pre)[k] == spec_identity(
                    rs.last(),
                );
            assert(spec_identities(pre)[k] == spec_identity(pre[k]));
            assert(pre[k] == rs[k]);
            assert(spec_identity(rs[k]) == spec_identity(rs[rs.len() - 1]));
        }
    }
}

/// When a duplicate-free prefix is followed by a resource whose identity
/// the prefix already holds, that resource is the list's first duplicate.
pub proof fn lemma_first_duplicate_at(rs: Seq<ResourceView>, pos: int)
    requires
        0 <= pos < rs.len(),
        spec_unique_identities(rs.take(pos)),
        spec_identities(rs.take(pos)).contains(spec_identity(rs[pos])),
    ensures
        spec_first_duplicate(rs) == Some(rs[pos]),
    decreases rs.len(),
{
    if pos == rs.len() - 1 {
        assert(rs.drop_last() =~= rs.take(pos));
        lemma_unique_no_duplicate(rs.take(pos));
    } else {
        let pre = rs.drop_last();
        assert(pre.take(pos) =~= rs.take(pos));
        assert(pre[pos] == rs[pos]);
        lemma_first_duplicate_at(pre, pos);
    }
}

impl View for DesiredResourceSet {
    type V = Seq<ResourceView>;

    closed spec fn view(&self) -> Seq<ResourceView> {
        seq_views(self.items@)
    }
}

impl DesiredResourceSet {
    /// The set's invariant: identities are unique.
    pub open spec fn wf(&self) -> bool {
        spec_unique_identities(self@)
    }

    pub fn new() -> (r: DesiredResourceSet)
        ensures
            r@ =~= Seq::<ResourceView>::empty(),
            r.wf(),
    {
        DesiredResourceSet { items: Vec::new() }
    }

    /// How many resources the set holds.
    pub fn len(&self) -> (r: usize)
        ensures
            r == self@.len(),
    {
        proof {
            crate::crd::lemma_seq_views(self.items@);
        }
        self.items.len()
    }

    /// A reference to the resource at `i`, in insertion order.
    pub fn get(&self, i: usize) -> (r: &Resource)
        requires
            i < self@.len(),
        ensures
            r@ == self@[i as int],
    {
        proof {
            crate::crd::lemma_seq_views(self.items@);
        }
        &self.items[i]
    }

    /// Adds a resource. Returns `false` and leaves the set unchanged when
    /// its identity is already present: the caller surfaces that as an
    /// internal invariant error, it is never silently swallowed.
    #[verifier::loop_isolation(false)]
    pub fn add(&mut self, resource: Resource) -> (ok: bool)
        requires
            old(self).wf(),
        ensures
            final(self).wf(),
            ok <==> !spec_identities(old(self)@).contains(spec_identity(resource@)),
            ok ==> final(self)@ == old(self)@.push(resource@),
            !ok ==> final(self)@ == old(self)@,
    {
        proof {
            crate::crd::lemma_seq_views(self.items@);
        }
        let id = resource.identity();
        let mut i: usize = 0;
        while i < self.items.len()
            invariant
                i <= self.items.len(),
                forall|j: int| 0 <= j < i ==> spec_identity(self@[j]) != id@,
            decreases self.items.len() - i,
        {
            let other = self.items[i].identity();
            if id.same_as(&other) {
                proof {
                    assert(spec_identities(self@)[i as int] == spec_identity(self@[i as int]));
                }
                return false;
            }
            i = i + 1;
        }
        proof {
            assert(forall|j: int|
                0 <= j < self@.len() ==> spec_identities(self@)[j] == spec_identity(self@[j]));
            assert(!spec_identities(self@).contains(spec_identity(resource@)));
        }
        let ghost prev = self.items@;
        self.items.push(resource);
        proof {
            crate::crd::lemma_seq_views_push(prev, resource);
        }
        true
    }

    /// Removes and returns the first resource, in insertion order.
    pub fn take_first(&mut self) -> (r: Option<Resource>)
        requires
            old(self).wf(),
        ensures
            final(self).wf(),
            old(self)@.len() == 0 ==> r is None && final(self)@ == old(self)@,
            old(self)@.len() > 0 ==> (r matches Some(res) && res@ == old(self)@.first()
                && final(self)@ == old(self)@.drop_first()),
    {
        proof {
            crate::crd::lemma_seq_views(self.items@);
        }
        if self.items.len() == 0 {
            return None;
        }
        let ghost items0 = self.items@;
        let res = self.items.remove(0);
        proof {
            crate::crd::lemma_seq_views(items0);
            crate::crd::lemma_seq_views(self.items@);
            assert(crate::crd::seq_views(self.items@) =~= crate::crd::seq_views(
                items0,
            ).drop_first());
        }
        Some(res)
    }
}

} // verus!
