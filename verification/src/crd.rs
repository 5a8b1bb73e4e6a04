//! Data model of the cluster's desired-state specification: the cluster
//! object, its single role, the role-groups, and the three-level
//! configuration hierarchy (built-in defaults, role, role-group) together
//! with the merge and validation rules that resolve one configuration per
//! role-group.

use vstd::prelude::*;
use vstd::string::*;

use crate::strings::{concat2, concat3, concat5, dec_str, u64_to_dec_string};

verus! {

// directories
pub const STACKABLE_CONFIG_DIR: &'static str = "/stackable/config";
pub const STACKABLE_CONFIG_DIR_NAME: &'static str = "config";
pub const STACKABLE_LOG_DIR: &'static str = "/stackable/log";
pub const STACKABLE_LOG_DIR_NAME: &'static str = "log";
pub const STACKABLE_LOG_CONFIG_MOUNT_DIR: &'static str = "/stackable/mount/log-config";
pub const STACKABLE_LOG_CONFIG_MOUNT_DIR_NAME: &'static str = "log-config-mount";

// config file names
pub const APPLICATION_PROPERTIES: &'static str = "application.properties";
pub const LOGBACK_XML: &'static str = "logback.xml";
pub const JVM_SECURITY_PROPERTIES: &'static str = "security.properties";

// config properties
pub const SERVER_PORT: &'static str = "server.port";
pub const LOGGING_CONFIG: &'static str = "logging.config";
pub const GREETING_RECIPIENT: &'static str = "greeting.recipient";
pub const GREETING_COLOR: &'static str = "greeting.color";

// default ports
pub const HTTP_PORT_NAME: &'static str = "http";
pub const HTTP_PORT: u16 = 8080;

/// Default period pods get to shut down gracefully: two minutes.
pub const DEFAULT_GRACEFUL_SHUTDOWN_TIMEOUT_SECS: u64 = 120;

/// The view of an optional viewable value.
pub open spec fn opt_view<T: View>(o: Option<T>) -> Option<T::V> {
    match o {
        Some(t) => Some(t@),
        None => None,
    }
}

/// Errors of the configuration model: unknown or missing roles and
/// role-groups, and validation failures of the merged configuration.
#[derive(Clone, Debug, PartialEq, Eq)]
pub enum Error {
    /// The merged configuration of a role-group leaves a mandatory field
    /// unset.
    FragmentValidationFailure { field: String, role_group: String },
    /// A role name that this operator does not define.
    UnknownHelloRole { role: String, roles: Vec<String> },
    /// The role is not present in the cluster specification.
    CannotRetrieveHelloRole { role: String },
    /// The role-group is not present in the role.
    CannotRetrieveHelloRoleGroup { role_group: String },
}

/// The description of each configuration error.
pub open spec fn spec_error_message(e: Error) -> Seq<char> {
    match e {
        Error::FragmentValidationFailure { field, .. } => "fragment validation failure: missing field "@
            + field@,
        Error::UnknownHelloRole { role, .. } => "unknown role "@ + role@,
        Error::CannotRetrieveHelloRole { role } => "the role is not defined: "@ + role@,
        Error::CannotRetrieveHelloRoleGroup { role_group } => "the role group is not defined: "@
            + role_group@,
    }
}

impl Error {
    /// A short human-readable description of the error.
    pub fn message(&self) -> (r: String)
        ensures
            r@ == spec_error_message(*self),
    {
        match self {
            Error::FragmentValidationFailure { field, .. } => {
                crate::strings::concat2("fragment validation failure: missing field ", field.as_str())
            },
            Error::UnknownHelloRole { role, .. } => {
                crate::strings::concat2("unknown role ", role.as_str())
            },
            Error::CannotRetrieveHelloRole { role } => {
                crate::strings::concat2("the role is not defined: ", role.as_str())
            },
            Error::CannotRetrieveHelloRoleGroup { role_group } => {
                crate::strings::concat2("the role group is not defined: ", role_group.as_str())
            },
        }
    }
}

/// The service exposure tiers an administrator can choose from.
#[derive(Clone, Copy, Debug, PartialEq, Eq, Structural)]
pub enum CurrentlySupportedListenerClasses {
    /// Only reachable from within the cluster.
    ClusterInternal,
    /// Externally reachable through unstable addressing.
    ExternalUnstable,
    /// Externally reachable through stable addressing.
    ExternalStable,
}

impl CurrentlySupportedListenerClasses {
    /// The service type that realises this listener class.
    pub open spec fn spec_k8s_service_type(self) -> Seq<char> {
        match self {
            CurrentlySupportedListenerClasses::ClusterInternal => "ClusterIP"@,
            CurrentlySupportedListenerClasses::ExternalUnstable => "NodePort"@,
            CurrentlySupportedListenerClasses::ExternalStable => "LoadBalancer"@,
        }
    }

    pub fn k8s_service_type(&self) -> (r: String)
        ensures
            r@ == self.spec_k8s_service_type(),
    {
        match self {
            CurrentlySupportedListenerClasses::ClusterInternal => "ClusterIP".to_owned(),
            CurrentlySupportedListenerClasses::ExternalUnstable => "NodePort".to_owned(),
            CurrentlySupportedListenerClasses::ExternalStable => "LoadBalancer".to_owned(),
        }
    }

}

impl Default for CurrentlySupportedListenerClasses {
    /// The built-in default exposure: cluster-internal.
    fn default() -> (r: Self)
        ensures
            r == CurrentlySupportedListenerClasses::ClusterInternal,
    {
        CurrentlySupportedListenerClasses::ClusterInternal
    }
}

/// The roles this operator manages. There is exactly one.
#[derive(Clone, Copy, Debug, PartialEq, Eq, Hash, Structural)]
pub enum HelloRole {
    Server,
}

impl View for HelloRole {
    type V = Seq<char>;

    open spec fn view(&self) -> Seq<char> {
        "server"@
    }
}

impl HelloRole {
    /// The wire name of this role.
    pub fn as_str(&self) -> (r: &'static str)
        ensures
            r@ == self@,
    {
        "server"
    }

    /// The names of every role this operator defines.
    pub fn roles() -> (r: Vec<String>)
        ensures
            r@.len() == 1,
            r@[0]@ == "server"@,
    {
        let mut roles: Vec<String> = Vec::new();
        roles.push("server".to_owned());
        roles
    }

    /// Parses a role name; `None` for anything but `server`.
    pub fn from_name(name: &str) -> (r: Option<HelloRole>)
        ensures
            r is Some <==> name@ == "server"@,
            r is Some ==> r.unwrap() == HelloRole::Server,
    {
        let n = name.to_owned();
        let server = String::from_str("server");
        if n == server {
            Some(HelloRole::Server)
        } else {
            None
        }
    }
}

/// The containers a server pod can hold.
#[derive(Clone, Copy, Debug, PartialEq, Eq, Hash, Structural)]
pub enum Container {
    /// The primary process container.
    Hello,
    /// The optional log-shipping sidecar.
    Vector,
}

/// The service types the temporary listener solution can produce.
#[derive(Clone, Copy, Debug, PartialEq, Eq, Structural)]
pub enum ServiceType {
    NodePort,
    ClusterIP,
}

impl Default for ServiceType {
    fn default() -> (r: Self)
        ensures
            r == ServiceType::NodePort,
    {
        ServiceType::NodePort
    }
}

/// Log configuration of the two containers. A container either routes logs
/// through the operator-built configuration (`None`) or through a custom
/// ConfigMap named by the administrator (`Some`).
#[derive(Clone, Debug, PartialEq, Eq)]
pub struct Logging {
    /// Whether the log-shipping sidecar runs at all.
    pub enable_vector_agent: bool,
    /// Custom log ConfigMap for the primary container, if any.
    pub hello_custom_log_config: Option<String>,
    /// Custom log ConfigMap for the sidecar, if any.
    pub vector_custom_log_config: Option<String>,
}

pub struct LoggingView {
    pub enable_vector_agent: bool,
    pub hello_custom_log_config: Option<Seq<char>>,
    pub vector_custom_log_config: Option<Seq<char>>,
}

impl View for Logging {
    type V = LoggingView;

    open spec fn view(&self) -> LoggingView {
        LoggingView {
            enable_vector_agent: self.enable_vector_agent,
            hello_custom_log_config: opt_view(self.hello_custom_log_config),
            vector_custom_log_config: opt_view(self.vector_custom_log_config),
        }
    }
}

impl Logging {
    /// The administrator's custom log ConfigMap for one container, when
    /// one is named; `None` routes through the operator-built
    /// configuration.
    pub fn custom_log_config(&self, container: &Container) -> (r: &Option<String>)
        ensures
            *container == Container::Hello ==> opt_view(*r) == self@.hello_custom_log_config,
            *container == Container::Vector ==> opt_view(*r) == self@.vector_custom_log_config,
    {
        match container {
            Container::Hello => &self.hello_custom_log_config,
            Container::Vector => &self.vector_custom_log_config,
        }
    }

    /// The built-in default: no sidecar, operator-built log configuration
    /// for both containers.
    pub fn default_logging() -> (r: Logging)
        ensures
            r@ == (LoggingView {
                enable_vector_agent: false,
                hello_custom_log_config: None,
                vector_custom_log_config: None,
            }),
    {
        Logging {
            enable_vector_agent: false,
            hello_custom_log_config: None,
            vector_custom_log_config: None,
        }
    }
}

/// One weighted placement-preference term: pods carrying the given labels
/// are preferably kept apart (or together) along the topology key.
#[derive(Clone, Debug, PartialEq, Eq)]
pub struct WeightedPodAffinityTerm {
    pub weight: u16,
    pub match_labels: Vec<(String, String)>,
    pub topology_key: String,
}

pub struct WeightedPodAffinityTermView {
    pub weight: u16,
    pub match_labels: Seq<(Seq<char>, Seq<char>)>,
    pub topology_key: Seq<char>,
}

impl View for WeightedPodAffinityTerm {
    type V = WeightedPodAffinityTermView;

    open spec fn view(&self) -> WeightedPodAffinityTermView {
        WeightedPodAffinityTermView {
            weight: self.weight,
            match_labels: self.match_labels.deep_view(),
            topology_key: self.topology_key@,
        }
    }
}

/// Placement preferences of a role-group's pods. Opaque hints: the engine
/// carries them into the workload specification unchanged.
#[derive(Clone, Debug, PartialEq, Eq)]
pub struct StackableAffinity {
    /// Preferred anti-affinity terms, in order of declaration.
    pub pod_anti_affinity_preferred: Vec<WeightedPodAffinityTerm>,
}

pub struct StackableAffinityView {
    pub pod_anti_affinity_preferred: Seq<WeightedPodAffinityTermView>,
}

impl View for StackableAffinity {
    type V = StackableAffinityView;

    open spec fn view(&self) -> StackableAffinityView {
        StackableAffinityView {
            pod_anti_affinity_preferred: Seq::new(
                self.pod_anti_affinity_preferred@.len(),
                |i: int| self.pod_anti_affinity_preferred@[i]@,
            ),
        }
    }
}

/// A partial configuration: every field optional. Merging fragments never
/// overwrites a value that the higher-precedence fragment already sets;
/// only missing fields are filled from the lower-precedence one.
#[derive(Clone, Debug, PartialEq, Eq)]
pub struct HelloConfigFragment {
    pub cpu_min: Option<String>,
    pub cpu_max: Option<String>,
    pub memory_limit: Option<String>,
    pub storage_capacity: Option<String>,
    pub storage_class: Option<String>,
    pub logging: Option<Logging>,
    pub affinity: Option<StackableAffinity>,
    pub graceful_shutdown_timeout_secs: Option<u64>,
}

pub struct HelloConfigFragmentView {
    pub cpu_min: Option<Seq<char>>,
    pub cpu_max: Option<Seq<char>>,
    pub memory_limit: Option<Seq<char>>,
    pub storage_capacity: Option<Seq<char>>,
    pub storage_class: Option<Seq<char>>,
    pub logging: Option<LoggingView>,
    pub affinity: Option<StackableAffinityView>,
    pub graceful_shutdown_timeout_secs: Option<u64>,
}

impl View for HelloConfigFragment {
    type V = HelloConfigFragmentView;

    open spec fn view(&self) -> HelloConfigFragmentView {
        HelloConfigFragmentView {
            cpu_min: opt_view(self.cpu_min),
            cpu_max: opt_view(self.cpu_max),
            memory_limit: opt_view(self.memory_limit),
            storage_capacity: opt_view(self.storage_capacity),
            storage_class: opt_view(self.storage_class),
            logging: opt_view(self.logging),
            affinity: opt_view(self.affinity),
            graceful_shutdown_timeout_secs: self.graceful_shutdown_timeout_secs,
        }
    }
}

/// A fully resolved and validated configuration, safe to build resources
/// from.
#[derive(Clone, Debug, PartialEq, Eq)]
pub struct HelloConfig {
    pub cpu_min: String,
    pub cpu_max: String,
    pub memory_limit: String,
    pub storage_capacity: String,
    pub storage_class: Option<String>,
    pub logging: Logging,
    pub affinity: StackableAffinity,
    pub graceful_shutdown_timeout_secs: u64,
}

pub struct HelloConfigView {
    pub cpu_min: Seq<char>,
    pub cpu_max: Seq<char>,
    pub memory_limit: Seq<char>,
    pub storage_capacity: Seq<char>,
    pub storage_class: Option<Seq<char>>,
    pub logging: LoggingView,
    pub affinity: StackableAffinityView,
    pub graceful_shutdown_timeout_secs: u64,
}

impl View for HelloConfig {
    type V = HelloConfigView;

    open spec fn view(&self) -> HelloConfigView {
        HelloConfigView {
            cpu_min: self.cpu_min@,
            cpu_max: self.cpu_max@,
            memory_limit: self.memory_limit@,
            storage_capacity: self.storage_capacity@,
            storage_class: opt_view(self.storage_class),
            logging: self.logging@,
            affinity: self.affinity@,
            graceful_shutdown_timeout_secs: self.graceful_shutdown_timeout_secs,
        }
    }
}

/// One field of the merge: the higher-precedence side wins when it is set,
/// the lower-precedence side fills the gap otherwise.
pub open spec fn merge_field<A>(mine: Option<A>, other: Option<A>) -> Option<A> {
    if mine is Some {
        mine
    } else {
        other
    }
}

/// Field-wise merge of two fragments: `mine` wins on every field it sets.
pub open spec fn spec_merge(
    mine: HelloConfigFragmentView,
    other: HelloConfigFragmentView,
) -> HelloConfigFragmentView {
    HelloConfigFragmentView {
        cpu_min: merge_field(mine.cpu_min, other.cpu_min),
        cpu_max: merge_field(mine.cpu_max, other.cpu_max),
        memory_limit: merge_field(mine.memory_limit, other.memory_limit),
        storage_capacity: merge_field(mine.storage_capacity, other.storage_capacity),
        storage_class: merge_field(mine.storage_class, other.storage_class),
        logging: merge_field(mine.logging, other.logging),
        affinity: merge_field(mine.affinity, other.affinity),
        graceful_shutdown_timeout_secs: merge_field(
            mine.graceful_shutdown_timeout_secs,
            other.graceful_shutdown_timeout_secs,
        ),
    }
}

/// Merge precedence: resolving the role-group fragment over the role
/// fragment over the defaults gives, for every field, the role-group's
/// value when it sets one, else the role's, else the default's. In
/// particular the role-group value always wins when present.
pub proof fn lemma_merge_precedence(
    d: HelloConfigFragmentView,
    r: HelloConfigFragmentView,
    g: HelloConfigFragmentView,
)
    ensures
        ({
            let m = spec_merge(g, spec_merge(r, d));
            &&& m.cpu_min == merge_field(g.cpu_min, merge_field(r.cpu_min, d.cpu_min))
            &&& m.cpu_max == merge_field(g.cpu_max, merge_field(r.cpu_max, d.cpu_max))
            &&& m.memory_limit == merge_field(
                g.memory_limit,
                merge_field(r.memory_limit, d.memory_limit),
            )
            &&& m.storage_capacity == merge_field(
                g.storage_capacity,
                merge_field(r.storage_capacity, d.storage_capacity),
            )
            &&& m.storage_class == merge_field(
                g.storage_class,
                merge_field(r.storage_class, d.storage_class),
            )
            &&& m.logging == merge_field(g.logging, merge_field(r.logging, d.logging))
            &&& m.affinity == merge_field(g.affinity, merge_field(r.affinity, d.affinity))
            &&& m.graceful_shutdown_timeout_secs == merge_field(
                g.graceful_shutdown_timeout_secs,
                merge_field(r.graceful_shutdown_timeout_secs, d.graceful_shutdown_timeout_secs),
            )
        }),
{
}

/// A value the higher-precedence fragment sets is never discarded by a
/// merge, whatever the lower-precedence fragment holds.
pub proof fn lemma_merge_keeps_mine(mine: HelloConfigFragmentView, other: HelloConfigFragmentView)
    ensures
        mine.cpu_min is Some ==> spec_merge(mine, other).cpu_min == mine.cpu_min,
        mine.cpu_max is Some ==> spec_merge(mine, other).cpu_max == mine.cpu_max,
        mine.memory_limit is Some ==> spec_merge(mine, other).memory_limit == mine.memory_limit,
        mine.storage_capacity is Some ==> spec_merge(mine, other).storage_capacity
            == mine.storage_capacity,
        mine.storage_class is Some ==> spec_merge(mine, other).storage_class == mine.storage_class,
        mine.logging is Some ==> spec_merge(mine, other).logging == mine.logging,
        mine.affinity is Some ==> spec_merge(mine, other).affinity == mine.affinity,
        mine.graceful_shutdown_timeout_secs is Some ==> spec_merge(mine, other)
            .graceful_shutdown_timeout_secs == mine.graceful_shutdown_timeout_secs,
{
}

/// Validation completeness, stated over the three-level merge chain. For
/// each mandatory field: the chain fails validation naming exactly that
/// field when no level sets it and every field checked before it is set at
/// some level; and setting the field at any level prevents that error.
pub proof fn lemma_validation_completeness(
    d: HelloConfigFragmentView,
    r: HelloConfigFragmentView,
    g: HelloConfigFragmentView,
)
    ensures
        ({
            let m = spec_merge(g, spec_merge(r, d));
            let v = spec_validate(m);
            &&& (v is Ok <==> {
                &&& m.cpu_min is Some
                &&& m.cpu_max is Some
                &&& m.memory_limit is Some
                &&& m.storage_capacity is Some
                &&& m.logging is Some
                &&& m.affinity is Some
                &&& m.graceful_shutdown_timeout_secs is Some
            })
            &&& (v == Err::<HelloConfigView, Seq<char>>("resources.cpu.min"@) <==> m.cpu_min
                is None)
            &&& (v == Err::<HelloConfigView, Seq<char>>("resources.cpu.max"@) <==> (m.cpu_min
                is Some && m.cpu_max is None))
            &&& (v == Err::<HelloConfigView, Seq<char>>("resources.memory.limit"@) <==> (m.cpu_min
                is Some && m.cpu_max is Some && m.memory_limit is None))
            &&& (v == Err::<HelloConfigView, Seq<char>>("resources.storage.data.capacity"@) <==> (
            m.cpu_min is Some && m.cpu_max is Some && m.memory_limit is Some && m.storage_capacity
                is None))
            &&& (v == Err::<HelloConfigView, Seq<char>>("logging"@) <==> (m.cpu_min is Some
                && m.cpu_max is Some && m.memory_limit is Some && m.storage_capacity is Some
                && m.logging is None))
            &&& (v == Err::<HelloConfigView, Seq<char>>("affinity"@) <==> (m.cpu_min is Some
                && m.cpu_max is Some && m.memory_limit is Some && m.storage_capacity is Some
                && m.logging is Some && m.affinity is None))
            &&& (v == Err::<HelloConfigView, Seq<char>>("gracefulShutdownTimeout"@) <==> (m.cpu_min
                is Some && m.cpu_max is Some && m.memory_limit is Some && m.storage_capacity
                is Some && m.logging is Some && m.affinity is Some
                && m.graceful_shutdown_timeout_secs is None))
            &&& (m.cpu_min is Some <==> (g.cpu_min is Some || r.cpu_min is Some || d.cpu_min
                is Some))
            &&& (m.cpu_max is Some <==> (g.cpu_max is Some || r.cpu_max is Some || d.cpu_max
                is Some))
            &&& (m.memory_limit is Some <==> (g.memory_limit is Some || r.memory_limit is Some
                || d.memory_limit is Some))
            &&& (m.storage_capacity is Some <==> (g.storage_capacity is Some || r.storage_capacity
                is Some || d.storage_capacity is Some))
            &&& (m.logging is Some <==> (g.logging is Some || r.logging is Some || d.logging
                is Some))
            &&& (m.affinity is Some <==> (g.affinity is Some || r.affinity is Some || d.affinity
                is Some))
            &&& (m.graceful_shutdown_timeout_secs is Some <==> (g.graceful_shutdown_timeout_secs
                is Some || r.graceful_shutdown_timeout_secs is Some
                || d.graceful_shutdown_timeout_secs is Some))
        }),
{
    reveal_strlit("resources.cpu.min");
    reveal_strlit("resources.cpu.max");
    reveal_strlit("resources.memory.limit");
    reveal_strlit("resources.storage.data.capacity");
    reveal_strlit("logging");
    reveal_strlit("affinity");
    reveal_strlit("gracefulShutdownTimeout");
    assert("resources.cpu.min"@.len() == 17);
    assert("resources.cpu.max"@.len() == 17);
    assert("resources.memory.limit"@.len() == 22);
    assert("resources.storage.data.capacity"@.len() == 31);
    assert("logging"@.len() == 7);
    assert("affinity"@.len() == 8);
    assert("gracefulShutdownTimeout"@.len() == 23);
    assert("resources.cpu.min"@ != "resources.cpu.max"@) by {
        reveal_strlit("resources.cpu.min");
        reveal_strlit("resources.cpu.max");
        assert("resources.cpu.min"@[15] == 'i');
        assert("resources.cpu.max"@[15] == 'a');
    }
}

fn clone_opt_string(o: &Option<String>) -> (r: Option<String>)
    ensures
        r == *o,
{
    match o {
        Some(s) => Some(s.clone()),
        None => None,
    }
}

fn clone_labels(v: &Vec<(String, String)>) -> (r: Vec<(String, String)>)
    ensures
        r@ == v@,
{
    let mut r: Vec<(String, String)> = Vec::new();
    let mut i: usize = 0;
    while i < v.len()
        invariant
            i <= v.len(),
            r@ =~= v@.subrange(0, i as int),
        decreases v.len() - i,
    {
        let p = &v[i];
        r.push((p.0.clone(), p.1.clone()));
        i = i + 1;
    }
    proof {
        assert(r@ =~= v@);
    }
    r
}

fn clone_logging(l: &Logging) -> (r: Logging)
    ensures
        r == *l,
{
    Logging {
        enable_vector_agent: l.enable_vector_agent,
        hello_custom_log_config: clone_opt_string(&l.hello_custom_log_config),
        vector_custom_log_config: clone_opt_string(&l.vector_custom_log_config),
    }
}

pub(crate) fn clone_affinity(a: &StackableAffinity) -> (r: StackableAffinity)
    ensures
        r@ == a@,
{
    let mut terms: Vec<WeightedPodAffinityTerm> = Vec::new();
    let mut i: usize = 0;
    while i < a.pod_anti_affinity_preferred.len()
        invariant
            i <= a.pod_anti_affinity_preferred.len(),
            terms@.len() == i,
            forall|j: int|
                0 <= j < i ==> #[trigger] terms@[j]@ == a.pod_anti_affinity_preferred@[j]@,
        decreases a.pod_anti_affinity_preferred.len() - i,
    {
        let t = &a.pod_anti_affinity_preferred[i];
        let nt = WeightedPodAffinityTerm {
            weight: t.weight,
            match_labels: clone_labels(&t.match_labels),
            topology_key: t.topology_key.clone(),
        };
        proof {
            assert(nt.match_labels.deep_view() =~= t.match_labels.deep_view());
            assert(nt@ == t@);
        }
        terms.push(nt);
        i = i + 1;
    }
    let r = StackableAffinity { pod_anti_affinity_preferred: terms };
    proof {
        assert(r@.pod_anti_affinity_preferred =~= a@.pod_anti_affinity_preferred);
    }
    r
}

fn clone_opt_logging(o: &Option<Logging>) -> (r: Option<Logging>)
    ensures
        r == *o,
{
    match o {
        Some(l) => Some(clone_logging(l)),
        None => None,
    }
}

fn clone_opt_affinity(o: &Option<StackableAffinity>) -> (r: Option<StackableAffinity>)
    ensures
        opt_view(r) == opt_view(*o),
{
    match o {
        Some(a) => Some(clone_affinity(a)),
        None => None,
    }
}

pub(crate) fn clone_fragment(f: &HelloConfigFragment) -> (r: HelloConfigFragment)
    ensures
        r@ == f@,
{
    HelloConfigFragment {
        cpu_min: clone_opt_string(&f.cpu_min),
        cpu_max: clone_opt_string(&f.cpu_max),
        memory_limit: clone_opt_string(&f.memory_limit),
        storage_capacity: clone_opt_string(&f.storage_capacity),
        storage_class: clone_opt_string(&f.storage_class),
        logging: clone_opt_logging(&f.logging),
        affinity: clone_opt_affinity(&f.affinity),
        graceful_shutdown_timeout_secs: match &f.graceful_shutdown_timeout_secs {
            Some(t) => Some(*t),
            None => None,
        },
    }
}

impl HelloConfigFragment {
    /// Fills every field this fragment leaves unset from `defaults`;
    /// fields already set are never overwritten.
    pub fn merge(&mut self, defaults: &HelloConfigFragment)
        ensures
            final(self)@ == spec_merge(old(self)@, defaults@),
    {
        if self.cpu_min.is_none() {
            self.cpu_min = clone_opt_string(&defaults.cpu_min);
        }
        if self.cpu_max.is_none() {
            self.cpu_max = clone_opt_string(&defaults.cpu_max);
        }
        if self.memory_limit.is_none() {
            self.memory_limit = clone_opt_string(&defaults.memory_limit);
        }
        if self.storage_capacity.is_none() {
            self.storage_capacity = clone_opt_string(&defaults.storage_capacity);
        }
        if self.storage_class.is_none() {
            self.storage_class = clone_opt_string(&defaults.storage_class);
        }
        if self.logging.is_none() {
            self.logging = clone_opt_logging(&defaults.logging);
        }
        if self.affinity.is_none() {
            self.affinity = clone_opt_affinity(&defaults.affinity);
        }
        if self.graceful_shutdown_timeout_secs.is_none() {
            self.graceful_shutdown_timeout_secs = defaults.graceful_shutdown_timeout_secs;
        }
    }
}

/// The outcome validation assigns to a merged fragment: the resolved
/// configuration, or the name of the first mandatory field that is unset.
pub open spec fn spec_validate(f: HelloConfigFragmentView) -> Result<HelloConfigView, Seq<char>> {
    if f.cpu_min is None {
        Err("resources.cpu.min"@)
    } else if f.cpu_max is None {
        Err("resources.cpu.max"@)
    } else if f.memory_limit is None {
        Err("resources.memory.limit"@)
    } else if f.storage_capacity is None {
        Err("resources.storage.data.capacity"@)
    } else if f.logging is None {
        Err("logging"@)
    } else if f.affinity is None {
        Err("affinity"@)
    } else if f.graceful_shutdown_timeout_secs is None {
        Err("gracefulShutdownTimeout"@)
    } else {
        Ok(
            HelloConfigView {
                cpu_min: f.cpu_min.unwrap(),
                cpu_max: f.cpu_max.unwrap(),
                memory_limit: f.memory_limit.unwrap(),
                storage_capacity: f.storage_capacity.unwrap(),
                storage_class: f.storage_class,
                logging: f.logging.unwrap(),
                affinity: f.affinity.unwrap(),
                graceful_shutdown_timeout_secs: f.graceful_shutdown_timeout_secs.unwrap(),
            },
        )
    }
}

/// Checks that every mandatory field of the merged fragment is present and
/// produces the resolved configuration. The error names the first missing
/// field and the role-group it was resolved for.
pub fn validate_fragment(f: HelloConfigFragment, role_group: &str) -> (r: Result<
    HelloConfig,
    Error,
>)
    ensures
        r matches Ok(c) ==> spec_validate(f@) == Ok::<HelloConfigView, Seq<char>>(c@),
        r matches Err(e) ==> {
            &&& spec_validate(f@) is Err
            &&& e matches Error::FragmentValidationFailure { field, role_group: rg }
                && field@ == spec_validate(f@)->Err_0 && rg@ == role_group@
        },
{
    let missing: Option<&'static str> = if f.cpu_min.is_none() {
        Some("resources.cpu.min")
    } else if f.cpu_max.is_none() {
        Some("resources.cpu.max")
    } else if f.memory_limit.is_none() {
        Some("resources.memory.limit")
    } else if f.storage_capacity.is_none() {
        Some("resources.storage.data.capacity")
    } else if f.logging.is_none() {
        Some("logging")
    } else if f.affinity.is_none() {
        Some("affinity")
    } else if f.graceful_shutdown_timeout_secs.is_none() {
        Some("gracefulShutdownTimeout")
    } else {
        None
    };
    match missing {
        Some(field) => Err(
            Error::FragmentValidationFailure {
                field: field.to_owned(),
                role_group: role_group.to_owned(),
            },
        ),
        None => {
            let HelloConfigFragment {
                cpu_min,
                cpu_max,
                memory_limit,
                storage_capacity,
                storage_class,
                logging,
                affinity,
                graceful_shutdown_timeout_secs,
            } = f;
            Ok(
                HelloConfig {
                    cpu_min: cpu_min.unwrap(),
                    cpu_max: cpu_max.unwrap(),
                    memory_limit: memory_limit.unwrap(),
                    storage_capacity: storage_capacity.unwrap(),
                    storage_class,
                    logging: logging.unwrap(),
                    affinity: affinity.unwrap(),
                    graceful_shutdown_timeout_secs: graceful_shutdown_timeout_secs.unwrap(),
                },
            )
        },
    }
}

/// The views of a sequence of viewable values, in order.
pub open spec fn seq_views<T: View>(s: Seq<T>) -> Seq<T::V>
    decreases s.len(),
{
    if s.len() == 0 {
        Seq::empty()
    } else {
        seq_views(s.drop_last()).push(s.last()@)
    }
}

/// `seq_views` maps each element to its view, preserving length and order.
pub proof fn lemma_seq_views<T: View>(s: Seq<T>)
    ensures
        seq_views(s).len() == s.len(),
        forall|i: int| 0 <= i < s.len() ==> #[trigger] seq_views(s)[i] == s[i]@,
    decreases s.len(),
{
    if s.len() > 0 {
        lemma_seq_views(s.drop_last());
    }
}

/// Pushing an element pushes its view.
pub proof fn lemma_seq_views_push<T: View>(s: Seq<T>, x: T)
    ensures
        seq_views(s.push(x)) == seq_views(s).push(x@),
{
    assert(s.push(x).drop_last() =~= s);
    assert(s.push(x).last() == x);
}

impl HelloConfig {
    /// The built-in lowest-precedence fragment: resource and storage
    /// defaults, default logging, the deterministic role-scoped placement
    /// preference, and the default graceful-shutdown timeout.
    pub open spec fn spec_default_config(cluster_name: Seq<char>, role: Seq<char>) -> HelloConfigFragmentView {
        HelloConfigFragmentView {
            cpu_min: Some("100m"@),
            cpu_max: Some("400m"@),
            memory_limit: Some("256Mi"@),
            storage_capacity: Some("256Mi"@),
            storage_class: None,
            logging: Some(
                LoggingView {
                    enable_vector_agent: false,
                    hello_custom_log_config: None,
                    vector_custom_log_config: None,
                },
            ),
            affinity: Some(crate::affinity::spec_get_affinity(cluster_name, role)),
            graceful_shutdown_timeout_secs: Some(DEFAULT_GRACEFUL_SHUTDOWN_TIMEOUT_SECS),
        }
    }

    pub fn default_config(cluster_name: &str, role: &HelloRole) -> (r: HelloConfigFragment)
        ensures
            r@ == Self::spec_default_config(cluster_name@, role@),
    {
        HelloConfigFragment {
            cpu_min: Some("100m".to_owned()),
            cpu_max: Some("400m".to_owned()),
            memory_limit: Some("256Mi".to_owned()),
            storage_capacity: Some("256Mi".to_owned()),
            storage_class: None,
            logging: Some(Logging::default_logging()),
            affinity: Some(crate::affinity::get_affinity(cluster_name, role)),
            graceful_shutdown_timeout_secs: Some(DEFAULT_GRACEFUL_SHUTDOWN_TIMEOUT_SECS),
        }
    }
}

/// The computed key/value configuration of one file kind: the greeting
/// properties, the server port and the log-configuration path for the
/// application properties file; nothing for any other kind.
pub open spec fn spec_compute_files(c: HelloClusterView, file: Seq<char>) -> Seq<
    (Seq<char>, Seq<char>),
> {
    if file == APPLICATION_PROPERTIES@ {
        seq![
            (GREETING_RECIPIENT@, c.recipient),
            (GREETING_COLOR@, c.color),
            (SERVER_PORT@, dec_str(HTTP_PORT as nat)),
            (LOGGING_CONFIG@, STACKABLE_CONFIG_DIR@ + "/"@ + LOGBACK_XML@),
        ]
    } else {
        Seq::empty()
    }
}

impl HelloConfigFragment {
    /// Environment variables this configuration computes: none.
    pub fn compute_env(&self, _hello: &HelloCluster, _role_name: &str) -> (r: Vec<
        (String, String),
    >)
        ensures
            r.deep_view() =~= Seq::<(Seq<char>, Seq<char>)>::empty(),
    {
        Vec::new()
    }

    /// Command-line arguments this configuration computes: none.
    pub fn compute_cli(&self, _hello: &HelloCluster, _role_name: &str) -> (r: Vec<
        (String, String),
    >)
        ensures
            r.deep_view() =~= Seq::<(Seq<char>, Seq<char>)>::empty(),
    {
        Vec::new()
    }

    /// The computed key/value pairs of one config file.
    pub fn compute_files(&self, hello: &HelloCluster, _role_name: &str, file: &str) -> (r: Vec<
        (String, String),
    >)
        ensures
            r.deep_view() == spec_compute_files(hello@, file@),
    {
        let mut r: Vec<(String, String)> = Vec::new();
        let f = file.to_owned();
        let app_props = String::from_str(APPLICATION_PROPERTIES);
        if f == app_props {
            r.push((GREETING_RECIPIENT.to_owned(), hello.spec.recipient.clone()));
            r.push((GREETING_COLOR.to_owned(), hello.spec.color.clone()));
            r.push((SERVER_PORT.to_owned(), u64_to_dec_string(HTTP_PORT as u64)));
            r.push(
                (LOGGING_CONFIG.to_owned(), concat3(STACKABLE_CONFIG_DIR, "/", LOGBACK_XML)),
            );
            proof {
                assert(r.deep_view() =~= spec_compute_files(hello@, file@));
            }
        } else {
            proof {
                assert(r.deep_view() =~= spec_compute_files(hello@, file@));
            }
        }
        r
    }
}

/// Disruption-budget policy of a role.
#[derive(Clone, Copy, Debug, PartialEq, Eq)]
pub struct PdbConfig {
    pub enabled: bool,
    pub max_unavailable: Option<u16>,
}

/// Role-level operational policy.
#[derive(Clone, Copy, Debug, PartialEq, Eq)]
pub struct GenericRoleConfig {
    pub pod_disruption_budget: PdbConfig,
}

/// Administrator-supplied raw overrides of the computed workload template.
/// Every field that is set silently replaces the computed value whole:
/// a deliberate escape hatch, applied last.
#[derive(Clone, Debug, PartialEq, Eq)]
pub struct PodTemplateOverrides {
    pub termination_grace_period_seconds: Option<u64>,
    pub service_account_name: Option<String>,
    pub affinity: Option<StackableAffinity>,
}

pub struct PodTemplateOverridesView {
    pub termination_grace_period_seconds: Option<u64>,
    pub service_account_name: Option<Seq<char>>,
    pub affinity: Option<StackableAffinityView>,
}

impl View for PodTemplateOverrides {
    type V = PodTemplateOverridesView;

    open spec fn view(&self) -> PodTemplateOverridesView {
        PodTemplateOverridesView {
            termination_grace_period_seconds: self.termination_grace_period_seconds,
            service_account_name: opt_view(self.service_account_name),
            affinity: opt_view(self.affinity),
        }
    }
}

impl PodTemplateOverrides {
    /// Overrides that change nothing.
    pub fn none() -> (r: PodTemplateOverrides)
        ensures
            r@ == (PodTemplateOverridesView {
                termination_grace_period_seconds: None,
                service_account_name: None,
                affinity: None,
            }),
    {
        PodTemplateOverrides {
            termination_grace_period_seconds: None,
            service_account_name: None,
            affinity: None,
        }
    }
}

/// Configuration common to a role or one of its role-groups: a
/// configuration fragment plus explicit per-file, environment and
/// command-line overrides, and the raw workload-template overrides.
#[derive(Clone, Debug, PartialEq, Eq)]
pub struct CommonConfiguration {
    pub config: HelloConfigFragment,
    /// Per config-file overrides: (file name, key/value pairs).
    pub config_overrides: Vec<(String, Vec<(String, String)>)>,
    pub env_overrides: Vec<(String, String)>,
    pub cli_overrides: Vec<(String, String)>,
    pub pod_overrides: PodTemplateOverrides,
}

pub struct CommonConfigurationView {
    pub config: HelloConfigFragmentView,
    pub config_overrides: Seq<(Seq<char>, Seq<(Seq<char>, Seq<char>)>)>,
    pub env_overrides: Seq<(Seq<char>, Seq<char>)>,
    pub cli_overrides: Seq<(Seq<char>, Seq<char>)>,
    pub pod_overrides: PodTemplateOverridesView,
}

impl View for CommonConfiguration {
    type V = CommonConfigurationView;

    open spec fn view(&self) -> CommonConfigurationView {
        CommonConfigurationView {
            config: self.config@,
            config_overrides: self.config_overrides.deep_view(),
            env_overrides: self.env_overrides.deep_view(),
            cli_overrides: self.cli_overrides.deep_view(),
            pod_overrides: self.pod_overrides@,
        }
    }
}

impl CommonConfiguration {
    /// A configuration that specifies nothing.
    pub fn empty() -> (r: CommonConfiguration)
        ensures
            r@.config == (HelloConfigFragment {
                cpu_min: None,
                cpu_max: None,
                memory_limit: None,
                storage_capacity: None,
                storage_class: None,
                logging: None,
                affinity: None,
                graceful_shutdown_timeout_secs: None,
            })@,
            r@.config_overrides.len() == 0,
            r@.env_overrides.len() == 0,
            r@.cli_overrides.len() == 0,
            r@.pod_overrides == (PodTemplateOverridesView {
                termination_grace_period_seconds: None,
                service_account_name: None,
                affinity: None,
            }),
    {
        CommonConfiguration {
            config: HelloConfigFragment {
                cpu_min: None,
                cpu_max: None,
                memory_limit: None,
                storage_capacity: None,
                storage_class: None,
                logging: None,
                affinity: None,
                graceful_shutdown_timeout_secs: None,
            },
            config_overrides: Vec::new(),
            env_overrides: Vec::new(),
            cli_overrides: Vec::new(),
            pod_overrides: PodTemplateOverrides::none(),
        }
    }
}

/// An independently sized subset of a role's replicas with its own
/// configuration overrides.
#[derive(Clone, Debug, PartialEq, Eq)]
pub struct RoleGroup {
    pub config: CommonConfiguration,
    pub replicas: Option<u16>,
}

pub struct RoleGroupView {
    pub config: CommonConfigurationView,
    pub replicas: Option<u16>,
}

impl View for RoleGroup {
    type V = RoleGroupView;

    open spec fn view(&self) -> RoleGroupView {
        RoleGroupView { config: self.config@, replicas: self.replicas }
    }
}

/// A role: configuration applied to every role-group, role-level policy,
/// and the named role-groups in declaration order.
#[derive(Clone, Debug, PartialEq, Eq)]
pub struct Role {
    pub config: CommonConfiguration,
    pub role_config: GenericRoleConfig,
    /// Role-group name to role-group, names unique.
    pub role_groups: Vec<(String, RoleGroup)>,
}

pub struct RoleView {
    pub config: CommonConfigurationView,
    pub role_config: GenericRoleConfig,
    pub role_groups: Seq<(Seq<char>, RoleGroupView)>,
}

/// The view of a role-group list.
pub open spec fn spec_role_groups_view(s: Seq<(String, RoleGroup)>) -> Seq<
    (Seq<char>, RoleGroupView),
> {
    Seq::new(s.len(), |i: int| (s[i].0@, s[i].1@))
}

impl View for Role {
    type V = RoleView;

    open spec fn view(&self) -> RoleView {
        RoleView {
            config: self.config@,
            role_config: self.role_config,
            role_groups: spec_role_groups_view(self.role_groups@),
        }
    }
}

/// The first role-group of the given name, if any.
pub open spec fn spec_find_role_group(
    groups: Seq<(Seq<char>, RoleGroupView)>,
    name: Seq<char>,
) -> Option<RoleGroupView>
    decreases groups.len(),
{
    if groups.len() == 0 {
        None
    } else if groups.first().0 == name {
        Some(groups.first().1)
    } else {
        spec_find_role_group(groups.drop_first(), name)
    }
}

/// A name drawn from the list is always found.
pub proof fn lemma_find_role_group_present(groups: Seq<(Seq<char>, RoleGroupView)>, i: int)
    requires
        0 <= i < groups.len(),
    ensures
        spec_find_role_group(groups, groups[i].0) is Some,
    decreases groups.len(),
{
    if groups.first().0 != groups[i].0 {
        assert(i != 0);
        assert(groups.drop_first()[i - 1] == groups[i]);
        lemma_find_role_group_present(groups.drop_first(), i - 1);
    }
}

/// Skipping a non-matching first entry leaves the first match unchanged.
proof fn lemma_find_role_group_skip(
    groups: Seq<(Seq<char>, RoleGroupView)>,
    name: Seq<char>,
    i: int,
)
    requires
        0 <= i < groups.len(),
        groups[i].0 != name,
    ensures
        spec_find_role_group(groups.skip(i), name) == spec_find_role_group(
            groups.skip(i + 1),
            name,
        ),
{
    let s = groups.skip(i);
    assert(s.first() == groups[i]);
    assert(s.drop_first() =~= groups.skip(i + 1));
}

/// Cluster-wide settings.
#[derive(Clone, Debug, PartialEq, Eq)]
pub struct HelloClusterConfig {
    /// Name of the log-aggregator discovery ConfigMap, if log shipping is
    /// wired to one.
    pub vector_aggregator_config_map_name: Option<String>,
    /// Which exposure tier the cluster-level endpoint uses.
    pub listener_class: CurrentlySupportedListenerClasses,
}

pub struct HelloClusterConfigView {
    pub vector_aggregator_config_map_name: Option<Seq<char>>,
    pub listener_class: CurrentlySupportedListenerClasses,
}

impl View for HelloClusterConfig {
    type V = HelloClusterConfigView;

    open spec fn view(&self) -> HelloClusterConfigView {
        HelloClusterConfigView {
            vector_aggregator_config_map_name: opt_view(self.vector_aggregator_config_map_name),
            listener_class: self.listener_class,
        }
    }
}

/// Cluster operations: pause reconciliation, or stop the cluster while
/// keeping its resources.
#[derive(Clone, Copy, Debug, PartialEq, Eq, Structural)]
pub struct ClusterOperation {
    pub reconciliation_paused: bool,
    pub stopped: bool,
}

/// The image reference of the product to run.
#[derive(Clone, Debug, PartialEq, Eq)]
pub struct ProductImage {
    pub product_version: String,
    /// A full image reference that replaces the built-in repository.
    pub custom: Option<String>,
}

pub struct ProductImageView {
    pub product_version: Seq<char>,
    pub custom: Option<Seq<char>>,
}

impl View for ProductImage {
    type V = ProductImageView;

    open spec fn view(&self) -> ProductImageView {
        ProductImageView {
            product_version: self.product_version@,
            custom: opt_view(self.custom),
        }
    }
}

/// An image reference resolved to a pullable image and a version label.
#[derive(Clone, Debug, PartialEq, Eq)]
pub struct ResolvedProductImage {
    pub image: String,
    pub app_version_label: String,
    pub product_version: String,
}

pub struct ResolvedProductImageView {
    pub image: Seq<char>,
    pub app_version_label: Seq<char>,
    pub product_version: Seq<char>,
}

impl View for ResolvedProductImage {
    type V = ResolvedProductImageView;

    open spec fn view(&self) -> ResolvedProductImageView {
        ResolvedProductImageView {
            image: self.image@,
            app_version_label: self.app_version_label@,
            product_version: self.product_version@,
        }
    }
}

impl ProductImage {
    /// The resolved image: the custom reference when one is given, else
    /// the built-in repository, the base name and the product version.
    pub open spec fn spec_resolve(img: ProductImageView, base_name: Seq<char>) -> ResolvedProductImageView {
        ResolvedProductImageView {
            image: match img.custom {
                Some(c) => c,
                None => "oci.stackable.tech/sdp/"@ + base_name + ":"@ + img.product_version,
            },
            app_version_label: img.product_version,
            product_version: img.product_version,
        }
    }

    pub fn resolve(&self, image_base_name: &str) -> (r: ResolvedProductImage)
        ensures
            r@ == Self::spec_resolve(self@, image_base_name@),
    {
        let image = match &self.custom {
            Some(c) => c.clone(),
            None => concat3("oci.stackable.tech/sdp/", image_base_name, ":").concat(
                self.product_version.as_str(),
            ),
        };
        ResolvedProductImage {
            image,
            app_version_label: self.product_version.clone(),
            product_version: self.product_version.clone(),
        }
    }
}

/// The kinds of condition the reconciler reports.
#[derive(Clone, Copy, Debug, PartialEq, Eq, Structural)]
pub enum ClusterConditionType {
    Available,
    ReconciliationPaused,
    Stopped,
}

/// Whether a condition holds.
#[derive(Clone, Copy, Debug, PartialEq, Eq, Structural)]
pub enum ConditionStatus {
    True,
    False,
}

/// One aggregated condition of the cluster.
#[derive(Clone, Debug, PartialEq, Eq)]
pub struct ClusterCondition {
    pub type_: ClusterConditionType,
    pub status: ConditionStatus,
    pub message: String,
}

pub struct ClusterConditionView {
    pub type_: ClusterConditionType,
    pub status: ConditionStatus,
    pub message: Seq<char>,
}

impl View for ClusterCondition {
    type V = ClusterConditionView;

    open spec fn view(&self) -> ClusterConditionView {
        ClusterConditionView {
            type_: self.type_,
            status: self.status,
            message: self.message@,
        }
    }
}

/// The status persisted back onto the cluster object.
#[derive(Clone, Debug, PartialEq, Eq)]
pub struct HelloClusterStatus {
    pub conditions: Vec<ClusterCondition>,
}

pub struct HelloClusterStatusView {
    pub conditions: Seq<ClusterConditionView>,
}

impl View for HelloClusterStatus {
    type V = HelloClusterStatusView;

    open spec fn view(&self) -> HelloClusterStatusView {
        HelloClusterStatusView { conditions: seq_views(self.conditions@) }
    }
}

/// Metadata of the cluster object as fetched from the store.
#[derive(Clone, Debug, PartialEq, Eq)]
pub struct ObjectMetadata {
    pub name: Option<String>,
    pub namespace: Option<String>,
}

/// The cluster-wide desired-state specification.
#[derive(Clone, Debug, PartialEq, Eq)]
pub struct HelloClusterSpec {
    pub cluster_config: HelloClusterConfig,
    pub cluster_operation: ClusterOperation,
    pub image: ProductImage,
    pub servers: Option<Role>,
    pub recipient: String,
    pub color: String,
}

/// The cluster object: a read-only snapshot for one reconcile.
#[derive(Clone, Debug, PartialEq, Eq)]
pub struct HelloCluster {
    pub metadata: ObjectMetadata,
    pub spec: HelloClusterSpec,
    pub status: Option<HelloClusterStatus>,
}

pub struct HelloClusterView {
    pub name: Option<Seq<char>>,
    pub namespace: Option<Seq<char>>,
    pub cluster_config: HelloClusterConfigView,
    pub cluster_operation: ClusterOperation,
    pub image: ProductImageView,
    pub servers: Option<RoleView>,
    pub recipient: Seq<char>,
    pub color: Seq<char>,
    pub status: Option<HelloClusterStatusView>,
}

impl View for HelloCluster {
    type V = HelloClusterView;

    open spec fn view(&self) -> HelloClusterView {
        HelloClusterView {
            name: opt_view(self.metadata.name),
            namespace: opt_view(self.metadata.namespace),
            cluster_config: self.spec.cluster_config@,
            cluster_operation: self.spec.cluster_operation,
            image: self.spec.image@,
            servers: opt_view(self.spec.servers),
            recipient: self.spec.recipient@,
            color: self.spec.color@,
            status: opt_view(self.status),
        }
    }
}

/// The cluster name, or the empty string for an unnamed object.
pub open spec fn spec_name_any(c: HelloClusterView) -> Seq<char> {
    match c.name {
        Some(n) => n,
        None => Seq::empty(),
    }
}

/// `cluster-role-group`: the object name shared by a role-group's service,
/// configuration bundle and workload.
pub open spec fn object_name_view(cluster: Seq<char>, role: Seq<char>, group: Seq<char>) -> Seq<char> {
    cluster + "-"@ + role + "-"@ + group
}

/// The name of the pod with the given ordinal.
pub open spec fn pod_name_view(object_name: Seq<char>, i: nat) -> Seq<char> {
    object_name + "-"@ + dec_str(i)
}

/// Identifies one role-group of one cluster.
#[derive(Clone, Debug, PartialEq, Eq)]
pub struct RoleGroupRef {
    pub cluster_name: String,
    pub role: String,
    pub role_group: String,
}

pub struct RoleGroupRefView {
    pub cluster_name: Seq<char>,
    pub role: Seq<char>,
    pub role_group: Seq<char>,
}

impl View for RoleGroupRef {
    type V = RoleGroupRefView;

    open spec fn view(&self) -> RoleGroupRefView {
        RoleGroupRefView {
            cluster_name: self.cluster_name@,
            role: self.role@,
            role_group: self.role_group@,
        }
    }
}

impl RoleGroupRef {
    /// The name of every object this role-group owns in the store.
    pub fn object_name(&self) -> (r: String)
        ensures
            r@ == object_name_view(self.cluster_name@, self.role@, self.role_group@),
    {
        concat5(
            self.cluster_name.as_str(),
            "-",
            self.role.as_str(),
            "-",
            self.role_group.as_str(),
        )
    }
}

impl HelloRole {
    /// Metadata about a rolegroup.
    pub fn rolegroup_ref(&self, hello: &HelloCluster, group_name: &str) -> (r: RoleGroupRef)
        ensures
            r@.cluster_name == spec_name_any(hello@),
            r@.role == self@,
            r@.role_group == group_name@,
    {
        RoleGroupRef {
            cluster_name: hello.name_any(),
            role: self.as_str().to_owned(),
            role_group: group_name.to_owned(),
        }
    }
}

/// The object the engine reads has no namespace attached.
#[derive(Clone, Copy, Debug, PartialEq, Eq, Structural)]
pub struct NoNamespaceError;

/// Reference to a single pod of the cluster, used for service discovery.
#[derive(Clone, Debug, PartialEq, Eq)]
pub struct PodRef {
    pub namespace: String,
    pub role_group_service_name: String,
    pub pod_name: String,
}

pub struct PodRefView {
    pub namespace: Seq<char>,
    pub role_group_service_name: Seq<char>,
    pub pod_name: Seq<char>,
}

impl View for PodRef {
    type V = PodRefView;

    open spec fn view(&self) -> PodRefView {
        PodRefView {
            namespace: self.namespace@,
            role_group_service_name: self.role_group_service_name@,
            pod_name: self.pod_name@,
        }
    }
}

/// The in-cluster DNS name of a pod.
pub open spec fn spec_fqdn(p: PodRefView) -> Seq<char> {
    p.pod_name + "."@ + p.role_group_service_name + "."@ + p.namespace + ".svc.cluster.local"@
}

impl PodRef {
    pub fn fqdn(&self) -> (r: String)
        ensures
            r@ == spec_fqdn(self@),
    {
        let r = concat5(
            self.pod_name.as_str(),
            ".",
            self.role_group_service_name.as_str(),
            ".",
            self.namespace.as_str(),
        ).concat(".svc.cluster.local");
        proof {
            assert(r@ =~= spec_fqdn(self@));
        }
        r
    }
}

/// The pods one role-group contributes, ordinals `0..replicas`.
pub open spec fn spec_group_pods(
    cluster: Seq<char>,
    ns: Seq<char>,
    group_name: Seq<char>,
    replicas: u16,
) -> Seq<PodRefView> {
    Seq::new(
        replicas as nat,
        |i: int| PodRefView {
            namespace: ns,
            role_group_service_name: object_name_view(cluster, "server"@, group_name),
            pod_name: pod_name_view(object_name_view(cluster, "server"@, group_name), i as nat),
        },
    )
}

/// The declared replica count of a role-group, zero when unset.
pub open spec fn spec_replicas(g: RoleGroupView) -> u16 {
    match g.replicas {
        Some(n) => n,
        None => 0,
    }
}

/// The role-group names in lexicographic order, each once.
pub open spec fn spec_sorted_group_names(groups: Seq<(Seq<char>, RoleGroupView)>) -> Seq<Seq<char>>
    decreases groups.len(),
{
    if groups.len() == 0 {
        Seq::empty()
    } else {
        crate::strings::spec_insert_name(
            spec_sorted_group_names(groups.drop_last()),
            groups.last().0,
        )
    }
}

/// The sorted name list holds exactly the declared names.
pub proof fn lemma_sorted_group_names_membership(groups: Seq<(Seq<char>, RoleGroupView)>)
    ensures
        forall|n: Seq<char>|
            #[trigger] spec_sorted_group_names(groups).contains(n) <==> (exists|j: int|
                0 <= j < groups.len() && (#[trigger] groups[j]).0 == n),
    decreases groups.len(),
{
    if groups.len() > 0 {
        let pre = groups.drop_last();
        lemma_sorted_group_names_membership(pre);
        crate::strings::lemma_insert_name_membership(
            spec_sorted_group_names(pre),
            groups.last().0,
        );
        assert forall|n: Seq<char>|
            #[trigger] spec_sorted_group_names(groups).contains(n) <==> (exists|j: int|
                0 <= j < groups.len() && (#[trigger] groups[j]).0 == n) by {
            if spec_sorted_group_names(groups).contains(n) {
                if spec_sorted_group_names(pre).contains(n) {
                    let j = choose|j: int| 0 <= j < pre.len() && (#[trigger] pre[j]).0 == n;
                    assert(groups[j].0 == n);
                } else {
                    assert(groups[groups.len() - 1].0 == n);
                }
            }
            if exists|j: int| 0 <= j < groups.len() && (#[trigger] groups[j]).0 == n {
                let j = choose|j: int| 0 <= j < groups.len() && (#[trigger] groups[j]).0 == n;
                if j < groups.len() - 1 {
                    assert(pre[j].0 == n);
                    assert(spec_sorted_group_names(pre).contains(n));
                }
            }
        }
    }
}

/// The name list `pods` enumerates is strictly increasing: the names are
/// in lexicographic order and none is repeated, whatever order and
/// repetition the declaration had.
pub proof fn lemma_sorted_group_names_sorted(groups: Seq<(Seq<char>, RoleGroupView)>)
    ensures
        crate::strings::names_strictly_sorted(spec_sorted_group_names(groups)),
    decreases groups.len(),
{
    if groups.len() > 0 {
        lemma_sorted_group_names_sorted(groups.drop_last());
        crate::strings::lemma_insert_name_sorted(
            spec_sorted_group_names(groups.drop_last()),
            groups.last().0,
        );
    }
}

/// The pods of the named role-groups, in the given name order; each name
/// resolves to its first declared role-group.
pub open spec fn spec_pods_of_names(
    cluster: Seq<char>,
    ns: Seq<char>,
    groups: Seq<(Seq<char>, RoleGroupView)>,
    names: Seq<Seq<char>>,
) -> Seq<PodRefView>
    decreases names.len(),
{
    if names.len() == 0 {
        Seq::empty()
    } else {
        spec_pods_of_names(cluster, ns, groups, names.drop_last()) + spec_group_pods(
            cluster,
            ns,
            names.last(),
            spec_replicas(spec_find_role_group(groups, names.last()).unwrap()),
        )
    }
}

/// The pods of all role-groups, enumerated in lexicographic order of the
/// role-group name, so that equal specifications always yield the same
/// sequence.
pub open spec fn spec_pods(
    cluster: Seq<char>,
    ns: Seq<char>,
    groups: Seq<(Seq<char>, RoleGroupView)>,
) -> Seq<PodRefView> {
    spec_pods_of_names(cluster, ns, groups, spec_sorted_group_names(groups))
}

/// The role-groups of the cluster's server role, or empty when the role is
/// absent.
pub open spec fn spec_server_groups(c: HelloClusterView) -> Seq<(Seq<char>, RoleGroupView)> {
    match c.servers {
        Some(role) => role.role_groups,
        None => Seq::empty(),
    }
}

/// The first role-group of the given name, by reference.
#[verifier::loop_isolation(false)]
fn find_group<'a>(groups: &'a Vec<(String, RoleGroup)>, name: &String) -> (r: Option<
    &'a RoleGroup,
>)
    ensures
        match r {
            Some(g) => spec_find_role_group(spec_role_groups_view(groups@), name@) == Some(g@),
            None => spec_find_role_group(spec_role_groups_view(groups@), name@) is None,
        },
{
    let ghost gv = spec_role_groups_view(groups@);
    proof {
        assert(gv.skip(0) =~= gv);
    }
    let mut i: usize = 0;
    while i < groups.len()
        invariant
            i <= groups@.len(),
            gv.len() == groups@.len(),
            spec_find_role_group(gv, name@) == spec_find_role_group(gv.skip(i as int), name@),
        decreases groups@.len() - i,
    {
        let entry = &groups[i];
        proof {
            assert(gv[i as int] == (entry.0@, entry.1@));
        }
        if entry.0 == *name {
            proof {
                assert(gv.skip(i as int).first() == gv[i as int]);
            }
            return Some(&entry.1);
        }
        proof {
            lemma_find_role_group_skip(gv, name@, i as int);
        }
        i = i + 1;
    }
    proof {
        assert(gv.skip(gv.len() as int).len() == 0);
    }
    None
}

/// The role-group names, sorted lexicographically, each once.
#[verifier::loop_isolation(false)]
fn sorted_group_names(groups: &Vec<(String, RoleGroup)>) -> (r: Vec<String>)
    ensures
        r.deep_view() == spec_sorted_group_names(spec_role_groups_view(groups@)),
{
    let ghost gv = spec_role_groups_view(groups@);
    let mut r: Vec<String> = Vec::new();
    proof {
        assert(gv.subrange(0, 0) =~= Seq::<(Seq<char>, RoleGroupView)>::empty());
        assert(r.deep_view() =~= spec_sorted_group_names(gv.subrange(0, 0)));
    }
    let mut i: usize = 0;
    while i < groups.len()
        invariant
            i <= groups@.len(),
            gv.len() == groups@.len(),
            r.deep_view() == spec_sorted_group_names(gv.subrange(0, i as int)),
        decreases groups@.len() - i,
    {
        let entry = &groups[i];
        proof {
            assert(gv[i as int] == (entry.0@, entry.1@));
            assert(gv.subrange(0, i as int + 1).drop_last() =~= gv.subrange(0, i as int));
            assert(gv.subrange(0, i as int + 1).last() == gv[i as int]);
        }
        crate::strings::insert_name(&mut r, entry.0.clone());
        i = i + 1;
    }
    proof {
        assert(gv.subrange(0, gv.len() as int) =~= gv);
    }
    r
}

impl HelloCluster {
    /// The cluster name, or the empty string for an unnamed object.
    pub fn name_any(&self) -> (r: String)
        ensures
            r@ == spec_name_any(self@),
    {
        match &self.metadata.name {
            Some(n) => n.clone(),
            None => String::new(),
        }
    }

    /// The conditions most recently persisted, empty when none were.
    pub fn conditions(&self) -> (r: Vec<ClusterCondition>)
        ensures
            seq_views(r@) == match self@.status {
                Some(s) => s.conditions,
                None => Seq::<ClusterConditionView>::empty(),
            },
    {
        let mut r: Vec<ClusterCondition> = Vec::new();
        match &self.status {
            Some(status) => {
                let mut i: usize = 0;
                while i < status.conditions.len()
                    invariant
                        i <= status.conditions.len(),
                        r@.len() == i,
                        forall|j: int|
                            0 <= j < i ==> #[trigger] r@[j]@ == status.conditions@[j]@,
                    decreases status.conditions.len() - i,
                {
                    let c = &status.conditions[i];
                    r.push(
                        ClusterCondition {
                            type_: c.type_,
                            status: c.status,
                            message: c.message.clone(),
                        },
                    );
                    i = i + 1;
                }
                proof {
                    lemma_seq_views(r@);
                    lemma_seq_views(status.conditions@);
                    assert(seq_views(r@) =~= self@.status.unwrap().conditions);
                }
            },
            None => {
                proof {
                    assert(seq_views(r@) =~= Seq::<ClusterConditionView>::empty());
                }
            },
        }
        r
    }

    /// Returns a reference to the role. Raises an error if the role is not
    /// defined.
    pub fn role(&self, role_variant: &HelloRole) -> (r: Result<&Role, Error>)
        ensures
            self@.servers is Some ==> (r matches Ok(role) && role@ == self@.servers.unwrap()),
            self@.servers is None ==> (r matches Err(e)
                && (e matches Error::CannotRetrieveHelloRole { role } && role@ == role_variant@)),
    {
        match &self.spec.servers {
            Some(role) => Ok(role),
            None => Err(Error::CannotRetrieveHelloRole { role: role_variant.as_str().to_owned() }),
        }
    }

    /// Returns a reference to the role group. Raises an error if the role
    /// or role group are not defined.
    #[verifier::loop_isolation(false)]
    pub fn role_group(&self, rolegroup_ref: &RoleGroupRef) -> (r: Result<&RoleGroup, Error>)
        ensures
            rolegroup_ref@.role != "server"@ ==> (r matches Err(e)
                && (e matches Error::UnknownHelloRole { role, roles }
                    && role@ == rolegroup_ref@.role && roles@.len() == 1 && roles@[0]@
                    == "server"@)),
            rolegroup_ref@.role == "server"@ && self@.servers is None ==> (r matches Err(e)
                && (e matches Error::CannotRetrieveHelloRole { role } && role@ == "server"@)),
            rolegroup_ref@.role == "server"@ && self@.servers is Some ==> match spec_find_role_group(
                spec_server_groups(self@),
                rolegroup_ref@.role_group,
            ) {
                Some(g) => r matches Ok(found) && found@ == g,
                None => r matches Err(e)
                    && (e matches Error::CannotRetrieveHelloRoleGroup { role_group }
                        && role_group@ == rolegroup_ref@.role_group),
            },
    {
        let role_variant = match HelloRole::from_name(rolegroup_ref.role.as_str()) {
            Some(v) => v,
            None => {
                return Err(
                    Error::UnknownHelloRole {
                        role: rolegroup_ref.role.clone(),
                        roles: HelloRole::roles(),
                    },
                );
            },
        };
        let role = match self.role(&role_variant) {
            Ok(role) => role,
            Err(e) => {
                return Err(e);
            },
        };
        let groups = &role.role_groups;
        let ghost groups_v = role@.role_groups;
        let ghost name_v = rolegroup_ref@.role_group;
        proof {
            assert(groups_v.skip(0) =~= groups_v);
        }
        let mut i: usize = 0;
        while i < groups.len()
            invariant
                i <= groups.len(),
                groups_v == role@.role_groups,
                groups_v.len() == groups@.len(),
                spec_find_role_group(groups_v, name_v) == spec_find_role_group(
                    groups_v.skip(i as int),
                    name_v,
                ),
                role@ == self@.servers.unwrap(),
            decreases groups.len() - i,
        {
            let entry = &groups[i];
            proof {
                assert(groups_v[i as int] == (entry.0@, entry.1@));
            }
            if entry.0 == rolegroup_ref.role_group {
                proof {
                    assert(groups_v.skip(i as int).first() == groups_v[i as int]);
                }
                return Ok(&entry.1);
            }
            proof {
                lemma_find_role_group_skip(groups_v, name_v, i as int);
            }
            i = i + 1;
        }
        proof {
            assert(groups_v.skip(groups_v.len() as int).len() == 0);
        }
        Err(Error::CannotRetrieveHelloRoleGroup { role_group: rolegroup_ref.role_group.clone() })
    }

    /// The name of the role-level cluster endpoint.
    pub fn server_role_service_name(&self) -> (r: Option<&str>)
        ensures
            r is Some <==> self@.name is Some,
            r is Some ==> r.unwrap()@ == self@.name.unwrap(),
    {
        match &self.metadata.name {
            Some(n) => Some(n.as_str()),
            None => None,
        }
    }

    /// Metadata about a server rolegroup.
    pub fn server_rolegroup_ref(&self, group_name: &str) -> (r: RoleGroupRef)
        ensures
            r@.cluster_name == spec_name_any(self@),
            r@.role == "server"@,
            r@.role_group == group_name@,
    {
        RoleGroupRef {
            cluster_name: self.name_any(),
            role: HelloRole::Server.as_str().to_owned(),
            role_group: group_name.to_owned(),
        }
    }

    /// List all pods expected to form the cluster.
    ///
    /// The pods are predicted from the specification rather than read from
    /// the store, to avoid instance churn, and the role-groups are
    /// enumerated in lexicographic name order, so equal specifications
    /// always yield the same sequence.
    #[verifier::loop_isolation(false)]
    pub fn pods(&self) -> (r: Result<Vec<PodRef>, NoNamespaceError>)
        ensures
            r is Ok <==> self@.namespace is Some,
            r matches Ok(pods) ==> seq_views(pods@) == spec_pods(
                spec_name_any(self@),
                self@.namespace.unwrap(),
                spec_server_groups(self@),
            ),
    {
        let ns: &String = match &self.metadata.namespace {
            Some(ns) => ns,
            None => {
                return Err(NoNamespaceError);
            },
        };
        let mut pods: Vec<PodRef> = Vec::new();
        let ghost groups_v = spec_server_groups(self@);
        match &self.spec.servers {
            None => {
                proof {
                    assert(spec_sorted_group_names(groups_v) =~= Seq::<Seq<char>>::empty());
                    assert(seq_views(pods@) =~= spec_pods(
                        spec_name_any(self@),
                        self@.namespace.unwrap(),
                        groups_v,
                    ));
                }
                Ok(pods)
            },
            Some(role) => {
                let cluster_name = self.name_any();
                let names = sorted_group_names(&role.role_groups);
                let ghost names_v = names.deep_view();
                proof {
                    assert(groups_v == spec_role_groups_view(role.role_groups@));
                    lemma_sorted_group_names_membership(groups_v);
                    assert(names_v.subrange(0, 0) =~= Seq::<Seq<char>>::empty());
                    assert(seq_views(pods@) =~= spec_pods_of_names(
                        cluster_name@,
                        ns@,
                        groups_v,
                        names_v.subrange(0, 0),
                    ));
                }
                let mut t: usize = 0;
                while t < names.len()
                    invariant
                        t <= names@.len(),
                        names_v == spec_sorted_group_names(groups_v),
                        names_v.len() == names@.len(),
                        cluster_name@ == spec_name_any(self@),
                        self@.namespace matches Some(nsv) && nsv == ns@,
                        seq_views(pods@) == spec_pods_of_names(
                            cluster_name@,
                            ns@,
                            groups_v,
                            names_v.subrange(0, t as int),
                        ),
                    decreases names@.len() - t,
                {
                    let name = &names[t];
                    proof {
                        assert(names_v[t as int] == name@);
                        assert(names_v.contains(name@)) by {
                            assert(names_v[t as int] == name@);
                        }
                    }
                    let group = match find_group(&role.role_groups, name) {
                        Some(g) => g,
                        None => {
                            proof {
                                let j = choose|j: int|
                                    0 <= j < groups_v.len() && (#[trigger] groups_v[j]).0 == name@;
                                lemma_find_role_group_present(groups_v, j);
                                assert(false);
                            }
                            return Err(NoNamespaceError);
                        },
                    };
                    let rolegroup_ref = self.server_rolegroup_ref(name.as_str());
                    let object_name = rolegroup_ref.object_name();
                    let replicas: u16 = match &group.replicas {
                        Some(n) => *n,
                        None => 0,
                    };
                    let ghost group_seq = spec_group_pods(
                        cluster_name@,
                        ns@,
                        names_v[t as int],
                        spec_replicas(spec_find_role_group(groups_v, names_v[t as int]).unwrap()),
                    );
                    proof {
                        assert(group@ == spec_find_role_group(groups_v, name@).unwrap());
                        assert(replicas == spec_replicas(group@));
                    }
                    let ghost pods_before = seq_views(pods@);
                    let mut j: u16 = 0;
                    while j < replicas
                        invariant
                            j <= replicas,
                            t < names_v.len(),
                            object_name@ == object_name_view(
                                cluster_name@,
                                "server"@,
                                names_v[t as int],
                            ),
                            group_seq == spec_group_pods(
                                cluster_name@,
                                ns@,
                                names_v[t as int],
                                replicas,
                            ),
                            seq_views(pods@) =~= pods_before + group_seq.subrange(0, j as int),
                            self@.namespace matches Some(nsv) && nsv == ns@,
                        decreases replicas - j,
                    {
                        let ordinal = u64_to_dec_string(j as u64);
                        let pod_name = concat3(object_name.as_str(), "-", ordinal.as_str());
                        let pod = PodRef {
                            namespace: ns.clone(),
                            role_group_service_name: object_name.clone(),
                            pod_name,
                        };
                        proof {
                            assert(pod@ == group_seq[j as int]);
                        }
                        let ghost prev = pods@;
                        pods.push(pod);
                        proof {
                            lemma_seq_views_push(prev, pod);
                            assert(seq_views(pods@) =~= pods_before + group_seq.subrange(
                                0,
                                j as int + 1,
                            ));
                        }
                        j = j + 1;
                    }
                    proof {
                        assert(group_seq.subrange(0, replicas as int) =~= group_seq);
                        assert(names_v.subrange(0, t as int + 1).drop_last() =~= names_v.subrange(
                            0,
                            t as int,
                        ));
                        assert(names_v.subrange(0, t as int + 1).last() == names_v[t as int]);
                        assert(seq_views(pods@) =~= spec_pods_of_names(
                            cluster_name@,
                            ns@,
                            groups_v,
                            names_v.subrange(0, t as int + 1),
                        ));
                    }
                    t = t + 1;
                }
                proof {
                    assert(names_v.subrange(0, names_v.len() as int) =~= names_v);
                }
                Ok(pods)
            },
        }
    }

    /// The role-level operational policy, when the role is defined.
    pub fn role_config(&self, role: &HelloRole) -> (r: Option<&GenericRoleConfig>)
        ensures
            r is Some <==> self@.servers is Some,
            r is Some ==> *r.unwrap() == self@.servers.unwrap().role_config,
    {
        match role {
            HelloRole::Server => match &self.spec.servers {
                Some(s) => Some(&s.role_config),
                None => None,
            },
        }
    }

    /// Retrieve and merge resource configs for role and role groups.
    ///
    /// Precedence, high to low: role-group, role, built-in defaults. The
    /// merged fragment is then validated.
    pub fn merged_config(&self, role: &HelloRole, rolegroup_ref: &RoleGroupRef) -> (r: Result<
        HelloConfig,
        Error,
    >)
        ensures
            self@.servers is None ==> (r matches Err(e)
                && (e matches Error::CannotRetrieveHelloRole { role } && role@ == "server"@)),
            self@.servers is Some && rolegroup_ref@.role != "server"@ ==> (r matches Err(e)
                && (e matches Error::UnknownHelloRole { role, .. } && role@
                == rolegroup_ref@.role)),
            self@.servers is Some && rolegroup_ref@.role == "server"@ ==> match spec_find_role_group(
                spec_server_groups(self@),
                rolegroup_ref@.role_group,
            ) {
                None => r matches Err(e)
                    && (e matches Error::CannotRetrieveHelloRoleGroup { role_group }
                        && role_group@ == rolegroup_ref@.role_group),
                Some(g) => {
                    let merged = spec_merge(
                        g.config.config,
                        spec_merge(
                            self@.servers.unwrap().config.config,
                            HelloConfig::spec_default_config(spec_name_any(self@), "server"@),
                        ),
                    );
                    match spec_validate(merged) {
                        Ok(c) => r matches Ok(conf) && conf@ == c,
                        Err(f) => r matches Err(e)
                            && (e matches Error::FragmentValidationFailure { field, role_group }
                                && field@ == f && role_group@ == rolegroup_ref@.role_group),
                    }
                },
            },
    {
        let name = self.name_any();
        let conf_defaults = HelloConfig::default_config(name.as_str(), role);

        let role_obj = match self.role(role) {
            Ok(role_obj) => role_obj,
            Err(e) => {
                return Err(e);
            },
        };
        let mut conf_role = clone_fragment(&role_obj.config.config);

        let role_group = match self.role_group(rolegroup_ref) {
            Ok(role_group) => role_group,
            Err(e) => {
                return Err(e);
            },
        };
        let mut conf_role_group = clone_fragment(&role_group.config.config);

        // Merge more specific configs into default config. Hierarchy, high
        // to low: role-group, role, default.
        conf_role.merge(&conf_defaults);
        conf_role_group.merge(&conf_role);

        validate_fragment(conf_role_group, rolegroup_ref.role_group.as_str())
    }
}

} // verus!
