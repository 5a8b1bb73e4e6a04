//! Disruption budgets: one per role, bounding how many of its pods may be
//! unavailable at a time.

use vstd::prelude::*;
use vstd::string::*;

use crate::crd::{spec_name_any, HelloCluster, HelloRole, PdbConfig};
use crate::resources::{ObjectLabels, ObjectLabelsView, PdbSpec, PdbSpecView, Resource,
    ResourcePayload, ResourcePayloadView, ResourceView};
use crate::strings::{concat2, concat3};
use crate::tracker::{spec_apply_resource, ResourceTracker, Store};
use crate::{APP_NAME, OPERATOR_NAME};

verus! {

/// Errors of the disruption-budget path.
#[derive(Clone, Debug, PartialEq, Eq)]
pub enum Error {
    /// The budget could not be built: the cluster object lacks the name
    /// or namespace the budget's metadata needs.
    CreatePdb { role: String },
}

/// The description of each disruption-budget error.
pub open spec fn spec_error_message(e: Error) -> Seq<char> {
    match e {
        Error::CreatePdb { role } => "cannot create PodDisruptionBudget for role "@ + role@,
    }
}

impl Error {
    /// A short human-readable description of the error.
    pub fn message(&self) -> (r: String)
        ensures
            r@ == spec_error_message(*self),
    {
        match self {
            Error::CreatePdb { role } => {
                concat2("cannot create PodDisruptionBudget for role ", role.as_str())
            },
        }
    }
}

/// How many servers may be unavailable at a time unless the
/// administrator overrides it.
pub fn max_unavailable_servers() -> (r: u16)
    ensures
        r == 1,
{
    1
}

/// The disruption budget of the server role.
pub open spec fn spec_pdb_resource(
    c: crate::crd::HelloClusterView,
    max_unavailable: u16,
) -> ResourceView {
    ResourceView {
        name: spec_name_any(c) + "-"@ + "server"@,
        namespace: c.namespace.unwrap(),
        labels: ObjectLabelsView {
            app_name: APP_NAME@,
            owner_name: spec_name_any(c),
            app_version: Seq::empty(),
            operator_name: OPERATOR_NAME@,
            controller_name: crate::controller::HELLO_CONTROLLER_NAME@,
            role: "server"@,
            role_group: Seq::empty(),
        },
        payload: ResourcePayloadView::PodDisruptionBudget(
            PdbSpecView {
                max_unavailable: max_unavailable,
                selector: crate::controller::spec_role_selector(spec_name_any(c), "server"@),
            },
        ),
    }
}

/// The declared maximum-unavailable, or the role's default.
pub open spec fn spec_max_unavailable(pdb: PdbConfig) -> u16 {
    match pdb.max_unavailable {
        Some(n) => n,
        None => 1,
    }
}

/// Builds and applies the disruption budget of the role, when the policy
/// enables one.
pub fn add_pdbs(
    pdb: &PdbConfig,
    hello: &HelloCluster,
    role: &HelloRole,
    tracker: &mut ResourceTracker,
    store: &mut Store,
) -> (r: Result<(), Error>)
    requires
        old(store).wf(),
        old(tracker)@.marker == (crate::resources::OwnershipMarkerView {
            app_name: APP_NAME@,
            cluster_name: spec_name_any(hello@),
            operator_name: OPERATOR_NAME@,
            controller_name: crate::controller::HELLO_CONTROLLER_NAME@,
        }),
    ensures
        final(store).wf(),
        final(tracker)@.marker == old(tracker)@.marker,
        !pdb.enabled ==> r is Ok && final(store)@ == old(store)@ && final(tracker)@ == old(
            tracker,
        )@,
        pdb.enabled && (hello@.name is None || hello@.namespace is None) ==> (r matches Err(e)
            && (e matches Error::CreatePdb { role } && role@ == "server"@) && final(store)@ == old(
            store,
        )@ && final(tracker)@ == old(tracker)@),
        pdb.enabled && hello@.name is Some && hello@.namespace is Some ==> {
            &&& r is Ok
            &&& final(store)@ == spec_apply_resource(
                old(store)@,
                spec_pdb_resource(hello@, spec_max_unavailable(*pdb)),
            )
            &&& final(tracker)@.applied == old(tracker)@.applied.push(
                crate::resources::spec_identity(
                    spec_pdb_resource(hello@, spec_max_unavailable(*pdb)),
                ),
            )
        },
{
    if !pdb.enabled {
        return Ok(());
    }
    let name = match &hello.metadata.name {
        Some(n) => n.clone(),
        None => {
            return Err(Error::CreatePdb { role: role.as_str().to_owned() });
        },
    };
    let namespace = match &hello.metadata.namespace {
        Some(ns) => ns.clone(),
        None => {
            return Err(Error::CreatePdb { role: role.as_str().to_owned() });
        },
    };
    let max_unavailable = match pdb.max_unavailable {
        Some(n) => n,
        None => max_unavailable_servers(),
    };
    let labels = ObjectLabels {
        app_name: APP_NAME.to_owned(),
        owner_name: name.clone(),
        app_version: String::new(),
        operator_name: OPERATOR_NAME.to_owned(),
        controller_name: crate::controller::HELLO_CONTROLLER_NAME.to_owned(),
        role: role.as_str().to_owned(),
        role_group: String::new(),
    };
    let selector = crate::controller::role_selector(name.as_str(), "server");
    let resource = Resource {
        name: concat3(name.as_str(), "-", "server"),
        namespace,
        labels,
        payload: ResourcePayload::PodDisruptionBudget(PdbSpec { max_unavailable, selector }),
    };
    proof {
        assert(resource@ == spec_pdb_resource(hello@, spec_max_unavailable(*pdb)));
    }
    tracker.add(store, resource);
    Ok(())
}

} // verus!
