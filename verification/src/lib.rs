//! A declarative reconciliation engine for a small clustered application.
//!
//! Given a hierarchical desired-state specification (cluster, role,
//! role-group), the library resolves a fully merged and validated
//! configuration per role-group, computes the set of resources that must
//! exist to run each role-group, applies that set idempotently against a
//! resource store, and removes resources that this cluster owns but that are
//! no longer desired.

use vstd::prelude::*;

pub mod affinity;
pub mod controller;
pub mod crd;
pub mod pdb;
pub mod resources;
pub mod strings;
pub mod tracker;

verus! {

/// Application name, used in labels and resource selectors.
pub const APP_NAME: &'static str = "hello-world";

/// Name of the operator that owns the applied resources.
pub const OPERATOR_NAME: &'static str = "hello.stackable.tech";

} // verus!
