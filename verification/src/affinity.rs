//! Built-in placement preferences: pods of the same role spread across
//! nodes, derived deterministically from the cluster name and role.

use vstd::prelude::*;
use vstd::string::*;

use crate::crd::{HelloRole, StackableAffinity, StackableAffinityView, WeightedPodAffinityTerm,
    WeightedPodAffinityTermView};
use crate::APP_NAME;

verus! {

/// The affinity the default configuration assigns: one preferred
/// anti-affinity term of weight 70 between the pods of this cluster and
/// role, keyed on the node hostname.
pub open spec fn spec_get_affinity(cluster_name: Seq<char>, role: Seq<char>) -> StackableAffinityView {
    StackableAffinityView {
        pod_anti_affinity_preferred: seq![
            WeightedPodAffinityTermView {
                weight: 70,
                match_labels: seq![
                    ("app.kubernetes.io/name"@, APP_NAME@),
                    ("app.kubernetes.io/instance"@, cluster_name),
                    ("app.kubernetes.io/component"@, role),
                ],
                topology_key: "kubernetes.io/hostname"@,
            },
        ],
    }
}

pub fn get_affinity(cluster_name: &str, role: &HelloRole) -> (r: StackableAffinity)
    ensures
        r@ == spec_get_affinity(cluster_name@, role@),
{
    let mut match_labels: Vec<(String, String)> = Vec::new();
    match_labels.push(("app.kubernetes.io/name".to_owned(), APP_NAME.to_owned()));
    match_labels.push(("app.kubernetes.io/instance".to_owned(), cluster_name.to_owned()));
    match_labels.push(("app.kubernetes.io/component".to_owned(), role.as_str().to_owned()));
    let term = WeightedPodAffinityTerm {
        weight: 70,
        match_labels,
        topology_key: "kubernetes.io/hostname".to_owned(),
    };
    let mut terms: Vec<WeightedPodAffinityTerm> = Vec::new();
    proof {
        assert(term@.match_labels =~= spec_get_affinity(cluster_name@, role@)
            .pod_anti_affinity_preferred[0].match_labels);
    }
    terms.push(term);
    let r = StackableAffinity { pod_anti_affinity_preferred: terms };
    proof {
        assert(r@.pod_anti_affinity_preferred =~= spec_get_affinity(cluster_name@, role@)
            .pod_anti_affinity_preferred);
    }
    r
}

} // verus!
