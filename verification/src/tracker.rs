//! The resource tracker: applies a desired resource set against a
//! resource store (create-or-update with whole-object replacement of the
//! operator-managed fields) and deletes every resource this cluster owns
//! that is absent from the set. The store is modelled as a value whose
//! view is a map from resource identity to stored resource; the transport
//! that carries these primitives to a remote store is a collaborator
//! outside this crate.

use vstd::prelude::*;
use vstd::string::*;

use crate::crd::{seq_views, lemma_seq_views, lemma_seq_views_push};
use crate::resources::{ObjectLabels, ObjectLabelsView, OwnershipMarkerView, Resource,
    ResourceIdentity, ResourceIdentityView, ResourcePayload, ResourcePayloadView, ResourceView,
    spec_identities, spec_identity, spec_marker_matches, spec_unique_identities};

verus! {

/// What one apply did to the store.
#[derive(Clone, Copy, Debug, PartialEq, Eq, Structural)]
pub enum AppliedOutcome {
    /// The identity was absent and the resource was created.
    Created,
    /// The identity existed and its operator-managed fields were replaced.
    Updated,
}

/// One resource as the store holds it: the labels and payload the
/// operator manages, and a readiness flag that only the store's side
/// (the workload controller) mutates.
#[derive(Clone, Debug, PartialEq, Eq)]
pub struct StoredResource {
    pub labels: ObjectLabels,
    pub payload: ResourcePayload,
    pub ready: bool,
}

pub struct StoredResourceView {
    pub labels: ObjectLabelsView,
    pub payload: ResourcePayloadView,
    pub ready: bool,
}

impl View for StoredResource {
    type V = StoredResourceView;

    open spec fn view(&self) -> StoredResourceView {
        StoredResourceView {
            labels: self.labels@,
            payload: self.payload@,
            ready: self.ready,
        }
    }
}

/// The ownership marker a tracker stamps on everything it applies.
#[derive(Clone, Debug, PartialEq, Eq)]
pub struct OwnershipMarker {
    pub app_name: String,
    pub cluster_name: String,
    pub operator_name: String,
    pub controller_name: String,
}

impl View for OwnershipMarker {
    type V = OwnershipMarkerView;

    open spec fn view(&self) -> OwnershipMarkerView {
        OwnershipMarkerView {
            app_name: self.app_name@,
            cluster_name: self.cluster_name@,
            operator_name: self.operator_name@,
            controller_name: self.controller_name@,
        }
    }
}

impl OwnershipMarker {
    pub fn duplicate(&self) -> (r: OwnershipMarker)
        ensures
            r == *self,
    {
        OwnershipMarker {
            app_name: self.app_name.clone(),
            cluster_name: self.cluster_name.clone(),
            operator_name: self.operator_name.clone(),
            controller_name: self.controller_name.clone(),
        }
    }

    /// Whether labels carry exactly this marker.
    pub fn matches(&self, labels: &ObjectLabels) -> (r: bool)
        ensures
            r == spec_marker_matches(labels@, self@),
    {
        self.app_name == labels.app_name && self.cluster_name == labels.owner_name
            && self.operator_name == labels.operator_name && self.controller_name
            == labels.controller_name
    }
}

/// The map an entry list denotes; later entries would win, though the
/// store keeps identities unique.
pub open spec fn entries_map(s: Seq<(ResourceIdentityView, StoredResourceView)>) -> Map<
    ResourceIdentityView,
    StoredResourceView,
>
    decreases s.len(),
{
    if s.len() == 0 {
        Map::empty()
    } else {
        entries_map(s.drop_last()).insert(s.last().0, s.last().1)
    }
}

/// No identity occurs twice in the entry list.
pub open spec fn unique_entry_ids(s: Seq<(ResourceIdentityView, StoredResourceView)>) -> bool {
    forall|i: int, j: int| 0 <= i < j < s.len() ==> (#[trigger] s[i]).0 != (#[trigger] s[j]).0
}

/// Membership in the denoted map is existence of an entry.
pub proof fn lemma_entries_map_membership(s: Seq<(ResourceIdentityView, StoredResourceView)>)
    ensures
        forall|id: ResourceIdentityView|
            #[trigger] entries_map(s).contains_key(id) <==> (exists|i: int|
                0 <= i < s.len() && (#[trigger] s[i]).0 == id),
    decreases s.len(),
{
    if s.len() > 0 {
        lemma_entries_map_membership(s.drop_last());
        assert forall|id: ResourceIdentityView|
            #[trigger] entries_map(s).contains_key(id) implies (exists|i: int|
            0 <= i < s.len() && (#[trigger] s[i]).0 == id) by {
            if id == s.last().0 {
                assert(s[s.len() - 1].0 == id);
            } else {
                assert(entries_map(s.drop_last()).contains_key(id));
                let i = choose|i: int| 0 <= i < s.drop_last().len() && (#[trigger] s.drop_last()[i]).0 == id;
                assert(s[i].0 == id);
            }
        }
        assert forall|id: ResourceIdentityView|
            (exists|i: int| 0 <= i < s.len() && (#[trigger] s[i]).0 == id) implies #[trigger] entries_map(
            s,
        ).contains_key(id) by {
            let i = choose|i: int| 0 <= i < s.len() && (#[trigger] s[i]).0 == id;
            if i < s.len() - 1 {
                assert(s.drop_last()[i].0 == id);
            }
        }
    }
}

/// With unique identities, each entry is looked up exactly.
pub proof fn lemma_entries_map_value(s: Seq<(ResourceIdentityView, StoredResourceView)>, i: int)
    requires
        unique_entry_ids(s),
        0 <= i < s.len(),
    ensures
        entries_map(s).contains_key(s[i].0),
        entries_map(s)[s[i].0] == s[i].1,
    decreases s.len(),
{
    lemma_entries_map_membership(s);
    if i == s.len() - 1 {
    } else {
        assert(s[i].0 != s[s.len() - 1].0);
        assert(s.drop_last()[i] == s[i]);
        lemma_entries_map_value(s.drop_last(), i);
    }
}

/// Appending an entry inserts it into the denoted map.
pub proof fn lemma_entries_map_push(
    s: Seq<(ResourceIdentityView, StoredResourceView)>,
    e: (ResourceIdentityView, StoredResourceView),
)
    ensures
        entries_map(s.push(e)) == entries_map(s).insert(e.0, e.1),
{
    assert(s.push(e).drop_last() =~= s);
    assert(s.push(e).last() == e);
}

/// Removing an entry removes its identity from the denoted map.
pub proof fn lemma_entries_map_remove(s: Seq<(ResourceIdentityView, StoredResourceView)>, i: int)
    requires
        unique_entry_ids(s),
        0 <= i < s.len(),
    ensures
        entries_map(s.remove(i)) =~= entries_map(s).remove(s[i].0),
    decreases s.len(),
{
    lemma_entries_map_membership(s);
    lemma_entries_map_membership(s.remove(i));
    if i == s.len() - 1 {
        assert(s.remove(i) =~= s.drop_last());
        assert forall|id: ResourceIdentityView|
            entries_map(s.drop_last()).contains_key(id) implies id != s[i].0 by {
            let j = choose|j: int|
                0 <= j < s.drop_last().len() && (#[trigger] s.drop_last()[j]).0 == id;
            assert(s[j].0 == id);
        }
    } else {
        let t = s.drop_last();
        assert(s.remove(i).drop_last() =~= t.remove(i));
        assert(s.remove(i).last() == s.last());
        lemma_entries_map_remove(t, i);
        assert(entries_map(s.remove(i)) == entries_map(t.remove(i)).insert(s.last().0, s.last().1));
        assert(t[i] == s[i]);
        assert(s[i].0 != s.last().0);
        assert(entries_map(s.remove(i)) =~= entries_map(s).remove(s[i].0));
    }
}

/// With unique identities the denoted map has one key per entry.
pub proof fn lemma_entries_map_len(s: Seq<(ResourceIdentityView, StoredResourceView)>)
    requires
        unique_entry_ids(s),
    ensures
        entries_map(s).dom().finite(),
        entries_map(s).dom().len() == s.len(),
    decreases s.len(),
{
    if s.len() > 0 {
        lemma_entries_map_len(s.drop_last());
        lemma_entries_map_membership(s.drop_last());
        assert forall|id: ResourceIdentityView|
            entries_map(s.drop_last()).contains_key(id) implies id != s.last().0 by {
            let j = choose|j: int|
                0 <= j < s.drop_last().len() && (#[trigger] s.drop_last()[j]).0 == id;
            assert(s[j].0 == id);
        }
        assert(!entries_map(s.drop_last()).contains_key(s.last().0));
    }
}

/// The resource store, modelled as a value. Its view is the map from
/// resource identity to stored resource.
pub struct Store {
    entries: Vec<(ResourceIdentity, StoredResource)>,
}

impl View for Store {
    type V = Map<ResourceIdentityView, StoredResourceView>;

    closed spec fn view(&self) -> Map<ResourceIdentityView, StoredResourceView> {
        entries_map(seq_views(self.entries@))
    }
}

/// What the readiness flag of an identity will be after an apply: kept
/// when the resource existed, false for a newly created one.
pub open spec fn spec_ready_after(
    m: Map<ResourceIdentityView, StoredResourceView>,
    id: ResourceIdentityView,
) -> bool {
    if m.contains_key(id) {
        m[id].ready
    } else {
        false
    }
}

/// One create-or-update at the view level.
pub open spec fn spec_apply_resource(
    m: Map<ResourceIdentityView, StoredResourceView>,
    r: ResourceView,
) -> Map<ResourceIdentityView, StoredResourceView> {
    m.insert(
        spec_identity(r),
        StoredResourceView {
            labels: r.labels,
            payload: r.payload,
            ready: spec_ready_after(m, spec_identity(r)),
        },
    )
}

impl Store {
    /// The store's invariant: one entry per identity.
    pub closed spec fn wf(&self) -> bool {
        unique_entry_ids(seq_views(self.entries@))
    }

    /// An empty store.
    pub fn new() -> (r: Store)
        ensures
            r@ =~= Map::<ResourceIdentityView, StoredResourceView>::empty(),
            r.wf(),
    {
        Store { entries: Vec::new() }
    }

    /// How many resources the store holds.
    pub fn len(&self) -> (r: usize)
        requires
            self.wf(),
        ensures
            self@.dom().finite(),
            r == self@.dom().len(),
    {
        proof {
            lemma_seq_views(self.entries@);
            lemma_entries_map_len(seq_views(self.entries@));
        }
        self.entries.len()
    }

    /// The position of an identity's entry, if it has one.
    #[verifier::loop_isolation(false)]
    fn find_index(&self, id: &ResourceIdentity) -> (r: Option<usize>)
        ensures
            match r {
                Some(i) => i < self.entries@.len() && seq_views(self.entries@)[i as int].0 == id@,
                None => forall|j: int|
                    0 <= j < self.entries@.len() ==> seq_views(self.entries@)[j].0 != id@,
            },
    {
        proof {
            lemma_seq_views(self.entries@);
        }
        let mut i: usize = 0;
        while i < self.entries.len()
            invariant
                i <= self.entries@.len(),
                forall|j: int| 0 <= j < i ==> seq_views(self.entries@)[j].0 != id@,
            decreases self.entries@.len() - i,
        {
            if self.entries[i].0.same_as(id) {
                return Some(i);
            }
            i = i + 1;
        }
        None
    }

    /// The stored resource under an identity, if any.
    pub fn get(&self, id: &ResourceIdentity) -> (r: Option<&StoredResource>)
        requires
            self.wf(),
        ensures
            r is Some <==> self@.contains_key(id@),
            r matches Some(s) ==> s@ == self@[id@],
    {
        proof {
            lemma_seq_views(self.entries@);
            lemma_entries_map_membership(seq_views(self.entries@));
        }
        match self.find_index(id) {
            Some(i) => {
                proof {
                    lemma_entries_map_value(seq_views(self.entries@), i as int);
                }
                Some(&self.entries[i].1)
            },
            None => None,
        }
    }

    /// Create the resource if absent, else replace its operator-managed
    /// fields whole; the readiness flag is the store's and is kept.
    pub fn create_or_update(
        &mut self,
        id: ResourceIdentity,
        labels: ObjectLabels,
        payload: ResourcePayload,
    ) -> (outcome: AppliedOutcome)
        requires
            old(self).wf(),
        ensures
            final(self).wf(),
            final(self)@ == old(self)@.insert(
                id@,
                StoredResourceView {
                    labels: labels@,
                    payload: payload@,
                    ready: spec_ready_after(old(self)@, id@),
                },
            ),
            outcome == AppliedOutcome::Created <==> !old(self)@.contains_key(id@),
    {
        proof {
            lemma_seq_views(self.entries@);
            lemma_entries_map_membership(seq_views(self.entries@));
        }
        let ghost s0 = seq_views(self.entries@);
        match self.find_index(&id) {
            Some(i) => {
                proof {
                    lemma_entries_map_value(s0, i as int);
                }
                let ready = self.entries[i].1.ready;
                let ghost removed = s0.remove(i as int);
                let ghost entries0 = self.entries@;
                self.entries.remove(i);
                proof {
                    lemma_seq_views(entries0);
                    lemma_seq_views(entries0.remove(i as int));
                    assert(seq_views(self.entries@) =~= removed);
                    lemma_entries_map_remove(s0, i as int);
                }
                let ghost entries1 = self.entries@;
                let stored = StoredResource { labels, payload, ready };
                self.entries.push((id, stored));
                proof {
                    lemma_seq_views_push(entries1, (id, stored));
                    lemma_entries_map_push(removed, (id@, stored@));
                    assert(final(self)@ =~= old(self)@.insert(
                        id@,
                        StoredResourceView {
                            labels: labels@,
                            payload: payload@,
                            ready: spec_ready_after(old(self)@, id@),
                        },
                    ));
                    assert forall|a: int, b: int|
                        0 <= a < b < seq_views(self.entries@).len() implies (#[trigger] seq_views(
                        self.entries@,
                    )[a]).0 != (#[trigger] seq_views(self.entries@)[b]).0 by {
                        assert(seq_views(self.entries@) =~= removed.push((id@, stored@)));
                        lemma_entries_map_membership(removed);
                        if b == seq_views(self.entries@).len() - 1 {
                            assert(removed[a] == s0[if a < i { a } else { a + 1 }]);
                        }
                    }
                }
                AppliedOutcome::Updated
            },
            None => {
                let ghost entries0 = self.entries@;
                let stored = StoredResource { labels, payload, ready: false };
                self.entries.push((id, stored));
                proof {
                    lemma_seq_views_push(entries0, (id, stored));
                    lemma_entries_map_push(s0, (id@, stored@));
                    assert(!old(self)@.contains_key(id@));
                    assert(final(self)@ =~= old(self)@.insert(
                        id@,
                        StoredResourceView {
                            labels: labels@,
                            payload: payload@,
                            ready: spec_ready_after(old(self)@, id@),
                        },
                    ));
                    assert forall|a: int, b: int|
                        0 <= a < b < seq_views(self.entries@).len() implies (#[trigger] seq_views(
                        self.entries@,
                    )[a]).0 != (#[trigger] seq_views(self.entries@)[b]).0 by {
                        assert(seq_views(self.entries@) =~= s0.push((id@, stored@)));
                    }
                }
                AppliedOutcome::Created
            },
        }
    }

    /// Deletes the resource under an identity, if present.
    pub fn delete(&mut self, id: &ResourceIdentity) -> (found: bool)
        requires
            old(self).wf(),
        ensures
            final(self).wf(),
            found <==> old(self)@.contains_key(id@),
            final(self)@ == old(self)@.remove(id@),
    {
        proof {
            lemma_seq_views(self.entries@);
            lemma_entries_map_membership(seq_views(self.entries@));
        }
        let ghost s0 = seq_views(self.entries@);
        match self.find_index(id) {
            Some(i) => {
                let ghost entries0 = self.entries@;
                self.entries.remove(i);
                proof {
                    lemma_seq_views(entries0);
                    lemma_seq_views(entries0.remove(i as int));
                    assert(seq_views(self.entries@) =~= s0.remove(i as int));
                    lemma_entries_map_remove(s0, i as int);
                    assert(final(self)@ =~= old(self)@.remove(id@));
                    assert forall|a: int, b: int|
                        0 <= a < b < seq_views(self.entries@).len() implies (#[trigger] seq_views(
                        self.entries@,
                    )[a]).0 != (#[trigger] seq_views(self.entries@)[b]).0 by {
                        assert(seq_views(self.entries@)[a] == s0[if a < i { a } else { a + 1 }]);
                        assert(seq_views(self.entries@)[b] == s0[if b < i { b } else { b + 1 }]);
                    }
                }
                true
            },
            None => {
                proof {
                    assert(final(self)@ =~= old(self)@.remove(id@));
                }
                false
            },
        }
    }

    /// Sets the readiness flag of a stored resource: the model of the
    /// store-side workload controller reporting status. Returns whether
    /// the identity was present.
    pub fn set_ready(&mut self, id: &ResourceIdentity, ready: bool) -> (found: bool)
        requires
            old(self).wf(),
        ensures
            final(self).wf(),
            found <==> old(self)@.contains_key(id@),
            found ==> final(self)@ == old(self)@.insert(
                id@,
                StoredResourceView {
                    labels: old(self)@[id@].labels,
                    payload: old(self)@[id@].payload,
                    ready: ready,
                },
            ),
            !found ==> final(self)@ == old(self)@,
    {
        proof {
            lemma_seq_views(self.entries@);
            lemma_entries_map_membership(seq_views(self.entries@));
        }
        let ghost s0 = seq_views(self.entries@);
        match self.find_index(id) {
            Some(i) => {
                proof {
                    lemma_entries_map_value(s0, i as int);
                }
                let ghost entries0 = self.entries@;
                let (new_id, old_stored) = self.entries.remove(i);
                proof {
                    lemma_seq_views(entries0);
                    lemma_seq_views(entries0.remove(i as int));
                    assert(seq_views(self.entries@) =~= s0.remove(i as int));
                    lemma_entries_map_remove(s0, i as int);
                }
                let ghost entries1 = self.entries@;
                let stored = StoredResource {
                    labels: old_stored.labels,
                    payload: old_stored.payload,
                    ready,
                };
                self.entries.push((new_id, stored));
                proof {
                    lemma_seq_views_push(entries1, (new_id, stored));
                    lemma_entries_map_push(s0.remove(i as int), (new_id@, stored@));
                    assert(final(self)@ =~= old(self)@.insert(
                        id@,
                        StoredResourceView {
                            labels: old(self)@[id@].labels,
                            payload: old(self)@[id@].payload,
                            ready: ready,
                        },
                    ));
                    assert forall|a: int, b: int|
                        0 <= a < b < seq_views(self.entries@).len() implies (#[trigger] seq_views(
                        self.entries@,
                    )[a]).0 != (#[trigger] seq_views(self.entries@)[b]).0 by {
                        assert(seq_views(self.entries@) =~= s0.remove(i as int).push(
                            (new_id@, stored@),
                        ));
                        lemma_entries_map_membership(s0.remove(i as int));
                        if b == seq_views(self.entries@).len() - 1 {
                            assert(s0.remove(i as int)[a] == s0[if a < i { a } else { a + 1 }]);
                        }
                    }
                }
                true
            },
            None => false,
        }
    }

    /// Whether every workload this marker owns reports ready. Vacuously
    /// true when the store holds none.
    #[verifier::loop_isolation(false)]
    pub fn all_owned_statefulsets_ready(&self, marker: &OwnershipMarker) -> (r: bool)
        requires
            self.wf(),
        ensures
            r == spec_all_statefulsets_ready(self@, marker@),
    {
        proof {
            lemma_seq_views(self.entries@);
            lemma_entries_map_membership(seq_views(self.entries@));
        }
        let ghost s0 = seq_views(self.entries@);
        let mut i: usize = 0;
        while i < self.entries.len()
            invariant
                i <= self.entries@.len(),
                forall|k: int|
                    0 <= k < i ==> {
                        let e = #[trigger] s0[k];
                        spec_marker_matches(e.1.labels, marker@) && e.0.kind
                            == crate::resources::ResourceKind::StatefulSet ==> e.1.ready
                    },
            decreases self.entries@.len() - i,
        {
            let entry = &self.entries[i];
            let is_sts = match entry.0.kind {
                crate::resources::ResourceKind::StatefulSet => true,
                _ => false,
            };
            if is_sts && marker.matches(&entry.1.labels) && !entry.1.ready {
                proof {
                    lemma_entries_map_value(s0, i as int);
                    assert(!spec_all_statefulsets_ready(self@, marker@));
                }
                return false;
            }
            i = i + 1;
        }
        proof {
            assert forall|id: ResourceIdentityView|
                self@.contains_key(id) && spec_marker_matches(
                    #[trigger] self@[id].labels,
                    marker@,
                ) && id.kind == crate::resources::ResourceKind::StatefulSet implies self@[id].ready by {
                let k = choose|k: int| 0 <= k < s0.len() && (#[trigger] s0[k]).0 == id;
                lemma_entries_map_value(s0, k);
            }
        }
        true
    }

    /// The identities of every resource bearing the given ownership
    /// marker: each exactly once, and nothing else.
    #[verifier::loop_isolation(false)]
    pub fn list_owned(&self, marker: &OwnershipMarker) -> (r: Vec<ResourceIdentity>)
        requires
            self.wf(),
        ensures
            forall|j: int|
                0 <= j < r@.len() ==> self@.contains_key(#[trigger] r@[j]@) && spec_marker_matches(
                    self@[r@[j]@].labels,
                    marker@,
                ),
            forall|id: ResourceIdentityView|
                self@.contains_key(id) && spec_marker_matches(#[trigger] self@[id].labels, marker@)
                    ==> seq_views(r@).contains(id),
            forall|a: int, b: int| 0 <= a < b < r@.len() ==> r@[a]@ != r@[b]@,
    {
        proof {
            lemma_seq_views(self.entries@);
            lemma_entries_map_membership(seq_views(self.entries@));
        }
        let ghost s0 = seq_views(self.entries@);
        let mut r: Vec<ResourceIdentity> = Vec::new();
        let mut i: usize = 0;
        while i < self.entries.len()
            invariant
                i <= self.entries@.len(),
                forall|j: int|
                    0 <= j < r@.len() ==> exists|k: int|
                        0 <= k < i && (#[trigger] r@[j]@) == s0[k].0 && spec_marker_matches(
                            s0[k].1.labels,
                            marker@,
                        ),
                forall|k: int|
                    0 <= k < i && spec_marker_matches((#[trigger] s0[k]).1.labels, marker@)
                        ==> seq_views(r@).contains(s0[k].0),
                forall|a: int, b: int| 0 <= a < b < r@.len() ==> r@[a]@ != r@[b]@,
            decreases self.entries@.len() - i,
        {
            let entry = &self.entries[i];
            if marker.matches(&entry.1.labels) {
                let ghost r0 = r@;
                proof {
                    lemma_seq_views(r@);
                    assert forall|j: int| 0 <= j < r@.len() implies r@[j]@ != s0[i as int].0 by {
                        let k = choose|k: int|
                            0 <= k < i && (#[trigger] r@[j]@) == s0[k].0 && spec_marker_matches(
                                s0[k].1.labels,
                                marker@,
                            );
                        assert(s0[k].0 != s0[i as int].0);
                    }
                }
                let dup = entry.0.duplicate();
                r.push(dup);
                proof {
                    lemma_seq_views_push(r0, dup);
                    lemma_seq_views(r@);
                    assert(r@[r0.len() as int]@ == s0[i as int].0);
                    assert forall|k: int|
                        0 <= k < i + 1 && spec_marker_matches(
                            (#[trigger] s0[k]).1.labels,
                            marker@,
                        ) implies seq_views(r@).contains(s0[k].0) by {
                        if k < i {
                            assert(seq_views(r0).contains(s0[k].0));
                            let j = choose|j: int|
                                0 <= j < seq_views(r0).len() && seq_views(r0)[j] == s0[k].0;
                            assert(seq_views(r@)[j] == s0[k].0);
                        } else {
                            assert(seq_views(r@)[r0.len() as int] == s0[k].0);
                        }
                    }
                }
            }
            i = i + 1;
        }
        proof {
            lemma_seq_views(r@);
            assert forall|j: int| 0 <= j < r@.len() implies self@.contains_key(
                #[trigger] r@[j]@,
            ) && spec_marker_matches(self@[r@[j]@].labels, marker@) by {
                let k = choose|k: int|
                    0 <= k < s0.len() && (#[trigger] r@[j]@) == s0[k].0 && spec_marker_matches(
                        s0[k].1.labels,
                        marker@,
                    );
                lemma_entries_map_value(s0, k);
            }
            assert forall|id: ResourceIdentityView|
                self@.contains_key(id) && spec_marker_matches(
                    #[trigger] self@[id].labels,
                    marker@,
                ) implies seq_views(r@).contains(id) by {
                let k = choose|k: int| 0 <= k < s0.len() && (#[trigger] s0[k]).0 == id;
                lemma_entries_map_value(s0, k);
            }
        }
        r
    }
}

/// Whether every workload the marker owns in the store reports ready.
pub open spec fn spec_all_statefulsets_ready(
    m: Map<ResourceIdentityView, StoredResourceView>,
    marker: OwnershipMarkerView,
) -> bool {
    forall|id: ResourceIdentityView|
        #![auto]
        m.contains_key(id) && spec_marker_matches(m[id].labels, marker) && id.kind
            == crate::resources::ResourceKind::StatefulSet ==> m[id].ready
}

/// Sequential application of a resource list, first to last.
pub open spec fn spec_apply_seq(
    m: Map<ResourceIdentityView, StoredResourceView>,
    rs: Seq<ResourceView>,
) -> Map<ResourceIdentityView, StoredResourceView>
    decreases rs.len(),
{
    if rs.len() == 0 {
        m
    } else {
        spec_apply_resource(spec_apply_seq(m, rs.drop_last()), rs.last())
    }
}

/// Pruning at the view level: of the resources bearing the marker, those
/// whose identity was not applied in this reconcile are deleted; every
/// other resource is untouched.
pub open spec fn spec_prune(
    m: Map<ResourceIdentityView, StoredResourceView>,
    marker: OwnershipMarkerView,
    applied: Seq<ResourceIdentityView>,
) -> Map<ResourceIdentityView, StoredResourceView> {
    Map::new(
        |id: ResourceIdentityView|
            m.dom().contains(id) && !(spec_marker_matches(m[id].labels, marker)
                && !applied.contains(id)),
        |id: ResourceIdentityView| m[id],
    )
}

/// The store after `i` steps of the deletion pass over `owned`.
pub open spec fn spec_prune_upto(
    m: Map<ResourceIdentityView, StoredResourceView>,
    owned: Seq<ResourceIdentityView>,
    applied: Seq<ResourceIdentityView>,
    i: int,
) -> Map<ResourceIdentityView, StoredResourceView>
    decreases i,
{
    if i <= 0 {
        m
    } else {
        let prev = spec_prune_upto(m, owned, applied, i - 1);
        if applied.contains(owned[i - 1]) {
            prev
        } else {
            prev.remove(owned[i - 1])
        }
    }
}

/// Whether the first `i` deletion steps over `owned` delete `id`.
pub open spec fn spec_deleted_upto(
    owned: Seq<ResourceIdentityView>,
    applied: Seq<ResourceIdentityView>,
    i: int,
    id: ResourceIdentityView,
) -> bool
    decreases i,
{
    if i <= 0 {
        false
    } else {
        (owned[i - 1] == id && !applied.contains(id)) || spec_deleted_upto(
            owned,
            applied,
            i - 1,
            id,
        )
    }
}

/// A deletion step deletes exactly the owned identities that were not
/// applied.
proof fn lemma_deleted_upto(
    owned: Seq<ResourceIdentityView>,
    applied: Seq<ResourceIdentityView>,
    i: int,
    id: ResourceIdentityView,
)
    requires
        0 <= i <= owned.len(),
    ensures
        spec_deleted_upto(owned, applied, i, id) <==> ((exists|j: int|
            0 <= j < i && owned[j] == id) && !applied.contains(id)),
    decreases i,
{
    if i > 0 {
        lemma_deleted_upto(owned, applied, i - 1, id);
        if owned[i - 1] == id {
            assert(exists|j: int| 0 <= j < i && owned[j] == id) by {
                assert(owned[i - 1] == id);
            }
        }
        if exists|j: int| 0 <= j < i && owned[j] == id {
            let j = choose|j: int| 0 <= j < i && owned[j] == id;
            if j < i - 1 {
                assert(exists|k: int| 0 <= k < i - 1 && owned[k] == id);
            }
        }
    }
}

/// After `i` deletion steps, exactly the identities among `owned[..i]`
/// that were not applied are gone; everything else is untouched.
proof fn lemma_prune_upto_char(
    m: Map<ResourceIdentityView, StoredResourceView>,
    owned: Seq<ResourceIdentityView>,
    applied: Seq<ResourceIdentityView>,
    i: int,
)
    requires
        0 <= i <= owned.len(),
    ensures
        forall|id: ResourceIdentityView|
            #[trigger] spec_prune_upto(m, owned, applied, i).contains_key(id) <==> (
            m.contains_key(id) && !spec_deleted_upto(owned, applied, i, id)),
        forall|id: ResourceIdentityView|
            #[trigger] spec_prune_upto(m, owned, applied, i).contains_key(id) ==> spec_prune_upto(
                m,
                owned,
                applied,
                i,
            )[id] == m[id],
    decreases i,
{
    if i > 0 {
        lemma_prune_upto_char(m, owned, applied, i - 1);
        assert forall|id: ResourceIdentityView|
            #[trigger] spec_prune_upto(m, owned, applied, i).contains_key(id) <==> (
        m.contains_key(id) && !spec_deleted_upto(owned, applied, i, id)) by {
            assert(spec_prune_upto(m, owned, applied, i - 1).contains_key(id) <==> (
            m.contains_key(id) && !spec_deleted_upto(owned, applied, i - 1, id)));
        }
        assert forall|id: ResourceIdentityView|
            #[trigger] spec_prune_upto(m, owned, applied, i).contains_key(
                id,
            ) implies spec_prune_upto(m, owned, applied, i)[id] == m[id] by {
            assert(spec_prune_upto(m, owned, applied, i - 1).contains_key(id) ==> spec_prune_upto(
                m,
                owned,
                applied,
                i - 1,
            )[id] == m[id]);
            assert(spec_prune_upto(m, owned, applied, i - 1).contains_key(id) <==> (
            m.contains_key(id) && !spec_deleted_upto(owned, applied, i - 1, id)));
        }
    }
}

/// What a sequence of applies leaves in the store: every resource of the
/// list is present under its identity with its labels and payload, its
/// readiness taken over from the store it replaced; identities not in the
/// list are untouched.
pub proof fn lemma_apply_seq_char(
    m: Map<ResourceIdentityView, StoredResourceView>,
    rs: Seq<ResourceView>,
)
    requires
        spec_unique_identities(rs),
    ensures
        forall|id: ResourceIdentityView|
            !spec_identities(rs).contains(id) ==> (#[trigger] spec_apply_seq(m, rs).contains_key(
                id,
            ) <==> m.contains_key(id)),
        forall|id: ResourceIdentityView|
            !spec_identities(rs).contains(id) && m.contains_key(id) ==> #[trigger] spec_apply_seq(
                m,
                rs,
            )[id] == m[id],
        forall|i: int|
            0 <= i < rs.len() ==> spec_apply_seq(m, rs).contains_key(
                spec_identity(#[trigger] rs[i]),
            ),
        forall|i: int|
            0 <= i < rs.len() ==> spec_apply_seq(m, rs)[spec_identity(#[trigger] rs[i])] == (
            StoredResourceView {
                labels: rs[i].labels,
                payload: rs[i].payload,
                ready: spec_ready_after(m, spec_identity(rs[i])),
            }),
    decreases rs.len(),
{
    if rs.len() > 0 {
        let prefix = rs.drop_last();
        let last = rs.last();
        let last_id = spec_identity(last);
        lemma_apply_seq_char(m, prefix);
        assert forall|id: ResourceIdentityView|
            spec_identities(prefix).contains(id) implies spec_identities(rs).contains(id) by {
            let i = choose|i: int|
                0 <= i < prefix.len() && #[trigger] spec_identities(prefix)[i] == id;
            assert(spec_identities(rs)[i] == spec_identity(rs[i]));
        }
        assert(!spec_identities(prefix).contains(last_id)) by {
            if spec_identities(prefix).contains(last_id) {
                let i = choose|i: int|
                    0 <= i < prefix.len() && #[trigger] spec_identities(prefix)[i] == last_id;
                assert(spec_identity(rs[i]) == spec_identity(rs[rs.len() - 1]));
            }
        }
        assert(spec_ready_after(spec_apply_seq(m, prefix), last_id) == spec_ready_after(
            m,
            last_id,
        ));
        assert forall|id: ResourceIdentityView|
            !spec_identities(rs).contains(id) implies !spec_identities(prefix).contains(id) && id
            != last_id by {
            assert(spec_identities(rs)[rs.len() - 1] == last_id);
        }
        assert forall|i: int|
            0 <= i < rs.len() implies spec_apply_seq(m, rs).contains_key(
            spec_identity(#[trigger] rs[i]),
        ) && spec_apply_seq(m, rs)[spec_identity(rs[i])] == (StoredResourceView {
            labels: rs[i].labels,
            payload: rs[i].payload,
            ready: spec_ready_after(m, spec_identity(rs[i])),
        }) by {
            if i < rs.len() - 1 {
                assert(prefix[i] == rs[i]);
                assert(spec_identity(rs[i]) != last_id);
            }
        }
    }
}

/// Idempotent apply: applying the same desired set twice in a row leaves
/// the same store state as applying it once. No duplicate resources
/// arise, and nothing in the store changes on the second pass.
pub proof fn lemma_apply_idempotent(
    m: Map<ResourceIdentityView, StoredResourceView>,
    rs: Seq<ResourceView>,
)
    requires
        spec_unique_identities(rs),
    ensures
        spec_apply_seq(spec_apply_seq(m, rs), rs) == spec_apply_seq(m, rs),
{
    let m1 = spec_apply_seq(m, rs);
    let m2 = spec_apply_seq(m1, rs);
    lemma_apply_seq_char(m, rs);
    lemma_apply_seq_char(m1, rs);
    assert forall|id: ResourceIdentityView| #![auto] m2.contains_key(id) <==> m1.contains_key(
        id,
    ) by {
        if spec_identities(rs).contains(id) {
            let i = choose|i: int| 0 <= i < rs.len() && #[trigger] spec_identities(rs)[i] == id;
            assert(id == spec_identity(rs[i]));
        }
    }
    assert forall|id: ResourceIdentityView| #![auto]
        m2.contains_key(id) implies m2[id] == m1[id] by {
        if spec_identities(rs).contains(id) {
            let i = choose|i: int| 0 <= i < rs.len() && #[trigger] spec_identities(rs)[i] == id;
            assert(id == spec_identity(rs[i]));
            assert(m1[id].ready == spec_ready_after(m, id));
            assert(spec_ready_after(m1, id) == spec_ready_after(m, id));
        }
    }
    assert(m2 =~= m1);
}

/// Orphan isolation: pruning with one cluster's ownership marker never
/// deletes or alters a resource whose labels carry a different marker,
/// whatever naming collisions exist; and pruning never adds or rewrites
/// anything.
pub proof fn lemma_prune_isolation(
    m: Map<ResourceIdentityView, StoredResourceView>,
    marker: OwnershipMarkerView,
    applied: Seq<ResourceIdentityView>,
)
    ensures
        forall|id: ResourceIdentityView|
            #![auto]
            m.contains_key(id) && !spec_marker_matches(m[id].labels, marker) ==> spec_prune(
                m,
                marker,
                applied,
            ).contains_key(id) && spec_prune(m, marker, applied)[id] == m[id],
        forall|id: ResourceIdentityView|
            #![auto]
            spec_prune(m, marker, applied).contains_key(id) ==> m.contains_key(id) && spec_prune(
                m,
                marker,
                applied,
            )[id] == m[id],
{
}

/// Convergence after partial failure: when a reconcile stops after
/// applying only the first `k` resources, those `k` are in the store with
/// their desired labels and payload; and a later full apply leaves
/// exactly the store a full apply would have produced in one pass, the
/// already-applied resources being updated in place, not recreated.
pub proof fn lemma_convergence_after_partial_failure(
    m: Map<ResourceIdentityView, StoredResourceView>,
    rs: Seq<ResourceView>,
    k: int,
)
    requires
        spec_unique_identities(rs),
        0 <= k <= rs.len(),
    ensures
        forall|i: int|
            0 <= i < k ==> spec_apply_seq(m, rs.take(k)).contains_key(
                spec_identity(#[trigger] rs[i]),
            ) && spec_apply_seq(m, rs.take(k))[spec_identity(rs[i])].labels == rs[i].labels
                && spec_apply_seq(m, rs.take(k))[spec_identity(rs[i])].payload == rs[i].payload,
        spec_apply_seq(spec_apply_seq(m, rs.take(k)), rs) == spec_apply_seq(m, rs),
{
    let part = rs.take(k);
    assert(spec_unique_identities(part)) by {
        assert forall|i: int, j: int|
            0 <= i < j < part.len() implies spec_identity(#[trigger] part[i]) != spec_identity(
            #[trigger] part[j],
        ) by {
            assert(part[i] == rs[i] && part[j] == rs[j]);
        }
    }
    let mk = spec_apply_seq(m, part);
    lemma_apply_seq_char(m, part);
    lemma_apply_seq_char(m, rs);
    lemma_apply_seq_char(mk, rs);
    assert forall|i: int|
        0 <= i < k implies mk.contains_key(spec_identity(#[trigger] rs[i]))
        && mk[spec_identity(rs[i])].labels == rs[i].labels && mk[spec_identity(rs[i])].payload
        == rs[i].payload by {
        assert(part[i] == rs[i]);
    }
    assert forall|id: ResourceIdentityView| #![auto]
        spec_apply_seq(mk, rs).contains_key(id) <==> spec_apply_seq(m, rs).contains_key(id) by {
        if spec_identities(rs).contains(id) {
            let i = choose|i: int| 0 <= i < rs.len() && #[trigger] spec_identities(rs)[i] == id;
            assert(id == spec_identity(rs[i]));
        } else {
            assert(!spec_identities(part).contains(id)) by {
                if spec_identities(part).contains(id) {
                    let i = choose|i: int|
                        0 <= i < part.len() && #[trigger] spec_identities(part)[i] == id;
                    assert(part[i] == rs[i]);
                    assert(spec_identities(rs)[i] == spec_identity(rs[i]));
                }
            }
        }
    }
    assert forall|id: ResourceIdentityView| #![auto]
        spec_apply_seq(mk, rs).contains_key(id) implies spec_apply_seq(mk, rs)[id]
        == spec_apply_seq(m, rs)[id] by {
        if spec_identities(rs).contains(id) {
            let i = choose|i: int| 0 <= i < rs.len() && #[trigger] spec_identities(rs)[i] == id;
            assert(id == spec_identity(rs[i]));
            if i < k {
                assert(part[i] == rs[i]);
                assert(mk.contains_key(id));
                assert(mk[id].ready == spec_ready_after(m, id));
            } else {
                assert(!spec_identities(part).contains(id)) by {
                    if spec_identities(part).contains(id) {
                        let j = choose|j: int|
                            0 <= j < part.len() && #[trigger] spec_identities(part)[j] == id;
                        assert(part[j] == rs[j]);
                        assert(spec_identity(rs[j]) != spec_identity(rs[i]));
                    }
                }
                assert(spec_ready_after(mk, id) == spec_ready_after(m, id));
            }
        } else {
            assert(!spec_identities(part).contains(id)) by {
                if spec_identities(part).contains(id) {
                    let i = choose|i: int|
                        0 <= i < part.len() && #[trigger] spec_identities(part)[i] == id;
                    assert(part[i] == rs[i]);
                    assert(spec_identities(rs)[i] == spec_identity(rs[i]));
                }
            }
        }
    }
    assert(spec_apply_seq(mk, rs) =~= spec_apply_seq(m, rs));
}

/// A tracker for one reconcile of one cluster: stamps its ownership
/// marker, accumulates every identity it applied, and at the end deletes
/// the cluster's orphans.
pub struct ResourceTracker {
    marker: OwnershipMarker,
    applied: Vec<ResourceIdentity>,
}

pub struct ResourceTrackerView {
    pub marker: OwnershipMarkerView,
    pub applied: Seq<ResourceIdentityView>,
}

impl View for ResourceTracker {
    type V = ResourceTrackerView;

    closed spec fn view(&self) -> ResourceTrackerView {
        ResourceTrackerView { marker: self.marker@, applied: seq_views(self.applied@) }
    }
}

impl ResourceTracker {
    /// A tracker that has applied nothing yet.
    pub fn new(marker: OwnershipMarker) -> (r: ResourceTracker)
        ensures
            r@.marker == marker@,
            r@.applied =~= Seq::<ResourceIdentityView>::empty(),
    {
        ResourceTracker { marker, applied: Vec::new() }
    }

    /// The marker this tracker stamps.
    pub fn marker(&self) -> (r: &OwnershipMarker)
        ensures
            r@ == self@.marker,
    {
        &self.marker
    }

    /// Applies one resource: create-or-update under its identity, and
    /// record the identity as applied. The resource must carry this
    /// tracker's ownership marker, else pruning could not find it again.
    pub fn add(&mut self, store: &mut Store, resource: Resource) -> (outcome: AppliedOutcome)
        requires
            old(store).wf(),
            spec_marker_matches(resource@.labels, old(self)@.marker),
        ensures
            final(store).wf(),
            final(store)@ == spec_apply_resource(old(store)@, resource@),
            final(self)@.marker == old(self)@.marker,
            final(self)@.applied == old(self)@.applied.push(spec_identity(resource@)),
            outcome == AppliedOutcome::Created <==> !old(store)@.contains_key(
                spec_identity(resource@),
            ),
    {
        let id = resource.identity();
        let recorded = id.duplicate();
        let Resource { name: _, namespace: _, labels, payload } = resource;
        let outcome = store.create_or_update(id, labels, payload);
        let ghost applied0 = self.applied@;
        self.applied.push(recorded);
        proof {
            lemma_seq_views_push(applied0, recorded);
        }
        outcome
    }

    /// Applies a whole desired resource set in order, accumulating every
    /// identity. Fail-fast abort is the caller's business: the store is a
    /// value here, so every apply succeeds.
    pub fn apply_all(&mut self, store: &mut Store, set: crate::resources::DesiredResourceSet)
        requires
            old(store).wf(),
            set.wf(),
            forall|i: int|
                0 <= i < set@.len() ==> spec_marker_matches(
                    (#[trigger] set@[i]).labels,
                    old(self)@.marker,
                ),
        ensures
            final(store).wf(),
            final(store)@ == spec_apply_seq(old(store)@, set@),
            final(self)@.marker == old(self)@.marker,
            final(self)@.applied == old(self)@.applied + spec_identities(set@),
    {
        let ghost set0 = set@;
        let ghost m0 = store@;
        let ghost applied0 = self@.applied;
        let mut set = set;
        let ghost done: Seq<ResourceView> = Seq::empty();
        let mut done = Ghost(done);
        proof {
            assert(spec_identities(done@) =~= Seq::<ResourceIdentityView>::empty());
            assert(applied0 + spec_identities(done@) =~= applied0);
        }
        loop
            invariant
                store.wf(),
                set.wf(),
                set0 =~= done@ + set@,
                store@ == spec_apply_seq(m0, done@),
                self@.marker == old(self)@.marker,
                self@.applied == applied0 + spec_identities(done@),
                forall|i: int|
                    0 <= i < set0.len() ==> spec_marker_matches(
                        (#[trigger] set0[i]).labels,
                        old(self)@.marker,
                    ),
            ensures
                store.wf(),
                store@ == spec_apply_seq(m0, set0),
                self@.marker == old(self)@.marker,
                self@.applied == applied0 + spec_identities(set0),
            decreases set@.len(),
        {
            let ghost before = set@;
            match set.take_first() {
                None => {
                    proof {
                        assert(done@ =~= set0);
                    }
                    break ;
                },
                Some(res) => {
                    proof {
                        assert(set0[done@.len() as int] == res@);
                    }
                    self.add(store, res);
                    proof {
                        let done2 = done@.push(res@);
                        assert(done2.drop_last() =~= done@);
                        assert(set0 =~= done2 + set@);
                        assert(spec_identities(done2) =~= spec_identities(done@).push(
                            spec_identity(res@),
                        ));
                        assert(applied0 + spec_identities(done2) =~= (applied0 + spec_identities(
                            done@,
                        )).push(spec_identity(res@)));
                    }
                    proof {
                        done@ = done@.push(res@);
                    }
                },
            }
        }
    }

    /// Lists everything in the store bearing this tracker's marker and
    /// deletes what was not applied during this reconcile. Must only run
    /// after all applies of the reconcile.
    #[verifier::loop_isolation(false)]
    pub fn delete_orphaned_resources(&self, store: &mut Store)
        requires
            old(store).wf(),
        ensures
            final(store).wf(),
            final(store)@ == spec_prune(old(store)@, self@.marker, self@.applied),
    {
        let ghost m0 = store@;
        let owned = store.list_owned(&self.marker);
        let ghost owned_v = seq_views(owned@);
        proof {
            lemma_seq_views(owned@);
        }
        let mut i: usize = 0;
        while i < owned.len()
            invariant
                i <= owned@.len(),
                store.wf(),
                store@ == spec_prune_upto(m0, owned_v, self@.applied, i as int),
            decreases owned@.len() - i,
        {
            if !self.was_applied(&owned[i]) {
                store.delete(&owned[i]);
            }
            proof {
                assert(store@ == spec_prune_upto(m0, owned_v, self@.applied, i as int + 1));
            }
            i = i + 1;
        }
        proof {
            lemma_prune_upto_char(m0, owned_v, self@.applied, owned_v.len() as int);
            assert forall|id: ResourceIdentityView|
                #![auto]
                spec_prune_upto(m0, owned_v, self@.applied, owned_v.len() as int).contains_key(id)
                    <==> spec_prune(m0, self@.marker, self@.applied).contains_key(id) by {
                lemma_deleted_upto(owned_v, self@.applied, owned_v.len() as int, id);
                if m0.contains_key(id) && spec_marker_matches(m0[id].labels, self@.marker) {
                    assert(owned_v.contains(id));
                }
                if exists|j: int| 0 <= j < owned_v.len() && owned_v[j] == id {
                    let j = choose|j: int| 0 <= j < owned_v.len() && owned_v[j] == id;
                    assert(owned@[j]@ == id);
                    assert(m0.contains_key(id) && spec_marker_matches(m0[id].labels, self@.marker));
                }
            }
            assert(spec_prune_upto(m0, owned_v, self@.applied, owned_v.len() as int)
                =~= spec_prune(m0, self@.marker, self@.applied));
        }
    }

    /// Whether this tracker applied the given identity in this reconcile.
    #[verifier::loop_isolation(false)]
    fn was_applied(&self, id: &ResourceIdentity) -> (r: bool)
        ensures
            r == self@.applied.contains(id@),
    {
        proof {
            lemma_seq_views(self.applied@);
        }
        let mut i: usize = 0;
        while i < self.applied.len()
            invariant
                i <= self.applied@.len(),
                forall|j: int| 0 <= j < i ==> seq_views(self.applied@)[j] != id@,
            decreases self.applied@.len() - i,
        {
            if self.applied[i].same_as(id) {
                proof {
                    assert(seq_views(self.applied@)[i as int] == id@);
                }
                return true;
            }
            i = i + 1;
        }
        false
    }
}

} // verus!
