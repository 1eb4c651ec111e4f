//! Maps keyed by endpoint identifiers, walked in ascending order.
use vstd::prelude::*;
use crate::id::EndpointId;

verus! {

/// A map from endpoint identifiers to values, kept in ascending order.
#[derive(Debug)]
pub struct IdMap<V> {
    entries: Vec<(EndpointId, V)>,
}

impl<V> View for IdMap<V> {
    type V = Map<EndpointId, V>;

    closed spec fn view(&self) -> Map<EndpointId, V> {
        Map::new(
            |id: EndpointId| self.keys().contains(id),
            |id: EndpointId| self.entries@[self.keys().index_of(id)].1,
        )
    }
}

impl<V> IdMap<V> {
    /// The keys in the order in which the map is walked.
    pub closed spec fn keys(&self) -> Seq<EndpointId> {
        Seq::new(self.entries@.len(), |i: int| self.entries@[i].0)
    }

    /// The keys grow from left to right.
    pub open spec fn wf(&self) -> bool {
        crate::id::ascending(self.keys())
    }

    /// The keys of the map are its domain, in ascending order.
    pub proof fn lemma_keys(&self)
        requires
            self.wf(),
        ensures
            self.keys() == crate::id::listed(self@.dom()),
            self.keys().to_set() == self@.dom(),
            self@.dom().finite(),
            self@.dom().len() == self.keys().len(),
            forall|i: int| 0 <= i < self.keys().len() ==> self@.contains_key(#[trigger] self.keys()[i]),
            forall|i: int, j: int|
                0 <= i < self.keys().len() && 0 <= j < self.keys().len() && #[trigger] self.keys()[i]
                    == #[trigger] self.keys()[j] ==> i == j,
    {
        assert(self.keys().to_set() =~= self@.dom());
        crate::id::lemma_listed(self.keys());
        assert forall|i: int, j: int|
            0 <= i < self.keys().len() && 0 <= j < self.keys().len() && #[trigger] self.keys()[i]
                == #[trigger] self.keys()[j] implies i == j by {
            crate::id::lemma_precedes_irreflexive(self.keys()[i]);
        }
        assert(self.keys().no_duplicates());
        self.keys().unique_seq_to_set();
    }

    proof fn lemma_entry(&self, i: int)
        requires
            self.wf(),
            0 <= i < self.entries@.len(),
        ensures
            self@.contains_key(self.entries@[i].0),
            self@[self.entries@[i].0] == self.entries@[i].1,
    {
        self.lemma_keys();
        assert(self.keys()[i] == self.entries@[i].0);
        let j = self.keys().index_of(self.entries@[i].0);
        assert(self.keys()[j] == self.keys()[i]);
    }

    /// The empty map.
    pub fn new() -> (r: Self)
        ensures
            r.wf(),
            r@ == Map::<EndpointId, V>::empty(),
    {
        let r = IdMap { entries: Vec::new() };
        assert(r@ =~= Map::<EndpointId, V>::empty());
        r
    }

    /// The number of entries.
    pub fn len(&self) -> (r: usize)
        ensures
            r == self.keys().len(),
    {
        self.entries.len()
    }

    /// The key at position `i` of the walk.
    pub fn key_at(&self, i: usize) -> (r: EndpointId)
        requires
            i < self.keys().len(),
        ensures
            r == self.keys()[i as int],
    {
        self.entries[i].0
    }

    /// The value at position `i` of the walk.
    pub fn value_at(&self, i: usize) -> (r: &V)
        requires
            self.wf(),
            i < self.keys().len(),
        ensures
            *r == self@[self.keys()[i as int]],
    {
        proof {
            self.lemma_entry(i as int);
        }
        &self.entries[i].1
    }

    /// The number of keys before `id`.
    fn rank(&self, id: &EndpointId) -> (r: usize)
        requires
            self.wf(),
        ensures
            r <= self.entries@.len(),
            forall|j: int| 0 <= j < r ==> (#[trigger] self.keys()[j]).precedes(*id),
            forall|j: int|
                r <= j < self.entries@.len() ==> #[trigger] self.keys()[j] == *id || id.precedes(
                    self.keys()[j],
                ),
    {
        let mut i: usize = 0;
        while i < self.entries.len() && self.entries[i].0.is_before(id)
            invariant
                i <= self.entries@.len(),
                forall|j: int| 0 <= j < i ==> (#[trigger] self.keys()[j]).precedes(*id),
            decreases self.entries@.len() - i,
        {
            i = i + 1;
        }
        proof {
            if i < self.entries@.len() {
                let k = self.keys()[i as int];
                crate::id::lemma_precedes_total(k, *id);
                assert forall|j: int| i <= j < self.entries@.len() implies #[trigger] self.keys()[j] == *id
                    || id.precedes(self.keys()[j]) by {
                    if j > i {
                        assert(k.precedes(self.keys()[j]));
                        if id.precedes(k) {
                            crate::id::lemma_precedes_transitive(*id, k, self.keys()[j]);
                        }
                    }
                }
            }
        }
        i
    }

    proof fn lemma_absent(&self, id: EndpointId, r: int)
        requires
            self.wf(),
            0 <= r <= self.entries@.len(),
            forall|j: int| 0 <= j < r ==> (#[trigger] self.keys()[j]).precedes(id),
            forall|j: int|
                r <= j < self.entries@.len() ==> #[trigger] self.keys()[j] == id || id.precedes(
                    self.keys()[j],
                ),
        ensures
            self@.contains_key(id) <==> r < self.entries@.len() && self.entries@[r].0 == id,
    {
        if r < self.entries@.len() && self.entries@[r].0 == id {
            self.lemma_entry(r);
        }
        if self@.contains_key(id) {
            let j = self.keys().index_of(id);
            assert(self.keys()[j] == id);
            crate::id::lemma_precedes_irreflexive(id);
            assert(j >= r);
            if j > r {
                assert(self.keys()[r].precedes(self.keys()[j]));
                if id.precedes(self.keys()[r]) {
                    crate::id::lemma_precedes_asymmetric(id, self.keys()[r]);
                }
            }
        }
    }

    /// The value stored for `id`.
    pub fn get(&self, id: &EndpointId) -> (r: Option<&V>)
        requires
            self.wf(),
        ensures
            self@.contains_key(*id) <==> r is Some,
            r matches Some(v) ==> *v == self@[*id],
    {
        let i = self.rank(id);
        proof {
            self.lemma_absent(*id, i as int);
        }
        if i < self.entries.len() && self.entries[i].0 == *id {
            proof {
                self.lemma_entry(i as int);
            }
            Some(&self.entries[i].1)
        } else {
            None
        }
    }

    /// Stores `value` for `id`, in place of what was there.
    pub fn insert(&mut self, id: EndpointId, value: V)
        requires
            old(self).wf(),
        ensures
            final(self).wf(),
            final(self)@ == old(self)@.insert(id, value),
    {
        let i = self.rank(&id);
        let ghost before = *self;
        proof {
            self.lemma_absent(id, i as int);
        }
        if i < self.entries.len() && self.entries[i].0 == id {
            self.entries[i] = (id, value);
            assert(self.keys() =~= before.keys());
        } else {
            self.entries.insert(i, (id, value));
            assert(self.keys() =~= before.keys().insert(i as int, id));
            assert(crate::id::ascending(self.keys())) by {
                let k = self.keys();
                let b = before.keys();
                assert forall|p: int, q: int| 0 <= p < q < k.len() implies (#[trigger] k[p]).precedes(
                    #[trigger] k[q],
                ) by {
                    if p == i {
                        assert(k[q] == b[q - 1]);
                    } else if q == i {
                        assert(k[p] == b[p]);
                    } else {
                        let p0 = if p < i { p } else { p - 1 };
                        let q0 = if q < i { q } else { q - 1 };
                        assert(b[p0].precedes(b[q0]));
                    }
                }
            }
        }
        proof {
            self.lemma_same_but(before, id, i as int);
            self.lemma_entry(i as int);
        }
        assert(self@ =~= before@.insert(id, value));
    }

    proof fn lemma_same_but(&self, before: Self, id: EndpointId, i: int)
        requires
            self.wf(),
            before.wf(),
            0 <= i < self.entries@.len(),
            self.entries@[i].0 == id,
            i < before.entries@.len() && before.entries@[i].0 == id && self.entries@ == before.entries@.update(
                i,
                self.entries@[i],
            ) || i <= before.entries@.len() && self.entries@ == before.entries@.insert(i, self.entries@[i]),
        ensures
            forall|k: EndpointId| k != id && #[trigger] self@.contains_key(k) ==> before@.contains_key(k),
            forall|k: EndpointId|
                k != id && #[trigger] before@.contains_key(k) ==> self@.contains_key(k) && self@[k] == before@[k],
    {
        assert forall|k: EndpointId| k != id && #[trigger] before@.contains_key(k) implies self@.contains_key(k)
            && self@[k] == before@[k] by {
            let j = before.keys().index_of(k);
            assert(before.keys()[j] == k);
            before.lemma_entry(j);
            let j2 = if self.entries@.len() == before.entries@.len() || j < i {
                j
            } else {
                j + 1
            };
            assert(self.entries@[j2] == before.entries@[j]);
            self.lemma_entry(j2);
        }
        assert forall|k: EndpointId| k != id && #[trigger] self@.contains_key(k) implies before@.contains_key(k) by {
            let j = self.keys().index_of(k);
            assert(self.keys()[j] == k);
            let j0 = if self.entries@.len() == before.entries@.len() || j < i {
                j
            } else {
                j - 1
            };
            assert(before.entries@[j0] == self.entries@[j]);
            before.lemma_entry(j0);
        }
    }

    /// Removes `id` and its value.
    pub fn remove(&mut self, id: &EndpointId)
        requires
            old(self).wf(),
        ensures
            final(self).wf(),
            final(self)@ == old(self)@.remove(*id),
    {
        let i = self.rank(id);
        let ghost before = *self;
        proof {
            self.lemma_absent(*id, i as int);
        }
        if i < self.entries.len() && self.entries[i].0 == *id {
            let removed = self.entries.remove(i);
            proof {
                assert(self.keys() =~= before.keys().remove(i as int));
                assert(crate::id::ascending(self.keys())) by {
                    let k = self.keys();
                    let b = before.keys();
                    assert forall|p: int, q: int| 0 <= p < q < k.len() implies (
                    #[trigger] k[p]).precedes(#[trigger] k[q]) by {
                        let p0 = if p < i { p } else { p + 1 };
                        let q0 = if q < i { q } else { q + 1 };
                        assert(b[p0].precedes(b[q0]));
                    }
                }
                self.lemma_removed(before, *id, i as int);
            }
        }
        assert(self@ =~= before@.remove(*id));
    }

    proof fn lemma_removed(&self, before: Self, id: EndpointId, i: int)
        requires
            self.wf(),
            before.wf(),
            0 <= i < before.entries@.len(),
            before.entries@[i].0 == id,
            self.entries@ == before.entries@.remove(i),
        ensures
            self@ == before@.remove(id),
    {
        before.lemma_keys();
        assert forall|k: EndpointId| before@.remove(id).contains_key(k) implies #[trigger] self@.contains_key(k)
            && self@[k] == before@[k] by {
            let j = before.keys().index_of(k);
            assert(before.keys()[j] == k);
            before.lemma_entry(j);
            let j2 = if j < i { j } else { j - 1 };
            assert(self.entries@[j2] == before.entries@[j]);
            self.lemma_entry(j2);
        }
        assert forall|k: EndpointId| #[trigger] self@.contains_key(k) implies before@.remove(id).contains_key(k) by {
            let j = self.keys().index_of(k);
            assert(self.keys()[j] == k);
            let j0 = if j < i { j } else { j + 1 };
            assert(before.entries@[j0] == self.entries@[j]);
            before.lemma_entry(j0);
            assert(before.keys()[j0] == k);
            assert(before.keys()[i] == id);
        }
        assert(self@ =~= before@.remove(id));
    }
}

} // verus!
