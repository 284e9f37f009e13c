//! A keyed collection of sinks, each held under an identifier that the
//! collection hands out itself.
use vstd::prelude::*;

verus! {

/// Identifier of a registered sink.
pub type SubscriptionId = u64;

/// Registered sinks with their identifiers.
///
/// Identifiers are handed out in increasing order and never handed out twice,
/// so a stale identifier can never reach a sink registered later.
pub struct Subscribers<T> {
    entries: Vec<(SubscriptionId, T)>,
    next_id: SubscriptionId,
    model: Ghost<Map<SubscriptionId, T>>,
}

impl<T> View for Subscribers<T> {
    type V = Map<SubscriptionId, T>;

    closed spec fn view(&self) -> Map<SubscriptionId, T> {
        self.model@
    }
}

/// The identifiers of a sequence of entries, in order.
pub open spec fn ids_of<T>(s: Seq<(SubscriptionId, T)>) -> Seq<SubscriptionId> {
    s.map_values(|e: (SubscriptionId, T)| e.0)
}

impl<T> Subscribers<T> {
    /// The identifier that the next `add` hands out.
    pub closed spec fn next_free(&self) -> SubscriptionId {
        self.next_id
    }

    /// The entries list each sink of the model once, under its identifier.
    pub closed spec fn inv(&self) -> bool {
        &&& ids_of(self.entries@).no_duplicates()
        &&& forall|i: int|
            0 <= i < self.entries@.len() ==> #[trigger] self.model@.contains_key(self.entries@[i].0)
                && self.model@[self.entries@[i].0] == self.entries@[i].1
        &&& forall|id: SubscriptionId| #[trigger]
            self.model@.contains_key(id) ==> ids_of(self.entries@).contains(id)
        &&& forall|id: SubscriptionId| #[trigger]
            self.model@.contains_key(id) ==> id < self.next_id
    }

    /// Well-formedness: the internal invariant, and the facts about the model
    /// that callers rely on.
    pub open spec fn wf(&self) -> bool {
        &&& self.inv()
        &&& self@.dom().finite()
        &&& forall|id: SubscriptionId| #[trigger] self@.contains_key(id) ==> id < self.next_free()
    }

    proof fn lemma_inv_facts(&self)
        requires
            self.inv(),
        ensures
            self.wf(),
            self@.dom() == ids_of(self.entries@).to_set(),
            self@.len() == self.entries@.len(),
    {
        let ids = ids_of(self.entries@);
        assert forall|id: SubscriptionId| ids.to_set().contains(id) implies self@.contains_key(
            id,
        ) by {
            let i = ids.index_of(id);
            assert(self.model@.contains_key(self.entries@[i].0));
        }
        assert(self@.dom() =~= ids.to_set());
        ids.unique_seq_to_set();
        vstd::seq_lib::seq_to_set_is_finite(ids);
    }

    /// An empty collection.
    pub fn new() -> (r: Self)
        ensures
            r.wf(),
            r@ == Map::<SubscriptionId, T>::empty(),
            r.next_free() == 0,
    {
        let r = Subscribers { entries: Vec::new(), next_id: 0, model: Ghost(Map::empty()) };
        proof {
            assert(ids_of(r.entries@) =~= Seq::empty());
            r.lemma_inv_facts();
        }
        r
    }

    /// Registers `sink` and returns its fresh identifier.
    pub fn add(&mut self, sink: T) -> (id: SubscriptionId)
        requires
            old(self).wf(),
            old(self).next_free() < u64::MAX,
        ensures
            final(self).wf(),
            id == old(self).next_free(),
            !old(self)@.contains_key(id),
            final(self)@ == old(self)@.insert(id, sink),
            final(self).next_free() == id + 1,
    {
        let id = self.next_id;
        let ghost old_entries = self.entries@;
        self.entries.push((id, sink));
        self.next_id = id + 1;
        self.model = Ghost(self.model@.insert(id, sink));
        proof {
            assert(ids_of(self.entries@) =~= ids_of(old_entries).push(id));
            assert forall|k: int| 0 <= k < old_entries.len() implies #[trigger] old_entries[k].0
                < id by {
                assert(old(self).model@.contains_key(old_entries[k].0));
            }
            assert forall|k: int| 0 <= k < self.entries@.len() implies #[trigger] self.model@.contains_key(self.entries@[k].0)
                && self.model@[self.entries@[k].0] == self.entries@[k].1 by {
                if k < old_entries.len() {
                    assert(old(self).model@.contains_key(old_entries[k].0));
                }
            }
            assert forall|id2: SubscriptionId| #[trigger]
                self.model@.contains_key(id2) implies ids_of(self.entries@).contains(id2) by {
                if id2 != id {
                    let k = ids_of(old_entries).index_of(id2);
                    assert(ids_of(self.entries@)[k] == id2);
                } else {
                    assert(ids_of(self.entries@)[old_entries.len() as int] == id);
                }
            }
            self.lemma_inv_facts();
        }
        id
    }

    /// Raises the next identifier to hand out to at least `floor`.
    pub fn reserve_below(&mut self, floor: SubscriptionId)
        requires
            old(self).wf(),
        ensures
            final(self).wf(),
            final(self)@ == old(self)@,
            final(self).next_free() == if old(self).next_free() < floor {
                floor
            } else {
                old(self).next_free()
            },
    {
        if self.next_id < floor {
            self.next_id = floor;
        }
        proof {
            self.lemma_inv_facts();
        }
    }

    /// Position in the entries of the sink registered under `id`.
    fn find(&self, id: SubscriptionId) -> (r: Option<usize>)
        requires
            self.wf(),
        ensures
            r is Some <==> self@.contains_key(id),
            r matches Some(i) ==> i < self.entries@.len() && self.entries@[i as int].0 == id,
    {
        let mut i: usize = 0;
        while i < self.entries.len()
            invariant
                self.wf(),
                i <= self.entries@.len(),
                forall|j: int| 0 <= j < i ==> self.entries@[j].0 != id,
            decreases self.entries@.len() - i,
        {
            if self.entries[i].0 == id {
                return Some(i);
            }
            i = i + 1;
        }
        proof {
            if self@.contains_key(id) {
                let k = ids_of(self.entries@).index_of(id);
                assert(self.entries@[k].0 == id);
            }
        }
        None
    }

    /// The sink registered under `id`, if it is still registered.
    pub fn get(&self, id: SubscriptionId) -> (r: Option<&T>)
        requires
            self.wf(),
        ensures
            r is Some <==> self@.contains_key(id),
            r matches Some(s) ==> *s == self@[id],
    {
        match self.find(id) {
            Some(i) => Some(&self.entries[i].1),
            None => None,
        }
    }

    /// Deregisters the sink under `id` and returns it; does nothing where no
    /// sink is registered under `id`.
    pub fn remove(&mut self, id: SubscriptionId) -> (r: Option<T>)
        requires
            old(self).wf(),
        ensures
            final(self).wf(),
            final(self)@ == old(self)@.remove(id),
            final(self).next_free() == old(self).next_free(),
            r is Some <==> old(self)@.contains_key(id),
            r matches Some(s) ==> s == old(self)@[id],
    {
        match self.find(id) {
            Some(i) => {
                let ghost old_entries = self.entries@;
                let e = self.entries.remove(i);
                self.model = Ghost(self.model@.remove(id));
                proof {
                    let old_ids = ids_of(old_entries);
                    assert(ids_of(self.entries@) =~= old_ids.remove(i as int));
                    assert forall|k: int| 0 <= k < self.entries@.len() implies #[trigger] self.model@.contains_key(self.entries@[k].0)
                        && self.model@[self.entries@[k].0] == self.entries@[k].1 by {
                        if k < i {
                            assert(self.entries@[k] == old_entries[k]);
                            assert(old_ids[k] != old_ids[i as int]);
                        } else {
                            assert(self.entries@[k] == old_entries[k + 1]);
                            assert(old_ids[k + 1] != old_ids[i as int]);
                        }
                    }
                    assert forall|id2: SubscriptionId| #[trigger]
                        self.model@.contains_key(id2) implies ids_of(self.entries@).contains(
                        id2,
                    ) by {
                        let k = old_ids.index_of(id2);
                        if k < i {
                            assert(ids_of(self.entries@)[k] == id2);
                        } else {
                            assert(ids_of(self.entries@)[k - 1] == id2);
                        }
                    }
                    self.lemma_inv_facts();
                }
                Some(e.1)
            },
            None => {
                proof {
                    assert(self.model@.remove(id) =~= self.model@);
                }
                None
            },
        }
    }

    /// The identifiers of all registered sinks, each once, in no particular order.
    pub fn ids(&self) -> (r: Vec<SubscriptionId>)
        requires
            self.wf(),
        ensures
            r@.no_duplicates(),
            r@.to_set() == self@.dom(),
            r@.len() == self@.len(),
    {
        let mut r: Vec<SubscriptionId> = Vec::new();
        let mut i: usize = 0;
        while i < self.entries.len()
            invariant
                self.wf(),
                i <= self.entries@.len(),
                r@ == ids_of(self.entries@).subrange(0, i as int),
            decreases self.entries@.len() - i,
        {
            r.push(self.entries[i].0);
            i = i + 1;
            proof {
                assert(r@ =~= ids_of(self.entries@).subrange(0, i as int));
            }
        }
        proof {
            assert(r@ =~= ids_of(self.entries@));
            self.lemma_inv_facts();
        }
        r
    }
}

} // verus!
