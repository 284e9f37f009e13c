//! The latest measurement of each channel of one kit.
use vstd::prelude::*;
use crate::measurement::{key_of, PeripheralQuantityType, RawMeasurement};

verus! {

/// Keeps, per channel, the most recently stored measurement.
pub struct LatestValues {
    entries: Vec<RawMeasurement>,
    model: Ghost<Map<PeripheralQuantityType, RawMeasurement>>,
}

impl View for LatestValues {
    type V = Map<PeripheralQuantityType, RawMeasurement>;

    closed spec fn view(&self) -> Map<PeripheralQuantityType, RawMeasurement> {
        self.model@
    }
}

/// The channels of a sequence of measurements, in order.
pub open spec fn keys_of(s: Seq<RawMeasurement>) -> Seq<PeripheralQuantityType> {
    s.map_values(|m: RawMeasurement| key_of(m))
}

/// `s` lists each measurement of `latest` once, and nothing else.
pub open spec fn lists_exactly(
    s: Seq<RawMeasurement>,
    latest: Map<PeripheralQuantityType, RawMeasurement>,
) -> bool {
    &&& keys_of(s).no_duplicates()
    &&& forall|i: int|
        0 <= i < s.len() ==> #[trigger] latest.contains_key(key_of(s[i])) && latest[key_of(s[i])]
            == s[i]
    &&& forall|k: PeripheralQuantityType| #[trigger]
        latest.contains_key(k) ==> keys_of(s).contains(k)
}

impl LatestValues {
    pub closed spec fn inv(&self) -> bool {
        lists_exactly(self.entries@, self.model@)
    }

    /// Well-formedness: each stored measurement sits under its own channel.
    pub open spec fn wf(&self) -> bool {
        &&& self.inv()
        &&& self@.dom().finite()
        &&& forall|k: PeripheralQuantityType| #[trigger]
            self@.contains_key(k) ==> key_of(self@[k]) == k
    }

    proof fn lemma_inv_facts(&self)
        requires
            self.inv(),
        ensures
            self.wf(),
            self@.len() == self.entries@.len(),
    {
        let keys = keys_of(self.entries@);
        assert forall|k: PeripheralQuantityType| keys.to_set().contains(k) implies self@.contains_key(
            k,
        ) by {
            let i = keys.index_of(k);
            assert(self.model@.contains_key(key_of(self.entries@[i])));
        }
        assert(self@.dom() =~= keys.to_set());
        keys.unique_seq_to_set();
        vstd::seq_lib::seq_to_set_is_finite(keys);
        assert forall|k: PeripheralQuantityType| #[trigger]
            self@.contains_key(k) implies key_of(self@[k]) == k by {
            let i = keys.index_of(k);
            assert(self.model@.contains_key(key_of(self.entries@[i])));
        }
    }

    /// A buffer that holds nothing.
    pub fn new() -> (r: Self)
        ensures
            r.wf(),
            r@ == Map::<PeripheralQuantityType, RawMeasurement>::empty(),
    {
        let r = LatestValues { entries: Vec::new(), model: Ghost(Map::empty()) };
        proof {
            assert(keys_of(r.entries@) =~= Seq::empty());
            r.lemma_inv_facts();
        }
        r
    }

    /// Stores `m` under its channel, replacing what was stored there.
    pub fn upsert(&mut self, m: RawMeasurement)
        requires
            old(self).wf(),
        ensures
            final(self).wf(),
            final(self)@ == old(self)@.insert(key_of(m), m),
    {
        let key = m.key();
        let ghost old_entries = self.entries@;
        let ghost old_keys = keys_of(old_entries);
        let mut i: usize = 0;
        while i < self.entries.len()
            invariant
                self.entries@ == old_entries,
                old_keys == keys_of(old_entries),
                key == key_of(m),
                self.model@ == old(self).model@,
                self.wf(),
                i <= old_entries.len(),
                forall|j: int| 0 <= j < i ==> key_of(old_entries[j]) != key,
            decreases old_entries.len() - i,
        {
            if self.entries[i].has_key(key) {
                proof {
                    assert(old_keys.no_duplicates());
                    assert(old_keys[i as int] == key);
                }
                self.entries.set(i, m);
                self.model = Ghost(self.model@.insert(key, m));
                proof {
                    assert(self.entries@[i as int] == m);
                    assert forall|j: int| 0 <= j < self.entries@.len() implies #[trigger] keys_of(
                        self.entries@,
                    )[j] == old_keys[j] by {
                        if j != i {
                            assert(self.entries@[j] == old_entries[j]);
                        }
                    }
                    assert(keys_of(self.entries@) =~= old_keys);
                    assert forall|j: int| 0 <= j < self.entries@.len() implies #[trigger] self.model@.contains_key(
                        key_of(self.entries@[j]),
                    ) && self.model@[key_of(self.entries@[j])] == self.entries@[j] by {
                        if j != i {
                            assert(old_keys[j] != old_keys[i as int]);
                        }
                    }
                    self.lemma_inv_facts();
                }
                return;
            }
            i = i + 1;
        }
        proof {
            assert(!old_keys.contains(key));
            assert(!self.model@.contains_key(key));
        }
        self.entries.push(m);
        self.model = Ghost(self.model@.insert(key, m));
        proof {
            assert(keys_of(self.entries@) =~= old_keys.push(key));
            assert forall|k: PeripheralQuantityType| #[trigger]
                self.model@.contains_key(k) implies keys_of(self.entries@).contains(k) by {
                if k != key {
                    let j = old_keys.index_of(k);
                    assert(keys_of(self.entries@)[j] == k);
                } else {
                    assert(keys_of(self.entries@)[old_entries.len() as int] == key);
                }
            }
            self.lemma_inv_facts();
        }
    }

    /// The measurement stored under `key`, if any.
    pub fn get(&self, key: PeripheralQuantityType) -> (r: Option<RawMeasurement>)
        requires
            self.wf(),
        ensures
            r is Some <==> self@.contains_key(key),
            r matches Some(m) ==> m == self@[key],
    {
        let mut i: usize = 0;
        while i < self.entries.len()
            invariant
                self.wf(),
                i <= self.entries@.len(),
                forall|j: int| 0 <= j < i ==> key_of(self.entries@[j]) != key,
            decreases self.entries@.len() - i,
        {
            if self.entries[i].has_key(key) {
                proof {
                    assert(self.model@.contains_key(key_of(self.entries@[i as int])));
                }
                return Some(self.entries[i]);
            }
            i = i + 1;
        }
        proof {
            if self@.contains_key(key) {
                let j = keys_of(self.entries@).index_of(key);
                assert(key_of(self.entries@[j]) == key);
            }
        }
        None
    }

    /// Every stored measurement, one per channel, in no particular order.
    pub fn snapshot(&self) -> (r: Vec<RawMeasurement>)
        requires
            self.wf(),
        ensures
            lists_exactly(r@, self@),
            r@.len() == self@.len(),
    {
        let mut r: Vec<RawMeasurement> = Vec::new();
        let mut i: usize = 0;
        while i < self.entries.len()
            invariant
                self.wf(),
                i <= self.entries@.len(),
                r@ == self.entries@.subrange(0, i as int),
            decreases self.entries@.len() - i,
        {
            r.push(self.entries[i]);
            i = i + 1;
            proof {
                assert(r@ =~= self.entries@.subrange(0, i as int));
            }
        }
        proof {
            assert(r@ =~= self.entries@);
            self.lemma_inv_facts();
        }
        r
    }
}

} // verus!
