//! The counted trap store: a map from fingerprint to how many times that
//! fingerprint has been trapped and not yet claimed.

use vstd::prelude::*;
use crate::fingerprint::Fingerprint;

verus! {

/// One stored trap: a fingerprint and how often it is currently trapped.
#[derive(Clone, Copy)]
pub struct TrapRecord {
    pub fp: Fingerprint,
    pub count: u32,
}

/// The store itself. Its abstract value is a map from digest bytes to a
/// count that is at least 1; a fingerprint with no outstanding traps is
/// absent from the map, never present with count 0.
pub struct TrapStore {
    entries: Vec<TrapRecord>,
}

/// What recording a trap does to the abstract map: a first occurrence is
/// inserted with count 1; a repeated occurrence is counted once more, except
/// that a count already at `u32::MAX` stays where it is.
pub open spec fn record_map(m: Map<Seq<u8>, u32>, k: Seq<u8>) -> Map<Seq<u8>, u32> {
    if m.contains_key(k) {
        if m[k] < u32::MAX {
            m.insert(k, (m[k] + 1) as u32)
        } else {
            m
        }
    } else {
        m.insert(k, 1u32)
    }
}

/// What a successful or failed claim does to the abstract map: an absent key
/// changes nothing; a count of 1 removes the entry; a larger count is
/// decremented.
pub open spec fn take_map(m: Map<Seq<u8>, u32>, k: Seq<u8>) -> Map<Seq<u8>, u32> {
    if !m.contains_key(k) {
        m
    } else if m[k] == 1 {
        m.remove(k)
    } else {
        m.insert(k, (m[k] - 1) as u32)
    }
}

/// The count stored under `k`, with 0 standing for an absent entry.
pub open spec fn peek_of(m: Map<Seq<u8>, u32>, k: Seq<u8>) -> u32 {
    if m.contains_key(k) {
        m[k]
    } else {
        0
    }
}

/// Every stored count is at least 1.
pub open spec fn map_wf(m: Map<Seq<u8>, u32>) -> bool {
    forall|k: Seq<u8>| #[trigger] m.contains_key(k) ==> m[k] >= 1
}

impl TrapStore {
    /// Whether some entry holds the digest `k`.
    spec fn contains_key(self, k: Seq<u8>) -> bool {
        exists|i: int| 0 <= i < self.entries@.len() && self.entries@[i].fp@ == k
    }

    /// The index of the entry holding `k`; meaningful only when present.
    spec fn idx_of(self, k: Seq<u8>) -> int {
        choose|i: int| 0 <= i < self.entries@.len() && self.entries@[i].fp@ == k
    }

    /// The count stored beside `k`; meaningful only when present.
    spec fn count_at(self, k: Seq<u8>) -> u32 {
        self.entries@[self.idx_of(k)].count
    }

    /// The abstract value of the store.
    pub closed spec fn as_map(self) -> Map<Seq<u8>, u32> {
        Map::new(|k: Seq<u8>| self.contains_key(k), |k: Seq<u8>| self.count_at(k))
    }

    /// No digest appears twice, and every count is at least 1.
    pub closed spec fn wf(self) -> bool {
        &&& forall|i: int, j: int|
            0 <= i < j < self.entries@.len()
                ==> (#[trigger] self.entries@[i]).fp@ != (#[trigger] self.entries@[j]).fp@
        &&& forall|i: int|
            0 <= i < self.entries@.len() ==> (#[trigger] self.entries@[i]).count >= 1
    }

    /// An entry seen at index `i` is the one entry for its digest.
    proof fn lemma_found(self, k: Seq<u8>, i: int)
        requires
            self.wf(),
            0 <= i < self.entries@.len(),
            self.entries@[i].fp@ == k,
        ensures
            self.contains_key(k),
            self.idx_of(k) == i,
            self.count_at(k) == self.entries@[i].count,
            self.as_map().contains_key(k),
            self.as_map()[k] == self.entries@[i].count,
    {
        assert(self.contains_key(k));
        let j = self.idx_of(k);
        assert(0 <= j < self.entries@.len() && self.entries@[j].fp@ == k);
        if j != i {
            assert(false);
        }
    }

    /// The abstract map mirrors `contains_key` and is well formed.
    pub proof fn lemma_view(self)
        requires
            self.wf(),
        ensures
            map_wf(self.as_map()),
    {
        assert forall|k: Seq<u8>| #[trigger] self.as_map().contains_key(k)
            == self.contains_key(k) by {}
        assert forall|k: Seq<u8>| #[trigger] self.as_map().contains_key(k)
            implies self.as_map()[k] >= 1 by {
            let i = self.idx_of(k);
            assert(0 <= i < self.entries@.len() && self.entries@[i].fp@ == k);
        }
    }

    /// An empty store.
    pub fn new() -> (r: TrapStore)
        ensures
            r.wf(),
            r.as_map() == Map::<Seq<u8>, u32>::empty(),
    {
        let r = TrapStore { entries: Vec::new() };
        proof {
            assert(r.as_map() =~= Map::<Seq<u8>, u32>::empty());
        }
        r
    }

    /// The index of the entry holding `fp`, if any.
    fn find(&self, fp: &Fingerprint) -> (r: Option<usize>)
        ensures
            match r {
                Some(i) => i < self.entries@.len() && self.entries@[i as int].fp@ == fp@,
                None => !self.contains_key(fp@),
            },
    {
        let mut i: usize = 0;
        while i < self.entries.len()
            invariant
                i <= self.entries@.len(),
                forall|j: int| 0 <= j < i ==> (#[trigger] self.entries@[j]).fp@ != fp@,
            decreases self.entries@.len() - i,
        {
            if self.entries[i].fp.same_as(fp) {
                return Some(i);
            }
            i = i + 1;
        }
        None
    }

    /// Records one trap of `fp`: a first occurrence is stored with count 1, a
    /// repeated one is counted once more (a count already at `u32::MAX` stays
    /// where it is).
    pub fn record(&mut self, fp: &Fingerprint)
        requires
            old(self).wf(),
        ensures
            final(self).wf(),
            final(self).as_map() == record_map(old(self).as_map(), fp@),
    {
        let ghost om = old(self).as_map();
        match self.find(fp) {
            Some(i) => {
                let rec = self.entries[i];
                proof {
                    old(self).lemma_found(fp@, i as int);
                }
                if rec.count < u32::MAX {
                    self.entries.set(i, TrapRecord { fp: rec.fp, count: rec.count + 1 });
                }
                proof {
                    assert forall|a: int, b: int|
                        0 <= a < b < self.entries@.len()
                            implies (#[trigger] self.entries@[a]).fp@
                                != (#[trigger] self.entries@[b]).fp@ by {
                        assert(old(self).entries@[a].fp@ != old(self).entries@[b].fp@);
                    }
                    assert forall|k: Seq<u8>| true
                        implies self.contains_key(k) == old(self).contains_key(k) by {
                        if self.contains_key(k) {
                            let a = choose|a: int|
                                0 <= a < self.entries@.len() && self.entries@[a].fp@ == k;
                            assert(old(self).entries@[a].fp@ == k);
                        }
                        if old(self).contains_key(k) {
                            let a = choose|a: int|
                                0 <= a < old(self).entries@.len()
                                    && old(self).entries@[a].fp@ == k;
                            assert(self.entries@[a].fp@ == k);
                        }
                    }
                    assert(self.as_map() =~= record_map(om, fp@)) by {
                        assert forall|k: Seq<u8>| #[trigger] self.contains_key(k)
                            implies self.as_map()[k] == record_map(om, fp@)[k] by {
                            if k == fp@ {
                                self.lemma_found(k, i as int);
                            } else {
                                let a = choose|a: int|
                                    0 <= a < old(self).entries@.len()
                                        && old(self).entries@[a].fp@ == k;
                                old(self).lemma_found(k, a);
                                assert(a != i);
                                self.lemma_found(k, a);
                            }
                        }
                    }
                }
            },
            None => {
                self.entries.push(TrapRecord { fp: *fp, count: 1 });
                proof {
                    let ghost n = old(self).entries@.len() as int;
                    assert forall|a: int, b: int|
                        0 <= a < b < self.entries@.len()
                            implies (#[trigger] self.entries@[a]).fp@
                                != (#[trigger] self.entries@[b]).fp@ by {
                        if b < n {
                            assert(old(self).entries@[a].fp@ != old(self).entries@[b].fp@);
                        } else {
                            assert(self.entries@[b].fp@ == fp@);
                            assert(old(self).entries@[a].fp@ != fp@);
                        }
                    }
                    assert(self.as_map() =~= record_map(om, fp@)) by {
                        assert forall|k: Seq<u8>| #[trigger] self.contains_key(k)
                            == record_map(om, fp@).contains_key(k) by {
                            if self.contains_key(k) {
                                let a = choose|a: int|
                                    0 <= a < self.entries@.len()
                                        && self.entries@[a].fp@ == k;
                                if a < n {
                                    assert(old(self).contains_key(k));
                                }
                            }
                            if old(self).contains_key(k) {
                                let a = choose|a: int|
                                    0 <= a < old(self).entries@.len()
                                        && old(self).entries@[a].fp@ == k;
                                assert(self.entries@[a].fp@ == k);
                            }
                            if k == fp@ {
                                assert(self.entries@[n].fp@ == k);
                            }
                        }
                        assert forall|k: Seq<u8>| #[trigger] self.contains_key(k)
                            implies self.as_map()[k] == record_map(om, fp@)[k] by {
                            if k == fp@ {
                                self.lemma_found(k, n);
                            } else {
                                let a = choose|a: int|
                                    0 <= a < self.entries@.len()
                                        && self.entries@[a].fp@ == k;
                                assert(a < n);
                                old(self).lemma_found(k, a);
                                self.lemma_found(k, a);
                            }
                        }
                    }
                }
            },
        }
    }

    /// Takes one trap of `fp` out of the store. Returns whether one was
    /// there: an absent fingerprint changes nothing, a count of 1 removes the
    /// entry, a larger count is decremented.
    pub fn take(&mut self, fp: &Fingerprint) -> (r: bool)
        requires
            old(self).wf(),
        ensures
            final(self).wf(),
            r == old(self).as_map().contains_key(fp@),
            final(self).as_map() == take_map(old(self).as_map(), fp@),
            !r ==> *final(self) == *old(self),
    {
        let ghost om = old(self).as_map();
        match self.find(fp) {
            None => {
                proof {
                    old(self).lemma_view();
                    assert(take_map(om, fp@) == om);
                }
                false
            },
            Some(i) => {
                let rec = self.entries[i];
                proof {
                    old(self).lemma_found(fp@, i as int);
                }
                if rec.count == 1 {
                    self.entries.swap_remove(i);
                    proof {
                        let ghost oe = old(self).entries@;
                        let ghost n = oe.len() as int;
                        assert forall|a: int, b: int|
                            0 <= a < b < self.entries@.len()
                                implies (#[trigger] self.entries@[a]).fp@
                                    != (#[trigger] self.entries@[b]).fp@ by {
                            if a == i as int {
                                assert(self.entries@[a] == oe[n - 1]);
                                assert(self.entries@[b] == oe[b]);
                                assert(oe[b].fp@ != oe[n - 1].fp@);
                            } else if b == i as int {
                                assert(self.entries@[a] == oe[a]);
                                assert(self.entries@[b] == oe[n - 1]);
                                assert(oe[a].fp@ != oe[n - 1].fp@);
                            } else {
                                assert(self.entries@[a] == oe[a]);
                                assert(self.entries@[b] == oe[b]);
                                assert(oe[a].fp@ != oe[b].fp@);
                            }
                        }
                        assert(self.as_map() =~= take_map(om, fp@)) by {
                            assert forall|k: Seq<u8>| #[trigger] self.contains_key(k)
                                == take_map(om, fp@).contains_key(k) by {
                                if self.contains_key(k) {
                                    let a = choose|a: int|
                                        0 <= a < self.entries@.len()
                                            && self.entries@[a].fp@ == k;
                                    if a == i as int && (i as int) < n - 1 {
                                        assert(oe[n - 1].fp@ == k);
                                        old(self).lemma_found(k, n - 1);
                                        assert(k != fp@);
                                    } else {
                                        assert(oe[a].fp@ == k);
                                        old(self).lemma_found(k, a);
                                        assert(k != fp@);
                                    }
                                }
                                if old(self).contains_key(k) && k != fp@ {
                                    let b = choose|b: int| 0 <= b < n && oe[b].fp@ == k;
                                    assert(b != i as int);
                                    if b == n - 1 {
                                        assert((i as int) < n - 1);
                                        assert(self.entries@[i as int].fp@ == k);
                                    } else {
                                        assert(self.entries@[b].fp@ == k);
                                    }
                                }
                            }
                            assert forall|k: Seq<u8>| #[trigger] self.contains_key(k)
                                implies self.as_map()[k] == take_map(om, fp@)[k] by {
                                let a = choose|a: int|
                                    0 <= a < self.entries@.len()
                                        && self.entries@[a].fp@ == k;
                                self.lemma_found(k, a);
                                if a == i as int && (i as int) < n - 1 {
                                    old(self).lemma_found(k, n - 1);
                                } else {
                                    old(self).lemma_found(k, a);
                                }
                            }
                        }
                    }
                } else {
                    self.entries.set(i, TrapRecord { fp: rec.fp, count: rec.count - 1 });
                    proof {
                        assert forall|a: int, b: int|
                            0 <= a < b < self.entries@.len()
                                implies (#[trigger] self.entries@[a]).fp@
                                    != (#[trigger] self.entries@[b]).fp@ by {
                            assert(old(self).entries@[a].fp@ != old(self).entries@[b].fp@);
                        }
                        assert forall|k: Seq<u8>| true
                            implies self.contains_key(k) == old(self).contains_key(k) by {
                            if self.contains_key(k) {
                                let a = choose|a: int|
                                    0 <= a < self.entries@.len() && self.entries@[a].fp@ == k;
                                assert(old(self).entries@[a].fp@ == k);
                            }
                            if old(self).contains_key(k) {
                                let a = choose|a: int|
                                    0 <= a < old(self).entries@.len()
                                        && old(self).entries@[a].fp@ == k;
                                assert(self.entries@[a].fp@ == k);
                            }
                        }
                        assert(self.as_map() =~= take_map(om, fp@)) by {
                            assert forall|k: Seq<u8>| #[trigger] self.contains_key(k)
                                implies self.as_map()[k] == take_map(om, fp@)[k] by {
                                if k == fp@ {
                                    self.lemma_found(k, i as int);
                                } else {
                                    let a = choose|a: int|
                                        0 <= a < old(self).entries@.len()
                                            && old(self).entries@[a].fp@ == k;
                                    old(self).lemma_found(k, a);
                                    assert(a != i);
                                    self.lemma_found(k, a);
                                }
                            }
                        }
                    }
                }
                true
            },
        }
    }

    /// The count currently stored under `fp`, with 0 for an absent entry.
    pub fn peek(&self, fp: &Fingerprint) -> (r: u32)
        requires
            self.wf(),
        ensures
            r == peek_of(self.as_map(), fp@),
    {
        match self.find(fp) {
            None => {
                proof {
                    self.lemma_view();
                }
                0
            },
            Some(i) => {
                proof {
                    self.lemma_found(fp@, i as int);
                }
                self.entries[i].count
            },
        }
    }
}

} // verus!
