//! The sparse, hash-addressed backend: memory proportional to the number of
//! live entries, appropriate when occupancy is scattered after many
//! removals.

use std::collections::HashMap;

use vstd::prelude::*;

use crate::intmaps::keys_below;
use crate::intmaps::lemma_keys_below_all;
use crate::intmaps::lemma_keys_below_monotone;
use crate::intmaps::valid_compaction;
use crate::intmaps::IntMap;

verus! {

/// An [`IntMap`] backed by a hash map from key to payload.
pub struct SparseIntMap<V: Clone> {
    inner: HashMap<usize, V>,
    counter: usize,
}

impl<V: Clone> SparseIntMap<V> {
    /// Store or clear the slot at `k`, leaving the counter alone.
    fn set(&mut self, k: usize, elem: Option<V>)
        ensures
            final(self).inner@ == match elem {
                Some(v) => old(self).inner@.insert(k, v),
                None => old(self).inner@.remove(k),
            },
            final(self).counter == old(self).counter,
    {
        match elem {
            Some(v) => {
                self.inner.insert(k, v);
            },
            None => {
                self.inner.remove(&k);
            },
        }
    }
}

impl<V: Clone> IntMap<V> for SparseIntMap<V> {
    /// A key is occupied when the hash map holds it.
    closed spec fn contents(&self) -> Map<nat, V> {
        Map::new(
            |k: nat| k <= usize::MAX as nat && self.inner@.contains_key(k as usize),
            |k: nat| self.inner@[k as usize],
        )
    }

    closed spec fn counter(&self) -> nat {
        self.counter as nat
    }

    /// Every occupied key lies below the counter.
    closed spec fn wf(&self) -> bool {
        forall|k: usize| #[trigger]
            self.inner@.dom().contains(k) ==> (k as nat) < self.counter as nat
    }

    /// The sparse backend iterates its entries in no promised order.
    open spec fn flatten_preserves_order() -> bool {
        false
    }

    proof fn lemma_wf_props(&self) {
        crate::intmaps::lemma_bounded_nat_set_finite(
            self.contents().dom(),
            self.counter as nat,
        );
    }

    fn empty() -> (r: Self) {
        let r = SparseIntMap { inner: HashMap::new(), counter: 0 };
        proof {
            assert(r.contents() =~= Map::<nat, V>::empty());
        }
        r
    }

    fn next_key(&self) -> (k: usize) {
        self.counter
    }

    fn add(&mut self, elem: V) -> (k: usize) {
        let id = self.counter;
        self.set(id, Some(elem));
        self.counter = self.counter + 1;
        proof {
            assert(self.contents() =~= old(self).contents().insert(id as nat, elem));
        }
        id
    }

    fn put(&mut self, k: usize, elem: Option<V>) {
        match elem {
            Some(v) => {
                self.set(k, Some(v));
                if k >= self.counter {
                    self.counter = k + 1;
                }
                proof {
                    assert(self.contents() =~= old(self).contents().insert(k as nat, v));
                }
            },
            None => {
                self.set(k, None);
                proof {
                    assert(self.contents() =~= old(self).contents().remove(k as nat));
                }
            },
        }
    }

    fn get(&self, k: usize) -> (r: Option<V>) {
        match self.inner.get(&k) {
            Some(v) => Some(v.clone()),
            None => None,
        }
    }

    fn get_flattening(&self) -> (r: Result<(Self, HashMap<usize, usize>), ()>) {
        let ghost old_c = self.contents();
        let n0 = self.counter;
        let mut flattened: HashMap<usize, V> = HashMap::new();
        let mut mapping: HashMap<usize, usize> = HashMap::new();
        let mut next_new: usize = 0;
        let mut k: usize = 0;
        while k < n0
            invariant
                n0 == self.counter,
                old_c == self.contents(),
                self.wf(),
                k <= n0,
                next_new as nat == keys_below(old_c, k as int),
                next_new <= k,
                forall|j: usize| #[trigger]
                    flattened@.dom().contains(j) <==> (j as nat) < next_new as nat,
                forall|j: usize| #[trigger]
                    mapping@.dom().contains(j) ==> j < k && old_c.dom().contains(j as nat),
                forall|j: usize|
                    j < k && old_c.dom().contains(j as nat) ==> #[trigger] mapping@.dom().contains(
                        j,
                    ),
                forall|j: usize| #[trigger]
                    mapping@.dom().contains(j) ==> mapping@[j] as nat == keys_below(
                        old_c,
                        j as int,
                    ),
                forall|j: usize| #[trigger]
                    mapping@.dom().contains(j) ==> mapping@[j] < next_new
                        && flattened@.dom().contains(mapping@[j]) && cloned::<V>(
                        old_c[j as nat],
                        flattened@[mapping@[j]],
                    ),
            decreases n0 - k,
        {
            match self.inner.get(&k) {
                Some(v) => {
                    mapping.insert(k, next_new);
                    flattened.insert(next_new, v.clone());
                    next_new += 1;
                    proof {
                        assert(old_c.dom().contains(k as nat));
                    }
                },
                None => {
                    proof {
                        assert(!old_c.dom().contains(k as nat));
                    }
                },
            }
            k += 1;
        }
        let result = SparseIntMap { inner: flattened, counter: next_new };
        proof {
            let n = old_c.dom().len();
            crate::intmaps::lemma_bounded_nat_set_finite(old_c.dom(), n0 as nat);
            lemma_keys_below_all(old_c, n0 as int);
            assert(next_new as nat == n);
            assert forall|j: nat| #![trigger result.contents().dom().contains(j)]
                result.contents().dom().contains(j) <==> j < n by {
                if j < n {
                    assert(result.inner@.dom().contains(j as usize));
                }
            }
            assert forall|j: usize| #[trigger]
                mapping@.dom().contains(j) implies (mapping@[j] as nat) < n by {
                assert(keys_below(old_c, j + 1) == keys_below(old_c, j as int) + 1);
                lemma_keys_below_monotone(old_c, j + 1, n0 as int);
            }
            assert forall|k1: usize, k2: usize| #![trigger mapping@[k1], mapping@[k2]]
                mapping@.dom().contains(k1) && mapping@.dom().contains(k2) && k1 != k2
                    implies mapping@[k1] != mapping@[k2] by {
                if k1 < k2 {
                    assert(keys_below(old_c, k1 + 1) == keys_below(old_c, k1 as int) + 1);
                    lemma_keys_below_monotone(old_c, k1 + 1, k2 as int);
                } else {
                    assert(keys_below(old_c, k2 + 1) == keys_below(old_c, k2 as int) + 1);
                    lemma_keys_below_monotone(old_c, k2 + 1, k1 as int);
                }
            }
            assert forall|j: usize| #[trigger]
                mapping@.dom().contains(j) implies result.contents().dom().contains(
                mapping@[j] as nat,
            ) && cloned::<V>(old_c[j as nat], result.contents()[mapping@[j] as nat]) by {
                assert(result.inner@.dom().contains(mapping@[j]));
            }
            assert(valid_compaction(old_c, result.contents(), mapping@));
        }
        Ok((result, mapping))
    }
}

impl<V: Clone> Default for SparseIntMap<V> {
    /// An empty backend, with the counter at the first key.
    fn default() -> (r: Self)
        ensures
            r.wf(),
            r.contents() == Map::<nat, V>::empty(),
            r.counter() == 0,
    {
        <SparseIntMap<V> as IntMap<V>>::empty()
    }
}

} // verus!
