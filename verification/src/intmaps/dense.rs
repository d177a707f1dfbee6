//! The dense, index-addressed backend: memory proportional to the highest
//! key ever used, appropriate when occupancy stays close to contiguous.

use std::collections::HashMap;

use vstd::prelude::*;

use crate::intmaps::compaction_ordered;
use crate::intmaps::keys_below;
use crate::intmaps::lemma_keys_below_all;
use crate::intmaps::lemma_keys_below_monotone;
use crate::intmaps::valid_compaction;
use crate::intmaps::IntMap;

verus! {

/// An [`IntMap`] backed by an index-addressed sequence of optional payloads.
pub struct DenseIntMap<V: Clone> {
    inner: Vec<Option<V>>,
    counter: usize,
}

impl<V: Clone> DenseIntMap<V> {
    /// Grow the sequence to include `index` and overwrite that slot.
    fn set(&mut self, index: usize, elem: Option<V>)
        requires
            index < usize::MAX,
        ensures
            final(self).inner@.len() == if index < old(self).inner@.len() {
                old(self).inner@.len() as int
            } else {
                index + 1
            },
            forall|i: int|
                0 <= i < final(self).inner@.len() && i != index ==> final(self).inner@[i] == (
                if i < old(self).inner@.len() {
                    old(self).inner@[i]
                } else {
                    None::<V>
                }),
            final(self).inner@[index as int] == elem,
            final(self).counter == old(self).counter,
    {
        while self.inner.len() <= index
            invariant
                index < usize::MAX,
                self.counter == old(self).counter,
                self.inner@.len() >= old(self).inner@.len(),
                self.inner@.len() == old(self).inner@.len() || self.inner@.len() <= index + 1,
                forall|i: int|
                    0 <= i < self.inner@.len() ==> self.inner@[i] == (
                    if i < old(self).inner@.len() {
                        old(self).inner@[i]
                    } else {
                        None::<V>
                    }),
            decreases index + 1 - self.inner@.len(),
        {
            self.inner.push(None);
        }
        self.inner.set(index, elem);
    }
}

impl<V: Clone> IntMap<V> for DenseIntMap<V> {
    /// A key is occupied when it addresses a slot holding a payload.
    closed spec fn contents(&self) -> Map<nat, V> {
        Map::new(
            |k: nat| k < self.inner@.len() && self.inner@[k as int] is Some,
            |k: nat| self.inner@[k as int].unwrap(),
        )
    }

    closed spec fn counter(&self) -> nat {
        self.counter as nat
    }

    /// The counter tracks the length of the backing sequence exactly.
    closed spec fn wf(&self) -> bool {
        self.counter as nat == self.inner@.len()
    }

    /// The dense backend renumbers in ascending key order.
    open spec fn flatten_preserves_order() -> bool {
        true
    }

    proof fn lemma_wf_props(&self) {
        crate::intmaps::lemma_bounded_nat_set_finite(
            self.contents().dom(),
            self.inner@.len() as nat,
        );
    }

    fn empty() -> (r: Self) {
        let r = DenseIntMap { inner: Vec::new(), counter: 0 };
        proof {
            assert(r.contents() =~= Map::<nat, V>::empty());
        }
        r
    }

    fn next_key(&self) -> (k: usize) {
        self.counter
    }

    fn add(&mut self, elem: V) -> (k: usize) {
        let id = self.counter;
        self.inner.push(Some(elem));
        self.counter = self.counter + 1;
        proof {
            assert(self.contents() =~= old(self).contents().insert(id as nat, elem));
        }
        id
    }

    fn put(&mut self, k: usize, elem: Option<V>)
    {
        match elem {
            Some(v) => {
                self.set(k, Some(v));
                if k >= self.counter {
                    self.counter = k + 1;
                }
                proof {
                    assert(self.contents() =~= old(self).contents().insert(k as nat, v));
                }
            },
            None => {
                if k < self.inner.len() {
                    self.set(k, None);
                }
                proof {
                    assert(self.contents() =~= old(self).contents().remove(k as nat));
                }
            },
        }
    }

    fn get(&self, k: usize) -> (r: Option<V>) {
        if k < self.inner.len() {
            match &self.inner[k] {
                Some(v) => Some(v.clone()),
                None => None,
            }
        } else {
            None
        }
    }

    fn get_flattening(&self) -> (r: Result<(Self, HashMap<usize, usize>), ()>) {
        let ghost old_c = self.contents();
        let n0 = self.inner.len();
        let mut flattened: Vec<Option<V>> = Vec::new();
        let mut mapping: HashMap<usize, usize> = HashMap::new();
        let mut i: usize = 0;
        while i < n0
            invariant
                n0 == self.inner@.len(),
                old_c == self.contents(),
                self.wf(),
                i <= n0,
                flattened@.len() == keys_below(old_c, i as int),
                forall|j: int| 0 <= j < flattened@.len() ==> flattened@[j] is Some,
                forall|k: usize| #[trigger]
                    mapping@.dom().contains(k) ==> k < i && old_c.dom().contains(k as nat),
                forall|k: usize|
                    k < i && old_c.dom().contains(k as nat) ==> #[trigger] mapping@.dom().contains(
                        k,
                    ),
                forall|k: usize| #[trigger]
                    mapping@.dom().contains(k) ==> mapping@[k] as nat == keys_below(
                        old_c,
                        k as int,
                    ),
                forall|k: usize| #[trigger]
                    mapping@.dom().contains(k) ==> (mapping@[k] as int) < flattened@.len()
                        && cloned::<V>(
                        old_c[k as nat],
                        flattened@[mapping@[k] as int].unwrap(),
                    ),
            decreases n0 - i,
        {
            match &self.inner[i] {
                Some(v) => {
                    let newk = flattened.len();
                    mapping.insert(i, newk);
                    flattened.push(Some(v.clone()));
                    proof {
                        assert(old_c.dom().contains(i as nat));
                    }
                },
                None => {
                    proof {
                        assert(!old_c.dom().contains(i as nat));
                    }
                },
            }
            i += 1;
        }
        let counter = flattened.len();
        let result = DenseIntMap { inner: flattened, counter };
        proof {
            let s = result.inner@;
            let n = old_c.dom().len();
            crate::intmaps::lemma_bounded_nat_set_finite(old_c.dom(), n0 as nat);
            lemma_keys_below_all(old_c, n0 as int);
            assert(s.len() == n);
            assert forall|j: nat| #![trigger result.contents().dom().contains(j)]
                result.contents().dom().contains(j) <==> j < n by {
                if j < n {
                    assert(s[j as int] is Some);
                }
            }
            assert forall|k1: usize, k2: usize| #![trigger mapping@[k1], mapping@[k2]]
                mapping@.dom().contains(k1) && mapping@.dom().contains(k2) && k1 < k2
                    implies mapping@[k1] < mapping@[k2] by {
                assert(keys_below(old_c, k1 + 1) == keys_below(old_c, k1 as int) + 1);
                lemma_keys_below_monotone(old_c, k1 + 1, k2 as int);
            }
            assert forall|k: usize| #[trigger]
                mapping@.dom().contains(k) implies (mapping@[k] as nat) < n by {
                assert(keys_below(old_c, k + 1) == keys_below(old_c, k as int) + 1);
                lemma_keys_below_monotone(old_c, k + 1, n0 as int);
            }
            assert forall|k: usize| #[trigger]
                mapping@.dom().contains(k) implies result.contents().dom().contains(
                mapping@[k] as nat,
            ) && cloned::<V>(old_c[k as nat], result.contents()[mapping@[k] as nat]) by {
                assert(s[mapping@[k] as int] is Some);
            }
            assert(valid_compaction(old_c, result.contents(), mapping@));
            assert(compaction_ordered(mapping@));
        }
        Ok((result, mapping))
    }
}

impl<V: Clone> Default for DenseIntMap<V> {
    /// An empty backend, with the counter at the first key.
    fn default() -> (r: Self)
        ensures
            r.wf(),
            r.contents() == Map::<nat, V>::empty(),
            r.counter() == 0,
    {
        <DenseIntMap<V> as IntMap<V>>::empty()
    }
}

} // verus!
