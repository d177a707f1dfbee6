//! The tracker core, generic over its storage backend: the backend's own
//! counter is the single authoritative source of the next identifier.

use std::collections::HashMap;
use std::marker::PhantomData;

use vstd::prelude::*;

use crate::base::outers::IdentifiedBy;
use crate::base::outers::Identifier;
use crate::errors::IdError;
use crate::intmaps::lemma_bounded_nat_set_finite;
use crate::intmaps::IntMap;
use crate::utils::handles::guard_get_mut;
use crate::utils::handles::Handle;
use crate::utils::mappings::IdMapping;
use crate::utils::trackers::generic::IdTracker;
use crate::utils::trackers::renumbering_ordered;
use crate::utils::trackers::valid_renumbering;
use crate::utils::UpdatableIdStore;

verus! {

/// Convert an index-keyed old-to-new mapping into an identifier mapping,
/// failing with `RangeConversionFailure` exactly when some key or value
/// does not fit the identifier domain.
pub(crate) fn map_to_ids<I: Identifier>(usize_map: &HashMap<usize, usize>, bound: usize) -> (r:
    Result<IdMapping<I>, IdError>)
    requires
        forall|j: usize| #[trigger] usize_map@.dom().contains(j) ==> j < bound,
    ensures
        match r {
            Ok(m) => {
                &&& m.wf()
                &&& forall|j: usize| #[trigger]
                    usize_map@.dom().contains(j) ==> j as nat <= I::max_value() && (usize_map@[j]
                        as nat) <= I::max_value()
                &&& forall|j: usize| #[trigger]
                    usize_map@.dom().contains(j) ==> m@.contains_key(j as nat) && m@[j as nat]
                        == usize_map@[j] as nat
                &&& forall|x: nat| #[trigger]
                    m@.contains_key(x) ==> x <= usize::MAX as nat && usize_map@.dom().contains(
                        x as usize,
                    )
            },
            Err(e) => {
                &&& e == IdError::RangeConversionFailure
                &&& exists|j: usize| #[trigger]
                    usize_map@.dom().contains(j) && (j as nat > I::max_value() || (usize_map@[j]
                        as nat) > I::max_value())
            },
        },
{
    let mut id_map = IdMapping::<I>::new();
    let mut k: usize = 0;
    while k < bound
        invariant
            forall|j: usize| #[trigger] usize_map@.dom().contains(j) ==> j < bound,
            k <= bound,
            id_map.wf(),
            forall|x: nat| #[trigger]
                id_map@.contains_key(x) ==> x < k as nat && usize_map@.dom().contains(x as usize),
            forall|j: usize|
                j < k && #[trigger] usize_map@.dom().contains(j) ==> id_map@.contains_key(j as nat)
                    && id_map@[j as nat] == usize_map@[j] as nat,
            forall|j: usize|
                j < k && #[trigger] usize_map@.dom().contains(j) ==> j as nat <= I::max_value()
                    && (usize_map@[j] as nat) <= I::max_value(),
        decreases bound - k,
    {
        match usize_map.get(&k) {
            Some(v) => {
                let old_id = match I::from_index(k) {
                    Ok(x) => x,
                    Err(e) => {
                        return Err(e);
                    },
                };
                let new_id = match I::from_index(*v) {
                    Ok(x) => x,
                    Err(e) => {
                        return Err(e);
                    },
                };
                id_map.push_pair(old_id, new_id);
            },
            None => {},
        }
        k += 1;
    }
    Ok(id_map)
}

/// The tracker core: delegates storage to an [`IntMap`] backend and issues
/// identifiers from the backend's own key counter.
#[verifier::reject_recursive_types(T)]
pub struct IdTrackerInner<I: Identifier, T: IdentifiedBy<I>, M: IntMap<Handle<T>>> {
    p: PhantomData<(I, T)>,
    map: M,
}

impl<I: Identifier, T: IdentifiedBy<I>, M: IntMap<Handle<T>>> IdTrackerInner<I, T, M> {
    /// Clear the slot at `id`; the position is not reused until the next
    /// flattening. A no-op when `id` is not live.
    pub fn remove(&mut self, id: I)
        requires
            old(self).wf(),
            id.wf(),
        ensures
            final(self).wf(),
            final(self).counter_value() == old(self).counter_value(),
            final(self).objects_map() == old(self).objects_map().remove(id.value()),
    {
        let k = id.to_index();
        self.map.rmv(k);
    }

    /// Insert an already shared object: issue a fresh identifier, stamp the
    /// object under its lock, and store the handle. Reports `LockCorrupted`
    /// without issuing anything when the object's lock is poisoned.
    pub fn insert(&mut self, element: Handle<T>) -> (r: Result<Handle<T>, IdError>)
        requires
            old(self).wf(),
            old(self).counter_value() < I::max_value(),
        ensures
            match r {
                Ok(h) => {
                    &&& h == element
                    &&& final(self).wf()
                    &&& final(self).counter_value() == old(self).counter_value() + 1
                    &&& final(self).objects_map() == old(self).objects_map().insert(
                        old(self).counter_value(),
                        element,
                    )
                },
                Err(e) => e == IdError::LockCorrupted && *final(self) == *old(self),
            },
    {
        match element.lock() {
            Ok(mut guard) => {
                let k = self.map.next_key();
                let id = match I::from_index(k) {
                    Ok(v) => v,
                    Err(_) => vstd::pervasive::unreached(),
                };
                proof {
                    id.lemma_wf_bounds();
                    I::lemma_max_bound();
                }
                let _assigned = self.map.add(element.clone());
                let obj = guard_get_mut(&mut guard);
                obj.set_id(id);
            },
            Err(e) => {
                return Err(e);
            },
        }
        Ok(element)
    }
}

impl<I: Identifier, T: IdentifiedBy<I>, M: IntMap<Handle<T>>> IdTracker<I, T> for IdTrackerInner<
    I,
    T,
    M,
> {
    closed spec fn objects_map(&self) -> Map<nat, Handle<T>> {
        self.map.contents()
    }

    closed spec fn counter_value(&self) -> nat {
        self.map.counter()
    }

    /// The backend is sound and its counter stays within the identifier
    /// domain.
    closed spec fn wf(&self) -> bool {
        &&& self.map.wf()
        &&& self.map.counter() <= I::max_value()
    }

    open spec fn flatten_ordered() -> bool {
        M::flatten_preserves_order()
    }

    proof fn lemma_tracker_bounds(&self) {
        self.map.lemma_wf_props();
        lemma_bounded_nat_set_finite(self.map.contents().dom(), self.map.counter());
        I::lemma_max_bound();
    }

    fn get(&self, id: I) -> (r: Option<Handle<T>>) {
        let k = id.to_index();
        self.map.get(k)
    }

    fn put(&mut self, element: T) -> (h: Handle<T>) {
        let mut element = element;
        let k = self.map.next_key();
        let id = match I::from_index(k) {
            Ok(v) => v,
            Err(_) => vstd::pervasive::unreached(),
        };
        proof {
            id.lemma_wf_bounds();
            I::lemma_max_bound();
        }
        element.set_id(id);
        let guarded = Handle::new(element);
        let _assigned = self.map.add(guarded.clone());
        guarded
    }

    fn flatten(&mut self) -> (r: Result<IdMapping<I>, IdError>) {
        let ghost old_c = self.map.contents();
        let bound = self.map.next_key();
        proof {
            self.map.lemma_wf_props();
            lemma_bounded_nat_set_finite(old_c.dom(), self.map.counter());
        }
        let (flattened_map, hm) = match self.map.get_flattening() {
            Ok(vals) => vals,
            Err(_) => vstd::pervasive::unreached(),
        };
        let n = flattened_map.next_key();
        let mut j: usize = 0;
        while j < n
            invariant
                old_c == old(self).objects_map(),
                flattened_map.wf(),
                n as nat == flattened_map.counter(),
                n as nat == old_c.dom().len(),
                n <= bound,
                bound as nat <= I::max_value(),
                forall|x: nat| #![trigger flattened_map.contents().dom().contains(x)]
                    flattened_map.contents().dom().contains(x) <==> x < n as nat,
                j <= n,
            decreases n - j,
        {
            match flattened_map.get(j) {
                Some(handle) => {
                    let id = match I::from_index(j) {
                        Ok(v) => v,
                        Err(_) => vstd::pervasive::unreached(),
                    };
                    let lock_result = handle.lock();
                    match lock_result {
                        Ok(mut guard) => {
                            let obj = guard_get_mut(&mut guard);
                            obj.set_id(id);
                        },
                        Err(e) => {
                            proof {
                                assert(old_c.dom().len() > 0);
                            }
                            return Err(e);
                        },
                    }
                },
                None => {
                    vstd::pervasive::unreached()
                },
            }
            j += 1;
        }
        let id_mapping = match map_to_ids::<I>(&hm, bound) {
            Ok(m) => m,
            Err(_) => vstd::pervasive::unreached(),
        };
        self.map = flattened_map;
        proof {
            let new_c = self.map.contents();
            let m = id_mapping@;
            let nn = old_c.dom().len();
            assert forall|k: nat| #[trigger] m.dom().contains(k) implies old_c.dom().contains(
                k,
            ) by {
                assert(hm@.dom().contains(k as usize));
            }
            assert forall|k: nat| #[trigger] old_c.dom().contains(k) implies m.dom().contains(
                k,
            ) by {
                assert(hm@.dom().contains(k as usize));
                assert(m.contains_key((k as usize) as nat));
            }
            assert forall|k: nat| #[trigger] m.dom().contains(k) implies m[k] < nn by {
                assert(hm@.dom().contains(k as usize));
                assert((hm@[k as usize] as nat) < nn);
            }
            assert forall|a: nat, b: nat| #![trigger m[a], m[b]]
                m.dom().contains(a) && m.dom().contains(b) && a != b implies m[a] != m[b] by {
                assert(hm@.dom().contains(a as usize));
                assert(hm@.dom().contains(b as usize));
                assert(hm@[a as usize] != hm@[b as usize]);
            }
            assert forall|k: nat| #[trigger] m.dom().contains(k) implies new_c.dom().contains(
                m[k],
            ) && new_c[m[k]] == old_c[k] by {
                assert(hm@.dom().contains(k as usize));
                assert(cloned::<Handle<T>>(old_c[k], new_c[hm@[k as usize] as nat]));
            }
            assert(valid_renumbering(old_c, new_c, m));
            if M::flatten_preserves_order() {
                assert forall|a: nat, b: nat| #![trigger m[a], m[b]]
                    m.dom().contains(a) && m.dom().contains(b) && a < b implies m[a] < m[b] by {
                    assert(hm@.dom().contains(a as usize));
                    assert(hm@.dom().contains(b as usize));
                    assert(hm@[a as usize] < hm@[b as usize]);
                }
                assert(renumbering_ordered(m));
            }
        }
        Ok(id_mapping)
    }

    fn flatten_with<S: UpdatableIdStore<I>>(&mut self, stores: &mut Vec<S>) -> (r: Result<
        IdMapping<I>,
        IdError,
    >) {
        let map = match self.flatten() {
            Ok(vals) => vals,
            Err(e) => {
                return Err(e);
            },
        };
        let n = stores.len();
        let mut i: usize = 0;
        while i < n
            invariant
                map.wf(),
                n == stores@.len(),
                n == old(stores)@.len(),
                i <= n,
                forall|j: int| i <= j < n ==> stores@[j] == old(stores)@[j],
                forall|j: int|
                    0 <= j < n ==> (#[trigger] old(stores)@[j].held_ids()).subset_of(map@.dom()),
                forall|a: nat, b: nat| #![trigger map@[a], map@[b]]
                    map@.dom().contains(a) && map@.dom().contains(b) && a != b ==> map@[a]
                        != map@[b],
                forall|j: int|
                    0 <= j < i ==> (#[trigger] stores@[j].held_ids()) =~= old(
                        stores,
                    )@[j].held_ids().map(|x: nat| map@[x]),
            decreases n - i,
        {
            stores[i].update_ids(&map);
            i += 1;
        }
        Ok(map)
    }
}

impl<I: Identifier, T: IdentifiedBy<I>, M: IntMap<Handle<T>>> Default for IdTrackerInner<
    I,
    T,
    M,
> {
    /// An empty tracker whose backend counter stands at the first key.
    fn default() -> (r: Self)
        ensures
            r.wf(),
            r.objects_map() == Map::<nat, Handle<T>>::empty(),
            r.counter_value() == 0,
    {
        IdTrackerInner { p: PhantomData, map: M::empty() }
    }
}

} // verus!
