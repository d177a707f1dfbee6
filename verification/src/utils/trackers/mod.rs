//! The identifier tracker: a registry that owns a mapping from identifier
//! to shared, lock-guarded object, assigns identifiers on insertion, and
//! compacts its keyspace on demand.

pub mod dense;
pub mod generic;
pub mod inner;

use vstd::prelude::*;

use crate::base::outers::IdentifiedBy;
use crate::base::outers::Identifier;
use crate::errors::IdError;
use crate::intmaps::keys_below;
use crate::intmaps::lemma_bounded_nat_set_finite;
use crate::intmaps::lemma_keys_below_all;
use crate::intmaps::lemma_keys_below_monotone;
use crate::intmaps::sparse::SparseIntMap;
use crate::intmaps::IntMap;
use crate::utils::handles::guard_get_mut;
use crate::utils::handles::Handle;
use crate::utils::mappings::IdMapping;
use crate::utils::UpdatableIdStore;

verus! {

/// The mapping `m` renumbers the live identifier positions of `old_objs`
/// onto the contiguous range `[0, n)`, and `new_objs` holds each surviving
/// handle under its new position.
pub open spec fn valid_renumbering<T>(
    old_objs: Map<nat, Handle<T>>,
    new_objs: Map<nat, Handle<T>>,
    m: Map<nat, nat>,
) -> bool {
    let n = old_objs.dom().len();
    &&& forall|k: nat| #[trigger] m.dom().contains(k) <==> old_objs.dom().contains(k)
    &&& forall|k: nat| #[trigger] m.dom().contains(k) ==> m[k] < n
    &&& forall|a: nat, b: nat| #![trigger m[a], m[b]]
        m.dom().contains(a) && m.dom().contains(b) && a != b ==> m[a] != m[b]
    &&& forall|j: nat| #![trigger new_objs.dom().contains(j)] new_objs.dom().contains(j) <==> j
        < n
    &&& forall|k: nat| #[trigger]
        m.dom().contains(k) ==> new_objs.dom().contains(m[k]) && new_objs[m[k]] == old_objs[k]
}

/// One `put` observed through the tracker's view: the handle is stored at
/// the counter's position and the counter advances by one. Every tracker's
/// `put` ensures exactly this of its old and new state.
pub open spec fn put_step<T>(
    pre_counter: nat,
    pre_objs: Map<nat, Handle<T>>,
    post_counter: nat,
    post_objs: Map<nat, Handle<T>>,
    h: Handle<T>,
) -> bool {
    &&& post_counter == pre_counter + 1
    &&& post_objs == pre_objs.insert(pre_counter, h)
}

/// An identifier issued by `put` is live immediately afterwards, and the
/// tracker resolves it to the very handle `put` returned: `get`'s contract
/// hands back exactly the handle stored under a live position.
pub proof fn lemma_get_after_put<T>(
    pre_counter: nat,
    pre_objs: Map<nat, Handle<T>>,
    post_counter: nat,
    post_objs: Map<nat, Handle<T>>,
    h: Handle<T>,
)
    requires
        put_step(pre_counter, pre_objs, post_counter, post_objs, h),
    ensures
        post_objs.contains_key(pre_counter),
        post_objs[pre_counter] == h,
{
}

/// What a run of `put` calls on an empty tracker issues: the handles land
/// under the successive identifier positions 0, 1, 2, ... in call order —
/// the domain's first position, then its successor, and so on — with no
/// position issued twice.
pub proof fn lemma_put_run_issues_successively<T>(
    counters: Seq<nat>,
    maps: Seq<Map<nat, Handle<T>>>,
    handles: Seq<Handle<T>>,
)
    requires
        counters.len() == handles.len() + 1,
        maps.len() == handles.len() + 1,
        counters[0] == 0,
        maps[0] == Map::<nat, Handle<T>>::empty(),
        forall|i: int|
            0 <= i < handles.len() ==> #[trigger] put_step(
                counters[i],
                maps[i],
                counters[i + 1],
                maps[i + 1],
                handles[i],
            ),
    ensures
        counters.last() == handles.len(),
        forall|i: int|
            0 <= i < handles.len() ==> maps.last().contains_key(i as nat) && maps.last()[i as nat]
                == handles[i],
        forall|k: nat| #[trigger] maps.last().dom().contains(k) ==> k < handles.len(),
    decreases handles.len(),
{
    if handles.len() > 0 {
        let n = handles.len() as int;
        lemma_put_run_issues_successively(
            counters.take(n),
            maps.take(n),
            handles.take(n - 1),
        );
        assert(put_step(counters[n - 1], maps[n - 1], counters[n], maps[n], handles[n - 1]));
        assert(counters.take(n).last() == counters[n - 1]);
        assert(maps.take(n).last() == maps[n - 1]);
        assert(maps.last() == maps[n]);
        assert forall|i: int|
            #![trigger maps.last().dom().contains(i as nat)]
            #![trigger maps.last()[i as nat]]
            0 <= i < handles.len() implies maps.last().contains_key(i as nat) && maps.last()[
            i as nat] == handles[i] by {
            if i < n - 1 {
                assert(handles.take(n - 1)[i] == handles[i]);
                assert(maps.take(n).last().contains_key(i as nat));
                assert(maps.take(n).last()[i as nat] == handles.take(n - 1)[i]);
                assert(maps[n].dom().contains(i as nat));
            } else {
                assert(counters[n - 1] == i as nat);
                assert(maps[n].dom().contains(counters[n - 1]));
            }
        }
    }
}

/// The renumbering keeps the relative order of the positions it maps.
pub open spec fn renumbering_ordered(m: Map<nat, nat>) -> bool {
    forall|a: nat, b: nat| #![trigger m[a], m[b]]
        m.dom().contains(a) && m.dom().contains(b) && a < b ==> m[a] < m[b]
}

/// A counter that issues successive identifiers from a starting point.
pub struct IdCounter<T: Identifier> {
    id: T,
}

impl<T: Identifier> IdCounter<T> {
    /// The position the next issued identifier will occupy.
    pub closed spec fn value(&self) -> nat {
        self.id.value()
    }

    /// The held identifier is well formed.
    pub closed spec fn wf(&self) -> bool {
        self.id.wf()
    }

    /// The counter never stands past the domain's end.
    pub proof fn lemma_counter_bounds(&self)
        requires
            self.wf(),
        ensures
            self.value() <= T::max_value(),
            T::max_value() <= usize::MAX as nat,
    {
        self.id.lemma_wf_bounds();
        T::lemma_max_bound();
    }

    /// Return the value stored by this counter and advance it to the next
    /// one. The caller must know the domain is not exhausted.
    pub fn next(&mut self) -> (r: T)
        requires
            old(self).wf(),
            old(self).value() < T::max_value(),
        ensures
            final(self).wf(),
            final(self).value() == old(self).value() + 1,
            r.wf(),
            r.value() == old(self).value(),
    {
        let return_id = self.id;
        self.id = self.id.next();
        return_id
    }
}

impl<T: Identifier> Default for IdCounter<T> {
    /// A counter at the domain's first position.
    fn default() -> (r: Self)
        ensures
            r.wf(),
            r.value() == 0,
    {
        IdCounter { id: T::first() }
    }
}

/// A registry owning a mapping from identifier position to a shared,
/// lock-guarded object, together with the counter that assigns identifiers.
///
/// Concurrent structural mutation of one tracker is not safe: a single
/// coordinating thread must own the tracker, while the handles it hands out
/// may be used concurrently.
#[verifier::reject_recursive_types(T)]
pub struct IdTracker<I: Identifier, T: IdentifiedBy<I>> {
    objects: SparseIntMap<Handle<T>>,
    id_counter: IdCounter<I>,
}

impl<I: Identifier, T: IdentifiedBy<I>> IdTracker<I, T> {
    /// The live identifier positions and the handles stored under them.
    pub closed spec fn objects_map(&self) -> Map<nat, Handle<T>> {
        self.objects.contents()
    }

    /// The position the next issued identifier will occupy.
    pub closed spec fn counter_value(&self) -> nat {
        self.id_counter.value()
    }

    /// The identifier positions that are currently live.
    pub open spec fn live_ids(&self) -> Set<nat> {
        self.objects_map().dom()
    }

    /// Storage is sound, the counter is within its domain, and every live
    /// position was issued below the counter.
    pub closed spec fn wf(&self) -> bool {
        &&& self.objects.wf()
        &&& self.id_counter.wf()
        &&& self.objects.counter() <= self.id_counter.value()
    }

    /// A well-formed tracker holds finitely many live positions, all below
    /// the counter, which stays within the identifier domain.
    pub proof fn lemma_tracker_bounds(&self)
        requires
            self.wf(),
        ensures
            self.live_ids().finite(),
            self.live_ids().len() <= self.counter_value(),
            forall|k: nat| #[trigger] self.live_ids().contains(k) ==> k < self.counter_value(),
            self.counter_value() <= I::max_value(),
            I::max_value() <= usize::MAX as nat,
    {
        self.objects.lemma_wf_props();
        self.id_counter.lemma_counter_bounds();
        lemma_bounded_nat_set_finite(self.objects.contents().dom(), self.id_counter.value());
    }

    /// Get the object stored under `id`, if `id` is currently live. No side
    /// effects; the handle's object may still be mutated by other holders.
    pub fn get(&self, id: I) -> (r: Option<Handle<T>>)
        requires
            self.wf(),
            id.wf(),
        ensures
            match r {
                Some(h) => self.objects_map().contains_key(id.value()) && h == self.objects_map()[
                    id.value()],
                None => !self.objects_map().contains_key(id.value()),
            },
    {
        let k = id.to_index();
        self.objects.get(k)
    }

    /// Put a new object into the tracker: issue a fresh identifier, stamp
    /// the object with it, store the object behind a lock-guarded shared
    /// handle under the identifier's position, and return the handle.
    ///
    /// The caller must know the identifier domain is not exhausted; issuing
    /// past the end would violate uniqueness.
    pub fn put(&mut self, element: T) -> (h: Handle<T>)
        requires
            old(self).wf(),
            old(self).counter_value() < I::max_value(),
        ensures
            final(self).wf(),
            final(self).counter_value() == old(self).counter_value() + 1,
            final(self).objects_map() == old(self).objects_map().insert(
                old(self).counter_value(),
                h,
            ),
    {
        let mut element = element;
        let new_id = self.id_counter.next();
        element.set_id(new_id);
        let guarded = Handle::new(element);
        proof {
            new_id.lemma_wf_bounds();
            I::lemma_max_bound();
        }
        let k = new_id.to_index();
        self.objects.put(k, Some(guarded.clone()));
        guarded
    }

    /// Clear the slot at `id`; the position is not reused until the next
    /// compaction. A no-op when `id` is not live.
    pub fn remove(&mut self, id: I)
        requires
            old(self).wf(),
            id.wf(),
        ensures
            final(self).wf(),
            final(self).counter_value() == old(self).counter_value(),
            final(self).objects_map() == old(self).objects_map().remove(id.value()),
    {
        let k = id.to_index();
        self.objects.rmv(k);
    }

    /// Insert an already shared object: issue a fresh identifier, stamp the
    /// object under its lock, and store the handle. Reports `LockCorrupted`
    /// without issuing anything when the object's lock is poisoned.
    fn insert(&mut self, element: Handle<T>) -> (r: Result<Handle<T>, IdError>)
        requires
            old(self).wf(),
            old(self).counter_value() < I::max_value(),
        ensures
            match r {
                Ok(h) => {
                    &&& h == element
                    &&& final(self).wf()
                    &&& final(self).counter_value() == old(self).counter_value() + 1
                    &&& final(self).objects_map() == old(self).objects_map().insert(
                        old(self).counter_value(),
                        element,
                    )
                },
                Err(e) => e == IdError::LockCorrupted && *final(self) == *old(self),
            },
    {
        let new_id = match element.lock() {
            Ok(mut guard) => {
                let id = self.id_counter.next();
                let obj = guard_get_mut(&mut guard);
                obj.set_id(id);
                id
            },
            Err(e) => {
                return Err(e);
            },
        };
        proof {
            new_id.lemma_wf_bounds();
            I::lemma_max_bound();
        }
        let k = new_id.to_index();
        self.objects.put(k, Some(element.clone()));
        Ok(element)
    }

    /// Get what the result of flattening this tracker would be: a compacted
    /// copy sharing the same objects, with every surviving object stamped
    /// with its new identifier, plus the old-to-new mapping. Reports
    /// `LockCorrupted` if any object's lock is poisoned.
    fn get_flattening(&self) -> (r: Result<(Self, IdMapping<I>), IdError>)
        requires
            self.wf(),
        ensures
            self.objects_map().dom().len() == 0 ==> r is Ok,
            match r {
                Ok(p) => {
                    &&& p.0.wf()
                    &&& p.1.wf()
                    &&& valid_renumbering(self.objects_map(), p.0.objects_map(), p.1@)
                    &&& p.0.counter_value() == self.objects_map().dom().len()
                },
                Err(e) => e == IdError::LockCorrupted,
            },
    {
        let ghost old_c = self.objects_map();
        let mut flattened = Self::default();
        let mut mapping = IdMapping::<I>::new();
        let bound = self.objects.next_key();
        proof {
            self.lemma_tracker_bounds();
            self.objects.lemma_wf_props();
            lemma_bounded_nat_set_finite(old_c.dom(), self.objects.counter());
        }
        let mut issued: usize = 0;
        let mut k: usize = 0;
        while k < bound
            invariant
                self.wf(),
                old_c == self.objects_map(),
                bound as nat == self.objects.counter(),
                bound as nat <= I::max_value(),
                I::max_value() <= usize::MAX as nat,
                forall|j: nat| #[trigger] old_c.dom().contains(j) ==> j < bound as nat,
                old_c.dom().finite(),
                old_c.dom().len() <= bound as nat,
                k <= bound,
                issued as nat == keys_below(old_c, k as int),
                issued <= k,
                flattened.wf(),
                flattened.counter_value() == issued as nat,
                mapping.wf(),
                forall|j: nat| #[trigger]
                    mapping@.contains_key(j) ==> j < k as nat && old_c.dom().contains(j),
                forall|j: nat|
                    j < k as nat && #[trigger] old_c.dom().contains(j) ==> mapping@.contains_key(
                        j,
                    ),
                forall|j: nat| #[trigger]
                    mapping@.contains_key(j) ==> mapping@[j] == keys_below(old_c, j as int),
                forall|x: nat| #[trigger]
                    flattened.objects_map().dom().contains(x) <==> x < issued as nat,
                forall|j: nat| #[trigger]
                    mapping@.contains_key(j) ==> flattened.objects_map().dom().contains(
                        mapping@[j],
                    ) && flattened.objects_map()[mapping@[j]] == old_c[j],
            decreases bound - k,
        {
            match self.objects.get(k) {
                Some(handle) => {
                    proof {
                        assert(old_c.dom().contains(k as nat));
                        assert(keys_below(old_c, k + 1) == keys_below(old_c, k as int) + 1);
                        lemma_keys_below_monotone(old_c, k + 1, bound as int);
                        lemma_keys_below_all(old_c, bound as int);
                    }
                    match flattened.insert(handle) {
                        Ok(_) => {},
                        Err(e) => {
                            proof {
                                if old_c.dom().len() == 0 {
                                    old_c.dom().lemma_len0_is_empty();
                                }
                            }
                            return Err(e);
                        },
                    }
                    let old_id = match I::from_index(k) {
                        Ok(v) => v,
                        Err(_) => vstd::pervasive::unreached(),
                    };
                    let new_id = match I::from_index(issued) {
                        Ok(v) => v,
                        Err(_) => vstd::pervasive::unreached(),
                    };
                    mapping.push_pair(old_id, new_id);
                    issued += 1;
                },
                None => {
                    proof {
                        assert(!old_c.dom().contains(k as nat));
                    }
                },
            }
            k += 1;
        }
        proof {
            let n = old_c.dom().len();
            lemma_keys_below_all(old_c, bound as int);
            assert(issued as nat == n);
            assert forall|j: nat| #[trigger]
                mapping@.contains_key(j) implies mapping@[j] < n by {
                assert(keys_below(old_c, j as int + 1) == keys_below(old_c, j as int) + 1);
                lemma_keys_below_monotone(old_c, j as int + 1, bound as int);
            }
            assert forall|a: nat, b: nat| #![trigger mapping@[a], mapping@[b]]
                mapping@.contains_key(a) && mapping@.contains_key(b) && a != b
                    implies mapping@[a] != mapping@[b] by {
                if a < b {
                    assert(keys_below(old_c, a as int + 1) == keys_below(old_c, a as int) + 1);
                    lemma_keys_below_monotone(old_c, a as int + 1, b as int);
                } else {
                    assert(keys_below(old_c, b as int + 1) == keys_below(old_c, b as int) + 1);
                    lemma_keys_below_monotone(old_c, b as int + 1, a as int);
                }
            }
            assert(valid_renumbering(old_c, flattened.objects_map(), mapping@));
        }
        Ok((flattened, mapping))
    }

    /// Flatten this tracker, collapsing the gaps left by removals: every
    /// surviving object is renumbered contiguously from the domain's first
    /// position, stamped with its new identifier, and the full old-to-new
    /// mapping is returned. Reports `LockCorrupted` without touching the
    /// tracker's own state if any object's lock is poisoned.
    pub fn flatten(&mut self) -> (r: Result<IdMapping<I>, IdError>)
        requires
            old(self).wf(),
        ensures
            old(self).objects_map().dom().len() == 0 ==> r is Ok,
            match r {
                Ok(m) => {
                    &&& final(self).wf()
                    &&& m.wf()
                    &&& valid_renumbering(old(self).objects_map(), final(self).objects_map(), m@)
                    &&& final(self).counter_value() == old(self).objects_map().dom().len()
                },
                Err(e) => e == IdError::LockCorrupted && *final(self) == *old(self),
            },
    {
        match self.get_flattening() {
            Ok(p) => {
                let (flattened, mapping) = p;
                let IdTracker { objects, id_counter } = flattened;
                self.objects = objects;
                self.id_counter = id_counter;
                Ok(mapping)
            },
            Err(e) => Err(e),
        }
    }

    /// Flatten this tracker, then hand the resulting old-to-new mapping to
    /// each supplied store, in the order supplied. If flattening itself
    /// fails, no store is touched.
    pub fn flatten_with<S: UpdatableIdStore<I>>(&mut self, stores: &mut Vec<S>) -> (r: Result<
        IdMapping<I>,
        IdError,
    >)
        requires
            old(self).wf(),
            forall|j: int|
                0 <= j < old(stores)@.len() ==> (#[trigger] old(stores)@[j].held_ids()).subset_of(
                    old(self).live_ids(),
                ),
        ensures
            old(self).objects_map().dom().len() == 0 ==> r is Ok,
            match r {
                Ok(m) => {
                    &&& final(self).wf()
                    &&& m.wf()
                    &&& valid_renumbering(old(self).objects_map(), final(self).objects_map(), m@)
                    &&& final(self).counter_value() == old(self).objects_map().dom().len()
                    &&& final(stores)@.len() == old(stores)@.len()
                    &&& forall|j: int|
                        0 <= j < old(stores)@.len() ==> (#[trigger] final(stores)@[j].held_ids())
                            =~= old(stores)@[j].held_ids().map(|x: nat| m@[x])
                },
                Err(e) => {
                    &&& e == IdError::LockCorrupted
                    &&& *final(self) == *old(self)
                    &&& *final(stores) == *old(stores)
                },
            },
    {
        let map = match self.flatten() {
            Ok(vals) => vals,
            Err(e) => {
                return Err(e);
            },
        };
        let n = stores.len();
        let mut i: usize = 0;
        while i < n
            invariant
                map.wf(),
                n == stores@.len(),
                n == old(stores)@.len(),
                i <= n,
                forall|j: int| i <= j < n ==> stores@[j] == old(stores)@[j],
                forall|j: int|
                    0 <= j < n ==> (#[trigger] old(stores)@[j].held_ids()).subset_of(map@.dom()),
                forall|a: nat, b: nat| #![trigger map@[a], map@[b]]
                    map@.dom().contains(a) && map@.dom().contains(b) && a != b ==> map@[a]
                        != map@[b],
                forall|j: int|
                    0 <= j < i ==> (#[trigger] stores@[j].held_ids()) =~= old(
                        stores,
                    )@[j].held_ids().map(|x: nat| map@[x]),
            decreases n - i,
        {
            stores[i].update_ids(&map);
            i += 1;
        }
        Ok(map)
    }
}

impl<I: Identifier, T: IdentifiedBy<I>> Default for IdTracker<I, T> {
    /// An empty tracker whose counter stands at the domain's first position.
    fn default() -> (r: Self)
        ensures
            r.wf(),
            r.objects_map() == Map::<nat, Handle<T>>::empty(),
            r.counter_value() == 0,
    {
        IdTracker {
            objects: <SparseIntMap<Handle<T>> as IntMap<Handle<T>>>::empty(),
            id_counter: IdCounter::default(),
        }
    }
}

} // verus!
