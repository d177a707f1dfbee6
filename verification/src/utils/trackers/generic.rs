//! The tracker contract, shared by every backend.

use vstd::prelude::*;

use crate::base::outers::IdentifiedBy;
use crate::base::outers::Identifier;
use crate::errors::IdError;
use crate::utils::handles::Handle;
use crate::utils::mappings::IdMapping;
use crate::utils::trackers::renumbering_ordered;
use crate::utils::trackers::valid_renumbering;
use crate::utils::UpdatableIdStore;

verus! {

/// A registry mapping identifier positions to shared, lock-guarded objects:
/// assigns identifiers on insertion, supports lookup, and compacts its
/// keyspace on demand, optionally cascading the renumbering into supplied
/// stores.
pub trait IdTracker<I: Identifier, T: IdentifiedBy<I>>: Sized {
    /// The live identifier positions and the handles stored under them.
    spec fn objects_map(&self) -> Map<nat, Handle<T>>;

    /// The position the next issued identifier will occupy.
    spec fn counter_value(&self) -> nat;

    /// The tracker's internal invariant.
    spec fn wf(&self) -> bool;

    /// Whether this tracker renumbers in ascending position order on
    /// flattening.
    spec fn flatten_ordered() -> bool;

    /// A well-formed tracker holds finitely many live positions, all below
    /// the counter, which stays within the identifier domain.
    proof fn lemma_tracker_bounds(&self)
        requires
            self.wf(),
        ensures
            self.objects_map().dom().finite(),
            self.objects_map().dom().len() <= self.counter_value(),
            forall|k: nat| #[trigger]
                self.objects_map().dom().contains(k) ==> k < self.counter_value(),
            self.counter_value() <= I::max_value(),
            I::max_value() <= usize::MAX as nat,
    ;

    /// Get the object stored under `id`, if `id` is currently live.
    fn get(&self, id: I) -> (r: Option<Handle<T>>)
        requires
            self.wf(),
            id.wf(),
        ensures
            match r {
                Some(h) => self.objects_map().contains_key(id.value()) && h == self.objects_map()[
                    id.value()],
                None => !self.objects_map().contains_key(id.value()),
            },
    ;

    /// Put a new object into the tracker: issue a fresh identifier, stamp
    /// the object with it, and return a shared handle to it. The caller
    /// must know the identifier domain is not exhausted.
    fn put(&mut self, element: T) -> (h: Handle<T>)
        requires
            old(self).wf(),
            old(self).counter_value() < I::max_value(),
        ensures
            final(self).wf(),
            final(self).counter_value() == old(self).counter_value() + 1,
            final(self).objects_map() == old(self).objects_map().insert(
                old(self).counter_value(),
                h,
            ),
    ;

    /// Flatten this tracker, collapsing the gaps left by removals: every
    /// surviving object is renumbered contiguously from the domain's first
    /// position, stamped with its new identifier, and the full old-to-new
    /// mapping is returned. Reports `LockCorrupted` without touching the
    /// tracker's own state if any object's lock is poisoned.
    fn flatten(&mut self) -> (r: Result<IdMapping<I>, IdError>)
        requires
            old(self).wf(),
        ensures
            old(self).objects_map().dom().len() == 0 ==> r is Ok,
            match r {
                Ok(m) => {
                    &&& final(self).wf()
                    &&& m.wf()
                    &&& valid_renumbering(old(self).objects_map(), final(self).objects_map(), m@)
                    &&& final(self).counter_value() == old(self).objects_map().dom().len()
                    &&& (Self::flatten_ordered() ==> renumbering_ordered(m@))
                },
                Err(e) => e == IdError::LockCorrupted && *final(self) == *old(self),
            },
    ;

    /// Flatten this tracker, then hand the resulting old-to-new mapping to
    /// each supplied store, in the order supplied. If flattening itself
    /// fails, no store is touched.
    fn flatten_with<S: UpdatableIdStore<I>>(&mut self, stores: &mut Vec<S>) -> (r: Result<
        IdMapping<I>,
        IdError,
    >)
        requires
            old(self).wf(),
            forall|j: int|
                0 <= j < old(stores)@.len() ==> (#[trigger] old(stores)@[j].held_ids()).subset_of(
                    old(self).objects_map().dom(),
                ),
        ensures
            old(self).objects_map().dom().len() == 0 ==> r is Ok,
            match r {
                Ok(m) => {
                    &&& final(self).wf()
                    &&& m.wf()
                    &&& valid_renumbering(old(self).objects_map(), final(self).objects_map(), m@)
                    &&& final(self).counter_value() == old(self).objects_map().dom().len()
                    &&& (Self::flatten_ordered() ==> renumbering_ordered(m@))
                    &&& final(stores)@.len() == old(stores)@.len()
                    &&& forall|j: int|
                        0 <= j < old(stores)@.len() ==> (#[trigger] final(stores)@[j].held_ids())
                            =~= old(stores)@[j].held_ids().map(|x: nat| m@[x])
                },
                Err(e) => {
                    &&& e == IdError::LockCorrupted
                    &&& *final(self) == *old(self)
                    &&& *final(stores) == *old(stores)
                },
            },
    ;
}

} // verus!
