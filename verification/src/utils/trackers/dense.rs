//! The tracker over the dense backend: identifiers stay contiguous with the
//! backing sequence, and flattening renumbers in ascending order.

use vstd::prelude::*;

use crate::base::outers::IdentifiedBy;
use crate::base::outers::Identifier;
use crate::errors::IdError;
use crate::intmaps::dense::DenseIntMap;
use crate::utils::handles::Handle;
use crate::utils::mappings::IdMapping;
use crate::utils::trackers::generic::IdTracker;
use crate::utils::trackers::inner::IdTrackerInner;
use crate::utils::UpdatableIdStore;

verus! {

/// An [`IdTracker`] whose storage is the dense, index-addressed backend.
#[verifier::reject_recursive_types(T)]
pub struct DenseIdTracker<I: Identifier, T: IdentifiedBy<I>> {
    inner: IdTrackerInner<I, T, DenseIntMap<Handle<T>>>,
}

impl<I: Identifier, T: IdentifiedBy<I>> IdTracker<I, T> for DenseIdTracker<I, T> {
    closed spec fn objects_map(&self) -> Map<nat, Handle<T>> {
        self.inner.objects_map()
    }

    closed spec fn counter_value(&self) -> nat {
        self.inner.counter_value()
    }

    closed spec fn wf(&self) -> bool {
        self.inner.wf()
    }

    closed spec fn flatten_ordered() -> bool {
        <IdTrackerInner<I, T, DenseIntMap<Handle<T>>> as IdTracker<I, T>>::flatten_ordered()
    }

    proof fn lemma_tracker_bounds(&self) {
        self.inner.lemma_tracker_bounds();
    }

    fn get(&self, id: I) -> (r: Option<Handle<T>>) {
        self.inner.get(id)
    }

    fn put(&mut self, element: T) -> (h: Handle<T>) {
        self.inner.put(element)
    }

    fn flatten(&mut self) -> (r: Result<IdMapping<I>, IdError>) {
        self.inner.flatten()
    }

    fn flatten_with<S: UpdatableIdStore<I>>(&mut self, stores: &mut Vec<S>) -> (r: Result<
        IdMapping<I>,
        IdError,
    >) {
        self.inner.flatten_with(stores)
    }
}

impl<I: Identifier, T: IdentifiedBy<I>> DenseIdTracker<I, T> {
    /// Clear the slot at `id`; the position is not reused until the next
    /// flattening. A no-op when `id` is not live.
    pub fn remove(&mut self, id: I)
        requires
            old(self).wf(),
            id.wf(),
        ensures
            final(self).wf(),
            final(self).counter_value() == old(self).counter_value(),
            final(self).objects_map() == old(self).objects_map().remove(id.value()),
    {
        self.inner.remove(id);
    }
}

/// The dense tracker renumbers in ascending position order on flattening.
pub proof fn lemma_dense_tracker_ordered<I: Identifier, T: IdentifiedBy<I>>()
    ensures
        <DenseIdTracker<I, T> as IdTracker<I, T>>::flatten_ordered(),
{
}

impl<I: Identifier, T: IdentifiedBy<I>> Default for DenseIdTracker<I, T> {
    /// An empty tracker whose counter stands at the domain's first position.
    fn default() -> (r: Self)
        ensures
            r.wf(),
            r.objects_map() == Map::<nat, Handle<T>>::empty(),
            r.counter_value() == 0,
    {
        DenseIdTracker { inner: Default::default() }
    }
}

} // verus!
