//! The registry utilities: trackers, linkers, and the remapping capability
//! that ties them together across compactions.

pub mod handles;
pub mod linkers;
pub mod mappings;
pub mod trackers;

use vstd::prelude::*;

use crate::base::outers::Identifier;
use crate::utils::mappings::IdMapping;

verus! {

/// The capability of structures which store identifiers and can accept a
/// bulk old-to-new remapping.
///
/// `held_ids` is the set of identifier positions the store holds. The
/// mapping handed to `update_ids` must cover every held identifier — an
/// incomplete remapping would leave the store in an unknown state — and must
/// not collapse two held identifiers into one.
pub trait UpdatableIdStore<I: Identifier> {
    /// The identifier positions this store currently holds.
    spec fn held_ids(&self) -> Set<nat>;

    /// Replace every identifier in this store with its image under
    /// `mapping`.
    fn update_ids(&mut self, mapping: &IdMapping<I>)
        requires
            mapping.wf(),
            old(self).held_ids().subset_of(mapping@.dom()),
            forall|a: nat, b: nat| #![trigger mapping@[a], mapping@[b]]
                old(self).held_ids().contains(a) && old(self).held_ids().contains(b) && a != b
                    ==> mapping@[a] != mapping@[b],
        ensures
            final(self).held_ids() =~= old(self).held_ids().map(|x: nat| mapping@[x]),
    ;
}

} // verus!
