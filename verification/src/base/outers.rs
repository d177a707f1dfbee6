//! The caller-facing identifier contract, and the capability of being
//! identified by one.

use vstd::prelude::*;

use crate::errors::IdError;

verus! {

/// An identifier whose successor can be taken directly, once the caller has
/// ruled out exhaustion.
///
/// This trait should be implemented once for every [`IdentifiedBy`]
/// implementation.
pub trait Identifier: Sized + Copy {
    /// The position this identifier occupies in its domain.
    spec fn value(self) -> nat;

    /// The greatest position the domain can represent.
    spec fn max_value() -> nat;

    /// Well-formedness: the position lies within the domain.
    spec fn wf(self) -> bool;

    /// The domain is bounded by what an index can address.
    proof fn lemma_max_bound()
        ensures
            Self::max_value() <= usize::MAX as nat,
    ;

    /// A well-formed identifier lies within the domain.
    proof fn lemma_wf_bounds(self)
        requires
            self.wf(),
        ensures
            self.value() <= Self::max_value(),
    ;

    /// The first identifier of this domain.
    fn first() -> (r: Self)
        ensures
            r.wf(),
            r.value() == 0,
    ;

    /// The identifier after this one. The caller must know the domain is not
    /// exhausted; issuing past the end would violate uniqueness.
    fn next(self) -> (r: Self)
        requires
            self.wf(),
            self.value() < Self::max_value(),
        ensures
            r.wf(),
            r.value() == self.value() + 1,
    ;

    /// The identifier at index `i`, or `RangeConversionFailure` when `i`
    /// exceeds what this domain can represent.
    fn from_index(i: usize) -> (r: Result<Self, IdError>)
        ensures
            match r {
                Ok(id) => i as nat <= Self::max_value() && id.wf() && id.value() == i as nat,
                Err(e) => i as nat > Self::max_value() && e == IdError::RangeConversionFailure,
            },
    ;

    /// The index this identifier occupies. Within the domain this conversion
    /// is always exact.
    fn to_index(self) -> (i: usize)
        requires
            self.wf(),
        ensures
            i as nat == self.value(),
    ;

    /// Whether the two identifiers occupy the same position.
    fn eq_id(self, other: Self) -> (b: bool)
        ensures
            b == (self.value() == other.value()),
    ;
}

/// An object which can be identified purely from an [`Identifier`].
///
/// This trait should be implemented once for every [`Identifier`]
/// implementation. `set_id` is meant for the tracker that owns the object's
/// slot, not for consumers.
pub trait IdentifiedBy<I: Identifier>: Sized {
    /// The identifier currently stamped on this object.
    spec fn id_of(&self) -> I;

    /// Get the currently stored identifier.
    fn get_id(&self) -> (r: I)
        ensures
            r == self.id_of(),
    ;

    /// Set the identifier of this object.
    fn set_id(&mut self, id: I)
        ensures
            final(self).id_of() == id,
    ;
}

} // verus!
