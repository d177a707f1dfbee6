//! The width-specific identifier contract, and the wrapper that equips it
//! with an exhaustion message.

use vstd::prelude::*;

use crate::base::outers::Identifier;
use crate::errors::IdError;

verus! {

/// A fixed-width identifier: a position in a bounded, monotonically
/// increasing sequence.
///
/// `value` is the position, `max_value` the greatest position the width can
/// represent (never past what an index can address), and `wf` holds of every
/// value the operations below produce.
pub trait IdImpl: Sized + Copy {
    /// The position this identifier occupies in its domain.
    spec fn value(self) -> nat;

    /// The greatest position the domain can represent.
    spec fn max_value() -> nat;

    /// Well-formedness: the position lies within the domain.
    spec fn wf(self) -> bool;

    /// The domain is bounded by what an index can address.
    proof fn lemma_max_bound()
        ensures
            Self::max_value() <= usize::MAX as nat,
    ;

    /// A well-formed identifier lies within the domain.
    proof fn lemma_wf_bounds(self)
        requires
            self.wf(),
        ensures
            self.value() <= Self::max_value(),
    ;

    /// The first identifier of this domain.
    fn first() -> (r: Self)
        ensures
            r.wf(),
            r.value() == 0,
    ;

    /// The successor of this identifier, or `IdentifierExhausted` when the
    /// domain has no further position.
    fn next(self) -> (r: Result<Self, IdError>)
        requires
            self.wf(),
        ensures
            match r {
                Ok(n) => self.value() < Self::max_value() && n.wf() && n.value() == self.value()
                    + 1,
                Err(e) => self.value() == Self::max_value() && e == IdError::IdentifierExhausted,
            },
    ;

    /// The identifier at index `i`, or `RangeConversionFailure` when `i`
    /// exceeds what this width can represent.
    fn from_index(i: usize) -> (r: Result<Self, IdError>)
        ensures
            match r {
                Ok(id) => i as nat <= Self::max_value() && id.wf() && id.value() == i as nat,
                Err(e) => i as nat > Self::max_value() && e == IdError::RangeConversionFailure,
            },
    ;

    /// The index this identifier occupies. Within the domain this conversion
    /// is always exact.
    fn to_index(self) -> (i: usize)
        requires
            self.wf(),
        ensures
            i as nat == self.value(),
    ;

    /// Whether the two identifiers occupy the same position.
    fn eq_impl(self, other: Self) -> (b: bool)
        ensures
            b == (self.value() == other.value()),
    ;
}

/// An [`IdImpl`] together with the message that explains an exhausted domain.
///
/// The message travels with every identifier issued from the same starting
/// point, so that whoever reaches the end of the domain can report why.
#[derive(Clone, Copy, PartialEq, Eq, Debug, Hash)]
pub struct IdInner<'a, T: IdImpl> {
    inner_type: T,
    out_of_ids_msg: &'a str,
}

impl<'a, T: IdImpl> IdInner<'a, T> {
    /// The position of the wrapped identifier.
    pub closed spec fn value(self) -> nat {
        self.inner_type.value()
    }

    /// Well-formedness of the wrapped identifier.
    pub closed spec fn wf(self) -> bool {
        self.inner_type.wf()
    }

    /// The exhaustion message this wrapper carries.
    pub closed spec fn message(self) -> Seq<char> {
        self.out_of_ids_msg@
    }

    /// Get the first identifier, and give it a message for all future
    /// identifiers to carry.
    pub fn first(out_of_ids_msg: &'a str) -> (r: Self)
        ensures
            r.wf(),
            r.value() == 0,
            r.message() == out_of_ids_msg@,
    {
        IdInner { inner_type: T::first(), out_of_ids_msg }
    }

    /// Get the identifier after this one. The caller must know the domain is
    /// not exhausted; issuing past the end would violate uniqueness.
    pub fn next(&self) -> (r: Self)
        requires
            self.wf(),
            self.value() < T::max_value(),
        ensures
            r.wf(),
            r.value() == self.value() + 1,
            r.message() == self.message(),
    {
        match self.inner_type.next() {
            Ok(n) => IdInner { inner_type: n, out_of_ids_msg: self.out_of_ids_msg },
            Err(_) => vstd::pervasive::unreached(),
        }
    }
}

/// The wrapper offers its width's domain unchanged: the caller-facing
/// maximum of `IdInner<T>` is exactly `T`'s.
pub proof fn lemma_id_inner_max<T: IdImpl>()
    ensures
        <IdInner<'static, T> as Identifier>::max_value() == T::max_value(),
{
}

impl<T: IdImpl> Identifier for IdInner<'static, T> {
    closed spec fn value(self) -> nat {
        self.inner_type.value()
    }

    closed spec fn max_value() -> nat {
        T::max_value()
    }

    closed spec fn wf(self) -> bool {
        self.inner_type.wf()
    }

    proof fn lemma_max_bound() {
        T::lemma_max_bound();
    }

    proof fn lemma_wf_bounds(self) {
        self.inner_type.lemma_wf_bounds();
    }

    fn first() -> (r: Self) {
        IdInner { inner_type: T::first(), out_of_ids_msg: "the identifier domain is exhausted" }
    }

    fn next(self) -> (r: Self) {
        match self.inner_type.next() {
            Ok(n) => IdInner { inner_type: n, out_of_ids_msg: self.out_of_ids_msg },
            Err(_) => vstd::pervasive::unreached(),
        }
    }

    fn from_index(i: usize) -> (r: Result<Self, IdError>) {
        match T::from_index(i) {
            Ok(inner) => Ok(
                IdInner {
                    inner_type: inner,
                    out_of_ids_msg: "the identifier domain is exhausted",
                },
            ),
            Err(e) => Err(e),
        }
    }

    fn to_index(self) -> (i: usize) {
        self.inner_type.to_index()
    }

    fn eq_id(self, other: Self) -> (b: bool) {
        self.inner_type.eq_impl(other.inner_type)
    }
}

} // verus!
