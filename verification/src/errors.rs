//! The error taxonomy of the library.

use vstd::prelude::*;

verus! {

/// Every failure the library can report.
///
/// `IdentifierExhausted` and `IncompleteRemap` are defect-class failures: a
/// caller cannot recover from them without violating the library's
/// invariants. `RangeConversionFailure` and `LockCorrupted` are recoverable
/// by the immediate caller.
#[derive(Clone, Copy, Debug, PartialEq, Eq, Structural)]
pub enum IdError {
    /// The identifier domain's maximum value has been reached; issuing
    /// further identifiers would violate uniqueness.
    IdentifierExhausted,
    /// A bounded integer does not fit the chosen identifier width.
    RangeConversionFailure,
    /// An object's lock was left in an indeterminate state by a prior holder
    /// that failed while holding it.
    LockCorrupted,
    /// A store received an old-to-new mapping lacking an identifier that the
    /// store holds.
    IncompleteRemap,
}

impl IdError {
    /// A short description of the failure.
    pub fn describe(&self) -> (r: &'static str)
        ensures
            r@.len() > 0,
    {
        let s: &'static str = match self {
            IdError::IdentifierExhausted => "the identifier domain is exhausted",
            IdError::RangeConversionFailure => "the value does not fit the identifier width",
            IdError::LockCorrupted => "an object's lock was corrupted by a prior holder",
            IdError::IncompleteRemap => "an identifier remapping was incomplete",
        };
        proof {
            reveal_strlit("the identifier domain is exhausted");
            reveal_strlit("the value does not fit the identifier width");
            reveal_strlit("an object's lock was corrupted by a prior holder");
            reveal_strlit("an identifier remapping was incomplete");
        }
        s
    }
}

} // verus!
