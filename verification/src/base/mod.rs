//! The identifier abstractions: the inner, width-specific contract and the
//! outer, caller-facing one.

pub mod inners;
pub mod outers;
