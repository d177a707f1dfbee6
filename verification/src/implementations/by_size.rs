//! The fixed-width identifier domains: 8, 16, 32, 64 and 128 bits.
//!
//! A domain never reaches past what an index can address, so the widest
//! domains are capped at `usize::MAX` on the host in use.

use vstd::prelude::*;

use crate::base::inners::IdImpl;
use crate::errors::IdError;

verus! {

/// An 8-bit identifier domain.
#[derive(Clone, Copy, PartialEq, Eq, Debug, Hash)]
pub struct Id8(u8);

impl IdImpl for Id8 {
    closed spec fn value(self) -> nat {
        self.0 as nat
    }

    closed spec fn max_value() -> nat {
        u8::MAX as nat
    }

    closed spec fn wf(self) -> bool {
        true
    }

    proof fn lemma_max_bound() {
    }

    proof fn lemma_wf_bounds(self) {
    }

    fn first() -> (r: Self) {
        Id8(0)
    }

    fn next(self) -> (r: Result<Self, IdError>) {
        if self.0 == u8::MAX {
            Err(IdError::IdentifierExhausted)
        } else {
            Ok(Id8(self.0 + 1))
        }
    }

    fn from_index(i: usize) -> (r: Result<Self, IdError>) {
        if i <= u8::MAX as usize {
            Ok(Id8(i as u8))
        } else {
            Err(IdError::RangeConversionFailure)
        }
    }

    fn to_index(self) -> (i: usize) {
        self.0 as usize
    }

    fn eq_impl(self, other: Self) -> (b: bool) {
        self.0 == other.0
    }
}

/// A 16-bit identifier domain.
#[derive(Clone, Copy, PartialEq, Eq, Debug, Hash)]
pub struct Id16(u16);

impl IdImpl for Id16 {
    closed spec fn value(self) -> nat {
        self.0 as nat
    }

    closed spec fn max_value() -> nat {
        u16::MAX as nat
    }

    closed spec fn wf(self) -> bool {
        true
    }

    proof fn lemma_max_bound() {
    }

    proof fn lemma_wf_bounds(self) {
    }

    fn first() -> (r: Self) {
        Id16(0)
    }

    fn next(self) -> (r: Result<Self, IdError>) {
        if self.0 == u16::MAX {
            Err(IdError::IdentifierExhausted)
        } else {
            Ok(Id16(self.0 + 1))
        }
    }

    fn from_index(i: usize) -> (r: Result<Self, IdError>) {
        if i <= u16::MAX as usize {
            Ok(Id16(i as u16))
        } else {
            Err(IdError::RangeConversionFailure)
        }
    }

    fn to_index(self) -> (i: usize) {
        self.0 as usize
    }

    fn eq_impl(self, other: Self) -> (b: bool) {
        self.0 == other.0
    }
}

/// A 32-bit identifier domain.
#[derive(Clone, Copy, PartialEq, Eq, Debug, Hash)]
pub struct Id32(u32);

impl IdImpl for Id32 {
    closed spec fn value(self) -> nat {
        self.0 as nat
    }

    closed spec fn max_value() -> nat {
        u32::MAX as nat
    }

    closed spec fn wf(self) -> bool {
        true
    }

    proof fn lemma_max_bound() {
    }

    proof fn lemma_wf_bounds(self) {
    }

    fn first() -> (r: Self) {
        Id32(0)
    }

    fn next(self) -> (r: Result<Self, IdError>) {
        if self.0 == u32::MAX {
            Err(IdError::IdentifierExhausted)
        } else {
            Ok(Id32(self.0 + 1))
        }
    }

    fn from_index(i: usize) -> (r: Result<Self, IdError>) {
        if i <= u32::MAX as usize {
            Ok(Id32(i as u32))
        } else {
            Err(IdError::RangeConversionFailure)
        }
    }

    fn to_index(self) -> (i: usize) {
        self.0 as usize
    }

    fn eq_impl(self, other: Self) -> (b: bool) {
        self.0 == other.0
    }
}

/// A 64-bit identifier domain, capped at what an index can address.
#[derive(Clone, Copy, PartialEq, Eq, Debug, Hash)]
pub struct Id64(u64);

impl IdImpl for Id64 {
    closed spec fn value(self) -> nat {
        self.0 as nat
    }

    closed spec fn max_value() -> nat {
        if u64::MAX as nat <= usize::MAX as nat {
            u64::MAX as nat
        } else {
            usize::MAX as nat
        }
    }

    closed spec fn wf(self) -> bool {
        self.0 as nat <= Self::max_value()
    }

    proof fn lemma_max_bound() {
    }

    proof fn lemma_wf_bounds(self) {
    }

    fn first() -> (r: Self) {
        Id64(0)
    }

    fn next(self) -> (r: Result<Self, IdError>) {
        if self.0 >= usize::MAX as u64 {
            Err(IdError::IdentifierExhausted)
        } else {
            Ok(Id64(self.0 + 1))
        }
    }

    fn from_index(i: usize) -> (r: Result<Self, IdError>) {
        Ok(Id64(i as u64))
    }

    fn to_index(self) -> (i: usize) {
        self.0 as usize
    }

    fn eq_impl(self, other: Self) -> (b: bool) {
        self.0 == other.0
    }
}

/// A 128-bit identifier domain, capped at what an index can address.
#[derive(Clone, Copy, PartialEq, Eq, Debug, Hash)]
pub struct Id128(u128);

impl IdImpl for Id128 {
    closed spec fn value(self) -> nat {
        self.0 as nat
    }

    closed spec fn max_value() -> nat {
        usize::MAX as nat
    }

    closed spec fn wf(self) -> bool {
        self.0 as nat <= Self::max_value()
    }

    proof fn lemma_max_bound() {
    }

    proof fn lemma_wf_bounds(self) {
    }

    fn first() -> (r: Self) {
        Id128(0)
    }

    fn next(self) -> (r: Result<Self, IdError>) {
        if self.0 >= usize::MAX as u128 {
            Err(IdError::IdentifierExhausted)
        } else {
            Ok(Id128(self.0 + 1))
        }
    }

    fn from_index(i: usize) -> (r: Result<Self, IdError>) {
        Ok(Id128(i as u128))
    }

    fn to_index(self) -> (i: usize) {
        self.0 as usize
    }

    fn eq_impl(self, other: Self) -> (b: bool) {
        self.0 == other.0
    }
}

/// The 8-bit domain ends exactly at the byte's maximum value.
pub proof fn lemma_id8_max()
    ensures
        <Id8 as IdImpl>::max_value() == u8::MAX as nat,
{
}

/// The 16-bit domain ends exactly at its width's maximum value.
pub proof fn lemma_id16_max()
    ensures
        <Id16 as IdImpl>::max_value() == u16::MAX as nat,
{
}

/// The 32-bit domain ends exactly at its width's maximum value.
pub proof fn lemma_id32_max()
    ensures
        <Id32 as IdImpl>::max_value() == u32::MAX as nat,
{
}

/// The 64-bit domain ends at what an index can address on the host.
pub proof fn lemma_id64_max()
    ensures
        <Id64 as IdImpl>::max_value() == usize::MAX as nat,
{
}

/// The 128-bit domain ends at what an index can address on the host.
pub proof fn lemma_id128_max()
    ensures
        <Id128 as IdImpl>::max_value() == usize::MAX as nat,
{
}

} // verus!
