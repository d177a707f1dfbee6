//! The shared, lock-guarded handles that trackers hand out.
//!
//! A tracked object lives behind its own mutual-exclusion lock, shared by
//! reference counting. The lock's contents can be rewritten by any holder at
//! any time, so nothing persistent is promised about what a lock guards;
//! only the identity of a handle is tracked.

use std::sync::Arc;
use std::sync::Mutex;
use std::sync::MutexGuard;

use vstd::prelude::*;

use crate::errors::IdError;

verus! {

#[verifier::external_type_specification]
#[verifier::external_body]
#[verifier::reject_recursive_types(T)]
pub struct ExMutex<T: ?Sized>(Mutex<T>);

#[verifier::external_type_specification]
#[verifier::external_body]
#[verifier::reject_recursive_types(T)]
pub struct ExMutexGuard<'a, T: ?Sized + 'a>(MutexGuard<'a, T>);

/// Relies on `std::sync::Mutex::new` to create a fresh lock around `t`.
/// The lock is opaque: nothing is promised about what later acquisitions
/// observe, since any holder may rewrite the contents.
#[verifier::external_body]
fn mutex_new<T>(t: T) -> (m: Mutex<T>) {
    Mutex::new(t)
}

/// Relies on `std::sync::Mutex::lock`: a guard on success, or an error when
/// a prior holder left the lock poisoned. Which of the two comes back
/// depends on the run, so neither outcome is promised.
#[verifier::external_body]
fn mutex_lock<'a, T>(m: &'a Mutex<T>) -> (r: Result<MutexGuard<'a, T>, ()>) {
    match m.lock() {
        Ok(g) => Ok(g),
        Err(_) => Err(()),
    }
}

/// Relies on `std::sync::MutexGuard`'s `DerefMut` to reach the guarded
/// object. The object's current state is whatever the last holder left, so
/// nothing is promised of the value behind the returned reference.
#[verifier::external_body]
pub(crate) fn guard_get_mut<'a, 'b, T>(g: &'b mut MutexGuard<'a, T>) -> (r: &'b mut T) {
    &mut **g
}

/// Relies on `std::sync::Arc::clone`: the clone is another pointer to the
/// same allocation.
#[verifier::external_body]
fn arc_clone<T>(v: &Arc<T>) -> (r: Arc<T>)
    ensures
        r == *v,
{
    Arc::clone(v)
}

/// A shared, reference-counted view of one tracked object, guarded by that
/// object's own lock.
///
/// The handle may outlive the tracker slot it came from: the object persists
/// as long as any holder retains a handle, though it is no longer reachable
/// through the tracker once its slot is cleared.
#[verifier::reject_recursive_types(T)]
pub struct Handle<T> {
    ptr: Arc<Mutex<T>>,
}

impl<T> Handle<T> {
    /// Wrap `value` behind a fresh lock. No other holder can exist yet.
    pub fn new(value: T) -> (h: Handle<T>) {
        Handle { ptr: Arc::new(mutex_new(value)) }
    }

    /// Acquire the object's lock, or report `LockCorrupted` when a prior
    /// holder failed while holding it.
    pub fn lock<'a>(&'a self) -> (r: Result<MutexGuard<'a, T>, IdError>)
        ensures
            r matches Err(e) ==> e == IdError::LockCorrupted,
    {
        match mutex_lock(&*self.ptr) {
            Ok(g) => Ok(g),
            Err(_) => Err(IdError::LockCorrupted),
        }
    }
}

impl<T> Clone for Handle<T> {
    /// The clone shares the same lock and the same object.
    fn clone(&self) -> (r: Self)
        ensures
            r == *self,
    {
        Handle { ptr: arc_clone(&self.ptr) }
    }
}

} // verus!
