//! Shared handles and locks of the standard library, as far as the catalog
//! needs them.
//!
//! The library itself never takes a lock. Its maps, tables and keyspaces are
//! plain values whose functions say exactly what they do; what is shared
//! between threads is put behind a lock when it is made, and whoever shares it
//! takes that lock around each call.
//!
//! The three functions marked as trusted make one call into the standard
//! library each; their contracts are taken on trust from its documentation.

use vstd::prelude::*;
use std::sync::{Arc, RwLock};

verus! {

/// `std::sync::RwLock`: a lock that admits many readers or one writer.
#[verifier::external_type_specification]
#[verifier::external_body]
#[verifier::reject_recursive_types(T)]
pub struct ExRwLock<T: ?Sized>(RwLock<T>);

/// `RwLock::new`: a lock around `value`. Nothing is claimed of the lock.
#[verifier::external_body]
pub(crate) fn lock_new<T>(value: T) -> RwLock<T> {
    RwLock::new(value)
}

/// `Arc::clone`: one more handle to the same value.
#[verifier::external_body]
pub(crate) fn share<T>(handle: &Arc<T>) -> (r: Arc<T>)
    ensures
        r == *handle,
{
    Arc::clone(handle)
}

/// `Arc::strong_count`: the number of handles to the value, this one
/// counted. Other threads may take and drop handles at any time, so only the
/// lower bound is claimed.
#[verifier::external_body]
pub(crate) fn strong_count<T>(handle: &Arc<T>) -> (n: usize)
    ensures
        n >= 1,
{
    Arc::strong_count(handle)
}

/// A value that threads share: the value behind a lock, with a record of
/// what it was when it was put there.
///
/// What is behind the lock now is for the threads that take the lock to
/// know; no contract of the library speaks of it.
#[verifier::reject_recursive_types(T)]
pub struct Shared<T> {
    lock: RwLock<T>,
    made_with: Ghost<T>,
}

impl<T> Shared<T> {
    /// The value that was put behind the lock.
    pub closed spec fn made_with(&self) -> T {
        self.made_with@
    }

    /// Puts `value` behind a lock.
    pub fn new(value: T) -> (r: Self)
        ensures
            r.made_with() == value,
    {
        let ghost made_with = value;
        Shared { lock: lock_new(value), made_with: Ghost(made_with) }
    }

    /// The lock. A thread that wants to read or change the value takes it,
    /// calls one function of the value, and gives it back.
    pub fn as_lock(&self) -> (r: &RwLock<T>) {
        &self.lock
    }
}

} // verus!
