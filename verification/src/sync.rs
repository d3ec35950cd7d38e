//! The reader-writer lock of the standard library, as the verifier is to see
//! it.
//!
//! Nothing in this file is proved. It declares the lock and its guards, and
//! the few functions through which the store uses them. Of a new lock it
//! says what the lock was made with. Beyond that no contract here promises
//! anything about a result: what a lock guards is shared, so what is found
//! behind it is whatever its last writer left there, and whether the lock can
//! be had at all depends on what became of earlier holders.

use crate::contents::Contents;
use crate::storage::Storage;
use std::ops::{Deref, DerefMut};
use std::sync::{PoisonError, RwLock, RwLockReadGuard, RwLockWriteGuard};
use vstd::prelude::*;

verus! {

/// `std::sync::RwLock`, opaque to the verifier.
#[verifier::external_type_specification]
#[verifier::external_body]
#[verifier::reject_recursive_types(T)]
pub struct ExRwLock<T: ?Sized>(RwLock<T>);

/// `std::sync::RwLockReadGuard`, opaque to the verifier.
#[verifier::external_type_specification]
#[verifier::external_body]
#[verifier::reject_recursive_types(T)]
pub struct ExRwLockReadGuard<'a, T: ?Sized>(RwLockReadGuard<'a, T>);

/// `std::sync::RwLockWriteGuard`, opaque to the verifier.
#[verifier::external_type_specification]
#[verifier::external_body]
#[verifier::reject_recursive_types(T)]
pub struct ExRwLockWriteGuard<'a, T: ?Sized + 'a>(RwLockWriteGuard<'a, T>);

/// `std::sync::PoisonError`, opaque to the verifier.
#[verifier::external_type_specification]
#[verifier::external_body]
#[verifier::reject_recursive_types(T)]
pub struct ExPoisonError<T>(PoisonError<T>);

/// What the storage held around which a lock was made. This is a fact of
/// the lock's making, and says nothing of what lies behind the lock later.
pub uninterp spec fn made_with(lock: RwLock<Storage>) -> Contents;

/// `RwLock::new` makes an unlocked lock around a value. The contract claims
/// that the lock was made with what that value held, and nothing else.
#[verifier::external_body]
pub(crate) fn new_lock(storage: Storage) -> (lock: RwLock<Storage>)
    ensures
        made_with(lock) == storage@,
{
    RwLock::new(storage)
}

/// `RwLock::read` waits for shared access and returns a guard, or an error
/// if a writer panicked while it held the lock. Nothing is claimed of either.
///
/// The standard library lets this call panic where the calling thread holds
/// the lock already. That cannot arise through this crate: a guard never
/// leaves the operation that took it, and no operation takes the lock twice.
pub assume_specification<'a, T: ?Sized>[ RwLock::<T>::read ](lock: &'a RwLock<T>) -> (r: Result<
    RwLockReadGuard<'a, T>,
    PoisonError<RwLockReadGuard<'a, T>>,
>)
;

/// `RwLock::write` waits for exclusive access and returns a guard, or an
/// error if a writer panicked while it held the lock. Nothing is claimed of
/// either.
///
/// As for `RwLock::read`, the standard library lets this call panic where the
/// calling thread holds the lock already, which cannot arise through this
/// crate.
pub assume_specification<'a, T: ?Sized>[ RwLock::<T>::write ](lock: &'a RwLock<T>) -> (r: Result<
    RwLockWriteGuard<'a, T>,
    PoisonError<RwLockWriteGuard<'a, T>>,
>)
;

/// `Deref::deref` of a read guard lends the guarded value. Nothing is claimed
/// of the value: it is what the last writer left.
pub assume_specification<'a, 'b, T: ?Sized>[ <RwLockReadGuard<'a, T> as Deref>::deref ](
    guard: &'b RwLockReadGuard<'a, T>,
) -> (r: &'b T)
;

/// `DerefMut::deref_mut` of a write guard lends the guarded value for
/// change. Nothing is claimed of the value found, nor of the guard once the
/// loan has ended.
pub assume_specification<'a, 'b, T: ?Sized>[ <RwLockWriteGuard<'a, T> as DerefMut>::deref_mut ](
    guard: &'b mut RwLockWriteGuard<'a, T>,
) -> (r: &'b mut T)
;

} // verus!
