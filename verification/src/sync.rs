//! The synchronisation primitives of the standard library that the data
//! container is built on. Nothing here is proved: each item states what the
//! standard library documents of the call it makes.

use std::sync::Condvar;
use std::sync::Mutex;
use std::sync::MutexGuard;
use std::sync::RwLock;
use std::sync::RwLockReadGuard;
use std::sync::RwLockWriteGuard;
use vstd::prelude::*;

use crate::record::Access;
use crate::record::DataLocalState;
use crate::record::DataLockedState;

verus! {

/// `std::sync::Mutex`, of which nothing is known but the functions below.
#[verifier::external_type_specification]
#[verifier::external_body]
#[verifier::reject_recursive_types(T)]
pub struct ExMutex<T: ?Sized>(Mutex<T>);

/// `std::sync::MutexGuard`: the lock of a `Mutex`, held.
#[verifier::external_type_specification]
#[verifier::external_body]
#[verifier::reject_recursive_types(T)]
pub struct ExMutexGuard<'a, T: ?Sized + 'a>(MutexGuard<'a, T>);

/// `std::sync::Condvar`.
#[verifier::external_type_specification]
#[verifier::external_body]
pub struct ExCondvar(Condvar);

/// `std::sync::RwLock`.
#[verifier::external_type_specification]
#[verifier::external_body]
#[verifier::reject_recursive_types(T)]
pub struct ExRwLock<T: ?Sized>(RwLock<T>);

/// `std::sync::RwLockReadGuard`: shared access to the value of a `RwLock`,
/// held.
#[verifier::external_type_specification]
#[verifier::external_body]
#[verifier::reject_recursive_types(T)]
pub struct ExRwLockReadGuard<'a, T: ?Sized>(RwLockReadGuard<'a, T>);

/// `std::sync::RwLockWriteGuard`: exclusive access to the value of a
/// `RwLock`, held.
#[verifier::external_type_specification]
#[verifier::external_body]
#[verifier::reject_recursive_types(T)]
pub struct ExRwLockWriteGuard<'a, T: ?Sized + 'a>(RwLockWriteGuard<'a, T>);

/// The record that a held lock gives access to. It is what `load_record`
/// reads, what `store_record` has written, and what `wait_until_ready` found
/// ready.
pub uninterp spec fn guarded_record(guard: MutexGuard<'_, DataLockedState>) -> DataLockedState;

/// The record that a lock was created around.
pub uninterp spec fn created_with(lock: Mutex<DataLockedState>) -> DataLockedState;

/// Whether `record` is what some lock held at some moment gave access to:
/// it was read from under the lock, or written under it.
pub open spec fn under_a_lock(record: DataLockedState) -> bool {
    exists|guard: MutexGuard<'static, DataLockedState>| #[trigger] guarded_record(guard) == record
}

/// `Mutex::new`: a fresh, unlocked mutex around `record`.
#[verifier::external_body]
pub(crate) fn new_record_lock(record: DataLockedState) -> (lock: Mutex<DataLockedState>)
    ensures
        created_with(lock) == record,
{
    Mutex::new(record)
}

/// `Condvar::new`: a condition variable with no waiter.
#[verifier::external_body]
pub(crate) fn new_condvar() -> (condvar: Condvar) {
    Condvar::new()
}

/// `RwLock::new`: a fresh, unlocked reader-writer lock around `value`.
#[verifier::external_body]
pub(crate) fn new_value_lock<T>(value: T) -> (lock: RwLock<T>) {
    RwLock::new(value)
}

/// `Mutex::lock`: blocks until the lock is held. Nothing is known of the
/// record found under it. The lock is only ever held by functions of this
/// crate, none of which panics while holding it, so it is never poisoned;
/// were it poisoned, it would be taken all the same. The call does not
/// unwind.
#[verifier::external_body]
pub(crate) fn lock_record<'a>(lock: &'a Mutex<DataLockedState>) -> (guard: MutexGuard<
    'a,
    DataLockedState,
>)
    opens_invariants none
    no_unwind
{
    match lock.lock() {
        Ok(guard) => guard,
        Err(poisoned) => poisoned.into_inner(),
    }
}

/// `MutexGuard::deref`: reads the record through a held lock. The call does
/// not unwind.
#[verifier::external_body]
pub(crate) fn load_record<'a>(guard: &MutexGuard<'a, DataLockedState>) -> (record: DataLockedState)
    ensures
        record == guarded_record(*guard),
    opens_invariants none
    no_unwind
{
    **guard
}

/// `MutexGuard::deref_mut`: overwrites the record through a held lock. The
/// call does not unwind.
#[verifier::external_body]
pub(crate) fn store_record<'a>(guard: &mut MutexGuard<'a, DataLockedState>, record: DataLockedState)
    ensures
        guarded_record(*final(guard)) == record,
    opens_invariants none
    no_unwind
{
    **guard = record;
}

/// `Condvar::wait_while`: releases the lock and parks the thread until it is
/// notified and the record found under the lock no longer makes `local` wait
/// for the given access; returns with the lock held again. The call does not
/// return as long as the record keeps `local` waiting, and it fails for good
/// on a poisoned lock. Nothing in this crate panics while it holds the lock,
/// so the lock is never poisoned.
#[verifier::external_body]
pub(crate) fn wait_until_ready<'a>(
    condvar: &Condvar,
    guard: MutexGuard<'a, DataLockedState>,
    local: &DataLocalState,
    access: Access,
) -> (woken: MutexGuard<'a, DataLockedState>)
    ensures
        local.spec_is_ready(access, guarded_record(woken)),
{
    condvar.wait_while(guard, |record| local.must_wait(access, record)).unwrap()
}

/// `Condvar::notify_all`: wakes every thread parked on `condvar`. The call
/// does not unwind.
#[verifier::external_body]
pub(crate) fn notify_all(condvar: &Condvar)
    opens_invariants none
    no_unwind
{
    condvar.notify_all();
}

/// `RwLock::read`: blocks until shared access to the value is held. A lock
/// that was poisoned by a panic of an earlier writer is taken all the same.
/// On a thread that holds the lock already, the call may block for ever or
/// fail.
#[verifier::external_body]
pub(crate) fn lock_shared<'a, T>(lock: &'a RwLock<T>) -> (guard: RwLockReadGuard<'a, T>) {
    match lock.read() {
        Ok(guard) => guard,
        Err(poisoned) => poisoned.into_inner(),
    }
}

/// `RwLock::write`: blocks until exclusive access to the value is held. A
/// lock that was poisoned by a panic of an earlier writer is taken all the
/// same. On a thread that holds the lock already, the call may block for
/// ever or fail.
#[verifier::external_body]
pub(crate) fn lock_exclusive<'a, T>(lock: &'a RwLock<T>) -> (guard: RwLockWriteGuard<'a, T>) {
    match lock.write() {
        Ok(guard) => guard,
        Err(poisoned) => poisoned.into_inner(),
    }
}

/// `RwLockReadGuard::deref`: the value behind a held shared lock.
#[verifier::external_body]
pub(crate) fn shared_value<'a, 'b, T>(guard: &'a RwLockReadGuard<'b, T>) -> (value: &'a T) {
    &**guard
}

/// `RwLockWriteGuard::deref`: the value behind a held exclusive lock, for
/// reading.
#[verifier::external_body]
pub(crate) fn exclusive_value<'a, 'b, T>(guard: &'a RwLockWriteGuard<'b, T>) -> (value: &'a T) {
    &**guard
}

/// `RwLockWriteGuard::deref_mut`: the value behind a held exclusive lock, for
/// writing.
#[verifier::external_body]
pub(crate) fn exclusive_value_mut<'a, 'b, T>(guard: &'a mut RwLockWriteGuard<'b, T>) -> (value:
    &'a mut T) {
    &mut **guard
}

} // verus!
