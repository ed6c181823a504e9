//! The `Data` container: a value shared among the workers, together with the
//! records that order the accesses to it.
//!
//! Every worker holds its own `Data` for a value: a private record of the
//! reads and writes it has declared, and a pointer to the state that all
//! holders share. The shared state holds the record of the accesses that were
//! carried out, behind a lock, a condition variable on which workers park
//! until that record catches up with their own, and the value itself.
//!
//! Tasks are identified by a `TaskId`, so both records are a few counters and
//! readiness is a comparison of counters.

use std::ops::Deref;
use std::ops::DerefMut;
use std::sync::Arc;
use std::sync::Condvar;
use std::sync::Mutex;
use std::sync::RwLock;
use std::sync::RwLockReadGuard;
use std::sync::RwLockWriteGuard;
use vstd::prelude::*;

use crate::record::Access;
use crate::record::DataLocalState;
use crate::record::DataLockedState;
use crate::record::TaskId;
use crate::sync::created_with;
use crate::sync::exclusive_value;
use crate::sync::exclusive_value_mut;
use crate::sync::load_record;
use crate::sync::lock_exclusive;
use crate::sync::lock_record;
use crate::sync::lock_shared;
use crate::sync::new_condvar;
use crate::sync::new_record_lock;
use crate::sync::new_value_lock;
use crate::sync::notify_all;
use crate::sync::shared_value;
use crate::sync::store_record;
use crate::sync::under_a_lock;
use crate::sync::wait_until_ready;

verus! {

/// The state shared by all the holders of one piece of data.
#[verifier::reject_recursive_types(T)]
pub struct DataSharedState<T> {
    inner: Mutex<DataLockedState>,
    condvar: Condvar,
    data: RwLock<T>,
}

/// The structure holding the data and responsible for synchronization.
#[verifier::reject_recursive_types(T)]
pub struct Data<T> {
    local: DataLocalState,
    shared: Arc<DataSharedState<T>>,
}

/// A read-only smart pointer holding the data. Releasing it marks the read as
/// terminated, in the record of the holder and in the shared record. A handle
/// that is dropped without being released, as when the task panics, marks
/// the read as terminated in the shared record alone: the other workers go
/// on, but the record of the holder is left behind.
#[must_use]
#[verifier::reject_recursive_types(T)]
pub struct Ref<'data, T> {
    /// The record of the holder that the data was borrowed from.
    pub local: &'data mut DataLocalState,
    /// The granted access to the value.
    pub access: ReadAccess<'data, T>,
}

/// A read-write smart pointer holding the data. Releasing it marks the write
/// as terminated, in the record of the holder and in the shared record. A
/// handle that is dropped without being released, as when the task panics,
/// marks the write as terminated in the shared record alone: the other
/// workers go on, but the record of the holder is left behind.
#[must_use]
#[verifier::reject_recursive_types(T)]
pub struct RefMut<'data, T> {
    /// The record of the holder that the data was borrowed from.
    pub local: &'data mut DataLocalState,
    /// The granted access to the value.
    pub access: WriteAccess<'data, T>,
}

/// Shared access to a value, as granted to a read task.
#[verifier::reject_recursive_types(T)]
pub struct ReadAccess<'data, T> {
    shared: &'data DataSharedState<T>,
    value: RwLockReadGuard<'data, T>,
    granted_on: Option<DataLockedState>,
    released: bool,
}

/// Exclusive access to a value, as granted to a write task.
#[verifier::reject_recursive_types(T)]
pub struct WriteAccess<'data, T> {
    shared: &'data DataSharedState<T>,
    value: RwLockWriteGuard<'data, T>,
    task_id: TaskId,
    granted_on: DataLockedState,
    released: bool,
}

/// What the release of a handle did to the shared record.
#[derive(Debug, Clone, Copy, PartialEq, Eq, Structural)]
pub struct Published {
    /// The shared record as the release found it.
    pub found: DataLockedState,
    /// The shared record as the release left it.
    pub left: DataLockedState,
    /// Whether the threads waiting on the data were woken up.
    pub woke_waiters: bool,
}

impl<T> DataSharedState<T> {
    /// Blocks until the shared record makes an access of the given kind
    /// ready for the holder whose record is `local`, and returns the shared
    /// record as it was left when the wait ended. While it waits, the thread
    /// is counted among the waiters of the record.
    fn wait_for(&self, local: &DataLocalState, access: Access) -> (seen: DataLockedState)
        ensures
            local.spec_is_ready(access, seen),
            under_a_lock(seen),
    {
        let mut guard = lock_record(&self.inner);
        let found = load_record(&guard);
        if local.is_ready(access, &found) {
            return found;
        }
        store_record(&mut guard, found.enqueue_waiter());
        let mut guard = wait_until_ready(&self.condvar, guard, local, access);
        let woken = load_record(&guard);
        let left = woken.dequeue_waiter();
        store_record(&mut guard, left);
        left
    }

    /// Adds one completed read to the shared record and wakes the waiters,
    /// if there are any.
    fn publish_read(&self) -> (change: Published)
        ensures
            change.left == change.found.spec_read_done(),
            change.woke_waiters == change.left.spec_has_waiters(),
            under_a_lock(change.found),
            under_a_lock(change.left),
        opens_invariants none
        no_unwind
    {
        let mut guard = lock_record(&self.inner);
        let found = load_record(&guard);
        let left = found.read_done();
        store_record(&mut guard, left);
        let woke_waiters = left.has_waiters();
        if woke_waiters {
            notify_all(&self.condvar);
        }
        Published { found, left, woke_waiters }
    }

    /// Makes `task_id` the last completed write of the shared record and
    /// wakes the waiters, if there are any.
    fn publish_write(&self, task_id: TaskId) -> (change: Published)
        ensures
            change.left == change.found.spec_write_done(task_id),
            change.woke_waiters == change.left.spec_has_waiters(),
            under_a_lock(change.found),
            under_a_lock(change.left),
        opens_invariants none
        no_unwind
    {
        let mut guard = lock_record(&self.inner);
        let found = load_record(&guard);
        let left = found.write_done(task_id);
        store_record(&mut guard, left);
        let woke_waiters = left.has_waiters();
        if woke_waiters {
            notify_all(&self.condvar);
        }
        Published { found, left, woke_waiters }
    }
}

impl<T> View for Data<T> {
    type V = DataLocalState;

    /// The holder's own record of the accesses it has declared.
    closed spec fn view(&self) -> DataLocalState {
        self.local
    }
}

impl<T> Data<T> {
    /// Whether two holders point to the same shared state.
    pub closed spec fn shares_with(&self, other: &Data<T>) -> bool {
        self.shared == other.shared
    }

    /// The shared record that the data was created with.
    pub closed spec fn shared_at_creation(&self) -> DataLockedState {
        created_with(self.shared.inner)
    }

    /// Wraps `data` for sharing among workers. Nothing has been declared or
    /// executed on it yet: the record of the holder and the shared record
    /// are fresh.
    pub fn new(data: T) -> (created: Self)
        ensures
            created@ == DataLocalState::fresh(),
            created.shared_at_creation() == DataLockedState::fresh(),
    {
        let local = DataLocalState::new();
        let shared = Arc::new(
            DataSharedState {
                inner: new_record_lock(DataLockedState::new()),
                condvar: new_condvar(),
                data: new_value_lock(data),
            },
        );
        Self { local, shared }
    }

    /// The holder's own record.
    pub fn local_state(&self) -> (state: DataLocalState)
        ensures
            state == self@,
    {
        self.local
    }

    /// The shared record as it stands right now. Other holders may change it
    /// at any moment.
    pub fn shared_state(&self) -> (state: DataLockedState)
        ensures
            under_a_lock(state),
    {
        let guard = lock_record(&self.shared.inner);
        load_record(&guard)
    }

    /// A write is ready if all the previous reads and writes have been
    /// executed.
    pub fn write_is_ready(&self, inner: &DataLockedState) -> (ready: bool)
        ensures
            ready == self@.spec_write_is_ready(*inner),
    {
        self.local.write_is_ready(inner)
    }

    /// A read is ready if all the previous writes have been executed.
    pub fn read_is_ready(&self, inner: &DataLockedState) -> (ready: bool)
        ensures
            ready == self@.spec_read_is_ready(*inner),
    {
        self.local.read_is_ready(inner)
    }

    /// Declare a read task on the data, without executing it.
    ///
    /// Each worker calls this exactly once per read task on the data that it
    /// does not execute itself.
    pub fn declare_read(&mut self)
        requires
            old(self)@.nb_reads_since_write < usize::MAX,
        ensures
            final(self)@ == old(self)@.spec_declare_read(),
            final(self).shares_with(old(self)),
    {
        self.local.declare_read();
    }

    /// Declare a write task on the data, without executing it.
    ///
    /// Each worker calls this exactly once per write task on the data that it
    /// does not execute itself.
    pub fn declare_write(&mut self, task_id: TaskId)
        ensures
            final(self)@ == old(self)@.spec_declare_write(task_id),
            final(self).shares_with(old(self)),
    {
        self.local.declare_write(task_id);
    }

    /// Get a reference to the data, in read-only mode.
    ///
    /// If no write was declared since this holder last accessed the data, the
    /// handle is granted at once and the shared record is not consulted.
    /// Otherwise the call returns once the shared record shows that every
    /// write this holder has declared was executed; until then the thread is
    /// paused.
    ///
    /// The handles of a worker on one piece of data do not overlap: a thread
    /// that still holds a write handle on the data, through another holder,
    /// waits for itself.
    pub fn get_read(&mut self) -> (handle: Ref<'_, T>)
        ensures
            *handle.local == old(self)@,
            final(self)@ == *final(handle.local),
            final(self).shares_with(old(self)),
            handle.access.granted_on() is None <==> !old(self)@.dirty,
            handle.access.granted_on() matches Some(seen) ==> old(self)@.spec_read_is_ready(seen)
                && under_a_lock(seen),
    {
        let shared: &DataSharedState<T> = &self.shared;
        let granted_on = if self.local.dirty {
            Some(shared.wait_for(&self.local, Access::Read))
        } else {
            None
        };
        let value = lock_shared(&shared.data);
        Ref {
            local: &mut self.local,
            access: ReadAccess { shared, value, granted_on, released: false },
        }
    }

    /// Get a reference to the data, in read-write mode, for the task
    /// `task_id`.
    ///
    /// The call returns once the shared record shows that every read and
    /// write this holder has declared was executed; until then the thread is
    /// paused.
    ///
    /// The handles of a worker on one piece of data do not overlap: a thread
    /// that still holds a handle on the data, through another holder, waits
    /// for itself.
    pub fn get_write(&mut self, task_id: TaskId) -> (handle: RefMut<'_, T>)
        ensures
            *handle.local == old(self)@,
            handle.access.task_id() == task_id,
            final(self)@ == *final(handle.local),
            final(self).shares_with(old(self)),
            old(self)@.spec_write_is_ready(handle.access.granted_on()),
            under_a_lock(handle.access.granted_on()),
    {
        let shared: &DataSharedState<T> = &self.shared;
        let seen = shared.wait_for(&self.local, Access::Write);
        let value = lock_exclusive(&shared.data);
        RefMut {
            local: &mut self.local,
            access: WriteAccess { shared, value, task_id, granted_on: seen, released: false },
        }
    }
}

/// Pointing to the same shared state is an equivalence among holders, and
/// holders of the same shared state were created with the same shared
/// record.
pub proof fn lemma_sharing_is_an_equivalence<T>(one: &Data<T>, other: &Data<T>, third: &Data<T>)
    ensures
        one.shares_with(one),
        one.shares_with(other) ==> other.shares_with(one),
        one.shares_with(other) && other.shares_with(third) ==> one.shares_with(third),
        one.shares_with(other) ==> one.shared_at_creation() == other.shared_at_creation(),
{
}

/// Fresh data is ready for a read and for a write: its first task does not
/// wait.
pub proof fn lemma_fresh_data_is_ready()
    ensures
        DataLocalState::fresh().spec_read_is_ready(DataLockedState::fresh()),
        DataLocalState::fresh().spec_write_is_ready(DataLockedState::fresh()),
{
}

impl<T> Clone for Data<T> {
    /// Another holder of the same data: it shares the value and the shared
    /// record, and starts from a copy of this holder's own record.
    fn clone(&self) -> (copy: Self)
        ensures
            copy@ == self@,
            copy.shares_with(self),
    {
        Self { local: self.local, shared: self.shared.clone() }
    }
}

impl<T: Default> Default for Data<T> {
    fn default() -> (created: Self)
        ensures
            created@ == DataLocalState::fresh(),
            created.shared_at_creation() == DataLockedState::fresh(),
    {
        Self::new(T::default())
    }
}

impl<'data, T> ReadAccess<'data, T> {
    /// The shared record on which the access was granted, if the shared
    /// record had to be consulted.
    pub closed spec fn granted_on(&self) -> Option<DataLockedState> {
        self.granted_on
    }

    /// The shared record on which the access was granted, or `None` if the
    /// access was granted without consulting the shared record.
    pub fn seen(&self) -> (seen: Option<DataLockedState>)
        ensures
            seen == self.granted_on(),
    {
        self.granted_on
    }

    /// Marks the read as terminated in the shared record.
    fn publish(&mut self) -> (change: Published)
        ensures
            change.left == change.found.spec_read_done(),
            change.woke_waiters == change.left.spec_has_waiters(),
            under_a_lock(change.found),
            under_a_lock(change.left),
    {
        self.released = true;
        self.shared.publish_read()
    }
}

impl<'data, T> Drop for ReadAccess<'data, T> {
    /// Marks the read as terminated in the shared record, unless the handle
    /// was released.
    fn drop(&mut self)
        opens_invariants none
        no_unwind
    {
        if !self.released {
            let _ = self.shared.publish_read();
        }
    }
}

impl<'data, T> WriteAccess<'data, T> {
    /// The task that writes through this access.
    pub closed spec fn task_id(&self) -> TaskId {
        self.task_id
    }

    /// The shared record on which the access was granted.
    pub closed spec fn granted_on(&self) -> DataLockedState {
        self.granted_on
    }

    /// The task that writes through this access.
    pub fn task(&self) -> (task_id: TaskId)
        ensures
            task_id == self.task_id(),
    {
        self.task_id
    }

    /// The shared record on which the access was granted.
    pub fn seen(&self) -> (seen: DataLockedState)
        ensures
            seen == self.granted_on(),
    {
        self.granted_on
    }

    /// Marks the write as terminated in the shared record.
    fn publish(&mut self) -> (change: Published)
        ensures
            change.left == change.found.spec_write_done(old(self).task_id()),
            change.woke_waiters == change.left.spec_has_waiters(),
            under_a_lock(change.found),
            under_a_lock(change.left),
    {
        self.released = true;
        self.shared.publish_write(self.task_id)
    }
}

impl<'data, T> Drop for WriteAccess<'data, T> {
    /// Marks the write as terminated in the shared record, unless the handle
    /// was released.
    fn drop(&mut self)
        opens_invariants none
        no_unwind
    {
        if !self.released {
            let _ = self.shared.publish_write(self.task_id);
        }
    }
}

impl<'data, T> Ref<'data, T> {
    /// Mark the read as terminated: the holder's record counts the read and
    /// is clean, and the shared record counts one more completed read.
    /// Threads waiting on the data are woken up. Returns what was done to the
    /// shared record.
    pub fn release(self) -> (change: Published)
        requires
            self.local.nb_reads_since_write < usize::MAX,
        ensures
            *final(self.local) == old(self.local).spec_terminate_read(),
            change.left == change.found.spec_read_done(),
            change.woke_waiters == change.left.spec_has_waiters(),
            under_a_lock(change.found),
            under_a_lock(change.left),
    {
        let Ref { local, access } = self;
        let mut access = access;
        local.terminate_read();
        access.publish()
    }
}

impl<'data, T> Deref for Ref<'data, T> {
    type Target = T;

    fn deref(&self) -> &T {
        shared_value(&self.access.value)
    }
}

impl<'data, T> RefMut<'data, T> {
    /// The value, for writing.
    pub fn deref_mut(&mut self) -> (value: &mut T)
        ensures
            final(self).local == old(self).local,
            final(self).access.task_id() == old(self).access.task_id(),
            final(self).access.granted_on() == old(self).access.granted_on(),
    {
        exclusive_value_mut(&mut self.access.value)
    }

    /// Mark the write as terminated: the holder's record has the task as its
    /// last write and is clean, and so has the shared record. Threads waiting
    /// on the data are woken up. Returns what was done to the shared record.
    pub fn release(self) -> (change: Published)
        ensures
            *final(self.local) == old(self.local).spec_terminate_write(self.access.task_id()),
            change.left == change.found.spec_write_done(self.access.task_id()),
            change.woke_waiters == change.left.spec_has_waiters(),
            under_a_lock(change.found),
            under_a_lock(change.left),
    {
        let RefMut { local, access } = self;
        let mut access = access;
        local.terminate_write(access.task());
        access.publish()
    }
}

impl<'data, T> Deref for RefMut<'data, T> {
    type Target = T;

    fn deref(&self) -> &T {
        exclusive_value(&self.access.value)
    }
}

impl<'data, T> DerefMut for RefMut<'data, T> {
    fn deref_mut(&mut self) -> &mut T {
        exclusive_value_mut(&mut self.access.value)
    }
}

} // verus!
