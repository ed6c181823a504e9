//! The two access records kept for every piece of shared data.
//!
//! Each holder of a piece of data keeps a *local* record of the accesses it
//! has declared, and all holders share one *locked* record of the accesses
//! that were actually carried out. Both records are plain counters: access is
//! granted by comparing them, never by inspecting a queue of tasks.

use vstd::prelude::*;

verus! {

/// A unique task identifier. Identifiers start at 1 and grow by one per
/// submitted task; 0 stands for "no task yet".
#[derive(Debug, Copy, Clone, PartialEq, Eq, Structural)]
pub struct TaskId(pub usize);

/// The kind of access a task makes to a piece of data.
#[derive(Debug, Copy, Clone, PartialEq, Eq, Structural)]
pub enum Access {
    /// Shared, read-only access.
    Read,
    /// Exclusive, read-write access.
    Write,
}

/// What one holder has declared on a piece of data so far.
#[derive(Debug, Copy, Clone, PartialEq, Eq, Structural)]
pub struct DataLocalState {
    /// The most recent write declared by this holder (0 if none).
    pub last_registered_write: usize,
    /// The number of reads declared since that write.
    pub nb_reads_since_write: usize,
    /// Whether a write was declared since this holder last accessed the data.
    pub dirty: bool,
}

/// What has actually been executed on a piece of data, as recorded under its
/// lock.
#[derive(Debug, Copy, Clone, PartialEq, Eq, Structural)]
pub struct DataLockedState {
    /// The most recent write that completed (0 if none).
    pub last_executed_write: usize,
    /// The number of reads that completed since that write.
    pub nb_reads_since_write: usize,
    /// The number of threads parked until the record changes.
    pub nb_threads_waiting: usize,
}

/// `n + 1`, wrapping around at the largest `usize`.
pub open spec fn wrapping_succ(n: usize) -> usize {
    if n == usize::MAX {
        0
    } else {
        (n + 1) as usize
    }
}

/// `n - 1`, wrapping around at zero.
pub open spec fn wrapping_pred(n: usize) -> usize {
    if n == 0 {
        usize::MAX
    } else {
        (n - 1) as usize
    }
}

impl DataLocalState {
    /// The record of a holder that has declared nothing.
    pub open spec fn fresh() -> Self {
        DataLocalState { last_registered_write: 0, nb_reads_since_write: 0, dirty: false }
    }

    /// The record after one more read was declared.
    pub open spec fn spec_declare_read(self) -> Self {
        DataLocalState {
            nb_reads_since_write: (self.nb_reads_since_write + 1) as usize,
            ..self
        }
    }

    /// The record after the write of `task_id` was declared.
    pub open spec fn spec_declare_write(self, task_id: TaskId) -> Self {
        DataLocalState { last_registered_write: task_id.0, nb_reads_since_write: 0, dirty: true }
    }

    /// The record after this holder itself carried out a read.
    pub open spec fn spec_terminate_read(self) -> Self {
        DataLocalState { dirty: false, ..self.spec_declare_read() }
    }

    /// The record after this holder itself carried out the write of `task_id`.
    pub open spec fn spec_terminate_write(self, task_id: TaskId) -> Self {
        DataLocalState { dirty: false, ..self.spec_declare_write(task_id) }
    }

    /// A read may start once every write this holder knows of has completed.
    pub open spec fn spec_read_is_ready(self, inner: DataLockedState) -> bool {
        inner.last_executed_write == self.last_registered_write
    }

    /// A write may start once every read and write this holder knows of has
    /// completed.
    pub open spec fn spec_write_is_ready(self, inner: DataLockedState) -> bool {
        &&& inner.nb_reads_since_write == self.nb_reads_since_write
        &&& inner.last_executed_write == self.last_registered_write
    }

    /// The ready predicate of the given kind of access.
    pub open spec fn spec_is_ready(self, access: Access, inner: DataLockedState) -> bool {
        match access {
            Access::Read => self.spec_read_is_ready(inner),
            Access::Write => self.spec_write_is_ready(inner),
        }
    }

    /// The record of a holder that has declared nothing.
    pub fn new() -> (state: Self)
        ensures
            state == Self::fresh(),
    {
        DataLocalState { last_registered_write: 0, nb_reads_since_write: 0, dirty: false }
    }

    /// Declares a read without executing it.
    pub fn declare_read(&mut self)
        requires
            old(self).nb_reads_since_write < usize::MAX,
        ensures
            *final(self) == old(self).spec_declare_read(),
    {
        self.nb_reads_since_write += 1;
    }

    /// Declares the write of `task_id` without executing it.
    pub fn declare_write(&mut self, task_id: TaskId)
        ensures
            *final(self) == old(self).spec_declare_write(task_id),
    {
        self.last_registered_write = task_id.0;
        self.nb_reads_since_write = 0;
        self.dirty = true;
    }

    /// Records a read that this holder has just carried out: the read is
    /// declared and the data is clean again.
    pub fn terminate_read(&mut self)
        requires
            old(self).nb_reads_since_write < usize::MAX,
        ensures
            *final(self) == old(self).spec_terminate_read(),
    {
        self.declare_read();
        self.dirty = false;
    }

    /// Records the write of `task_id` that this holder has just carried out:
    /// the write is declared and the data is clean again.
    pub fn terminate_write(&mut self, task_id: TaskId)
        ensures
            *final(self) == old(self).spec_terminate_write(task_id),
    {
        self.declare_write(task_id);
        self.dirty = false;
    }

    /// Whether a read may start, given the shared record `inner`.
    pub fn read_is_ready(&self, inner: &DataLockedState) -> (ready: bool)
        ensures
            ready == self.spec_read_is_ready(*inner),
    {
        inner.last_executed_write == self.last_registered_write
    }

    /// Whether a write may start, given the shared record `inner`.
    pub fn write_is_ready(&self, inner: &DataLockedState) -> (ready: bool)
        ensures
            ready == self.spec_write_is_ready(*inner),
    {
        let reads_are_done = inner.nb_reads_since_write == self.nb_reads_since_write;
        let writes_are_done = inner.last_executed_write == self.last_registered_write;
        reads_are_done && writes_are_done
    }

    /// Whether an access of the given kind may start, given the shared record
    /// `inner`.
    pub fn is_ready(&self, access: Access, inner: &DataLockedState) -> (ready: bool)
        ensures
            ready == self.spec_is_ready(access, *inner),
    {
        match access {
            Access::Read => self.read_is_ready(inner),
            Access::Write => self.write_is_ready(inner),
        }
    }

    /// Whether an access of the given kind has to wait, given the shared
    /// record `inner`.
    pub fn must_wait(&self, access: Access, inner: &DataLockedState) -> (wait: bool)
        ensures
            wait == !self.spec_is_ready(access, *inner),
    {
        !self.is_ready(access, inner)
    }
}

impl DataLockedState {
    /// The record of data that nobody has touched.
    pub open spec fn fresh() -> Self {
        DataLockedState { last_executed_write: 0, nb_reads_since_write: 0, nb_threads_waiting: 0 }
    }

    /// The record after one more read completed.
    pub open spec fn spec_read_done(self) -> Self {
        DataLockedState { nb_reads_since_write: wrapping_succ(self.nb_reads_since_write), ..self }
    }

    /// The record after the write of `task_id` completed.
    pub open spec fn spec_write_done(self, task_id: TaskId) -> Self {
        DataLockedState { last_executed_write: task_id.0, nb_reads_since_write: 0, ..self }
    }

    /// The record after one more thread started waiting.
    pub open spec fn spec_enqueue_waiter(self) -> Self {
        DataLockedState { nb_threads_waiting: wrapping_succ(self.nb_threads_waiting), ..self }
    }

    /// The record after one thread stopped waiting.
    pub open spec fn spec_dequeue_waiter(self) -> Self {
        DataLockedState { nb_threads_waiting: wrapping_pred(self.nb_threads_waiting), ..self }
    }

    /// Whether some thread waits for the record to change.
    pub open spec fn spec_has_waiters(self) -> bool {
        self.nb_threads_waiting > 0
    }

    /// The record of data that nobody has touched.
    pub fn new() -> (state: Self)
        ensures
            state == Self::fresh(),
    {
        DataLockedState { last_executed_write: 0, nb_reads_since_write: 0, nb_threads_waiting: 0 }
    }

    /// The record after one more read completed. The count wraps around: the
    /// counters are only ever compared for equality.
    pub fn read_done(self) -> (next: Self)
        ensures
            next == self.spec_read_done(),
        opens_invariants none
        no_unwind
    {
        let reads = if self.nb_reads_since_write == usize::MAX {
            0
        } else {
            self.nb_reads_since_write + 1
        };
        DataLockedState {
            last_executed_write: self.last_executed_write,
            nb_reads_since_write: reads,
            nb_threads_waiting: self.nb_threads_waiting,
        }
    }

    /// The record after the write of `task_id` completed.
    pub fn write_done(self, task_id: TaskId) -> (next: Self)
        ensures
            next == self.spec_write_done(task_id),
        opens_invariants none
        no_unwind
    {
        DataLockedState {
            last_executed_write: task_id.0,
            nb_reads_since_write: 0,
            nb_threads_waiting: self.nb_threads_waiting,
        }
    }

    /// The record after one more thread started waiting.
    pub fn enqueue_waiter(self) -> (next: Self)
        ensures
            next == self.spec_enqueue_waiter(),
    {
        let waiting = if self.nb_threads_waiting == usize::MAX {
            0
        } else {
            self.nb_threads_waiting + 1
        };
        DataLockedState {
            last_executed_write: self.last_executed_write,
            nb_reads_since_write: self.nb_reads_since_write,
            nb_threads_waiting: waiting,
        }
    }

    /// The record after one thread stopped waiting.
    pub fn dequeue_waiter(self) -> (next: Self)
        ensures
            next == self.spec_dequeue_waiter(),
    {
        let waiting = if self.nb_threads_waiting == 0 {
            usize::MAX
        } else {
            self.nb_threads_waiting - 1
        };
        DataLockedState {
            last_executed_write: self.last_executed_write,
            nb_reads_since_write: self.nb_reads_since_write,
            nb_threads_waiting: waiting,
        }
    }

    /// Whether some thread waits for the record to change.
    pub fn has_waiters(&self) -> (waiters: bool)
        ensures
            waiters == self.spec_has_waiters(),
        opens_invariants none
        no_unwind
    {
        self.nb_threads_waiting > 0
    }
}

} // verus!
