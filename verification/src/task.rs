//! Task submission: what every worker does with a task of the computation.
//!
//! A task is a function together with the data it reads and the data it
//! writes. Every worker submits every task, in the same order. The worker
//! that owns the task waits for its data, runs the function and publishes
//! that the accesses are over; every other worker only declares the accesses
//! in its own records, so that its later tasks wait for the right ones.
//!
//! The function is called with the data it reads first, then the data it
//! writes, each kind in the order given. There is one submission function
//! for each supported shape of task: up to two pieces of data read, followed
//! by at most one written. A task of another shape is submitted by hand, in
//! the same way: ask the runtime for the next task; as the owner, get a
//! handle on each piece of data, use the values and release the handles,
//! last acquired first; as any other worker, declare each access.

use std::ops::Deref;
use vstd::prelude::*;

use crate::data::Data;
use crate::record::DataLocalState;
use crate::record::TaskId;
use crate::runtime::Runtime;
use crate::runtime::TaskOwnership;

verus! {

impl DataLocalState {
    /// The record of a holder after a task that reads the data, given the
    /// ownership of the task: the owner has carried the read out, the others
    /// have declared it.
    pub open spec fn spec_after_read(self, ownership: TaskOwnership) -> Self {
        match ownership {
            TaskOwnership::Owner => self.spec_terminate_read(),
            TaskOwnership::NotOwner => self.spec_declare_read(),
        }
    }

    /// The record of a holder after the task `task_id` that writes the data,
    /// given the ownership of the task: the owner has carried the write out,
    /// the others have declared it.
    pub open spec fn spec_after_write(self, task_id: TaskId, ownership: TaskOwnership) -> Self {
        match ownership {
            TaskOwnership::Owner => self.spec_terminate_write(task_id),
            TaskOwnership::NotOwner => self.spec_declare_write(task_id),
        }
    }
}

/// Carries out, on one worker, a task that touches no data, given the
/// ownership of the task: the owner calls `fun`, any other worker does
/// nothing.
pub fn execute<F>(
    _task_id: TaskId,
    ownership: TaskOwnership,
    fun: F,
) where F: FnOnce()
    requires
        ownership is Owner ==> call_requires(fun, ()),
    ensures
        ownership is Owner ==> call_ensures(fun, (), ()),
{
    match ownership {
        TaskOwnership::Owner => {
            fun();
        },
        TaskOwnership::NotOwner => {
        },
    }
}

/// Submits a task that touches no data, mapped by its own identifier: asks
/// `rt` for the next task and carries it out on this worker. Returns the
/// identifier of the task and whether this worker owned it.
pub fn task<F>(
    rt: &mut Runtime<'_, usize>,
    fun: F,
) -> (next: (TaskId, TaskOwnership)) where F: FnOnce()
    requires
        old(rt).task_counter() < usize::MAX,
        old(rt).accepts((old(rt).task_counter() + 1) as usize),
        call_requires(fun, ()),
    ensures
        old(rt).submits(final(rt), final(rt).task_counter(), next),
        next.1 is Owner ==> call_ensures(fun, (), ()),
{
    let (task_id, ownership) = rt.next_task();
    execute(task_id, ownership, fun);
    (task_id, ownership)
}

/// Submits a task that touches no data, mapped by the arguments `args`: asks
/// `rt` for the next task and carries it out on this worker. Returns the
/// identifier of the task and whether this worker owned it.
pub fn task_args<Args, F>(
    rt: &mut Runtime<'_, Args>,
    args: Args,
    fun: F,
) -> (next: (TaskId, TaskOwnership)) where F: FnOnce()
    requires
        old(rt).task_counter() < usize::MAX,
        old(rt).accepts(args),
        call_requires(fun, ()),
    ensures
        old(rt).submits(final(rt), args, next),
        next.1 is Owner ==> call_ensures(fun, (), ()),
{
    let (task_id, ownership) = rt.next_task_args(args);
    execute(task_id, ownership, fun);
    (task_id, ownership)
}

/// Carries out, on one worker, the task `task_id` that reads `a`, given the
/// ownership of the task: the owner waits for the data, calls `fun` on them
/// and releases them, last acquired first; any other worker declares the
/// accesses and does not call `fun`.
pub fn execute_r<A, F>(
    task_id: TaskId,
    ownership: TaskOwnership,
    fun: F,
    a: &mut Data<A>,
) where F: FnOnce(&A)
    requires
        old(a)@.nb_reads_since_write < usize::MAX,
        ownership is Owner ==> forall|a_value: &A|
            call_requires(fun, (a_value,)),
    ensures
        final(a)@ == old(a)@.spec_after_read(ownership),
        final(a).shares_with(old(a)),
        ownership is Owner ==> exists|a_value: &A|
            call_ensures(fun, (a_value,), ()),
{
    match ownership {
        TaskOwnership::Owner => {
            let a_handle = a.get_read();
            fun(a_handle.deref());
            a_handle.release();
        },
        TaskOwnership::NotOwner => {
            a.declare_read();
        },
    }
}

/// Submits a task that reads `a`, mapped by its own identifier: asks `rt` for
/// the next task and carries it out on this worker. Returns the identifier of
/// the task and whether this worker owned it.
pub fn task_r<A, F>(
    rt: &mut Runtime<'_, usize>,
    fun: F,
    a: &mut Data<A>,
) -> (next: (TaskId, TaskOwnership)) where F: FnOnce(&A)
    requires
        old(rt).task_counter() < usize::MAX,
        old(rt).accepts((old(rt).task_counter() + 1) as usize),
        old(a)@.nb_reads_since_write < usize::MAX,
        forall|a_value: &A| call_requires(fun, (a_value,)),
    ensures
        old(rt).submits(final(rt), final(rt).task_counter(), next),
        final(a)@ == old(a)@.spec_after_read(next.1),
        final(a).shares_with(old(a)),
        next.1 is Owner ==> exists|a_value: &A|
            call_ensures(fun, (a_value,), ()),
{
    let (task_id, ownership) = rt.next_task();
    execute_r(task_id, ownership, fun, a);
    (task_id, ownership)
}

/// Submits a task that reads `a`, mapped by the arguments `args`: asks `rt`
/// for the next task and carries it out on this worker. Returns the
/// identifier of the task and whether this worker owned it.
pub fn task_r_args<Args, A, F>(
    rt: &mut Runtime<'_, Args>,
    args: Args,
    fun: F,
    a: &mut Data<A>,
) -> (next: (TaskId, TaskOwnership)) where F: FnOnce(&A)
    requires
        old(rt).task_counter() < usize::MAX,
        old(rt).accepts(args),
        old(a)@.nb_reads_since_write < usize::MAX,
        forall|a_value: &A| call_requires(fun, (a_value,)),
    ensures
        old(rt).submits(final(rt), args, next),
        final(a)@ == old(a)@.spec_after_read(next.1),
        final(a).shares_with(old(a)),
        next.1 is Owner ==> exists|a_value: &A|
            call_ensures(fun, (a_value,), ()),
{
    let (task_id, ownership) = rt.next_task_args(args);
    execute_r(task_id, ownership, fun, a);
    (task_id, ownership)
}

/// Carries out, on one worker, the task `task_id` that reads `a` and `b`,
/// given the ownership of the task: the owner waits for the data, calls `fun`
/// on them and releases them, last acquired first; any other worker declares
/// the accesses and does not call `fun`.
pub fn execute_rr<A, B, F>(
    task_id: TaskId,
    ownership: TaskOwnership,
    fun: F,
    a: &mut Data<A>,
    b: &mut Data<B>,
) where F: FnOnce(&A, &B)
    requires
        old(a)@.nb_reads_since_write < usize::MAX,
        old(b)@.nb_reads_since_write < usize::MAX,
        ownership is Owner ==> forall|a_value: &A, b_value: &B|
            call_requires(fun, (a_value, b_value)),
    ensures
        final(a)@ == old(a)@.spec_after_read(ownership),
        final(a).shares_with(old(a)),
        final(b)@ == old(b)@.spec_after_read(ownership),
        final(b).shares_with(old(b)),
        ownership is Owner ==> exists|a_value: &A, b_value: &B|
            call_ensures(fun, (a_value, b_value), ()),
{
    match ownership {
        TaskOwnership::Owner => {
            let a_handle = a.get_read();
            let b_handle = b.get_read();
            fun(a_handle.deref(), b_handle.deref());
            b_handle.release();
            a_handle.release();
        },
        TaskOwnership::NotOwner => {
            a.declare_read();
            b.declare_read();
        },
    }
}

/// Submits a task that reads `a` and `b`, mapped by its own identifier: asks
/// `rt` for the next task and carries it out on this worker. Returns the
/// identifier of the task and whether this worker owned it.
pub fn task_rr<A, B, F>(
    rt: &mut Runtime<'_, usize>,
    fun: F,
    a: &mut Data<A>,
    b: &mut Data<B>,
) -> (next: (TaskId, TaskOwnership)) where F: FnOnce(&A, &B)
    requires
        old(rt).task_counter() < usize::MAX,
        old(rt).accepts((old(rt).task_counter() + 1) as usize),
        old(a)@.nb_reads_since_write < usize::MAX,
        old(b)@.nb_reads_since_write < usize::MAX,
        forall|a_value: &A, b_value: &B| call_requires(fun, (a_value, b_value)),
    ensures
        old(rt).submits(final(rt), final(rt).task_counter(), next),
        final(a)@ == old(a)@.spec_after_read(next.1),
        final(a).shares_with(old(a)),
        final(b)@ == old(b)@.spec_after_read(next.1),
        final(b).shares_with(old(b)),
        next.1 is Owner ==> exists|a_value: &A, b_value: &B|
            call_ensures(fun, (a_value, b_value), ()),
{
    let (task_id, ownership) = rt.next_task();
    execute_rr(task_id, ownership, fun, a, b);
    (task_id, ownership)
}

/// Submits a task that reads `a` and `b`, mapped by the arguments `args`:
/// asks `rt` for the next task and carries it out on this worker. Returns the
/// identifier of the task and whether this worker owned it.
pub fn task_rr_args<Args, A, B, F>(
    rt: &mut Runtime<'_, Args>,
    args: Args,
    fun: F,
    a: &mut Data<A>,
    b: &mut Data<B>,
) -> (next: (TaskId, TaskOwnership)) where F: FnOnce(&A, &B)
    requires
        old(rt).task_counter() < usize::MAX,
        old(rt).accepts(args),
        old(a)@.nb_reads_since_write < usize::MAX,
        old(b)@.nb_reads_since_write < usize::MAX,
        forall|a_value: &A, b_value: &B| call_requires(fun, (a_value, b_value)),
    ensures
        old(rt).submits(final(rt), args, next),
        final(a)@ == old(a)@.spec_after_read(next.1),
        final(a).shares_with(old(a)),
        final(b)@ == old(b)@.spec_after_read(next.1),
        final(b).shares_with(old(b)),
        next.1 is Owner ==> exists|a_value: &A, b_value: &B|
            call_ensures(fun, (a_value, b_value), ()),
{
    let (task_id, ownership) = rt.next_task_args(args);
    execute_rr(task_id, ownership, fun, a, b);
    (task_id, ownership)
}

/// Carries out, on one worker, the task `task_id` that writes `a`, given the
/// ownership of the task: the owner waits for the data, calls `fun` on them
/// and releases them, last acquired first; any other worker declares the
/// accesses and does not call `fun`.
pub fn execute_w<A, F>(
    task_id: TaskId,
    ownership: TaskOwnership,
    fun: F,
    a: &mut Data<A>,
) where F: FnOnce(&mut A)
    requires
        ownership is Owner ==> forall|a_value: &mut A|
            call_requires(fun, (a_value,)),
    ensures
        final(a)@ == old(a)@.spec_after_write(task_id, ownership),
        final(a).shares_with(old(a)),
        ownership is Owner ==> exists|a_value: &mut A|
            call_ensures(fun, (a_value,), ()),
{
    match ownership {
        TaskOwnership::Owner => {
            let mut a_handle = a.get_write(task_id);
            fun(a_handle.deref_mut());
            a_handle.release();
        },
        TaskOwnership::NotOwner => {
            a.declare_write(task_id);
        },
    }
}

/// Submits a task that writes `a`, mapped by its own identifier: asks `rt`
/// for the next task and carries it out on this worker. Returns the
/// identifier of the task and whether this worker owned it.
pub fn task_w<A, F>(
    rt: &mut Runtime<'_, usize>,
    fun: F,
    a: &mut Data<A>,
) -> (next: (TaskId, TaskOwnership)) where F: FnOnce(&mut A)
    requires
        old(rt).task_counter() < usize::MAX,
        old(rt).accepts((old(rt).task_counter() + 1) as usize),
        forall|a_value: &mut A| call_requires(fun, (a_value,)),
    ensures
        old(rt).submits(final(rt), final(rt).task_counter(), next),
        final(a)@ == old(a)@.spec_after_write(next.0, next.1),
        final(a).shares_with(old(a)),
        next.1 is Owner ==> exists|a_value: &mut A|
            call_ensures(fun, (a_value,), ()),
{
    let (task_id, ownership) = rt.next_task();
    execute_w(task_id, ownership, fun, a);
    (task_id, ownership)
}

/// Submits a task that writes `a`, mapped by the arguments `args`: asks `rt`
/// for the next task and carries it out on this worker. Returns the
/// identifier of the task and whether this worker owned it.
pub fn task_w_args<Args, A, F>(
    rt: &mut Runtime<'_, Args>,
    args: Args,
    fun: F,
    a: &mut Data<A>,
) -> (next: (TaskId, TaskOwnership)) where F: FnOnce(&mut A)
    requires
        old(rt).task_counter() < usize::MAX,
        old(rt).accepts(args),
        forall|a_value: &mut A| call_requires(fun, (a_value,)),
    ensures
        old(rt).submits(final(rt), args, next),
        final(a)@ == old(a)@.spec_after_write(next.0, next.1),
        final(a).shares_with(old(a)),
        next.1 is Owner ==> exists|a_value: &mut A|
            call_ensures(fun, (a_value,), ()),
{
    let (task_id, ownership) = rt.next_task_args(args);
    execute_w(task_id, ownership, fun, a);
    (task_id, ownership)
}

/// Carries out, on one worker, the task `task_id` that reads `a` and writes
/// `b`, given the ownership of the task: the owner waits for the data, calls
/// `fun` on them and releases them, last acquired first; any other worker
/// declares the accesses and does not call `fun`.
pub fn execute_r_w<A, B, F>(
    task_id: TaskId,
    ownership: TaskOwnership,
    fun: F,
    a: &mut Data<A>,
    b: &mut Data<B>,
) where F: FnOnce(&A, &mut B)
    requires
        old(a)@.nb_reads_since_write < usize::MAX,
        ownership is Owner ==> forall|a_value: &A, b_value: &mut B|
            call_requires(fun, (a_value, b_value)),
    ensures
        final(a)@ == old(a)@.spec_after_read(ownership),
        final(a).shares_with(old(a)),
        final(b)@ == old(b)@.spec_after_write(task_id, ownership),
        final(b).shares_with(old(b)),
        ownership is Owner ==> exists|a_value: &A, b_value: &mut B|
            call_ensures(fun, (a_value, b_value), ()),
{
    match ownership {
        TaskOwnership::Owner => {
            let a_handle = a.get_read();
            let mut b_handle = b.get_write(task_id);
            fun(a_handle.deref(), b_handle.deref_mut());
            b_handle.release();
            a_handle.release();
        },
        TaskOwnership::NotOwner => {
            a.declare_read();
            b.declare_write(task_id);
        },
    }
}

/// Submits a task that reads `a` and writes `b`, mapped by its own
/// identifier: asks `rt` for the next task and carries it out on this worker.
/// Returns the identifier of the task and whether this worker owned it.
pub fn task_r_w<A, B, F>(
    rt: &mut Runtime<'_, usize>,
    fun: F,
    a: &mut Data<A>,
    b: &mut Data<B>,
) -> (next: (TaskId, TaskOwnership)) where F: FnOnce(&A, &mut B)
    requires
        old(rt).task_counter() < usize::MAX,
        old(rt).accepts((old(rt).task_counter() + 1) as usize),
        old(a)@.nb_reads_since_write < usize::MAX,
        forall|a_value: &A, b_value: &mut B| call_requires(fun, (a_value, b_value)),
    ensures
        old(rt).submits(final(rt), final(rt).task_counter(), next),
        final(a)@ == old(a)@.spec_after_read(next.1),
        final(a).shares_with(old(a)),
        final(b)@ == old(b)@.spec_after_write(next.0, next.1),
        final(b).shares_with(old(b)),
        next.1 is Owner ==> exists|a_value: &A, b_value: &mut B|
            call_ensures(fun, (a_value, b_value), ()),
{
    let (task_id, ownership) = rt.next_task();
    execute_r_w(task_id, ownership, fun, a, b);
    (task_id, ownership)
}

/// Submits a task that reads `a` and writes `b`, mapped by the arguments
/// `args`: asks `rt` for the next task and carries it out on this worker.
/// Returns the identifier of the task and whether this worker owned it.
pub fn task_r_w_args<Args, A, B, F>(
    rt: &mut Runtime<'_, Args>,
    args: Args,
    fun: F,
    a: &mut Data<A>,
    b: &mut Data<B>,
) -> (next: (TaskId, TaskOwnership)) where F: FnOnce(&A, &mut B)
    requires
        old(rt).task_counter() < usize::MAX,
        old(rt).accepts(args),
        old(a)@.nb_reads_since_write < usize::MAX,
        forall|a_value: &A, b_value: &mut B| call_requires(fun, (a_value, b_value)),
    ensures
        old(rt).submits(final(rt), args, next),
        final(a)@ == old(a)@.spec_after_read(next.1),
        final(a).shares_with(old(a)),
        final(b)@ == old(b)@.spec_after_write(next.0, next.1),
        final(b).shares_with(old(b)),
        next.1 is Owner ==> exists|a_value: &A, b_value: &mut B|
            call_ensures(fun, (a_value, b_value), ()),
{
    let (task_id, ownership) = rt.next_task_args(args);
    execute_r_w(task_id, ownership, fun, a, b);
    (task_id, ownership)
}

/// Carries out, on one worker, the task `task_id` that reads `a` and `b` and
/// writes `c`, given the ownership of the task: the owner waits for the data,
/// calls `fun` on them and releases them, last acquired first; any other
/// worker declares the accesses and does not call `fun`.
pub fn execute_rr_w<A, B, C, F>(
    task_id: TaskId,
    ownership: TaskOwnership,
    fun: F,
    a: &mut Data<A>,
    b: &mut Data<B>,
    c: &mut Data<C>,
) where F: FnOnce(&A, &B, &mut C)
    requires
        old(a)@.nb_reads_since_write < usize::MAX,
        old(b)@.nb_reads_since_write < usize::MAX,
        ownership is Owner ==> forall|a_value: &A, b_value: &B, c_value: &mut C|
            call_requires(fun, (a_value, b_value, c_value)),
    ensures
        final(a)@ == old(a)@.spec_after_read(ownership),
        final(a).shares_with(old(a)),
        final(b)@ == old(b)@.spec_after_read(ownership),
        final(b).shares_with(old(b)),
        final(c)@ == old(c)@.spec_after_write(task_id, ownership),
        final(c).shares_with(old(c)),
        ownership is Owner ==> exists|a_value: &A, b_value: &B, c_value: &mut C|
            call_ensures(fun, (a_value, b_value, c_value), ()),
{
    match ownership {
        TaskOwnership::Owner => {
            let a_handle = a.get_read();
            let b_handle = b.get_read();
            let mut c_handle = c.get_write(task_id);
            fun(a_handle.deref(), b_handle.deref(), c_handle.deref_mut());
            c_handle.release();
            b_handle.release();
            a_handle.release();
        },
        TaskOwnership::NotOwner => {
            a.declare_read();
            b.declare_read();
            c.declare_write(task_id);
        },
    }
}

/// Submits a task that reads `a` and `b` and writes `c`, mapped by its own
/// identifier: asks `rt` for the next task and carries it out on this worker.
/// Returns the identifier of the task and whether this worker owned it.
pub fn task_rr_w<A, B, C, F>(
    rt: &mut Runtime<'_, usize>,
    fun: F,
    a: &mut Data<A>,
    b: &mut Data<B>,
    c: &mut Data<C>,
) -> (next: (TaskId, TaskOwnership)) where F: FnOnce(&A, &B, &mut C)
    requires
        old(rt).task_counter() < usize::MAX,
        old(rt).accepts((old(rt).task_counter() + 1) as usize),
        old(a)@.nb_reads_since_write < usize::MAX,
        old(b)@.nb_reads_since_write < usize::MAX,
        forall|a_value: &A, b_value: &B, c_value: &mut C| call_requires(fun, (a_value, b_value, c_value)),
    ensures
        old(rt).submits(final(rt), final(rt).task_counter(), next),
        final(a)@ == old(a)@.spec_after_read(next.1),
        final(a).shares_with(old(a)),
        final(b)@ == old(b)@.spec_after_read(next.1),
        final(b).shares_with(old(b)),
        final(c)@ == old(c)@.spec_after_write(next.0, next.1),
        final(c).shares_with(old(c)),
        next.1 is Owner ==> exists|a_value: &A, b_value: &B, c_value: &mut C|
            call_ensures(fun, (a_value, b_value, c_value), ()),
{
    let (task_id, ownership) = rt.next_task();
    execute_rr_w(task_id, ownership, fun, a, b, c);
    (task_id, ownership)
}

/// Submits a task that reads `a` and `b` and writes `c`, mapped by the
/// arguments `args`: asks `rt` for the next task and carries it out on this
/// worker. Returns the identifier of the task and whether this worker owned
/// it.
pub fn task_rr_w_args<Args, A, B, C, F>(
    rt: &mut Runtime<'_, Args>,
    args: Args,
    fun: F,
    a: &mut Data<A>,
    b: &mut Data<B>,
    c: &mut Data<C>,
) -> (next: (TaskId, TaskOwnership)) where F: FnOnce(&A, &B, &mut C)
    requires
        old(rt).task_counter() < usize::MAX,
        old(rt).accepts(args),
        old(a)@.nb_reads_since_write < usize::MAX,
        old(b)@.nb_reads_since_write < usize::MAX,
        forall|a_value: &A, b_value: &B, c_value: &mut C| call_requires(fun, (a_value, b_value, c_value)),
    ensures
        old(rt).submits(final(rt), args, next),
        final(a)@ == old(a)@.spec_after_read(next.1),
        final(a).shares_with(old(a)),
        final(b)@ == old(b)@.spec_after_read(next.1),
        final(b).shares_with(old(b)),
        final(c)@ == old(c)@.spec_after_write(next.0, next.1),
        final(c).shares_with(old(c)),
        next.1 is Owner ==> exists|a_value: &A, b_value: &B, c_value: &mut C|
            call_ensures(fun, (a_value, b_value, c_value), ()),
{
    let (task_id, ownership) = rt.next_task_args(args);
    execute_rr_w(task_id, ownership, fun, a, b, c);
    (task_id, ownership)
}

} // verus!
