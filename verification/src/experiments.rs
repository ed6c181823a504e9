//! Example workloads that run on the runtime: they submit the tasks of a
//! computation and leave the work of each task to the functions they are
//! given.

pub mod counter;
pub mod counter_deps;
pub mod lu_counter;
pub mod mm_counter;

use vstd::prelude::*;

use crate::data::lemma_sharing_is_an_equivalence;
use crate::data::Data;
use crate::record::DataLocalState;
use crate::record::TaskId;
use crate::runtime::ExecutorId;
use crate::runtime::Runtime;
use crate::runtime::TaskOwnership;

verus! {

/// Whether no holder among `data` has counted more reads than `bound`. A
/// worker never counts more reads on a piece of data than it has submitted
/// tasks.
pub open spec fn reads_within<T>(data: Seq<Data<T>>, bound: int) -> bool {
    forall|k: int| 0 <= k < data.len() ==> (#[trigger] data[k])@.nb_reads_since_write <= bound
}

/// Whether `after` holds the same pieces of data as `before`, one for one.
pub open spec fn same_data<T>(before: Seq<Data<T>>, after: Seq<Data<T>>) -> bool {
    &&& after.len() == before.len()
    &&& forall|k: int| 0 <= k < after.len() ==> (#[trigger] after[k]).shares_with(&before[k])
}

/// Any pieces of data are the same as themselves.
pub proof fn lemma_same_data_reflexive<T>(data: Seq<Data<T>>)
    ensures
        same_data(data, data),
{
    assert forall|k: int| 0 <= k < data.len() implies (#[trigger] data[k]).shares_with(
        &data[k],
    ) by {
        lemma_sharing_is_an_equivalence(&data[k], &data[k], &data[k]);
    }
}

/// Pieces of data stay the same when each of them is replaced by a holder of
/// the same piece of data.
pub proof fn lemma_same_data_transitive<T>(
    origin: Seq<Data<T>>,
    before: Seq<Data<T>>,
    after: Seq<Data<T>>,
)
    requires
        same_data(origin, before),
        same_data(before, after),
    ensures
        same_data(origin, after),
{
    assert forall|k: int| 0 <= k < after.len() implies (#[trigger] after[k]).shares_with(
        &origin[k],
    ) by {
        lemma_sharing_is_an_equivalence(&after[k], &before[k], &origin[k]);
    }
}

/// The pieces of data that a task names among the pieces of data of a list,
/// by their places in the list: those that it reads, then the one that it
/// writes.
pub enum Names {
    /// The task names none of them.
    Nothing,
    /// The task reads one.
    Read(int),
    /// The task reads two.
    ReadRead(int, int),
    /// The task writes one.
    Write(int),
    /// The task reads one and writes another.
    ReadWrite(int, int),
    /// The task reads two and writes a third.
    ReadReadWrite(int, int, int),
}

/// The records of the holders of a list of pieces of data.
pub open spec fn views<T>(data: Seq<Data<T>>) -> Seq<DataLocalState> {
    Seq::new(data.len(), |k: int| data[k]@)
}

/// The records of a worker after it has submitted the task `task_id`, which
/// names `names`, given its ownership of the task.
pub open spec fn records_after(
    records: Seq<DataLocalState>,
    names: Names,
    task_id: TaskId,
    ownership: TaskOwnership,
) -> Seq<DataLocalState> {
    match names {
        Names::Nothing => records,
        Names::Read(a) => records.update(a, records[a].spec_after_read(ownership)),
        Names::ReadRead(a, b) => records.update(a, records[a].spec_after_read(ownership)).update(
            b,
            records[b].spec_after_read(ownership),
        ),
        Names::Write(c) => records.update(c, records[c].spec_after_write(task_id, ownership)),
        Names::ReadWrite(a, c) => records.update(a, records[a].spec_after_read(ownership)).update(
            c,
            records[c].spec_after_write(task_id, ownership),
        ),
        Names::ReadReadWrite(a, b, c) => records.update(
            a,
            records[a].spec_after_read(ownership),
        ).update(b, records[b].spec_after_read(ownership)).update(
            c,
            records[c].spec_after_write(task_id, ownership),
        ),
    }
}

/// The records of a worker after it has submitted the tasks of `program`
/// one after the other, the first of them being the task `first_id + 1`,
/// given its ownership of each of them.
pub open spec fn replay(
    program: Seq<Names>,
    owners: Seq<TaskOwnership>,
    start: Seq<DataLocalState>,
    first_id: int,
) -> Seq<DataLocalState>
    decreases program.len(),
{
    if program.len() == 0 {
        start
    } else {
        records_after(
            replay(program.drop_last(), owners.drop_last(), start, first_id),
            program.last(),
            TaskId((first_id + program.len()) as usize),
            owners.last(),
        )
    }
}

/// Whether `ownership` is what the runtime `rt` may find for a task mapped
/// by `args`: the task is owned if the mapping sends `args` to this worker.
pub open spec fn mapped<Args>(rt: Runtime<'_, Args>, args: Args, ownership: TaskOwnership) -> bool {
    exists|target: ExecutorId| #[trigger]
        rt.maps_to(args, target) && ownership == TaskOwnership::spec_of(target, rt.executor_id())
}

/// Whether `owners` are the ownerships that the runtime `rt` may find for
/// tasks mapped by `args`, one for one.
pub open spec fn ran<Args>(
    rt: Runtime<'_, Args>,
    args: Seq<Args>,
    owners: Seq<TaskOwnership>,
) -> bool {
    &&& owners.len() == args.len()
    &&& forall|k: int| 0 <= k < args.len() ==> mapped(rt, #[trigger] args[k], owners[k])
}

/// The identifiers of the `n` tasks that follow the task `first_id`.
pub open spec fn ids_from(first_id: int, n: int) -> Seq<usize> {
    Seq::new(n as nat, |k: int| (first_id + k + 1) as usize)
}

/// Submitting one more task is one more step of the replay.
pub proof fn lemma_replay_push(
    program: Seq<Names>,
    owners: Seq<TaskOwnership>,
    start: Seq<DataLocalState>,
    first_id: int,
    names: Names,
    ownership: TaskOwnership,
)
    ensures
        replay(program.push(names), owners.push(ownership), start, first_id) == records_after(
            replay(program, owners, start, first_id),
            names,
            TaskId((first_id + program.len() + 1) as usize),
            ownership,
        ),
{
    assert(program.push(names).drop_last() =~= program);
    assert(owners.push(ownership).drop_last() =~= owners);
}

/// One more task that the runtime found `ownership` for is one more task
/// that ran.
pub proof fn lemma_ran_push<Args>(
    origin: Runtime<'_, Args>,
    before: Runtime<'_, Args>,
    after: Runtime<'_, Args>,
    args: Seq<Args>,
    owners: Seq<TaskOwnership>,
    arg: Args,
    next: (TaskId, TaskOwnership),
)
    requires
        ran(origin, args, owners),
        before.same_mapping(&origin),
        before.executor_id() == origin.executor_id(),
        before.submits(&after, arg, next),
    ensures
        ran(origin, args.push(arg), owners.push(next.1)),
{
    let target = choose|target: ExecutorId| #[trigger]
        before.maps_to(arg, target) && next.1 == TaskOwnership::spec_of(
            target,
            before.executor_id(),
        );
    assert(origin.maps_to(arg, target));
    assert(mapped(origin, arg, next.1));
    let new_args = args.push(arg);
    let new_owners = owners.push(next.1);
    assert forall|k: int| 0 <= k < new_args.len() implies mapped(
        origin,
        #[trigger] new_args[k],
        new_owners[k],
    ) by {
        if k < args.len() {
            assert(mapped(origin, args[k], owners[k]));
        }
    }
}

} // verus!
