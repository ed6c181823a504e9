//! Why the workers need not talk to each other to share out the tasks.
//!
//! Every worker numbers the tasks by itself and asks its own copy of the
//! mapping for the executor. As long as all workers submit the same tasks in
//! the same order and the mapping is a function of its arguments, they reach
//! the same conclusions: the same identifier for the same task, and one and
//! the same owner.

use vstd::prelude::*;

use crate::record::TaskId;
use crate::runtime::ExecutorId;
use crate::runtime::Runtime;
use crate::runtime::TaskOwnership;

verus! {

/// The successive states of one runtime, `states`, and the answers `nexts`
/// that it gave when it was asked for the next task with the arguments
/// `args`, one after the other, since it was created.
pub open spec fn submissions<Args>(
    states: Seq<Runtime<'_, Args>>,
    args: Seq<Args>,
    nexts: Seq<(TaskId, TaskOwnership)>,
) -> bool {
    &&& states.len() == nexts.len() + 1
    &&& args.len() == nexts.len()
    &&& states[0].task_counter() == 0
    &&& forall|k: int|
        0 <= k < nexts.len() ==> (#[trigger] states[k]).submits(&states[k + 1], args[k], nexts[k])
}

proof fn lemma_counter_after<Args>(
    states: Seq<Runtime<'_, Args>>,
    args: Seq<Args>,
    nexts: Seq<(TaskId, TaskOwnership)>,
    k: int,
)
    requires
        submissions(states, args, nexts),
        0 <= k <= nexts.len(),
    ensures
        states[k].task_counter() == k,
    decreases k,
{
    if k > 0 {
        lemma_counter_after(states, args, nexts, k - 1);
        assert(states[k - 1].submits(&states[k], args[k - 1], nexts[k - 1]));
    }
}

/// On any worker, the identifiers of the tasks submitted one after the other
/// are 1, 2, 3, and so on, whatever the arguments they are mapped by.
pub proof fn lemma_task_ids_count_up<Args>(
    states: Seq<Runtime<'_, Args>>,
    args: Seq<Args>,
    nexts: Seq<(TaskId, TaskOwnership)>,
)
    requires
        submissions(states, args, nexts),
    ensures
        forall|k: int| 0 <= k < nexts.len() ==> (#[trigger] nexts[k]).0 == TaskId((k + 1) as usize),
{
    assert forall|k: int| 0 <= k < nexts.len() implies (#[trigger] nexts[k]).0 == TaskId(
        (k + 1) as usize,
    ) by {
        lemma_counter_after(states, args, nexts, k + 1);
        assert(states[k].submits(&states[k + 1], args[k], nexts[k]));
    }
}

/// Two workers that have submitted as many tasks as each other, and whose
/// mappings send the arguments `args` to the executor `target` and to no
/// other, give the next task the same identifier, and each of them owns it
/// if and only if it is `target`: they agree on who the owner is.
pub proof fn lemma_workers_agree<Args>(
    one: Runtime<'_, Args>,
    one_after: Runtime<'_, Args>,
    one_next: (TaskId, TaskOwnership),
    other: Runtime<'_, Args>,
    other_after: Runtime<'_, Args>,
    other_next: (TaskId, TaskOwnership),
    args: Args,
    target: ExecutorId,
)
    requires
        one.task_counter() == other.task_counter(),
        one.targets(args, target),
        other.targets(args, target),
        one.submits(&one_after, args, one_next),
        other.submits(&other_after, args, other_next),
    ensures
        one_next.0 == other_next.0,
        one_next.1 is Owner <==> one.executor_id() == target,
        other_next.1 is Owner <==> other.executor_id() == target,
        one_next.1 is Owner && other_next.1 is Owner ==> one.executor_id() == other.executor_id(),
{
}

/// When the workers `0` to `befores.len() - 1` all submit a task whose
/// arguments their mappings send to one of them, `target`, and to no other
/// executor, exactly one of them owns the task: `target`.
pub proof fn lemma_single_owner<Args>(
    befores: Seq<Runtime<'_, Args>>,
    afters: Seq<Runtime<'_, Args>>,
    nexts: Seq<(TaskId, TaskOwnership)>,
    args: Args,
    target: ExecutorId,
)
    requires
        befores.len() == afters.len() == nexts.len(),
        befores.len() <= u32::MAX,
        target.thread_id < befores.len(),
        forall|w: int|
            0 <= w < befores.len() ==> {
                &&& (#[trigger] befores[w]).executor_id() == (ExecutorId { thread_id: w as u32 })
                &&& befores[w].targets(args, target)
                &&& befores[w].submits(&afters[w], args, nexts[w])
            },
    ensures
        nexts[target.thread_id as int].1 is Owner,
        forall|w: int|
            0 <= w < nexts.len() && w != target.thread_id ==> (#[trigger] nexts[w]).1 is NotOwner,
{
    assert(befores[target.thread_id as int].executor_id() == target);
    assert forall|w: int| 0 <= w < nexts.len() && w != target.thread_id implies (
    #[trigger] nexts[w]).1 is NotOwner by {
        assert(befores[w].executor_id() == (ExecutorId { thread_id: w as u32 }));
    }
}

} // verus!
