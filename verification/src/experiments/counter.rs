//! Independent tasks that all do the same work.

use vstd::prelude::*;

use crate::experiments::ids_from;
use crate::experiments::lemma_ran_push;
use crate::experiments::ran;
use crate::runtime::get_round_robin_mapping;
use crate::runtime::RoundRobinMapping;
use crate::runtime::Runtime;
use crate::runtime::TaskOwnership;
use crate::task::task;

verus! {

/// Build the mapping from tasks to executor: the workers take the tasks in
/// turn.
pub fn get_mapping(nb_threads: u32) -> (map: RoundRobinMapping)
    ensures
        map.nb_threads() == nb_threads,
{
    get_round_robin_mapping(nb_threads)
}

/// Submits `n_tasks` independent tasks that touch no data and all do the same
/// work: the worker does the work of the tasks it owns. Each task is mapped
/// by its own identifier.
pub fn count<F>(rt: &mut Runtime<'_, usize>, n_tasks: u64, work: F) where F: Fn() + Copy
    requires
        old(rt).task_counter() + n_tasks <= usize::MAX,
        forall|task_id: usize| old(rt).accepts(task_id),
        call_requires(work, ()),
    ensures
        final(rt).task_counter() == old(rt).task_counter() + n_tasks,
        final(rt).executor_id() == old(rt).executor_id(),
        final(rt).same_mapping(old(rt)),
        exists|owners: Seq<TaskOwnership>| #[trigger]
            ran(*old(rt), ids_from(old(rt).task_counter() as int, n_tasks as int), owners),
{
    let ghost start = rt.task_counter() as int;
    let ghost mut owners: Seq<TaskOwnership> = Seq::empty();
    let mut submitted: u64 = 0;
    while submitted < n_tasks
        invariant
            submitted <= n_tasks,
            start == old(rt).task_counter(),
            start + n_tasks <= usize::MAX,
            rt.task_counter() == start + submitted,
            rt.executor_id() == old(rt).executor_id(),
            rt.same_mapping(old(rt)),
            ran(*old(rt), ids_from(start, submitted as int), owners),
            forall|task_id: usize| old(rt).accepts(task_id),
            call_requires(work, ()),
        decreases n_tasks - submitted,
    {
        let ghost before = *rt;
        let ghost ids = ids_from(start, submitted as int);
        assert(rt.accepts((rt.task_counter() + 1) as usize));
        let next = task(rt, work);
        proof {
            assert(rt.same_mapping(&before));
            lemma_ran_push(*old(rt), before, *rt, ids, owners, rt.task_counter(), next);
            assert(ids.push(rt.task_counter()) =~= ids_from(start, submitted as int + 1));
            owners = owners.push(next.1);
        }
        submitted += 1;
    }
}

} // verus!
