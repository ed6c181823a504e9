use rio::get_round_robin_mapping;
use rio::runtime::name_of_worker;
use rio::runtime::worker;
use rio::runtime::workers;
use rio::ExecutorId;
use rio::GoError;
use rio::Mapping;
use rio::Runtime;
use rio::TaskId;
use rio::TaskOwnership;

#[test]
fn executor_id_new_keeps_the_thread_id() {
    assert_eq!(ExecutorId::new(3), ExecutorId { thread_id: 3 });
    assert_eq!(ExecutorId::new(3).thread_id, 3);
}

#[test]
fn round_robin_mapping_cycles_through_the_workers() {
    let map = get_round_robin_mapping(3);
    assert_eq!(map.executor(0), ExecutorId::new(0));
    assert_eq!(map.executor(1), ExecutorId::new(1));
    assert_eq!(map.executor(2), ExecutorId::new(2));
    assert_eq!(map.executor(3), ExecutorId::new(0));
    assert_eq!(map.executor(10), ExecutorId::new(1));
}

#[test]
fn round_robin_mapping_over_one_worker_is_constant() {
    let map = get_round_robin_mapping(1);
    assert_eq!(map.executor(0), ExecutorId::new(0));
    assert_eq!(map.executor(12345), ExecutorId::new(0));
}

#[test]
fn closures_are_mappings() {
    let map = |task_id: usize| ExecutorId::new((task_id as u32) % 2);
    assert_eq!(map.executor(5), ExecutorId::new(1));
    let by_pair = |(i, j): (usize, usize)| ExecutorId::new(((i % 4) * 6 + j % 6) as u32);
    assert_eq!(by_pair.executor((5, 7)), ExecutorId::new(7));
}

#[test]
fn ownership_is_equality_of_executors() {
    assert_eq!(TaskOwnership::of(ExecutorId::new(2), ExecutorId::new(2)), TaskOwnership::Owner);
    assert_eq!(TaskOwnership::of(ExecutorId::new(2), ExecutorId::new(1)), TaskOwnership::NotOwner);
}

#[test]
fn a_new_runtime_has_submitted_nothing() {
    let rt = Runtime::new(4, get_round_robin_mapping(8));
    assert_eq!(rt.id(), ExecutorId::new(4));
    assert_eq!(rt.nb_tasks(), 0);
}

#[test]
fn task_ids_count_up_from_one() {
    let mut rt = Runtime::new(0, get_round_robin_mapping(2));
    for expected in 1..=100usize {
        let (task_id, _) = rt.next_task();
        assert_eq!(task_id, TaskId(expected));
        assert_eq!(rt.nb_tasks(), expected);
    }
}

#[test]
fn task_ids_count_up_whichever_way_the_task_is_mapped() {
    let mut rt = Runtime::new(0, get_round_robin_mapping(2));
    assert_eq!(rt.next_task().0, TaskId(1));
    assert_eq!(rt.next_task_args(40).0, TaskId(2));
    assert_eq!(rt.next_task_args(40).0, TaskId(3));
    assert_eq!(rt.next_task().0, TaskId(4));
}

#[test]
fn next_task_maps_the_new_task_id() {
    // Worker 1 of 2 owns the odd tasks: the first task has identifier 1.
    let mut rt = Runtime::new(1, get_round_robin_mapping(2));
    assert_eq!(rt.next_task(), (TaskId(1), TaskOwnership::Owner));
    assert_eq!(rt.next_task(), (TaskId(2), TaskOwnership::NotOwner));
    assert_eq!(rt.next_task(), (TaskId(3), TaskOwnership::Owner));
    let mut rt = Runtime::new(0, get_round_robin_mapping(2));
    assert_eq!(rt.next_task(), (TaskId(1), TaskOwnership::NotOwner));
    assert_eq!(rt.next_task(), (TaskId(2), TaskOwnership::Owner));
}

#[test]
fn next_task_args_maps_the_given_arguments() {
    let mut rt = Runtime::new(1, get_round_robin_mapping(2));
    assert_eq!(rt.next_task_args(8), (TaskId(1), TaskOwnership::NotOwner));
    assert_eq!(rt.next_task_args(9), (TaskId(2), TaskOwnership::Owner));
    let by_pair = |(i, j): (usize, usize)| ExecutorId::new(((i + j * 32) % 3) as u32);
    let mut rt = Runtime::new(2, by_pair);
    assert_eq!(rt.next_task_args((1, 1)), (TaskId(1), TaskOwnership::NotOwner));
    assert_eq!(rt.next_task_args((0, 1)), (TaskId(2), TaskOwnership::Owner));
}

#[test]
fn all_workers_agree_on_every_task() {
    let nb_threads = 4u32;
    let mut workers: Vec<Runtime> =
        (0..nb_threads).map(|id| Runtime::new(id, get_round_robin_mapping(nb_threads))).collect();
    for submission in 1..=64usize {
        let mut owners = Vec::new();
        for (id, rt) in workers.iter_mut().enumerate() {
            let (task_id, ownership) = rt.next_task();
            assert_eq!(task_id, TaskId(submission));
            if ownership == TaskOwnership::Owner {
                owners.push(id);
            }
        }
        assert_eq!(owners, vec![submission % 4]);
    }
}

#[test]
fn outcome_of_a_computation() {
    assert_eq!(GoError::outcome(Some(true)), Ok(()));
    assert_eq!(GoError::outcome(Some(false)), Err(GoError::SpawnFailed));
    assert_eq!(GoError::outcome(None), Err(GoError::WorkerPanicked));
}

#[test]
fn workers_are_named_by_their_number() {
    assert_eq!(name_of_worker(0), "T0");
    assert_eq!(name_of_worker(7), "T7");
    assert_eq!(name_of_worker(10), "T10");
    assert_eq!(name_of_worker(4096), "T4096");
    assert_eq!(name_of_worker(u32::MAX as usize), "T4294967295");
}

#[test]
fn a_worker_starts_with_a_fresh_runtime_and_its_own_arguments() {
    let map = get_round_robin_mapping(4);
    let args = vec![1, 2, 3];
    let (mut rt, worker_args): (Runtime, Vec<i32>) = worker(3, &map, &args);
    assert_eq!(rt.id(), ExecutorId::new(3));
    assert_eq!(rt.nb_tasks(), 0);
    assert_eq!(worker_args, vec![1, 2, 3]);
    // It decides as the mapping does: worker 3 of 4 owns the third task.
    assert_eq!(rt.next_task(), (TaskId(1), TaskOwnership::NotOwner));
    assert_eq!(rt.next_task(), (TaskId(2), TaskOwnership::NotOwner));
    assert_eq!(rt.next_task(), (TaskId(3), TaskOwnership::Owner));
}

#[test]
fn the_starts_of_all_workers_come_in_order() {
    let map = get_round_robin_mapping(3);
    let starts = workers::<_, String, usize>(3, &map, &String::from("shared"));
    assert_eq!(starts.len(), 3);
    for (i, start) in starts.into_iter().enumerate() {
        assert_eq!(start.name, format!("T{}", i));
        assert_eq!(start.rt.id(), ExecutorId::new(i as u32));
        assert_eq!(start.rt.nb_tasks(), 0);
        assert_eq!(start.args, "shared");
    }
    assert!(workers::<_, (), usize>(0, &map, &()).is_empty());
}
