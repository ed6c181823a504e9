use std::sync::Arc;
use std::sync::Mutex;

use rio::get_round_robin_mapping;
use rio::go;
use rio::task::task;
use rio::task::task_args;
use rio::task::task_r;
use rio::task::task_r_w;
use rio::task::task_rr;
use rio::task::task_rr_w;
use rio::task::task_rr_w_args;
use rio::task::task_w;
use rio::task::task_w_args;
use rio::Data;
use rio::DataLockedState;
use rio::ExecutorId;
use rio::GoError;
use rio::Runtime;
use rio::TaskId;
use rio::TaskOwnership;

fn value_of<T: Clone>(data: &Data<T>) -> T {
    let mut holder = data.clone();
    let handle = holder.get_read();
    let value = (*handle).clone();
    handle.release();
    value
}

fn add(a: &i32, b: &mut i32) {
    *b += *a;
}

fn double(a: &mut i32) {
    *a *= 2;
}

fn check_is_answer(a: &i32) {
    assert_eq!(*a, 42);
}

fn add_double_check(mut rt: Runtime, args: (Data<i32>, Data<i32>)) {
    let (mut a, mut b) = args;
    task_r_w(&mut rt, add, &mut a, &mut b);
    task_w(&mut rt, double, &mut b);
    task_r(&mut rt, check_is_answer, &mut b);
}

#[test]
fn two_workers_add_double_and_check() {
    let a = Data::new(1);
    let b = Data::new(20);
    let done = go(2, get_round_robin_mapping(2), (a.clone(), b.clone()), add_double_check);
    assert_eq!(done, Ok(()));
    assert_eq!(value_of(&a), 1);
    assert_eq!(value_of(&b), 42);
    assert_eq!(
        a.shared_state(),
        DataLockedState { last_executed_write: 0, nb_reads_since_write: 2, nb_threads_waiting: 0 }
    );
    assert_eq!(
        b.shared_state(),
        DataLockedState { last_executed_write: 2, nb_reads_since_write: 2, nb_threads_waiting: 0 }
    );
}

fn increment(x: &mut u64) {
    *x += 1;
}

fn thousand_increments(mut rt: Runtime, x: Data<u64>) {
    let mut x = x;
    for _ in 0..1000 {
        task_w(&mut rt, increment, &mut x);
    }
}

#[test]
fn a_thousand_writes_by_two_workers() {
    let x = Data::new(0u64);
    let done = go(2, get_round_robin_mapping(2), x.clone(), thousand_increments);
    assert_eq!(done, Ok(()));
    assert_eq!(value_of(&x), 1000);
    assert_eq!(x.shared_state().last_executed_write, 1000);
}

fn spread_increments(mut rt: Runtime, counters: Vec<Data<u64>>) {
    let mut counters = counters;
    for submission in 0..1024usize {
        task_w(&mut rt, increment, &mut counters[submission % 16]);
    }
}

#[test]
fn independent_data_on_four_workers() {
    let counters: Vec<Data<u64>> = (0..16).map(|_| Data::new(0)).collect();
    let map = |task_id: usize| ExecutorId::new((task_id % 4) as u32);
    let done = go(4, map, counters.clone(), spread_increments);
    assert_eq!(done, Ok(()));
    for counter in counters.iter() {
        assert_eq!(value_of(counter), 64);
    }
}

fn flip(from: &i64, to: &mut i64) {
    *to = -*from;
}

fn flips(mut rt: Runtime, args: (Data<i64>, Data<i64>)) {
    let (mut a, mut b) = args;
    for submission in 0..500 {
        if submission % 2 == 0 {
            task_r_w(&mut rt, flip, &mut a, &mut b);
        } else {
            task_r_w(&mut rt, flip, &mut b, &mut a);
        }
    }
}

#[test]
fn alternating_dependencies_between_two_data() {
    let a = Data::new(0i64);
    let b = Data::new(0i64);
    let done = go(2, get_round_robin_mapping(2), (a.clone(), b.clone()), flips);
    assert_eq!(done, Ok(()));
    assert_eq!(value_of(&a), 0);
    assert_eq!(value_of(&b), 0);
}

fn step(from: &u64, to: &mut u64) {
    *to = *from + 1;
}

fn ping_pong(mut rt: Runtime, args: (Data<u64>, Data<u64>)) {
    let (mut a, mut b) = args;
    for submission in 0..500 {
        if submission % 2 == 0 {
            task_r_w(&mut rt, step, &mut a, &mut b);
        } else {
            task_r_w(&mut rt, step, &mut b, &mut a);
        }
    }
}

#[test]
fn every_flip_sees_the_one_before() {
    // Each task adds one to what the task before it wrote: any task that ran
    // too early would leave a smaller number.
    let a = Data::new(0u64);
    let b = Data::new(0u64);
    let done = go(2, get_round_robin_mapping(2), (a.clone(), b.clone()), ping_pong);
    assert_eq!(done, Ok(()));
    assert_eq!(value_of(&a), 500);
    assert_eq!(value_of(&b), 499);
}

fn sign(mut rt: Runtime, log: Data<Vec<u32>>) {
    let mut log = log;
    let me = rt.id().thread_id;
    for _ in 0..100 {
        task_w(&mut rt, |log: &mut Vec<u32>| log.push(me), &mut log);
    }
}

#[test]
fn a_constant_mapping_gives_every_task_to_one_worker() {
    let log = Data::new(Vec::new());
    let map = |_task_id: usize| ExecutorId::new(0);
    let done = go(2, map, log.clone(), sign);
    assert_eq!(done, Ok(()));
    assert_eq!(value_of(&log), vec![0u32; 100]);
}

type Journal = Arc<Mutex<Vec<(u32, TaskId, TaskOwnership)>>>;

fn journal_submissions(mut rt: Runtime, journal: Journal) {
    let me = rt.id().thread_id;
    for _ in 0..50 {
        let (task_id, ownership) = task(&mut rt, || ());
        journal.lock().unwrap().push((me, task_id, ownership));
    }
}

#[test]
fn every_submission_has_one_owner_and_one_id() {
    let journal: Journal = Arc::new(Mutex::new(Vec::new()));
    let done = go(3, get_round_robin_mapping(3), journal.clone(), journal_submissions);
    assert_eq!(done, Ok(()));
    let journal = journal.lock().unwrap();
    assert_eq!(journal.len(), 150);
    for worker in 0..3u32 {
        let ids: Vec<TaskId> =
            journal.iter().filter(|entry| entry.0 == worker).map(|entry| entry.1).collect();
        let expected: Vec<TaskId> = (1..=50).map(TaskId).collect();
        assert_eq!(ids, expected);
    }
    for submission in 1..=50usize {
        let owners: Vec<u32> = journal
            .iter()
            .filter(|entry| entry.1 == TaskId(submission) && entry.2 == TaskOwnership::Owner)
            .map(|entry| entry.0)
            .collect();
        assert_eq!(owners, vec![(submission % 3) as u32]);
    }
}

fn count_executions(mut rt: Runtime, executed: Arc<Mutex<Vec<usize>>>) {
    for submission in 0..40usize {
        let executed = executed.clone();
        task(&mut rt, move || executed.lock().unwrap()[submission] += 1);
    }
}

#[test]
fn every_body_runs_exactly_once() {
    let executed = Arc::new(Mutex::new(vec![0usize; 40]));
    let done = go(4, get_round_robin_mapping(4), executed.clone(), count_executions);
    assert_eq!(done, Ok(()));
    assert_eq!(*executed.lock().unwrap(), vec![1usize; 40]);
}

fn by_custom_arguments(mut rt: Runtime<(usize, usize)>, tiles: Vec<Data<Vec<(usize, usize)>>>) {
    let mut tiles = tiles;
    for i in 0..4usize {
        for j in 0..4usize {
            task_w_args(
                &mut rt,
                (i, j),
                |tile: &mut Vec<(usize, usize)>| tile.push((i, j)),
                &mut tiles[j],
            );
        }
    }
    let (task_id, _) = task_args(&mut rt, (0, 0), || ());
    assert_eq!(task_id, TaskId(17));
}

#[test]
fn tasks_mapped_by_their_own_arguments() {
    let tiles: Vec<Data<Vec<(usize, usize)>>> = (0..4).map(|_| Data::new(Vec::new())).collect();
    let map = |(i, j): (usize, usize)| ExecutorId::new(((i + j * 4) % 3) as u32);
    let done = go(3, map, tiles.clone(), by_custom_arguments);
    assert_eq!(done, Ok(()));
    for (j, tile) in tiles.iter().enumerate() {
        assert_eq!(value_of(tile), vec![(0, j), (1, j), (2, j), (3, j)]);
    }
}

fn two_reads(rt: Runtime, args: (Data<u8>, Data<u8>, Arc<Mutex<Vec<u8>>>)) {
    let mut rt = rt;
    let (mut a, mut b, seen) = args;
    task_rr(&mut rt, |a: &u8, b: &u8| seen.lock().unwrap().push(*a + *b), &mut a, &mut b);
}

#[test]
fn a_task_with_two_reads() {
    let seen = Arc::new(Mutex::new(Vec::new()));
    let done =
        go(2, get_round_robin_mapping(2), (Data::new(3), Data::new(4), seen.clone()), two_reads);
    assert_eq!(done, Ok(()));
    assert_eq!(*seen.lock().unwrap(), vec![7]);
}

fn mix(a: &u64, b: &u64, c: &mut u64) {
    *c = c.wrapping_mul(31).wrapping_add(*a).wrapping_add(b.rotate_left(7)).wrapping_add(1);
}

fn bump(a: &u64, c: &mut u64) {
    *c = c.wrapping_mul(17).wrapping_add(*a).wrapping_add(3);
}

fn touch(c: &mut u64) {
    *c = c.wrapping_mul(5).wrapping_add(11);
}

fn next_random(state: &mut usize) -> usize {
    let mut x = *state;
    x ^= x << 13;
    x ^= x >> 7;
    x ^= x << 17;
    *state = x;
    x
}

fn three_of<T>(items: &mut [T], a: usize, b: usize, c: usize) -> (&mut T, &mut T, &mut T) {
    let mut order = [(a, 0usize), (b, 1), (c, 2)];
    order.sort();
    let (low, rest) = items.split_at_mut(order[1].0);
    let (middle, high) = rest.split_at_mut(order[2].0 - order[1].0);
    let mut found = [Some(&mut low[order[0].0]), Some(&mut middle[0]), Some(&mut high[0])];
    let mut by_rank: [Option<&mut T>; 3] = [None, None, None];
    for (slot, (_, rank)) in order.iter().enumerate() {
        by_rank[*rank] = found[slot].take();
    }
    let [first, second, third] = by_rank;
    (first.unwrap(), second.unwrap(), third.unwrap())
}

fn two_of<T>(items: &mut [T], a: usize, c: usize) -> (&mut T, &mut T) {
    if a < c {
        let (low, high) = items.split_at_mut(c);
        (&mut low[a], &mut high[0])
    } else {
        let (low, high) = items.split_at_mut(a);
        (&mut high[0], &mut low[c])
    }
}

const NB_DATA: usize = 256;
const NB_TASKS: usize = 100_000;

fn random_tasks(mut rt: Runtime, data: Vec<Data<u64>>) {
    let mut data = data;
    let mut state = 0x92d68ca2usize;
    for _ in 0..NB_TASKS {
        let x = next_random(&mut state);
        let a = x % NB_DATA;
        let b = (x >> 8) % NB_DATA;
        let c = (x >> 16) % NB_DATA;
        if a != b && a != c && b != c {
            let (a, b, c) = three_of(&mut data, a, b, c);
            task_rr_w(&mut rt, mix, a, b, c);
        } else if a != c {
            let (a, c) = two_of(&mut data, a, c);
            task_r_w(&mut rt, bump, a, c);
        } else {
            task_w(&mut rt, touch, &mut data[c]);
        }
    }
}

fn replay() -> Vec<u64> {
    let mut values: Vec<u64> = (0..NB_DATA as u64).collect();
    let mut state = 0x92d68ca2usize;
    for _ in 0..NB_TASKS {
        let x = next_random(&mut state);
        let a = x % NB_DATA;
        let b = (x >> 8) % NB_DATA;
        let c = (x >> 16) % NB_DATA;
        if a != b && a != c && b != c {
            let (va, vb) = (values[a], values[b]);
            mix(&va, &vb, &mut values[c]);
        } else if a != c {
            let va = values[a];
            bump(&va, &mut values[c]);
        } else {
            touch(&mut values[c]);
        }
    }
    values
}

#[test]
fn random_tasks_on_eight_workers_match_a_sequential_replay() {
    let data: Vec<Data<u64>> = (0..NB_DATA as u64).map(Data::new).collect();
    let done = go(8, get_round_robin_mapping(8), data.clone(), random_tasks);
    assert_eq!(done, Ok(()));
    let values: Vec<u64> = data.iter().map(value_of).collect();
    assert_eq!(values, replay());
}

fn block_tasks(mut rt: Runtime<(usize, usize)>, data: Vec<Data<u64>>) {
    let mut data = data;
    for i in 0..6usize {
        for j in 0..6usize {
            if i != j {
                let (a, b, c) = three_of(&mut data, i, j, 6);
                task_rr_w_args(&mut rt, (i, j), mix, a, b, c);
            }
        }
    }
}

#[test]
fn three_data_tasks_mapped_by_arguments() {
    let data: Vec<Data<u64>> = (0..7u64).map(Data::new).collect();
    let map = |(i, j): (usize, usize)| ExecutorId::new(((i % 2) * 2 + j % 2) as u32);
    let done = go(4, map, data.clone(), block_tasks);
    assert_eq!(done, Ok(()));
    let mut expected = 6u64;
    for i in 0..6u64 {
        for j in 0..6u64 {
            if i != j {
                mix(&i, &j, &mut expected);
            }
        }
    }
    assert_eq!(value_of(&data[6]), expected);
}

fn failing(rt: Runtime, _args: ()) {
    if rt.id().thread_id == 1 {
        panic!("this worker fails");
    }
}

#[test]
fn a_panicking_worker_fails_the_computation() {
    let done = go(3, get_round_robin_mapping(3), (), failing);
    assert_eq!(done, Err(GoError::WorkerPanicked));
}

fn idle(_rt: Runtime, _args: ()) {
}

#[test]
fn no_worker_at_all() {
    assert_eq!(go(0, get_round_robin_mapping(1), (), idle), Ok(()));
}

fn report(rt: Runtime, seen: Arc<Mutex<Vec<(u32, usize)>>>) {
    seen.lock().unwrap().push((rt.id().thread_id, rt.nb_tasks()));
}

#[test]
fn every_worker_gets_a_fresh_runtime_of_its_own() {
    let seen = Arc::new(Mutex::new(Vec::new()));
    let done = go(5, get_round_robin_mapping(5), seen.clone(), report);
    assert_eq!(done, Ok(()));
    let mut seen = seen.lock().unwrap().clone();
    seen.sort();
    assert_eq!(seen, vec![(0, 0), (1, 0), (2, 0), (3, 0), (4, 0)]);
}

fn fail_then_read(mut rt: Runtime, x: Data<u32>) {
    let mut x = x;
    task_w(
        &mut rt,
        |x: &mut u32| {
            *x = 9;
            panic!("the task fails");
        },
        &mut x,
    );
    task_r(&mut rt, |x: &u32| assert_eq!(*x, 9), &mut x);
}

#[test]
fn a_panicking_task_does_not_keep_the_others_waiting() {
    // The first task belongs to worker 1, which panics in it; the second
    // task belongs to worker 0, which waits for the first one.
    let x = Data::new(0u32);
    let done = go(2, get_round_robin_mapping(2), x.clone(), fail_then_read);
    assert_eq!(done, Err(GoError::WorkerPanicked));
    assert_eq!(value_of(&x), 9);
}
