use rio::Access;
use rio::DataLocalState;
use rio::DataLockedState;
use rio::TaskId;

fn local(last_registered_write: usize, nb_reads_since_write: usize, dirty: bool) -> DataLocalState {
    DataLocalState { last_registered_write, nb_reads_since_write, dirty }
}

fn locked(
    last_executed_write: usize,
    nb_reads_since_write: usize,
    nb_threads_waiting: usize,
) -> DataLockedState {
    DataLockedState { last_executed_write, nb_reads_since_write, nb_threads_waiting }
}

#[test]
fn fresh_records_are_all_zero() {
    assert_eq!(DataLocalState::new(), local(0, 0, false));
    assert_eq!(DataLockedState::new(), locked(0, 0, 0));
}

#[test]
fn declare_read_bumps_the_read_count_only() {
    let mut state = local(4, 2, false);
    state.declare_read();
    assert_eq!(state, local(4, 3, false));
    let mut state = local(4, 2, true);
    state.declare_read();
    assert_eq!(state, local(4, 3, true));
}

#[test]
fn declare_write_registers_the_task_and_marks_dirty() {
    let mut state = local(4, 2, false);
    state.declare_write(TaskId(9));
    assert_eq!(state, local(9, 0, true));
}

#[test]
fn terminate_read_declares_and_cleans() {
    let mut state = local(4, 2, true);
    state.terminate_read();
    assert_eq!(state, local(4, 3, false));
}

#[test]
fn terminate_write_declares_and_cleans() {
    let mut state = local(4, 2, true);
    state.terminate_write(TaskId(7));
    assert_eq!(state, local(7, 0, false));
}

#[test]
fn a_read_waits_for_the_last_registered_write_only() {
    let state = local(5, 3, true);
    assert!(state.read_is_ready(&locked(5, 0, 0)));
    assert!(state.read_is_ready(&locked(5, 3, 2)));
    assert!(!state.read_is_ready(&locked(4, 3, 0)));
    assert!(!state.read_is_ready(&locked(0, 0, 0)));
    assert!(state.is_ready(Access::Read, &locked(5, 1, 0)));
    assert!(!state.must_wait(Access::Read, &locked(5, 1, 0)));
    assert!(state.must_wait(Access::Read, &locked(6, 3, 0)));
}

#[test]
fn a_write_waits_for_the_reads_too() {
    let state = local(5, 3, true);
    assert!(state.write_is_ready(&locked(5, 3, 0)));
    assert!(state.write_is_ready(&locked(5, 3, 7)));
    assert!(!state.write_is_ready(&locked(5, 2, 0)));
    assert!(!state.write_is_ready(&locked(4, 3, 0)));
    assert!(!state.write_is_ready(&locked(4, 2, 0)));
    assert!(state.is_ready(Access::Write, &locked(5, 3, 0)));
    assert!(state.must_wait(Access::Write, &locked(5, 2, 0)));
    assert!(!state.must_wait(Access::Write, &locked(5, 3, 0)));
}

#[test]
fn fresh_records_are_ready_for_anything() {
    let state = DataLocalState::new();
    let shared = DataLockedState::new();
    assert!(state.read_is_ready(&shared));
    assert!(state.write_is_ready(&shared));
}

#[test]
fn read_done_counts_one_more_read() {
    assert_eq!(locked(3, 4, 1).read_done(), locked(3, 5, 1));
    assert_eq!(locked(0, 0, 0).read_done(), locked(0, 1, 0));
}

#[test]
fn read_done_wraps_around() {
    assert_eq!(locked(3, usize::MAX, 1).read_done(), locked(3, 0, 1));
}

#[test]
fn write_done_records_the_task_and_forgets_the_reads() {
    assert_eq!(locked(3, 4, 1).write_done(TaskId(8)), locked(8, 0, 1));
}

#[test]
fn waiters_are_counted_in_and_out() {
    let parked = locked(3, 4, 0).enqueue_waiter();
    assert_eq!(parked, locked(3, 4, 1));
    assert!(parked.has_waiters());
    let left = parked.dequeue_waiter();
    assert_eq!(left, locked(3, 4, 0));
    assert!(!left.has_waiters());
}

#[test]
fn the_waiter_count_wraps_around() {
    assert_eq!(locked(0, 0, usize::MAX).enqueue_waiter(), locked(0, 0, 0));
    assert_eq!(locked(0, 0, 0).dequeue_waiter(), locked(0, 0, usize::MAX));
}
