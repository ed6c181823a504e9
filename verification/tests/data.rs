use rio::Data;
use rio::DataLocalState;
use rio::DataLockedState;
use rio::Published;
use rio::TaskId;

fn local(last_registered_write: usize, nb_reads_since_write: usize, dirty: bool) -> DataLocalState {
    DataLocalState { last_registered_write, nb_reads_since_write, dirty }
}

fn locked(
    last_executed_write: usize,
    nb_reads_since_write: usize,
    nb_threads_waiting: usize,
) -> DataLockedState {
    DataLockedState { last_executed_write, nb_reads_since_write, nb_threads_waiting }
}

#[test]
fn new_data_has_fresh_records() {
    let data = Data::new(7);
    assert_eq!(data.local_state(), local(0, 0, false));
    assert_eq!(data.shared_state(), locked(0, 0, 0));
}

#[test]
fn default_data_holds_the_default_value() {
    let mut data: Data<i32> = Data::default();
    assert_eq!(data.local_state(), local(0, 0, false));
    let handle = data.get_read();
    assert_eq!(*handle, 0);
    handle.release();
}

#[test]
fn declarations_touch_the_local_record_only() {
    let mut data = Data::new(());
    data.declare_read();
    data.declare_read();
    assert_eq!(data.local_state(), local(0, 2, false));
    data.declare_write(TaskId(3));
    assert_eq!(data.local_state(), local(3, 0, true));
    data.declare_read();
    assert_eq!(data.local_state(), local(3, 1, true));
    assert_eq!(data.shared_state(), locked(0, 0, 0));
}

#[test]
fn readiness_compares_the_local_record_with_the_shared_one() {
    let mut data = Data::new(());
    data.declare_write(TaskId(2));
    data.declare_read();
    assert!(data.read_is_ready(&locked(2, 0, 0)));
    assert!(!data.read_is_ready(&locked(1, 1, 0)));
    assert!(data.write_is_ready(&locked(2, 1, 0)));
    assert!(!data.write_is_ready(&locked(2, 0, 0)));
    assert!(!data.write_is_ready(&locked(1, 1, 0)));
}

#[test]
fn a_read_handle_gives_the_value_and_its_release_publishes_the_read() {
    let mut data = Data::new(41);
    let handle = data.get_read();
    assert_eq!(*handle, 41);
    handle.release();
    assert_eq!(data.local_state(), local(0, 1, false));
    assert_eq!(data.shared_state(), locked(0, 1, 0));
}

#[test]
fn a_write_handle_changes_the_value_and_its_release_publishes_the_write() {
    let mut data = Data::new(20);
    let mut handle = data.get_write(TaskId(1));
    assert_eq!(*handle, 20);
    *handle.deref_mut() += 1;
    assert_eq!(*handle, 21);
    handle.release();
    assert_eq!(data.local_state(), local(1, 0, false));
    assert_eq!(data.shared_state(), locked(1, 0, 0));
    let handle = data.get_read();
    assert_eq!(*handle, 21);
    handle.release();
    assert_eq!(data.local_state(), local(1, 1, false));
    assert_eq!(data.shared_state(), locked(1, 1, 0));
    let handle = data.get_write(TaskId(5));
    handle.release();
    assert_eq!(data.local_state(), local(5, 0, false));
    assert_eq!(data.shared_state(), locked(5, 0, 0));
}

#[test]
fn a_clone_shares_the_value_and_the_shared_record() {
    let mut data = Data::new(1);
    let mut other = data.clone();
    assert_eq!(other.local_state(), local(0, 0, false));
    let mut handle = data.get_write(TaskId(1));
    *handle.deref_mut() = 9;
    handle.release();
    assert_eq!(other.shared_state(), locked(1, 0, 0));
    assert_eq!(other.local_state(), local(0, 0, false));
    other.declare_write(TaskId(1));
    let handle = other.get_read();
    assert_eq!(*handle, 9);
    handle.release();
    assert_eq!(other.local_state(), local(1, 1, false));
    assert_eq!(data.shared_state(), locked(1, 1, 0));
}

#[test]
fn a_clone_copies_the_local_record() {
    let mut data = Data::new(());
    data.declare_write(TaskId(4));
    data.declare_read();
    let other = data.clone();
    assert_eq!(other.local_state(), local(4, 1, true));
}

#[test]
fn a_clean_read_does_not_consult_the_shared_record() {
    // The other holder has executed a write that this holder has not heard
    // of: a read that consulted the shared record would wait for ever.
    let mut data = Data::new(3);
    let mut other = data.clone();
    let handle = other.get_write(TaskId(1));
    handle.release();
    assert_eq!(data.shared_state(), locked(1, 0, 0));
    assert_eq!(data.local_state(), local(0, 0, false));
    let handle = data.get_read();
    assert_eq!(*handle, 3);
    handle.release();
    assert_eq!(data.local_state(), local(0, 1, false));
}

fn wait_for_a_waiter<T>(data: &Data<T>) {
    while data.shared_state().nb_threads_waiting == 0 {
        std::hint::spin_loop();
    }
}

#[test]
fn a_dirty_read_is_granted_once_the_write_is_executed() {
    let mut owner = Data::new(String::from("before"));
    let mut reader = owner.clone();
    reader.declare_write(TaskId(1));
    let (seen, reader_local, shared) = crossbeam::thread::scope(|scope| {
        let waiting = scope.spawn(move |_| {
            let handle = reader.get_read();
            let seen = handle.clone();
            handle.release();
            (seen, reader.local_state(), reader.shared_state())
        });
        wait_for_a_waiter(&owner);
        assert_eq!(owner.shared_state(), locked(0, 0, 1));
        let mut handle = owner.get_write(TaskId(1));
        handle.deref_mut().clear();
        handle.deref_mut().push_str("after");
        handle.release();
        waiting.join().unwrap()
    })
    .unwrap();
    assert_eq!(seen, "after");
    assert_eq!(reader_local, local(1, 1, false));
    assert_eq!(shared, locked(1, 1, 0));
}

#[test]
fn a_write_is_granted_once_the_declared_reads_are_executed() {
    let mut reader = Data::new(10);
    let mut writer = reader.clone();
    writer.declare_read();
    writer.declare_read();
    let (writer_local, shared) = crossbeam::thread::scope(|scope| {
        let waiting = scope.spawn(move |_| {
            let mut handle = writer.get_write(TaskId(3));
            *handle.deref_mut() *= 2;
            handle.release();
            (writer.local_state(), writer.shared_state())
        });
        wait_for_a_waiter(&reader);
        let handle = reader.get_read();
        assert_eq!(*handle, 10);
        handle.release();
        // One read is still missing: the writer stays parked.
        assert_eq!(reader.shared_state(), locked(0, 1, 1));
        let handle = reader.get_read();
        assert_eq!(*handle, 10);
        handle.release();
        waiting.join().unwrap()
    })
    .unwrap();
    assert_eq!(writer_local, local(3, 0, false));
    assert_eq!(shared, locked(3, 0, 0));
    reader.declare_write(TaskId(3));
    let handle = reader.get_read();
    assert_eq!(*handle, 20);
    handle.release();
    assert_eq!(reader.local_state(), local(3, 1, false));
}

#[test]
fn several_waiters_are_all_woken() {
    let mut owner = Data::new(0u64);
    let mut first = owner.clone();
    let mut second = owner.clone();
    first.declare_write(TaskId(1));
    second.declare_write(TaskId(1));
    let (seen_first, seen_second) = crossbeam::thread::scope(|scope| {
        let a = scope.spawn(move |_| {
            let handle = first.get_read();
            let seen = *handle;
            handle.release();
            seen
        });
        let b = scope.spawn(move |_| {
            let handle = second.get_read();
            let seen = *handle;
            handle.release();
            seen
        });
        while owner.shared_state().nb_threads_waiting < 2 {
            std::hint::spin_loop();
        }
        let mut handle = owner.get_write(TaskId(1));
        *handle.deref_mut() = 77;
        handle.release();
        (a.join().unwrap(), b.join().unwrap())
    })
    .unwrap();
    assert_eq!((seen_first, seen_second), (77, 77));
    assert_eq!(owner.shared_state(), locked(1, 2, 0));
}

#[test]
fn releasing_a_read_tells_what_it_published() {
    let mut data = Data::new(());
    let change = data.get_read().release();
    assert_eq!(
        change,
        Published { found: locked(0, 0, 0), left: locked(0, 1, 0), woke_waiters: false }
    );
    let change = data.get_read().release();
    assert_eq!(
        change,
        Published { found: locked(0, 1, 0), left: locked(0, 2, 0), woke_waiters: false }
    );
}

#[test]
fn releasing_a_write_tells_what_it_published() {
    let mut data = Data::new(());
    data.get_read().release();
    let change = data.get_write(TaskId(6)).release();
    assert_eq!(
        change,
        Published { found: locked(0, 1, 0), left: locked(6, 0, 0), woke_waiters: false }
    );
}

#[test]
fn a_release_wakes_the_waiters_there_are() {
    let mut owner = Data::new(0u8);
    let mut reader = owner.clone();
    reader.declare_write(TaskId(2));
    let change = crossbeam::thread::scope(|scope| {
        let waiting = scope.spawn(move |_| reader.get_read().release());
        wait_for_a_waiter(&owner);
        let change = owner.get_write(TaskId(2)).release();
        assert_eq!(
            change,
            Published { found: locked(0, 0, 1), left: locked(2, 0, 1), woke_waiters: true }
        );
        waiting.join().unwrap()
    })
    .unwrap();
    assert_eq!(
        change,
        Published { found: locked(2, 0, 0), left: locked(2, 1, 0), woke_waiters: false }
    );
}

#[test]
fn a_panic_under_a_handle_releases_the_data_for_the_others() {
    let data = Data::new(5);
    let mut doomed = data.clone();
    let outcome = crossbeam::thread::scope(|scope| {
        scope.spawn(move |_| {
            let mut handle = doomed.get_write(TaskId(1));
            *handle.deref_mut() = 6;
            panic!("the task fails");
        });
    });
    assert!(outcome.is_err());
    // The write was marked as terminated when the handle was dropped.
    assert_eq!(data.shared_state(), locked(1, 0, 0));
    let mut holder = data.clone();
    holder.declare_write(TaskId(1));
    let handle = holder.get_read();
    assert_eq!(handle.access.seen(), Some(locked(1, 0, 0)));
    assert_eq!(*handle, 6);
    handle.release();
    assert_eq!(data.shared_state(), locked(1, 1, 0));
}

#[test]
fn a_handle_that_is_dropped_publishes_to_the_shared_record_only() {
    let mut data = Data::new(5);
    {
        let handle = data.get_read();
        assert_eq!(*handle, 5);
    }
    assert_eq!(data.shared_state(), locked(0, 1, 0));
    // The holder has not counted the read: it is out of step with the
    // shared record from now on.
    assert_eq!(data.local_state(), local(0, 0, false));
    assert!(!data.write_is_ready(&data.shared_state()));
    let mut data = Data::new(5);
    {
        let mut handle = data.get_write(TaskId(3));
        *handle.deref_mut() = 7;
    }
    assert_eq!(data.shared_state(), locked(3, 0, 0));
    assert_eq!(data.local_state(), local(0, 0, false));
}

#[test]
fn a_released_handle_publishes_once() {
    let mut data = Data::new(5);
    data.get_read().release();
    assert_eq!(data.shared_state(), locked(0, 1, 0));
    data.get_write(TaskId(2)).release();
    assert_eq!(data.shared_state(), locked(2, 0, 0));
    data.get_read().release();
    assert_eq!(data.shared_state(), locked(2, 1, 0));
}

#[test]
fn a_clean_read_is_granted_without_a_look_at_the_shared_record() {
    let mut data = Data::new(1);
    let handle = data.get_read();
    assert_eq!(handle.access.seen(), None);
    handle.release();
    let handle = data.get_write(TaskId(1));
    handle.release();
    let handle = data.get_read();
    assert_eq!(handle.access.seen(), None);
    handle.release();
}

#[test]
fn a_dirty_read_is_granted_on_the_record_of_the_write() {
    let mut owner = Data::new(1);
    let mut other = owner.clone();
    owner.get_read().release();
    owner.get_write(TaskId(2)).release();
    other.declare_read();
    other.declare_write(TaskId(2));
    let handle = other.get_read();
    assert_eq!(handle.access.seen(), Some(locked(2, 0, 0)));
    handle.release();
}

#[test]
fn a_write_is_granted_on_a_record_that_matches_the_local_one() {
    let mut data = Data::new(1);
    data.get_read().release();
    data.get_read().release();
    let handle = data.get_write(TaskId(3));
    assert_eq!(handle.access.seen(), locked(0, 2, 0));
    assert_eq!(handle.access.task(), TaskId(3));
    assert_eq!(*handle.local, local(0, 2, false));
    handle.release();
}

#[test]
fn a_waiter_is_granted_on_the_record_it_woke_up_to() {
    let mut owner = Data::new(1);
    let mut reader = owner.clone();
    reader.declare_write(TaskId(1));
    let seen = crossbeam::thread::scope(|scope| {
        let waiting = scope.spawn(move |_| {
            let handle = reader.get_read();
            let seen = handle.access.seen();
            handle.release();
            seen
        });
        wait_for_a_waiter(&owner);
        owner.get_write(TaskId(1)).release();
        waiting.join().unwrap()
    })
    .unwrap();
    assert_eq!(seen, Some(locked(1, 0, 0)));
}

#[test]
fn a_write_handle_dereferences_to_the_value() {
    let mut data = Data::new(vec![1, 2]);
    let mut handle = data.get_write(TaskId(1));
    handle.push(3);
    *handle = handle.iter().map(|x| x * 10).collect();
    assert_eq!(*handle, vec![10, 20, 30]);
    assert_eq!(handle.len(), 3);
    handle.release();
    let handle = data.get_read();
    assert_eq!(*handle, vec![10, 20, 30]);
    handle.release();
}
