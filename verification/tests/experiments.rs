use rio::experiments::counter;
use rio::experiments::counter_deps;
use rio::experiments::counter_deps::choose_three;
use rio::experiments::counter_deps::get_three;
use rio::experiments::counter_deps::get_two;
use rio::experiments::counter_deps::three_of;
use rio::experiments::counter_deps::RandomNumberGenerator;
use rio::experiments::lu_counter;
use rio::experiments::lu_counter::BlockCyclic1d;
use rio::experiments::lu_counter::BlockCyclic2d;
use rio::experiments::mm_counter;
use rio::get_round_robin_mapping;
use rio::go;
use rio::Data;
use rio::DataLocalState;
use rio::ExecutorId;
use rio::Mapping;
use rio::Runtime;
use std::cell::Cell;
use std::sync::atomic::AtomicUsize;
use std::sync::atomic::Ordering;

#[test]
fn the_generator_gives_the_same_numbers_every_time() {
    let mut rng = RandomNumberGenerator::new();
    assert_eq!(rng.rand() as u64, 2665565789183166779);
    assert_eq!(rng.rand() as u64, 17595826229621949289);
    assert_eq!(rng.rand() as u64, 83674763632428335);
    let mut again = RandomNumberGenerator::new();
    assert_eq!(again.rand() as u64, 2665565789183166779);
}

#[test]
fn a_copy_of_the_generator_goes_on_from_the_same_state() {
    let mut rng = RandomNumberGenerator::new();
    rng.rand();
    let mut copy = rng;
    assert_eq!(rng.rand(), copy.rand());
}

#[test]
fn three_indices_are_read_from_three_groups_of_bits() {
    assert_eq!(choose_three(2665565789183166779u64 as usize), (59, 18, 73));
    assert_eq!(choose_three(17595826229621949289u64 as usize), (105, 6, 120));
    assert_eq!(choose_three(0), (0, 0, 0));
    assert_eq!(choose_three(127), (127, 0, 0));
    assert_eq!(choose_three(128), (0, 1, 0));
    assert_eq!(choose_three(1 << 14), (0, 0, 1));
    assert_eq!(choose_three(usize::MAX), (127, 127, 127));
}

#[test]
fn two_objects_of_a_slice() {
    let mut items = vec![10, 20, 30, 40];
    {
        let (first, second) = get_two(&mut items, 1, 3);
        assert_eq!((*first, *second), (20, 40));
        *first += 1;
        *second += 2;
    }
    assert_eq!(items, vec![10, 21, 30, 42]);
    {
        let (first, second) = get_two(&mut items, 2, 0);
        assert_eq!((*first, *second), (30, 10));
        *first = 0;
        *second = 1;
    }
    assert_eq!(items, vec![1, 21, 0, 42]);
}

#[test]
fn three_objects_of_a_slice_in_any_order() {
    let orders = [[0, 1, 2], [0, 2, 1], [1, 0, 2], [1, 2, 0], [2, 0, 1], [2, 1, 0]];
    for order in orders {
        let mut items = vec![100, 200, 300, 400];
        let [a, b, c] = order;
        {
            let (first, second, third) = three_of(&mut items, a, b, c);
            assert_eq!(*first, 100 * (a + 1));
            assert_eq!(*second, 100 * (b + 1));
            assert_eq!(*third, 100 * (c + 1));
            *first += 1;
            *second += 2;
            *third += 3;
        }
        let mut expected = vec![100, 200, 300, 400];
        expected[a] += 1;
        expected[b] += 2;
        expected[c] += 3;
        assert_eq!(items, expected);
    }
}

#[test]
fn repeated_indices_are_left_out() {
    let mut items = vec![1, 2, 3, 4, 5];
    {
        let (first, second, third) = get_three(&mut items, 1, 2, 3);
        assert_eq!((*first, second.map(|x| *x), third.map(|x| *x)), (2, Some(3), Some(4)));
    }
    {
        let (first, second, third) = get_three(&mut items, 1, 1, 3);
        assert_eq!((*first, second.map(|x| *x), third.map(|x| *x)), (2, None, Some(4)));
    }
    {
        let (first, second, third) = get_three(&mut items, 1, 2, 1);
        assert_eq!((*first, second.map(|x| *x), third.map(|x| *x)), (2, Some(3), None));
    }
    {
        let (first, second, third) = get_three(&mut items, 1, 2, 2);
        assert_eq!((*first, second.map(|x| *x), third.map(|x| *x)), (2, Some(3), None));
    }
    {
        let (first, second, third) = get_three(&mut items, 4, 4, 4);
        assert_eq!((*first, second.map(|x| *x), third.map(|x| *x)), (5, None, None));
    }
    {
        let (first, second, third) = get_three(&mut items, 3, 0, 1);
        *first = 40;
        *second.unwrap() = 10;
        *third.unwrap() = 20;
    }
    assert_eq!(items, vec![10, 20, 3, 40, 5]);
}

#[test]
fn tiles_dealt_out_column_by_column() {
    let map = BlockCyclic1d::new(5);
    assert_eq!(map.executor((0, 0)), ExecutorId::new(0));
    assert_eq!(map.executor((3, 0)), ExecutorId::new(3));
    assert_eq!(map.executor((0, 1)), ExecutorId::new(2));
    assert_eq!(map.executor((7, 2)), ExecutorId::new(1));
}

#[test]
fn tiles_under_a_grid_of_workers() {
    let map = BlockCyclic2d::new();
    assert_eq!(map.executor((0, 0)), ExecutorId::new(0));
    assert_eq!(map.executor((1, 0)), ExecutorId::new(6));
    assert_eq!(map.executor((3, 5)), ExecutorId::new(23));
    assert_eq!(map.executor((4, 6)), ExecutorId::new(0));
    assert_eq!(map.executor((5, 7)), ExecutorId::new(7));
}

#[test]
fn runs_of_tasks_go_to_one_worker() {
    let map = mm_counter::get_mapping(3);
    assert_eq!(map.executor(1), ExecutorId::new(0));
    assert_eq!(map.executor(24), ExecutorId::new(0));
    assert_eq!(map.executor(25), ExecutorId::new(1));
    assert_eq!(map.executor(48), ExecutorId::new(1));
    assert_eq!(map.executor(49), ExecutorId::new(2));
    assert_eq!(map.executor(73), ExecutorId::new(0));
}

#[test]
fn the_counters_take_the_tasks_in_turn() {
    assert_eq!(counter::get_mapping(4).executor(6), ExecutorId::new(2));
    assert_eq!(counter_deps::get_mapping(4).executor(7), ExecutorId::new(3));
}

#[test]
fn tiles_are_stored_row_after_row() {
    assert_eq!(lu_counter::tile(0, 0), 0);
    assert_eq!(lu_counter::tile(0, 29), 29);
    assert_eq!(lu_counter::tile(1, 0), 30);
    assert_eq!(lu_counter::tile(31, 29), 959);
    assert_eq!(mm_counter::tile(0, 23), 23);
    assert_eq!(mm_counter::tile(1, 0), 24);
    assert_eq!(mm_counter::tile(23, 23), 575);
}

#[test]
fn counting_submits_every_task_and_runs_the_owned_ones() {
    let runs = Cell::new(0u32);
    let mut rt = Runtime::new(1, get_round_robin_mapping(4));
    counter::count(&mut rt, 10, || runs.set(runs.get() + 1));
    assert_eq!(rt.nb_tasks(), 10);
    // Worker 1 of 4 owns the tasks 1, 5 and 9.
    assert_eq!(runs.get(), 3);
    counter::count(&mut rt, 0, || runs.set(runs.get() + 1));
    assert_eq!(rt.nb_tasks(), 10);
    assert_eq!(runs.get(), 3);
}

static DEPENDENT: AtomicUsize = AtomicUsize::new(0);

fn dependent_tasks(mut rt: Runtime, data: Vec<Data<()>>) {
    let mut data = data;
    let mut rng = RandomNumberGenerator::new();
    counter_deps::count(
        &mut rt,
        2000,
        &mut data,
        &mut rng,
        |_a: &()| {
            DEPENDENT.fetch_add(1, Ordering::SeqCst);
        },
        |_a: &(), _b: &()| {
            DEPENDENT.fetch_add(1, Ordering::SeqCst);
        },
        |_a: &(), _b: &(), _c: &mut ()| {
            DEPENDENT.fetch_add(1, Ordering::SeqCst);
        },
    );
    assert_eq!(rt.nb_tasks(), 2000);
    let mut replay = RandomNumberGenerator::new();
    for _ in 0..2000 {
        replay.rand();
    }
    assert_eq!(rng.rand(), replay.rand());
}

#[test]
fn tasks_with_random_dependencies_all_run_once() {
    let data: Vec<Data<()>> = (0..counter_deps::N_DATA).map(|_| Data::new(())).collect();
    let done = go(3, get_round_robin_mapping(3), data, dependent_tasks);
    assert_eq!(done, Ok(()));
    assert_eq!(DEPENDENT.load(Ordering::SeqCst), 2000);
}

static MULTIPLIED: AtomicUsize = AtomicUsize::new(0);

fn multiplication(mut rt: Runtime, data: (Vec<Data<()>>, Vec<Data<()>>, Vec<Data<()>>)) {
    let (mut a, mut b, mut c) = data;
    mm_counter::matrix_mult(&mut rt, 2, &mut a, &mut b, &mut c, |_a: &(), _b: &(), _c: &mut ()| {
        MULTIPLIED.fetch_add(1, Ordering::SeqCst);
    });
    assert_eq!(rt.nb_tasks(), 2 * mm_counter::NB_TASKS);
    // Every tile of a factor was read once for each column of the product
    // and each run; every tile of the product was last written by its last
    // task.
    assert_eq!(
        a[0].local_state(),
        DataLocalState { last_registered_write: 0, nb_reads_since_write: 48, dirty: false }
    );
    assert_eq!(c[0].local_state().last_registered_write, mm_counter::NB_TASKS + 24);
    assert_eq!(c[575].local_state().last_registered_write, 2 * mm_counter::NB_TASKS);
    assert_eq!(c[575].local_state().nb_reads_since_write, 0);
}

fn matrix() -> Vec<Data<()>> {
    (0..mm_counter::NB_TILES * mm_counter::NB_TILES).map(|_| Data::new(())).collect()
}

#[test]
fn a_matrix_multiplication_runs_every_task_once() {
    let done = go(4, mm_counter::get_mapping(4), (matrix(), matrix(), matrix()), multiplication);
    assert_eq!(done, Ok(()));
    assert_eq!(MULTIPLIED.load(Ordering::SeqCst), 2 * mm_counter::NB_TASKS);
}

static FACTORIZED: [AtomicUsize; 4] =
    [AtomicUsize::new(0), AtomicUsize::new(0), AtomicUsize::new(0), AtomicUsize::new(0)];

fn kernel_trfr(_tile: &mut ()) {
    FACTORIZED[0].fetch_add(1, Ordering::SeqCst);
}

fn kernel_panel(_pivot: &(), _tile: &mut ()) {
    FACTORIZED[1].fetch_add(1, Ordering::SeqCst);
}

fn kernel_trsm(_pivot: &(), _tile: &mut ()) {
    FACTORIZED[2].fetch_add(1, Ordering::SeqCst);
}

fn kernel_gemm(_a: &(), _b: &(), _c: &mut ()) {
    FACTORIZED[3].fetch_add(1, Ordering::SeqCst);
}

fn factorization(mut rt: Runtime, tiles: Vec<Data<()>>) {
    let mut tiles = tiles;
    lu_counter::lu_fact_round_robin(
        &mut rt,
        &mut tiles,
        1,
        kernel_trfr,
        kernel_panel,
        kernel_trsm,
        kernel_gemm,
    );
    assert_eq!(rt.nb_tasks(), lu_counter::NB_TASKS);
}

fn factorization_by_tiles(mut rt: Runtime<(usize, usize)>, tiles: Vec<Data<()>>) {
    let mut tiles = tiles;
    lu_counter::lu_fact_block_cyclic(
        &mut rt,
        &mut tiles,
        1,
        kernel_trfr,
        kernel_panel,
        kernel_trsm,
        kernel_gemm,
    );
    assert_eq!(rt.nb_tasks(), lu_counter::NB_TASKS);
}

fn tiles() -> Vec<Data<()>> {
    (0..lu_counter::NB_TILES_COL * lu_counter::NB_TILES_ROW).map(|_| Data::new(())).collect()
}

#[test]
fn a_factorization_runs_every_task_once() {
    let done = go(3, get_round_robin_mapping(3), tiles(), factorization);
    assert_eq!(done, Ok(()));
    let done = go(3, BlockCyclic1d::new(3), tiles(), factorization_by_tiles);
    assert_eq!(done, Ok(()));
    let done = go(24, BlockCyclic2d::new(), tiles(), factorization_by_tiles);
    assert_eq!(done, Ok(()));
    // Thirty diagonal tiles; below them 31 + 30 + ... + 2 tiles, to their
    // right 29 + 28 + ... + 0 tiles, and all the others.
    assert_eq!(FACTORIZED[0].load(Ordering::SeqCst), 3 * 30);
    assert_eq!(FACTORIZED[1].load(Ordering::SeqCst), 3 * 495);
    assert_eq!(FACTORIZED[2].load(Ordering::SeqCst), 3 * 435);
    assert_eq!(FACTORIZED[3].load(Ordering::SeqCst), 3 * (10385 - 30 - 495 - 435));
}

fn dependent_tasks_on_a_longer_list(mut rt: Runtime, data: Vec<Data<()>>) {
    let mut data = data;
    let mut rng = RandomNumberGenerator::new();
    counter_deps::count(&mut rt, 50, &mut data, &mut rng, |_a: &()| (), |_a: &(), _b: &()| (), |
        _a: &(),
        _b: &(),
        _c: &mut (),
    | ());
    assert_eq!(rt.nb_tasks(), 50);
    // Only the first pieces of data are ever chosen.
    assert_eq!(data[counter_deps::N_DATA].local_state(), DataLocalState::new());
}

#[test]
fn tasks_with_random_dependencies_on_a_longer_list() {
    let data: Vec<Data<()>> = (0..counter_deps::N_DATA + 5).map(|_| Data::new(())).collect();
    let done = go(2, get_round_robin_mapping(2), data, dependent_tasks_on_a_longer_list);
    assert_eq!(done, Ok(()));
}
