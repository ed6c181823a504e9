//! A simple LU factorization without pivoting, by tiles.
//!
//! Three mappings are available:
//! - 2D block cyclic
//! - 1D block cyclic
//! - Round robin

use vstd::prelude::*;

use crate::data::Data;
use crate::experiments::counter_deps::get_two;
use crate::experiments::counter_deps::three_of;
use crate::experiments::ids_from;
use crate::experiments::lemma_ran_push;
use crate::experiments::lemma_replay_push;
use crate::experiments::lemma_same_data_reflexive;
use crate::experiments::lemma_same_data_transitive;
use crate::experiments::ran;
use crate::experiments::reads_within;
use crate::experiments::records_after;
use crate::experiments::replay;
use crate::experiments::same_data;
use crate::experiments::views;
use crate::experiments::Names;
use crate::record::DataLocalState;
use crate::record::TaskId;
use crate::runtime::ExecutorId;
use crate::runtime::Mapping;
use crate::runtime::Runtime;
use crate::runtime::TaskOwnership;
use crate::task::task_r_w;
use crate::task::task_r_w_args;
use crate::task::task_rr_w;
use crate::task::task_rr_w_args;
use crate::task::task_w;
use crate::task::task_w_args;

verus! {

/// The number of tiles in a row of the factorized matrix.
pub const NB_TILES_ROW: usize = 30;

/// The number of tiles in a column of the factorized matrix.
pub const NB_TILES_COL: usize = 32;

/// The number of workers that the two-dimensional mapping shares the tiles
/// among: a grid of four by six.
pub const NB_THREADS_2D: u32 = 24;

/// The mapping that deals the tiles of a matrix out to the workers one
/// after the other, column by column.
#[derive(Clone, Copy, Debug)]
pub struct BlockCyclic1d {
    nb_threads: u32,
}

/// The mapping that lays a grid of four by six workers over the tiles of a
/// matrix, again and again.
#[derive(Clone, Copy, Debug)]
pub struct BlockCyclic2d {}

impl BlockCyclic1d {
    /// The number of workers that the tiles are dealt out to.
    pub closed spec fn nb_threads(&self) -> u32 {
        self.nb_threads
    }

    /// The executor of the tile `(i, j)`.
    pub open spec fn spec_executor(nb_threads: u32, tile: (usize, usize)) -> ExecutorId {
        ExecutorId {
            thread_id: ((tile.0 + tile.1 * NB_TILES_COL) % (nb_threads as int)) as u32,
        }
    }

    pub fn new(nb_threads: u32) -> (map: Self)
        ensures
            map.nb_threads() == nb_threads,
    {
        Self { nb_threads }
    }
}

impl Mapping<(usize, usize)> for BlockCyclic1d {
    /// There must be a worker, and the rank of the tile must be a `usize`.
    open spec fn accepts(&self, args: (usize, usize)) -> bool {
        &&& self.nb_threads() > 0
        &&& args.0 + args.1 * NB_TILES_COL <= usize::MAX
    }

    open spec fn maps_to(&self, args: (usize, usize), id: ExecutorId) -> bool {
        id == Self::spec_executor(self.nb_threads(), args)
    }

    fn executor(&self, args: (usize, usize)) -> (id: ExecutorId) {
        let (i, j) = args;
        ExecutorId { thread_id: ((i + j * NB_TILES_COL) % (self.nb_threads as usize)) as u32 }
    }
}

impl BlockCyclic2d {
    /// The executor of the tile `(i, j)`.
    pub open spec fn spec_executor(tile: (usize, usize)) -> ExecutorId {
        ExecutorId { thread_id: ((tile.0 % 4) * 6 + tile.1 % 6) as u32 }
    }

    pub fn new() -> (map: Self) {
        Self {  }
    }
}

impl Mapping<(usize, usize)> for BlockCyclic2d {
    open spec fn accepts(&self, args: (usize, usize)) -> bool {
        true
    }

    open spec fn maps_to(&self, args: (usize, usize), id: ExecutorId) -> bool {
        id == Self::spec_executor(args)
    }

    fn executor(&self, args: (usize, usize)) -> (id: ExecutorId) {
        let (i, j) = args;
        ExecutorId { thread_id: ((i % 4) * 6 + j % 6) as u32 }
    }
}

/// The one-dimensional mapping names a worker that exists.
pub proof fn lemma_block_cyclic_1d_in_range(map: BlockCyclic1d, tile: (usize, usize), id: ExecutorId)
    requires
        map.accepts(tile),
        map.maps_to(tile, id),
    ensures
        id.thread_id < map.nb_threads(),
{
}

/// The two-dimensional mapping names one of its twenty-four workers.
pub proof fn lemma_block_cyclic_2d_in_range(map: BlockCyclic2d, tile: (usize, usize), id: ExecutorId)
    requires
        map.maps_to(tile, id),
    ensures
        id.thread_id < NB_THREADS_2D,
{
}


/// The number of tasks of one factorization.
pub const NB_TASKS: usize = 10385;

/// The number of tasks of a factorization that come before the tasks of the
/// diagonal tile `i`: below and to the right of the diagonal tile `k` there
/// are `NB_TILES_COL - k` rows and `NB_TILES_ROW - k` columns of tiles, the
/// row and the column of the diagonal tile included, with one task for each
/// of their tiles.
pub open spec fn tasks_before(i: int) -> int
    decreases i,
{
    if i <= 0 {
        0
    } else {
        tasks_before(i - 1) + (NB_TILES_COL - (i - 1)) * (NB_TILES_ROW - (i - 1))
    }
}

/// The tasks of the diagonal tiles add up to the tasks of a factorization.
proof fn lemma_tasks_before(i: int)
    requires
        0 <= i <= NB_TILES_ROW,
    ensures
        0 <= tasks_before(i) <= tasks_before(NB_TILES_ROW as int) == NB_TASKS,
        i < NB_TILES_ROW ==> tasks_before(i + 1) == tasks_before(i) + (NB_TILES_COL - i) * (
        NB_TILES_ROW - i),
        i < NB_TILES_ROW ==> tasks_before(i + 1) <= NB_TASKS,
{
    lemma_tasks_total();
    lemma_tasks_grow(0, i);
    lemma_tasks_grow(i, NB_TILES_ROW as int);
    if i < NB_TILES_ROW {
        lemma_tasks_grow(i + 1, NB_TILES_ROW as int);
    }
}

proof fn lemma_tasks_grow(i: int, j: int)
    requires
        0 <= i <= j <= NB_TILES_ROW,
    ensures
        tasks_before(i) <= tasks_before(j),
    decreases j - i,
{
    if i < j {
        lemma_tasks_grow(i, j - 1);
        assert((NB_TILES_COL - (j - 1)) * (NB_TILES_ROW - (j - 1)) >= 0) by (nonlinear_arith)
            requires
                j <= NB_TILES_ROW,
        ;
    }
}

/// Six times the number of tasks before the diagonal tile `i`, as a
/// polynomial.
proof fn lemma_tasks_polynomial(i: int)
    requires
        0 <= i,
    ensures
        6 * tasks_before(i) == 5760 * i - 186 * (i * (i - 1)) + (i - 1) * i * (2 * i - 1),
    decreases i,
{
    if i > 0 {
        lemma_tasks_polynomial(i - 1);
        let before = tasks_before(i - 1);
        let here = tasks_before(i);
        assert(here == before + (32 - (i - 1)) * (30 - (i - 1)));
        assert(6 * here == 5760 * i - 186 * (i * (i - 1)) + (i - 1) * i * (2 * i - 1))
            by (nonlinear_arith)
            requires
                here == before + (32 - (i - 1)) * (30 - (i - 1)),
                6 * before == 5760 * (i - 1) - 186 * ((i - 1) * (i - 1 - 1)) + (i - 1 - 1) * (i
                    - 1) * (2 * (i - 1) - 1),
        ;
    } else {
        assert(5760 * i - 186 * (i * (i - 1)) + (i - 1) * i * (2 * i - 1) == 0)
            by (nonlinear_arith)
            requires
                i == 0,
        ;
    }
}

proof fn lemma_tasks_total()
    ensures
        tasks_before(NB_TILES_ROW as int) == NB_TASKS,
{
    lemma_tasks_polynomial(30);
    assert(5760 * 30 - 186 * (30 * (30 - 1)) + (30 - 1) * 30 * (2 * 30 - 1) == 62310) by (nonlinear_arith);
}

/// The place of the tile `(i, j)` in a matrix stored row after row.
pub open spec fn spec_tile(i: int, j: int) -> int {
    i * NB_TILES_ROW + j
}

/// The place of the tile `(i, j)` in a matrix stored row after row.
pub fn tile(i: usize, j: usize) -> (place: usize)
    requires
        i < NB_TILES_COL,
        j < NB_TILES_ROW,
    ensures
        place == spec_tile(i as int, j as int),
        place < NB_TILES_COL * NB_TILES_ROW,
{
    i * NB_TILES_ROW + j
}

/// A task of a factorization: the tiles that it names, by their places, and
/// the tile that it updates, by its row and column.
pub struct Submission {
    pub names: Names,
    pub tile: (usize, usize),
}

/// The factorization of the diagonal tile `i`.
pub open spec fn trfr_step(i: int) -> Submission {
    Submission { names: Names::Write(spec_tile(i, i)), tile: (i as usize, i as usize) }
}

/// The update of the tile `(row, i)`, below the diagonal tile `i`, which it
/// reads.
pub open spec fn panel_step(i: int, row: int) -> Submission {
    Submission {
        names: Names::ReadWrite(spec_tile(i, i), spec_tile(row, i)),
        tile: (row as usize, i as usize),
    }
}

/// The update of the tile `(i, col)`, to the right of the diagonal tile `i`,
/// which it reads.
pub open spec fn trsm_step(i: int, col: int) -> Submission {
    Submission {
        names: Names::ReadWrite(spec_tile(i, i), spec_tile(i, col)),
        tile: (i as usize, col as usize),
    }
}

/// The update of the tile `(row, col)`, below and to the right of the
/// diagonal tile `i`: it reads the tile of its row below the diagonal tile
/// and the tile of its column to the right of it.
pub open spec fn gemm_step(i: int, row: int, col: int) -> Submission {
    Submission {
        names: Names::ReadReadWrite(spec_tile(row, i), spec_tile(i, col), spec_tile(row, col)),
        tile: (row as usize, col as usize),
    }
}

/// The updates of the tiles below the diagonal tile `i`, down to the row
/// `row_end - 1`.
pub open spec fn panel_steps(i: int, row_end: int) -> Seq<Submission>
    decreases row_end - i,
{
    if row_end <= i + 1 {
        Seq::empty()
    } else {
        panel_steps(i, row_end - 1).push(panel_step(i, row_end - 1))
    }
}

/// The updates of the tiles to the right of the diagonal tile `i`, up to the
/// column `col_end - 1`.
pub open spec fn trsm_steps(i: int, col_end: int) -> Seq<Submission>
    decreases col_end - i,
{
    if col_end <= i + 1 {
        Seq::empty()
    } else {
        trsm_steps(i, col_end - 1).push(trsm_step(i, col_end - 1))
    }
}

/// The updates of the tiles of the row `row` to the right of the column `i`,
/// up to the column `col_end - 1`.
pub open spec fn gemm_row_steps(i: int, row: int, col_end: int) -> Seq<Submission>
    decreases col_end - i,
{
    if col_end <= i + 1 {
        Seq::empty()
    } else {
        gemm_row_steps(i, row, col_end - 1).push(gemm_step(i, row, col_end - 1))
    }
}

/// The updates of the tiles below and to the right of the diagonal tile `i`,
/// row after row, down to the row `row_end - 1`.
pub open spec fn gemm_steps(i: int, row_end: int) -> Seq<Submission>
    decreases row_end - i,
{
    if row_end <= i + 1 {
        Seq::empty()
    } else {
        gemm_steps(i, row_end - 1) + gemm_row_steps(i, row_end - 1, NB_TILES_ROW as int)
    }
}

/// The tasks that come before the updates below and to the right of the
/// diagonal tile `i`.
pub open spec fn before_gemm(i: int) -> Seq<Submission> {
    seq![trfr_step(i)] + panel_steps(i, NB_TILES_COL as int) + trsm_steps(i, NB_TILES_ROW as int)
}

/// The tasks of the diagonal tile `i`: its factorization, the updates of
/// the tiles below it, of the tiles to its right, and of the tiles below
/// and to the right.
pub open spec fn diagonal_steps(i: int) -> Seq<Submission> {
    before_gemm(i) + gemm_steps(i, NB_TILES_COL as int)
}

/// The tasks of the diagonal tiles before the diagonal tile `i_end`.
pub open spec fn once_steps(i_end: int) -> Seq<Submission>
    decreases i_end,
{
    if i_end <= 0 {
        Seq::empty()
    } else {
        once_steps(i_end - 1) + diagonal_steps(i_end - 1)
    }
}

/// The tasks of `n_repeat` factorizations.
pub open spec fn all_steps(n_repeat: int) -> Seq<Submission>
    decreases n_repeat,
{
    if n_repeat <= 0 {
        Seq::empty()
    } else {
        all_steps(n_repeat - 1) + once_steps(NB_TILES_ROW as int)
    }
}

/// What the tasks name, one for one.
pub open spec fn names_of(steps: Seq<Submission>) -> Seq<Names> {
    Seq::new(steps.len(), |k: int| steps[k].names)
}

/// The tiles that the tasks update, one for one.
pub open spec fn tiles_of(steps: Seq<Submission>) -> Seq<(usize, usize)> {
    Seq::new(steps.len(), |k: int| steps[k].tile)
}

/// What the tasks `steps` leave behind, on a worker that found the
/// ownerships `owners` for them, each task being mapped by the tile that it
/// updates: the records of the tiles are those of a worker that submitted
/// these tasks, one after the other.
pub open spec fn factorized_by_tiles(
    rt: Runtime<'_, (usize, usize)>,
    steps: Seq<Submission>,
    owners: Seq<TaskOwnership>,
    before: Seq<DataLocalState>,
    after: Seq<DataLocalState>,
) -> bool {
    &&& ran(rt, tiles_of(steps), owners)
    &&& after == replay(names_of(steps), owners, before, rt.task_counter() as int)
}

/// What the tasks `steps` leave behind, on a worker that found the
/// ownerships `owners` for them, each task being mapped by its own
/// identifier: the records of the tiles are those of a worker that
/// submitted these tasks, one after the other.
pub open spec fn factorized_in_turn(
    rt: Runtime<'_, usize>,
    steps: Seq<Submission>,
    owners: Seq<TaskOwnership>,
    before: Seq<DataLocalState>,
    after: Seq<DataLocalState>,
) -> bool {
    &&& ran(rt, ids_from(rt.task_counter() as int, steps.len() as int), owners)
    &&& after == replay(names_of(steps), owners, before, rt.task_counter() as int)
}

/// One more task submitted is one more task that the records tell of.
proof fn lemma_one_more_by_tiles(
    origin: Runtime<'_, (usize, usize)>,
    before: Runtime<'_, (usize, usize)>,
    after: Runtime<'_, (usize, usize)>,
    steps: Seq<Submission>,
    owners: Seq<TaskOwnership>,
    next: (TaskId, TaskOwnership),
    step: Submission,
    olds: Seq<DataLocalState>,
    befores: Seq<DataLocalState>,
    afters: Seq<DataLocalState>,
)
    requires
        before.task_counter() == origin.task_counter() + steps.len(),
        factorized_by_tiles(origin, steps, owners, olds, befores),
        before.same_mapping(&origin),
        before.executor_id() == origin.executor_id(),
        before.submits(&after, step.tile, next),
        afters == records_after(befores, step.names, next.0, next.1),
    ensures
        factorized_by_tiles(origin, steps.push(step), owners.push(next.1), olds, afters),
{
    let start = origin.task_counter() as int;
    lemma_ran_push(origin, before, after, tiles_of(steps), owners, step.tile, next);
    assert(tiles_of(steps).push(step.tile) =~= tiles_of(steps.push(step)));
    lemma_replay_push(names_of(steps), owners, olds, start, step.names, next.1);
    assert(names_of(steps).push(step.names) =~= names_of(steps.push(step)));
}

/// One more task submitted is one more task that the records tell of.
proof fn lemma_one_more_in_turn(
    origin: Runtime<'_, usize>,
    before: Runtime<'_, usize>,
    after: Runtime<'_, usize>,
    steps: Seq<Submission>,
    owners: Seq<TaskOwnership>,
    next: (TaskId, TaskOwnership),
    step: Submission,
    olds: Seq<DataLocalState>,
    befores: Seq<DataLocalState>,
    afters: Seq<DataLocalState>,
)
    requires
        before.task_counter() == origin.task_counter() + steps.len(),
        factorized_in_turn(origin, steps, owners, olds, befores),
        before.same_mapping(&origin),
        before.executor_id() == origin.executor_id(),
        before.submits(&after, after.task_counter(), next),
        afters == records_after(befores, step.names, next.0, next.1),
    ensures
        factorized_in_turn(origin, steps.push(step), owners.push(next.1), olds, afters),
{
    let start = origin.task_counter() as int;
    let ids = ids_from(start, steps.len() as int);
    lemma_ran_push(origin, before, after, ids, owners, after.task_counter(), next);
    assert(ids.push(after.task_counter()) =~= ids_from(start, steps.len() as int + 1));
    lemma_replay_push(names_of(steps), owners, olds, start, step.names, next.1);
    assert(names_of(steps).push(step.names) =~= names_of(steps.push(step)));
}

/// Submits the tasks of `n_repeat` factorizations of the matrix of tiles
/// `tiles`, each task mapped by the tile that it updates. For each tile of the diagonal in turn: the tile
/// is factorized by `trfr`; the tiles below it are updated by `panel_update`
/// and the tiles to its right by `trsm`, both reading the tile of the
/// diagonal; and every tile below and to the right is updated by `gemm`,
/// which reads the tile of its row below the diagonal tile and the tile of
/// its column to the right of it.
pub fn lu_fact_block_cyclic<F1, F2, F3, F4>(
    rt: &mut Runtime<'_, (usize, usize)>,
    tiles: &mut Vec<Data<()>>,
    n_repeat: usize,
    trfr: F1,
    panel_update: F2,
    trsm: F3,
    gemm: F4,
) where
    F1: Fn(&mut ()) + Copy,
    F2: Fn(&(), &mut ()) + Copy,
    F3: Fn(&(), &mut ()) + Copy,
    F4: Fn(&(), &(), &mut ()) + Copy,

    requires
        old(tiles).len() == NB_TILES_COL * NB_TILES_ROW,
        old(rt).task_counter() + n_repeat * NB_TASKS <= usize::MAX,
        forall|i: usize, j: usize| i < NB_TILES_COL && j < NB_TILES_ROW ==> old(rt).accepts((i, j)),
        reads_within(old(tiles)@, old(rt).task_counter() as int),
        forall|z: &mut ()| call_requires(trfr, (z,)),
        forall|x: &(), z: &mut ()| call_requires(panel_update, (x, z)),
        forall|x: &(), z: &mut ()| call_requires(trsm, (x, z)),
        forall|x: &(), y: &(), z: &mut ()| call_requires(gemm, (x, y, z)),
    ensures
        final(rt).task_counter() == old(rt).task_counter() + n_repeat * NB_TASKS,
        final(rt).executor_id() == old(rt).executor_id(),
        final(rt).same_mapping(old(rt)),
        same_data(old(tiles)@, final(tiles)@),
        reads_within(final(tiles)@, final(rt).task_counter() as int),
        exists|owners: Seq<TaskOwnership>| #[trigger]
            factorized_by_tiles(
                *old(rt),
                all_steps(n_repeat as int),
                owners,
                views(old(tiles)@),
                views(final(tiles)@),
            ),
{
    let ghost start = rt.task_counter() as int;
    let ghost mut done: Seq<Submission> = Seq::empty();
    let ghost mut owners: Seq<TaskOwnership> = Seq::empty();
    proof {
        assert(views(tiles@) =~= replay(names_of(done), owners, views(tiles@), start));
        assert(tiles_of(done) =~= Seq::<(usize, usize)>::empty());
        assert(ids_from(start, 0) =~= Seq::<usize>::empty());
    }
    proof {
        lemma_same_data_reflexive(tiles@);
        lemma_tasks_before(NB_TILES_ROW as int);
    }
    let mut repeat: usize = 0;
    while repeat < n_repeat
        invariant
            repeat <= n_repeat,
            rt.task_counter() == start + repeat * NB_TASKS,
            done == all_steps(repeat as int),
            old(tiles).len() == NB_TILES_COL * NB_TILES_ROW,
            start + n_repeat * NB_TASKS <= usize::MAX,
            rt.executor_id() == old(rt).executor_id(),
            rt.same_mapping(old(rt)),
            forall|i: usize, j: usize| i < NB_TILES_COL && j < NB_TILES_ROW ==> old(rt).accepts((i, j)),
            same_data(old(tiles)@, tiles@),
            start == old(rt).task_counter(),
            rt.task_counter() == start + done.len(),
            factorized_by_tiles(*old(rt), done, owners, views(old(tiles)@), views(tiles@)),
            reads_within(tiles@, rt.task_counter() as int),
            forall|z: &mut ()| call_requires(trfr, (z,)),
            forall|x: &(), z: &mut ()| call_requires(panel_update, (x, z)),
            forall|x: &(), z: &mut ()| call_requires(trsm, (x, z)),
            forall|x: &(), y: &(), z: &mut ()| call_requires(gemm, (x, y, z)),
        decreases n_repeat - repeat,
    {
        proof {
            assert(done =~= all_steps(repeat as int) + once_steps(0));
        }
        let mut i: usize = 0;
        while i < NB_TILES_ROW
            invariant
                i <= NB_TILES_ROW,
                repeat < n_repeat,
                rt.task_counter() == start + repeat * NB_TASKS + tasks_before(i as int),
                done == all_steps(repeat as int) + once_steps(i as int),
                old(tiles).len() == NB_TILES_COL * NB_TILES_ROW,
                start + n_repeat * NB_TASKS <= usize::MAX,
                rt.executor_id() == old(rt).executor_id(),
                rt.same_mapping(old(rt)),
                forall|i: usize, j: usize| i < NB_TILES_COL && j < NB_TILES_ROW ==> old(rt).accepts((i, j)),
                same_data(old(tiles)@, tiles@),
                start == old(rt).task_counter(),
                rt.task_counter() == start + done.len(),
                factorized_by_tiles(*old(rt), done, owners, views(old(tiles)@), views(tiles@)),
                reads_within(tiles@, rt.task_counter() as int),
                forall|z: &mut ()| call_requires(trfr, (z,)),
                forall|x: &(), z: &mut ()| call_requires(panel_update, (x, z)),
                forall|x: &(), z: &mut ()| call_requires(trsm, (x, z)),
                forall|x: &(), y: &(), z: &mut ()| call_requires(gemm, (x, y, z)),
            decreases NB_TILES_ROW - i,
        {
            let ghost base = rt.task_counter() as int;
            let ghost head = done;
            let ghost width = NB_TILES_ROW - 1 - i;
            let ghost height = NB_TILES_COL - 1 - i;
            proof {
                lemma_tasks_before(i as int);
                lemma_tasks_before(i as int + 1);
                assert(tasks_before(i as int + 1) == tasks_before(i as int) + 1 + height + width
                    + height * width) by (nonlinear_arith)
                    requires
                        tasks_before(i as int + 1) == tasks_before(i as int) + (height + 1) * (width
                            + 1),
                ;
                assert(height * width >= 0) by (nonlinear_arith)
                    requires
                        height >= 0,
                        width >= 0,
                ;
            }
            // Triangular factorization
            let pivot = tile(i, i);
            {
                let ghost before = *rt;
                let ghost tiles_before = tiles@;
                let next = task_w_args(rt, (i, i), trfr, &mut tiles[pivot]);
                proof {
                    assert(views(tiles@) =~= records_after(
                        views(tiles_before),
                        trfr_step(i as int).names,
                        next.0,
                        next.1,
                    ));
                    assert(before.same_mapping(old(rt)));
                    lemma_one_more_by_tiles(
                        *old(rt),
                        before,
                        *rt,
                        done,
                        owners,
                        next,
                        trfr_step(i as int),
                        views(old(tiles)@),
                        views(tiles_before),
                        views(tiles@),
                    );
                    done = done.push(trfr_step(i as int));
                    owners = owners.push(next.1);
                    assert(done =~= head.push(trfr_step(i as int)) + panel_steps(i as int, i as int + 1));
                }
                                assert(rt.same_mapping(old(rt))) by {
                assert(rt.same_mapping(&before));
                }
                assert(same_data(old(tiles)@, tiles@)) by {
                lemma_same_data_reflexive(tiles_before);
                assert(same_data(tiles_before, tiles@));
                lemma_same_data_transitive(old(tiles)@, tiles_before, tiles@);
                }
            }

            // Panel update
            let mut row: usize = i + 1;
            while row < NB_TILES_COL
                invariant
                    i < NB_TILES_ROW,
                    i + 1 <= row <= NB_TILES_COL,
                    repeat < n_repeat,
                    pivot == spec_tile(i as int, i as int),
                    width == NB_TILES_ROW - 1 - i,
                    height == NB_TILES_COL - 1 - i,
                    height * width >= 0,
                    base == start + repeat * NB_TASKS + tasks_before(i as int),
                    base + 1 + height + width + height * width <= start + (repeat + 1) * NB_TASKS,
                    rt.task_counter() == base + 1 + (row - i - 1),
                    done == head.push(trfr_step(i as int)) + panel_steps(i as int, row as int),
                    old(tiles).len() == NB_TILES_COL * NB_TILES_ROW,
                    start + n_repeat * NB_TASKS <= usize::MAX,
                    rt.executor_id() == old(rt).executor_id(),
                    rt.same_mapping(old(rt)),
                    forall|i: usize, j: usize| i < NB_TILES_COL && j < NB_TILES_ROW ==> old(rt).accepts((i, j)),
                    same_data(old(tiles)@, tiles@),
                    start == old(rt).task_counter(),
                    rt.task_counter() == start + done.len(),
                    factorized_by_tiles(*old(rt), done, owners, views(old(tiles)@), views(tiles@)),
                    reads_within(tiles@, rt.task_counter() as int),
                    forall|z: &mut ()| call_requires(trfr, (z,)),
                    forall|x: &(), z: &mut ()| call_requires(panel_update, (x, z)),
                    forall|x: &(), z: &mut ()| call_requires(trsm, (x, z)),
                    forall|x: &(), y: &(), z: &mut ()| call_requires(gemm, (x, y, z)),
                decreases NB_TILES_COL - row,
            {
                let below = tile(row, i);
                let ghost before = *rt;
                let ghost tiles_before = tiles@;
                let (pivot_tile, panel_tile) = get_two(tiles.as_mut_slice(), pivot, below);
                let next = task_r_w_args(rt, (row, i), panel_update, pivot_tile, panel_tile);
                proof {
                    assert(views(tiles@) =~= records_after(
                        views(tiles_before),
                        panel_step(i as int, row as int).names,
                        next.0,
                        next.1,
                    ));
                    assert(before.same_mapping(old(rt)));
                    lemma_one_more_by_tiles(
                        *old(rt),
                        before,
                        *rt,
                        done,
                        owners,
                        next,
                        panel_step(i as int, row as int),
                        views(old(tiles)@),
                        views(tiles_before),
                        views(tiles@),
                    );
                    done = done.push(panel_step(i as int, row as int));
                    owners = owners.push(next.1);
                    assert(done =~= head.push(trfr_step(i as int)) + panel_steps(i as int, row as int + 1));
                }
                                assert(rt.same_mapping(old(rt))) by {
                assert(rt.same_mapping(&before));
                }
                assert(same_data(old(tiles)@, tiles@)) by {
                lemma_same_data_reflexive(tiles_before);
                assert(same_data(tiles_before, tiles@));
                lemma_same_data_transitive(old(tiles)@, tiles_before, tiles@);
                }
                row += 1;
            }

            // Triangular update
            proof {
                assert(done =~= head.push(trfr_step(i as int)) + panel_steps(
                    i as int,
                    NB_TILES_COL as int,
                ) + trsm_steps(i as int, i as int + 1));
            }
            let mut col: usize = i + 1;
            while col < NB_TILES_ROW
                invariant
                    i < NB_TILES_ROW,
                    i + 1 <= col <= NB_TILES_ROW,
                    repeat < n_repeat,
                    pivot == spec_tile(i as int, i as int),
                    width == NB_TILES_ROW - 1 - i,
                    height == NB_TILES_COL - 1 - i,
                    height * width >= 0,
                    base == start + repeat * NB_TASKS + tasks_before(i as int),
                    base + 1 + height + width + height * width <= start + (repeat + 1) * NB_TASKS,
                    rt.task_counter() == base + 1 + height + (col - i - 1),
                    done == head.push(trfr_step(i as int)) + panel_steps(i as int, NB_TILES_COL as int) + trsm_steps(
                        i as int,
                        col as int,
                    ),
                    old(tiles).len() == NB_TILES_COL * NB_TILES_ROW,
                    start + n_repeat * NB_TASKS <= usize::MAX,
                    rt.executor_id() == old(rt).executor_id(),
                    rt.same_mapping(old(rt)),
                    forall|i: usize, j: usize| i < NB_TILES_COL && j < NB_TILES_ROW ==> old(rt).accepts((i, j)),
                    same_data(old(tiles)@, tiles@),
                    start == old(rt).task_counter(),
                    rt.task_counter() == start + done.len(),
                    factorized_by_tiles(*old(rt), done, owners, views(old(tiles)@), views(tiles@)),
                    reads_within(tiles@, rt.task_counter() as int),
                    forall|z: &mut ()| call_requires(trfr, (z,)),
                    forall|x: &(), z: &mut ()| call_requires(panel_update, (x, z)),
                    forall|x: &(), z: &mut ()| call_requires(trsm, (x, z)),
                    forall|x: &(), y: &(), z: &mut ()| call_requires(gemm, (x, y, z)),
                decreases NB_TILES_ROW - col,
            {
                let right = tile(i, col);
                let ghost before = *rt;
                let ghost tiles_before = tiles@;
                let (pivot_tile, right_tile) = get_two(tiles.as_mut_slice(), pivot, right);
                let next = task_r_w_args(rt, (i, col), trsm, pivot_tile, right_tile);
                proof {
                    assert(views(tiles@) =~= records_after(
                        views(tiles_before),
                        trsm_step(i as int, col as int).names,
                        next.0,
                        next.1,
                    ));
                    assert(before.same_mapping(old(rt)));
                    lemma_one_more_by_tiles(
                        *old(rt),
                        before,
                        *rt,
                        done,
                        owners,
                        next,
                        trsm_step(i as int, col as int),
                        views(old(tiles)@),
                        views(tiles_before),
                        views(tiles@),
                    );
                    done = done.push(trsm_step(i as int, col as int));
                    owners = owners.push(next.1);
                    assert(done =~= head.push(trfr_step(i as int)) + panel_steps(i as int, NB_TILES_COL as int)
                        + trsm_steps(i as int, col as int + 1));
                }
                                assert(rt.same_mapping(old(rt))) by {
                assert(rt.same_mapping(&before));
                }
                assert(same_data(old(tiles)@, tiles@)) by {
                lemma_same_data_reflexive(tiles_before);
                assert(same_data(tiles_before, tiles@));
                lemma_same_data_transitive(old(tiles)@, tiles_before, tiles@);
                }
                col += 1;
            }

            // GEMM update
            proof {
                assert(done =~= head + before_gemm(i as int) + gemm_steps(i as int, i as int + 1));
            }
            let mut row: usize = i + 1;
            while row < NB_TILES_COL
                invariant
                    i < NB_TILES_ROW,
                    i + 1 <= row <= NB_TILES_COL,
                    repeat < n_repeat,
                    width == NB_TILES_ROW - 1 - i,
                    height == NB_TILES_COL - 1 - i,
                    height * width >= 0,
                    base == start + repeat * NB_TASKS + tasks_before(i as int),
                    base + 1 + height + width + height * width <= start + (repeat + 1) * NB_TASKS,
                    rt.task_counter() == base + 1 + height + width + (row - i - 1) * width,
                    done == head + before_gemm(i as int) + gemm_steps(i as int, row as int),
                    old(tiles).len() == NB_TILES_COL * NB_TILES_ROW,
                    start + n_repeat * NB_TASKS <= usize::MAX,
                    rt.executor_id() == old(rt).executor_id(),
                    rt.same_mapping(old(rt)),
                    forall|i: usize, j: usize| i < NB_TILES_COL && j < NB_TILES_ROW ==> old(rt).accepts((i, j)),
                    same_data(old(tiles)@, tiles@),
                    start == old(rt).task_counter(),
                    rt.task_counter() == start + done.len(),
                    factorized_by_tiles(*old(rt), done, owners, views(old(tiles)@), views(tiles@)),
                    reads_within(tiles@, rt.task_counter() as int),
                    forall|z: &mut ()| call_requires(trfr, (z,)),
                    forall|x: &(), z: &mut ()| call_requires(panel_update, (x, z)),
                    forall|x: &(), z: &mut ()| call_requires(trsm, (x, z)),
                    forall|x: &(), y: &(), z: &mut ()| call_requires(gemm, (x, y, z)),
                decreases NB_TILES_COL - row,
            {
                let ghost row_base = rt.task_counter() as int;
                proof {
                    assert((row - i - 1) * width + width <= height * width) by (nonlinear_arith)
                        requires
                            row - i - 1 < height,
                            width >= 0,
                    ;
                    assert((row + 1 - i - 1) * width == (row - i - 1) * width + width)
                        by (nonlinear_arith);
                }
                proof {
                    assert(done =~= head + before_gemm(i as int) + gemm_steps(i as int, row as int)
                        + gemm_row_steps(i as int, row as int, i as int + 1));
                }
                let mut col: usize = i + 1;
                while col < NB_TILES_ROW
                    invariant
                        i < NB_TILES_ROW,
                        i + 1 <= row < NB_TILES_COL,
                        i + 1 <= col <= NB_TILES_ROW,
                        repeat < n_repeat,
                        width == NB_TILES_ROW - 1 - i,
                        row_base + width <= start + (repeat + 1) * NB_TASKS,
                        rt.task_counter() == row_base + (col - i - 1),
                        done == head + before_gemm(i as int) + gemm_steps(i as int, row as int) + gemm_row_steps(
                            i as int,
                            row as int,
                            col as int,
                        ),
                        old(tiles).len() == NB_TILES_COL * NB_TILES_ROW,
                        start + n_repeat * NB_TASKS <= usize::MAX,
                        rt.executor_id() == old(rt).executor_id(),
                        rt.same_mapping(old(rt)),
                        forall|i: usize, j: usize| i < NB_TILES_COL && j < NB_TILES_ROW ==> old(rt).accepts((i, j)),
                        same_data(old(tiles)@, tiles@),
                        start == old(rt).task_counter(),
                        rt.task_counter() == start + done.len(),
                        factorized_by_tiles(*old(rt), done, owners, views(old(tiles)@), views(tiles@)),
                        reads_within(tiles@, rt.task_counter() as int),
                        forall|z: &mut ()| call_requires(trfr, (z,)),
                        forall|x: &(), z: &mut ()| call_requires(panel_update, (x, z)),
                        forall|x: &(), z: &mut ()| call_requires(trsm, (x, z)),
                        forall|x: &(), y: &(), z: &mut ()| call_requires(gemm, (x, y, z)),
                    decreases NB_TILES_ROW - col,
                {
                    let left = tile(row, i);
                    let above = tile(i, col);
                    let target = tile(row, col);
                    let ghost before = *rt;
                    let ghost tiles_before = tiles@;
                    let (a, b, c) = three_of(tiles.as_mut_slice(), left, above, target);
                    let next = task_rr_w_args(rt, (row, col), gemm, a, b, c);
                    proof {
                        assert(views(tiles@) =~= records_after(
                            views(tiles_before),
                            gemm_step(i as int, row as int, col as int).names,
                            next.0,
                            next.1,
                        ));
                        assert(before.same_mapping(old(rt)));
                        lemma_one_more_by_tiles(
                            *old(rt),
                            before,
                            *rt,
                            done,
                            owners,
                            next,
                            gemm_step(i as int, row as int, col as int),
                            views(old(tiles)@),
                            views(tiles_before),
                            views(tiles@),
                        );
                        done = done.push(gemm_step(i as int, row as int, col as int));
                        owners = owners.push(next.1);
                        assert(done =~= head + before_gemm(i as int) + gemm_steps(i as int, row as int)
                            + gemm_row_steps(i as int, row as int, col as int + 1));
                    }
                                        assert(rt.same_mapping(old(rt))) by {
                    assert(rt.same_mapping(&before));
                    }
                    assert(same_data(old(tiles)@, tiles@)) by {
                    lemma_same_data_reflexive(tiles_before);
                    assert(same_data(tiles_before, tiles@));
                    lemma_same_data_transitive(old(tiles)@, tiles_before, tiles@);
                    }
                    col += 1;
                }
                proof {
                    assert(done =~= head + before_gemm(i as int) + gemm_steps(
                        i as int,
                        row as int + 1,
                    ));
                }
                row += 1;
            }
            proof {
                assert(done =~= all_steps(repeat as int) + once_steps(i as int + 1));
            }
            i += 1;
        }
        proof {
            lemma_tasks_total();
            assert(done =~= all_steps(repeat as int + 1));
        }
        repeat += 1;
    }
}

/// Submits the tasks of `n_repeat` factorizations of the matrix of tiles
/// `tiles`, each task mapped by its own identifier. For each tile of the diagonal in turn: the tile
/// is factorized by `trfr`; the tiles below it are updated by `panel_update`
/// and the tiles to its right by `trsm`, both reading the tile of the
/// diagonal; and every tile below and to the right is updated by `gemm`,
/// which reads the tile of its row below the diagonal tile and the tile of
/// its column to the right of it.
pub fn lu_fact_round_robin<F1, F2, F3, F4>(
    rt: &mut Runtime<'_, usize>,
    tiles: &mut Vec<Data<()>>,
    n_repeat: usize,
    trfr: F1,
    panel_update: F2,
    trsm: F3,
    gemm: F4,
) where
    F1: Fn(&mut ()) + Copy,
    F2: Fn(&(), &mut ()) + Copy,
    F3: Fn(&(), &mut ()) + Copy,
    F4: Fn(&(), &(), &mut ()) + Copy,

    requires
        old(tiles).len() == NB_TILES_COL * NB_TILES_ROW,
        old(rt).task_counter() + n_repeat * NB_TASKS <= usize::MAX,
        forall|task_id: usize| old(rt).accepts(task_id),
        reads_within(old(tiles)@, old(rt).task_counter() as int),
        forall|z: &mut ()| call_requires(trfr, (z,)),
        forall|x: &(), z: &mut ()| call_requires(panel_update, (x, z)),
        forall|x: &(), z: &mut ()| call_requires(trsm, (x, z)),
        forall|x: &(), y: &(), z: &mut ()| call_requires(gemm, (x, y, z)),
    ensures
        final(rt).task_counter() == old(rt).task_counter() + n_repeat * NB_TASKS,
        final(rt).executor_id() == old(rt).executor_id(),
        final(rt).same_mapping(old(rt)),
        same_data(old(tiles)@, final(tiles)@),
        reads_within(final(tiles)@, final(rt).task_counter() as int),
        exists|owners: Seq<TaskOwnership>| #[trigger]
            factorized_in_turn(
                *old(rt),
                all_steps(n_repeat as int),
                owners,
                views(old(tiles)@),
                views(final(tiles)@),
            ),
{
    let ghost start = rt.task_counter() as int;
    let ghost mut done: Seq<Submission> = Seq::empty();
    let ghost mut owners: Seq<TaskOwnership> = Seq::empty();
    proof {
        assert(views(tiles@) =~= replay(names_of(done), owners, views(tiles@), start));
        assert(tiles_of(done) =~= Seq::<(usize, usize)>::empty());
        assert(ids_from(start, 0) =~= Seq::<usize>::empty());
    }
    proof {
        lemma_same_data_reflexive(tiles@);
        lemma_tasks_before(NB_TILES_ROW as int);
    }
    let mut repeat: usize = 0;
    while repeat < n_repeat
        invariant
            repeat <= n_repeat,
            rt.task_counter() == start + repeat * NB_TASKS,
            done == all_steps(repeat as int),
            old(tiles).len() == NB_TILES_COL * NB_TILES_ROW,
            start + n_repeat * NB_TASKS <= usize::MAX,
            rt.executor_id() == old(rt).executor_id(),
            rt.same_mapping(old(rt)),
            forall|task_id: usize| old(rt).accepts(task_id),
            same_data(old(tiles)@, tiles@),
            start == old(rt).task_counter(),
            rt.task_counter() == start + done.len(),
            factorized_in_turn(*old(rt), done, owners, views(old(tiles)@), views(tiles@)),
            reads_within(tiles@, rt.task_counter() as int),
            forall|z: &mut ()| call_requires(trfr, (z,)),
            forall|x: &(), z: &mut ()| call_requires(panel_update, (x, z)),
            forall|x: &(), z: &mut ()| call_requires(trsm, (x, z)),
            forall|x: &(), y: &(), z: &mut ()| call_requires(gemm, (x, y, z)),
        decreases n_repeat - repeat,
    {
        proof {
            assert(done =~= all_steps(repeat as int) + once_steps(0));
        }
        let mut i: usize = 0;
        while i < NB_TILES_ROW
            invariant
                i <= NB_TILES_ROW,
                repeat < n_repeat,
                rt.task_counter() == start + repeat * NB_TASKS + tasks_before(i as int),
                done == all_steps(repeat as int) + once_steps(i as int),
                old(tiles).len() == NB_TILES_COL * NB_TILES_ROW,
                start + n_repeat * NB_TASKS <= usize::MAX,
                rt.executor_id() == old(rt).executor_id(),
                rt.same_mapping(old(rt)),
                forall|task_id: usize| old(rt).accepts(task_id),
                same_data(old(tiles)@, tiles@),
                start == old(rt).task_counter(),
                rt.task_counter() == start + done.len(),
                factorized_in_turn(*old(rt), done, owners, views(old(tiles)@), views(tiles@)),
                reads_within(tiles@, rt.task_counter() as int),
                forall|z: &mut ()| call_requires(trfr, (z,)),
                forall|x: &(), z: &mut ()| call_requires(panel_update, (x, z)),
                forall|x: &(), z: &mut ()| call_requires(trsm, (x, z)),
                forall|x: &(), y: &(), z: &mut ()| call_requires(gemm, (x, y, z)),
            decreases NB_TILES_ROW - i,
        {
            let ghost base = rt.task_counter() as int;
            let ghost head = done;
            let ghost width = NB_TILES_ROW - 1 - i;
            let ghost height = NB_TILES_COL - 1 - i;
            proof {
                lemma_tasks_before(i as int);
                lemma_tasks_before(i as int + 1);
                assert(tasks_before(i as int + 1) == tasks_before(i as int) + 1 + height + width
                    + height * width) by (nonlinear_arith)
                    requires
                        tasks_before(i as int + 1) == tasks_before(i as int) + (height + 1) * (width
                            + 1),
                ;
                assert(height * width >= 0) by (nonlinear_arith)
                    requires
                        height >= 0,
                        width >= 0,
                ;
            }
            // Triangular factorization
            let pivot = tile(i, i);
            {
                let ghost before = *rt;
                let ghost tiles_before = tiles@;
                let next = task_w(rt, trfr, &mut tiles[pivot]);
                proof {
                    assert(views(tiles@) =~= records_after(
                        views(tiles_before),
                        trfr_step(i as int).names,
                        next.0,
                        next.1,
                    ));
                    assert(before.same_mapping(old(rt)));
                    lemma_one_more_in_turn(
                        *old(rt),
                        before,
                        *rt,
                        done,
                        owners,
                        next,
                        trfr_step(i as int),
                        views(old(tiles)@),
                        views(tiles_before),
                        views(tiles@),
                    );
                    done = done.push(trfr_step(i as int));
                    owners = owners.push(next.1);
                    assert(done =~= head.push(trfr_step(i as int)) + panel_steps(i as int, i as int + 1));
                }
                                assert(rt.same_mapping(old(rt))) by {
                assert(rt.same_mapping(&before));
                }
                assert(same_data(old(tiles)@, tiles@)) by {
                lemma_same_data_reflexive(tiles_before);
                assert(same_data(tiles_before, tiles@));
                lemma_same_data_transitive(old(tiles)@, tiles_before, tiles@);
                }
            }

            // Panel update
            let mut row: usize = i + 1;
            while row < NB_TILES_COL
                invariant
                    i < NB_TILES_ROW,
                    i + 1 <= row <= NB_TILES_COL,
                    repeat < n_repeat,
                    pivot == spec_tile(i as int, i as int),
                    width == NB_TILES_ROW - 1 - i,
                    height == NB_TILES_COL - 1 - i,
                    height * width >= 0,
                    base == start + repeat * NB_TASKS + tasks_before(i as int),
                    base + 1 + height + width + height * width <= start + (repeat + 1) * NB_TASKS,
                    rt.task_counter() == base + 1 + (row - i - 1),
                    done == head.push(trfr_step(i as int)) + panel_steps(i as int, row as int),
                    old(tiles).len() == NB_TILES_COL * NB_TILES_ROW,
                    start + n_repeat * NB_TASKS <= usize::MAX,
                    rt.executor_id() == old(rt).executor_id(),
                    rt.same_mapping(old(rt)),
                    forall|task_id: usize| old(rt).accepts(task_id),
                    same_data(old(tiles)@, tiles@),
                    start == old(rt).task_counter(),
                    rt.task_counter() == start + done.len(),
                    factorized_in_turn(*old(rt), done, owners, views(old(tiles)@), views(tiles@)),
                    reads_within(tiles@, rt.task_counter() as int),
                    forall|z: &mut ()| call_requires(trfr, (z,)),
                    forall|x: &(), z: &mut ()| call_requires(panel_update, (x, z)),
                    forall|x: &(), z: &mut ()| call_requires(trsm, (x, z)),
                    forall|x: &(), y: &(), z: &mut ()| call_requires(gemm, (x, y, z)),
                decreases NB_TILES_COL - row,
            {
                let below = tile(row, i);
                let ghost before = *rt;
                let ghost tiles_before = tiles@;
                let (pivot_tile, panel_tile) = get_two(tiles.as_mut_slice(), pivot, below);
                let next = task_r_w(rt, panel_update, pivot_tile, panel_tile);
                proof {
                    assert(views(tiles@) =~= records_after(
                        views(tiles_before),
                        panel_step(i as int, row as int).names,
                        next.0,
                        next.1,
                    ));
                    assert(before.same_mapping(old(rt)));
                    lemma_one_more_in_turn(
                        *old(rt),
                        before,
                        *rt,
                        done,
                        owners,
                        next,
                        panel_step(i as int, row as int),
                        views(old(tiles)@),
                        views(tiles_before),
                        views(tiles@),
                    );
                    done = done.push(panel_step(i as int, row as int));
                    owners = owners.push(next.1);
                    assert(done =~= head.push(trfr_step(i as int)) + panel_steps(i as int, row as int + 1));
                }
                                assert(rt.same_mapping(old(rt))) by {
                assert(rt.same_mapping(&before));
                }
                assert(same_data(old(tiles)@, tiles@)) by {
                lemma_same_data_reflexive(tiles_before);
                assert(same_data(tiles_before, tiles@));
                lemma_same_data_transitive(old(tiles)@, tiles_before, tiles@);
                }
                row += 1;
            }

            // Triangular update
            proof {
                assert(done =~= head.push(trfr_step(i as int)) + panel_steps(
                    i as int,
                    NB_TILES_COL as int,
                ) + trsm_steps(i as int, i as int + 1));
            }
            let mut col: usize = i + 1;
            while col < NB_TILES_ROW
                invariant
                    i < NB_TILES_ROW,
                    i + 1 <= col <= NB_TILES_ROW,
                    repeat < n_repeat,
                    pivot == spec_tile(i as int, i as int),
                    width == NB_TILES_ROW - 1 - i,
                    height == NB_TILES_COL - 1 - i,
                    height * width >= 0,
                    base == start + repeat * NB_TASKS + tasks_before(i as int),
                    base + 1 + height + width + height * width <= start + (repeat + 1) * NB_TASKS,
                    rt.task_counter() == base + 1 + height + (col - i - 1),
                    done == head.push(trfr_step(i as int)) + panel_steps(i as int, NB_TILES_COL as int) + trsm_steps(
                        i as int,
                        col as int,
                    ),
                    old(tiles).len() == NB_TILES_COL * NB_TILES_ROW,
                    start + n_repeat * NB_TASKS <= usize::MAX,
                    rt.executor_id() == old(rt).executor_id(),
                    rt.same_mapping(old(rt)),
                    forall|task_id: usize| old(rt).accepts(task_id),
                    same_data(old(tiles)@, tiles@),
                    start == old(rt).task_counter(),
                    rt.task_counter() == start + done.len(),
                    factorized_in_turn(*old(rt), done, owners, views(old(tiles)@), views(tiles@)),
                    reads_within(tiles@, rt.task_counter() as int),
                    forall|z: &mut ()| call_requires(trfr, (z,)),
                    forall|x: &(), z: &mut ()| call_requires(panel_update, (x, z)),
                    forall|x: &(), z: &mut ()| call_requires(trsm, (x, z)),
                    forall|x: &(), y: &(), z: &mut ()| call_requires(gemm, (x, y, z)),
                decreases NB_TILES_ROW - col,
            {
                let right = tile(i, col);
                let ghost before = *rt;
                let ghost tiles_before = tiles@;
                let (pivot_tile, right_tile) = get_two(tiles.as_mut_slice(), pivot, right);
                let next = task_r_w(rt, trsm, pivot_tile, right_tile);
                proof {
                    assert(views(tiles@) =~= records_after(
                        views(tiles_before),
                        trsm_step(i as int, col as int).names,
                        next.0,
                        next.1,
                    ));
                    assert(before.same_mapping(old(rt)));
                    lemma_one_more_in_turn(
                        *old(rt),
                        before,
                        *rt,
                        done,
                        owners,
                        next,
                        trsm_step(i as int, col as int),
                        views(old(tiles)@),
                        views(tiles_before),
                        views(tiles@),
                    );
                    done = done.push(trsm_step(i as int, col as int));
                    owners = owners.push(next.1);
                    assert(done =~= head.push(trfr_step(i as int)) + panel_steps(i as int, NB_TILES_COL as int)
                        + trsm_steps(i as int, col as int + 1));
                }
                                assert(rt.same_mapping(old(rt))) by {
                assert(rt.same_mapping(&before));
                }
                assert(same_data(old(tiles)@, tiles@)) by {
                lemma_same_data_reflexive(tiles_before);
                assert(same_data(tiles_before, tiles@));
                lemma_same_data_transitive(old(tiles)@, tiles_before, tiles@);
                }
                col += 1;
            }

            // GEMM update
            proof {
                assert(done =~= head + before_gemm(i as int) + gemm_steps(i as int, i as int + 1));
            }
            let mut row: usize = i + 1;
            while row < NB_TILES_COL
                invariant
                    i < NB_TILES_ROW,
                    i + 1 <= row <= NB_TILES_COL,
                    repeat < n_repeat,
                    width == NB_TILES_ROW - 1 - i,
                    height == NB_TILES_COL - 1 - i,
                    height * width >= 0,
                    base == start + repeat * NB_TASKS + tasks_before(i as int),
                    base + 1 + height + width + height * width <= start + (repeat + 1) * NB_TASKS,
                    rt.task_counter() == base + 1 + height + width + (row - i - 1) * width,
                    done == head + before_gemm(i as int) + gemm_steps(i as int, row as int),
                    old(tiles).len() == NB_TILES_COL * NB_TILES_ROW,
                    start + n_repeat * NB_TASKS <= usize::MAX,
                    rt.executor_id() == old(rt).executor_id(),
                    rt.same_mapping(old(rt)),
                    forall|task_id: usize| old(rt).accepts(task_id),
                    same_data(old(tiles)@, tiles@),
                    start == old(rt).task_counter(),
                    rt.task_counter() == start + done.len(),
                    factorized_in_turn(*old(rt), done, owners, views(old(tiles)@), views(tiles@)),
                    reads_within(tiles@, rt.task_counter() as int),
                    forall|z: &mut ()| call_requires(trfr, (z,)),
                    forall|x: &(), z: &mut ()| call_requires(panel_update, (x, z)),
                    forall|x: &(), z: &mut ()| call_requires(trsm, (x, z)),
                    forall|x: &(), y: &(), z: &mut ()| call_requires(gemm, (x, y, z)),
                decreases NB_TILES_COL - row,
            {
                let ghost row_base = rt.task_counter() as int;
                proof {
                    assert((row - i - 1) * width + width <= height * width) by (nonlinear_arith)
                        requires
                            row - i - 1 < height,
                            width >= 0,
                    ;
                    assert((row + 1 - i - 1) * width == (row - i - 1) * width + width)
                        by (nonlinear_arith);
                }
                proof {
                    assert(done =~= head + before_gemm(i as int) + gemm_steps(i as int, row as int)
                        + gemm_row_steps(i as int, row as int, i as int + 1));
                }
                let mut col: usize = i + 1;
                while col < NB_TILES_ROW
                    invariant
                        i < NB_TILES_ROW,
                        i + 1 <= row < NB_TILES_COL,
                        i + 1 <= col <= NB_TILES_ROW,
                        repeat < n_repeat,
                        width == NB_TILES_ROW - 1 - i,
                        row_base + width <= start + (repeat + 1) * NB_TASKS,
                        rt.task_counter() == row_base + (col - i - 1),
                        done == head + before_gemm(i as int) + gemm_steps(i as int, row as int) + gemm_row_steps(
                            i as int,
                            row as int,
                            col as int,
                        ),
                        old(tiles).len() == NB_TILES_COL * NB_TILES_ROW,
                        start + n_repeat * NB_TASKS <= usize::MAX,
                        rt.executor_id() == old(rt).executor_id(),
                        rt.same_mapping(old(rt)),
                        forall|task_id: usize| old(rt).accepts(task_id),
                        same_data(old(tiles)@, tiles@),
                        start == old(rt).task_counter(),
                        rt.task_counter() == start + done.len(),
                        factorized_in_turn(*old(rt), done, owners, views(old(tiles)@), views(tiles@)),
                        reads_within(tiles@, rt.task_counter() as int),
                        forall|z: &mut ()| call_requires(trfr, (z,)),
                        forall|x: &(), z: &mut ()| call_requires(panel_update, (x, z)),
                        forall|x: &(), z: &mut ()| call_requires(trsm, (x, z)),
                        forall|x: &(), y: &(), z: &mut ()| call_requires(gemm, (x, y, z)),
                    decreases NB_TILES_ROW - col,
                {
                    let left = tile(row, i);
                    let above = tile(i, col);
                    let target = tile(row, col);
                    let ghost before = *rt;
                    let ghost tiles_before = tiles@;
                    let (a, b, c) = three_of(tiles.as_mut_slice(), left, above, target);
                    let next = task_rr_w(rt, gemm, a, b, c);
                    proof {
                        assert(views(tiles@) =~= records_after(
                            views(tiles_before),
                            gemm_step(i as int, row as int, col as int).names,
                            next.0,
                            next.1,
                        ));
                        assert(before.same_mapping(old(rt)));
                        lemma_one_more_in_turn(
                            *old(rt),
                            before,
                            *rt,
                            done,
                            owners,
                            next,
                            gemm_step(i as int, row as int, col as int),
                            views(old(tiles)@),
                            views(tiles_before),
                            views(tiles@),
                        );
                        done = done.push(gemm_step(i as int, row as int, col as int));
                        owners = owners.push(next.1);
                        assert(done =~= head + before_gemm(i as int) + gemm_steps(i as int, row as int)
                            + gemm_row_steps(i as int, row as int, col as int + 1));
                    }
                                        assert(rt.same_mapping(old(rt))) by {
                    assert(rt.same_mapping(&before));
                    }
                    assert(same_data(old(tiles)@, tiles@)) by {
                    lemma_same_data_reflexive(tiles_before);
                    assert(same_data(tiles_before, tiles@));
                    lemma_same_data_transitive(old(tiles)@, tiles_before, tiles@);
                    }
                    col += 1;
                }
                proof {
                    assert(done =~= head + before_gemm(i as int) + gemm_steps(
                        i as int,
                        row as int + 1,
                    ));
                }
                row += 1;
            }
            proof {
                assert(done =~= all_steps(repeat as int) + once_steps(i as int + 1));
            }
            i += 1;
        }
        proof {
            lemma_tasks_total();
            assert(done =~= all_steps(repeat as int + 1));
        }
        repeat += 1;
    }
}

} // verus!
