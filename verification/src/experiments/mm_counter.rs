//! Matrix multiplication by tiles: every tile of the product is updated once
//! for each pair of tiles of the factors that contributes to it.

use vstd::prelude::*;

use crate::data::Data;
use crate::experiments::ids_from;
use crate::experiments::lemma_ran_push;
use crate::experiments::lemma_replay_push;
use crate::experiments::lemma_same_data_reflexive;
use crate::experiments::lemma_same_data_transitive;
use crate::experiments::ran;
use crate::experiments::reads_within;
use crate::experiments::records_after;
use crate::experiments::replay;
use crate::experiments::same_data;
use crate::experiments::views;
use crate::experiments::Names;
use crate::record::DataLocalState;
use crate::record::TaskId;
use crate::runtime::ExecutorId;
use crate::runtime::Mapping;
use crate::runtime::Runtime;
use crate::runtime::TaskOwnership;
use crate::task::task_rr_w;

verus! {

/// The number of tiles in a row and in a column of the matrices.
pub const NB_TILES: usize = 24;

/// The number of tasks of one multiplication: one for each tile of the
/// product and each tile of the row of the first factor that goes into it.
pub const NB_TASKS: usize = 13824;

/// The mapping that gives the tasks of a matrix multiplication to the
/// workers in runs of `NB_TILES` tasks: all the tasks that update one tile go
/// to one worker.
#[derive(Clone, Copy, Debug)]
pub struct TileRuns {
    nb_threads: u32,
}

impl TileRuns {
    /// The number of workers that the runs of tasks are dealt out to.
    pub closed spec fn nb_threads(&self) -> u32 {
        self.nb_threads
    }

    /// The executor of the task `task_id`.
    pub open spec fn spec_executor(nb_threads: u32, task_id: usize) -> ExecutorId {
        ExecutorId { thread_id: (((task_id - 1) / (NB_TILES as int)) % (nb_threads as int)) as u32 }
    }
}

impl Mapping<usize> for TileRuns {
    /// There must be a worker, and the task must be one: tasks are numbered
    /// from 1.
    open spec fn accepts(&self, args: usize) -> bool {
        &&& self.nb_threads() > 0
        &&& args > 0
    }

    open spec fn maps_to(&self, args: usize, id: ExecutorId) -> bool {
        id == Self::spec_executor(self.nb_threads(), args)
    }

    fn executor(&self, args: usize) -> (id: ExecutorId) {
        ExecutorId { thread_id: (((args - 1) / NB_TILES) % (self.nb_threads as usize)) as u32 }
    }
}

/// Build the mapping from tasks to executor.
pub fn get_mapping(nb_threads: u32) -> (map: TileRuns)
    ensures
        map.nb_threads() == nb_threads,
{
    TileRuns { nb_threads }
}

/// The mapping by runs of tasks names a worker that exists, and the same one
/// for all the tasks of a run.
pub proof fn lemma_tile_runs_in_range(map: TileRuns, task_id: usize, id: ExecutorId)
    requires
        map.accepts(task_id),
        map.maps_to(task_id, id),
    ensures
        id.thread_id < map.nb_threads(),
        forall|other: usize|
            other > 0 && (other - 1) / (NB_TILES as int) == (task_id - 1) / (NB_TILES as int)
                ==> #[trigger] map.maps_to(other, id),
{
}

/// The place of the tile `(i, j)` in a matrix stored row after row.
pub open spec fn spec_tile(i: int, j: int) -> int {
    i * NB_TILES + j
}

/// The place of the tile `(i, j)` in a matrix stored row after row.
pub fn tile(i: usize, j: usize) -> (place: usize)
    requires
        i < NB_TILES,
        j < NB_TILES,
    ensures
        place == spec_tile(i as int, j as int),
        place < NB_TILES * NB_TILES,
{
    i * NB_TILES + j
}

/// The column of the product, the row of the product and the tile of the
/// row that the task number `t` of a run of multiplications works on, tasks
/// being numbered from 0: the tasks go through the columns of the product;
/// in a column, through its tiles; for a tile, through the tiles of the
/// row of the first factor.
#[verifier::opaque]
pub open spec fn place_of(t: int) -> (int, int, int) {
    let in_run = t % (NB_TASKS as int);
    (in_run / 576, (in_run % 576) / 24, in_run % 24)
}

/// What the first `n` tasks name in the first factor: the task that works
/// on `(j, i, k)` reads the tile `(i, k)`.
pub open spec fn names_in_a(n: int) -> Seq<Names> {
    Seq::new(n as nat, |t: int| Names::Read(spec_tile(place_of(t).1, place_of(t).2)))
}

/// What the first `n` tasks name in the second factor: the task that works
/// on `(j, i, k)` reads the tile `(k, j)`.
pub open spec fn names_in_b(n: int) -> Seq<Names> {
    Seq::new(n as nat, |t: int| Names::Read(spec_tile(place_of(t).2, place_of(t).0)))
}

/// What the first `n` tasks name in the product: the task that works on
/// `(j, i, k)` writes the tile `(i, j)`.
pub open spec fn names_in_c(n: int) -> Seq<Names> {
    Seq::new(n as nat, |t: int| Names::Write(spec_tile(place_of(t).1, place_of(t).0)))
}

/// What `n` tasks of multiplications leave behind, on a worker that found
/// the ownerships `owners` for them: each task was mapped by its own
/// identifier, and the records of the tiles are those of a worker that
/// submitted these tasks, one after the other.
pub open spec fn multiplied(
    rt: Runtime<'_, usize>,
    n: int,
    owners: Seq<TaskOwnership>,
    before: (Seq<DataLocalState>, Seq<DataLocalState>, Seq<DataLocalState>),
    after: (Seq<DataLocalState>, Seq<DataLocalState>, Seq<DataLocalState>),
) -> bool {
    let first_id = rt.task_counter() as int;
    &&& ran(rt, ids_from(first_id, n), owners)
    &&& after.0 == replay(names_in_a(n), owners, before.0, first_id)
    &&& after.1 == replay(names_in_b(n), owners, before.1, first_id)
    &&& after.2 == replay(names_in_c(n), owners, before.2, first_id)
}

/// The place that the nested loops of a multiplication are at, from the
/// number of the task.
proof fn lemma_place_of(repeat: int, j: int, i: int, k: int)
    requires
        0 <= repeat,
        0 <= j < NB_TILES,
        0 <= i < NB_TILES,
        0 <= k < NB_TILES,
    ensures
        place_of(repeat * NB_TASKS + j * 576 + i * 24 + k) == (j, i, k),
{
    reveal(place_of);
    let in_run = j * 576 + i * 24 + k;
    let t = repeat * NB_TASKS + in_run;
    assert(0 <= in_run < 13824);
    assert(t % 13824 == in_run) by (nonlinear_arith)
        requires
            t == repeat * 13824 + in_run,
            0 <= in_run < 13824,
            0 <= repeat,
    ;
    assert(in_run / 576 == j && in_run % 576 == i * 24 + k) by (nonlinear_arith)
        requires
            in_run == j * 576 + i * 24 + k,
            0 <= i * 24 + k < 576,
            0 <= j,
    ;
    assert((i * 24 + k) / 24 == i && (i * 24 + k) % 24 == k) by (nonlinear_arith)
        requires
            0 <= k < 24,
            0 <= i,
    ;
    assert(in_run % 24 == k) by (nonlinear_arith)
        requires
            in_run == (j * 24 + i) * 24 + k,
            0 <= k < 24,
            0 <= j * 24 + i,
    ;
}

/// One more task submitted is one more task that the records tell of.
proof fn lemma_one_more(
    origin: Runtime<'_, usize>,
    before: Runtime<'_, usize>,
    after: Runtime<'_, usize>,
    owners: Seq<TaskOwnership>,
    next: (TaskId, TaskOwnership),
    at: (int, int, int, int),
    olds: (Seq<DataLocalState>, Seq<DataLocalState>, Seq<DataLocalState>),
    befores: (Seq<DataLocalState>, Seq<DataLocalState>, Seq<DataLocalState>),
    afters: (Seq<DataLocalState>, Seq<DataLocalState>, Seq<DataLocalState>),
)
    requires
        0 <= at.0,
        0 <= at.1 < NB_TILES,
        0 <= at.2 < NB_TILES,
        0 <= at.3 < NB_TILES,
        before.task_counter() - origin.task_counter() == at.0 * NB_TASKS + at.1 * 576 + at.2 * 24
            + at.3,
        multiplied(origin, before.task_counter() - origin.task_counter(), owners, olds, befores),
        before.same_mapping(&origin),
        before.executor_id() == origin.executor_id(),
        before.submits(&after, after.task_counter(), next),
        afters.0 == records_after(befores.0, Names::Read(spec_tile(at.2, at.3)), next.0, next.1),
        afters.1 == records_after(befores.1, Names::Read(spec_tile(at.3, at.1)), next.0, next.1),
        afters.2 == records_after(befores.2, Names::Write(spec_tile(at.2, at.1)), next.0, next.1),
    ensures
        multiplied(
            origin,
            after.task_counter() - origin.task_counter(),
            owners.push(next.1),
            olds,
            afters,
        ),
{
    let start = origin.task_counter() as int;
    let t = before.task_counter() - start;
    lemma_place_of(at.0, at.1, at.2, at.3);
    assert(place_of(t) == (at.1, at.2, at.3));
    let ids = ids_from(start, t);
    lemma_ran_push(origin, before, after, ids, owners, after.task_counter(), next);
    assert(ids.push(after.task_counter()) =~= ids_from(start, t + 1));
    lemma_replay_push(
        names_in_a(t),
        owners,
        olds.0,
        start,
        Names::Read(spec_tile(at.2, at.3)),
        next.1,
    );
    assert(names_in_a(t).push(Names::Read(spec_tile(at.2, at.3))) =~= names_in_a(t + 1));
    lemma_replay_push(
        names_in_b(t),
        owners,
        olds.1,
        start,
        Names::Read(spec_tile(at.3, at.1)),
        next.1,
    );
    assert(names_in_b(t).push(Names::Read(spec_tile(at.3, at.1))) =~= names_in_b(t + 1));
    lemma_replay_push(
        names_in_c(t),
        owners,
        olds.2,
        start,
        Names::Write(spec_tile(at.2, at.1)),
        next.1,
    );
    assert(names_in_c(t).push(Names::Write(spec_tile(at.2, at.1))) =~= names_in_c(t + 1));
}

/// Submits the tasks of `nb_repeats` multiplications of the matrix of tiles
/// `a` by the matrix of tiles `b` into the matrix of tiles `c`: for each
/// tile of `c`, column after column, one task for each tile of `a` and of
/// `b` that goes into it. The task reads the two tiles and updates the tile
/// of `c` by `gemm`.
pub fn matrix_mult<F>(
    rt: &mut Runtime<'_, usize>,
    nb_repeats: usize,
    a: &mut Vec<Data<()>>,
    b: &mut Vec<Data<()>>,
    c: &mut Vec<Data<()>>,
    gemm: F,
) where F: Fn(&(), &(), &mut ()) + Copy
    requires
        old(a).len() == NB_TILES * NB_TILES,
        old(b).len() == NB_TILES * NB_TILES,
        old(c).len() == NB_TILES * NB_TILES,
        old(rt).task_counter() + nb_repeats * NB_TASKS <= usize::MAX,
        forall|task_id: usize| task_id > 0 ==> old(rt).accepts(task_id),
        reads_within(old(a)@, old(rt).task_counter() as int),
        reads_within(old(b)@, old(rt).task_counter() as int),
        forall|x: &(), y: &(), z: &mut ()| call_requires(gemm, (x, y, z)),
    ensures
        final(rt).task_counter() == old(rt).task_counter() + nb_repeats * NB_TASKS,
        final(rt).executor_id() == old(rt).executor_id(),
        final(rt).same_mapping(old(rt)),
        same_data(old(a)@, final(a)@),
        same_data(old(b)@, final(b)@),
        same_data(old(c)@, final(c)@),
        reads_within(final(a)@, final(rt).task_counter() as int),
        reads_within(final(b)@, final(rt).task_counter() as int),
        exists|owners: Seq<TaskOwnership>| #[trigger]
            multiplied(
                *old(rt),
                nb_repeats * NB_TASKS,
                owners,
                (views(old(a)@), views(old(b)@), views(old(c)@)),
                (views(final(a)@), views(final(b)@), views(final(c)@)),
            ),
{
    let ghost start = rt.task_counter() as int;
    let ghost mut owners: Seq<TaskOwnership> = Seq::empty();
    proof {
        assert(views(a@) =~= replay(names_in_a(0), owners, views(a@), start));
        assert(views(b@) =~= replay(names_in_b(0), owners, views(b@), start));
        assert(views(c@) =~= replay(names_in_c(0), owners, views(c@), start));
    }
    proof {
        lemma_same_data_reflexive(a@);
        lemma_same_data_reflexive(b@);
        lemma_same_data_reflexive(c@);
    }
    let mut repeat: usize = 0;
    while repeat < nb_repeats
        invariant
            repeat <= nb_repeats,
            start + nb_repeats * NB_TASKS <= usize::MAX,
            rt.task_counter() == start + repeat * NB_TASKS,
            rt.executor_id() == old(rt).executor_id(),
            rt.same_mapping(old(rt)),
            forall|task_id: usize| task_id > 0 ==> old(rt).accepts(task_id),
            same_data(old(a)@, a@),
            same_data(old(b)@, b@),
            same_data(old(c)@, c@),
            old(a).len() == NB_TILES * NB_TILES,
            old(b).len() == NB_TILES * NB_TILES,
            old(c).len() == NB_TILES * NB_TILES,
            reads_within(a@, rt.task_counter() as int),
            reads_within(b@, rt.task_counter() as int),
            multiplied(
            *old(rt),
            rt.task_counter() - start,
            owners,
            (views(old(a)@), views(old(b)@), views(old(c)@)),
            (views(a@), views(b@), views(c@)),
        ),
        start == old(rt).task_counter(),
forall|x: &(), y: &(), z: &mut ()| call_requires(gemm, (x, y, z)),
        decreases nb_repeats - repeat,
    {
        let mut j: usize = 0;
        while j < NB_TILES
            invariant
                j <= NB_TILES,
                repeat < nb_repeats,
                start + nb_repeats * NB_TASKS <= usize::MAX,
                rt.task_counter() == start + repeat * NB_TASKS + j * 576,
                rt.executor_id() == old(rt).executor_id(),
                rt.same_mapping(old(rt)),
                forall|task_id: usize| task_id > 0 ==> old(rt).accepts(task_id),
                same_data(old(a)@, a@),
                same_data(old(b)@, b@),
                same_data(old(c)@, c@),
                old(a).len() == NB_TILES * NB_TILES,
                old(b).len() == NB_TILES * NB_TILES,
                old(c).len() == NB_TILES * NB_TILES,
                reads_within(a@, rt.task_counter() as int),
                reads_within(b@, rt.task_counter() as int),
                multiplied(
                *old(rt),
                rt.task_counter() - start,
                owners,
                (views(old(a)@), views(old(b)@), views(old(c)@)),
                (views(a@), views(b@), views(c@)),
            ),
            start == old(rt).task_counter(),
forall|x: &(), y: &(), z: &mut ()| call_requires(gemm, (x, y, z)),
            decreases NB_TILES - j,
        {
            let mut i: usize = 0;
            while i < NB_TILES
                invariant
                    i <= NB_TILES,
                    j < NB_TILES,
                    repeat < nb_repeats,
                    start + nb_repeats * NB_TASKS <= usize::MAX,
                    rt.task_counter() == start + repeat * NB_TASKS + j * 576 + i * 24,
                    rt.executor_id() == old(rt).executor_id(),
                    rt.same_mapping(old(rt)),
                    forall|task_id: usize| task_id > 0 ==> old(rt).accepts(task_id),
                    same_data(old(a)@, a@),
                    same_data(old(b)@, b@),
                    same_data(old(c)@, c@),
                    old(a).len() == NB_TILES * NB_TILES,
                    old(b).len() == NB_TILES * NB_TILES,
                    old(c).len() == NB_TILES * NB_TILES,
                    reads_within(a@, rt.task_counter() as int),
                    reads_within(b@, rt.task_counter() as int),
                    multiplied(
                    *old(rt),
                    rt.task_counter() - start,
                    owners,
                    (views(old(a)@), views(old(b)@), views(old(c)@)),
                    (views(a@), views(b@), views(c@)),
                ),
                start == old(rt).task_counter(),
forall|x: &(), y: &(), z: &mut ()| call_requires(gemm, (x, y, z)),
                decreases NB_TILES - i,
            {
                let mut k: usize = 0;
                while k < NB_TILES
                    invariant
                        k <= NB_TILES,
                        i < NB_TILES,
                        j < NB_TILES,
                        repeat < nb_repeats,
                        start + nb_repeats * NB_TASKS <= usize::MAX,
                        rt.task_counter() == start + repeat * NB_TASKS + j * 576 + i * 24 + k,
                        rt.executor_id() == old(rt).executor_id(),
                        rt.same_mapping(old(rt)),
                        forall|task_id: usize| task_id > 0 ==> old(rt).accepts(task_id),
                        same_data(old(a)@, a@),
                        same_data(old(b)@, b@),
                        same_data(old(c)@, c@),
                        old(a).len() == NB_TILES * NB_TILES,
                        old(b).len() == NB_TILES * NB_TILES,
                        old(c).len() == NB_TILES * NB_TILES,
                        reads_within(a@, rt.task_counter() as int),
                        reads_within(b@, rt.task_counter() as int),
                        multiplied(
                        *old(rt),
                        rt.task_counter() - start,
                        owners,
                        (views(old(a)@), views(old(b)@), views(old(c)@)),
                        (views(a@), views(b@), views(c@)),
                    ),
                    start == old(rt).task_counter(),
forall|x: &(), y: &(), z: &mut ()| call_requires(gemm, (x, y, z)),
                    decreases NB_TILES - k,
                {
                    let in_a = tile(i, k);
                    let in_b = tile(k, j);
                    let in_c = tile(i, j);
                    let ghost before = *rt;
                    let ghost a_before = a@;
                    let ghost b_before = b@;
                    let ghost c_before = c@;
                    assert(rt.accepts((rt.task_counter() + 1) as usize));
                    let next = task_rr_w(rt, gemm, &mut a[in_a], &mut b[in_b], &mut c[in_c]);
                    proof {
                        let afters = (views(a@), views(b@), views(c@));
                        let befores = (views(a_before), views(b_before), views(c_before));
                        assert(afters.0 =~= records_after(
                            befores.0,
                            Names::Read(in_a as int),
                            next.0,
                            next.1,
                        ));
                        assert(afters.1 =~= records_after(
                            befores.1,
                            Names::Read(in_b as int),
                            next.0,
                            next.1,
                        ));
                        assert(afters.2 =~= records_after(
                            befores.2,
                            Names::Write(in_c as int),
                            next.0,
                            next.1,
                        ));
                        lemma_one_more(
                            *old(rt),
                            before,
                            *rt,
                            owners,
                            next,
                            (repeat as int, j as int, i as int, k as int),
                            (views(old(a)@), views(old(b)@), views(old(c)@)),
                            befores,
                            afters,
                        );
                        owners = owners.push(next.1);
                    }
                    assert(rt.same_mapping(old(rt))) by {
                        assert(rt.same_mapping(&before));
                    }
                    assert(same_data(old(a)@, a@)) by {
                        lemma_same_data_reflexive(a_before);
                        assert(same_data(a_before, a@));
                        lemma_same_data_transitive(old(a)@, a_before, a@);
                    }
                    assert(same_data(old(b)@, b@)) by {
                        lemma_same_data_reflexive(b_before);
                        assert(same_data(b_before, b@));
                        lemma_same_data_transitive(old(b)@, b_before, b@);
                    }
                    assert(same_data(old(c)@, c@)) by {
                        lemma_same_data_reflexive(c_before);
                        assert(same_data(c_before, c@));
                        lemma_same_data_transitive(old(c)@, c_before, c@);
                    }
                    k += 1;
                }
                i += 1;
            }
            j += 1;
        }
        repeat += 1;
    }
}

} // verus!
