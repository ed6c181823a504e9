//! Why comparing counters is enough to order the accesses to a piece of data.
//!
//! This module describes the computation as a whole, as far as one piece of
//! data is concerned: the tasks in the order in which every worker submits
//! them, each with what it does to the data, if anything; the record of every
//! worker and the shared record. A step is what one worker does to this state
//! through the functions of the crate: declaring the next task when it is not
//! the owner, being granted access to the data when it is, and releasing the
//! data afterwards. The laws proved at the end hold of every state that such
//! steps lead to.

use vstd::prelude::*;

use crate::record::Access;
use crate::record::DataLocalState;
use crate::record::DataLockedState;
use crate::record::TaskId;
use crate::runtime::ExecutorId;
use crate::runtime::TaskOwnership;

verus! {

/// A task, as far as the data is concerned. The task at `j` in the program
/// is the one that every worker identifies by `j + 1`.
pub struct Op {
    /// The worker that the mapping names for the task.
    pub owner: ExecutorId,
    /// What the task does to the data, if it touches the data at all.
    pub access: Option<Access>,
}

/// Where one worker stands.
pub struct WorkerState {
    /// The number of tasks that the worker is through with.
    pub next: nat,
    /// Whether the worker holds a handle on the data, for its next task.
    pub holding: bool,
    /// The worker's own record of the data.
    pub local: DataLocalState,
}

/// Where the computation stands, as far as the data is concerned.
pub struct SystemState {
    /// The workers, by thread identifier.
    pub workers: Seq<WorkerState>,
    /// The shared record of the data.
    pub shared: DataLockedState,
}

/// What a worker may do next.
pub enum Step {
    /// Declare a task of another worker.
    Declare,
    /// Pass a task that does not touch the data.
    Skip,
    /// Be granted access for a task of its own.
    Acquire,
    /// Release the data after a task of its own.
    Release,
    /// Start waiting for the shared record to change.
    Park,
    /// Stop waiting.
    Unpark,
}

/// The tasks of a computation on `nb_workers` workers: every task is mapped
/// to one of the workers, and the program is short enough for its tasks to
/// be counted.
pub open spec fn valid_program(program: Seq<Op>, nb_workers: nat) -> bool {
    &&& program.len() < usize::MAX
    &&& forall|j: int| 0 <= j < program.len() ==> (#[trigger] program[j]).owner.thread_id < nb_workers
}

/// Whether the task at `j` reads the data.
pub open spec fn reads(program: Seq<Op>, j: int) -> bool {
    program[j].access == Some(Access::Read)
}

/// Whether the task at `j` writes the data.
pub open spec fn writes(program: Seq<Op>, j: int) -> bool {
    program[j].access == Some(Access::Write)
}

/// The state before any worker has done anything.
pub open spec fn initial(nb_workers: nat) -> SystemState {
    SystemState {
        workers: Seq::new(
            nb_workers,
            |w: int| WorkerState { next: 0, holding: false, local: DataLocalState::fresh() },
        ),
        shared: DataLockedState::fresh(),
    }
}

/// The worker that owns the task at `j`.
pub open spec fn owner_of(program: Seq<Op>, j: int) -> int {
    program[j].owner.thread_id as int
}

/// Whether the task at `j` was carried out: its owner is through with it.
pub open spec fn done(program: Seq<Op>, state: SystemState, j: int) -> bool {
    state.workers[owner_of(program, j)].next > j
}

/// Whether a worker with the record `local` is granted an access, given the
/// shared record: a read is granted at once to a holder that is not dirty,
/// and any other access when the shared record is ready for it.
pub open spec fn granted(local: DataLocalState, access: Access, shared: DataLockedState) -> bool {
    match access {
        Access::Read => !local.dirty || local.spec_read_is_ready(shared),
        Access::Write => local.spec_write_is_ready(shared),
    }
}

/// The identifier of the task at `j`. The index -1 stands for no task, and
/// gives 0.
pub open spec fn id_at(j: int) -> usize {
    (j + 1) as usize
}

/// The record of a worker after the task at `j`, given its ownership of it.
pub open spec fn local_after(
    local: DataLocalState,
    program: Seq<Op>,
    j: int,
    ownership: TaskOwnership,
) -> DataLocalState {
    match program[j].access {
        None => local,
        Some(Access::Read) => local.spec_after_read(ownership),
        Some(Access::Write) => local.spec_after_write(TaskId(id_at(j)), ownership),
    }
}

/// The shared record after the task at `j` was carried out.
pub open spec fn shared_after(shared: DataLockedState, program: Seq<Op>, j: int) -> DataLockedState {
    match program[j].access {
        None => shared,
        Some(Access::Read) => shared.spec_read_done(),
        Some(Access::Write) => shared.spec_write_done(TaskId(id_at(j))),
    }
}

/// Whether the step `kind` of the worker `w` leads from `before` to `after`.
pub open spec fn step(
    program: Seq<Op>,
    before: SystemState,
    after: SystemState,
    w: int,
    kind: Step,
) -> bool {
    let me = before.workers[w];
    let i = me.next as int;
    &&& 0 <= w < before.workers.len()
    &&& me.next < program.len()
    &&& match kind {
        Step::Declare => {
            &&& owner_of(program, i) != w
            &&& program[i].access is Some
            &&& after.shared == before.shared
            &&& after.workers == before.workers.update(
                w,
                WorkerState {
                    next: me.next + 1,
                    holding: false,
                    local: local_after(me.local, program, i, TaskOwnership::NotOwner),
                },
            )
        },
        Step::Skip => {
            &&& program[i].access is None
            &&& !me.holding
            &&& after.shared == before.shared
            &&& after.workers == before.workers.update(w, WorkerState { next: me.next + 1, ..me })
        },
        Step::Acquire => {
            &&& owner_of(program, i) == w
            &&& program[i].access matches Some(access)
            &&& !me.holding
            &&& granted(me.local, access, before.shared)
            &&& after.shared == before.shared
            &&& after.workers == before.workers.update(w, WorkerState { holding: true, ..me })
        },
        Step::Release => {
            &&& me.holding
            &&& after.shared == shared_after(before.shared, program, i)
            &&& after.workers == before.workers.update(
                w,
                WorkerState {
                    next: me.next + 1,
                    holding: false,
                    local: local_after(me.local, program, i, TaskOwnership::Owner),
                },
            )
        },
        Step::Park => {
            &&& !me.holding
            &&& after.shared == before.shared.spec_enqueue_waiter()
            &&& after.workers == before.workers
        },
        Step::Unpark => {
            &&& !me.holding
            &&& after.shared == before.shared.spec_dequeue_waiter()
            &&& after.workers == before.workers
        },
    }
}

/// Whether some step of some worker leads from `before` to `after`.
pub open spec fn follows(program: Seq<Op>, before: SystemState, after: SystemState) -> bool {
    exists|w: int, kind: Step| #[trigger] step(program, before, after, w, kind)
}

/// A run of the computation: it starts from the initial state, and every
/// state follows from the one before by a step of some worker.
pub open spec fn execution(program: Seq<Op>, nb_workers: nat, states: Seq<SystemState>) -> bool {
    &&& states.len() > 0
    &&& states[0] == initial(nb_workers)
    &&& forall|t: int|
        0 <= t < states.len() - 1 ==> follows(program, #[trigger] states[t], states[t + 1])
}

/// The last write among the first `k` tasks, or -1 if there is none.
pub open spec fn last_write(program: Seq<Op>, k: int) -> int
    decreases k,
{
    if k <= 0 {
        -1
    } else if writes(program, k - 1) {
        k - 1
    } else {
        last_write(program, k - 1)
    }
}

/// The last write among the first `k` tasks that was carried out, or -1 if
/// there is none.
pub open spec fn last_done_write(program: Seq<Op>, state: SystemState, k: int) -> int
    decreases k,
{
    if k <= 0 {
        -1
    } else if writes(program, k - 1) && done(program, state, k - 1) {
        k - 1
    } else {
        last_done_write(program, state, k - 1)
    }
}

/// The number of reads among the tasks from `lo` to `hi - 1`.
pub open spec fn reads_in(program: Seq<Op>, lo: int, hi: int) -> nat
    decreases hi - lo,
{
    if hi <= lo {
        0
    } else if reads(program, hi - 1) {
        reads_in(program, lo, hi - 1) + 1
    } else {
        reads_in(program, lo, hi - 1)
    }
}

/// The number of reads among the tasks from `lo` to `hi - 1` that were
/// carried out.
pub open spec fn done_reads(program: Seq<Op>, state: SystemState, lo: int, hi: int) -> nat
    decreases hi - lo,
{
    if hi <= lo {
        0
    } else if reads(program, hi - 1) && done(program, state, hi - 1) {
        done_reads(program, state, lo, hi - 1) + 1
    } else {
        done_reads(program, state, lo, hi - 1)
    }
}

/// Whether `local` is the record of a worker that is through with the first
/// `k` tasks: it knows the last write among them and counts the reads after
/// it.
pub open spec fn tracks(program: Seq<Op>, k: int, local: DataLocalState) -> bool {
    &&& local.last_registered_write == id_at(last_write(program, k))
    &&& local.nb_reads_since_write == reads_in(program, last_write(program, k) + 1, k)
}

/// Whether every task before `k` that touches the data was carried out.
pub open spec fn all_done_before(program: Seq<Op>, state: SystemState, k: int) -> bool {
    forall|j: int| 0 <= j < k && program[j].access is Some ==> #[trigger] done(program, state, j)
}

/// Whether every write before `k` was carried out.
pub open spec fn writes_done_before(program: Seq<Op>, state: SystemState, k: int) -> bool {
    forall|j: int| 0 <= j < k && writes(program, j) ==> #[trigger] done(program, state, j)
}

/// What a worker that holds the data for the task at `i` has waited for: the
/// writes before it if it reads, and all the tasks on the data before it if
/// it writes.
pub open spec fn waited_for(program: Seq<Op>, state: SystemState, i: int) -> bool {
    match program[i].access {
        None => false,
        Some(Access::Read) => writes_done_before(program, state, i),
        Some(Access::Write) => all_done_before(program, state, i),
    }
}

/// Whether the worker `w` is where the protocol wants it.
pub open spec fn worker_consistent(program: Seq<Op>, state: SystemState, w: int) -> bool {
    let me = state.workers[w];
    &&& me.next <= program.len()
    &&& tracks(program, me.next as int, me.local)
    &&& !me.local.dirty ==> writes_done_before(program, state, me.next as int)
    &&& me.holding ==> {
        &&& me.next < program.len()
        &&& owner_of(program, me.next as int) == w
        &&& waited_for(program, state, me.next as int)
    }
}

/// Whether the shared record is where the protocol wants it: it names the
/// last write that was carried out and counts the reads carried out since.
pub open spec fn shared_consistent(program: Seq<Op>, state: SystemState) -> bool {
    let last = last_done_write(program, state, program.len() as int);
    &&& state.shared.last_executed_write == id_at(last)
    &&& state.shared.nb_reads_since_write == done_reads(
        program,
        state,
        last + 1,
        program.len() as int,
    )
}

/// Whether the tasks were carried out in an order that respects their
/// dependencies: before a write, every task that precedes it; before a read,
/// every write that precedes it.
pub open spec fn ordered(program: Seq<Op>, state: SystemState) -> bool {
    forall|j: int|
        0 <= j < program.len() && program[j].access is Some && #[trigger] done(program, state, j)
            ==> waited_for(program, state, j)
}

/// What holds of every state of every run.
pub open spec fn consistent(program: Seq<Op>, nb_workers: nat, state: SystemState) -> bool {
    &&& state.workers.len() == nb_workers
    &&& forall|w: int| 0 <= w < nb_workers ==> #[trigger] worker_consistent(program, state, w)
    &&& shared_consistent(program, state)
    &&& ordered(program, state)
}

proof fn lemma_last_write(program: Seq<Op>, k: int)
    requires
        0 <= k <= program.len(),
    ensures
        -1 <= last_write(program, k) < k,
        last_write(program, k) >= 0 ==> writes(program, last_write(program, k)),
        forall|j: int| last_write(program, k) < j < k ==> !#[trigger] writes(program, j),
    decreases k,
{
    if k > 0 && !writes(program, k - 1) {
        lemma_last_write(program, k - 1);
    }
}

proof fn lemma_last_done_write(program: Seq<Op>, state: SystemState, k: int)
    requires
        0 <= k <= program.len(),
    ensures
        -1 <= last_done_write(program, state, k) < k,
        last_done_write(program, state, k) >= 0 ==> {
            &&& writes(program, last_done_write(program, state, k))
            &&& done(program, state, last_done_write(program, state, k))
        },
        forall|j: int|
            last_done_write(program, state, k) < j < k && writes(program, j) ==> !#[trigger] done(
                program,
                state,
                j,
            ),
    decreases k,
{
    if k > 0 && !(writes(program, k - 1) && done(program, state, k - 1)) {
        lemma_last_done_write(program, state, k - 1);
    }
}

proof fn lemma_last_done_write_is(program: Seq<Op>, state: SystemState, k: int, j: int)
    requires
        -1 <= j < k <= program.len(),
        j >= 0 ==> writes(program, j) && done(program, state, j),
        forall|i: int| j < i < k && writes(program, i) ==> !#[trigger] done(program, state, i),
    ensures
        last_done_write(program, state, k) == j,
    decreases k,
{
    if k > 0 && j < k - 1 {
        assert(!(writes(program, k - 1) && done(program, state, k - 1)));
        lemma_last_done_write_is(program, state, k - 1, j);
    }
}

proof fn lemma_last_done_write_same(program: Seq<Op>, one: SystemState, other: SystemState, k: int)
    requires
        0 <= k <= program.len(),
        forall|j: int|
            0 <= j < k && writes(program, j) ==> (#[trigger] done(program, one, j) == done(
                program,
                other,
                j,
            )),
    ensures
        last_done_write(program, one, k) == last_done_write(program, other, k),
    decreases k,
{
    if k > 0 {
        if writes(program, k - 1) {
            assert(done(program, one, k - 1) == done(program, other, k - 1));
        }
        lemma_last_done_write_same(program, one, other, k - 1);
    }
}

proof fn lemma_reads_in_bound(program: Seq<Op>, lo: int, hi: int)
    requires
        lo <= hi,
    ensures
        reads_in(program, lo, hi) <= hi - lo,
    decreases hi - lo,
{
    if lo < hi {
        lemma_reads_in_bound(program, lo, hi - 1);
    }
}

proof fn lemma_done_reads_bound(program: Seq<Op>, state: SystemState, lo: int, hi: int)
    requires
        lo <= hi,
    ensures
        done_reads(program, state, lo, hi) <= reads_in(program, lo, hi) <= hi - lo,
    decreases hi - lo,
{
    if lo < hi {
        lemma_done_reads_bound(program, state, lo, hi - 1);
    }
}

proof fn lemma_done_reads_split(program: Seq<Op>, state: SystemState, lo: int, mid: int, hi: int)
    requires
        lo <= mid <= hi,
    ensures
        done_reads(program, state, lo, hi) == done_reads(program, state, lo, mid) + done_reads(
            program,
            state,
            mid,
            hi,
        ),
    decreases hi - mid,
{
    if mid < hi {
        lemma_done_reads_split(program, state, lo, mid, hi - 1);
    }
}

proof fn lemma_done_reads_none(program: Seq<Op>, state: SystemState, lo: int, hi: int)
    requires
        forall|j: int| lo <= j < hi && reads(program, j) ==> !#[trigger] done(program, state, j),
    ensures
        done_reads(program, state, lo, hi) == 0,
    decreases hi - lo,
{
    if lo < hi {
        assert(!(reads(program, hi - 1) && done(program, state, hi - 1)));
        lemma_done_reads_none(program, state, lo, hi - 1);
    }
}

proof fn lemma_done_reads_all(program: Seq<Op>, state: SystemState, lo: int, hi: int)
    requires
        lo <= hi,
        forall|j: int| lo <= j < hi && reads(program, j) ==> #[trigger] done(program, state, j),
    ensures
        done_reads(program, state, lo, hi) == reads_in(program, lo, hi),
    decreases hi - lo,
{
    if lo < hi {
        if reads(program, hi - 1) {
            assert(done(program, state, hi - 1));
        }
        lemma_done_reads_all(program, state, lo, hi - 1);
    }
}

proof fn lemma_done_reads_full(program: Seq<Op>, state: SystemState, lo: int, hi: int)
    requires
        lo <= hi,
        done_reads(program, state, lo, hi) == reads_in(program, lo, hi),
    ensures
        forall|j: int| lo <= j < hi && reads(program, j) ==> #[trigger] done(program, state, j),
    decreases hi - lo,
{
    if lo < hi {
        lemma_done_reads_bound(program, state, lo, hi - 1);
        lemma_done_reads_full(program, state, lo, hi - 1);
    }
}

proof fn lemma_done_reads_same(
    program: Seq<Op>,
    one: SystemState,
    other: SystemState,
    lo: int,
    hi: int,
)
    requires
        forall|j: int|
            lo <= j < hi && reads(program, j) ==> (#[trigger] done(program, one, j) == done(
                program,
                other,
                j,
            )),
    ensures
        done_reads(program, one, lo, hi) == done_reads(program, other, lo, hi),
    decreases hi - lo,
{
    if lo < hi {
        if reads(program, hi - 1) {
            assert(done(program, one, hi - 1) == done(program, other, hi - 1));
        }
        lemma_done_reads_same(program, one, other, lo, hi - 1);
    }
}

proof fn lemma_done_reads_one_more(
    program: Seq<Op>,
    before: SystemState,
    after: SystemState,
    lo: int,
    hi: int,
    i: int,
)
    requires
        lo <= i < hi,
        reads(program, i),
        !done(program, before, i),
        done(program, after, i),
        forall|j: int|
            lo <= j < hi && j != i ==> (#[trigger] done(program, before, j) == done(
                program,
                after,
                j,
            )),
    ensures
        done_reads(program, after, lo, hi) == done_reads(program, before, lo, hi) + 1,
{
    lemma_done_reads_split(program, before, lo, i, hi);
    lemma_done_reads_split(program, after, lo, i, hi);
    lemma_done_reads_split(program, before, i, i + 1, hi);
    lemma_done_reads_split(program, after, i, i + 1, hi);
    lemma_done_reads_same(program, before, after, lo, i);
    lemma_done_reads_same(program, before, after, i + 1, hi);
    assert(done_reads(program, before, i, i + 1) == 0) by {
        assert(done_reads(program, before, i, i) == 0);
    }
    assert(done_reads(program, after, i, i + 1) == 1) by {
        assert(done_reads(program, after, i, i) == 0);
    }
}

/// Whether every task carried out in `before` is carried out in `after`.
spec fn grows(program: Seq<Op>, before: SystemState, after: SystemState) -> bool {
    forall|j: int|
        0 <= j < program.len() && done(program, before, j) ==> #[trigger] done(program, after, j)
}

proof fn lemma_waited_for_grows(program: Seq<Op>, before: SystemState, after: SystemState, k: int)
    requires
        0 <= k <= program.len(),
        grows(program, before, after),
    ensures
        writes_done_before(program, before, k) ==> writes_done_before(program, after, k),
        all_done_before(program, before, k) ==> all_done_before(program, after, k),
        k < program.len() && waited_for(program, before, k) ==> waited_for(program, after, k),
{
    if writes_done_before(program, before, k) {
        assert forall|j: int| 0 <= j < k && writes(program, j) implies #[trigger] done(
            program,
            after,
            j,
        ) by {
            assert(done(program, before, j));
        }
    }
    if all_done_before(program, before, k) {
        assert forall|j: int| 0 <= j < k && program[j].access is Some implies #[trigger] done(
            program,
            after,
            j,
        ) by {
            assert(done(program, before, j));
        }
    }
}

proof fn lemma_other_worker(program: Seq<Op>, before: SystemState, after: SystemState, v: int)
    requires
        worker_consistent(program, before, v),
        after.workers[v] == before.workers[v],
        grows(program, before, after),
    ensures
        worker_consistent(program, after, v),
{
    lemma_waited_for_grows(program, before, after, before.workers[v].next as int);
}

proof fn lemma_ordered_grows(program: Seq<Op>, before: SystemState, after: SystemState, i: int)
    requires
        ordered(program, before),
        grows(program, before, after),
        forall|j: int|
            0 <= j < program.len() && j != i ==> (#[trigger] done(program, after, j) == done(
                program,
                before,
                j,
            )),
        0 <= i < program.len() && program[i].access is Some && done(program, after, i)
            ==> waited_for(program, after, i),
    ensures
        ordered(program, after),
{
    assert forall|j: int|
        0 <= j < program.len() && program[j].access is Some && #[trigger] done(
            program,
            after,
            j,
        ) implies waited_for(program, after, j) by {
        if j != i {
            assert(done(program, before, j));
            lemma_waited_for_grows(program, before, after, j);
        }
    }
}

proof fn lemma_tracks_next(program: Seq<Op>, k: int, local: DataLocalState, ownership: TaskOwnership)
    requires
        program.len() < usize::MAX,
        0 <= k < program.len(),
        tracks(program, k, local),
    ensures
        tracks(program, k + 1, local_after(local, program, k, ownership)),
{
    lemma_last_write(program, k);
    lemma_reads_in_bound(program, last_write(program, k) + 1, k);
    assert(last_write(program, k + 1) == if writes(program, k) {
        k
    } else {
        last_write(program, k)
    });
    if writes(program, k) {
        assert(reads_in(program, k + 1, k + 1) == 0);
    }
}

/// A worker whose record agrees with the shared record on the last write has
/// no write left to wait for.
proof fn lemma_writes_are_done(program: Seq<Op>, nb_workers: nat, state: SystemState, w: int)
    requires
        valid_program(program, nb_workers),
        consistent(program, nb_workers, state),
        0 <= w < nb_workers,
        state.workers[w].local.spec_read_is_ready(state.shared),
    ensures
        last_done_write(program, state, program.len() as int) == last_write(
            program,
            state.workers[w].next as int,
        ),
        forall|j: int|
            0 <= j <= last_write(program, state.workers[w].next as int) && program[j].access is Some
                ==> #[trigger] done(program, state, j),
        writes_done_before(program, state, state.workers[w].next as int),
{
    let me = state.workers[w];
    let i = me.next as int;
    let len = program.len() as int;
    assert(worker_consistent(program, state, w));
    lemma_last_write(program, i);
    lemma_last_done_write(program, state, len);
    let lw = last_write(program, i);
    let last = last_done_write(program, state, len);
    assert(lw == last);
    if lw >= 0 {
        assert(done(program, state, lw));
        assert(waited_for(program, state, lw));
        assert(all_done_before(program, state, lw));
    }
    assert forall|j: int| 0 <= j < i && writes(program, j) implies #[trigger] done(
        program,
        state,
        j,
    ) by {
        if j > lw {
            assert(!writes(program, j));
        }
    }
}

/// A worker whose record agrees with the shared record on the last write and
/// on the reads since has nothing left to wait for.
proof fn lemma_all_are_done(program: Seq<Op>, nb_workers: nat, state: SystemState, w: int)
    requires
        valid_program(program, nb_workers),
        consistent(program, nb_workers, state),
        0 <= w < nb_workers,
        state.workers[w].next < program.len(),
        owner_of(program, state.workers[w].next as int) == w,
        writes(program, state.workers[w].next as int),
        state.workers[w].local.spec_write_is_ready(state.shared),
    ensures
        all_done_before(program, state, state.workers[w].next as int),
{
    let me = state.workers[w];
    let i = me.next as int;
    let len = program.len() as int;
    assert(worker_consistent(program, state, w));
    lemma_writes_are_done(program, nb_workers, state, w);
    lemma_last_write(program, i);
    let lw = last_write(program, i);
    assert(!done(program, state, i));
    assert forall|j: int| i <= j < len && reads(program, j) implies !#[trigger] done(
        program,
        state,
        j,
    ) by {
        if done(program, state, j) {
            assert(waited_for(program, state, j));
            assert(writes_done_before(program, state, j));
            assert(done(program, state, i));
        }
    }
    lemma_done_reads_none(program, state, i, len);
    lemma_done_reads_split(program, state, lw + 1, i, len);
    lemma_done_reads_full(program, state, lw + 1, i);
    assert forall|j: int| 0 <= j < i && program[j].access is Some implies #[trigger] done(
        program,
        state,
        j,
    ) by {
        if j > lw {
            assert(!writes(program, j));
            match program[j].access {
                Some(Access::Read) => {},
                Some(Access::Write) => {},
                None => {},
            }
        }
    }
}

/// What a step that leaves the tasks carried out as they were keeps.
proof fn lemma_same_done(program: Seq<Op>, nb_workers: nat, before: SystemState, after: SystemState)
    requires
        valid_program(program, nb_workers),
        consistent(program, nb_workers, before),
        after.shared.last_executed_write == before.shared.last_executed_write,
        after.shared.nb_reads_since_write == before.shared.nb_reads_since_write,
        forall|j: int|
            0 <= j < program.len() ==> (#[trigger] done(program, after, j) == done(
                program,
                before,
                j,
            )),
    ensures
        grows(program, before, after),
        shared_consistent(program, after),
        ordered(program, after),
{
    let len = program.len() as int;
    lemma_last_done_write_same(program, before, after, len);
    let last = last_done_write(program, before, len);
    lemma_last_done_write(program, before, len);
    lemma_done_reads_same(program, before, after, last + 1, len);
    lemma_ordered_grows(program, before, after, -1);
}

proof fn lemma_pass(
    program: Seq<Op>,
    nb_workers: nat,
    before: SystemState,
    after: SystemState,
    w: int,
)
    requires
        valid_program(program, nb_workers),
        consistent(program, nb_workers, before),
        step(program, before, after, w, Step::Declare) || step(
            program,
            before,
            after,
            w,
            Step::Skip,
        ),
    ensures
        consistent(program, nb_workers, after),
{
    let me = before.workers[w];
    let i = me.next as int;
    let len = program.len() as int;
    assert(worker_consistent(program, before, w));
    assert forall|j: int| 0 <= j < len && j != i implies #[trigger] done(program, after, j)
        == done(program, before, j) by {
        assert(program[j].owner.thread_id < nb_workers);
    }
    // A worker passes a task of its own only if the task does not touch the
    // data.
    assert(program[i].owner.thread_id < nb_workers);
    assert(program[i].access is Some ==> owner_of(program, i) != w);
    lemma_same_done_but(program, nb_workers, before, after, i);
    assert forall|v: int| 0 <= v < nb_workers implies #[trigger] worker_consistent(
        program,
        after,
        v,
    ) by {
        assert(worker_consistent(program, before, v));
        if v != w {
            lemma_other_worker(program, before, after, v);
        } else {
            let ownership = TaskOwnership::NotOwner;
            lemma_tracks_next(program, i, me.local, ownership);
            let mine = after.workers[w];
            assert(mine.local == local_after(me.local, program, i, ownership));
            if !mine.local.dirty {
                assert(!writes(program, i));
                assert(!me.local.dirty);
                lemma_waited_for_grows(program, before, after, i);
                assert forall|j: int| 0 <= j < i + 1 && writes(program, j) implies #[trigger] done(
                    program,
                    after,
                    j,
                ) by {}
            }
        }
    }
}

/// What a step keeps that changes nothing to the tasks carried out, but for
/// a task at `i` that does not touch the data.
proof fn lemma_same_done_but(
    program: Seq<Op>,
    nb_workers: nat,
    before: SystemState,
    after: SystemState,
    i: int,
)
    requires
        valid_program(program, nb_workers),
        consistent(program, nb_workers, before),
        after.shared.last_executed_write == before.shared.last_executed_write,
        after.shared.nb_reads_since_write == before.shared.nb_reads_since_write,
        forall|j: int|
            0 <= j < program.len() && j != i ==> (#[trigger] done(program, after, j) == done(
                program,
                before,
                j,
            )),
        0 <= i < program.len() && program[i].access is Some ==> done(program, after, i) == done(
            program,
            before,
            i,
        ),
        0 <= i < program.len() ==> (done(program, before, i) ==> done(program, after, i)),
    ensures
        grows(program, before, after),
        shared_consistent(program, after),
        ordered(program, after),
{
    let len = program.len() as int;
    assert forall|j: int| 0 <= j < len && writes(program, j) implies (#[trigger] done(
        program,
        after,
        j,
    ) == done(program, before, j)) by {}
    assert forall|j: int| 0 <= j < len && reads(program, j) implies (#[trigger] done(
        program,
        after,
        j,
    ) == done(program, before, j)) by {}
    lemma_last_done_write_same(program, before, after, len);
    let last = last_done_write(program, before, len);
    lemma_last_done_write(program, before, len);
    lemma_done_reads_same(program, after, before, last + 1, len);
    lemma_ordered_grows(program, before, after, i);
}

proof fn lemma_acquire(
    program: Seq<Op>,
    nb_workers: nat,
    before: SystemState,
    after: SystemState,
    w: int,
)
    requires
        valid_program(program, nb_workers),
        consistent(program, nb_workers, before),
        step(program, before, after, w, Step::Acquire),
    ensures
        consistent(program, nb_workers, after),
{
    let me = before.workers[w];
    let i = me.next as int;
    let len = program.len() as int;
    assert forall|j: int| 0 <= j < len implies #[trigger] done(program, after, j) == done(
        program,
        before,
        j,
    ) by {
        assert(program[j].owner.thread_id < nb_workers);
    }
    lemma_same_done(program, nb_workers, before, after);
    assert(worker_consistent(program, before, w));
    match program[i].access {
        Some(Access::Read) => {
            if me.local.dirty {
                lemma_writes_are_done(program, nb_workers, before, w);
            }
        },
        Some(Access::Write) => {
            lemma_all_are_done(program, nb_workers, before, w);
        },
        None => {},
    }
    assert(waited_for(program, before, i));
    lemma_waited_for_grows(program, before, after, i);
    assert forall|v: int| 0 <= v < nb_workers implies #[trigger] worker_consistent(
        program,
        after,
        v,
    ) by {
        assert(worker_consistent(program, before, v));
        if v != w {
            lemma_other_worker(program, before, after, v);
        }
    }
}

proof fn lemma_waiters(program: Seq<Op>, nb_workers: nat, before: SystemState, after: SystemState)
    requires
        valid_program(program, nb_workers),
        consistent(program, nb_workers, before),
        after.workers == before.workers,
        after.shared.last_executed_write == before.shared.last_executed_write,
        after.shared.nb_reads_since_write == before.shared.nb_reads_since_write,
    ensures
        consistent(program, nb_workers, after),
{
    assert forall|j: int| 0 <= j < program.len() implies #[trigger] done(program, after, j)
        == done(program, before, j) by {}
    lemma_same_done(program, nb_workers, before, after);
    assert forall|v: int| 0 <= v < nb_workers implies #[trigger] worker_consistent(
        program,
        after,
        v,
    ) by {
        assert(worker_consistent(program, before, v));
        lemma_other_worker(program, before, after, v);
    }
}

proof fn lemma_release(
    program: Seq<Op>,
    nb_workers: nat,
    before: SystemState,
    after: SystemState,
    w: int,
)
    requires
        valid_program(program, nb_workers),
        consistent(program, nb_workers, before),
        step(program, before, after, w, Step::Release),
    ensures
        consistent(program, nb_workers, after),
{
    let me = before.workers[w];
    let i = me.next as int;
    let len = program.len() as int;
    assert(worker_consistent(program, before, w));
    assert(waited_for(program, before, i));
    assert(!done(program, before, i));
    assert(done(program, after, i));
    assert forall|j: int| 0 <= j < len && j != i implies #[trigger] done(program, after, j)
        == done(program, before, j) by {
        assert(program[j].owner.thread_id < nb_workers);
    }
    assert(grows(program, before, after));
    // What was carried out before the step was carried out in order, and
    // the task released by the step is not among it.
    assert forall|j: int| i < j < len && writes(program, j) implies !#[trigger] done(
        program,
        before,
        j,
    ) by {
        if done(program, before, j) {
            assert(waited_for(program, before, j));
            assert(all_done_before(program, before, j));
            assert(done(program, before, i));
        }
    }
    lemma_waited_for_grows(program, before, after, i);
    lemma_ordered_grows(program, before, after, i);
    let last = last_done_write(program, before, len);
    lemma_last_done_write(program, before, len);
    assert(shared_consistent(program, after)) by {
        if writes(program, i) {
            assert forall|j: int| i < j < len && writes(program, j) implies !#[trigger] done(
                program,
                after,
                j,
            ) by {
                assert(!done(program, before, j));
            }
            lemma_last_done_write_is(program, after, len, i);
            assert forall|j: int| i + 1 <= j < len && reads(program, j) implies !#[trigger] done(
                program,
                after,
                j,
            ) by {
                if done(program, after, j) {
                    assert(done(program, before, j));
                    assert(waited_for(program, before, j));
                    assert(writes_done_before(program, before, j));
                    assert(done(program, before, i));
                }
            }
            lemma_done_reads_none(program, after, i + 1, len);
        } else {
            assert(reads(program, i));
            assert forall|j: int| 0 <= j < len && writes(program, j) implies (#[trigger] done(
                program,
                before,
                j,
            ) == done(program, after, j)) by {}
            lemma_last_done_write_same(program, before, after, len);
            if last > i {
                assert(waited_for(program, before, last));
                assert(all_done_before(program, before, last));
                assert(done(program, before, i));
            }
            lemma_done_reads_one_more(program, before, after, last + 1, len, i);
            lemma_done_reads_bound(program, before, last + 1, len);
        }
    }
    assert forall|v: int| 0 <= v < nb_workers implies #[trigger] worker_consistent(
        program,
        after,
        v,
    ) by {
        assert(worker_consistent(program, before, v));
        if v != w {
            lemma_other_worker(program, before, after, v);
        } else {
            lemma_tracks_next(program, i, me.local, TaskOwnership::Owner);
            assert forall|j: int| 0 <= j < i + 1 && writes(program, j) implies #[trigger] done(
                program,
                after,
                j,
            ) by {
                if j < i {
                    assert(done(program, before, j));
                }
            }
        }
    }
}

/// The initial state is where the protocol wants it.
pub proof fn lemma_initial(program: Seq<Op>, nb_workers: nat)
    requires
        valid_program(program, nb_workers),
    ensures
        consistent(program, nb_workers, initial(nb_workers)),
{
    let state = initial(nb_workers);
    let len = program.len() as int;
    assert forall|j: int| 0 <= j < len implies !#[trigger] done(program, state, j) by {
        assert(program[j].owner.thread_id < nb_workers);
    }
    lemma_last_done_write_is(program, state, len, -1);
    lemma_done_reads_none(program, state, 0, len);
    assert forall|w: int| 0 <= w < nb_workers implies #[trigger] worker_consistent(
        program,
        state,
        w,
    ) by {
        assert(reads_in(program, 0, 0) == 0);
    }
}

/// Every step keeps the state where the protocol wants it.
pub proof fn lemma_step_consistent(
    program: Seq<Op>,
    nb_workers: nat,
    before: SystemState,
    after: SystemState,
    w: int,
    kind: Step,
)
    requires
        valid_program(program, nb_workers),
        consistent(program, nb_workers, before),
        step(program, before, after, w, kind),
    ensures
        consistent(program, nb_workers, after),
{
    match kind {
        Step::Declare => lemma_pass(program, nb_workers, before, after, w),
        Step::Skip => lemma_pass(program, nb_workers, before, after, w),
        Step::Acquire => lemma_acquire(program, nb_workers, before, after, w),
        Step::Release => lemma_release(program, nb_workers, before, after, w),
        Step::Park => lemma_waiters(program, nb_workers, before, after),
        Step::Unpark => lemma_waiters(program, nb_workers, before, after),
    }
}

/// Every state of every run is where the protocol wants it.
pub proof fn lemma_execution_consistent(
    program: Seq<Op>,
    nb_workers: nat,
    states: Seq<SystemState>,
    t: int,
)
    requires
        valid_program(program, nb_workers),
        execution(program, nb_workers, states),
        0 <= t < states.len(),
    ensures
        consistent(program, nb_workers, states[t]),
    decreases t,
{
    if t == 0 {
        lemma_initial(program, nb_workers);
    } else {
        lemma_execution_consistent(program, nb_workers, states, t - 1);
        assert(follows(program, states[t - 1], states[t]));
        let (w, kind) = choose|w: int, kind: Step| #[trigger]
            step(program, states[t - 1], states[t], w, kind);
        lemma_step_consistent(program, nb_workers, states[t - 1], states[t], w, kind);
    }
}

/// Whether the worker `w` holds a handle for an access of the given kind.
pub open spec fn holds(program: Seq<Op>, state: SystemState, w: int, access: Access) -> bool {
    &&& 0 <= w < state.workers.len()
    &&& state.workers[w].holding
    &&& program[state.workers[w].next as int].access == Some(access)
}

/// In every state of every run, a worker that holds a read handle on the data
/// holds it after every earlier write was carried out: what it reads is no
/// older than any write that precedes its task.
pub proof fn lemma_read_after_write(
    program: Seq<Op>,
    nb_workers: nat,
    states: Seq<SystemState>,
    t: int,
    w: int,
)
    requires
        valid_program(program, nb_workers),
        execution(program, nb_workers, states),
        0 <= t < states.len(),
        holds(program, states[t], w, Access::Read),
    ensures
        writes_done_before(program, states[t], states[t].workers[w].next as int),
{
    lemma_execution_consistent(program, nb_workers, states, t);
    assert(worker_consistent(program, states[t], w));
}

/// In every state of every run, a worker that holds a write handle on the
/// data holds it after every earlier task on the data, read or write, was
/// carried out.
pub proof fn lemma_write_after_all(
    program: Seq<Op>,
    nb_workers: nat,
    states: Seq<SystemState>,
    t: int,
    w: int,
)
    requires
        valid_program(program, nb_workers),
        execution(program, nb_workers, states),
        0 <= t < states.len(),
        holds(program, states[t], w, Access::Write),
    ensures
        all_done_before(program, states[t], states[t].workers[w].next as int),
{
    lemma_execution_consistent(program, nb_workers, states, t);
    assert(worker_consistent(program, states[t], w));
}

/// In every state of every run, the tasks carried out so far were carried
/// out in an order that respects the order of their identifiers: a write
/// after all the tasks on the data before it, a read after all the writes
/// before it.
pub proof fn lemma_linearized(
    program: Seq<Op>,
    nb_workers: nat,
    states: Seq<SystemState>,
    t: int,
)
    requires
        valid_program(program, nb_workers),
        execution(program, nb_workers, states),
        0 <= t < states.len(),
    ensures
        ordered(program, states[t]),
{
    lemma_execution_consistent(program, nb_workers, states, t);
}

/// In a state where the protocol wants it, while a worker holds a write
/// handle on the data no other worker holds any handle on it.
pub proof fn lemma_writer_is_alone_in(
    program: Seq<Op>,
    nb_workers: nat,
    state: SystemState,
    w: int,
    v: int,
)
    requires
        valid_program(program, nb_workers),
        consistent(program, nb_workers, state),
        holds(program, state, w, Access::Write),
        0 <= v < nb_workers,
        v != w,
    ensures
        !state.workers[v].holding,
{
    assert(worker_consistent(program, state, w));
    assert(worker_consistent(program, state, v));
    let i = state.workers[w].next as int;
    let k = state.workers[v].next as int;
    if state.workers[v].holding {
        assert(!done(program, state, i));
        assert(!done(program, state, k));
        assert(program[k].access is Some);
        if k < i {
            assert(done(program, state, k));
        } else {
            assert(i < k);
            assert(writes(program, i));
            assert(done(program, state, i));
        }
    }
}

/// In every state of every run, while a worker holds a write handle on the
/// data no other worker holds any handle on it.
pub proof fn lemma_writer_is_alone(
    program: Seq<Op>,
    nb_workers: nat,
    states: Seq<SystemState>,
    t: int,
    w: int,
    v: int,
)
    requires
        valid_program(program, nb_workers),
        execution(program, nb_workers, states),
        0 <= t < states.len(),
        holds(program, states[t], w, Access::Write),
        0 <= v < nb_workers,
        v != w,
    ensures
        !states[t].workers[v].holding,
{
    lemma_execution_consistent(program, nb_workers, states, t);
    lemma_writer_is_alone_in(program, nb_workers, states[t], w, v);
}

/// Whether the worker `w` can take a step that brings the computation
/// forward.
pub open spec fn can_move(program: Seq<Op>, state: SystemState, w: int) -> bool {
    let me = state.workers[w];
    &&& 0 <= w < state.workers.len()
    &&& me.next < program.len()
    &&& (owner_of(program, me.next as int) == w && !me.holding
        ==> match program[me.next as int].access {
        None => true,
        Some(access) => granted(me.local, access, state.shared),
    })
}

/// The first task from `from` on that was not carried out, or the length of
/// the program if there is none.
pub open spec fn first_pending(program: Seq<Op>, state: SystemState, from: int) -> int
    decreases program.len() - from,
{
    if from >= program.len() {
        program.len() as int
    } else if !done(program, state, from) {
        from
    } else {
        first_pending(program, state, from + 1)
    }
}

/// Every task between `from` and the first pending one was carried out, and
/// the first pending one was not.
pub proof fn lemma_first_pending(program: Seq<Op>, state: SystemState, from: int)
    requires
        0 <= from <= program.len(),
    ensures
        from <= first_pending(program, state, from) <= program.len(),
        first_pending(program, state, from) < program.len() ==> !done(
            program,
            state,
            first_pending(program, state, from),
        ),
        forall|j: int|
            from <= j < first_pending(program, state, from) ==> #[trigger] done(program, state, j),
    decreases program.len() - from,
{
    if from < program.len() && done(program, state, from) {
        lemma_first_pending(program, state, from + 1);
    }
}

/// The owner of a task that comes after tasks on the data that were all
/// carried out is granted access to the data: it has nothing left to wait
/// for.
pub proof fn lemma_first_is_granted(program: Seq<Op>, nb_workers: nat, state: SystemState, w: int)
    requires
        valid_program(program, nb_workers),
        consistent(program, nb_workers, state),
        0 <= w < nb_workers,
        state.workers[w].next < program.len(),
        owner_of(program, state.workers[w].next as int) == w,
        all_done_before(program, state, state.workers[w].next as int),
    ensures
        program[state.workers[w].next as int].access matches Some(access) ==> granted(
            state.workers[w].local,
            access,
            state.shared,
        ),
{
    let me = state.workers[w];
    let i = me.next as int;
    let len = program.len() as int;
    assert(worker_consistent(program, state, w));
    assert(!done(program, state, i));
    lemma_last_write(program, i);
    let lw = last_write(program, i);
    if lw >= 0 {
        assert(done(program, state, lw));
    }
    if writes(program, i) {
        assert forall|j: int| lw < j < len && writes(program, j) implies !#[trigger] done(
            program,
            state,
            j,
        ) by {
            if j < i {
                assert(!writes(program, j));
            }
        }
        lemma_last_done_write_is(program, state, len, lw);
        assert forall|j: int| i <= j < len && reads(program, j) implies !#[trigger] done(
            program,
            state,
            j,
        ) by {
            if done(program, state, j) {
                assert(waited_for(program, state, j));
                assert(writes_done_before(program, state, j));
                assert(done(program, state, i));
            }
        }
        lemma_done_reads_none(program, state, i, len);
        lemma_done_reads_split(program, state, lw + 1, i, len);
        assert forall|j: int| lw + 1 <= j < i && reads(program, j) implies #[trigger] done(
            program,
            state,
            j,
        ) by {}
        lemma_done_reads_all(program, state, lw + 1, i);
    } else if reads(program, i) {
        if me.local.dirty {
            // A later write that was carried out would have waited for this
            // read: the last write carried out is the last write before it.
            assert forall|j: int| lw < j < len && writes(program, j) implies !#[trigger] done(
                program,
                state,
                j,
            ) by {
                if j < i {
                    assert(!writes(program, j));
                } else if done(program, state, j) {
                    assert(waited_for(program, state, j));
                    assert(all_done_before(program, state, j));
                    assert(done(program, state, i));
                }
            }
            lemma_last_done_write_is(program, state, len, lw);
        }
    }
}

/// The step that brings the worker `w` forward: it passes its next task if
/// the task does not touch the data, declares it if the task belongs to
/// another worker, is granted access if the task is its own, and releases
/// the data if it holds it.
pub open spec fn forward_step(program: Seq<Op>, state: SystemState, w: int) -> Step {
    let me = state.workers[w];
    if program[me.next as int].access is None {
        Step::Skip
    } else if owner_of(program, me.next as int) != w {
        Step::Declare
    } else if me.holding {
        Step::Release
    } else {
        Step::Acquire
    }
}

/// The state that `forward_step` leads to.
pub open spec fn moved(program: Seq<Op>, state: SystemState, w: int) -> SystemState {
    let me = state.workers[w];
    let i = me.next as int;
    match forward_step(program, state, w) {
        Step::Skip => SystemState {
            workers: state.workers.update(w, WorkerState { next: me.next + 1, ..me }),
            shared: state.shared,
        },
        Step::Declare => SystemState {
            workers: state.workers.update(
                w,
                WorkerState {
                    next: me.next + 1,
                    holding: false,
                    local: local_after(me.local, program, i, TaskOwnership::NotOwner),
                },
            ),
            shared: state.shared,
        },
        Step::Release => SystemState {
            workers: state.workers.update(
                w,
                WorkerState {
                    next: me.next + 1,
                    holding: false,
                    local: local_after(me.local, program, i, TaskOwnership::Owner),
                },
            ),
            shared: shared_after(state.shared, program, i),
        },
        _ => SystemState {
            workers: state.workers.update(w, WorkerState { holding: true, ..me }),
            shared: state.shared,
        },
    }
}

/// In every state of every run in which some worker is not through with the
/// program, some worker can take a step that brings the computation forward:
/// pass or declare a task, be granted access for a task of its own, or
/// release the data. As far as one piece of data goes, the workers never all
/// wait for each other.
pub proof fn lemma_no_deadlock(
    program: Seq<Op>,
    nb_workers: nat,
    states: Seq<SystemState>,
    t: int,
    w: int,
)
    requires
        valid_program(program, nb_workers),
        execution(program, nb_workers, states),
        0 <= t < states.len(),
        0 <= w < nb_workers,
        states[t].workers[w].next < program.len(),
    ensures
        exists|v: int|
            {
                &&& #[trigger] can_move(program, states[t], v)
                &&& step(
                    program,
                    states[t],
                    moved(program, states[t], v),
                    v,
                    forward_step(program, states[t], v),
                )
            },
{
    let state = states[t];
    let len = program.len() as int;
    lemma_execution_consistent(program, nb_workers, states, t);
    let i = state.workers[w].next as int;
    assert(worker_consistent(program, state, w));
    if owner_of(program, i) != w || program[i].access is None {
        assert(can_move(program, state, w));
        assert(step(program, state, moved(program, state, w), w, forward_step(program, state, w)));
    } else {
        assert(!done(program, state, i));
        lemma_first_pending(program, state, 0);
        let m = first_pending(program, state, 0);
        if m >= len {
            assert(done(program, state, i));
        }
        assert(program[m].owner.thread_id < nb_workers);
        let v = owner_of(program, m);
        let k = state.workers[v].next as int;
        assert(k <= m);
        assert(worker_consistent(program, state, v));
        if k < m {
            assert(done(program, state, k));
            assert(owner_of(program, k) != v);
            assert(can_move(program, state, v));
            assert(step(
                program,
                state,
                moved(program, state, v),
                v,
                forward_step(program, state, v),
            ));
        } else {
            assert forall|j: int| 0 <= j < k && program[j].access is Some implies #[trigger] done(
                program,
                state,
                j,
            ) by {}
            lemma_first_is_granted(program, nb_workers, state, v);
            assert(can_move(program, state, v));
            assert(step(
                program,
                state,
                moved(program, state, v),
                v,
                forward_step(program, state, v),
            ));
        }
    }
}

} // verus!
