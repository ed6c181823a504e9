//! The computation as a whole, over all its data at once.
//!
//! A task names the worker that owns it and the pieces of data that it reads
//! and writes. Every worker goes through the tasks in the same order: it
//! passes the tasks of the other workers, declaring their accesses in its
//! own records; for a task of its own it acquires the pieces of data one
//! after the other, waiting for each of them, and releases them all when the
//! task is over. Seen from any one piece of data, such a computation is a
//! run of the protocol of that piece of data, so that the accesses to every
//! piece of data are ordered; and the workers never all wait for each
//! other.

use vstd::prelude::*;

use crate::protocol::consistent;
use crate::protocol::done;
use crate::protocol::first_pending;
use crate::protocol::granted;
use crate::protocol::holds;
use crate::protocol::initial;
use crate::protocol::lemma_first_is_granted;
use crate::protocol::lemma_first_pending;
use crate::protocol::lemma_initial;
use crate::protocol::lemma_step_consistent;
use crate::protocol::lemma_writer_is_alone_in;
use crate::protocol::local_after;
use crate::protocol::shared_after;
use crate::protocol::step;
use crate::protocol::valid_program;
use crate::protocol::waited_for;
use crate::protocol::worker_consistent;
use crate::protocol::Op;
use crate::protocol::Step;
use crate::protocol::SystemState;
use crate::protocol::WorkerState;
use crate::record::Access;
use crate::record::DataLocalState;
use crate::record::DataLockedState;
use crate::runtime::ExecutorId;
use crate::runtime::TaskOwnership;

verus! {

/// A task of the computation. The task at `j` in the list of tasks is the
/// one that every worker identifies by `j + 1`.
pub struct Task {
    /// The worker that the mapping names for the task.
    pub owner: ExecutorId,
    /// What the task does to the pieces of data that it touches. Pieces of
    /// data are known by a number.
    pub accesses: Map<nat, Access>,
}

/// Where one worker stands in the computation.
pub struct Progress {
    /// The number of tasks that the worker is through with.
    pub next: nat,
    /// The pieces of data that the worker holds, for its next task.
    pub acquired: Set<nat>,
}

/// The records of one piece of data.
pub struct Records {
    /// The record of each worker, by thread identifier.
    pub locals: Seq<DataLocalState>,
    /// The shared record.
    pub shared: DataLockedState,
}

/// Where the computation stands.
pub struct Computation {
    /// The workers, by thread identifier.
    pub workers: Seq<Progress>,
    /// The records of each piece of data.
    pub records: spec_fn(nat) -> Records,
}

/// What a worker may do next.
pub enum Move {
    /// Pass a task of another worker, declaring its accesses.
    Pass,
    /// Be granted access to a piece of data, for a task of its own.
    Acquire(nat),
    /// End a task of its own, releasing all its data.
    Finish,
    /// Start waiting for a piece of data.
    Park(nat),
    /// Stop waiting for a piece of data.
    Unpark(nat),
}

/// The tasks, as far as the piece of data `d` is concerned.
pub open spec fn program_on(tasks: Seq<Task>, d: nat) -> Seq<Op> {
    Seq::new(
        tasks.len(),
        |j: int|
            Op {
                owner: tasks[j].owner,
                access: if tasks[j].accesses.contains_key(d) {
                    Some(tasks[j].accesses[d])
                } else {
                    None
                },
            },
    )
}

/// The computation, as far as the piece of data `d` is concerned.
pub open spec fn view_on(state: Computation, d: nat) -> SystemState {
    SystemState {
        workers: Seq::new(
            state.workers.len(),
            |w: int|
                WorkerState {
                    next: state.workers[w].next,
                    holding: state.workers[w].acquired.contains(d),
                    local: (state.records)(d).locals[w],
                },
        ),
        shared: (state.records)(d).shared,
    }
}

/// The tasks of a computation on `nb_workers` workers: every task is mapped
/// to one of the workers, and there are few enough tasks to count them.
pub open spec fn valid_tasks(tasks: Seq<Task>, nb_workers: nat) -> bool {
    &&& tasks.len() < usize::MAX
    &&& forall|j: int| 0 <= j < tasks.len() ==> (#[trigger] tasks[j]).owner.thread_id < nb_workers
}

/// The computation before any worker has done anything.
pub open spec fn start(nb_workers: nat) -> Computation {
    Computation {
        workers: Seq::new(nb_workers, |w: int| Progress { next: 0, acquired: Set::empty() }),
        records: |d: nat|
            Records {
                locals: Seq::new(nb_workers, |w: int| DataLocalState::fresh()),
                shared: DataLockedState::fresh(),
            },
    }
}

/// Whether the move `kind` of the worker `w` can be made in `state`.
pub open spec fn enabled(tasks: Seq<Task>, state: Computation, w: int, kind: Move) -> bool {
    let me = state.workers[w];
    let task = tasks[me.next as int];
    &&& 0 <= w < state.workers.len()
    &&& me.next < tasks.len()
    &&& match kind {
        Move::Pass => task.owner.thread_id != w,
        Move::Acquire(d) => {
            &&& task.owner.thread_id == w
            &&& task.accesses.contains_key(d)
            &&& !me.acquired.contains(d)
            &&& granted((state.records)(d).locals[w], task.accesses[d], (state.records)(d).shared)
        },
        Move::Finish => {
            &&& task.owner.thread_id == w
            &&& me.acquired == task.accesses.dom()
        },
        Move::Park(d) => {
            &&& task.owner.thread_id == w
            &&& task.accesses.contains_key(d)
            &&& !me.acquired.contains(d)
        },
        Move::Unpark(d) => {
            &&& task.owner.thread_id == w
            &&& task.accesses.contains_key(d)
            &&& !me.acquired.contains(d)
        },
    }
}

/// What the move `kind` of the worker `w` makes of the records of the piece
/// of data `d`.
pub open spec fn records_after(
    tasks: Seq<Task>,
    state: Computation,
    w: int,
    kind: Move,
    d: nat,
) -> Records {
    let me = state.workers[w];
    let i = me.next as int;
    let records = (state.records)(d);
    let program = program_on(tasks, d);
    match kind {
        Move::Pass => Records {
            locals: records.locals.update(
                w,
                local_after(records.locals[w], program, i, TaskOwnership::NotOwner),
            ),
            shared: records.shared,
        },
        Move::Acquire(_) => records,
        Move::Finish => Records {
            locals: records.locals.update(
                w,
                local_after(records.locals[w], program, i, TaskOwnership::Owner),
            ),
            shared: shared_after(records.shared, program, i),
        },
        Move::Park(waited) => if waited == d {
            Records { shared: records.shared.spec_enqueue_waiter(), ..records }
        } else {
            records
        },
        Move::Unpark(waited) => if waited == d {
            Records { shared: records.shared.spec_dequeue_waiter(), ..records }
        } else {
            records
        },
    }
}

/// Where the move `kind` leaves the worker that makes it.
pub open spec fn progress_after(me: Progress, kind: Move) -> Progress {
    match kind {
        Move::Pass => Progress { next: me.next + 1, acquired: Set::empty() },
        Move::Acquire(d) => Progress { acquired: me.acquired.insert(d), ..me },
        Move::Finish => Progress { next: me.next + 1, acquired: Set::empty() },
        Move::Park(_) => me,
        Move::Unpark(_) => me,
    }
}

/// Whether the move `kind` of the worker `w` leads from `before` to `after`.
pub open spec fn moves(
    tasks: Seq<Task>,
    before: Computation,
    after: Computation,
    w: int,
    kind: Move,
) -> bool {
    &&& enabled(tasks, before, w, kind)
    &&& after.workers == before.workers.update(w, progress_after(before.workers[w], kind))
    &&& forall|d: nat| #[trigger] (after.records)(d) == records_after(tasks, before, w, kind, d)
}

/// The state that the move `kind` of the worker `w` leads to.
pub open spec fn made(tasks: Seq<Task>, state: Computation, w: int, kind: Move) -> Computation {
    Computation {
        workers: state.workers.update(w, progress_after(state.workers[w], kind)),
        records: |d: nat| records_after(tasks, state, w, kind, d),
    }
}

/// Whether some move of some worker leads from `before` to `after`.
pub open spec fn leads_to(tasks: Seq<Task>, before: Computation, after: Computation) -> bool {
    exists|w: int, kind: Move| #[trigger] moves(tasks, before, after, w, kind)
}

/// A run of the computation: it starts from the state in which nothing was
/// done, and every state follows from the one before by a move of some
/// worker.
pub open spec fn run(tasks: Seq<Task>, nb_workers: nat, states: Seq<Computation>) -> bool {
    &&& states.len() > 0
    &&& states[0] == start(nb_workers)
    &&& forall|t: int|
        0 <= t < states.len() - 1 ==> leads_to(tasks, #[trigger] states[t], states[t + 1])
}

/// Whether the computation is sound: its records have one entry for each
/// worker, a worker holds data only for a task of its own and only data of
/// that task, and each piece of data is where its protocol wants it.
pub open spec fn sound(tasks: Seq<Task>, nb_workers: nat, state: Computation) -> bool {
    &&& state.workers.len() == nb_workers
    &&& forall|d: nat| (#[trigger] (state.records)(d)).locals.len() == nb_workers
    &&& forall|w: int, d: nat|
        0 <= w < nb_workers && #[trigger] state.workers[w].acquired.contains(d) ==> {
            &&& state.workers[w].next < tasks.len()
            &&& tasks[state.workers[w].next as int].owner.thread_id == w
            &&& tasks[state.workers[w].next as int].accesses.contains_key(d)
        }
    &&& forall|d: nat| #[trigger] consistent(program_on(tasks, d), nb_workers, view_on(state, d))
}

proof fn lemma_program_on(tasks: Seq<Task>, nb_workers: nat, d: nat)
    requires
        valid_tasks(tasks, nb_workers),
    ensures
        valid_program(program_on(tasks, d), nb_workers),
{
    let program = program_on(tasks, d);
    assert forall|j: int| 0 <= j < program.len() implies (#[trigger] program[j]).owner.thread_id
        < nb_workers by {
        assert(tasks[j].owner.thread_id < nb_workers);
    }
}

/// What a move of the worker `w` is to the piece of data `d`.
spec fn step_on(tasks: Seq<Task>, state: Computation, w: int, kind: Move, d: nat) -> Option<Step> {
    let touched = tasks[state.workers[w].next as int].accesses.contains_key(d);
    match kind {
        Move::Pass => if touched {
            Some(Step::Declare)
        } else {
            Some(Step::Skip)
        },
        Move::Acquire(acquired) => if acquired == d {
            Some(Step::Acquire)
        } else {
            None
        },
        Move::Finish => if touched {
            Some(Step::Release)
        } else {
            Some(Step::Skip)
        },
        Move::Park(waited) => if waited == d {
            Some(Step::Park)
        } else {
            None
        },
        Move::Unpark(waited) => if waited == d {
            Some(Step::Unpark)
        } else {
            None
        },
    }
}

/// A move is, to each piece of data, a step of its protocol or nothing at
/// all.
proof fn lemma_move_on(
    tasks: Seq<Task>,
    nb_workers: nat,
    before: Computation,
    after: Computation,
    w: int,
    kind: Move,
    d: nat,
)
    requires
        valid_tasks(tasks, nb_workers),
        sound(tasks, nb_workers, before),
        moves(tasks, before, after, w, kind),
    ensures
        match step_on(tasks, before, w, kind, d) {
            Some(step_kind) => step(
                program_on(tasks, d),
                view_on(before, d),
                view_on(after, d),
                w,
                step_kind,
            ),
            None => view_on(after, d) == view_on(before, d),
        },
{
    let program = program_on(tasks, d);
    let seen_before = view_on(before, d);
    let seen_after = view_on(after, d);
    let me = before.workers[w];
    let i = me.next as int;
    assert((after.records)(d) == records_after(tasks, before, w, kind, d));
    assert((before.records)(d).locals.len() == nb_workers);
    assert(tasks[i].owner.thread_id < nb_workers);
    if me.acquired.contains(d) {
        assert(before.workers[w].acquired.contains(d));
    }
    match step_on(tasks, before, w, kind, d) {
        Some(step_kind) => {
            let mine = seen_before.workers[w];
            let expected = match step_kind {
                Step::Declare => WorkerState {
                    next: mine.next + 1,
                    holding: false,
                    local: local_after(mine.local, program, i, TaskOwnership::NotOwner),
                },
                Step::Skip => WorkerState { next: mine.next + 1, ..mine },
                Step::Acquire => WorkerState { holding: true, ..mine },
                Step::Release => WorkerState {
                    next: mine.next + 1,
                    holding: false,
                    local: local_after(mine.local, program, i, TaskOwnership::Owner),
                },
                _ => mine,
            };
            assert(seen_after.workers =~= seen_before.workers.update(w, expected));
            if step_kind is Park || step_kind is Unpark {
                assert(seen_before.workers.update(w, mine) =~= seen_before.workers);
            }
        },
        None => {
            assert(seen_after.workers =~= seen_before.workers);
        },
    }
}

/// Every move keeps the computation sound.
pub proof fn lemma_move_sound(
    tasks: Seq<Task>,
    nb_workers: nat,
    before: Computation,
    after: Computation,
    w: int,
    kind: Move,
)
    requires
        valid_tasks(tasks, nb_workers),
        sound(tasks, nb_workers, before),
        moves(tasks, before, after, w, kind),
    ensures
        sound(tasks, nb_workers, after),
{
    assert forall|d: nat| (#[trigger] (after.records)(d)).locals.len() == nb_workers by {
        assert((after.records)(d) == records_after(tasks, before, w, kind, d));
        assert((before.records)(d).locals.len() == nb_workers);
    }
    assert forall|v: int, d: nat|
        0 <= v < nb_workers && #[trigger] after.workers[v].acquired.contains(d) implies {
        &&& after.workers[v].next < tasks.len()
        &&& tasks[after.workers[v].next as int].owner.thread_id == v
        &&& tasks[after.workers[v].next as int].accesses.contains_key(d)
    } by {
        if v != w || !(kind matches Move::Acquire(acquired) && acquired == d) {
            assert(before.workers[v].acquired.contains(d));
        }
    }
    assert forall|d: nat| #[trigger]
        consistent(program_on(tasks, d), nb_workers, view_on(after, d)) by {
        lemma_program_on(tasks, nb_workers, d);
        lemma_move_on(tasks, nb_workers, before, after, w, kind, d);
        assert(consistent(program_on(tasks, d), nb_workers, view_on(before, d)));
        match step_on(tasks, before, w, kind, d) {
            Some(step_kind) => {
                lemma_step_consistent(
                    program_on(tasks, d),
                    nb_workers,
                    view_on(before, d),
                    view_on(after, d),
                    w,
                    step_kind,
                );
            },
            None => {},
        }
    }
}

proof fn lemma_start_sound(tasks: Seq<Task>, nb_workers: nat)
    requires
        valid_tasks(tasks, nb_workers),
    ensures
        sound(tasks, nb_workers, start(nb_workers)),
{
    let state = start(nb_workers);
    assert forall|d: nat| #[trigger]
        consistent(program_on(tasks, d), nb_workers, view_on(state, d)) by {
        lemma_program_on(tasks, nb_workers, d);
        assert(view_on(state, d).workers =~= initial(nb_workers).workers);
        lemma_initial(program_on(tasks, d), nb_workers);
    }
}

/// Every state of every run is sound.
pub proof fn lemma_run_sound(tasks: Seq<Task>, nb_workers: nat, states: Seq<Computation>, t: int)
    requires
        valid_tasks(tasks, nb_workers),
        run(tasks, nb_workers, states),
        0 <= t < states.len(),
    ensures
        sound(tasks, nb_workers, states[t]),
    decreases t,
{
    if t == 0 {
        lemma_start_sound(tasks, nb_workers);
    } else {
        lemma_run_sound(tasks, nb_workers, states, t - 1);
        assert(leads_to(tasks, states[t - 1], states[t]));
        let (w, kind) = choose|w: int, kind: Move| #[trigger]
            moves(tasks, states[t - 1], states[t], w, kind);
        lemma_move_sound(tasks, nb_workers, states[t - 1], states[t], w, kind);
    }
}

/// Whether the worker `w` holds the piece of data `d` for an access of the
/// given kind.
pub open spec fn holds_on(
    tasks: Seq<Task>,
    state: Computation,
    w: int,
    d: nat,
    access: Access,
) -> bool {
    &&& 0 <= w < state.workers.len()
    &&& state.workers[w].acquired.contains(d)
    &&& tasks[state.workers[w].next as int].accesses[d] == access
}

/// Whether the task at `j` is over.
pub open spec fn over(tasks: Seq<Task>, state: Computation, j: int) -> bool {
    state.workers[tasks[j].owner.thread_id as int].next > j
}

proof fn lemma_over(tasks: Seq<Task>, nb_workers: nat, state: Computation, d: nat, j: int)
    requires
        valid_tasks(tasks, nb_workers),
        state.workers.len() == nb_workers,
        0 <= j < tasks.len(),
    ensures
        done(program_on(tasks, d), view_on(state, d), j) == over(tasks, state, j),
{
    assert(tasks[j].owner.thread_id < nb_workers);
}

/// In every state of every run, while a worker holds a piece of data for a
/// write no other worker holds that piece of data.
pub proof fn lemma_exclusive_writes(
    tasks: Seq<Task>,
    nb_workers: nat,
    states: Seq<Computation>,
    t: int,
    d: nat,
    w: int,
    v: int,
)
    requires
        valid_tasks(tasks, nb_workers),
        run(tasks, nb_workers, states),
        0 <= t < states.len(),
        holds_on(tasks, states[t], w, d, Access::Write),
        0 <= v < nb_workers,
        v != w,
    ensures
        !states[t].workers[v].acquired.contains(d),
{
    let state = states[t];
    lemma_run_sound(tasks, nb_workers, states, t);
    lemma_program_on(tasks, nb_workers, d);
    assert(consistent(program_on(tasks, d), nb_workers, view_on(state, d)));
    assert(state.workers[w].acquired.contains(d));
    assert(holds(program_on(tasks, d), view_on(state, d), w, Access::Write));
    lemma_writer_is_alone_in(program_on(tasks, d), nb_workers, view_on(state, d), w, v);
}

/// In every state of every run, a worker that holds a piece of data holds
/// it after the tasks that its task depends on are over: the earlier writes
/// of the piece of data if it reads it, and all the earlier tasks that touch
/// the piece of data if it writes it.
pub proof fn lemma_dependencies_are_over(
    tasks: Seq<Task>,
    nb_workers: nat,
    states: Seq<Computation>,
    t: int,
    d: nat,
    w: int,
    j: int,
)
    requires
        valid_tasks(tasks, nb_workers),
        run(tasks, nb_workers, states),
        0 <= t < states.len(),
        0 <= w < nb_workers,
        states[t].workers[w].acquired.contains(d),
        0 <= j < states[t].workers[w].next,
        tasks[j].accesses.contains_key(d),
        tasks[j].accesses[d] is Write || tasks[states[t].workers[w].next as int].accesses[d] is Write,
    ensures
        over(tasks, states[t], j),
{
    let state = states[t];
    let program = program_on(tasks, d);
    let seen = view_on(state, d);
    lemma_run_sound(tasks, nb_workers, states, t);
    assert(consistent(program, nb_workers, seen));
    assert(worker_consistent(program, seen, w));
    assert(state.workers[w].acquired.contains(d));
    let i = state.workers[w].next as int;
    assert(waited_for(program, seen, i));
    assert(done(program, seen, j));
    lemma_over(tasks, nb_workers, state, d, j);
}

/// In every state of every run in which some worker is not through with the
/// tasks, some worker can make a move that brings the computation forward:
/// pass a task of another worker, be granted access to a piece of data of a
/// task of its own, or end a task of its own. The workers never all wait for
/// each other.
pub proof fn lemma_never_stuck(
    tasks: Seq<Task>,
    nb_workers: nat,
    states: Seq<Computation>,
    t: int,
    w: int,
)
    requires
        valid_tasks(tasks, nb_workers),
        run(tasks, nb_workers, states),
        0 <= t < states.len(),
        0 <= w < nb_workers,
        states[t].workers[w].next < tasks.len(),
    ensures
        exists|v: int, kind: Move|
            {
                &&& #[trigger] moves(tasks, states[t], made(tasks, states[t], v, kind), v, kind)
                &&& kind is Pass || kind is Acquire || kind is Finish
            },
{
    let state = states[t];
    let len = tasks.len() as int;
    lemma_run_sound(tasks, nb_workers, states, t);
    assert forall|v: int, kind: Move| #[trigger] enabled(tasks, state, v, kind) implies moves(
        tasks,
        state,
        made(tasks, state, v, kind),
        v,
        kind,
    ) by {}
    let i = state.workers[w].next as int;
    if tasks[i].owner.thread_id != w {
        assert(enabled(tasks, state, w, Move::Pass));
        assert(moves(tasks, state, made(tasks, state, w, Move::Pass), w, Move::Pass));
    } else {
        // The first task that is not over: its owner has passed all the
        // tasks before it, or can pass one; and nothing that the task
        // depends on is left.
        let any: nat = 0;
        let program = program_on(tasks, any);
        let seen = view_on(state, any);
        lemma_over(tasks, nb_workers, state, any, i);
        lemma_first_pending(program, seen, 0);
        let m = first_pending(program, seen, 0);
        if m >= len {
            assert(done(program, seen, i));
        }
        lemma_over(tasks, nb_workers, state, any, m);
        assert(tasks[m].owner.thread_id < nb_workers);
        let v = tasks[m].owner.thread_id as int;
        let k = state.workers[v].next as int;
        assert(k <= m);
        if k < m {
            assert(done(program, seen, k));
            lemma_over(tasks, nb_workers, state, any, k);
            assert(enabled(tasks, state, v, Move::Pass));
            assert(moves(tasks, state, made(tasks, state, v, Move::Pass), v, Move::Pass));
        } else if state.workers[v].acquired == tasks[m].accesses.dom() {
            assert(enabled(tasks, state, v, Move::Finish));
            assert(moves(tasks, state, made(tasks, state, v, Move::Finish), v, Move::Finish));
        } else {
            let held = state.workers[v].acquired;
            let wanted = tasks[m].accesses.dom();
            assert(!(held =~= wanted));
            let d = choose|d: nat| held.contains(d) != wanted.contains(d);
            if held.contains(d) {
                assert(state.workers[v].acquired.contains(d));
            }
            assert(wanted.contains(d) && !held.contains(d));
            let program_d = program_on(tasks, d);
            let seen_d = view_on(state, d);
            lemma_program_on(tasks, nb_workers, d);
            assert(consistent(program_d, nb_workers, seen_d));
            assert forall|j: int| 0 <= j < m && program_d[j].access is Some implies #[trigger] done(
                program_d,
                seen_d,
                j,
            ) by {
                assert(done(program, seen, j));
                lemma_over(tasks, nb_workers, state, any, j);
                lemma_over(tasks, nb_workers, state, d, j);
            }
            lemma_first_is_granted(program_d, nb_workers, seen_d, v);
            assert(enabled(tasks, state, v, Move::Acquire(d)));
            assert(moves(
                tasks,
                state,
                made(tasks, state, v, Move::Acquire(d)),
                v,
                Move::Acquire(d),
            ));
        }
    }
}

} // verus!
