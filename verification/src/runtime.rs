//! The per-worker runtime: it numbers the tasks and decides, through the
//! mapping, which of them this worker owns.
//!
//! Every worker walks the same sequence of task submissions and bumps its own
//! counter at each of them, so all workers give the same identifier to the
//! same task without talking to each other; the mapping then names the one
//! worker that executes it.

use crossbeam::thread::Scope;
use vstd::prelude::*;

use crate::record::TaskId;

verus! {

#[verifier::external_type_specification]
#[verifier::external_body]
pub struct ExScope<'env>(Scope<'env>);

/// The identity of a worker.
#[derive(PartialEq, Eq, Clone, Copy, Debug, Structural)]
pub struct ExecutorId {
    pub thread_id: u32,
}

impl ExecutorId {
    pub fn new(thread_id: u32) -> (id: Self)
        ensures
            id == (ExecutorId { thread_id }),
    {
        Self { thread_id }
    }
}

/// A mapping from the arguments of a task to the worker that executes it. It
/// is implemented for every closure of that shape. The default argument type
/// is `usize` and corresponds to the task ID, but custom arguments can be
/// used.
///
/// Data access synchronization relies on the determinism of the mapping: all
/// workers must get the same executor for the same arguments.
pub trait Mapping<Args = usize>: Send {
    /// Whether the mapping may be applied to `args`.
    spec fn accepts(&self, args: Args) -> bool;

    /// Whether `id` is a possible outcome of the mapping on `args`.
    spec fn maps_to(&self, args: Args, id: ExecutorId) -> bool;

    /// The executor of the task with arguments `args`.
    fn executor(&self, args: Args) -> (id: ExecutorId)
        requires
            self.accepts(args),
        ensures
            self.maps_to(args, id),
    ;
}

impl<T, Args> Mapping<Args> for T where T: Fn(Args) -> ExecutorId + Send {
    open spec fn accepts(&self, args: Args) -> bool {
        call_requires(*self, (args,))
    }

    open spec fn maps_to(&self, args: Args, id: ExecutorId) -> bool {
        call_ensures(*self, (args,), id)
    }

    fn executor(&self, args: Args) -> (id: ExecutorId) {
        self(args)
    }
}

/// A closure used as a mapping accepts what the closure requires and maps as
/// the closure ensures.
pub proof fn lemma_closure_is_mapping<F, Args>(map: F, args: Args, id: ExecutorId) where
    F: Fn(Args) -> ExecutorId + Send,

    ensures
        map.accepts(args) == call_requires(map, (args,)),
        map.maps_to(args, id) == call_ensures(map, (args,), id),
{
}

/// The executor that the round-robin mapping over `nb_threads` workers gives
/// to the task `task_id`.
pub open spec fn round_robin(nb_threads: u32, task_id: usize) -> ExecutorId {
    ExecutorId { thread_id: (task_id % (nb_threads as usize)) as u32 }
}

/// The mapping that attributes tasks among a number of workers in a round
/// robin fashion.
#[derive(Clone, Copy, Debug)]
pub struct RoundRobinMapping {
    nb_threads: u32,
}

impl RoundRobinMapping {
    /// The number of workers that the tasks are attributed among.
    pub closed spec fn nb_threads(&self) -> u32 {
        self.nb_threads
    }
}

impl Mapping<usize> for RoundRobinMapping {
    /// Over no worker at all the mapping accepts no task.
    open spec fn accepts(&self, args: usize) -> bool {
        self.nb_threads() > 0
    }

    open spec fn maps_to(&self, args: usize, id: ExecutorId) -> bool {
        id == round_robin(self.nb_threads(), args)
    }

    fn executor(&self, args: usize) -> (id: ExecutorId) {
        ExecutorId { thread_id: (args % (self.nb_threads as usize)) as u32 }
    }
}

/// Create a simple mapping, attributing tasks among `nb_threads` in a round
/// robin fashion.
pub fn get_round_robin_mapping(nb_threads: u32) -> (map: RoundRobinMapping)
    ensures
        map.nb_threads() == nb_threads,
{
    RoundRobinMapping { nb_threads }
}

/// The round-robin mapping names a worker that exists, and each worker in
/// turn: the tasks `t` and `t + nb_threads` go to the same worker.
pub proof fn lemma_round_robin_in_range(map: RoundRobinMapping, task_id: usize, id: ExecutorId)
    requires
        map.accepts(task_id),
        map.maps_to(task_id, id),
    ensures
        id.thread_id < map.nb_threads(),
        id.thread_id == task_id % (map.nb_threads() as usize),
        task_id + map.nb_threads() <= usize::MAX ==> map.maps_to(
            (task_id + map.nb_threads()) as usize,
            id,
        ),
{
    let n = map.nb_threads() as int;
    let t = task_id as int;
    assert((t + n) % n == t % n) by (nonlinear_arith)
        requires
            n > 0,
            t >= 0,
    ;
}

/// Represents the ownership of a task.
/// The owner is the only thread that has to execute the task.
#[derive(PartialEq, Eq, Clone, Copy, Debug, Structural)]
pub enum TaskOwnership {
    Owner,
    NotOwner,
}

impl TaskOwnership {
    /// The ownership of a task mapped to `target`, as seen by the worker
    /// `executor`.
    pub open spec fn spec_of(target: ExecutorId, executor: ExecutorId) -> TaskOwnership {
        if target == executor {
            TaskOwnership::Owner
        } else {
            TaskOwnership::NotOwner
        }
    }

    /// The ownership of a task mapped to `target`, as seen by the worker
    /// `executor`: a worker owns the tasks that are mapped to itself.
    pub fn of(target: ExecutorId, executor: ExecutorId) -> (ownership: TaskOwnership)
        ensures
            ownership == Self::spec_of(target, executor),
    {
        if target == executor {
            TaskOwnership::Owner
        } else {
            TaskOwnership::NotOwner
        }
    }
}

/// A thread-local data structure used to decide what tasks to execute on that
/// thread.
#[verifier::reject_recursive_types(Args)]
pub struct Runtime<'map, Args = usize> {
    executor_id: ExecutorId,
    task_counter: usize,
    map: Box<dyn Mapping<Args> + 'map>,
}

impl<'map, Args> Runtime<'map, Args> {
    /// The worker that this runtime belongs to.
    pub closed spec fn executor_id(&self) -> ExecutorId {
        self.executor_id
    }

    /// The number of tasks submitted so far, which is also the identifier of
    /// the last of them.
    pub closed spec fn task_counter(&self) -> usize {
        self.task_counter
    }

    /// Whether the mapping of this runtime may be applied to `args`.
    pub closed spec fn accepts(&self, args: Args) -> bool {
        self.map.accepts(args)
    }

    /// Whether `id` is a possible outcome of the mapping of this runtime on
    /// `args`.
    pub closed spec fn maps_to(&self, args: Args, id: ExecutorId) -> bool {
        self.map.maps_to(args, id)
    }

    /// Whether this runtime decides as the mapping `map` does.
    pub open spec fn follows<M: Mapping<Args>>(&self, map: M) -> bool {
        &&& forall|args: Args| #[trigger] self.accepts(args) <==> map.accepts(args)
        &&& forall|args: Args, id: ExecutorId| #[trigger]
            self.maps_to(args, id) <==> map.maps_to(args, id)
    }

    /// Whether this runtime decides as `other` does.
    pub open spec fn same_mapping(&self, other: &Self) -> bool {
        &&& forall|args: Args| #[trigger] self.accepts(args) <==> other.accepts(args)
        &&& forall|args: Args, id: ExecutorId| #[trigger]
            self.maps_to(args, id) <==> other.maps_to(args, id)
    }

    /// Whether the mapping of this runtime sends `args` to `target` and to no
    /// other executor.
    pub open spec fn targets(&self, args: Args, target: ExecutorId) -> bool {
        forall|id: ExecutorId| #[trigger] self.maps_to(args, id) ==> id == target
    }

    /// What this runtime answers when it is asked for the next task with the
    /// mapping arguments `args`: the runtime `after` has counted one more
    /// task, the task is identified by the new count, and it is owned if and
    /// only if the mapping sent `args` to this worker.
    pub open spec fn submits(
        &self,
        after: &Self,
        args: Args,
        next: (TaskId, TaskOwnership),
    ) -> bool {
        &&& after.task_counter() == self.task_counter() + 1
        &&& after.executor_id() == self.executor_id()
        &&& after.same_mapping(self)
        &&& next.0 == TaskId(after.task_counter())
        &&& exists|target: ExecutorId| #[trigger]
            self.maps_to(args, target) && next.1 == TaskOwnership::spec_of(
                target,
                self.executor_id(),
            )
    }

    /// The runtime of the worker `thread_id`, which has submitted no task
    /// yet and decides by `map`.
    pub fn new(thread_id: u32, map: impl Mapping<Args> + 'map) -> (rt: Self)
        ensures
            rt.executor_id() == (ExecutorId { thread_id }),
            rt.task_counter() == 0,
            rt.follows(map),
    {
        Self { executor_id: ExecutorId { thread_id }, task_counter: 0, map: Box::new(map) }
    }

    /// The identifier of this worker.
    pub fn id(&self) -> (id: ExecutorId)
        ensures
            id == self.executor_id(),
    {
        self.executor_id
    }

    /// The number of tasks submitted so far.
    pub fn nb_tasks(&self) -> (count: usize)
        ensures
            count == self.task_counter(),
    {
        self.task_counter
    }

    /// Given the arguments to the mapping function, return the next task ID
    /// and whether the current thread has ownership of the task.
    ///
    /// This function or `next_task` is called exactly once per task, on each
    /// thread.
    pub fn next_task_args(&mut self, args: Args) -> (next: (TaskId, TaskOwnership))
        requires
            old(self).task_counter() < usize::MAX,
            old(self).accepts(args),
        ensures
            old(self).submits(final(self), args, next),
    {
        self.task_counter += 1;
        let task_id = TaskId(self.task_counter);
        let target = self.map.executor(args);
        let ownership = TaskOwnership::of(target, self.executor_id);
        assert(old(self).maps_to(args, target));
        (task_id, ownership)
    }
}

impl<'map> Runtime<'map, usize> {
    /// Return the next task ID and whether the current thread has ownership
    /// of the task. The mapping is applied to the new task ID.
    ///
    /// This function or `next_task_args` is called exactly once per task, on
    /// each thread.
    pub fn next_task(&mut self) -> (next: (TaskId, TaskOwnership))
        requires
            old(self).task_counter() < usize::MAX,
            old(self).accepts((old(self).task_counter() + 1) as usize),
        ensures
            old(self).submits(final(self), final(self).task_counter(), next),
    {
        self.next_task_args(self.task_counter + 1)
    }
}

/// Why a computation did not run to its end.
#[derive(PartialEq, Eq, Clone, Copy, Debug, Structural)]
pub enum GoError {
    /// The thread of a worker could not be created.
    SpawnFailed,
    /// One of the workers panicked.
    WorkerPanicked,
}

/// What `go` hands to the driver on the worker `thread_id`: a runtime that
/// has submitted no task yet and decides by a clone of `map`, and a clone of
/// `args`.
pub open spec fn worker_start<'computation, M, Args, T>(
    map: M,
    args: Args,
    thread_id: usize,
    rt: Runtime<'computation, T>,
    worker_args: Args,
) -> bool where M: Mapping<T> + Clone, Args: Clone {
    &&& rt.executor_id() == (ExecutorId { thread_id: thread_id as u32 })
    &&& rt.task_counter() == 0
    &&& exists|worker_map: M| cloned(map, worker_map) && rt.follows(worker_map)
    &&& cloned(args, worker_args)
}

/// `crossbeam::thread::scope`: runs `spawn_workers` in a scope of threads and
/// joins them all before it returns. The result is `None` if a joined thread
/// panicked, and else what `spawn_workers` returned. For no worker at all no
/// thread is started, so that none can panic, and `spawn_workers` returns
/// `true`.
#[verifier::external_body]
fn run_scoped<'computation, M, Args, T, F>(nb_threads: usize, map: M, args: Args, fun: F) -> (joined:
    Option<bool>) where
    M: Mapping<T> + Clone + 'computation,
    Args: Send + Clone + 'computation,
    T: 'computation,
    F: Fn(Runtime<'computation, T>, Args) + Send + Copy + 'computation,

    requires
        nb_threads <= u32::MAX,
        forall|thread_id: usize, rt: Runtime<'computation, T>, worker_args: Args|
            thread_id < nb_threads && worker_start(map, args, thread_id, rt, worker_args)
                ==> call_requires(fun, (rt, worker_args)),
    ensures
        nb_threads == 0 ==> joined == Some(true),
{
    crossbeam::thread::scope(|scope| spawn_workers(scope, nb_threads, map, args, fun)).ok()
}

/// The decimal digit that stands for `n`, below ten.
pub open spec fn digit(n: nat) -> char {
    if n == 0 {
        '0'
    } else if n == 1 {
        '1'
    } else if n == 2 {
        '2'
    } else if n == 3 {
        '3'
    } else if n == 4 {
        '4'
    } else if n == 5 {
        '5'
    } else if n == 6 {
        '6'
    } else if n == 7 {
        '7'
    } else if n == 8 {
        '8'
    } else {
        '9'
    }
}

/// The number `n` in decimal digits, without leading zeros.
pub open spec fn decimal(n: nat) -> Seq<char>
    decreases n,
{
    if n < 10 {
        seq![digit(n)]
    } else {
        decimal(n / 10).push(digit(n % 10))
    }
}

/// The name of the thread of the worker `thread_id`: the letter `T`, then
/// the identifier of the worker in decimal digits.
pub open spec fn spec_name_of_worker(thread_id: usize) -> Seq<char> {
    seq!['T'] + decimal(thread_id as nat)
}

/// `format!` on a `usize`: the letter `T` followed by `thread_id` as the
/// standard library displays an unsigned integer, that is in decimal digits
/// without sign, padding or leading zeros.
#[verifier::external_body]
fn format_name(thread_id: usize) -> (name: String)
    ensures
        name@ == spec_name_of_worker(thread_id),
{
    format!("T{}", thread_id)
}

/// The name of the thread of the worker `thread_id`.
pub fn name_of_worker(thread_id: usize) -> (name: String)
    ensures
        name@ == spec_name_of_worker(thread_id),
{
    format_name(thread_id)
}

/// `ScopedThreadBuilder::spawn`: starts a thread named `name` in the scope,
/// which runs `fun` on `rt` and `args`. Tells whether the thread could be
/// created. The call panics on a name that holds a null character.
#[verifier::external_body]
fn spawn_worker<'computation, Args, T, F>(
    scope: &Scope<'computation>,
    name: String,
    rt: Runtime<'computation, T>,
    args: Args,
    fun: F,
) -> (spawned: bool) where
    Args: Send + 'computation,
    T: 'computation,
    F: Fn(Runtime<'computation, T>, Args) + Send + 'computation,

    requires
        call_requires(fun, (rt, args)),
        forall|k: int| 0 <= k < name@.len() ==> name@[k] != '\0',
{
    scope.builder().name(name).spawn(move |_| run_driver(fun, rt, args)).is_ok()
}

/// The name of a worker holds the letter `T` and decimal digits only.
pub proof fn lemma_name_of_worker(thread_id: usize)
    ensures
        forall|k: int|
            0 <= k < spec_name_of_worker(thread_id).len() ==> spec_name_of_worker(thread_id)[k]
                != '\0',
{
    lemma_decimal(thread_id as nat);
}

proof fn lemma_decimal(n: nat)
    ensures
        forall|k: int| 0 <= k < decimal(n).len() ==> decimal(n)[k] != '\0',
    decreases n,
{
    assert forall|m: nat| #[trigger] digit(m) != '\0' by {
        assert('0' != '\0' && '1' != '\0' && '2' != '\0' && '3' != '\0' && '4' != '\0');
        assert('5' != '\0' && '6' != '\0' && '7' != '\0' && '8' != '\0' && '9' != '\0');
    }
    if n >= 10 {
        lemma_decimal(n / 10);
        assert forall|k: int| 0 <= k < decimal(n).len() implies decimal(n)[k] != '\0' by {
            if k < decimal(n / 10).len() {
                assert(decimal(n)[k] == decimal(n / 10)[k]);
            } else {
                assert(decimal(n)[k] == digit(n % 10));
            }
        }
    } else {
        assert(decimal(n)[0] == digit(n));
    }
}

/// What a worker does: it runs the driver on its runtime and its arguments.
fn run_driver<'computation, Args, T, F>(fun: F, rt: Runtime<'computation, T>, args: Args) where
    F: Fn(Runtime<'computation, T>, Args),

    requires
        call_requires(fun, (rt, args)),
    ensures
        call_ensures(fun, (rt, args), ()),
{
    fun(rt, args)
}

/// What the worker `thread_id` is started with: a runtime of its own, which
/// has submitted no task yet and decides by a clone of `map`, and a clone of
/// `args`.
pub fn worker<'computation, M, Args, T>(thread_id: usize, map: &M, args: &Args) -> (start: (
    Runtime<'computation, T>,
    Args,
)) where M: Mapping<T> + Clone + 'computation, Args: Clone
    requires
        thread_id <= u32::MAX,
    ensures
        worker_start(*map, *args, thread_id, start.0, start.1),
{
    let worker_map = map.clone();
    let worker_args = args.clone();
    let rt = Runtime::new(thread_id as u32, worker_map);
    assert(cloned(*map, worker_map) && rt.follows(worker_map));
    (rt, worker_args)
}

/// What a worker is started with.
#[verifier::reject_recursive_types(T)]
pub struct WorkerStart<'computation, T, Args> {
    /// The name of the thread of the worker.
    pub name: String,
    /// The runtime of the worker.
    pub rt: Runtime<'computation, T>,
    /// The arguments of the worker.
    pub args: Args,
}

/// Whether `starts` is what the workers `0` to `nb_threads - 1` are started
/// with, in this order: each has its name, a runtime of its own, which has
/// submitted no task yet and decides by a clone of `map`, and a clone of
/// `args`.
pub open spec fn starts_of<'computation, M, Args, T>(
    map: M,
    args: Args,
    nb_threads: usize,
    starts: Seq<WorkerStart<'computation, T, Args>>,
) -> bool where M: Mapping<T> + Clone, Args: Clone {
    &&& starts.len() == nb_threads
    &&& forall|i: int|
        0 <= i < nb_threads ==> {
            &&& (#[trigger] starts[i]).name@ == spec_name_of_worker(i as usize)
            &&& worker_start(map, args, i as usize, starts[i].rt, starts[i].args)
        }
}

/// What the workers `0` to `nb_threads - 1` are started with, in this
/// order.
pub fn workers<'computation, M, Args, T>(nb_threads: usize, map: &M, args: &Args) -> (starts: Vec<
    WorkerStart<'computation, T, Args>,
>) where M: Mapping<T> + Clone + 'computation, Args: Clone
    requires
        nb_threads <= u32::MAX,
    ensures
        starts_of(*map, *args, nb_threads, starts@),
{
    let mut starts: Vec<WorkerStart<'computation, T, Args>> = Vec::new();
    let mut thread_id: usize = 0;
    while thread_id < nb_threads
        invariant
            thread_id <= nb_threads <= u32::MAX,
            starts_of(*map, *args, thread_id, starts@),
        decreases nb_threads - thread_id,
    {
        let (rt, worker_args) = worker(thread_id, map, args);
        let name = name_of_worker(thread_id);
        starts.push(WorkerStart { name, rt, args: worker_args });
        thread_id += 1;
    }
    starts
}

/// Starts the workers `0` to `nb_threads - 1` in `scope`, one after the
/// other, each with what `workers` makes for it. Stops at the first worker
/// whose thread cannot be created, and tells whether all of them were
/// started: whether a thread can be created is for the system to say, but
/// where there is no worker to start none is missing.
fn spawn_workers<'computation, M, Args, T, F>(
    scope: &Scope<'computation>,
    nb_threads: usize,
    map: M,
    args: Args,
    fun: F,
) -> (all_spawned: bool) where
    M: Mapping<T> + Clone + 'computation,
    Args: Send + Clone + 'computation,
    T: 'computation,
    F: Fn(Runtime<'computation, T>, Args) + Send + Copy + 'computation,

    requires
        nb_threads <= u32::MAX,
        forall|thread_id: usize, rt: Runtime<'computation, T>, worker_args: Args|
            thread_id < nb_threads && worker_start(map, args, thread_id, rt, worker_args)
                ==> call_requires(fun, (rt, worker_args)),
    ensures
        nb_threads == 0 ==> all_spawned,
{
    let starts = workers(nb_threads, &map, &args);
    let ghost all = starts@;
    for start in it: starts
        invariant
            it.seq() == all,
            starts_of(map, args, nb_threads, all),
            forall|thread_id: usize, rt: Runtime<'computation, T>, worker_args: Args|
                thread_id < nb_threads && worker_start(map, args, thread_id, rt, worker_args)
                    ==> call_requires(fun, (rt, worker_args)),
    {
        proof {
            lemma_name_of_worker(it.index() as usize);
        }
        if !spawn_worker(scope, start.name, start.rt, start.args, fun) {
            return false;
        }
    }
    true
}

/// Start the computation on `nb_threads` threads.
///
/// Each thread will execute the given function, but tasks submitted through
/// the functions of the `task` module will only be executed by the thread
/// mapped to that task by the mapping function. The call returns when all the
/// threads have ended.
pub fn go<'computation, M, Args, T, F>(nb_threads: usize, map: M, args: Args, fun: F) -> (done:
    Result<(), GoError>) where
    M: Mapping<T> + Clone + 'computation,
    Args: Send + Clone + 'computation,
    T: 'computation,
    F: Fn(Runtime<'computation, T>, Args) + Send + Copy + 'computation,

    requires
        nb_threads <= u32::MAX,
        forall|thread_id: usize, rt: Runtime<'computation, T>, worker_args: Args|
            thread_id < nb_threads && worker_start(map, args, thread_id, rt, worker_args)
                ==> call_requires(fun, (rt, worker_args)),
    ensures
        nb_threads == 0 ==> done == Ok::<(), GoError>(()),
{
    GoError::outcome(run_scoped(nb_threads, map, args, fun))
}

impl GoError {
    /// How a computation ended, given what joining its threads gave: `None`
    /// if a worker panicked, and else whether every worker was started.
    pub open spec fn spec_outcome(joined: Option<bool>) -> Result<(), GoError> {
        match joined {
            None => Err(GoError::WorkerPanicked),
            Some(false) => Err(GoError::SpawnFailed),
            Some(true) => Ok(()),
        }
    }

    /// How a computation ended, given what joining its threads gave: `None`
    /// if a worker panicked, and else whether every worker was started.
    pub fn outcome(joined: Option<bool>) -> (done: Result<(), GoError>)
        ensures
            done == Self::spec_outcome(joined),
    {
        match joined {
            None => Err(GoError::WorkerPanicked),
            Some(false) => Err(GoError::SpawnFailed),
            Some(true) => Ok(()),
        }
    }
}

} // verus!
