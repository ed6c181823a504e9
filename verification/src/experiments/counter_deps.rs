//! Tasks with random dependencies: each task touches up to three pieces of
//! data, chosen by a pseudo-random number that is the same on all workers.

use vstd::prelude::*;

use crate::data::Data;
use crate::experiments::ids_from;
use crate::experiments::lemma_ran_push;
use crate::experiments::lemma_replay_push;
use crate::experiments::lemma_same_data_reflexive;
use crate::experiments::lemma_same_data_transitive;
use crate::experiments::ran;
use crate::experiments::reads_within;
use crate::experiments::records_after;
use crate::experiments::replay;
use crate::experiments::same_data;
use crate::experiments::views;
use crate::experiments::Names;
use crate::record::DataLocalState;
use crate::record::TaskId;
use crate::runtime::get_round_robin_mapping;
use crate::runtime::RoundRobinMapping;
use crate::runtime::Runtime;
use crate::runtime::TaskOwnership;
use crate::task::task_r;
use crate::task::task_rr;
use crate::task::task_rr_w;

verus! {

/// Build the mapping from tasks to executor: the workers take the tasks in
/// turn.
pub fn get_mapping(nb_threads: u32) -> (map: RoundRobinMapping)
    ensures
        map.nb_threads() == nb_threads,
{
    get_round_robin_mapping(nb_threads)
}

/// One step of the generator: three shifts, each folded back into the state.
pub open spec fn xorshift(state: usize) -> usize {
    let a = state ^ (state << 13usize);
    let b = a ^ (a >> 7usize);
    b ^ (b << 17usize)
}

/// Simple Xorshift pseudo-random number generator.
/// See Marsaglia, George (July 2003). "Xorshift RNGs". Journal of Statistical
/// Software. Vol. 8 (Issue 14).
#[derive(Clone, Copy, Debug)]
pub struct RandomNumberGenerator {
    state: usize,
}

impl View for RandomNumberGenerator {
    type V = usize;

    /// The last number generated, or the seed.
    closed spec fn view(&self) -> usize {
        self.state
    }
}

impl RandomNumberGenerator {
    /// A generator that starts from a fixed seed: all generators give the
    /// same numbers.
    pub fn new() -> (rng: Self)
        ensures
            rng@ == 0x92d68ca2,
    {
        Self { state: 0x92d68ca2 }
    }

    /// The next number.
    pub fn rand(&mut self) -> (x: usize)
        ensures
            x == xorshift(old(self)@),
            final(self)@ == x,
    {
        let mut x: usize = self.state;
        x ^= x << 13;
        x ^= x >> 7;
        x ^= x << 17;
        self.state = x;
        x
    }
}

/// The number of pieces of data that the tasks with random dependencies
/// choose from.
pub const N_DATA: usize = 128;

/// The number of bits that index a piece of data.
pub const DATA_SHIFT: usize = 7;

/// The three pieces of data that the random number `x` chooses: each index
/// is read from its own group of bits of `x`.
pub open spec fn spec_choose_three(x: usize) -> (usize, usize, usize) {
    (x % N_DATA, (x >> DATA_SHIFT) % N_DATA, (x >> ((2 * DATA_SHIFT) as usize)) % N_DATA)
}

/// The three pieces of data that the random number `x` chooses.
pub fn choose_three(x: usize) -> (chosen: (usize, usize, usize))
    ensures
        chosen == spec_choose_three(x),
        chosen.0 < N_DATA,
        chosen.1 < N_DATA,
        chosen.2 < N_DATA,
{
    let idx_1 = x % N_DATA;
    let idx_2 = (x >> DATA_SHIFT) % N_DATA;
    let idx_3 = (x >> (2 * DATA_SHIFT)) % N_DATA;
    (idx_1, idx_2, idx_3)
}

/// Two objects of a slice, the one at `i` first.
pub fn get_two<T>(items: &mut [T], i: usize, j: usize) -> (two: (&mut T, &mut T))
    requires
        i < old(items).len(),
        j < old(items).len(),
        i != j,
    ensures
        *two.0 == old(items)[i as int],
        *two.1 == old(items)[j as int],
        final(items)@ == old(items)@.update(i as int, *final(two.0)).update(
            j as int,
            *final(two.1),
        ),
{
    if i < j {
        let (low, high) = items.split_at_mut(j);
        (&mut low[i], &mut high[0])
    } else {
        let (low, high) = items.split_at_mut(i);
        (&mut high[0], &mut low[j])
    }
}

/// Three objects of a slice, given in the order in which they lie.
fn sorted_three<T>(items: &mut [T], i: usize, j: usize, k: usize) -> (three: (
    &mut T,
    &mut T,
    &mut T,
))
    requires
        i < j < k < old(items).len(),
    ensures
        *three.0 == old(items)[i as int],
        *three.1 == old(items)[j as int],
        *three.2 == old(items)[k as int],
        final(items)@ == old(items)@.update(i as int, *final(three.0)).update(
            j as int,
            *final(three.1),
        ).update(k as int, *final(three.2)),
{
    let (low, high) = items.split_at_mut(k);
    let (lowest, middle) = low.split_at_mut(j);
    (&mut lowest[i], &mut middle[0], &mut high[0])
}

/// Three objects of a slice that all differ, in the order asked for.
pub fn three_of<T>(items: &mut [T], a: usize, b: usize, c: usize) -> (three: (
    &mut T,
    &mut T,
    &mut T,
))
    requires
        a < old(items).len(),
        b < old(items).len(),
        c < old(items).len(),
        a != b,
        a != c,
        b != c,
    ensures
        *three.0 == old(items)[a as int],
        *three.1 == old(items)[b as int],
        *three.2 == old(items)[c as int],
        final(items)@ == old(items)@.update(a as int, *final(three.0)).update(
            b as int,
            *final(three.1),
        ).update(c as int, *final(three.2)),
{
    if a < b {
        if b < c {
            sorted_three(items, a, b, c)
        } else if a < c {
            let (first, third, second) = sorted_three(items, a, c, b);
            (first, second, third)
        } else {
            let (third, first, second) = sorted_three(items, c, a, b);
            (first, second, third)
        }
    } else {
        if a < c {
            let (second, first, third) = sorted_three(items, b, a, c);
            (first, second, third)
        } else if b < c {
            let (second, third, first) = sorted_three(items, b, c, a);
            (first, second, third)
        } else {
            let (third, second, first) = sorted_three(items, c, b, a);
            (first, second, third)
        }
    }
}

/// Return three references to objects of a slice. If an index is given more
/// than once, `None` is returned instead.
pub fn get_three<T>(items: &mut [T], a: usize, b: usize, c: usize) -> (three: (
    &mut T,
    Option<&mut T>,
    Option<&mut T>,
))
    requires
        a < old(items).len(),
        b < old(items).len(),
        c < old(items).len(),
    ensures
        *three.0 == old(items)[a as int],
        three.1 is None <==> b == a,
        three.1 matches Some(second) ==> *second == old(items)[b as int],
        three.2 is None <==> (c == a || c == b),
        three.2 matches Some(third) ==> *third == old(items)[c as int],
        final(items)@ == match (three.1, three.2) {
            (None, None) => old(items)@.update(a as int, *final(three.0)),
            (Some(second), None) => old(items)@.update(a as int, *final(three.0)).update(
                b as int,
                *final(second),
            ),
            (None, Some(third)) => old(items)@.update(a as int, *final(three.0)).update(
                c as int,
                *final(third),
            ),
            (Some(second), Some(third)) => old(items)@.update(a as int, *final(three.0)).update(
                b as int,
                *final(second),
            ).update(c as int, *final(third)),
        },
{
    if b == a {
        if c == a {
            (&mut items[a], None, None)
        } else {
            let (first, third) = get_two(items, a, c);
            (first, None, Some(third))
        }
    } else if c == a || c == b {
        let (first, second) = get_two(items, a, b);
        (first, Some(second), None)
    } else {
        let (first, second, third) = three_of(items, a, b, c);
        (first, Some(second), Some(third))
    }
}

/// The state of a generator that starts from `state` and has given `n`
/// numbers.
pub open spec fn xorshift_times(state: usize, n: nat) -> usize
    decreases n,
{
    if n == 0 {
        state
    } else {
        xorshift(xorshift_times(state, (n - 1) as nat))
    }
}

/// The pieces of data that the task drawn by the random number `x` names:
/// it reads the first choice; it reads the second choice too, or else the
/// third, if that is another piece of data; and it writes the third choice
/// if the three choices all differ.
pub open spec fn names_of(x: usize) -> Names {
    let (a, b, c) = spec_choose_three(x);
    if b == a {
        if c == a {
            Names::Read(a as int)
        } else {
            Names::ReadRead(a as int, c as int)
        }
    } else if c == a || c == b {
        Names::ReadRead(a as int, b as int)
    } else {
        Names::ReadReadWrite(a as int, b as int, c as int)
    }
}

/// What the first `n` tasks name, for a generator that starts from `seed`:
/// each task is drawn by the next number of the generator.
pub open spec fn names_drawn(seed: usize, n: int) -> Seq<Names> {
    Seq::new(n as nat, |k: int| names_of(xorshift_times(seed, (k + 1) as nat)))
}

/// What `n` tasks with random dependencies leave behind, on a worker that
/// found the ownerships `owners` for them: each task was mapped by its own
/// identifier, and the records of the data are those of a worker that
/// submitted these tasks, one after the other.
pub open spec fn counted(
    rt: Runtime<'_, usize>,
    seed: usize,
    n: int,
    owners: Seq<TaskOwnership>,
    before: Seq<DataLocalState>,
    after: Seq<DataLocalState>,
) -> bool {
    let first_id = rt.task_counter() as int;
    &&& ran(rt, ids_from(first_id, n), owners)
    &&& after == replay(names_drawn(seed, n), owners, before, first_id)
}

/// One more task submitted is one more task that the records tell of.
proof fn lemma_one_more(
    origin: Runtime<'_, usize>,
    before: Runtime<'_, usize>,
    after: Runtime<'_, usize>,
    seed: usize,
    owners: Seq<TaskOwnership>,
    next: (TaskId, TaskOwnership),
    x: usize,
    olds: Seq<DataLocalState>,
    befores: Seq<DataLocalState>,
    afters: Seq<DataLocalState>,
)
    requires
        before.task_counter() >= origin.task_counter(),
        x == xorshift_times(seed, (before.task_counter() - origin.task_counter() + 1) as nat),
        counted(origin, seed, before.task_counter() - origin.task_counter(), owners, olds, befores),
        before.same_mapping(&origin),
        before.executor_id() == origin.executor_id(),
        before.submits(&after, after.task_counter(), next),
        afters == records_after(befores, names_of(x), next.0, next.1),
    ensures
        counted(
            origin,
            seed,
            after.task_counter() - origin.task_counter(),
            owners.push(next.1),
            olds,
            afters,
        ),
{
    let start = origin.task_counter() as int;
    let t = before.task_counter() - start;
    let ids = ids_from(start, t);
    lemma_ran_push(origin, before, after, ids, owners, after.task_counter(), next);
    assert(ids.push(after.task_counter()) =~= ids_from(start, t + 1));
    lemma_replay_push(names_drawn(seed, t), owners, olds, start, names_of(x), next.1);
    assert(names_drawn(seed, t).push(names_of(x)) =~= names_drawn(seed, t + 1));
}

/// Submits `n_tasks` tasks, each on up to three pieces of `data` chosen by
/// the next number of `rng`: a task reads the first piece of data by
/// `counter_1` if the three choices are the same piece of data, it reads two
/// of them by `counter_2` if there are two different ones, and it reads the
/// first two and updates the third by `counter_3` if they all differ.
pub fn count<F1, F2, F3>(
    rt: &mut Runtime<'_, usize>,
    n_tasks: u64,
    data: &mut Vec<Data<()>>,
    rng: &mut RandomNumberGenerator,
    counter_1: F1,
    counter_2: F2,
    counter_3: F3,
) where F1: Fn(&()) + Copy, F2: Fn(&(), &()) + Copy, F3: Fn(&(), &(), &mut ()) + Copy
    requires
        old(data).len() >= N_DATA,
        old(rt).task_counter() + n_tasks <= usize::MAX,
        forall|task_id: usize| old(rt).accepts(task_id),
        reads_within(old(data)@, old(rt).task_counter() as int),
        forall|x: &()| call_requires(counter_1, (x,)),
        forall|x: &(), y: &()| call_requires(counter_2, (x, y)),
        forall|x: &(), y: &(), z: &mut ()| call_requires(counter_3, (x, y, z)),
    ensures
        final(rt).task_counter() == old(rt).task_counter() + n_tasks,
        final(rt).executor_id() == old(rt).executor_id(),
        final(rt).same_mapping(old(rt)),
        final(rng)@ == xorshift_times(old(rng)@, n_tasks as nat),
        same_data(old(data)@, final(data)@),
        reads_within(final(data)@, final(rt).task_counter() as int),
        exists|owners: Seq<TaskOwnership>| #[trigger]
            counted(
                *old(rt),
                old(rng)@,
                n_tasks as int,
                owners,
                views(old(data)@),
                views(final(data)@),
            ),
{
    let ghost mut owners: Seq<TaskOwnership> = Seq::empty();
    proof {
        lemma_same_data_reflexive(data@);
        assert(views(data@) =~= replay(
            names_drawn(rng@, 0),
            owners,
            views(data@),
            rt.task_counter() as int,
        ));
    }
    let mut submitted: u64 = 0;
    while submitted < n_tasks
        invariant
            submitted <= n_tasks,
            old(data).len() >= N_DATA,
            old(rt).task_counter() + n_tasks <= usize::MAX,
            rt.task_counter() == old(rt).task_counter() + submitted,
            rt.executor_id() == old(rt).executor_id(),
            rt.same_mapping(old(rt)),
            rng@ == xorshift_times(old(rng)@, submitted as nat),
            forall|task_id: usize| old(rt).accepts(task_id),
            same_data(old(data)@, data@),
            reads_within(data@, rt.task_counter() as int),
            counted(
                *old(rt),
                old(rng)@,
                submitted as int,
                owners,
                views(old(data)@),
                views(data@),
            ),
            forall|x: &()| call_requires(counter_1, (x,)),
            forall|x: &(), y: &()| call_requires(counter_2, (x, y)),
            forall|x: &(), y: &(), z: &mut ()| call_requires(counter_3, (x, y, z)),
        decreases n_tasks - submitted,
    {
        let x = rng.rand();
        let (idx_1, idx_2, idx_3) = choose_three(x);

        let ghost before = *rt;
        let ghost data_before = data@;
        assert(rt.accepts((rt.task_counter() + 1) as usize));
        let (a, b, c) = get_three(data.as_mut_slice(), idx_1, idx_2, idx_3);
        let next = match (b, c) {
            (None, None) => task_r(rt, counter_1, a),
            (Some(b), None) => task_rr(rt, counter_2, a, b),
            (None, Some(b)) => task_rr(rt, counter_2, a, b),
            (Some(b), Some(c)) => task_rr_w(rt, counter_3, a, b, c),
        };
        proof {
            assert(views(data@) =~= records_after(
                views(data_before),
                names_of(x),
                next.0,
                next.1,
            ));
            assert(before.same_mapping(old(rt)));
            lemma_one_more(
                *old(rt),
                before,
                *rt,
                old(rng)@,
                owners,
                next,
                x,
                views(old(data)@),
                views(data_before),
                views(data@),
            );
            owners = owners.push(next.1);
        }
        assert(rt.same_mapping(old(rt))) by {
            assert(rt.same_mapping(&before));
        }
        assert(same_data(old(data)@, data@)) by {
            lemma_same_data_reflexive(data_before);
            assert(same_data(data_before, data@));
            lemma_same_data_transitive(old(data)@, data_before, data@);
        }
        submitted += 1;
    }
}

} // verus!
