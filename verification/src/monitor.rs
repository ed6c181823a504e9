//! Event counts collected while a program runs, and how raw readings of the
//! counters are turned into estimates of the real counts.

use vstd::prelude::*;

verus! {

/// Raw counts of events collected during program execution.
///
/// When not enough counters are available on the hardware the counts are
/// estimations based on the time the counter was active.
#[derive(Debug, Clone, Copy, PartialEq, Eq, Structural)]
pub struct Counters {
    /// Total number of cycles.
    pub cycles: u64,
    /// Total number of cycles, not affected by frequency scaling.
    pub ref_cycles: u64,
    /// Total number of instructions executed.
    pub instructions: u64,
    /// Total task clock, the sum of active time of all CPUs, in nano seconds.
    pub task_clock: u64,
    /// Wall clock time, in nano seconds.
    pub wall_clock: u64,
    /// Total cache misses, usually only last level caches are counted.
    pub cache_misses: u64,
    /// Total cache access, usually only last level caches are counted.
    pub cache_references: u64,
}

/// What a counter reports when it is read: the events it counted, and for
/// how long it was enabled and actually counting.
#[derive(Debug, Clone, Copy, PartialEq, Eq, Structural)]
pub struct CountAndTime {
    /// The number of events counted.
    pub count: u64,
    /// How long the counter was enabled, in nano seconds.
    pub time_enabled: u64,
    /// How long the counter was counting, in nano seconds.
    pub time_running: u64,
}

/// The readings of all the counters of a monitor.
#[derive(Debug, Clone, Copy, PartialEq, Eq, Structural)]
pub struct Readings {
    pub cycles: CountAndTime,
    pub ref_cycles: CountAndTime,
    pub instructions: CountAndTime,
    pub task_clock: CountAndTime,
    pub cache_misses: CountAndTime,
    pub cache_references: CountAndTime,
}

/// The number of events that a counter would have counted, had it been
/// counting all the time it was enabled, provided that the events came at the
/// same rate all along.
pub open spec fn spec_estimate(cat: CountAndTime) -> int {
    (cat.count as int * cat.time_enabled as int) / cat.time_running as int
}

/// `value` cut down to its 64 lowest bits.
pub open spec fn low_64_bits(value: int) -> int {
    value % 0x1_0000_0000_0000_0000
}

/// Estimates the real count of a counter that was not counting all the time
/// it was enabled. An estimate that does not fit in 64 bits is cut down to
/// its 64 lowest bits.
pub fn estimate_real_count(cat: CountAndTime) -> (estimate: u64)
    requires
        cat.time_running > 0,
    ensures
        estimate == low_64_bits(spec_estimate(cat)),
        spec_estimate(cat) <= u64::MAX ==> estimate == spec_estimate(cat),
{
    let count: u128 = cat.count as u128;
    let enabled: u128 = cat.time_enabled as u128;
    let running: u128 = cat.time_running as u128;
    assert(count * enabled <= 0xffff_ffff_ffff_ffff * 0xffff_ffff_ffff_ffff) by (nonlinear_arith)
        requires
            count <= 0xffff_ffff_ffff_ffff,
            enabled <= 0xffff_ffff_ffff_ffff,
    ;
    let scaled: u128 = count * enabled / running;
    assert(scaled as u64 == scaled % 0x1_0000_0000_0000_0000) by (bit_vector);
    #[verifier::truncate]
    (scaled as u64)
}

impl Counters {
    /// The counts estimated from the readings of the counters, and the wall
    /// clock time.
    pub open spec fn spec_estimate(readings: Readings, wall_clock: u64) -> Counters {
        Counters {
            cycles: low_64_bits(spec_estimate(readings.cycles)) as u64,
            ref_cycles: low_64_bits(spec_estimate(readings.ref_cycles)) as u64,
            instructions: low_64_bits(spec_estimate(readings.instructions)) as u64,
            task_clock: low_64_bits(spec_estimate(readings.task_clock)) as u64,
            wall_clock,
            cache_misses: low_64_bits(spec_estimate(readings.cache_misses)) as u64,
            cache_references: low_64_bits(spec_estimate(readings.cache_references)) as u64,
        }
    }

    /// Whether every counter of the readings has been counting for some
    /// time.
    pub open spec fn spec_all_ran(readings: Readings) -> bool {
        &&& readings.cycles.time_running > 0
        &&& readings.ref_cycles.time_running > 0
        &&& readings.instructions.time_running > 0
        &&& readings.task_clock.time_running > 0
        &&& readings.cache_misses.time_running > 0
        &&& readings.cache_references.time_running > 0
    }

    /// The counts estimated from the readings of the counters, and the wall
    /// clock time.
    pub fn estimate(readings: Readings, wall_clock: u64) -> (counters: Counters)
        requires
            Self::spec_all_ran(readings),
        ensures
            counters == Self::spec_estimate(readings, wall_clock),
    {
        let task_clock = estimate_real_count(readings.task_clock);
        let cycles = estimate_real_count(readings.cycles);
        let ref_cycles = estimate_real_count(readings.ref_cycles);
        let instructions = estimate_real_count(readings.instructions);
        let cache_misses = estimate_real_count(readings.cache_misses);
        let cache_references = estimate_real_count(readings.cache_references);
        Counters {
            cycles,
            ref_cycles,
            instructions,
            task_clock,
            cache_misses,
            cache_references,
            wall_clock,
        }
    }
}

} // verus!
