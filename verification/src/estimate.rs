//! The total-runtime estimator: a bounded budget, in whole seconds, read off
//! a process's current usage and memory alone.

use vstd::prelude::*;
use crate::units::{clamp, round_half_up, FULL_LOAD};

verus! {

/// Shortest budget given to a process that uses any CPU, in seconds.
pub const MIN_RUNTIME: u64 = 1;

/// Longest budget given to a process that uses any CPU, in seconds.
pub const MAX_RUNTIME: u64 = 20;

/// Budget of an idle process that holds no memory, in seconds.
pub const IDLE_BASE_RUNTIME: u64 = 10;

/// Least budget of an idle process, in seconds.
pub const IDLE_MIN_RUNTIME: u64 = 5;

/// Resident memory, in KB, that buys an idle process one more second (50 MB).
pub const KB_PER_SECOND: u64 = 51_200;

/// Budget of a busy process: usage from nothing to a full core is mapped
/// linearly onto `MIN_RUNTIME ..= MAX_RUNTIME`, that is to
/// `1 + 19 * cpu / FULL_LOAD`, rounded, and held in that range.
pub open spec fn runtime_from_cpu(cpu: int) -> int {
    clamp(round_half_up(100_000 + 19 * cpu, 100_000), MIN_RUNTIME as int, MAX_RUNTIME as int)
}

/// Budget of an idle process: `IDLE_BASE_RUNTIME` plus one second for every
/// `KB_PER_SECOND` of resident memory, that is `10 + memory_kb / 51_200`,
/// rounded, and never under `IDLE_MIN_RUNTIME`.
pub open spec fn runtime_from_memory(memory_kb: int) -> int {
    let rounded = round_half_up(512_000 + memory_kb, 51_200);
    if rounded < IDLE_MIN_RUNTIME {
        IDLE_MIN_RUNTIME as int
    } else {
        rounded
    }
}

/// The budget, in seconds, of a process with the given usage and memory.
pub open spec fn total_runtime(cpu: u64, memory_kb: u64) -> int {
    if cpu > 0 {
        runtime_from_cpu(cpu as int)
    } else {
        runtime_from_memory(memory_kb as int)
    }
}

/// Largest budget that any reading can give, in seconds.
pub const RUNTIME_LIMIT: u64 = 360_287_970_189_650;

/// Estimates the total runtime of a process, in seconds, from its current
/// usage (thousandths of a percent) and resident memory (KB).
pub fn estimate_total_runtime(cpu: u64, memory_kb: u64) -> (total: u64)
    ensures
        total == total_runtime(cpu, memory_kb),
        cpu > 0 ==> MIN_RUNTIME <= total <= MAX_RUNTIME,
        cpu == 0 ==> IDLE_MIN_RUNTIME <= total,
        1 <= total <= RUNTIME_LIMIT,
{
    if cpu >= FULL_LOAD {
        MAX_RUNTIME
    } else if cpu > 0 {
        let doubled: u64 = 2 * (FULL_LOAD + 19 * cpu) + FULL_LOAD;
        let rounded: u64 = doubled / (2 * FULL_LOAD);
        if rounded < MIN_RUNTIME {
            MIN_RUNTIME
        } else if rounded > MAX_RUNTIME {
            MAX_RUNTIME
        } else {
            rounded
        }
    } else {
        let whole: u64 = memory_kb / KB_PER_SECOND;
        let part: u64 = memory_kb % KB_PER_SECOND;
        let carry: u64 = (2 * part + KB_PER_SECOND) / (2 * KB_PER_SECOND);
        let rounded: u64 = IDLE_BASE_RUNTIME + whole + carry;
        if rounded < IDLE_MIN_RUNTIME {
            IDLE_MIN_RUNTIME
        } else {
            rounded
        }
    }
}

} // verus!

