//! The fixed-point scales that every other module computes in.
//!
//! * CPU usage and progress are counted in thousandths of a percent.
//! * Wall-clock time is counted in milliseconds.
//! * Consumed CPU time is counted in ticks: the product of a usage and a
//!   duration, so that a fully busy core earns `FULL_LOAD` ticks per
//!   millisecond and no rounding is needed when usage is accumulated.
//!
//! Where a formula multiplies or divides by one of these scales it writes the
//! number out, which keeps the formula linear for the solver; the constants
//! name the same numbers for everything else.

use vstd::prelude::*;

verus! {

/// One fully busy core (100%), in thousandths of a percent.
pub const FULL_LOAD: u64 = 100_000;

/// Usage above which a process counts as active (1%).
pub const ACTIVITY_THRESHOLD: u64 = 1_000;

/// Milliseconds in a second.
pub const MILLIS_PER_SECOND: u64 = 1_000;

/// Ticks that one fully busy core earns in a millisecond.
pub const TICKS_PER_MILLI: u64 = 100_000;

/// Ticks that one fully busy core earns in a second.
pub const TICKS_PER_SECOND: u64 = 100_000_000;

/// The quotient `num / den`, rounded to the nearest integer, halves upwards.
#[verifier::inline]
pub open spec fn round_half_up(num: int, den: int) -> int
    recommends
        num >= 0,
        den > 0,
{
    (2 * num + den) / (2 * den)
}

/// The quotient `num / den`, rounded upwards.
#[verifier::inline]
pub open spec fn ceil_div(num: int, den: int) -> int
    recommends
        num >= 0,
        den > 0,
{
    (num + den - 1) / den
}

/// `x` limited to the range from `lo` to `hi`.
pub open spec fn clamp(x: int, lo: int, hi: int) -> int
    recommends
        lo <= hi,
{
    if x < lo {
        lo
    } else if x > hi {
        hi
    } else {
        x
    }
}

} // verus!
