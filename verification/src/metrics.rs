//! The figures shown for a process: progress against its budget, the time that
//! remains of it, and an interactivity class read off the smoothed usage.

use vstd::prelude::*;
use vstd::arithmetic::div_mod::{lemma_div_is_ordered, lemma_div_multiples_vanish, lemma_multiply_divide_lt};
use vstd::arithmetic::mul::{lemma_mul_inequality, lemma_mul_is_commutative, lemma_mul_strict_inequality};
use crate::units::{ceil_div, clamp, FULL_LOAD, TICKS_PER_MILLI, TICKS_PER_SECOND};

verus! {

/// Smoothed usage from which a process is classed as real-time (70%).
pub const REAL_TIME_FLOOR: u64 = 70_000;

/// Smoothed usage from which a process is classed as highly interactive (25%).
pub const HIGH_FLOOR: u64 = 25_000;

/// Smoothed usage from which a process is classed as moderately interactive
/// (10%).
pub const MEDIUM_FLOOR: u64 = 10_000;

/// Smoothed usage from which a process is classed as little interactive (5%).
pub const LOW_FLOOR: u64 = 5_000;

/// A budget of `total` seconds, in ticks: `TICKS_PER_SECOND` for each.
#[verifier::inline]
pub open spec fn budget_ticks(total: int) -> int {
    total * 100_000_000
}

/// Share of the budget that has been consumed, in thousandths of a percent
/// (`FULL_LOAD` for all of it), rounded downwards and held at `FULL_LOAD`. A
/// process without a budget has made no progress.
pub open spec fn progress_of(accumulated: int, total: int) -> int {
    if total > 0 {
        clamp(accumulated * 100_000 / budget_ticks(total), 0, FULL_LOAD as int)
    } else {
        0
    }
}

/// What is left of the budget, in milliseconds (`TICKS_PER_MILLI` ticks
/// each), rounded upwards; nothing once the budget is consumed.
pub open spec fn remaining_millis_of(accumulated: int, total: int) -> int {
    if accumulated >= budget_ticks(total) {
        0
    } else {
        ceil_div(budget_ticks(total) - accumulated, 100_000)
    }
}

/// Progress never leaves the range from nothing to `FULL_LOAD`.
pub proof fn lemma_progress_in_range(accumulated: int, total: int)
    ensures
        0 <= progress_of(accumulated, total) <= FULL_LOAD,
{
}

/// Progress is complete exactly when the budget is consumed.
pub proof fn lemma_progress_complete(accumulated: int, total: int)
    requires
        0 <= accumulated,
        0 < total,
    ensures
        progress_of(accumulated, total) == FULL_LOAD <==> accumulated >= budget_ticks(total),
{
    let budget = budget_ticks(total);
    let full = 100_000int;
    if accumulated >= budget {
        lemma_mul_inequality(budget, accumulated, full);
        lemma_div_is_ordered(budget * full, accumulated * full, budget);
        lemma_mul_is_commutative(budget, full);
        lemma_div_multiples_vanish(full, budget);
    } else {
        lemma_mul_strict_inequality(accumulated, budget, full);
        lemma_mul_is_commutative(budget, full);
        lemma_multiply_divide_lt(accumulated * full, budget, full);
    }
}

/// Nothing remains exactly when the budget is consumed, and what remains is
/// never negative.
pub proof fn lemma_remaining_zero(accumulated: int, total: int)
    ensures
        0 <= remaining_millis_of(accumulated, total),
        remaining_millis_of(accumulated, total) == 0 <==> accumulated >= budget_ticks(total),
{
}

/// Before anything is consumed the whole budget remains.
pub proof fn lemma_remaining_untouched(total: int)
    requires
        0 <= total,
    ensures
        remaining_millis_of(0, total) == total * 1_000,
        progress_of(0, total) == 0,
{
    if total > 0 {
        assert(0int * 100_000 / budget_ticks(total) == 0) by (nonlinear_arith)
            requires
                budget_ticks(total) > 0,
        ;
    }
}

/// Progress against a budget of `total` seconds after `accumulated` ticks, in
/// thousandths of a percent.
pub fn progress(accumulated: u64, total: u64) -> (share: u64)
    ensures
        share == progress_of(accumulated as int, total as int),
        share <= FULL_LOAD,
        total > 0 ==> (share == FULL_LOAD <==> accumulated >= budget_ticks(total as int)),
{
    if total == 0 {
        return 0;
    }
    proof {
        lemma_progress_complete(accumulated as int, total as int);
        assert(total * TICKS_PER_SECOND == total * 100_000_000);
        assert(accumulated * FULL_LOAD == accumulated * 100_000);
    }
    let budget: u128 = total as u128 * TICKS_PER_SECOND as u128;
    let scaled: u128 = accumulated as u128 * FULL_LOAD as u128;
    let quotient: u128 = scaled / budget;
    if quotient > FULL_LOAD as u128 {
        FULL_LOAD
    } else {
        quotient as u64
    }
}

/// What remains of a budget of `total` seconds after `accumulated` ticks, in
/// milliseconds.
///
/// The budget, `MILLIS_PER_SECOND` times over, must fit the result's type;
/// every budget that the estimator hands out does.
pub fn remaining_millis(accumulated: u64, total: u64) -> (left: u64)
    requires
        total * 1_000 <= u64::MAX,
    ensures
        left == remaining_millis_of(accumulated as int, total as int),
        left == 0 <==> accumulated >= budget_ticks(total as int),
        left <= total * 1_000,
{
    proof {
        assert(total * TICKS_PER_SECOND == total * 100_000_000);
    }
    let budget: u128 = total as u128 * TICKS_PER_SECOND as u128;
    if accumulated as u128 >= budget {
        0
    } else {
        let left_ticks: u128 = budget - accumulated as u128;
        ((left_ticks + (TICKS_PER_MILLI as u128 - 1)) / TICKS_PER_MILLI as u128) as u64
    }
}

/// How interactive a process is taken to be.
#[derive(Clone, Copy, Debug, PartialEq, Eq, Structural)]
pub enum Interactivity {
    RealTime,
    High,
    Medium,
    Low,
    VeryLow,
}

/// The class of a process by its smoothed usage: the highest band whose floor
/// the usage reaches.
pub open spec fn class_of(smoothed_cpu: u64) -> Interactivity {
    if smoothed_cpu >= REAL_TIME_FLOOR {
        Interactivity::RealTime
    } else if smoothed_cpu >= HIGH_FLOOR {
        Interactivity::High
    } else if smoothed_cpu >= MEDIUM_FLOOR {
        Interactivity::Medium
    } else if smoothed_cpu >= LOW_FLOOR {
        Interactivity::Low
    } else {
        Interactivity::VeryLow
    }
}

/// The text shown for a class.
pub open spec fn label_of(class: Interactivity) -> Seq<char> {
    match class {
        Interactivity::RealTime => "real-time"@,
        Interactivity::High => "high"@,
        Interactivity::Medium => "medium"@,
        Interactivity::Low => "low"@,
        Interactivity::VeryLow => "very low"@,
    }
}

impl Interactivity {
    /// Classifies a process by its smoothed usage, in thousandths of a percent.
    pub fn classify(smoothed_cpu: u64) -> (class: Interactivity)
        ensures
            class == class_of(smoothed_cpu),
    {
        if smoothed_cpu >= REAL_TIME_FLOOR {
            Interactivity::RealTime
        } else if smoothed_cpu >= HIGH_FLOOR {
            Interactivity::High
        } else if smoothed_cpu >= MEDIUM_FLOOR {
            Interactivity::Medium
        } else if smoothed_cpu >= LOW_FLOOR {
            Interactivity::Low
        } else {
            Interactivity::VeryLow
        }
    }

    /// The text shown for this class.
    pub fn label(self) -> (text: String)
        ensures
            text@ == label_of(self),
    {
        match self {
            Interactivity::RealTime => String::from_str("real-time"),
            Interactivity::High => String::from_str("high"),
            Interactivity::Medium => String::from_str("medium"),
            Interactivity::Low => String::from_str("low"),
            Interactivity::VeryLow => String::from_str("very low"),
        }
    }
}

} // verus!
