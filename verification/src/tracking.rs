//! What the engine remembers of one process between polls, and how a new
//! reading moves it forward.

use vstd::prelude::*;
use crate::units::{round_half_up, ACTIVITY_THRESHOLD};

verus! {

/// Weight of a reading in the smoothed usage: one part in `SMOOTHING_PARTS`.
/// The smoothed usage so far counts for the other three.
pub const SMOOTHING_PARTS: u64 = 4;

/// The state kept for one process identifier.
#[derive(Clone, Copy, Debug, PartialEq, Eq, Structural)]
pub struct TrackingState {
    /// Time of the latest reading, in milliseconds.
    pub last_seen: u64,
    /// CPU time consumed since tracking began, in ticks.
    pub accumulated_cpu: u64,
    /// Number of times the process was seen to go from inactive to active.
    pub wake_count: u32,
    /// Whether the latest reading was above the activity threshold.
    pub was_active: bool,
    /// Exponentially weighted moving average of the usage, in thousandths of a
    /// percent.
    pub smoothed_cpu: u64,
}

/// Whether a usage counts as active.
pub open spec fn is_active(cpu: u64) -> bool {
    cpu > ACTIVITY_THRESHOLD
}

/// Milliseconds from `last_seen` to `now`; none if the clock did not move
/// forward.
pub open spec fn elapsed_millis(last_seen: u64, now: u64) -> int {
    if now >= last_seen {
        now - last_seen
    } else {
        0
    }
}

/// The consumed CPU time after `elapsed` more milliseconds at usage `cpu`,
/// held at the largest value that the counter can take.
pub open spec fn accrued(accumulated: u64, cpu: u64, elapsed: int) -> int {
    let sum = accumulated + cpu * elapsed;
    if sum > u64::MAX {
        u64::MAX as int
    } else {
        sum
    }
}

/// The moving average after a reading of `cpu`: a quarter of the reading and
/// three quarters of the average so far, rounded to the nearest unit.
pub open spec fn smoothed(previous: u64, cpu: u64) -> int {
    round_half_up(cpu + 3 * previous, 4)
}

/// Whether a reading of `cpu` is a wake event for a process whose latest
/// reading was active or not as `was_active` says.
pub open spec fn is_wake(was_active: bool, cpu: u64) -> bool {
    is_active(cpu) && !was_active
}

/// The wake count after a reading of `cpu`: one more on a wake event, unless
/// the counter is full.
pub open spec fn wake_count_after(count: u32, was_active: bool, cpu: u64) -> int {
    if is_wake(was_active, cpu) && count < u32::MAX {
        count + 1
    } else {
        count as int
    }
}

/// The state of a process that is seen for the first time, at `now`, with
/// usage `cpu`.
pub open spec fn first_sighting(cpu: u64, now: u64) -> TrackingState {
    TrackingState {
        last_seen: now,
        accumulated_cpu: 0,
        wake_count: if is_active(cpu) {
            1
        } else {
            0
        },
        was_active: is_active(cpu),
        smoothed_cpu: cpu,
    }
}

/// The state that follows `state` when the process is seen again, at `now`,
/// with usage `cpu`.
pub open spec fn advanced(state: TrackingState, cpu: u64, now: u64) -> TrackingState {
    TrackingState {
        last_seen: now,
        accumulated_cpu: accrued(
            state.accumulated_cpu,
            cpu,
            elapsed_millis(state.last_seen, now),
        ) as u64,
        wake_count: wake_count_after(state.wake_count, state.was_active, cpu) as u32,
        was_active: is_active(cpu),
        smoothed_cpu: smoothed(state.smoothed_cpu, cpu) as u64,
    }
}

/// The state after a reading: that of a first sighting where nothing was
/// known of the process, else the known state moved forward.
pub open spec fn next_state(known: Option<TrackingState>, cpu: u64, now: u64) -> TrackingState {
    match known {
        Some(state) => advanced(state, cpu, now),
        None => first_sighting(cpu, now),
    }
}

/// A reading never lowers the consumed CPU time or the wake count, and it
/// raises the wake count by one exactly when it is a wake event and the
/// counter is not full.
pub proof fn lemma_advanced_counters(state: TrackingState, cpu: u64, now: u64)
    ensures
        advanced(state, cpu, now).accumulated_cpu >= state.accumulated_cpu,
        advanced(state, cpu, now).accumulated_cpu == accrued(
            state.accumulated_cpu,
            cpu,
            elapsed_millis(state.last_seen, now),
        ),
        advanced(state, cpu, now).wake_count >= state.wake_count,
        advanced(state, cpu, now).wake_count == wake_count_after(
            state.wake_count,
            state.was_active,
            cpu,
        ),
        advanced(state, cpu, now).smoothed_cpu == smoothed(state.smoothed_cpu, cpu),
{
    let elapsed = elapsed_millis(state.last_seen, now);
    assert(0 <= cpu * elapsed) by (nonlinear_arith)
        requires
            0 <= cpu,
            0 <= elapsed,
    ;
}

/// The moving average lies between the previous average and the new reading.
pub proof fn lemma_smoothed_between(previous: u64, cpu: u64)
    ensures
        previous <= cpu ==> previous <= smoothed(previous, cpu) <= cpu,
        cpu <= previous ==> cpu <= smoothed(previous, cpu) <= previous,
{
}

impl TrackingState {
    /// Starts tracking a process seen at `now` with usage `cpu`.
    pub fn first(cpu: u64, now: u64) -> (state: TrackingState)
        ensures
            state == first_sighting(cpu, now),
    {
        let active: bool = cpu > ACTIVITY_THRESHOLD;
        TrackingState {
            last_seen: now,
            accumulated_cpu: 0,
            wake_count: if active {
                1
            } else {
                0
            },
            was_active: active,
            smoothed_cpu: cpu,
        }
    }

    /// Moves the state forward by one reading: usage `cpu`, taken at `now`.
    ///
    /// The consumed CPU time grows by the usage times the time since the
    /// previous reading, the moving average takes the reading in, and the wake
    /// count grows by one exactly on a wake event. Neither counter ever
    /// shrinks.
    pub fn advance(self, cpu: u64, now: u64) -> (next: TrackingState)
        ensures
            next == advanced(self, cpu, now),
            next.accumulated_cpu >= self.accumulated_cpu,
            next.wake_count >= self.wake_count,
            next.wake_count - self.wake_count == (if is_wake(self.was_active, cpu)
                && self.wake_count < u32::MAX {
                1int
            } else {
                0int
            }),
    {
        let elapsed: u64 = if now >= self.last_seen {
            now - self.last_seen
        } else {
            0
        };
        assert(cpu * elapsed <= 0xFFFF_FFFF_FFFF_FFFF * 0xFFFF_FFFF_FFFF_FFFF) by (nonlinear_arith)
            requires
                0 <= cpu <= 0xFFFF_FFFF_FFFF_FFFF,
                0 <= elapsed <= 0xFFFF_FFFF_FFFF_FFFF,
        ;
        assert(0 <= cpu * elapsed) by (nonlinear_arith)
            requires
                0 <= cpu,
                0 <= elapsed,
        ;
        let sum: u128 = self.accumulated_cpu as u128 + (cpu as u128) * (elapsed as u128);
        let accumulated_cpu: u64 = if sum > u64::MAX as u128 {
            u64::MAX
        } else {
            sum as u64
        };

        let weighted: u128 = cpu as u128 + 3 * (self.smoothed_cpu as u128);
        let smoothed_cpu: u64 = ((2 * weighted + SMOOTHING_PARTS as u128) / (2
            * SMOOTHING_PARTS as u128)) as u64;

        let active: bool = cpu > ACTIVITY_THRESHOLD;
        let wake_count: u32 = if active && !self.was_active {
            self.wake_count.saturating_add(1)
        } else {
            self.wake_count
        };
        TrackingState { last_seen: now, accumulated_cpu, wake_count, was_active: active, smoothed_cpu }
    }
}

} // verus!
