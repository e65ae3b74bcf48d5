use proc_sampler::metrics::{progress, remaining_millis, Interactivity};
use proc_sampler::units::{FULL_LOAD, TICKS_PER_MILLI, TICKS_PER_SECOND};

#[test]
fn scales_fit_together() {
    assert_eq!(TICKS_PER_SECOND, 1_000 * TICKS_PER_MILLI);
    assert_eq!(TICKS_PER_MILLI, FULL_LOAD);
}

#[test]
fn one_second_of_eleven_is_nine_percent() {
    // 1 / 11 = 9.0909...%, rounded downwards
    assert_eq!(progress(TICKS_PER_SECOND, 11), 9_090);
}

#[test]
fn progress_starts_at_nothing() {
    assert_eq!(progress(0, 11), 0);
    assert_eq!(progress(0, 1), 0);
}

#[test]
fn progress_is_complete_exactly_at_the_budget() {
    assert_eq!(progress(11 * TICKS_PER_SECOND - 1, 11), FULL_LOAD - 1);
    assert_eq!(progress(11 * TICKS_PER_SECOND, 11), FULL_LOAD);
    assert_eq!(progress(11 * TICKS_PER_SECOND + 1, 11), FULL_LOAD);
    assert_eq!(progress(u64::MAX, 11), FULL_LOAD);
    assert_eq!(progress(u64::MAX, 1), FULL_LOAD);
}

#[test]
fn progress_without_a_budget_is_nothing() {
    assert_eq!(progress(0, 0), 0);
    assert_eq!(progress(5 * TICKS_PER_SECOND, 0), 0);
}

#[test]
fn progress_against_the_largest_budget() {
    assert_eq!(progress(u64::MAX, u64::MAX), 0);
    assert_eq!(progress(u64::MAX, 360_287_970_189_650), 51);
}

#[test]
fn progress_rounds_downwards() {
    // A third of three seconds and two thirds of it.
    assert_eq!(progress(TICKS_PER_SECOND, 3), 33_333);
    assert_eq!(progress(2 * TICKS_PER_SECOND, 3), 66_666);
    assert_eq!(progress(1, 1), 0);
    assert_eq!(progress(999, 1), 0);
    assert_eq!(progress(1_000, 1), 1);
}

#[test]
fn ten_seconds_remain_after_one_of_eleven() {
    assert_eq!(remaining_millis(TICKS_PER_SECOND, 11), 10_000);
}

#[test]
fn the_whole_budget_remains_at_the_start() {
    assert_eq!(remaining_millis(0, 11), 11_000);
    assert_eq!(remaining_millis(0, 1), 1_000);
    assert_eq!(remaining_millis(0, 0), 0);
    assert_eq!(remaining_millis(0, 360_287_970_189_650), 360_287_970_189_650_000);
}

#[test]
fn remaining_time_rounds_upwards() {
    assert_eq!(remaining_millis(1, 11), 11_000);
    assert_eq!(remaining_millis(TICKS_PER_MILLI, 11), 10_999);
    assert_eq!(remaining_millis(TICKS_PER_MILLI + 1, 11), 10_999);
    assert_eq!(remaining_millis(11 * TICKS_PER_SECOND - 1, 11), 1);
}

#[test]
fn nothing_remains_once_the_budget_is_consumed() {
    assert_eq!(remaining_millis(11 * TICKS_PER_SECOND, 11), 0);
    assert_eq!(remaining_millis(11 * TICKS_PER_SECOND + 1, 11), 0);
    assert_eq!(remaining_millis(u64::MAX, 20), 0);
    assert_eq!(remaining_millis(7, 0), 0);
}

#[test]
fn remaining_time_is_zero_exactly_when_progress_is_complete() {
    let totals: [u64; 4] = [1, 5, 11, 20];
    for total in totals {
        let budget = total * TICKS_PER_SECOND;
        for accumulated in [0, 1, budget / 2, budget - 1, budget, budget + 1, 3 * budget] {
            let left = remaining_millis(accumulated, total);
            let share = progress(accumulated, total);
            assert!(share <= FULL_LOAD);
            assert_eq!(left == 0, accumulated >= budget);
            assert_eq!(left == 0, share == FULL_LOAD);
        }
    }
}

#[test]
fn classes_begin_at_their_floors() {
    assert_eq!(Interactivity::classify(u64::MAX), Interactivity::RealTime);
    assert_eq!(Interactivity::classify(70_000), Interactivity::RealTime);
    assert_eq!(Interactivity::classify(69_999), Interactivity::High);
    assert_eq!(Interactivity::classify(25_000), Interactivity::High);
    assert_eq!(Interactivity::classify(24_999), Interactivity::Medium);
    assert_eq!(Interactivity::classify(10_000), Interactivity::Medium);
    assert_eq!(Interactivity::classify(9_999), Interactivity::Low);
    assert_eq!(Interactivity::classify(5_000), Interactivity::Low);
    assert_eq!(Interactivity::classify(4_999), Interactivity::VeryLow);
    assert_eq!(Interactivity::classify(0), Interactivity::VeryLow);
}

#[test]
fn class_labels() {
    assert_eq!(Interactivity::RealTime.label(), "real-time");
    assert_eq!(Interactivity::High.label(), "high");
    assert_eq!(Interactivity::Medium.label(), "medium");
    assert_eq!(Interactivity::Low.label(), "low");
    assert_eq!(Interactivity::VeryLow.label(), "very low");
}
