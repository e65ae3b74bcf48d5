use proc_sampler::estimate::{
    estimate_total_runtime, IDLE_MIN_RUNTIME, MAX_RUNTIME, MIN_RUNTIME, RUNTIME_LIMIT,
};
use proc_sampler::units::FULL_LOAD;

#[test]
fn half_a_core_gets_eleven_seconds() {
    // 1 + 0.5 * 19 = 10.5, and halves round upwards.
    assert_eq!(estimate_total_runtime(50_000, 1_000), 11);
}

#[test]
fn busy_budget_ignores_memory() {
    assert_eq!(estimate_total_runtime(50_000, 0), 11);
    assert_eq!(estimate_total_runtime(50_000, u64::MAX), 11);
}

#[test]
fn busy_budget_at_the_ends_of_the_range() {
    assert_eq!(estimate_total_runtime(1, 0), 1);
    assert_eq!(estimate_total_runtime(FULL_LOAD, 0), 20);
    assert_eq!(estimate_total_runtime(FULL_LOAD - 1, 0), 20);
    assert_eq!(estimate_total_runtime(4 * FULL_LOAD, 0), 20);
    assert_eq!(estimate_total_runtime(u64::MAX, 0), 20);
}

#[test]
fn busy_budget_rounds_to_the_nearest_second() {
    // 1 + 19 * 2.631% = 1.49989, 1 + 19 * 2.632% = 1.50008
    assert_eq!(estimate_total_runtime(2_631, 0), 1);
    assert_eq!(estimate_total_runtime(2_632, 0), 2);
    // 1 + 19 * 25% = 5.75
    assert_eq!(estimate_total_runtime(25_000, 0), 6);
    // 1 + 19 * 97.368% = 19.49992, 1 + 19 * 97.369% = 19.50011
    assert_eq!(estimate_total_runtime(97_368, 0), 19);
    assert_eq!(estimate_total_runtime(97_369, 0), 20);
}

#[test]
fn busy_budget_stays_in_range() {
    let mut cpu: u64 = 1;
    while cpu < 3 * FULL_LOAD {
        let total = estimate_total_runtime(cpu, 123_456);
        assert!(MIN_RUNTIME <= total && total <= MAX_RUNTIME, "cpu {cpu} gives {total}");
        cpu += 997;
    }
}

#[test]
fn idle_budget_grows_with_memory() {
    assert_eq!(estimate_total_runtime(0, 0), 10);
    assert_eq!(estimate_total_runtime(0, 1_000), 10);
    // Half of 50 MB is where the first second is gained.
    assert_eq!(estimate_total_runtime(0, 25_599), 10);
    assert_eq!(estimate_total_runtime(0, 25_600), 11);
    assert_eq!(estimate_total_runtime(0, 51_200), 11);
    assert_eq!(estimate_total_runtime(0, 76_799), 11);
    assert_eq!(estimate_total_runtime(0, 76_800), 12);
    // 1 GB: 10 + 1024 / 50 = 30.48
    assert_eq!(estimate_total_runtime(0, 1_048_576), 30);
}

#[test]
fn idle_budget_is_never_under_its_floor() {
    let mut memory: u64 = 0;
    for _ in 0..64 {
        assert!(estimate_total_runtime(0, memory) >= IDLE_MIN_RUNTIME);
        memory = memory * 2 + 1;
    }
}

#[test]
fn largest_budget_is_the_limit() {
    assert_eq!(estimate_total_runtime(0, u64::MAX), RUNTIME_LIMIT);
    assert_eq!(RUNTIME_LIMIT, 360_287_970_189_650);
}
