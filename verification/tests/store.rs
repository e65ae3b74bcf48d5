use proc_sampler::order::sort_by_usage;
use proc_sampler::record::{ProcessSnapshotEntry, ProcessStatus, Proceso};
use proc_sampler::store::StateStore;
use proc_sampler::tracking::TrackingState;

fn reading(pid: u32, cpu: u64) -> ProcessSnapshotEntry {
    ProcessSnapshotEntry {
        pid,
        name: String::from("p"),
        cpu,
        memory_kb: 0,
        status: ProcessStatus::Unknown,
    }
}

fn record(name: &str, cpu: u64) -> Proceso {
    Proceso {
        pid: String::from("0"),
        nombre: String::from(name),
        prioridad: 1,
        tiempo_cpu: cpu,
        memoria: 0,
        estado: String::new(),
        interactividad: String::new(),
        avance: 0,
        iteraciones: 0,
        tiempo_total: 1,
        tiempo_restante: 0,
    }
}

fn names(records: &[Proceso]) -> Vec<&str> {
    records.iter().map(|r| r.nombre.as_str()).collect()
}

#[test]
fn new_store_tracks_nothing() {
    let store = StateStore::new();
    assert_eq!(store.len(), 0);
    assert_eq!(store.get(0), None);
    assert_eq!(store.get(u32::MAX), None);
}

#[test]
fn observe_begins_and_then_moves_a_state() {
    let mut store = StateStore::new();
    let first = store.observe(&reading(3, 20_000), 100);
    assert_eq!(store.get(3), Some(TrackingState::first(20_000, 100)));
    assert_eq!(first.avance, 0);
    assert_eq!(first.iteraciones, 1);
    assert_eq!(first.tiempo_total, 5);
    assert_eq!(first.tiempo_restante, 5_000);

    let second = store.observe(&reading(3, 20_000), 1_100);
    assert_eq!(store.get(3), Some(TrackingState::first(20_000, 100).advance(20_000, 1_100)));
    // A fifth of a core for one second is 0.2 s of 5 s.
    assert_eq!(second.avance, 4_000);
    assert_eq!(second.tiempo_restante, 4_800);
    assert_eq!(store.len(), 1);
}

#[test]
fn observe_leaves_other_processes_alone() {
    let mut store = StateStore::new();
    store.observe(&reading(1, 10_000), 0);
    store.observe(&reading(2, 20_000), 0);
    let one = store.get(1);
    store.observe(&reading(2, 90_000), 5_000);
    assert_eq!(store.get(1), one);
    assert_eq!(store.len(), 2);
}

#[test]
fn reap_keeps_exactly_the_processes_of_the_snapshot() {
    let mut store = StateStore::new();
    for pid in 0..10u32 {
        store.observe(&reading(pid, 1), 0);
    }
    let kept = store.get(4);
    store.reap(&vec![reading(4, 0), reading(7, 0), reading(99, 0), reading(4, 5)]);
    assert_eq!(store.len(), 2);
    assert_eq!(store.get(4), kept);
    assert!(store.get(7).is_some());
    assert_eq!(store.get(99), None);
    for pid in [0u32, 1, 2, 3, 5, 6, 8, 9] {
        assert_eq!(store.get(pid), None);
    }
}

#[test]
fn reap_with_an_empty_snapshot_drops_everything() {
    let mut store = StateStore::new();
    store.observe(&reading(1, 1), 0);
    store.observe(&reading(2, 1), 0);
    store.reap(&Vec::new());
    assert_eq!(store.len(), 0);
}

#[test]
fn reap_of_an_empty_store_does_nothing() {
    let mut store = StateStore::new();
    store.reap(&vec![reading(1, 1)]);
    assert_eq!(store.len(), 0);
}

#[test]
fn sort_puts_the_busiest_first() {
    let sorted = sort_by_usage(vec![
        record("c", 3),
        record("a", 900),
        record("e", 0),
        record("b", 17),
        record("d", 1),
    ]);
    assert_eq!(names(&sorted), vec!["a", "b", "c", "d", "e"]);
}

#[test]
fn sort_keeps_records_of_equal_usage_in_their_order() {
    let sorted = sort_by_usage(vec![
        record("x1", 5),
        record("y1", 8),
        record("x2", 5),
        record("x3", 5),
        record("y2", 8),
        record("z1", 0),
        record("x4", 5),
    ]);
    assert_eq!(names(&sorted), vec!["y1", "y2", "x1", "x2", "x3", "x4", "z1"]);
}

#[test]
fn sort_of_nothing_and_of_one() {
    assert!(sort_by_usage(Vec::new()).is_empty());
    assert_eq!(names(&sort_by_usage(vec![record("only", 4)])), vec!["only"]);
}

#[test]
fn sort_keeps_every_record() {
    let mut seed: u64 = 99;
    let mut records = Vec::new();
    for i in 0..300 {
        seed = seed.wrapping_mul(6_364_136_223_846_793_005).wrapping_add(1_442_695_040_888_963_407);
        records.push(record(&format!("r{i}"), (seed >> 33) % 50));
    }
    let mut expected = records.clone();
    expected.sort_by(|a, b| b.tiempo_cpu.cmp(&a.tiempo_cpu));
    assert_eq!(sort_by_usage(records), expected);
}
