//! What holds of every poll, whatever the store and the snapshot.

use vstd::prelude::*;
use vstd::seq_lib::to_multiset_contains;
use crate::estimate::{total_runtime, IDLE_MIN_RUNTIME, MAX_RUNTIME, MIN_RUNTIME, RUNTIME_LIMIT};
use crate::metrics::{budget_ticks, lemma_progress_complete, lemma_remaining_untouched};
use crate::order::is_stable_order;
use crate::poll::{
    lemma_counters_grow,
    lemma_read_once,
    lemma_record_at,
    lemma_store_after_dom,
    polled_store,
    records_after,
    store_after,
};
use crate::record::{record_of, ProcessSnapshotEntry, ProcesoView};
use crate::store::live_ids;
use crate::tracking::{
    first_sighting,
    is_active,
    is_wake,
    lemma_advanced_counters,
    next_state,
    TrackingState,
};
use crate::units::FULL_LOAD;

verus! {

/// Whether the entry at index `i` is the only one of `entries` with its
/// identifier.
pub open spec fn read_once(entries: Seq<ProcessSnapshotEntry>, i: int) -> bool {
    &&& 0 <= i < entries.len()
    &&& forall|j: int| 0 <= j < entries.len() && j != i ==> entries[j].pid != entries[i].pid
}

/// The budget of a process that uses any CPU lies between `MIN_RUNTIME` and
/// `MAX_RUNTIME` seconds; that of an idle process is at least
/// `IDLE_MIN_RUNTIME` seconds. No budget is over `RUNTIME_LIMIT`.
pub proof fn lemma_budget_range(cpu: u64, memory_kb: u64)
    ensures
        cpu > 0 ==> MIN_RUNTIME <= total_runtime(cpu, memory_kb) <= MAX_RUNTIME,
        cpu == 0 ==> IDLE_MIN_RUNTIME <= total_runtime(cpu, memory_kb),
        1 <= total_runtime(cpu, memory_kb) <= RUNTIME_LIMIT,
{
}

/// In every record progress lies between nothing and `FULL_LOAD`, and the
/// remaining time is zero exactly when the consumed CPU time has reached the
/// budget, which is also exactly when progress is complete. The remaining time
/// is never more than the budget.
pub proof fn lemma_record_bounds(entry: ProcessSnapshotEntry, state: TrackingState)
    ensures
        ({
            let record = record_of(entry, state);
            &&& record.tiempo_total == total_runtime(entry.cpu, entry.memory_kb)
            &&& 0 <= record.avance <= FULL_LOAD
            &&& 0 <= record.tiempo_restante <= record.tiempo_total * 1_000
            &&& record.tiempo_restante == 0 <==> state.accumulated_cpu >= budget_ticks(
                record.tiempo_total as int,
            )
            &&& record.avance == FULL_LOAD <==> state.accumulated_cpu >= budget_ticks(
                record.tiempo_total as int,
            )
        }),
{
    lemma_budget_range(entry.cpu, entry.memory_kb);
    lemma_progress_complete(
        state.accumulated_cpu as int,
        total_runtime(entry.cpu, entry.memory_kb),
    );
}

/// The record of a process that is seen for the first time shows no progress
/// and the whole budget as remaining, and counts one wake event if the process
/// is active and none if it is not.
pub proof fn lemma_first_record(entry: ProcessSnapshotEntry, now: u64)
    ensures
        ({
            let record = record_of(entry, first_sighting(entry.cpu, now));
            &&& record.avance == 0
            &&& record.tiempo_restante == record.tiempo_total * 1_000
            &&& record.iteraciones == if is_active(entry.cpu) {
                1int
            } else {
                0int
            }
        }),
{
    lemma_budget_range(entry.cpu, entry.memory_kb);
    lemma_remaining_untouched(total_runtime(entry.cpu, entry.memory_kb));
}

/// Every record that a poll returns obeys the bounds of `lemma_record_bounds`:
/// its progress is at most `FULL_LOAD`, and its remaining time is zero
/// exactly when its progress is complete.
pub proof fn lemma_output_bounds(
    states: Map<u32, TrackingState>,
    entries: Seq<ProcessSnapshotEntry>,
    now: u64,
    output: Seq<ProcesoView>,
    k: int,
)
    requires
        is_stable_order(output, records_after(states, entries, now)),
        0 <= k < output.len(),
    ensures
        output[k].avance <= FULL_LOAD,
        output[k].tiempo_restante <= output[k].tiempo_total * 1_000,
        output[k].tiempo_restante == 0 <==> output[k].avance == FULL_LOAD,
        1 <= output[k].tiempo_total <= RUNTIME_LIMIT,
        output[k].tiempo_cpu > 0 ==> MIN_RUNTIME <= output[k].tiempo_total <= MAX_RUNTIME,
        output[k].tiempo_cpu == 0 ==> IDLE_MIN_RUNTIME <= output[k].tiempo_total,
{
    let records = records_after(states, entries, now);
    to_multiset_contains(output, output[k]);
    to_multiset_contains(records, output[k]);
    assert(output.contains(output[k]));
    let i = choose|i: int| 0 <= i < records.len() && records[i] == output[k];
    lemma_store_after_dom(states, entries, now);
    lemma_record_at(states, entries, now, i);
    let state = store_after(states, entries.take(i + 1), now)[entries[i].pid];
    lemma_record_bounds(entries[i], state);
    lemma_budget_range(entries[i].cpu, entries[i].memory_kb);
}

/// After a poll the store tracks exactly the processes of the snapshot, so
/// never more than the snapshot has entries.
pub proof fn lemma_tracked_are_live(
    states: Map<u32, TrackingState>,
    entries: Seq<ProcessSnapshotEntry>,
    now: u64,
)
    requires
        states.dom().finite(),
    ensures
        polled_store(states, entries, now).dom() == live_ids(entries),
        polled_store(states, entries, now).dom().finite(),
        polled_store(states, entries, now).len() <= entries.len(),
{
    lemma_store_after_dom(states, entries, now);
    assert(polled_store(states, entries, now).dom() =~= live_ids(entries));
    let ids = entries.map_values(|entry: ProcessSnapshotEntry| entry.pid);
    assert(ids.to_set() =~= live_ids(entries)) by {
        assert forall|pid: u32| ids.to_set().contains(pid) == live_ids(entries).contains(pid) by {
            if ids.to_set().contains(pid) {
                let k = choose|k: int| 0 <= k < ids.len() && ids[k] == pid;
                assert(entries[k].pid == pid);
            }
            if live_ids(entries).contains(pid) {
                let k = choose|k: int| 0 <= k < entries.len() && (#[trigger] entries[k]).pid == pid;
                assert(ids[k] == pid);
            }
        }
    }
    ids.lemma_cardinality_of_set();
    vstd::seq_lib::seq_to_set_is_finite(ids);
}

/// A process that a snapshot does not hold is not tracked after the poll of
/// that snapshot.
pub proof fn lemma_absent_is_dropped(
    states: Map<u32, TrackingState>,
    entries: Seq<ProcessSnapshotEntry>,
    now: u64,
    pid: u32,
)
    requires
        !live_ids(entries).contains(pid),
    ensures
        !polled_store(states, entries, now).contains_key(pid),
{
}

/// A process that two snapshots in a row do not hold is not tracked after the
/// poll of the second.
pub proof fn lemma_absent_twice_is_dropped(
    states: Map<u32, TrackingState>,
    first: Seq<ProcessSnapshotEntry>,
    first_now: u64,
    second: Seq<ProcessSnapshotEntry>,
    second_now: u64,
    pid: u32,
)
    requires
        !live_ids(first).contains(pid),
        !live_ids(second).contains(pid),
    ensures
        !polled_store(polled_store(states, first, first_now), second, second_now).contains_key(
            pid,
        ),
{
}

/// A poll moves the state of a process that the snapshot holds once forward by
/// that one reading; a process that was not tracked starts afresh.
pub proof fn lemma_poll_moves_state(
    states: Map<u32, TrackingState>,
    entries: Seq<ProcessSnapshotEntry>,
    now: u64,
    i: int,
)
    requires
        read_once(entries, i),
    ensures
        polled_store(states, entries, now).contains_key(entries[i].pid),
        polled_store(states, entries, now)[entries[i].pid] == next_state(
            states.get(entries[i].pid),
            entries[i].cpu,
            now,
        ),
        records_after(states, entries, now)[i] == record_of(
            entries[i],
            polled_store(states, entries, now)[entries[i].pid],
        ),
{
    lemma_read_once(states, entries, now, i);
    lemma_record_at(states, entries, now, i);
    let read = entries.take(i + 1);
    assert(read[i] == entries[i]);
    assert forall|j: int| 0 <= j < read.len() && j != i implies read[j].pid != read[i].pid by {
        assert(read[j] == entries[j]);
    }
    lemma_read_once(states, read, now, i);
    assert(live_ids(entries).contains(entries[i].pid));
}

/// The consumed CPU time of a process never decreases from one poll to the
/// next.
pub proof fn lemma_accumulated_cpu_never_decreases(
    states: Map<u32, TrackingState>,
    entries: Seq<ProcessSnapshotEntry>,
    now: u64,
    pid: u32,
)
    requires
        states.contains_key(pid),
        polled_store(states, entries, now).contains_key(pid),
    ensures
        polled_store(states, entries, now)[pid].accumulated_cpu >= states[pid].accumulated_cpu,
{
    lemma_counters_grow(states, entries, now, pid);
}

/// The wake count of a process never decreases from one poll to the next.
pub proof fn lemma_wake_count_never_decreases(
    states: Map<u32, TrackingState>,
    entries: Seq<ProcessSnapshotEntry>,
    now: u64,
    pid: u32,
)
    requires
        states.contains_key(pid),
        polled_store(states, entries, now).contains_key(pid),
    ensures
        polled_store(states, entries, now)[pid].wake_count >= states[pid].wake_count,
{
    lemma_counters_grow(states, entries, now, pid);
}

/// A poll raises the wake count of a tracked process by one if its reading is
/// above the activity threshold and the one before was not, and leaves it as
/// it is otherwise. A counter that is full stays as it is.
pub proof fn lemma_wake_counted_once(
    states: Map<u32, TrackingState>,
    entries: Seq<ProcessSnapshotEntry>,
    now: u64,
    i: int,
)
    requires
        read_once(entries, i),
        states.contains_key(entries[i].pid),
    ensures
        ({
            let before = states[entries[i].pid];
            let after = polled_store(states, entries, now)[entries[i].pid];
            &&& after.wake_count == before.wake_count + if is_wake(
                before.was_active,
                entries[i].cpu,
            ) && before.wake_count < u32::MAX {
                1int
            } else {
                0int
            }
            &&& after.was_active == is_active(entries[i].cpu)
        }),
{
    lemma_poll_moves_state(states, entries, now, i);
    lemma_advanced_counters(states[entries[i].pid], entries[i].cpu, now);
}

/// A process that vanishes from one snapshot and comes back in the next one is
/// tracked as if it had never been seen: nothing of its earlier state is used.
pub proof fn lemma_reappearance_is_fresh(
    states: Map<u32, TrackingState>,
    without: Seq<ProcessSnapshotEntry>,
    without_now: u64,
    with: Seq<ProcessSnapshotEntry>,
    with_now: u64,
    i: int,
)
    requires
        read_once(with, i),
        !live_ids(without).contains(with[i].pid),
    ensures
        polled_store(polled_store(states, without, without_now), with, with_now)[with[i].pid]
            == first_sighting(with[i].cpu, with_now),
{
    lemma_absent_is_dropped(states, without, without_now, with[i].pid);
    lemma_poll_moves_state(polled_store(states, without, without_now), with, with_now, i);
}

} // verus!
