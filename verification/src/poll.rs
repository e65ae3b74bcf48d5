//! One poll: every reading of a snapshot goes into the store, in the order of
//! the snapshot; the state of every process that the snapshot does not hold is
//! dropped; and the records come out busiest first.

use vstd::prelude::*;
use crate::estimate::RUNTIME_LIMIT;
use crate::laws::lemma_output_bounds;
use crate::order::{is_stable_order, sort_by_usage, views};
use crate::record::{record_of, ProcessSnapshotEntry, Proceso, ProcesoView};
use crate::store::{live_ids, observed, StateStore};
use crate::tracking::{lemma_advanced_counters, next_state, TrackingState};
use crate::units::FULL_LOAD;

verus! {

/// The store after all of `entries` went into `states`, one after the other.
pub open spec fn store_after(
    states: Map<u32, TrackingState>,
    entries: Seq<ProcessSnapshotEntry>,
    now: u64,
) -> Map<u32, TrackingState>
    decreases entries.len(),
{
    if entries.len() == 0 {
        states
    } else {
        observed(store_after(states, entries.drop_last(), now), entries.last(), now)
    }
}

/// The records of `entries`, in their order: each is derived from the state of
/// its process right after its reading went into the store.
pub open spec fn records_after(
    states: Map<u32, TrackingState>,
    entries: Seq<ProcessSnapshotEntry>,
    now: u64,
) -> Seq<ProcesoView>
    decreases entries.len(),
{
    if entries.len() == 0 {
        Seq::empty()
    } else {
        records_after(states, entries.drop_last(), now).push(
            record_of(entries.last(), store_after(states, entries, now)[entries.last().pid]),
        )
    }
}

/// The store that a poll of `entries` at `now` leaves behind.
pub open spec fn polled_store(
    states: Map<u32, TrackingState>,
    entries: Seq<ProcessSnapshotEntry>,
    now: u64,
) -> Map<u32, TrackingState> {
    store_after(states, entries, now).restrict(live_ids(entries))
}

/// Taking readings in drops no identifier and adds exactly those read.
pub proof fn lemma_store_after_dom(
    states: Map<u32, TrackingState>,
    entries: Seq<ProcessSnapshotEntry>,
    now: u64,
)
    ensures
        store_after(states, entries, now).dom() == states.dom().union(live_ids(entries)),
        records_after(states, entries, now).len() == entries.len(),
    decreases entries.len(),
{
    let after = store_after(states, entries, now);
    if entries.len() == 0 {
        assert(live_ids(entries) =~= Set::<u32>::empty());
        assert(after.dom() =~= states.dom().union(live_ids(entries)));
    } else {
        let before = entries.drop_last();
        lemma_store_after_dom(states, before, now);
        assert forall|pid: u32|
            live_ids(entries).contains(pid) == (live_ids(before).contains(pid) || pid
                == entries.last().pid) by {
            if live_ids(entries).contains(pid) {
                let k = choose|k: int| 0 <= k < entries.len() && (#[trigger] entries[k]).pid == pid;
                if k < before.len() {
                    assert(before[k].pid == pid);
                }
            }
            if live_ids(before).contains(pid) {
                let k = choose|k: int| 0 <= k < before.len() && (#[trigger] before[k]).pid == pid;
                assert(entries[k].pid == pid);
            }
            if pid == entries.last().pid {
                assert(entries[entries.len() - 1].pid == pid);
            }
        }
        assert(after.dom() =~= states.dom().union(live_ids(entries)));
    }
}

/// Readings leave the state of every process alone that they do not name.
pub proof fn lemma_unread_is_untouched(
    states: Map<u32, TrackingState>,
    entries: Seq<ProcessSnapshotEntry>,
    now: u64,
    pid: u32,
)
    requires
        !live_ids(entries).contains(pid),
    ensures
        store_after(states, entries, now).get(pid) == states.get(pid),
    decreases entries.len(),
{
    if entries.len() > 0 {
        let before = entries.drop_last();
        assert(entries[entries.len() - 1].pid != pid);
        assert(!live_ids(before).contains(pid)) by {
            if live_ids(before).contains(pid) {
                let k = choose|k: int| 0 <= k < before.len() && (#[trigger] before[k]).pid == pid;
                assert(entries[k].pid == pid);
            }
        }
        lemma_unread_is_untouched(states, before, now, pid);
    }
}

/// The state of a process that the readings name once, at index `i`, is the
/// state it had, moved forward by that reading, or a fresh one if it had none.
pub proof fn lemma_read_once(
    states: Map<u32, TrackingState>,
    entries: Seq<ProcessSnapshotEntry>,
    now: u64,
    i: int,
)
    requires
        0 <= i < entries.len(),
        forall|j: int| 0 <= j < entries.len() && j != i ==> entries[j].pid != entries[i].pid,
    ensures
        store_after(states, entries, now).contains_key(entries[i].pid),
        store_after(states, entries, now)[entries[i].pid] == next_state(
            states.get(entries[i].pid),
            entries[i].cpu,
            now,
        ),
    decreases entries.len(),
{
    let before = entries.drop_last();
    let pid = entries[i].pid;
    if i == entries.len() - 1 {
        assert(!live_ids(before).contains(pid)) by {
            if live_ids(before).contains(pid) {
                let k = choose|k: int| 0 <= k < before.len() && (#[trigger] before[k]).pid == pid;
                assert(entries[k].pid == pid);
            }
        }
        lemma_unread_is_untouched(states, before, now, pid);
    } else {
        assert(before[i] == entries[i]);
        assert forall|j: int| 0 <= j < before.len() && j != i implies before[j].pid
            != before[i].pid by {
            assert(before[j] == entries[j]);
        }
        lemma_read_once(states, before, now, i);
        assert(entries[entries.len() - 1].pid != pid);
    }
}

/// The record at index `i` is derived from the state of its process right
/// after the readings up to and with the one at `i` went into the store.
pub proof fn lemma_record_at(
    states: Map<u32, TrackingState>,
    entries: Seq<ProcessSnapshotEntry>,
    now: u64,
    i: int,
)
    requires
        0 <= i < entries.len(),
    ensures
        records_after(states, entries, now).len() == entries.len(),
        records_after(states, entries, now)[i] == record_of(
            entries[i],
            store_after(states, entries.take(i + 1), now)[entries[i].pid],
        ),
    decreases entries.len(),
{
    let before = entries.drop_last();
    lemma_store_after_dom(states, before, now);
    lemma_store_after_dom(states, entries, now);
    if i == entries.len() - 1 {
        assert(entries.take(i + 1) == entries);
    } else {
        lemma_record_at(states, before, now, i);
        assert(before.take(i + 1) == entries.take(i + 1));
        assert(before[i] == entries[i]);
    }
}

/// Readings never lower the consumed CPU time or the wake count of a process
/// that was tracked before them, and never stop tracking it.
pub proof fn lemma_counters_grow(
    states: Map<u32, TrackingState>,
    entries: Seq<ProcessSnapshotEntry>,
    now: u64,
    pid: u32,
)
    requires
        states.contains_key(pid),
    ensures
        store_after(states, entries, now).contains_key(pid),
        store_after(states, entries, now)[pid].accumulated_cpu >= states[pid].accumulated_cpu,
        store_after(states, entries, now)[pid].wake_count >= states[pid].wake_count,
    decreases entries.len(),
{
    if entries.len() > 0 {
        let before = store_after(states, entries.drop_last(), now);
        lemma_counters_grow(states, entries.drop_last(), now, pid);
        if entries.last().pid == pid {
            lemma_advanced_counters(before[pid], entries.last().cpu, now);
        }
    }
}

/// Runs one poll over `snapshot`, read at `now` (milliseconds on the caller's
/// clock), and returns one record for each of its entries.
///
/// Every reading goes into `store`, in the order of the snapshot. After that
/// the store holds a state for exactly the identifiers of the snapshot. The
/// records come out sorted by usage, busiest first, those of equal usage in
/// the order of the snapshot.
pub fn obtener_procesos(
    store: &mut StateStore,
    snapshot: &Vec<ProcessSnapshotEntry>,
    now: u64,
) -> (records: Vec<Proceso>)
    ensures
        final(store)@ == polled_store(old(store)@, snapshot@, now),
        final(store)@.dom() == live_ids(snapshot@),
        is_stable_order(views(records@), records_after(old(store)@, snapshot@, now)),
        records.len() == snapshot.len(),
        forall|k: int|
            0 <= k < records.len() ==> {
                &&& (#[trigger] records[k]).avance <= FULL_LOAD
                &&& records[k].tiempo_restante == 0 <==> records[k].avance == FULL_LOAD
                &&& 1 <= records[k].tiempo_total <= RUNTIME_LIMIT
            },
{
    let ghost states = store@;
    let mut records: Vec<Proceso> = Vec::new();
    let mut i: usize = 0;
    proof {
        assert(views(records@) =~= Seq::<ProcesoView>::empty());
    }
    while i < snapshot.len()
        invariant
            i <= snapshot.len(),
            store@ == store_after(states, snapshot@.take(i as int), now),
            views(records@) == records_after(states, snapshot@.take(i as int), now),
        decreases snapshot.len() - i,
    {
        let ghost listed = records@;
        let record: Proceso = store.observe(&snapshot[i], now);
        records.push(record);
        proof {
            let read = snapshot@.take(i + 1);
            assert(read.drop_last() == snapshot@.take(i as int));
            assert(read.last() == snapshot@[i as int]);
            assert(views(records@) =~= views(listed).push(record@));
        }
        i += 1;
    }
    proof {
        assert(snapshot@.take(snapshot.len() as int) == snapshot@);
        lemma_store_after_dom(states, snapshot@, now);
        assert(polled_store(states, snapshot@, now).dom() =~= live_ids(snapshot@));
    }
    store.reap(snapshot);
    let sorted: Vec<Proceso> = sort_by_usage(records);
    proof {
        assert forall|k: int| 0 <= k < sorted.len() implies {
            &&& (#[trigger] sorted[k]).avance <= FULL_LOAD
            &&& sorted[k].tiempo_restante == 0 <==> sorted[k].avance == FULL_LOAD
            &&& 1 <= sorted[k].tiempo_total <= RUNTIME_LIMIT
        } by {
            lemma_output_bounds(states, snapshot@, now, views(sorted@), k);
        }
    }
    sorted
}

} // verus!
