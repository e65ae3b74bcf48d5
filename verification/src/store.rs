//! The state store: the tracking state of every process that the latest
//! snapshot held, by process identifier.

use std::collections::{HashMap, HashSet};
use vstd::prelude::*;
use vstd::std_specs::hash::group_hash_axioms;
use crate::record::{record_of, ProcessSnapshotEntry, Proceso};
use crate::tracking::{next_state, TrackingState};

verus! {

/// The identifiers that occur in a snapshot.
pub open spec fn live_ids(entries: Seq<ProcessSnapshotEntry>) -> Set<u32> {
    Set::new(|pid: u32| exists|i: int| 0 <= i < entries.len() && (#[trigger] entries[i]).pid == pid)
}

/// The store after the reading `entry`, taken at `now`, went into `states`:
/// the state under the entry's identifier is moved forward, or begun where
/// there was none, and every other state is left alone.
pub open spec fn observed(
    states: Map<u32, TrackingState>,
    entry: ProcessSnapshotEntry,
    now: u64,
) -> Map<u32, TrackingState> {
    states.insert(entry.pid, next_state(states.get(entry.pid), entry.cpu, now))
}

/// Tracking states by process identifier.
pub struct StateStore {
    states: HashMap<u32, TrackingState>,
}

impl View for StateStore {
    type V = Map<u32, TrackingState>;

    closed spec fn view(&self) -> Map<u32, TrackingState> {
        self.states@
    }
}

impl Default for StateStore {
    /// A store that tracks nothing.
    fn default() -> (store: StateStore)
        ensures
            store@ == Map::<u32, TrackingState>::empty(),
    {
        StateStore::new()
    }
}

impl StateStore {
    /// A store that tracks nothing.
    pub fn new() -> (store: StateStore)
        ensures
            store@ == Map::<u32, TrackingState>::empty(),
    {
        StateStore { states: HashMap::new() }
    }

    /// Number of processes tracked.
    pub fn len(&self) -> (n: usize)
        ensures
            n == self@.len(),
            self@.dom().finite(),
    {
        broadcast use group_hash_axioms;

        self.states.len()
    }

    /// The state tracked for `pid`, if any.
    pub fn get(&self, pid: u32) -> (state: Option<TrackingState>)
        ensures
            state == self@.get(pid),
    {
        broadcast use group_hash_axioms;

        match self.states.get(&pid) {
            Some(state) => Some(*state),
            None => None,
        }
    }

    /// Takes one reading in: moves the state of the entry's process forward by
    /// the time since it was last seen, or begins to track it, and derives its
    /// record from the new state.
    pub fn observe(&mut self, entry: &ProcessSnapshotEntry, now: u64) -> (record: Proceso)
        ensures
            final(self)@ == observed(old(self)@, *entry, now),
            record@ == record_of(*entry, final(self)@[entry.pid]),
    {
        broadcast use group_hash_axioms;

        let state: TrackingState = match self.states.get(&entry.pid) {
            Some(known) => known.advance(entry.cpu, now),
            None => TrackingState::first(entry.cpu, now),
        };
        self.states.insert(entry.pid, state);
        Proceso::describe(entry, state)
    }

    /// Drops the state of every process that `snapshot` does not hold.
    pub fn reap(&mut self, snapshot: &Vec<ProcessSnapshotEntry>)
        ensures
            final(self)@ == old(self)@.restrict(live_ids(snapshot@)),
    {
        broadcast use group_hash_axioms;

        let mut live: HashSet<u32> = HashSet::new();
        let mut i: usize = 0;
        while i < snapshot.len()
            invariant
                i <= snapshot.len(),
                live@ == live_ids(snapshot@.take(i as int)),
            decreases snapshot.len() - i,
        {
            live.insert(snapshot[i].pid);
            proof {
                let before = snapshot@.take(i as int);
                let after = snapshot@.take(i + 1);
                assert forall|pid: u32|
                    live_ids(after).contains(pid) == live_ids(before).insert(
                        snapshot@[i as int].pid,
                    ).contains(pid) by {
                    if live_ids(after).contains(pid) {
                        let k = choose|k: int| 0 <= k < after.len() && (#[trigger] after[k]).pid == pid;
                        if k < i {
                            assert(before[k].pid == pid);
                        }
                    }
                    if live_ids(before).contains(pid) {
                        let k = choose|k: int|
                            0 <= k < before.len() && (#[trigger] before[k]).pid == pid;
                        assert(after[k].pid == pid);
                    }
                    if pid == snapshot@[i as int].pid {
                        assert(after[i as int].pid == pid);
                    }
                }
                assert(live_ids(after) =~= live_ids(before).insert(snapshot@[i as int].pid));
            }
            i += 1;
        }
        assert(snapshot@.take(snapshot.len() as int) == snapshot@);

        let mut stale: Vec<u32> = Vec::new();
        for pid in it: self.states.keys()
            invariant
                forall|k: int| 0 <= k < stale.len() ==> self.states@.contains_key(#[trigger] stale[k]),
                forall|k: int| 0 <= k < stale.len() ==> !live@.contains(#[trigger] stale[k]),
                forall|k: int|
                    0 <= k < it.index() && !live@.contains(*it.seq()[k]) ==> stale@.contains(
                        *#[trigger] it.seq()[k],
                    ),
        {
            let ghost collected = stale@;
            if !live.contains(pid) {
                stale.push(*pid);
            }
            proof {
                assert forall|k: int|
                    0 <= k <= it.index() && !live@.contains(*it.seq()[k]) implies stale@.contains(
                    *#[trigger] it.seq()[k],
                ) by {
                    if k < it.index() {
                        let at = choose|at: int|
                            0 <= at < collected.len() && collected[at] == *it.seq()[k];
                        assert(stale@[at] == *it.seq()[k]);
                    } else {
                        assert(stale@[stale.len() - 1] == *pid);
                    }
                }
            }
        }

        let ghost before = self.states@;
        let mut j: usize = 0;
        while j < stale.len()
            invariant
                j <= stale.len(),
                self.states@ == before.remove_keys(stale@.take(j as int).to_set()),
            decreases stale.len() - j,
        {
            let ghost reduced = self.states@;
            self.states.remove(&stale[j]);
            proof {
                assert(self.states@ == reduced.remove(stale@[j as int]));
                assert(stale@.take(j + 1) == stale@.take(j as int).push(stale@[j as int]));
                stale@.take(j as int).lemma_push_to_set_commute(stale@[j as int]);
                assert(self.states@ =~= before.remove_keys(stale@.take(j + 1).to_set()));
            }
            j += 1;
        }
        proof {
            assert(stale@.take(stale.len() as int) == stale@);
            assert(self.states@ =~= before.restrict(live_ids(snapshot@)));
        }
    }
}

} // verus!
