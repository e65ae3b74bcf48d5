//! The order of the output: busiest process first, and processes of equal
//! usage in the order in which they were read.

use vstd::prelude::*;
use vstd::seq_lib::to_multiset_insert;
use crate::record::{Proceso, ProcesoView};

verus! {

/// The records of a list, each by its view.
pub open spec fn views(records: Seq<Proceso>) -> Seq<ProcesoView> {
    records.map_values(|record: Proceso| record@)
}

/// Whether a list runs from the highest usage to the lowest.
pub open spec fn sorted_by_usage(records: Seq<ProcesoView>) -> bool {
    forall|i: int, j: int|
        0 <= i < j < records.len() ==> records[i].tiempo_cpu >= records[j].tiempo_cpu
}

/// The test that a record shows the usage `cpu`.
pub open spec fn has_usage(cpu: u64) -> spec_fn(ProcesoView) -> bool {
    |record: ProcesoView| record.tiempo_cpu == cpu
}

/// Whether `sorted` holds the records of `records`, each as often as it occurs
/// there, busiest first, with those of equal usage in the order that they have
/// in `records`.
pub open spec fn is_stable_order(sorted: Seq<ProcesoView>, records: Seq<ProcesoView>) -> bool {
    &&& sorted.len() == records.len()
    &&& sorted.to_multiset() == records.to_multiset()
    &&& sorted_by_usage(sorted)
    &&& forall|cpu: u64| #[trigger]
        sorted.filter(has_usage(cpu)) == records.filter(has_usage(cpu))
}

/// No record is picked from a list in which none shows the usage asked for.
proof fn lemma_pick_none(records: Seq<ProcesoView>, cpu: u64)
    requires
        forall|k: int| 0 <= k < records.len() ==> records[k].tiempo_cpu != cpu,
    ensures
        records.filter(has_usage(cpu)) == Seq::<ProcesoView>::empty(),
    decreases records.len(),
{
    reveal(Seq::filter);
    if records.len() > 0 {
        lemma_pick_none(records.drop_last(), cpu);
    }
}

/// What is picked from a list of one record.
proof fn lemma_pick_single(record: ProcesoView, cpu: u64)
    ensures
        seq![record].filter(has_usage(cpu)) == if record.tiempo_cpu == cpu {
            seq![record]
        } else {
            Seq::<ProcesoView>::empty()
        },
{
    reveal_with_fuel(Seq::filter, 2);
    let single = seq![record];
    assert(single.drop_last() =~= Seq::<ProcesoView>::empty());
    assert(Seq::<ProcesoView>::empty().push(record) =~= single);
}

/// Putting a record into a sorted list, behind every busier record and before
/// every other, keeps the list sorted and puts the record first among those
/// of its usage.
proof fn lemma_insert_keeps_order(
    sorted: Seq<ProcesoView>,
    later: Seq<ProcesoView>,
    at: int,
    record: ProcesoView,
)
    requires
        is_stable_order(sorted, later),
        0 <= at <= sorted.len(),
        forall|k: int| 0 <= k < at ==> sorted[k].tiempo_cpu > record.tiempo_cpu,
        at < sorted.len() ==> sorted[at].tiempo_cpu <= record.tiempo_cpu,
    ensures
        is_stable_order(sorted.insert(at, record), seq![record] + later),
{
    let grown = sorted.insert(at, record);
    assert(seq![record] + later =~= later.insert(0, record));
    to_multiset_insert(sorted, at, record);
    to_multiset_insert(later, 0, record);
    let front = sorted.subrange(0, at);
    let back = sorted.subrange(at, sorted.len() as int);
    assert(grown =~= (front + seq![record]) + back);
    assert(sorted =~= front + back);
    assert forall|i: int, j: int| 0 <= i < j < grown.len() implies grown[i].tiempo_cpu
        >= grown[j].tiempo_cpu by {
        if j > at {
            assert(grown[j] == sorted[j - 1]);
            assert(sorted[at].tiempo_cpu >= sorted[j - 1].tiempo_cpu || at == j - 1);
        }
        if i < at {
            assert(grown[i] == sorted[i]);
        } else if i > at {
            assert(grown[i] == sorted[i - 1]);
        }
    }
    assert forall|cpu: u64| #[trigger]
        grown.filter(has_usage(cpu)) == (seq![record] + later).filter(has_usage(cpu)) by {
        let pick = has_usage(cpu);
        Seq::filter_distributes_over_add(front + seq![record], back, pick);
        Seq::filter_distributes_over_add(front, seq![record], pick);
        Seq::filter_distributes_over_add(front, back, pick);
        Seq::filter_distributes_over_add(seq![record], later, pick);
        lemma_pick_single(record, cpu);
        assert(sorted.filter(pick) == later.filter(pick));
        if record.tiempo_cpu == cpu {
            lemma_pick_none(front, cpu);
            assert(seq![record] + back.filter(pick) =~= (Seq::<ProcesoView>::empty() + seq![
                record,
            ]) + back.filter(pick));
            assert(back.filter(pick) =~= Seq::<ProcesoView>::empty() + back.filter(pick));
        } else {
            assert(front.filter(pick) + Seq::<ProcesoView>::empty() =~= front.filter(pick));
            assert(Seq::<ProcesoView>::empty() + later.filter(pick) =~= later.filter(pick));
        }
    }
}

/// A list that runs from the highest usage to the lowest is in its own stable
/// order.
pub proof fn lemma_sorted_is_stable_order(records: Seq<ProcesoView>)
    requires
        sorted_by_usage(records),
    ensures
        is_stable_order(records, records),
{
}

/// Two lists that both run from the highest usage to the lowest and that hold,
/// for every usage, the same records of that usage in the same order, are one
/// and the same list.
proof fn lemma_same_picks_same_list(a: Seq<ProcesoView>, b: Seq<ProcesoView>)
    requires
        a.len() == b.len(),
        sorted_by_usage(a),
        sorted_by_usage(b),
        forall|cpu: u64| #[trigger] a.filter(has_usage(cpu)) == b.filter(has_usage(cpu)),
    ensures
        a == b,
    decreases a.len(),
{
    reveal(Seq::filter);
    if a.len() == 0 {
        assert(a =~= b);
    } else {
        let x = a.last();
        let y = b.last();
        let a_front = a.drop_last();
        let b_front = b.drop_last();
        // The last record of each list shows the least usage of that list, and
        // each list holds a record of the other's least usage.
        assert(b.filter(has_usage(y.tiempo_cpu)).len() > 0);
        assert(a.filter(has_usage(y.tiempo_cpu)) == b.filter(has_usage(y.tiempo_cpu)));
        assert(x.tiempo_cpu <= y.tiempo_cpu) by {
            if forall|k: int| 0 <= k < a.len() ==> a[k].tiempo_cpu != y.tiempo_cpu {
                lemma_pick_none(a, y.tiempo_cpu);
            } else {
                let k = choose|k: int| 0 <= k < a.len() && a[k].tiempo_cpu == y.tiempo_cpu;
                assert(k == a.len() - 1 || a[k].tiempo_cpu >= a[a.len() - 1].tiempo_cpu);
            }
        }
        assert(a.filter(has_usage(x.tiempo_cpu)).len() > 0);
        assert(a.filter(has_usage(x.tiempo_cpu)) == b.filter(has_usage(x.tiempo_cpu)));
        assert(y.tiempo_cpu <= x.tiempo_cpu) by {
            if forall|k: int| 0 <= k < b.len() ==> b[k].tiempo_cpu != x.tiempo_cpu {
                lemma_pick_none(b, x.tiempo_cpu);
            } else {
                let k = choose|k: int| 0 <= k < b.len() && b[k].tiempo_cpu == x.tiempo_cpu;
                assert(k == b.len() - 1 || b[k].tiempo_cpu >= b[b.len() - 1].tiempo_cpu);
            }
        }
        let least = x.tiempo_cpu;
        let a_picked = a_front.filter(has_usage(least));
        let b_picked = b_front.filter(has_usage(least));
        assert(a.filter(has_usage(least)) == a_picked.push(x));
        assert(b.filter(has_usage(least)) == b_picked.push(y));
        assert(x == y) by {
            assert(a_picked.push(x).last() == x);
            assert(b_picked.push(y).last() == y);
        }
        assert(a_picked == b_picked) by {
            assert(a_picked.push(x).drop_last() =~= a_picked);
            assert(b_picked.push(y).drop_last() =~= b_picked);
        }
        assert forall|cpu: u64| #[trigger]
            a_front.filter(has_usage(cpu)) == b_front.filter(has_usage(cpu)) by {
            assert(a.filter(has_usage(cpu)) == b.filter(has_usage(cpu)));
        }
        assert forall|i: int, j: int| 0 <= i < j < a_front.len() implies a_front[i].tiempo_cpu
            >= a_front[j].tiempo_cpu by {
            assert(a[i].tiempo_cpu >= a[j].tiempo_cpu);
        }
        assert forall|i: int, j: int| 0 <= i < j < b_front.len() implies b_front[i].tiempo_cpu
            >= b_front[j].tiempo_cpu by {
            assert(b[i].tiempo_cpu >= b[j].tiempo_cpu);
        }
        lemma_same_picks_same_list(a_front, b_front);
        assert(a =~= a_front.push(x));
        assert(b =~= b_front.push(y));
    }
}

/// A list has one stable order and no other.
pub proof fn lemma_stable_order_unique(
    a: Seq<ProcesoView>,
    b: Seq<ProcesoView>,
    records: Seq<ProcesoView>,
)
    requires
        is_stable_order(a, records),
        is_stable_order(b, records),
    ensures
        a == b,
{
    assert forall|cpu: u64| #[trigger] a.filter(has_usage(cpu)) == b.filter(has_usage(cpu)) by {
        assert(a.filter(has_usage(cpu)) == records.filter(has_usage(cpu)));
        assert(b.filter(has_usage(cpu)) == records.filter(has_usage(cpu)));
    }
    lemma_same_picks_same_list(a, b);
}

/// Sorts records by usage, busiest first. Records of equal usage keep the
/// order in which they came.
pub fn sort_by_usage(records: Vec<Proceso>) -> (sorted: Vec<Proceso>)
    ensures
        is_stable_order(views(sorted@), views(records@)),
        sorted@.to_multiset() == records@.to_multiset(),
{
    let ghost all = records@;
    let mut rest: Vec<Proceso> = records;
    let mut sorted: Vec<Proceso> = Vec::new();
    proof {
        assert(all.skip(all.len() as int) =~= Seq::<Proceso>::empty());
        assert(views(sorted@) =~= Seq::<ProcesoView>::empty());
        assert(views(Seq::<Proceso>::empty()) =~= Seq::<ProcesoView>::empty());
    }
    while rest.len() > 0
        invariant
            rest@ == all.take(rest.len() as int),
            rest.len() <= all.len(),
            is_stable_order(views(sorted@), views(all.skip(rest.len() as int))),
            sorted@.to_multiset() == all.skip(rest.len() as int).to_multiset(),
        decreases rest.len(),
    {
        let ghost later = all.skip(rest.len() as int);
        let ghost placed = sorted@;
        let record: Proceso = rest.pop().unwrap();
        let mut at: usize = 0;
        while at < sorted.len() && sorted[at].tiempo_cpu > record.tiempo_cpu
            invariant
                at <= sorted.len(),
                forall|k: int| 0 <= k < at ==> sorted@[k].tiempo_cpu > record.tiempo_cpu,
            decreases sorted.len() - at,
        {
            at += 1;
        }
        sorted.insert(at, record);
        proof {
            let now_later = all.skip(rest.len() as int);
            assert(now_later =~= later.insert(0, record));
            assert(views(now_later) =~= seq![record@] + views(later));
            assert(views(sorted@) =~= views(placed).insert(at as int, record@));
            lemma_insert_keeps_order(views(placed), views(later), at as int, record@);
            to_multiset_insert(placed, at as int, record);
            to_multiset_insert(later, 0, record);
        }
    }
    proof {
        assert(all.skip(0) =~= all);
    }
    sorted
}

} // verus!
