//! Intake of a route: whether it can be used, and its stops put in
//! visiting order.

use crate::model::{distinct_nodes, in_visiting_order, Stop};
use crate::text::{chars_equal, chars_of, str_equal};
use vstd::prelude::*;

verus! {

/// Route number that stands for a route whose number is not known.
pub open spec fn unknown_route_number() -> Seq<char> {
    "UNKNOWN"@
}

/// Whether a route can be processed: it has an id and a known number.
pub open spec fn usable_route(route_id: Seq<char>, route_number: Seq<char>) -> bool {
    route_id.len() > 0 && route_number != unknown_route_number()
}

/// Decides whether a route can be processed.
pub fn is_usable_route(route_id: &str, route_number: &str) -> (r: bool)
    ensures
        r == usable_route(route_id@, route_number@),
{
    let unknown = str_equal(route_number, "UNKNOWN");
    let id = chars_of(route_id);
    !unknown && id.len() > 0
}

/// Where a stop of order `order` goes into `sorted`: behind every stop
/// from the end backwards whose order is larger, so behind all of its own
/// order.
pub open spec fn insertion_point(sorted: Seq<Stop>, order: int) -> int
    decreases sorted.len(),
{
    if sorted.len() == 0 {
        0
    } else if sorted.last().sequence_order <= order {
        sorted.len() as int
    } else {
        insertion_point(sorted.drop_last(), order)
    }
}

/// The stops in visiting order: each stop in turn is put behind those
/// before it that have the same or a smaller order.
pub open spec fn sorted_by_order(stops: Seq<Stop>) -> Seq<Stop>
    decreases stops.len(),
{
    if stops.len() == 0 {
        Seq::empty()
    } else {
        let front = sorted_by_order(stops.drop_last());
        front.insert(insertion_point(front, stops.last().sequence_order as int), stops.last())
    }
}

proof fn lemma_insertion_point(sorted: Seq<Stop>, order: int)
    requires
        in_visiting_order(sorted),
    ensures
        0 <= insertion_point(sorted, order) <= sorted.len(),
        forall|i: int|
            0 <= i < insertion_point(sorted, order) ==> (#[trigger] sorted[i]).sequence_order
                <= order,
        forall|i: int|
            insertion_point(sorted, order) <= i < sorted.len() ==> (
            #[trigger] sorted[i]).sequence_order > order,
    decreases sorted.len(),
{
    if sorted.len() > 0 {
        if sorted.last().sequence_order <= order {
            assert forall|i: int| 0 <= i < sorted.len() implies (
            #[trigger] sorted[i]).sequence_order <= order by {
                assert(sorted[i].sequence_order <= sorted[sorted.len() - 1].sequence_order);
            }
        } else {
            let front = sorted.drop_last();
            assert forall|i: int, j: int| 0 <= i <= j < front.len() implies (
            #[trigger] front[i]).sequence_order <= (#[trigger] front[j]).sequence_order by {
                assert(front[i] == sorted[i] && front[j] == sorted[j]);
            }
            lemma_insertion_point(front, order);
            assert forall|i: int| 0 <= i < insertion_point(sorted, order) implies (
            #[trigger] sorted[i]).sequence_order <= order by {
                assert(front[i] == sorted[i]);
            }
            assert forall|i: int| insertion_point(sorted, order) <= i < sorted.len() implies (
            #[trigger] sorted[i]).sequence_order > order by {
                if i < front.len() {
                    assert(front[i] == sorted[i]);
                }
            }
        }
    }
}

/// `sorted_by_order` gives the same stops, each as often as before, in
/// ascending order.
pub proof fn lemma_sorted_by_order(stops: Seq<Stop>)
    ensures
        sorted_by_order(stops).len() == stops.len(),
        in_visiting_order(sorted_by_order(stops)),
        sorted_by_order(stops).to_multiset() == stops.to_multiset(),
    decreases stops.len(),
{
    broadcast use vstd::seq_lib::group_to_multiset_ensures;

    if stops.len() == 0 {
        assert(sorted_by_order(stops) =~= stops);
    } else {
        let front = sorted_by_order(stops.drop_last());
        let last = stops.last();
        let at = insertion_point(front, last.sequence_order as int);
        let out = sorted_by_order(stops);
        lemma_sorted_by_order(stops.drop_last());
        lemma_insertion_point(front, last.sequence_order as int);
        assert forall|i: int, j: int| 0 <= i <= j < out.len() implies (
        #[trigger] out[i]).sequence_order <= (#[trigger] out[j]).sequence_order by {
            let a = if i < at { i } else { i - 1 };
            let b = if j < at { j } else { j - 1 };
            if i != at && j != at {
                assert(out[i] == front[a] && out[j] == front[b]);
            } else if i == at && j != at {
                assert(out[j] == front[b]);
            } else if j == at && i != at {
                assert(out[i] == front[a]);
            }
        }
        vstd::seq_lib::to_multiset_insert(front, at, last);
        assert(stops =~= stops.drop_last().push(last));
        assert(stops.to_multiset() == stops.drop_last().to_multiset().insert(last));
    }
}

/// Stops that are in visiting order already stay as they are.
pub proof fn lemma_sorted_by_order_keeps_sorted(stops: Seq<Stop>)
    requires
        in_visiting_order(stops),
    ensures
        sorted_by_order(stops) == stops,
    decreases stops.len(),
{
    if stops.len() == 0 {
        assert(sorted_by_order(stops) =~= stops);
    } else {
        let front = stops.drop_last();
        assert forall|i: int, j: int| 0 <= i <= j < front.len() implies (
        #[trigger] front[i]).sequence_order <= (#[trigger] front[j]).sequence_order by {
            assert(front[i] == stops[i] && front[j] == stops[j]);
        }
        lemma_sorted_by_order_keeps_sorted(front);
        if front.len() > 0 {
            assert(front.last() == stops[stops.len() - 2]);
            assert(stops[stops.len() - 2].sequence_order <= stops[stops.len()
                - 1].sequence_order);
        }
        assert(insertion_point(front, stops.last().sequence_order as int) == front.len());
        assert(sorted_by_order(stops) =~= stops);
    }
}

/// Puts the stops of a route in visiting order, ascending by
/// `sequence_order`; stops of one order keep the order they came in.
pub fn sort_stops(stops: &Vec<Stop>) -> (r: Vec<Stop>)
    ensures
        r@ == sorted_by_order(stops@),
        r.len() == stops.len(),
        in_visiting_order(r@),
        r@.to_multiset() == stops@.to_multiset(),
{
    let mut out: Vec<Stop> = Vec::new();
    let mut i: usize = 0;
    assert(stops@.take(0) =~= Seq::empty());
    while i < stops.len()
        invariant
            i <= stops.len(),
            out@ == sorted_by_order(stops@.take(i as int)),
            out.len() == i,
        decreases stops.len() - i,
    {
        let order = stops[i].sequence_order;
        let mut at: usize = out.len();
        assert(out@.take(at as int) =~= out@);
        while at > 0 && out[at - 1].sequence_order > order
            invariant
                at <= out.len(),
                insertion_point(out@, order as int) == insertion_point(
                    out@.take(at as int),
                    order as int,
                ),
            decreases at,
        {
            assert(out@.take(at as int).drop_last() =~= out@.take(at as int - 1));
            at -= 1;
        }
        proof {
            let more = stops@.take(i as int + 1);
            assert(more.drop_last() =~= stops@.take(i as int));
            assert(more.last() == stops[i as int]);
            if at > 0 {
                assert(out@.take(at as int).last() == out[at as int - 1]);
            }
            assert(insertion_point(out@.take(at as int), order as int) == at);
        }
        out.insert(at, stops[i].duplicate());
        i += 1;
    }
    proof {
        assert(stops@.take(stops.len() as int) =~= stops@);
        lemma_sorted_by_order(stops@);
    }
    out
}

/// Whether `order` lists the places of `stops` in visiting order: every
/// place once, ascending by `sequence_order`, and of stops of one order the
/// one that came first before the other.
pub open spec fn is_visiting_order(stops: Seq<Stop>, order: Seq<usize>) -> bool {
    &&& order.len() == stops.len()
    &&& forall|i: int| 0 <= i < order.len() ==> #[trigger] order[i] < stops.len()
    &&& forall|i: int, j: int|
        0 <= i < j < order.len() ==> stops[#[trigger] order[i] as int].sequence_order
            < stops[#[trigger] order[j] as int].sequence_order || (stops[order[i] as int].sequence_order
            == stops[order[j] as int].sequence_order && order[i] < order[j])
}

/// Finds the visiting order of the stops: for each place in the sorted
/// list the place of its stop in `stops`.
pub fn visiting_order(stops: &Vec<Stop>) -> (r: Vec<usize>)
    ensures
        is_visiting_order(stops@, r@),
        forall|i: int| 0 <= i < r.len() ==> sorted_by_order(stops@)[i] == stops[#[trigger] r[i] as int],
{
    let mut order: Vec<usize> = Vec::new();
    let mut k: usize = 0;
    assert(stops@.take(0) =~= Seq::empty());
    while k < stops.len()
        invariant
            k <= stops.len(),
            order.len() == k,
            sorted_by_order(stops@.take(k as int)).len() == k,
            forall|i: int| 0 <= i < k ==> #[trigger] order[i] < k,
            forall|i: int, j: int|
                0 <= i < j < k ==> stops[#[trigger] order[i] as int].sequence_order
                    < stops[#[trigger] order[j] as int].sequence_order || (stops[order[i] as int].sequence_order
                    == stops[order[j] as int].sequence_order && order[i] < order[j]),
            forall|i: int|
                0 <= i < k ==> sorted_by_order(stops@.take(k as int))[i] == stops[#[trigger] order[i] as int],
        decreases stops.len() - k,
    {
        let key = stops[k].sequence_order;
        let ghost sorted = sorted_by_order(stops@.take(k as int));
        let mut at: usize = k;
        assert(sorted.take(at as int) =~= sorted);
        while at > 0 && stops[order[at - 1]].sequence_order > key
            invariant
                at <= k < stops.len(),
                order.len() == k,
                sorted.len() == k,
                forall|i: int| 0 <= i < k ==> #[trigger] order[i] < k,
                forall|i: int| 0 <= i < k ==> sorted[i] == stops[#[trigger] order[i] as int],
                forall|i: int| at <= i < k ==> stops[#[trigger] order[i] as int].sequence_order > key,
                insertion_point(sorted, key as int) == insertion_point(
                    sorted.take(at as int),
                    key as int,
                ),
            decreases at,
        {
            assert(sorted.take(at as int).last() == sorted[at as int - 1]);
            assert(sorted.take(at as int).drop_last() =~= sorted.take(at as int - 1));
            at -= 1;
        }
        proof {
            let more = stops@.take(k as int + 1);
            assert(more.drop_last() =~= stops@.take(k as int));
            assert(more.last() == stops[k as int]);
            if at > 0 {
                assert(sorted.take(at as int).last() == sorted[at as int - 1]);
                assert(sorted[at as int - 1] == stops[order[at as int - 1] as int]);
            }
            assert(insertion_point(sorted.take(at as int), key as int) == at);
            assert(sorted_by_order(more) == sorted.insert(at as int, stops[k as int]));
            // Every place before `at` holds a stop of an order that is not larger.
            assert forall|i: int| 0 <= i < at implies stops[#[trigger] order[i] as int].sequence_order
                <= key by {
                if i < at - 1 {
                    assert(stops[order[i] as int].sequence_order <= stops[order[at as int
                        - 1] as int].sequence_order);
                }
            }
        }
        let ghost before = order@;
        order.insert(at, k);
        proof {
            let more = stops@.take(k as int + 1);
            assert forall|i: int| 0 <= i < k + 1 implies sorted_by_order(more)[i]
                == stops[#[trigger] order[i] as int] by {
                if i < at {
                    assert(order[i] == before[i]);
                } else if i > at {
                    assert(order[i] == before[i - 1]);
                }
            }
            assert forall|i: int, j: int| 0 <= i < j < k + 1 implies stops[#[trigger] order[i] as int].sequence_order
                < stops[#[trigger] order[j] as int].sequence_order || (stops[order[i] as int].sequence_order
                == stops[order[j] as int].sequence_order && order[i] < order[j]) by {
                let a = if i < at { i } else { i - 1 };
                let b = if j < at { j } else { j - 1 };
                if i != at && j != at {
                    assert(order[i] == before[a] && order[j] == before[b]);
                } else if i == at {
                    assert(order[j] == before[b]);
                } else {
                    assert(order[i] == before[a]);
                    assert(before[a] < k);
                }
            }
            assert forall|i: int| 0 <= i < k + 1 implies #[trigger] order[i] < k + 1 by {
                if i < at {
                    assert(order[i] == before[i]);
                } else if i > at {
                    assert(order[i] == before[i - 1]);
                }
            }
        }
        k += 1;
    }
    assert(stops@.take(stops.len() as int) =~= stops@);
    order
}

/// Whether the stops are in visiting order.
pub fn is_in_visiting_order(stops: &Vec<Stop>) -> (r: bool)
    ensures
        r == in_visiting_order(stops@),
{
    if stops.len() < 2 {
        return true;
    }
    let mut i: usize = 0;
    while i + 1 < stops.len()
        invariant
            i + 1 <= stops.len(),
            forall|a: int, b: int|
                0 <= a <= b <= i ==> (#[trigger] stops[a]).sequence_order <= (
                #[trigger] stops[b]).sequence_order,
        decreases stops.len() - i,
    {
        if stops[i].sequence_order > stops[i + 1].sequence_order {
            return false;
        }
        assert forall|a: int, b: int| 0 <= a <= b <= i + 1 implies (
        #[trigger] stops[a]).sequence_order <= (#[trigger] stops[b]).sequence_order by {
            if b == i + 1 && a <= i {
                assert(stops[a].sequence_order <= stops[i as int].sequence_order);
            }
        }
        i += 1;
    }
    true
}

/// Whether no two of the stops share a `node_id`.
pub fn has_distinct_nodes(stops: &Vec<Stop>) -> (r: bool)
    ensures
        r == distinct_nodes(stops@),
{
    let mut j: usize = 0;
    while j < stops.len()
        invariant
            j <= stops.len(),
            forall|a: int, b: int|
                0 <= a < b < j ==> (#[trigger] stops[a]).node_id@ != (#[trigger] stops[b]).node_id@,
        decreases stops.len() - j,
    {
        let id = chars_of(stops[j].node_id.as_str());
        let mut i: usize = 0;
        while i < j
            invariant
                i <= j < stops.len(),
                id@ == stops[j as int].node_id@,
                forall|a: int| 0 <= a < i ==> (#[trigger] stops[a]).node_id@ != id@,
            decreases j - i,
        {
            let other = chars_of(stops[i].node_id.as_str());
            if chars_equal(&other, &id) {
                assert(stops[i as int].node_id@ == stops[j as int].node_id@);
                return false;
            }
            i += 1;
        }
        j += 1;
    }
    true
}

/// Whether the stops can stand as a route's stop list: in visiting order,
/// no node twice.
pub fn is_route_stop_list(stops: &Vec<Stop>) -> (r: bool)
    ensures
        r == (in_visiting_order(stops@) && distinct_nodes(stops@)),
{
    is_in_visiting_order(stops) && has_distinct_nodes(stops)
}

} // verus!
