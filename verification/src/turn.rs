//! Turn point location: where a route passes from its outbound to its
//! inbound direction.

use crate::model::Stop;
use vstd::prelude::*;

verus! {

/// Index of the first stop at or after `from` whose successor has another
/// direction code; the last stop's index where there is none.
pub open spec fn first_direction_change(stops: Seq<Stop>, from: int) -> int
    decreases stops.len() - from,
{
    if from + 1 >= stops.len() {
        stops.len() - 1
    } else if stops[from].direction_code != stops[from + 1].direction_code {
        from
    } else {
        first_direction_change(stops, from + 1)
    }
}

/// Index of the turnaround stop: the earlier stop of the first neighbouring
/// pair whose direction codes differ, the last stop where all agree; -1 for
/// an empty list.
pub open spec fn turn_stop(stops: Seq<Stop>) -> int {
    first_direction_change(stops, 0)
}

/// Whether `t` is the turnaround stop of `stops`: all pairs before it agree
/// in direction, and either it is the last stop or it differs from its
/// successor.
pub open spec fn is_turn_stop(stops: Seq<Stop>, t: int) -> bool {
    &&& 0 <= t < stops.len()
    &&& forall|i: int|
        0 <= i < t ==> (#[trigger] stops[i]).direction_code == stops[i + 1].direction_code
    &&& t + 1 < stops.len() ==> stops[t].direction_code != stops[t + 1].direction_code
}

proof fn lemma_first_direction_change(stops: Seq<Stop>, from: int)
    requires
        0 <= from < stops.len(),
    ensures
        from <= first_direction_change(stops, from) < stops.len(),
        forall|i: int|
            from <= i < first_direction_change(stops, from) ==> (#[trigger] stops[i]).direction_code
                == stops[i + 1].direction_code,
        first_direction_change(stops, from) + 1 < stops.len() ==> stops[first_direction_change(
            stops,
            from,
        )].direction_code != stops[first_direction_change(stops, from) + 1].direction_code,
    decreases stops.len() - from,
{
    if from + 1 < stops.len() && stops[from].direction_code == stops[from + 1].direction_code {
        lemma_first_direction_change(stops, from + 1);
    }
}

/// `turn_stop` names the turnaround stop of a route that has stops, and
/// nothing else is one.
pub proof fn lemma_turn_stop(stops: Seq<Stop>)
    requires
        stops.len() > 0,
    ensures
        is_turn_stop(stops, turn_stop(stops)),
        forall|t: int| is_turn_stop(stops, t) ==> t == turn_stop(stops),
{
    lemma_first_direction_change(stops, 0);
    let found = turn_stop(stops);
    assert forall|t: int| is_turn_stop(stops, t) implies t == found by {
        if t < found {
            assert(stops[t].direction_code == stops[t + 1].direction_code);
        } else if found < t {
            assert(stops[found].direction_code == stops[found + 1].direction_code);
        }
    }
}

/// Where all stops run in one direction the turnaround is the last stop.
pub proof fn lemma_turn_stop_one_direction(stops: Seq<Stop>)
    requires
        stops.len() > 0,
        forall|i: int, j: int|
            0 <= i < stops.len() && 0 <= j < stops.len() ==> (#[trigger] stops[i]).direction_code
                == (#[trigger] stops[j]).direction_code,
    ensures
        turn_stop(stops) == stops.len() - 1,
{
    lemma_first_direction_change(stops, 0);
    let found = turn_stop(stops);
    if found + 1 < stops.len() {
        assert(stops[found].direction_code == stops[found + 1].direction_code);
    }
}

/// Finds the turnaround stop; `None` for a route without stops.
pub fn locate_turn_stop(stops: &Vec<Stop>) -> (r: Option<usize>)
    ensures
        r is Some <==> stops.len() > 0,
        r matches Some(t) ==> t == turn_stop(stops@) && is_turn_stop(stops@, t as int),
{
    if stops.len() == 0 {
        return None;
    }
    proof {
        lemma_turn_stop(stops@);
    }
    let mut i: usize = 0;
    while i + 1 < stops.len()
        invariant
            i < stops.len(),
            first_direction_change(stops@, i as int) == turn_stop(stops@),
            is_turn_stop(stops@, turn_stop(stops@)),
        decreases stops.len() - i,
    {
        if stops[i].direction_code != stops[i + 1].direction_code {
            assert(first_direction_change(stops@, i as int) == i);
            return Some(i);
        }
        assert(first_direction_change(stops@, i as int) == first_direction_change(
            stops@,
            i as int + 1,
        ));
        i += 1;
    }
    assert(first_direction_change(stops@, i as int) == i);
    Some(i)
}

/// Path index of the turnaround: the index map's entry for the turnaround
/// stop, and the path's midpoint where the map has none.
pub open spec fn turn_index(stops: Seq<Stop>, index_map: Seq<usize>, path_len: nat) -> nat {
    if 0 <= turn_stop(stops) < index_map.len() {
        index_map[turn_stop(stops)] as nat
    } else {
        path_len / 2
    }
}

/// Locates the turnaround of a route on its path of `path_len` points.
pub fn locate_turn_index(stops: &Vec<Stop>, index_map: &Vec<usize>, path_len: usize) -> (r: usize)
    ensures
        r == turn_index(stops@, index_map@, path_len as nat),
{
    match locate_turn_stop(stops) {
        Some(t) => {
            if t < index_map.len() {
                index_map[t]
            } else {
                path_len / 2
            }
        },
        None => path_len / 2,
    }
}

/// Where the index map has an entry on the path for every stop of a route
/// that has stops, the turnaround lies on the path.
pub proof fn lemma_turn_index_on_path(stops: Seq<Stop>, index_map: Seq<usize>, path_len: nat)
    requires
        stops.len() > 0,
        index_map.len() == stops.len(),
        forall|i: int| 0 <= i < index_map.len() ==> #[trigger] index_map[i] < path_len,
    ensures
        turn_index(stops, index_map, path_len) < path_len,
{
    lemma_turn_stop(stops);
}

} // verus!
