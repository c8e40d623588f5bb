//! Summary measures of a path: its bounding box and its length.

use crate::geometry::{quantized_path, PathPoint, COORDINATE_QUANTUM};
use crate::rounding::{lemma_round_half_away_monotone, round_half_away};
use vstd::prelude::*;

verus! {

/// Grid to which a reported length is rounded: a tenth of a metre, in
/// millimetres.
pub const DISTANCE_QUANTUM: u64 = 100;

/// Smallest box, in fixed-point units, that holds a set of points.
#[derive(Clone, Copy, Debug, PartialEq, Eq, Structural)]
pub struct BoundingBox {
    pub min_lon: i64,
    pub min_lat: i64,
    pub max_lon: i64,
    pub max_lat: i64,
}

/// Whether `b` is the bounding box of `path`: every point lies within it
/// and each of its four sides is touched by some point.
pub open spec fn is_bounding_box(path: Seq<PathPoint>, b: BoundingBox) -> bool {
    &&& forall|i: int|
        0 <= i < path.len() ==> b.min_lon <= (#[trigger] path[i])@.0 <= b.max_lon && b.min_lat
            <= path[i]@.1 <= b.max_lat
    &&& exists|i: int| 0 <= i < path.len() && (#[trigger] path[i])@.0 == b.min_lon
    &&& exists|i: int| 0 <= i < path.len() && (#[trigger] path[i])@.0 == b.max_lon
    &&& exists|i: int| 0 <= i < path.len() && (#[trigger] path[i])@.1 == b.min_lat
    &&& exists|i: int| 0 <= i < path.len() && (#[trigger] path[i])@.1 == b.max_lat
}

/// A path has at most one bounding box.
pub proof fn lemma_bounding_box_unique(path: Seq<PathPoint>, a: BoundingBox, b: BoundingBox)
    requires
        is_bounding_box(path, a),
        is_bounding_box(path, b),
    ensures
        a == b,
{
}

/// Computes the bounding box of `path`; `None` for a path without points.
pub fn bounding_box(path: &Vec<PathPoint>) -> (r: Option<BoundingBox>)
    ensures
        r is Some <==> path.len() > 0,
        r matches Some(b) ==> is_bounding_box(path@, b),
{
    if path.len() == 0 {
        return None;
    }
    let mut b = BoundingBox {
        min_lon: path[0].lon(),
        min_lat: path[0].lat(),
        max_lon: path[0].lon(),
        max_lat: path[0].lat(),
    };
    let mut i: usize = 1;
    assert(is_bounding_box(path@.take(1), b)) by {
        assert(path@.take(1)[0] == path[0]);
    }
    while i < path.len()
        invariant
            1 <= i <= path.len(),
            is_bounding_box(path@.take(i as int), b),
        decreases path.len() - i,
    {
        let ghost before = b;
        let ghost seen = path@.take(i as int);
        let ghost more = path@.take(i as int + 1);
        let lon = path[i].lon();
        let lat = path[i].lat();
        if lon < b.min_lon {
            b.min_lon = lon;
        }
        if lon > b.max_lon {
            b.max_lon = lon;
        }
        if lat < b.min_lat {
            b.min_lat = lat;
        }
        if lat > b.max_lat {
            b.max_lat = lat;
        }
        proof {
            assert(more[i as int] == path[i as int]);
            assert forall|k: int| 0 <= k < more.len() implies b.min_lon <= (#[trigger] more[k])@.0
                <= b.max_lon && b.min_lat <= more[k]@.1 <= b.max_lat by {
                if k < i {
                    assert(seen[k] == more[k]);
                }
            }
            let w0 = choose|k: int| 0 <= k < seen.len() && (#[trigger] seen[k])@.0 == before.min_lon;
            let w1 = choose|k: int| 0 <= k < seen.len() && (#[trigger] seen[k])@.0 == before.max_lon;
            let w2 = choose|k: int| 0 <= k < seen.len() && (#[trigger] seen[k])@.1 == before.min_lat;
            let w3 = choose|k: int| 0 <= k < seen.len() && (#[trigger] seen[k])@.1 == before.max_lat;
            assert(seen[w0] == more[w0] && seen[w1] == more[w1] && seen[w2] == more[w2] && seen[w3]
                == more[w3]);
            let x0 = if lon < before.min_lon { i as int } else { w0 };
            let x1 = if lon > before.max_lon { i as int } else { w1 };
            let x2 = if lat < before.min_lat { i as int } else { w2 };
            let x3 = if lat > before.max_lat { i as int } else { w3 };
            assert(0 <= x0 < more.len() && more[x0]@.0 == b.min_lon);
            assert(0 <= x1 < more.len() && more[x1]@.0 == b.max_lon);
            assert(0 <= x2 < more.len() && more[x2]@.1 == b.min_lat);
            assert(0 <= x3 < more.len() && more[x3]@.1 == b.max_lat);
        }
        i += 1;
    }
    assert(path@.take(path.len() as int) =~= path@);
    Some(b)
}

/// A box with each side rounded to the published grid.
pub open spec fn quantized_box(b: BoundingBox, q: BoundingBox) -> bool {
    &&& q.min_lon == round_half_away(b.min_lon as int, COORDINATE_QUANTUM as int)
    &&& q.min_lat == round_half_away(b.min_lat as int, COORDINATE_QUANTUM as int)
    &&& q.max_lon == round_half_away(b.max_lon as int, COORDINATE_QUANTUM as int)
    &&& q.max_lat == round_half_away(b.max_lat as int, COORDINATE_QUANTUM as int)
}

/// Rounding and bounding commute: the box of the rounded path is the
/// rounded box of the path.
pub proof fn lemma_bounding_box_of_quantized(
    path: Seq<PathPoint>,
    rounded: Seq<PathPoint>,
    b: BoundingBox,
    q: BoundingBox,
)
    requires
        is_bounding_box(path, b),
        quantized_path(path, rounded),
        quantized_box(b, q),
    ensures
        is_bounding_box(rounded, q),
{
    let quantum = COORDINATE_QUANTUM as int;
    assert forall|i: int| 0 <= i < rounded.len() implies q.min_lon <= (#[trigger] rounded[i])@.0
        <= q.max_lon && q.min_lat <= rounded[i]@.1 <= q.max_lat by {
        assert(b.min_lon <= path[i]@.0 <= b.max_lon);
        lemma_round_half_away_monotone(b.min_lon as int, path[i]@.0, quantum);
        lemma_round_half_away_monotone(path[i]@.0, b.max_lon as int, quantum);
        lemma_round_half_away_monotone(b.min_lat as int, path[i]@.1, quantum);
        lemma_round_half_away_monotone(path[i]@.1, b.max_lat as int, quantum);
    }
    let w0 = choose|k: int| 0 <= k < path.len() && (#[trigger] path[k])@.0 == b.min_lon;
    let w1 = choose|k: int| 0 <= k < path.len() && (#[trigger] path[k])@.0 == b.max_lon;
    let w2 = choose|k: int| 0 <= k < path.len() && (#[trigger] path[k])@.1 == b.min_lat;
    let w3 = choose|k: int| 0 <= k < path.len() && (#[trigger] path[k])@.1 == b.max_lat;
    assert(rounded[w0]@.0 == q.min_lon);
    assert(rounded[w1]@.0 == q.max_lon);
    assert(rounded[w2]@.1 == q.min_lat);
    assert(rounded[w3]@.1 == q.max_lat);
}

/// Sum of the lengths `lengths`.
pub open spec fn sum_lengths(lengths: Seq<u64>) -> nat
    decreases lengths.len(),
{
    if lengths.len() == 0 {
        0
    } else {
        sum_lengths(lengths.drop_last()) + lengths.last() as nat
    }
}

/// A sum of lengths is at most as many times the largest length.
pub proof fn lemma_sum_lengths_bound(lengths: Seq<u64>)
    ensures
        sum_lengths(lengths) <= lengths.len() * u64::MAX,
    decreases lengths.len(),
{
    if lengths.len() > 0 {
        lemma_sum_lengths_bound(lengths.drop_last());
        assert((lengths.len() - 1) * u64::MAX + u64::MAX == lengths.len() * u64::MAX)
            by (nonlinear_arith);
    }
}

/// Length of a path, in millimetres, from the lengths of its segments.
pub fn total_distance(segment_lengths: &Vec<u64>) -> (r: u128)
    ensures
        r == sum_lengths(segment_lengths@),
{
    let mut total: u128 = 0;
    let mut i: usize = 0;
    assert(segment_lengths@.take(0).len() == 0);
    while i < segment_lengths.len()
        invariant
            i <= segment_lengths.len(),
            total == sum_lengths(segment_lengths@.take(i as int)),
        decreases segment_lengths.len() - i,
    {
        proof {
            let more = segment_lengths@.take(i as int + 1);
            assert(more.drop_last() =~= segment_lengths@.take(i as int));
            assert(more.last() == segment_lengths[i as int]);
            lemma_sum_lengths_bound(more);
            assert(more.len() * u64::MAX <= u64::MAX * u64::MAX) by (nonlinear_arith)
                requires
                    more.len() <= u64::MAX,
            ;
            assert(u64::MAX * u64::MAX < u128::MAX) by (nonlinear_arith);
        }
        total = total + segment_lengths[i] as u128;
        i += 1;
    }
    assert(segment_lengths@.take(segment_lengths.len() as int) =~= segment_lengths@);
    total
}

/// Length of a path as it is reported: the sum of its segments' lengths
/// rounded to a tenth of a metre, in millimetres.
pub open spec fn reported_length(lengths: Seq<u64>) -> int {
    round_half_away(sum_lengths(lengths) as int, DISTANCE_QUANTUM as int)
}

/// Computes the length of a path as it is reported.
pub fn reported_distance(segment_lengths: &Vec<u64>) -> (r: u128)
    ensures
        r == reported_length(segment_lengths@),
{
    let total = total_distance(segment_lengths);
    let n = segment_lengths.len();
    proof {
        lemma_sum_lengths_bound(segment_lengths@);
        assert(n * u64::MAX <= u64::MAX * u64::MAX) by (nonlinear_arith)
            requires
                n <= u64::MAX,
        ;
        assert(u64::MAX * u64::MAX + 200 < u128::MAX) by (nonlinear_arith);
    }
    let whole: u128 = total / 100;
    let rest: u128 = total % 100;
    let k: u128 = if rest >= 50 { whole + 1 } else { whole };
    proof {
        let t = total as int;
        vstd::arithmetic::div_mod::lemma_fundamental_div_mod(t, 100);
        if rest >= 50 {
            vstd::arithmetic::div_mod::lemma_fundamental_div_mod_converse(
                2 * t + 100,
                200,
                whole + 1,
                2 * rest - 100,
            );
        } else {
            vstd::arithmetic::div_mod::lemma_fundamental_div_mod_converse(
                2 * t + 100,
                200,
                whole as int,
                2 * rest + 100,
            );
        }
    }
    k * 100
}

} // verus!
