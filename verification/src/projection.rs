//! Projection of a point onto a line of points, in the plane of
//! longitude and latitude.

use crate::geometry::{
    find_nearest_coord_index, first_nearest, on_globe, planar_distance_squared, PathPoint,
};
use crate::rounding::{
    lemma_round_half_away_fixes_multiples, lemma_round_half_away_monotone,
    lemma_round_half_away_nearest, round_half_away,
};
use vstd::prelude::*;

verus! {

/// How far along the segment from `a` to `b` the point `p` lies, as the
/// inner product of `p - a` and `b - a`: 0 or less before `a`, the squared
/// length of the segment or more behind `b`.
pub open spec fn along(p: (int, int), a: (int, int), b: (int, int)) -> int {
    (p.0 - a.0) * (b.0 - a.0) + (p.1 - a.1) * (b.1 - a.1)
}

/// Squared length of the segment from `a` to `b`.
pub open spec fn span(a: (int, int), b: (int, int)) -> int {
    (b.0 - a.0) * (b.0 - a.0) + (b.1 - a.1) * (b.1 - a.1)
}

/// The whole number nearest to `n / d`, a tie going away from zero.
pub open spec fn rounded_quotient(n: int, d: int) -> int
    recommends
        d > 0,
{
    round_half_away(n, d) / d
}

/// The point of the segment from `a` to `b` nearest to `p`: `a` where the
/// segment has no length or `p` lies before it, `b` where `p` lies behind
/// it, and else the foot of the perpendicular from `p`, each coordinate
/// rounded to the nearest unit.
pub open spec fn projected(p: (int, int), a: (int, int), b: (int, int)) -> (int, int) {
    if span(a, b) == 0 || along(p, a, b) <= 0 {
        a
    } else if along(p, a, b) >= span(a, b) {
        b
    } else {
        (
            a.0 + rounded_quotient((b.0 - a.0) * along(p, a, b), span(a, b)),
            a.1 + rounded_quotient((b.1 - a.1) * along(p, a, b), span(a, b)),
        )
    }
}

/// A part `t / d` of a step, rounded, is no longer than the step and
/// points the same way.
pub proof fn lemma_rounded_part(step: int, t: int, d: int)
    requires
        0 < t < d,
    ensures
        step >= 0 ==> 0 <= rounded_quotient(step * t, d) <= step,
        step <= 0 ==> step <= rounded_quotient(step * t, d) <= 0,
{
    let n = step * t;
    lemma_round_half_away_nearest(n, d);
    let r = round_half_away(n, d);
    vstd::arithmetic::div_mod::lemma_fundamental_div_mod(r, d);
    let q = r / d;
    assert(r == d * q);
    if step >= 0 {
        assert(0 <= n <= step * d) by (nonlinear_arith)
            requires
                n == step * t,
                0 < t < d,
                step >= 0,
        ;
        lemma_round_half_away_monotone(n, step * d, d);
        assert((step * d) % d == 0) by {
            vstd::arithmetic::div_mod::lemma_mod_multiples_basic(step, d);
        }
        lemma_round_half_away_fixes_multiples(step * d, d);
        assert(0 <= q <= step) by (nonlinear_arith)
            requires
                r == d * q,
                0 <= r <= step * d,
                d > 0,
        ;
    }
    if step <= 0 {
        assert(step * d <= n <= 0) by (nonlinear_arith)
            requires
                n == step * t,
                0 < t < d,
                step <= 0,
        ;
        lemma_round_half_away_monotone(step * d, n, d);
        assert((step * d) % d == 0) by {
            vstd::arithmetic::div_mod::lemma_mod_multiples_basic(step, d);
        }
        lemma_round_half_away_fixes_multiples(step * d, d);
        assert(step <= q <= 0) by (nonlinear_arith)
            requires
                r == d * q,
                step * d <= r <= 0,
                d > 0,
        ;
    }
}

/// The projection onto a segment lies within the box that the segment's
/// two ends span, and so on the globe where they do.
pub proof fn lemma_projected_between(p: (int, int), a: (int, int), b: (int, int))
    ensures
        a.0 <= b.0 ==> a.0 <= projected(p, a, b).0 <= b.0,
        b.0 <= a.0 ==> b.0 <= projected(p, a, b).0 <= a.0,
        a.1 <= b.1 ==> a.1 <= projected(p, a, b).1 <= b.1,
        b.1 <= a.1 ==> b.1 <= projected(p, a, b).1 <= a.1,
        on_globe(a.0, a.1) && on_globe(b.0, b.1) ==> on_globe(
            projected(p, a, b).0,
            projected(p, a, b).1,
        ),
{
    if !(span(a, b) == 0 || along(p, a, b) <= 0) && along(p, a, b) < span(a, b) {
        lemma_rounded_part(b.0 - a.0, along(p, a, b), span(a, b));
        lemma_rounded_part(b.1 - a.1, along(p, a, b), span(a, b));
    }
}

/// Computes `rounded_quotient` for a part of a step.
fn round_part(step: i128, t: i128, d: i128) -> (r: i128)
    requires
        -360_000_000_000 <= step <= 360_000_000_000,
        0 < t < d,
        d <= 200_000_000_000_000_000_000_000,
    ensures
        r == rounded_quotient(step as int * t as int, d as int),
{
    let size: i128 = if step >= 0 { step } else { -step };
    assert(0 <= size * t <= 360_000_000_000 * 200_000_000_000_000_000_000_000) by (nonlinear_arith)
        requires
            0 <= size <= 360_000_000_000,
            0 < t < 200_000_000_000_000_000_000_000,
    ;
    let m: i128 = size * t;
    let k: i128 = (2 * m + d) / (2 * d);
    proof {
        let n = step as int * t as int;
        assert(m == if n >= 0 { n } else { -n }) by (nonlinear_arith)
            requires
                m == size * t,
                size == if step >= 0 { step as int } else { -step },
                n == step * t,
                t > 0,
        ;
        assert(n >= 0 <==> step >= 0) by (nonlinear_arith)
            requires
                n == step * t,
                t > 0,
        ;
        lemma_rounded_part(step as int, t as int, d as int);
        vstd::arithmetic::div_mod::lemma_div_multiples_vanish(k as int, d as int);
        if step < 0 {
            assert(-(k * d) == (-k) * d) by (nonlinear_arith);
            vstd::arithmetic::div_mod::lemma_div_multiples_vanish(-k as int, d as int);
        }
    }
    if step >= 0 {
        k
    } else {
        -k
    }
}

impl PathPoint {
    /// The point of the segment from `a` to `b` nearest to this point.
    pub fn project_onto_segment(&self, a: &PathPoint, b: &PathPoint) -> (r: PathPoint)
        ensures
            r@ == projected(self@, a@, b@),
    {
        let (px, py) = (self.lon() as i128, self.lat() as i128);
        let (ax, ay) = (a.lon() as i128, a.lat() as i128);
        let (bx, by) = (b.lon() as i128, b.lat() as i128);
        let (dx, dy) = (bx - ax, by - ay);
        let (ux, uy) = (px - ax, py - ay);
        assert(-129_600_000_000_000_000_000_000 <= ux * dx <= 129_600_000_000_000_000_000_000)
            by (nonlinear_arith)
            requires
                -360_000_000_000 <= ux <= 360_000_000_000,
                -360_000_000_000 <= dx <= 360_000_000_000,
        ;
        assert(-32_400_000_000_000_000_000_000 <= uy * dy <= 32_400_000_000_000_000_000_000)
            by (nonlinear_arith)
            requires
                -180_000_000_000 <= uy <= 180_000_000_000,
                -180_000_000_000 <= dy <= 180_000_000_000,
        ;
        assert(0 <= dx * dx <= 129_600_000_000_000_000_000_000) by (nonlinear_arith)
            requires
                -360_000_000_000 <= dx <= 360_000_000_000,
        ;
        assert(0 <= dy * dy <= 32_400_000_000_000_000_000_000) by (nonlinear_arith)
            requires
                -180_000_000_000 <= dy <= 180_000_000_000,
        ;
        let t: i128 = ux * dx + uy * dy;
        let d: i128 = dx * dx + dy * dy;
        assert(t == along(self@, a@, b@) && d == span(a@, b@));
        if d == 0 || t <= 0 {
            *a
        } else if t >= d {
            *b
        } else {
            let qx = round_part(dx, t, d);
            let qy = round_part(dy, t, d);
            proof {
                lemma_projected_between(self@, a@, b@);
            }
            let found = PathPoint::new((ax + qx) as i64, (ay + qy) as i64);
            found.unwrap()
        }
    }
}

/// The projections of `p` onto the segments of `line`, in order; onto its
/// one point where it has no segment; none for a line without points.
pub open spec fn projections(p: (int, int), line: Seq<PathPoint>) -> Seq<(int, int)> {
    if line.len() == 0 {
        Seq::empty()
    } else if line.len() == 1 {
        seq![line[0]@]
    } else {
        Seq::new((line.len() - 1) as nat, |i: int| projected(p, line[i]@, line[i + 1]@))
    }
}

/// Whether `points` are the projections of `p` onto the segments of
/// `line`.
pub open spec fn are_projections(points: Seq<PathPoint>, p: (int, int), line: Seq<PathPoint>) -> bool {
    &&& points.len() == projections(p, line).len()
    &&& forall|i: int| 0 <= i < points.len() ==> (#[trigger] points[i])@ == projections(p, line)[i]
}

/// Index of the pair of `pairs` nearest to `target` by planar distance,
/// the earliest such index where several are equally near; 0 where there is
/// no pair.
pub open spec fn nearest_pair(target: (int, int), pairs: Seq<(int, int)>) -> int
    decreases pairs.len(),
{
    if pairs.len() <= 1 {
        0
    } else {
        let best = nearest_pair(target, pairs.drop_last());
        if planar_distance_squared(target, pairs.last()) < planar_distance_squared(
            target,
            pairs[best],
        ) {
            pairs.len() - 1
        } else {
            best
        }
    }
}

/// The nearest of points is found at the index of the nearest of their
/// coordinate pairs.
pub proof fn lemma_nearest_by_pairs(target: (int, int), points: Seq<PathPoint>, pairs: Seq<(int, int)>)
    requires
        points.len() == pairs.len(),
        forall|i: int| 0 <= i < points.len() ==> (#[trigger] points[i])@ == pairs[i],
    ensures
        first_nearest(target, points) == nearest_pair(target, pairs),
        0 <= nearest_pair(target, pairs),
        pairs.len() > 0 ==> nearest_pair(target, pairs) < pairs.len(),
    decreases points.len(),
{
    if points.len() > 1 {
        let front = points.drop_last();
        assert forall|i: int| 0 <= i < front.len() implies (#[trigger] front[i])@
            == pairs.drop_last()[i] by {
            assert(front[i] == points[i]);
        }
        lemma_nearest_by_pairs(target, front, pairs.drop_last());
        let best = first_nearest(target, front);
        assert(points[best]@ == pairs[best]);
        assert(points.last()@ == pairs.last());
    }
}

/// Projects `p` onto each segment of `line`.
pub fn project_onto_segments(p: &PathPoint, line: &Vec<PathPoint>) -> (r: Vec<PathPoint>)
    ensures
        are_projections(r@, p@, line@),
{
    let mut out: Vec<PathPoint> = Vec::new();
    if line.len() == 0 {
        return out;
    }
    if line.len() == 1 {
        out.push(line[0]);
        return out;
    }
    let last = line.len() - 1;
    let mut i: usize = 0;
    while i < last
        invariant
            last == line.len() - 1,
            i <= last,
            out.len() == i,
            forall|k: int| 0 <= k < i ==> (#[trigger] out[k])@ == projected(
                p@,
                line[k]@,
                line[k + 1]@,
            ),
        decreases last - i,
    {
        out.push(p.project_onto_segment(&line[i], &line[i + 1]));
        i += 1;
    }
    out
}

/// Finds the point on the line of points `line` nearest to `p` by planar
/// distance: the nearest of the projections of `p` onto the segments of the
/// line, the earliest of several equally near. `None` for a line without
/// points.
pub fn closest_point_on_polyline(p: &PathPoint, line: &Vec<PathPoint>) -> (r: Option<PathPoint>)
    ensures
        r is Some <==> line.len() > 0,
        r matches Some(found) ==> found@ == projections(p@, line@)[nearest_pair(
            p@,
            projections(p@, line@),
        )],
{
    if line.len() == 0 {
        return None;
    }
    let points = project_onto_segments(p, line);
    proof {
        lemma_nearest_by_pairs(p@, points@, projections(p@, line@));
    }
    match find_nearest_coord_index(p, &points) {
        Some(at) => Some(points[at]),
        None => None,
    }
}

} // verus!
