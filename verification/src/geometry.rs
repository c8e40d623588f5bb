//! Fixed-point geographic points and the planar measures taken between them.

use crate::rounding::{
    lemma_round_half_away_fixes_multiples, lemma_round_half_away_idempotent,
    lemma_round_half_away_monotone, round_half_away, round_to_multiple,
};
use vstd::prelude::*;

verus! {

/// Fixed-point units in one degree: a coordinate counts billionths of a degree.
pub const UNITS_PER_DEGREE: i64 = 1_000_000_000;

/// Largest magnitude of a longitude, in units.
pub const MAX_LONGITUDE: i64 = 180_000_000_000;

/// Largest magnitude of a latitude, in units.
pub const MAX_LATITUDE: i64 = 90_000_000_000;

/// Grid to which published coordinates are rounded: a millionth of a degree.
pub const COORDINATE_QUANTUM: i64 = 1_000;

/// Whether `(lon, lat)`, in units, lies on the globe.
pub open spec fn on_globe(lon: int, lat: int) -> bool {
    &&& -MAX_LONGITUDE <= lon <= MAX_LONGITUDE
    &&& -MAX_LATITUDE <= lat <= MAX_LATITUDE
}

/// Squared planar distance, in square units, between two coordinate pairs.
pub open spec fn planar_distance_squared(a: (int, int), b: (int, int)) -> int {
    (a.0 - b.0) * (a.0 - b.0) + (a.1 - b.1) * (a.1 - b.1)
}

/// A position as `(longitude, latitude)` in fixed-point units, always on the
/// globe.
#[derive(Clone, Copy, Debug, PartialEq, Eq, Structural)]
pub struct PathPoint {
    lon: i64,
    lat: i64,
}

impl View for PathPoint {
    type V = (int, int);

    closed spec fn view(&self) -> (int, int) {
        (self.lon as int, self.lat as int)
    }
}

impl PathPoint {
    #[verifier::type_invariant]
    spec fn valid(self) -> bool {
        on_globe(self.lon as int, self.lat as int)
    }

    /// The point at `(lon, lat)`, or `None` when that is off the globe.
    pub fn new(lon: i64, lat: i64) -> (r: Option<PathPoint>)
        ensures
            r is Some <==> on_globe(lon as int, lat as int),
            r matches Some(p) ==> p@ == (lon as int, lat as int),
    {
        if -MAX_LONGITUDE <= lon && lon <= MAX_LONGITUDE && -MAX_LATITUDE <= lat && lat
            <= MAX_LATITUDE {
            Some(PathPoint { lon, lat })
        } else {
            None
        }
    }

    /// Longitude in units.
    pub fn lon(&self) -> (r: i64)
        ensures
            r == self@.0,
            on_globe(self@.0, self@.1),
    {
        proof {
            use_type_invariant(self);
        }
        self.lon
    }

    /// Latitude in units.
    pub fn lat(&self) -> (r: i64)
        ensures
            r == self@.1,
            on_globe(self@.0, self@.1),
    {
        proof {
            use_type_invariant(self);
        }
        self.lat
    }

    /// Squared planar distance to `other`, in square units.
    pub fn distance_squared(&self, other: &PathPoint) -> (r: u128)
        ensures
            r == planar_distance_squared(self@, other@),
    {
        proof {
            use_type_invariant(self);
            use_type_invariant(other);
        }
        let dx: i128 = self.lon as i128 - other.lon as i128;
        let dy: i128 = self.lat as i128 - other.lat as i128;
        assert(0 <= dx * dx <= 360_000_000_000 * 360_000_000_000) by (nonlinear_arith)
            requires
                -360_000_000_000 <= dx <= 360_000_000_000,
        ;
        assert(0 <= dy * dy <= 180_000_000_000 * 180_000_000_000) by (nonlinear_arith)
            requires
                -180_000_000_000 <= dy <= 180_000_000_000,
        ;
        (dx * dx + dy * dy) as u128
    }
}

/// A coordinate pair rounded to the published grid.
pub open spec fn quantized_coordinate(c: (int, int)) -> (int, int) {
    (
        round_half_away(c.0, COORDINATE_QUANTUM as int),
        round_half_away(c.1, COORDINATE_QUANTUM as int),
    )
}

/// Rounding to the published grid keeps a pair on the globe.
pub proof fn lemma_quantized_on_globe(c: (int, int))
    requires
        on_globe(c.0, c.1),
    ensures
        on_globe(quantized_coordinate(c).0, quantized_coordinate(c).1),
{
    let q = COORDINATE_QUANTUM as int;
    assert(180_000_000_000int % 1_000 == 0 && (-180_000_000_000int) % 1_000 == 0);
    assert(90_000_000_000int % 1_000 == 0 && (-90_000_000_000int) % 1_000 == 0);
    lemma_round_half_away_fixes_multiples(MAX_LONGITUDE as int, q);
    lemma_round_half_away_fixes_multiples(-MAX_LONGITUDE as int, q);
    lemma_round_half_away_fixes_multiples(MAX_LATITUDE as int, q);
    lemma_round_half_away_fixes_multiples(-MAX_LATITUDE as int, q);
    lemma_round_half_away_monotone(c.0, MAX_LONGITUDE as int, q);
    lemma_round_half_away_monotone(-MAX_LONGITUDE as int, c.0, q);
    lemma_round_half_away_monotone(c.1, MAX_LATITUDE as int, q);
    lemma_round_half_away_monotone(-MAX_LATITUDE as int, c.1, q);
}

/// Rounding a pair to the published grid a second time changes nothing.
pub proof fn lemma_quantized_idempotent(c: (int, int))
    ensures
        quantized_coordinate(quantized_coordinate(c)) == quantized_coordinate(c),
{
    lemma_round_half_away_idempotent(c.0, COORDINATE_QUANTUM as int);
    lemma_round_half_away_idempotent(c.1, COORDINATE_QUANTUM as int);
}

impl PathPoint {
    /// Two points at the same coordinates are the same point.
    pub proof fn lemma_view_injective(self, other: PathPoint)
        requires
            self@ == other@,
        ensures
            self == other,
    {
    }

    /// This point rounded to the published grid.
    pub fn quantized(&self) -> (r: PathPoint)
        ensures
            r@ == quantized_coordinate(self@),
    {
        proof {
            use_type_invariant(self);
            lemma_quantized_on_globe(self@);
        }
        let lon = round_to_multiple(self.lon, COORDINATE_QUANTUM);
        let lat = round_to_multiple(self.lat, COORDINATE_QUANTUM);
        PathPoint { lon: lon.unwrap(), lat: lat.unwrap() }
    }
}

/// Every point of `path` rounded to the published grid, in order.
pub open spec fn quantized_path(path: Seq<PathPoint>, out: Seq<PathPoint>) -> bool {
    &&& out.len() == path.len()
    &&& forall|i: int| 0 <= i < path.len() ==> (#[trigger] out[i])@ == quantized_coordinate(path[i]@)
}

/// Rounds every point of `path` to the published grid.
pub fn quantize_path(path: &Vec<PathPoint>) -> (out: Vec<PathPoint>)
    ensures
        quantized_path(path@, out@),
{
    let mut out: Vec<PathPoint> = Vec::new();
    let mut i: usize = 0;
    while i < path.len()
        invariant
            i <= path.len(),
            out.len() == i,
            forall|j: int| 0 <= j < i ==> (#[trigger] out[j])@ == quantized_coordinate(path[j]@),
        decreases path.len() - i,
    {
        out.push(path[i].quantized());
        i += 1;
    }
    out
}

/// A path on the grid is left as it is by a further rounding.
pub proof fn lemma_quantize_path_idempotent(
    path: Seq<PathPoint>,
    once: Seq<PathPoint>,
    twice: Seq<PathPoint>,
)
    requires
        quantized_path(path, once),
        quantized_path(once, twice),
    ensures
        twice == once,
{
    assert forall|i: int| 0 <= i < once.len() implies twice[i] == once[i] by {
        lemma_quantized_idempotent(path[i]@);
        assert(once[i]@ == quantized_coordinate(path[i]@));
        assert(twice[i]@ == quantized_coordinate(once[i]@));
        twice[i].lemma_view_injective(once[i]);
    }
    assert(twice =~= once);
}

/// Index of the point of `path` nearest to `target` by planar distance, the
/// earliest such index where several are equally near; 0 for an empty path.
pub open spec fn first_nearest(target: (int, int), path: Seq<PathPoint>) -> int
    decreases path.len(),
{
    if path.len() <= 1 {
        0
    } else {
        let best = first_nearest(target, path.drop_last());
        if planar_distance_squared(target, path.last()@) < planar_distance_squared(
            target,
            path[best]@,
        ) {
            path.len() - 1
        } else {
            best
        }
    }
}

/// `first_nearest` is in range, no point is nearer than the one it names,
/// and every earlier point is strictly farther.
pub proof fn lemma_first_nearest(target: (int, int), path: Seq<PathPoint>)
    requires
        path.len() > 0,
    ensures
        0 <= first_nearest(target, path) < path.len(),
        forall|j: int|
            0 <= j < path.len() ==> planar_distance_squared(
                target,
                path[first_nearest(target, path)]@,
            ) <= planar_distance_squared(target, #[trigger] path[j]@),
        forall|j: int|
            0 <= j < first_nearest(target, path) ==> planar_distance_squared(
                target,
                path[first_nearest(target, path)]@,
            ) < planar_distance_squared(target, #[trigger] path[j]@),
    decreases path.len(),
{
    if path.len() > 1 {
        let front = path.drop_last();
        lemma_first_nearest(target, front);
        let best = first_nearest(target, front);
        assert(front[best] == path[best]);
        assert forall|j: int| 0 <= j < path.len() implies planar_distance_squared(
            target,
            path[first_nearest(target, path)]@,
        ) <= planar_distance_squared(target, #[trigger] path[j]@) by {
            if j < front.len() {
                assert(front[j] == path[j]);
            }
        }
        assert forall|j: int| 0 <= j < first_nearest(target, path) implies planar_distance_squared(
            target,
            path[first_nearest(target, path)]@,
        ) < planar_distance_squared(target, #[trigger] path[j]@) by {
            assert(front[j] == path[j]);
        }
    }
}

/// Finds the point of `path` nearest to `target` by planar distance; of
/// several equally near the earliest. `None` for an empty path.
pub fn find_nearest_coord_index(target: &PathPoint, path: &Vec<PathPoint>) -> (r: Option<usize>)
    ensures
        r is Some <==> path.len() > 0,
        r matches Some(i) ==> i == first_nearest(target@, path@),
{
    if path.len() == 0 {
        return None;
    }
    let mut best: usize = 0;
    let mut best_distance: u128 = target.distance_squared(&path[0]);
    let mut i: usize = 1;
    assert(path@.take(1).len() == 1);
    while i < path.len()
        invariant
            1 <= i <= path.len(),
            best < i,
            best == first_nearest(target@, path@.take(i as int)),
            best_distance == planar_distance_squared(target@, path[best as int]@),
        decreases path.len() - i,
    {
        let d = target.distance_squared(&path[i]);
        proof {
            let next = path@.take(i as int + 1);
            assert(next.drop_last() =~= path@.take(i as int));
            assert(next.last() == path[i as int]);
            assert(next[best as int] == path[best as int]);
        }
        if d < best_distance {
            best = i;
            best_distance = d;
        }
        i += 1;
    }
    assert(path@.take(path.len() as int) =~= path@);
    Some(best)
}

} // verus!
