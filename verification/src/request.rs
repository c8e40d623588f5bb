//! Requests to the routing service: a list of positions written as text.

use crate::corridor::CorridorQuery;
use crate::geometry::{PathPoint, COORDINATE_QUANTUM};
use crate::rounding::{lemma_round_half_away_nearest, round_half_away, round_to_multiple};
use crate::text::{decimal, padded_decimal, push_decimal, push_padded_decimal, push_str};
use crate::unicode::string_from_chars;
use vstd::prelude::*;

verus! {

/// Options that every routing request carries: the full geometry as
/// coordinate lists, no turn instructions, no U-turns at the stops.
pub open spec fn routing_options() -> Seq<char> {
    "?overview=full&geometries=geojson&steps=false&continue_straight=true"@
}

/// A coordinate of `units` written in degrees with six decimals, rounded to
/// the published grid: a minus sign where it is below zero, the whole
/// degrees, a point, and the millionths in six digits.
pub open spec fn coordinate_text(units: int) -> Seq<char> {
    let millionths = round_half_away(units, COORDINATE_QUANTUM as int) / (COORDINATE_QUANTUM as int);
    let size = if millionths < 0 { -millionths } else { millionths };
    let sign = if millionths < 0 { seq!['-'] } else { Seq::<char>::empty() };
    sign + decimal((size / 1_000_000) as nat) + seq!['.'] + padded_decimal(
        (size % 1_000_000) as nat,
        6,
    )
}

/// A position as the routing service reads it: longitude, a comma,
/// latitude.
pub open spec fn point_text(p: (int, int)) -> Seq<char> {
    coordinate_text(p.0) + seq![','] + coordinate_text(p.1)
}

/// Positions as the routing service reads them: each as `point_text`, with
/// a semicolon between neighbours.
pub open spec fn coordinates_text(points: Seq<PathPoint>) -> Seq<char>
    decreases points.len(),
{
    if points.len() == 0 {
        Seq::empty()
    } else if points.len() == 1 {
        point_text(points[0]@)
    } else {
        coordinates_text(points.drop_last()) + seq![';'] + point_text(points.last()@)
    }
}

/// Appends `coordinate_text(units)` to `out`.
fn push_coordinate(out: &mut Vec<char>, units: i64)
    requires
        -180_000_000_000 <= units <= 180_000_000_000,
    ensures
        final(out)@ == old(out)@ + coordinate_text(units as int),
{
    proof {
        lemma_round_half_away_nearest(units as int, COORDINATE_QUANTUM as int);
    }
    let rounded = round_to_multiple(units, COORDINATE_QUANTUM).unwrap();
    let millionths: i64 = rounded / COORDINATE_QUANTUM;
    let size: u64 = if millionths < 0 { (-millionths) as u64 } else { millionths as u64 };
    let ghost sign = if millionths < 0 { seq!['-'] } else { Seq::<char>::empty() };
    if millionths < 0 {
        out.push('-');
    }
    assert(out@ =~= old(out)@ + sign);
    push_decimal(out, (size / 1_000_000) as u128);
    out.push('.');
    push_padded_decimal(out, size % 1_000_000, 6);
    assert(out@ =~= old(out)@ + coordinate_text(units as int));
}

/// Appends `point_text` of `p` to `out`.
fn push_point(out: &mut Vec<char>, p: &PathPoint)
    ensures
        final(out)@ == old(out)@ + point_text(p@),
{
    let lon = p.lon();
    let lat = p.lat();
    push_coordinate(out, lon);
    out.push(',');
    push_coordinate(out, lat);
    assert(out@ =~= old(out)@ + point_text(p@));
}

/// Writes `points` as the routing service reads them.
pub fn routing_coordinates(points: &Vec<PathPoint>) -> (r: String)
    ensures
        r@ == coordinates_text(points@),
{
    let mut out: Vec<char> = Vec::new();
    let mut i: usize = 0;
    assert(points@.take(0).len() == 0);
    while i < points.len()
        invariant
            i <= points.len(),
            out@ == coordinates_text(points@.take(i as int)),
        decreases points.len() - i,
    {
        let ghost more = points@.take(i as int + 1);
        proof {
            assert(more.drop_last() =~= points@.take(i as int));
            assert(more.last() == points[i as int]);
            if i == 0 {
                assert(more[0] == points[0]);
            }
        }
        if i > 0 {
            out.push(';');
        }
        push_point(&mut out, &points[i]);
        assert(out@ =~= coordinates_text(more));
        i += 1;
    }
    assert(points@.take(points.len() as int) =~= points@);
    string_from_chars(&out)
}

/// Writes the two ends of a corridor as the routing service reads them.
pub fn corridor_coordinates(query: &CorridorQuery) -> (r: String)
    ensures
        r@ == point_text(query.from@) + seq![';'] + point_text(query.to@),
{
    let mut out: Vec<char> = Vec::new();
    push_point(&mut out, &query.from);
    out.push(';');
    push_point(&mut out, &query.to);
    assert(out@ =~= point_text(query.from@) + seq![';'] + point_text(query.to@));
    string_from_chars(&out)
}

/// Address of a routing request: the service's base address, a slash, the
/// coordinates, and the options.
pub fn routing_url(base: &str, coordinates: &str) -> (r: String)
    ensures
        r@ == base@ + seq!['/'] + coordinates@ + routing_options(),
{
    let mut out: Vec<char> = Vec::new();
    push_str(&mut out, base);
    out.push('/');
    push_str(&mut out, coordinates);
    push_str(&mut out, "?overview=full&geometries=geojson&steps=false&continue_straight=true");
    assert(out@ =~= base@ + seq!['/'] + coordinates@ + routing_options());
    string_from_chars(&out)
}

} // verus!
