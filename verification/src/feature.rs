//! Assembly of the derived feature of a route from the results of the
//! earlier stages.

use crate::geometry::{quantize_path, quantized_path, PathPoint};
use crate::metrics::{bounding_box, is_bounding_box, reported_distance, reported_length, BoundingBox};
use crate::model::{RawRoute, Stop};
use crate::stitch::StitchedPath;
use crate::turn::{locate_turn_index, turn_index};
use vstd::prelude::*;

verus! {

/// Fewest stops from which a feature is derived.
pub const MIN_ROUTE_STOPS: usize = 2;

/// What the feature says of one stop.
#[derive(Debug, PartialEq, Eq)]
pub struct StopMeta {
    pub id: String,
    pub name: String,
    pub order: i64,
    pub direction: i64,
}

/// The feature derived from one route.
#[derive(Debug, PartialEq, Eq)]
pub struct DerivedRouteFeature {
    pub route_id: String,
    pub route_number: String,
    /// The stitched path, rounded to the published grid.
    pub path: Vec<PathPoint>,
    /// Bounding box of `path`; `None` where the path has no point.
    pub bounding_box: Option<BoundingBox>,
    /// Length of the path in millimetres, rounded to a tenth of a metre.
    pub total_distance: u128,
    /// Path index of the turnaround.
    pub turn_index: usize,
    /// For each stop, in route order, the index of its path point.
    pub index_map: Vec<usize>,
    pub stop_metadata: Vec<StopMeta>,
    /// When the route's stops were fetched.
    pub source_version: String,
}

/// What the feature says of `stop`.
pub open spec fn meta_of(stop: Stop) -> StopMeta {
    StopMeta {
        id: stop.node_id,
        name: stop.name,
        order: stop.sequence_order,
        direction: stop.direction_code,
    }
}

/// Whether `metadata` describes `stops`, one entry per stop, in order.
pub open spec fn describes(metadata: Seq<StopMeta>, stops: Seq<Stop>) -> bool {
    &&& metadata.len() == stops.len()
    &&& forall|i: int| 0 <= i < stops.len() ==> #[trigger] metadata[i] == meta_of(stops[i])
}

/// Describes each of `stops` for the feature.
pub fn stop_metadata(stops: &Vec<Stop>) -> (r: Vec<StopMeta>)
    ensures
        describes(r@, stops@),
{
    let mut out: Vec<StopMeta> = Vec::new();
    let mut i: usize = 0;
    while i < stops.len()
        invariant
            i <= stops.len(),
            out.len() == i,
            forall|j: int| 0 <= j < i ==> #[trigger] out[j] == meta_of(stops[j]),
        decreases stops.len() - i,
    {
        out.push(
            StopMeta {
                id: stops[i].node_id.clone(),
                name: stops[i].name.clone(),
                order: stops[i].sequence_order,
                direction: stops[i].direction_code,
            },
        );
        i += 1;
    }
    out
}

/// Whether `feature` is the feature of `route`, given its stitched path
/// and the lengths of the segments of the rounded path.
pub open spec fn is_feature_of(
    feature: DerivedRouteFeature,
    route: RawRoute,
    stitched: StitchedPath,
    segment_lengths: Seq<u64>,
) -> bool {
    &&& feature.route_id == route.route_id
    &&& feature.route_number == route.route_number
    &&& feature.source_version == route.fetched_at
    &&& quantized_path(stitched.path@, feature.path@)
    &&& feature.bounding_box is Some <==> feature.path.len() > 0
    &&& feature.bounding_box matches Some(b) ==> is_bounding_box(feature.path@, b)
    &&& feature.total_distance == reported_length(segment_lengths)
    &&& feature.turn_index == turn_index(
        route.stops@,
        stitched.index_map@,
        stitched.path.len() as nat,
    )
    &&& feature.index_map@ == stitched.index_map@
    &&& describes(feature.stop_metadata@, route.stops@)
}

/// Whether `count` lengths are one for each segment of a path of
/// `path_len` points: one less than the points, none for a path without
/// points.
pub open spec fn one_per_segment(count: nat, path_len: nat) -> bool {
    if path_len == 0 {
        count == 0
    } else {
        count + 1 == path_len
    }
}

/// Assembles the feature of `route`. `segment_lengths` holds, in
/// millimetres, the length of each segment of the rounded path, in path
/// order. There is no feature for a route of fewer than two stops, nor where
/// the lengths are not one for each segment of the path.
pub fn assemble(route: &RawRoute, stitched: StitchedPath, segment_lengths: &Vec<u64>) -> (r: Option<
    DerivedRouteFeature,
>)
    ensures
        r is Some <==> route.stops.len() >= MIN_ROUTE_STOPS && one_per_segment(
            segment_lengths@.len(),
            stitched.path@.len(),
        ),
        r matches Some(feature) ==> is_feature_of(feature, *route, stitched, segment_lengths@),
{
    if route.stops.len() < MIN_ROUTE_STOPS {
        return None;
    }
    let fits = if stitched.path.len() == 0 {
        segment_lengths.len() == 0
    } else {
        segment_lengths.len() == stitched.path.len() - 1
    };
    if !fits {
        return None;
    }
    let path = quantize_path(&stitched.path);
    let turn = locate_turn_index(&route.stops, &stitched.index_map, path.len());
    let bounds = bounding_box(&path);
    let total = reported_distance(segment_lengths);
    let metadata = stop_metadata(&route.stops);
    Some(
        DerivedRouteFeature {
            route_id: route.route_id.clone(),
            route_number: route.route_number.clone(),
            path,
            bounding_box: bounds,
            total_distance: total,
            turn_index: turn,
            index_map: stitched.index_map,
            stop_metadata: metadata,
            source_version: route.fetched_at.clone(),
        },
    )
}

} // verus!
