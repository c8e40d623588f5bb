use polly::corridor::{
    correct_position, sanitize_stops_to_corridor, CorrectionCandidate, CorridorSanitizer,
    CORRIDOR_THRESHOLD,
};
use polly::feature::{assemble, stop_metadata};
use polly::geometry::{find_nearest_coord_index, quantize_path, PathPoint};
use polly::metrics::{bounding_box, reported_distance, total_distance, BoundingBox};
use polly::model::{stop_positions, RawRoute, Stop};
use polly::projection::{closest_point_on_polyline, project_onto_segments};
use polly::rounding::round_to_multiple;
use polly::stitch::{build_path, global_path_index, PathBuilder};
use polly::turn::{locate_turn_index, locate_turn_stop};

const DEGREE: i64 = 1_000_000_000;

fn deg(lon: i64, lat: i64) -> PathPoint {
    PathPoint::new(lon * DEGREE, lat * DEGREE).unwrap()
}

fn units(lon: i64, lat: i64) -> PathPoint {
    PathPoint::new(lon, lat).unwrap()
}

fn stop(id: &str, order: i64, direction: i64, position: PathPoint) -> Stop {
    Stop {
        node_id: id.to_string(),
        name: format!("stop {}", id),
        node_number: format!("n{}", id),
        sequence_order: order,
        direction_code: direction,
        position,
    }
}

fn stops_with_directions(codes: &[i64]) -> Vec<Stop> {
    let mut out = Vec::new();
    for (i, c) in codes.iter().enumerate() {
        out.push(stop(&format!("{}", i), i as i64 + 1, *c, deg(i as i64, 0)));
    }
    out
}

#[test]
fn point_off_the_globe_is_refused() {
    assert!(PathPoint::new(180 * DEGREE, 90 * DEGREE).is_some());
    assert!(PathPoint::new(-180 * DEGREE, -90 * DEGREE).is_some());
    assert!(PathPoint::new(180 * DEGREE + 1, 0).is_none());
    assert!(PathPoint::new(0, 90 * DEGREE + 1).is_none());
    assert!(PathPoint::new(0, -90 * DEGREE - 1).is_none());
    let p = units(127_920_000_123, 37_340_000_456);
    assert_eq!(p.lon(), 127_920_000_123);
    assert_eq!(p.lat(), 37_340_000_456);
}

#[test]
fn rounding_goes_half_away_from_zero() {
    assert_eq!(round_to_multiple(1_499, 1_000), Some(1_000));
    assert_eq!(round_to_multiple(1_500, 1_000), Some(2_000));
    assert_eq!(round_to_multiple(-1_500, 1_000), Some(-2_000));
    assert_eq!(round_to_multiple(-1_499, 1_000), Some(-1_000));
    assert_eq!(round_to_multiple(499, 1_000), Some(0));
    assert_eq!(round_to_multiple(-500, 1_000), Some(-1_000));
    assert_eq!(round_to_multiple(7, 0), None);
    assert_eq!(round_to_multiple(7, -3), None);
    assert_eq!(round_to_multiple(i64::MAX, 1_000), None);
    assert_eq!(round_to_multiple(i64::MIN, 1_000), None);
    assert_eq!(round_to_multiple(i64::MAX, 1), Some(i64::MAX));
}

#[test]
fn quantizing_twice_is_quantizing_once() {
    let values = [0i64, 1, 499, 500, 501, 999, 1_000, 127_920_000_500, -37_340_000_500, -1, -499];
    for v in values {
        let lon = if v.abs() <= 180 * DEGREE { v } else { 0 };
        let lat = if v.abs() <= 90 * DEGREE { v } else { 0 };
        let once = units(lon, lat).quantized();
        let twice = once.quantized();
        assert_eq!(once, twice);
        assert_eq!(once.lon() % 1_000, 0);
        assert_eq!(once.lat() % 1_000, 0);
    }
    assert_eq!(units(127_920_000_500, -37_340_000_500).quantized(), units(127_920_001_000, -37_340_001_000));
    assert_eq!(units(127_920_000_499, -37_340_000_499).quantized(), units(127_920_000_000, -37_340_000_000));
    assert_eq!(units(180 * DEGREE, -90 * DEGREE).quantized(), units(180 * DEGREE, -90 * DEGREE));
}

#[test]
fn quantize_path_rounds_each_point() {
    let path = vec![units(1_499, 2_500), units(-1_499, -2_500)];
    let rounded = quantize_path(&path);
    assert_eq!(rounded, vec![units(1_000, 3_000), units(-1_000, -3_000)]);
    assert_eq!(quantize_path(&rounded), rounded);
    assert_eq!(quantize_path(&Vec::new()), Vec::new());
}

#[test]
fn nearest_index_is_first_of_the_nearest() {
    let path = vec![deg(0, 0), deg(2, 0), deg(4, 0), deg(2, 0)];
    assert_eq!(find_nearest_coord_index(&deg(2, 1), &path), Some(1));
    assert_eq!(find_nearest_coord_index(&deg(1, 0), &path), Some(0));
    assert_eq!(find_nearest_coord_index(&deg(5, 5), &path), Some(2));
    assert_eq!(find_nearest_coord_index(&deg(3, 0), &path), Some(1));
    assert_eq!(find_nearest_coord_index(&deg(0, 0), &Vec::new()), None);
    assert_eq!(deg(0, 0).distance_squared(&deg(3, 4)), 25 * (DEGREE as u128) * (DEGREE as u128));
    assert_eq!(
        deg(-180, -90).distance_squared(&deg(180, 90)),
        (360 * 360 + 180 * 180) * (DEGREE as u128) * (DEGREE as u128)
    );
}

#[test]
fn global_index_of_first_chunk_has_no_offset() {
    assert_eq!(global_path_index(0, 0), 0);
    assert_eq!(global_path_index(0, 7), 7);
}

#[test]
fn global_index_of_later_chunk_point_zero_is_previous_last() {
    assert_eq!(global_path_index(5, 0), 4);
    assert_eq!(global_path_index(5, 1), 5);
    assert_eq!(global_path_index(5, 3), 7);
    assert_eq!(global_path_index(1, 0), 0);
}

#[test]
fn turn_stop_is_last_before_direction_change() {
    let stops = stops_with_directions(&[0, 0, 1, 1, 1]);
    assert_eq!(locate_turn_stop(&stops), Some(1));
    let index_map = vec![0, 3, 6, 9, 12];
    assert_eq!(locate_turn_index(&stops, &index_map, 13), 3);
}

#[test]
fn turn_stop_defaults_to_last_stop() {
    let stops = stops_with_directions(&[0, 0, 0]);
    assert_eq!(locate_turn_stop(&stops), Some(2));
    let index_map = vec![0, 4, 9];
    assert_eq!(locate_turn_index(&stops, &index_map, 10), 9);
}

#[test]
fn turn_index_falls_back_to_midpoint() {
    let stops = stops_with_directions(&[0, 0, 0]);
    assert_eq!(locate_turn_index(&stops, &vec![0, 4], 11), 5);
    assert_eq!(locate_turn_index(&Vec::new(), &vec![0, 4], 10), 5);
    assert_eq!(locate_turn_stop(&Vec::new()), None);
    assert_eq!(locate_turn_stop(&stops_with_directions(&[1])), Some(0));
    assert_eq!(locate_turn_stop(&stops_with_directions(&[1, 0, 1])), Some(0));
}

#[test]
fn bounding_box_of_three_points() {
    let path = vec![deg(0, 0), deg(1, 2), deg(-1, 3)];
    assert_eq!(
        bounding_box(&path),
        Some(BoundingBox { min_lon: -DEGREE, min_lat: 0, max_lon: DEGREE, max_lat: 3 * DEGREE })
    );
    assert_eq!(bounding_box(&Vec::new()), None);
    assert_eq!(
        bounding_box(&vec![deg(5, -7)]),
        Some(BoundingBox {
            min_lon: 5 * DEGREE,
            min_lat: -7 * DEGREE,
            max_lon: 5 * DEGREE,
            max_lat: -7 * DEGREE
        })
    );
}

#[test]
fn bounding_box_commutes_with_quantizing() {
    let path = vec![units(1_499, -2_500), units(-700, 3_501), units(2_500, 10)];
    let b = bounding_box(&path).unwrap();
    let q = bounding_box(&quantize_path(&path)).unwrap();
    assert_eq!(q.min_lon, round_to_multiple(b.min_lon, 1_000).unwrap());
    assert_eq!(q.max_lon, round_to_multiple(b.max_lon, 1_000).unwrap());
    assert_eq!(q.min_lat, round_to_multiple(b.min_lat, 1_000).unwrap());
    assert_eq!(q.max_lat, round_to_multiple(b.max_lat, 1_000).unwrap());
    assert_eq!(q, BoundingBox { min_lon: -1_000, min_lat: -3_000, max_lon: 3_000, max_lat: 4_000 });
}

#[test]
fn distance_is_summed_and_rounded_to_a_tenth_of_a_metre() {
    assert_eq!(total_distance(&vec![1_234, 5_678, 49]), 6_961);
    assert_eq!(reported_distance(&vec![1_234, 5_678, 49]), 7_000);
    assert_eq!(reported_distance(&vec![1_234, 5_678, 38]), 7_000);
    assert_eq!(reported_distance(&vec![1_234, 5_678, 37]), 6_900);
    assert_eq!(reported_distance(&vec![49]), 0);
    assert_eq!(reported_distance(&vec![50]), 100);
    assert_eq!(reported_distance(&Vec::new()), 0);
    assert_eq!(total_distance(&vec![u64::MAX, u64::MAX]), 2 * (u64::MAX as u128));
    assert_eq!(reported_distance(&vec![u64::MAX]), 18_446_744_073_709_551_600);
}

#[test]
fn correction_within_threshold_moves_the_stop() {
    let here = deg(1, 1);
    let there = units(DEGREE + 500, DEGREE - 500);
    let near = Some(CorrectionCandidate { point: there, distance: CORRIDOR_THRESHOLD });
    let far = Some(CorrectionCandidate { point: there, distance: CORRIDOR_THRESHOLD + 1 });
    assert_eq!(CORRIDOR_THRESHOLD, 90_000);
    assert_eq!(correct_position(here, &near), there);
    assert_eq!(correct_position(here, &far), here);
    assert_eq!(correct_position(here, &None), here);
}

#[test]
fn sanitizer_keeps_stop_without_candidate_within_threshold() {
    let stops = vec![
        stop("a", 1, 0, deg(0, 0)),
        stop("b", 2, 0, deg(1, 1)),
        stop("c", 3, 0, deg(2, 0)),
        stop("d", 4, 1, deg(3, 1)),
    ];
    let moved = deg(1, 0);
    let candidates = vec![
        Some(CorrectionCandidate { point: moved, distance: 90_001 }),
        None,
    ];
    let out = sanitize_stops_to_corridor(
        vec![
            stop("a", 1, 0, deg(0, 0)),
            stop("b", 2, 0, deg(1, 1)),
            stop("c", 3, 0, deg(2, 0)),
            stop("d", 4, 1, deg(3, 1)),
        ],
        &candidates,
    );
    assert_eq!(out, stops);
}

#[test]
fn sanitizer_moves_interior_stops_only() {
    let candidates = vec![
        Some(CorrectionCandidate { point: deg(1, 0), distance: 12_000 }),
        Some(CorrectionCandidate { point: deg(2, 2), distance: 90_000 }),
        Some(CorrectionCandidate { point: deg(9, 9), distance: 1 }),
    ];
    let out = sanitize_stops_to_corridor(
        vec![
            stop("a", 1, 0, deg(0, 0)),
            stop("b", 2, 0, deg(1, 1)),
            stop("c", 3, 0, deg(2, 0)),
            stop("d", 4, 1, deg(3, 1)),
        ],
        &candidates,
    );
    let expected = vec![
        stop("a", 1, 0, deg(0, 0)),
        stop("b", 2, 0, deg(1, 0)),
        stop("c", 3, 0, deg(2, 2)),
        stop("d", 4, 1, deg(3, 1)),
    ];
    assert_eq!(out, expected);
    let two = sanitize_stops_to_corridor(
        vec![stop("a", 1, 0, deg(0, 0)), stop("b", 2, 0, deg(1, 1))],
        &candidates,
    );
    assert_eq!(two, vec![stop("a", 1, 0, deg(0, 0)), stop("b", 2, 0, deg(1, 1))]);
}

#[test]
fn sanitizer_queries_use_corrected_predecessor() {
    let run = CorridorSanitizer::new(vec![
        stop("a", 1, 0, deg(0, 0)),
        stop("b", 2, 0, deg(1, 1)),
        stop("c", 3, 0, deg(2, 0)),
        stop("d", 4, 1, deg(3, 1)),
    ]);
    let q = run.pending_query().unwrap();
    assert_eq!((q.from, q.stop, q.to), (deg(0, 0), deg(1, 1), deg(2, 0)));
    let run = run.accept(&Some(CorrectionCandidate { point: deg(1, 0), distance: 5 }));
    let q = run.pending_query().unwrap();
    assert_eq!((q.from, q.stop, q.to), (deg(1, 0), deg(2, 0), deg(3, 1)));
    let run = run.accept(&None);
    assert!(run.pending_query().is_none());
    let run = run.accept(&Some(CorrectionCandidate { point: deg(7, 7), distance: 5 }));
    let out = run.finish();
    assert_eq!(stop_positions(&out), vec![deg(0, 0), deg(1, 0), deg(2, 0), deg(3, 1)]);
    assert!(CorridorSanitizer::new(vec![stop("a", 1, 0, deg(0, 0)), stop("b", 2, 0, deg(1, 1))])
        .pending_query()
        .is_none());
    assert!(CorridorSanitizer::new(Vec::new()).pending_query().is_none());
}

#[test]
fn windows_overlap_by_one_stop() {
    let stops: Vec<PathPoint> = (0..7).map(|i| deg(i, 0)).collect();
    let b = PathBuilder::new(stops, 3);
    assert_eq!(b.pending_window(), Some((0, 3)));
    assert_eq!(b.window_stops(), vec![deg(0, 0), deg(1, 0), deg(2, 0)]);
    let b = b.accept(&None);
    assert_eq!(b.pending_window(), Some((2, 5)));
    let b = b.accept(&None);
    assert_eq!(b.pending_window(), Some((4, 7)));
    assert_eq!(b.window_stops(), vec![deg(4, 0), deg(5, 0), deg(6, 0)]);
    let b = b.accept(&None);
    assert_eq!(b.pending_window(), None);
    assert_eq!(b.window_stops(), Vec::new());
    let b = PathBuilder::new((0..6).map(|i| deg(i, 0)).collect(), 3);
    let b = b.accept(&None).accept(&None);
    assert_eq!(b.pending_window(), Some((4, 6)));
    assert_eq!(b.accept(&None).pending_window(), None);
}

#[test]
fn chunk_size_below_two_gives_no_window() {
    let stops: Vec<PathPoint> = (0..4).map(|i| deg(i, 0)).collect();
    assert_eq!(PathBuilder::new(stops.clone(), 1).pending_window(), None);
    assert_eq!(PathBuilder::new(stops.clone(), 0).pending_window(), None);
    assert_eq!(PathBuilder::new(vec![deg(0, 0)], 5).pending_window(), None);
    assert_eq!(PathBuilder::new(Vec::new(), 5).pending_window(), None);
    let r = build_path(stops, 1, &vec![Some(vec![deg(0, 0), deg(3, 0)])]);
    assert_eq!(r.path, Vec::new());
    assert_eq!(r.index_map, vec![0, 0, 0, 0]);
}

#[test]
fn two_stop_route_with_one_chunk_of_five_points() {
    let stops = vec![stop("a", 1, 0, deg(0, 0)), stop("b", 2, 0, deg(4, 0))];
    let geometry = vec![deg(0, 0), deg(1, 0), deg(2, 0), deg(3, 0), deg(4, 0)];
    let stitched = build_path(stop_positions(&stops), 50, &vec![Some(geometry.clone())]);
    assert_eq!(stitched.path.len(), 5);
    assert_eq!(stitched.path, geometry);
    assert_eq!(stitched.index_map, vec![0, 4]);
    let route = RawRoute {
        route_id: "WJB251000068".to_string(),
        route_number: "34-1".to_string(),
        fetched_at: "2024-05-01T10:00:00+09:00".to_string(),
        stops,
    };
    let lengths = vec![111_195_080u64, 111_195_080, 111_195_080, 111_195_049];
    let feature = assemble(&route, stitched, &lengths).unwrap();
    assert_eq!(feature.route_id, "WJB251000068");
    assert_eq!(feature.route_number, "34-1");
    assert_eq!(feature.source_version, "2024-05-01T10:00:00+09:00");
    assert_eq!(feature.path, geometry);
    assert_eq!(feature.index_map, vec![0, 4]);
    assert_eq!(feature.turn_index, 4);
    assert_eq!(feature.total_distance, 444_780_300);
    assert_eq!(
        feature.bounding_box,
        Some(BoundingBox { min_lon: 0, min_lat: 0, max_lon: 4 * DEGREE, max_lat: 0 })
    );
    assert_eq!(feature.stop_metadata, stop_metadata(&route.stops));
    assert_eq!(feature.stop_metadata.len(), 2);
    assert_eq!(feature.stop_metadata[1].id, "b");
    assert_eq!(feature.stop_metadata[1].name, "stop b");
    assert_eq!(feature.stop_metadata[1].order, 2);
    assert_eq!(feature.stop_metadata[1].direction, 0);
}

#[test]
fn route_whose_windows_all_fail_gets_fallback_indices() {
    let stops: Vec<Stop> =
        (0..5).map(|i| stop(&format!("{}", i), i + 1, if i < 3 { 0 } else { 1 }, deg(i, 0))).collect();
    let stitched = build_path(stop_positions(&stops), 3, &vec![None, Some(Vec::new())]);
    assert_eq!(stitched.path, Vec::new());
    assert_eq!(stitched.index_map, vec![0, 0, 0, 0, 0]);
    let none_at_all = build_path(stop_positions(&stops), 3, &Vec::new());
    assert_eq!(none_at_all.index_map, vec![0, 0, 0, 0, 0]);
    let route = RawRoute {
        route_id: "r".to_string(),
        route_number: "1".to_string(),
        fetched_at: "t".to_string(),
        stops,
    };
    let feature = assemble(&route, stitched, &Vec::new()).unwrap();
    assert_eq!(feature.path, Vec::new());
    assert_eq!(feature.bounding_box, None);
    assert_eq!(feature.total_distance, 0);
    assert_eq!(feature.turn_index, 0);
    assert_eq!(feature.index_map, vec![0, 0, 0, 0, 0]);
}

#[test]
fn route_of_one_stop_gives_no_feature() {
    let route = RawRoute {
        route_id: "r".to_string(),
        route_number: "1".to_string(),
        fetched_at: "t".to_string(),
        stops: vec![stop("a", 1, 0, deg(0, 0))],
    };
    let stitched = build_path(stop_positions(&route.stops), 3, &Vec::new());
    assert_eq!(stitched.index_map, vec![0]);
    assert!(assemble(&route, stitched, &Vec::new()).is_none());
}

#[test]
fn later_chunk_drops_its_first_point_and_offsets_indices() {
    let stops: Vec<PathPoint> = (0..5).map(|i| deg(2 * i, 0)).collect();
    let first = vec![deg(0, 0), deg(1, 0), deg(2, 0), deg(3, 0), deg(4, 0)];
    let second = vec![deg(4, 0), deg(5, 0), deg(6, 0), deg(7, 0), deg(8, 0)];
    let r = build_path(stops, 3, &vec![Some(first), Some(second)]);
    let expected: Vec<PathPoint> = (0..9).map(|i| deg(i, 0)).collect();
    assert_eq!(r.path, expected);
    assert_eq!(r.index_map, vec![0, 2, 4, 6, 8]);
    for w in r.index_map.windows(2) {
        assert!(w[0] <= w[1]);
    }
    for i in &r.index_map {
        assert!(*i < r.path.len());
    }
}

#[test]
fn stops_of_a_failed_window_map_to_the_path_end() {
    let stops: Vec<PathPoint> = (0..7).map(|i| deg(2 * i, 0)).collect();
    let first = vec![deg(0, 0), deg(1, 0), deg(2, 0), deg(3, 0), deg(4, 0)];
    let r = build_path(stops.clone(), 3, &vec![Some(first.clone()), None, None]);
    assert_eq!(r.path, first);
    assert_eq!(r.index_map, vec![0, 2, 4, 4, 4, 4, 4]);
    let third = vec![deg(8, 0), deg(10, 0), deg(12, 0)];
    let r = build_path(stops, 3, &vec![Some(first), None, Some(third)]);
    assert_eq!(
        r.path,
        vec![deg(0, 0), deg(1, 0), deg(2, 0), deg(3, 0), deg(4, 0), deg(10, 0), deg(12, 0)]
    );
    assert_eq!(r.index_map, vec![0, 2, 4, 6, 4, 5, 6]);
}

#[test]
fn geometry_running_backwards_gives_decreasing_indices() {
    let stops = vec![deg(0, 0), deg(4, 0)];
    let r = build_path(stops, 50, &vec![Some(vec![deg(4, 0), deg(2, 0), deg(0, 0)])]);
    assert_eq!(r.index_map, vec![2, 0]);
}

#[test]
fn answers_beyond_the_last_window_are_ignored() {
    let stops = vec![deg(0, 0), deg(4, 0)];
    let g = vec![deg(0, 0), deg(4, 0)];
    let r = build_path(stops, 50, &vec![Some(g.clone()), Some(vec![deg(9, 9), deg(8, 8)])]);
    assert_eq!(r.path, g);
    assert_eq!(r.index_map, vec![0, 1]);
}

#[test]
fn single_point_geometry_in_later_window_adds_nothing() {
    let stops: Vec<PathPoint> = (0..5).map(|i| deg(i, 0)).collect();
    let first = vec![deg(0, 0), deg(1, 0), deg(2, 0)];
    let r = build_path(stops, 3, &vec![Some(first.clone()), Some(vec![deg(2, 0)])]);
    assert_eq!(r.path, first);
    assert_eq!(r.index_map, vec![0, 1, 2, 2, 2]);
}

#[test]
fn projection_onto_a_segment() {
    let a = units(0, 0);
    let b = units(10, 0);
    assert_eq!(units(5, 5).project_onto_segment(&a, &b), units(5, 0));
    assert_eq!(units(-3, 4).project_onto_segment(&a, &b), a);
    assert_eq!(units(0, 9).project_onto_segment(&a, &b), a);
    assert_eq!(units(13, -4).project_onto_segment(&a, &b), b);
    assert_eq!(units(10, 7).project_onto_segment(&a, &b), b);
    assert_eq!(units(7, 7).project_onto_segment(&a, &a), a);
    assert_eq!(units(5, 5).project_onto_segment(&b, &a), units(5, 0));
    assert_eq!(units(1, 1).project_onto_segment(&units(0, 0), &units(2, 1)), units(1, 1));
    assert_eq!(units(1, 0).project_onto_segment(&units(0, 0), &units(1, 1)), units(1, 1));
    assert_eq!(units(-1, 0).project_onto_segment(&units(0, 0), &units(-1, -1)), units(-1, -1));
    assert_eq!(units(3, 0).project_onto_segment(&units(0, 0), &units(4, 4)), units(2, 2));
    assert_eq!(units(0, -3).project_onto_segment(&units(0, 0), &units(-4, -4)), units(-2, -2));
}

#[test]
fn projection_at_the_edge_of_the_globe() {
    let a = units(-180 * DEGREE, -90 * DEGREE);
    let b = units(180 * DEGREE, 90 * DEGREE);
    assert_eq!(units(0, 0).project_onto_segment(&a, &b), units(0, 0));
    assert_eq!(units(180 * DEGREE, 90 * DEGREE).project_onto_segment(&a, &b), b);
    assert_eq!(units(180 * DEGREE, -90 * DEGREE).project_onto_segment(&a, &b), units(108 * DEGREE, 54 * DEGREE));
    assert_eq!(units(-180 * DEGREE, 90 * DEGREE).project_onto_segment(&b, &a), units(-108 * DEGREE, -54 * DEGREE));
}

#[test]
fn closest_point_lies_on_the_nearest_segment() {
    let line = vec![deg(0, 0), deg(10, 0), deg(10, 10)];
    assert_eq!(closest_point_on_polyline(&deg(4, 3), &line), Some(deg(4, 0)));
    assert_eq!(closest_point_on_polyline(&deg(9, 5), &line), Some(deg(10, 5)));
    assert_eq!(closest_point_on_polyline(&deg(12, -2), &line), Some(deg(10, 0)));
    assert_eq!(closest_point_on_polyline(&deg(7, 3), &line), Some(deg(7, 0)));
    assert_eq!(closest_point_on_polyline(&deg(-5, 1), &line), Some(deg(0, 0)));
    assert_eq!(closest_point_on_polyline(&deg(3, 3), &vec![deg(1, 1)]), Some(deg(1, 1)));
    assert_eq!(closest_point_on_polyline(&deg(3, 3), &Vec::new()), None);
    assert_eq!(project_onto_segments(&deg(4, 3), &line), vec![deg(4, 0), deg(10, 3)]);
    assert_eq!(project_onto_segments(&deg(4, 3), &vec![deg(1, 1)]), vec![deg(1, 1)]);
    assert_eq!(project_onto_segments(&deg(4, 3), &Vec::new()), Vec::new());
}

#[test]
fn lengths_that_are_not_one_per_segment_give_no_feature() {
    let geometry = vec![deg(0, 0), deg(1, 0), deg(2, 0)];
    let route = RawRoute {
        route_id: "r".to_string(),
        route_number: "1".to_string(),
        fetched_at: "t".to_string(),
        stops: vec![stop("a", 1, 0, deg(0, 0)), stop("b", 2, 0, deg(2, 0))],
    };
    for count in [0usize, 1, 3, 4] {
        let stitched = build_path(stop_positions(&route.stops), 50, &vec![Some(geometry.clone())]);
        assert!(assemble(&route, stitched, &vec![7u64; count]).is_none());
    }
    let stitched = build_path(stop_positions(&route.stops), 50, &vec![Some(geometry.clone())]);
    assert_eq!(assemble(&route, stitched, &vec![7, 8]).unwrap().total_distance, 0);
    let stitched = build_path(stop_positions(&route.stops), 50, &vec![Some(geometry.clone())]);
    assert_eq!(assemble(&route, stitched, &vec![70, 80]).unwrap().total_distance, 200);
    let empty = build_path(stop_positions(&route.stops), 50, &vec![None]);
    assert!(assemble(&route, empty, &vec![1]).is_none());
    let single = build_path(stop_positions(&route.stops), 50, &vec![Some(vec![deg(1, 1)])]);
    assert_eq!(single.index_map, vec![0, 0]);
    assert!(assemble(&route, single, &vec![1]).is_none());
    let single = build_path(stop_positions(&route.stops), 50, &vec![Some(vec![deg(1, 1)])]);
    let feature = assemble(&route, single, &Vec::new()).unwrap();
    assert_eq!(feature.path, vec![deg(1, 1)]);
    assert_eq!(feature.turn_index, 0);
    assert_eq!(feature.total_distance, 0);
}
