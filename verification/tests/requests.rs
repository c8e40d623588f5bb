use polly::corridor::{CorridorSanitizer, CorridorQuery};
use polly::geometry::PathPoint;
use polly::model::Stop;
use polly::request::{corridor_coordinates, routing_coordinates, routing_url};

fn at(lon: i64, lat: i64) -> PathPoint {
    PathPoint::new(lon, lat).unwrap()
}

#[test]
fn coordinates_are_written_with_six_decimals() {
    let points = vec![at(127_920_123_456, 37_340_000_500), at(-1_500, -89_999_999_499)];
    assert_eq!(routing_coordinates(&points), "127.920123,37.340001;-0.000002,-89.999999");
}

#[test]
fn coordinates_near_zero_have_no_sign() {
    assert_eq!(routing_coordinates(&vec![at(-499, 499)]), "0.000000,0.000000");
    assert_eq!(routing_coordinates(&vec![at(-500, 500)]), "-0.000001,0.000001");
    assert_eq!(routing_coordinates(&vec![at(0, 0)]), "0.000000,0.000000");
}

#[test]
fn coordinates_at_the_edge_of_the_globe() {
    let points = vec![at(180_000_000_000, 90_000_000_000), at(-180_000_000_000, -90_000_000_000)];
    assert_eq!(routing_coordinates(&points), "180.000000,90.000000;-180.000000,-90.000000");
    assert_eq!(routing_coordinates(&Vec::new()), "");
    assert_eq!(routing_coordinates(&vec![at(1_000_000_000, 2_050_000_000)]), "1.000000,2.050000");
}

#[test]
fn corridor_request_names_the_two_neighbours() {
    let q = CorridorQuery {
        from: at(127_000_000_000, 37_000_000_000),
        to: at(127_100_000_000, 37_200_000_000),
        stop: at(0, 0),
    };
    assert_eq!(corridor_coordinates(&q), "127.000000,37.000000;127.100000,37.200000");
    let stops: Vec<Stop> = (0..3)
        .map(|i| Stop {
            node_id: format!("{}", i),
            name: String::new(),
            node_number: String::new(),
            sequence_order: i,
            direction_code: 0,
            position: at(i * 1_000_000_000, 0),
        })
        .collect();
    let q = CorridorSanitizer::new(stops).pending_query().unwrap();
    assert_eq!(corridor_coordinates(&q), "0.000000,0.000000;2.000000,0.000000");
}

#[test]
fn routing_address_carries_the_options() {
    assert_eq!(
        routing_url("http://localhost:5000/route/v1/driving", "1.000000,2.000000;3.000000,4.000000"),
        "http://localhost:5000/route/v1/driving/1.000000,2.000000;3.000000,4.000000?overview=full&geometries=geojson&steps=false&continue_straight=true"
    );
    assert_eq!(
        routing_url("", ""),
        "/?overview=full&geometries=geojson&steps=false&continue_straight=true"
    );
}
