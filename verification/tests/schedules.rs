use polly::args::{RouteArgs, ScheduleArgs};
use polly::ingest::{
    has_distinct_nodes, is_in_visiting_order, is_route_stop_list, is_usable_route, sort_stops,
    visiting_order,
};
use polly::geometry::PathPoint;
use polly::listing::{
    detail_request_body, extract_route_info, list_timetable, meta_for, route_number_of,
    row_route_id, safe_file_char, schedule_file_name, ListingRow, RouteListing,
};
use polly::merge::{
    absorb_schedule, departure_hours, merge_schedules, minutes_in_hour, new_record, note_id,
    put_slot, remember_text, split_time, DaySchedule, HourSlot, MinuteEntry,
};
use polly::model::Stop;
use polly::timetable::{
    has_departures, DirectionTimes, ParsedSchedule, RouteEntry, RouteMeta, TimeEntry,
};
use std::path::PathBuf;

fn words(items: &[&str]) -> Vec<String> {
    items.iter().map(|s| s.to_string()).collect()
}

fn departure(time: &str, note: Option<&str>) -> TimeEntry {
    TimeEntry { time: time.to_string(), note: note.map(|n| n.to_string()) }
}

fn minute(m: &str, note: Option<&str>) -> MinuteEntry {
    MinuteEntry { minute: m.to_string(), note_id: note.map(|n| n.to_string()) }
}

fn slot(hour: &str, direction: &str, minutes: Vec<MinuteEntry>) -> HourSlot {
    HourSlot { hour: hour.to_string(), direction: direction.to_string(), minutes }
}

fn timetable(number: &str, day: &str, times: Vec<(&str, Vec<TimeEntry>)>) -> ParsedSchedule {
    ParsedSchedule {
        route_number: number.to_string(),
        day_type: day.to_string(),
        directions: times.iter().map(|t| t.0.to_string()).collect(),
        times_by_direction: times
            .into_iter()
            .map(|t| DirectionTimes { direction: t.0.to_string(), entries: t.1 })
            .collect(),
    }
}

fn listing_row(onclick: Option<&str>, cells: &[&str]) -> ListingRow {
    ListingRow { onclick: onclick.map(|s| s.to_string()), cells: words(cells) }
}

fn known(number: &str, origin: &str, destination: &str, directions: &[&str]) -> RouteEntry {
    RouteEntry {
        route_number: number.to_string(),
        meta: RouteMeta {
            origin: origin.to_string(),
            destination: destination.to_string(),
            directions: words(directions),
        },
    }
}

fn stop_at(id: &str, order: i64) -> Stop {
    Stop {
        node_id: id.to_string(),
        name: id.to_string(),
        node_number: id.to_string(),
        sequence_order: order,
        direction_code: 0,
        position: PathPoint::new(0, 0).unwrap(),
    }
}

#[test]
fn time_is_split_at_its_one_colon() {
    assert_eq!(split_time("6:30"), Some(("06".to_string(), "30".to_string())));
    assert_eq!(split_time("06:05"), Some(("06".to_string(), "05".to_string())));
    assert_eq!(split_time(":5"), Some(("00".to_string(), "05".to_string())));
    assert_eq!(split_time("123:456"), Some(("123".to_string(), "456".to_string())));
    assert_eq!(split_time("7:"), Some(("07".to_string(), "00".to_string())));
    assert_eq!(split_time("0630"), None);
    assert_eq!(split_time("6:30:00"), None);
    assert_eq!(split_time(""), None);
}

#[test]
fn remarks_are_numbered_from_one_in_order_of_arrival() {
    let mut notes = Vec::new();
    remember_text(&mut notes, "b");
    remember_text(&mut notes, "a");
    remember_text(&mut notes, "b");
    assert_eq!(notes, words(&["b", "a"]));
    assert_eq!(note_id(&notes, "b"), "1");
    assert_eq!(note_id(&notes, "a"), "2");
    assert_eq!(note_id(&notes, "zz"), "3");
    let many: Vec<String> = (0..12).map(|i| format!("n{}", i)).collect();
    assert_eq!(note_id(&many, "n9"), "10");
    assert_eq!(note_id(&many, "n11"), "12");
}

#[test]
fn departures_are_grouped_by_hour() {
    let entries = vec![
        departure("6:30", None),
        departure("07:00", Some("x")),
        departure("06:45", Some("y")),
        departure("bad", Some("z")),
        departure("7:5", None),
    ];
    assert_eq!(departure_hours(&entries), words(&["06", "07"]));
    let notes = words(&["y", "x"]);
    assert_eq!(
        minutes_in_hour(&entries, "06", &notes),
        vec![minute("30", None), minute("45", Some("1"))]
    );
    assert_eq!(
        minutes_in_hour(&entries, "07", &notes),
        vec![minute("00", Some("2")), minute("05", None)]
    );
    assert_eq!(minutes_in_hour(&entries, "08", &notes), vec![]);
}

#[test]
fn slot_replaces_the_slot_of_its_hour_and_direction() {
    let mut slots = vec![slot("06", "a", vec![minute("01", None)]), slot("06", "b", vec![])];
    put_slot(&mut slots, slot("06", "b", vec![minute("02", None)]));
    put_slot(&mut slots, slot("07", "a", vec![minute("03", None)]));
    assert_eq!(
        slots,
        vec![
            slot("06", "a", vec![minute("01", None)]),
            slot("06", "b", vec![minute("02", None)]),
            slot("07", "a", vec![minute("03", None)]),
        ]
    );
}

#[test]
fn record_of_a_known_route_has_its_termini() {
    let routes = vec![known("34", "터미널", "시청", &["시청", "터미널"]), known("34", "x", "y", &[])];
    let r = new_record("34", &words(&["q"]), &routes);
    assert_eq!(r.route_id, "34");
    assert_eq!(r.route_name, "34번");
    assert_eq!(r.description, "터미널 ↔ 시청");
    assert_eq!(r.directions, words(&["시청", "터미널"]));
    assert_eq!(r.schedule, vec![]);
    assert_eq!(r.notes, Vec::<String>::new());
    let r = new_record("35", &words(&["q"]), &routes);
    assert_eq!(r.route_name, "35번");
    assert_eq!(r.description, " ↔ ");
    assert_eq!(r.directions, words(&["q"]));
}

#[test]
fn timetables_of_one_route_are_merged() {
    let weekday = timetable(
        "34",
        "weekday",
        vec![
            ("a", vec![departure("6:30", Some("경유")), departure("06:50", None), departure("7:10", Some("학기"))]),
            ("b", vec![departure("06:40", Some("학기"))]),
        ],
    );
    let weekend = timetable("34", "weekend", vec![("a", vec![departure("9:00", Some("경유"))])]);
    let other = timetable("2", "general", vec![("c", vec![departure("10:10", Some("새"))])]);
    let merged = merge_schedules(&vec![weekday, other, weekend], &vec![known("2", "o", "d", &["d", "o"])]);
    assert_eq!(merged.len(), 2);
    let r = &merged[0];
    assert_eq!(r.route_id, "34");
    assert_eq!(r.description, " ↔ ");
    assert_eq!(r.directions, words(&["a", "b"]));
    assert_eq!(r.notes, words(&["경유", "학기"]));
    assert_eq!(
        r.schedule,
        vec![
            DaySchedule {
                day_type: "weekday".to_string(),
                slots: vec![
                    slot("06", "a", vec![minute("30", Some("1")), minute("50", None)]),
                    slot("07", "a", vec![minute("10", Some("2"))]),
                    slot("06", "b", vec![minute("40", Some("2"))]),
                ],
            },
            DaySchedule {
                day_type: "weekend".to_string(),
                slots: vec![slot("09", "a", vec![minute("00", Some("1"))])],
            },
        ]
    );
    let r = &merged[1];
    assert_eq!(r.route_id, "2");
    assert_eq!(r.route_name, "2번");
    assert_eq!(r.description, "o ↔ d");
    assert_eq!(r.directions, words(&["d", "o"]));
    assert_eq!(r.notes, words(&["새"]));
    assert_eq!(merge_schedules(&vec![], &vec![]), vec![]);
}

#[test]
fn later_timetable_of_a_day_type_replaces_the_earlier() {
    let first = timetable("1", "weekday", vec![("a", vec![departure("6:30", Some("n1"))])]);
    let second = timetable("1", "weekday", vec![("a", vec![departure("8:00", Some("n2"))])]);
    let route = new_record("1", &words(&["a"]), &vec![]);
    let route = absorb_schedule(route, &first);
    let route = absorb_schedule(route, &second);
    assert_eq!(route.notes, words(&["n1", "n2"]));
    assert_eq!(
        route.schedule,
        vec![DaySchedule {
            day_type: "weekday".to_string(),
            slots: vec![slot("08", "a", vec![minute("00", Some("2"))])],
        }]
    );
}

#[test]
fn listing_gives_targets_and_route_termini() {
    let rows = vec![
        listing_row(None, &["노선", "기점", "종점", "", "", ""]),
        listing_row(Some("goDetail('34-1(평일)')"), &["34-1", " 터미널 ", "시청", "", "", ""]),
        listing_row(Some("javascript:goDetail('34-1(주말)');"), &["34-1", "터미널", " 역 ", "", "", ""]),
        listing_row(Some("goDetail('2')"), &["2", "가", "나", "", "", ""]),
        listing_row(Some("goDetail('5')"), &["5", "가", "나", "", ""]),
        listing_row(Some("goDetail('')"), &["5", "가", "나", "", "", ""]),
        listing_row(Some("other('9')"), &["9", "가", "나", "", "", ""]),
    ];
    let all = extract_route_info(&rows, &None).unwrap();
    assert_eq!(all.targets, words(&["34-1(평일)", "34-1(주말)", "2"]));
    assert_eq!(
        all.routes,
        vec![
            known("34-1", "터미널", "시청", &["시청", "역", "터미널"]),
            known("2", "가", "나", &["가", "나"]),
        ]
    );
    let some = extract_route_info(&rows, &Some("34".to_string())).unwrap();
    assert_eq!(some.targets, words(&["34-1(평일)", "34-1(주말)"]));
    assert_eq!(some.routes, vec![known("34-1", "터미널", "시청", &["시청", "역", "터미널"])]);
    let none = extract_route_info(&rows, &Some("7".to_string())).unwrap();
    assert_eq!(none.targets, Vec::<String>::new());
    assert_eq!(none.routes, vec![]);
}

#[test]
fn row_lists_a_timetable_only_with_six_cells_and_an_action() {
    assert_eq!(
        row_route_id(&listing_row(Some("goDetail('a')"), &["", "", "", "", "", ""])).unwrap(),
        Some("a".to_string())
    );
    assert_eq!(row_route_id(&listing_row(Some("goDetail('a')"), &["", ""])).unwrap(), None);
    assert_eq!(row_route_id(&listing_row(None, &["", "", "", "", "", "", ""])).unwrap(), None);
    assert_eq!(
        row_route_id(&listing_row(Some("goDetail(a)"), &["", "", "", "", "", ""])).unwrap(),
        None
    );
}

#[test]
fn route_number_stands_before_the_first_bracket() {
    assert_eq!(route_number_of("34-1(평일)"), "34-1");
    assert_eq!(route_number_of("34-1"), "34-1");
    assert_eq!(route_number_of("(x)"), "");
    assert_eq!(route_number_of("a(b)(c)"), "a");
    assert_eq!(route_number_of(""), "");
}

#[test]
fn request_body_is_percent_encoded() {
    assert_eq!(detail_request_body("34-1"), "no=34%2D1");
    assert_eq!(detail_request_body("aZ09"), "no=aZ09");
    assert_eq!(detail_request_body("a b_c~"), "no=a%20b%5Fc%7E");
    assert_eq!(detail_request_body("2(평일)"), "no=2%28%ED%8F%89%EC%9D%BC%29");
    assert_eq!(detail_request_body(""), "no=");
}

#[test]
fn file_name_keeps_letters_numbers_and_hyphens() {
    assert_eq!(schedule_file_name("34-1"), "34-1.json");
    assert_eq!(schedule_file_name("34/1 a.b"), "34_1_a_b.json");
    assert_eq!(schedule_file_name("평일(1)"), "평일_1_.json");
    assert_eq!(schedule_file_name(""), ".json");
}

#[test]
fn route_request_selects_by_number_and_file_name() {
    let all = RouteArgs {
        city_code: "32020".to_string(),
        route: None,
        output_dir: PathBuf::from("./out"),
        station_map_only: false,
        osrm_only: false,
    };
    assert!(all.selects_route("34-1"));
    assert!(all.selects_file("34-1_WJB1.json"));
    assert!(!all.selects_file("34-1_WJB1.geojson"));
    assert!(!all.selects_file(".json"));
    assert!(!all.selects_file("34-1_WJB1.JSON"));
    let one = RouteArgs { route: Some("34-1".to_string()), ..all };
    assert!(one.selects_route("34-1"));
    assert!(!one.selects_route("34"));
    assert!(!one.selects_route("34-10"));
    assert!(one.selects_file("34-1_WJB1.json"));
    assert!(one.selects_file("x34-10_WJB1.json"));
    assert!(!one.selects_file("34_WJB1.json"));
    assert!(!one.selects_file("34-1_WJB1.txt"));
}

#[test]
fn schedule_request_selects_by_prefix() {
    let all = ScheduleArgs { route: None, output_dir: PathBuf::from("out") };
    assert!(all.selects("34-1(평일)"));
    let one = ScheduleArgs { route: Some("34-1".to_string()), output_dir: PathBuf::from("out") };
    assert!(one.selects("34-1(평일)"));
    assert!(one.selects("34-1"));
    assert!(!one.selects("34"));
    assert!(!one.selects("134-1"));
}

#[test]
fn route_without_id_or_number_is_not_usable() {
    assert!(is_usable_route("WJB1", "34-1"));
    assert!(!is_usable_route("", "34-1"));
    assert!(!is_usable_route("WJB1", "UNKNOWN"));
    assert!(!is_usable_route("", "UNKNOWN"));
    assert!(is_usable_route("WJB1", "unknown"));
    assert!(is_usable_route("WJB1", ""));
}

#[test]
fn stops_are_sorted_by_order_and_stay_in_place_when_equal() {
    let stops = vec![stop_at("c", 3), stop_at("a", 1), stop_at("b1", 2), stop_at("b2", 2), stop_at("z", 1)];
    assert!(!is_in_visiting_order(&stops));
    let sorted = sort_stops(&stops);
    let ids: Vec<&str> = sorted.iter().map(|s| s.node_id.as_str()).collect();
    assert_eq!(ids, vec!["a", "z", "b1", "b2", "c"]);
    assert!(is_in_visiting_order(&sorted));
    assert_eq!(sort_stops(&sorted), sorted);
    assert_eq!(sort_stops(&Vec::new()), Vec::new());
    assert!(is_in_visiting_order(&Vec::new()));
    assert!(is_in_visiting_order(&vec![stop_at("a", i64::MAX)]));
    assert!(is_in_visiting_order(&vec![stop_at("a", i64::MIN), stop_at("b", i64::MIN)]));
}

#[test]
fn file_name_character_depends_on_its_kind() {
    assert_eq!(safe_file_char('a', true), 'a');
    assert_eq!(safe_file_char('-', false), '-');
    assert_eq!(safe_file_char('/', false), '_');
    assert_eq!(safe_file_char('/', true), '/');
    assert_eq!(safe_file_char('_', false), '_');
}

#[test]
fn listed_timetable_adds_target_and_termini() {
    let empty = RouteListing { routes: vec![], targets: vec![] };
    let one = list_timetable(empty, "7(평일)".to_string(), "b".to_string(), "a".to_string());
    assert_eq!(one.targets, words(&["7(평일)"]));
    assert_eq!(one.routes, vec![known("7", "b", "a", &["a", "b"])]);
    let two = list_timetable(one, "7(주말)".to_string(), "c".to_string(), "a".to_string());
    assert_eq!(two.targets, words(&["7(평일)", "7(주말)"]));
    assert_eq!(two.routes, vec![known("7", "b", "a", &["a", "b", "c"])]);
    let three = list_timetable(two, "8".to_string(), "z".to_string(), "z".to_string());
    assert_eq!(
        three.routes,
        vec![known("7", "b", "a", &["a", "b", "c"]), known("8", "z", "z", &["z"])]
    );
}

#[test]
fn route_of_a_timetable_is_looked_up_by_its_number() {
    let routes = vec![known("34-1", "a", "b", &["a", "b"]), known("2", "c", "d", &[]), known("2", "e", "f", &[])];
    assert_eq!(meta_for(&routes, "34-1(평일)").map(|m| m.origin.as_str()), Some("a"));
    assert_eq!(meta_for(&routes, "2").map(|m| m.origin.as_str()), Some("c"));
    assert_eq!(meta_for(&routes, "2(주말)(x)").map(|m| m.destination.as_str()), Some("d"));
    assert!(meta_for(&routes, "34").is_none());
    assert!(meta_for(&routes, "(2)").is_none());
    assert!(meta_for(&Vec::new(), "2").is_none());
}

#[test]
fn timetable_without_departures_is_told() {
    assert!(!has_departures(&timetable("1", "general", vec![])));
    assert!(!has_departures(&timetable("1", "general", vec![("a", vec![]), ("b", vec![])])));
    assert!(has_departures(&timetable(
        "1",
        "general",
        vec![("a", vec![]), ("b", vec![departure("6:00", None)])]
    )));
}

#[test]
fn list_without_actions_lists_nothing() {
    let rows = vec![
        listing_row(None, &["노선", "기점", "종점", "", "", ""]),
        listing_row(Some("goDetail('5')"), &["5", "가", "나"]),
        listing_row(None, &[]),
    ];
    let listing = extract_route_info(&rows, &None).unwrap();
    assert_eq!(listing.targets, Vec::<String>::new());
    assert_eq!(listing.routes, vec![]);
    let listing = extract_route_info(&Vec::new(), &Some("3".to_string())).unwrap();
    assert_eq!(listing.targets, Vec::<String>::new());
    assert_eq!(listing.routes, vec![]);
}

#[test]
fn nodes_of_a_stop_list_are_checked_for_repeats() {
    assert!(has_distinct_nodes(&Vec::new()));
    assert!(has_distinct_nodes(&vec![stop_at("a", 1)]));
    assert!(has_distinct_nodes(&vec![stop_at("a", 1), stop_at("b", 1), stop_at("ab", 1)]));
    assert!(!has_distinct_nodes(&vec![stop_at("a", 1), stop_at("b", 2), stop_at("a", 3)]));
    assert!(!has_distinct_nodes(&vec![stop_at("a", 1), stop_at("a", 1)]));
    assert!(!has_distinct_nodes(&vec![stop_at("", 1), stop_at("b", 2), stop_at("", 3)]));
}

#[test]
fn stop_list_of_a_route_is_ordered_and_free_of_repeats() {
    assert!(is_route_stop_list(&Vec::new()));
    assert!(is_route_stop_list(&vec![stop_at("a", 1), stop_at("b", 1), stop_at("c", 4)]));
    assert!(!is_route_stop_list(&vec![stop_at("a", 2), stop_at("b", 1)]));
    assert!(!is_route_stop_list(&vec![stop_at("a", 1), stop_at("a", 2)]));
    assert!(!is_route_stop_list(&vec![stop_at("a", 2), stop_at("a", 1)]));
}

#[test]
fn visiting_order_names_the_place_of_each_sorted_stop() {
    let stops = vec![stop_at("c", 3), stop_at("a", 1), stop_at("b1", 2), stop_at("b2", 2), stop_at("z", 1)];
    let order = visiting_order(&stops);
    assert_eq!(order, vec![1, 4, 2, 3, 0]);
    let sorted = sort_stops(&stops);
    for (i, at) in order.iter().enumerate() {
        assert_eq!(sorted[i], stops[*at]);
    }
    assert_eq!(visiting_order(&Vec::new()), Vec::<usize>::new());
    assert_eq!(visiting_order(&vec![stop_at("a", 5), stop_at("b", 5), stop_at("c", 5)]), vec![0, 1, 2]);
    assert_eq!(visiting_order(&vec![stop_at("a", 3), stop_at("b", 2), stop_at("c", 1)]), vec![2, 1, 0]);
}
