use polly::pattern::{captures, group_text};
use polly::schedule::{classify_day_type, normalize_day_type, parse_route_id, split_route_id};
use polly::timetable::{
    choose_table, classify_header, header_kind, parse_detail_schedule, read_cells, scan_headers,
    settle_directions, HeaderKind, RouteMeta, ScheduleError, Table, TableRow, TimeEntry,
};

fn texts(items: &[&str]) -> Vec<String> {
    items.iter().map(|s| s.to_string()).collect()
}

fn header_row(items: &[&str]) -> TableRow {
    TableRow { headers: texts(items), cells: Vec::new() }
}

fn data_row(items: &[&str]) -> TableRow {
    TableRow { headers: Vec::new(), cells: texts(items) }
}

fn entry(time: &str, note: Option<&str>) -> TimeEntry {
    TimeEntry { time: time.to_string(), note: note.map(|n| n.to_string()) }
}

#[test]
fn day_types_are_told_apart() {
    assert_eq!(normalize_day_type("평일"), "weekday");
    assert_eq!(normalize_day_type("(주중)"), "weekday");
    assert_eq!(normalize_day_type("주말"), "weekend");
    assert_eq!(normalize_day_type("공휴일"), "weekend");
    assert_eq!(normalize_day_type("토요일"), "weekend");
    assert_eq!(normalize_day_type("방학"), "weekend");
    assert_eq!(normalize_day_type("일"), "weekend");
    assert_eq!(normalize_day_type("평일/주말"), "weekday");
    assert_eq!(normalize_day_type("general"), "general");
    assert_eq!(normalize_day_type(""), "general");
    assert_eq!(normalize_day_type("HOLIDAY"), "general");
    assert_eq!(classify_day_type("휴일"), "weekend");
    assert_eq!(classify_day_type("x주중x"), "weekday");
}

#[test]
fn lowercase_is_taken_before_classifying() {
    assert_eq!(normalize_day_type("ABC평일"), classify_day_type("abc평일"));
    assert_eq!("ÀB".to_lowercase(), "àb");
}

#[test]
fn captures_copies_the_groups() {
    let found = captures("a(b)?(c)", "xacx").unwrap();
    assert_eq!(found, Some(vec![Some("ac".to_string()), None, Some("c".to_string())]));
    assert_eq!(group_text(&found, 0), Some("ac".to_string()));
    assert_eq!(group_text(&found, 1), None);
    assert_eq!(group_text(&found, 2), Some("c".to_string()));
    assert_eq!(group_text(&found, 3), None);
    assert_eq!(captures("a(b)", "xyz").unwrap(), None);
    assert_eq!(group_text(&None, 0), None);
    assert!(captures("a(b", "ab").is_err());
}

#[test]
fn route_id_is_split_by_the_pattern() {
    let parts = parse_route_id("34-1(평일)").unwrap();
    assert_eq!(parts.route_number, "3");
    assert_eq!(parts.raw_day_type, "4-1(평일");
    let parts = parse_route_id("7").unwrap();
    assert_eq!(parts.route_number, "7");
    assert_eq!(parts.raw_day_type, "");
    let parts = parse_route_id("").unwrap();
    assert_eq!(parts.route_number, "");
    assert_eq!(parts.raw_day_type, "general");
    let parts = parse_route_id(" 5").unwrap();
    assert_eq!(parts.route_number, " 5");
    assert_eq!(parts.raw_day_type, "general");
}

#[test]
fn split_route_id_strips_outer_brackets() {
    let found = Some(vec![
        Some("34-1(평일)".to_string()),
        Some("34-1".to_string()),
        Some("((평일))".to_string()),
    ]);
    let parts = split_route_id("34-1(평일)", &found);
    assert_eq!(parts.route_number, "34-1");
    assert_eq!(parts.raw_day_type, "평일");
    let parts = split_route_id("x", &Some(vec![Some("x".to_string()), None, None]));
    assert_eq!(parts.route_number, "");
    assert_eq!(parts.raw_day_type, "general");
    let parts = split_route_id("x", &Some(vec![Some("x".to_string()), Some("x".to_string()), Some("()".to_string())]));
    assert_eq!(parts.raw_day_type, "");
    let parts = split_route_id("abc", &None);
    assert_eq!(parts.route_number, "abc");
    assert_eq!(parts.raw_day_type, "general");
}

#[test]
fn headers_are_classified() {
    assert_eq!(classify_header(" 비고 ").unwrap(), HeaderKind::Note);
    assert_eq!(classify_header("터미널발").unwrap(), HeaderKind::Direction("터미널".to_string()));
    assert_eq!(classify_header("  시청 ").unwrap(), HeaderKind::Direction("시청".to_string()));
    assert_eq!(classify_header("운행순번").unwrap(), HeaderKind::Other);
    assert_eq!(classify_header("시").unwrap(), HeaderKind::Other);
    assert_eq!(classify_header("분").unwrap(), HeaderKind::Other);
    assert_eq!(classify_header("구분").unwrap(), HeaderKind::Other);
    assert_eq!(classify_header("").unwrap(), HeaderKind::Other);
    assert_eq!(classify_header("발").unwrap(), HeaderKind::Other);
    assert_eq!(classify_header("발발").unwrap(), HeaderKind::Other);
    assert_eq!(classify_header("6시").unwrap(), HeaderKind::Other);
    assert_eq!(classify_header("12시발").unwrap(), HeaderKind::Other);
    assert_eq!(classify_header("x6시").unwrap(), HeaderKind::Direction("x6시".to_string()));
    assert_eq!(header_kind("역", true), HeaderKind::Other);
    assert_eq!(header_kind("역", false), HeaderKind::Direction("역".to_string()));
    assert_eq!(header_kind("비고", true), HeaderKind::Note);
}

#[test]
fn table_with_departure_header_is_chosen() {
    let plain = Table { rows: vec![header_row(&["구분"]), data_row(&["x"])] };
    let wanted = Table { rows: vec![header_row(&["운행순번", "터미널발"])] };
    assert_eq!(choose_table(&vec![]), None);
    assert_eq!(choose_table(&vec![plain]), Some(0));
    let plain = Table { rows: vec![header_row(&["구분"]), data_row(&["x"])] };
    let other = Table { rows: vec![data_row(&["발"])] };
    assert_eq!(choose_table(&vec![plain, other, wanted]), Some(2));
}

#[test]
fn scan_collects_directions_and_columns() {
    let kinds = vec![
        vec![
            HeaderKind::Other,
            HeaderKind::Direction("a".to_string()),
            HeaderKind::Direction("b".to_string()),
            HeaderKind::Note,
        ],
        vec![],
        vec![HeaderKind::Direction("b".to_string()), HeaderKind::Other, HeaderKind::Other, HeaderKind::Other, HeaderKind::Other, HeaderKind::Direction("c".to_string())],
    ];
    let scan = scan_headers(&kinds);
    assert_eq!(scan.note_column, Some(3));
    assert_eq!(scan.directions, texts(&["a", "b", "c"]));
    assert_eq!(
        scan.columns,
        vec![
            Some("b".to_string()),
            Some("a".to_string()),
            Some("b".to_string()),
            None,
            None,
            Some("c".to_string())
        ]
    );
}

#[test]
fn known_directions_stand_in_for_missing_headers() {
    let meta = RouteMeta {
        origin: "a".to_string(),
        destination: "b".to_string(),
        directions: texts(&["a", "b"]),
    };
    let scan = settle_directions(scan_headers(&vec![vec![HeaderKind::Note]]), Some(&meta));
    assert_eq!(scan.note_column, Some(0));
    assert_eq!(scan.directions, texts(&["a", "b"]));
    assert_eq!(scan.columns, vec![None, Some("a".to_string()), Some("b".to_string())]);
    let scan = settle_directions(scan_headers(&vec![vec![HeaderKind::Note]]), None);
    assert_eq!(scan.directions, Vec::<String>::new());
    assert_eq!(scan.columns, Vec::<Option<String>>::new());
    let scan = settle_directions(
        scan_headers(&vec![vec![HeaderKind::Direction("x".to_string())]]),
        Some(&meta),
    );
    assert_eq!(scan.directions, texts(&["x"]));
    assert_eq!(scan.columns, vec![Some("x".to_string())]);
}

#[test]
fn cells_are_trimmed_and_searched_for_a_time() {
    let row = data_row(&[" 1 ", "06:30", " 7:05 (경유)", "25:99x", "630", ""]);
    let cells = read_cells(&row).unwrap();
    assert_eq!(cells.labels, texts(&["1", "06:30", "7:05 (경유)", "25:99x", "630", ""]));
    assert_eq!(
        cells.times,
        vec![
            None,
            Some("06:30".to_string()),
            Some("7:05".to_string()),
            Some("25:99".to_string()),
            None,
            None
        ]
    );
}

#[test]
fn timetable_is_read_off_its_table() {
    let tables = vec![
        Table { rows: vec![data_row(&["menu"])] },
        Table {
            rows: vec![
                header_row(&["운행순번", "터미널발", "시청발", "비고"]),
                data_row(&["1", "06:30", "07:10", ""]),
                data_row(&["2", "08:00", "-", "학기중"]),
                data_row(&["3", " 9:15 ", "10:00", " 경유 "]),
            ],
        },
    ];
    let parsed = parse_detail_schedule(&tables, "34-1(주말)", None).unwrap();
    assert_eq!(parsed.route_number, "3");
    assert_eq!(parsed.day_type, "weekend");
    assert_eq!(parsed.directions, texts(&["터미널", "시청"]));
    assert_eq!(parsed.times_by_direction.len(), 2);
    assert_eq!(parsed.times_by_direction[0].direction, "터미널");
    assert_eq!(
        parsed.times_by_direction[0].entries,
        vec![entry("06:30", None), entry("08:00", Some("학기중")), entry("9:15", Some("경유"))]
    );
    assert_eq!(parsed.times_by_direction[1].direction, "시청");
    assert_eq!(
        parsed.times_by_direction[1].entries,
        vec![entry("07:10", None), entry("10:00", Some("경유"))]
    );
}

#[test]
fn timetable_without_direction_headers_uses_known_directions() {
    let meta = RouteMeta {
        origin: "a".to_string(),
        destination: "b".to_string(),
        directions: texts(&["a", "b"]),
    };
    let tables = vec![Table {
        rows: vec![header_row(&["구분", "시", "분"]), data_row(&["1", "06:30", "07:10"])],
    }];
    let parsed = parse_detail_schedule(&tables, "9", Some(&meta)).unwrap();
    assert_eq!(parsed.route_number, "9");
    assert_eq!(parsed.day_type, "general");
    assert_eq!(parsed.directions, texts(&["a", "b"]));
    assert_eq!(parsed.times_by_direction[0].entries, vec![entry("06:30", None)]);
    assert_eq!(parsed.times_by_direction[1].entries, vec![entry("07:10", None)]);
    let bare = parse_detail_schedule(&tables, "9", None).unwrap();
    assert_eq!(bare.directions, Vec::<String>::new());
    assert_eq!(bare.times_by_direction, vec![]);
}

#[test]
fn page_without_table_is_an_error() {
    assert_eq!(parse_detail_schedule(&vec![], "34-1", None), Err(ScheduleError::NoTable));
}

#[test]
fn row_without_data_cells_reads_as_empty() {
    let cells = read_cells(&header_row(&["터미널발", "비고"])).unwrap();
    assert_eq!(cells.labels, Vec::<String>::new());
    assert_eq!(cells.times, Vec::<Option<String>>::new());
}

#[test]
fn labels_that_name_no_direction_need_no_hour_test() {
    assert_eq!(classify_header("비고").unwrap(), HeaderKind::Note);
    assert_eq!(classify_header("   ").unwrap(), HeaderKind::Other);
    assert_eq!(classify_header("시발").unwrap(), HeaderKind::Other);
    assert_eq!(classify_header("구분발발").unwrap(), HeaderKind::Other);
    assert_eq!(classify_header("7시").unwrap(), HeaderKind::Other);
    assert_eq!(classify_header("７시").unwrap(), HeaderKind::Other);
    assert_eq!(classify_header("시7").unwrap(), HeaderKind::Direction("시7".to_string()));
}
