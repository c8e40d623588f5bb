//! Reading one timetable page: which table holds the departures, what its
//! header cells stand for, and which departure times its rows hold.

use crate::pattern::{
    PatternError, captured, captures, compiles, group_of, group_text, groups_view,
};
use crate::schedule::{
    day_type_of, normalize_day_type, parse_route_id, route_id_parts, ROUTE_ID_PATTERN,
};
use crate::names::{copy_optional, copy_texts, holds_text, optional_view, texts_view};
use crate::text::{
    chars_equal, chars_of, contains_chars, has_substring, str_equal, str_trim, strip_trailing,
    trimmed, without_trailing,
};
use crate::unicode::{lowercase_of, string_from_chars};
use vstd::prelude::*;

verus! {

/// Pattern of a header that names an hour of the day.
pub const HOUR_HEADER_PATTERN: &'static str = "^\\d+시$";

/// Pattern of a departure time at the start of a cell.
pub const TIME_PATTERN: &'static str = "^(\\d{1,2}:\\d{2})";

/// What is known of a route from the list of all timetables.
#[derive(Debug, PartialEq, Eq)]
pub struct RouteMeta {
    pub origin: String,
    pub destination: String,
    /// The route's termini, each once, in ascending order.
    pub directions: Vec<String>,
}

/// A route number with what is known of the route.
#[derive(Debug, PartialEq, Eq)]
pub struct RouteEntry {
    pub route_number: String,
    pub meta: RouteMeta,
}

/// A departure.
#[derive(Debug, PartialEq, Eq)]
pub struct TimeEntry {
    /// Time of day as `h:mm` or `hh:mm`.
    pub time: String,
    /// Remark that the row carries.
    pub note: Option<String>,
}

/// The departures in one direction, in table order.
#[derive(Debug, PartialEq, Eq)]
pub struct DirectionTimes {
    pub direction: String,
    pub entries: Vec<TimeEntry>,
}

/// One timetable: a route on one kind of day.
#[derive(Debug, PartialEq, Eq)]
pub struct ParsedSchedule {
    pub route_number: String,
    pub day_type: String,
    pub directions: Vec<String>,
    /// One entry for each of `directions`, in that order.
    pub times_by_direction: Vec<DirectionTimes>,
}

/// A row of a table: the texts of its header cells and of its data cells.
#[derive(Debug, PartialEq, Eq)]
pub struct TableRow {
    pub headers: Vec<String>,
    pub cells: Vec<String>,
}

/// A table of a page, row by row.
#[derive(Debug, PartialEq, Eq)]
pub struct Table {
    pub rows: Vec<TableRow>,
}

/// Why a timetable page could not be read.
#[derive(Clone, Copy, Debug, PartialEq, Eq, Structural)]
pub enum ScheduleError {
    /// A pattern of this library was refused.
    Pattern,
    /// The page holds no table.
    NoTable,
}

/// Whether a row has a header cell that speaks of departures.
pub open spec fn row_names_departure(row: TableRow) -> bool {
    exists|h: int| 0 <= h < row.headers.len() && has_substring(#[trigger] row.headers[h]@, "발"@)
}

/// Whether a table has a header cell that speaks of departures.
pub open spec fn names_departure(table: Table) -> bool {
    exists|r: int| 0 <= r < table.rows.len() && row_names_departure(#[trigger] table.rows[r])
}

/// Whether `at` is the table to read: the first that speaks of departures,
/// and the first of all where none does.
pub open spec fn is_schedule_table(tables: Seq<Table>, at: int) -> bool {
    &&& 0 <= at < tables.len()
    &&& forall|i: int| 0 <= i < at ==> !names_departure(#[trigger] tables[i])
    &&& names_departure(tables[at]) || (at == 0 && forall|i: int|
        0 <= i < tables.len() ==> !names_departure(#[trigger] tables[i]))
}

/// Decides `row_names_departure`.
fn row_has_departure(row: &TableRow) -> (r: bool)
    ensures
        r == row_names_departure(*row),
{
    let mark = chars_of("발");
    let mut h: usize = 0;
    while h < row.headers.len()
        invariant
            h <= row.headers.len(),
            mark@ == "발"@,
            forall|k: int| 0 <= k < h ==> !has_substring(#[trigger] row.headers[k]@, "발"@),
        decreases row.headers.len() - h,
    {
        let text = chars_of(row.headers[h].as_str());
        if contains_chars(&text, &mark) {
            return true;
        }
        h += 1;
    }
    false
}

/// Decides `names_departure`.
fn table_has_departure(table: &Table) -> (r: bool)
    ensures
        r == names_departure(*table),
{
    let mut i: usize = 0;
    while i < table.rows.len()
        invariant
            i <= table.rows.len(),
            forall|k: int| 0 <= k < i ==> !row_names_departure(#[trigger] table.rows[k]),
        decreases table.rows.len() - i,
    {
        if row_has_departure(&table.rows[i]) {
            return true;
        }
        i += 1;
    }
    false
}

/// Picks the table to read; `None` where the page has no table.
pub fn choose_table(tables: &Vec<Table>) -> (r: Option<usize>)
    ensures
        r is Some <==> tables.len() > 0,
        r matches Some(at) ==> is_schedule_table(tables@, at as int),
{
    let mut i: usize = 0;
    while i < tables.len()
        invariant
            i <= tables.len(),
            forall|k: int| 0 <= k < i ==> !names_departure(#[trigger] tables[k]),
        decreases tables.len() - i,
    {
        if table_has_departure(&tables[i]) {
            return Some(i);
        }
        i += 1;
    }
    if tables.len() > 0 {
        Some(0)
    } else {
        None
    }
}

/// What a header cell stands for.
pub enum HeaderRole {
    /// The column of remarks.
    Note,
    /// A column of departures in the direction named.
    Direction(Seq<char>),
    /// Neither.
    Other,
}

/// What a header cell stands for, as it is computed.
#[derive(Debug, PartialEq, Eq)]
pub enum HeaderKind {
    Note,
    Direction(String),
    Other,
}

impl View for HeaderKind {
    type V = HeaderRole;

    open spec fn view(&self) -> HeaderRole {
        match self {
            HeaderKind::Note => HeaderRole::Note,
            HeaderKind::Direction(d) => HeaderRole::Direction(d@),
            HeaderKind::Other => HeaderRole::Other,
        }
    }
}

/// Whether a label is one that every timetable has: run number, hour,
/// minute or class.
pub open spec fn is_fixed_label(label: Seq<char>) -> bool {
    label == "운행순번"@ || label == "시"@ || label == "분"@ || label == "구분"@
}

/// What the header labelled `label` stands for, `names_hour` saying
/// whether the label without its departure mark names an hour. The label
/// of remarks marks the remarks column. Any other label, the departure mark
/// taken off its end, names a direction, unless nothing is left of it, it is
/// a fixed label, or it names an hour.
pub open spec fn header_role(label: Seq<char>, names_hour: bool) -> HeaderRole {
    if label == "비고"@ {
        HeaderRole::Note
    } else if without_trailing(label, '발').len() > 0 && !is_fixed_label(
        without_trailing(label, '발'),
    ) && !names_hour {
        HeaderRole::Direction(without_trailing(label, '발'))
    } else {
        HeaderRole::Other
    }
}

/// What the header cell of text `text` stands for: its text is trimmed
/// and, the departure mark taken off, held against the hour pattern.
pub open spec fn role_of_header(text: Seq<char>) -> HeaderRole {
    header_role(
        trimmed(text),
        captured(HOUR_HEADER_PATTERN@, without_trailing(trimmed(text), '발')) is Some,
    )
}

/// Decides what the header labelled `label` stands for.
pub fn header_kind(label: &str, names_hour: bool) -> (r: HeaderKind)
    ensures
        r@ == header_role(label@, names_hour),
{
    if str_equal(label, "비고") {
        return HeaderKind::Note;
    }
    let chars = chars_of(label);
    let clean = strip_trailing(&chars, '발');
    let a = chars_of("운행순번");
    let b = chars_of("시");
    let c = chars_of("분");
    let d = chars_of("구분");
    let fixed = chars_equal(&clean, &a) || chars_equal(&clean, &b)
        || chars_equal(&clean, &c) || chars_equal(&clean, &d);
    if clean.len() > 0 && !fixed && !names_hour {
        HeaderKind::Direction(string_from_chars(&clean))
    } else {
        HeaderKind::Other
    }
}

/// Whether what the header cell of text `text` stands for hangs on the
/// hour pattern: it does where the label, if it names no hour, names a
/// direction. The remarks label, an empty label and a fixed label stand for
/// what they stand for whatever the pattern says.
pub open spec fn hangs_on_hour(text: Seq<char>) -> bool {
    header_role(trimmed(text), false) is Direction
}

/// Decides what a header cell stands for, from its text. The hour pattern
/// is tried only on a label that would else name a direction: the decision
/// fails where such a label meets an hour pattern that does not compile, and
/// only there.
pub fn classify_header(text: &str) -> (r: Result<HeaderKind, PatternError>)
    ensures
        r is Ok <==> (hangs_on_hour(text@) ==> compiles(HOUR_HEADER_PATTERN@)),
        r matches Ok(kind) ==> kind@ == role_of_header(text@),
{
    let label = str_trim(text);
    match header_kind(label.as_str(), false) {
        HeaderKind::Direction(clean) => match captures(HOUR_HEADER_PATTERN, clean.as_str()) {
            Ok(found) => Ok(
                if found.is_some() {
                    HeaderKind::Other
                } else {
                    HeaderKind::Direction(clean)
                },
            ),
            Err(e) => Err(e),
        },
        kind => Ok(kind),
    }
}

/// The columns after column `at` was given the direction `direction`:
/// columns up to `at` that were not there yet have none.
pub open spec fn with_column(
    columns: Seq<Option<Seq<char>>>,
    at: int,
    direction: Seq<char>,
) -> Seq<Option<Seq<char>>> {
    Seq::new(
        if at < columns.len() {
            columns.len()
        } else {
            (at + 1) as nat
        },
        |k: int|
            if k == at {
                Some(direction)
            } else if k < columns.len() {
                columns[k]
            } else {
                None
            },
    )
}

/// What the header cells seen so far say of a table.
pub struct Scan {
    /// Column of remarks: that of the last header seen that marks one.
    pub note_column: Option<int>,
    /// The directions named, each once, in the order first seen.
    pub directions: Seq<Seq<char>>,
    /// For each column the direction that the last header seen at that
    /// place named, if any did.
    pub columns: Seq<Option<Seq<char>>>,
}

impl Scan {
    /// Nothing seen yet.
    pub open spec fn empty() -> Scan {
        Scan { note_column: None, directions: Seq::empty(), columns: Seq::empty() }
    }

    /// The scan after a header of role `role` was seen at place `at` of
    /// its row.
    pub open spec fn see(self, at: int, role: HeaderRole) -> Scan {
        match role {
            HeaderRole::Note => Scan { note_column: Some(at), ..self },
            HeaderRole::Direction(d) => Scan {
                directions: if self.directions.contains(d) {
                    self.directions
                } else {
                    self.directions.push(d)
                },
                columns: with_column(self.columns, at, d),
                ..self
            },
            HeaderRole::Other => self,
        }
    }

    /// The scan after the headers of one row were seen, left to right.
    pub open spec fn see_row(self, roles: Seq<HeaderRole>) -> Scan
        decreases roles.len(),
    {
        if roles.len() == 0 {
            self
        } else {
            self.see_row(roles.drop_last()).see(roles.len() - 1, roles.last())
        }
    }

    /// The scan after the headers of rows were seen, top to bottom.
    pub open spec fn see_rows(self, rows: Seq<Seq<HeaderRole>>) -> Scan
        decreases rows.len(),
    {
        if rows.len() == 0 {
            self
        } else {
            self.see_rows(rows.drop_last()).see_row(rows.last())
        }
    }
}

/// The direction that `columns` gives to column `at`, if any.
pub open spec fn direction_at(columns: Seq<Option<Seq<char>>>, at: int) -> Option<Seq<char>> {
    if 0 <= at < columns.len() {
        columns[at]
    } else {
        None
    }
}

/// What the header cells seen so far say of a table, as it is computed.
#[derive(Debug, PartialEq, Eq)]
pub struct HeaderScan {
    pub note_column: Option<usize>,
    pub directions: Vec<String>,
    pub columns: Vec<Option<String>>,
}

impl View for HeaderScan {
    type V = Scan;

    open spec fn view(&self) -> Scan {
        Scan {
            note_column: match self.note_column {
                Some(c) => Some(c as int),
                None => None,
            },
            directions: texts_view(self.directions@),
            columns: groups_view(self.columns@),
        }
    }
}

/// The roles of the header cells given by `kinds`.
pub open spec fn roles_view(kinds: Seq<HeaderKind>) -> Seq<HeaderRole> {
    Seq::new(kinds.len(), |i: int| kinds[i]@)
}

/// The roles of the header cells of rows given by `kinds`.
pub open spec fn row_roles_view(kinds: Seq<Vec<HeaderKind>>) -> Seq<Seq<HeaderRole>> {
    Seq::new(kinds.len(), |i: int| roles_view(kinds[i]@))
}

/// Gives column `at` the direction `direction`.
fn set_column(columns: &mut Vec<Option<String>>, at: usize, direction: String)
    ensures
        groups_view(final(columns)@) == with_column(groups_view(old(columns)@), at as int, direction@),
{
    while columns.len() <= at
        invariant
            old(columns).len() <= columns.len(),
            columns.len() <= at + 1 || columns.len() == old(columns).len(),
            forall|k: int| 0 <= k < old(columns).len() ==> columns[k] == old(columns)[k],
            forall|k: int| old(columns).len() <= k < columns.len() ==> columns[k] is None,
        decreases at + 1 - columns.len(),
    {
        columns.push(None);
    }
    columns.set(at, Some(direction));
    assert(groups_view(columns@) =~= with_column(groups_view(old(columns)@), at as int, direction@));
}

/// Takes one header cell into the scan.
fn see_header(scan: HeaderScan, at: usize, kind: &HeaderKind) -> (r: HeaderScan)
    ensures
        r@ == scan@.see(at as int, kind@),
{
    match kind {
        HeaderKind::Note => HeaderScan {
            note_column: Some(at),
            directions: scan.directions,
            columns: scan.columns,
        },
        HeaderKind::Direction(d) => {
            let HeaderScan { note_column, directions, columns } = scan;
            let mut directions = directions;
            let mut columns = columns;
            let name = chars_of(d.as_str());
            if !holds_text(&directions, &name) {
                let ghost before = directions@;
                directions.push(d.clone());
                assert(texts_view(directions@) =~= texts_view(before).push(d@));
            }
            set_column(&mut columns, at, d.clone());
            HeaderScan { note_column, directions, columns }
        },
        HeaderKind::Other => scan,
    }
}

/// Scans the header cells of a table, given row by row what each stands
/// for.
pub fn scan_headers(kinds: &Vec<Vec<HeaderKind>>) -> (r: HeaderScan)
    ensures
        r@ == Scan::empty().see_rows(row_roles_view(kinds@)),
{
    let mut scan = HeaderScan { note_column: None, directions: Vec::new(), columns: Vec::new() };
    assert(scan@.directions =~= Scan::empty().directions);
    assert(scan@.columns =~= Scan::empty().columns);
    let ghost all = row_roles_view(kinds@);
    let mut i: usize = 0;
    assert(all.take(0) =~= Seq::empty());
    while i < kinds.len()
        invariant
            i <= kinds.len(),
            all == row_roles_view(kinds@),
            scan@ == Scan::empty().see_rows(all.take(i as int)),
        decreases kinds.len() - i,
    {
        let row = &kinds[i];
        let ghost roles = roles_view(row@);
        let ghost begin = scan@;
        let mut h: usize = 0;
        assert(roles.take(0) =~= Seq::empty());
        while h < row.len()
            invariant
                h <= row.len(),
                roles == roles_view(row@),
                scan@ == begin.see_row(roles.take(h as int)),
            decreases row.len() - h,
        {
            proof {
                assert(roles.take(h as int + 1).drop_last() =~= roles.take(h as int));
                assert(roles.take(h as int + 1).last() == row[h as int]@);
            }
            scan = see_header(scan, h, &row[h]);
            h += 1;
        }
        proof {
            assert(roles.take(row.len() as int) =~= roles);
            assert(all.take(i as int + 1).drop_last() =~= all.take(i as int));
            assert(all.take(i as int + 1).last() == roles);
        }
        i += 1;
    }
    assert(all.take(kinds.len() as int) =~= all);
    scan
}

/// The directions to go by: those that the headers name and, where they
/// name none, those known of the route.
pub open spec fn directions_in_force(scan: Scan, known: Option<Seq<Seq<char>>>) -> Seq<Seq<char>> {
    if scan.directions.len() > 0 {
        scan.directions
    } else {
        match known {
            Some(directions) => directions,
            None => Seq::empty(),
        }
    }
}

/// The columns to go by: those that the headers give a direction and,
/// where the headers name no direction but some are known of the route, the
/// known directions in columns 1, 2 and so on.
pub open spec fn columns_in_force(scan: Scan, known: Option<Seq<Seq<char>>>) -> Seq<
    Option<Seq<char>>,
> {
    if scan.directions.len() == 0 && directions_in_force(scan, known).len() > 0 {
        Seq::new(
            directions_in_force(scan, known).len() + 1,
            |k: int|
                if k == 0 {
                    None
                } else {
                    Some(directions_in_force(scan, known)[k - 1])
                },
        )
    } else {
        scan.columns
    }
}

/// The known directions of a route, as texts.
pub open spec fn known_directions(meta: Option<&RouteMeta>) -> Option<Seq<Seq<char>>> {
    match meta {
        Some(m) => Some(texts_view(m.directions@)),
        None => None,
    }
}

/// Settles the directions and columns to go by.
pub fn settle_directions(scan: HeaderScan, meta: Option<&RouteMeta>) -> (r: HeaderScan)
    ensures
        r@.note_column == scan@.note_column,
        r@.directions == directions_in_force(scan@, known_directions(meta)),
        r@.columns == columns_in_force(scan@, known_directions(meta)),
{
    if scan.directions.len() > 0 {
        return scan;
    }
    match meta {
        None => scan,
        Some(m) => {
            if m.directions.len() == 0 {
                assert(texts_view(m.directions@) =~= scan@.directions);
                return scan;
            }
            let directions = copy_texts(&m.directions);
            let mut columns: Vec<Option<String>> = Vec::new();
            columns.push(None);
            let mut i: usize = 0;
            while i < directions.len()
                invariant
                    i <= directions.len(),
                    columns.len() == i + 1,
                    columns[0] is None,
                    forall|k: int| 1 <= k <= i ==> columns[k] == Some(directions[k - 1]),
                decreases directions.len() - i,
            {
                columns.push(Some(directions[i].clone()));
                i += 1;
            }
            let r = HeaderScan { note_column: scan.note_column, directions, columns };
            assert(r@.columns =~= columns_in_force(scan@, known_directions(meta)));
            r
        },
    }
}

/// A departure.
pub struct Departure {
    pub time: Seq<char>,
    pub note: Option<Seq<char>>,
}

impl View for TimeEntry {
    type V = Departure;

    open spec fn view(&self) -> Departure {
        Departure { time: self.time@, note: optional_view(self.note) }
    }
}

/// Departures as they are computed, seen as departures.
pub open spec fn departures_view(entries: Seq<TimeEntry>) -> Seq<Departure> {
    Seq::new(entries.len(), |i: int| entries[i]@)
}

/// The data cells of a row as read: the trimmed text of each, and the
/// departure time that each begins with, if it does.
pub struct ReadRow {
    pub labels: Seq<Seq<char>>,
    pub times: Seq<Option<Seq<char>>>,
}

/// The data cells of a row as read, as they are computed.
#[derive(Debug, PartialEq, Eq)]
pub struct CellRow {
    pub labels: Vec<String>,
    pub times: Vec<Option<String>>,
}

impl View for CellRow {
    type V = ReadRow;

    open spec fn view(&self) -> ReadRow {
        ReadRow { labels: texts_view(self.labels@), times: groups_view(self.times@) }
    }
}

/// Rows as read.
pub open spec fn rows_view(rows: Seq<CellRow>) -> Seq<ReadRow> {
    Seq::new(rows.len(), |i: int| rows[i]@)
}

/// The departure time that a cell's text begins with, if it does: what
/// the time pattern takes of the trimmed text.
pub open spec fn time_in(text: Seq<char>) -> Option<Seq<char>> {
    group_of(captured(TIME_PATTERN@, trimmed(text)), 1)
}

/// The data cells of `row` as read.
pub open spec fn read_row(row: TableRow) -> ReadRow {
    ReadRow {
        labels: Seq::new(row.cells@.len(), |c: int| trimmed(row.cells[c]@)),
        times: Seq::new(row.cells@.len(), |c: int| time_in(row.cells[c]@)),
    }
}

/// Reads the data cells of a row: each is trimmed and held against the
/// time pattern. Fails where the row has a data cell and the time pattern
/// does not compile, and only there.
pub fn read_cells(row: &TableRow) -> (r: Result<CellRow, PatternError>)
    ensures
        r is Ok <==> (row.cells.len() > 0 ==> compiles(TIME_PATTERN@)),
        r matches Ok(cells) ==> cells@ == read_row(*row),
{
    let mut labels: Vec<String> = Vec::new();
    let mut times: Vec<Option<String>> = Vec::new();
    let mut c: usize = 0;
    while c < row.cells.len()
        invariant
            c <= row.cells.len(),
            labels.len() == c,
            times.len() == c,
            forall|k: int| 0 <= k < c ==> labels[k]@ == trimmed(row.cells[k]@),
            forall|k: int| 0 <= k < c ==> optional_view(times[k]) == time_in(row.cells[k]@),
            c > 0 ==> compiles(TIME_PATTERN@),
        decreases row.cells.len() - c,
    {
        let label = str_trim(row.cells[c].as_str());
        match captures(TIME_PATTERN, label.as_str()) {
            Err(e) => {
                return Err(e);
            },
            Ok(found) => {
                let time = group_text(&found, 1);
                labels.push(label);
                times.push(time);
            },
        }
        c += 1;
    }
    let cells = CellRow { labels, times };
    assert(cells@.labels =~= read_row(*row).labels);
    assert(cells@.times =~= read_row(*row).times) by {
        assert forall|k: int| 0 <= k < cells.times.len() implies groups_view(cells.times@)[k]
            == time_in(row.cells[k]@) by {
            assert(optional_view(cells.times[k]) == time_in(row.cells[k]@));
        }
    }
    Ok(cells)
}

/// The remark that a row carries: the text in the remarks column, where
/// there is such a column, the row reaches it, and the text is not empty.
pub open spec fn note_of(row: ReadRow, note_column: Option<int>) -> Option<Seq<char>> {
    match note_column {
        Some(c) => if 0 <= c < row.labels.len() && row.labels[c].len() > 0 {
            Some(row.labels[c])
        } else {
            None
        },
        None => None,
    }
}

/// The departures in `direction` that the first `upto` cells of a row
/// hold, left to right: a cell counts where its column has that direction
/// and it begins with a time.
pub open spec fn row_departures(
    direction: Seq<char>,
    columns: Seq<Option<Seq<char>>>,
    note_column: Option<int>,
    row: ReadRow,
    upto: int,
) -> Seq<Departure>
    decreases upto,
{
    if upto <= 0 {
        Seq::empty()
    } else {
        let before = row_departures(direction, columns, note_column, row, upto - 1);
        if direction_at(columns, upto - 1) == Some(direction) && row.times[upto - 1] is Some {
            before.push(
                Departure { time: row.times[upto - 1]->0, note: note_of(row, note_column) },
            )
        } else {
            before
        }
    }
}

/// The departures in `direction` that rows hold, top to bottom.
pub open spec fn departures_of(
    direction: Seq<char>,
    columns: Seq<Option<Seq<char>>>,
    note_column: Option<int>,
    rows: Seq<ReadRow>,
) -> Seq<Departure>
    decreases rows.len(),
{
    if rows.len() == 0 {
        Seq::empty()
    } else {
        departures_of(direction, columns, note_column, rows.drop_last()) + row_departures(
            direction,
            columns,
            note_column,
            rows.last(),
            rows.last().times.len() as int,
        )
    }
}

/// Collects the departures in `direction` from the rows read.
pub fn collect_departures(direction: &str, scan: &HeaderScan, rows: &Vec<CellRow>) -> (r: Vec<
    TimeEntry,
>)
    ensures
        departures_view(r@) == departures_of(
            direction@,
            scan@.columns,
            scan@.note_column,
            rows_view(rows@),
        ),
{
    let wanted = chars_of(direction);
    let ghost all = rows_view(rows@);
    let ghost columns = scan@.columns;
    let ghost note_column = scan@.note_column;
    let mut out: Vec<TimeEntry> = Vec::new();
    let mut i: usize = 0;
    assert(all.take(0) =~= Seq::empty());
    assert(departures_view(out@) =~= Seq::empty());
    while i < rows.len()
        invariant
            i <= rows.len(),
            wanted@ == direction@,
            all == rows_view(rows@),
            columns == scan@.columns,
            note_column == scan@.note_column,
            departures_view(out@) == departures_of(
                direction@,
                columns,
                note_column,
                all.take(i as int),
            ),
        decreases rows.len() - i,
    {
        let row = &rows[i];
        let ghost read = row@;
        let ghost before = departures_view(out@);
        let note: Option<String> = match scan.note_column {
            Some(c) => {
                if c < row.labels.len() {
                    let label = chars_of(row.labels[c].as_str());
                    if label.len() > 0 {
                        Some(row.labels[c].clone())
                    } else {
                        None
                    }
                } else {
                    None
                }
            },
            None => None,
        };
        assert(optional_view(note) == note_of(read, note_column));
        let mut c: usize = 0;
        assert(departures_view(out@) =~= before + row_departures(
            direction@,
            columns,
            note_column,
            read,
            0,
        ));
        while c < row.times.len()
            invariant
                c <= row.times.len(),
                wanted@ == direction@,
                read == row@,
                columns == scan@.columns,
                note_column == scan@.note_column,
                optional_view(note) == note_of(read, note_column),
                departures_view(out@) == before + row_departures(
                    direction@,
                    columns,
                    note_column,
                    read,
                    c as int,
                ),
            decreases row.times.len() - c,
        {
            let ghost so_far = departures_view(out@);
            let here: bool = if c < scan.columns.len() {
                match &scan.columns[c] {
                    Some(d) => {
                        let name = chars_of(d.as_str());
                        chars_equal(&name, &wanted)
                    },
                    None => false,
                }
            } else {
                false
            };
            assert(here == (direction_at(columns, c as int) == Some(direction@)));
            if here {
                match &row.times[c] {
                    Some(t) => {
                        out.push(TimeEntry { time: t.clone(), note: copy_optional(&note) });
                        assert(departures_view(out@) =~= so_far.push(
                            Departure { time: t@, note: note_of(read, note_column) },
                        ));
                    },
                    None => {},
                }
            }
            assert(departures_view(out@) =~= before + row_departures(
                direction@,
                columns,
                note_column,
                read,
                c as int + 1,
            ));
            c += 1;
        }
        proof {
            assert(all.take(i as int + 1).drop_last() =~= all.take(i as int));
            assert(all.take(i as int + 1).last() == read);
        }
        i += 1;
    }
    assert(all.take(rows.len() as int) =~= all);
    out
}

/// A page has at most one table to read.
pub proof fn lemma_schedule_table_unique(tables: Seq<Table>, a: int, b: int)
    requires
        is_schedule_table(tables, a),
        is_schedule_table(tables, b),
    ensures
        a == b,
{
    if a < b {
        assert(!names_departure(tables[a]));
        assert(!names_departure(tables[b]));
    } else if b < a {
        assert(!names_departure(tables[b]));
        assert(!names_departure(tables[a]));
    }
}

/// What the header cells of `table` stand for, row by row.
pub open spec fn header_roles_of(table: Table) -> Seq<Seq<HeaderRole>> {
    Seq::new(
        table.rows@.len(),
        |r: int|
            Seq::new(
                table.rows[r].headers@.len(),
                |h: int| role_of_header(table.rows[r].headers[h]@),
            ),
    )
}

/// The rows of `table` as read.
pub open spec fn read_rows_of(table: Table) -> Seq<ReadRow> {
    Seq::new(table.rows@.len(), |r: int| read_row(table.rows[r]))
}

/// Whether `times` holds, for each of `directions` in order, the
/// departures that the rows `rows` hold in that direction.
pub open spec fn holds_departures(
    times: Seq<DirectionTimes>,
    directions: Seq<Seq<char>>,
    columns: Seq<Option<Seq<char>>>,
    note_column: Option<int>,
    rows: Seq<ReadRow>,
) -> bool {
    &&& times.len() == directions.len()
    &&& forall|k: int|
        0 <= k < times.len() ==> (#[trigger] times[k]).direction@ == directions[k]
            && departures_view(times[k].entries@) == departures_of(
            directions[k],
            columns,
            note_column,
            rows,
        )
}

/// Whether `parsed` is what `table` says of the timetable `route_id`,
/// `meta` being what is known of the route. The id gives the route number
/// and the kind of day; the table's headers, or failing them `meta`, give
/// the directions; the table's rows give the departures.
pub open spec fn is_reading_of(
    parsed: ParsedSchedule,
    table: Table,
    route_id: Seq<char>,
    meta: Option<&RouteMeta>,
) -> bool {
    let parts = route_id_parts(route_id, captured(ROUTE_ID_PATTERN@, route_id));
    let scan = Scan::empty().see_rows(header_roles_of(table));
    let known = known_directions(meta);
    &&& parsed.route_number@ == parts.0
    &&& parsed.day_type@ == day_type_of(lowercase_of(parts.1))
    &&& texts_view(parsed.directions@) == directions_in_force(scan, known)
    &&& holds_departures(
        parsed.times_by_direction@,
        directions_in_force(scan, known),
        columns_in_force(scan, known),
        scan.note_column,
        read_rows_of(table),
    )
}

/// Whether some header cell of `row` hangs on the hour pattern.
pub open spec fn row_hangs_on_hour(row: TableRow) -> bool {
    exists|h: int| 0 <= h < row.headers.len() && hangs_on_hour(#[trigger] row.headers[h]@)
}

/// Whether some header cell of `table` hangs on the hour pattern.
pub open spec fn table_hangs_on_hour(table: Table) -> bool {
    exists|r: int| 0 <= r < table.rows.len() && row_hangs_on_hour(#[trigger] table.rows[r])
}

/// Whether `table` has a data cell.
pub open spec fn has_data_cell(table: Table) -> bool {
    exists|r: int| 0 <= r < table.rows.len() && (#[trigger] table.rows[r]).cells.len() > 0
}

/// Whether the header cells of `table` can be decided: the hour pattern
/// compiles, or no header cell hangs on it.
pub open spec fn headers_decidable(table: Table) -> bool {
    table_hangs_on_hour(table) ==> compiles(HOUR_HEADER_PATTERN@)
}

/// Whether the data cells of `table` can be read: the time pattern
/// compiles, or the table has no data cell.
pub open spec fn cells_readable(table: Table) -> bool {
    has_data_cell(table) ==> compiles(TIME_PATTERN@)
}

/// Whether `table` can be read: its header cells can be decided and its
/// data cells read.
pub open spec fn readable(table: Table) -> bool {
    headers_decidable(table) && cells_readable(table)
}

/// Decides what each header cell of a table stands for. Fails where a
/// header cell hangs on an hour pattern that does not compile, and only
/// there.
fn classify_headers(table: &Table) -> (r: Result<Vec<Vec<HeaderKind>>, PatternError>)
    ensures
        r is Ok <==> headers_decidable(*table),
        r matches Ok(kinds) ==> row_roles_view(kinds@) == header_roles_of(*table),
{
    let mut kinds: Vec<Vec<HeaderKind>> = Vec::new();
    let mut i: usize = 0;
    while i < table.rows.len()
        invariant
            i <= table.rows.len(),
            kinds.len() == i,
            forall|k: int| 0 <= k < i ==> roles_view(#[trigger] kinds[k]@) == header_roles_of(
                *table,
            )[k],
            compiles(HOUR_HEADER_PATTERN@) || forall|k: int|
                0 <= k < i ==> !row_hangs_on_hour(#[trigger] table.rows[k]),
        decreases table.rows.len() - i,
    {
        let row = &table.rows[i];
        let mut row_kinds: Vec<HeaderKind> = Vec::new();
        let mut h: usize = 0;
        while h < row.headers.len()
            invariant
                h <= row.headers.len(),
                i < table.rows.len(),
                *row == table.rows[i as int],
                row_kinds.len() == h,
                forall|k: int| 0 <= k < h ==> (#[trigger] row_kinds[k])@ == role_of_header(
                    row.headers[k]@,
                ),
                compiles(HOUR_HEADER_PATTERN@) || forall|k: int|
                    0 <= k < h ==> !hangs_on_hour(#[trigger] row.headers[k]@),
            decreases row.headers.len() - h,
        {
            match classify_header(row.headers[h].as_str()) {
                Ok(kind) => row_kinds.push(kind),
                Err(e) => {
                    assert(hangs_on_hour(row.headers[h as int]@));
                    assert(row_hangs_on_hour(table.rows[i as int]));
                    assert(!compiles(HOUR_HEADER_PATTERN@));
                    return Err(e);
                },
            }
            h += 1;
        }
        assert(roles_view(row_kinds@) =~= header_roles_of(*table)[i as int]);
        kinds.push(row_kinds);
        i += 1;
    }
    assert(row_roles_view(kinds@) =~= header_roles_of(*table));
    Ok(kinds)
}

/// Reads the data cells of every row of a table. Fails where the table
/// has a data cell and the time pattern does not compile, and only there.
fn read_table(table: &Table) -> (r: Result<Vec<CellRow>, PatternError>)
    ensures
        r is Ok <==> cells_readable(*table),
        r matches Ok(rows) ==> rows_view(rows@) == read_rows_of(*table),
{
    let mut rows: Vec<CellRow> = Vec::new();
    let mut i: usize = 0;
    while i < table.rows.len()
        invariant
            i <= table.rows.len(),
            rows.len() == i,
            forall|k: int| 0 <= k < i ==> (#[trigger] rows[k])@ == read_row(table.rows[k]),
            compiles(TIME_PATTERN@) || forall|k: int|
                0 <= k < i ==> (#[trigger] table.rows[k]).cells.len() == 0,
        decreases table.rows.len() - i,
    {
        match read_cells(&table.rows[i]) {
            Ok(cells) => rows.push(cells),
            Err(e) => {
                assert(table.rows[i as int].cells.len() > 0 && !compiles(TIME_PATTERN@));
                return Err(e);
            },
        }
        i += 1;
    }
    assert(rows_view(rows@) =~= read_rows_of(*table));
    Ok(rows)
}

/// Reads the timetable `route_id` off the tables of its page, `meta` being
/// what is known of the route. The id is taken apart first: where the id
/// pattern does not compile, that is the error, table or no table. Else a
/// page without a table is the error `NoTable`. Else the table to read is
/// read, and the reading succeeds where that table can be read.
pub fn parse_detail_schedule(tables: &Vec<Table>, route_id: &str, meta: Option<&RouteMeta>) -> (r:
    Result<ParsedSchedule, ScheduleError>)
    ensures
        r matches Err(ScheduleError::NoTable) <==> compiles(ROUTE_ID_PATTERN@) && tables.len()
            == 0,
        r is Ok <==> compiles(ROUTE_ID_PATTERN@) && tables.len() > 0 && forall|at: int|
            is_schedule_table(tables@, at) ==> readable(#[trigger] tables[at]),
        r matches Ok(parsed) ==> tables.len() > 0 && forall|at: int|
            is_schedule_table(tables@, at) ==> is_reading_of(
                parsed,
                #[trigger] tables[at],
                route_id@,
                meta,
            ),
{
    let parts = match parse_route_id(route_id) {
        Ok(parts) => parts,
        Err(_) => {
            return Err(ScheduleError::Pattern);
        },
    };
    let day_type = normalize_day_type(parts.raw_day_type.as_str());
    let at = match choose_table(tables) {
        Some(at) => at,
        None => {
            return Err(ScheduleError::NoTable);
        },
    };
    let table = &tables[at];
    let kinds = match classify_headers(table) {
        Ok(kinds) => kinds,
        Err(_) => {
            assert(!readable(tables[at as int]));
            return Err(ScheduleError::Pattern);
        },
    };
    let scan = settle_directions(scan_headers(&kinds), meta);
    let rows = match read_table(table) {
        Ok(rows) => rows,
        Err(_) => {
            assert(!readable(tables[at as int]));
            return Err(ScheduleError::Pattern);
        },
    };
    let mut times: Vec<DirectionTimes> = Vec::new();
    let mut k: usize = 0;
    while k < scan.directions.len()
        invariant
            k <= scan.directions.len(),
            times.len() == k,
            forall|j: int|
                0 <= j < k ==> (#[trigger] times[j]).direction@ == scan.directions[j]@
                    && departures_view(times[j].entries@) == departures_of(
                    scan.directions[j]@,
                    scan@.columns,
                    scan@.note_column,
                    rows_view(rows@),
                ),
        decreases scan.directions.len() - k,
    {
        let entries = collect_departures(scan.directions[k].as_str(), &scan, &rows);
        times.push(DirectionTimes { direction: scan.directions[k].clone(), entries });
        k += 1;
    }
    let ghost columns = scan@.columns;
    let ghost note_column = scan@.note_column;
    let parsed = ParsedSchedule {
        route_number: parts.route_number,
        day_type,
        directions: scan.directions,
        times_by_direction: times,
    };
    proof {
        assert(holds_departures(
            parsed.times_by_direction@,
            texts_view(parsed.directions@),
            columns,
            note_column,
            read_rows_of(*table),
        ));
        assert forall|other: int| is_schedule_table(tables@, other) implies is_reading_of(
            parsed,
            #[trigger] tables[other],
            route_id@,
            meta,
        ) && readable(tables[other]) by {
            lemma_schedule_table_unique(tables@, at as int, other);
        }
    }
    Ok(parsed)
}

/// Whether a timetable holds a departure in some direction.
pub open spec fn holds_departure(parsed: ParsedSchedule) -> bool {
    exists|k: int|
        0 <= k < parsed.times_by_direction.len() && (
        #[trigger] parsed.times_by_direction[k]).entries.len() > 0
}

/// Decides whether a timetable holds any departure; one that holds none
/// is not worth keeping.
pub fn has_departures(parsed: &ParsedSchedule) -> (r: bool)
    ensures
        r == holds_departure(*parsed),
{
    let mut k: usize = 0;
    while k < parsed.times_by_direction.len()
        invariant
            k <= parsed.times_by_direction.len(),
            forall|j: int| 0 <= j < k ==> (#[trigger] parsed.times_by_direction[j]).entries.len()
                == 0,
        decreases parsed.times_by_direction.len() - k,
    {
        if parsed.times_by_direction[k].entries.len() > 0 {
            return true;
        }
        k += 1;
    }
    false
}

} // verus!
