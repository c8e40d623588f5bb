//! Reading the list of all timetables: which timetables to fetch, and what
//! the list says of each route.

use crate::args::wants_timetable;
use crate::pattern::{captured, captures, compiles, group_of, group_text, PatternError};
use crate::names::{
    index_of_text, insert_sorted, lemma_index_of_text, optional_view, texts_view, with_sorted,
};
use crate::text::{
    before_char, chars_equal, chars_of, position_of, push_str, slice_chars, str_starts_with,
    str_trim, trimmed,
};
use crate::unicode::{char_is_alphanumeric, is_alphanumeric, string_from_chars};
use crate::timetable::{RouteEntry, RouteMeta};
use vstd::prelude::*;
use vstd::string::StrSliceExecFns;

verus! {

/// Pattern of the action that opens a timetable; it captures the
/// timetable's id.
pub const DETAIL_PATTERN: &'static str = "goDetail\\('([^']+)'\\)";

/// Fewest data cells of a row that lists a timetable.
pub const LISTING_CELLS: usize = 6;

/// A row of the list: the action on its first cell, if it has one, and the
/// texts of its data cells.
#[derive(Debug, PartialEq, Eq)]
pub struct ListingRow {
    pub onclick: Option<String>,
    pub cells: Vec<String>,
}

/// What the list says: of each route its termini and directions, routes in
/// the order in which they first come, and the ids of the timetables to
/// fetch, in list order.
#[derive(Debug, PartialEq, Eq)]
pub struct RouteListing {
    pub routes: Vec<RouteEntry>,
    pub targets: Vec<String>,
}

/// The route number in the id of a timetable: what stands before the
/// first opening bracket.
pub open spec fn route_number_in(route_id: Seq<char>) -> Seq<char> {
    before_char(route_id, '(')
}

/// Computes the route number in the id of a timetable.
pub fn route_number_of(route_id: &str) -> (r: String)
    ensures
        r@ == route_number_in(route_id@),
{
    let chars = chars_of(route_id);
    let at = position_of(&chars, '(', 0);
    let number = slice_chars(&chars, 0, at);
    assert(chars@.subrange(0, at as int) =~= chars@.take(at as int));
    string_from_chars(&number)
}

/// Whether a row carries an action to hold against the detail pattern: a
/// row of six cells or more with an action on its first cell.
pub open spec fn carries_action(row: ListingRow) -> bool {
    row.cells@.len() >= LISTING_CELLS && row.onclick is Some
}

/// The id of the timetable that a row lists, if it lists one: what the
/// detail pattern captures in the action that the row carries.
pub open spec fn listed_id(row: ListingRow) -> Option<Seq<char>> {
    if carries_action(row) {
        group_of(captured(DETAIL_PATTERN@, row.onclick->0@), 1)
    } else {
        None
    }
}

/// Finds the id of the timetable that a row lists. The detail pattern is
/// tried only on a row that carries an action: the search fails where such
/// a row meets a detail pattern that does not compile, and only there.
pub fn row_route_id(row: &ListingRow) -> (r: Result<Option<String>, PatternError>)
    ensures
        r is Ok <==> (compiles(DETAIL_PATTERN@) || !carries_action(*row)),
        r matches Ok(id) ==> optional_view(id) == listed_id(*row),
{
    if row.cells.len() < LISTING_CELLS {
        return Ok(None);
    }
    match &row.onclick {
        None => Ok(None),
        Some(action) => match captures(DETAIL_PATTERN, action.as_str()) {
            Ok(found) => Ok(group_text(&found, 1)),
            Err(e) => Err(e),
        },
    }
}

/// What the list says of a route.
pub struct Known {
    pub route_number: Seq<char>,
    pub origin: Seq<char>,
    pub destination: Seq<char>,
    pub directions: Seq<Seq<char>>,
}

impl View for RouteEntry {
    type V = Known;

    open spec fn view(&self) -> Known {
        Known {
            route_number: self.route_number@,
            origin: self.meta.origin@,
            destination: self.meta.destination@,
            directions: texts_view(self.meta.directions@),
        }
    }
}

/// Entries as they are computed, seen as entries.
pub open spec fn entries_view(entries: Seq<RouteEntry>) -> Seq<Known> {
    Seq::new(entries.len(), |i: int| entries[i]@)
}

/// The route numbers of `routes`, in order.
pub open spec fn known_numbers(routes: Seq<Known>) -> Seq<Seq<char>> {
    Seq::new(routes.len(), |i: int| routes[i].route_number)
}

/// `routes` after a timetable of route `number` from `origin` to
/// `destination` was listed. The first timetable of a route gives the
/// route's termini; every timetable adds its two termini to the route's
/// directions, which stand in ascending order, each once.
pub open spec fn with_termini(
    routes: Seq<Known>,
    number: Seq<char>,
    origin: Seq<char>,
    destination: Seq<char>,
) -> Seq<Known> {
    let at = index_of_text(known_numbers(routes), number);
    if at < routes.len() {
        routes.update(
            at,
            Known {
                directions: with_sorted(with_sorted(routes[at].directions, origin), destination),
                ..routes[at]
            },
        )
    } else {
        routes.push(
            Known {
                route_number: number,
                origin,
                destination,
                directions: with_sorted(with_sorted(Seq::empty(), origin), destination),
            },
        )
    }
}

/// What the list says after some of its rows.
pub struct Listed {
    pub routes: Seq<Known>,
    pub targets: Seq<Seq<char>>,
}

impl Listed {
    /// What the list says after one more row, `wanted` naming the
    /// timetables asked for. A row counts where it lists a timetable that is
    /// asked for; its second and third cell, trimmed, name the termini.
    pub open spec fn see(self, row: ListingRow, wanted: Option<String>) -> Listed {
        match listed_id(row) {
            Some(id) => if wants_timetable(wanted, id) {
                Listed {
                    routes: with_termini(
                        self.routes,
                        route_number_in(id),
                        trimmed(row.cells[1]@),
                        trimmed(row.cells[2]@),
                    ),
                    targets: self.targets.push(id),
                }
            } else {
                self
            },
            None => self,
        }
    }

    /// What the list says after `rows`, top to bottom.
    pub open spec fn see_all(self, rows: Seq<ListingRow>, wanted: Option<String>) -> Listed
        decreases rows.len(),
    {
        if rows.len() == 0 {
            self
        } else {
            self.see_all(rows.drop_last(), wanted).see(rows.last(), wanted)
        }
    }
}

/// Takes the two termini of a listed timetable into `routes`.
fn add_termini(routes: &mut Vec<RouteEntry>, number: &str, origin: String, destination: String)
    ensures
        entries_view(final(routes)@) == with_termini(
            entries_view(old(routes)@),
            number@,
            origin@,
            destination@,
        ),
{
    let ghost all = entries_view(routes@);
    let ghost numbers = known_numbers(all);
    let name = chars_of(number);
    let mut at: usize = 0;
    let mut found = false;
    while at < routes.len() && !found
        invariant
            at <= routes.len(),
            routes == old(routes),
            all == entries_view(routes@),
            numbers == known_numbers(all),
            name@ == number@,
            forall|k: int| 0 <= k < at ==> numbers[k] != number@,
            found ==> at < routes.len() && numbers[at as int] == number@,
        decreases routes.len() - at + if found { 0int } else { 1int },
    {
        let other = chars_of(routes[at].route_number.as_str());
        if chars_equal(&other, &name) {
            assert(numbers[at as int] == number@);
            found = true;
        } else {
            at += 1;
        }
    }
    proof {
        lemma_index_of_text(numbers, number@);
        assert(at == index_of_text(numbers, number@));
    }
    if found {
        let entry = routes.remove(at);
        let RouteEntry { route_number, meta } = entry;
        let RouteMeta { origin: first, destination: last, directions } = meta;
        let mut directions = directions;
        insert_sorted(&mut directions, origin.as_str());
        insert_sorted(&mut directions, destination.as_str());
        routes.insert(
            at,
            RouteEntry {
                route_number,
                meta: RouteMeta { origin: first, destination: last, directions },
            },
        );
        assert(entries_view(routes@) =~= with_termini(all, number@, origin@, destination@));
    } else {
        let mut directions: Vec<String> = Vec::new();
        assert(texts_view(directions@) =~= Seq::empty());
        insert_sorted(&mut directions, origin.as_str());
        insert_sorted(&mut directions, destination.as_str());
        routes.push(
            RouteEntry {
                route_number: string_from_chars(&name),
                meta: RouteMeta { origin, destination, directions },
            },
        );
        assert(entries_view(routes@) =~= with_termini(all, number@, origin@, destination@));
    }
}

/// What a listing says, as a state of reading.
pub open spec fn listing_view(listing: RouteListing) -> Listed {
    Listed { routes: entries_view(listing.routes@), targets: texts_view(listing.targets@) }
}

/// Takes the timetable `id` of a route from `origin` to `destination`
/// into the listing: the id among the targets, the termini with the route.
pub fn list_timetable(listing: RouteListing, id: String, origin: String, destination: String) -> (r:
    RouteListing)
    ensures
        listing_view(r) == (Listed {
            routes: with_termini(
                listing_view(listing).routes,
                route_number_in(id@),
                origin@,
                destination@,
            ),
            targets: listing_view(listing).targets.push(id@),
        }),
{
    let RouteListing { routes, targets } = listing;
    let mut routes = routes;
    let mut targets = targets;
    let number = route_number_of(id.as_str());
    let ghost before = texts_view(targets@);
    add_termini(&mut routes, number.as_str(), origin, destination);
    targets.push(id);
    assert(texts_view(targets@) =~= before.push(id@));
    RouteListing { routes, targets }
}

/// Reads the list of all timetables, `wanted` naming the timetables asked
/// for. Fails where a row carries an action and the detail pattern does not
/// compile, and only there.
pub fn extract_route_info(rows: &Vec<ListingRow>, wanted: &Option<String>) -> (r: Result<
    RouteListing,
    PatternError,
>)
    ensures
        r matches Ok(listing) ==> listing_view(listing) == (Listed {
            routes: Seq::empty(),
            targets: Seq::empty(),
        }).see_all(rows@, *wanted),
        r is Ok <==> (compiles(DETAIL_PATTERN@) || forall|i: int|
            0 <= i < rows.len() ==> !carries_action(#[trigger] rows[i])),
{
    let ghost begin = Listed { routes: Seq::empty(), targets: Seq::empty() };
    let mut listing = RouteListing { routes: Vec::new(), targets: Vec::new() };
    let mut i: usize = 0;
    assert(rows@.take(0) =~= Seq::empty());
    assert(listing_view(listing).routes =~= begin.routes);
    assert(listing_view(listing).targets =~= begin.targets);
    while i < rows.len()
        invariant
            i <= rows.len(),
            listing_view(listing) == begin.see_all(rows@.take(i as int), *wanted),
            compiles(DETAIL_PATTERN@) || forall|k: int|
                0 <= k < i ==> !carries_action(#[trigger] rows[k]),
        decreases rows.len() - i,
    {
        let row = &rows[i];
        proof {
            assert(rows@.take(i as int + 1).drop_last() =~= rows@.take(i as int));
            assert(rows@.take(i as int + 1).last() == *row);
        }
        let id = match row_route_id(row) {
            Ok(id) => id,
            Err(e) => {
                assert(carries_action(rows[i as int]) && !compiles(DETAIL_PATTERN@));
                return Err(e);
            },
        };
        match id {
            None => {},
            Some(id) => {
                let asked = match wanted {
                    Some(w) => str_starts_with(id.as_str(), w.as_str()),
                    None => true,
                };
                if asked {
                    let origin = str_trim(row.cells[1].as_str());
                    let destination = str_trim(row.cells[2].as_str());
                    listing = list_timetable(listing, id, origin, destination);
                }
            },
        }
        i += 1;
    }
    assert(rows@.take(rows.len() as int) =~= rows@);
    Ok(listing)
}

/// Finds what the list says of the route of the timetable `route_id`:
/// the first entry for the route number in the id.
pub fn meta_for<'a>(routes: &'a Vec<RouteEntry>, route_id: &str) -> (r: Option<&'a RouteMeta>)
    ensures
        r is Some <==> known_numbers(entries_view(routes@)).contains(route_number_in(route_id@)),
        r matches Some(meta) ==> *meta == routes[index_of_text(
            known_numbers(entries_view(routes@)),
            route_number_in(route_id@),
        )].meta,
{
    let number = route_number_of(route_id);
    let name = chars_of(number.as_str());
    let ghost numbers = known_numbers(entries_view(routes@));
    let mut at: usize = 0;
    while at < routes.len()
        invariant
            at <= routes.len(),
            numbers == known_numbers(entries_view(routes@)),
            name@ == route_number_in(route_id@),
            forall|k: int| 0 <= k < at ==> numbers[k] != name@,
        decreases routes.len() - at,
    {
        let other = chars_of(routes[at].route_number.as_str());
        if chars_equal(&other, &name) {
            proof {
                lemma_index_of_text(numbers, name@);
                assert(numbers[at as int] == name@);
            }
            return Some(&routes[at].meta);
        }
        at += 1;
    }
    proof {
        lemma_index_of_text(numbers, name@);
    }
    None
}

/// The digit `d` of a number written to base sixteen, in capitals.
pub open spec fn hex_char(d: int) -> char {
    if d == 0 {
        '0'
    } else if d == 1 {
        '1'
    } else if d == 2 {
        '2'
    } else if d == 3 {
        '3'
    } else if d == 4 {
        '4'
    } else if d == 5 {
        '5'
    } else if d == 6 {
        '6'
    } else if d == 7 {
        '7'
    } else if d == 8 {
        '8'
    } else if d == 9 {
        '9'
    } else if d == 10 {
        'A'
    } else if d == 11 {
        'B'
    } else if d == 12 {
        'C'
    } else if d == 13 {
        'D'
    } else if d == 14 {
        'E'
    } else {
        'F'
    }
}

/// Whether a byte is an ASCII letter or digit.
pub open spec fn is_ascii_letter_or_digit(b: u8) -> bool {
    (0x30 <= b <= 0x39) || (0x41 <= b <= 0x5A) || (0x61 <= b <= 0x7A)
}

/// A byte as percent-encoding writes it where only ASCII letters and
/// digits are left as they are: any other byte becomes a percent sign and
/// its value in two digits to base sixteen.
pub open spec fn encoded_byte(b: u8) -> Seq<char> {
    if is_ascii_letter_or_digit(b) {
        seq![b as char]
    } else {
        seq!['%', hex_char(b as int / 16), hex_char(b as int % 16)]
    }
}

/// Bytes as percent-encoding writes them, byte by byte.
pub open spec fn percent_encoded(bytes: Seq<u8>) -> Seq<char>
    decreases bytes.len(),
{
    if bytes.len() == 0 {
        Seq::empty()
    } else {
        percent_encoded(bytes.drop_last()) + encoded_byte(bytes.last())
    }
}

/// `percent_encoding::percent_encode` with the set `NON_ALPHANUMERIC`, the
/// result written out with `to_string`: every byte that is not an ASCII
/// letter or digit is replaced by a percent sign and two capital digits to
/// base sixteen.
#[verifier::external_body]
pub(crate) fn percent_encode_bytes(bytes: &Vec<u8>) -> (r: String)
    ensures
        r@ == percent_encoded(bytes@),
{
    percent_encoding::percent_encode(bytes, percent_encoding::NON_ALPHANUMERIC).to_string()
}

/// Body of the request for the timetable `route_id`: the field `no` with
/// the id's UTF-8 bytes percent-encoded.
pub fn detail_request_body(route_id: &str) -> (r: String)
    ensures
        r@ == "no="@ + percent_encoded(vstd::utf8::encode_utf8(route_id@)),
{
    let bytes = route_id.as_bytes_vec();
    let encoded = percent_encode_bytes(&bytes);
    let mut out: Vec<char> = Vec::new();
    push_str(&mut out, "no=");
    push_str(&mut out, encoded.as_str());
    string_from_chars(&out)
}

/// A character as a file name takes it: letters, numbers and the hyphen
/// as they are, an underscore for any other.
pub open spec fn safe_char(c: char) -> char {
    if is_alphanumeric(c) || c == '-' {
        c
    } else {
        '_'
    }
}

/// Name of the file that takes the merged timetables of the route
/// `route_number`.
pub open spec fn schedule_file(route_number: Seq<char>) -> Seq<char> {
    route_number.map_values(|c: char| safe_char(c)) + ".json"@
}

/// Decides how a file name takes the character `c`, `alphanumeric` saying
/// whether it is a letter or a number.
pub fn safe_file_char(c: char, alphanumeric: bool) -> (r: char)
    ensures
        r == if alphanumeric || c == '-' {
            c
        } else {
            '_'
        },
{
    if alphanumeric || c == '-' {
        c
    } else {
        '_'
    }
}

/// Computes the name of the file that takes the merged timetables of a
/// route.
pub fn schedule_file_name(route_number: &str) -> (r: String)
    ensures
        r@ == schedule_file(route_number@),
{
    let chars = chars_of(route_number);
    let mut out: Vec<char> = Vec::new();
    let mut i: usize = 0;
    while i < chars.len()
        invariant
            i <= chars.len(),
            out@ == chars@.take(i as int).map_values(|c: char| safe_char(c)),
        decreases chars.len() - i,
    {
        let c = chars[i];
        out.push(safe_file_char(c, char_is_alphanumeric(c)));
        assert(out@ =~= chars@.take(i as int + 1).map_values(|c: char| safe_char(c)));
        i += 1;
    }
    assert(chars@.take(chars.len() as int) =~= chars@);
    push_str(&mut out, ".json");
    string_from_chars(&out)
}

} // verus!
