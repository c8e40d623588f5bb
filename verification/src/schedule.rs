//! Timetable records: what kind of day a timetable is for.

use crate::pattern::{captured, captures, compiles, found_view, group_of, group_text, PatternError};
use crate::text::{
    chars_of, has_substring, str_contains, strip_outer_brackets, without_outer_brackets,
};
use crate::unicode::{lowercase_of, str_to_lowercase, string_from_chars};
use vstd::prelude::*;
use vstd::string::StringExecFns;

verus! {

/// Whether a lowercase label names working days.
pub open spec fn names_weekday(label: Seq<char>) -> bool {
    has_substring(label, "평일"@) || has_substring(label, "주중"@)
}

/// Whether a lowercase label names days off: weekend, holiday, Saturday,
/// Sunday, vacation or public holiday.
pub open spec fn names_weekend(label: Seq<char>) -> bool {
    ||| has_substring(label, "주말"@)
    ||| has_substring(label, "휴일"@)
    ||| has_substring(label, "토"@)
    ||| has_substring(label, "일"@)
    ||| has_substring(label, "방학"@)
    ||| has_substring(label, "공휴"@)
}

/// The day type that a lowercase label stands for. A label that names
/// working days is a weekday label whatever else it names.
pub open spec fn day_type_of(label: Seq<char>) -> Seq<char> {
    if names_weekday(label) {
        "weekday"@
    } else if names_weekend(label) {
        "weekend"@
    } else {
        "general"@
    }
}

/// Classifies a day label that is already in lowercase as `weekday`,
/// `weekend` or `general`.
pub fn classify_day_type(label: &str) -> (r: String)
    ensures
        r@ == day_type_of(label@),
{
    if str_contains(label, "평일") || str_contains(label, "주중") {
        String::from_str("weekday")
    } else if str_contains(label, "주말") || str_contains(label, "휴일") || str_contains(
        label,
        "토",
    ) || str_contains(label, "일") || str_contains(label, "방학") || str_contains(label, "공휴") {
        String::from_str("weekend")
    } else {
        String::from_str("general")
    }
}

/// Classifies a day label as written on a timetable: the label is put in
/// lowercase and then classified.
pub fn normalize_day_type(raw: &str) -> (r: String)
    ensures
        r@ == day_type_of(lowercase_of(raw@)),
{
    let lower = str_to_lowercase(raw);
    classify_day_type(lower.as_str())
}

/// Pattern that takes a timetable's id apart: a route number, then the
/// rest, which names the kind of day.
pub const ROUTE_ID_PATTERN: &'static str = "^(\\S+?)(.*)?$";

/// The two parts of a timetable's id.
#[derive(Debug, PartialEq, Eq)]
pub struct RouteIdParts {
    pub route_number: String,
    /// The kind of day as the id words it; `general` where it words none.
    pub raw_day_type: String,
}

/// The parts of the id `route_id`, given what the id pattern captured in
/// it. Group 1 is the route number and group 2, without the round brackets
/// at its ends, the kind of day. A group that took nothing gives an empty
/// number, or the kind `general`. Where the pattern did not match, the
/// whole id is the number and the kind is `general`.
pub open spec fn route_id_parts(route_id: Seq<char>, found: Option<Seq<Option<Seq<char>>>>) -> (
    Seq<char>,
    Seq<char>,
) {
    if found is Some {
        (
            match group_of(found, 1) {
                Some(number) => number,
                None => Seq::empty(),
            },
            match group_of(found, 2) {
                Some(kind) => without_outer_brackets(kind),
                None => "general"@,
            },
        )
    } else {
        (route_id, "general"@)
    }
}

/// Takes the id `route_id` apart, given what the id pattern captured in
/// it.
pub fn split_route_id(route_id: &str, found: &Option<Vec<Option<String>>>) -> (r: RouteIdParts)
    ensures
        (r.route_number@, r.raw_day_type@) == route_id_parts(route_id@, found_view(*found)),
{
    if found.is_some() {
        let route_number = match group_text(found, 1) {
            Some(number) => number,
            None => String::new(),
        };
        let raw_day_type = match group_text(found, 2) {
            Some(kind) => {
                let chars = chars_of(kind.as_str());
                let bare = strip_outer_brackets(&chars);
                string_from_chars(&bare)
            },
            None => String::from_str("general"),
        };
        RouteIdParts { route_number, raw_day_type }
    } else {
        RouteIdParts {
            route_number: String::from_str(route_id),
            raw_day_type: String::from_str("general"),
        }
    }
}

/// Takes the id of a timetable apart: matches the id pattern against it
/// and splits it by what the pattern captured. Fails where the id pattern
/// does not compile, and only there.
pub fn parse_route_id(route_id: &str) -> (r: Result<RouteIdParts, PatternError>)
    ensures
        r is Ok <==> compiles(ROUTE_ID_PATTERN@),
        r matches Ok(parts) ==> (parts.route_number@, parts.raw_day_type@) == route_id_parts(
            route_id@,
            captured(ROUTE_ID_PATTERN@, route_id@),
        ),
{
    match captures(ROUTE_ID_PATTERN, route_id) {
        Ok(found) => Ok(split_route_id(route_id, &found)),
        Err(e) => Err(e),
    }
}

} // verus!
