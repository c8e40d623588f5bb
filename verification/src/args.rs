//! What a run is asked to do.

use crate::text::{
    chars_of, contains_chars, ends_with_chars, has_prefix, has_substring, has_suffix, str_equal,
    str_starts_with,
};
use std::path::PathBuf;
use vstd::prelude::*;

verus! {

/// A path in the file system, carried through as it is.
#[verifier::external_type_specification]
#[verifier::external_body]
pub struct ExPathBuf(std::path::PathBuf);

/// Request to collect routes and derive their features.
pub struct RouteArgs {
    /// City whose routes are processed.
    pub city_code: String,
    /// The one route number to process; all where `None`.
    pub route: Option<String>,
    /// Directory that takes the output.
    pub output_dir: PathBuf,
    /// Stop after the station map was written.
    pub station_map_only: bool,
    /// Skip collection and derive from what was collected before.
    pub osrm_only: bool,
}

/// Request to collect timetables.
pub struct ScheduleArgs {
    /// The one route to collect; all where `None`.
    pub route: Option<String>,
    /// Directory that takes the output.
    pub output_dir: PathBuf,
}

/// Whether a request that names `wanted` asks for the route numbered
/// `route_number`: it does where it names none or names that number.
pub open spec fn wants_route(wanted: Option<String>, route_number: Seq<char>) -> bool {
    wanted matches Some(w) ==> w@ == route_number
}

/// Whether a request that names `wanted` asks for the collected file
/// `file_name`: a file with the extension `json` whose name holds the
/// wanted number, where one is named.
pub open spec fn wants_file(wanted: Option<String>, file_name: Seq<char>) -> bool {
    &&& has_suffix(file_name, ".json"@)
    &&& file_name.len() > ".json"@.len()
    &&& wanted matches Some(w) ==> has_substring(file_name, w@)
}

/// Whether a request that names `wanted` asks for the timetable `route_id`:
/// it does where it names none or where the id begins with what it names.
pub open spec fn wants_timetable(wanted: Option<String>, route_id: Seq<char>) -> bool {
    wanted matches Some(w) ==> has_prefix(route_id, w@)
}

impl RouteArgs {
    /// Whether the route numbered `route_number` is to be collected.
    pub fn selects_route(&self, route_number: &str) -> (r: bool)
        ensures
            r == wants_route(self.route, route_number@),
    {
        match &self.route {
            Some(w) => str_equal(w.as_str(), route_number),
            None => true,
        }
    }

    /// Whether the collected file `file_name` is to be derived from.
    pub fn selects_file(&self, file_name: &str) -> (r: bool)
        ensures
            r == wants_file(self.route, file_name@),
    {
        let name = chars_of(file_name);
        let extension = chars_of(".json");
        if !(ends_with_chars(&name, &extension) && name.len() > extension.len()) {
            return false;
        }
        match &self.route {
            Some(w) => {
                let wanted = chars_of(w.as_str());
                contains_chars(&name, &wanted)
            },
            None => true,
        }
    }
}

impl ScheduleArgs {
    /// Whether the timetable `route_id` is to be collected.
    pub fn selects(&self, route_id: &str) -> (r: bool)
        ensures
            r == wants_timetable(self.route, route_id@),
    {
        match &self.route {
            Some(w) => str_starts_with(route_id, w.as_str()),
            None => true,
        }
    }
}

} // verus!
