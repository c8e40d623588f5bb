//! Bus routes and timetables of a city, made ready for a map.
//!
//! The route side turns the stops of a route into one road-following path:
//! stops that drifted are moved onto the corridor between their neighbours
//! (`corridor`, `projection`), the stop list is routed window by window and
//! the windows are stitched into one path with an index for every stop
//! (`stitch`, `request`), the turnaround is located (`turn`), the path is
//! measured and rounded (`metrics`, `geometry`, `rounding`) and all of it is
//! put into one feature (`feature`). Positions are fixed-point numbers, so
//! that every step is exact.
//!
//! The timetable side reads the list of timetables (`listing`) and each
//! timetable page (`timetable`, `schedule`, `pattern`) and merges the
//! timetables of a route into one record (`merge`).
//!
//! Fetching, routing and the file system are the caller's part: the state
//! machines here say what to ask for, and take the answers.

pub mod args;
pub mod corridor;
pub mod feature;
pub mod geometry;
pub mod ingest;
pub mod listing;
pub mod merge;
pub mod metrics;
pub mod model;
pub mod names;
pub mod pattern;
pub mod projection;
pub mod request;
pub mod rounding;
pub mod schedule;
pub mod stitch;
pub mod text;
pub mod timetable;
pub mod turn;
pub mod unicode;
