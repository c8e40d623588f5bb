//! Records of a route: its stops as they come in and the feature that is
//! derived from them.

use crate::geometry::PathPoint;
use vstd::prelude::*;

verus! {

/// A boarding point of a route.
#[derive(Debug, PartialEq, Eq)]
pub struct Stop {
    /// Identity of the stop.
    pub node_id: String,
    pub name: String,
    /// Number shown at the stop.
    pub node_number: String,
    /// Place in the route's visiting order.
    pub sequence_order: i64,
    /// Travel direction on which the stop is served.
    pub direction_code: i64,
    pub position: PathPoint,
}

impl Stop {
    /// A copy of this stop.
    pub fn duplicate(&self) -> (r: Stop)
        ensures
            r == *self,
    {
        Stop {
            node_id: self.node_id.clone(),
            name: self.name.clone(),
            node_number: self.node_number.clone(),
            sequence_order: self.sequence_order,
            direction_code: self.direction_code,
            position: self.position,
        }
    }

    /// This stop moved to `position`, all else kept.
    pub open spec fn moved_to(self, position: PathPoint) -> Stop {
        Stop { position, ..self }
    }
}

/// A route as it was fetched: its stops in visiting order.
#[derive(Debug, PartialEq, Eq)]
pub struct RawRoute {
    pub route_id: String,
    pub route_number: String,
    /// When the stops were fetched; passed on as the feature's source version.
    pub fetched_at: String,
    pub stops: Vec<Stop>,
}

/// Positions of `stops`, in order.
pub open spec fn positions_of(stops: Seq<Stop>) -> Seq<PathPoint> {
    Seq::new(stops.len(), |i: int| stops[i].position)
}

/// Collects the positions of `stops`, in order.
pub fn stop_positions(stops: &Vec<Stop>) -> (r: Vec<PathPoint>)
    ensures
        r@ == positions_of(stops@),
{
    let mut out: Vec<PathPoint> = Vec::new();
    let mut i: usize = 0;
    while i < stops.len()
        invariant
            i <= stops.len(),
            out.len() == i,
            forall|j: int| 0 <= j < i ==> out[j] == stops[j].position,
        decreases stops.len() - i,
    {
        out.push(stops[i].position);
        i += 1;
    }
    assert(out@ =~= positions_of(stops@));
    out
}

/// Whether a stop list is in route order: ascending by `sequence_order`.
pub open spec fn in_visiting_order(stops: Seq<Stop>) -> bool {
    forall|i: int, j: int|
        0 <= i <= j < stops.len() ==> (#[trigger] stops[i]).sequence_order <= (
        #[trigger] stops[j]).sequence_order
}

/// Whether no two stops of a list share a `node_id`.
pub open spec fn distinct_nodes(stops: Seq<Stop>) -> bool {
    forall|i: int, j: int|
        0 <= i < j < stops.len() ==> (#[trigger] stops[i]).node_id@ != (
        #[trigger] stops[j]).node_id@
}

} // verus!
