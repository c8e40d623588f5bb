//! Corridor correction: an interior stop that lies close to the road between
//! its two neighbours is moved onto that road.

use crate::geometry::PathPoint;
use crate::model::Stop;
use vstd::prelude::*;

verus! {

/// Farthest, in millimetres, that a stop may lie from the corridor and
/// still be moved onto it.
pub const CORRIDOR_THRESHOLD: u64 = 90_000;

/// Where a stop would be moved to: its projection onto the corridor, and
/// how far from the stop that is, in millimetres.
#[derive(Clone, Copy, Debug, PartialEq, Eq, Structural)]
pub struct CorrectionCandidate {
    pub point: PathPoint,
    pub distance: u64,
}

/// The corridor to ask for on behalf of one interior stop.
#[derive(Clone, Copy, Debug, PartialEq, Eq, Structural)]
pub struct CorridorQuery {
    /// Position of the stop before.
    pub from: PathPoint,
    /// Position of the stop after.
    pub to: PathPoint,
    /// Position of the stop to correct.
    pub stop: PathPoint,
}

/// Whether a candidate is close enough to be taken.
pub open spec fn within_threshold(candidate: Option<CorrectionCandidate>) -> bool {
    candidate is Some && candidate->0.distance <= CORRIDOR_THRESHOLD
}

/// Position of a stop after correction: the candidate's point where there
/// is a candidate within the threshold, the stop's own position otherwise.
pub open spec fn corrected_position(
    position: PathPoint,
    candidate: Option<CorrectionCandidate>,
) -> PathPoint {
    if within_threshold(candidate) {
        candidate->0.point
    } else {
        position
    }
}

/// Decides the position of a stop, given the candidate found for it.
pub fn correct_position(position: PathPoint, candidate: &Option<CorrectionCandidate>) -> (r:
    PathPoint)
    ensures
        r == corrected_position(position, *candidate),
        !within_threshold(*candidate) ==> r == position,
{
    match candidate {
        Some(c) => {
            if c.distance <= CORRIDOR_THRESHOLD {
                c.point
            } else {
                position
            }
        },
        None => position,
    }
}

/// Mathematical state of a correction run.
pub struct Sanitizing {
    /// The stops, corrected up to `next`.
    pub stops: Seq<Stop>,
    /// Index of the stop whose correction is due.
    pub next: nat,
}

impl Sanitizing {
    /// State before any stop was looked at: the first interior stop is due.
    pub open spec fn initial(stops: Seq<Stop>) -> Sanitizing {
        Sanitizing { stops, next: 1 }
    }

    /// Whether a stop is still due: an interior one.
    pub open spec fn has_query(self) -> bool {
        1 <= self.next && self.next + 1 < self.stops.len()
    }

    /// The query for the stop that is due. Its neighbours are taken as
    /// they stand, the one before after its own correction.
    pub open spec fn query(self) -> CorridorQuery {
        CorridorQuery {
            from: self.stops[self.next as int - 1].position,
            to: self.stops[self.next as int + 1].position,
            stop: self.stops[self.next as int].position,
        }
    }

    /// State after the due stop's candidate was judged. Without a due stop
    /// nothing changes.
    pub open spec fn accept(self, candidate: Option<CorrectionCandidate>) -> Sanitizing {
        if !self.has_query() {
            self
        } else {
            Sanitizing {
                stops: self.stops.update(
                    self.next as int,
                    self.stops[self.next as int].moved_to(
                        corrected_position(self.stops[self.next as int].position, candidate),
                    ),
                ),
                next: self.next + 1,
            }
        }
    }
}

/// A stop whose candidate is missing or beyond the threshold stays where it
/// was, and with it the whole stop list.
pub proof fn lemma_stop_kept_without_candidate(
    state: Sanitizing,
    candidate: Option<CorrectionCandidate>,
)
    requires
        !within_threshold(candidate),
    ensures
        state.accept(candidate).stops == state.stops,
{
    if state.has_query() {
        assert(state.accept(candidate).stops =~= state.stops);
    }
}

/// A correction changes nothing of a stop but its position, and no stop
/// but the one that is due.
pub proof fn lemma_correction_keeps_identity(
    state: Sanitizing,
    candidate: Option<CorrectionCandidate>,
    i: int,
)
    requires
        0 <= i < state.stops.len(),
    ensures
        state.accept(candidate).stops.len() == state.stops.len(),
        state.accept(candidate).stops[i] == state.stops[i].moved_to(
            state.accept(candidate).stops[i].position,
        ),
        i != state.next ==> state.accept(candidate).stops[i] == state.stops[i],
{
}

/// Corrects the stops of a route one by one. The caller asks for the due
/// query, has the corridor routed and the stop projected onto it, and hands
/// the candidate to `accept`.
pub struct CorridorSanitizer {
    stops: Vec<Stop>,
    next: usize,
}

impl View for CorridorSanitizer {
    type V = Sanitizing;

    closed spec fn view(&self) -> Sanitizing {
        Sanitizing { stops: self.stops@, next: self.next as nat }
    }
}

impl CorridorSanitizer {
    /// A run over `stops`.
    pub fn new(stops: Vec<Stop>) -> (r: CorridorSanitizer)
        ensures
            r@ == Sanitizing::initial(stops@),
    {
        CorridorSanitizer { stops, next: 1 }
    }

    /// The query that is due; `None` when every interior stop was judged.
    pub fn pending_query(&self) -> (r: Option<CorridorQuery>)
        ensures
            r is Some <==> self@.has_query(),
            r matches Some(q) ==> q == self@.query(),
    {
        let n = self.stops.len();
        if self.next >= 1 && self.next < n && n - self.next > 1 {
            Some(
                CorridorQuery {
                    from: self.stops[self.next - 1].position,
                    to: self.stops[self.next + 1].position,
                    stop: self.stops[self.next].position,
                },
            )
        } else {
            None
        }
    }

    /// Judges the candidate found for the due stop, `None` where routing
    /// failed or gave nothing, and moves on to the next stop.
    pub fn accept(self, candidate: &Option<CorrectionCandidate>) -> (r: CorridorSanitizer)
        ensures
            r@ == self@.accept(*candidate),
    {
        let pending = self.pending_query();
        match pending {
            None => self,
            Some(q) => {
                let CorridorSanitizer { stops, next } = self;
                let mut stops = stops;
                assert(next + 1 < stops.len());
                let position = correct_position(q.stop, candidate);
                let moved = Stop {
                    node_id: stops[next].node_id.clone(),
                    name: stops[next].name.clone(),
                    node_number: stops[next].node_number.clone(),
                    sequence_order: stops[next].sequence_order,
                    direction_code: stops[next].direction_code,
                    position,
                };
                stops.set(next, moved);
                CorridorSanitizer { stops, next: next + 1 }
            },
        }
    }

    /// The stops as they stand.
    pub fn finish(self) -> (r: Vec<Stop>)
        ensures
            r@ == self@.stops,
    {
        self.stops
    }
}

/// Position of stop `i` after a whole run in which `candidates[k]` was
/// found for interior stop `k + 1`. The first and the last stop, and a stop
/// for which the list holds no candidate, keep their position.
pub open spec fn sanitized_position(
    stops: Seq<Stop>,
    candidates: Seq<Option<CorrectionCandidate>>,
    i: int,
) -> PathPoint {
    if 1 <= i && i + 1 < stops.len() && i - 1 < candidates.len() {
        corrected_position(stops[i].position, candidates[i - 1])
    } else {
        stops[i].position
    }
}

/// Corrects the interior stops of a route, given the candidate found for
/// each in route order. Order, identity and all fields but the position are
/// kept.
pub fn sanitize_stops_to_corridor(
    stops: Vec<Stop>,
    candidates: &Vec<Option<CorrectionCandidate>>,
) -> (r: Vec<Stop>)
    ensures
        r.len() == stops.len(),
        forall|i: int|
            0 <= i < stops.len() ==> #[trigger] r[i] == stops[i].moved_to(
                sanitized_position(stops@, candidates@, i),
            ),
{
    let ghost before = stops@;
    let interior: usize = if stops.len() >= 3 { stops.len() - 2 } else { 0 };
    let rounds: usize = if candidates.len() < interior { candidates.len() } else { interior };
    let mut run = CorridorSanitizer::new(stops);
    let mut k: usize = 0;
    while k < rounds
        invariant
            k <= rounds <= candidates.len(),
            rounds <= interior,
            interior == if before.len() >= 3 { before.len() - 2 } else { 0 },
            run@.next == k + 1,
            run@.stops.len() == before.len(),
            forall|i: int|
                0 <= i < before.len() ==> #[trigger] run@.stops[i] == before[i].moved_to(
                    if 1 <= i < k + 1 {
                        corrected_position(before[i].position, candidates[i - 1])
                    } else {
                        before[i].position
                    },
                ),
        decreases rounds - k,
    {
        let ghost state = run@;
        run = run.accept(&candidates[k]);
        assert forall|i: int| 0 <= i < before.len() implies #[trigger] run@.stops[i]
            == before[i].moved_to(
            if 1 <= i < k + 2 {
                corrected_position(before[i].position, candidates[i - 1])
            } else {
                before[i].position
            },
        ) by {
            assert(state.stops[i] == before[i].moved_to(
                if 1 <= i < k + 1 {
                    corrected_position(before[i].position, candidates[i - 1])
                } else {
                    before[i].position
                },
            ));
        }
        k += 1;
    }
    run.finish()
}

} // verus!
