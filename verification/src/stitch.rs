//! Chunked path building: the stop list is cut into windows that overlap by
//! one stop, each window's routed geometry is stitched onto one path, and
//! every stop is given the index of its nearest path point.

use crate::geometry::{find_nearest_coord_index, first_nearest, lemma_first_nearest, PathPoint};
use vstd::prelude::*;

verus! {

/// Index in the stitched path of point `local` of a window's geometry, when
/// `prior_len` points were on the path before that window. The first window
/// is taken whole; of a later one the first point is dropped as a repeat of
/// the path's last, so its point 0 is that last point.
pub open spec fn stitched_index(prior_len: nat, local: nat) -> nat {
    if prior_len == 0 {
        local
    } else {
        (prior_len - 1 + local) as nat
    }
}

/// The part of a window's geometry that is appended to a path of
/// `prior_len` points.
pub open spec fn appended_part(prior_len: nat, geometry: Seq<PathPoint>) -> Seq<PathPoint> {
    if prior_len == 0 {
        geometry
    } else {
        geometry.skip(1)
    }
}

/// Computes `stitched_index`.
pub fn global_path_index(prior_len: usize, local: usize) -> (r: usize)
    requires
        stitched_index(prior_len as nat, local as nat) <= usize::MAX,
    ensures
        r == stitched_index(prior_len as nat, local as nat),
{
    if prior_len == 0 {
        local
    } else {
        prior_len - 1 + local
    }
}

/// A stitched index lies on the path as it is after the window was appended.
pub proof fn lemma_stitched_index_in_bounds(prior_len: nat, local: nat, geometry: Seq<PathPoint>)
    requires
        local < geometry.len(),
    ensures
        stitched_index(prior_len, local) < prior_len + appended_part(prior_len, geometry).len(),
        prior_len > 0 ==> stitched_index(prior_len, local) >= prior_len - 1,
{
}

/// Mathematical state of a path under construction.
pub struct Stitching {
    /// Positions of the route's stops, in route order.
    pub stops: Seq<PathPoint>,
    /// Largest number of stops sent in one window.
    pub chunk_size: nat,
    /// Path stitched so far.
    pub path: Seq<PathPoint>,
    /// For each stop the path index it was mapped to, if it was.
    pub slots: Seq<Option<nat>>,
    /// First stop of the window that is due next.
    pub start: nat,
}

impl Stitching {
    /// State before any window was requested.
    pub open spec fn initial(stops: Seq<PathPoint>, chunk_size: nat) -> Stitching {
        Stitching {
            stops,
            chunk_size,
            path: Seq::empty(),
            slots: Seq::new(stops.len(), |i: int| None::<nat>),
            start: 0,
        }
    }

    /// Whether a window is still due: one of at least two stops.
    pub open spec fn has_window(self) -> bool {
        self.chunk_size >= 2 && self.start + 1 < self.stops.len()
    }

    /// One past the last stop of the window that is due.
    pub open spec fn window_end(self) -> nat {
        if self.start + self.chunk_size <= self.stops.len() {
            self.start + self.chunk_size
        } else {
            self.stops.len()
        }
    }

    /// Whether the window that is due covers stop `j`.
    pub open spec fn in_window(self, j: int) -> bool {
        self.start <= j < self.window_end()
    }

    /// State after the due window was answered with `geometry`: `None` or
    /// an empty geometry leaves a gap; otherwise the geometry is stitched on
    /// and the window's unmapped stops are mapped. The next window starts at
    /// this window's last stop. Without a due window nothing changes.
    pub open spec fn accept(self, geometry: Option<Seq<PathPoint>>) -> Stitching {
        if !self.has_window() {
            self
        } else if geometry is Some && geometry->0.len() > 0 {
            let g = geometry->0;
            Stitching {
                path: self.path + appended_part(self.path.len(), g),
                slots: Seq::new(
                    self.slots.len(),
                    |j: int|
                        if self.in_window(j) && self.slots[j] is None {
                            Some(
                                stitched_index(
                                    self.path.len(),
                                    first_nearest(self.stops[j]@, g) as nat,
                                ),
                            )
                        } else {
                            self.slots[j]
                        },
                ),
                start: (self.window_end() - 1) as nat,
                ..self
            }
        } else {
            Stitching { start: (self.window_end() - 1) as nat, ..self }
        }
    }

    /// State after the answers `responses` were accepted in order.
    pub open spec fn accept_all(self, responses: Seq<Option<Seq<PathPoint>>>) -> Stitching
        decreases responses.len(),
    {
        if responses.len() == 0 {
            self
        } else {
            self.accept(responses[0]).accept_all(responses.skip(1))
        }
    }

    /// Index of the path's last point; 0 for an empty path.
    pub open spec fn last_index(self) -> nat {
        if self.path.len() > 0 {
            (self.path.len() - 1) as nat
        } else {
            0
        }
    }

    /// The index map as it stands: a mapped stop has its index, an unmapped
    /// one the path's last.
    pub open spec fn index_map(self) -> Seq<nat> {
        Seq::new(
            self.slots.len(),
            |j: int|
                match self.slots[j] {
                    Some(i) => i,
                    None => self.last_index(),
                },
        )
    }

    /// One slot per stop, every mapped index on the path, and the next
    /// window starting inside the stop list.
    pub open spec fn consistent(self) -> bool {
        &&& self.slots.len() == self.stops.len()
        &&& self.start <= self.stops.len()
        &&& forall|j: int|
            0 <= j < self.slots.len() ==> (#[trigger] self.slots[j] matches Some(i) ==> i
                < self.path.len())
    }
}

/// What a routing request came back with, as the model sees it.
pub open spec fn geometry_view(geometry: &Option<Vec<PathPoint>>) -> Option<Seq<PathPoint>> {
    match geometry {
        Some(g) => Some(g@),
        None => None,
    }
}

/// Slots as the model sees them.
pub open spec fn slots_view(slots: Seq<Option<usize>>) -> Seq<Option<nat>> {
    Seq::new(
        slots.len(),
        |j: int|
            match slots[j] {
                Some(i) => Some(i as nat),
                None => None::<nat>,
            },
    )
}

/// Answers to a route's windows, in window order, as the model sees them.
pub open spec fn responses_view(responses: Seq<Option<Vec<PathPoint>>>) -> Seq<
    Option<Seq<PathPoint>>,
> {
    Seq::new(responses.len(), |k: int| geometry_view(&responses[k]))
}

/// Whether `map` holds exactly the indices `indices`.
pub open spec fn holds_indices(map: Seq<usize>, indices: Seq<nat>) -> bool {
    &&& map.len() == indices.len()
    &&& forall|j: int| 0 <= j < map.len() ==> #[trigger] map[j] == indices[j]
}

/// A finished path with its index map: for each stop, in route order, the
/// index of the path point that stands for it.
#[derive(Debug, PartialEq, Eq)]
pub struct StitchedPath {
    pub path: Vec<PathPoint>,
    pub index_map: Vec<usize>,
}

/// Builds one path for a route, window by window. The caller asks for the
/// due window, has it routed, and hands the answer to `accept`.
pub struct PathBuilder {
    stops: Vec<PathPoint>,
    chunk_size: usize,
    path: Vec<PathPoint>,
    slots: Vec<Option<usize>>,
    start: usize,
}

impl View for PathBuilder {
    type V = Stitching;

    closed spec fn view(&self) -> Stitching {
        Stitching {
            stops: self.stops@,
            chunk_size: self.chunk_size as nat,
            path: self.path@,
            slots: slots_view(self.slots@),
            start: self.start as nat,
        }
    }
}

impl PathBuilder {
    #[verifier::type_invariant]
    spec fn valid(self) -> bool {
        self@.consistent()
    }

    /// A builder for the stops at `stops`, with windows of at most
    /// `chunk_size` stops.
    pub fn new(stops: Vec<PathPoint>, chunk_size: usize) -> (r: PathBuilder)
        ensures
            r@ == Stitching::initial(stops@, chunk_size as nat),
    {
        let mut slots: Vec<Option<usize>> = Vec::new();
        let mut i: usize = 0;
        while i < stops.len()
            invariant
                i <= stops.len(),
                slots.len() == i,
                forall|j: int| 0 <= j < i ==> slots[j] is None,
            decreases stops.len() - i,
        {
            slots.push(None);
            i += 1;
        }
        let r = PathBuilder { stops, chunk_size, path: Vec::new(), slots, start: 0 };
        assert(r@.slots =~= Stitching::initial(stops@, chunk_size as nat).slots);
        r
    }

    /// The window that is due, as the index of its first stop and one past
    /// its last; `None` when the route is covered.
    pub fn pending_window(&self) -> (r: Option<(usize, usize)>)
        ensures
            r is Some <==> self@.has_window(),
            r matches Some(w) ==> w.0 == self@.start && w.1 == self@.window_end() && w.0 + 2 <= w.1
                <= self@.stops.len(),
            self@.consistent(),
    {
        proof {
            use_type_invariant(self);
        }
        let n = self.stops.len();
        if self.chunk_size < 2 || self.start >= n || n - self.start < 2 {
            None
        } else if self.chunk_size >= n - self.start {
            Some((self.start, n))
        } else {
            Some((self.start, self.start + self.chunk_size))
        }
    }

    /// Positions of the stops of the window that is due, in order; empty
    /// when none is due.
    pub fn window_stops(&self) -> (r: Vec<PathPoint>)
        ensures
            self@.has_window() ==> r@ == self@.stops.subrange(
                self@.start as int,
                self@.window_end() as int,
            ),
            !self@.has_window() ==> r@.len() == 0,
            self@.has_window() ==> r@.len() >= 2,
    {
        let mut out: Vec<PathPoint> = Vec::new();
        match self.pending_window() {
            None => {},
            Some((start, end)) => {
                let mut j: usize = start;
                while j < end
                    invariant
                        start <= j <= end <= self.stops.len(),
                        out@ == self.stops@.subrange(start as int, j as int),
                    decreases end - j,
                {
                    out.push(self.stops[j]);
                    assert(self.stops@.subrange(start as int, j as int).push(self.stops[j as int])
                        =~= self.stops@.subrange(start as int, j as int + 1));
                    j += 1;
                }
            },
        }
        out
    }

    /// Takes the answer to the due window: `None` or an empty geometry when
    /// routing failed, which leaves a gap; otherwise the routed points.
    /// Gives the builder as it stands after that answer.
    pub fn accept(self, geometry: &Option<Vec<PathPoint>>) -> (r: PathBuilder)
        ensures
            r@ == self@.accept(geometry_view(geometry)),
    {
        proof {
            use_type_invariant(&self);
        }
        let window = self.pending_window();
        match window {
            None => self,
            Some((start, end)) => {
                match geometry {
                    None => PathBuilder { start: end - 1, ..self },
                    Some(g) => {
                        if g.len() > 0 {
                            self.stitch(start, end, g)
                        } else {
                            PathBuilder { start: end - 1, ..self }
                        }
                    },
                }
            },
        }
    }

    /// Appends `g` to the path, maps the unmapped stops of `start..end` and
    /// moves on to the next window.
    fn stitch(self, start: usize, end: usize, g: &Vec<PathPoint>) -> (r: PathBuilder)
        requires
            g.len() > 0,
            self@.has_window(),
            start == self@.start,
            end == self@.window_end(),
        ensures
            r@ == self@.accept(Some(g@)),
    {
        proof {
            use_type_invariant(&self);
        }
        let ghost model = self@;
        let PathBuilder { stops, chunk_size, path, slots, start: _ } = self;
        let mut path = path;
        let mut slots = slots;
        let prior = path.len();
        let first: usize = if prior > 0 { 1 } else { 0 };
        let mut k: usize = first;
        while k < g.len()
            invariant
                first <= k <= g.len(),
                path@ == model.path + g@.subrange(first as int, k as int),
            decreases g.len() - k,
        {
            path.push(g[k]);
            assert(g@.subrange(first as int, k as int).push(g[k as int]) =~= g@.subrange(
                first as int,
                k as int + 1,
            ));
            k += 1;
        }
        assert(g@.subrange(first as int, g.len() as int) =~= appended_part(prior as nat, g@));
        let mut j: usize = start;
        while j < end
            invariant
                start <= j <= end <= stops.len(),
                g.len() > 0,
                model.consistent(),
                model.stops == stops@,
                model.has_window(),
                start == model.start,
                end == model.window_end(),
                prior == model.path.len(),
                path.len() == prior + appended_part(prior as nat, g@).len(),
                slots.len() == model.slots.len(),
                forall|i: int|
                    0 <= i < slots.len() ==> #[trigger] slots_view(slots@)[i] == if start <= i < j
                        && model.slots[i] is None {
                        Some(stitched_index(prior as nat, first_nearest(stops[i]@, g@) as nat))
                    } else {
                        model.slots[i]
                    },
            decreases end - j,
        {
            if slots[j].is_none() {
                let found = find_nearest_coord_index(&stops[j], g);
                let local = found.unwrap();
                proof {
                    lemma_first_nearest(stops[j as int]@, g@);
                    lemma_stitched_index_in_bounds(prior as nat, local as nat, g@);
                }
                let global = global_path_index(prior, local);
                let ghost before = slots@;
                slots.set(j, Some(global));
                assert forall|i: int| 0 <= i < slots.len() implies #[trigger] slots_view(
                    slots@,
                )[i] == if start <= i < j + 1 && model.slots[i] is None {
                    Some(stitched_index(prior as nat, first_nearest(stops[i]@, g@) as nat))
                } else {
                    model.slots[i]
                } by {
                    if i != j {
                        assert(slots_view(before)[i] == slots_view(slots@)[i]);
                    } else {
                        assert(slots_view(before)[i] is None);
                    }
                }
            } else {
                assert(slots_view(slots@)[j as int] is Some);
            }
            j += 1;
        }
        assert(slots_view(slots@) =~= model.accept(Some(g@)).slots);
        proof {
            model.lemma_accept_consistent(Some(g@));
        }
        PathBuilder { stops, chunk_size, path, slots, start: end - 1 }
    }

    /// Ends the building: a stop that no window mapped gets the index of
    /// the path's last point, 0 where the path is empty.
    pub fn finish(self) -> (r: StitchedPath)
        ensures
            r.path@ == self@.path,
            holds_indices(r.index_map@, self@.index_map()),
            r.index_map.len() == self@.stops.len(),
            r.path.len() > 0 ==> forall|j: int|
                0 <= j < r.index_map.len() ==> #[trigger] r.index_map[j] < r.path.len(),
            r.path.len() == 0 ==> forall|j: int|
                0 <= j < r.index_map.len() ==> #[trigger] r.index_map[j] == 0,
    {
        proof {
            use_type_invariant(&self);
            self@.lemma_index_map_in_bounds();
        }
        let ghost model = self@;
        let PathBuilder { stops: _, chunk_size: _, path, slots, start: _ } = self;
        let last: usize = if path.len() > 0 { path.len() - 1 } else { 0 };
        let mut index_map: Vec<usize> = Vec::new();
        let mut j: usize = 0;
        while j < slots.len()
            invariant
                j <= slots.len(),
                index_map.len() == j,
                slots_view(slots@) == model.slots,
                last == model.last_index(),
                forall|i: int| 0 <= i < j ==> #[trigger] index_map[i] == model.index_map()[i],
            decreases slots.len() - j,
        {
            assert(slots_view(slots@)[j as int] == model.slots[j as int]);
            match slots[j] {
                Some(i) => index_map.push(i),
                None => index_map.push(last),
            }
            j += 1;
        }
        StitchedPath { path, index_map }
    }
}

/// Builds the path of a route from the answers to its windows, given in
/// window order. A window without an answer counts as failed; an answer
/// without a window is ignored.
pub fn build_path(
    stops: Vec<PathPoint>,
    chunk_size: usize,
    responses: &Vec<Option<Vec<PathPoint>>>,
) -> (r: StitchedPath)
    ensures
        r.path@ == Stitching::initial(stops@, chunk_size as nat).accept_all(
            responses_view(responses@),
        ).path,
        holds_indices(
            r.index_map@,
            Stitching::initial(stops@, chunk_size as nat).accept_all(
                responses_view(responses@),
            ).index_map(),
        ),
        r.index_map.len() == stops.len(),
        r.path.len() > 0 ==> forall|j: int|
            0 <= j < r.index_map.len() ==> #[trigger] r.index_map[j] < r.path.len(),
        r.path.len() == 0 ==> forall|j: int|
            0 <= j < r.index_map.len() ==> #[trigger] r.index_map[j] == 0,
{
    let ghost all = responses_view(responses@);
    let ghost begin = Stitching::initial(stops@, chunk_size as nat);
    let mut builder = PathBuilder::new(stops, chunk_size);
    let mut k: usize = 0;
    assert(all.skip(0) =~= all);
    while k < responses.len()
        invariant
            k <= responses.len(),
            all == responses_view(responses@),
            builder@.accept_all(all.skip(k as int)) == begin.accept_all(all),
            builder@.stops == begin.stops,
        decreases responses.len() - k,
    {
        proof {
            assert(all.skip(k as int)[0] == geometry_view(&responses[k as int]));
            assert(all.skip(k as int).skip(1) =~= all.skip(k as int + 1));
            builder@.lemma_accept_stops(geometry_view(&responses[k as int]));
        }
        builder = builder.accept(&responses[k]);
        k += 1;
    }
    builder.finish()
}

impl Stitching {
    /// Accepting an answer changes neither the stops nor the chunk size.
    pub proof fn lemma_accept_stops(self, geometry: Option<Seq<PathPoint>>)
        ensures
            self.accept(geometry).stops == self.stops,
            self.accept(geometry).chunk_size == self.chunk_size,
    {
    }

    /// Accepting an answer keeps a state consistent.
    pub proof fn lemma_accept_consistent(self, geometry: Option<Seq<PathPoint>>)
        requires
            self.consistent(),
        ensures
            self.accept(geometry).consistent(),
            self.accept(geometry).stops == self.stops,
            self.accept(geometry).chunk_size == self.chunk_size,
            self.accept(geometry).path.len() >= self.path.len(),
    {
        let next = self.accept(geometry);
        if self.has_window() && geometry is Some && geometry->0.len() > 0 {
            let g = geometry->0;
            assert forall|j: int| 0 <= j < next.slots.len() implies (#[trigger] next.slots[j]
                matches Some(i) ==> i < next.path.len()) by {
                if self.in_window(j) && self.slots[j] is None {
                    lemma_first_nearest(self.stops[j]@, g);
                    lemma_stitched_index_in_bounds(
                        self.path.len(),
                        first_nearest(self.stops[j]@, g) as nat,
                        g,
                    );
                } else {
                    assert(self.slots[j] matches Some(i) ==> i < self.path.len());
                }
            }
        }
    }

    /// In a consistent state the index map has one entry per stop, each on
    /// the path; over an empty path each is 0.
    pub proof fn lemma_index_map_in_bounds(self)
        requires
            self.consistent(),
        ensures
            self.index_map().len() == self.stops.len(),
            forall|j: int|
                0 <= j < self.stops.len() ==> #[trigger] self.index_map()[j] <= self.last_index(),
            self.path.len() > 0 ==> forall|j: int|
                0 <= j < self.stops.len() ==> #[trigger] self.index_map()[j] < self.path.len(),
            self.path.len() == 0 ==> forall|j: int|
                0 <= j < self.stops.len() ==> #[trigger] self.index_map()[j] == 0,
    {
        assert forall|j: int| 0 <= j < self.stops.len() implies #[trigger] self.index_map()[j]
            <= self.last_index() && (self.path.len() == 0 ==> self.index_map()[j] == 0) by {
            assert(self.slots[j] matches Some(i) ==> i < self.path.len());
        }
    }

    /// Whatever the answers, a route's state stays consistent and keeps its
    /// stops.
    pub proof fn lemma_accept_all_consistent(self, responses: Seq<Option<Seq<PathPoint>>>)
        requires
            self.consistent(),
        ensures
            self.accept_all(responses).consistent(),
            self.accept_all(responses).stops == self.stops,
            self.accept_all(responses).chunk_size == self.chunk_size,
        decreases responses.len(),
    {
        if responses.len() > 0 {
            self.lemma_accept_consistent(responses[0]);
            self.accept(responses[0]).lemma_accept_all_consistent(responses.skip(1));
        }
    }
}

impl Stitching {
    /// Whether the index map as it stands runs in route order.
    pub open spec fn in_route_order(self) -> bool {
        forall|a: int, b: int|
            #![trigger self.index_map()[a], self.index_map()[b]]
            0 <= a <= b < self.stops.len() ==> self.index_map()[a] <= self.index_map()[b]
    }

    /// Whether `geometry`, stitched on now, would map the stops it maps in
    /// route order: of two neighbouring stops that it both maps, the later
    /// is not nearest to an earlier point.
    pub open spec fn maps_in_order(self, geometry: Seq<PathPoint>) -> bool {
        forall|j: int|
            #![trigger self.slots[j]]
            self.in_window(j) && self.in_window(j + 1) && self.slots[j] is None && self.slots[j
                + 1] is None ==> first_nearest(self.stops[j]@, geometry) <= first_nearest(
                self.stops[j + 1]@,
                geometry,
            )
    }

    /// Whether every geometry among `responses` that gets stitched on maps
    /// its stops in route order.
    pub open spec fn all_map_in_order(self, responses: Seq<Option<Seq<PathPoint>>>) -> bool
        decreases responses.len(),
    {
        if responses.len() == 0 {
            true
        } else {
            &&& self.has_window() && responses[0] is Some && responses[0]->0.len() > 0
                ==> self.maps_in_order(responses[0]->0)
            &&& self.accept(responses[0]).all_map_in_order(responses.skip(1))
        }
    }

    /// Whether no unmapped stop stands right before a stop that is mapped
    /// short of the path's end.
    pub open spec fn gaps_at_end(self) -> bool {
        forall|j: int|
            #![trigger self.slots[j]]
            0 <= j && j + 1 < self.slots.len() && self.slots[j] is None && self.slots[j + 1]
                is Some ==> self.slots[j + 1] == Some(self.last_index())
    }

    /// Mapped stops lie at or before the next window's first stop, and of
    /// two mapped neighbours the later has the index that is not smaller.
    pub open spec fn mapped_in_order(self) -> bool {
        &&& forall|j: int|
            0 <= j < self.slots.len() && #[trigger] self.slots[j] is Some ==> j <= self.start
        &&& forall|j: int|
            #![trigger self.slots[j]]
            0 <= j && j + 1 < self.slots.len() && self.slots[j] is Some && self.slots[j + 1]
                is Some ==> self.slots[j]->0 <= self.slots[j + 1]->0
    }

    proof fn lemma_accept_mapped_in_order(self, geometry: Option<Seq<PathPoint>>)
        requires
            self.consistent(),
            self.mapped_in_order(),
            self.has_window() && geometry is Some && geometry->0.len() > 0 ==> self.maps_in_order(
                geometry->0,
            ),
        ensures
            self.accept(geometry).mapped_in_order(),
    {
        let next = self.accept(geometry);
        if self.has_window() {
            assert(self.start + 2 <= self.window_end());
            if geometry is Some && geometry->0.len() > 0 {
                let g = geometry->0;
                assert forall|j: int|
                    #![trigger next.slots[j]]
                    0 <= j && j + 1 < next.slots.len() && next.slots[j] is Some && next.slots[j
                        + 1] is Some implies next.slots[j]->0 <= next.slots[j + 1]->0 by {
                    let fresh = self.in_window(j) && self.slots[j] is None;
                    let fresh_next = self.in_window(j + 1) && self.slots[j + 1] is None;
                    if fresh_next {
                        lemma_first_nearest(self.stops[j + 1]@, g);
                        lemma_stitched_index_in_bounds(
                            self.path.len(),
                            first_nearest(self.stops[j + 1]@, g) as nat,
                            g,
                        );
                        if fresh {
                            lemma_first_nearest(self.stops[j]@, g);
                        } else {
                            assert(self.slots[j] matches Some(i) ==> i < self.path.len());
                        }
                    } else {
                        assert(self.slots[j + 1] is Some);
                        if fresh {
                            assert(j + 1 <= self.start);
                        }
                    }
                }
            }
        }
    }

    proof fn lemma_accept_all_mapped_in_order(self, responses: Seq<Option<Seq<PathPoint>>>)
        requires
            self.consistent(),
            self.mapped_in_order(),
            self.all_map_in_order(responses),
        ensures
            self.accept_all(responses).mapped_in_order(),
        decreases responses.len(),
    {
        if responses.len() > 0 {
            self.lemma_accept_consistent(responses[0]);
            self.lemma_accept_mapped_in_order(responses[0]);
            self.accept(responses[0]).lemma_accept_all_mapped_in_order(responses.skip(1));
        }
    }

    proof fn lemma_ordered_neighbours(self, a: int, b: int)
        requires
            self.consistent(),
            self.mapped_in_order(),
            self.gaps_at_end(),
            0 <= a <= b < self.stops.len(),
        ensures
            self.index_map()[a] <= self.index_map()[b],
        decreases b - a,
    {
        self.lemma_index_map_in_bounds();
        if a < b {
            self.lemma_ordered_neighbours(a, b - 1);
            let j = b - 1;
            assert(self.slots[j] matches Some(i) ==> i < self.path.len());
            assert(self.slots[j + 1] matches Some(i) ==> i < self.path.len());
            assert(self.index_map()[j] <= self.index_map()[j + 1]);
        }
    }

    proof fn lemma_mapped_stays(self, responses: Seq<Option<Seq<PathPoint>>>, j: int)
        requires
            self.slots.len() == self.stops.len(),
            0 <= j < self.slots.len(),
            self.slots[j] is Some,
        ensures
            self.accept_all(responses).slots.len() == self.slots.len(),
            self.accept_all(responses).slots[j] == self.slots[j],
        decreases responses.len(),
    {
        if responses.len() > 0 {
            self.accept(responses[0]).lemma_mapped_stays(responses.skip(1), j);
        }
    }

    proof fn lemma_length_stays(self, responses: Seq<Option<Seq<PathPoint>>>)
        requires
            self.slots.len() == self.stops.len(),
        ensures
            self.accept_all(responses).slots.len() == self.slots.len(),
            self.accept_all(responses).stops == self.stops,
        decreases responses.len(),
    {
        if responses.len() > 0 {
            self.accept(responses[0]).lemma_length_stays(responses.skip(1));
        }
    }

    proof fn lemma_order_needs_windows_in_order(self, responses: Seq<Option<Seq<PathPoint>>>)
        requires
            self.slots.len() == self.stops.len(),
            self.accept_all(responses).in_route_order(),
        ensures
            self.all_map_in_order(responses),
        decreases responses.len(),
    {
        if responses.len() > 0 {
            let next = self.accept(responses[0]);
            let rest = responses.skip(1);
            let end = self.accept_all(responses);
            if self.has_window() && responses[0] is Some && responses[0]->0.len() > 0 {
                let g = responses[0]->0;
                assert forall|j: int|
                    #![trigger self.slots[j]]
                    self.in_window(j) && self.in_window(j + 1) && self.slots[j] is None
                        && self.slots[j + 1] is None implies first_nearest(self.stops[j]@, g)
                    <= first_nearest(self.stops[j + 1]@, g) by {
                    lemma_first_nearest(self.stops[j]@, g);
                    lemma_first_nearest(self.stops[j + 1]@, g);
                    self.lemma_length_stays(responses);
                    next.lemma_mapped_stays(rest, j);
                    next.lemma_mapped_stays(rest, j + 1);
                    assert(0 <= j && j + 1 < end.stops.len());
                    assert(end.slots[j] == next.slots[j] && end.slots[j + 1] == next.slots[j
                        + 1]);
                    assert(end.index_map()[j] <= end.index_map()[j + 1]);
                }
            }
            next.lemma_order_needs_windows_in_order(rest);
        }
    }
}

/// The index map of a route runs in route order, provided that every
/// stitched geometry maps its own stops in route order and that no unmapped
/// stop is followed by a stop mapped short of the path's end.
pub proof fn lemma_index_map_non_decreasing(
    stops: Seq<PathPoint>,
    chunk_size: nat,
    responses: Seq<Option<Seq<PathPoint>>>,
)
    requires
        Stitching::initial(stops, chunk_size).all_map_in_order(responses),
        Stitching::initial(stops, chunk_size).accept_all(responses).gaps_at_end(),
    ensures
        Stitching::initial(stops, chunk_size).accept_all(responses).in_route_order(),
{
    let begin = Stitching::initial(stops, chunk_size);
    let end = begin.accept_all(responses);
    begin.lemma_accept_all_consistent(responses);
    begin.lemma_accept_all_mapped_in_order(responses);
    assert forall|a: int, b: int| 0 <= a <= b < end.stops.len() implies end.index_map()[a]
        <= end.index_map()[b] by {
        end.lemma_ordered_neighbours(a, b);
    }
}

/// The conditions of `lemma_index_map_non_decreasing` leave out no route
/// whose index map runs in route order: such a route meets them both.
pub proof fn lemma_route_order_needs_its_conditions(
    stops: Seq<PathPoint>,
    chunk_size: nat,
    responses: Seq<Option<Seq<PathPoint>>>,
)
    requires
        Stitching::initial(stops, chunk_size).accept_all(responses).in_route_order(),
    ensures
        Stitching::initial(stops, chunk_size).all_map_in_order(responses),
        Stitching::initial(stops, chunk_size).accept_all(responses).gaps_at_end(),
{
    let begin = Stitching::initial(stops, chunk_size);
    let end = begin.accept_all(responses);
    begin.lemma_order_needs_windows_in_order(responses);
    begin.lemma_accept_all_consistent(responses);
    begin.lemma_length_stays(responses);
    end.lemma_index_map_in_bounds();
    assert forall|j: int|
        #![trigger end.slots[j]]
        0 <= j && j + 1 < end.slots.len() && end.slots[j] is None && end.slots[j + 1]
            is Some implies end.slots[j + 1] == Some(end.last_index()) by {
        assert(end.index_map()[j] <= end.index_map()[j + 1]);
        assert(end.slots[j + 1] matches Some(i) ==> i < end.path.len());
    }
}

/// Whether no point of `path` is followed by an equal point.
pub open spec fn free_of_repeats(path: Seq<PathPoint>) -> bool {
    forall|i: int| 0 <= i && i + 1 < path.len() ==> #[trigger] path[i] != path[i + 1]
}

/// Stitching keeps a path free of repeated neighbours, provided that the
/// geometry is free of them and, on a path that has points, begins where
/// the path ends: the point that it repeats is the one that is dropped.
pub proof fn lemma_stitching_adds_no_repeat(state: Stitching, geometry: Seq<PathPoint>)
    requires
        free_of_repeats(state.path),
        free_of_repeats(geometry),
        state.path.len() > 0 && geometry.len() > 0 ==> geometry[0] == state.path.last(),
    ensures
        free_of_repeats(state.accept(Some(geometry)).path),
{
    let after = state.accept(Some(geometry)).path;
    if state.has_window() && geometry.len() > 0 {
        let n = state.path.len() as int;
        assert forall|i: int| 0 <= i && i + 1 < after.len() implies #[trigger] after[i] != after[i
            + 1] by {
            if n == 0 {
                assert(geometry[i] != geometry[i + 1]);
            } else if i + 1 < n {
                assert(state.path[i] != state.path[i + 1]);
            } else if i + 1 == n {
                assert(after[i] == geometry[0]);
                assert(after[i + 1] == geometry[1]);
                assert(geometry[0int] != geometry[0int + 1]);
            } else {
                assert(after[i] == geometry[i - n + 1]);
                assert(after[i + 1] == geometry[i - n + 1 + 1]);
                assert(geometry[i - n + 1] != geometry[i - n + 1 + 1]);
            }
        }
    }
}

/// Whether an answer brings no geometry: routing failed or gave no point.
pub open spec fn is_gap(geometry: Option<Seq<PathPoint>>) -> bool {
    geometry is None || geometry->0.len() == 0
}

proof fn lemma_gaps_change_nothing(state: Stitching, responses: Seq<Option<Seq<PathPoint>>>)
    requires
        forall|k: int| 0 <= k < responses.len() ==> is_gap(#[trigger] responses[k]),
    ensures
        state.accept_all(responses).path == state.path,
        state.accept_all(responses).slots == state.slots,
    decreases responses.len(),
{
    if responses.len() > 0 {
        assert(is_gap(responses[0]));
        let rest = responses.skip(1);
        assert forall|k: int| 0 <= k < rest.len() implies is_gap(#[trigger] rest[k]) by {
            assert(rest[k] == responses[k + 1]);
        }
        lemma_gaps_change_nothing(state.accept(responses[0]), rest);
    }
}

/// Where every window of a route fails, the path stays empty and every
/// stop has the index 0.
pub proof fn lemma_all_windows_failed(
    stops: Seq<PathPoint>,
    chunk_size: nat,
    responses: Seq<Option<Seq<PathPoint>>>,
)
    requires
        forall|k: int| 0 <= k < responses.len() ==> is_gap(#[trigger] responses[k]),
    ensures
        Stitching::initial(stops, chunk_size).accept_all(responses).path.len() == 0,
        Stitching::initial(stops, chunk_size).accept_all(responses).index_map()
            == Seq::new(stops.len(), |j: int| 0nat),
{
    let begin = Stitching::initial(stops, chunk_size);
    lemma_gaps_change_nothing(begin, responses);
    let end = begin.accept_all(responses);
    assert(end.index_map() =~= Seq::new(stops.len(), |j: int| 0nat));
}

} // verus!
