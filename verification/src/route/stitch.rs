use crate::config::OSRM_CHUNK_SIZE;
use crate::utils::geo::{find_nearest_coord_index, is_nearest_vertex, lemma_nearest_vertex_unique};
use vstd::prelude::*;

verus! {

/// Exclusive end of the chunk that starts at stop `start` of a route of
/// `stop_count` stops.
pub open spec fn chunk_end(start: int, stop_count: int) -> int {
    if start + OSRM_CHUNK_SIZE < stop_count {
        start + OSRM_CHUNK_SIZE
    } else {
        stop_count
    }
}

/// The geometry after a chunk's polyline has been stitched on. Once the
/// geometry holds a point, the first vertex of the polyline repeats the
/// stop that the chunk shares with its predecessor and is left out.
pub open spec fn merge_polyline<P>(geometry: Seq<P>, polyline: Seq<P>) -> Seq<P> {
    if geometry.len() > 0 && polyline.len() > 0 {
        geometry + polyline.skip(1)
    } else {
        geometry + polyline
    }
}

/// Position in the merged geometry of vertex `local` of a chunk's polyline
/// that is stitched on at length `base`. Without a vertex the stop sits at
/// the start of the chunk's contribution.
pub open spec fn global_index(base: int, local: Option<int>) -> int {
    match local {
        None => base,
        Some(l) => if base == 0 {
            l
        } else if l == 0 {
            base - 1
        } else {
            base + l - 1
        },
    }
}

/// The vertex nearest to a stop, given the stop's distance key to every
/// vertex; `None` for a line without vertices.
pub open spec fn nearest_vertex(keys: Seq<u64>) -> Option<int> {
    if keys.len() == 0 {
        None
    } else {
        Some(choose|i: int| is_nearest_vertex(keys, i))
    }
}

/// Every line with a vertex has a nearest vertex.
pub proof fn lemma_nearest_vertex_exists(keys: Seq<u64>) -> (i: int)
    requires
        keys.len() > 0,
    ensures
        is_nearest_vertex(keys, i),
        nearest_vertex(keys) == Some(i),
    decreases keys.len(),
{
    let i = if keys.len() == 1 {
        0
    } else {
        let head = keys.drop_last();
        let b = lemma_nearest_vertex_exists(head);
        assert(forall|j: int| 0 <= j < head.len() ==> head[j] == keys[j]);
        let last = keys.len() - 1;
        if keys[last] < keys[b] && keys[last] < crate::utils::geo::DISTANCE_CEILING {
            last
        } else {
            b
        }
    };
    assert(is_nearest_vertex(keys, i));
    lemma_nearest_vertex_unique(keys, i, choose|k: int| is_nearest_vertex(keys, k));
    i
}

/// Positions in the merged geometry of the stops whose distance rows are
/// `rows`, for a polyline stitched on at length `base`.
pub open spec fn chunk_indices(base: int, rows: Seq<Seq<u64>>) -> Seq<usize> {
    Seq::new(rows.len(), |k: int| global_index(base, nearest_vertex(rows[k])) as usize)
}

/// What the routing engine returned for one chunk, with the measurements
/// that place the chunk's stops on it.
pub struct ChunkRoute<P> {
    /// The vertices of the returned path, in order.
    pub polyline: Vec<P>,
    /// One row per stop of the chunk, in order; a row holds the distance
    /// key from that stop to every vertex of `polyline`, in order.
    pub distances: Vec<Vec<u64>>,
}

pub struct ChunkRouteView<P> {
    pub polyline: Seq<P>,
    pub distances: Seq<Seq<u64>>,
}

impl<P> View for ChunkRoute<P> {
    type V = ChunkRouteView<P>;

    open spec fn view(&self) -> ChunkRouteView<P> {
        ChunkRouteView {
            polyline: self.polyline@,
            distances: Seq::new(self.distances@.len(), |i: int| self.distances@[i]@),
        }
    }
}

/// The outcome of a chunk as the contracts see it.
pub open spec fn outcome_view<P>(outcome: Option<ChunkRoute<P>>) -> Option<ChunkRouteView<P>> {
    match outcome {
        Some(c) => Some(c@),
        None => None,
    }
}

impl<P> ChunkRouteView<P> {
    /// The measurements cover `stops` stops and every vertex of the
    /// polyline.
    pub open spec fn fits(self, stops: int) -> bool {
        &&& self.distances.len() == stops
        &&& forall|i: int|
            0 <= i < self.distances.len() ==> (#[trigger] self.distances[i]).len()
                == self.polyline.len()
    }
}

/// The state of stitching one route, as the contracts see it.
pub struct StitchState<P> {
    /// Number of stops of the route.
    pub stop_count: nat,
    /// Index of the stop at which the next chunk starts.
    pub cursor: nat,
    /// The merged geometry so far.
    pub geometry: Seq<P>,
    /// For each stop placed so far, its position in the merged geometry.
    pub stop_to_coord: Seq<usize>,
}

impl<P> StitchState<P> {
    /// The state before the first chunk.
    pub open spec fn initial(stop_count: nat) -> Self {
        StitchState { stop_count, cursor: 0, geometry: Seq::empty(), stop_to_coord: Seq::empty() }
    }

    /// No stop beyond the start of the next chunk has been placed, and the
    /// next chunk starts inside the route.
    pub open spec fn wf(self) -> bool {
        &&& self.stop_to_coord.len() <= self.cursor + 1
        &&& self.stop_to_coord.len() <= self.stop_count
        &&& self.cursor < self.stop_count || self.cursor == 0
    }

    /// The range of stops of the chunk to request next: it starts at the
    /// cursor and is there as long as a stop follows the cursor.
    pub open spec fn pending(self) -> Option<(int, int)> {
        if self.cursor + 1 < self.stop_count {
            Some((self.cursor as int, chunk_end(self.cursor as int, self.stop_count as int)))
        } else {
            None
        }
    }

    /// Number of stops of the pending chunk.
    pub open spec fn pending_len(self) -> int {
        chunk_end(self.cursor as int, self.stop_count as int) - self.cursor
    }

    /// Number of stops at the head of the pending chunk that are placed
    /// already.
    pub open spec fn placed_in_chunk(self) -> int {
        if self.stop_to_coord.len() > self.cursor {
            self.stop_to_coord.len() - self.cursor
        } else {
            0
        }
    }

    /// The state after the pending chunk's outcome has been taken in. The
    /// next chunk starts at this chunk's last stop whatever the outcome. A
    /// missing polyline adds nothing; a polyline is stitched on and places
    /// every stop of the chunk that is not placed yet.
    pub open spec fn absorb(self, outcome: Option<ChunkRouteView<P>>) -> Self {
        let next = (chunk_end(self.cursor as int, self.stop_count as int) - 1) as nat;
        match outcome {
            None => StitchState { cursor: next, ..self },
            Some(chunk) => StitchState {
                stop_count: self.stop_count,
                cursor: next,
                geometry: merge_polyline(self.geometry, chunk.polyline),
                stop_to_coord: self.stop_to_coord + chunk_indices(
                    self.geometry.len() as int,
                    chunk.distances.skip(self.placed_in_chunk()),
                ),
            },
        }
    }

    /// Position given to every stop that no chunk has placed: the last
    /// point of the geometry, or 0 without any.
    pub open spec fn fallback_index(self) -> usize {
        if self.geometry.len() > 0 {
            (self.geometry.len() - 1) as usize
        } else {
            0
        }
    }

    /// The finished stop index map: every stop that no chunk has placed
    /// gets the fallback position.
    pub open spec fn filled_map(self) -> Seq<usize> {
        self.stop_to_coord + Seq::new(
            (self.stop_count - self.stop_to_coord.len()) as nat,
            |k: int| self.fallback_index(),
        )
    }

    /// Every placed stop points at a point of the geometry.
    pub open spec fn in_bounds(self) -> bool {
        forall|i: int|
            0 <= i < self.stop_to_coord.len() ==> (#[trigger] self.stop_to_coord[i])
                < self.geometry.len()
    }
}

/// Taking in a chunk's outcome keeps the state well-formed.
pub proof fn lemma_absorb_keeps_wf<P>(s: StitchState<P>, outcome: Option<ChunkRouteView<P>>)
    requires
        s.wf(),
        s.pending() is Some,
        outcome matches Some(c) ==> c.fits(s.pending_len()),
    ensures
        s.absorb(outcome).wf(),
        s.absorb(outcome).stop_count == s.stop_count,
        s.absorb(outcome).cursor > s.cursor,
{
}

/// The finished map has one entry per stop, whatever the chunks returned.
pub proof fn lemma_filled_map_covers_route<P>(s: StitchState<P>)
    requires
        s.wf(),
    ensures
        s.filled_map().len() == s.stop_count,
        forall|i: int| 0 <= i < s.stop_to_coord.len() ==> s.filled_map()[i] == s.stop_to_coord[i],
{
}

/// Where a chunk starts on a point that the geometry already ends with,
/// stitching keeps that point once: the geometry grows by the polyline
/// less one vertex.
pub proof fn lemma_merge_keeps_shared_point_once<P>(geometry: Seq<P>, polyline: Seq<P>)
    requires
        geometry.len() > 0,
        polyline.len() > 0,
        polyline[0] == geometry.last(),
    ensures
        merge_polyline(geometry, polyline) == geometry.drop_last() + polyline,
        merge_polyline(geometry, polyline).len() == geometry.len() + polyline.len() - 1,
{
    assert(merge_polyline(geometry, polyline) =~= geometry.drop_last() + polyline);
}

/// No two neighbouring points of `points` are equal.
pub open spec fn no_adjacent_repeat<P>(points: Seq<P>) -> bool {
    forall|i: int| 0 <= i < points.len() - 1 ==> points[i] != #[trigger] points[i + 1]
}

/// Stitching brings in no repeated neighbour: if neither the geometry nor
/// the polyline repeats a point next to itself, and the polyline starts on
/// the geometry's last point, the merged geometry repeats none either.
pub proof fn lemma_merge_adds_no_repeat<P>(geometry: Seq<P>, polyline: Seq<P>)
    requires
        no_adjacent_repeat(geometry),
        no_adjacent_repeat(polyline),
        geometry.len() > 0 && polyline.len() > 0 ==> polyline[0] == geometry.last(),
    ensures
        no_adjacent_repeat(merge_polyline(geometry, polyline)),
{
    let merged = merge_polyline(geometry, polyline);
    assert forall|i: int| 0 <= i < merged.len() - 1 implies merged[i] != #[trigger] merged[i
        + 1] by {
        if geometry.len() > 0 && polyline.len() > 0 {
            let g = geometry.len() as int;
            if i + 1 < g {
                assert(merged[i] == geometry[i] && merged[i + 1] == geometry[i + 1]);
            } else if i + 1 == g {
                assert(merged[i] == geometry[i]);
                assert(merged[i + 1] == polyline[1]);
                assert(polyline[0int] != polyline[0int + 1]);
            } else {
                assert(merged[i] == polyline[i - g + 1]);
                assert(merged[i + 1] == polyline[(i - g + 1) + 1]);
            }
        } else if geometry.len() == 0 {
            assert(merged =~= polyline);
        } else {
            assert(merged =~= geometry);
        }
    }
}

/// A polyline with a vertex places every stop of its chunk on a point of
/// the merged geometry.
pub proof fn lemma_absorb_keeps_in_bounds<P>(s: StitchState<P>, outcome: Option<ChunkRouteView<P>>)
    requires
        s.wf(),
        s.in_bounds(),
        s.pending() is Some,
        outcome matches Some(c) ==> c.fits(s.pending_len()) && c.polyline.len() > 0
            && merge_polyline(s.geometry, c.polyline).len() <= usize::MAX,
    ensures
        s.absorb(outcome).in_bounds(),
{
    let t = s.absorb(outcome);
    match outcome {
        None => {},
        Some(c) => {
            let base = s.geometry.len() as int;
            let rows = c.distances.skip(s.placed_in_chunk());
            assert forall|i: int| 0 <= i < t.stop_to_coord.len() implies (
            #[trigger] t.stop_to_coord[i]) < t.geometry.len() by {
                if i >= s.stop_to_coord.len() {
                    let k = i - s.stop_to_coord.len();
                    assert(rows[k] == c.distances[k + s.placed_in_chunk()]);
                    let l = lemma_nearest_vertex_exists(rows[k]);
                    assert(t.stop_to_coord[i] == global_index(base, Some(l)) as usize);
                } else {
                    assert(t.stop_to_coord[i] == s.stop_to_coord[i]);
                }
            }
        },
    }
}

/// Once the geometry holds a point, filling the map keeps every entry on a
/// point of the geometry.
pub proof fn lemma_filled_map_in_bounds<P>(s: StitchState<P>)
    requires
        s.wf(),
        s.in_bounds(),
        s.geometry.len() > 0,
    ensures
        forall|i: int|
            0 <= i < s.filled_map().len() ==> (#[trigger] s.filled_map()[i]) < s.geometry.len(),
{
    assert forall|i: int| 0 <= i < s.filled_map().len() implies (#[trigger] s.filled_map()[i])
        < s.geometry.len() by {
        if i < s.stop_to_coord.len() {
            assert(s.filled_map()[i] == s.stop_to_coord[i]);
        }
    }
}

/// The state after the outcomes of a run of chunks have been taken in, in
/// order.
pub open spec fn absorb_all<P>(
    s: StitchState<P>,
    outcomes: Seq<Option<ChunkRouteView<P>>>,
) -> StitchState<P>
    decreases outcomes.len(),
{
    if outcomes.len() == 0 {
        s
    } else {
        absorb_all(s.absorb(outcomes[0]), outcomes.skip(1))
    }
}

/// Each outcome answers a chunk that was pending when it came, and each
/// polyline comes with the measurements of its chunk's stops.
pub open spec fn outcomes_fit<P>(
    s: StitchState<P>,
    outcomes: Seq<Option<ChunkRouteView<P>>>,
) -> bool
    decreases outcomes.len(),
{
    outcomes.len() > 0 ==> {
        &&& s.pending() is Some
        &&& outcomes[0] matches Some(c) ==> c.fits(s.pending_len())
        &&& outcomes_fit(s.absorb(outcomes[0]), outcomes.skip(1))
    }
}

/// Every polyline among the outcomes has a vertex, and the geometry that
/// it is stitched into fits the address space.
pub open spec fn polylines_hold_points<P>(
    s: StitchState<P>,
    outcomes: Seq<Option<ChunkRouteView<P>>>,
) -> bool
    decreases outcomes.len(),
{
    outcomes.len() > 0 ==> {
        &&& outcomes[0] matches Some(c) ==> c.polyline.len() > 0 && merge_polyline(
            s.geometry,
            c.polyline,
        ).len() <= usize::MAX
        &&& polylines_hold_points(s.absorb(outcomes[0]), outcomes.skip(1))
    }
}

/// The stop index map of a stitched route has one entry per stop, however
/// many chunks came back without a polyline.
pub proof fn lemma_stitching_covers_route<P>(
    s: StitchState<P>,
    outcomes: Seq<Option<ChunkRouteView<P>>>,
)
    requires
        s.wf(),
        outcomes_fit(s, outcomes),
    ensures
        absorb_all(s, outcomes).wf(),
        absorb_all(s, outcomes).stop_count == s.stop_count,
        absorb_all(s, outcomes).filled_map().len() == s.stop_count,
    decreases outcomes.len(),
{
    if outcomes.len() > 0 {
        lemma_absorb_keeps_wf(s, outcomes[0]);
        lemma_stitching_covers_route(s.absorb(outcomes[0]), outcomes.skip(1));
    }
}

/// Where every polyline has a vertex and the stitched geometry holds a
/// point, every entry of the finished stop index map is a position in the
/// geometry.
pub proof fn lemma_stitching_stays_in_bounds<P>(
    s: StitchState<P>,
    outcomes: Seq<Option<ChunkRouteView<P>>>,
)
    requires
        s.wf(),
        s.in_bounds(),
        outcomes_fit(s, outcomes),
        polylines_hold_points(s, outcomes),
        absorb_all(s, outcomes).geometry.len() > 0,
    ensures
        forall|i: int|
            0 <= i < absorb_all(s, outcomes).filled_map().len() ==> (#[trigger] absorb_all(
                s,
                outcomes,
            ).filled_map()[i]) < absorb_all(s, outcomes).geometry.len(),
    decreases outcomes.len(),
{
    if outcomes.len() > 0 {
        lemma_absorb_keeps_wf(s, outcomes[0]);
        lemma_absorb_keeps_in_bounds(s, outcomes[0]);
        lemma_stitching_stays_in_bounds(s.absorb(outcomes[0]), outcomes.skip(1));
    } else {
        lemma_filled_map_in_bounds(s);
    }
}

/// The geometry and the stop index map of a stitched route.
pub struct Stitched<P> {
    /// The merged geometry.
    pub geometry: Vec<P>,
    /// For each stop, in route order, its position in `geometry`.
    pub stop_to_coord: Vec<usize>,
}

/// Stitches the polylines of a route's chunks into one geometry and places
/// every stop on it. The caller asks for the pending chunk, has it routed
/// and measured, and hands the outcome back, until no chunk is pending.
pub struct Stitcher<P> {
    stop_count: usize,
    cursor: usize,
    geometry: Vec<P>,
    stop_to_coord: Vec<usize>,
}

impl<P> View for Stitcher<P> {
    type V = StitchState<P>;

    closed spec fn view(&self) -> StitchState<P> {
        StitchState {
            stop_count: self.stop_count as nat,
            cursor: self.cursor as nat,
            geometry: self.geometry@,
            stop_to_coord: self.stop_to_coord@,
        }
    }
}

/// Position in the merged geometry of vertex `local` of a polyline stitched
/// on at length `base`.
pub fn to_global_index(base: usize, local: Option<usize>) -> (g: usize)
    requires
        local matches Some(l) ==> base + l <= usize::MAX,
    ensures
        g == global_index(
            base as int,
            match local {
                Some(l) => Some(l as int),
                None => None,
            },
        ),
{
    match local {
        Some(l) => {
            if base > 0 {
                if l == 0 {
                    base - 1
                } else {
                    base + l - 1
                }
            } else {
                l
            }
        },
        None => base,
    }
}

impl<P> Stitcher<P> {
    /// Starts stitching a route of `stop_count` stops.
    pub fn new(stop_count: usize) -> (s: Self)
        ensures
            s@ == StitchState::<P>::initial(stop_count as nat),
            s@.wf(),
            s@.in_bounds(),
    {
        Stitcher { stop_count, cursor: 0, geometry: Vec::new(), stop_to_coord: Vec::new() }
    }

    /// The range of stops, start inclusive and end exclusive, to request
    /// from the routing engine next; `None` once the route is covered. A
    /// chunk holds between 2 and `OSRM_CHUNK_SIZE` stops.
    pub fn pending(&self) -> (r: Option<(usize, usize)>)
        ensures
            r is Some <==> self@.pending() is Some,
            r matches Some((start, end)) ==> self@.pending() == Some((start as int, end as int))
                && start + 2 <= end <= start + OSRM_CHUNK_SIZE && end <= self@.stop_count,
    {
        if self.stop_count >= 2 && self.cursor < self.stop_count - 1 {
            let end = if self.stop_count - self.cursor > OSRM_CHUNK_SIZE {
                self.cursor + OSRM_CHUNK_SIZE
            } else {
                self.stop_count
            };
            Some((self.cursor, end))
        } else {
            None
        }
    }

    /// Takes in the outcome of the pending chunk: `None` where the routing
    /// engine gave no polyline. As long as every polyline has a vertex,
    /// every placed stop stays on a point of the geometry.
    pub fn absorb(&mut self, outcome: Option<ChunkRoute<P>>)
        requires
            old(self)@.wf(),
            old(self)@.pending() is Some,
            outcome matches Some(c) ==> c@.fits(old(self)@.pending_len()),
        ensures
            final(self)@ == old(self)@.absorb(outcome_view(outcome)),
            final(self)@.wf(),
            old(self)@.in_bounds() && (outcome matches Some(c) ==> c.polyline@.len() > 0)
                ==> final(self)@.in_bounds(),
    {
        let ghost before = self@;
        proof {
            lemma_absorb_keeps_wf(before, outcome_view(outcome));
        }
        let end = if self.stop_count - self.cursor > OSRM_CHUNK_SIZE {
            self.cursor + OSRM_CHUNK_SIZE
        } else {
            self.stop_count
        };
        match outcome {
            None => {},
            Some(chunk) => {
                let ghost chunk_view = chunk@;
                let ChunkRoute { mut polyline, distances } = chunk;
                let base = self.geometry.len();
                let vertices = polyline.len();
                if base > 0 && vertices > 0 {
                    polyline.remove(0);
                }
                self.geometry.append(&mut polyline);
                assert(self.geometry@ =~= merge_polyline(before.geometry, chunk_view.polyline));
                assert(self.geometry.len() == self.geometry@.len());
                proof {
                    if before.in_bounds() && vertices > 0 {
                        lemma_absorb_keeps_in_bounds(before, Some(chunk_view));
                    }
                }
                assert forall|k: int| 0 <= k < distances@.len() implies (
                #[trigger] distances@[k])@.len() == vertices by {
                    assert(chunk_view.distances[k] == distances@[k]@);
                }
                let placed = if self.stop_to_coord.len() > self.cursor {
                    self.stop_to_coord.len() - self.cursor
                } else {
                    0
                };
                let ghost rows = chunk_view.distances.skip(placed as int);
                let mut i: usize = placed;
                while i < distances.len()
                    invariant
                        placed <= i <= distances.len(),
                        placed == before.placed_in_chunk(),
                        rows == chunk_view.distances.skip(placed as int),
                        chunk_view.distances.len() == distances@.len(),
                        forall|k: int|
                            0 <= k < distances@.len() ==> chunk_view.distances[k]
                                == distances@[k]@,
                        forall|k: int|
                            0 <= k < distances@.len() ==> (#[trigger] distances@[k])@.len()
                                == vertices,
                        base == before.geometry.len(),
                        base > 0 && vertices > 0 ==> base + vertices - 1 <= usize::MAX,
                        base == 0 ==> vertices <= usize::MAX,
                        self.stop_count == before.stop_count,
                        self.cursor == before.cursor,
                        self.geometry@ == merge_polyline(before.geometry, chunk_view.polyline),
                        self.stop_to_coord@ == before.stop_to_coord + chunk_indices(
                            base as int,
                            rows,
                        ).take(i - placed),
                    decreases distances.len() - i,
                {
                    let local = find_nearest_coord_index(&distances[i]);
                    proof {
                        assert(rows[i - placed] == distances@[i as int]@);
                        if distances@[i as int]@.len() > 0 {
                            let w = lemma_nearest_vertex_exists(distances@[i as int]@);
                            lemma_nearest_vertex_unique(distances@[i as int]@, w, local->0 as int);
                        }
                    }
                    let g = to_global_index(base, local);
                    self.stop_to_coord.push(g);
                    proof {
                        let all = chunk_indices(base as int, rows);
                        assert(all.take(i - placed + 1) =~= all.take(i - placed).push(
                            all[i - placed],
                        ));
                        assert(self.stop_to_coord@ =~= before.stop_to_coord + all.take(
                            i - placed + 1,
                        ));
                    }
                    i += 1;
                }
                proof {
                    let all = chunk_indices(base as int, rows);
                    assert(all.take(all.len() as int) =~= all);
                }
            },
        }
        self.cursor = end - 1;
    }

    /// Ends the stitching: every stop that no chunk has placed gets the
    /// last position of the geometry, or 0 where the geometry is empty. The
    /// map then holds one entry per stop. Where every placed stop is on a
    /// point of the geometry and the geometry has a point, every entry of
    /// the map is a position in the geometry.
    pub fn finish(self) -> (r: Stitched<P>)
        requires
            self@.wf(),
        ensures
            r.geometry@ == self@.geometry,
            r.stop_to_coord@ == self@.filled_map(),
            r.stop_to_coord@.len() == self@.stop_count,
            self@.in_bounds() && self@.geometry.len() > 0 ==> forall|i: int|
                0 <= i < r.stop_to_coord@.len() ==> (#[trigger] r.stop_to_coord@[i])
                    < r.geometry@.len(),
    {
        let ghost before = self@;
        proof {
            if before.in_bounds() && before.geometry.len() > 0 {
                lemma_filled_map_in_bounds(before);
            }
        }
        let Stitcher { stop_count, cursor: _, geometry, mut stop_to_coord } = self;
        let fill: usize = if geometry.len() > 0 {
            geometry.len() - 1
        } else {
            0
        };
        let ghost placed = stop_to_coord@;
        while stop_to_coord.len() < stop_count
            invariant
                placed.len() <= stop_to_coord@.len() <= stop_count,
                fill == before.fallback_index(),
                placed == before.stop_to_coord,
                stop_count == before.stop_count,
                stop_to_coord@ == placed + Seq::new(
                    (stop_to_coord@.len() - placed.len()) as nat,
                    |k: int| fill,
                ),
            decreases stop_count - stop_to_coord.len(),
        {
            stop_to_coord.push(fill);
            assert(stop_to_coord@ =~= placed + Seq::new(
                (stop_to_coord@.len() - placed.len()) as nat,
                |k: int| fill,
            ));
        }
        assert(stop_to_coord@ =~= before.filled_map());
        Stitched { geometry, stop_to_coord }
    }
}

} // verus!
