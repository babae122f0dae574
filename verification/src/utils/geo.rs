use vstd::prelude::*;

verus! {

/// Distances reach this library as ordered keys. The key of a distance is
/// the bit pattern of its length in metres as a double-precision number;
/// among distances, which are never negative, a longer one has a larger
/// key. This is the key of the longest finite distance: a key at or above
/// it is no candidate for the nearest vertex.
pub const DISTANCE_CEILING: u64 = 0x7FEF_FFFF_FFFF_FFFF;

/// `i` is the position of the first occurrence of the smallest key.
pub open spec fn is_first_minimum(keys: Seq<u64>, i: int) -> bool {
    &&& 0 <= i < keys.len()
    &&& forall|j: int| 0 <= j < i ==> keys[j] > keys[i]
    &&& forall|j: int| i <= j < keys.len() ==> keys[j] >= keys[i]
}

/// `i` is the vertex that a nearest-vertex scan settles on: the first
/// occurrence of the smallest key if that key lies below the ceiling,
/// and the first vertex if no key does.
pub open spec fn is_nearest_vertex(keys: Seq<u64>, i: int) -> bool {
    &&& 0 <= i < keys.len()
    &&& if keys[i] < DISTANCE_CEILING {
        is_first_minimum(keys, i)
    } else {
        i == 0 && forall|j: int| 0 <= j < keys.len() ==> keys[j] >= DISTANCE_CEILING
    }
}

/// Index of the vertex closest to a point, given the distance key of every
/// vertex of the line in order. `None` for an empty line; ties go to the
/// lowest index.
pub fn find_nearest_coord_index(distances: &Vec<u64>) -> (r: Option<usize>)
    ensures
        distances@.len() == 0 <==> r is None,
        r matches Some(i) ==> is_nearest_vertex(distances@, i as int),
{
    if distances.len() == 0 {
        return None;
    }
    let mut best_idx: usize = 0;
    let mut min_dist: u64 = DISTANCE_CEILING;
    let mut i: usize = 0;
    while i < distances.len()
        invariant
            0 <= i <= distances.len(),
            distances.len() > 0,
            min_dist <= DISTANCE_CEILING,
            min_dist == DISTANCE_CEILING ==> best_idx == 0 && forall|j: int|
                0 <= j < i ==> distances[j] >= DISTANCE_CEILING,
            min_dist < DISTANCE_CEILING ==> best_idx < i && distances[best_idx as int] == min_dist
                && (forall|j: int| 0 <= j < best_idx ==> distances[j] > min_dist) && (forall|
                j: int,
            | best_idx <= j < i ==> distances[j] >= min_dist),
        decreases distances.len() - i,
    {
        let d: u64 = distances[i];
        if d < min_dist {
            min_dist = d;
            best_idx = i;
        }
        i += 1;
    }
    Some(best_idx)
}

/// At most one position is the nearest vertex of a line.
pub proof fn lemma_nearest_vertex_unique(keys: Seq<u64>, i: int, j: int)
    requires
        is_nearest_vertex(keys, i),
        is_nearest_vertex(keys, j),
    ensures
        i == j,
{
}

/// `i` is the segment that a closest-projection scan settles on, given for
/// every segment the distance key of its projection (`None` for a segment
/// of zero length, which offers no projection): the first segment with the
/// smallest key.
pub open spec fn is_closest_projection(candidates: Seq<Option<u64>>, i: int) -> bool {
    &&& 0 <= i < candidates.len()
    &&& candidates[i] is Some
    &&& forall|j: int|
        0 <= j < i && candidates[j] is Some ==> candidates[j]->0 > candidates[i]->0
    &&& forall|j: int|
        i <= j < candidates.len() && candidates[j] is Some ==> candidates[j]->0
            >= candidates[i]->0
}

/// Picks, among the projections of a point onto the segments of a line, the
/// closest one. `candidates` holds one entry per consecutive pair of
/// vertices, in order. `None` when no segment offers a projection, which
/// covers a line of fewer than two vertices.
pub fn closest_point_on_polyline(candidates: &Vec<Option<u64>>) -> (r: Option<usize>)
    ensures
        r is None <==> forall|j: int| 0 <= j < candidates@.len() ==> candidates@[j] is None,
        r matches Some(i) ==> is_closest_projection(candidates@, i as int),
{
    let mut best: Option<(usize, u64)> = None;
    let mut i: usize = 0;
    while i < candidates.len()
        invariant
            0 <= i <= candidates.len(),
            best is None ==> forall|j: int| 0 <= j < i ==> candidates@[j] is None,
            best matches Some((b, bd)) ==> b < i && candidates@[b as int] == Some(bd) && (forall|
                j: int,
            |
                0 <= j < b && candidates@[j] is Some ==> candidates@[j]->0 > bd) && (forall|
                j: int,
            | b <= j < i && candidates@[j] is Some ==> candidates@[j]->0 >= bd),
        decreases candidates.len() - i,
    {
        match candidates[i] {
            None => {},
            Some(d) => {
                match best {
                    None => {
                        best = Some((i, d));
                    },
                    Some((_, bd)) => {
                        if d < bd {
                            best = Some((i, d));
                        }
                    },
                }
            },
        }
        i += 1;
    }
    match best {
        None => None,
        Some((b, _)) => Some(b),
    }
}

/// At most one segment is the closest projection.
pub proof fn lemma_closest_projection_unique(candidates: Seq<Option<u64>>, i: int, j: int)
    requires
        is_closest_projection(candidates, i),
        is_closest_projection(candidates, j),
    ensures
        i == j,
{
}

/// A point of a quantized geometry: longitude and latitude in millionths of
/// a degree.
#[derive(Clone, Copy, Debug, PartialEq, Eq, Structural)]
pub struct Coordinate {
    pub lon: i64,
    pub lat: i64,
}

/// Bounds of a geometry, in millionths of a degree.
#[derive(Clone, Copy, Debug, PartialEq, Eq, Structural)]
pub struct BoundingBox {
    pub min_lon: i64,
    pub min_lat: i64,
    pub max_lon: i64,
    pub max_lat: i64,
}

/// 180 degrees of longitude.
pub const LON_LIMIT: i64 = 180_000_000;

/// 90 degrees of latitude.
pub const LAT_LIMIT: i64 = 90_000_000;

/// The box that no point has widened yet: every bound sits at the far end
/// of its axis.
pub open spec fn inverted_box() -> BoundingBox {
    BoundingBox {
        min_lon: LON_LIMIT,
        min_lat: LAT_LIMIT,
        max_lon: (-LON_LIMIT) as i64,
        max_lat: (-LAT_LIMIT) as i64,
    }
}

/// `m` is the smallest of `start` and the values.
pub open spec fn is_floor_of(m: int, start: int, values: Seq<int>) -> bool {
    &&& m <= start
    &&& forall|i: int| 0 <= i < values.len() ==> m <= values[i]
    &&& m == start || exists|i: int| 0 <= i < values.len() && values[i] == m
}

/// `m` is the largest of `start` and the values.
pub open spec fn is_roof_of(m: int, start: int, values: Seq<int>) -> bool {
    &&& m >= start
    &&& forall|i: int| 0 <= i < values.len() ==> m >= values[i]
    &&& m == start || exists|i: int| 0 <= i < values.len() && values[i] == m
}

/// The longitudes of a geometry, in order.
pub open spec fn lons(coords: Seq<Coordinate>) -> Seq<int> {
    Seq::new(coords.len(), |i: int| coords[i].lon as int)
}

/// The latitudes of a geometry, in order.
pub open spec fn lats(coords: Seq<Coordinate>) -> Seq<int> {
    Seq::new(coords.len(), |i: int| coords[i].lat as int)
}

/// `b` is the inverted box widened by every point of `coords`.
pub open spec fn is_bounding_box(b: BoundingBox, coords: Seq<Coordinate>) -> bool {
    &&& is_floor_of(b.min_lon as int, LON_LIMIT as int, lons(coords))
    &&& is_floor_of(b.min_lat as int, LAT_LIMIT as int, lats(coords))
    &&& is_roof_of(b.max_lon as int, -LON_LIMIT, lons(coords))
    &&& is_roof_of(b.max_lat as int, -LAT_LIMIT, lats(coords))
}

/// The length of a geometry of `points` points for which `measured` was
/// added up: a geometry of fewer than two points has no segment and the
/// length zero.
pub open spec fn length_of(points: int, measured: u64) -> u64 {
    if points < 2 {
        0
    } else {
        measured
    }
}

/// Bounding box and length of a geometry. The box starts inverted and
/// widens with each point. `measured` is the sum of the lengths of the
/// segments of the geometry, which the caller measures; it counts only
/// where the geometry has a segment.
pub fn calculate_metrics(coords: &Vec<Coordinate>, measured: u64) -> (r: (BoundingBox, u64))
    ensures
        is_bounding_box(r.0, coords@),
        r.1 == length_of(coords@.len() as int, measured),
{
    let length = if coords.len() < 2 {
        0
    } else {
        measured
    };
    (bounding_box(coords), length)
}

/// Bounding box of a geometry: starts from the inverted box and widens
/// with each point in one pass.
pub fn bounding_box(coords: &Vec<Coordinate>) -> (b: BoundingBox)
    ensures
        is_bounding_box(b, coords@),
{
    let mut min_lon: i64 = LON_LIMIT;
    let mut min_lat: i64 = LAT_LIMIT;
    let mut max_lon: i64 = -LON_LIMIT;
    let mut max_lat: i64 = -LAT_LIMIT;
    let mut i: usize = 0;
    while i < coords.len()
        invariant
            0 <= i <= coords.len(),
            is_floor_of(min_lon as int, LON_LIMIT as int, lons(coords@).take(i as int)),
            is_floor_of(min_lat as int, LAT_LIMIT as int, lats(coords@).take(i as int)),
            is_roof_of(max_lon as int, -LON_LIMIT, lons(coords@).take(i as int)),
            is_roof_of(max_lat as int, -LAT_LIMIT, lats(coords@).take(i as int)),
        decreases coords.len() - i,
    {
        let c: Coordinate = coords[i];
        let ghost before_lon = lons(coords@).take(i as int);
        let ghost after_lon = lons(coords@).take(i + 1);
        let ghost before_lat = lats(coords@).take(i as int);
        let ghost after_lat = lats(coords@).take(i + 1);
        proof {
            assert(after_lon[i as int] == c.lon);
            assert(after_lat[i as int] == c.lat);
            assert forall|j: int| 0 <= j < i implies after_lon[j] == before_lon[j]
                && after_lat[j] == before_lat[j] by {}
        }
        if c.lon < min_lon {
            min_lon = c.lon;
        }
        if c.lon > max_lon {
            max_lon = c.lon;
        }
        if c.lat < min_lat {
            min_lat = c.lat;
        }
        if c.lat > max_lat {
            max_lat = c.lat;
        }
        i += 1;
    }
    proof {
        assert(lons(coords@).take(coords@.len() as int) =~= lons(coords@));
        assert(lats(coords@).take(coords@.len() as int) =~= lats(coords@));
    }
    BoundingBox { min_lon, min_lat, max_lon, max_lat }
}

/// A geometry has exactly one bounding box.
pub proof fn lemma_bounding_box_unique(a: BoundingBox, b: BoundingBox, coords: Seq<Coordinate>)
    requires
        is_bounding_box(a, coords),
        is_bounding_box(b, coords),
    ensures
        a == b,
{
}

/// A geometry of fewer than two points has the length zero, whatever was
/// measured. With no point its box stays inverted; with one point inside
/// the limits of both axes the box collapses onto that point.
pub proof fn lemma_metrics_degenerate(b: BoundingBox, coords: Seq<Coordinate>, measured: u64)
    requires
        is_bounding_box(b, coords),
        coords.len() <= 1,
    ensures
        length_of(coords.len() as int, measured) == 0,
        coords.len() == 0 ==> b == inverted_box(),
        coords.len() == 1 && -LON_LIMIT <= coords[0].lon <= LON_LIMIT && -LAT_LIMIT
            <= coords[0].lat <= LAT_LIMIT ==> b == (BoundingBox {
            min_lon: coords[0].lon,
            min_lat: coords[0].lat,
            max_lon: coords[0].lon,
            max_lat: coords[0].lat,
        }),
{
    if coords.len() == 1 {
        assert(lons(coords)[0] == coords[0].lon);
        assert(lats(coords)[0] == coords[0].lat);
    }
}

} // verus!
