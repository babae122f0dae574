use crate::route::model::{
    FrontendMeta, FrontendStop, RawStop, RouteFeature, RouteFeatureCollection, RouteGeometry,
    RouteIndices, RouteProperties,
};
use crate::utils::geo::{calculate_metrics, is_bounding_box, length_of, Coordinate};
use vstd::prelude::*;

verus! {

/// The direction codes of a stop list, in order.
pub open spec fn direction_codes<C>(stops: Seq<RawStop<C>>) -> Seq<i64> {
    Seq::new(stops.len(), |i: int| stops[i].up_down_cd)
}

/// The direction changes between stop `i` and its successor.
pub open spec fn turns_at(codes: Seq<i64>, i: int) -> bool {
    0 <= i < codes.len() - 1 && codes[i] != codes[i + 1]
}

/// `t` is the turn stop of a route: the first stop whose successor has
/// another direction code; the last stop where the direction never
/// changes; 0 for a route without stops.
pub open spec fn is_turn_index(codes: Seq<i64>, t: int) -> bool {
    if exists|i: int| turns_at(codes, i) {
        turns_at(codes, t) && forall|j: int| 0 <= j < t ==> !turns_at(codes, j)
    } else if codes.len() > 0 {
        t == codes.len() - 1
    } else {
        t == 0
    }
}

/// Finds the turn stop of a route.
pub fn find_turn_index<C>(stops: &Vec<RawStop<C>>) -> (t: usize)
    ensures
        is_turn_index(direction_codes(stops@), t as int),
        stops@.len() > 0 ==> t < stops@.len(),
{
    let n = stops.len();
    if n == 0 {
        assert(forall|i: int| !turns_at(direction_codes(stops@), i));
        return 0;
    }
    let mut i: usize = 0;
    while i < n - 1
        invariant
            n == stops@.len(),
            n > 0,
            0 <= i <= n - 1,
            forall|j: int| 0 <= j < i ==> !turns_at(direction_codes(stops@), j),
        decreases n - i,
    {
        if stops[i].up_down_cd != stops[i + 1].up_down_cd {
            assert(turns_at(direction_codes(stops@), i as int));
            return i;
        }
        i += 1;
    }
    assert(forall|j: int| !turns_at(direction_codes(stops@), j));
    n - 1
}

/// A route has exactly one turn stop.
pub proof fn lemma_turn_index_unique(codes: Seq<i64>, a: int, b: int)
    requires
        is_turn_index(codes, a),
        is_turn_index(codes, b),
    ensures
        a == b,
{
}

/// Where every stop has the same direction code, the turn stop is the last
/// stop.
pub proof fn lemma_turn_index_without_turn(codes: Seq<i64>, t: int)
    requires
        codes.len() > 0,
        forall|i: int| 0 <= i < codes.len() ==> #[trigger] codes[i] == codes[0],
        is_turn_index(codes, t),
    ensures
        t == codes.len() - 1,
{
    assert(forall|i: int| !turns_at(codes, i));
}

/// Position in the geometry of the turn stop: its entry in the stop index
/// map, or the middle of the geometry where the map has no such entry.
pub open spec fn turn_coordinate(stop_to_coord: Seq<usize>, turn_idx: int, points: int) -> int {
    if 0 <= turn_idx < stop_to_coord.len() {
        stop_to_coord[turn_idx] as int
    } else {
        points / 2
    }
}

/// Looks up the position of the turn stop in a geometry of `points` points.
pub fn turn_coordinate_index(stop_to_coord: &Vec<usize>, turn_idx: usize, points: usize) -> (r:
    usize)
    ensures
        r == turn_coordinate(stop_to_coord@, turn_idx as int, points as int),
{
    if turn_idx < stop_to_coord.len() {
        stop_to_coord[turn_idx]
    } else {
        points / 2
    }
}

/// Where the geometry holds a point and every entry of the stop index map
/// is a position in it, so is the position of the turn stop, whichever way
/// it is found.
pub proof fn lemma_turn_coordinate_in_bounds(
    stop_to_coord: Seq<usize>,
    turn_idx: int,
    points: int,
)
    requires
        points > 0,
        forall|i: int| 0 <= i < stop_to_coord.len() ==> (#[trigger] stop_to_coord[i]) < points,
    ensures
        0 <= turn_coordinate(stop_to_coord, turn_idx, points) < points,
{
}

/// A more accurate position of a stop from the station lookup; each
/// coordinate is there or not on its own.
pub struct StationFix<C> {
    pub lat: Option<C>,
    pub lon: Option<C>,
}

/// A stop with the coordinates that the station lookup knows better put in
/// place of its own.
pub open spec fn overlaid<C>(stop: RawStop<C>, fix: StationFix<C>) -> RawStop<C> {
    RawStop {
        gps_lat: match fix.lat {
            Some(lat) => lat,
            None => stop.gps_lat,
        },
        gps_long: match fix.lon {
            Some(lon) => lon,
            None => stop.gps_long,
        },
        ..stop
    }
}

/// Lays the coordinates of the station lookup over a stop. Where the
/// lookup does not know the stop, both coordinates of the fix are `None`
/// and the stop stays as it is.
pub fn overlay_station<C>(stop: &mut RawStop<C>, fix: StationFix<C>)
    ensures
        *final(stop) == overlaid(*old(stop), fix),
{
    match fix.lat {
        Some(lat) => {
            stop.gps_lat = lat;
        },
        None => {},
    }
    match fix.lon {
        Some(lon) => {
            stop.gps_long = lon;
        },
        None => {},
    }
}

/// What stop `s` keeps in the finished route.
pub open spec fn kept_of<C>(f: FrontendStop, s: RawStop<C>) -> bool {
    &&& f.id@ == s.node_id@
    &&& f.name@ == s.node_nm@
    &&& f.ord == s.node_ord
    &&& f.up_down == s.up_down_cd
}

/// Reduces each stop to what the finished route keeps of it, in order.
pub fn frontend_stops<C>(stops: &Vec<RawStop<C>>) -> (r: Vec<FrontendStop>)
    ensures
        r@.len() == stops@.len(),
        forall|i: int| 0 <= i < r@.len() ==> kept_of(#[trigger] r@[i], stops@[i]),
{
    let mut out: Vec<FrontendStop> = Vec::new();
    let mut i: usize = 0;
    while i < stops.len()
        invariant
            0 <= i <= stops.len(),
            out@.len() == i,
            forall|k: int| 0 <= k < i ==> kept_of(#[trigger] out@[k], stops@[k]),
        decreases stops.len() - i,
    {
        let s = &stops[i];
        out.push(
            FrontendStop {
                id: s.node_id.clone(),
                name: s.node_nm.clone(),
                ord: s.node_ord,
                up_down: s.up_down_cd,
            },
        );
        i += 1;
    }
    out
}

/// The name of the file that stores the finished route: its identifier and
/// the extension `geojson`.
pub fn derived_file_name(route_id: &str) -> (name: String)
    ensures
        name@ == route_id@ + ".geojson"@,
{
    let mut name = String::from_str(route_id);
    name.append(".geojson");
    name
}

/// `c` is the finished route of the given parts: one feature, whose line is
/// the quantized geometry, with its bounding box, the stops, the stop
/// index map, the position of the turn stop and the length.
pub open spec fn is_assembled<C>(
    c: RouteFeatureCollection,
    route_id: Seq<char>,
    route_no: Seq<char>,
    fetched_at: Seq<char>,
    stops: Seq<RawStop<C>>,
    stop_to_coord: Seq<usize>,
    coordinates: Seq<Coordinate>,
    total_dist: u64,
) -> bool {
    &&& c.type_@ == "FeatureCollection"@
    &&& c.features@.len() == 1
    &&& {
        let f = c.features@[0];
        &&& f.type_@ == "Feature"@
        &&& f.id@ == route_id
        &&& f.bbox is Some
        &&& is_bounding_box(f.bbox->0, coordinates)
        &&& f.geometry.type_@ == "LineString"@
        &&& f.geometry.coordinates@ == coordinates
        &&& f.properties.route_id@ == route_id
        &&& f.properties.route_no@ == route_no
        &&& f.properties.stops@.len() == stops.len()
        &&& forall|i: int|
            0 <= i < stops.len() ==> kept_of(#[trigger] f.properties.stops@[i], stops[i])
        &&& f.properties.indices.stop_to_coord@ == stop_to_coord
        &&& exists|t: int|
            is_turn_index(direction_codes(stops), t) && f.properties.indices.turn_idx
                == turn_coordinate(stop_to_coord, t, coordinates.len() as int)
        &&& f.properties.meta.total_dist == length_of(coordinates.len() as int, total_dist)
        &&& f.properties.meta.source_ver@ == fetched_at
    }
}

/// Assembles the finished route from the sanitized stops, the stop index
/// map, the quantized geometry and the sum of its segments' lengths in
/// tenths of a metre. Where the geometry has a point and every entry of the
/// map is a position in it, so is the position of the turn stop.
pub fn assemble<C>(
    route_id: String,
    route_no: String,
    fetched_at: String,
    stops: &Vec<RawStop<C>>,
    stop_to_coord: Vec<usize>,
    coordinates: Vec<Coordinate>,
    total_dist: u64,
) -> (c: RouteFeatureCollection)
    ensures
        is_assembled(
            c,
            route_id@,
            route_no@,
            fetched_at@,
            stops@,
            stop_to_coord@,
            coordinates@,
            total_dist,
        ),
        coordinates@.len() > 0 && (forall|i: int|
            0 <= i < stop_to_coord@.len() ==> (#[trigger] stop_to_coord@[i]) < coordinates@.len())
            ==> c.features@[0].properties.indices.turn_idx < coordinates@.len(),
{
    let turn_idx = find_turn_index(stops);
    let turn_coord_idx = turn_coordinate_index(&stop_to_coord, turn_idx, coordinates.len());
    let (bbox, total_dist) = calculate_metrics(&coordinates, total_dist);
    let frontend = frontend_stops(stops);
    let feature = RouteFeature {
        type_: "Feature".to_string(),
        id: route_id.clone(),
        bbox: Some(bbox),
        geometry: RouteGeometry { type_: "LineString".to_string(), coordinates },
        properties: RouteProperties {
            route_id,
            route_no,
            stops: frontend,
            indices: RouteIndices { turn_idx: turn_coord_idx, stop_to_coord },
            meta: FrontendMeta { total_dist, source_ver: fetched_at },
        },
    };
    let mut features: Vec<RouteFeature> = Vec::new();
    features.push(feature);
    RouteFeatureCollection { type_: "FeatureCollection".to_string(), features }
}

} // verus!
