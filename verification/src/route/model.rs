use crate::utils::geo::{BoundingBox, Coordinate};
use serde_json::Value;
use vstd::prelude::*;

verus! {

/// A stop of a route as the transit service lists it. `C` is the scalar
/// that holds a coordinate in degrees; this library hands coordinates on
/// and never looks inside one.
#[derive(Clone, Debug)]
pub struct RawStop<C> {
    pub node_id: String,
    pub node_nm: String,
    pub node_ord: i64,
    pub node_no: String,
    pub gps_lat: C,
    pub gps_long: C,
    pub up_down_cd: i64,
}

/// The stored stop list of one route, sorted by `node_ord`.
#[derive(Clone, Debug)]
pub struct RawRouteFile<C> {
    pub route_id: String,
    pub route_no: String,
    pub fetched_at: String,
    pub stops: Vec<RawStop<C>>,
}

/// The collection that holds the one feature of a route.
#[derive(Debug)]
pub struct RouteFeatureCollection {
    pub type_: String,
    pub features: Vec<RouteFeature>,
}

/// A route as a line with its properties.
#[derive(Debug)]
pub struct RouteFeature {
    pub type_: String,
    pub id: String,
    pub bbox: Option<BoundingBox>,
    pub properties: RouteProperties,
    pub geometry: RouteGeometry,
}

/// The quantized geometry of a route.
#[derive(Debug)]
pub struct RouteGeometry {
    pub type_: String,
    pub coordinates: Vec<Coordinate>,
}

#[derive(Debug)]
pub struct RouteProperties {
    pub route_id: String,
    pub route_no: String,
    pub stops: Vec<FrontendStop>,
    pub indices: RouteIndices,
    pub meta: FrontendMeta,
}

/// What a stop keeps in the finished route.
#[derive(Debug)]
pub struct FrontendStop {
    pub id: String,
    pub name: String,
    pub ord: i64,
    pub up_down: i64,
}

#[derive(Debug)]
pub struct RouteIndices {
    /// Position in the geometry of the stop at which the direction turns.
    pub turn_idx: usize,
    /// For each stop, in route order, its position in the geometry.
    pub stop_to_coord: Vec<usize>,
}

#[derive(Debug)]
pub struct FrontendMeta {
    /// Length of the geometry in tenths of a metre.
    pub total_dist: u64,
    /// When the stop list was fetched.
    pub source_ver: String,
}

/// An entry of a list that is read by key.
pub struct Keyed<V> {
    pub key: String,
    pub value: V,
}

/// What fetching one route yields for the files that map routes and
/// stations: the route's details and, by stop identifier, what is known of
/// each of its stops.
pub struct RouteProcessData {
    pub route_id: String,
    pub route_no: String,
    pub details: Value,
    pub stops_map: Vec<Keyed<Value>>,
}

} // verus!
