use vstd::prelude::*;

verus! {

/// Address of the transit service.
pub const TAGO_URL: &'static str = "http://apis.data.go.kr/1613000/BusRouteInfoInqireService";

/// Address of the routing engine.
pub const OSRM_URL: &'static str = "http://router.project-osrm.org/route/v1/driving";

/// Address of the index page of the timetables.
pub const BASE_URL: &'static str = "http://its.wonju.go.kr/bus/bus04.do";

/// Address of the page of one timetable.
pub const DETAIL_URL: &'static str = "http://its.wonju.go.kr/bus/bus04Detail.do";

/// Number of routes whose raw stop lists are fetched at the same time.
pub const CONCURRENCY_FETCH: usize = 10;

/// Number of routes whose geometry is built at the same time.
pub const CONCURRENCY_SNAP: usize = 4;

/// Largest number of stops sent to the routing engine in one request.
pub const OSRM_CHUNK_SIZE: usize = 120;

} // verus!
