pub mod fetch;
pub mod model;
pub mod osrm;
pub mod process;
pub mod stitch;

use crate::utils::text::{contains, has_substring, same_text};
use std::path::PathBuf;
use vstd::prelude::*;

verus! {

/// A path of the file system, carried through and never looked into.
#[verifier::external_type_specification]
#[verifier::external_body]
pub struct ExPathBuf(PathBuf);

/// What the route command is asked to do.
pub struct RouteArgs {
    /// City whose routes are processed.
    pub city_code: String,
    /// The one route number to process; all routes where there is none.
    pub route: Option<String>,
    /// Directory under which all files are kept.
    pub output_dir: PathBuf,
    /// Stop once the station map is written.
    pub station_map_only: bool,
    /// Build geometry from the stored stop lists alone.
    pub osrm_only: bool,
}

/// Why a run cannot start.
#[derive(Clone, Copy, Debug, PartialEq, Eq, Structural)]
pub enum RunError {
    /// The key for the transit service is missing.
    MissingServiceKey,
    /// Stop lists are stored, but the route map that belongs to them is
    /// not.
    MissingRouteMap,
}

/// The phases of a run.
#[derive(Clone, Copy, Debug, PartialEq, Eq, Structural)]
pub struct RunPlan {
    /// Fetch the stop lists from the transit service and store them.
    pub fetch_raw: bool,
    /// Build the geometry of every stored route.
    pub build_geometry: bool,
}

/// The phases of a run, given what is asked and what is stored. Without a
/// service key nothing runs. Stop lists are fetched unless geometry alone
/// is asked for or stop lists are stored already; stored stop lists need
/// their route map. Geometry is built unless only the station map is asked
/// for; asking for geometry alone overrides that.
pub open spec fn plan_of(
    station_map_only: bool,
    osrm_only: bool,
    key_present: bool,
    cache_file_count: int,
    route_map_exists: bool,
) -> Result<RunPlan, RunError> {
    if !key_present {
        Err(RunError::MissingServiceKey)
    } else if osrm_only {
        Ok(RunPlan { fetch_raw: false, build_geometry: true })
    } else if cache_file_count > 0 && !route_map_exists {
        Err(RunError::MissingRouteMap)
    } else {
        Ok(RunPlan { fetch_raw: cache_file_count == 0, build_geometry: !station_map_only })
    }
}

/// Plans a run. `service_key` is the key as the environment holds it,
/// `cache_file_count` the number of stored stop lists, `route_map_exists`
/// whether the route map is stored.
pub fn plan_run(
    args: &RouteArgs,
    service_key: &str,
    cache_file_count: usize,
    route_map_exists: bool,
) -> (r: Result<RunPlan, RunError>)
    ensures
        r == plan_of(
            args.station_map_only,
            args.osrm_only,
            service_key@.len() > 0,
            cache_file_count as int,
            route_map_exists,
        ),
{
    if service_key.is_empty() {
        return Err(RunError::MissingServiceKey);
    }
    if args.osrm_only {
        return Ok(RunPlan { fetch_raw: false, build_geometry: true });
    }
    if cache_file_count > 0 && !route_map_exists {
        return Err(RunError::MissingRouteMap);
    }
    Ok(RunPlan { fetch_raw: cache_file_count == 0, build_geometry: !args.station_map_only })
}

/// Whether a route of the transit service is among those asked for: every
/// route where no number is asked for, else the routes of that number.
pub fn selects_route(route_no: &str, wanted: &Option<String>) -> (r: bool)
    ensures
        r == match wanted {
            Some(w) => route_no@ == w@,
            None => true,
        },
{
    match wanted {
        Some(w) => same_text(route_no, w.as_str()),
        None => true,
    }
}

/// Whether a stored file is a stop list to build geometry from: its
/// extension is `json`, and where a route number is asked for, the file's
/// name holds it.
pub fn selects_cache_file(file_name: &str, extension: Option<&str>, wanted: &Option<String>) -> (r:
    bool)
    ensures
        r == ((extension matches Some(e) && e@ == "json"@) && match wanted {
            Some(w) => has_substring(file_name@, w@),
            None => true,
        }),
{
    match extension {
        Some(e) => {
            if !same_text(e, "json") {
                return false;
            }
        },
        None => {
            return false;
        },
    }
    match wanted {
        Some(w) => contains(file_name, w.as_str()),
        None => true,
    }
}

/// Where the work on one route stands.
#[derive(Clone, Copy, Debug, PartialEq, Eq, Structural)]
pub enum RouteStage {
    /// The stored stop list is not read yet.
    Pending,
    /// The stops are being moved onto their corridors.
    Sanitizing,
    /// The chunks are being routed and stitched.
    Stitching,
    /// The finished route is stored.
    Assembled,
    /// The route has fewer than two stops and yields nothing.
    Skipped,
    /// Reading or storing failed.
    Failed,
}

/// What happened to a route.
#[derive(Clone, Copy, Debug, PartialEq, Eq, Structural)]
pub enum RouteEvent {
    /// The stored stop list was read.
    Loaded,
    /// The corridor pass is over and left this many stops.
    Sanitized { stop_count: usize },
    /// The finished route was stored.
    Stored,
    /// Reading or storing went wrong.
    Broke,
}

/// Fewest stops from which a route gets a geometry.
pub const MIN_STOPS: usize = 2;

/// The stage after an event. An event that does not belong to the stage
/// changes nothing, and nothing leaves the three final stages.
pub open spec fn next_stage(stage: RouteStage, event: RouteEvent) -> RouteStage {
    match (stage, event) {
        (RouteStage::Pending, RouteEvent::Loaded) => RouteStage::Sanitizing,
        (RouteStage::Sanitizing, RouteEvent::Sanitized { stop_count }) => if stop_count
            < MIN_STOPS {
            RouteStage::Skipped
        } else {
            RouteStage::Stitching
        },
        (RouteStage::Stitching, RouteEvent::Stored) => RouteStage::Assembled,
        (RouteStage::Pending, RouteEvent::Broke) => RouteStage::Failed,
        (RouteStage::Sanitizing, RouteEvent::Broke) => RouteStage::Failed,
        (RouteStage::Stitching, RouteEvent::Broke) => RouteStage::Failed,
        _ => stage,
    }
}

/// A stage that no event leaves.
pub open spec fn is_final(stage: RouteStage) -> bool {
    stage is Assembled || stage is Skipped || stage is Failed
}

/// Moves a route to its next stage.
pub fn advance(stage: RouteStage, event: RouteEvent) -> (r: RouteStage)
    ensures
        r == next_stage(stage, event),
{
    match stage {
        RouteStage::Pending => match event {
            RouteEvent::Loaded => RouteStage::Sanitizing,
            RouteEvent::Broke => RouteStage::Failed,
            _ => stage,
        },
        RouteStage::Sanitizing => match event {
            RouteEvent::Sanitized { stop_count } => if stop_count < MIN_STOPS {
                RouteStage::Skipped
            } else {
                RouteStage::Stitching
            },
            RouteEvent::Broke => RouteStage::Failed,
            _ => stage,
        },
        RouteStage::Stitching => match event {
            RouteEvent::Stored => RouteStage::Assembled,
            RouteEvent::Broke => RouteStage::Failed,
            _ => stage,
        },
        _ => stage,
    }
}

/// The stage after a run of events, in order.
pub open spec fn stage_after(stage: RouteStage, events: Seq<RouteEvent>) -> RouteStage
    decreases events.len(),
{
    if events.len() == 0 {
        stage
    } else {
        stage_after(next_stage(stage, events[0]), events.skip(1))
    }
}

/// Whatever follows, a route stays in the final stage that it has reached.
pub proof fn lemma_final_stage_stays(stage: RouteStage, events: Seq<RouteEvent>)
    requires
        is_final(stage),
    ensures
        stage_after(stage, events) == stage,
    decreases events.len(),
{
    if events.len() > 0 {
        lemma_final_stage_stays(stage, events.skip(1));
    }
}

} // verus!
