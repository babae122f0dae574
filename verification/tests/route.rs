use polly::config::{CONCURRENCY_FETCH, CONCURRENCY_SNAP};
use polly::route::{
    advance, plan_run, selects_cache_file, selects_route, RouteArgs, RouteEvent, RouteStage,
    RunError, RunPlan, MIN_STOPS,
};
use std::path::PathBuf;

fn args(station_map_only: bool, osrm_only: bool) -> RouteArgs {
    RouteArgs {
        city_code: "32020".to_string(),
        route: None,
        output_dir: PathBuf::from("./storage"),
        station_map_only,
        osrm_only,
    }
}

#[test]
fn concurrency_ceilings() {
    assert_eq!(CONCURRENCY_FETCH, 10);
    assert_eq!(CONCURRENCY_SNAP, 4);
}

#[test]
fn run_without_service_key_fails() {
    assert_eq!(plan_run(&args(false, false), "", 0, false), Err(RunError::MissingServiceKey));
    assert_eq!(plan_run(&args(false, true), "", 3, true), Err(RunError::MissingServiceKey));
}

#[test]
fn empty_cache_is_fetched() {
    assert_eq!(
        plan_run(&args(false, false), "key", 0, false),
        Ok(RunPlan { fetch_raw: true, build_geometry: true })
    );
}

#[test]
fn filled_cache_is_not_fetched_again() {
    assert_eq!(
        plan_run(&args(false, false), "key", 12, true),
        Ok(RunPlan { fetch_raw: false, build_geometry: true })
    );
}

#[test]
fn filled_cache_without_route_map_fails() {
    assert_eq!(plan_run(&args(false, false), "key", 12, false), Err(RunError::MissingRouteMap));
    assert_eq!(plan_run(&args(true, false), "key", 1, false), Err(RunError::MissingRouteMap));
}

#[test]
fn station_map_only_builds_no_geometry() {
    assert_eq!(
        plan_run(&args(true, false), "key", 0, false),
        Ok(RunPlan { fetch_raw: true, build_geometry: false })
    );
    assert_eq!(
        plan_run(&args(true, false), "key", 4, true),
        Ok(RunPlan { fetch_raw: false, build_geometry: false })
    );
}

#[test]
fn osrm_only_skips_fetching_and_cache_checks() {
    assert_eq!(
        plan_run(&args(false, true), "key", 0, false),
        Ok(RunPlan { fetch_raw: false, build_geometry: true })
    );
    assert_eq!(
        plan_run(&args(true, true), "key", 9, false),
        Ok(RunPlan { fetch_raw: false, build_geometry: true })
    );
}

#[test]
fn route_filter_compares_whole_numbers() {
    assert!(selects_route("34-1", &None));
    assert!(selects_route("34-1", &Some("34-1".to_string())));
    assert!(!selects_route("34-1", &Some("34".to_string())));
    assert!(!selects_route("34", &Some("34-1".to_string())));
    assert!(!selects_route("UNKNOWN", &Some("".to_string())));
}

#[test]
fn cache_file_filter() {
    assert!(selects_cache_file("34-1_WJB251000068.json", Some("json"), &None));
    assert!(!selects_cache_file("34-1_WJB251000068.txt", Some("txt"), &None));
    assert!(!selects_cache_file("README", None, &None));
    assert!(selects_cache_file("34-1_WJB251000068.json", Some("json"), &Some("34-1".to_string())));
    assert!(selects_cache_file("34-1_WJB251000068.json", Some("json"), &Some("WJB25".to_string())));
    assert!(!selects_cache_file("34-1_WJB251000068.json", Some("json"), &Some("35".to_string())));
    assert!(!selects_cache_file("34-1_WJB251000068.geojson", Some("geojson"), &Some("34".to_string())));
}

#[test]
fn route_goes_through_its_stages() {
    let s = advance(RouteStage::Pending, RouteEvent::Loaded);
    assert_eq!(s, RouteStage::Sanitizing);
    let s = advance(s, RouteEvent::Sanitized { stop_count: 40 });
    assert_eq!(s, RouteStage::Stitching);
    let s = advance(s, RouteEvent::Stored);
    assert_eq!(s, RouteStage::Assembled);
}

#[test]
fn route_with_fewer_than_two_stops_is_skipped() {
    assert_eq!(MIN_STOPS, 2);
    assert_eq!(advance(RouteStage::Sanitizing, RouteEvent::Sanitized { stop_count: 0 }), RouteStage::Skipped);
    assert_eq!(advance(RouteStage::Sanitizing, RouteEvent::Sanitized { stop_count: 1 }), RouteStage::Skipped);
    assert_eq!(advance(RouteStage::Sanitizing, RouteEvent::Sanitized { stop_count: 2 }), RouteStage::Stitching);
}

#[test]
fn failure_ends_a_route_from_any_running_stage() {
    assert_eq!(advance(RouteStage::Pending, RouteEvent::Broke), RouteStage::Failed);
    assert_eq!(advance(RouteStage::Sanitizing, RouteEvent::Broke), RouteStage::Failed);
    assert_eq!(advance(RouteStage::Stitching, RouteEvent::Broke), RouteStage::Failed);
}

#[test]
fn final_stages_stay() {
    for stage in [RouteStage::Assembled, RouteStage::Skipped, RouteStage::Failed] {
        for event in [
            RouteEvent::Loaded,
            RouteEvent::Sanitized { stop_count: 5 },
            RouteEvent::Stored,
            RouteEvent::Broke,
        ] {
            assert_eq!(advance(stage, event), stage);
        }
    }
}

#[test]
fn event_out_of_turn_changes_nothing() {
    assert_eq!(advance(RouteStage::Pending, RouteEvent::Stored), RouteStage::Pending);
    assert_eq!(advance(RouteStage::Pending, RouteEvent::Sanitized { stop_count: 5 }), RouteStage::Pending);
    assert_eq!(advance(RouteStage::Sanitizing, RouteEvent::Loaded), RouteStage::Sanitizing);
    assert_eq!(advance(RouteStage::Stitching, RouteEvent::Loaded), RouteStage::Stitching);
}
