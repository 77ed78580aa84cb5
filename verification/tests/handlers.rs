use backend::handlers::{
    controller_reachable, create_status, health_from_cache, resolve_daily_pass, snapshot,
    to_status, DailyAnswer, DailyCache, DailySnapshot,
};
use backend::models::{GuestPass, UnleashedError};
use backend::unleashed_api::CreateOutcome;

fn pass(name: &str, created_at: i64) -> GuestPass {
    GuestPass {
        id: name.to_string(),
        name: name.to_string(),
        code: "000000".to_string(),
        ssid: "Test".to_string(),
        created_at,
        activated_at: None,
        expires_at: created_at + 604800,
        valid_time_secs: 86400,
        used: false,
        share_number: 0,
        client_macs: vec![],
        remarks: String::new(),
    }
}

fn snapshot_of(name: &str, current: bool) -> DailySnapshot {
    DailySnapshot {
        pass: pass(name, 100),
        current,
    }
}

#[test]
fn prefers_the_pass_for_the_current_period() {
    let passes = vec![pass("daily-2026-09-15", 100), pass("daily-2026-09-16", 200)];
    let (found, current) = resolve_daily_pass(&passes, "daily-2026-09-16").unwrap();
    assert_eq!(found.name, "daily-2026-09-16");
    assert!(current);
}

/// If the roll never happened, show the newest daily pass rather than
/// nothing, and report it as not current.
#[test]
fn falls_back_to_the_newest_daily_pass_when_today_is_missing() {
    let passes = vec![pass("daily-2026-09-14", 100), pass("daily-2026-09-15", 200)];
    let (found, current) = resolve_daily_pass(&passes, "daily-2026-09-16").unwrap();
    assert_eq!(found.name, "daily-2026-09-15");
    assert!(!current);
}

#[test]
fn ignores_passes_that_are_not_daily() {
    let passes = vec![pass("work-laptop", 999)];
    assert!(resolve_daily_pass(&passes, "daily-2026-09-16").is_none());
}

#[test]
fn health_reports_ok_when_todays_pass_is_current() {
    let health = health_from_cache(true, Some(&snapshot_of("daily-2026-09-16", true)));
    assert_eq!(health.status, "ok");
    assert!(health.daily_pass_current);
    assert!(health.controller_reachable);
}

#[test]
fn health_reports_ok_but_stale_when_todays_pass_is_missing() {
    let health = health_from_cache(true, Some(&snapshot_of("daily-2026-09-15", false)));
    assert_eq!(health.status, "ok");
    assert!(!health.daily_pass_current);
    assert!(health.controller_reachable);
}

/// The controller outage case: still 200'd by the handler, but the body
/// must say so.
#[test]
fn health_reports_degraded_when_controller_is_unreachable() {
    let health = health_from_cache(false, None);
    assert_eq!(health.status, "degraded");
    assert!(!health.daily_pass_current);
    assert!(!health.controller_reachable);
}

/// A cached pass keeps the display alive through an outage, but it must
/// not be reported as current.
#[test]
fn health_does_not_call_a_cached_pass_current_while_unreachable() {
    let health = health_from_cache(false, Some(&snapshot_of("daily-2026-09-16", true)));
    assert_eq!(health.status, "degraded");
    assert!(!health.daily_pass_current);
    assert!(!health.controller_reachable);
}

/// Startup, before the background connect task has published a client.
#[test]
fn health_is_degraded_but_ok_before_the_client_is_ready() {
    let health = health_from_cache(false, None);
    assert_eq!(health.status, "degraded");
    assert!(!health.controller_reachable);
}

#[test]
fn the_newest_of_equally_old_daily_passes_is_the_one_listed_last() {
    let passes = vec![
        pass("daily-2026-09-13", 300),
        pass("daily-2026-09-14", 300),
        pass("work-laptop", 900),
        pass("daily-2026-09-12", 100),
    ];
    let (found, current) = resolve_daily_pass(&passes, "daily-2026-09-16").unwrap();
    assert_eq!(found.name, "daily-2026-09-14");
    assert!(!current);
}

#[test]
fn the_first_pass_with_the_expected_name_wins_over_newer_daily_passes() {
    let mut first = pass("daily-2026-09-16", 50);
    first.code = "111111".to_string();
    let mut second = pass("daily-2026-09-16", 60);
    second.code = "222222".to_string();
    let passes = vec![pass("daily-2026-09-17", 900), first, second];
    let (found, current) = resolve_daily_pass(&passes, "daily-2026-09-16").unwrap();
    assert_eq!(found.code, "111111");
    assert!(current);
}

#[test]
fn a_failed_refresh_keeps_the_cached_pass_but_stops_calling_it_current() {
    let mut cache = DailyCache::new();
    assert!(!controller_reachable(&cache));
    assert!(matches!(cache.daily_answer(), DailyAnswer::Unavailable));
    assert!(cache.should_refresh_before_serving());

    let listing: Result<Vec<GuestPass>, UnleashedError> =
        Ok(vec![pass("daily-2026-09-16", 100), pass("work-laptop", 50)]);
    cache.refresh(&listing, "daily-2026-09-16");
    assert!(controller_reachable(&cache));
    let snap = snapshot(&cache).unwrap();
    assert_eq!(snap.pass.name, "daily-2026-09-16");
    assert!(snap.current);
    match cache.daily_answer() {
        DailyAnswer::Serve { pass, current } => {
            assert_eq!(pass.name, "daily-2026-09-16");
            assert!(current);
        }
        _ => panic!("expected a pass to serve"),
    }

    let failed: Result<Vec<GuestPass>, UnleashedError> =
        Err(UnleashedError::Http("connection refused".to_string()));
    cache.refresh(&failed, "daily-2026-09-16");
    assert!(!controller_reachable(&cache));
    assert!(!cache.should_refresh_before_serving());
    assert_eq!(snapshot(&cache).unwrap().pass.name, "daily-2026-09-16");
    match cache.daily_answer() {
        DailyAnswer::Serve { pass, current } => {
            assert_eq!(pass.name, "daily-2026-09-16");
            assert!(!current);
        }
        _ => panic!("expected the cached pass to be served"),
    }
    let health = health_from_cache(controller_reachable(&cache), snapshot(&cache).as_ref());
    assert_eq!(health.status, "degraded");
    assert!(!health.daily_pass_current);
}

#[test]
fn a_listing_without_daily_passes_answers_not_found() {
    let mut cache = DailyCache::new();
    cache.refresh(&Ok(vec![pass("daily-2026-09-16", 100)]), "daily-2026-09-16");
    assert!(snapshot(&cache).unwrap().current);
    cache.refresh(&Ok(vec![pass("work-laptop", 100)]), "daily-2026-09-16");
    assert!(snapshot(&cache).is_none());
    assert!(controller_reachable(&cache));
    assert!(matches!(cache.daily_answer(), DailyAnswer::NotFound));
}

#[test]
fn an_answering_controller_with_no_daily_pass_is_not_found() {
    let mut cache = DailyCache::new();
    cache.refresh(&Ok(vec![]), "daily-2026-09-16");
    assert!(matches!(cache.daily_answer(), DailyAnswer::NotFound));
    cache.record_failure();
    assert!(matches!(cache.daily_answer(), DailyAnswer::Unavailable));
    cache.record_success();
    assert!(matches!(cache.daily_answer(), DailyAnswer::NotFound));
}

#[test]
fn controller_failures_map_to_http_statuses() {
    assert_eq!(to_status(&UnleashedError::Auth), 502);
    assert_eq!(to_status(&UnleashedError::SessionLapsed), 502);
    assert_eq!(
        to_status(&UnleashedError::Controller {
            msg: "AD_PrivilegeInsufficient".to_string()
        }),
        400
    );
    assert_eq!(to_status(&UnleashedError::Parse("bad".to_string())), 500);
    assert_eq!(to_status(&UnleashedError::Http("down".to_string())), 500);
}

#[test]
fn creating_maps_duplicates_to_conflict() {
    assert_eq!(create_status(&Ok(CreateOutcome::Created(pass("x", 1)))), 200);
    assert_eq!(create_status(&Ok(CreateOutcome::AlreadyExists)), 409);
    assert_eq!(create_status(&Err(UnleashedError::Auth)), 502);
}
