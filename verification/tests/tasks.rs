use backend::clock::{period_start_date, resolve_local_hour, seconds_until_next_roll, CivilDate, Instant};
use backend::environment::{EnvVars, Environment};
use backend::handlers::{DailyAnswer, DailyCache};
use backend::models::{daily_pass_name, GuestPass, UnleashedError};
use backend::tasks::{
    after_startup_attempt, cache_refresh_interval_secs, daily_mint_result, daily_pass_request,
    expected_daily_name, StartupStep,
};
use backend::unleashed_api::CreateOutcome;
use chrono::{Datelike, Duration as ChronoDuration, TimeZone};
use chrono_tz::Tz;

fn instant<T: TimeZone>(dt: chrono::DateTime<T>) -> Instant {
    Instant {
        secs: dt.timestamp(),
        nanos: dt.timestamp_subsec_nanos(),
    }
}

fn utc() -> backend::clock::TimeZone {
    backend::clock::TimeZone::named("UTC").unwrap()
}

#[test]
fn sleeps_until_todays_roll_when_it_is_still_ahead() {
    let now = instant(Tz::UTC.with_ymd_and_hms(2026, 9, 16, 1, 0, 0).unwrap());
    assert_eq!(seconds_until_next_roll(&now, &utc(), 4), 3 * 3600);
}

#[test]
fn sleeps_until_tomorrows_roll_once_today_has_passed() {
    let now = instant(Tz::UTC.with_ymd_and_hms(2026, 9, 16, 5, 0, 0).unwrap());
    assert_eq!(seconds_until_next_roll(&now, &utc(), 4), 23 * 3600);
}

#[test]
fn never_returns_a_non_positive_delay() {
    let now = instant(Tz::UTC.with_ymd_and_hms(2026, 9, 16, 4, 0, 0).unwrap());
    assert!(seconds_until_next_roll(&now, &utc(), 4) > 0);

    // A moment a few hundred milliseconds before the boundary truncates to
    // 0 whole seconds, which exercises the clamp to 1.
    let almost_there = instant(
        Tz::UTC.with_ymd_and_hms(2026, 9, 16, 3, 59, 59).unwrap()
            + ChronoDuration::milliseconds(800),
    );
    assert!(seconds_until_next_roll(&almost_there, &utc(), 4) > 0);
    assert_eq!(seconds_until_next_roll(&almost_there, &utc(), 4), 1);
}

#[test]
fn does_not_panic_in_a_spring_forward_gap() {
    // 2027-03-14 is the day America/New_York's clocks jump from 02:00 EST
    // straight to 03:00 EDT, so 02:00 sits in the gap.
    let ny = backend::clock::TimeZone::named("America/New_York").unwrap();
    let now = instant(
        chrono_tz::America::New_York
            .with_ymd_and_hms(2027, 3, 14, 1, 0, 0)
            .unwrap(),
    );
    assert!(seconds_until_next_roll(&now, &ny, 2) > 0);
    // The gap is skipped: 03:00 EDT, one hour after 01:00 EST.
    assert_eq!(seconds_until_next_roll(&now, &ny, 2), 3600);
}

#[test]
fn the_repeated_hour_resolves_to_its_later_instant() {
    // 2026-11-01 01:00 happens twice in New York; the later is 06:00 UTC.
    let ny = backend::clock::TimeZone::named("America/New_York").unwrap();
    let day = chrono::NaiveDate::from_ymd_opt(2026, 11, 1)
        .unwrap()
        .signed_duration_since(chrono::NaiveDate::from_ymd_opt(1970, 1, 1).unwrap())
        .num_days();
    let later = Tz::UTC.with_ymd_and_hms(2026, 11, 1, 6, 0, 0).unwrap().timestamp();
    assert_eq!(resolve_local_hour(day, 1, &ny), later);
}

/// Before the roll hour the active period still belongs to the previous
/// day, so the display never falls into a window with no pass.
#[test]
fn period_start_respects_the_roll_hour() {
    let ny = backend::clock::TimeZone::named("America/New_York").unwrap();
    let before = instant(
        chrono_tz::America::New_York
            .with_ymd_and_hms(2026, 9, 17, 2, 0, 0)
            .unwrap(),
    );
    let after = instant(
        chrono_tz::America::New_York
            .with_ymd_and_hms(2026, 9, 17, 5, 0, 0)
            .unwrap(),
    );
    assert_eq!(
        period_start_date(&before, &ny, 4),
        CivilDate { year: 2026, month: 9, day: 16 }
    );
    assert_eq!(
        period_start_date(&after, &ny, 4),
        CivilDate { year: 2026, month: 9, day: 17 }
    );
}

#[test]
fn daily_names_are_date_stamped() {
    let d = CivilDate { year: 2026, month: 9, day: 16 };
    assert_eq!(daily_pass_name(&d), "daily-2026-09-16");
    assert_eq!(
        daily_pass_name(&CivilDate { year: 987, month: 1, day: 2 }),
        "daily-0987-01-02"
    );
    assert_eq!(
        daily_pass_name(&CivilDate { year: -5, month: 12, day: 31 }),
        "daily--0005-12-31"
    );
    assert_eq!(
        daily_pass_name(&CivilDate { year: 12345, month: 10, day: 10 }),
        "daily-+12345-10-10"
    );
}

fn env(roll: &str) -> Environment {
    let unset = || Err("environment variable not found".to_string());
    Environment::try_new(&EnvVars {
        unleashed_url: Ok("https://u.example".to_string()),
        unleashed_username: Ok("u".to_string()),
        unleashed_password: Ok("p".to_string()),
        unleashed_ssid: Ok("Guest".to_string()),
        unleashed_has_valid_cert: unset(),
        backend_bind_host: unset(),
        backend_bind_port: unset(),
        timezone: Ok("America/New_York".to_string()),
        daily_roll_hour: Ok(roll.to_string()),
        daily_duration_hours: Ok("30".to_string()),
        daily_share_number: unset(),
    })
    .unwrap()
}

#[test]
fn the_daily_request_names_the_period_and_carries_the_settings() {
    let e = env("4");
    let at_two = instant(
        chrono_tz::America::New_York
            .with_ymd_and_hms(2026, 9, 17, 2, 0, 0)
            .unwrap(),
    );
    assert_eq!(expected_daily_name(&e, &at_two), "daily-2026-09-16");
    let req = daily_pass_request(&e, &at_two);
    assert_eq!(req.name, "daily-2026-09-16");
    assert_eq!(req.duration_hours, 30);
    assert_eq!(req.share_number, 0);
}

#[test]
fn a_pass_that_already_exists_counts_as_minted() {
    assert!(daily_mint_result(Ok(CreateOutcome::AlreadyExists)).is_ok());
    assert!(daily_mint_result(Err(UnleashedError::Auth)).is_err());
}

#[test]
fn startup_retries_then_defers() {
    assert_eq!(after_startup_attempt(1, true), StartupStep::Done);
    assert_eq!(after_startup_attempt(1, false), StartupStep::RetryAfter(60));
    assert_eq!(after_startup_attempt(4, false), StartupStep::RetryAfter(60));
    assert_eq!(after_startup_attempt(5, false), StartupStep::Defer);
}

#[test]
fn the_cache_is_retried_sooner_while_the_controller_is_down() {
    assert_eq!(cache_refresh_interval_secs(true), 60);
    assert_eq!(cache_refresh_interval_secs(false), 5);
}

/// The pass the rotation mints is, once listed, the one the display serves
/// as current -- even when an older daily pass was created later.
#[test]
fn the_minted_pass_is_served_as_current_once_listed() {
    let e = env("4");
    let now = instant(
        chrono_tz::America::New_York
            .with_ymd_and_hms(2026, 9, 17, 9, 0, 0)
            .unwrap(),
    );
    let req = daily_pass_request(&e, &now);
    let listed = |name: &str, created_at: i64| GuestPass {
        id: name.to_string(),
        name: name.to_string(),
        code: "123456".to_string(),
        ssid: "Guest".to_string(),
        created_at,
        activated_at: None,
        expires_at: created_at + 86400,
        valid_time_secs: 86400,
        used: false,
        share_number: 0,
        client_macs: vec![],
        remarks: String::new(),
    };
    let listing: Result<Vec<GuestPass>, UnleashedError> =
        Ok(vec![listed(&req.name, 100), listed("daily-2026-09-16", 200)]);
    let mut cache = DailyCache::new();
    cache.refresh(&listing, &expected_daily_name(&e, &now));
    match cache.daily_answer() {
        DailyAnswer::Serve { pass, current } => {
            assert_eq!(pass.name, "daily-2026-09-17");
            assert!(current);
        }
        _ => panic!("expected the minted pass to be served"),
    }
}

/// Day numbers become the proleptic Gregorian dates chrono gives, across
/// leap years, centuries and dates before the epoch.
#[test]
fn day_numbers_become_calendar_dates() {
    let epoch = chrono::NaiveDate::from_ymd_opt(1970, 1, 1).unwrap();
    let mut day: i64 = -800_000;
    while day <= 800_000 {
        let expected = epoch + ChronoDuration::days(day);
        let got = backend::clock::civil_date(day);
        assert_eq!(
            (got.year, got.month, got.day),
            (expected.year(), expected.month(), expected.day()),
            "day {day}"
        );
        day += 37;
    }
    let leap = backend::clock::civil_date(11016);
    assert_eq!((leap.year, leap.month, leap.day), (2000, 2, 29));
    let first = backend::clock::civil_date(0);
    assert_eq!((first.year, first.month, first.day), (1970, 1, 1));
}
