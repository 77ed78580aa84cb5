use backend::clock::{CivilDate, TimeZone};
use backend::models::{
    GetSitesResponse, Site, Voucher, VouchersCreateResponse, VouchersGetResponse,
};
use backend::unifi_api::{
    check_rolling_voucher_ip, compact_stamp_text, default_site_id, encode_fragment, first_created_voucher,
    nothing_deleted, pick_newest_voucher, pick_rolling_voucher, request_outcome, UnifiAPI,
    LocalTime, UnifiSettings, VoucherPages, PAGE_SIZE,
};

fn settings(site: &str, zone: &str) -> UnifiSettings {
    UnifiSettings {
        unifi_controller_url: "https://unifi.example".to_string(),
        unifi_api_key: "key".to_string(),
        unifi_has_valid_cert: true,
        unifi_site_id: site.to_string(),
        timezone: TimeZone::named(zone).unwrap(),
        rolling_voucher_duration_minutes: 90,
    }
}

fn api() -> UnifiAPI {
    let mut api = UnifiAPI::new(settings("abc123", "UTC"));
    api.with_site("abc123");
    api
}

fn voucher(id: &str, name: &str, created_at: &str, activated: bool, expired: bool) -> Voucher {
    Voucher {
        id: id.to_string(),
        created_at: created_at.to_string(),
        name: name.to_string(),
        code: "12345".to_string(),
        authorized_guest_limit: None,
        authorized_guest_count: 0,
        activated_at: if activated { Some("2024-01-01 00:00:00".to_string()) } else { None },
        expires_at: None,
        expired,
        time_limit_minutes: 60,
        data_usage_limit_mbytes: None,
        rx_rate_limit_kbps: None,
        tx_rate_limit_kbps: None,
    }
}

#[test]
fn urls_follow_the_integration_api() {
    let api = api();
    assert_eq!(api.sites_api_url, "https://unifi.example/proxy/network/integration/v1/sites");
    assert_eq!(
        api.voucher_api_url,
        "https://unifi.example/proxy/network/integration/v1/sites/abc123/hotspot/vouchers"
    );
    assert_eq!(
        api.default_site_url(),
        "https://unifi.example/proxy/network/integration/v1/sites?filter=or(internalReference.eq('default'),name.eq('Default'))"
    );
    assert_eq!(
        api.voucher_details_url("v1"),
        "https://unifi.example/proxy/network/integration/v1/sites/abc123/hotspot/vouchers/v1"
    );
    assert_eq!(
        api.delete_expired_url(),
        "https://unifi.example/proxy/network/integration/v1/sites/abc123/hotspot/vouchers?filter=expired.eq(true)"
    );
}

#[test]
fn the_rolling_prefix_is_percent_encoded_in_the_name_pattern() {
    assert_eq!(encode_fragment("[ROLLING]"), "%5BROLLING%5D");
    assert_eq!(encode_fragment("a b\u{7f}é"), "a b%7F%C3%A9");
    assert_eq!(
        api().delete_expired_rolling_url(),
        "https://unifi.example/proxy/network/integration/v1/sites/abc123/hotspot/vouchers?filter=and(expired.eq(true),name.like('%5BROLLING%5D*'))"
    );
}

#[test]
fn deleting_by_ids_builds_one_filter_or_an_or_of_them() {
    let api = api();
    let base = "https://unifi.example/proxy/network/integration/v1/sites/abc123/hotspot/vouchers";
    assert_eq!(api.delete_by_ids_url(&vec![]), None);
    assert_eq!(api.delete_by_ids_url(&vec!["".to_string()]), None);
    assert_eq!(
        api.delete_by_ids_url(&vec!["a1".to_string()]),
        Some(format!("{base}?filter=id.eq(a1)"))
    );
    assert_eq!(
        api.delete_by_ids_url(&vec!["a1".to_string(), "b2".to_string(), "c3".to_string()]),
        Some(format!("{base}?filter=or(id.eq(a1),id.eq(b2),id.eq(c3))"))
    );
    assert_eq!(nothing_deleted().vouchers_deleted, 0);
}

#[test]
fn the_default_site_id_is_asked_for_in_any_case() {
    assert_eq!(UnifiAPI::new(settings("Default", "UTC")).configured_site_id(), None);
    assert_eq!(UnifiAPI::new(settings("DEFAULT", "UTC")).configured_site_id(), None);
    assert_eq!(
        UnifiAPI::new(settings("site-7", "UTC")).configured_site_id(),
        Some("site-7".to_string())
    );
}

#[test]
fn the_default_site_is_the_first_listed_or_not_found() {
    let empty = GetSitesResponse { offset: 0, limit: 25, count: 0, total_count: 0, data: vec![] };
    assert_eq!(default_site_id(&empty), Err(404));
    let two = GetSitesResponse {
        offset: 0,
        limit: 25,
        count: 2,
        total_count: 2,
        data: vec![
            Site { id: "s1".to_string(), internal_reference: "default".to_string(), name: "Default".to_string() },
            Site { id: "s2".to_string(), internal_reference: "other".to_string(), name: "Other".to_string() },
        ],
    };
    assert_eq!(default_site_id(&two), Ok("s1".to_string()));
}

#[test]
fn dates_are_shown_in_the_configured_zone() {
    let utc = UnifiAPI::new(settings("x", "UTC"));
    assert_eq!(utc.format_unifi_date("2024-03-05T07:08:09Z"), "2024-03-05 07:08:09");
    let berlin = UnifiAPI::new(settings("x", "Europe/Berlin"));
    assert_eq!(berlin.format_unifi_date("2024-07-01T10:00:00+00:00"), "2024-07-01 12:00:00");
    assert_eq!(berlin.format_unifi_date("2024-01-01T23:30:00Z"), "2024-01-02 00:30:00");
    assert_eq!(berlin.format_unifi_date("not a date"), "not a date");
}

#[test]
fn processing_a_voucher_converts_each_date() {
    let api = UnifiAPI::new(settings("x", "Europe/Berlin"));
    let mut v = voucher("1", "n", "2024-07-01T10:00:00Z", false, false);
    v.activated_at = Some("2024-07-01T11:00:00Z".to_string());
    v.expires_at = Some("garbage".to_string());
    api.process_voucher(&mut v);
    assert_eq!(v.created_at, "2024-07-01 12:00:00");
    assert_eq!(v.activated_at, Some("2024-07-01 13:00:00".to_string()));
    assert_eq!(v.expires_at, Some("garbage".to_string()));
    let all = api.process_vouchers(vec![voucher("2", "m", "2024-12-31T23:00:00Z", false, false)]);
    assert_eq!(all.len(), 1);
    assert_eq!(all[0].created_at, "2025-01-01 00:00:00");
}

#[test]
fn the_newest_unused_rolling_voucher_is_picked() {
    let vs = vec![
        voucher("d", "plain", "2024-01-05 10:00:00", false, false),
        voucher("a", "[ROLLING] 1-10.0.0.1", "2024-01-01 10:00:00", false, false),
        voucher("b", "[ROLLING] 2-10.0.0.2", "2024-01-02 10:00:00", true, false),
        voucher("c", "[ROLLING] 3-10.0.0.3", "2024-01-01 12:00:00", false, false),
        voucher("e", "[ROLLING] 4-10.0.0.4", "2024-01-01 11:00:00", false, false),
    ];
    assert_eq!(pick_rolling_voucher(&vs).map(|v| v.id), Some("c".to_string()));
    assert_eq!(pick_newest_voucher(&vs).map(|v| v.id), Ok("d".to_string()));
    assert_eq!(pick_rolling_voucher(&vec![voucher("d", "plain", "x", false, false)]).map(|v| v.id), None);
    assert_eq!(pick_newest_voucher(&vec![]).map(|v| v.id), Err(404));
}

#[test]
fn of_equally_new_vouchers_the_last_listed_wins_and_unreadable_dates_count_as_oldest() {
    let vs = vec![
        voucher("x", "n", "2024-03-01 08:00:00", false, false),
        voucher("y", "n", "2024-03-01 08:00:00", false, false),
        voucher("z", "n", "not a date", false, false),
    ];
    assert_eq!(pick_newest_voucher(&vs).map(|v| v.id), Ok("y".to_string()));
    let old = vec![
        voucher("p", "n", "1969-12-31 23:59:59", false, false),
        voucher("q", "n", "garbage", false, false),
    ];
    assert_eq!(pick_newest_voucher(&old).map(|v| v.id), Ok("q".to_string()));
}

#[test]
fn a_rolling_voucher_for_an_ip_is_found_unless_expired() {
    let vs = vec![
        voucher("a", "[ROLLING] 20240101-10.0.0.1", "x", false, true),
        voucher("b", "[ROLLING] 20240101-10.0.0.2", "x", false, false),
        voucher("c", "other 10.0.0.3", "x", false, false),
    ];
    assert!(!check_rolling_voucher_ip(&vs, "10.0.0.1"));
    assert!(check_rolling_voucher_ip(&vs, "10.0.0.2"));
    assert!(!check_rolling_voucher_ip(&vs, "10.0.0.3"));
}

#[test]
fn a_rolling_voucher_request_names_the_time_and_the_ip() {
    let api = api();
    let r = api.rolling_voucher_request_at("20240102030405", "10.1.2.3");
    assert_eq!(r.count, 1);
    assert_eq!(r.name, "[ROLLING] 20240102030405-10.1.2.3");
    assert_eq!(r.time_limit_minutes, 90);
    assert!(r.authorized_guest_limit.is_none());
    let at = LocalTime {
        date: CivilDate { year: 2024, month: 11, day: 9 },
        hour: 23,
        minute: 5,
        second: 7,
        nanos: 0,
    };
    let now = api.rolling_voucher_request(&at, "10.1.2.3");
    assert_eq!(now.name, "[ROLLING] 20241109230507-10.1.2.3");
    assert_eq!(now.count, 1);
    assert_eq!(now.time_limit_minutes, 90);
}

#[test]
fn the_first_created_voucher_is_returned_or_500() {
    let none = VouchersCreateResponse { vouchers: vec![] };
    assert_eq!(first_created_voucher(&none).map(|v| v.id), Err(500));
    let some = VouchersCreateResponse {
        vouchers: vec![voucher("n1", "x", "t", false, false), voucher("n2", "y", "t", false, false)],
    };
    assert_eq!(first_created_voucher(&some).map(|v| v.id), Ok("n1".to_string()));
}

#[test]
fn request_outcomes_follow_the_status() {
    assert_eq!(request_outcome(Err(Some(502)), true), Err(502));
    assert_eq!(request_outcome(Err(None), true), Err(500));
    assert_eq!(request_outcome(Ok(404), true), Err(404));
    assert_eq!(request_outcome(Ok(503), false), Err(503));
    assert_eq!(request_outcome(Ok(200), false), Err(500));
    assert_eq!(request_outcome(Ok(200), true), Ok(()));
    assert_eq!(request_outcome(Ok(302), true), Ok(()));
}

fn page(n: usize, total: u64) -> VouchersGetResponse {
    VouchersGetResponse {
        offset: 0,
        limit: PAGE_SIZE,
        count: n as u32,
        total_count: total,
        data: (0..n).map(|i| voucher(&i.to_string(), "v", "2024-01-01T00:00:00Z", false, false)).collect(),
    }
}

#[test]
fn pages_are_gathered_until_the_total_is_reached() {
    let mut pages = VoucherPages::new();
    assert_eq!(pages.request.offset, 0);
    assert_eq!(pages.request.limit, 1000);
    assert!(pages.absorb(page(1000, 1500)));
    assert_eq!(pages.request.offset, 1000);
    assert!(!pages.absorb(page(500, 1500)));
    assert_eq!(pages.request.offset, 1500);
    let all = pages.finish(&api());
    assert_eq!(all.count, 1500);
    assert_eq!(all.total_count, 1500);
    assert_eq!(all.offset, 0);
    assert_eq!(all.limit, 1000);
    assert_eq!(all.data[0].created_at, "2024-01-01 00:00:00");
}

#[test]
fn an_empty_page_ends_the_walk() {
    let mut pages = VoucherPages::new();
    assert!(!pages.absorb(page(0, 10)));
    assert_eq!(pages.request.offset, 0);
    assert_eq!(pages.vouchers.len(), 0);
    assert_eq!(pages.total_count, 10);
}

#[test]
fn the_utc_zone_is_named_utc() {
    assert_eq!(TimeZone::utc().name(), "UTC");
}

#[test]
fn in_utc_the_roll_is_hours_away_on_the_clock() {
    let utc = TimeZone::utc();
    // 2026-09-16 01:00:00 UTC and 05:00:00 UTC.
    let one = backend::clock::Instant { secs: 1_789_520_400, nanos: 0 };
    let five = backend::clock::Instant { secs: 1_789_534_800, nanos: 0 };
    assert_eq!(backend::clock::seconds_until_next_roll(&one, &utc, 4), 3 * 3600);
    assert_eq!(backend::clock::seconds_until_next_roll(&five, &utc, 4), 23 * 3600);
}

#[test]
fn the_site_is_the_configured_one_or_the_one_the_controller_names() {
    let mut configured = UnifiAPI::new(settings("site-7", "UTC"));
    assert_eq!(configured.select_site(None), Ok(()));
    assert_eq!(
        configured.voucher_api_url,
        "https://unifi.example/proxy/network/integration/v1/sites/site-7/hotspot/vouchers"
    );
    let mut default = UnifiAPI::new(settings("Default", "UTC"));
    assert_eq!(default.select_site(Some(Ok("88f1".to_string()))), Ok(()));
    assert_eq!(
        default.voucher_api_url,
        "https://unifi.example/proxy/network/integration/v1/sites/88f1/hotspot/vouchers"
    );
    let mut missing = UnifiAPI::new(settings("default", "UTC"));
    assert_eq!(missing.select_site(Some(Err(404))), Err(404));
    assert_eq!(missing.voucher_api_url, "");
}

#[test]
fn the_walk_requests_each_page_from_the_offset_so_far() {
    let mut pages = VoucherPages::new();
    let mut offsets = vec![pages.request.offset];
    assert!(pages.absorb(page(3, 7)));
    offsets.push(pages.request.offset);
    assert!(pages.absorb(page(3, 7)));
    offsets.push(pages.request.offset);
    assert!(!pages.absorb(page(1, 7)));
    assert_eq!(offsets, vec![0, 3, 6]);
    assert_eq!(pages.request.offset, 7);
    assert_eq!(pages.vouchers.len(), 7);
    assert_eq!(pages.vouchers[3].id, "0");
}

#[test]
fn a_local_stamp_is_fourteen_digits() {
    let t = LocalTime {
        date: CivilDate { year: 2024, month: 1, day: 2 },
        hour: 3,
        minute: 4,
        second: 59,
        nanos: 1_500_000_000,
    };
    assert_eq!(compact_stamp_text(&t), "20240102030460");
}
