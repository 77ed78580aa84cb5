use backend::models::{
    controller_error, parse_generated_key, parse_guest_list, sanitize_pass_name,
    UnleashedError, DUPLICATE_NAME_MSG,
};

const GUEST_LIST: &str = r#"<?xml version="1.0" encoding="utf-8"?><!DOCTYPE ajax-response><ajax-response><response type="object" id="system.1789589834629.9179"><response><guest-list><guest shared-guestpass="true" share-number="1" created-by="guestpass" role-id="2" countdown-by-issued="false" create-time="1789492045" valid-time="9244800" start-time="1789492085" expire-time="1798736885" email="" phone-number="" reauth-interval-unit="min" remarks="" name="work-laptop" x-key="008996" id="1" used="true" ssid="Grey Rock Guest" reauth-enabled="false"><client mac="80:d1:ce:06:bc:52" /></guest><guest shared-guestpass="true" share-number="0" created-by="guestpass" role-id="2" countdown-by-issued="false" create-time="1789589893" valid-time="86400" start-time="" expire-time="1790194693" email="" phone-number="" reauth-interval-unit="min" remarks="" name="daily-2026-09-16" x-key="399711" id="2" ssid="Grey Rock Guest" reauth-enabled="false" /></guest-list></response></response></ajax-response>"#;

const GENERATE_KEY: &str = r#"<?xml version="1.0" encoding="utf-8"?><!DOCTYPE ajax-response><ajax-response><response type="object" id="system.1789589893100.4410"><xmsg type="0" x-key="399711"/></response></ajax-response>"#;

const ERR_PRIVILEGE: &str = r#"<?xml version="1.0" encoding="utf-8"?><!DOCTYPE ajax-response><ajax-response><response type="object" id="system.1789589923131.5132"><xmsg type="-1" msg="AD_PrivilegeInsufficient" CHICK_ABLILITY="true" lmsg="You do not have authorization to perform this operation."/></response></ajax-response>"#;

const ERR_DUPLICATE: &str = r#"<?xml version="1.0" encoding="utf-8"?><!DOCTYPE ajax-response><ajax-response><response type="object" id="system.1789590101222.3311"><xmsg type="-1" msg="E_DuplicatedValue" lmsg="Duplicated value."/></response></ajax-response>"#;

/// A duplicate name means the pass already exists and nothing was created.
/// The daily task depends on telling this apart from a real failure.
#[test]
fn duplicate_is_distinguishable_from_other_controller_errors() {
    assert_eq!(controller_error(ERR_DUPLICATE).as_deref(), Some(DUPLICATE_NAME_MSG));
    assert_ne!(controller_error(ERR_PRIVILEGE).as_deref(), Some(DUPLICATE_NAME_MSG));
}

#[test]
fn a_named_pass_can_be_found_in_a_parsed_list() {
    let passes = parse_guest_list(GUEST_LIST).unwrap();
    let found = passes.iter().find(|p| p.name == "daily-2026-09-16");
    assert!(found.is_some());
    assert_eq!(found.unwrap().code, "399711");
}

#[test]
fn parses_a_used_pass_with_its_clients() {
    let passes = parse_guest_list(GUEST_LIST).unwrap();
    assert_eq!(passes.len(), 2);
    let p = passes.iter().find(|p| p.id == "1").unwrap();
    assert_eq!(p.name, "work-laptop");
    assert_eq!(p.code, "008996");
    assert_eq!(p.ssid, "Grey Rock Guest");
    assert!(p.used);
    assert_eq!(p.created_at, 1789492045);
    assert_eq!(p.activated_at, Some(1789492085));
    assert_eq!(p.expires_at, 1798736885);
    assert_eq!(p.valid_time_secs, 9244800);
    assert_eq!(p.share_number, 1);
    assert_eq!(p.client_macs, vec!["80:d1:ce:06:bc:52".to_string()]);
}

/// An unused pass carries start-time="" -- it must parse as None, not 0.
#[test]
fn parses_an_unused_pass_with_no_activation() {
    let passes = parse_guest_list(GUEST_LIST).unwrap();
    let p = passes.iter().find(|p| p.id == "2").unwrap();
    assert_eq!(p.name, "daily-2026-09-16");
    assert_eq!(p.activated_at, None);
    assert!(!p.used);
    assert_eq!(p.share_number, 0);
    assert!(p.client_macs.is_empty());
}

#[test]
fn a_client_after_a_self_closed_guest_is_not_attached_to_it() {
    let xml = r#"<guest-list><guest name="a" id="1"/><client mac="aa"/></guest-list>"#;
    let passes = parse_guest_list(xml).unwrap();
    assert_eq!(passes.len(), 1);
    assert!(passes[0].client_macs.is_empty());
}

#[test]
fn attribute_entities_are_unescaped() {
    let xml = r#"<guest-list><guest name="Tom &amp; Jerry&apos;s" remarks="&lt;&gt;&quot;"/></guest-list>"#;
    let passes = parse_guest_list(xml).unwrap();
    assert_eq!(passes[0].name, "Tom & Jerry's");
    assert_eq!(passes[0].remarks, "<>\"");
}

#[test]
fn malformed_replies_are_parse_errors() {
    match parse_guest_list("<guest-list><guest name=\"x\"") {
        Err(UnleashedError::Parse(m)) => assert_eq!(m, "malformed XML in controller reply"),
        _ => panic!("expected a parse error"),
    }
    match parse_guest_list("<guest name=\"&bogus;\"/>") {
        Err(UnleashedError::Parse(_)) => {}
        _ => panic!("expected a parse error"),
    }
}

#[test]
fn a_refusal_in_a_list_reply_is_a_controller_error() {
    match parse_guest_list(ERR_PRIVILEGE) {
        Err(UnleashedError::Controller { msg }) => assert_eq!(msg, "AD_PrivilegeInsufficient"),
        _ => panic!("expected a controller error"),
    }
}

#[test]
fn extracts_the_generated_key() {
    assert_eq!(parse_generated_key(GENERATE_KEY).unwrap(), "399711");
    match parse_generated_key("<ajax-response><xmsg type=\"0\"/></ajax-response>") {
        Err(UnleashedError::Parse(m)) => {
            assert_eq!(m, "no x-key in generate-guest-key response")
        }
        _ => panic!("expected a missing-key error"),
    }
    match parse_generated_key(ERR_DUPLICATE) {
        Err(UnleashedError::Controller { msg }) => assert_eq!(msg, "E_DuplicatedValue"),
        _ => panic!("expected a controller error"),
    }
}

#[test]
fn detects_controller_errors() {
    assert_eq!(
        controller_error(ERR_PRIVILEGE).as_deref(),
        Some("AD_PrivilegeInsufficient")
    );
    assert_eq!(controller_error(ERR_DUPLICATE).as_deref(), Some(DUPLICATE_NAME_MSG));
    assert_eq!(controller_error(GENERATE_KEY), None);
}

#[test]
fn sanitizes_names_to_the_controller_charset() {
    assert_eq!(sanitize_pass_name("Guest Pass").unwrap(), "Guest-Pass");
    assert_eq!(sanitize_pass_name("a,b;c|d").unwrap(), "abcd");
    assert_eq!(sanitize_pass_name("  spaced  ").unwrap(), "spaced");
    assert_eq!(sanitize_pass_name("Quick Pass (4 Hours)").unwrap(), "Quick-Pass-4-Hours");
    assert!(sanitize_pass_name("").is_err());
    assert_eq!(
        sanitize_pass_name("!!!").unwrap_err(),
        "name is empty after removing characters the controller rejects"
    );
    assert_eq!(sanitize_pass_name(&"x".repeat(100)).unwrap().len(), 64);
    assert_eq!(sanitize_pass_name("-dashes-").unwrap(), "dashes");
}

#[test]
fn sanitising_twice_changes_nothing() {
    for raw in ["Quick Pass (4 Hours)", "  a b  c ", "x-y", "日本 語"] {
        let once = sanitize_pass_name(raw).unwrap();
        assert_eq!(sanitize_pass_name(&once).unwrap(), once);
    }
}
