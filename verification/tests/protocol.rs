use backend::models::{GuestPass, UnleashedError};
use backend::unleashed_api::{
    ajax_request, classify_reply, controller_url, create_guest_command, find_created_pass,
    generate_key_command, interpret_create_reply, pass_name_for, xml_escape, CreateOutcome,
    CreateReply, ReplyStep, CMD_PATH,
};

#[test]
fn urls_do_not_double_the_slash() {
    assert_eq!(
        controller_url("https://u.example//", CMD_PATH),
        "https://u.example/user/_cmdstat.jsp"
    );
    assert_eq!(
        controller_url("https://u.example", CMD_PATH),
        "https://u.example/user/_cmdstat.jsp"
    );
}

#[test]
fn attribute_values_are_escaped() {
    assert_eq!(xml_escape("a&b<c>d'e\"f"), "a&amp;b&lt;c&gt;d&apos;e&quot;f");
}

/// The wire format the whole product depends on: whole hours, unlimited
/// sharing, a sanitised name.
#[test]
fn create_guest_sends_whole_hours_unlimited_sharing_and_a_sanitised_name() {
    let name = pass_name_for("Quick Pass (4 Hours)").unwrap();
    assert_eq!(name, "Quick-Pass-4-Hours");
    let cmd = create_guest_command(&name, "Grey Rock Guest", "399711", 4, 0);
    assert!(cmd.contains("cmd='create-guest'"));
    assert!(cmd.contains("duration='4'"));
    assert!(cmd.contains("duration-unit='hour'"));
    assert!(cmd.contains("share-number='0'"));
    assert!(cmd.contains("name='Quick-Pass-4-Hours'"));
    assert!(cmd.contains("x-key='399711'"));
    assert_eq!(
        cmd,
        "<xcmd cmd='create-guest' name='Quick-Pass-4-Hours' ssid='Grey Rock Guest' x-key='399711' duration='4' duration-unit='hour' share-number='0' reauth-enabled='false'/>"
    );
}

#[test]
fn an_unusable_name_is_refused_before_anything_is_sent() {
    match pass_name_for("()") {
        Err(UnleashedError::Controller { msg }) => {
            assert_eq!(msg, "name is empty after removing characters the controller rejects")
        }
        _ => panic!("expected a refusal"),
    }
}

#[test]
fn the_key_request_names_the_ssid() {
    assert_eq!(
        generate_key_command("Tom's"),
        "<xcmd cmd='generate-guest-key' ssid='Tom&apos;s'/>"
    );
}

#[test]
fn requests_are_wrapped_in_an_ajax_envelope() {
    assert_eq!(
        ajax_request("getstat", "system", "<guest-list/>", 1789589834629, 12345),
        "<ajax-request action='getstat' updater='system.1789589834629.4345' comp='system'><guest-list/></ajax-request>"
    );
    assert_eq!(
        ajax_request("docmd", "system", "", -5, 0),
        "<ajax-request action='docmd' updater='system.-5.1000' comp='system'></ajax-request>"
    );
}

#[test]
fn a_lapsed_session_is_retried_once() {
    assert!(matches!(
        classify_reply("<!DOCTYPE html><html/>".to_string(), false),
        ReplyStep::Relogin
    ));
    assert!(matches!(
        classify_reply("<!DOCTYPE html><html/>".to_string(), true),
        ReplyStep::Lapsed
    ));
    match classify_reply("<ajax-response/>".to_string(), true) {
        ReplyStep::Accept(b) => assert_eq!(b, "<ajax-response/>"),
        _ => panic!("expected the reply to be accepted"),
    }
}

/// `E_DuplicatedValue` means the pass already exists and nothing was
/// created.
#[test]
fn a_duplicated_name_maps_to_already_exists_rather_than_an_error() {
    let dup = r#"<ajax-response><response><xmsg type="-1" msg="E_DuplicatedValue" lmsg="Duplicated value."/></response></ajax-response>"#;
    assert!(matches!(interpret_create_reply(dup), CreateReply::Duplicate));
    let refused = r#"<ajax-response><xmsg type="-1" msg="E_FailGuestName"/></ajax-response>"#;
    match interpret_create_reply(refused) {
        CreateReply::Refused(m) => assert_eq!(m, "E_FailGuestName"),
        _ => panic!("expected a refusal"),
    }
    assert!(matches!(
        interpret_create_reply(r#"<ajax-response><xmsg type="0"/></ajax-response>"#),
        CreateReply::Accepted
    ));
}

fn pass(id: &str, name: &str) -> GuestPass {
    GuestPass {
        id: id.to_string(),
        name: name.to_string(),
        code: "123456".to_string(),
        ssid: "Guest".to_string(),
        created_at: 1,
        activated_at: None,
        expires_at: 2,
        valid_time_secs: 3,
        used: false,
        share_number: 0,
        client_macs: vec![],
        remarks: String::new(),
    }
}

#[test]
fn the_created_pass_is_found_by_name_after_creating_it() {
    let passes = vec![pass("3", "other"), pass("7", "Quick-Pass-4-Hours")];
    match find_created_pass(&passes, "Quick-Pass-4-Hours") {
        Ok(CreateOutcome::Created(p)) => {
            assert_eq!(p.id, "7");
            assert_eq!(p.share_number, 0);
        }
        _ => panic!("expected the created pass"),
    }
    match find_created_pass(&passes, "missing") {
        Err(UnleashedError::Parse(m)) => {
            assert_eq!(m, "created pass 'missing' not found in list")
        }
        _ => panic!("expected a not-found error"),
    }
}

/// What is escaped into an attribute reads back, through the guest-list
/// parser, as the text that was escaped.
#[test]
fn an_escaped_value_reads_back_unchanged() {
    let text = "Tom & Jerry's <\"guest\"> pass";
    let xml = format!(
        "<guest-list><guest name='{}' id='1'/></guest-list>",
        xml_escape(text)
    );
    let passes = backend::models::parse_guest_list(&xml).unwrap();
    assert_eq!(passes[0].name, text);
}
