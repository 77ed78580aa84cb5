use backend::unleashed_api::{extract_csrf_token, is_login_page, login_token};
use backend::models::UnleashedError;

#[test]
fn extracts_the_csrf_token_from_inline_script() {
    let html = r#"
        <script>
          var company = 'Ruckus Wireless';
        </script>
        <script>
var csfrToken = 'sBMp7znAEq';
</script>"#;
    assert_eq!(extract_csrf_token(html).as_deref(), Some("sBMp7znAEq"));
}

#[test]
fn returns_none_when_the_token_is_absent() {
    assert_eq!(extract_csrf_token("<html><body>nope</body></html>"), None);
}

#[test]
fn an_unterminated_token_is_absent() {
    assert_eq!(extract_csrf_token("var csfrToken = 'abc"), None);
    assert_eq!(extract_csrf_token("var csfrToken = ''").as_deref(), Some(""));
}

#[test]
fn recognises_the_login_page() {
    assert!(is_login_page("<!DOCTYPE html><html></html>"));
    assert!(is_login_page("\n  \t<!DOCTYPE html>"));
    assert!(!is_login_page("<ajax-response/>"));
    assert!(!is_login_page("<!doctype html>"));
}

#[test]
fn a_login_page_without_a_token_is_an_auth_failure() {
    assert_eq!(
        login_token("<html><script>var csfrToken = 'T0K3N';</script></html>").unwrap(),
        "T0K3N"
    );
    assert!(matches!(login_token("<html></html>"), Err(UnleashedError::Auth)));
}

/// The token is the text between the first marker and the next quote,
/// whatever follows.
#[test]
fn the_first_marker_decides_the_token() {
    let html = "<script>var x = 'a'; var csfrToken = 'tok-1'; var csfrToken = 'tok-2';</script>";
    assert_eq!(extract_csrf_token(html), Some("tok-1".to_string()));
    assert_eq!(extract_csrf_token("var csfrToken = ''"), Some(String::new()));
}
