use backend::environment::{EnvVars, Environment};

#[test]
fn parse_bool_accepts_common_spellings() {
    assert_eq!(Environment::parse_bool("true"), Ok(true));
    assert_eq!(Environment::parse_bool("YES"), Ok(true));
    assert_eq!(Environment::parse_bool(" 1 "), Ok(true));
    assert_eq!(Environment::parse_bool("false"), Ok(false));
    assert_eq!(Environment::parse_bool("no"), Ok(false));
    assert!(Environment::parse_bool("maybe").is_err());
}

#[test]
fn roll_hour_must_be_a_valid_hour() {
    assert_eq!(Environment::parse_roll_hour("0"), Ok(0));
    assert_eq!(Environment::parse_roll_hour("23"), Ok(23));
    assert!(Environment::parse_roll_hour("24").is_err());
    assert!(Environment::parse_roll_hour("-1").is_err());
}

#[test]
fn duration_hours_must_be_at_least_one() {
    assert_eq!(Environment::parse_duration_hours("24"), Ok(24));
    assert_eq!(Environment::parse_duration_hours("1"), Ok(1));
    assert!(Environment::parse_duration_hours("0").is_err());
}

#[test]
fn url_must_carry_a_scheme() {
    assert!(Environment::validate_url("unleashed.example.com").is_err());
    assert!(Environment::validate_url("https://unleashed.example.com").is_ok());
}

/// share-number 0 means unlimited devices and is the daily default.
/// A value of 1 would admit a single device and lock out every other guest.
#[test]
fn share_number_zero_is_valid_and_means_unlimited() {
    assert_eq!(Environment::parse_share_number("0"), Ok(0));
    assert_eq!(Environment::parse_share_number("5"), Ok(5));
    assert!(Environment::parse_share_number("-1").is_err());
}

#[test]
fn setting_errors_carry_their_reasons() {
    assert_eq!(
        Environment::parse_bool("maybe"),
        Err("Boolean value must be true or false, found: maybe".to_string())
    );
    assert_eq!(
        Environment::parse_roll_hour("24"),
        Err("must be 0-23, found: 24".to_string())
    );
    assert_eq!(
        Environment::parse_roll_hour(" x "),
        Err("must be an integer 0-23, found:  x ".to_string())
    );
    assert_eq!(
        Environment::parse_duration_hours("0"),
        Err("must be at least 1 hour".to_string())
    );
    assert_eq!(Environment::parse_roll_hour("+7"), Ok(7));
    assert_eq!(Environment::parse_share_number("4294967296").is_err(), true);
    assert_eq!(Environment::parse_share_number("4294967295"), Ok(4294967295));
}

fn vars() -> EnvVars {
    let unset = || Err("environment variable not found".to_string());
    EnvVars {
        unleashed_url: Ok("https://unleashed.example.com/".to_string()),
        unleashed_username: Ok("guestpass".to_string()),
        unleashed_password: Ok("secret".to_string()),
        unleashed_ssid: Ok("Guest".to_string()),
        unleashed_has_valid_cert: unset(),
        backend_bind_host: unset(),
        backend_bind_port: unset(),
        timezone: unset(),
        daily_roll_hour: unset(),
        daily_duration_hours: unset(),
        daily_share_number: unset(),
    }
}

#[test]
fn unset_settings_take_their_defaults() {
    let env = Environment::try_new(&vars()).unwrap();
    assert_eq!(env.unleashed_url, "https://unleashed.example.com/");
    assert!(env.unleashed_has_valid_cert);
    assert_eq!(env.backend_bind_host, "127.0.0.1");
    assert_eq!(env.backend_bind_port, 8080);
    assert_eq!(env.timezone.name(), "UTC");
    assert_eq!(env.daily_roll_hour, 4);
    assert_eq!(env.daily_duration_hours, 24);
    assert_eq!(env.daily_share_number, 0);
}

#[test]
fn given_settings_are_read() {
    let mut v = vars();
    v.unleashed_has_valid_cert = Ok("false".to_string());
    v.backend_bind_port = Ok("9090".to_string());
    v.timezone = Ok("America/New_York".to_string());
    v.daily_roll_hour = Ok("6".to_string());
    v.daily_duration_hours = Ok("30".to_string());
    v.daily_share_number = Ok("1".to_string());
    let env = Environment::try_new(&v).unwrap();
    assert!(!env.unleashed_has_valid_cert);
    assert_eq!(env.backend_bind_port, 9090);
    assert_eq!(env.timezone.name(), "America/New_York");
    assert_eq!(env.daily_roll_hour, 6);
    assert_eq!(env.daily_duration_hours, 30);
    assert_eq!(env.daily_share_number, 1);
}

#[test]
fn an_unknown_time_zone_falls_back_to_utc() {
    let mut v = vars();
    v.timezone = Ok("Mars/Olympus_Mons".to_string());
    assert_eq!(Environment::try_new(&v).unwrap().timezone.name(), "UTC");
}

#[test]
fn the_first_bad_setting_is_reported() {
    let mut v = vars();
    v.unleashed_url = Err("environment variable not found".to_string());
    assert_eq!(
        Environment::try_new(&v).err().unwrap(),
        "UNLEASHED_URL: environment variable not found"
    );
    let mut v = vars();
    v.unleashed_url = Ok("unleashed.example.com".to_string());
    assert_eq!(
        Environment::try_new(&v).err().unwrap(),
        "UNLEASHED_URL must start with http:// or https://"
    );
    let mut v = vars();
    v.unleashed_ssid = Err("environment variable not found".to_string());
    assert_eq!(
        Environment::try_new(&v).err().unwrap(),
        "UNLEASHED_SSID: environment variable not found"
    );
    let mut v = vars();
    v.backend_bind_port = Ok("70000".to_string());
    assert_eq!(
        Environment::try_new(&v).err().unwrap(),
        "Invalid BACKEND_BIND_PORT: number too large to fit in target type"
    );
    let mut v = vars();
    v.backend_bind_port = Ok("80a".to_string());
    assert_eq!(
        Environment::try_new(&v).err().unwrap(),
        "Invalid BACKEND_BIND_PORT: invalid digit found in string"
    );
    let mut v = vars();
    v.backend_bind_port = Ok(String::new());
    assert_eq!(
        Environment::try_new(&v).err().unwrap(),
        "Invalid BACKEND_BIND_PORT: cannot parse integer from empty string"
    );
    let mut v = vars();
    v.daily_roll_hour = Ok("25".to_string());
    v.daily_duration_hours = Ok("0".to_string());
    assert_eq!(
        Environment::try_new(&v).err().unwrap(),
        "Invalid DAILY_ROLL_HOUR: must be 0-23, found: 25"
    );
    let mut v = vars();
    v.unleashed_has_valid_cert = Ok("perhaps".to_string());
    assert_eq!(
        Environment::try_new(&v).err().unwrap(),
        "Invalid UNLEASHED_HAS_VALID_CERT: Boolean value must be true or false, found: perhaps"
    );
}
