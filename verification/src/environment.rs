//! Configuration: reading and checking the settings the backend starts with.
use vstd::prelude::*;

use crate::clock::{lookup_time_zone, utc_zone, zone_by_name, TimeZone};
use crate::decimal::{digit_value, is_digit, parse_u32, u32_text};
use crate::models::{decimal_text, push_decimal};
use crate::text::{
    lower_text, to_lowercase, chars_eq_str, chars_of, push_text, starts_with, string_from, string_of, trim, trim_bounds,
};

verus! {

pub const DEFAULT_BACKEND_BIND_HOST: &'static str = "127.0.0.1";
pub const DEFAULT_BACKEND_BIND_PORT: u16 = 8080;
pub const DEFAULT_DAILY_ROLL_HOUR: u32 = 4;
pub const DEFAULT_DAILY_DURATION_HOURS: u32 = 24;
/// 0 means unlimited devices may share the pass.
pub const DEFAULT_DAILY_SHARE_NUMBER: u32 = 0;

/// How `parse_bool` reads a setting.
pub open spec fn bool_setting(s: Seq<char>) -> Result<bool, Seq<char>> {
    let l = lower_text(trim(s));
    if l == "true"@ || l == "1"@ || l == "yes"@ {
        Ok(true)
    } else if l == "false"@ || l == "0"@ || l == "no"@ {
        Ok(false)
    } else {
        Err("Boolean value must be true or false, found: "@ + s)
    }
}

/// A `u32` setting, surrounding whitespace ignored.
pub open spec fn u32_setting(s: Seq<char>) -> Option<int> {
    u32_text(trim(s))
}

/// How `parse_roll_hour` reads a setting: an hour 0-23.
pub open spec fn roll_hour_setting(s: Seq<char>) -> Result<int, Seq<char>> {
    match u32_setting(s) {
        None => Err("must be an integer 0-23, found: "@ + s),
        Some(h) => if h > 23 {
            Err("must be 0-23, found: "@ + decimal_text(h as nat))
        } else {
            Ok(h)
        },
    }
}

/// How `parse_duration_hours` reads a setting: at least one hour.
pub open spec fn duration_hours_setting(s: Seq<char>) -> Result<int, Seq<char>> {
    match u32_setting(s) {
        None => Err("must be a positive integer, found: "@ + s),
        Some(h) => if h == 0 {
            Err("must be at least 1 hour"@)
        } else {
            Ok(h)
        },
    }
}

/// How `parse_share_number` reads a setting: any `u32`, 0 meaning
/// unlimited devices.
pub open spec fn share_number_setting(s: Seq<char>) -> Result<int, Seq<char>> {
    match u32_setting(s) {
        None => Err("must be a non-negative integer (0 = unlimited), found: "@ + s),
        Some(n) => Ok(n),
    }
}

/// Whether a URL carries an `http://` or `https://` scheme.
pub open spec fn has_http_scheme(url: Seq<char>) -> bool {
    starts_with(url, "http://"@) || starts_with(url, "https://"@)
}

pub const URL_SCHEME_MSG: &'static str = "UNLEASHED_URL must start with http:// or https://";

/// `prefix` followed by `rest`.
fn join(prefix: &str, rest: &str) -> (r: String)
    ensures
        r@ == prefix@ + rest@,
{
    let mut out = chars_of(prefix);
    push_text(&mut out, rest);
    string_of(&out)
}

/// The characters of `s` with surrounding whitespace removed.
fn trimmed_chars(s: &str) -> (r: Vec<char>)
    ensures
        r@ == trim(s@),
{
    let v = chars_of(s);
    let (a, b) = trim_bounds(&v);
    let t = string_from(&v, a, b);
    chars_of(t.as_str())
}

#[derive(Debug)]
pub struct Environment {
    pub unleashed_url: String,
    pub unleashed_username: String,
    pub unleashed_password: String,
    pub unleashed_ssid: String,
    pub unleashed_has_valid_cert: bool,
    pub backend_bind_host: String,
    pub backend_bind_port: u16,
    pub timezone: TimeZone,
    pub daily_roll_hour: u32,
    pub daily_duration_hours: u32,
    pub daily_share_number: u32,
}

impl Environment {
    pub fn validate_url(url: &str) -> (r: Result<(), String>)
        ensures
            has_http_scheme(url@) ==> r is Ok,
            !has_http_scheme(url@) ==> (r matches Err(m) && m@ == URL_SCHEME_MSG@),
    {
        let v = chars_of(url);
        let http = chars_of("http://");
        let https = chars_of("https://");
        if crate::text::occurs_at_exec(&v, &http, 0) || crate::text::occurs_at_exec(&v, &https, 0) {
            Ok(())
        } else {
            Err(URL_SCHEME_MSG.to_string())
        }
    }

    pub fn parse_bool(s: &str) -> (r: Result<bool, String>)
        ensures
            match bool_setting(s@) {
                Ok(b) => r == Ok::<bool, String>(b),
                Err(m) => r matches Err(e) && e@ == m,
            },
    {
        let t = trimmed_chars(s);
        let ts = string_of(&t);
        let low = to_lowercase(ts.as_str());
        let l = chars_of(low.as_str());
        if chars_eq_str(&l, "true") || chars_eq_str(&l, "1") || chars_eq_str(&l, "yes") {
            Ok(true)
        } else if chars_eq_str(&l, "false") || chars_eq_str(&l, "0") || chars_eq_str(&l, "no") {
            Ok(false)
        } else {
            Err(join("Boolean value must be true or false, found: ", s))
        }
    }

    pub fn parse_roll_hour(s: &str) -> (r: Result<u32, String>)
        ensures
            match roll_hour_setting(s@) {
                Ok(h) => r matches Ok(v) && v == h,
                Err(m) => r matches Err(e) && e@ == m,
            },
    {
        let t = trimmed_chars(s);
        match parse_u32(&t) {
            None => Err(join("must be an integer 0-23, found: ", s)),
            Some(hour) => {
                if hour > 23 {
                    let mut out = chars_of("must be 0-23, found: ");
                    push_decimal(&mut out, hour as u64);
                    let m = string_of(&out);
                    assert(m@ =~= "must be 0-23, found: "@ + decimal_text(hour as nat));
                    Err(m)
                } else {
                    Ok(hour)
                }
            },
        }
    }

    pub fn parse_duration_hours(s: &str) -> (r: Result<u32, String>)
        ensures
            match duration_hours_setting(s@) {
                Ok(h) => r matches Ok(v) && v == h,
                Err(m) => r matches Err(e) && e@ == m,
            },
    {
        let t = trimmed_chars(s);
        match parse_u32(&t) {
            None => Err(join("must be a positive integer, found: ", s)),
            Some(hours) => {
                if hours == 0 {
                    Err("must be at least 1 hour".to_string())
                } else {
                    Ok(hours)
                }
            },
        }
    }

    pub fn parse_share_number(s: &str) -> (r: Result<u32, String>)
        ensures
            match share_number_setting(s@) {
                Ok(n) => r matches Ok(v) && v == n,
                Err(m) => r matches Err(e) && e@ == m,
            },
    {
        let t = trimmed_chars(s);
        match parse_u32(&t) {
            None => Err(join("must be a non-negative integer (0 = unlimited), found: ", s)),
            Some(n) => Ok(n),
        }
    }
}

/// Why a number could not be read (`std::num::IntErrorKind`).
#[derive(PartialEq, Eq, Structural, Clone, Copy, Debug)]
pub enum IntErrorKind {
    Empty,
    InvalidDigit,
    PosOverflow,
}

/// The message `ParseIntError` displays for each kind.
pub open spec fn int_error_text(k: IntErrorKind) -> Seq<char> {
    match k {
        IntErrorKind::Empty => "cannot parse integer from empty string"@,
        IntErrorKind::InvalidDigit => "invalid digit found in string"@,
        IntErrorKind::PosOverflow => "number too large to fit in target type"@,
    }
}

/// Reading digits left to right from `i`, with `acc` read so far: the first
/// non-digit or the first digit that takes the value past `u16::MAX` ends
/// the reading with that error.
pub open spec fn u16_digits_from(s: Seq<char>, i: int, acc: int) -> Result<int, IntErrorKind>
    decreases s.len() - i,
{
    if i < 0 || i >= s.len() {
        Ok(acc)
    } else if !is_digit(s[i]) {
        Err(IntErrorKind::InvalidDigit)
    } else {
        let a = acc * 10 + digit_value(s[i]);
        if a > u16::MAX {
            Err(IntErrorKind::PosOverflow)
        } else {
            u16_digits_from(s, i + 1, a)
        }
    }
}

/// `str::parse::<u16>()`.
pub open spec fn u16_text(s: Seq<char>) -> Result<int, IntErrorKind> {
    if s.len() == 0 {
        Err(IntErrorKind::Empty)
    } else if (s[0] == '+' || s[0] == '-') && s.len() == 1 {
        Err(IntErrorKind::InvalidDigit)
    } else if s[0] == '+' {
        u16_digits_from(s, 1, 0)
    } else {
        u16_digits_from(s, 0, 0)
    }
}

/// Read a port number (`str::parse::<u16>()`).
pub fn parse_port(s: &str) -> (r: Result<u16, IntErrorKind>)
    ensures
        match u16_text(s@) {
            Ok(n) => r matches Ok(v) && v == n,
            Err(k) => r == Err::<u16, IntErrorKind>(k),
        },
{
    let v = chars_of(s);
    if v.len() == 0 {
        return Err(IntErrorKind::Empty);
    }
    if (v[0] == '+' || v[0] == '-') && v.len() == 1 {
        return Err(IntErrorKind::InvalidDigit);
    }
    let mut i: usize = if v[0] == '+' { 1 } else { 0 };
    let mut acc: u32 = 0;
    while i < v.len()
        invariant
            i <= v.len(),
            v@ == s@,
            acc <= u16::MAX,
            u16_text(s@) == u16_digits_from(v@, i as int, acc as int),
        decreases v.len() - i,
    {
        let c = v[i];
        if !('0' <= c && c <= '9') {
            return Err(IntErrorKind::InvalidDigit);
        }
        let a = acc * 10 + (c as u32 - '0' as u32);
        if a > 65535 {
            return Err(IntErrorKind::PosOverflow);
        }
        acc = a;
        i = i + 1;
    }
    Ok(acc as u16)
}

pub fn int_error_message(k: IntErrorKind) -> (r: String)
    ensures
        r@ == int_error_text(k),
{
    match k {
        IntErrorKind::Empty => "cannot parse integer from empty string".to_string(),
        IntErrorKind::InvalidDigit => "invalid digit found in string".to_string(),
        IntErrorKind::PosOverflow => "number too large to fit in target type".to_string(),
    }
}

/// The raw settings: each variable's value, or why it could not be read.
pub struct EnvVars {
    pub unleashed_url: Result<String, String>,
    pub unleashed_username: Result<String, String>,
    pub unleashed_password: Result<String, String>,
    pub unleashed_ssid: Result<String, String>,
    pub unleashed_has_valid_cert: Result<String, String>,
    pub backend_bind_host: Result<String, String>,
    pub backend_bind_port: Result<String, String>,
    pub timezone: Result<String, String>,
    pub daily_roll_hour: Result<String, String>,
    pub daily_duration_hours: Result<String, String>,
    pub daily_share_number: Result<String, String>,
}

pub open spec fn var_view(v: Result<String, String>) -> Result<Seq<char>, Seq<char>> {
    match v {
        Ok(s) => Ok(s@),
        Err(e) => Err(e@),
    }
}

pub struct EnvVarsView {
    pub unleashed_url: Result<Seq<char>, Seq<char>>,
    pub unleashed_username: Result<Seq<char>, Seq<char>>,
    pub unleashed_password: Result<Seq<char>, Seq<char>>,
    pub unleashed_ssid: Result<Seq<char>, Seq<char>>,
    pub unleashed_has_valid_cert: Result<Seq<char>, Seq<char>>,
    pub backend_bind_host: Result<Seq<char>, Seq<char>>,
    pub backend_bind_port: Result<Seq<char>, Seq<char>>,
    pub timezone: Result<Seq<char>, Seq<char>>,
    pub daily_roll_hour: Result<Seq<char>, Seq<char>>,
    pub daily_duration_hours: Result<Seq<char>, Seq<char>>,
    pub daily_share_number: Result<Seq<char>, Seq<char>>,
}

impl View for EnvVars {
    type V = EnvVarsView;

    open spec fn view(&self) -> EnvVarsView {
        EnvVarsView {
            unleashed_url: var_view(self.unleashed_url),
            unleashed_username: var_view(self.unleashed_username),
            unleashed_password: var_view(self.unleashed_password),
            unleashed_ssid: var_view(self.unleashed_ssid),
            unleashed_has_valid_cert: var_view(self.unleashed_has_valid_cert),
            backend_bind_host: var_view(self.backend_bind_host),
            backend_bind_port: var_view(self.backend_bind_port),
            timezone: var_view(self.timezone),
            daily_roll_hour: var_view(self.daily_roll_hour),
            daily_duration_hours: var_view(self.daily_duration_hours),
            daily_share_number: var_view(self.daily_share_number),
        }
    }
}

pub struct EnvView {
    pub unleashed_url: Seq<char>,
    pub unleashed_username: Seq<char>,
    pub unleashed_password: Seq<char>,
    pub unleashed_ssid: Seq<char>,
    pub unleashed_has_valid_cert: bool,
    pub backend_bind_host: Seq<char>,
    pub backend_bind_port: int,
    pub timezone: Seq<char>,
    pub daily_roll_hour: int,
    pub daily_duration_hours: int,
    pub daily_share_number: int,
}

impl View for Environment {
    type V = EnvView;

    open spec fn view(&self) -> EnvView {
        EnvView {
            unleashed_url: self.unleashed_url@,
            unleashed_username: self.unleashed_username@,
            unleashed_password: self.unleashed_password@,
            unleashed_ssid: self.unleashed_ssid@,
            unleashed_has_valid_cert: self.unleashed_has_valid_cert,
            backend_bind_host: self.backend_bind_host@,
            backend_bind_port: self.backend_bind_port as int,
            timezone: self.timezone@,
            daily_roll_hour: self.daily_roll_hour as int,
            daily_duration_hours: self.daily_duration_hours as int,
            daily_share_number: self.daily_share_number as int,
        }
    }
}

/// A required variable: its value, or `NAME: reason`.
pub open spec fn required_var(v: Result<Seq<char>, Seq<char>>, name: Seq<char>) -> Result<
    Seq<char>,
    Seq<char>,
> {
    match v {
        Ok(s) => Ok(s),
        Err(e) => Err(name + ": "@ + e),
    }
}

/// An optional setting read with `read`, or `default` when unset.
pub open spec fn optional_setting(
    v: Result<Seq<char>, Seq<char>>,
    read: Result<int, Seq<char>>,
    default: int,
    name: Seq<char>,
) -> Result<int, Seq<char>> {
    match v {
        Ok(_) => match read {
            Ok(n) => Ok(n),
            Err(m) => Err("Invalid "@ + name + ": "@ + m),
        },
        Err(_) => Ok(default),
    }
}

pub open spec fn cert_setting(v: Result<Seq<char>, Seq<char>>) -> Result<bool, Seq<char>> {
    match v {
        Ok(s) => match bool_setting(s) {
            Ok(b) => Ok(b),
            Err(m) => Err("Invalid "@ + "UNLEASHED_HAS_VALID_CERT"@ + ": "@ + m),
        },
        Err(_) => Ok(true),
    }
}

pub open spec fn port_setting(v: Result<Seq<char>, Seq<char>>) -> Result<int, Seq<char>> {
    match v {
        Ok(s) => match u16_text(s) {
            Ok(n) => Ok(n),
            Err(k) => Err("Invalid "@ + "BACKEND_BIND_PORT"@ + ": "@ + int_error_text(k)),
        },
        Err(_) => Ok(DEFAULT_BACKEND_BIND_PORT as int),
    }
}

pub open spec fn text_of(r: Result<int, Seq<char>>) -> Seq<char> {
    match r {
        Err(m) => m,
        Ok(_) => seq![],
    }
}

pub open spec fn value_of(r: Result<int, Seq<char>>) -> int {
    match r {
        Ok(n) => n,
        Err(_) => 0,
    }
}

/// The zone a `TIMEZONE` setting names; UTC when unset or unknown.
pub open spec fn zone_setting(v: Result<Seq<char>, Seq<char>>) -> Seq<char> {
    match v {
        Ok(s) => match zone_by_name(s) {
            Some(z) => z,
            None => "UTC"@,
        },
        Err(_) => "UTC"@,
    }
}

/// The configuration the settings describe, or the first problem with them,
/// checked in this order: URL (present, then scheme), username, password,
/// SSID, certificate flag, port, roll hour, duration, share number.
pub open spec fn environment_from(v: EnvVarsView) -> Result<EnvView, Seq<char>> {
    let roll = optional_setting(
        v.daily_roll_hour,
        roll_hour_setting(v.daily_roll_hour->Ok_0),
        DEFAULT_DAILY_ROLL_HOUR as int,
        "DAILY_ROLL_HOUR"@,
    );
    let duration = optional_setting(
        v.daily_duration_hours,
        duration_hours_setting(v.daily_duration_hours->Ok_0),
        DEFAULT_DAILY_DURATION_HOURS as int,
        "DAILY_DURATION_HOURS"@,
    );
    let share = optional_setting(
        v.daily_share_number,
        share_number_setting(v.daily_share_number->Ok_0),
        DEFAULT_DAILY_SHARE_NUMBER as int,
        "DAILY_SHARE_NUMBER"@,
    );
    match required_var(v.unleashed_url, "UNLEASHED_URL"@) {
        Err(m) => Err(m),
        Ok(url) => if !has_http_scheme(url) {
            Err(URL_SCHEME_MSG@)
        } else {
            match (
                required_var(v.unleashed_username, "UNLEASHED_USERNAME"@),
                required_var(v.unleashed_password, "UNLEASHED_PASSWORD"@),
                required_var(v.unleashed_ssid, "UNLEASHED_SSID"@),
            ) {
                (Err(m), _, _) => Err(m),
                (Ok(_), Err(m), _) => Err(m),
                (Ok(_), Ok(_), Err(m)) => Err(m),
                (Ok(user), Ok(pass), Ok(ssid)) => match cert_setting(v.unleashed_has_valid_cert) {
                    Err(m) => Err(m),
                    Ok(cert) => match port_setting(v.backend_bind_port) {
                        Err(m) => Err(m),
                        Ok(port) => if roll is Err {
                            Err(text_of(roll))
                        } else if duration is Err {
                            Err(text_of(duration))
                        } else if share is Err {
                            Err(text_of(share))
                        } else {
                            Ok(
                                EnvView {
                                    unleashed_url: url,
                                    unleashed_username: user,
                                    unleashed_password: pass,
                                    unleashed_ssid: ssid,
                                    unleashed_has_valid_cert: cert,
                                    backend_bind_host: match v.backend_bind_host {
                                        Ok(h) => h,
                                        Err(_) => DEFAULT_BACKEND_BIND_HOST@,
                                    },
                                    backend_bind_port: port,
                                    timezone: zone_setting(v.timezone),
                                    daily_roll_hour: value_of(roll),
                                    daily_duration_hours: value_of(duration),
                                    daily_share_number: value_of(share),
                                },
                            )
                        },
                    },
                },
            }
        },
    }
}

fn required(v: &Result<String, String>, name: &str) -> (r: Result<String, String>)
    ensures
        match required_var(var_view(*v), name@) {
            Ok(s) => r matches Ok(x) && x@ == s,
            Err(m) => r matches Err(x) && x@ == m,
        },
{
    match v {
        Ok(s) => Ok(s.clone()),
        Err(e) => {
            let mut out = chars_of(name);
            push_text(&mut out, ": ");
            push_text(&mut out, e.as_str());
            let m = string_of(&out);
            assert(m@ =~= name@ + ": "@ + e@);
            Err(m)
        },
    }
}

fn invalid(name: &str, why: &str) -> (r: String)
    ensures
        r@ == "Invalid "@ + name@ + ": "@ + why@,
{
    let mut out = chars_of("Invalid ");
    push_text(&mut out, name);
    push_text(&mut out, ": ");
    push_text(&mut out, why);
    let m = string_of(&out);
    assert(m@ =~= "Invalid "@ + name@ + ": "@ + why@);
    m
}

impl Environment {
    /// The configuration the settings describe, or the first problem with
    /// them.
    pub fn try_new(vars: &EnvVars) -> (r: Result<Environment, String>)
        ensures
            match environment_from(vars@) {
                Ok(e) => r matches Ok(x) && x@ == e,
                Err(m) => r matches Err(x) && x@ == m,
            },
    {
        let unleashed_url = match required(&vars.unleashed_url, "UNLEASHED_URL") {
            Ok(u) => u,
            Err(m) => return Err(m),
        };
        if Self::validate_url(unleashed_url.as_str()).is_err() {
            return Err(URL_SCHEME_MSG.to_string());
        }
        let unleashed_username = match required(&vars.unleashed_username, "UNLEASHED_USERNAME") {
            Ok(u) => u,
            Err(m) => return Err(m),
        };
        let unleashed_password = match required(&vars.unleashed_password, "UNLEASHED_PASSWORD") {
            Ok(u) => u,
            Err(m) => return Err(m),
        };
        let unleashed_ssid = match required(&vars.unleashed_ssid, "UNLEASHED_SSID") {
            Ok(u) => u,
            Err(m) => return Err(m),
        };
        let unleashed_has_valid_cert = match &vars.unleashed_has_valid_cert {
            Ok(v) => match Self::parse_bool(v.as_str()) {
                Ok(b) => b,
                Err(e) => return Err(invalid("UNLEASHED_HAS_VALID_CERT", e.as_str())),
            },
            Err(_) => true,
        };
        let backend_bind_host = match &vars.backend_bind_host {
            Ok(h) => h.clone(),
            Err(_) => DEFAULT_BACKEND_BIND_HOST.to_string(),
        };
        let backend_bind_port = match &vars.backend_bind_port {
            Ok(v) => match parse_port(v.as_str()) {
                Ok(p) => p,
                Err(k) => {
                    let why = int_error_message(k);
                    return Err(invalid("BACKEND_BIND_PORT", why.as_str()));
                },
            },
            Err(_) => DEFAULT_BACKEND_BIND_PORT,
        };
        let daily_roll_hour = match &vars.daily_roll_hour {
            Ok(v) => match Self::parse_roll_hour(v.as_str()) {
                Ok(h) => h,
                Err(e) => return Err(invalid("DAILY_ROLL_HOUR", e.as_str())),
            },
            Err(_) => DEFAULT_DAILY_ROLL_HOUR,
        };
        let daily_duration_hours = match &vars.daily_duration_hours {
            Ok(v) => match Self::parse_duration_hours(v.as_str()) {
                Ok(h) => h,
                Err(e) => return Err(invalid("DAILY_DURATION_HOURS", e.as_str())),
            },
            Err(_) => DEFAULT_DAILY_DURATION_HOURS,
        };
        let daily_share_number = match &vars.daily_share_number {
            Ok(v) => match Self::parse_share_number(v.as_str()) {
                Ok(n) => n,
                Err(e) => return Err(invalid("DAILY_SHARE_NUMBER", e.as_str())),
            },
            Err(_) => DEFAULT_DAILY_SHARE_NUMBER,
        };
        let timezone = match &vars.timezone {
            Ok(s) => match lookup_time_zone(s.as_str()) {
                Some(tz) => tz,
                None => utc_zone(),
            },
            Err(_) => utc_zone(),
        };
        Ok(
            Environment {
                unleashed_url,
                unleashed_username,
                unleashed_password,
                unleashed_ssid,
                unleashed_has_valid_cert,
                backend_bind_host,
                backend_bind_port,
                timezone,
                daily_roll_hour,
                daily_duration_hours,
                daily_share_number,
            },
        )
    }
}

/// A configuration built from the settings carries each setting that was
/// given: the required values as they are, the bind host when it is set
/// (the default only when it is not), the port as `u16` parsing reads it,
/// the roll hour (at most 23), duration (never zero) and share number as
/// `u32` parsing reads the trimmed text, each default only when unset, and
/// the certificate flag `true` unless it was set.
pub proof fn lemma_settings_are_kept(v: EnvVarsView)
    ensures
        environment_from(v) matches Ok(e) ==> {
            &&& v.unleashed_url == Ok::<Seq<char>, Seq<char>>(e.unleashed_url)
            &&& v.unleashed_username == Ok::<Seq<char>, Seq<char>>(e.unleashed_username)
            &&& v.unleashed_password == Ok::<Seq<char>, Seq<char>>(e.unleashed_password)
            &&& v.unleashed_ssid == Ok::<Seq<char>, Seq<char>>(e.unleashed_ssid)
            &&& (v.backend_bind_host matches Ok(h) ==> e.backend_bind_host == h)
            &&& (v.backend_bind_host is Err ==> e.backend_bind_host == DEFAULT_BACKEND_BIND_HOST@)
            &&& (v.backend_bind_port matches Ok(p) ==> u16_text(p) == Ok::<int, IntErrorKind>(
                e.backend_bind_port,
            ))
            &&& (v.backend_bind_port is Err ==> e.backend_bind_port == DEFAULT_BACKEND_BIND_PORT)
            &&& (v.unleashed_has_valid_cert is Err ==> e.unleashed_has_valid_cert)
            &&& (v.daily_roll_hour matches Ok(t) ==> u32_text(trim(t)) == Some(e.daily_roll_hour))
            &&& (v.daily_roll_hour is Err ==> e.daily_roll_hour == DEFAULT_DAILY_ROLL_HOUR)
            &&& e.daily_roll_hour <= 23
            &&& (v.daily_duration_hours matches Ok(t) ==> u32_text(trim(t)) == Some(
                e.daily_duration_hours,
            ))
            &&& e.daily_duration_hours != 0
            &&& (v.daily_share_number matches Ok(t) ==> u32_text(trim(t)) == Some(
                e.daily_share_number,
            ))
            &&& (v.daily_share_number is Err ==> e.daily_share_number == DEFAULT_DAILY_SHARE_NUMBER)
        },
{
}

} // verus!
