//! The UniFi hotspot-voucher integration: the requests it makes and how it
//! reads the answers.
use vstd::prelude::*;

use crate::clock::{
    civil_date, civil_date_of, day_and_hour, day_number, local_secs, offset_at, valid_civil_date,
    CivilDate, Instant, TimeZone, MAX_DAY, MAX_TIMESTAMP, SECS_PER_DAY,
};
use crate::models::{
    opt_text, push_padded, push_year, strings_view, vouchers_view, year_text, zero_padded, DeleteResponse,
    GetSitesResponse, Voucher, VoucherView, VouchersCreateRequest, VouchersCreateResponse,
    VouchersGetRequest, VouchersGetResponse,
};
use crate::text::{
    chars_eq_str, chars_of, lower_text, occurs_at_exec, push_text, starts_with,
    string_of, to_lowercase,
};

verus! {

pub const UNIFI_API_ROUTE: &'static str = "proxy/network/integration/v1/sites";
pub const DATE_TIME_FORMAT: &'static str = "%Y-%m-%d %H:%M:%S";
pub const ROLLING_VOUCHER_NAME_PREFIX: &'static str = "[ROLLING]";
/// Vouchers are fetched this many at a time.
pub const PAGE_SIZE: u32 = 1000;

/// The instant an RFC 3339 timestamp denotes.
pub uninterp spec fn rfc3339_instant(s: Seq<char>) -> Option<Instant>;

/// The wall-clock date and time a `%Y-%m-%d %H:%M:%S` text denotes, counted
/// in seconds as if it were UTC.
pub uninterp spec fn stamp_instant(s: Seq<char>) -> Option<Instant>;

/// `chrono::DateTime::parse_from_rfc3339`, read as a timestamp and its
/// nanoseconds: the contract claims the result is `rfc3339_instant` of the
/// text.
#[verifier::external_body]
fn parse_rfc3339(s: &str) -> (r: Option<Instant>)
    ensures
        r == rfc3339_instant(s@),
{
    match chrono::DateTime::parse_from_rfc3339(s) {
        Ok(dt) => Some(Instant { secs: dt.timestamp(), nanos: dt.timestamp_subsec_nanos() }),
        Err(_) => None,
    }
}

/// `chrono::NaiveDateTime::parse_from_str` with the format
/// `%Y-%m-%d %H:%M:%S`, read through `and_utc` as a timestamp and its
/// nanoseconds: the contract claims the result is `stamp_instant` of the
/// text.
#[verifier::external_body]
fn parse_stamp(s: &str) -> (r: Option<Instant>)
    ensures
        r == stamp_instant(s@),
{
    match chrono::NaiveDateTime::parse_from_str(s, DATE_TIME_FORMAT) {
        Ok(dt) => Some(
            Instant { secs: dt.and_utc().timestamp(), nanos: dt.and_utc().timestamp_subsec_nanos() },
        ),
        Err(_) => None,
    }
}

/// A local calendar date and wall-clock time; `nanos` from one second on
/// marks a leap second.
pub struct LocalTime {
    pub date: CivilDate,
    pub hour: u32,
    pub minute: u32,
    pub second: u32,
    pub nanos: u32,
}

/// The ranges a local time's fields keep.
pub open spec fn valid_local_time(t: LocalTime) -> bool {
    &&& valid_civil_date(t.date)
    &&& t.hour < 24
    &&& t.minute < 60
    &&& t.second < 60
    &&& t.nanos < 2_000_000_000
}

/// `%Y%m%d%H%M%S` of a local time; a leap second shows as second 60.
pub open spec fn compact_stamp(t: LocalTime) -> Seq<char> {
    year_text(t.date.year as int) + zero_padded(t.date.month as nat, 2) + zero_padded(
        t.date.day as nat,
        2,
    ) + zero_padded(t.hour as nat, 2) + zero_padded(t.minute as nat, 2) + zero_padded(
        (t.second + if t.nanos >= 1_000_000_000 {
            1int
        } else {
            0int
        }) as nat,
        2,
    )
}

/// `%Y%m%d%H%M%S` of a local time.
pub fn compact_stamp_text(t: &LocalTime) -> (r: String)
    requires
        valid_local_time(*t),
    ensures
        r@ == compact_stamp(*t),
{
    let mut out: Vec<char> = Vec::new();
    push_year(&mut out, t.date.year);
    push_padded(&mut out, t.date.month as u64, 2);
    push_padded(&mut out, t.date.day as u64, 2);
    push_padded(&mut out, t.hour as u64, 2);
    push_padded(&mut out, t.minute as u64, 2);
    let sec: u32 = if t.nanos >= 1_000_000_000 {
        t.second + 1
    } else {
        t.second
    };
    push_padded(&mut out, sec as u64, 2);
    let r = string_of(&out);
    assert(r@ =~= compact_stamp(*t));
    r
}

/// Bytes percent-encoded in a URL fragment: controls, DEL, `[`, `]`, and
/// every byte of a non-ASCII character.
pub open spec fn encoded_in_fragment(b: u8) -> bool {
    b < 0x20 || b == 0x7f || b == 0x5b || b == 0x5d || b >= 0x80
}

pub open spec fn hex_digit(n: int) -> char {
    if n < 10 {
        ((48 + n) as u32) as char
    } else {
        ((55 + n) as u32) as char
    }
}

/// How one UTF-8 byte is written.
pub open spec fn encode_byte(b: u8) -> Seq<char> {
    if encoded_in_fragment(b) {
        seq!['%', hex_digit(b as int / 16), hex_digit(b as int % 16)]
    } else {
        seq![b as char]
    }
}

/// The bytes `bs` percent-encoded (`percent_encoding::utf8_percent_encode`
/// with the fragment set: controls, `[` and `]`).
pub open spec fn percent_encoded(bs: Seq<u8>) -> Seq<char>
    decreases bs.len(),
{
    if bs.len() == 0 {
        seq![]
    } else {
        percent_encoded(bs.drop_last()) + encode_byte(bs.last())
    }
}

fn hex_digit_exec(n: u8) -> (r: char)
    requires
        n < 16,
    ensures
        r == hex_digit(n as int),
{
    if n < 10 {
        (48u8 + n) as char
    } else {
        (55u8 + n) as char
    }
}

/// A text percent-encoded for a URL fragment.
pub fn encode_fragment(s: &str) -> (r: String)
    ensures
        r@ == percent_encoded(vstd::utf8::encode_utf8(s@)),
{
    let bytes = s.as_bytes();
    let mut out: Vec<char> = Vec::new();
    let mut i: usize = 0;
    while i < bytes.len()
        invariant
            i <= bytes.len(),
            bytes@ == vstd::utf8::encode_utf8(s@),
            out@ == percent_encoded(bytes@.take(i as int)),
        decreases bytes.len() - i,
    {
        let b = bytes[i];
        let ghost before = out@;
        if b < 0x20 || b == 0x7f || b == 0x5b || b == 0x5d || b >= 0x80 {
            out.push('%');
            out.push(hex_digit_exec(b / 16));
            out.push(hex_digit_exec(b % 16));
        } else {
            out.push(b as char);
        }
        assert(out@ =~= before + encode_byte(b));
        assert(bytes@.take(i + 1).drop_last() =~= bytes@.take(i as int));
        i = i + 1;
    }
    assert(bytes@.take(bytes.len() as int) =~= bytes@);
    string_of(&out)
}

/// `%Y-%m-%d %H:%M:%S` of the zone's wall-clock time at `t`; a leap second
/// (nanoseconds past one second) shows as second 60.
pub open spec fn local_stamp_text(zone: Seq<char>, t: Instant) -> Seq<char> {
    let l = local_secs(zone, t.secs as int);
    let d = civil_date_of(day_number(l));
    let r = l % 86400;
    let sec = r % 60 + if t.nanos >= 1_000_000_000 {
        1int
    } else {
        0int
    };
    year_text(d.year as int) + seq!['-'] + zero_padded(d.month as nat, 2) + seq!['-']
        + zero_padded(d.day as nat, 2) + seq![' '] + zero_padded((r / 3600) as nat, 2) + seq![':']
        + zero_padded(((r % 3600) / 60) as nat, 2) + seq![':'] + zero_padded(sec as nat, 2)
}

/// A date from the UniFi API shown in the configured zone; a text that is
/// not RFC 3339, or lies beyond the supported range of instants, is shown
/// as received.
pub open spec fn unifi_date_text(zone: Seq<char>, s: Seq<char>) -> Seq<char> {
    match rfc3339_instant(s) {
        Some(t) => if -MAX_TIMESTAMP <= t.secs <= MAX_TIMESTAMP {
            local_stamp_text(zone, t)
        } else {
            s
        },
        None => s,
    }
}

/// A voucher with its dates shown in the zone.
pub open spec fn processed_voucher(zone: Seq<char>, v: VoucherView) -> VoucherView {
    VoucherView {
        created_at: unifi_date_text(zone, v.created_at),
        activated_at: match v.activated_at {
            Some(a) => Some(unifi_date_text(zone, a)),
            None => None,
        },
        expires_at: match v.expires_at {
            Some(e) => Some(unifi_date_text(zone, e)),
            None => None,
        },
        ..v
    }
}

/// What the UniFi client is configured with.
pub struct UnifiSettings {
    pub unifi_controller_url: String,
    pub unifi_api_key: String,
    pub unifi_has_valid_cert: bool,
    pub unifi_site_id: String,
    pub timezone: TimeZone,
    pub rolling_voucher_duration_minutes: u64,
}

/// The UniFi integration API of one controller and site: where its requests
/// go and how it shows what comes back. The HTTP client that sends them is
/// held by the caller.
pub struct UnifiAPI {
    pub sites_api_url: String,
    pub voucher_api_url: String,
    pub settings: UnifiSettings,
}

impl UnifiAPI {
    /// The configured zone's name.
    pub open spec fn zone(&self) -> Seq<char> {
        self.settings.timezone@
    }

    /// An RFC 3339 date from the UniFi API, shown in the configured zone.
    pub fn format_unifi_date(&self, rfc3339: &str) -> (r: String)
        ensures
            r@ == unifi_date_text(self.zone(), rfc3339@),
    {
        let tz = &self.settings.timezone;
        let t = match parse_rfc3339(rfc3339) {
            Some(t) => t,
            None => return rfc3339.to_string(),
        };
        if !(-MAX_TIMESTAMP <= t.secs && t.secs <= MAX_TIMESTAMP) {
            return rfc3339.to_string();
        }
        let off = offset_at(tz, t.secs);
        let local = t.secs + off as i64;
        let (day, _hour) = day_and_hour(local);
        assert(-MAX_DAY <= day <= MAX_DAY) by (nonlinear_arith)
            requires
                day == local / 86400,
                -MAX_TIMESTAMP - SECS_PER_DAY <= local <= MAX_TIMESTAMP + SECS_PER_DAY,
        ;
        let d = civil_date(day);
        let r: i64 = local - day * SECS_PER_DAY;
        assert(r == local as int % 86400) by (nonlinear_arith)
            requires
                day == local / 86400,
                r == local - day * 86400,
        ;
        let sec: i64 = r % 60 + if t.nanos >= 1_000_000_000 {
            1
        } else {
            0
        };
        let mut out: Vec<char> = Vec::new();
        push_year(&mut out, d.year);
        out.push('-');
        push_padded(&mut out, d.month as u64, 2);
        out.push('-');
        push_padded(&mut out, d.day as u64, 2);
        out.push(' ');
        push_padded(&mut out, (r / 3600) as u64, 2);
        out.push(':');
        push_padded(&mut out, ((r % 3600) / 60) as u64, 2);
        out.push(':');
        push_padded(&mut out, sec as u64, 2);
        let res = string_of(&out);
        assert(res@ =~= local_stamp_text(self.zone(), t));
        res
    }

    /// Show a voucher's dates in the configured zone.
    pub fn process_voucher(&self, voucher: &mut Voucher)
        ensures
            final(voucher)@ == processed_voucher(self.zone(), old(voucher)@),
    {
        voucher.created_at = self.format_unifi_date(voucher.created_at.as_str());
        voucher.activated_at = match &voucher.activated_at {
            Some(a) => Some(self.format_unifi_date(a.as_str())),
            None => None,
        };
        voucher.expires_at = match &voucher.expires_at {
            Some(e) => Some(self.format_unifi_date(e.as_str())),
            None => None,
        };
    }

    /// Show every voucher's dates in the configured zone.
    pub fn process_vouchers(&self, vouchers: Vec<Voucher>) -> (r: Vec<Voucher>)
        ensures
            r@.len() == vouchers@.len(),
            forall|i: int|
                0 <= i < r@.len() ==> r@[i]@ == #[trigger] processed_voucher(self.zone(), vouchers@[i]@),
    {
        let mut out: Vec<Voucher> = Vec::new();
        let mut i: usize = 0;
        while i < vouchers.len()
            invariant
                i <= vouchers.len(),
                out@.len() == i,
                forall|k: int|
                    0 <= k < i ==> out@[k]@ == #[trigger] processed_voucher(self.zone(), vouchers@[k]@),
            decreases vouchers.len() - i,
        {
            let mut v = vouchers[i].copy();
            self.process_voucher(&mut v);
            out.push(v);
            i = i + 1;
        }
        out
    }
}

/// The ordering key of a voucher: its `created_at`, which the client has
/// already shown as `%Y-%m-%d %H:%M:%S` in the configured zone, read as that
/// wall-clock time; 1970-01-01 00:00:00 when it does not read so.
pub open spec fn voucher_key(v: VoucherView) -> Instant {
    match stamp_instant(v.created_at) {
        Some(t) => t,
        None => Instant { secs: 0, nanos: 0 },
    }
}

/// `a` is at least `b`, as instants.
pub open spec fn instant_ge(a: Instant, b: Instant) -> bool {
    a.secs > b.secs || (a.secs == b.secs && a.nanos >= b.nanos)
}

/// A voucher this app minted for an IP (its name carries the prefix).
pub open spec fn is_rolling(v: VoucherView) -> bool {
    starts_with(v.name, ROLLING_VOUCHER_NAME_PREFIX@)
}

pub open spec fn eligible(v: VoucherView, unused_rolling_only: bool) -> bool {
    !unused_rolling_only || (is_rolling(v) && v.activated_at is None)
}

/// Among the first `n` eligible vouchers, the index of the one with the
/// greatest key; of several, the one listed last (`max_by_key`).
pub open spec fn newest_voucher(vs: Seq<VoucherView>, n: int, unused_rolling_only: bool) -> Option<
    int,
>
    decreases n,
{
    if n <= 0 {
        None
    } else {
        let prev = newest_voucher(vs, n - 1, unused_rolling_only);
        if eligible(vs[n - 1], unused_rolling_only) {
            match prev {
                Some(j) => if instant_ge(voucher_key(vs[n - 1]), voucher_key(vs[j])) {
                    Some(n - 1)
                } else {
                    Some(j)
                },
                None => Some(n - 1),
            }
        } else {
            prev
        }
    }
}

fn voucher_key_exec(v: &Voucher) -> (r: Instant)
    ensures
        r == voucher_key(v@),
{
    match parse_stamp(v.created_at.as_str()) {
        Some(t) => t,
        None => Instant { secs: 0, nanos: 0 },
    }
}

fn newest_index(vouchers: &Vec<Voucher>, unused_rolling_only: bool) -> (r: Option<usize>)
    ensures
        r matches Some(j) ==> j < vouchers.len(),
        match newest_voucher(vouchers_view(vouchers@), vouchers@.len() as int, unused_rolling_only) {
            Some(j) => r == Some(j as usize),
            None => r is None,
        },
{
    let ghost vv = vouchers_view(vouchers@);
    let prefix = chars_of(ROLLING_VOUCHER_NAME_PREFIX);
    let mut best: Option<usize> = None;
    let mut best_key = Instant { secs: 0, nanos: 0 };
    let mut k: usize = 0;
    while k < vouchers.len()
        invariant
            k <= vouchers.len(),
            vv == vouchers_view(vouchers@),
            prefix@ == ROLLING_VOUCHER_NAME_PREFIX@,
            match newest_voucher(vv, k as int, unused_rolling_only) {
                Some(j) => best matches Some(b) && b == j && j < k && best_key == voucher_key(
                    vv[j],
                ),
                None => best is None,
            },
        decreases vouchers.len() - k,
    {
        let v = &vouchers[k];
        assert(vv[k as int] == v@);
        let ok = if unused_rolling_only {
            let name = chars_of(v.name.as_str());
            occurs_at_exec(&name, &prefix, 0) && v.activated_at.is_none()
        } else {
            true
        };
        if ok {
            let key = voucher_key_exec(v);
            match best {
                Some(_) => {
                    if key.secs > best_key.secs || (key.secs == best_key.secs && key.nanos
                        >= best_key.nanos) {
                        best = Some(k);
                        best_key = key;
                    }
                },
                None => {
                    best = Some(k);
                    best_key = key;
                },
            }
        }
        k = k + 1;
    }
    best
}

/// Voucher `j` is eligible, no eligible voucher has a later key, and every
/// eligible voucher listed after it has an earlier one (of equally recent
/// vouchers, the one listed last).
pub open spec fn is_newest(vs: Seq<VoucherView>, j: int, unused_rolling_only: bool) -> bool {
    &&& eligible(vs[j], unused_rolling_only)
    &&& forall|k: int|
        0 <= k < vs.len() && eligible(#[trigger] vs[k], unused_rolling_only) ==> instant_ge(
            voucher_key(vs[j]),
            voucher_key(vs[k]),
        )
    &&& forall|k: int|
        j < k < vs.len() && eligible(#[trigger] vs[k], unused_rolling_only) ==> !instant_ge(
            voucher_key(vs[k]),
            voucher_key(vs[j]),
        )
}

proof fn lemma_vouchers_view_index(v: Seq<Voucher>)
    ensures
        vouchers_view(v).len() == v.len(),
        forall|k: int| 0 <= k < v.len() ==> #[trigger] vouchers_view(v)[k] == v[k]@,
{
}

/// The most recent rolling voucher that is unused.
pub fn pick_rolling_voucher(vouchers: &Vec<Voucher>) -> (r: Option<Voucher>)
    ensures
        match newest_voucher(vouchers_view(vouchers@), vouchers@.len() as int, true) {
            Some(j) => r matches Some(v) && v@ == vouchers@[j]@,
            None => r is None,
        },
        r is None <==> forall|k: int|
            0 <= k < vouchers@.len() ==> !eligible(#[trigger] vouchers@[k]@, true),
        r matches Some(v) ==> exists|j: int|
            0 <= j < vouchers@.len() && v@ == #[trigger] vouchers@[j]@ && is_newest(
                vouchers_view(vouchers@),
                j,
                true,
            ),
{
    proof {
        lemma_newest_voucher(vouchers_view(vouchers@), vouchers@.len() as int, true);
        lemma_vouchers_view_index(vouchers@);
    }
    match newest_index(vouchers, true) {
        Some(j) => {
            assert(vouchers_view(vouchers@)[j as int] == vouchers@[j as int]@);
            assert(eligible(vouchers@[j as int]@, true));
            Some(vouchers[j].copy())
        },
        None => {
            assert forall|k: int| 0 <= k < vouchers@.len() implies !eligible(
                #[trigger] vouchers@[k]@,
                true,
            ) by {
                assert(vouchers_view(vouchers@)[k] == vouchers@[k]@);
            }
            None
        },
    }
}

/// The newest voucher; 404 when there is none.
pub fn pick_newest_voucher(vouchers: &Vec<Voucher>) -> (r: Result<Voucher, u16>)
    ensures
        vouchers@.len() == 0 ==> r == Err::<Voucher, u16>(404),
        vouchers@.len() > 0 ==> match newest_voucher(
            vouchers_view(vouchers@),
            vouchers@.len() as int,
            false,
        ) {
            Some(j) => r matches Ok(v) && v@ == vouchers@[j]@,
            None => false,
        },
        r matches Ok(v) ==> exists|j: int|
            0 <= j < vouchers@.len() && v@ == #[trigger] vouchers@[j]@ && is_newest(
                vouchers_view(vouchers@),
                j,
                false,
            ),
{
    if vouchers.len() == 0 {
        return Err(404);
    }
    proof {
        lemma_newest_voucher_exists(vouchers_view(vouchers@), vouchers@.len() as int);
        lemma_newest_voucher(vouchers_view(vouchers@), vouchers@.len() as int, false);
        lemma_vouchers_view_index(vouchers@);
    }
    match newest_index(vouchers, false) {
        Some(j) => {
            assert(vouchers_view(vouchers@)[j as int] == vouchers@[j as int]@);
            Ok(vouchers[j].copy())
        },
        None => Err(404),
    }
}

/// The voucher `newest_voucher` picks is eligible, its key is at least that
/// of every eligible voucher, and every eligible voucher listed after it has
/// a smaller key; there is none only when no voucher is eligible.
proof fn lemma_newest_voucher(vs: Seq<VoucherView>, n: int, unused_rolling_only: bool)
    requires
        0 <= n <= vs.len(),
    ensures
        newest_voucher(vs, n, unused_rolling_only) matches Some(j) ==> {
            &&& 0 <= j < n
            &&& eligible(vs[j], unused_rolling_only)
            &&& forall|k: int|
                0 <= k < n && eligible(#[trigger] vs[k], unused_rolling_only) ==> instant_ge(
                    voucher_key(vs[j]),
                    voucher_key(vs[k]),
                )
            &&& forall|k: int|
                j < k < n && eligible(#[trigger] vs[k], unused_rolling_only) ==> !instant_ge(
                    voucher_key(vs[k]),
                    voucher_key(vs[j]),
                )
        },
        newest_voucher(vs, n, unused_rolling_only) is None ==> forall|k: int|
            0 <= k < n ==> !eligible(#[trigger] vs[k], unused_rolling_only),
    decreases n,
{
    if n > 0 {
        lemma_newest_voucher(vs, n - 1, unused_rolling_only);
    }
}

proof fn lemma_newest_voucher_exists(vs: Seq<VoucherView>, n: int)
    requires
        0 < n,
    ensures
        newest_voucher(vs, n, false) is Some,
    decreases n,
{
    if n > 1 {
        lemma_newest_voucher_exists(vs, n - 1);
    }
}

/// `s` ends with `p`.
pub open spec fn ends_with(s: Seq<char>, p: Seq<char>) -> bool {
    p.len() <= s.len() && s.subrange(s.len() - p.len(), s.len() as int) == p
}

/// An unexpired rolling voucher already names this IP.
pub open spec fn has_rolling_voucher_for(vs: Seq<VoucherView>, ip: Seq<char>) -> bool {
    exists|i: int|
        0 <= i < vs.len() && !(#[trigger] vs[i]).expired && is_rolling(vs[i]) && ends_with(
            vs[i].name,
            ip,
        )
}

/// Whether an unexpired rolling voucher already names this IP.
pub fn check_rolling_voucher_ip(vouchers: &Vec<Voucher>, ip: &str) -> (r: bool)
    ensures
        r == has_rolling_voucher_for(vouchers_view(vouchers@), ip@),
{
    let ghost vv = vouchers_view(vouchers@);
    let prefix = chars_of(ROLLING_VOUCHER_NAME_PREFIX);
    let ipv = chars_of(ip);
    let mut k: usize = 0;
    while k < vouchers.len()
        invariant
            k <= vouchers.len(),
            vv == vouchers_view(vouchers@),
            prefix@ == ROLLING_VOUCHER_NAME_PREFIX@,
            ipv@ == ip@,
            forall|i: int|
                0 <= i < k ==> !(!(#[trigger] vv[i]).expired && is_rolling(vv[i]) && ends_with(
                    vv[i].name,
                    ip@,
                )),
        decreases vouchers.len() - k,
    {
        let v = &vouchers[k];
        assert(vv[k as int] == v@);
        let name = chars_of(v.name.as_str());
        if !v.expired && occurs_at_exec(&name, &prefix, 0) && ipv.len() <= name.len()
            && occurs_at_exec(&name, &ipv, name.len() - ipv.len()) {
            return true;
        }
        k = k + 1;
    }
    false
}

/// Path of a site's hotspot vouchers, after the site's id.
pub const VOUCHERS_PATH: &'static str = "/hotspot/vouchers";
/// The query that asks for the default site.
pub const DEFAULT_SITE_QUERY: &'static str = "?filter=or(internalReference.eq('default'),name.eq('Default'))";
/// A configured site id that asks for the default site (in any case).
pub const DEFAULT_SITE_ID: &'static str = "default";
pub const FILTER_QUERY: &'static str = "?filter=";
pub const FILTER_OR_QUERY: &'static str = "?filter=or(";
pub const ID_EQ: &'static str = "id.eq(";
pub const EXPIRED_QUERY: &'static str = "?filter=expired.eq(true)";
pub const EXPIRED_NAMED_QUERY: &'static str = "?filter=and(expired.eq(true),name.like('";
pub const NAME_PATTERN_END: &'static str = "*'))";

pub open spec fn sites_url_of(controller: Seq<char>) -> Seq<char> {
    controller + seq!['/'] + UNIFI_API_ROUTE@
}

pub open spec fn voucher_url_of(sites: Seq<char>, site: Seq<char>) -> Seq<char> {
    sites + seq!['/'] + site + VOUCHERS_PATH@
}

/// `id.eq(<id>)`.
pub open spec fn id_filter(id: Seq<char>) -> Seq<char> {
    ID_EQ@ + id + seq![')']
}

/// The id filters, comma-separated.
pub open spec fn joined_filters(ids: Seq<Seq<char>>) -> Seq<char>
    decreases ids.len(),
{
    if ids.len() == 0 {
        seq![]
    } else if ids.len() == 1 {
        id_filter(ids[0])
    } else {
        joined_filters(ids.drop_last()) + seq![','] + id_filter(ids.last())
    }
}

/// Where a deletion of these ids goes: nowhere when there is no id (or one
/// empty id); one filter alone, or several under `or(..)`.
pub open spec fn delete_by_ids_url_of(base: Seq<char>, ids: Seq<Seq<char>>) -> Option<Seq<char>> {
    if ids.len() == 0 || (ids.len() == 1 && ids[0].len() == 0) {
        None
    } else if ids.len() == 1 {
        Some(base + FILTER_QUERY@ + joined_filters(ids))
    } else {
        Some(base + FILTER_OR_QUERY@ + joined_filters(ids) + seq![')'])
    }
}

/// The name of a rolling voucher minted at local time `stamp` for `ip`.
pub open spec fn rolling_name(stamp: Seq<char>, ip: Seq<char>) -> Seq<char> {
    ROLLING_VOUCHER_NAME_PREFIX@ + seq![' '] + stamp + seq!['-'] + ip
}

/// What a request comes to, given whether it was sent (the status, or the
/// status its error carried, if any) and whether the body read as the
/// expected JSON: an error status, 500 for a failure without one, or success.
pub open spec fn request_outcome_of(sent: Result<u16, Option<u16>>, body_parsed: bool) -> Result<
    (),
    u16,
> {
    match sent {
        Err(Some(s)) => Err(s),
        Err(None) => Err(500),
        Ok(s) => if 400 <= s <= 599 {
            Err(s)
        } else if !body_parsed {
            Err(500)
        } else {
            Ok(())
        },
    }
}

/// The outcome of asking the controller for the default site, as values.
pub open spec fn lookup_view(l: Option<Result<String, u16>>) -> Option<Result<Seq<char>, u16>> {
    match l {
        Some(Ok(id)) => Some(Ok(id@)),
        Some(Err(s)) => Some(Err(s)),
        None => None,
    }
}

/// The site the voucher requests go to: the configured id, unless it asks
/// for the default site (`default`, in any case), whose id the controller
/// gives; a failed lookup is its status, and no lookup at all is 404.
pub open spec fn site_choice(site_id: Seq<char>, lookup: Option<Result<Seq<char>, u16>>) -> Result<
    Seq<char>,
    u16,
> {
    if lower_text(site_id) != DEFAULT_SITE_ID@ {
        Ok(site_id)
    } else {
        match lookup {
            Some(r) => r,
            None => Err(404),
        }
    }
}

/// Where the voucher requests of a client of `controller` go once its site
/// is chosen: `<controller>/proxy/network/integration/v1/sites/<site>/hotspot/vouchers`.
pub proof fn lemma_voucher_url(
    controller: Seq<char>,
    site_id: Seq<char>,
    lookup: Option<Result<Seq<char>, u16>>,
)
    ensures
        site_choice(site_id, lookup) matches Ok(site) ==> voucher_url_of(
            sites_url_of(controller),
            site,
        ) == controller + "/proxy/network/integration/v1/sites/"@ + site + "/hotspot/vouchers"@,
{
    reveal_strlit("proxy/network/integration/v1/sites");
    reveal_strlit("/proxy/network/integration/v1/sites/");
    reveal_strlit("/hotspot/vouchers");
    if let Ok(site) = site_choice(site_id, lookup) {
        assert(voucher_url_of(sites_url_of(controller), site) =~= controller
            + "/proxy/network/integration/v1/sites/"@ + site + "/hotspot/vouchers"@);
    }
}

/// The kinds of request made to the controller.
pub enum RequestType {
    Get,
    Post,
    Delete,
}

/// Whether a request can go out: a POST without a body is refused with 400
/// before anything is sent.
pub fn body_check(request_type: &RequestType, has_body: bool) -> (r: Result<(), u16>)
    ensures
        r == if request_type is Post && !has_body {
            Err::<(), u16>(400)
        } else {
            Ok(())
        },
{
    match request_type {
        RequestType::Post => if has_body {
            Ok(())
        } else {
            Err(400)
        },
        _ => Ok(()),
    }
}

/// How a request to the controller ended, after it was sent (`sent` is the
/// status, or the status the transport error carried) and its body read as
/// JSON of the expected shape or not.
pub fn request_outcome(sent: Result<u16, Option<u16>>, body_parsed: bool) -> (r: Result<(), u16>)
    ensures
        r == request_outcome_of(sent, body_parsed),
{
    match sent {
        Err(Some(s)) => Err(s),
        Err(None) => Err(500),
        Ok(s) => {
            if 400 <= s && s <= 599 {
                Err(s)
            } else if !body_parsed {
                Err(500)
            } else {
                Ok(())
            }
        },
    }
}

/// The id of the default site, from the controller's answer: the first site
/// listed, or 404 when none is.
pub fn default_site_id(response: &GetSitesResponse) -> (r: Result<String, u16>)
    ensures
        response.data@.len() == 0 ==> r == Err::<String, u16>(404),
        response.data@.len() > 0 ==> (r matches Ok(id) && id@ == response.data@[0].id@),
{
    if response.data.len() == 0 {
        return Err(404);
    }
    Ok(response.data[0].id.clone())
}

/// The voucher the controller reports as created first; 500 when it reports
/// none.
pub fn first_created_voucher(response: &VouchersCreateResponse) -> (r: Result<Voucher, u16>)
    ensures
        response.vouchers@.len() == 0 ==> r == Err::<Voucher, u16>(500),
        response.vouchers@.len() > 0 ==> (r matches Ok(v) && v@ == response.vouchers@[0]@),
{
    if response.vouchers.len() == 0 {
        return Err(500);
    }
    Ok(response.vouchers[0].copy())
}

/// The answer to a deletion that had nothing to delete.
pub fn nothing_deleted() -> (r: DeleteResponse)
    ensures
        r.vouchers_deleted == 0,
{
    DeleteResponse { vouchers_deleted: 0 }
}

fn push_id_filter(out: &mut Vec<char>, id: &String)
    ensures
        final(out)@ == old(out)@ + id_filter(id@),
{
    push_text(out, ID_EQ);
    push_text(out, id.as_str());
    out.push(')');
}

fn push_joined_filters(out: &mut Vec<char>, ids: &Vec<String>)
    ensures
        final(out)@ == old(out)@ + joined_filters(strings_view(ids@)),
{
    let ghost start = out@;
    let ghost sv = strings_view(ids@);
    let mut i: usize = 0;
    while i < ids.len()
        invariant
            i <= ids.len(),
            sv == strings_view(ids@),
            out@ == start + joined_filters(sv.take(i as int)),
        decreases ids.len() - i,
    {
        let ghost before = out@;
        if i > 0 {
            out.push(',');
        }
        push_id_filter(out, &ids[i]);
        proof {
            let t = sv.take(i + 1);
            assert(t.drop_last() =~= sv.take(i as int));
            assert(t.last() == ids@[i as int]@);
            if i == 0 {
                assert(sv.take(0) =~= Seq::<Seq<char>>::empty());
                assert(out@ =~= start + joined_filters(t));
            } else {
                assert(out@ =~= start + joined_filters(t));
            }
        }
        i = i + 1;
    }
    assert(sv.take(ids.len() as int) =~= sv);
}

impl UnifiAPI {
    /// A client of the controller's sites API; the voucher URL waits for
    /// the site's id (see `with_site`).
    pub fn new(settings: UnifiSettings) -> (r: UnifiAPI)
        ensures
            r.sites_api_url@ == sites_url_of(settings.unifi_controller_url@),
            r.voucher_api_url@.len() == 0,
            r.settings == settings,
    {
        let mut out: Vec<char> = chars_of(settings.unifi_controller_url.as_str());
        out.push('/');
        push_text(&mut out, UNIFI_API_ROUTE);
        let sites = string_of(&out);
        UnifiAPI { sites_api_url: sites, voucher_api_url: String::new(), settings }
    }

    /// The configured site id, or `None` when it asks for the default site
    /// (`default`, in any case), whose id the controller must be asked for.
    pub fn configured_site_id(&self) -> (r: Option<String>)
        ensures
            r is None <==> lower_text(self.settings.unifi_site_id@) == DEFAULT_SITE_ID@,
            r matches Some(id) ==> id@ == self.settings.unifi_site_id@,
    {
        let lower = to_lowercase(self.settings.unifi_site_id.as_str());
        let lv = chars_of(lower.as_str());
        if chars_eq_str(&lv, DEFAULT_SITE_ID) {
            None
        } else {
            Some(self.settings.unifi_site_id.clone())
        }
    }

    /// Point the voucher requests at a site.
    pub fn with_site(&mut self, site_id: &str)
        ensures
            final(self).voucher_api_url@ == voucher_url_of(old(self).sites_api_url@, site_id@),
            final(self).sites_api_url == old(self).sites_api_url,
            final(self).settings == old(self).settings,
    {
        let mut out: Vec<char> = chars_of(self.sites_api_url.as_str());
        out.push('/');
        push_text(&mut out, site_id);
        push_text(&mut out, VOUCHERS_PATH);
        self.voucher_api_url = string_of(&out);
    }

    /// Point the voucher requests at the site the settings name: the
    /// configured one, or, when the default site is asked for, the id the
    /// controller gave (`default_site`, the outcome of asking it); a failed
    /// lookup is passed on and nothing changes, and a missing one (the
    /// default site asked for but not looked up) is 404.
    pub fn select_site(&mut self, default_site: Option<Result<String, u16>>) -> (r: Result<(), u16>)
        ensures
            r is Ok <==> site_choice(old(self).settings.unifi_site_id@, lookup_view(default_site))
                is Ok,
            final(self).settings == old(self).settings,
            final(self).sites_api_url == old(self).sites_api_url,
            match site_choice(old(self).settings.unifi_site_id@, lookup_view(default_site)) {
                Ok(id) => final(self).voucher_api_url@ == voucher_url_of(
                    old(self).sites_api_url@,
                    id,
                ),
                Err(s) => r == Err::<(), u16>(s) && final(self).voucher_api_url
                    == old(self).voucher_api_url,
            },
    {
        match self.configured_site_id() {
            Some(id) => {
                self.with_site(id.as_str());
                Ok(())
            },
            None => match default_site {
                Some(Ok(id)) => {
                    self.with_site(id.as_str());
                    Ok(())
                },
                Some(Err(s)) => Err(s),
                None => Err(404),
            },
        }
    }

    /// Where the default site is asked for.
    pub fn default_site_url(&self) -> (r: String)
        ensures
            r@ == self.sites_api_url@ + DEFAULT_SITE_QUERY@,
    {
        let mut out: Vec<char> = chars_of(self.sites_api_url.as_str());
        push_text(&mut out, DEFAULT_SITE_QUERY);
        string_of(&out)
    }

    /// Where one voucher's details are asked for.
    pub fn voucher_details_url(&self, id: &str) -> (r: String)
        ensures
            r@ == self.voucher_api_url@ + seq!['/'] + id@,
    {
        let mut out: Vec<char> = chars_of(self.voucher_api_url.as_str());
        out.push('/');
        push_text(&mut out, id);
        string_of(&out)
    }

    /// Where a deletion of these vouchers goes; `None` when there is
    /// nothing to delete.
    pub fn delete_by_ids_url(&self, ids: &Vec<String>) -> (r: Option<String>)
        ensures
            opt_text(r) == delete_by_ids_url_of(self.voucher_api_url@, strings_view(ids@)),
    {
        if ids.len() == 0 || (ids.len() == 1 && ids[0].as_str().is_empty()) {
            proof {
                if ids.len() == 1 {
                    assert(strings_view(ids@)[0] == ids@[0]@);
                }
            }
            return None;
        }
        proof {
            if ids.len() == 1 {
                assert(strings_view(ids@)[0] == ids@[0]@);
            }
        }
        let mut out: Vec<char> = chars_of(self.voucher_api_url.as_str());
        if ids.len() == 1 {
            push_text(&mut out, FILTER_QUERY);
            push_joined_filters(&mut out, ids);
        } else {
            push_text(&mut out, FILTER_OR_QUERY);
            push_joined_filters(&mut out, ids);
            out.push(')');
        }
        Some(string_of(&out))
    }

    /// Where the deletion of every expired voucher goes.
    pub fn delete_expired_url(&self) -> (r: String)
        ensures
            r@ == self.voucher_api_url@ + EXPIRED_QUERY@,
    {
        let mut out: Vec<char> = chars_of(self.voucher_api_url.as_str());
        push_text(&mut out, EXPIRED_QUERY);
        string_of(&out)
    }

    /// Where the deletion of the expired rolling vouchers goes: the name
    /// pattern is the prefix, percent-encoded, then `*`.
    pub fn delete_expired_rolling_url(&self) -> (r: String)
        ensures
            r@ == self.voucher_api_url@ + EXPIRED_NAMED_QUERY@ + percent_encoded(
                vstd::utf8::encode_utf8(ROLLING_VOUCHER_NAME_PREFIX@),
            ) + NAME_PATTERN_END@,
    {
        let mut out: Vec<char> = chars_of(self.voucher_api_url.as_str());
        push_text(&mut out, EXPIRED_NAMED_QUERY);
        let prefix = encode_fragment(ROLLING_VOUCHER_NAME_PREFIX);
        push_text(&mut out, prefix.as_str());
        push_text(&mut out, NAME_PATTERN_END);
        string_of(&out)
    }

    /// The request for one rolling voucher for `ip`, named with the local
    /// time `stamp` (`%Y%m%d%H%M%S`).
    pub fn rolling_voucher_request_at(&self, stamp: &str, ip: &str) -> (r: VouchersCreateRequest)
        ensures
            r.count == 1,
            r.name@ == rolling_name(stamp@, ip@),
            r.time_limit_minutes == self.settings.rolling_voucher_duration_minutes,
            r.authorized_guest_limit is None,
            r.data_usage_limit_mbytes is None,
            r.tx_rate_limit_kbps is None,
            r.rx_rate_limit_kbps is None,
    {
        let mut out: Vec<char> = chars_of(ROLLING_VOUCHER_NAME_PREFIX);
        out.push(' ');
        push_text(&mut out, stamp);
        out.push('-');
        push_text(&mut out, ip);
        VouchersCreateRequest {
            count: 1,
            name: string_of(&out),
            time_limit_minutes: self.settings.rolling_voucher_duration_minutes,
            authorized_guest_limit: None,
            data_usage_limit_mbytes: None,
            tx_rate_limit_kbps: None,
            rx_rate_limit_kbps: None,
        }
    }

    /// The request for one rolling voucher for `ip`, named with the local
    /// time `now`, which the caller reads from the clock.
    pub fn rolling_voucher_request(&self, now: &LocalTime, ip: &str) -> (r: VouchersCreateRequest)
        requires
            valid_local_time(*now),
        ensures
            r.name@ == rolling_name(compact_stamp(*now), ip@),
            r.count == 1,
            r.time_limit_minutes == self.settings.rolling_voucher_duration_minutes,
            r.authorized_guest_limit is None,
            r.data_usage_limit_mbytes is None,
            r.tx_rate_limit_kbps is None,
            r.rx_rate_limit_kbps is None,
    {
        let stamp = compact_stamp_text(now);
        self.rolling_voucher_request_at(stamp.as_str(), ip)
    }
}

/// The vouchers gathered page by page, and the request for the next page.
pub struct VoucherPages {
    pub request: VouchersGetRequest,
    pub vouchers: Vec<Voucher>,
    pub total_count: u64,
}

/// Where a walk over the pages stands: the offset of the next request, the
/// vouchers gathered so far and the total the last page reported.
pub struct PagesView {
    pub offset: int,
    pub vouchers: Seq<VoucherView>,
    pub total_count: int,
}

impl View for VoucherPages {
    type V = PagesView;

    open spec fn view(&self) -> PagesView {
        PagesView {
            offset: self.request.offset as int,
            vouchers: vouchers_view(self.vouchers@),
            total_count: self.total_count as int,
        }
    }
}

/// How many vouchers a page counts as bringing (its length as a `u32`).
pub open spec fn received(data: Seq<VoucherView>) -> int {
    (data.len() as u32) as int
}

/// Taking in one page with these vouchers and this total: the new state,
/// and whether another page is to be asked for.
pub open spec fn absorb_step(st: PagesView, data: Seq<VoucherView>, total: int) -> (PagesView, bool) {
    if received(data) == 0 {
        (PagesView { total_count: total, ..st }, false)
    } else {
        let off = st.offset + received(data);
        (PagesView { offset: off, vouchers: st.vouchers + data, total_count: total }, off < total)
    }
}

/// The state after taking in `pages` (each its vouchers and total), in order.
pub open spec fn walk(st: PagesView, pages: Seq<(Seq<VoucherView>, int)>) -> PagesView
    decreases pages.len(),
{
    if pages.len() == 0 {
        st
    } else {
        walk(absorb_step(st, pages[0].0, pages[0].1).0, pages.drop_first())
    }
}

/// The vouchers the pages bring, in order.
pub open spec fn gathered(pages: Seq<(Seq<VoucherView>, int)>) -> Seq<VoucherView>
    decreases pages.len(),
{
    if pages.len() == 0 {
        seq![]
    } else {
        (if received(pages[0].0) == 0 {
            seq![]
        } else {
            pages[0].0
        }) + gathered(pages.drop_first())
    }
}

/// How many vouchers the pages count as bringing.
pub open spec fn received_total(pages: Seq<(Seq<VoucherView>, int)>) -> int
    decreases pages.len(),
{
    if pages.len() == 0 {
        0
    } else {
        received(pages[0].0) + received_total(pages.drop_first())
    }
}

/// Walking pages gathers their vouchers in page order, and the next request
/// asks from the offset advanced by every voucher received; the total is
/// the one the last page reported. Applied to the first `i` pages, this is
/// the offset the `i`-th request uses.
pub proof fn lemma_walk(st: PagesView, pages: Seq<(Seq<VoucherView>, int)>)
    ensures
        walk(st, pages).vouchers == st.vouchers + gathered(pages),
        walk(st, pages).offset == st.offset + received_total(pages),
        pages.len() > 0 ==> walk(st, pages).total_count == pages.last().1,
        pages.len() == 0 ==> walk(st, pages) == st,
    decreases pages.len(),
{
    if pages.len() == 0 {
        assert(st.vouchers + gathered(pages) =~= st.vouchers);
    } else {
        let st1 = absorb_step(st, pages[0].0, pages[0].1).0;
        let rest = pages.drop_first();
        lemma_walk(st1, rest);
        let c0 = if received(pages[0].0) == 0 {
            Seq::<VoucherView>::empty()
        } else {
            pages[0].0
        };
        assert(st1.vouchers =~= st.vouchers + c0);
        assert(st.vouchers + c0 + gathered(rest) =~= st.vouchers + gathered(pages));
        if rest.len() > 0 {
            assert(rest.last() == pages.last());
        }
    }
}

impl VoucherPages {
    /// Before the first page: offset 0, `PAGE_SIZE` at a time.
    pub fn new() -> (r: VoucherPages)
        ensures
            r@ == (PagesView { offset: 0, vouchers: seq![], total_count: 0 }),
            r.request.offset == 0,
            r.request.limit == PAGE_SIZE,
            r.request.filter is None,
            r.vouchers@.len() == 0,
            r.total_count == 0,
    {
        let r = VoucherPages {
            request: VouchersGetRequest { offset: 0, limit: PAGE_SIZE, filter: None },
            vouchers: Vec::new(),
            total_count: 0,
        };
        assert(vouchers_view(r.vouchers@) =~= seq![]);
        r
    }

    /// Take in one page; whether another page is to be asked for. An empty
    /// page ends the walk (whatever the total says), and so does an offset
    /// that reaches the total.
    pub fn absorb(&mut self, page: VouchersGetResponse) -> (more: bool)
        requires
            old(self).request.offset + (page.data@.len() as u32) <= u32::MAX,
        ensures
            (final(self)@, more) == absorb_step(
                old(self)@,
                vouchers_view(page.data@),
                page.total_count as int,
            ),
            final(self).total_count == page.total_count,
            final(self).request.limit == old(self).request.limit,
            final(self).request.filter == old(self).request.filter,
            (page.data@.len() as u32) == 0 ==> {
                &&& !more
                &&& final(self).vouchers@ == old(self).vouchers@
                &&& final(self).request.offset == old(self).request.offset
            },
            (page.data@.len() as u32) != 0 ==> {
                &&& final(self).vouchers@ == old(self).vouchers@ + page.data@
                &&& final(self).request.offset == old(self).request.offset + (
                page.data@.len() as u32)
                &&& more == (final(self).request.offset < page.total_count)
            },
    {
        self.total_count = page.total_count;
        let received = page.data.len() as u32;
        if received == 0 {
            return false;
        }
        let ghost before = self.vouchers@;
        let ghost added = page.data@;
        let mut data = page.data;
        self.vouchers.append(&mut data);
        assert(vouchers_view(before + added) =~= vouchers_view(before) + vouchers_view(added));
        self.request.offset = self.request.offset + received;
        !(self.request.offset as u64 >= self.total_count)
    }

    /// The gathered vouchers as one answer, with their dates shown in the
    /// API's zone.
    pub fn finish(self, api: &UnifiAPI) -> (r: VouchersGetResponse)
        ensures
            r.offset == 0,
            r.limit == PAGE_SIZE,
            r.count == (self.vouchers@.len() as u32),
            r.total_count == self.total_count,
            r.data@.len() == self.vouchers@.len(),
            forall|i: int|
                0 <= i < r.data@.len() ==> r.data@[i]@ == #[trigger] processed_voucher(
                    api.zone(),
                    self.vouchers@[i]@,
                ),
    {
        let count = self.vouchers.len() as u32;
        VouchersGetResponse {
            offset: 0,
            limit: PAGE_SIZE,
            count,
            total_count: self.total_count,
            data: api.process_vouchers(self.vouchers),
        }
    }
}

} // verus!
