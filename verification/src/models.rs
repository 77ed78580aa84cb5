//! Guest passes and the controller's replies that describe them.
use vstd::prelude::*;

use crate::clock::CivilDate;
use crate::decimal::{
    all_digits, digit_value, digits_value, i64_text, is_digit, parse_i64, parse_u32, u32_text,
};
use crate::text::{
    chars_eq_str, chars_of, drop_trailing_char, drop_trailing_ws, is_whitespace, is_ws,
    lemma_drop_trailing_char, lemma_skip_char, skip_char, skip_ws, string_from, string_of, trim,
    trim_bounds,
};
use crate::xml::{
    attr_lookup, attr_value, attrs_view, scan, scan_tags, tags_view, TagKind, TagView, XmlAttr,
    XmlTag,
};

verus! {

/// Returned by the controller when a pass name is already taken. Nothing is
/// created. The daily task treats this as success -- it is what makes the
/// rotation idempotent without a read-before-write race.
pub const DUPLICATE_NAME_MSG: &'static str = "E_DuplicatedValue";

/// Reason given when a reply does not follow the XML grammar.
pub const MALFORMED_REPLY_MSG: &'static str = "malformed XML in controller reply";

/// Reason given when a `generate-guest-key` reply carries no key.
pub const MISSING_KEY_MSG: &'static str = "no x-key in generate-guest-key response";

#[derive(Debug)]
pub enum UnleashedError {
    /// The request did not complete (transport failure).
    Http(String),
    /// Login did not yield a CSRF token.
    Auth,
    /// The session lapsed and re-authenticating did not restore it.
    SessionLapsed,
    /// The controller refused the request with this error code.
    Controller { msg: String },
    /// A reply could not be read.
    Parse(String),
}

pub enum ErrorView {
    Http(Seq<char>),
    Auth,
    SessionLapsed,
    Controller(Seq<char>),
    Parse(Seq<char>),
}

impl View for UnleashedError {
    type V = ErrorView;

    open spec fn view(&self) -> ErrorView {
        match self {
            UnleashedError::Http(m) => ErrorView::Http(m@),
            UnleashedError::Auth => ErrorView::Auth,
            UnleashedError::SessionLapsed => ErrorView::SessionLapsed,
            UnleashedError::Controller { msg } => ErrorView::Controller(msg@),
            UnleashedError::Parse(m) => ErrorView::Parse(m@),
        }
    }
}

#[derive(Clone, Debug)]
pub struct GuestPass {
    pub id: String,
    pub name: String,
    /// The guest-facing code (the controller's `x-key`).
    pub code: String,
    pub ssid: String,
    pub created_at: i64,
    /// None until the guest first uses the pass.
    pub activated_at: Option<i64>,
    /// For an unused pass this is the deadline to first use; for a used pass
    /// it is when access ends.
    pub expires_at: i64,
    /// Seconds of access the pass grants.
    pub valid_time_secs: i64,
    pub used: bool,
    /// 0 means unlimited devices.
    pub share_number: u32,
    pub client_macs: Vec<String>,
    pub remarks: String,
}

pub struct GuestPassView {
    pub id: Seq<char>,
    pub name: Seq<char>,
    pub code: Seq<char>,
    pub ssid: Seq<char>,
    pub created_at: int,
    pub activated_at: Option<int>,
    pub expires_at: int,
    pub valid_time_secs: int,
    pub used: bool,
    pub share_number: int,
    pub client_macs: Seq<Seq<char>>,
    pub remarks: Seq<char>,
}

pub open spec fn strings_view(v: Seq<String>) -> Seq<Seq<char>> {
    v.map_values(|s: String| s@)
}

pub open spec fn opt_int(o: Option<i64>) -> Option<int> {
    match o {
        Some(v) => Some(v as int),
        None => None,
    }
}

impl View for GuestPass {
    type V = GuestPassView;

    open spec fn view(&self) -> GuestPassView {
        GuestPassView {
            id: self.id@,
            name: self.name@,
            code: self.code@,
            ssid: self.ssid@,
            created_at: self.created_at as int,
            activated_at: opt_int(self.activated_at),
            expires_at: self.expires_at as int,
            valid_time_secs: self.valid_time_secs as int,
            used: self.used,
            share_number: self.share_number as int,
            client_macs: strings_view(self.client_macs@),
            remarks: self.remarks@,
        }
    }
}

pub open spec fn passes_view(v: Seq<GuestPass>) -> Seq<GuestPassView> {
    v.map_values(|p: GuestPass| p@)
}

/// A list of strings with the same contents.
pub fn copy_strings(v: &Vec<String>) -> (r: Vec<String>)
    ensures
        strings_view(r@) == strings_view(v@),
{
    let mut r: Vec<String> = Vec::new();
    let mut i: usize = 0;
    while i < v.len()
        invariant
            i <= v.len(),
            strings_view(r@) == strings_view(v@.take(i as int)),
        decreases v.len() - i,
    {
        let ghost before = r@;
        r.push(v[i].clone());
        assert(strings_view(r@) =~= strings_view(before).push(v@[i as int]@));
        assert(v@.take(i + 1) =~= v@.take(i as int).push(v@[i as int]));
        assert(strings_view(v@.take(i + 1)) =~= strings_view(v@.take(i as int)).push(
            v@[i as int]@,
        ));
        i = i + 1;
    }
    assert(v@.take(v.len() as int) =~= v@);
    r
}

impl GuestPass {
    /// A pass with the same contents.
    pub fn copy(&self) -> (r: GuestPass)
        ensures
            r@ == self@,
    {
        GuestPass {
            id: self.id.clone(),
            name: self.name.clone(),
            code: self.code.clone(),
            ssid: self.ssid.clone(),
            created_at: self.created_at,
            activated_at: self.activated_at,
            expires_at: self.expires_at,
            valid_time_secs: self.valid_time_secs,
            used: self.used,
            share_number: self.share_number,
            client_macs: copy_strings(&self.client_macs),
            remarks: self.remarks.clone(),
        }
    }
}

/// The body of `/api/health`.
#[derive(Clone, Debug)]
pub struct HealthCheckResponse {
    /// `ok` when the controller answered the last round-trip, else
    /// `degraded`.
    pub status: String,
    /// False when today's pass is missing, only a stale one was found, or
    /// the controller cannot confirm it.
    pub daily_pass_current: bool,
    pub controller_reachable: bool,
}

/// A request to create a pass.
#[derive(Clone, Debug)]
pub struct CreatePassRequest {
    pub name: String,
    /// Whole hours of access.
    pub duration_hours: u32,
    /// 0 means unlimited devices.
    pub share_number: u32,
}

/// Text of an attribute, or the empty text when it is absent.
pub open spec fn text_attr(attrs: Seq<(Seq<char>, Seq<char>)>, key: Seq<char>) -> Seq<char> {
    match attr_value(attrs, key) {
        Some(v) => v,
        None => seq![],
    }
}

/// An `i64` attribute, or 0 when it is absent or not a number.
pub open spec fn int_attr(attrs: Seq<(Seq<char>, Seq<char>)>, key: Seq<char>) -> int {
    match attr_value(attrs, key) {
        Some(v) => match i64_text(v) {
            Some(n) => n,
            None => 0,
        },
        None => 0,
    }
}

/// The pass a `<guest>` element describes. `start-time` is empty on an
/// unused pass, which reads as "not activated" rather than 0.
pub open spec fn pass_from_attrs(attrs: Seq<(Seq<char>, Seq<char>)>) -> GuestPassView {
    GuestPassView {
        id: text_attr(attrs, "id"@),
        name: text_attr(attrs, "name"@),
        code: text_attr(attrs, "x-key"@),
        ssid: text_attr(attrs, "ssid"@),
        created_at: int_attr(attrs, "create-time"@),
        activated_at: match attr_value(attrs, "start-time"@) {
            Some(v) => if v.len() > 0 {
                i64_text(v)
            } else {
                None
            },
            None => None,
        },
        expires_at: int_attr(attrs, "expire-time"@),
        valid_time_secs: int_attr(attrs, "valid-time"@),
        used: attr_value(attrs, "used"@) == Some("true"@),
        share_number: match attr_value(attrs, "share-number"@) {
            Some(v) => match u32_text(v) {
                Some(n) => n,
                None => 0,
            },
            None => 0,
        },
        client_macs: seq![],
        remarks: text_attr(attrs, "remarks"@),
    }
}

fn text_attr_exec(attrs: &Vec<XmlAttr>, key: &str) -> (r: String)
    ensures
        r@ == text_attr(attrs_view(attrs@), key@),
{
    match attr_lookup(attrs, key) {
        Some(i) => string_of(&attrs[i].value),
        None => String::new(),
    }
}

fn int_attr_exec(attrs: &Vec<XmlAttr>, key: &str) -> (r: i64)
    ensures
        r as int == int_attr(attrs_view(attrs@), key@),
{
    match attr_lookup(attrs, key) {
        Some(i) => match parse_i64(&attrs[i].value) {
            Some(n) => n,
            None => 0,
        },
        None => 0,
    }
}

/// The pass a `<guest>` element describes.
pub fn pass_from_tag_attrs(attrs: &Vec<XmlAttr>) -> (r: GuestPass)
    ensures
        r@ == pass_from_attrs(attrs_view(attrs@)),
{
    let activated_at = match attr_lookup(attrs, "start-time") {
        Some(i) => if attrs[i].value.len() > 0 {
            parse_i64(&attrs[i].value)
        } else {
            None
        },
        None => None,
    };
    let used = match attr_lookup(attrs, "used") {
        Some(i) => chars_eq_str(&attrs[i].value, "true"),
        None => false,
    };
    let share_number = match attr_lookup(attrs, "share-number") {
        Some(i) => match parse_u32(&attrs[i].value) {
            Some(n) => n,
            None => 0,
        },
        None => 0,
    };
    let client_macs: Vec<String> = Vec::new();
    let r = GuestPass {
        id: text_attr_exec(attrs, "id"),
        name: text_attr_exec(attrs, "name"),
        code: text_attr_exec(attrs, "x-key"),
        ssid: text_attr_exec(attrs, "ssid"),
        created_at: int_attr_exec(attrs, "create-time"),
        activated_at,
        expires_at: int_attr_exec(attrs, "expire-time"),
        valid_time_secs: int_attr_exec(attrs, "valid-time"),
        used,
        share_number,
        client_macs,
        remarks: text_attr_exec(attrs, "remarks"),
    };
    assert(strings_view(r.client_macs@) =~= seq![]);
    r
}

pub open spec fn with_mac(p: GuestPassView, mac: Seq<char>) -> GuestPassView {
    GuestPassView { client_macs: p.client_macs.push(mac), ..p }
}

/// One tag's effect on the passes read so far and on whether a `<guest>`
/// element is open. A `<client>` attaches its MAC to the last pass only
/// inside an open (not self-closed) `<guest>`.
pub open spec fn guest_step(st: (Seq<GuestPassView>, bool), t: TagView) -> (
    Seq<GuestPassView>,
    bool,
) {
    let ps = st.0;
    let in_guest = st.1;
    if t.kind != TagKind::Close && t.name == "guest"@ {
        (ps.push(pass_from_attrs(t.attrs)), t.kind == TagKind::Open)
    } else if t.kind != TagKind::Close && t.name == "client"@ {
        match attr_value(t.attrs, "mac"@) {
            Some(m) => if in_guest && ps.len() > 0 {
                (ps.update(ps.len() - 1, with_mac(ps.last(), m)), in_guest)
            } else {
                st
            },
            None => st,
        }
    } else if t.kind == TagKind::Close && t.name == "guest"@ {
        (ps, false)
    } else {
        st
    }
}

/// The passes described by the first `n` tags.
pub open spec fn guests_upto(tags: Seq<TagView>, n: int) -> (Seq<GuestPassView>, bool)
    decreases n,
{
    if n <= 0 {
        (seq![], false)
    } else {
        guest_step(guests_upto(tags, n - 1), tags[n - 1])
    }
}

pub open spec fn is_error_tag(t: TagView) -> bool {
    &&& t.kind != TagKind::Close
    &&& t.name == "xmsg"@
    &&& attr_value(t.attrs, "type"@) == Some("-1"@)
}

/// The `msg` of the first `<xmsg type="-1">` among `tags[k..]`.
pub open spec fn error_msg_from(tags: Seq<TagView>, k: int) -> Option<Seq<char>>
    decreases tags.len() - k,
{
    if k < 0 || k >= tags.len() {
        None
    } else if is_error_tag(tags[k]) {
        attr_value(tags[k].attrs, "msg"@)
    } else {
        error_msg_from(tags, k + 1)
    }
}

/// The controller's error code, when the reply carries
/// `<xmsg type="-1" msg="..."/>` among the tags read before any error.
pub open spec fn controller_error_of(xml: Seq<char>) -> Option<Seq<char>> {
    error_msg_from(scan(xml).0, 0)
}

/// What a `getstat system <guest-list/>` reply lists.
pub open spec fn guest_list_of(xml: Seq<char>) -> Result<Seq<GuestPassView>, ErrorView> {
    match controller_error_of(xml) {
        Some(msg) => Err(ErrorView::Controller(msg)),
        None => {
            let (tags, failed) = scan(xml);
            if failed {
                Err(ErrorView::Parse(MALFORMED_REPLY_MSG@))
            } else {
                Ok(guests_upto(tags, tags.len() as int).0)
            }
        },
    }
}

fn error_msg_in(tags: &Vec<XmlTag>) -> (r: Option<String>)
    ensures
        r matches Some(m) ==> error_msg_from(tags_view(tags@), 0) == Some(m@),
        r is None ==> error_msg_from(tags_view(tags@), 0) is None,
{
    let ghost tv = tags_view(tags@);
    let mut k: usize = 0;
    while k < tags.len()
        invariant
            k <= tags.len(),
            tv == tags_view(tags@),
            error_msg_from(tv, 0) == error_msg_from(tv, k as int),
        decreases tags.len() - k,
    {
        let t = &tags[k];
        assert(tv[k as int] == t@);
        if t.kind != TagKind::Close && chars_eq_str(&t.name, "xmsg") {
            match attr_lookup(&t.attrs, "type") {
                Some(i) => {
                    if chars_eq_str(&t.attrs[i].value, "-1") {
                        return match attr_lookup(&t.attrs, "msg") {
                            Some(j) => Some(string_of(&t.attrs[j].value)),
                            None => None,
                        };
                    }
                },
                None => {},
            }
        }
        k = k + 1;
    }
    None
}

/// Return the controller's error code when the response carries
/// `<xmsg type="-1" msg="..."/>`, otherwise None.
pub fn controller_error(xml: &str) -> (r: Option<String>)
    ensures
        r matches Some(m) ==> controller_error_of(xml@) == Some(m@),
        r is None ==> controller_error_of(xml@) is None,
{
    let s = chars_of(xml);
    let (tags, _failed) = scan_tags(&s);
    error_msg_in(&tags)
}

pub open spec fn with_current(done: Seq<GuestPassView>, cur: Option<GuestPassView>) -> Seq<
    GuestPassView,
> {
    match cur {
        Some(p) => done.push(p),
        None => done,
    }
}

pub open spec fn opt_pass_view(cur: Option<GuestPass>) -> Option<GuestPassView> {
    match cur {
        Some(p) => Some(p@),
        None => None,
    }
}

fn passes_in(tags: &Vec<XmlTag>) -> (r: Vec<GuestPass>)
    ensures
        passes_view(r@) == guests_upto(tags_view(tags@), tags@.len() as int).0,
{
    let ghost tv = tags_view(tags@);
    let mut done: Vec<GuestPass> = Vec::new();
    let mut cur: Option<GuestPass> = None;
    let mut in_guest = false;
    let mut k: usize = 0;
    assert(passes_view(done@) =~= seq![]);
    while k < tags.len()
        invariant
            k <= tags.len(),
            tv == tags_view(tags@),
            tv.len() == tags@.len(),
            cur is None ==> done@.len() == 0,
            guests_upto(tv, k as int) == (
                with_current(passes_view(done@), opt_pass_view(cur)),
                in_guest,
            ),
        decreases tags.len() - k,
    {
        let t = &tags[k];
        assert(tv[k as int] == t@);
        let ghost prev_done = passes_view(done@);
        if t.kind != TagKind::Close && chars_eq_str(&t.name, "guest") {
            let p = pass_from_tag_attrs(&t.attrs);
            match cur {
                Some(q) => {
                    let ghost qv = q@;
                    done.push(q);
                    assert(passes_view(done@) =~= prev_done.push(qv));
                },
                None => {},
            }
            cur = Some(p);
            in_guest = t.kind == TagKind::Open;
        } else if t.kind != TagKind::Close && chars_eq_str(&t.name, "client") {
            match attr_lookup(&t.attrs, "mac") {
                Some(i) => {
                    if in_guest {
                        cur = match cur {
                            Some(mut q) => {
                                let ghost before = q@;
                                let mac = string_of(&t.attrs[i].value);
                                q.client_macs.push(mac);
                                assert(strings_view(q.client_macs@) =~= before.client_macs.push(
                                    t.attrs@[i as int].value@,
                                ));
                                assert(q@ == with_mac(before, t.attrs@[i as int].value@));
                                Some(q)
                            },
                            None => None,
                        };
                    }
                },
                None => {},
            }
        } else if t.kind == TagKind::Close && chars_eq_str(&t.name, "guest") {
            in_guest = false;
        }
        k = k + 1;
    }
    match cur {
        Some(q) => {
            let ghost before = passes_view(done@);
            let ghost qv = q@;
            done.push(q);
            assert(passes_view(done@) =~= before.push(qv));
        },
        None => {},
    }
    done
}

/// A tag that begins a guest pass: `<guest ...>` or `<guest .../>`.
pub open spec fn opens_guest(t: TagView) -> bool {
    t.kind != TagKind::Close && t.name == "guest"@
}

/// The MAC a `<client mac=...>` tag names, if it is one.
pub open spec fn client_mac(t: TagView) -> Option<Seq<char>> {
    if t.kind != TagKind::Close && t.name == "client"@ {
        attr_value(t.attrs, "mac"@)
    } else {
        None
    }
}

/// How many guest passes begin among the first `n` tags.
pub open spec fn guests_before(tags: Seq<TagView>, n: int) -> int
    decreases n,
{
    if n <= 0 {
        0
    } else {
        guests_before(tags, n - 1) + if opens_guest(tags[n - 1]) {
            1int
        } else {
            0int
        }
    }
}

/// No `guest` tag (of any kind) stands strictly between `g` and `k`.
pub open spec fn no_guest_between(tags: Seq<TagView>, g: int, k: int) -> bool {
    forall|j: int| g < j < k ==> (#[trigger] tags[j]).name != "guest"@
}

/// The MACs, in order, of the `<client>` tags among `tags[g+1..n]` that
/// stand inside the guest element opened (not self-closed) at `g`: those
/// before the next `guest` tag of any kind.
pub open spec fn macs_of_guest(tags: Seq<TagView>, g: int, n: int) -> Seq<Seq<char>>
    decreases n - g,
{
    if n <= g + 1 {
        seq![]
    } else {
        let prev = macs_of_guest(tags, g, n - 1);
        if tags[g].kind == TagKind::Open && no_guest_between(tags, g, n - 1) {
            match client_mac(tags[n - 1]) {
                Some(m) => prev.push(m),
                None => prev,
            }
        } else {
            prev
        }
    }
}

/// Index of the last `guest` tag (of any kind) among the first `n` tags.
spec fn last_guest_tag(tags: Seq<TagView>, n: int) -> Option<int>
    decreases n,
{
    if n <= 0 {
        None
    } else if tags[n - 1].name == "guest"@ {
        Some(n - 1)
    } else {
        last_guest_tag(tags, n - 1)
    }
}

proof fn lemma_last_guest_tag(tags: Seq<TagView>, n: int)
    requires
        0 <= n <= tags.len(),
    ensures
        last_guest_tag(tags, n) matches Some(g) ==> 0 <= g < n && tags[g].name == "guest"@
            && no_guest_between(tags, g, n),
        last_guest_tag(tags, n) is None ==> no_guest_between(tags, -1, n),
    decreases n,
{
    if n > 0 {
        lemma_last_guest_tag(tags, n - 1);
    }
}

proof fn lemma_guests_before_mono(tags: Seq<TagView>, a: int, b: int)
    requires
        0 <= a <= b <= tags.len(),
    ensures
        0 <= guests_before(tags, a),
        guests_before(tags, a) <= guests_before(tags, b),
        a < b && opens_guest(tags[a]) ==> guests_before(tags, a) < guests_before(tags, b),
    decreases b - a, a,
{
    if a < b {
        lemma_guests_before_mono(tags, a, b - 1);
    } else if a > 0 {
        lemma_guests_before_mono(tags, a - 1, a - 1);
    }
}

/// What the passes read from the first `n` tags look like.
spec fn guests_shape(tags: Seq<TagView>, n: int) -> bool {
    let (ps, in_guest) = guests_upto(tags, n);
    &&& ps.len() == guests_before(tags, n)
    &&& forall|g: int| 0 <= g < n && opens_guest(#[trigger] tags[g]) ==> pass_of_guest_ok(tags, n, ps, g)
    &&& in_guest == (last_guest_tag(tags, n) matches Some(g) && tags[g].kind == TagKind::Open)
}

/// The pass for each guest tag before `n` as the shape says.
spec fn pass_of_guest_ok(tags: Seq<TagView>, n: int, ps: Seq<GuestPassView>, g: int) -> bool {
    ps[guests_before(tags, g)] == (GuestPassView {
        client_macs: macs_of_guest(tags, g, n),
        ..pass_from_attrs(tags[g].attrs)
    })
}

proof fn lemma_guests_shape(tags: Seq<TagView>, n: int)
    requires
        0 <= n <= tags.len(),
    ensures
        guests_shape(tags, n),
    decreases n,
{
    if n > 0 {
        lemma_guests_shape(tags, n - 1);
        let t = tags[n - 1];
        if opens_guest(t) {
            lemma_step_guest(tags, n - 1);
        } else if client_mac(t) is Some {
            lemma_step_client(tags, n - 1);
        } else {
            lemma_step_other(tags, n - 1);
        }
    }
}

proof fn lemma_step_guest(tags: Seq<TagView>, m: int)
    requires
        0 <= m < tags.len(),
        guests_shape(tags, m),
        opens_guest(tags[m]),
    ensures
        guests_shape(tags, m + 1),
{
    reveal_strlit("guest");
    reveal_strlit("client");
    assert("guest"@ != "client"@) by {
        assert("guest"@[0] != "client"@[0]);
    }
    let n = m + 1;
    let (ps, ig) = guests_upto(tags, m);
    let ps2 = guests_upto(tags, n).0;
    assert(ps2 == ps.push(pass_from_attrs(tags[m].attrs)));
    assert(ps.len() == guests_before(tags, m));
    assert forall|g: int| 0 <= g < n && opens_guest(#[trigger] tags[g]) implies pass_of_guest_ok(
        tags,
        n,
        ps2,
        g,
    ) by {
        if g < m {
            lemma_guests_before_mono(tags, g, m);
            assert(guests_before(tags, g) < guests_before(tags, m));
            assert(guests_before(tags, g) < ps.len());
            assert(pass_of_guest_ok(tags, m, ps, g));
            assert(macs_of_guest(tags, g, n) == macs_of_guest(tags, g, m));
            let i = guests_before(tags, g);
            assert(ps.push(pass_from_attrs(tags[m].attrs))[i] == ps[i]);
            assert(ps2[i] == ps[i]);
        } else {
            assert(guests_before(tags, g) == ps.len());
            let p = pass_from_attrs(tags[g].attrs);
            assert(macs_of_guest(tags, g, n) =~= seq![]);
            assert(p.client_macs =~= seq![]);
            assert((GuestPassView { client_macs: macs_of_guest(tags, g, n), ..p }) == p);
        }
    }
}

proof fn lemma_step_other(tags: Seq<TagView>, m: int)
    requires
        0 <= m < tags.len(),
        guests_shape(tags, m),
        !opens_guest(tags[m]),
        client_mac(tags[m]) is None,
    ensures
        guests_shape(tags, m + 1),
{
    reveal_strlit("guest");
    reveal_strlit("client");
    assert("guest"@ != "client"@) by {
        assert("guest"@[0] != "client"@[0]);
    }
    let n = m + 1;
    let ps2 = guests_upto(tags, n).0;
    assert forall|g: int| 0 <= g < n && opens_guest(#[trigger] tags[g]) implies pass_of_guest_ok(
        tags,
        n,
        ps2,
        g,
    ) by {
        assert(macs_of_guest(tags, g, n) == macs_of_guest(tags, g, m));
    }
}

proof fn lemma_step_client(tags: Seq<TagView>, m: int)
    requires
        0 <= m < tags.len(),
        guests_shape(tags, m),
        client_mac(tags[m]) is Some,
    ensures
        guests_shape(tags, m + 1),
{
    reveal_strlit("guest");
    reveal_strlit("client");
    assert("guest"@ != "client"@) by {
        assert("guest"@[0] != "client"@[0]);
    }
    let n = m + 1;
    let t = tags[m];
    let (ps, in_guest) = guests_upto(tags, m);
    let ps2 = guests_upto(tags, n).0;
    lemma_last_guest_tag(tags, m);
    assert(t.name != "guest"@);
    if in_guest {
        let gl = last_guest_tag(tags, m)->0;
        assert(opens_guest(tags[gl]));
        lemma_guests_before_mono(tags, gl, m);
        lemma_guests_before_no_open(tags, gl + 1, m);
        assert(guests_before(tags, gl + 1) == guests_before(tags, gl) + 1);
        assert forall|g: int| 0 <= g < n && opens_guest(#[trigger] tags[g]) implies pass_of_guest_ok(
            tags,
            n,
            ps2,
            g,
        ) by {
            if g == gl {
                assert(no_guest_between(tags, g, m));
            } else {
                assert(g < gl);
                lemma_guests_before_mono(tags, g, gl);
                assert(!no_guest_between(tags, g, m)) by {
                    assert(tags[gl].name == "guest"@);
                }
                assert(macs_of_guest(tags, g, n) == macs_of_guest(tags, g, m));
            }
        }
    } else {
        assert forall|g: int| 0 <= g < n && opens_guest(#[trigger] tags[g]) implies pass_of_guest_ok(
            tags,
            n,
            ps2,
            g,
        ) by {
            assert(g < m);
            if no_guest_between(tags, g, m) && tags[g].kind == TagKind::Open {
                let gl = last_guest_tag(tags, m);
                if let Some(x) = gl {
                    if x > g {
                        assert(tags[x].name == "guest"@);
                    }
                } else {
                    assert(tags[g].name == "guest"@);
                }
            }
            assert(macs_of_guest(tags, g, n) == macs_of_guest(tags, g, m));
        }
    }
}

/// No guest begins among `tags[a..b]` when they hold no `guest` tag at all.
proof fn lemma_guests_before_no_open(tags: Seq<TagView>, a: int, b: int)
    requires
        0 <= a <= b <= tags.len(),
        forall|j: int| a <= j < b ==> (#[trigger] tags[j]).name != "guest"@,
    ensures
        guests_before(tags, b) == guests_before(tags, a),
    decreases b - a,
{
    if a < b {
        lemma_guests_before_no_open(tags, a, b - 1);
    }
}

/// Reading a guest list: one pass per `<guest>` tag, in order; each with
/// the attributes of its tag, and with client MACs exactly those of the
/// `<client mac=...>` tags inside its open element, in order. A
/// self-closed `<guest/>` holds none, and a `<client>` outside any open
/// guest attaches to no pass.
pub proof fn lemma_guest_list_macs(tags: Seq<TagView>)
    ensures
        guests_upto(tags, tags.len() as int).0.len() == guests_before(tags, tags.len() as int),
        forall|g: int|
            0 <= g < tags.len() && opens_guest(#[trigger] tags[g]) ==> guests_upto(
                tags,
                tags.len() as int,
            ).0[guests_before(tags, g)] == (GuestPassView {
                client_macs: macs_of_guest(tags, g, tags.len() as int),
                ..pass_from_attrs(tags[g].attrs)
            }),
{
    lemma_guests_shape(tags, tags.len() as int);
}

/// Parse a `getstat system <guest-list/>` response.
pub fn parse_guest_list(xml: &str) -> (r: Result<Vec<GuestPass>, UnleashedError>)
    ensures
        match r {
            Ok(v) => guest_list_of(xml@) == Ok::<Seq<GuestPassView>, ErrorView>(passes_view(v@)),
            Err(e) => guest_list_of(xml@) == Err::<Seq<GuestPassView>, ErrorView>(e@),
        },
{
    let s = chars_of(xml);
    let (tags, failed) = scan_tags(&s);
    match error_msg_in(&tags) {
        Some(msg) => Err(UnleashedError::Controller { msg }),
        None => {
            if failed {
                Err(UnleashedError::Parse(MALFORMED_REPLY_MSG.to_string()))
            } else {
                Ok(passes_in(&tags))
            }
        },
    }
}

/// The first non-empty `x-key` of an `<xmsg>` among `tags[k..]`.
pub open spec fn key_from(tags: Seq<TagView>, k: int) -> Option<Seq<char>>
    decreases tags.len() - k,
{
    if k < 0 || k >= tags.len() {
        None
    } else if tags[k].kind != TagKind::Close && tags[k].name == "xmsg"@ && (match attr_value(
        tags[k].attrs,
        "x-key"@,
    ) {
        Some(v) => v.len() > 0,
        None => false,
    }) {
        attr_value(tags[k].attrs, "x-key"@)
    } else {
        key_from(tags, k + 1)
    }
}

/// What a `generate-guest-key` reply yields: the new pass code.
pub open spec fn generated_key_of(xml: Seq<char>) -> Result<Seq<char>, ErrorView> {
    match controller_error_of(xml) {
        Some(msg) => Err(ErrorView::Controller(msg)),
        None => match key_from(scan(xml).0, 0) {
            Some(k) => Ok(k),
            None => Err(
                ErrorView::Parse(
                    if scan(xml).1 {
                        MALFORMED_REPLY_MSG@
                    } else {
                        MISSING_KEY_MSG@
                    },
                ),
            ),
        },
    }
}

/// Extract `x-key` from a `generate-guest-key` response.
pub fn parse_generated_key(xml: &str) -> (r: Result<String, UnleashedError>)
    ensures
        match r {
            Ok(k) => generated_key_of(xml@) == Ok::<Seq<char>, ErrorView>(k@),
            Err(e) => generated_key_of(xml@) == Err::<Seq<char>, ErrorView>(e@),
        },
{
    let s = chars_of(xml);
    let (tags, failed) = scan_tags(&s);
    if let Some(msg) = error_msg_in(&tags) {
        return Err(UnleashedError::Controller { msg });
    }
    let ghost tv = tags_view(tags@);
    assert(s@ == xml@);
    let mut k: usize = 0;
    while k < tags.len()
        invariant
            k <= tags.len(),
            tv == tags_view(tags@),
            tv == scan(xml@).0,
            failed == scan(xml@).1,
            controller_error_of(xml@) is None,
            key_from(tv, 0) == key_from(tv, k as int),
        decreases tags.len() - k,
    {
        let t = &tags[k];
        assert(tv[k as int] == t@);
        if t.kind != TagKind::Close && chars_eq_str(&t.name, "xmsg") {
            match attr_lookup(&t.attrs, "x-key") {
                Some(i) => {
                    if t.attrs[i].value.len() > 0 {
                        assert(attrs_view(t.attrs@)[i as int].1 == t.attrs@[i as int].value@);
                        assert(key_from(tv, k as int) == Some(t.attrs@[i as int].value@));
                        return Ok(string_of(&t.attrs[i].value));
                    }
                },
                None => {},
            }
        }
        k = k + 1;
    }
    if failed {
        Err(UnleashedError::Parse(MALFORMED_REPLY_MSG.to_string()))
    } else {
        Err(UnleashedError::Parse(MISSING_KEY_MSG.to_string()))
    }
}

/// Longest pass name the controller accepts.
pub const MAX_NAME_LEN: usize = 64;

/// Reason given when nothing of a requested name survives sanitising.
pub const EMPTY_NAME_MSG: &'static str =
    "name is empty after removing characters the controller rejects";

/// Characters the controller rejects in pass names, besides whitespace.
pub open spec fn is_forbidden_name_char(c: char) -> bool {
    c == '!' || c == '#' || c == '$' || c == '&' || c == '(' || c == ')' || c == '<' || c == '>'
        || c == '"' || c == '\'' || c == '\\' || c == '|' || c == ';' || c == '`' || c == ','
}

pub fn is_forbidden_name_char_exec(c: char) -> (r: bool)
    ensures
        r == is_forbidden_name_char(c),
{
    c == '!' || c == '#' || c == '$' || c == '&' || c == '(' || c == ')' || c == '<' || c == '>'
        || c == '"' || c == '\'' || c == '\\' || c == '|' || c == ';' || c == '`' || c == ','
}

/// Whitespace becomes `-`; forbidden characters are dropped.
pub open spec fn clean_name(s: Seq<char>) -> Seq<char>
    decreases s.len(),
{
    if s.len() == 0 {
        seq![]
    } else {
        let rest = clean_name(s.drop_last());
        let d = if is_ws(s.last()) {
            '-'
        } else {
            s.last()
        };
        if is_forbidden_name_char(d) {
            rest
        } else {
            rest.push(d)
        }
    }
}

/// At most the first `MAX_NAME_LEN` characters.
pub open spec fn truncate_name(s: Seq<char>) -> Seq<char> {
    if s.len() <= MAX_NAME_LEN {
        s
    } else {
        s.take(MAX_NAME_LEN as int)
    }
}

/// `str::trim_matches('-')`.
pub open spec fn trim_dashes(s: Seq<char>) -> Seq<char> {
    let a = skip_char(s, '-', 0);
    s.subrange(a, drop_trailing_char(s, '-', a, s.len() as int))
}

/// The name the controller will accept for a requested one: trimmed,
/// whitespace turned into `-`, forbidden characters dropped, cut to 64
/// characters and stripped of leading and trailing `-`; `None` when
/// nothing is left.
pub open spec fn sanitized_name(raw: Seq<char>) -> Option<Seq<char>> {
    let t = trim_dashes(truncate_name(clean_name(trim(raw))));
    if t.len() == 0 {
        None
    } else {
        Some(t)
    }
}

/// A name the controller accepts: 1 to 64 characters, no whitespace, none
/// of the forbidden characters, and no `-` at either end.
pub open spec fn is_acceptable_name(s: Seq<char>) -> bool {
    &&& 1 <= s.len() <= MAX_NAME_LEN
    &&& forall|i: int| 0 <= i < s.len() ==> !is_ws(#[trigger] s[i]) && !is_forbidden_name_char(s[i])
    &&& s[0] != '-'
    &&& s.last() != '-'
}

proof fn lemma_clean_name_chars(s: Seq<char>)
    ensures
        forall|i: int|
            0 <= i < clean_name(s).len() ==> !is_ws(#[trigger] clean_name(s)[i])
                && !is_forbidden_name_char(clean_name(s)[i]),
    decreases s.len(),
{
    if s.len() > 0 {
        lemma_clean_name_chars(s.drop_last());
        let rest = clean_name(s.drop_last());
        let c = clean_name(s);
        assert forall|i: int| 0 <= i < c.len() implies !is_ws(#[trigger] c[i])
            && !is_forbidden_name_char(c[i]) by {
            if i < rest.len() {
                assert(c[i] == rest[i]);
            }
        }
    }
}

/// Coerce a name into the controller's accepted charset.
/// Whitespace becomes '-', forbidden characters are dropped, and the result
/// is truncated to 64 characters.
pub fn sanitize_pass_name(raw: &str) -> (r: Result<String, String>)
    ensures
        match r {
            Ok(n) => sanitized_name(raw@) == Some(n@),
            Err(m) => sanitized_name(raw@) is None && m@ == EMPTY_NAME_MSG@,
        },
{
    let v = chars_of(raw);
    let (a, b) = trim_bounds(&v);
    let ghost t = v@.subrange(a as int, b as int);
    let mut cleaned: Vec<char> = Vec::new();
    let mut i = a;
    while i < b
        invariant
            a <= i <= b <= v.len(),
            t == v@.subrange(a as int, b as int),
            cleaned@ == clean_name(t.take(i - a)),
        decreases b - i,
    {
        let c = v[i];
        let d = if is_whitespace(c) {
            '-'
        } else {
            c
        };
        assert(t.take(i - a + 1).drop_last() =~= t.take(i - a));
        assert(t.take(i - a + 1).last() == c);
        if !is_forbidden_name_char_exec(d) {
            cleaned.push(d);
        }
        i = i + 1;
    }
    assert(t.take(b - a) =~= t);
    let n = if cleaned.len() <= MAX_NAME_LEN {
        cleaned.len()
    } else {
        MAX_NAME_LEN
    };
    let ghost cut = truncate_name(cleaned@);
    assert(cut =~= cleaned@.take(n as int));
    let mut lo: usize = 0;
    while lo < n && cleaned[lo] == '-'
        invariant
            lo <= n <= cleaned.len(),
            cut == cleaned@.take(n as int),
            skip_char(cut, '-', 0) == skip_char(cut, '-', lo as int),
        decreases n - lo,
    {
        lo = lo + 1;
    }
    let mut hi: usize = n;
    while hi > lo && cleaned[hi - 1] == '-'
        invariant
            lo <= hi <= n <= cleaned.len(),
            cut == cleaned@.take(n as int),
            drop_trailing_char(cut, '-', lo as int, n as int) == drop_trailing_char(
                cut,
                '-',
                lo as int,
                hi as int,
            ),
        decreases hi,
    {
        hi = hi - 1;
    }
    assert(trim_dashes(cut) =~= cleaned@.subrange(lo as int, hi as int));
    if lo == hi {
        Err(EMPTY_NAME_MSG.to_string())
    } else {
        Ok(string_from(&cleaned, lo, hi))
    }
}

/// Every sanitised name is one the controller accepts.
pub proof fn lemma_sanitized_name_is_acceptable(raw: Seq<char>)
    ensures
        sanitized_name(raw) matches Some(n) ==> is_acceptable_name(n),
{
    let c = clean_name(trim(raw));
    let cut = truncate_name(c);
    lemma_clean_name_chars(trim(raw));
    assert forall|i: int| 0 <= i < cut.len() implies !is_ws(#[trigger] cut[i])
        && !is_forbidden_name_char(cut[i]) by {
        assert(cut[i] == c[i]);
    }
    let a = skip_char(cut, '-', 0);
    lemma_skip_char(cut, '-', 0);
    let e = drop_trailing_char(cut, '-', a, cut.len() as int);
    lemma_drop_trailing_char(cut, '-', a, cut.len() as int);
    let t = trim_dashes(cut);
    if t.len() > 0 {
        assert(t[0] == cut[a]);
        assert(t.last() == cut[e - 1]);
        assert forall|i: int| 0 <= i < t.len() implies !is_ws(#[trigger] t[i])
            && !is_forbidden_name_char(t[i]) by {
            assert(t[i] == cut[a + i]);
        }
    }
}

proof fn lemma_clean_name_keeps(s: Seq<char>)
    requires
        forall|i: int| 0 <= i < s.len() ==> !is_ws(#[trigger] s[i]) && !is_forbidden_name_char(s[i]),
    ensures
        clean_name(s) == s,
    decreases s.len(),
{
    if s.len() > 0 {
        let d = s.drop_last();
        assert forall|i: int| 0 <= i < d.len() implies !is_ws(#[trigger] d[i])
            && !is_forbidden_name_char(d[i]) by {
            assert(d[i] == s[i]);
        }
        lemma_clean_name_keeps(d);
        assert(!is_ws(s[s.len() - 1]));
        assert(d.push(s.last()) =~= s);
    }
}

/// Sanitising is idempotent: a name the controller accepts is sent as it is,
/// so sanitising a sanitised name changes nothing.
pub proof fn lemma_sanitize_idempotent(raw: Seq<char>)
    ensures
        sanitized_name(raw) matches Some(n) ==> sanitized_name(n) == Some(n),
{
    lemma_sanitized_name_is_acceptable(raw);
    if let Some(n) = sanitized_name(raw) {
        lemma_acceptable_name_unchanged(n);
    }
}

/// A name the controller already accepts is left unchanged.
pub proof fn lemma_acceptable_name_unchanged(n: Seq<char>)
    requires
        is_acceptable_name(n),
    ensures
        sanitized_name(n) == Some(n),
{
    assert(!is_ws(n[0]));
    assert(!is_ws(n[n.len() - 1]));
    assert(skip_ws(n, 0) == 0);
    assert(drop_trailing_ws(n, 0, n.len() as int) == n.len());
    assert(trim(n) =~= n);
    lemma_clean_name_keeps(n);
    assert(truncate_name(n) == n);
    assert(skip_char(n, '-', 0) == 0);
    assert(drop_trailing_char(n, '-', 0, n.len() as int) == n.len());
    assert(trim_dashes(n) =~= n);
}

/// Prefix of the daily pass names.
pub const DAILY_NAME_PREFIX: &'static str = "daily-";

pub open spec fn digit_char(d: int) -> char {
    ((48 + d) as u32) as char
}

/// Decimal digits of `n`, without leading zeros.
pub open spec fn decimal_text(n: nat) -> Seq<char>
    decreases n,
{
    if n < 10 {
        seq![digit_char(n as int)]
    } else {
        decimal_text(n / 10).push(digit_char((n % 10) as int))
    }
}

/// Decimal digits of `n`, zero-padded on the left to at least `width`.
pub open spec fn zero_padded(n: nat, width: nat) -> Seq<char> {
    let t = decimal_text(n);
    if t.len() >= width {
        t
    } else {
        Seq::new((width - t.len()) as nat, |i: int| '0') + t
    }
}

/// `%Y` of `chrono`'s formatting: four digits for years 0 to 9999, and a
/// sign followed by at least four digits otherwise.
pub open spec fn year_text(y: int) -> Seq<char> {
    if 0 <= y <= 9999 {
        zero_padded(y as nat, 4)
    } else if y < 0 {
        seq!['-'] + zero_padded((-y) as nat, 4)
    } else {
        seq!['+'] + zero_padded(y as nat, 4)
    }
}

/// `%Y-%m-%d`.
pub open spec fn date_text(d: CivilDate) -> Seq<char> {
    year_text(d.year as int) + seq!['-'] + zero_padded(d.month as nat, 2) + seq!['-']
        + zero_padded(d.day as nat, 2)
}

/// The name of the daily pass for a period that starts on `d`.
pub open spec fn daily_name_of(d: CivilDate) -> Seq<char> {
    DAILY_NAME_PREFIX@ + date_text(d)
}

proof fn lemma_decimal_digits(n: nat)
    ensures
        decimal_text(n).len() > 0,
        all_digits(decimal_text(n)),
        digits_value(decimal_text(n)) == n,
    decreases n,
{
    if n >= 10 {
        lemma_decimal_digits(n / 10);
        let t = decimal_text(n / 10);
        let c = digit_char((n % 10) as int);
        assert(decimal_text(n) == t.push(c));
        assert(t.push(c).drop_last() =~= t);
        assert(is_digit(c) && digit_value(c) == n % 10);
        assert(t.push(c).last() == c);
        assert(digits_value(t.push(c)) == digits_value(t) * 10 + digit_value(c));
        assert(n == (n / 10) * 10 + n % 10) by (nonlinear_arith);
    } else {
        let c = digit_char(n as int);
        assert(is_digit(c) && digit_value(c) == n);
        assert(seq![c].drop_last() =~= Seq::<char>::empty());
        assert(digits_value(Seq::<char>::empty()) == 0);
        assert(digits_value(seq![c]) == digits_value(seq![c].drop_last()) * 10 + digit_value(c));
    }
}

/// The decimal text of a number is digits only, and reads back, as
/// `str::parse::<u32>` reads text, as that number.
pub proof fn lemma_decimal_text_reads_back(n: nat)
    requires
        n <= u32::MAX,
    ensures
        u32_text(decimal_text(n)) == Some(n as int),
        decimal_text(n).len() > 0,
        forall|i: int| 0 <= i < decimal_text(n).len() ==> is_digit(#[trigger] decimal_text(n)[i]),
{
    lemma_decimal_digits(n);
    let t = decimal_text(n);
    assert(is_digit(t[0]));
}

pub fn digit_char_exec(d: u64) -> (r: char)
    requires
        d < 10,
    ensures
        r == digit_char(d as int),
{
    match d {
        0 => '0',
        1 => '1',
        2 => '2',
        3 => '3',
        4 => '4',
        5 => '5',
        6 => '6',
        7 => '7',
        8 => '8',
        _ => '9',
    }
}

pub fn push_decimal(out: &mut Vec<char>, n: u64)
    ensures
        final(out)@ == old(out)@ + decimal_text(n as nat),
    decreases n,
{
    if n >= 10 {
        push_decimal(out, n / 10);
    }
    out.push(digit_char_exec(n % 10));
}

pub(crate) fn push_padded(out: &mut Vec<char>, n: u64, width: usize)
    requires
        width <= 4,
    ensures
        final(out)@ == old(out)@ + zero_padded(n as nat, width as nat),
{
    let mut digits: Vec<char> = Vec::new();
    push_decimal(&mut digits, n);
    assert(digits@ =~= decimal_text(n as nat));
    let ghost start = out@;
    let mut i: usize = digits.len();
    while i < width
        invariant
            digits.len() <= i <= width || width <= digits.len() == i,
            out@ == start + Seq::new((i - digits.len()) as nat, |k: int| '0'),
        decreases width - i,
    {
        out.push('0');
        assert(Seq::new((i + 1 - digits.len()) as nat, |k: int| '0') =~= Seq::new(
            (i - digits.len()) as nat,
            |k: int| '0',
        ).push('0'));
        i = i + 1;
    }
    let mut j: usize = 0;
    let ghost padded = out@;
    while j < digits.len()
        invariant
            j <= digits.len(),
            out@ == padded + digits@.take(j as int),
        decreases digits.len() - j,
    {
        out.push(digits[j]);
        assert(digits@.take(j + 1) =~= digits@.take(j as int).push(digits@[j as int]));
        j = j + 1;
    }
    assert(digits@.take(digits.len() as int) =~= digits@);
    if digits.len() >= width {
        assert(Seq::new(0, |k: int| '0') + digits@ =~= digits@);
        assert(out@ =~= start + digits@);
    } else {
        assert(out@ =~= start + (Seq::new((width - digits.len()) as nat, |k: int| '0')
            + digits@));
    }
}

/// Appends `%Y` of a year.
pub(crate) fn push_year(out: &mut Vec<char>, y: i32)
    ensures
        final(out)@ == old(out)@ + year_text(y as int),
{
    let ghost start = out@;
    if 0 <= y && y <= 9999 {
        push_padded(out, y as u64, 4);
    } else if y < 0 {
        out.push('-');
        let m: i64 = -(y as i64);
        push_padded(out, m as u64, 4);
        assert(out@ =~= start + (seq!['-'] + zero_padded((-y) as nat, 4)));
    } else {
        out.push('+');
        push_padded(out, y as u64, 4);
        assert(out@ =~= start + (seq!['+'] + zero_padded(y as nat, 4)));
    }
}

pub fn daily_pass_name(date: &CivilDate) -> (r: String)
    ensures
        r@ == daily_name_of(*date),
{
    let mut out: Vec<char> = chars_of(DAILY_NAME_PREFIX);
    push_year(&mut out, date.year);
    out.push('-');
    push_padded(&mut out, date.month as u64, 2);
    out.push('-');
    push_padded(&mut out, date.day as u64, 2);
    let r = string_of(&out);
    assert(r@ =~= daily_name_of(*date));
    r
}

/// A hotspot voucher as the UniFi integration API describes it; the dates
/// are shown in the configured time zone once fetched.
pub struct Voucher {
    pub id: String,
    pub created_at: String,
    pub name: String,
    pub code: String,
    pub authorized_guest_limit: Option<u64>,
    pub authorized_guest_count: u64,
    pub activated_at: Option<String>,
    pub expires_at: Option<String>,
    pub expired: bool,
    pub time_limit_minutes: u64,
    pub data_usage_limit_mbytes: Option<u64>,
    pub rx_rate_limit_kbps: Option<u64>,
    pub tx_rate_limit_kbps: Option<u64>,
}

pub struct VoucherView {
    pub id: Seq<char>,
    pub created_at: Seq<char>,
    pub name: Seq<char>,
    pub code: Seq<char>,
    pub authorized_guest_limit: Option<u64>,
    pub authorized_guest_count: u64,
    pub activated_at: Option<Seq<char>>,
    pub expires_at: Option<Seq<char>>,
    pub expired: bool,
    pub time_limit_minutes: u64,
    pub data_usage_limit_mbytes: Option<u64>,
    pub rx_rate_limit_kbps: Option<u64>,
    pub tx_rate_limit_kbps: Option<u64>,
}

pub open spec fn opt_text(o: Option<String>) -> Option<Seq<char>> {
    match o {
        Some(s) => Some(s@),
        None => None,
    }
}

impl View for Voucher {
    type V = VoucherView;

    open spec fn view(&self) -> VoucherView {
        VoucherView {
            id: self.id@,
            created_at: self.created_at@,
            name: self.name@,
            code: self.code@,
            authorized_guest_limit: self.authorized_guest_limit,
            authorized_guest_count: self.authorized_guest_count,
            activated_at: opt_text(self.activated_at),
            expires_at: opt_text(self.expires_at),
            expired: self.expired,
            time_limit_minutes: self.time_limit_minutes,
            data_usage_limit_mbytes: self.data_usage_limit_mbytes,
            rx_rate_limit_kbps: self.rx_rate_limit_kbps,
            tx_rate_limit_kbps: self.tx_rate_limit_kbps,
        }
    }
}

pub open spec fn vouchers_view(v: Seq<Voucher>) -> Seq<VoucherView> {
    v.map_values(|x: Voucher| x@)
}

impl Voucher {
    /// A voucher with the same contents.
    pub fn copy(&self) -> (r: Voucher)
        ensures
            r@ == self@,
    {
        Voucher {
            id: self.id.clone(),
            created_at: self.created_at.clone(),
            name: self.name.clone(),
            code: self.code.clone(),
            authorized_guest_limit: self.authorized_guest_limit,
            authorized_guest_count: self.authorized_guest_count,
            activated_at: match &self.activated_at {
                Some(a) => Some(a.clone()),
                None => None,
            },
            expires_at: match &self.expires_at {
                Some(a) => Some(a.clone()),
                None => None,
            },
            expired: self.expired,
            time_limit_minutes: self.time_limit_minutes,
            data_usage_limit_mbytes: self.data_usage_limit_mbytes,
            rx_rate_limit_kbps: self.rx_rate_limit_kbps,
            tx_rate_limit_kbps: self.tx_rate_limit_kbps,
        }
    }
}

pub struct VouchersCreateRequest {
    pub count: u32,
    pub name: String,
    pub authorized_guest_limit: Option<u64>,
    pub time_limit_minutes: u64,
    pub data_usage_limit_mbytes: Option<u64>,
    pub rx_rate_limit_kbps: Option<u64>,
    pub tx_rate_limit_kbps: Option<u64>,
}

pub struct VouchersCreateResponse {
    pub vouchers: Vec<Voucher>,
}

pub struct VouchersGetResponse {
    pub offset: u64,
    pub limit: u32,
    pub count: u32,
    pub total_count: u64,
    pub data: Vec<Voucher>,
}

pub struct DeleteResponse {
    pub vouchers_deleted: u32,
}

pub struct VouchersGetRequest {
    pub offset: u32,
    pub limit: u32,
    pub filter: Option<String>,
}

pub struct VouchersDeleteRequest {
    pub ids: String,
}

pub struct VoucherDetailsRequest {
    pub id: String,
}

pub struct Site {
    pub id: String,
    pub internal_reference: String,
    pub name: String,
}

pub struct GetSitesResponse {
    pub offset: u64,
    pub limit: u32,
    pub count: u32,
    pub total_count: u32,
    pub data: Vec<Site>,
}

pub struct ErrorResponse {
    pub status_code: i32,
    pub status_name: String,
    pub message: String,
    pub timestamp: String,
    pub request_path: String,
    pub request_id: String,
}

} // verus!
