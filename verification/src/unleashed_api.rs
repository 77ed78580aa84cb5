//! The Unleashed controller protocol: session scraping, request framing and
//! the interpretation of the controller's answers.
use vstd::prelude::*;

use crate::handlers::{first_named, lemma_first_named_stable};
use crate::xml::{
    attr_value, attrs_from, entity_char, is_name_char, lex, name_end, scan, scan_from, unescape_from,
    Lexeme, TagKind, TagView,
};
use crate::models::{
    controller_error, controller_error_of, decimal_text, lemma_decimal_text_reads_back,
    passes_view, push_decimal,
    sanitize_pass_name, sanitized_name, GuestPass, UnleashedError, DUPLICATE_NAME_MSG,
    EMPTY_NAME_MSG,
};
use crate::text::{
    chars_eq, chars_eq_str, chars_of, drop_trailing_char, find_char_exec, find_char_from, find_exec, find_from, lemma_find_char_from,
    lemma_find_from, occurs_at, occurs_at_exec, starts_with, string_from, trim_start,
    push_text, string_of, trim_start_index, is_ws, skip_ws,
};
use crate::decimal::u32_text;

verus! {

/// Login page of the guest-pass manager.
pub const LOGIN_PATH: &'static str = "/user/user_login_guestpass.jsp";
/// Endpoint every AJAX command is posted to.
pub const CMD_PATH: &'static str = "/user/_cmdstat.jsp";
/// Referer the controller expects on AJAX commands.
pub const REFERER_PATH: &'static str = "/user/guestinfo.jsp";
/// Text that precedes the CSRF token in the controller's inline script.
pub const CSRF_MARKER: &'static str = "var csfrToken = '";
/// How an expired session announces itself: a full HTML page.
pub const LOGIN_PAGE_PREFIX: &'static str = "<!DOCTYPE html>";

/// What creating a pass came to.
#[derive(Debug)]
pub enum CreateOutcome {
    Created(GuestPass),
    /// The controller rejected the name as a duplicate, so the pass already
    /// existed and nothing was created.
    AlreadyExists,
}

/// The CSRF token embedded in a page: the text after the first occurrence of
/// the marker, up to the next single quote.
pub open spec fn csrf_token_of(html: Seq<char>) -> Option<Seq<char>> {
    match find_from(html, CSRF_MARKER@, 0) {
        None => None,
        Some(i) => {
            let start = i + CSRF_MARKER@.len();
            match find_char_from(html, '\'', start) {
                None => None,
                Some(end) => Some(html.subrange(start, end)),
            }
        },
    }
}

/// Pull the CSRF token out of the inline script the controller emits on
/// every authenticated page. Scraping is unavoidable -- the token is not
/// exposed in a header or cookie.
pub fn extract_csrf_token(html: &str) -> (r: Option<String>)
    ensures
        r matches Some(t) ==> csrf_token_of(html@) == Some(t@),
        r is None ==> csrf_token_of(html@) is None,
{
    let s = chars_of(html);
    let marker = chars_of(CSRF_MARKER);
    let i = match find_exec(&s, &marker, 0) {
        None => return None,
        Some(i) => i,
    };
    proof {
        lemma_find_from(s@, marker@, 0);
    }
    let start = i + marker.len();
    match find_char_exec(&s, '\'', start) {
        None => None,
        Some(end) => {
            proof {
                lemma_find_char_from(s@, '\'', start as int);
            }
            Some(string_from(&s, start, end))
        },
    }
}

/// The marker ends in its only quote.
proof fn lemma_marker_quote()
    ensures
        CSRF_MARKER@.len() == 17,
        CSRF_MARKER@[16] == '\'',
        forall|q: int| 0 <= q < 16 ==> CSRF_MARKER@[q] != '\'',
{
    reveal_strlit("var csfrToken = '");
    assert(CSRF_MARKER@ =~= seq![
        'v', 'a', 'r', ' ', 'c', 's', 'f', 'r', 'T', 'o', 'k', 'e', 'n', ' ', '=', ' ', '\'',
    ]);
}

/// No marker of `a + marker + rest` starts inside `a` when `a` holds none:
/// one that began there would end with a quote inside the marker after `a`.
proof fn lemma_no_marker_before(a: Seq<char>, rest: Seq<char>, j: int)
    requires
        forall|i: int| !occurs_at(a, CSRF_MARKER@, i),
        0 <= j < a.len(),
    ensures
        !occurs_at(a + CSRF_MARKER@ + rest, CSRF_MARKER@, j),
{
    let m = CSRF_MARKER@;
    let h = a + m + rest;
    let l = a.len() as int;
    lemma_marker_quote();
    if occurs_at(h, m, j) {
        if j + 17 <= l {
            assert(h.subrange(j, j + 17) =~= a.subrange(j, j + 17));
            assert(occurs_at(a, m, j));
        } else {
            assert(h.subrange(j, j + 17)[16] == m[16]);
            assert(h[j + 16] == m[j + 16 - l]);
        }
    }
}

/// The first marker of `a + marker + rest` is the one after `a` when `a`
/// holds none.
proof fn lemma_first_marker(a: Seq<char>, rest: Seq<char>)
    requires
        forall|j: int| !occurs_at(a, CSRF_MARKER@, j),
    ensures
        find_from(a + CSRF_MARKER@ + rest, CSRF_MARKER@, 0) == Some(a.len() as int),
{
    let m = CSRF_MARKER@;
    let h = a + m + rest;
    let l = a.len() as int;
    assert(h.subrange(l, l + m.len()) =~= m);
    assert(occurs_at(h, m, l));
    assert forall|j: int| 0 <= j < l implies !occurs_at(h, m, j) by {
        lemma_no_marker_before(a, rest, j);
    }
    lemma_find_from(h, m, 0);
}

/// The first quote at or after the start of `t + "'" + b` ends `t` when
/// `t` holds none.
proof fn lemma_first_quote(p: Seq<char>, t: Seq<char>, b: Seq<char>)
    requires
        forall|k: int| 0 <= k < t.len() ==> t[k] != '\'',
    ensures
        find_char_from(p + t + seq!['\''] + b, '\'', p.len() as int) == Some(
            (p.len() + t.len()) as int,
        ),
{
    let h = p + t + seq!['\''] + b;
    let start = p.len() as int;
    let end = start + t.len();
    assert forall|j: int| start <= j < end implies h[j] != '\'' by {
        assert(h[j] == t[j - start]);
    }
    assert(h[end] == '\'');
    lemma_find_char_from(h, '\'', start);
}

/// A page that carries the marker once, followed by a token without quotes
/// and a closing quote, yields exactly that token, whatever comes after.
pub proof fn lemma_csrf_token_recovered(a: Seq<char>, t: Seq<char>, b: Seq<char>)
    requires
        forall|j: int| !occurs_at(a, CSRF_MARKER@, j),
        forall|k: int| 0 <= k < t.len() ==> t[k] != '\'',
    ensures
        csrf_token_of(a + CSRF_MARKER@ + t + seq!['\''] + b) == Some(t),
{
    let m = CSRF_MARKER@;
    let h = a + m + t + seq!['\''] + b;
    let rest = t + seq!['\''] + b;
    assert(h =~= a + m + rest);
    lemma_first_marker(a, rest);
    let p = a + m;
    assert(h =~= p + t + seq!['\''] + b);
    lemma_first_quote(p, t, b);
    let start = p.len() as int;
    assert(h.subrange(start, start + t.len()) =~= t);
}

/// Whether a reply is the controller's HTML login page rather than an XML
/// envelope: after leading whitespace it starts with the doctype.
pub open spec fn is_login_page_text(body: Seq<char>) -> bool {
    starts_with(trim_start(body), LOGIN_PAGE_PREFIX@)
}

/// The controller answers an expired session with a full HTML login page
/// instead of an XML envelope.
pub fn is_login_page(body: &str) -> (r: bool)
    ensures
        r == is_login_page_text(body@),
{
    let s = chars_of(body);
    let prefix = chars_of(LOGIN_PAGE_PREFIX);
    let a = trim_start_index(&s);
    let ghost rest = s@.subrange(a as int, s@.len() as int);
    let r = occurs_at_exec(&s, &prefix, a);
    proof {
        if r {
            assert(rest.subrange(0, prefix@.len() as int) =~= s@.subrange(
                a as int,
                a + prefix@.len(),
            ));
        } else if occurs_at(rest, prefix@, 0) {
            assert(rest.subrange(0, prefix@.len() as int) =~= s@.subrange(
                a as int,
                a + prefix@.len(),
            ));
        }
    }
    r
}

/// The URL of `path` on the controller at `base`, without doubling the `/`.
pub open spec fn controller_url_text(base: Seq<char>, path: Seq<char>) -> Seq<char> {
    base.subrange(0, drop_trailing_char(base, '/', 0, base.len() as int)) + path
}

/// `base` with trailing `/` removed, followed by `path`.
pub fn controller_url(base: &str, path: &str) -> (r: String)
    ensures
        r@ == controller_url_text(base@, path@),
{
    let b = chars_of(base);
    let mut end = b.len();
    while end > 0 && b[end - 1] == '/'
        invariant
            end <= b.len(),
            drop_trailing_char(b@, '/', 0, b@.len() as int) == drop_trailing_char(
                b@,
                '/',
                0,
                end as int,
            ),
        decreases end,
    {
        end = end - 1;
    }
    let mut out = b;
    out.truncate(end);
    push_text(&mut out, path);
    let r = string_of(&out);
    assert(r@ =~= controller_url_text(base@, path@));
    r
}

/// How one character is written inside an XML attribute value.
pub open spec fn escape_char(c: char) -> Seq<char> {
    if c == '&' {
        "&amp;"@
    } else if c == '<' {
        "&lt;"@
    } else if c == '>' {
        "&gt;"@
    } else if c == '\'' {
        "&apos;"@
    } else if c == '"' {
        "&quot;"@
    } else {
        seq![c]
    }
}

/// Text escaped for an XML attribute value.
pub open spec fn xml_escaped(s: Seq<char>) -> Seq<char>
    decreases s.len(),
{
    if s.len() == 0 {
        seq![]
    } else {
        xml_escaped(s.drop_last()) + escape_char(s.last())
    }
}

/// Appends `s` escaped for an XML attribute value.
pub fn push_escaped(out: &mut Vec<char>, s: &str)
    ensures
        final(out)@ == old(out)@ + xml_escaped(s@),
{
    let v = chars_of(s);
    let ghost start = out@;
    let mut i: usize = 0;
    while i < v.len()
        invariant
            i <= v.len(),
            v@ == s@,
            out@ == start + xml_escaped(v@.take(i as int)),
        decreases v.len() - i,
    {
        let c = v[i];
        let ghost before = out@;
        if c == '&' {
            push_text(out, "&amp;");
        } else if c == '<' {
            push_text(out, "&lt;");
        } else if c == '>' {
            push_text(out, "&gt;");
        } else if c == '\'' {
            push_text(out, "&apos;");
        } else if c == '"' {
            push_text(out, "&quot;");
        } else {
            out.push(c);
            assert(out@ =~= before + seq![c]);
        }
        assert(v@.take(i + 1).drop_last() =~= v@.take(i as int));
        assert(out@ =~= start + xml_escaped(v@.take(i + 1)));
        i = i + 1;
    }
    assert(v@.take(v.len() as int) =~= v@);
}

/// Attribute values are interpolated into XML, so escape them.
pub fn xml_escape(s: &str) -> (r: String)
    ensures
        r@ == xml_escaped(s@),
{
    let mut out: Vec<char> = Vec::new();
    push_escaped(&mut out, s);
    assert(out@ =~= xml_escaped(s@));
    string_of(&out)
}

/// The entity that stands for a character `escape_char` escapes.
spec fn entity_name(c: char) -> Seq<char> {
    if c == '&' {
        "amp"@
    } else if c == '<' {
        "lt"@
    } else if c == '>' {
        "gt"@
    } else if c == '\'' {
        "apos"@
    } else {
        "quot"@
    }
}

spec fn is_escaped(c: char) -> bool {
    c == '&' || c == '<' || c == '>' || c == '\'' || c == '"'
}

proof fn lemma_escape_char_shape(c: char)
    ensures
        is_escaped(c) ==> {
            &&& escape_char(c) =~= seq!['&'] + entity_name(c) + seq![';']
            &&& entity_char(entity_name(c)) == Some(c)
            &&& forall|k: int| 0 <= k < entity_name(c).len() ==> entity_name(c)[k] != ';'
        },
        !is_escaped(c) ==> escape_char(c) == seq![c],
{
    reveal_strlit("amp");
    reveal_strlit("lt");
    reveal_strlit("gt");
    reveal_strlit("apos");
    reveal_strlit("quot");
    assert("amp"@ =~= seq!['a', 'm', 'p']);
    assert("lt"@ =~= seq!['l', 't']);
    assert("gt"@ =~= seq!['g', 't']);
    assert("apos"@ =~= seq!['a', 'p', 'o', 's']);
    assert("quot"@ =~= seq!['q', 'u', 'o', 't']);
    if c == '&' {
        reveal_strlit("&amp;");
        assert("&amp;"@ =~= seq!['&', 'a', 'm', 'p', ';']);
    } else if c == '<' {
        reveal_strlit("&lt;");
        assert("&lt;"@ =~= seq!['&', 'l', 't', ';']);
        assert("lt"@ != "amp"@);
    } else if c == '>' {
        reveal_strlit("&gt;");
        assert("&gt;"@ =~= seq!['&', 'g', 't', ';']);
        assert("gt"@ != "amp"@);
        assert("gt"@ != "lt"@);
    } else if c == '\'' {
        reveal_strlit("&apos;");
        assert("&apos;"@ =~= seq!['&', 'a', 'p', 'o', 's', ';']);
        assert("apos"@ != "amp"@);
        assert("apos"@ != "lt"@);
        assert("apos"@ != "gt"@);
    } else if c == '"' {
        reveal_strlit("&quot;");
        assert("&quot;"@ =~= seq!['&', 'q', 'u', 'o', 't', ';']);
        assert("quot"@ != "amp"@);
        assert("quot"@ != "lt"@);
        assert("quot"@ != "gt"@);
        assert("quot"@ != "apos"@);
    }
}

/// Escaping works character by character from the front as well.
proof fn lemma_escaped_front(c: char, t: Seq<char>)
    ensures
        xml_escaped(seq![c] + t) == escape_char(c) + xml_escaped(t),
    decreases t.len(),
{
    let u = seq![c] + t;
    if t.len() == 0 {
        assert(u.drop_last() =~= Seq::<char>::empty());
        assert(u.last() == c);
        assert(xml_escaped(u.drop_last()) =~= Seq::<char>::empty());
        assert(xml_escaped(t) =~= Seq::<char>::empty());
        assert(xml_escaped(u) =~= escape_char(c) + xml_escaped(t));
    } else {
        lemma_escaped_front(c, t.drop_last());
        assert(u.drop_last() =~= seq![c] + t.drop_last());
        assert(u.last() == t.last());
        assert(xml_escaped(u) =~= escape_char(c) + xml_escaped(t));
    }
}

proof fn lemma_unescape_escaped(v: Seq<char>, i: int, acc: Seq<char>, t: Seq<char>)
    requires
        0 <= i <= v.len(),
        v.subrange(i, v.len() as int) == xml_escaped(t),
    ensures
        unescape_from(v, i, acc) == Some(acc + t),
    decreases t.len(),
{
    if t.len() == 0 {
        assert(acc + t =~= acc);
    } else {
        let c = t[0];
        let rest = t.subrange(1, t.len() as int);
        assert(t =~= seq![c] + rest);
        lemma_escaped_front(c, rest);
        lemma_escape_char_shape(c);
        let e = escape_char(c);
        let tail = v.subrange(i, v.len() as int);
        assert(tail =~= e + xml_escaped(rest));
        assert(v.subrange(i + e.len(), v.len() as int) =~= xml_escaped(rest)) by {
            assert forall|k: int| 0 <= k < xml_escaped(rest).len() implies v.subrange(
                i + e.len(),
                v.len() as int,
            )[k] == xml_escaped(rest)[k] by {
                assert(tail[e.len() + k] == v[i + e.len() + k]);
            }
        }
        lemma_unescape_escaped(v, i + e.len(), acc.push(c), rest);
        assert(acc.push(c) + rest =~= acc + t);
        assert(v[i] == tail[0]);
        if is_escaped(c) {
            let name = entity_name(c);
            let k = i + 1 + name.len();
            assert(v[i] == '&');
            assert(v[k] == tail[1 + name.len() as int]);
            assert(v[k] == ';');
            assert forall|j: int| i + 1 <= j < k implies v[j] != ';' by {
                assert(v[j] == tail[j - i]);
                assert(tail[j - i] == name[j - i - 1]);
            }
            lemma_find_char_from(v, ';', i + 1);
            assert(find_char_from(v, ';', i + 1) == Some(k));
            assert(v.subrange(i + 1, k) =~= name) by {
                assert forall|j: int| 0 <= j < name.len() implies v.subrange(i + 1, k)[j]
                    == name[j] by {
                    assert(v[i + 1 + j] == tail[1 + j]);
                }
            }
            assert(k + 1 == i + e.len());
        } else {
            assert(v[i] == c);
        }
    }
}

/// What `xml_escape` writes reads back, through the unescaping that the
/// guest-list parser applies to attribute values, as the text that was escaped.
pub proof fn lemma_escaped_value_reads_back(s: Seq<char>)
    ensures
        unescape_from(xml_escaped(s), 0, seq![]) == Some(s),
{
    let v = xml_escaped(s);
    assert(v.subrange(0, v.len() as int) =~= v);
    lemma_unescape_escaped(v, 0, seq![], s);
    assert(Seq::<char>::empty() + s =~= s);
}

/// One attribute as the commands write it: ` key='value'`.
pub open spec fn attr_text(key: Seq<char>, w: Seq<char>) -> Seq<char> {
    seq![' '] + key + seq!['=', '\''] + w + seq!['\'']
}

proof fn lemma_name_run(s: Seq<char>, k: int, len: int)
    requires
        0 <= k,
        0 <= len,
        k + len < s.len(),
        forall|j: int| k <= j < k + len ==> is_name_char(#[trigger] s[j]),
        !is_name_char(s[k + len]),
    ensures
        name_end(s, k) == k + len,
    decreases len,
{
    if len > 0 {
        lemma_name_run(s, k + 1, len - 1);
    }
}

/// Escaped text holds no single quote.
proof fn lemma_escaped_no_quote(v: Seq<char>)
    ensures
        forall|j: int| 0 <= j < xml_escaped(v).len() ==> #[trigger] xml_escaped(v)[j] != '\'',
    decreases v.len(),
{
    if v.len() > 0 {
        lemma_escaped_no_quote(v.drop_last());
        let c = v.last();
        lemma_escape_char_shape(c);
        reveal_strlit("amp");
        reveal_strlit("lt");
        reveal_strlit("gt");
        reveal_strlit("apos");
        reveal_strlit("quot");
        let e = escape_char(c);
        let a = xml_escaped(v.drop_last());
        assert(xml_escaped(v) == a + e);
        assert forall|j: int| 0 <= j < e.len() implies #[trigger] e[j] != '\'' by {
            if is_escaped(c) {
                assert(e =~= seq!['&'] + entity_name(c) + seq![';']);
                if 0 < j < e.len() - 1 {
                    assert(e[j] == entity_name(c)[j - 1]);
                }
            }
        }
        assert forall|j: int| 0 <= j < xml_escaped(v).len() implies #[trigger] xml_escaped(v)[j]
            != '\'' by {
            if j >= a.len() {
                assert(xml_escaped(v)[j] == e[j - a.len()]);
            }
        }
    }
}

/// Text without `&` unescapes to itself.
proof fn lemma_plain_unescape(w: Seq<char>, i: int, acc: Seq<char>)
    requires
        0 <= i <= w.len(),
        forall|j: int| 0 <= j < w.len() ==> #[trigger] w[j] != '&',
    ensures
        unescape_from(w, i, acc) == Some(acc + w.subrange(i, w.len() as int)),
    decreases w.len() - i,
{
    if i < w.len() {
        lemma_plain_unescape(w, i + 1, acc.push(w[i]));
        assert(acc.push(w[i]) + w.subrange(i + 1, w.len() as int) =~= acc + w.subrange(
            i,
            w.len() as int,
        ));
    } else {
        assert(acc + w.subrange(i, w.len() as int) =~= acc);
    }
}

/// Reading the attribute list at an attribute written by `attr_text` takes
/// in that attribute and goes on after it.
proof fn lemma_attr_step(
    s: Seq<char>,
    i: int,
    key: Seq<char>,
    w: Seq<char>,
    v: Seq<char>,
    acc: Seq<(Seq<char>, Seq<char>)>,
)
    requires
        0 <= i,
        i + attr_text(key, w).len() <= s.len(),
        s.subrange(i, i + attr_text(key, w).len()) == attr_text(key, w),
        key.len() > 0,
        forall|j: int| 0 <= j < key.len() ==> is_name_char(#[trigger] key[j]),
        forall|j: int| 0 <= j < w.len() ==> #[trigger] w[j] != '\'',
        unescape_from(w, 0, seq![]) == Some(v),
    ensures
        attrs_from(s, i, acc) == attrs_from(
            s,
            i + attr_text(key, w).len(),
            acc.push((key, v)),
        ),
{
    let a = attr_text(key, w);
    let kl = key.len() as int;
    let wl = w.len() as int;
    assert(a.len() == kl + wl + 4);
    let a1 = seq![' '] + key;
    let a2 = a1 + seq!['=', '\''];
    let a3 = a2 + w;
    assert(a == a3 + seq!['\'']);
    assert(a1[0] == ' ');
    assert(a[0] == ' ');
    assert forall|j: int| 1 <= j <= kl implies #[trigger] a[j] == key[j - 1] by {
        assert(a1[j] == key[j - 1]);
        assert(a2[j] == a1[j]);
        assert(a3[j] == a2[j]);
    }
    assert(a2[kl + 1] == '=');
    assert(a[kl + 1] == '=');
    assert(a2[kl + 2] == '\'');
    assert(a[kl + 2] == '\'');
    assert forall|t: int| 0 <= t < wl implies #[trigger] a[kl + 3 + t] == w[t] by {
        assert(a3[kl + 3 + t] == w[t]);
    }
    assert(a[kl + 3 + wl] == '\'');
    assert forall|j: int| 0 <= j < a.len() implies s[i + j] == #[trigger] a[j] by {
        assert(s.subrange(i, i + a.len())[j] == s[i + j]);
    }
    assert(s[i] == ' ');
    assert(is_ws(' '));
    let k = i + 1;
    assert(a[1] == key[0]);
    assert(s[i + 1] == a[1]);
    assert(s[k] == key[0]);
    assert(!is_ws(s[k]));
    assert(skip_ws(s, i + 1) == i + 1);
    assert(skip_ws(s, i) == k);
    assert forall|j: int| k <= j < k + kl implies is_name_char(#[trigger] s[j]) by {
        assert(s[j] == a[j - i]);
        assert(a[j - i] == key[j - i - 1]);
    }
    assert(s[i + (kl + 1)] == a[kl + 1]);
    assert(s[k + kl] == '=');
    lemma_name_run(s, k, kl);
    let ne = k + kl;
    assert(skip_ws(s, ne) == ne);
    let q = ne + 1;
    assert(s[i + (kl + 2)] == a[kl + 2]);
    assert(s[q] == '\'');
    assert(skip_ws(s, q) == q);
    let qe = q + 1 + wl;
    assert forall|j: int| q + 1 <= j < qe implies s[j] != '\'' by {
        assert(s[j] == a[j - i]);
        assert(a[j - i] == w[j - q - 1]);
    }
    assert(s[qe] == a[qe - i]);
    assert(s[qe] == '\'');
    lemma_find_char_from(s, '\'', q + 1);
    assert(find_char_from(s, '\'', q + 1) == Some(qe));
    assert(s.subrange(q + 1, qe) =~= w) by {
        assert forall|j: int| 0 <= j < wl implies s.subrange(q + 1, qe)[j] == w[j] by {
            assert(s[q + 1 + j] == a[q + 1 + j - i]);
        }
    }
    assert(s.subrange(k, ne) =~= key) by {
        assert forall|j: int| 0 <= j < kl implies s.subrange(k, ne)[j] == key[j] by {
            assert(s[k + j] == a[k + j - i]);
        }
    }
    assert(qe + 1 == i + a.len());
}

proof fn lemma_piece(s: Seq<char>, p: Seq<char>, a: Seq<char>)
    requires
        p.len() + a.len() <= s.len(),
        s.subrange(0, (p.len() + a.len()) as int) == p + a,
    ensures
        s.subrange(p.len() as int, (p.len() + a.len()) as int) == a,
        s.subrange(0, p.len() as int) == p,
{
    let n = (p.len() + a.len()) as int;
    assert forall|j: int| 0 <= j < a.len() implies s.subrange(p.len() as int, n)[j] == a[j] by {
        assert(s.subrange(0, n)[p.len() + j] == (p + a)[p.len() + j]);
    }
    assert(s.subrange(p.len() as int, n) =~= a);
    assert forall|j: int| 0 <= j < p.len() implies s.subrange(0, p.len() as int)[j] == p[j] by {
        assert(s.subrange(0, n)[j] == (p + a)[j]);
    }
    assert(s.subrange(0, p.len() as int) =~= p);
}

/// Key of an attribute: a non-empty run of name characters.
spec fn good_key(k: Seq<char>) -> bool {
    k.len() > 0 && forall|j: int| 0 <= j < k.len() ==> is_name_char(#[trigger] k[j])
}

/// Value text of an attribute that reads back as `v`: no quote, and
/// unescaping gives `v`.
spec fn good_value(w: Seq<char>, v: Seq<char>) -> bool {
    (forall|j: int| 0 <= j < w.len() ==> #[trigger] w[j] != '\'') && unescape_from(w, 0, seq![])
        == Some(v)
}

proof fn lemma_escaped_value_good(v: Seq<char>)
    ensures
        good_value(xml_escaped(v), v),
{
    lemma_escaped_no_quote(v);
    lemma_escaped_value_reads_back(v);
}

proof fn lemma_plain_value_good(w: Seq<char>)
    requires
        forall|j: int| 0 <= j < w.len() ==> #[trigger] w[j] != '&' && w[j] != '\'',
    ensures
        good_value(w, w),
{
    lemma_plain_unescape(w, 0, seq![]);
    assert(Seq::<char>::empty() + w.subrange(0, w.len() as int) =~= w);
}

proof fn lemma_decimal_value_good(n: nat)
    requires
        n <= u32::MAX,
    ensures
        good_value(decimal_text(n), decimal_text(n)),
        u32_text(decimal_text(n)) == Some(n as int),
{
    lemma_decimal_text_reads_back(n);
    lemma_plain_value_good(decimal_text(n));
}

proof fn lemma_attr_step_good(
    s: Seq<char>,
    p: Seq<char>,
    key: Seq<char>,
    w: Seq<char>,
    v: Seq<char>,
    acc: Seq<(Seq<char>, Seq<char>)>,
)
    requires
        p.len() + attr_text(key, w).len() <= s.len(),
        s.subrange(0, (p.len() + attr_text(key, w).len()) as int) == p + attr_text(key, w),
        good_key(key),
        good_value(w, v),
    ensures
        attrs_from(s, p.len() as int, acc) == attrs_from(
            s,
            (p.len() + attr_text(key, w).len()) as int,
            acc.push((key, v)),
        ),
        s.subrange(0, p.len() as int) == p,
{
    lemma_piece(s, p, attr_text(key, w));
    lemma_attr_step(s, p.len() as int, key, w, v, acc);
}

/// The attributes of the `create-guest` command, numbered 1 to 8: key,
/// written value, and the value it stands for.
spec fn cg_key(j: int) -> Seq<char> {
    if j == 1 {
        "cmd"@
    } else if j == 2 {
        "name"@
    } else if j == 3 {
        "ssid"@
    } else if j == 4 {
        "x-key"@
    } else if j == 5 {
        "duration"@
    } else if j == 6 {
        "duration-unit"@
    } else if j == 7 {
        "share-number"@
    } else {
        "reauth-enabled"@
    }
}

spec fn cg_value(j: int, name: Seq<char>, ssid: Seq<char>, key: Seq<char>, d: nat, sh: nat) -> Seq<
    char,
> {
    if j == 1 {
        "create-guest"@
    } else if j == 2 {
        name
    } else if j == 3 {
        ssid
    } else if j == 4 {
        key
    } else if j == 5 {
        decimal_text(d)
    } else if j == 6 {
        "hour"@
    } else if j == 7 {
        decimal_text(sh)
    } else {
        "false"@
    }
}

spec fn cg_written(j: int, name: Seq<char>, ssid: Seq<char>, key: Seq<char>, d: nat, sh: nat) -> Seq<
    char,
> {
    if j == 2 {
        xml_escaped(name)
    } else if j == 3 {
        xml_escaped(ssid)
    } else if j == 4 {
        xml_escaped(key)
    } else {
        cg_value(j, name, ssid, key, d, sh)
    }
}

spec fn cg_prefix(j: int, name: Seq<char>, ssid: Seq<char>, key: Seq<char>, d: nat, sh: nat) -> Seq<
    char,
>
    decreases j,
{
    if j <= 0 {
        "<xcmd"@
    } else {
        cg_prefix(j - 1, name, ssid, key, d, sh) + attr_text(
            cg_key(j),
            cg_written(j, name, ssid, key, d, sh),
        )
    }
}

spec fn cg_values(j: int, name: Seq<char>, ssid: Seq<char>, key: Seq<char>, d: nat, sh: nat) -> Seq<
    (Seq<char>, Seq<char>),
>
    decreases j,
{
    if j <= 0 {
        seq![]
    } else {
        cg_values(j - 1, name, ssid, key, d, sh).push((cg_key(j), cg_value(j, name, ssid, key, d, sh)))
    }
}

proof fn lemma_cg_good(j: int, name: Seq<char>, ssid: Seq<char>, key: Seq<char>, d: nat, sh: nat)
    requires
        1 <= j <= 8,
        d <= u32::MAX,
        sh <= u32::MAX,
    ensures
        good_key(cg_key(j)),
        good_value(cg_written(j, name, ssid, key, d, sh), cg_value(j, name, ssid, key, d, sh)),
{
    reveal_strlit("cmd");
    reveal_strlit("create-guest");
    reveal_strlit("name");
    reveal_strlit("ssid");
    reveal_strlit("x-key");
    reveal_strlit("duration");
    reveal_strlit("duration-unit");
    reveal_strlit("hour");
    reveal_strlit("share-number");
    reveal_strlit("reauth-enabled");
    reveal_strlit("false");
    if j == 1 {
        lemma_plain_value_good("create-guest"@);
    } else if j == 2 {
        lemma_escaped_value_good(name);
    } else if j == 3 {
        lemma_escaped_value_good(ssid);
    } else if j == 4 {
        lemma_escaped_value_good(key);
    } else if j == 5 {
        lemma_decimal_value_good(d);
    } else if j == 6 {
        lemma_plain_value_good("hour"@);
    } else if j == 7 {
        lemma_decimal_value_good(sh);
    } else {
        lemma_plain_value_good("false"@);
    }
}

proof fn lemma_cg_attrs(
    t: Seq<char>,
    j: int,
    name: Seq<char>,
    ssid: Seq<char>,
    key: Seq<char>,
    d: nat,
    sh: nat,
)
    requires
        0 <= j <= 8,
        d <= u32::MAX,
        sh <= u32::MAX,
        cg_prefix(8, name, ssid, key, d, sh).len() <= t.len(),
        t.subrange(0, cg_prefix(8, name, ssid, key, d, sh).len() as int) == cg_prefix(
            8,
            name,
            ssid,
            key,
            d,
            sh,
        ),
    ensures
        cg_prefix(j, name, ssid, key, d, sh).len() <= cg_prefix(8, name, ssid, key, d, sh).len(),
        t.subrange(0, cg_prefix(j, name, ssid, key, d, sh).len() as int) == cg_prefix(
            j,
            name,
            ssid,
            key,
            d,
            sh,
        ),
        attrs_from(
            t,
            cg_prefix(j, name, ssid, key, d, sh).len() as int,
            cg_values(j, name, ssid, key, d, sh),
        ) == attrs_from(
            t,
            cg_prefix(8, name, ssid, key, d, sh).len() as int,
            cg_values(8, name, ssid, key, d, sh),
        ),
    decreases 8 - j,
{
    if j < 8 {
        lemma_cg_attrs(t, j + 1, name, ssid, key, d, sh);
        lemma_cg_good(j + 1, name, ssid, key, d, sh);
        lemma_attr_step_good(
            t,
            cg_prefix(j, name, ssid, key, d, sh),
            cg_key(j + 1),
            cg_written(j + 1, name, ssid, key, d, sh),
            cg_value(j + 1, name, ssid, key, d, sh),
            cg_values(j, name, ssid, key, d, sh),
        );
    }
}

#[verifier::rlimit(50)]
#[verifier::spinoff_prover]
proof fn lemma_cg_shape(name: Seq<char>, ssid: Seq<char>, key: Seq<char>, d: nat, sh: nat)
    ensures
        create_guest_command_text(name, ssid, key, d, sh) == cg_prefix(8, name, ssid, key, d, sh)
            + seq!['/', '>'],
{
    reveal_strlit("<xcmd cmd='create-guest' name='");
    reveal_strlit("' ssid='");
    reveal_strlit("' x-key='");
    reveal_strlit("' duration='");
    reveal_strlit("' duration-unit='hour' share-number='");
    reveal_strlit("' reauth-enabled='false'/>");
    reveal_strlit("xcmd");
    reveal_strlit("cmd");
    reveal_strlit("create-guest");
    reveal_strlit("name");
    reveal_strlit("ssid");
    reveal_strlit("x-key");
    reveal_strlit("duration");
    reveal_strlit("duration-unit");
    reveal_strlit("hour");
    reveal_strlit("share-number");
    reveal_strlit("reauth-enabled");
    reveal_strlit("false");
    reveal_strlit("<xcmd");
    reveal_with_fuel(cg_prefix, 9);
    let en = xml_escaped(name);
    let es = xml_escaped(ssid);
    let ek = xml_escaped(key);
    let dd = decimal_text(d);
    let ds = decimal_text(sh);
    let p1 = cg_prefix(1, name, ssid, key, d, sh);
    let p2 = cg_prefix(2, name, ssid, key, d, sh);
    let p3 = cg_prefix(3, name, ssid, key, d, sh);
    let p4 = cg_prefix(4, name, ssid, key, d, sh);
    let p5 = cg_prefix(5, name, ssid, key, d, sh);
    let p6 = cg_prefix(6, name, ssid, key, d, sh);
    let p7 = cg_prefix(7, name, ssid, key, d, sh);
    let p8 = cg_prefix(8, name, ssid, key, d, sh);
    let q = seq!['\''];
    let tail = seq!['/', '>'];
    let x2 = seq![' '] + "name"@ + seq!['=', '\''];
    let x3 = seq![' '] + "ssid"@ + seq!['=', '\''];
    let x4 = seq![' '] + "x-key"@ + seq!['=', '\''];
    let x5 = seq![' '] + "duration"@ + seq!['=', '\''];
    let x7 = seq![' '] + "share-number"@ + seq!['=', '\''];
    let a6 = attr_text("duration-unit"@, "hour"@);
    let a8 = attr_text("reauth-enabled"@, "false"@);
    assert(p1 =~= "<xcmd"@ + attr_text("cmd"@, "create-guest"@));
    assert("<xcmd cmd='create-guest' name='"@ =~= p1 + x2);
    assert("' ssid='"@ =~= q + x3);
    assert("' x-key='"@ =~= q + x4);
    assert("' duration='"@ =~= q + x5);
    assert("' duration-unit='hour' share-number='"@ =~= q + a6 + x7);
    assert("' reauth-enabled='false'/>"@ =~= q + a8 + tail);
    assert(p2 =~= p1 + (x2 + en + q));
    assert(p3 =~= p2 + (x3 + es + q));
    assert(p4 =~= p3 + (x4 + ek + q));
    assert(p5 =~= p4 + (x5 + dd + q));
    assert(p6 =~= p5 + a6);
    assert(p7 =~= p6 + (x7 + ds + q));
    assert(p8 =~= p7 + a8);
    let s1 = "<xcmd cmd='create-guest' name='"@ + en;
    let s2 = s1 + "' ssid='"@;
    assert(s2 =~= p2 + x3);
    let s3 = s2 + es;
    let s4 = s3 + "' x-key='"@;
    assert(s4 =~= p3 + x4);
    let s5 = s4 + ek;
    let s6 = s5 + "' duration='"@;
    assert(s6 =~= p4 + x5);
    let s7 = s6 + dd;
    let s8 = s7 + "' duration-unit='hour' share-number='"@;
    assert(s8 =~= p6 + x7);
    let s9 = s8 + ds;
    let s10 = s9 + "' reauth-enabled='false'/>"@;
    assert(s10 =~= p8 + tail);
}

/// The `create-guest` command, read back through this crate's XML reader, is
/// one self-closing `xcmd` tag whose attributes are, in order: the command,
/// the name, SSID and key as given, the duration as the decimal text of
/// exactly `duration_hours` (which `u32` parsing reads back as that number)
/// with the unit `hour`, the share number likewise, and `reauth-enabled`.
#[verifier::rlimit(50)]
#[verifier::spinoff_prover]
pub proof fn lemma_create_guest_reads_back(
    name: Seq<char>,
    ssid: Seq<char>,
    key: Seq<char>,
    duration_hours: nat,
    share_number: nat,
)
    requires
        duration_hours <= u32::MAX,
        share_number <= u32::MAX,
    ensures
        ({
            let (tags, failed) = scan(
                create_guest_command_text(name, ssid, key, duration_hours, share_number),
            );
            &&& !failed
            &&& tags.len() == 1
            &&& tags[0].name == "xcmd"@
            &&& tags[0].kind == TagKind::SelfClosing
            &&& tags[0].attrs == seq![
                ("cmd"@, "create-guest"@),
                ("name"@, name),
                ("ssid"@, ssid),
                ("x-key"@, key),
                ("duration"@, decimal_text(duration_hours)),
                ("duration-unit"@, "hour"@),
                ("share-number"@, decimal_text(share_number)),
                ("reauth-enabled"@, "false"@),
            ]
            &&& attr_value(tags[0].attrs, "duration"@) matches Some(t) && u32_text(t) == Some(
                duration_hours as int,
            )
            &&& attr_value(tags[0].attrs, "duration-unit"@) == Some("hour"@)
            &&& attr_value(tags[0].attrs, "share-number"@) matches Some(t) && u32_text(t) == Some(
                share_number as int,
            )
        }),
{
    let (d, sh) = (duration_hours, share_number);
    let t = create_guest_command_text(name, ssid, key, d, sh);
    let p8 = cg_prefix(8, name, ssid, key, d, sh);
    let v8 = cg_values(8, name, ssid, key, d, sh);
    lemma_cg_shape(name, ssid, key, d, sh);
    assert(t.subrange(0, p8.len() as int) =~= p8);
    lemma_cg_attrs(t, 0, name, ssid, key, d, sh);
    reveal_strlit("<xcmd");
    reveal_strlit("xcmd");
    reveal_strlit("<!--");
    let p0 = cg_prefix(0, name, ssid, key, d, sh);
    assert(p0 == "<xcmd"@);
    // the end of the tag
    let n8 = p8.len() as int;
    assert(t[n8] == '/' && t[n8 + 1] == '>');
    assert(skip_ws(t, n8) == n8);
    assert(attrs_from(t, n8, v8) == Some((v8, true, n8 + 2)));
    // the tag's name
    assert(t.subrange(0, 5)[0] == '<' && t.subrange(0, 5)[1] == 'x');
    assert(t[0] == '<' && t[1] == 'x');
    lemma_cg_attrs(t, 0, name, ssid, key, d, sh);
    assert(cg_prefix(1, name, ssid, key, d, sh).len() > 5);
    assert(t[5] == ' ') by {
        let p1 = cg_prefix(1, name, ssid, key, d, sh);
        lemma_cg_attrs(t, 1, name, ssid, key, d, sh);
        assert(t.subrange(0, p1.len() as int)[5] == p1[5]);
        assert(p1[5] == attr_text(cg_key(1), cg_written(1, name, ssid, key, d, sh))[0]);
    }
    assert(!occurs_at(t, "<!--"@, 0)) by {
        if occurs_at(t, "<!--"@, 0) {
            assert(t.subrange(0, 4)[1] == t[1]);
        }
    }
    assert forall|j: int| 1 <= j < 5 implies is_name_char(#[trigger] t[j]) by {
        assert(t.subrange(0, 5)[j] == t[j]);
    }
    lemma_name_run(t, 1, 4);
    assert(t.subrange(1, 5) =~= "xcmd"@);
    let tag = TagView { name: "xcmd"@, attrs: v8, kind: TagKind::SelfClosing };
    assert(lex(t, 0) == Lexeme::Tag(tag, t.len() as int));
    assert(lex(t, t.len() as int) == Lexeme::End);
    assert(scan(t) == (seq![tag], false)) by {
        assert(scan_from(t, 0, seq![]) == scan_from(t, t.len() as int, seq![].push(tag)));
        assert(seq![].push(tag) =~= seq![tag]);
    }
    lemma_decimal_text_reads_back(d);
    lemma_decimal_text_reads_back(sh);
    reveal_strlit("cmd");
    reveal_strlit("create-guest");
    reveal_strlit("name");
    reveal_strlit("ssid");
    reveal_strlit("x-key");
    reveal_strlit("duration");
    reveal_strlit("duration-unit");
    reveal_strlit("hour");
    reveal_strlit("share-number");
    reveal_strlit("reauth-enabled");
    reveal_strlit("false");
    reveal_with_fuel(cg_values, 9);
    assert(v8 =~= seq![
        ("cmd"@, "create-guest"@),
        ("name"@, name),
        ("ssid"@, ssid),
        ("x-key"@, key),
        ("duration"@, decimal_text(d)),
        ("duration-unit"@, "hour"@),
        ("share-number"@, decimal_text(sh)),
        ("reauth-enabled"@, "false"@),
    ]);
    let a = v8;
    lemma_attr_value_at(a, "duration"@, 4);
    lemma_attr_value_at(a, "duration-unit"@, 5);
    lemma_attr_value_at(a, "share-number"@, 6);
}

/// The first attribute called `key` is the one at `i` when none before it
/// is.
proof fn lemma_attr_value_at(attrs: Seq<(Seq<char>, Seq<char>)>, key: Seq<char>, i: int)
    requires
        0 <= i < attrs.len(),
        attrs[i].0 == key,
        forall|j: int| 0 <= j < i ==> (#[trigger] attrs[j]).0.len() != key.len(),
    ensures
        attr_value(attrs, key) == Some(attrs[i].1),
    decreases i,
{
    if i > 0 {
        assert(attrs[0].0 != key);
        lemma_attr_value_at(attrs.drop_first(), key, i - 1);
    }
}

/// The `generate-guest-key` command for the guest SSID.
pub open spec fn generate_key_command_text(ssid: Seq<char>) -> Seq<char> {
    "<xcmd cmd='generate-guest-key' ssid='"@ + xml_escaped(ssid) + "'/>"@
}

/// Ask the controller to mint a pass code for `ssid`.
pub fn generate_key_command(ssid: &str) -> (r: String)
    ensures
        r@ == generate_key_command_text(ssid@),
{
    let mut out: Vec<char> = Vec::new();
    push_text(&mut out, "<xcmd cmd='generate-guest-key' ssid='");
    push_escaped(&mut out, ssid);
    push_text(&mut out, "'/>");
    let r = string_of(&out);
    assert(r@ =~= generate_key_command_text(ssid@));
    r
}

/// The `create-guest` command. The duration is always sent in hours with
/// `duration-unit='hour'`: the controller silently treats 'day' as hours, so
/// `1 day` would yield a one-hour pass.
pub open spec fn create_guest_command_text(
    name: Seq<char>,
    ssid: Seq<char>,
    key: Seq<char>,
    duration_hours: nat,
    share_number: nat,
) -> Seq<char> {
    "<xcmd cmd='create-guest' name='"@ + xml_escaped(name) + "' ssid='"@ + xml_escaped(ssid)
        + "' x-key='"@ + xml_escaped(key) + "' duration='"@ + decimal_text(duration_hours)
        + "' duration-unit='hour' share-number='"@ + decimal_text(share_number)
        + "' reauth-enabled='false'/>"@
}

pub fn create_guest_command(
    name: &str,
    ssid: &str,
    key: &str,
    duration_hours: u32,
    share_number: u32,
) -> (r: String)
    ensures
        r@ == create_guest_command_text(
            name@,
            ssid@,
            key@,
            duration_hours as nat,
            share_number as nat,
        ),
{
    let mut out: Vec<char> = Vec::new();
    push_text(&mut out, "<xcmd cmd='create-guest' name='");
    push_escaped(&mut out, name);
    push_text(&mut out, "' ssid='");
    push_escaped(&mut out, ssid);
    push_text(&mut out, "' x-key='");
    push_escaped(&mut out, key);
    push_text(&mut out, "' duration='");
    push_decimal(&mut out, duration_hours as u64);
    push_text(&mut out, "' duration-unit='hour' share-number='");
    push_decimal(&mut out, share_number as u64);
    push_text(&mut out, "' reauth-enabled='false'/>");
    let r = string_of(&out);
    assert(r@ =~= create_guest_command_text(
        name@,
        ssid@,
        key@,
        duration_hours as nat,
        share_number as nat,
    ));
    r
}

/// Decimal text of a signed number.
pub open spec fn signed_decimal_text(n: int) -> Seq<char> {
    if n < 0 {
        seq!['-'] + decimal_text((-n) as nat)
    } else {
        decimal_text(n as nat)
    }
}

/// The number the controller expects after the timestamp in `updater`.
pub open spec fn updater_tag(pid: int) -> int {
    pid % 9000 + 1000
}

/// One AJAX request envelope. `updater` carries the component, the time in
/// milliseconds and a per-process tag.
pub open spec fn ajax_request_text(
    action: Seq<char>,
    comp: Seq<char>,
    inner: Seq<char>,
    millis: int,
    pid: int,
) -> Seq<char> {
    "<ajax-request action='"@ + action + "' updater='"@ + comp + "."@ + signed_decimal_text(millis)
        + "."@ + decimal_text(updater_tag(pid) as nat) + "' comp='"@ + comp + "'>"@ + inner
        + "</ajax-request>"@
}

pub fn ajax_request(action: &str, comp: &str, inner: &str, millis: i64, pid: u32) -> (r: String)
    ensures
        r@ == ajax_request_text(action@, comp@, inner@, millis as int, pid as int),
{
    let mut out: Vec<char> = Vec::new();
    push_text(&mut out, "<ajax-request action='");
    push_text(&mut out, action);
    push_text(&mut out, "' updater='");
    push_text(&mut out, comp);
    push_text(&mut out, ".");
    if millis < 0 {
        out.push('-');
        let m: i128 = -(millis as i128);
        push_decimal(&mut out, m as u64);
    } else {
        push_decimal(&mut out, millis as u64);
    }
    push_text(&mut out, ".");
    push_decimal(&mut out, (pid % 9000 + 1000) as u64);
    push_text(&mut out, "' comp='");
    push_text(&mut out, comp);
    push_text(&mut out, "'>");
    push_text(&mut out, inner);
    push_text(&mut out, "</ajax-request>");
    let r = string_of(&out);
    assert(r@ =~= ajax_request_text(action@, comp@, inner@, millis as int, pid as int));
    r
}

/// Where an AJAX call stands after a reply.
pub enum ReplyStep {
    /// The reply is the answer.
    Accept(String),
    /// The session lapsed: log in again and repeat the request once.
    Relogin,
    /// The session lapsed again right after logging in.
    Lapsed,
}

/// Issue one AJAX request, re-authenticating once if the session lapsed: a
/// reply that is the login page asks for a fresh login the first time and
/// fails the call the second time; any other reply is the answer.
pub fn classify_reply(body: String, retried: bool) -> (r: ReplyStep)
    ensures
        is_login_page_text(body@) && !retried ==> r is Relogin,
        is_login_page_text(body@) && retried ==> r is Lapsed,
        !is_login_page_text(body@) ==> (r matches ReplyStep::Accept(b) && b@ == body@),
{
    if !is_login_page(body.as_str()) {
        ReplyStep::Accept(body)
    } else if retried {
        ReplyStep::Lapsed
    } else {
        ReplyStep::Relogin
    }
}

/// The CSRF token a login reply yields; authentication failed when the page
/// carries none.
pub fn login_token(body: &str) -> (r: Result<String, UnleashedError>)
    ensures
        match csrf_token_of(body@) {
            Some(t) => r matches Ok(s) && s@ == t,
            None => r matches Err(UnleashedError::Auth),
        },
{
    match extract_csrf_token(body) {
        Some(t) => Ok(t),
        None => Err(UnleashedError::Auth),
    }
}

/// The name a requested pass is created under; a name with nothing usable
/// left is refused as the controller would refuse it.
pub fn pass_name_for(requested: &str) -> (r: Result<String, UnleashedError>)
    ensures
        match sanitized_name(requested@) {
            Some(n) => r matches Ok(s) && s@ == n,
            None => r matches Err(UnleashedError::Controller { msg }) && msg@ == EMPTY_NAME_MSG@,
        },
{
    match sanitize_pass_name(requested) {
        Ok(n) => Ok(n),
        Err(msg) => Err(UnleashedError::Controller { msg }),
    }
}

/// What the reply to `create-guest` says.
pub enum CreateReply {
    /// The pass was created.
    Accepted,
    /// The name was taken, so the pass already exists and nothing was
    /// created.
    Duplicate,
    /// The controller refused with this error code.
    Refused(String),
}

/// Read the reply to `create-guest`: `E_DuplicatedValue` means the pass
/// already exists, any other controller error is a refusal, and a reply
/// without an error means the pass was created.
pub fn interpret_create_reply(body: &str) -> (r: CreateReply)
    ensures
        match controller_error_of(body@) {
            Some(m) => if m == DUPLICATE_NAME_MSG@ {
                r is Duplicate
            } else {
                r matches CreateReply::Refused(s) && s@ == m
            },
            None => r is Accepted,
        },
{
    match controller_error(body) {
        Some(msg) => {
            let v = chars_of(msg.as_str());
            if chars_eq_str(&v, DUPLICATE_NAME_MSG) {
                CreateReply::Duplicate
            } else {
                CreateReply::Refused(msg)
            }
        },
        None => CreateReply::Accepted,
    }
}

/// Reason given when a created pass is missing from the list that follows.
pub open spec fn not_found_after_create_text(name: Seq<char>) -> Seq<char> {
    "created pass '"@ + name + "' not found in list"@
}

/// The created pass, looked up by name in the list fetched after creating it:
/// re-listing is the only way to get the controller-assigned id.
pub fn find_created_pass(passes: &Vec<GuestPass>, name: &str) -> (r: Result<
    CreateOutcome,
    UnleashedError,
>)
    ensures
        match first_named(passes_view(passes@), name@, passes@.len() as int) {
            Some(i) => r matches Ok(CreateOutcome::Created(p)) && p@ == passes@[i]@,
            None => r matches Err(UnleashedError::Parse(m)) && m@ == not_found_after_create_text(
                name@,
            ),
        },
{
    let wanted = chars_of(name);
    let ghost pv = passes_view(passes@);
    let mut i: usize = 0;
    while i < passes.len()
        invariant
            i <= passes.len(),
            pv == passes_view(passes@),
            wanted@ == name@,
            first_named(pv, name@, i as int) is None,
        decreases passes.len() - i,
    {
        let n = chars_of(passes[i].name.as_str());
        assert(pv[i as int] == passes@[i as int]@);
        if chars_eq(&n, &wanted) {
            assert(first_named(pv, name@, i + 1) == Some(i as int));
            proof {
                lemma_first_named_stable(pv, name@, i + 1, passes.len() as int);
            }
            return Ok(CreateOutcome::Created(passes[i].copy()));
        }
        i = i + 1;
    }
    let mut out: Vec<char> = Vec::new();
    push_text(&mut out, "created pass '");
    push_text(&mut out, name);
    push_text(&mut out, "' not found in list");
    let m = string_of(&out);
    assert(m@ =~= not_found_after_create_text(name@));
    Err(UnleashedError::Parse(m))
}

} // verus!
