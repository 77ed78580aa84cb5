//! The XML the controller answers with, read as a flat sequence of tags.
//!
//! The grammar: text between tags is skipped; `<?...?>`, `<!--...-->` and
//! `<!...>` are skipped; `</name>` is a closing tag; `<name attr="v" ...>`
//! and `<name .../>` are opening and self-closing tags. Attribute values are
//! quoted with `"` or `'`, are preceded by whitespace, and may use the
//! entities `&amp;` `&lt;` `&gt;` `&apos;` `&quot;`. Anything else is an
//! error; the tags read before the first error are kept.
use vstd::prelude::*;

use crate::text::{
    chars_eq_str, chars_of, find_char_exec, find_char_from, find_exec, find_from,
    is_whitespace, is_ws, lemma_find_char_from, lemma_skip_ws_bounds, lemma_find_from, occurs_at, occurs_at_exec,
    skip_ws,
};

verus! {

#[derive(PartialEq, Eq, Structural, Clone, Copy, Debug)]
pub enum TagKind {
    /// `<name ...>`
    Open,
    /// `<name .../>`
    SelfClosing,
    /// `</name>`
    Close,
}

/// One attribute: its name and its unescaped value.
pub struct XmlAttr {
    pub name: Vec<char>,
    pub value: Vec<char>,
}

impl View for XmlAttr {
    type V = (Seq<char>, Seq<char>);

    open spec fn view(&self) -> (Seq<char>, Seq<char>) {
        (self.name@, self.value@)
    }
}

pub struct XmlTag {
    pub name: Vec<char>,
    pub attrs: Vec<XmlAttr>,
    pub kind: TagKind,
}

pub struct TagView {
    pub name: Seq<char>,
    pub attrs: Seq<(Seq<char>, Seq<char>)>,
    pub kind: TagKind,
}

pub open spec fn attrs_view(a: Seq<XmlAttr>) -> Seq<(Seq<char>, Seq<char>)> {
    a.map_values(|x: XmlAttr| x@)
}

impl View for XmlTag {
    type V = TagView;

    open spec fn view(&self) -> TagView {
        TagView { name: self.name@, attrs: attrs_view(self.attrs@), kind: self.kind }
    }
}

pub open spec fn tags_view(t: Seq<XmlTag>) -> Seq<TagView> {
    t.map_values(|x: XmlTag| x@)
}

pub open spec fn is_name_char(c: char) -> bool {
    !is_ws(c) && c != '<' && c != '>' && c != '/' && c != '=' && c != '"' && c != '\''
}

/// End of the name that starts at `i`.
pub open spec fn name_end(s: Seq<char>, i: int) -> int
    decreases s.len() - i,
{
    if 0 <= i < s.len() && is_name_char(s[i]) {
        name_end(s, i + 1)
    } else {
        i
    }
}

/// The character an entity name (between `&` and `;`) stands for.
pub open spec fn entity_char(e: Seq<char>) -> Option<char> {
    if e == "amp"@ {
        Some('&')
    } else if e == "lt"@ {
        Some('<')
    } else if e == "gt"@ {
        Some('>')
    } else if e == "apos"@ {
        Some('\'')
    } else if e == "quot"@ {
        Some('"')
    } else {
        None
    }
}

/// `acc` followed by the unescaped text of `v[i..]`; `None` on an unknown or
/// unterminated entity.
pub open spec fn unescape_from(v: Seq<char>, i: int, acc: Seq<char>) -> Option<Seq<char>>
    decreases v.len() - i,
{
    if i < 0 || i >= v.len() {
        Some(acc)
    } else if v[i] == '&' {
        match find_char_from(v, ';', i + 1) {
            None => None,
            Some(k) => match entity_char(v.subrange(i + 1, k)) {
                None => None,
                Some(c) => if i < k < v.len() {
                    unescape_from(v, k + 1, acc.push(c))
                } else {
                    None
                },
            },
        }
    } else {
        unescape_from(v, i + 1, acc.push(v[i]))
    }
}

/// The attribute list that starts at `i`, after the attributes `acc`:
/// the attributes, whether the tag closes itself, and the index after it.
pub open spec fn attrs_from(s: Seq<char>, i: int, acc: Seq<(Seq<char>, Seq<char>)>) -> Option<
    (Seq<(Seq<char>, Seq<char>)>, bool, int),
>
    decreases s.len() - i,
{
    let k = skip_ws(s, i);
    if i < 0 || k < i || k >= s.len() {
        None
    } else if s[k] == '>' {
        Some((acc, false, k + 1))
    } else if s[k] == '/' {
        if k + 1 < s.len() && s[k + 1] == '>' {
            Some((acc, true, k + 2))
        } else {
            None
        }
    } else if k == i {
        None
    } else {
        let ne = name_end(s, k);
        let q0 = skip_ws(s, ne);
        if ne == k || q0 >= s.len() || s[q0] != '=' {
            None
        } else {
            let q = skip_ws(s, q0 + 1);
            if q >= s.len() || (s[q] != '"' && s[q] != '\'') {
                None
            } else {
                match find_char_from(s, s[q], q + 1) {
                    None => None,
                    Some(qe) => match unescape_from(s.subrange(q + 1, qe), 0, seq![]) {
                        None => None,
                        Some(v) => if i < qe + 1 <= s.len() {
                            attrs_from(s, qe + 1, acc.push((s.subrange(k, ne), v)))
                        } else {
                            None
                        },
                    },
                }
            }
        }
    }
}

pub enum Lexeme {
    End,
    Error,
    Skip(int),
    Tag(TagView, int),
}

/// What stands at index `i`.
pub open spec fn lex(s: Seq<char>, i: int) -> Lexeme {
    if i < 0 || i >= s.len() {
        Lexeme::End
    } else if s[i] != '<' {
        Lexeme::Skip(i + 1)
    } else if i + 1 >= s.len() {
        Lexeme::Error
    } else if s[i + 1] == '?' {
        match find_from(s, "?>"@, i + 2) {
            None => Lexeme::Error,
            Some(k) => Lexeme::Skip(k + 2),
        }
    } else if occurs_at(s, "<!--"@, i) {
        match find_from(s, "-->"@, i + 4) {
            None => Lexeme::Error,
            Some(k) => Lexeme::Skip(k + 3),
        }
    } else if s[i + 1] == '!' {
        match find_char_from(s, '>', i + 2) {
            None => Lexeme::Error,
            Some(k) => Lexeme::Skip(k + 1),
        }
    } else if s[i + 1] == '/' {
        let e = name_end(s, i + 2);
        let k = skip_ws(s, e);
        if e == i + 2 || k >= s.len() || s[k] != '>' {
            Lexeme::Error
        } else {
            Lexeme::Tag(
                TagView { name: s.subrange(i + 2, e), attrs: seq![], kind: TagKind::Close },
                k + 1,
            )
        }
    } else {
        let e = name_end(s, i + 1);
        if e == i + 1 {
            Lexeme::Error
        } else {
            match attrs_from(s, e, seq![]) {
                None => Lexeme::Error,
                Some((a, self_closing, j)) => Lexeme::Tag(
                    TagView {
                        name: s.subrange(i + 1, e),
                        attrs: a,
                        kind: if self_closing {
                            TagKind::SelfClosing
                        } else {
                            TagKind::Open
                        },
                    },
                    j,
                ),
            }
        }
    }
}

/// `acc` followed by the tags of `s[i..]`, and whether reading stopped at an
/// error.
pub open spec fn scan_from(s: Seq<char>, i: int, acc: Seq<TagView>) -> (Seq<TagView>, bool)
    decreases s.len() - i,
{
    match lex(s, i) {
        Lexeme::End => (acc, false),
        Lexeme::Error => (acc, true),
        Lexeme::Skip(j) => if i < j <= s.len() {
            scan_from(s, j, acc)
        } else {
            (acc, true)
        },
        Lexeme::Tag(t, j) => if i < j <= s.len() {
            scan_from(s, j, acc.push(t))
        } else {
            (acc, true)
        },
    }
}

/// The tags of a document, and whether reading it stopped at an error.
pub open spec fn scan(s: Seq<char>) -> (Seq<TagView>, bool) {
    scan_from(s, 0, seq![])
}

/// The value of the first attribute called `key`.
pub open spec fn attr_value(attrs: Seq<(Seq<char>, Seq<char>)>, key: Seq<char>) -> Option<
    Seq<char>,
>
    decreases attrs.len(),
{
    if attrs.len() == 0 {
        None
    } else if attrs[0].0 == key {
        Some(attrs[0].1)
    } else {
        attr_value(attrs.drop_first(), key)
    }
}

pub proof fn lemma_name_end(s: Seq<char>, i: int)
    requires
        0 <= i <= s.len(),
    ensures
        i <= name_end(s, i) <= s.len(),
    decreases s.len() - i,
{
    if i < s.len() && is_name_char(s[i]) {
        lemma_name_end(s, i + 1);
    }
}

fn skip_ws_exec(s: &Vec<char>, i: usize) -> (r: usize)
    requires
        i <= s.len(),
    ensures
        r == skip_ws(s@, i as int),
        i <= r <= s.len(),
{
    let mut k = i;
    while k < s.len() && is_whitespace(s[k])
        invariant
            i <= k <= s.len(),
            skip_ws(s@, i as int) == skip_ws(s@, k as int),
        decreases s.len() - k,
    {
        k = k + 1;
    }
    k
}

fn is_name_char_exec(c: char) -> (r: bool)
    ensures
        r == is_name_char(c),
{
    !is_whitespace(c) && c != '<' && c != '>' && c != '/' && c != '=' && c != '"' && c != '\''
}

fn name_end_exec(s: &Vec<char>, i: usize) -> (r: usize)
    requires
        i <= s.len(),
    ensures
        r == name_end(s@, i as int),
        i <= r <= s.len(),
{
    let mut k = i;
    while k < s.len() && is_name_char_exec(s[k])
        invariant
            i <= k <= s.len(),
            name_end(s@, i as int) == name_end(s@, k as int),
        decreases s.len() - k,
    {
        k = k + 1;
    }
    k
}

/// The characters `s[lo..hi]`.
pub fn sub_chars(s: &Vec<char>, lo: usize, hi: usize) -> (r: Vec<char>)
    requires
        lo <= hi <= s.len(),
    ensures
        r@ == s@.subrange(lo as int, hi as int),
{
    let mut r: Vec<char> = Vec::new();
    let mut i = lo;
    while i < hi
        invariant
            lo <= i <= hi <= s.len(),
            r@ == s@.subrange(lo as int, i as int),
        decreases hi - i,
    {
        r.push(s[i]);
        assert(s@.subrange(lo as int, i + 1) == s@.subrange(lo as int, i as int).push(s@[i as int]));
        i = i + 1;
    }
    r
}

fn entity_char_exec(e: &Vec<char>) -> (r: Option<char>)
    ensures
        r == entity_char(e@),
{
    if chars_eq_str(e, "amp") {
        Some('&')
    } else if chars_eq_str(e, "lt") {
        Some('<')
    } else if chars_eq_str(e, "gt") {
        Some('>')
    } else if chars_eq_str(e, "apos") {
        Some('\'')
    } else if chars_eq_str(e, "quot") {
        Some('"')
    } else {
        None
    }
}

/// The text of `v` with its entities replaced.
pub fn unescape(v: &Vec<char>) -> (r: Option<Vec<char>>)
    ensures
        r matches Some(u) ==> unescape_from(v@, 0, seq![]) == Some(u@),
        r is None ==> unescape_from(v@, 0, seq![]) is None,
{
    let mut acc: Vec<char> = Vec::new();
    let mut i: usize = 0;
    while i < v.len()
        invariant
            i <= v.len(),
            unescape_from(v@, 0, seq![]) == unescape_from(v@, i as int, acc@),
        decreases v.len() - i,
    {
        if v[i] == '&' {
            match find_char_exec(v, ';', i + 1) {
                None => return None,
                Some(k) => {
                    proof {
                        lemma_find_char_from(v@, ';', i + 1);
                    }
                    let e = sub_chars(v, i + 1, k);
                    match entity_char_exec(&e) {
                        None => return None,
                        Some(c) => {
                            acc.push(c);
                            i = k + 1;
                        },
                    }
                },
            }
        } else {
            acc.push(v[i]);
            i = i + 1;
        }
    }
    Some(acc)
}

/// The attribute list that starts at `i`: the attributes, whether the tag
/// closes itself, and the index after the tag.
pub fn attrs_at(s: &Vec<char>, i0: usize) -> (r: Option<(Vec<XmlAttr>, bool, usize)>)
    requires
        i0 <= s.len(),
    ensures
        r matches Some((a, sc, j)) ==> attrs_from(s@, i0 as int, seq![]) == Some(
            (attrs_view(a@), sc, j as int),
        ) && j <= s.len(),
        r is None ==> attrs_from(s@, i0 as int, seq![]) is None,
{
    let mut acc: Vec<XmlAttr> = Vec::new();
    let mut i = i0;
    assert(attrs_view(acc@) =~= seq![]);
    loop
        invariant
            i0 <= i <= s.len(),
            attrs_from(s@, i0 as int, seq![]) == attrs_from(s@, i as int, attrs_view(acc@)),
        decreases s.len() - i,
    {
        let k = skip_ws_exec(s, i);
        proof {
            lemma_skip_ws_bounds(s@, i as int);
        }
        if k >= s.len() {
            return None;
        }
        if s[k] == '>' {
            return Some((acc, false, k + 1));
        }
        if s[k] == '/' {
            if k + 1 < s.len() && s[k + 1] == '>' {
                return Some((acc, true, k + 2));
            }
            return None;
        }
        if k == i {
            return None;
        }
        let ne = name_end_exec(s, k);
        let q0 = skip_ws_exec(s, ne);
        if ne == k || q0 >= s.len() || s[q0] != '=' {
            return None;
        }
        let q = skip_ws_exec(s, q0 + 1);
        if q >= s.len() || (s[q] != '"' && s[q] != '\'') {
            return None;
        }
        let quote = s[q];
        match find_char_exec(s, quote, q + 1) {
            None => {
                return None;
            },
            Some(qe) => {
                proof {
                    lemma_find_char_from(s@, quote, q + 1);
                }
                let raw = sub_chars(s, q + 1, qe);
                match unescape(&raw) {
                    None => {
                        return None;
                    },
                    Some(v) => {
                        let name = sub_chars(s, k, ne);
                        let ghost before = acc@;
                        let attr = XmlAttr { name, value: v };
                        acc.push(attr);
                        assert(attrs_view(acc@) =~= attrs_view(before).push(
                            (s@.subrange(k as int, ne as int), v@),
                        ));
                        i = qe + 1;
                    },
                }
            },
        }
    }
}

pub enum Lexed {
    End,
    Error,
    Skip(usize),
    Tag(XmlTag, usize),
}

impl View for Lexed {
    type V = Lexeme;

    open spec fn view(&self) -> Lexeme {
        match self {
            Lexed::End => Lexeme::End,
            Lexed::Error => Lexeme::Error,
            Lexed::Skip(j) => Lexeme::Skip(*j as int),
            Lexed::Tag(t, j) => Lexeme::Tag(t@, *j as int),
        }
    }
}

/// What stands at index `i`.
pub fn lex_at(s: &Vec<char>, i: usize) -> (r: Lexed)
    ensures
        r@ == lex(s@, i as int),
{
    if i >= s.len() {
        return Lexed::End;
    }
    if s[i] != '<' {
        return Lexed::Skip(i + 1);
    }
    if i + 1 >= s.len() {
        return Lexed::Error;
    }
    if s[i + 1] == '?' {
        let pat = chars_of("?>");
        proof {
            reveal_strlit("?>");
        }
        return match find_exec(s, &pat, i + 2) {
            None => Lexed::Error,
            Some(k) => {
                proof {
                    lemma_find_from(s@, pat@, i + 2);
                }
                Lexed::Skip(k + 2)
            },
        };
    }
    let open_comment = chars_of("<!--");
    proof {
        reveal_strlit("<!--");
        reveal_strlit("-->");
    }
    if occurs_at_exec(s, &open_comment, i) {
        let pat = chars_of("-->");
        return match find_exec(s, &pat, i + 4) {
            None => Lexed::Error,
            Some(k) => {
                proof {
                    lemma_find_from(s@, pat@, i + 4);
                }
                Lexed::Skip(k + 3)
            },
        };
    }
    if s[i + 1] == '!' {
        return match find_char_exec(s, '>', i + 2) {
            None => Lexed::Error,
            Some(k) => Lexed::Skip(k + 1),
        };
    }
    if s[i + 1] == '/' {
        let e = name_end_exec(s, i + 2);
        let k = skip_ws_exec(s, e);
        if e == i + 2 || k >= s.len() || s[k] != '>' {
            return Lexed::Error;
        }
        let name = sub_chars(s, i + 2, e);
        let attrs: Vec<XmlAttr> = Vec::new();
        let tag = XmlTag { name, attrs, kind: TagKind::Close };
        assert(attrs_view(tag.attrs@) =~= seq![]);
        return Lexed::Tag(tag, k + 1);
    }
    let e = name_end_exec(s, i + 1);
    if e == i + 1 {
        return Lexed::Error;
    }
    match attrs_at(s, e) {
        None => Lexed::Error,
        Some((attrs, self_closing, j)) => {
            let name = sub_chars(s, i + 1, e);
            let kind = if self_closing {
                TagKind::SelfClosing
            } else {
                TagKind::Open
            };
            Lexed::Tag(XmlTag { name, attrs, kind }, j)
        },
    }
}

/// The tags of a document, and whether reading it stopped at an error.
pub fn scan_tags(s: &Vec<char>) -> (r: (Vec<XmlTag>, bool))
    ensures
        (tags_view(r.0@), r.1) == scan(s@),
{
    let mut acc: Vec<XmlTag> = Vec::new();
    let mut i: usize = 0;
    assert(tags_view(acc@) =~= seq![]);
    loop
        invariant
            i <= s.len(),
            scan(s@) == scan_from(s@, i as int, tags_view(acc@)),
        decreases s.len() - i,
    {
        match lex_at(s, i) {
            Lexed::End => {
                return (acc, false);
            },
            Lexed::Error => {
                return (acc, true);
            },
            Lexed::Skip(j) => {
                if !(i < j && j <= s.len()) {
                    return (acc, true);
                }
                i = j;
            },
            Lexed::Tag(t, j) => {
                if !(i < j && j <= s.len()) {
                    return (acc, true);
                }
                let ghost before = acc@;
                let ghost tv = t@;
                acc.push(t);
                assert(tags_view(acc@) =~= tags_view(before).push(tv));
                i = j;
            },
        }
    }
}

/// Position of the first attribute called `key`.
pub fn attr_lookup(attrs: &Vec<XmlAttr>, key: &str) -> (r: Option<usize>)
    ensures
        r matches Some(i) ==> i < attrs.len() && attr_value(attrs_view(attrs@), key@) == Some(
            attrs@[i as int].value@,
        ),
        r is None ==> attr_value(attrs_view(attrs@), key@) is None,
{
    let ghost av = attrs_view(attrs@);
    let mut i: usize = 0;
    assert(av.skip(0) =~= av);
    while i < attrs.len()
        invariant
            i <= attrs.len(),
            av == attrs_view(attrs@),
            attr_value(av, key@) == attr_value(av.skip(i as int), key@),
        decreases attrs.len() - i,
    {
        assert(av.skip(i as int)[0] == av[i as int]);
        assert(av.skip(i as int).drop_first() =~= av.skip(i + 1));
        if chars_eq_str(&attrs[i].name, key) {
            return Some(i);
        }
        i = i + 1;
    }
    assert(av.skip(i as int).len() == 0);
    None
}

} // verus!
