//! Decimal integer text, as `str::parse` reads it for `u32` and `i64`.
use vstd::prelude::*;

verus! {

pub open spec fn is_digit(c: char) -> bool {
    '0' <= c && c <= '9'
}

pub open spec fn digit_value(c: char) -> int {
    (c as int) - ('0' as int)
}

/// The number written by a string of decimal digits.
pub open spec fn digits_value(ds: Seq<char>) -> int
    decreases ds.len(),
{
    if ds.len() == 0 {
        0
    } else {
        digits_value(ds.drop_last()) * 10 + digit_value(ds.last())
    }
}

pub open spec fn all_digits(ds: Seq<char>) -> bool {
    forall|i: int| 0 <= i < ds.len() ==> is_digit(#[trigger] ds[i])
}

/// The value of a non-empty run of digits.
pub open spec fn digits_number(ds: Seq<char>) -> Option<int> {
    if ds.len() > 0 && all_digits(ds) {
        Some(digits_value(ds))
    } else {
        None
    }
}

/// An integer as `FromStr` for Rust's integer types reads it, before the
/// range check: an optional `+` (or `-` when `signed`), then one or more
/// decimal digits, nothing else.
pub open spec fn integer_text(s: Seq<char>, signed: bool) -> Option<int> {
    if s.len() == 0 {
        None
    } else if (s[0] == '+' || s[0] == '-') && s.len() == 1 {
        None
    } else if s[0] == '+' {
        digits_number(s.drop_first())
    } else if s[0] == '-' && signed {
        match digits_number(s.drop_first()) {
            Some(v) => Some(-v),
            None => None,
        }
    } else {
        digits_number(s)
    }
}

/// `str::parse::<u32>()`.
pub open spec fn u32_text(s: Seq<char>) -> Option<int> {
    match integer_text(s, false) {
        Some(v) => if v <= u32::MAX {
            Some(v)
        } else {
            None
        },
        None => None,
    }
}

/// `str::parse::<i64>()`.
pub open spec fn i64_text(s: Seq<char>) -> Option<int> {
    match integer_text(s, true) {
        Some(v) => if i64::MIN <= v <= i64::MAX {
            Some(v)
        } else {
            None
        },
        None => None,
    }
}

pub proof fn lemma_digits_value_nonneg(ds: Seq<char>)
    requires
        all_digits(ds),
    ensures
        digits_value(ds) >= 0,
    decreases ds.len(),
{
    if ds.len() > 0 {
        assert(all_digits(ds.drop_last()));
        lemma_digits_value_nonneg(ds.drop_last());
    }
}

/// A longer run of digits never writes a smaller number.
pub proof fn lemma_digits_value_prefix(ds: Seq<char>, k: int)
    requires
        all_digits(ds),
        0 <= k <= ds.len(),
    ensures
        digits_value(ds.take(k)) <= digits_value(ds),
    decreases ds.len(),
{
    if k < ds.len() {
        let d = ds.drop_last();
        assert(all_digits(d));
        lemma_digits_value_prefix(d, k);
        assert(d.take(k) == ds.take(k));
        lemma_digits_value_nonneg(d);
    } else {
        assert(ds.take(k) == ds);
    }
}

/// The value of `s[start..]` when it is a non-empty run of digits whose
/// value is at most 2^64; `None` when it is not such a run or is larger.
fn digits_from(s: &Vec<char>, start: usize) -> (r: Option<u128>)
    requires
        start <= s.len(),
    ensures
        r matches Some(v) ==> digits_number(s@.skip(start as int)) == Some(v as int),
        r is None ==> match digits_number(s@.skip(start as int)) {
            Some(v) => v > 0x1_0000_0000_0000_0000,
            None => true,
        },
{
    let ghost ds = s@.skip(start as int);
    if start == s.len() {
        return None;
    }
    let mut acc: u128 = 0;
    let mut i = start;
    while i < s.len()
        invariant
            start <= i <= s.len(),
            ds == s@.skip(start as int),
            all_digits(ds.take(i - start)),
            acc == digits_value(ds.take(i - start)),
            acc <= 0x1_0000_0000_0000_0000,
        decreases s.len() - i,
    {
        let c = s[i];
        if !('0' <= c && c <= '9') {
            assert(ds[i - start] == c);
            return None;
        }
        let ghost prev = ds.take(i - start);
        let ghost next = ds.take(i - start + 1);
        assert(next.drop_last() == prev);
        assert(next.last() == c);
        assert(all_digits(next)) by {
            assert forall|j: int| 0 <= j < next.len() implies is_digit(#[trigger] next[j]) by {
                if j < prev.len() {
                    assert(next[j] == prev[j]);
                }
            }
        }
        let d = (c as u32 - '0' as u32) as u128;
        acc = acc * 10 + d;
        i = i + 1;
        if acc > 0x1_0000_0000_0000_0000 {
            proof {
                if all_digits(ds) {
                    lemma_digits_value_prefix(ds, i - start);
                }
            }
            return None;
        }
    }
    assert(ds.take(i - start) == ds);
    Some(acc)
}

/// `str::parse::<u32>()` on the given characters.
pub fn parse_u32(s: &Vec<char>) -> (r: Option<u32>)
    ensures
        r matches Some(v) ==> u32_text(s@) == Some(v as int),
        r is None ==> u32_text(s@) is None,
{
    if s.len() == 0 {
        return None;
    }
    if (s[0] == '+' || s[0] == '-') && s.len() == 1 {
        return None;
    }
    let start: usize = if s[0] == '+' { 1 } else { 0 };
    proof {
        if start == 0 {
            assert(s@.skip(0) == s@);
        } else {
            assert(s@.skip(1) == s@.drop_first());
        }
    }
    match digits_from(s, start) {
        Some(v) => if v <= 0xffff_ffff {
            Some(v as u32)
        } else {
            None
        },
        None => None,
    }
}

/// `str::parse::<i64>()` on the given characters.
pub fn parse_i64(s: &Vec<char>) -> (r: Option<i64>)
    ensures
        r matches Some(v) ==> i64_text(s@) == Some(v as int),
        r is None ==> i64_text(s@) is None,
{
    if s.len() == 0 {
        return None;
    }
    if (s[0] == '+' || s[0] == '-') && s.len() == 1 {
        return None;
    }
    let negative = s[0] == '-';
    let start: usize = if s[0] == '+' || negative { 1 } else { 0 };
    proof {
        if start == 0 {
            assert(s@.skip(0) == s@);
        } else {
            assert(s@.skip(1) == s@.drop_first());
        }
    }
    match digits_from(s, start) {
        Some(v) => {
            if negative {
                if v <= 0x8000_0000_0000_0000 {
                    let r: i128 = -(v as i128);
                    Some(r as i64)
                } else {
                    None
                }
            } else if v <= 0x7fff_ffff_ffff_ffff {
                Some(v as i64)
            } else {
                None
            }
        },
        None => None,
    }
}

} // verus!
