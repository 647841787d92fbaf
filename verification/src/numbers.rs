//! Decimal integers in text, the way `str::parse` reads them: an optional
//! sign, then one or more ASCII digits, with the value in the type's range.

use vstd::prelude::*;

use crate::text::{chars_of, trim, trim_bounds};

verus! {

pub open spec fn is_digit_char(c: char) -> bool {
    '0' <= c && c <= '9'
}

pub open spec fn all_digit_chars(s: Seq<char>) -> bool {
    forall|i: int| 0 <= i < s.len() ==> is_digit_char(#[trigger] s[i])
}

/// The value of a run of ASCII digits.
pub open spec fn digits_num(s: Seq<char>) -> nat
    decreases s.len(),
{
    if s.len() == 0 {
        0
    } else {
        digits_num(s.drop_last()) * 10 + (s.last() as int - 48) as nat
    }
}

/// One or more digits worth at most `max`.
pub open spec fn digits_upto(s: Seq<char>, max: nat) -> Option<nat> {
    if s.len() > 0 && all_digit_chars(s) && digits_num(s) <= max {
        Some(digits_num(s))
    } else {
        None
    }
}

/// An unsigned integer of at most `max`: an optional `+`, then digits.
pub open spec fn unsigned_text(s: Seq<char>, max: nat) -> Option<nat> {
    if s.len() > 0 && s[0] == '+' {
        digits_upto(s.drop_first(), max)
    } else {
        digits_upto(s, max)
    }
}

/// A signed integer in `-(max + 1) ..= max`: an optional `+` or `-`, then
/// digits.
pub open spec fn signed_text(s: Seq<char>, max: nat) -> Option<int> {
    if s.len() > 0 && s[0] == '-' {
        match digits_upto(s.drop_first(), max + 1) {
            Some(v) => Some(-v),
            None => None,
        }
    } else {
        match unsigned_text(s, max) {
            Some(v) => Some(v as int),
            None => None,
        }
    }
}

proof fn lemma_digits_num_prefix(t: Seq<char>, k: int)
    requires
        0 <= k <= t.len(),
        all_digit_chars(t),
    ensures
        digits_num(t.subrange(0, k)) <= digits_num(t),
    decreases t.len(),
{
    if k < t.len() {
        let u = t.drop_last();
        assert(all_digit_chars(u));
        assert(u.subrange(0, k) =~= t.subrange(0, k));
        lemma_digits_num_prefix(u, k);
    } else {
        assert(t.subrange(0, k) =~= t);
    }
}

/// `v[lo..hi]` as one or more digits worth at most `max`.
pub(crate) fn digits_in(v: &Vec<char>, lo: usize, hi: usize, max: u64) -> (r: Option<u64>)
    requires
        lo <= hi <= v@.len(),
    ensures
        match digits_upto(v@.subrange(lo as int, hi as int), max as nat) {
            Some(n) => r == Some(n as u64),
            None => r is None,
        },
{
    let ghost s = v@.subrange(lo as int, hi as int);
    if lo == hi {
        return None;
    }
    let mut acc: u128 = 0;
    let mut i = lo;
    while i < hi
        invariant
            lo < hi <= v@.len(),
            lo <= i <= hi,
            s == v@.subrange(lo as int, hi as int),
            all_digit_chars(v@.subrange(lo as int, i as int)),
            acc == digits_num(v@.subrange(lo as int, i as int)),
            acc <= max,
        decreases hi - i,
    {
        let c = v[i];
        if c < '0' || c > '9' {
            assert(s[i - lo] == c);
            assert(!all_digit_chars(s));
            return None;
        }
        let ghost pre = v@.subrange(lo as int, i as int);
        let ghost next = v@.subrange(lo as int, i + 1);
        assert(next.drop_last() =~= pre);
        assert(all_digit_chars(next));
        acc = acc * 10 + (c as u32 - 48) as u128;
        if acc > max as u128 {
            proof {
                if all_digit_chars(s) {
                    assert(s.subrange(0, i + 1 - lo) =~= next);
                    lemma_digits_num_prefix(s, i + 1 - lo);
                }
            }
            return None;
        }
        i += 1;
    }
    assert(v@.subrange(lo as int, i as int) =~= s);
    Some(acc as u64)
}

/// `v[lo..hi]` read as an unsigned integer of at most `max`.
pub(crate) fn unsigned_in(v: &Vec<char>, lo: usize, hi: usize, max: u64) -> (r: Option<u64>)
    requires
        lo <= hi <= v@.len(),
    ensures
        match unsigned_text(v@.subrange(lo as int, hi as int), max as nat) {
            Some(n) => r == Some(n as u64),
            None => r is None,
        },
{
    if lo < hi && v[lo] == '+' {
        assert(v@.subrange(lo as int, hi as int).drop_first() =~= v@.subrange(lo + 1, hi as int));
        digits_in(v, lo + 1, hi, max)
    } else {
        digits_in(v, lo, hi, max)
    }
}

/// `v[lo..hi]` read as a signed integer in `-(max + 1) ..= max`.
pub(crate) fn signed_in(v: &Vec<char>, lo: usize, hi: usize, max: u64) -> (r: Option<i128>)
    requires
        lo <= hi <= v@.len(),
        max < u64::MAX,
    ensures
        match signed_text(v@.subrange(lo as int, hi as int), max as nat) {
            Some(n) => r == Some(n as i128),
            None => r is None,
        },
{
    if lo < hi && v[lo] == '-' {
        assert(v@.subrange(lo as int, hi as int).drop_first() =~= v@.subrange(lo + 1, hi as int));
        match digits_in(v, lo + 1, hi, max + 1) {
            Some(n) => Some(0 - n as i128),
            None => None,
        }
    } else {
        match unsigned_in(v, lo, hi, max) {
            Some(n) => Some(n as i128),
            None => None,
        }
    }
}

/// A `u32` in `s`, surrounding whitespace ignored (`s.trim().parse()`).
pub fn parse_trimmed_u32(s: &str) -> (r: Option<u32>)
    ensures
        match unsigned_text(trim(s@), u32::MAX as nat) {
            Some(n) => r == Some(n as u32),
            None => r is None,
        },
{
    let v = chars_of(s);
    let (a, b) = trim_bounds(&v, 0, v.len());
    assert(v@.subrange(0, v@.len() as int) =~= v@);
    match unsigned_in(&v, a, b, 0xffff_ffff) {
        Some(n) => Some(n as u32),
        None => None,
    }
}

/// A `u64` in `s`, surrounding whitespace ignored.
pub fn parse_trimmed_u64(s: &str) -> (r: Option<u64>)
    ensures
        match unsigned_text(trim(s@), u64::MAX as nat) {
            Some(n) => r == Some(n as u64),
            None => r is None,
        },
{
    let v = chars_of(s);
    let (a, b) = trim_bounds(&v, 0, v.len());
    assert(v@.subrange(0, v@.len() as int) =~= v@);
    unsigned_in(&v, a, b, 0xffff_ffff_ffff_ffff)
}

/// An `i64` in `s`, surrounding whitespace ignored.
pub fn parse_trimmed_i64(s: &str) -> (r: Option<i64>)
    ensures
        match signed_text(trim(s@), i64::MAX as nat) {
            Some(n) => r == Some(n as i64),
            None => r is None,
        },
{
    let v = chars_of(s);
    let (a, b) = trim_bounds(&v, 0, v.len());
    assert(v@.subrange(0, v@.len() as int) =~= v@);
    match signed_in(&v, a, b, 0x7fff_ffff_ffff_ffff) {
        Some(n) => Some(n as i64),
        None => None,
    }
}

/// An `i32` in `s`, surrounding whitespace ignored.
pub fn parse_trimmed_i32(s: &str) -> (r: Option<i32>)
    ensures
        match signed_text(trim(s@), i32::MAX as nat) {
            Some(n) => r == Some(n as i32),
            None => r is None,
        },
{
    let v = chars_of(s);
    let (a, b) = trim_bounds(&v, 0, v.len());
    assert(v@.subrange(0, v@.len() as int) =~= v@);
    match signed_in(&v, a, b, 0x7fff_ffff) {
        Some(n) => Some(n as i32),
        None => None,
    }
}

} // verus!
