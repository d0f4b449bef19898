//! Numbers as they are written, and the finding of texts inside texts.
use vstd::prelude::*;

use crate::text::{chars_of, same};

verus! {

/// `pat` stands in `s` at position `at`.
pub open spec fn stands_at(s: Seq<char>, pat: Seq<char>, at: int) -> bool {
    0 <= at && at + pat.len() <= s.len() && s.subrange(at, at + pat.len()) == pat
}

/// The first position at or after `from` at which `pat` stands in `s`.
pub open spec fn find_text(s: Seq<char>, pat: Seq<char>, from: int) -> Option<int>
    decreases s.len() + 1 - from,
{
    if from < 0 || from > s.len() {
        None
    } else if stands_at(s, pat, from) {
        Some(from)
    } else {
        find_text(s, pat, from + 1)
    }
}

/// `pat` stands somewhere in `s`.
pub open spec fn has_text(s: Seq<char>, pat: Seq<char>) -> bool {
    find_text(s, pat, 0) is Some
}

/// A character, made lower case if it is a capital letter of ASCII.
pub open spec fn lowered(c: char) -> char {
    if 'A' <= c <= 'Z' {
        ((c as u32) + 32) as char
    } else {
        c
    }
}

/// A text with its ASCII letters made lower case.
pub open spec fn ascii_lower(s: Seq<char>) -> Seq<char> {
    Seq::new(s.len(), |i: int| lowered(s[i]))
}

/// A decimal digit.
pub open spec fn is_digit(c: char) -> bool {
    '0' <= c <= '9'
}

/// The value of a decimal digit.
pub open spec fn digit_value(c: char) -> int {
    (c as u32) - ('0' as u32)
}

/// The first position at or after `from` that holds no digit.
pub open spec fn digits_end(s: Seq<char>, from: int) -> int
    decreases s.len() - from,
{
    if from < 0 || from >= s.len() || !is_digit(s[from]) {
        from
    } else {
        digits_end(s, from + 1)
    }
}

/// The number that the digits of `s` before position `upto` and from `from` on write.
pub open spec fn digits_value(s: Seq<char>, from: int, upto: int) -> nat
    decreases upto - from,
{
    if upto <= from {
        0
    } else {
        (digits_value(s, from, upto - 1) * 10 + digit_value(s[upto - 1])) as nat
    }
}

/// Where the digits of a number without sign begin: behind a plus, if there is one.
pub open spec fn digits_start(s: Seq<char>) -> int {
    if s.len() > 0 && s[0] == '+' {
        1
    } else {
        0
    }
}

/// The number that `s` writes in decimal, if it is one that the machine can hold: digits alone,
/// at least one, behind at most a plus.
pub open spec fn unsigned_value(s: Seq<char>) -> Option<u64> {
    let start = digits_start(s);
    if start < s.len() && digits_end(s, start) == s.len() && digits_value(s, start, s.len() as int)
        <= u64::MAX {
        Some(digits_value(s, start, s.len() as int) as u64)
    } else {
        None
    }
}

/// A sign.
pub open spec fn is_sign(c: char) -> bool {
    c == '+' || c == '-'
}

/// From position `from` on, `s` holds an exponent or nothing.
pub open spec fn exponent_from(s: Seq<char>, from: int) -> bool {
    if from == s.len() {
        true
    } else if 0 <= from < s.len() && (s[from] == 'e' || s[from] == 'E') {
        let start = if from + 1 < s.len() && is_sign(s[from + 1]) {
            from + 2
        } else {
            from + 1
        };
        start < s.len() && digits_end(s, start) == s.len()
    } else {
        false
    }
}

/// From position `from` on, `s` holds digits with at most one point among or around them, and
/// then an exponent or nothing.
pub open spec fn decimal_from(s: Seq<char>, from: int) -> bool {
    let whole = digits_end(s, from);
    if 0 <= whole < s.len() && s[whole] == '.' {
        let part = digits_end(s, whole + 1);
        (whole > from || part > whole + 1) && exponent_from(s, part)
    } else {
        whole > from && exponent_from(s, whole)
    }
}

/// `s` writes a floating point number: a decimal one, or one of the names of the others, behind
/// at most a sign.
pub open spec fn writes_float(s: Seq<char>) -> bool {
    let start = if s.len() > 0 && is_sign(s[0]) {
        1int
    } else {
        0int
    };
    let rest = ascii_lower(s.subrange(start, s.len() as int));
    rest == "inf"@ || rest == "infinity"@ || rest == "nan"@ || decimal_from(s, start)
}

proof fn lemma_digits_end(s: Seq<char>, from: int)
    requires
        0 <= from <= s.len(),
    ensures
        from <= digits_end(s, from) <= s.len(),
        forall|i: int| from <= i < digits_end(s, from) ==> is_digit(#[trigger] s[i]),
    decreases s.len() - from,
{
    if from < s.len() && is_digit(s[from]) {
        lemma_digits_end(s, from + 1);
    }
}

fn end_of_digits(s: &Vec<char>, from: usize) -> (r: usize)
    requires
        from <= s@.len(),
    ensures
        r == digits_end(s@, from as int),
        from <= r <= s@.len(),
{
    let mut i: usize = from;
    let low = '0';
    let high = '9';
    while i < s.len() && low <= s[i] && s[i] <= high
        invariant
            from <= i <= s@.len(),
            low == '0',
            high == '9',
            digits_end(s@, from as int) == digits_end(s@, i as int),
        decreases s@.len() - i,
    {
        i += 1;
    }
    i
}

fn exponent_at(s: &Vec<char>, from: usize) -> (r: bool)
    requires
        from <= s@.len(),
    ensures
        r == exponent_from(s@, from as int),
{
    if from == s.len() {
        return true;
    }
    if s[from] != 'e' && s[from] != 'E' {
        return false;
    }
    let mut start: usize = from + 1;
    if start < s.len() && (s[start] == '+' || s[start] == '-') {
        start += 1;
    }
    start < s.len() && end_of_digits(s, start) == s.len()
}

fn decimal_at(s: &Vec<char>, from: usize) -> (r: bool)
    requires
        from <= s@.len(),
    ensures
        r == decimal_from(s@, from as int),
{
    let whole: usize = end_of_digits(s, from);
    if whole < s.len() && s[whole] == '.' {
        let part: usize = end_of_digits(s, whole + 1);
        (whole > from || part > whole + 1) && exponent_at(s, part)
    } else {
        whole > from && exponent_at(s, whole)
    }
}

fn lower_char(c: char) -> (r: char)
    ensures
        r == lowered(c),
{
    let low = 'A';
    let high = 'Z';
    if low <= c && c <= high {
        ((c as u8) + 32u8) as char
    } else {
        c
    }
}

/// The characters from `from` on, with the capital letters of ASCII made small.
pub fn lower_from(s: &Vec<char>, from: usize) -> (r: String)
    requires
        from <= s@.len(),
    ensures
        r@ == ascii_lower(s@.subrange(from as int, s@.len() as int)),
{
    let mut out = String::new();
    let mut i: usize = from;
    while i < s.len()
        invariant
            from <= i <= s@.len(),
            out@ == ascii_lower(s@.subrange(from as int, i as int)),
        decreases s@.len() - i,
    {
        let ghost before = out@;
        out.push(lower_char(s[i]));
        assert(out@ =~= ascii_lower(s@.subrange(from as int, i + 1)));
        i += 1;
    }
    out
}

/// Whether `s` writes a floating point number.
pub fn is_float_text(s: &str) -> (r: bool)
    ensures
        r == writes_float(s@),
{
    let chars = chars_of(s);
    let start: usize = if chars.len() > 0 && (chars[0] == '+' || chars[0] == '-') {
        1
    } else {
        0
    };
    let rest = lower_from(&chars, start);
    same(&rest, "inf") || same(&rest, "infinity") || same(&rest, "nan") || decimal_at(
        &chars,
        start,
    )
}

proof fn lemma_value_grows(s: Seq<char>, from: int, mid: int, upto: int)
    requires
        0 <= from <= mid <= upto <= s.len(),
        forall|i: int| from <= i < upto ==> is_digit(#[trigger] s[i]),
    ensures
        digits_value(s, from, mid) <= digits_value(s, from, upto),
    decreases upto - mid,
{
    if mid < upto {
        assert(is_digit(s[mid]));
        assert(digits_value(s, from, mid + 1) >= digits_value(s, from, mid));
        lemma_value_grows(s, from, mid + 1, upto);
    }
}

/// The number that `s` writes in decimal, if it is one that the machine can hold.
pub fn parse_unsigned(s: &str) -> (r: Option<u64>)
    ensures
        r == unsigned_value(s@),
{
    let chars = chars_of(s);
    let start: usize = if chars.len() > 0 && chars[0] == '+' {
        1
    } else {
        0
    };
    if start >= chars.len() || end_of_digits(&chars, start) != chars.len() {
        return None;
    }
    proof {
        lemma_digits_end(chars@, start as int);
    }
    let mut value: u64 = 0;
    let mut i: usize = start;
    while i < chars.len()
        invariant
            start <= i <= chars@.len(),
            chars@ == s@,
            start == digits_start(s@),
            start < s@.len(),
            digits_end(s@, start as int) == s@.len(),
            forall|k: int| start <= k < chars@.len() ==> is_digit(#[trigger] chars@[k]),
            value == digits_value(s@, start as int, i as int),
        decreases chars@.len() - i,
    {
        let c: char = chars[i];
        assert(is_digit(chars@[i as int]));
        let d: u64 = ((c as u32) - 48) as u64;
        if value > 1844674407370955161 || (value == 1844674407370955161 && d > 5) {
            proof {
                assert(digits_value(s@, start as int, i + 1) > u64::MAX);
                lemma_value_grows(s@, start as int, i + 1, s@.len() as int);
            }
            return None;
        }
        value = value * 10 + d;
        i += 1;
    }
    Some(value)
}

fn text_at(s: &Vec<char>, pat: &Vec<char>, at: usize) -> (r: bool)
    requires
        at <= s@.len(),
    ensures
        r == stands_at(s@, pat@, at as int),
{
    if pat.len() > s.len() - at {
        return false;
    }
    let mut i: usize = 0;
    while i < pat.len()
        invariant
            i <= pat@.len(),
            at <= s@.len(),
            pat@.len() <= s@.len() - at,
            s@.len() == s.len(),
            forall|k: int| 0 <= k < i ==> s@[at + k] == pat@[k],
        decreases pat@.len() - i,
    {
        let k: usize = at + i;
        if s[k] != pat[i] {
            assert(s@.subrange(at as int, at + pat@.len())[i as int] != pat@[i as int]);
            return false;
        }
        i += 1;
    }
    assert(s@.subrange(at as int, at + pat@.len()) =~= pat@);
    true
}

/// The first position at or after `from` at which `pat` stands in `s`.
pub fn find_in(s: &Vec<char>, pat: &str, from: usize) -> (r: Option<usize>)
    requires
        from <= s@.len(),
    ensures
        match r {
            Some(i) => find_text(s@, pat@, from as int) == Some(i as int) && from <= i
                && i + pat@.len() <= s@.len(),
            None => find_text(s@, pat@, from as int) is None,
        },
{
    let wanted = chars_of(pat);
    let mut i: usize = from;
    while i < s.len()
        invariant
            from <= i <= s@.len(),
            wanted@ == pat@,
            find_text(s@, pat@, from as int) == find_text(s@, pat@, i as int),
        decreases s@.len() - i,
    {
        if text_at(s, &wanted, i) {
            return Some(i);
        }
        i += 1;
    }
    if text_at(s, &wanted, i) {
        return Some(i);
    }
    assert(find_text(s@, pat@, i + 1) is None);
    None
}

/// Whether `pat` stands somewhere in `s`.
pub fn contains_sub(s: &str, pat: &str) -> (r: bool)
    ensures
        r == has_text(s@, pat@),
{
    let chars = chars_of(s);
    match find_in(&chars, pat, 0) {
        Some(_) => true,
        None => false,
    }
}

} // verus!
