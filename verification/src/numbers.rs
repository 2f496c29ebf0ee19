//! Texts that denote numbers.

use crate::text;
use vstd::prelude::*;
use vstd::string::*;

verus! {

/// The end of the digits that go on at `i`.
pub open spec fn digits_end(s: Seq<char>, i: int) -> int
    decreases s.len() - i,
{
    if 0 <= i < s.len() && text::is_digit(s[i]) {
        digits_end(s, i + 1)
    } else {
        i
    }
}

fn skip_digits(s: &Vec<char>, from: usize) -> (r: usize)
    requires
        from <= s.len(),
    ensures
        r == digits_end(s@, from as int),
        from <= r <= s.len(),
{
    let mut i: usize = from;
    while i < s.len() && text::digit(s[i])
        invariant
            from <= i <= s.len(),
            digits_end(s@, from as int) == digits_end(s@, i as int),
        decreases s.len() - i,
    {
        i = i + 1;
    }
    i
}

/// Whether `i` is the end, or an exponent goes from `i` to the end.
pub open spec fn exponent_at(s: Seq<char>, i: int) -> bool {
    if i >= s.len() {
        true
    } else if s[i] == 'e' || s[i] == 'E' {
        let start = if i + 1 < s.len() && (s[i + 1] == '+' || s[i + 1] == '-') {
            i + 2
        } else {
            i + 1
        };
        start < s.len() && digits_end(s, start) == s.len()
    } else {
        false
    }
}

/// Digits with an optional point among or at either end of them, and an optional exponent.
pub open spec fn is_decimal(s: Seq<char>) -> bool {
    let whole = digits_end(s, 0);
    if whole < s.len() && s[whole] == '.' {
        let end = digits_end(s, whole + 1);
        end - 1 > 0 && exponent_at(s, end)
    } else {
        whole > 0 && exponent_at(s, whole)
    }
}

/// Whether a text is a floating-point number as the standard library reads it: an optional
/// sign, then a decimal number, an infinity or `nan`, letter case aside.
pub open spec fn is_number(s: Seq<char>) -> bool {
    let body = if s.len() > 0 && (s[0] == '+' || s[0] == '-') {
        s.subrange(1, s.len() as int)
    } else {
        s
    };
    text::like(body, "inf"@) || text::like(body, "infinity"@) || text::like(body, "nan"@)
        || is_decimal(body)
}

fn has_exponent(s: &Vec<char>, i: usize) -> (r: bool)
    requires
        i <= s.len(),
    ensures
        r == exponent_at(s@, i as int),
{
    if i == s.len() {
        return true;
    }
    if s[i] != 'e' && s[i] != 'E' {
        return false;
    }
    let mut start: usize = i + 1;
    if start < s.len() && (s[start] == '+' || s[start] == '-') {
        start = start + 1;
    }
    start < s.len() && skip_digits(s, start) == s.len()
}

fn decimal_chars(s: &Vec<char>) -> (r: bool)
    ensures
        r == is_decimal(s@),
{
    let whole = skip_digits(s, 0);
    if whole < s.len() && s[whole] == '.' {
        let end = skip_digits(s, whole + 1);
        end - 1 > 0 && has_exponent(s, end)
    } else {
        whole > 0 && has_exponent(s, whole)
    }
}

pub fn number(s: &str) -> (r: bool)
    ensures
        r == is_number(s@),
{
    let c = text::chars_of(s);
    let signed = c.len() > 0 && (c[0] == '+' || c[0] == '-');
    let body = text::piece(&c, if signed { 1 } else { 0 }, c.len());
    assert(s@.subrange(0, s@.len() as int) == s@);
    if text::eq_nocase(&body, "inf") || text::eq_nocase(&body, "infinity") || text::eq_nocase(
        &body,
        "nan",
    ) {
        return true;
    }
    decimal_chars(&text::chars_of(&body))
}

} // verus!
