//! Text as sequences of characters: searching, cutting, trimming, letter case
//! and decimal numbers.

use vstd::prelude::*;
use vstd::string::*;

verus! {

/// `String::push` adds one character at the end of the string.
pub assume_specification[ String::push ](s: &mut String, c: char)
    ensures
        final(s)@ == old(s)@.push(c),
;

// ----- Comparing and converting -----

/// Whether two texts hold the same characters.
pub fn same(a: &str, b: &str) -> (r: bool)
    ensures
        r == (a@ == b@),
{
    a.to_owned() == b.to_owned()
}

/// The characters of a text.
pub fn chars_of(s: &str) -> (r: Vec<char>)
    ensures
        r@ == s@,
{
    let mut out: Vec<char> = Vec::new();
    for c in it: s.chars()
        invariant
            out@ == it.seq().take(it.index()),
            it.seq() == s@,
    {
        out.push(c);
    }
    assert(s@.take(s@.len() as int) == s@);
    out
}

/// The text between two positions, empty where they are no range of `s`.
pub open spec fn slice(s: Seq<char>, a: int, b: int) -> Seq<char> {
    if 0 <= a <= b <= s.len() {
        s.subrange(a, b)
    } else {
        Seq::empty()
    }
}

/// The characters of `s` from `a` up to `b` as a text.
pub fn piece(s: &Vec<char>, a: usize, b: usize) -> (r: String)
    ensures
        r@ == slice(s@, a as int, b as int),
{
    let mut out = String::new();
    if a <= b && b <= s.len() {
        let mut i: usize = a;
        while i < b
            invariant
                a <= i <= b <= s@.len(),
                out@ == s@.subrange(a as int, i as int),
            decreases b - i,
        {
            out.push(s[i]);
            i = i + 1;
            assert(s@.subrange(a as int, i as int) == s@.subrange(a as int, i - 1).push(s@[i - 1]));
        }
    }
    out
}

/// The text of `s` from `a` up to `b`.
pub fn slice_of(s: &str, a: usize, b: usize) -> (r: String)
    ensures
        r@ == slice(s@, a as int, b as int),
{
    piece(&chars_of(s), a, b)
}

/// How many characters a text has.
pub fn length(s: &str) -> (r: usize)
    ensures
        r == s@.len(),
{
    chars_of(s).len()
}

/// The text made of the given characters.
pub fn text_of(s: &Vec<char>) -> (r: String)
    ensures
        r@ == s@,
{
    assert(s@.subrange(0, s@.len() as int) == s@);
    piece(s, 0, s.len())
}

/// The position that an optional index stands for.
pub open spec fn pos(r: Option<usize>) -> Option<int> {
    match r {
        Some(i) => Some(i as int),
        None => None,
    }
}

/// A copy of an optional text.
pub fn copy_option(s: &Option<String>) -> (r: Option<String>)
    ensures
        r == *s,
{
    match s {
        Some(t) => Some(t.clone()),
        None => None,
    }
}

// ----- Searching -----

pub open spec fn occurs_at(s: Seq<char>, p: Seq<char>, i: int) -> bool {
    0 <= i && i + p.len() <= s.len() && s.subrange(i, i + p.len()) == p
}

/// The first position from `i` on at which `p` occurs in `s`.
pub open spec fn find_from(s: Seq<char>, p: Seq<char>, i: int) -> Option<int>
    decreases s.len() + 1 - i,
{
    if i < 0 || i + p.len() > s.len() {
        None
    } else if occurs_at(s, p, i) {
        Some(i)
    } else {
        find_from(s, p, i + 1)
    }
}

pub open spec fn find(s: Seq<char>, p: Seq<char>) -> Option<int> {
    find_from(s, p, 0)
}

/// The last position before or at `i` at which `p` occurs in `s`.
pub open spec fn rfind_from(s: Seq<char>, p: Seq<char>, i: int) -> Option<int>
    decreases i + 1,
{
    if i < 0 {
        None
    } else if occurs_at(s, p, i) {
        Some(i)
    } else {
        rfind_from(s, p, i - 1)
    }
}

pub open spec fn rfind(s: Seq<char>, p: Seq<char>) -> Option<int> {
    rfind_from(s, p, s.len() - p.len())
}

pub open spec fn contains(s: Seq<char>, p: Seq<char>) -> bool {
    find(s, p) is Some
}

/// Whether `p` occurs in `s` at position `i`.
pub fn occurs(s: &Vec<char>, p: &Vec<char>, i: usize) -> (r: bool)
    ensures
        r == occurs_at(s@, p@, i as int),
{
    if p.len() > s.len() || i > s.len() - p.len() {
        return false;
    }
    let mut j: usize = 0;
    while j < p.len()
        invariant
            j <= p.len(),
            i + p.len() <= s.len(),
            forall|k: int| 0 <= k < j ==> s@[i + k] == p@[k],
        decreases p.len() - j,
    {
        if s[i + j] != p[j] {
            assert(s@.subrange(i as int, i + p@.len())[j as int] != p@[j as int]);
            return false;
        }
        j = j + 1;
    }
    assert(s@.subrange(i as int, i + p@.len()) == p@);
    true
}

/// The first position from `from` on at which `p` occurs.
pub fn find_chars(s: &Vec<char>, p: &Vec<char>, from: usize) -> (r: Option<usize>)
    ensures
        pos(r) == find_from(s@, p@, from as int),
{
    if p.len() > s.len() {
        return None;
    }
    let mut i: usize = from;
    while i <= s.len() - p.len()
        invariant
            p@.len() <= s@.len(),
            from <= i,
            find_from(s@, p@, from as int) == find_from(s@, p@, i as int),
        decreases s.len() + 1 - i,
    {
        if occurs(s, p, i) {
            return Some(i);
        }
        if i == s.len() {
            assert(find_from(s@, p@, i + 1) is None);
            return None;
        }
        i = i + 1;
    }
    None
}

/// The first position at which `p` occurs in `s`, counted in characters.
pub fn find_text(s: &str, p: &str) -> (r: Option<usize>)
    ensures
        pos(r) == find(s@, p@),
{
    find_chars(&chars_of(s), &chars_of(p), 0)
}

/// The last position at which `p` occurs in `s`, counted in characters.
pub fn rfind_text(s: &str, p: &str) -> (r: Option<usize>)
    ensures
        pos(r) == rfind(s@, p@),
{
    let s = chars_of(s);
    let p = chars_of(p);
    if p.len() > s.len() {
        return None;
    }
    let mut i: usize = s.len() - p.len();
    while !occurs(&s, &p, i)
        invariant
            rfind(s@, p@) == rfind_from(s@, p@, i as int),
        decreases i,
    {
        if i == 0 {
            assert(rfind_from(s@, p@, -1) is None);
            return None;
        }
        i = i - 1;
    }
    Some(i)
}

/// Whether `p` occurs in `s`.
pub fn has(s: &str, p: &str) -> (r: bool)
    ensures
        r == contains(s@, p@),
{
    find_text(s, p).is_some()
}

pub open spec fn starts(s: Seq<char>, p: Seq<char>) -> bool {
    occurs_at(s, p, 0)
}

pub open spec fn ends(s: Seq<char>, p: Seq<char>) -> bool {
    occurs_at(s, p, s.len() - p.len())
}

/// Whether `s` begins with `p`.
pub fn starts_with(s: &str, p: &str) -> (r: bool)
    ensures
        r == starts(s@, p@),
{
    occurs(&chars_of(s), &chars_of(p), 0)
}

/// Whether `s` ends with `p`.
pub fn ends_with(s: &str, p: &str) -> (r: bool)
    ensures
        r == ends(s@, p@),
{
    let s = chars_of(s);
    let p = chars_of(p);
    if p.len() > s.len() {
        return false;
    }
    occurs(&s, &p, s.len() - p.len())
}

pub open spec fn without_prefix(s: Seq<char>, p: Seq<char>) -> Option<Seq<char>> {
    if starts(s, p) {
        Some(s.subrange(p.len() as int, s.len() as int))
    } else {
        None
    }
}

pub open spec fn without_suffix(s: Seq<char>, p: Seq<char>) -> Option<Seq<char>> {
    if ends(s, p) {
        Some(s.subrange(0, s.len() - p.len()))
    } else {
        None
    }
}

/// What follows the prefix `p`, if `s` begins with it.
pub fn strip_prefix(s: &str, p: &str) -> (r: Option<String>)
    ensures
        r.deep_view() == without_prefix(s@, p@),
{
    let s = chars_of(s);
    let p = chars_of(p);
    if occurs(&s, &p, 0) {
        Some(piece(&s, p.len(), s.len()))
    } else {
        None
    }
}

/// What stands before the suffix `p`, if `s` ends with it.
pub fn strip_suffix(s: &str, p: &str) -> (r: Option<String>)
    ensures
        r.deep_view() == without_suffix(s@, p@),
{
    let s = chars_of(s);
    let p = chars_of(p);
    if p.len() <= s.len() && occurs(&s, &p, s.len() - p.len()) {
        Some(piece(&s, 0, s.len() - p.len()))
    } else {
        None
    }
}

/// The two sides of the first occurrence of `p`.
pub open spec fn cut(s: Seq<char>, p: Seq<char>) -> Option<(Seq<char>, Seq<char>)> {
    match find(s, p) {
        Some(i) => Some((slice(s, 0, i), slice(s, i + p.len(), s.len() as int))),
        None => None,
    }
}

/// The two sides of the last occurrence of `p`.
pub open spec fn rcut(s: Seq<char>, p: Seq<char>) -> Option<(Seq<char>, Seq<char>)> {
    match rfind(s, p) {
        Some(i) => Some((slice(s, 0, i), slice(s, i + p.len(), s.len() as int))),
        None => None,
    }
}

pub proof fn lemma_find_bounds(s: Seq<char>, p: Seq<char>, i: int)
    ensures
        find_from(s, p, i) matches Some(k) ==> i <= k && occurs_at(s, p, k),
    decreases s.len() + 1 - i,
{
    if i >= 0 && i + p.len() <= s.len() && !occurs_at(s, p, i) {
        lemma_find_bounds(s, p, i + 1);
    }
}

proof fn lemma_find_sign(s: Seq<char>, p: Seq<char>, at: int, i: int)
    requires
        p.len() == 1,
        0 <= i <= at < s.len(),
        s[at] == p[0],
        forall|k: int| 0 <= k < at ==> #[trigger] s[k] != p[0],
    ensures
        find_from(s, p, i) == Some(at),
    decreases at - i,
{
    assert(s.subrange(i, i + 1)[0] == s[i]);
    if i < at {
        lemma_find_sign(s, p, at, i + 1);
    } else {
        assert(s.subrange(i, i + 1) == p);
    }
}

/// Two texts with a sign between them are cut at the sign, where the first has none.
pub proof fn lemma_cut_at_sign(a: Seq<char>, p: Seq<char>, b: Seq<char>)
    requires
        p.len() == 1,
        forall|k: int| 0 <= k < a.len() ==> #[trigger] a[k] != p[0],
    ensures
        cut(a + p + b, p) == Some((a, b)),
{
    let s = a + p + b;
    assert forall|k: int| 0 <= k < a.len() implies #[trigger] s[k] != p[0] by {
        assert(s[k] == a[k]);
    }
    lemma_find_sign(s, p, a.len() as int, 0);
    assert(s.subrange(0, a.len() as int) == a);
    assert(s.subrange((a.len() + 1) as int, s.len() as int) == b);
}

pub proof fn lemma_rfind_bounds(s: Seq<char>, p: Seq<char>, i: int)
    ensures
        rfind_from(s, p, i) matches Some(k) ==> 0 <= k <= i && occurs_at(s, p, k),
    decreases i + 1,
{
    if i >= 0 && !occurs_at(s, p, i) {
        lemma_rfind_bounds(s, p, i - 1);
    }
}

/// Splits `s` at the first occurrence of `p`.
pub fn split_once(s: &str, p: &str) -> (r: Option<(String, String)>)
    ensures
        r.deep_view() == cut(s@, p@),
{
    let c = chars_of(s);
    let q = chars_of(p);
    match find_chars(&c, &q, 0) {
        Some(i) => {
            proof {
                lemma_find_bounds(s@, p@, 0);
                assert(i + q.len() <= c.len());
            }
            Some((piece(&c, 0, i), piece(&c, i + q.len(), c.len())))
        },
        None => None,
    }
}

/// Splits `s` at the last occurrence of `p`.
pub fn rsplit_once(s: &str, p: &str) -> (r: Option<(String, String)>)
    ensures
        r.deep_view() == rcut(s@, p@),
{
    match rfind_text(s, p) {
        Some(i) => {
            let c = chars_of(s);
            let q = chars_of(p);
            proof {
                lemma_rfind_bounds(s@, p@, s@.len() - p@.len());
                assert(i + q.len() <= c.len());
            }
            Some((piece(&c, 0, i), piece(&c, i + q.len(), c.len())))
        },
        None => None,
    }
}

/// How often the nonempty text `p` occurs from `i` on, occurrences taken from the left and
/// not overlapping.
pub open spec fn count_from(s: Seq<char>, p: Seq<char>, i: int) -> nat
    decreases s.len() - i,
{
    if i < 0 || i >= s.len() || p.len() == 0 {
        0
    } else if occurs_at(s, p, i) {
        1 + count_from(s, p, i + p.len())
    } else {
        count_from(s, p, i + 1)
    }
}

/// Whether `p` occurs more than once in `s`.
pub fn occurs_twice(s: &str, p: &str) -> (r: bool)
    ensures
        r == (count_from(s@, p@, 0) > 1),
{
    let c = chars_of(s);
    let q = chars_of(p);
    if q.len() == 0 {
        return false;
    }
    let mut i: usize = 0;
    let mut once = false;
    while i < c.len()
        invariant
            i <= c.len(),
            count_from(s@, p@, 0) == count_from(s@, p@, i as int) + (if once { 1nat } else { 0nat }),
        decreases c.len() - i,
    {
        if occurs(&c, &q, i) {
            if once {
                return true;
            }
            once = true;
            i = i + q.len();
        } else {
            i = i + 1;
        }
    }
    false
}

// ----- Letters -----

pub open spec fn is_white(c: char) -> bool {
    ('\u{9}' <= c && c <= '\u{d}') || c == ' ' || c == '\u{85}' || c == '\u{a0}' || c == '\u{1680}'
        || ('\u{2000}' <= c && c <= '\u{200a}') || c == '\u{2028}' || c == '\u{2029}' || c
        == '\u{202f}' || c == '\u{205f}' || c == '\u{3000}'
}

/// Whether `c` has the Unicode property White_Space.
pub fn white(c: char) -> (r: bool)
    ensures
        r == is_white(c),
{
    ('\u{9}' <= c && c <= '\u{d}') || c == ' ' || c == '\u{85}' || c == '\u{a0}' || c == '\u{1680}'
        || ('\u{2000}' <= c && c <= '\u{200a}') || c == '\u{2028}' || c == '\u{2029}' || c
        == '\u{202f}' || c == '\u{205f}' || c == '\u{3000}'
}

pub open spec fn is_digit(c: char) -> bool {
    '0' <= c && c <= '9'
}

pub open spec fn is_alpha(c: char) -> bool {
    ('a' <= c && c <= 'z') || ('A' <= c && c <= 'Z')
}

pub open spec fn is_alnum(c: char) -> bool {
    is_digit(c) || is_alpha(c)
}

pub open spec fn is_hex(c: char) -> bool {
    is_digit(c) || ('a' <= c && c <= 'f') || ('A' <= c && c <= 'F')
}

pub open spec fn is_control(c: char) -> bool {
    c <= '\u{1f}' || ('\u{7f}' <= c && c <= '\u{9f}')
}

pub fn digit(c: char) -> (r: bool)
    ensures
        r == is_digit(c),
{
    '0' <= c && c <= '9'
}

pub fn alpha(c: char) -> (r: bool)
    ensures
        r == is_alpha(c),
{
    ('a' <= c && c <= 'z') || ('A' <= c && c <= 'Z')
}

pub fn alnum(c: char) -> (r: bool)
    ensures
        r == is_alnum(c),
{
    digit(c) || alpha(c)
}

pub fn hex(c: char) -> (r: bool)
    ensures
        r == is_hex(c),
{
    digit(c) || ('a' <= c && c <= 'f') || ('A' <= c && c <= 'F')
}

pub fn control(c: char) -> (r: bool)
    ensures
        r == is_control(c),
{
    c <= '\u{1f}' || ('\u{7f}' <= c && c <= '\u{9f}')
}

pub open spec fn lower_char(c: char) -> char {
    if 'A' <= c && c <= 'Z' {
        (c as int + 32) as char
    } else {
        c
    }
}

pub open spec fn upper_char(c: char) -> char {
    if 'a' <= c && c <= 'z' {
        (c as int - 32) as char
    } else {
        c
    }
}

pub open spec fn lower(s: Seq<char>) -> Seq<char> {
    Seq::new(s.len(), |i: int| lower_char(s[i]))
}

pub open spec fn upper(s: Seq<char>) -> Seq<char> {
    Seq::new(s.len(), |i: int| upper_char(s[i]))
}

pub fn to_lower_char(c: char) -> (r: char)
    ensures
        r == lower_char(c),
{
    if 'A' <= c && c <= 'Z' {
        (c as u8 + 32) as char
    } else {
        c
    }
}

pub fn to_upper_char(c: char) -> (r: char)
    ensures
        r == upper_char(c),
{
    if 'a' <= c && c <= 'z' {
        (c as u8 - 32) as char
    } else {
        c
    }
}

/// `s` with its ASCII capitals made small.
pub fn to_lower(s: &str) -> (r: String)
    ensures
        r@ == lower(s@),
{
    let mut out = String::new();
    for c in it: s.chars()
        invariant
            out@ == lower(s@.take(it.index())),
            it.seq() == s@,
    {
        out.push(to_lower_char(c));
        assert(lower(s@.take(it.index() + 1)) == lower(s@.take(it.index())).push(lower_char(c)));
    }
    assert(s@.take(s@.len() as int) == s@);
    out
}

/// `s` with its small ASCII letters made capitals.
pub fn to_upper(s: &str) -> (r: String)
    ensures
        r@ == upper(s@),
{
    let mut out = String::new();
    for c in it: s.chars()
        invariant
            out@ == upper(s@.take(it.index())),
            it.seq() == s@,
    {
        out.push(to_upper_char(c));
        assert(upper(s@.take(it.index() + 1)) == upper(s@.take(it.index())).push(upper_char(c)));
    }
    assert(s@.take(s@.len() as int) == s@);
    out
}

/// Equality up to ASCII letter case.
pub open spec fn like(a: Seq<char>, b: Seq<char>) -> bool {
    lower(a) == lower(b)
}

pub fn eq_nocase(a: &str, b: &str) -> (r: bool)
    ensures
        r == like(a@, b@),
{
    to_lower(a) == to_lower(b)
}

// ----- Trimming -----

pub open spec fn trim_start(s: Seq<char>) -> Seq<char>
    decreases s.len(),
{
    if s.len() > 0 && is_white(s[0]) {
        trim_start(s.subrange(1, s.len() as int))
    } else {
        s
    }
}

pub open spec fn trim_end(s: Seq<char>) -> Seq<char>
    decreases s.len(),
{
    if s.len() > 0 && is_white(s.last()) {
        trim_end(s.drop_last())
    } else {
        s
    }
}

/// Space at the end belongs to the last part that is not space.
pub proof fn lemma_trim_end_of_more(a: Seq<char>, b: Seq<char>)
    requires
        a.len() > 0,
        !is_white(a[a.len() - 1]),
    ensures
        trim_end(a + b) == a + trim_end(b),
    decreases b.len(),
{
    if b.len() == 0 {
        assert(a + b == a);
    } else if is_white(b.last()) {
        assert((a + b).drop_last() == a + b.drop_last());
        lemma_trim_end_of_more(a, b.drop_last());
    }
}

pub open spec fn trim(s: Seq<char>) -> Seq<char> {
    trim_end(trim_start(s))
}

/// `s` without leading white space.
pub fn trimmed_start(s: &str) -> (r: String)
    ensures
        r@ == trim_start(s@),
{
    let c = chars_of(s);
    let mut i: usize = 0;
    assert(s@.subrange(0, s@.len() as int) == s@);
    while i < c.len() && white(c[i])
        invariant
            i <= c.len(),
            trim_start(s@) == trim_start(s@.subrange(i as int, s@.len() as int)),
        decreases c.len() - i,
    {
        assert(s@.subrange(i as int, s@.len() as int).subrange(1, s@.len() - i) == s@.subrange(
            i + 1,
            s@.len() as int,
        ));
        i = i + 1;
    }
    piece(&c, i, c.len())
}

/// `s` without trailing white space.
pub fn trimmed_end(s: &str) -> (r: String)
    ensures
        r@ == trim_end(s@),
{
    let c = chars_of(s);
    let mut n: usize = c.len();
    assert(s@.subrange(0, s@.len() as int) == s@);
    while n > 0 && white(c[n - 1])
        invariant
            n <= c.len(),
            trim_end(s@) == trim_end(s@.subrange(0, n as int)),
        decreases n,
    {
        assert(s@.subrange(0, n as int).drop_last() == s@.subrange(0, n - 1));
        n = n - 1;
    }
    piece(&c, 0, n)
}

/// `s` without white space at either end.
pub fn trimmed(s: &str) -> (r: String)
    ensures
        r@ == trim(s@),
{
    trimmed_end(&trimmed_start(s))
}

/// `s` without the leading characters equal to `c`.
pub open spec fn drop_leading(s: Seq<char>, c: char) -> Seq<char>
    decreases s.len(),
{
    if s.len() > 0 && s[0] == c {
        drop_leading(s.subrange(1, s.len() as int), c)
    } else {
        s
    }
}

pub fn without_leading(s: &str, ch: char) -> (r: String)
    ensures
        r@ == drop_leading(s@, ch),
{
    let c = chars_of(s);
    let mut i: usize = 0;
    assert(s@.subrange(0, s@.len() as int) == s@);
    while i < c.len() && c[i] == ch
        invariant
            i <= c.len(),
            drop_leading(s@, ch) == drop_leading(s@.subrange(i as int, s@.len() as int), ch),
        decreases c.len() - i,
    {
        assert(s@.subrange(i as int, s@.len() as int).subrange(1, s@.len() - i) == s@.subrange(
            i + 1,
            s@.len() as int,
        ));
        i = i + 1;
    }
    piece(&c, i, c.len())
}

// ----- Cutting into parts -----

/// A text without the leading repetitions of a non-empty text.
pub open spec fn dropped_start(s: Seq<char>, p: Seq<char>) -> Seq<char>
    decreases s.len(),
{
    if p.len() > 0 && starts(s, p) {
        dropped_start(s.skip(p.len() as int), p)
    } else {
        s
    }
}

pub fn without_start(s: &str, p: &str) -> (r: String)
    ensures
        r@ == dropped_start(s@, p@),
{
    let mut t = s.to_owned();
    let n = length(p);
    while n > 0 && starts_with(&t, p)
        invariant
            n == p@.len(),
            dropped_start(s@, p@) == dropped_start(t@, p@),
        decreases t@.len(),
    {
        let len = length(&t);
        let rest = slice_of(&t, n, len);
        assert(rest@ == t@.skip(n as int));
        t = rest;
    }
    t
}

/// A text without the copies of `p` at its end.
pub open spec fn drop_trailing(s: Seq<char>, p: Seq<char>) -> Seq<char>
    decreases s.len(),
{
    if p.len() > 0 && ends(s, p) {
        drop_trailing(s.take(s.len() - p.len()), p)
    } else {
        s
    }
}

pub fn without_trailing(s: &str, p: &str) -> (r: String)
    ensures
        r@ == drop_trailing(s@, p@),
{
    let all = chars_of(s);
    let tail = length(p);
    let mut n: usize = all.len();
    assert(s@.take(n as int) == s@);
    let mut rest = s.to_owned();
    while tail > 0 && ends_with(&rest, p)
        invariant
            n <= all.len(),
            all@ == s@,
            tail == p@.len(),
            rest@ == s@.take(n as int),
            drop_trailing(s@, p@) == drop_trailing(rest@, p@),
        decreases n,
    {
        assert(s@.take(n as int).take(n - tail) == s@.take(n - tail));
        assert(s@.subrange(0, n - tail) == s@.take(n - tail));
        n = n - tail;
        rest = piece(&all, 0, n);
    }
    rest
}

/// The parts of `s` between the occurrences of `c`.
pub open spec fn split(s: Seq<char>, c: char) -> Seq<Seq<char>>
    decreases s.len(),
{
    if s.len() == 0 {
        seq![Seq::empty()]
    } else {
        let parts = split(s.drop_last(), c);
        if s.last() == c {
            parts.push(Seq::empty())
        } else {
            parts.drop_last().push(parts.last().push(s.last()))
        }
    }
}

pub proof fn lemma_unsplit(s: Seq<char>, c: char)
    requires
        forall|i: int| 0 <= i < s.len() ==> #[trigger] s[i] != c,
    ensures
        split(s, c) == seq![s],
    decreases s.len(),
{
    if s.len() > 0 {
        assert(s[s.len() - 1] != c);
        assert forall|i: int| 0 <= i < s.drop_last().len() implies #[trigger] s.drop_last()[i]
            != c by {
            assert(s[i] != c);
        }
        lemma_unsplit(s.drop_last(), c);
        assert(s.drop_last().push(s.last()) == s);
        assert(seq![s.drop_last()].drop_last().push(s) == seq![s]);
    } else {
        assert(s == Seq::<char>::empty());
    }
}

/// Splits `s` at each `c`.
pub fn split_at_char(s: &str, c: char) -> (r: Vec<String>)
    ensures
        r.deep_view() == split(s@, c),
        r.len() > 0,
{
    let mut out: Vec<String> = Vec::new();
    let mut part = String::new();
    assert(s@.take(0) == Seq::<char>::empty());
    for ch in it: s.chars()
        invariant
            split(s@.take(it.index()), c) == out.deep_view().push(part@),
            it.seq() == s@,
    {
        assert(s@.take(it.index() + 1).drop_last() == s@.take(it.index()));
        if ch == c {
            let ghost before = out.deep_view();
            out.push(part);
            assert(out.deep_view() == before.push(part@));
            part = String::new();
        } else {
            assert(out.deep_view().push(part@).drop_last() == out.deep_view());
            part.push(ch);
        }
    }
    assert(s@.take(s@.len() as int) == s@);
    let ghost before = out.deep_view();
    out.push(part);
    assert(out.deep_view() == before.push(part@));
    out
}

/// `s` with every white-space character made a blank.
pub open spec fn blanked(s: Seq<char>) -> Seq<char> {
    Seq::new(s.len(), |i: int| if is_white(s[i]) { ' ' } else { s[i] })
}

pub open spec fn nonempty(parts: Seq<Seq<char>>) -> Seq<Seq<char>>
    decreases parts.len(),
{
    if parts.len() == 0 {
        parts
    } else if parts.last().len() == 0 {
        nonempty(parts.drop_last())
    } else {
        nonempty(parts.drop_last()).push(parts.last())
    }
}

/// The words of `s`: the nonempty parts between white space.
pub open spec fn words(s: Seq<char>) -> Seq<Seq<char>> {
    nonempty(split(blanked(s), ' '))
}

/// A text without white space is one word.
pub proof fn lemma_one_word(s: Seq<char>)
    requires
        s.len() > 0,
        forall|i: int| 0 <= i < s.len() ==> !is_white(#[trigger] s[i]),
    ensures
        words(s) == seq![s],
{
    assert(blanked(s) == s);
    assert forall|i: int| 0 <= i < s.len() implies #[trigger] s[i] != ' ' by {
        assert(!is_white(s[i]));
    }
    lemma_unsplit(s, ' ');
    assert(seq![s].drop_last() == Seq::<Seq<char>>::empty());
    assert(nonempty(seq![s].drop_last()).len() == 0);
    assert(nonempty(seq![s]) == seq![s]);
}

pub fn split_words(s: &str) -> (r: Vec<String>)
    ensures
        r.deep_view() == words(s@),
{
    let mut flat = String::new();
    for c in it: s.chars()
        invariant
            flat@ == blanked(s@.take(it.index())),
            it.seq() == s@,
    {
        flat.push(if white(c) { ' ' } else { c });
        assert(flat@ == blanked(s@.take(it.index() + 1)));
    }
    assert(s@.take(s@.len() as int) == s@);
    let parts = split_at_char(&flat, ' ');
    let mut out: Vec<String> = Vec::new();
    let mut i: usize = 0;
    let ghost all = parts.deep_view();
    assert(all.take(0) == Seq::<Seq<char>>::empty());
    while i < parts.len()
        invariant
            i <= parts.len(),
            all == parts.deep_view(),
            out.deep_view() == nonempty(all.take(i as int)),
        decreases parts.len() - i,
    {
        assert(all.take(i + 1).drop_last() == all.take(i as int));
        if !parts[i].as_str().is_empty() {
            let ghost before = out.deep_view();
            out.push(parts[i].clone());
            assert(out.deep_view() == before.push(all[i as int]));
        }
        i = i + 1;
    }
    assert(all.take(all.len() as int) == all);
    out
}

/// The parts in order with `sep` between them.
pub open spec fn joined(parts: Seq<Seq<char>>, sep: Seq<char>) -> Seq<char>
    decreases parts.len(),
{
    if parts.len() == 0 {
        Seq::empty()
    } else if parts.len() == 1 {
        parts[0]
    } else {
        joined(parts.drop_last(), sep) + sep + parts.last()
    }
}

pub fn join(parts: &Vec<String>, sep: &str) -> (r: String)
    ensures
        r@ == joined(parts.deep_view(), sep@),
{
    let ghost all = parts.deep_view();
    let mut out = String::new();
    let mut i: usize = 0;
    while i < parts.len()
        invariant
            i <= parts.len(),
            out@ == joined(all.take(i as int), sep@),
            all == parts.deep_view(),
        decreases parts.len() - i,
    {
        assert(all.take(i + 1).drop_last() == all.take(i as int));
        if i > 0 {
            out.append(sep);
            out.append(&parts[i]);
        } else {
            out = parts[i].clone();
        }
        i = i + 1;
    }
    assert(all.take(all.len() as int) == all);
    out
}

/// `s` from position `i` on, with each occurrence of `from`, taken from the left,
/// replaced by `to`.
pub open spec fn replaced_from(s: Seq<char>, from: Seq<char>, to: Seq<char>, i: int) -> Seq<char>
    decreases s.len() - i,
{
    if i < 0 || i >= s.len() || from.len() == 0 {
        slice(s, i, s.len() as int)
    } else if occurs_at(s, from, i) {
        to + replaced_from(s, from, to, i + from.len())
    } else {
        seq![s[i]] + replaced_from(s, from, to, i + 1)
    }
}

pub open spec fn replaced(s: Seq<char>, from: Seq<char>, to: Seq<char>) -> Seq<char> {
    replaced_from(s, from, to, 0)
}

/// Replaces each occurrence of the nonempty text `from`.
pub fn replace(s: &str, from: &str, to: &str) -> (r: String)
    ensures
        r@ == replaced(s@, from@, to@),
{
    let c = chars_of(s);
    let p = chars_of(from);
    let mut out = String::new();
    let mut i: usize = 0;
    if p.len() == 0 {
        return s.to_owned();
    }
    while i < c.len()
        invariant
            i <= c.len(),
            out@ + replaced_from(s@, from@, to@, i as int) == replaced(s@, from@, to@),
        decreases c.len() - i,
    {
        if occurs(&c, &p, i) {
            assert(out@ + (to@ + replaced_from(s@, from@, to@, i + p@.len())) == (out@ + to@)
                + replaced_from(s@, from@, to@, i + p@.len()));
            out.append(to);
            i = i + p.len();
        } else {
            assert(out@ + (seq![c@[i as int]] + replaced_from(s@, from@, to@, i + 1)) == out@.push(
                c@[i as int],
            ) + replaced_from(s@, from@, to@, i + 1));
            out.push(c[i]);
            i = i + 1;
        }
    }
    out
}

// ----- Sizes in bytes -----

/// How many bytes a character takes in UTF-8.
pub open spec fn char_bytes(c: char) -> nat {
    if '\u{80}' > c {
        1
    } else if '\u{800}' > c {
        2
    } else if '\u{10000}' > c {
        3
    } else {
        4
    }
}

/// How many bytes a text takes in UTF-8.
pub open spec fn bytes_len(s: Seq<char>) -> nat
    decreases s.len(),
{
    if s.len() == 0 {
        0
    } else {
        bytes_len(s.drop_last()) + char_bytes(s.last())
    }
}

pub open spec fn blanks(n: nat) -> Seq<char> {
    Seq::new(n, |i: int| ' ')
}

/// As many blanks as `s` has bytes.
pub fn blanks_for(s: &str) -> (r: String)
    ensures
        r@ == blanks(bytes_len(s@)),
{
    let mut out = String::new();
    for c in it: s.chars()
        invariant
            out@ == blanks(bytes_len(s@.take(it.index()))),
            it.seq() == s@,
    {
        assert(s@.take(it.index() + 1).drop_last() == s@.take(it.index()));
        out.push(' ');
        if c >= '\u{80}' {
            out.push(' ');
        }
        if c >= '\u{800}' {
            out.push(' ');
        }
        if c >= '\u{10000}' {
            out.push(' ');
        }
        assert(out@ == blanks(bytes_len(s@.take(it.index() + 1))));
    }
    assert(s@.take(s@.len() as int) == s@);
    out
}

/// How many characters of `s` begin before byte `at`.
pub open spec fn chars_before_byte(s: Seq<char>, at: int) -> int
    decreases s.len(),
{
    if s.len() == 0 {
        0
    } else if bytes_len(s.drop_last()) < at {
        s.len() as int
    } else {
        chars_before_byte(s.drop_last(), at)
    }
}

// ----- Decimal numbers -----

pub open spec fn digit_char(n: nat) -> char {
    (48 + n) as char
}

/// A number in decimal notation.
pub open spec fn decimal(n: nat) -> Seq<char>
    decreases n,
{
    if n < 10 {
        seq![digit_char(n)]
    } else {
        decimal(n / 10).push(digit_char(n % 10))
    }
}

pub fn number_text(n: u64) -> (r: String)
    ensures
        r@ == decimal(n as nat),
    decreases n,
{
    let mut out = if n < 10 {
        String::new()
    } else {
        number_text(n / 10)
    };
    out.push((48 + (n % 10) as u8) as char);
    out
}

pub fn size_text(n: usize) -> (r: String)
    ensures
        r@ == decimal(n as nat),
{
    number_text(n as u64)
}

pub open spec fn all_digits(s: Seq<char>) -> bool {
    forall|i: int| 0 <= i < s.len() ==> is_digit(#[trigger] s[i])
}

/// The number that a row of digits stands for.
pub open spec fn digits_value(s: Seq<char>) -> nat
    decreases s.len(),
{
    if s.len() == 0 {
        0
    } else {
        digits_value(s.drop_last()) * 10 + (s.last() as int - 48) as nat
    }
}

/// The number that `s` denotes: an optional plus sign and at least one digit,
/// no more than `max`.
pub open spec fn parsed(s: Seq<char>, max: nat) -> Option<nat> {
    let body = if s.len() > 0 && s[0] == '+' {
        s.subrange(1, s.len() as int)
    } else {
        s
    };
    if body.len() > 0 && all_digits(body) && digits_value(body) <= max {
        Some(digits_value(body))
    } else {
        None
    }
}

pub open spec fn nat_of(r: Option<u64>) -> Option<nat> {
    match r {
        Some(n) => Some(n as nat),
        None => None,
    }
}

pub proof fn lemma_digits_value_grows(s: Seq<char>, n: int)
    requires
        0 <= n <= s.len(),
        all_digits(s),
    ensures
        digits_value(s.take(n)) <= digits_value(s),
    decreases s.len() - n,
{
    if n < s.len() {
        lemma_digits_value_grows(s, n + 1);
        assert(s.take(n + 1).drop_last() == s.take(n));
    } else {
        assert(s.take(n) == s);
    }
}

pub fn parse_bounded(s: &str, max: u64) -> (r: Option<u64>)
    ensures
        nat_of(r) == parsed(s@, max as nat),
{
    let c = chars_of(s);
    let start: usize = if c.len() > 0 && c[0] == '+' { 1 } else { 0 };
    let ghost body = s@.subrange(start as int, s@.len() as int);
    proof {
        assert(s@.subrange(0, s@.len() as int) == s@);
    }
    if start == c.len() {
        return None;
    }
    let mut i: usize = start;
    while i < c.len()
        invariant
            start <= i <= c.len(),
            forall|k: int| start <= k < i ==> is_digit(#[trigger] c@[k]),
        decreases c.len() - i,
    {
        if !digit(c[i]) {
            assert(!is_digit(body[i - start]));
            return None;
        }
        i = i + 1;
    }
    assert(all_digits(body));
    let mut value: u64 = 0;
    let mut j: usize = start;
    while j < c.len()
        invariant
            start <= j <= c.len(),
            value == digits_value(body.take(j - start)),
            value <= max,
            all_digits(body),
            body == c@.subrange(start as int, c@.len() as int),
        decreases c.len() - j,
    {
        let d: u64 = (c[j] as u8 - 48) as u64;
        proof {
            assert(body[j - start] == c@[j as int]);
            assert(body.take(j - start + 1).drop_last() == body.take(j - start));
            lemma_digits_value_grows(body, j - start + 1);
        }
        if value > max / 10 || d > max - value * 10 {
            return None;
        }
        value = value * 10 + d;
        j = j + 1;
    }
    assert(body.take(body.len() as int) == body);
    Some(value)
}

/// The number of machine size that `s` denotes, if it denotes one.
pub fn parse_size(s: &str) -> (r: Option<usize>)
    ensures
        size_nat(r) == parsed(s@, usize::MAX as nat),
{
    match parse_bounded(s, usize::MAX as u64) {
        Some(n) => Some(n as usize),
        None => None,
    }
}

pub open spec fn size_nat(r: Option<usize>) -> Option<nat> {
    match r {
        Some(n) => Some(n as nat),
        None => None,
    }
}

/// `parsed` for machine-size numbers.
pub open spec fn parsed_size(s: Seq<char>) -> Option<usize> {
    match parsed(s, usize::MAX as nat) {
        Some(n) => Some(n as usize),
        None => None,
    }
}

// ----- Order -----

/// Whether `a` comes before `b` where texts are ordered by their first characters,
/// then by the next, and a text comes before its continuations.
pub open spec fn precedes(a: Seq<char>, b: Seq<char>) -> bool
    decreases a.len(),
{
    if b.len() == 0 {
        false
    } else if a.len() == 0 {
        true
    } else if a[0] != b[0] {
        a[0] < b[0]
    } else {
        precedes(a.subrange(1, a.len() as int), b.subrange(1, b.len() as int))
    }
}

pub fn is_before(a: &str, b: &str) -> (r: bool)
    ensures
        r == precedes(a@, b@),
{
    let x = chars_of(a);
    let y = chars_of(b);
    let mut i: usize = 0;
    assert(x@.subrange(0, x@.len() as int) == x@);
    assert(y@.subrange(0, y@.len() as int) == y@);
    while i < x.len() && i < y.len() && x[i] == y[i]
        invariant
            i <= x.len(),
            i <= y.len(),
            precedes(a@, b@) == precedes(
                x@.subrange(i as int, x@.len() as int),
                y@.subrange(i as int, y@.len() as int),
            ),
        decreases x.len() - i,
    {
        assert(x@.subrange(i as int, x@.len() as int).subrange(1, x@.len() - i) == x@.subrange(
            i + 1,
            x@.len() as int,
        ));
        assert(y@.subrange(i as int, y@.len() as int).subrange(1, y@.len() - i) == y@.subrange(
            i + 1,
            y@.len() as int,
        ));
        i = i + 1;
    }
    if i == y.len() {
        false
    } else if i == x.len() {
        true
    } else {
        x[i] < y[i]
    }
}

/// Where `x` goes in a sorted list: behind the members that do not come after it.
pub open spec fn sorted_place(s: Seq<Seq<char>>, x: Seq<char>) -> int
    decreases s.len(),
{
    if s.len() > 0 && precedes(x, s.last()) {
        sorted_place(s.drop_last(), x)
    } else {
        s.len() as int
    }
}

pub proof fn lemma_sorted_place(s: Seq<Seq<char>>, x: Seq<char>)
    ensures
        0 <= sorted_place(s, x) <= s.len(),
    decreases s.len(),
{
    if s.len() > 0 && precedes(x, s.last()) {
        lemma_sorted_place(s.drop_last(), x);
    }
}

/// The texts in order, equal ones in the order in which they came.
pub open spec fn sorted(s: Seq<Seq<char>>) -> Seq<Seq<char>>
    decreases s.len(),
{
    if s.len() == 0 {
        s
    } else {
        let done = sorted(s.drop_last());
        done.insert(sorted_place(done, s.last()), s.last())
    }
}

pub fn sort_texts(v: Vec<String>) -> (r: Vec<String>)
    ensures
        r.deep_view() == sorted(v.deep_view()),
{
    let ghost all = v.deep_view();
    let mut out: Vec<String> = Vec::new();
    let mut i: usize = 0;
    assert(all.take(0) == Seq::<Seq<char>>::empty());
    while i < v.len()
        invariant
            i <= v.len(),
            all == v.deep_view(),
            out.deep_view() == sorted(all.take(i as int)),
        decreases v.len() - i,
    {
        assert(all.take(i + 1).drop_last() == all.take(i as int));
        let ghost done = out.deep_view();
        let x = v[i].clone();
        let mut n: usize = out.len();
        assert(done.take(done.len() as int) == done);
        while n > 0 && is_before(&x, &out[n - 1])
            invariant
                n <= out.len(),
                done == out.deep_view(),
                sorted_place(done, x@) == sorted_place(done.take(n as int), x@),
            decreases n,
        {
            assert(done.take(n as int).drop_last() == done.take(n - 1));
            n = n - 1;
        }
        out.insert(n, x);
        assert(out.deep_view() == done.insert(n as int, x@));
        i = i + 1;
    }
    assert(all.take(all.len() as int) == all);
    out
}

proof fn lemma_precedes_order(a: Seq<char>, b: Seq<char>, c: Seq<char>)
    ensures
        !precedes(a, a),
        a != b ==> precedes(a, b) || precedes(b, a),
        !(precedes(a, b) && precedes(b, a)),
        precedes(a, b) && precedes(b, c) ==> precedes(a, c),
    decreases a.len(),
{
    if a.len() > 0 {
        let x = a.subrange(1, a.len() as int);
        assert(a == seq![a[0]] + x);
        lemma_precedes_order(x, x, x);
        if b.len() > 0 {
            let y = b.subrange(1, b.len() as int);
            assert(b == seq![b[0]] + y);
            lemma_precedes_order(x, y, y);
            if c.len() > 0 {
                lemma_precedes_order(x, y, c.subrange(1, c.len() as int));
            }
        }
    }
    if a.len() == 0 && b.len() == 0 {
        assert(a == b);
    }
}

/// The order of texts is total and strict.
pub proof fn law_texts_are_ordered(a: Seq<char>, b: Seq<char>, c: Seq<char>)
    ensures
        !precedes(a, a),
        a != b ==> precedes(a, b) || precedes(b, a),
        precedes(a, b) && precedes(b, c) ==> precedes(a, c),
{
    lemma_precedes_order(a, b, c);
}

pub open spec fn ascending(s: Seq<Seq<char>>) -> bool {
    forall|i: int, j: int| 0 <= i < j < s.len() ==> !precedes(#[trigger] s[j], #[trigger] s[i])
}

proof fn lemma_sorted_place_splits(s: Seq<Seq<char>>, x: Seq<char>)
    requires
        ascending(s),
    ensures
        forall|i: int|
            0 <= i < sorted_place(s, x) ==> !precedes(x, #[trigger] s[i]),
        forall|i: int| sorted_place(s, x) <= i < s.len() ==> !precedes(#[trigger] s[i], x),
        0 <= sorted_place(s, x) <= s.len(),
    decreases s.len(),
{
    lemma_sorted_place(s, x);
    if s.len() > 0 {
        let last = s.last();
        lemma_precedes_order(x, last, x);
        if precedes(x, last) {
            assert(ascending(s.drop_last())) by {
                assert forall|i: int, j: int| 0 <= i < j < s.len() - 1 implies !precedes(
                    #[trigger] s.drop_last()[j],
                    #[trigger] s.drop_last()[i],
                ) by {
                    assert(s.drop_last()[j] == s[j] && s.drop_last()[i] == s[i]);
                }
            }
            lemma_sorted_place_splits(s.drop_last(), x);
            assert forall|i: int| 0 <= i < sorted_place(s, x) implies !precedes(
                x,
                #[trigger] s[i],
            ) by {
                assert(s.drop_last()[i] == s[i]);
            }
            assert forall|i: int| sorted_place(s, x) <= i < s.len() implies !precedes(
                #[trigger] s[i],
                x,
            ) by {
                if i < s.len() - 1 {
                    assert(s.drop_last()[i] == s[i]);
                }
            }
        } else {
            assert forall|i: int| 0 <= i < s.len() implies !precedes(x, #[trigger] s[i]) by {
                if i < s.len() - 1 {
                    assert(!precedes(s[s.len() - 1], s[i]));
                    if precedes(x, s[i]) {
                        lemma_precedes_order(s[i], last, last);
                        lemma_precedes_order(x, s[i], last);
                    }
                }
            }
        }
    }
}

/// Sorted texts ascend, and none is lost or added.
pub proof fn law_sorted_texts_ascend(s: Seq<Seq<char>>)
    ensures
        ascending(sorted(s)),
        sorted(s).to_multiset() == s.to_multiset(),
    decreases s.len(),
{
    if s.len() > 0 {
        let rest = s.drop_last();
        law_sorted_texts_ascend(rest);
        let done = sorted(rest);
        let x = s.last();
        let at = sorted_place(done, x);
        lemma_sorted_place_splits(done, x);
        let t = done.insert(at, x);
        assert forall|i: int, j: int| 0 <= i < j < t.len() implies !precedes(
            #[trigger] t[j],
            #[trigger] t[i],
        ) by {
            if i < at && j > at {
                assert(t[i] == done[i] && t[j] == done[j - 1]);
            } else if j < at {
                assert(t[i] == done[i] && t[j] == done[j]);
            } else if i > at {
                assert(t[i] == done[i - 1] && t[j] == done[j - 1]);
            } else if i == at {
                assert(t[j] == done[j - 1]);
            } else {
                assert(t[i] == done[i]);
            }
        }
        vstd::seq_lib::to_multiset_build(rest, x);
        assert(rest.push(x) == s);
        assert(t.remove(at) == done);
        vstd::seq_lib::to_multiset_remove(t, at);
        t.to_multiset_ensures();
        assert(t.contains(t[at]));
        assert(t.to_multiset().remove(x).insert(x) =~= t.to_multiset());
    }
}

/// The nonempty texts of a list, each once, in order.
pub open spec fn unique_sorted(s: Seq<Seq<char>>) -> Seq<Seq<char>> {
    sorted(crate::entries::once(nonempty(s)))
}

// ----- Places in characters -----

proof fn lemma_chars_before_byte(s: Seq<char>, n: int, at: int)
    requires
        0 <= n <= s.len(),
        at <= bytes_len(s.take(n)),
    ensures
        chars_before_byte(s, at) == chars_before_byte(s.take(n), at),
    decreases s.len() - n,
{
    if n < s.len() {
        assert(s.take(n + 1).drop_last() == s.take(n));
        lemma_chars_before_byte(s, n + 1, at);
    } else {
        assert(s.take(n) == s);
    }
}

pub proof fn lemma_chars_before_ordered(s: Seq<char>, a: int, b: int)
    requires
        a <= b,
    ensures
        0 <= chars_before_byte(s, a) <= chars_before_byte(s, b) <= s.len(),
    decreases s.len(),
{
    if s.len() > 0 {
        lemma_chars_before_ordered(s.drop_last(), a, b);
    }
}

proof fn lemma_all_chars_before(s: Seq<char>, at: int)
    requires
        at >= bytes_len(s),
    ensures
        chars_before_byte(s, at) == s.len(),
{
    if s.len() > 0 {
        assert(char_bytes(s.last()) >= 1);
    }
}

/// For each byte of a text, and for its end, how many characters begin before it.
pub fn char_places(s: &Vec<char>) -> (r: Vec<usize>)
    ensures
        r@.len() == bytes_len(s@) + 1,
        forall|b: int|
            0 <= b < r@.len() ==> #[trigger] r@[b] == chars_before_byte(s@, b),
{
    let mut out: Vec<usize> = Vec::new();
    let mut i: usize = 0;
    while i < s.len()
        invariant
            i <= s.len(),
            out@.len() == bytes_len(s@.take(i as int)),
            forall|b: int|
                0 <= b < out@.len() ==> #[trigger] out@[b] == chars_before_byte(s@, b),
        decreases s.len() - i,
    {
        let c = s[i];
        let ghost before = s@.take(i as int);
        let ghost after = s@.take(i + 1);
        proof {
            assert(after.drop_last() == before);
            lemma_chars_before_byte(s@, i as int, out@.len() as int);
            lemma_all_chars_before(before, out@.len() as int);
            assert forall|b: int| out@.len() < b <= bytes_len(after) implies #[trigger]
                chars_before_byte(s@, b) == i + 1 by {
                lemma_chars_before_byte(s@, i + 1, b);
            }
        }
        out.push(i);
        if c >= '\u{80}' {
            out.push(i + 1);
        }
        if c >= '\u{800}' {
            out.push(i + 1);
        }
        if c >= '\u{10000}' {
            out.push(i + 1);
        }
        i = i + 1;
    }
    assert(s@.take(s@.len() as int) == s@);
    proof {
        lemma_all_chars_before(s@, out@.len() as int);
    }
    out.push(s.len());
    out
}

pub fn place_of(places: &Vec<usize>, s: &Vec<char>, byte: usize) -> (r: usize)
    requires
        places@.len() == bytes_len(s@) + 1,
        forall|b: int|
            0 <= b < places@.len() ==> #[trigger] places@[b] == chars_before_byte(s@, b),
    ensures
        r == chars_before_byte(s@, byte as int),
{
    if byte < places.len() {
        places[byte]
    } else {
        proof {
            lemma_all_chars_before(s@, byte as int);
        }
        s.len()
    }
}

} // verus!
