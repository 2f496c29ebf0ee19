//! Regular expressions: what a pattern finds in a text, as pieces of the text.

use crate::text;
use vstd::prelude::*;
use vstd::string::*;

verus! {

/// What a scan finds: for each match the text between it and the match before, and
/// its groups, the whole match first; then the text behind the last match.
pub type Scan = (Seq<(Seq<char>, Seq<Option<Seq<char>>>)>, Seq<char>);

/// Where the groups of each match stand, the whole match first, in bytes.
pub type Spans = Seq<Seq<Option<(usize, usize)>>>;

/// The outcome of `regex::Regex::new(pattern)` followed by `captures_iter(text)`: where the
/// groups of each match stand; `None` where the pattern is refused.
pub uninterp spec fn regex_captures(pattern: Seq<char>, text: Seq<char>) -> Option<
    Seq<Seq<Option<(usize, usize)>>>,
>;

/// Whether matches stand in a text of `n` bytes: each has its group 0, every group is a range
/// of the text, and no match begins before the end of one that precedes it.
pub open spec fn spans_fit(hits: Spans, n: nat) -> bool {
    &&& forall|i: int|
        0 <= i < hits.len() ==> (#[trigger] hits[i]).len() > 0 && hits[i][0] is Some
    &&& forall|i: int, g: int|
        0 <= i < hits.len() && 0 <= g < hits[i].len() ==> (#[trigger] hits[i][g] matches Some(span)
            ==> span.0 <= span.1 <= n)
    &&& forall|i: int, j: int|
        0 <= i < j < hits.len() ==> (#[trigger] hits[i])[0]->Some_0.1 <= (
        #[trigger] hits[j])[0]->Some_0.0
}

/// `regex::Regex::captures_iter`: the successive matches of `pattern` in `text`, each with the
/// ranges of bytes of its groups in order of their numbers. Claimed: the outcome is fixed by
/// pattern and text; each match has its group 0; the ranges are ranges of the text; the
/// matches do not overlap and come in order.
#[verifier::external_body]
fn captures_iter(pattern: &str, text: &str) -> (r: Option<Vec<Vec<Option<(usize, usize)>>>>)
    ensures
        r.deep_view() == regex_captures(pattern@, text@),
        r.deep_view() matches Some(hits) ==> spans_fit(hits, text::bytes_len(text@)),
{
    let re = regex::Regex::new(pattern).ok()?;
    Some(
        re.captures_iter(text)
            .map(|found| found.iter().map(|g| g.map(|m| (m.start(), m.end()))).collect())
            .collect(),
    )
}

// ----- The pieces of a text -----

/// The texts between and inside the matches, put together again.
pub open spec fn scanned_text(hits: Seq<(Seq<char>, Seq<Option<Seq<char>>>)>) -> Seq<char>
    decreases hits.len(),
{
    if hits.len() == 0 {
        Seq::empty()
    } else {
        scanned_text(hits.drop_last()) + hits.last().0 + group_text(hits.last().1, 0)
    }
}

/// The text of a range of bytes.
pub open spec fn span_text(s: Seq<char>, span: Option<(usize, usize)>) -> Option<Seq<char>> {
    match span {
        Some((a, b)) => Some(
            text::slice(
                s,
                text::chars_before_byte(s, a as int) as int,
                text::chars_before_byte(s, b as int) as int,
            ),
        ),
        None => None,
    }
}

/// How many characters stand before the end of the match before the `i`-th.
pub open spec fn ended(s: Seq<char>, hits: Spans, i: int) -> int {
    if i <= 0 {
        0
    } else {
        text::chars_before_byte(s, hits[i - 1][0]->Some_0.1 as int) as int
    }
}

/// The `i`-th match with the text before it.
pub open spec fn piece(s: Seq<char>, hits: Spans, i: int) -> (Seq<char>, Seq<Option<Seq<char>>>) {
    (
        text::slice(
            s,
            ended(s, hits, i),
            text::chars_before_byte(s, hits[i][0]->Some_0.0 as int) as int,
        ),
        Seq::new(hits[i].len(), |g: int| span_text(s, hits[i][g])),
    )
}

/// A text cut at its matches.
pub open spec fn pieces(s: Seq<char>, hits: Spans) -> Scan {
    (
        Seq::new(hits.len(), |i: int| piece(s, hits, i)),
        text::slice(s, ended(s, hits, hits.len() as int), s.len() as int),
    )
}

proof fn lemma_ended(s: Seq<char>, hits: Spans, i: int)
    requires
        spans_fit(hits, text::bytes_len(s)),
        0 <= i <= hits.len(),
    ensures
        0 <= ended(s, hits, i) <= s.len(),
        i < hits.len() ==> ended(s, hits, i) <= text::chars_before_byte(
            s,
            hits[i][0]->Some_0.0 as int,
        ) <= ended(s, hits, i + 1) <= s.len(),
{
    if i > 0 {
        assert(hits[i - 1][0] is Some);
        let span = hits[i - 1][0]->Some_0;
        text::lemma_chars_before_ordered(s, span.1 as int, span.1 as int);
    }
    if i < hits.len() {
        assert(hits[i][0] is Some);
        let span = hits[i][0]->Some_0;
        text::lemma_chars_before_ordered(s, span.0 as int, span.1 as int);
        if i > 0 {
            assert(hits[i - 1][0]->Some_0.1 <= hits[i][0]->Some_0.0);
            text::lemma_chars_before_ordered(
                s,
                hits[i - 1][0]->Some_0.1 as int,
                span.0 as int,
            );
        }
    }
}

proof fn lemma_pieces_make_the_text(s: Seq<char>, hits: Spans, n: int)
    requires
        spans_fit(hits, text::bytes_len(s)),
        0 <= n <= hits.len(),
    ensures
        scanned_text(pieces(s, hits).0.take(n)) == s.take(ended(s, hits, n)),
    decreases n,
{
    let all = pieces(s, hits).0;
    if n > 0 {
        lemma_pieces_make_the_text(s, hits, n - 1);
        lemma_ended(s, hits, n - 1);
        assert(all.take(n).drop_last() == all.take(n - 1));
        assert(all.take(n).last() == piece(s, hits, n - 1));
        assert(hits[n - 1].len() > 0 && hits[n - 1][0] is Some);
        let (a, b, c) = (
            ended(s, hits, n - 1),
            text::chars_before_byte(s, hits[n - 1][0]->Some_0.0 as int) as int,
            ended(s, hits, n),
        );
        assert(s.take(a) + s.subrange(a, b) + s.subrange(b, c) == s.take(c));
    } else {
        assert(all.take(0).len() == 0);
        assert(s.take(0) == Seq::<char>::empty());
    }
}

/// The pieces of a text, put together, are the text.
pub proof fn law_pieces_make_the_text(s: Seq<char>, hits: Spans)
    requires
        spans_fit(hits, text::bytes_len(s)),
    ensures
        scanned_text(pieces(s, hits).0) + pieces(s, hits).1 == s,
        forall|i: int|
            0 <= i < pieces(s, hits).0.len() ==> (#[trigger] pieces(s, hits).0[i]).1.len() > 0
                && pieces(s, hits).0[i].1[0] is Some,
{
    let n = hits.len() as int;
    let all = pieces(s, hits).0;
    lemma_pieces_make_the_text(s, hits, n);
    lemma_ended(s, hits, n);
    assert(all.take(n) == all);
    let c = ended(s, hits, n);
    assert(s.take(c) + s.subrange(c, s.len() as int) == s);
    assert forall|i: int| 0 <= i < all.len() implies (#[trigger] all[i]).1.len() > 0
        && all[i].1[0] is Some by {
        assert(hits[i].len() > 0 && hits[i][0] is Some);
    }
}

/// The texts of the groups of a match.
fn group_texts(s: &Vec<char>, places: &Vec<usize>, spans: &Vec<Option<(usize, usize)>>) -> (r: Vec<
    Option<String>,
>)
    requires
        places@.len() == text::bytes_len(s@) + 1,
        forall|b: int|
            0 <= b < places@.len() ==> #[trigger] places@[b] == text::chars_before_byte(s@, b),
    ensures
        r.deep_view() == Seq::new(
            spans.deep_view().len(),
            |g: int| span_text(s@, spans.deep_view()[g]),
        ),
{
    let ghost expected = Seq::new(
        spans.deep_view().len(),
        |g: int| span_text(s@, spans.deep_view()[g]),
    );
    let mut out: Vec<Option<String>> = Vec::new();
    let mut g: usize = 0;
    assert(out.deep_view() == expected.take(0));
    while g < spans.len()
        invariant
            g <= spans.len(),
            expected.len() == spans.len(),
            out.deep_view() == expected.take(g as int),
        decreases spans.len() - g,
    {
        assert(spans.deep_view()[g as int] == spans@[g as int].deep_view());
        let ghost done = out.deep_view();
        let one = match &spans[g] {
            Some((a, b)) => Some(
                text::piece(s, text::place_of(places, s, *a), text::place_of(places, s, *b)),
            ),
            None => None,
        };
        assert(one.deep_view() == expected[g as int]);
        out.push(one);
        assert(out.deep_view() == done.push(one.deep_view()));
        assert(expected.take(g + 1) == expected.take(g as int).push(expected[g as int]));
        g = g + 1;
    }
    assert(expected.take(expected.len() as int) == expected);
    out
}

/// Cuts a text at its matches.
fn cut_at(text: &str, hits: &Vec<Vec<Option<(usize, usize)>>>) -> (r: (
    Vec<(String, Vec<Option<String>>)>,
    String,
))
    requires
        spans_fit(hits.deep_view(), text::bytes_len(text@)),
    ensures
        r.deep_view() == pieces(text@, hits.deep_view()),
{
    let s = text::chars_of(text);
    let places = text::char_places(&s);
    let ghost spans = hits.deep_view();
    let ghost expected = pieces(text@, spans).0;
    let mut out: Vec<(String, Vec<Option<String>>)> = Vec::new();
    let mut at: usize = 0;
    let mut i: usize = 0;
    assert(out.deep_view() == expected.take(0));
    while i < hits.len()
        invariant
            i <= hits.len(),
            spans == hits.deep_view(),
            spans_fit(spans, text::bytes_len(text@)),
            expected == pieces(text@, spans).0,
            s@ == text@,
            places@.len() == text::bytes_len(s@) + 1,
            forall|b: int|
                0 <= b < places@.len() ==> #[trigger] places@[b] == text::chars_before_byte(s@, b),
            at == ended(text@, spans, i as int),
            out.deep_view() == expected.take(i as int),
        decreases hits.len() - i,
    {
        assert(spans[i as int] == hits@[i as int].deep_view());
        assert(spans[i as int].len() > 0 && spans[i as int][0] is Some);
        assert(spans[i as int][0] == hits@[i as int]@[0].deep_view());
        let ghost done = out.deep_view();
        let groups = group_texts(&s, &places, &hits[i]);
        let mut next: usize = at;
        let mut before = String::new();
        match &hits[i][0] {
            Some((a, b)) => {
                before = text::piece(&s, at, text::place_of(&places, &s, *a));
                next = text::place_of(&places, &s, *b);
            },
            None => {},
        }
        let one = (before, groups);
        assert(one.deep_view() == expected[i as int]);
        out.push(one);
        assert(out.deep_view() == done.push(one.deep_view()));
        assert(expected.take(i + 1) == expected.take(i as int).push(expected[i as int]));
        at = next;
        i = i + 1;
    }
    assert(expected.take(expected.len() as int) == expected);
    let tail = text::piece(&s, at, s.len());
    (out, tail)
}

/// The matches of `pattern` in `text`; none where the pattern is refused.
pub open spec fn scan(pattern: Seq<char>, text: Seq<char>) -> Scan {
    match regex_captures(pattern, text) {
        Some(hits) => pieces(text, hits),
        None => (Seq::empty(), text),
    }
}

pub fn find_all(pattern: &str, text: &str) -> (r: (Vec<(String, Vec<Option<String>>)>, String))
    ensures
        r.deep_view() == scan(pattern@, text@),
        scanned_text(r.0.deep_view()) + r.1@ == text@,
        forall|i: int|
            0 <= i < r.0.deep_view().len() ==> (#[trigger] r.0.deep_view()[i]).1.len() > 0
                && r.0.deep_view()[i].1[0] is Some,
{
    match captures_iter(pattern, text) {
        Some(hits) => {
            proof {
                law_pieces_make_the_text(text@, hits.deep_view());
            }
            cut_at(text, &hits)
        },
        None => {
            let none: Vec<(String, Vec<Option<String>>)> = Vec::new();
            assert(none.deep_view() == Seq::<(Seq<char>, Seq<Option<Seq<char>>>)>::empty());
            assert(Seq::<char>::empty() + text@ == text@);
            (none, text.to_owned())
        },
    }
}

/// The text of group `i`, if the match has it.
pub open spec fn group(groups: Seq<Option<Seq<char>>>, i: int) -> Option<Seq<char>> {
    if 0 <= i < groups.len() {
        groups[i]
    } else {
        None
    }
}

/// The text of group `i`, empty where the match does not have it.
pub open spec fn group_text(groups: Seq<Option<Seq<char>>>, i: int) -> Seq<char> {
    match group(groups, i) {
        Some(t) => t,
        None => Seq::empty(),
    }
}

pub fn group_of(groups: &Vec<Option<String>>, i: usize) -> (r: Option<String>)
    ensures
        r.deep_view() == group(groups.deep_view(), i as int),
{
    if i < groups.len() {
        match &groups[i] {
            Some(t) => Some(t.clone()),
            None => None,
        }
    } else {
        None
    }
}

pub fn group_text_of(groups: &Vec<Option<String>>, i: usize) -> (r: String)
    ensures
        r@ == group_text(groups.deep_view(), i as int),
{
    match group_of(groups, i) {
        Some(t) => t,
        None => String::new(),
    }
}

/// The groups of the first match.
pub open spec fn first_match(pattern: Seq<char>, text: Seq<char>) -> Option<
    Seq<Option<Seq<char>>>,
> {
    if scan(pattern, text).0.len() > 0 {
        Some(scan(pattern, text).0[0].1)
    } else {
        None
    }
}

pub fn find_first(pattern: &str, text: &str) -> (r: Option<Vec<Option<String>>>)
    ensures
        r.deep_view() == first_match(pattern@, text@),
{
    let found = find_all(pattern, text);
    let mut hits = found.0;
    assert(hits.deep_view() == scan(pattern@, text@).0);
    if hits.len() > 0 {
        let (_before, groups) = hits.swap_remove(0);
        Some(groups)
    } else {
        None
    }
}

pub fn is_match(pattern: &str, text: &str) -> (r: bool)
    ensures
        r == first_match(pattern@, text@) is Some,
{
    find_first(pattern, text).is_some()
}

proof fn lemma_first_piece(hits: Seq<(Seq<char>, Seq<Option<Seq<char>>>)>)
    requires
        hits.len() > 0,
    ensures
        scanned_text(hits).len() >= hits[0].0.len() + group_text(hits[0].1, 0).len(),
    decreases hits.len(),
{
    if hits.len() > 1 {
        lemma_first_piece(hits.drop_last());
    } else {
        assert(hits.drop_last().len() == 0);
    }
}

/// The text before the first match, and the match.
pub open spec fn first_cut(pattern: Seq<char>, text: Seq<char>) -> Option<(Seq<char>, Seq<char>)> {
    let hits = scan(pattern, text).0;
    if hits.len() > 0 {
        Some((hits[0].0, group_text(hits[0].1, 0)))
    } else {
        None
    }
}

pub fn cut_first(pattern: &str, text: &str) -> (r: Option<(String, String)>)
    ensures
        r.deep_view() == first_cut(pattern@, text@),
        r.deep_view() matches Some(cut) ==> cut.0.len() + cut.1.len() <= text@.len(),
{
    let found = find_all(pattern, text);
    assert(found.0.deep_view() == scan(pattern@, text@).0);
    if found.0.len() > 0 {
        proof {
            lemma_first_piece(found.0.deep_view());
        }
        assert(found.0.deep_view()[0] == found.0@[0].deep_view());
        let before = found.0[0].0.clone();
        let whole = group_text_of(&found.0[0].1, 0);
        Some((before, whole))
    } else {
        None
    }
}

/// Where the last match begins.
pub open spec fn last_start(pattern: Seq<char>, text: Seq<char>) -> Option<int> {
    let hits = scan(pattern, text).0;
    if hits.len() > 0 {
        Some((scanned_text(hits.drop_last()).len() + hits.last().0.len()) as int)
    } else {
        None
    }
}

pub fn start_of_last(pattern: &str, text: &str) -> (r: Option<usize>)
    ensures
        text::pos(r) == last_start(pattern@, text@),
        r matches Some(i) ==> i <= text@.len(),
{
    let found = find_all(pattern, text);
    let ghost hits = found.0.deep_view();
    assert(hits == scan(pattern@, text@).0);
    let n = found.0.len();
    if n > 0 {
        assert(hits.last() == found.0@[n - 1].deep_view());
        let whole = text::length(&group_text_of(&found.0[n - 1].1, 0));
        let behind = text::length(&found.1);
        let all = text::length(text);
        assert(scanned_text(hits) == scanned_text(hits.drop_last()) + hits.last().0 + group_text(
            hits.last().1,
            0,
        ));
        assert((scanned_text(hits) + found.1@).len() == all);
        Some(all - behind - whole)
    } else {
        None
    }
}

/// The characters that have a meaning of their own in a pattern.
pub open spec fn is_meta(c: char) -> bool {
    c == '\\' || c == '.' || c == '+' || c == '*' || c == '?' || c == '(' || c == ')' || c == '|'
        || c == '[' || c == ']' || c == '{' || c == '}' || c == '^' || c == '$' || c == '#' || c
        == '&' || c == '-' || c == '~'
}

pub open spec fn escaped(s: Seq<char>) -> Seq<char>
    decreases s.len(),
{
    if s.len() == 0 {
        s
    } else if is_meta(s.last()) {
        escaped(s.drop_last()).push('\\').push(s.last())
    } else {
        escaped(s.drop_last()).push(s.last())
    }
}

/// `regex::escape`: a backslash goes before each character that has a meaning in a
/// pattern, and every other character stays.
#[verifier::external_body]
pub(crate) fn escape(s: &str) -> (r: String)
    ensures
        r@ == escaped(s@),
{
    regex::escape(s)
}

/// The outcome of `regex::Regex::new(pattern)` followed by `replace_all(text, with)`,
/// in which `$` in `with` stands for groups: `None` where the pattern is refused.
pub uninterp spec fn regex_replaced(
    pattern: Seq<char>,
    text: Seq<char>,
    with: Seq<char>,
) -> Option<Seq<char>>;

/// `regex::Regex::replace_all`: the outcome is fixed by pattern, text and
/// replacement.
#[verifier::external_body]
fn replace_matches(pattern: &str, text: &str, with: &str) -> (r: Option<String>)
    ensures
        r.deep_view() == regex_replaced(pattern@, text@, with@),
{
    let re = regex::Regex::new(pattern).ok()?;
    Some(re.replace_all(text, with).into_owned())
}

/// `text` with the matches of `pattern` replaced; unchanged where the pattern is
/// refused.
pub open spec fn substituted(pattern: Seq<char>, text: Seq<char>, with: Seq<char>) -> Seq<char> {
    match regex_replaced(pattern, text, with) {
        Some(t) => t,
        None => text,
    }
}

pub fn substitute(pattern: &str, text: &str, with: &str) -> (r: String)
    ensures
        r@ == substituted(pattern@, text@, with@),
{
    match replace_matches(pattern, text, with) {
        Some(t) => t,
        None => text.to_owned(),
    }
}

} // verus!
