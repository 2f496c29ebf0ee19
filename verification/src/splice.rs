//! Changing a document in place: pieces of its text are put in the place of others,
//! and the rest of it stays as it is.

use crate::entries;
use crate::pattern;
use crate::text;
use crate::xml;
use crate::xml::{NodeModel, XmlNode};
use vstd::prelude::*;
use vstd::string::*;

verus! {

// ----- Pieces of a text -----

/// `s` with its part from `a` up to `b` replaced by `t`.
pub open spec fn replaced_at(s: Seq<char>, a: int, b: int, t: Seq<char>) -> Seq<char> {
    text::slice(s, 0, a) + t + text::slice(s, b, s.len() as int)
}

pub fn replace_at(s: &str, a: usize, b: usize, t: &str) -> (r: String)
    ensures
        r@ == replaced_at(s@, a as int, b as int, t@),
{
    let all = text::chars_of(s);
    let mut out = text::piece(&all, 0, a);
    out.append(t);
    out.append(&text::piece(&all, b, all.len()));
    out
}

/// `s` with `t` put in at `at`.
pub open spec fn inserted(s: Seq<char>, at: int, t: Seq<char>) -> Seq<char> {
    replaced_at(s, at, at, t)
}

pub fn insert_at_index(s: &str, idx: usize, insertion: &str) -> (r: String)
    ensures
        r@ == inserted(s@, idx as int, insertion@),
{
    replace_at(s, idx, idx, insertion)
}

/// Putting text in keeps what stood before and behind the place.
pub proof fn law_insertion_keeps_the_rest(s: Seq<char>, at: int, t: Seq<char>)
    requires
        0 <= at <= s.len(),
    ensures
        inserted(s, at, t).take(at) == s.take(at),
        inserted(s, at, t).skip(at + t.len()) == s.skip(at),
{
    assert(text::slice(s, 0, at) == s.take(at));
    assert(text::slice(s, at, s.len() as int) == s.skip(at));
    assert(inserted(s, at, t).take(at) == s.take(at));
    assert(inserted(s, at, t).skip(at + t.len()) == s.skip(at));
}

// ----- Many pieces at once -----

/// Where `x` goes in a list that is in order: behind the members that are not above it.
pub open spec fn place_of<T>(s: Seq<(usize, T)>, x: (usize, T)) -> int
    decreases s.len(),
{
    if s.len() == 0 {
        0
    } else if s.last().0 <= x.0 {
        s.len() as int
    } else {
        place_of(s.drop_last(), x)
    }
}

pub proof fn lemma_place_of<T>(s: Seq<(usize, T)>, x: (usize, T))
    ensures
        0 <= place_of(s, x) <= s.len(),
    decreases s.len(),
{
    if s.len() > 0 {
        lemma_place_of(s.drop_last(), x);
    }
}

/// A list put in order of its numbers; members with the same number keep their order.
pub open spec fn in_order<T>(s: Seq<(usize, T)>) -> Seq<(usize, T)>
    decreases s.len(),
{
    if s.len() == 0 {
        s
    } else {
        let done = in_order(s.drop_last());
        done.insert(place_of(done, s.last()), s.last())
    }
}

proof fn lemma_behind_place<T>(s: Seq<(usize, T)>, x: (usize, T), i: int)
    requires
        forall|a: int, b: int| 0 <= a <= b < s.len() ==> s[a].0 <= s[b].0,
        0 <= i < s.len(),
    ensures
        i < place_of(s, x) ==> s[i].0 <= x.0,
        i >= place_of(s, x) ==> x.0 < s[i].0,
    decreases s.len(),
{
    lemma_place_of(s, x);
    if s.last().0 > x.0 && i < s.len() - 1 {
        let t = s.drop_last();
        assert forall|a: int, b: int| 0 <= a <= b < t.len() implies t[a].0 <= t[b].0 by {
            assert(s[a].0 <= s[b].0);
        }
        lemma_behind_place(t, x, i);
    }
    if s.last().0 > x.0 && i == s.len() - 1 {
        lemma_place_of(s.drop_last(), x);
    }
}

/// A list put in order is in order, and holds what the list held.
pub proof fn law_in_order<T>(s: Seq<(usize, T)>)
    ensures
        forall|a: int, b: int|
            0 <= a <= b < in_order(s).len() ==> (#[trigger] in_order(s)[a]).0
                <= (#[trigger] in_order(s)[b]).0,
        in_order(s).to_multiset() == s.to_multiset(),
    decreases s.len(),
{
    broadcast use vstd::seq_lib::group_to_multiset_ensures;

    if s.len() > 0 {
        let done = in_order(s.drop_last());
        let x = s.last();
        let at = place_of(done, x);
        law_in_order(s.drop_last());
        lemma_place_of(done, x);
        let r = done.insert(at, x);
        assert forall|a: int, b: int| 0 <= a <= b < r.len() implies (#[trigger] r[a]).0
            <= (#[trigger] r[b]).0 by {
            if a < at {
                lemma_behind_place(done, x, a);
            }
            if b > at {
                lemma_behind_place(done, x, b - 1);
            }
            if a > at {
                assert(r[a] == done[a - 1]);
            }
        }
        assert(s.drop_last().push(x) == s);
        assert(r.to_multiset() == done.to_multiset().insert(x));
        assert(s.to_multiset() == s.drop_last().to_multiset().insert(x));
    }
}

pub fn sort_by_number<T: DeepView>(v: Vec<(usize, T)>) -> (r: Vec<(usize, T)>)
    ensures
        r.deep_view() == in_order(v.deep_view()),
    decreases v.len(),
{
    let mut rest = v;
    let ghost all = v.deep_view();
    match rest.pop() {
        None => {
            assert(rest.deep_view() == all);
            rest
        },
        Some(x) => {
            assert(rest.deep_view() == all.drop_last());
            assert(all.last() == x.deep_view());
            let mut done = sort_by_number(rest);
            let ghost before = done.deep_view();
            let mut i: usize = done.len();
            assert(before.take(i as int) == before);
            while i > 0 && done[i - 1].0 > x.0
                invariant
                    i <= done.len(),
                    before == done.deep_view(),
                    place_of(before, x.deep_view()) == place_of(
                        before.take(i as int),
                        x.deep_view(),
                    ),
                decreases i,
            {
                assert(before.take(i as int).last() == done@[i - 1].deep_view());
                assert(before.take(i as int).drop_last() == before.take(i - 1));
                i = i - 1;
            }
            if i > 0 {
                assert(before.take(i as int).last() == done@[i - 1].deep_view());
            }
            done.insert(i, x);
            assert(done.deep_view() == before.insert(i as int, x.deep_view()));
            done
        },
    }
}

/// Pieces to be put into a text: from where, up to where, and what.
pub type Splices = Seq<(usize, (usize, Seq<char>))>;

/// `s` with the pieces put in, the last one first, so that the places of those before
/// it stay true.
pub open spec fn spliced(s: Seq<char>, list: Splices) -> Seq<char>
    decreases list.len(),
{
    if list.len() == 0 {
        s
    } else {
        spliced(
            replaced_at(s, list.last().0 as int, list.last().1.0 as int, list.last().1.1),
            list.drop_last(),
        )
    }
}

pub open spec fn spliced_in_order(s: Seq<char>, list: Splices) -> Seq<char> {
    spliced(s, in_order(list))
}

/// Puts the pieces into a text, the last of the list first.
pub fn splice_list(s: &str, list: &Vec<(usize, (usize, String))>) -> (r: String)
    ensures
        r@ == spliced(s@, list.deep_view()),
{
    let ghost all = list.deep_view();
    let mut out = s.to_owned();
    let mut n: usize = list.len();
    assert(all.take(n as int) == all);
    while n > 0
        invariant
            n <= list.len(),
            all == list.deep_view(),
            spliced(s@, all) == spliced(out@, all.take(n as int)),
        decreases n,
    {
        assert(all.take(n as int).last() == list@[n - 1].deep_view());
        assert(all.take(n as int).drop_last() == all.take(n - 1));
        n = n - 1;
        out = replace_at(&out, list[n].0, list[n].1.0, &list[n].1.1);
    }
    out
}

/// Puts the pieces into a text, from the last place to the first.
pub fn splice(s: &str, list: Vec<(usize, (usize, String))>) -> (r: String)
    ensures
        r@ == spliced_in_order(s@, list.deep_view()),
{
    splice_list(s, &sort_by_number(list))
}

/// Whether pieces stand one behind the other in a text of `n` characters, from `from` on.
pub open spec fn apart(list: Splices, from: int, n: int) -> bool
    decreases list.len(),
{
    if list.len() == 0 {
        from <= n
    } else {
        from <= list[0].0 <= list[0].1.0 && apart(list.skip(1), list[0].1.0 as int, n)
    }
}

/// A text from `from` on as it stands between the pieces, with what they put in.
pub open spec fn interleaved(s: Seq<char>, list: Splices, from: int) -> Seq<char>
    decreases list.len(),
{
    if list.len() == 0 {
        text::slice(s, from, s.len() as int)
    } else {
        text::slice(s, from, list[0].0 as int) + list[0].1.1 + interleaved(
            s,
            list.skip(1),
            list[0].1.0 as int,
        )
    }
}

proof fn lemma_apart_but_the_last(list: Splices, from: int, n: int)
    requires
        apart(list, from, n),
        list.len() > 0,
    ensures
        apart(list.drop_last(), from, list.last().0 as int),
        from <= list.last().0 <= list.last().1.0 <= n,
    decreases list.len(),
{
    assert(apart(list.skip(1), list[0].1.0 as int, n));
    if list.len() > 1 {
        lemma_apart_but_the_last(list.skip(1), list[0].1.0 as int, n);
        assert(list.skip(1).drop_last() == list.drop_last().skip(1));
        assert(list.skip(1).last() == list.last());
    } else {
        assert(list.skip(1).len() == 0);
    }
}

proof fn lemma_last_piece_put_in(s: Seq<char>, list: Splices, from: int, a: usize, b: usize, t: Seq<char>)
    requires
        0 <= from,
        apart(list, from, a as int),
        a <= b <= s.len(),
    ensures
        interleaved(replaced_at(s, a as int, b as int, t), list, from) == interleaved(
            s,
            list.push((a, (b, t))),
            from,
        ),
    decreases list.len(),
{
    let next = replaced_at(s, a as int, b as int, t);
    let all = list.push((a, (b, t)));
    if list.len() == 0 {
        assert(all.skip(1).len() == 0);
        assert(all[0] == (a, (b, t)));
        assert(interleaved(s, all.skip(1), b as int) == text::slice(s, b as int, s.len() as int));
        assert(next.subrange(from, next.len() as int) == s.subrange(from, a as int) + t
            + s.subrange(b as int, s.len() as int));
    } else {
        assert(all.skip(1) == list.skip(1).push((a, (b, t))));
        assert(all[0] == list[0]);
        lemma_piece_bounds(list, from, a as int);
        lemma_last_piece_put_in(s, list.skip(1), list[0].1.0 as int, a, b, t);
        assert(next.subrange(from, list[0].0 as int) == s.subrange(from, list[0].0 as int));
    }
}

proof fn lemma_piece_bounds(list: Splices, from: int, n: int)
    requires
        apart(list, from, n),
        list.len() > 0,
    ensures
        list[0].1.0 <= n,
    decreases list.len(),
{
    assert(apart(list.skip(1), list[0].1.0 as int, n));
    if list.len() > 1 {
        lemma_piece_bounds(list.skip(1), list[0].1.0 as int, n);
        assert(list.skip(1)[0].0 <= list.skip(1)[0].1.0);
    } else {
        assert(list.skip(1).len() == 0);
    }
}

/// Pieces that stand one behind the other are put in where they belong, and what stands
/// between them stays.
pub proof fn law_pieces_are_put_in_place(s: Seq<char>, list: Splices)
    requires
        apart(list, 0, s.len() as int),
    ensures
        spliced(s, list) == interleaved(s, list, 0),
    decreases list.len(),
{
    if list.len() == 0 {
        assert(s.subrange(0, s.len() as int) == s);
    } else {
        let (a, (b, t)) = list.last();
        lemma_apart_but_the_last(list, 0, s.len() as int);
        let next = replaced_at(s, a as int, b as int, t);
        lemma_apart_up_to(list.drop_last(), 0, a as int, next.len() as int);
        law_pieces_are_put_in_place(next, list.drop_last());
        lemma_last_piece_put_in(s, list.drop_last(), 0, a, b, t);
        assert(list.drop_last().push((a, (b, t))) == list);
    }
}

proof fn lemma_apart_up_to(list: Splices, from: int, n: int, m: int)
    requires
        apart(list, from, n),
        n <= m,
    ensures
        apart(list, from, m),
    decreases list.len(),
{
    if list.len() > 0 {
        lemma_apart_up_to(list.skip(1), list[0].1.0 as int, n, m);
    }
}

/// Each piece that is put in stands in the text.
pub proof fn lemma_piece_stands(s: Seq<char>, list: Splices, from: int, k: int)
    requires
        0 <= k < list.len(),
    ensures
        exists|before: Seq<char>, behind: Seq<char>|
            interleaved(s, list, from) == #[trigger] (before + list[k].1.1 + behind),
    decreases list.len(),
{
    let head = text::slice(s, from, list[0].0 as int);
    let rest = interleaved(s, list.skip(1), list[0].1.0 as int);
    if k == 0 {
        assert(interleaved(s, list, from) == head + list[0].1.1 + rest);
    } else {
        lemma_piece_stands(s, list.skip(1), list[0].1.0 as int, k - 1);
        assert(list.skip(1)[k - 1] == list[k]);
        let (before, behind) = choose|before: Seq<char>, behind: Seq<char>|
            rest == #[trigger] (before + list[k].1.1 + behind);
        let more = head + list[0].1.1 + before;
        assert(interleaved(s, list, from) == more + list[k].1.1 + behind);
    }
}

/// Without pieces a text stays as it is.
pub proof fn law_nothing_to_splice(s: Seq<char>)
    ensures
        spliced_in_order(s, Seq::empty()) == s,
{
}

// ----- Elements -----

/// The text that a node stands for in its document.
pub open spec fn source(s: Seq<char>, n: NodeModel) -> Seq<char> {
    text::slice(s, n.start as int, n.end as int)
}

pub fn source_of(s: &str, n: &XmlNode) -> (r: String)
    ensures
        r@ == source(s@, n.deep_view()),
{
    text::slice_of(s, n.start, n.end)
}

/// The start tag of an element, and what follows it.
pub open spec fn tag_cut(whole: Seq<char>) -> Option<(Seq<char>, Seq<char>)> {
    match text::find(whole, ">"@) {
        Some(i) => Some(
            (text::slice(whole, 0, i + 1), text::slice(whole, i + 1, whole.len() as int)),
        ),
        None => None,
    }
}

pub fn cut_tag(whole: &str) -> (r: Option<(String, String)>)
    ensures
        r.deep_view() == tag_cut(whole@),
{
    let all = text::chars_of(whole);
    match text::find_text(whole, ">") {
        Some(i) => {
            proof {
                reveal_strlit(">");
                text::lemma_find_bounds(whole@, ">"@, 0);
            }
            assert(i < all.len());
            Some((text::piece(&all, 0, i + 1), text::piece(&all, i + 1, all.len())))
        },
        None => None,
    }
}

/// The text of an element from its last end tag on.
pub open spec fn end_tag(whole: Seq<char>) -> Option<Seq<char>> {
    match text::rfind(whole, "</"@) {
        Some(i) => Some(text::slice(whole, i, whole.len() as int)),
        None => None,
    }
}

pub fn end_tag_of(whole: &str) -> (r: Option<String>)
    ensures
        r.deep_view() == end_tag(whole@),
{
    match text::rfind_text(whole, "</") {
        Some(i) => Some(text::slice_of(whole, i, text::length(whole))),
        None => None,
    }
}

/// An element with other content between its tags; `None` where it has no two tags.
pub open spec fn refilled(whole: Seq<char>, content: Seq<char>) -> Option<Seq<char>> {
    match (tag_cut(whole), end_tag(whole)) {
        (Some(cut), Some(end)) => Some(cut.0 + content + end),
        _ => None,
    }
}

pub fn refill(whole: &str, content: &str) -> (r: Option<String>)
    ensures
        r.deep_view() == refilled(whole@, content@),
{
    match cut_tag(whole) {
        Some(cut) => match end_tag_of(whole) {
            Some(end) => {
                let mut out = cut.0;
                out.append(content);
                out.append(&end);
                Some(out)
            },
            None => None,
        },
        None => None,
    }
}

/// The piece that gives a node other content, where it has two tags.
pub open spec fn refill_piece(s: Seq<char>, n: NodeModel, content: Seq<char>) -> Splices {
    match refilled(source(s, n), content) {
        Some(t) => seq![(n.start, (n.end, t))],
        None => Seq::empty(),
    }
}

pub fn add_refill(
    list: &mut Vec<(usize, (usize, String))>,
    s: &str,
    n: &XmlNode,
    content: &str,
)
    ensures
        final(list).deep_view() == old(list).deep_view() + refill_piece(
            s@,
            n.deep_view(),
            content@,
        ),
{
    let ghost before = list.deep_view();
    match refill(&source_of(s, n), content) {
        Some(t) => {
            list.push((n.start, (n.end, t)));
            assert(list.deep_view() == before.push((n.start, (n.end, t@))));
            assert(before.push((n.start, (n.end, t@))) == before + seq![(n.start, (n.end, t@))]);
        },
        None => {
            assert(before + Splices::empty() == before);
        },
    }
}

/// The piece that gives a node a text as its content.
pub fn replace_node_text(
    s: &str,
    n: &XmlNode,
    value: &str,
    list: &mut Vec<(usize, (usize, String))>,
)
    ensures
        final(list).deep_view() == old(list).deep_view() + refill_piece(
            s@,
            n.deep_view(),
            xml::escaped(value@),
        ),
{
    add_refill(list, s, n, &xml::xml_escape(value))
}

// ----- Tags -----

/// The pattern of an attribute with the space before it.
pub open spec fn attr_pattern(name: Seq<char>) -> Seq<char> {
    r"\s+"@ + pattern::escaped(name) + "=\"[^\"]*\""@
}

fn attr_pattern_of(name: &str) -> (r: String)
    ensures
        r@ == attr_pattern(name@),
{
    let mut out = r"\s+".to_owned();
    out.append(&pattern::escape(name));
    out.append("=\"[^\"]*\"");
    out
}

/// A tag that holds nothing, without what closes it.
pub open spec fn tag_body(tag: Seq<char>) -> Seq<char> {
    text::trim_end(text::drop_trailing(text::trim_end(tag), "/>"@))
}

fn tag_body_of(tag: &str) -> (r: String)
    ensures
        r@ == tag_body(tag@),
{
    text::trimmed_end(&text::without_trailing(&text::trimmed_end(tag), "/>"))
}

pub open spec fn closes_itself(tag: Seq<char>) -> bool {
    text::ends(text::trim_end(tag), "/>"@)
}

fn is_self_closing(tag: &str) -> (r: bool)
    ensures
        r == closes_itself(tag@),
{
    text::ends_with(&text::trimmed_end(tag), "/>")
}

/// A start tag with an attribute set, behind those that it keeps.
pub open spec fn with_attr(tag: Seq<char>, name: Seq<char>, value: Seq<char>) -> Seq<char> {
    let bare = pattern::substituted(attr_pattern(name), tag, ""@);
    if closes_itself(bare) {
        tag_body(bare) + " "@ + name + "=\""@ + xml::escaped(value) + "\" />"@
    } else {
        text::trim_end(text::drop_trailing(bare, ">"@)) + " "@ + name + "=\""@ + xml::escaped(value)
            + "\">"@
    }
}

pub fn with_xml_attr(start_tag: &str, name: &str, value: &str) -> (r: String)
    ensures
        r@ == with_attr(start_tag@, name@, value@),
{
    let bare = pattern::substitute(&attr_pattern_of(name), start_tag, "");
    let closed = is_self_closing(&bare);
    let mut out = if closed {
        tag_body_of(&bare)
    } else {
        text::trimmed_end(&text::without_trailing(&bare, ">"))
    };
    out.append(" ");
    out.append(name);
    out.append("=\"");
    out.append(&xml::xml_escape(value));
    if closed {
        out.append("\" />");
    } else {
        out.append("\">");
    }
    out
}

/// A start tag without an attribute.
pub open spec fn without_attr(tag: Seq<char>, name: Seq<char>) -> Seq<char> {
    let bare = pattern::substituted(attr_pattern(name), tag, ""@);
    if closes_itself(bare) {
        tag_body(bare) + " />"@
    } else {
        bare
    }
}

pub fn without_xml_attr(start_tag: &str, name: &str) -> (r: String)
    ensures
        r@ == without_attr(start_tag@, name@),
{
    let bare = pattern::substitute(&attr_pattern_of(name), start_tag, "");
    if is_self_closing(&bare) {
        let mut out = tag_body_of(&bare);
        out.append(" />");
        out
    } else {
        bare
    }
}

/// Whether the pattern of an attribute takes that attribute out of a tag, and no other.
pub open spec fn taken_out(tag: Seq<char>, name: Seq<char>) -> bool {
    let bare = pattern::substituted(attr_pattern(name), tag, ""@);
    &&& xml::is_start_tag(bare)
    &&& xml::tag_name(bare) == xml::tag_name(tag)
    &&& forall|n: Seq<char>| #[trigger]
        xml::tag_attr(bare, n) == if n == name {
            None
        } else {
            xml::tag_attr(tag, n)
        }
}

/// What is left of a tag without what closes it.
proof fn lemma_tag_taken_apart(t: Seq<char>, name: Seq<char>, inside: Seq<char>, closed: bool)
    requires
        xml::is_tag_of(t, name, inside, closed),
    ensures
        closes_itself(t) == closed,
        closed ==> tag_body(t) == "<"@ + name + text::trim_end(inside),
        !closed ==> text::trim_end(text::drop_trailing(t, ">"@)) == "<"@ + name + text::trim_end(
            inside,
        ),
        !closed ==> text::drop_trailing(t, ">"@) == "<"@ + name + inside,
{
    reveal_strlit("<");
    reveal_strlit("/>");
    reveal_strlit(">");
    let head = "<"@ + name;
    let body = head + inside;
    let end = if closed {
        "/>"@
    } else {
        ">"@
    };
    assert(!xml::ends_name(name[name.len() - 1]));
    assert(head[head.len() - 1] == name[name.len() - 1]);
    text::lemma_trim_end_of_more(head, inside);
    if inside.len() > 0 {
        xml::lemma_attrs_end(inside);
        assert(body[body.len() - 1] == inside[inside.len() - 1]);
    }
    assert(body[body.len() - 1] != '>' && body[body.len() - 1] != '/');
    assert(t == body + end);
    assert(t[t.len() - 1] == '>');
    assert(text::trim_end(t) == t);
    assert(t.take(t.len() - end.len()) == body);
    assert(t.subrange(t.len() - end.len(), t.len() as int) == end);
    assert(text::ends(t, end));
    assert(!text::ends(body, ">"@)) by {
        assert(body.subrange(body.len() - 1, body.len() as int)[0] == body[body.len() - 1]);
    }
    assert(!text::ends(body, "/>"@)) by {
        if body.len() >= 2 {
            assert(body.subrange(body.len() - 2, body.len() as int)[1] == body[body.len() - 1]);
        }
    }
    assert(text::drop_trailing(body, end) == body);
    assert(text::drop_trailing(t, end) == body);
    if !closed {
        assert(!text::ends(t, "/>"@)) by {
            assert(t.subrange(t.len() - 2, t.len() as int)[0] == t[t.len() - 2]);
            assert(t[t.len() - 2] == body[body.len() - 1]);
        }
    }
}

/// The inside of a tag with an attribute behind those that it has.
proof fn lemma_one_more_attr(kept: Seq<char>, name: Seq<char>, value: Seq<char>, rest: Seq<char>)
    requires
        xml::plain_name(name),
        xml::only_attrs(kept),
        kept.len() == 0 || text::is_white(kept[0]),
        rest == " "@ || rest == Seq::<char>::empty(),
    ensures
        ({
            let all = kept + (" "@ + name + "=\""@ + xml::escaped(value) + "\""@ + rest);
            &&& xml::only_attrs(all)
            &&& text::is_white(all[0])
            &&& xml::attrs_in(all) == xml::attrs_in(kept).push((name, value))
        }),
{
    let more = " "@ + name + "=\""@ + xml::escaped(value) + "\""@ + rest;
    let none = Seq::<(Seq<char>, Seq<char>)>::empty();
    reveal_strlit(" ");
    xml::lemma_written_attr(name, value, rest);
    assert(xml::attrs_in(rest) == none && xml::only_attrs(rest)) by {
        if rest.len() > 0 {
            assert(rest == seq![' '] + Seq::<char>::empty());
            xml::lemma_white_first(' ', Seq::empty());
        }
    }
    xml::lemma_more_attrs(kept, more);
    let all = kept + more;
    assert(more[0] == ' ');
    assert(all[0] == if kept.len() > 0 {
        kept[0]
    } else {
        more[0]
    });
    assert(xml::attrs_in(more) == seq![(name, value)]);
    assert(xml::attrs_in(kept) + seq![(name, value)] == xml::attrs_in(kept).push((name, value)));
}

/// What a tag without an attribute is with the attribute at its end.
#[verifier::rlimit(40)]
#[verifier::spinoff_prover]
proof fn lemma_attr_at_the_end(
    bare: Seq<char>,
    kind: Seq<char>,
    inside: Seq<char>,
    closed: bool,
    name: Seq<char>,
    value: Seq<char>,
)
    requires
        xml::is_tag_of(bare, kind, inside, closed),
        xml::plain_name(name),
    ensures
        ({
            let out = if closes_itself(bare) {
                tag_body(bare) + " "@ + name + "=\""@ + xml::escaped(value) + "\" />"@
            } else {
                text::trim_end(text::drop_trailing(bare, ">"@)) + " "@ + name + "=\""@
                    + xml::escaped(value) + "\">"@
            };
            &&& xml::is_start_tag(out)
            &&& xml::tag_name(out) == kind
            &&& xml::tag_attrs(out) == xml::attrs_in(inside).push((name, value))
        }),
{
    lemma_tag_taken_apart(bare, kind, inside, closed);
    xml::lemma_trimmed_attrs(inside);
    let kept = text::trim_end(inside);
    let rest = if closed {
        " "@
    } else {
        Seq::empty()
    };
    lemma_one_more_attr(kept, name, value, rest);
    let written = " "@ + name + "=\""@ + xml::escaped(value);
    let all = kept + (" "@ + name + "=\""@ + xml::escaped(value) + "\""@ + rest);
    let head = "<"@ + kind + kept;
    assert("\" />"@ == "\""@ + " "@ + "/>"@ && "\">"@ == "\""@ + ">"@) by {
        reveal_strlit("\" />");
        reveal_strlit("\">");
        reveal_strlit("\"");
        reveal_strlit(" ");
        reveal_strlit("/>");
        reveal_strlit(">");
    }
    let out = if closed {
        head + " "@ + name + "=\""@ + xml::escaped(value) + "\" />"@
    } else {
        head + " "@ + name + "=\""@ + xml::escaped(value) + "\">"@
    };
    if closed {
        assert(out =~= "<"@ + kind + all + "/>"@);
    } else {
        assert(out =~= "<"@ + kind + all + ">"@);
    }
    assert(xml::is_tag_of(out, kind, all, closed));
    xml::lemma_tag_of(out, kind, all, closed);
}

proof fn lemma_put_behind(
    head: Seq<char>,
    inside: Seq<char>,
    lit: Seq<char>,
    value: Seq<char>,
    end: Seq<char>,
)
    ensures
        head + inside + lit + value + ("\""@ + end) == head + (inside + (lit + value + "\""@
            + Seq::empty())) + end,
{
}

proof fn lemma_open_part(bare: Seq<char>, kind: Seq<char>, inside: Seq<char>)
    requires
        xml::is_tag_of(bare, kind, inside, false),
    ensures
        text::drop_trailing(bare, ">"@) == "<"@ + kind + inside,
        xml::plain_name(kind),
        xml::only_attrs(inside),
        inside.len() == 0 || text::is_white(inside[0]),
{
    lemma_tag_taken_apart(bare, kind, inside, false);
}

proof fn lemma_open_tag(kind: Seq<char>, all: Seq<char>)
    requires
        xml::plain_name(kind),
        xml::only_attrs(all),
        text::is_white(all[0]),
        all.len() > 0,
    ensures
        xml::is_start_tag("<"@ + kind + all + ">"@),
        xml::tag_name("<"@ + kind + all + ">"@) == kind,
        xml::tag_attrs("<"@ + kind + all + ">"@) == xml::attrs_in(all),
{
    let out = "<"@ + kind + all + ">"@;
    assert(xml::is_tag_of(out, kind, all, false));
    xml::lemma_tag_of(out, kind, all, false);
}

/// What an open tag is with an attribute of plain text right behind what it holds.
pub proof fn lemma_attr_right_behind(
    bare: Seq<char>,
    kind: Seq<char>,
    inside: Seq<char>,
    name: Seq<char>,
    value: Seq<char>,
)
    requires
        xml::is_tag_of(bare, kind, inside, false),
        xml::plain_name(name),
        xml::escaped(value) == value,
    ensures
        ({
            let out = text::drop_trailing(bare, ">"@) + (" "@ + name + "=\""@) + value + ("\""@
                + ">"@);
            &&& xml::is_start_tag(out)
            &&& xml::tag_name(out) == kind
            &&& xml::tag_attrs(out) == xml::attrs_in(inside).push((name, value))
        }),
{
    lemma_open_part(bare, kind, inside);
    let none = Seq::<char>::empty();
    lemma_one_more_attr(inside, name, value, none);
    let all = inside + (" "@ + name + "=\""@ + value + "\""@ + none);
    lemma_put_behind("<"@ + kind, inside, " "@ + name + "=\""@, value, ">"@);
    assert(all.len() > 0) by {
        reveal_strlit(" ");
    }
    lemma_open_tag(kind, all);
}

/// An attribute that is set in a tag reads as its value, and all other attributes read as
/// before.
pub proof fn law_set_attributes_read_back(tag: Seq<char>, name: Seq<char>, value: Seq<char>)
    requires
        taken_out(tag, name),
        xml::plain_name(name),
    ensures
        xml::is_start_tag(with_attr(tag, name, value)),
        xml::tag_name(with_attr(tag, name, value)) == xml::tag_name(tag),
        forall|n: Seq<char>| #[trigger]
            xml::tag_attr(with_attr(tag, name, value), n) == if n == name {
                Some(value)
            } else {
                xml::tag_attr(tag, n)
            },
{
    let bare = pattern::substituted(attr_pattern(name), tag, ""@);
    let (kind, inside, closed) = choose|kind: Seq<char>, inside: Seq<char>, closed: bool|
        xml::is_tag_of(bare, kind, inside, closed);
    xml::lemma_tag_of(bare, kind, inside, closed);
    lemma_attr_at_the_end(bare, kind, inside, closed, name, value);
    let out = with_attr(tag, name, value);
    let list = xml::attrs_in(inside);
    assert(list.push((name, value)).drop_last() == list);
    assert forall|n: Seq<char>| #[trigger] xml::tag_attr(out, n) == if n == name {
        Some(value)
    } else {
        xml::tag_attr(tag, n)
    } by {
        assert(xml::tag_attr(bare, n) == entries::get(list, n));
        entries::lemma_place(list, n);
        entries::lemma_place(list.push((name, value)), n);
    }
}

proof fn lemma_closed_again(bare: Seq<char>, kind: Seq<char>, inside: Seq<char>)
    requires
        xml::is_tag_of(bare, kind, inside, true),
    ensures
        xml::is_start_tag(tag_body(bare) + " />"@),
        xml::tag_name(tag_body(bare) + " />"@) == kind,
        xml::tag_attrs(tag_body(bare) + " />"@) == xml::attrs_in(inside),
{
    lemma_tag_taken_apart(bare, kind, inside, true);
    xml::lemma_trimmed_attrs(inside);
    let kept = text::trim_end(inside);
    let all = kept + seq![' '];
    assert(" />"@ == seq![' '] + "/>"@) by {
        reveal_strlit(" />");
        reveal_strlit("/>");
    }
    assert(seq![' '] == seq![' '] + Seq::<char>::empty());
    xml::lemma_white_first(' ', Seq::empty());
    xml::lemma_more_attrs(kept, seq![' ']);
    assert(all[0] == (if kept.len() > 0 {
        kept[0]
    } else {
        ' '
    }));
    let out = tag_body(bare) + " />"@;
    assert(out =~= "<"@ + kind + all + "/>"@);
    assert(xml::is_tag_of(out, kind, all, true));
    xml::lemma_tag_of(out, kind, all, true);
}

/// An attribute that is taken out of a tag is gone, and all other attributes read as before.
pub proof fn law_removed_attributes_are_gone(tag: Seq<char>, name: Seq<char>)
    requires
        taken_out(tag, name),
    ensures
        xml::is_start_tag(without_attr(tag, name)),
        xml::tag_name(without_attr(tag, name)) == xml::tag_name(tag),
        forall|n: Seq<char>| #[trigger]
            xml::tag_attr(without_attr(tag, name), n) == if n == name {
                None
            } else {
                xml::tag_attr(tag, n)
            },
{
    let bare = pattern::substituted(attr_pattern(name), tag, ""@);
    let (kind, inside, closed) = choose|kind: Seq<char>, inside: Seq<char>, closed: bool|
        xml::is_tag_of(bare, kind, inside, closed);
    lemma_tag_taken_apart(bare, kind, inside, closed);
    xml::lemma_tag_of(bare, kind, inside, closed);
    if closed {
        lemma_closed_again(bare, kind, inside);
    }
    assert forall|n: Seq<char>| #[trigger]
        xml::tag_attr(without_attr(tag, name), n) == if n == name {
            None
        } else {
            xml::tag_attr(tag, n)
        } by {
        assert(xml::tag_attr(bare, n) == if n == name {
            None
        } else {
            xml::tag_attr(tag, n)
        });
    }
}

/// A start tag that leaves its element open.
pub open spec fn opened(tag: Seq<char>) -> Seq<char> {
    if closes_itself(tag) {
        tag_body(tag) + ">"@
    } else {
        tag
    }
}

pub fn normalize_open_tag(start_tag: &str) -> (r: String)
    ensures
        r@ == opened(start_tag@),
{
    if is_self_closing(start_tag) {
        let mut out = tag_body_of(start_tag);
        out.append(">");
        out
    } else {
        start_tag.to_owned()
    }
}

/// The prefix of an element's name, with its colon.
pub open spec fn tag_prefix(tag: Seq<char>, name: Seq<char>) -> Seq<char> {
    match pattern::first_match(
        "^<([A-Za-z0-9_]+:)?"@ + pattern::escaped(name) + r"\b"@,
        tag,
    ) {
        Some(groups) => pattern::group_text(groups, 1),
        None => Seq::empty(),
    }
}

pub fn element_tag_prefix(start_tag: &str, local_name: &str) -> (r: String)
    ensures
        r@ == tag_prefix(start_tag@, local_name@),
{
    let mut p = "^<([A-Za-z0-9_]+:)?".to_owned();
    p.append(&pattern::escape(local_name));
    p.append(r"\b");
    match pattern::find_first(&p, start_tag) {
        Some(groups) => pattern::group_text_of(&groups, 1),
        None => String::new(),
    }
}

/// The prefix that the element of a node has; none where the node has no start tag.
pub open spec fn node_prefix(s: Seq<char>, n: NodeModel, name: Seq<char>) -> Seq<char> {
    match tag_cut(source(s, n)) {
        Some(cut) => tag_prefix(cut.0, name),
        None => Seq::empty(),
    }
}

pub fn prefix_of_node(s: &str, n: &XmlNode, name: &str) -> (r: String)
    ensures
        r@ == node_prefix(s@, n.deep_view(), name@),
{
    match cut_tag(&source_of(s, n)) {
        Some(cut) => element_tag_prefix(&cut.0, name),
        None => String::new(),
    }
}

/// Where the end tag of a node begins.
pub open spec fn closing_start(s: Seq<char>, n: NodeModel, name: Seq<char>) -> Option<int> {
    match pattern::last_start(
        "</(?:[A-Za-z0-9_]+:)?"@ + pattern::escaped(name) + r"\s*>"@,
        source(s, n),
    ) {
        Some(i) => Some(n.start + i),
        None => None,
    }
}

pub fn closing_tag_start(s: &str, n: &XmlNode, local_name: &str) -> (r: Option<usize>)
    ensures
        text::pos(r) == closing_start(s@, n.deep_view(), local_name@),
{
    let mut p = "</(?:[A-Za-z0-9_]+:)?".to_owned();
    p.append(&pattern::escape(local_name));
    p.append(r"\s*>");
    match pattern::start_of_last(&p, &source_of(s, n)) {
        Some(i) => Some(n.start + i),
        None => None,
    }
}

} // verus!
