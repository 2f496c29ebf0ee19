//! What the parts of a package say once they are patched.

use crate::coord;
use crate::eval;
use crate::eval::{Arith, CtxModel, Outcome};
use crate::meaning;
use crate::numbers;
use crate::objects::TableModel;
use crate::package;
use crate::partxml;
use crate::pattern;
use crate::ranges;
use crate::records::{DefinedName, HighRiskObject};
use crate::sheetxml;
use crate::splice;
use crate::text;
use crate::xml;
use crate::xml::{NodeModel, Nodes};
use vstd::prelude::*;
use vstd::string::*;

verus! {

// ----- Elements with other content -----

/// Whether a text is an element that holds text alone: its tag, the text and its end.
pub open spec fn is_element_of(
    whole: Seq<char>,
    t: Seq<char>,
    inner: Seq<char>,
    end: Seq<char>,
) -> bool {
    &&& whole == t + inner + end
    &&& xml::is_tag(t)
    &&& forall|j: int| 0 <= j < inner.len() ==> #[trigger] inner[j] != '<'
    &&& end.len() >= 2 && end[0] == '<' && end[1] == '/'
    &&& forall|j: int| 1 <= j < end.len() ==> #[trigger] end[j] != '<'
}

pub open spec fn plain_element(whole: Seq<char>) -> bool {
    exists|t: Seq<char>, inner: Seq<char>, end: Seq<char>| is_element_of(whole, t, inner, end)
}

/// The name of the first element of a text.
pub open spec fn element_name(whole: Seq<char>) -> Seq<char> {
    xml::tag_name(xml::tags(whole)[0])
}

proof fn lemma_first_end(whole: Seq<char>, t: Seq<char>, i: int)
    requires
        xml::is_tag(t),
        t.len() <= whole.len(),
        whole.take(t.len() as int) == t,
        0 <= i <= t.len() - 1,
    ensures
        text::find_from(whole, ">"@, i) == Some(t.len() - 1),
    decreases t.len() - i,
{
    reveal_strlit(">");
    let n = t.len() - 1;
    assert(whole[i] == t[i]);
    assert(whole.subrange(i, i + 1)[0] == whole[i]);
    if i < n {
        assert(t[i] != '>');
        lemma_first_end(whole, t, i + 1);
    } else {
        assert(whole.subrange(i, i + 1) == ">"@);
    }
}

proof fn lemma_last_end(whole: Seq<char>, at: int, i: int)
    requires
        0 <= at <= i <= whole.len() - 2,
        whole[at] == '<' && whole[at + 1] == '/',
        forall|j: int| at < j < whole.len() ==> #[trigger] whole[j] != '<',
    ensures
        text::rfind_from(whole, "</"@, i) == Some(at),
    decreases i - at,
{
    reveal_strlit("</");
    assert(whole.subrange(i, i + 2)[0] == whole[i]);
    if i > at {
        lemma_last_end(whole, at, i - 1);
    } else {
        assert(whole.subrange(at, at + 2) =~= "</"@);
    }
}

proof fn lemma_refilled(
    whole: Seq<char>,
    t: Seq<char>,
    inner: Seq<char>,
    end: Seq<char>,
    content: Seq<char>,
)
    requires
        is_element_of(whole, t, inner, end),
    ensures
        splice::refilled(whole, content) == Some(t + content + end),
{
    reveal_strlit("</");
    assert(whole.take(t.len() as int) == t);
    lemma_first_end(whole, t, 0);
    assert(text::slice(whole, 0, t.len() as int) == t);
    let at = (t + inner).len() as int;
    assert(whole[at] == end[0] && whole[at + 1] == end[1]);
    assert forall|j: int| at < j < whole.len() implies #[trigger] whole[j] != '<' by {
        assert(whole[j] == end[j - at]);
    }
    lemma_last_end(whole, at, whole.len() - 2);
    assert(whole.subrange(at, whole.len() as int) == end);
}

/// An element that is given other text keeps its tag and holds the given text.
pub proof fn law_refilled_elements_hold_the_text(whole: Seq<char>, v: Seq<char>)
    requires
        plain_element(whole),
    ensures
        splice::refilled(whole, xml::escaped(v)) matches Some(out) && xml::element_text(
            out,
            element_name(whole),
        ) == Some(v) && xml::tags(out)[0] == xml::tags(whole)[0],
{
    let (t, inner, end) = choose|t: Seq<char>, inner: Seq<char>, end: Seq<char>|
        is_element_of(whole, t, inner, end);
    lemma_refilled(whole, t, inner, end, xml::escaped(v));
    assert(whole == t + (inner + end));
    xml::lemma_first_tag(t, inner + end);
    let out = t + xml::escaped(v) + end;
    assert(out == t + (xml::escaped(v) + end));
    xml::lemma_first_tag(t, xml::escaped(v) + end);
    xml::lemma_marked(t, v, end, xml::tag_name(t));
}

/// Whether a piece gives an element of a document the given text.
pub open spec fn piece_says(
    p: (usize, (usize, Seq<char>)),
    s: Seq<char>,
    n: NodeModel,
    v: Seq<char>,
) -> bool {
    &&& p.0 == n.start
    &&& p.1.0 == n.end
    &&& xml::element_text(p.1.1, element_name(splice::source(s, n))) == Some(v)
}

proof fn lemma_piece(s: Seq<char>, n: NodeModel, v: Seq<char>)
    requires
        plain_element(splice::source(s, n)),
    ensures
        splice::refill_piece(s, n, xml::escaped(v)).len() == 1,
        piece_says(splice::refill_piece(s, n, xml::escaped(v))[0], s, n, v),
{
    law_refilled_elements_hold_the_text(splice::source(s, n), v);
}

/// The markers of an anchor are given the row and the column of the drawing, both counted from
/// zero.
pub proof fn law_anchors_tell_their_cell(
    s: Seq<char>,
    nodes: Nodes,
    i: int,
    marker: Seq<char>,
    row: usize,
    col: usize,
    k: int,
    a: int,
    b: int,
)
    requires
        row > 0,
        col > 0,
        xml::child(nodes, i, marker) == Some(k),
        xml::child(nodes, k, "col"@) == Some(a),
        xml::child(nodes, k, "row"@) == Some(b),
        plain_element(splice::source(s, nodes[a])),
        plain_element(splice::source(s, nodes[b])),
    ensures
        ({
            let found = partxml::anchor_pieces(s, nodes, i, marker, Some(row), Some(col));
            &&& found.len() == 2
            &&& piece_says(found[0], s, nodes[a], text::decimal((col - 1) as nat))
            &&& piece_says(found[1], s, nodes[b], text::decimal((row - 1) as nat))
        }),
{
    let c = text::decimal((col - 1) as nat);
    let r = text::decimal((row - 1) as nat);
    coord::lemma_decimal_plain((col - 1) as nat);
    coord::lemma_decimal_plain((row - 1) as nat);
    xml::lemma_digits_are_plain(c);
    xml::lemma_digits_are_plain(r);
    lemma_piece(s, nodes[a], c);
    lemma_piece(s, nodes[b], r);
}

/// The text of a drawing, the title and the range of a chart are given to the element that
/// holds them.
pub proof fn law_contents_are_given_to_their_element(
    s: Seq<char>,
    nodes: Nodes,
    i: int,
    v: Seq<char>,
    k: int,
)
    requires
        plain_element(splice::source(s, nodes[k])),
    ensures
        xml::first_of(xml::named_in(nodes, i, "t"@)) == Some(k) ==> ({
            let found = partxml::shape_text_piece(s, nodes, i, Some(v));
            found.len() == 1 && piece_says(found[0], s, nodes[k], v)
        }),
        xml::first_of(xml::named(nodes, "title"@)) == Some(i) && xml::first_of(
            xml::named_in(nodes, i, "t"@),
        ) == Some(k) ==> (partxml::chart_title_pieces(s, nodes, Some(v)) matches Ok(found)
            && found.len() == 1 && piece_says(found[0], s, nodes[k], v)),
        xml::first_of(xml::named(nodes, "f"@)) == Some(k) ==> (partxml::chart_range_pieces(
            s,
            nodes,
            Some(v),
        ) matches Ok(found) && found.len() == 1 && piece_says(found[0], s, nodes[k], v)),
{
    lemma_piece(s, nodes[k], v);
}

/// The defined names of a workbook are given what they stand for, each in its place.
pub proof fn law_names_are_given_their_target(
    s: Seq<char>,
    nodes: Nodes,
    list: Seq<int>,
    names: Seq<DefinedName<Seq<char>>>,
    n: int,
)
    requires
        0 <= n <= names.len(),
        n <= list.len(),
        forall|i: int|
            0 <= i < n ==> plain_element(splice::source(s, nodes[#[trigger] list[i]])),
    ensures
        partxml::name_pieces(s, nodes, list, names, n).len() == n,
        forall|i: int|
            0 <= i < n ==> piece_says(
                #[trigger] partxml::name_pieces(s, nodes, list, names, n)[i],
                s,
                nodes[list[i]],
                names[i].target,
            ),
    decreases n,
{
    if n > 0 {
        law_names_are_given_their_target(s, nodes, list, names, n - 1);
        assert(plain_element(splice::source(s, nodes[list[n - 1]])));
        lemma_piece(s, nodes[list[n - 1]], names[n - 1].target);
        let done = partxml::name_pieces(s, nodes, list, names, n - 1);
        let all = partxml::name_pieces(s, nodes, list, names, n);
        assert forall|i: int| 0 <= i < n implies piece_says(
            #[trigger] all[i],
            s,
            nodes[list[i]],
            names[i].target,
        ) by {
            if i < n - 1 {
                assert(all[i] == done[i]);
            }
        }
    }
}

// ----- Tags with other attributes -----

/// A cell that is moved is named by its new place, and says otherwise what it said.
pub proof fn law_moved_cells_are_named_by_their_place(
    tag: Seq<char>,
    rest: Seq<char>,
    name: Seq<char>,
)
    requires
        xml::is_tag(tag),
        splice::taken_out(tag, "r"@),
    ensures
        exists|t: Seq<char>|
            sheetxml::renamed_cell(tag + rest, name) == #[trigger] (t + rest) && xml::tag_attr(
                t,
                "r"@,
            ) == Some(name) && xml::tag_name(t) == xml::tag_name(tag) && forall|n: Seq<char>|
                n != "r"@ ==> #[trigger] xml::tag_attr(t, n) == xml::tag_attr(tag, n),
{
    let whole = tag + rest;
    assert(whole.take(tag.len() as int) == tag);
    lemma_first_end(whole, tag, 0);
    assert(text::slice(whole, 0, tag.len() as int) == tag);
    assert(text::slice(whole, tag.len() as int, whole.len() as int) == rest);
    reveal_strlit("r");
    splice::law_set_attributes_read_back(tag, "r"@, name);
    let t = splice::with_attr(tag, "r"@, name);
    assert(sheetxml::renamed_cell(whole, name) == t + rest);
}

/// The document of a table names the range of the table, and says otherwise what it said.
pub proof fn law_table_documents_name_their_range(
    s: Seq<char>,
    t: TableModel,
    nodes: Nodes,
    i: int,
    tag: Seq<char>,
    rest: Seq<char>,
)
    requires
        package::nodes_of(s) == package::Fallible::<Nodes>::Ok(nodes),
        xml::first_of(xml::named(nodes, "table"@)) == Some(i),
        splice::source(s, nodes[i]) == tag + rest,
        xml::is_tag(tag),
        splice::taken_out(tag, "ref"@),
    ensures
        sheetxml::table_patched(s, t) matches Ok(out) && exists|u: Seq<char>|
            out == text::slice(s, 0, nodes[i].start as int) + u + text::slice(
                s,
                nodes[i].start + tag.len(),
                s.len() as int,
            ) && #[trigger] xml::tag_attr(u, "ref"@) == Some(
                coord::a1_text(t.start_row, t.start_col) + ":"@ + coord::a1_text(
                    t.end_row,
                    t.end_col,
                ),
            ) && forall|n: Seq<char>|
                n != "ref"@ ==> #[trigger] xml::tag_attr(u, n) == xml::tag_attr(tag, n),
{
    let whole = tag + rest;
    assert(whole.take(tag.len() as int) == tag);
    lemma_first_end(whole, tag, 0);
    assert(text::slice(whole, 0, tag.len() as int) == tag);
    reveal_strlit("ref");
    let range = coord::a1_text(t.start_row, t.start_col) + ":"@ + coord::a1_text(
        t.end_row,
        t.end_col,
    );
    splice::law_set_attributes_read_back(tag, "ref"@, range);
    let u = splice::with_attr(tag, "ref"@, range);
    assert(xml::tag_attr(u, "ref"@) == Some(range));
}

/// The document of a pivot table tells its name and its caption.
pub proof fn law_pivot_documents_tell_name_and_caption(
    s: Seq<char>,
    o: HighRiskObject<Seq<char>>,
    nodes: Nodes,
    i: int,
    tag: Seq<char>,
    rest: Seq<char>,
)
    requires
        package::nodes_of(s) == package::Fallible::<Nodes>::Ok(nodes),
        xml::first_of(xml::named(nodes, "pivotTableDefinition"@)) == Some(i),
        splice::source(s, nodes[i]) == tag + rest,
        xml::is_tag(tag),
        splice::taken_out(tag, "name"@),
        splice::taken_out(splice::with_attr(tag, "name"@, o.name), "dataCaption"@),
    ensures
        partxml::pivot_patched(s, o) matches Ok(out) && exists|u: Seq<char>|
            out == text::slice(s, 0, nodes[i].start as int) + (u + rest) + text::slice(
                s,
                nodes[i].end as int,
                s.len() as int,
            ) && #[trigger] xml::tag_attr(u, "name"@) == Some(o.name) && xml::tag_attr(
                u,
                "dataCaption"@,
            ) == Some(o.pivot_data_caption),
{
    let whole = tag + rest;
    assert(whole.take(tag.len() as int) == tag);
    lemma_first_end(whole, tag, 0);
    assert(text::slice(whole, 0, tag.len() as int) == tag);
    assert(text::slice(whole, tag.len() as int, whole.len() as int) == rest);
    lemma_pivot_names();
    let named = splice::with_attr(tag, "name"@, o.name);
    splice::law_set_attributes_read_back(tag, "name"@, o.name);
    splice::law_set_attributes_read_back(named, "dataCaption"@, o.pivot_data_caption);
    let u = splice::with_attr(named, "dataCaption"@, o.pivot_data_caption);
    assert(xml::tag_attr(u, "name"@) == Some(o.name));
}

proof fn lemma_pivot_names()
    ensures
        xml::plain_name("name"@),
        xml::plain_name("dataCaption"@),
        "name"@ != "dataCaption"@,
{
    reveal_strlit("name");
    reveal_strlit("dataCaption");
    assert("name"@.len() == 4 && "dataCaption"@.len() == 11);
}

// ----- References in expressions -----

/// A reference in an expression stands for the number that its cell holds, and for zero where
/// the cell holds none.
pub proof fn law_references_stand_for_their_number(
    c: CtxModel,
    g: Seq<Option<Seq<char>>>,
    sheet: Option<Seq<char>>,
    row: usize,
    col: usize,
)
    requires
        meaning::match_names_sheet(g, sheet),
        meaning::match_reads_as(g.take(5), row, col, None),
        g.len() >= 5,
    ensures
        ({
            let v = ranges::value_at(
                c.cells,
                coord::key(
                    match sheet {
                        Some(name) => name,
                        None => c.sheet,
                    },
                    row,
                    col,
                ),
            );
            &&& numbers::is_number(v) ==> eval::ref_number(c, g) == eval::number_for(
                c,
                Arith::Format,
                seq![v],
            )
            &&& !numbers::is_number(v) ==> eval::ref_number(c, g) == Outcome::<
                Seq<char>,
                Seq<char>,
                Seq<Seq<char>>,
            >::Value("0"@)
        }),
{
    assert(pattern::group(g.take(5), 3) == pattern::group(g, 3));
    assert(pattern::group(g.take(5), 4) == pattern::group(g, 4));
}

/// References in an expression are replaced one by one, and the text between them stays.
pub proof fn law_references_are_replaced_one_by_one(
    c: CtxModel,
    a: Seq<(Seq<char>, Seq<Option<Seq<char>>>)>,
    before: Seq<char>,
    g: Seq<Option<Seq<char>>>,
    done: Seq<char>,
    n: Seq<char>,
)
    requires
        eval::refs_in_hits(c, a) == Outcome::<Seq<char>, Seq<char>, Seq<Seq<char>>>::Value(done),
        eval::ref_number(c, g) == Outcome::<Seq<char>, Seq<char>, Seq<Seq<char>>>::Value(n),
    ensures
        eval::refs_in_hits(c, a.push((before, g))) == Outcome::<
            Seq<char>,
            Seq<char>,
            Seq<Seq<char>>,
        >::Value(done + before + n),
{
    assert(a.push((before, g)).drop_last() == a);
}

} // verus!
