//! Writing drawings, charts, pivot tables, sparklines and comments into the parts
//! that hold them.

use crate::coord;
use crate::coord::{Key, ShadowError};
use crate::drawings;
use crate::entries;
use crate::package;
use crate::package::Fallible;
use crate::records::{CellComment, DefinedName, DrawingObject, HighRiskObject, SheetInfo};
use crate::sheetparts;
use crate::splice;
use crate::splice::Splices;
use crate::text;
use crate::xml;
use crate::xml::{Nodes, XmlNode};
use vstd::prelude::*;
use vstd::string::*;

verus! {

// ----- Drawings -----

/// A line counted from 1, counted from 0.
pub open spec fn from_zero(line: usize) -> nat {
    if line > 0 {
        (line - 1) as nat
    } else {
        0
    }
}

/// The piece that sets the number in a child of a marker.
pub open spec fn marker_piece(s: Seq<char>, nodes: Nodes, i: int, name: Seq<char>, line: Option<usize>) -> Splices {
    match line {
        None => Seq::empty(),
        Some(n) => match xml::child(nodes, i, name) {
            None => Seq::empty(),
            Some(k) => splice::refill_piece(s, nodes[k], text::decimal(from_zero(n))),
        },
    }
}

fn collect_child_text_replacement(
    s: &str,
    nodes: &Vec<XmlNode>,
    i: usize,
    name: &str,
    line: Option<usize>,
    list: &mut Vec<(usize, (usize, String))>,
)
    requires
        i < nodes.len(),
    ensures
        final(list).deep_view() == old(list).deep_view() + marker_piece(
            s@,
            nodes.deep_view(),
            i as int,
            name@,
            line,
        ),
{
    let ghost before = list.deep_view();
    assert(before + Splices::empty() == before);
    match line {
        Some(n) => match xml::child_named(nodes, i, name) {
            Some(k) => {
                assert(nodes.deep_view()[k as int] == nodes@[k as int].deep_view());
                let value = if n > 0 {
                    n - 1
                } else {
                    0
                };
                splice::add_refill(list, s, &nodes[k], &text::size_text(value));
            },
            None => {},
        },
        None => {},
    }
}

/// The pieces that set a marker of an anchor: the column, then the row.
pub open spec fn anchor_pieces(
    s: Seq<char>,
    nodes: Nodes,
    i: int,
    marker: Seq<char>,
    row: Option<usize>,
    col: Option<usize>,
) -> Splices {
    match xml::child(nodes, i, marker) {
        None => Seq::empty(),
        Some(k) => marker_piece(s, nodes, k, "col"@, col) + marker_piece(s, nodes, k, "row"@, row),
    }
}

fn collect_anchor_marker_replacements(
    s: &str,
    nodes: &Vec<XmlNode>,
    i: usize,
    marker: &str,
    row: Option<usize>,
    col: Option<usize>,
    list: &mut Vec<(usize, (usize, String))>,
)
    requires
        i < nodes.len(),
    ensures
        final(list).deep_view() == old(list).deep_view() + anchor_pieces(
            s@,
            nodes.deep_view(),
            i as int,
            marker@,
            row,
            col,
        ),
{
    let ghost before = list.deep_view();
    assert(before + Splices::empty() == before);
    match xml::child_named(nodes, i, marker) {
        Some(k) => {
            collect_child_text_replacement(s, nodes, k, "col", col, list);
            collect_child_text_replacement(s, nodes, k, "row", row, list);
            let ghost a = marker_piece(s@, nodes.deep_view(), k as int, "col"@, col);
            let ghost b = marker_piece(s@, nodes.deep_view(), k as int, "row"@, row);
            assert(before + a + b == before + (a + b));
        },
        None => {},
    }
}

/// The piece that sets the text of an anchored shape.
pub open spec fn shape_text_piece(s: Seq<char>, nodes: Nodes, i: int, value: Option<Seq<char>>) -> Splices {
    match value {
        None => Seq::empty(),
        Some(t) => match xml::first_of(xml::named_in(nodes, i, "t"@)) {
            None => Seq::empty(),
            Some(k) => splice::refill_piece(s, nodes[k], xml::escaped(t)),
        },
    }
}

fn collect_drawing_text_replacement(
    s: &str,
    nodes: &Vec<XmlNode>,
    i: usize,
    value: Option<&String>,
    list: &mut Vec<(usize, (usize, String))>,
)
    requires
        i < nodes.len(),
    ensures
        final(list).deep_view() == old(list).deep_view() + shape_text_piece(
            s@,
            nodes.deep_view(),
            i as int,
            value.deep_view(),
        ),
{
    let ghost before = list.deep_view();
    assert(before + Splices::empty() == before);
    match value {
        Some(t) => match xml::first_named_in(nodes, i, "t") {
            Some(k) => {
                assert(nodes.deep_view()[k as int] == nodes@[k as int].deep_view());
                splice::replace_node_text(s, &nodes[k], t, list);
            },
            None => {},
        },
        None => {},
    }
}

/// The first object from `i` on that a part's drawing has at the given anchor.
pub open spec fn object_at_anchor(
    drawings: Seq<DrawingObject<Seq<char>>>,
    path: Seq<char>,
    ordinal: int,
    i: int,
) -> Option<DrawingObject<Seq<char>>>
    decreases drawings.len() - i,
{
    if i < 0 || i >= drawings.len() {
        None
    } else if drawings[i].drawing_path == path && drawings[i].anchor_ordinal == ordinal {
        Some(drawings[i])
    } else {
        object_at_anchor(drawings, path, ordinal, i + 1)
    }
}

fn find_object_at_anchor<'a>(list: &'a Vec<DrawingObject>, path: &str, ordinal: usize) -> (r: Option<
    &'a DrawingObject,
>)
    ensures
        r.deep_view() == object_at_anchor(list.deep_view(), path@, ordinal as int, 0),
{
    let ghost all = list.deep_view();
    let mut i: usize = 0;
    while i < list.len()
        invariant
            i <= list.len(),
            all == list.deep_view(),
            object_at_anchor(all, path@, ordinal as int, 0) == object_at_anchor(
                all,
                path@,
                ordinal as int,
                i as int,
            ),
        decreases list.len() - i,
    {
        assert(all[i as int] == list@[i as int].deep_view());
        if text::same(&list[i].drawing_path, path) && list[i].anchor_ordinal == ordinal {
            return Some(&list[i]);
        }
        i = i + 1;
    }
    None
}

pub open spec fn anchored_pieces(
    s: Seq<char>,
    nodes: Nodes,
    i: int,
    d: DrawingObject<Seq<char>>,
    texts: Seq<(Seq<char>, Seq<char>)>,
) -> Splices {
    anchor_pieces(s, nodes, i, "from"@, d.from_row, d.from_col) + anchor_pieces(
        s,
        nodes,
        i,
        "to"@,
        d.to_row,
        d.to_col,
    ) + shape_text_piece(s, nodes, i, entries::get(texts, d.object_id))
}

/// The pieces for the first `n` anchors of a drawing.
pub open spec fn drawing_pieces(
    s: Seq<char>,
    nodes: Nodes,
    path: Seq<char>,
    drawings: Seq<DrawingObject<Seq<char>>>,
    texts: Seq<(Seq<char>, Seq<char>)>,
    n: int,
) -> Splices
    decreases n,
{
    if n <= 0 {
        Seq::empty()
    } else {
        let done = drawing_pieces(s, nodes, path, drawings, texts, n - 1);
        match object_at_anchor(drawings, path, n - 1, 0) {
            None => done,
            Some(d) => done + anchored_pieces(
                s,
                nodes,
                drawings::anchors(nodes, nodes.len() as int)[n - 1],
                d,
                texts,
            ),
        }
    }
}

/// A drawing's document with its objects where they are now and with their texts.
pub open spec fn drawing_patched(
    s: Seq<char>,
    path: Seq<char>,
    drawings: Seq<DrawingObject<Seq<char>>>,
    texts: Seq<(Seq<char>, Seq<char>)>,
) -> Fallible<Seq<char>> {
    match package::nodes_of(s) {
        Err(e) => Err(e),
        Ok(nodes) => Ok(
            splice::spliced_in_order(
                s,
                drawing_pieces(
                    s,
                    nodes,
                    path,
                    drawings,
                    texts,
                    drawings::anchors(nodes, nodes.len() as int).len() as int,
                ),
            ),
        ),
    }
}

pub fn patch_drawing_xml(
    s: &str,
    drawing_path: &str,
    drawing_objects: &Vec<DrawingObject>,
    drawing_text_updates: &Vec<(String, String)>,
) -> (r: Result<String, ShadowError>)
    ensures
        coord::outcome(r) == drawing_patched(
            s@,
            drawing_path@,
            drawing_objects.deep_view(),
            drawing_text_updates.deep_view(),
        ),
{
    let nodes = match package::read_nodes(s) {
        Ok(nodes) => nodes,
        Err(e) => return Err(e),
    };
    let ghost all = nodes.deep_view();
    assert(all.len() == nodes.len());
    let list = drawings::anchors_of(&nodes);
    let ghost model = drawings::anchors(all, all.len() as int);
    assert(model == xml::ints(list@));
    let mut pieces: Vec<(usize, (usize, String))> = Vec::new();
    assert(pieces.deep_view() == Splices::empty());
    let mut n: usize = 0;
    while n < list.len()
        invariant
            n <= list.len(),
            all == nodes.deep_view(),
            model == xml::ints(list@),
            model == drawings::anchors(all, all.len() as int),
            forall|k: int| 0 <= k < list@.len() ==> #[trigger] list@[k] < nodes.len(),
            pieces.deep_view() == drawing_pieces(
                s@,
                all,
                drawing_path@,
                drawing_objects.deep_view(),
                drawing_text_updates.deep_view(),
                n as int,
            ),
        decreases list.len() - n,
    {
        let at = list[n];
        assert(model[n as int] == at as int);
        let ghost done = pieces.deep_view();
        match find_object_at_anchor(drawing_objects, drawing_path, n) {
            Some(d) => {
                collect_anchor_marker_replacements(
                    s,
                    &nodes,
                    at,
                    "from",
                    d.from_row,
                    d.from_col,
                    &mut pieces,
                );
                collect_anchor_marker_replacements(
                    s,
                    &nodes,
                    at,
                    "to",
                    d.to_row,
                    d.to_col,
                    &mut pieces,
                );
                let value = entries::map_get(drawing_text_updates, &d.object_id);
                collect_drawing_text_replacement(s, &nodes, at, value, &mut pieces);
                let ghost a = anchor_pieces(
                    s@,
                    all,
                    at as int,
                    "from"@,
                    d.from_row,
                    d.from_col,
                );
                let ghost b = anchor_pieces(s@, all, at as int, "to"@, d.to_row, d.to_col);
                let ghost c = shape_text_piece(
                    s@,
                    all,
                    at as int,
                    entries::get(drawing_text_updates.deep_view(), d.object_id@),
                );
                assert(done + a + b + c == done + (a + b + c));
            },
            None => {},
        }
        n = n + 1;
    }
    Ok(splice::splice(s, pieces))
}

// ----- Charts -----

/// A chart's document with its title and the range of its values set.
pub open spec fn chart_patched(s: Seq<char>, title: Option<Seq<char>>, range: Option<Seq<char>>) -> Fallible<
    Seq<char>,
> {
    match package::nodes_of(s) {
        Err(e) => Err(e),
        Ok(nodes) => match chart_title_pieces(s, nodes, title) {
            Err(e) => Err(e),
            Ok(a) => match chart_range_pieces(s, nodes, range) {
                Err(e) => Err(e),
                Ok(b) => Ok(splice::spliced_in_order(s, a + b)),
            },
        },
    }
}

pub open spec fn chart_title_pieces(s: Seq<char>, nodes: Nodes, title: Option<Seq<char>>) -> Fallible<
    Splices,
> {
    match title {
        None => Ok(Seq::empty()),
        Some(t) => match xml::first_of(xml::named(nodes, "title"@)) {
            None => Err(coord::value_error("chart_patch: chart title node missing"@)),
            Some(i) => match xml::first_of(xml::named_in(nodes, i, "t"@)) {
                None => Err(coord::value_error("chart_patch: chart title text node missing"@)),
                Some(k) => Ok(splice::refill_piece(s, nodes[k], xml::escaped(t))),
            },
        },
    }
}

pub open spec fn chart_range_pieces(s: Seq<char>, nodes: Nodes, range: Option<Seq<char>>) -> Fallible<
    Splices,
> {
    match range {
        None => Ok(Seq::empty()),
        Some(t) => match xml::first_of(xml::named(nodes, "f"@)) {
            None => Err(coord::value_error("chart_patch: chart source formula node missing"@)),
            Some(k) => Ok(splice::refill_piece(s, nodes[k], xml::escaped(t))),
        },
    }
}

pub fn patch_chart_xml(s: &str, title: Option<&String>, source_range: Option<&String>) -> (r: Result<
    String,
    ShadowError,
>)
    ensures
        coord::outcome(r) == chart_patched(s@, title.deep_view(), source_range.deep_view()),
{
    let nodes = match package::read_nodes(s) {
        Ok(nodes) => nodes,
        Err(e) => return Err(e),
    };
    let mut pieces: Vec<(usize, (usize, String))> = Vec::new();
    assert(pieces.deep_view() == Splices::empty());
    match title {
        Some(t) => match xml::first_named(&nodes, "title") {
            Some(i) => match xml::first_named_in(&nodes, i, "t") {
                Some(k) => {
                    assert(nodes.deep_view()[k as int] == nodes@[k as int].deep_view());
                    splice::replace_node_text(s, &nodes[k], t, &mut pieces);
                    assert(pieces.deep_view() == splice::refill_piece(
                        s@,
                        nodes.deep_view()[k as int],
                        xml::escaped(t@),
                    ));
                },
                None => return Err(
                    coord::refuse("chart_patch: chart title text node missing"),
                ),
            },
            None => return Err(coord::refuse("chart_patch: chart title node missing")),
        },
        None => {},
    }
    let ghost a = pieces.deep_view();
    assert(chart_title_pieces(s@, nodes.deep_view(), title.deep_view()) == Fallible::<Splices>::Ok(a));
    match source_range {
        Some(t) => match xml::first_named(&nodes, "f") {
            Some(k) => {
                assert(nodes.deep_view()[k as int] == nodes@[k as int].deep_view());
                splice::replace_node_text(s, &nodes[k], t, &mut pieces);
            },
            None => return Err(coord::refuse("chart_patch: chart source formula node missing")),
        },
        None => {
            assert(a + Splices::empty() == a);
        },
    }
    Ok(splice::splice(s, pieces))
}

// ----- Pivot tables -----

/// A pivot table's document with its name and its caption set.
pub open spec fn pivot_patched(s: Seq<char>, o: HighRiskObject<Seq<char>>) -> Fallible<Seq<char>> {
    match package::nodes_of(s) {
        Err(e) => Err(e),
        Ok(nodes) => match xml::first_of(xml::named(nodes, "pivotTableDefinition"@)) {
            None => Err(coord::value_error("xml_patch_miss: pivotTableDefinition node missing"@)),
            Some(i) => match splice::tag_cut(splice::source(s, nodes[i])) {
                None => Err(
                    coord::value_error("xml_patch_miss: pivotTableDefinition start tag"@),
                ),
                Some(cut) => Ok(
                    splice::replaced_at(
                        s,
                        nodes[i].start as int,
                        nodes[i].end as int,
                        splice::with_attr(
                            splice::with_attr(cut.0, "name"@, o.name),
                            "dataCaption"@,
                            o.pivot_data_caption,
                        ) + cut.1,
                    ),
                ),
            },
        },
    }
}

pub fn patch_pivot_table_xml(s: &str, object: &HighRiskObject) -> (r: Result<String, ShadowError>)
    ensures
        coord::outcome(r) == pivot_patched(s@, object.deep_view()),
{
    let nodes = match package::read_nodes(s) {
        Ok(nodes) => nodes,
        Err(e) => return Err(e),
    };
    let i = match xml::first_named(&nodes, "pivotTableDefinition") {
        Some(i) => i,
        None => return Err(
            coord::refuse("xml_patch_miss: pivotTableDefinition node missing"),
        ),
    };
    assert(nodes.deep_view()[i as int] == nodes@[i as int].deep_view());
    match splice::cut_tag(&splice::source_of(s, &nodes[i])) {
        Some(cut) => {
            let named = splice::with_xml_attr(&cut.0, "name", &object.name);
            let mut tag = splice::with_xml_attr(&named, "dataCaption", &object.pivot_data_caption);
            tag.append(&cut.1);
            Ok(splice::replace_at(s, nodes[i].start, nodes[i].end, &tag))
        },
        None => Err(coord::refuse("xml_patch_miss: pivotTableDefinition start tag")),
    }
}

// ----- Sparklines -----

pub open spec fn is_sparkline_of(o: HighRiskObject<Seq<char>>, sheet: Seq<char>) -> bool {
    o.sheet == sheet && o.object_type == "sparkline"@
}

/// The sparklines of a sheet, in their order.
pub open spec fn sheet_sparklines(list: Seq<HighRiskObject<Seq<char>>>, sheet: Seq<char>) -> Seq<
    HighRiskObject<Seq<char>>,
>
    decreases list.len(),
{
    if list.len() == 0 {
        list
    } else if is_sparkline_of(list.last(), sheet) {
        sheet_sparklines(list.drop_last(), sheet).push(list.last())
    } else {
        sheet_sparklines(list.drop_last(), sheet)
    }
}

fn sparklines_on(list: &Vec<HighRiskObject>, sheet: &str) -> (r: Vec<HighRiskObject>)
    ensures
        r.deep_view() == sheet_sparklines(list.deep_view(), sheet@),
{
    let ghost all = list.deep_view();
    let mut out: Vec<HighRiskObject> = Vec::new();
    assert(out.deep_view() == Seq::<HighRiskObject<Seq<char>>>::empty());
    assert(all.take(0) == Seq::<HighRiskObject<Seq<char>>>::empty());
    let mut i: usize = 0;
    while i < list.len()
        invariant
            i <= list.len(),
            all == list.deep_view(),
            out.deep_view() == sheet_sparklines(all.take(i as int), sheet@),
        decreases list.len() - i,
    {
        assert(all.take(i + 1).drop_last() == all.take(i as int));
        assert(all.take(i + 1).last() == list@[i as int].deep_view());
        if text::same(&list[i].sheet, sheet) && text::same(&list[i].object_type, "sparkline") {
            let ghost done = out.deep_view();
            out.push(list[i].clone());
            assert(out.deep_view() == done.push(all[i as int]));
        }
        i = i + 1;
    }
    assert(all.take(all.len() as int) == all);
    out
}

/// The pieces for the first `n` sparklines of a document, and which objects they are
/// for.
pub open spec fn sparkline_pieces(
    s: Seq<char>,
    nodes: Nodes,
    list: Seq<int>,
    objects: Seq<HighRiskObject<Seq<char>>>,
    dirty: Seq<Seq<char>>,
    n: int,
) -> Fallible<(Splices, Seq<Seq<char>>)>
    decreases n,
{
    if n <= 0 {
        Ok((Seq::empty(), Seq::empty()))
    } else {
        match sparkline_pieces(s, nodes, list, objects, dirty, n - 1) {
            Err(e) => Err(e),
            Ok(done) => if n - 1 >= objects.len() || !dirty.contains(objects[n - 1].object_id) {
                Ok(done)
            } else {
                match xml::child(nodes, list[n - 1], "f"@) {
                    None => Err(
                        coord::value_error(
                            "xml_patch_miss: sparkline source formula node missing"@,
                        ),
                    ),
                    Some(f) => match xml::child(nodes, list[n - 1], "sqref"@) {
                        None => Err(
                            coord::value_error("xml_patch_miss: sparkline sqref node missing"@),
                        ),
                        Some(q) => Ok(
                            (
                                done.0 + splice::refill_piece(
                                    s,
                                    nodes[f],
                                    xml::escaped(objects[n - 1].source_formula),
                                ) + splice::refill_piece(
                                    s,
                                    nodes[q],
                                    xml::escaped(objects[n - 1].ref_text),
                                ),
                                done.1.push(objects[n - 1].object_id),
                            ),
                        ),
                    },
                }
            },
        }
    }
}

pub open spec fn pieces_view(
    r: Result<(Vec<(usize, (usize, String))>, Vec<String>), ShadowError>,
) -> Fallible<(Splices, Seq<Seq<char>>)> {
    match r {
        Ok(v) => Ok((v.0.deep_view(), v.1.deep_view())),
        Err(e) => Err(e.deep_view()),
    }
}

fn sparkline_pieces_of(
    s: &str,
    nodes: &Vec<XmlNode>,
    list: &Vec<usize>,
    objects: &Vec<HighRiskObject>,
    dirty: &Vec<String>,
    n: usize,
) -> (r: Result<(Vec<(usize, (usize, String))>, Vec<String>), ShadowError>)
    requires
        n <= list.len(),
        forall|k: int| 0 <= k < list@.len() ==> #[trigger] list@[k] < nodes.len(),
    ensures
        pieces_view(r) == sparkline_pieces(
            s@,
            nodes.deep_view(),
            xml::ints(list@),
            objects.deep_view(),
            dirty.deep_view(),
            n as int,
        ),
    decreases n,
{
    if n == 0 {
        let none: Vec<(usize, (usize, String))> = Vec::new();
        let nobody: Vec<String> = Vec::new();
        assert(none.deep_view() == Splices::empty());
        assert(nobody.deep_view() == Seq::<Seq<char>>::empty());
        return Ok((none, nobody));
    }
    let (mut pieces, mut applied) = match sparkline_pieces_of(
        s,
        nodes,
        list,
        objects,
        dirty,
        n - 1,
    ) {
        Ok(done) => done,
        Err(e) => return Err(e),
    };
    if n - 1 >= objects.len() {
        return Ok((pieces, applied));
    }
    assert(objects.deep_view()[n - 1] == objects@[n - 1].deep_view());
    let o = &objects[n - 1];
    if !entries::list_has(dirty, &o.object_id) {
        return Ok((pieces, applied));
    }
    let at = list[n - 1];
    assert(xml::ints(list@)[n - 1] == at as int);
    let f = match xml::child_named(nodes, at, "f") {
        Some(f) => f,
        None => return Err(
            coord::refuse("xml_patch_miss: sparkline source formula node missing"),
        ),
    };
    let q = match xml::child_named(nodes, at, "sqref") {
        Some(q) => q,
        None => return Err(coord::refuse("xml_patch_miss: sparkline sqref node missing")),
    };
    assert(nodes.deep_view()[f as int] == nodes@[f as int].deep_view());
    assert(nodes.deep_view()[q as int] == nodes@[q as int].deep_view());
    splice::replace_node_text(s, &nodes[f], &o.source_formula, &mut pieces);
    splice::replace_node_text(s, &nodes[q], &o.ref_text, &mut pieces);
    let ghost before = applied.deep_view();
    applied.push(o.object_id.clone());
    assert(applied.deep_view() == before.push(o.object_id@));
    Ok((pieces, applied))
}

/// Whether one of the changed objects is a sparkline of the sheet that was not found.
pub open spec fn left_out(
    list: Seq<HighRiskObject<Seq<char>>>,
    sheet: Seq<char>,
    dirty: Seq<Seq<char>>,
    applied: Seq<Seq<char>>,
) -> bool
    decreases list.len(),
{
    if list.len() == 0 {
        false
    } else {
        left_out(list.drop_last(), sheet, dirty, applied) || (is_sparkline_of(list.last(), sheet)
            && dirty.contains(list.last().object_id) && !applied.contains(list.last().object_id))
    }
}

fn any_left_out(
    list: &Vec<HighRiskObject>,
    sheet: &str,
    dirty: &Vec<String>,
    applied: &Vec<String>,
) -> (r: bool)
    ensures
        r == left_out(list.deep_view(), sheet@, dirty.deep_view(), applied.deep_view()),
{
    let ghost all = list.deep_view();
    let mut found = false;
    let mut i: usize = 0;
    assert(all.take(0).len() == 0);
    while i < list.len()
        invariant
            i <= list.len(),
            all == list.deep_view(),
            found == left_out(
                all.take(i as int),
                sheet@,
                dirty.deep_view(),
                applied.deep_view(),
            ),
        decreases list.len() - i,
    {
        assert(all.take(i + 1).drop_last() == all.take(i as int));
        assert(all.take(i + 1).last() == list@[i as int].deep_view());
        if text::same(&list[i].sheet, sheet) && text::same(&list[i].object_type, "sparkline")
            && entries::list_has(dirty, &list[i].object_id) && !entries::list_has(
            applied,
            &list[i].object_id,
        ) {
            found = true;
        }
        i = i + 1;
    }
    assert(all.take(all.len() as int) == all);
    found
}

/// A sheet's document with its changed sparklines written; refused where one of them
/// is not in the document.
pub open spec fn sparklines_patched(
    s: Seq<char>,
    sheet: Seq<char>,
    list: Seq<HighRiskObject<Seq<char>>>,
    dirty: Seq<Seq<char>>,
) -> Fallible<Seq<char>> {
    if dirty.len() == 0 {
        Ok(s)
    } else {
        match package::nodes_of(s) {
            Err(e) => Err(e),
            Ok(nodes) => {
                let places = xml::named(nodes, "sparkline"@);
                match sparkline_pieces(
                    s,
                    nodes,
                    places,
                    sheet_sparklines(list, sheet),
                    dirty,
                    places.len() as int,
                ) {
                    Err(e) => Err(e),
                    Ok(found) => if left_out(list, sheet, dirty, found.1) {
                        Err(
                            coord::value_error(
                                "xml_patch_miss: sparkline object not found in worksheet XML"@,
                            ),
                        )
                    } else {
                        Ok(splice::spliced_in_order(s, found.0))
                    },
                }
            },
        }
    }
}

pub fn patch_sparkline_source_xml(
    s: &str,
    sheet_name: &str,
    high_risk_objects: &Vec<HighRiskObject>,
    dirty_objects: &Vec<String>,
) -> (r: Result<String, ShadowError>)
    ensures
        coord::outcome(r) == sparklines_patched(
            s@,
            sheet_name@,
            high_risk_objects.deep_view(),
            dirty_objects.deep_view(),
        ),
{
    assert(dirty_objects.deep_view().len() == dirty_objects.len());
    if dirty_objects.len() == 0 {
        return Ok(s.to_owned());
    }
    let nodes = match package::read_nodes(s) {
        Ok(nodes) => nodes,
        Err(e) => return Err(e),
    };
    let list = xml::all_named(&nodes, "sparkline");
    assert(xml::ints(list@).len() == list.len());
    let objects = sparklines_on(high_risk_objects, sheet_name);
    match sparkline_pieces_of(s, &nodes, &list, &objects, dirty_objects, list.len()) {
        Ok((pieces, applied)) => if any_left_out(
            high_risk_objects,
            sheet_name,
            dirty_objects,
            &applied,
        ) {
            Err(coord::refuse("xml_patch_miss: sparkline object not found in worksheet XML"))
        } else {
            Ok(splice::splice(s, pieces))
        },
        Err(e) => Err(e),
    }
}

// ----- Comments -----

/// Whether a comment stands before another: by row, then by column.
pub open spec fn comes_before(a: Key<Seq<char>>, b: Key<Seq<char>>) -> bool {
    a.row < b.row || (a.row == b.row && a.col < b.col)
}

/// Where a comment goes in a list that is in order.
pub open spec fn comment_place(list: Seq<CellComment<Seq<char>>>, c: CellComment<Seq<char>>) -> int
    decreases list.len(),
{
    if list.len() == 0 {
        0
    } else if comes_before(c.key, list.last().key) {
        comment_place(list.drop_last(), c)
    } else {
        list.len() as int
    }
}

proof fn lemma_comment_place(list: Seq<CellComment<Seq<char>>>, c: CellComment<Seq<char>>)
    ensures
        0 <= comment_place(list, c) <= list.len(),
    decreases list.len(),
{
    if list.len() > 0 {
        lemma_comment_place(list.drop_last(), c);
    }
}

/// The comments of a sheet, by row and column; comments on one cell keep their order.
pub open spec fn sheet_comments(list: Seq<CellComment<Seq<char>>>, sheet: Seq<char>) -> Seq<
    CellComment<Seq<char>>,
>
    decreases list.len(),
{
    if list.len() == 0 {
        list
    } else {
        let done = sheet_comments(list.drop_last(), sheet);
        if list.last().key.sheet == sheet {
            done.insert(comment_place(done, list.last()), list.last())
        } else {
            done
        }
    }
}

pub fn comments_on(list: &Vec<CellComment>, sheet: &str) -> (r: Vec<CellComment>)
    ensures
        r.deep_view() == sheet_comments(list.deep_view(), sheet@),
{
    let ghost all = list.deep_view();
    let mut out: Vec<CellComment> = Vec::new();
    assert(out.deep_view() == Seq::<CellComment<Seq<char>>>::empty());
    assert(all.take(0) == Seq::<CellComment<Seq<char>>>::empty());
    let mut i: usize = 0;
    while i < list.len()
        invariant
            i <= list.len(),
            all == list.deep_view(),
            out.deep_view() == sheet_comments(all.take(i as int), sheet@),
        decreases list.len() - i,
    {
        assert(all.take(i + 1).drop_last() == all.take(i as int));
        assert(all.take(i + 1).last() == list@[i as int].deep_view());
        if text::same(&list[i].key.sheet, sheet) {
            let c = list[i].clone();
            let ghost done = out.deep_view();
            let mut at: usize = out.len();
            assert(done.take(at as int) == done);
            while at > 0 && (c.key.row < out[at - 1].key.row || (c.key.row == out[at - 1].key.row
                && c.key.col < out[at - 1].key.col))
                invariant
                    at <= out.len(),
                    done == out.deep_view(),
                    comment_place(done, c.deep_view()) == comment_place(
                        done.take(at as int),
                        c.deep_view(),
                    ),
                decreases at,
            {
                assert(done.take(at as int).last() == out@[at - 1].deep_view());
                assert(done.take(at as int).drop_last() == done.take(at - 1));
                at = at - 1;
            }
            if at > 0 {
                assert(done.take(at as int).last() == out@[at - 1].deep_view());
            }
            out.insert(at, c);
            assert(out.deep_view() == done.insert(at as int, c.deep_view()));
        }
        i = i + 1;
    }
    assert(all.take(all.len() as int) == all);
    out
}

pub open spec fn comment_elements(list: Seq<CellComment<Seq<char>>>) -> Seq<char>
    decreases list.len(),
{
    if list.len() == 0 {
        Seq::empty()
    } else {
        comment_elements(list.drop_last()) + "<comment ref=\""@ + xml::escaped(
            coord::a1_text(list.last().key.row, list.last().key.col),
        ) + "\" authorId=\"0\"><text><r><t>"@ + xml::escaped(list.last().text)
            + "</t></r></text></comment>"@
    }
}

/// The document of a sheet's comments.
pub open spec fn comments_document(list: Seq<CellComment<Seq<char>>>) -> Seq<char> {
    "<?xml version=\"1.0\" encoding=\"UTF-8\" standalone=\"yes\"?><comments xmlns=\"http://schemas.openxmlformats.org/spreadsheetml/2006/main\"><authors><author>Sheet Shadow</author></authors><commentList>"@
        + comment_elements(list) + "</commentList></comments>"@
}

pub fn build_comments_xml(list: &Vec<CellComment>) -> (r: String)
    ensures
        r@ == comments_document(list.deep_view()),
{
    let ghost all = list.deep_view();
    let mut body = String::new();
    let mut i: usize = 0;
    assert(all.take(0).len() == 0);
    while i < list.len()
        invariant
            i <= list.len(),
            all == list.deep_view(),
            body@ == comment_elements(all.take(i as int)),
        decreases list.len() - i,
    {
        assert(all.take(i + 1).drop_last() == all.take(i as int));
        assert(all.take(i + 1).last() == list@[i as int].deep_view());
        body.append("<comment ref=\"");
        body.append(&xml::xml_escape(&coord::cell_name(list[i].key.row, list[i].key.col)));
        body.append("\" authorId=\"0\"><text><r><t>");
        body.append(&xml::xml_escape(&list[i].text));
        body.append("</t></r></text></comment>");
        i = i + 1;
    }
    assert(all.take(all.len() as int) == all);
    let mut out =
        "<?xml version=\"1.0\" encoding=\"UTF-8\" standalone=\"yes\"?><comments xmlns=\"http://schemas.openxmlformats.org/spreadsheetml/2006/main\"><authors><author>Sheet Shadow</author></authors><commentList>".to_owned();
    out.append(&body);
    out.append("</commentList></comments>");
    out
}

/// Whether no comment of a list stands before one that precedes it in the list.
pub open spec fn in_order(list: Seq<CellComment<Seq<char>>>) -> bool {
    forall|i: int, j: int|
        0 <= i < j < list.len() ==> !comes_before((#[trigger] list[j]).key, (#[trigger] list[i]).key)
}

proof fn lemma_comment_place_splits(list: Seq<CellComment<Seq<char>>>, c: CellComment<Seq<char>>)
    requires
        in_order(list),
    ensures
        forall|i: int|
            0 <= i < comment_place(list, c) ==> !comes_before(c.key, (#[trigger] list[i]).key),
        forall|i: int|
            comment_place(list, c) <= i < list.len() ==> comes_before(
                c.key,
                (#[trigger] list[i]).key,
            ),
    decreases list.len(),
{
    lemma_comment_place(list, c);
    if list.len() > 0 {
        let rest = list.drop_last();
        assert forall|i: int, j: int| 0 <= i < j < rest.len() implies !comes_before(
            (#[trigger] rest[j]).key,
            (#[trigger] rest[i]).key,
        ) by {
            assert(!comes_before(list[j].key, list[i].key));
        }
        if comes_before(c.key, list.last().key) {
            lemma_comment_place(rest, c);
            lemma_comment_place_splits(rest, c);
            assert forall|i: int| 0 <= i < comment_place(list, c) implies !comes_before(
                c.key,
                (#[trigger] list[i]).key,
            ) by {
                assert(rest[i] == list[i]);
            }
            assert forall|i: int| comment_place(list, c) <= i < list.len() implies comes_before(
                c.key,
                (#[trigger] list[i]).key,
            ) by {
                if i < rest.len() {
                    assert(rest[i] == list[i]);
                }
            }
        } else {
            assert forall|i: int| 0 <= i < list.len() implies !comes_before(
                c.key,
                (#[trigger] list[i]).key,
            ) by {
                if i < list.len() - 1 {
                    assert(!comes_before(list[list.len() - 1].key, list[i].key));
                }
            }
        }
    }
}

/// The comments that are written for a sheet are those of the sheet, in order.
pub proof fn law_comments_are_written_in_order(list: Seq<CellComment<Seq<char>>>, sheet: Seq<char>)
    ensures
        in_order(sheet_comments(list, sheet)),
        forall|i: int|
            0 <= i < sheet_comments(list, sheet).len() ==> (#[trigger] sheet_comments(
                list,
                sheet,
            )[i]).key.sheet == sheet,
        sheet_comments(list, sheet).to_multiset() == list.filter(
            |c: CellComment<Seq<char>>| c.key.sheet == sheet,
        ).to_multiset(),
    decreases list.len(),
{
    let own = |c: CellComment<Seq<char>>| c.key.sheet == sheet;
    reveal(Seq::filter);
    if list.len() == 0 {
        assert(list.filter(own) == list);
    } else {
        let rest = list.drop_last();
        law_comments_are_written_in_order(rest, sheet);
        let done = sheet_comments(rest, sheet);
        let c = list.last();
        if c.key.sheet == sheet {
            let at = comment_place(done, c);
            lemma_comment_place(done, c);
            lemma_comment_place_splits(done, c);
            let all = done.insert(at, c);
            assert forall|i: int, j: int| 0 <= i < j < all.len() implies !comes_before(
                (#[trigger] all[j]).key,
                (#[trigger] all[i]).key,
            ) by {
                if i < at {
                    assert(all[i] == done[i]);
                    if j > at {
                        assert(all[j] == done[j - 1]);
                    }
                } else if i == at {
                    assert(all[j] == done[j - 1]);
                } else {
                    assert(all[i] == done[i - 1] && all[j] == done[j - 1]);
                }
            }
            assert forall|i: int| 0 <= i < all.len() implies (#[trigger] all[i]).key.sheet
                == sheet by {
                if i < at {
                    assert(all[i] == done[i]);
                } else if i > at {
                    assert(all[i] == done[i - 1]);
                }
            }
            vstd::seq_lib::to_multiset_insert(done, at, c);
            vstd::seq_lib::to_multiset_build(rest.filter(own), c);
        }
    }
}

/// Whether the elements of a document show comments as they were written.
pub open spec fn shows_comments(nodes: Nodes, list: Seq<CellComment<Seq<char>>>) -> bool {
    let found = xml::named(nodes, "comment"@);
    &&& found.len() == list.len()
    &&& forall|i: int|
        0 <= i < list.len() ==> {
            let c = #[trigger] list[i];
            &&& xml::attr(nodes[found[i]], "ref"@) == Some(coord::a1_text(c.key.row, c.key.col))
            &&& xml::texts_joined(nodes, xml::named_in(nodes, found[i], "t"@)) == c.text
        }
}

proof fn lemma_shown_comments(
    nodes: Nodes,
    found: Seq<int>,
    list: Seq<CellComment<Seq<char>>>,
    sheet: Seq<char>,
)
    requires
        found.len() == list.len(),
        forall|i: int|
            0 <= i < list.len() ==> {
                let c = #[trigger] list[i];
                &&& c.key.sheet == sheet
                &&& xml::attr(nodes[found[i]], "ref"@) == Some(
                    coord::a1_text(c.key.row, c.key.col),
                )
                &&& xml::texts_joined(nodes, xml::named_in(nodes, found[i], "t"@)) == c.text
            },
    ensures
        sheetparts::comments(nodes, found, sheet) == list,
    decreases list.len(),
{
    if list.len() > 0 {
        let rest = list.drop_last();
        assert forall|i: int| 0 <= i < rest.len() implies {
            let c = #[trigger] rest[i];
            &&& c.key.sheet == sheet
            &&& xml::attr(nodes[found.drop_last()[i]], "ref"@) == Some(
                coord::a1_text(c.key.row, c.key.col),
            )
            &&& xml::texts_joined(nodes, xml::named_in(nodes, found.drop_last()[i], "t"@))
                == c.text
        } by {
            assert(rest[i] == list[i]);
        }
        lemma_shown_comments(nodes, found.drop_last(), rest, sheet);
        let c = list[list.len() - 1];
        coord::law_a1_reads_back(c.key.row, c.key.col);
        assert(sheetparts::comment_at(nodes, found.last(), sheet) == Some(c));
        assert(rest.push(c) == list);
    }
}

/// The comments of a sheet read back from the document that is written for them, where the
/// elements that are found in it are those that were written.
pub proof fn law_written_comments_read_back(
    nodes: Nodes,
    list: Seq<CellComment<Seq<char>>>,
    sheet: Seq<char>,
)
    requires
        package::nodes_of(comments_document(list)) == Ok::<Nodes, ShadowError<Seq<char>>>(nodes),
        shows_comments(nodes, list),
        forall|i: int| 0 <= i < list.len() ==> (#[trigger] list[i]).key.sheet == sheet,
    ensures
        sheetparts::comments_in(sheet, comments_document(list)) == Ok::<
            Seq<CellComment<Seq<char>>>,
            ShadowError<Seq<char>>,
        >(list),
{
    lemma_shown_comments(nodes, xml::named(nodes, "comment"@), list, sheet);
}

/// The declarations of the parts that a table of content types does not have.
pub open spec fn type_declarations(s: Seq<char>, parts: Seq<(Seq<char>, Seq<char>)>) -> Seq<char>
    decreases parts.len(),
{
    if parts.len() == 0 {
        Seq::empty()
    } else {
        let done = type_declarations(s, parts.drop_last());
        let name = "/"@ + parts.last().1;
        if text::contains(s, "PartName=\""@ + name + "\""@) {
            done
        } else {
            done + "<Override PartName=\""@ + xml::escaped(name)
                + "\" ContentType=\"application/vnd.openxmlformats-officedocument.spreadsheetml.comments+xml\"/>"@
        }
    }
}

fn type_declarations_of(s: &str, parts: &Vec<(String, String)>) -> (r: String)
    ensures
        r@ == type_declarations(s@, parts.deep_view()),
{
    let ghost all = parts.deep_view();
    let mut out = String::new();
    let mut i: usize = 0;
    assert(all.take(0).len() == 0);
    while i < parts.len()
        invariant
            i <= parts.len(),
            all == parts.deep_view(),
            out@ == type_declarations(s@, all.take(i as int)),
        decreases parts.len() - i,
    {
        assert(all.take(i + 1).drop_last() == all.take(i as int));
        assert(all.take(i + 1).last() == parts@[i as int].deep_view());
        let mut name = "/".to_owned();
        name.append(&parts[i].1);
        let mut declared = "PartName=\"".to_owned();
        declared.append(&name);
        declared.append("\"");
        if !text::has(s, &declared) {
            out.append("<Override PartName=\"");
            out.append(&xml::xml_escape(&name));
            out.append(
                "\" ContentType=\"application/vnd.openxmlformats-officedocument.spreadsheetml.comments+xml\"/>",
            );
        }
        i = i + 1;
    }
    assert(all.take(all.len() as int) == all);
    out
}

/// The table of content types with the parts of comments declared.
pub open spec fn types_patched(s: Seq<char>, parts: Seq<(Seq<char>, Seq<char>)>) -> Fallible<Seq<char>> {
    let more = type_declarations(s, parts);
    if more.len() == 0 {
        Ok(s)
    } else {
        match text::rfind(s, "</Types>"@) {
            Some(i) => Ok(splice::inserted(s, i, more)),
            None => Err(coord::value_error("comment_patch: content types closing tag missing"@)),
        }
    }
}

pub fn patch_content_types_for_comments(s: &str, comment_parts: &Vec<(String, String)>) -> (r: Result<
    String,
    ShadowError,
>)
    ensures
        coord::outcome(r) == types_patched(s@, comment_parts.deep_view()),
{
    let more = type_declarations_of(s, comment_parts);
    if more.as_str().is_empty() {
        return Ok(s.to_owned());
    }
    match text::rfind_text(s, "</Types>") {
        Some(i) => Ok(splice::insert_at_index(s, i, &more)),
        None => Err(coord::refuse("comment_patch: content types closing tag missing")),
    }
}

pub open spec fn comment_relationship(part: Seq<char>) -> Seq<char> {
    let target = match text::without_prefix(part, "xl/"@) {
        Some(t) => t,
        None => part,
    };
    "<Relationship Id=\"rIdSheetShadowComments\" Type=\"http://schemas.openxmlformats.org/officeDocument/2006/relationships/comments\" Target=\"../"@
        + xml::escaped(target) + "\"/>"@
}

fn comment_relationship_of(part: &str) -> (r: String)
    ensures
        r@ == comment_relationship(part@),
{
    let target = match text::strip_prefix(part, "xl/") {
        Some(t) => t,
        None => part.to_owned(),
    };
    let mut out =
        "<Relationship Id=\"rIdSheetShadowComments\" Type=\"http://schemas.openxmlformats.org/officeDocument/2006/relationships/comments\" Target=\"../".to_owned();
    out.append(&xml::xml_escape(&target));
    out.append("\"/>");
    out
}

/// A sheet's relationships with one to its comments; a document that has one stays.
pub open spec fn rels_patched(s: Seq<char>, part: Seq<char>) -> Fallible<Seq<char>> {
    if text::trim(s).len() == 0 {
        Ok(
            "<?xml version=\"1.0\" encoding=\"UTF-8\" standalone=\"yes\"?><Relationships xmlns=\"http://schemas.openxmlformats.org/package/2006/relationships\">"@
                + comment_relationship(part) + "</Relationships>"@,
        )
    } else if text::contains(s, "relationships/comments"@) {
        Ok(s)
    } else {
        match text::rfind(s, "</Relationships>"@) {
            Some(i) => Ok(splice::inserted(s, i, comment_relationship(part))),
            None => Err(coord::value_error("comment_patch: rels closing tag missing"@)),
        }
    }
}

pub fn patch_sheet_rels_for_comments(s: &str, comment_part: &str) -> (r: Result<String, ShadowError>)
    ensures
        coord::outcome(r) == rels_patched(s@, comment_part@),
{
    let relationship = comment_relationship_of(comment_part);
    if text::trimmed(s).as_str().is_empty() {
        let mut out =
            "<?xml version=\"1.0\" encoding=\"UTF-8\" standalone=\"yes\"?><Relationships xmlns=\"http://schemas.openxmlformats.org/package/2006/relationships\">".to_owned();
        out.append(&relationship);
        out.append("</Relationships>");
        return Ok(out);
    }
    if text::has(s, "relationships/comments") {
        return Ok(s.to_owned());
    }
    match text::rfind_text(s, "</Relationships>") {
        Some(i) => Ok(splice::insert_at_index(s, i, &relationship)),
        None => Err(coord::refuse("comment_patch: rels closing tag missing")),
    }
}

// ----- The workbook -----

/// The first sheet from `i` on with the given sheet id or relationship.
pub open spec fn sheet_named_by(sheets: package::SheetsModel, id: Seq<char>, rel: Seq<char>, i: int) -> Option<
    SheetInfo<Seq<char>>,
>
    decreases sheets.len() - i,
{
    if i < 0 || i >= sheets.len() {
        None
    } else if sheets[i].sheet_id == id || sheets[i].rel_id == rel {
        Some(sheets[i])
    } else {
        sheet_named_by(sheets, id, rel, i + 1)
    }
}

fn find_sheet_by<'a>(sheets: &'a Vec<SheetInfo>, id: &str, rel: &str) -> (r: Option<&'a SheetInfo>)
    ensures
        r.deep_view() == sheet_named_by(sheets.deep_view(), id@, rel@, 0),
{
    let ghost all = sheets.deep_view();
    let mut i: usize = 0;
    while i < sheets.len()
        invariant
            i <= sheets.len(),
            all == sheets.deep_view(),
            sheet_named_by(all, id@, rel@, 0) == sheet_named_by(all, id@, rel@, i as int),
        decreases sheets.len() - i,
    {
        assert(all[i as int] == sheets@[i as int].deep_view());
        if text::same(&sheets[i].sheet_id, id) || text::same(&sheets[i].rel_id, rel) {
            return Some(&sheets[i]);
        }
        i = i + 1;
    }
    None
}

/// The start tag of a sheet with its name and its state.
pub open spec fn sheet_tag(tag: Seq<char>, sheet: SheetInfo<Seq<char>>) -> Seq<char> {
    let named = splice::with_attr(tag, "name"@, sheet.name);
    if sheet.visibility == "visible"@ {
        splice::without_attr(named, "state"@)
    } else {
        splice::with_attr(named, "state"@, sheet.visibility)
    }
}

fn sheet_tag_of(tag: &str, sheet: &SheetInfo) -> (r: String)
    ensures
        r@ == sheet_tag(tag@, sheet.deep_view()),
{
    let named = splice::with_xml_attr(tag, "name", &sheet.name);
    if text::same(&sheet.visibility, "visible") {
        splice::without_xml_attr(&named, "state")
    } else {
        splice::with_xml_attr(&named, "state", &sheet.visibility)
    }
}

/// The tag that is written for a sheet reads as the sheet's name and as its state, visible
/// where it names none; all else in it reads as before.
pub proof fn law_written_sheet_tags_read_back(tag: Seq<char>, sheet: SheetInfo<Seq<char>>)
    requires
        splice::taken_out(tag, "name"@),
        splice::taken_out(splice::with_attr(tag, "name"@, sheet.name), "state"@),
    ensures
        xml::tag_name(sheet_tag(tag, sheet)) == xml::tag_name(tag),
        xml::tag_attr(sheet_tag(tag, sheet), "name"@) == Some(sheet.name),
        package::or_text(xml::tag_attr(sheet_tag(tag, sheet), "state"@), "visible"@)
            == sheet.visibility,
        forall|n: Seq<char>|
            n != "name"@ && n != "state"@ ==> #[trigger] xml::tag_attr(sheet_tag(tag, sheet), n)
                == xml::tag_attr(tag, n),
{
    reveal_strlit("name");
    reveal_strlit("state");
    assert("name"@.len() == 4 && "state"@.len() == 5);
    assert(xml::plain_name("name"@));
    assert(xml::plain_name("state"@));
    let named = splice::with_attr(tag, "name"@, sheet.name);
    splice::law_set_attributes_read_back(tag, "name"@, sheet.name);
    splice::law_removed_attributes_are_gone(named, "state"@);
    splice::law_set_attributes_read_back(named, "state"@, sheet.visibility);
    let out = sheet_tag(tag, sheet);
    assert(xml::tag_attr(out, "name"@) == xml::tag_attr(named, "name"@));
    assert forall|n: Seq<char>| n != "name"@ && n != "state"@ implies #[trigger] xml::tag_attr(out, n)
        == xml::tag_attr(tag, n) by {
        assert(xml::tag_attr(named, n) == xml::tag_attr(tag, n));
    }
}

/// The pieces for the first `n` sheets of a workbook.
pub open spec fn sheet_pieces(
    s: Seq<char>,
    nodes: Nodes,
    list: Seq<int>,
    sheets: package::SheetsModel,
    n: int,
) -> Fallible<Splices>
    decreases n,
{
    if n <= 0 {
        Ok(Seq::empty())
    } else {
        let node = nodes[list[n - 1]];
        match sheet_pieces(s, nodes, list, sheets, n - 1) {
            Err(e) => Err(e),
            Ok(done) => match sheet_named_by(
                sheets,
                xml::attr_or_empty(node, "sheetId"@),
                package::or_text(package::id_value_from(node.attributes, 0), Seq::empty()),
                0,
            ) {
                None => Ok(done),
                Some(sheet) => match splice::tag_cut(splice::source(s, node)) {
                    None => Err(
                        coord::value_error("workbook_patch: malformed sheet tag in workbook.xml"@),
                    ),
                    Some(cut) => Ok(
                        done.push(
                            (
                                node.start,
                                (
                                    crate::objects::saturated(node.start + cut.0.len()),
                                    sheet_tag(cut.0, sheet),
                                ),
                            ),
                        ),
                    ),
                },
            },
        }
    }
}

fn sheet_pieces_of(
    s: &str,
    nodes: &Vec<XmlNode>,
    list: &Vec<usize>,
    sheets: &Vec<SheetInfo>,
    n: usize,
) -> (r: Result<Vec<(usize, (usize, String))>, ShadowError>)
    requires
        n <= list.len(),
        forall|k: int| 0 <= k < list@.len() ==> #[trigger] list@[k] < nodes.len(),
    ensures
        crate::cellxml::splices_view(r) == sheet_pieces(
            s@,
            nodes.deep_view(),
            xml::ints(list@),
            sheets.deep_view(),
            n as int,
        ),
    decreases n,
{
    if n == 0 {
        let none: Vec<(usize, (usize, String))> = Vec::new();
        assert(none.deep_view() == Splices::empty());
        return Ok(none);
    }
    let mut done = match sheet_pieces_of(s, nodes, list, sheets, n - 1) {
        Ok(done) => done,
        Err(e) => return Err(e),
    };
    let at = list[n - 1];
    assert(xml::ints(list@)[n - 1] == at as int);
    assert(nodes.deep_view()[at as int] == nodes@[at as int].deep_view());
    let node = &nodes[at];
    let id = xml::attribute_or_empty(node, "sheetId");
    let rel = package::text_or(package::id_attribute(node), "");
    proof {
        reveal_strlit("");
        assert(""@ == Seq::<char>::empty());
    }
    match find_sheet_by(sheets, &id, &rel) {
        Some(sheet) => match splice::cut_tag(&splice::source_of(s, node)) {
            Some(cut) => {
                let end = node.start.saturating_add(text::length(&cut.0));
                let tag = sheet_tag_of(&cut.0, sheet);
                let ghost before = done.deep_view();
                done.push((node.start, (end, tag)));
                assert(done.deep_view() == before.push((node.start, (end, tag@))));
                Ok(done)
            },
            None => Err(coord::refuse("workbook_patch: malformed sheet tag in workbook.xml")),
        },
        None => Ok(done),
    }
}

/// The pieces for the first `n` defined names of a workbook: the elements that are read as
/// defined names, by their order.
pub open spec fn name_pieces(
    s: Seq<char>,
    nodes: Nodes,
    list: Seq<int>,
    names: Seq<DefinedName<Seq<char>>>,
    n: int,
) -> Splices
    decreases n,
{
    if n <= 0 {
        Seq::empty()
    } else if n - 1 >= names.len() {
        name_pieces(s, nodes, list, names, n - 1)
    } else {
        name_pieces(s, nodes, list, names, n - 1) + splice::refill_piece(
            s,
            nodes[list[n - 1]],
            xml::escaped(names[n - 1].target),
        )
    }
}

/// A workbook's document with its sheets and its defined names as they are now.
pub open spec fn workbook_patched(
    s: Seq<char>,
    sheets: package::SheetsModel,
    names: Seq<DefinedName<Seq<char>>>,
) -> Fallible<Seq<char>> {
    match package::nodes_of(s) {
        Err(e) => Err(e),
        Ok(nodes) => {
            let list = xml::named(nodes, "sheet"@);
            let named = package::name_places(nodes, xml::named(nodes, "definedName"@));
            match sheet_pieces(s, nodes, list, sheets, list.len() as int) {
                Err(e) => Err(e),
                Ok(pieces) => Ok(
                    splice::spliced(
                        s,
                        pieces + name_pieces(s, nodes, named, names, named.len() as int),
                    ),
                ),
            }
        },
    }
}

proof fn lemma_sheet_piece(
    s: Seq<char>,
    nodes: Nodes,
    list: Seq<int>,
    sheets: package::SheetsModel,
    n: int,
    j: int,
    sheet: SheetInfo<Seq<char>>,
    cut: (Seq<char>, Seq<char>),
)
    requires
        0 <= j < n <= list.len(),
        sheet_pieces(s, nodes, list, sheets, n) is Ok,
        sheet_named_by(
            sheets,
            xml::attr_or_empty(nodes[list[j]], "sheetId"@),
            package::or_text(package::id_value_from(nodes[list[j]].attributes, 0), Seq::empty()),
            0,
        ) == Some(sheet),
        splice::tag_cut(splice::source(s, nodes[list[j]])) == Some(cut),
    ensures
        exists|k: int|
            0 <= k < sheet_pieces(s, nodes, list, sheets, n)->Ok_0.len() && (
            #[trigger] sheet_pieces(s, nodes, list, sheets, n)->Ok_0[k]).0 == nodes[list[j]].start
                && sheet_pieces(s, nodes, list, sheets, n)->Ok_0[k].1.1 == sheet_tag(cut.0, sheet),
    decreases n,
{
    let done = sheet_pieces(s, nodes, list, sheets, n - 1)->Ok_0;
    let all = sheet_pieces(s, nodes, list, sheets, n)->Ok_0;
    if j == n - 1 {
        assert(all[done.len() as int].1.1 == sheet_tag(cut.0, sheet));
    } else {
        lemma_sheet_piece(s, nodes, list, sheets, n - 1, j, sheet, cut);
        let k = choose|k: int|
            0 <= k < done.len() && (#[trigger] done[k]).0 == nodes[list[j]].start && done[k].1.1
                == sheet_tag(cut.0, sheet);
        assert(all[k] == done[k]);
    }
}

/// The written document of a workbook has, for each element of a sheet of the model, a tag that
/// reads as the name and the state of that sheet, where the pieces that are written do not
/// overlap and the patterns of the two attributes take out those attributes.
pub proof fn law_written_workbook_tells_its_sheets(
    s: Seq<char>,
    sheets: package::SheetsModel,
    names: Seq<DefinedName<Seq<char>>>,
    nodes: Nodes,
    j: int,
    sheet: SheetInfo<Seq<char>>,
    cut: (Seq<char>, Seq<char>),
)
    requires
        package::nodes_of(s) == Ok::<Nodes, ShadowError<Seq<char>>>(nodes),
        workbook_patched(s, sheets, names) is Ok,
        ({
            let list = xml::named(nodes, "sheet"@);
            let named = package::name_places(nodes, xml::named(nodes, "definedName"@));
            let pieces = sheet_pieces(s, nodes, list, sheets, list.len() as int)->Ok_0
                + name_pieces(s, nodes, named, names, named.len() as int);
            &&& splice::apart(pieces, 0, s.len() as int)
            &&& 0 <= j < list.len()
            &&& splice::tag_cut(splice::source(s, nodes[list[j]])) == Some(cut)
            &&& sheet_named_by(
                sheets,
                xml::attr_or_empty(nodes[list[j]], "sheetId"@),
                package::or_text(package::id_value_from(nodes[list[j]].attributes, 0), Seq::empty()),
                0,
            ) == Some(sheet)
        }),
        splice::taken_out(cut.0, "name"@),
        splice::taken_out(splice::with_attr(cut.0, "name"@, sheet.name), "state"@),
    ensures
        exists|before: Seq<char>, tag: Seq<char>, behind: Seq<char>|
            {
                &&& workbook_patched(s, sheets, names) == Ok::<Seq<char>, ShadowError<Seq<char>>>(
                    #[trigger] (before + tag + behind),
                )
                &&& xml::tag_name(tag) == xml::tag_name(cut.0)
                &&& xml::tag_attr(tag, "name"@) == Some(sheet.name)
                &&& package::or_text(xml::tag_attr(tag, "state"@), "visible"@) == sheet.visibility
            },
{
    let list = xml::named(nodes, "sheet"@);
    let named = package::name_places(nodes, xml::named(nodes, "definedName"@));
    let first = sheet_pieces(s, nodes, list, sheets, list.len() as int)->Ok_0;
    let pieces = first + name_pieces(s, nodes, named, names, named.len() as int);
    lemma_sheet_piece(s, nodes, list, sheets, list.len() as int, j, sheet, cut);
    let k = choose|k: int|
        0 <= k < first.len() && (#[trigger] first[k]).0 == nodes[list[j]].start && first[k].1.1
            == sheet_tag(cut.0, sheet);
    assert(pieces[k] == first[k]);
    splice::law_pieces_are_put_in_place(s, pieces);
    splice::lemma_piece_stands(s, pieces, 0, k);
    let tag = sheet_tag(cut.0, sheet);
    let (before, behind) = choose|before: Seq<char>, behind: Seq<char>|
        splice::interleaved(s, pieces, 0) == #[trigger] (before + pieces[k].1.1 + behind);
    assert(workbook_patched(s, sheets, names) == Ok::<Seq<char>, ShadowError<Seq<char>>>(
        before + tag + behind,
    ));
    law_written_sheet_tags_read_back(cut.0, sheet);
}

pub fn patch_workbook_xml(s: &str, sheets: &Vec<SheetInfo>, defined_names: &Vec<DefinedName>) -> (r:
    Result<String, ShadowError>)
    ensures
        coord::outcome(r) == workbook_patched(
            s@,
            sheets.deep_view(),
            defined_names.deep_view(),
        ),
{
    let nodes = match package::read_nodes(s) {
        Ok(nodes) => nodes,
        Err(e) => return Err(e),
    };
    let ghost all = nodes.deep_view();
    let list = xml::all_named(&nodes, "sheet");
    assert(xml::ints(list@).len() == list.len());
    let mut pieces = match sheet_pieces_of(s, &nodes, &list, sheets, list.len()) {
        Ok(pieces) => pieces,
        Err(e) => return Err(e),
    };
    let ghost first = pieces.deep_view();
    let named = package::name_places_of(&nodes, &xml::all_named(&nodes, "definedName"));
    let ghost model = xml::ints(named@);
    assert(first + Splices::empty() == first);
    let mut n: usize = 0;
    while n < named.len()
        invariant
            n <= named.len(),
            all == nodes.deep_view(),
            model == xml::ints(named@),
            forall|k: int| 0 <= k < named@.len() ==> #[trigger] named@[k] < nodes.len(),
            pieces.deep_view() == first + name_pieces(
                s@,
                all,
                model,
                defined_names.deep_view(),
                n as int,
            ),
        decreases named.len() - n,
    {
        let at = named[n];
        assert(model[n as int] == at as int);
        assert(all[at as int] == nodes@[at as int].deep_view());
        if n < defined_names.len() {
            assert(defined_names.deep_view()[n as int] == defined_names@[n as int].deep_view());
            splice::replace_node_text(s, &nodes[at], &defined_names[n].target, &mut pieces);
            let ghost a = name_pieces(s@, all, model, defined_names.deep_view(), n as int);
            let ghost b = splice::refill_piece(
                s@,
                all[at as int],
                xml::escaped(defined_names@[n as int].target@),
            );
            assert(first + a + b == first + (a + b));
        }
        n = n + 1;
    }
    Ok(splice::splice_list(s, &pieces))
}

} // verus!
