//! The drawings of a package: pictures, charts and shapes, and what anchors them.

use crate::coord::ShadowError;
use crate::package;
use crate::package::{Fallible, Package, PackageModel, SheetsModel};
use crate::records::{DrawingObject, PackageRelationship, SheetInfo};
use crate::text;
use crate::xml;
use crate::xml::{Nodes, XmlNode};
use vstd::prelude::*;
use vstd::string::*;

verus! {

pub type DrawingsModel = Seq<DrawingObject<Seq<char>>>;

pub type RelsModel = Seq<PackageRelationship<Seq<char>>>;

// ----- Which drawings a sheet has -----

/// The values of a node's first `n` attributes that are ids of relationships.
pub open spec fn rel_values(a: Seq<xml::XmlAttribute<Seq<char>>>) -> Seq<Seq<char>>
    decreases a.len(),
{
    if a.len() == 0 {
        Seq::empty()
    } else if text::ends(a.last().name, "id"@) && text::starts(a.last().value, "rId"@) {
        rel_values(a.drop_last()).push(a.last().value)
    } else {
        rel_values(a.drop_last())
    }
}

pub open spec fn all_rel_values(nodes: Nodes, list: Seq<int>) -> Seq<Seq<char>>
    decreases list.len(),
{
    if list.len() == 0 {
        Seq::empty()
    } else {
        all_rel_values(nodes, list.drop_last()) + rel_values(nodes[list.last()].attributes)
    }
}

/// A list without the members that equal the one before them.
pub open spec fn deduped(s: Seq<Seq<char>>) -> Seq<Seq<char>>
    decreases s.len(),
{
    if s.len() <= 1 {
        s
    } else if s.last() == s[s.len() - 2] {
        deduped(s.drop_last())
    } else {
        deduped(s.drop_last()).push(s.last())
    }
}

fn dedup_texts(v: &Vec<String>) -> (r: Vec<String>)
    ensures
        r.deep_view() == deduped(v.deep_view()),
{
    let ghost all = v.deep_view();
    let mut out: Vec<String> = Vec::new();
    assert(all.take(0) == Seq::<Seq<char>>::empty());
    assert(out.deep_view() == Seq::<Seq<char>>::empty());
    let mut i: usize = 0;
    while i < v.len()
        invariant
            i <= v.len(),
            all == v.deep_view(),
            out.deep_view() == deduped(all.take(i as int)),
        decreases v.len() - i,
    {
        assert(all.take(i + 1).drop_last() == all.take(i as int));
        assert(all.take(i + 1).last() == v@[i as int]@);
        if i > 0 {
            assert(all.take(i + 1)[i - 1] == v@[i - 1]@);
        }
        if i == 0 || v[i] != v[i - 1] {
            let ghost done = out.deep_view();
            out.push(v[i].clone());
            assert(out.deep_view() == done.push(all[i as int]));
            if i == 0 {
                assert(all.take(1) == seq![all[0]]);
                assert(done.push(all[0]) == all.take(1));
            }
        }
        i = i + 1;
    }
    assert(all.take(all.len() as int) == all);
    out
}

pub open spec fn drawing_ids(nodes: Nodes) -> Seq<Seq<char>> {
    deduped(text::sorted(all_rel_values(nodes, xml::named(nodes, "drawing"@))))
}

/// The ids of a sheet's drawings, in order, each once.
pub fn drawing_ids_of(nodes: &Vec<XmlNode>) -> (r: Vec<String>)
    ensures
        r.deep_view() == drawing_ids(nodes.deep_view()),
{
    let ghost all = nodes.deep_view();
    let list = xml::all_named(nodes, "drawing");
    let ghost model = xml::ints(list@);
    let mut out: Vec<String> = Vec::new();
    assert(out.deep_view() == Seq::<Seq<char>>::empty());
    let mut i: usize = 0;
    while i < list.len()
        invariant
            i <= list.len(),
            all == nodes.deep_view(),
            model == xml::ints(list@),
            forall|k: int| 0 <= k < list@.len() ==> #[trigger] list@[k] < nodes.len(),
            out.deep_view() == all_rel_values(all, model.take(i as int)),
        decreases list.len() - i,
    {
        let at = list[i];
        assert(model.take(i + 1).drop_last() == model.take(i as int));
        assert(model.take(i + 1).last() == at as int);
        assert(all[at as int] == nodes@[at as int].deep_view());
        let attributes = &nodes[at].attributes;
        let ghost a = attributes.deep_view();
        let ghost done = out.deep_view();
        let mut j: usize = 0;
        assert(done + rel_values(a.take(0)) == done);
        while j < attributes.len()
            invariant
                j <= attributes.len(),
                a == attributes.deep_view(),
                out.deep_view() == done + rel_values(a.take(j as int)),
            decreases attributes.len() - j,
        {
            assert(a.take(j + 1).drop_last() == a.take(j as int));
            assert(a.take(j + 1).last() == attributes@[j as int].deep_view());
            if text::ends_with(&attributes[j].name, "id") && text::starts_with(
                &attributes[j].value,
                "rId",
            ) {
                let ghost before = out.deep_view();
                out.push(attributes[j].value.clone());
                assert(out.deep_view() == before.push(a[j as int].value));
                assert((done + rel_values(a.take(j as int))).push(a[j as int].value) == done
                    + rel_values(a.take(j as int)).push(a[j as int].value));
            }
            j = j + 1;
        }
        assert(a.take(a.len() as int) == a);
        i = i + 1;
    }
    assert(model.take(model.len() as int) == model);
    dedup_texts(&text::sort_texts(out))
}

pub open spec fn sheet_drawing_ids(s: Seq<char>) -> Fallible<Seq<Seq<char>>> {
    match package::nodes_of(s) {
        Ok(nodes) => Ok(drawing_ids(nodes)),
        Err(e) => Err(e),
    }
}

pub fn worksheet_drawing_rel_ids(s: &str) -> (r: Result<Vec<String>, ShadowError>)
    ensures
        package::texts_view(r) == sheet_drawing_ids(s@),
{
    match package::read_nodes(s) {
        Ok(nodes) => Ok(drawing_ids_of(&nodes)),
        Err(e) => Err(e),
    }
}

// ----- Anchors -----

pub open spec fn is_anchor(name: Seq<char>) -> bool {
    name == "twoCellAnchor"@ || name == "oneCellAnchor"@ || name == "absoluteAnchor"@
}

/// The places of the anchors among the first `n` nodes.
pub open spec fn anchors(nodes: Nodes, n: int) -> Seq<int>
    decreases n,
{
    if n <= 0 {
        Seq::empty()
    } else if is_anchor(nodes[n - 1].name) {
        anchors(nodes, n - 1).push(n - 1)
    } else {
        anchors(nodes, n - 1)
    }
}

pub fn anchors_of(nodes: &Vec<XmlNode>) -> (r: Vec<usize>)
    ensures
        xml::ints(r@) == anchors(nodes.deep_view(), nodes.len() as int),
        forall|k: int| 0 <= k < r@.len() ==> #[trigger] r@[k] < nodes.len(),
{
    let ghost all = nodes.deep_view();
    let mut out: Vec<usize> = Vec::new();
    let mut i: usize = 0;
    assert(xml::ints(out@) == Seq::<int>::empty());
    while i < nodes.len()
        invariant
            i <= nodes.len(),
            all == nodes.deep_view(),
            xml::ints(out@) == anchors(all, i as int),
            forall|k: int| 0 <= k < out@.len() ==> #[trigger] out@[k] < i,
        decreases nodes.len() - i,
    {
        assert(all[i as int] == nodes@[i as int].deep_view());
        let name = &nodes[i].name;
        if text::same(name, "twoCellAnchor") || text::same(name, "oneCellAnchor") || text::same(
            name,
            "absoluteAnchor",
        ) {
            let ghost done = xml::ints(out@);
            out.push(i);
            assert(xml::ints(out@) == done.push(i as int));
        }
        i = i + 1;
    }
    out
}

/// A line counted from 0, counted from 1; `None` where that fits no machine word.
pub open spec fn from_one(s: Seq<char>) -> Option<usize> {
    match text::parsed_size(s) {
        Some(n) => if n < usize::MAX {
            Some((n + 1) as usize)
        } else {
            None
        },
        None => None,
    }
}

fn line_from_one(s: &str) -> (r: Option<usize>)
    ensures
        r == from_one(s@),
{
    match text::parse_size(s) {
        Some(n) => n.checked_add(1),
        None => None,
    }
}

/// The column and row of a marker of an anchor.
pub open spec fn marker(nodes: Nodes, i: int, name: Seq<char>) -> (Option<usize>, Option<usize>) {
    match xml::child(nodes, i, name) {
        Some(k) => (
            from_one(xml::text_of_child(nodes, k, "col"@)),
            from_one(xml::text_of_child(nodes, k, "row"@)),
        ),
        None => (None, None),
    }
}

pub fn parse_anchor_marker(nodes: &Vec<XmlNode>, i: usize, marker_name: &str) -> (r: (
    Option<usize>,
    Option<usize>,
))
    requires
        i < nodes.len(),
    ensures
        r == marker(nodes.deep_view(), i as int, marker_name@),
{
    match xml::child_named(nodes, i, marker_name) {
        Some(k) => (
            line_from_one(&xml::child_text(nodes, k, "col")),
            line_from_one(&xml::child_text(nodes, k, "row")),
        ),
        None => (None, None),
    }
}

pub open spec fn is_rel_attr(a: xml::XmlAttribute<Seq<char>>) -> bool {
    (a.name == "embed"@ || a.name == "link"@ || a.name == "id"@) && text::starts(a.value, "rId"@)
}

/// The first id of a relationship among a node's attributes, from the `i`-th on.
pub open spec fn attr_rel_id(a: Seq<xml::XmlAttribute<Seq<char>>>, i: int) -> Option<Seq<char>>
    decreases a.len() - i,
{
    if i < 0 || i >= a.len() {
        None
    } else if is_rel_attr(a[i]) {
        Some(a[i].value)
    } else {
        attr_rel_id(a, i + 1)
    }
}

fn attr_rel_id_of(n: &XmlNode) -> (r: Option<String>)
    ensures
        r.deep_view() == attr_rel_id(n.deep_view().attributes, 0),
{
    let ghost all = n.attributes.deep_view();
    let mut i: usize = 0;
    while i < n.attributes.len()
        invariant
            i <= n.attributes.len(),
            all == n.attributes.deep_view(),
            attr_rel_id(all, 0) == attr_rel_id(all, i as int),
        decreases n.attributes.len() - i,
    {
        assert(all[i as int] == n.attributes@[i as int].deep_view());
        let a = &n.attributes[i];
        if (text::same(&a.name, "embed") || text::same(&a.name, "link") || text::same(
            &a.name,
            "id",
        )) && text::starts_with(&a.value, "rId") {
            return Some(a.value.clone());
        }
        i = i + 1;
    }
    None
}

/// The first id of a relationship in the nodes from `i` up to `end`.
pub open spec fn rel_id_between(nodes: Nodes, i: int, end: int) -> Option<Seq<char>>
    decreases end - i,
{
    if i >= end {
        None
    } else {
        match attr_rel_id(nodes[i].attributes, 0) {
            Some(t) => Some(t),
            None => rel_id_between(nodes, i + 1, end),
        }
    }
}

pub open spec fn anchor_rel_id(nodes: Nodes, i: int) -> Option<Seq<char>> {
    rel_id_between(nodes, i, xml::subtree_end(nodes, i))
}

pub fn drawing_anchor_rel_id(nodes: &Vec<XmlNode>, i: usize) -> (r: Option<String>)
    requires
        i < nodes.len(),
    ensures
        r.deep_view() == anchor_rel_id(nodes.deep_view(), i as int),
{
    let ghost all = nodes.deep_view();
    let end = xml::end_of_subtree(nodes, i);
    let mut j: usize = i;
    while j < end
        invariant
            i <= j <= end <= nodes.len(),
            all == nodes.deep_view(),
            rel_id_between(all, i as int, end as int) == rel_id_between(
                all,
                j as int,
                end as int,
            ),
        decreases end - j,
    {
        assert(all[j as int] == nodes@[j as int].deep_view());
        match attr_rel_id_of(&nodes[j]) {
            Some(t) => return Some(t),
            None => {},
        }
        j = j + 1;
    }
    None
}

pub open spec fn anchor_local_id(nodes: Nodes, i: int) -> Option<Seq<char>> {
    match xml::first_of(xml::named_in(nodes, i, "cNvPr"@)) {
        Some(k) => xml::attr(nodes[k], "id"@),
        None => None,
    }
}

pub fn drawing_anchor_local_id(nodes: &Vec<XmlNode>, i: usize) -> (r: Option<String>)
    requires
        i < nodes.len(),
    ensures
        r.deep_view() == anchor_local_id(nodes.deep_view(), i as int),
{
    match xml::first_named_in(nodes, i, "cNvPr") {
        Some(k) => {
            assert(nodes.deep_view()[k as int] == nodes@[k as int].deep_view());
            xml::attribute(&nodes[k], "id")
        },
        None => None,
    }
}

pub open spec fn holds(nodes: Nodes, i: int, name: Seq<char>) -> bool {
    xml::first_of(xml::named_in(nodes, i, name)) is Some
}

/// What kind of object an anchor holds: what its relationship says, else what it contains.
pub open spec fn object_type(
    nodes: Nodes,
    i: int,
    rel: Option<PackageRelationship<Seq<char>>>,
) -> Seq<char> {
    if rel is Some && text::ends(rel.unwrap().rel_type, "/chart"@) {
        "chart"@
    } else if rel is Some && text::ends(rel.unwrap().rel_type, "/image"@) {
        "image"@
    } else if holds(nodes, i, "pic"@) {
        "image"@
    } else if holds(nodes, i, "sp"@) {
        "shape"@
    } else if holds(nodes, i, "graphicFrame"@) {
        "chart"@
    } else {
        "drawing"@
    }
}

pub fn drawing_object_type(nodes: &Vec<XmlNode>, i: usize, rel: Option<&PackageRelationship>) -> (r:
    String)
    requires
        i < nodes.len(),
    ensures
        r@ == object_type(nodes.deep_view(), i as int, rel.deep_view()),
{
    match rel {
        Some(item) => {
            if text::ends_with(&item.rel_type, "/chart") {
                return "chart".to_owned();
            }
            if text::ends_with(&item.rel_type, "/image") {
                return "image".to_owned();
            }
        },
        None => {},
    }
    if xml::first_named_in(nodes, i, "pic").is_some() {
        "image".to_owned()
    } else if xml::first_named_in(nodes, i, "sp").is_some() {
        "shape".to_owned()
    } else if xml::first_named_in(nodes, i, "graphicFrame").is_some() {
        "chart".to_owned()
    } else {
        "drawing".to_owned()
    }
}

/// The first relationship from `i` on with the given id.
pub open spec fn rel_from(rels: RelsModel, id: Seq<char>, i: int) -> Option<
    PackageRelationship<Seq<char>>,
>
    decreases rels.len() - i,
{
    if i < 0 || i >= rels.len() {
        None
    } else if rels[i].id == id {
        Some(rels[i])
    } else {
        rel_from(rels, id, i + 1)
    }
}

pub fn find_rel<'a>(rels: &'a Vec<PackageRelationship>, id: &str) -> (r: Option<
    &'a PackageRelationship,
>)
    ensures
        r.deep_view() == rel_from(rels.deep_view(), id@, 0),
{
    let ghost all = rels.deep_view();
    let mut i: usize = 0;
    while i < rels.len()
        invariant
            i <= rels.len(),
            all == rels.deep_view(),
            rel_from(all, id@, 0) == rel_from(all, id@, i as int),
        decreases rels.len() - i,
    {
        assert(all[i as int] == rels@[i as int].deep_view());
        if text::same(&rels[i].id, id) {
            return Some(&rels[i]);
        }
        i = i + 1;
    }
    None
}

pub open spec fn drawing_id(sheet: SheetInfo<Seq<char>>, path: Seq<char>, tail: Seq<char>) -> Seq<char> {
    "drawing_object:"@ + sheet.sheet_id + ":"@ + path + ":"@ + tail
}

fn drawing_id_of(sheet: &SheetInfo, path: &str, tail: &str) -> (r: String)
    ensures
        r@ == drawing_id(sheet.deep_view(), path@, tail@),
{
    let mut out = "drawing_object:".to_owned();
    out.append(&sheet.sheet_id);
    out.append(":");
    out.append(path);
    out.append(":");
    out.append(tail);
    out
}

/// Whether the target of a relationship is there: outside the package, or a part of it.
pub open spec fn target_there(rel: PackageRelationship<Seq<char>>, p: PackageModel) -> bool {
    package::is_external(rel.target_mode) || package::has_part(p, rel.target)
}

pub fn target_is_there(rel: &PackageRelationship, p: &Package) -> (r: bool)
    ensures
        r == target_there(rel.deep_view(), p.deep_view()),
{
    package::external(&rel.target_mode) || package::part_exists(p, &rel.target)
}

/// The object of the `ordinal`-th anchor of a drawing.
pub open spec fn anchored_object(
    sheet: SheetInfo<Seq<char>>,
    path: Seq<char>,
    nodes: Nodes,
    rels: RelsModel,
    p: PackageModel,
    ordinal: int,
    i: int,
) -> DrawingObject<Seq<char>> {
    let rel_id = crate::formula::or_empty(anchor_rel_id(nodes, i));
    let rel = rel_from(rels, rel_id, 0);
    let local = match anchor_local_id(nodes, i) {
        Some(t) => t,
        None => text::decimal(ordinal as nat),
    };
    DrawingObject {
        sheet: sheet.name,
        object_id: drawing_id(
            sheet,
            path,
            if rel_id.len() == 0 {
                local
            } else {
                rel_id
            },
        ),
        object_type: object_type(nodes, i, rel),
        drawing_path: path,
        anchor_ordinal: ordinal as usize,
        anchor_kind: nodes[i].name,
        from_row: marker(nodes, i, "from"@).1,
        from_col: marker(nodes, i, "from"@).0,
        to_row: marker(nodes, i, "to"@).1,
        to_col: marker(nodes, i, "to"@).0,
        rel_id,
        target_path: match rel {
            Some(item) => item.target,
            None => Seq::empty(),
        },
        target_exists: match rel {
            Some(item) => target_there(item, p),
            None => rel_id.len() == 0,
        },
        target_external: match rel {
            Some(item) => package::is_external(item.target_mode),
            None => false,
        },
        relationship_valid: rel_id.len() == 0 || rel is Some,
        invalid_reason: Seq::empty(),
    }
}

fn anchored_object_of(
    sheet: &SheetInfo,
    path: &str,
    nodes: &Vec<XmlNode>,
    rels: &Vec<PackageRelationship>,
    p: &Package,
    ordinal: usize,
    i: usize,
) -> (r: DrawingObject)
    requires
        i < nodes.len(),
    ensures
        r.deep_view() == anchored_object(
            sheet.deep_view(),
            path@,
            nodes.deep_view(),
            rels.deep_view(),
            p.deep_view(),
            ordinal as int,
            i as int,
        ),
{
    assert(nodes.deep_view()[i as int] == nodes@[i as int].deep_view());
    let (from_col, from_row) = parse_anchor_marker(nodes, i, "from");
    let (to_col, to_row) = parse_anchor_marker(nodes, i, "to");
    let rel_id = crate::formula::or_empty_of(drawing_anchor_rel_id(nodes, i));
    let rel = find_rel(rels, &rel_id);
    let no_rel = rel_id.as_str().is_empty();
    let tail = if no_rel {
        match drawing_anchor_local_id(nodes, i) {
            Some(t) => t,
            None => text::size_text(ordinal),
        }
    } else {
        rel_id.clone()
    };
    let target_path = match rel {
        Some(item) => item.target.clone(),
        None => String::new(),
    };
    let target_exists = match rel {
        Some(item) => target_is_there(item, p),
        None => no_rel,
    };
    let target_external = match rel {
        Some(item) => package::external(&item.target_mode),
        None => false,
    };
    DrawingObject {
        sheet: sheet.name.clone(),
        object_id: drawing_id_of(sheet, path, &tail),
        object_type: drawing_object_type(nodes, i, rel),
        drawing_path: path.to_owned(),
        anchor_ordinal: ordinal,
        anchor_kind: nodes[i].name.clone(),
        from_row,
        from_col,
        to_row,
        to_col,
        rel_id,
        target_path,
        target_exists,
        target_external,
        relationship_valid: no_rel || rel.is_some(),
        invalid_reason: String::new(),
    }
}

/// The objects of a drawing's document.
pub open spec fn anchored_objects(
    sheet: SheetInfo<Seq<char>>,
    path: Seq<char>,
    nodes: Nodes,
    rels: RelsModel,
    p: PackageModel,
) -> DrawingsModel {
    let list = anchors(nodes, nodes.len() as int);
    Seq::new(list.len(), |k: int| anchored_object(sheet, path, nodes, rels, p, k, list[k]))
}

pub fn anchored_objects_of(
    sheet: &SheetInfo,
    path: &str,
    nodes: &Vec<XmlNode>,
    rels: &Vec<PackageRelationship>,
    p: &Package,
) -> (r: Vec<DrawingObject>)
    ensures
        r.deep_view() == anchored_objects(
            sheet.deep_view(),
            path@,
            nodes.deep_view(),
            rels.deep_view(),
            p.deep_view(),
        ),
{
    let ghost expected = anchored_objects(
        sheet.deep_view(),
        path@,
        nodes.deep_view(),
        rels.deep_view(),
        p.deep_view(),
    );
    assert(nodes.deep_view().len() == nodes.len());
    let list = anchors_of(nodes);
    let ghost model = xml::ints(list@);
    let mut out: Vec<DrawingObject> = Vec::new();
    let mut k: usize = 0;
    assert(out.deep_view() == expected.take(0));
    while k < list.len()
        invariant
            k <= list.len(),
            model == xml::ints(list@),
            expected.len() == list.len(),
            forall|n: int| 0 <= n < list@.len() ==> #[trigger] list@[n] < nodes.len(),
            forall|n: int|
                0 <= n < expected.len() ==> #[trigger] expected[n] == anchored_object(
                    sheet.deep_view(),
                    path@,
                    nodes.deep_view(),
                    rels.deep_view(),
                    p.deep_view(),
                    n,
                    model[n],
                ),
            out.deep_view() == expected.take(k as int),
        decreases list.len() - k,
    {
        let at = list[k];
        assert(model[k as int] == at as int);
        let ghost done = out.deep_view();
        let object = anchored_object_of(sheet, path, nodes, rels, p, k, at);
        out.push(object);
        assert(out.deep_view() == done.push(object.deep_view()));
        assert(expected.take(k + 1) == expected.take(k as int).push(expected[k as int]));
        k = k + 1;
    }
    assert(expected.take(expected.len() as int) == expected);
    out
}

pub open spec fn drawings_view(r: Result<Vec<DrawingObject>, ShadowError>) -> Fallible<
    DrawingsModel,
> {
    match r {
        Ok(v) => Ok(v.deep_view()),
        Err(e) => Err(e.deep_view()),
    }
}

pub open spec fn drawing_objects_in(
    sheet: SheetInfo<Seq<char>>,
    path: Seq<char>,
    s: Seq<char>,
    rels: RelsModel,
    p: PackageModel,
) -> Fallible<DrawingsModel> {
    match package::nodes_of(s) {
        Ok(nodes) => Ok(anchored_objects(sheet, path, nodes, rels, p)),
        Err(e) => Err(e),
    }
}

pub fn parse_drawing_objects_xml(
    sheet: &SheetInfo,
    drawing_path: &str,
    s: &str,
    rels: &Vec<PackageRelationship>,
    p: &Package,
) -> (r: Result<Vec<DrawingObject>, ShadowError>)
    ensures
        drawings_view(r) == drawing_objects_in(
            sheet.deep_view(),
            drawing_path@,
            s@,
            rels.deep_view(),
            p.deep_view(),
        ),
{
    match package::read_nodes(s) {
        Ok(nodes) => Ok(anchored_objects_of(sheet, drawing_path, &nodes, rels, p)),
        Err(e) => Err(e),
    }
}

// ----- The drawings of a package -----

/// The object that stands for a drawing that cannot be read.
pub open spec fn lost_drawing(
    sheet: SheetInfo<Seq<char>>,
    path: Seq<char>,
    rel_id: Seq<char>,
    reason: Seq<char>,
) -> DrawingObject<Seq<char>> {
    DrawingObject {
        sheet: sheet.name,
        object_id: drawing_id(sheet, sheet.path, rel_id),
        object_type: "drawing"@,
        drawing_path: path,
        anchor_ordinal: 0,
        anchor_kind: Seq::empty(),
        from_row: None,
        from_col: None,
        to_row: None,
        to_col: None,
        rel_id,
        target_path: Seq::empty(),
        target_exists: false,
        target_external: false,
        relationship_valid: false,
        invalid_reason: reason,
    }
}

fn lost_drawing_of(sheet: &SheetInfo, path: String, rel_id: &str, reason: &str) -> (r:
    DrawingObject)
    ensures
        r.deep_view() == lost_drawing(sheet.deep_view(), path@, rel_id@, reason@),
{
    DrawingObject {
        sheet: sheet.name.clone(),
        object_id: drawing_id_of(sheet, &sheet.path, rel_id),
        object_type: "drawing".to_owned(),
        drawing_path: path,
        anchor_ordinal: 0,
        anchor_kind: String::new(),
        from_row: None,
        from_col: None,
        to_row: None,
        to_col: None,
        rel_id: rel_id.to_owned(),
        target_path: String::new(),
        target_exists: false,
        target_external: false,
        relationship_valid: false,
        invalid_reason: reason.to_owned(),
    }
}

/// The first relationship of a drawing from `i` on with the given id.
pub open spec fn drawing_rel_from(rels: RelsModel, id: Seq<char>, i: int) -> Option<
    PackageRelationship<Seq<char>>,
>
    decreases rels.len() - i,
{
    if i < 0 || i >= rels.len() {
        None
    } else if rels[i].id == id && text::ends(rels[i].rel_type, "/drawing"@) {
        Some(rels[i])
    } else {
        drawing_rel_from(rels, id, i + 1)
    }
}

fn find_drawing_rel<'a>(rels: &'a Vec<PackageRelationship>, id: &str) -> (r: Option<
    &'a PackageRelationship,
>)
    ensures
        r.deep_view() == drawing_rel_from(rels.deep_view(), id@, 0),
{
    let ghost all = rels.deep_view();
    let mut i: usize = 0;
    while i < rels.len()
        invariant
            i <= rels.len(),
            all == rels.deep_view(),
            drawing_rel_from(all, id@, 0) == drawing_rel_from(all, id@, i as int),
        decreases rels.len() - i,
    {
        assert(all[i as int] == rels@[i as int].deep_view());
        if text::same(&rels[i].id, id) && text::ends_with(&rels[i].rel_type, "/drawing") {
            return Some(&rels[i]);
        }
        i = i + 1;
    }
    None
}

/// The relationships of a part; none where it has no readable document of them.
pub open spec fn rels_or_none(p: PackageModel, part: Seq<char>) -> RelsModel {
    match package::part_text(p, package::rels_path(part)) {
        Ok(s) => match package::relationships_in(s, part) {
            Ok(rels) => rels,
            Err(_) => Seq::empty(),
        },
        Err(_) => Seq::empty(),
    }
}

fn read_rels_or_none(p: &Package, part: &str) -> (r: Vec<PackageRelationship>)
    ensures
        r.deep_view() == rels_or_none(p.deep_view(), part@),
{
    match package::read_part(p, &package::rels_path_for_part(part)) {
        Ok(s) => match package::parse_relationships_xml(&s, part) {
            Ok(rels) => return rels,
            Err(_) => {},
        },
        Err(_) => {},
    }
    let none: Vec<PackageRelationship> = Vec::new();
    assert(none.deep_view() == Seq::<PackageRelationship<Seq<char>>>::empty());
    none
}

/// The objects of the drawing with the given id.
pub open spec fn drawings_of_id(
    p: PackageModel,
    sheet: SheetInfo<Seq<char>>,
    rels: RelsModel,
    id: Seq<char>,
) -> Fallible<DrawingsModel> {
    match drawing_rel_from(rels, id, 0) {
        None => Ok(
            seq![lost_drawing(sheet, Seq::empty(), id, "missing_worksheet_drawing_relationship"@)],
        ),
        Some(rel) => if package::is_external(rel.target_mode) {
            Ok(Seq::empty())
        } else {
            let path = package::target_path(sheet.path, rel.target);
            match package::part_text(p, path) {
                Err(_) => Ok(seq![lost_drawing(sheet, path, rel.id, "missing_drawing_part"@)]),
                Ok(s) => drawing_objects_in(sheet, path, s, rels_or_none(p, path), p),
            }
        },
    }
}

fn read_drawings_of_id(
    p: &Package,
    sheet: &SheetInfo,
    rels: &Vec<PackageRelationship>,
    id: &str,
) -> (r: Result<Vec<DrawingObject>, ShadowError>)
    ensures
        drawings_view(r) == drawings_of_id(
            p.deep_view(),
            sheet.deep_view(),
            rels.deep_view(),
            id@,
        ),
{
    let rel = match find_drawing_rel(rels, id) {
        Some(rel) => rel,
        None => {
            let one = lost_drawing_of(
                sheet,
                String::new(),
                id,
                "missing_worksheet_drawing_relationship",
            );
            let out: Vec<DrawingObject> = vec![one];
            assert(out.deep_view() == seq![one.deep_view()]);
            return Ok(out);
        },
    };
    if package::external(&rel.target_mode) {
        let none: Vec<DrawingObject> = Vec::new();
        assert(none.deep_view() == Seq::<DrawingObject<Seq<char>>>::empty());
        return Ok(none);
    }
    let path = package::normalize_part_target(&sheet.path, &rel.target);
    match package::read_part(p, &path) {
        Ok(s) => {
            let drawing_rels = read_rels_or_none(p, &path);
            parse_drawing_objects_xml(sheet, &path, &s, &drawing_rels, p)
        },
        Err(_) => {
            let one = lost_drawing_of(sheet, path, &rel.id, "missing_drawing_part");
            let out: Vec<DrawingObject> = vec![one];
            assert(out.deep_view() == seq![one.deep_view()]);
            Ok(out)
        },
    }
}

/// Two outcomes one after the other: the first error, or both lists together.
pub open spec fn then_more<T>(done: Fallible<Seq<T>>, more: Fallible<Seq<T>>) -> Fallible<Seq<T>> {
    match done {
        Ok(a) => match more {
            Ok(b) => Ok(a + b),
            Err(e) => Err(e),
        },
        Err(e) => Err(e),
    }
}

pub open spec fn drawings_of_ids(
    p: PackageModel,
    sheet: SheetInfo<Seq<char>>,
    rels: RelsModel,
    ids: Seq<Seq<char>>,
) -> Fallible<DrawingsModel>
    decreases ids.len(),
{
    if ids.len() == 0 {
        Ok(Seq::empty())
    } else {
        then_more(
            drawings_of_ids(p, sheet, rels, ids.drop_last()),
            drawings_of_id(p, sheet, rels, ids.last()),
        )
    }
}

fn read_drawings_of_ids(
    p: &Package,
    sheet: &SheetInfo,
    rels: &Vec<PackageRelationship>,
    ids: &Vec<String>,
    n: usize,
) -> (r: Result<Vec<DrawingObject>, ShadowError>)
    requires
        n <= ids.len(),
    ensures
        drawings_view(r) == drawings_of_ids(
            p.deep_view(),
            sheet.deep_view(),
            rels.deep_view(),
            ids.deep_view().take(n as int),
        ),
    decreases n,
{
    if n == 0 {
        let none: Vec<DrawingObject> = Vec::new();
        assert(none.deep_view() == Seq::<DrawingObject<Seq<char>>>::empty());
        return Ok(none);
    }
    let ghost all = ids.deep_view();
    assert(all.take(n as int).drop_last() == all.take(n - 1));
    assert(all.take(n as int).last() == ids@[n - 1]@);
    let mut done = match read_drawings_of_ids(p, sheet, rels, ids, n - 1) {
        Ok(done) => done,
        Err(e) => return Err(e),
    };
    let mut more = match read_drawings_of_id(p, sheet, rels, &ids[n - 1]) {
        Ok(more) => more,
        Err(e) => return Err(e),
    };
    let ghost a = done.deep_view();
    let ghost b = more.deep_view();
    done.append(&mut more);
    assert(done.deep_view() == a + b);
    Ok(done)
}

pub open spec fn drawings_of_sheet(p: PackageModel, sheet: SheetInfo<Seq<char>>) -> Fallible<
    DrawingsModel,
> {
    match package::part_text(p, sheet.path) {
        Err(_) => Ok(Seq::empty()),
        Ok(s) => match sheet_drawing_ids(s) {
            Err(e) => Err(e),
            Ok(ids) => if ids.len() == 0 {
                Ok(Seq::empty())
            } else {
                match package::part_text(p, package::rels_path(sheet.path)) {
                    Err(_) => Ok(Seq::empty()),
                    Ok(r) => match package::relationships_in(r, sheet.path) {
                        Err(e) => Err(e),
                        Ok(rels) => drawings_of_ids(p, sheet, rels, ids),
                    },
                }
            },
        },
    }
}

fn read_drawings_of_sheet(p: &Package, sheet: &SheetInfo) -> (r: Result<
    Vec<DrawingObject>,
    ShadowError,
>)
    ensures
        drawings_view(r) == drawings_of_sheet(p.deep_view(), sheet.deep_view()),
{
    let none: Vec<DrawingObject> = Vec::new();
    assert(none.deep_view() == Seq::<DrawingObject<Seq<char>>>::empty());
    let s = match package::read_part(p, &sheet.path) {
        Ok(s) => s,
        Err(_) => return Ok(none),
    };
    let ids = match worksheet_drawing_rel_ids(&s) {
        Ok(ids) => ids,
        Err(e) => return Err(e),
    };
    assert(ids.deep_view().len() == ids.len());
    if ids.len() == 0 {
        return Ok(none);
    }
    let r = match package::read_part(p, &package::rels_path_for_part(&sheet.path)) {
        Ok(r) => r,
        Err(_) => return Ok(none),
    };
    let rels = match package::parse_relationships_xml(&r, &sheet.path) {
        Ok(rels) => rels,
        Err(e) => return Err(e),
    };
    assert(ids.deep_view().take(ids.len() as int) == ids.deep_view());
    read_drawings_of_ids(p, sheet, &rels, &ids, ids.len())
}

/// The drawings of the sheets, in their order.
pub open spec fn drawings_of_sheets(p: PackageModel, sheets: SheetsModel) -> Fallible<DrawingsModel>
    decreases sheets.len(),
{
    if sheets.len() == 0 {
        Ok(Seq::empty())
    } else {
        then_more(
            drawings_of_sheets(p, sheets.drop_last()),
            drawings_of_sheet(p, sheets.last()),
        )
    }
}

fn read_drawings_of(p: &Package, sheets: &Vec<SheetInfo>, n: usize) -> (r: Result<
    Vec<DrawingObject>,
    ShadowError,
>)
    requires
        n <= sheets.len(),
    ensures
        drawings_view(r) == drawings_of_sheets(p.deep_view(), sheets.deep_view().take(n as int)),
    decreases n,
{
    if n == 0 {
        let none: Vec<DrawingObject> = Vec::new();
        assert(none.deep_view() == Seq::<DrawingObject<Seq<char>>>::empty());
        return Ok(none);
    }
    let ghost all = sheets.deep_view();
    assert(all.take(n as int).drop_last() == all.take(n - 1));
    assert(all.take(n as int).last() == sheets@[n - 1].deep_view());
    let mut done = match read_drawings_of(p, sheets, n - 1) {
        Ok(done) => done,
        Err(e) => return Err(e),
    };
    let mut more = match read_drawings_of_sheet(p, &sheets[n - 1]) {
        Ok(more) => more,
        Err(e) => return Err(e),
    };
    let ghost a = done.deep_view();
    let ghost b = more.deep_view();
    done.append(&mut more);
    assert(done.deep_view() == a + b);
    Ok(done)
}

pub fn read_drawing_objects(p: &Package, sheets: &Vec<SheetInfo>) -> (r: Result<
    Vec<DrawingObject>,
    ShadowError,
>)
    ensures
        drawings_view(r) == drawings_of_sheets(p.deep_view(), sheets.deep_view()),
{
    assert(sheets.deep_view().take(sheets.len() as int) == sheets.deep_view());
    read_drawings_of(p, sheets, sheets.len())
}

} // verus!
