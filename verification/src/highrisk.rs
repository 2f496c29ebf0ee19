//! The objects of a package that are read through relationships: tables, comments,
//! and what is carried along with care: pivot tables, embedded objects, sparklines.

use crate::coord::ShadowError;
use crate::drawings;
use crate::drawings::RelsModel;
use crate::objects;
use crate::objects::{TableInfo, TableModel};
use crate::package;
use crate::package::{Fallible, Package, PackageModel, SheetsModel};
use crate::records::{CellComment, HighRiskObject, PackageRelationship, SheetInfo};
use crate::sheetparts;
use crate::text;
use crate::xml;
use crate::xml::{NodeModel, Nodes, XmlNode};
use vstd::prelude::*;
use vstd::string::*;

verus! {

// ----- Parts that a sheet relates to -----

/// The part that a relationship of the given kind leads to.
pub open spec fn related_part(n: NodeModel, base: Seq<char>, kind: Seq<char>) -> Option<Seq<char>> {
    if !text::ends(xml::attr_or_empty(n, "Type"@), kind) {
        None
    } else {
        match xml::attr(n, "Target"@) {
            Some(target) => Some(package::target_path(base, target)),
            None => None,
        }
    }
}

fn related_part_of(n: &XmlNode, base: &str, kind: &str) -> (r: Option<String>)
    ensures
        r.deep_view() == related_part(n.deep_view(), base@, kind@),
{
    if !text::ends_with(&xml::attribute_or_empty(n, "Type"), kind) {
        return None;
    }
    match xml::attribute(n, "Target") {
        Some(target) => Some(package::normalize_part_target(base, &target)),
        None => None,
    }
}

/// The part that the first relationship of the given kind from place `i` of a list on leads
/// to.
pub open spec fn first_related(
    nodes: Nodes,
    list: Seq<int>,
    base: Seq<char>,
    kind: Seq<char>,
    i: int,
) -> Option<Seq<char>>
    decreases list.len() - i,
{
    if i < 0 || i >= list.len() {
        None
    } else {
        match related_part(nodes[list[i]], base, kind) {
            Some(part) => Some(part),
            None => first_related(nodes, list, base, kind, i + 1),
        }
    }
}

/// The part that a sheet's relationships name for its comments.
pub open spec fn comments_part(rels: Seq<char>, base: Seq<char>) -> Option<Seq<char>> {
    match package::nodes_of(rels) {
        Ok(nodes) => first_related(
            nodes,
            xml::named(nodes, "Relationship"@),
            base,
            "/comments"@,
            0,
        ),
        Err(_) => None,
    }
}

pub fn comments_part_of(rels: &str, base: &str) -> (r: Option<String>)
    ensures
        r.deep_view() == comments_part(rels@, base@),
{
    let nodes = match package::read_nodes(rels) {
        Ok(nodes) => nodes,
        Err(_) => return None,
    };
    let list = xml::all_named(&nodes, "Relationship");
    let ghost all = nodes.deep_view();
    let ghost model = xml::ints(list@);
    let mut i: usize = 0;
    while i < list.len()
        invariant
            i <= list.len(),
            all == nodes.deep_view(),
            model == xml::ints(list@),
            forall|k: int| 0 <= k < list@.len() ==> #[trigger] list@[k] < nodes.len(),
            first_related(all, model, base@, "/comments"@, 0) == first_related(
                all,
                model,
                base@,
                "/comments"@,
                i as int,
            ),
        decreases list.len() - i,
    {
        let at = list[i];
        assert(model[i as int] == at as int);
        assert(all[at as int] == nodes@[at as int].deep_view());
        match related_part_of(&nodes[at], base, "/comments") {
            Some(part) => return Some(part),
            None => {},
        }
        i = i + 1;
    }
    None
}

// ----- Tables -----

pub open spec fn related_table(p: PackageModel, sheet: SheetInfo<Seq<char>>, n: NodeModel) -> Option<
    TableModel,
> {
    match related_part(n, sheet.path, "/table"@) {
        Some(path) => match package::part_text(p, path) {
            Ok(s) => sheetparts::table_info(sheet.name, path, s),
            Err(_) => None,
        },
        None => None,
    }
}

fn related_table_of(p: &Package, sheet: &SheetInfo, n: &XmlNode) -> (r: Option<TableInfo>)
    ensures
        r.deep_view() == related_table(p.deep_view(), sheet.deep_view(), n.deep_view()),
{
    match related_part_of(n, &sheet.path, "/table") {
        Some(path) => match package::read_part(p, &path) {
            Ok(s) => sheetparts::parse_table_info(&sheet.name, &path, &s),
            Err(_) => None,
        },
        None => None,
    }
}

pub open spec fn related_tables(
    p: PackageModel,
    sheet: SheetInfo<Seq<char>>,
    nodes: Nodes,
    list: Seq<int>,
) -> Seq<TableModel>
    decreases list.len(),
{
    if list.len() == 0 {
        Seq::empty()
    } else {
        objects::pushed(
            related_tables(p, sheet, nodes, list.drop_last()),
            related_table(p, sheet, nodes[list.last()]),
        )
    }
}

fn related_tables_of(p: &Package, sheet: &SheetInfo, nodes: &Vec<XmlNode>) -> (r: Vec<TableInfo>)
    ensures
        r.deep_view() == related_tables(
            p.deep_view(),
            sheet.deep_view(),
            nodes.deep_view(),
            xml::named(nodes.deep_view(), "Relationship"@),
        ),
{
    let ghost all = nodes.deep_view();
    let list = xml::all_named(nodes, "Relationship");
    let ghost model = xml::ints(list@);
    let mut out: Vec<TableInfo> = Vec::new();
    assert(out.deep_view() == Seq::<TableModel>::empty());
    let mut i: usize = 0;
    while i < list.len()
        invariant
            i <= list.len(),
            all == nodes.deep_view(),
            model == xml::ints(list@),
            forall|k: int| 0 <= k < list@.len() ==> #[trigger] list@[k] < nodes.len(),
            out.deep_view() == related_tables(
                p.deep_view(),
                sheet.deep_view(),
                all,
                model.take(i as int),
            ),
        decreases list.len() - i,
    {
        let at = list[i];
        assert(model.take(i + 1).drop_last() == model.take(i as int));
        assert(model.take(i + 1).last() == at as int);
        assert(all[at as int] == nodes@[at as int].deep_view());
        objects::push_some(&mut out, related_table_of(p, sheet, &nodes[at]));
        i = i + 1;
    }
    assert(model.take(model.len() as int) == model);
    out
}

pub open spec fn tables_of_sheet(p: PackageModel, sheet: SheetInfo<Seq<char>>) -> Fallible<
    Seq<TableModel>,
> {
    match package::part_text(p, package::rels_path(sheet.path)) {
        Err(_) => Ok(Seq::empty()),
        Ok(s) => match package::nodes_of(s) {
            Err(e) => Err(e),
            Ok(nodes) => Ok(
                related_tables(p, sheet, nodes, xml::named(nodes, "Relationship"@)),
            ),
        },
    }
}

pub open spec fn tables_view(r: Result<Vec<TableInfo>, ShadowError>) -> Fallible<Seq<TableModel>> {
    match r {
        Ok(v) => Ok(v.deep_view()),
        Err(e) => Err(e.deep_view()),
    }
}

fn read_tables_of_sheet(p: &Package, sheet: &SheetInfo) -> (r: Result<Vec<TableInfo>, ShadowError>)
    ensures
        tables_view(r) == tables_of_sheet(p.deep_view(), sheet.deep_view()),
{
    match package::read_part(p, &package::rels_path_for_part(&sheet.path)) {
        Err(_) => {
            let none: Vec<TableInfo> = Vec::new();
            assert(none.deep_view() == Seq::<TableModel>::empty());
            Ok(none)
        },
        Ok(s) => match package::read_nodes(&s) {
            Err(e) => Err(e),
            Ok(nodes) => Ok(related_tables_of(p, sheet, &nodes)),
        },
    }
}

pub open spec fn tables_of_sheets(p: PackageModel, sheets: SheetsModel) -> Fallible<Seq<TableModel>>
    decreases sheets.len(),
{
    if sheets.len() == 0 {
        Ok(Seq::empty())
    } else {
        drawings::then_more(tables_of_sheets(p, sheets.drop_last()), tables_of_sheet(p, sheets.last()))
    }
}

fn read_table_info_upto(p: &Package, sheets: &Vec<SheetInfo>, n: usize) -> (r: Result<
    Vec<TableInfo>,
    ShadowError,
>)
    requires
        n <= sheets.len(),
    ensures
        tables_view(r) == tables_of_sheets(p.deep_view(), sheets.deep_view().take(n as int)),
    decreases n,
{
    if n == 0 {
        let none: Vec<TableInfo> = Vec::new();
        assert(none.deep_view() == Seq::<TableModel>::empty());
        return Ok(none);
    }
    let ghost all = sheets.deep_view();
    assert(all.take(n as int).drop_last() == all.take(n - 1));
    assert(all.take(n as int).last() == sheets@[n - 1].deep_view());
    let mut done = match read_table_info_upto(p, sheets, n - 1) {
        Ok(done) => done,
        Err(e) => return Err(e),
    };
    let mut more = match read_tables_of_sheet(p, &sheets[n - 1]) {
        Ok(more) => more,
        Err(e) => return Err(e),
    };
    let ghost a = done.deep_view();
    let ghost b = more.deep_view();
    done.append(&mut more);
    assert(done.deep_view() == a + b);
    Ok(done)
}

pub fn read_table_info(p: &Package, sheets: &Vec<SheetInfo>) -> (r: Result<Vec<TableInfo>, ShadowError>)
    ensures
        tables_view(r) == tables_of_sheets(p.deep_view(), sheets.deep_view()),
{
    assert(sheets.deep_view().take(sheets.len() as int) == sheets.deep_view());
    read_table_info_upto(p, sheets, sheets.len())
}

// ----- Comments -----

pub open spec fn related_comments(p: PackageModel, sheet: SheetInfo<Seq<char>>, n: NodeModel) -> Fallible<
    Seq<CellComment<Seq<char>>>,
> {
    match related_part(n, sheet.path, "/comments"@) {
        Some(path) => match package::part_text(p, path) {
            Ok(s) => sheetparts::comments_in(sheet.name, s),
            Err(_) => Ok(Seq::empty()),
        },
        None => Ok(Seq::empty()),
    }
}

fn related_comments_of(p: &Package, sheet: &SheetInfo, n: &XmlNode) -> (r: Result<
    Vec<CellComment>,
    ShadowError,
>)
    ensures
        sheetparts::comments_view(r) == related_comments(
            p.deep_view(),
            sheet.deep_view(),
            n.deep_view(),
        ),
{
    match related_part_of(n, &sheet.path, "/comments") {
        Some(path) => match package::read_part(p, &path) {
            Ok(s) => return sheetparts::parse_comments_xml(&sheet.name, &s),
            Err(_) => {},
        },
        None => {},
    }
    let none: Vec<CellComment> = Vec::new();
    assert(none.deep_view() == Seq::<CellComment<Seq<char>>>::empty());
    Ok(none)
}

pub open spec fn all_related_comments(
    p: PackageModel,
    sheet: SheetInfo<Seq<char>>,
    nodes: Nodes,
    list: Seq<int>,
) -> Fallible<Seq<CellComment<Seq<char>>>>
    decreases list.len(),
{
    if list.len() == 0 {
        Ok(Seq::empty())
    } else {
        drawings::then_more(
            all_related_comments(p, sheet, nodes, list.drop_last()),
            related_comments(p, sheet, nodes[list.last()]),
        )
    }
}

fn all_related_comments_of(
    p: &Package,
    sheet: &SheetInfo,
    nodes: &Vec<XmlNode>,
    list: &Vec<usize>,
    n: usize,
) -> (r: Result<Vec<CellComment>, ShadowError>)
    requires
        n <= list.len(),
        forall|k: int| 0 <= k < list@.len() ==> #[trigger] list@[k] < nodes.len(),
    ensures
        sheetparts::comments_view(r) == all_related_comments(
            p.deep_view(),
            sheet.deep_view(),
            nodes.deep_view(),
            xml::ints(list@).take(n as int),
        ),
    decreases n,
{
    if n == 0 {
        let none: Vec<CellComment> = Vec::new();
        assert(none.deep_view() == Seq::<CellComment<Seq<char>>>::empty());
        return Ok(none);
    }
    let ghost model = xml::ints(list@);
    assert(model.take(n as int).drop_last() == model.take(n - 1));
    let at = list[n - 1];
    assert(model.take(n as int).last() == at as int);
    assert(nodes.deep_view()[at as int] == nodes@[at as int].deep_view());
    let mut done = match all_related_comments_of(p, sheet, nodes, list, n - 1) {
        Ok(done) => done,
        Err(e) => return Err(e),
    };
    let mut more = match related_comments_of(p, sheet, &nodes[at]) {
        Ok(more) => more,
        Err(e) => return Err(e),
    };
    let ghost a = done.deep_view();
    let ghost b = more.deep_view();
    done.append(&mut more);
    assert(done.deep_view() == a + b);
    Ok(done)
}

pub open spec fn comments_of_sheet(p: PackageModel, sheet: SheetInfo<Seq<char>>) -> Fallible<
    Seq<CellComment<Seq<char>>>,
> {
    match package::part_text(p, package::rels_path(sheet.path)) {
        Err(_) => Ok(Seq::empty()),
        Ok(s) => match package::nodes_of(s) {
            Err(e) => Err(e),
            Ok(nodes) => all_related_comments(
                p,
                sheet,
                nodes,
                xml::named(nodes, "Relationship"@),
            ),
        },
    }
}

fn read_comments_of_sheet(p: &Package, sheet: &SheetInfo) -> (r: Result<
    Vec<CellComment>,
    ShadowError,
>)
    ensures
        sheetparts::comments_view(r) == comments_of_sheet(p.deep_view(), sheet.deep_view()),
{
    match package::read_part(p, &package::rels_path_for_part(&sheet.path)) {
        Err(_) => {
            let none: Vec<CellComment> = Vec::new();
            assert(none.deep_view() == Seq::<CellComment<Seq<char>>>::empty());
            Ok(none)
        },
        Ok(s) => match package::read_nodes(&s) {
            Err(e) => Err(e),
            Ok(nodes) => {
                let list = xml::all_named(&nodes, "Relationship");
                let ghost model = xml::ints(list@);
                assert(model.take(list.len() as int) == model);
                all_related_comments_of(p, sheet, &nodes, &list, list.len())
            },
        },
    }
}

pub open spec fn comments_of_sheets(p: PackageModel, sheets: SheetsModel) -> Fallible<Seq<CellComment<Seq<char>>>>
    decreases sheets.len(),
{
    if sheets.len() == 0 {
        Ok(Seq::empty())
    } else {
        drawings::then_more(comments_of_sheets(p, sheets.drop_last()), comments_of_sheet(p, sheets.last()))
    }
}

fn read_comments_upto(p: &Package, sheets: &Vec<SheetInfo>, n: usize) -> (r: Result<
    Vec<CellComment>,
    ShadowError,
>)
    requires
        n <= sheets.len(),
    ensures
        sheetparts::comments_view(r) == comments_of_sheets(p.deep_view(), sheets.deep_view().take(n as int)),
    decreases n,
{
    if n == 0 {
        let none: Vec<CellComment> = Vec::new();
        assert(none.deep_view() == Seq::<CellComment<Seq<char>>>::empty());
        return Ok(none);
    }
    let ghost all = sheets.deep_view();
    assert(all.take(n as int).drop_last() == all.take(n - 1));
    assert(all.take(n as int).last() == sheets@[n - 1].deep_view());
    let mut done = match read_comments_upto(p, sheets, n - 1) {
        Ok(done) => done,
        Err(e) => return Err(e),
    };
    let mut more = match read_comments_of_sheet(p, &sheets[n - 1]) {
        Ok(more) => more,
        Err(e) => return Err(e),
    };
    let ghost a = done.deep_view();
    let ghost b = more.deep_view();
    done.append(&mut more);
    assert(done.deep_view() == a + b);
    Ok(done)
}

pub fn read_comments(p: &Package, sheets: &Vec<SheetInfo>) -> (r: Result<Vec<CellComment>, ShadowError>)
    ensures
        sheetparts::comments_view(r) == comments_of_sheets(p.deep_view(), sheets.deep_view()),
{
    assert(sheets.deep_view().take(sheets.len() as int) == sheets.deep_view());
    read_comments_upto(p, sheets, sheets.len())
}

// ----- Objects that are carried along with care -----

pub type HighRiskModel = Seq<HighRiskObject<Seq<char>>>;

pub open spec fn high_risk_id(sheet: SheetInfo<Seq<char>>, kind: Seq<char>, tail: Seq<char>) -> Seq<char> {
    "high_risk:"@ + sheet.sheet_id + ":"@ + kind + ":"@ + tail
}

fn high_risk_id_of(sheet: &SheetInfo, kind: &str, tail: &str) -> (r: String)
    ensures
        r@ == high_risk_id(sheet.deep_view(), kind@, tail@),
{
    let mut out = "high_risk:".to_owned();
    out.append(&sheet.sheet_id);
    out.append(":");
    out.append(kind);
    out.append(":");
    out.append(tail);
    out
}

/// An object of which nothing is known but its kind and its place.
pub open spec fn bare_object(sheet: SheetInfo<Seq<char>>, kind: Seq<char>, tail: Seq<char>) -> HighRiskObject<
    Seq<char>,
> {
    HighRiskObject {
        sheet: sheet.name,
        object_id: high_risk_id(sheet, kind, tail),
        object_type: kind,
        source_path: sheet.path,
        rel_id: Seq::empty(),
        rel_type: Seq::empty(),
        target_path: Seq::empty(),
        target_mode: Seq::empty(),
        target_exists: true,
        target_size: 0,
        relationship_valid: true,
        name: Seq::empty(),
        ref_text: Seq::empty(),
        source_formula: Seq::empty(),
        cache_path: Seq::empty(),
        cache_rel_id: Seq::empty(),
        cache_target_mode: Seq::empty(),
        cache_exists: false,
        cache_size: 0,
        pivot_cache_id: Seq::empty(),
        pivot_data_caption: Seq::empty(),
        pivot_updated_version: Seq::empty(),
        sparkline_group_type: Seq::empty(),
        sparkline_display_empty_cells_as: Seq::empty(),
        sparkline_markers: Seq::empty(),
        ole_extension: Seq::empty(),
        invalid_reason: Seq::empty(),
    }
}

fn bare_object_of(sheet: &SheetInfo, kind: &str, tail: &str) -> (r: HighRiskObject)
    ensures
        r.deep_view() == bare_object(sheet.deep_view(), kind@, tail@),
{
    HighRiskObject {
        sheet: sheet.name.clone(),
        object_id: high_risk_id_of(sheet, kind, tail),
        object_type: kind.to_owned(),
        source_path: sheet.path.clone(),
        rel_id: String::new(),
        rel_type: String::new(),
        target_path: String::new(),
        target_mode: String::new(),
        target_exists: true,
        target_size: 0,
        relationship_valid: true,
        name: String::new(),
        ref_text: String::new(),
        source_formula: String::new(),
        cache_path: String::new(),
        cache_rel_id: String::new(),
        cache_target_mode: String::new(),
        cache_exists: false,
        cache_size: 0,
        pivot_cache_id: String::new(),
        pivot_data_caption: String::new(),
        pivot_updated_version: String::new(),
        sparkline_group_type: String::new(),
        sparkline_display_empty_cells_as: String::new(),
        sparkline_markers: String::new(),
        ole_extension: String::new(),
        invalid_reason: String::new(),
    }
}

/// An object that a relationship leads to.
pub open spec fn related_object(
    p: PackageModel,
    sheet: SheetInfo<Seq<char>>,
    kind: Seq<char>,
    rel: PackageRelationship<Seq<char>>,
) -> HighRiskObject<Seq<char>> {
    HighRiskObject {
        rel_id: rel.id,
        rel_type: rel.rel_type,
        target_path: rel.target,
        target_mode: rel.target_mode,
        target_exists: drawings::target_there(rel, p),
        target_size: package::size_of(p, rel.target),
        name: package::file_stem(rel.target),
        ..bare_object(sheet, kind, rel.id)
    }
}

fn related_object_of(p: &Package, sheet: &SheetInfo, kind: &str, rel: &PackageRelationship) -> (r:
    HighRiskObject)
    ensures
        r.deep_view() == related_object(
            p.deep_view(),
            sheet.deep_view(),
            kind@,
            rel.deep_view(),
        ),
{
    let mut r = bare_object_of(sheet, kind, &rel.id);
    r.rel_id = rel.id.clone();
    r.rel_type = rel.rel_type.clone();
    r.target_path = rel.target.clone();
    r.target_mode = rel.target_mode.clone();
    r.target_exists = drawings::target_is_there(rel, p);
    r.target_size = package::part_size(p, &rel.target);
    r.name = package::file_stem_from_path(&rel.target);
    r
}

/// An embedded object.
pub open spec fn ole_object(
    p: PackageModel,
    sheet: SheetInfo<Seq<char>>,
    rel: PackageRelationship<Seq<char>>,
) -> HighRiskObject<Seq<char>> {
    HighRiskObject {
        ole_extension: package::file_extension(rel.target),
        ..related_object(p, sheet, "ole_object"@, rel)
    }
}

pub fn read_ole_object(p: &Package, sheet: &SheetInfo, rel: &PackageRelationship) -> (r:
    HighRiskObject)
    ensures
        r.deep_view() == ole_object(p.deep_view(), sheet.deep_view(), rel.deep_view()),
{
    let mut r = related_object_of(p, sheet, "ole_object", rel);
    r.ole_extension = package::file_extension_from_path(&rel.target);
    r
}

/// A pivot table with what its definition says of it.
pub open spec fn defined_pivot(o: HighRiskObject<Seq<char>>, nodes: Nodes) -> HighRiskObject<Seq<char>> {
    match xml::first_of(xml::named(nodes, "pivotTableDefinition"@)) {
        Some(k) => HighRiskObject {
            name: package::or_text(xml::attr(nodes[k], "name"@), o.name),
            pivot_cache_id: xml::attr_or_empty(nodes[k], "cacheId"@),
            pivot_data_caption: xml::attr_or_empty(nodes[k], "dataCaption"@),
            pivot_updated_version: xml::attr_or_empty(nodes[k], "updatedVersion"@),
            ..o
        },
        None => o,
    }
}

fn define_pivot(o: HighRiskObject, nodes: &Vec<XmlNode>) -> (r: HighRiskObject)
    ensures
        r.deep_view() == defined_pivot(o.deep_view(), nodes.deep_view()),
{
    let mut r = o;
    match xml::first_named(nodes, "pivotTableDefinition") {
        Some(k) => {
            assert(nodes.deep_view()[k as int] == nodes@[k as int].deep_view());
            r.name = package::text_or(xml::attribute(&nodes[k], "name"), &r.name);
            r.pivot_cache_id = xml::attribute_or_empty(&nodes[k], "cacheId");
            r.pivot_data_caption = xml::attribute_or_empty(&nodes[k], "dataCaption");
            r.pivot_updated_version = xml::attribute_or_empty(&nodes[k], "updatedVersion");
        },
        None => {},
    }
    r
}

/// The first relationship from `i` on that leads to the definition of a cache.
pub open spec fn cache_rel_from(rels: RelsModel, i: int) -> Option<PackageRelationship<Seq<char>>>
    decreases rels.len() - i,
{
    if i < 0 || i >= rels.len() {
        None
    } else if text::ends(rels[i].rel_type, "/pivotCacheDefinition"@) {
        Some(rels[i])
    } else {
        cache_rel_from(rels, i + 1)
    }
}

fn find_cache_rel<'a>(rels: &'a Vec<PackageRelationship>) -> (r: Option<&'a PackageRelationship>)
    ensures
        r.deep_view() == cache_rel_from(rels.deep_view(), 0),
{
    let ghost all = rels.deep_view();
    let mut i: usize = 0;
    while i < rels.len()
        invariant
            i <= rels.len(),
            all == rels.deep_view(),
            cache_rel_from(all, 0) == cache_rel_from(all, i as int),
        decreases rels.len() - i,
    {
        assert(all[i as int] == rels@[i as int].deep_view());
        if text::ends_with(&rels[i].rel_type, "/pivotCacheDefinition") {
            return Some(&rels[i]);
        }
        i = i + 1;
    }
    None
}

/// A pivot table with the cache that its relationships lead to.
pub open spec fn cached_pivot(o: HighRiskObject<Seq<char>>, rels: RelsModel, p: PackageModel) -> HighRiskObject<
    Seq<char>,
> {
    match cache_rel_from(rels, 0) {
        Some(rel) => HighRiskObject {
            cache_rel_id: rel.id,
            cache_path: rel.target,
            cache_target_mode: rel.target_mode,
            cache_exists: drawings::target_there(rel, p),
            cache_size: package::size_of(p, rel.target),
            ..o
        },
        None => o,
    }
}

fn cache_pivot(o: HighRiskObject, rels: &Vec<PackageRelationship>, p: &Package) -> (r:
    HighRiskObject)
    ensures
        r.deep_view() == cached_pivot(o.deep_view(), rels.deep_view(), p.deep_view()),
{
    let mut r = o;
    match find_cache_rel(rels) {
        Some(rel) => {
            r.cache_rel_id = rel.id.clone();
            r.cache_path = rel.target.clone();
            r.cache_target_mode = rel.target_mode.clone();
            r.cache_exists = drawings::target_is_there(rel, p);
            r.cache_size = package::part_size(p, &rel.target);
        },
        None => {},
    }
    r
}

/// A pivot table: its definition is read where it can be, its cache where its
/// relationships are there, and only unreadable relationships are an error.
pub open spec fn pivot_object(
    p: PackageModel,
    sheet: SheetInfo<Seq<char>>,
    rel: PackageRelationship<Seq<char>>,
) -> Fallible<HighRiskObject<Seq<char>>> {
    let bare = related_object(p, sheet, "pivot_table"@, rel);
    if !bare.target_exists {
        Ok(bare)
    } else {
        let defined = match package::part_text(p, rel.target) {
            Ok(s) => match package::nodes_of(s) {
                Ok(nodes) => defined_pivot(bare, nodes),
                Err(_) => bare,
            },
            Err(_) => bare,
        };
        match package::part_text(p, package::rels_path(rel.target)) {
            Ok(s) => match package::relationships_in(s, rel.target) {
                Ok(rels) => Ok(cached_pivot(defined, rels, p)),
                Err(e) => Err(e),
            },
            Err(_) => Ok(defined),
        }
    }
}

pub fn read_pivot_object(p: &Package, sheet: &SheetInfo, rel: &PackageRelationship) -> (r: Result<
    HighRiskObject,
    ShadowError,
>)
    ensures
        crate::coord::outcome(r) == pivot_object(p.deep_view(), sheet.deep_view(), rel.deep_view()),
{
    let bare = related_object_of(p, sheet, "pivot_table", rel);
    if !bare.target_exists {
        return Ok(bare);
    }
    let defined = match package::read_part(p, &rel.target) {
        Ok(s) => match package::read_nodes(&s) {
            Ok(nodes) => define_pivot(bare, &nodes),
            Err(_) => bare,
        },
        Err(_) => bare,
    };
    match package::read_part(p, &package::rels_path_for_part(&rel.target)) {
        Ok(s) => match package::parse_relationships_xml(&s, &rel.target) {
            Ok(rels) => Ok(cache_pivot(defined, &rels, p)),
            Err(e) => Err(e),
        },
        Err(_) => Ok(defined),
    }
}

// ----- Sparklines -----

/// The nearest node above `i`, itself included, that is an element of the given name.
pub open spec fn ancestor_named(nodes: Nodes, i: int, name: Seq<char>) -> Option<int>
    decreases i,
{
    if i < 0 || i >= nodes.len() {
        None
    } else if nodes[i].element && nodes[i].name == name {
        Some(i)
    } else {
        match nodes[i].parent {
            Some(up) => if up < i {
                ancestor_named(nodes, up as int, name)
            } else {
                None
            },
            None => None,
        }
    }
}

pub fn find_ancestor(nodes: &Vec<XmlNode>, i: usize, name: &str) -> (r: Option<usize>)
    ensures
        text::pos(r) == ancestor_named(nodes.deep_view(), i as int, name@),
        r is Some ==> r.unwrap() < nodes.len(),
    decreases i,
{
    if i >= nodes.len() {
        return None;
    }
    assert(nodes.deep_view()[i as int] == nodes@[i as int].deep_view());
    if nodes[i].element && text::same(&nodes[i].name, name) {
        return Some(i);
    }
    match nodes[i].parent {
        Some(up) => if up < i {
            find_ancestor(nodes, up, name)
        } else {
            None
        },
        None => None,
    }
}

/// The name of a marker, where a group of sparklines shows it.
pub open spec fn shown_marker(n: NodeModel, name: Seq<char>) -> Option<Seq<char>> {
    match xml::attr(n, name) {
        Some(value) => if package::is_true(value) {
            Some(name)
        } else {
            None
        },
        None => None,
    }
}

fn shown_marker_of(n: &XmlNode, name: &str) -> (r: Option<String>)
    ensures
        r.deep_view() == shown_marker(n.deep_view(), name@),
{
    match xml::attribute(n, name) {
        Some(value) => if package::xml_bool_attr_is_true(&value) {
            Some(name.to_owned())
        } else {
            None
        },
        None => None,
    }
}

pub open spec fn shown_markers(n: NodeModel) -> Seq<char> {
    let a = objects::pushed(Seq::empty(), shown_marker(n, "markers"@));
    let b = objects::pushed(a, shown_marker(n, "high"@));
    let c = objects::pushed(b, shown_marker(n, "low"@));
    let d = objects::pushed(c, shown_marker(n, "first"@));
    let e = objects::pushed(d, shown_marker(n, "last"@));
    text::joined(objects::pushed(e, shown_marker(n, "negative"@)), ","@)
}

pub fn sparkline_group_markers(n: &XmlNode) -> (r: String)
    ensures
        r@ == shown_markers(n.deep_view()),
{
    let mut out: Vec<String> = Vec::new();
    assert(out.deep_view() == Seq::<Seq<char>>::empty());
    objects::push_some(&mut out, shown_marker_of(n, "markers"));
    objects::push_some(&mut out, shown_marker_of(n, "high"));
    objects::push_some(&mut out, shown_marker_of(n, "low"));
    objects::push_some(&mut out, shown_marker_of(n, "first"));
    objects::push_some(&mut out, shown_marker_of(n, "last"));
    objects::push_some(&mut out, shown_marker_of(n, "negative"));
    text::join(&out, ",")
}

/// The sparkline of node `i`, the `n`-th of its sheet counted from 1.
pub open spec fn sparkline_at(sheet: SheetInfo<Seq<char>>, nodes: Nodes, i: int, n: nat) -> HighRiskObject<
    Seq<char>,
> {
    let bare = HighRiskObject {
        name: "sparkline_"@ + text::decimal(n),
        ref_text: xml::text_of_child(nodes, i, "sqref"@),
        source_formula: xml::text_of_child(nodes, i, "f"@),
        ..bare_object(sheet, "sparkline"@, text::decimal(n))
    };
    match ancestor_named(nodes, i, "sparklineGroup"@) {
        Some(g) => HighRiskObject {
            sparkline_group_type: xml::attr_or_empty(nodes[g], "type"@),
            sparkline_display_empty_cells_as: xml::attr_or_empty(nodes[g], "displayEmptyCellsAs"@),
            sparkline_markers: shown_markers(nodes[g]),
            ..bare
        },
        None => bare,
    }
}

fn sparkline_of(sheet: &SheetInfo, nodes: &Vec<XmlNode>, i: usize, n: usize) -> (r: HighRiskObject)
    requires
        i < nodes.len(),
    ensures
        r.deep_view() == sparkline_at(sheet.deep_view(), nodes.deep_view(), i as int, n as nat),
{
    let number = text::size_text(n);
    let mut r = bare_object_of(sheet, "sparkline", &number);
    let mut name = "sparkline_".to_owned();
    name.append(&number);
    r.name = name;
    r.ref_text = xml::child_text(nodes, i, "sqref");
    r.source_formula = xml::child_text(nodes, i, "f");
    match find_ancestor(nodes, i, "sparklineGroup") {
        Some(g) => {
            assert(nodes.deep_view()[g as int] == nodes@[g as int].deep_view());
            r.sparkline_group_type = xml::attribute_or_empty(&nodes[g], "type");
            r.sparkline_display_empty_cells_as =
                xml::attribute_or_empty(&nodes[g], "displayEmptyCellsAs");
            r.sparkline_markers = sparkline_group_markers(&nodes[g]);
        },
        None => {},
    }
    r
}

pub open spec fn sparklines(sheet: SheetInfo<Seq<char>>, nodes: Nodes) -> HighRiskModel {
    let list = xml::named(nodes, "sparkline"@);
    Seq::new(list.len(), |k: int| sparkline_at(sheet, nodes, list[k], (k + 1) as nat))
}

pub fn sparklines_of(sheet: &SheetInfo, nodes: &Vec<XmlNode>) -> (r: Vec<HighRiskObject>)
    ensures
        r.deep_view() == sparklines(sheet.deep_view(), nodes.deep_view()),
{
    let ghost expected = sparklines(sheet.deep_view(), nodes.deep_view());
    let list = xml::all_named(nodes, "sparkline");
    let ghost model = xml::ints(list@);
    let mut out: Vec<HighRiskObject> = Vec::new();
    let mut k: usize = 0;
    assert(out.deep_view() == expected.take(0));
    while k < list.len()
        invariant
            k <= list.len(),
            model == xml::ints(list@),
            expected.len() == list.len(),
            forall|n: int| 0 <= n < list@.len() ==> #[trigger] list@[n] < nodes.len(),
            forall|n: int|
                0 <= n < expected.len() ==> #[trigger] expected[n] == sparkline_at(
                    sheet.deep_view(),
                    nodes.deep_view(),
                    model[n],
                    (n + 1) as nat,
                ),
            out.deep_view() == expected.take(k as int),
        decreases list.len() - k,
    {
        let at = list[k];
        assert(model[k as int] == at as int);
        let ghost done = out.deep_view();
        let object = sparkline_of(sheet, nodes, at, k + 1);
        out.push(object);
        assert(out.deep_view() == done.push(object.deep_view()));
        assert(expected.take(k + 1) == expected.take(k as int).push(expected[k as int]));
        k = k + 1;
    }
    assert(expected.take(expected.len() as int) == expected);
    out
}

pub open spec fn high_risk_view(r: Result<Vec<HighRiskObject>, ShadowError>) -> Fallible<
    HighRiskModel,
> {
    match r {
        Ok(v) => Ok(v.deep_view()),
        Err(e) => Err(e.deep_view()),
    }
}

pub open spec fn sparklines_in(sheet: SheetInfo<Seq<char>>, s: Seq<char>) -> Fallible<HighRiskModel> {
    if text::trim(s).len() == 0 {
        Ok(Seq::empty())
    } else {
        match package::nodes_of(s) {
            Ok(nodes) => Ok(sparklines(sheet, nodes)),
            Err(e) => Err(e),
        }
    }
}

pub fn parse_sparkline_objects_xml(sheet: &SheetInfo, s: &str) -> (r: Result<
    Vec<HighRiskObject>,
    ShadowError,
>)
    ensures
        high_risk_view(r) == sparklines_in(sheet.deep_view(), s@),
{
    if text::trimmed(s).as_str().is_empty() {
        let none: Vec<HighRiskObject> = Vec::new();
        assert(none.deep_view() == Seq::<HighRiskObject<Seq<char>>>::empty());
        return Ok(none);
    }
    match package::read_nodes(s) {
        Ok(nodes) => Ok(sparklines_of(sheet, &nodes)),
        Err(e) => Err(e),
    }
}

// ----- All of them -----

/// What a relationship leads to, where that is carried along with care.
pub open spec fn risk_of_rel(
    p: PackageModel,
    sheet: SheetInfo<Seq<char>>,
    rel: PackageRelationship<Seq<char>>,
) -> Fallible<HighRiskModel> {
    if text::ends(rel.rel_type, "/pivotTable"@) {
        match pivot_object(p, sheet, rel) {
            Ok(o) => Ok(seq![o]),
            Err(e) => Err(e),
        }
    } else if text::ends(rel.rel_type, "/oleObject"@) || (text::ends(rel.rel_type, "/package"@)
        && text::contains(rel.target, "/embeddings/"@)) {
        Ok(seq![ole_object(p, sheet, rel)])
    } else {
        Ok(Seq::empty())
    }
}

fn read_risk_of_rel(p: &Package, sheet: &SheetInfo, rel: &PackageRelationship) -> (r: Result<
    Vec<HighRiskObject>,
    ShadowError,
>)
    ensures
        high_risk_view(r) == risk_of_rel(p.deep_view(), sheet.deep_view(), rel.deep_view()),
{
    let mut out: Vec<HighRiskObject> = Vec::new();
    assert(out.deep_view() == Seq::<HighRiskObject<Seq<char>>>::empty());
    if text::ends_with(&rel.rel_type, "/pivotTable") {
        match read_pivot_object(p, sheet, rel) {
            Ok(o) => {
                out.push(o);
                assert(out.deep_view() == seq![o.deep_view()]);
            },
            Err(e) => return Err(e),
        }
    } else if text::ends_with(&rel.rel_type, "/oleObject") || (text::ends_with(
        &rel.rel_type,
        "/package",
    ) && text::has(&rel.target, "/embeddings/")) {
        let o = read_ole_object(p, sheet, rel);
        out.push(o);
        assert(out.deep_view() == seq![o.deep_view()]);
    }
    Ok(out)
}

pub open spec fn risks_of_rels(p: PackageModel, sheet: SheetInfo<Seq<char>>, rels: RelsModel) -> Fallible<
    HighRiskModel,
>
    decreases rels.len(),
{
    if rels.len() == 0 {
        Ok(Seq::empty())
    } else {
        drawings::then_more(
            risks_of_rels(p, sheet, rels.drop_last()),
            risk_of_rel(p, sheet, rels.last()),
        )
    }
}

fn read_risks_of_rels(
    p: &Package,
    sheet: &SheetInfo,
    rels: &Vec<PackageRelationship>,
    n: usize,
) -> (r: Result<Vec<HighRiskObject>, ShadowError>)
    requires
        n <= rels.len(),
    ensures
        high_risk_view(r) == risks_of_rels(
            p.deep_view(),
            sheet.deep_view(),
            rels.deep_view().take(n as int),
        ),
    decreases n,
{
    if n == 0 {
        let none: Vec<HighRiskObject> = Vec::new();
        assert(none.deep_view() == Seq::<HighRiskObject<Seq<char>>>::empty());
        return Ok(none);
    }
    let ghost all = rels.deep_view();
    assert(all.take(n as int).drop_last() == all.take(n - 1));
    assert(all.take(n as int).last() == rels@[n - 1].deep_view());
    let mut done = match read_risks_of_rels(p, sheet, rels, n - 1) {
        Ok(done) => done,
        Err(e) => return Err(e),
    };
    let mut more = match read_risk_of_rel(p, sheet, &rels[n - 1]) {
        Ok(more) => more,
        Err(e) => return Err(e),
    };
    let ghost a = done.deep_view();
    let ghost b = more.deep_view();
    done.append(&mut more);
    assert(done.deep_view() == a + b);
    Ok(done)
}

pub open spec fn risks_of_sheet(p: PackageModel, sheet: SheetInfo<Seq<char>>) -> Fallible<HighRiskModel> {
    let s = match package::part_text(p, sheet.path) {
        Ok(s) => s,
        Err(_) => Seq::empty(),
    };
    let more = match package::part_text(p, package::rels_path(sheet.path)) {
        Err(_) => Ok(Seq::empty()),
        Ok(r) => match package::relationships_in(r, sheet.path) {
            Err(e) => Err(e),
            Ok(rels) => risks_of_rels(p, sheet, rels),
        },
    };
    drawings::then_more(sparklines_in(sheet, s), more)
}

fn read_risks_of_sheet(p: &Package, sheet: &SheetInfo) -> (r: Result<
    Vec<HighRiskObject>,
    ShadowError,
>)
    ensures
        high_risk_view(r) == risks_of_sheet(p.deep_view(), sheet.deep_view()),
{
    let s = match package::read_part(p, &sheet.path) {
        Ok(s) => s,
        Err(_) => String::new(),
    };
    let mut done = match parse_sparkline_objects_xml(sheet, &s) {
        Ok(done) => done,
        Err(e) => return Err(e),
    };
    let ghost a = done.deep_view();
    let r = match package::read_part(p, &package::rels_path_for_part(&sheet.path)) {
        Ok(r) => r,
        Err(_) => {
            assert(a + Seq::<HighRiskObject<Seq<char>>>::empty() == a);
            return Ok(done);
        },
    };
    let rels = match package::parse_relationships_xml(&r, &sheet.path) {
        Ok(rels) => rels,
        Err(e) => return Err(e),
    };
    assert(rels.deep_view().take(rels.len() as int) == rels.deep_view());
    let mut more = match read_risks_of_rels(p, sheet, &rels, rels.len()) {
        Ok(more) => more,
        Err(e) => return Err(e),
    };
    let ghost b = more.deep_view();
    done.append(&mut more);
    assert(done.deep_view() == a + b);
    Ok(done)
}

pub open spec fn risks_of_sheets(p: PackageModel, sheets: SheetsModel) -> Fallible<Seq<HighRiskObject<Seq<char>>>>
    decreases sheets.len(),
{
    if sheets.len() == 0 {
        Ok(Seq::empty())
    } else {
        drawings::then_more(risks_of_sheets(p, sheets.drop_last()), risks_of_sheet(p, sheets.last()))
    }
}

fn read_high_risk_objects_upto(p: &Package, sheets: &Vec<SheetInfo>, n: usize) -> (r: Result<
    Vec<HighRiskObject>,
    ShadowError,
>)
    requires
        n <= sheets.len(),
    ensures
        high_risk_view(r) == risks_of_sheets(p.deep_view(), sheets.deep_view().take(n as int)),
    decreases n,
{
    if n == 0 {
        let none: Vec<HighRiskObject> = Vec::new();
        assert(none.deep_view() == Seq::<HighRiskObject<Seq<char>>>::empty());
        return Ok(none);
    }
    let ghost all = sheets.deep_view();
    assert(all.take(n as int).drop_last() == all.take(n - 1));
    assert(all.take(n as int).last() == sheets@[n - 1].deep_view());
    let mut done = match read_high_risk_objects_upto(p, sheets, n - 1) {
        Ok(done) => done,
        Err(e) => return Err(e),
    };
    let mut more = match read_risks_of_sheet(p, &sheets[n - 1]) {
        Ok(more) => more,
        Err(e) => return Err(e),
    };
    let ghost a = done.deep_view();
    let ghost b = more.deep_view();
    done.append(&mut more);
    assert(done.deep_view() == a + b);
    Ok(done)
}

pub fn read_high_risk_objects(p: &Package, sheets: &Vec<SheetInfo>) -> (r: Result<Vec<HighRiskObject>, ShadowError>)
    ensures
        high_risk_view(r) == risks_of_sheets(p.deep_view(), sheets.deep_view()),
{
    assert(sheets.deep_view().take(sheets.len() as int) == sheets.deep_view());
    read_high_risk_objects_upto(p, sheets, sheets.len())
}

} // verus!
