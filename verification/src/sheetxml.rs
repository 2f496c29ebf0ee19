//! Writing merged ranges, rules, and moved rows and columns into the documents of
//! sheets and tables.

use crate::cellxml;
use crate::coord;
use crate::coord::{Key, ShadowError, StructureAxis, StructureEdit};
use crate::objects;
use crate::objects::{TableInfo, TableModel};
use crate::package;
use crate::package::Fallible;
use crate::pattern;
use crate::records::{AutoFilterRule, ConditionalFormatRule, DataValidationRule};
use crate::splice;
use crate::text;
use crate::xml;
use crate::xml::{NodeModel, Nodes, XmlNode};
use vstd::prelude::*;
use vstd::string::*;

verus! {

// ----- First matches -----

/// A text without the first match of a pattern.
pub open spec fn first_removed(p: Seq<char>, s: Seq<char>) -> Seq<char> {
    match pattern::first_cut(p, s) {
        Some(cut) => cut.0 + text::slice(s, (cut.0.len() + cut.1.len()) as int, s.len() as int),
        None => s,
    }
}

fn remove_first(p: &str, s: &str) -> (r: String)
    ensures
        r@ == first_removed(p@, s@),
{
    match pattern::cut_first(p, s) {
        Some(cut) => {
            let all = text::chars_of(s);
            assert(cut.0@.len() + cut.1@.len() <= all.len());
            let behind = text::length(&cut.0) + text::length(&cut.1);
            let mut out = cut.0;
            out.append(&text::piece(&all, behind, all.len()));
            out
        },
        None => s.to_owned(),
    }
}

/// Where the cells of a sheet end: behind the end tag of its data.
pub open spec fn data_end(s: Seq<char>, n: NodeModel) -> Option<int> {
    match splice::closing_start(s, n, "sheetData"@) {
        None => None,
        Some(i) => match pattern::first_cut(
            "</(?:[A-Za-z0-9_]+:)?sheetData>"@,
            text::slice(s, i, s.len() as int),
        ) {
            Some(cut) => Some(i + cut.0.len() + cut.1.len()),
            None => Some(i),
        },
    }
}

fn end_of_data(s: &str, n: &XmlNode) -> (r: Option<usize>)
    ensures
        text::pos(r) == data_end(s@, n.deep_view()),
{
    match splice::closing_tag_start(s, n, "sheetData") {
        Some(i) => {
            let all = text::length(s);
            let rest = text::slice_of(s, i, all);
            assert(rest@.len() == (if i <= all { all - i } else { 0 }));
            match pattern::cut_first("</(?:[A-Za-z0-9_]+:)?sheetData>", &rest) {
                Some(cut) => {
                    let a = text::length(&cut.0);
                    let b = text::length(&cut.1);
                    Some(i + (a + b))
                },
                None => Some(i),
            }
        },
        None => None,
    }
}

// ----- Merged ranges -----

/// The elements of merged ranges.
pub open spec fn merge_elements(prefix: Seq<char>, ranges: Seq<Seq<char>>) -> Seq<char>
    decreases ranges.len(),
{
    if ranges.len() == 0 {
        Seq::empty()
    } else {
        merge_elements(prefix, ranges.drop_last()) + "<"@ + prefix + "mergeCell ref=\""@
            + xml::escaped(ranges.last()) + "\" />"@
    }
}

fn merge_elements_of(prefix: &str, ranges: &Vec<String>) -> (r: String)
    ensures
        r@ == merge_elements(prefix@, ranges.deep_view()),
{
    let ghost all = ranges.deep_view();
    let mut out = String::new();
    let mut i: usize = 0;
    assert(all.take(0).len() == 0);
    while i < ranges.len()
        invariant
            i <= ranges.len(),
            all == ranges.deep_view(),
            out@ == merge_elements(prefix@, all.take(i as int)),
        decreases ranges.len() - i,
    {
        assert(all.take(i + 1).drop_last() == all.take(i as int));
        assert(all.take(i + 1).last() == ranges@[i as int]@);
        out.append("<");
        out.append(prefix);
        out.append("mergeCell ref=\"");
        out.append(&xml::xml_escape(&ranges[i]));
        out.append("\" />");
        i = i + 1;
    }
    assert(all.take(all.len() as int) == all);
    out
}

pub open spec fn merges_pattern() -> Seq<char> {
    r"(?s)<(?:[A-Za-z0-9_]+:)?mergeCells\b[^>]*>.*?</(?:[A-Za-z0-9_]+:)?mergeCells>"@
}

/// A sheet's document, already without its merged ranges, with the given ones.
pub open spec fn with_merges(s: Seq<char>, nodes: Nodes, ranges: Seq<Seq<char>>) -> Fallible<Seq<char>> {
    match xml::first_of(xml::named(nodes, "sheetData"@)) {
        None => Err(coord::value_error("xml_patch_miss: worksheet XML has no sheetData node"@)),
        Some(i) => {
            let prefix = splice::node_prefix(s, nodes[i], "sheetData"@);
            match data_end(s, nodes[i]) {
                None => Err(
                    coord::value_error("xml_patch_miss: sheetData closing tag not found"@),
                ),
                Some(at) => Ok(
                    splice::inserted(
                        s,
                        at,
                        "<"@ + prefix + "mergeCells count=\""@ + text::decimal(ranges.len())
                            + "\">"@ + merge_elements(prefix, text::sorted(ranges)) + "</"@
                            + prefix + "mergeCells>"@,
                    ),
                ),
            }
        },
    }
}

fn put_merges(s: &str, nodes: &Vec<XmlNode>, ranges: Vec<String>) -> (r: Result<String, ShadowError>)
    ensures
        coord::outcome(r) == with_merges(s@, nodes.deep_view(), ranges.deep_view()),
{
    let i = match xml::first_named(nodes, "sheetData") {
        Some(i) => i,
        None => return Err(
            coord::refuse("xml_patch_miss: worksheet XML has no sheetData node"),
        ),
    };
    assert(nodes.deep_view()[i as int] == nodes@[i as int].deep_view());
    let prefix = splice::prefix_of_node(s, &nodes[i], "sheetData");
    let at = match end_of_data(s, &nodes[i]) {
        Some(at) => at,
        None => return Err(coord::refuse("xml_patch_miss: sheetData closing tag not found")),
    };
    let count = text::size_text(ranges.len());
    assert(ranges.deep_view().len() == ranges.len());
    let sorted = text::sort_texts(ranges);
    let mut t = "<".to_owned();
    t.append(&prefix);
    t.append("mergeCells count=\"");
    t.append(&count);
    t.append("\">");
    t.append(&merge_elements_of(&prefix, &sorted));
    t.append("</");
    t.append(&prefix);
    t.append("mergeCells>");
    Ok(splice::insert_at_index(s, at, &t))
}

/// A sheet's document with its merged ranges replaced by the given ones.
pub open spec fn merges_patched(s: Seq<char>, ranges: Seq<Seq<char>>) -> Fallible<Seq<char>> {
    let bare = first_removed(merges_pattern(), s);
    if ranges.len() == 0 {
        Ok(bare)
    } else {
        match package::nodes_of(bare) {
            Ok(nodes) => with_merges(bare, nodes, ranges),
            Err(e) => Err(e),
        }
    }
}

pub fn patch_merge_cells_xml(s: &str, ranges: Vec<String>) -> (r: Result<String, ShadowError>)
    ensures
        coord::outcome(r) == merges_patched(s@, ranges.deep_view()),
{
    let bare = remove_first(
        r"(?s)<(?:[A-Za-z0-9_]+:)?mergeCells\b[^>]*>.*?</(?:[A-Za-z0-9_]+:)?mergeCells>",
        s,
    );
    assert(ranges.deep_view().len() == ranges.len());
    if ranges.len() == 0 {
        return Ok(bare);
    }
    match package::read_nodes(&bare) {
        Ok(nodes) => put_merges(&bare, &nodes, ranges),
        Err(e) => Err(e),
    }
}

// ----- Rules of a sheet -----

/// A sheet's document without its filter, validations and conditional formats.
pub open spec fn rules_stripped(s: Seq<char>) -> Seq<char> {
    let a = pattern::substituted(r"(?s)<(?:[A-Za-z0-9_]+:)?autoFilter\b[^>]*/>"@, s, ""@);
    let b = pattern::substituted(
        r"(?s)<(?:[A-Za-z0-9_]+:)?autoFilter\b[^>]*>.*?</(?:[A-Za-z0-9_]+:)?autoFilter>"@,
        a,
        ""@,
    );
    let c = pattern::substituted(
        r"(?s)<(?:[A-Za-z0-9_]+:)?dataValidations\b[^>]*>.*?</(?:[A-Za-z0-9_]+:)?dataValidations>"@,
        b,
        ""@,
    );
    pattern::substituted(
        r"(?s)<(?:[A-Za-z0-9_]+:)?conditionalFormatting\b[^>]*>.*?</(?:[A-Za-z0-9_]+:)?conditionalFormatting>"@,
        c,
        ""@,
    )
}

pub fn strip_sheet_object_nodes(s: &str) -> (r: String)
    ensures
        r@ == rules_stripped(s@),
{
    let a = pattern::substitute(r"(?s)<(?:[A-Za-z0-9_]+:)?autoFilter\b[^>]*/>", s, "");
    let b = pattern::substitute(
        r"(?s)<(?:[A-Za-z0-9_]+:)?autoFilter\b[^>]*>.*?</(?:[A-Za-z0-9_]+:)?autoFilter>",
        &a,
        "",
    );
    let c = pattern::substitute(
        r"(?s)<(?:[A-Za-z0-9_]+:)?dataValidations\b[^>]*>.*?</(?:[A-Za-z0-9_]+:)?dataValidations>",
        &b,
        "",
    );
    pattern::substitute(
        r"(?s)<(?:[A-Za-z0-9_]+:)?conditionalFormatting\b[^>]*>.*?</(?:[A-Za-z0-9_]+:)?conditionalFormatting>",
        &c,
        "",
    )
}

/// The filter of a sheet, from the `i`-th on.
pub open spec fn filter_element(
    prefix: Seq<char>,
    sheet: Seq<char>,
    filters: Seq<AutoFilterRule<Seq<char>>>,
    i: int,
) -> Seq<char>
    decreases filters.len() - i,
{
    if i < 0 || i >= filters.len() {
        Seq::empty()
    } else if filters[i].range.sheet == sheet {
        "<"@ + prefix + "autoFilter ref=\""@ + xml::escaped(filters[i].range.range_text())
            + "\" />"@
    } else {
        filter_element(prefix, sheet, filters, i + 1)
    }
}

fn filter_element_of(prefix: &str, sheet: &str, filters: &Vec<AutoFilterRule>) -> (r: String)
    ensures
        r@ == filter_element(prefix@, sheet@, filters.deep_view(), 0),
{
    let ghost all = filters.deep_view();
    let mut i: usize = 0;
    while i < filters.len()
        invariant
            i <= filters.len(),
            all == filters.deep_view(),
            filter_element(prefix@, sheet@, all, 0) == filter_element(
                prefix@,
                sheet@,
                all,
                i as int,
            ),
        decreases filters.len() - i,
    {
        assert(all[i as int] == filters@[i as int].deep_view());
        if text::same(&filters[i].range.sheet, sheet) {
            let mut out = "<".to_owned();
            out.append(prefix);
            out.append("autoFilter ref=\"");
            out.append(&xml::xml_escape(&filters[i].range.ref_text()));
            out.append("\" />");
            return out;
        }
        i = i + 1;
    }
    String::new()
}

/// The attribute of an operator, where there is one.
pub open spec fn operator_attr(operator: Seq<char>) -> Seq<char> {
    if operator.len() == 0 {
        Seq::empty()
    } else {
        " operator=\""@ + xml::escaped(operator) + "\""@
    }
}

fn operator_attr_of(operator: &str) -> (r: String)
    ensures
        r@ == operator_attr(operator@),
{
    if operator.is_empty() {
        String::new()
    } else {
        let mut out = " operator=\"".to_owned();
        out.append(&xml::xml_escape(operator));
        out.append("\"");
        out
    }
}

/// An element around a formula, where there is one.
pub open spec fn formula_element(prefix: Seq<char>, name: Seq<char>, formula: Seq<char>) -> Seq<char> {
    if formula.len() == 0 {
        Seq::empty()
    } else {
        cellxml::wrapped(prefix, name, xml::escaped(formula))
    }
}

fn formula_element_of(prefix: &str, name: &str, formula: &str) -> (r: String)
    ensures
        r@ == formula_element(prefix@, name@, formula@),
{
    if formula.is_empty() {
        String::new()
    } else {
        cellxml::wrap(prefix, name, &xml::xml_escape(formula))
    }
}

pub open spec fn validation_element(prefix: Seq<char>, v: DataValidationRule<Seq<char>>) -> Seq<char> {
    "<"@ + prefix + "dataValidation type=\""@ + xml::escaped(v.validation_type) + "\""@
        + operator_attr(v.operator) + " allowBlank=\""@ + (if v.allow_blank {
        "1"@
    } else {
        "0"@
    }) + "\" sqref=\""@ + xml::escaped(v.range.range_text()) + "\">"@ + formula_element(
        prefix,
        "formula1"@,
        v.formula1,
    ) + formula_element(prefix, "formula2"@, v.formula2) + "</"@ + prefix + "dataValidation>"@
}

fn validation_element_of(prefix: &str, v: &DataValidationRule) -> (r: String)
    ensures
        r@ == validation_element(prefix@, v.deep_view()),
{
    let mut out = "<".to_owned();
    out.append(prefix);
    out.append("dataValidation type=\"");
    out.append(&xml::xml_escape(&v.validation_type));
    out.append("\"");
    out.append(&operator_attr_of(&v.operator));
    out.append(" allowBlank=\"");
    if v.allow_blank {
        out.append("1");
    } else {
        out.append("0");
    }
    out.append("\" sqref=\"");
    out.append(&xml::xml_escape(&v.range.ref_text()));
    out.append("\">");
    out.append(&formula_element_of(prefix, "formula1", &v.formula1));
    out.append(&formula_element_of(prefix, "formula2", &v.formula2));
    out.append("</");
    out.append(prefix);
    out.append("dataValidation>");
    out
}

/// The elements of a sheet's validations, and how many they are.
pub open spec fn validation_elements(
    prefix: Seq<char>,
    sheet: Seq<char>,
    rules: Seq<DataValidationRule<Seq<char>>>,
) -> (Seq<char>, nat)
    decreases rules.len(),
{
    if rules.len() == 0 {
        (Seq::empty(), 0)
    } else {
        let done = validation_elements(prefix, sheet, rules.drop_last());
        if rules.last().range.sheet == sheet {
            (done.0 + validation_element(prefix, rules.last()), done.1 + 1)
        } else {
            done
        }
    }
}

fn validation_elements_of(prefix: &str, sheet: &str, rules: &Vec<DataValidationRule>) -> (r: (
    String,
    usize,
))
    ensures
        (r.0@, r.1 as nat) == validation_elements(prefix@, sheet@, rules.deep_view()),
{
    let ghost all = rules.deep_view();
    let mut out = String::new();
    let mut count: usize = 0;
    let mut i: usize = 0;
    assert(all.take(0).len() == 0);
    while i < rules.len()
        invariant
            count <= i <= rules.len(),
            all == rules.deep_view(),
            (out@, count as nat) == validation_elements(prefix@, sheet@, all.take(i as int)),
        decreases rules.len() - i,
    {
        assert(all.take(i + 1).drop_last() == all.take(i as int));
        assert(all.take(i + 1).last() == rules@[i as int].deep_view());
        if text::same(&rules[i].range.sheet, sheet) {
            out.append(&validation_element_of(prefix, &rules[i]));
            count = count + 1;
        }
        i = i + 1;
    }
    assert(all.take(all.len() as int) == all);
    (out, count)
}

pub open spec fn validations_block(
    prefix: Seq<char>,
    sheet: Seq<char>,
    rules: Seq<DataValidationRule<Seq<char>>>,
) -> Seq<char> {
    let found = validation_elements(prefix, sheet, rules);
    if found.1 == 0 {
        Seq::empty()
    } else {
        "<"@ + prefix + "dataValidations count=\""@ + text::decimal(found.1) + "\">"@ + found.0
            + "</"@ + prefix + "dataValidations>"@
    }
}

fn validations_block_of(prefix: &str, sheet: &str, rules: &Vec<DataValidationRule>) -> (r: String)
    ensures
        r@ == validations_block(prefix@, sheet@, rules.deep_view()),
{
    let (body, count) = validation_elements_of(prefix, sheet, rules);
    if count == 0 {
        return String::new();
    }
    let mut out = "<".to_owned();
    out.append(prefix);
    out.append("dataValidations count=\"");
    out.append(&text::size_text(count));
    out.append("\">");
    out.append(&body);
    out.append("</");
    out.append(prefix);
    out.append("dataValidations>");
    out
}

pub open spec fn format_element(prefix: Seq<char>, f: ConditionalFormatRule<Seq<char>>) -> Seq<char> {
    "<"@ + prefix + "conditionalFormatting sqref=\""@ + xml::escaped(f.range.range_text())
        + "\"><"@ + prefix + "cfRule type=\""@ + xml::escaped(f.rule_type) + "\" priority=\""@
        + text::decimal(f.priority as nat) + "\""@ + operator_attr(f.operator) + ">"@ + cellxml::wrapped(
        prefix,
        "formula"@,
        xml::escaped(f.formula),
    ) + "</"@ + prefix + "cfRule></"@ + prefix + "conditionalFormatting>"@
}

fn format_element_of(prefix: &str, f: &ConditionalFormatRule) -> (r: String)
    ensures
        r@ == format_element(prefix@, f.deep_view()),
{
    let mut out = "<".to_owned();
    out.append(prefix);
    out.append("conditionalFormatting sqref=\"");
    out.append(&xml::xml_escape(&f.range.ref_text()));
    out.append("\"><");
    out.append(prefix);
    out.append("cfRule type=\"");
    out.append(&xml::xml_escape(&f.rule_type));
    out.append("\" priority=\"");
    out.append(&text::size_text(f.priority));
    out.append("\"");
    out.append(&operator_attr_of(&f.operator));
    out.append(">");
    out.append(&cellxml::wrap(prefix, "formula", &xml::xml_escape(&f.formula)));
    out.append("</");
    out.append(prefix);
    out.append("cfRule></");
    out.append(prefix);
    out.append("conditionalFormatting>");
    out
}

pub open spec fn format_elements(
    prefix: Seq<char>,
    sheet: Seq<char>,
    rules: Seq<ConditionalFormatRule<Seq<char>>>,
) -> Seq<char>
    decreases rules.len(),
{
    if rules.len() == 0 {
        Seq::empty()
    } else if rules.last().range.sheet == sheet {
        format_elements(prefix, sheet, rules.drop_last()) + format_element(prefix, rules.last())
    } else {
        format_elements(prefix, sheet, rules.drop_last())
    }
}

fn format_elements_of(prefix: &str, sheet: &str, rules: &Vec<ConditionalFormatRule>) -> (r: String)
    ensures
        r@ == format_elements(prefix@, sheet@, rules.deep_view()),
{
    let ghost all = rules.deep_view();
    let mut out = String::new();
    let mut i: usize = 0;
    assert(all.take(0).len() == 0);
    while i < rules.len()
        invariant
            i <= rules.len(),
            all == rules.deep_view(),
            out@ == format_elements(prefix@, sheet@, all.take(i as int)),
        decreases rules.len() - i,
    {
        assert(all.take(i + 1).drop_last() == all.take(i as int));
        assert(all.take(i + 1).last() == rules@[i as int].deep_view());
        if text::same(&rules[i].range.sheet, sheet) {
            out.append(&format_element_of(prefix, &rules[i]));
        }
        i = i + 1;
    }
    assert(all.take(all.len() as int) == all);
    out
}

/// A sheet's document, already without rules, with the given ones behind its cells.
pub open spec fn with_rules(
    s: Seq<char>,
    nodes: Nodes,
    sheet: Seq<char>,
    validations: Seq<DataValidationRule<Seq<char>>>,
    filters: Seq<AutoFilterRule<Seq<char>>>,
    formats: Seq<ConditionalFormatRule<Seq<char>>>,
) -> Fallible<Seq<char>> {
    match xml::first_of(xml::named(nodes, "sheetData"@)) {
        None => Err(coord::value_error("object_patch: worksheet XML has no sheetData"@)),
        Some(i) => {
            let prefix = splice::node_prefix(s, nodes[i], "sheetData"@);
            match data_end(s, nodes[i]) {
                None => Err(
                    coord::value_error("object_patch: sheetData closing tag not found"@),
                ),
                Some(at) => {
                    let body = filter_element(prefix, sheet, filters, 0) + validations_block(
                        prefix,
                        sheet,
                        validations,
                    ) + format_elements(prefix, sheet, formats);
                    Ok(
                        if body.len() == 0 {
                            s
                        } else {
                            splice::inserted(s, at, body)
                        },
                    )
                },
            }
        },
    }
}

fn put_rules(
    s: String,
    nodes: &Vec<XmlNode>,
    sheet: &str,
    validations: &Vec<DataValidationRule>,
    filters: &Vec<AutoFilterRule>,
    formats: &Vec<ConditionalFormatRule>,
) -> (r: Result<String, ShadowError>)
    ensures
        coord::outcome(r) == with_rules(
            s@,
            nodes.deep_view(),
            sheet@,
            validations.deep_view(),
            filters.deep_view(),
            formats.deep_view(),
        ),
{
    let i = match xml::first_named(nodes, "sheetData") {
        Some(i) => i,
        None => return Err(coord::refuse("object_patch: worksheet XML has no sheetData")),
    };
    assert(nodes.deep_view()[i as int] == nodes@[i as int].deep_view());
    let prefix = splice::prefix_of_node(&s, &nodes[i], "sheetData");
    let at = match end_of_data(&s, &nodes[i]) {
        Some(at) => at,
        None => return Err(coord::refuse("object_patch: sheetData closing tag not found")),
    };
    let mut body = filter_element_of(&prefix, sheet, filters);
    body.append(&validations_block_of(&prefix, sheet, validations));
    body.append(&format_elements_of(&prefix, sheet, formats));
    if body.as_str().is_empty() {
        Ok(s)
    } else {
        Ok(splice::insert_at_index(&s, at, &body))
    }
}

/// A sheet's document with its rules replaced by the given ones.
pub open spec fn rules_patched(
    s: Seq<char>,
    sheet: Seq<char>,
    validations: Seq<DataValidationRule<Seq<char>>>,
    filters: Seq<AutoFilterRule<Seq<char>>>,
    formats: Seq<ConditionalFormatRule<Seq<char>>>,
) -> Fallible<Seq<char>> {
    let bare = rules_stripped(s);
    match package::nodes_of(bare) {
        Ok(nodes) => with_rules(bare, nodes, sheet, validations, filters, formats),
        Err(e) => Err(e),
    }
}

pub fn patch_sheet_objects_xml(
    s: &str,
    sheet_name: &str,
    data_validations: &Vec<DataValidationRule>,
    auto_filters: &Vec<AutoFilterRule>,
    conditional_formats: &Vec<ConditionalFormatRule>,
) -> (r: Result<String, ShadowError>)
    ensures
        coord::outcome(r) == rules_patched(
            s@,
            sheet_name@,
            data_validations.deep_view(),
            auto_filters.deep_view(),
            conditional_formats.deep_view(),
        ),
{
    let bare = strip_sheet_object_nodes(s);
    match package::read_nodes(&bare) {
        Ok(nodes) => put_rules(
            bare,
            &nodes,
            sheet_name,
            data_validations,
            auto_filters,
            conditional_formats,
        ),
        Err(e) => Err(e),
    }
}

// ----- Rows and columns that move -----

pub type Edits = Seq<StructureEdit<Seq<char>>>;

pub open spec fn all_valid(edits: Edits) -> bool {
    forall|i: int| 0 <= i < edits.len() ==> (#[trigger] edits[i]).valid()
}

/// Where a list of edits takes a cell, one after the other.
pub open spec fn key_through(k: Key<Seq<char>>, edits: Edits) -> Option<Key<Seq<char>>>
    decreases edits.len(),
{
    if edits.len() == 0 {
        Some(k)
    } else {
        match key_through(k, edits.drop_last()) {
            Some(next) => coord::key_after(next, edits.last()),
            None => None,
        }
    }
}

fn key_through_first(k: &Key, edits: &Vec<StructureEdit>, n: usize) -> (r: Option<Key>)
    requires
        all_valid(edits.deep_view()),
        n <= edits.len(),
    ensures
        r.deep_view() == key_through(k.deep_view(), edits.deep_view().take(n as int)),
    decreases n,
{
    let ghost all = edits.deep_view();
    if n == 0 {
        return Some(k.clone());
    }
    assert(all.take(n as int).drop_last() == all.take(n - 1));
    assert(all.take(n as int).last() == edits@[n - 1].deep_view());
    assert(all[n - 1].valid());
    match key_through_first(k, edits, n - 1) {
        Some(next) => coord::transform_key(&next, &edits[n - 1]),
        None => None,
    }
}

pub fn transform_key_through_edits(k: &Key, edits: &Vec<StructureEdit>) -> (r: Option<Key>)
    requires
        all_valid(edits.deep_view()),
    ensures
        r.deep_view() == key_through(k.deep_view(), edits.deep_view()),
{
    assert(edits.deep_view().take(edits.len() as int) == edits.deep_view());
    key_through_first(k, edits, edits.len())
}

/// Where a list of edits takes a row of a sheet.
pub open spec fn row_through(row: usize, sheet: Seq<char>, edits: Edits) -> Option<usize>
    decreases edits.len(),
{
    if edits.len() == 0 {
        Some(row)
    } else {
        match row_through(row, sheet, edits.drop_last()) {
            Some(next) => if edits.last().sheet == sheet && edits.last().axis
                == StructureAxis::Row {
                coord::coord_after(next, edits.last())
            } else {
                Some(next)
            },
            None => None,
        }
    }
}

fn row_through_first(row: usize, sheet: &str, edits: &Vec<StructureEdit>, n: usize) -> (r: Option<
    usize,
>)
    requires
        all_valid(edits.deep_view()),
        n <= edits.len(),
    ensures
        r == row_through(row, sheet@, edits.deep_view().take(n as int)),
    decreases n,
{
    let ghost all = edits.deep_view();
    if n == 0 {
        return Some(row);
    }
    assert(all.take(n as int).drop_last() == all.take(n - 1));
    assert(all.take(n as int).last() == edits@[n - 1].deep_view());
    assert(all[n - 1].valid());
    match row_through_first(row, sheet, edits, n - 1) {
        Some(next) => if text::same(&edits[n - 1].sheet, sheet) && edits[n - 1].axis
            == StructureAxis::Row {
            coord::transform_coord(next, &edits[n - 1])
        } else {
            Some(next)
        },
        None => None,
    }
}

pub fn transform_row_through_edits(row: usize, sheet_name: &str, edits: &Vec<StructureEdit>) -> (r:
    Option<usize>)
    requires
        all_valid(edits.deep_view()),
    ensures
        r == row_through(row, sheet_name@, edits.deep_view()),
{
    assert(edits.deep_view().take(edits.len() as int) == edits.deep_view());
    row_through_first(row, sheet_name, edits, edits.len())
}

/// A cell of a sheet goes where its row goes, whatever happens to its column.
pub proof fn law_cells_follow_their_row(k: Key<Seq<char>>, edits: Edits)
    ensures
        key_through(k, edits) matches Some(next) ==> next.sheet == k.sheet && row_through(
            k.row,
            k.sheet,
            edits,
        ) == Some(next.row),
    decreases edits.len(),
{
    if edits.len() > 0 {
        law_cells_follow_their_row(k, edits.drop_last());
    }
}

/// A cell under another name.
pub open spec fn renamed_cell(cell: Seq<char>, name: Seq<char>) -> Seq<char> {
    match splice::tag_cut(cell) {
        Some(cut) => splice::with_attr(cut.0, "r"@, name) + cut.1,
        None => cell,
    }
}

pub fn update_cell_ref_xml(cell_xml: &str, cell_ref: &str) -> (r: String)
    ensures
        r@ == renamed_cell(cell_xml@, cell_ref@),
{
    match splice::cut_tag(cell_xml) {
        Some(cut) => {
            let mut out = splice::with_xml_attr(&cut.0, "r", cell_ref);
            out.append(&cut.1);
            out
        },
        None => cell_xml.to_owned(),
    }
}

pub open spec fn larger(a: usize, b: usize) -> usize {
    if a >= b {
        a
    } else {
        b
    }
}

fn larger_of(a: usize, b: usize) -> (r: usize)
    ensures
        r == larger(a, b),
{
    if a >= b {
        a
    } else {
        b
    }
}

/// Texts with the line that each belongs to, what comes behind them, and the last row
/// and column that are used.
#[verifier::ext_equal]
pub struct Lines<T, S> {
    pub texts: T,
    pub others: S,
    pub max_row: usize,
    pub max_col: usize,
}

pub type LinesModel = Lines<Seq<(usize, Seq<char>)>, Seq<char>>;

/// The texts of lines, one after the other.
pub open spec fn line_texts(list: Seq<(usize, Seq<char>)>) -> Seq<char>
    decreases list.len(),
{
    if list.len() == 0 {
        Seq::empty()
    } else {
        line_texts(list.drop_last()) + list.last().1
    }
}

fn join_line_texts(list: &Vec<(usize, String)>) -> (r: String)
    ensures
        r@ == line_texts(list.deep_view()),
{
    let ghost all = list.deep_view();
    let mut out = String::new();
    let mut i: usize = 0;
    assert(all.take(0).len() == 0);
    while i < list.len()
        invariant
            i <= list.len(),
            all == list.deep_view(),
            out@ == line_texts(all.take(i as int)),
        decreases list.len() - i,
    {
        assert(all.take(i + 1).drop_last() == all.take(i as int));
        assert(all.take(i + 1).last() == list@[i as int].deep_view());
        out.append(&list[i].1);
        i = i + 1;
    }
    assert(all.take(all.len() as int) == all);
    out
}

/// Where the edits take the cell of a node; `None` where it is no cell with a place.
pub open spec fn moved_cell(n: NodeModel, sheet: Seq<char>, edits: Edits) -> Option<
    Option<Key<Seq<char>>>,
> {
    if n.name != "c"@ {
        None
    } else {
        match xml::attr(n, "r"@) {
            None => None,
            Some(t) => match coord::a1(t) {
                None => None,
                Some((col, row)) => Some(key_through(coord::key(sheet, row, col), edits)),
            },
        }
    }
}

fn moved_cell_of(n: &XmlNode, sheet: &str, edits: &Vec<StructureEdit>) -> (r: Option<Option<Key>>)
    requires
        all_valid(edits.deep_view()),
    ensures
        r.deep_view() == moved_cell(n.deep_view(), sheet@, edits.deep_view()),
{
    if !text::same(&n.name, "c") {
        return None;
    }
    match xml::attribute(n, "r") {
        Some(t) => match coord::parse_a1(&t) {
            Some((col, row)) => Some(
                transform_key_through_edits(&coord::key_of(sheet, row, col), edits),
            ),
            None => None,
        },
        None => None,
    }
}

/// The cells of a row where the edits take them, and its other elements as they are.
pub open spec fn moved_cells(
    s: Seq<char>,
    nodes: Nodes,
    list: Seq<int>,
    sheet: Seq<char>,
    edits: Edits,
) -> LinesModel
    decreases list.len(),
{
    if list.len() == 0 {
        Lines { texts: Seq::empty(), others: Seq::empty(), max_row: 0, max_col: 0 }
    } else {
        let done = moved_cells(s, nodes, list.drop_last(), sheet, edits);
        let n = nodes[list.last()];
        if !n.element {
            done
        } else {
            match moved_cell(n, sheet, edits) {
                None => Lines { others: done.others + splice::source(s, n), ..done },
                Some(None) => done,
                Some(Some(k)) => Lines {
                    texts: done.texts.push(
                        (k.col, renamed_cell(splice::source(s, n), coord::a1_text(k.row, k.col))),
                    ),
                    max_row: larger(done.max_row, k.row),
                    max_col: larger(done.max_col, k.col),
                    ..done
                },
            }
        }
    }
}

fn move_cells(
    s: &str,
    nodes: &Vec<XmlNode>,
    i: usize,
    sheet: &str,
    edits: &Vec<StructureEdit>,
) -> (r: Lines<Vec<(usize, String)>, String>)
    requires
        i < nodes.len(),
        all_valid(edits.deep_view()),
    ensures
        (Lines {
            texts: r.texts.deep_view(),
            others: r.others@,
            max_row: r.max_row,
            max_col: r.max_col,
        }) == moved_cells(
            s@,
            nodes.deep_view(),
            xml::children(nodes.deep_view(), i as int),
            sheet@,
            edits.deep_view(),
        ),
{
    let ghost all = nodes.deep_view();
    let list = xml::children_of(nodes, i);
    let ghost model = xml::ints(list@);
    let mut texts: Vec<(usize, String)> = Vec::new();
    let mut others = String::new();
    let mut max_row: usize = 0;
    let mut max_col: usize = 0;
    let mut n: usize = 0;
    assert(model.take(0).len() == 0);
    assert(texts.deep_view() == Seq::<(usize, Seq<char>)>::empty());
    while n < list.len()
        invariant
            n <= list.len(),
            all == nodes.deep_view(),
            model == xml::ints(list@),
            all_valid(edits.deep_view()),
            forall|k: int| 0 <= k < list@.len() ==> i < #[trigger] list@[k] < nodes.len(),
            (Lines { texts: texts.deep_view(), others: others@, max_row, max_col })
                == moved_cells(s@, all, model.take(n as int), sheet@, edits.deep_view()),
        decreases list.len() - n,
    {
        let at = list[n];
        assert(model.take(n + 1).drop_last() == model.take(n as int));
        assert(model.take(n + 1).last() == at as int);
        assert(all[at as int] == nodes@[at as int].deep_view());
        if nodes[at].element {
            match moved_cell_of(&nodes[at], sheet, edits) {
                None => {
                    others.append(&splice::source_of(s, &nodes[at]));
                },
                Some(None) => {},
                Some(Some(k)) => {
                    let cell = update_cell_ref_xml(
                        &splice::source_of(s, &nodes[at]),
                        &coord::cell_name(k.row, k.col),
                    );
                    max_row = larger_of(max_row, k.row);
                    max_col = larger_of(max_col, k.col);
                    let ghost before = texts.deep_view();
                    texts.push((k.col, cell));
                    assert(texts.deep_view() == before.push((k.col, cell@)));
                },
            }
        }
        n = n + 1;
    }
    assert(model.take(model.len() as int) == model);
    Lines { texts, others, max_row, max_col }
}

/// A row with its cells where the edits take them: its new number, its text, and the
/// last row and column that it uses. `None` where it has no number, no start tag, or no
/// place any more.
pub open spec fn moved_row(s: Seq<char>, nodes: Nodes, i: int, sheet: Seq<char>, edits: Edits) -> Option<
    (usize, Seq<char>, usize, usize),
> {
    match cellxml::row_number(nodes[i]) {
        None => None,
        Some(old) => if old == 0 {
            None
        } else {
            match row_through(old, sheet, edits) {
                None => None,
                Some(row) => match splice::tag_cut(splice::source(s, nodes[i])) {
                    None => None,
                    Some(cut) => {
                        let cells = moved_cells(s, nodes, xml::children(nodes, i), sheet, edits);
                        let end = match splice::end_tag(splice::source(s, nodes[i])) {
                            Some(t) => t,
                            None => "</"@ + splice::tag_prefix(cut.0, "row"@) + "row>"@,
                        };
                        Some(
                            (
                                row,
                                splice::opened(
                                    splice::with_attr(cut.0, "r"@, text::decimal(row as nat)),
                                ) + (line_texts(splice::in_order(cells.texts)) + cells.others)
                                    + end,
                                larger(cells.max_row, row),
                                cells.max_col,
                            ),
                        )
                    },
                },
            }
        },
    }
}

fn move_row(
    s: &str,
    nodes: &Vec<XmlNode>,
    i: usize,
    sheet: &str,
    edits: &Vec<StructureEdit>,
) -> (r: Option<(usize, String, usize, usize)>)
    requires
        i < nodes.len(),
        all_valid(edits.deep_view()),
    ensures
        r.deep_view() == moved_row(s@, nodes.deep_view(), i as int, sheet@, edits.deep_view()),
{
    assert(nodes.deep_view()[i as int] == nodes@[i as int].deep_view());
    let old = match cellxml::number_of_row(&nodes[i]) {
        Some(old) => old,
        None => return None,
    };
    if old == 0 {
        return None;
    }
    let row = match transform_row_through_edits(old, sheet, edits) {
        Some(row) => row,
        None => return None,
    };
    let whole = splice::source_of(s, &nodes[i]);
    let cut = match splice::cut_tag(&whole) {
        Some(cut) => cut,
        None => return None,
    };
    let cells = move_cells(s, nodes, i, sheet, edits);
    let end = match splice::end_tag_of(&whole) {
        Some(t) => t,
        None => {
            let mut t = "</".to_owned();
            t.append(&splice::element_tag_prefix(&cut.0, "row"));
            t.append("row>");
            t
        },
    };
    let mut body = join_line_texts(&splice::sort_by_number(cells.texts));
    body.append(&cells.others);
    let mut out = splice::normalize_open_tag(
        &splice::with_xml_attr(&cut.0, "r", &text::size_text(row)),
    );
    out.append(&body);
    out.append(&end);
    Some((row, out, larger_of(cells.max_row, row), cells.max_col))
}

/// The rows of a sheet where the edits take them.
pub open spec fn moved_rows(s: Seq<char>, nodes: Nodes, list: Seq<int>, sheet: Seq<char>, edits: Edits) -> (
    Seq<(usize, Seq<char>)>,
    usize,
    usize,
)
    decreases list.len(),
{
    if list.len() == 0 {
        (Seq::empty(), 0, 0)
    } else {
        let done = moved_rows(s, nodes, list.drop_last(), sheet, edits);
        match moved_row(s, nodes, list.last(), sheet, edits) {
            Some((row, t, max_row, max_col)) => (
                done.0.push((row, t)),
                larger(done.1, max_row),
                larger(done.2, max_col),
            ),
            None => done,
        }
    }
}

fn move_rows(
    s: &str,
    nodes: &Vec<XmlNode>,
    list: &Vec<usize>,
    sheet: &str,
    edits: &Vec<StructureEdit>,
) -> (r: (Vec<(usize, String)>, usize, usize))
    requires
        all_valid(edits.deep_view()),
        forall|k: int| 0 <= k < list@.len() ==> #[trigger] list@[k] < nodes.len(),
    ensures
        r.deep_view() == moved_rows(
            s@,
            nodes.deep_view(),
            xml::ints(list@),
            sheet@,
            edits.deep_view(),
        ),
{
    let ghost model = xml::ints(list@);
    let mut rows: Vec<(usize, String)> = Vec::new();
    let mut max_row: usize = 0;
    let mut max_col: usize = 0;
    let mut n: usize = 0;
    assert(model.take(0).len() == 0);
    assert(rows.deep_view() == Seq::<(usize, Seq<char>)>::empty());
    while n < list.len()
        invariant
            n <= list.len(),
            model == xml::ints(list@),
            all_valid(edits.deep_view()),
            forall|k: int| 0 <= k < list@.len() ==> #[trigger] list@[k] < nodes.len(),
            (rows.deep_view(), max_row, max_col) == moved_rows(
                s@,
                nodes.deep_view(),
                model.take(n as int),
                sheet@,
                edits.deep_view(),
            ),
        decreases list.len() - n,
    {
        let at = list[n];
        assert(model.take(n + 1).drop_last() == model.take(n as int));
        assert(model.take(n + 1).last() == at as int);
        match move_row(s, nodes, at, sheet, edits) {
            Some((row, t, last_row, last_col)) => {
                let ghost before = rows.deep_view();
                rows.push((row, t));
                assert(rows.deep_view() == before.push((row, t@)));
                max_row = larger_of(max_row, last_row);
                max_col = larger_of(max_col, last_col);
            },
            None => {},
        }
        n = n + 1;
    }
    assert(model.take(model.len() as int) == model);
    (rows, max_row, max_col)
}

/// A sheet's document with the dimension that it declares set to what is used.
pub open spec fn dimensioned(s: Seq<char>, max_row: usize, max_col: usize) -> Seq<char> {
    if max_row == 0 || max_col == 0 {
        s
    } else {
        match pattern::first_cut(
            "<(?:[A-Za-z0-9_]+:)?dimension\\b[^>]*\\bref=\"[^\"]*\"[^>]*/?>"@,
            s,
        ) {
            Some(cut) => cut.0 + splice::with_attr(
                cut.1,
                "ref"@,
                "A1:"@ + coord::a1_text(max_row, max_col),
            ) + text::slice(s, (cut.0.len() + cut.1.len()) as int, s.len() as int),
            None => s,
        }
    }
}

pub fn patch_dimension_ref(s: &str, max_row: usize, max_col: usize) -> (r: String)
    ensures
        r@ == dimensioned(s@, max_row, max_col),
{
    if max_row == 0 || max_col == 0 {
        return s.to_owned();
    }
    let mut value = "A1:".to_owned();
    value.append(&coord::cell_name(max_row, max_col));
    match pattern::cut_first(
        "<(?:[A-Za-z0-9_]+:)?dimension\\b[^>]*\\bref=\"[^\"]*\"[^>]*/?>",
        s,
    ) {
        Some(cut) => {
            let all = text::chars_of(s);
            assert(cut.0@.len() + cut.1@.len() <= all.len());
            let behind = text::length(&cut.0) + text::length(&cut.1);
            let mut out = cut.0;
            out.append(&splice::with_xml_attr(&cut.1, "ref", &value));
            out.append(&text::piece(&all, behind, all.len()));
            out
        },
        None => s.to_owned(),
    }
}

/// A sheet's document, already read, after a list of edits.
pub open spec fn sheet_moved(s: Seq<char>, nodes: Nodes, sheet: Seq<char>, edits: Edits) -> Fallible<
    Seq<char>,
> {
    match xml::first_of(xml::named(nodes, "sheetData"@)) {
        None => Err(coord::value_error("structure_patch: worksheet has no sheetData"@)),
        Some(i) => match splice::tag_cut(splice::source(s, nodes[i])) {
            None => Err(coord::value_error("structure_patch: malformed sheetData"@)),
            Some(cut) => match splice::end_tag(splice::source(s, nodes[i])) {
                None => Err(
                    coord::value_error("structure_patch: sheetData closing tag missing"@),
                ),
                Some(end) => {
                    let found = moved_rows(
                        s,
                        nodes,
                        package::with_name(nodes, xml::children(nodes, i), "row"@),
                        sheet,
                        edits,
                    );
                    Ok(
                        dimensioned(
                            splice::replaced_at(
                                s,
                                nodes[i].start as int,
                                nodes[i].end as int,
                                cut.0 + line_texts(splice::in_order(found.0)) + end,
                            ),
                            found.1,
                            found.2,
                        ),
                    )
                },
            },
        },
    }
}

pub fn move_sheet(s: &str, nodes: &Vec<XmlNode>, sheet: &str, edits: &Vec<StructureEdit>) -> (r:
    Result<String, ShadowError>)
    requires
        all_valid(edits.deep_view()),
    ensures
        coord::outcome(r) == sheet_moved(s@, nodes.deep_view(), sheet@, edits.deep_view()),
{
    let i = match xml::first_named(nodes, "sheetData") {
        Some(i) => i,
        None => return Err(coord::refuse("structure_patch: worksheet has no sheetData")),
    };
    assert(nodes.deep_view()[i as int] == nodes@[i as int].deep_view());
    let whole = splice::source_of(s, &nodes[i]);
    let cut = match splice::cut_tag(&whole) {
        Some(cut) => cut,
        None => return Err(coord::refuse("structure_patch: malformed sheetData")),
    };
    let end = match splice::end_tag_of(&whole) {
        Some(end) => end,
        None => return Err(coord::refuse("structure_patch: sheetData closing tag missing")),
    };
    let list = package::children_named(nodes, i, "row");
    let (rows, max_row, max_col) = move_rows(s, nodes, &list, sheet, edits);
    let mut data = cut.0;
    data.append(&join_line_texts(&splice::sort_by_number(rows)));
    data.append(&end);
    let patched = splice::replace_at(s, nodes[i].start, nodes[i].end, &data);
    Ok(patch_dimension_ref(&patched, max_row, max_col))
}

pub open spec fn structure_patched(s: Seq<char>, sheet: Seq<char>, edits: Edits) -> Fallible<Seq<char>> {
    match package::nodes_of(s) {
        Ok(nodes) => sheet_moved(s, nodes, sheet, edits),
        Err(e) => Err(e),
    }
}

/// Moves the rows and cells of a sheet's document where a list of edits takes them.
pub fn patch_worksheet_structure_xml(s: &str, sheet_name: &str, edits: &Vec<StructureEdit>) -> (r:
    Result<String, ShadowError>)
    requires
        all_valid(edits.deep_view()),
    ensures
        coord::outcome(r) == structure_patched(s@, sheet_name@, edits.deep_view()),
{
    match package::read_nodes(s) {
        Ok(nodes) => move_sheet(s, &nodes, sheet_name, edits),
        Err(e) => Err(e),
    }
}

// ----- Tables -----

/// A table's document with the range of the table set.
pub open spec fn table_patched(s: Seq<char>, t: TableModel) -> Fallible<Seq<char>> {
    match package::nodes_of(s) {
        Err(e) => Err(e),
        Ok(nodes) => match xml::first_of(xml::named(nodes, "table"@)) {
            None => Err(coord::value_error("table_patch: table node missing"@)),
            Some(i) => match splice::tag_cut(splice::source(s, nodes[i])) {
                None => Err(coord::value_error("table_patch: malformed table start tag"@)),
                Some(cut) => Ok(
                    splice::replaced_at(
                        s,
                        nodes[i].start as int,
                        nodes[i].start + cut.0.len(),
                        splice::with_attr(cut.0, "ref"@, objects::table_text(t)),
                    ),
                ),
            },
        },
    }
}

pub fn patch_table_xml(s: &str, table: &TableInfo) -> (r: Result<String, ShadowError>)
    ensures
        coord::outcome(r) == table_patched(s@, table.deep_view()),
{
    let nodes = match package::read_nodes(s) {
        Ok(nodes) => nodes,
        Err(e) => return Err(e),
    };
    let i = match xml::first_named(&nodes, "table") {
        Some(i) => i,
        None => return Err(coord::refuse("table_patch: table node missing")),
    };
    assert(nodes.deep_view()[i as int] == nodes@[i as int].deep_view());
    let whole = splice::source_of(s, &nodes[i]);
    match splice::cut_tag(&whole) {
        Some(cut) => {
            proof {
                text::lemma_find_bounds(whole@, ">"@, 0);
                reveal_strlit(">");
            }
            let all = text::length(s);
            assert(cut.0@.len() <= whole@.len());
            assert(whole@.len() > 0);
            assert(nodes[i as int].start + cut.0@.len() <= all);
            let tag = splice::with_xml_attr(&cut.0, "ref", &objects::table_ref(table));
            let end = nodes[i].start + text::length(&cut.0);
            Ok(splice::replace_at(s, nodes[i].start, end, &tag))
        },
        None => Err(coord::refuse("table_patch: malformed table start tag")),
    }
}

} // verus!
