//! What the parts of a sheet hold: its cells, and the tables, comments and rules on it.

use crate::coord;
use crate::coord::ShadowError;
use crate::deps;
use crate::objects;
use crate::objects::{TableInfo, TableModel};
use crate::package;
use crate::package::Fallible;
use crate::records::{
    AutoFilterRule, CellComment, ConditionalFormatRule, DataValidationRule, ObjectRange,
};
use crate::text;
use crate::xml;
use crate::xml::{Nodes, XmlNode};
use vstd::prelude::*;
use vstd::string::*;

verus! {

// ----- Ranges -----

/// The first range of a list of ranges; a single cell is a range too.
pub open spec fn object_range(sheet: Seq<char>, value: Seq<char>) -> Option<ObjectRange<Seq<char>>> {
    if text::words(value).len() == 0 {
        None
    } else {
        let first = text::words(value)[0];
        let (left, right) = match text::cut(first, ":"@) {
            Some(sides) => sides,
            None => (first, first),
        };
        match (coord::a1(left), coord::a1(right)) {
            (Some((c1, r1)), Some((c2, r2))) => Some(
                ObjectRange {
                    sheet,
                    start_row: deps::low(r1, r2),
                    start_col: deps::low(c1, c2),
                    end_row: deps::high(r1, r2),
                    end_col: deps::high(c1, c2),
                },
            ),
            _ => None,
        }
    }
}

/// A range whose corners are in order reads back from its text.
pub proof fn law_ranges_read_back(range: ObjectRange<Seq<char>>)
    requires
        range.start_row <= range.end_row,
        range.start_col <= range.end_col,
    ensures
        object_range(range.sheet, range.range_text()) == Some(range),
{
    let a = coord::a1_text(range.start_row, range.start_col);
    let b = coord::a1_text(range.end_row, range.end_col);
    let s = range.range_text();
    reveal_strlit(":");
    coord::lemma_a1_plain(range.start_row, range.start_col);
    coord::lemma_a1_plain(range.end_row, range.end_col);
    assert forall|i: int| 0 <= i < s.len() implies !text::is_white(#[trigger] s[i]) by {
        if i < a.len() {
            assert(text::is_alnum(a[i]));
        } else if i > a.len() {
            assert(text::is_alnum(b[i - a.len() - 1]));
        }
    }
    assert forall|i: int| 0 <= i < a.len() implies #[trigger] a[i] != ":"@[0] by {
        assert(text::is_alnum(a[i]));
    }
    text::lemma_one_word(s);
    text::lemma_cut_at_sign(a, ":"@, b);
    coord::law_a1_reads_back(range.start_row, range.start_col);
    coord::law_a1_reads_back(range.end_row, range.end_col);
}

pub fn parse_object_range(sheet_name: &str, value: &str) -> (r: Option<ObjectRange>)
    ensures
        r.deep_view() == object_range(sheet_name@, value@),
{
    let words = text::split_words(value);
    assert(words.deep_view().len() == words.len());
    if words.len() == 0 {
        return None;
    }
    assert(words.deep_view()[0] == words@[0]@);
    let first = words[0].clone();
    let (left, right) = match text::split_once(&first, ":") {
        Some(sides) => sides,
        None => (first.clone(), first),
    };
    match (coord::parse_a1(&left), coord::parse_a1(&right)) {
        (Some((c1, r1)), Some((c2, r2))) => Some(
            ObjectRange {
                sheet: sheet_name.to_owned(),
                start_row: deps::lower_of(r1, r2),
                start_col: deps::lower_of(c1, c2),
                end_row: deps::higher_of(r1, r2),
                end_col: deps::higher_of(c1, c2),
            },
        ),
        _ => None,
    }
}

// ----- Comments -----

pub open spec fn comment_at(nodes: Nodes, i: int, sheet: Seq<char>) -> Option<CellComment<Seq<char>>> {
    match xml::attr(nodes[i], "ref"@) {
        Some(t) => match coord::a1(t) {
            Some((col, row)) => Some(
                CellComment {
                    key: coord::key(sheet, row, col),
                    text: xml::texts_joined(nodes, xml::named_in(nodes, i, "t"@)),
                },
            ),
            None => None,
        },
        None => None,
    }
}

fn comment_of(nodes: &Vec<XmlNode>, i: usize, sheet: &str) -> (r: Option<CellComment>)
    requires
        i < nodes.len(),
    ensures
        r.deep_view() == comment_at(nodes.deep_view(), i as int, sheet@),
{
    assert(nodes.deep_view()[i as int] == nodes@[i as int].deep_view());
    match xml::attribute(&nodes[i], "ref") {
        Some(t) => match coord::parse_a1(&t) {
            Some((col, row)) => Some(
                CellComment {
                    key: coord::key_of(sheet, row, col),
                    text: xml::join_texts_in(nodes, i, "t"),
                },
            ),
            None => None,
        },
        None => None,
    }
}

/// The comments of a document of comments.
pub open spec fn comments(nodes: Nodes, list: Seq<int>, sheet: Seq<char>) -> Seq<CellComment<Seq<char>>>
    decreases list.len(),
{
    if list.len() == 0 {
        Seq::empty()
    } else {
        objects::pushed(
            comments(nodes, list.drop_last(), sheet),
            comment_at(nodes, list.last(), sheet),
        )
    }
}

pub fn comments_of(nodes: &Vec<XmlNode>, sheet: &str) -> (r: Vec<CellComment>)
    ensures
        r.deep_view() == comments(
            nodes.deep_view(),
            xml::named(nodes.deep_view(), "comment"@), sheet@,
        ),
{
    let ghost all = nodes.deep_view();
    let list = xml::all_named(nodes, "comment");
    let ghost model = xml::ints(list@);
    let mut out: Vec<CellComment> = Vec::new();
    assert(out.deep_view() == Seq::<CellComment<Seq<char>>>::empty());
    let mut i: usize = 0;
    while i < list.len()
        invariant
            i <= list.len(),
            all == nodes.deep_view(),
            model == xml::ints(list@),
            forall|k: int| 0 <= k < list@.len() ==> #[trigger] list@[k] < nodes.len(),
            out.deep_view() == comments(all, model.take(i as int), sheet@),
        decreases list.len() - i,
    {
        let at = list[i];
        assert(model.take(i + 1).drop_last() == model.take(i as int));
        assert(model.take(i + 1).last() == at as int);
        objects::push_some(&mut out, comment_of(nodes, at, sheet));
        i = i + 1;
    }
    assert(model.take(model.len() as int) == model);
    out
}

pub open spec fn comments_in(sheet: Seq<char>, s: Seq<char>) -> Fallible<
    Seq<CellComment<Seq<char>>>,
> {
    match package::nodes_of(s) {
        Ok(nodes) => Ok(comments(nodes, xml::named(nodes, "comment"@), sheet)),
        Err(e) => Err(e),
    }
}

pub open spec fn comments_view(r: Result<Vec<CellComment>, ShadowError>) -> Fallible<
    Seq<CellComment<Seq<char>>>,
> {
    match r {
        Ok(v) => Ok(v.deep_view()),
        Err(e) => Err(e.deep_view()),
    }
}

pub fn parse_comments_xml(sheet_name: &str, s: &str) -> (r: Result<Vec<CellComment>, ShadowError>)
    ensures
        comments_view(r) == comments_in(sheet_name@, s@),
{
    match package::read_nodes(s) {
        Ok(nodes) => Ok(comments_of(&nodes, sheet_name)),
        Err(e) => Err(e),
    }
}

// ----- Rules on ranges -----

pub open spec fn validation_at(nodes: Nodes, i: int, sheet: Seq<char>) -> Option<
    DataValidationRule<Seq<char>>,
> {
    let n = nodes[i];
    match xml::attr(n, "sqref"@) {
        Some(t) => match object_range(sheet, t) {
            Some(range) => Some(
                DataValidationRule {
                    range,
                    validation_type: package::or_text(xml::attr(n, "type"@), "list"@),
                    operator: xml::attr_or_empty(n, "operator"@),
                    formula1: xml::text_of_child(nodes, i, "formula1"@),
                    formula2: xml::text_of_child(nodes, i, "formula2"@),
                    allow_blank: match xml::attr(n, "allowBlank"@) {
                        Some(b) => package::is_true(b),
                        None => true,
                    },
                },
            ),
            None => None,
        },
        None => None,
    }
}

fn validation_of(nodes: &Vec<XmlNode>, i: usize, sheet: &str) -> (r: Option<DataValidationRule>)
    requires
        i < nodes.len(),
    ensures
        r.deep_view() == validation_at(nodes.deep_view(), i as int, sheet@),
{
    assert(nodes.deep_view()[i as int] == nodes@[i as int].deep_view());
    let n = &nodes[i];
    let range = match xml::attribute(n, "sqref") {
        Some(t) => match parse_object_range(sheet, &t) {
            Some(range) => range,
            None => return None,
        },
        None => return None,
    };
    let allow_blank = match xml::attribute(n, "allowBlank") {
        Some(b) => package::xml_bool_attr_is_true(&b),
        None => true,
    };
    Some(
        DataValidationRule {
            range,
            validation_type: package::text_or(xml::attribute(n, "type"), "list"),
            operator: xml::attribute_or_empty(n, "operator"),
            formula1: xml::child_text(nodes, i, "formula1"),
            formula2: xml::child_text(nodes, i, "formula2"),
            allow_blank,
        },
    )
}

/// The data validations of a sheet's document.
pub open spec fn validations(nodes: Nodes, list: Seq<int>, sheet: Seq<char>) -> Seq<DataValidationRule<Seq<char>>>
    decreases list.len(),
{
    if list.len() == 0 {
        Seq::empty()
    } else {
        objects::pushed(
            validations(nodes, list.drop_last(), sheet),
            validation_at(nodes, list.last(), sheet),
        )
    }
}

pub fn validations_of(nodes: &Vec<XmlNode>, sheet: &str) -> (r: Vec<DataValidationRule>)
    ensures
        r.deep_view() == validations(
            nodes.deep_view(),
            xml::named(nodes.deep_view(), "dataValidation"@), sheet@,
        ),
{
    let ghost all = nodes.deep_view();
    let list = xml::all_named(nodes, "dataValidation");
    let ghost model = xml::ints(list@);
    let mut out: Vec<DataValidationRule> = Vec::new();
    assert(out.deep_view() == Seq::<DataValidationRule<Seq<char>>>::empty());
    let mut i: usize = 0;
    while i < list.len()
        invariant
            i <= list.len(),
            all == nodes.deep_view(),
            model == xml::ints(list@),
            forall|k: int| 0 <= k < list@.len() ==> #[trigger] list@[k] < nodes.len(),
            out.deep_view() == validations(all, model.take(i as int), sheet@),
        decreases list.len() - i,
    {
        let at = list[i];
        assert(model.take(i + 1).drop_last() == model.take(i as int));
        assert(model.take(i + 1).last() == at as int);
        objects::push_some(&mut out, validation_of(nodes, at, sheet));
        i = i + 1;
    }
    assert(model.take(model.len() as int) == model);
    out
}

/// The filter of a sheet's document: that of the first element of its name, where it has a
/// range.
pub open spec fn filter_in(nodes: Nodes, sheet: Seq<char>) -> Option<AutoFilterRule<Seq<char>>> {
    match xml::first_of(xml::named(nodes, "autoFilter"@)) {
        Some(k) => match xml::attr(nodes[k], "ref"@) {
            Some(t) => match object_range(sheet, t) {
                Some(range) => Some(AutoFilterRule { range }),
                None => None,
            },
            None => None,
        },
        None => None,
    }
}

pub fn filter_of(nodes: &Vec<XmlNode>, sheet: &str) -> (r: Option<AutoFilterRule>)
    ensures
        r.deep_view() == filter_in(nodes.deep_view(), sheet@),
{
    match xml::first_named(nodes, "autoFilter") {
        Some(k) => {
            assert(nodes.deep_view()[k as int] == nodes@[k as int].deep_view());
            match xml::attribute(&nodes[k], "ref") {
                Some(t) => match parse_object_range(sheet, &t) {
                    Some(range) => Some(AutoFilterRule { range }),
                    None => None,
                },
                None => None,
            }
        },
        None => None,
    }
}

/// A rule of conditional formatting over a range.
pub open spec fn format_rule(nodes: Nodes, i: int, range: ObjectRange<Seq<char>>) -> ConditionalFormatRule<
    Seq<char>,
> {
    let n = nodes[i];
    ConditionalFormatRule {
        range,
        rule_type: package::or_text(xml::attr(n, "type"@), "cellIs"@),
        operator: xml::attr_or_empty(n, "operator"@),
        formula: xml::text_of_child(nodes, i, "formula"@),
        priority: deps::or_size(deps::row_of(xml::attr(n, "priority"@)), 1),
    }
}

fn format_rule_of(nodes: &Vec<XmlNode>, i: usize, range: &ObjectRange) -> (r:
    ConditionalFormatRule)
    requires
        i < nodes.len(),
    ensures
        r.deep_view() == format_rule(nodes.deep_view(), i as int, range.deep_view()),
{
    assert(nodes.deep_view()[i as int] == nodes@[i as int].deep_view());
    let n = &nodes[i];
    let priority = match xml::attribute(n, "priority") {
        Some(t) => match text::parse_size(&t) {
            Some(p) => p,
            None => 1,
        },
        None => 1,
    };
    ConditionalFormatRule {
        range: range.clone(),
        rule_type: package::text_or(xml::attribute(n, "type"), "cellIs"),
        operator: xml::attribute_or_empty(n, "operator"),
        formula: xml::child_text(nodes, i, "formula"),
        priority,
    }
}

/// The rules of one element of conditional formatting.
pub open spec fn format_rules(nodes: Nodes, i: int, sheet: Seq<char>) -> Seq<
    ConditionalFormatRule<Seq<char>>,
> {
    match xml::attr(nodes[i], "sqref"@) {
        Some(t) => match object_range(sheet, t) {
            Some(range) => {
                let rules = package::with_name(nodes, xml::children(nodes, i), "cfRule"@);
                Seq::new(rules.len(), |k: int| format_rule(nodes, rules[k], range))
            },
            None => Seq::empty(),
        },
        None => Seq::empty(),
    }
}

fn format_rules_of(nodes: &Vec<XmlNode>, i: usize, sheet: &str) -> (r: Vec<ConditionalFormatRule>)
    requires
        i < nodes.len(),
    ensures
        r.deep_view() == format_rules(nodes.deep_view(), i as int, sheet@),
{
    assert(nodes.deep_view()[i as int] == nodes@[i as int].deep_view());
    let ghost expected = format_rules(nodes.deep_view(), i as int, sheet@);
    let mut out: Vec<ConditionalFormatRule> = Vec::new();
    assert(out.deep_view() == Seq::<ConditionalFormatRule<Seq<char>>>::empty());
    let range = match xml::attribute(&nodes[i], "sqref") {
        Some(t) => match parse_object_range(sheet, &t) {
            Some(range) => range,
            None => return out,
        },
        None => return out,
    };
    let rules = package::children_named(nodes, i, "cfRule");
    let ghost model = xml::ints(rules@);
    let mut k: usize = 0;
    assert(expected.take(0) == Seq::<ConditionalFormatRule<Seq<char>>>::empty());
    while k < rules.len()
        invariant
            k <= rules.len(),
            model == xml::ints(rules@),
            expected.len() == rules.len(),
            forall|n: int| 0 <= n < rules@.len() ==> i < #[trigger] rules@[n] < nodes.len(),
            forall|n: int|
                0 <= n < expected.len() ==> #[trigger] expected[n] == format_rule(
                    nodes.deep_view(),
                    model[n],
                    range.deep_view(),
                ),
            out.deep_view() == expected.take(k as int),
        decreases rules.len() - k,
    {
        let at = rules[k];
        assert(model[k as int] == at as int);
        let ghost done = out.deep_view();
        let rule = format_rule_of(nodes, at, &range);
        out.push(rule);
        assert(out.deep_view() == done.push(rule.deep_view()));
        assert(expected.take(k + 1) == expected.take(k as int).push(expected[k as int]));
        k = k + 1;
    }
    assert(expected.take(expected.len() as int) == expected);
    out
}

/// The conditional formats of a sheet's document.
pub open spec fn formats(nodes: Nodes, list: Seq<int>, sheet: Seq<char>) -> Seq<
    ConditionalFormatRule<Seq<char>>,
>
    decreases list.len(),
{
    if list.len() == 0 {
        Seq::empty()
    } else {
        formats(nodes, list.drop_last(), sheet) + format_rules(nodes, list.last(), sheet)
    }
}

pub fn formats_of(nodes: &Vec<XmlNode>, sheet: &str) -> (r: Vec<ConditionalFormatRule>)
    ensures
        r.deep_view() == formats(
            nodes.deep_view(),
            xml::named(nodes.deep_view(), "conditionalFormatting"@),
            sheet@,
        ),
{
    let ghost all = nodes.deep_view();
    let list = xml::all_named(nodes, "conditionalFormatting");
    let ghost model = xml::ints(list@);
    let mut out: Vec<ConditionalFormatRule> = Vec::new();
    assert(out.deep_view() == Seq::<ConditionalFormatRule<Seq<char>>>::empty());
    let mut i: usize = 0;
    while i < list.len()
        invariant
            i <= list.len(),
            all == nodes.deep_view(),
            model == xml::ints(list@),
            forall|k: int| 0 <= k < list@.len() ==> #[trigger] list@[k] < nodes.len(),
            out.deep_view() == formats(all, model.take(i as int), sheet@),
        decreases list.len() - i,
    {
        let at = list[i];
        assert(model.take(i + 1).drop_last() == model.take(i as int));
        assert(model.take(i + 1).last() == at as int);
        let ghost done = out.deep_view();
        let mut more = format_rules_of(nodes, at, sheet);
        let ghost added = more.deep_view();
        out.append(&mut more);
        assert(out.deep_view() == done + added);
        i = i + 1;
    }
    assert(model.take(model.len() as int) == model);
    out
}

/// The rules on a sheet.
#[verifier::ext_equal]
pub struct SheetRules<V, F, C> {
    pub validations: V,
    pub filter: F,
    pub formats: C,
}

pub type SheetRulesModel = SheetRules<
    Seq<DataValidationRule<Seq<char>>>,
    Option<AutoFilterRule<Seq<char>>>,
    Seq<ConditionalFormatRule<Seq<char>>>,
>;

pub open spec fn sheet_rules(sheet: Seq<char>, s: Seq<char>) -> Fallible<SheetRulesModel> {
    match package::nodes_of(s) {
        Ok(nodes) => Ok(
            SheetRules {
                validations: validations(nodes, xml::named(nodes, "dataValidation"@), sheet),
                filter: filter_in(nodes, sheet),
                formats: formats(nodes, xml::named(nodes, "conditionalFormatting"@), sheet),
            },
        ),
        Err(e) => Err(e),
    }
}

pub type SheetRulesOut = SheetRules<
    Vec<DataValidationRule>,
    Option<AutoFilterRule>,
    Vec<ConditionalFormatRule>,
>;

pub open spec fn rules_view(r: Result<SheetRulesOut, ShadowError>) -> Fallible<SheetRulesModel> {
    match r {
        Ok(v) => Ok(
            SheetRules {
                validations: v.validations.deep_view(),
                filter: v.filter.deep_view(),
                formats: v.formats.deep_view(),
            },
        ),
        Err(e) => Err(e.deep_view()),
    }
}

pub fn parse_sheet_objects(sheet_name: &str, s: &str) -> (r: Result<SheetRulesOut, ShadowError>)
    ensures
        rules_view(r) == sheet_rules(sheet_name@, s@),
{
    match package::read_nodes(s) {
        Ok(nodes) => Ok(
            SheetRules {
                validations: validations_of(&nodes, sheet_name),
                filter: filter_of(&nodes, sheet_name),
                formats: formats_of(&nodes, sheet_name),
            },
        ),
        Err(e) => Err(e),
    }
}

// ----- Tables -----

/// The names of the columns of a table's document.
pub open spec fn column_names(nodes: Nodes, list: Seq<int>) -> Seq<Seq<char>>
    decreases list.len(),
{
    if list.len() == 0 {
        Seq::empty()
    } else {
        objects::pushed(
            column_names(nodes, list.drop_last()),
            xml::attr(nodes[list.last()], "name"@),
        )
    }
}

fn column_names_of(nodes: &Vec<XmlNode>) -> (r: Vec<String>)
    ensures
        r.deep_view() == column_names(
            nodes.deep_view(),
            xml::named(nodes.deep_view(), "tableColumn"@),
        ),
{
    let ghost all = nodes.deep_view();
    let list = xml::all_named(nodes, "tableColumn");
    let ghost model = xml::ints(list@);
    let mut out: Vec<String> = Vec::new();
    assert(out.deep_view() == Seq::<Seq<char>>::empty());
    let mut i: usize = 0;
    while i < list.len()
        invariant
            i <= list.len(),
            all == nodes.deep_view(),
            model == xml::ints(list@),
            forall|k: int| 0 <= k < list@.len() ==> #[trigger] list@[k] < nodes.len(),
            out.deep_view() == column_names(all, model.take(i as int)),
        decreases list.len() - i,
    {
        let at = list[i];
        assert(model.take(i + 1).drop_last() == model.take(i as int));
        assert(model.take(i + 1).last() == at as int);
        assert(all[at as int] == nodes@[at as int].deep_view());
        objects::push_some(&mut out, xml::attribute(&nodes[at], "name"));
        i = i + 1;
    }
    assert(model.take(model.len() as int) == model);
    out
}

/// The table of a table's document, where it has a name and a range. Its last row is a
/// totals row where the document says so.
pub open spec fn table_in(nodes: Nodes, sheet: Seq<char>, path: Seq<char>) -> Option<TableModel> {
    match xml::first_of(xml::named(nodes, "table"@)) {
        Some(k) => {
            let n = nodes[k];
            let name = crate::formula::either(xml::attr(n, "displayName"@), xml::attr(n, "name"@));
            let ends = match xml::attr(n, "ref"@) {
                Some(t) => text::cut(t, ":"@),
                None => None,
            };
            match (name, ends) {
                (Some(name), Some((left, right))) => match (coord::a1(left), coord::a1(right)) {
                    (Some((c1, r1)), Some((c2, r2))) => {
                        let count = deps::or_size(
                            deps::row_of(xml::attr(n, "totalsRowCount"@)),
                            0,
                        );
                        let shown = match xml::attr(n, "totalsRowShown"@) {
                            Some(b) => package::is_true(b),
                            None => false,
                        };
                        Some(
                            TableInfo {
                                name,
                                path,
                                sheet,
                                start_row: deps::low(r1, r2),
                                end_row: deps::high(r1, r2),
                                start_col: deps::low(c1, c2),
                                end_col: deps::high(c1, c2),
                                totals_row: if count > 0 || shown {
                                    Some(deps::high(r1, r2))
                                } else {
                                    None
                                },
                                columns: column_names(nodes, xml::named(nodes, "tableColumn"@)),
                            },
                        )
                    },
                    _ => None,
                },
                _ => None,
            }
        },
        None => None,
    }
}

pub fn table_of(nodes: &Vec<XmlNode>, sheet: &str, path: &str) -> (r: Option<TableInfo>)
    ensures
        r.deep_view() == table_in(nodes.deep_view(), sheet@, path@),
{
    let k = match xml::first_named(nodes, "table") {
        Some(k) => k,
        None => return None,
    };
    assert(nodes.deep_view()[k as int] == nodes@[k as int].deep_view());
    let n = &nodes[k];
    let name = crate::formula::either_of(
        xml::attribute(n, "displayName"),
        xml::attribute(n, "name"),
    );
    let ends = match xml::attribute(n, "ref") {
        Some(t) => text::split_once(&t, ":"),
        None => None,
    };
    match (name, ends) {
        (Some(name), Some((left, right))) => match (
            coord::parse_a1(&left),
            coord::parse_a1(&right),
        ) {
            (Some((c1, r1)), Some((c2, r2))) => {
                let count = match xml::attribute(n, "totalsRowCount") {
                    Some(t) => match text::parse_size(&t) {
                        Some(c) => c,
                        None => 0,
                    },
                    None => 0,
                };
                let shown = match xml::attribute(n, "totalsRowShown") {
                    Some(b) => package::xml_bool_attr_is_true(&b),
                    None => false,
                };
                let end_row = deps::higher_of(r1, r2);
                Some(
                    TableInfo {
                        name,
                        path: path.to_owned(),
                        sheet: sheet.to_owned(),
                        start_row: deps::lower_of(r1, r2),
                        end_row,
                        start_col: deps::lower_of(c1, c2),
                        end_col: deps::higher_of(c1, c2),
                        totals_row: if count > 0 || shown {
                            Some(end_row)
                        } else {
                            None
                        },
                        columns: column_names_of(nodes),
                    },
                )
            },
            _ => None,
        },
        _ => None,
    }
}

pub open spec fn table_info(sheet: Seq<char>, path: Seq<char>, s: Seq<char>) -> Option<TableModel> {
    match package::nodes_of(s) {
        Ok(nodes) => table_in(nodes, sheet, path),
        Err(_) => None,
    }
}

pub fn parse_table_info(sheet_name: &str, table_path: &str, s: &str) -> (r: Option<TableInfo>)
    ensures
        r.deep_view() == table_info(sheet_name@, table_path@, s@),
{
    match package::read_nodes(s) {
        Ok(nodes) => table_of(&nodes, sheet_name, table_path),
        Err(_) => None,
    }
}

} // verus!
