//! What requests leave behind in a workbook.

use crate::coord;
use crate::coord::Key;
use crate::diagnostics::FieldsModel;
use crate::engine;
use crate::engine::EngineModel;
use crate::entries;
use crate::highrisk::HighRiskModel;
use crate::objectops;
use crate::package::{Fallible, SheetsModel};
use crate::recalc;
use crate::recalc::{Answers, Bounds};
use crate::records::{
    AutoFilterRule, ConditionalFormatRule, DataValidationRule, DrawingObject, HighRiskObject,
    ObjectRange,
};
use crate::sheetops;
use crate::styles;
use crate::text;
use vstd::prelude::*;
use vstd::string::*;

verus! {

// ----- Fields of requests -----

/// Whether a request says a thing under a name, without space around it.
pub open spec fn says(fields: FieldsModel, name: Seq<char>, t: Seq<char>) -> bool {
    entries::get(fields, name) == Some(t) && t.len() > 0 && text::trim(t) == t
}

pub open spec fn silent(fields: FieldsModel, name: Seq<char>) -> bool {
    entries::get(fields, name) is None
}

proof fn lemma_yes_and_no()
    ensures
        styles::is_yes("true"@),
        !styles::is_yes("false"@),
        styles::is_no("false"@),
{
    reveal_strlit("true");
    reveal_strlit("false");
    reveal_strlit("1");
    reveal_strlit("yes");
    reveal_strlit("0");
    reveal_strlit("no");
    assert(text::lower("true"@) =~= "true"@);
    assert(text::lower("false"@) =~= "false"@);
    assert("false"@.len() == 5 && "true"@.len() == 4 && "1"@.len() == 1 && "yes"@.len() == 3);
}

/// A format asks for what the request says under each name, and for nothing under names that
/// it does not give.
pub proof fn law_formats_ask_for_what_is_said(fields: FieldsModel, t: Seq<char>)
    requires
        styles::intent(fields) is Ok,
    ensures
        ({
            let i = styles::intent(fields)->Ok_0;
            &&& says(fields, "bold"@, "true"@) ==> i.bold == Some(true)
            &&& says(fields, "bold"@, "false"@) ==> i.bold == Some(false)
            &&& silent(fields, "bold"@) ==> i.bold is None
            &&& says(fields, "italic"@, "true"@) ==> i.italic == Some(true)
            &&& says(fields, "italic"@, "false"@) ==> i.italic == Some(false)
            &&& silent(fields, "italic"@) ==> i.italic is None
            &&& says(fields, "wrap_text"@, "true"@) ==> i.wrap_text == Some(true)
            &&& says(fields, "wrap_text"@, "false"@) ==> i.wrap_text == Some(false)
            &&& silent(fields, "wrap_text"@) ==> i.wrap_text is None
            &&& says(fields, "horizontal"@, t) ==> i.horizontal == Some(t)
            &&& silent(fields, "horizontal"@) ==> i.horizontal is None
            &&& says(fields, "vertical"@, t) ==> i.vertical == Some(t)
            &&& silent(fields, "vertical"@) ==> i.vertical is None
            &&& says(fields, "number_format"@, t) ==> i.number_format == Some(t)
            &&& silent(fields, "number_format"@) ==> i.number_format is None
            &&& says(fields, "font_color"@, t) && t[0] != '#' ==> i.font_color == Some(
                text::upper(t),
            )
            &&& silent(fields, "font_color"@) ==> i.font_color is None
            &&& says(fields, "fill_color"@, t) && t[0] != '#' ==> i.fill_color == Some(
                text::upper(t),
            )
            &&& silent(fields, "fill_color"@) ==> i.fill_color is None
        }),
{
    lemma_yes_and_no();
    if t.len() > 0 && t[0] != '#' {
        assert(text::drop_leading(t, '#') == t);
    }
}

// ----- Rules -----

/// Whether a range is the one between two cells of a sheet.
pub open spec fn is_between(
    r: ObjectRange<Seq<char>>,
    sheet: Seq<char>,
    r1: usize,
    c1: usize,
    r2: usize,
    c2: usize,
) -> bool {
    &&& r.sheet == sheet
    &&& r.start_row <= r.end_row && r.start_col <= r.end_col
    &&& (r.start_row == r1 && r.end_row == r2) || (r.start_row == r2 && r.end_row == r1)
    &&& (r.start_col == c1 && r.end_col == c2) || (r.start_col == c2 && r.end_col == c1)
}

proof fn lemma_validations_off(
    s: Seq<DataValidationRule<Seq<char>>>,
    sheet: Seq<char>,
    range: Seq<char>,
    v: DataValidationRule<Seq<char>>,
)
    ensures
        objectops::validations_off(s, sheet, range).contains(v) <==> s.contains(v) && !(
        v.range.sheet == sheet && v.range.range_text() == range),
    decreases s.len(),
{
    if s.len() > 0 {
        let rest = s.drop_last();
        lemma_validations_off(rest, sheet, range, v);
        lemma_member_of_more(rest, s.last(), v);
        assert(rest.push(s.last()) == s);
        let done = objectops::validations_off(rest, sheet, range);
        lemma_member_of_more(done, s.last(), v);
    }
}

proof fn lemma_member_of_more<T>(s: Seq<T>, x: T, y: T)
    ensures
        s.push(x).contains(y) <==> s.contains(y) || y == x,
{
    if s.contains(y) {
        let i = choose|i: int| 0 <= i < s.len() && s[i] == y;
        assert(s.push(x)[i] == y);
    }
    if y == x {
        assert(s.push(x)[s.len() as int] == y);
    }
    if s.push(x).contains(y) {
        let i = choose|i: int| 0 <= i < s.push(x).len() && s.push(x)[i] == y;
        if i < s.len() {
            assert(s[i] == y);
        }
    }
}

/// A validation that is set is there as the request says it, on the cells between the two that
/// it names and in place of any other on just these cells; all others stay.
#[verifier::rlimit(40)]
#[verifier::spinoff_prover]
pub proof fn law_set_validations_stand_as_asked_for(
    m: EngineModel,
    sheet: Seq<char>,
    r1: usize,
    c1: usize,
    r2: usize,
    c2: usize,
    fields: FieldsModel,
    reason: Seq<char>,
    t: Seq<char>,
    other: DataValidationRule<Seq<char>>,
)
    requires
        objectops::validation_applied(m, sheet, r1, c1, r2, c2, fields, reason).1 is Ok,
    ensures
        ({
            let after = objectops::validation_applied(
                m,
                sheet,
                r1,
                c1,
                r2,
                c2,
                fields,
                reason,
            ).0;
            let rule = after.data_validations.last();
            &&& after.data_validations.len() > 0
            &&& is_between(rule.range, sheet, r1, c1, r2, c2)
            &&& says(fields, "type"@, t) ==> rule.validation_type == t
            &&& says(fields, "operator"@, t) ==> rule.operator == t
            &&& silent(fields, "operator"@) ==> rule.operator.len() == 0
            &&& says(fields, "formula1"@, t) ==> rule.formula1 == t
            &&& says(fields, "formula2"@, t) ==> rule.formula2 == t
            &&& silent(fields, "formula2"@) ==> rule.formula2.len() == 0
            &&& says(fields, "allow_blank"@, "true"@) || silent(fields, "allow_blank"@)
                ==> rule.allow_blank
            &&& says(fields, "allow_blank"@, "false"@) ==> !rule.allow_blank
            &&& other != rule ==> (after.data_validations.contains(other)
                <==> m.data_validations.contains(other) && !(other.range.sheet == sheet
                && other.range.range_text() == rule.range.range_text()))
            &&& after.object_dirty_sheets.contains(sheet)
            &&& after.cells == m.cells && after.auto_filters == m.auto_filters
                && after.conditional_formats == m.conditional_formats
        }),
{
    lemma_yes_and_no();
    let after = objectops::validation_applied(m, sheet, r1, c1, r2, c2, fields, reason).0;
    let rule = after.data_validations.last();
    let done = objectops::validations_off(m.data_validations, sheet, rule.range.range_text());
    assert(after.data_validations == done.push(rule));
    lemma_member_of_more(done, rule, other);
    lemma_validations_off(m.data_validations, sheet, rule.range.range_text(), other);
    entries::lemma_with_member(m.object_dirty_sheets, sheet, sheet);
}

proof fn lemma_filters_off(
    s: Seq<AutoFilterRule<Seq<char>>>,
    sheet: Seq<char>,
    f: AutoFilterRule<Seq<char>>,
)
    ensures
        objectops::filters_off(s, sheet).contains(f) <==> s.contains(f) && f.range.sheet != sheet,
    decreases s.len(),
{
    if s.len() > 0 {
        let rest = s.drop_last();
        lemma_filters_off(rest, sheet, f);
        lemma_member_of_more(rest, s.last(), f);
        assert(rest.push(s.last()) == s);
        lemma_member_of_more(objectops::filters_off(rest, sheet), s.last(), f);
    }
}

/// A filter that is set is the only one of its sheet, on the cells between the two that the
/// request names; the filters of other sheets stay.
pub proof fn law_set_filters_stand_as_asked_for(
    m: EngineModel,
    sheet: Seq<char>,
    r1: usize,
    c1: usize,
    r2: usize,
    c2: usize,
    reason: Seq<char>,
    other: AutoFilterRule<Seq<char>>,
)
    requires
        objectops::filter_applied(m, sheet, r1, c1, r2, c2, reason).1 is Ok,
    ensures
        ({
            let after = objectops::filter_applied(m, sheet, r1, c1, r2, c2, reason).0;
            let rule = after.auto_filters.last();
            &&& after.auto_filters.len() > 0
            &&& is_between(rule.range, sheet, r1, c1, r2, c2)
            &&& other != rule ==> (after.auto_filters.contains(other) <==> m.auto_filters.contains(
                other,
            ) && other.range.sheet != sheet)
            &&& after.object_dirty_sheets.contains(sheet)
            &&& after.data_validations == m.data_validations && after.conditional_formats
                == m.conditional_formats
        }),
{
    let after = objectops::filter_applied(m, sheet, r1, c1, r2, c2, reason).0;
    let rule = after.auto_filters.last();
    let done = objectops::filters_off(m.auto_filters, sheet);
    assert(after.auto_filters == done.push(rule));
    lemma_member_of_more(done, rule, other);
    lemma_filters_off(m.auto_filters, sheet, other);
    entries::lemma_with_member(m.object_dirty_sheets, sheet, sheet);
}

proof fn lemma_highest(s: Seq<ConditionalFormatRule<Seq<char>>>, sheet: Seq<char>, i: int)
    requires
        0 <= i < s.len(),
        s[i].range.sheet == sheet,
    ensures
        s[i].priority <= objectops::highest_priority(s, sheet),
    decreases s.len(),
{
    if i < s.len() - 1 {
        lemma_highest(s.drop_last(), sheet, i);
    }
}

/// A conditional format that is set stands behind all others as the request says it, on the
/// cells between the two that it names, and comes after every other of its sheet.
#[verifier::rlimit(40)]
#[verifier::spinoff_prover]
pub proof fn law_set_conditional_formats_stand_as_asked_for(
    m: EngineModel,
    sheet: Seq<char>,
    r1: usize,
    c1: usize,
    r2: usize,
    c2: usize,
    fields: FieldsModel,
    reason: Seq<char>,
    t: Seq<char>,
)
    requires
        objectops::conditional_format_applied(m, sheet, r1, c1, r2, c2, fields, reason).1 is Ok,
    ensures
        ({
            let after = objectops::conditional_format_applied(
                m,
                sheet,
                r1,
                c1,
                r2,
                c2,
                fields,
                reason,
            ).0;
            let rule = after.conditional_formats.last();
            &&& after.conditional_formats == m.conditional_formats.push(rule)
            &&& is_between(rule.range, sheet, r1, c1, r2, c2)
            &&& says(fields, "type"@, t) ==> rule.rule_type == t
            &&& says(fields, "operator"@, t) ==> rule.operator == t
            &&& silent(fields, "operator"@) ==> rule.operator.len() == 0
            &&& says(fields, "formula"@, t) ==> rule.formula == t
            &&& forall|i: int|
                0 <= i < m.conditional_formats.len() && (#[trigger] m.conditional_formats[i]).range.sheet
                    == sheet && m.conditional_formats[i].priority < usize::MAX
                    ==> m.conditional_formats[i].priority < rule.priority
            &&& rule.priority > 0
            &&& after.object_dirty_sheets.contains(sheet)
        }),
{
    let after = objectops::conditional_format_applied(
        m,
        sheet,
        r1,
        c1,
        r2,
        c2,
        fields,
        reason,
    ).0;
    let rule = after.conditional_formats.last();
    let all = m.conditional_formats;
    assert forall|i: int|
        0 <= i < all.len() && (#[trigger] all[i]).range.sheet == sheet && all[i].priority
            < usize::MAX implies all[i].priority < rule.priority by {
        lemma_highest(all, sheet, i);
    }
    entries::lemma_with_member(m.object_dirty_sheets, sheet, sheet);
}

proof fn lemma_sheet_validations_off(
    s: Seq<DataValidationRule<Seq<char>>>,
    sheet: Seq<char>,
    v: DataValidationRule<Seq<char>>,
)
    ensures
        objectops::sheet_validations_off(s, sheet).contains(v) <==> s.contains(v)
            && v.range.sheet != sheet,
    decreases s.len(),
{
    if s.len() > 0 {
        let rest = s.drop_last();
        lemma_sheet_validations_off(rest, sheet, v);
        lemma_member_of_more(rest, s.last(), v);
        assert(rest.push(s.last()) == s);
        lemma_member_of_more(objectops::sheet_validations_off(rest, sheet), s.last(), v);
    }
}

proof fn lemma_sheet_formats_off(
    s: Seq<ConditionalFormatRule<Seq<char>>>,
    sheet: Seq<char>,
    v: ConditionalFormatRule<Seq<char>>,
)
    ensures
        objectops::sheet_formats_off(s, sheet).contains(v) <==> s.contains(v) && v.range.sheet
            != sheet,
    decreases s.len(),
{
    if s.len() > 0 {
        let rest = s.drop_last();
        lemma_sheet_formats_off(rest, sheet, v);
        lemma_member_of_more(rest, s.last(), v);
        assert(rest.push(s.last()) == s);
        lemma_member_of_more(objectops::sheet_formats_off(rest, sheet), s.last(), v);
    }
}

/// Clearing the rules of a kind takes exactly those of the sheet away.
pub proof fn law_cleared_rules_are_gone(
    m: EngineModel,
    sheet: Seq<char>,
    reason: Seq<char>,
    v: DataValidationRule<Seq<char>>,
    f: AutoFilterRule<Seq<char>>,
    c: ConditionalFormatRule<Seq<char>>,
)
    requires
        engine::target_refusal(m, sheet, 1, 1) is None,
    ensures
        objectops::validations_cleared(m, sheet, reason).0.data_validations.contains(v)
            <==> m.data_validations.contains(v) && v.range.sheet != sheet,
        objectops::filter_cleared(m, sheet, reason).0.auto_filters.contains(f)
            <==> m.auto_filters.contains(f) && f.range.sheet != sheet,
        objectops::formats_cleared(m, sheet, reason).0.conditional_formats.contains(c)
            <==> m.conditional_formats.contains(c) && c.range.sheet != sheet,
        objectops::validations_cleared(m, sheet, reason).0.object_dirty_sheets.contains(sheet),
        objectops::filter_cleared(m, sheet, reason).0.object_dirty_sheets.contains(sheet),
        objectops::formats_cleared(m, sheet, reason).0.object_dirty_sheets.contains(sheet),
{
    lemma_sheet_validations_off(m.data_validations, sheet, v);
    lemma_filters_off(m.auto_filters, sheet, f);
    lemma_sheet_formats_off(m.conditional_formats, sheet, c);
    entries::lemma_with_member(m.object_dirty_sheets, sheet, sheet);
}

// ----- Drawings and charts -----

/// Whether a drawing is the first one of a sheet under an id.
pub open spec fn first_drawing(
    s: Seq<DrawingObject<Seq<char>>>,
    sheet: Seq<char>,
    id: Seq<char>,
    i: int,
) -> bool {
    &&& 0 <= i < s.len()
    &&& s[i].sheet == sheet && s[i].object_id == id
    &&& forall|j: int|
        0 <= j < i ==> !((#[trigger] s[j]).sheet == sheet && s[j].object_id == id)
}

proof fn lemma_first_drawing(
    s: Seq<DrawingObject<Seq<char>>>,
    sheet: Seq<char>,
    id: Seq<char>,
    i: int,
    from: int,
)
    requires
        first_drawing(s, sheet, id, i),
        0 <= from <= i,
    ensures
        objectops::drawing_place(s, sheet, id, from) == Some(i),
    decreases i - from,
{
    if from < i {
        assert(!(s[from].sheet == sheet && s[from].object_id == id));
        lemma_first_drawing(s, sheet, id, i, from + 1);
    }
}

/// A drawing that is resized ends at the given cell and begins where it did; no other drawing
/// changes, and its part is noted to be written.
pub proof fn law_resized_drawings_end_at_the_cell(
    m: EngineModel,
    sheet: Seq<char>,
    id: Seq<char>,
    row: usize,
    col: usize,
    reason: Seq<char>,
    i: int,
)
    requires
        first_drawing(m.drawing_objects, sheet, id, i),
        objectops::drawing_resized(m, sheet, id, row, col, reason).1 is Ok,
    ensures
        ({
            let after = objectops::drawing_resized(m, sheet, id, row, col, reason).0;
            let d = after.drawing_objects[i];
            &&& d == (DrawingObject {
                to_row: Some(row),
                to_col: Some(col),
                ..m.drawing_objects[i]
            })
            &&& after.drawing_objects == m.drawing_objects.update(i, d)
            &&& after.drawing_dirty_paths.contains(d.drawing_path)
            &&& d.from_row matches Some(r) && r <= row
            &&& d.from_col matches Some(c) && c <= col
        }),
{
    lemma_first_drawing(m.drawing_objects, sheet, id, i, 0);
    entries::lemma_with_member(
        m.drawing_dirty_paths,
        m.drawing_objects[i].drawing_path,
        m.drawing_objects[i].drawing_path,
    );
}

/// What a request puts in place of a drawing's picture or text, or of a chart's title or
/// source, is kept for the part that the drawing shows, and nothing else changes.
#[verifier::rlimit(40)]
#[verifier::spinoff_prover]
pub proof fn law_drawing_contents_are_kept_for_their_part(
    m: EngineModel,
    sheet: Seq<char>,
    id: Seq<char>,
    path: Seq<char>,
    data: Seq<u8>,
    value: Seq<char>,
    reason: Seq<char>,
    i: int,
    other: Seq<char>,
)
    requires
        first_drawing(m.drawing_objects, sheet, id, i),
    ensures
        ({
            let d = m.drawing_objects[i];
            let a = objectops::image_replaced(m, sheet, id, path, Ok(data), reason);
            let b = objectops::drawing_text_updated(m, sheet, id, value, reason);
            let c = objectops::chart_title_updated(m, sheet, id, value, reason);
            &&& a.1 is Ok ==> entries::get(a.0.image_replacements, d.target_path) == Some(data)
                && (other != d.target_path ==> entries::get(a.0.image_replacements, other)
                == entries::get(m.image_replacements, other)) && a.0.drawing_objects
                == m.drawing_objects
            &&& b.1 is Ok ==> entries::get(b.0.drawing_text_updates, id) == Some(value) && (other
                != id ==> entries::get(b.0.drawing_text_updates, other) == entries::get(
                m.drawing_text_updates,
                other,
            )) && b.0.drawing_dirty_paths.contains(d.drawing_path)
            &&& c.1 is Ok ==> entries::get(c.0.chart_title_updates, d.target_path) == Some(value)
                && (other != d.target_path ==> entries::get(c.0.chart_title_updates, other)
                == entries::get(m.chart_title_updates, other)) && c.0.chart_source_updates
                == m.chart_source_updates
        }),
{
    lemma_first_drawing(m.drawing_objects, sheet, id, i, 0);
    let d = m.drawing_objects[i];
    entries::law_get_after_put(m.image_replacements, d.target_path, data, d.target_path);
    entries::law_get_after_put(m.image_replacements, d.target_path, data, other);
    entries::law_get_after_put(m.drawing_text_updates, id, value, id);
    entries::law_get_after_put(m.drawing_text_updates, id, value, other);
    entries::law_get_after_put(m.chart_title_updates, d.target_path, value, d.target_path);
    entries::law_get_after_put(m.chart_title_updates, d.target_path, value, other);
    entries::lemma_with_member(m.drawing_dirty_paths, d.drawing_path, d.drawing_path);
}

/// The source that a request gives a chart is kept for the part of the chart, without the
/// space around it.
pub proof fn law_chart_sources_are_kept_for_their_part(
    m: EngineModel,
    sheet: Seq<char>,
    id: Seq<char>,
    range: Seq<char>,
    reason: Seq<char>,
    i: int,
    other: Seq<char>,
)
    requires
        first_drawing(m.drawing_objects, sheet, id, i),
        objectops::chart_source_updated(m, sheet, id, range, reason).1 is Ok,
    ensures
        ({
            let d = m.drawing_objects[i];
            let after = objectops::chart_source_updated(m, sheet, id, range, reason).0;
            &&& entries::get(after.chart_source_updates, d.target_path) == Some(
                text::trim(range),
            )
            &&& other != d.target_path ==> entries::get(after.chart_source_updates, other)
                == entries::get(m.chart_source_updates, other)
            &&& after.chart_title_updates == m.chart_title_updates
        }),
{
    lemma_first_drawing(m.drawing_objects, sheet, id, i, 0);
    let d = m.drawing_objects[i];
    let t = text::trim(range);
    entries::law_get_after_put(m.chart_source_updates, d.target_path, t, d.target_path);
    entries::law_get_after_put(m.chart_source_updates, d.target_path, t, other);
}

// ----- Sparklines, pivot tables and embedded objects -----

pub open spec fn first_risk(s: HighRiskModel, sheet: Seq<char>, id: Seq<char>, i: int) -> bool {
    &&& 0 <= i < s.len()
    &&& s[i].sheet == sheet && s[i].object_id == id
    &&& forall|j: int|
        0 <= j < i ==> !((#[trigger] s[j]).sheet == sheet && s[j].object_id == id)
}

proof fn lemma_first_risk(s: HighRiskModel, sheet: Seq<char>, id: Seq<char>, i: int, from: int)
    requires
        first_risk(s, sheet, id, i),
        0 <= from <= i,
    ensures
        objectops::risk_place(s, sheet, id, from) == Some(i),
    decreases i - from,
{
    if from < i {
        assert(!(s[from].sheet == sheet && s[from].object_id == id));
        lemma_first_risk(s, sheet, id, i, from + 1);
    }
}

/// A sparkline whose source is changed has the given source, without the space around it, and
/// is noted to be written; no other object changes.
pub proof fn law_sparklines_have_the_given_source(
    m: EngineModel,
    sheet: Seq<char>,
    id: Seq<char>,
    source: Seq<char>,
    reason: Seq<char>,
    i: int,
)
    requires
        first_risk(m.high_risk_objects, sheet, id, i),
        objectops::sparkline_updated(m, sheet, id, source, reason).1 is Ok,
    ensures
        ({
            let after = objectops::sparkline_updated(m, sheet, id, source, reason).0;
            &&& after.high_risk_objects == m.high_risk_objects.update(
                i,
                (HighRiskObject {
                    source_formula: text::trim(source),
                    ..m.high_risk_objects[i]
                }),
            )
            &&& entries::get(after.sparkline_source_updates, id) == Some(text::trim(source))
            &&& after.sparkline_dirty_sheets.contains(sheet)
            &&& after.sparkline_dirty_objects.contains(id)
        }),
{
    lemma_first_risk(m.high_risk_objects, sheet, id, i, 0);
    entries::law_get_after_put(m.sparkline_source_updates, id, text::trim(source), id);
    entries::lemma_with_member(m.sparkline_dirty_sheets, sheet, sheet);
    entries::lemma_with_member(m.sparkline_dirty_objects, id, id);
}

/// A pivot table has the name and the caption that a request gives it and keeps what it does
/// not give; an embedded object that is replaced has the given bytes.
#[verifier::rlimit(40)]
#[verifier::spinoff_prover]
pub proof fn law_embedded_objects_have_what_is_given(
    m: EngineModel,
    sheet: Seq<char>,
    id: Seq<char>,
    name: Seq<char>,
    caption: Seq<char>,
    path: Seq<char>,
    data: Seq<u8>,
    reason: Seq<char>,
    i: int,
)
    requires
        first_risk(m.high_risk_objects, sheet, id, i),
        text::trim(name) == name,
        text::trim(caption) == caption,
    ensures
        ({
            let o = m.high_risk_objects[i];
            let a = objectops::pivot_updated(m, sheet, id, Some(name), None, reason);
            let b = objectops::pivot_updated(m, sheet, id, None, Some(caption), reason);
            let c = objectops::ole_replaced(m, sheet, id, path, Ok(data), reason);
            &&& a.1 is Ok ==> a.0.high_risk_objects == m.high_risk_objects.update(
                i,
                (HighRiskObject { name, ..o }),
            ) && a.0.pivot_dirty_paths.contains(o.target_path)
            &&& b.1 is Ok ==> b.0.high_risk_objects == m.high_risk_objects.update(
                i,
                (HighRiskObject { pivot_data_caption: caption, ..o }),
            ) && b.0.pivot_dirty_paths.contains(o.target_path)
            &&& c.1 is Ok ==> entries::get(c.0.ole_replacements, o.target_path) == Some(data)
        }),
{
    lemma_first_risk(m.high_risk_objects, sheet, id, i, 0);
    let o = m.high_risk_objects[i];
    entries::lemma_with_member(m.pivot_dirty_paths, o.target_path, o.target_path);
    entries::law_get_after_put(m.ole_replacements, o.target_path, data, o.target_path);
}

// ----- Sheets and formats -----

/// A sheet that is hidden or shown has the state that is asked for; its name stays, and so do
/// all other sheets.
pub proof fn law_sheets_have_the_state_asked_for(
    m: EngineModel,
    sheet: Seq<char>,
    visibility: Seq<char>,
    reason: Seq<char>,
    i: int,
)
    requires
        0 <= i < m.sheets.len(),
        m.sheets[i].name == sheet,
        forall|j: int| 0 <= j < i ==> (#[trigger] m.sheets[j]).name != sheet,
        visibility == "visible"@ || visibility == "hidden"@ || visibility == "veryHidden"@,
    ensures
        ({
            let r = sheetops::visibility_applied(m, sheet, visibility, reason);
            &&& r.1 is Ok
            &&& r.0.sheets.len() == m.sheets.len()
            &&& r.0.sheets[i].visibility == visibility
            &&& r.0.sheets[i].name == sheet && r.0.sheets[i].path == m.sheets[i].path
            &&& forall|j: int|
                0 <= j < m.sheets.len() && j != i ==> #[trigger] r.0.sheets[j] == m.sheets[j]
            &&& r.0.workbook_dirty
        }),
{
    reveal_strlit("hidden");
    reveal_strlit("veryHidden");
    reveal_strlit("visible");
    lemma_sheet_place(m.sheets, sheet, i, 0);
}

proof fn lemma_sheet_place(s: SheetsModel, sheet: Seq<char>, i: int, from: int)
    requires
        0 <= from <= i < s.len(),
        s[i].name == sheet,
        forall|j: int| 0 <= j < i ==> (#[trigger] s[j]).name != sheet,
    ensures
        engine::sheet_place(s, sheet, from) == Some(i),
    decreases i - from,
{
    if from < i {
        assert(s[from].name != sheet);
        lemma_sheet_place(s, sheet, i, from + 1);
    }
}

/// A cell that is formatted is noted with the format that the request asks for, on top of the
/// style that it had, and with the number format that it is given; other cells stay.
pub proof fn law_formatted_cells_have_the_format_asked_for(
    m: EngineModel,
    sheet: Seq<char>,
    row: usize,
    col: usize,
    fields: FieldsModel,
    reason: Seq<char>,
    other: Key<Seq<char>>,
)
    requires
        sheetops::format_applied(m, sheet, row, col, fields, reason).1 is Ok,
    ensures
        ({
            let after = sheetops::format_applied(m, sheet, row, col, fields, reason).0;
            let k = coord::key(sheet, row, col);
            let patch = after.style_patches.last();
            &&& after.style_patches == m.style_patches.push(patch)
            &&& patch.key == k
            &&& styles::intent(fields) == Fallible::<styles::IntentModel>::Ok(patch.intent)
            &&& (entries::get(m.meta, k) matches Some(r) && r.style_id is Some)
                ==> patch.base_style_id == entries::get(m.meta, k)->Some_0.style_id->Some_0
            &&& entries::get(after.meta, k) matches Some(r) && r.is_modified && (
            patch.intent.number_format matches Some(t) ==> r.number_format == t)
            &&& other != k ==> entries::get(after.meta, other) == entries::get(m.meta, other)
            &&& after.modified.contains(k)
            &&& after.cells == m.cells && after.formulas == m.formulas
        }),
{
    let k = coord::key(sheet, row, col);
    let after = sheetops::format_applied(m, sheet, row, col, fields, reason).0;
    let i = styles::intent(fields)->Ok_0;
    let known = engine::meta_or_blank(m.meta, k);
    let next = crate::records::ShadowMetaRecord {
        style_id: Some(sheetops::next_style(m)),
        number_format: match i.number_format {
            Some(t) => t,
            None => known.number_format,
        },
        is_modified: true,
        ..known
    };
    entries::law_get_after_put(m.meta, k, next, k);
    entries::law_get_after_put(m.meta, k, next, other);
    entries::lemma_with_member(m.modified, k, k);
}

// ----- Values and formulas -----

/// A value that is put into a cell is there and is noted to be written; no other cell without a
/// formula changes, and no formula does.
pub proof fn law_updates_change_one_input(
    m: EngineModel,
    k: Key<Seq<char>>,
    value: Seq<char>,
    reason: Seq<char>,
    answers: Answers,
    b: Bounds,
    other: Key<Seq<char>>,
)
    requires
        engine::target_refusal(m, k.sheet, k.row, k.col) is None,
    ensures
        ({
            let r = recalc::updated(m, k, value, reason, answers, b).0;
            &&& r.modified.contains(k)
            &&& r.formulas == m.formulas
            &&& r.sheets == m.sheets
            &&& other != k && entries::get(m.formulas, other) is None ==> entries::get(
                r.cells,
                other,
            ) == entries::get(m.cells, other)
            &&& entries::get(m.formulas, k) is None ==> entries::get(r.cells, k) == Some(value)
        }),
{
    let put = recalc::with_input(m, k, value, reason);
    let queue = engine::dependents_of(put.dependents, k);
    let none = Seq::<Key<Seq<char>>>::empty();
    let fuel = b.fuel as nat;
    let steps = b.steps as nat;
    entries::law_get_after_put(m.cells, k, value, k);
    entries::law_get_after_put(m.cells, k, value, other);
    entries::lemma_with_member(m.modified, k, k);
    recalc::law_recalculation_changes_values_only(
        put,
        k,
        queue,
        none,
        none,
        answers,
        fuel,
        steps,
    );
    if entries::get(m.formulas, other) is None {
        recalc::law_recalculation_keeps_inputs(
            put,
            k,
            queue,
            none,
            none,
            answers,
            fuel,
            steps,
            other,
        );
    }
    if entries::get(m.formulas, k) is None {
        recalc::law_recalculation_keeps_inputs(
            put,
            k,
            queue,
            none,
            none,
            answers,
            fuel,
            steps,
            k,
        );
    }
}

/// A batch that comes to its end has put every one of its values into its cell, where the cells
/// are different ones without formulas.
pub proof fn law_batches_put_in_every_value(
    m: EngineModel,
    list: Seq<(Key<Seq<char>>, Seq<char>)>,
    answers: Answers,
    b: Bounds,
    n: int,
)
    requires
        0 <= n <= list.len(),
        forall|i: int|
            0 <= i < n ==> entries::get(m.formulas, (#[trigger] list[i]).0) is None,
        forall|i: int, j: int|
            0 <= i < j < n ==> (#[trigger] list[i]).0 != (#[trigger] list[j]).0,
        recalc::batch(m, list, answers, b, n).1 is Value,
    ensures
        ({
            let r = recalc::batch(m, list, answers, b, n).0;
            &&& r.formulas == m.formulas
            &&& forall|i: int|
                0 <= i < n ==> entries::get(r.cells, (#[trigger] list[i]).0) == Some(list[i].1)
        }),
    decreases n,
{
    if n > 0 {
        law_batches_put_in_every_value(m, list, answers, b, n - 1);
        let done = recalc::batch(m, list, answers, b, n - 1).0;
        let k = list[n - 1].0;
        let value = list[n - 1].1;
        let r = recalc::batch(m, list, answers, b, n).0;
        law_updates_change_one_input(done, k, value, "batch_update"@, answers, b, k);
        assert forall|i: int| 0 <= i < n implies entries::get(r.cells, (#[trigger] list[i]).0)
            == Some(list[i].1) by {
            if i < n - 1 {
                assert(list[i].0 != list[n - 1].0);
                law_updates_change_one_input(
                    done,
                    k,
                    value,
                    "batch_update"@,
                    answers,
                    b,
                    list[i].0,
                );
            }
        }
    }
}

proof fn lemma_linked_place(
    s: crate::cells::FormulasModel,
    t: crate::cells::FormulasModel,
    k: Key<Seq<char>>,
)
    requires
        s.len() == t.len(),
        forall|i: int| 0 <= i < s.len() ==> (#[trigger] s[i]).0 == t[i].0,
    ensures
        entries::place(s, k) == entries::place(t, k),
    decreases s.len(),
{
    if s.len() > 0 {
        assert(s[s.len() - 1].0 == t[t.len() - 1].0);
        assert forall|i: int| 0 <= i < s.drop_last().len() implies (#[trigger] s.drop_last()[i]).0
            == t.drop_last()[i].0 by {
            assert(s[i].0 == t[i].0);
        }
        lemma_linked_place(s.drop_last(), t.drop_last(), k);
    }
}

/// A formula that depends on the cell that it is set in is refused.
pub proof fn law_circular_formulas_are_refused(
    m: EngineModel,
    k: Key<Seq<char>>,
    formula: Seq<char>,
    f: Seq<char>,
    reason: Seq<char>,
    answers: Answers,
    b: Bounds,
)
    requires
        engine::target_refusal(m, k.sheet, k.row, k.col) is None,
        recalc::formula_normalized(formula) == Result::<Seq<char>, Seq<char>>::Ok(f),
        crate::deps::formula_deps(
            f,
            k,
            m.cells,
            engine::sheet_names(m.sheets),
            m.defined_names,
            engine::formula_cells(recalc::with_formula(m, k, f).formulas),
            m.tables,
        ).contains(k),
    ensures
        recalc::formula_applied(m, k, formula, reason, answers, b).1 is Fail,
{
    let set = recalc::with_formula(m, k, f);
    let linked = engine::relinked(set);
    lemma_linked_place(linked, set.formulas, k);
    let cell = crate::cells::FormulaCell { formula: f, deps: Seq::empty() };
    entries::law_get_after_put(m.formulas, k, cell, k);
    entries::lemma_place(set.formulas, k);
    let i = entries::place(set.formulas, k)->Some_0;
    assert(set.formulas[i].1 == cell);
    assert(linked[i].1.deps.contains(k));
}

/// A formula is kept with one sign of equality before it and without space around it.
pub proof fn law_formulas_are_kept_with_their_sign(t: Seq<char>)
    requires
        t.len() > 0,
        text::trim(t) == t,
        t[0] != '=',
        text::trim("="@ + t) == "="@ + t,
    ensures
        recalc::formula_normalized(t) == Result::<Seq<char>, Seq<char>>::Ok("="@ + t),
        recalc::formula_normalized("="@ + t) == Result::<Seq<char>, Seq<char>>::Ok("="@ + t),
{
    reveal_strlit("=");
    assert(("="@ + t).subrange(0, 1) =~= "="@);
    assert(t.subrange(0, 1)[0] == t[0]);
    assert(("="@ + t).len() > 1);
}

// ----- Merged cells and renamed sheets -----

proof fn lemma_without_member<T>(s: Seq<T>, x: T, y: T)
    ensures
        entries::without(s, x).contains(y) <==> s.contains(y) && y != x,
    decreases s.len(),
{
    if s.len() > 0 {
        lemma_without_member(s.drop_last(), x, y);
        lemma_member_of_more(s.drop_last(), s.last(), y);
        assert(s.drop_last().push(s.last()) == s);
        lemma_member_of_more(entries::without(s.drop_last(), x), s.last(), y);
    }
}

/// Cells that are merged are merged over the rectangle between the two that the request names;
/// taking them apart takes just this range away; all other ranges stay.
pub proof fn law_merges_stand_as_asked_for(
    m: EngineModel,
    sheet: Seq<char>,
    r1: usize,
    c1: usize,
    r2: usize,
    c2: usize,
    merge: bool,
    reason: Seq<char>,
    range: Seq<char>,
    other: Seq<char>,
)
    requires
        sheetops::merge_applied(m, sheet, r1, c1, r2, c2, merge, reason).1 is Ok,
        range == coord::a1_text(
            if r1 <= r2 {
                r1
            } else {
                r2
            },
            if c1 <= c2 {
                c1
            } else {
                c2
            },
        ) + ":"@ + coord::a1_text(
            if r1 <= r2 {
                r2
            } else {
                r1
            },
            if c1 <= c2 {
                c2
            } else {
                c1
            },
        ),
    ensures
        ({
            let after = sheetops::merge_applied(m, sheet, r1, c1, r2, c2, merge, reason).0;
            let before = sheetops::ranges_of(m.merges, sheet);
            let now = sheetops::ranges_of(after.merges, sheet);
            &&& now.contains(range) == merge
            &&& other != range ==> now.contains(other) == before.contains(other)
            &&& other != sheet ==> entries::get(after.merges, other) == entries::get(
                m.merges,
                other,
            )
            &&& after.merge_dirty_sheets.contains(sheet)
            &&& after.cells == m.cells && after.formulas == m.formulas
        }),
{
    let before = sheetops::ranges_of(m.merges, sheet);
    let next = if merge {
        entries::with(before, range)
    } else {
        entries::without(before, range)
    };
    entries::law_get_after_put(m.merges, sheet, next, sheet);
    entries::law_get_after_put(m.merges, sheet, next, other);
    entries::lemma_with_member(before, range, range);
    entries::lemma_with_member(before, range, other);
    lemma_without_member(before, range, range);
    lemma_without_member(before, range, other);
    entries::lemma_with_member(m.merge_dirty_sheets, sheet, sheet);
}

/// The merged ranges of a renamed sheet are found under its new name, formats keep what they
/// ask for and go to the cell under the new name, and names keep what they are called and go on
/// being bound to the sheet.
pub proof fn law_renaming_keeps_what_goes_along(
    m: EngineModel,
    old_name: Seq<char>,
    new_name: Seq<char>,
    i: int,
)
    requires
        old_name != new_name,
        entries::get(m.merges, old_name) is Some,
    ensures
        ({
            let r = sheetops::keyed_renamed(m, old_name, new_name);
            &&& entries::get(r.merges, new_name) == entries::get(m.merges, old_name)
            &&& r.style_patches.len() == m.style_patches.len()
            &&& 0 <= i < m.style_patches.len() ==> r.style_patches[i].intent
                == m.style_patches[i].intent && r.style_patches[i].key == (
            if m.style_patches[i].key.sheet == old_name {
                coord::key(new_name, m.style_patches[i].key.row, m.style_patches[i].key.col)
            } else {
                m.style_patches[i].key
            })
            &&& r.defined_names.len() == m.defined_names.len()
            &&& 0 <= i < m.defined_names.len() ==> r.defined_names[i].name
                == m.defined_names[i].name && r.defined_names[i].scope_sheet == (
            if m.defined_names[i].scope_sheet == Some(old_name) {
                Some(new_name)
            } else {
                m.defined_names[i].scope_sheet
            })
        }),
{
    let ranges = entries::get(m.merges, old_name)->Some_0;
    entries::law_get_after_put(
        entries::erase(m.merges, old_name),
        new_name,
        ranges,
        new_name,
    );
}

} // verus!
