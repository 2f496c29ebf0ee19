//! What there is to tell of the objects on a sheet: lists of them, what is wrong with them,
//! and what can be done with them.

use crate::copies::Copied;
use crate::coord;
use crate::coord::ShadowError;
use crate::diagnostics::{Fields, FieldsModel, ReportModel};
use crate::engine;
use crate::engine::{EngineModel, SheetShadowEngine};
use crate::entries;
use crate::highrisk::HighRiskModel;
use crate::objectops;
use crate::objects;
use crate::package::Fallible;
use crate::recalc;
use crate::records::{
    AutoFilterRule, CellComment, ConditionalFormatRule, DataValidationRule, DrawingObject,
    HighRiskObject,
};
use crate::text;
use crate::values;
use vstd::prelude::*;
use vstd::string::*;

verus! {

// ----- Fields -----

pub open spec fn line_text(line: Option<usize>) -> Seq<char> {
    match line {
        Some(n) => text::decimal(n as nat),
        None => Seq::empty(),
    }
}

fn line_text_of(line: Option<usize>) -> (r: String)
    ensures
        r@ == line_text(line),
{
    match line {
        Some(n) => text::size_text(n),
        None => String::new(),
    }
}

pub open spec fn col_text(line: Option<usize>) -> Seq<char> {
    match line {
        Some(n) => coord::col_name(n as nat),
        None => Seq::empty(),
    }
}

fn col_text_of(line: Option<usize>) -> (r: String)
    ensures
        r@ == col_text(line),
{
    match line {
        Some(n) => coord::col_to_name(n),
        None => String::new(),
    }
}

/// The values that the items of a report have under a name.
pub open spec fn told_under(report: ReportModel, name: Seq<char>) -> Seq<Seq<char>>
    decreases report.len(),
{
    if report.len() == 0 {
        Seq::empty()
    } else {
        let done = told_under(report.drop_last(), name);
        match entries::get(report.last(), name) {
            Some(t) => done.push(t),
            None => done,
        }
    }
}

fn values_under(report: &Vec<Fields>, name: &str) -> (r: Vec<String>)
    ensures
        r.deep_view() == told_under(report.deep_view(), name@),
{
    let ghost all = report.deep_view();
    let key = name.to_owned();
    let mut out: Vec<String> = Vec::new();
    assert(out.deep_view() == Seq::<Seq<char>>::empty());
    assert(all.take(0).len() == 0);
    let mut i: usize = 0;
    while i < report.len()
        invariant
            i <= report.len(),
            all == report.deep_view(),
            key@ == name@,
            out.deep_view() == told_under(all.take(i as int), name@),
        decreases report.len() - i,
    {
        assert(all.take(i + 1).drop_last() == all.take(i as int));
        assert(all.take(i + 1).last() == report@[i as int].deep_view());
        match entries::map_get(&report[i], &key) {
            Some(t) => {
                let ghost done = out.deep_view();
                out.push(t.clone());
                assert(out.deep_view() == done.push(t@));
            },
            None => {},
        }
        i = i + 1;
    }
    assert(all.take(all.len() as int) == all);
    out
}

/// The nonempty texts of a list, each once, in order.
pub fn unique_sorted_values(values: &Vec<String>) -> (r: Vec<String>)
    ensures
        r.deep_view() == text::unique_sorted(values.deep_view()),
{
    let ghost all = values.deep_view();
    let mut out: Vec<String> = Vec::new();
    assert(out.deep_view() == Seq::<Seq<char>>::empty());
    assert(all.take(0) == Seq::<Seq<char>>::empty());
    assert(entries::once(text::nonempty(all.take(0))) == Seq::<Seq<char>>::empty());
    let mut i: usize = 0;
    while i < values.len()
        invariant
            i <= values.len(),
            all == values.deep_view(),
            out.deep_view() == entries::once(text::nonempty(all.take(i as int))),
        decreases values.len() - i,
    {
        assert(all.take(i + 1).drop_last() == all.take(i as int));
        assert(all.take(i + 1).last() == values@[i as int]@);
        let ghost before = text::nonempty(all.take(i as int));
        if !values[i].as_str().is_empty() {
            assert(before.push(values@[i as int]@).drop_last() == before);
            entries::set_add(&mut out, values[i].clone());
        }
        i = i + 1;
    }
    assert(all.take(all.len() as int) == all);
    text::sort_texts(out)
}

// ----- Comments and rules -----

pub open spec fn plain_object(kind: Seq<char>, sheet: Seq<char>, place: Seq<char>, value: Seq<char>) -> FieldsModel {
    seq![("object_type"@, kind), ("sheet"@, sheet), ("ref"@, place), ("value"@, value)]
}

fn plain_object_of(kind: &str, sheet: &str, place: String, value: String) -> (r: Fields)
    ensures
        r.deep_view() == plain_object(kind@, sheet@, place@, value@),
{
    let r: Fields = vec![
        engine::pair("object_type", kind.to_owned()),
        engine::pair("sheet", sheet.to_owned()),
        engine::pair("ref", place),
        engine::pair("value", value),
    ];
    assert(r.deep_view() == plain_object(kind@, sheet@, place@, value@));
    r
}

fn add_reports(out: &mut Vec<Fields>, more: Vec<Fields>)
    ensures
        final(out).deep_view() == old(out).deep_view() + more.deep_view(),
{
    let ghost a = out.deep_view();
    let ghost b = more.deep_view();
    let mut more = more;
    out.append(&mut more);
    assert(out.deep_view() == a + b);
}

/// The comments of a sheet.
pub open spec fn comments_told(list: Seq<CellComment<Seq<char>>>, sheet: Seq<char>) -> ReportModel
    decreases list.len(),
{
    if list.len() == 0 {
        Seq::empty()
    } else {
        let done = comments_told(list.drop_last(), sheet);
        let x = list.last();
        if x.key.sheet == sheet {
            done.push(plain_object("comment"@, sheet, coord::a1_text(x.key.row, x.key.col), x.text))
        } else {
            done
        }
    }
}

fn tell_comments(list: &Vec<CellComment>, sheet: &str) -> (r: Vec<Fields>)
    ensures
        r.deep_view() == comments_told(list.deep_view(), sheet@),
{
    let ghost all = list.deep_view();
    let mut out: Vec<Fields> = Vec::new();
    assert(out.deep_view() == ReportModel::empty());
    assert(all.take(0).len() == 0);
    let mut i: usize = 0;
    while i < list.len()
        invariant
            i <= list.len(),
            all == list.deep_view(),
            out.deep_view() == comments_told(all.take(i as int), sheet@),
        decreases list.len() - i,
    {
        assert(all.take(i + 1).drop_last() == all.take(i as int));
        assert(all.take(i + 1).last() == list@[i as int].deep_view());
        let x = &list[i];
        if text::same(&x.key.sheet, sheet) {
            let item = plain_object_of("comment", sheet, coord::cell_name(x.key.row, x.key.col), x.text.clone());
            let ghost done = out.deep_view();
            out.push(item);
            assert(out.deep_view() == done.push(item.deep_view()));
        }
        i = i + 1;
    }
    assert(all.take(all.len() as int) == all);
    out
}

/// The validations of a sheet.
pub open spec fn validations_told(list: Seq<DataValidationRule<Seq<char>>>, sheet: Seq<char>) -> ReportModel
    decreases list.len(),
{
    if list.len() == 0 {
        Seq::empty()
    } else {
        let done = validations_told(list.drop_last(), sheet);
        let x = list.last();
        if x.range.sheet == sheet {
            done.push(plain_object("data_validation"@, sheet, x.range.range_text(), x.validation_type))
        } else {
            done
        }
    }
}

fn tell_validations(list: &Vec<DataValidationRule>, sheet: &str) -> (r: Vec<Fields>)
    ensures
        r.deep_view() == validations_told(list.deep_view(), sheet@),
{
    let ghost all = list.deep_view();
    let mut out: Vec<Fields> = Vec::new();
    assert(out.deep_view() == ReportModel::empty());
    assert(all.take(0).len() == 0);
    let mut i: usize = 0;
    while i < list.len()
        invariant
            i <= list.len(),
            all == list.deep_view(),
            out.deep_view() == validations_told(all.take(i as int), sheet@),
        decreases list.len() - i,
    {
        assert(all.take(i + 1).drop_last() == all.take(i as int));
        assert(all.take(i + 1).last() == list@[i as int].deep_view());
        let x = &list[i];
        if text::same(&x.range.sheet, sheet) {
            let item = plain_object_of("data_validation", sheet, x.range.ref_text(), x.validation_type.clone());
            let ghost done = out.deep_view();
            out.push(item);
            assert(out.deep_view() == done.push(item.deep_view()));
        }
        i = i + 1;
    }
    assert(all.take(all.len() as int) == all);
    out
}

/// The filters of a sheet.
pub open spec fn filters_told(list: Seq<AutoFilterRule<Seq<char>>>, sheet: Seq<char>) -> ReportModel
    decreases list.len(),
{
    if list.len() == 0 {
        Seq::empty()
    } else {
        let done = filters_told(list.drop_last(), sheet);
        let x = list.last();
        if x.range.sheet == sheet {
            done.push(plain_object("autofilter"@, sheet, x.range.range_text(), Seq::empty()))
        } else {
            done
        }
    }
}

fn tell_filters(list: &Vec<AutoFilterRule>, sheet: &str) -> (r: Vec<Fields>)
    ensures
        r.deep_view() == filters_told(list.deep_view(), sheet@),
{
    let ghost all = list.deep_view();
    let mut out: Vec<Fields> = Vec::new();
    assert(out.deep_view() == ReportModel::empty());
    assert(all.take(0).len() == 0);
    let mut i: usize = 0;
    while i < list.len()
        invariant
            i <= list.len(),
            all == list.deep_view(),
            out.deep_view() == filters_told(all.take(i as int), sheet@),
        decreases list.len() - i,
    {
        assert(all.take(i + 1).drop_last() == all.take(i as int));
        assert(all.take(i + 1).last() == list@[i as int].deep_view());
        let x = &list[i];
        if text::same(&x.range.sheet, sheet) {
            let item = plain_object_of("autofilter", sheet, x.range.ref_text(), String::new());
            let ghost done = out.deep_view();
            out.push(item);
            assert(out.deep_view() == done.push(item.deep_view()));
        }
        i = i + 1;
    }
    assert(all.take(all.len() as int) == all);
    out
}

/// The conditional formats of a sheet.
pub open spec fn formats_told(list: Seq<ConditionalFormatRule<Seq<char>>>, sheet: Seq<char>) -> ReportModel
    decreases list.len(),
{
    if list.len() == 0 {
        Seq::empty()
    } else {
        let done = formats_told(list.drop_last(), sheet);
        let x = list.last();
        if x.range.sheet == sheet {
            done.push(plain_object("conditional_format"@, sheet, x.range.range_text(), x.rule_type))
        } else {
            done
        }
    }
}

fn tell_formats(list: &Vec<ConditionalFormatRule>, sheet: &str) -> (r: Vec<Fields>)
    ensures
        r.deep_view() == formats_told(list.deep_view(), sheet@),
{
    let ghost all = list.deep_view();
    let mut out: Vec<Fields> = Vec::new();
    assert(out.deep_view() == ReportModel::empty());
    assert(all.take(0).len() == 0);
    let mut i: usize = 0;
    while i < list.len()
        invariant
            i <= list.len(),
            all == list.deep_view(),
            out.deep_view() == formats_told(all.take(i as int), sheet@),
        decreases list.len() - i,
    {
        assert(all.take(i + 1).drop_last() == all.take(i as int));
        assert(all.take(i + 1).last() == list@[i as int].deep_view());
        let x = &list[i];
        if text::same(&x.range.sheet, sheet) {
            let item = plain_object_of("conditional_format", sheet, x.range.ref_text(), x.rule_type.clone());
            let ghost done = out.deep_view();
            out.push(item);
            assert(out.deep_view() == done.push(item.deep_view()));
        }
        i = i + 1;
    }
    assert(all.take(all.len() as int) == all);
    out
}

/// The comments and rules of a sheet.
pub open spec fn objects_told(m: EngineModel, sheet: Seq<char>) -> ReportModel {
    comments_told(m.comments, sheet) + validations_told(m.data_validations, sheet) + filters_told(
        m.auto_filters,
        sheet,
    ) + formats_told(m.conditional_formats, sheet)
}

// ----- Drawings -----

/// What there is to tell of a drawing.
pub open spec fn drawing_fields(o: DrawingObject<Seq<char>>) -> FieldsModel {
    seq![
        ("object_id"@, o.object_id),
        ("object_type"@, o.object_type),
        ("sheet"@, o.sheet),
        ("ref"@, objects::anchor_text(o)),
        ("drawing_path"@, o.drawing_path),
        ("anchor_kind"@, o.anchor_kind),
        ("from_row"@, line_text(o.from_row)),
        ("from_col"@, col_text(o.from_col)),
        ("to_row"@, line_text(o.to_row)),
        ("to_col"@, col_text(o.to_col)),
        ("rel_id"@, o.rel_id),
        ("target_path"@, o.target_path),
        ("relationship_valid"@, values::truth(o.relationship_valid)),
        ("target_exists"@, values::truth(o.target_exists)),
        ("invalid_reason"@, o.invalid_reason),
    ]
}

pub fn drawing_object_to_map(o: &DrawingObject) -> (r: Fields)
    ensures
        r.deep_view() == drawing_fields(o.deep_view()),
{
    let r: Fields = vec![
        engine::pair("object_id", o.object_id.clone()),
        engine::pair("object_type", o.object_type.clone()),
        engine::pair("sheet", o.sheet.clone()),
        engine::pair("ref", o.ref_text()),
        engine::pair("drawing_path", o.drawing_path.clone()),
        engine::pair("anchor_kind", o.anchor_kind.clone()),
        engine::pair("from_row", line_text_of(o.from_row)),
        engine::pair("from_col", col_text_of(o.from_col)),
        engine::pair("to_row", line_text_of(o.to_row)),
        engine::pair("to_col", col_text_of(o.to_col)),
        engine::pair("rel_id", o.rel_id.clone()),
        engine::pair("target_path", o.target_path.clone()),
        engine::pair("relationship_valid", values::truth_text(o.relationship_valid)),
        engine::pair("target_exists", values::truth_text(o.target_exists)),
        engine::pair("invalid_reason", o.invalid_reason.clone()),
    ];
    assert(r.deep_view() == drawing_fields(o.deep_view()));
    r
}

/// Something wrong with an object, after what there is to tell of it.
pub open spec fn fault(told: FieldsModel, code: Seq<char>, stage: Seq<char>, message: Seq<char>) -> FieldsModel {
    told + seq![("code"@, code), ("not_completed"@, stage), ("message"@, message)]
}

fn fault_of(told: Fields, code: &str, stage: &str, message: &str) -> (r: Fields)
    ensures
        r.deep_view() == fault(told.deep_view(), code@, stage@, message@),
{
    let mut out = told;
    let mut more: Fields = vec![
        engine::pair("code", code.to_owned()),
        engine::pair("not_completed", stage.to_owned()),
        engine::pair("message", message.to_owned()),
    ];
    let ghost a = out.deep_view();
    let ghost b = more.deep_view();
    out.append(&mut more);
    assert(out.deep_view() == a + b);
    assert(out.deep_view() == fault(a, code@, stage@, message@));
    out
}

/// A report with one item, where it applies.
pub open spec fn told_if(applies: bool, item: FieldsModel) -> ReportModel {
    if applies {
        seq![item]
    } else {
        Seq::empty()
    }
}

fn tell_if(out: &mut Vec<Fields>, applies: bool, item: Fields)
    ensures
        final(out).deep_view() == old(out).deep_view() + told_if(applies, item.deep_view()),
{
    let ghost before = out.deep_view();
    if applies {
        out.push(item);
        assert(out.deep_view() == before + seq![item.deep_view()]);
    } else {
        assert(before + ReportModel::empty() == before);
    }
}

/// What is wrong with a drawing.
pub open spec fn drawing_faults(o: DrawingObject<Seq<char>>) -> ReportModel {
    let told = drawing_fields(o);
    Seq::<FieldsModel>::empty()
        + told_if(
        !o.relationship_valid,
        fault(
            told,
            "missing_drawing_relationship"@,
            "drawing_relationship_resolution"@,
            "Drawing object references a relationship id that is missing from the drawing rels part."@,
        ),
    )
        + told_if(
        o.relationship_valid && o.target_path.len() > 0 && !o.target_exists,
        fault(
            told,
            "missing_drawing_target_part"@,
            "drawing_target_validation"@,
            "Drawing relationship target part is missing from the workbook package."@,
        ),
    )
        + told_if(
        o.invalid_reason.len() > 0,
        fault(
            told,
            o.invalid_reason,
            "drawing_anchor_follow"@,
            "Drawing anchor could not be safely followed through a structure edit."@,
        ),
    )
}

fn drawing_faults_of(o: &DrawingObject) -> (r: Vec<Fields>)
    ensures
        r.deep_view() == drawing_faults(o.deep_view()),
{
    let mut out: Vec<Fields> = Vec::new();
    assert(out.deep_view() == ReportModel::empty());
    tell_if(
        &mut out,
        !o.relationship_valid,
        fault_of(
            drawing_object_to_map(o),
            "missing_drawing_relationship",
            "drawing_relationship_resolution",
            "Drawing object references a relationship id that is missing from the drawing rels part.",
        ),
    );
    tell_if(
        &mut out,
        o.relationship_valid && !o.target_path.as_str().is_empty() && !o.target_exists,
        fault_of(
            drawing_object_to_map(o),
            "missing_drawing_target_part",
            "drawing_target_validation",
            "Drawing relationship target part is missing from the workbook package.",
        ),
    );
    tell_if(
        &mut out,
        !o.invalid_reason.as_str().is_empty(),
        fault_of(
            drawing_object_to_map(o),
            &o.invalid_reason,
            "drawing_anchor_follow",
            "Drawing anchor could not be safely followed through a structure edit.",
        ),
    );
    out
}

/// The drawings of a sheet.
pub open spec fn drawings_told(list: Seq<DrawingObject<Seq<char>>>, sheet: Seq<char>) -> ReportModel
    decreases list.len(),
{
    if list.len() == 0 {
        Seq::empty()
    } else {
        let done = drawings_told(list.drop_last(), sheet);
        let x = list.last();
        if x.sheet == sheet {
            done.push(drawing_fields(x))
        } else {
            done
        }
    }
}

fn tell_drawings(list: &Vec<DrawingObject>, sheet: &str) -> (r: Vec<Fields>)
    ensures
        r.deep_view() == drawings_told(list.deep_view(), sheet@),
{
    let ghost all = list.deep_view();
    let mut out: Vec<Fields> = Vec::new();
    assert(out.deep_view() == ReportModel::empty());
    assert(all.take(0).len() == 0);
    let mut i: usize = 0;
    while i < list.len()
        invariant
            i <= list.len(),
            all == list.deep_view(),
            out.deep_view() == drawings_told(all.take(i as int), sheet@),
        decreases list.len() - i,
    {
        assert(all.take(i + 1).drop_last() == all.take(i as int));
        assert(all.take(i + 1).last() == list@[i as int].deep_view());
        let x = &list[i];
        if text::same(&x.sheet, sheet) {
            let item = drawing_object_to_map(x);
            let ghost done = out.deep_view();
            out.push(item);
            assert(out.deep_view() == done.push(item.deep_view()));
        }
        i = i + 1;
    }
    assert(all.take(all.len() as int) == all);
    out
}

/// What is wrong with the drawings of a sheet.
pub open spec fn drawing_faults_told(list: Seq<DrawingObject<Seq<char>>>, sheet: Seq<char>) -> ReportModel
    decreases list.len(),
{
    if list.len() == 0 {
        Seq::empty()
    } else {
        let done = drawing_faults_told(list.drop_last(), sheet);
        let x = list.last();
        if x.sheet == sheet {
            done + drawing_faults(x)
        } else {
            done
        }
    }
}

fn tell_drawing_faults(list: &Vec<DrawingObject>, sheet: &str) -> (r: Vec<Fields>)
    ensures
        r.deep_view() == drawing_faults_told(list.deep_view(), sheet@),
{
    let ghost all = list.deep_view();
    let mut out: Vec<Fields> = Vec::new();
    assert(out.deep_view() == ReportModel::empty());
    assert(all.take(0).len() == 0);
    let mut i: usize = 0;
    while i < list.len()
        invariant
            i <= list.len(),
            all == list.deep_view(),
            out.deep_view() == drawing_faults_told(all.take(i as int), sheet@),
        decreases list.len() - i,
    {
        assert(all.take(i + 1).drop_last() == all.take(i as int));
        assert(all.take(i + 1).last() == list@[i as int].deep_view());
        let x = &list[i];
        if text::same(&x.sheet, sheet) {
            add_reports(&mut out, drawing_faults_of(x));
        }
        i = i + 1;
    }
    assert(all.take(all.len() as int) == all);
    out
}

// ----- Objects written with care -----

/// Whether something of an object can be written.
pub open spec fn writable(o: HighRiskObject<Seq<char>>) -> bool {
    if o.object_type == "sparkline"@ {
        text::trim(o.source_formula).len() > 0 && o.invalid_reason.len() == 0
    } else if o.object_type == "pivot_table"@ {
        o.target_exists && o.target_mode.len() == 0 && o.target_path.len() > 0 && o.cache_path.len()
            > 0 && o.cache_exists && o.cache_target_mode.len() == 0 && o.invalid_reason.len() == 0
    } else if o.object_type == "ole_object"@ {
        o.target_exists && o.target_mode.len() == 0 && o.target_path.len() > 0
            && o.ole_extension.len() > 0 && o.invalid_reason.len() == 0
    } else {
        false
    }
}

pub fn high_risk_write_supported(o: &HighRiskObject) -> (r: bool)
    ensures
        r == writable(o.deep_view()),
{
    if text::same(&o.object_type, "sparkline") {
        !text::trimmed(&o.source_formula).as_str().is_empty()
            && o.invalid_reason.as_str().is_empty()
    } else if text::same(&o.object_type, "pivot_table") {
        o.target_exists && o.target_mode.as_str().is_empty() && !o.target_path.as_str().is_empty()
            && !o.cache_path.as_str().is_empty() && o.cache_exists
            && o.cache_target_mode.as_str().is_empty() && o.invalid_reason.as_str().is_empty()
    } else if text::same(&o.object_type, "ole_object") {
        o.target_exists && o.target_mode.as_str().is_empty() && !o.target_path.as_str().is_empty()
            && !o.ole_extension.as_str().is_empty() && o.invalid_reason.as_str().is_empty()
    } else {
        false
    }
}

/// What can be changed of an object.
pub open spec fn mutation(o: HighRiskObject<Seq<char>>) -> Seq<char> {
    if !writable(o) {
        "no_write_boundary"@
    } else if o.object_type == "sparkline"@ {
        "update_source_only"@
    } else if o.object_type == "pivot_table"@ {
        "update_pivot_metadata_only"@
    } else {
        "replace_existing_package_only"@
    }
}

pub fn high_risk_object_mutation_status(o: &HighRiskObject) -> (r: String)
    ensures
        r@ == mutation(o.deep_view()),
{
    if !high_risk_write_supported(o) {
        "no_write_boundary".to_owned()
    } else if text::same(&o.object_type, "sparkline") {
        "update_source_only".to_owned()
    } else if text::same(&o.object_type, "pivot_table") {
        "update_pivot_metadata_only".to_owned()
    } else {
        "replace_existing_package_only".to_owned()
    }
}

/// An object that is said to be writable can be changed: a sparkline that is the first of its
/// id takes a new source, a pivot table new names, an embedded object a new payload.
pub proof fn law_writable_objects_can_be_changed(
    m: EngineModel,
    sheet: Seq<char>,
    id: Seq<char>,
    i: int,
)
    requires
        objectops::risk_place(m.high_risk_objects, sheet, id, 0) == Some(i),
        writable(m.high_risk_objects[i]),
    ensures
        m.high_risk_objects[i].object_type == "pivot_table"@ ==> objectops::editable_pivot(
            m,
            sheet,
            id,
        ) == Ok::<int, Seq<char>>(i),
        m.high_risk_objects[i].object_type == "ole_object"@ ==> objectops::editable_ole(
            m,
            sheet,
            id,
        ) == Ok::<int, Seq<char>>(i),
        m.high_risk_objects[i].object_type == "sparkline"@ ==> forall|
            source: Seq<char>,
            reason: Seq<char>,
        |
            engine::target_refusal(m, sheet, 1, 1) is None && text::trim(source).len() > 0 ==> (
            #[trigger] objectops::sparkline_updated(m, sheet, id, source, reason)).1 is Ok,
{
    reveal_strlit("External");
    reveal_strlit("sparkline");
    reveal_strlit("pivot_table");
    reveal_strlit("ole_object");
    let o = m.high_risk_objects[i];
    assert("sparkline"@.len() != "pivot_table"@.len());
    assert("sparkline"@.len() != "ole_object"@.len());
    assert("pivot_table"@.len() != "ole_object"@.len());
    if o.object_type == "sparkline"@ {
        lemma_trimmed_is_shorter(o.source_formula);
    } else {
        assert(text::lower(o.target_mode).len() != text::lower("External"@).len());
    }
}

proof fn lemma_trimmed_is_shorter(s: Seq<char>)
    ensures
        s.len() == 0 ==> text::trim(s).len() == 0,
{
}

/// What there is to tell of an object that is written with care.
pub open spec fn risk_fields(o: HighRiskObject<Seq<char>>) -> FieldsModel {
    seq![
        ("object_id"@, o.object_id),
        ("object_type"@, o.object_type),
        ("sheet"@, o.sheet),
        ("ref"@, o.ref_text),
        ("source_path"@, o.source_path),
        ("rel_id"@, o.rel_id),
        ("rel_type"@, o.rel_type),
        ("target_path"@, o.target_path),
        ("target_mode"@, o.target_mode),
        ("target_exists"@, values::truth(o.target_exists)),
        ("target_size"@, text::decimal(o.target_size as nat)),
        ("relationship_valid"@, values::truth(o.relationship_valid)),
        ("name"@, o.name),
        ("source_formula"@, o.source_formula),
        ("cache_path"@, o.cache_path),
        ("cache_rel_id"@, o.cache_rel_id),
        ("cache_target_mode"@, o.cache_target_mode),
        ("cache_exists"@, values::truth(o.cache_exists)),
        ("cache_size"@, text::decimal(o.cache_size as nat)),
        ("pivot_cache_id"@, o.pivot_cache_id),
        ("pivot_data_caption"@, o.pivot_data_caption),
        ("pivot_updated_version"@, o.pivot_updated_version),
        ("sparkline_group_type"@, o.sparkline_group_type),
        ("sparkline_display_empty_cells_as"@, o.sparkline_display_empty_cells_as),
        ("sparkline_markers"@, o.sparkline_markers),
        ("ole_extension"@, o.ole_extension),
        ("invalid_reason"@, o.invalid_reason),
        ("write_supported"@, values::truth(writable(o))),
        ("mutation_status"@, mutation(o)),
    ]
}

pub fn high_risk_object_to_map(o: &HighRiskObject) -> (r: Fields)
    ensures
        r.deep_view() == risk_fields(o.deep_view()),
{
    let r: Fields = vec![
        engine::pair("object_id", o.object_id.clone()),
        engine::pair("object_type", o.object_type.clone()),
        engine::pair("sheet", o.sheet.clone()),
        engine::pair("ref", o.ref_text.clone()),
        engine::pair("source_path", o.source_path.clone()),
        engine::pair("rel_id", o.rel_id.clone()),
        engine::pair("rel_type", o.rel_type.clone()),
        engine::pair("target_path", o.target_path.clone()),
        engine::pair("target_mode", o.target_mode.clone()),
        engine::pair("target_exists", values::truth_text(o.target_exists)),
        engine::pair("target_size", text::number_text(o.target_size)),
        engine::pair("relationship_valid", values::truth_text(o.relationship_valid)),
        engine::pair("name", o.name.clone()),
        engine::pair("source_formula", o.source_formula.clone()),
        engine::pair("cache_path", o.cache_path.clone()),
        engine::pair("cache_rel_id", o.cache_rel_id.clone()),
        engine::pair("cache_target_mode", o.cache_target_mode.clone()),
        engine::pair("cache_exists", values::truth_text(o.cache_exists)),
        engine::pair("cache_size", text::number_text(o.cache_size)),
        engine::pair("pivot_cache_id", o.pivot_cache_id.clone()),
        engine::pair("pivot_data_caption", o.pivot_data_caption.clone()),
        engine::pair("pivot_updated_version", o.pivot_updated_version.clone()),
        engine::pair("sparkline_group_type", o.sparkline_group_type.clone()),
        engine::pair("sparkline_display_empty_cells_as", o.sparkline_display_empty_cells_as.clone()),
        engine::pair("sparkline_markers", o.sparkline_markers.clone()),
        engine::pair("ole_extension", o.ole_extension.clone()),
        engine::pair("invalid_reason", o.invalid_reason.clone()),
        engine::pair("write_supported", values::truth_text(high_risk_write_supported(o))),
        engine::pair("mutation_status", high_risk_object_mutation_status(o)),
    ];
    assert(r.deep_view() == risk_fields(o.deep_view()));
    r
}

/// What comes before a fault of such an object.
pub open spec fn warned(told: FieldsModel) -> FieldsModel {
    told.push(("severity"@, "warning"@))
}

fn warned_of(o: &HighRiskObject) -> (r: Fields)
    ensures
        r.deep_view() == warned(risk_fields(o.deep_view())),
{
    let mut out = high_risk_object_to_map(o);
    let ghost before = out.deep_view();
    out.push(engine::pair("severity", "warning".to_owned()));
    assert(out.deep_view() == before.push(("severity"@, "warning"@)));
    out
}

/// What is wrong with an object that is written with care.
pub open spec fn risk_faults(o: HighRiskObject<Seq<char>>) -> ReportModel {
    let told = warned(risk_fields(o));
    Seq::<FieldsModel>::empty()
        + told_if(
        !o.relationship_valid,
        fault(
            told,
            "missing_high_risk_relationship"@,
            "high_risk_relationship_resolution"@,
            "High-risk object relationship is missing or invalid."@,
        ),
    )
        + told_if(
        o.relationship_valid && o.target_path.len() > 0 && !o.target_exists,
        fault(
            told,
            "missing_high_risk_target_part"@,
            "high_risk_target_validation"@,
            "High-risk object target part is missing from the workbook package."@,
        ),
    )
        + told_if(
        o.object_type == "pivot_table"@ && o.cache_path.len() == 0,
        fault(
            told,
            "missing_pivot_cache_definition_relationship"@,
            "pivot_cache_validation"@,
            "Pivot table has no readable pivot cache definition relationship."@,
        ),
    )
        + told_if(
        o.object_type == "pivot_table"@ && o.cache_path.len() > 0 && !o.cache_exists,
        fault(
            told,
            "missing_pivot_cache_definition_part"@,
            "pivot_cache_validation"@,
            "Pivot cache definition target part is missing from the workbook package."@,
        ),
    )
        + told_if(
        o.object_type == "sparkline"@ && o.source_formula.len() == 0,
        fault(
            told,
            "missing_sparkline_source_formula"@,
            "sparkline_source_validation"@,
            "Sparkline source formula could not be read safely."@,
        ),
    )
        + told_if(
        o.invalid_reason.len() > 0,
        fault(
            told,
            o.invalid_reason,
            "high_risk_object_validation"@,
            "High-risk object has an explicit validation boundary."@,
        ),
    )
}

fn risk_faults_of(o: &HighRiskObject) -> (r: Vec<Fields>)
    ensures
        r.deep_view() == risk_faults(o.deep_view()),
{
    let mut out: Vec<Fields> = Vec::new();
    assert(out.deep_view() == ReportModel::empty());
    tell_if(
        &mut out,
        !o.relationship_valid,
        fault_of(
            warned_of(o),
            "missing_high_risk_relationship",
            "high_risk_relationship_resolution",
            "High-risk object relationship is missing or invalid.",
        ),
    );
    tell_if(
        &mut out,
        o.relationship_valid && !o.target_path.as_str().is_empty() && !o.target_exists,
        fault_of(
            warned_of(o),
            "missing_high_risk_target_part",
            "high_risk_target_validation",
            "High-risk object target part is missing from the workbook package.",
        ),
    );
    tell_if(
        &mut out,
        text::same(&o.object_type, "pivot_table") && o.cache_path.as_str().is_empty(),
        fault_of(
            warned_of(o),
            "missing_pivot_cache_definition_relationship",
            "pivot_cache_validation",
            "Pivot table has no readable pivot cache definition relationship.",
        ),
    );
    tell_if(
        &mut out,
        text::same(&o.object_type, "pivot_table") && !o.cache_path.as_str().is_empty() && !o.cache_exists,
        fault_of(
            warned_of(o),
            "missing_pivot_cache_definition_part",
            "pivot_cache_validation",
            "Pivot cache definition target part is missing from the workbook package.",
        ),
    );
    tell_if(
        &mut out,
        text::same(&o.object_type, "sparkline") && o.source_formula.as_str().is_empty(),
        fault_of(
            warned_of(o),
            "missing_sparkline_source_formula",
            "sparkline_source_validation",
            "Sparkline source formula could not be read safely.",
        ),
    );
    tell_if(
        &mut out,
        !o.invalid_reason.as_str().is_empty(),
        fault_of(
            warned_of(o),
            &o.invalid_reason,
            "high_risk_object_validation",
            "High-risk object has an explicit validation boundary.",
        ),
    );
    out
}

/// The objects of a sheet that are written with care.
pub open spec fn risks_told(list: Seq<HighRiskObject<Seq<char>>>, sheet: Seq<char>) -> ReportModel
    decreases list.len(),
{
    if list.len() == 0 {
        Seq::empty()
    } else {
        let done = risks_told(list.drop_last(), sheet);
        let x = list.last();
        if x.sheet == sheet {
            done.push(risk_fields(x))
        } else {
            done
        }
    }
}

fn tell_risks(list: &Vec<HighRiskObject>, sheet: &str) -> (r: Vec<Fields>)
    ensures
        r.deep_view() == risks_told(list.deep_view(), sheet@),
{
    let ghost all = list.deep_view();
    let mut out: Vec<Fields> = Vec::new();
    assert(out.deep_view() == ReportModel::empty());
    assert(all.take(0).len() == 0);
    let mut i: usize = 0;
    while i < list.len()
        invariant
            i <= list.len(),
            all == list.deep_view(),
            out.deep_view() == risks_told(all.take(i as int), sheet@),
        decreases list.len() - i,
    {
        assert(all.take(i + 1).drop_last() == all.take(i as int));
        assert(all.take(i + 1).last() == list@[i as int].deep_view());
        let x = &list[i];
        if text::same(&x.sheet, sheet) {
            let item = high_risk_object_to_map(x);
            let ghost done = out.deep_view();
            out.push(item);
            assert(out.deep_view() == done.push(item.deep_view()));
        }
        i = i + 1;
    }
    assert(all.take(all.len() as int) == all);
    out
}

/// What is wrong with them.
pub open spec fn risk_faults_told(list: Seq<HighRiskObject<Seq<char>>>, sheet: Seq<char>) -> ReportModel
    decreases list.len(),
{
    if list.len() == 0 {
        Seq::empty()
    } else {
        let done = risk_faults_told(list.drop_last(), sheet);
        let x = list.last();
        if x.sheet == sheet {
            done + risk_faults(x)
        } else {
            done
        }
    }
}

fn tell_risk_faults(list: &Vec<HighRiskObject>, sheet: &str) -> (r: Vec<Fields>)
    ensures
        r.deep_view() == risk_faults_told(list.deep_view(), sheet@),
{
    let ghost all = list.deep_view();
    let mut out: Vec<Fields> = Vec::new();
    assert(out.deep_view() == ReportModel::empty());
    assert(all.take(0).len() == 0);
    let mut i: usize = 0;
    while i < list.len()
        invariant
            i <= list.len(),
            all == list.deep_view(),
            out.deep_view() == risk_faults_told(all.take(i as int), sheet@),
        decreases list.len() - i,
    {
        assert(all.take(i + 1).drop_last() == all.take(i as int));
        assert(all.take(i + 1).last() == list@[i as int].deep_view());
        let x = &list[i];
        if text::same(&x.sheet, sheet) {
            add_reports(&mut out, risk_faults_of(x));
        }
        i = i + 1;
    }
    assert(all.take(all.len() as int) == all);
    out
}

/// How many objects of a type a sheet has.
pub open spec fn type_count(list: HighRiskModel, sheet: Seq<char>, kind: Seq<char>) -> nat
    decreases list.len(),
{
    if list.len() == 0 {
        0
    } else if list.last().sheet == sheet && list.last().object_type == kind {
        type_count(list.drop_last(), sheet, kind) + 1
    } else {
        type_count(list.drop_last(), sheet, kind)
    }
}

fn count_type(list: &Vec<HighRiskObject>, sheet: &str, kind: &str) -> (r: usize)
    ensures
        r == type_count(list.deep_view(), sheet@, kind@),
{
    let ghost all = list.deep_view();
    let mut n: usize = 0;
    let mut i: usize = 0;
    assert(all.take(0).len() == 0);
    while i < list.len()
        invariant
            i <= list.len(),
            n <= i,
            all == list.deep_view(),
            n == type_count(all.take(i as int), sheet@, kind@),
        decreases list.len() - i,
    {
        assert(all.take(i + 1).drop_last() == all.take(i as int));
        assert(all.take(i + 1).last() == list@[i as int].deep_view());
        if text::same(&list[i].sheet, sheet) && text::same(&list[i].object_type, kind) {
            n = n + 1;
        }
        i = i + 1;
    }
    assert(all.take(all.len() as int) == all);
    n
}

/// What can be changed of the writable objects of a sheet, each way once.
pub open spec fn mutations(list: HighRiskModel, sheet: Seq<char>) -> Seq<Seq<char>>
    decreases list.len(),
{
    if list.len() == 0 {
        Seq::empty()
    } else {
        let done = mutations(list.drop_last(), sheet);
        if list.last().sheet == sheet && writable(list.last()) {
            entries::with(done, mutation(list.last()))
        } else {
            done
        }
    }
}

fn mutation_list(list: &Vec<HighRiskObject>, sheet: &str) -> (r: Vec<String>)
    ensures
        r.deep_view() == mutations(list.deep_view(), sheet@),
{
    let ghost all = list.deep_view();
    let mut out: Vec<String> = Vec::new();
    assert(out.deep_view() == Seq::<Seq<char>>::empty());
    let mut i: usize = 0;
    assert(all.take(0).len() == 0);
    while i < list.len()
        invariant
            i <= list.len(),
            all == list.deep_view(),
            out.deep_view() == mutations(all.take(i as int), sheet@),
        decreases list.len() - i,
    {
        assert(all.take(i + 1).drop_last() == all.take(i as int));
        assert(all.take(i + 1).last() == list@[i as int].deep_view());
        if text::same(&list[i].sheet, sheet) && high_risk_write_supported(&list[i]) {
            entries::set_add(&mut out, high_risk_object_mutation_status(&list[i]));
        }
        i = i + 1;
    }
    assert(all.take(all.len() as int) == all);
    out
}

pub open spec fn sheet_mutation(list: HighRiskModel, sheet: Seq<char>) -> Seq<char> {
    let ways = mutations(list, sheet);
    if ways.len() == 0 {
        "no_write_boundary"@
    } else if ways.len() == 1 {
        ways[0]
    } else {
        "semantic_write_available"@
    }
}

pub fn high_risk_sheet_mutation_status(list: &Vec<HighRiskObject>, sheet: &str) -> (r: String)
    ensures
        r@ == sheet_mutation(list.deep_view(), sheet@),
{
    let ways = mutation_list(list, sheet);
    assert(ways.deep_view().len() == ways.len());
    if ways.len() == 0 {
        "no_write_boundary".to_owned()
    } else if ways.len() == 1 {
        assert(ways.deep_view()[0] == ways@[0]@);
        ways[0].clone()
    } else {
        "semantic_write_available".to_owned()
    }
}

/// What there is to tell of the objects of a sheet that are written with care.
pub open spec fn risk_status(m: EngineModel, sheet: Seq<char>) -> FieldsModel {
    let list = m.high_risk_objects;
    let found = risks_told(list, sheet);
    let faults = risk_faults_told(list, sheet);
    seq![
        ("sheet"@, sheet),
        ("object_count"@, text::decimal(found.len())),
        ("pivot_table_count"@, text::decimal(type_count(list, sheet, "pivot_table"@))),
        ("sparkline_count"@, text::decimal(type_count(list, sheet, "sparkline"@))),
        ("ole_object_count"@, text::decimal(type_count(list, sheet, "ole_object"@))),
        ("diagnostic_count"@, text::decimal(faults.len())),
        (
            "status"@,
            if found.len() == 0 {
                "empty"@
            } else if faults.len() == 0 {
                "ready"@
            } else {
                "warning"@
            },
        ),
        ("read_supported"@, "true"@),
        ("write_supported"@, values::truth(mutations(list, sheet).len() > 0)),
        ("mutation_status"@, sheet_mutation(list, sheet)),
        (
            "not_completed"@,
            text::joined(text::unique_sorted(told_under(faults, "not_completed"@)), ","@),
        ),
    ]
}

/// The items of a report that are about an object.
pub open spec fn about(report: ReportModel, id: Seq<char>) -> ReportModel
    decreases report.len(),
{
    if report.len() == 0 {
        report
    } else if entries::get(report.last(), "object_id"@) == Some(id) {
        about(report.drop_last(), id).push(report.last())
    } else {
        about(report.drop_last(), id)
    }
}

fn keep_about(report: Vec<Fields>, id: &str) -> (r: Vec<Fields>)
    ensures
        r.deep_view() == about(report.deep_view(), id@),
{
    let ghost all = report.deep_view();
    let key = "object_id".to_owned();
    let mut out: Vec<Fields> = Vec::new();
    assert(out.deep_view() == ReportModel::empty());
    assert(all.take(0) == ReportModel::empty());
    let mut i: usize = 0;
    while i < report.len()
        invariant
            i <= report.len(),
            all == report.deep_view(),
            key@ == "object_id"@,
            out.deep_view() == about(all.take(i as int), id@),
        decreases report.len() - i,
    {
        assert(all.take(i + 1).drop_last() == all.take(i as int));
        assert(all.take(i + 1).last() == report@[i as int].deep_view());
        let fits = match entries::map_get(&report[i], &key) {
            Some(t) => text::same(t, id),
            None => false,
        };
        if fits {
            let ghost done = out.deep_view();
            let item = report[i].copied();
            out.push(item);
            assert(out.deep_view() == done.push(item.deep_view()));
        }
        i = i + 1;
    }
    assert(all.take(all.len() as int) == all);
    out
}

/// What there is to tell of one object, with what is wrong with it.
pub open spec fn risk_read(m: EngineModel, sheet: Seq<char>, id: Seq<char>) -> Fallible<FieldsModel> {
    match objectops::risk_place(m.high_risk_objects, sheet, id, 0) {
        None => Err(coord::value_error("high_risk_object_not_found: "@ + id)),
        Some(i) => {
            let faults = about(risk_faults_told(m.high_risk_objects, sheet), id);
            Ok(
                risk_fields(m.high_risk_objects[i]) + seq![
                    ("read_supported"@, "true"@),
                    (
                        "read_status"@,
                        if faults.len() == 0 {
                            "ready"@
                        } else {
                            "warning"@
                        },
                    ),
                    ("diagnostic_count"@, text::decimal(faults.len())),
                    (
                        "diagnostic_codes"@,
                        text::joined(text::unique_sorted(told_under(faults, "code"@)), ","@),
                    ),
                    (
                        "not_completed"@,
                        text::joined(
                            text::unique_sorted(told_under(faults, "not_completed"@)),
                            ","@,
                        ),
                    ),
                ],
            )
        },
    }
}

pub open spec fn fields_view(r: Result<Fields, ShadowError>) -> Fallible<FieldsModel> {
    match r {
        Ok(v) => Ok(v.deep_view()),
        Err(e) => Err(e.deep_view()),
    }
}

fn joined_values(report: &Vec<Fields>, name: &str) -> (r: String)
    ensures
        r@ == text::joined(
            text::unique_sorted(told_under(report.deep_view(), name@)),
            ","@,
        ),
{
    text::join(&unique_sorted_values(&values_under(report, name)), ",")
}

// ----- Asking the shadow -----

impl SheetShadowEngine {
    fn object_inventory_for_sheet(&self, sheet: &str) -> (r: Vec<Fields>)
        ensures
            r.deep_view() == objects_told(self.deep_view(), sheet@),
    {
        let mut out = tell_comments(&self.comments, sheet);
        add_reports(&mut out, tell_validations(&self.data_validations, sheet));
        add_reports(&mut out, tell_filters(&self.auto_filters, sheet));
        add_reports(&mut out, tell_formats(&self.conditional_formats, sheet));
        out
    }

    fn drawing_inventory_for_sheet(&self, sheet: &str) -> (r: Vec<Fields>)
        ensures
            r.deep_view() == drawings_told(self.deep_view().drawing_objects, sheet@),
    {
        tell_drawings(&self.drawing_objects, sheet)
    }

    fn drawing_diagnostics_for_sheet(&self, sheet: &str) -> (r: Vec<Fields>)
        ensures
            r.deep_view() == drawing_faults_told(self.deep_view().drawing_objects, sheet@),
    {
        tell_drawing_faults(&self.drawing_objects, sheet)
    }

    fn high_risk_inventory_for_sheet(&self, sheet: &str) -> (r: Vec<Fields>)
        ensures
            r.deep_view() == risks_told(self.deep_view().high_risk_objects, sheet@),
    {
        tell_risks(&self.high_risk_objects, sheet)
    }

    fn high_risk_diagnostics_for_sheet(&self, sheet: &str) -> (r: Vec<Fields>)
        ensures
            r.deep_view() == risk_faults_told(self.deep_view().high_risk_objects, sheet@),
    {
        tell_risk_faults(&self.high_risk_objects, sheet)
    }

    fn high_risk_status_for_sheet(&self, sheet: &str) -> (r: Fields)
        ensures
            r.deep_view() == risk_status(self.deep_view(), sheet@),
    {
        let list = &self.high_risk_objects;
        let found = tell_risks(list, sheet);
        let faults = tell_risk_faults(list, sheet);
        let ways = mutation_list(list, sheet);
        assert(found.deep_view().len() == found.len());
        assert(faults.deep_view().len() == faults.len());
        assert(ways.deep_view().len() == ways.len());
        let status = if found.len() == 0 {
            "empty"
        } else if faults.len() == 0 {
            "ready"
        } else {
            "warning"
        };
        let r: Fields = vec![
            engine::pair("sheet", sheet.to_owned()),
            engine::pair("object_count", text::size_text(found.len())),
            engine::pair(
                "pivot_table_count",
                text::size_text(count_type(list, sheet, "pivot_table")),
            ),
            engine::pair(
                "sparkline_count",
                text::size_text(count_type(list, sheet, "sparkline")),
            ),
            engine::pair(
                "ole_object_count",
                text::size_text(count_type(list, sheet, "ole_object")),
            ),
            engine::pair("diagnostic_count", text::size_text(faults.len())),
            engine::pair("status", status.to_owned()),
            engine::pair("read_supported", "true".to_owned()),
            engine::pair("write_supported", values::truth_text(ways.len() > 0)),
            engine::pair("mutation_status", high_risk_sheet_mutation_status(list, sheet)),
            engine::pair("not_completed", joined_values(&faults, "not_completed")),
        ];
        assert(r.deep_view() == risk_status(self.deep_view(), sheet@));
        r
    }

    fn high_risk_read_for_object(&self, sheet: &str, object_id: &str) -> (r: Result<
        Fields,
        ShadowError,
    >)
        ensures
            fields_view(r) == risk_read(self.deep_view(), sheet@, object_id@),
    {
        let i = match objectops::find_risk(&self.high_risk_objects, sheet, object_id) {
            Some(i) => i,
            None => {
                let mut m = "high_risk_object_not_found: ".to_owned();
                m.append(object_id);
                return Err(ShadowError::Value(m));
            },
        };
        assert(self.high_risk_objects.deep_view()[i as int]
            == self.high_risk_objects@[i as int].deep_view());
        let faults = keep_about(tell_risk_faults(&self.high_risk_objects, sheet), object_id);
        assert(faults.deep_view().len() == faults.len());
        let mut out = high_risk_object_to_map(&self.high_risk_objects[i]);
        let status = if faults.len() == 0 {
            "ready"
        } else {
            "warning"
        };
        let mut more: Fields = vec![
            engine::pair("read_supported", "true".to_owned()),
            engine::pair("read_status", status.to_owned()),
            engine::pair("diagnostic_count", text::size_text(faults.len())),
            engine::pair("diagnostic_codes", joined_values(&faults, "code")),
            engine::pair("not_completed", joined_values(&faults, "not_completed")),
        ];
        let ghost a = out.deep_view();
        let ghost b = more.deep_view();
        out.append(&mut more);
        assert(out.deep_view() == a + b);
        assert(out.deep_view() == risk_read(self.deep_view(), sheet@, object_id@)->Ok_0);
        Ok(out)
    }
}

/// What is told of a sheet, where the workbook has the sheet.
pub open spec fn checked<T>(m: EngineModel, sheet: Seq<char>, told: Fallible<T>) -> Fallible<T> {
    match engine::target_refusal(m, sheet, 1, 1) {
        Some(message) => Err(coord::value_error(message)),
        None => told,
    }
}

impl SheetShadowEngine {
    /// The comments and rules of a sheet.
    pub fn object_inventory(&self, sheet: &str) -> (r: Result<Vec<Fields>, ShadowError>)
        ensures
            recalc::reports_view(r) == checked(
                self.deep_view(),
                sheet@,
                Ok(objects_told(self.deep_view(), sheet@)),
            ),
    {
        match self.target_refused(sheet, 1, 1) {
            Some(message) => Err(ShadowError::Value(message)),
            None => Ok(self.object_inventory_for_sheet(sheet)),
        }
    }

    /// The drawings of a sheet.
    pub fn drawing_object_inventory(&self, sheet: &str) -> (r: Result<Vec<Fields>, ShadowError>)
        ensures
            recalc::reports_view(r) == checked(
                self.deep_view(),
                sheet@,
                Ok(drawings_told(self.deep_view().drawing_objects, sheet@)),
            ),
    {
        match self.target_refused(sheet, 1, 1) {
            Some(message) => Err(ShadowError::Value(message)),
            None => Ok(self.drawing_inventory_for_sheet(sheet)),
        }
    }

    /// What is wrong with the drawings of a sheet.
    pub fn drawing_relationship_diagnostics(&self, sheet: &str) -> (r: Result<Vec<Fields>, ShadowError>)
        ensures
            recalc::reports_view(r) == checked(
                self.deep_view(),
                sheet@,
                Ok(drawing_faults_told(self.deep_view().drawing_objects, sheet@)),
            ),
    {
        match self.target_refused(sheet, 1, 1) {
            Some(message) => Err(ShadowError::Value(message)),
            None => Ok(self.drawing_diagnostics_for_sheet(sheet)),
        }
    }

    /// The pivot tables, sparklines and embedded objects of a sheet.
    pub fn high_risk_object_inventory(&self, sheet: &str) -> (r: Result<Vec<Fields>, ShadowError>)
        ensures
            recalc::reports_view(r) == checked(
                self.deep_view(),
                sheet@,
                Ok(risks_told(self.deep_view().high_risk_objects, sheet@)),
            ),
    {
        match self.target_refused(sheet, 1, 1) {
            Some(message) => Err(ShadowError::Value(message)),
            None => Ok(self.high_risk_inventory_for_sheet(sheet)),
        }
    }

    /// What is wrong with the pivot tables, sparklines and embedded objects of a sheet.
    pub fn high_risk_object_diagnostics(&self, sheet: &str) -> (r: Result<Vec<Fields>, ShadowError>)
        ensures
            recalc::reports_view(r) == checked(
                self.deep_view(),
                sheet@,
                Ok(risk_faults_told(self.deep_view().high_risk_objects, sheet@)),
            ),
    {
        match self.target_refused(sheet, 1, 1) {
            Some(message) => Err(ShadowError::Value(message)),
            None => Ok(self.high_risk_diagnostics_for_sheet(sheet)),
        }
    }

    /// A summary of the pivot tables, sparklines and embedded objects of a sheet.
    pub fn high_risk_object_status(&self, sheet: &str) -> (r: Result<Fields, ShadowError>)
        ensures
            fields_view(r) == checked(
                self.deep_view(),
                sheet@,
                Ok(risk_status(self.deep_view(), sheet@)),
            ),
    {
        match self.target_refused(sheet, 1, 1) {
            Some(message) => Err(ShadowError::Value(message)),
            None => Ok(self.high_risk_status_for_sheet(sheet)),
        }
    }

    /// One pivot table, sparkline or embedded object.
    pub fn read_high_risk_object(&self, sheet: &str, object_id: &str) -> (r: Result<
        Fields,
        ShadowError,
    >)
        ensures
            fields_view(r) == checked(
                self.deep_view(),
                sheet@,
                risk_read(self.deep_view(), sheet@, object_id@),
            ),
    {
        match self.target_refused(sheet, 1, 1) {
            Some(message) => Err(ShadowError::Value(message)),
            None => self.high_risk_read_for_object(sheet, object_id),
        }
    }
}

proof fn lemma_ways_there(list: HighRiskModel, sheet: Seq<char>, i: int)
    requires
        0 <= i < list.len(),
        list[i].sheet == sheet,
        writable(list[i]),
    ensures
        mutations(list, sheet).len() > 0,
    decreases list.len(),
{
    if i < list.len() - 1 {
        lemma_ways_there(list.drop_last(), sheet, i);
    }
}

proof fn lemma_no_ways(list: HighRiskModel, sheet: Seq<char>)
    requires
        forall|i: int|
            0 <= i < list.len() ==> !((#[trigger] list[i]).sheet == sheet && writable(list[i])),
    ensures
        mutations(list, sheet).len() == 0,
    decreases list.len(),
{
    if list.len() > 0 {
        lemma_no_ways(list.drop_last(), sheet);
    }
}

/// A sheet is said to support writing exactly where one of its objects does.
pub proof fn law_sheet_is_writable_where_an_object_is(list: HighRiskModel, sheet: Seq<char>)
    ensures
        mutations(list, sheet).len() > 0 <==> exists|i: int|
            0 <= i < list.len() && (#[trigger] list[i]).sheet == sheet && writable(list[i]),
{
    if exists|i: int|
        0 <= i < list.len() && (#[trigger] list[i]).sheet == sheet && writable(list[i]) {
        let i = choose|i: int|
            0 <= i < list.len() && (#[trigger] list[i]).sheet == sheet && writable(list[i]);
        lemma_ways_there(list, sheet, i);
    } else {
        lemma_no_ways(list, sheet);
    }
}

} // verus!
