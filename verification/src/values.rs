//! What the value of a cell means: its type, its canonical form, dates behind numbers, and
//! how it is shown.

use crate::coord;
use crate::coord::Key;
use crate::diagnostics::{Fields, FieldsModel};
use crate::engine;
use crate::engine::{EngineModel, SheetShadowEngine};
use crate::entries;
use crate::eval;
use crate::eval::{Arith, Ask, Ctx, CtxModel, Outcome, Reply, Res};
use crate::numbers;
use crate::recalc::Answers;
use crate::records::ShadowMetaRecord;
use crate::text;
use vstd::prelude::*;
use vstd::string::*;

verus! {

// ----- Types -----

/// What kind of value a cell holds, by its type and its number format.
pub open spec fn semantic_type(cell_type: Seq<char>, number_format: Seq<char>) -> Seq<char> {
    let format = text::lower(number_format);
    if cell_type == "formula"@ || cell_type == "bool"@ || cell_type == "error"@ || cell_type
        == "blank"@ || cell_type == "string"@ {
        cell_type
    } else if text::contains(format, "%"@) {
        "percentage"@
    } else if text::contains(format, "y"@) || text::contains(format, "d"@) || text::contains(
        format,
        "m/"@,
    ) || text::contains(format, "mm-"@) {
        "date"@
    } else {
        "number"@
    }
}

pub fn infer_semantic_type(meta: &ShadowMetaRecord) -> (r: String)
    ensures
        r@ == semantic_type(meta.cell_type@, meta.number_format@),
{
    let t = &meta.cell_type;
    if text::same(t, "formula") || text::same(t, "bool") || text::same(t, "error") || text::same(
        t,
        "blank",
    ) || text::same(t, "string") {
        return t.clone();
    }
    let format = text::to_lower(&meta.number_format);
    if text::has(&format, "%") {
        return "percentage".to_owned();
    }
    if text::has(&format, "y") || text::has(&format, "d") || text::has(&format, "m/") || text::has(
        &format,
        "mm-",
    ) {
        return "date".to_owned();
    }
    "number".to_owned()
}

// ----- Dates -----

pub open spec fn leap(year: nat) -> bool {
    (year % 4 == 0 && year % 100 != 0) || year % 400 == 0
}

pub fn is_leap_year(year: u64) -> (r: bool)
    ensures
        r == leap(year as nat),
{
    (year % 4 == 0 && year % 100 != 0) || year % 400 == 0
}

pub open spec fn month_days(year: nat, month: nat) -> nat {
    if month == 2 {
        if leap(year) {
            29
        } else {
            28
        }
    } else if month == 1 || month == 3 || month == 5 || month == 7 || month == 8 || month == 10
        || month == 12 {
        31
    } else {
        30
    }
}

pub fn days_in_month(year: u64, month: u64) -> (r: u64)
    ensures
        r == month_days(year as nat, month as nat),
{
    match month {
        1 | 3 | 5 | 7 | 8 | 10 | 12 => 31,
        2 => if is_leap_year(year) {
            29
        } else {
            28
        },
        _ => 30,
    }
}

/// A day of the calendar.
#[verifier::ext_equal]
pub struct Day<N = u64> {
    pub year: N,
    pub month: N,
    pub day: N,
}

impl Day {
    pub open spec fn counted(self) -> Day<nat> {
        Day { year: self.year as nat, month: self.month as nat, day: self.day as nat }
    }
}

/// The day after a day.
pub open spec fn next_day(d: Day<nat>) -> Day<nat> {
    if d.day < month_days(d.year, d.month) {
        Day { day: d.day + 1, ..d }
    } else if d.month < 12 {
        Day { year: d.year, month: d.month + 1, day: 1 }
    } else {
        Day { year: d.year + 1, month: 1, day: 1 }
    }
}

/// The day that comes some days after the first of January 1900.
pub open spec fn day_after(n: nat) -> Day<nat>
    decreases n,
{
    if n == 0 {
        Day { year: 1900, month: 1, day: 1 }
    } else {
        next_day(day_after((n - 1) as nat))
    }
}

pub open spec fn on_calendar(d: Day<nat>) -> bool {
    1 <= d.month <= 12 && 1 <= d.day <= month_days(d.year, d.month)
}

pub open spec fn earlier(a: Day<nat>, b: Day<nat>) -> bool {
    a.year < b.year || (a.year == b.year && (a.month < b.month || (a.month == b.month && a.day
        < b.day)))
}

/// Counting days never leaves the calendar.
pub proof fn law_days_stay_on_the_calendar(n: nat)
    ensures
        on_calendar(day_after(n)),
        1900 <= day_after(n).year <= 1900 + n,
    decreases n,
{
    if n > 0 {
        law_days_stay_on_the_calendar((n - 1) as nat);
    }
}

/// More days lead to a later day.
pub proof fn law_days_go_on(a: nat, b: nat)
    requires
        a < b,
    ensures
        earlier(day_after(a), day_after(b)),
    decreases b,
{
    law_days_stay_on_the_calendar((b - 1) as nat);
    if a < b - 1 {
        law_days_go_on(a, (b - 1) as nat);
    }
}

/// How many days after the first of January 1900 a serial number is: serial number 1 is that
/// day, and 60 repeats 59, for the calendar has no 29th of February 1900.
pub open spec fn serial_days(serial: nat) -> nat {
    if serial >= 60 {
        (serial - 2) as nat
    } else {
        (serial - 1) as nat
    }
}

/// A number with at least the given number of digits.
pub open spec fn padded(n: nat, width: nat) -> Seq<char> {
    if text::decimal(n).len() >= width {
        text::decimal(n)
    } else {
        Seq::new((width - text::decimal(n).len()) as nat, |i: int| '0') + text::decimal(n)
    }
}

fn pad(n: u64, width: usize) -> (r: String)
    ensures
        r@ == padded(n as nat, width as nat),
{
    let digits = text::number_text(n);
    let len = text::length(&digits);
    let mut out: Vec<char> = Vec::new();
    let mut i: usize = len;
    while i < width
        invariant
            i >= len,
            i == len || i <= width,
            out@ == Seq::new((i - len) as nat, |k: int| '0'),
        decreases width - i,
    {
        out.push('0');
        i = i + 1;
        assert(out@ == Seq::new((i - len) as nat, |k: int| '0'));
    }
    let mut r = text::text_of(&out);
    r.append(&digits);
    assert(len >= width ==> r@ == text::decimal(n as nat));
    r
}

pub open spec fn day_text(d: Day<nat>) -> Seq<char> {
    padded(d.year, 4) + "-"@ + padded(d.month, 2) + "-"@ + padded(d.day, 2)
}

/// The date of a serial number, from 1 on.
pub open spec fn serial_date(serial: nat) -> Option<Seq<char>> {
    if serial < 1 || serial > i64::MAX {
        None
    } else {
        Some(day_text(day_after(serial_days(serial))))
    }
}

/// The date of a whole number of days as workbooks count them.
pub fn excel_serial_to_date(serial: u64) -> (r: Option<String>)
    ensures
        r.deep_view() == serial_date(serial as nat),
{
    if serial < 1 || serial > i64::MAX as u64 {
        return None;
    }
    let days: u64 = if serial >= 60 {
        serial - 2
    } else {
        serial - 1
    };
    let mut at = Day { year: 1900u64, month: 1u64, day: 1u64 };
    let mut i: u64 = 0;
    while i < days
        invariant
            i <= days,
            days <= i64::MAX,
            at.counted() == day_after(i as nat),
        decreases days - i,
    {
        proof {
            law_days_stay_on_the_calendar(i as nat);
        }
        if at.day < days_in_month(at.year, at.month) {
            at.day = at.day + 1;
        } else if at.month < 12 {
            at.month = at.month + 1;
            at.day = 1;
        } else {
            at.year = at.year + 1;
            at.month = 1;
            at.day = 1;
        }
        i = i + 1;
    }
    let mut out = pad(at.year, 4);
    out.append("-");
    out.append(&pad(at.month, 2));
    out.append("-");
    out.append(&pad(at.day, 2));
    Some(out)
}

// ----- Forms -----

/// A value in the form that its type asks for.
pub open spec fn canonical(c: CtxModel, raw: Seq<char>, kind: Seq<char>) -> Res<Seq<char>> {
    if kind == "date"@ {
        if !numbers::is_number(raw) {
            Outcome::Value(raw)
        } else {
            match eval::count_for(c, Arith::Days, seq![raw]) {
                Outcome::Value(n) => match serial_date(n as nat) {
                    Some(date) => Outcome::Value(date),
                    None => Outcome::Value(raw),
                },
                other => eval::held(other),
            }
        }
    } else if kind == "bool"@ {
        Outcome::Value(
            if raw == "1"@ {
                "true"@
            } else if raw == "0"@ {
                "false"@
            } else {
                text::lower(raw)
            },
        )
    } else {
        Outcome::Value(raw)
    }
}

pub fn canonical_cell_value(c: &Ctx, raw_value: &str, semantic: &str) -> (r: Outcome<String>)
    ensures
        r.deep_view() == canonical(c.deep_view(), raw_value@, semantic@),
{
    if text::same(semantic, "date") {
        if !numbers::number(raw_value) {
            return Outcome::Value(raw_value.to_owned());
        }
        return match eval::ask_count(c, Arith::Days, eval::one(raw_value)) {
            Outcome::Value(n) => match excel_serial_to_date(n as u64) {
                Some(date) => Outcome::Value(date),
                None => Outcome::Value(raw_value.to_owned()),
            },
            other => eval::hold(other),
        };
    }
    if text::same(semantic, "bool") {
        if text::same(raw_value, "1") {
            return Outcome::Value("true".to_owned());
        }
        if text::same(raw_value, "0") {
            return Outcome::Value("false".to_owned());
        }
        return Outcome::Value(text::to_lower(raw_value));
    }
    Outcome::Value(raw_value.to_owned())
}

/// How a canonical value is shown.
pub open spec fn displayed(c: CtxModel, value: Seq<char>, kind: Seq<char>) -> Res<Seq<char>> {
    if kind == "percentage"@ {
        if !numbers::is_number(value) {
            Outcome::Value(value)
        } else {
            match eval::number_for(c, Arith::Hundredfold, seq![value]) {
                Outcome::Value(t) => Outcome::Value(t + "%"@),
                other => eval::held(other),
            }
        }
    } else if kind == "bool"@ && value == "true"@ {
        Outcome::Value("TRUE"@)
    } else if kind == "bool"@ && value == "false"@ {
        Outcome::Value("FALSE"@)
    } else {
        Outcome::Value(value)
    }
}

pub fn display_cell_value(c: &Ctx, canonical_value: &str, semantic: &str) -> (r: Outcome<String>)
    ensures
        r.deep_view() == displayed(c.deep_view(), canonical_value@, semantic@),
{
    if text::same(semantic, "percentage") {
        if !numbers::number(canonical_value) {
            return Outcome::Value(canonical_value.to_owned());
        }
        return match eval::ask_number(c, Arith::Hundredfold, eval::one(canonical_value)) {
            Outcome::Value(t) => {
                let mut out = t;
                out.append("%");
                Outcome::Value(out)
            },
            other => eval::hold(other),
        };
    }
    if text::same(semantic, "bool") && text::same(canonical_value, "true") {
        return Outcome::Value("TRUE".to_owned());
    }
    if text::same(semantic, "bool") && text::same(canonical_value, "false") {
        return Outcome::Value("FALSE".to_owned());
    }
    Outcome::Value(canonical_value.to_owned())
}

// ----- Names in short -----

pub open spec fn truth(b: bool) -> Seq<char> {
    if b {
        "true"@
    } else {
        "false"@
    }
}

pub fn truth_text(b: bool) -> (r: String)
    ensures
        r@ == truth(b),
{
    if b {
        "true".to_owned()
    } else {
        "false".to_owned()
    }
}

pub open spec fn key_repr(k: Key<Seq<char>>) -> Seq<char> {
    "CellCoord(sheet='"@ + k.sheet + "', row="@ + text::decimal(k.row as nat) + ", col="@
        + text::decimal(k.col as nat) + ")"@
}

/// A cell in short.
pub fn cell_repr(k: &Key) -> (r: String)
    ensures
        r@ == key_repr(k.deep_view()),
{
    let mut out = "CellCoord(sheet='".to_owned();
    out.append(&k.sheet);
    out.append("', row=");
    out.append(&text::size_text(k.row));
    out.append(", col=");
    out.append(&text::size_text(k.col));
    out.append(")");
    out
}

pub open spec fn style_repr(style: Option<u32>) -> Seq<char> {
    match style {
        Some(n) => "Some("@ + text::decimal(n as nat) + ")"@,
        None => "None"@,
    }
}

pub open spec fn record_repr(r: ShadowMetaRecord<Seq<char>>) -> Seq<char> {
    "ShadowMetaRecord(sheet='"@ + r.sheet_name + "', row="@ + text::decimal(r.row_idx as nat)
        + ", col="@ + text::decimal(r.col_idx as nat) + ", type='"@ + r.cell_type
        + "', style_id="@ + style_repr(r.style_id) + ", modified="@ + truth(r.is_modified)
        + ", dirty="@ + truth(r.is_dirty) + ")"@
}

/// What is known of a cell, in short.
pub fn meta_repr(m: &ShadowMetaRecord) -> (r: String)
    ensures
        r@ == record_repr(m.deep_view()),
{
    let mut out = "ShadowMetaRecord(sheet='".to_owned();
    out.append(&m.sheet_name);
    out.append("', row=");
    out.append(&text::size_text(m.row_idx));
    out.append(", col=");
    out.append(&text::size_text(m.col_idx));
    out.append(", type='");
    out.append(&m.cell_type);
    out.append("', style_id=");
    match m.style_id {
        Some(n) => {
            let mut shown = "Some(".to_owned();
            shown.append(&text::number_text(n as u64));
            shown.append(")");
            out.append(&shown);
        },
        None => out.append("None"),
    }
    out.append(", modified=");
    out.append(&truth_text(m.is_modified));
    out.append(", dirty=");
    out.append(&truth_text(m.is_dirty));
    out.append(")");
    out
}

// ----- Reading a cell -----

pub open spec fn context(m: EngineModel, sheet: Seq<char>, answers: Answers) -> CtxModel {
    CtxModel { sheet, cells: m.cells, answers }
}

pub open spec fn style_text(style: Option<u32>) -> Seq<char> {
    match style {
        Some(n) => text::decimal(n as nat),
        None => Seq::empty(),
    }
}

pub fn style_text_of(style: Option<u32>) -> (r: String)
    ensures
        r@ == style_text(style),
{
    match style {
        Some(n) => text::number_text(n as u64),
        None => String::new(),
    }
}

/// What there is to tell of a cell, with its value as it is, in canonical form and as shown.
pub open spec fn typed_fields(
    sheet: Seq<char>,
    row: usize,
    col: usize,
    meta: Option<ShadowMetaRecord<Seq<char>>>,
    raw: Seq<char>,
    kind: Seq<char>,
    form: Seq<char>,
    shown: Seq<char>,
) -> FieldsModel {
    seq![
        ("sheet"@, sheet),
        ("row"@, text::decimal(row as nat)),
        ("col"@, text::decimal(col as nat)),
        ("value"@, raw),
        ("raw_value"@, raw),
        ("canonical_value"@, form),
        ("display_value"@, shown),
        (
            "cell_type"@,
            match meta {
                Some(r) => r.cell_type,
                None => "blank"@,
            },
        ),
        (
            "number_format"@,
            match meta {
                Some(r) => r.number_format,
                None => Seq::empty(),
            },
        ),
        (
            "original_formula"@,
            match meta {
                Some(r) => r.original_formula,
                None => Seq::empty(),
            },
        ),
        ("semantic_type"@, kind),
        (
            "style_id"@,
            match meta {
                Some(r) => style_text(r.style_id),
                None => Seq::empty(),
            },
        ),
    ]
}

pub open spec fn kind_of(meta: Option<ShadowMetaRecord<Seq<char>>>) -> Seq<char> {
    match meta {
        Some(r) => semantic_type(r.cell_type, r.number_format),
        None => "blank"@,
    }
}

pub open spec fn typed_value(
    m: EngineModel,
    sheet: Seq<char>,
    row: usize,
    col: usize,
    answers: Answers,
) -> Res<FieldsModel> {
    let k = coord::key(sheet, row, col);
    let meta = entries::get(m.meta, k);
    let raw = engine::value_or_empty(m.cells, k);
    let c = context(m, sheet, answers);
    match canonical(c, raw, kind_of(meta)) {
        Outcome::Value(form) => match displayed(c, form, kind_of(meta)) {
            Outcome::Value(shown) => Outcome::Value(
                typed_fields(sheet, row, col, meta, raw, kind_of(meta), form, shown),
            ),
            other => eval::held(other),
        },
        other => eval::held(other),
    }
}

impl SheetShadowEngine {
    /// Reads a cell with what its value means.
    pub fn get_cell_typed_value(
        &self,
        sheet: &str,
        row: usize,
        col: usize,
        answers: &Vec<(Ask, Reply)>,
    ) -> (r: Outcome<Fields>)
        ensures
            r.deep_view() == typed_value(
                self.deep_view(),
                sheet@,
                row,
                col,
                answers.deep_view(),
            ),
    {
        let k = coord::key_of(sheet, row, col);
        let raw = engine::cell_or_empty(&self.cells, &k);
        let meta = entries::map_get(&self.meta, &k);
        let kind = match meta {
            Some(m) => infer_semantic_type(m),
            None => "blank".to_owned(),
        };
        let c = Ctx { sheet, cells: &self.cells, answers };
        let form = match canonical_cell_value(&c, &raw, &kind) {
            Outcome::Value(t) => t,
            other => return eval::hold(other),
        };
        let shown = match display_cell_value(&c, &form, &kind) {
            Outcome::Value(t) => t,
            other => return eval::hold(other),
        };
        let (cell_type, number_format, original_formula, style) = match meta {
            Some(m) => (
                m.cell_type.clone(),
                m.number_format.clone(),
                m.original_formula.clone(),
                style_text_of(m.style_id),
            ),
            None => ("blank".to_owned(), String::new(), String::new(), String::new()),
        };
        let ghost known = entries::get(self.deep_view().meta, k.deep_view());
        let r: Fields = vec![
            engine::pair("sheet", sheet.to_owned()),
            engine::pair("row", text::size_text(row)),
            engine::pair("col", text::size_text(col)),
            engine::pair("value", raw.clone()),
            engine::pair("raw_value", raw.clone()),
            engine::pair("canonical_value", form.clone()),
            engine::pair("display_value", shown.clone()),
            engine::pair("cell_type", cell_type),
            engine::pair("number_format", number_format),
            engine::pair("original_formula", original_formula),
            engine::pair("semantic_type", kind.clone()),
            engine::pair("style_id", style),
        ];
        assert(r.deep_view() == typed_fields(
            sheet@,
            row,
            col,
            known,
            raw@,
            kind@,
            form@,
            shown@,
        ));
        Outcome::Value(r)
    }
}

/// Texts, formulas and errors are shown as they stand, whatever arithmetic is at hand.
pub proof fn law_plain_values_are_shown_as_they_stand(c: CtxModel, raw: Seq<char>, kind: Seq<char>)
    requires
        kind != "date"@,
        kind != "bool"@,
        kind != "percentage"@,
    ensures
        canonical(c, raw, kind) == Outcome::<Seq<char>, Seq<char>, Seq<Seq<char>>>::Value(raw),
        displayed(c, raw, kind) == Outcome::<Seq<char>, Seq<char>, Seq<Seq<char>>>::Value(raw),
{
}

/// Years have 365 days, and 366 every fourth year but for three centuries in four; up to July
/// the odd months are the long ones, and the even ones from August on.
pub proof fn law_years_have_their_days(year: nat, month: nat)
    requires
        1 <= month <= 12,
    ensures
        month_days(year, 1) + month_days(year, 2) + month_days(year, 3) + month_days(year, 4)
            + month_days(year, 5) + month_days(year, 6) + month_days(year, 7) + month_days(year, 8)
            + month_days(year, 9) + month_days(year, 10) + month_days(year, 11) + month_days(
            year,
            12,
        ) == if year % 4 == 0 && (year % 100 == 0 ==> year % 400 == 0) {
            366int
        } else {
            365int
        },
        month_days(year, month) == 31 <==> if month <= 7 {
            month % 2 == 1
        } else {
            month % 2 == 0
        },
        month != 2 ==> month_days(year, month) >= 30,
{
}

/// Serial numbers count the days one by one from the first of January 1900 on; 60 stands for
/// the same day as 59.
pub proof fn law_serials_count_the_days(n: nat)
    requires
        1 <= n < i64::MAX,
    ensures
        n != 59 ==> day_after(serial_days((n + 1) as nat)) == next_day(day_after(serial_days(n))),
        n == 59 ==> serial_date((n + 1) as nat) == serial_date(n),
        serial_date(n) == Some(day_text(day_after(serial_days(n)))),
        serial_days(1) == 0,
{
}

} // verus!
