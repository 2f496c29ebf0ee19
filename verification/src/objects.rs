//! Tables and the other ranged objects of a sheet, and how structure edits move them.

use crate::coord;
use crate::coord::{StructureAxis, StructureEdit, StructureOpKind};
use crate::records::{
    AuditEvent, AutoFilterRule, CellComment, ConditionalFormatRule, DataValidationRule,
    DrawingObject, ObjectRange,
};
use crate::text;
use vstd::prelude::*;
use vstd::string::*;

verus! {

// ----- Tables -----

/// A table of a sheet: the rows and columns from its header on, and its columns' names.
#[verifier::ext_equal]
pub struct TableInfo<S = String, C = Vec<String>> {
    pub name: S,
    pub path: S,
    pub sheet: S,
    pub start_row: usize,
    pub end_row: usize,
    pub start_col: usize,
    pub end_col: usize,
    pub totals_row: Option<usize>,
    pub columns: C,
}

pub type TableModel = TableInfo<Seq<char>, Seq<Seq<char>>>;

impl DeepView for TableInfo<String, Vec<String>> {
    type V = TableInfo<Seq<char>, Seq<Seq<char>>>;

    open spec fn deep_view(&self) -> TableModel {
        TableInfo {
            name: self.name@,
            path: self.path@,
            sheet: self.sheet@,
            start_row: self.start_row,
            end_row: self.end_row,
            start_col: self.start_col,
            end_col: self.end_col,
            totals_row: self.totals_row,
            columns: self.columns.deep_view(),
        }
    }
}

impl Clone for TableInfo<String, Vec<String>> {
    fn clone(&self) -> (r: Self)
        ensures
            r.deep_view() == self.deep_view(),
    {
        let columns = self.columns.clone();
        assert(columns.deep_view() == self.columns.deep_view());
        TableInfo {
            name: self.name.clone(),
            path: self.path.clone(),
            sheet: self.sheet.clone(),
            start_row: self.start_row,
            end_row: self.end_row,
            start_col: self.start_col,
            end_col: self.end_col,
            totals_row: self.totals_row,
            columns,
        }
    }
}

pub open spec fn saturated(n: int) -> usize {
    if n > usize::MAX {
        usize::MAX
    } else if n < 0 {
        0
    } else {
        n as usize
    }
}

impl<S, C> TableInfo<S, C> {
    pub open spec fn first_data_row(self) -> usize {
        saturated(self.start_row + 1)
    }

    pub open spec fn last_data_row(self) -> usize {
        match self.totals_row {
            Some(row) => saturated(row - 1),
            None => self.end_row,
        }
    }

    pub fn data_start_row(&self) -> (r: usize)
        ensures
            r == self.first_data_row(),
    {
        self.start_row.saturating_add(1)
    }

    pub fn data_end_row(&self) -> (r: usize)
        ensures
            r == self.last_data_row(),
    {
        match self.totals_row {
            Some(row) => if row == 0 {
                0
            } else {
                row - 1
            },
            None => self.end_row,
        }
    }
}

/// The first column from `i` on with the given name, letter case aside.
pub open spec fn column_from(columns: Seq<Seq<char>>, name: Seq<char>, i: int) -> Option<int>
    decreases columns.len() - i,
{
    if i < 0 || i >= columns.len() {
        None
    } else if text::like(columns[i], text::trim(name)) {
        Some(i)
    } else {
        column_from(columns, name, i + 1)
    }
}

pub open spec fn column_index(columns: Seq<Seq<char>>, name: Seq<char>) -> Option<int> {
    column_from(columns, name, 0)
}

/// The sheet columns from one table column to another, in either order.
pub open spec fn columns_between(t: TableModel, first: Seq<char>, last: Seq<char>) -> Option<
    (usize, usize),
> {
    match (column_index(t.columns, first), column_index(t.columns, last)) {
        (Some(a), Some(b)) => {
            let low = t.start_col + (if a < b { a } else { b });
            let high = t.start_col + (if a < b { b } else { a });
            if high > t.end_col {
                None
            } else {
                Some((low as usize, high as usize))
            }
        },
        _ => None,
    }
}

impl TableInfo<String, Vec<String>> {
    pub fn column_offset(&self, column_name: &str) -> (r: Option<usize>)
        ensures
            text::pos(r) == column_index(self.columns.deep_view(), column_name@),
    {
        let name = text::trimmed(column_name);
        let mut i: usize = 0;
        while i < self.columns.len()
            invariant
                i <= self.columns.len(),
                name@ == text::trim(column_name@),
                column_index(self.columns.deep_view(), column_name@) == column_from(
                    self.columns.deep_view(),
                    column_name@,
                    i as int,
                ),
            decreases self.columns.len() - i,
        {
            assert(self.columns.deep_view()[i as int] == self.columns@[i as int]@);
            if text::eq_nocase(&self.columns[i], &name) {
                return Some(i);
            }
            i = i + 1;
        }
        None
    }

    pub fn has_column(&self, column_name: &str) -> (r: bool)
        ensures
            r == column_index(self.columns.deep_view(), column_name@) is Some,
    {
        self.column_offset(column_name).is_some()
    }

    pub fn column_span(&self, start_column: &str, end_column: &str) -> (r: Option<(usize, usize)>)
        ensures
            r == columns_between(self.deep_view(), start_column@, end_column@),
    {
        match (self.column_offset(start_column), self.column_offset(end_column)) {
            (Some(a), Some(b)) => {
                let low = if a < b { a } else { b };
                let high = if a < b { b } else { a };
                match self.start_col.checked_add(high) {
                    Some(end) => if end > self.end_col {
                        None
                    } else {
                        Some((self.start_col + low, end))
                    },
                    None => None,
                }
            },
            _ => None,
        }
    }
}

pub open spec fn table_text(t: TableModel) -> Seq<char> {
    coord::range_text(t.start_row, t.start_col, t.end_row, t.end_col)
}

pub fn table_ref(t: &TableInfo) -> (r: String)
    ensures
        r@ == table_text(t.deep_view()),
{
    coord::range_name(t.start_row, t.start_col, t.end_row, t.end_col)
}

// ----- Spans of lines -----

/// How many lines two spans have in common; none where the second begins at 0.
pub open spec fn common_lines(a_start: int, a_end: int, b_start: int, b_end: int) -> int {
    let low = if a_start > b_start { a_start } else { b_start };
    let high = if a_end < b_end { a_end } else { b_end };
    if b_start == 0 || high < low {
        0
    } else {
        high - low + 1
    }
}

pub fn overlap_len(a_start: usize, a_end: usize, b_start: usize, b_end: usize) -> (r: usize)
    ensures
        r == common_lines(a_start as int, a_end as int, b_start as int, b_end as int),
{
    let low = if a_start > b_start { a_start } else { b_start };
    let high = if a_end < b_end { a_end } else { b_end };
    if b_start == 0 || high < low {
        0
    } else {
        high - low + 1
    }
}

pub open spec fn at_least(n: int, low: int) -> int {
    if n < low {
        low
    } else {
        n
    }
}

/// A span of lines after an edit. An insertion at its start or inside it, or directly
/// behind it, makes it longer; what a deletion leaves of it is at least one line; a line
/// past the largest machine word becomes that word.
pub open spec fn span_after<S>(start: usize, end: usize, e: StructureEdit<S>) -> (usize, usize) {
    match e.kind {
        StructureOpKind::Insert => if e.start <= start {
            (saturated(start + e.count()), saturated(end + e.count()))
        } else if e.start <= end + 1 {
            (start, saturated(end + e.count()))
        } else {
            (start, end)
        },
        StructureOpKind::Delete => {
            let before = common_lines(e.start as int, e.end as int, 1, at_least(start - 1, 0));
            let inside = common_lines(e.start as int, e.end as int, start as int, end as int);
            let first = at_least(at_least(start - before, 0), 1);
            let last = at_least(at_least(end - (before + inside), 0), first);
            (first as usize, last as usize)
        },
        StructureOpKind::Move => {
            let a = match coord::coord_after(start, e) {
                Some(c) => c,
                None => start,
            };
            let b = match coord::coord_after(end, e) {
                Some(c) => c,
                None => end,
            };
            if a < b {
                (a, b)
            } else {
                (b, a)
            }
        },
    }
}

pub fn shift_span(start: usize, end: usize, edit: &StructureEdit) -> (r: (usize, usize))
    requires
        edit.valid(),
    ensures
        r == span_after(start, end, edit.deep_view()),
{
    match edit.kind {
        StructureOpKind::Insert => {
            let span = edit.end - edit.start;
            if edit.start <= start {
                (start.saturating_add(span).saturating_add(1), end.saturating_add(span).saturating_add(1))
            } else if edit.start - 1 <= end {
                (start, end.saturating_add(span).saturating_add(1))
            } else {
                (start, end)
            }
        },
        StructureOpKind::Delete => {
            let until = if start == 0 { 0 } else { start - 1 };
            let before = overlap_len(edit.start, edit.end, 1, until);
            let inside = overlap_len(edit.start, edit.end, start, end);
            let first = if start <= before {
                1
            } else {
                start - before
            };
            let rest = if end <= before { 0 } else { end - before };
            let left = if rest <= inside { 0 } else { rest - inside };
            (first, if left < first { first } else { left })
        },
        StructureOpKind::Move => {
            let a = match coord::transform_coord(start, edit) {
                Some(c) => c,
                None => start,
            };
            let b = match coord::transform_coord(end, edit) {
                Some(c) => c,
                None => end,
            };
            if a < b {
                (a, b)
            } else {
                (b, a)
            }
        },
    }
}

/// A table after an edit of its sheet. A totals row that is deleted gives way to the
/// table's last row, and so does a missing one.
pub open spec fn table_after(t: TableModel, e: StructureEdit<Seq<char>>) -> TableModel {
    match e.axis {
        StructureAxis::Row => {
            let (start, end) = span_after(t.start_row, t.end_row, e);
            let last = if end < start { start } else { end };
            TableInfo {
                start_row: start,
                end_row: last,
                totals_row: match t.totals_row {
                    Some(row) => match coord::coord_after(row, e) {
                        Some(next) => Some(next),
                        None => Some(last),
                    },
                    None => Some(last),
                },
                ..t
            }
        },
        StructureAxis::Col => {
            let (start, end) = span_after(t.start_col, t.end_col, e);
            TableInfo { start_col: start, end_col: if end < start { start } else { end }, ..t }
        },
    }
}

pub fn apply_table_shift(t: &mut TableInfo, edit: &StructureEdit)
    requires
        edit.valid(),
    ensures
        final(t).deep_view() == table_after(old(t).deep_view(), edit.deep_view()),
{
    match edit.axis {
        StructureAxis::Row => {
            let (start, end) = shift_span(t.start_row, t.end_row, edit);
            t.start_row = start;
            t.end_row = if end < start { start } else { end };
            t.totals_row = match t.totals_row {
                Some(row) => match coord::transform_coord(row, edit) {
                    Some(next) => Some(next),
                    None => Some(t.end_row),
                },
                None => Some(t.end_row),
            };
        },
        StructureAxis::Col => {
            let (start, end) = shift_span(t.start_col, t.end_col, edit);
            t.start_col = start;
            t.end_col = if end < start { start } else { end };
        },
    }
}

/// Inserting lines never makes an ordered span lose a line, and deleting them again
/// gives the span back where the insertion did not touch the machine's bound.
pub proof fn law_span_survives_insert_and_delete<S>(
    start: usize,
    end: usize,
    insert: StructureEdit<S>,
)
    requires
        insert.valid(),
        insert.kind == StructureOpKind::Insert,
        1 <= start <= end,
        end + insert.count() <= usize::MAX,
    ensures
        ({
            let (a, b) = span_after(start, end, insert);
            &&& b - a >= end - start
            &&& span_after(a, b, StructureEdit { kind: StructureOpKind::Delete, ..insert })
                == (start, end)
        }),
{
}

// ----- Ranged objects -----

impl<S> ObjectRange<S> {
    pub open spec fn range_text(self) -> Seq<char> {
        coord::range_text(self.start_row, self.start_col, self.end_row, self.end_col)
    }

    pub open spec fn is_valid(self) -> bool {
        self.start_row > 0 && self.start_col > 0 && self.end_row >= self.start_row && self.end_col
            >= self.start_col
    }

    pub fn ref_text(&self) -> (r: String)
        ensures
            r@ == self.range_text(),
    {
        coord::range_name(self.start_row, self.start_col, self.end_row, self.end_col)
    }

    pub fn valid_object_range(&self) -> (r: bool)
        ensures
            r == self.is_valid(),
    {
        self.start_row > 0 && self.start_col > 0 && self.end_row >= self.start_row && self.end_col
            >= self.start_col
    }
}

pub open spec fn object_range_after(
    range: ObjectRange<Seq<char>>,
    e: StructureEdit<Seq<char>>,
) -> ObjectRange<Seq<char>> {
    match e.axis {
        StructureAxis::Row => {
            let (start, end) = span_after(range.start_row, range.end_row, e);
            ObjectRange { start_row: start, end_row: end, ..range }
        },
        StructureAxis::Col => {
            let (start, end) = span_after(range.start_col, range.end_col, e);
            ObjectRange { start_col: start, end_col: end, ..range }
        },
    }
}

/// Moves a range with an edit of its sheet; tells whether its text changed.
pub fn shift_object_range(range: &mut ObjectRange, edit: &StructureEdit) -> (r: bool)
    requires
        edit.valid(),
    ensures
        final(range).deep_view() == object_range_after(old(range).deep_view(), edit.deep_view()),
        r == (final(range).deep_view().range_text() != old(range).deep_view().range_text()),
{
    let before = range.ref_text();
    match edit.axis {
        StructureAxis::Row => {
            let (start, end) = shift_span(range.start_row, range.end_row, edit);
            range.start_row = start;
            range.end_row = end;
        },
        StructureAxis::Col => {
            let (start, end) = shift_span(range.start_col, range.end_col, edit);
            range.start_col = start;
            range.end_col = end;
        },
    }
    before != range.ref_text()
}

/// An edit's range on the sheet it belongs to; ranges of other sheets stay.
pub open spec fn range_followed(
    range: ObjectRange<Seq<char>>,
    e: StructureEdit<Seq<char>>,
) -> ObjectRange<Seq<char>> {
    if range.sheet == e.sheet {
        object_range_after(range, e)
    } else {
        range
    }
}

pub open spec fn range_moved(range: ObjectRange<Seq<char>>, e: StructureEdit<Seq<char>>) -> bool {
    range_followed(range, e).range_text() != range.range_text()
}

fn follow_range(range: &mut ObjectRange, edit: &StructureEdit) -> (r: bool)
    requires
        edit.valid(),
    ensures
        final(range).deep_view() == range_followed(old(range).deep_view(), edit.deep_view()),
        r == range_moved(old(range).deep_view(), edit.deep_view()),
{
    if range.sheet == edit.sheet {
        shift_object_range(range, edit)
    } else {
        false
    }
}

/// The data validations after an edit: each on its moved range, those without a valid range gone.
pub open spec fn validations_after(s: Seq<DataValidationRule<Seq<char>>>, e: StructureEdit<Seq<char>>) -> Seq<
    DataValidationRule<Seq<char>>,
>
    decreases s.len(),
{
    if s.len() == 0 {
        s
    } else {
        let next = DataValidationRule { range: range_followed(s.last().range, e), ..s.last() };
        if next.range.is_valid() {
            validations_after(s.drop_last(), e).push(next)
        } else {
            validations_after(s.drop_last(), e)
        }
    }
}

pub open spec fn validations_moved(s: Seq<DataValidationRule<Seq<char>>>, e: StructureEdit<Seq<char>>) -> bool {
    exists|i: int| 0 <= i < s.len() && range_moved((#[trigger] s[i]).range, e)
}

pub fn shift_validations(rules: &Vec<DataValidationRule>, edit: &StructureEdit) -> (r: (Vec<DataValidationRule>, bool))
    requires
        edit.valid(),
    ensures
        r.0.deep_view() == validations_after(rules.deep_view(), edit.deep_view()),
        r.1 == validations_moved(rules.deep_view(), edit.deep_view()),
{
    let ghost all = rules.deep_view();
    let ghost e = edit.deep_view();
    let mut out: Vec<DataValidationRule> = Vec::new();
    let mut moved = false;
    let mut i: usize = 0;
    assert(all.take(0) == Seq::<DataValidationRule<Seq<char>>>::empty());
    while i < rules.len()
        invariant
            i <= rules.len(),
            all == rules.deep_view(),
            e == edit.deep_view(),
            edit.valid(),
            out.deep_view() == validations_after(all.take(i as int), e),
            moved == exists|k: int| 0 <= k < i && range_moved((#[trigger] all[k]).range, e),
        decreases rules.len() - i,
    {
        assert(all.take(i + 1).drop_last() == all.take(i as int));
        assert(all[i as int] == rules@[i as int].deep_view());
        let mut rule = rules[i].clone();
        if follow_range(&mut rule.range, edit) {
            assert(range_moved(all[i as int].range, e));
            moved = true;
        }
        if rule.range.valid_object_range() {
            let ghost done = out.deep_view();
            out.push(rule);
            assert(out.deep_view() == done.push(rule.deep_view()));
        }
        i = i + 1;
    }
    assert(all.take(all.len() as int) == all);
    (out, moved)
}

/// The filters after an edit: each on its moved range, those without a valid range gone.
pub open spec fn filters_after(s: Seq<AutoFilterRule<Seq<char>>>, e: StructureEdit<Seq<char>>) -> Seq<
    AutoFilterRule<Seq<char>>,
>
    decreases s.len(),
{
    if s.len() == 0 {
        s
    } else {
        let next = AutoFilterRule { range: range_followed(s.last().range, e), ..s.last() };
        if next.range.is_valid() {
            filters_after(s.drop_last(), e).push(next)
        } else {
            filters_after(s.drop_last(), e)
        }
    }
}

pub open spec fn filters_moved(s: Seq<AutoFilterRule<Seq<char>>>, e: StructureEdit<Seq<char>>) -> bool {
    exists|i: int| 0 <= i < s.len() && range_moved((#[trigger] s[i]).range, e)
}

pub fn shift_filters(rules: &Vec<AutoFilterRule>, edit: &StructureEdit) -> (r: (Vec<AutoFilterRule>, bool))
    requires
        edit.valid(),
    ensures
        r.0.deep_view() == filters_after(rules.deep_view(), edit.deep_view()),
        r.1 == filters_moved(rules.deep_view(), edit.deep_view()),
{
    let ghost all = rules.deep_view();
    let ghost e = edit.deep_view();
    let mut out: Vec<AutoFilterRule> = Vec::new();
    let mut moved = false;
    let mut i: usize = 0;
    assert(all.take(0) == Seq::<AutoFilterRule<Seq<char>>>::empty());
    while i < rules.len()
        invariant
            i <= rules.len(),
            all == rules.deep_view(),
            e == edit.deep_view(),
            edit.valid(),
            out.deep_view() == filters_after(all.take(i as int), e),
            moved == exists|k: int| 0 <= k < i && range_moved((#[trigger] all[k]).range, e),
        decreases rules.len() - i,
    {
        assert(all.take(i + 1).drop_last() == all.take(i as int));
        assert(all[i as int] == rules@[i as int].deep_view());
        let mut rule = rules[i].clone();
        if follow_range(&mut rule.range, edit) {
            assert(range_moved(all[i as int].range, e));
            moved = true;
        }
        if rule.range.valid_object_range() {
            let ghost done = out.deep_view();
            out.push(rule);
            assert(out.deep_view() == done.push(rule.deep_view()));
        }
        i = i + 1;
    }
    assert(all.take(all.len() as int) == all);
    (out, moved)
}

/// The conditional formats after an edit: each on its moved range, those without a valid range gone.
pub open spec fn formats_after(s: Seq<ConditionalFormatRule<Seq<char>>>, e: StructureEdit<Seq<char>>) -> Seq<
    ConditionalFormatRule<Seq<char>>,
>
    decreases s.len(),
{
    if s.len() == 0 {
        s
    } else {
        let next = ConditionalFormatRule { range: range_followed(s.last().range, e), ..s.last() };
        if next.range.is_valid() {
            formats_after(s.drop_last(), e).push(next)
        } else {
            formats_after(s.drop_last(), e)
        }
    }
}

pub open spec fn formats_moved(s: Seq<ConditionalFormatRule<Seq<char>>>, e: StructureEdit<Seq<char>>) -> bool {
    exists|i: int| 0 <= i < s.len() && range_moved((#[trigger] s[i]).range, e)
}

pub fn shift_formats(rules: &Vec<ConditionalFormatRule>, edit: &StructureEdit) -> (r: (Vec<ConditionalFormatRule>, bool))
    requires
        edit.valid(),
    ensures
        r.0.deep_view() == formats_after(rules.deep_view(), edit.deep_view()),
        r.1 == formats_moved(rules.deep_view(), edit.deep_view()),
{
    let ghost all = rules.deep_view();
    let ghost e = edit.deep_view();
    let mut out: Vec<ConditionalFormatRule> = Vec::new();
    let mut moved = false;
    let mut i: usize = 0;
    assert(all.take(0) == Seq::<ConditionalFormatRule<Seq<char>>>::empty());
    while i < rules.len()
        invariant
            i <= rules.len(),
            all == rules.deep_view(),
            e == edit.deep_view(),
            edit.valid(),
            out.deep_view() == formats_after(all.take(i as int), e),
            moved == exists|k: int| 0 <= k < i && range_moved((#[trigger] all[k]).range, e),
        decreases rules.len() - i,
    {
        assert(all.take(i + 1).drop_last() == all.take(i as int));
        assert(all[i as int] == rules@[i as int].deep_view());
        let mut rule = rules[i].clone();
        if follow_range(&mut rule.range, edit) {
            assert(range_moved(all[i as int].range, e));
            moved = true;
        }
        if rule.range.valid_object_range() {
            let ghost done = out.deep_view();
            out.push(rule);
            assert(out.deep_view() == done.push(rule.deep_view()));
        }
        i = i + 1;
    }
    assert(all.take(all.len() as int) == all);
    (out, moved)
}

// ----- Audit events and comments -----

/// An audit event that belongs to no formula.
pub open spec fn event(
    event_type: Seq<char>,
    sheet: Seq<char>,
    row: usize,
    col: usize,
    old_value: Seq<char>,
    new_value: Seq<char>,
    reason: Seq<char>,
) -> AuditEvent<Seq<char>> {
    AuditEvent {
        event_type,
        sheet,
        row,
        col,
        old_value,
        new_value,
        formula: Seq::empty(),
        reason,
    }
}

pub fn object_audit_event(
    event_type: &str,
    sheet: &str,
    row: usize,
    col: usize,
    old_value: &str,
    new_value: &str,
    reason: &str,
) -> (r: AuditEvent)
    ensures
        r.deep_view() == event(event_type@, sheet@, row, col, old_value@, new_value@, reason@),
{
    AuditEvent {
        event_type: event_type.to_owned(),
        sheet: sheet.to_owned(),
        row,
        col,
        old_value: old_value.to_owned(),
        new_value: new_value.to_owned(),
        formula: String::new(),
        reason: reason.to_owned(),
    }
}

/// An audit event with the name of the object or the formula that it is about.
pub open spec fn named_event(
    event_type: Seq<char>,
    sheet: Seq<char>,
    row: usize,
    col: usize,
    old_value: Seq<char>,
    new_value: Seq<char>,
    formula: Seq<char>,
    reason: Seq<char>,
) -> AuditEvent<Seq<char>> {
    AuditEvent { event_type, sheet, row, col, old_value, new_value, formula, reason }
}

pub fn audit_event(
    event_type: &str,
    sheet: &str,
    row: usize,
    col: usize,
    old_value: &str,
    new_value: &str,
    formula: &str,
    reason: &str,
) -> (r: AuditEvent)
    ensures
        r.deep_view() == named_event(
            event_type@,
            sheet@,
            row,
            col,
            old_value@,
            new_value@,
            formula@,
            reason@,
        ),
{
    AuditEvent {
        event_type: event_type.to_owned(),
        sheet: sheet.to_owned(),
        row,
        col,
        old_value: old_value.to_owned(),
        new_value: new_value.to_owned(),
        formula: formula.to_owned(),
        reason: reason.to_owned(),
    }
}

/// What an edit does to a comment: the comment that is left, and the event that tells of
/// it.
pub open spec fn comment_after(c: CellComment<Seq<char>>, e: StructureEdit<Seq<char>>) -> (
    Option<CellComment<Seq<char>>>,
    Option<AuditEvent<Seq<char>>>,
) {
    let before = coord::a1_text(c.key.row, c.key.col);
    if c.key.sheet != e.sheet {
        (Some(c), None)
    } else {
        match coord::key_after(c.key, e) {
            None => (
                None,
                Some(
                    event(
                        "comment_update"@,
                        e.sheet,
                        c.key.row,
                        c.key.col,
                        before,
                        ""@,
                        "structure_object_follow"@,
                    ),
                ),
            ),
            Some(next) => if next == c.key {
                (Some(c), None)
            } else {
                (
                    Some(CellComment { key: next, ..c }),
                    Some(
                        event(
                            "comment_update"@,
                            e.sheet,
                            next.row,
                            next.col,
                            before,
                            coord::a1_text(next.row, next.col),
                            "structure_object_follow"@,
                        ),
                    ),
                )
            },
        }
    }
}

pub open spec fn pushed<T>(s: Seq<T>, x: Option<T>) -> Seq<T> {
    match x {
        Some(t) => s.push(t),
        None => s,
    }
}

/// The comments that an edit leaves, and the events that tell of the changed ones.
pub open spec fn comments_after(
    s: Seq<CellComment<Seq<char>>>,
    e: StructureEdit<Seq<char>>,
) -> (Seq<CellComment<Seq<char>>>, Seq<AuditEvent<Seq<char>>>)
    decreases s.len(),
{
    if s.len() == 0 {
        (Seq::empty(), Seq::empty())
    } else {
        let (done, events) = comments_after(s.drop_last(), e);
        let (comment, told) = comment_after(s.last(), e);
        (pushed(done, comment), pushed(events, told))
    }
}

fn shift_comment(c: &CellComment, edit: &StructureEdit) -> (r: (
    Option<CellComment>,
    Option<AuditEvent>,
))
    requires
        edit.valid(),
    ensures
        (r.0.deep_view(), r.1.deep_view()) == comment_after(c.deep_view(), edit.deep_view()),
{
    if c.key.sheet != edit.sheet {
        return (Some(c.clone()), None);
    }
    let before = coord::cell_name(c.key.row, c.key.col);
    match coord::transform_key(&c.key, edit) {
        None => (
            None,
            Some(
                object_audit_event(
                    "comment_update",
                    &edit.sheet,
                    c.key.row,
                    c.key.col,
                    &before,
                    "",
                    "structure_object_follow",
                ),
            ),
        ),
        Some(next) => {
            if next.row == c.key.row && next.col == c.key.col {
                (Some(c.clone()), None)
            } else {
                let told = object_audit_event(
                    "comment_update",
                    &edit.sheet,
                    next.row,
                    next.col,
                    &before,
                    &coord::cell_name(next.row, next.col),
                    "structure_object_follow",
                );
                (Some(CellComment { key: next, text: c.text.clone() }), Some(told))
            }
        },
    }
}

/// Adds what there is to add.
pub fn push_some<T: DeepView>(v: &mut Vec<T>, x: Option<T>)
    ensures
        final(v).deep_view() == pushed(old(v).deep_view(), x.deep_view()),
{
    match x {
        Some(t) => {
            v.push(t);
            assert(v.deep_view() == old(v).deep_view().push(t.deep_view()));
        },
        None => {},
    }
}

pub fn shift_comments(comments: &Vec<CellComment>, edit: &StructureEdit) -> (r: (
    Vec<CellComment>,
    Vec<AuditEvent>,
))
    requires
        edit.valid(),
    ensures
        (r.0.deep_view(), r.1.deep_view()) == comments_after(
            comments.deep_view(),
            edit.deep_view(),
        ),
{
    let ghost all = comments.deep_view();
    let ghost e = edit.deep_view();
    let mut out: Vec<CellComment> = Vec::new();
    let mut events: Vec<AuditEvent> = Vec::new();
    let mut i: usize = 0;
    assert(out.deep_view() == Seq::<CellComment<Seq<char>>>::empty());
    assert(events.deep_view() == Seq::<AuditEvent<Seq<char>>>::empty());
    while i < comments.len()
        invariant
            i <= comments.len(),
            all == comments.deep_view(),
            e == edit.deep_view(),
            edit.valid(),
            (out.deep_view(), events.deep_view()) == comments_after(all.take(i as int), e),
        decreases comments.len() - i,
    {
        assert(all.take(i + 1).drop_last() == all.take(i as int));
        assert(all[i as int] == comments@[i as int].deep_view());
        let (comment, told) = shift_comment(&comments[i], edit);
        push_some(&mut out, comment);
        push_some(&mut events, told);
        i = i + 1;
    }
    assert(all.take(all.len() as int) == all);
    (out, events)
}

// ----- Drawings -----

/// The cells of a drawing's anchor in A1 notation; empty where no cell anchors it.
pub open spec fn anchor_text(d: DrawingObject<Seq<char>>) -> Seq<char> {
    match (d.from_row, d.from_col) {
        (Some(row), Some(col)) => if d.anchor_kind == "twoCellAnchor"@ && d.to_row is Some
            && d.to_col is Some {
            coord::range_text(row, col, d.to_row.unwrap(), d.to_col.unwrap())
        } else if d.anchor_kind == "oneCellAnchor"@ {
            coord::a1_text(row, col)
        } else {
            Seq::empty()
        },
        _ => Seq::empty(),
    }
}

impl DrawingObject<String> {
    pub fn ref_text(&self) -> (r: String)
        ensures
            r@ == anchor_text(self.deep_view()),
    {
        match (self.from_row, self.from_col) {
            (Some(row), Some(col)) => {
                if text::same(&self.anchor_kind, "twoCellAnchor") {
                    match (self.to_row, self.to_col) {
                        (Some(end_row), Some(end_col)) => return coord::range_name(
                            row,
                            col,
                            end_row,
                            end_col,
                        ),
                        _ => {},
                    }
                }
                if text::same(&self.anchor_kind, "oneCellAnchor") {
                    coord::cell_name(row, col)
                } else {
                    String::new()
                }
            },
            _ => String::new(),
        }
    }
}

/// A marker line after an edit: a deleted line stays where it was.
pub open spec fn marker_after<S>(marker: Option<usize>, e: StructureEdit<S>) -> Option<usize> {
    match marker {
        Some(line) => match coord::coord_after(line, e) {
            Some(next) => Some(next),
            None => Some(line),
        },
        None => None,
    }
}

pub open spec fn marker_deleted<S>(marker: Option<usize>, e: StructureEdit<S>) -> bool {
    e.kind == StructureOpKind::Delete && (marker matches Some(line) && e.start <= line <= e.end)
}

pub fn shift_drawing_marker(marker: Option<usize>, edit: &StructureEdit) -> (r: Option<usize>)
    requires
        edit.valid(),
    ensures
        r == marker_after(marker, edit.deep_view()),
{
    match marker {
        Some(line) => match coord::transform_coord(line, edit) {
            Some(next) => Some(next),
            None => Some(line),
        },
        None => None,
    }
}

pub fn drawing_marker_deleted(marker: Option<usize>, edit: &StructureEdit) -> (r: bool)
    ensures
        r == marker_deleted(marker, edit.deep_view()),
{
    match marker {
        Some(line) => edit.kind == StructureOpKind::Delete && edit.start <= line && line
            <= edit.end,
        None => false,
    }
}

/// A drawing of the edited sheet after the edit: its markers follow, and where a line
/// that anchors it is deleted this is noted as the reason why it is no longer sound.
pub open spec fn drawing_followed(
    d: DrawingObject<Seq<char>>,
    e: StructureEdit<Seq<char>>,
) -> DrawingObject<Seq<char>> {
    let moved = match e.axis {
        StructureAxis::Row => DrawingObject {
            from_row: marker_after(d.from_row, e),
            to_row: marker_after(d.to_row, e),
            ..d
        },
        StructureAxis::Col => DrawingObject {
            from_col: marker_after(d.from_col, e),
            to_col: marker_after(d.to_col, e),
            ..d
        },
    };
    if drawing_invalidated(d, e) {
        DrawingObject { invalid_reason: "anchor_cell_deleted_by_structure_edit"@, ..moved }
    } else {
        moved
    }
}

pub open spec fn drawing_invalidated(
    d: DrawingObject<Seq<char>>,
    e: StructureEdit<Seq<char>>,
) -> bool {
    match e.axis {
        StructureAxis::Row => marker_deleted(d.from_row, e) || marker_deleted(d.to_row, e),
        StructureAxis::Col => marker_deleted(d.from_col, e) || marker_deleted(d.to_col, e),
    }
}

pub open spec fn markers_moved(
    d: DrawingObject<Seq<char>>,
    e: StructureEdit<Seq<char>>,
) -> bool {
    let next = drawing_followed(d, e);
    next.from_row != d.from_row || next.to_row != d.to_row || next.from_col != d.from_col
        || next.to_col != d.to_col
}

pub open spec fn follows(d: DrawingObject<Seq<char>>, e: StructureEdit<Seq<char>>) -> bool {
    d.sheet == e.sheet && d.anchor_kind != "absoluteAnchor"@
}

/// What an edit does to the drawings: the drawings, the drawing parts that change, the
/// events, and whether a drawing lost a line that anchors it.
#[verifier::ext_equal]
pub struct DrawingsShift<D, P, E> {
    pub drawings: D,
    pub paths: P,
    pub events: E,
    pub invalidated: bool,
}

pub type DrawingsShiftModel = DrawingsShift<
    Seq<DrawingObject<Seq<char>>>,
    Seq<Seq<char>>,
    Seq<AuditEvent<Seq<char>>>,
>;

pub open spec fn line_or_zero(line: Option<usize>) -> usize {
    match line {
        Some(n) => n,
        None => 0,
    }
}

pub fn or_zero(line: Option<usize>) -> (r: usize)
    ensures
        r == line_or_zero(line),
{
    match line {
        Some(n) => n,
        None => 0,
    }
}

pub open spec fn drawings_after(
    s: Seq<DrawingObject<Seq<char>>>,
    e: StructureEdit<Seq<char>>,
) -> DrawingsShiftModel
    decreases s.len(),
{
    if s.len() == 0 {
        DrawingsShift {
            drawings: Seq::empty(),
            paths: Seq::empty(),
            events: Seq::empty(),
            invalidated: false,
        }
    } else {
        let done = drawings_after(s.drop_last(), e);
        let d = s.last();
        if !follows(d, e) {
            DrawingsShift { drawings: done.drawings.push(d), ..done }
        } else {
            let next = drawing_followed(d, e);
            let moved = markers_moved(d, e);
            DrawingsShift {
                drawings: done.drawings.push(next),
                paths: if moved {
                    done.paths.push(d.drawing_path)
                } else {
                    done.paths
                },
                events: if moved {
                    done.events.push(
                        named_event(
                            "drawing_anchor_update"@,
                            d.sheet,
                            line_or_zero(next.from_row),
                            line_or_zero(next.from_col),
                            anchor_text(d),
                            anchor_text(next),
                            d.object_id,
                            "structure_drawing_anchor_follow"@,
                        ),
                    )
                } else {
                    done.events
                },
                invalidated: done.invalidated || drawing_invalidated(d, e),
            }
        }
    }
}

fn follow_drawing(d: &DrawingObject, edit: &StructureEdit) -> (r: (DrawingObject, bool, bool))
    requires
        edit.valid(),
    ensures
        r.0.deep_view() == drawing_followed(d.deep_view(), edit.deep_view()),
        r.1 == markers_moved(d.deep_view(), edit.deep_view()),
        r.2 == drawing_invalidated(d.deep_view(), edit.deep_view()),
{
    let mut next = d.clone();
    let lost = match edit.axis {
        StructureAxis::Row => {
            next.from_row = shift_drawing_marker(d.from_row, edit);
            next.to_row = shift_drawing_marker(d.to_row, edit);
            drawing_marker_deleted(d.from_row, edit) || drawing_marker_deleted(d.to_row, edit)
        },
        StructureAxis::Col => {
            next.from_col = shift_drawing_marker(d.from_col, edit);
            next.to_col = shift_drawing_marker(d.to_col, edit);
            drawing_marker_deleted(d.from_col, edit) || drawing_marker_deleted(d.to_col, edit)
        },
    };
    if lost {
        next.invalid_reason = "anchor_cell_deleted_by_structure_edit".to_owned();
    }
    let moved = !(next.from_row == d.from_row && next.to_row == d.to_row && next.from_col
        == d.from_col && next.to_col == d.to_col);
    (next, moved, lost)
}

pub fn shift_drawings(drawings: &Vec<DrawingObject>, edit: &StructureEdit) -> (r: DrawingsShift<
    Vec<DrawingObject>,
    Vec<String>,
    Vec<AuditEvent>,
>)
    requires
        edit.valid(),
    ensures
        drawings_after(drawings.deep_view(), edit.deep_view()) == (DrawingsShift {
            drawings: r.drawings.deep_view(),
            paths: r.paths.deep_view(),
            events: r.events.deep_view(),
            invalidated: r.invalidated,
        }),
{
    let ghost all = drawings.deep_view();
    let ghost e = edit.deep_view();
    let mut out: Vec<DrawingObject> = Vec::new();
    let mut paths: Vec<String> = Vec::new();
    let mut events: Vec<AuditEvent> = Vec::new();
    let mut invalidated = false;
    let mut i: usize = 0;
    assert(out.deep_view() == Seq::<DrawingObject<Seq<char>>>::empty());
    assert(paths.deep_view() == Seq::<Seq<char>>::empty());
    assert(events.deep_view() == Seq::<AuditEvent<Seq<char>>>::empty());
    while i < drawings.len()
        invariant
            i <= drawings.len(),
            all == drawings.deep_view(),
            e == edit.deep_view(),
            edit.valid(),
            drawings_after(all.take(i as int), e) == (DrawingsShift {
                drawings: out.deep_view(),
                paths: paths.deep_view(),
                events: events.deep_view(),
                invalidated,
            }),
        decreases drawings.len() - i,
    {
        assert(all.take(i + 1).drop_last() == all.take(i as int));
        assert(all[i as int] == drawings@[i as int].deep_view());
        let d = &drawings[i];
        let ghost done = out.deep_view();
        if d.sheet != edit.sheet || text::same(&d.anchor_kind, "absoluteAnchor") {
            let kept = d.clone();
            out.push(kept);
            assert(out.deep_view() == done.push(kept.deep_view()));
        } else {
            let (next, moved, lost) = follow_drawing(d, edit);
            if moved {
                let ghost old_paths = paths.deep_view();
                let ghost old_events = events.deep_view();
                let told = audit_event(
                    "drawing_anchor_update",
                    &d.sheet,
                    or_zero(next.from_row),
                    or_zero(next.from_col),
                    &d.ref_text(),
                    &next.ref_text(),
                    &d.object_id,
                    "structure_drawing_anchor_follow",
                );
                paths.push(d.drawing_path.clone());
                events.push(told);
                assert(paths.deep_view() == old_paths.push(d.drawing_path@));
                assert(events.deep_view() == old_events.push(told.deep_view()));
            }
            if lost {
                invalidated = true;
            }
            out.push(next);
            assert(out.deep_view() == done.push(next.deep_view()));
        }
        i = i + 1;
    }
    assert(all.take(all.len() as int) == all);
    DrawingsShift { drawings: out, paths, events, invalidated }
}

} // verus!
