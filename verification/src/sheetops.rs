//! Formats, merged cells, and the names and states of sheets.

use crate::cells;
use crate::cells::{FormulaCell, FormulasModel, MergesModel, MetaModel};
use crate::copies::Copied;
use crate::coord;
use crate::coord::{Key, ShadowError};
use crate::deps;
use crate::deps::NamesModel;
use crate::diagnostics::{Fields, FieldsModel, ReportModel};
use crate::engine;
use crate::engine::{EngineModel, SheetShadowEngine};
use crate::entries;
use crate::formula;
use crate::objects;
use crate::package::{Fallible, SheetsModel};
use crate::recalc;
use crate::recalc::Keys;
use crate::records::{
    AuditEvent, CellFormatIntent, DefinedName, ShadowMetaRecord, SheetInfo, StylePatch,
};
use crate::styles;
use crate::styles::IntentModel;
use crate::text;
use vstd::prelude::*;
use vstd::string::*;

verus! {

/// The report on a request that was carried out.
pub open spec fn reported(r: (EngineModel, Fallible<()>)) -> Fallible<ReportModel> {
    match r.1 {
        Ok(_) => Ok(engine::trail_report(r.0.audit_events)),
        Err(e) => Err(e),
    }
}

/// Whether a request that was tried out comes to the same as the one that was carried out:
/// to the same result, to the same shadow, and to the same trail with the reason of the trial
/// read as that of the request.
pub open spec fn tells_the_same(
    m: EngineModel,
    applied: (EngineModel, Fallible<()>),
    tried: (EngineModel, Fallible<()>),
    trial: Seq<char>,
    reason: Seq<char>,
) -> bool {
    &&& tried.1 == applied.1
    &&& applied.0.audit_events == m.audit_events + recalc::told_since(m, applied.0)
    &&& recalc::retold(
        tried.0.audit_events,
        recalc::told_since(m, applied.0),
        trial,
        reason,
    )
    &&& recalc::with_trail(tried.0, applied.0.audit_events) == applied.0
}

pub proof fn lemma_nothing_told(m: EngineModel)
    ensures
        recalc::told_since(m, m) == Seq::<AuditEvent<Seq<char>>>::empty(),
        m.audit_events + Seq::<AuditEvent<Seq<char>>>::empty() == m.audit_events,
{
    assert(recalc::told_since(m, m) == Seq::<AuditEvent<Seq<char>>>::empty());
    assert(m.audit_events + Seq::<AuditEvent<Seq<char>>>::empty() == m.audit_events);
}

// ----- Formats -----

/// The number of the style that the next format gets.
pub open spec fn next_style(m: EngineModel) -> u32 {
    engine::short_count((m.style_count + m.style_patches.len()) as nat)
}

/// What is known of a cell's style, for the trail.
pub open spec fn style_account(known: ShadowMetaRecord<Seq<char>>) -> Seq<char> {
    "style_id="@ + (match known.style_id {
        Some(id) => text::decimal(id as nat),
        None => Seq::empty(),
    }) + ";number_format="@ + known.number_format
}

fn style_account_of(known: &ShadowMetaRecord) -> (r: String)
    ensures
        r@ == style_account(known.deep_view()),
{
    let mut out = "style_id=".to_owned();
    let id = match known.style_id {
        Some(id) => text::number_text(id as u64),
        None => String::new(),
    };
    out.append(&id);
    out.append(";number_format=");
    out.append(&known.number_format);
    out
}

/// A shadow in which a cell has a format.
pub open spec fn with_format(m: EngineModel, k: Key<Seq<char>>, i: IntentModel, reason: Seq<char>) -> EngineModel {
    let known = engine::meta_or_blank(m.meta, k);
    let base = match entries::get(m.meta, k) {
        Some(r) => match r.style_id {
            Some(id) => id,
            None => 0,
        },
        None => 0,
    };
    engine::logged(
        EngineModel {
            style_patches: m.style_patches.push(
                StylePatch { key: k, base_style_id: base, intent: i },
            ),
            modified: entries::with(m.modified, k),
            meta: entries::put(
                m.meta,
                k,
                ShadowMetaRecord {
                    style_id: Some(next_style(m)),
                    number_format: match i.number_format {
                        Some(t) => t,
                        None => known.number_format,
                    },
                    is_modified: true,
                    ..known
                },
            ),
            ..m
        },
        objects::event(
            "style_update"@,
            k.sheet,
            k.row,
            k.col,
            style_account(known),
            styles::intent_account(i, next_style(m), base),
            reason,
        ),
    )
}

pub open spec fn format_applied(
    m: EngineModel,
    sheet: Seq<char>,
    row: usize,
    col: usize,
    fields: FieldsModel,
    reason: Seq<char>,
) -> (EngineModel, Fallible<()>) {
    match engine::target_refusal(m, sheet, row, col) {
        Some(message) => (m, Err(coord::value_error(message))),
        None => match styles::intent(fields) {
            Err(e) => (m, Err(e)),
            Ok(i) => if !i.any() {
                (
                    m,
                    Err(
                        coord::value_error(
                            "unsafe_update: set_cell_format requires at least one supported format intent"@,
                        ),
                    ),
                )
            } else {
                (with_format(m, coord::key(sheet, row, col), i, reason), Ok(()))
            },
        },
    }
}

impl SheetShadowEngine {
    fn put_format(&mut self, k: &Key, i: &CellFormatIntent, reason: &str)
        ensures
            final(self).deep_view() == with_format(
                old(self).deep_view(),
                k.deep_view(),
                i.deep_view(),
                reason@,
            ),
    {
        let ghost before = self.style_patches.deep_view();
        assert(before.len() == self.style_patches.len());
        let base = match entries::map_get(&self.meta, k) {
            Some(r) => match r.style_id {
                Some(id) => id,
                None => 0,
            },
            None => 0,
        };
        let count = (self.style_count as usize).saturating_add(self.style_patches.len());
        let style_id = engine::short_count_of(count);
        let patch = StylePatch { key: k.clone(), base_style_id: base, intent: i.clone() };
        self.style_patches.push(patch);
        assert(self.style_patches.deep_view() == before.push(patch.deep_view()));
        entries::set_add(&mut self.modified, k.clone());
        let mut known = engine::meta_record(&self.meta, k);
        let old_value = style_account_of(&known);
        known.style_id = Some(style_id);
        match &i.number_format {
            Some(t) => {
                known.number_format = t.clone();
            },
            None => {},
        }
        known.is_modified = true;
        entries::map_put(&mut self.meta, k.clone(), known);
        let told = objects::object_audit_event(
            "style_update",
            &k.sheet,
            k.row,
            k.col,
            &old_value,
            &i.to_audit_string(style_id, base),
            reason,
        );
        self.log(told);
    }

    fn apply_cell_format_with_reason(
        &mut self,
        sheet: &str,
        row: usize,
        col: usize,
        intent: &Fields,
        reason: &str,
    ) -> (r: Result<(), ShadowError>)
        ensures
            (final(self).deep_view(), coord::outcome(r)) == format_applied(
                old(self).deep_view(),
                sheet@,
                row,
                col,
                intent.deep_view(),
                reason@,
            ),
    {
        match self.target_refused(sheet, row, col) {
            Some(message) => return Err(ShadowError::Value(message)),
            None => {},
        }
        let i = match CellFormatIntent::from_map(intent) {
            Ok(i) => i,
            Err(e) => return Err(e),
        };
        if !i.has_changes() {
            return Err(
                coord::refuse(
                    "unsafe_update: set_cell_format requires at least one supported format intent",
                ),
            );
        }
        self.put_format(&coord::key_of(sheet, row, col), &i, reason);
        Ok(())
    }
}

// ----- Merged cells -----

/// Records with a merged range noted for `n` cells of a row, from `left` on.
pub open spec fn marked_row(
    meta: MetaModel,
    sheet: Seq<char>,
    row: usize,
    left: usize,
    range: Seq<char>,
    n: int,
) -> MetaModel
    decreases n,
{
    if n <= 0 {
        meta
    } else {
        let done = marked_row(meta, sheet, row, left, range, n - 1);
        let k = coord::key(sheet, row, (left + n - 1) as usize);
        entries::put(
            done,
            k,
            ShadowMetaRecord { merge_range: range, ..engine::meta_or_blank(done, k) },
        )
    }
}

/// Records with a merged range noted for `n` rows, from `top` on.
pub open spec fn marked_rows(
    meta: MetaModel,
    sheet: Seq<char>,
    top: usize,
    left: usize,
    width: int,
    range: Seq<char>,
    n: int,
) -> MetaModel
    decreases n,
{
    if n <= 0 {
        meta
    } else {
        marked_row(
            marked_rows(meta, sheet, top, left, width, range, n - 1),
            sheet,
            (top + n - 1) as usize,
            left,
            range,
            width,
        )
    }
}

fn mark_row(
    meta: &mut Vec<(Key, ShadowMetaRecord)>,
    sheet: &str,
    row: usize,
    left: usize,
    width: usize,
    range: &str,
)
    requires
        left + width - 1 <= usize::MAX,
    ensures
        final(meta).deep_view() == marked_row(
            old(meta).deep_view(),
            sheet@,
            row,
            left,
            range@,
            width as int,
        ),
{
    let ghost start = meta.deep_view();
    let mut n: usize = 0;
    while n < width
        invariant
            n <= width,
            left + width - 1 <= usize::MAX,
            meta.deep_view() == marked_row(start, sheet@, row, left, range@, n as int),
        decreases width - n,
    {
        let k = coord::key_of(sheet, row, left + n);
        let mut known = engine::meta_record(meta, &k);
        known.merge_range = range.to_owned();
        entries::map_put(meta, k, known);
        n = n + 1;
    }
}

fn mark_rows(
    meta: &mut Vec<(Key, ShadowMetaRecord)>,
    sheet: &str,
    top: usize,
    left: usize,
    width: usize,
    height: usize,
    range: &str,
)
    requires
        left + width - 1 <= usize::MAX,
        top + height - 1 <= usize::MAX,
    ensures
        final(meta).deep_view() == marked_rows(
            old(meta).deep_view(),
            sheet@,
            top,
            left,
            width as int,
            range@,
            height as int,
        ),
{
    let ghost start = meta.deep_view();
    let mut n: usize = 0;
    while n < height
        invariant
            n <= height,
            left + width - 1 <= usize::MAX,
            top + height - 1 <= usize::MAX,
            meta.deep_view() == marked_rows(
                start,
                sheet@,
                top,
                left,
                width as int,
                range@,
                n as int,
            ),
        decreases height - n,
    {
        mark_row(meta, sheet, top + n, left, width, range);
        n = n + 1;
    }
}

/// The merged ranges of a sheet.
pub open spec fn ranges_of(merges: MergesModel, sheet: Seq<char>) -> Seq<Seq<char>> {
    match entries::get(merges, sheet) {
        Some(list) => list,
        None => Seq::empty(),
    }
}

pub fn ranges_list(merges: &Vec<(String, Vec<String>)>, sheet: &str) -> (r: Vec<String>)
    ensures
        r.deep_view() == ranges_of(merges.deep_view(), sheet@),
{
    match entries::map_get(merges, &sheet.to_owned()) {
        Some(list) => list.copied(),
        None => {
            let none: Vec<String> = Vec::new();
            assert(none.deep_view() == Seq::<Seq<char>>::empty());
            none
        },
    }
}

/// Cells merged, or taken apart again, with the range as it is written.
pub open spec fn with_merge(
    m: EngineModel,
    sheet: Seq<char>,
    top: usize,
    left: usize,
    bottom: usize,
    right: usize,
    merge: bool,
    reason: Seq<char>,
) -> EngineModel {
    let range = coord::range_text(top, left, bottom, right);
    let ranges = ranges_of(m.merges, sheet);
    engine::logged(
        EngineModel {
            merges: entries::put(
                m.merges,
                sheet,
                if merge {
                    entries::with(ranges, range)
                } else {
                    entries::without(ranges, range)
                },
            ),
            merge_dirty_sheets: entries::with(m.merge_dirty_sheets, sheet),
            meta: marked_rows(
                m.meta,
                sheet,
                top,
                left,
                right - left + 1,
                if merge {
                    range
                } else {
                    Seq::empty()
                },
                bottom - top + 1,
            ),
            ..m
        },
        objects::event(
            if merge {
                "merge_update"@
            } else {
                "unmerge_update"@
            },
            sheet,
            top,
            left,
            if merge {
                Seq::empty()
            } else {
                range
            },
            if merge {
                range
            } else {
                Seq::empty()
            },
            reason,
        ),
    )
}

/// Cells merged or taken apart. A range that would not change is refused; the sheet then
/// has an entry for its ranges all the same.
pub open spec fn merge_applied(
    m: EngineModel,
    sheet: Seq<char>,
    start_row: usize,
    start_col: usize,
    end_row: usize,
    end_col: usize,
    merge: bool,
    reason: Seq<char>,
) -> (EngineModel, Fallible<()>) {
    match (
        engine::target_refusal(m, sheet, start_row, start_col),
        engine::target_refusal(m, sheet, end_row, end_col),
    ) {
        (Some(message), _) => (m, Err(coord::value_error(message))),
        (None, Some(message)) => (m, Err(coord::value_error(message))),
        (None, None) => {
            let top = deps::low(start_row, end_row);
            let bottom = deps::high(start_row, end_row);
            let left = deps::low(start_col, end_col);
            let right = deps::high(start_col, end_col);
            let range = coord::range_text(top, left, bottom, right);
            if top == bottom && left == right {
                (
                    m,
                    Err(
                        coord::value_error(
                            "unsafe_update: merge range must cover more than one cell"@,
                        ),
                    ),
                )
            } else if ranges_of(m.merges, sheet).contains(range) == merge {
                (
                    EngineModel {
                        merges: entries::put(m.merges, sheet, ranges_of(m.merges, sheet)),
                        ..m
                    },
                    Err(
                        coord::value_error(
                            "unsafe_update: merge range "@ + range + " was not changed"@,
                        ),
                    ),
                )
            } else {
                (with_merge(m, sheet, top, left, bottom, right, merge, reason), Ok(()))
            }
        },
    }
}

impl SheetShadowEngine {
    fn put_merge(
        &mut self,
        sheet: &str,
        top: usize,
        left: usize,
        bottom: usize,
        right: usize,
        merge: bool,
        reason: &str,
    )
        requires
            1 <= top <= bottom,
            1 <= left <= right,
        ensures
            final(self).deep_view() == with_merge(
                old(self).deep_view(),
                sheet@,
                top,
                left,
                bottom,
                right,
                merge,
                reason@,
            ),
    {
        let range = coord::range_name(top, left, bottom, right);
        let mut ranges = ranges_list(&self.merges, sheet);
        if merge {
            entries::set_add(&mut ranges, range.clone());
        } else {
            entries::set_remove(&mut ranges, &range);
        }
        entries::map_put(&mut self.merges, sheet.to_owned(), ranges);
        entries::set_add(&mut self.merge_dirty_sheets, sheet.to_owned());
        let (before, after) = if merge {
            (String::new(), range)
        } else {
            (range, String::new())
        };
        mark_rows(
            &mut self.meta,
            sheet,
            top,
            left,
            right - left + 1,
            bottom - top + 1,
            &after,
        );
        let told = objects::object_audit_event(
            if merge {
                "merge_update"
            } else {
                "unmerge_update"
            },
            sheet,
            top,
            left,
            &before,
            &after,
            reason,
        );
        self.log(told);
    }

    fn apply_merge_with_reason(
        &mut self,
        sheet: &str,
        start_row: usize,
        start_col: usize,
        end_row: usize,
        end_col: usize,
        merge: bool,
        reason: &str,
    ) -> (r: Result<(), ShadowError>)
        ensures
            (final(self).deep_view(), coord::outcome(r)) == merge_applied(
                old(self).deep_view(),
                sheet@,
                start_row,
                start_col,
                end_row,
                end_col,
                merge,
                reason@,
            ),
    {
        match self.target_refused(sheet, start_row, start_col) {
            Some(message) => return Err(ShadowError::Value(message)),
            None => {},
        }
        match self.target_refused(sheet, end_row, end_col) {
            Some(message) => return Err(ShadowError::Value(message)),
            None => {},
        }
        let top = deps::lower_of(start_row, end_row);
        let bottom = deps::higher_of(start_row, end_row);
        let left = deps::lower_of(start_col, end_col);
        let right = deps::higher_of(start_col, end_col);
        if top == bottom && left == right {
            return Err(
                coord::refuse("unsafe_update: merge range must cover more than one cell"),
            );
        }
        let range = coord::range_name(top, left, bottom, right);
        let ranges = ranges_list(&self.merges, sheet);
        if entries::list_has(&ranges, &range) == merge {
            entries::map_put(&mut self.merges, sheet.to_owned(), ranges);
            let mut message = "unsafe_update: merge range ".to_owned();
            message.append(&range);
            message.append(" was not changed");
            return Err(ShadowError::Value(message));
        }
        self.put_merge(sheet, top, left, bottom, right, merge, reason);
        Ok(())
    }
}

// ----- Names of sheets -----

pub open spec fn renamed_key(k: Key<Seq<char>>, old_name: Seq<char>, new_name: Seq<char>) -> Key<Seq<char>> {
    if k.sheet == old_name {
        coord::key(new_name, k.row, k.col)
    } else {
        k
    }
}

fn rename_key(k: &Key, old_name: &str, new_name: &str) -> (r: Key)
    ensures
        r.deep_view() == renamed_key(k.deep_view(), old_name@, new_name@),
{
    if text::same(&k.sheet, old_name) {
        coord::key_of(new_name, k.row, k.col)
    } else {
        k.clone()
    }
}

pub open spec fn renamed_map<V>(s: Seq<(Key<Seq<char>>, V)>, old_name: Seq<char>, new_name: Seq<char>) -> Seq<
    (Key<Seq<char>>, V),
>
    decreases s.len(),
{
    if s.len() == 0 {
        s
    } else {
        entries::put(
            renamed_map(s.drop_last(), old_name, new_name),
            renamed_key(s.last().0, old_name, new_name),
            s.last().1,
        )
    }
}

pub fn rename_key_map<V: Copied>(v: &Vec<(Key, V)>, old_name: &str, new_name: &str) -> (r: Vec<
    (Key, V),
>)
    ensures
        r.deep_view() == renamed_map(v.deep_view(), old_name@, new_name@),
{
    let ghost all = v.deep_view();
    let mut out: Vec<(Key, V)> = Vec::new();
    let mut i: usize = 0;
    assert(out.deep_view() == Seq::<(Key<Seq<char>>, V::V)>::empty());
    assert(all.take(0) == Seq::<(Key<Seq<char>>, V::V)>::empty());
    while i < v.len()
        invariant
            i <= v.len(),
            all == v.deep_view(),
            out.deep_view() == renamed_map(all.take(i as int), old_name@, new_name@),
        decreases v.len() - i,
    {
        assert(all.take(i + 1).drop_last() == all.take(i as int));
        assert(all.take(i + 1).last() == v@[i as int].deep_view());
        entries::map_put(&mut out, rename_key(&v[i].0, old_name, new_name), v[i].1.copied());
        i = i + 1;
    }
    assert(all.take(all.len() as int) == all);
    out
}

pub open spec fn renamed_set(s: Keys, old_name: Seq<char>, new_name: Seq<char>) -> Keys
    decreases s.len(),
{
    if s.len() == 0 {
        s
    } else {
        entries::with(
            renamed_set(s.drop_last(), old_name, new_name),
            renamed_key(s.last(), old_name, new_name),
        )
    }
}

pub fn rename_key_set(v: &Vec<Key>, old_name: &str, new_name: &str) -> (r: Vec<Key>)
    ensures
        r.deep_view() == renamed_set(v.deep_view(), old_name@, new_name@),
{
    let ghost all = v.deep_view();
    let mut out: Vec<Key> = Vec::new();
    let mut i: usize = 0;
    assert(out.deep_view() == Keys::empty());
    assert(all.take(0) == Keys::empty());
    while i < v.len()
        invariant
            i <= v.len(),
            all == v.deep_view(),
            out.deep_view() == renamed_set(all.take(i as int), old_name@, new_name@),
        decreases v.len() - i,
    {
        assert(all.take(i + 1).drop_last() == all.take(i as int));
        assert(all.take(i + 1).last() == v@[i as int].deep_view());
        entries::set_add(&mut out, rename_key(&v[i], old_name, new_name));
        i = i + 1;
    }
    assert(all.take(all.len() as int) == all);
    out
}

/// Records that name their sheet by its new name.
pub open spec fn renamed_meta(s: MetaModel, old_name: Seq<char>, new_name: Seq<char>) -> MetaModel {
    Seq::new(
        s.len(),
        |i: int|
            if s[i].1.sheet_name == old_name {
                (s[i].0, ShadowMetaRecord { sheet_name: new_name, ..s[i].1 })
            } else {
                s[i]
            },
    )
}

fn rename_meta(v: &Vec<(Key, ShadowMetaRecord)>, old_name: &str, new_name: &str) -> (r: Vec<
    (Key, ShadowMetaRecord),
>)
    ensures
        r.deep_view() == renamed_meta(v.deep_view(), old_name@, new_name@),
{
    let ghost expected = renamed_meta(v.deep_view(), old_name@, new_name@);
    let mut out: Vec<(Key, ShadowMetaRecord)> = Vec::new();
    let mut i: usize = 0;
    assert(out.deep_view() == expected.take(0));
    while i < v.len()
        invariant
            i <= v.len(),
            expected == renamed_meta(v.deep_view(), old_name@, new_name@),
            out.deep_view() == expected.take(i as int),
        decreases v.len() - i,
    {
        assert(v.deep_view()[i as int] == v@[i as int].deep_view());
        let ghost done = out.deep_view();
        let mut known = v[i].1.clone();
        if text::same(&known.sheet_name, old_name) {
            known.sheet_name = new_name.to_owned();
        }
        let one = (v[i].0.clone(), known);
        out.push(one);
        assert(out.deep_view() == done.push(one.deep_view()));
        assert(expected.take(i + 1) == expected.take(i as int).push(expected[i as int]));
        i = i + 1;
    }
    assert(expected.take(expected.len() as int) == expected);
    out
}

pub open spec fn renamed_patches(s: Seq<StylePatch<Seq<char>>>, old_name: Seq<char>, new_name: Seq<char>) -> Seq<
    StylePatch<Seq<char>>,
> {
    Seq::new(
        s.len(),
        |i: int| StylePatch { key: renamed_key(s[i].key, old_name, new_name), ..s[i] },
    )
}

fn rename_patches(v: &Vec<StylePatch>, old_name: &str, new_name: &str) -> (r: Vec<StylePatch>)
    ensures
        r.deep_view() == renamed_patches(v.deep_view(), old_name@, new_name@),
{
    let ghost expected = renamed_patches(v.deep_view(), old_name@, new_name@);
    let mut out: Vec<StylePatch> = Vec::new();
    let mut i: usize = 0;
    assert(out.deep_view() == expected.take(0));
    while i < v.len()
        invariant
            i <= v.len(),
            expected == renamed_patches(v.deep_view(), old_name@, new_name@),
            out.deep_view() == expected.take(i as int),
        decreases v.len() - i,
    {
        assert(v.deep_view()[i as int] == v@[i as int].deep_view());
        let ghost done = out.deep_view();
        let mut one = v[i].clone();
        one.key = rename_key(&v[i].key, old_name, new_name);
        out.push(one);
        assert(out.deep_view() == done.push(one.deep_view()));
        assert(expected.take(i + 1) == expected.take(i as int).push(expected[i as int]));
        i = i + 1;
    }
    assert(expected.take(expected.len() as int) == expected);
    out
}

/// Defined names that are bound to a sheet by its new name.
pub open spec fn renamed_scopes(s: NamesModel, old_name: Seq<char>, new_name: Seq<char>) -> NamesModel {
    Seq::new(
        s.len(),
        |i: int|
            if s[i].scope_sheet == Some(old_name) {
                DefinedName { scope_sheet: Some(new_name), ..s[i] }
            } else {
                s[i]
            },
    )
}

fn rename_scopes(v: &Vec<DefinedName>, old_name: &str, new_name: &str) -> (r: Vec<DefinedName>)
    ensures
        r.deep_view() == renamed_scopes(v.deep_view(), old_name@, new_name@),
{
    let ghost expected = renamed_scopes(v.deep_view(), old_name@, new_name@);
    let mut out: Vec<DefinedName> = Vec::new();
    let mut i: usize = 0;
    assert(out.deep_view() == expected.take(0));
    while i < v.len()
        invariant
            i <= v.len(),
            expected == renamed_scopes(v.deep_view(), old_name@, new_name@),
            out.deep_view() == expected.take(i as int),
        decreases v.len() - i,
    {
        assert(v.deep_view()[i as int] == v@[i as int].deep_view());
        let ghost done = out.deep_view();
        let mut one = v[i].clone();
        let bound = match &one.scope_sheet {
            Some(t) => text::same(t, old_name),
            None => false,
        };
        if bound {
            one.scope_sheet = Some(new_name.to_owned());
        }
        out.push(one);
        assert(out.deep_view() == done.push(one.deep_view()));
        assert(expected.take(i + 1) == expected.take(i as int).push(expected[i as int]));
        i = i + 1;
    }
    assert(expected.take(expected.len() as int) == expected);
    out
}

/// What is kept under a sheet's name, under its new name.
pub open spec fn keyed_renamed(m: EngineModel, old_name: Seq<char>, new_name: Seq<char>) -> EngineModel {
    EngineModel {
        cells: renamed_map(m.cells, old_name, new_name),
        formulas: renamed_map(m.formulas, old_name, new_name),
        meta: renamed_meta(renamed_map(m.meta, old_name, new_name), old_name, new_name),
        modified: renamed_set(m.modified, old_name, new_name),
        dirty: renamed_set(m.dirty, old_name, new_name),
        merges: match entries::get(m.merges, old_name) {
            Some(ranges) => entries::put(entries::erase(m.merges, old_name), new_name, ranges),
            None => m.merges,
        },
        merge_dirty_sheets: if m.merge_dirty_sheets.contains(old_name) {
            entries::with(entries::without(m.merge_dirty_sheets, old_name), new_name)
        } else {
            m.merge_dirty_sheets
        },
        style_patches: renamed_patches(m.style_patches, old_name, new_name),
        defined_names: renamed_scopes(m.defined_names, old_name, new_name),
        ..m
    }
}

/// Formulas with references to a sheet by its new name, and the cells whose formula
/// changed, added to `changed`.
pub open spec fn formulas_renamed(s: FormulasModel, changed: Keys, old_name: Seq<char>, new_name: Seq<char>) -> (
    FormulasModel,
    Keys,
)
    decreases s.len(),
{
    if s.len() == 0 {
        (Seq::empty(), changed)
    } else {
        let done = formulas_renamed(s.drop_last(), changed, old_name, new_name);
        let next = formula::sheet_renamed(s.last().1.formula, old_name, new_name);
        (
            done.0.push((s.last().0, FormulaCell { formula: next, ..s.last().1 })),
            if next == s.last().1.formula {
                done.1
            } else {
                entries::with(done.1, s.last().0)
            },
        )
    }
}

fn rename_in_formulas(
    v: &Vec<(Key, FormulaCell)>,
    changed: &mut Vec<Key>,
    old_name: &str,
    new_name: &str,
) -> (r: Vec<(Key, FormulaCell)>)
    ensures
        (r.deep_view(), final(changed).deep_view()) == formulas_renamed(
            v.deep_view(),
            old(changed).deep_view(),
            old_name@,
            new_name@,
        ),
{
    let ghost all = v.deep_view();
    let ghost start = changed.deep_view();
    let mut out: Vec<(Key, FormulaCell)> = Vec::new();
    let mut i: usize = 0;
    assert(all.take(0).len() == 0);
    assert(out.deep_view() == FormulasModel::empty());
    while i < v.len()
        invariant
            i <= v.len(),
            all == v.deep_view(),
            (out.deep_view(), changed.deep_view()) == formulas_renamed(
                all.take(i as int),
                start,
                old_name@,
                new_name@,
            ),
        decreases v.len() - i,
    {
        assert(all.take(i + 1).drop_last() == all.take(i as int));
        assert(all.take(i + 1).last() == v@[i as int].deep_view());
        let next = formula::rewrite_formula_sheet_ref(&v[i].1.formula, old_name, new_name);
        if !text::same(&next, &v[i].1.formula) {
            entries::set_add(changed, v[i].0.clone());
        }
        let ghost done = out.deep_view();
        let one = (v[i].0.clone(), FormulaCell { formula: next, deps: v[i].1.deps.copied() });
        out.push(one);
        assert(out.deep_view() == done.push(one.deep_view()));
        i = i + 1;
    }
    assert(all.take(all.len() as int) == all);
    out
}

/// Records with references to a sheet by its new name, and the cells whose record changed,
/// added to `changed`.
pub open spec fn meta_renamed(s: MetaModel, changed: Keys, old_name: Seq<char>, new_name: Seq<char>) -> (
    MetaModel,
    Keys,
)
    decreases s.len(),
{
    if s.len() == 0 {
        (Seq::empty(), changed)
    } else {
        let done = meta_renamed(s.drop_last(), changed, old_name, new_name);
        let known = s.last().1;
        let next = formula::sheet_renamed(known.original_formula, old_name, new_name);
        if known.original_formula.len() == 0 || next == known.original_formula {
            (done.0.push(s.last()), done.1)
        } else {
            (
                done.0.push(
                    (
                        s.last().0,
                        ShadowMetaRecord {
                            original_formula: next,
                            is_modified: true,
                            ..known
                        },
                    ),
                ),
                entries::with(done.1, s.last().0),
            )
        }
    }
}

fn rename_in_meta(
    v: &Vec<(Key, ShadowMetaRecord)>,
    changed: &mut Vec<Key>,
    old_name: &str,
    new_name: &str,
) -> (r: Vec<(Key, ShadowMetaRecord)>)
    ensures
        (r.deep_view(), final(changed).deep_view()) == meta_renamed(
            v.deep_view(),
            old(changed).deep_view(),
            old_name@,
            new_name@,
        ),
{
    let ghost all = v.deep_view();
    let ghost start = changed.deep_view();
    let mut out: Vec<(Key, ShadowMetaRecord)> = Vec::new();
    let mut i: usize = 0;
    assert(all.take(0).len() == 0);
    assert(out.deep_view() == MetaModel::empty());
    while i < v.len()
        invariant
            i <= v.len(),
            all == v.deep_view(),
            (out.deep_view(), changed.deep_view()) == meta_renamed(
                all.take(i as int),
                start,
                old_name@,
                new_name@,
            ),
        decreases v.len() - i,
    {
        assert(all.take(i + 1).drop_last() == all.take(i as int));
        assert(all.take(i + 1).last() == v@[i as int].deep_view());
        let mut known = v[i].1.clone();
        if !known.original_formula.as_str().is_empty() {
            let next = formula::rewrite_formula_sheet_ref(
                &known.original_formula,
                old_name,
                new_name,
            );
            if !text::same(&next, &known.original_formula) {
                known.original_formula = next;
                known.is_modified = true;
                entries::set_add(changed, v[i].0.clone());
            }
        }
        let ghost done = out.deep_view();
        let one = (v[i].0.clone(), known);
        out.push(one);
        assert(out.deep_view() == done.push(one.deep_view()));
        i = i + 1;
    }
    assert(all.take(all.len() as int) == all);
    out
}

pub open spec fn refs_renamed(m: EngineModel, old_name: Seq<char>, new_name: Seq<char>) -> EngineModel {
    let f = formulas_renamed(m.formulas, m.modified, old_name, new_name);
    let t = meta_renamed(m.meta, f.1, old_name, new_name);
    EngineModel { formulas: f.0, meta: t.0, modified: t.1, ..m }
}

/// A sheet under another name.
pub open spec fn sheet_renamed(
    m: EngineModel,
    sheet: Seq<char>,
    name: Seq<char>,
    reason: Seq<char>,
) -> (EngineModel, Fallible<()>) {
    let new_name = text::trim(name);
    if new_name.len() == 0 {
        (m, Err(coord::value_error("unsafe_update: new sheet name must not be empty"@)))
    } else if engine::has_sheet(m, new_name) {
        (m, Err(coord::value_error("unsafe_update: sheet name already exists: "@ + new_name)))
    } else {
        match engine::sheet_place(m.sheets, sheet, 0) {
            None => (m, Err(coord::value_error("unknown_sheet: "@ + sheet))),
            Some(i) => {
                let named = EngineModel {
                    sheets: m.sheets.update(i, SheetInfo { name: new_name, ..m.sheets[i] }),
                    workbook_dirty: true,
                    ..m
                };
                (
                    engine::logged(
                        engine::rebuilt(
                            refs_renamed(keyed_renamed(named, sheet, new_name), sheet, new_name),
                        ),
                        objects::event(
                            "sheet_rename"@,
                            new_name,
                            0,
                            0,
                            sheet,
                            new_name,
                            reason,
                        ),
                    ),
                    Ok(()),
                )
            },
        }
    }
}

impl SheetShadowEngine {
    fn rename_keyed_state(&mut self, old_name: &str, new_name: &str)
        ensures
            final(self).deep_view() == keyed_renamed(
                old(self).deep_view(),
                old_name@,
                new_name@,
            ),
    {
        self.cells = rename_key_map(&self.cells, old_name, new_name);
        self.formulas = rename_key_map(&self.formulas, old_name, new_name);
        self.meta = rename_meta(
            &rename_key_map(&self.meta, old_name, new_name),
            old_name,
            new_name,
        );
        self.modified = rename_key_set(&self.modified, old_name, new_name);
        self.dirty = rename_key_set(&self.dirty, old_name, new_name);
        let old_text = old_name.to_owned();
        let ranges: Option<Vec<String>> = match entries::map_get(&self.merges, &old_text) {
            Some(ranges) => Some(ranges.copied()),
            None => None,
        };
        match ranges {
            Some(ranges) => {
                entries::map_remove(&mut self.merges, &old_text);
                entries::map_put(&mut self.merges, new_name.to_owned(), ranges);
            },
            None => {},
        }
        if entries::list_has(&self.merge_dirty_sheets, old_name) {
            entries::set_remove(&mut self.merge_dirty_sheets, &old_text);
            entries::set_add(&mut self.merge_dirty_sheets, new_name.to_owned());
        }
        self.style_patches = rename_patches(&self.style_patches, old_name, new_name);
        self.defined_names = rename_scopes(&self.defined_names, old_name, new_name);
    }

    fn rewrite_formula_sheet_refs(&mut self, old_name: &str, new_name: &str)
        ensures
            final(self).deep_view() == refs_renamed(old(self).deep_view(), old_name@, new_name@),
    {
        let formulas = rename_in_formulas(
            &self.formulas,
            &mut self.modified,
            old_name,
            new_name,
        );
        self.formulas = formulas;
        let meta = rename_in_meta(&self.meta, &mut self.modified, old_name, new_name);
        self.meta = meta;
    }

    fn put_sheet(&mut self, i: usize, sheet: SheetInfo)
        requires
            i < old(self).sheets.len(),
        ensures
            final(self).deep_view() == (EngineModel {
                sheets: old(self).deep_view().sheets.update(i as int, sheet.deep_view()),
                workbook_dirty: true,
                ..old(self).deep_view()
            }),
    {
        let ghost before = self.sheets.deep_view();
        self.sheets.set(i, sheet);
        assert(self.sheets.deep_view() == before.update(i as int, sheet.deep_view()));
        self.workbook_dirty = true;
    }

    fn apply_sheet_rename(&mut self, sheet: &str, new_name: &str, reason: &str) -> (r: Result<
        (),
        ShadowError,
    >)
        ensures
            (final(self).deep_view(), coord::outcome(r)) == sheet_renamed(
                old(self).deep_view(),
                sheet@,
                new_name@,
                reason@,
            ),
    {
        let name = text::trimmed(new_name);
        if name.as_str().is_empty() {
            return Err(coord::refuse("unsafe_update: new sheet name must not be empty"));
        }
        match engine::find_sheet(&self.sheets, &name) {
            Some(_) => {
                let mut message = "unsafe_update: sheet name already exists: ".to_owned();
                message.append(&name);
                return Err(ShadowError::Value(message));
            },
            None => {},
        }
        let i = match engine::find_sheet(&self.sheets, sheet) {
            Some(i) => i,
            None => {
                let mut message = "unknown_sheet: ".to_owned();
                message.append(sheet);
                return Err(ShadowError::Value(message));
            },
        };
        assert(self.sheets.deep_view()[i as int] == self.sheets@[i as int].deep_view());
        let mut known = self.sheets[i].clone();
        known.name = name.clone();
        self.put_sheet(i, known);
        self.rename_keyed_state(sheet, &name);
        self.rewrite_formula_sheet_refs(sheet, &name);
        self.rebuild_links();
        let told = objects::object_audit_event("sheet_rename", &name, 0, 0, sheet, &name, reason);
        self.log(told);
        Ok(())
    }
}

// ----- States of sheets -----

/// The state that a request asks for.
pub open spec fn asked_state(s: Seq<char>) -> Option<Seq<char>> {
    if s == "visible"@ || s.len() == 0 {
        Some("visible"@)
    } else if s == "hidden"@ || s == "veryHidden"@ {
        Some(s)
    } else {
        None
    }
}

pub open spec fn visibility_applied(
    m: EngineModel,
    sheet: Seq<char>,
    visibility: Seq<char>,
    reason: Seq<char>,
) -> (EngineModel, Fallible<()>) {
    match asked_state(visibility) {
        None => (
            m,
            Err(
                coord::value_error(
                    "unsafe_update: visibility must be visible, hidden, or veryHidden"@,
                ),
            ),
        ),
        Some(state) => match engine::sheet_place(m.sheets, sheet, 0) {
            None => (m, Err(coord::value_error("unknown_sheet: "@ + sheet))),
            Some(i) => (
                engine::logged(
                    EngineModel {
                        sheets: m.sheets.update(
                            i,
                            SheetInfo { visibility: state, ..m.sheets[i] },
                        ),
                        workbook_dirty: true,
                        ..m
                    },
                    objects::event(
                        "sheet_visibility_update"@,
                        sheet,
                        0,
                        0,
                        m.sheets[i].visibility,
                        state,
                        reason,
                    ),
                ),
                Ok(()),
            ),
        },
    }
}

impl SheetShadowEngine {
    fn apply_sheet_visibility(&mut self, sheet: &str, visibility: &str, reason: &str) -> (r: Result<
        (),
        ShadowError,
    >)
        ensures
            (final(self).deep_view(), coord::outcome(r)) == visibility_applied(
                old(self).deep_view(),
                sheet@,
                visibility@,
                reason@,
            ),
    {
        let state = if text::same(visibility, "visible") || visibility.is_empty() {
            "visible"
        } else if text::same(visibility, "hidden") || text::same(visibility, "veryHidden") {
            visibility
        } else {
            return Err(
                coord::refuse("unsafe_update: visibility must be visible, hidden, or veryHidden"),
            );
        };
        let i = match engine::find_sheet(&self.sheets, sheet) {
            Some(i) => i,
            None => {
                let mut message = "unknown_sheet: ".to_owned();
                message.append(sheet);
                return Err(ShadowError::Value(message));
            },
        };
        assert(self.sheets.deep_view()[i as int] == self.sheets@[i as int].deep_view());
        let mut known = self.sheets[i].clone();
        let before = known.visibility.clone();
        known.visibility = state.to_owned();
        self.put_sheet(i, known);
        let told = objects::object_audit_event(
            "sheet_visibility_update",
            sheet,
            0,
            0,
            &before,
            state,
            reason,
        );
        self.log(told);
        Ok(())
    }
}

// ----- Requests -----

// ----- Requests keep a shadow valid -----

proof fn lemma_marked_row_once(
    meta: MetaModel,
    sheet: Seq<char>,
    row: usize,
    left: usize,
    range: Seq<char>,
    n: int,
)
    requires
        entries::distinct_keys(meta),
    ensures
        entries::distinct_keys(marked_row(meta, sheet, row, left, range, n)),
    decreases n,
{
    if n > 0 {
        lemma_marked_row_once(meta, sheet, row, left, range, n - 1);
        let done = marked_row(meta, sheet, row, left, range, n - 1);
        let k = coord::key(sheet, row, (left + n - 1) as usize);
        entries::law_get_after_put(
            done,
            k,
            ShadowMetaRecord { merge_range: range, ..engine::meta_or_blank(done, k) },
            k,
        );
    }
}

proof fn lemma_marked_rows_once(
    meta: MetaModel,
    sheet: Seq<char>,
    top: usize,
    left: usize,
    width: int,
    range: Seq<char>,
    n: int,
)
    requires
        entries::distinct_keys(meta),
    ensures
        entries::distinct_keys(marked_rows(meta, sheet, top, left, width, range, n)),
    decreases n,
{
    if n > 0 {
        lemma_marked_rows_once(meta, sheet, top, left, width, range, n - 1);
        lemma_marked_row_once(
            marked_rows(meta, sheet, top, left, width, range, n - 1),
            sheet,
            (top + n - 1) as usize,
            left,
            range,
            width,
        );
    }
}

proof fn lemma_renamed_map_once<V>(
    s: Seq<(Key<Seq<char>>, V)>,
    old_name: Seq<char>,
    new_name: Seq<char>,
)
    ensures
        entries::distinct_keys(renamed_map(s, old_name, new_name)),
    decreases s.len(),
{
    if s.len() > 0 {
        lemma_renamed_map_once(s.drop_last(), old_name, new_name);
        let k = renamed_key(s.last().0, old_name, new_name);
        entries::law_get_after_put(
            renamed_map(s.drop_last(), old_name, new_name),
            k,
            s.last().1,
            k,
        );
    }
}

proof fn lemma_renamed_formulas_once(s: FormulasModel, old_name: Seq<char>, new_name: Seq<char>)
    requires
        forall|i: int| 0 <= i < s.len() ==> (#[trigger] s[i]).1.deps.no_duplicates(),
    ensures
        cells::formulas_once(renamed_map(s, old_name, new_name)),
    decreases s.len(),
{
    if s.len() > 0 {
        let rest = s.drop_last();
        assert forall|i: int| 0 <= i < rest.len() implies (
        #[trigger] rest[i]).1.deps.no_duplicates() by {
            assert(s[i].1.deps.no_duplicates());
        }
        assert(s[s.len() - 1].1.deps.no_duplicates());
        lemma_renamed_formulas_once(rest, old_name, new_name);
        cells::lemma_put_formula_once(
            renamed_map(rest, old_name, new_name),
            renamed_key(s.last().0, old_name, new_name),
            s.last().1,
        );
    }
}

proof fn lemma_renamed_set_once(s: Keys, old_name: Seq<char>, new_name: Seq<char>)
    ensures
        renamed_set(s, old_name, new_name).no_duplicates(),
    decreases s.len(),
{
    if s.len() > 0 {
        lemma_renamed_set_once(s.drop_last(), old_name, new_name);
        entries::law_sets_hold_members_once(
            renamed_set(s.drop_last(), old_name, new_name),
            renamed_key(s.last(), old_name, new_name),
        );
    }
}

proof fn lemma_formula_names_once(
    s: FormulasModel,
    changed: Keys,
    old_name: Seq<char>,
    new_name: Seq<char>,
)
    requires
        changed.no_duplicates(),
    ensures
        ({
            let r = formulas_renamed(s, changed, old_name, new_name);
            &&& r.1.no_duplicates()
            &&& r.0.len() == s.len()
            &&& forall|i: int|
                0 <= i < s.len() ==> (#[trigger] r.0[i]).0 == s[i].0 && r.0[i].1.deps == s[i].1.deps
        }),
    decreases s.len(),
{
    if s.len() > 0 {
        let rest = s.drop_last();
        lemma_formula_names_once(rest, changed, old_name, new_name);
        let done = formulas_renamed(rest, changed, old_name, new_name);
        entries::law_sets_hold_members_once(done.1, s.last().0);
        let r = formulas_renamed(s, changed, old_name, new_name);
        assert forall|i: int| 0 <= i < s.len() implies (#[trigger] r.0[i]).0 == s[i].0
            && r.0[i].1.deps == s[i].1.deps by {
            if i < rest.len() {
                assert(r.0[i] == done.0[i] && rest[i] == s[i]);
            }
        }
    }
}

proof fn lemma_record_names_once(
    s: MetaModel,
    changed: Keys,
    old_name: Seq<char>,
    new_name: Seq<char>,
)
    requires
        changed.no_duplicates(),
    ensures
        ({
            let r = meta_renamed(s, changed, old_name, new_name);
            &&& r.1.no_duplicates()
            &&& r.0.len() == s.len()
            &&& forall|i: int| 0 <= i < s.len() ==> (#[trigger] r.0[i]).0 == s[i].0
        }),
    decreases s.len(),
{
    if s.len() > 0 {
        let rest = s.drop_last();
        lemma_record_names_once(rest, changed, old_name, new_name);
        let done = meta_renamed(rest, changed, old_name, new_name);
        entries::law_sets_hold_members_once(done.1, s.last().0);
        let r = meta_renamed(s, changed, old_name, new_name);
        assert forall|i: int| 0 <= i < s.len() implies (#[trigger] r.0[i]).0 == s[i].0 by {
            if i < rest.len() {
                assert(r.0[i] == done.0[i] && rest[i] == s[i]);
            }
        }
    }
}

proof fn lemma_keyed_renamed_stays_valid(m: EngineModel, old_name: Seq<char>, new_name: Seq<char>)
    ensures
        engine::as_valid(m, keyed_renamed(m, old_name, new_name)),
{
    reveal(EngineModel::once_each);
    if m.once_each() {
        lemma_renamed_map_once(m.cells, old_name, new_name);
        lemma_renamed_map_once(m.meta, old_name, new_name);
        lemma_renamed_formulas_once(m.formulas, old_name, new_name);
        lemma_renamed_set_once(m.modified, old_name, new_name);
        lemma_renamed_set_once(m.dirty, old_name, new_name);
        let known = renamed_map(m.meta, old_name, new_name);
        let t = renamed_meta(known, old_name, new_name);
        assert forall|i: int, j: int| 0 <= i < j < t.len() implies (#[trigger] t[i]).0 != (
        #[trigger] t[j]).0 by {
            assert(known[i].0 != known[j].0);
        }
        if let Some(ranges) = entries::get(m.merges, old_name) {
            entries::law_get_after_erase(m.merges, old_name, old_name);
            let rest = entries::erase(m.merges, old_name);
            entries::lemma_place(m.merges, old_name);
            let at = entries::place(m.merges, old_name).unwrap();
            assert forall|i: int| 0 <= i < rest.len() implies (
            #[trigger] rest[i]).1.no_duplicates() by {
                let n = if i < at {
                    i
                } else {
                    i + 1
                };
                assert(rest[i] == m.merges[n]);
            }
            assert(m.merges[at].1.no_duplicates());
            entries::lemma_put_set_once(rest, new_name, ranges);
        }
        entries::law_sets_hold_members_once(m.merge_dirty_sheets, old_name);
        entries::law_sets_hold_members_once(
            entries::without(m.merge_dirty_sheets, old_name),
            new_name,
        );
    }
}

proof fn lemma_refs_renamed_stays_valid(m: EngineModel, old_name: Seq<char>, new_name: Seq<char>)
    ensures
        engine::as_valid(m, refs_renamed(m, old_name, new_name)),
{
    reveal(EngineModel::once_each);
    if m.once_each() {
        lemma_formula_names_once(m.formulas, m.modified, old_name, new_name);
        let f = formulas_renamed(m.formulas, m.modified, old_name, new_name);
        lemma_record_names_once(m.meta, f.1, old_name, new_name);
        let t = meta_renamed(m.meta, f.1, old_name, new_name).0;
        assert forall|i: int, j: int| 0 <= i < j < t.len() implies (#[trigger] t[i]).0 != (
        #[trigger] t[j]).0 by {
            assert(m.meta[i].0 != m.meta[j].0);
        }
        assert forall|i: int, j: int| 0 <= i < j < f.0.len() implies (#[trigger] f.0[i]).0 != (
        #[trigger] f.0[j]).0 by {
            assert(m.formulas[i].0 != m.formulas[j].0);
        }
        assert forall|i: int| 0 <= i < f.0.len() implies (
        #[trigger] f.0[i]).1.deps.no_duplicates() by {
            assert(m.formulas[i].1.deps.no_duplicates());
        }
    }
}

proof fn lemma_sheet_renamed_stays_valid(
    m: EngineModel,
    sheet: Seq<char>,
    name: Seq<char>,
    reason: Seq<char>,
)
    ensures
        engine::as_valid(m, sheet_renamed(m, sheet, name, reason).0),
{
    let new_name = text::trim(name);
    if let Some(i) = engine::sheet_place(m.sheets, sheet, 0) {
        let named = EngineModel {
            sheets: m.sheets.update(i, SheetInfo { name: new_name, ..m.sheets[i] }),
            workbook_dirty: true,
            ..m
        };
        assert(engine::as_valid(m, named)) by {
            reveal(EngineModel::once_each);
        }
        let keyed = keyed_renamed(named, sheet, new_name);
        let linked = refs_renamed(keyed, sheet, new_name);
        lemma_keyed_renamed_stays_valid(named, sheet, new_name);
        lemma_refs_renamed_stays_valid(keyed, sheet, new_name);
        engine::lemma_links_stay_valid(linked);
        engine::lemma_trail_is_free(
            engine::rebuilt(linked),
            engine::rebuilt(linked).audit_events.push(
                objects::event("sheet_rename"@, new_name, 0, 0, sheet, new_name, reason),
            ),
        );
    }
}

proof fn lemma_visibility_applied_stays_valid(
    m: EngineModel,
    sheet: Seq<char>,
    visibility: Seq<char>,
    reason: Seq<char>,
)
    ensures
        engine::as_valid(m, visibility_applied(m, sheet, visibility, reason).0),
{
    reveal(EngineModel::once_each);
}

proof fn lemma_format_applied_stays_valid(
    m: EngineModel,
    sheet: Seq<char>,
    row: usize,
    col: usize,
    fields: FieldsModel,
    reason: Seq<char>,
)
    ensures
        engine::as_valid(m, format_applied(m, sheet, row, col, fields, reason).0),
{
    reveal(EngineModel::once_each);
    if m.once_each() {
        let k = coord::key(sheet, row, col);
        entries::law_sets_hold_members_once(m.modified, k);
        assert forall|v: ShadowMetaRecord<Seq<char>>| #[trigger]
            entries::distinct_keys(entries::put(m.meta, k, v)) by {
            entries::law_get_after_put(m.meta, k, v, k);
        }
    }
}

proof fn lemma_merge_applied_stays_valid(
    m: EngineModel,
    sheet: Seq<char>,
    start_row: usize,
    start_col: usize,
    end_row: usize,
    end_col: usize,
    merge: bool,
    reason: Seq<char>,
)
    ensures
        engine::as_valid(
            m,
            merge_applied(m, sheet, start_row, start_col, end_row, end_col, merge, reason).0,
        ),
{
    reveal(EngineModel::once_each);
    if m.once_each() {
        let top = deps::low(start_row, end_row);
        let bottom = deps::high(start_row, end_row);
        let left = deps::low(start_col, end_col);
        let right = deps::high(start_col, end_col);
        let range = coord::range_text(top, left, bottom, right);
        let ranges = ranges_of(m.merges, sheet);
        entries::lemma_put_set_once(m.merges, sheet, ranges);
        entries::law_sets_hold_members_once(ranges, range);
        entries::lemma_put_set_once(m.merges, sheet, entries::with(ranges, range));
        entries::lemma_put_set_once(m.merges, sheet, entries::without(ranges, range));
        entries::law_sets_hold_members_once(m.merge_dirty_sheets, sheet);
        let noted = if merge {
            range
        } else {
            Seq::empty()
        };
        lemma_marked_rows_once(m.meta, sheet, top, left, right - left + 1, noted, bottom - top + 1);
    }
}

impl SheetShadowEngine {
    pub fn set_cell_format(
        &mut self,
        sheet: &str,
        row: usize,
        col: usize,
        intent: &Fields,
    ) -> (r: Result<Vec<Fields>, ShadowError>)
        ensures
            ({
                let done = format_applied(
                    old(self).deep_view(),
                    sheet@,
                    row,
                    col,
                    intent.deep_view(),
                    "set_cell_format"@,
                );
                &&& final(self).deep_view() == done.0
                &&& recalc::reports_view(r) == reported(done)
            }),
            old(self).deep_view().wf() ==> final(self).deep_view().wf(),
    {
        proof {
            lemma_format_applied_stays_valid(self.deep_view(), sheet@, row, col, intent.deep_view(), "set_cell_format"@);
        }
        match self.apply_cell_format_with_reason(sheet, row, col, intent, "set_cell_format") {
            Ok(_) => Ok(self.audit_report()),
            Err(e) => Err(e),
        }
    }

    pub fn preview_set_cell_format(
        &self,
        sheet: &str,
        row: usize,
        col: usize,
        intent: &Fields,
    ) -> (r: Result<Vec<Fields>, ShadowError>)
        ensures
            recalc::reports_view(r) == reported(
                format_applied(
                    engine::untold(self.deep_view()),
                    sheet@,
                    row,
                    col,
                    intent.deep_view(),
                    "preview_set_cell_format"@,
                ),
            ),
    {
        let mut preview = self.copied();
        preview.clear_audit_log();
        match preview.apply_cell_format_with_reason(sheet, row, col, intent, "preview_set_cell_format") {
            Ok(_) => Ok(preview.audit_report()),
            Err(e) => Err(e),
        }
    }
}

impl SheetShadowEngine {
    pub fn merge_cells(
        &mut self,
        sheet: &str,
        start_row: usize,
        start_col: usize,
        end_row: usize,
        end_col: usize,
    ) -> (r: Result<Vec<Fields>, ShadowError>)
        ensures
            ({
                let done = merge_applied(
                    old(self).deep_view(),
                    sheet@,
                    start_row,
                    start_col,
                    end_row,
                    end_col,
                    true,
                    "merge_cells"@,
                );
                &&& final(self).deep_view() == done.0
                &&& recalc::reports_view(r) == reported(done)
            }),
            old(self).deep_view().wf() ==> final(self).deep_view().wf(),
    {
        proof {
            lemma_merge_applied_stays_valid(self.deep_view(), sheet@, start_row, start_col, end_row, end_col, true, "merge_cells"@);
        }
        match self.apply_merge_with_reason(sheet, start_row, start_col, end_row, end_col, true, "merge_cells") {
            Ok(_) => Ok(self.audit_report()),
            Err(e) => Err(e),
        }
    }

    pub fn preview_merge_cells(
        &self,
        sheet: &str,
        start_row: usize,
        start_col: usize,
        end_row: usize,
        end_col: usize,
    ) -> (r: Result<Vec<Fields>, ShadowError>)
        ensures
            recalc::reports_view(r) == reported(
                merge_applied(
                    engine::untold(self.deep_view()),
                    sheet@,
                    start_row,
                    start_col,
                    end_row,
                    end_col,
                    true,
                    "preview_merge_cells"@,
                ),
            ),
    {
        let mut preview = self.copied();
        preview.clear_audit_log();
        match preview.apply_merge_with_reason(sheet, start_row, start_col, end_row, end_col, true, "preview_merge_cells") {
            Ok(_) => Ok(preview.audit_report()),
            Err(e) => Err(e),
        }
    }
}

impl SheetShadowEngine {
    pub fn unmerge_cells(
        &mut self,
        sheet: &str,
        start_row: usize,
        start_col: usize,
        end_row: usize,
        end_col: usize,
    ) -> (r: Result<Vec<Fields>, ShadowError>)
        ensures
            ({
                let done = merge_applied(
                    old(self).deep_view(),
                    sheet@,
                    start_row,
                    start_col,
                    end_row,
                    end_col,
                    false,
                    "unmerge_cells"@,
                );
                &&& final(self).deep_view() == done.0
                &&& recalc::reports_view(r) == reported(done)
            }),
            old(self).deep_view().wf() ==> final(self).deep_view().wf(),
    {
        proof {
            lemma_merge_applied_stays_valid(self.deep_view(), sheet@, start_row, start_col, end_row, end_col, false, "unmerge_cells"@);
        }
        match self.apply_merge_with_reason(sheet, start_row, start_col, end_row, end_col, false, "unmerge_cells") {
            Ok(_) => Ok(self.audit_report()),
            Err(e) => Err(e),
        }
    }

    pub fn preview_unmerge_cells(
        &self,
        sheet: &str,
        start_row: usize,
        start_col: usize,
        end_row: usize,
        end_col: usize,
    ) -> (r: Result<Vec<Fields>, ShadowError>)
        ensures
            recalc::reports_view(r) == reported(
                merge_applied(
                    engine::untold(self.deep_view()),
                    sheet@,
                    start_row,
                    start_col,
                    end_row,
                    end_col,
                    false,
                    "preview_unmerge_cells"@,
                ),
            ),
    {
        let mut preview = self.copied();
        preview.clear_audit_log();
        match preview.apply_merge_with_reason(sheet, start_row, start_col, end_row, end_col, false, "preview_unmerge_cells") {
            Ok(_) => Ok(preview.audit_report()),
            Err(e) => Err(e),
        }
    }
}

impl SheetShadowEngine {
    pub fn rename_sheet(
        &mut self,
        sheet: &str,
        new_name: &str,
    ) -> (r: Result<Vec<Fields>, ShadowError>)
        ensures
            ({
                let done = sheet_renamed(
                    old(self).deep_view(),
                    sheet@,
                    new_name@,
                    "rename_sheet"@,
                );
                &&& final(self).deep_view() == done.0
                &&& recalc::reports_view(r) == reported(done)
            }),
            old(self).deep_view().wf() ==> final(self).deep_view().wf(),
    {
        proof {
            lemma_sheet_renamed_stays_valid(self.deep_view(), sheet@, new_name@, "rename_sheet"@);
        }
        match self.apply_sheet_rename(sheet, new_name, "rename_sheet") {
            Ok(_) => Ok(self.audit_report()),
            Err(e) => Err(e),
        }
    }
}

impl SheetShadowEngine {
    pub fn set_sheet_visibility(
        &mut self,
        sheet: &str,
        visibility: &str,
    ) -> (r: Result<Vec<Fields>, ShadowError>)
        ensures
            ({
                let done = visibility_applied(
                    old(self).deep_view(),
                    sheet@,
                    visibility@,
                    "set_sheet_visibility"@,
                );
                &&& final(self).deep_view() == done.0
                &&& recalc::reports_view(r) == reported(done)
            }),
            old(self).deep_view().wf() ==> final(self).deep_view().wf(),
    {
        proof {
            lemma_visibility_applied_stays_valid(self.deep_view(), sheet@, visibility@, "set_sheet_visibility"@);
        }
        match self.apply_sheet_visibility(sheet, visibility, "set_sheet_visibility") {
            Ok(_) => Ok(self.audit_report()),
            Err(e) => Err(e),
        }
    }
}

// ----- Trying out -----

/// Trying out a format comes to the same as setting it.
pub proof fn law_preview_tells_what_a_format_does(
    m: EngineModel,
    sheet: Seq<char>,
    row: usize,
    col: usize,
    fields: FieldsModel,
    reason: Seq<char>,
    other: Seq<char>,
)
    ensures
        tells_the_same(
            m,
            format_applied(m, sheet, row, col, fields, reason),
            format_applied(engine::untold(m), sheet, row, col, fields, other),
            other,
            reason,
        ),
{
    let applied = format_applied(m, sheet, row, col, fields, reason);
    let tried = format_applied(engine::untold(m), sheet, row, col, fields, other);
    lemma_nothing_told(m);
    if applied.1 is Ok {
        let x = applied.0.audit_events.last();
        let y = tried.0.audit_events.last();
        assert(applied.0.audit_events == m.audit_events.push(x));
        assert(recalc::told_since(m, applied.0) == seq![x]);
        assert(m.audit_events + seq![x] == m.audit_events.push(x));
        assert(tried.0.audit_events == seq![y]);
    }
}

/// Trying out a merge comes to the same as merging.
pub proof fn law_preview_tells_what_a_merge_does(
    m: EngineModel,
    sheet: Seq<char>,
    start_row: usize,
    start_col: usize,
    end_row: usize,
    end_col: usize,
    merge: bool,
    reason: Seq<char>,
    other: Seq<char>,
)
    ensures
        tells_the_same(
            m,
            merge_applied(m, sheet, start_row, start_col, end_row, end_col, merge, reason),
            merge_applied(engine::untold(m), sheet, start_row, start_col, end_row, end_col, merge, other),
            other,
            reason,
        ),
{
    let applied = merge_applied(m, sheet, start_row, start_col, end_row, end_col, merge, reason);
    let tried = merge_applied(engine::untold(m), sheet, start_row, start_col, end_row, end_col, merge, other);
    lemma_nothing_told(m);
    if applied.1 is Ok {
        let x = applied.0.audit_events.last();
        let y = tried.0.audit_events.last();
        assert(applied.0.audit_events == m.audit_events.push(x));
        assert(recalc::told_since(m, applied.0) == seq![x]);
        assert(m.audit_events + seq![x] == m.audit_events.push(x));
        assert(tried.0.audit_events == seq![y]);
    }
}

// ----- Refusals and reading back -----

/// A request on a format or on a sheet that is refused changes nothing.
pub proof fn law_refused_sheet_requests_change_nothing(
    m: EngineModel,
    sheet: Seq<char>,
    row: usize,
    col: usize,
    fields: FieldsModel,
    value: Seq<char>,
    reason: Seq<char>,
)
    ensures
        ({
            let r = format_applied(m, sheet, row, col, fields, reason);
            r.1 is Err ==> r.0 == m
        }),
        ({
            let r = sheet_renamed(m, sheet, value, reason);
            r.1 is Err ==> r.0 == m
        }),
        ({
            let r = visibility_applied(m, sheet, value, reason);
            r.1 is Err ==> r.0 == m
        }),
{
}

/// A merge that is refused leaves the merged ranges of every sheet and all the rest as they
/// are.
pub proof fn law_refused_merge_changes_no_range(
    m: EngineModel,
    sheet: Seq<char>,
    start_row: usize,
    start_col: usize,
    end_row: usize,
    end_col: usize,
    merge: bool,
    reason: Seq<char>,
    other: Seq<char>,
)
    requires
        merge_applied(m, sheet, start_row, start_col, end_row, end_col, merge, reason).1 is Err,
    ensures
        ({
            let r = merge_applied(
                m,
                sheet,
                start_row,
                start_col,
                end_row,
                end_col,
                merge,
                reason,
            ).0;
            &&& r == EngineModel { merges: r.merges, ..m }
            &&& ranges_of(r.merges, other) == ranges_of(m.merges, other)
        }),
{
    entries::law_get_after_put(m.merges, sheet, ranges_of(m.merges, sheet), other);
}

/// A sheet that was renamed is found under its new name.
pub proof fn law_renamed_sheet_is_found(
    m: EngineModel,
    sheet: Seq<char>,
    name: Seq<char>,
    reason: Seq<char>,
)
    requires
        sheet_renamed(m, sheet, name, reason).1 is Ok,
    ensures
        engine::has_sheet(sheet_renamed(m, sheet, name, reason).0, text::trim(name)),
{
    let i = engine::sheet_place(m.sheets, sheet, 0)->Some_0;
    lemma_sheet_place(m.sheets, sheet, 0);
    let after = sheet_renamed(m, sheet, name, reason).0.sheets;
    assert(after[i].name == text::trim(name));
    lemma_sheet_place(after, text::trim(name), 0);
}

/// Whether the record of a cell notes the given merged range.
pub open spec fn notes_range(meta: MetaModel, k: Key<Seq<char>>, range: Seq<char>) -> bool {
    entries::get(meta, k) matches Some(record) && record.merge_range == range
}

proof fn lemma_marked_row(
    meta: MetaModel,
    sheet: Seq<char>,
    row: usize,
    left: usize,
    range: Seq<char>,
    n: int,
    k: Key<Seq<char>>,
)
    requires
        left + n - 1 <= usize::MAX,
    ensures
        k.sheet == sheet && k.row == row && left <= k.col < left + n ==> notes_range(
            marked_row(meta, sheet, row, left, range, n),
            k,
            range,
        ),
        notes_range(meta, k, range) ==> notes_range(
            marked_row(meta, sheet, row, left, range, n),
            k,
            range,
        ),
    decreases n,
{
    if n > 0 {
        lemma_marked_row(meta, sheet, row, left, range, n - 1, k);
        let done = marked_row(meta, sheet, row, left, range, n - 1);
        let at = coord::key(sheet, row, (left + n - 1) as usize);
        entries::law_get_after_put(
            done,
            at,
            ShadowMetaRecord { merge_range: range, ..engine::meta_or_blank(done, at) },
            k,
        );
    }
}

proof fn lemma_marked_rows(
    meta: MetaModel,
    sheet: Seq<char>,
    top: usize,
    left: usize,
    width: int,
    range: Seq<char>,
    n: int,
    k: Key<Seq<char>>,
)
    requires
        left + width - 1 <= usize::MAX,
        top + n - 1 <= usize::MAX,
        k.sheet == sheet,
        left <= k.col < left + width,
    ensures
        top <= k.row < top + n ==> notes_range(
            marked_rows(meta, sheet, top, left, width, range, n),
            k,
            range,
        ),
    decreases n,
{
    if n > 0 {
        lemma_marked_rows(meta, sheet, top, left, width, range, n - 1, k);
        let done = marked_rows(meta, sheet, top, left, width, range, n - 1);
        lemma_marked_row(done, sheet, (top + n - 1) as usize, left, range, width, k);
    }
}

proof fn lemma_without_stranger<T>(s: Seq<T>, x: T)
    requires
        !s.contains(x),
    ensures
        entries::without(s, x) == s,
    decreases s.len(),
{
    if s.len() > 0 {
        assert(s[s.len() - 1] != x);
        assert forall|i: int| 0 <= i < s.drop_last().len() implies s.drop_last()[i] != x by {
            assert(s[i] != x);
        }
        lemma_without_stranger(s.drop_last(), x);
        assert(s.drop_last().push(s.last()) == s);
    }
}

/// Whether two pairs of corners are those of the same rectangle.
pub open spec fn same_rectangle(
    row: usize,
    col: usize,
    other_row: usize,
    other_col: usize,
    a: usize,
    b: usize,
    c: usize,
    d: usize,
) -> bool {
    &&& deps::low(row, other_row) == deps::low(a, c)
    &&& deps::high(row, other_row) == deps::high(a, c)
    &&& deps::low(col, other_col) == deps::low(b, d)
    &&& deps::high(col, other_col) == deps::high(b, d)
}

/// Taking merged cells apart, whichever corners are given, undoes merging them: the ranges of
/// every sheet are what they were, no cell of the rectangle notes a range, and taking them
/// apart once more is refused and changes no range.
pub proof fn law_unmerging_undoes_merging(
    m: EngineModel,
    sheet: Seq<char>,
    start_row: usize,
    start_col: usize,
    end_row: usize,
    end_col: usize,
    a: usize,
    b: usize,
    c: usize,
    d: usize,
    reason: Seq<char>,
    other: Seq<char>,
)
    requires
        merge_applied(m, sheet, start_row, start_col, end_row, end_col, true, reason).1 is Ok,
        same_rectangle(start_row, start_col, end_row, end_col, a, b, c, d),
    ensures
        ({
            let merged = merge_applied(
                m,
                sheet,
                start_row,
                start_col,
                end_row,
                end_col,
                true,
                reason,
            ).0;
            let apart = merge_applied(merged, sheet, a, b, c, d, false, other);
            let again = merge_applied(apart.0, sheet, a, b, c, d, false, other);
            &&& apart.1 is Ok
            &&& again.1 is Err
            &&& forall|s: Seq<char>| #[trigger]
                ranges_of(apart.0.merges, s) == ranges_of(m.merges, s)
            &&& forall|s: Seq<char>| #[trigger]
                ranges_of(again.0.merges, s) == ranges_of(m.merges, s)
            &&& forall|k: Key<Seq<char>>|
                k.sheet == sheet && deps::low(a, c) <= k.row <= deps::high(a, c) && deps::low(
                    b,
                    d,
                ) <= k.col <= deps::high(b, d) ==> #[trigger] notes_range(
                    apart.0.meta,
                    k,
                    Seq::empty(),
                )
        }),
{
    let top = deps::low(a, c);
    let bottom = deps::high(a, c);
    let left = deps::low(b, d);
    let right = deps::high(b, d);
    let range = coord::range_text(top, left, bottom, right);
    let ranges = ranges_of(m.merges, sheet);
    let merged = with_merge(m, sheet, top, left, bottom, right, true, reason);
    entries::law_get_after_put(m.merges, sheet, entries::with(ranges, range), sheet);
    assert(entries::with(ranges, range) == ranges.push(range));
    assert(ranges.push(range)[ranges.len() as int] == range);
    assert(ranges.push(range).drop_last() == ranges);
    lemma_without_stranger(ranges, range);
    assert(entries::without(ranges.push(range), range) == ranges);
    let apart = with_merge(merged, sheet, top, left, bottom, right, false, other);
    assert(merge_applied(merged, sheet, a, b, c, d, false, other) == (
        apart,
        Ok::<(), ShadowError<Seq<char>>>(()),
    ));
    let again = merge_applied(apart, sheet, a, b, c, d, false, other);
    entries::law_get_after_put(merged.merges, sheet, ranges, sheet);
    entries::law_get_after_put(apart.merges, sheet, ranges, sheet);
    assert forall|s: Seq<char>| #[trigger]
        ranges_of(apart.merges, s) == ranges_of(m.merges, s) by {
        entries::law_get_after_put(m.merges, sheet, entries::with(ranges, range), s);
        entries::law_get_after_put(merged.merges, sheet, ranges, s);
    }
    assert forall|s: Seq<char>| #[trigger]
        ranges_of(again.0.merges, s) == ranges_of(m.merges, s) by {
        entries::law_get_after_put(apart.merges, sheet, ranges, s);
        assert(ranges_of(apart.merges, s) == ranges_of(m.merges, s));
    }
    assert forall|k: Key<Seq<char>>|
        k.sheet == sheet && top <= k.row <= bottom && left <= k.col
            <= right implies #[trigger] notes_range(apart.meta, k, Seq::empty()) by {
        lemma_marked_rows(
            merged.meta,
            sheet,
            top,
            left,
            right - left + 1,
            Seq::empty(),
            bottom - top + 1,
            k,
        );
    }
}

/// Whether no cell, format, merged range or bound name stands under the name of a sheet.
pub open spec fn cells_forgotten(m: EngineModel, sheet: Seq<char>) -> bool {
    &&& forall|i: int| 0 <= i < m.cells.len() ==> (#[trigger] m.cells[i]).0.sheet != sheet
    &&& forall|i: int|
        0 <= i < m.style_patches.len() ==> (#[trigger] m.style_patches[i]).key.sheet != sheet
    &&& forall|i: int|
        0 <= i < m.defined_names.len() ==> (#[trigger] m.defined_names[i]).scope_sheet != Some(
            sheet,
        )
    &&& entries::get(m.merges, sheet) is None
    &&& !m.merge_dirty_sheets.contains(sheet)
}

proof fn lemma_map_forgets<V>(s: Seq<(Key<Seq<char>>, V)>, old_name: Seq<char>, new_name: Seq<char>)
    requires
        old_name != new_name,
    ensures
        forall|i: int|
            0 <= i < renamed_map(s, old_name, new_name).len() ==> (
            #[trigger] renamed_map(s, old_name, new_name)[i]).0.sheet != old_name,
    decreases s.len(),
{
    if s.len() > 0 {
        lemma_map_forgets(s.drop_last(), old_name, new_name);
        entries::lemma_place(
            renamed_map(s.drop_last(), old_name, new_name),
            renamed_key(s.last().0, old_name, new_name),
        );
    }
}

/// The cells of a renamed sheet, their formats, the merged ranges and the names that are bound
/// to the sheet go along: none of them is left under the old name.
pub proof fn law_renaming_carries_cells_over(
    m: EngineModel,
    sheet: Seq<char>,
    name: Seq<char>,
    reason: Seq<char>,
)
    requires
        m.wf(),
        sheet_renamed(m, sheet, name, reason).1 is Ok,
    ensures
        cells_forgotten(sheet_renamed(m, sheet, name, reason).0, sheet),
{
    let new_name = text::trim(name);
    lemma_sheet_place(m.sheets, sheet, 0);
    lemma_sheet_place(m.sheets, new_name, 0);
    assert(sheet != new_name);
    lemma_map_forgets(m.cells, sheet, new_name);
    reveal(EngineModel::once_each);
    entries::law_sets_hold_members_once(m.merge_dirty_sheets, sheet);
    let rest = entries::without(m.merge_dirty_sheets, sheet);
    let next = entries::with(rest, new_name);
    if next.contains(sheet) {
        let i = choose|i: int| 0 <= i < next.len() && next[i] == sheet;
        assert(i < rest.len());
        assert(rest.contains(sheet));
    }
    if let Some(ranges) = entries::get(m.merges, sheet) {
        entries::law_get_after_erase(m.merges, sheet, sheet);
        entries::law_get_after_put(entries::erase(m.merges, sheet), new_name, ranges, sheet);
    }
}

proof fn lemma_sheet_place(sheets: SheetsModel, name: Seq<char>, i: int)
    requires
        0 <= i,
    ensures
        engine::sheet_place(sheets, name, i) matches Some(j) ==> i <= j < sheets.len()
            && sheets[j].name == name,
        engine::sheet_place(sheets, name, i) is None ==> forall|j: int|
            i <= j < sheets.len() ==> (#[trigger] sheets[j]).name != name,
    decreases sheets.len() - i,
{
    if i < sheets.len() {
        lemma_sheet_place(sheets, name, i + 1);
    }
}

} // verus!
