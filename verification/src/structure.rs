//! Inserting, deleting and moving rows and columns: what the workbook holds follows.

use crate::cells;
use crate::cells::{FormulaCell, FormulasModel, MetaModel};
use crate::copies::Copied;
use crate::coord;
use crate::coord::{Key, ShadowError, StructureAxis, StructureEdit, StructureOpKind};
use crate::deps::NamesModel;
use crate::diagnostics::Fields;
use crate::engine;
use crate::engine::{EngineModel, SheetShadowEngine};
use crate::entries;
use crate::eval;
use crate::eval::{Ask, Outcome, Reply, Res};
use crate::formula;
use crate::highrisk::HighRiskModel;
use crate::objects;
use crate::objects::{TableInfo, TableModel};
use crate::recalc;
use crate::recalc::{Answers, Keys};
use crate::records::{
    AuditEvent, CellComment, DefinedName, DrawingObject, HighRiskObject, ShadowMetaRecord,
    StylePatch,
};
use crate::text;
use vstd::prelude::*;
use vstd::string::*;

verus! {

pub type EditModel = StructureEdit<Seq<char>>;

pub type Events = Seq<AuditEvent<Seq<char>>>;

// ----- What is kept by cell -----

/// Entries under the cells that an edit leaves, where it takes them.
pub open spec fn shifted_map<V>(s: Seq<(Key<Seq<char>>, V)>, e: EditModel) -> Seq<(Key<Seq<char>>, V)>
    decreases s.len(),
{
    if s.len() == 0 {
        s
    } else {
        let done = shifted_map(s.drop_last(), e);
        match coord::key_after(s.last().0, e) {
            Some(k) => entries::put(done, k, s.last().1),
            None => done,
        }
    }
}

pub fn shift_key_map<V: Copied>(v: &Vec<(Key, V)>, edit: &StructureEdit) -> (r: Vec<(Key, V)>)
    requires
        edit.valid(),
    ensures
        r.deep_view() == shifted_map(v.deep_view(), edit.deep_view()),
{
    let ghost all = v.deep_view();
    let mut out: Vec<(Key, V)> = Vec::new();
    let mut i: usize = 0;
    assert(out.deep_view() == Seq::<(Key<Seq<char>>, V::V)>::empty());
    assert(all.take(0) == Seq::<(Key<Seq<char>>, V::V)>::empty());
    while i < v.len()
        invariant
            i <= v.len(),
            all == v.deep_view(),
            edit.valid(),
            out.deep_view() == shifted_map(all.take(i as int), edit.deep_view()),
        decreases v.len() - i,
    {
        assert(all.take(i + 1).drop_last() == all.take(i as int));
        assert(all.take(i + 1).last() == v@[i as int].deep_view());
        match coord::transform_key(&v[i].0, edit) {
            Some(k) => entries::map_put(&mut out, k, v[i].1.copied()),
            None => {},
        }
        i = i + 1;
    }
    assert(all.take(all.len() as int) == all);
    out
}

/// The cells of a set that an edit leaves, where it takes them.
pub open spec fn shifted_set(s: Keys, e: EditModel) -> Keys
    decreases s.len(),
{
    if s.len() == 0 {
        s
    } else {
        let done = shifted_set(s.drop_last(), e);
        match coord::key_after(s.last(), e) {
            Some(k) => entries::with(done, k),
            None => done,
        }
    }
}

pub fn shift_key_set(v: &Vec<Key>, edit: &StructureEdit) -> (r: Vec<Key>)
    requires
        edit.valid(),
    ensures
        r.deep_view() == shifted_set(v.deep_view(), edit.deep_view()),
{
    let ghost all = v.deep_view();
    let mut out: Vec<Key> = Vec::new();
    let mut i: usize = 0;
    assert(out.deep_view() == Keys::empty());
    assert(all.take(0) == Keys::empty());
    while i < v.len()
        invariant
            i <= v.len(),
            all == v.deep_view(),
            edit.valid(),
            out.deep_view() == shifted_set(all.take(i as int), edit.deep_view()),
        decreases v.len() - i,
    {
        assert(all.take(i + 1).drop_last() == all.take(i as int));
        assert(all.take(i + 1).last() == v@[i as int].deep_view());
        match coord::transform_key(&v[i], edit) {
            Some(k) => entries::set_add(&mut out, k),
            None => {},
        }
        i = i + 1;
    }
    assert(all.take(all.len() as int) == all);
    out
}

/// Records that name the cells that they are kept under.
pub open spec fn placed_meta(s: MetaModel) -> MetaModel {
    Seq::new(
        s.len(),
        |i: int|
            (
                s[i].0,
                ShadowMetaRecord {
                    sheet_name: s[i].0.sheet,
                    row_idx: s[i].0.row,
                    col_idx: s[i].0.col,
                    ..s[i].1
                },
            ),
    )
}

fn place_meta(v: &Vec<(Key, ShadowMetaRecord)>) -> (r: Vec<(Key, ShadowMetaRecord)>)
    ensures
        r.deep_view() == placed_meta(v.deep_view()),
{
    let ghost expected = placed_meta(v.deep_view());
    let mut out: Vec<(Key, ShadowMetaRecord)> = Vec::new();
    let mut i: usize = 0;
    assert(out.deep_view() == expected.take(0));
    while i < v.len()
        invariant
            i <= v.len(),
            expected == placed_meta(v.deep_view()),
            out.deep_view() == expected.take(i as int),
        decreases v.len() - i,
    {
        assert(v.deep_view()[i as int] == v@[i as int].deep_view());
        let ghost done = out.deep_view();
        let k = v[i].0.clone();
        let mut known = v[i].1.clone();
        known.sheet_name = k.sheet.clone();
        known.row_idx = k.row;
        known.col_idx = k.col;
        let one = (k, known);
        out.push(one);
        assert(out.deep_view() == done.push(one.deep_view()));
        assert(expected.take(i + 1) == expected.take(i as int).push(expected[i as int]));
        i = i + 1;
    }
    assert(expected.take(expected.len() as int) == expected);
    out
}

/// Formats on the cells where an edit takes them; the format of a deleted cell stays where
/// it was.
pub open spec fn shifted_patches(s: Seq<StylePatch<Seq<char>>>, e: EditModel) -> Seq<
    StylePatch<Seq<char>>,
> {
    Seq::new(
        s.len(),
        |i: int|
            match coord::key_after(s[i].key, e) {
                Some(k) => StylePatch { key: k, ..s[i] },
                None => s[i],
            },
    )
}

fn shift_patches(v: &Vec<StylePatch>, edit: &StructureEdit) -> (r: Vec<StylePatch>)
    requires
        edit.valid(),
    ensures
        r.deep_view() == shifted_patches(v.deep_view(), edit.deep_view()),
{
    let ghost expected = shifted_patches(v.deep_view(), edit.deep_view());
    let mut out: Vec<StylePatch> = Vec::new();
    let mut i: usize = 0;
    assert(out.deep_view() == expected.take(0));
    while i < v.len()
        invariant
            i <= v.len(),
            edit.valid(),
            expected == shifted_patches(v.deep_view(), edit.deep_view()),
            out.deep_view() == expected.take(i as int),
        decreases v.len() - i,
    {
        assert(v.deep_view()[i as int] == v@[i as int].deep_view());
        let ghost done = out.deep_view();
        let mut one = v[i].clone();
        match coord::transform_key(&v[i].key, edit) {
            Some(k) => {
                one.key = k;
            },
            None => {},
        }
        out.push(one);
        assert(out.deep_view() == done.push(one.deep_view()));
        assert(expected.take(i + 1) == expected.take(i as int).push(expected[i as int]));
        i = i + 1;
    }
    assert(expected.take(expected.len() as int) == expected);
    out
}

/// What is kept by cell after an edit.
pub open spec fn keyed_shifted(m: EngineModel, e: EditModel) -> EngineModel {
    EngineModel {
        cells: shifted_map(m.cells, e),
        formulas: shifted_map(m.formulas, e),
        meta: placed_meta(shifted_map(m.meta, e)),
        modified: shifted_set(m.modified, e),
        dirty: shifted_set(m.dirty, e),
        style_patches: shifted_patches(m.style_patches, e),
        ..m
    }
}

impl SheetShadowEngine {
    fn shift_keyed_state(&mut self, edit: &StructureEdit)
        requires
            edit.valid(),
        ensures
            final(self).deep_view() == keyed_shifted(old(self).deep_view(), edit.deep_view()),
    {
        self.cells = shift_key_map(&self.cells, edit);
        self.formulas = shift_key_map(&self.formulas, edit);
        self.meta = place_meta(&shift_key_map(&self.meta, edit));
        self.modified = shift_key_set(&self.modified, edit);
        self.dirty = shift_key_set(&self.dirty, edit);
        self.style_patches = shift_patches(&self.style_patches, edit);
    }
}

/// What stood under a cell stands under the cell where an edit takes it. A move must have
/// its target outside the lines that it moves.
pub proof fn law_entries_follow_their_cells<V>(
    s: Seq<(Key<Seq<char>>, V)>,
    e: EditModel,
    k: Key<Seq<char>>,
)
    requires
        e.valid(),
        e.kind == StructureOpKind::Move ==> e.target < e.start || e.target > e.end,
        entries::distinct_keys(s),
    ensures
        coord::key_after(k, e) matches Some(next) ==> entries::get(shifted_map(s, e), next)
            == entries::get(s, k),
        entries::distinct_keys(shifted_map(s, e)),
    decreases s.len(),
{
    if s.len() > 0 {
        let rest = s.drop_last();
        let x = s.last();
        assert(entries::distinct_keys(rest)) by {
            assert forall|i: int, j: int| 0 <= i < j < rest.len() implies (#[trigger] rest[i]).0
                != (#[trigger] rest[j]).0 by {
                assert(s[i].0 != s[j].0);
            }
        }
        law_entries_follow_their_cells(rest, e, k);
        let done = shifted_map(rest, e);
        entries::lemma_place(rest, k);
        match coord::key_after(k, e) {
            Some(next) => {
                match coord::key_after(x.0, e) {
                    Some(y) => {
                        entries::law_get_after_put(done, y, x.1, next);
                        if k != x.0 && next == y {
                            coord::law_edit_keeps_cells_apart(k, x.0, e);
                        }
                    },
                    None => {},
                }
            },
            None => {
                match coord::key_after(x.0, e) {
                    Some(y) => {
                        entries::law_get_after_put(done, y, x.1, y);
                    },
                    None => {},
                }
            },
        }
    }
}

// ----- Merged ranges -----

pub open spec fn shifted_ranges(s: Seq<Seq<char>>, e: EditModel) -> Seq<Seq<char>>
    decreases s.len(),
{
    if s.len() == 0 {
        s
    } else {
        let done = shifted_ranges(s.drop_last(), e);
        match formula::range_ref_after(s.last(), e.sheet, e) {
            Some(t) => entries::with(done, t),
            None => done,
        }
    }
}

fn shift_ranges(v: &Vec<String>, edit: &StructureEdit) -> (r: Vec<String>)
    requires
        edit.valid(),
    ensures
        r.deep_view() == shifted_ranges(v.deep_view(), edit.deep_view()),
{
    let ghost all = v.deep_view();
    let mut out: Vec<String> = Vec::new();
    let mut i: usize = 0;
    assert(out.deep_view() == Seq::<Seq<char>>::empty());
    assert(all.take(0) == Seq::<Seq<char>>::empty());
    while i < v.len()
        invariant
            i <= v.len(),
            all == v.deep_view(),
            edit.valid(),
            out.deep_view() == shifted_ranges(all.take(i as int), edit.deep_view()),
        decreases v.len() - i,
    {
        assert(all.take(i + 1).drop_last() == all.take(i as int));
        assert(all.take(i + 1).last() == v@[i as int]@);
        match formula::transform_range_ref(&v[i], &edit.sheet, edit) {
            Some(t) => entries::set_add(&mut out, t),
            None => {},
        }
        i = i + 1;
    }
    assert(all.take(all.len() as int) == all);
    out
}

/// Records with the merged ranges that their cells are in after an edit.
pub open spec fn merged_meta(s: MetaModel, e: EditModel) -> MetaModel {
    Seq::new(
        s.len(),
        |i: int|
            if s[i].1.sheet_name == e.sheet && s[i].1.merge_range.len() > 0 {
                (
                    s[i].0,
                    ShadowMetaRecord {
                        merge_range: formula::or_empty(
                            formula::range_ref_after(s[i].1.merge_range, e.sheet, e),
                        ),
                        ..s[i].1
                    },
                )
            } else {
                s[i]
            },
    )
}

fn merge_meta(v: &Vec<(Key, ShadowMetaRecord)>, edit: &StructureEdit) -> (r: Vec<
    (Key, ShadowMetaRecord),
>)
    requires
        edit.valid(),
    ensures
        r.deep_view() == merged_meta(v.deep_view(), edit.deep_view()),
{
    let ghost expected = merged_meta(v.deep_view(), edit.deep_view());
    let mut out: Vec<(Key, ShadowMetaRecord)> = Vec::new();
    let mut i: usize = 0;
    assert(out.deep_view() == expected.take(0));
    while i < v.len()
        invariant
            i <= v.len(),
            edit.valid(),
            expected == merged_meta(v.deep_view(), edit.deep_view()),
            out.deep_view() == expected.take(i as int),
        decreases v.len() - i,
    {
        assert(v.deep_view()[i as int] == v@[i as int].deep_view());
        let ghost done = out.deep_view();
        let mut known = v[i].1.clone();
        if text::same(&known.sheet_name, &edit.sheet) && !known.merge_range.as_str().is_empty() {
            known.merge_range = formula::or_empty_of(
                formula::transform_range_ref(&known.merge_range, &edit.sheet, edit),
            );
        }
        let one = (v[i].0.clone(), known);
        out.push(one);
        assert(out.deep_view() == done.push(one.deep_view()));
        assert(expected.take(i + 1) == expected.take(i as int).push(expected[i as int]));
        i = i + 1;
    }
    assert(expected.take(expected.len() as int) == expected);
    out
}

pub open spec fn merges_shifted(m: EngineModel, e: EditModel) -> EngineModel {
    match entries::get(m.merges, e.sheet) {
        None => m,
        Some(ranges) => EngineModel {
            merges: entries::put(m.merges, e.sheet, shifted_ranges(ranges, e)),
            merge_dirty_sheets: entries::with(m.merge_dirty_sheets, e.sheet),
            meta: merged_meta(m.meta, e),
            ..m
        },
    }
}

impl SheetShadowEngine {
    fn shift_merges(&mut self, edit: &StructureEdit)
        requires
            edit.valid(),
        ensures
            final(self).deep_view() == merges_shifted(old(self).deep_view(), edit.deep_view()),
    {
        let shifted = match entries::map_get(&self.merges, &edit.sheet) {
            Some(ranges) => shift_ranges(ranges, edit),
            None => return ,
        };
        entries::map_put(&mut self.merges, edit.sheet.clone(), shifted);
        entries::set_add(&mut self.merge_dirty_sheets, edit.sheet.clone());
        self.meta = merge_meta(&self.meta, edit);
    }
}

// ----- Tables -----

/// What an edit does to tables: the tables, the parts of those that changed, and the events.
pub open spec fn tables_followed(s: Seq<TableModel>, e: EditModel) -> (
    Seq<TableModel>,
    Seq<Seq<char>>,
    Events,
)
    decreases s.len(),
{
    if s.len() == 0 {
        (Seq::empty(), Seq::empty(), Seq::empty())
    } else {
        let done = tables_followed(s.drop_last(), e);
        let t = s.last();
        if t.sheet != e.sheet {
            (done.0.push(t), done.1, done.2)
        } else {
            let next = objects::table_after(t, e);
            if objects::table_text(next) == objects::table_text(t) {
                (done.0.push(next), done.1, done.2)
            } else {
                (
                    done.0.push(next),
                    done.1.push(next.path),
                    done.2.push(
                        objects::named_event(
                            "table_range_update"@,
                            next.sheet,
                            next.start_row,
                            next.start_col,
                            objects::table_text(t),
                            objects::table_text(next),
                            next.name,
                            "structure_range_follow"@,
                        ),
                    ),
                )
            }
        }
    }
}

fn follow_tables(v: &Vec<TableInfo>, edit: &StructureEdit) -> (r: (
    Vec<TableInfo>,
    Vec<String>,
    Vec<AuditEvent>,
))
    requires
        edit.valid(),
    ensures
        (r.0.deep_view(), r.1.deep_view(), r.2.deep_view()) == tables_followed(
            v.deep_view(),
            edit.deep_view(),
        ),
{
    let ghost all = v.deep_view();
    let mut out: Vec<TableInfo> = Vec::new();
    let mut paths: Vec<String> = Vec::new();
    let mut events: Vec<AuditEvent> = Vec::new();
    let mut i: usize = 0;
    assert(all.take(0).len() == 0);
    assert(out.deep_view() == Seq::<TableModel>::empty());
    assert(paths.deep_view() == Seq::<Seq<char>>::empty());
    assert(events.deep_view() == Events::empty());
    while i < v.len()
        invariant
            i <= v.len(),
            all == v.deep_view(),
            edit.valid(),
            (out.deep_view(), paths.deep_view(), events.deep_view()) == tables_followed(
                all.take(i as int),
                edit.deep_view(),
            ),
        decreases v.len() - i,
    {
        assert(all.take(i + 1).drop_last() == all.take(i as int));
        assert(all.take(i + 1).last() == v@[i as int].deep_view());
        let ghost done = out.deep_view();
        let mut t = v[i].copied();
        if text::same(&t.sheet, &edit.sheet) {
            let before = objects::table_ref(&t);
            objects::apply_table_shift(&mut t, edit);
            let after = objects::table_ref(&t);
            if !text::same(&before, &after) {
                let ghost old_paths = paths.deep_view();
                let ghost old_events = events.deep_view();
                paths.push(t.path.clone());
                assert(paths.deep_view() == old_paths.push(t.path@));
                let told = objects::audit_event(
                    "table_range_update",
                    &t.sheet,
                    t.start_row,
                    t.start_col,
                    &before,
                    &after,
                    &t.name,
                    "structure_range_follow",
                );
                events.push(told);
                assert(events.deep_view() == old_events.push(told.deep_view()));
            }
        }
        out.push(t);
        assert(out.deep_view() == done.push(t.deep_view()));
        i = i + 1;
    }
    assert(all.take(all.len() as int) == all);
    (out, paths, events)
}

pub open spec fn tables_shifted(m: EngineModel, e: EditModel) -> EngineModel {
    let r = tables_followed(m.tables, e);
    EngineModel {
        tables: r.0,
        table_dirty_paths: entries::with_all(m.table_dirty_paths, r.1),
        audit_events: m.audit_events + r.2,
        ..m
    }
}

/// Adds each member of a list to a set.
pub fn add_each(v: &mut Vec<String>, more: &Vec<String>)
    ensures
        final(v).deep_view() == entries::with_all(old(v).deep_view(), more.deep_view()),
{
    let ghost all = more.deep_view();
    let ghost start = v.deep_view();
    let mut i: usize = 0;
    assert(all.take(0).len() == 0);
    while i < more.len()
        invariant
            i <= more.len(),
            all == more.deep_view(),
            v.deep_view() == entries::with_all(start, all.take(i as int)),
        decreases more.len() - i,
    {
        assert(all.take(i + 1).drop_last() == all.take(i as int));
        assert(all.take(i + 1).last() == more@[i as int]@);
        entries::set_add(v, more[i].clone());
        i = i + 1;
    }
    assert(all.take(all.len() as int) == all);
}

impl SheetShadowEngine {
    fn log_all(&mut self, events: Vec<AuditEvent>)
        ensures
            final(self).deep_view() == (EngineModel {
                audit_events: old(self).deep_view().audit_events + events.deep_view(),
                ..old(self).deep_view()
            }),
    {
        let ghost before = self.audit_events.deep_view();
        let mut more = events;
        self.audit_events.append(&mut more);
        assert(self.audit_events.deep_view() == before + events.deep_view());
    }

    fn shift_tables(&mut self, edit: &StructureEdit)
        requires
            edit.valid(),
        ensures
            final(self).deep_view() == tables_shifted(old(self).deep_view(), edit.deep_view()),
    {
        let (tables, paths, events) = follow_tables(&self.tables, edit);
        self.tables = tables;
        add_each(&mut self.table_dirty_paths, &paths);
        self.log_all(events);
    }
}

// ----- Defined names -----

/// What an edit does to defined names: the names and the events.
pub open spec fn names_followed(s: NamesModel, e: EditModel) -> (NamesModel, Events)
    decreases s.len(),
{
    if s.len() == 0 {
        (Seq::empty(), Seq::empty())
    } else {
        let done = names_followed(s.drop_last(), e);
        let d = s.last();
        let target = formula::formula_after(d.target, ""@, e);
        if target == d.target {
            (done.0.push(d), done.1)
        } else {
            (
                done.0.push(DefinedName { target, ..d }),
                done.1.push(
                    objects::named_event(
                        "defined_name_update"@,
                        e.sheet,
                        0,
                        0,
                        d.target,
                        target,
                        d.name,
                        "structure_range_follow"@,
                    ),
                ),
            )
        }
    }
}

fn follow_names(v: &Vec<DefinedName>, edit: &StructureEdit) -> (r: (
    Vec<DefinedName>,
    Vec<AuditEvent>,
))
    requires
        edit.valid(),
    ensures
        (r.0.deep_view(), r.1.deep_view()) == names_followed(v.deep_view(), edit.deep_view()),
{
    let ghost all = v.deep_view();
    let mut out: Vec<DefinedName> = Vec::new();
    let mut events: Vec<AuditEvent> = Vec::new();
    let mut i: usize = 0;
    assert(all.take(0).len() == 0);
    assert(out.deep_view() == NamesModel::empty());
    assert(events.deep_view() == Events::empty());
    while i < v.len()
        invariant
            i <= v.len(),
            all == v.deep_view(),
            edit.valid(),
            (out.deep_view(), events.deep_view()) == names_followed(
                all.take(i as int),
                edit.deep_view(),
            ),
        decreases v.len() - i,
    {
        assert(all.take(i + 1).drop_last() == all.take(i as int));
        assert(all.take(i + 1).last() == v@[i as int].deep_view());
        let ghost done = out.deep_view();
        let mut d = v[i].clone();
        let target = formula::rewrite_formula_structure_refs(&d.target, "", edit);
        if !text::same(&target, &d.target) {
            let ghost old_events = events.deep_view();
            let told = objects::audit_event(
                "defined_name_update",
                &edit.sheet,
                0,
                0,
                &d.target,
                &target,
                &d.name,
                "structure_range_follow",
            );
            events.push(told);
            assert(events.deep_view() == old_events.push(told.deep_view()));
            d.target = target;
        }
        out.push(d);
        assert(out.deep_view() == done.push(d.deep_view()));
        i = i + 1;
    }
    assert(all.take(all.len() as int) == all);
    (out, events)
}

pub open spec fn names_shifted(m: EngineModel, e: EditModel) -> EngineModel {
    let r = names_followed(m.defined_names, e);
    EngineModel {
        defined_names: r.0,
        workbook_dirty: m.workbook_dirty || r.1.len() > 0,
        audit_events: m.audit_events + r.1,
        ..m
    }
}

impl SheetShadowEngine {
    fn shift_defined_names(&mut self, edit: &StructureEdit)
        requires
            edit.valid(),
        ensures
            final(self).deep_view() == names_shifted(old(self).deep_view(), edit.deep_view()),
    {
        let (names, events) = follow_names(&self.defined_names, edit);
        self.defined_names = names;
        assert(events.deep_view().len() == events.len());
        if events.len() > 0 {
            self.workbook_dirty = true;
        }
        self.log_all(events);
    }
}

// ----- Comments and rules -----

pub open spec fn comments_shifted(m: EngineModel, e: EditModel) -> EngineModel {
    let r = objects::comments_after(m.comments, e);
    EngineModel {
        comments: r.0,
        comment_dirty_sheets: if r.1.len() > 0 {
            entries::with(m.comment_dirty_sheets, e.sheet)
        } else {
            m.comment_dirty_sheets
        },
        audit_events: m.audit_events + r.1,
        ..m
    }
}

pub open spec fn rules_shifted(m: EngineModel, e: EditModel) -> EngineModel {
    let next = EngineModel {
        data_validations: objects::validations_after(m.data_validations, e),
        auto_filters: objects::filters_after(m.auto_filters, e),
        conditional_formats: objects::formats_after(m.conditional_formats, e),
        ..m
    };
    if objects::validations_moved(m.data_validations, e) || objects::filters_moved(
        m.auto_filters,
        e,
    ) || objects::formats_moved(m.conditional_formats, e) {
        engine::logged(
            EngineModel {
                object_dirty_sheets: entries::with(m.object_dirty_sheets, e.sheet),
                ..next
            },
            objects::event(
                "object_range_update"@,
                e.sheet,
                0,
                0,
                ""@,
                "ranges_followed"@,
                "structure_object_follow"@,
            ),
        )
    } else {
        next
    }
}

impl SheetShadowEngine {
    fn shift_sheet_objects(&mut self, edit: &StructureEdit)
        requires
            edit.valid(),
        ensures
            final(self).deep_view() == rules_shifted(
                comments_shifted(old(self).deep_view(), edit.deep_view()),
                edit.deep_view(),
            ),
    {
        let (comments, events) = objects::shift_comments(&self.comments, edit);
        self.comments = comments;
        assert(events.deep_view().len() == events.len());
        if events.len() > 0 {
            entries::set_add(&mut self.comment_dirty_sheets, edit.sheet.clone());
        }
        self.log_all(events);
        let (validations, a) = objects::shift_validations(&self.data_validations, edit);
        let (filters, b) = objects::shift_filters(&self.auto_filters, edit);
        let (formats, c) = objects::shift_formats(&self.conditional_formats, edit);
        self.data_validations = validations;
        self.auto_filters = filters;
        self.conditional_formats = formats;
        if a || b || c {
            entries::set_add(&mut self.object_dirty_sheets, edit.sheet.clone());
            let told = objects::object_audit_event(
                "object_range_update",
                &edit.sheet,
                0,
                0,
                "",
                "ranges_followed",
                "structure_object_follow",
            );
            self.log(told);
        }
    }
}

// ----- Drawings -----

pub open spec fn drawings_shifted(m: EngineModel, e: EditModel) -> EngineModel {
    let r = objects::drawings_after(m.drawing_objects, e);
    let followed = EngineModel {
        drawing_objects: r.drawings,
        drawing_dirty_paths: entries::with_all(m.drawing_dirty_paths, r.paths),
        audit_events: m.audit_events + r.events,
        ..m
    };
    let told = if r.events.len() > 0 {
        engine::logged(
            followed,
            objects::event(
                "drawing_object_update"@,
                e.sheet,
                0,
                0,
                ""@,
                "anchors_followed"@,
                "structure_drawing_anchor_follow"@,
            ),
        )
    } else {
        followed
    };
    if r.invalidated {
        engine::logged(
            told,
            objects::event(
                "drawing_object_warning"@,
                e.sheet,
                0,
                0,
                ""@,
                "anchor_cell_deleted_by_structure_edit"@,
                "structure_drawing_anchor_follow"@,
            ),
        )
    } else {
        told
    }
}

impl SheetShadowEngine {
    fn shift_drawing_objects(&mut self, edit: &StructureEdit)
        requires
            edit.valid(),
        ensures
            final(self).deep_view() == drawings_shifted(old(self).deep_view(), edit.deep_view()),
    {
        let r = objects::shift_drawings(&self.drawing_objects, edit);
        self.drawing_objects = r.drawings;
        add_each(&mut self.drawing_dirty_paths, &r.paths);
        let changed = r.events.len() > 0;
        assert(r.events.deep_view().len() == r.events.len());
        self.log_all(r.events);
        if changed {
            let told = objects::object_audit_event(
                "drawing_object_update",
                &edit.sheet,
                0,
                0,
                "",
                "anchors_followed",
                "structure_drawing_anchor_follow",
            );
            self.log(told);
        }
        if r.invalidated {
            let told = objects::object_audit_event(
                "drawing_object_warning",
                &edit.sheet,
                0,
                0,
                "",
                "anchor_cell_deleted_by_structure_edit",
                "structure_drawing_anchor_follow",
            );
            self.log(told);
        }
    }
}

// ----- Sparklines -----

/// A sparkline after an edit: the object, the events, whether its source or its place
/// moved, and whether it lost what it refers to.
#[verifier::ext_equal]
pub struct SparklineShift<O, E> {
    pub object: O,
    pub events: E,
    pub source: bool,
    pub place: bool,
    pub lost: bool,
}

pub type SparklineShiftModel = SparklineShift<HighRiskObject<Seq<char>>, Events>;

pub open spec fn sparkline_after(o: HighRiskObject<Seq<char>>, e: EditModel) -> SparklineShiftModel {
    let source = formula::formula_after(o.source_formula, o.sheet, e);
    match formula::sqref_after(o.ref_text, o.sheet, e) {
        Some(place) => if text::contains(source, "#REF!"@) {
            lost_sparkline(o)
        } else {
            SparklineShift {
                object: HighRiskObject { source_formula: source, ref_text: place, ..o },
                events: (if source != o.source_formula {
                    seq![
                        objects::named_event(
                            "sparkline_source_update"@,
                            o.sheet,
                            0,
                            0,
                            o.source_formula,
                            source,
                            o.object_id,
                            "structure_sparkline_source_follow"@,
                        ),
                    ]
                } else {
                    Seq::empty()
                }) + (if place != o.ref_text {
                    seq![
                        objects::named_event(
                            "sparkline_ref_update"@,
                            o.sheet,
                            0,
                            0,
                            o.ref_text,
                            place,
                            o.object_id,
                            "structure_sparkline_sqref_follow"@,
                        ),
                    ]
                } else {
                    Seq::empty()
                }),
                source: source != o.source_formula,
                place: place != o.ref_text,
                lost: false,
            }
        },
        None => lost_sparkline(o),
    }
}

pub open spec fn lost_sparkline(o: HighRiskObject<Seq<char>>) -> SparklineShiftModel {
    SparklineShift {
        object: HighRiskObject {
            invalid_reason: "sparkline_ref_deleted_by_structure_edit"@,
            ..o
        },
        events: seq![
            objects::named_event(
                "sparkline_ref_warning"@,
                o.sheet,
                0,
                0,
                o.ref_text,
                "sparkline_ref_deleted_by_structure_edit"@,
                o.object_id,
                "structure_sparkline_follow"@,
            ),
        ],
        source: false,
        place: false,
        lost: true,
    }
}

fn lose_sparkline(o: &HighRiskObject) -> (r: SparklineShift<HighRiskObject, Vec<AuditEvent>>)
    ensures
        (SparklineShift {
            object: r.object.deep_view(),
            events: r.events.deep_view(),
            source: r.source,
            place: r.place,
            lost: r.lost,
        }) == lost_sparkline(o.deep_view()),
{
    let mut next = o.clone();
    next.invalid_reason = "sparkline_ref_deleted_by_structure_edit".to_owned();
    let told = objects::audit_event(
        "sparkline_ref_warning",
        &o.sheet,
        0,
        0,
        &o.ref_text,
        "sparkline_ref_deleted_by_structure_edit",
        &o.object_id,
        "structure_sparkline_follow",
    );
    let events: Vec<AuditEvent> = vec![told];
    assert(events.deep_view() == seq![told.deep_view()]);
    SparklineShift { object: next, events, source: false, place: false, lost: true }
}

fn follow_sparkline(o: &HighRiskObject, edit: &StructureEdit) -> (r: SparklineShift<
    HighRiskObject,
    Vec<AuditEvent>,
>)
    requires
        edit.valid(),
    ensures
        (SparklineShift {
            object: r.object.deep_view(),
            events: r.events.deep_view(),
            source: r.source,
            place: r.place,
            lost: r.lost,
        }) == sparkline_after(o.deep_view(), edit.deep_view()),
{
    let source = formula::rewrite_formula_structure_refs(&o.source_formula, &o.sheet, edit);
    let place = match formula::transform_sqref_ref(&o.ref_text, &o.sheet, edit) {
        Some(place) => place,
        None => return lose_sparkline(o),
    };
    if text::has(&source, "#REF!") {
        return lose_sparkline(o);
    }
    let mut events: Vec<AuditEvent> = Vec::new();
    assert(events.deep_view() == Events::empty());
    let source_moved = !text::same(&source, &o.source_formula);
    if source_moved {
        let told = objects::audit_event(
            "sparkline_source_update",
            &o.sheet,
            0,
            0,
            &o.source_formula,
            &source,
            &o.object_id,
            "structure_sparkline_source_follow",
        );
        events.push(told);
        assert(events.deep_view() == seq![told.deep_view()]);
    }
    let ghost first = events.deep_view();
    let place_moved = !text::same(&place, &o.ref_text);
    if place_moved {
        let told = objects::audit_event(
            "sparkline_ref_update",
            &o.sheet,
            0,
            0,
            &o.ref_text,
            &place,
            &o.object_id,
            "structure_sparkline_sqref_follow",
        );
        events.push(told);
        assert(events.deep_view() == first + seq![told.deep_view()]);
    } else {
        assert(first + Events::empty() == first);
    }
    let mut next = o.clone();
    next.source_formula = source;
    next.ref_text = place;
    SparklineShift {
        object: next,
        events,
        source: source_moved,
        place: place_moved,
        lost: false,
    }
}

/// The shadow with one more of its sparklines after an edit; the objects are gathered in
/// `high_risk_objects` as they are worked out.
pub open spec fn with_sparkline(m: EngineModel, r: SparklineShiftModel, e: EditModel) -> EngineModel {
    let id = r.object.object_id;
    EngineModel {
        high_risk_objects: m.high_risk_objects.push(r.object),
        sparkline_source_updates: if r.source {
            entries::put(m.sparkline_source_updates, id, r.object.source_formula)
        } else {
            m.sparkline_source_updates
        },
        sparkline_dirty_objects: if r.source || r.place {
            entries::with(m.sparkline_dirty_objects, id)
        } else {
            m.sparkline_dirty_objects
        },
        sparkline_dirty_sheets: if r.source || r.place {
            entries::with(m.sparkline_dirty_sheets, e.sheet)
        } else {
            m.sparkline_dirty_sheets
        },
        audit_events: m.audit_events + r.events,
        ..m
    }
}

/// The objects of `list` after an edit, and whether a sparkline lost what it refers to.
pub open spec fn sparklines_followed(m: EngineModel, list: HighRiskModel, e: EditModel) -> (
    EngineModel,
    bool,
)
    decreases list.len(),
{
    if list.len() == 0 {
        (EngineModel { high_risk_objects: Seq::empty(), ..m }, false)
    } else {
        let done = sparklines_followed(m, list.drop_last(), e);
        let o = list.last();
        if o.sheet != e.sheet || o.object_type != "sparkline"@ {
            (
                EngineModel {
                    high_risk_objects: done.0.high_risk_objects.push(o),
                    ..done.0
                },
                done.1,
            )
        } else {
            let r = sparkline_after(o, e);
            (with_sparkline(done.0, r, e), done.1 || r.lost)
        }
    }
}

pub open spec fn risks_shifted(m: EngineModel, e: EditModel) -> EngineModel {
    let r = sparklines_followed(m, m.high_risk_objects, e);
    if r.1 {
        engine::logged(
            r.0,
            objects::event(
                "sparkline_object_warning"@,
                e.sheet,
                0,
                0,
                ""@,
                "sparkline_ref_deleted_by_structure_edit"@,
                "structure_sparkline_follow"@,
            ),
        )
    } else {
        r.0
    }
}

impl SheetShadowEngine {
    fn add_sparkline(
        &mut self,
        r: SparklineShift<HighRiskObject, Vec<AuditEvent>>,
        edit: &StructureEdit,
    )
        ensures
            final(self).deep_view() == with_sparkline(
                old(self).deep_view(),
                SparklineShift {
                    object: r.object.deep_view(),
                    events: r.events.deep_view(),
                    source: r.source,
                    place: r.place,
                    lost: r.lost,
                },
                edit.deep_view(),
            ),
    {
        if r.source {
            entries::map_put(
                &mut self.sparkline_source_updates,
                r.object.object_id.clone(),
                r.object.source_formula.clone(),
            );
        }
        if r.source || r.place {
            entries::set_add(&mut self.sparkline_dirty_objects, r.object.object_id.clone());
            entries::set_add(&mut self.sparkline_dirty_sheets, edit.sheet.clone());
        }
        self.log_all(r.events);
        let ghost before = self.high_risk_objects.deep_view();
        self.high_risk_objects.push(r.object);
        assert(self.high_risk_objects.deep_view() == before.push(r.object.deep_view()));
    }

    fn shift_high_risk_objects(&mut self, edit: &StructureEdit)
        requires
            edit.valid(),
        ensures
            final(self).deep_view() == risks_shifted(old(self).deep_view(), edit.deep_view()),
    {
        let ghost m = self.deep_view();
        let list = self.high_risk_objects.copied();
        let ghost all = list.deep_view();
        self.high_risk_objects = Vec::new();
        assert(self.high_risk_objects.deep_view() == HighRiskModel::empty());
        let mut lost = false;
        let mut i: usize = 0;
        assert(all.take(0).len() == 0);
        while i < list.len()
            invariant
                i <= list.len(),
                all == list.deep_view(),
                edit.valid(),
                (self.deep_view(), lost) == sparklines_followed(
                    m,
                    all.take(i as int),
                    edit.deep_view(),
                ),
            decreases list.len() - i,
        {
            assert(all.take(i + 1).drop_last() == all.take(i as int));
            assert(all.take(i + 1).last() == list@[i as int].deep_view());
            let o = &list[i];
            if !text::same(&o.sheet, &edit.sheet) || !text::same(&o.object_type, "sparkline") {
                let ghost before = self.high_risk_objects.deep_view();
                let kept = o.clone();
                self.high_risk_objects.push(kept);
                assert(self.high_risk_objects.deep_view() == before.push(kept.deep_view()));
            } else {
                let r = follow_sparkline(o, edit);
                if r.lost {
                    lost = true;
                }
                self.add_sparkline(r, edit);
            }
            i = i + 1;
        }
        assert(all.take(all.len() as int) == all);
        if lost {
            let told = objects::object_audit_event(
                "sparkline_object_warning",
                &edit.sheet,
                0,
                0,
                "",
                "sparkline_ref_deleted_by_structure_edit",
                "structure_sparkline_follow",
            );
            self.log(told);
        }
    }
}

// ----- Formulas -----

/// Formulas with their references where an edit takes them, and the cells whose formula
/// changed, added to `changed`.
pub open spec fn formulas_followed(s: FormulasModel, changed: Keys, e: EditModel) -> (
    FormulasModel,
    Keys,
)
    decreases s.len(),
{
    if s.len() == 0 {
        (Seq::empty(), changed)
    } else {
        let done = formulas_followed(s.drop_last(), changed, e);
        let k = s.last().0;
        let next = formula::formula_after(s.last().1.formula, k.sheet, e);
        (
            done.0.push((k, FormulaCell { formula: next, ..s.last().1 })),
            if next == s.last().1.formula {
                done.1
            } else {
                entries::with(done.1, k)
            },
        )
    }
}

fn follow_formulas(v: &Vec<(Key, FormulaCell)>, changed: &mut Vec<Key>, edit: &StructureEdit) -> (r:
    Vec<(Key, FormulaCell)>)
    requires
        edit.valid(),
    ensures
        (r.deep_view(), final(changed).deep_view()) == formulas_followed(
            v.deep_view(),
            old(changed).deep_view(),
            edit.deep_view(),
        ),
{
    let ghost all = v.deep_view();
    let ghost start = changed.deep_view();
    let mut out: Vec<(Key, FormulaCell)> = Vec::new();
    let mut i: usize = 0;
    assert(all.take(0).len() == 0);
    assert(out.deep_view() == FormulasModel::empty());
    while i < v.len()
        invariant
            i <= v.len(),
            all == v.deep_view(),
            edit.valid(),
            (out.deep_view(), changed.deep_view()) == formulas_followed(
                all.take(i as int),
                start,
                edit.deep_view(),
            ),
        decreases v.len() - i,
    {
        assert(all.take(i + 1).drop_last() == all.take(i as int));
        assert(all.take(i + 1).last() == v@[i as int].deep_view());
        let k = v[i].0.clone();
        let next = formula::rewrite_formula_structure_refs(&v[i].1.formula, &k.sheet, edit);
        if !text::same(&next, &v[i].1.formula) {
            entries::set_add(changed, k.clone());
        }
        let ghost done = out.deep_view();
        let one = (k, FormulaCell { formula: next, deps: v[i].1.deps.copied() });
        out.push(one);
        assert(out.deep_view() == done.push(one.deep_view()));
        i = i + 1;
    }
    assert(all.take(all.len() as int) == all);
    out
}

/// Records with the references in their formulas where an edit takes them, and the cells
/// whose record changed, added to `changed`.
pub open spec fn meta_followed(s: MetaModel, changed: Keys, e: EditModel) -> (MetaModel, Keys)
    decreases s.len(),
{
    if s.len() == 0 {
        (Seq::empty(), changed)
    } else {
        let done = meta_followed(s.drop_last(), changed, e);
        let k = s.last().0;
        let known = s.last().1;
        let next = formula::formula_after(known.original_formula, k.sheet, e);
        if known.original_formula.len() == 0 || next == known.original_formula {
            (done.0.push(s.last()), done.1)
        } else {
            (
                done.0.push(
                    (
                        k,
                        ShadowMetaRecord {
                            original_formula: next,
                            is_modified: true,
                            ..known
                        },
                    ),
                ),
                entries::with(done.1, k),
            )
        }
    }
}

fn follow_meta(v: &Vec<(Key, ShadowMetaRecord)>, changed: &mut Vec<Key>, edit: &StructureEdit) -> (r:
    Vec<(Key, ShadowMetaRecord)>)
    requires
        edit.valid(),
    ensures
        (r.deep_view(), final(changed).deep_view()) == meta_followed(
            v.deep_view(),
            old(changed).deep_view(),
            edit.deep_view(),
        ),
{
    let ghost all = v.deep_view();
    let ghost start = changed.deep_view();
    let mut out: Vec<(Key, ShadowMetaRecord)> = Vec::new();
    let mut i: usize = 0;
    assert(all.take(0).len() == 0);
    assert(out.deep_view() == MetaModel::empty());
    while i < v.len()
        invariant
            i <= v.len(),
            all == v.deep_view(),
            edit.valid(),
            (out.deep_view(), changed.deep_view()) == meta_followed(
                all.take(i as int),
                start,
                edit.deep_view(),
            ),
        decreases v.len() - i,
    {
        assert(all.take(i + 1).drop_last() == all.take(i as int));
        assert(all.take(i + 1).last() == v@[i as int].deep_view());
        let k = v[i].0.clone();
        let mut known = v[i].1.clone();
        if !known.original_formula.as_str().is_empty() {
            let next = formula::rewrite_formula_structure_refs(
                &known.original_formula,
                &k.sheet,
                edit,
            );
            if !text::same(&next, &known.original_formula) {
                known.original_formula = next;
                known.is_modified = true;
                entries::set_add(changed, k.clone());
            }
        }
        let ghost done = out.deep_view();
        let one = (k, known);
        out.push(one);
        assert(out.deep_view() == done.push(one.deep_view()));
        i = i + 1;
    }
    assert(all.take(all.len() as int) == all);
    out
}

pub open spec fn formulas_shifted(m: EngineModel, e: EditModel) -> EngineModel {
    let f = formulas_followed(m.formulas, m.modified, e);
    let t = meta_followed(m.meta, f.1, e);
    EngineModel { formulas: f.0, meta: t.0, modified: t.1, ..m }
}

impl SheetShadowEngine {
    fn rewrite_formulas_for_structure(&mut self, edit: &StructureEdit)
        requires
            edit.valid(),
        ensures
            final(self).deep_view() == formulas_shifted(old(self).deep_view(), edit.deep_view()),
    {
        let formulas = follow_formulas(&self.formulas, &mut self.modified, edit);
        self.formulas = formulas;
        let meta = follow_meta(&self.meta, &mut self.modified, edit);
        self.meta = meta;
    }
}

// ----- Edits -----

/// A request to insert, delete or move lines: for an insertion `arg` is how many, for a move
/// where to.
#[verifier::ext_equal]
pub struct StructureRequest<S = String> {
    pub sheet: S,
    pub axis: StructureAxis,
    pub kind: StructureOpKind,
    pub start: usize,
    pub end: usize,
    pub arg: usize,
}

pub type RequestModel = StructureRequest<Seq<char>>;

impl DeepView for StructureRequest<String> {
    type V = RequestModel;

    open spec fn deep_view(&self) -> RequestModel {
        StructureRequest {
            sheet: self.sheet@,
            axis: self.axis,
            kind: self.kind,
            start: self.start,
            end: self.end,
            arg: self.arg,
        }
    }
}

impl<S> StructureRequest<S> {
    /// The last inserted line has a number.
    pub open spec fn fits(self) -> bool {
        self.kind == StructureOpKind::Insert ==> self.start + self.arg - 1 <= usize::MAX
    }
}

/// The edit that a request asks for, or why it is refused.
pub open spec fn requested_edit(q: RequestModel) -> Result<EditModel, Seq<char>> {
    if q.start == 0 || q.end == 0 || q.end < q.start {
        Err("unsafe_update: structure range must be positive and ordered"@)
    } else {
        match q.kind {
            StructureOpKind::Insert => if q.arg == 0 {
                Err("unsafe_update: insert count must be positive"@)
            } else {
                Ok(
                    StructureEdit {
                        sheet: q.sheet,
                        axis: q.axis,
                        kind: q.kind,
                        start: q.start,
                        end: (q.start + q.arg - 1) as usize,
                        target: q.start,
                    },
                )
            },
            StructureOpKind::Delete => if q.arg != 0 {
                Err("unsafe_update: delete does not accept a target"@)
            } else {
                Ok(
                    StructureEdit {
                        sheet: q.sheet,
                        axis: q.axis,
                        kind: q.kind,
                        start: q.start,
                        end: q.end,
                        target: 0,
                    },
                )
            },
            StructureOpKind::Move => if q.arg == 0 {
                Err("unsafe_update: move target must be positive"@)
            } else if q.start <= q.arg <= q.end {
                Err("unsafe_update: move target must be outside the moved range"@)
            } else {
                Ok(
                    StructureEdit {
                        sheet: q.sheet,
                        axis: q.axis,
                        kind: q.kind,
                        start: q.start,
                        end: q.end,
                        target: q.arg,
                    },
                )
            },
        }
    }
}

pub open spec fn edit_view(r: Result<StructureEdit, String>) -> Result<EditModel, Seq<char>> {
    match r {
        Ok(e) => Ok(e.deep_view()),
        Err(m) => Err(m@),
    }
}

pub fn edit_for(q: &StructureRequest) -> (r: Result<StructureEdit, String>)
    requires
        q.fits(),
    ensures
        edit_view(r) == requested_edit(q.deep_view()),
        r matches Ok(e) ==> e.valid(),
{
    if q.start == 0 || q.end == 0 || q.end < q.start {
        return Err("unsafe_update: structure range must be positive and ordered".to_owned());
    }
    let (end, target) = match q.kind {
        StructureOpKind::Insert => {
            if q.arg == 0 {
                return Err("unsafe_update: insert count must be positive".to_owned());
            }
            (q.start + (q.arg - 1), q.start)
        },
        StructureOpKind::Delete => {
            if q.arg != 0 {
                return Err("unsafe_update: delete does not accept a target".to_owned());
            }
            (q.end, 0)
        },
        StructureOpKind::Move => {
            if q.arg == 0 {
                return Err("unsafe_update: move target must be positive".to_owned());
            }
            if q.start <= q.arg && q.arg <= q.end {
                return Err(
                    "unsafe_update: move target must be outside the moved range".to_owned(),
                );
            }
            (q.end, q.arg)
        },
    };
    Ok(
        StructureEdit {
            sheet: q.sheet.clone(),
            axis: q.axis,
            kind: q.kind,
            start: q.start,
            end,
            target,
        },
    )
}

/// Everything that follows an edit, before values are worked out anew.
pub open spec fn followed(m: EngineModel, e: EditModel) -> EngineModel {
    let a = tables_shifted(merges_shifted(keyed_shifted(m, e), e), e);
    let b = rules_shifted(comments_shifted(names_shifted(a, e), e), e);
    engine::rebuilt(formulas_shifted(risks_shifted(drawings_shifted(b, e), e), e))
}

pub open spec fn axis_word(a: StructureAxis) -> Seq<char> {
    match a {
        StructureAxis::Row => "row"@,
        StructureAxis::Col => "col"@,
    }
}

pub open spec fn kind_word(k: StructureOpKind) -> Seq<char> {
    match k {
        StructureOpKind::Insert => "insert"@,
        StructureOpKind::Delete => "delete"@,
        StructureOpKind::Move => "move"@,
    }
}

fn word_of_axis(a: StructureAxis) -> (r: &'static str)
    ensures
        r@ == axis_word(a),
{
    match a {
        StructureAxis::Row => "row",
        StructureAxis::Col => "col",
    }
}

fn word_of_kind(k: StructureOpKind) -> (r: &'static str)
    ensures
        r@ == kind_word(k),
{
    match k {
        StructureOpKind::Insert => "insert",
        StructureOpKind::Delete => "delete",
        StructureOpKind::Move => "move",
    }
}

/// The shadow after an edit, with the edit noted for the documents and in the trail.
pub open spec fn noted(m: EngineModel, q: RequestModel, e: EditModel, reason: Seq<char>) -> EngineModel {
    engine::logged(
        EngineModel {
            structural_edits: m.structural_edits.push(e),
            structural_dirty_sheets: entries::with(m.structural_dirty_sheets, q.sheet),
            ..m
        },
        objects::event(
            "structure_update"@,
            q.sheet,
            if q.axis == StructureAxis::Row {
                q.start
            } else {
                0
            },
            if q.axis == StructureAxis::Col {
                q.start
            } else {
                0
            },
            axis_word(q.axis) + ":"@ + text::decimal(q.start as nat) + ":"@ + text::decimal(
                q.end as nat,
            ),
            kind_word(q.kind) + ":target="@ + text::decimal(e.target as nat) + ":end="@
                + text::decimal(e.end as nat),
            reason,
        ),
    )
}

/// Lines inserted, deleted or moved, with everything that follows.
pub open spec fn restructured(
    m: EngineModel,
    q: RequestModel,
    reason: Seq<char>,
    answers: Answers,
    fuel: nat,
) -> (EngineModel, Res<()>) {
    match engine::target_refusal(m, q.sheet, 1, 1) {
        Some(message) => (m, Outcome::Fail(message)),
        None => match requested_edit(q) {
            Err(message) => (m, Outcome::Fail(message)),
            Ok(e) => {
                let ready = followed(m, e);
                let order = recalc::formula_order(ready);
                let r = recalc::recalc_all(
                    ready,
                    order,
                    reason,
                    answers,
                    fuel,
                    order.len() as int,
                );
                match r.1 {
                    Outcome::Value(_) => (noted(r.0, q, e, reason), Outcome::Value(())),
                    other => (r.0, eval::held(other)),
                }
            },
        },
    }
}

/// A request that is refused changes nothing: the shadow stays, and so does its trail.
pub proof fn law_refused_edit_changes_nothing(
    m: EngineModel,
    q: RequestModel,
    reason: Seq<char>,
    answers: Answers,
    fuel: nat,
)
    ensures
        restructured(m, q, reason, answers, fuel).1 is Fail ==> restructured(
            m,
            q,
            reason,
            answers,
            fuel,
        ).0 == m,
{
    if engine::target_refusal(m, q.sheet, 1, 1) is None && requested_edit(q) is Ok {
        let ready = followed(m, requested_edit(q)->Ok_0);
        let order = recalc::formula_order(ready);
        lemma_never_fails(ready, order, reason, answers, fuel, order.len() as int);
    }
}

proof fn lemma_never_fails(
    m: EngineModel,
    list: Keys,
    reason: Seq<char>,
    answers: Answers,
    fuel: nat,
    n: int,
)
    ensures
        !(recalc::recalc_all(m, list, reason, answers, fuel, n).1 is Fail),
    decreases n,
{
    if n > 0 {
        lemma_never_fails(m, list, reason, answers, fuel, n - 1);
    }
}

proof fn lemma_shifted_map_once<V>(s: Seq<(Key<Seq<char>>, V)>, e: EditModel)
    ensures
        entries::distinct_keys(shifted_map(s, e)),
    decreases s.len(),
{
    if s.len() > 0 {
        lemma_shifted_map_once(s.drop_last(), e);
        if let Some(k) = coord::key_after(s.last().0, e) {
            entries::law_get_after_put(shifted_map(s.drop_last(), e), k, s.last().1, k);
        }
    }
}

proof fn lemma_shifted_formulas_once(s: FormulasModel, e: EditModel)
    requires
        forall|i: int| 0 <= i < s.len() ==> (#[trigger] s[i]).1.deps.no_duplicates(),
    ensures
        cells::formulas_once(shifted_map(s, e)),
    decreases s.len(),
{
    if s.len() > 0 {
        let rest = s.drop_last();
        assert forall|i: int| 0 <= i < rest.len() implies (
        #[trigger] rest[i]).1.deps.no_duplicates() by {
            assert(s[i].1.deps.no_duplicates());
        }
        assert(s[s.len() - 1].1.deps.no_duplicates());
        lemma_shifted_formulas_once(rest, e);
        if let Some(k) = coord::key_after(s.last().0, e) {
            cells::lemma_put_formula_once(shifted_map(rest, e), k, s.last().1);
        }
    }
}

proof fn lemma_shifted_set_once(s: Keys, e: EditModel)
    ensures
        shifted_set(s, e).no_duplicates(),
    decreases s.len(),
{
    if s.len() > 0 {
        lemma_shifted_set_once(s.drop_last(), e);
        if let Some(k) = coord::key_after(s.last(), e) {
            entries::law_sets_hold_members_once(shifted_set(s.drop_last(), e), k);
        }
    }
}

proof fn lemma_shifted_ranges_once(s: Seq<Seq<char>>, e: EditModel)
    ensures
        shifted_ranges(s, e).no_duplicates(),
    decreases s.len(),
{
    if s.len() > 0 {
        lemma_shifted_ranges_once(s.drop_last(), e);
        if let Some(t) = formula::range_ref_after(s.last(), e.sheet, e) {
            entries::law_sets_hold_members_once(shifted_ranges(s.drop_last(), e), t);
        }
    }
}

proof fn lemma_keyed_stays_valid(m: EngineModel, e: EditModel)
    ensures
        engine::as_valid(m, keyed_shifted(m, e)),
{
    reveal(EngineModel::once_each);
    if m.once_each() {
        lemma_shifted_map_once(m.cells, e);
        lemma_shifted_map_once(m.meta, e);
        lemma_shifted_formulas_once(m.formulas, e);
        lemma_shifted_set_once(m.modified, e);
        lemma_shifted_set_once(m.dirty, e);
        let known = shifted_map(m.meta, e);
        let t = placed_meta(known);
        assert forall|i: int, j: int| 0 <= i < j < t.len() implies (#[trigger] t[i]).0 != (
        #[trigger] t[j]).0 by {
            assert(known[i].0 != known[j].0);
        }
    }
}

proof fn lemma_merges_stay_valid(m: EngineModel, e: EditModel)
    ensures
        engine::as_valid(m, merges_shifted(m, e)),
{
    reveal(EngineModel::once_each);
    if m.once_each() {
        if let Some(ranges) = entries::get(m.merges, e.sheet) {
            lemma_shifted_ranges_once(ranges, e);
            entries::lemma_put_set_once(m.merges, e.sheet, shifted_ranges(ranges, e));
            entries::law_sets_hold_members_once(m.merge_dirty_sheets, e.sheet);
            let t = merged_meta(m.meta, e);
            assert forall|i: int, j: int| 0 <= i < j < t.len() implies (#[trigger] t[i]).0 != (
            #[trigger] t[j]).0 by {
                assert(m.meta[i].0 != m.meta[j].0);
            }
        }
    }
}

proof fn lemma_objects_stay_valid(m: EngineModel, e: EditModel)
    ensures
        engine::as_valid(m, tables_shifted(m, e)),
        engine::as_valid(m, names_shifted(m, e)),
        engine::as_valid(m, comments_shifted(m, e)),
        engine::as_valid(m, rules_shifted(m, e)),
        engine::as_valid(m, drawings_shifted(m, e)),
{
    reveal(EngineModel::once_each);
    if m.once_each() {
        entries::lemma_with_all_once(m.table_dirty_paths, tables_followed(m.tables, e).1);
        entries::law_sets_hold_members_once(m.comment_dirty_sheets, e.sheet);
        entries::law_sets_hold_members_once(m.object_dirty_sheets, e.sheet);
        entries::lemma_with_all_once(
            m.drawing_dirty_paths,
            objects::drawings_after(m.drawing_objects, e).paths,
        );
    }
}

proof fn lemma_sparklines_stay_valid(m: EngineModel, list: HighRiskModel, e: EditModel)
    ensures
        engine::as_valid(m, sparklines_followed(m, list, e).0),
    decreases list.len(),
{
    reveal(EngineModel::once_each);
    if list.len() > 0 {
        lemma_sparklines_stay_valid(m, list.drop_last(), e);
        let done = sparklines_followed(m, list.drop_last(), e).0;
        let o = sparkline_after(list.last(), e).object;
        if m.wf() {
            entries::law_get_after_put(
                done.sparkline_source_updates,
                o.object_id,
                o.source_formula,
                o.object_id,
            );
            entries::law_sets_hold_members_once(done.sparkline_dirty_objects, o.object_id);
            entries::law_sets_hold_members_once(done.sparkline_dirty_sheets, e.sheet);
        }
    }
}

proof fn lemma_risks_stay_valid(m: EngineModel, e: EditModel)
    ensures
        engine::as_valid(m, risks_shifted(m, e)),
{
    lemma_sparklines_stay_valid(m, m.high_risk_objects, e);
    let r = sparklines_followed(m, m.high_risk_objects, e).0;
    engine::lemma_trail_is_free(
        r,
        r.audit_events.push(
            objects::event(
                "sparkline_object_warning"@,
                e.sheet,
                0,
                0,
                ""@,
                "sparkline_ref_deleted_by_structure_edit"@,
                "structure_sparkline_follow"@,
            ),
        ),
    );
}

proof fn lemma_followed_formulas_once(s: FormulasModel, changed: Keys, e: EditModel)
    requires
        changed.no_duplicates(),
    ensures
        ({
            let r = formulas_followed(s, changed, e);
            &&& r.1.no_duplicates()
            &&& r.0.len() == s.len()
            &&& forall|i: int|
                0 <= i < s.len() ==> (#[trigger] r.0[i]).0 == s[i].0 && r.0[i].1.deps == s[i].1.deps
        }),
    decreases s.len(),
{
    if s.len() > 0 {
        let rest = s.drop_last();
        lemma_followed_formulas_once(rest, changed, e);
        let done = formulas_followed(rest, changed, e);
        entries::law_sets_hold_members_once(done.1, s.last().0);
        let r = formulas_followed(s, changed, e);
        assert forall|i: int| 0 <= i < s.len() implies (#[trigger] r.0[i]).0 == s[i].0
            && r.0[i].1.deps == s[i].1.deps by {
            if i < rest.len() {
                assert(r.0[i] == done.0[i] && rest[i] == s[i]);
            }
        }
    }
}

proof fn lemma_followed_records_once(s: MetaModel, changed: Keys, e: EditModel)
    requires
        changed.no_duplicates(),
    ensures
        ({
            let r = meta_followed(s, changed, e);
            &&& r.1.no_duplicates()
            &&& r.0.len() == s.len()
            &&& forall|i: int| 0 <= i < s.len() ==> (#[trigger] r.0[i]).0 == s[i].0
        }),
    decreases s.len(),
{
    if s.len() > 0 {
        let rest = s.drop_last();
        lemma_followed_records_once(rest, changed, e);
        let done = meta_followed(rest, changed, e);
        entries::law_sets_hold_members_once(done.1, s.last().0);
        let r = meta_followed(s, changed, e);
        assert forall|i: int| 0 <= i < s.len() implies (#[trigger] r.0[i]).0 == s[i].0 by {
            if i < rest.len() {
                assert(r.0[i] == done.0[i] && rest[i] == s[i]);
            }
        }
    }
}

proof fn lemma_formulas_stay_valid(m: EngineModel, e: EditModel)
    ensures
        engine::as_valid(m, formulas_shifted(m, e)),
{
    reveal(EngineModel::once_each);
    if m.once_each() {
        lemma_followed_formulas_once(m.formulas, m.modified, e);
        let f = formulas_followed(m.formulas, m.modified, e);
        lemma_followed_records_once(m.meta, f.1, e);
        let t = meta_followed(m.meta, f.1, e).0;
        assert forall|i: int, j: int| 0 <= i < j < t.len() implies (#[trigger] t[i]).0 != (
        #[trigger] t[j]).0 by {
            assert(m.meta[i].0 != m.meta[j].0);
        }
        assert forall|i: int, j: int| 0 <= i < j < f.0.len() implies (#[trigger] f.0[i]).0 != (
        #[trigger] f.0[j]).0 by {
            assert(m.formulas[i].0 != m.formulas[j].0);
        }
        assert forall|i: int| 0 <= i < f.0.len() implies (
        #[trigger] f.0[i]).1.deps.no_duplicates() by {
            assert(m.formulas[i].1.deps.no_duplicates());
        }
    }
}

proof fn lemma_followed_stays_valid(m: EngineModel, e: EditModel)
    ensures
        engine::as_valid(m, followed(m, e)),
{
    let a = keyed_shifted(m, e);
    let b = merges_shifted(a, e);
    let c = tables_shifted(b, e);
    let d = names_shifted(c, e);
    let f = comments_shifted(d, e);
    let g = rules_shifted(f, e);
    let h = drawings_shifted(g, e);
    let i = risks_shifted(h, e);
    lemma_keyed_stays_valid(m, e);
    lemma_merges_stay_valid(a, e);
    lemma_objects_stay_valid(b, e);
    lemma_objects_stay_valid(c, e);
    lemma_objects_stay_valid(d, e);
    lemma_objects_stay_valid(f, e);
    lemma_objects_stay_valid(g, e);
    lemma_risks_stay_valid(h, e);
    lemma_formulas_stay_valid(i, e);
    engine::lemma_links_stay_valid(formulas_shifted(i, e));
}

proof fn lemma_noted_stays_valid(m: EngineModel, q: RequestModel, e: EditModel, reason: Seq<char>)
    requires
        e.valid(),
    ensures
        engine::as_valid(m, noted(m, q, e, reason)),
{
    reveal(EngineModel::once_each);
    if m.once_each() {
        entries::law_sets_hold_members_once(m.structural_dirty_sheets, q.sheet);
    }
}

impl SheetShadowEngine {
    /// Everything that follows an edit, before values are worked out anew.
    fn follow(&mut self, edit: &StructureEdit)
        requires
            edit.valid(),
        ensures
            final(self).deep_view() == followed(old(self).deep_view(), edit.deep_view()),
            old(self).deep_view().wf() ==> final(self).deep_view().wf(),
    {
        proof {
            lemma_followed_stays_valid(self.deep_view(), edit.deep_view());
        }
        self.shift_keyed_state(edit);
        self.shift_merges(edit);
        self.shift_tables(edit);
        self.shift_defined_names(edit);
        self.shift_sheet_objects(edit);
        self.shift_drawing_objects(edit);
        self.shift_high_risk_objects(edit);
        self.rewrite_formulas_for_structure(edit);
        self.rebuild_links();
    }

    fn note(&mut self, q: &StructureRequest, edit: &StructureEdit, reason: &str)
        requires
            edit.valid(),
        ensures
            final(self).deep_view() == noted(
                old(self).deep_view(),
                q.deep_view(),
                edit.deep_view(),
                reason@,
            ),
            old(self).deep_view().wf() ==> final(self).deep_view().wf(),
    {
        proof {
            lemma_noted_stays_valid(
                self.deep_view(),
                q.deep_view(),
                edit.deep_view(),
                reason@,
            );
        }
        let ghost before = self.structural_edits.deep_view();
        self.structural_edits.push(edit.clone());
        assert(self.structural_edits.deep_view() == before.push(edit.deep_view()));
        entries::set_add(&mut self.structural_dirty_sheets, q.sheet.clone());
        let mut from = word_of_axis(q.axis).to_owned();
        from.append(":");
        from.append(&text::size_text(q.start));
        from.append(":");
        from.append(&text::size_text(q.end));
        let mut to = word_of_kind(q.kind).to_owned();
        to.append(":target=");
        to.append(&text::size_text(edit.target));
        to.append(":end=");
        to.append(&text::size_text(edit.end));
        let told = objects::object_audit_event(
            "structure_update",
            &q.sheet,
            if q.axis == StructureAxis::Row {
                q.start
            } else {
                0
            },
            if q.axis == StructureAxis::Col {
                q.start
            } else {
                0
            },
            &from,
            &to,
            reason,
        );
        self.log(told);
    }

    /// Inserts, deletes or moves lines at once, also where arithmetic is still needed.
    fn apply_structure_edit_with_reason(
        &mut self,
        q: &StructureRequest,
        reason: &str,
        answers: &Vec<(Ask, Reply)>,
        fuel: usize,
    ) -> (r: Outcome<()>)
        requires
            q.fits(),
        ensures
            (final(self).deep_view(), r.deep_view()) == restructured(
                old(self).deep_view(),
                q.deep_view(),
                reason@,
                answers.deep_view(),
                fuel as nat,
            ),
            old(self).deep_view().wf() ==> final(self).deep_view().wf(),
    {
        match self.target_refused(&q.sheet, 1, 1) {
            Some(message) => return Outcome::Fail(message),
            None => {},
        }
        let edit = match edit_for(q) {
            Ok(edit) => edit,
            Err(message) => return Outcome::Fail(message),
        };
        self.follow(&edit);
        match self.recalculate_all_formulas(reason, answers, fuel) {
            Outcome::Value(_) => {
                self.note(q, &edit, reason);
                Outcome::Value(())
            },
            other => eval::hold(other),
        }
    }

    fn edit_structure(
        &mut self,
        q: &StructureRequest,
        reason: &str,
        answers: &Vec<(Ask, Reply)>,
        fuel: usize,
    ) -> (r: Outcome<Vec<Fields>>)
        requires
            q.fits(),
        ensures
            ({
                let done = restructured(
                    old(self).deep_view(),
                    q.deep_view(),
                    reason@,
                    answers.deep_view(),
                    fuel as nat,
                );
                &&& r.deep_view() == recalc::previewed(done)
                &&& final(self).deep_view() == recalc::kept(old(self).deep_view(), done)
            }),
            old(self).deep_view().wf() ==> final(self).deep_view().wf(),
    {
        let mut next = self.copied();
        let r = next.apply_structure_edit_with_reason(q, reason, answers, fuel);
        if recalc::over(&r) {
            *self = next;
        }
        match r {
            Outcome::Value(_) => Outcome::Value(self.audit_report()),
            other => eval::hold(other),
        }
    }

    fn try_structure(
        &self,
        q: &StructureRequest,
        reason: &str,
        answers: &Vec<(Ask, Reply)>,
        fuel: usize,
    ) -> (r: Outcome<Vec<Fields>>)
        requires
            q.fits(),
        ensures
            r.deep_view() == recalc::previewed(
                restructured(
                    engine::untold(self.deep_view()),
                    q.deep_view(),
                    reason@,
                    answers.deep_view(),
                    fuel as nat,
                ),
            ),
    {
        let mut preview = self.copied();
        preview.clear_audit_log();
        match preview.apply_structure_edit_with_reason(q, reason, answers, fuel) {
            Outcome::Value(_) => Outcome::Value(preview.audit_report()),
            other => eval::hold(other),
        }
    }
}

/// The message of an error.
pub open spec fn error_text(e: ShadowError<Seq<char>>) -> Seq<char> {
    match e {
        ShadowError::Value(m) => m,
        ShadowError::Runtime(m) => m,
    }
}

// ----- Requests -----

impl SheetShadowEngine {
    pub fn insert_rows(
        &mut self,
        sheet: &str,
        at_row: usize,
        count: usize,
        answers: &Vec<(Ask, Reply)>,
        fuel: usize,
    ) -> (r: Outcome<Vec<Fields>>)
        requires
            at_row + count - 1 <= usize::MAX,
        ensures
            ({
                let done: (EngineModel, Res<()>) = restructured(
                    old(self).deep_view(),
                    StructureRequest {
                        sheet: sheet@,
                        axis: StructureAxis::Row,
                        kind: StructureOpKind::Insert,
                        start: at_row,
                        end: at_row,
                        arg: count,
                    },
                    "insert_rows"@,
                    answers.deep_view(),
                    fuel as nat,
                );
                &&& r.deep_view() == recalc::previewed(done)
                &&& final(self).deep_view() == recalc::kept(old(self).deep_view(), done)
                &&& old(self).deep_view().wf() ==> final(self).deep_view().wf()
            }),
    {
        let request = StructureRequest {
            sheet: sheet.to_owned(),
            axis: StructureAxis::Row,
            kind: StructureOpKind::Insert,
            start: at_row,
            end: at_row,
            arg: count,
        };
        self.edit_structure(&request, "insert_rows", answers, fuel)
    }
}

impl SheetShadowEngine {
    pub fn preview_insert_rows(
        &self,
        sheet: &str,
        at_row: usize,
        count: usize,
        answers: &Vec<(Ask, Reply)>,
        fuel: usize,
    ) -> (r: Outcome<Vec<Fields>>)
        requires
            at_row + count - 1 <= usize::MAX,
        ensures
            ({
                let done: (EngineModel, Res<()>) = restructured(
                    engine::untold(self.deep_view()),
                    StructureRequest {
                        sheet: sheet@,
                        axis: StructureAxis::Row,
                        kind: StructureOpKind::Insert,
                        start: at_row,
                        end: at_row,
                        arg: count,
                    },
                    "preview_insert_rows"@,
                    answers.deep_view(),
                    fuel as nat,
                );
                &&& r.deep_view() == recalc::previewed(done)
            }),
    {
        let request = StructureRequest {
            sheet: sheet.to_owned(),
            axis: StructureAxis::Row,
            kind: StructureOpKind::Insert,
            start: at_row,
            end: at_row,
            arg: count,
        };
        self.try_structure(&request, "preview_insert_rows", answers, fuel)
    }
}

impl SheetShadowEngine {
    pub fn delete_rows(
        &mut self,
        sheet: &str,
        start_row: usize,
        count: usize,
        answers: &Vec<(Ask, Reply)>,
        fuel: usize,
    ) -> (r: Outcome<Vec<Fields>>)
        ensures
            ({
                let done: (EngineModel, Res<()>) = match coord::range_end(start_row, count) {
                    Err(e) => (old(self).deep_view(), Outcome::Fail(error_text(e))),
                    Ok(end) => restructured(
                        old(self).deep_view(),
                        StructureRequest {
                            sheet: sheet@,
                            axis: StructureAxis::Row,
                            kind: StructureOpKind::Delete,
                            start: start_row,
                            end: end,
                            arg: 0,
                        },
                        "delete_rows"@,
                        answers.deep_view(),
                        fuel as nat,
                    ),
                };
                &&& r.deep_view() == recalc::previewed(done)
                &&& final(self).deep_view() == recalc::kept(old(self).deep_view(), done)
                &&& old(self).deep_view().wf() ==> final(self).deep_view().wf()
            }),
    {
        let end = match coord::checked_range_end(start_row, count) {
            Ok(end) => end,
            Err(e) => return Outcome::Fail(e.message()),
        };
        let request = StructureRequest {
            sheet: sheet.to_owned(),
            axis: StructureAxis::Row,
            kind: StructureOpKind::Delete,
            start: start_row,
            end: end,
            arg: 0,
        };
        self.edit_structure(&request, "delete_rows", answers, fuel)
    }
}

impl SheetShadowEngine {
    pub fn preview_delete_rows(
        &self,
        sheet: &str,
        start_row: usize,
        count: usize,
        answers: &Vec<(Ask, Reply)>,
        fuel: usize,
    ) -> (r: Outcome<Vec<Fields>>)
        ensures
            ({
                let done: (EngineModel, Res<()>) = match coord::range_end(start_row, count) {
                    Err(e) => (engine::untold(self.deep_view()), Outcome::Fail(error_text(e))),
                    Ok(end) => restructured(
                        engine::untold(self.deep_view()),
                        StructureRequest {
                            sheet: sheet@,
                            axis: StructureAxis::Row,
                            kind: StructureOpKind::Delete,
                            start: start_row,
                            end: end,
                            arg: 0,
                        },
                        "preview_delete_rows"@,
                        answers.deep_view(),
                        fuel as nat,
                    ),
                };
                &&& r.deep_view() == recalc::previewed(done)
            }),
    {
        let end = match coord::checked_range_end(start_row, count) {
            Ok(end) => end,
            Err(e) => return Outcome::Fail(e.message()),
        };
        let request = StructureRequest {
            sheet: sheet.to_owned(),
            axis: StructureAxis::Row,
            kind: StructureOpKind::Delete,
            start: start_row,
            end: end,
            arg: 0,
        };
        self.try_structure(&request, "preview_delete_rows", answers, fuel)
    }
}

impl SheetShadowEngine {
    pub fn move_rows(
        &mut self,
        sheet: &str,
        start_row: usize,
        end_row: usize,
        target_row: usize,
        answers: &Vec<(Ask, Reply)>,
        fuel: usize,
    ) -> (r: Outcome<Vec<Fields>>)
        ensures
            ({
                let done: (EngineModel, Res<()>) = restructured(
                    old(self).deep_view(),
                    StructureRequest {
                        sheet: sheet@,
                        axis: StructureAxis::Row,
                        kind: StructureOpKind::Move,
                        start: start_row,
                        end: end_row,
                        arg: target_row,
                    },
                    "move_rows"@,
                    answers.deep_view(),
                    fuel as nat,
                );
                &&& r.deep_view() == recalc::previewed(done)
                &&& final(self).deep_view() == recalc::kept(old(self).deep_view(), done)
                &&& old(self).deep_view().wf() ==> final(self).deep_view().wf()
            }),
    {
        let request = StructureRequest {
            sheet: sheet.to_owned(),
            axis: StructureAxis::Row,
            kind: StructureOpKind::Move,
            start: start_row,
            end: end_row,
            arg: target_row,
        };
        self.edit_structure(&request, "move_rows", answers, fuel)
    }
}

impl SheetShadowEngine {
    pub fn preview_move_rows(
        &self,
        sheet: &str,
        start_row: usize,
        end_row: usize,
        target_row: usize,
        answers: &Vec<(Ask, Reply)>,
        fuel: usize,
    ) -> (r: Outcome<Vec<Fields>>)
        ensures
            ({
                let done: (EngineModel, Res<()>) = restructured(
                    engine::untold(self.deep_view()),
                    StructureRequest {
                        sheet: sheet@,
                        axis: StructureAxis::Row,
                        kind: StructureOpKind::Move,
                        start: start_row,
                        end: end_row,
                        arg: target_row,
                    },
                    "preview_move_rows"@,
                    answers.deep_view(),
                    fuel as nat,
                );
                &&& r.deep_view() == recalc::previewed(done)
            }),
    {
        let request = StructureRequest {
            sheet: sheet.to_owned(),
            axis: StructureAxis::Row,
            kind: StructureOpKind::Move,
            start: start_row,
            end: end_row,
            arg: target_row,
        };
        self.try_structure(&request, "preview_move_rows", answers, fuel)
    }
}

impl SheetShadowEngine {
    pub fn insert_cols(
        &mut self,
        sheet: &str,
        at_col: usize,
        count: usize,
        answers: &Vec<(Ask, Reply)>,
        fuel: usize,
    ) -> (r: Outcome<Vec<Fields>>)
        requires
            at_col + count - 1 <= usize::MAX,
        ensures
            ({
                let done: (EngineModel, Res<()>) = restructured(
                    old(self).deep_view(),
                    StructureRequest {
                        sheet: sheet@,
                        axis: StructureAxis::Col,
                        kind: StructureOpKind::Insert,
                        start: at_col,
                        end: at_col,
                        arg: count,
                    },
                    "insert_cols"@,
                    answers.deep_view(),
                    fuel as nat,
                );
                &&& r.deep_view() == recalc::previewed(done)
                &&& final(self).deep_view() == recalc::kept(old(self).deep_view(), done)
                &&& old(self).deep_view().wf() ==> final(self).deep_view().wf()
            }),
    {
        let request = StructureRequest {
            sheet: sheet.to_owned(),
            axis: StructureAxis::Col,
            kind: StructureOpKind::Insert,
            start: at_col,
            end: at_col,
            arg: count,
        };
        self.edit_structure(&request, "insert_cols", answers, fuel)
    }
}

impl SheetShadowEngine {
    pub fn preview_insert_cols(
        &self,
        sheet: &str,
        at_col: usize,
        count: usize,
        answers: &Vec<(Ask, Reply)>,
        fuel: usize,
    ) -> (r: Outcome<Vec<Fields>>)
        requires
            at_col + count - 1 <= usize::MAX,
        ensures
            ({
                let done: (EngineModel, Res<()>) = restructured(
                    engine::untold(self.deep_view()),
                    StructureRequest {
                        sheet: sheet@,
                        axis: StructureAxis::Col,
                        kind: StructureOpKind::Insert,
                        start: at_col,
                        end: at_col,
                        arg: count,
                    },
                    "preview_insert_cols"@,
                    answers.deep_view(),
                    fuel as nat,
                );
                &&& r.deep_view() == recalc::previewed(done)
            }),
    {
        let request = StructureRequest {
            sheet: sheet.to_owned(),
            axis: StructureAxis::Col,
            kind: StructureOpKind::Insert,
            start: at_col,
            end: at_col,
            arg: count,
        };
        self.try_structure(&request, "preview_insert_cols", answers, fuel)
    }
}

impl SheetShadowEngine {
    pub fn delete_cols(
        &mut self,
        sheet: &str,
        start_col: usize,
        count: usize,
        answers: &Vec<(Ask, Reply)>,
        fuel: usize,
    ) -> (r: Outcome<Vec<Fields>>)
        ensures
            ({
                let done: (EngineModel, Res<()>) = match coord::range_end(start_col, count) {
                    Err(e) => (old(self).deep_view(), Outcome::Fail(error_text(e))),
                    Ok(end) => restructured(
                        old(self).deep_view(),
                        StructureRequest {
                            sheet: sheet@,
                            axis: StructureAxis::Col,
                            kind: StructureOpKind::Delete,
                            start: start_col,
                            end: end,
                            arg: 0,
                        },
                        "delete_cols"@,
                        answers.deep_view(),
                        fuel as nat,
                    ),
                };
                &&& r.deep_view() == recalc::previewed(done)
                &&& final(self).deep_view() == recalc::kept(old(self).deep_view(), done)
                &&& old(self).deep_view().wf() ==> final(self).deep_view().wf()
            }),
    {
        let end = match coord::checked_range_end(start_col, count) {
            Ok(end) => end,
            Err(e) => return Outcome::Fail(e.message()),
        };
        let request = StructureRequest {
            sheet: sheet.to_owned(),
            axis: StructureAxis::Col,
            kind: StructureOpKind::Delete,
            start: start_col,
            end: end,
            arg: 0,
        };
        self.edit_structure(&request, "delete_cols", answers, fuel)
    }
}

impl SheetShadowEngine {
    pub fn preview_delete_cols(
        &self,
        sheet: &str,
        start_col: usize,
        count: usize,
        answers: &Vec<(Ask, Reply)>,
        fuel: usize,
    ) -> (r: Outcome<Vec<Fields>>)
        ensures
            ({
                let done: (EngineModel, Res<()>) = match coord::range_end(start_col, count) {
                    Err(e) => (engine::untold(self.deep_view()), Outcome::Fail(error_text(e))),
                    Ok(end) => restructured(
                        engine::untold(self.deep_view()),
                        StructureRequest {
                            sheet: sheet@,
                            axis: StructureAxis::Col,
                            kind: StructureOpKind::Delete,
                            start: start_col,
                            end: end,
                            arg: 0,
                        },
                        "preview_delete_cols"@,
                        answers.deep_view(),
                        fuel as nat,
                    ),
                };
                &&& r.deep_view() == recalc::previewed(done)
            }),
    {
        let end = match coord::checked_range_end(start_col, count) {
            Ok(end) => end,
            Err(e) => return Outcome::Fail(e.message()),
        };
        let request = StructureRequest {
            sheet: sheet.to_owned(),
            axis: StructureAxis::Col,
            kind: StructureOpKind::Delete,
            start: start_col,
            end: end,
            arg: 0,
        };
        self.try_structure(&request, "preview_delete_cols", answers, fuel)
    }
}

impl SheetShadowEngine {
    pub fn move_cols(
        &mut self,
        sheet: &str,
        start_col: usize,
        end_col: usize,
        target_col: usize,
        answers: &Vec<(Ask, Reply)>,
        fuel: usize,
    ) -> (r: Outcome<Vec<Fields>>)
        ensures
            ({
                let done: (EngineModel, Res<()>) = restructured(
                    old(self).deep_view(),
                    StructureRequest {
                        sheet: sheet@,
                        axis: StructureAxis::Col,
                        kind: StructureOpKind::Move,
                        start: start_col,
                        end: end_col,
                        arg: target_col,
                    },
                    "move_cols"@,
                    answers.deep_view(),
                    fuel as nat,
                );
                &&& r.deep_view() == recalc::previewed(done)
                &&& final(self).deep_view() == recalc::kept(old(self).deep_view(), done)
                &&& old(self).deep_view().wf() ==> final(self).deep_view().wf()
            }),
    {
        let request = StructureRequest {
            sheet: sheet.to_owned(),
            axis: StructureAxis::Col,
            kind: StructureOpKind::Move,
            start: start_col,
            end: end_col,
            arg: target_col,
        };
        self.edit_structure(&request, "move_cols", answers, fuel)
    }
}

impl SheetShadowEngine {
    pub fn preview_move_cols(
        &self,
        sheet: &str,
        start_col: usize,
        end_col: usize,
        target_col: usize,
        answers: &Vec<(Ask, Reply)>,
        fuel: usize,
    ) -> (r: Outcome<Vec<Fields>>)
        ensures
            ({
                let done: (EngineModel, Res<()>) = restructured(
                    engine::untold(self.deep_view()),
                    StructureRequest {
                        sheet: sheet@,
                        axis: StructureAxis::Col,
                        kind: StructureOpKind::Move,
                        start: start_col,
                        end: end_col,
                        arg: target_col,
                    },
                    "preview_move_cols"@,
                    answers.deep_view(),
                    fuel as nat,
                );
                &&& r.deep_view() == recalc::previewed(done)
            }),
    {
        let request = StructureRequest {
            sheet: sheet.to_owned(),
            axis: StructureAxis::Col,
            kind: StructureOpKind::Move,
            start: start_col,
            end: end_col,
            arg: target_col,
        };
        self.try_structure(&request, "preview_move_cols", answers, fuel)
    }
}

// ----- Trying out -----

/// Whether two shadows that differ in their trail alone come from `a` and `b` to `x` and `y`
/// in the same way: they still differ in their trail alone, and what was added to the one
/// trail is what was added to the other with one reason read as another.
pub open spec fn go_alike(
    a: EngineModel,
    b: EngineModel,
    x: EngineModel,
    y: EngineModel,
    trial: Seq<char>,
    reason: Seq<char>,
) -> bool {
    &&& y == recalc::with_trail(x, y.audit_events)
    &&& x.audit_events == a.audit_events + recalc::told_since(a, x)
    &&& y.audit_events == b.audit_events + recalc::told_since(b, y)
    &&& recalc::retold(recalc::told_since(b, y), recalc::told_since(a, x), trial, reason)
}

proof fn lemma_alike_by(
    a: EngineModel,
    b: EngineModel,
    x: EngineModel,
    y: EngineModel,
    d: Events,
    f: Events,
    trial: Seq<char>,
    reason: Seq<char>,
)
    requires
        x.audit_events == a.audit_events + d,
        y.audit_events == b.audit_events + f,
        y == recalc::with_trail(x, y.audit_events),
        recalc::retold(f, d, trial, reason),
    ensures
        go_alike(a, b, x, y, trial, reason),
{
    assert(recalc::told_since(a, x) == d);
    assert(recalc::told_since(b, y) == f);
}

proof fn lemma_alike_on(
    a: EngineModel,
    b: EngineModel,
    x: EngineModel,
    y: EngineModel,
    u: EngineModel,
    v: EngineModel,
    trial: Seq<char>,
    reason: Seq<char>,
)
    requires
        go_alike(a, b, x, y, trial, reason),
        go_alike(x, y, u, v, trial, reason),
    ensures
        go_alike(a, b, u, v, trial, reason),
{
    let d = recalc::told_since(a, x) + recalc::told_since(x, u);
    let f = recalc::told_since(b, y) + recalc::told_since(y, v);
    assert(u.audit_events == a.audit_events + d);
    assert(v.audit_events == b.audit_events + f);
    lemma_alike_by(a, b, u, v, d, f, trial, reason);
}

/// Whether no event of a list has the reason of a trial.
pub open spec fn no_trials(s: Events) -> bool {
    forall|i: int| 0 <= i < s.len() ==> !recalc::is_trial((#[trigger] s[i]).reason)
}

proof fn lemma_following_is_no_trial(reason: Seq<char>)
    requires
        reason.len() > 0,
        reason[0] == 's',
    ensures
        !recalc::is_trial(reason),
{
    reveal_strlit("preview_");
    if recalc::is_trial(reason) {
        assert("preview_"@[0] == reason[0]);
    }
}

/// The reasons under which what hangs on lines follows an edit.
proof fn lemma_following_reasons()
    ensures
        !recalc::is_trial("structure_range_follow"@),
        !recalc::is_trial("structure_object_follow"@),
        !recalc::is_trial("structure_drawing_anchor_follow"@),
        !recalc::is_trial("structure_sparkline_source_follow"@),
        !recalc::is_trial("structure_sparkline_sqref_follow"@),
        !recalc::is_trial("structure_sparkline_follow"@),
{
    reveal_strlit("structure_range_follow");
    reveal_strlit("structure_object_follow");
    reveal_strlit("structure_drawing_anchor_follow");
    reveal_strlit("structure_sparkline_source_follow");
    reveal_strlit("structure_sparkline_sqref_follow");
    reveal_strlit("structure_sparkline_follow");
    lemma_following_is_no_trial("structure_range_follow"@);
    lemma_following_is_no_trial("structure_object_follow"@);
    lemma_following_is_no_trial("structure_drawing_anchor_follow"@);
    lemma_following_is_no_trial("structure_sparkline_source_follow"@);
    lemma_following_is_no_trial("structure_sparkline_sqref_follow"@);
    lemma_following_is_no_trial("structure_sparkline_follow"@);
}

proof fn lemma_tables_told(s: Seq<TableModel>, e: EditModel)
    ensures
        no_trials(tables_followed(s, e).2),
    decreases s.len(),
{
    lemma_following_reasons();
    if s.len() > 0 {
        lemma_tables_told(s.drop_last(), e);
    }
}

proof fn lemma_names_told(s: NamesModel, e: EditModel)
    ensures
        no_trials(names_followed(s, e).1),
    decreases s.len(),
{
    lemma_following_reasons();
    if s.len() > 0 {
        lemma_names_told(s.drop_last(), e);
    }
}

proof fn lemma_comments_told(s: Seq<CellComment<Seq<char>>>, e: EditModel)
    ensures
        no_trials(objects::comments_after(s, e).1),
    decreases s.len(),
{
    lemma_following_reasons();
    if s.len() > 0 {
        lemma_comments_told(s.drop_last(), e);
    }
}

proof fn lemma_drawings_told(s: Seq<DrawingObject<Seq<char>>>, e: EditModel)
    ensures
        no_trials(objects::drawings_after(s, e).events),
    decreases s.len(),
{
    lemma_following_reasons();
    if s.len() > 0 {
        lemma_drawings_told(s.drop_last(), e);
    }
}

proof fn lemma_sparklines_alike(
    a: EngineModel,
    b: EngineModel,
    list: HighRiskModel,
    e: EditModel,
    trial: Seq<char>,
    reason: Seq<char>,
)
    requires
        recalc::is_trial(trial),
        b == recalc::with_trail(a, b.audit_events),
    ensures
        go_alike(a, b, sparklines_followed(a, list, e).0, sparklines_followed(b, list, e).0, trial, reason),
        sparklines_followed(a, list, e).1 == sparklines_followed(b, list, e).1,
    decreases list.len(),
{
    lemma_following_reasons();
    let none = Events::empty();
    if list.len() == 0 {
        assert(a.audit_events + none == a.audit_events);
        assert(b.audit_events + none == b.audit_events);
        lemma_alike_by(
            a,
            b,
            sparklines_followed(a, list, e).0,
            sparklines_followed(b, list, e).0,
            none,
            none,
            trial,
            reason,
        );
    } else {
        lemma_sparklines_alike(a, b, list.drop_last(), e, trial, reason);
        let x = sparklines_followed(a, list.drop_last(), e).0;
        let y = sparklines_followed(b, list.drop_last(), e).0;
        let u = sparklines_followed(a, list, e).0;
        let v = sparklines_followed(b, list, e).0;
        let o = list.last();
        let told = if o.sheet != e.sheet || o.object_type != "sparkline"@ {
            none
        } else {
            sparkline_after(o, e).events
        };
        assert(u.audit_events == x.audit_events + told);
        assert(v.audit_events == y.audit_events + told);
        lemma_alike_by(x, y, u, v, told, told, trial, reason);
        lemma_alike_on(a, b, x, y, u, v, trial, reason);
    }
}

proof fn lemma_merges_alike(
    a: EngineModel,
    b: EngineModel,
    e: EditModel,
    trial: Seq<char>,
    reason: Seq<char>,
)
    requires
        recalc::is_trial(trial),
        b == recalc::with_trail(a, b.audit_events),
    ensures
        go_alike(a, b, merges_shifted(keyed_shifted(a, e), e), merges_shifted(keyed_shifted(b, e), e), trial, reason),
{
    let x = merges_shifted(keyed_shifted(a, e), e);
    let y = merges_shifted(keyed_shifted(b, e), e);
    let told = Events::empty();
    assert(x.audit_events == a.audit_events + told);
    assert(y.audit_events == b.audit_events + told);
    lemma_alike_by(a, b, x, y, told, told, trial, reason);
}

proof fn lemma_tables_alike(
    a: EngineModel,
    b: EngineModel,
    e: EditModel,
    trial: Seq<char>,
    reason: Seq<char>,
)
    requires
        recalc::is_trial(trial),
        b == recalc::with_trail(a, b.audit_events),
    ensures
        go_alike(a, b, tables_shifted(a, e), tables_shifted(b, e), trial, reason),
{
    let x = tables_shifted(a, e);
    let y = tables_shifted(b, e);
    let told = tables_followed(a.tables, e).2;
    lemma_tables_told(a.tables, e);
    assert(x.audit_events == a.audit_events + told);
    assert(y.audit_events == b.audit_events + told);
    lemma_alike_by(a, b, x, y, told, told, trial, reason);
}

proof fn lemma_names_alike(
    a: EngineModel,
    b: EngineModel,
    e: EditModel,
    trial: Seq<char>,
    reason: Seq<char>,
)
    requires
        recalc::is_trial(trial),
        b == recalc::with_trail(a, b.audit_events),
    ensures
        go_alike(a, b, names_shifted(a, e), names_shifted(b, e), trial, reason),
{
    let x = names_shifted(a, e);
    let y = names_shifted(b, e);
    let told = names_followed(a.defined_names, e).1;
    lemma_names_told(a.defined_names, e);
    assert(x.audit_events == a.audit_events + told);
    assert(y.audit_events == b.audit_events + told);
    lemma_alike_by(a, b, x, y, told, told, trial, reason);
}

proof fn lemma_comments_alike(
    a: EngineModel,
    b: EngineModel,
    e: EditModel,
    trial: Seq<char>,
    reason: Seq<char>,
)
    requires
        recalc::is_trial(trial),
        b == recalc::with_trail(a, b.audit_events),
    ensures
        go_alike(a, b, comments_shifted(a, e), comments_shifted(b, e), trial, reason),
{
    let x = comments_shifted(a, e);
    let y = comments_shifted(b, e);
    let told = objects::comments_after(a.comments, e).1;
    lemma_comments_told(a.comments, e);
    assert(x.audit_events == a.audit_events + told);
    assert(y.audit_events == b.audit_events + told);
    lemma_alike_by(a, b, x, y, told, told, trial, reason);
}

proof fn lemma_rules_alike(
    a: EngineModel,
    b: EngineModel,
    e: EditModel,
    trial: Seq<char>,
    reason: Seq<char>,
)
    requires
        recalc::is_trial(trial),
        b == recalc::with_trail(a, b.audit_events),
    ensures
        go_alike(a, b, rules_shifted(a, e), rules_shifted(b, e), trial, reason),
{
    lemma_following_reasons();
    let x = rules_shifted(a, e);
    let y = rules_shifted(b, e);
    let told = recalc::told_since(a, x);
    assert(x.audit_events == a.audit_events + told);
    assert(y.audit_events == b.audit_events + told);
    lemma_alike_by(a, b, x, y, told, told, trial, reason);
}

proof fn lemma_drawings_alike(
    a: EngineModel,
    b: EngineModel,
    e: EditModel,
    trial: Seq<char>,
    reason: Seq<char>,
)
    requires
        recalc::is_trial(trial),
        b == recalc::with_trail(a, b.audit_events),
    ensures
        go_alike(a, b, drawings_shifted(a, e), drawings_shifted(b, e), trial, reason),
{
    lemma_following_reasons();
    lemma_drawings_told(a.drawing_objects, e);
    let x = drawings_shifted(a, e);
    let y = drawings_shifted(b, e);
    let told = recalc::told_since(a, x);
    assert(x.audit_events == a.audit_events + told);
    assert(y.audit_events == b.audit_events + told);
    lemma_alike_by(a, b, x, y, told, told, trial, reason);
}

proof fn lemma_links_alike(
    a: EngineModel,
    b: EngineModel,
    e: EditModel,
    trial: Seq<char>,
    reason: Seq<char>,
)
    requires
        recalc::is_trial(trial),
        b == recalc::with_trail(a, b.audit_events),
    ensures
        go_alike(a, b, engine::rebuilt(formulas_shifted(a, e)), engine::rebuilt(formulas_shifted(b, e)), trial, reason),
{
    let x = engine::rebuilt(formulas_shifted(a, e));
    let y = engine::rebuilt(formulas_shifted(b, e));
    let told = Events::empty();
    assert(x.audit_events == a.audit_events + told);
    assert(y.audit_events == b.audit_events + told);
    lemma_alike_by(a, b, x, y, told, told, trial, reason);
}

proof fn lemma_risks_alike(
    a: EngineModel,
    b: EngineModel,
    e: EditModel,
    trial: Seq<char>,
    reason: Seq<char>,
)
    requires
        recalc::is_trial(trial),
        b == recalc::with_trail(a, b.audit_events),
    ensures
        go_alike(a, b, risks_shifted(a, e), risks_shifted(b, e), trial, reason),
{
    lemma_sparklines_alike(a, b, a.high_risk_objects, e, trial, reason);
    let x = sparklines_followed(a, a.high_risk_objects, e).0;
    let y = sparklines_followed(b, a.high_risk_objects, e).0;
    lemma_following_reasons();
    let u = risks_shifted(a, e);
    let v = risks_shifted(b, e);
    let told = recalc::told_since(x, u);
    assert(u.audit_events == x.audit_events + told);
    assert(v.audit_events == y.audit_events + told);
    lemma_alike_by(x, y, u, v, told, told, trial, reason);
    lemma_alike_on(a, b, x, y, u, v, trial, reason);
}

proof fn lemma_followed_alike(
    a: EngineModel,
    b: EngineModel,
    e: EditModel,
    trial: Seq<char>,
    reason: Seq<char>,
)
    requires
        recalc::is_trial(trial),
        b == recalc::with_trail(a, b.audit_events),
    ensures
        go_alike(a, b, followed(a, e), followed(b, e), trial, reason),
{
    let a1 = merges_shifted(keyed_shifted(a, e), e);
    let b1 = merges_shifted(keyed_shifted(b, e), e);
    lemma_merges_alike(a, b, e, trial, reason);
    let a2 = tables_shifted(a1, e);
    let b2 = tables_shifted(b1, e);
    lemma_tables_alike(a1, b1, e, trial, reason);
    lemma_alike_on(a, b, a1, b1, a2, b2, trial, reason);
    let a3 = names_shifted(a2, e);
    let b3 = names_shifted(b2, e);
    lemma_names_alike(a2, b2, e, trial, reason);
    lemma_alike_on(a, b, a2, b2, a3, b3, trial, reason);
    let a4 = comments_shifted(a3, e);
    let b4 = comments_shifted(b3, e);
    lemma_comments_alike(a3, b3, e, trial, reason);
    lemma_alike_on(a, b, a3, b3, a4, b4, trial, reason);
    let a5 = rules_shifted(a4, e);
    let b5 = rules_shifted(b4, e);
    lemma_rules_alike(a4, b4, e, trial, reason);
    lemma_alike_on(a, b, a4, b4, a5, b5, trial, reason);
    let a6 = drawings_shifted(a5, e);
    let b6 = drawings_shifted(b5, e);
    lemma_drawings_alike(a5, b5, e, trial, reason);
    lemma_alike_on(a, b, a5, b5, a6, b6, trial, reason);
    let a7 = risks_shifted(a6, e);
    let b7 = risks_shifted(b6, e);
    lemma_risks_alike(a6, b6, e, trial, reason);
    lemma_alike_on(a, b, a6, b6, a7, b7, trial, reason);
    lemma_links_alike(a7, b7, e, trial, reason);
    lemma_alike_on(
        a,
        b,
        a7,
        b7,
        engine::rebuilt(formulas_shifted(a7, e)),
        engine::rebuilt(formulas_shifted(b7, e)),
        trial,
        reason,
    );
}

proof fn lemma_recalc_alike(
    a: EngineModel,
    b: EngineModel,
    list: Keys,
    reason: Seq<char>,
    other: Seq<char>,
    answers: Answers,
    fuel: nat,
    n: int,
)
    requires
        recalc::is_trial(other),
        b == recalc::with_trail(a, b.audit_events),
    ensures
        ({
            let x = recalc::recalc_all(a, list, reason, answers, fuel, n);
            let y = recalc::recalc_all(b, list, other, answers, fuel, n);
            go_alike(a, b, x.0, y.0, other, reason) && x.1 == y.1
        }),
    decreases n,
{
    let none = Events::empty();
    if n <= 0 {
        assert(a.audit_events + none == a.audit_events);
        assert(b.audit_events + none == b.audit_events);
        lemma_alike_by(a, b, a, b, none, none, other, reason);
    } else {
        lemma_recalc_alike(a, b, list, reason, other, answers, fuel, n - 1);
        let x = recalc::recalc_all(a, list, reason, answers, fuel, n - 1).0;
        let y = recalc::recalc_all(b, list, other, answers, fuel, n - 1).0;
        let k = list[n - 1];
        assert(recalc::formula_cell_value(x, k, answers, fuel) == recalc::formula_cell_value(
            y,
            k,
            answers,
            fuel,
        ));
        match recalc::formula_cell_value(x, k, answers, fuel) {
            Outcome::Value(value) => {
                let u = recalc::recalculated(x, k, value, reason);
                let v = recalc::recalculated(y, k, value, other);
                let d = seq![u.audit_events.last()];
                let f = seq![v.audit_events.last()];
                assert(u.audit_events == x.audit_events + d);
                assert(v.audit_events == y.audit_events + f);
                lemma_alike_by(x, y, u, v, d, f, other, reason);
                lemma_alike_on(a, b, x, y, u, v, other, reason);
            },
            _ => {},
        }
    }
}

/// Trying out an edit of lines tells what carrying it out tells, with the reason of the trial
/// read as that of the edit, and comes to the same result and the same workbook.
pub proof fn law_preview_tells_what_an_edit_does(
    m: EngineModel,
    q: RequestModel,
    reason: Seq<char>,
    other: Seq<char>,
    answers: Answers,
    fuel: nat,
)
    requires
        recalc::is_trial(other),
    ensures
        ({
            let applied = restructured(m, q, reason, answers, fuel);
            let tried = restructured(engine::untold(m), q, other, answers, fuel);
            &&& tried.1 == applied.1
            &&& go_alike(m, engine::untold(m), applied.0, tried.0, other, reason)
        }),
{
    let a = m;
    let b = engine::untold(m);
    let none = Events::empty();
    assert(a.audit_events + none == a.audit_events);
    assert(b.audit_events + none == b.audit_events);
    lemma_alike_by(a, b, a, b, none, none, other, reason);
    if engine::target_refusal(m, q.sheet, 1, 1) is None && requested_edit(q) is Ok {
        let e = requested_edit(q)->Ok_0;
        lemma_followed_alike(a, b, e, other, reason);
        let x = followed(a, e);
        let y = followed(b, e);
        let order = recalc::formula_order(x);
        lemma_recalc_alike(x, y, order, reason, other, answers, fuel, order.len() as int);
        let u = recalc::recalc_all(x, order, reason, answers, fuel, order.len() as int).0;
        let v = recalc::recalc_all(y, order, other, answers, fuel, order.len() as int).0;
        lemma_alike_on(a, b, x, y, u, v, other, reason);
        let p = noted(u, q, e, reason);
        let t = noted(v, q, e, other);
        let d = seq![p.audit_events.last()];
        let f = seq![t.audit_events.last()];
        assert(p.audit_events == u.audit_events + d);
        assert(t.audit_events == v.audit_events + f);
        lemma_alike_by(u, v, p, t, d, f, other, reason);
        lemma_alike_on(a, b, u, v, p, t, other, reason);
    }
}

// ----- Where cells go -----

/// Whether two lists have their entries under the same keys.
spec fn same_keys<K, V, W>(s: Seq<(K, V)>, t: Seq<(K, W)>) -> bool {
    s.len() == t.len() && forall|i: int| 0 <= i < s.len() ==> (#[trigger] s[i]).0 == t[i].0
}

proof fn lemma_same_keys_found<K, V, W>(s: Seq<(K, V)>, t: Seq<(K, W)>, k: K)
    requires
        same_keys(s, t),
    ensures
        entries::get(s, k) is Some <==> entries::get(t, k) is Some,
        entries::distinct_keys(s) ==> entries::distinct_keys(t),
{
    entries::lemma_place(s, k);
    entries::lemma_place(t, k);
    if let Some(i) = entries::place(t, k) {
        assert(s[i].0 == k);
    }
    assert forall|i: int, j: int|
        entries::distinct_keys(s) && 0 <= i < j < t.len() implies (#[trigger] t[i]).0 != (
    #[trigger] t[j]).0 by {
        assert(s[i].0 != s[j].0);
    }
}

proof fn lemma_followed_formulas_keep_keys(s: FormulasModel, changed: Keys, e: EditModel)
    ensures
        same_keys(s, formulas_followed(s, changed, e).0),
    decreases s.len(),
{
    if s.len() > 0 {
        lemma_followed_formulas_keep_keys(s.drop_last(), changed, e);
        let t = formulas_followed(s, changed, e).0;
        assert forall|i: int| 0 <= i < s.len() implies (#[trigger] s[i]).0 == t[i].0 by {
            if i < s.len() - 1 {
                assert(s[i] == s.drop_last()[i]);
            }
        }
    }
}

proof fn lemma_sparklines_keep_cells(m: EngineModel, list: HighRiskModel, e: EditModel)
    ensures
        ({
            let r = sparklines_followed(m, list, e).0;
            &&& r.cells == m.cells
            &&& r.formulas == m.formulas
            &&& r.modified == m.modified
        }),
    decreases list.len(),
{
    if list.len() > 0 {
        lemma_sparklines_keep_cells(m, list.drop_last(), e);
    }
}

proof fn lemma_followed_cells(m: EngineModel, e: EditModel)
    ensures
        followed(m, e).cells == shifted_map(m.cells, e),
        same_keys(shifted_map(m.formulas, e), followed(m, e).formulas),
{
    let a = tables_shifted(merges_shifted(keyed_shifted(m, e), e), e);
    let b = rules_shifted(comments_shifted(names_shifted(a, e), e), e);
    let c = drawings_shifted(b, e);
    lemma_sparklines_keep_cells(c, c.high_risk_objects, e);
    let d = risks_shifted(c, e);
    assert(d.cells == shifted_map(m.cells, e));
    assert(d.formulas == shifted_map(m.formulas, e));
    lemma_followed_formulas_keep_keys(d.formulas, d.modified, e);
}

proof fn lemma_recalculating_all_keeps_inputs(
    m: EngineModel,
    list: Keys,
    reason: Seq<char>,
    answers: Answers,
    fuel: nat,
    n: int,
    k: Key<Seq<char>>,
)
    requires
        entries::distinct_keys(m.cells),
    ensures
        ({
            let r = recalc::recalc_all(m, list, reason, answers, fuel, n).0;
            &&& r.formulas == m.formulas
            &&& entries::distinct_keys(r.cells)
            &&& entries::get(m.formulas, k) is None ==> entries::get(r.cells, k) == entries::get(
                m.cells,
                k,
            )
        }),
    decreases n,
{
    if n > 0 {
        lemma_recalculating_all_keeps_inputs(m, list, reason, answers, fuel, n - 1, k);
        let done = recalc::recalc_all(m, list, reason, answers, fuel, n - 1).0;
        if let Outcome::Value(value) = recalc::formula_cell_value(
            done,
            list[n - 1],
            answers,
            fuel,
        ) {
            entries::law_get_after_put(done.cells, list[n - 1], value, k);
        }
    }
}

/// An edit of lines takes a cell without a formula, with its value, to where it takes the
/// cell, and a formula to where it takes the cell of the formula.
pub proof fn law_cells_follow_an_edit(
    m: EngineModel,
    q: RequestModel,
    reason: Seq<char>,
    answers: Answers,
    fuel: nat,
    k: Key<Seq<char>>,
)
    requires
        entries::distinct_keys(m.cells),
        entries::distinct_keys(m.formulas),
        q.kind == StructureOpKind::Insert ==> q.start + q.arg - 1 <= usize::MAX,
        restructured(m, q, reason, answers, fuel).1 is Value,
    ensures
        ({
            let r = restructured(m, q, reason, answers, fuel).0;
            &&& entries::distinct_keys(r.cells)
            &&& entries::distinct_keys(r.formulas)
            &&& coord::key_after(k, requested_edit(q)->Ok_0) matches Some(next) ==> {
                &&& entries::get(r.formulas, next) is Some <==> entries::get(m.formulas, k) is Some
                &&& entries::get(m.formulas, k) is None ==> entries::get(r.cells, next)
                    == entries::get(m.cells, k)
            }
        }),
{
    let e = requested_edit(q)->Ok_0;
    let ready = followed(m, e);
    let order = recalc::formula_order(ready);
    let at = match coord::key_after(k, e) {
        Some(next) => next,
        None => k,
    };
    law_entries_follow_their_cells(m.cells, e, k);
    law_entries_follow_their_cells(m.formulas, e, k);
    lemma_followed_cells(m, e);
    lemma_same_keys_found(shifted_map(m.formulas, e), ready.formulas, at);
    lemma_recalculating_all_keeps_inputs(
        ready,
        order,
        reason,
        answers,
        fuel,
        order.len() as int,
        at,
    );
}

/// Deleting the lines that an insertion made gives every cell without a formula its value
/// back, takes every formula back to its cell, and leaves no other cell, but for cells that
/// the insertion pushed past the machine's bound.
pub proof fn law_deleting_undoes_inserting(
    m: EngineModel,
    insert: RequestModel,
    delete: RequestModel,
    reason: Seq<char>,
    other: Seq<char>,
    answers: Answers,
    later: Answers,
    fuel: nat,
    more: nat,
    k: Key<Seq<char>>,
)
    requires
        m.wf(),
        insert.kind == StructureOpKind::Insert,
        insert.start + insert.arg - 1 <= usize::MAX,
        delete.kind == StructureOpKind::Delete,
        delete.sheet == insert.sheet,
        delete.axis == insert.axis,
        delete.start == insert.start,
        delete.end == insert.start + insert.arg - 1,
        restructured(m, insert, reason, answers, fuel).1 is Value,
        restructured(
            restructured(m, insert, reason, answers, fuel).0,
            delete,
            other,
            later,
            more,
        ).1 is Value,
        coord::key_after(k, requested_edit(insert)->Ok_0) is Some,
    ensures
        ({
            let there = restructured(m, insert, reason, answers, fuel).0;
            let back = restructured(there, delete, other, later, more).0;
            &&& entries::get(back.formulas, k) is Some <==> entries::get(m.formulas, k) is Some
            &&& entries::get(m.formulas, k) is None ==> entries::get(back.cells, k)
                == entries::get(m.cells, k)
        }),
{
    reveal(EngineModel::once_each);
    let there = restructured(m, insert, reason, answers, fuel).0;
    let next = coord::key_after(k, requested_edit(insert)->Ok_0)->Some_0;
    law_cells_follow_an_edit(m, insert, reason, answers, fuel, k);
    assert(coord::key_after(next, requested_edit(delete)->Ok_0) == Some(k));
    law_cells_follow_an_edit(there, delete, other, later, more, next);
}

} // verus!
