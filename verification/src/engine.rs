//! The shadow of a workbook: what it holds, and what has been changed since it was read.

use crate::cells;
use crate::cells::{FormulaCell, FormulasModel, Grid, GridModel, MergesModel, MetaModel};
use crate::copies::Copied;
use crate::coord;
use crate::coord::{Key, ShadowError, StructureEdit};
use crate::deps;
use crate::deps::{CellsModel, NamesModel};
use crate::diagnostics::{Fields, FieldsModel, ReportModel};
use crate::drawings;
use crate::drawings::DrawingsModel;
use crate::entries;
use crate::highrisk;
use crate::highrisk::HighRiskModel;
use crate::objects;
use crate::objects::{TableInfo, TableModel};
use crate::package;
use crate::package::{Fallible, Package, PackageModel, SheetsModel};
use crate::records::{
    AuditEvent, AutoFilterRule, CellComment, ConditionalFormatRule, DataValidationRule,
    DefinedName, DrawingObject, HighRiskObject, ShadowMetaRecord, SheetInfo, StylePatch,
};
use crate::sheetparts;
use crate::sheetxml;
use crate::sheetxml::Edits;
use crate::text;
use vstd::prelude::*;
use vstd::string::*;

verus! {

pub type BytesModel = Seq<(Seq<char>, Seq<u8>)>;

pub type DependentsModel = Seq<(Key<Seq<char>>, Seq<Key<Seq<char>>>)>;

/// A workbook that was read, with its pending changes and the trail of what was done.
pub struct SheetShadowEngine {
    pub source_path: Option<String>,
    pub sheets: Vec<SheetInfo>,
    pub defined_names: Vec<DefinedName>,
    pub tables: Vec<TableInfo>,
    pub style_count: u32,
    pub style_patches: Vec<StylePatch>,
    pub merges: Vec<(String, Vec<String>)>,
    pub merge_dirty_sheets: Vec<String>,
    pub structural_edits: Vec<StructureEdit>,
    pub structural_dirty_sheets: Vec<String>,
    pub table_dirty_paths: Vec<String>,
    pub comments: Vec<CellComment>,
    pub data_validations: Vec<DataValidationRule>,
    pub auto_filters: Vec<AutoFilterRule>,
    pub conditional_formats: Vec<ConditionalFormatRule>,
    pub drawing_objects: Vec<DrawingObject>,
    pub high_risk_objects: Vec<HighRiskObject>,
    pub object_dirty_sheets: Vec<String>,
    pub comment_dirty_sheets: Vec<String>,
    pub drawing_dirty_paths: Vec<String>,
    pub drawing_text_updates: Vec<(String, String)>,
    pub image_replacements: Vec<(String, Vec<u8>)>,
    pub ole_replacements: Vec<(String, Vec<u8>)>,
    pub chart_title_updates: Vec<(String, String)>,
    pub chart_source_updates: Vec<(String, String)>,
    pub sparkline_source_updates: Vec<(String, String)>,
    pub sparkline_dirty_sheets: Vec<String>,
    pub sparkline_dirty_objects: Vec<String>,
    pub pivot_dirty_paths: Vec<String>,
    pub workbook_dirty: bool,
    pub cells: Vec<(Key, String)>,
    pub formulas: Vec<(Key, FormulaCell)>,
    pub meta: Vec<(Key, ShadowMetaRecord)>,
    pub dependents: Vec<(Key, Vec<Key>)>,
    pub dirty: Vec<Key>,
    pub modified: Vec<Key>,
    pub audit_events: Vec<AuditEvent>,
}

#[verifier::ext_equal]
pub struct EngineModel {
    pub source_path: Option<Seq<char>>,
    pub sheets: SheetsModel,
    pub defined_names: NamesModel,
    pub tables: Seq<TableModel>,
    pub style_count: u32,
    pub style_patches: Seq<StylePatch<Seq<char>>>,
    pub merges: MergesModel,
    pub merge_dirty_sheets: Seq<Seq<char>>,
    pub structural_edits: Edits,
    pub structural_dirty_sheets: Seq<Seq<char>>,
    pub table_dirty_paths: Seq<Seq<char>>,
    pub comments: Seq<CellComment<Seq<char>>>,
    pub data_validations: Seq<DataValidationRule<Seq<char>>>,
    pub auto_filters: Seq<AutoFilterRule<Seq<char>>>,
    pub conditional_formats: Seq<ConditionalFormatRule<Seq<char>>>,
    pub drawing_objects: DrawingsModel,
    pub high_risk_objects: HighRiskModel,
    pub object_dirty_sheets: Seq<Seq<char>>,
    pub comment_dirty_sheets: Seq<Seq<char>>,
    pub drawing_dirty_paths: Seq<Seq<char>>,
    pub drawing_text_updates: FieldsModel,
    pub image_replacements: BytesModel,
    pub ole_replacements: BytesModel,
    pub chart_title_updates: FieldsModel,
    pub chart_source_updates: FieldsModel,
    pub sparkline_source_updates: FieldsModel,
    pub sparkline_dirty_sheets: Seq<Seq<char>>,
    pub sparkline_dirty_objects: Seq<Seq<char>>,
    pub pivot_dirty_paths: Seq<Seq<char>>,
    pub workbook_dirty: bool,
    pub cells: CellsModel,
    pub formulas: FormulasModel,
    pub meta: MetaModel,
    pub dependents: DependentsModel,
    pub dirty: Seq<Key<Seq<char>>>,
    pub modified: Seq<Key<Seq<char>>>,
    pub audit_events: Seq<AuditEvent<Seq<char>>>,
}

impl DeepView for SheetShadowEngine {
    type V = EngineModel;

    open spec fn deep_view(&self) -> EngineModel {
        EngineModel {
            source_path: self.source_path.deep_view(),
            sheets: self.sheets.deep_view(),
            defined_names: self.defined_names.deep_view(),
            tables: self.tables.deep_view(),
            style_count: self.style_count,
            style_patches: self.style_patches.deep_view(),
            merges: self.merges.deep_view(),
            merge_dirty_sheets: self.merge_dirty_sheets.deep_view(),
            structural_edits: self.structural_edits.deep_view(),
            structural_dirty_sheets: self.structural_dirty_sheets.deep_view(),
            table_dirty_paths: self.table_dirty_paths.deep_view(),
            comments: self.comments.deep_view(),
            data_validations: self.data_validations.deep_view(),
            auto_filters: self.auto_filters.deep_view(),
            conditional_formats: self.conditional_formats.deep_view(),
            drawing_objects: self.drawing_objects.deep_view(),
            high_risk_objects: self.high_risk_objects.deep_view(),
            object_dirty_sheets: self.object_dirty_sheets.deep_view(),
            comment_dirty_sheets: self.comment_dirty_sheets.deep_view(),
            drawing_dirty_paths: self.drawing_dirty_paths.deep_view(),
            drawing_text_updates: self.drawing_text_updates.deep_view(),
            image_replacements: self.image_replacements.deep_view(),
            ole_replacements: self.ole_replacements.deep_view(),
            chart_title_updates: self.chart_title_updates.deep_view(),
            chart_source_updates: self.chart_source_updates.deep_view(),
            sparkline_source_updates: self.sparkline_source_updates.deep_view(),
            sparkline_dirty_sheets: self.sparkline_dirty_sheets.deep_view(),
            sparkline_dirty_objects: self.sparkline_dirty_objects.deep_view(),
            pivot_dirty_paths: self.pivot_dirty_paths.deep_view(),
            workbook_dirty: self.workbook_dirty,
            cells: self.cells.deep_view(),
            formulas: self.formulas.deep_view(),
            meta: self.meta.deep_view(),
            dependents: self.dependents.deep_view(),
            dirty: self.dirty.deep_view(),
            modified: self.modified.deep_view(),
            audit_events: self.audit_events.deep_view(),
        }
    }
}

impl Copied for SheetShadowEngine {
    fn copied(&self) -> (r: Self) {
        SheetShadowEngine {
            source_path: self.source_path.copied(),
            sheets: self.sheets.copied(),
            defined_names: self.defined_names.copied(),
            tables: self.tables.copied(),
            style_count: self.style_count,
            style_patches: self.style_patches.copied(),
            merges: self.merges.copied(),
            merge_dirty_sheets: self.merge_dirty_sheets.copied(),
            structural_edits: self.structural_edits.copied(),
            structural_dirty_sheets: self.structural_dirty_sheets.copied(),
            table_dirty_paths: self.table_dirty_paths.copied(),
            comments: self.comments.copied(),
            data_validations: self.data_validations.copied(),
            auto_filters: self.auto_filters.copied(),
            conditional_formats: self.conditional_formats.copied(),
            drawing_objects: self.drawing_objects.copied(),
            high_risk_objects: self.high_risk_objects.copied(),
            object_dirty_sheets: self.object_dirty_sheets.copied(),
            comment_dirty_sheets: self.comment_dirty_sheets.copied(),
            drawing_dirty_paths: self.drawing_dirty_paths.copied(),
            drawing_text_updates: self.drawing_text_updates.copied(),
            image_replacements: self.image_replacements.copied(),
            ole_replacements: self.ole_replacements.copied(),
            chart_title_updates: self.chart_title_updates.copied(),
            chart_source_updates: self.chart_source_updates.copied(),
            sparkline_source_updates: self.sparkline_source_updates.copied(),
            sparkline_dirty_sheets: self.sparkline_dirty_sheets.copied(),
            sparkline_dirty_objects: self.sparkline_dirty_objects.copied(),
            pivot_dirty_paths: self.pivot_dirty_paths.copied(),
            workbook_dirty: self.workbook_dirty,
            cells: self.cells.copied(),
            formulas: self.formulas.copied(),
            meta: self.meta.copied(),
            dependents: self.dependents.copied(),
            dirty: self.dirty.copied(),
            modified: self.modified.copied(),
            audit_events: self.audit_events.copied(),
        }
    }
}

/// A shadow of nothing.
pub open spec fn empty_engine() -> EngineModel {
    EngineModel {
        source_path: None,
        sheets: Seq::empty(),
        defined_names: Seq::empty(),
        tables: Seq::empty(),
        style_count: 0,
        style_patches: Seq::empty(),
        merges: Seq::empty(),
        merge_dirty_sheets: Seq::empty(),
        structural_edits: Seq::empty(),
        structural_dirty_sheets: Seq::empty(),
        table_dirty_paths: Seq::empty(),
        comments: Seq::empty(),
        data_validations: Seq::empty(),
        auto_filters: Seq::empty(),
        conditional_formats: Seq::empty(),
        drawing_objects: Seq::empty(),
        high_risk_objects: Seq::empty(),
        object_dirty_sheets: Seq::empty(),
        comment_dirty_sheets: Seq::empty(),
        drawing_dirty_paths: Seq::empty(),
        drawing_text_updates: Seq::empty(),
        image_replacements: Seq::empty(),
        ole_replacements: Seq::empty(),
        chart_title_updates: Seq::empty(),
        chart_source_updates: Seq::empty(),
        sparkline_source_updates: Seq::empty(),
        sparkline_dirty_sheets: Seq::empty(),
        sparkline_dirty_objects: Seq::empty(),
        pivot_dirty_paths: Seq::empty(),
        workbook_dirty: false,
        cells: Seq::empty(),
        formulas: Seq::empty(),
        meta: Seq::empty(),
        dependents: Seq::empty(),
        dirty: Seq::empty(),
        modified: Seq::empty(),
        audit_events: Seq::empty(),
    }
}

impl EngineModel {
    /// Whether nothing is there twice: no cell, sheet or part that a map has an entry for, and
    /// no member of a set.
    #[verifier::opaque]
    pub open spec fn once_each(self) -> bool {
        &&& entries::distinct_keys(self.cells)
        &&& cells::formulas_once(self.formulas)
        &&& entries::distinct_keys(self.meta)
        &&& entries::sets_once(self.dependents)
        &&& self.dirty.no_duplicates()
        &&& self.modified.no_duplicates()
        &&& entries::sets_once(self.merges)
        &&& self.merge_dirty_sheets.no_duplicates()
        &&& self.structural_dirty_sheets.no_duplicates()
        &&& self.table_dirty_paths.no_duplicates()
        &&& self.object_dirty_sheets.no_duplicates()
        &&& self.comment_dirty_sheets.no_duplicates()
        &&& self.drawing_dirty_paths.no_duplicates()
        &&& entries::distinct_keys(self.drawing_text_updates)
        &&& entries::distinct_keys(self.image_replacements)
        &&& entries::distinct_keys(self.ole_replacements)
        &&& entries::distinct_keys(self.chart_title_updates)
        &&& entries::distinct_keys(self.chart_source_updates)
        &&& entries::distinct_keys(self.sparkline_source_updates)
        &&& self.sparkline_dirty_sheets.no_duplicates()
        &&& self.sparkline_dirty_objects.no_duplicates()
        &&& self.pivot_dirty_paths.no_duplicates()
    }

    /// Nothing is there twice, and the edits that are to be written are edits of at least one
    /// line.
    pub open spec fn wf(self) -> bool {
        &&& self.once_each()
        &&& sheetxml::all_valid(self.structural_edits)
    }
}

/// Whether a shadow is valid where another is.
pub open spec fn as_valid(m: EngineModel, next: EngineModel) -> bool {
    m.wf() ==> next.wf()
}

impl SheetShadowEngine {
    pub fn new() -> (r: Self)
        ensures
            r.deep_view() == empty_engine(),
            r.deep_view().wf(),
    {
        let r = SheetShadowEngine {
            source_path: None,
            sheets: Vec::new(),
            defined_names: Vec::new(),
            tables: Vec::new(),
            style_count: 0,
            style_patches: Vec::new(),
            merges: Vec::new(),
            merge_dirty_sheets: Vec::new(),
            structural_edits: Vec::new(),
            structural_dirty_sheets: Vec::new(),
            table_dirty_paths: Vec::new(),
            comments: Vec::new(),
            data_validations: Vec::new(),
            auto_filters: Vec::new(),
            conditional_formats: Vec::new(),
            drawing_objects: Vec::new(),
            high_risk_objects: Vec::new(),
            object_dirty_sheets: Vec::new(),
            comment_dirty_sheets: Vec::new(),
            drawing_dirty_paths: Vec::new(),
            drawing_text_updates: Vec::new(),
            image_replacements: Vec::new(),
            ole_replacements: Vec::new(),
            chart_title_updates: Vec::new(),
            chart_source_updates: Vec::new(),
            sparkline_source_updates: Vec::new(),
            sparkline_dirty_sheets: Vec::new(),
            sparkline_dirty_objects: Vec::new(),
            pivot_dirty_paths: Vec::new(),
            workbook_dirty: false,
            cells: Vec::new(),
            formulas: Vec::new(),
            meta: Vec::new(),
            dependents: Vec::new(),
            dirty: Vec::new(),
            modified: Vec::new(),
            audit_events: Vec::new(),
        };
        assert(r.deep_view() == empty_engine());
        proof {
            reveal(EngineModel::once_each);
        }
        r
    }
}

// ----- The trail -----

/// A shadow with one more event in its trail.
pub open spec fn logged(m: EngineModel, e: AuditEvent<Seq<char>>) -> EngineModel {
    EngineModel { audit_events: m.audit_events.push(e), ..m }
}

/// The trail has no part in whether a shadow is valid.
pub proof fn lemma_trail_is_free(m: EngineModel, trail: Seq<AuditEvent<Seq<char>>>)
    ensures
        (EngineModel { audit_events: trail, ..m }).wf() == m.wf(),
{
    reveal(EngineModel::once_each);
}

/// The fields of an event in a report.
pub open spec fn event_fields(e: AuditEvent<Seq<char>>) -> FieldsModel {
    seq![
        ("event_type"@, e.event_type),
        ("sheet"@, e.sheet),
        ("row"@, text::decimal(e.row as nat)),
        ("col"@, text::decimal(e.col as nat)),
        ("old_value"@, e.old_value),
        ("new_value"@, e.new_value),
        ("formula"@, e.formula),
        ("reason"@, e.reason),
    ]
}

/// A field of a report.
pub fn pair(name: &str, value: String) -> (r: (String, String))
    ensures
        r.deep_view() == (name@, value@),
{
    (name.to_owned(), value)
}

impl AuditEvent<String> {
    pub fn to_map(&self) -> (r: Fields)
        ensures
            r.deep_view() == event_fields(self.deep_view()),
    {
        let r: Fields = vec![
            pair("event_type", self.event_type.clone()),
            pair("sheet", self.sheet.clone()),
            pair("row", text::size_text(self.row)),
            pair("col", text::size_text(self.col)),
            pair("old_value", self.old_value.clone()),
            pair("new_value", self.new_value.clone()),
            pair("formula", self.formula.clone()),
            pair("reason", self.reason.clone()),
        ];
        assert(r.deep_view() == event_fields(self.deep_view()));
        r
    }
}

/// The report on a trail: one entry for each event, in order.
pub open spec fn trail_report(events: Seq<AuditEvent<Seq<char>>>) -> ReportModel {
    Seq::new(events.len(), |i: int| event_fields(events[i]))
}

impl SheetShadowEngine {
    pub fn log(&mut self, e: AuditEvent)
        ensures
            final(self).deep_view() == logged(old(self).deep_view(), e.deep_view()),
            old(self).deep_view().wf() ==> final(self).deep_view().wf(),
    {
        proof {
            lemma_trail_is_free(self.deep_view(), self.deep_view().audit_events.push(e.deep_view()));
        }
        let ghost before = self.audit_events.deep_view();
        self.audit_events.push(e);
        assert(self.audit_events.deep_view() == before.push(e.deep_view()));
    }

    pub fn audit_report(&self) -> (r: Vec<Fields>)
        ensures
            r.deep_view() == trail_report(self.deep_view().audit_events),
    {
        let ghost all = self.audit_events.deep_view();
        let mut out: Vec<Fields> = Vec::new();
        let mut i: usize = 0;
        assert(out.deep_view() == trail_report(all.take(0)));
        while i < self.audit_events.len()
            invariant
                i <= self.audit_events.len(),
                all == self.audit_events.deep_view(),
                out.deep_view() == trail_report(all.take(i as int)),
            decreases self.audit_events.len() - i,
        {
            let ghost done = out.deep_view();
            let one = self.audit_events[i].to_map();
            out.push(one);
            assert(out.deep_view() == done.push(one.deep_view()));
            assert(all.take(i + 1) == all.take(i as int).push(all[i as int]));
            assert(out.deep_view() == trail_report(all.take(i + 1)));
            i = i + 1;
        }
        assert(all.take(all.len() as int) == all);
        out
    }

    pub fn diff_report(&self) -> (r: Vec<Fields>)
        ensures
            r.deep_view() == trail_report(self.deep_view().audit_events),
    {
        self.audit_report()
    }

    pub fn clear_audit_log(&mut self)
        ensures
            final(self).deep_view() == untold(old(self).deep_view()),
            old(self).deep_view().wf() ==> final(self).deep_view().wf(),
    {
        proof {
            lemma_trail_is_free(self.deep_view(), Seq::empty());
        }
        self.audit_events = Vec::new();
        assert(self.audit_events.deep_view() == Seq::<AuditEvent<Seq<char>>>::empty());
    }
}

/// A shadow with an empty trail.
pub open spec fn untold(m: EngineModel) -> EngineModel {
    EngineModel { audit_events: Seq::empty(), ..m }
}

// ----- Sheets and cells -----

/// The first sheet from `i` on with the given name.
pub open spec fn sheet_place(sheets: SheetsModel, name: Seq<char>, i: int) -> Option<int>
    decreases sheets.len() - i,
{
    if i < 0 || i >= sheets.len() {
        None
    } else if sheets[i].name == name {
        Some(i)
    } else {
        sheet_place(sheets, name, i + 1)
    }
}

pub fn find_sheet(sheets: &Vec<SheetInfo>, name: &str) -> (r: Option<usize>)
    ensures
        text::pos(r) == sheet_place(sheets.deep_view(), name@, 0),
        r matches Some(i) ==> i < sheets.len(),
{
    let ghost all = sheets.deep_view();
    let mut i: usize = 0;
    while i < sheets.len()
        invariant
            i <= sheets.len(),
            all == sheets.deep_view(),
            sheet_place(all, name@, 0) == sheet_place(all, name@, i as int),
        decreases sheets.len() - i,
    {
        assert(all[i as int] == sheets@[i as int].deep_view());
        if text::same(&sheets[i].name, name) {
            return Some(i);
        }
        i = i + 1;
    }
    None
}

pub open spec fn has_sheet(m: EngineModel, name: Seq<char>) -> bool {
    sheet_place(m.sheets, name, 0) is Some
}

/// Why a cell cannot be worked on, where it cannot.
pub open spec fn target_refusal(m: EngineModel, sheet: Seq<char>, row: usize, col: usize) -> Option<
    Seq<char>,
> {
    if row == 0 || col == 0 {
        Some("invalid_cell_ref: row and col must be positive"@)
    } else if !has_sheet(m, sheet) {
        Some("unknown_sheet: "@ + sheet)
    } else {
        None
    }
}

/// Where an operation is refused: the message, as an error.
pub open spec fn refused<T>(reason: Option<Seq<char>>, otherwise: Fallible<T>) -> Fallible<T> {
    match reason {
        Some(m) => Err(coord::value_error(m)),
        None => otherwise,
    }
}

impl SheetShadowEngine {
    pub fn target_refused(&self, sheet: &str, row: usize, col: usize) -> (r: Option<String>)
        ensures
            r.deep_view() == target_refusal(self.deep_view(), sheet@, row, col),
    {
        if row == 0 || col == 0 {
            return Some("invalid_cell_ref: row and col must be positive".to_owned());
        }
        match find_sheet(&self.sheets, sheet) {
            Some(_) => None,
            None => {
                let mut m = "unknown_sheet: ".to_owned();
                m.append(sheet);
                Some(m)
            },
        }
    }

    pub fn validate_cell_target(&self, sheet: &str, row: usize, col: usize) -> (r: Result<
        (),
        ShadowError,
    >)
        ensures
            coord::outcome(r) == refused(
                target_refusal(self.deep_view(), sheet@, row, col),
                Ok(()),
            ),
    {
        match self.target_refused(sheet, row, col) {
            Some(m) => Err(ShadowError::Value(m)),
            None => Ok(()),
        }
    }
}

/// What is known of a cell of which nothing is known.
pub open spec fn blank_meta(k: Key<Seq<char>>) -> ShadowMetaRecord<Seq<char>> {
    ShadowMetaRecord {
        sheet_name: k.sheet,
        row_idx: k.row,
        col_idx: k.col,
        cell_type: "blank"@,
        style_id: None,
        number_format: Seq::empty(),
        original_formula: Seq::empty(),
        cached_value_before: Seq::empty(),
        cached_value_after: Seq::empty(),
        merge_range: Seq::empty(),
        is_modified: false,
        is_dirty: false,
    }
}

pub open spec fn meta_or_blank(meta: MetaModel, k: Key<Seq<char>>) -> ShadowMetaRecord<Seq<char>> {
    match entries::get(meta, k) {
        Some(r) => r,
        None => blank_meta(k),
    }
}

pub fn meta_record(meta: &Vec<(Key, ShadowMetaRecord)>, k: &Key) -> (r: ShadowMetaRecord)
    ensures
        r.deep_view() == meta_or_blank(meta.deep_view(), k.deep_view()),
{
    match entries::map_get(meta, k) {
        Some(r) => r.clone(),
        None => ShadowMetaRecord {
            sheet_name: k.sheet.clone(),
            row_idx: k.row,
            col_idx: k.col,
            cell_type: "blank".to_owned(),
            style_id: None,
            number_format: String::new(),
            original_formula: String::new(),
            cached_value_before: String::new(),
            cached_value_after: String::new(),
            merge_range: String::new(),
            is_modified: false,
            is_dirty: false,
        },
    }
}

/// The value of a cell, empty where it has none.
pub open spec fn value_or_empty(cells: CellsModel, k: Key<Seq<char>>) -> Seq<char> {
    match entries::get(cells, k) {
        Some(t) => t,
        None => Seq::empty(),
    }
}

pub fn cell_or_empty(cells: &Vec<(Key, String)>, k: &Key) -> (r: String)
    ensures
        r@ == value_or_empty(cells.deep_view(), k.deep_view()),
{
    match entries::map_get(cells, k) {
        Some(t) => t.clone(),
        None => String::new(),
    }
}

impl SheetShadowEngine {
    pub fn get_cell_value(&self, sheet: &str, row: usize, col: usize) -> (r: String)
        ensures
            r@ == value_or_empty(self.deep_view().cells, coord::key(sheet@, row, col)),
    {
        cell_or_empty(&self.cells, &coord::key_of(sheet, row, col))
    }

    pub fn get_cell_meta(&self, sheet: &str, row: usize, col: usize) -> (r: Option<ShadowMetaRecord>)
        ensures
            r.deep_view() == entries::get(
                self.deep_view().meta,
                coord::key(sheet@, row, col),
            ),
    {
        match entries::map_get(&self.meta, &coord::key_of(sheet, row, col)) {
            Some(r) => Some(r.clone()),
            None => None,
        }
    }

    pub fn shadow_meta_count(&self) -> (r: usize)
        ensures
            r == self.deep_view().meta.len(),
    {
        assert(self.meta.deep_view().len() == self.meta.len());
        self.meta.len()
    }
}

/// A shadow stays valid when a value and what is known of it are put into a cell.
pub proof fn lemma_value_stays_valid(
    m: EngineModel,
    k: Key<Seq<char>>,
    value: Seq<char>,
    known: ShadowMetaRecord<Seq<char>>,
    e: AuditEvent<Seq<char>>,
)
    ensures
        ({
            let put = EngineModel {
                cells: entries::put(m.cells, k, value),
                meta: entries::put(m.meta, k, known),
                ..m
            };
            &&& as_valid(m, put)
            &&& as_valid(
                m,
                logged(EngineModel { modified: entries::with(m.modified, k), ..put }, e),
            )
            &&& as_valid(m, logged(EngineModel { dirty: entries::with(m.dirty, k), ..put }, e))
        }),
{
    reveal(EngineModel::once_each);
    entries::law_get_after_put(m.cells, k, value, k);
    entries::law_get_after_put(m.meta, k, known, k);
    if m.once_each() {
        entries::law_sets_hold_members_once(m.modified, k);
        entries::law_sets_hold_members_once(m.dirty, k);
    }
}

/// The counts of a workbook.
pub open spec fn status_fields(m: EngineModel) -> FieldsModel {
    seq![
        ("source_path"@, package::or_text(m.source_path, Seq::empty())),
        ("sheet_count"@, text::decimal(m.sheets.len())),
        ("meta_count"@, text::decimal(m.meta.len())),
        ("modified_count"@, text::decimal(m.modified.len())),
        ("dirty_count"@, text::decimal(m.dirty.len())),
    ]
}

impl SheetShadowEngine {
    pub fn workbook_status(&self) -> (r: Fields)
        ensures
            r.deep_view() == status_fields(self.deep_view()),
    {
        let source = match &self.source_path {
            Some(t) => t.clone(),
            None => String::new(),
        };
        assert(self.sheets.deep_view().len() == self.sheets.len());
        assert(self.meta.deep_view().len() == self.meta.len());
        assert(self.modified.deep_view().len() == self.modified.len());
        assert(self.dirty.deep_view().len() == self.dirty.len());
        let r: Fields = vec![
            pair("source_path", source),
            pair("sheet_count", text::size_text(self.sheets.len())),
            pair("meta_count", text::size_text(self.meta.len())),
            pair("modified_count", text::size_text(self.modified.len())),
            pair("dirty_count", text::size_text(self.dirty.len())),
        ];
        assert(r.deep_view() == status_fields(self.deep_view()));
        r
    }
}

// ----- What depends on what -----

/// The names of the sheets, in their order.
pub open spec fn sheet_names(sheets: SheetsModel) -> Seq<Seq<char>> {
    Seq::new(sheets.len(), |i: int| sheets[i].name)
}

pub fn sheet_order(sheets: &Vec<SheetInfo>) -> (r: Vec<String>)
    ensures
        r.deep_view() == sheet_names(sheets.deep_view()),
{
    let ghost all = sheets.deep_view();
    let mut out: Vec<String> = Vec::new();
    let mut i: usize = 0;
    assert(out.deep_view() == sheet_names(all).take(0));
    while i < sheets.len()
        invariant
            i <= sheets.len(),
            all == sheets.deep_view(),
            out.deep_view() == sheet_names(all).take(i as int),
        decreases sheets.len() - i,
    {
        let ghost done = out.deep_view();
        assert(all[i as int] == sheets@[i as int].deep_view());
        out.push(sheets[i].name.clone());
        assert(out.deep_view() == done.push(all[i as int].name));
        assert(sheet_names(all).take(i + 1) == sheet_names(all).take(i as int).push(
            sheet_names(all)[i as int],
        ));
        i = i + 1;
    }
    assert(sheet_names(all).take(all.len() as int) == sheet_names(all));
    out
}

/// The cells that have a formula.
pub open spec fn formula_cells(formulas: FormulasModel) -> Seq<Key<Seq<char>>> {
    Seq::new(formulas.len(), |i: int| formulas[i].0)
}

pub fn formula_key_list(formulas: &Vec<(Key, FormulaCell)>) -> (r: Vec<Key>)
    ensures
        r.deep_view() == formula_cells(formulas.deep_view()),
{
    let ghost all = formulas.deep_view();
    let mut out: Vec<Key> = Vec::new();
    let mut i: usize = 0;
    assert(out.deep_view() == formula_cells(all).take(0));
    while i < formulas.len()
        invariant
            i <= formulas.len(),
            all == formulas.deep_view(),
            out.deep_view() == formula_cells(all).take(i as int),
        decreases formulas.len() - i,
    {
        let ghost done = out.deep_view();
        assert(all[i as int] == formulas@[i as int].deep_view());
        out.push(formulas[i].0.clone());
        assert(out.deep_view() == done.push(all[i as int].0));
        assert(formula_cells(all).take(i + 1) == formula_cells(all).take(i as int).push(
            formula_cells(all)[i as int],
        ));
        i = i + 1;
    }
    assert(formula_cells(all).take(all.len() as int) == formula_cells(all));
    out
}

/// The formulas with what each depends on worked out anew.
pub open spec fn relinked(m: EngineModel) -> FormulasModel {
    Seq::new(
        m.formulas.len(),
        |i: int|
            (
                m.formulas[i].0,
                FormulaCell {
                    formula: m.formulas[i].1.formula,
                    deps: deps::formula_deps(
                        m.formulas[i].1.formula,
                        m.formulas[i].0,
                        m.cells,
                        sheet_names(m.sheets),
                        m.defined_names,
                        formula_cells(m.formulas),
                        m.tables,
                    ),
                },
            ),
    )
}

/// Under each cell, the formulas that depend on it; with those of one formula added.
pub open spec fn with_dependent(d: DependentsModel, list: Seq<Key<Seq<char>>>, k: Key<Seq<char>>) -> DependentsModel
    decreases list.len(),
{
    if list.len() == 0 {
        d
    } else {
        let done = with_dependent(d, list.drop_last(), k);
        entries::put(done, list.last(), entries::with(dependents_of(done, list.last()), k))
    }
}

pub open spec fn dependents_of(d: DependentsModel, k: Key<Seq<char>>) -> Seq<Key<Seq<char>>> {
    match entries::get(d, k) {
        Some(list) => list,
        None => Seq::empty(),
    }
}

pub open spec fn all_dependents(formulas: FormulasModel) -> DependentsModel
    decreases formulas.len(),
{
    if formulas.len() == 0 {
        Seq::empty()
    } else {
        with_dependent(
            all_dependents(formulas.drop_last()),
            formulas.last().1.deps,
            formulas.last().0,
        )
    }
}

pub fn dependents_list(d: &Vec<(Key, Vec<Key>)>, k: &Key) -> (r: Vec<Key>)
    ensures
        r.deep_view() == dependents_of(d.deep_view(), k.deep_view()),
{
    match entries::map_get(d, k) {
        Some(list) => list.copied(),
        None => {
            let none: Vec<Key> = Vec::new();
            assert(none.deep_view() == Seq::<Key<Seq<char>>>::empty());
            none
        },
    }
}

fn add_dependent(d: &mut Vec<(Key, Vec<Key>)>, list: &Vec<Key>, k: &Key)
    ensures
        final(d).deep_view() == with_dependent(
            old(d).deep_view(),
            list.deep_view(),
            k.deep_view(),
        ),
{
    let ghost all = list.deep_view();
    let ghost start = d.deep_view();
    let mut i: usize = 0;
    assert(all.take(0).len() == 0);
    while i < list.len()
        invariant
            i <= list.len(),
            all == list.deep_view(),
            d.deep_view() == with_dependent(start, all.take(i as int), k.deep_view()),
        decreases list.len() - i,
    {
        assert(all.take(i + 1).drop_last() == all.take(i as int));
        assert(all.take(i + 1).last() == list@[i as int].deep_view());
        let mut known = dependents_list(d, &list[i]);
        entries::set_add(&mut known, k.clone());
        entries::map_put(d, list[i].clone(), known);
        i = i + 1;
    }
    assert(all.take(all.len() as int) == all);
}

/// A shadow with the links between its formulas worked out anew.
pub open spec fn rebuilt(m: EngineModel) -> EngineModel {
    let formulas = relinked(m);
    EngineModel { formulas, dependents: all_dependents(formulas), ..m }
}

proof fn lemma_dependent_once(d: DependentsModel, list: Seq<Key<Seq<char>>>, k: Key<Seq<char>>)
    requires
        entries::sets_once(d),
    ensures
        entries::sets_once(with_dependent(d, list, k)),
    decreases list.len(),
{
    if list.len() > 0 {
        lemma_dependent_once(d, list.drop_last(), k);
        let done = with_dependent(d, list.drop_last(), k);
        let known = dependents_of(done, list.last());
        entries::lemma_put_set_once(done, list.last(), entries::with(known, k));
        entries::law_sets_hold_members_once(known, k);
    }
}

proof fn lemma_dependents_once(formulas: FormulasModel)
    ensures
        entries::sets_once(all_dependents(formulas)),
    decreases formulas.len(),
{
    if formulas.len() > 0 {
        lemma_dependents_once(formulas.drop_last());
        lemma_dependent_once(
            all_dependents(formulas.drop_last()),
            formulas.last().1.deps,
            formulas.last().0,
        );
    }
}

/// Working out the links anew keeps a shadow valid.
pub proof fn lemma_links_stay_valid(m: EngineModel)
    ensures
        as_valid(m, EngineModel { formulas: relinked(m), ..m }),
        as_valid(m, EngineModel { dependents: all_dependents(m.formulas), ..m }),
        as_valid(m, rebuilt(m)),
{
    reveal(EngineModel::once_each);
    lemma_dependents_once(m.formulas);
    lemma_dependents_once(relinked(m));
    let t = relinked(m);
    assert forall|i: int| 0 <= i < t.len() implies (#[trigger] t[i]).1.deps.no_duplicates() by {
        deps::law_dependencies_are_a_set(
            m.formulas[i].1.formula,
            m.formulas[i].0,
            m.cells,
            sheet_names(m.sheets),
            m.defined_names,
            formula_cells(m.formulas),
            m.tables,
        );
    }
    assert forall|i: int, j: int| entries::distinct_keys(m.formulas) && 0 <= i < j < t.len() implies (
    #[trigger] t[i]).0 != (#[trigger] t[j]).0 by {
        assert(m.formulas[i].0 != m.formulas[j].0);
    }
}

impl SheetShadowEngine {
    pub fn rebuild_formula_deps(&mut self)
        ensures
            final(self).deep_view() == (EngineModel {
                formulas: relinked(old(self).deep_view()),
                ..old(self).deep_view()
            }),
            old(self).deep_view().wf() ==> final(self).deep_view().wf(),
    {
        let ghost m = self.deep_view();
        proof {
            lemma_links_stay_valid(m);
        }
        let ghost all = m.formulas;
        let ghost expected = relinked(m);
        let order = sheet_order(&self.sheets);
        let keys = formula_key_list(&self.formulas);
        let mut out: Vec<(Key, FormulaCell)> = Vec::new();
        let mut i: usize = 0;
        assert(out.deep_view() == expected.take(0));
        while i < self.formulas.len()
            invariant
                i <= self.formulas.len(),
                m == self.deep_view(),
                all == self.formulas.deep_view(),
                expected == relinked(m),
                out.deep_view() == expected.take(i as int),
            decreases self.formulas.len() - i,
        {
            assert(all[i as int] == self.formulas@[i as int].deep_view());
            let formula = self.formulas[i].1.formula.clone();
            let deps = deps::extract_deps(
                &formula,
                &self.formulas[i].0,
                &self.cells,
                &order,
                &self.defined_names,
                &keys,
                &self.tables,
            );
            let ghost done = out.deep_view();
            let one = (self.formulas[i].0.clone(), FormulaCell { formula, deps });
            out.push(one);
            assert(out.deep_view() == done.push(one.deep_view()));
            assert(expected.take(i + 1) == expected.take(i as int).push(expected[i as int]));
            i = i + 1;
        }
        assert(expected.take(all.len() as int) == expected);
        self.formulas = out;
    }

    pub fn rebuild_dependents(&mut self)
        ensures
            final(self).deep_view() == (EngineModel {
                dependents: all_dependents(old(self).deep_view().formulas),
                ..old(self).deep_view()
            }),
            old(self).deep_view().wf() ==> final(self).deep_view().wf(),
    {
        proof {
            lemma_links_stay_valid(self.deep_view());
        }
        let ghost all = self.formulas.deep_view();
        let mut d: Vec<(Key, Vec<Key>)> = Vec::new();
        assert(d.deep_view() == DependentsModel::empty());
        let mut i: usize = 0;
        assert(all.take(0).len() == 0);
        while i < self.formulas.len()
            invariant
                i <= self.formulas.len(),
                all == self.formulas.deep_view(),
                d.deep_view() == all_dependents(all.take(i as int)),
            decreases self.formulas.len() - i,
        {
            assert(all.take(i + 1).drop_last() == all.take(i as int));
            assert(all.take(i + 1).last() == self.formulas@[i as int].deep_view());
            add_dependent(&mut d, &self.formulas[i].1.deps, &self.formulas[i].0);
            i = i + 1;
        }
        assert(all.take(all.len() as int) == all);
        self.dependents = d;
    }

    pub fn rebuild_links(&mut self)
        ensures
            final(self).deep_view() == rebuilt(old(self).deep_view()),
            old(self).deep_view().wf() ==> final(self).deep_view().wf(),
    {
        self.rebuild_formula_deps();
        self.rebuild_dependents();
    }
}

// ----- Reading a package -----

/// What is read of the sheets of a package: their cells and their rules.
#[verifier::ext_equal]
pub struct Contents<G, V, F, C> {
    pub grid: G,
    pub validations: V,
    pub filters: F,
    pub formats: C,
}

pub type ContentsModel = Contents<
    GridModel,
    Seq<DataValidationRule<Seq<char>>>,
    Seq<AutoFilterRule<Seq<char>>>,
    Seq<ConditionalFormatRule<Seq<char>>>,
>;

pub type ContentsOut = Contents<
    Grid,
    Vec<DataValidationRule>,
    Vec<AutoFilterRule>,
    Vec<ConditionalFormatRule>,
>;

impl DeepView for Contents<
    Grid,
    Vec<DataValidationRule>,
    Vec<AutoFilterRule>,
    Vec<ConditionalFormatRule>,
> {
    type V = ContentsModel;

    open spec fn deep_view(&self) -> ContentsModel {
        Contents {
            grid: self.grid.deep_view(),
            validations: self.validations.deep_view(),
            filters: self.filters.deep_view(),
            formats: self.formats.deep_view(),
        }
    }
}

pub open spec fn no_contents() -> ContentsModel {
    Contents {
        grid: Grid {
            merges: Seq::empty(),
            cells: Seq::empty(),
            formulas: Seq::empty(),
            meta: Seq::empty(),
        },
        validations: Seq::empty(),
        filters: Seq::empty(),
        formats: Seq::empty(),
    }
}

/// What is read of the first `n` sheets, and the error that stopped the reading.
pub open spec fn contents(
    p: PackageModel,
    sheets: SheetsModel,
    shared: Seq<Seq<char>>,
    styles: Seq<Seq<char>>,
    n: int,
) -> (ContentsModel, Option<ShadowError<Seq<char>>>)
    decreases n,
{
    if n <= 0 {
        (no_contents(), None)
    } else {
        let done = contents(p, sheets, shared, styles, n - 1);
        if done.1 is Some {
            done
        } else {
            match package::needed_text(p, sheets[n - 1].path) {
                Err(e) => (done.0, Some(e)),
                Ok(s) => match (
                    sheetparts::sheet_rules(sheets[n - 1].name, s),
                    package::nodes_of(s),
                ) {
                    (Ok(rules), Ok(nodes)) => (
                        Contents {
                            grid: cells::with_sheet(
                                done.0.grid,
                                nodes,
                                sheets[n - 1].name,
                                shared,
                                styles,
                            ),
                            validations: done.0.validations + rules.validations,
                            filters: objects::pushed(done.0.filters, rules.filter),
                            formats: done.0.formats + rules.formats,
                        },
                        None,
                    ),
                    (Err(e), _) => (done.0, Some(e)),
                    (_, Err(e)) => (done.0, Some(e)),
                },
            }
        }
    }
}

pub open spec fn contents_view(r: (ContentsOut, Option<ShadowError>)) -> (
    ContentsModel,
    Option<ShadowError<Seq<char>>>,
) {
    (r.0.deep_view(), r.1.deep_view())
}

fn read_contents(
    p: &Package,
    sheets: &Vec<SheetInfo>,
    shared: &Vec<String>,
    styles: &Vec<String>,
    n: usize,
) -> (r: (ContentsOut, Option<ShadowError>))
    requires
        n <= sheets.len(),
    ensures
        contents_view(r) == contents(
            p.deep_view(),
            sheets.deep_view(),
            shared.deep_view(),
            styles.deep_view(),
            n as int,
        ),
    decreases n,
{
    if n == 0 {
        let none = Contents {
            grid: Grid {
                merges: Vec::new(),
                cells: Vec::new(),
                formulas: Vec::new(),
                meta: Vec::new(),
            },
            validations: Vec::new(),
            filters: Vec::new(),
            formats: Vec::new(),
        };
        assert(none.deep_view() == no_contents());
        return (none, None);
    }
    let (mut done, failed) = read_contents(p, sheets, shared, styles, n - 1);
    match failed {
        Some(e) => return (done, Some(e)),
        None => {},
    }
    assert(sheets.deep_view()[n - 1] == sheets@[n - 1].deep_view());
    let sheet = &sheets[n - 1];
    let s = match package::read_needed(p, &sheet.path) {
        Ok(s) => s,
        Err(e) => return (done, Some(e)),
    };
    let rules = match sheetparts::parse_sheet_objects(&sheet.name, &s) {
        Ok(rules) => rules,
        Err(e) => return (done, Some(e)),
    };
    let ghost before = done.deep_view();
    match cells::parse_sheet_xml(&sheet.name, &s, shared, styles, &mut done.grid) {
        Ok(_) => {},
        Err(e) => return (done, Some(e)),
    }
    let mut validations = rules.validations;
    let mut formats = rules.formats;
    let ghost v = validations.deep_view();
    let ghost f = formats.deep_view();
    done.validations.append(&mut validations);
    assert(done.validations.deep_view() == before.validations + v);
    objects::push_some(&mut done.filters, rules.filter);
    done.formats.append(&mut formats);
    assert(done.formats.deep_view() == before.formats + f);
    (done, None)
}

/// What is read of a package before its cells.
#[verifier::ext_equal]
pub struct Parts<S, N, T, C, D, H> {
    pub sheets: S,
    pub names: N,
    pub tables: T,
    pub comments: C,
    pub drawings: D,
    pub risks: H,
}

pub type PartsModel = Parts<
    SheetsModel,
    NamesModel,
    Seq<TableModel>,
    Seq<CellComment<Seq<char>>>,
    DrawingsModel,
    HighRiskModel,
>;

pub type PartsOut = Parts<
    Vec<SheetInfo>,
    Vec<DefinedName>,
    Vec<TableInfo>,
    Vec<CellComment>,
    Vec<DrawingObject>,
    Vec<HighRiskObject>,
>;

/// The parts of a package; the first that cannot be read is the error.
pub open spec fn parts(p: PackageModel) -> Fallible<PartsModel> {
    match package::workbook_sheets(p) {
        Err(e) => Err(e),
        Ok(sheets) => match package::names_in(p, sheets) {
            Err(e) => Err(e),
            Ok(names) => match highrisk::tables_of_sheets(p, sheets) {
                Err(e) => Err(e),
                Ok(tables) => match highrisk::comments_of_sheets(p, sheets) {
                    Err(e) => Err(e),
                    Ok(comments) => match drawings::drawings_of_sheets(p, sheets) {
                        Err(e) => Err(e),
                        Ok(drawings) => match highrisk::risks_of_sheets(p, sheets) {
                            Err(e) => Err(e),
                            Ok(risks) => Ok(
                                Parts { sheets, names, tables, comments, drawings, risks },
                            ),
                        },
                    },
                },
            },
        },
    }
}

pub open spec fn parts_view(r: Result<PartsOut, ShadowError>) -> Fallible<PartsModel> {
    match r {
        Ok(v) => Ok(
            Parts {
                sheets: v.sheets.deep_view(),
                names: v.names.deep_view(),
                tables: v.tables.deep_view(),
                comments: v.comments.deep_view(),
                drawings: v.drawings.deep_view(),
                risks: v.risks.deep_view(),
            },
        ),
        Err(e) => Err(e.deep_view()),
    }
}

fn read_parts(p: &Package) -> (r: Result<PartsOut, ShadowError>)
    ensures
        parts_view(r) == parts(p.deep_view()),
{
    let sheets = match package::read_workbook_sheets(p) {
        Ok(v) => v,
        Err(e) => return Err(e),
    };
    let names = match package::read_defined_names(p, &sheets) {
        Ok(v) => v,
        Err(e) => return Err(e),
    };
    let tables = match highrisk::read_table_info(p, &sheets) {
        Ok(v) => v,
        Err(e) => return Err(e),
    };
    let comments = match highrisk::read_comments(p, &sheets) {
        Ok(v) => v,
        Err(e) => return Err(e),
    };
    let drawings = match drawings::read_drawing_objects(p, &sheets) {
        Ok(v) => v,
        Err(e) => return Err(e),
    };
    let risks = match highrisk::read_high_risk_objects(p, &sheets) {
        Ok(v) => v,
        Err(e) => return Err(e),
    };
    Ok(Parts { sheets, names, tables, comments, drawings, risks })
}

/// A length as a number of 32 bits, as far as it fits.
pub open spec fn short_count(n: nat) -> u32 {
    if n <= u32::MAX {
        n as u32
    } else {
        u32::MAX
    }
}

pub fn short_count_of(n: usize) -> (r: u32)
    ensures
        r == short_count(n as nat),
{
    if n <= u32::MAX as usize {
        n as u32
    } else {
        u32::MAX
    }
}

/// A shadow with what was read of the sheets.
pub open spec fn holding(m: EngineModel, c: ContentsModel) -> EngineModel {
    EngineModel {
        merges: c.grid.merges,
        cells: c.grid.cells,
        formulas: c.grid.formulas,
        meta: c.grid.meta,
        data_validations: c.validations,
        auto_filters: c.filters,
        conditional_formats: c.formats,
        ..m
    }
}

/// The shadow after a package was opened, and whether it could be read. Whatever was there
/// before is gone; where the reading stops, what was read so far stays.
pub open spec fn ingested(path: Seq<char>, opened: Fallible<PackageModel>) -> (
    EngineModel,
    Fallible<()>,
) {
    let base = EngineModel { source_path: Some(path), ..empty_engine() };
    match opened {
        Err(e) => (base, Err(e)),
        Ok(p) => match package::shared_strings(p) {
            Err(e) => (base, Err(e)),
            Ok(shared) => match package::style_info(p) {
                Err(e) => (base, Err(e)),
                Ok(styles) => {
                    let counted = EngineModel { style_count: short_count(styles.len()), ..base };
                    match parts(p) {
                        Err(e) => (counted, Err(e)),
                        Ok(found) => {
                            let c = contents(
                                p,
                                found.sheets,
                                shared,
                                styles,
                                found.sheets.len() as int,
                            );
                            let filled = holding(counted, c.0);
                            match c.1 {
                                Some(e) => (filled, Err(e)),
                                None => (
                                    rebuilt(
                                        EngineModel {
                                            sheets: found.sheets,
                                            defined_names: found.names,
                                            tables: found.tables,
                                            comments: found.comments,
                                            drawing_objects: found.drawings,
                                            high_risk_objects: found.risks,
                                            ..filled
                                        },
                                    ),
                                    Ok(()),
                                ),
                            }
                        },
                    }
                },
            },
        },
    }
}

proof fn lemma_contents_once(
    p: PackageModel,
    sheets: SheetsModel,
    shared: Seq<Seq<char>>,
    styles: Seq<Seq<char>>,
    n: int,
)
    ensures
        contents(p, sheets, shared, styles, n).0.grid.once_each(),
    decreases n,
{
    if n > 0 {
        lemma_contents_once(p, sheets, shared, styles, n - 1);
        let done = contents(p, sheets, shared, styles, n - 1);
        match package::needed_text(p, sheets[n - 1].path) {
            Ok(s) => match package::nodes_of(s) {
                Ok(nodes) => {
                    cells::lemma_sheet_once(
                        done.0.grid,
                        nodes,
                        sheets[n - 1].name,
                        shared,
                        styles,
                    );
                },
                Err(_) => {},
            },
            Err(_) => {},
        }
    }
}

/// A workbook that was read is valid, whatever its package holds.
pub proof fn law_reading_gives_a_valid_shadow(path: Seq<char>, opened: Fallible<PackageModel>)
    ensures
        ingested(path, opened).0.wf(),
{
    reveal(EngineModel::once_each);
    let base = EngineModel { source_path: Some(path), ..empty_engine() };
    if let Ok(p) = opened {
        if let Ok(shared) = package::shared_strings(p) {
            if let Ok(styles) = package::style_info(p) {
                let counted = EngineModel { style_count: short_count(styles.len()), ..base };
                if let Ok(found) = parts(p) {
                    let n = found.sheets.len() as int;
                    lemma_contents_once(p, found.sheets, shared, styles, n);
                    let c = contents(p, found.sheets, shared, styles, n);
                    let filled = holding(counted, c.0);
                    assert(filled.wf());
                    let read = EngineModel {
                        sheets: found.sheets,
                        defined_names: found.names,
                        tables: found.tables,
                        comments: found.comments,
                        drawing_objects: found.drawings,
                        high_risk_objects: found.risks,
                        ..filled
                    };
                    assert(read.wf());
                    lemma_links_stay_valid(read);
                }
            }
        }
    }
}

pub open spec fn opened_view(r: Result<Package, ShadowError>) -> Fallible<PackageModel> {
    match r {
        Ok(p) => Ok(p.deep_view()),
        Err(e) => Err(e.deep_view()),
    }
}

impl SheetShadowEngine {
    /// Reads a workbook from its package.
    pub fn ingest(&mut self, file_path: &str, opened: &Result<Package, ShadowError>) -> (r: Result<
        (),
        ShadowError,
    >)
        ensures
            (final(self).deep_view(), coord::outcome(r)) == ingested(
                file_path@,
                opened_view(*opened),
            ),
            final(self).deep_view().wf(),
    {
        proof {
            law_reading_gives_a_valid_shadow(file_path@, opened_view(*opened));
        }
        let mut next = SheetShadowEngine::new();
        next.source_path = Some(file_path.to_owned());
        *self = next;
        let p = match opened {
            Ok(p) => p,
            Err(e) => return Err(e.clone()),
        };
        let shared = match package::read_shared_strings(p) {
            Ok(v) => v,
            Err(e) => return Err(e),
        };
        let styles = match package::read_style_info(p) {
            Ok(v) => v,
            Err(e) => return Err(e),
        };
        assert(styles.deep_view().len() == styles.len());
        self.style_count = short_count_of(styles.len());
        let found = match read_parts(p) {
            Ok(v) => v,
            Err(e) => return Err(e),
        };
        assert(found.sheets.deep_view().len() == found.sheets.len());
        let (c, failed) = read_contents(p, &found.sheets, &shared, &styles, found.sheets.len());
        self.merges = c.grid.merges;
        self.cells = c.grid.cells;
        self.formulas = c.grid.formulas;
        self.meta = c.grid.meta;
        self.data_validations = c.validations;
        self.auto_filters = c.filters;
        self.conditional_formats = c.formats;
        match failed {
            Some(e) => return Err(e),
            None => {},
        }
        self.sheets = found.sheets;
        self.defined_names = found.names;
        self.tables = found.tables;
        self.comments = found.comments;
        self.drawing_objects = found.drawings;
        self.high_risk_objects = found.risks;
        self.rebuild_links();
        Ok(())
    }
}

/// Reading a workbook leaves no changes pending and an empty trail, whatever was done
/// before.
pub proof fn law_reading_starts_afresh(path: Seq<char>, opened: Fallible<PackageModel>)
    ensures
        ({
            let m = ingested(path, opened).0;
            &&& m.audit_events.len() == 0
            &&& m.modified.len() == 0
            &&& m.dirty.len() == 0
            &&& m.structural_edits.len() == 0
            &&& m.style_patches.len() == 0
            &&& m.merge_dirty_sheets.len() == 0
            &&& m.object_dirty_sheets.len() == 0
            &&& m.comment_dirty_sheets.len() == 0
            &&& m.table_dirty_paths.len() == 0
            &&& m.drawing_dirty_paths.len() == 0
            &&& m.pivot_dirty_paths.len() == 0
            &&& m.sparkline_dirty_sheets.len() == 0
            &&& m.image_replacements.len() == 0
            &&& m.ole_replacements.len() == 0
            &&& m.chart_title_updates.len() == 0
            &&& m.chart_source_updates.len() == 0
            &&& !m.workbook_dirty
        }),
{
}

} // verus!
