//! The records that a workbook is made of. Each is generic in how it holds text:
//! `String` at run time, a sequence of characters in contracts.

use crate::coord::Key;
use crate::text;
use vstd::prelude::*;

verus! {

/// A name that the workbook gives to a formula, for all sheets or for one.
#[verifier::ext_equal]
pub struct DefinedName<S = String> {
    pub name: S,
    pub target: S,
    pub scope_sheet: Option<S>,
}

impl DeepView for DefinedName<String> {
    type V = DefinedName<Seq<char>>;

    open spec fn deep_view(&self) -> DefinedName<Seq<char>> {
        DefinedName {
            name: self.name@,
            target: self.target@,
            scope_sheet: self.scope_sheet.deep_view(),
        }
    }
}

impl Clone for DefinedName<String> {
    fn clone(&self) -> (r: Self)
        ensures
            r == *self,
    {
        DefinedName {
            name: self.name.clone(),
            target: self.target.clone(),
            scope_sheet: text::copy_option(&self.scope_sheet),
        }
    }
}

/// A rectangle of cells that an object of a sheet covers.
#[verifier::ext_equal]
pub struct ObjectRange<S = String> {
    pub sheet: S,
    pub start_row: usize,
    pub start_col: usize,
    pub end_row: usize,
    pub end_col: usize,
}

impl DeepView for ObjectRange<String> {
    type V = ObjectRange<Seq<char>>;

    open spec fn deep_view(&self) -> ObjectRange<Seq<char>> {
        ObjectRange {
            sheet: self.sheet@,
            start_row: self.start_row,
            start_col: self.start_col,
            end_row: self.end_row,
            end_col: self.end_col,
        }
    }
}

impl Clone for ObjectRange<String> {
    fn clone(&self) -> (r: Self)
        ensures
            r == *self,
    {
        ObjectRange {
            sheet: self.sheet.clone(),
            start_row: self.start_row,
            start_col: self.start_col,
            end_row: self.end_row,
            end_col: self.end_col,
        }
    }
}

/// A comment on a cell.
#[verifier::ext_equal]
pub struct CellComment<S = String> {
    pub key: Key<S>,
    pub text: S,
}

impl DeepView for CellComment<String> {
    type V = CellComment<Seq<char>>;

    open spec fn deep_view(&self) -> CellComment<Seq<char>> {
        CellComment {
            key: self.key.deep_view(),
            text: self.text@,
        }
    }
}

impl Clone for CellComment<String> {
    fn clone(&self) -> (r: Self)
        ensures
            r == *self,
    {
        CellComment {
            key: self.key.clone(),
            text: self.text.clone(),
        }
    }
}

/// What may be entered in a range.
#[verifier::ext_equal]
pub struct DataValidationRule<S = String> {
    pub range: ObjectRange<S>,
    pub validation_type: S,
    pub operator: S,
    pub formula1: S,
    pub formula2: S,
    pub allow_blank: bool,
}

impl DeepView for DataValidationRule<String> {
    type V = DataValidationRule<Seq<char>>;

    open spec fn deep_view(&self) -> DataValidationRule<Seq<char>> {
        DataValidationRule {
            range: self.range.deep_view(),
            validation_type: self.validation_type@,
            operator: self.operator@,
            formula1: self.formula1@,
            formula2: self.formula2@,
            allow_blank: self.allow_blank,
        }
    }
}

impl Clone for DataValidationRule<String> {
    fn clone(&self) -> (r: Self)
        ensures
            r == *self,
    {
        DataValidationRule {
            range: self.range.clone(),
            validation_type: self.validation_type.clone(),
            operator: self.operator.clone(),
            formula1: self.formula1.clone(),
            formula2: self.formula2.clone(),
            allow_blank: self.allow_blank,
        }
    }
}

/// The range under a filter.
#[verifier::ext_equal]
pub struct AutoFilterRule<S = String> {
    pub range: ObjectRange<S>,
}

impl DeepView for AutoFilterRule<String> {
    type V = AutoFilterRule<Seq<char>>;

    open spec fn deep_view(&self) -> AutoFilterRule<Seq<char>> {
        AutoFilterRule {
            range: self.range.deep_view(),
        }
    }
}

impl Clone for AutoFilterRule<String> {
    fn clone(&self) -> (r: Self)
        ensures
            r == *self,
    {
        AutoFilterRule {
            range: self.range.clone(),
        }
    }
}

/// A format that depends on what a cell holds.
#[verifier::ext_equal]
pub struct ConditionalFormatRule<S = String> {
    pub range: ObjectRange<S>,
    pub rule_type: S,
    pub operator: S,
    pub formula: S,
    pub priority: usize,
}

impl DeepView for ConditionalFormatRule<String> {
    type V = ConditionalFormatRule<Seq<char>>;

    open spec fn deep_view(&self) -> ConditionalFormatRule<Seq<char>> {
        ConditionalFormatRule {
            range: self.range.deep_view(),
            rule_type: self.rule_type@,
            operator: self.operator@,
            formula: self.formula@,
            priority: self.priority,
        }
    }
}

impl Clone for ConditionalFormatRule<String> {
    fn clone(&self) -> (r: Self)
        ensures
            r == *self,
    {
        ConditionalFormatRule {
            range: self.range.clone(),
            rule_type: self.rule_type.clone(),
            operator: self.operator.clone(),
            formula: self.formula.clone(),
            priority: self.priority,
        }
    }
}

/// A picture, chart or shape with the cells that anchor it.
#[verifier::ext_equal]
pub struct DrawingObject<S = String> {
    pub sheet: S,
    pub object_id: S,
    pub object_type: S,
    pub drawing_path: S,
    pub anchor_ordinal: usize,
    pub anchor_kind: S,
    pub from_row: Option<usize>,
    pub from_col: Option<usize>,
    pub to_row: Option<usize>,
    pub to_col: Option<usize>,
    pub rel_id: S,
    pub target_path: S,
    pub target_exists: bool,
    pub target_external: bool,
    pub relationship_valid: bool,
    pub invalid_reason: S,
}

impl DeepView for DrawingObject<String> {
    type V = DrawingObject<Seq<char>>;

    open spec fn deep_view(&self) -> DrawingObject<Seq<char>> {
        DrawingObject {
            sheet: self.sheet@,
            object_id: self.object_id@,
            object_type: self.object_type@,
            drawing_path: self.drawing_path@,
            anchor_ordinal: self.anchor_ordinal,
            anchor_kind: self.anchor_kind@,
            from_row: self.from_row,
            from_col: self.from_col,
            to_row: self.to_row,
            to_col: self.to_col,
            rel_id: self.rel_id@,
            target_path: self.target_path@,
            target_exists: self.target_exists,
            target_external: self.target_external,
            relationship_valid: self.relationship_valid,
            invalid_reason: self.invalid_reason@,
        }
    }
}

impl Clone for DrawingObject<String> {
    fn clone(&self) -> (r: Self)
        ensures
            r == *self,
    {
        DrawingObject {
            sheet: self.sheet.clone(),
            object_id: self.object_id.clone(),
            object_type: self.object_type.clone(),
            drawing_path: self.drawing_path.clone(),
            anchor_ordinal: self.anchor_ordinal,
            anchor_kind: self.anchor_kind.clone(),
            from_row: self.from_row,
            from_col: self.from_col,
            to_row: self.to_row,
            to_col: self.to_col,
            rel_id: self.rel_id.clone(),
            target_path: self.target_path.clone(),
            target_exists: self.target_exists,
            target_external: self.target_external,
            relationship_valid: self.relationship_valid,
            invalid_reason: self.invalid_reason.clone(),
        }
    }
}

/// A relationship of a package part.
#[verifier::ext_equal]
pub struct PackageRelationship<S = String> {
    pub id: S,
    pub rel_type: S,
    pub target: S,
    pub target_mode: S,
}

impl DeepView for PackageRelationship<String> {
    type V = PackageRelationship<Seq<char>>;

    open spec fn deep_view(&self) -> PackageRelationship<Seq<char>> {
        PackageRelationship {
            id: self.id@,
            rel_type: self.rel_type@,
            target: self.target@,
            target_mode: self.target_mode@,
        }
    }
}

impl Clone for PackageRelationship<String> {
    fn clone(&self) -> (r: Self)
        ensures
            r == *self,
    {
        PackageRelationship {
            id: self.id.clone(),
            rel_type: self.rel_type.clone(),
            target: self.target.clone(),
            target_mode: self.target_mode.clone(),
        }
    }
}

/// A pivot table, sparkline or embedded object: read in full, written with care.
#[verifier::ext_equal]
pub struct HighRiskObject<S = String> {
    pub sheet: S,
    pub object_id: S,
    pub object_type: S,
    pub source_path: S,
    pub rel_id: S,
    pub rel_type: S,
    pub target_path: S,
    pub target_mode: S,
    pub target_exists: bool,
    pub target_size: u64,
    pub relationship_valid: bool,
    pub name: S,
    pub ref_text: S,
    pub source_formula: S,
    pub cache_path: S,
    pub cache_rel_id: S,
    pub cache_target_mode: S,
    pub cache_exists: bool,
    pub cache_size: u64,
    pub pivot_cache_id: S,
    pub pivot_data_caption: S,
    pub pivot_updated_version: S,
    pub sparkline_group_type: S,
    pub sparkline_display_empty_cells_as: S,
    pub sparkline_markers: S,
    pub ole_extension: S,
    pub invalid_reason: S,
}

impl DeepView for HighRiskObject<String> {
    type V = HighRiskObject<Seq<char>>;

    open spec fn deep_view(&self) -> HighRiskObject<Seq<char>> {
        HighRiskObject {
            sheet: self.sheet@,
            object_id: self.object_id@,
            object_type: self.object_type@,
            source_path: self.source_path@,
            rel_id: self.rel_id@,
            rel_type: self.rel_type@,
            target_path: self.target_path@,
            target_mode: self.target_mode@,
            target_exists: self.target_exists,
            target_size: self.target_size,
            relationship_valid: self.relationship_valid,
            name: self.name@,
            ref_text: self.ref_text@,
            source_formula: self.source_formula@,
            cache_path: self.cache_path@,
            cache_rel_id: self.cache_rel_id@,
            cache_target_mode: self.cache_target_mode@,
            cache_exists: self.cache_exists,
            cache_size: self.cache_size,
            pivot_cache_id: self.pivot_cache_id@,
            pivot_data_caption: self.pivot_data_caption@,
            pivot_updated_version: self.pivot_updated_version@,
            sparkline_group_type: self.sparkline_group_type@,
            sparkline_display_empty_cells_as: self.sparkline_display_empty_cells_as@,
            sparkline_markers: self.sparkline_markers@,
            ole_extension: self.ole_extension@,
            invalid_reason: self.invalid_reason@,
        }
    }
}

impl Clone for HighRiskObject<String> {
    fn clone(&self) -> (r: Self)
        ensures
            r == *self,
    {
        HighRiskObject {
            sheet: self.sheet.clone(),
            object_id: self.object_id.clone(),
            object_type: self.object_type.clone(),
            source_path: self.source_path.clone(),
            rel_id: self.rel_id.clone(),
            rel_type: self.rel_type.clone(),
            target_path: self.target_path.clone(),
            target_mode: self.target_mode.clone(),
            target_exists: self.target_exists,
            target_size: self.target_size,
            relationship_valid: self.relationship_valid,
            name: self.name.clone(),
            ref_text: self.ref_text.clone(),
            source_formula: self.source_formula.clone(),
            cache_path: self.cache_path.clone(),
            cache_rel_id: self.cache_rel_id.clone(),
            cache_target_mode: self.cache_target_mode.clone(),
            cache_exists: self.cache_exists,
            cache_size: self.cache_size,
            pivot_cache_id: self.pivot_cache_id.clone(),
            pivot_data_caption: self.pivot_data_caption.clone(),
            pivot_updated_version: self.pivot_updated_version.clone(),
            sparkline_group_type: self.sparkline_group_type.clone(),
            sparkline_display_empty_cells_as: self.sparkline_display_empty_cells_as.clone(),
            sparkline_markers: self.sparkline_markers.clone(),
            ole_extension: self.ole_extension.clone(),
            invalid_reason: self.invalid_reason.clone(),
        }
    }
}

/// One change of the workbook, as the audit report lists it.
#[verifier::ext_equal]
pub struct AuditEvent<S = String> {
    pub event_type: S,
    pub sheet: S,
    pub row: usize,
    pub col: usize,
    pub old_value: S,
    pub new_value: S,
    pub formula: S,
    pub reason: S,
}

impl DeepView for AuditEvent<String> {
    type V = AuditEvent<Seq<char>>;

    open spec fn deep_view(&self) -> AuditEvent<Seq<char>> {
        AuditEvent {
            event_type: self.event_type@,
            sheet: self.sheet@,
            row: self.row,
            col: self.col,
            old_value: self.old_value@,
            new_value: self.new_value@,
            formula: self.formula@,
            reason: self.reason@,
        }
    }
}

impl Clone for AuditEvent<String> {
    fn clone(&self) -> (r: Self)
        ensures
            r == *self,
    {
        AuditEvent {
            event_type: self.event_type.clone(),
            sheet: self.sheet.clone(),
            row: self.row,
            col: self.col,
            old_value: self.old_value.clone(),
            new_value: self.new_value.clone(),
            formula: self.formula.clone(),
            reason: self.reason.clone(),
        }
    }
}

/// The parts of a cell's format that a request sets.
#[verifier::ext_equal]
pub struct CellFormatIntent<S = String> {
    pub number_format: Option<S>,
    pub bold: Option<bool>,
    pub italic: Option<bool>,
    pub font_color: Option<S>,
    pub fill_color: Option<S>,
    pub horizontal: Option<S>,
    pub vertical: Option<S>,
    pub wrap_text: Option<bool>,
}

impl DeepView for CellFormatIntent<String> {
    type V = CellFormatIntent<Seq<char>>;

    open spec fn deep_view(&self) -> CellFormatIntent<Seq<char>> {
        CellFormatIntent {
            number_format: self.number_format.deep_view(),
            bold: self.bold,
            italic: self.italic,
            font_color: self.font_color.deep_view(),
            fill_color: self.fill_color.deep_view(),
            horizontal: self.horizontal.deep_view(),
            vertical: self.vertical.deep_view(),
            wrap_text: self.wrap_text,
        }
    }
}

impl Clone for CellFormatIntent<String> {
    fn clone(&self) -> (r: Self)
        ensures
            r == *self,
    {
        CellFormatIntent {
            number_format: text::copy_option(&self.number_format),
            bold: self.bold,
            italic: self.italic,
            font_color: text::copy_option(&self.font_color),
            fill_color: text::copy_option(&self.fill_color),
            horizontal: text::copy_option(&self.horizontal),
            vertical: text::copy_option(&self.vertical),
            wrap_text: self.wrap_text,
        }
    }
}

/// A format request for a cell, over the style that the cell had.
#[verifier::ext_equal]
pub struct StylePatch<S = String> {
    pub key: Key<S>,
    pub base_style_id: u32,
    pub intent: CellFormatIntent<S>,
}

impl DeepView for StylePatch<String> {
    type V = StylePatch<Seq<char>>;

    open spec fn deep_view(&self) -> StylePatch<Seq<char>> {
        StylePatch {
            key: self.key.deep_view(),
            base_style_id: self.base_style_id,
            intent: self.intent.deep_view(),
        }
    }
}

impl Clone for StylePatch<String> {
    fn clone(&self) -> (r: Self)
        ensures
            r == *self,
    {
        StylePatch {
            key: self.key.clone(),
            base_style_id: self.base_style_id,
            intent: self.intent.clone(),
        }
    }
}

/// What is known of a cell beside its value.
#[verifier::ext_equal]
pub struct ShadowMetaRecord<S = String> {
    pub sheet_name: S,
    pub row_idx: usize,
    pub col_idx: usize,
    pub cell_type: S,
    pub style_id: Option<u32>,
    pub number_format: S,
    pub original_formula: S,
    pub cached_value_before: S,
    pub cached_value_after: S,
    pub merge_range: S,
    pub is_modified: bool,
    pub is_dirty: bool,
}

impl DeepView for ShadowMetaRecord<String> {
    type V = ShadowMetaRecord<Seq<char>>;

    open spec fn deep_view(&self) -> ShadowMetaRecord<Seq<char>> {
        ShadowMetaRecord {
            sheet_name: self.sheet_name@,
            row_idx: self.row_idx,
            col_idx: self.col_idx,
            cell_type: self.cell_type@,
            style_id: self.style_id,
            number_format: self.number_format@,
            original_formula: self.original_formula@,
            cached_value_before: self.cached_value_before@,
            cached_value_after: self.cached_value_after@,
            merge_range: self.merge_range@,
            is_modified: self.is_modified,
            is_dirty: self.is_dirty,
        }
    }
}

impl Clone for ShadowMetaRecord<String> {
    fn clone(&self) -> (r: Self)
        ensures
            r == *self,
    {
        ShadowMetaRecord {
            sheet_name: self.sheet_name.clone(),
            row_idx: self.row_idx,
            col_idx: self.col_idx,
            cell_type: self.cell_type.clone(),
            style_id: self.style_id,
            number_format: self.number_format.clone(),
            original_formula: self.original_formula.clone(),
            cached_value_before: self.cached_value_before.clone(),
            cached_value_after: self.cached_value_after.clone(),
            merge_range: self.merge_range.clone(),
            is_modified: self.is_modified,
            is_dirty: self.is_dirty,
        }
    }
}

/// A sheet of the workbook and the package part that holds it.
#[verifier::ext_equal]
pub struct SheetInfo<S = String> {
    pub name: S,
    pub path: S,
    pub sheet_id: S,
    pub rel_id: S,
    pub visibility: S,
}

impl DeepView for SheetInfo<String> {
    type V = SheetInfo<Seq<char>>;

    open spec fn deep_view(&self) -> SheetInfo<Seq<char>> {
        SheetInfo {
            name: self.name@,
            path: self.path@,
            sheet_id: self.sheet_id@,
            rel_id: self.rel_id@,
            visibility: self.visibility@,
        }
    }
}

impl Clone for SheetInfo<String> {
    fn clone(&self) -> (r: Self)
        ensures
            r == *self,
    {
        SheetInfo {
            name: self.name.clone(),
            path: self.path.clone(),
            sheet_id: self.sheet_id.clone(),
            rel_id: self.rel_id.clone(),
            visibility: self.visibility.clone(),
        }
    }
}

/// A cell change that an SQL statement asked for.
#[verifier::ext_equal]
pub struct PendingSqliteUpdate<S = String> {
    pub sheet: S,
    pub row: usize,
    pub col: usize,
    pub value: S,
}

impl DeepView for PendingSqliteUpdate<String> {
    type V = PendingSqliteUpdate<Seq<char>>;

    open spec fn deep_view(&self) -> PendingSqliteUpdate<Seq<char>> {
        PendingSqliteUpdate {
            sheet: self.sheet@,
            row: self.row,
            col: self.col,
            value: self.value@,
        }
    }
}

impl Clone for PendingSqliteUpdate<String> {
    fn clone(&self) -> (r: Self)
        ensures
            r == *self,
    {
        PendingSqliteUpdate {
            sheet: self.sheet.clone(),
            row: self.row,
            col: self.col,
            value: self.value.clone(),
        }
    }
}

} // verus!
