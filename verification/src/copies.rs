//! Copies that stand for the same.

use crate::cells::FormulaCell;
use crate::coord::{Key, StructureEdit};
use crate::objects::TableInfo;
use crate::records::{
    AuditEvent, AutoFilterRule, CellComment, ConditionalFormatRule, DataValidationRule,
    DefinedName, DrawingObject, HighRiskObject, ShadowMetaRecord, SheetInfo, StylePatch,
};
use vstd::prelude::*;
use vstd::string::*;

verus! {

/// Values that can be copied so that the copy stands for the same.
pub trait Copied: DeepView + Sized {
    fn copied(&self) -> (r: Self)
        ensures
            r.deep_view() == self.deep_view(),
    ;
}

impl Copied for String {
    fn copied(&self) -> (r: Self) {
        self.clone()
    }
}

impl Copied for Key {
    fn copied(&self) -> (r: Self) {
        self.clone()
    }
}

impl Copied for StructureEdit {
    fn copied(&self) -> (r: Self) {
        self.clone()
    }
}

impl Copied for AuditEvent {
    fn copied(&self) -> (r: Self) {
        self.clone()
    }
}

impl Copied for AutoFilterRule {
    fn copied(&self) -> (r: Self) {
        self.clone()
    }
}

impl Copied for CellComment {
    fn copied(&self) -> (r: Self) {
        self.clone()
    }
}

impl Copied for ConditionalFormatRule {
    fn copied(&self) -> (r: Self) {
        self.clone()
    }
}

impl Copied for DataValidationRule {
    fn copied(&self) -> (r: Self) {
        self.clone()
    }
}

impl Copied for DefinedName {
    fn copied(&self) -> (r: Self) {
        self.clone()
    }
}

impl Copied for DrawingObject {
    fn copied(&self) -> (r: Self) {
        self.clone()
    }
}

impl Copied for HighRiskObject {
    fn copied(&self) -> (r: Self) {
        self.clone()
    }
}

impl Copied for ShadowMetaRecord {
    fn copied(&self) -> (r: Self) {
        self.clone()
    }
}

impl Copied for SheetInfo {
    fn copied(&self) -> (r: Self) {
        self.clone()
    }
}

impl Copied for StylePatch {
    fn copied(&self) -> (r: Self) {
        self.clone()
    }
}

impl Copied for u8 {
    fn copied(&self) -> (r: Self) {
        *self
    }
}

impl Copied for usize {
    fn copied(&self) -> (r: Self) {
        *self
    }
}

impl<A: Copied, B: Copied> Copied for (A, B) {
    fn copied(&self) -> (r: Self) {
        (self.0.copied(), self.1.copied())
    }
}

impl<T: Copied> Copied for Option<T> {
    fn copied(&self) -> (r: Self) {
        match self {
            Some(t) => Some(t.copied()),
            None => None,
        }
    }
}

impl<T: Copied> Copied for Vec<T> {
    fn copied(&self) -> (r: Self) {
        let ghost all = self.deep_view();
        let mut out: Vec<T> = Vec::new();
        let mut i: usize = 0;
        assert(out.deep_view() == all.take(0));
        while i < self.len()
            invariant
                i <= self.len(),
                all == self.deep_view(),
                out.deep_view() == all.take(i as int),
            decreases self.len() - i,
        {
            let ghost done = out.deep_view();
            let x = self[i].copied();
            out.push(x);
            assert(out.deep_view() == done.push(x.deep_view()));
            assert(all.take(i + 1) == all.take(i as int).push(all[i as int]));
            i = i + 1;
        }
        assert(all.take(all.len() as int) == all);
        out
    }
}

impl Copied for FormulaCell<String, Vec<Key>> {
    fn copied(&self) -> (r: Self) {
        FormulaCell { formula: self.formula.clone(), deps: self.deps.copied() }
    }
}

impl Copied for TableInfo<String, Vec<String>> {
    fn copied(&self) -> (r: Self) {
        TableInfo {
            name: self.name.clone(),
            path: self.path.clone(),
            sheet: self.sheet.clone(),
            start_row: self.start_row,
            end_row: self.end_row,
            start_col: self.start_col,
            end_col: self.end_col,
            totals_row: self.totals_row,
            columns: self.columns.copied(),
        }
    }
}

} // verus!
