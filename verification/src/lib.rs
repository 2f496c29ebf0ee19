//! A shadow model of spreadsheet workbooks: the rules by which cells, formulas,
//! tables and package parts change, each stated as a contract and proved.

#![verifier::loop_isolation(false)]

use vstd::prelude::*;

pub mod agreement;
pub mod calls;
pub mod cells;
pub mod cellxml;
pub mod changes;
pub mod coord;
pub mod copies;
pub mod deps;
pub mod diagnostics;
pub mod drawings;
pub mod engine;
pub mod entries;
pub mod eval;
pub mod following;
pub mod formula;
pub mod functions;
pub mod highrisk;
pub mod inventory;
pub mod meaning;
pub mod numbers;
pub mod objectops;
pub mod objects;
pub mod package;
pub mod parts;
pub mod partxml;
pub mod pattern;
pub mod ranges;
pub mod readback;
pub mod reading;
pub mod recalc;
pub mod records;
pub mod save;
pub mod saving;
pub mod scopes;
pub mod sheetops;
pub mod sheetparts;
pub mod sheetxml;
pub mod snapshots;
pub mod splice;
pub mod sqltext;
pub mod steady;
pub mod store;
pub mod structure;
pub mod structured;
pub mod styles;
pub mod text;
pub mod values;
pub mod written;
pub mod xml;

verus! {

} // verus!
