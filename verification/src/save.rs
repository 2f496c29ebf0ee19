//! Saving: every entry of the source package comes out under its name, changed where the
//! shadow has changes for it and copied where it has none.

use crate::cellxml;
use crate::cellxml::{CellWrite, CellWriteModel, SharedRefsModel, SharedUpdates, UsageModel};
use crate::copies::Copied;
use crate::coord;
use crate::coord::{Key, ShadowError};
use crate::diagnostics::FieldsModel;
use crate::engine;
use crate::engine::{EngineModel, SheetShadowEngine};
use crate::entries;
use crate::entries::Alike;
use crate::highrisk;
use crate::highrisk::HighRiskModel;
use crate::numbers;
use crate::objects::{TableInfo, TableModel};
use crate::package;
use crate::package::{Fallible, PackageModel, SheetsModel};
use crate::partxml;
use crate::recalc;
use crate::recalc::Keys;
use crate::records::{HighRiskObject, SheetInfo};
use crate::sheetxml;
use crate::styles;
use crate::text;
use crate::values;
use crate::xml;
use vstd::prelude::*;
use vstd::string::*;

verus! {

// ----- Entries and what is written for them -----

/// An entry of the source package, read as text and as bytes, as far as each can be done.
#[verifier::ext_equal]
pub struct Entry<S = String, B = Vec<u8>> {
    pub name: S,
    pub text: Result<S, S>,
    pub data: Result<B, S>,
}

pub type EntryModel = Entry<Seq<char>, Seq<u8>>;

impl DeepView for Entry<String, Vec<u8>> {
    type V = EntryModel;

    open spec fn deep_view(&self) -> EntryModel {
        Entry {
            name: self.name@,
            text: match self.text {
                Ok(t) => Ok(t@),
                Err(m) => Err(m@),
            },
            data: match self.data {
                Ok(b) => Ok(b.deep_view()),
                Err(m) => Err(m@),
            },
        }
    }
}

/// What is written for an entry.
#[verifier::ext_equal]
pub enum Content<S = String, B = Vec<u8>> {
    Text(S),
    Bytes(B),
}

pub type ContentModel = Content<Seq<char>, Seq<u8>>;

impl DeepView for Content<String, Vec<u8>> {
    type V = ContentModel;

    open spec fn deep_view(&self) -> ContentModel {
        match self {
            Content::Text(t) => Content::Text(t@),
            Content::Bytes(b) => Content::Bytes(b.deep_view()),
        }
    }
}

pub open spec fn text_of(e: EntryModel) -> Fallible<Seq<char>> {
    match e.text {
        Ok(t) => Ok(t),
        Err(m) => Err(ShadowError::Runtime(m)),
    }
}

fn text_in(e: &Entry) -> (r: Result<String, ShadowError>)
    ensures
        coord::outcome(r) == text_of(e.deep_view()),
{
    match &e.text {
        Ok(t) => Ok(t.clone()),
        Err(m) => Err(ShadowError::Runtime(m.clone())),
    }
}

pub open spec fn data_of(e: EntryModel) -> Fallible<Seq<u8>> {
    match e.data {
        Ok(b) => Ok(b),
        Err(m) => Err(ShadowError::Runtime(m)),
    }
}

fn data_in(e: &Entry) -> (r: Result<Vec<u8>, ShadowError>)
    ensures
        coord::outcome(r) == data_of(e.deep_view()),
{
    match &e.data {
        Ok(b) => Ok(b.copied()),
        Err(m) => Err(ShadowError::Runtime(m.clone())),
    }
}

/// An entry copied as it is.
pub open spec fn copied_entry(e: EntryModel) -> Fallible<ContentModel> {
    match data_of(e) {
        Ok(b) => Ok(Content::Bytes(b)),
        Err(x) => Err(x),
    }
}

/// An entry written anew, once it was read.
pub open spec fn instead(e: EntryModel, c: ContentModel) -> Fallible<ContentModel> {
    match data_of(e) {
        Ok(_) => Ok(c),
        Err(x) => Err(x),
    }
}

pub open spec fn as_text(r: Fallible<Seq<char>>) -> Fallible<ContentModel> {
    match r {
        Ok(t) => Ok(Content::Text(t)),
        Err(x) => Err(x),
    }
}

fn wrap_text(r: Result<String, ShadowError>) -> (out: Result<Content, ShadowError>)
    ensures
        coord::outcome(out) == as_text(coord::outcome(r)),
{
    match r {
        Ok(t) => Ok(Content::Text(t)),
        Err(e) => Err(e),
    }
}

// ----- Shared strings -----

#[derive(Clone, Copy, PartialEq, Eq, Structural)]
pub enum SharedStringPolicy {
    Preserve,
    UpdateUnique,
    Auto,
}

pub open spec fn policy_named(value: Seq<char>) -> Fallible<SharedStringPolicy> {
    if value == "preserve"@ {
        Ok(SharedStringPolicy::Preserve)
    } else if value == "update_unique"@ {
        Ok(SharedStringPolicy::UpdateUnique)
    } else if value == "auto"@ {
        Ok(SharedStringPolicy::Auto)
    } else {
        Err(coord::value_error("shared_string_policy: unsupported policy: "@ + value))
    }
}

pub open spec fn policy_view(r: Result<SharedStringPolicy, ShadowError>) -> Fallible<
    SharedStringPolicy,
> {
    match r {
        Ok(p) => Ok(p),
        Err(e) => Err(e.deep_view()),
    }
}

pub fn parse_shared_string_policy(value: &str) -> (r: Result<SharedStringPolicy, ShadowError>)
    ensures
        policy_view(r) == policy_named(value@),
{
    if text::same(value, "preserve") {
        return Ok(SharedStringPolicy::Preserve);
    }
    if text::same(value, "update_unique") {
        return Ok(SharedStringPolicy::UpdateUnique);
    }
    if text::same(value, "auto") {
        return Ok(SharedStringPolicy::Auto);
    }
    let mut m = "shared_string_policy: unsupported policy: ".to_owned();
    m.append(value);
    Err(ShadowError::Value(m))
}

/// Which shared strings change, and which cells go on using a shared string.
#[verifier::ext_equal]
pub struct SharedStringPatchPlan<U = Vec<(usize, String)>, C = Vec<(Key, usize)>> {
    pub updates: U,
    pub cell_indices: C,
}

pub type PlanModel = SharedStringPatchPlan<SharedUpdates, SharedRefsModel>;

impl DeepView for SharedStringPatchPlan<Vec<(usize, String)>, Vec<(Key, usize)>> {
    type V = PlanModel;

    open spec fn deep_view(&self) -> PlanModel {
        SharedStringPatchPlan {
            updates: self.updates.deep_view(),
            cell_indices: self.cell_indices.deep_view(),
        }
    }
}

pub open spec fn no_plan() -> PlanModel {
    SharedStringPatchPlan { updates: Seq::empty(), cell_indices: Seq::empty() }
}

fn empty_plan() -> (r: SharedStringPatchPlan)
    ensures
        r.deep_view() == no_plan(),
{
    let r = SharedStringPatchPlan { updates: Vec::new(), cell_indices: Vec::new() };
    assert(r.updates.deep_view() == Seq::<(usize, Seq<char>)>::empty());
    assert(r.cell_indices.deep_view() == Seq::<(Key<Seq<char>>, usize)>::empty());
    r
}

/// The first entry from `i` on with the given name.
pub open spec fn entry_place(list: Seq<EntryModel>, name: Seq<char>, i: int) -> Option<int>
    decreases list.len() - i,
{
    if i < 0 || i >= list.len() {
        None
    } else if list[i].name == name {
        Some(i)
    } else {
        entry_place(list, name, i + 1)
    }
}

/// The text of an entry that must be there.
pub open spec fn entry_text(list: Seq<EntryModel>, name: Seq<char>) -> Fallible<Seq<char>> {
    match entry_place(list, name, 0) {
        Some(i) => text_of(list[i]),
        None => Err(ShadowError::Runtime("specified file not found in archive"@)),
    }
}

fn read_entry(list: &Vec<Entry>, name: &str) -> (r: Result<String, ShadowError>)
    ensures
        coord::outcome(r) == entry_text(list.deep_view(), name@),
{
    let ghost all = list.deep_view();
    let mut i: usize = 0;
    while i < list.len()
        invariant
            i <= list.len(),
            all == list.deep_view(),
            entry_place(all, name@, 0) == entry_place(all, name@, i as int),
        decreases list.len() - i,
    {
        assert(all[i as int] == list@[i as int].deep_view());
        if text::same(&list[i].name, name) {
            return text_in(&list[i]);
        }
        i = i + 1;
    }
    Err(ShadowError::Runtime("specified file not found in archive".to_owned()))
}

/// How often each shared string is used, and by which cells, on the first `n` sheets.
pub open spec fn string_uses(list: Seq<EntryModel>, sheets: SheetsModel, n: int) -> Fallible<
    (UsageModel, SharedRefsModel),
>
    decreases n,
{
    if n <= 0 {
        Ok((Seq::empty(), Seq::empty()))
    } else {
        match string_uses(list, sheets, n - 1) {
            Err(e) => Err(e),
            Ok(done) => match entry_text(list, sheets[n - 1].path) {
                Err(e) => Err(e),
                Ok(t) => match package::nodes_of(t) {
                    Err(e) => Err(e),
                    Ok(nodes) => Ok(
                        cellxml::shared_refs(
                            done.0,
                            done.1,
                            nodes,
                            xml::named(nodes, "c"@),
                            sheets[n - 1].name,
                        ),
                    ),
                },
            },
        }
    }
}

proof fn lemma_uses_stay_failed(list: Seq<EntryModel>, sheets: SheetsModel, i: int, n: int)
    requires
        0 <= i <= n,
        string_uses(list, sheets, i) is Err,
    ensures
        string_uses(list, sheets, n) == string_uses(list, sheets, i),
    decreases n,
{
    if i < n {
        lemma_uses_stay_failed(list, sheets, i, n - 1);
    }
}

pub open spec fn uses_view(r: Result<(Vec<(usize, usize)>, Vec<(Key, usize)>), ShadowError>) -> Fallible<
    (UsageModel, SharedRefsModel),
> {
    match r {
        Ok(u) => Ok((u.0.deep_view(), u.1.deep_view())),
        Err(e) => Err(e.deep_view()),
    }
}

fn collect_uses(list: &Vec<Entry>, sheets: &Vec<SheetInfo>) -> (r: Result<
    (Vec<(usize, usize)>, Vec<(Key, usize)>),
    ShadowError,
>)
    ensures
        uses_view(r) == string_uses(
            list.deep_view(),
            sheets.deep_view(),
            sheets.deep_view().len() as int,
        ),
{
    let ghost all = sheets.deep_view();
    let mut usage: Vec<(usize, usize)> = Vec::new();
    let mut refs: Vec<(Key, usize)> = Vec::new();
    assert(usage.deep_view() == UsageModel::empty());
    assert(refs.deep_view() == SharedRefsModel::empty());
    let mut i: usize = 0;
    while i < sheets.len()
        invariant
            i <= sheets.len(),
            all == sheets.deep_view(),
            string_uses(list.deep_view(), all, i as int) == Ok::<
                (UsageModel, SharedRefsModel),
                ShadowError<Seq<char>>,
            >((usage.deep_view(), refs.deep_view())),
        decreases sheets.len() - i,
    {
        assert(all[i as int] == sheets@[i as int].deep_view());
        let found = read_entry(list, &sheets[i].path);
        let t = match found {
            Ok(t) => t,
            Err(e) => {
                proof {
                    lemma_uses_stay_failed(list.deep_view(), all, i + 1, all.len() as int);
                }
                return Err(e);
            },
        };
        match cellxml::collect_shared_string_refs(&sheets[i].name, &t, &mut usage, &mut refs) {
            Ok(_) => {},
            Err(e) => {
                proof {
                    lemma_uses_stay_failed(list.deep_view(), all, i + 1, all.len() as int);
                }
                return Err(e);
            },
        }
        i = i + 1;
    }
    Ok((usage, refs))
}

/// Whether a cell is kept as text, whatever its value looks like.
pub open spec fn forced_text(m: EngineModel, k: Key<Seq<char>>) -> bool {
    match entries::get(m.meta, k) {
        Some(r) => values::semantic_type(r.cell_type, r.number_format) == "string"@,
        None => false,
    }
}

impl SheetShadowEngine {
    fn is_forced_text(&self, k: &Key) -> (r: bool)
        ensures
            r == forced_text(self.deep_view(), k.deep_view()),
    {
        match entries::map_get(&self.meta, k) {
            Some(meta) => text::same(&values::infer_semantic_type(meta), "string"),
            None => false,
        }
    }
}

pub open spec fn use_count(usage: UsageModel, index: usize) -> usize {
    match entries::get(usage, index) {
        Some(n) => n,
        None => 0,
    }
}

/// The plan once a changed cell was looked at. A cell of its own shared string changes the
/// string; one that shares it with others stands in the way or is left out, by the policy.
pub open spec fn planned(
    m: EngineModel,
    uses: (UsageModel, SharedRefsModel),
    policy: SharedStringPolicy,
    plan: PlanModel,
    k: Key<Seq<char>>,
) -> Fallible<PlanModel> {
    let value = engine::value_or_empty(m.cells, k);
    if entries::get(m.formulas, k) is Some {
        Ok(plan)
    } else {
        match entries::get(uses.1, k) {
            None => Ok(plan),
            Some(index) => if numbers::is_number(value) && !forced_text(m, k) {
                Ok(plan)
            } else if use_count(uses.0, index) == 1 {
                Ok(
                    SharedStringPatchPlan {
                        updates: entries::put(plan.updates, index, value),
                        cell_indices: entries::put(plan.cell_indices, k, index),
                    },
                )
            } else if policy == SharedStringPolicy::UpdateUnique {
                Err(
                    coord::value_error(
                        "shared_string_policy: shared string index "@ + text::decimal(
                            index as nat,
                        ) + " is referenced by "@ + text::decimal(use_count(uses.0, index) as nat)
                            + " cells"@,
                    ),
                )
            } else {
                Ok(plan)
            },
        }
    }
}

/// The plan after the first `n` changed cells.
pub open spec fn plan_of(
    m: EngineModel,
    uses: (UsageModel, SharedRefsModel),
    policy: SharedStringPolicy,
    keys: Keys,
    n: int,
) -> Fallible<PlanModel>
    decreases n,
{
    if n <= 0 {
        Ok(no_plan())
    } else {
        match plan_of(m, uses, policy, keys, n - 1) {
            Err(e) => Err(e),
            Ok(plan) => planned(m, uses, policy, plan, keys[n - 1]),
        }
    }
}

proof fn lemma_plan_stays_failed(
    m: EngineModel,
    uses: (UsageModel, SharedRefsModel),
    policy: SharedStringPolicy,
    keys: Keys,
    i: int,
    n: int,
)
    requires
        0 <= i <= n,
        plan_of(m, uses, policy, keys, i) is Err,
    ensures
        plan_of(m, uses, policy, keys, n) == plan_of(m, uses, policy, keys, i),
    decreases n,
{
    if i < n {
        lemma_plan_stays_failed(m, uses, policy, keys, i, n - 1);
    }
}

/// The cells that changed, each as often as it was noted.
pub open spec fn noted_keys(m: EngineModel) -> Keys {
    m.modified + m.dirty
}

pub open spec fn shared_plan(m: EngineModel, list: Seq<EntryModel>, policy: SharedStringPolicy) -> Fallible<
    PlanModel,
> {
    if policy == SharedStringPolicy::Preserve {
        Ok(no_plan())
    } else {
        match string_uses(list, m.sheets, m.sheets.len() as int) {
            Err(e) => Err(e),
            Ok(uses) => plan_of(m, uses, policy, noted_keys(m), noted_keys(m).len() as int),
        }
    }
}

impl SheetShadowEngine {
    fn noted_key_list(&self) -> (r: Vec<Key>)
        ensures
            r.deep_view() == noted_keys(self.deep_view()),
    {
        let mut out = self.modified.copied();
        let mut more = self.dirty.copied();
        let ghost a = out.deep_view();
        let ghost b = more.deep_view();
        out.append(&mut more);
        assert(out.deep_view() == a + b);
        out
    }

    fn plan_for_key(
        &self,
        usage: &Vec<(usize, usize)>,
        refs: &Vec<(Key, usize)>,
        policy: SharedStringPolicy,
        plan: &mut SharedStringPatchPlan,
        k: &Key,
    ) -> (r: Result<(), ShadowError>)
        ensures
            match planned(
                self.deep_view(),
                (usage.deep_view(), refs.deep_view()),
                policy,
                old(plan).deep_view(),
                k.deep_view(),
            ) {
                Ok(next) => r is Ok && final(plan).deep_view() == next,
                Err(e) => r is Err && r->Err_0.deep_view() == e,
            },
    {
        if entries::map_has(&self.formulas, k) {
            return Ok(());
        }
        let index = match entries::map_get(refs, k) {
            Some(index) => *index,
            None => return Ok(()),
        };
        let value = engine::cell_or_empty(&self.cells, k);
        if numbers::number(&value) && !self.is_forced_text(k) {
            return Ok(());
        }
        let count = match entries::map_get(usage, &index) {
            Some(n) => *n,
            None => 0,
        };
        if count == 1 {
            entries::map_put(&mut plan.updates, index, value);
            entries::map_put(&mut plan.cell_indices, k.clone(), index);
            return Ok(());
        }
        if policy == SharedStringPolicy::UpdateUnique {
            let mut m = "shared_string_policy: shared string index ".to_owned();
            m.append(&text::size_text(index));
            m.append(" is referenced by ");
            m.append(&text::size_text(count));
            m.append(" cells");
            return Err(ShadowError::Value(m));
        }
        Ok(())
    }

    /// Which shared strings change with the cells that changed.
    pub fn build_shared_string_patch_plan(&self, list: &Vec<Entry>, policy: SharedStringPolicy) -> (r:
        Result<SharedStringPatchPlan, ShadowError>)
        ensures
            coord::outcome(r) == shared_plan(self.deep_view(), list.deep_view(), policy),
    {
        let mut plan = empty_plan();
        if policy == SharedStringPolicy::Preserve {
            return Ok(plan);
        }
        assert(self.sheets.deep_view().len() == self.sheets.len());
        let (usage, refs) = match collect_uses(list, &self.sheets) {
            Ok(found) => found,
            Err(e) => return Err(e),
        };
        let ghost m = self.deep_view();
        let ghost uses = (usage.deep_view(), refs.deep_view());
        let keys = self.noted_key_list();
        let ghost all = keys.deep_view();
        let mut i: usize = 0;
        while i < keys.len()
            invariant
                i <= keys.len(),
                all == keys.deep_view(),
                all == noted_keys(m),
                m == self.deep_view(),
                uses == (usage.deep_view(), refs.deep_view()),
                plan_of(m, uses, policy, all, i as int) == Ok::<PlanModel, ShadowError<Seq<char>>>(
                    plan.deep_view(),
                ),
            decreases keys.len() - i,
        {
            assert(all[i as int] == keys@[i as int].deep_view());
            match self.plan_for_key(&usage, &refs, policy, &mut plan, &keys[i]) {
                Ok(_) => {},
                Err(e) => {
                    proof {
                        lemma_plan_stays_failed(m, uses, policy, all, i + 1, all.len() as int);
                    }
                    return Err(e);
                },
            }
            i = i + 1;
        }
        Ok(plan)
    }
}

// ----- Sheets -----

pub open spec fn keys_on(s: Keys, sheet: Seq<char>) -> Keys
    decreases s.len(),
{
    if s.len() == 0 {
        s
    } else if s.last().sheet == sheet {
        keys_on(s.drop_last(), sheet).push(s.last())
    } else {
        keys_on(s.drop_last(), sheet)
    }
}

fn keys_of_sheet(v: &Vec<Key>, sheet: &str) -> (r: Vec<Key>)
    ensures
        r.deep_view() == keys_on(v.deep_view(), sheet@),
{
    let ghost all = v.deep_view();
    let mut out: Vec<Key> = Vec::new();
    let mut i: usize = 0;
    assert(out.deep_view() == Keys::empty());
    assert(all.take(0) == Keys::empty());
    while i < v.len()
        invariant
            i <= v.len(),
            all == v.deep_view(),
            out.deep_view() == keys_on(all.take(i as int), sheet@),
        decreases v.len() - i,
    {
        assert(all.take(i + 1).drop_last() == all.take(i as int));
        assert(all.take(i + 1).last() == v@[i as int].deep_view());
        if text::same(&v[i].sheet, sheet) {
            let ghost done = out.deep_view();
            let k = v[i].clone();
            out.push(k);
            assert(out.deep_view() == done.push(k.deep_view()));
        }
        i = i + 1;
    }
    assert(all.take(all.len() as int) == all);
    out
}

/// A list without repetitions that follow on each other.
pub open spec fn runs_once(s: Keys) -> Keys
    decreases s.len(),
{
    if s.len() == 0 {
        s
    } else {
        let done = runs_once(s.drop_last());
        if done.len() > 0 && done.last() == s.last() {
            done
        } else {
            done.push(s.last())
        }
    }
}

fn dedup_keys(v: &Vec<Key>) -> (r: Vec<Key>)
    ensures
        r.deep_view() == runs_once(v.deep_view()),
{
    let ghost all = v.deep_view();
    let mut out: Vec<Key> = Vec::new();
    let mut i: usize = 0;
    assert(out.deep_view() == Keys::empty());
    assert(all.take(0) == Keys::empty());
    while i < v.len()
        invariant
            i <= v.len(),
            all == v.deep_view(),
            out.deep_view() == runs_once(all.take(i as int)),
        decreases v.len() - i,
    {
        assert(all.take(i + 1).drop_last() == all.take(i as int));
        assert(all.take(i + 1).last() == v@[i as int].deep_view());
        let ghost done = out.deep_view();
        assert(done.len() == out.len());
        let known = out.len() > 0 && out[out.len() - 1].alike(&v[i]);
        if !known {
            let k = v[i].clone();
            out.push(k);
            assert(out.deep_view() == done.push(k.deep_view()));
        }
        i = i + 1;
    }
    assert(all.take(all.len() as int) == all);
    out
}

/// The changed cells of a sheet, each once, by row and column.
pub open spec fn changed_keys(m: EngineModel, sheet: Seq<char>) -> Keys {
    runs_once(recalc::sorted_keys(keys_on(noted_keys(m), sheet)))
}

/// What is written into a changed cell.
pub open spec fn write_for(m: EngineModel, plan: PlanModel, k: Key<Seq<char>>) -> CellWriteModel {
    CellWrite {
        value: engine::value_or_empty(m.cells, k),
        formula: match entries::get(m.formulas, k) {
            Some(f) => Some(f.formula),
            None => None,
        },
        shared: entries::get(plan.cell_indices, k),
        inline: forced_text(m, k),
        style: match entries::get(m.meta, k) {
            Some(r) => r.style_id,
            None => None,
        },
    }
}

/// The text of a sheet after the first `n` changed cells were written.
pub open spec fn cells_written(
    m: EngineModel,
    plan: PlanModel,
    s: Seq<char>,
    keys: Keys,
    n: int,
) -> Fallible<Seq<char>>
    decreases n,
{
    if n <= 0 {
        Ok(s)
    } else {
        match cells_written(m, plan, s, keys, n - 1) {
            Err(e) => Err(e),
            Ok(t) => cellxml::cell_patched(
                t,
                coord::a1_text(keys[n - 1].row, keys[n - 1].col),
                keys[n - 1].row,
                keys[n - 1].col,
                write_for(m, plan, keys[n - 1]),
            ),
        }
    }
}

proof fn lemma_writing_stays_failed(
    m: EngineModel,
    plan: PlanModel,
    s: Seq<char>,
    keys: Keys,
    i: int,
    n: int,
)
    requires
        0 <= i <= n,
        cells_written(m, plan, s, keys, i) is Err,
    ensures
        cells_written(m, plan, s, keys, n) == cells_written(m, plan, s, keys, i),
    decreases n,
{
    if i < n {
        lemma_writing_stays_failed(m, plan, s, keys, i, n - 1);
    }
}

/// The text of a sheet with its lines moved, where lines were moved.
pub open spec fn moved_text(m: EngineModel, sheet: Seq<char>, s: Seq<char>) -> Fallible<Seq<char>> {
    if m.structural_dirty_sheets.contains(sheet) {
        sheetxml::structure_patched(s, sheet, m.structural_edits)
    } else {
        Ok(s)
    }
}

pub open spec fn ruled_text(m: EngineModel, sheet: Seq<char>, s: Seq<char>) -> Fallible<Seq<char>> {
    if m.object_dirty_sheets.contains(sheet) || m.structural_dirty_sheets.contains(sheet) {
        sheetxml::rules_patched(
            s,
            sheet,
            m.data_validations,
            m.auto_filters,
            m.conditional_formats,
        )
    } else {
        Ok(s)
    }
}

pub open spec fn sparkled_text(m: EngineModel, sheet: Seq<char>, s: Seq<char>) -> Fallible<Seq<char>> {
    if m.sparkline_dirty_sheets.contains(sheet) {
        partxml::sparklines_patched(s, sheet, m.high_risk_objects, m.sparkline_dirty_objects)
    } else {
        Ok(s)
    }
}

pub open spec fn merged_text(m: EngineModel, sheet: Seq<char>, s: Seq<char>) -> Fallible<Seq<char>> {
    if m.merge_dirty_sheets.contains(sheet) {
        sheetxml::merges_patched(
            s,
            match entries::get(m.merges, sheet) {
                Some(ranges) => ranges,
                None => Seq::empty(),
            },
        )
    } else {
        Ok(s)
    }
}

/// The text of a sheet with all its changes: moved lines, changed cells, rules, sparklines
/// and merges, in this order.
pub open spec fn sheet_saved(m: EngineModel, plan: PlanModel, sheet: Seq<char>, s: Seq<char>) -> Fallible<
    Seq<char>,
> {
    let keys = changed_keys(m, sheet);
    match moved_text(m, sheet, s) {
        Err(e) => Err(e),
        Ok(a) => match cells_written(m, plan, a, keys, keys.len() as int) {
            Err(e) => Err(e),
            Ok(b) => match ruled_text(m, sheet, b) {
                Err(e) => Err(e),
                Ok(c) => match sparkled_text(m, sheet, c) {
                    Err(e) => Err(e),
                    Ok(d) => merged_text(m, sheet, d),
                },
            },
        },
    }
}

impl SheetShadowEngine {
    fn write_for_key(&self, plan: &SharedStringPatchPlan, k: &Key) -> (r: CellWrite)
        ensures
            r.deep_view() == write_for(self.deep_view(), plan.deep_view(), k.deep_view()),
    {
        CellWrite {
            value: engine::cell_or_empty(&self.cells, k),
            formula: match entries::map_get(&self.formulas, k) {
                Some(f) => Some(f.formula.clone()),
                None => None,
            },
            shared: match entries::map_get(&plan.cell_indices, k) {
                Some(n) => Some(*n),
                None => None,
            },
            inline: self.is_forced_text(k),
            style: match entries::map_get(&self.meta, k) {
                Some(meta) => meta.style_id,
                None => None,
            },
        }
    }

    #[verifier::rlimit(40)]
    #[verifier::spinoff_prover]
    fn write_cells(&self, plan: &SharedStringPatchPlan, s: &str, keys: &Vec<Key>) -> (r: Result<
        String,
        ShadowError,
    >)
        ensures
            coord::outcome(r) == cells_written(
                self.deep_view(),
                plan.deep_view(),
                s@,
                keys.deep_view(),
                keys.deep_view().len() as int,
            ),
    {
        let ghost m = self.deep_view();
        let ghost all = keys.deep_view();
        let mut t = s.to_owned();
        let mut i: usize = 0;
        while i < keys.len()
            invariant
                i <= keys.len(),
                all == keys.deep_view(),
                m == self.deep_view(),
                cells_written(m, plan.deep_view(), s@, all, i as int) == Ok::<
                    Seq<char>,
                    ShadowError<Seq<char>>,
                >(t@),
            decreases keys.len() - i,
        {
            assert(all[i as int] == keys@[i as int].deep_view());
            let k = &keys[i];
            let name = coord::cell_name(k.row, k.col);
            let w = self.write_for_key(plan, k);
            match cellxml::patch_cell(&t, &name, k.row, k.col, &w) {
                Ok(next) => {
                    t = next;
                },
                Err(e) => {
                    proof {
                        lemma_writing_stays_failed(
                            m,
                            plan.deep_view(),
                            s@,
                            all,
                            i + 1,
                            all.len() as int,
                        );
                    }
                    return Err(e);
                },
            }
            i = i + 1;
        }
        Ok(t)
    }

    /// The text of a sheet with its changes.
    pub fn patch_sheet_xml(&self, sheet_name: &str, s: &str, plan: &SharedStringPatchPlan) -> (r: Result<
        String,
        ShadowError,
    >)
        requires
            self.deep_view().wf(),
        ensures
            coord::outcome(r) == sheet_saved(
                self.deep_view(),
                plan.deep_view(),
                sheet_name@,
                s@,
            ),
    {
        let name = sheet_name.to_owned();
        let moved = entries::set_has(&self.structural_dirty_sheets, &name);
        let mut t = s.to_owned();
        if moved {
            t = match sheetxml::patch_worksheet_structure_xml(
                s,
                sheet_name,
                &self.structural_edits,
            ) {
                Ok(t) => t,
                Err(e) => return Err(e),
            };
        }
        let keys = dedup_keys(
            &recalc::sort_keys(&keys_of_sheet(&self.noted_key_list(), sheet_name)),
        );
        t = match self.write_cells(plan, &t, &keys) {
            Ok(t) => t,
            Err(e) => return Err(e),
        };
        if moved || entries::set_has(&self.object_dirty_sheets, &name) {
            t = match sheetxml::patch_sheet_objects_xml(
                &t,
                sheet_name,
                &self.data_validations,
                &self.auto_filters,
                &self.conditional_formats,
            ) {
                Ok(t) => t,
                Err(e) => return Err(e),
            };
        }
        if entries::set_has(&self.sparkline_dirty_sheets, &name) {
            t = match partxml::patch_sparkline_source_xml(
                &t,
                sheet_name,
                &self.high_risk_objects,
                &self.sparkline_dirty_objects,
            ) {
                Ok(t) => t,
                Err(e) => return Err(e),
            };
        }
        if entries::set_has(&self.merge_dirty_sheets, &name) {
            let ranges = match entries::map_get(&self.merges, &name) {
                Some(ranges) => ranges.copied(),
                None => Vec::new(),
            };
            assert(entries::get(self.deep_view().merges, sheet_name@) is None
                ==> ranges.deep_view() == Seq::<Seq<char>>::empty());
            return sheetxml::patch_merge_cells_xml(&t, ranges);
        }
        Ok(t)
    }
}

// ----- Where parts stand -----

/// The sheet of each sheet part, of the first `n` sheets.
pub open spec fn parts_of_sheets(sheets: SheetsModel, n: int) -> FieldsModel
    decreases n,
{
    if n <= 0 {
        Seq::empty()
    } else {
        entries::put(parts_of_sheets(sheets, n - 1), sheets[n - 1].path, sheets[n - 1].name)
    }
}

/// The part that the comments of a sheet without one go to, by the number of the sheet.
pub open spec fn comment_path(n: nat) -> Seq<char> {
    "xl/comments/comment"@ + text::decimal(n) + ".xml"@
}

/// The part that the comments of the `n`-th sheet go to: the one that its relationships
/// name, where they name one.
pub open spec fn comments_place(m: EngineModel, list: Seq<EntryModel>, n: int) -> Seq<char> {
    let path = m.sheets[n - 1].path;
    match entry_text(list, package::rels_path(path)) {
        Ok(rels) => match highrisk::comments_part(rels, path) {
            Some(part) => part,
            None => comment_path(n as nat),
        },
        Err(_) => comment_path(n as nat),
    }
}

/// The part that the comments of each sheet with changed comments go to, of the first `n`
/// sheets.
pub open spec fn comment_parts(m: EngineModel, list: Seq<EntryModel>, n: int) -> FieldsModel
    decreases n,
{
    if n <= 0 {
        Seq::empty()
    } else if m.comment_dirty_sheets.contains(m.sheets[n - 1].name) {
        entries::put(
            comment_parts(m, list, n - 1),
            m.sheets[n - 1].name,
            comments_place(m, list, n),
        )
    } else {
        comment_parts(m, list, n - 1)
    }
}

/// The sheet of each part that holds the relationships of a sheet with changed comments, of
/// the first `n` sheets.
pub open spec fn rels_of_sheets(m: EngineModel, n: int) -> FieldsModel
    decreases n,
{
    if n <= 0 {
        Seq::empty()
    } else if m.comment_dirty_sheets.contains(m.sheets[n - 1].name) {
        entries::put(
            rels_of_sheets(m, n - 1),
            package::rels_path(m.sheets[n - 1].path),
            m.sheets[n - 1].name,
        )
    } else {
        rels_of_sheets(m, n - 1)
    }
}

/// Where the parts of the sheets stand.
#[verifier::ext_equal]
pub struct Places<M> {
    pub sheets: M,
    pub comments: M,
    pub rels: M,
}

pub open spec fn places(m: EngineModel, list: Seq<EntryModel>) -> Places<FieldsModel> {
    Places {
        sheets: parts_of_sheets(m.sheets, m.sheets.len() as int),
        comments: comment_parts(m, list, m.sheets.len() as int),
        rels: rels_of_sheets(m, m.sheets.len() as int),
    }
}

impl DeepView for Places<Vec<(String, String)>> {
    type V = Places<FieldsModel>;

    open spec fn deep_view(&self) -> Places<FieldsModel> {
        Places {
            sheets: self.sheets.deep_view(),
            comments: self.comments.deep_view(),
            rels: self.rels.deep_view(),
        }
    }
}

impl SheetShadowEngine {
    fn place_of_comments(&self, list: &Vec<Entry>, i: usize) -> (r: String)
        requires
            i < self.sheets.len(),
        ensures
            r@ == comments_place(self.deep_view(), list.deep_view(), i + 1),
    {
        let sheet = &self.sheets[i];
        assert(self.deep_view().sheets[i as int] == self.sheets@[i as int].deep_view());
        match read_entry(list, &package::rels_path_for_part(&sheet.path)) {
            Ok(rels) => match highrisk::comments_part_of(&rels, &sheet.path) {
                Some(part) => return part,
                None => {},
            },
            Err(_) => {},
        }
        let mut path = "xl/comments/comment".to_owned();
        path.append(&text::size_text(i + 1));
        path.append(".xml");
        path
    }

    fn find_places(&self, list: &Vec<Entry>) -> (r: Places<Vec<(String, String)>>)
        ensures
            r.deep_view() == places(self.deep_view(), list.deep_view()),
    {
        let ghost m = self.deep_view();
        let ghost all = list.deep_view();
        let mut sheets: Vec<(String, String)> = Vec::new();
        let mut comments: Vec<(String, String)> = Vec::new();
        let mut rels: Vec<(String, String)> = Vec::new();
        assert(sheets.deep_view() == FieldsModel::empty());
        assert(comments.deep_view() == FieldsModel::empty());
        assert(rels.deep_view() == FieldsModel::empty());
        let mut i: usize = 0;
        while i < self.sheets.len()
            invariant
                i <= self.sheets.len(),
                m == self.deep_view(),
                all == list.deep_view(),
                sheets.deep_view() == parts_of_sheets(m.sheets, i as int),
                comments.deep_view() == comment_parts(m, all, i as int),
                rels.deep_view() == rels_of_sheets(m, i as int),
            decreases self.sheets.len() - i,
        {
            assert(m.sheets[i as int] == self.sheets@[i as int].deep_view());
            let sheet = &self.sheets[i];
            entries::map_put(&mut sheets, sheet.path.clone(), sheet.name.clone());
            if entries::set_has(&self.comment_dirty_sheets, &sheet.name) {
                let place = self.place_of_comments(list, i);
                entries::map_put(&mut comments, sheet.name.clone(), place);
                entries::map_put(
                    &mut rels,
                    package::rels_path_for_part(&sheet.path),
                    sheet.name.clone(),
                );
            }
            i = i + 1;
        }
        Places { sheets, comments, rels }
    }
}

/// The first entry from `i` on with the given value.
pub open spec fn valued_from(s: FieldsModel, value: Seq<char>, i: int) -> Option<Seq<char>>
    decreases s.len() - i,
{
    if i < 0 || i >= s.len() {
        None
    } else if s[i].1 == value {
        Some(s[i].0)
    } else {
        valued_from(s, value, i + 1)
    }
}

fn find_valued(v: &Vec<(String, String)>, value: &str) -> (r: Option<String>)
    ensures
        r.deep_view() == valued_from(v.deep_view(), value@, 0),
{
    let ghost all = v.deep_view();
    let mut i: usize = 0;
    while i < v.len()
        invariant
            i <= v.len(),
            all == v.deep_view(),
            valued_from(all, value@, 0) == valued_from(all, value@, i as int),
        decreases v.len() - i,
    {
        assert(all[i as int] == v@[i as int].deep_view());
        if text::same(&v[i].1, value) {
            return Some(v[i].0.clone());
        }
        i = i + 1;
    }
    None
}

pub open spec fn table_at(s: Seq<TableModel>, path: Seq<char>, i: int) -> Option<TableModel>
    decreases s.len() - i,
{
    if i < 0 || i >= s.len() {
        None
    } else if s[i].path == path {
        Some(s[i])
    } else {
        table_at(s, path, i + 1)
    }
}

fn find_table<'a>(v: &'a Vec<TableInfo>, path: &str) -> (r: Option<&'a TableInfo>)
    ensures
        r.deep_view() == table_at(v.deep_view(), path@, 0),
{
    let ghost all = v.deep_view();
    let mut i: usize = 0;
    while i < v.len()
        invariant
            i <= v.len(),
            all == v.deep_view(),
            table_at(all, path@, 0) == table_at(all, path@, i as int),
        decreases v.len() - i,
    {
        assert(all[i as int] == v@[i as int].deep_view());
        if text::same(&v[i].path, path) {
            return Some(&v[i]);
        }
        i = i + 1;
    }
    None
}

pub open spec fn pivot_at(s: HighRiskModel, path: Seq<char>, i: int) -> Option<
    HighRiskObject<Seq<char>>,
>
    decreases s.len() - i,
{
    if i < 0 || i >= s.len() {
        None
    } else if s[i].object_type == "pivot_table"@ && s[i].target_path == path {
        Some(s[i])
    } else {
        pivot_at(s, path, i + 1)
    }
}

fn find_pivot<'a>(v: &'a Vec<HighRiskObject>, path: &str) -> (r: Option<&'a HighRiskObject>)
    ensures
        r.deep_view() == pivot_at(v.deep_view(), path@, 0),
{
    let ghost all = v.deep_view();
    let mut i: usize = 0;
    while i < v.len()
        invariant
            i <= v.len(),
            all == v.deep_view(),
            pivot_at(all, path@, 0) == pivot_at(all, path@, i as int),
        decreases v.len() - i,
    {
        assert(all[i as int] == v@[i as int].deep_view());
        if text::same(&v[i].object_type, "pivot_table") && text::same(&v[i].target_path, path) {
            return Some(&v[i]);
        }
        i = i + 1;
    }
    None
}

// ----- Entries -----

/// What an entry is to the shadow; the first that fits counts.
pub enum Role {
    ContentTypes,
    Workbook,
    Styles,
    Sheet,
    Table,
    Drawing,
    Chart,
    Pivot,
    Image,
    Embedded,
    Relationships,
    Comments,
    SharedStrings,
    Untouched,
}

pub open spec fn role(
    m: EngineModel,
    plan: PlanModel,
    list: Seq<EntryModel>,
    name: Seq<char>,
) -> Role {
    let at = places(m, list);
    if name == "[Content_Types].xml"@ && m.comment_dirty_sheets.len() > 0 {
        Role::ContentTypes
    } else if name == "xl/workbook.xml"@ && m.workbook_dirty {
        Role::Workbook
    } else if name == "xl/styles.xml"@ && m.style_patches.len() > 0 {
        Role::Styles
    } else if entries::get(at.sheets, name) is Some {
        Role::Sheet
    } else if m.table_dirty_paths.contains(name) {
        Role::Table
    } else if m.drawing_dirty_paths.contains(name) {
        Role::Drawing
    } else if entries::get(m.chart_title_updates, name) is Some || entries::get(
        m.chart_source_updates,
        name,
    ) is Some {
        Role::Chart
    } else if m.pivot_dirty_paths.contains(name) {
        Role::Pivot
    } else if entries::get(m.image_replacements, name) is Some {
        Role::Image
    } else if entries::get(m.ole_replacements, name) is Some {
        Role::Embedded
    } else if entries::get(at.rels, name) is Some {
        Role::Relationships
    } else if valued_from(at.comments, name, 0) is Some {
        Role::Comments
    } else if name == "xl/sharedStrings.xml"@ && plan.updates.len() > 0 {
        Role::SharedStrings
    } else {
        Role::Untouched
    }
}

pub open spec fn comments_text(m: EngineModel, sheet: Seq<char>) -> Seq<char> {
    partxml::comments_document(partxml::sheet_comments(m.comments, sheet))
}

/// The text of an entry that is changed as text.
pub open spec fn text_saved(
    m: EngineModel,
    plan: PlanModel,
    list: Seq<EntryModel>,
    name: Seq<char>,
    s: Seq<char>,
) -> Fallible<
    Seq<char>,
> {
    let at = places(m, list);
    match role(m, plan, list, name) {
        Role::ContentTypes => partxml::types_patched(s, at.comments),
        Role::Workbook => partxml::workbook_patched(s, m.sheets, m.defined_names),
        Role::Styles => styles::styles_patched(s, m.style_patches),
        Role::Sheet => sheet_saved(m, plan, entries::get(at.sheets, name)->Some_0, s),
        Role::Table => match table_at(m.tables, name, 0) {
            None => Err(coord::value_error("table_patch: dirty table not found"@)),
            Some(t) => sheetxml::table_patched(s, t),
        },
        Role::Drawing => partxml::drawing_patched(
            s,
            name,
            m.drawing_objects,
            m.drawing_text_updates,
        ),
        Role::Chart => partxml::chart_patched(
            s,
            entries::get(m.chart_title_updates, name),
            entries::get(m.chart_source_updates, name),
        ),
        Role::Pivot => match pivot_at(m.high_risk_objects, name, 0) {
            None => Err(coord::value_error("pivot_patch: dirty pivot object not found"@)),
            Some(o) => partxml::pivot_patched(s, o),
        },
        Role::Relationships => match entries::get(
            at.comments,
            entries::get(at.rels, name)->Some_0,
        ) {
            None => Err(coord::value_error("comment_patch: missing comments part path"@)),
            Some(part) => partxml::rels_patched(s, part),
        },
        Role::SharedStrings => cellxml::shared_patched(s, plan.updates),
        _ => Ok(s),
    }
}

/// What is written for an entry of the source.
pub open spec fn entry_saved(
    m: EngineModel,
    plan: PlanModel,
    list: Seq<EntryModel>,
    e: EntryModel,
) -> Fallible<ContentModel> {
    match role(m, plan, list, e.name) {
        Role::Image => instead(
            e,
            Content::Bytes(entries::get(m.image_replacements, e.name)->Some_0),
        ),
        Role::Embedded => instead(
            e,
            Content::Bytes(entries::get(m.ole_replacements, e.name)->Some_0),
        ),
        Role::Comments => instead(
            e,
            Content::Text(
                comments_text(m, valued_from(places(m, list).comments, e.name, 0)->Some_0),
            ),
        ),
        Role::Untouched => copied_entry(e),
        _ => match text_of(e) {
            Err(x) => Err(x),
            Ok(s) => as_text(text_saved(m, plan, list, e.name, s)),
        },
    }
}

impl SheetShadowEngine {
    fn role_of(
        &self,
        plan: &SharedStringPatchPlan,
        at: &Places<Vec<(String, String)>>,
        list: &Vec<Entry>,
        name: &String,
    ) -> (r: Role)
        requires
            at.deep_view() == places(self.deep_view(), list.deep_view()),
        ensures
            r == role(self.deep_view(), plan.deep_view(), list.deep_view(), name@),
    {
        assert(self.comment_dirty_sheets.deep_view().len() == self.comment_dirty_sheets.len());
        assert(self.style_patches.deep_view().len() == self.style_patches.len());
        assert(plan.updates.deep_view().len() == plan.updates.len());
        if text::same(name, "[Content_Types].xml") && self.comment_dirty_sheets.len() > 0 {
            Role::ContentTypes
        } else if text::same(name, "xl/workbook.xml") && self.workbook_dirty {
            Role::Workbook
        } else if text::same(name, "xl/styles.xml") && self.style_patches.len() > 0 {
            Role::Styles
        } else if entries::map_has(&at.sheets, name) {
            Role::Sheet
        } else if entries::set_has(&self.table_dirty_paths, name) {
            Role::Table
        } else if entries::set_has(&self.drawing_dirty_paths, name) {
            Role::Drawing
        } else if entries::map_has(&self.chart_title_updates, name) || entries::map_has(
            &self.chart_source_updates,
            name,
        ) {
            Role::Chart
        } else if entries::set_has(&self.pivot_dirty_paths, name) {
            Role::Pivot
        } else if entries::map_has(&self.image_replacements, name) {
            Role::Image
        } else if entries::map_has(&self.ole_replacements, name) {
            Role::Embedded
        } else if entries::map_has(&at.rels, name) {
            Role::Relationships
        } else if find_valued(&at.comments, name).is_some() {
            Role::Comments
        } else if text::same(name, "xl/sharedStrings.xml") && plan.updates.len() > 0 {
            Role::SharedStrings
        } else {
            Role::Untouched
        }
    }

    fn save_text(
        &self,
        plan: &SharedStringPatchPlan,
        at: &Places<Vec<(String, String)>>,
        list: &Vec<Entry>,
        name: &String,
        s: String,
    ) -> (r: Result<String, ShadowError>)
        requires
            self.deep_view().wf(),
            at.deep_view() == places(self.deep_view(), list.deep_view()),
        ensures
            coord::outcome(r) == text_saved(
                self.deep_view(),
                plan.deep_view(),
                list.deep_view(),
                name@,
                s@,
            ),
    {
        match self.role_of(plan, at, list, name) {
            Role::ContentTypes => partxml::patch_content_types_for_comments(&s, &at.comments),
            Role::Workbook => partxml::patch_workbook_xml(&s, &self.sheets, &self.defined_names),
            Role::Styles => styles::patch_styles_xml(&s, &self.style_patches),
            Role::Sheet => match entries::map_get(&at.sheets, name) {
                Some(sheet) => self.patch_sheet_xml(sheet, &s, plan),
                None => Ok(s),
            },
            Role::Table => match find_table(&self.tables, name) {
                None => Err(coord::refuse("table_patch: dirty table not found")),
                Some(t) => sheetxml::patch_table_xml(&s, t),
            },
            Role::Drawing => partxml::patch_drawing_xml(
                &s,
                name,
                &self.drawing_objects,
                &self.drawing_text_updates,
            ),
            Role::Chart => partxml::patch_chart_xml(
                &s,
                entries::map_get(&self.chart_title_updates, name),
                entries::map_get(&self.chart_source_updates, name),
            ),
            Role::Pivot => match find_pivot(&self.high_risk_objects, name) {
                None => Err(coord::refuse("pivot_patch: dirty pivot object not found")),
                Some(o) => partxml::patch_pivot_table_xml(&s, o),
            },
            Role::Relationships => match entries::map_get(&at.rels, name) {
                Some(sheet) => match entries::map_get(&at.comments, sheet) {
                    Some(part) => partxml::patch_sheet_rels_for_comments(&s, part),
                    None => Err(coord::refuse("comment_patch: missing comments part path")),
                },
                None => Ok(s),
            },
            Role::SharedStrings => cellxml::patch_shared_strings_xml(&s, &plan.updates),
            _ => Ok(s),
        }
    }

    fn comments_xml(&self, sheet: &str) -> (r: String)
        ensures
            r@ == comments_text(self.deep_view(), sheet@),
    {
        partxml::build_comments_xml(&partxml::comments_on(&self.comments, sheet))
    }

    fn save_entry(
        &self,
        plan: &SharedStringPatchPlan,
        at: &Places<Vec<(String, String)>>,
        list: &Vec<Entry>,
        e: &Entry,
    ) -> (r: Result<Content, ShadowError>)
        requires
            self.deep_view().wf(),
            at.deep_view() == places(self.deep_view(), list.deep_view()),
        ensures
            coord::outcome(r) == entry_saved(
                self.deep_view(),
                plan.deep_view(),
                list.deep_view(),
                e.deep_view(),
            ),
    {
        match self.role_of(plan, at, list, &e.name) {
            Role::Image => match data_in(e) {
                Err(x) => Err(x),
                Ok(data) => match entries::map_get(&self.image_replacements, &e.name) {
                    Some(bytes) => Ok(Content::Bytes(bytes.copied())),
                    None => Ok(Content::Bytes(data)),
                },
            },
            Role::Embedded => match data_in(e) {
                Err(x) => Err(x),
                Ok(data) => match entries::map_get(&self.ole_replacements, &e.name) {
                    Some(bytes) => Ok(Content::Bytes(bytes.copied())),
                    None => Ok(Content::Bytes(data)),
                },
            },
            Role::Comments => match data_in(e) {
                Err(x) => Err(x),
                Ok(data) => match find_valued(&at.comments, &e.name) {
                    Some(sheet) => Ok(Content::Text(self.comments_xml(&sheet))),
                    None => Ok(Content::Bytes(data)),
                },
            },
            Role::Untouched => match data_in(e) {
                Err(x) => Err(x),
                Ok(data) => Ok(Content::Bytes(data)),
            },
            _ => match text_in(e) {
                Err(x) => Err(x),
                Ok(s) => wrap_text(self.save_text(plan, at, list, &e.name, s)),
            },
        }
    }
}

// ----- The whole package -----

pub type Saved = Seq<(Seq<char>, ContentModel)>;

/// What is written for the first `n` entries of the source.
pub open spec fn source_saved(m: EngineModel, plan: PlanModel, list: Seq<EntryModel>, n: int) -> Fallible<
    Saved,
>
    decreases n,
{
    if n <= 0 {
        Ok(Seq::empty())
    } else {
        match source_saved(m, plan, list, n - 1) {
            Err(x) => Err(x),
            Ok(done) => match entry_saved(m, plan, list, list[n - 1]) {
                Err(x) => Err(x),
                Ok(c) => Ok(done.push((list[n - 1].name, c))),
            },
        }
    }
}

proof fn lemma_saving_stays_failed(
    m: EngineModel,
    plan: PlanModel,
    list: Seq<EntryModel>,
    i: int,
    n: int,
)
    requires
        0 <= i <= n,
        source_saved(m, plan, list, i) is Err,
    ensures
        source_saved(m, plan, list, n) == source_saved(m, plan, list, i),
    decreases n,
{
    if i < n {
        lemma_saving_stays_failed(m, plan, list, i, n - 1);
    }
}

/// What is written anew for the comments of a sheet, where the source has no such entries.
pub open spec fn comment_entries(m: EngineModel, list: Seq<EntryModel>, sheet: SheetInfo<Seq<char>>) -> Fallible<
    Saved,
> {
    let rels = package::rels_path(sheet.path);
    if !m.comment_dirty_sheets.contains(sheet.name) {
        Ok(Seq::empty())
    } else {
        match entries::get(places(m, list).comments, sheet.name) {
            None => Err(coord::value_error("comment_patch: missing comments part path"@)),
            Some(part) => {
                let last = if entry_place(list, part, 0) is Some {
                    Seq::empty()
                } else {
                    seq![(part, ContentModel::Text(comments_text(m, sheet.name)))]
                };
                if entry_place(list, rels, 0) is Some {
                    Ok(last)
                } else {
                    match partxml::rels_patched(""@, part) {
                        Err(x) => Err(x),
                        Ok(s) => Ok(seq![(rels, ContentModel::Text(s))] + last),
                    }
                }
            },
        }
    }
}

pub open spec fn comments_saved(m: EngineModel, list: Seq<EntryModel>, n: int) -> Fallible<Saved>
    decreases n,
{
    if n <= 0 {
        Ok(Seq::empty())
    } else {
        match comments_saved(m, list, n - 1) {
            Err(x) => Err(x),
            Ok(done) => match comment_entries(m, list, m.sheets[n - 1]) {
                Err(x) => Err(x),
                Ok(more) => Ok(done + more),
            },
        }
    }
}

proof fn lemma_comments_stay_failed(m: EngineModel, list: Seq<EntryModel>, i: int, n: int)
    requires
        0 <= i <= n,
        comments_saved(m, list, i) is Err,
    ensures
        comments_saved(m, list, n) == comments_saved(m, list, i),
    decreases n,
{
    if i < n {
        lemma_comments_stay_failed(m, list, i, n - 1);
    }
}

/// The entries of the saved package: those of the source, in their order, then those that
/// the source did not have.
pub open spec fn saved(m: EngineModel, list: Seq<EntryModel>, policy: Seq<char>) -> Fallible<Saved> {
    if m.source_path is None {
        Err(coord::value_error("ingest() must be called before save()"@))
    } else {
        match policy_named(policy) {
            Err(x) => Err(x),
            Ok(p) => match shared_plan(m, list, p) {
                Err(x) => Err(x),
                Ok(plan) => match source_saved(m, plan, list, list.len() as int) {
                    Err(x) => Err(x),
                    Ok(done) => match comments_saved(m, list, m.sheets.len() as int) {
                        Err(x) => Err(x),
                        Ok(more) => Ok(done + more),
                    },
                },
            },
        }
    }
}

pub open spec fn saved_view(r: Result<Vec<(String, Content)>, ShadowError>) -> Fallible<Saved> {
    match r {
        Ok(v) => Ok(v.deep_view()),
        Err(e) => Err(e.deep_view()),
    }
}

fn has_entry(list: &Vec<Entry>, name: &str) -> (r: bool)
    ensures
        r == (entry_place(list.deep_view(), name@, 0) is Some),
{
    let ghost all = list.deep_view();
    let mut i: usize = 0;
    while i < list.len()
        invariant
            i <= list.len(),
            all == list.deep_view(),
            entry_place(all, name@, 0) == entry_place(all, name@, i as int),
        decreases list.len() - i,
    {
        assert(all[i as int] == list@[i as int].deep_view());
        if text::same(&list[i].name, name) {
            return true;
        }
        i = i + 1;
    }
    false
}

impl SheetShadowEngine {
    fn save_source(
        &self,
        plan: &SharedStringPatchPlan,
        at: &Places<Vec<(String, String)>>,
        list: &Vec<Entry>,
    ) -> (r: Result<Vec<(String, Content)>, ShadowError>)
        requires
            self.deep_view().wf(),
            at.deep_view() == places(self.deep_view(), list.deep_view()),
        ensures
            saved_view(r) == source_saved(
                self.deep_view(),
                plan.deep_view(),
                list.deep_view(),
                list.deep_view().len() as int,
            ),
    {
        let ghost m = self.deep_view();
        let ghost all = list.deep_view();
        let mut out: Vec<(String, Content)> = Vec::new();
        assert(out.deep_view() == Saved::empty());
        let mut i: usize = 0;
        while i < list.len()
            invariant
                i <= list.len(),
                all == list.deep_view(),
                m == self.deep_view(),
                m.wf(),
                source_saved(m, plan.deep_view(), all, i as int) == Ok::<
                    Saved,
                    ShadowError<Seq<char>>,
                >(out.deep_view()),
            decreases list.len() - i,
        {
            assert(all[i as int] == list@[i as int].deep_view());
            let c = match self.save_entry(plan, at, list, &list[i]) {
                Ok(c) => c,
                Err(x) => {
                    proof {
                        lemma_saving_stays_failed(
                            m,
                            plan.deep_view(),
                            all,
                            i + 1,
                            all.len() as int,
                        );
                    }
                    return Err(x);
                },
            };
            let ghost done = out.deep_view();
            let written = (list[i].name.clone(), c);
            out.push(written);
            assert(out.deep_view() == done.push(written.deep_view()));
            i = i + 1;
        }
        Ok(out)
    }

    fn add_comments(
        &self,
        at: &Places<Vec<(String, String)>>,
        list: &Vec<Entry>,
        sheet: &SheetInfo,
    ) -> (r: Result<Vec<(String, Content)>, ShadowError>)
        requires
            at.deep_view() == places(self.deep_view(), list.deep_view()),
        ensures
            saved_view(r) == comment_entries(
                self.deep_view(),
                list.deep_view(),
                sheet.deep_view(),
            ),
    {
        let mut out: Vec<(String, Content)> = Vec::new();
        assert(out.deep_view() == Saved::empty());
        if !entries::set_has(&self.comment_dirty_sheets, &sheet.name) {
            return Ok(out);
        }
        let part = match entries::map_get(&at.comments, &sheet.name) {
            Some(part) => part,
            None => return Err(coord::refuse("comment_patch: missing comments part path")),
        };
        let rels = package::rels_path_for_part(&sheet.path);
        let known = has_entry(list, &rels);
        if !known {
            match partxml::patch_sheet_rels_for_comments("", part) {
                Ok(s) => {
                    out.push((rels, Content::Text(s)));
                    assert(out.deep_view() == seq![(rels@, ContentModel::Text(s@))]);
                },
                Err(x) => return Err(x),
            }
        }
        if !has_entry(list, part) {
            let ghost done = out.deep_view();
            let s = self.comments_xml(&sheet.name);
            out.push((part.clone(), Content::Text(s)));
            assert(out.deep_view() == done + seq![(part@, ContentModel::Text(s@))]);
        } else {
            assert(out.deep_view() + Saved::empty() == out.deep_view());
        }
        assert(known ==> Saved::empty() + seq![
            (
                part@,
                ContentModel::Text(comments_text(self.deep_view(), sheet.name@)),
            ),
        ] == seq![(part@, ContentModel::Text(comments_text(self.deep_view(), sheet.name@)))]);
        Ok(out)
    }

    fn save_comments(&self, at: &Places<Vec<(String, String)>>, list: &Vec<Entry>) -> (r: Result<
        Vec<(String, Content)>,
        ShadowError,
    >)
        requires
            at.deep_view() == places(self.deep_view(), list.deep_view()),
        ensures
            saved_view(r) == comments_saved(
                self.deep_view(),
                list.deep_view(),
                self.deep_view().sheets.len() as int,
            ),
    {
        let ghost m = self.deep_view();
        let ghost all = list.deep_view();
        let mut out: Vec<(String, Content)> = Vec::new();
        assert(out.deep_view() == Saved::empty());
        let mut i: usize = 0;
        while i < self.sheets.len()
            invariant
                i <= self.sheets.len(),
                all == list.deep_view(),
                m == self.deep_view(),
                comments_saved(m, all, i as int) == Ok::<Saved, ShadowError<Seq<char>>>(
                    out.deep_view(),
                ),
            decreases self.sheets.len() - i,
        {
            assert(m.sheets[i as int] == self.sheets@[i as int].deep_view());
            let mut more = match self.add_comments(at, list, &self.sheets[i]) {
                Ok(more) => more,
                Err(x) => {
                    proof {
                        lemma_comments_stay_failed(m, all, i + 1, m.sheets.len() as int);
                    }
                    return Err(x);
                },
            };
            let ghost a = out.deep_view();
            let ghost b = more.deep_view();
            out.append(&mut more);
            assert(out.deep_view() == a + b);
            i = i + 1;
        }
        Ok(out)
    }

    /// What the saved package holds, given the entries of the source package.
    pub fn save(&self, list: &Vec<Entry>, shared_string_policy: &str) -> (r: Result<
        Vec<(String, Content)>,
        ShadowError,
    >)
        requires
            self.deep_view().wf(),
        ensures
            saved_view(r) == saved(
                self.deep_view(),
                list.deep_view(),
                shared_string_policy@,
            ),
    {
        if self.source_path.is_none() {
            return Err(coord::refuse("ingest() must be called before save()"));
        }
        let policy = match parse_shared_string_policy(shared_string_policy) {
            Ok(policy) => policy,
            Err(e) => return Err(e),
        };
        let plan = match self.build_shared_string_patch_plan(list, policy) {
            Ok(plan) => plan,
            Err(e) => return Err(e),
        };
        let at = self.find_places(list);
        let mut out = match self.save_source(&plan, &at, list) {
            Ok(out) => out,
            Err(e) => return Err(e),
        };
        let mut more = match self.save_comments(&at, list) {
            Ok(more) => more,
            Err(e) => return Err(e),
        };
        let ghost a = out.deep_view();
        let ghost b = more.deep_view();
        out.append(&mut more);
        assert(out.deep_view() == a + b);
        Ok(out)
    }
}

// ----- What saving keeps -----

proof fn lemma_part_of_no_sheet(sheets: SheetsModel, n: int, name: Seq<char>)
    requires
        0 <= n <= sheets.len(),
        forall|i: int| 0 <= i < n ==> (#[trigger] sheets[i]).path != name,
    ensures
        entries::get(parts_of_sheets(sheets, n), name) is None,
    decreases n,
{
    if n > 0 {
        lemma_part_of_no_sheet(sheets, n - 1, name);
        let done = parts_of_sheets(sheets, n - 1);
        entries::lemma_place(done, name);
        entries::lemma_place(done, sheets[n - 1].path);
        entries::lemma_place(parts_of_sheets(sheets, n), name);
    }
}

proof fn lemma_rels_of_no_sheet(m: EngineModel, n: int, name: Seq<char>)
    requires
        0 <= n <= m.sheets.len(),
        forall|i: int|
            0 <= i < n && m.comment_dirty_sheets.contains(m.sheets[i].name) ==> package::rels_path(
                (#[trigger] m.sheets[i]).path,
            ) != name,
    ensures
        entries::get(rels_of_sheets(m, n), name) is None,
    decreases n,
{
    if n > 0 {
        lemma_rels_of_no_sheet(m, n - 1, name);
        if m.comment_dirty_sheets.contains(m.sheets[n - 1].name) {
            let done = rels_of_sheets(m, n - 1);
            entries::lemma_place(done, name);
            entries::lemma_place(done, package::rels_path(m.sheets[n - 1].path));
            entries::lemma_place(rels_of_sheets(m, n), name);
        }
    }
}

pub open spec fn lacks_value(s: FieldsModel, value: Seq<char>) -> bool {
    forall|i: int| 0 <= i < s.len() ==> (#[trigger] s[i]).1 != value
}

proof fn lemma_lacking(s: FieldsModel, value: Seq<char>, i: int)
    requires
        lacks_value(s, value),
    ensures
        valued_from(s, value, i) is None,
    decreases s.len() - i,
{
    if 0 <= i < s.len() {
        lemma_lacking(s, value, i + 1);
    }
}

proof fn lemma_comments_of_no_sheet(
    m: EngineModel,
    list: Seq<EntryModel>,
    n: int,
    name: Seq<char>,
)
    requires
        0 <= n <= m.sheets.len(),
        forall|i: int|
            0 <= i < n && m.comment_dirty_sheets.contains((#[trigger] m.sheets[i]).name)
                ==> comments_place(m, list, i + 1) != name,
    ensures
        lacks_value(comment_parts(m, list, n), name),
    decreases n,
{
    if n > 0 {
        lemma_comments_of_no_sheet(m, list, n - 1, name);
        if m.comment_dirty_sheets.contains(m.sheets[n - 1].name) {
            let done = comment_parts(m, list, n - 1);
            entries::lemma_place(done, m.sheets[n - 1].name);
        }
    }
}

/// Whether a change is about the entry of the given name.
pub open spec fn touched(
    m: EngineModel,
    plan: PlanModel,
    list: Seq<EntryModel>,
    name: Seq<char>,
) -> bool {
    ||| name == "[Content_Types].xml"@ && m.comment_dirty_sheets.len() > 0
    ||| name == "xl/workbook.xml"@ && m.workbook_dirty
    ||| name == "xl/styles.xml"@ && m.style_patches.len() > 0
    ||| name == "xl/sharedStrings.xml"@ && plan.updates.len() > 0
    ||| exists|i: int| 0 <= i < m.sheets.len() && (#[trigger] m.sheets[i]).path == name
    ||| m.table_dirty_paths.contains(name)
    ||| m.drawing_dirty_paths.contains(name)
    ||| entries::get(m.chart_title_updates, name) is Some
    ||| entries::get(m.chart_source_updates, name) is Some
    ||| m.pivot_dirty_paths.contains(name)
    ||| entries::get(m.image_replacements, name) is Some
    ||| entries::get(m.ole_replacements, name) is Some
    ||| exists|i: int|
        0 <= i < m.sheets.len() && m.comment_dirty_sheets.contains((#[trigger] m.sheets[i]).name)
            && (package::rels_path(m.sheets[i].path) == name || comments_place(m, list, i + 1)
            == name)
}

/// An entry that is no sheet and that no change is about comes out byte for byte.
pub proof fn law_untouched_entries_are_copied(
    m: EngineModel,
    plan: PlanModel,
    list: Seq<EntryModel>,
    e: EntryModel,
)
    requires
        !touched(m, plan, list, e.name),
    ensures
        entry_saved(m, plan, list, e) == copied_entry(e),
{
    let n = m.sheets.len() as int;
    lemma_part_of_no_sheet(m.sheets, n, e.name);
    assert forall|i: int|
        0 <= i < n && m.comment_dirty_sheets.contains(
            m.sheets[i].name,
        ) implies package::rels_path((#[trigger] m.sheets[i]).path) != e.name by {
        assert(m.comment_dirty_sheets.contains(m.sheets[i].name));
    }
    lemma_rels_of_no_sheet(m, n, e.name);
    lemma_comments_of_no_sheet(m, list, n, e.name);
    lemma_lacking(comment_parts(m, list, n), e.name, 0);
}

/// A sheet that no change is about keeps its text.
pub proof fn law_untouched_sheets_keep_their_text(
    m: EngineModel,
    plan: PlanModel,
    sheet: Seq<char>,
    s: Seq<char>,
)
    requires
        !m.structural_dirty_sheets.contains(sheet),
        !m.object_dirty_sheets.contains(sheet),
        !m.sparkline_dirty_sheets.contains(sheet),
        !m.merge_dirty_sheets.contains(sheet),
        forall|i: int| 0 <= i < m.modified.len() ==> (#[trigger] m.modified[i]).sheet != sheet,
        forall|i: int| 0 <= i < m.dirty.len() ==> (#[trigger] m.dirty[i]).sheet != sheet,
    ensures
        sheet_saved(m, plan, sheet, s) == Ok::<Seq<char>, ShadowError<Seq<char>>>(s),
{
    lemma_no_keys(noted_keys(m), sheet);
}

proof fn lemma_no_keys(s: Keys, sheet: Seq<char>)
    requires
        forall|i: int| 0 <= i < s.len() ==> (#[trigger] s[i]).sheet != sheet,
    ensures
        keys_on(s, sheet).len() == 0,
    decreases s.len(),
{
    if s.len() > 0 {
        lemma_no_keys(s.drop_last(), sheet);
    }
}

/// Whether nothing was changed since the workbook was read.
pub open spec fn unchanged(m: EngineModel) -> bool {
    &&& m.source_path is Some
    &&& m.style_patches.len() == 0
    &&& m.merge_dirty_sheets.len() == 0
    &&& m.structural_dirty_sheets.len() == 0
    &&& m.table_dirty_paths.len() == 0
    &&& m.object_dirty_sheets.len() == 0
    &&& m.comment_dirty_sheets.len() == 0
    &&& m.drawing_dirty_paths.len() == 0
    &&& m.image_replacements.len() == 0
    &&& m.ole_replacements.len() == 0
    &&& m.chart_title_updates.len() == 0
    &&& m.chart_source_updates.len() == 0
    &&& m.sparkline_dirty_sheets.len() == 0
    &&& m.pivot_dirty_paths.len() == 0
    &&& !m.workbook_dirty
    &&& m.dirty.len() == 0
    &&& m.modified.len() == 0
}

/// An entry as it stands: the text of a sheet, the bytes of anything else.
pub open spec fn own_content(m: EngineModel, e: EntryModel) -> ContentModel {
    if entries::get(parts_of_sheets(m.sheets, m.sheets.len() as int), e.name) is Some {
        Content::Text(e.text->Ok_0)
    } else {
        Content::Bytes(e.data->Ok_0)
    }
}

/// Whether an entry can be read the way it is needed.
pub open spec fn readable(m: EngineModel, e: EntryModel) -> bool {
    if entries::get(parts_of_sheets(m.sheets, m.sheets.len() as int), e.name) is Some {
        e.text is Ok
    } else {
        e.data is Ok
    }
}

proof fn lemma_unchanged_entry(m: EngineModel, list: Seq<EntryModel>, e: EntryModel)
    requires
        unchanged(m),
        readable(m, e),
    ensures
        entry_saved(m, no_plan(), list, e) == Ok::<ContentModel, ShadowError<Seq<char>>>(
            own_content(m, e),
        ),
{
    let n = m.sheets.len() as int;
    lemma_rels_of_no_sheet(m, n, e.name);
    lemma_comments_of_no_sheet(m, list, n, e.name);
    lemma_lacking(comment_parts(m, list, n), e.name, 0);
    match entries::get(parts_of_sheets(m.sheets, m.sheets.len() as int), e.name) {
        Some(sheet) => {
            law_untouched_sheets_keep_their_text(m, no_plan(), sheet, e.text->Ok_0);
        },
        None => {},
    }
}

pub open spec fn own_contents(m: EngineModel, list: Seq<EntryModel>) -> Saved {
    Seq::new(list.len(), |i: int| (list[i].name, own_content(m, list[i])))
}

proof fn lemma_unchanged_source(m: EngineModel, list: Seq<EntryModel>, n: int)
    requires
        unchanged(m),
        0 <= n <= list.len(),
        forall|i: int| 0 <= i < list.len() ==> readable(m, #[trigger] list[i]),
    ensures
        source_saved(m, no_plan(), list, n) == Ok::<Saved, ShadowError<Seq<char>>>(
            own_contents(m, list).take(n),
        ),
    decreases n,
{
    if n <= 0 {
        assert(own_contents(m, list).take(0) == Saved::empty());
    } else {
        lemma_unchanged_source(m, list, n - 1);
        lemma_unchanged_entry(m, list, list[n - 1]);
        assert(own_contents(m, list).take(n) == own_contents(m, list).take(n - 1).push(
            own_contents(m, list)[n - 1],
        ));
    }
}

proof fn lemma_no_comments(m: EngineModel, list: Seq<EntryModel>, n: int)
    requires
        m.comment_dirty_sheets.len() == 0,
    ensures
        comments_saved(m, list, n) == Ok::<Saved, ShadowError<Seq<char>>>(Seq::empty()),
    decreases n,
{
    if n > 0 {
        lemma_no_comments(m, list, n - 1);
        assert(Saved::empty() + Saved::empty() == Saved::empty());
    }
}

/// Saving a workbook in which nothing was changed writes every entry as it was, and no more,
/// under every policy for shared strings that lets it be saved.
pub proof fn law_saving_without_changes_copies(
    m: EngineModel,
    list: Seq<EntryModel>,
    policy: Seq<char>,
)
    requires
        unchanged(m),
        forall|i: int| 0 <= i < list.len() ==> readable(m, #[trigger] list[i]),
        policy_named(policy) is Ok,
        shared_plan(m, list, policy_named(policy)->Ok_0) is Ok,
    ensures
        saved(m, list, policy) == Ok::<Saved, ShadowError<Seq<char>>>(own_contents(m, list)),
{
    assert(noted_keys(m).len() == 0);
    assert(shared_plan(m, list, policy_named(policy)->Ok_0) == Ok::<
        PlanModel,
        ShadowError<Seq<char>>,
    >(no_plan()));
    lemma_unchanged_source(m, list, list.len() as int);
    lemma_no_comments(m, list, m.sheets.len() as int);
    assert(own_contents(m, list).take(list.len() as int) == own_contents(m, list));
    assert(own_contents(m, list) + Saved::empty() == own_contents(m, list));
}

/// A workbook that was just read is unchanged, so that saving it copies it.
pub proof fn law_reading_changes_nothing(path: Seq<char>, opened: Fallible<PackageModel>)
    ensures
        unchanged(engine::ingested(path, opened).0),
{
}

/// Every entry of the source comes out under its name and in its place.
pub proof fn law_entries_keep_their_places(m: EngineModel, list: Seq<EntryModel>, policy: Seq<char>)
    requires
        saved(m, list, policy) is Ok,
    ensures
        saved(m, list, policy)->Ok_0.len() >= list.len(),
        forall|i: int|
            0 <= i < list.len() ==> (#[trigger] saved(m, list, policy)->Ok_0[i]).0 == list[i].name,
{
    let plan = shared_plan(m, list, policy_named(policy)->Ok_0)->Ok_0;
    lemma_names_kept(m, plan, list, list.len() as int);
}

proof fn lemma_names_kept(m: EngineModel, plan: PlanModel, list: Seq<EntryModel>, n: int)
    requires
        0 <= n <= list.len(),
        source_saved(m, plan, list, n) is Ok,
    ensures
        source_saved(m, plan, list, n)->Ok_0.len() == n,
        forall|i: int|
            0 <= i < n ==> (#[trigger] source_saved(m, plan, list, n)->Ok_0[i]).0 == list[i].name,
    decreases n,
{
    if n > 0 {
        lemma_names_kept(m, plan, list, n - 1);
    }
}

} // verus!
