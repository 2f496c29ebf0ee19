//! How what lies on a sheet follows its rows and columns.

use crate::coord;
use crate::coord::{Key, StructureAxis, StructureOpKind};
use crate::engine::EngineModel;
use crate::entries;
use crate::formula;
use crate::meaning;
use crate::objects;
use crate::objects::TableModel;
use crate::records::{
    AutoFilterRule, CellComment, ConditionalFormatRule, DataValidationRule, DefinedName,
    DrawingObject, ObjectRange,
};
use crate::structure;
use crate::structure::EditModel;
use crate::text;
use vstd::prelude::*;
use vstd::string::*;

verus! {

// ----- Spans and ranges -----

/// Whether an edit that inserts or deletes lines leaves something of a span, within the
/// machine's bound.
pub open spec fn leaves_some(start: usize, end: usize, e: EditModel) -> bool {
    match e.kind {
        StructureOpKind::Insert => end + (e.end - e.start + 1) <= usize::MAX,
        StructureOpKind::Delete => e.start > start || e.end < end,
        StructureOpKind::Move => false,
    }
}

/// Where lines are inserted or deleted, a span goes on covering the lines that it covered and
/// that stay, and no other line that was there.
pub proof fn law_spans_go_on_covering(start: usize, end: usize, e: EditModel, line: usize)
    requires
        e.valid(),
        1 <= start <= end,
        leaves_some(start, end, e),
    ensures
        ({
            let (a, b) = objects::span_after(start, end, e);
            &&& 1 <= a <= b
            &&& coord::coord_after(line, e) matches Some(n) ==> (start <= line <= end <==> a <= n
                <= b)
        }),
{
}

/// Whether a range covers a cell.
pub open spec fn covers(r: ObjectRange<Seq<char>>, k: Key<Seq<char>>) -> bool {
    &&& r.sheet == k.sheet
    &&& r.start_row <= k.row <= r.end_row
    &&& r.start_col <= k.col <= r.end_col
}

/// Whether an edit leaves something of a range.
pub open spec fn leaves_range(r: ObjectRange<Seq<char>>, e: EditModel) -> bool {
    r.sheet == e.sheet ==> match e.axis {
        StructureAxis::Row => leaves_some(r.start_row, r.end_row, e),
        StructureAxis::Col => leaves_some(r.start_col, r.end_col, e),
    }
}

/// Whether a range covers after an edit the cells that another covered before it.
pub open spec fn follows_cells(
    r: ObjectRange<Seq<char>>,
    next: ObjectRange<Seq<char>>,
    e: EditModel,
) -> bool {
    forall|k: Key<Seq<char>>, n: Key<Seq<char>>|
        #[trigger] coord::key_after(k, e) == Some(n) ==> (covers(r, k) <==> #[trigger] covers(
            next,
            n,
        ))
}

/// The range of an object goes on covering the cells that it covered, wherever an edit that
/// inserts or deletes lines takes them.
pub proof fn law_ranges_go_on_covering(r: ObjectRange<Seq<char>>, e: EditModel)
    requires
        e.valid(),
        r.is_valid(),
        leaves_range(r, e),
    ensures
        objects::range_followed(r, e).is_valid(),
        follows_cells(r, objects::range_followed(r, e), e),
{
    let next = objects::range_followed(r, e);
    assert forall|k: Key<Seq<char>>, n: Key<Seq<char>>|
        #[trigger] coord::key_after(k, e) == Some(n) implies (covers(r, k) <==> #[trigger] covers(
        next,
        n,
    )) by {
        if r.sheet == e.sheet && k.sheet == e.sheet {
            match e.axis {
                StructureAxis::Row => law_spans_go_on_covering(r.start_row, r.end_row, e, k.row),
                StructureAxis::Col => law_spans_go_on_covering(r.start_col, r.end_col, e, k.col),
            }
        }
    }
    match e.axis {
        StructureAxis::Row => {
            if r.sheet == e.sheet {
                law_spans_go_on_covering(r.start_row, r.end_row, e, 1);
            }
        },
        StructureAxis::Col => {
            if r.sheet == e.sheet {
                law_spans_go_on_covering(r.start_col, r.end_col, e, 1);
            }
        },
    }
}

/// Data validations stay in order, each on the cells that it was on and otherwise as it was.
pub proof fn law_validations_follow_their_cells(
    s: Seq<DataValidationRule<Seq<char>>>,
    e: EditModel,
)
    requires
        e.valid(),
        forall|i: int|
            0 <= i < s.len() ==> (#[trigger] s[i]).range.is_valid() && leaves_range(s[i].range, e),
    ensures
        objects::validations_after(s, e).len() == s.len(),
        forall|i: int|
            0 <= i < s.len() ==> {
                let next = #[trigger] objects::validations_after(s, e)[i];
                follows_cells(s[i].range, next.range, e) && next == (DataValidationRule {
                    range: next.range,
                    ..s[i]
                })
            },
    decreases s.len(),
{
    if s.len() > 0 {
        let n = s.len() - 1;
        assert forall|i: int| 0 <= i < s.drop_last().len() implies (
        #[trigger] s.drop_last()[i]).range.is_valid() && leaves_range(s.drop_last()[i].range, e) by {
            assert(s[i].range.is_valid());
        }
        law_validations_follow_their_cells(s.drop_last(), e);
        assert(s[n].range.is_valid());
        law_ranges_go_on_covering(s[n].range, e);
        let done = objects::validations_after(s.drop_last(), e);
        assert forall|i: int| 0 <= i < s.len() implies {
            let next = #[trigger] objects::validations_after(s, e)[i];
            follows_cells(s[i].range, next.range, e) && next == (DataValidationRule {
                range: next.range,
                ..s[i]
            })
        } by {
            if i < n {
                assert(objects::validations_after(s, e)[i] == done[i]);
                assert(s.drop_last()[i] == s[i]);
            }
        }
    }
}

/// Filters stay in order, each on the cells that it was on.
pub proof fn law_filters_follow_their_cells(s: Seq<AutoFilterRule<Seq<char>>>, e: EditModel)
    requires
        e.valid(),
        forall|i: int|
            0 <= i < s.len() ==> (#[trigger] s[i]).range.is_valid() && leaves_range(s[i].range, e),
    ensures
        objects::filters_after(s, e).len() == s.len(),
        forall|i: int|
            0 <= i < s.len() ==> follows_cells(
                s[i].range,
                (#[trigger] objects::filters_after(s, e)[i]).range,
                e,
            ),
    decreases s.len(),
{
    if s.len() > 0 {
        let n = s.len() - 1;
        assert forall|i: int| 0 <= i < s.drop_last().len() implies (
        #[trigger] s.drop_last()[i]).range.is_valid() && leaves_range(s.drop_last()[i].range, e) by {
            assert(s[i].range.is_valid());
        }
        law_filters_follow_their_cells(s.drop_last(), e);
        assert(s[n].range.is_valid());
        law_ranges_go_on_covering(s[n].range, e);
        let done = objects::filters_after(s.drop_last(), e);
        assert forall|i: int| 0 <= i < s.len() implies follows_cells(
            s[i].range,
            (#[trigger] objects::filters_after(s, e)[i]).range,
            e,
        ) by {
            if i < n {
                assert(objects::filters_after(s, e)[i] == done[i]);
                assert(s.drop_last()[i] == s[i]);
            }
        }
    }
}

/// Conditional formats stay in order, each on the cells that it was on and otherwise as it was.
pub proof fn law_formats_follow_their_cells(
    s: Seq<ConditionalFormatRule<Seq<char>>>,
    e: EditModel,
)
    requires
        e.valid(),
        forall|i: int|
            0 <= i < s.len() ==> (#[trigger] s[i]).range.is_valid() && leaves_range(s[i].range, e),
    ensures
        objects::formats_after(s, e).len() == s.len(),
        forall|i: int|
            0 <= i < s.len() ==> {
                let next = #[trigger] objects::formats_after(s, e)[i];
                follows_cells(s[i].range, next.range, e) && next == (ConditionalFormatRule {
                    range: next.range,
                    ..s[i]
                })
            },
    decreases s.len(),
{
    if s.len() > 0 {
        let n = s.len() - 1;
        assert forall|i: int| 0 <= i < s.drop_last().len() implies (
        #[trigger] s.drop_last()[i]).range.is_valid() && leaves_range(s.drop_last()[i].range, e) by {
            assert(s[i].range.is_valid());
        }
        law_formats_follow_their_cells(s.drop_last(), e);
        assert(s[n].range.is_valid());
        law_ranges_go_on_covering(s[n].range, e);
        let done = objects::formats_after(s.drop_last(), e);
        assert forall|i: int| 0 <= i < s.len() implies {
            let next = #[trigger] objects::formats_after(s, e)[i];
            follows_cells(s[i].range, next.range, e) && next == (ConditionalFormatRule {
                range: next.range,
                ..s[i]
            })
        } by {
            if i < n {
                assert(objects::formats_after(s, e)[i] == done[i]);
                assert(s.drop_last()[i] == s[i]);
            }
        }
    }
}

// ----- Tables -----

/// The cells of a table, as a range.
pub open spec fn table_range(t: TableModel) -> ObjectRange<Seq<char>> {
    ObjectRange {
        sheet: t.sheet,
        start_row: t.start_row,
        start_col: t.start_col,
        end_row: t.end_row,
        end_col: t.end_col,
    }
}

/// Tables stay in order and keep their names and columns; each goes on covering its cells, and
/// a totals row that stays goes where its row goes.
#[verifier::rlimit(40)]
#[verifier::spinoff_prover]
pub proof fn law_tables_follow_their_cells(s: Seq<TableModel>, e: EditModel)
    requires
        e.valid(),
        forall|i: int|
            0 <= i < s.len() ==> table_range(#[trigger] s[i]).is_valid() && leaves_range(
                table_range(s[i]),
                e,
            ),
    ensures
        structure::tables_followed(s, e).0.len() == s.len(),
        forall|i: int|
            0 <= i < s.len() ==> {
                let next = #[trigger] structure::tables_followed(s, e).0[i];
                &&& follows_cells(table_range(s[i]), table_range(next), e)
                &&& next.name == s[i].name && next.path == s[i].path && next.columns
                    == s[i].columns
                &&& s[i].sheet == e.sheet && e.axis == StructureAxis::Row ==> (
                s[i].totals_row matches Some(row) ==> (coord::coord_after(row, e) is Some
                    ==> next.totals_row == coord::coord_after(row, e)))
                &&& s[i].sheet != e.sheet || e.axis == StructureAxis::Col ==> next.totals_row
                    == s[i].totals_row
            },
    decreases s.len(),
{
    if s.len() > 0 {
        let n = s.len() - 1;
        let rest = s.drop_last();
        assert forall|i: int| 0 <= i < rest.len() implies table_range(
            #[trigger] rest[i],
        ).is_valid() && leaves_range(table_range(rest[i]), e) by {
            assert(table_range(s[i]).is_valid());
        }
        law_tables_follow_their_cells(rest, e);
        assert(table_range(s[n]).is_valid());
        law_ranges_go_on_covering(table_range(s[n]), e);
        let all = structure::tables_followed(s, e).0;
        let done = structure::tables_followed(rest, e).0;
        assert(all.len() == done.len() + 1);
        assert(all.drop_last() == done);
        let last = all[n];
        assert(last == if s[n].sheet != e.sheet {
            s[n]
        } else {
            objects::table_after(s[n], e)
        });
        assert(table_range(last) == objects::range_followed(table_range(s[n]), e));
        assert forall|i: int| 0 <= i < n implies #[trigger] all[i] == done[i] && s[i]
            == rest[i] by {
            assert(all.drop_last()[i] == all[i]);
        }
    }
}

// ----- Comments -----

/// A comment goes where its cell goes and keeps its text, and no comment comes from elsewhere;
/// the comments of lines that are deleted go with them.
pub proof fn law_comments_follow_their_cells(
    s: Seq<CellComment<Seq<char>>>,
    e: EditModel,
    c: CellComment<Seq<char>>,
)
    ensures
        objects::comments_after(s, e).0.contains(c) <==> exists|i: int|
            0 <= i < s.len() && coord::key_after((#[trigger] s[i]).key, e) == Some(c.key)
                && s[i].text == c.text,
    decreases s.len(),
{
    if s.len() > 0 {
        let rest = s.drop_last();
        law_comments_follow_their_cells(rest, e, c);
        let done = objects::comments_after(rest, e).0;
        let all = objects::comments_after(s, e).0;
        let n = s.len() - 1;
        if all.contains(c) {
            let j = choose|j: int| 0 <= j < all.len() && all[j] == c;
            if j < done.len() {
                assert(done[j] == c);
                assert(done.contains(c));
                let i = choose|i: int|
                    0 <= i < rest.len() && coord::key_after((#[trigger] rest[i]).key, e) == Some(
                        c.key,
                    ) && rest[i].text == c.text;
                assert(s[i] == rest[i]);
            } else {
                assert(coord::key_after(s[n].key, e) == Some(c.key) && s[n].text == c.text);
            }
        }
        if exists|i: int|
            0 <= i < s.len() && coord::key_after((#[trigger] s[i]).key, e) == Some(c.key)
                && s[i].text == c.text {
            let i = choose|i: int|
                0 <= i < s.len() && coord::key_after((#[trigger] s[i]).key, e) == Some(c.key)
                    && s[i].text == c.text;
            if i < n {
                assert(rest[i] == s[i]);
                assert(done.contains(c));
                let j = choose|j: int| 0 <= j < done.len() && done[j] == c;
                assert(all[j] == c);
            } else {
                assert(all[all.len() - 1] == c);
            }
        }
    }
}

// ----- Merged ranges -----

/// The text of a merged range names after an edit the cells to which the edit takes its
/// corners; the range is lost with a corner.
pub proof fn law_merged_ranges_follow_their_corners(
    sheet: Seq<char>,
    r1: usize,
    c1: usize,
    r2: usize,
    c2: usize,
    e: EditModel,
)
    requires
        e.valid(),
    ensures
        formula::range_ref_after(coord::range_text(r1, c1, r2, c2), sheet, e) == match (
            coord::key_after(coord::key(e.sheet, r1, c1), e),
            coord::key_after(coord::key(e.sheet, r2, c2), e),
        ) {
            (Some(a), Some(b)) => Some(
                coord::a1_text(a.row, a.col) + ":"@ + coord::a1_text(b.row, b.col),
            ),
            _ => None,
        },
{
    let a = coord::a1_text(r1, c1);
    let b = coord::a1_text(r2, c2);
    let s = coord::range_text(r1, c1, r2, c2);
    reveal_strlit(":");
    reveal_strlit("!");
    coord::lemma_a1_plain(r1, c1);
    coord::lemma_a1_plain(r2, c2);
    assert(!text::contains(s, "!"@)) by {
        if let Some(at) = text::find_from(s, "!"@, 0) {
            text::lemma_find_bounds(s, "!"@, 0);
            assert(s.subrange(at, at + 1)[0] == s[at]);
            if at < a.len() {
                assert(text::is_alnum(a[at]));
            } else if at > a.len() {
                assert(text::is_alnum(b[at - a.len() - 1]));
            }
        }
    }
    assert forall|i: int| 0 <= i < a.len() implies #[trigger] a[i] != ':' by {
        assert(text::is_alnum(a[i]));
    }
    assert forall|i: int| 0 <= i < b.len() implies #[trigger] b[i] != ':' by {
        assert(text::is_alnum(b[i]));
    }
    assert(":"@ == seq![':']);
    meaning::lemma_split_at_sign(a, ':', b);
    coord::law_a1_reads_back(r1, c1);
    coord::law_a1_reads_back(r2, c2);
}

/// What a map makes of texts, each once.
spec fn mapped(s: Seq<Seq<char>>, f: spec_fn(Seq<char>) -> Option<Seq<char>>) -> Seq<Seq<char>>
    decreases s.len(),
{
    if s.len() == 0 {
        s
    } else {
        let done = mapped(s.drop_last(), f);
        match f(s.last()) {
            Some(t) => entries::with(done, t),
            None => done,
        }
    }
}

proof fn lemma_mapped(s: Seq<Seq<char>>, f: spec_fn(Seq<char>) -> Option<Seq<char>>, t: Seq<char>)
    ensures
        mapped(s, f).contains(t) <==> exists|i: int|
            0 <= i < s.len() && f(#[trigger] s[i]) == Some(t),
    decreases s.len(),
{
    if s.len() > 0 {
        let rest = s.drop_last();
        let n = s.len() - 1;
        lemma_mapped(rest, f, t);
        let done = mapped(rest, f);
        if let Some(x) = f(s[n]) {
            entries::lemma_with_member(done, x, t);
        }
        if exists|i: int| 0 <= i < rest.len() && f(#[trigger] rest[i]) == Some(t) {
            let i = choose|i: int| 0 <= i < rest.len() && f(#[trigger] rest[i]) == Some(t);
            assert(s[i] == rest[i]);
        }
        if exists|i: int| 0 <= i < s.len() && f(#[trigger] s[i]) == Some(t) {
            let i = choose|i: int| 0 <= i < s.len() && f(#[trigger] s[i]) == Some(t);
            if i < n {
                assert(rest[i] == s[i]);
            }
        }
    }
}

proof fn lemma_shifted_is_mapped(s: Seq<Seq<char>>, e: EditModel)
    ensures
        structure::shifted_ranges(s, e) == mapped(
            s,
            |x: Seq<char>| formula::range_ref_after(x, e.sheet, e),
        ),
    decreases s.len(),
{
    if s.len() > 0 {
        lemma_shifted_is_mapped(s.drop_last(), e);
    }
}

/// The merged ranges of a sheet after an edit are the ranges that take the place of those
/// before it.
pub proof fn law_merged_ranges_follow(s: Seq<Seq<char>>, e: EditModel, t: Seq<char>)
    ensures
        structure::shifted_ranges(s, e).contains(t) <==> exists|i: int|
            0 <= i < s.len() && formula::range_ref_after(#[trigger] s[i], e.sheet, e) == Some(t),
{
    let f = |x: Seq<char>| formula::range_ref_after(x, e.sheet, e);
    lemma_shifted_is_mapped(s, e);
    lemma_mapped(s, f, t);
    if exists|i: int| 0 <= i < s.len() && f(#[trigger] s[i]) == Some(t) {
        let i = choose|i: int| 0 <= i < s.len() && f(#[trigger] s[i]) == Some(t);
        assert(formula::range_ref_after(s[i], e.sheet, e) == Some(t));
    }
    if exists|i: int|
        0 <= i < s.len() && formula::range_ref_after(#[trigger] s[i], e.sheet, e) == Some(t) {
        let i = choose|i: int|
            0 <= i < s.len() && formula::range_ref_after(#[trigger] s[i], e.sheet, e) == Some(t);
        assert(f(s[i]) == Some(t));
    }
}

// ----- Names and formulas -----

/// Defined names stay in order under their names, and what they stand for is rewritten as a
/// formula is.
pub proof fn law_names_follow_their_cells(s: crate::deps::NamesModel, e: EditModel)
    ensures
        structure::names_followed(s, e).0.len() == s.len(),
        forall|i: int|
            0 <= i < s.len() ==> #[trigger] structure::names_followed(s, e).0[i] == (DefinedName {
                target: formula::formula_after(s[i].target, ""@, e),
                ..s[i]
            }),
    decreases s.len(),
{
    if s.len() > 0 {
        let rest = s.drop_last();
        law_names_follow_their_cells(rest, e);
        let all = structure::names_followed(s, e).0;
        let done = structure::names_followed(rest, e).0;
        assert forall|i: int| 0 <= i < s.len() implies #[trigger] all[i] == (DefinedName {
            target: formula::formula_after(s[i].target, ""@, e),
            ..s[i]
        }) by {
            if i < s.len() - 1 {
                assert(all[i] == done[i]);
                assert(rest[i] == s[i]);
            }
        }
    }
}

/// The formulas of a workbook stay at their cells, and each is rewritten on the sheet that it
/// stands on.
pub proof fn law_formulas_are_rewritten_in_place(
    s: crate::cells::FormulasModel,
    changed: crate::recalc::Keys,
    e: EditModel,
)
    ensures
        structure::formulas_followed(s, changed, e).0.len() == s.len(),
        forall|i: int|
            0 <= i < s.len() ==> {
                let next = #[trigger] structure::formulas_followed(s, changed, e).0[i];
                next.0 == s[i].0 && next.1.formula == formula::formula_after(
                    s[i].1.formula,
                    s[i].0.sheet,
                    e,
                )
            },
    decreases s.len(),
{
    if s.len() > 0 {
        let rest = s.drop_last();
        law_formulas_are_rewritten_in_place(rest, changed, e);
        let all = structure::formulas_followed(s, changed, e).0;
        let done = structure::formulas_followed(rest, changed, e).0;
        assert forall|i: int| 0 <= i < s.len() implies {
            let next = #[trigger] all[i];
            next.0 == s[i].0 && next.1.formula == formula::formula_after(
                s[i].1.formula,
                s[i].0.sheet,
                e,
            )
        } by {
            if i < s.len() - 1 {
                assert(all[i] == done[i]);
                assert(rest[i] == s[i]);
            }
        }
    }
}

// ----- Drawings -----

/// Whether a line of an anchor follows an edit: it goes where the line goes, and stays where
/// the line is deleted.
pub open spec fn anchor_follows(
    before: Option<usize>,
    after: Option<usize>,
    e: EditModel,
) -> bool {
    match before {
        Some(line) => after == (if coord::coord_after(line, e) is Some {
            coord::coord_after(line, e)
        } else {
            Some(line)
        }),
        None => after is None,
    }
}

/// Drawings stay in order; the anchors of those on the edited sheet follow its lines along the
/// edited axis and no other, and drawings that no cell anchors stay.
#[verifier::rlimit(40)]
#[verifier::spinoff_prover]
pub proof fn law_drawings_follow_their_anchors(s: Seq<DrawingObject<Seq<char>>>, e: EditModel)
    ensures
        objects::drawings_after(s, e).drawings.len() == s.len(),
        forall|i: int|
            0 <= i < s.len() ==> {
                let next = #[trigger] objects::drawings_after(s, e).drawings[i];
                let fixed = s[i].sheet != e.sheet || s[i].anchor_kind == "absoluteAnchor"@;
                &&& fixed ==> next == s[i]
                &&& next.object_id == s[i].object_id && next.drawing_path == s[i].drawing_path
                    && next.anchor_ordinal == s[i].anchor_ordinal && next.sheet == s[i].sheet
                &&& !fixed && e.axis == StructureAxis::Row ==> anchor_follows(
                    s[i].from_row,
                    next.from_row,
                    e,
                ) && anchor_follows(s[i].to_row, next.to_row, e) && next.from_col
                    == s[i].from_col && next.to_col == s[i].to_col
                &&& !fixed && e.axis == StructureAxis::Col ==> anchor_follows(
                    s[i].from_col,
                    next.from_col,
                    e,
                ) && anchor_follows(s[i].to_col, next.to_col, e) && next.from_row
                    == s[i].from_row && next.to_row == s[i].to_row
            },
    decreases s.len(),
{
    if s.len() > 0 {
        let rest = s.drop_last();
        law_drawings_follow_their_anchors(rest, e);
        let all = objects::drawings_after(s, e).drawings;
        let done = objects::drawings_after(rest, e).drawings;
        assert(all.drop_last() == done);
        assert forall|i: int| 0 <= i < s.len() - 1 implies #[trigger] all[i] == done[i] && s[i]
            == rest[i] by {
            assert(all.drop_last()[i] == all[i]);
        }
    }
}

// ----- The workbook -----

proof fn lemma_sparklines_keep(m: EngineModel, list: crate::highrisk::HighRiskModel, e: EditModel)
    ensures
        ({
            let r = structure::sparklines_followed(m, list, e).0;
            &&& r.cells == m.cells
            &&& r.formulas == m.formulas
            &&& r.tables == m.tables
            &&& r.merges == m.merges
            &&& r.comments == m.comments
            &&& r.defined_names == m.defined_names
            &&& r.data_validations == m.data_validations
            &&& r.auto_filters == m.auto_filters
            &&& r.conditional_formats == m.conditional_formats
            &&& r.drawing_objects == m.drawing_objects
            &&& r.meta == m.meta
            &&& r.modified == m.modified
        }),
    decreases list.len(),
{
    if list.len() > 0 {
        lemma_sparklines_keep(m, list.drop_last(), e);
    }
}

/// An edit carries along everything that lies on the sheet: the values of its cells, its
/// tables, merged ranges, comments, rules, defined names and drawings.
pub proof fn law_everything_follows_an_edit(m: EngineModel, e: EditModel)
    ensures
        ({
            let r = structure::followed(m, e);
            &&& r.cells == structure::shifted_map(m.cells, e)
            &&& r.tables == structure::tables_followed(m.tables, e).0
            &&& r.comments == objects::comments_after(m.comments, e).0
            &&& r.defined_names == structure::names_followed(m.defined_names, e).0
            &&& r.data_validations == objects::validations_after(m.data_validations, e)
            &&& r.auto_filters == objects::filters_after(m.auto_filters, e)
            &&& r.conditional_formats == objects::formats_after(m.conditional_formats, e)
            &&& r.drawing_objects == objects::drawings_after(m.drawing_objects, e).drawings
            &&& entries::get(m.merges, e.sheet) matches Some(ranges) ==> entries::get(
                r.merges,
                e.sheet,
            ) == Some(structure::shifted_ranges(ranges, e))
            &&& forall|other: Seq<char>|
                other != e.sheet ==> #[trigger] entries::get(r.merges, other) == entries::get(
                    m.merges,
                    other,
                )
        }),
{
    let a = structure::tables_shifted(
        structure::merges_shifted(structure::keyed_shifted(m, e), e),
        e,
    );
    let b = structure::rules_shifted(
        structure::comments_shifted(structure::names_shifted(a, e), e),
        e,
    );
    let d = structure::drawings_shifted(b, e);
    lemma_sparklines_keep(d, d.high_risk_objects, e);
    let r = structure::followed(m, e);
    assert forall|other: Seq<char>| other != e.sheet implies #[trigger] entries::get(
        r.merges,
        other,
    ) == entries::get(m.merges, other) by {
        if let Some(ranges) = entries::get(m.merges, e.sheet) {
            entries::law_get_after_put(
                m.merges,
                e.sheet,
                structure::shifted_ranges(ranges, e),
                other,
            );
        }
    }
    if let Some(ranges) = entries::get(m.merges, e.sheet) {
        entries::law_get_after_put(
            m.merges,
            e.sheet,
            structure::shifted_ranges(ranges, e),
            e.sheet,
        );
    }
}

// ----- Sparklines -----

/// A list of one range names after an edit the cells to which the edit takes its corners.
pub proof fn law_listed_ranges_follow_their_corners(
    sheet: Seq<char>,
    r1: usize,
    c1: usize,
    r2: usize,
    c2: usize,
    e: EditModel,
)
    requires
        e.valid(),
    ensures
        formula::sqref_after(coord::range_text(r1, c1, r2, c2), sheet, e) == match (
            coord::key_after(coord::key(e.sheet, r1, c1), e),
            coord::key_after(coord::key(e.sheet, r2, c2), e),
        ) {
            (Some(a), Some(b)) => Some(
                coord::a1_text(a.row, a.col) + ":"@ + coord::a1_text(b.row, b.col),
            ),
            _ => None,
        },
{
    law_merged_ranges_follow_their_corners(sheet, r1, c1, r2, c2, e);
    let a = coord::a1_text(r1, c1);
    let b = coord::a1_text(r2, c2);
    let s = coord::range_text(r1, c1, r2, c2);
    reveal_strlit(":");
    coord::lemma_a1_plain(r1, c1);
    coord::lemma_a1_plain(r2, c2);
    assert forall|i: int| 0 <= i < s.len() implies !text::is_white(#[trigger] s[i]) by {
        if i < a.len() {
            assert(text::is_alnum(a[i]));
        } else if i > a.len() {
            assert(text::is_alnum(b[i - a.len() - 1]));
        }
    }
    text::lemma_one_word(s);
    assert forall|i: int| 0 <= i < a.len() implies #[trigger] a[i] != ":"@[0] by {
        assert(text::is_alnum(a[i]));
    }
    text::lemma_cut_at_sign(a, ":"@, b);
    assert(text::contains(s, ":"@));
    let list = seq![s];
    let none = Seq::<Seq<char>>::empty();
    assert(list.drop_last() == none);
    assert(list.last() == s);
    assert(formula::sqref_tokens_after(none, sheet, e) == Some(none));
    if let Some(t) = formula::range_ref_after(s, sheet, e) {
        assert(none.push(t) == seq![t]);
        assert(text::joined(seq![t], " "@) == t);
    }
}

/// A sparkline that is not lost draws after an edit on its source as a formula would, and stands
/// where its place is taken; otherwise it is as it was.
pub proof fn law_sparklines_follow_source_and_place(
    o: crate::records::HighRiskObject<Seq<char>>,
    e: EditModel,
)
    ensures
        ({
            let r = structure::sparkline_after(o, e);
            !r.lost ==> r.object == (crate::records::HighRiskObject {
                source_formula: formula::formula_after(o.source_formula, o.sheet, e),
                ref_text: r.object.ref_text,
                ..o
            }) && formula::sqref_after(o.ref_text, o.sheet, e) == Some(r.object.ref_text)
        }),
        formula::sqref_after(o.ref_text, o.sheet, e) is None ==> structure::sparkline_after(
            o,
            e,
        ).lost,
{
}

} // verus!
