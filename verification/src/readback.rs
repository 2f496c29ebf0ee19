//! What is written into a sheet's document, read again: where the elements that are found in
//! the document are those that were written, a cell has the value that was written and the
//! other cells are as they were, and the rules of the sheet are those that were written.

use crate::cells;
use crate::cells::{FormulaCell, Grid, GridModel};
use crate::cellxml;
use crate::cellxml::{CellWrite, CellWriteModel};
use crate::coord;
use crate::coord::{Key, ShadowError};
use crate::entries;
use crate::numbers;
use crate::package;
use crate::records::{AutoFilterRule, ConditionalFormatRule, DataValidationRule, ObjectRange};
use crate::sheetparts;
use crate::sheetparts::{SheetRules, SheetRulesModel};
use crate::sheetxml;
use crate::text;
use crate::xml;
use crate::xml::Nodes;
use vstd::prelude::*;
use vstd::string::*;

verus! {

// ----- Cells -----

/// What is read of the element of a cell.
#[verifier::ext_equal]
pub struct CellShown<S> {
    pub name: Option<S>,
    pub kind: S,
    pub style: Option<S>,
    pub formula: S,
    pub raw: S,
    pub inline: S,
}

pub open spec fn shown(nodes: Nodes, i: int) -> CellShown<Seq<char>> {
    CellShown {
        name: xml::attr(nodes[i], "r"@),
        kind: xml::attr_or_empty(nodes[i], "t"@),
        style: xml::attr(nodes[i], "s"@),
        formula: xml::text_of_child(nodes, i, "f"@),
        raw: xml::text_of_child(nodes, i, "v"@),
        inline: xml::texts_joined(nodes, xml::named_in(nodes, i, "t"@)),
    }
}

/// The column and row that the element of a cell stands for.
pub open spec fn place(nodes: Nodes, i: int) -> Option<(usize, usize)> {
    match xml::attr(nodes[i], "r"@) {
        Some(t) => coord::a1(t),
        None => None,
    }
}

/// Whether two grids know the same of a cell.
pub open spec fn alike_at(a: GridModel, b: GridModel, k: Key<Seq<char>>) -> bool {
    &&& entries::get(a.cells, k) == entries::get(b.cells, k)
    &&& entries::get(a.formulas, k) == entries::get(b.formulas, k)
    &&& entries::get(a.meta, k) == entries::get(b.meta, k)
}

/// Whether the element of a cell shows what was written into it.
pub open spec fn shows_write(
    c: CellShown<Seq<char>>,
    cell_ref: Seq<char>,
    style: Option<Seq<char>>,
    w: CellWriteModel,
) -> bool {
    &&& c.name == Some(cell_ref)
    &&& c.style == match w.style {
        Some(id) => Some(text::decimal(id as nat)),
        None => style,
    }
    &&& match (w.shared, w.formula) {
        (Some(index), _) => {
            &&& c.kind == "s"@
            &&& c.raw == text::decimal(index as nat)
            &&& c.formula.len() == 0
        },
        (None, Some(formula)) => {
            &&& c.kind.len() == 0
            &&& c.raw == w.value
            &&& c.formula == text::drop_leading(formula, '=')
        },
        (None, None) => if numbers::is_number(w.value) && !w.inline {
            &&& c.kind.len() == 0
            &&& c.raw == w.value
            &&& c.formula.len() == 0
        } else {
            &&& c.kind == "inlineStr"@
            &&& c.inline == w.value
            &&& c.formula.len() == 0
        },
    }
}

/// What is written into a cell: a cell that was not there has a text of its own.
pub open spec fn stored(nodes: Nodes, cell_ref: Seq<char>, w: CellWriteModel) -> CellWriteModel {
    match cellxml::cell_from(nodes, cell_ref, 0) {
        Some(_) => w,
        None => CellWrite { shared: None, inline: false, ..w },
    }
}

/// Whether the elements of a document show the cells of another with one cell written: that
/// cell is the `at`-th.
pub open spec fn shows_cell_written(
    nodes: Nodes,
    back: Nodes,
    at: int,
    cell_ref: Seq<char>,
    w: CellWriteModel,
) -> bool {
    let before = xml::named(nodes, "c"@);
    let after = xml::named(back, "c"@);
    match cellxml::cell_from(nodes, cell_ref, 0) {
        Some(i) => {
            &&& 0 <= at < before.len() == after.len()
            &&& before[at] == i
            &&& shows_write(shown(back, after[at]), cell_ref, shown(nodes, i).style, w)
            &&& forall|j: int|
                0 <= j < after.len() && j != at ==> #[trigger] shown(back, after[j]) == shown(
                    nodes,
                    before[j],
                )
        },
        None => {
            &&& 0 <= at <= before.len()
            &&& after.len() == before.len() + 1
            &&& shows_write(
                shown(back, after[at]),
                cell_ref,
                None,
                stored(nodes, cell_ref, w),
            )
            &&& forall|j: int|
                0 <= j < at ==> #[trigger] shown(back, after[j]) == shown(nodes, before[j])
            &&& forall|j: int|
                at < j < after.len() ==> #[trigger] shown(back, after[j]) == shown(
                    nodes,
                    before[j - 1],
                )
        },
    }
}

/// The value that a written cell has: the shared text of its number, or its own.
pub open spec fn value_written(w: CellWriteModel, shared: Seq<Seq<char>>) -> Seq<char> {
    match w.shared {
        Some(index) => cells::text_at(shared, Some(index as nat)),
        None => w.value,
    }
}

proof fn lemma_other_cells_stay(
    g: GridModel,
    nodes: Nodes,
    i: int,
    sheet: Seq<char>,
    shared: Seq<Seq<char>>,
    styles: Seq<Seq<char>>,
    k: Key<Seq<char>>,
)
    requires
        k.sheet == sheet ==> place(nodes, i) != Some((k.col, k.row)),
    ensures
        alike_at(cells::with_cell(g, nodes, i, sheet, shared, styles), g, k),
{
    if let Some((col, row)) = place(nodes, i) {
        let at = coord::key(sheet, row, col);
        assert(at != k);
        let value = cells::node_value(nodes, i, shared);
        let formula = xml::text_of_child(nodes, i, "f"@);
        entries::law_get_after_put(g.cells, at, value, k);
        entries::law_get_after_put(
            g.meta,
            at,
            cells::node_meta(nodes, i, at, value, styles),
            k,
        );
        entries::law_get_after_put(
            g.formulas,
            at,
            FormulaCell { formula: cells::with_sign(formula), deps: Seq::empty() },
            k,
        );
    }
}

proof fn lemma_all_others_stay(
    g: GridModel,
    nodes: Nodes,
    list: Seq<int>,
    sheet: Seq<char>,
    shared: Seq<Seq<char>>,
    styles: Seq<Seq<char>>,
    k: Key<Seq<char>>,
)
    requires
        k.sheet == sheet ==> forall|j: int|
            0 <= j < list.len() ==> place(nodes, #[trigger] list[j]) != Some((k.col, k.row)),
    ensures
        alike_at(cells::with_cells(g, nodes, list, sheet, shared, styles), g, k),
    decreases list.len(),
{
    if list.len() > 0 {
        let rest = list.drop_last();
        assert forall|j: int| 0 <= j < rest.len() && k.sheet == sheet implies place(
            nodes,
            #[trigger] rest[j],
        ) != Some((k.col, k.row)) by {
            assert(rest[j] == list[j]);
        }
        lemma_all_others_stay(g, nodes, rest, sheet, shared, styles, k);
        assert(list[list.len() - 1] == list.last());
        lemma_other_cells_stay(
            cells::with_cells(g, nodes, rest, sheet, shared, styles),
            nodes,
            list.last(),
            sheet,
            shared,
            styles,
            k,
        );
    }
}

proof fn lemma_same_element(
    g: GridModel,
    h: GridModel,
    nodes: Nodes,
    i: int,
    back: Nodes,
    j: int,
    sheet: Seq<char>,
    shared: Seq<Seq<char>>,
    styles: Seq<Seq<char>>,
    k: Key<Seq<char>>,
)
    requires
        shown(nodes, i) == shown(back, j),
        alike_at(g, h, k),
    ensures
        alike_at(
            cells::with_cell(g, nodes, i, sheet, shared, styles),
            cells::with_cell(h, back, j, sheet, shared, styles),
            k,
        ),
{
    assert(shown(nodes, i).name == shown(back, j).name);
    if k.sheet == sheet && place(nodes, i) == Some((k.col, k.row)) {
        assert(coord::key(sheet, k.row, k.col) == k);
        assert(shown(nodes, i).kind == shown(back, j).kind);
        assert(shown(nodes, i).formula == shown(back, j).formula);
        assert(shown(nodes, i).raw == shown(back, j).raw);
        assert(shown(nodes, i).style == shown(back, j).style);
        assert(shown(nodes, i).inline == shown(back, j).inline);
        let value = cells::node_value(nodes, i, shared);
        assert(value == cells::node_value(back, j, shared));
        let record = cells::node_meta(nodes, i, k, value, styles);
        assert(record == cells::node_meta(back, j, k, value, styles));
        let formula = FormulaCell {
            formula: cells::with_sign(xml::text_of_child(nodes, i, "f"@)),
            deps: Seq::<Key<Seq<char>>>::empty(),
        };
        entries::law_get_after_put(g.cells, k, value, k);
        entries::law_get_after_put(h.cells, k, value, k);
        entries::law_get_after_put(g.meta, k, record, k);
        entries::law_get_after_put(h.meta, k, record, k);
        entries::law_get_after_put(g.formulas, k, formula, k);
        entries::law_get_after_put(h.formulas, k, formula, k);
    } else {
        lemma_other_cells_stay(g, nodes, i, sheet, shared, styles, k);
        lemma_other_cells_stay(h, back, j, sheet, shared, styles, k);
    }
}

proof fn lemma_same_elements(
    g: GridModel,
    h: GridModel,
    nodes: Nodes,
    before: Seq<int>,
    back: Nodes,
    after: Seq<int>,
    sheet: Seq<char>,
    shared: Seq<Seq<char>>,
    styles: Seq<Seq<char>>,
    k: Key<Seq<char>>,
)
    requires
        before.len() == after.len(),
        forall|j: int|
            0 <= j < after.len() ==> #[trigger] shown(back, after[j]) == shown(nodes, before[j]),
        alike_at(g, h, k),
    ensures
        alike_at(
            cells::with_cells(g, nodes, before, sheet, shared, styles),
            cells::with_cells(h, back, after, sheet, shared, styles),
            k,
        ),
    decreases before.len(),
{
    if before.len() > 0 {
        let b = before.drop_last();
        let a = after.drop_last();
        assert forall|j: int| 0 <= j < a.len() implies #[trigger] shown(back, a[j]) == shown(
            nodes,
            b[j],
        ) by {
            assert(a[j] == after[j] && b[j] == before[j]);
            assert(shown(back, after[j]) == shown(nodes, before[j]));
        }
        lemma_same_elements(g, h, nodes, b, back, a, sheet, shared, styles, k);
        let last = after.len() - 1;
        assert(shown(back, after[last]) == shown(nodes, before[last]));
        lemma_same_element(
            cells::with_cells(g, nodes, b, sheet, shared, styles),
            cells::with_cells(h, back, a, sheet, shared, styles),
            nodes,
            before.last(),
            back,
            after.last(),
            sheet,
            shared,
            styles,
            k,
        );
    }
}

proof fn lemma_cells_in_two(
    g: GridModel,
    nodes: Nodes,
    list: Seq<int>,
    at: int,
    sheet: Seq<char>,
    shared: Seq<Seq<char>>,
    styles: Seq<Seq<char>>,
)
    requires
        0 <= at <= list.len(),
    ensures
        cells::with_cells(g, nodes, list, sheet, shared, styles) == cells::with_cells(
            cells::with_cells(g, nodes, list.take(at), sheet, shared, styles),
            nodes,
            list.skip(at),
            sheet,
            shared,
            styles,
        ),
    decreases list.len() - at,
{
    if at == list.len() {
        assert(list.take(at) == list);
        assert(list.skip(at).len() == 0);
    } else {
        assert(list.drop_last().take(at) == list.take(at));
        assert(list.skip(at).drop_last() == list.drop_last().skip(at));
        assert(list.skip(at).last() == list.last());
        lemma_cells_in_two(g, nodes, list.drop_last(), at, sheet, shared, styles);
    }
}

proof fn lemma_cells_in_three(
    g: GridModel,
    nodes: Nodes,
    list: Seq<int>,
    at: int,
    sheet: Seq<char>,
    shared: Seq<Seq<char>>,
    styles: Seq<Seq<char>>,
)
    requires
        0 <= at < list.len(),
    ensures
        cells::with_cells(g, nodes, list, sheet, shared, styles) == cells::with_cells(
            cells::with_cell(
                cells::with_cells(g, nodes, list.take(at), sheet, shared, styles),
                nodes,
                list[at],
                sheet,
                shared,
                styles,
            ),
            nodes,
            list.skip(at + 1),
            sheet,
            shared,
            styles,
        ),
{
    lemma_cells_in_two(g, nodes, list, at + 1, sheet, shared, styles);
    assert(list.take(at + 1).drop_last() == list.take(at));
    assert(list.take(at + 1).last() == list[at]);
}

proof fn lemma_cell_found(nodes: Nodes, cell_ref: Seq<char>, i: int)
    ensures
        cellxml::cell_from(nodes, cell_ref, i) matches Some(k) ==> xml::attr(nodes[k], "r"@)
            == Some(cell_ref),
    decreases nodes.len() - i,
{
    if 0 <= i < nodes.len() {
        lemma_cell_found(nodes, cell_ref, i + 1);
    }
}

/// A written cell reads back, and the other cells are as they were, where the elements that are
/// found in the written document are those of the document before with the written one, and no
/// other element stands for the same cell.
pub proof fn law_written_cell_reads_back(
    s: Seq<char>,
    nodes: Nodes,
    out: Seq<char>,
    back: Nodes,
    at: int,
    cell_ref: Seq<char>,
    row: usize,
    col: usize,
    w: CellWriteModel,
    g: GridModel,
    sheet: Seq<char>,
    shared: Seq<Seq<char>>,
    styles: Seq<Seq<char>>,
)
    requires
        package::nodes_of(s) == Ok::<Nodes, ShadowError<Seq<char>>>(nodes),
        cellxml::cell_patched(s, cell_ref, row, col, w) == Ok::<Seq<char>, ShadowError<Seq<char>>>(
            out,
        ),
        package::nodes_of(out) == Ok::<Nodes, ShadowError<Seq<char>>>(back),
        coord::a1(cell_ref) == Some((col, row)),
        shows_cell_written(nodes, back, at, cell_ref, w),
        forall|j: int|
            0 <= j < xml::named(back, "c"@).len() && j != at ==> place(
                back,
                #[trigger] xml::named(back, "c"@)[j],
            ) != Some((col, row)),
    ensures
        ({
            let before = cells::with_sheet(g, nodes, sheet, shared, styles);
            let after = cells::with_sheet(g, back, sheet, shared, styles);
            let k = coord::key(sheet, row, col);
            let done = stored(nodes, cell_ref, w);
            &&& entries::get(after.cells, k) == Some(value_written(done, shared))
            &&& entries::get(after.formulas, k) == match (done.shared, done.formula) {
                (None, Some(formula)) => if text::drop_leading(formula, '=').len() == 0 {
                    entries::get(g.formulas, k)
                } else {
                    Some(
                        FormulaCell {
                            formula: cells::with_sign(text::drop_leading(formula, '=')),
                            deps: Seq::empty(),
                        },
                    )
                },
                _ => entries::get(g.formulas, k),
            }
            &&& entries::get(after.meta, k) matches Some(record) && (w.style is Some
                ==> record.style_id == w.style)
            &&& forall|other: Key<Seq<char>>|
                other != k ==> #[trigger] alike_at(before, after, other)
        }),
{
    let old_list = xml::named(nodes, "c"@);
    let list = xml::named(back, "c"@);
    let k = coord::key(sheet, row, col);
    let done = stored(nodes, cell_ref, w);
    let c = shown(back, list[at]);
    let g1 = Grid {
        merges: cells::with_merges(g.merges, nodes, xml::named(nodes, "mergeCell"@), sheet),
        ..g
    };
    let g2 = Grid {
        merges: cells::with_merges(g.merges, back, xml::named(back, "mergeCell"@), sheet),
        ..g
    };
    reveal_strlit("s");
    reveal_strlit("inlineStr");
    lemma_cell_found(nodes, cell_ref, 0);
    lemma_cells_in_three(g2, back, list, at, sheet, shared, styles);
    let head = cells::with_cells(g2, back, list.take(at), sheet, shared, styles);
    let middle = cells::with_cell(head, back, list[at], sheet, shared, styles);
    let after = cells::with_sheet(g, back, sheet, shared, styles);
    assert(place(back, list[at]) == Some((col, row)));
    assert forall|j: int| 0 <= j < list.take(at).len() implies place(
        back,
        #[trigger] list.take(at)[j],
    ) != Some((col, row)) by {
        assert(list.take(at)[j] == list[j]);
    }
    assert forall|j: int| 0 <= j < list.skip(at + 1).len() implies place(
        back,
        #[trigger] list.skip(at + 1)[j],
    ) != Some((col, row)) by {
        assert(list.skip(at + 1)[j] == list[at + 1 + j]);
    }
    lemma_all_others_stay(g2, back, list.take(at), sheet, shared, styles, k);
    lemma_all_others_stay(middle, back, list.skip(at + 1), sheet, shared, styles, k);
    assert(alike_at(after, middle, k));
    let value = cells::node_value(back, list[at], shared);
    if let Some(index) = done.shared {
        coord::law_decimal_reads_back(index as nat, usize::MAX as nat);
    }
    assert(c.kind == xml::attr_or_empty(back[list[at]], "t"@));
    assert(value == value_written(done, shared));
    let record = cells::node_meta(back, list[at], k, value, styles);
    if let Some(id) = w.style {
        coord::law_decimal_reads_back(id as nat, u32::MAX as nat);
        assert(c.style == Some(text::decimal(id as nat)));
    }
    entries::law_get_after_put(head.cells, k, value, k);
    entries::law_get_after_put(head.meta, k, record, k);
    entries::law_get_after_put(
        head.formulas,
        k,
        FormulaCell { formula: cells::with_sign(c.formula), deps: Seq::empty() },
        k,
    );
    let before = cells::with_sheet(g, nodes, sheet, shared, styles);
    assert forall|other: Key<Seq<char>>| other != k implies #[trigger] alike_at(
        before,
        after,
        other,
    ) by {
        lemma_rest_is_alike(
            g1,
            g2,
            nodes,
            back,
            at,
            cell_ref,
            row,
            col,
            w,
            sheet,
            shared,
            styles,
            other,
        );
    }
}

proof fn lemma_rest_is_alike(
    g1: GridModel,
    g2: GridModel,
    nodes: Nodes,
    back: Nodes,
    at: int,
    cell_ref: Seq<char>,
    row: usize,
    col: usize,
    w: CellWriteModel,
    sheet: Seq<char>,
    shared: Seq<Seq<char>>,
    styles: Seq<Seq<char>>,
    k: Key<Seq<char>>,
)
    requires
        alike_at(g1, g2, k),
        coord::a1(cell_ref) == Some((col, row)),
        shows_cell_written(nodes, back, at, cell_ref, w),
        k != coord::key(sheet, row, col),
    ensures
        alike_at(
            cells::with_cells(g1, nodes, xml::named(nodes, "c"@), sheet, shared, styles),
            cells::with_cells(g2, back, xml::named(back, "c"@), sheet, shared, styles),
            k,
        ),
{
    let old_list = xml::named(nodes, "c"@);
    let list = xml::named(back, "c"@);
    lemma_cell_found(nodes, cell_ref, 0);
    assert forall|j: int| 0 <= j < list.take(at).len() implies #[trigger] shown(
        back,
        list.take(at)[j],
    ) == shown(nodes, old_list.take(at)[j]) by {
        assert(shown(back, list[j]) == shown(nodes, old_list[j]));
    }
    lemma_same_elements(
        g1,
        g2,
        nodes,
        old_list.take(at),
        back,
        list.take(at),
        sheet,
        shared,
        styles,
        k,
    );
    let h1 = cells::with_cells(g1, nodes, old_list.take(at), sheet, shared, styles);
    let h2 = cells::with_cells(g2, back, list.take(at), sheet, shared, styles);
    let m2 = cells::with_cell(h2, back, list[at], sheet, shared, styles);
    lemma_cells_in_three(g2, back, list, at, sheet, shared, styles);
    assert(shown(back, list[at]).name == Some(cell_ref));
    lemma_other_cells_stay(h2, back, list[at], sheet, shared, styles, k);
    match cellxml::cell_from(nodes, cell_ref, 0) {
        Some(i) => {
            let m1 = cells::with_cell(h1, nodes, old_list[at], sheet, shared, styles);
            lemma_cells_in_three(g1, nodes, old_list, at, sheet, shared, styles);
            lemma_other_cells_stay(h1, nodes, old_list[at], sheet, shared, styles, k);
            let b = old_list.skip(at + 1);
            let a = list.skip(at + 1);
            assert forall|j: int| 0 <= j < a.len() implies #[trigger] shown(back, a[j]) == shown(
                nodes,
                b[j],
            ) by {
                assert(shown(back, list[at + 1 + j]) == shown(nodes, old_list[at + 1 + j]));
            }
            lemma_same_elements(m1, m2, nodes, b, back, a, sheet, shared, styles, k);
        },
        None => {
            lemma_cells_in_two(g1, nodes, old_list, at, sheet, shared, styles);
            let b = old_list.skip(at);
            let a = list.skip(at + 1);
            assert forall|j: int| 0 <= j < a.len() implies #[trigger] shown(back, a[j]) == shown(
                nodes,
                b[j],
            ) by {
                assert(shown(back, list[at + 1 + j]) == shown(nodes, old_list[at + j]));
            }
            lemma_same_elements(h1, m2, nodes, b, back, a, sheet, shared, styles, k);
        },
    }
}

// ----- Rules -----

/// Whether the corners of a range are in order.
pub open spec fn corners_in_order(range: ObjectRange<Seq<char>>) -> bool {
    range.start_row <= range.end_row && range.start_col <= range.end_col
}

pub open spec fn validation_is_on(sheet: Seq<char>) -> spec_fn(DataValidationRule<Seq<char>>) -> bool {
    |v: DataValidationRule<Seq<char>>| v.range.sheet == sheet
}

pub open spec fn format_is_on(sheet: Seq<char>) -> spec_fn(ConditionalFormatRule<Seq<char>>) -> bool {
    |f: ConditionalFormatRule<Seq<char>>| f.range.sheet == sheet
}

pub open spec fn filter_is_on(sheet: Seq<char>) -> spec_fn(AutoFilterRule<Seq<char>>) -> bool {
    |f: AutoFilterRule<Seq<char>>| f.range.sheet == sheet
}

pub open spec fn validations_on(
    rules: Seq<DataValidationRule<Seq<char>>>,
    sheet: Seq<char>,
) -> Seq<DataValidationRule<Seq<char>>> {
    rules.filter(validation_is_on(sheet))
}

pub open spec fn formats_on(
    rules: Seq<ConditionalFormatRule<Seq<char>>>,
    sheet: Seq<char>,
) -> Seq<ConditionalFormatRule<Seq<char>>> {
    rules.filter(format_is_on(sheet))
}

/// The filter that counts on a sheet: the first.
pub open spec fn filter_on(rules: Seq<AutoFilterRule<Seq<char>>>, sheet: Seq<char>) -> Option<
    AutoFilterRule<Seq<char>>,
> {
    let on = rules.filter(filter_is_on(sheet));
    if on.len() > 0 {
        Some(on[0])
    } else {
        None
    }
}

/// Whether an element shows a validation as it was written.
pub open spec fn shows_validation(
    nodes: Nodes,
    i: int,
    v: DataValidationRule<Seq<char>>,
) -> bool {
    &&& xml::attr(nodes[i], "sqref"@) == Some(v.range.range_text())
    &&& xml::attr(nodes[i], "type"@) == Some(v.validation_type)
    &&& xml::attr_or_empty(nodes[i], "operator"@) == v.operator
    &&& xml::attr(nodes[i], "allowBlank"@) == Some(
        if v.allow_blank {
            "1"@
        } else {
            "0"@
        },
    )
    &&& xml::text_of_child(nodes, i, "formula1"@) == v.formula1
    &&& xml::text_of_child(nodes, i, "formula2"@) == v.formula2
}

/// Whether an element shows a conditional format as it was written.
pub open spec fn shows_format(
    nodes: Nodes,
    i: int,
    f: ConditionalFormatRule<Seq<char>>,
) -> bool {
    let rules = package::with_name(nodes, xml::children(nodes, i), "cfRule"@);
    &&& xml::attr(nodes[i], "sqref"@) == Some(f.range.range_text())
    &&& rules.len() == 1
    &&& xml::attr(nodes[rules[0]], "type"@) == Some(f.rule_type)
    &&& xml::attr(nodes[rules[0]], "priority"@) == Some(text::decimal(f.priority as nat))
    &&& xml::attr_or_empty(nodes[rules[0]], "operator"@) == f.operator
    &&& xml::text_of_child(nodes, rules[0], "formula"@) == f.formula
}

/// Whether the elements of a document show the rules of a sheet as they were written.
pub open spec fn shows_rules(
    nodes: Nodes,
    validations: Seq<DataValidationRule<Seq<char>>>,
    filter: Option<AutoFilterRule<Seq<char>>>,
    formats: Seq<ConditionalFormatRule<Seq<char>>>,
) -> bool {
    let checks = xml::named(nodes, "dataValidation"@);
    let filters = xml::named(nodes, "autoFilter"@);
    let looks = xml::named(nodes, "conditionalFormatting"@);
    &&& checks.len() == validations.len()
    &&& forall|i: int|
        0 <= i < validations.len() ==> shows_validation(nodes, checks[i], #[trigger] validations[i])
    &&& match filter {
        Some(f) => filters.len() > 0 && xml::attr(nodes[filters[0]], "ref"@) == Some(
            f.range.range_text(),
        ),
        None => filters.len() == 0,
    }
    &&& looks.len() == formats.len()
    &&& forall|i: int|
        0 <= i < formats.len() ==> shows_format(nodes, looks[i], #[trigger] formats[i])
}

proof fn lemma_kept<T>(s: Seq<T>, kept: spec_fn(T) -> bool, i: int)
    requires
        0 <= i < s.filter(kept).len(),
    ensures
        s.contains(s.filter(kept)[i]),
        kept(s.filter(kept)[i]),
    decreases s.len(),
{
    reveal(Seq::filter);
    if s.len() > 0 {
        let rest = s.drop_last().filter(kept);
        if i < rest.len() {
            lemma_kept(s.drop_last(), kept, i);
            let j = choose|j: int| 0 <= j < s.len() - 1 && s.drop_last()[j] == rest[i];
            assert(s[j] == rest[i]);
        } else {
            assert(s[s.len() - 1] == s.last());
        }
    }
}

proof fn lemma_shown_validations(
    nodes: Nodes,
    found: Seq<int>,
    list: Seq<DataValidationRule<Seq<char>>>,
    sheet: Seq<char>,
)
    requires
        found.len() == list.len(),
        forall|i: int|
            0 <= i < list.len() ==> shows_validation(nodes, found[i], #[trigger] list[i])
                && list[i].range.sheet == sheet && corners_in_order(list[i].range),
    ensures
        sheetparts::validations(nodes, found, sheet) == list,
    decreases list.len(),
{
    if list.len() > 0 {
        let rest = list.drop_last();
        assert forall|i: int| 0 <= i < rest.len() implies shows_validation(
            nodes,
            found.drop_last()[i],
            #[trigger] rest[i],
        ) && rest[i].range.sheet == sheet && corners_in_order(rest[i].range) by {
            assert(rest[i] == list[i]);
        }
        lemma_shown_validations(nodes, found.drop_last(), rest, sheet);
        let v = list[list.len() - 1];
        assert(shows_validation(nodes, found.last(), v));
        sheetparts::law_ranges_read_back(v.range);
        reveal_strlit("0");
        reveal_strlit("1");
        reveal_strlit("true");
        assert(!package::is_true("0"@)) by {
            assert("0"@[0] != "1"@[0]);
            assert(text::lower("0"@).len() == 1);
            assert(text::lower("true"@).len() == 4);
        }
        assert(sheetparts::validation_at(nodes, found.last(), sheet) == Some(v));
        assert(rest.push(v) == list);
    }
}

proof fn lemma_shown_formats(
    nodes: Nodes,
    found: Seq<int>,
    list: Seq<ConditionalFormatRule<Seq<char>>>,
    sheet: Seq<char>,
)
    requires
        found.len() == list.len(),
        forall|i: int|
            0 <= i < list.len() ==> shows_format(nodes, found[i], #[trigger] list[i])
                && list[i].range.sheet == sheet && corners_in_order(list[i].range),
    ensures
        sheetparts::formats(nodes, found, sheet) == list,
    decreases list.len(),
{
    if list.len() > 0 {
        let rest = list.drop_last();
        assert forall|i: int| 0 <= i < rest.len() implies shows_format(
            nodes,
            found.drop_last()[i],
            #[trigger] rest[i],
        ) && rest[i].range.sheet == sheet && corners_in_order(rest[i].range) by {
            assert(rest[i] == list[i]);
        }
        lemma_shown_formats(nodes, found.drop_last(), rest, sheet);
        let f = list[list.len() - 1];
        assert(shows_format(nodes, found.last(), f));
        sheetparts::law_ranges_read_back(f.range);
        coord::law_decimal_reads_back(f.priority as nat, usize::MAX as nat);
        let rules = package::with_name(nodes, xml::children(nodes, found.last()), "cfRule"@);
        assert(sheetparts::format_rule(nodes, rules[0], f.range) == f);
        assert(sheetparts::format_rules(nodes, found.last(), sheet) == seq![f]);
        assert(rest + seq![f] == list);
    }
}

/// The rules of a sheet read back from the document that they are written into, where the
/// elements that are found in it are those that were written.
pub proof fn law_written_rules_read_back(
    s: Seq<char>,
    sheet: Seq<char>,
    validations: Seq<DataValidationRule<Seq<char>>>,
    filters: Seq<AutoFilterRule<Seq<char>>>,
    formats: Seq<ConditionalFormatRule<Seq<char>>>,
    out: Seq<char>,
    back: Nodes,
)
    requires
        sheetxml::rules_patched(s, sheet, validations, filters, formats) == Ok::<
            Seq<char>,
            ShadowError<Seq<char>>,
        >(out),
        package::nodes_of(out) == Ok::<Nodes, ShadowError<Seq<char>>>(back),
        shows_rules(
            back,
            validations_on(validations, sheet),
            filter_on(filters, sheet),
            formats_on(formats, sheet),
        ),
        forall|i: int|
            0 <= i < validations.len() ==> corners_in_order((#[trigger] validations[i]).range),
        forall|i: int|
            0 <= i < filters.len() ==> corners_in_order((#[trigger] filters[i]).range),
        forall|i: int|
            0 <= i < formats.len() ==> corners_in_order((#[trigger] formats[i]).range),
    ensures
        sheetparts::sheet_rules(sheet, out) == Ok::<SheetRulesModel, ShadowError<Seq<char>>>(
            SheetRules {
                validations: validations_on(validations, sheet),
                filter: filter_on(filters, sheet),
                formats: formats_on(formats, sheet),
            },
        ),
{
    let checks = validations_on(validations, sheet);
    let looks = formats_on(formats, sheet);
    assert forall|i: int| 0 <= i < checks.len() implies (#[trigger] checks[i]).range.sheet == sheet
        && corners_in_order(checks[i].range) by {
        lemma_kept(validations, validation_is_on(sheet), i);
    }
    assert forall|i: int| 0 <= i < looks.len() implies (#[trigger] looks[i]).range.sheet == sheet
        && corners_in_order(looks[i].range) by {
        lemma_kept(formats, format_is_on(sheet), i);
    }
    lemma_shown_validations(back, xml::named(back, "dataValidation"@), checks, sheet);
    lemma_shown_formats(back, xml::named(back, "conditionalFormatting"@), looks, sheet);
    let on = filters.filter(filter_is_on(sheet));
    if on.len() > 0 {
        lemma_kept(filters, filter_is_on(sheet), 0);
        sheetparts::law_ranges_read_back(on[0].range);
    }
}

/// The rules stand behind the cells: what the document without rules has up to the end of its
/// data and behind it stays.
pub proof fn law_rules_stand_behind_the_cells(
    s: Seq<char>,
    sheet: Seq<char>,
    validations: Seq<DataValidationRule<Seq<char>>>,
    filters: Seq<AutoFilterRule<Seq<char>>>,
    formats: Seq<ConditionalFormatRule<Seq<char>>>,
    nodes: Nodes,
    data: int,
    at: int,
)
    requires
        package::nodes_of(sheetxml::rules_stripped(s)) == Ok::<Nodes, ShadowError<Seq<char>>>(
            nodes,
        ),
        xml::first_of(xml::named(nodes, "sheetData"@)) == Some(data),
        sheetxml::data_end(sheetxml::rules_stripped(s), nodes[data]) == Some(at),
        0 <= at <= sheetxml::rules_stripped(s).len(),
    ensures
        sheetxml::rules_patched(s, sheet, validations, filters, formats) matches Ok(out)
            && cellxml::differs_between(sheetxml::rules_stripped(s), out, at, at),
{
    reveal(cellxml::differs_between);
    let bare = sheetxml::rules_stripped(s);
    let out = sheetxml::rules_patched(s, sheet, validations, filters, formats)->Ok_0;
    assert(out.take(at) == bare.take(at));
    assert(out.skip(out.len() - (bare.len() - at)) == bare.skip(at));
}

} // verus!
