//! What formulas mean: which cells their references, ranges and functions stand for, and which
//! cells they depend on.

use crate::calls;
use crate::coord;
use crate::coord::Key;
use crate::deps;
use crate::deps::CellsModel;
use crate::entries;
use crate::eval;
use crate::eval::{Arith, CtxModel, Func, Outcome};
use crate::numbers;
use crate::objects::TableModel;
use crate::pattern;
use crate::ranges;
use crate::structured;
use crate::text;
use vstd::prelude::*;
use vstd::string::*;

verus! {

// ----- References -----

/// Whether the pattern of single references reads a text as a cell: its sheet in quotes or
/// bare, where it has one, its column and its row.
pub open spec fn reads_as_cell(t: Seq<char>, sheet: Option<Seq<char>>, row: usize, col: usize) -> bool {
    match pattern::first_match(ranges::REF_ONLY_PATTERN@, text::trim(t)) {
        Some(g) => {
            &&& match sheet {
                Some(name) => {
                    ||| pattern::group(g, 1) == Some(name) && pattern::group(g, 2) is None
                    ||| pattern::group(g, 1) is None && pattern::group(g, 2) == Some(name)
                },
                None => pattern::group(g, 1) is None && pattern::group(g, 2) is None,
            }
            &&& pattern::group(g, 3) matches Some(name) && coord::col_number(name) == Some(col)
            &&& pattern::group(g, 4) matches Some(number) && text::parsed_size(number) == Some(row)
        },
        None => false,
    }
}

/// A reference names the cell of its column and row on the sheet that it gives, in quotes or
/// bare, or else on the sheet of the formula.
pub proof fn law_references_name_their_cell(
    t: Seq<char>,
    default_sheet: Seq<char>,
    sheet: Option<Seq<char>>,
    row: usize,
    col: usize,
)
    requires
        reads_as_cell(t, sheet, row, col),
    ensures
        ranges::ref_cell(t, default_sheet) == Some(
            coord::key(
                match sheet {
                    Some(name) => name,
                    None => default_sheet,
                },
                row,
                col,
            ),
        ),
{
}

/// What a cell holds, as a text: nothing where the workbook does not have it.
pub open spec fn content(cells: CellsModel, k: Key<Seq<char>>, v: Seq<char>) -> bool {
    entries::get(cells, k) == Some(v) || (entries::get(cells, k) is None && v.len() == 0)
}

/// A formula that is one reference has the value of the cell that it names.
pub proof fn law_a_reference_is_its_cell(
    s: Seq<char>,
    c: CtxModel,
    fuel: nat,
    sheet: Option<Seq<char>>,
    row: usize,
    col: usize,
    v: Seq<char>,
)
    requires
        fuel > 0,
        pattern::first_match(
            structured::STRUCTURED_PATTERN@,
            deps::literals_blanked(text::drop_leading(text::trim(s), '=')),
        ) is None,
        reads_as_cell(text::drop_leading(text::trim(s), '='), sheet, row, col),
        content(
            c.cells,
            coord::key(
                match sheet {
                    Some(name) => name,
                    None => c.sheet,
                },
                row,
                col,
            ),
            v,
        ),
    ensures
        eval::formula_value(s, c, fuel) == Outcome::<Seq<char>, Seq<char>, Seq<Seq<char>>>::Value(v),
{
    law_references_name_their_cell(
        text::drop_leading(text::trim(s), '='),
        c.sheet,
        sheet,
        row,
        col,
    );
    assert(v.len() == 0 ==> v == Seq::<char>::empty());
}

// ----- Sums, counts and the like -----

/// Whether an argument is a reference to a single cell that holds the given value.
pub open spec fn is_cell_of(c: CtxModel, arg: Seq<char>, v: Seq<char>) -> bool {
    &&& !text::contains(text::trim(arg), ":"@)
    &&& exists|sheet: Option<Seq<char>>, row: usize, col: usize| #[trigger]
        reads_as_cell(text::trim(arg), sheet, row, col) && content(
            c.cells,
            coord::key(
                match sheet {
                    Some(name) => name,
                    None => c.sheet,
                },
                row,
                col,
            ),
            v,
        )
}

/// The arguments of an aggregate count one by one.
pub proof fn law_arguments_count_one_by_one(c: CtxModel, a: Seq<Seq<char>>, b: Seq<Seq<char>>)
    ensures
        eval::aggregate_values(c, a + b) == eval::aggregate_values(c, a) + eval::aggregate_values(
            c,
            b,
        ),
    decreases b.len(),
{
    if b.len() == 0 {
        assert(a + b == a);
        assert(eval::aggregate_values(c, a) + eval::aggregate_values(c, b)
            == eval::aggregate_values(c, a));
    } else {
        assert((a + b).drop_last() == a + b.drop_last());
        assert((a + b).last() == b.last());
        law_arguments_count_one_by_one(c, a, b.drop_last());
        let x = eval::aggregate_values(c, a);
        let y = eval::aggregate_values(c, b.drop_last());
        let all = eval::aggregate_values(c, a + b);
        let more = eval::aggregate_values(c, b);
        assert(all == x + more);
    }
}

/// References to single cells count with the values of those cells, in the order in which they
/// are given.
pub proof fn law_single_cells_count_with_their_values(
    c: CtxModel,
    args: Seq<Seq<char>>,
    values: Seq<Seq<char>>,
)
    requires
        args.len() == values.len(),
        forall|i: int| 0 <= i < args.len() ==> is_cell_of(c, #[trigger] args[i], values[i]),
    ensures
        eval::aggregate_values(c, args) == values,
    decreases args.len(),
{
    if args.len() > 0 {
        let n = args.len() - 1;
        assert forall|i: int| 0 <= i < args.drop_last().len() implies is_cell_of(
            c,
            #[trigger] args.drop_last()[i],
            values.drop_last()[i],
        ) by {
            assert(is_cell_of(c, args[i], values[i]));
        }
        law_single_cells_count_with_their_values(c, args.drop_last(), values.drop_last());
        assert(is_cell_of(c, args[n], values[n]));
        let arg = text::trim(args.last());
        let (sheet, row, col) = choose|sheet: Option<Seq<char>>, row: usize, col: usize| #[trigger]
            reads_as_cell(arg, sheet, row, col) && content(
                c.cells,
                coord::key(
                    match sheet {
                        Some(name) => name,
                        None => c.sheet,
                    },
                    row,
                    col,
                ),
                values[n],
            );
        law_references_name_their_cell(arg, c.sheet, sheet, row, col);
        assert(values[n].len() == 0 ==> values[n] == Seq::<char>::empty());
        assert(values.drop_last() + seq![values[n]] == values);
    }
}

pub open spec fn counts_as_number() -> spec_fn(Seq<char>) -> bool {
    |t: Seq<char>| numbers::is_number(t)
}

pub open spec fn holds_something() -> spec_fn(Seq<char>) -> bool {
    |t: Seq<char>| t.len() > 0
}

pub proof fn lemma_kept_values(s: Seq<Seq<char>>)
    ensures
        eval::numbers_of(s) == s.filter(counts_as_number()),
        text::nonempty(s) == s.filter(holds_something()),
    decreases s.len(),
{
    reveal(Seq::filter);
    if s.len() > 0 {
        lemma_kept_values(s.drop_last());
    } else {
        assert(s == Seq::<Seq<char>>::empty());
    }
}

/// What aggregates of given values are: sums, means and extremes are asked of exactly the
/// numbers among the values, and counts count the numbers, the values that are there, and
/// those that are not.
pub proof fn law_aggregates_are_of_their_values(c: CtxModel, args: Seq<Seq<char>>)
    ensures
        ({
            let values = eval::aggregate_values(c, args);
            let numbers = values.filter(counts_as_number());
            let there = values.filter(holds_something());
            &&& eval::aggregate(Func::Sum, c, args) == eval::number_for(c, Arith::Total, numbers)
            &&& eval::aggregate(Func::Average, c, args) == eval::number_for(
                c,
                Arith::Average,
                numbers,
            )
            &&& eval::aggregate(Func::Max, c, args) == eval::number_for(c, Arith::Max, numbers)
            &&& eval::aggregate(Func::Min, c, args) == eval::number_for(c, Arith::Min, numbers)
            &&& eval::aggregate(Func::Count, c, args) == Outcome::<
                Seq<char>,
                Seq<char>,
                Seq<Seq<char>>,
            >::Value(text::decimal(numbers.len()))
            &&& eval::aggregate(Func::Counta, c, args) == Outcome::<
                Seq<char>,
                Seq<char>,
                Seq<Seq<char>>,
            >::Value(text::decimal(there.len()))
            &&& eval::aggregate(Func::Countblank, c, args) == Outcome::<
                Seq<char>,
                Seq<char>,
                Seq<Seq<char>>,
            >::Value(text::decimal((values.len() - there.len()) as nat))
        }),
{
    lemma_kept_values(eval::aggregate_values(c, args));
}

proof fn lemma_all_numbers(s: Seq<Seq<char>>)
    requires
        forall|i: int| 0 <= i < s.len() ==> numbers::is_number(#[trigger] s[i]),
    ensures
        eval::numbers_of(s) == s,
    decreases s.len(),
{
    if s.len() > 0 {
        assert(numbers::is_number(s[s.len() - 1]));
        assert forall|i: int| 0 <= i < s.drop_last().len() implies numbers::is_number(
            #[trigger] s.drop_last()[i],
        ) by {
            assert(numbers::is_number(s[i]));
        }
        lemma_all_numbers(s.drop_last());
        assert(s.drop_last().push(s.last()) == s);
    }
}

/// A sum of single cells that hold numbers asks for the total of exactly those numbers.
pub proof fn law_sums_add_up_the_cells(c: CtxModel, args: Seq<Seq<char>>, values: Seq<Seq<char>>)
    requires
        args.len() == values.len(),
        forall|i: int| 0 <= i < args.len() ==> is_cell_of(c, #[trigger] args[i], values[i]),
        forall|i: int| 0 <= i < values.len() ==> numbers::is_number(#[trigger] values[i]),
    ensures
        eval::aggregate(Func::Sum, c, args) == eval::number_for(c, Arith::Total, values),
        eval::aggregate(Func::Average, c, args) == eval::number_for(c, Arith::Average, values),
        eval::aggregate(Func::Max, c, args) == eval::number_for(c, Arith::Max, values),
        eval::aggregate(Func::Min, c, args) == eval::number_for(c, Arith::Min, values),
{
    law_single_cells_count_with_their_values(c, args, values);
    lemma_all_numbers(values);
}

pub proof fn lemma_no_sign(s: Seq<char>, p: Seq<char>, i: int)
    requires
        p.len() == 1,
        0 <= i,
        text::find_from(s, p, i) is None,
    ensures
        forall|k: int| i <= k < s.len() ==> #[trigger] s[k] != p[0],
    decreases s.len() - i,
{
    if i < s.len() {
        assert(s.subrange(i, i + 1)[0] == s[i]);
        if s[i] == p[0] {
            assert(s.subrange(i, i + 1) == p);
        }
        lemma_no_sign(s, p, i + 1);
    }
}

proof fn lemma_trim_is_shorter(s: Seq<char>)
    ensures
        text::trim_start(s).len() <= s.len(),
        text::trim_end(s).len() <= s.len(),
        s.len() > 0 && text::is_white(s[0]) ==> text::trim_start(s).len() < s.len(),
        s.len() > 0 && text::is_white(s.last()) ==> text::trim_end(s).len() < s.len(),
    decreases s.len(),
{
    if s.len() > 0 {
        lemma_trim_is_shorter(s.subrange(1, s.len() as int));
        lemma_trim_is_shorter(s.drop_last());
    }
}

/// A text without space at its ends is so with another such text behind it.
pub proof fn lemma_trimmed(s: Seq<char>)
    requires
        s.len() > 0,
    ensures
        text::trim(s) == s <==> !text::is_white(s[0]) && !text::is_white(s.last()),
{
    lemma_trim_is_shorter(s);
    lemma_trim_is_shorter(text::trim_start(s));
}

/// A text with one sign in it is split at the sign.
pub proof fn lemma_split_at_sign(a: Seq<char>, c: char, b: Seq<char>)
    requires
        forall|i: int| 0 <= i < a.len() ==> #[trigger] a[i] != c,
        forall|i: int| 0 <= i < b.len() ==> #[trigger] b[i] != c,
    ensures
        text::split(a + seq![c] + b, c) == seq![a, b],
    decreases b.len(),
{
    let s = a + seq![c] + b;
    if b.len() == 0 {
        assert(s.drop_last() == a);
        assert(s.last() == c);
        text::lemma_unsplit(a, c);
        assert(b == Seq::<char>::empty());
        assert(seq![a].push(Seq::<char>::empty()) == seq![a, b]);
    } else {
        assert(s.drop_last() == a + seq![c] + b.drop_last());
        assert(s.last() == b.last());
        assert(b[b.len() - 1] != c);
        assert forall|i: int| 0 <= i < b.drop_last().len() implies #[trigger] b.drop_last()[i]
            != c by {
            assert(b[i] != c);
        }
        lemma_split_at_sign(a, c, b.drop_last());
        let parts = text::split(s.drop_last(), c);
        assert(parts == seq![a, b.drop_last()]);
        assert(b.drop_last().push(b.last()) == b);
        assert(parts.drop_last().push(parts.last().push(s.last())) == seq![a, b]);
    }
}

/// The values of a range from a cell to a cell.
#[verifier::rlimit(40)]
#[verifier::spinoff_prover]
proof fn lemma_range_of_one_cell(x: Seq<char>, c: CtxModel, k: Key<Seq<char>>)
    requires
        x.len() > 0,
        text::trim(x) == x,
        !text::contains(x, ":"@),
        ranges::ref_cell(x, c.sheet) == Some(k),
        ranges::ref_column(x, c.sheet) is None,
    ensures
        ranges::values_in(x + ":"@ + x, c.sheet, c.cells) == seq![
            (k, ranges::value_at(c.cells, k)),
        ],
        text::trim(x + ":"@ + x) == x + ":"@ + x,
        text::contains(x + ":"@ + x, ":"@),
{
    reveal_strlit(":");
    let r = x + ":"@ + x;
    lemma_no_sign(x, ":"@, 0);
    lemma_trimmed(x);
    lemma_trimmed(r);
    assert(r[0] == x[0] && r.last() == x.last());
    assert(":"@ == seq![':']);
    lemma_split_at_sign(x, ':', x);
    text::lemma_cut_at_sign(x, ":"@, x);
    let parts = text::split(r, ':');
    assert(parts[0] == x && parts[1] == x);
    assert(ranges::ref_cell(x, k.sheet) == Some(k));
    let keys = structured::area_keys(k.sheet, k.row, k.row as int, k.col, k.col);
    assert(structured::area_keys(k.sheet, k.row, k.row - 1, k.col, k.col).len() == 0);
    assert(structured::row_keys(k.sheet, k.row, k.col, k.col) =~= seq![k]);
    assert(keys =~= seq![k]);
    assert(ranges::values_of(keys, c.cells) =~= seq![(k, ranges::value_at(c.cells, k))]);
}

/// A reference to one cell counts as the range from that cell to itself does.
pub proof fn law_a_cell_is_a_range_of_itself(c: CtxModel, x: Seq<char>, k: Key<Seq<char>>, f: Func)
    requires
        x.len() > 0,
        text::trim(x) == x,
        !text::contains(x, ":"@),
        ranges::ref_cell(x, c.sheet) == Some(k),
        ranges::ref_column(x, c.sheet) is None,
    ensures
        eval::aggregate_values(c, seq![x]) == eval::aggregate_values(c, seq![x + ":"@ + x]),
        eval::aggregate(f, c, seq![x]) == eval::aggregate(f, c, seq![x + ":"@ + x]),
        ranges::values_in(x, c.sheet, c.cells) == ranges::values_in(
            x + ":"@ + x,
            c.sheet,
            c.cells,
        ),
{
    let r = x + ":"@ + x;
    let none = Seq::<Seq<char>>::empty();
    lemma_range_of_one_cell(x, c, k);
    assert(seq![x].drop_last() == none && seq![r].drop_last() == none);
    assert(eval::aggregate_values(c, none) == none);
    let one = seq![(k, ranges::value_at(c.cells, k))];
    assert(eval::second_parts(one) =~= seq![ranges::value_at(c.cells, k)]);
    reveal_strlit(":");
    lemma_no_sign(x, ":"@, 0);
    text::lemma_unsplit(x, ':');
    assert(ranges::range_entries(x, c.sheet, c.cells) is None);
}

// ----- Dependencies -----

/// Whether a match of the pattern of cells and ranges names a sheet, in quotes or bare; or
/// none, where none is given.
pub open spec fn match_names_sheet(g: Seq<Option<Seq<char>>>, sheet: Option<Seq<char>>) -> bool {
    match sheet {
        Some(name) => {
            ||| pattern::group(g, 1) == Some(name) && pattern::group(g, 2) is None
            ||| pattern::group(g, 1) is None && pattern::group(g, 2) == Some(name)
        },
        None => pattern::group(g, 1) is None && pattern::group(g, 2) is None,
    }
}

/// Whether a match of the pattern of cells and ranges reads as a cell, or as a range with a
/// last cell.
pub open spec fn match_reads_as(
    g: Seq<Option<Seq<char>>>,
    row: usize,
    col: usize,
    last: Option<(usize, usize)>,
) -> bool {
    &&& pattern::group(g, 3) matches Some(name) && coord::col_number(name) == Some(col)
    &&& pattern::group(g, 4) matches Some(number) && text::parsed_size(number) == Some(row)
    &&& match last {
        Some((r, c)) => {
            &&& pattern::group(g, 5) matches Some(name) && coord::col_number(name) == Some(c)
            &&& pattern::group(g, 6) matches Some(number) && text::parsed_size(number) == Some(r)
        },
        None => pattern::group(g, 5) is None && pattern::group(g, 6) is None,
    }
}

/// Whether a cell is one that a match names: on its sheet, and between its ends.
pub open spec fn named_by(
    k: Key<Seq<char>>,
    sheet: Seq<char>,
    row: usize,
    col: usize,
    last: Option<(usize, usize)>,
) -> bool {
    coord::lies_between(
        k,
        coord::key(sheet, row, col),
        match last {
            Some((r, c)) => coord::key(sheet, r, c),
            None => coord::key(sheet, row, col),
        },
    )
}

proof fn lemma_area_on_one_sheet(found: Seq<Key<Seq<char>>>, sheet: Seq<char>, a: structured::Area, k: Key<
    Seq<char>,
>)
    ensures
        deps::area_on_sheets(found, seq![sheet], a).contains(k) <==> found.contains(k) || (k.sheet
            == sheet && a.0 <= k.row <= a.1 && a.2 <= k.col <= a.3),
{
    let none = Seq::<Seq<char>>::empty();
    assert(seq![sheet].drop_last() == none);
    assert(deps::area_on_sheets(found, none, a) == found);
    let area = structured::area_keys(sheet, a.0, a.1 as int, a.2, a.3);
    structured::law_area_members(sheet, a.0, a.1, a.2, a.3, k);
    entries::lemma_with_all_members(found, area, k);
}

proof fn lemma_area_keeps(
    found: Seq<Key<Seq<char>>>,
    sheets: Seq<Seq<char>>,
    a: structured::Area,
    k: Key<Seq<char>>,
)
    requires
        found.contains(k),
    ensures
        deps::area_on_sheets(found, sheets, a).contains(k),
    decreases sheets.len(),
{
    if sheets.len() > 0 {
        lemma_area_keeps(found, sheets.drop_last(), a, k);
        entries::lemma_with_all_members(
            deps::area_on_sheets(found, sheets.drop_last(), a),
            structured::area_keys(sheets.last(), a.0, a.1 as int, a.2, a.3),
            k,
        );
    }
}

proof fn lemma_cell_hits_keep(
    hits: Seq<(Seq<char>, Seq<Option<Seq<char>>>)>,
    default_sheet: Seq<char>,
    order: Seq<Seq<char>>,
    n: int,
    k: Key<Seq<char>>,
)
    requires
        0 <= n <= hits.len(),
        deps::cell_hits(hits.take(n), default_sheet, order).contains(k),
    ensures
        deps::cell_hits(hits, default_sheet, order).contains(k),
    decreases hits.len() - n,
{
    if n == hits.len() {
        assert(hits.take(n) == hits);
    } else {
        assert(hits.take(n + 1).drop_last() == hits.take(n));
        let g = hits.take(n + 1).last().1;
        let step = deps::cell_hits(hits.take(n + 1), default_sheet, order);
        lemma_step_keeps(hits.take(n + 1), default_sheet, order, k);
        lemma_cell_hits_keep(hits, default_sheet, order, n + 1, k);
    }
}

proof fn lemma_step_keeps(
    hits: Seq<(Seq<char>, Seq<Option<Seq<char>>>)>,
    default_sheet: Seq<char>,
    order: Seq<Seq<char>>,
    k: Key<Seq<char>>,
)
    requires
        hits.len() > 0,
        deps::cell_hits(hits.drop_last(), default_sheet, order).contains(k),
    ensures
        deps::cell_hits(hits, default_sheet, order).contains(k),
{
    let found = deps::cell_hits(hits.drop_last(), default_sheet, order);
    assert forall|sheets: Seq<Seq<char>>, a: structured::Area| #[trigger]
        deps::area_on_sheets(found, sheets, a).contains(k) by {
        lemma_area_keeps(found, sheets, a, k);
    }
}

proof fn lemma_columns_keep(
    found: Seq<Key<Seq<char>>>,
    cells: CellsModel,
    sheets: Seq<Seq<char>>,
    c1: usize,
    c2: usize,
    k: Key<Seq<char>>,
)
    requires
        found.contains(k),
    ensures
        deps::columns_on_sheets(found, cells, sheets, c1, c2).contains(k),
    decreases sheets.len(),
{
    if sheets.len() > 0 {
        lemma_columns_keep(found, cells, sheets.drop_last(), c1, c2, k);
        lemma_column_cells(
            deps::columns_on_sheets(found, cells, sheets.drop_last(), c1, c2),
            cells,
            sheets.last(),
            c1,
            c2,
            k,
        );
    }
}

/// The cells of a column are added to those that are there.
proof fn lemma_column_cells(
    found: Seq<Key<Seq<char>>>,
    cells: CellsModel,
    sheet: Seq<char>,
    c1: usize,
    c2: usize,
    k: Key<Seq<char>>,
)
    ensures
        deps::column_cells(found, cells, sheet, c1, c2).contains(k) <==> found.contains(k) || (
        k.sheet == sheet && c1 <= k.col <= c2 && exists|i: int|
            0 <= i < cells.len() && (#[trigger] cells[i]).0 == k),
    decreases cells.len(),
{
    if cells.len() > 0 {
        let rest = cells.drop_last();
        lemma_column_cells(found, rest, sheet, c1, c2, k);
        let done = deps::column_cells(found, rest, sheet, c1, c2);
        let last = cells.last().0;
        entries::lemma_with_member(done, last, k);
        assert(cells[cells.len() - 1].0 == last);
        if exists|i: int| 0 <= i < rest.len() && (#[trigger] rest[i]).0 == k {
            let i = choose|i: int| 0 <= i < rest.len() && (#[trigger] rest[i]).0 == k;
            assert(cells[i].0 == k);
        }
        if exists|i: int| 0 <= i < cells.len() && (#[trigger] cells[i]).0 == k {
            let i = choose|i: int| 0 <= i < cells.len() && (#[trigger] cells[i]).0 == k;
            if i < rest.len() {
                assert(rest[i].0 == k);
            }
        }
    }
}

proof fn lemma_column_hits_keep(
    found: Seq<Key<Seq<char>>>,
    hits: Seq<(Seq<char>, Seq<Option<Seq<char>>>)>,
    default_sheet: Seq<char>,
    cells: CellsModel,
    order: Seq<Seq<char>>,
    k: Key<Seq<char>>,
)
    requires
        found.contains(k),
    ensures
        deps::column_hits(found, hits, default_sheet, cells, order).contains(k),
    decreases hits.len(),
{
    if hits.len() > 0 {
        lemma_column_hits_keep(found, hits.drop_last(), default_sheet, cells, order, k);
        let done = deps::column_hits(found, hits.drop_last(), default_sheet, cells, order);
        assert forall|sheets: Seq<Seq<char>>, a: usize, b: usize| #[trigger]
            deps::columns_on_sheets(done, cells, sheets, a, b).contains(k) by {
            lemma_columns_keep(done, cells, sheets, a, b, k);
        }
    }
}

/// Whether a sheet's name stands for one sheet in a reference: it holds no sign of a span of
/// sheets and no doubled quotes.
pub open spec fn one_sheet(name: Seq<char>) -> bool {
    !text::contains(name, ":"@) && text::replaced(name, "''"@, "'"@) == name
}

/// A formula depends on every cell that its references name: a reference to a cell or a range,
/// with a sheet in quotes, a bare one or none, gives the cells between its ends on that sheet,
/// or on the sheet of the formula.
pub proof fn law_formulas_depend_on_what_they_name(
    formula: Seq<char>,
    default_sheet: Seq<char>,
    cells: CellsModel,
    order: Seq<Seq<char>>,
    i: int,
    sheet: Option<Seq<char>>,
    row: usize,
    col: usize,
    last: Option<(usize, usize)>,
    k: Key<Seq<char>>,
)
    requires
        ({
            let hits = pattern::scan(deps::CELL_PATTERN@, formula).0;
            &&& 0 <= i < hits.len()
            &&& match_names_sheet(hits[i].1, sheet)
            &&& match_reads_as(hits[i].1, row, col, last)
        }),
        one_sheet(match sheet {
            Some(name) => name,
            None => default_sheet,
        }),
        named_by(
            k,
            match sheet {
                Some(name) => name,
                None => default_sheet,
            },
            row,
            col,
            last,
        ),
    ensures
        deps::plain_deps(formula, default_sheet, cells, order).contains(k),
{
    let hits = pattern::scan(deps::CELL_PATTERN@, formula).0;
    let g = hits[i].1;
    let name = match sheet {
        Some(name) => name,
        None => default_sheet,
    };
    let upto = hits.take(i + 1);
    assert(upto.drop_last() == hits.take(i));
    assert(upto.last() == hits[i]);
    lemma_area_on_one_sheet(
        deps::cell_hits(hits.take(i), default_sheet, order),
        name,
        deps::match_area(g),
        k,
    );
    lemma_cut_nowhere(name);
    assert(deps::cell_hits(upto, default_sheet, order).contains(k));
    lemma_cell_hits_keep(hits, default_sheet, order, i + 1, k);
    lemma_column_hits_keep(
        deps::cell_hits(hits, default_sheet, order),
        pattern::scan(deps::COLUMNS_PATTERN@, formula).0,
        default_sheet,
        cells,
        order,
        k,
    );
}

/// A formula whose only reference names a cell or a range depends on the cells between its
/// ends and on no others.
pub proof fn law_one_reference_gives_just_its_cells(
    formula: Seq<char>,
    default_sheet: Seq<char>,
    cells: CellsModel,
    order: Seq<Seq<char>>,
    sheet: Option<Seq<char>>,
    row: usize,
    col: usize,
    last: Option<(usize, usize)>,
    k: Key<Seq<char>>,
)
    requires
        ({
            let hits = pattern::scan(deps::CELL_PATTERN@, formula).0;
            &&& hits.len() == 1
            &&& match_names_sheet(hits[0].1, sheet)
            &&& match_reads_as(hits[0].1, row, col, last)
        }),
        pattern::scan(deps::COLUMNS_PATTERN@, formula).0.len() == 0,
        one_sheet(match sheet {
            Some(name) => name,
            None => default_sheet,
        }),
    ensures
        deps::plain_deps(formula, default_sheet, cells, order).contains(k) <==> named_by(
            k,
            match sheet {
                Some(name) => name,
                None => default_sheet,
            },
            row,
            col,
            last,
        ),
{
    let hits = pattern::scan(deps::CELL_PATTERN@, formula).0;
    let g = hits[0].1;
    let none = Seq::<Key<Seq<char>>>::empty();
    let name = match sheet {
        Some(name) => name,
        None => default_sheet,
    };
    assert(hits.drop_last().len() == 0);
    assert(deps::cell_hits(hits.drop_last(), default_sheet, order) == none);
    lemma_area_on_one_sheet(none, name, deps::match_area(g), k);
    lemma_cut_nowhere(name);
}

/// Whether a match of the pattern of whole columns reads as the columns from one to another.
pub open spec fn match_reads_as_columns(g: Seq<Option<Seq<char>>>, a: usize, b: usize) -> bool {
    &&& pattern::group(g, 3) matches Some(name) && coord::col_number(name) == Some(a)
    &&& pattern::group(g, 4) matches Some(name) && coord::col_number(name) == Some(b)
}

proof fn lemma_later_columns_keep(
    found: Seq<Key<Seq<char>>>,
    hits: Seq<(Seq<char>, Seq<Option<Seq<char>>>)>,
    default_sheet: Seq<char>,
    cells: CellsModel,
    order: Seq<Seq<char>>,
    n: int,
    k: Key<Seq<char>>,
)
    requires
        0 <= n <= hits.len(),
        deps::column_hits(found, hits.take(n), default_sheet, cells, order).contains(k),
    ensures
        deps::column_hits(found, hits, default_sheet, cells, order).contains(k),
    decreases hits.len() - n,
{
    if n == hits.len() {
        assert(hits.take(n) == hits);
    } else {
        let upto = hits.take(n + 1);
        assert(upto.drop_last() == hits.take(n));
        let done = deps::column_hits(found, hits.take(n), default_sheet, cells, order);
        assert forall|sheets: Seq<Seq<char>>, a: usize, b: usize| #[trigger]
            deps::columns_on_sheets(done, cells, sheets, a, b).contains(k) by {
            lemma_columns_keep(done, cells, sheets, a, b, k);
        }
        lemma_later_columns_keep(found, hits, default_sheet, cells, order, n + 1, k);
    }
}

/// A formula that names whole columns depends on every cell of those columns that has a value.
pub proof fn law_formulas_depend_on_named_columns(
    formula: Seq<char>,
    default_sheet: Seq<char>,
    cells: CellsModel,
    order: Seq<Seq<char>>,
    i: int,
    sheet: Option<Seq<char>>,
    a: usize,
    b: usize,
    k: Key<Seq<char>>,
    v: Seq<char>,
)
    requires
        ({
            let hits = pattern::scan(deps::COLUMNS_PATTERN@, formula).0;
            &&& 0 <= i < hits.len()
            &&& match_names_sheet(hits[i].1, sheet)
            &&& match_reads_as_columns(hits[i].1, a, b)
        }),
        one_sheet(match sheet {
            Some(name) => name,
            None => default_sheet,
        }),
        entries::get(cells, k) == Some(v),
        k.sheet == match sheet {
            Some(name) => name,
            None => default_sheet,
        },
        a <= k.col <= b || b <= k.col <= a,
    ensures
        deps::plain_deps(formula, default_sheet, cells, order).contains(k),
{
    let found = deps::cell_hits(
        pattern::scan(deps::CELL_PATTERN@, formula).0,
        default_sheet,
        order,
    );
    let hits = pattern::scan(deps::COLUMNS_PATTERN@, formula).0;
    let name = match sheet {
        Some(name) => name,
        None => default_sheet,
    };
    let upto = hits.take(i + 1);
    assert(upto.drop_last() == hits.take(i));
    assert(upto.last() == hits[i]);
    let done = deps::column_hits(found, hits.take(i), default_sheet, cells, order);
    lemma_cut_nowhere(name);
    assert(seq![name].drop_last().len() == 0);
    assert(deps::columns_on_sheets(
        done,
        cells,
        seq![name].drop_last(),
        deps::low(a, b),
        deps::high(a, b),
    ) == done);
    entries::lemma_place(cells, k);
    lemma_column_cells(done, cells, name, deps::low(a, b), deps::high(a, b), k);
    assert(deps::column_hits(found, upto, default_sheet, cells, order).contains(k));
    lemma_later_columns_keep(found, hits, default_sheet, cells, order, i + 1, k);
}

/// The dependencies of a formula hold those of its references, of its names and of its
/// structured references, and no others.
pub proof fn law_dependencies_come_from_three_sources(
    formula: Seq<char>,
    at: Key<Seq<char>>,
    cells: CellsModel,
    order: Seq<Seq<char>>,
    names: deps::NamesModel,
    formula_keys: Seq<Key<Seq<char>>>,
    tables: Seq<TableModel>,
    k: Key<Seq<char>>,
)
    ensures
        ({
            let bare = deps::literals_blanked(formula);
            let (named, rest) = deps::named_deps(
                deps::tokens_blanked(bare),
                at.sheet,
                cells,
                order,
                names,
            );
            deps::formula_deps(formula, at, cells, order, names, formula_keys, tables).contains(k)
                <==> deps::plain_deps(rest, at.sheet, cells, order).contains(k) || named.contains(k)
                || deps::structured_deps(bare, at, cells, formula_keys, tables).contains(k)
        }),
{
    let bare = deps::literals_blanked(formula);
    let (named, rest) = deps::named_deps(deps::tokens_blanked(bare), at.sheet, cells, order, names);
    let plain = deps::plain_deps(rest, at.sheet, cells, order);
    entries::lemma_with_all_members(plain, named, k);
    entries::lemma_with_all_members(
        entries::with_all(plain, named),
        deps::structured_deps(bare, at, cells, formula_keys, tables),
        k,
    );
}

proof fn lemma_cut_nowhere(name: Seq<char>)
    requires
        !text::contains(name, ":"@),
    ensures
        text::cut(name, ":"@) is None,
{
}

// ----- What decides a value -----

/// Whether two contexts are alike but for the values of cells that are not among the given
/// ones.
pub open spec fn agree_on(c: CtxModel, d: CtxModel, cells: Seq<Key<Seq<char>>>) -> bool {
    &&& c.sheet == d.sheet
    &&& c.answers == d.answers
    &&& forall|k: Key<Seq<char>>|
        cells.contains(k) ==> #[trigger] entries::get(c.cells, k) == entries::get(d.cells, k)
}

/// Whether a match of the pattern of references names a cell among the given ones.
pub open spec fn names_one_of(
    g: Seq<Option<Seq<char>>>,
    default_sheet: Seq<char>,
    cells: Seq<Key<Seq<char>>>,
) -> bool {
    exists|sheet: Option<Seq<char>>, row: usize, col: usize|
        {
            &&& #[trigger] names_place(g, sheet, row, col)
            &&& cells.contains(
                coord::key(
                    match sheet {
                        Some(name) => name,
                        None => default_sheet,
                    },
                    row,
                    col,
                ),
            )
        }
}

pub open spec fn names_place(
    g: Seq<Option<Seq<char>>>,
    sheet: Option<Seq<char>>,
    row: usize,
    col: usize,
) -> bool {
    &&& match_names_sheet(g, sheet)
    &&& pattern::group(g, 3) matches Some(name) && coord::col_number(name) == Some(col)
    &&& pattern::group(g, 4) matches Some(number) && text::parsed_size(number) == Some(row)
}

proof fn lemma_refs_alike(
    c: CtxModel,
    d: CtxModel,
    hits: Seq<(Seq<char>, Seq<Option<Seq<char>>>)>,
    cells: Seq<Key<Seq<char>>>,
)
    requires
        agree_on(c, d, cells),
        forall|i: int|
            0 <= i < hits.len() ==> names_one_of((#[trigger] hits[i]).1, c.sheet, cells),
    ensures
        eval::refs_in_hits(c, hits) == eval::refs_in_hits(d, hits),
    decreases hits.len(),
{
    if hits.len() > 0 {
        let rest = hits.drop_last();
        assert forall|i: int| 0 <= i < rest.len() implies names_one_of(
            (#[trigger] rest[i]).1,
            c.sheet,
            cells,
        ) by {
            assert(rest[i] == hits[i]);
        }
        lemma_refs_alike(c, d, rest, cells);
        let g = hits[hits.len() - 1].1;
        assert(names_one_of(g, c.sheet, cells));
        let (sheet, row, col) = choose|sheet: Option<Seq<char>>, row: usize, col: usize|
            #[trigger] names_place(g, sheet, row, col) && cells.contains(
                coord::key(
                    match sheet {
                        Some(name) => name,
                        None => c.sheet,
                    },
                    row,
                    col,
                ),
            );
        let k = coord::key(
            match sheet {
                Some(name) => name,
                None => c.sheet,
            },
            row,
            col,
        );
        assert(entries::get(c.cells, k) == entries::get(d.cells, k));
        assert(eval::ref_number(c, g) == eval::ref_number(d, g));
    }
}

/// Whether an expression holds no call of a function and no `&`.
pub open spec fn is_plain(expr: Seq<char>) -> bool {
    &&& forall|f: Func| (#[trigger] calls::call_in(expr, eval::func_name(f))) is None
    &&& calls::operands(expr).len() <= 1
}

proof fn lemma_nothing_staged(stages: Seq<Func>, expr: Seq<char>, c: CtxModel, fuel: nat)
    requires
        is_plain(expr),
        fuel >= 2,
    ensures
        eval::staged(stages, expr, c, fuel) == Outcome::<Seq<char>, Seq<char>, Seq<Seq<char>>>::Value(
            expr,
        ),
    decreases stages.len(),
{
    if stages.len() > 0 {
        lemma_nothing_staged(stages.drop_last(), expr, c, fuel);
        assert(calls::call_in(expr, eval::func_name(stages.last())) is None);
        let same = Outcome::<Seq<char>, Seq<char>, Seq<Seq<char>>>::Value(expr);
        assert(eval::calls_value(stages.last(), expr, c, (fuel - 1) as nat) == same);
        assert(eval::amp_value(expr, c, (fuel - 1) as nat) == same);
    }
}

/// The value of a formula without calls is decided by the cells that it names: workbooks that
/// agree on those give it the same value.
pub proof fn law_named_cells_decide_the_value(
    s: Seq<char>,
    c: CtxModel,
    d: CtxModel,
    fuel: nat,
    cells: Seq<Key<Seq<char>>>,
)
    requires
        fuel >= 3,
        agree_on(c, d, cells),
        ({
            let expr = text::drop_leading(text::trim(s), '=');
            let hits = pattern::scan(eval::REF_PATTERN@, expr).0;
            &&& is_plain(expr)
            &&& ranges::ref_cell(expr, c.sheet) matches Some(k) ==> cells.contains(k)
            &&& forall|i: int|
                0 <= i < hits.len() ==> names_one_of((#[trigger] hits[i]).1, c.sheet, cells)
        }),
    ensures
        eval::formula_value(s, c, fuel) == eval::formula_value(s, d, fuel),
{
    let expr = text::drop_leading(text::trim(s), '=');
    let hits = pattern::scan(eval::REF_PATTERN@, expr).0;
    lemma_nothing_staged(eval::formula_stages(), expr, c, (fuel - 1) as nat);
    lemma_nothing_staged(eval::formula_stages(), expr, d, (fuel - 1) as nat);
    lemma_refs_alike(c, d, hits, cells);
    if let Some(k) = ranges::ref_cell(expr, c.sheet) {
        assert(entries::get(c.cells, k) == entries::get(d.cells, k));
    }
    assert(eval::refs_replaced(c, expr) == eval::refs_replaced(d, expr));
    assert(eval::settled(c, expr) == eval::settled(d, expr));
}

/// Whether an argument of an aggregate is a cell among the given ones, or a rectangle of such
/// cells.
pub open spec fn reads_only(arg: Seq<char>, sheet: Seq<char>, cells: Seq<Key<Seq<char>>>) -> bool {
    let t = text::trim(arg);
    if text::contains(t, ":"@) {
        let parts = text::split(t, ':');
        &&& parts.len() == 2
        &&& ranges::ref_column(text::trim(parts[0]), sheet) is None
        &&& ranges::ref_cell(text::trim(parts[0]), sheet) matches Some(a) && (ranges::ref_cell(
            text::trim(parts[1]),
            a.sheet,
        ) matches Some(b) && b.sheet == a.sheet && forall|k: Key<Seq<char>>| #[trigger]
            coord::lies_between(k, a, b) ==> cells.contains(k))
    } else {
        ranges::ref_cell(t, sheet) matches Some(k) ==> cells.contains(k)
    }
}

proof fn lemma_rectangle_alike(
    c: CellsModel,
    d: CellsModel,
    keys: Seq<Key<Seq<char>>>,
)
    requires
        forall|i: int|
            0 <= i < keys.len() ==> entries::get(c, #[trigger] keys[i]) == entries::get(
                d,
                keys[i],
            ),
    ensures
        ranges::values_of(keys, c) == ranges::values_of(keys, d),
{
    assert(ranges::values_of(keys, c) =~= ranges::values_of(keys, d));
}

/// An aggregate is decided by the cells of its arguments.
pub proof fn law_argument_cells_decide_an_aggregate(
    f: Func,
    c: CtxModel,
    d: CtxModel,
    args: Seq<Seq<char>>,
    cells: Seq<Key<Seq<char>>>,
)
    requires
        agree_on(c, d, cells),
        forall|i: int| 0 <= i < args.len() ==> reads_only(#[trigger] args[i], c.sheet, cells),
    ensures
        eval::aggregate_values(c, args) == eval::aggregate_values(d, args),
        eval::aggregate(f, c, args) == eval::aggregate(f, d, args),
    decreases args.len(),
{
    if args.len() > 0 {
        let rest = args.drop_last();
        assert forall|i: int| 0 <= i < rest.len() implies reads_only(
            #[trigger] rest[i],
            c.sheet,
            cells,
        ) by {
            assert(rest[i] == args[i]);
        }
        law_argument_cells_decide_an_aggregate(f, c, d, rest, cells);
        assert(reads_only(args[args.len() - 1], c.sheet, cells));
        let t = text::trim(args.last());
        if text::contains(t, ":"@) {
            let parts = text::split(t, ':');
            let a = ranges::ref_cell(text::trim(parts[0]), c.sheet)->Some_0;
            let b = ranges::ref_cell(text::trim(parts[1]), a.sheet)->Some_0;
            let (r1, r2) = (deps::low(a.row, b.row), deps::high(a.row, b.row));
            let (c1, c2) = (deps::low(a.col, b.col), deps::high(a.col, b.col));
            let keys = structured::area_keys(a.sheet, r1, r2 as int, c1, c2);
            assert forall|i: int| 0 <= i < keys.len() implies entries::get(
                c.cells,
                #[trigger] keys[i],
            ) == entries::get(d.cells, keys[i]) by {
                structured::law_area_members(a.sheet, r1, r2, c1, c2, keys[i]);
                assert(keys.contains(keys[i]));
                assert(coord::lies_between(keys[i], a, b));
            }
            lemma_rectangle_alike(c.cells, d.cells, keys);
            assert(ranges::values_in(t, c.sheet, c.cells) == ranges::values_in(
                t,
                d.sheet,
                d.cells,
            ));
        } else if let Some(k) = ranges::ref_cell(t, c.sheet) {
            assert(entries::get(c.cells, k) == entries::get(d.cells, k));
        }
    }
}

} // verus!
