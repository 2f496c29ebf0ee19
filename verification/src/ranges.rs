//! References and ranges as formulas use them, and the values that they give.

use crate::coord;
use crate::coord::Key;
use crate::deps;
use crate::deps::CellsModel;
use crate::entries;
use crate::formula;
use crate::pattern;
use crate::structured;
use crate::text;
use vstd::prelude::*;
use vstd::string::*;

verus! {

/// A cell reference and nothing else: quoted sheet, bare sheet, column, row.
pub const REF_ONLY_PATTERN: &'static str = r"(?i)^(?:(?:'([^']+)'|([A-Za-z_][A-Za-z0-9_ ]*))!)?\$?([A-Z]{1,3})\$?([0-9]+)$";

/// A column and nothing else: quoted sheet, bare sheet, column.
pub const COLUMN_ONLY_PATTERN: &'static str = r"(?i)^(?:(?:'([^']+)'|([A-Za-z_][A-Za-z0-9_ ]*))!)?\$?([A-Z]{1,3})$";

pub open spec fn sheet_group(g: Seq<Option<Seq<char>>>, default_sheet: Seq<char>) -> Seq<char> {
    match formula::either(pattern::group(g, 1), pattern::group(g, 2)) {
        Some(t) => t,
        None => default_sheet,
    }
}

pub fn sheet_group_of(g: &Vec<Option<String>>, default_sheet: &str) -> (r: String)
    ensures
        r@ == sheet_group(g.deep_view(), default_sheet@),
{
    match formula::either_of(pattern::group_of(g, 1), pattern::group_of(g, 2)) {
        Some(t) => t,
        None => default_sheet.to_owned(),
    }
}

/// The cell that a text names.
pub open spec fn ref_cell(value: Seq<char>, default_sheet: Seq<char>) -> Option<Key<Seq<char>>> {
    match pattern::first_match(REF_ONLY_PATTERN@, text::trim(value)) {
        Some(g) => match (deps::col_of(pattern::group(g, 3)), deps::row_of(pattern::group(g, 4))) {
            (Some(col), Some(row)) => Some(coord::key(sheet_group(g, default_sheet), row, col)),
            _ => None,
        },
        None => None,
    }
}

pub fn parse_ref(value: &str, default_sheet: &str) -> (r: Option<Key>)
    ensures
        r.deep_view() == ref_cell(value@, default_sheet@),
{
    match pattern::find_first(REF_ONLY_PATTERN, &text::trimmed(value)) {
        Some(g) => match (deps::group_col(&g, 3), deps::group_row(&g, 4)) {
            (Some(col), Some(row)) => Some(
                Key { sheet: sheet_group_of(&g, default_sheet), row, col },
            ),
            _ => None,
        },
        None => None,
    }
}

/// The sheet and column that a text names.
pub open spec fn ref_column(value: Seq<char>, default_sheet: Seq<char>) -> Option<
    (Seq<char>, usize),
> {
    match pattern::first_match(COLUMN_ONLY_PATTERN@, text::trim(value)) {
        Some(g) => match deps::col_of(pattern::group(g, 3)) {
            Some(col) => Some((sheet_group(g, default_sheet), col)),
            None => None,
        },
        None => None,
    }
}

pub fn parse_column_ref(value: &str, default_sheet: &str) -> (r: Option<(String, usize)>)
    ensures
        r.deep_view() == ref_column(value@, default_sheet@),
{
    match pattern::find_first(COLUMN_ONLY_PATTERN, &text::trimmed(value)) {
        Some(g) => match deps::group_col(&g, 3) {
            Some(col) => Some((sheet_group_of(&g, default_sheet), col)),
            None => None,
        },
        None => None,
    }
}

// ----- Order of cells -----

/// Row by row, and in a row from left to right.
pub open spec fn cell_before(a: Key<Seq<char>>, b: Key<Seq<char>>) -> bool {
    a.row < b.row || (a.row == b.row && a.col < b.col)
}

fn is_cell_before(a: &Key, b: &Key) -> (r: bool)
    ensures
        r == cell_before(a.deep_view(), b.deep_view()),
{
    a.row < b.row || (a.row == b.row && a.col < b.col)
}

/// Where an entry goes in a sorted list: behind those that do not come after it.
pub open spec fn entry_place(s: CellsModel, x: Key<Seq<char>>) -> int
    decreases s.len(),
{
    if s.len() > 0 && cell_before(x, s.last().0) {
        entry_place(s.drop_last(), x)
    } else {
        s.len() as int
    }
}

/// The entries in the order of their cells.
pub open spec fn in_order(s: CellsModel) -> CellsModel
    decreases s.len(),
{
    if s.len() == 0 {
        s
    } else {
        let done = in_order(s.drop_last());
        done.insert(entry_place(done, s.last().0), s.last())
    }
}

pub fn sort_entries(v: Vec<(Key, String)>) -> (r: Vec<(Key, String)>)
    ensures
        r.deep_view() == in_order(v.deep_view()),
{
    let ghost all = v.deep_view();
    let mut out: Vec<(Key, String)> = Vec::new();
    let mut i: usize = 0;
    assert(all.take(0) == Seq::<(Key<Seq<char>>, Seq<char>)>::empty());
    while i < v.len()
        invariant
            i <= v.len(),
            all == v.deep_view(),
            out.deep_view() == in_order(all.take(i as int)),
        decreases v.len() - i,
    {
        assert(all.take(i + 1).drop_last() == all.take(i as int));
        assert(all[i as int] == v@[i as int].deep_view());
        let ghost done = out.deep_view();
        let x = (v[i].0.clone(), v[i].1.clone());
        let mut n: usize = out.len();
        assert(done.take(done.len() as int) == done);
        while n > 0 && is_cell_before(&x.0, &out[n - 1].0)
            invariant
                n <= out.len(),
                done == out.deep_view(),
                entry_place(done, x.0.deep_view()) == entry_place(
                    done.take(n as int),
                    x.0.deep_view(),
                ),
            decreases n,
        {
            assert(done.take(n as int).drop_last() == done.take(n - 1));
            assert(done[n - 1] == out@[n - 1].deep_view());
            n = n - 1;
        }
        assert(n > 0 ==> done.take(n as int).last() == out@[n - 1].deep_view());
        out.insert(n, x);
        assert(out.deep_view() == done.insert(n as int, x.deep_view()));
        i = i + 1;
    }
    assert(all.take(all.len() as int) == all);
    out
}

/// What a cell holds; empty where it has no value.
pub open spec fn value_at(cells: CellsModel, k: Key<Seq<char>>) -> Seq<char> {
    match entries::get(cells, k) {
        Some(t) => t,
        None => Seq::empty(),
    }
}

pub fn cell_value(cells: &Vec<(Key, String)>, k: &Key) -> (r: String)
    ensures
        r@ == value_at(cells.deep_view(), k.deep_view()),
{
    match entries::map_get(cells, k) {
        Some(t) => t.clone(),
        None => String::new(),
    }
}

// ----- Ranges -----

/// The entries of a sheet's columns from `c1` to `c2`.
pub open spec fn column_entries(cells: CellsModel, sheet: Seq<char>, c1: usize, c2: usize) -> CellsModel
    decreases cells.len(),
{
    if cells.len() == 0 {
        cells
    } else {
        let k = cells.last().0;
        if k.sheet == sheet && c1 <= k.col <= c2 {
            column_entries(cells.drop_last(), sheet, c1, c2).push(cells.last())
        } else {
            column_entries(cells.drop_last(), sheet, c1, c2)
        }
    }
}

pub open spec fn values_of(keys: Seq<Key<Seq<char>>>, cells: CellsModel) -> CellsModel {
    Seq::new(keys.len(), |i: int| (keys[i], value_at(cells, keys[i])))
}

/// The values of a range of whole columns: those of its cells that have one, in order.
pub open spec fn columns_values(
    first: Seq<char>,
    last: Seq<char>,
    default_sheet: Seq<char>,
    cells: CellsModel,
) -> Option<CellsModel> {
    match ref_column(first, default_sheet) {
        Some((sheet, a)) => match ref_column(last, sheet) {
            Some((other, b)) => if other != sheet {
                None
            } else {
                Some(
                    in_order(
                        column_entries(cells, sheet, deps::low(a, b), deps::high(a, b)),
                    ),
                )
            },
            None => None,
        },
        None => None,
    }
}

pub fn expand_column_range(
    start: &str,
    end: &str,
    default_sheet: &str,
    cells: &Vec<(Key, String)>,
) -> (r: Option<Vec<(Key, String)>>)
    ensures
        r.deep_view() == columns_values(start@, end@, default_sheet@, cells.deep_view()),
{
    let (sheet, a) = match parse_column_ref(start, default_sheet) {
        Some(found) => found,
        None => return None,
    };
    let (other, b) = match parse_column_ref(end, &sheet) {
        Some(found) => found,
        None => return None,
    };
    if sheet != other {
        return None;
    }
    let low = deps::lower_of(a, b);
    let high = deps::higher_of(a, b);
    let ghost all = cells.deep_view();
    let mut out: Vec<(Key, String)> = Vec::new();
    let mut i: usize = 0;
    assert(all.take(0) == Seq::<(Key<Seq<char>>, Seq<char>)>::empty());
    while i < cells.len()
        invariant
            i <= cells.len(),
            all == cells.deep_view(),
            out.deep_view() == column_entries(all.take(i as int), sheet@, low, high),
        decreases cells.len() - i,
    {
        assert(all.take(i + 1).drop_last() == all.take(i as int));
        assert(all.take(i + 1).last() == cells@[i as int].deep_view());
        let k = &cells[i].0;
        if k.sheet == sheet && k.col >= low && k.col <= high {
            let ghost done = out.deep_view();
            out.push((k.clone(), cells[i].1.clone()));
            assert(out.deep_view() == done.push(all[i as int]));
        }
        i = i + 1;
    }
    assert(all.take(all.len() as int) == all);
    Some(sort_entries(out))
}

/// The values of a range of two ends; `None` where it is no such range. The last cell is
/// looked for on the sheet of the first.
pub open spec fn range_entries(range: Seq<char>, default_sheet: Seq<char>, cells: CellsModel) -> Option<
    CellsModel,
> {
    let parts = text::split(range, ':');
    if parts.len() != 2 {
        None
    } else {
        let first = text::trim(parts[0]);
        let last = text::trim(parts[1]);
        match columns_values(first, last, default_sheet, cells) {
            Some(found) => Some(found),
            None => match ref_cell(first, default_sheet) {
                Some(a) => match ref_cell(last, a.sheet) {
                    Some(b) => Some(
                        values_of(
                            structured::area_keys(
                                a.sheet,
                                deps::low(a.row, b.row),
                                deps::high(a.row, b.row) as int,
                                deps::low(a.col, b.col),
                                deps::high(a.col, b.col),
                            ),
                            cells,
                        ),
                    ),
                    None => None,
                },
                None => None,
            },
        }
    }
}

fn row_values(out: &mut Vec<(Key, String)>, sheet: &str, row: usize, c1: usize, c2: usize, cells: &Vec<(Key, String)>)
    ensures
        final(out).deep_view() == old(out).deep_view() + values_of(
            structured::row_keys(sheet@, row, c1, c2),
            cells.deep_view(),
        ),
{
    let ghost start = old(out).deep_view();
    let ghost keys = structured::row_keys(sheet@, row, c1, c2);
    let ghost all = values_of(keys, cells.deep_view());
    if c1 > c2 {
        assert(start + all == start);
        return;
    }
    let width: usize = c2 - c1;
    let mut n: usize = 0;
    let mut more = true;
    assert(start + all.take(0) == start);
    assert(all.take(all.len() as int) == all);
    while more
        invariant
            n <= width,
            width == c2 - c1,
            keys == structured::row_keys(sheet@, row, c1, c2),
            all == values_of(keys, cells.deep_view()),
            all.len() == width + 1,
            more ==> out.deep_view() == start + all.take(n as int),
            !more ==> out.deep_view() == start + all,
        decreases width - n + (if more { 1int } else { 0int }),
    {
        let k = coord::key_of(sheet, row, c1 + n);
        let value = cell_value(cells, &k);
        let ghost done = out.deep_view();
        out.push((k, value));
        assert(out.deep_view() == done.push(all[n as int]));
        assert(start + all.take(n + 1) == (start + all.take(n as int)).push(all[n as int]));
        if n == width {
            assert(all.take(n + 1) == all);
            more = false;
        } else {
            n = n + 1;
        }
    }
}

/// The values of a rectangle, row by row.
fn area_values(sheet: &str, r1: usize, r2: usize, c1: usize, c2: usize, cells: &Vec<(Key, String)>) -> (r: Vec<
    (Key, String),
>)
    ensures
        r.deep_view() == values_of(
            structured::area_keys(sheet@, r1, r2 as int, c1, c2),
            cells.deep_view(),
        ),
{
    let mut out: Vec<(Key, String)> = Vec::new();
    let ghost model = cells.deep_view();
    if r1 > r2 {
        assert(out.deep_view() == values_of(
            structured::area_keys(sheet@, r1, r2 as int, c1, c2),
            model,
        ));
        return out;
    }
    let mut row: usize = r1;
    let mut more = true;
    assert(out.deep_view() == values_of(
        structured::area_keys(sheet@, r1, r1 - 1, c1, c2),
        model,
    ));
    while more
        invariant
            r1 <= row <= r2,
            model == cells.deep_view(),
            more ==> out.deep_view() == values_of(
                structured::area_keys(sheet@, r1, row - 1, c1, c2),
                model,
            ),
            !more ==> out.deep_view() == values_of(
                structured::area_keys(sheet@, r1, r2 as int, c1, c2),
                model,
            ),
        decreases r2 - row + (if more { 1int } else { 0int }),
    {
        row_values(&mut out, sheet, row, c1, c2, cells);
        assert(out.deep_view() == values_of(
            structured::area_keys(sheet@, r1, row as int, c1, c2),
            model,
        ));
        if row == r2 {
            more = false;
        } else {
            row = row + 1;
        }
    }
    out
}

pub fn expand_range(range: &str, default_sheet: &str, cells: &Vec<(Key, String)>) -> (r: Option<
    Vec<(Key, String)>,
>)
    ensures
        r.deep_view() == range_entries(range@, default_sheet@, cells.deep_view()),
{
    let parts = text::split_at_char(range, ':');
    if parts.len() != 2 {
        return None;
    }
    assert(parts.deep_view()[0] == parts@[0]@ && parts.deep_view()[1] == parts@[1]@);
    let first = text::trimmed(&parts[0]);
    let last = text::trimmed(&parts[1]);
    match expand_column_range(&first, &last, default_sheet, cells) {
        Some(found) => return Some(found),
        None => {},
    }
    let a = match parse_ref(&first, default_sheet) {
        Some(a) => a,
        None => return None,
    };
    let b = match parse_ref(&last, &a.sheet) {
        Some(b) => b,
        None => return None,
    };
    Some(
        area_values(
            &a.sheet,
            deps::lower_of(a.row, b.row),
            deps::higher_of(a.row, b.row),
            deps::lower_of(a.col, b.col),
            deps::higher_of(a.col, b.col),
            cells,
        ),
    )
}

/// The cells and values that a range or a single reference stands for; none where the text
/// is neither.
pub open spec fn values_in(range: Seq<char>, default_sheet: Seq<char>, cells: CellsModel) -> CellsModel {
    match range_entries(range, default_sheet, cells) {
        Some(found) => found,
        None => match ref_cell(range, default_sheet) {
            Some(k) => seq![(k, value_at(cells, k))],
            None => Seq::empty(),
        },
    }
}

pub fn range_values(range: &str, default_sheet: &str, cells: &Vec<(Key, String)>) -> (r: Vec<
    (Key, String),
>)
    ensures
        r.deep_view() == values_in(range@, default_sheet@, cells.deep_view()),
{
    match expand_range(range, default_sheet, cells) {
        Some(found) => found,
        None => match parse_ref(range, default_sheet) {
            Some(k) => {
                let value = cell_value(cells, &k);
                let out: Vec<(Key, String)> = vec![(k, value)];
                assert(out.deep_view() == seq![(k.deep_view(), value@)]);
                out
            },
            None => {
                let out: Vec<(Key, String)> = Vec::new();
                assert(out.deep_view() == Seq::<(Key<Seq<char>>, Seq<char>)>::empty());
                out
            },
        },
    }
}

/// Entries in order, those of each row together.
pub open spec fn grouped(s: CellsModel) -> Seq<CellsModel>
    decreases s.len(),
{
    if s.len() == 0 {
        Seq::empty()
    } else {
        let done = grouped(s.drop_last());
        if done.len() == 0 || done.last()[0].0.row != s.last().0.row {
            done.push(seq![s.last()])
        } else {
            done.drop_last().push(done.last().push(s.last()))
        }
    }
}

pub open spec fn rows_in(range: Seq<char>, default_sheet: Seq<char>, cells: CellsModel) -> Seq<
    CellsModel,
> {
    grouped(in_order(values_in(range, default_sheet, cells)))
}

proof fn lemma_grouped_nonempty(s: CellsModel)
    ensures
        forall|i: int| 0 <= i < grouped(s).len() ==> (#[trigger] grouped(s)[i]).len() > 0,
    decreases s.len(),
{
    if s.len() > 0 {
        lemma_grouped_nonempty(s.drop_last());
        let done = grouped(s.drop_last());
        assert forall|i: int| 0 <= i < grouped(s).len() implies (#[trigger] grouped(s)[i]).len()
            > 0 by {
            if i < done.len() {
                assert(done[i].len() > 0);
            }
        }
    }
}

pub fn range_rows(range: &str, default_sheet: &str, cells: &Vec<(Key, String)>) -> (r: Vec<
    Vec<(Key, String)>,
>)
    ensures
        r.deep_view() == rows_in(range@, default_sheet@, cells.deep_view()),
{
    let values = sort_entries(range_values(range, default_sheet, cells));
    let ghost all = values.deep_view();
    let mut rows: Vec<Vec<(Key, String)>> = Vec::new();
    let mut i: usize = 0;
    assert(rows.deep_view() == Seq::<CellsModel>::empty());
    while i < values.len()
        invariant
            i <= values.len(),
            all == values.deep_view(),
            rows.deep_view() == grouped(all.take(i as int)),
        decreases values.len() - i,
    {
        assert(all.take(i + 1).drop_last() == all.take(i as int));
        assert(all.take(i + 1).last() == values@[i as int].deep_view());
        let entry = (values[i].0.clone(), values[i].1.clone());
        let ghost done = rows.deep_view();
        proof {
            lemma_grouped_nonempty(all.take(i as int));
        }
        match rows.pop() {
            Some(last) => {
                assert(done.last() == last.deep_view());
                assert(rows.deep_view() == done.drop_last());
                assert(last.deep_view().len() > 0);
                assert(last.deep_view()[0] == last@[0].deep_view());
                if last[0].0.row != entry.0.row {
                    let fresh: Vec<(Key, String)> = vec![entry];
                    assert(fresh.deep_view() == seq![entry.deep_view()]);
                    rows.push(last);
                    assert(rows.deep_view() == done);
                    rows.push(fresh);
                    assert(rows.deep_view() == done.push(fresh.deep_view()));
                } else {
                    let mut longer = last;
                    let ghost before = longer.deep_view();
                    longer.push(entry);
                    assert(longer.deep_view() == before.push(entry.deep_view()));
                    rows.push(longer);
                    assert(rows.deep_view() == done.drop_last().push(longer.deep_view()));
                }
            },
            None => {
                let fresh: Vec<(Key, String)> = vec![entry];
                assert(fresh.deep_view() == seq![entry.deep_view()]);
                rows.push(fresh);
                assert(rows.deep_view() == done.push(fresh.deep_view()));
            },
        }
        i = i + 1;
    }
    assert(all.take(all.len() as int) == all);
    rows
}

} // verus!
