//! Which cells a formula depends on.

use crate::coord;
use crate::coord::Key;
use crate::entries;
use crate::formula;
use crate::objects::{TableInfo, TableModel};
use crate::pattern;
use crate::records::DefinedName;
use crate::structured;
use crate::text;
use vstd::prelude::*;
use vstd::string::*;

verus! {

pub type CellsModel = Seq<(Key<Seq<char>>, Seq<char>)>;

/// A cell or range, with its sheet or sheets: quoted sheet, bare sheet, column, row, last
/// column, last row.
pub const CELL_PATTERN: &'static str = r"(?i)(?:(?:'((?:[^']|'')+)'|([A-Za-z_][A-Za-z0-9_ ]*(?::[A-Za-z_][A-Za-z0-9_ ]*)?))!)?\$?([A-Z]{1,3})\$?([0-9]+)(?::\$?([A-Z]{1,3})\$?([0-9]+))?";

/// A range of whole columns: quoted sheet, bare sheet, first and last column.
pub const COLUMNS_PATTERN: &'static str = r"(?i)(?:(?:'((?:[^']|'')+)'|([A-Za-z_][A-Za-z0-9_ ]*(?::[A-Za-z_][A-Za-z0-9_ ]*)?))!)?\$?([A-Z]{1,3}):\$?([A-Z]{1,3})";

/// A reference into another workbook.
pub const EXTERNAL_PATTERN: &'static str = r"(?i)(?:'\[[^']+\]'|\[[^\]]+\][^!(),+\-*/^&=<> ]*)!\$?(?:[A-Z]{1,3}\$?[0-9]+(?::\$?[A-Z]{1,3}\$?[0-9]+)?|[A-Z]{1,3}:\$?[A-Z]{1,3})";

pub const BRACKET_PATTERN: &'static str = r"\[[^\]]*\]";

pub const NAME_PATTERN: &'static str = r"\b[A-Za-z_][A-Za-z0-9_.]*\b";

// ----- Literals and tokens that are no references -----

/// The formula from `i` on with what stands in string literals made blank; `inside` tells
/// whether `i` is in a literal.
pub open spec fn unlettered(s: Seq<char>, i: int, inside: bool) -> Seq<char>
    decreases s.len() - i,
{
    if i < 0 || i >= s.len() {
        Seq::empty()
    } else if s[i] != '"' {
        seq![if inside { ' ' } else { s[i] }] + unlettered(s, i + 1, inside)
    } else if inside && i + 1 < s.len() && s[i + 1] == '"' {
        seq!['"', '"'] + unlettered(s, i + 2, inside)
    } else {
        seq!['"'] + unlettered(s, i + 1, !inside)
    }
}

pub open spec fn literals_blanked(s: Seq<char>) -> Seq<char> {
    unlettered(s, 0, false)
}

pub fn strip_formula_string_literals(formula: &str) -> (r: String)
    ensures
        r@ == literals_blanked(formula@),
{
    let s = text::chars_of(formula);
    let mut out = String::new();
    let mut inside = false;
    let mut i: usize = 0;
    while i < s.len()
        invariant
            i <= s.len(),
            out@ + unlettered(s@, i as int, inside) == literals_blanked(formula@),
        decreases s.len() - i,
    {
        let ghost before = out@;
        let ghost rest = unlettered(s@, i as int, inside);
        if s[i] == '"' {
            out.push('"');
            if inside && i < s.len() - 1 && s[i + 1] == '"' {
                out.push('"');
                assert(before + rest == out@ + unlettered(s@, i + 2, inside));
                i = i + 2;
                continue;
            }
            inside = !inside;
        } else if inside {
            out.push(' ');
        } else {
            out.push(s[i]);
        }
        assert(before + rest == out@ + unlettered(s@, i + 1, inside));
        i = i + 1;
    }
    out
}

proof fn lemma_unlettered(s: Seq<char>, i: int, inside: bool)
    requires
        0 <= i <= s.len(),
    ensures
        ({
            let u = unlettered(s, i, inside);
            &&& u.len() == s.len() - i
            &&& forall|n: int|
                0 <= n < u.len() ==> #[trigger] u[n] == s[i + n] || (u[n] == ' ' && s[i + n] != '"')
        }),
        !inside && !s.contains('"') ==> unlettered(s, i, inside) == s.skip(i),
    decreases s.len() - i,
{
    let u = unlettered(s, i, inside);
    if i < s.len() {
        lemma_unlettered(s, i + 1, inside);
        lemma_unlettered(s, i + 1, !inside);
        if i + 2 <= s.len() {
            lemma_unlettered(s, i + 2, inside);
        }
        assert(s.contains(s[i]));
        if s[i] != '"' {
            let rest = unlettered(s, i + 1, inside);
            assert forall|n: int| 0 <= n < u.len() implies #[trigger] u[n] == s[i + n] || (u[n]
                == ' ' && s[i + n] != '"') by {
                if n > 0 {
                    assert(u[n] == rest[n - 1]);
                }
            }
            assert(!inside ==> seq![s[i]] + s.skip(i + 1) == s.skip(i));
        } else if inside && i + 1 < s.len() && s[i + 1] == '"' {
            let rest = unlettered(s, i + 2, inside);
            assert forall|n: int| 0 <= n < u.len() implies #[trigger] u[n] == s[i + n] || (u[n]
                == ' ' && s[i + n] != '"') by {
                if n > 1 {
                    assert(u[n] == rest[n - 2]);
                }
            }
        } else {
            let rest = unlettered(s, i + 1, !inside);
            assert forall|n: int| 0 <= n < u.len() implies #[trigger] u[n] == s[i + n] || (u[n]
                == ' ' && s[i + n] != '"') by {
                if n > 0 {
                    assert(u[n] == rest[n - 1]);
                }
            }
        }
    } else {
        assert(s.skip(i) == u);
    }
}

/// Blanking the literals of a formula moves nothing: each character keeps its place or is
/// blank, quotes stay, and a formula without quotes stays as it is.
pub proof fn law_blanking_keeps_places(s: Seq<char>)
    ensures
        literals_blanked(s).len() == s.len(),
        forall|n: int|
            0 <= n < s.len() ==> #[trigger] literals_blanked(s)[n] == s[n] || (literals_blanked(
                s,
            )[n] == ' ' && s[n] != '"'),
        !s.contains('"') ==> literals_blanked(s) == s,
{
    lemma_unlettered(s, 0, false);
    assert(s.skip(0) == s);
}

/// The text with each match made blank, as many blanks as it has bytes.
pub open spec fn hits_blanked(hits: Seq<(Seq<char>, Seq<Option<Seq<char>>>)>) -> Seq<char>
    decreases hits.len(),
{
    if hits.len() == 0 {
        Seq::empty()
    } else {
        hits_blanked(hits.drop_last()) + hits.last().0 + text::blanks(
            text::bytes_len(pattern::group_text(hits.last().1, 0)),
        )
    }
}

pub open spec fn matches_blanked(re: Seq<char>, s: Seq<char>) -> Seq<char> {
    hits_blanked(pattern::scan(re, s).0) + pattern::scan(re, s).1
}

pub fn mask_regex_matches(input: &str, re: &str) -> (r: String)
    ensures
        r@ == matches_blanked(re@, input@),
{
    let found = pattern::find_all(re, input);
    let hits = &found.0;
    let ghost all = hits.deep_view();
    let mut out = String::new();
    let mut i: usize = 0;
    while i < hits.len()
        invariant
            i <= hits.len(),
            all == hits.deep_view(),
            out@ == hits_blanked(all.take(i as int)),
        decreases hits.len() - i,
    {
        assert(all.take(i + 1).drop_last() == all.take(i as int));
        assert(all.take(i + 1).last() == hits@[i as int].deep_view());
        out.append(&hits[i].0);
        out.append(&text::blanks_for(&pattern::group_text_of(&hits[i].1, 0)));
        i = i + 1;
    }
    assert(all.take(all.len() as int) == all);
    out.append(&found.1);
    out
}

/// The text from `from` on with the given spans made blank.
pub open spec fn spans_blanked(s: Seq<char>, spans: Seq<(int, int)>, from: int) -> Seq<char>
    decreases spans.len(),
{
    if spans.len() == 0 {
        text::slice(s, from, s.len() as int)
    } else {
        let (a, b) = spans[0];
        text::slice(s, from, a) + text::blanks(text::bytes_len(text::slice(s, a, b)))
            + spans_blanked(s, spans.subrange(1, spans.len() as int), b)
    }
}

/// The text with its structured references made blank; unchanged where a bracket is not
/// closed.
pub open spec fn structured_blanked(s: Seq<char>) -> Seq<char> {
    match structured::spans(s) {
        Some(all) => spans_blanked(s, all, 0),
        None => s,
    }
}

pub fn mask_structured_table_ref_tokens(input: &str) -> (r: String)
    ensures
        r@ == structured_blanked(input@),
{
    let s = text::chars_of(input);
    let found = match structured::structured_ref_spans(&s) {
        Some(found) => found,
        None => return input.to_owned(),
    };
    let ghost all = structured::as_positions(found@);
    let mut out = String::new();
    let mut last: usize = 0;
    let mut i: usize = 0;
    assert(all.subrange(0, all.len() as int) == all);
    assert(out@ + spans_blanked(s@, all, 0) == spans_blanked(s@, all, 0));
    while i < found.len()
        invariant
            i <= found.len(),
            all == structured::as_positions(found@),
            out@ + spans_blanked(s@, all.subrange(i as int, all.len() as int), last as int)
                == spans_blanked(s@, all, 0),
        decreases found.len() - i,
    {
        let (a, b) = found[i];
        let ghost rest = all.subrange(i as int, all.len() as int);
        let ghost before = out@;
        let ghost from = last as int;
        assert(rest.subrange(1, rest.len() as int) == all.subrange(i + 1, all.len() as int));
        out.append(&text::piece(&s, last, a));
        out.append(&text::blanks_for(&text::piece(&s, a, b)));
        last = b;
        assert(before + spans_blanked(s@, rest, from) == out@ + spans_blanked(
            s@,
            all.subrange(i + 1, all.len() as int),
            b as int,
        ));
        i = i + 1;
    }
    out.append(&text::piece(&s, last, s.len()));
    out
}


pub open spec fn tokens_blanked(s: Seq<char>) -> Seq<char> {
    matches_blanked(BRACKET_PATTERN@, structured_blanked(matches_blanked(EXTERNAL_PATTERN@, s)))
}

/// A formula without the references that are not followed: those into other workbooks,
/// structured ones, and whatever else stands in brackets.
pub fn mask_unsupported_dependency_tokens(formula: &str) -> (r: String)
    ensures
        r@ == tokens_blanked(formula@),
{
    let without_external = mask_regex_matches(formula, EXTERNAL_PATTERN);
    let without_structured = mask_structured_table_ref_tokens(&without_external);
    mask_regex_matches(&without_structured, BRACKET_PATTERN)
}

// ----- References to cells and columns -----

/// The first place from `i` on at which `x` stands.
pub open spec fn place_from(s: Seq<Seq<char>>, x: Seq<char>, i: int) -> Option<int>
    decreases s.len() - i,
{
    if i < 0 || i >= s.len() {
        None
    } else if s[i] == x {
        Some(i)
    } else {
        place_from(s, x, i + 1)
    }
}

pub fn text_position(v: &Vec<String>, x: &str) -> (r: Option<usize>)
    ensures
        text::pos(r) == place_from(v.deep_view(), x@, 0),
        r matches Some(k) ==> k < v.len(),
{
    let mut i: usize = 0;
    while i < v.len()
        invariant
            i <= v.len(),
            place_from(v.deep_view(), x@, 0) == place_from(v.deep_view(), x@, i as int),
        decreases v.len() - i,
    {
        assert(v.deep_view()[i as int] == v@[i as int]@);
        if text::same(&v[i], x) {
            return Some(i);
        }
        i = i + 1;
    }
    None
}

/// The sheets that a sheet name of a reference stands for: `First:Last` stands for the
/// sheets from one to the other where the workbook has both.
pub open spec fn targets(
    spec: Option<Seq<char>>,
    default_sheet: Seq<char>,
    order: Seq<Seq<char>>,
) -> Seq<Seq<char>> {
    let name = text::replaced(
        match spec {
            Some(t) => t,
            None => default_sheet,
        },
        "''"@,
        "'"@,
    );
    match text::cut(name, ":"@) {
        Some((first, last)) => match (place_from(order, first, 0), place_from(order, last, 0)) {
            (Some(a), Some(b)) => if a < b {
                order.subrange(a, b + 1)
            } else {
                order.subrange(b, a + 1)
            },
            _ => seq![name],
        },
        None => seq![name],
    }
}

pub fn sheet_targets(spec: Option<String>, default_sheet: &str, order: &Vec<String>) -> (r: Vec<
    String,
>)
    ensures
        r.deep_view() == targets(spec.deep_view(), default_sheet@, order.deep_view()),
{
    let name = match spec {
        Some(t) => text::replace(&t, "''", "'"),
        None => text::replace(default_sheet, "''", "'"),
    };
    let ghost result = targets(spec.deep_view(), default_sheet@, order.deep_view());
    let mut out: Vec<String> = Vec::new();
    match text::split_once(&name, ":") {
        Some((first, last)) => {
            match (text_position(order, &first), text_position(order, &last)) {
                (Some(a), Some(b)) => {
                    let low = if a < b { a } else { b };
                    let high = if a < b { b } else { a };
                    let mut i: usize = low;
                    let mut more = true;
                    while more
                        invariant
                            low <= i <= high,
                            high < order.len(),
                            more ==> out.deep_view() == order.deep_view().subrange(
                                low as int,
                                i as int,
                            ),
                            !more ==> out.deep_view() == order.deep_view().subrange(
                                low as int,
                                high + 1,
                            ),
                        decreases high - i + (if more { 1int } else { 0int }),
                    {
                        let ghost done = out.deep_view();
                        out.push(order[i].clone());
                        assert(out.deep_view() == done.push(order.deep_view()[i as int]));
                        assert(order.deep_view().subrange(low as int, i + 1) == done.push(
                            order.deep_view()[i as int],
                        ));
                        if i == high {
                            more = false;
                        } else {
                            i = i + 1;
                        }
                    }
                    return out;
                },
                _ => {},
            }
        },
        None => {},
    }
    out.push(name);
    assert(out.deep_view() == seq![name@]);
    out
}

pub open spec fn or_size(n: Option<usize>, other: usize) -> usize {
    match n {
        Some(k) => k,
        None => other,
    }
}

fn size_or(n: Option<usize>, other: usize) -> (r: usize)
    ensures
        r == or_size(n, other),
{
    match n {
        Some(k) => k,
        None => other,
    }
}

pub open spec fn low(a: usize, b: usize) -> usize {
    if a < b {
        a
    } else {
        b
    }
}

pub open spec fn high(a: usize, b: usize) -> usize {
    if a < b {
        b
    } else {
        a
    }
}

pub fn lower_of(a: usize, b: usize) -> (r: usize)
    ensures
        r == low(a, b),
{
    if a < b {
        a
    } else {
        b
    }
}

pub fn higher_of(a: usize, b: usize) -> (r: usize)
    ensures
        r == high(a, b),
{
    if a < b {
        b
    } else {
        a
    }
}

pub open spec fn col_of(s: Option<Seq<char>>) -> Option<usize> {
    match s {
        Some(t) => coord::col_number(t),
        None => None,
    }
}

pub fn group_col(g: &Vec<Option<String>>, i: usize) -> (r: Option<usize>)
    ensures
        r == col_of(pattern::group(g.deep_view(), i as int)),
{
    match pattern::group_of(g, i) {
        Some(t) => coord::col_from_name(&t),
        None => None,
    }
}

pub open spec fn row_of(s: Option<Seq<char>>) -> Option<usize> {
    match s {
        Some(t) => text::parsed_size(t),
        None => None,
    }
}

pub fn group_row(g: &Vec<Option<String>>, i: usize) -> (r: Option<usize>)
    ensures
        r == row_of(pattern::group(g.deep_view(), i as int)),
{
    match pattern::group_of(g, i) {
        Some(t) => text::parse_size(&t),
        None => None,
    }
}

/// The rectangle that a match of `CELL_PATTERN` names; a number that fits no machine word
/// counts as 1, and a missing end is the start.
pub open spec fn match_area(g: Seq<Option<Seq<char>>>) -> structured::Area {
    let c1 = or_size(col_of(pattern::group(g, 3)), 1);
    let r1 = or_size(row_of(pattern::group(g, 4)), 1);
    let c2 = or_size(col_of(pattern::group(g, 5)), c1);
    let r2 = or_size(row_of(pattern::group(g, 6)), r1);
    (low(r1, r2), high(r1, r2), low(c1, c2), high(c1, c2))
}

pub open spec fn area_on_sheets(deps: Seq<Key<Seq<char>>>, sheets: Seq<Seq<char>>, a: structured::Area) -> Seq<
    Key<Seq<char>>,
>
    decreases sheets.len(),
{
    if sheets.len() == 0 {
        deps
    } else {
        entries::with_all(
            area_on_sheets(deps, sheets.drop_last(), a),
            structured::area_keys(sheets.last(), a.0, a.1 as int, a.2, a.3),
        )
    }
}

pub open spec fn cell_hits(
    hits: Seq<(Seq<char>, Seq<Option<Seq<char>>>)>,
    default_sheet: Seq<char>,
    order: Seq<Seq<char>>,
) -> Seq<Key<Seq<char>>>
    decreases hits.len(),
{
    if hits.len() == 0 {
        Seq::empty()
    } else {
        let g = hits.last().1;
        area_on_sheets(
            cell_hits(hits.drop_last(), default_sheet, order),
            targets(
                formula::either(pattern::group(g, 1), pattern::group(g, 2)),
                default_sheet,
                order,
            ),
            match_area(g),
        )
    }
}

/// The cells with a value on a sheet in the columns from `c1` to `c2`.
pub open spec fn column_cells(
    deps: Seq<Key<Seq<char>>>,
    cells: CellsModel,
    sheet: Seq<char>,
    c1: usize,
    c2: usize,
) -> Seq<Key<Seq<char>>>
    decreases cells.len(),
{
    if cells.len() == 0 {
        deps
    } else {
        let done = column_cells(deps, cells.drop_last(), sheet, c1, c2);
        let k = cells.last().0;
        if k.sheet == sheet && c1 <= k.col <= c2 {
            entries::with(done, k)
        } else {
            done
        }
    }
}

pub open spec fn columns_on_sheets(
    deps: Seq<Key<Seq<char>>>,
    cells: CellsModel,
    sheets: Seq<Seq<char>>,
    c1: usize,
    c2: usize,
) -> Seq<Key<Seq<char>>>
    decreases sheets.len(),
{
    if sheets.len() == 0 {
        deps
    } else {
        column_cells(
            columns_on_sheets(deps, cells, sheets.drop_last(), c1, c2),
            cells,
            sheets.last(),
            c1,
            c2,
        )
    }
}

pub open spec fn column_hits(
    deps: Seq<Key<Seq<char>>>,
    hits: Seq<(Seq<char>, Seq<Option<Seq<char>>>)>,
    default_sheet: Seq<char>,
    cells: CellsModel,
    order: Seq<Seq<char>>,
) -> Seq<Key<Seq<char>>>
    decreases hits.len(),
{
    if hits.len() == 0 {
        deps
    } else {
        let g = hits.last().1;
        let c1 = or_size(col_of(pattern::group(g, 3)), 1);
        let c2 = or_size(col_of(pattern::group(g, 4)), c1);
        columns_on_sheets(
            column_hits(deps, hits.drop_last(), default_sheet, cells, order),
            cells,
            targets(
                formula::either(pattern::group(g, 1), pattern::group(g, 2)),
                default_sheet,
                order,
            ),
            low(c1, c2),
            high(c1, c2),
        )
    }
}

/// The cells that a formula without literals refers to: those of its cells and ranges, and
/// of its whole columns the cells that have a value.
pub open spec fn plain_deps(
    formula: Seq<char>,
    default_sheet: Seq<char>,
    cells: CellsModel,
    order: Seq<Seq<char>>,
) -> Seq<Key<Seq<char>>> {
    column_hits(
        cell_hits(pattern::scan(CELL_PATTERN@, formula).0, default_sheet, order),
        pattern::scan(COLUMNS_PATTERN@, formula).0,
        default_sheet,
        cells,
        order,
    )
}

fn add_area_on_sheets(deps: &mut Vec<Key>, sheets: &Vec<String>, a: structured::Area)
    ensures
        final(deps).deep_view() == area_on_sheets(old(deps).deep_view(), sheets.deep_view(), a),
{
    let ghost all = sheets.deep_view();
    let ghost start = old(deps).deep_view();
    let mut i: usize = 0;
    while i < sheets.len()
        invariant
            i <= sheets.len(),
            all == sheets.deep_view(),
            deps.deep_view() == area_on_sheets(start, all.take(i as int), a),
        decreases sheets.len() - i,
    {
        assert(all.take(i + 1).drop_last() == all.take(i as int));
        assert(all.take(i + 1).last() == sheets@[i as int]@);
        structured::add_area(deps, &sheets[i], a.0, a.1, a.2, a.3);
        i = i + 1;
    }
    assert(all.take(all.len() as int) == all);
}

fn add_column_cells(
    deps: &mut Vec<Key>,
    cells: &Vec<(Key, String)>,
    sheet: &str,
    c1: usize,
    c2: usize,
)
    ensures
        final(deps).deep_view() == column_cells(
            old(deps).deep_view(),
            cells.deep_view(),
            sheet@,
            c1,
            c2,
        ),
{
    let ghost all = cells.deep_view();
    let ghost start = old(deps).deep_view();
    let mut i: usize = 0;
    while i < cells.len()
        invariant
            i <= cells.len(),
            all == cells.deep_view(),
            deps.deep_view() == column_cells(start, all.take(i as int), sheet@, c1, c2),
        decreases cells.len() - i,
    {
        assert(all.take(i + 1).drop_last() == all.take(i as int));
        assert(all.take(i + 1).last() == cells@[i as int].deep_view());
        let k = &cells[i].0;
        if text::same(&k.sheet, sheet) && k.col >= c1 && k.col <= c2 {
            entries::set_add(deps, k.clone());
        }
        i = i + 1;
    }
    assert(all.take(all.len() as int) == all);
}

fn add_columns_on_sheets(
    deps: &mut Vec<Key>,
    cells: &Vec<(Key, String)>,
    sheets: &Vec<String>,
    c1: usize,
    c2: usize,
)
    ensures
        final(deps).deep_view() == columns_on_sheets(
            old(deps).deep_view(),
            cells.deep_view(),
            sheets.deep_view(),
            c1,
            c2,
        ),
{
    let ghost all = sheets.deep_view();
    let ghost start = old(deps).deep_view();
    let mut i: usize = 0;
    while i < sheets.len()
        invariant
            i <= sheets.len(),
            all == sheets.deep_view(),
            deps.deep_view() == columns_on_sheets(
                start,
                cells.deep_view(),
                all.take(i as int),
                c1,
                c2,
            ),
        decreases sheets.len() - i,
    {
        assert(all.take(i + 1).drop_last() == all.take(i as int));
        assert(all.take(i + 1).last() == sheets@[i as int]@);
        add_column_cells(deps, cells, &sheets[i], c1, c2);
        i = i + 1;
    }
    assert(all.take(all.len() as int) == all);
}

/// The cells of the ranges found in a formula.
pub fn deps_of_cell_hits(
    hits: &Vec<(String, Vec<Option<String>>)>,
    default_sheet: &str,
    order: &Vec<String>,
) -> (r: Vec<Key>)
    ensures
        r.deep_view() == cell_hits(hits.deep_view(), default_sheet@, order.deep_view()),
{
    let ghost all = hits.deep_view();
    let mut deps: Vec<Key> = Vec::new();
    assert(deps.deep_view() == Seq::<Key<Seq<char>>>::empty());
    let mut i: usize = 0;
    while i < hits.len()
        invariant
            i <= hits.len(),
            all == hits.deep_view(),
            deps.deep_view() == cell_hits(all.take(i as int), default_sheet@, order.deep_view()),
        decreases hits.len() - i,
    {
        assert(all.take(i + 1).drop_last() == all.take(i as int));
        assert(all.take(i + 1).last() == hits@[i as int].deep_view());
        let g = &hits[i].1;
        let sheets = sheet_targets(
            formula::either_of(pattern::group_of(g, 1), pattern::group_of(g, 2)),
            default_sheet,
            order,
        );
        let c1 = size_or(group_col(g, 3), 1);
        let r1 = size_or(group_row(g, 4), 1);
        let c2 = size_or(group_col(g, 5), c1);
        let r2 = size_or(group_row(g, 6), r1);
        add_area_on_sheets(
            &mut deps,
            &sheets,
            (lower_of(r1, r2), higher_of(r1, r2), lower_of(c1, c2), higher_of(c1, c2)),
        );
        i = i + 1;
    }
    assert(all.take(all.len() as int) == all);
    deps
}

/// Adds the cells with a value in the whole columns found in a formula.
pub fn add_column_hits(
    deps: &mut Vec<Key>,
    hits: &Vec<(String, Vec<Option<String>>)>,
    default_sheet: &str,
    cells: &Vec<(Key, String)>,
    order: &Vec<String>,
)
    ensures
        final(deps).deep_view() == column_hits(
            old(deps).deep_view(),
            hits.deep_view(),
            default_sheet@,
            cells.deep_view(),
            order.deep_view(),
        ),
{
    let ghost all = hits.deep_view();
    let ghost start = old(deps).deep_view();
    let mut i: usize = 0;
    while i < hits.len()
        invariant
            i <= hits.len(),
            all == hits.deep_view(),
            deps.deep_view() == column_hits(
                start,
                all.take(i as int),
                default_sheet@,
                cells.deep_view(),
                order.deep_view(),
            ),
        decreases hits.len() - i,
    {
        assert(all.take(i + 1).drop_last() == all.take(i as int));
        assert(all.take(i + 1).last() == hits@[i as int].deep_view());
        let g = &hits[i].1;
        let sheets = sheet_targets(
            formula::either_of(pattern::group_of(g, 1), pattern::group_of(g, 2)),
            default_sheet,
            order,
        );
        let c1 = size_or(group_col(g, 3), 1);
        let c2 = size_or(group_col(g, 4), c1);
        add_columns_on_sheets(deps, cells, &sheets, lower_of(c1, c2), higher_of(c1, c2));
        i = i + 1;
    }
    assert(all.take(all.len() as int) == all);
}

pub fn extract_deps_regex(
    formula: &str,
    default_sheet: &str,
    cells: &Vec<(Key, String)>,
    order: &Vec<String>,
) -> (r: Vec<Key>)
    ensures
        r.deep_view() == plain_deps(
            formula@,
            default_sheet@,
            cells.deep_view(),
            order.deep_view(),
        ),
{
    let ranges = pattern::find_all(CELL_PATTERN, formula);
    let mut deps = deps_of_cell_hits(&ranges.0, default_sheet, order);
    let columns = pattern::find_all(COLUMNS_PATTERN, formula);
    add_column_hits(&mut deps, &columns.0, default_sheet, cells, order);
    deps
}

// ----- Defined names -----

pub type NamesModel = Seq<DefinedName<Seq<char>>>;

/// The names for all sheets, by their small letters, in turn.
pub open spec fn global_names(s: NamesModel) -> Seq<(Seq<char>, Seq<char>)>
    decreases s.len(),
{
    if s.len() == 0 {
        Seq::empty()
    } else if s.last().scope_sheet is None {
        entries::put(global_names(s.drop_last()), text::lower(s.last().name), s.last().target)
    } else {
        global_names(s.drop_last())
    }
}

/// The names of a sheet over those of `base`.
pub open spec fn names_over(
    base: Seq<(Seq<char>, Seq<char>)>,
    s: NamesModel,
    sheet: Seq<char>,
) -> Seq<(Seq<char>, Seq<char>)>
    decreases s.len(),
{
    if s.len() == 0 {
        base
    } else if s.last().scope_sheet == Some(sheet) {
        entries::put(
            names_over(base, s.drop_last(), sheet),
            text::lower(s.last().name),
            s.last().target,
        )
    } else {
        names_over(base, s.drop_last(), sheet)
    }
}

/// What the names mean on a sheet: a name of the sheet goes before one for all sheets.
pub open spec fn names_on(s: NamesModel, sheet: Seq<char>) -> Seq<(Seq<char>, Seq<char>)> {
    names_over(global_names(s), s, sheet)
}

pub fn defined_name_lookup(names: &Vec<DefinedName>, sheet: &str) -> (r: Vec<(String, String)>)
    ensures
        r.deep_view() == names_on(names.deep_view(), sheet@),
{
    let ghost all = names.deep_view();
    let mut out: Vec<(String, String)> = Vec::new();
    assert(out.deep_view() == Seq::<(Seq<char>, Seq<char>)>::empty());
    let mut i: usize = 0;
    while i < names.len()
        invariant
            i <= names.len(),
            all == names.deep_view(),
            out.deep_view() == global_names(all.take(i as int)),
        decreases names.len() - i,
    {
        assert(all.take(i + 1).drop_last() == all.take(i as int));
        assert(all.take(i + 1).last() == names@[i as int].deep_view());
        if names[i].scope_sheet.is_none() {
            entries::map_put(&mut out, text::to_lower(&names[i].name), names[i].target.clone());
        }
        i = i + 1;
    }
    assert(all.take(all.len() as int) == all);
    let ghost base = out.deep_view();
    let mut j: usize = 0;
    while j < names.len()
        invariant
            j <= names.len(),
            all == names.deep_view(),
            out.deep_view() == names_over(base, all.take(j as int), sheet@),
        decreases names.len() - j,
    {
        assert(all.take(j + 1).drop_last() == all.take(j as int));
        assert(all.take(j + 1).last() == names@[j as int].deep_view());
        let scoped = match &names[j].scope_sheet {
            Some(t) => text::same(t, sheet),
            None => false,
        };
        if scoped {
            entries::map_put(&mut out, text::to_lower(&names[j].name), names[j].target.clone());
        }
        j = j + 1;
    }
    out
}

/// The first character from `i` on that is no white space.
pub open spec fn next_solid(s: Seq<char>, i: int) -> Option<char>
    decreases s.len() - i,
{
    if i < 0 || i >= s.len() {
        None
    } else if text::is_white(s[i]) {
        next_solid(s, i + 1)
    } else {
        Some(s[i])
    }
}

/// Whether a word from `start` to `end` can be a defined name: it is no part of a sheet
/// name or reference and no function.
pub open spec fn may_be_name(s: Seq<char>, start: int, end: int) -> bool {
    let before = formula::char_at(s, start - 1);
    let after = next_solid(s, end);
    before != Some('\'') && before != Some('!') && before != Some('[') && after != Some('!')
        && after != Some('(')
}

pub fn is_defined_name_context(s: &Vec<char>, start: usize, end: usize) -> (r: bool)
    ensures
        r == may_be_name(s@, start as int, end as int),
{
    let before = formula::char_before(s, start);
    if before == Some('\'') || before == Some('!') || before == Some('[') {
        return false;
    }
    let mut i: usize = end;
    while i < s.len() && text::white(s[i])
        invariant
            end <= i,
            next_solid(s@, end as int) == next_solid(s@, i as int),
        decreases s.len() - i,
    {
        i = i + 1;
    }
    if i < s.len() {
        s[i] != '!' && s[i] != '('
    } else {
        true
    }
}

/// What a defined name stands for, without `=` and literals and unfollowed references.
pub open spec fn name_target(target: Seq<char>) -> Seq<char> {
    text::drop_leading(text::trim(target), '=')
}

/// The names found in a formula: the cells that they stand for, and the formula with them
/// made blank.
pub open spec fn name_hits(
    formula: Seq<char>,
    hits: Seq<(Seq<char>, Seq<Option<Seq<char>>>)>,
    lookup: Seq<(Seq<char>, Seq<char>)>,
    default_sheet: Seq<char>,
    cells: CellsModel,
    order: Seq<Seq<char>>,
) -> (Seq<Key<Seq<char>>>, Seq<char>)
    decreases hits.len(),
{
    if hits.len() == 0 {
        (Seq::empty(), Seq::empty())
    } else {
        let (deps, out) = name_hits(formula, hits.drop_last(), lookup, default_sheet, cells, order);
        let (before, g) = hits.last();
        let token = pattern::group_text(g, 0);
        let at = (pattern::scanned_text(hits.drop_last()) + before).len() as int;
        let found = entries::get(lookup, text::lower(token));
        if found is Some && may_be_name(formula, at, at + token.len()) {
            (
                entries::with_all(
                    deps,
                    plain_deps(
                        tokens_blanked(literals_blanked(name_target(found.unwrap()))),
                        default_sheet,
                        cells,
                        order,
                    ),
                ),
                out + before + text::blanks(text::bytes_len(token)),
            )
        } else {
            (deps, out + before + token)
        }
    }
}

pub open spec fn named_deps(
    formula: Seq<char>,
    default_sheet: Seq<char>,
    cells: CellsModel,
    order: Seq<Seq<char>>,
    names: NamesModel,
) -> (Seq<Key<Seq<char>>>, Seq<char>) {
    if names.len() == 0 {
        (Seq::empty(), formula)
    } else {
        let found = pattern::scan(NAME_PATTERN@, formula);
        let (deps, out) = name_hits(
            formula,
            found.0,
            names_on(names, default_sheet),
            default_sheet,
            cells,
            order,
        );
        (deps, out + found.1)
    }
}

/// Adds the members of one list to a set of cells.
pub fn add_all(deps: &mut Vec<Key>, more: &Vec<Key>)
    ensures
        final(deps).deep_view() == entries::with_all(old(deps).deep_view(), more.deep_view()),
{
    let ghost all = more.deep_view();
    let ghost start = old(deps).deep_view();
    let mut i: usize = 0;
    while i < more.len()
        invariant
            i <= more.len(),
            all == more.deep_view(),
            deps.deep_view() == entries::with_all(start, all.take(i as int)),
        decreases more.len() - i,
    {
        assert(all.take(i + 1).drop_last() == all.take(i as int));
        assert(all.take(i + 1).last() == more@[i as int].deep_view());
        entries::set_add(deps, more[i].clone());
        i = i + 1;
    }
    assert(all.take(all.len() as int) == all);
}

/// The dependencies through the names found in a formula.
pub fn deps_of_name_hits(
    formula: &str,
    hits: &Vec<(String, Vec<Option<String>>)>,
    lookup: &Vec<(String, String)>,
    default_sheet: &str,
    cells: &Vec<(Key, String)>,
    order: &Vec<String>,
) -> (r: (Vec<Key>, String))
    ensures
        (r.0.deep_view(), r.1@) == name_hits(
            formula@,
            hits.deep_view(),
            lookup.deep_view(),
            default_sheet@,
            cells.deep_view(),
            order.deep_view(),
        ),
{
    let f = text::chars_of(formula);
    let ghost all = hits.deep_view();
    let mut deps: Vec<Key> = Vec::new();
    assert(deps.deep_view() == Seq::<Key<Seq<char>>>::empty());
    let mut out = String::new();
    let mut seen: Vec<char> = Vec::new();
    let mut i: usize = 0;
    while i < hits.len()
        invariant
            i <= hits.len(),
            all == hits.deep_view(),
            f@ == formula@,
            seen@ == pattern::scanned_text(all.take(i as int)),
            (deps.deep_view(), out@) == name_hits(
                formula@,
                all.take(i as int),
                lookup.deep_view(),
                default_sheet@,
                cells.deep_view(),
                order.deep_view(),
            ),
        decreases hits.len() - i,
    {
        assert(all.take(i + 1).drop_last() == all.take(i as int));
        assert(all.take(i + 1).last() == hits@[i as int].deep_view());
        let token = pattern::group_text_of(&hits[i].1, 0);
        let mut before = text::chars_of(&hits[i].0);
        seen.append(&mut before);
        let at = seen.len();
        let mut whole = text::chars_of(&token);
        seen.append(&mut whole);
        let end = seen.len();
        out.append(&hits[i].0);
        match entries::map_get(lookup, &text::to_lower(&token)) {
            Some(target) => {
                if is_defined_name_context(&f, at, end) {
                    let target = text::without_leading(&text::trimmed(target), '=');
                    let target = mask_unsupported_dependency_tokens(
                        &strip_formula_string_literals(&target),
                    );
                    let more = extract_deps_regex(&target, default_sheet, cells, order);
                    add_all(&mut deps, &more);
                    out.append(&text::blanks_for(&token));
                } else {
                    out.append(&token);
                }
            },
            None => {
                out.append(&token);
            },
        }
        i = i + 1;
    }
    assert(all.take(all.len() as int) == all);
    (deps, out)
}

pub fn extract_defined_name_deps(
    formula: &str,
    default_sheet: &str,
    cells: &Vec<(Key, String)>,
    order: &Vec<String>,
    names: &Vec<DefinedName>,
) -> (r: (Vec<Key>, String))
    ensures
        (r.0.deep_view(), r.1@) == named_deps(
            formula@,
            default_sheet@,
            cells.deep_view(),
            order.deep_view(),
            names.deep_view(),
        ),
{
    if names.len() == 0 {
        let none: Vec<Key> = Vec::new();
        assert(none.deep_view() == Seq::<Key<Seq<char>>>::empty());
        return (none, formula.to_owned());
    }
    let lookup = defined_name_lookup(names, default_sheet);
    let found = pattern::find_all(NAME_PATTERN, formula);
    let (deps, mut out) = deps_of_name_hits(
        formula,
        &found.0,
        &lookup,
        default_sheet,
        cells,
        order,
    );
    out.append(&found.1);
    (deps, out)
}

// ----- Structured references -----

/// The first table from `i` on with the given name, letter case aside.
pub open spec fn table_from(tables: Seq<TableModel>, name: Seq<char>, i: int) -> Option<int>
    decreases tables.len() - i,
{
    if i < 0 || i >= tables.len() {
        None
    } else if text::like(tables[i].name, name) {
        Some(i)
    } else {
        table_from(tables, name, i + 1)
    }
}

pub fn find_table(tables: &Vec<TableInfo>, name: &str) -> (r: Option<usize>)
    ensures
        text::pos(r) == table_from(tables.deep_view(), name@, 0),
        r matches Some(k) ==> k < tables.len(),
{
    let mut i: usize = 0;
    while i < tables.len()
        invariant
            i <= tables.len(),
            table_from(tables.deep_view(), name@, 0) == table_from(
                tables.deep_view(),
                name@,
                i as int,
            ),
        decreases tables.len() - i,
    {
        assert(tables.deep_view()[i as int] == tables@[i as int].deep_view());
        if text::eq_nocase(&tables[i].name, name) {
            return Some(i);
        }
        i = i + 1;
    }
    None
}

/// The cells that structured references name; `None` where one of them cannot be told.
pub open spec fn specs_deps(
    specs: Seq<(Seq<char>, Seq<char>)>,
    k: Key<Seq<char>>,
    tables: Seq<TableModel>,
) -> Option<Seq<Key<Seq<char>>>>
    decreases specs.len(),
{
    if specs.len() == 0 {
        Some(Seq::empty())
    } else {
        let (name, selector) = specs.last();
        match (specs_deps(specs.drop_last(), k, tables), table_from(tables, name, 0)) {
            (Some(done), Some(i)) => match structured::selected_area(tables[i], k, selector) {
                Some((r1, r2, c1, c2)) => Some(
                    entries::with_all(
                        done,
                        structured::area_keys(tables[i].sheet, r1, r2 as int, c1, c2),
                    ),
                ),
                None => None,
            },
            _ => None,
        }
    }
}

pub open spec fn precise_deps(
    formula: Seq<char>,
    k: Key<Seq<char>>,
    tables: Seq<TableModel>,
) -> Option<Seq<Key<Seq<char>>>> {
    match structured::ref_specs(formula) {
        Some(specs) => if specs.len() == 0 {
            None
        } else {
            specs_deps(specs, k, tables)
        },
        None => None,
    }
}

proof fn lemma_specs_lost(
    specs: Seq<(Seq<char>, Seq<char>)>,
    i: int,
    k: Key<Seq<char>>,
    tables: Seq<TableModel>,
)
    requires
        0 <= i <= specs.len(),
        specs_deps(specs.take(i), k, tables) is None,
    ensures
        specs_deps(specs, k, tables) is None,
    decreases specs.len() - i,
{
    if i < specs.len() {
        assert(specs.take(i + 1).drop_last() == specs.take(i));
        lemma_specs_lost(specs, i + 1, k, tables);
    } else {
        assert(specs.take(i) == specs);
    }
}

pub fn precise_structured_table_ref_deps(
    formula: &str,
    k: &Key,
    tables: &Vec<TableInfo>,
) -> (r: Option<Vec<Key>>)
    ensures
        r.deep_view() == precise_deps(formula@, k.deep_view(), tables.deep_view()),
{
    let specs = match structured::structured_ref_specs(formula) {
        Some(specs) => specs,
        None => return None,
    };
    let ghost all = specs.deep_view();
    let mut deps: Vec<Key> = Vec::new();
    assert(deps.deep_view() == Seq::<Key<Seq<char>>>::empty());
    let mut i: usize = 0;
    while i < specs.len()
        invariant
            i <= specs.len(),
            all == specs.deep_view(),
            specs_deps(all.take(i as int), k.deep_view(), tables.deep_view()) == Some(
                deps.deep_view(),
            ),
        decreases specs.len() - i,
    {
        assert(all.take(i + 1).drop_last() == all.take(i as int));
        assert(all.take(i + 1).last() == specs@[i as int].deep_view());
        let found = find_table(tables, &specs[i].0);
        let added = match found {
            Some(t) => {
                assert(tables.deep_view()[t as int] == tables@[t as int].deep_view());
                structured::add_structured_ref_deps(&mut deps, &tables[t], k, &specs[i].1)
            },
            None => None,
        };
        if added.is_none() {
            proof {
                lemma_specs_lost(all, i + 1, k.deep_view(), tables.deep_view());
            }
            return None;
        }
        i = i + 1;
    }
    assert(all.take(all.len() as int) == all);
    if specs.len() == 0 {
        None
    } else {
        Some(deps)
    }
}

/// The cells with a value that hold no formula.
pub open spec fn plain_cells(cells: CellsModel, formula_keys: Seq<Key<Seq<char>>>) -> Seq<
    Key<Seq<char>>,
>
    decreases cells.len(),
{
    if cells.len() == 0 {
        Seq::empty()
    } else if formula_keys.contains(cells.last().0) {
        plain_cells(cells.drop_last(), formula_keys)
    } else {
        plain_cells(cells.drop_last(), formula_keys).push(cells.last().0)
    }
}

pub fn non_formula_cells(cells: &Vec<(Key, String)>, formula_keys: &Vec<Key>) -> (r: Vec<Key>)
    ensures
        r.deep_view() == plain_cells(cells.deep_view(), formula_keys.deep_view()),
{
    let ghost all = cells.deep_view();
    let mut out: Vec<Key> = Vec::new();
    assert(out.deep_view() == Seq::<Key<Seq<char>>>::empty());
    let mut i: usize = 0;
    while i < cells.len()
        invariant
            i <= cells.len(),
            all == cells.deep_view(),
            out.deep_view() == plain_cells(all.take(i as int), formula_keys.deep_view()),
        decreases cells.len() - i,
    {
        assert(all.take(i + 1).drop_last() == all.take(i as int));
        assert(all.take(i + 1).last() == cells@[i as int].deep_view());
        if !entries::set_has(formula_keys, &cells[i].0) {
            let ghost done = out.deep_view();
            out.push(cells[i].0.clone());
            assert(out.deep_view() == done.push(all[i as int].0));
        }
        i = i + 1;
    }
    assert(all.take(all.len() as int) == all);
    out
}

/// The cells that a formula's structured references name; all cells without formula where
/// that cannot be told, and none where the formula has no structured reference.
pub open spec fn structured_deps(
    formula: Seq<char>,
    k: Key<Seq<char>>,
    cells: CellsModel,
    formula_keys: Seq<Key<Seq<char>>>,
    tables: Seq<TableModel>,
) -> Seq<Key<Seq<char>>> {
    if pattern::first_match(structured::STRUCTURED_PATTERN@, formula) is None {
        Seq::empty()
    } else {
        match precise_deps(formula, k, tables) {
            Some(deps) => deps,
            None => plain_cells(cells, formula_keys),
        }
    }
}

pub fn structured_table_ref_deps(
    formula: &str,
    k: &Key,
    cells: &Vec<(Key, String)>,
    formula_keys: &Vec<Key>,
    tables: &Vec<TableInfo>,
) -> (r: Vec<Key>)
    ensures
        r.deep_view() == structured_deps(
            formula@,
            k.deep_view(),
            cells.deep_view(),
            formula_keys.deep_view(),
            tables.deep_view(),
        ),
{
    if !structured::has_structured_table_ref(formula) {
        let none: Vec<Key> = Vec::new();
        assert(none.deep_view() == Seq::<Key<Seq<char>>>::empty());
        return none;
    }
    match precise_structured_table_ref_deps(formula, k, tables) {
        Some(deps) => deps,
        None => non_formula_cells(cells, formula_keys),
    }
}

// ----- All dependencies of a formula -----

/// The cells that the formula of cell `k` depends on.
pub open spec fn formula_deps(
    formula: Seq<char>,
    k: Key<Seq<char>>,
    cells: CellsModel,
    order: Seq<Seq<char>>,
    names: NamesModel,
    formula_keys: Seq<Key<Seq<char>>>,
    tables: Seq<TableModel>,
) -> Seq<Key<Seq<char>>> {
    let bare = literals_blanked(formula);
    let (named, scanned) = named_deps(tokens_blanked(bare), k.sheet, cells, order, names);
    entries::with_all(
        entries::with_all(plain_deps(scanned, k.sheet, cells, order), named),
        structured_deps(bare, k, cells, formula_keys, tables),
    )
}

pub fn extract_deps(
    formula: &str,
    k: &Key,
    cells: &Vec<(Key, String)>,
    order: &Vec<String>,
    names: &Vec<DefinedName>,
    formula_keys: &Vec<Key>,
    tables: &Vec<TableInfo>,
) -> (r: Vec<Key>)
    ensures
        r.deep_view() == formula_deps(
            formula@,
            k.deep_view(),
            cells.deep_view(),
            order.deep_view(),
            names.deep_view(),
            formula_keys.deep_view(),
            tables.deep_view(),
        ),
{
    let bare = strip_formula_string_literals(formula);
    let from_tables = structured_table_ref_deps(&bare, k, cells, formula_keys, tables);
    let scanned = mask_unsupported_dependency_tokens(&bare);
    let (from_names, scanned) = extract_defined_name_deps(
        &scanned,
        &k.sheet,
        cells,
        order,
        names,
    );
    let mut deps = extract_deps_regex(&scanned, &k.sheet, cells, order);
    add_all(&mut deps, &from_names);
    add_all(&mut deps, &from_tables);
    deps
}

proof fn lemma_area_once(deps: Seq<Key<Seq<char>>>, sheets: Seq<Seq<char>>, a: structured::Area)
    requires
        deps.no_duplicates(),
    ensures
        area_on_sheets(deps, sheets, a).no_duplicates(),
    decreases sheets.len(),
{
    if sheets.len() > 0 {
        lemma_area_once(deps, sheets.drop_last(), a);
        entries::lemma_with_all_once(
            area_on_sheets(deps, sheets.drop_last(), a),
            structured::area_keys(sheets.last(), a.0, a.1 as int, a.2, a.3),
        );
    }
}

proof fn lemma_cell_hits_once(
    hits: Seq<(Seq<char>, Seq<Option<Seq<char>>>)>,
    default_sheet: Seq<char>,
    order: Seq<Seq<char>>,
)
    ensures
        cell_hits(hits, default_sheet, order).no_duplicates(),
    decreases hits.len(),
{
    if hits.len() > 0 {
        lemma_cell_hits_once(hits.drop_last(), default_sheet, order);
        let g = hits.last().1;
        lemma_area_once(
            cell_hits(hits.drop_last(), default_sheet, order),
            targets(
                formula::either(pattern::group(g, 1), pattern::group(g, 2)),
                default_sheet,
                order,
            ),
            match_area(g),
        );
    }
}

proof fn lemma_columns_once(
    deps: Seq<Key<Seq<char>>>,
    cells: CellsModel,
    sheets: Seq<Seq<char>>,
    c1: usize,
    c2: usize,
)
    requires
        deps.no_duplicates(),
    ensures
        columns_on_sheets(deps, cells, sheets, c1, c2).no_duplicates(),
    decreases sheets.len(),
{
    if sheets.len() > 0 {
        lemma_columns_once(deps, cells, sheets.drop_last(), c1, c2);
        lemma_column_cells_once(
            columns_on_sheets(deps, cells, sheets.drop_last(), c1, c2),
            cells,
            sheets.last(),
            c1,
            c2,
        );
    }
}

proof fn lemma_column_cells_once(
    deps: Seq<Key<Seq<char>>>,
    cells: CellsModel,
    sheet: Seq<char>,
    c1: usize,
    c2: usize,
)
    requires
        deps.no_duplicates(),
    ensures
        column_cells(deps, cells, sheet, c1, c2).no_duplicates(),
    decreases cells.len(),
{
    if cells.len() > 0 {
        lemma_column_cells_once(deps, cells.drop_last(), sheet, c1, c2);
        entries::law_sets_hold_members_once(
            column_cells(deps, cells.drop_last(), sheet, c1, c2),
            cells.last().0,
        );
    }
}

proof fn lemma_column_hits_once(
    deps: Seq<Key<Seq<char>>>,
    hits: Seq<(Seq<char>, Seq<Option<Seq<char>>>)>,
    default_sheet: Seq<char>,
    cells: CellsModel,
    order: Seq<Seq<char>>,
)
    requires
        deps.no_duplicates(),
    ensures
        column_hits(deps, hits, default_sheet, cells, order).no_duplicates(),
    decreases hits.len(),
{
    if hits.len() > 0 {
        lemma_column_hits_once(deps, hits.drop_last(), default_sheet, cells, order);
        let g = hits.last().1;
        let c1 = or_size(col_of(pattern::group(g, 3)), 1);
        let c2 = or_size(col_of(pattern::group(g, 4)), c1);
        lemma_columns_once(
            column_hits(deps, hits.drop_last(), default_sheet, cells, order),
            cells,
            targets(
                formula::either(pattern::group(g, 1), pattern::group(g, 2)),
                default_sheet,
                order,
            ),
            low(c1, c2),
            high(c1, c2),
        );
    }
}

/// A formula depends on no cell twice.
pub proof fn law_dependencies_are_a_set(
    formula: Seq<char>,
    k: Key<Seq<char>>,
    cells: CellsModel,
    order: Seq<Seq<char>>,
    names: NamesModel,
    formula_keys: Seq<Key<Seq<char>>>,
    tables: Seq<TableModel>,
)
    ensures
        formula_deps(formula, k, cells, order, names, formula_keys, tables).no_duplicates(),
{
    let bare = literals_blanked(formula);
    let (named, scanned) = named_deps(tokens_blanked(bare), k.sheet, cells, order, names);
    let found = pattern::scan(CELL_PATTERN@, scanned).0;
    lemma_cell_hits_once(found, k.sheet, order);
    lemma_column_hits_once(
        cell_hits(found, k.sheet, order),
        pattern::scan(COLUMNS_PATTERN@, scanned).0,
        k.sheet,
        cells,
        order,
    );
    let plain = plain_deps(scanned, k.sheet, cells, order);
    entries::lemma_with_all_once(plain, named);
    entries::lemma_with_all_once(
        entries::with_all(plain, named),
        structured_deps(bare, k, cells, formula_keys, tables),
    );
}

} // verus!
