//! Structured references to tables: where they stand in a formula and which cells of a
//! table they name.

use crate::coord;
use crate::coord::Key;
use crate::entries;
use crate::objects;
use crate::objects::{TableInfo, TableModel};
use crate::pattern;
use crate::text;
use vstd::prelude::*;
use vstd::string::*;

verus! {

// ----- Finding the references -----

pub open spec fn is_name_start(c: char) -> bool {
    text::is_alpha(c) || c == '_'
}

pub open spec fn is_name_part(c: char) -> bool {
    text::is_alnum(c) || c == '_'
}

pub fn is_table_name_start(c: char) -> (r: bool)
    ensures
        r == is_name_start(c),
{
    text::alpha(c) || c == '_'
}

pub fn is_table_name_continue(c: char) -> (r: bool)
    ensures
        r == is_name_part(c),
{
    text::alnum(c) || c == '_'
}

pub open spec fn is_ascii_white(c: char) -> bool {
    c == ' ' || c == '\t' || c == '\n' || c == '\u{c}' || c == '\r'
}

fn ascii_white(c: char) -> (r: bool)
    ensures
        r == is_ascii_white(c),
{
    c == ' ' || c == '\t' || c == '\n' || c == '\u{c}' || c == '\r'
}

/// The end of the name part that goes on at `i`.
pub open spec fn name_end(s: Seq<char>, i: int) -> int
    decreases s.len() - i,
{
    if 0 <= i < s.len() && is_name_part(s[i]) {
        name_end(s, i + 1)
    } else {
        i
    }
}

pub open spec fn white_end(s: Seq<char>, i: int) -> int
    decreases s.len() - i,
{
    if 0 <= i < s.len() && is_ascii_white(s[i]) {
        white_end(s, i + 1)
    } else {
        i
    }
}

pub proof fn lemma_ends(s: Seq<char>, i: int)
    requires
        0 <= i <= s.len(),
    ensures
        i <= name_end(s, i) <= s.len(),
        i <= white_end(s, i) <= s.len(),
    decreases s.len() - i,
{
    if i < s.len() {
        lemma_ends(s, i + 1);
    }
}

/// The position behind the bracket that closes the `depth` brackets open at `i`.
pub open spec fn bracket_end(s: Seq<char>, i: int, depth: int) -> Option<int>
    decreases s.len() - i,
{
    if i < 0 || i >= s.len() {
        None
    } else if s[i] == '[' {
        bracket_end(s, i + 1, depth + 1)
    } else if s[i] == ']' {
        if depth <= 1 {
            Some(i + 1)
        } else {
            bracket_end(s, i + 1, depth - 1)
        }
    } else {
        bracket_end(s, i + 1, depth)
    }
}

pub proof fn lemma_bracket_end(s: Seq<char>, i: int, depth: int)
    ensures
        bracket_end(s, i, depth) matches Some(k) ==> i < k <= s.len(),
    decreases s.len() - i,
{
    if 0 <= i < s.len() {
        lemma_bracket_end(s, i + 1, depth + 1);
        lemma_bracket_end(s, i + 1, depth - 1);
        lemma_bracket_end(s, i + 1, depth);
    }
}

pub open spec fn before_all(
    first: Seq<(int, int)>,
    rest: Option<Seq<(int, int)>>,
) -> Option<Seq<(int, int)>> {
    match rest {
        Some(more) => Some(first + more),
        None => None,
    }
}

/// The structured references from `i` on: a name and what follows it in brackets. `None`
/// where a bracket is not closed.
pub open spec fn spans_from(s: Seq<char>, i: int) -> Option<Seq<(int, int)>>
    decreases s.len() - i,
{
    if i < 0 || i >= s.len() {
        Some(Seq::empty())
    } else if !is_name_start(s[i]) || (i > 0 && is_name_part(s[i - 1])) {
        spans_from(s, i + 1)
    } else {
        let open = white_end(s, name_end(s, i + 1));
        proof {
            lemma_ends(s, i + 1);
            lemma_ends(s, name_end(s, i + 1));
            lemma_bracket_end(s, open, 0);
        }
        if open >= s.len() || s[open] != '[' {
            spans_from(s, open)
        } else {
            match bracket_end(s, open, 0) {
                Some(end) => before_all(seq![(i, end)], spans_from(s, end)),
                None => None,
            }
        }
    }
}

pub open spec fn spans(s: Seq<char>) -> Option<Seq<(int, int)>> {
    spans_from(s, 0)
}

pub open spec fn as_positions(v: Seq<(usize, usize)>) -> Seq<(int, int)> {
    Seq::new(v.len(), |i: int| (v[i].0 as int, v[i].1 as int))
}

fn skip_name(s: &Vec<char>, from: usize) -> (r: usize)
    requires
        from <= s.len(),
    ensures
        r == name_end(s@, from as int),
        from <= r <= s.len(),
{
    let mut i: usize = from;
    while i < s.len() && is_table_name_continue(s[i])
        invariant
            from <= i <= s.len(),
            name_end(s@, from as int) == name_end(s@, i as int),
        decreases s.len() - i,
    {
        i = i + 1;
    }
    i
}

fn skip_white(s: &Vec<char>, from: usize) -> (r: usize)
    requires
        from <= s.len(),
    ensures
        r == white_end(s@, from as int),
        from <= r <= s.len(),
{
    let mut i: usize = from;
    while i < s.len() && ascii_white(s[i])
        invariant
            from <= i <= s.len(),
            white_end(s@, from as int) == white_end(s@, i as int),
        decreases s.len() - i,
    {
        i = i + 1;
    }
    i
}

fn closing_bracket(s: &Vec<char>, from: usize) -> (r: Option<usize>)
    requires
        from < s.len(),
        s@[from as int] == '[',
    ensures
        text::pos(r) == bracket_end(s@, from as int, 0),
{
    let mut i: usize = from;
    let mut depth: usize = 0;
    while i < s.len()
        invariant
            from <= i <= s.len(),
            depth <= i - from,
            s@[from as int] == '[',
            i > from ==> depth >= 1,
            bracket_end(s@, from as int, 0) == bracket_end(s@, i as int, depth as int),
        decreases s.len() - i,
    {
        if s[i] == '[' {
            depth = depth + 1;
        } else if s[i] == ']' {
            if depth <= 1 {
                return Some(i + 1);
            }
            depth = depth - 1;
        }
        i = i + 1;
    }
    None
}

pub fn structured_ref_spans(s: &Vec<char>) -> (r: Option<Vec<(usize, usize)>>)
    ensures
        (match r {
            Some(v) => Some(as_positions(v@)),
            None => None,
        }) == spans(s@),
{
    let mut refs: Vec<(usize, usize)> = Vec::new();
    let mut i: usize = 0;
    proof {
        match spans(s@) {
            Some(all) => {
                assert(as_positions(refs@) + all == all);
            },
            None => {},
        }
    }
    while i < s.len()
        invariant
            i <= s.len(),
            spans(s@) == before_all(as_positions(refs@), spans_from(s@, i as int)),
        decreases s.len() - i,
    {
        if !is_table_name_start(s[i]) || (i > 0 && is_table_name_continue(s[i - 1])) {
            i = i + 1;
            continue;
        }
        let open = skip_white(s, skip_name(s, i + 1));
        if open >= s.len() || s[open] != '[' {
            i = open;
            continue;
        }
        match closing_bracket(s, open) {
            Some(end) => {
                proof {
                    lemma_bracket_end(s@, open as int, 0);
                    match spans_from(s@, end as int) {
                        Some(more) => {
                            assert(as_positions(refs@.push((i, end))) + more == as_positions(refs@)
                                + (seq![(i as int, end as int)] + more));
                        },
                        None => {},
                    }
                }
                refs.push((i, end));
                i = end;
            },
            None => return None,
        }
    }
    assert(as_positions(refs@) + Seq::<(int, int)>::empty() == as_positions(refs@));
    Some(refs)
}

/// The table name and the selector of the reference in `s` from `a` to `b`.
pub open spec fn table_and_selector(s: Seq<char>, a: int, b: int) -> (Seq<char>, Seq<char>) {
    let body = text::slice(s, a, b);
    match text::find(body, "["@) {
        Some(k) => (
            text::trim(text::slice(body, 0, k)),
            text::slice(body, k, body.len() as int),
        ),
        None => (text::trim(body), Seq::empty()),
    }
}

/// The table names and selectors of a formula; `None` where a bracket is not closed.
pub open spec fn ref_specs(s: Seq<char>) -> Option<Seq<(Seq<char>, Seq<char>)>> {
    match spans(s) {
        Some(all) => Some(
            Seq::new(all.len(), |i: int| table_and_selector(s, all[i].0, all[i].1)),
        ),
        None => None,
    }
}

pub fn structured_ref_specs(formula: &str) -> (r: Option<Vec<(String, String)>>)
    ensures
        r.deep_view() == ref_specs(formula@),
{
    let s = text::chars_of(formula);
    let found = match structured_ref_spans(&s) {
        Some(found) => found,
        None => return None,
    };
    let ghost all = as_positions(found@);
    let mut out: Vec<(String, String)> = Vec::new();
    let mut i: usize = 0;
    while i < found.len()
        invariant
            i <= found.len(),
            all == as_positions(found@),
            s@ == formula@,
            out.deep_view() == Seq::new(
                i as nat,
                |k: int| table_and_selector(formula@, all[k].0, all[k].1),
            ),
        decreases found.len() - i,
    {
        let (a, b) = found[i];
        let body = text::piece(&s, a, b);
        let chars = text::chars_of(&body);
        let pair = match text::find_text(&body, "[") {
            Some(k) => (
                text::trimmed(&text::piece(&chars, 0, k)),
                text::piece(&chars, k, chars.len()),
            ),
            None => (text::trimmed(&body), String::new()),
        };
        let ghost done = out.deep_view();
        out.push(pair);
        assert(out.deep_view() == done.push(pair.deep_view()));
        assert(pair.deep_view() == table_and_selector(
            formula@,
            all[i as int].0,
            all[i as int].1,
        ));
        i = i + 1;
    }
    assert(out.deep_view() == ref_specs(formula@).unwrap());
    Some(out)
}

pub const STRUCTURED_PATTERN: &'static str = r"(?i)\b[A-Za-z_][A-Za-z0-9_]*\s*(?:\[[^\]]+\])+";

pub fn has_structured_table_ref(formula: &str) -> (r: bool)
    ensures
        r == pattern::first_match(STRUCTURED_PATTERN@, formula@) is Some,
{
    pattern::is_match(STRUCTURED_PATTERN, formula)
}

// ----- Selectors -----

/// The characters that no plain column name of a selector holds.
pub open spec fn is_selector_mark(c: char) -> bool {
    c == '[' || c == ']' || c == '#' || c == '@' || c == ','
}

pub open spec fn is_plain_column(s: Seq<char>) -> bool {
    s.len() > 0 && forall|i: int| 0 <= i < s.len() ==> !is_selector_mark(#[trigger] s[i])
}

pub open spec fn plain_column(s: Seq<char>) -> Option<Seq<char>> {
    if is_plain_column(s) {
        Some(s)
    } else {
        None
    }
}

pub fn supported_structured_column_name(content: &str) -> (r: Option<String>)
    ensures
        r.deep_view() == plain_column(content@),
{
    let c = text::chars_of(content);
    if c.len() == 0 {
        return None;
    }
    let mut i: usize = 0;
    while i < c.len()
        invariant
            i <= c.len(),
            c@ == content@,
            forall|k: int| 0 <= k < i ==> !is_selector_mark(#[trigger] c@[k]),
        decreases c.len() - i,
    {
        let ch = c[i];
        if ch == '[' || ch == ']' || ch == '#' || ch == '@' || ch == ',' {
            assert(is_selector_mark(content@[i as int]));
            return None;
        }
        i = i + 1;
    }
    Some(content.to_owned())
}

/// The column of a selector such as `[Amount]`.
pub open spec fn simple_column(selector: Seq<char>) -> Option<Seq<char>> {
    match text::without_prefix(selector, "["@) {
        Some(t) => match text::without_suffix(t, "]"@) {
            Some(u) => plain_column(text::trim(u)),
            None => None,
        },
        None => None,
    }
}

pub fn simple_structured_column(selector: &str) -> (r: Option<String>)
    ensures
        r.deep_view() == simple_column(selector@),
{
    match text::strip_prefix(selector, "[") {
        Some(t) => match text::strip_suffix(&t, "]") {
            Some(u) => supported_structured_column_name(&text::trimmed(&u)),
            None => None,
        },
        None => None,
    }
}

pub const COLUMN_RANGE_PATTERN: &'static str = r"(?i)^\[\[\s*([^\]#,@:]+?)\s*\]\s*:\s*\[\s*([^\]#,@:]+?)\s*\]\s*\]$";

pub const ITEM_COLUMN_RANGE_PATTERN: &'static str = r"(?i)^\[\[\s*(#Data|#All|#Headers|#Totals)\s*\]\s*,\s*\[\s*([^\]#,@:]+?)\s*\]\s*:\s*\[\s*([^\]#,@:]+?)\s*\]\s*\]$";

pub const DATA_COLUMN_PATTERN: &'static str = r"(?i)^\[\[\s*#Data\s*\]\s*,\s*\[\s*([^\]#,@]+?)\s*\]\s*\]$";

pub const ITEM_COLUMN_PATTERN: &'static str = r"(?i)^\[\[\s*(#All|#Headers|#Totals)\s*\]\s*,\s*\[\s*([^\]#,@]+?)\s*\]\s*\]$";

pub const AT_COLUMN_PATTERN: &'static str = r"(?i)^\[\s*@\s*([^\]#,@]+?)\s*\]$";

pub const THIS_ROW_PATTERN: &'static str = r"(?i)^\[\[\s*#This\s+Row\s*\]\s*,\s*\[\s*([^\]#,@]+?)\s*\]\s*\]$";

/// The plain column name in group `i` of a match.
pub open spec fn column_group(g: Seq<Option<Seq<char>>>, i: int) -> Option<Seq<char>> {
    match pattern::group(g, i) {
        Some(t) => plain_column(text::trim(t)),
        None => None,
    }
}

fn column_group_of(g: &Vec<Option<String>>, i: usize) -> (r: Option<String>)
    ensures
        r.deep_view() == column_group(g.deep_view(), i as int),
{
    match pattern::group_of(g, i) {
        Some(t) => supported_structured_column_name(&text::trimmed(&t)),
        None => None,
    }
}

/// The part of a table that a selector names beside its columns.
#[derive(Clone, Copy, PartialEq, Eq, Structural)]
pub enum Part {
    Plain,
    Data,
    All,
    Headers,
    Totals,
}

pub open spec fn part_named(s: Seq<char>) -> Option<Part> {
    let item = text::lower(s);
    if item == "#data"@ {
        Some(Part::Data)
    } else if item == "#all"@ {
        Some(Part::All)
    } else if item == "#headers"@ {
        Some(Part::Headers)
    } else if item == "#totals"@ {
        Some(Part::Totals)
    } else {
        None
    }
}

fn part_of(s: &str) -> (r: Option<Part>)
    ensures
        r == part_named(s@),
{
    let item = text::to_lower(s);
    if text::same(&item, "#data") {
        Some(Part::Data)
    } else if text::same(&item, "#all") {
        Some(Part::All)
    } else if text::same(&item, "#headers") {
        Some(Part::Headers)
    } else if text::same(&item, "#totals") {
        Some(Part::Totals)
    } else {
        None
    }
}

/// How a diagnostic calls a selector of a range of columns.
pub open spec fn range_kind(part: Part) -> Seq<char> {
    match part {
        Part::Plain => "column_range"@,
        Part::Data => "data_column_range"@,
        Part::All => "all_column_range"@,
        Part::Headers => "header_column_range"@,
        Part::Totals => "totals_column_range"@,
    }
}

pub fn range_kind_text(part: Part) -> (r: &'static str)
    ensures
        r@ == range_kind(part),
{
    match part {
        Part::Plain => "column_range",
        Part::Data => "data_column_range",
        Part::All => "all_column_range",
        Part::Headers => "header_column_range",
        Part::Totals => "totals_column_range",
    }
}

/// How a diagnostic calls a selector of one column.
pub open spec fn column_kind(part: Part) -> Seq<char> {
    match part {
        Part::Plain => "column"@,
        Part::Data => "data_column"@,
        Part::All => "all_column"@,
        Part::Headers => "header_column"@,
        Part::Totals => "totals_column"@,
    }
}

pub fn column_kind_text(part: Part) -> (r: &'static str)
    ensures
        r@ == column_kind(part),
{
    match part {
        Part::Plain => "column",
        Part::Data => "data_column",
        Part::All => "all_column",
        Part::Headers => "header_column",
        Part::Totals => "totals_column",
    }
}

/// A selector of a range of columns: the part of the table, first and last column.
pub open spec fn column_range(selector: Seq<char>) -> Option<(Part, Seq<char>, Seq<char>)> {
    match pattern::first_match(COLUMN_RANGE_PATTERN@, selector) {
        Some(g) => match (column_group(g, 1), column_group(g, 2)) {
            (Some(a), Some(b)) => Some((Part::Plain, a, b)),
            _ => None,
        },
        None => match pattern::first_match(ITEM_COLUMN_RANGE_PATTERN@, selector) {
            Some(g) => match (pattern::group(g, 1), column_group(g, 2), column_group(g, 3)) {
                (Some(item), Some(a), Some(b)) => match part_named(item) {
                    Some(part) => Some((part, a, b)),
                    None => None,
                },
                _ => None,
            },
            None => None,
        },
    }
}

pub open spec fn range_view(r: Option<(Part, String, String)>) -> Option<
    (Part, Seq<char>, Seq<char>),
> {
    match r {
        Some((part, a, b)) => Some((part, a@, b@)),
        None => None,
    }
}

pub fn structured_column_range(selector: &str) -> (r: Option<(Part, String, String)>)
    ensures
        range_view(r) == column_range(selector@),
{
    match pattern::find_first(COLUMN_RANGE_PATTERN, selector) {
        Some(g) => match (column_group_of(&g, 1), column_group_of(&g, 2)) {
            (Some(a), Some(b)) => Some((Part::Plain, a, b)),
            _ => None,
        },
        None => match pattern::find_first(ITEM_COLUMN_RANGE_PATTERN, selector) {
            Some(g) => match (
                pattern::group_of(&g, 1),
                column_group_of(&g, 2),
                column_group_of(&g, 3),
            ) {
                (Some(item), Some(a), Some(b)) => match part_of(&item) {
                    Some(part) => Some((part, a, b)),
                    None => None,
                },
                _ => None,
            },
            None => None,
        },
    }
}

/// A selector of one column of a part of the table.
pub open spec fn qualified_column(selector: Seq<char>) -> Option<(Part, Seq<char>)> {
    match pattern::first_match(DATA_COLUMN_PATTERN@, selector) {
        Some(g) => match column_group(g, 1) {
            Some(a) => Some((Part::Data, a)),
            None => None,
        },
        None => match pattern::first_match(ITEM_COLUMN_PATTERN@, selector) {
            Some(g) => match (pattern::group(g, 1), column_group(g, 2)) {
                (Some(item), Some(a)) => match part_named(item) {
                    Some(Part::Data) => None,
                    Some(part) => Some((part, a)),
                    None => None,
                },
                _ => None,
            },
            None => None,
        },
    }
}

pub open spec fn column_view(r: Option<(Part, String)>) -> Option<(Part, Seq<char>)> {
    match r {
        Some((part, a)) => Some((part, a@)),
        None => None,
    }
}

pub fn structured_qualified_column(selector: &str) -> (r: Option<(Part, String)>)
    ensures
        column_view(r) == qualified_column(selector@),
{
    match pattern::find_first(DATA_COLUMN_PATTERN, selector) {
        Some(g) => match column_group_of(&g, 1) {
            Some(a) => Some((Part::Data, a)),
            None => None,
        },
        None => match pattern::find_first(ITEM_COLUMN_PATTERN, selector) {
            Some(g) => match (pattern::group_of(&g, 1), column_group_of(&g, 2)) {
                (Some(item), Some(a)) => match part_of(&item) {
                    Some(Part::Data) => None,
                    Some(part) => Some((part, a)),
                    None => None,
                },
                _ => None,
            },
            None => None,
        },
    }
}

/// The column of a selector of the formula's own row.
pub open spec fn row_column(selector: Seq<char>) -> Option<Seq<char>> {
    match pattern::first_match(AT_COLUMN_PATTERN@, selector) {
        Some(g) => column_group(g, 1),
        None => match pattern::first_match(THIS_ROW_PATTERN@, selector) {
            Some(g) => column_group(g, 1),
            None => None,
        },
    }
}

pub fn structured_row_scoped_column(selector: &str) -> (r: Option<String>)
    ensures
        r.deep_view() == row_column(selector@),
{
    match pattern::find_first(AT_COLUMN_PATTERN, selector) {
        Some(g) => column_group_of(&g, 1),
        None => match pattern::find_first(THIS_ROW_PATTERN, selector) {
            Some(g) => column_group_of(&g, 1),
            None => None,
        },
    }
}

// ----- The cells that a selector names -----

/// First row, last row, first column, last column.
pub type Area = (usize, usize, usize, usize);

/// The rows of a part of a table; none for the totals of a table without totals row.
pub open spec fn part_rows(t: TableModel, part: Part) -> Option<(usize, usize)> {
    match part {
        Part::Plain => Some((t.first_data_row(), t.last_data_row())),
        Part::Data => Some((t.first_data_row(), t.last_data_row())),
        Part::All => Some((t.start_row, t.end_row)),
        Part::Headers => Some((t.start_row, t.start_row)),
        Part::Totals => match t.totals_row {
            Some(row) => Some((row, row)),
            None => None,
        },
    }
}

pub fn rows_of_part(t: &TableInfo, part: Part) -> (r: Option<(usize, usize)>)
    ensures
        r == part_rows(t.deep_view(), part),
{
    match part {
        Part::Plain => Some((t.data_start_row(), t.data_end_row())),
        Part::Data => Some((t.data_start_row(), t.data_end_row())),
        Part::All => Some((t.start_row, t.end_row)),
        Part::Headers => Some((t.start_row, t.start_row)),
        Part::Totals => match t.totals_row {
            Some(row) => Some((row, row)),
            None => None,
        },
    }
}

/// A column of a table over some of its rows.
pub open spec fn column_area(t: TableModel, column: Seq<char>, rows: Option<(usize, usize)>) -> Option<
    Area,
> {
    match (rows, objects::columns_between(t, column, column)) {
        (Some((r1, r2)), Some((c1, c2))) => Some((r1, r2, c1, c2)),
        _ => None,
    }
}

fn area_of_column(t: &TableInfo, column: &str, rows: Option<(usize, usize)>) -> (r: Option<Area>)
    ensures
        r == column_area(t.deep_view(), column@, rows),
{
    match (rows, t.column_span(column, column)) {
        (Some((r1, r2)), Some((c1, c2))) => Some((r1, r2, c1, c2)),
        _ => None,
    }
}

pub open spec fn in_data_row(k: Key<Seq<char>>, t: TableModel) -> bool {
    k.sheet == t.sheet && t.first_data_row() <= k.row <= t.last_data_row() && t.start_col <= k.col
        <= t.end_col
}

/// Whether the formula's cell is in a data row of the table.
pub fn formula_cell_in_table_data_row(k: &Key, t: &TableInfo) -> (r: bool)
    ensures
        r == in_data_row(k.deep_view(), t.deep_view()),
{
    k.sheet == t.sheet && k.row >= t.data_start_row() && k.row <= t.data_end_row() && k.col
        >= t.start_col && k.col <= t.end_col
}

/// The part of a table that a selector without columns names.
pub open spec fn whole_part(selector: Seq<char>) -> Option<Part> {
    if text::like(selector, "[#All]"@) {
        Some(Part::All)
    } else if text::like(selector, "[#Data]"@) {
        Some(Part::Data)
    } else if text::like(selector, "[#Headers]"@) {
        Some(Part::Headers)
    } else if text::like(selector, "[#Totals]"@) {
        Some(Part::Totals)
    } else {
        None
    }
}

pub fn whole_part_of(selector: &str) -> (r: Option<Part>)
    ensures
        r == whole_part(selector@),
{
    if text::eq_nocase(selector, "[#All]") {
        Some(Part::All)
    } else if text::eq_nocase(selector, "[#Data]") {
        Some(Part::Data)
    } else if text::eq_nocase(selector, "[#Headers]") {
        Some(Part::Headers)
    } else if text::eq_nocase(selector, "[#Totals]") {
        Some(Part::Totals)
    } else {
        None
    }
}

/// The cells of a table that a selector names in a formula of cell `k`; `None` where the
/// selector is not understood or names a row or column that the table lacks.
pub open spec fn selected_area(t: TableModel, k: Key<Seq<char>>, text: Seq<char>) -> Option<Area> {
    let selector = text::trim(text);
    match whole_part(selector) {
        Some(part) => match part_rows(t, part) {
            Some((r1, r2)) => Some((r1, r2, t.start_col, t.end_col)),
            None => None,
        },
        None => match simple_column(selector) {
            Some(column) => column_area(t, column, part_rows(t, Part::Plain)),
            None => match column_range(selector) {
                Some((part, a, b)) => match (part_rows(t, part), objects::columns_between(t, a, b)) {
                    (Some((r1, r2)), Some((c1, c2))) => Some((r1, r2, c1, c2)),
                    _ => None,
                },
                None => match qualified_column(selector) {
                    Some((part, column)) => column_area(t, column, part_rows(t, part)),
                    None => match row_column(selector) {
                        Some(column) => if in_data_row(k, t) {
                            column_area(t, column, Some((k.row, k.row)))
                        } else {
                            None
                        },
                        None => None,
                    },
                },
            },
        },
    }
}

pub fn structured_ref_area(t: &TableInfo, k: &Key, selector: &str) -> (r: Option<Area>)
    ensures
        r == selected_area(t.deep_view(), k.deep_view(), selector@),
{
    let selector = text::trimmed(selector);
    match whole_part_of(&selector) {
        Some(part) => return match rows_of_part(t, part) {
            Some((r1, r2)) => Some((r1, r2, t.start_col, t.end_col)),
            None => None,
        },
        None => {},
    }
    match simple_structured_column(&selector) {
        Some(column) => return area_of_column(t, &column, rows_of_part(t, Part::Plain)),
        None => {},
    }
    match structured_column_range(&selector) {
        Some((part, a, b)) => return match (rows_of_part(t, part), t.column_span(&a, &b)) {
            (Some((r1, r2)), Some((c1, c2))) => Some((r1, r2, c1, c2)),
            _ => None,
        },
        None => {},
    }
    match structured_qualified_column(&selector) {
        Some((part, column)) => return area_of_column(t, &column, rows_of_part(t, part)),
        None => {},
    }
    match structured_row_scoped_column(&selector) {
        Some(column) => if formula_cell_in_table_data_row(k, t) {
            area_of_column(t, &column, Some((k.row, k.row)))
        } else {
            None
        },
        None => None,
    }
}

/// The cells of a row from one column to another.
pub open spec fn row_keys(sheet: Seq<char>, row: usize, c1: usize, c2: usize) -> Seq<
    Key<Seq<char>>,
> {
    if c1 > c2 {
        Seq::empty()
    } else {
        Seq::new((c2 - c1 + 1) as nat, |i: int| coord::key(sheet, row, (c1 + i) as usize))
    }
}

/// The cells of a rectangle, row by row.
pub open spec fn area_keys(sheet: Seq<char>, r1: usize, r2: int, c1: usize, c2: usize) -> Seq<
    Key<Seq<char>>,
>
    decreases r2 - r1 + 1,
{
    if r2 < r1 {
        Seq::empty()
    } else {
        area_keys(sheet, r1, r2 - 1, c1, c2) + row_keys(sheet, r2 as usize, c1, c2)
    }
}

/// A cell is among the cells of a rectangle just where its row and column are among the
/// rectangle's.
pub proof fn law_area_members(sheet: Seq<char>, r1: usize, r2: usize, c1: usize, c2: usize, k: Key<Seq<char>>)
    ensures
        area_keys(sheet, r1, r2 as int, c1, c2).contains(k) <==> k.sheet == sheet && r1 <= k.row
            <= r2 && c1 <= k.col <= c2,
{
    lemma_area_members(sheet, r1, r2 as int, c1, c2, k);
}

proof fn lemma_area_members(sheet: Seq<char>, r1: usize, r2: int, c1: usize, c2: usize, k: Key<Seq<char>>)
    requires
        r2 <= usize::MAX,
    ensures
        area_keys(sheet, r1, r2, c1, c2).contains(k) <==> k.sheet == sheet && r1 <= k.row <= r2
            && c1 <= k.col <= c2,
    decreases r2 - r1 + 1,
{
    if r2 >= r1 {
        lemma_area_members(sheet, r1, r2 - 1, c1, c2, k);
        let before = area_keys(sheet, r1, r2 - 1, c1, c2);
        let row = row_keys(sheet, r2 as usize, c1, c2);
        let all = before + row;
        if all.contains(k) {
            let i = all.index_of(k);
            if i < before.len() {
                assert(before[i] == k);
            } else {
                assert(row[i - before.len()] == k);
            }
        }
        if before.contains(k) {
            let i = before.index_of(k);
            assert(all[i] == k);
        }
        if k.sheet == sheet && k.row == r2 && c1 <= k.col <= c2 {
            let i = k.col - c1;
            assert(row[i] == k);
            assert(all[before.len() + i] == k);
        }
    }
}

/// Adds the cells of a rectangle to a set of cells.
pub fn add_area(deps: &mut Vec<Key>, sheet: &str, r1: usize, r2: usize, c1: usize, c2: usize)
    ensures
        final(deps).deep_view() == entries::with_all(
            old(deps).deep_view(),
            area_keys(sheet@, r1, r2 as int, c1, c2),
        ),
{
    let ghost start = old(deps).deep_view();
    if r1 > r2 {
        return;
    }
    let mut row: usize = r1;
    let mut more = true;
    assert(area_keys(sheet@, r1, r1 - 1, c1, c2) == Seq::<Key<Seq<char>>>::empty());
    while more
        invariant
            r1 <= row <= r2,
            more ==> deps.deep_view() == entries::with_all(
                start,
                area_keys(sheet@, r1, row - 1, c1, c2),
            ),
            !more ==> deps.deep_view() == entries::with_all(
                start,
                area_keys(sheet@, r1, r2 as int, c1, c2),
            ),
        decreases r2 - row + (if more { 1int } else { 0int }),
    {
        let ghost keys = row_keys(sheet@, row, c1, c2);
        let ghost done = area_keys(sheet@, r1, row - 1, c1, c2);
        add_row(deps, sheet, row, c1, c2);
        proof {
            lemma_with_all_in_turn(start, done, keys);
        }
        if row == r2 {
            more = false;
        } else {
            row = row + 1;
        }
    }
}

/// Adding one list and then another is adding them both together.
pub proof fn lemma_with_all_in_turn<T>(s: Seq<T>, a: Seq<T>, b: Seq<T>)
    ensures
        entries::with_all(entries::with_all(s, a), b) == entries::with_all(s, a + b),
    decreases b.len(),
{
    if b.len() == 0 {
        assert(a + b == a);
    } else {
        lemma_with_all_in_turn(s, a, b.drop_last());
        assert((a + b).drop_last() == a + b.drop_last());
    }
}

fn add_row(deps: &mut Vec<Key>, sheet: &str, row: usize, c1: usize, c2: usize)
    ensures
        final(deps).deep_view() == entries::with_all(
            old(deps).deep_view(),
            row_keys(sheet@, row, c1, c2),
        ),
{
    if c1 > c2 {
        return;
    }
    let ghost start = old(deps).deep_view();
    let ghost keys = row_keys(sheet@, row, c1, c2);
    let mut n: usize = 0;
    let width: usize = c2 - c1;
    let mut more = true;
    assert(keys.take(0) == Seq::<Key<Seq<char>>>::empty());
    assert(keys.take(keys.len() as int) == keys);
    while more
        invariant
            n <= width,
            width == c2 - c1,
            keys == row_keys(sheet@, row, c1, c2),
            keys.len() == width + 1,
            more ==> deps.deep_view() == entries::with_all(start, keys.take(n as int)),
            !more ==> deps.deep_view() == entries::with_all(start, keys),
        decreases width - n + (if more { 1int } else { 0int }),
    {
        assert(keys.take(n + 1).drop_last() == keys.take(n as int));
        entries::set_add(deps, coord::key_of(sheet, row, c1 + n));
        if n == width {
            assert(keys.take(n + 1) == keys);
            more = false;
        } else {
            n = n + 1;
        }
    }
}

/// Adds the cells that a selector names; where it names none that can be told, nothing is
/// added and `None` returned.
pub fn add_structured_ref_deps(
    deps: &mut Vec<Key>,
    table: &TableInfo,
    formula_key: &Key,
    selector: &str,
) -> (r: Option<()>)
    ensures
        (match selected_area(table.deep_view(), formula_key.deep_view(), selector@) {
            Some((r1, r2, c1, c2)) => r is Some && final(deps).deep_view() == entries::with_all(
                old(deps).deep_view(),
                area_keys(table.sheet@, r1, r2 as int, c1, c2),
            ),
            None => r is None && final(deps).deep_view() == old(deps).deep_view(),
        }),
{
    match structured_ref_area(table, formula_key, selector) {
        Some((r1, r2, c1, c2)) => {
            add_area(deps, &table.sheet, r1, r2, c1, c2);
            Some(())
        },
        None => None,
    }
}

/// A selector never names a cell outside the table's columns.
pub proof fn law_selected_columns_in_table(t: TableModel, k: Key<Seq<char>>, text: Seq<char>)
    ensures
        selected_area(t, k, text) matches Some((r1, r2, c1, c2)) ==> t.start_col <= c1 && c2
            <= t.end_col,
{
    assert forall|a: Seq<char>, b: Seq<char>| #![trigger objects::columns_between(t, a, b)]
        objects::columns_between(t, a, b) matches Some((c1, c2)) ==> t.start_col <= c1 && c2
            <= t.end_col by {
        lemma_column_index(t.columns, a, 0);
        lemma_column_index(t.columns, b, 0);
    }
}

proof fn lemma_column_index(columns: Seq<Seq<char>>, name: Seq<char>, i: int)
    ensures
        crate::objects::column_from(columns, name, i) matches Some(k) ==> i <= k < columns.len()
            && k >= 0,
    decreases columns.len() - i,
{
    if 0 <= i < columns.len() {
        lemma_column_index(columns, name, i + 1);
    }
}

} // verus!
