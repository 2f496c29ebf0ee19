//! Cell coordinates, column names and what a structure edit does to them.

use crate::entries::Alike;
use crate::text;
use vstd::prelude::*;
use vstd::string::*;

verus! {

// ----- Cells -----

/// A cell of a workbook. Records are generic in how they hold text: `String` at run
/// time, a sequence of characters in contracts.
#[verifier::ext_equal]
pub struct Key<S = String> {
    pub sheet: S,
    pub row: usize,
    pub col: usize,
}

impl DeepView for Key<String> {
    type V = Key<Seq<char>>;

    open spec fn deep_view(&self) -> Key<Seq<char>> {
        Key { sheet: self.sheet@, row: self.row, col: self.col }
    }
}

impl Clone for Key<String> {
    fn clone(&self) -> (r: Self)
        ensures
            r == *self,
    {
        Key { sheet: self.sheet.clone(), row: self.row, col: self.col }
    }
}

impl Alike for Key<String> {
    fn alike(&self, other: &Self) -> (r: bool) {
        self.row == other.row && self.col == other.col && self.sheet == other.sheet
    }
}

pub open spec fn key(sheet: Seq<char>, row: usize, col: usize) -> Key<Seq<char>> {
    Key { sheet, row, col }
}

pub fn key_of(sheet: &str, row: usize, col: usize) -> (r: Key)
    ensures
        r.deep_view() == key(sheet@, row, col),
{
    Key { sheet: sheet.to_owned(), row, col }
}

// ----- Column names -----

/// The letters of column `n`: A is 1, Z is 26, AA is 27.
pub open spec fn col_name(n: nat) -> Seq<char>
    decreases n,
{
    if n == 0 {
        Seq::empty()
    } else {
        col_name(((n - 1) / 26) as nat).push((65 + (n - 1) % 26) as char)
    }
}

pub fn col_to_name(col: usize) -> (r: String)
    ensures
        r@ == col_name(col as nat),
    decreases col,
{
    if col == 0 {
        return String::new();
    }
    let mut name = col_to_name((col - 1) / 26);
    let letter: u8 = 65 + ((col - 1) % 26) as u8;
    name.push(letter as char);
    name
}

pub open spec fn all_letters(s: Seq<char>) -> bool {
    forall|i: int| 0 <= i < s.len() ==> text::is_alpha(#[trigger] s[i])
}

/// The number that a row of letters stands for as a column name.
pub open spec fn col_value(s: Seq<char>) -> nat
    decreases s.len(),
{
    if s.len() == 0 {
        0
    } else {
        col_value(s.drop_last()) * 26 + (text::upper_char(s.last()) as int - 64) as nat
    }
}

/// The column that `s` names: nothing but letters, and a number that fits a machine
/// word.
pub open spec fn col_number(s: Seq<char>) -> Option<usize> {
    if all_letters(s) && col_value(s) <= usize::MAX {
        Some(col_value(s) as usize)
    } else {
        None
    }
}

proof fn lemma_col_value_grows(s: Seq<char>, n: int)
    requires
        0 <= n <= s.len(),
        all_letters(s),
    ensures
        col_value(s.take(n)) <= col_value(s),
    decreases s.len() - n,
{
    if n < s.len() {
        lemma_col_value_grows(s, n + 1);
        assert(s.take(n + 1).drop_last() == s.take(n));
    } else {
        assert(s.take(n) == s);
    }
}

pub fn col_from_name(name: &str) -> (r: Option<usize>)
    ensures
        r == col_number(name@),
{
    let c = text::chars_of(name);
    let mut i: usize = 0;
    while i < c.len()
        invariant
            i <= c.len(),
            forall|k: int| 0 <= k < i ==> text::is_alpha(#[trigger] c@[k]),
        decreases c.len() - i,
    {
        if !text::alpha(c[i]) {
            return None;
        }
        i = i + 1;
    }
    let mut col: usize = 0;
    let mut j: usize = 0;
    while j < c.len()
        invariant
            j <= c.len(),
            all_letters(c@),
            col == col_value(c@.take(j as int)),
        decreases c.len() - j,
    {
        proof {
            assert(c@.take(j + 1).drop_last() == c@.take(j as int));
            lemma_col_value_grows(c@, j + 1);
        }
        let letter: usize = (text::to_upper_char(c[j]) as u8 - 64) as usize;
        if col > usize::MAX / 26 || letter > usize::MAX - col * 26 {
            return None;
        }
        col = col * 26 + letter;
        j = j + 1;
    }
    assert(c@.take(c@.len() as int) == c@);
    Some(col)
}

/// A column's name reads back as the column.
pub proof fn law_col_name_reads_back(n: usize)
    ensures
        col_number(col_name(n as nat)) == Some(n),
{
    lemma_col_name_value(n as nat);
}

proof fn lemma_col_name_value(n: nat)
    ensures
        col_value(col_name(n)) == n,
        all_letters(col_name(n)),
    decreases n,
{
    if n > 0 {
        let m = ((n - 1) / 26) as nat;
        lemma_col_name_value(m);
        let name = col_name(n);
        assert(name.drop_last() == col_name(m));
        assert(name.last() == (65 + (n - 1) % 26) as char);
        assert forall|i: int| 0 <= i < name.len() implies text::is_alpha(#[trigger] name[i]) by {
            if i < name.len() - 1 {
                assert(name[i] == col_name(m)[i]);
            }
        }
    }
}

/// Two columns with one name are the same column.
pub proof fn law_col_name_injective(a: usize, b: usize)
    requires
        col_name(a as nat) == col_name(b as nat),
    ensures
        a == b,
{
    law_col_name_reads_back(a);
    law_col_name_reads_back(b);
}

/// A name in capitals that reads as a column is that column's name.
pub proof fn law_col_number_names_back(s: Seq<char>)
    requires
        all_letters(s),
        text::upper(s) == s,
    ensures
        col_name(col_value(s)) == s,
    decreases s.len(),
{
    if s.len() > 0 {
        let t = s.drop_last();
        assert(text::upper(t) == t) by {
            assert forall|i: int| 0 <= i < t.len() implies text::upper_char(t[i]) == t[i] by {
                assert(text::upper(s)[i] == s[i]);
            }
        }
        assert(all_letters(t)) by {
            assert forall|i: int| 0 <= i < t.len() implies text::is_alpha(#[trigger] t[i]) by {
                assert(text::is_alpha(s[i]));
            }
        }
        law_col_number_names_back(t);
        let d = text::upper_char(s.last()) as int - 64;
        assert(text::is_alpha(s[s.len() - 1]));
        assert(text::upper(s)[s.len() - 1] == s[s.len() - 1]);
        let n = col_value(s);
        assert(n == col_value(t) * 26 + d && 1 <= d <= 26);
        assert((n - 1) / 26 == col_value(t) as int && (n - 1) % 26 == d - 1);
        assert(s == t.push(s.last()));
    }
}

// ----- A1 references -----

/// The ASCII letters of `s`, in order.
pub open spec fn letters(s: Seq<char>) -> Seq<char>
    decreases s.len(),
{
    if s.len() == 0 {
        s
    } else if text::is_alpha(s.last()) {
        letters(s.drop_last()).push(s.last())
    } else {
        letters(s.drop_last())
    }
}

/// The ASCII digits of `s`, in order.
pub open spec fn digits(s: Seq<char>) -> Seq<char>
    decreases s.len(),
{
    if s.len() == 0 {
        s
    } else if text::is_digit(s.last()) {
        digits(s.drop_last()).push(s.last())
    } else {
        digits(s.drop_last())
    }
}

/// The column and row that a reference such as `B7` or `$B$7` names.
pub open spec fn a1(s: Seq<char>) -> Option<(usize, usize)> {
    match (col_number(letters(s)), text::parsed_size(digits(s))) {
        (Some(col), Some(row)) => Some((col, row)),
        _ => None,
    }
}

pub fn parse_a1(cell_ref: &str) -> (r: Option<(usize, usize)>)
    ensures
        r == a1(cell_ref@),
{
    let mut name = String::new();
    let mut number = String::new();
    let ghost s = cell_ref@;
    for ch in it: cell_ref.chars()
        invariant
            name@ == letters(s.take(it.index())),
            number@ == digits(s.take(it.index())),
            it.seq() == s,
    {
        assert(s.take(it.index() + 1).drop_last() == s.take(it.index()));
        if text::alpha(ch) {
            name.push(ch);
        } else if text::digit(ch) {
            number.push(ch);
        }
    }
    assert(s.take(s.len() as int) == s);
    match (col_from_name(&name), text::parse_size(&number)) {
        (Some(col), Some(row)) => Some((col, row)),
        _ => None,
    }
}

/// A cell in A1 notation.
pub open spec fn a1_text(row: usize, col: usize) -> Seq<char> {
    col_name(col as nat) + text::decimal(row as nat)
}

pub fn cell_name(row: usize, col: usize) -> (r: String)
    ensures
        r@ == a1_text(row, col),
{
    let mut out = col_to_name(col);
    out.append(&text::size_text(row));
    out
}

/// A rectangle in A1 notation.
pub open spec fn range_text(
    start_row: usize,
    start_col: usize,
    end_row: usize,
    end_col: usize,
) -> Seq<char> {
    a1_text(start_row, start_col) + ":"@ + a1_text(end_row, end_col)
}

pub fn range_name(start_row: usize, start_col: usize, end_row: usize, end_col: usize) -> (r: String)
    ensures
        r@ == range_text(start_row, start_col, end_row, end_col),
{
    let mut out = cell_name(start_row, start_col);
    out.append(":");
    out.append(&cell_name(end_row, end_col));
    out
}

proof fn lemma_letters_of_name(n: nat, s: Seq<char>)
    requires
        text::all_digits(s),
    ensures
        letters(col_name(n) + s) == col_name(n),
        digits(col_name(n) + s) == s,
    decreases s.len(),
{
    lemma_col_name_value(n);
    if s.len() == 0 {
        assert(col_name(n) + s == col_name(n));
        lemma_letters_only(col_name(n));
    } else {
        let t = col_name(n) + s;
        assert(t.drop_last() == col_name(n) + s.drop_last());
        assert(text::is_digit(s[s.len() - 1]));
        lemma_letters_of_name(n, s.drop_last());
        assert(s == s.drop_last().push(s.last()));
    }
}

proof fn lemma_letters_only(s: Seq<char>)
    requires
        all_letters(s),
    ensures
        letters(s) == s,
        digits(s) == Seq::<char>::empty(),
    decreases s.len(),
{
    if s.len() > 0 {
        assert(text::is_alpha(s[s.len() - 1]));
        assert forall|i: int| 0 <= i < s.drop_last().len() implies text::is_alpha(
            #[trigger] s.drop_last()[i],
        ) by {
            assert(text::is_alpha(s[i]));
        }
        lemma_letters_only(s.drop_last());
        assert(s == s.drop_last().push(s.last()));
    }
}

/// A number reads back from its decimal notation.
pub proof fn law_decimal_reads_back(n: nat, max: nat)
    requires
        n <= max,
    ensures
        text::parsed(text::decimal(n), max) == Some(n),
{
    lemma_decimal(n);
}

proof fn lemma_decimal(n: nat)
    ensures
        text::all_digits(text::decimal(n)),
        text::decimal(n).len() > 0,
        text::digits_value(text::decimal(n)) == n,
    decreases n,
{
    let s = text::decimal(n);
    if n < 10 {
        assert(s.drop_last() == Seq::<char>::empty());
        assert(text::digits_value(s.drop_last()) == 0);
    } else {
        lemma_decimal(n / 10);
        assert(s.drop_last() == text::decimal(n / 10));
        assert forall|i: int| 0 <= i < s.len() implies text::is_digit(#[trigger] s[i]) by {
            if i < s.len() - 1 {
                assert(s[i] == text::decimal(n / 10)[i]);
            }
        }
    }
}

pub proof fn lemma_decimal_plain(n: nat)
    ensures
        text::all_digits(text::decimal(n)),
        text::decimal(n).len() > 0,
{
    lemma_decimal(n);
}

pub proof fn lemma_col_name_plain(n: usize)
    ensures
        all_letters(col_name(n as nat)),
        n > 0 ==> col_name(n as nat).len() > 0,
{
    lemma_col_name_value(n as nat);
}

/// The name of a cell is made of letters and digits.
pub proof fn lemma_a1_plain(row: usize, col: usize)
    ensures
        a1_text(row, col).len() > 0,
        forall|i: int|
            0 <= i < a1_text(row, col).len() ==> text::is_alnum(#[trigger] a1_text(row, col)[i]),
{
    let name = col_name(col as nat);
    let number = text::decimal(row as nat);
    lemma_col_name_value(col as nat);
    lemma_decimal(row as nat);
    assert forall|i: int| 0 <= i < a1_text(row, col).len() implies text::is_alnum(
        #[trigger] a1_text(row, col)[i],
    ) by {
        if i < name.len() {
            assert(text::is_alpha(name[i]));
        } else {
            assert(text::is_digit(number[i - name.len()]));
        }
    }
}

/// A cell's A1 notation reads back as the cell's column and row.
pub proof fn law_a1_reads_back(row: usize, col: usize)
    ensures
        a1(a1_text(row, col)) == Some((col, row)),
{
    lemma_decimal(row as nat);
    lemma_letters_of_name(col as nat, text::decimal(row as nat));
    law_col_name_reads_back(col);
    law_decimal_reads_back(row as nat, usize::MAX as nat);
}

proof fn lemma_signs_add_up(a: Seq<char>, b: Seq<char>)
    ensures
        letters(a + b) == letters(a) + letters(b),
        digits(a + b) == digits(a) + digits(b),
    decreases b.len(),
{
    if b.len() == 0 {
        assert(a + b == a);
        assert(letters(a) + letters(b) == letters(a));
        assert(digits(a) + digits(b) == digits(a));
    } else {
        assert((a + b).drop_last() == a + b.drop_last());
        lemma_signs_add_up(a, b.drop_last());
        let c = b.last();
        assert(letters(a) + letters(b.drop_last()).push(c) == (letters(a) + letters(
            b.drop_last(),
        )).push(c));
        assert(digits(a) + digits(b.drop_last()).push(c) == (digits(a) + digits(
            b.drop_last(),
        )).push(c));
    }
}

proof fn lemma_digits_only(s: Seq<char>)
    requires
        text::all_digits(s),
    ensures
        letters(s) == Seq::<char>::empty(),
        digits(s) == s,
    decreases s.len(),
{
    if s.len() > 0 {
        assert(text::is_digit(s[s.len() - 1]));
        assert forall|i: int| 0 <= i < s.drop_last().len() implies text::is_digit(
            #[trigger] s.drop_last()[i],
        ) by {
            assert(text::is_digit(s[i]));
        }
        lemma_digits_only(s.drop_last());
        assert(s == s.drop_last().push(s.last()));
    }
}

/// Whether a text is the sign that pins a row or a column, or nothing.
pub open spec fn is_pin(t: Seq<char>) -> bool {
    t.len() == 0 || t == seq!['$']
}

/// A reference is read by its letters and digits, pinned or not.
pub proof fn lemma_a1_of_parts(a: Seq<char>, name: Seq<char>, b: Seq<char>, number: Seq<char>)
    requires
        is_pin(a) && is_pin(b),
        all_letters(name),
        text::all_digits(number),
    ensures
        a1(a + name + b + number) == match (col_number(name), text::parsed_size(number)) {
            (Some(col), Some(row)) => Some((col, row)),
            _ => None,
        },
{
    let none = Seq::<char>::empty();
    assert(letters(none) == none && digits(none) == none);
    assert(seq!['$'].drop_last() == none);
    assert(letters(seq!['$']) == none && digits(seq!['$']) == none);
    assert(a.len() == 0 ==> a == none);
    assert(b.len() == 0 ==> b == none);
    lemma_letters_only(name);
    lemma_digits_only(number);
    lemma_signs_add_up(a, name);
    lemma_signs_add_up(a + name, b);
    lemma_signs_add_up(a + name + b, number);
    assert(none + name + none + none == name);
    assert(none + none + none + number == number);
}

/// Whether the column and the row of a reference are pinned.
pub open spec fn pins(t: Seq<char>) -> (bool, bool) {
    (t.len() > 0 && t[0] == '$', exists|i: int| 1 <= i < t.len() && #[trigger] t[i] == '$')
}

pub proof fn lemma_pins_of_parts(a: Seq<char>, name: Seq<char>, b: Seq<char>, number: Seq<char>)
    requires
        is_pin(a) && is_pin(b),
        name.len() > 0,
        all_letters(name),
        text::all_digits(number),
    ensures
        pins(a + name + b + number) == (a.len() > 0, b.len() > 0),
{
    let t = a + name + b + number;
    let k = (a.len() + name.len()) as int;
    assert(text::is_alpha(name[0]));
    assert(t[0] == if a.len() > 0 {
        a[0]
    } else {
        name[0]
    });
    if b.len() > 0 {
        assert(t[k] == b[0]);
    }
    assert forall|i: int| 1 <= i < t.len() && #[trigger] t[i] == '$' implies b.len() > 0 by {
        if i < k {
            assert(t[i] == name[i - a.len()]);
            assert(text::is_alpha(name[i - a.len()]));
        } else if i >= k + b.len() {
            assert(t[i] == number[i - k - b.len()]);
            assert(text::is_digit(number[i - k - b.len()]));
        }
    }
}

// ----- Structure edits -----

#[derive(Clone, Copy, PartialEq, Eq, Structural)]
pub enum StructureAxis {
    Row,
    Col,
}

#[derive(Clone, Copy, PartialEq, Eq, Structural)]
pub enum StructureOpKind {
    Insert,
    Delete,
    Move,
}

/// Rows or columns `start` to `end` of a sheet are inserted, deleted, or moved so
/// that the first of them becomes `target`.
#[verifier::ext_equal]
pub struct StructureEdit<S = String> {
    pub sheet: S,
    pub axis: StructureAxis,
    pub kind: StructureOpKind,
    pub start: usize,
    pub end: usize,
    pub target: usize,
}

impl DeepView for StructureEdit<String> {
    type V = StructureEdit<Seq<char>>;

    open spec fn deep_view(&self) -> StructureEdit<Seq<char>> {
        StructureEdit {
            sheet: self.sheet@,
            axis: self.axis,
            kind: self.kind,
            start: self.start,
            end: self.end,
            target: self.target,
        }
    }
}

impl Clone for StructureEdit<String> {
    fn clone(&self) -> (r: Self)
        ensures
            r == *self,
    {
        StructureEdit {
            sheet: self.sheet.clone(),
            axis: self.axis,
            kind: self.kind,
            start: self.start,
            end: self.end,
            target: self.target,
        }
    }
}

impl<S> StructureEdit<S> {
    /// The lines of the edit are numbered from 1 and are at least one.
    pub open spec fn valid(self) -> bool {
        1 <= self.start <= self.end
    }

    pub open spec fn count(self) -> int {
        self.end - self.start + 1
    }
}

/// Where the edit takes line `coord`, counted without bound; `None` where it deletes
/// it.
pub open spec fn line_after<S>(coord: int, e: StructureEdit<S>) -> Option<int> {
    match e.kind {
        StructureOpKind::Insert => if coord >= e.start {
            Some(coord + e.count())
        } else {
            Some(coord)
        },
        StructureOpKind::Delete => if e.start <= coord <= e.end {
            None
        } else if coord > e.end {
            Some(coord - e.count())
        } else {
            Some(coord)
        },
        StructureOpKind::Move => if e.start <= coord <= e.end {
            Some(e.target + (coord - e.start))
        } else if e.target <= coord < e.start {
            Some(coord + e.count())
        } else if e.target > e.end && e.end < coord < e.target + e.count() {
            Some(coord - e.count())
        } else {
            Some(coord)
        },
    }
}

/// `line_after` where lines are machine words: a line pushed past the largest word is
/// gone.
pub open spec fn coord_after<S>(coord: usize, e: StructureEdit<S>) -> Option<usize> {
    match line_after(coord as int, e) {
        Some(c) => if 0 <= c <= usize::MAX {
            Some(c as usize)
        } else {
            None
        },
        None => None,
    }
}

pub fn transform_coord(coord: usize, edit: &StructureEdit) -> (r: Option<usize>)
    requires
        edit.valid(),
    ensures
        r == coord_after(coord, edit.deep_view()),
{
    let span: usize = edit.end - edit.start;
    match edit.kind {
        StructureOpKind::Insert => {
            if coord >= edit.start {
                shifted_up(coord, span)
            } else {
                Some(coord)
            }
        },
        StructureOpKind::Delete => {
            if edit.start <= coord && coord <= edit.end {
                None
            } else if coord > edit.end {
                Some(coord - span - 1)
            } else {
                Some(coord)
            }
        },
        StructureOpKind::Move => {
            if edit.start <= coord && coord <= edit.end {
                edit.target.checked_add(coord - edit.start)
            } else if edit.target <= coord && coord < edit.start {
                shifted_up(coord, span)
            } else if edit.target > edit.end && coord > edit.end && coord - span - 1 < edit.target {
                Some(coord - span - 1)
            } else {
                Some(coord)
            }
        },
    }
}

fn shifted_up(coord: usize, span: usize) -> (r: Option<usize>)
    ensures
        r == (if coord + span + 1 <= usize::MAX {
            Some((coord + span + 1) as usize)
        } else {
            None
        }),
{
    match coord.checked_add(span) {
        Some(c) => c.checked_add(1),
        None => None,
    }
}

/// Where the edit takes a cell: cells of other sheets stay.
pub open spec fn key_after(k: Key<Seq<char>>, e: StructureEdit<Seq<char>>) -> Option<
    Key<Seq<char>>,
> {
    if k.sheet != e.sheet {
        Some(k)
    } else {
        match e.axis {
            StructureAxis::Row => match coord_after(k.row, e) {
                Some(row) => Some(key(k.sheet, row, k.col)),
                None => None,
            },
            StructureAxis::Col => match coord_after(k.col, e) {
                Some(col) => Some(key(k.sheet, k.row, col)),
                None => None,
            },
        }
    }
}

pub fn transform_key(k: &Key, edit: &StructureEdit) -> (r: Option<Key>)
    requires
        edit.valid(),
    ensures
        r.deep_view() == key_after(k.deep_view(), edit.deep_view()),
{
    if k.sheet != edit.sheet {
        return Some(k.clone());
    }
    match edit.axis {
        StructureAxis::Row => match transform_coord(k.row, edit) {
            Some(row) => Some(Key { sheet: k.sheet.clone(), row, col: k.col }),
            None => None,
        },
        StructureAxis::Col => match transform_coord(k.col, edit) {
            Some(col) => Some(Key { sheet: k.sheet.clone(), row: k.row, col }),
            None => None,
        },
    }
}

/// Two cells that an edit leaves on the sheet never land on one cell. A move must have
/// its target outside the lines that it moves.
pub proof fn law_edit_keeps_cells_apart(
    a: Key<Seq<char>>,
    b: Key<Seq<char>>,
    e: StructureEdit<Seq<char>>,
)
    requires
        e.valid(),
        e.kind == StructureOpKind::Move ==> e.target < e.start || e.target > e.end,
        key_after(a, e) is Some,
        key_after(a, e) == key_after(b, e),
    ensures
        a == b,
{
}

/// Deleting the lines that an insertion made takes every line back.
pub proof fn law_delete_undoes_insert<S>(coord: int, insert: StructureEdit<S>)
    requires
        insert.valid(),
        insert.kind == StructureOpKind::Insert,
    ensures
        line_after(line_after(coord, insert).unwrap(), StructureEdit {
            kind: StructureOpKind::Delete,
            ..insert
        }) == Some(coord),
{
}

/// A move is taken back by moving the lines to where they were, where both moves have
/// their target outside the lines that they move.
pub proof fn law_move_is_undone<S>(coord: int, there: StructureEdit<S>, back: StructureEdit<S>)
    requires
        there.valid(),
        there.kind == StructureOpKind::Move,
        back.kind == StructureOpKind::Move,
        there.target < there.start || there.target > there.end,
        back.start == there.target,
        back.end == there.target + there.count() - 1,
        back.target == there.start,
        back.target < back.start || back.target > back.end,
    ensures
        line_after(line_after(coord, there).unwrap(), back) == Some(coord),
{
}

/// Whether a cell lies in the rectangle of two corners on its sheet.
pub open spec fn lies_between(k: Key<Seq<char>>, a: Key<Seq<char>>, b: Key<Seq<char>>) -> bool {
    &&& k.sheet == a.sheet && k.sheet == b.sheet
    &&& a.row <= k.row <= b.row || b.row <= k.row <= a.row
    &&& a.col <= k.col <= b.col || b.col <= k.col <= a.col
}

/// Where lines are inserted or deleted, a rectangle whose corners stay on the sheet goes on
/// covering every cell that it covered and that stays, and covers no cell that it did not
/// cover.
pub proof fn law_rectangles_go_on_covering(
    k: Key<Seq<char>>,
    a: Key<Seq<char>>,
    b: Key<Seq<char>>,
    e: StructureEdit<Seq<char>>,
)
    requires
        e.valid(),
        e.kind != StructureOpKind::Move,
        key_after(k, e) is Some,
        key_after(a, e) is Some,
        key_after(b, e) is Some,
    ensures
        lies_between(k, a, b) <==> lies_between(
            key_after(k, e)->Some_0,
            key_after(a, e)->Some_0,
            key_after(b, e)->Some_0,
        ),
{
}

/// An edit of lines leaves the other coordinate of a cell, the sheet, and the cells of other
/// sheets; an insertion keeps every line before it and moves the others on by as many lines as
/// it inserts; a deletion takes the lines behind it back by as many as it deletes.
pub proof fn law_lines_move_together(k: Key<Seq<char>>, e: StructureEdit<Seq<char>>)
    requires
        e.valid(),
    ensures
        k.sheet != e.sheet ==> key_after(k, e) == Some(k),
        key_after(k, e) matches Some(n) ==> n.sheet == k.sheet,
        k.sheet == e.sheet && e.axis == StructureAxis::Row ==> (key_after(k, e) matches Some(n)
            ==> n.col == k.col && coord_after(k.row, e) == Some(n.row)),
        k.sheet == e.sheet && e.axis == StructureAxis::Col ==> (key_after(k, e) matches Some(n)
            ==> n.row == k.row && coord_after(k.col, e) == Some(n.col)),
        forall|c: usize|
            e.kind == StructureOpKind::Insert && c < e.start ==> #[trigger] coord_after(c, e)
                == Some(c),
        forall|c: usize|
            e.kind == StructureOpKind::Insert && c >= e.start ==> (#[trigger] coord_after(
                c,
                e,
            ) matches Some(n) ==> n - c == e.end - e.start + 1),
        forall|c: usize|
            e.kind == StructureOpKind::Delete && c < e.start ==> #[trigger] coord_after(c, e)
                == Some(c),
        forall|c: usize|
            e.kind == StructureOpKind::Delete && e.start <= c <= e.end ==> #[trigger] coord_after(
                c,
                e,
            ) is None,
        forall|c: usize|
            e.kind == StructureOpKind::Delete && c > e.end ==> (#[trigger] coord_after(
                c,
                e,
            ) matches Some(n) && c - n == e.end - e.start + 1),
        forall|c: usize|
            e.kind == StructureOpKind::Move && e.start <= c <= e.end ==> (#[trigger] coord_after(
                c,
                e,
            ) matches Some(n) ==> n - e.target == c - e.start),
{
}

// ----- Refused requests -----

/// Why a request is refused: a value the caller gave, or a failure of the run.
#[verifier::ext_equal]
pub enum ShadowError<S = String> {
    Value(S),
    Runtime(S),
}

impl DeepView for ShadowError<String> {
    type V = ShadowError<Seq<char>>;

    open spec fn deep_view(&self) -> ShadowError<Seq<char>> {
        match self {
            ShadowError::Value(m) => ShadowError::Value(m@),
            ShadowError::Runtime(m) => ShadowError::Runtime(m@),
        }
    }
}

impl ShadowError<String> {
    /// The message that goes with the error.
    pub fn message(&self) -> (r: String)
        ensures
            self.deep_view() == ShadowError::Value(r@) || self.deep_view()
                == ShadowError::Runtime(r@),
    {
        match self {
            ShadowError::Value(m) => m.clone(),
            ShadowError::Runtime(m) => m.clone(),
        }
    }
}

impl Clone for ShadowError<String> {
    fn clone(&self) -> (r: Self)
        ensures
            r == *self,
    {
        match self {
            ShadowError::Value(m) => ShadowError::Value(m.clone()),
            ShadowError::Runtime(m) => ShadowError::Runtime(m.clone()),
        }
    }
}

pub open spec fn value_error(m: Seq<char>) -> ShadowError<Seq<char>> {
    ShadowError::Value(m)
}

pub fn refuse(m: &str) -> (r: ShadowError)
    ensures
        r.deep_view() == value_error(m@),
{
    ShadowError::Value(m.to_owned())
}

/// What a call gives: its value, or the error by which it is refused.
pub open spec fn outcome<T: DeepView>(r: Result<T, ShadowError>) -> Result<
    T::V,
    ShadowError<Seq<char>>,
> {
    match r {
        Ok(t) => Ok(t.deep_view()),
        Err(e) => Err(e.deep_view()),
    }
}

/// The last of `count` lines from `start` on.
pub open spec fn range_end(start: usize, count: usize) -> Result<usize, ShadowError<Seq<char>>> {
    if start == 0 || count == 0 {
        Err(value_error("unsafe_update: start and count must be positive"@))
    } else if start + count - 1 > usize::MAX {
        Err(value_error("unsafe_update: range overflows usize"@))
    } else {
        Ok((start + count - 1) as usize)
    }
}

pub fn checked_range_end(start: usize, count: usize) -> (r: Result<usize, ShadowError>)
    ensures
        outcome(r) == range_end(start, count),
{
    if start == 0 || count == 0 {
        return Err(refuse("unsafe_update: start and count must be positive"));
    }
    match start.checked_add(count - 1) {
        Some(end) => Ok(end),
        None => Err(refuse("unsafe_update: range overflows usize")),
    }
}

} // verus!
