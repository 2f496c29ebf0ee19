//! The SQL that goes with a workbook: names of tables, quoting, views and triggers, and which
//! statements are let through.

use crate::coord;
use crate::coord::ShadowError;
use crate::diagnostics::{Fields, FieldsModel};
use crate::entries;
use crate::package::{Fallible, SheetsModel};
use crate::records::SheetInfo;
use crate::text;
use vstd::prelude::*;
use vstd::string::*;

verus! {

// ----- Quoting -----

/// A text with every `c` twice.
pub open spec fn doubled(s: Seq<char>, c: char) -> Seq<char>
    decreases s.len(),
{
    if s.len() == 0 {
        s
    } else if s.last() == c {
        doubled(s.drop_last(), c).push(c).push(c)
    } else {
        doubled(s.drop_last(), c).push(s.last())
    }
}

/// A text between two `c`, every `c` in it twice.
pub open spec fn quoted(s: Seq<char>, c: char) -> Seq<char> {
    seq![c] + doubled(s, c) + seq![c]
}

fn quote(s: &str, c: char) -> (r: String)
    ensures
        r@ == quoted(s@, c),
{
    let chars = text::chars_of(s);
    let ghost all = chars@;
    let mut out: Vec<char> = Vec::new();
    out.push(c);
    let mut i: usize = 0;
    assert(out@ == seq![c] + doubled(all.take(0), c));
    while i < chars.len()
        invariant
            i <= chars.len(),
            all == chars@,
            out@ == seq![c] + doubled(all.take(i as int), c),
        decreases chars.len() - i,
    {
        assert(all.take(i + 1).drop_last() == all.take(i as int));
        let ghost done = out@;
        if chars[i] == c {
            out.push(c);
            out.push(c);
            assert(out@ == seq![c] + doubled(all.take(i as int), c).push(c).push(c));
        } else {
            out.push(chars[i]);
            assert(out@ == seq![c] + doubled(all.take(i as int), c).push(all[i as int]));
        }
        i = i + 1;
    }
    assert(all.take(all.len() as int) == all);
    out.push(c);
    assert(out@ == seq![c] + doubled(all, c) + seq![c]);
    text::text_of(&out)
}

pub fn sqlite_quote_ident(identifier: &str) -> (r: String)
    ensures
        r@ == quoted(identifier@, '"'),
{
    quote(identifier, '"')
}

pub fn sqlite_quote_literal(value: &str) -> (r: String)
    ensures
        r@ == quoted(value@, '\''),
{
    quote(value, '\'')
}

/// The text that stands between quotes, every pair of quotes taken for one.
pub open spec fn undoubled(s: Seq<char>, c: char) -> Option<Seq<char>>
    decreases s.len(),
{
    if s.len() == 0 {
        Some(s)
    } else if s.last() != c {
        match undoubled(s.drop_last(), c) {
            Some(t) => Some(t.push(s.last())),
            None => None,
        }
    } else if s.len() >= 2 && s[s.len() - 2] == c {
        match undoubled(s.take(s.len() - 2), c) {
            Some(t) => Some(t.push(c)),
            None => None,
        }
    } else {
        None
    }
}

/// A quoted text reads back, so that no text ends its own quotes.
pub proof fn law_quoted_text_reads_back(s: Seq<char>, c: char)
    ensures
        undoubled(doubled(s, c), c) == Some(s),
    decreases s.len(),
{
    if s.len() > 0 {
        law_quoted_text_reads_back(s.drop_last(), c);
        let d = doubled(s.drop_last(), c);
        assert(s.drop_last().push(s.last()) == s);
        if s.last() == c {
            assert(d.push(c).push(c).take(d.len() as int) == d);
        } else {
            assert(d.push(s.last()).drop_last() == d);
        }
    }
}

// ----- Tables -----

/// The name of the table of a sheet, other sheets aside.
pub open spec fn table_base(sheet: Seq<char>) -> Seq<char> {
    if sheet.len() == 0 {
        "sheet_"@ + "unnamed"@
    } else {
        "sheet_"@ + Seq::new(
            sheet.len(),
            |i: int|
                if text::is_alnum(sheet[i]) {
                    sheet[i]
                } else {
                    '_'
                },
        )
    }
}

pub fn sqlite_table_name(sheet_name: &str) -> (r: String)
    ensures
        r@ == table_base(sheet_name@),
{
    let chars = text::chars_of(sheet_name);
    let mut r = "sheet_".to_owned();
    if chars.len() == 0 {
        r.append("unnamed");
        return r;
    }
    let mut out: Vec<char> = Vec::new();
    let mut i: usize = 0;
    while i < chars.len()
        invariant
            i <= chars.len(),
            out@.len() == i,
            forall|k: int|
                0 <= k < i ==> #[trigger] out@[k] == (if text::is_alnum(chars@[k]) {
                    chars@[k]
                } else {
                    '_'
                }),
        decreases chars.len() - i,
    {
        out.push(
            if text::alnum(chars[i]) {
                chars[i]
            } else {
                '_'
            },
        );
        i = i + 1;
    }
    let tail = text::text_of(&out);
    r.append(&tail);
    assert(r@ == table_base(sheet_name@));
    r
}

/// How many of the first `n` sheets have a table name with the given base.
pub open spec fn uses_of_base(sheets: SheetsModel, base: Seq<char>, n: int) -> nat
    decreases n,
{
    if n <= 0 {
        0
    } else if table_base(sheets[n - 1].name) == base {
        uses_of_base(sheets, base, n - 1) + 1
    } else {
        uses_of_base(sheets, base, n - 1)
    }
}

/// The name of the table of a sheet: a second and further use of a base is numbered.
pub open spec fn table_name(sheets: SheetsModel, i: int) -> Seq<char> {
    let base = table_base(sheets[i].name);
    let before = uses_of_base(sheets, base, i);
    if before == 0 {
        base
    } else {
        base + "_"@ + text::decimal(before + 1)
    }
}

/// The table of each of the first `n` sheets.
pub open spec fn tables_of(sheets: SheetsModel, n: int) -> FieldsModel
    decreases n,
{
    if n <= 0 {
        Seq::empty()
    } else {
        entries::put(tables_of(sheets, n - 1), sheets[n - 1].name, table_name(sheets, n - 1))
    }
}

fn name_table(sheets: &Vec<SheetInfo>, i: usize) -> (r: String)
    requires
        i < sheets.len(),
    ensures
        r@ == table_name(sheets.deep_view(), i as int),
{
    let ghost all = sheets.deep_view();
    assert(all[i as int] == sheets@[i as int].deep_view());
    let base = sqlite_table_name(&sheets[i].name);
    let mut before: usize = 0;
    let mut k: usize = 0;
    while k < i
        invariant
            k <= i,
            i < sheets.len(),
            all == sheets.deep_view(),
            before == uses_of_base(all, base@, k as int),
            before <= k,
        decreases i - k,
    {
        assert(all[k as int] == sheets@[k as int].deep_view());
        if text::same(&sqlite_table_name(&sheets[k].name), &base) {
            before = before + 1;
        }
        k = k + 1;
    }
    if before == 0 {
        return base;
    }
    let mut out = base;
    out.append("_");
    out.append(&text::size_text(before + 1));
    out
}

pub fn sheet_table_map(sheets: &Vec<SheetInfo>) -> (r: Fields)
    ensures
        r.deep_view() == tables_of(sheets.deep_view(), sheets.deep_view().len() as int),
{
    let ghost all = sheets.deep_view();
    let mut out: Fields = Vec::new();
    assert(out.deep_view() == FieldsModel::empty());
    let mut i: usize = 0;
    while i < sheets.len()
        invariant
            i <= sheets.len(),
            all == sheets.deep_view(),
            out.deep_view() == tables_of(all, i as int),
        decreases sheets.len() - i,
    {
        assert(all[i as int] == sheets@[i as int].deep_view());
        entries::map_put(&mut out, sheets[i].name.clone(), name_table(sheets, i));
        i = i + 1;
    }
    out
}

proof fn lemma_uses_grow(sheets: SheetsModel, base: Seq<char>, i: int, j: int)
    requires
        0 <= i < j,
        table_base(sheets[i].name) == base,
    ensures
        uses_of_base(sheets, base, i) < uses_of_base(sheets, base, j),
    decreases j,
{
    if i < j - 1 {
        lemma_uses_grow(sheets, base, i, j - 1);
    }
}

/// Sheets whose names make for the same table name get different tables.
pub proof fn law_alike_sheets_have_their_own_tables(sheets: SheetsModel, i: int, j: int)
    requires
        0 <= i < j < sheets.len(),
        table_base(sheets[i].name) == table_base(sheets[j].name),
    ensures
        table_name(sheets, i) != table_name(sheets, j),
{
    let base = table_base(sheets[i].name);
    let a = uses_of_base(sheets, base, i);
    let b = uses_of_base(sheets, base, j);
    lemma_uses_grow(sheets, base, i, j);
    let tail = base + "_"@ + text::decimal(b + 1);
    reveal_strlit("_");
    if a == 0 {
        assert(tail.len() > base.len());
    } else {
        let other = base + "_"@ + text::decimal(a + 1);
        coord::law_decimal_reads_back(a + 1, a + b + 2);
        coord::law_decimal_reads_back(b + 1, a + b + 2);
        assert(text::decimal(a + 1) != text::decimal(b + 1));
        let at = base.len() as int + 1;
        assert(other.skip(at) == text::decimal(a + 1));
        assert(tail.skip(at) == text::decimal(b + 1));
    }
}

/// Every sheet has a table.
pub proof fn law_every_sheet_has_a_table(sheets: SheetsModel, i: int)
    requires
        0 <= i < sheets.len(),
    ensures
        entries::get(tables_of(sheets, sheets.len() as int), sheets[i].name) is Some,
{
    lemma_table_there(sheets, i, sheets.len() as int);
}

proof fn lemma_table_there(sheets: SheetsModel, i: int, n: int)
    requires
        0 <= i < n,
    ensures
        entries::get(tables_of(sheets, n), sheets[i].name) is Some,
    decreases n,
{
    entries::law_get_after_put(
        tables_of(sheets, n - 1),
        sheets[n - 1].name,
        table_name(sheets, n - 1),
        sheets[i].name,
    );
    if i < n - 1 {
        lemma_table_there(sheets, i, n - 1);
    }
}

// ----- Statements that are let through -----

/// What a statement of the user is for.
#[derive(Clone, Copy, PartialEq, Eq, Structural)]
pub enum Access {
    Query,
    StoreQuery,
    Update,
    StoreUpdate,
}

pub open spec fn verb(a: Access) -> Seq<char> {
    match a {
        Access::Query | Access::StoreQuery => "SELECT "@,
        Access::Update | Access::StoreUpdate => "UPDATE "@,
    }
}

pub open spec fn verb_error(a: Access) -> Seq<char> {
    match a {
        Access::Query => "sqlite_query only accepts SELECT statements"@,
        Access::StoreQuery => "sqlite_store_query only accepts SELECT statements"@,
        Access::Update => "sqlite_update only accepts UPDATE statements"@,
        Access::StoreUpdate => "unsafe_update: sqlite_store_update only accepts UPDATE statements"@,
    }
}

pub open spec fn statement_allowed(a: Access, sql: Seq<char>) -> Fallible<()> {
    if text::starts(text::upper(text::trim_start(sql)), verb(a)) {
        Ok(())
    } else {
        Err(coord::value_error(verb_error(a)))
    }
}

/// Whether a statement begins with the verb that it must begin with.
pub fn check_statement(a: Access, sql: &str) -> (r: Result<(), ShadowError>)
    ensures
        coord::outcome(r) == statement_allowed(a, sql@),
{
    let start = text::to_upper(&text::trimmed_start(sql));
    let (word, message) = match a {
        Access::Query => ("SELECT ", "sqlite_query only accepts SELECT statements"),
        Access::StoreQuery => ("SELECT ", "sqlite_store_query only accepts SELECT statements"),
        Access::Update => ("UPDATE ", "sqlite_update only accepts UPDATE statements"),
        Access::StoreUpdate => (
            "UPDATE ",
            "unsafe_update: sqlite_store_update only accepts UPDATE statements",
        ),
    };
    if text::starts_with(&start, word) {
        Ok(())
    } else {
        Err(coord::refuse(message))
    }
}

// ----- Views, triggers and virtual tables -----

/// The column of a view for the cells of a column of the sheet.
pub open spec fn view_column(col: nat) -> Seq<char> {
    "COALESCE(MAX(CASE WHEN col_idx = "@ + text::decimal(col) + " THEN value END), '') AS "@
        + quoted(coord::col_name(col), '"')
}

pub open spec fn view_columns(n: nat) -> Seq<Seq<char>>
    decreases n,
{
    if n == 0 {
        seq!["row_idx AS row_id"@]
    } else {
        view_columns((n - 1) as nat).push(view_column(n))
    }
}

pub open spec fn view_text(table: Seq<char>, sheet: Seq<char>, cols: nat) -> Seq<char> {
    "CREATE VIEW "@ + quoted(table, '"') + " AS SELECT "@ + text::joined(
        view_columns(cols),
        ", "@,
    ) + " FROM ss_cell_snapshot WHERE workbook_id = 1 AND sheet = "@ + quoted(sheet, '\'')
        + " GROUP BY row_idx"@
}

/// The view that shows a sheet as a table.
pub fn view_statement(table_name: &str, sheet_name: &str, cols: usize) -> (r: String)
    ensures
        r@ == view_text(table_name@, sheet_name@, cols as nat),
{
    let mut columns: Vec<String> = vec!["row_idx AS row_id".to_owned()];
    assert(columns.deep_view() == view_columns(0));
    let mut col: usize = 0;
    while col < cols
        invariant
            col <= cols,
            columns.deep_view() == view_columns(col as nat),
        decreases cols - col,
    {
        col = col + 1;
        let mut c = "COALESCE(MAX(CASE WHEN col_idx = ".to_owned();
        c.append(&text::size_text(col));
        c.append(" THEN value END), '') AS ");
        c.append(&sqlite_quote_ident(&coord::col_to_name(col)));
        let ghost done = columns.deep_view();
        columns.push(c);
        assert(columns.deep_view() == done.push(c@));
    }
    let mut out = "CREATE VIEW ".to_owned();
    out.append(&sqlite_quote_ident(table_name));
    out.append(" AS SELECT ");
    out.append(&text::join(&columns, ", "));
    out.append(" FROM ss_cell_snapshot WHERE workbook_id = 1 AND sheet = ");
    out.append(&sqlite_quote_literal(sheet_name));
    out.append(" GROUP BY row_idx");
    out
}

pub open spec fn drop_view_text(table: Seq<char>) -> Seq<char> {
    "DROP VIEW IF EXISTS "@ + quoted(table, '"')
}

pub fn drop_view_statement(table_name: &str) -> (r: String)
    ensures
        r@ == drop_view_text(table_name@),
{
    let mut out = "DROP VIEW IF EXISTS ".to_owned();
    out.append(&sqlite_quote_ident(table_name));
    out
}

pub open spec fn drop_trigger_text(name: Seq<char>) -> Seq<char> {
    "DROP TRIGGER IF EXISTS "@ + quoted(name, '"')
}

pub fn drop_trigger_statement(name: &str) -> (r: String)
    ensures
        r@ == drop_trigger_text(name@),
{
    let mut out = "DROP TRIGGER IF EXISTS ".to_owned();
    out.append(&sqlite_quote_ident(name));
    out
}

/// The part of a trigger that notes a change of one column.
pub open spec fn noting(sheet: Seq<char>, col: nat) -> Seq<char> {
    let name = quoted(coord::col_name(col), '"');
    "INSERT INTO ss_pending_store_update(sheet, row_idx, col_idx, value) SELECT "@ + quoted(
        sheet,
        '\'',
    ) + ", OLD.row_id, "@ + text::decimal(col) + ", COALESCE(NEW."@ + name
        + ", '') WHERE COALESCE(OLD."@ + name + ", '') IS NOT COALESCE(NEW."@ + name + ", '')"@
}

pub open spec fn trigger_parts(sheet: Seq<char>, n: nat) -> Seq<Seq<char>>
    decreases n,
{
    if n == 0 {
        seq![
            "SELECT CASE WHEN NEW.row_id IS NOT OLD.row_id THEN RAISE(ABORT, 'unsafe_update: store-backed SQLite update does not allow row_id changes') END"@,
        ]
    } else {
        trigger_parts(sheet, (n - 1) as nat).push(noting(sheet, n))
    }
}

pub open spec fn trigger_text(table: Seq<char>, sheet: Seq<char>, cols: nat) -> Seq<char> {
    "CREATE TEMP TRIGGER "@ + quoted("ss_store_update_"@ + table, '"') + " INSTEAD OF UPDATE ON "@
        + quoted(table, '"') + " BEGIN "@ + text::joined(trigger_parts(sheet, cols), "; "@)
        + "; END"@
}

fn noting_statement(sheet_name: &str, col: usize) -> (r: String)
    ensures
        r@ == noting(sheet_name@, col as nat),
{
    let name = sqlite_quote_ident(&coord::col_to_name(col));
    let mut c =
        "INSERT INTO ss_pending_store_update(sheet, row_idx, col_idx, value) SELECT ".to_owned();
    c.append(&sqlite_quote_literal(sheet_name));
    c.append(", OLD.row_id, ");
    c.append(&text::size_text(col));
    c.append(", COALESCE(NEW.");
    c.append(&name);
    c.append(", '') WHERE COALESCE(OLD.");
    c.append(&name);
    c.append(", '') IS NOT COALESCE(NEW.");
    c.append(&name);
    c.append(", '')");
    c
}

pub open spec fn trigger_for(table: Seq<char>, sheet: Seq<char>, max_col: i64) -> Fallible<
    Seq<char>,
> {
    if table.len() == 0 {
        Err(coord::value_error("store_schema_error: missing sheet view table_name"@))
    } else {
        Ok(
            trigger_text(
                table,
                sheet,
                if max_col < 1 {
                    1
                } else {
                    (max_col as usize) as nat
                },
            ),
        )
    }
}

/// The trigger that notes the changes made to the view of a sheet.
pub fn trigger_statement(table_name: &str, sheet_name: &str, max_col: i64) -> (r: Result<
    String,
    ShadowError,
>)
    ensures
        coord::outcome(r) == trigger_for(table_name@, sheet_name@, max_col),
{
    if table_name.is_empty() {
        return Err(coord::refuse("store_schema_error: missing sheet view table_name"));
    }
    let cols: usize = if max_col < 1 {
        1
    } else {
        max_col as usize
    };
    let mut parts: Vec<String> = vec![
        "SELECT CASE WHEN NEW.row_id IS NOT OLD.row_id THEN RAISE(ABORT, 'unsafe_update: store-backed SQLite update does not allow row_id changes') END".to_owned(),
    ];
    assert(parts.deep_view() == trigger_parts(sheet_name@, 0));
    let mut col: usize = 0;
    while col < cols
        invariant
            col <= cols,
            parts.deep_view() == trigger_parts(sheet_name@, col as nat),
        decreases cols - col,
    {
        col = col + 1;
        let c = noting_statement(sheet_name, col);
        let ghost done = parts.deep_view();
        parts.push(c);
        assert(parts.deep_view() == done.push(c@));
    }
    let mut name = "ss_store_update_".to_owned();
    name.append(table_name);
    let mut out = "CREATE TEMP TRIGGER ".to_owned();
    out.append(&sqlite_quote_ident(&name));
    out.append(" INSTEAD OF UPDATE ON ");
    out.append(&sqlite_quote_ident(table_name));
    out.append(" BEGIN ");
    out.append(&text::join(&parts, "; "));
    out.append("; END");
    Ok(out)
}

pub open spec fn virtual_table_text(table: Seq<char>, module: Seq<char>) -> Seq<char> {
    "CREATE VIRTUAL TABLE "@ + quoted(table, '"') + " USING "@ + quoted(module, '"')
}

/// The name of the module behind the virtual table of a sheet.
pub open spec fn module_name(table: Seq<char>) -> Seq<char> {
    "shadow_rows_"@ + table
}

pub fn module_name_of(table_name: &str) -> (r: String)
    ensures
        r@ == module_name(table_name@),
{
    let mut out = "shadow_rows_".to_owned();
    out.append(table_name);
    out
}

pub fn virtual_table_statement(table_name: &str) -> (r: String)
    ensures
        r@ == virtual_table_text(table_name@, module_name(table_name@)),
{
    let mut out = "CREATE VIRTUAL TABLE ".to_owned();
    out.append(&sqlite_quote_ident(table_name));
    out.append(" USING ");
    out.append(&sqlite_quote_ident(&module_name_of(table_name)));
    out
}

pub open spec fn count_text(table: Seq<char>) -> Seq<char> {
    "SELECT COUNT(*) FROM "@ + quoted(table, '"')
}

pub fn count_statement(table: &str) -> (r: String)
    ensures
        r@ == count_text(table@),
{
    let mut out = "SELECT COUNT(*) FROM ".to_owned();
    out.append(&sqlite_quote_ident(table));
    out
}

pub open spec fn table_info_text(table: Seq<char>) -> Seq<char> {
    "PRAGMA table_info("@ + quoted(table, '"') + ")"@
}

pub fn table_info_statement(table: &str) -> (r: String)
    ensures
        r@ == table_info_text(table@),
{
    let mut out = "PRAGMA table_info(".to_owned();
    out.append(&sqlite_quote_ident(table));
    out.append(")");
    out
}

/// The statement that adds a column, where the table has none of that name.
pub open spec fn column_added(
    columns: Seq<Seq<char>>,
    table: Seq<char>,
    column: Seq<char>,
    definition: Seq<char>,
) -> Option<Seq<char>> {
    if columns.contains(column) {
        None
    } else {
        Some(
            "ALTER TABLE "@ + quoted(table, '"') + " ADD COLUMN "@ + quoted(column, '"') + " "@
                + definition,
        )
    }
}

pub fn ensure_column(columns: &Vec<String>, table: &str, column: &str, definition: &str) -> (r: Option<
    String,
>)
    ensures
        r.deep_view() == column_added(columns.deep_view(), table@, column@, definition@),
{
    if entries::list_has(columns, column) {
        return None;
    }
    let mut out = "ALTER TABLE ".to_owned();
    out.append(&sqlite_quote_ident(table));
    out.append(" ADD COLUMN ");
    out.append(&sqlite_quote_ident(column));
    out.append(" ");
    out.append(definition);
    Some(out)
}

} // verus!
