use rusqlite::types::Value;
use rusqlite::{params_from_iter, Connection};
use sheet_shadow_core::cells::FormulaCell;
use sheet_shadow_core::coord::{key_of, ShadowError};
use sheet_shadow_core::diagnostics::Fields;
use sheet_shadow_core::engine::SheetShadowEngine;
use sheet_shadow_core::eval::Outcome;
use sheet_shadow_core::recalc::Bounds;
use sheet_shadow_core::records::{PendingSqliteUpdate, SheetInfo};
use sheet_shadow_core::sqltext::{
    check_statement, count_statement, drop_trigger_statement, drop_view_statement, ensure_column,
    sheet_table_map, sqlite_quote_ident, sqlite_quote_literal, sqlite_table_name,
    table_info_statement, trigger_statement, view_statement, virtual_table_statement, Access,
};
use sheet_shadow_core::store::{
    check_store_path, ensure_store_schema_readable, graph_cell_id, graph_sheet_id, read_row,
    sheet_bounds, sqlite_store_status, sqlite_value_to_string, store_table_list,
    store_update_refusal, RowError, SqlValue, Statement, StoredValue,
};

const TABLES: &str = "
    CREATE TABLE ss_migration(version INTEGER PRIMARY KEY, name TEXT NOT NULL);
    CREATE TABLE ss_workbook(id INTEGER PRIMARY KEY, source_path TEXT NOT NULL, sheet_count INTEGER NOT NULL, cell_count INTEGER NOT NULL, formula_count INTEGER NOT NULL);
    CREATE TABLE ss_session(id TEXT PRIMARY KEY, workbook_id INTEGER NOT NULL, state TEXT NOT NULL, modified_count INTEGER NOT NULL, dirty_count INTEGER NOT NULL);
    CREATE TABLE ss_sheet(workbook_id INTEGER NOT NULL, sheet_index INTEGER NOT NULL, name TEXT NOT NULL, path TEXT NOT NULL, table_name TEXT NOT NULL DEFAULT '', PRIMARY KEY(workbook_id, name));
    CREATE TABLE ss_cell_snapshot(workbook_id INTEGER NOT NULL, sheet TEXT NOT NULL, row_idx INTEGER NOT NULL, col_idx INTEGER NOT NULL, value TEXT NOT NULL, is_formula INTEGER NOT NULL, PRIMARY KEY(workbook_id, sheet, row_idx, col_idx));
    CREATE TABLE ss_shadow_meta(workbook_id INTEGER NOT NULL, sheet TEXT NOT NULL, row_idx INTEGER NOT NULL, col_idx INTEGER NOT NULL, cell_type TEXT NOT NULL, style_id INTEGER, number_format TEXT NOT NULL, original_formula TEXT NOT NULL, cached_value_before TEXT NOT NULL, cached_value_after TEXT NOT NULL, merge_range TEXT NOT NULL, is_modified INTEGER NOT NULL, is_dirty INTEGER NOT NULL, PRIMARY KEY(workbook_id, sheet, row_idx, col_idx));
    CREATE TABLE ss_audit_event(id INTEGER PRIMARY KEY, workbook_id INTEGER NOT NULL, event_type TEXT NOT NULL, sheet TEXT NOT NULL, row_idx INTEGER NOT NULL, col_idx INTEGER NOT NULL, old_value TEXT NOT NULL, new_value TEXT NOT NULL, formula TEXT NOT NULL, reason TEXT NOT NULL);
    CREATE TABLE ss_formula_edge(workbook_id INTEGER NOT NULL, formula_sheet TEXT NOT NULL, formula_row INTEGER NOT NULL, formula_col INTEGER NOT NULL, precedent_sheet TEXT NOT NULL, precedent_row INTEGER NOT NULL, precedent_col INTEGER NOT NULL);
    CREATE TABLE ss_graph_node(namespace TEXT NOT NULL, node_id TEXT NOT NULL, label TEXT NOT NULL, PRIMARY KEY(namespace, node_id));
    CREATE TABLE ss_graph_edge(src_namespace TEXT NOT NULL, src_id TEXT NOT NULL, dst_namespace TEXT NOT NULL, dst_id TEXT NOT NULL, kind TEXT NOT NULL);
    CREATE TEMP TABLE ss_pending_store_update(sheet TEXT NOT NULL, row_idx INTEGER NOT NULL, col_idx INTEGER NOT NULL, value TEXT NOT NULL);
";

fn sheet(name: &str) -> SheetInfo {
    SheetInfo {
        name: name.to_string(),
        path: format!("xl/worksheets/{name}.xml"),
        sheet_id: String::new(),
        rel_id: String::new(),
        visibility: "visible".to_string(),
    }
}

fn shadow() -> SheetShadowEngine {
    let mut engine = SheetShadowEngine::new();
    engine.sheets = vec![sheet("It's"), sheet("a b"), sheet("a_b")];
    engine.cells = vec![
        (key_of("It's", 2, 3), "c2".to_string()),
        (key_of("It's", 1, 1), "a1".to_string()),
        (key_of("a b", 1, 1), "x".to_string()),
    ];
    engine
}

fn text(value: &str) -> StoredValue {
    StoredValue::Text(value.to_string())
}

fn get(item: &Fields, name: &str) -> String {
    item.iter().find(|(key, _)| key == name).map(|(_, value)| value.clone()).unwrap()
}

fn message<T>(r: Result<T, ShadowError>) -> String {
    match r {
        Ok(_) => panic!("not refused"),
        Err(e) => e.message(),
    }
}

fn run(db: &Connection, steps: &[Statement]) {
    for step in steps {
        let params: Vec<Value> = step
            .params
            .iter()
            .map(|p| match p {
                SqlValue::Null => Value::Null,
                SqlValue::Integer(n) => Value::Integer(*n),
                SqlValue::Text(t) => Value::Text(t.clone()),
            })
            .collect();
        if let Err(e) = db.execute(&step.sql, params_from_iter(params)) {
            panic!("{e}: {}", step.sql);
        }
    }
}

fn one(db: &Connection, sql: &str) -> String {
    let value: Value = db.query_row(sql, [], |row| row.get(0)).unwrap();
    match value {
        Value::Text(t) => t,
        Value::Integer(n) => n.to_string(),
        other => format!("{other:?}"),
    }
}

#[test]
fn quoting() {
    assert_eq!(sqlite_quote_ident("plain"), "\"plain\"");
    assert_eq!(sqlite_quote_ident("a\"b"), "\"a\"\"b\"");
    assert_eq!(sqlite_quote_literal("it's"), "'it''s'");
    assert_eq!(sqlite_quote_literal(""), "''");
    let db = Connection::open_in_memory().unwrap();
    let odd = "'' \" ' ; --";
    assert_eq!(one(&db, &format!("SELECT {}", sqlite_quote_literal(odd))), odd);
}

#[test]
fn table_names_of_sheets() {
    assert_eq!(sqlite_table_name("My Sheet-1"), "sheet_My_Sheet_1");
    assert_eq!(sqlite_table_name(""), "sheet_unnamed");
    let map = sheet_table_map(&vec![sheet("a b"), sheet("a_b"), sheet("a-b"), sheet("c")]);
    assert_eq!(get(&map, "a b"), "sheet_a_b");
    assert_eq!(get(&map, "a_b"), "sheet_a_b_2");
    assert_eq!(get(&map, "a-b"), "sheet_a_b_3");
    assert_eq!(get(&map, "c"), "sheet_c");
}

#[test]
fn statements_let_through() {
    assert!(check_statement(Access::Query, "  select * from x").is_ok());
    assert!(check_statement(Access::Update, "Update x set a = 1").is_ok());
    assert_eq!(
        message(check_statement(Access::Query, "DELETE FROM x")),
        "sqlite_query only accepts SELECT statements"
    );
    assert_eq!(
        message(check_statement(Access::StoreQuery, "")),
        "sqlite_store_query only accepts SELECT statements"
    );
    assert_eq!(
        message(check_statement(Access::Update, "SELECT 1")),
        "sqlite_update only accepts UPDATE statements"
    );
    assert_eq!(
        message(check_statement(Access::StoreUpdate, "SELECT 1")),
        "unsafe_update: sqlite_store_update only accepts UPDATE statements"
    );
}

#[test]
fn statement_texts() {
    assert_eq!(
        view_statement("sheet_a", "a", 1),
        "CREATE VIEW \"sheet_a\" AS SELECT row_idx AS row_id, COALESCE(MAX(CASE WHEN col_idx = 1 THEN value END), '') AS \"A\" FROM ss_cell_snapshot WHERE workbook_id = 1 AND sheet = 'a' GROUP BY row_idx"
    );
    assert_eq!(drop_view_statement("v"), "DROP VIEW IF EXISTS \"v\"");
    assert_eq!(drop_trigger_statement("t"), "DROP TRIGGER IF EXISTS \"t\"");
    assert_eq!(virtual_table_statement("t"), "CREATE VIRTUAL TABLE \"t\" USING \"shadow_rows_t\"");
    assert_eq!(count_statement("t"), "SELECT COUNT(*) FROM \"t\"");
    assert_eq!(table_info_statement("t"), "PRAGMA table_info(\"t\")");
    let there = vec!["name".to_string()];
    assert_eq!(ensure_column(&there, "t", "name", "TEXT"), None);
    assert_eq!(
        ensure_column(&there, "t", "kind", "TEXT NOT NULL DEFAULT ''"),
        Some("ALTER TABLE \"t\" ADD COLUMN \"kind\" TEXT NOT NULL DEFAULT ''".to_string())
    );
    assert_eq!(
        message(trigger_statement("", "a", 1)),
        "store_schema_error: missing sheet view table_name"
    );
}

#[test]
fn a_snapshot_in_a_database() {
    let engine = shadow();
    let db = Connection::open_in_memory().unwrap();
    db.execute_batch(TABLES).unwrap();
    let steps = match engine.persist_sqlite_snapshot(&vec![]) {
        Ok(steps) => steps,
        Err(e) => panic!("{}", e.message()),
    };
    run(&db, &steps);
    assert_eq!(one(&db, "SELECT COUNT(*) FROM ss_cell_snapshot"), "3");
    assert_eq!(one(&db, "SELECT sheet FROM ss_cell_snapshot LIMIT 1"), "It's");
    assert_eq!(one(&db, "SELECT cell_count FROM ss_workbook"), "3");
    assert_eq!(one(&db, "SELECT \"C\" FROM \"sheet_It_s\" WHERE row_id = 2"), "c2");
    assert_eq!(one(&db, "SELECT \"B\" FROM \"sheet_It_s\" WHERE row_id = 2"), "");
    assert_eq!(one(&db, "SELECT COUNT(*) FROM sheet_a_b_2"), "0");
    let again = match engine.persist_sqlite_snapshot(&vec!["sheet_It_s".to_string(), "sheet_a_b".to_string(), "sheet_a_b_2".to_string()]) {
        Ok(steps) => steps,
        Err(e) => panic!("{}", e.message()),
    };
    run(&db, &again);
    assert_eq!(one(&db, "SELECT COUNT(*) FROM ss_cell_snapshot"), "3");
    assert_eq!(get(&engine.snapshot_summary("x.db"), "cell_count"), "3");
}

#[test]
fn a_trigger_notes_changes() {
    let engine = shadow();
    let db = Connection::open_in_memory().unwrap();
    db.execute_batch(TABLES).unwrap();
    match engine.persist_sqlite_snapshot(&vec![]) {
        Ok(steps) => run(&db, &steps),
        Err(e) => panic!("{}", e.message()),
    }
    match trigger_statement("sheet_It_s", "It's", 3) {
        Ok(sql) => db.execute_batch(&sql).unwrap(),
        Err(e) => panic!("{}", e.message()),
    }
    db.execute("UPDATE \"sheet_It_s\" SET \"B\" = 'new' WHERE row_id = 1", []).unwrap();
    assert_eq!(one(&db, "SELECT COUNT(*) FROM ss_pending_store_update"), "1");
    assert_eq!(
        one(&db, "SELECT sheet || '/' || row_idx || '/' || col_idx || '/' || value FROM ss_pending_store_update"),
        "It's/1/2/new"
    );
    assert!(db.execute("UPDATE \"sheet_It_s\" SET row_id = 9 WHERE row_id = 1", []).is_err());
}

#[test]
fn a_sheet_laid_out() {
    let engine = shadow();
    let data = engine.sheet_vtab_data("It's");
    assert_eq!(data.columns, vec!["A", "B", "C"]);
    assert_eq!(data.rows, vec![vec!["a1", "", ""], vec!["", "", "c2"]]);
    assert_eq!(
        data.schema(),
        "CREATE TABLE x(row_id INTEGER PRIMARY KEY, \"A\" TEXT, \"B\" TEXT, \"C\" TEXT)"
    );
    assert_eq!(data.value(1, 2), "c2");
    assert_eq!(data.value(5, 0), "");
    let empty = engine.sheet_vtab_data("a_b");
    assert_eq!(empty.columns, vec!["A"]);
    assert!(empty.rows.is_empty());
    assert_eq!(sheet_bounds(&engine.cells, "It's"), (2, 3));
    assert_eq!(sheet_bounds(&engine.cells, "none"), (0, 0));
}

#[test]
fn a_changed_row() {
    let data = shadow().sheet_vtab_data("It's");
    let id = StoredValue::Integer;
    let row = |before, after, id_text: StoredValue, a: &str, c: &str| {
        vec![before, after, id_text, text(a), text(""), text(c)]
    };
    match data.update(&row(id(2), id(2), id(2), "", "other")) {
        Ok(u) => assert_eq!((u.sheet.as_str(), u.row, u.col, u.value.as_str()), ("It's", 2, 3, "other")),
        Err(_) => panic!("refused"),
    }
    let refused = |args: Vec<StoredValue>| match data.update(&args) {
        Err(RowError::Refused(m)) => m,
        _ => panic!("not refused"),
    };
    assert_eq!(refused(vec![]), "unexpected sheet-shadow SQLite vtab update shape");
    assert_eq!(
        refused(row(id(2), id(3), id(2), "", "c2")),
        "sheet-shadow SQLite vtab does not allow row_id changes"
    );
    assert_eq!(
        refused(row(id(0), id(0), id(0), "", "c2")),
        "sheet-shadow SQLite vtab row_id must be positive"
    );
    assert_eq!(
        refused(row(id(3), id(3), id(3), "", "c2")),
        "sheet-shadow SQLite vtab row not found"
    );
    assert_eq!(
        refused(row(id(2), id(2), id(2), "", "c2")),
        "sheet-shadow SQLite vtab requires exactly one changed cell per UPDATE"
    );
    assert_eq!(
        refused(row(id(2), id(2), id(2), "x", "y")),
        "sheet-shadow SQLite vtab requires exactly one changed cell per UPDATE"
    );
    assert!(matches!(
        data.update(&row(text("2"), id(2), id(2), "", "c")),
        Err(RowError::NoInteger(0))
    ));
    assert!(matches!(
        data.update(&row(id(2), StoredValue::Null, id(2), "", "c")),
        Err(RowError::NoInteger(1))
    ));
}

#[test]
fn updates_through_the_database() {
    let mut engine = shadow();
    let bounds = Bounds { fuel: 4, steps: 4 };
    let change = |value: &str| PendingSqliteUpdate {
        sheet: "a b".to_string(),
        row: 1,
        col: 2,
        value: value.to_string(),
    };
    match engine.sqlite_update(Access::Update, &vec![change("1"), change("2")], &vec![], bounds) {
        Outcome::Fail(m) => assert_eq!(m, "sqlite_update requires exactly one changed cell"),
        _ => panic!("not refused"),
    }
    match engine.sqlite_update(Access::StoreUpdate, &vec![], &vec![], bounds) {
        Outcome::Fail(m) => {
            assert_eq!(m, "unsafe_update: sqlite_store_update requires exactly one changed cell")
        }
        _ => panic!("not refused"),
    }
    match engine.sqlite_update(Access::Update, &vec![change("7")], &vec![], bounds) {
        Outcome::Value(impacted) => assert!(impacted.is_empty()),
        _ => panic!("refused"),
    }
    assert_eq!(engine.get_cell_value("a b", 1, 2), "7");
    assert_eq!(store_update_refusal("no such table"), "unsafe_update: no such table");
    assert_eq!(store_update_refusal("x unsafe_update: y"), "x unsafe_update: y");
}

#[test]
fn rows_read_back() {
    assert_eq!(sqlite_value_to_string(&StoredValue::Null), "");
    assert_eq!(sqlite_value_to_string(&StoredValue::Integer(i64::MIN)), "-9223372036854775808");
    assert_eq!(sqlite_value_to_string(&StoredValue::Number("1.5".to_string())), "1.5");
    assert_eq!(sqlite_value_to_string(&StoredValue::Blob(3)), "<blob:3 bytes>");
    let names = vec!["a".to_string(), "b".to_string(), "a".to_string()];
    let row = read_row(&names, &vec![StoredValue::Integer(1), text("x"), StoredValue::Integer(-2)]);
    assert_eq!(row.len(), 2);
    assert_eq!(get(&row, "a"), "-2");
    assert_eq!(get(&row, "b"), "x");
}

#[test]
fn the_state_of_a_store() {
    assert_eq!(store_table_list().len(), 10);
    assert_eq!(
        message(check_store_path("gone.db", false)),
        "store_path_error: SQLite store not found: gone.db"
    );
    assert!(check_store_path("here.db", true).is_ok());
    let present = vec![("ss_sheet".to_string(), true), ("ss_session".to_string(), false)];
    assert_eq!(
        message(ensure_store_schema_readable(&present)),
        "store_schema_error: missing table ss_session"
    );
    let told = sqlite_store_status(
        &vec![("ss_cell_snapshot".to_string(), 4)],
        2,
        &vec![("a".to_string(), "sheet_a".to_string()), ("b".to_string(), "sheet_b".to_string())],
        "x.db",
        "book.xlsx",
        "ready",
        false,
    );
    assert_eq!(get(&told, "cell_snapshot_count"), "4");
    assert_eq!(get(&told, "sheet_tables"), "a=sheet_a,b=sheet_b");
    assert_eq!(get(&told, "snapshot_state"), "stale");
    let engine = shadow();
    let rows = engine.cells.iter().map(|(k, v)| (key_of(&k.sheet, k.row, k.col), v.clone())).collect::<Vec<_>>();
    assert!(engine.store_snapshot_matches_runtime("", 3, &rows));
    assert!(!engine.store_snapshot_matches_runtime("", 2, &rows));
    assert!(!engine.store_snapshot_matches_runtime("other", 3, &rows));
    assert_eq!(graph_sheet_id("a"), "sheet:a");
    assert_eq!(graph_cell_id(&key_of("a", 2, 28)), "a!AB2");
}

fn rows_of(db: &Connection) -> Vec<(String, usize, usize, String, i64)> {
    let mut query = db
        .prepare("SELECT sheet, row_idx, col_idx, value, is_formula FROM ss_cell_snapshot ORDER BY rowid")
        .unwrap();
    let rows = query
        .query_map([], |row| {
            let (r, c): (i64, i64) = (row.get(1)?, row.get(2)?);
            Ok((row.get(0)?, r as usize, c as usize, row.get(3)?, row.get(4)?))
        })
        .unwrap();
    rows.map(|row| row.unwrap()).collect()
}

#[test]
fn a_store_is_fresh_until_a_value_changes() {
    let mut engine = shadow();
    let db = Connection::open_in_memory().unwrap();
    db.execute_batch(TABLES).unwrap();
    match engine.persist_sqlite_snapshot(&vec![]) {
        Ok(steps) => run(&db, &steps),
        Err(e) => panic!("{}", e.message()),
    }
    let first = rows_of(&db);
    let rows: Vec<_> =
        first.iter().map(|(sheet, row, col, value, _)| (key_of(sheet, *row, *col), value.clone())).collect();
    assert!(engine.store_snapshot_matches_runtime("", rows.len() as i64, &rows));
    match engine.persist_sqlite_snapshot(&vec![]) {
        Ok(steps) => run(&db, &steps),
        Err(e) => panic!("{}", e.message()),
    }
    assert_eq!(rows_of(&db), first);
    let key = key_of(&rows[0].0.sheet, rows[0].0.row, rows[0].0.col);
    let changed = engine.update_cell(&key, "something else", &vec![], Bounds { fuel: 50, steps: 50 });
    assert!(matches!(changed, Outcome::Value(_)));
    assert!(!engine.store_snapshot_matches_runtime("", rows.len() as i64, &rows));
}

#[test]
fn a_store_is_stale_once_a_formula_reads_otherwise() {
    let mut engine = shadow();
    let formula = FormulaCell { formula: "=1+1".to_string(), deps: vec![] };
    engine.formulas = vec![(key_of("a b", 1, 1), formula)];
    let rows: Vec<_> = engine
        .cells
        .iter()
        .map(|(key, value)| (key_of(&key.sheet, key.row, key.col), value.clone()))
        .collect();
    assert!(engine.store_snapshot_matches_runtime("", rows.len() as i64, &rows));
    let place = &engine.formulas[0].0;
    let key = key_of(&place.sheet, place.row, place.col);
    let changed = engine.update_cell(&key, "something else", &vec![], Bounds { fuel: 50, steps: 50 });
    assert!(matches!(changed, Outcome::Value(_)));
    assert!(!engine.store_snapshot_matches_runtime("", rows.len() as i64, &rows));
}
