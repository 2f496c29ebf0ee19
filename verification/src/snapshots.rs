//! What a snapshot leaves in the tables of a store, and when a store is fresh.

use crate::cells::{FormulaModel, FormulasModel};
use crate::coord::Key;
use crate::deps::CellsModel;
use crate::diagnostics::FieldsModel;
use crate::engine;
use crate::engine::EngineModel;
use crate::entries;
use crate::eval::Outcome;
use crate::package;
use crate::package::SheetsModel;
use crate::recalc;
use crate::recalc::{Answers, Bounds, Keys};
use crate::records::{AuditEvent, ShadowMetaRecord};
use crate::sqltext;
use crate::store;
use crate::store::{SqlModel, Steps};
use vstd::prelude::*;

verus! {

/// The tables of which a store tells how many rows of the workbook they hold.
pub enum RowTable {
    Sheets,
    Cells,
    Records,
    Events,
}

/// The statement that writes a row of a table.
pub open spec fn row_text(t: RowTable) -> Seq<char> {
    match t {
        RowTable::Sheets => "INSERT INTO ss_sheet(workbook_id, sheet_index, name, path, table_name) VALUES (1, ?1, ?2, ?3, ?4)"@,
        RowTable::Cells => "INSERT INTO ss_cell_snapshot(workbook_id, sheet, row_idx, col_idx, value, is_formula) VALUES (1, ?1, ?2, ?3, ?4, ?5)"@,
        RowTable::Records => "INSERT INTO ss_shadow_meta(workbook_id, sheet, row_idx, col_idx, cell_type, style_id, number_format, original_formula, cached_value_before, cached_value_after, merge_range, is_modified, is_dirty) VALUES (1, ?1, ?2, ?3, ?4, ?5, ?6, ?7, ?8, ?9, ?10, ?11, ?12)"@,
        RowTable::Events => "INSERT INTO ss_audit_event(id, workbook_id, event_type, sheet, row_idx, col_idx, old_value, new_value, formula, reason) VALUES (?1, 1, ?2, ?3, ?4, ?5, ?6, ?7, ?8, ?9)"@,
    }
}

/// The rows that statements write into a table, in their order.
pub open spec fn rows_written(steps: Steps, t: RowTable) -> Seq<Seq<SqlModel>>
    decreases steps.len(),
{
    if steps.len() == 0 {
        Seq::empty()
    } else {
        let done = rows_written(steps.drop_last(), t);
        if steps.last().sql == row_text(t) {
            done.push(steps.last().params)
        } else {
            done
        }
    }
}

spec fn marked(sql: Seq<char>, a: char, b: char, c: char) -> bool {
    sql.len() > 17 && sql[7] == a && sql[15] == b && sql[17] == c
}

proof fn lemma_row_texts()
    ensures
        marked(row_text(RowTable::Sheets), 'I', 's', 'e'),
        marked(row_text(RowTable::Cells), 'I', 'c', 'l'),
        marked(row_text(RowTable::Records), 'I', 's', 'a'),
        marked(row_text(RowTable::Events), 'I', 'a', 'd'),
{
    reveal_strlit(
        "INSERT INTO ss_sheet(workbook_id, sheet_index, name, path, table_name) VALUES (1, ?1, ?2, ?3, ?4)",
    );
    reveal_strlit(
        "INSERT INTO ss_cell_snapshot(workbook_id, sheet, row_idx, col_idx, value, is_formula) VALUES (1, ?1, ?2, ?3, ?4, ?5)",
    );
    reveal_strlit(
        "INSERT INTO ss_shadow_meta(workbook_id, sheet, row_idx, col_idx, cell_type, style_id, number_format, original_formula, cached_value_before, cached_value_after, merge_range, is_modified, is_dirty) VALUES (1, ?1, ?2, ?3, ?4, ?5, ?6, ?7, ?8, ?9, ?10, ?11, ?12)",
    );
    reveal_strlit(
        "INSERT INTO ss_audit_event(id, workbook_id, event_type, sheet, row_idx, col_idx, old_value, new_value, formula, reason) VALUES (?1, 1, ?2, ?3, ?4, ?5, ?6, ?7, ?8, ?9)",
    );
}

/// Whether a statement writes a row of none of the tables.
spec fn writes_none(sql: Seq<char>) -> bool {
    forall|t: RowTable| sql != #[trigger] row_text(t)
}

proof fn lemma_writes_none(sql: Seq<char>)
    requires
        sql.len() > 7,
        sql[7] != 'I',
    ensures
        writes_none(sql),
{
    lemma_row_texts();
}

proof fn lemma_other_texts()
    ensures
        writes_none(store::node(Seq::empty(), Seq::empty(), Seq::empty()).sql),
        writes_none(
            store::edge(Seq::empty(), Seq::empty(), Seq::empty(), Seq::empty(), Seq::empty()).sql,
        ),
        writes_none(
            "INSERT INTO ss_workbook(id, source_path, sheet_count, cell_count, formula_count) VALUES (1, ?1, ?2, ?3, ?4)"@,
        ),
        writes_none(
            "INSERT INTO ss_session(id, workbook_id, state, modified_count, dirty_count) VALUES ('active', 1, 'snapshot', ?1, ?2)"@,
        ),
        writes_none(
            "INSERT INTO ss_formula_edge(workbook_id, formula_sheet, formula_row, formula_col, precedent_sheet, precedent_row, precedent_col) VALUES (1, ?1, ?2, ?3, ?4, ?5, ?6)"@,
        ),
{
    lemma_row_texts();
    reveal_strlit(
        "INSERT OR IGNORE INTO ss_graph_node(namespace, node_id, label) VALUES (?1, ?2, ?3)",
    );
    reveal_strlit(
        "INSERT INTO ss_graph_edge(src_namespace, src_id, dst_namespace, dst_id, kind) VALUES (?1, ?2, ?3, ?4, ?5)",
    );
    reveal_strlit(
        "INSERT INTO ss_workbook(id, source_path, sheet_count, cell_count, formula_count) VALUES (1, ?1, ?2, ?3, ?4)",
    );
    reveal_strlit(
        "INSERT INTO ss_session(id, workbook_id, state, modified_count, dirty_count) VALUES ('active', 1, 'snapshot', ?1, ?2)",
    );
    reveal_strlit(
        "INSERT INTO ss_formula_edge(workbook_id, formula_sheet, formula_row, formula_col, precedent_sheet, precedent_row, precedent_col) VALUES (1, ?1, ?2, ?3, ?4, ?5, ?6)",
    );
    let edge = store::edge(Seq::empty(), Seq::empty(), Seq::empty(), Seq::empty(), Seq::empty()).sql;
    assert(marked(edge, 'I', 'g', 'a'));
    assert(marked(
        "INSERT INTO ss_workbook(id, source_path, sheet_count, cell_count, formula_count) VALUES (1, ?1, ?2, ?3, ?4)"@,
        'I',
        'w',
        'r',
    ));
    assert(marked(
        "INSERT INTO ss_session(id, workbook_id, state, modified_count, dirty_count) VALUES ('active', 1, 'snapshot', ?1, ?2)"@,
        'I',
        's',
        's',
    ));
    assert(marked(
        "INSERT INTO ss_formula_edge(workbook_id, formula_sheet, formula_row, formula_col, precedent_sheet, precedent_row, precedent_col) VALUES (1, ?1, ?2, ?3, ?4, ?5, ?6)"@,
        'I',
        'f',
        'r',
    ));
    lemma_writes_none(store::node(Seq::empty(), Seq::empty(), Seq::empty()).sql);
}

proof fn lemma_view_texts(view: Seq<char>, sheet: Seq<char>, cols: nat)
    ensures
        writes_none(sqltext::drop_view_text(view)),
        writes_none(sqltext::view_text(view, sheet, cols)),
{
    reveal_strlit("DROP VIEW IF EXISTS ");
    reveal_strlit("CREATE VIEW ");
    let a = sqltext::drop_view_text(view);
    let b = sqltext::view_text(view, sheet, cols);
    assert(a[7] == "DROP VIEW IF EXISTS "@[7]);
    assert(b[7] == "CREATE VIEW "@[7]);
    lemma_writes_none(a);
    lemma_writes_none(b);
}

/// Whether statements write no rows into the tables.
spec fn no_rows(steps: Steps) -> bool {
    forall|t: RowTable| #[trigger] rows_written(steps, t) == Seq::<Seq<SqlModel>>::empty()
}

proof fn lemma_no_rows(steps: Steps)
    requires
        forall|i: int| 0 <= i < steps.len() ==> writes_none((#[trigger] steps[i]).sql),
    ensures
        no_rows(steps),
    decreases steps.len(),
{
    if steps.len() > 0 {
        assert forall|i: int| 0 <= i < steps.drop_last().len() implies writes_none(
            (#[trigger] steps.drop_last()[i]).sql,
        ) by {
            assert(steps.drop_last()[i] == steps[i]);
        }
        lemma_no_rows(steps.drop_last());
        assert(writes_none(steps[steps.len() - 1].sql));
        assert forall|t: RowTable| #[trigger]
            rows_written(steps, t) == Seq::<Seq<SqlModel>>::empty() by {
            assert(steps.last().sql != row_text(t));
            assert(rows_written(steps.drop_last(), t) == Seq::<Seq<SqlModel>>::empty());
        }
    }
}

proof fn lemma_rows_add_up(a: Steps, b: Steps, t: RowTable)
    ensures
        rows_written(a + b, t) == rows_written(a, t) + rows_written(b, t),
    decreases b.len(),
{
    if b.len() == 0 {
        assert(a + b == a);
    } else {
        lemma_rows_add_up(a, b.drop_last(), t);
        assert((a + b).drop_last() == a + b.drop_last());
        assert((a + b).last() == b.last());
    }
}

proof fn lemma_nothing_added(a: Steps, b: Steps)
    requires
        no_rows(b),
    ensures
        forall|t: RowTable| #[trigger] rows_written(a + b, t) == rows_written(a, t),
{
    assert forall|t: RowTable| #[trigger] rows_written(a + b, t) == rows_written(a, t) by {
        lemma_rows_add_up(a, b, t);
        assert(rows_written(b, t) == Seq::<Seq<SqlModel>>::empty());
    }
}

proof fn lemma_drops(list: Seq<Seq<char>>, n: int)
    ensures
        no_rows(store::drop_steps(list, n)),
    decreases n,
{
    if n <= 0 {
        lemma_no_rows(store::drop_steps(list, n));
    } else {
        lemma_drops(list, n - 1);
        lemma_view_texts(list[n - 1], Seq::empty(), 0);
        lemma_no_rows(store::drop_step(list[n - 1]));
        lemma_nothing_added(store::drop_steps(list, n - 1), store::drop_step(list[n - 1]));
    }
}

proof fn lemma_clearing()
    ensures
        no_rows(store::clearing_steps()),
{
    reveal_strlit("DELETE FROM ss_graph_edge");
    reveal_strlit("DELETE FROM ss_graph_node");
    reveal_strlit("DELETE FROM ss_formula_edge");
    reveal_strlit("DELETE FROM ss_audit_event");
    reveal_strlit("DELETE FROM ss_shadow_meta");
    reveal_strlit("DELETE FROM ss_cell_snapshot");
    reveal_strlit("DELETE FROM ss_sheet");
    reveal_strlit("DELETE FROM ss_session");
    reveal_strlit("DELETE FROM ss_workbook");
    reveal_strlit(
        "INSERT OR REPLACE INTO ss_migration(version, name) VALUES (1, 'phase7_runtime_audit_graph_snapshot')",
    );
    let steps = store::clearing_steps();
    assert forall|i: int| 0 <= i < steps.len() implies writes_none((#[trigger] steps[i]).sql) by {
        assert(i == 0 || i == 1 || i == 2 || i == 3 || i == 4 || i == 5 || i == 6 || i == 7 || i
            == 8 || i == 9);
        lemma_writes_none(steps[i].sql);
    }
    lemma_no_rows(steps);
}

proof fn lemma_workbook(m: EngineModel)
    ensures
        no_rows(store::workbook_steps(m)),
{
    lemma_other_texts();
    lemma_no_rows(store::workbook_steps(m));
}

proof fn lemma_precedents(k: Key<Seq<char>>, list: Keys, n: int)
    ensures
        no_rows(store::precedent_rows(k, list, n)),
    decreases n,
{
    if n <= 0 {
        lemma_no_rows(store::precedent_rows(k, list, n));
    } else {
        lemma_precedents(k, list, n - 1);
        lemma_other_texts();
        lemma_no_rows(store::precedent_row(k, list[n - 1]));
        lemma_nothing_added(
            store::precedent_rows(k, list, n - 1),
            store::precedent_row(k, list[n - 1]),
        );
    }
}

proof fn lemma_formulas(list: Seq<(Key<Seq<char>>, FormulaModel)>, n: int)
    ensures
        no_rows(store::formula_rows(list, n)),
    decreases n,
{
    if n <= 0 {
        lemma_no_rows(store::formula_rows(list, n));
    } else {
        lemma_formulas(list, n - 1);
        lemma_other_texts();
        let x = list[n - 1];
        let deps = recalc::sorted_keys(x.1.deps);
        let more = store::precedent_rows(x.0, deps, deps.len() as int);
        let first = seq![
            store::node("formula"@, store::cell_id(x.0), x.1.formula),
            store::edge(
                "cell"@,
                store::cell_id(x.0),
                "formula"@,
                store::cell_id(x.0),
                "contains"@,
            ),
        ];
        lemma_no_rows(first);
        lemma_precedents(x.0, deps, deps.len() as int);
        lemma_nothing_added(first, more);
        assert(no_rows(store::formula_row(x)));
        lemma_nothing_added(store::formula_rows(list, n - 1), store::formula_row(x));
    }
}

proof fn lemma_views(sheets: SheetsModel, cells: CellsModel, tables: FieldsModel, n: int)
    ensures
        store::view_steps(sheets, cells, tables, n) matches Ok(steps) ==> no_rows(steps),
    decreases n,
{
    if n <= 0 {
        lemma_no_rows(Seq::empty());
    } else {
        lemma_views(sheets, cells, tables, n - 1);
        if let Ok(done) = store::view_steps(sheets, cells, tables, n - 1) {
            if let Some(table) = entries::get(tables, sheets[n - 1].name) {
                let cols = store::at_least_one(store::bounds(cells, sheets[n - 1].name).1) as nat;
                lemma_view_texts(table, sheets[n - 1].name, cols);
                let more = seq![
                    store::plain(sqltext::drop_view_text(table)),
                    store::plain(sqltext::view_text(table, sheets[n - 1].name, cols)),
                ];
                lemma_no_rows(more);
                lemma_nothing_added(done, more);
            }
        }
    }
}

/// What a group of statements writes of which the first alone writes a row.
proof fn lemma_first_row(group: Steps, own: RowTable)
    requires
        group.len() > 0,
        group[0].sql == row_text(own),
        forall|i: int| 1 <= i < group.len() ==> writes_none((#[trigger] group[i]).sql),
    ensures
        forall|t: RowTable| #[trigger]
            rows_written(group, t) == if t == own {
                seq![group[0].params]
            } else {
                Seq::empty()
            },
{
    lemma_row_texts();
    let first = seq![group[0]];
    let rest = group.skip(1);
    assert(first + rest == group);
    assert forall|i: int| 0 <= i < rest.len() implies writes_none((#[trigger] rest[i]).sql) by {
        assert(rest[i] == group[i + 1]);
    }
    lemma_no_rows(rest);
    lemma_nothing_added(first, rest);
    assert forall|t: RowTable| #[trigger]
        rows_written(group, t) == if t == own {
            seq![group[0].params]
        } else {
            Seq::empty()
        } by {
        assert(rows_written(first + rest, t) == rows_written(first, t));
        assert(first.drop_last() == Steps::empty());
        assert(rows_written(first.drop_last(), t) == Seq::<Seq<SqlModel>>::empty());
        assert(first.last() == group[0]);
    }
}

/// The row of a cell: where it is, what it holds, and whether it has a formula.
pub open spec fn cell_entry(formulas: FormulasModel, x: (Key<Seq<char>>, Seq<char>)) -> Seq<SqlModel> {
    store::cell_row(formulas, x)[0].params
}

proof fn lemma_cells(formulas: FormulasModel, list: CellsModel, n: int)
    requires
        0 <= n,
    ensures
        rows_written(store::cell_rows(formulas, list, n), RowTable::Cells) == Seq::new(
            n as nat,
            |i: int| cell_entry(formulas, list[i]),
        ),
        rows_written(store::cell_rows(formulas, list, n), RowTable::Sheets).len() == 0,
        rows_written(store::cell_rows(formulas, list, n), RowTable::Records).len() == 0,
        rows_written(store::cell_rows(formulas, list, n), RowTable::Events).len() == 0,
    decreases n,
{
    if n > 0 {
        lemma_cells(formulas, list, n - 1);
        lemma_other_texts();
        let group = store::cell_row(formulas, list[n - 1]);
        lemma_first_row(group, RowTable::Cells);
        let done = store::cell_rows(formulas, list, n - 1);
        lemma_rows_add_up(done, group, RowTable::Cells);
        lemma_rows_add_up(done, group, RowTable::Sheets);
        lemma_rows_add_up(done, group, RowTable::Records);
        lemma_rows_add_up(done, group, RowTable::Events);
        assert(rows_written(group, RowTable::Sheets).len() == 0);
        assert(rows_written(group, RowTable::Records).len() == 0);
        assert(rows_written(group, RowTable::Events).len() == 0);
        assert(rows_written(group, RowTable::Cells) == seq![cell_entry(formulas, list[n - 1])]);
    }
}

proof fn lemma_records(list: Seq<(Key<Seq<char>>, ShadowMetaRecord<Seq<char>>)>, n: int)
    requires
        0 <= n,
    ensures
        rows_written(store::meta_rows(list, n), RowTable::Records).len() == n,
        rows_written(store::meta_rows(list, n), RowTable::Cells).len() == 0,
        rows_written(store::meta_rows(list, n), RowTable::Sheets).len() == 0,
        rows_written(store::meta_rows(list, n), RowTable::Events).len() == 0,
    decreases n,
{
    if n > 0 {
        lemma_records(list, n - 1);
        let group = store::meta_row(list[n - 1]);
        lemma_first_row(group, RowTable::Records);
        let done = store::meta_rows(list, n - 1);
        lemma_rows_add_up(done, group, RowTable::Cells);
        lemma_rows_add_up(done, group, RowTable::Sheets);
        lemma_rows_add_up(done, group, RowTable::Records);
        lemma_rows_add_up(done, group, RowTable::Events);
        assert(rows_written(group, RowTable::Sheets).len() == 0);
        assert(rows_written(group, RowTable::Cells).len() == 0);
        assert(rows_written(group, RowTable::Events).len() == 0);
        assert(rows_written(group, RowTable::Records).len() == 1);
    }
}

proof fn lemma_events(list: Seq<AuditEvent<Seq<char>>>, n: int)
    requires
        0 <= n,
    ensures
        rows_written(store::audit_rows(list, n), RowTable::Events).len() == n,
        rows_written(store::audit_rows(list, n), RowTable::Cells).len() == 0,
        rows_written(store::audit_rows(list, n), RowTable::Sheets).len() == 0,
        rows_written(store::audit_rows(list, n), RowTable::Records).len() == 0,
    decreases n,
{
    if n > 0 {
        lemma_events(list, n - 1);
        lemma_other_texts();
        let group = store::audit_row(list[n - 1], n - 1);
        lemma_first_row(group, RowTable::Events);
        let done = store::audit_rows(list, n - 1);
        lemma_rows_add_up(done, group, RowTable::Cells);
        lemma_rows_add_up(done, group, RowTable::Sheets);
        lemma_rows_add_up(done, group, RowTable::Records);
        lemma_rows_add_up(done, group, RowTable::Events);
        assert(rows_written(group, RowTable::Sheets).len() == 0);
        assert(rows_written(group, RowTable::Cells).len() == 0);
        assert(rows_written(group, RowTable::Records).len() == 0);
        assert(rows_written(group, RowTable::Events).len() == 1);
    }
}

proof fn lemma_sheets(sheets: SheetsModel, tables: FieldsModel, n: int)
    requires
        0 <= n,
    ensures
        store::sheet_rows(sheets, tables, n) matches Ok(steps) ==> {
            &&& rows_written(steps, RowTable::Sheets).len() == n
            &&& rows_written(steps, RowTable::Cells).len() == 0
            &&& rows_written(steps, RowTable::Records).len() == 0
            &&& rows_written(steps, RowTable::Events).len() == 0
        },
    decreases n,
{
    if n > 0 {
        lemma_sheets(sheets, tables, n - 1);
        lemma_other_texts();
        if let Ok(done) = store::sheet_rows(sheets, tables, n - 1) {
            if let Some(table) = entries::get(tables, sheets[n - 1].name) {
                let group = store::sheet_row(sheets[n - 1], n - 1, table);
                lemma_first_row(group, RowTable::Sheets);
                lemma_rows_add_up(done, group, RowTable::Cells);
                lemma_rows_add_up(done, group, RowTable::Sheets);
                lemma_rows_add_up(done, group, RowTable::Records);
                lemma_rows_add_up(done, group, RowTable::Events);
                assert(rows_written(group, RowTable::Events).len() == 0);
                assert(rows_written(group, RowTable::Cells).len() == 0);
                assert(rows_written(group, RowTable::Records).len() == 0);
                assert(rows_written(group, RowTable::Sheets).len() == 1);
            }
        }
    }
}

/// A snapshot writes one row for each cell, in the order of the cells, with what it holds and
/// whether it has a formula, and as many rows of sheets, of records and of the trail as the
/// workbook has.
pub proof fn law_snapshot_writes_the_workbook(m: EngineModel, old_views: Seq<Seq<char>>)
    ensures
        ({
            let steps = store::snapshot_steps(m, old_views)->Ok_0;
            let cells = store::in_cell_order(m.cells);
            &&& rows_written(steps, RowTable::Cells) == Seq::new(
                m.cells.len(),
                |i: int| cell_entry(m.formulas, cells[i]),
            )
            &&& rows_written(steps, RowTable::Sheets).len() == m.sheets.len()
            &&& rows_written(steps, RowTable::Records).len() == m.meta.len()
            &&& rows_written(steps, RowTable::Events).len() == m.audit_events.len()
        }),
{
    store::law_every_workbook_has_a_snapshot(m, old_views);
    store::law_order_keeps_entries(m.cells);
    store::law_order_keeps_entries(m.meta);
    let n = m.sheets.len() as int;
    let tables = sqltext::tables_of(m.sheets, n);
    let cells = store::in_cell_order(m.cells);
    let meta = store::in_cell_order(m.meta);
    let formulas = store::in_cell_order(m.formulas);
    let sheets = store::sheet_rows(m.sheets, tables, n)->Ok_0;
    let views = store::view_steps(m.sheets, m.cells, tables, n)->Ok_0;
    let a = store::drop_steps(old_views, old_views.len() as int);
    let b = a + store::clearing_steps();
    let c = b + store::workbook_steps(m);
    let d = c + sheets;
    let cell_steps = store::cell_rows(m.formulas, cells, cells.len() as int);
    let e = d + cell_steps;
    let meta_steps = store::meta_rows(meta, meta.len() as int);
    let f = e + meta_steps;
    let events = store::audit_rows(m.audit_events, m.audit_events.len() as int);
    let g = f + events;
    let formula_steps = store::formula_rows(formulas, formulas.len() as int);
    let h = g + formula_steps;
    lemma_drops(old_views, old_views.len() as int);
    lemma_clearing();
    lemma_nothing_added(a, store::clearing_steps());
    lemma_workbook(m);
    lemma_nothing_added(b, store::workbook_steps(m));
    lemma_sheets(m.sheets, tables, n);
    lemma_cells(m.formulas, cells, cells.len() as int);
    lemma_records(meta, meta.len() as int);
    lemma_events(m.audit_events, m.audit_events.len() as int);
    lemma_formulas(formulas, formulas.len() as int);
    lemma_nothing_added(g, formula_steps);
    lemma_views(m.sheets, m.cells, tables, n);
    lemma_nothing_added(h, views);
    assert(store::snapshot_steps(m, old_views)->Ok_0 == h + views);
    assert forall|t: RowTable| #[trigger] rows_written(h + views, t) == rows_written(sheets, t)
        + rows_written(cell_steps, t) + rows_written(meta_steps, t) + rows_written(events, t) by {
        assert(rows_written(a, t) == Seq::<Seq<SqlModel>>::empty());
        assert(rows_written(a + store::clearing_steps(), t) == rows_written(a, t));
        assert(rows_written(b + store::workbook_steps(m), t) == rows_written(b, t));
        lemma_rows_add_up(c, sheets, t);
        lemma_rows_add_up(d, cell_steps, t);
        lemma_rows_add_up(e, meta_steps, t);
        lemma_rows_add_up(f, events, t);
        assert(rows_written(g + formula_steps, t) == rows_written(g, t));
        assert(rows_written(h + views, t) == rows_written(h, t));
    }
    assert(rows_written(h + views, RowTable::Cells) == rows_written(cell_steps, RowTable::Cells));
}

/// What a snapshot runs after it has removed the views of the snapshot before.
spec fn own_steps(m: EngineModel) -> Steps {
    let n = m.sheets.len() as int;
    let tables = sqltext::tables_of(m.sheets, n);
    let cells = store::in_cell_order(m.cells);
    let meta = store::in_cell_order(m.meta);
    let formulas = store::in_cell_order(m.formulas);
    store::clearing_steps() + (store::workbook_steps(m) + (store::sheet_rows(
        m.sheets,
        tables,
        n,
    )->Ok_0 + (store::cell_rows(m.formulas, cells, cells.len() as int) + (store::meta_rows(
        meta,
        meta.len() as int,
    ) + (store::audit_rows(m.audit_events, m.audit_events.len() as int) + (store::formula_rows(
        formulas,
        formulas.len() as int,
    ) + store::view_steps(m.sheets, m.cells, tables, n)->Ok_0))))))
}

proof fn lemma_regroup(a: Steps, b: Steps, c: Steps)
    ensures
        (a + b) + c == a + (b + c),
{
}

proof fn lemma_own_steps(m: EngineModel, views: Seq<Seq<char>>)
    ensures
        store::snapshot_steps(m, views)->Ok_0 == store::drop_steps(views, views.len() as int)
            + own_steps(m),
{
    store::law_every_workbook_has_a_snapshot(m, views);
    let n = m.sheets.len() as int;
    let tables = sqltext::tables_of(m.sheets, n);
    let cells = store::in_cell_order(m.cells);
    let meta = store::in_cell_order(m.meta);
    let formulas = store::in_cell_order(m.formulas);
    let a = store::drop_steps(views, views.len() as int);
    let b = store::clearing_steps();
    let c = store::workbook_steps(m);
    let d = store::sheet_rows(m.sheets, tables, n)->Ok_0;
    let e = store::cell_rows(m.formulas, cells, cells.len() as int);
    let f = store::meta_rows(meta, meta.len() as int);
    let g = store::audit_rows(m.audit_events, m.audit_events.len() as int);
    let h = store::formula_rows(formulas, formulas.len() as int);
    let i = store::view_steps(m.sheets, m.cells, tables, n)->Ok_0;
    lemma_regroup(a + b + c + d + e + f + g, h, i);
    lemma_regroup(a + b + c + d + e + f, g, h + i);
    lemma_regroup(a + b + c + d + e, f, g + (h + i));
    lemma_regroup(a + b + c + d, e, f + (g + (h + i)));
    lemma_regroup(a + b + c, d, e + (f + (g + (h + i))));
    lemma_regroup(a + b, c, d + (e + (f + (g + (h + i)))));
    lemma_regroup(a, b, c + (d + (e + (f + (g + (h + i))))));
}

/// Two snapshots of the same workbook run the same statements, but for the views of the
/// snapshot before that they remove; the first of those statements remove all rows.
pub proof fn law_later_snapshots_write_the_same(
    m: EngineModel,
    views: Seq<Seq<char>>,
    later_views: Seq<Seq<char>>,
)
    ensures
        ({
            let own = store::snapshot_steps(m, Seq::empty())->Ok_0;
            let n = store::clearing_steps().len() as int;
            &&& own.len() >= n && own.take(n) == store::clearing_steps()
            &&& store::snapshot_steps(m, views)->Ok_0 == store::drop_steps(
                views,
                views.len() as int,
            ) + own
            &&& store::snapshot_steps(m, later_views)->Ok_0 == store::drop_steps(
                later_views,
                later_views.len() as int,
            ) + own
        }),
{
    let none = Seq::<Seq<char>>::empty();
    lemma_own_steps(m, none);
    lemma_own_steps(m, views);
    lemma_own_steps(m, later_views);
    let own = own_steps(m);
    assert(store::drop_steps(none, 0) + own == own);
    assert(own.take(store::clearing_steps().len() as int) == store::clearing_steps());
}

/// The status of a store tells whether it is fresh.
pub proof fn law_status_tells_whether_a_store_is_fresh(
    counts: Seq<(Seq<char>, i64)>,
    view_count: i64,
    sheets: FieldsModel,
    path: Seq<char>,
    source: Seq<char>,
    session: Seq<char>,
    fresh: bool,
)
    ensures
        ({
            let told = store::store_status(
                counts,
                view_count,
                sheets,
                path,
                source,
                session,
                fresh,
            );
            &&& entries::get(told, "snapshot_state"@) == Some(
                if fresh {
                    "fresh"@
                } else {
                    "stale"@
                },
            )
            &&& entries::get(told, "snapshot_fresh"@) == Some(
                if fresh {
                    "true"@
                } else {
                    "false"@
                },
            )
        }),
{
    reveal_with_fuel(entries::place, 2);
    reveal_strlit("snapshot_state");
    reveal_strlit("snapshot_fresh");
    assert("snapshot_state"@[9] != "snapshot_fresh"@[9]);
    let told = store::store_status(counts, view_count, sheets, path, source, session, fresh);
    let rest = told.drop_last();
    assert(told.last().0 == "snapshot_state"@);
    assert(rest.last().0 == "snapshot_fresh"@);
}

proof fn lemma_only_under_its_key(cells: CellsModel, i: int)
    requires
        entries::distinct_keys(cells),
        0 <= i < cells.len(),
    ensures
        entries::get(cells, cells[i].0) == Some(cells[i].1),
{
    entries::lemma_place(cells, cells[i].0);
}

proof fn lemma_same_members<T>(s: Seq<T>, t: Seq<T>, x: T)
    requires
        s.to_multiset() == t.to_multiset(),
    ensures
        s.contains(x) <==> t.contains(x),
{
    s.to_multiset_ensures();
    t.to_multiset_ensures();
    assert(s.contains(x) <==> s.to_multiset().count(x) > 0);
    assert(t.contains(x) <==> t.to_multiset().count(x) > 0);
}

/// A store that holds the rows of a snapshot is fresh as long as the workbook is the same.
pub proof fn law_store_is_fresh_after_a_snapshot(m: EngineModel)
    requires
        m.wf(),
        m.cells.len() <= usize::MAX,
        m.cells.len() <= i64::MAX,
    ensures
        store::snapshot_fresh(
            m,
            package::or_text(m.source_path, Seq::empty()),
            m.cells.len() as i64,
            store::in_cell_order(m.cells),
        ),
{
    reveal(EngineModel::once_each);
    let rows = store::in_cell_order(m.cells);
    store::law_order_keeps_entries(m.cells);
    assert forall|j: int| 0 <= j < rows.len() implies entries::get(m.cells, (#[trigger] rows[j]).0)
        == Some(rows[j].1) by {
        lemma_same_members(rows, m.cells, rows[j]);
        assert(rows.contains(rows[j]));
        let i = choose|i: int| 0 <= i < m.cells.len() && m.cells[i] == rows[j];
        lemma_only_under_its_key(m.cells, i);
    }
}

/// Whether some cell of one workbook reads otherwise in another.
pub open spec fn reads_otherwise(m: EngineModel, other: EngineModel) -> bool {
    exists|k: Key<Seq<char>>| #[trigger] entries::get(m.cells, k) != entries::get(other.cells, k)
}

/// The cells that entries are about.
spec fn keys_of(cells: CellsModel) -> Seq<Key<Seq<char>>> {
    Seq::new(cells.len(), |i: int| cells[i].0)
}

proof fn lemma_as_many_keys(cells: CellsModel, k: Key<Seq<char>>)
    requires
        entries::distinct_keys(cells),
    ensures
        keys_of(cells).to_set().finite(),
        keys_of(cells).to_set().len() == cells.len(),
        keys_of(cells).to_set().contains(k) <==> entries::get(cells, k) is Some,
{
    let keys = keys_of(cells);
    assert(keys.no_duplicates());
    keys.unique_seq_to_set();
    entries::lemma_place(cells, k);
    if let Some(i) = entries::place(cells, k) {
        assert(keys[i] == k);
        assert(keys.contains(k));
    }
    if keys.contains(k) {
        let i = choose|i: int| 0 <= i < keys.len() && keys[i] == k;
        assert(cells[i].0 == k);
    }
}

/// A store that holds the rows of a snapshot is stale for every workbook in which some cell,
/// with a formula or without, reads otherwise than in the one that the snapshot is of.
pub proof fn law_changed_values_make_a_store_stale(
    m: EngineModel,
    next: EngineModel,
    source: Seq<char>,
)
    requires
        m.wf(),
        entries::distinct_keys(next.cells),
        m.cells.len() <= usize::MAX,
        m.cells.len() <= i64::MAX,
        reads_otherwise(m, next),
    ensures
        !store::snapshot_fresh(
            next,
            source,
            m.cells.len() as i64,
            store::in_cell_order(m.cells),
        ),
{
    reveal(EngineModel::once_each);
    let rows = store::in_cell_order(m.cells);
    store::law_order_keeps_entries(m.cells);
    let k = choose|k: Key<Seq<char>>| #[trigger]
        entries::get(m.cells, k) != entries::get(next.cells, k);
    if store::snapshot_fresh(next, source, m.cells.len() as i64, rows) {
        lemma_rows_tell_their_cells(m.cells, next.cells, rows, k);
        let here = keys_of(m.cells).to_set();
        let there = keys_of(next.cells).to_set();
        assert forall|x: Key<Seq<char>>| here.contains(x) implies there.contains(x) by {
            lemma_as_many_keys(m.cells, x);
            lemma_as_many_keys(next.cells, x);
            lemma_rows_tell_their_cells(m.cells, next.cells, rows, x);
        }
        lemma_as_many_keys(m.cells, k);
        lemma_as_many_keys(next.cells, k);
        vstd::set_lib::lemma_subset_equality(here, there);
    }
}

proof fn lemma_rows_tell_their_cells(
    cells: CellsModel,
    next: CellsModel,
    rows: CellsModel,
    k: Key<Seq<char>>,
)
    requires
        rows.to_multiset() == cells.to_multiset(),
        store::rows_match(next, rows, 0),
    ensures
        entries::get(cells, k) is Some ==> entries::get(next, k) == entries::get(cells, k),
{
    entries::lemma_place(cells, k);
    if let Some(i) = entries::place(cells, k) {
        lemma_same_members(rows, cells, cells[i]);
        assert(cells.contains(cells[i]));
        let j = choose|j: int| 0 <= j < rows.len() && rows[j] == cells[i];
        assert(entries::get(next, rows[j].0) == Some(rows[j].1));
    }
}

#[verifier::spinoff_prover]
proof fn lemma_worked_out_cells(
    m: EngineModel,
    source: Key<Seq<char>>,
    queue: Keys,
    seen: Keys,
    changed: Keys,
    answers: Answers,
    fuel: nat,
    steps: nat,
    x: Key<Seq<char>>,
)
    ensures
        ({
            let r = recalc::recalc(m, source, queue, seen, changed, answers, fuel, steps);
            &&& entries::distinct_keys(m.cells) ==> entries::distinct_keys(r.0.cells)
            &&& r.1 matches Outcome::Value(all) ==> {
                &&& changed.contains(x) ==> all.contains(x)
                &&& !all.contains(x) ==> entries::get(r.0.cells, x) == entries::get(m.cells, x)
            }
        }),
    decreases steps,
{
    if queue.len() > 0 && steps > 0 {
        let k = queue[0];
        let rest = queue.skip(1);
        let left = (steps - 1) as nat;
        if seen.contains(k) {
            lemma_worked_out_cells(m, source, rest, seen, changed, answers, fuel, left, x);
        } else if let Outcome::Value(value) = recalc::formula_cell_value(m, k, answers, fuel) {
            let next = recalc::recalculated(m, k, value, recalc::dependence(source));
            let more = engine::dependents_of(m.dependents, k);
            entries::law_get_after_put(m.cells, k, value, x);
            assert(next.cells == entries::put(m.cells, k, value));
            assert(changed.push(k)[changed.len() as int] == k);
            if changed.contains(x) {
                let i = choose|i: int| 0 <= i < changed.len() && changed[i] == x;
                assert(changed.push(k)[i] == x);
            }
            lemma_worked_out_cells(
                next,
                source,
                rest + more,
                recalc::without_each(entries::with(seen, k), more),
                changed.push(k),
                answers,
                fuel,
                left,
                x,
            );
            lemma_worked_out_cells(
                m,
                source,
                rest,
                entries::with(seen, k),
                changed,
                answers,
                fuel,
                left,
                x,
            );
        }
    }
}

/// An update makes a store stale that holds the rows of a snapshot, where some cell reads
/// otherwise after it. It does so at least where the cell is given another value and is not
/// itself worked out anew, whether it has a formula or not.
pub proof fn law_updates_make_a_store_stale(
    m: EngineModel,
    k: Key<Seq<char>>,
    value: Seq<char>,
    reason: Seq<char>,
    answers: Answers,
    b: Bounds,
    source: Seq<char>,
)
    requires
        m.wf(),
        m.cells.len() <= usize::MAX,
        m.cells.len() <= i64::MAX,
    ensures
        ({
            let (next, told) = recalc::updated(m, k, value, reason, answers, b);
            let accepted = engine::target_refusal(m, k.sheet, k.row, k.col) is None;
            let another = entries::get(m.cells, k) != Some(value);
            &&& reads_otherwise(m, next) ==> !store::snapshot_fresh(
                next,
                source,
                m.cells.len() as i64,
                store::in_cell_order(m.cells),
            )
            &&& accepted && another && entries::get(m.formulas, k) is None ==> reads_otherwise(
                m,
                next,
            )
            &&& accepted && another ==> (told matches Outcome::Value(changed)
                ==> !changed.contains(k) ==> reads_otherwise(m, next))
        }),
{
    reveal(EngineModel::once_each);
    let (next, told) = recalc::updated(m, k, value, reason, answers, b);
    let put = recalc::with_input(m, k, value, reason);
    let waiting = engine::dependents_of(put.dependents, k);
    entries::law_get_after_put(m.cells, k, value, k);
    lemma_worked_out_cells(
        put,
        k,
        waiting,
        Seq::empty(),
        Seq::empty(),
        answers,
        b.fuel as nat,
        b.steps as nat,
        k,
    );
    if engine::target_refusal(m, k.sheet, k.row, k.col) is None {
        if entries::get(m.formulas, k) is None {
            recalc::law_recalculation_keeps_inputs(
                put,
                k,
                waiting,
                Seq::empty(),
                Seq::empty(),
                answers,
                b.fuel as nat,
                b.steps as nat,
                k,
            );
        }
    }
    if reads_otherwise(m, next) {
        law_changed_values_make_a_store_stale(m, next, source);
    }
}

} // verus!
