//! The store: what a snapshot of a workbook writes into a database, how rows of the
//! database are read back, and what a changed row means.

use crate::cells::{FormulaCell, FormulaModel, FormulasModel};
use crate::copies::Copied;
use crate::coord;
use crate::coord::{Key, ShadowError};
use crate::deps::CellsModel;
use crate::diagnostics::{Fields, FieldsModel};
use crate::engine;
use crate::engine::{EngineModel, SheetShadowEngine};
use crate::entries;
use crate::eval::{Ask, Outcome, Reply, Res};
use crate::package;
use crate::package::{Fallible, SheetsModel};
use crate::recalc;
use crate::recalc::{Answers, Bounds, Keys};
use crate::records::{AuditEvent, PendingSqliteUpdate, ShadowMetaRecord, SheetInfo};
use crate::sqltext;
use crate::text;
use vstd::prelude::*;
use vstd::string::*;

verus! {

// ----- Statements -----

/// A value that a statement is given.
#[verifier::ext_equal]
pub enum SqlValue<S = String> {
    Null,
    Integer(i64),
    Text(S),
}

pub type SqlModel = SqlValue<Seq<char>>;

impl DeepView for SqlValue<String> {
    type V = SqlModel;

    open spec fn deep_view(&self) -> SqlModel {
        match self {
            SqlValue::Null => SqlValue::Null,
            SqlValue::Integer(n) => SqlValue::Integer(*n),
            SqlValue::Text(t) => SqlValue::Text(t@),
        }
    }
}

/// A statement with the values of its parameters, in their order.
#[verifier::ext_equal]
pub struct Statement<S = String, P = Vec<SqlValue>> {
    pub sql: S,
    pub params: P,
}

pub type StatementModel = Statement<Seq<char>, Seq<SqlModel>>;

pub type Steps = Seq<StatementModel>;

impl DeepView for Statement<String, Vec<SqlValue>> {
    type V = StatementModel;

    open spec fn deep_view(&self) -> StatementModel {
        Statement { sql: self.sql@, params: self.params.deep_view() }
    }
}

pub open spec fn plain(sql: Seq<char>) -> StatementModel {
    Statement { sql, params: Seq::empty() }
}

fn plain_statement(sql: String) -> (r: Statement)
    ensures
        r.deep_view() == plain(sql@),
{
    let r = Statement { sql, params: Vec::new() };
    assert(r.params.deep_view() == Seq::<SqlModel>::empty());
    r
}

fn text_value(s: &str) -> (r: SqlValue)
    ensures
        r.deep_view() == SqlModel::Text(s@),
{
    SqlValue::Text(s.to_owned())
}

/// A count as the database keeps it.
pub open spec fn whole(n: usize) -> SqlModel {
    SqlValue::Integer(n as i64)
}

fn whole_value(n: usize) -> (r: SqlValue)
    ensures
        r.deep_view() == whole(n),
{
    SqlValue::Integer(n as i64)
}

pub open spec fn flag(b: bool) -> SqlModel {
    SqlValue::Integer(
        if b {
            1
        } else {
            0
        },
    )
}

fn flag_value(b: bool) -> (r: SqlValue)
    ensures
        r.deep_view() == flag(b),
{
    SqlValue::Integer(
        if b {
            1
        } else {
            0
        },
    )
}

/// Adds some statements to a list.
fn add_all(out: &mut Vec<Statement>, more: Vec<Statement>)
    ensures
        final(out).deep_view() == old(out).deep_view() + more.deep_view(),
{
    let ghost a = out.deep_view();
    let ghost b = more.deep_view();
    let mut more = more;
    out.append(&mut more);
    assert(out.deep_view() == a + b);
}

// ----- The graph -----

pub open spec fn sheet_id(sheet: Seq<char>) -> Seq<char> {
    "sheet:"@ + sheet
}

pub fn graph_sheet_id(sheet_name: &str) -> (r: String)
    ensures
        r@ == sheet_id(sheet_name@),
{
    let mut out = "sheet:".to_owned();
    out.append(sheet_name);
    out
}

pub open spec fn cell_id(k: Key<Seq<char>>) -> Seq<char> {
    k.sheet + "!"@ + coord::a1_text(k.row, k.col)
}

pub fn graph_cell_id(k: &Key) -> (r: String)
    ensures
        r@ == cell_id(k.deep_view()),
{
    let mut out = k.sheet.clone();
    out.append("!");
    out.append(&coord::cell_name(k.row, k.col));
    out
}

/// The node of something in the graph; a node that is there already stays.
pub open spec fn node(namespace: Seq<char>, id: Seq<char>, label: Seq<char>) -> StatementModel {
    Statement {
        sql: "INSERT OR IGNORE INTO ss_graph_node(namespace, node_id, label) VALUES (?1, ?2, ?3)"@,
        params: seq![SqlValue::Text(namespace), SqlValue::Text(id), SqlValue::Text(label)],
    }
}

fn insert_graph_node(namespace: &str, node_id: &str, label: &str) -> (r: Statement)
    ensures
        r.deep_view() == node(namespace@, node_id@, label@),
{
    let params: Vec<SqlValue> = vec![
        text_value(namespace),
        text_value(node_id),
        text_value(label),
    ];
    let r = Statement {
        sql:
            "INSERT OR IGNORE INTO ss_graph_node(namespace, node_id, label) VALUES (?1, ?2, ?3)".to_owned(),
        params,
    };
    assert(r.deep_view() == node(namespace@, node_id@, label@));
    r
}

pub open spec fn edge(
    src_namespace: Seq<char>,
    src: Seq<char>,
    dst_namespace: Seq<char>,
    dst: Seq<char>,
    kind: Seq<char>,
) -> StatementModel {
    Statement {
        sql: "INSERT INTO ss_graph_edge(src_namespace, src_id, dst_namespace, dst_id, kind) VALUES (?1, ?2, ?3, ?4, ?5)"@,
        params: seq![
            SqlValue::Text(src_namespace),
            SqlValue::Text(src),
            SqlValue::Text(dst_namespace),
            SqlValue::Text(dst),
            SqlValue::Text(kind),
        ],
    }
}

fn insert_graph_edge(
    src_namespace: &str,
    src_id: &str,
    dst_namespace: &str,
    dst_id: &str,
    kind: &str,
) -> (r: Statement)
    ensures
        r.deep_view() == edge(src_namespace@, src_id@, dst_namespace@, dst_id@, kind@),
{
    let params: Vec<SqlValue> = vec![
        text_value(src_namespace),
        text_value(src_id),
        text_value(dst_namespace),
        text_value(dst_id),
        text_value(kind),
    ];
    let r = Statement {
        sql:
            "INSERT INTO ss_graph_edge(src_namespace, src_id, dst_namespace, dst_id, kind) VALUES (?1, ?2, ?3, ?4, ?5)".to_owned(),
        params,
    };
    assert(r.deep_view() == edge(src_namespace@, src_id@, dst_namespace@, dst_id@, kind@));
    r
}

// ----- Order -----

pub open spec fn entry_spot<V>(s: Seq<(Key<Seq<char>>, V)>, k: Key<Seq<char>>) -> int
    decreases s.len(),
{
    if s.len() == 0 {
        0
    } else if recalc::key_before(k, s.last().0) {
        entry_spot(s.drop_last(), k)
    } else {
        s.len() as int
    }
}

/// Entries in the order of their cells: by sheet, row and column.
pub open spec fn in_cell_order<V>(s: Seq<(Key<Seq<char>>, V)>) -> Seq<(Key<Seq<char>>, V)>
    decreases s.len(),
{
    if s.len() == 0 {
        s
    } else {
        let done = in_cell_order(s.drop_last());
        done.insert(entry_spot(done, s.last().0), s.last())
    }
}

fn sort_entries<V: Copied>(v: &Vec<(Key, V)>) -> (r: Vec<(Key, V)>)
    ensures
        r.deep_view() == in_cell_order(v.deep_view()),
{
    let ghost all = v.deep_view();
    let mut out: Vec<(Key, V)> = Vec::new();
    let mut i: usize = 0;
    assert(out.deep_view() == Seq::<(Key<Seq<char>>, V::V)>::empty());
    assert(all.take(0) == Seq::<(Key<Seq<char>>, V::V)>::empty());
    while i < v.len()
        invariant
            i <= v.len(),
            all == v.deep_view(),
            out.deep_view() == in_cell_order(all.take(i as int)),
        decreases v.len() - i,
    {
        assert(all.take(i + 1).drop_last() == all.take(i as int));
        assert(all.take(i + 1).last() == v@[i as int].deep_view());
        let x = v[i].copied();
        let ghost done = out.deep_view();
        let mut at: usize = out.len();
        assert(done.take(at as int) == done);
        while at > 0 && recalc::key_is_before(&x.0, &out[at - 1].0)
            invariant
                at <= out.len(),
                done == out.deep_view(),
                entry_spot(done, x.0.deep_view()) == entry_spot(
                    done.take(at as int),
                    x.0.deep_view(),
                ),
            decreases at,
        {
            assert(done.take(at as int).last() == out@[at - 1].deep_view());
            assert(done.take(at as int).drop_last() == done.take(at - 1));
            at = at - 1;
        }
        if at > 0 {
            assert(done.take(at as int).last() == out@[at - 1].deep_view());
        }
        out.insert(at, x);
        assert(out.deep_view() == done.insert(at as int, x.deep_view()));
        i = i + 1;
    }
    assert(all.take(all.len() as int) == all);
    out
}

proof fn lemma_entry_spot<V>(s: Seq<(Key<Seq<char>>, V)>, k: Key<Seq<char>>)
    ensures
        0 <= entry_spot(s, k) <= s.len(),
    decreases s.len(),
{
    if s.len() > 0 {
        lemma_entry_spot(s.drop_last(), k);
    }
}

pub open spec fn entry_cells<V>(s: Seq<(Key<Seq<char>>, V)>) -> Keys {
    Seq::new(s.len(), |i: int| s[i].0)
}

proof fn lemma_entry_spot_is_place<V>(s: Seq<(Key<Seq<char>>, V)>, k: Key<Seq<char>>)
    ensures
        entry_spot(s, k) == recalc::key_place(entry_cells(s), k),
    decreases s.len(),
{
    if s.len() > 0 {
        lemma_entry_spot_is_place(s.drop_last(), k);
        assert(entry_cells(s).drop_last() == entry_cells(s.drop_last()));
    }
}

/// Entries put in order come by sheet, row and column.
pub proof fn law_ordered_entries_ascend<V>(s: Seq<(Key<Seq<char>>, V)>)
    ensures
        entry_cells(in_cell_order(s)) == recalc::sorted_keys(entry_cells(s)),
        recalc::cells_ascend(entry_cells(in_cell_order(s))),
    decreases s.len(),
{
    if s.len() == 0 {
        assert(entry_cells(in_cell_order(s)) == Keys::empty());
        assert(entry_cells(s) == Keys::empty());
    } else {
        let rest = s.drop_last();
        law_ordered_entries_ascend(rest);
        let done = in_cell_order(rest);
        lemma_entry_spot(done, s.last().0);
        lemma_entry_spot_is_place(done, s.last().0);
        assert(entry_cells(s).drop_last() == entry_cells(rest));
        let at = entry_spot(done, s.last().0);
        assert(entry_cells(done.insert(at, s.last())) == entry_cells(done).insert(at, s.last().0));
    }
    recalc::law_sorted_cells_ascend(entry_cells(s));
}

/// Putting entries in order neither loses nor adds any.
pub proof fn law_order_keeps_entries<V>(s: Seq<(Key<Seq<char>>, V)>)
    ensures
        in_cell_order(s).to_multiset() == s.to_multiset(),
        in_cell_order(s).len() == s.len(),
    decreases s.len(),
{
    if s.len() > 0 {
        let rest = s.drop_last();
        law_order_keeps_entries(rest);
        let done = in_cell_order(rest);
        let at = entry_spot(done, s.last().0);
        lemma_entry_spot(done, s.last().0);
        vstd::seq_lib::to_multiset_build(rest, s.last());
        assert(rest.push(s.last()) == s);
        let t = done.insert(at, s.last());
        assert(t.remove(at) == done);
        vstd::seq_lib::to_multiset_remove(t, at);
        t.to_multiset_ensures();
        assert(t.contains(t[at]));
        assert(t.to_multiset().count(s.last()) > 0);
        assert(t.to_multiset().remove(s.last()).insert(s.last()) =~= t.to_multiset());
    }
}

// ----- Rows -----

pub open spec fn drop_step(view: Seq<char>) -> Steps {
    seq![plain(sqltext::drop_view_text(view))]
}

fn drop_step_of(view: &String) -> (r: Vec<Statement>)
    ensures
        r.deep_view() == drop_step(view@),
{
    let r: Vec<Statement> = vec![plain_statement(sqltext::drop_view_statement(view))];
    assert(r.deep_view() == drop_step(view@));
    r
}

/// The old views dropped.
pub open spec fn drop_steps(list: Seq<Seq<char>>, n: int) -> Steps
    decreases n,
{
    if n <= 0 {
        Seq::empty()
    } else {
        drop_steps(list, n - 1) + drop_step(list[n - 1])
    }
}

fn drop_steps_of(list: &Vec<String>) -> (r: Vec<Statement>)
    ensures
        r.deep_view() == drop_steps(list.deep_view(), list.deep_view().len() as int),
{
    let ghost all = list.deep_view();
    let mut out: Vec<Statement> = Vec::new();
    assert(out.deep_view() == Steps::empty());
    let mut i: usize = 0;
    while i < list.len()
        invariant
            i <= list.len(),
            all == list.deep_view(),
            out.deep_view() == drop_steps(all, i as int),
        decreases list.len() - i,
    {
        assert(all[i as int] == list@[i as int].deep_view());
        add_all(&mut out, drop_step_of(&list[i]));
        i = i + 1;
    }
    out
}

/// All rows of an earlier snapshot removed, and the version of the tables noted.
pub open spec fn clearing_steps() -> Steps {
    seq![
        plain("DELETE FROM ss_graph_edge"@),
        plain("DELETE FROM ss_graph_node"@),
        plain("DELETE FROM ss_formula_edge"@),
        plain("DELETE FROM ss_audit_event"@),
        plain("DELETE FROM ss_shadow_meta"@),
        plain("DELETE FROM ss_cell_snapshot"@),
        plain("DELETE FROM ss_sheet"@),
        plain("DELETE FROM ss_session"@),
        plain("DELETE FROM ss_workbook"@),
        plain(
            "INSERT OR REPLACE INTO ss_migration(version, name) VALUES (1, 'phase7_runtime_audit_graph_snapshot')"@,
        ),
    ]
}

fn clearing_steps_of() -> (r: Vec<Statement>)
    ensures
        r.deep_view() == clearing_steps(),
{
    let r: Vec<Statement> = vec![
        plain_statement("DELETE FROM ss_graph_edge".to_owned()),
        plain_statement("DELETE FROM ss_graph_node".to_owned()),
        plain_statement("DELETE FROM ss_formula_edge".to_owned()),
        plain_statement("DELETE FROM ss_audit_event".to_owned()),
        plain_statement("DELETE FROM ss_shadow_meta".to_owned()),
        plain_statement("DELETE FROM ss_cell_snapshot".to_owned()),
        plain_statement("DELETE FROM ss_sheet".to_owned()),
        plain_statement("DELETE FROM ss_session".to_owned()),
        plain_statement("DELETE FROM ss_workbook".to_owned()),
        plain_statement(
            "INSERT OR REPLACE INTO ss_migration(version, name) VALUES (1, 'phase7_runtime_audit_graph_snapshot')".to_owned(),
        ),
    ];
    assert(r.deep_view() == clearing_steps());
    r
}

/// The row of the workbook and of the session, and the node of the workbook.
pub open spec fn workbook_steps(m: EngineModel) -> Steps {
    seq![
        Statement {
            sql: "INSERT INTO ss_workbook(id, source_path, sheet_count, cell_count, formula_count) VALUES (1, ?1, ?2, ?3, ?4)"@,
            params: seq![
                SqlModel::Text(package::or_text(m.source_path, Seq::empty())),
                whole(m.sheets.len() as usize),
                whole(m.cells.len() as usize),
                whole(m.formulas.len() as usize),
            ],
        },
        Statement {
            sql: "INSERT INTO ss_session(id, workbook_id, state, modified_count, dirty_count) VALUES ('active', 1, 'snapshot', ?1, ?2)"@,
            params: seq![whole(m.modified.len() as usize), whole(m.dirty.len() as usize)],
        },
        node("workbook"@, "1"@, "workbook"@),
    ]
}

impl SheetShadowEngine {
    fn source_text(&self) -> (r: String)
        ensures
            r@ == package::or_text(self.deep_view().source_path, Seq::empty()),
    {
        match &self.source_path {
            Some(t) => t.clone(),
            None => String::new(),
        }
    }

    fn workbook_steps_of(&self) -> (r: Vec<Statement>)
        ensures
            r.deep_view() == workbook_steps(self.deep_view()),
    {
        let ghost m = self.deep_view();
        assert(m.sheets.len() == self.sheets.len());
        assert(m.cells.len() == self.cells.len());
        assert(m.formulas.len() == self.formulas.len());
        assert(m.modified.len() == self.modified.len());
        assert(m.dirty.len() == self.dirty.len());
        let workbook: Vec<SqlValue> = vec![
            SqlValue::Text(self.source_text()),
            whole_value(self.sheets.len()),
            whole_value(self.cells.len()),
            whole_value(self.formulas.len()),
        ];
        assert(workbook.deep_view() == workbook_steps(m)[0].params);
        let session: Vec<SqlValue> = vec![
            whole_value(self.modified.len()),
            whole_value(self.dirty.len()),
        ];
        assert(session.deep_view() == workbook_steps(m)[1].params);
        let r: Vec<Statement> = vec![
            Statement {
                sql:
                    "INSERT INTO ss_workbook(id, source_path, sheet_count, cell_count, formula_count) VALUES (1, ?1, ?2, ?3, ?4)".to_owned(),
                params: workbook,
            },
            Statement {
                sql:
                    "INSERT INTO ss_session(id, workbook_id, state, modified_count, dirty_count) VALUES ('active', 1, 'snapshot', ?1, ?2)".to_owned(),
                params: session,
            },
            insert_graph_node("workbook", "1", "workbook"),
        ];
        assert(r.deep_view() == workbook_steps(m));
        r
    }
}

/// The row of a sheet, its node and its edge.
pub open spec fn sheet_row(s: SheetInfo<Seq<char>>, i: int, table: Seq<char>) -> Steps {
    seq![
        Statement {
            sql: "INSERT INTO ss_sheet(workbook_id, sheet_index, name, path, table_name) VALUES (1, ?1, ?2, ?3, ?4)"@,
            params: seq![
                whole(i as usize),
                SqlModel::Text(s.name),
                SqlModel::Text(s.path),
                SqlModel::Text(table),
            ],
        },
        node("sheet"@, sheet_id(s.name), s.name),
        edge("workbook"@, "1"@, "sheet"@, sheet_id(s.name), "contains"@),
    ]
}

fn sheet_row_of(s: &SheetInfo, i: usize, table: &str) -> (r: Vec<Statement>)
    ensures
        r.deep_view() == sheet_row(s.deep_view(), i as int, table@),
{
    let id = graph_sheet_id(&s.name);
    let params: Vec<SqlValue> = vec![
        whole_value(i),
        text_value(&s.name),
        text_value(&s.path),
        text_value(table),
    ];
    let ghost given = seq![
        whole(i),
        SqlModel::Text(s.name@),
        SqlModel::Text(s.path@),
        SqlModel::Text(table@),
    ];
    assert(params.deep_view() == given);
    let first = Statement {
        sql: "INSERT INTO ss_sheet(workbook_id, sheet_index, name, path, table_name) VALUES (1, ?1, ?2, ?3, ?4)".to_owned(),
        params,
    };
    let r: Vec<Statement> = vec![
        first,
        insert_graph_node("sheet", &id, &s.name),
        insert_graph_edge("workbook", "1", "sheet", &id, "contains"),
    ];
    assert(r.deep_view() == sheet_row(s.deep_view(), i as int, table@));
    r
}

/// The rows of the first `n` sheets.
pub open spec fn sheet_rows(sheets: SheetsModel, tables: FieldsModel, n: int) -> Fallible<Steps>
    decreases n,
{
    if n <= 0 {
        Ok(Seq::empty())
    } else {
        match sheet_rows(sheets, tables, n - 1) {
            Err(e) => Err(e),
            Ok(done) => match entries::get(tables, sheets[n - 1].name) {
                None => Err(ShadowError::Runtime("missing SQLite store table mapping"@)),
                Some(table) => Ok(done + sheet_row(sheets[n - 1], n - 1, table)),
            },
        }
    }
}

proof fn lemma_sheet_rows_stay_failed(sheets: SheetsModel, tables: FieldsModel, i: int, n: int)
    requires
        0 <= i <= n,
        sheet_rows(sheets, tables, i) is Err,
    ensures
        sheet_rows(sheets, tables, n) == sheet_rows(sheets, tables, i),
    decreases n,
{
    if i < n {
        lemma_sheet_rows_stay_failed(sheets, tables, i, n - 1);
    }
}

pub open spec fn steps_view(r: Result<Vec<Statement>, ShadowError>) -> Fallible<Steps> {
    match r {
        Ok(v) => Ok(v.deep_view()),
        Err(e) => Err(e.deep_view()),
    }
}

fn sheet_rows_of(sheets: &Vec<SheetInfo>, tables: &Fields) -> (r: Result<
    Vec<Statement>,
    ShadowError,
>)
    ensures
        steps_view(r) == sheet_rows(
            sheets.deep_view(),
            tables.deep_view(),
            sheets.deep_view().len() as int,
        ),
{
    let ghost all = sheets.deep_view();
    let mut out: Vec<Statement> = Vec::new();
    assert(out.deep_view() == Steps::empty());
    let mut i: usize = 0;
    while i < sheets.len()
        invariant
            i <= sheets.len(),
            all == sheets.deep_view(),
            sheet_rows(all, tables.deep_view(), i as int) == Ok::<Steps, ShadowError<Seq<char>>>(
                out.deep_view(),
            ),
        decreases sheets.len() - i,
    {
        assert(all[i as int] == sheets@[i as int].deep_view());
        match entries::map_get(tables, &sheets[i].name) {
            Some(table) => add_all(&mut out, sheet_row_of(&sheets[i], i, table)),
            None => {
                proof {
                    lemma_sheet_rows_stay_failed(
                        all,
                        tables.deep_view(),
                        i + 1,
                        all.len() as int,
                    );
                }
                return Err(
                    ShadowError::Runtime("missing SQLite store table mapping".to_owned()),
                );
            },
        }
        i = i + 1;
    }
    Ok(out)
}

/// The row of a cell, its node and its edge.
pub open spec fn cell_row(formulas: FormulasModel, x: (Key<Seq<char>>, Seq<char>)) -> Steps {
    seq![
        Statement {
            sql: "INSERT INTO ss_cell_snapshot(workbook_id, sheet, row_idx, col_idx, value, is_formula) VALUES (1, ?1, ?2, ?3, ?4, ?5)"@,
            params: seq![
                SqlModel::Text(x.0.sheet),
                whole(x.0.row),
                whole(x.0.col),
                SqlModel::Text(x.1),
                flag(entries::get(formulas, x.0) is Some),
            ],
        },
        node("cell"@, cell_id(x.0), cell_id(x.0)),
        edge("sheet"@, sheet_id(x.0.sheet), "cell"@, cell_id(x.0), "contains"@),
    ]
}

fn cell_row_of(formulas: &Vec<(Key, FormulaCell)>, x: &(Key, String)) -> (r: Vec<Statement>)
    ensures
        r.deep_view() == cell_row(formulas.deep_view(), x.deep_view()),
{
    let id = graph_cell_id(&x.0);
    let params: Vec<SqlValue> = vec![
        text_value(&x.0.sheet),
        whole_value(x.0.row),
        whole_value(x.0.col),
        text_value(&x.1),
        flag_value(entries::map_has(formulas, &x.0)),
    ];
    assert(params.deep_view() == cell_row(formulas.deep_view(), x.deep_view())[0].params);
    let r: Vec<Statement> = vec![
        Statement {
            sql:
                "INSERT INTO ss_cell_snapshot(workbook_id, sheet, row_idx, col_idx, value, is_formula) VALUES (1, ?1, ?2, ?3, ?4, ?5)".to_owned(),
            params,
        },
        insert_graph_node("cell", &id, &id),
        insert_graph_edge("sheet", &graph_sheet_id(&x.0.sheet), "cell", &id, "contains"),
    ];
    assert(r.deep_view() == cell_row(formulas.deep_view(), x.deep_view()));
    r
}

/// The rows of the first `n` cells.
pub open spec fn cell_rows(formulas: FormulasModel, list: Seq<(Key<Seq<char>>, Seq<char>)>, n: int) -> Steps
    decreases n,
{
    if n <= 0 {
        Seq::empty()
    } else {
        cell_rows(formulas, list, n - 1) + cell_row(formulas, list[n - 1])
    }
}

fn cell_rows_of(formulas: &Vec<(Key, FormulaCell)>, list: &Vec<(Key, String)>) -> (r: Vec<Statement>)
    ensures
        r.deep_view() == cell_rows(formulas.deep_view(), list.deep_view(), list.deep_view().len() as int),
{
    let ghost all = list.deep_view();
    let mut out: Vec<Statement> = Vec::new();
    assert(out.deep_view() == Steps::empty());
    let mut i: usize = 0;
    while i < list.len()
        invariant
            i <= list.len(),
            all == list.deep_view(),
            out.deep_view() == cell_rows(formulas.deep_view(), all, i as int),
        decreases list.len() - i,
    {
        assert(all[i as int] == list@[i as int].deep_view());
        add_all(&mut out, cell_row_of(formulas, &list[i]));
        i = i + 1;
    }
    out
}

pub open spec fn style_value(style: Option<u32>) -> SqlModel {
    match style {
        Some(n) => SqlValue::Integer(n as i64),
        None => SqlValue::Null,
    }
}

fn style_value_of(style: Option<u32>) -> (r: SqlValue)
    ensures
        r.deep_view() == style_value(style),
{
    match style {
        Some(n) => SqlValue::Integer(n as i64),
        None => SqlValue::Null,
    }
}

/// The row of what is known of a cell.
pub open spec fn meta_row(x: (Key<Seq<char>>, ShadowMetaRecord<Seq<char>>)) -> Steps {
    seq![
        Statement {
            sql: "INSERT INTO ss_shadow_meta(workbook_id, sheet, row_idx, col_idx, cell_type, style_id, number_format, original_formula, cached_value_before, cached_value_after, merge_range, is_modified, is_dirty) VALUES (1, ?1, ?2, ?3, ?4, ?5, ?6, ?7, ?8, ?9, ?10, ?11, ?12)"@,
            params: seq![
                SqlModel::Text(x.0.sheet),
                whole(x.0.row),
                whole(x.0.col),
                SqlModel::Text(x.1.cell_type),
                style_value(x.1.style_id),
                SqlModel::Text(x.1.number_format),
                SqlModel::Text(x.1.original_formula),
                SqlModel::Text(x.1.cached_value_before),
                SqlModel::Text(x.1.cached_value_after),
                SqlModel::Text(x.1.merge_range),
                flag(x.1.is_modified),
                flag(x.1.is_dirty),
            ],
        },
    ]
}

fn meta_row_of(x: &(Key, ShadowMetaRecord)) -> (r: Vec<Statement>)
    ensures
        r.deep_view() == meta_row(x.deep_view()),
{
    let params: Vec<SqlValue> = vec![
        text_value(&x.0.sheet),
        whole_value(x.0.row),
        whole_value(x.0.col),
        text_value(&x.1.cell_type),
        style_value_of(x.1.style_id),
        text_value(&x.1.number_format),
        text_value(&x.1.original_formula),
        text_value(&x.1.cached_value_before),
        text_value(&x.1.cached_value_after),
        text_value(&x.1.merge_range),
        flag_value(x.1.is_modified),
        flag_value(x.1.is_dirty),
    ];
    assert(params.deep_view() == meta_row(x.deep_view())[0].params);
    let r: Vec<Statement> = vec![
        Statement {
            sql:
                "INSERT INTO ss_shadow_meta(workbook_id, sheet, row_idx, col_idx, cell_type, style_id, number_format, original_formula, cached_value_before, cached_value_after, merge_range, is_modified, is_dirty) VALUES (1, ?1, ?2, ?3, ?4, ?5, ?6, ?7, ?8, ?9, ?10, ?11, ?12)".to_owned(),
            params,
        },
    ];
    assert(r.deep_view() == meta_row(x.deep_view()));
    r
}

/// The rows of what is known of the first `n` cells.
pub open spec fn meta_rows(list: Seq<(Key<Seq<char>>, ShadowMetaRecord<Seq<char>>)>, n: int) -> Steps
    decreases n,
{
    if n <= 0 {
        Seq::empty()
    } else {
        meta_rows(list, n - 1) + meta_row(list[n - 1])
    }
}

fn meta_rows_of(list: &Vec<(Key, ShadowMetaRecord)>) -> (r: Vec<Statement>)
    ensures
        r.deep_view() == meta_rows(list.deep_view(), list.deep_view().len() as int),
{
    let ghost all = list.deep_view();
    let mut out: Vec<Statement> = Vec::new();
    assert(out.deep_view() == Steps::empty());
    let mut i: usize = 0;
    while i < list.len()
        invariant
            i <= list.len(),
            all == list.deep_view(),
            out.deep_view() == meta_rows(all, i as int),
        decreases list.len() - i,
    {
        assert(all[i as int] == list@[i as int].deep_view());
        add_all(&mut out, meta_row_of(&list[i]));
        i = i + 1;
    }
    out
}

pub open spec fn audit_id(i: int) -> Seq<char> {
    "audit:"@ + text::decimal((i + 1) as nat)
}

/// The row of an event of the trail, its node and its edge.
pub open spec fn audit_row(e: AuditEvent<Seq<char>>, i: int) -> Steps {
    seq![
        Statement {
            sql: "INSERT INTO ss_audit_event(id, workbook_id, event_type, sheet, row_idx, col_idx, old_value, new_value, formula, reason) VALUES (?1, 1, ?2, ?3, ?4, ?5, ?6, ?7, ?8, ?9)"@,
            params: seq![
                whole((i + 1) as usize),
                SqlModel::Text(e.event_type),
                SqlModel::Text(e.sheet),
                whole(e.row),
                whole(e.col),
                SqlModel::Text(e.old_value),
                SqlModel::Text(e.new_value),
                SqlModel::Text(e.formula),
                SqlModel::Text(e.reason),
            ],
        },
        node("audit_event"@, audit_id(i), e.event_type),
        edge(
            "cell"@,
            cell_id(coord::key(e.sheet, e.row, e.col)),
            "audit_event"@,
            audit_id(i),
            "modified_by"@,
        ),
    ]
}

fn audit_row_of(e: &AuditEvent, i: usize) -> (r: Vec<Statement>)
    requires
        i < usize::MAX,
    ensures
        r.deep_view() == audit_row(e.deep_view(), i as int),
{
    let mut id = "audit:".to_owned();
    id.append(&text::size_text(i + 1));
    let params: Vec<SqlValue> = vec![
        whole_value(i + 1),
        text_value(&e.event_type),
        text_value(&e.sheet),
        whole_value(e.row),
        whole_value(e.col),
        text_value(&e.old_value),
        text_value(&e.new_value),
        text_value(&e.formula),
        text_value(&e.reason),
    ];
    assert(params.deep_view() == audit_row(e.deep_view(), i as int)[0].params);
    let r: Vec<Statement> = vec![
        Statement {
            sql:
                "INSERT INTO ss_audit_event(id, workbook_id, event_type, sheet, row_idx, col_idx, old_value, new_value, formula, reason) VALUES (?1, 1, ?2, ?3, ?4, ?5, ?6, ?7, ?8, ?9)".to_owned(),
            params,
        },
        insert_graph_node("audit_event", &id, &e.event_type),
        insert_graph_edge(
            "cell",
            &graph_cell_id(&coord::key_of(&e.sheet, e.row, e.col)),
            "audit_event",
            &id,
            "modified_by",
        ),
    ];
    assert(r.deep_view() == audit_row(e.deep_view(), i as int));
    r
}

/// The rows of the first `n` events of the trail.
pub open spec fn audit_rows(list: Seq<AuditEvent<Seq<char>>>, n: int) -> Steps
    decreases n,
{
    if n <= 0 {
        Seq::empty()
    } else {
        audit_rows(list, n - 1) + audit_row(list[n - 1], n - 1)
    }
}

fn audit_rows_of(list: &Vec<AuditEvent>) -> (r: Vec<Statement>)
    ensures
        r.deep_view() == audit_rows(list.deep_view(), list.deep_view().len() as int),
{
    let ghost all = list.deep_view();
    let mut out: Vec<Statement> = Vec::new();
    assert(out.deep_view() == Steps::empty());
    let mut i: usize = 0;
    while i < list.len()
        invariant
            i <= list.len(),
            all == list.deep_view(),
            out.deep_view() == audit_rows(all, i as int),
        decreases list.len() - i,
    {
        assert(all[i as int] == list@[i as int].deep_view());
        add_all(&mut out, audit_row_of(&list[i], i));
        i = i + 1;
    }
    out
}

/// The row of a dependency of a formula, and its edge.
pub open spec fn precedent_row(k: Key<Seq<char>>, dep: Key<Seq<char>>) -> Steps {
    seq![
        Statement {
            sql: "INSERT INTO ss_formula_edge(workbook_id, formula_sheet, formula_row, formula_col, precedent_sheet, precedent_row, precedent_col) VALUES (1, ?1, ?2, ?3, ?4, ?5, ?6)"@,
            params: seq![
                SqlModel::Text(k.sheet),
                whole(k.row),
                whole(k.col),
                SqlModel::Text(dep.sheet),
                whole(dep.row),
                whole(dep.col),
            ],
        },
        edge("formula"@, cell_id(k), "cell"@, cell_id(dep), "depends_on"@),
    ]
}

fn precedent_row_of(k: &Key, dep: &Key) -> (r: Vec<Statement>)
    ensures
        r.deep_view() == precedent_row(k.deep_view(), dep.deep_view()),
{
    let params: Vec<SqlValue> = vec![
        text_value(&k.sheet),
        whole_value(k.row),
        whole_value(k.col),
        text_value(&dep.sheet),
        whole_value(dep.row),
        whole_value(dep.col),
    ];
    assert(params.deep_view() == precedent_row(k.deep_view(), dep.deep_view())[0].params);
    let r: Vec<Statement> = vec![
        Statement {
            sql:
                "INSERT INTO ss_formula_edge(workbook_id, formula_sheet, formula_row, formula_col, precedent_sheet, precedent_row, precedent_col) VALUES (1, ?1, ?2, ?3, ?4, ?5, ?6)".to_owned(),
            params,
        },
        insert_graph_edge("formula", &graph_cell_id(k), "cell", &graph_cell_id(dep), "depends_on"),
    ];
    assert(r.deep_view() == precedent_row(k.deep_view(), dep.deep_view()));
    r
}

/// The rows of the first `n` dependencies of a formula.
pub open spec fn precedent_rows(k: Key<Seq<char>>, list: Seq<Key<Seq<char>>>, n: int) -> Steps
    decreases n,
{
    if n <= 0 {
        Seq::empty()
    } else {
        precedent_rows(k, list, n - 1) + precedent_row(k, list[n - 1])
    }
}

fn precedent_rows_of(k: &Key, list: &Vec<Key>) -> (r: Vec<Statement>)
    ensures
        r.deep_view() == precedent_rows(k.deep_view(), list.deep_view(), list.deep_view().len() as int),
{
    let ghost all = list.deep_view();
    let mut out: Vec<Statement> = Vec::new();
    assert(out.deep_view() == Steps::empty());
    let mut i: usize = 0;
    while i < list.len()
        invariant
            i <= list.len(),
            all == list.deep_view(),
            out.deep_view() == precedent_rows(k.deep_view(), all, i as int),
        decreases list.len() - i,
    {
        assert(all[i as int] == list@[i as int].deep_view());
        add_all(&mut out, precedent_row_of(k, &list[i]));
        i = i + 1;
    }
    out
}

/// The node and the edges of a formula, and the rows of what it depends on.
pub open spec fn formula_row(x: (Key<Seq<char>>, FormulaModel)) -> Steps {
    let deps = recalc::sorted_keys(x.1.deps);
    seq![
        node("formula"@, cell_id(x.0), x.1.formula),
        edge("cell"@, cell_id(x.0), "formula"@, cell_id(x.0), "contains"@),
    ] + precedent_rows(x.0, deps, deps.len() as int)
}

fn formula_row_of(x: &(Key, FormulaCell)) -> (r: Vec<Statement>)
    ensures
        r.deep_view() == formula_row(x.deep_view()),
{
    let id = graph_cell_id(&x.0);
    let mut out: Vec<Statement> = vec![
        insert_graph_node("formula", &id, &x.1.formula),
        insert_graph_edge("cell", &id, "formula", &id, "contains"),
    ];
    assert(out.deep_view() == seq![
        node("formula"@, cell_id(x.0.deep_view()), x.1.formula@),
        edge(
            "cell"@,
            cell_id(x.0.deep_view()),
            "formula"@,
            cell_id(x.0.deep_view()),
            "contains"@,
        ),
    ]);
    let deps = recalc::sort_keys(&x.1.deps);
    add_all(&mut out, precedent_rows_of(&x.0, &deps));
    out
}

/// The rows of the first `n` formulas.
pub open spec fn formula_rows(list: Seq<(Key<Seq<char>>, FormulaModel)>, n: int) -> Steps
    decreases n,
{
    if n <= 0 {
        Seq::empty()
    } else {
        formula_rows(list, n - 1) + formula_row(list[n - 1])
    }
}

fn formula_rows_of(list: &Vec<(Key, FormulaCell)>) -> (r: Vec<Statement>)
    ensures
        r.deep_view() == formula_rows(list.deep_view(), list.deep_view().len() as int),
{
    let ghost all = list.deep_view();
    let mut out: Vec<Statement> = Vec::new();
    assert(out.deep_view() == Steps::empty());
    let mut i: usize = 0;
    while i < list.len()
        invariant
            i <= list.len(),
            all == list.deep_view(),
            out.deep_view() == formula_rows(all, i as int),
        decreases list.len() - i,
    {
        assert(all[i as int] == list@[i as int].deep_view());
        add_all(&mut out, formula_row_of(&list[i]));
        i = i + 1;
    }
    out
}

// ----- Bounds and views -----

/// The last row and the last column of a sheet that hold a cell.
pub open spec fn bounds(cells: CellsModel, sheet: Seq<char>) -> (usize, usize)
    decreases cells.len(),
{
    if cells.len() == 0 {
        (0, 0)
    } else {
        let done = bounds(cells.drop_last(), sheet);
        let k = cells.last().0;
        if k.sheet == sheet {
            (
                if k.row > done.0 {
                    k.row
                } else {
                    done.0
                },
                if k.col > done.1 {
                    k.col
                } else {
                    done.1
                },
            )
        } else {
            done
        }
    }
}

pub fn sheet_bounds(cells: &Vec<(Key, String)>, sheet_name: &str) -> (r: (usize, usize))
    ensures
        r == bounds(cells.deep_view(), sheet_name@),
{
    let ghost all = cells.deep_view();
    let mut max_row: usize = 0;
    let mut max_col: usize = 0;
    let mut i: usize = 0;
    assert(all.take(0).len() == 0);
    while i < cells.len()
        invariant
            i <= cells.len(),
            all == cells.deep_view(),
            (max_row, max_col) == bounds(all.take(i as int), sheet_name@),
        decreases cells.len() - i,
    {
        assert(all.take(i + 1).drop_last() == all.take(i as int));
        assert(all.take(i + 1).last() == cells@[i as int].deep_view());
        let k = &cells[i].0;
        if text::same(&k.sheet, sheet_name) {
            if k.row > max_row {
                max_row = k.row;
            }
            if k.col > max_col {
                max_col = k.col;
            }
        }
        i = i + 1;
    }
    assert(all.take(all.len() as int) == all);
    (max_row, max_col)
}

/// Every cell of a sheet lies within the bounds of the sheet.
pub proof fn law_bounds_hold_every_cell(cells: CellsModel, sheet: Seq<char>, i: int)
    requires
        0 <= i < cells.len(),
        cells[i].0.sheet == sheet,
    ensures
        cells[i].0.row <= bounds(cells, sheet).0,
        cells[i].0.col <= bounds(cells, sheet).1,
    decreases cells.len(),
{
    if i < cells.len() - 1 {
        law_bounds_hold_every_cell(cells.drop_last(), sheet, i);
    }
}

pub open spec fn at_least_one(n: usize) -> usize {
    if n < 1 {
        1
    } else {
        n
    }
}

/// The views of the first `n` sheets made anew.
pub open spec fn view_steps(
    sheets: SheetsModel,
    cells: CellsModel,
    tables: FieldsModel,
    n: int,
) -> Fallible<Steps>
    decreases n,
{
    if n <= 0 {
        Ok(Seq::empty())
    } else {
        match view_steps(sheets, cells, tables, n - 1) {
            Err(e) => Err(e),
            Ok(done) => match entries::get(tables, sheets[n - 1].name) {
                None => Err(ShadowError::Runtime("missing SQLite store table mapping"@)),
                Some(table) => Ok(
                    done + seq![
                        plain(sqltext::drop_view_text(table)),
                        plain(
                            sqltext::view_text(
                                table,
                                sheets[n - 1].name,
                                at_least_one(bounds(cells, sheets[n - 1].name).1) as nat,
                            ),
                        ),
                    ],
                ),
            },
        }
    }
}

proof fn lemma_views_stay_failed(
    sheets: SheetsModel,
    cells: CellsModel,
    tables: FieldsModel,
    i: int,
    n: int,
)
    requires
        0 <= i <= n,
        view_steps(sheets, cells, tables, i) is Err,
    ensures
        view_steps(sheets, cells, tables, n) == view_steps(sheets, cells, tables, i),
    decreases n,
{
    if i < n {
        lemma_views_stay_failed(sheets, cells, tables, i, n - 1);
    }
}

fn create_store_sheet_views(
    sheets: &Vec<SheetInfo>,
    cells: &Vec<(Key, String)>,
    tables: &Fields,
) -> (r: Result<Vec<Statement>, ShadowError>)
    ensures
        steps_view(r) == view_steps(
            sheets.deep_view(),
            cells.deep_view(),
            tables.deep_view(),
            sheets.deep_view().len() as int,
        ),
{
    let ghost all = sheets.deep_view();
    let mut out: Vec<Statement> = Vec::new();
    assert(out.deep_view() == Steps::empty());
    let mut i: usize = 0;
    while i < sheets.len()
        invariant
            i <= sheets.len(),
            all == sheets.deep_view(),
            view_steps(all, cells.deep_view(), tables.deep_view(), i as int) == Ok::<
                Steps,
                ShadowError<Seq<char>>,
            >(out.deep_view()),
        decreases sheets.len() - i,
    {
        assert(all[i as int] == sheets@[i as int].deep_view());
        match entries::map_get(tables, &sheets[i].name) {
            Some(table) => {
                let (_, last) = sheet_bounds(cells, &sheets[i].name);
                let cols: usize = if last < 1 {
                    1
                } else {
                    last
                };
                let more: Vec<Statement> = vec![
                    plain_statement(sqltext::drop_view_statement(table)),
                    plain_statement(sqltext::view_statement(table, &sheets[i].name, cols)),
                ];
                assert(more.deep_view() == seq![
                    plain(sqltext::drop_view_text(table@)),
                    plain(sqltext::view_text(table@, sheets@[i as int].name@, cols as nat)),
                ]);
                add_all(&mut out, more);
            },
            None => {
                proof {
                    lemma_views_stay_failed(
                        all,
                        cells.deep_view(),
                        tables.deep_view(),
                        i + 1,
                        all.len() as int,
                    );
                }
                return Err(
                    ShadowError::Runtime("missing SQLite store table mapping".to_owned()),
                );
            },
        }
        i = i + 1;
    }
    Ok(out)
}

// ----- The snapshot -----

/// Everything that a snapshot runs, in its order: the old views and rows go, the rows of the
/// workbook, its sheets, cells, what is known of them, the trail and the formulas come, and
/// the views are made.
pub open spec fn snapshot_steps(m: EngineModel, old_views: Seq<Seq<char>>) -> Fallible<Steps> {
    let n = m.sheets.len() as int;
    let tables = sqltext::tables_of(m.sheets, n);
    let cells = in_cell_order(m.cells);
    let meta = in_cell_order(m.meta);
    let formulas = in_cell_order(m.formulas);
    match sheet_rows(m.sheets, tables, n) {
        Err(e) => Err(e),
        Ok(sheets) => match view_steps(m.sheets, m.cells, tables, n) {
            Err(e) => Err(e),
            Ok(views) => Ok(
                drop_steps(old_views, old_views.len() as int) + clearing_steps() + workbook_steps(m)
                    + sheets + cell_rows(m.formulas, cells, cells.len() as int) + meta_rows(
                    meta,
                    meta.len() as int,
                ) + audit_rows(m.audit_events, m.audit_events.len() as int) + formula_rows(
                    formulas,
                    formulas.len() as int,
                ) + views,
            ),
        },
    }
}

/// What there is to tell of a snapshot once it was written.
pub open spec fn snapshot_report(m: EngineModel, path: Seq<char>) -> FieldsModel {
    seq![
        ("sqlite_path"@, path),
        ("workbook_count"@, "1"@),
        ("sheet_count"@, text::decimal(m.sheets.len())),
        ("cell_count"@, text::decimal(m.cells.len())),
        ("meta_count"@, text::decimal(m.meta.len())),
        ("audit_event_count"@, text::decimal(m.audit_events.len())),
        ("formula_count"@, text::decimal(m.formulas.len())),
    ]
}

impl SheetShadowEngine {
    /// The names of the tables of the sheets.
    pub fn sqlite_table_names(&self) -> (r: Fields)
        ensures
            r.deep_view() == sqltext::tables_of(
                self.deep_view().sheets,
                self.deep_view().sheets.len() as int,
            ),
    {
        sqltext::sheet_table_map(&self.sheets)
    }

    /// What a snapshot runs, given the views of an earlier one.
    pub fn persist_sqlite_snapshot(&self, old_views: &Vec<String>) -> (r: Result<
        Vec<Statement>,
        ShadowError,
    >)
        ensures
            steps_view(r) == snapshot_steps(self.deep_view(), old_views.deep_view()),
    {
        let tables = sqltext::sheet_table_map(&self.sheets);
        let sheets = match sheet_rows_of(&self.sheets, &tables) {
            Ok(v) => v,
            Err(e) => return Err(e),
        };
        let views = match create_store_sheet_views(&self.sheets, &self.cells, &tables) {
            Ok(v) => v,
            Err(e) => return Err(e),
        };
        let mut out = drop_steps_of(old_views);
        add_all(&mut out, clearing_steps_of());
        add_all(&mut out, self.workbook_steps_of());
        add_all(&mut out, sheets);
        add_all(&mut out, cell_rows_of(&self.formulas, &sort_entries(&self.cells)));
        add_all(&mut out, meta_rows_of(&sort_entries(&self.meta)));
        add_all(&mut out, audit_rows_of(&self.audit_events));
        add_all(&mut out, formula_rows_of(&sort_entries(&self.formulas)));
        add_all(&mut out, views);
        Ok(out)
    }

    /// What there is to tell of a snapshot once it was written.
    pub fn snapshot_summary(&self, sqlite_path: &str) -> (r: Fields)
        ensures
            r.deep_view() == snapshot_report(self.deep_view(), sqlite_path@),
    {
        let ghost m = self.deep_view();
        assert(m.sheets.len() == self.sheets.len());
        assert(m.cells.len() == self.cells.len());
        assert(m.meta.len() == self.meta.len());
        assert(m.audit_events.len() == self.audit_events.len());
        assert(m.formulas.len() == self.formulas.len());
        let r: Fields = vec![
            engine::pair("sqlite_path", sqlite_path.to_owned()),
            engine::pair("workbook_count", "1".to_owned()),
            engine::pair("sheet_count", text::size_text(self.sheets.len())),
            engine::pair("cell_count", text::size_text(self.cells.len())),
            engine::pair("meta_count", text::size_text(self.meta.len())),
            engine::pair("audit_event_count", text::size_text(self.audit_events.len())),
            engine::pair("formula_count", text::size_text(self.formulas.len())),
        ];
        assert(r.deep_view() == snapshot_report(m, sqlite_path@));
        r
    }
}

proof fn lemma_sheet_rows_succeed(sheets: SheetsModel, n: int)
    requires
        0 <= n <= sheets.len(),
    ensures
        sheet_rows(sheets, sqltext::tables_of(sheets, sheets.len() as int), n) is Ok,
    decreases n,
{
    if n > 0 {
        lemma_sheet_rows_succeed(sheets, n - 1);
        sqltext::law_every_sheet_has_a_table(sheets, n - 1);
    }
}

proof fn lemma_views_succeed(sheets: SheetsModel, cells: CellsModel, n: int)
    requires
        0 <= n <= sheets.len(),
    ensures
        view_steps(sheets, cells, sqltext::tables_of(sheets, sheets.len() as int), n) is Ok,
    decreases n,
{
    if n > 0 {
        lemma_views_succeed(sheets, cells, n - 1);
        sqltext::law_every_sheet_has_a_table(sheets, n - 1);
    }
}

/// There is a snapshot of every workbook.
pub proof fn law_every_workbook_has_a_snapshot(m: EngineModel, old_views: Seq<Seq<char>>)
    ensures
        snapshot_steps(m, old_views) is Ok,
{
    lemma_sheet_rows_succeed(m.sheets, m.sheets.len() as int);
    lemma_views_succeed(m.sheets, m.cells, m.sheets.len() as int);
}

proof fn lemma_cell_row_there(formulas: FormulasModel, list: CellsModel, i: int, n: int)
    requires
        0 <= i < n,
    ensures
        cell_rows(formulas, list, n).contains(cell_row(formulas, list[i])[0]),
    decreases n,
{
    let done = cell_rows(formulas, list, n - 1);
    let more = cell_row(formulas, list[n - 1]);
    if i < n - 1 {
        lemma_cell_row_there(formulas, list, i, n - 1);
        let at = choose|at: int|
            0 <= at < done.len() && done[at] == cell_row(formulas, list[i])[0];
        assert((done + more)[at] == done[at]);
    } else {
        assert((done + more)[done.len() as int] == more[0]);
    }
}

/// A snapshot writes a row for every cell, with its place, its value and whether it has a
/// formula.
pub proof fn law_snapshot_holds_every_cell(m: EngineModel, old_views: Seq<Seq<char>>, i: int)
    requires
        0 <= i < m.cells.len(),
    ensures
        snapshot_steps(m, old_views)->Ok_0.contains(cell_row(m.formulas, m.cells[i])[0]),
{
    law_every_workbook_has_a_snapshot(m, old_views);
    let list = in_cell_order(m.cells);
    law_order_keeps_entries(m.cells);
    m.cells.to_multiset_ensures();
    list.to_multiset_ensures();
    assert(m.cells.contains(m.cells[i]));
    assert(list.to_multiset().count(m.cells[i]) > 0);
    assert(list.contains(m.cells[i]));
    let j = choose|j: int| 0 <= j < list.len() && list[j] == m.cells[i];
    lemma_cell_row_there(m.formulas, list, j, list.len() as int);
    let rows = cell_rows(m.formulas, list, list.len() as int);
    let at = choose|at: int|
        0 <= at < rows.len() && rows[at] == cell_row(m.formulas, m.cells[i])[0];
    let n = m.sheets.len() as int;
    let tables = sqltext::tables_of(m.sheets, n);
    let before = drop_steps(old_views, old_views.len() as int) + clearing_steps()
        + workbook_steps(m) + sheet_rows(m.sheets, tables, n)->Ok_0;
    let all = snapshot_steps(m, old_views)->Ok_0;
    assert(all[before.len() + at] == rows[at]);
}

// ----- Rows read back -----

/// A value of the database; a floating-point number comes in its shortest form.
#[verifier::ext_equal]
pub enum StoredValue<S = String> {
    Null,
    Integer(i64),
    Number(S),
    Text(S),
    Blob(usize),
}

pub type StoredModel = StoredValue<Seq<char>>;

impl DeepView for StoredValue<String> {
    type V = StoredModel;

    open spec fn deep_view(&self) -> StoredModel {
        match self {
            StoredValue::Null => StoredValue::Null,
            StoredValue::Integer(n) => StoredValue::Integer(*n),
            StoredValue::Number(t) => StoredValue::Number(t@),
            StoredValue::Text(t) => StoredValue::Text(t@),
            StoredValue::Blob(n) => StoredValue::Blob(*n),
        }
    }
}

pub open spec fn signed_text(n: int) -> Seq<char> {
    if n < 0 {
        "-"@ + text::decimal((-n) as nat)
    } else {
        text::decimal(n as nat)
    }
}

fn signed_text_of(n: i64) -> (r: String)
    ensures
        r@ == signed_text(n as int),
{
    if n >= 0 {
        return text::number_text(n as u64);
    }
    let mut out = "-".to_owned();
    let size: u64 = if n == i64::MIN {
        0x8000_0000_0000_0000
    } else {
        (-n) as u64
    };
    out.append(&text::number_text(size));
    out
}

pub open spec fn stored_text(v: StoredModel) -> Seq<char> {
    match v {
        StoredValue::Null => Seq::empty(),
        StoredValue::Integer(n) => signed_text(n as int),
        StoredValue::Number(t) => t,
        StoredValue::Text(t) => t,
        StoredValue::Blob(n) => "<blob:"@ + text::decimal(n as nat) + " bytes>"@,
    }
}

/// A value of the database as text.
pub fn sqlite_value_to_string(value: &StoredValue) -> (r: String)
    ensures
        r@ == stored_text(value.deep_view()),
{
    match value {
        StoredValue::Null => String::new(),
        StoredValue::Integer(n) => signed_text_of(*n),
        StoredValue::Number(t) => t.clone(),
        StoredValue::Text(t) => t.clone(),
        StoredValue::Blob(n) => {
            let mut out = "<blob:".to_owned();
            out.append(&text::size_text(*n));
            out.append(" bytes>");
            out
        },
    }
}

/// A row read from the database: each column under its name, the last of a name counting.
pub open spec fn row_fields(names: Seq<Seq<char>>, values: Seq<StoredModel>, n: int) -> FieldsModel
    decreases n,
{
    if n <= 0 {
        Seq::empty()
    } else {
        entries::put(
            row_fields(names, values, n - 1),
            names[n - 1],
            stored_text(
                if n - 1 < values.len() {
                    values[n - 1]
                } else {
                    StoredValue::Null
                },
            ),
        )
    }
}

pub fn read_row(names: &Vec<String>, values: &Vec<StoredValue>) -> (r: Fields)
    ensures
        r.deep_view() == row_fields(
            names.deep_view(),
            values.deep_view(),
            names.deep_view().len() as int,
        ),
{
    let ghost all = names.deep_view();
    let ghost given = values.deep_view();
    let mut out: Fields = Vec::new();
    assert(out.deep_view() == FieldsModel::empty());
    assert(given.len() == values.len());
    let mut i: usize = 0;
    while i < names.len()
        invariant
            i <= names.len(),
            all == names.deep_view(),
            given == values.deep_view(),
            given.len() == values.len(),
            out.deep_view() == row_fields(all, given, i as int),
        decreases names.len() - i,
    {
        assert(all[i as int] == names@[i as int]@);
        let value = if i < values.len() {
            assert(given[i as int] == values@[i as int].deep_view());
            sqlite_value_to_string(&values[i])
        } else {
            String::new()
        };
        entries::map_put(&mut out, names[i].clone(), value);
        i = i + 1;
    }
    out
}

// ----- Sheets as virtual tables -----

/// A sheet laid out for a virtual table.
#[verifier::ext_equal]
pub struct SheetRows<S = String, C = Vec<String>, R = Vec<Vec<String>>> {
    pub sheet_name: S,
    pub columns: C,
    pub rows: R,
}

pub type SheetRowsModel = SheetRows<Seq<char>, Seq<Seq<char>>, Seq<Seq<Seq<char>>>>;

impl DeepView for SheetRows<String, Vec<String>, Vec<Vec<String>>> {
    type V = SheetRowsModel;

    open spec fn deep_view(&self) -> SheetRowsModel {
        SheetRows {
            sheet_name: self.sheet_name@,
            columns: self.columns.deep_view(),
            rows: self.rows.deep_view(),
        }
    }
}

pub open spec fn column_names(cols: nat) -> Seq<Seq<char>> {
    Seq::new(cols, |i: int| coord::col_name((i + 1) as nat))
}

pub open spec fn row_values(cells: CellsModel, sheet: Seq<char>, row: nat, cols: nat) -> Seq<
    Seq<char>,
> {
    Seq::new(
        cols,
        |i: int| engine::value_or_empty(cells, coord::key(sheet, row as usize, (i + 1) as usize)),
    )
}

/// The cells of a sheet in rows and columns up to its bounds, at least one column wide.
pub open spec fn laid_out(cells: CellsModel, sheet: Seq<char>) -> SheetRowsModel {
    let b = bounds(cells, sheet);
    let cols = at_least_one(b.1) as nat;
    SheetRows {
        sheet_name: sheet,
        columns: column_names(cols),
        rows: Seq::new(b.0 as nat, |i: int| row_values(cells, sheet, (i + 1) as nat, cols)),
    }
}

fn column_name_list(cols: usize) -> (r: Vec<String>)
    ensures
        r.deep_view() == column_names(cols as nat),
{
    let ghost all = column_names(cols as nat);
    let mut out: Vec<String> = Vec::new();
    assert(out.deep_view() == all.take(0));
    let mut i: usize = 0;
    while i < cols
        invariant
            i <= cols,
            all == column_names(cols as nat),
            out.deep_view() == all.take(i as int),
        decreases cols - i,
    {
        let name = coord::col_to_name(i + 1);
        let ghost done = out.deep_view();
        out.push(name);
        assert(out.deep_view() == done.push(name@));
        assert(all.take(i + 1) == all.take(i as int).push(all[i as int]));
        i = i + 1;
    }
    assert(all.take(cols as int) == all);
    out
}

fn row_value_list(cells: &Vec<(Key, String)>, sheet: &str, row: usize, cols: usize) -> (r: Vec<
    String,
>)
    ensures
        r.deep_view() == row_values(cells.deep_view(), sheet@, row as nat, cols as nat),
{
    let ghost all = row_values(cells.deep_view(), sheet@, row as nat, cols as nat);
    let mut out: Vec<String> = Vec::new();
    assert(out.deep_view() == all.take(0));
    let mut i: usize = 0;
    while i < cols
        invariant
            i <= cols,
            all == row_values(cells.deep_view(), sheet@, row as nat, cols as nat),
            out.deep_view() == all.take(i as int),
        decreases cols - i,
    {
        let value = engine::cell_or_empty(cells, &coord::key_of(sheet, row, i + 1));
        let ghost done = out.deep_view();
        out.push(value);
        assert(out.deep_view() == done.push(value@));
        assert(all.take(i + 1) == all.take(i as int).push(all[i as int]));
        i = i + 1;
    }
    assert(all.take(cols as int) == all);
    out
}

impl SheetShadowEngine {
    /// A sheet laid out for a virtual table.
    pub fn sheet_vtab_data(&self, sheet_name: &str) -> (r: SheetRows)
        ensures
            r.deep_view() == laid_out(self.deep_view().cells, sheet_name@),
    {
        let (last_row, last_col) = sheet_bounds(&self.cells, sheet_name);
        let cols: usize = if last_col < 1 {
            1
        } else {
            last_col
        };
        let ghost cells = self.deep_view().cells;
        let ghost all = laid_out(cells, sheet_name@).rows;
        let mut rows: Vec<Vec<String>> = Vec::new();
        assert(rows.deep_view() == all.take(0));
        let mut i: usize = 0;
        while i < last_row
            invariant
                i <= last_row,
                cells == self.cells.deep_view(),
                (last_row, last_col) == bounds(cells, sheet_name@),
                cols == at_least_one(last_col),
                all == laid_out(cells, sheet_name@).rows,
                rows.deep_view() == all.take(i as int),
            decreases last_row - i,
        {
            let row = row_value_list(&self.cells, sheet_name, i + 1, cols);
            let ghost done = rows.deep_view();
            rows.push(row);
            assert(rows.deep_view() == done.push(row.deep_view()));
            assert(all.take(i + 1) == all.take(i as int).push(all[i as int]));
            i = i + 1;
        }
        assert(all.take(last_row as int) == all);
        SheetRows { sheet_name: sheet_name.to_owned(), columns: column_name_list(cols), rows }
    }
}

/// The layout of a sheet shows every cell in its place.
pub proof fn law_layout_shows_every_cell(cells: CellsModel, sheet: Seq<char>, i: int)
    requires
        0 <= i < cells.len(),
        cells[i].0.sheet == sheet,
        cells[i].0.row >= 1,
        cells[i].0.col >= 1,
    ensures
        laid_out(cells, sheet).rows[cells[i].0.row - 1][cells[i].0.col - 1]
            == engine::value_or_empty(cells, cells[i].0),
{
    law_bounds_hold_every_cell(cells, sheet, i);
}

pub open spec fn table_columns(columns: Seq<Seq<char>>) -> Seq<Seq<char>> {
    seq!["row_id INTEGER PRIMARY KEY"@] + Seq::new(
        columns.len(),
        |i: int| sqltext::quoted(columns[i], '"') + " TEXT"@,
    )
}

pub open spec fn schema_text(columns: Seq<Seq<char>>) -> Seq<char> {
    "CREATE TABLE x("@ + text::joined(table_columns(columns), ", "@) + ")"@
}

/// The value of a virtual table at a row and a column, both counted from zero.
pub open spec fn value_at(d: SheetRowsModel, row: int, col: int) -> Seq<char> {
    if 0 <= row < d.rows.len() && 0 <= col < d.rows[row].len() {
        d.rows[row][col]
    } else {
        Seq::empty()
    }
}

/// Why a changed row is refused.
#[verifier::ext_equal]
pub enum RowError<S = String> {
    Refused(S),
    /// The value at a place must be a whole number.
    NoInteger(usize),
}

pub open spec fn change_view(r: Result<PendingSqliteUpdate, RowError>) -> Result<
    PendingSqliteUpdate<Seq<char>>,
    RowError<Seq<char>>,
> {
    match r {
        Ok(u) => Ok(u.deep_view()),
        Err(RowError::Refused(m)) => Err(RowError::Refused(m@)),
        Err(RowError::NoInteger(i)) => Err(RowError::NoInteger(i)),
    }
}

/// The columns, of the first `n`, whose value changes.
pub open spec fn changes(d: SheetRowsModel, row: nat, args: Seq<StoredModel>, n: int) -> Seq<
    PendingSqliteUpdate<Seq<char>>,
>
    decreases n,
{
    if n <= 0 {
        Seq::empty()
    } else {
        let done = changes(d, row, args, n - 1);
        let value = stored_text(args[n + 2]);
        if value_at(d, row - 1, n - 1) != value {
            done.push(
                PendingSqliteUpdate {
                    sheet: d.sheet_name,
                    row: row as usize,
                    col: n as usize,
                    value,
                },
            )
        } else {
            done
        }
    }
}

/// What an update of a row asks for: the old row number, the new one, the row number again
/// and the values come in; exactly one value may change.
pub open spec fn change_asked(d: SheetRowsModel, args: Seq<StoredModel>) -> Result<
    PendingSqliteUpdate<Seq<char>>,
    RowError<Seq<char>>,
> {
    if args.len() != d.columns.len() + 3 {
        Err(RowError::Refused("unexpected sheet-shadow SQLite vtab update shape"@))
    } else {
        match (args[0], args[1]) {
            (StoredValue::Integer(before), StoredValue::Integer(after)) => {
                if before != after || stored_text(args[2]) != signed_text(before as int) {
                    Err(
                        RowError::Refused(
                            "sheet-shadow SQLite vtab does not allow row_id changes"@,
                        ),
                    )
                } else if before < 1 {
                    Err(RowError::Refused("sheet-shadow SQLite vtab row_id must be positive"@))
                } else if before > d.rows.len() {
                    Err(RowError::Refused("sheet-shadow SQLite vtab row not found"@))
                } else {
                    let found = changes(d, before as nat, args, d.columns.len() as int);
                    if found.len() != 1 {
                        Err(
                            RowError::Refused(
                                "sheet-shadow SQLite vtab requires exactly one changed cell per UPDATE"@,
                            ),
                        )
                    } else {
                        Ok(found[0])
                    }
                }
            },
            (StoredValue::Integer(_), _) => Err(RowError::NoInteger(1)),
            _ => Err(RowError::NoInteger(0)),
        }
    }
}

fn refused_row(m: &str) -> (r: RowError)
    ensures
        r == RowError::Refused(r->Refused_0),
        r->Refused_0@ == m@,
{
    RowError::Refused(m.to_owned())
}

impl SheetRows<String, Vec<String>, Vec<Vec<String>>> {
    /// The columns of the virtual table, as a statement.
    pub fn schema(&self) -> (r: String)
        ensures
            r@ == schema_text(self.deep_view().columns),
    {
        let ghost all = table_columns(self.columns.deep_view());
        let mut columns: Vec<String> = vec!["row_id INTEGER PRIMARY KEY".to_owned()];
        assert(columns.deep_view() == all.take(1));
        assert(self.columns.deep_view().len() == self.columns.len());
        let mut i: usize = 0;
        while i < self.columns.len()
            invariant
                i <= self.columns.len(),
                self.columns.deep_view().len() == self.columns.len(),
                all == table_columns(self.columns.deep_view()),
                columns.deep_view() == all.take(i + 1),
            decreases self.columns.len() - i,
        {
            assert(self.columns.deep_view()[i as int] == self.columns@[i as int]@);
            let mut c = sqltext::sqlite_quote_ident(&self.columns[i]);
            c.append(" TEXT");
            let ghost done = columns.deep_view();
            columns.push(c);
            assert(columns.deep_view() == done.push(c@));
            assert(all.take(i + 2) == all.take(i + 1).push(all[i + 1]));
            i = i + 1;
        }
        assert(all.take(all.len() as int) == all);
        let mut out = "CREATE TABLE x(".to_owned();
        out.append(&text::join(&columns, ", "));
        out.append(")");
        out
    }

    /// The value at a row and a column, both counted from zero.
    pub fn value(&self, row: usize, col: usize) -> (r: String)
        ensures
            r@ == value_at(self.deep_view(), row as int, col as int),
    {
        assert(self.rows.deep_view().len() == self.rows.len());
        if row < self.rows.len() {
            assert(self.rows.deep_view()[row as int] == self.rows@[row as int].deep_view());
            assert(self.rows@[row as int].deep_view().len() == self.rows@[row as int].len());
            if col < self.rows[row].len() {
                return self.rows[row][col].clone();
            }
        }
        String::new()
    }

    fn find_changes(&self, row: usize, args: &Vec<StoredValue>) -> (r: Vec<PendingSqliteUpdate>)
        requires
            row >= 1,
            args.len() == self.columns.len() + 3,
        ensures
            r.deep_view() == changes(
                self.deep_view(),
                row as nat,
                args.deep_view(),
                self.deep_view().columns.len() as int,
            ),
    {
        let ghost d = self.deep_view();
        let ghost given = args.deep_view();
        assert(d.columns.len() == self.columns.len());
        let mut out: Vec<PendingSqliteUpdate> = Vec::new();
        assert(out.deep_view() == Seq::<PendingSqliteUpdate<Seq<char>>>::empty());
        let mut i: usize = 0;
        while i < self.columns.len()
            invariant
                i <= self.columns.len(),
                args.len() == self.columns.len() + 3,
                row >= 1,
                d == self.deep_view(),
                given == args.deep_view(),
                out.deep_view() == changes(d, row as nat, given, i as int),
            decreases self.columns.len() - i,
        {
            assert(given[i + 3] == args@[i + 3].deep_view());
            let value = sqlite_value_to_string(&args[i + 3]);
            if !text::same(&self.value(row - 1, i), &value) {
                let u = PendingSqliteUpdate {
                    sheet: self.sheet_name.clone(),
                    row,
                    col: i + 1,
                    value,
                };
                let ghost done = out.deep_view();
                out.push(u);
                assert(out.deep_view() == done.push(u.deep_view()));
            }
            i = i + 1;
        }
        out
    }

    /// What an update of a row asks for.
    pub fn update(&self, args: &Vec<StoredValue>) -> (r: Result<PendingSqliteUpdate, RowError>)
        ensures
            change_view(r) == change_asked(self.deep_view(), args.deep_view()),
    {
        let ghost given = args.deep_view();
        assert(given.len() == args.len());
        assert(self.columns.deep_view().len() == self.columns.len());
        assert(self.rows.deep_view().len() == self.rows.len());
        if args.len() < 3 || args.len() - 3 != self.columns.len() {
            return Err(refused_row("unexpected sheet-shadow SQLite vtab update shape"));
        }
        assert(given[0] == args@[0].deep_view());
        assert(given[1] == args@[1].deep_view());
        assert(given[2] == args@[2].deep_view());
        let before = match &args[0] {
            StoredValue::Integer(n) => *n,
            _ => return Err(RowError::NoInteger(0)),
        };
        let after = match &args[1] {
            StoredValue::Integer(n) => *n,
            _ => return Err(RowError::NoInteger(1)),
        };
        if before != after || !text::same(
            &sqlite_value_to_string(&args[2]),
            &signed_text_of(before),
        ) {
            return Err(refused_row("sheet-shadow SQLite vtab does not allow row_id changes"));
        }
        if before < 1 {
            return Err(refused_row("sheet-shadow SQLite vtab row_id must be positive"));
        }
        if before as u64 > self.rows.len() as u64 {
            return Err(refused_row("sheet-shadow SQLite vtab row not found"));
        }
        let found = self.find_changes(before as usize, args);
        assert(found.deep_view().len() == found.len());
        if found.len() != 1 {
            return Err(
                refused_row(
                    "sheet-shadow SQLite vtab requires exactly one changed cell per UPDATE",
                ),
            );
        }
        assert(found.deep_view()[0] == found@[0].deep_view());
        Ok(found[0].clone())
    }
}

// ----- Changes through the database -----

/// The one change that an update through the database may bring, or why it is refused.
pub open spec fn only_change(
    a: sqltext::Access,
    updates: Seq<PendingSqliteUpdate<Seq<char>>>,
) -> Result<PendingSqliteUpdate<Seq<char>>, Seq<char>> {
    if updates.len() == 1 {
        Ok(updates[0])
    } else if a == sqltext::Access::StoreUpdate {
        Err("unsafe_update: sqlite_store_update requires exactly one changed cell"@)
    } else {
        Err("sqlite_update requires exactly one changed cell"@)
    }
}

pub open spec fn pending_view(r: Result<PendingSqliteUpdate, String>) -> Result<
    PendingSqliteUpdate<Seq<char>>,
    Seq<char>,
> {
    match r {
        Ok(u) => Ok(u.deep_view()),
        Err(m) => Err(m@),
    }
}

fn single_change(a: sqltext::Access, updates: &Vec<PendingSqliteUpdate>) -> (r: Result<
    PendingSqliteUpdate,
    String,
>)
    ensures
        pending_view(r) == only_change(a, updates.deep_view()),
{
    assert(updates.deep_view().len() == updates.len());
    if updates.len() == 1 {
        assert(updates.deep_view()[0] == updates@[0].deep_view());
        return Ok(updates[0].clone());
    }
    if a == sqltext::Access::StoreUpdate {
        return Err(
            "unsafe_update: sqlite_store_update requires exactly one changed cell".to_owned(),
        );
    }
    Err("sqlite_update requires exactly one changed cell".to_owned())
}

/// The shadow after an update through the database: its one change put into the cell.
pub open spec fn store_updated(
    m: EngineModel,
    a: sqltext::Access,
    updates: Seq<PendingSqliteUpdate<Seq<char>>>,
    answers: Answers,
    b: Bounds,
) -> (EngineModel, Res<Keys>) {
    match only_change(a, updates) {
        Err(message) => (m, Outcome::Fail(message)),
        Ok(u) => recalc::updated(
            m,
            coord::key(u.sheet, u.row, u.col),
            u.value,
            "direct_update"@,
            answers,
            b,
        ),
    }
}

impl SheetShadowEngine {
    /// Takes over what an update through the database changed.
    pub fn sqlite_update(
        &mut self,
        a: sqltext::Access,
        updates: &Vec<PendingSqliteUpdate>,
        answers: &Vec<(Ask, Reply)>,
        b: Bounds,
    ) -> (r: Outcome<Vec<Key>>)
        ensures
            r.deep_view() == store_updated(
                old(self).deep_view(),
                a,
                updates.deep_view(),
                answers.deep_view(),
                b,
            ).1,
            final(self).deep_view() == recalc::kept(
                old(self).deep_view(),
                store_updated(
                    old(self).deep_view(),
                    a,
                    updates.deep_view(),
                    answers.deep_view(),
                    b,
                ),
            ),
            old(self).deep_view().wf() ==> final(self).deep_view().wf(),
    {
        match single_change(a, updates) {
            Err(message) => Outcome::Fail(message),
            Ok(u) => self.update_cell(
                &coord::key_of(&u.sheet, u.row, u.col),
                &u.value,
                answers,
                b,
            ),
        }
    }
}

/// The message with which a failed update of a store is refused.
pub open spec fn update_refusal(message: Seq<char>) -> Seq<char> {
    if text::contains(message, "unsafe_update:"@) {
        message
    } else {
        "unsafe_update: "@ + message
    }
}

pub fn store_update_refusal(message: &str) -> (r: String)
    ensures
        r@ == update_refusal(message@),
{
    if text::has(message, "unsafe_update:") {
        return message.to_owned();
    }
    let mut out = "unsafe_update: ".to_owned();
    out.append(message);
    out
}

/// Whether every row from `i` on is what its cell holds.
pub open spec fn rows_match(cells: CellsModel, rows: CellsModel, i: int) -> bool {
    forall|j: int|
        i <= j < rows.len() ==> entries::get(cells, (#[trigger] rows[j]).0) == Some(rows[j].1)
}

/// Whether the rows of a store are those of the workbook: the same source, as many cells,
/// and every row as its cell.
pub open spec fn snapshot_fresh(
    m: EngineModel,
    source: Seq<char>,
    count: i64,
    rows: CellsModel,
) -> bool {
    &&& source == package::or_text(m.source_path, Seq::empty())
    &&& count as usize == m.cells.len()
    &&& rows_match(m.cells, rows, 0)
}

impl SheetShadowEngine {
    pub fn store_snapshot_matches_runtime(
        &self,
        source: &str,
        count: i64,
        rows: &Vec<(Key, String)>,
    ) -> (r: bool)
        ensures
            r == snapshot_fresh(self.deep_view(), source@, count, rows.deep_view()),
    {
        let ghost m = self.deep_view();
        assert(m.cells.len() == self.cells.len());
        if !text::same(source, &self.source_text()) {
            return false;
        }
        if count as usize != self.cells.len() {
            return false;
        }
        let ghost all = rows.deep_view();
        let mut i: usize = 0;
        while i < rows.len()
            invariant
                i <= rows.len(),
                m == self.deep_view(),
                all == rows.deep_view(),
                forall|j: int|
                    0 <= j < i ==> entries::get(m.cells, (#[trigger] all[j]).0) == Some(all[j].1),
            decreases rows.len() - i,
        {
            assert(all[i as int] == rows@[i as int].deep_view());
            let fits = match entries::map_get(&self.cells, &rows[i].0) {
                Some(t) => text::same(t, &rows[i].1),
                None => false,
            };
            if !fits {
                return false;
            }
            i = i + 1;
        }
        true
    }
}

// ----- Status -----

pub open spec fn store_tables() -> Seq<Seq<char>> {
    seq![
        "ss_workbook"@,
        "ss_session"@,
        "ss_sheet"@,
        "ss_cell_snapshot"@,
        "ss_shadow_meta"@,
        "ss_audit_event"@,
        "ss_formula_edge"@,
        "ss_graph_node"@,
        "ss_graph_edge"@,
        "ss_migration"@,
    ]
}

/// The tables whose rows a status counts.
pub fn store_table_list() -> (r: Vec<String>)
    ensures
        r.deep_view() == store_tables(),
{
    let r: Vec<String> = vec![
        "ss_workbook".to_owned(),
        "ss_session".to_owned(),
        "ss_sheet".to_owned(),
        "ss_cell_snapshot".to_owned(),
        "ss_shadow_meta".to_owned(),
        "ss_audit_event".to_owned(),
        "ss_formula_edge".to_owned(),
        "ss_graph_node".to_owned(),
        "ss_graph_edge".to_owned(),
        "ss_migration".to_owned(),
    ];
    assert(r.deep_view() == store_tables());
    r
}

pub open spec fn count_name(table: Seq<char>) -> Seq<char> {
    text::dropped_start(table, "ss_"@) + "_count"@
}

pub open spec fn counts_told(counts: Seq<(Seq<char>, i64)>, n: int) -> FieldsModel
    decreases n,
{
    if n <= 0 {
        Seq::empty()
    } else {
        entries::put(
            counts_told(counts, n - 1),
            count_name(counts[n - 1].0),
            signed_text(counts[n - 1].1 as int),
        )
    }
}

pub open spec fn table_lines(sheets: FieldsModel) -> Seq<Seq<char>> {
    Seq::new(sheets.len(), |i: int| sheets[i].0 + "="@ + sheets[i].1)
}

/// What there is to tell of a store.
pub open spec fn store_status(
    counts: Seq<(Seq<char>, i64)>,
    view_count: i64,
    sheets: FieldsModel,
    path: Seq<char>,
    source: Seq<char>,
    session: Seq<char>,
    fresh: bool,
) -> FieldsModel {
    counts_told(counts, counts.len() as int) + seq![
        ("sheet_view_count"@, signed_text(view_count as int)),
        ("sheet_tables"@, text::joined(table_lines(sheets), ","@)),
        ("sqlite_path"@, path),
        ("source_path"@, source),
        ("session_state"@, session),
        (
            "snapshot_fresh"@,
            if fresh {
                "true"@
            } else {
                "false"@
            },
        ),
        (
            "snapshot_state"@,
            if fresh {
                "fresh"@
            } else {
                "stale"@
            },
        ),
    ]
}

fn tell_counts(counts: &Vec<(String, i64)>) -> (r: Fields)
    ensures
        r.deep_view() == counts_told(counts.deep_view(), counts.deep_view().len() as int),
{
    let ghost all = counts.deep_view();
    let mut out: Fields = Vec::new();
    assert(out.deep_view() == FieldsModel::empty());
    let mut i: usize = 0;
    while i < counts.len()
        invariant
            i <= counts.len(),
            all == counts.deep_view(),
            out.deep_view() == counts_told(all, i as int),
        decreases counts.len() - i,
    {
        assert(all[i as int] == counts@[i as int].deep_view());
        let mut name = text::without_start(&counts[i].0, "ss_");
        name.append("_count");
        entries::map_put(&mut out, name, signed_text_of(counts[i].1));
        i = i + 1;
    }
    out
}

fn table_line_list(sheets: &Fields) -> (r: Vec<String>)
    ensures
        r.deep_view() == table_lines(sheets.deep_view()),
{
    let ghost given = sheets.deep_view();
    let ghost all = table_lines(given);
    let mut out: Vec<String> = Vec::new();
    assert(out.deep_view() == all.take(0));
    let mut i: usize = 0;
    while i < sheets.len()
        invariant
            i <= sheets.len(),
            given == sheets.deep_view(),
            all == table_lines(given),
            out.deep_view() == all.take(i as int),
        decreases sheets.len() - i,
    {
        assert(given[i as int] == sheets@[i as int].deep_view());
        let mut line = sheets[i].0.clone();
        line.append("=");
        line.append(&sheets[i].1);
        let ghost done = out.deep_view();
        out.push(line);
        assert(out.deep_view() == done.push(line@));
        assert(all.take(i + 1) == all.take(i as int).push(all[i as int]));
        i = i + 1;
    }
    assert(all.take(all.len() as int) == all);
    out
}

/// What there is to tell of a store, given what its tables hold.
pub fn sqlite_store_status(
    counts: &Vec<(String, i64)>,
    view_count: i64,
    sheets: &Fields,
    sqlite_path: &str,
    source_path: &str,
    session_state: &str,
    fresh: bool,
) -> (r: Fields)
    ensures
        r.deep_view() == store_status(
            counts.deep_view(),
            view_count,
            sheets.deep_view(),
            sqlite_path@,
            source_path@,
            session_state@,
            fresh,
        ),
{
    let mut out = tell_counts(counts);
    let mut more: Fields = vec![
        engine::pair("sheet_view_count", signed_text_of(view_count)),
        engine::pair("sheet_tables", text::join(&table_line_list(sheets), ",")),
        engine::pair("sqlite_path", sqlite_path.to_owned()),
        engine::pair("source_path", source_path.to_owned()),
        engine::pair("session_state", session_state.to_owned()),
        engine::pair(
            "snapshot_fresh",
            if fresh {
                "true".to_owned()
            } else {
                "false".to_owned()
            },
        ),
        engine::pair(
            "snapshot_state",
            if fresh {
                "fresh".to_owned()
            } else {
                "stale".to_owned()
            },
        ),
    ];
    let ghost a = out.deep_view();
    let ghost b = more.deep_view();
    out.append(&mut more);
    assert(out.deep_view() == a + b);
    assert(out.deep_view() == store_status(
        counts.deep_view(),
        view_count,
        sheets.deep_view(),
        sqlite_path@,
        source_path@,
        session_state@,
        fresh,
    ));
    out
}

/// The first table from `i` on that a store lacks makes it unreadable.
pub open spec fn missing_table(present: Seq<(Seq<char>, bool)>, i: int) -> Fallible<()>
    decreases present.len() - i,
{
    if i < 0 || i >= present.len() {
        Ok(())
    } else if !present[i].1 {
        Err(coord::value_error("store_schema_error: missing table "@ + present[i].0))
    } else {
        missing_table(present, i + 1)
    }
}

/// Whether a store has the tables that reading it needs.
pub fn ensure_store_schema_readable(present: &Vec<(String, bool)>) -> (r: Result<(), ShadowError>)
    ensures
        coord::outcome(r) == missing_table(present.deep_view(), 0),
{
    let ghost all = present.deep_view();
    let mut i: usize = 0;
    while i < present.len()
        invariant
            i <= present.len(),
            all == present.deep_view(),
            missing_table(all, 0) == missing_table(all, i as int),
        decreases present.len() - i,
    {
        assert(all[i as int] == present@[i as int].deep_view());
        if !present[i].1 {
            let mut m = "store_schema_error: missing table ".to_owned();
            m.append(&present[i].0);
            return Err(ShadowError::Value(m));
        }
        i = i + 1;
    }
    Ok(())
}

pub open spec fn store_missing(path: Seq<char>, there: bool) -> Fallible<()> {
    if there {
        Ok(())
    } else {
        Err(coord::value_error("store_path_error: SQLite store not found: "@ + path))
    }
}

pub fn check_store_path(sqlite_path: &str, there: bool) -> (r: Result<(), ShadowError>)
    ensures
        coord::outcome(r) == store_missing(sqlite_path@, there),
{
    if there {
        return Ok(());
    }
    let mut m = "store_path_error: SQLite store not found: ".to_owned();
    m.append(sqlite_path);
    Err(ShadowError::Value(m))
}

} // verus!
