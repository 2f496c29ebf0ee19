//! What goes where when a workbook is saved, asked through a database, or renamed in part.

use crate::coord;
use crate::coord::Key;
use crate::engine;
use crate::engine::EngineModel;
use crate::entries;
use crate::formula;
use crate::meaning;
use crate::objects;
use crate::objects::TableModel;
use crate::recalc;
use crate::recalc::{Answers, Bounds, Keys};
use crate::records::PendingSqliteUpdate;
use crate::save;
use crate::save::PlanModel;
use crate::sheetops;
use crate::sheetxml;
use crate::sqltext;
use crate::store;
use crate::store::{SheetRowsModel, StoredModel, StoredValue};
use crate::structured;
use crate::structured::Part;
use crate::text;
use vstd::prelude::*;
use vstd::string::*;

verus! {

// ----- Changed cells -----

proof fn lemma_pushed<T>(s: Seq<T>, x: T, y: T)
    ensures
        s.push(x).contains(y) <==> s.contains(y) || y == x,
{
    if s.contains(y) {
        let i = choose|i: int| 0 <= i < s.len() && s[i] == y;
        assert(s.push(x)[i] == y);
    }
    if y == x {
        assert(s.push(x)[s.len() as int] == y);
    }
    if s.push(x).contains(y) {
        let i = choose|i: int| 0 <= i < s.push(x).len() && s.push(x)[i] == y;
        if i < s.len() {
            assert(s[i] == y);
        }
    }
}

proof fn lemma_put_in<T>(s: Seq<T>, at: int, x: T, y: T)
    requires
        0 <= at <= s.len(),
    ensures
        s.insert(at, x).contains(y) <==> s.contains(y) || y == x,
{
    let t = s.insert(at, x);
    if s.contains(y) {
        let i = choose|i: int| 0 <= i < s.len() && s[i] == y;
        if i < at {
            assert(t[i] == y);
        } else {
            assert(t[i + 1] == y);
        }
    }
    if y == x {
        assert(t[at] == y);
    }
    if t.contains(y) {
        let i = choose|i: int| 0 <= i < t.len() && t[i] == y;
        if i < at {
            assert(s[i] == y);
        } else if i > at {
            assert(s[i - 1] == y);
        }
    }
}

proof fn lemma_on_sheet(s: Keys, sheet: Seq<char>, k: Key<Seq<char>>)
    ensures
        save::keys_on(s, sheet).contains(k) <==> s.contains(k) && k.sheet == sheet,
    decreases s.len(),
{
    if s.len() > 0 {
        lemma_on_sheet(s.drop_last(), sheet, k);
        lemma_pushed(s.drop_last(), s.last(), k);
        assert(s.drop_last().push(s.last()) == s);
        lemma_pushed(save::keys_on(s.drop_last(), sheet), s.last(), k);
    }
}

proof fn lemma_place_in(s: Keys, k: Key<Seq<char>>)
    ensures
        0 <= recalc::key_place(s, k) <= s.len(),
    decreases s.len(),
{
    if s.len() > 0 {
        lemma_place_in(s.drop_last(), k);
    }
}

proof fn lemma_sorted(s: Keys, k: Key<Seq<char>>)
    ensures
        recalc::sorted_keys(s).contains(k) <==> s.contains(k),
    decreases s.len(),
{
    if s.len() > 0 {
        let done = recalc::sorted_keys(s.drop_last());
        lemma_sorted(s.drop_last(), k);
        lemma_place_in(done, s.last());
        lemma_put_in(done, recalc::key_place(done, s.last()), s.last(), k);
        lemma_pushed(s.drop_last(), s.last(), k);
        assert(s.drop_last().push(s.last()) == s);
    }
}

proof fn lemma_once(s: Keys, k: Key<Seq<char>>)
    ensures
        save::runs_once(s).contains(k) <==> s.contains(k),
    decreases s.len(),
{
    if s.len() > 0 {
        let done = save::runs_once(s.drop_last());
        lemma_once(s.drop_last(), k);
        lemma_pushed(s.drop_last(), s.last(), k);
        assert(s.drop_last().push(s.last()) == s);
        lemma_pushed(done, s.last(), k);
        if done.len() > 0 && done.last() == s.last() && k == s.last() {
            assert(done[done.len() - 1] == k);
        }
    }
}

/// Saving writes exactly the cells of a sheet that were changed, or that a change reached.
pub proof fn law_every_changed_cell_is_written(m: EngineModel, sheet: Seq<char>, k: Key<Seq<char>>)
    ensures
        save::changed_keys(m, sheet).contains(k) <==> k.sheet == sheet && (m.modified.contains(k)
            || m.dirty.contains(k)),
{
    let noted = save::noted_keys(m);
    let on = save::keys_on(noted, sheet);
    lemma_on_sheet(noted, sheet, k);
    lemma_sorted(on, k);
    lemma_once(recalc::sorted_keys(on), k);
    if m.modified.contains(k) {
        let i = choose|i: int| 0 <= i < m.modified.len() && m.modified[i] == k;
        assert(noted[i] == k);
    }
    if m.dirty.contains(k) {
        let i = choose|i: int| 0 <= i < m.dirty.len() && m.dirty[i] == k;
        assert(noted[m.modified.len() + i] == k);
    }
    if noted.contains(k) {
        let i = choose|i: int| 0 <= i < noted.len() && noted[i] == k;
        if i < m.modified.len() {
            assert(m.modified[i] == k);
        } else {
            assert(m.dirty[i - m.modified.len()] == k);
        }
    }
}

/// What is written into a cell is its value, its formula where it has one, and the style that
/// is noted for it.
pub proof fn law_cells_are_written_as_they_stand(
    m: EngineModel,
    plan: PlanModel,
    k: Key<Seq<char>>,
    t: Seq<char>,
)
    ensures
        ({
            let w = save::write_for(m, plan, k);
            &&& entries::get(m.cells, k) == Some(t) ==> w.value == t
            &&& entries::get(m.cells, k) is None ==> w.value.len() == 0
            &&& entries::get(m.formulas, k) is None <==> w.formula is None
            &&& entries::get(m.formulas, k) matches Some(f) ==> w.formula == Some(f.formula)
            &&& entries::get(m.meta, k) matches Some(r) ==> w.style == r.style_id
            &&& entries::get(m.meta, k) is None ==> w.style is None
            &&& w.shared == entries::get(plan.cell_indices, k)
        }),
{
}

/// A sheet with changed merges ends with the merges of the workbook, whatever else changed; one
/// with moved lines begins with them; one with changed rules has the rules of the workbook put
/// in behind its cells.
pub proof fn law_sheets_are_saved_with_all_their_changes(
    m: EngineModel,
    plan: PlanModel,
    sheet: Seq<char>,
    s: Seq<char>,
)
    requires
        save::sheet_saved(m, plan, sheet, s) is Ok,
    ensures
        ({
            let out = save::sheet_saved(m, plan, sheet, s);
            let keys = save::changed_keys(m, sheet);
            &&& m.merge_dirty_sheets.contains(sheet) && entries::get(m.merges, sheet) is Some
                ==> exists|d: Seq<char>| #[trigger]
                sheetxml::merges_patched(d, entries::get(m.merges, sheet)->Some_0) == out
            &&& m.structural_dirty_sheets.contains(sheet) ==> sheetxml::structure_patched(
                s,
                sheet,
                m.structural_edits,
            ) is Ok
            &&& m.object_dirty_sheets.contains(sheet) ==> exists|b: Seq<char>|
                (#[trigger] sheetxml::rules_patched(
                    b,
                    sheet,
                    m.data_validations,
                    m.auto_filters,
                    m.conditional_formats,
                )) is Ok
            &&& !m.merge_dirty_sheets.contains(sheet) && !m.structural_dirty_sheets.contains(sheet)
                && !m.object_dirty_sheets.contains(sheet) && !m.sparkline_dirty_sheets.contains(
                sheet,
            ) ==> out == save::cells_written(m, plan, s, keys, keys.len() as int)
        }),
{
    let keys = save::changed_keys(m, sheet);
    let a = save::moved_text(m, sheet, s)->Ok_0;
    let b = save::cells_written(m, plan, a, keys, keys.len() as int)->Ok_0;
    let c = save::ruled_text(m, sheet, b)->Ok_0;
    let d = save::sparkled_text(m, sheet, c)->Ok_0;
    assert(save::merged_text(m, sheet, d) == save::sheet_saved(m, plan, sheet, s));
    if m.merge_dirty_sheets.contains(sheet) && entries::get(m.merges, sheet) is Some {
        assert(sheetxml::merges_patched(d, entries::get(m.merges, sheet)->Some_0)
            == save::sheet_saved(m, plan, sheet, s));
    }
    if m.object_dirty_sheets.contains(sheet) {
        assert(sheetxml::rules_patched(
            b,
            sheet,
            m.data_validations,
            m.auto_filters,
            m.conditional_formats,
        ) is Ok);
    }
}

// ----- Changes through a database -----

proof fn lemma_changes(d: SheetRowsModel, row: nat, args: Seq<StoredModel>, n: int)
    requires
        0 <= n,
        n + 3 <= args.len(),
        row <= usize::MAX,
        n <= usize::MAX,
    ensures
        forall|i: int|
            0 <= i < store::changes(d, row, args, n).len() ==> {
                let u = #[trigger] store::changes(d, row, args, n)[i];
                &&& u.sheet == d.sheet_name
                &&& u.row == row
                &&& 1 <= u.col <= n
                &&& u.value == store::stored_text(args[u.col + 2])
                &&& store::value_at(d, row - 1, u.col - 1) != u.value
            },
        forall|c: int|
            1 <= c <= n && store::value_at(d, row - 1, c - 1) != store::stored_text(
                #[trigger] args[c + 2],
            ) ==> exists|i: int|
                0 <= i < store::changes(d, row, args, n).len() && (#[trigger] store::changes(
                    d,
                    row,
                    args,
                    n,
                )[i]).col == c,
    decreases n,
{
    if n > 0 {
        lemma_changes(d, row, args, n - 1);
        let done = store::changes(d, row, args, n - 1);
        let all = store::changes(d, row, args, n);
        assert forall|i: int| 0 <= i < all.len() implies {
            let u = #[trigger] all[i];
            &&& u.sheet == d.sheet_name
            &&& u.row == row
            &&& 1 <= u.col <= n
            &&& u.value == store::stored_text(args[u.col + 2])
            &&& store::value_at(d, row - 1, u.col - 1) != u.value
        } by {
            if i < done.len() {
                assert(all[i] == done[i]);
            }
        }
        assert forall|c: int|
            1 <= c <= n && store::value_at(d, row - 1, c - 1) != store::stored_text(
                #[trigger] args[c + 2],
            ) implies exists|i: int| 0 <= i < all.len() && (#[trigger] all[i]).col == c by {
            if c < n {
                let i = choose|i: int| 0 <= i < done.len() && (#[trigger] done[i]).col == c;
                assert(all[i] == done[i]);
            } else {
                assert(all[all.len() - 1].col == n);
            }
        }
    }
}

/// A changed row asks for the one value that differs from what the sheet shows, at its row and
/// column.
pub proof fn law_changed_rows_name_the_changed_cell(
    d: SheetRowsModel,
    args: Seq<StoredModel>,
    c: int,
)
    requires
        store::change_asked(d, args) is Ok,
        d.columns.len() <= usize::MAX,
        d.rows.len() <= usize::MAX,
    ensures
        ({
            let u = store::change_asked(d, args)->Ok_0;
            &&& u.sheet == d.sheet_name
            &&& args[0] matches StoredValue::Integer(n) && u.row == n && 1 <= n <= d.rows.len()
            &&& 1 <= u.col <= d.columns.len()
            &&& u.value == store::stored_text(args[u.col + 2])
            &&& u.value != store::value_at(d, u.row - 1, u.col - 1)
            &&& 1 <= c <= d.columns.len() && c != u.col ==> store::stored_text(args[c + 2])
                == store::value_at(d, u.row - 1, c - 1)
        }),
{
    if let StoredValue::Integer(before) = args[0] {
        let n = d.columns.len() as int;
        lemma_changes(d, before as nat, args, n);
        let found = store::changes(d, before as nat, args, n);
        let u = found[0];
        if 1 <= c <= n && c != u.col && store::stored_text(args[c + 2]) != store::value_at(
            d,
            before - 1,
            c - 1,
        ) {
            let i = choose|i: int| 0 <= i < found.len() && (#[trigger] found[i]).col == c;
            assert(found[i] == found[0]);
        }
    }
}

/// An update through a database changes one cell, and its value is there afterwards; any other
/// number of changes is refused.
pub proof fn law_updates_through_a_database_reach_the_cell(
    m: EngineModel,
    a: sqltext::Access,
    updates: Seq<PendingSqliteUpdate<Seq<char>>>,
    answers: Answers,
    b: Bounds,
)
    ensures
        updates.len() != 1 ==> store::store_updated(m, a, updates, answers, b).1 is Fail
            && store::store_updated(m, a, updates, answers, b).0 == m,
        updates.len() == 1 && engine::target_refusal(
            m,
            updates[0].sheet,
            updates[0].row,
            updates[0].col,
        ) is None && entries::get(
            m.formulas,
            coord::key(updates[0].sheet, updates[0].row, updates[0].col),
        ) is None ==> engine::value_or_empty(
            store::store_updated(m, a, updates, answers, b).0.cells,
            coord::key(updates[0].sheet, updates[0].row, updates[0].col),
        ) == updates[0].value,
{
    if updates.len() == 1 {
        let k = coord::key(updates[0].sheet, updates[0].row, updates[0].col);
        if engine::target_refusal(m, k.sheet, k.row, k.col) is None && entries::get(m.formulas, k)
            is None {
            recalc::law_updated_value_reads_back(
                m,
                k,
                updates[0].value,
                "direct_update"@,
                answers,
                b,
            );
        }
    }
}

// ----- Tables -----

/// Every row of a table is its header, a row of its data or its totals, and just one of these;
/// a table without totals has none.
pub proof fn law_table_rows_are_of_one_part(t: TableModel, row: usize)
    requires
        t.start_row < t.end_row,
        t.totals_row is None || t.totals_row == Some(t.end_row),
        t.start_row <= row <= t.end_row,
    ensures
        structured::part_rows(t, Part::All) == Some((t.start_row, t.end_row)),
        structured::part_rows(t, Part::Headers) == Some((t.start_row, t.start_row)),
        structured::part_rows(t, Part::Data) matches Some((a, b)) && (a <= row <= b <==> row
            != t.start_row && t.totals_row != Some(row)),
        structured::part_rows(t, Part::Plain) == structured::part_rows(t, Part::Data),
        t.totals_row is None ==> structured::part_rows(t, Part::Totals) is None,
        t.totals_row is Some ==> structured::part_rows(t, Part::Totals) == Some(
            (t.end_row, t.end_row),
        ),
{
}

/// A column of a table is the sheet column as many places behind the first as the name stands
/// in the table's columns, letter case aside.
pub proof fn law_table_columns_have_their_places(t: TableModel, name: Seq<char>, i: int, rows: (usize, usize))
    requires
        0 <= i < t.columns.len(),
        text::like(t.columns[i], text::trim(name)),
        forall|j: int| 0 <= j < i ==> !text::like(#[trigger] t.columns[j], text::trim(name)),
        t.start_col + i <= t.end_col,
    ensures
        structured::column_area(t, name, Some(rows)) == Some(
            (rows.0, rows.1, (t.start_col + i) as usize, (t.start_col + i) as usize),
        ),
{
    lemma_column(t.columns, name, i, 0);
}

proof fn lemma_column(columns: Seq<Seq<char>>, name: Seq<char>, i: int, from: int)
    requires
        0 <= from <= i < columns.len(),
        text::like(columns[i], text::trim(name)),
        forall|j: int| 0 <= j < i ==> !text::like(#[trigger] columns[j], text::trim(name)),
    ensures
        objects::column_from(columns, name, from) == Some(i),
    decreases i - from,
{
    if from < i {
        assert(!text::like(columns[from], text::trim(name)));
        lemma_column(columns, name, i, from + 1);
    }
}

proof fn lemma_parts_named()
    ensures
        text::trim("[#All]"@) == "[#All]"@,
        text::trim("[#Data]"@) == "[#Data]"@,
        text::trim("[#Headers]"@) == "[#Headers]"@,
        text::trim("[#Totals]"@) == "[#Totals]"@,
        text::lower("[#All]"@).len() == 6,
        text::lower("[#Data]"@).len() == 7,
        text::lower("[#Headers]"@).len() == 10,
        text::lower("[#Totals]"@).len() == 9,
{
    reveal_strlit("[#All]");
    reveal_strlit("[#Data]");
    reveal_strlit("[#Headers]");
    reveal_strlit("[#Totals]");
    meaning::lemma_trimmed("[#All]"@);
    meaning::lemma_trimmed("[#Data]"@);
    meaning::lemma_trimmed("[#Headers]"@);
    meaning::lemma_trimmed("[#Totals]"@);
}

/// The parts of a table are selected by their names, over all its columns: all of it, the rows
/// between header and totals, the header, and the totals where there are any.
pub proof fn law_table_parts_are_selected_by_name(t: TableModel, k: Key<Seq<char>>)
    requires
        t.start_row < t.end_row,
        t.totals_row is None || t.totals_row == Some(t.end_row),
    ensures
        structured::selected_area(t, k, "[#All]"@) == Some(
            (t.start_row, t.end_row, t.start_col, t.end_col),
        ),
        structured::selected_area(t, k, "[#Headers]"@) == Some(
            (t.start_row, t.start_row, t.start_col, t.end_col),
        ),
        structured::selected_area(t, k, "[#Data]"@) == Some(
            (
                (t.start_row + 1) as usize,
                if t.totals_row is Some {
                    (t.end_row - 1) as usize
                } else {
                    t.end_row
                },
                t.start_col,
                t.end_col,
            ),
        ),
        t.totals_row is Some ==> structured::selected_area(t, k, "[#Totals]"@) == Some(
            (t.end_row, t.end_row, t.start_col, t.end_col),
        ),
        t.totals_row is None ==> structured::selected_area(t, k, "[#Totals]"@) is None,
{
    lemma_parts_named();
}

// ----- Views and triggers -----

proof fn lemma_nothing_doubled(s: Seq<char>, c: char)
    requires
        forall|i: int| 0 <= i < s.len() ==> #[trigger] s[i] != c,
    ensures
        sqltext::doubled(s, c) == s,
    decreases s.len(),
{
    if s.len() > 0 {
        assert(s[s.len() - 1] != c);
        assert forall|i: int| 0 <= i < s.drop_last().len() implies #[trigger] s.drop_last()[i]
            != c by {
            assert(s[i] != c);
        }
        lemma_nothing_doubled(s.drop_last(), c);
        assert(s.drop_last().push(s.last()) == s);
    }
}

proof fn lemma_view_columns(n: nat, k: nat)
    requires
        1 <= k <= n,
    ensures
        sqltext::view_columns(n).len() == n + 1,
        sqltext::view_columns(n)[k as int] == sqltext::view_column(k),
    decreases n,
{
    if n > 1 {
        lemma_view_columns((n - 1) as nat, if k < n {
            k
        } else {
            1
        });
    }
    assert(sqltext::view_columns(0).len() == 1);
    if n == 1 {
        assert(sqltext::view_columns(1) == sqltext::view_columns(0).push(sqltext::view_column(1)));
    }
}

/// The view of a sheet shows under the letters of each column the values of that column.
pub proof fn law_views_show_columns_under_their_letters(n: nat, k: usize)
    requires
        1 <= k <= n,
    ensures
        sqltext::view_columns(n)[k as int] == "COALESCE(MAX(CASE WHEN col_idx = "@ + text::decimal(
            k as nat,
        ) + " THEN value END), '') AS "@ + (seq!['"'] + coord::col_name(k as nat) + seq!['"']),
{
    lemma_view_columns(n, k as nat);
    coord::lemma_col_name_plain(k);
    let name = coord::col_name(k as nat);
    assert forall|i: int| 0 <= i < name.len() implies #[trigger] name[i] != '"' by {
        assert(coord::all_letters(name));
    }
    lemma_nothing_doubled(name, '"');
}

proof fn lemma_trigger_parts(sheet: Seq<char>, n: nat, k: nat)
    requires
        1 <= k <= n,
    ensures
        sqltext::trigger_parts(sheet, n).len() == n + 1,
        sqltext::trigger_parts(sheet, n)[k as int] == sqltext::noting(sheet, k),
    decreases n,
{
    if n > 1 {
        lemma_trigger_parts(sheet, (n - 1) as nat, if k < n {
            k
        } else {
            1
        });
    }
    assert(sqltext::trigger_parts(sheet, 0).len() == 1);
    if n == 1 {
        assert(sqltext::trigger_parts(sheet, 1) == sqltext::trigger_parts(sheet, 0).push(
            sqltext::noting(sheet, 1),
        ));
    }
}

/// The trigger of a sheet notes a change of a column under the number of the column, with the
/// new value under its letters, where it differs from the old one under the same letters.
pub proof fn law_triggers_note_columns_under_their_number(sheet: Seq<char>, n: nat, k: usize)
    requires
        1 <= k <= n,
    ensures
        ({
            let name = seq!['"'] + coord::col_name(k as nat) + seq!['"'];
            sqltext::trigger_parts(sheet, n)[k as int]
                == "INSERT INTO ss_pending_store_update(sheet, row_idx, col_idx, value) SELECT "@
                + sqltext::quoted(sheet, '\'') + ", OLD.row_id, "@ + text::decimal(k as nat)
                + ", COALESCE(NEW."@ + name + ", '') WHERE COALESCE(OLD."@ + name
                + ", '') IS NOT COALESCE(NEW."@ + name + ", '')"@
        }),
{
    lemma_trigger_parts(sheet, n, k as nat);
    coord::lemma_col_name_plain(k);
    let name = coord::col_name(k as nat);
    assert forall|i: int| 0 <= i < name.len() implies #[trigger] name[i] != '"' by {
        assert(coord::all_letters(name));
    }
    lemma_nothing_doubled(name, '"');
}

// ----- Renamed sheets -----

/// Formulas stay at their cells when a sheet is renamed, and each is rewritten.
pub proof fn law_formulas_are_renamed_in_place(
    s: crate::cells::FormulasModel,
    changed: Keys,
    old_name: Seq<char>,
    new_name: Seq<char>,
)
    ensures
        sheetops::formulas_renamed(s, changed, old_name, new_name).0.len() == s.len(),
        forall|i: int|
            0 <= i < s.len() ==> {
                let next = #[trigger] sheetops::formulas_renamed(s, changed, old_name, new_name).0[i];
                next.0 == s[i].0 && next.1.formula == formula::sheet_renamed(
                    s[i].1.formula,
                    old_name,
                    new_name,
                )
            },
    decreases s.len(),
{
    if s.len() > 0 {
        let rest = s.drop_last();
        law_formulas_are_renamed_in_place(rest, changed, old_name, new_name);
        let all = sheetops::formulas_renamed(s, changed, old_name, new_name).0;
        let done = sheetops::formulas_renamed(rest, changed, old_name, new_name).0;
        assert forall|i: int| 0 <= i < s.len() implies {
            let next = #[trigger] all[i];
            next.0 == s[i].0 && next.1.formula == formula::sheet_renamed(
                s[i].1.formula,
                old_name,
                new_name,
            )
        } by {
            if i < s.len() - 1 {
                assert(all[i] == done[i]);
                assert(rest[i] == s[i]);
            }
        }
    }
}

proof fn lemma_replaced_shifted(
    s: Seq<char>,
    t: Seq<char>,
    from: Seq<char>,
    to: Seq<char>,
    k: int,
    i: int,
)
    requires
        0 <= k,
        0 <= i <= t.len(),
        s.len() == k + t.len(),
        s.skip(k) == t,
        from.len() > 0,
    ensures
        text::replaced_from(s, from, to, k + i) == text::replaced_from(t, from, to, i),
    decreases t.len() - i,
{
    if i < t.len() {
        assert(s[k + i] == t[i]);
        assert(text::occurs_at(s, from, k + i) == text::occurs_at(t, from, i)) by {
            if k + i + from.len() <= s.len() {
                assert(s.subrange(k + i, k + i + from.len()) == t.subrange(i, i + from.len()));
            }
        }
        if text::occurs_at(t, from, i) {
            lemma_replaced_shifted(s, t, from, to, k, i + from.len());
        } else {
            lemma_replaced_shifted(s, t, from, to, k, i + 1);
        }
    } else {
        assert(text::slice(s, k + i, s.len() as int) == text::slice(t, i, t.len() as int));
    }
}

/// The quoted name of a renamed sheet gives way to the new one wherever it stands in a formula,
/// and signs that do not begin it stay: for old names that need quotes.
pub proof fn law_quoted_names_give_way(
    rest: Seq<char>,
    c: char,
    old_name: Seq<char>,
    new_name: Seq<char>,
)
    requires
        !formula::is_simple_name(old_name),
    ensures
        formula::sheet_renamed(
            formula::quoted_prefix(old_name) + rest,
            old_name,
            new_name,
        ) == formula::quoted_prefix(new_name) + formula::sheet_renamed(rest, old_name, new_name),
        c != '\'' ==> formula::sheet_renamed(seq![c] + rest, old_name, new_name) == seq![c]
            + formula::sheet_renamed(rest, old_name, new_name),
        formula::sheet_renamed(Seq::empty(), old_name, new_name) == Seq::<char>::empty(),
{
    let from = formula::quoted_prefix(old_name);
    let to = formula::quoted_prefix(new_name);
    reveal_strlit("'");
    reveal_strlit("'!");
    assert(from.len() > 0 && from[0] == '\'');
    let s = from + rest;
    assert(s.subrange(0, from.len() as int) == from);
    assert(s.skip(from.len() as int) == rest);
    lemma_replaced_shifted(s, rest, from, to, from.len() as int, 0);
    let u = seq![c] + rest;
    assert(u.skip(1) == rest);
    lemma_replaced_shifted(u, rest, from, to, 1, 0);
    if c != '\'' {
        assert(!text::occurs_at(u, from, 0)) by {
            if from.len() <= u.len() {
                assert(u.subrange(0, from.len() as int)[0] == u[0]);
            }
        }
    }
}

/// A quoted name ends a sheet's name with the quote and the sign, and doubles the quotes in it.
pub proof fn law_quoted_names_double_their_quotes(a: Seq<char>, c: char)
    ensures
        formula::quoted_prefix(seq![c] + a) == "'"@ + (if c == '\'' {
            "''"@
        } else {
            seq![c]
        }) + formula::quoted_prefix(a).skip(1),
        formula::quoted_prefix(Seq::empty()) == "''!"@,
{
    reveal_strlit("'");
    reveal_strlit("''");
    reveal_strlit("'!");
    reveal_strlit("''!");
    let s = seq![c] + a;
    let one = "'"@;
    let two = "''"@;
    assert(s.skip(1) == a);
    lemma_replaced_shifted(s, a, one, two, 1, 0);
    assert(s.subrange(0, 1)[0] == c);
    if c == '\'' {
        assert(s.subrange(0, 1) == one);
    }
    let inner = text::replaced(a, one, two);
    assert(formula::quoted_prefix(a).skip(1) == inner + "'!"@);
    let head = if c == '\'' {
        two
    } else {
        seq![c]
    };
    assert(text::replaced(s, one, two) == head + inner);
    assert(one + (head + inner) + "'!"@ == one + head + (inner + "'!"@));
    assert(text::replaced(Seq::<char>::empty(), one, two) == Seq::<char>::empty());
    assert(one + Seq::<char>::empty() + "'!"@ =~= "''!"@);
}

} // verus!
