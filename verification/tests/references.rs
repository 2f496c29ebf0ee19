use sheet_shadow_core::coord::{key_of, Key, StructureAxis, StructureEdit, StructureOpKind};
use sheet_shadow_core::deps::{extract_deps, strip_formula_string_literals};
use sheet_shadow_core::diagnostics::{formula_dependency_diagnostics, Fields};
use sheet_shadow_core::eval::{eval_logical_calls, eval_lookup_calls, eval_text_calls, Ctx, Outcome};
use sheet_shadow_core::formula::{
    collapse_single_cell_range, rewrite_formula_sheet_ref, rewrite_formula_structure_refs,
    transform_range_ref, transform_sqref_ref, unquote_sheet_name,
};
use sheet_shadow_core::objects::{apply_table_shift, shift_span, table_ref, TableInfo};
use sheet_shadow_core::ranges::{expand_range, parse_ref, range_rows};
use sheet_shadow_core::recalc::sort_keys;
use sheet_shadow_core::records::DefinedName;
use sheet_shadow_core::structured::{structured_ref_area, structured_ref_specs};

fn table() -> TableInfo {
    TableInfo {
        name: "Sales".to_string(),
        path: "xl/tables/table1.xml".to_string(),
        sheet: "Data".to_string(),
        start_row: 1,
        end_row: 5,
        start_col: 1,
        end_col: 3,
        totals_row: Some(5),
        columns: vec!["Item".to_string(), "Price".to_string(), "Count".to_string()],
    }
}

fn edit(kind: StructureOpKind, axis: StructureAxis, start: usize, end: usize, target: usize) -> StructureEdit {
    StructureEdit { sheet: "Data".to_string(), axis, kind, start, end, target }
}

fn places(keys: &[Key]) -> Vec<(String, usize, usize)> {
    let mut list: Vec<(String, usize, usize)> =
        keys.iter().map(|k| (k.sheet.clone(), k.row, k.col)).collect();
    list.sort();
    list
}

fn deps(formula: &str) -> Vec<(String, usize, usize)> {
    let cells = vec![
        (key_of("Data", 1, 1), "1".to_string()),
        (key_of("Data", 2, 1), "2".to_string()),
        (key_of("Other", 1, 1), "3".to_string()),
    ];
    let order = vec!["Data".to_string(), "Middle".to_string(), "Other".to_string()];
    let names = vec![DefinedName {
        name: "Rate".to_string(),
        target: "Other!$B$2".to_string(),
        scope_sheet: None,
    }];
    let found = extract_deps(formula, &key_of("Data", 9, 9), &cells, &order, &names, &vec![], &vec![table()]);
    let list = places(&found);
    let mut once = list.clone();
    once.dedup();
    assert_eq!(list, once);
    list
}

fn at(sheet: &str, row: usize, col: usize) -> (String, usize, usize) {
    (sheet.to_string(), row, col)
}

fn get(item: &Fields, name: &str) -> String {
    item.iter().find(|(key, _)| key == name).map(|(_, value)| value.clone()).unwrap()
}

#[test]
fn what_a_formula_depends_on() {
    assert_eq!(deps("=A1+A1"), vec![at("Data", 1, 1)]);
    assert_eq!(deps("=SUM($B$2:A1)"), vec![at("Data", 1, 1), at("Data", 1, 2), at("Data", 2, 1), at("Data", 2, 2)]);
    assert_eq!(deps("=\"A1\"&B2"), vec![at("Data", 2, 2)]);
    assert_eq!(deps("=Other!C4"), vec![at("Other", 4, 3)]);
    assert_eq!(deps("=Rate*2"), vec![at("Other", 2, 2)]);
    assert_eq!(deps("=SUM(A:A)"), vec![at("Data", 1, 1), at("Data", 2, 1)]);
    assert_eq!(
        deps("=SUM(Data:Other!A1)"),
        vec![at("Data", 1, 1), at("Middle", 1, 1), at("Other", 1, 1)]
    );
    assert_eq!(
        deps("=SUM(Sales[Price])"),
        vec![at("Data", 2, 2), at("Data", 3, 2), at("Data", 4, 2)]
    );
}

#[test]
fn literals_are_blanked_in_place() {
    assert_eq!(strip_formula_string_literals("=\"A1\"&B2"), "=\"  \"&B2");
    assert_eq!(strip_formula_string_literals("=\"a\"\"b\"&C3"), "=\" \"\" \"&C3");
    assert_eq!(strip_formula_string_literals("=A1+1"), "=A1+1");
}

#[test]
fn parts_of_a_table() {
    let t = table();
    let inside = key_of("Data", 3, 9);
    assert_eq!(structured_ref_area(&t, &inside, "[Price]"), Some((2, 4, 2, 2)));
    assert_eq!(structured_ref_area(&t, &inside, "[#All]"), Some((1, 5, 1, 3)));
    assert_eq!(structured_ref_area(&t, &inside, "[#Headers]"), Some((1, 1, 1, 3)));
    assert_eq!(structured_ref_area(&t, &inside, "[#Totals]"), Some((5, 5, 1, 3)));
    assert_eq!(structured_ref_area(&t, &inside, "[[Price]:[Count]]"), Some((2, 4, 2, 3)));
    assert_eq!(structured_ref_area(&t, &inside, "[[#Totals],[Count]]"), Some((5, 5, 3, 3)));
    assert_eq!(structured_ref_area(&t, &inside, "[Missing]"), None);
    assert_eq!(table_ref(&t), "A1:C5");
    assert_eq!(
        structured_ref_specs("=SUM(Sales[Price])"),
        Some(vec![("Sales".to_string(), "[Price]".to_string())])
    );
}

#[test]
fn diagnostics_of_a_formula() {
    let report = |formula: &str| {
        formula_dependency_diagnostics(
            &key_of("Data", 9, 9),
            formula,
            &vec![],
            &vec![],
            &vec![table()],
            &vec![],
            &vec!["Data".to_string()],
        )
    };
    assert!(report("=A1+1").is_empty());
    let outside = report("=[Book2.xlsx]Sheet1!A1");
    assert_eq!(outside.len(), 1);
    assert_eq!(get(&outside[0], "cell"), "I9");
    let unknown = report("=SUM(Sales[Missing])");
    assert_eq!(unknown.len(), 1);
    assert_eq!(get(&unknown[0], "formula"), "=SUM(Sales[Missing])");
}

#[test]
fn references_follow_their_lines() {
    let row = StructureAxis::Row;
    let col = StructureAxis::Col;
    let insert = edit(StructureOpKind::Insert, col, 2, 3, 2);
    assert_eq!(rewrite_formula_structure_refs("=A1+B1", "Data", &insert), "=A1+D1");
    let delete = edit(StructureOpKind::Delete, row, 2, 3, 0);
    assert_eq!(rewrite_formula_structure_refs("=A1+A2+A5", "Data", &delete), "=A1+#REF!+A3");
    for formula in ["=A2+Other!A3", "=SUM(Other!A2:A9)", "='My Sheet'!B2*3"] {
        assert_eq!(rewrite_formula_structure_refs(formula, "Elsewhere", &delete), formula);
    }
    assert_eq!(transform_range_ref("A1:B4", "Data", &insert), Some("A1:D4".to_string()));
    assert_eq!(transform_range_ref("A2:B2", "Data", &delete), None);
    assert_eq!(transform_sqref_ref("A1 A5:B6", "Data", &delete), Some("A1 A3:B4".to_string()));
    assert_eq!(collapse_single_cell_range("C3:C3"), "C3");
    assert_eq!(collapse_single_cell_range("C3:C4"), "C3:C4");
}

#[test]
fn references_follow_a_renamed_sheet() {
    assert_eq!(rewrite_formula_sheet_ref("=Data!A1+Other!A1", "Data", "Facts"), "=Facts!A1+Other!A1");
    assert_eq!(rewrite_formula_sheet_ref("='My Data'!A1", "My Data", "It's"), "='It''s'!A1");
    assert_eq!(unquote_sheet_name("'It''s'"), "It's");
}

#[test]
fn spans_and_tables_follow_edits() {
    let row = StructureAxis::Row;
    for start in 1..9 {
        for count in 1..4 {
            let there = edit(StructureOpKind::Insert, row, start, start + count - 1, start);
            let back = edit(StructureOpKind::Delete, row, start, start + count - 1, 0);
            let (a, b) = shift_span(3, 6, &there);
            assert_eq!(shift_span(a, b, &back), (3, 6));
        }
    }
    let mut t = table();
    apply_table_shift(&mut t, &edit(StructureOpKind::Insert, row, 3, 4, 3));
    assert_eq!((t.start_row, t.end_row, t.totals_row), (1, 7, Some(7)));
    apply_table_shift(&mut t, &edit(StructureOpKind::Delete, row, 7, 7, 0));
    assert_eq!((t.start_row, t.end_row, t.totals_row), (1, 6, Some(6)));
    t.totals_row = None;
    apply_table_shift(&mut t, &edit(StructureOpKind::Insert, row, 3, 4, 3));
    assert_eq!((t.start_row, t.end_row, t.totals_row), (1, 8, Some(8)));
}

#[test]
fn ranges_of_cells() {
    let k = parse_ref("'My Sheet'!$B$7", "Data").unwrap();
    assert_eq!((k.sheet.as_str(), k.row, k.col), ("My Sheet", 7, 2));
    assert!(parse_ref("B7+1", "Data").is_none());
    let cells = vec![(key_of("Data", 1, 1), "x".to_string())];
    let keys = expand_range("A1:B2", "Data", &cells).unwrap();
    assert_eq!(
        keys.iter().map(|(k, _)| at(&k.sheet, k.row, k.col)).collect::<Vec<_>>(),
        vec![at("Data", 1, 1), at("Data", 1, 2), at("Data", 2, 1), at("Data", 2, 2)]
    );
    let rows = range_rows("A1:B2", "Data", &cells);
    assert_eq!(rows.len(), 2);
    assert_eq!(rows[0][0].1, "x");
    assert_eq!(rows[1][1].1, "");
    let sorted = sort_keys(&vec![key_of("b", 1, 1), key_of("a", 2, 1), key_of("a", 1, 9), key_of("a", 1, 2)]);
    let order: Vec<(String, usize, usize)> =
        sorted.iter().map(|k| (k.sheet.clone(), k.row, k.col)).collect();
    assert_eq!(order, vec![at("a", 1, 2), at("a", 1, 9), at("a", 2, 1), at("b", 1, 1)]);
}

#[test]
fn calls_are_replaced_group_by_group() {
    let cells = vec![(key_of("Data", 1, 1), "abc".to_string())];
    let answers = vec![];
    let c = Ctx { sheet: "Data", cells: &cells, answers: &answers };
    assert!(matches!(eval_text_calls("LEN(A1)+1", &c, 50), Outcome::Value(t) if t == "3+1"));
    assert!(matches!(eval_text_calls("TRIM(\" x \")", &c, 50), Outcome::Value(t) if t == "\"x\""));
    assert!(matches!(eval_lookup_calls("MATCH(\"abc\",A1:A2,0)", &c, 50), Outcome::Value(t) if t == "1"));
    assert!(matches!(eval_logical_calls("AND(A1=\"abc\")", &c, 50), Outcome::Value(t) if t == "1"));
}
