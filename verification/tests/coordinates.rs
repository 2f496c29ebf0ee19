use sheet_shadow_core::coord::{col_from_name, col_to_name, parse_a1};
use sheet_shadow_core::coord::{transform_coord, StructureAxis, StructureEdit, StructureOpKind};
use sheet_shadow_core::formula::rewrite_formula_structure_refs;

fn edit(kind: StructureOpKind, start: usize, end: usize, target: usize) -> StructureEdit {
    StructureEdit { sheet: "Data".to_string(), axis: StructureAxis::Row, kind, start, end, target }
}

#[test]
fn column_names_read_back() {
    assert_eq!(col_to_name(1), "A");
    assert_eq!(col_to_name(26), "Z");
    assert_eq!(col_to_name(27), "AA");
    assert_eq!(col_to_name(16384), "XFD");
    assert_eq!(col_to_name(0), "");
    for col in 0..2000 {
        assert_eq!(col_from_name(&col_to_name(col)), Some(col));
    }
    assert_eq!(col_from_name("xfd"), Some(16384));
    assert_eq!(col_from_name("A1"), None);
    assert_eq!(col_from_name("ZZZZZZZZZZZZZZZZZZZZ"), None);
}

#[test]
fn a1_references_read() {
    assert_eq!(parse_a1("B7"), Some((2, 7)));
    assert_eq!(parse_a1("$AA$10"), Some((27, 10)));
    assert_eq!(parse_a1("B"), None);
    assert_eq!(parse_a1("7"), Some((0, 7)));
}

#[test]
fn deletion_takes_back_an_insertion() {
    let insert = edit(StructureOpKind::Insert, 3, 4, 3);
    let delete = edit(StructureOpKind::Delete, 3, 4, 0);
    assert_eq!(transform_coord(3, &insert), Some(5));
    assert_eq!(transform_coord(2, &insert), Some(2));
    assert_eq!(transform_coord(usize::MAX, &insert), None);
    assert_eq!(transform_coord(3, &delete), None);
    for row in 1..20 {
        let there = transform_coord(row, &insert).unwrap();
        assert_eq!(transform_coord(there, &delete), Some(row));
    }
}

#[test]
fn references_follow_an_insertion() {
    let insert = edit(StructureOpKind::Insert, 2, 2, 2);
    assert_eq!(rewrite_formula_structure_refs("=A1+$B$2", "Data", &insert), "=A1+$B$3");
    assert_eq!(rewrite_formula_structure_refs("=SUM(A1:A5)", "Data", &insert), "=SUM(A1:A6)");
    assert_eq!(rewrite_formula_structure_refs("=Data!A2+Other!A2", "Other", &insert), "=Data!A3+Other!A2");
    assert_eq!(rewrite_formula_structure_refs("=\"A2\"&A2", "Data", &insert), "=\"A2\"&A3");
    let delete = edit(StructureOpKind::Delete, 2, 2, 0);
    assert_eq!(rewrite_formula_structure_refs("=A2+A3", "Data", &delete), "=#REF!+A2");
}
