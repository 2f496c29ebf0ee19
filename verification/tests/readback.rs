use sheet_shadow_core::cells::{parse_sheet_xml, Grid};
use sheet_shadow_core::cellxml::{patch_cell, CellWrite};
use sheet_shadow_core::coord::{key_of, ShadowError};
use sheet_shadow_core::records::{
    AutoFilterRule, ConditionalFormatRule, DataValidationRule, ObjectRange,
};
use sheet_shadow_core::sheetparts::parse_sheet_objects;
use sheet_shadow_core::sheetxml::patch_sheet_objects_xml;

const SHEET: &str = "<x:worksheet xmlns:x=\"m\"><x:sheetData><x:row r=\"1\"><x:c r=\"A1\" s=\"3\"><x:f>B1</x:f><x:v>1</x:v></x:c><x:c r=\"B1\" t=\"s\"><x:v>1</x:v></x:c></x:row><x:row r=\"3\"><x:c r=\"B3\" t=\"inlineStr\"><x:is><x:t>grün</x:t></x:is></x:c></x:row></x:sheetData></x:worksheet>";

fn good<T>(r: Result<T, ShadowError>) -> T {
    match r {
        Ok(value) => value,
        Err(e) => panic!("{}", e.message()),
    }
}

fn read(text: &str) -> Grid {
    let mut grid = Grid { merges: vec![], cells: vec![], formulas: vec![], meta: vec![] };
    let shared = vec!["zero".to_string(), "one".to_string()];
    good(parse_sheet_xml("Data", text, &shared, &vec![], &mut grid));
    grid
}

fn told(grid: &Grid) -> Vec<(usize, usize, String, Option<u32>, String)> {
    let mut list: Vec<_> = grid
        .cells
        .iter()
        .map(|(key, value)| {
            let record = &grid.meta.iter().find(|(k, _)| k.row == key.row && k.col == key.col).unwrap().1;
            (key.row, key.col, value.clone(), record.style_id, record.original_formula.clone())
        })
        .collect();
    list.sort();
    list
}

fn plain(value: &str) -> CellWrite {
    CellWrite { value: value.to_string(), formula: None, shared: None, inline: false, style: None }
}

fn cell(row: usize, col: usize, value: &str, style: Option<u32>, formula: &str) -> (usize, usize, String, Option<u32>, String) {
    (row, col, value.to_string(), style, formula.to_string())
}

#[test]
fn a_written_cell_reads_back() {
    let before = read(SHEET);
    assert_eq!(
        told(&before),
        vec![cell(1, 1, "1", Some(3), "=B1"), cell(1, 2, "one", None, ""), cell(3, 2, "grün", None, "")]
    );
    let out = good(patch_cell(SHEET, "A1", 1, 1, &plain("a < b")));
    assert_eq!(
        told(&read(&out)),
        vec![cell(1, 1, "a < b", Some(3), ""), cell(1, 2, "one", None, ""), cell(3, 2, "grün", None, "")]
    );
    assert!(read(&out).formulas.is_empty());
    let styled = CellWrite { style: Some(7), ..plain("2.5") };
    let out = good(patch_cell(SHEET, "B3", 3, 2, &styled));
    assert_eq!(
        told(&read(&out)),
        vec![cell(1, 1, "1", Some(3), "=B1"), cell(1, 2, "one", None, ""), cell(3, 2, "2.5", Some(7), "")]
    );
    let numbered = CellWrite { shared: Some(0), ..plain("zero") };
    let out = good(patch_cell(SHEET, "B3", 3, 2, &numbered));
    assert_eq!(told(&read(&out))[2], cell(3, 2, "zero", None, ""));
}

#[test]
fn a_cell_that_was_not_there_reads_back() {
    for (name, row, col) in [("C1", 1, 3), ("A2", 2, 1), ("A3", 3, 1), ("Z9", 9, 26)] {
        let written = CellWrite { formula: Some("=A1&\"ß\"".to_string()), ..plain("1ß") };
        let out = good(patch_cell(SHEET, name, row, col, &written));
        let mut expected = told(&read(SHEET));
        expected.push(cell(row, col, "1ß", None, "=A1&\"ß\""));
        expected.sort();
        assert_eq!(told(&read(&out)), expected, "{name}");
        let key = key_of("Data", row, col);
        assert!(read(&out).formulas.iter().any(|(k, f)| k.row == key.row
            && k.col == key.col
            && f.formula == "=A1&\"ß\""));
    }
}

fn range(sheet: &str, start_row: usize, start_col: usize, end_row: usize, end_col: usize) -> ObjectRange {
    ObjectRange { sheet: sheet.to_string(), start_row, start_col, end_row, end_col }
}

fn check(sheet: &str, row: usize, operator: &str, allow_blank: bool) -> DataValidationRule {
    DataValidationRule {
        range: range(sheet, row, 1, row + 1, 30),
        validation_type: "whole".to_string(),
        operator: operator.to_string(),
        formula1: "1 < 2".to_string(),
        formula2: String::new(),
        allow_blank,
    }
}

fn look(sheet: &str, row: usize, operator: &str, priority: usize) -> ConditionalFormatRule {
    ConditionalFormatRule {
        range: range(sheet, row, 2, row, 2),
        rule_type: "cellIs".to_string(),
        operator: operator.to_string(),
        formula: "\"a&b\"".to_string(),
        priority,
    }
}

#[test]
fn written_rules_read_back() {
    let checks = vec![check("Data", 1, "between", true), check("Other", 2, "", true), check("Data", 5, "", false)];
    let filters = vec![
        AutoFilterRule { range: range("Other", 1, 1, 2, 2) },
        AutoFilterRule { range: range("Data", 1, 1, 9, 3) },
        AutoFilterRule { range: range("Data", 4, 4, 5, 5) },
    ];
    let looks = vec![look("Data", 3, "equal", 4), look("Data", 4, "", 12), look("Other", 4, "", 1)];
    let out = good(patch_sheet_objects_xml(SHEET, "Data", &checks, &filters, &looks));
    let back = good(parse_sheet_objects("Data", &out));
    assert_eq!(back.validations.len(), 2);
    for (found, row, operator, blank) in
        [(&back.validations[0], 1, "between", true), (&back.validations[1], 5, "", false)]
    {
        assert_eq!(found.range.ref_text(), range("Data", row, 1, row + 1, 30).ref_text());
        assert_eq!(found.validation_type, "whole");
        assert_eq!(found.operator, operator);
        assert_eq!(found.formula1, "1 < 2");
        assert_eq!(found.formula2, "");
        assert_eq!(found.allow_blank, blank);
    }
    assert_eq!(back.filter.unwrap().range.ref_text(), "A1:C9");
    assert_eq!(back.formats.len(), 2);
    for (found, row, operator, priority) in [(&back.formats[0], 3, "equal", 4), (&back.formats[1], 4, "", 12)] {
        assert_eq!(found.range.ref_text(), format!("B{row}:B{row}"));
        assert_eq!(found.rule_type, "cellIs");
        assert_eq!(found.operator, operator);
        assert_eq!(found.formula, "\"a&b\"");
        assert_eq!(found.priority, priority);
    }
    assert_eq!(told(&read(&out)), told(&read(SHEET)));
    let none = good(patch_sheet_objects_xml(&out, "Data", &vec![], &vec![], &vec![]));
    assert_eq!(none, SHEET);
}
