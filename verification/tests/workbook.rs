use sheet_shadow_core::coord::{key_of, ShadowError};
use sheet_shadow_core::diagnostics::Fields;
use sheet_shadow_core::engine::SheetShadowEngine;
use sheet_shadow_core::eval::{Arith, Ask, Outcome, Reply};
use sheet_shadow_core::package::{Package, Part};
use sheet_shadow_core::recalc::Bounds;
use sheet_shadow_core::save::{Content, Entry};

fn format_number(value: f64) -> String {
    if value.fract().abs() < 0.0000001 {
        return format!("{}", value as i64);
    }
    let mut text = format!("{value:.10}");
    while text.contains('.') && text.ends_with('0') {
        text.pop();
    }
    if text.ends_with('.') {
        text.pop();
    }
    text
}

fn number(ask: &Ask, i: usize) -> f64 {
    ask.args[i].parse().unwrap()
}

fn answer(ask: &Ask) -> Reply {
    let all: Vec<f64> = ask.args.iter().map(|t| t.parse().unwrap_or(0.0)).collect();
    match ask.op {
        Arith::Evaluate => match meval::eval_str(&ask.args[0]) {
            Ok(value) => Reply::Number(value.to_string()),
            Err(err) => Reply::Failed(err.to_string()),
        },
        Arith::Format => Reply::Number(format_number(number(ask, 0))),
        Arith::Total => Reply::Number(format_number(all.iter().sum())),
        Arith::Average => Reply::Number(format_number(if all.is_empty() {
            0.0
        } else {
            all.iter().sum::<f64>() / all.len() as f64
        })),
        Arith::Max => Reply::Number(format_number(all.into_iter().reduce(f64::max).unwrap_or(0.0))),
        Arith::Min => Reply::Number(format_number(all.into_iter().reduce(f64::min).unwrap_or(0.0))),
        Arith::Compare => {
            let (left, right) = (number(ask, 0), number(ask, 2));
            Reply::Flag(match ask.args[1].as_str() {
                ">=" => left >= right,
                "<=" => left <= right,
                ">" => left > right,
                "<" => left < right,
                _ => (left - right).abs() <= f64::EPSILON,
            })
        }
        Arith::Comparable => Reply::Flag(!(number(ask, 0) - number(ask, 1)).is_nan()),
        Arith::Count => Reply::Count(number(ask, 0) as usize),
        Arith::NonZero => Reply::Flag(number(ask, 0) != 0.0),
        Arith::Round => {
            let factor = 10_f64.powi(number(ask, 1) as i32);
            Reply::Number(format_number((number(ask, 0) * factor).round() / factor))
        }
        Arith::Fixed => {
            let places = number(ask, 1) as usize;
            Reply::Number(format!("{:.places$}", number(ask, 0)))
        }
        Arith::Percent => {
            let places = number(ask, 1) as usize;
            Reply::Number(format!("{:.places$}%", number(ask, 0) * 100.0))
        }
        Arith::Hundredfold => Reply::Number(format_number(number(ask, 0) * 100.0)),
        Arith::Days => Reply::Count((number(ask, 0).floor() as i64).max(0) as usize),
    }
}

fn carry_on<T>(mut request: impl FnMut(&Vec<(Ask, Reply)>, Bounds) -> Outcome<T>) -> Result<T, String> {
    let mut answers: Vec<(Ask, Reply)> = Vec::new();
    let mut bounds = Bounds { fuel: 4, steps: 8 };
    loop {
        match request(&answers, bounds) {
            Outcome::Value(value) => return Ok(value),
            Outcome::Fail(message) => return Err(message),
            Outcome::Need(ask) => {
                let reply = answer(&ask);
                answers.push((ask, reply));
            }
            Outcome::Exhausted => {
                bounds.fuel *= 2;
                bounds.steps *= 2;
            }
        }
    }
}

const TYPES: &str = "<Types><Default Extension=\"xml\" ContentType=\"application/xml\"/></Types>";
const WORKBOOK: &str = "<workbook xmlns:r=\"r\"><sheets><sheet name=\"Data\" sheetId=\"1\" r:id=\"rId1\"/><sheet name=\"My Notes\" sheetId=\"2\" state=\"hidden\" r:id=\"rId2\"/></sheets><definedNames><definedName name=\"Rate\">Data!$B$1</definedName></definedNames></workbook>";
const WORKBOOK_RELS: &str = "<Relationships><Relationship Id=\"rId1\" Target=\"worksheets/sheet1.xml\"/><Relationship Id=\"rId2\" Target=\"/xl/worksheets/sheet2.xml\"/></Relationships>";
const SHARED: &str = "<sst><si><t>alpha</t></si><si><t>beta</t></si><si><t>alone</t></si></sst>";
const STYLES: &str = "<styleSheet><numFmts count=\"1\"><numFmt numFmtId=\"164\" formatCode=\"yyyy-mm-dd\"/></numFmts><fonts count=\"1\"><font/></fonts><fills count=\"1\"><fill/></fills><cellXfs count=\"3\"><xf numFmtId=\"0\"/><xf numFmtId=\"164\"/><xf numFmtId=\"9\"/></cellXfs></styleSheet>";
const SHEET1: &str = "<worksheet><dimension ref=\"A1:C3\"/><sheetData><row r=\"1\"><c r=\"A1\"><v>10</v></c><c r=\"B1\"><v>2</v></c><c r=\"C1\"><f>A1*B1</f><v>20</v></c></row><row r=\"2\"><c r=\"A2\" t=\"s\"><v>0</v></c><c r=\"B2\" t=\"s\"><v>0</v></c><c r=\"C2\" t=\"s\"><v>2</v></c></row><row r=\"3\"><c r=\"A3\" s=\"1\"><v>45000</v></c><c r=\"B3\" s=\"2\"><v>0.25</v></c><c r=\"C3\"><f>C1+1</f><v>21</v></c></row></sheetData><mergeCells count=\"1\"><mergeCell ref=\"A5:B6\"/></mergeCells></worksheet>";
const SHEET2: &str = "<worksheet><sheetData><row r=\"1\"><c r=\"A1\" t=\"inlineStr\"><is><t>hello</t></is></c><c r=\"B1\"><f>Data!A1+5</f><v>15</v></c></row></sheetData></worksheet>";
const PICTURE: [u8; 4] = [0, 159, 146, 150];

fn sources() -> Vec<(&'static str, &'static str)> {
    vec![
        ("[Content_Types].xml", TYPES),
        ("xl/workbook.xml", WORKBOOK),
        ("xl/_rels/workbook.xml.rels", WORKBOOK_RELS),
        ("xl/sharedStrings.xml", SHARED),
        ("xl/styles.xml", STYLES),
        ("xl/worksheets/sheet1.xml", SHEET1),
        ("xl/worksheets/sheet2.xml", SHEET2),
        ("docProps/app.xml", "<Properties/>"),
    ]
}

fn package() -> Package {
    let mut parts: Package = Vec::new();
    for (name, text) in sources() {
        parts.push((
            name.to_string(),
            Part { text: Ok(text.to_string()), size: text.len() as u64 },
        ));
    }
    parts.push((
        "xl/media/image1.png".to_string(),
        Part { text: Err("no text".to_string()), size: 4 },
    ));
    parts
}

fn entries() -> Vec<Entry> {
    let mut list = Vec::new();
    for (name, text) in sources() {
        list.push(Entry {
            name: name.to_string(),
            text: Ok(text.to_string()),
            data: Ok(text.as_bytes().to_vec()),
        });
    }
    list.push(Entry {
        name: "xl/media/image1.png".to_string(),
        text: Err("no text".to_string()),
        data: Ok(PICTURE.to_vec()),
    });
    list
}

fn opened() -> SheetShadowEngine {
    let mut engine = SheetShadowEngine::new();
    assert!(engine.ingest("book.xlsx", &Ok(package())).is_ok());
    engine
}

fn update(engine: &mut SheetShadowEngine, sheet: &str, row: usize, col: usize, value: &str) -> Result<Vec<(String, usize, usize)>, String> {
    let key = key_of(sheet, row, col);
    carry_on(|answers, bounds| engine.update_cell(&key, value, answers, bounds))
        .map(|keys| keys.into_iter().map(|k| (k.sheet, k.row, k.col)).collect())
}

fn get(item: &Fields, name: &str) -> String {
    item.iter().find(|(key, _)| key == name).map(|(_, value)| value.clone()).unwrap()
}

fn saved(engine: &SheetShadowEngine, policy: &str) -> Vec<(String, Content)> {
    match engine.save(&entries(), policy) {
        Ok(list) => list,
        Err(e) => panic!("{}", e.message()),
    }
}

fn text_of(list: &[(String, Content)], name: &str) -> String {
    match list.iter().find(|(key, _)| key == name) {
        Some((_, Content::Text(text))) => text.clone(),
        Some((_, Content::Bytes(bytes))) => String::from_utf8(bytes.clone()).unwrap(),
        None => panic!("{name} is missing"),
    }
}

fn message<T>(r: Result<T, ShadowError>) -> String {
    match r {
        Ok(_) => panic!("not refused"),
        Err(e) => e.message(),
    }
}

#[test]
fn reading_a_workbook() {
    let engine = opened();
    assert_eq!(engine.get_cell_value("Data", 1, 1), "10");
    assert_eq!(engine.get_cell_value("Data", 2, 1), "alpha");
    assert_eq!(engine.get_cell_value("Data", 2, 3), "alone");
    assert_eq!(engine.get_cell_value("My Notes", 1, 1), "hello");
    assert_eq!(engine.get_cell_value("Data", 9, 9), "");
    assert_eq!(engine.shadow_meta_count(), 11);
    let meta = engine.get_cell_meta("Data", 1, 3).unwrap();
    assert_eq!(meta.cell_type, "formula");
    assert_eq!(meta.original_formula, "=A1*B1");
    assert_eq!(meta.cached_value_before, "20");
    let status = engine.workbook_status();
    assert_eq!(get(&status, "source_path"), "book.xlsx");
    assert_eq!(get(&status, "sheet_count"), "2");
    assert_eq!(get(&status, "modified_count"), "0");
    assert_eq!(engine.sheets[1].visibility, "hidden");
    assert_eq!(engine.sheets[1].path, "xl/worksheets/sheet2.xml");
    assert_eq!(engine.style_count, 3);
}

#[test]
fn reading_a_broken_workbook() {
    let mut engine = SheetShadowEngine::new();
    let missing = engine.ingest("gone.xlsx", &Err(ShadowError::Runtime("no file".to_string())));
    assert_eq!(message(missing), "no file");
    assert_eq!(engine.source_path, Some("gone.xlsx".to_string()));
    let mut parts = package();
    parts[1].1.text = Ok("<workbook>".to_string());
    assert!(matches!(engine.ingest("bad.xlsx", &Ok(parts)), Err(ShadowError::Runtime(_))));
}

#[test]
fn an_update_goes_through_to_what_depends_on_it() {
    let mut engine = opened();
    let impacted = update(&mut engine, "Data", 1, 1, "100").unwrap();
    assert_eq!(
        impacted,
        vec![
            ("Data".to_string(), 1, 3),
            ("My Notes".to_string(), 1, 2),
            ("Data".to_string(), 3, 3),
        ]
    );
    assert_eq!(engine.get_cell_value("Data", 1, 1), "100");
    assert_eq!(engine.get_cell_value("Data", 1, 3), "200");
    assert_eq!(engine.get_cell_value("Data", 3, 3), "201");
    assert_eq!(engine.get_cell_value("My Notes", 1, 2), "105");
    let trail = engine.audit_report();
    assert_eq!(trail.len(), 4);
    assert_eq!(get(&trail[0], "event_type"), "input_update");
    assert_eq!(get(&trail[0], "old_value"), "10");
    assert_eq!(get(&trail[0], "reason"), "direct_update");
    assert_eq!(get(&trail[1], "event_type"), "formula_recalc");
    assert_eq!(get(&trail[1], "formula"), "=A1*B1");
    assert_eq!(get(&trail[1], "reason"), "dependent_on:Data!A1");
    engine.clear_audit_log();
    assert!(engine.audit_report().is_empty());
}

#[test]
fn an_update_is_refused() {
    let mut engine = opened();
    assert_eq!(
        update(&mut engine, "Nowhere", 1, 1, "1"),
        Err("unknown_sheet: Nowhere".to_string())
    );
    assert_eq!(
        update(&mut engine, "Data", 0, 1, "1"),
        Err("invalid_cell_ref: row and col must be positive".to_string())
    );
    assert!(engine.audit_report().is_empty());
    assert_eq!(engine.get_cell_value("Data", 1, 1), "10");
}

#[test]
fn a_preview_tells_what_an_update_does() {
    let mut engine = opened();
    let key = key_of("Data", 1, 1);
    let tried =
        carry_on(|answers, bounds| engine.preview_update_cell(&key, "3", answers, bounds)).unwrap();
    assert_eq!(engine.get_cell_value("Data", 1, 1), "10");
    assert!(engine.audit_report().is_empty());
    update(&mut engine, "Data", 1, 1, "3").unwrap();
    let applied = engine.audit_report();
    assert_eq!(tried.len(), applied.len());
    for (a, b) in tried.iter().zip(applied.iter()) {
        for name in ["event_type", "sheet", "row", "col", "old_value", "new_value", "formula"] {
            assert_eq!(get(a, name), get(b, name));
        }
    }
    assert_eq!(get(&tried[0], "reason"), "preview_update");
}

#[test]
fn setting_a_formula() {
    let mut engine = opened();
    let key = key_of("Data", 4, 1);
    let impacted =
        carry_on(|answers, bounds| engine.set_formula(&key, " SUM(A1:B1) ", answers, bounds)).unwrap();
    assert_eq!(impacted.len(), 1);
    assert_eq!(engine.get_cell_value("Data", 4, 1), "12");
    assert_eq!(engine.get_cell_meta("Data", 4, 1).unwrap().original_formula, "=SUM(A1:B1)");
    update(&mut engine, "Data", 1, 2, "5").unwrap();
    assert_eq!(engine.get_cell_value("Data", 4, 1), "15");
    let deps = match engine.formula_dependencies("Data", 4, 1) {
        Ok(deps) => deps,
        Err(e) => panic!("{}", e.message()),
    };
    assert_eq!(deps.len(), 2);
    assert_eq!((deps[1].row, deps[1].col), (1, 2));
    assert_eq!(message(engine.formula_dependencies("Data", 9, 9)), "formula cell not found");
}

#[test]
fn a_formula_that_refers_to_itself_is_refused() {
    let mut engine = opened();
    let key = key_of("Data", 1, 1);
    let refused = carry_on(|answers, bounds| engine.set_formula(&key, "=A1+B1", answers, bounds));
    assert_eq!(
        refused.err().unwrap(),
        "unsupported_formula: circular formula references are not supported"
    );
    assert_eq!(engine.get_cell_value("Data", 1, 1), "10");
    assert!(engine.formula_dependencies("Data", 1, 1).is_err());
}

#[test]
fn a_batch_of_updates() {
    let mut engine = opened();
    let none = carry_on(|answers, bounds| engine.batch_update_cells(&vec![], answers, bounds));
    assert_eq!(none.err().unwrap(), "unsafe_update: batch must not be empty");
    let list = vec![
        (key_of("Data", 1, 1), "4".to_string()),
        (key_of("Data", 1, 2), "5".to_string()),
    ];
    let told = carry_on(|answers, bounds| engine.batch_update_cells(&list, answers, bounds)).unwrap();
    assert_eq!(engine.get_cell_value("Data", 1, 3), "20");
    assert_eq!(get(&told[0], "reason"), "batch_update");
}

#[test]
fn typed_values() {
    let engine = opened();
    let read = |row: usize, col: usize| {
        carry_on(|answers, _| engine.get_cell_typed_value("Data", row, col, answers)).unwrap()
    };
    let date = read(3, 1);
    assert_eq!(get(&date, "semantic_type"), "date");
    assert_eq!(get(&date, "canonical_value"), "2023-03-15");
    assert_eq!(get(&date, "raw_value"), "45000");
    assert_eq!(get(&date, "style_id"), "1");
    let percent = read(3, 2);
    assert_eq!(get(&percent, "semantic_type"), "percentage");
    assert_eq!(get(&percent, "display_value"), "25%");
    let text = read(2, 1);
    assert_eq!(get(&text, "semantic_type"), "string");
    assert_eq!(get(&text, "display_value"), "alpha");
    let blank = read(9, 9);
    assert_eq!(get(&blank, "semantic_type"), "blank");
    assert_eq!(get(&blank, "cell_type"), "blank");
}

#[test]
fn saving_without_changes_copies_everything() {
    let engine = opened();
    let list = saved(&engine, "preserve");
    let source = entries();
    assert_eq!(list.len(), source.len());
    for (i, entry) in source.iter().enumerate() {
        assert_eq!(list[i].0, entry.name);
        let bytes = match &list[i].1 {
            Content::Text(text) => text.as_bytes().to_vec(),
            Content::Bytes(bytes) => bytes.clone(),
        };
        assert_eq!(Ok(bytes), entry.data);
    }
}

#[test]
fn saving_an_update_touches_the_sheet_alone() {
    let mut engine = opened();
    update(&mut engine, "Data", 1, 1, "11").unwrap();
    update(&mut engine, "Data", 2, 1, "new & old").unwrap();
    update(&mut engine, "Data", 7, 2, "5").unwrap();
    let list = saved(&engine, "preserve");
    let sheet = text_of(&list, "xl/worksheets/sheet1.xml");
    assert!(sheet.contains("<c r=\"A1\"><v>11</v></c>"), "{sheet}");
    assert!(sheet.contains("<f>A1*B1</f><v>22</v>"), "{sheet}");
    assert!(sheet.contains("new &amp; old"), "{sheet}");
    assert!(sheet.contains("<row r=\"7\"><c r=\"B7\"><v>5</v></c></row>"), "{sheet}");
    assert!(sheet.contains("<c r=\"B2\" t=\"s\"><v>0</v></c>"), "{sheet}");
    assert_eq!(text_of(&list, "xl/sharedStrings.xml"), SHARED);
    assert_eq!(text_of(&list, "xl/styles.xml"), STYLES);
    assert_eq!(text_of(&list, "xl/workbook.xml"), WORKBOOK);
    assert!(text_of(&list, "xl/worksheets/sheet2.xml").contains("<v>16</v>"));
}

#[test]
fn saving_with_shared_strings() {
    let mut engine = opened();
    update(&mut engine, "Data", 2, 3, "changed").unwrap();
    let list = saved(&engine, "update_unique");
    assert_eq!(
        text_of(&list, "xl/sharedStrings.xml"),
        "<sst><si><t>alpha</t></si><si><t>beta</t></si><si><t>changed</t></si></sst>"
    );
    assert!(text_of(&list, "xl/worksheets/sheet1.xml").contains("<c r=\"C2\" t=\"s\"><v>2</v></c>"));
    update(&mut engine, "Data", 2, 1, "twice used").unwrap();
    assert_eq!(
        message(engine.save(&entries(), "update_unique")),
        "shared_string_policy: shared string index 0 is referenced by 2 cells"
    );
    let list = saved(&engine, "auto");
    assert!(text_of(&list, "xl/worksheets/sheet1.xml").contains("twice used"));
    assert!(text_of(&list, "xl/sharedStrings.xml").contains("changed"));
    assert_eq!(
        message(engine.save(&entries(), "merge")),
        "shared_string_policy: unsupported policy: merge"
    );
}

#[test]
fn saving_before_reading_is_refused() {
    let engine = SheetShadowEngine::new();
    assert_eq!(message(engine.save(&vec![], "preserve")), "ingest() must be called before save()");
}

#[test]
fn saving_comments() {
    let mut engine = opened();
    assert_eq!(message(engine.set_comment("Data", 1, 1, "  ")), "unsafe_update: comment text must not be empty");
    assert!(engine.set_comment("Data", 1, 1, "look <here>").is_ok());
    assert_eq!(engine.comments.len(), 1);
    let list = saved(&engine, "preserve");
    assert_eq!(list.len(), entries().len() + 2);
    let n = list.len();
    assert_eq!(list[n - 2].0, "xl/worksheets/_rels/sheet1.xml.rels");
    assert_eq!(list[n - 1].0, "xl/comments/comment1.xml");
    assert!(text_of(&list, "xl/comments/comment1.xml").contains("look &lt;here&gt;"));
    assert!(text_of(&list, "[Content_Types].xml").contains("/xl/comments/comment1.xml"));
    assert!(engine.remove_comment("Data", 1, 1).is_ok());
    assert!(engine.comments.is_empty());
}

#[test]
fn merging_cells() {
    let mut engine = opened();
    assert_eq!(
        message(engine.merge_cells("Data", 2, 2, 2, 2)),
        "unsafe_update: merge range must cover more than one cell"
    );
    assert_eq!(
        message(engine.merge_cells("Data", 6, 2, 5, 1)),
        "unsafe_update: merge range A5:B6 was not changed"
    );
    assert!(engine.merge_cells("Data", 8, 1, 8, 3).is_ok());
    assert_eq!(engine.get_cell_meta("Data", 8, 2).unwrap().merge_range, "A8:C8");
    let list = saved(&engine, "preserve");
    let sheet = text_of(&list, "xl/worksheets/sheet1.xml");
    assert!(sheet.contains("<mergeCells count=\"2\">"), "{sheet}");
    assert!(sheet.contains("<mergeCell ref=\"A8:C8\" />"), "{sheet}");
    assert!(engine.unmerge_cells("Data", 8, 1, 8, 3).is_ok());
    assert_eq!(engine.merges[0].1, vec!["A5:B6".to_string()]);
}

#[test]
fn formatting_a_cell() {
    let mut engine = opened();
    let none: Fields = vec![];
    assert_eq!(
        message(engine.set_cell_format("Data", 1, 1, &none)),
        "unsafe_update: set_cell_format requires at least one supported format intent"
    );
    let wrong: Fields = vec![("horizontal".to_string(), "middle".to_string())];
    assert_eq!(
        message(engine.set_cell_format("Data", 1, 1, &wrong)),
        "unsafe_update: horizontal must be one of left, center, right"
    );
    let bold: Fields = vec![
        ("bold".to_string(), "true".to_string()),
        ("number_format".to_string(), "0.00".to_string()),
    ];
    assert!(engine.set_cell_format("Data", 1, 1, &bold).is_ok());
    assert_eq!(engine.get_cell_meta("Data", 1, 1).unwrap().style_id, Some(3));
    let list = saved(&engine, "preserve");
    let styles = text_of(&list, "xl/styles.xml");
    assert!(styles.contains("<cellXfs count=\"4\">"), "{styles}");
    assert!(styles.contains("formatCode=\"0.00\""), "{styles}");
    assert!(text_of(&list, "xl/worksheets/sheet1.xml").contains("<c r=\"A1\" s=\"3\"><v>10</v></c>"));
}

#[test]
fn renaming_a_sheet() {
    let mut engine = opened();
    assert_eq!(message(engine.rename_sheet("Data", " ")), "unsafe_update: new sheet name must not be empty");
    assert_eq!(
        message(engine.rename_sheet("Data", "My Notes")),
        "unsafe_update: sheet name already exists: My Notes"
    );
    assert_eq!(message(engine.rename_sheet("Nowhere", "There")), "unknown_sheet: Nowhere");
    assert!(engine.rename_sheet("Data", "Facts").is_ok());
    assert_eq!(engine.get_cell_value("Facts", 1, 1), "10");
    assert_eq!(engine.get_cell_value("Data", 1, 1), "");
    update(&mut engine, "Facts", 1, 1, "1").unwrap();
    assert_eq!(engine.get_cell_value("My Notes", 1, 2), "6");
    let list = saved(&engine, "preserve");
    let workbook = text_of(&list, "xl/workbook.xml");
    assert!(workbook.contains("name=\"Facts\""), "{workbook}");
    assert!(workbook.contains("Data!$B$1"), "{workbook}");
    assert!(text_of(&list, "xl/worksheets/sheet2.xml").contains("Facts!A1+5"));
}

#[test]
fn hiding_a_sheet() {
    let mut engine = opened();
    assert_eq!(
        message(engine.set_sheet_visibility("Data", "gone")),
        "unsafe_update: visibility must be visible, hidden, or veryHidden"
    );
    assert!(engine.set_sheet_visibility("My Notes", "visible").is_ok());
    assert_eq!(engine.sheets[1].visibility, "visible");
}

#[test]
fn inserting_and_deleting_rows() {
    let mut engine = opened();
    let told = carry_on(|answers, bounds| engine.insert_rows("Data", 2, 2, answers, bounds.fuel)).unwrap();
    assert_eq!(get(told.last().unwrap(), "event_type"), "structure_update");
    assert_eq!(engine.get_cell_value("Data", 4, 1), "alpha");
    assert_eq!(engine.get_cell_value("Data", 2, 1), "");
    assert_eq!(engine.get_cell_value("Data", 5, 3), "21");
    let deps = match engine.formula_dependencies("Data", 5, 3) {
        Ok(deps) => deps,
        Err(e) => panic!("{}", e.message()),
    };
    assert_eq!((deps[0].row, deps[0].col), (1, 3));
    let sheet = text_of(&saved(&engine, "preserve"), "xl/worksheets/sheet1.xml");
    assert!(sheet.contains("<row r=\"4\">"), "{sheet}");
    assert!(sheet.contains("<c t=\"s\" r=\"A4\"><v>0</v></c>"), "{sheet}");
    carry_on(|answers, bounds| engine.delete_rows("Data", 2, 2, answers, bounds.fuel)).unwrap();
    assert_eq!(engine.get_cell_value("Data", 2, 1), "alpha");
    let refused = carry_on(|answers, bounds| engine.delete_rows("Data", 2, 0, answers, bounds.fuel));
    assert!(refused.is_err());
    let moved = carry_on(|answers, bounds| engine.move_rows("Data", 2, 3, 3, answers, bounds.fuel));
    assert_eq!(
        moved.err().unwrap(),
        "unsafe_update: move target must be outside the moved range"
    );
}

#[test]
fn formulas_follow_moved_columns() {
    let mut engine = opened();
    carry_on(|answers, bounds| engine.insert_cols("Data", 1, 1, answers, bounds.fuel)).unwrap();
    assert_eq!(engine.get_cell_value("Data", 1, 4), "20");
    assert_eq!(engine.get_cell_meta("Data", 1, 4).unwrap().original_formula, "=B1*C1");
    assert_eq!(engine.get_cell_meta("My Notes", 1, 2).unwrap().original_formula, "=Data!B1+5");
    assert_eq!(engine.defined_names[0].target, "Data!$C$1");
    let before = engine.audit_report().len();
    let tried = carry_on(|answers, bounds| {
        engine.preview_delete_cols("Data", 1, 1, answers, bounds.fuel)
    })
    .unwrap();
    assert!(!tried.is_empty());
    assert_eq!(engine.audit_report().len(), before);
}

#[test]
fn rules_on_a_sheet() {
    let mut engine = opened();
    let list: Fields = vec![("formula1".to_string(), "\"a,b\"".to_string())];
    assert!(engine.set_data_validation("Data", 3, 1, 1, 1, &list).is_ok());
    assert_eq!(engine.data_validations[0].validation_type, "list");
    assert_eq!(engine.data_validations[0].range.start_row, 1);
    let none: Fields = vec![];
    assert_eq!(
        message(engine.set_data_validation("Data", 1, 1, 1, 1, &none)),
        "unsafe_update: data validation requires formula1"
    );
    assert!(engine.set_autofilter("Data", 1, 1, 3, 3).is_ok());
    assert!(engine.set_autofilter("Data", 1, 1, 2, 2).is_ok());
    assert_eq!(engine.auto_filters.len(), 1);
    let hot: Fields = vec![
        ("operator".to_string(), "greaterThan".to_string()),
        ("formula".to_string(), "5".to_string()),
    ];
    assert!(engine.add_conditional_format("Data", 1, 1, 3, 1, &hot).is_ok());
    assert!(engine.add_conditional_format("Data", 1, 2, 3, 2, &hot).is_ok());
    assert_eq!(engine.conditional_formats[1].priority, 2);
    assert_eq!(
        message(engine.add_conditional_format("Data", 1, 2, 3, 2, &none)),
        "unsafe_update: conditional format requires formula"
    );
    let inventory = match engine.object_inventory("Data") {
        Ok(list) => list,
        Err(e) => panic!("{}", e.message()),
    };
    assert_eq!(inventory.len(), 4);
    assert_eq!(get(&inventory[0], "ref"), "A1:A3");
    assert_eq!(get(&inventory[1], "object_type"), "autofilter");
    assert_eq!(message(engine.object_inventory("Nowhere")), "unknown_sheet: Nowhere");
    let sheet = text_of(&saved(&engine, "preserve"), "xl/worksheets/sheet1.xml");
    assert!(sheet.contains("<autoFilter ref=\"A1:B2\" />"), "{sheet}");
    assert!(sheet.contains("dataValidation"), "{sheet}");
    assert!(sheet.contains("conditionalFormatting"), "{sheet}");
    assert!(engine.clear_data_validations("Data").is_ok());
    assert!(engine.clear_autofilter("Data").is_ok());
    assert!(engine.clear_conditional_formats("Data").is_ok());
    assert!(engine.data_validations.is_empty());
    assert!(engine.auto_filters.is_empty());
    assert!(engine.conditional_formats.is_empty());
}

#[test]
fn the_reasons_of_a_trial_stand_for_those_of_the_edit() {
    let mut engine = opened();
    let tried = carry_on(|answers, bounds| {
        engine.preview_delete_rows("Data", 1, 1, answers, bounds.fuel)
    })
    .unwrap();
    assert!(engine.audit_events.is_empty());
    let told = carry_on(|answers, bounds| engine.delete_rows("Data", 1, 1, answers, bounds.fuel)).unwrap();
    assert_eq!(tried.len(), told.len());
    assert!(tried.iter().any(|item| get(item, "reason") == "preview_delete_rows"));
    for (a, b) in tried.iter().zip(told.iter()) {
        for (name, value) in a {
            let expected = if name == "reason" && value == "preview_delete_rows" {
                "delete_rows".to_string()
            } else {
                value.clone()
            };
            assert_eq!(get(b, name), expected, "{name}");
        }
    }
}

#[test]
fn unmerging_undoes_merging() {
    let mut engine = opened();
    let before = engine.merges.clone();
    assert!(engine.merge_cells("Data", 1, 1, 2, 2).is_ok());
    assert_eq!(engine.get_cell_meta("Data", 2, 1).unwrap().merge_range, "A1:B2");
    assert!(engine.unmerge_cells("Data", 2, 1, 1, 2).is_ok());
    assert_eq!(engine.merges, before);
    assert_eq!(engine.get_cell_meta("Data", 2, 1).unwrap().merge_range, "");
    assert!(engine.unmerge_cells("Data", 1, 1, 2, 2).is_err());
    assert_eq!(engine.merges, before);
}

#[test]
fn deleting_undoes_inserting() {
    let mut engine = opened();
    let places = [(1, 1), (1, 2), (2, 1), (2, 3), (3, 1), (3, 2), (4, 1), (5, 1)];
    let before: Vec<String> =
        places.iter().map(|(row, col)| engine.get_cell_value("Data", *row, *col)).collect();
    carry_on(|answers, bounds| engine.insert_rows("Data", 2, 3, answers, bounds.fuel)).unwrap();
    assert_eq!(engine.get_cell_value("Data", 5, 1), "alpha");
    carry_on(|answers, bounds| engine.delete_rows("Data", 2, 3, answers, bounds.fuel)).unwrap();
    let after: Vec<String> =
        places.iter().map(|(row, col)| engine.get_cell_value("Data", *row, *col)).collect();
    assert_eq!(before, after);
}

#[test]
fn formulas_agree_with_their_values_after_an_update() {
    let mut engine = opened();
    let changed = update(&mut engine, "Data", 1, 2, "7").unwrap();
    assert_eq!(changed, vec![("Data".to_string(), 1, 3), ("Data".to_string(), 3, 3)]);
    for (sheet, row, col, expected) in [("Data", 1, 3, "70"), ("Data", 3, 3, "71"), ("My Notes", 1, 2, "15")] {
        let key = key_of(sheet, row, col);
        let value = carry_on(|answers, bounds| engine.evaluate_formula_cell(&key, answers, bounds.fuel)).unwrap();
        assert_eq!(value, expected);
        assert_eq!(engine.get_cell_value(sheet, row, col), expected);
    }
}
