use sheet_shadow_core::coord::{key_of, ShadowError};
use sheet_shadow_core::diagnostics::{structured_ref_diagnostics, Fields};
use sheet_shadow_core::engine::SheetShadowEngine;
use sheet_shadow_core::objects::TableInfo;
use sheet_shadow_core::package::{Package, Part};
use sheet_shadow_core::partxml::{build_comments_xml, comments_on};
use sheet_shadow_core::records::CellComment;
use sheet_shadow_core::save::{Content, Entry};
use sheet_shadow_core::sheetparts::parse_comments_xml;

const WORKBOOK_RELS: &str = "<Relationships><Relationship Id=\"rId1\" Target=\"worksheets/sheet1.xml\"/></Relationships>";
const WORKBOOK: &str = "<workbook xmlns:r=\"r\"><sheets><sheet name=\"Data\" sheetId=\"1\" r:id=\"rId1\"/></sheets><definedNames><definedName>Data!$Z$9</definedName><definedName name=\"Void\"></definedName><definedName name=\"Rate\">Data!$B$1</definedName><definedName name=\"Here\" localSheetId=\"0\">Data!$A$1</definedName></definedNames></workbook>";
const SHEET: &str = "<worksheet xmlns:r=\"r\"><sheetData><row r=\"1\"><c r=\"A1\"><v>1</v></c></row><row r=\"2\"><c r=\"A2\"><v>2</v></c></row></sheetData><drawing r:id=\"rId9\"/></worksheet>";
const SHEET_RELS: &str = "<Relationships><Relationship Id=\"rId4\" Type=\"http://x/relationships/comments\" Target=\"../comments7.xml\"/><Relationship Id=\"rId9\" Type=\"http://x/drawing\" Target=\"../drawings/drawing1.xml\"/></Relationships>";
const COMMENTS: &str = "<comments><authors><author>x</author></authors><commentList><comment ref=\"A1\" authorId=\"0\"><text><t>first</t></text></comment></commentList></comments>";
const STYLES: &str = "<s:styleSheet xmlns:s=\"m\"><s:fonts count=\"1\"><s:font/></s:fonts><s:fills count=\"1\"><s:fill/></s:fills><s:cellXfs count=\"1\"><s:xf numFmtId=\"0\"/></s:cellXfs></s:styleSheet>";
const DRAWING: &str = "<xdr:wsDr xmlns:xdr=\"d\" xmlns:a=\"a\" xmlns:r=\"r\" xmlns:c=\"c\"><xdr:twoCellAnchor><xdr:from><xdr:col>0</xdr:col><xdr:row>1</xdr:row></xdr:from><xdr:to><xdr:col>3</xdr:col><xdr:row>4</xdr:row></xdr:to><xdr:pic><xdr:blipFill><a:blip r:link=\"rId1\"/></xdr:blipFill></xdr:pic></xdr:twoCellAnchor><xdr:twoCellAnchor><xdr:from><xdr:col>5</xdr:col><xdr:row>5</xdr:row></xdr:from><xdr:to><xdr:col>8</xdr:col><xdr:row>9</xdr:row></xdr:to><xdr:graphicFrame><a:graphic><c:chart r:id=\"rId2\"/></a:graphic></xdr:graphicFrame></xdr:twoCellAnchor></xdr:wsDr>";
const DRAWING_RELS: &str = "<Relationships><Relationship Id=\"rId1\" Type=\"http://x/image\" Target=\"http://far/away.png\" TargetMode=\"External\"/><Relationship Id=\"rId2\" Type=\"http://x/chart\" Target=\"http://far/chart.xml\" TargetMode=\"External\"/></Relationships>";
const IMAGE: &str = "drawing_object:1:xl/drawings/drawing1.xml:rId1";
const GRAPH: &str = "drawing_object:1:xl/drawings/drawing1.xml:rId2";

fn sources() -> Vec<(&'static str, &'static str)> {
    vec![
        ("[Content_Types].xml", "<Types></Types>"),
        ("xl/workbook.xml", WORKBOOK),
        ("xl/_rels/workbook.xml.rels", WORKBOOK_RELS),
        ("xl/styles.xml", STYLES),
        ("xl/worksheets/sheet1.xml", SHEET),
        ("xl/worksheets/_rels/sheet1.xml.rels", SHEET_RELS),
        ("xl/comments7.xml", COMMENTS),
        ("xl/drawings/drawing1.xml", DRAWING),
        ("xl/drawings/_rels/drawing1.xml.rels", DRAWING_RELS),
    ]
}

fn opened() -> SheetShadowEngine {
    let mut parts: Package = Vec::new();
    for (name, text) in sources() {
        parts.push((
            name.to_string(),
            Part { text: Ok(text.to_string()), size: text.len() as u64 },
        ));
    }
    let mut engine = SheetShadowEngine::new();
    good(engine.ingest("book.xlsx", &Ok(parts)));
    engine
}

fn saved(engine: &SheetShadowEngine) -> Vec<(String, Content)> {
    let mut list = Vec::new();
    for (name, text) in sources() {
        list.push(Entry {
            name: name.to_string(),
            text: Ok(text.to_string()),
            data: Ok(text.as_bytes().to_vec()),
        });
    }
    good(engine.save(&list, "preserve"))
}

fn text_of(list: &[(String, Content)], name: &str) -> String {
    match list.iter().find(|(key, _)| key == name) {
        Some((_, Content::Text(text))) => text.clone(),
        Some((_, Content::Bytes(bytes))) => String::from_utf8(bytes.clone()).unwrap(),
        None => panic!("{name} is missing"),
    }
}

fn good<T>(r: Result<T, ShadowError>) -> T {
    match r {
        Ok(value) => value,
        Err(e) => panic!("{}", e.message()),
    }
}

fn message<T>(r: Result<T, ShadowError>) -> String {
    match r {
        Ok(_) => panic!("not refused"),
        Err(e) => e.message(),
    }
}

fn get(item: &Fields, name: &str) -> String {
    item.iter().find(|(key, _)| key == name).map(|(_, value)| value.clone()).unwrap()
}

fn table(totals_row: Option<usize>, end_col: usize) -> TableInfo {
    TableInfo {
        name: "T".to_string(),
        path: "xl/tables/table1.xml".to_string(),
        sheet: "Data".to_string(),
        columns: vec!["Item".to_string(), "Qty".to_string()],
        start_row: 1,
        end_row: 4,
        start_col: 1,
        end_col,
        totals_row,
    }
}

fn reports(formula: &str, table: TableInfo) -> Vec<Fields> {
    let cells = vec![(key_of("Data", 1, 1), "1".to_string()), (key_of("Data", 2, 1), "2".to_string())];
    let none = Vec::new();
    structured_ref_diagnostics(&key_of("Data", 9, 9), formula, formula, &cells, &none, &vec![table])
}

#[test]
fn totals_of_a_table_without_totals_are_not_resolved() {
    for formula in ["=T[[#Totals],[Qty]]", "=T[#Totals]", "=T[[#Totals],[Item]:[Qty]]"] {
        let told = reports(formula, table(None, 2));
        assert_eq!(told.len(), 1, "{formula}");
        assert_eq!(get(&told[0], "severity"), "warning", "{formula}");
        assert_eq!(get(&told[0], "code"), "structured_table_ref_totals_metadata_missing", "{formula}");
        assert_eq!(get(&told[0], "fallback"), "all_current_non_formula_workbook_cells", "{formula}");
        assert_eq!(get(&told[0], "fallback_dep_count"), "2", "{formula}");
        let precise = reports(formula, table(Some(4), 2));
        assert_eq!(get(&precise[0], "code"), "structured_table_ref_precise", "{formula}");
    }
}

#[test]
fn columns_past_the_end_of_a_table_are_not_resolved() {
    for formula in ["=T[Qty]", "=T[[#All],[Qty]]", "=T[[Item]:[Qty]]"] {
        let told = reports(formula, table(None, 1));
        assert_eq!(told.len(), 1, "{formula}");
        assert_eq!(get(&told[0], "severity"), "warning", "{formula}");
        assert_eq!(get(&told[0], "fallback"), "all_current_non_formula_workbook_cells", "{formula}");
        assert_eq!(get(&reports(formula, table(None, 2))[0], "severity"), "info", "{formula}");
    }
}

#[test]
fn a_renamed_sheet_takes_its_cells_along() {
    let mut engine = opened();
    good(engine.set_comment("Data", 2, 1, "second"));
    good(engine.merge_cells("Data", 1, 1, 2, 1));
    good(engine.rename_sheet("Data", "Facts"));
    assert!(engine.cells.iter().all(|item| item.0.sheet == "Facts"));
    assert_eq!(engine.merge_dirty_sheets, vec!["Facts".to_string()]);
    assert!(engine.merges.iter().all(|item| item.0 == "Facts"));
    let here = engine.defined_names.iter().find(|item| item.name == "Here").unwrap();
    assert_eq!(here.scope_sheet, Some("Facts".to_string()));
    assert!(engine.comments.iter().all(|item| item.key.sheet == "Data"));
    assert!(engine.drawing_objects.iter().all(|item| item.sheet == "Data"));
    assert_eq!(engine.comment_dirty_sheets, vec!["Data".to_string()]);
    let workbook = text_of(&saved(&engine), "xl/workbook.xml");
    assert!(workbook.contains("name=\"Facts\""), "{workbook}");
    assert!(workbook.contains("<definedName name=\"Rate\">Data!$B$1</definedName>"), "{workbook}");
}

#[test]
fn changed_comments_go_to_the_part_that_is_named() {
    let mut engine = opened();
    good(engine.set_comment("Data", 2, 1, "second"));
    let list = saved(&engine);
    assert_eq!(list.len(), sources().len());
    let comments = text_of(&list, "xl/comments7.xml");
    assert!(comments.contains("first") && comments.contains("second"), "{comments}");
    assert_eq!(text_of(&list, "xl/worksheets/_rels/sheet1.xml.rels"), SHEET_RELS);
}

#[test]
fn written_comments_read_back_in_order() {
    let comment = |sheet: &str, row: usize, col: usize, text: &str| CellComment {
        key: key_of(sheet, row, col),
        text: text.to_string(),
    };
    let list = vec![
        comment("Data", 12, 1, "third"),
        comment("Other", 1, 1, "elsewhere"),
        comment("Data", 2, 28, "a < b & \"c\""),
        comment("Data", 2, 3, "first"),
    ];
    let written = build_comments_xml(&comments_on(&list, "Data"));
    let back = match parse_comments_xml("Data", &written) {
        Ok(found) => found,
        Err(_) => panic!("the document is not read"),
    };
    let told: Vec<(&str, usize, usize, &str)> = back
        .iter()
        .map(|item| (item.key.sheet.as_str(), item.key.row, item.key.col, item.text.as_str()))
        .collect();
    assert_eq!(
        told,
        vec![
            ("Data", 2, 3, "first"),
            ("Data", 2, 28, "a < b & \"c\""),
            ("Data", 12, 1, "third"),
        ]
    );
}

#[test]
fn defined_names_keep_their_own_targets() {
    let mut engine = opened();
    assert_eq!(engine.defined_names.len(), 2);
    good(engine.set_sheet_visibility("Data", "visible"));
    let workbook = text_of(&saved(&engine), "xl/workbook.xml");
    assert!(workbook.contains("<definedName>Data!$Z$9</definedName>"), "{workbook}");
    assert!(workbook.contains("<definedName name=\"Void\"></definedName>"), "{workbook}");
    assert!(workbook.contains("<definedName name=\"Rate\">Data!$B$1</definedName>"), "{workbook}");
    assert!(workbook.contains("localSheetId=\"0\">Data!$A$1</definedName>"), "{workbook}");
}

#[test]
fn formats_are_written_under_the_prefix_of_the_styles() {
    let mut engine = opened();
    let fields: Fields = vec![
        ("bold".to_string(), "true".to_string()),
        ("fill_color".to_string(), "00FF00".to_string()),
        ("number_format".to_string(), "0.0".to_string()),
        ("horizontal".to_string(), "center".to_string()),
    ];
    good(engine.set_cell_format("Data", 1, 1, &fields));
    let styles = text_of(&saved(&engine), "xl/styles.xml");
    assert!(styles.contains("<s:font><s:b />"), "{styles}");
    assert!(styles.contains("<s:fill><s:patternFill patternType=\"solid\">"), "{styles}");
    assert!(styles.contains("<s:numFmt numFmtId=\"164\" formatCode=\"0.0\" />"), "{styles}");
    assert!(styles.contains("<s:alignment horizontal=\"center\" /></s:xf></s:cellXfs>"), "{styles}");
    assert!(!styles.contains("x:"), "{styles}");
}

#[test]
fn external_pictures_and_charts_are_refused() {
    let mut engine = opened();
    assert!(engine.drawing_objects.iter().all(|item| item.target_exists && item.target_external));
    assert_eq!(
        message(engine.replace_image("Data", IMAGE, "new.png", &Ok(vec![1, 2]))),
        "drawing_relationship_resolution: image target part is missing"
    );
    assert_eq!(
        message(engine.update_chart_title("Data", GRAPH, "Title")),
        "drawing_relationship_resolution: chart target part is missing"
    );
    assert!(engine.image_replacements.is_empty() && engine.audit_events.is_empty());
}
