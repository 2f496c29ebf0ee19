use sheet_shadow_core::coord::ShadowError;
use sheet_shadow_core::diagnostics::Fields;
use sheet_shadow_core::engine::SheetShadowEngine;
use sheet_shadow_core::objectops::normalize_chart_source_range;
use sheet_shadow_core::package::{Package, Part};
use sheet_shadow_core::save::{Content, Entry};

const TYPES: &str = "<Types><Default Extension=\"xml\" ContentType=\"application/xml\"/></Types>";
const WORKBOOK: &str = "<workbook xmlns:r=\"r\"><sheets><sheet name=\"Data\" sheetId=\"1\" r:id=\"rId1\"/></sheets></workbook>";
const WORKBOOK_RELS: &str = "<Relationships><Relationship Id=\"rId1\" Target=\"worksheets/sheet1.xml\"/></Relationships>";
const STYLES: &str = "<styleSheet><cellXfs count=\"1\"><xf numFmtId=\"0\"/></cellXfs></styleSheet>";
const SHEET: &str = "<worksheet xmlns:r=\"r\" xmlns:x14=\"a\" xmlns:xm=\"b\"><sheetData><row r=\"1\"><c r=\"A1\"><v>1</v></c></row></sheetData><drawing r:id=\"rId1\"/><extLst><ext><x14:sparklineGroups><x14:sparklineGroup type=\"column\" displayEmptyCellsAs=\"gap\" high=\"1\"><x14:sparklines><x14:sparkline><xm:f>Data!A1:C1</xm:f><xm:sqref>D1</xm:sqref></x14:sparkline></x14:sparklines></x14:sparklineGroup></x14:sparklineGroups></ext></extLst></worksheet>";
const SHEET_RELS: &str = "<Relationships><Relationship Id=\"rId1\" Type=\"http://x/drawing\" Target=\"../drawings/drawing1.xml\"/><Relationship Id=\"rId2\" Type=\"http://x/pivotTable\" Target=\"../pivotTables/pivotTable1.xml\"/><Relationship Id=\"rId3\" Type=\"http://x/oleObject\" Target=\"../embeddings/oleObject1.bin\"/></Relationships>";
const DRAWING: &str = "<xdr:wsDr xmlns:xdr=\"d\" xmlns:a=\"a\" xmlns:r=\"r\" xmlns:c=\"c\"><xdr:twoCellAnchor><xdr:from><xdr:col>0</xdr:col><xdr:row>1</xdr:row></xdr:from><xdr:to><xdr:col>3</xdr:col><xdr:row>4</xdr:row></xdr:to><xdr:pic><xdr:nvPicPr><xdr:cNvPr id=\"2\" name=\"Picture\"/></xdr:nvPicPr><xdr:blipFill><a:blip r:embed=\"rId1\"/></xdr:blipFill></xdr:pic></xdr:twoCellAnchor><xdr:twoCellAnchor><xdr:from><xdr:col>5</xdr:col><xdr:row>5</xdr:row></xdr:from><xdr:to><xdr:col>8</xdr:col><xdr:row>9</xdr:row></xdr:to><xdr:graphicFrame><a:graphic><c:chart r:id=\"rId2\"/></a:graphic></xdr:graphicFrame></xdr:twoCellAnchor><xdr:absoluteAnchor><xdr:sp><xdr:nvSpPr><xdr:cNvPr id=\"7\" name=\"Box\"/></xdr:nvSpPr><xdr:txBody><a:p><a:r><a:t>old words</a:t></a:r></a:p></xdr:txBody></xdr:sp></xdr:absoluteAnchor></xdr:wsDr>";
const DRAWING_RELS: &str = "<Relationships><Relationship Id=\"rId1\" Type=\"http://x/image\" Target=\"../media/image1.png\"/><Relationship Id=\"rId2\" Type=\"http://x/chart\" Target=\"../charts/chart1.xml\"/></Relationships>";
const CHART: &str = "<c:chartSpace xmlns:c=\"c\" xmlns:a=\"a\"><c:chart><c:title><c:tx><c:rich><a:p><a:r><a:t>Old title</a:t></a:r></a:p></c:rich></c:tx></c:title><c:plotArea><c:ser><c:val><c:numRef><c:f>Data!$A$1:$A$3</c:f></c:numRef></c:val></c:ser></c:plotArea></c:chart></c:chartSpace>";
const PIVOT: &str = "<pivotTableDefinition name=\"Pivot\" cacheId=\"3\" dataCaption=\"Values\" updatedVersion=\"6\"><location ref=\"F1:G4\"/></pivotTableDefinition>";
const PIVOT_RELS: &str = "<Relationships><Relationship Id=\"rId1\" Type=\"http://x/pivotCacheDefinition\" Target=\"../pivotCache/pivotCacheDefinition1.xml\"/></Relationships>";
const CACHE: &str = "<pivotCacheDefinition/>";

const IMAGE: &str = "drawing_object:1:xl/drawings/drawing1.xml:rId1";
const GRAPH: &str = "drawing_object:1:xl/drawings/drawing1.xml:rId2";
const SHAPE: &str = "drawing_object:1:xl/drawings/drawing1.xml:7";
const SPARKLINE: &str = "high_risk:1:sparkline:1";
const TABLE: &str = "high_risk:1:pivot_table:rId2";
const EMBEDDED: &str = "high_risk:1:ole_object:rId3";

fn sources() -> Vec<(&'static str, &'static str)> {
    vec![
        ("[Content_Types].xml", TYPES),
        ("xl/workbook.xml", WORKBOOK),
        ("xl/_rels/workbook.xml.rels", WORKBOOK_RELS),
        ("xl/styles.xml", STYLES),
        ("xl/worksheets/sheet1.xml", SHEET),
        ("xl/worksheets/_rels/sheet1.xml.rels", SHEET_RELS),
        ("xl/drawings/drawing1.xml", DRAWING),
        ("xl/drawings/_rels/drawing1.xml.rels", DRAWING_RELS),
        ("xl/charts/chart1.xml", CHART),
        ("xl/pivotTables/pivotTable1.xml", PIVOT),
        ("xl/pivotTables/_rels/pivotTable1.xml.rels", PIVOT_RELS),
        ("xl/pivotCache/pivotCacheDefinition1.xml", CACHE),
    ]
}

fn blobs() -> Vec<(&'static str, Vec<u8>)> {
    vec![
        ("xl/media/image1.png", vec![0, 200, 1]),
        ("xl/embeddings/oleObject1.bin", vec![0, 255, 9, 9]),
    ]
}

fn opened() -> SheetShadowEngine {
    let mut parts: Package = Vec::new();
    for (name, text) in sources() {
        parts.push((
            name.to_string(),
            Part { text: Ok(text.to_string()), size: text.len() as u64 },
        ));
    }
    for (name, bytes) in blobs() {
        parts.push((
            name.to_string(),
            Part { text: Err("no text".to_string()), size: bytes.len() as u64 },
        ));
    }
    let mut engine = SheetShadowEngine::new();
    if let Err(e) = engine.ingest("book.xlsx", &Ok(parts)) {
        panic!("{}", e.message());
    }
    engine
}

fn saved(engine: &SheetShadowEngine) -> Vec<(String, Content)> {
    let mut list = Vec::new();
    for (name, text) in sources() {
        list.push(Entry {
            name: name.to_string(),
            text: Ok(text.to_string()),
            data: Ok(text.as_bytes().to_vec()),
        });
    }
    for (name, bytes) in blobs() {
        list.push(Entry {
            name: name.to_string(),
            text: Err("no text".to_string()),
            data: Ok(bytes),
        });
    }
    match engine.save(&list, "preserve") {
        Ok(done) => done,
        Err(e) => panic!("{}", e.message()),
    }
}

fn bytes_of(list: &[(String, Content)], name: &str) -> Vec<u8> {
    match list.iter().find(|(key, _)| key == name) {
        Some((_, Content::Text(text))) => text.as_bytes().to_vec(),
        Some((_, Content::Bytes(bytes))) => bytes.clone(),
        None => panic!("{name} is missing"),
    }
}

fn text_of(list: &[(String, Content)], name: &str) -> String {
    String::from_utf8(bytes_of(list, name)).unwrap()
}

fn get(item: &Fields, name: &str) -> String {
    item.iter().find(|(key, _)| key == name).map(|(_, value)| value.clone()).unwrap()
}

fn good<T>(r: Result<T, ShadowError>) -> T {
    match r {
        Ok(value) => value,
        Err(e) => panic!("{}", e.message()),
    }
}

fn message<T>(r: Result<T, ShadowError>) -> String {
    match r {
        Ok(_) => panic!("not refused"),
        Err(e) => e.message(),
    }
}

fn same_but_reason(tried: &[Fields], applied: &[Fields]) {
    assert_eq!(tried.len(), applied.len());
    for (a, b) in tried.iter().zip(applied.iter()) {
        for name in ["event_type", "sheet", "row", "col", "old_value", "new_value", "formula"] {
            assert_eq!(get(a, name), get(b, name));
        }
    }
}

#[test]
fn drawings_are_read() {
    let engine = opened();
    let list = good(engine.drawing_object_inventory("Data"));
    assert_eq!(list.len(), 3);
    let ids: Vec<String> = list.iter().map(|o| get(o, "object_id")).collect();
    assert!(ids.contains(&IMAGE.to_string()));
    assert!(ids.contains(&GRAPH.to_string()));
    assert!(ids.contains(&SHAPE.to_string()));
    let image = list.iter().find(|o| get(o, "object_id") == IMAGE).unwrap();
    assert_eq!(get(image, "object_type"), "image");
    assert_eq!(get(image, "target_path"), "xl/media/image1.png");
    assert_eq!(get(image, "from_row"), "2");
    assert_eq!(get(image, "to_col"), "D");
    assert!(good(engine.drawing_relationship_diagnostics("Data")).is_empty());
    assert_eq!(message(engine.drawing_object_inventory("Other")), "unknown_sheet: Other");
}

#[test]
fn moving_and_resizing_a_drawing() {
    let mut engine = opened();
    let tried = good(engine.preview_move_drawing_object("Data", IMAGE, 10, 3));
    let applied = good(engine.move_drawing_object("Data", IMAGE, 10, 3));
    same_but_reason(&tried, &applied);
    let object = engine.drawing_objects.iter().find(|o| o.object_id == IMAGE).unwrap();
    assert_eq!((object.from_row, object.from_col), (Some(10), Some(3)));
    assert_eq!((object.to_row, object.to_col), (Some(13), Some(6)));
    good(engine.resize_drawing_object("Data", IMAGE, 20, 9));
    let done = saved(&engine);
    let drawing = text_of(&done, "xl/drawings/drawing1.xml");
    assert!(drawing.contains("<xdr:from><xdr:col>2</xdr:col><xdr:row>9</xdr:row></xdr:from>"), "{drawing}");
    assert!(drawing.contains("<xdr:to><xdr:col>8</xdr:col><xdr:row>19</xdr:row></xdr:to>"), "{drawing}");
    assert!(drawing.contains("<xdr:from><xdr:col>5</xdr:col><xdr:row>5</xdr:row></xdr:from>"), "{drawing}");
    assert_eq!(text_of(&done, "xl/charts/chart1.xml"), CHART);
    assert_eq!(
        message(engine.resize_drawing_object("Data", IMAGE, 2, 9)),
        "unsafe_update: resized drawing end marker must be at or after the start marker"
    );
    assert_eq!(
        message(engine.move_drawing_object("Data", SHAPE, 2, 9)),
        "unsafe_update: absoluteAnchor drawing objects cannot be moved by cell coordinates"
    );
    assert_eq!(
        message(engine.resize_drawing_object("Data", SHAPE, 2, 9)),
        "unsafe_update: resize currently requires a twoCellAnchor drawing object"
    );
    assert!(engine.move_drawing_object("Data", "none", 1, 1).is_err());
}

#[test]
fn replacing_an_image() {
    let mut engine = opened();
    let fresh = Ok(vec![1u8, 2, 3, 4, 5]);
    let tried = good(engine.preview_replace_image("Data", IMAGE, "new.png", &fresh));
    let applied = good(engine.replace_image("Data", IMAGE, "new.png", &fresh));
    same_but_reason(&tried, &applied);
    assert_eq!(bytes_of(&saved(&engine), "xl/media/image1.png"), vec![1, 2, 3, 4, 5]);
    assert_eq!(bytes_of(&saved(&engine), "xl/embeddings/oleObject1.bin"), vec![0, 255, 9, 9]);
    assert_eq!(
        message(engine.replace_image("Data", IMAGE, "new.png", &Ok(vec![]))),
        "unsafe_update: replacement image must not be empty"
    );
    assert_eq!(
        message(engine.replace_image("Data", GRAPH, "new.png", &fresh)),
        "unsafe_update: replace_image requires an image drawing object"
    );
}

#[test]
fn changing_the_text_of_a_shape() {
    let mut engine = opened();
    let tried = good(engine.preview_update_drawing_text("Data", SHAPE, "new & old"));
    let applied = good(engine.update_drawing_text("Data", SHAPE, "new & old"));
    same_but_reason(&tried, &applied);
    let drawing = text_of(&saved(&engine), "xl/drawings/drawing1.xml");
    assert!(drawing.contains("<a:t>new &amp; old</a:t>"), "{drawing}");
    assert!(!drawing.contains("old words"), "{drawing}");
    assert_eq!(
        message(engine.update_drawing_text("Data", SHAPE, " ")),
        "unsafe_update: drawing text must not be empty"
    );
    assert_eq!(
        message(engine.update_drawing_text("Data", IMAGE, "x")),
        "unsafe_update: update_drawing_text requires a shape/textbox drawing object"
    );
}

#[test]
fn changing_a_chart() {
    let mut engine = opened();
    let tried = good(engine.preview_update_chart_title("Data", GRAPH, "New title"));
    let applied = good(engine.update_chart_title("Data", GRAPH, "New title"));
    same_but_reason(&tried, &applied);
    good(engine.update_chart_source("Data", GRAPH, "Data!B1:B3"));
    let chart = text_of(&saved(&engine), "xl/charts/chart1.xml");
    assert!(chart.contains("<a:t>New title</a:t>"), "{chart}");
    assert!(chart.contains("<c:f>Data!B1:B3</c:f>"), "{chart}");
    assert_eq!(text_of(&saved(&engine), "xl/drawings/drawing1.xml"), DRAWING);
    assert_eq!(
        message(engine.update_chart_title("Data", GRAPH, "")),
        "unsafe_update: chart title must not be empty"
    );
    assert_eq!(
        message(engine.update_chart_title("Data", IMAGE, "x")),
        "unsafe_update: chart operation requires a chart drawing object"
    );
    assert_eq!(
        message(engine.update_chart_source("Data", GRAPH, "B1:B3")),
        "unsafe_update: chart source range must include an explicit sheet and A1 range"
    );
    assert_eq!(
        normalize_chart_source_range("  "),
        Err("unsafe_update: chart source range must be a non-empty A1 range".to_string())
    );
}

#[test]
fn high_risk_objects_are_read() {
    let engine = opened();
    let list = good(engine.high_risk_object_inventory("Data"));
    assert_eq!(list.len(), 3);
    let pivot = good(engine.read_high_risk_object("Data", TABLE));
    assert_eq!(get(&pivot, "name"), "Pivot");
    assert_eq!(get(&pivot, "pivot_cache_id"), "3");
    assert_eq!(get(&pivot, "cache_path"), "xl/pivotCache/pivotCacheDefinition1.xml");
    let sparkline = good(engine.read_high_risk_object("Data", SPARKLINE));
    assert_eq!(get(&sparkline, "source_formula"), "Data!A1:C1");
    assert_eq!(get(&sparkline, "ref"), "D1");
    let embedded = good(engine.read_high_risk_object("Data", EMBEDDED));
    assert_eq!(get(&embedded, "target_path"), "xl/embeddings/oleObject1.bin");
    assert!(engine.read_high_risk_object("Data", "none").is_err());
    let told = good(engine.high_risk_object_status("Data"));
    assert_eq!(get(&told, "sheet"), "Data");
}

#[test]
fn changing_a_sparkline() {
    let mut engine = opened();
    let tried = good(engine.preview_update_sparkline_source("Data", SPARKLINE, "Data!A2:C2"));
    let applied = good(engine.update_sparkline_source("Data", SPARKLINE, "Data!A2:C2"));
    same_but_reason(&tried, &applied);
    let sheet = text_of(&saved(&engine), "xl/worksheets/sheet1.xml");
    assert!(sheet.contains("<xm:f>Data!A2:C2</xm:f><xm:sqref>D1</xm:sqref>"), "{sheet}");
    assert_eq!(
        message(engine.update_sparkline_source("Data", SPARKLINE, " ")),
        "unsafe_update: sparkline source_formula must not be empty"
    );
    assert_eq!(
        message(engine.update_sparkline_source("Data", TABLE, "Data!A2:C2")),
        "unsafe_update: high-risk edit only supports sparkline update_source"
    );
}

#[test]
fn changing_a_pivot_table() {
    let mut engine = opened();
    let name = Some("Summary".to_string());
    let tried = good(engine.preview_update_pivot_metadata("Data", TABLE, &name, &None));
    let applied = good(engine.update_pivot_metadata("Data", TABLE, &name, &None));
    same_but_reason(&tried, &applied);
    let pivot = text_of(&saved(&engine), "xl/pivotTables/pivotTable1.xml");
    assert!(pivot.contains("name=\"Summary\""), "{pivot}");
    assert!(pivot.contains("dataCaption=\"Values\""), "{pivot}");
    assert_eq!(text_of(&saved(&engine), "xl/pivotCache/pivotCacheDefinition1.xml"), CACHE);
    assert_eq!(
        message(engine.update_pivot_metadata("Data", TABLE, &None, &None)),
        "unsafe_update: pivot metadata update requires name or data_caption"
    );
    assert_eq!(
        message(engine.update_pivot_metadata("Data", SPARKLINE, &name, &None)),
        "unsafe_update: pivot metadata update requires a pivot_table object"
    );
}

#[test]
fn replacing_an_embedded_object() {
    let mut engine = opened();
    let fresh = Ok(vec![7u8; 6]);
    let tried = good(engine.preview_replace_ole_object("Data", EMBEDDED, "new.bin", &fresh));
    let applied = good(engine.replace_ole_object("Data", EMBEDDED, "new.bin", &fresh));
    same_but_reason(&tried, &applied);
    assert_eq!(bytes_of(&saved(&engine), "xl/embeddings/oleObject1.bin"), vec![7; 6]);
    assert_eq!(
        message(engine.replace_ole_object("Data", EMBEDDED, "new.bin", &Ok(vec![]))),
        "unsafe_update: replacement OLE payload must not be empty"
    );
    assert_eq!(
        message(engine.replace_ole_object("Data", EMBEDDED, "new.docx", &fresh)),
        "unsafe_update: replacement OLE extension must match existing target extension bin"
    );
    assert_eq!(
        message(engine.replace_ole_object("Data", TABLE, "new.bin", &fresh)),
        "unsafe_update: OLE replacement requires an ole_object"
    );
}

#[test]
fn refused_requests_change_nothing() {
    let mut engine = opened();
    assert!(engine.replace_ole_object("Data", TABLE, "new.bin", &Ok(vec![1])).is_err());
    assert!(engine.update_chart_title("Data", IMAGE, "x").is_err());
    assert!(engine.move_drawing_object("Data", SHAPE, 2, 9).is_err());
    assert!(engine.audit_report().is_empty());
    let done = saved(&engine);
    for (name, text) in sources() {
        assert_eq!(text_of(&done, name), text);
    }
}

#[test]
fn a_drawing_that_is_moved_back_is_where_it_was() {
    let mut engine = opened();
    let before: Vec<_> = engine
        .drawing_objects
        .iter()
        .map(|item| (item.from_row, item.from_col, item.to_row, item.to_col))
        .collect();
    good(engine.move_drawing_object("Data", IMAGE, 10, 3));
    assert_eq!(engine.drawing_objects[0].to_row, Some(13));
    good(engine.move_drawing_object("Data", IMAGE, 2, 1));
    let after: Vec<_> = engine
        .drawing_objects
        .iter()
        .map(|item| (item.from_row, item.from_col, item.to_row, item.to_col))
        .collect();
    assert_eq!(before, after);
}

#[test]
fn a_moved_drawing_keeps_its_extent() {
    let mut engine = opened();
    let all = |engine: &SheetShadowEngine| -> Vec<_> {
        engine
            .drawing_objects
            .iter()
            .map(|item| (item.object_id.clone(), item.from_row, item.from_col, item.to_row, item.to_col))
            .collect()
    };
    let before = all(&engine);
    good(engine.apply_move_drawing_object("Data", IMAGE, 10, 3, "test"));
    for (a, b) in before.iter().zip(all(&engine).iter()) {
        if a.0 == IMAGE {
            assert_eq!((b.1, b.2), (Some(10), Some(3)));
            assert_eq!(b.3.unwrap() - b.1.unwrap(), a.3.unwrap() - a.1.unwrap());
            assert_eq!(b.4.unwrap() - b.2.unwrap(), a.4.unwrap() - a.2.unwrap());
        } else {
            assert_eq!(a, b);
        }
    }
    let there = all(&engine);
    assert!(engine.apply_move_drawing_object("Data", SHAPE, 2, 9, "test").is_err());
    assert_eq!(all(&engine), there);
}
