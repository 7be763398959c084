use hikitsugi_doc_xml::archive::Entries;
use hikitsugi_doc_xml::floats::{FloatReading, Number};
use hikitsugi_doc_xml::sheet::WorksheetData;
use hikitsugi_doc_xml::styles::{styles_from_events, CellXf, StyleFill, Styles};
use hikitsugi_doc_xml::workbook::{
    extract_sheets, locate_sheets, parse_rels, parse_shared_strings, parse_workbook, shared_strings_in,
};
use hikitsugi_doc_xml::worksheet::{cell_format, read_cell_value, worksheet_in};
use hikitsugi_doc_xml::xml::read_document;

fn reading(text: &str) -> FloatReading {
    let x: f64 = text.parse().unwrap();
    FloatReading {
        text: text.to_string(),
        number: Number { shown: x.to_string(), positive: x > 0.0 },
        pixels: (x / 914400.0 * 96.0).to_string(),
    }
}

fn sheet(xml: &str, shared: &[&str], numbers: &[&str]) -> (WorksheetData, bool) {
    let table: Vec<FloatReading> = numbers.iter().map(|t| reading(t)).collect();
    let shared: Vec<String> = shared.iter().map(|s| s.to_string()).collect();
    let d = read_document(xml.as_bytes(), false);
    worksheet_in(&d.events, "S", &shared, &Styles::none(), &table)
}

#[test]
fn shared_strings() {
    let d = read_document(
        "<sst><si><t>one</t></si><si><r><t>two </t></r><r><t>&amp; more</t></r></si>\
         <si><t/></si><si/><t>stray</t></sst>"
            .as_bytes(),
        false,
    );
    assert_eq!(shared_strings_in(&d.events), vec!["one", "two & more", "", ""]);
    let d = read_document(
        "<sst><si><t>漢字</t><rPh sb=\"0\" eb=\"2\"><t>かんじ</t></rPh><phoneticPr/></si>\
         <si><r><t>a</t></r><rPh><t>x</t></rPh><r><t>b</t></r></si></sst>"
            .as_bytes(),
        false,
    );
    assert_eq!(shared_strings_in(&d.events), vec!["漢字", "ab"]);
    let mut e = Entries::empty();
    assert_eq!(parse_shared_strings(&e).len(), 0);
    e.insert("xl/sharedStrings.xml".to_string(), b"<sst><si><t> a </t></si></sst>".to_vec());
    assert_eq!(parse_shared_strings(&e), vec![" a "]);
}

#[test]
fn sheets_of_a_workbook() {
    let sheets = extract_sheets(
        b"<workbook><sheet name=\"no\" r:id=\"r0\"/><sheets><sheet name=\"A\" r:id=\"r1\"/>\
          <sheet name=\"\" r:id=\"r2\"/><sheet name=\"B&amp;C\" id=\"r3\"/><sheet name=\"D\"/></sheets></workbook>",
    );
    assert_eq!(
        sheets,
        vec![("A".to_string(), "r1".to_string()), ("B&C".to_string(), "r3".to_string())]
    );
}

#[test]
fn relationships_lead_to_parts() {
    let rels = parse_rels(
        b"<Relationships><Relationship Id=\"a\" Target=\"x.xml\"/><Relationship Id=\"a\" Target=\"y.xml\"/>\
          <Relationship Id=\"b\" Target=\"//z.xml\"/><Relationship Id=\"c\" Target=\"\"/></Relationships>",
    );
    assert_eq!(rels.target("a"), Some("y.xml"));
    assert_eq!(rels.target("c"), None);
    let sheets = vec![
        ("S1".to_string(), "a".to_string()),
        ("S2".to_string(), "b".to_string()),
        ("S3".to_string(), "c".to_string()),
    ];
    assert_eq!(
        locate_sheets(&sheets, &rels),
        vec![("S1".to_string(), "xl/y.xml".to_string()), ("S2".to_string(), "z.xml".to_string())]
    );
    let mut e = Entries::empty();
    assert_eq!(parse_workbook(&e).len(), 0);
    e.insert(
        "xl/workbook.xml".to_string(),
        b"<workbook><sheets><sheet name=\"A\" r:id=\"r1\"/></sheets></workbook>".to_vec(),
    );
    assert_eq!(parse_workbook(&e).len(), 0);
    e.insert(
        "xl/_rels/workbook.xml.rels".to_string(),
        b"<r><Relationship Id=\"r1\" Target=\"worksheets/sheet1.xml\"/></r>".to_vec(),
    );
    assert_eq!(
        parse_workbook(&e),
        vec![("A".to_string(), "xl/worksheets/sheet1.xml".to_string())]
    );
}

#[test]
fn values_of_cells() {
    let shared = vec!["zero".to_string(), "one".to_string()];
    assert_eq!(read_cell_value("s", " 1 ", &shared), "one");
    assert_eq!(read_cell_value("s", "x", &shared), "zero");
    assert_eq!(read_cell_value("s", "7", &shared), "7");
    assert_eq!(read_cell_value("b", " 1\n", &shared), "TRUE");
    assert_eq!(read_cell_value("b", "0", &shared), "FALSE");
    assert_eq!(read_cell_value("inlineStr", " a ", &shared), " a ");
    assert_eq!(read_cell_value("n", " 1.5 ", &shared), "1.5");
    assert_eq!(read_cell_value("str", " a ", &shared), "a");
}

#[test]
fn cells() {
    let (s, drawing) = sheet(
        "<worksheet><dimension ref=\"A1:B2\"/><sheetData>\
         <row r=\"1\"><c r=\"A1\" t=\"s\"><v>0</v></c><c r=\"B1\"><v>3.5</v></c><c r=\"C1\"/><c r=\"D1\"><v></v></c></row>\
         <row r=\"5\"><c r=\"A5\" t=\"b\"><v>1</v></c><c t=\"e\"><v>#N/A</v></c>\
         <c r=\"C5\" t=\"inlineStr\"><is><t>in line</t></is></c></row>\
         </sheetData></worksheet>",
        &["hello"],
        &[],
    );
    assert!(!drawing);
    assert_eq!((s.name.as_str(), s.max_row, s.max_col), ("S", 5, 4));
    let cells: Vec<(u32, u32, &str, &str)> = s
        .cells
        .iter()
        .map(|c| (c.row, c.col, c.value.as_str(), c.cell_type.as_str()))
        .collect();
    assert_eq!(
        cells,
        vec![
            (1, 1, "hello", "s"),
            (1, 2, "3.5", "n"),
            (5, 1, "TRUE", "b"),
            (5, 1, "#N/A", "s"),
            (5, 3, "in line", "s"),
        ]
    );
    assert!(s.cells.iter().all(|c| c.rowspan == 1 && c.colspan == 1 && c.format.is_none()));
}

#[test]
fn columns_and_rows() {
    let (s, _) = sheet(
        "<worksheet><cols><col min=\"2\" max=\"4\" width=\"10.0\"/><col min=\"9\" width=\"bad\" hidden=\"1\"/>\
         <col min=\"5\" max=\"4\"/></cols><col min=\"1\"/><sheetData>\
         <row r=\"1\" ht=\"20\" customHeight=\"1\"/><row r=\"2\" ht=\"20\"/><row r=\"7\" hidden=\"1\"/>\
         <row r=\"3\" ht=\"0\" customHeight=\"1\"/><row r=\"4\" ht=\"30.5\" hidden=\"1\"/></sheetData></worksheet>",
        &[],
        &["10.0", "20", "0", "30.5"],
    );
    let cols: Vec<(u32, &str, bool)> =
        s.col_widths.iter().map(|c| (c.index, c.width.as_str(), c.hidden)).collect();
    assert_eq!(
        cols,
        vec![(2, "10", false), (3, "10", false), (4, "10", false), (9, "8.43", true)]
    );
    let rows: Vec<(u32, &str, bool)> =
        s.row_heights.iter().map(|r| (r.index, r.height.as_str(), r.hidden)).collect();
    assert_eq!(rows, vec![(1, "20", false), (7, "15", true), (4, "30.5", true)]);
    assert_eq!(s.max_row, 7);
}

#[test]
fn merged_cells() {
    let (s, _) = sheet(
        "<worksheet><sheetData><row r=\"1\"><c r=\"A1\"><v>1</v></c><c r=\"B1\"><v>2</v></c>\
         <c r=\"D4\"><v>3</v></c></row></sheetData>\
         <mergeCells><mergeCell ref=\"A1:B3\"/><mergeCell ref=\"bad\"/><mergeCell ref=\"D4:D4\"/></mergeCells></worksheet>",
        &[],
        &[],
    );
    assert_eq!(s.merges.len(), 2);
    assert_eq!(s.merges[0].ref_str, "A1:B3");
    assert_eq!(
        (s.merges[0].start_row, s.merges[0].start_col, s.merges[0].end_row, s.merges[0].end_col),
        (1, 1, 3, 2)
    );
    let spans: Vec<(u32, u32, u32, u32)> =
        s.cells.iter().map(|c| (c.row, c.col, c.rowspan, c.colspan)).collect();
    assert_eq!(spans, vec![(1, 1, 3, 2), (1, 2, 1, 1), (4, 4, 1, 1)]);
}

#[test]
fn merged_ranges_that_come_first_hide_cells() {
    let (s, _) = sheet(
        "<worksheet><mergeCells><mergeCell ref=\"A1:B2\"/></mergeCells><sheetData>\
         <row r=\"1\"><c r=\"A1\"></c><c r=\"B1\"><v>hidden</v></c></row></sheetData></worksheet>",
        &[],
        &[],
    );
    assert_eq!(s.cells.len(), 1);
    assert_eq!((s.cells[0].rowspan, s.cells[0].colspan), (2, 2));
}

#[test]
fn a_drawing_is_noted() {
    assert!(sheet("<worksheet><drawing r:id=\"rId1\"/></worksheet>", &[], &[]).1);
    assert!(!sheet("<worksheet><drawing/></worksheet>", &[], &[]).1);
}

#[test]
fn formats_of_cells() {
    let d = read_document(
        "<styleSheet><fonts><font><b/></font></fonts><cellXfs><xf fontId=\"0\" numFmtId=\"2\"/>\
         <xf fontId=\"5\"/></cellXfs></styleSheet>"
            .as_bytes(),
        true,
    );
    let styles = styles_from_events(&d.events, &[]);
    let f = cell_format(&styles, Some(0)).unwrap();
    assert!(f.bold);
    assert_eq!(f.font_size, "11");
    assert_eq!(f.font_name, "Calibri");
    assert_eq!(f.font_color, "FF000000");
    assert_eq!(f.num_fmt, "0.00");
    assert!(!cell_format(&styles, Some(1)).unwrap().bold);
    assert!(cell_format(&styles, Some(2)).is_none());
    assert!(cell_format(&styles, None).is_none());
}

#[test]
fn inline_text_in_runs_is_joined() {
    let (s, _) = sheet(
        "<w><sheetData><row r='1'><c r='A1' t='inlineStr'><is><r><t>ab</t></r> <r><t/></r> <r><t>cd</t></r></is></c>\
         <c r='B1' t='inlineStr'><is><t>漢字</t><rPh><t>かんじ</t></rPh></is></c>\
         <c r='C1' t='inlineStr'><v>7</v><is><t>in</t></is></c>\
         <c r='D1' t='str'><is><t>in</t></is><v>7</v></c></row></sheetData></w>",
        &[],
        &[],
    );
    let values: Vec<&str> = s.cells.iter().map(|c| c.value.as_str()).collect();
    assert_eq!(values, vec!["abcd", "漢字", "in", "7"]);
}

#[test]
fn a_styled_cell_without_content_is_kept() {
    let mut styles = Styles::none();
    styles.cell_xfs.push(CellXf::initial());
    styles.fills.push(StyleFill { bg_color: Some("FFFFFF00".to_string()) });
    let d = read_document(
        b"<w><sheetData><row r='1'><c r='A1' s='0'/><c r='B1'/><c r='C1' s='0'></c></row></sheetData></w>",
        false,
    );
    let (s, _) = worksheet_in(&d.events, "S", &[], &styles, &[]);
    assert_eq!(s.cells.len(), 2);
    for (cell, col) in s.cells.iter().zip([1u32, 3]) {
        assert_eq!((cell.row, cell.col, cell.value.as_str()), (1, col, ""));
        assert_eq!(cell.format.as_ref().unwrap().bg_color, Some("FFFFFF00".to_string()));
    }
}

#[test]
fn a_cell_without_a_value_has_none() {
    let mut styles = Styles::none();
    styles.cell_xfs.push(CellXf::initial());
    let d = read_document(
        b"<w><sheetData><row r='1'><c r='A1' s='0' t='s'/><c r='B1' s='0' t='b'/><c r='C1' s='0' t='s'></c>\
          <c r='D1' t='s'/><c r='E1' t='b'><v>0</v></c></row></sheetData></w>",
        false,
    );
    let (s, _) = worksheet_in(&d.events, "S", &["first".to_string()], &styles, &[]);
    let cells: Vec<(u32, &str, &str)> =
        s.cells.iter().map(|c| (c.col, c.value.as_str(), c.cell_type.as_str())).collect();
    assert_eq!(cells, vec![(1, "", "s"), (2, "", "b"), (3, "", "s"), (5, "FALSE", "b")]);
}
