use hikitsugi_doc_xml::floats::{FloatReading, Number};
use hikitsugi_doc_xml::numbers::{document_number_texts, workbook_number_texts};
use hikitsugi_doc_xml::plan::{plan_export, Action};
use hikitsugi_doc_xml::{convert_excel_to_xml, get_file_hash, is_cache_valid};
use std::io::{Cursor, Write};
use zip::write::SimpleFileOptions;

fn archive(parts: &[(&str, &str)]) -> Vec<u8> {
    let mut w = zip::ZipWriter::new(Cursor::new(Vec::new()));
    for (name, data) in parts {
        w.start_file(*name, SimpleFileOptions::default()).unwrap();
        w.write_all(data.as_bytes()).unwrap();
    }
    w.finish().unwrap().into_inner()
}

fn table(texts: Vec<String>) -> Vec<FloatReading> {
    let mut out: Vec<FloatReading> = Vec::new();
    for text in texts {
        if let Ok(x) = text.parse::<f64>() {
            out.push(FloatReading {
                text,
                number: Number { shown: x.to_string(), positive: x > 0.0 },
                pixels: (x / 914400.0 * 96.0).to_string(),
            });
        }
    }
    out
}

const WORKBOOK: &str = "<workbook><sheets><sheet name=\"表 &amp; 1\" sheetId=\"1\" r:id=\"rId1\"/>\
<sheet name=\"gone\" sheetId=\"2\" r:id=\"rId2\"/></sheets></workbook>";

const RELS: &str = "<Relationships><Relationship Id=\"rId1\" Target=\"worksheets/sheet1.xml\"/>\
<Relationship Id=\"rId2\" Target=\"worksheets/sheet2.xml\"/></Relationships>";

const STYLES: &str = "<styleSheet><fonts><font><b/><sz val=\"14.0\"/><name val=\"A&amp;B\"/></font></fonts>\
<fills><fill><patternFill><fgColor rgb=\"FFFFFF00\"/></patternFill></fill></fills>\
<borders><border><top style=\"thin\"/></border></borders>\
<cellXfs><xf fontId=\"0\" fillId=\"0\" borderId=\"0\" numFmtId=\"9\"><alignment horizontal=\"center\" indent=\"1\"/></xf>\
<xf fontId=\"7\" fillId=\"7\" borderId=\"7\"/></cellXfs></styleSheet>";

const SHEET: &str = "<worksheet><dimension ref=\"A1:B2\"/><cols><col min=\"1\" max=\"2\" width=\"9.140625\" hidden=\"1\"/></cols>\
<sheetData><row r=\"2\" ht=\"18.75\" customHeight=\"1\"><c r=\"B2\" t=\"s\"><v>0</v></c><c r=\"A2\" s=\"0\"><v>0.5</v></c></row>\
<row r=\"1\"><c r=\"A1\" s=\"1\" t=\"str\"><v>x</v></c></row></sheetData>\
<mergeCells><mergeCell ref=\"A1:B1\"/></mergeCells><drawing r:id=\"rId9\"/></worksheet>";

const DRAWING: &str = "<d><twoCellAnchor><from><col>0</col><row>3</row></from><to><col>1</col><row>4</row></to>\
<pic><blip r:embed=\"i1\"/><ext cx=\"457200\" cy=\"914400\"/></pic></twoCellAnchor></d>";

fn sample() -> Vec<u8> {
    archive(&[
        ("xl/workbook.xml", WORKBOOK),
        ("xl/_rels/workbook.xml.rels", RELS),
        ("xl/sharedStrings.xml", "<sst><si><t>a \"b\" &lt;c&gt;</t></si></sst>"),
        ("xl/styles.xml", STYLES),
        ("xl/worksheets/sheet1.xml", SHEET),
        ("xl/drawings/drawing1.xml", DRAWING),
        (
            "xl/drawings/_rels/drawing1.xml.rels",
            "<r><Relationship Id=\"i1\" Target=\"../media/i.Jpg\"/></r>",
        ),
        ("xl/media/i.Jpg", "image"),
    ])
}

fn convert(xlsx: &[u8], name: Option<&str>) -> String {
    let readings = table(workbook_number_texts(xlsx).unwrap());
    convert_excel_to_xml(xlsx, name, "2024-01-02T03:04:05", &readings).unwrap()
}

#[test]
fn a_document_letter_for_letter() {
    let xlsx = sample();
    let xml = convert(&xlsx, Some("引継ぎ<1>.xlsx"));
    let expected = format!(
        "<?xml version=\"1.0\" encoding=\"UTF-8\"?>\n\
<workbook filename=\"引継ぎ&lt;1&gt;.xlsx\" converted=\"2024-01-02T03:04:05\" hash=\"{}\">\n\
\x20 <sheet name=\"表 &amp; 1\">\n\
\x20   <dimensions maxRow=\"2\" maxCol=\"2\"/>\n\
\x20   <colWidths>\n\
\x20     <col index=\"1\" width=\"9.140625\" hidden=\"true\"/>\n\
\x20     <col index=\"2\" width=\"9.140625\" hidden=\"true\"/>\n\
\x20   </colWidths>\n\
\x20   <rowHeights>\n\
\x20     <row index=\"2\" height=\"18.75\" hidden=\"false\"/>\n\
\x20   </rowHeights>\n\
\x20   <merges>\n\
\x20     <merge ref=\"A1:B1\" startRow=\"1\" startCol=\"1\" endRow=\"1\" endCol=\"2\"/>\n\
\x20   </merges>\n\
\x20   <rows>\n\
\x20     <row index=\"1\">\n\
\x20       <cell row=\"1\" col=\"1\" value=\"x\" type=\"s\" colspan=\"2\">\n\
\x20         <format bold=\"false\" italic=\"false\" underline=\"false\" fontSize=\"11\" fontName=\"Calibri\" fontColor=\"FF000000\"  halign=\"\" valign=\"\" wrapText=\"false\" indent=\"0\" borderTop=\"none\" borderBottom=\"none\" borderLeft=\"none\" borderRight=\"none\" numFmt=\"General\"/>\n\
\x20       </cell>\n\
\x20     </row>\n\
\x20     <row index=\"2\">\n\
\x20       <cell row=\"2\" col=\"1\" value=\"0.5\" type=\"n\">\n\
\x20         <format bold=\"true\" italic=\"false\" underline=\"false\" fontSize=\"14\" fontName=\"A&amp;B\" fontColor=\"FF000000\" bgColor=\"FFFFFF00\"  halign=\"center\" valign=\"\" wrapText=\"false\" indent=\"1\" borderTop=\"thin\" borderBottom=\"none\" borderLeft=\"none\" borderRight=\"none\" numFmt=\"0%\"/>\n\
\x20       </cell>\n\
\x20       <cell row=\"2\" col=\"2\" value=\"a &quot;b&quot; &lt;c&gt;\" type=\"s\"/>\n\
\x20     </row>\n\
\x20   </rows>\n\
\x20   <images>\n\
\x20     <image row=\"4\" col=\"1\" toRow=\"5\" toCol=\"2\" format=\"jpg\" width=\"48\" height=\"96\" data=\"aW1hZ2U=\"/>\n\
\x20   </images>\n\
\x20 </sheet>\n\
</workbook>\n",
        get_file_hash(&xlsx)
    );
    assert_eq!(xml, expected);
}

#[test]
fn a_file_without_a_name() {
    let xlsx = archive(&[("x", "y")]);
    assert_eq!(
        convert(&xlsx, None),
        format!(
            "<?xml version=\"1.0\" encoding=\"UTF-8\"?>\n<workbook filename=\"unknown.xlsx\" \
             converted=\"2024-01-02T03:04:05\" hash=\"{}\">\n</workbook>\n",
            get_file_hash(&xlsx)
        )
    );
}

#[test]
fn what_is_no_archive_is_not_converted() {
    assert!(convert_excel_to_xml(b"nothing", Some("a.xlsx"), "now", &[]).is_err());
    assert!(workbook_number_texts(b"nothing").is_err());
}

#[test]
fn a_fresh_document_is_valid_for_its_file() {
    let xlsx = sample();
    let xml = convert(&xlsx, Some("a.xlsx"));
    assert!(is_cache_valid(Some(&xlsx), Some(xml.as_bytes())));
    let other = archive(&[("x", "y")]);
    assert!(!is_cache_valid(Some(&other), Some(xml.as_bytes())));
    assert!(is_cache_valid(Some(&other), Some(convert(&other, None).as_bytes())));
}

#[test]
fn a_document_with_a_quotation_mark_in_a_border_is_still_valid() {
    let styles = STYLES.replace("style=\"thin\"", "style=\"a&quot;b\"");
    let xlsx = archive(&[
        ("xl/workbook.xml", WORKBOOK),
        ("xl/_rels/workbook.xml.rels", RELS),
        ("xl/styles.xml", &styles),
        ("xl/worksheets/sheet1.xml", SHEET),
    ]);
    let xml = convert(&xlsx, Some("a.xlsx"));
    assert!(xml.contains("borderTop=\"a\"b\""));
    assert!(is_cache_valid(Some(&xlsx), Some(xml.as_bytes())));
}

#[test]
fn documents_that_are_not_valid() {
    let xlsx = sample();
    assert!(!is_cache_valid(Some(&xlsx), None));
    assert!(!is_cache_valid(None, Some(convert(&xlsx, None).as_bytes())));
    assert!(!is_cache_valid(Some(&xlsx), Some(b"")));
    assert!(!is_cache_valid(Some(&xlsx), Some(b"<workbook/>")));
    assert!(!is_cache_valid(Some(&xlsx), Some(&[0xff, 0xfe])));
    let hash = get_file_hash(&xlsx);
    assert!(is_cache_valid(Some(&xlsx), Some(format!("<x hash=\"{}\"/>", hash).as_bytes())));
    assert!(!is_cache_valid(Some(&xlsx), Some(format!("<x><y hash=\"{}\"/></x>", hash).as_bytes())));
}

#[test]
fn other_readings_change_nothing() {
    let xlsx = sample();
    let mut readings = table(workbook_number_texts(&xlsx).unwrap());
    let first = convert_excel_to_xml(&xlsx, None, "now", &readings).unwrap();
    readings.push(FloatReading {
        text: "0".to_string(),
        number: Number { shown: "77".to_string(), positive: true },
        pixels: "88".to_string(),
    });
    assert_eq!(convert_excel_to_xml(&xlsx, None, "now", &readings).unwrap(), first);
    assert_ne!(convert_excel_to_xml(&xlsx, None, "now", &[]).unwrap(), first);
}

#[test]
fn cells_in_one_place_stay_as_they_were() {
    let xlsx = archive(&[
        ("xl/workbook.xml", WORKBOOK),
        ("xl/_rels/workbook.xml.rels", RELS),
        (
            "xl/worksheets/sheet1.xml",
            "<worksheet><sheetData><c r=\"B1\"><v>1</v></c><c r=\"A2\"><v>2</v></c><c r=\"B1\"><v>3</v></c>\
             <c r=\"A1\"><v>4</v></c></sheetData></worksheet>",
        ),
    ]);
    let xml = convert(&xlsx, None);
    let order: Vec<usize> = ["4", "1", "3", "2"]
        .iter()
        .map(|v| xml.find(&format!("value=\"{}\"", v)).unwrap())
        .collect();
    assert!(order[0] < order[1] && order[1] < order[2] && order[2] < order[3]);
    assert_eq!(xml.matches("<row index=").count(), 2);
}

#[test]
fn a_workbook_of_a_spreadsheet_writer() {
    let mut book = rust_xlsxwriter::Workbook::new();
    let sheet = book.add_worksheet();
    sheet.set_name("Data").unwrap();
    sheet.write_string(0, 0, "引継ぎ").unwrap();
    sheet.write_number(1, 1, 2.5).unwrap();
    sheet.write_boolean(2, 2, true).unwrap();
    let xlsx = book.save_to_buffer().unwrap();
    let xml = convert(&xlsx, Some("w.xlsx"));
    assert!(xml.contains("<sheet name=\"Data\">"));
    assert!(xml.contains("<cell row=\"1\" col=\"1\" value=\"引継ぎ\" type=\"s\""));
    assert!(xml.contains("<cell row=\"2\" col=\"2\" value=\"2.5\" type=\"n\""));
    assert!(xml.contains("<cell row=\"3\" col=\"3\" value=\"TRUE\" type=\"b\""));
    assert!(is_cache_valid(Some(&xlsx), Some(xml.as_bytes())));
}

#[test]
fn images_of_a_workbook_come_back() {
    let xml = convert(&sample(), Some("a.xlsx"));
    let readings = table(document_number_texts(xml.as_bytes()));
    let plans = match plan_export(xml.as_bytes(), &readings) {
        Ok(p) => p,
        Err(_) => panic!("not planned"),
    };
    assert_eq!(plans.len(), 1);
    assert_eq!(plans[0].name, "表 & 1");
    assert!(matches!(plans[0].actions.last(), Some(Action::Image(3, 0, data)) if data == b"image"));
}
