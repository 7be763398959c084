use hikitsugi_doc_xml::search::{read_query, search_in_xml, show, SearchError};
use hikitsugi_doc_xml::sheet::{Cell, WorksheetData};

fn search(xml: &str, query: &str) -> Vec<(String, String, String)> {
    match search_in_xml(xml.as_bytes(), query) {
        Ok(hits) => hits.into_iter().map(|h| (h.sheet, h.cell, h.value)).collect(),
        Err(_) => panic!("not searched"),
    }
}

fn hit(sheet: &str, cell: &str, value: &str) -> (String, String, String) {
    (sheet.to_string(), cell.to_string(), value.to_string())
}

const XML: &str = "<workbook><cell row=\"1\" col=\"1\" value=\"Before\"/><sheet name=\"A\"><rows><row>\
<cell row=\"1\" col=\"1\" value=\"Alpha\"/><cell row=\"2\" col=\"28\" value=\"beta &amp; ALPHA\"><format/></cell>\
<cell row=\"3\" col=\"x\" value=\"alphabet\"/><cell col=\"2\" value=\"alpha\"/><cell row=\"9\" col=\"1\"/></row></rows></sheet>\
<sheet name=\"B\"><cell row=\"7\" col=\"3\" value=\"ALPHA\"/></sheet></workbook>";

#[test]
fn hits_are_found() {
    assert_eq!(
        search(XML, "alpha"),
        vec![
            hit("A", "A1", "Alpha"),
            hit("A", "AB2", "beta & ALPHA"),
            hit("A", "3", "alphabet"),
            hit("A", "B", "alpha"),
            hit("B", "C7", "ALPHA"),
        ]
    );
    assert_eq!(search(XML, "&"), vec![hit("A", "AB2", "beta & ALPHA")]);
    assert_eq!(search(XML, "before"), vec![hit("", "A1", "Before")]);
    assert_eq!(search(XML, "gamma").len(), 0);
    assert_eq!(search("", "a").len(), 0);
}

#[test]
fn lower_case_is_that_of_the_standard_library() {
    let xml = "<sheet name=\"S\"/><cell row=\"1\" col=\"1\" value=\"ÄÖ ΟΔΟΣ\"/>";
    assert_eq!(search(xml, &"ÄÖ ΟΔΟΣ".to_lowercase()).len(), 1);
    assert_eq!(search(xml, "ÄÖ").len(), 0);
}

#[test]
fn long_values_are_cut() {
    let value = "x".repeat(301);
    let xml = format!("<cell row=\"1\" col=\"1\" value=\"{}\"/>", value);
    assert_eq!(search(&xml, "x")[0].2.len(), 300);
    let value = "x".repeat(300);
    let xml = format!("<cell row=\"1\" col=\"1\" value=\"{}\"/>", value);
    assert_eq!(search(&xml, "x")[0].2, value);
    assert_eq!(show(&"あ".repeat(101)), "あ".repeat(100));
    assert_eq!(show(&format!("x{}", "あ".repeat(100))), format!("x{}", "あ".repeat(99)));
    assert_eq!(show(&"😀".repeat(76)), "😀".repeat(75));
    assert_eq!(show(&format!("é{}", "😀".repeat(75))), format!("é{}", "😀".repeat(74)));
    assert_eq!(show(""), "");
}

#[test]
fn documents_that_cannot_be_searched() {
    match search_in_xml(&[b'a', 0xff], "x") {
        Err(SearchError::NotText(m)) => {
            assert_eq!(m, std::str::from_utf8(&[b'a', 0xff]).unwrap_err().to_string())
        }
        _ => panic!("searched"),
    }
}

#[test]
fn a_long_value_is_a_hit_like_any_other() {
    let value = format!("a{}", "あ".repeat(100));
    let xml = format!(
        "<workbook><sheet name='S'><cell row='1' col='1' value='{}'/><cell row='2' col='1' value='a'/></sheet></workbook>",
        value
    );
    let hits = search(&xml, "a");
    assert_eq!(hits.len(), 2);
    assert_eq!(hits[0], hit("S", "A1", &format!("a{}", "あ".repeat(99))));
    assert!(value.starts_with(&hits[0].2));
    assert_eq!(hits[1], hit("S", "A2", "a"));
    assert_eq!(search(&xml, "y").len(), 0);
}

#[test]
fn queries() {
    let (text, query) = read_query(Some("  Hello 引継ぎ \n"));
    assert_eq!(text, "Hello 引継ぎ");
    let query = query.unwrap();
    assert_eq!((query.text.as_str(), query.lower.as_str()), ("Hello 引継ぎ", "hello 引継ぎ"));
    let (text, query) = read_query(Some(" \u{3000}"));
    assert_eq!(text, "");
    assert!(query.is_none());
    assert!(read_query(None).1.is_none());
}

#[test]
fn cells_of_a_written_document_are_found() {
    let mut sheet = WorksheetData::named("<1>");
    for (row, col, value) in [(2u32, 1u32, "two & X"), (1, 28, "x\"1\""), (1, 3, "none"), (1, 2, "X")] {
        sheet.cells.push(Cell {
            row,
            col,
            value: value.to_string(),
            cell_type: "s".to_string(),
            rowspan: 1,
            colspan: 1,
            format: None,
        });
    }
    let mut xml = "<?xml version=\"1.0\" encoding=\"UTF-8\"?>\n<workbook filename=\"\" converted=\"\" hash=\"\">\n".to_string();
    sheet.write_xml(&mut xml);
    xml.push_str("</workbook>\n");
    assert_eq!(
        search(&xml, "x"),
        vec![hit("<1>", "B1", "X"), hit("<1>", "AB1", "x\"1\""), hit("<1>", "A2", "two & X")]
    );
}

#[test]
fn upper_and_lower_case_are_alike() {
    let xml = "<sheet name=\"S\"/><cell row=\"1\" col=\"1\" value=\"Hello World\"/>";
    for asked in ["world", "WORLD", "o wOR", "Hello World"] {
        let query = read_query(Some(asked)).1.unwrap();
        assert_eq!(search(xml, &query.lower), vec![hit("S", "A1", "Hello World")]);
    }
    let query = read_query(Some("World!")).1.unwrap();
    assert_eq!(search(xml, &query.lower).len(), 0);
}
