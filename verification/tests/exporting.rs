use hikitsugi_doc_xml::export::find_unread_images;
use hikitsugi_doc_xml::floats::{FloatReading, Number};
use hikitsugi_doc_xml::numbers::{document_number_texts, number_texts_in};
use hikitsugi_doc_xml::plan::{
    border_style, halign, plan_export, valign, Action, Border, Content, ExportError, HAlign, SheetPlan, VAlign,
};
use hikitsugi_doc_xml::sheet::{Cell, CellFormat, ColWidth, Image, Merge, RowHeight, WorksheetData};
use hikitsugi_doc_xml::xml::read_document;

fn table(texts: Vec<String>) -> Vec<FloatReading> {
    let mut out: Vec<FloatReading> = Vec::new();
    for text in texts {
        if let Ok(x) = text.parse::<f64>() {
            out.push(FloatReading {
                text,
                number: Number { shown: x.to_string(), positive: x > 0.0 },
                pixels: String::new(),
            });
        }
    }
    out
}

fn plan(xml: &str) -> Vec<SheetPlan> {
    let readings = table(document_number_texts(xml.as_bytes()));
    match plan_export(xml.as_bytes(), &readings) {
        Ok(p) => p,
        Err(_) => panic!("not planned"),
    }
}

fn wrap(inner: &str) -> String {
    format!("<workbook><sheet name=\"S\">{}</sheet></workbook>", inner)
}

fn cells(inner: &str) -> Vec<Action> {
    let xml = wrap(&format!("<rows><row index=\"1\">{}</row></rows>", inner));
    let mut p = plan(&xml);
    assert_eq!(p.len(), 1);
    p.remove(0).actions
}

#[test]
fn columns_and_rows_of_a_plan() {
    let p = plan(&wrap(
        "<colWidths><col index=\"3\" width=\"12.50\" hidden=\"true\"/><col width=\"x\"/><col index=\"0\"/>\
         <col index=\"65537\"/></colWidths>\
         <rowHeights><row index=\"2\" height=\"20\" hidden=\"false\"/><row hidden=\"true\"/></rowHeights>",
    ));
    let a = &p[0].actions;
    assert_eq!(a.len(), 8);
    assert!(matches!(&a[0], Action::ColumnWidth(2, w) if w == "12.5"));
    assert!(matches!(&a[1], Action::HideColumn(2)));
    assert!(matches!(&a[2], Action::ColumnWidth(0, w) if w == "8.43"));
    assert!(matches!(&a[3], Action::ColumnWidth(0, w) if w == "8.43"));
    assert!(matches!(&a[4], Action::ColumnWidth(0, w) if w == "8.43"));
    assert!(matches!(&a[5], Action::RowHeight(1, h) if h == "20"));
    assert!(matches!(&a[6], Action::RowHeight(0, h) if h == "15"));
    assert!(matches!(&a[7], Action::HideRow(0)));
}

#[test]
fn contents_of_cells() {
    let a = cells(
        "<cell row=\"1\" col=\"1\" value=\"text\" type=\"s\"></cell>\
         <cell row=\"1\" col=\"2\" value=\"1.50\" type=\"n\"></cell>\
         <cell row=\"1\" col=\"3\" value=\"not\" type=\"n\"></cell>\
         <cell row=\"1\" col=\"4\" value=\"True\" type=\"b\"></cell>\
         <cell row=\"1\" col=\"5\" value=\"1\" type=\"b\"></cell>\
         <cell row=\"1\" col=\"6\" value=\"no\" type=\"b\"></cell>\
         <cell row=\"1\" col=\"7\" value=\"\" type=\"n\"></cell>\
         <cell value=\"5\"></cell>",
    );
    assert_eq!(a.len(), 8);
    assert!(matches!(&a[0], Action::Write(0, 0, Content::Text(t), _) if t == "text"));
    assert!(matches!(&a[1], Action::Write(0, 1, Content::Number(n), _) if n == "1.5"));
    assert!(matches!(&a[2], Action::Write(0, 2, Content::Text(t), _) if t == "not"));
    assert!(matches!(&a[3], Action::Write(0, 3, Content::Truth(true), _)));
    assert!(matches!(&a[4], Action::Write(0, 4, Content::Truth(true), _)));
    assert!(matches!(&a[5], Action::Write(0, 5, Content::Truth(false), _)));
    assert!(matches!(&a[6], Action::Write(0, 6, Content::Blank, _)));
    assert!(matches!(&a[7], Action::Write(0, 0, Content::Text(t), _) if t == "5"));
}

#[test]
fn an_empty_cell_tag_is_a_cell() {
    let a = cells("<cell row=\"2\" col=\"2\" value=\"v\" type=\"s\"/>");
    assert_eq!(a.len(), 1);
    assert!(matches!(&a[0], Action::Write(1, 1, Content::Text(t), f) if t == "v" && !f.bold && f.font_size.is_none()));
}

#[test]
fn formats_of_a_plan() {
    let a = cells(
        "<cell row=\"1\" col=\"1\" value=\"v\" type=\"s\"><format bold=\"true\" italic=\"true\" underline=\"true\" \
         fontSize=\"14.0\" fontName=\"M\" fontColor=\"FF010203\" bgColor=\"FFA0B0C0\" halign=\"center\" valign=\"top\" \
         wrapText=\"true\" indent=\"258\" borderTop=\"thin\" borderBottom=\"none\" borderLeft=\"double\" \
         borderRight=\"x\" numFmt=\"0%\"/></cell>\
         <cell row=\"1\" col=\"2\" value=\"v\" type=\"s\"><format fontSize=\"0\" fontName=\"\" fontColor=\"zz\" bgColor=\"\" \
         numFmt=\"General\"/></cell><cell row=\"1\" col=\"3\" value=\"v\" type=\"s\"><format/></cell>",
    );
    match &a[0] {
        Action::Write(0, 0, _, f) => {
            assert!(f.bold && f.italic && f.underline && f.wrap_text);
            assert_eq!(f.font_size, Some("14".to_string()));
            assert_eq!(f.font_name, Some("M".to_string()));
            assert_eq!(f.font_color, Some(0x010203));
            assert_eq!(f.bg_color, Some(0xA0B0C0));
            assert_eq!(f.halign, Some(HAlign::Center));
            assert_eq!(f.valign, Some(VAlign::Top));
            assert_eq!(f.indent, Some(2));
            assert_eq!(f.border_top, Some(Border::Thin));
            assert_eq!(f.border_bottom, None);
            assert_eq!(f.border_left, Some(Border::Double));
            assert_eq!(f.border_right, None);
            assert_eq!(f.num_fmt, Some("0%".to_string()));
        }
        _ => panic!("no cell"),
    }
    match &a[1] {
        Action::Write(0, 1, _, f) => {
            assert!(!f.bold);
            assert_eq!((f.font_size.clone(), f.font_name.clone(), f.num_fmt.clone()), (None, None, None));
            assert_eq!((f.font_color, f.bg_color, f.indent), (None, None, None));
        }
        _ => panic!("no cell"),
    }
    match &a[2] {
        Action::Write(0, 2, _, f) => {
            assert_eq!(f.font_size, Some("11".to_string()));
            assert_eq!(f.font_name, Some("Calibri".to_string()));
            assert_eq!(f.font_color, Some(0));
            assert_eq!(f.num_fmt, None);
        }
        _ => panic!("no cell"),
    }
}

#[test]
fn merged_ranges_of_a_plan() {
    let p = plan(&wrap(
        "<merges><merge startRow=\"1\" startCol=\"1\" endRow=\"2\" endCol=\"3\"/><merge startRow=\"5\" startCol=\"5\"/>\
         <merge startRow=\"8\" startCol=\"1\" endRow=\"8\" endCol=\"2\"/></merges>\
         <rows><row><cell row=\"1\" col=\"1\" value=\"12\" type=\"n\" rowspan=\"2\" colspan=\"3\"></cell>\
         <cell row=\"5\" col=\"5\" value=\"7\" type=\"n\" rowspan=\"2\"/>\
         <cell row=\"9\" col=\"9\" value=\"lost\" type=\"s\" colspan=\"2\"/></row></rows>",
    ));
    let a = &p[0].actions;
    assert_eq!(a.len(), 3);
    assert!(matches!(&a[0], Action::Merge(0, 0, 1, 2, v, _) if v == "12"));
    assert!(matches!(&a[1], Action::Write(4, 4, Content::Text(v), _) if v == "7"));
    assert!(matches!(&a[2], Action::Merge(7, 0, 7, 1, v, _) if v.is_empty()));
}

#[test]
fn images_of_a_plan() {
    let p = plan(&wrap(
        "<images><image row=\"4\" col=\"2\" data=\"AQID\"/><image row=\"1\" col=\"1\" data=\"***\"/><image/></images>",
    ));
    assert_eq!(p[0].actions.len(), 1);
    assert!(matches!(&p[0].actions[0], Action::Image(3, 1, d) if *d == vec![1u8, 2, 3]));
}

#[test]
fn sheets_of_a_plan() {
    let p = plan("<workbook><sheet name=\"A\"></sheet><sheet></sheet><sheet ref=\"x\"></sheet><sheet name=\"open\">");
    let names: Vec<&str> = p.iter().map(|s| s.name.as_str()).collect();
    assert_eq!(names, vec!["A", "Sheet"]);
    assert_eq!(plan("").len(), 0);
}

#[test]
fn documents_that_cannot_be_restored() {
    assert!(matches!(plan_export(&[0xff], &[]), Err(ExportError::NotText(_))));
    match plan_export(&[0xff], &[]) {
        Err(ExportError::NotText(m)) => {
            assert_eq!(m, std::str::from_utf8(&[0xff]).unwrap_err().to_string())
        }
        _ => panic!("planned"),
    }
    for inner in [
        "<colWidths><col/></colWidths>",
        "<rowHeights><row/></rowHeights>",
        "<merges><merge/></merges>",
        "<images><image data=\"AQID\"/></images>",
    ] {
        let xml = format!("<workbook>{}</workbook>", inner);
        assert!(matches!(plan_export(xml.as_bytes(), &[]), Err(ExportError::NoSheet)));
    }
    assert!(plan_export(b"<workbook><images><image data=\"*\"/></images></workbook>", &[]).is_ok());
}

#[test]
fn unreadable_colors_are_left_unset() {
    let xml = wrap(
        "<rows><row><cell row=\"1\" col=\"1\" value=\"v\"><format bold=\"true\" fontColor=\"あ12345\" bgColor=\"あ12345\"/></cell></row></rows>",
    );
    let p = plan(&xml);
    match &p[0].actions[0] {
        Action::Write(0, 0, Content::Text(t), f) => {
            assert_eq!(t, "v");
            assert!(f.bold);
            assert_eq!((f.font_color, f.bg_color), (None, None));
        }
        _ => panic!("not written"),
    }
}

#[test]
fn names_of_alignments_and_borders() {
    assert_eq!(halign("left"), Some(HAlign::Left));
    assert_eq!(halign("right"), Some(HAlign::Right));
    assert_eq!(halign("justify"), Some(HAlign::Justify));
    assert_eq!(halign("fill"), Some(HAlign::Fill));
    assert_eq!(halign("centerContinuous"), Some(HAlign::CenterAcross));
    assert_eq!(halign("general"), None);
    assert_eq!(valign("center"), Some(VAlign::Center));
    assert_eq!(valign("bottom"), Some(VAlign::Bottom));
    assert_eq!(valign("justify"), Some(VAlign::Justify));
    assert_eq!(valign(""), None);
    let lines = [
        ("medium", Border::Medium), ("thick", Border::Thick), ("dashed", Border::Dashed),
        ("dotted", Border::Dotted), ("hair", Border::Hair), ("mediumDashed", Border::MediumDashed),
        ("dashDot", Border::DashDot), ("mediumDashDot", Border::MediumDashDot),
        ("dashDotDot", Border::DashDotDot), ("mediumDashDotDot", Border::MediumDashDotDot),
        ("slantDashDot", Border::SlantDashDot),
    ];
    for (name, line) in lines {
        assert_eq!(border_style(name), Some(line));
    }
    assert_eq!(border_style("none"), None);
}

fn format(border: &str) -> CellFormat {
    CellFormat {
        bold: true,
        italic: false,
        underline: false,
        font_size: "10.5".to_string(),
        font_name: "F\"&'<>".to_string(),
        font_color: "FF112233".to_string(),
        bg_color: Some("FFFFFF00".to_string()),
        halign: "left".to_string(),
        valign: String::new(),
        wrap_text: true,
        indent: 3,
        border_top: border.to_string(),
        border_bottom: String::new(),
        border_left: String::new(),
        border_right: String::new(),
        num_fmt: "#,##0 \"円\"".to_string(),
    }
}

fn sheet(border: &str) -> WorksheetData {
    let cell = |row: u32, col: u32, value: &str, span: u32, f: Option<CellFormat>| Cell {
        row,
        col,
        value: value.to_string(),
        cell_type: "s".to_string(),
        rowspan: span,
        colspan: 1,
        format: f,
    };
    WorksheetData {
        name: "<&\"'> 表".to_string(),
        max_row: 9,
        max_col: 9,
        col_widths: vec![ColWidth { index: 1, width: "8.5".to_string(), hidden: false }],
        row_heights: vec![RowHeight { index: 2, height: "20".to_string(), hidden: true }],
        merges: vec![Merge { ref_str: "A1:A2".to_string(), start_row: 1, start_col: 1, end_row: 2, end_col: 1 }],
        cells: vec![
            cell(3, 1, "line\nbreak\t &amp; <x>", 1, None),
            cell(1, 1, "top", 2, Some(format(border))),
            cell(2, 5, "five", 1, Some(format("thin"))),
        ],
        images: vec![Image {
            row: 1,
            col: 2,
            to_row: None,
            to_col: Some(4),
            data_b64: "AQID".to_string(),
            fmt: "png".to_string(),
            width: Some("48".to_string()),
            height: None,
        }],
    }
}

fn document(border: &str) -> String {
    let mut out =
        "<?xml version=\"1.0\" encoding=\"UTF-8\"?>\n<workbook filename=\"f\" converted=\"c\" hash=\"h\">\n".to_string();
    sheet(border).write_xml(&mut out);
    sheet("thin").write_xml(&mut out);
    out.push_str("</workbook>\n");
    out
}

#[test]
fn a_document_is_restored() {
    for border in ["thin", "a<b", "a>b", "it's", ""] {
        let p = plan(&document(border));
        assert_eq!(p.len(), 2);
        assert_eq!(p[0].name, "<&\"'> 表");
        let a = &p[0].actions;
        assert_eq!(a.len(), 7);
        assert!(matches!(&a[0], Action::ColumnWidth(0, w) if w == "8.5"));
        assert!(matches!(&a[1], Action::RowHeight(1, h) if h == "20"));
        assert!(matches!(&a[2], Action::HideRow(1)));
        match &a[3] {
            Action::Write(1, 4, Content::Text(t), f) => {
                assert_eq!(t, "five");
                assert_eq!(f.font_size, Some("10.5".to_string()));
                assert_eq!(f.font_name, Some("F\"&'<>".to_string()));
                assert_eq!(f.bg_color, Some(0xFFFF00));
                assert_eq!(f.border_top, Some(Border::Thin));
                assert_eq!(f.num_fmt, Some("#,##0 \"円\"".to_string()));
            }
            _ => panic!("no cell"),
        }
        assert!(matches!(&a[4], Action::Write(2, 0, Content::Text(t), _) if t == "line\nbreak\t &amp; <x>"));
        match &a[5] {
            Action::Merge(0, 0, 1, 0, v, f) => {
                assert_eq!(v, "top");
                assert_eq!(f.border_top, if border == "thin" { Some(Border::Thin) } else { None });
            }
            _ => panic!("no range"),
        }
        assert!(matches!(&a[6], Action::Image(0, 1, d) if *d == vec![1u8, 2, 3]));
    }
}

#[test]
fn an_ampersand_that_is_not_escaped_does_no_harm_elsewhere() {
    let xml = document("a&b");
    let p = plan(&xml);
    assert_eq!(p.len(), 2);
    assert_eq!(p[0].actions.len(), 7);
    let d = read_document(xml.as_bytes(), true);
    assert_eq!(d.error, None);
    assert_eq!(d.events.len(), read_document(document("thin").as_bytes(), true).events.len());
}

#[test]
fn numbers_that_are_asked_for() {
    let d = read_document(
        b"<a val=\"1\" width=\"2\" x=\"3\"><b ht=\"4\" cx=\"5\" cy=\"6\"/><c height=\"7\" fontSize=\"8\" value=\"9\" r:val=\"0\"/></a>",
        true,
    );
    assert_eq!(number_texts_in(&d.events), vec!["1", "2", "4", "5", "6", "7", "8", "9"]);
}

#[test]
fn other_readings_change_nothing_in_a_plan() {
    let xml = document("thin");
    let mut readings = table(document_number_texts(xml.as_bytes()));
    readings.push(FloatReading {
        text: "no such text".to_string(),
        number: Number { shown: "77".to_string(), positive: true },
        pixels: String::new(),
    });
    match plan_export(xml.as_bytes(), &readings) {
        Ok(p) => {
            let q = plan(&xml);
            assert_eq!(p.len(), q.len());
            assert_eq!(p[0].actions.len(), q[0].actions.len());
            assert!(matches!(&p[0].actions[0], Action::ColumnWidth(0, w) if w == "8.5"));
        }
        Err(_) => panic!("not planned"),
    }
}

#[test]
fn every_character_is_read_back() {
    let mut out = "<?xml version=\"1.0\" encoding=\"UTF-8\"?>\n<workbook filename=\"f\" converted=\"c\" hash=\"h\">\n".to_string();
    let value = "a\rb\r\nc\u{0}\u{1}\u{85}\u{2028}\u{feff}\u{fffe}\u{10ffff}&#10;&lt;]]><!-- --><?x?>'\"";
    let mut s = sheet("it's <b> /> here");
    s.cells[2].value = value.to_string();
    s.write_xml(&mut out);
    out.push_str("</workbook>\n");
    let p = plan(&out);
    assert_eq!(p.len(), 1);
    assert!(p[0].actions.iter().any(|a| matches!(a, Action::Write(1, 4, Content::Text(t), _) if t == value)));
    let d = read_document(out.as_bytes(), true);
    assert_eq!(d.error, None);
    assert!(matches!(&d.events[0], hikitsugi_doc_xml::xml::XmlEvent::Other));
}

#[test]
fn cells_come_in_order_and_none_is_lost() {
    let mut s = sheet("thin");
    s.merges.clear();
    s.cells.clear();
    let places = [(3u32, 1u32), (1, 2), (2, 2), (1, 1), (1, 2), (3, 1), (1, 30)];
    for (i, (row, col)) in places.iter().enumerate() {
        s.cells.push(Cell {
            row: *row,
            col: *col,
            value: i.to_string(),
            cell_type: "s".to_string(),
            rowspan: 1,
            colspan: 1,
            format: None,
        });
    }
    let mut out = String::new();
    s.write_xml(&mut out);
    let p = plan(&out);
    let values: Vec<&str> = p[0]
        .actions
        .iter()
        .filter_map(|a| match a {
            Action::Write(_, _, Content::Text(t), _) => Some(t.as_str()),
            _ => None,
        })
        .collect();
    assert_eq!(values, vec!["3", "1", "4", "6", "2", "0", "5"]);
}

#[test]
fn truth_values_come_back() {
    let xml = wrap(
        "<rows><row><cell row=\"1\" col=\"1\" value=\"TRUE\" type=\"b\"/><cell row=\"1\" col=\"2\" value=\"FALSE\" type=\"b\"/></row></rows>",
    );
    let truths: Vec<bool> = plan(&xml)[0]
        .actions
        .iter()
        .filter_map(|a| match a {
            Action::Write(_, _, Content::Truth(b), _) => Some(*b),
            _ => None,
        })
        .collect();
    assert_eq!(truths, vec![true, false]);
}

#[test]
fn images_that_cannot_be_decoded_are_named() {
    let xml = wrap(
        "<images><image row=\"3\" col=\"4\" data=\"*\"/><image row=\"1\" col=\"1\" data=\"AQID\"/><image data=\"\"/><image data=\"A\"/></images><image row=\"9\" data=\"*\"/>",
    );
    assert_eq!(find_unread_images(xml.as_bytes(), &[]), vec![(3, 4), (1, 1)]);
    assert_eq!(plan(&xml)[0].actions.len(), 1);
}

#[test]
fn sheets_come_in_the_order_of_the_document() {
    let xml = "<workbook><sheet name=\"b\"></sheet><sheet name=\"a\"></sheet><sheet></sheet></workbook>";
    let names: Vec<String> = plan(xml).into_iter().map(|p| p.name).collect();
    assert_eq!(names, vec!["b", "a", "Sheet"]);
}
