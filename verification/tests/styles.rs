use hikitsugi_doc_xml::floats::{FloatReading, Number};
use hikitsugi_doc_xml::styles::{styles_from_events, Styles};
use hikitsugi_doc_xml::xml::read_document;

fn reading(text: &str) -> FloatReading {
    let x: f64 = text.parse().unwrap();
    FloatReading {
        text: text.to_string(),
        number: Number { shown: x.to_string(), positive: x > 0.0 },
        pixels: (x / 914400.0 * 96.0).to_string(),
    }
}

fn parse(xml: &str, numbers: &[&str]) -> Styles {
    let table: Vec<FloatReading> = numbers.iter().map(|t| reading(t)).collect();
    let d = read_document(xml.as_bytes(), true);
    styles_from_events(&d.events, &table)
}

#[test]
fn fonts() {
    let s = parse(
        "<styleSheet><fonts count=\"4\">\
         <font><b/><i val=\"1\"/><u/><sz val=\"12.50\"/><name val=\"Meiryo\"/><color rgb=\"ff112233\"/></font>\
         <font><b val=\"0\"/><i val=\"0\"/><u val=\"none\"/><sz val=\"x\"/><color theme=\"4\"/></font>\
         <font><u val=\"double\"/><sz val=\"-1\"/></font>\
         <font></font><font/>\
         </fonts></styleSheet>",
        &["12.50", "-1"],
    );
    assert_eq!(s.fonts.len(), 5);
    let f = s.font(0);
    assert!(f.bold && f.italic && f.underline);
    assert_eq!(f.size.shown, "12.5");
    assert_eq!(f.name, "Meiryo");
    assert_eq!(f.color, "FF112233");
    let f = s.font(1);
    assert!(!f.bold && !f.italic && !f.underline);
    assert_eq!(f.size.shown, "11");
    assert_eq!(f.name, "");
    assert_eq!(f.color, "FF4472C4");
    let f = s.font(2);
    assert!(f.underline);
    assert!(!f.size.positive);
    assert_eq!(s.font(3).size.shown, "11");
    let none = s.font(99);
    assert_eq!((none.size.shown.as_str(), none.name.as_str(), none.bold), ("11", "", false));
}

#[test]
fn font_tags_outside_fonts_do_not_count() {
    let s = parse("<styleSheet><b/><font></font><dxfs><font><b/></font></dxfs></styleSheet>", &[]);
    assert_eq!(s.fonts.len(), 0);
}

#[test]
fn fills() {
    let s = parse(
        "<styleSheet><fills>\
         <fill><patternFill patternType=\"none\"/></fill>\
         <fill><patternFill><fgColor rgb=\"FFFFFF00\"/></patternFill></fill>\
         <fill><patternFill><fgColor rgb=\"FF000000\"/></patternFill></fill>\
         <fill><patternFill><fgColor theme=\"0\"/></patternFill></fill>\
         </fills></styleSheet>",
        &[],
    );
    assert_eq!(s.fills.len(), 4);
    assert_eq!(s.fill(0).bg_color, None);
    assert_eq!(s.fill(1).bg_color, Some("FFFFFF00".to_string()));
    assert_eq!(s.fill(2).bg_color, None);
    assert_eq!(s.fill(3).bg_color, None);
    assert_eq!(s.fill(4).bg_color, None);
}

#[test]
fn borders() {
    let s = parse(
        "<styleSheet><borders>\
         <border><left/><right/><top/><bottom/></border>\
         <border><left style=\"thin\"><color/></left><right style=\"thick\"/><top style=\"hair\"/>\
         <bottom style=\"double\"/><diagonal style=\"thin\"/></border>\
         </borders></styleSheet>",
        &[],
    );
    assert_eq!(s.borders.len(), 2);
    assert_eq!(s.border(0).left, "");
    let b = s.border(1);
    assert_eq!(
        (b.left.as_str(), b.right.as_str(), b.top.as_str(), b.bottom.as_str()),
        ("thin", "thick", "hair", "double")
    );
    assert_eq!(s.border(2).top, "");
}

#[test]
fn cell_formats() {
    let s = parse(
        "<styleSheet><cellStyleXfs><xf fontId=\"9\"/></cellStyleXfs><cellXfs>\
         <xf fontId=\"1\" fillId=\"2\" borderId=\"3\" numFmtId=\"4\"/>\
         <xf fontId=\"x\"><alignment horizontal=\"center\" vertical=\"top\" wrapText=\"1\" indent=\"2\"/></xf>\
         <xf><alignment wrapText=\"true\"/></xf>\
         </cellXfs></styleSheet>",
        &[],
    );
    assert_eq!(s.cell_xfs.len(), 3);
    let x = s.get_xf(0).unwrap();
    assert_eq!((x.font_id, x.fill_id, x.border_id, x.num_fmt_id), (1, 2, 3, 4));
    let x = s.get_xf(1).unwrap();
    assert_eq!(x.font_id, 0);
    assert_eq!(x.alignment.horizontal, "center");
    assert_eq!(x.alignment.vertical, "top");
    assert!(x.alignment.wrap_text);
    assert_eq!(x.alignment.indent, 2);
    assert!(s.get_xf(2).unwrap().alignment.wrap_text);
    assert!(s.get_xf(3).is_none());
}

#[test]
fn number_formats() {
    let s = parse(
        "<styleSheet><numFmts><numFmt numFmtId=\"164\" formatCode=\"0.0&quot;円&quot;\"/>\
         <numFmt numFmtId=\"1\" formatCode=\"first\"/><numFmt numFmtId=\"1\" formatCode=\"second\"/>\
         <numFmt numFmtId=\"x\" formatCode=\"bad\"/></numFmts></styleSheet>",
        &[],
    );
    assert_eq!(s.num_fmt(164), "0.0\"円\"");
    assert_eq!(s.num_fmt(1), "second");
    let built_in = [
        (0u32, "General"), (2, "0.00"), (3, "#,##0"), (4, "#,##0.00"), (9, "0%"), (10, "0.00%"),
        (11, "0.00E+00"), (12, "# ?/?"), (13, "# ??/??"), (14, "m/d/yyyy"), (15, "d-mmm-yy"),
        (16, "d-mmm"), (17, "mmm-yy"), (18, "h:mm AM/PM"), (19, "h:mm:ss AM/PM"), (20, "h:mm"),
        (21, "h:mm:ss"), (22, "m/d/yyyy h:mm"), (37, "#,##0 ;(#,##0)"),
        (38, "#,##0 ;[Red](#,##0)"), (39, "#,##0.00;(#,##0.00)"),
        (40, "#,##0.00;[Red](#,##0.00)"), (45, "mm:ss"), (46, "[h]:mm:ss"), (47, "mmss.0"),
        (48, "##0.0E+0"), (49, "@"), (50, "General"), (163, "General"),
    ];
    for (id, code) in built_in {
        assert_eq!(s.num_fmt(id), code);
    }
    assert_eq!(Styles::none().num_fmt(1), "0");
}

#[test]
fn empty_entries_are_counted() {
    let s = parse(
        "<styleSheet><fonts><font/><font><b/></font></fonts><fills><fill/>\
         <fill><patternFill><fgColor rgb=\"FFFFFF00\"/></patternFill></fill></fills>\
         <borders><border/><border><left style=\"thin\"/></border></borders>\
         <cellXfs><xf fontId=\"1\" fillId=\"1\" borderId=\"1\"/><xf fontId=\"0\"></xf></cellXfs></styleSheet>",
        &[],
    );
    assert_eq!((s.fonts.len(), s.fills.len(), s.borders.len(), s.cell_xfs.len()), (2, 2, 2, 2));
    let xf = s.get_xf(0).unwrap();
    assert!(s.font(xf.font_id).bold);
    assert_eq!(s.fill(xf.fill_id).bg_color, Some("FFFFFF00".to_string()));
    assert_eq!(s.border(xf.border_id).left, "thin");
    assert!(!s.font(0).bold);
}
