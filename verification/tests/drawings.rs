use hikitsugi_doc_xml::archive::Entries;
use hikitsugi_doc_xml::drawing::{parse_drawing_images, parse_images_for_drawing};
use hikitsugi_doc_xml::floats::{FloatReading, Number};
use hikitsugi_doc_xml::workbook::parse_rels;

fn reading(text: &str) -> FloatReading {
    let x: f64 = text.parse().unwrap();
    FloatReading {
        text: text.to_string(),
        number: Number { shown: x.to_string(), positive: x > 0.0 },
        pixels: (x / 914400.0 * 96.0).to_string(),
    }
}

const DRAWING: &str = "<xdr:wsDr><xdr:twoCellAnchor><xdr:from><xdr:col>1</xdr:col><xdr:row>2</xdr:row></xdr:from>\
<xdr:to><xdr:col>5</xdr:col><xdr:row>9</xdr:row></xdr:to><xdr:pic><xdr:blipFill><a:blip r:embed=\"rId1\"/></xdr:blipFill>\
<xdr:spPr><a:ext cx=\"914400\" cy=\"bad\"/></xdr:spPr></xdr:pic></xdr:twoCellAnchor>\
<xdr:oneCellAnchor><xdr:from><xdr:col>x</xdr:col><xdr:row>0</xdr:row></xdr:from><a:blip r:embed=\"rId2\"/></xdr:oneCellAnchor></xdr:wsDr>";

fn entries() -> Entries {
    let mut e = Entries::empty();
    e.insert("xl/drawings/drawing1.xml".to_string(), DRAWING.as_bytes().to_vec());
    e.insert(
        "xl/drawings/_rels/drawing1.xml.rels".to_string(),
        b"<r><Relationship Id=\"rId1\" Target=\"../media/image1.PNG\"/>\
          <Relationship Id=\"rId2\" Target=\"/xl/media/second\"/></r>"
            .to_vec(),
    );
    e.insert("xl/media/image1.PNG".to_string(), vec![1, 2, 3]);
    e.insert("xl/media/second".to_string(), b"data".to_vec());
    e.insert("xl/drawings/vmlDrawing1.xml".to_string(), DRAWING.as_bytes().to_vec());
    e
}

#[test]
fn images_with_anchors_and_sizes() {
    let images = parse_images_for_drawing(&entries(), &[reading("914400")]);
    assert_eq!(images.len(), 2);
    let i = &images[0];
    assert_eq!((i.row, i.col, i.to_row, i.to_col), (3, 2, Some(10), Some(6)));
    assert_eq!(i.data_b64, "AQID");
    assert_eq!(i.fmt, "png");
    assert_eq!(i.width, Some("96".to_string()));
    assert_eq!(i.height, None);
    let i = &images[1];
    assert_eq!((i.row, i.col, i.to_row, i.to_col), (1, 1, None, None));
    assert_eq!(i.data_b64, "ZGF0YQ==");
    assert_eq!(i.fmt, "xl/media/second");
    assert_eq!((i.width.clone(), i.height.clone()), (None, None));
}

#[test]
fn images_that_lead_nowhere() {
    let mut e = Entries::empty();
    e.insert("xl/drawings/drawing1.xml".to_string(), DRAWING.as_bytes().to_vec());
    assert_eq!(parse_images_for_drawing(&e, &[]).len(), 0);
}

#[test]
fn images_are_added_to_those_before() {
    let e = entries();
    let rels = parse_rels(b"<r><Relationship Id=\"rId1\" Target=\"image1.PNG\"/></r>");
    let mut images = Vec::new();
    parse_drawing_images(DRAWING.as_bytes(), &rels, &e, &[], &mut images);
    parse_drawing_images(DRAWING.as_bytes(), &rels, &e, &[], &mut images);
    assert_eq!(images.len(), 2);
    assert_eq!(images[1].data_b64, "AQID");
}

#[test]
fn the_last_row_wraps() {
    let text = DRAWING.replace("<xdr:row>2</xdr:row>", "<xdr:row>4294967295</xdr:row>");
    let rels = parse_rels(b"<r><Relationship Id=\"rId1\" Target=\"image1.PNG\"/></r>");
    let mut images = Vec::new();
    parse_drawing_images(text.as_bytes(), &rels, &entries(), &[], &mut images);
    assert_eq!(images[0].row, 0);
}
