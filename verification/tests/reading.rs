use hikitsugi_doc_xml::xml::{extract_root_attr, read_document, root_attr_in, xml_escape, XmlEvent};

fn show(events: &[XmlEvent]) -> Vec<String> {
    events
        .iter()
        .map(|e| match e {
            XmlEvent::Start(t) => format!("<{}>", t.name),
            XmlEvent::Empty(t) => format!("<{}/>", t.name),
            XmlEvent::End(n) => format!("</{}>", n),
            XmlEvent::Text(t) => format!("text {:?}", t),
            XmlEvent::Other => "other".to_string(),
        })
        .collect()
}

#[test]
fn events_in_order() {
    let d = read_document(b"<?xml version=\"1.0\"?><a:x>\n <y/>t &lt; u<!-- c --></a:x>", true);
    assert_eq!(
        show(&d.events),
        vec!["other", "<x>", "<y/>", "text Some(\"t < u\")", "other", "</x>"]
    );
    assert_eq!(d.error, None);
}

#[test]
fn white_space_is_kept_without_trimming() {
    let d = read_document(b"<x>\n <y/> a </x>", false);
    assert_eq!(
        show(&d.events),
        vec!["<x>", "text Some(\"\\n \")", "<y/>", "text Some(\" a \")", "</x>"]
    );
}

#[test]
fn a_document_that_breaks_off() {
    let d = read_document(b"<x><y></x>", true);
    assert_eq!(show(&d.events), vec!["<x>", "<y>"]);
    assert!(d.error.is_some());
    let d = read_document(b"<x><y", true);
    assert_eq!(show(&d.events), vec!["<x>"]);
    assert!(d.error.is_some());
    let d = read_document(b"", true);
    assert_eq!(d.events.len(), 0);
    assert_eq!(d.error, None);
}

#[test]
fn text_that_cannot_be_unescaped() {
    let d = read_document(b"<x>&nothing;</x>", true);
    assert_eq!(show(&d.events), vec!["<x>", "text None", "</x>"]);
}

#[test]
fn attributes_by_name() {
    let d = read_document(
        b"<x a=\"1\" r:id='&lt;2&gt;' b=\"&nothing;\" a=\"3\" n=\"17\" m=\"99999999999\"/>",
        true,
    );
    let t = match &d.events[0] {
        XmlEvent::Empty(t) => t,
        _ => panic!("no tag"),
    };
    assert_eq!(t.attribute("a"), Some("1".to_string()));
    assert_eq!(t.attribute("r:id"), Some("<2>".to_string()));
    assert_eq!(t.attribute("id"), None);
    assert_eq!(t.qualified("id"), Some("<2>".to_string()));
    assert_eq!(t.attribute("b"), None);
    assert!(t.has_attribute("b"));
    assert!(!t.has_attribute("c"));
    assert_eq!(t.number("n"), Some(17));
    assert_eq!(t.index("n"), Some(17));
    assert_eq!(t.number("m"), None);
    assert_eq!(t.number_or("m", 5), 5);
    assert_eq!(t.text_or("zz", "other"), "other");
    assert!(t.says("a", "1"));
    assert!(!t.says("a", "3"));
    assert!(t.is("x"));
}

#[test]
fn an_attribute_behind_a_malformed_one() {
    let d = read_document(b"<x a=\"1\" b c=\"3\" y:c=\"4\"/>", true);
    let t = match &d.events[0] {
        XmlEvent::Empty(t) => t,
        _ => panic!("no tag"),
    };
    assert_eq!(t.attribute("a"), Some("1".to_string()));
    assert_eq!(t.attribute("c"), None);
    assert_eq!(t.qualified("c"), Some("3".to_string()));
}

#[test]
fn attributes_of_the_root() {
    let xml = "<?xml version=\"1.0\"?>\n<!-- x -->\n<workbook hash=\"a&amp;b\"><sheet name=\"s\"/></workbook>";
    assert_eq!(extract_root_attr(xml, "hash"), Some("a&b".to_string()));
    assert_eq!(extract_root_attr(xml, "name"), None);
    assert_eq!(extract_root_attr("", "hash"), None);
    assert_eq!(extract_root_attr("no tag", "hash"), None);
    let d = read_document(xml.as_bytes(), true);
    assert_eq!(root_attr_in(&d.events, "hash"), Some("a&b".to_string()));
}

#[test]
fn root_attributes_are_read_back() {
    for s in ["", "a", "<&>'\"", "&amp;", "漢字 \t\n\r\u{0}]]>", "  x  "] {
        let xml = format!("<?xml version=\"1.0\"?>\n<r a=\"{}\"><c b=\"1\"/></r>", xml_escape(s));
        assert_eq!(extract_root_attr(&xml, "a"), Some(s.to_string()));
        assert_eq!(extract_root_attr(&xml, "b"), None);
        let xml = format!("  <r  a=\"{}\"/><<<", xml_escape(s));
        assert_eq!(extract_root_attr(&xml, "a"), Some(s.to_string()));
        let xml = format!("<?any thing?>\n<r a=\"{}\"> & </x>", xml_escape(s));
        assert_eq!(extract_root_attr(&xml, "a"), Some(s.to_string()));
    }
}
