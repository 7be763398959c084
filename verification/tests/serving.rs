use hikitsugi_doc_xml::catalog::{add_results, list_places, read_structure, CodeDir, TeamDir};
use hikitsugi_doc_xml::order::name_order;
use hikitsugi_doc_xml::requests::{
    attachment_header, cache_parts, cache_path, get_refusal, part_is_safe, refuse_failed, safe_path,
    save_refusal, start_export, ExportStart, PartKind, Refusal,
};
use hikitsugi_doc_xml::search::Hit;

fn code(name: &str, is_dir: bool, files: Option<&[&str]>) -> CodeDir {
    CodeDir {
        name: name.to_string(),
        is_dir,
        files: files.map(|f| f.iter().map(|s| s.to_string()).collect()),
    }
}

fn tree() -> Vec<TeamDir> {
    vec![
        TeamDir {
            name: "team".to_string(),
            is_dir: true,
            codes: Some(vec![
                code("A", true, Some(&["b.xlsx", "~$b.xlsx", "c.txt", "d.xlsx"])),
                code("empty", true, Some(&["x.xls"])),
                code(".hidden", true, Some(&["e.xlsx"])),
                code("file", false, Some(&["f.xlsx"])),
                code("closed", true, None),
                code("B", true, Some(&["g.xlsx"])),
            ]),
        },
        TeamDir { name: ".git".to_string(), is_dir: true, codes: Some(vec![code("C", true, Some(&["h.xlsx"]))]) },
        TeamDir { name: "note.txt".to_string(), is_dir: false, codes: None },
        TeamDir { name: "none".to_string(), is_dir: true, codes: Some(vec![code("D", true, Some(&[]))]) },
        TeamDir { name: "last".to_string(), is_dir: true, codes: Some(vec![code("E", true, Some(&[".xlsx"]))]) },
    ]
}

#[test]
fn teams_codes_and_documents() {
    let teams = read_structure(&tree());
    assert_eq!(teams.len(), 2);
    assert_eq!(teams[0].name, "team");
    assert_eq!(teams[0].codes.len(), 2);
    assert_eq!(teams[0].codes[0].name, "A");
    assert_eq!(teams[0].codes[0].documents, vec!["b.xlsx", "d.xlsx"]);
    assert_eq!(teams[0].codes[1].documents, vec!["g.xlsx"]);
    assert_eq!(teams[1].name, "last");
}

#[test]
fn the_same_documents_are_searched() {
    let tree = tree();
    let places: Vec<(usize, usize, usize)> =
        list_places(&tree).iter().map(|p| (p.team, p.code, p.file)).collect();
    assert_eq!(places, vec![(0, 0, 0), (0, 0, 3), (0, 5, 0), (4, 0, 0)]);
}

#[test]
fn results_carry_the_names_of_their_document() {
    let tree = tree();
    let places = list_places(&tree);
    let hits = vec![Hit { sheet: "S".to_string(), cell: "A1".to_string(), value: "v".to_string() }];
    let mut results = Vec::new();
    add_results(&mut results, &tree, &places[1], &hits);
    add_results(&mut results, &tree, &places[2], &hits);
    assert_eq!(results.len(), 2);
    let r = &results[0];
    assert_eq!(
        (r.team.as_str(), r.code.as_str(), r.filename.as_str(), r.sheet.as_str(), r.cell.as_str(), r.value.as_str()),
        ("team", "A", "d.xlsx", "S", "A1", "v")
    );
    assert_eq!(results[1].filename, "g.xlsx");
}

#[test]
fn parts_of_a_path() {
    let one = [PartKind::Normal];
    assert!(part_is_safe("a.xlsx", &one));
    assert!(part_is_safe("チーム1", &one));
    assert!(!part_is_safe("", &one));
    assert!(!part_is_safe("..", &one));
    assert!(!part_is_safe("a..b", &one));
    assert!(!part_is_safe("a/b", &one));
    assert!(!part_is_safe("a\\b", &one));
    assert!(!part_is_safe("a", &[]));
    assert!(!part_is_safe("a", &[PartKind::Other]));
    assert!(!part_is_safe("a", &[PartKind::Normal, PartKind::Normal]));
}

#[test]
fn paths() {
    assert!(safe_path(&["チーム1", "AAA-01", "a.xlsx"]));
    assert!(!safe_path(&["チーム1", ".", "a.xlsx"]));
    assert!(!safe_path(&["..", "a", "b"]));
    assert!(!safe_path(&["a", "", "b"]));
    assert!(!safe_path(&["a", "b", "/etc"]));
    assert!(safe_path(&[]));
}

#[test]
fn names_in_the_cache() {
    for name in ["a.xlsx", "a.b.xlsx", "noext", ".xlsx", ".a.xlsx", "a.", "引継ぎ.xlsx", "a..xlsx"] {
        let path = std::path::Path::new(name).with_extension("xml");
        assert_eq!(cache_path(name), path.to_str().unwrap());
    }
    assert_ne!(cache_path("a.xlsx"), cache_path("a.b.xlsx"));
    assert_eq!(cache_path(".xlsx"), cache_path(".xlsx.xlsx"));
}

#[test]
fn places_in_the_cache() {
    assert_eq!(cache_parts(&["チーム1", "A-01", "a.b.xlsx"]), vec!["チーム1", "A-01", "a.b.xml"]);
    assert_eq!(cache_parts(&["t.xlsx", "c", "a.xlsx"]), vec!["t.xlsx", "c", "a.xml"]);
    assert_eq!(cache_parts(&[]), Vec::<String>::new());
    assert_ne!(cache_parts(&["t", "c", "a.xlsx"]), cache_parts(&["t", "d", "a.xlsx"]));
    assert_ne!(cache_parts(&["t", "c", "a.xlsx"]), cache_parts(&["t", "a.xlsx"]));
}

#[test]
fn names_are_listed_in_order() {
    let names = ["b", "B", "ab", "a", "チーム2", "チーム10", "", "é", "z", "😀", "～"];
    let bytes: Vec<Vec<u8>> = names.iter().map(|n| n.as_bytes().to_vec()).collect();
    let listed: Vec<&str> = name_order(&bytes).into_iter().map(|i| names[i]).collect();
    let mut sorted = names.to_vec();
    sorted.sort();
    assert_eq!(listed, sorted);
    assert_eq!(name_order(&[]).len(), 0);
    assert_eq!(name_order(&[vec![1], vec![0xff], vec![1, 0]]), vec![0, 2, 1]);
}

fn parts(r: Option<Refusal>) -> Option<(u16, String)> {
    r.map(|r| (r.status, r.message))
}

#[test]
fn refused_requests() {
    assert_eq!(parts(get_refusal(false, true)), Some((400, "不正なパスです".to_string())));
    assert_eq!(parts(get_refusal(true, false)), Some((404, "ファイルが見つかりません".to_string())));
    assert_eq!(parts(get_refusal(true, true)), None);
    assert!(matches!(start_export(true, true, false), ExportStart::UseCache));
    assert!(matches!(start_export(true, false, true), ExportStart::Convert));
    assert!(matches!(start_export(true, false, false), ExportStart::Refuse(r) if r.status == 404));
    assert!(matches!(start_export(false, true, true), ExportStart::Refuse(r) if r.status == 400));
    assert_eq!(refuse_failed("x").status, 500);
}

#[test]
fn edited_documents() {
    assert_eq!(parts(save_refusal("<a><b/> text </a>")), None);
    assert_eq!(parts(save_refusal("")), None);
    let (status, message) = parts(save_refusal("<a></b>")).unwrap();
    assert_eq!(status, 400);
    let mut reader = quick_xml::Reader::from_str("<a></b>");
    reader.read_event().unwrap();
    let error = reader.read_event().unwrap_err().to_string();
    assert_eq!(message, format!("XMLの形式が不正です: {}", error));
}

#[test]
fn downloads() {
    assert_eq!(attachment_header("a.xlsx"), "attachment; filename=\"a.xlsx\"");
    assert_eq!(attachment_header("\"a\"b\""), "attachment; filename=\"ab\"");
}

#[test]
fn errors_as_json() {
    for message in ["plain", "引継ぎ \"x\" \\ / \n\r\t\u{8}\u{c}\u{1}\u{1f}\u{7f}", ""] {
        let mut map = serde_json::Map::new();
        map.insert("error".to_string(), serde_json::Value::from(message));
        assert_eq!(refuse_failed(message).error_json(), serde_json::Value::Object(map).to_string());
    }
    assert_eq!(refuse_failed("a\u{1}\"").error_json(), "{\"error\":\"a\\u0001\\\"\"}");
}
