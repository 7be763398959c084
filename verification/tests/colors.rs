use hikitsugi_doc_xml::color::{argb_u32, resolve_color, upper_rgb};

#[test]
fn rgb_colors() {
    assert_eq!(resolve_color(Some("ff00aa11"), None, None), Some("FF00AA11".to_string()));
    assert_eq!(resolve_color(Some("00aa11"), None, None), Some("FF00AA11".to_string()));
    assert_eq!(resolve_color(Some("00000000"), None, None), None);
    assert_eq!(resolve_color(Some("abc"), None, None), None);
    assert_eq!(resolve_color(None, None, None), None);
    assert_eq!(upper_rgb("12345678".to_string()), Some("12345678".to_string()));
}

#[test]
fn an_rgb_color_goes_before_a_theme_color() {
    assert_eq!(resolve_color(Some("FF112233"), Some(4), Some(2)), Some("FF112233".to_string()));
    assert_eq!(resolve_color(Some("00000000"), Some(4), Some(2)), Some("FF4472C4".to_string()));
    assert_eq!(resolve_color(None, Some(10), Some(2)), None);
    assert_eq!(resolve_color(None, None, Some(2)), Some("FFFF0000".to_string()));
}

#[test]
fn theme_colors() {
    let expected = [
        "FFFFFFFF", "FF000000", "FFE7E6E6", "FF44546A", "FF4472C4", "FFED7D31", "FFA5A5A5",
        "FFFFC000", "FF4472C4", "FFED7D31",
    ];
    for (i, e) in expected.iter().enumerate() {
        assert_eq!(resolve_color(None, Some(i as u32), None), Some(e.to_string()));
    }
}

#[test]
fn indexed_colors() {
    let expected = [
        (0u32, "FF000000"), (1, "FFFFFFFF"), (2, "FFFF0000"), (3, "FF00FF00"), (4, "FF0000FF"),
        (5, "FFFFFF00"), (6, "FFFF00FF"), (7, "FF00FFFF"), (8, "FF000000"), (9, "FFFFFFFF"),
        (64, "FF000000"), (65, "FFFFFFFF"),
    ];
    for (i, e) in expected {
        assert_eq!(resolve_color(None, None, Some(i)), Some(e.to_string()));
    }
    assert_eq!(resolve_color(None, None, Some(10)), None);
    assert_eq!(resolve_color(None, None, Some(63)), None);
}

#[test]
fn color_numbers() {
    assert_eq!(argb_u32("FF123456"), Some(0x123456));
    assert_eq!(argb_u32("#ff123456"), Some(0x123456));
    assert_eq!(argb_u32("##abcdef"), Some(0xABCDEF));
    assert_eq!(argb_u32("AbCdEf"), Some(0xABCDEF));
    assert_eq!(argb_u32("FFFFFF"), Some(0xFFFFFF));
    assert_eq!(argb_u32("+12345"), Some(0x12345));
    assert_eq!(argb_u32("12345"), None);
    assert_eq!(argb_u32(""), None);
    assert_eq!(argb_u32("GG1234"), None);
    assert_eq!(argb_u32("FFxyzxyz"), None);
}

#[test]
fn colors_that_cannot_be_cut() {
    assert_eq!(argb_u32("é123456"), Some(0x123456));
    assert_eq!(argb_u32("あ12345"), None);
    assert_eq!(argb_u32("#あ12345"), None);
    assert_eq!(argb_u32("あ1234"), None);
}

#[test]
fn resolved_colors_stay() {
    for rgb in [Some("12ab34"), Some("f012ab34"), Some("00000000"), Some("zz~{}[]!"), None] {
        for n in 0u32..70 {
            for c in [resolve_color(rgb, Some(n), None), resolve_color(rgb, None, Some(n))] {
                if let Some(c) = c {
                    assert_eq!(c.len(), 8);
                    assert!(!c.chars().any(|x| x.is_ascii_lowercase()));
                    assert_ne!(c, "00000000");
                    assert_eq!(resolve_color(Some(&c), Some(3), Some(2)), Some(c.clone()));
                }
            }
        }
    }
    assert_eq!(resolve_color(Some("az{@[`"), None, None), Some("FFAZ{@[`".to_string()));
}

#[test]
fn colors_have_eight_bytes() {
    let inputs = [Some("12ab34"), Some("f012ab34"), Some("あ123"), Some("あああ"), Some("short"), None];
    for rgb in inputs {
        for n in 0u32..70 {
            for c in [resolve_color(rgb, Some(n), None), resolve_color(rgb, None, Some(n))] {
                assert!(c.map_or(true, |c| c.len() == 8));
            }
        }
    }
}
