use hikitsugi_doc_xml::cellref::parse_merge_ref;
use hikitsugi_doc_xml::text::{decimal_text, parse_u32, parse_usize, trim};
use hikitsugi_doc_xml::{cell_ref_to_row_col, col_num_to_str, xml_escape};

#[test]
fn cell_references() {
    assert_eq!(cell_ref_to_row_col("A1"), (1, 1));
    assert_eq!(cell_ref_to_row_col("Z10"), (10, 26));
    assert_eq!(cell_ref_to_row_col("AA1"), (1, 27));
    assert_eq!(cell_ref_to_row_col("XFD1048576"), (1048576, 16384));
    assert_eq!(cell_ref_to_row_col("b7"), (7, 2));
    assert_eq!(cell_ref_to_row_col("$C$3"), (3, 3));
    assert_eq!(cell_ref_to_row_col("あA1"), (1, 1));
}

#[test]
fn cell_references_without_row_or_column() {
    assert_eq!(cell_ref_to_row_col(""), (0, 0));
    assert_eq!(cell_ref_to_row_col("A"), (0, 1));
    assert_eq!(cell_ref_to_row_col("12"), (12, 0));
    assert_eq!(cell_ref_to_row_col("A99999999999"), (0, 1));
    assert_eq!(cell_ref_to_row_col("A4294967295"), (4294967295, 1));
}

#[test]
fn column_letters() {
    assert_eq!(col_num_to_str(0), "");
    assert_eq!(col_num_to_str(1), "A");
    assert_eq!(col_num_to_str(26), "Z");
    assert_eq!(col_num_to_str(27), "AA");
    assert_eq!(col_num_to_str(702), "ZZ");
    assert_eq!(col_num_to_str(703), "AAA");
    assert_eq!(col_num_to_str(16384), "XFD");
}

#[test]
fn columns_read_back() {
    for n in [1u32, 25, 26, 27, 52, 701, 702, 703, 16384, 4294967295] {
        let name = format!("{}{}", col_num_to_str(n), 9);
        assert_eq!(cell_ref_to_row_col(&name), (9, n));
    }
}

#[test]
fn columns_have_different_letters() {
    let all: Vec<String> = (0u32..800).map(col_num_to_str).collect();
    for i in 0..all.len() {
        for j in 0..i {
            assert_ne!(all[i], all[j]);
        }
    }
}

#[test]
fn merged_ranges() {
    assert_eq!(parse_merge_ref("A1:C3"), Some((1, 1, 3, 3)));
    assert_eq!(parse_merge_ref("B2:A1"), Some((2, 2, 1, 1)));
    assert_eq!(parse_merge_ref("A1:"), Some((1, 1, 0, 0)));
    assert_eq!(parse_merge_ref("A1"), None);
    assert_eq!(parse_merge_ref("A1:B2:C3"), None);
    assert_eq!(parse_merge_ref("A:B2"), None);
    assert_eq!(parse_merge_ref("1:B2"), None);
}

#[test]
fn escaping() {
    assert_eq!(xml_escape(""), "");
    assert_eq!(xml_escape("plain 引継ぎ"), "plain 引継ぎ");
    assert_eq!(xml_escape("a<b>&\"c'"), "a&lt;b&gt;&amp;&quot;c&apos;");
    assert_eq!(xml_escape("&amp;"), "&amp;amp;");
}

#[test]
fn trimming_is_that_of_the_standard_library() {
    for s in ["", " ", "  a b\t", "\u{3000}全角\u{3000}", "\u{a0}x\u{85}", "\n\r\u{b}\u{c}y\u{2028}", "\u{200b}z", "\u{1680}\u{2009}q"] {
        assert_eq!(trim(s), s.trim());
    }
    for code in 0u32..0x3100 {
        if let Some(c) = char::from_u32(code) {
            let s = format!("{}m{}", c, c);
            assert_eq!(trim(&s), s.trim());
        }
    }
}

#[test]
fn numbers_are_those_of_the_standard_library() {
    for s in ["0", "7", "007", "+5", "-5", "", "+", "4294967295", "4294967296", "1 ", "１", "99999999999999999999999"] {
        assert_eq!(parse_u32(s), s.parse::<u32>().ok());
        assert_eq!(parse_usize(s), s.parse::<usize>().ok());
    }
}

#[test]
fn decimal_reads_back() {
    for n in [0u32, 9, 10, 99, 100, 4294967295] {
        assert_eq!(decimal_text(n), n.to_string());
        assert_eq!(parse_u32(&decimal_text(n)), Some(n));
    }
}
