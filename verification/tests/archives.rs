use hikitsugi_doc_xml::archive::{get_file_hash, read_zip_entries, Entries};
use std::io::{Cursor, Write};
use zip::write::SimpleFileOptions;

fn archive(parts: &[(&str, &[u8])]) -> Vec<u8> {
    let mut w = zip::ZipWriter::new(Cursor::new(Vec::new()));
    for (name, data) in parts {
        w.start_file(*name, SimpleFileOptions::default()).unwrap();
        w.write_all(data).unwrap();
    }
    w.finish().unwrap().into_inner()
}

#[test]
fn parts_of_an_archive() {
    let bytes = archive(&[("a.xml", b"one"), ("d/b.bin", &[0, 255, 7]), ("empty", b"")]);
    let e = match read_zip_entries(&bytes) {
        Ok(e) => e,
        Err(m) => panic!("{}", m),
    };
    assert_eq!(e.len(), 3);
    assert_eq!(e.name(1), "d/b.bin");
    assert_eq!(e.data(1), &[0u8, 255, 7]);
    assert_eq!(e.get("a.xml"), Some(&b"one"[..]));
    assert_eq!(e.get("empty"), Some(&b""[..]));
    assert_eq!(e.get("nothing"), None);
}

#[test]
fn what_is_not_an_archive() {
    let text = match read_zip_entries(b"this is no archive") {
        Ok(_) => panic!("read"),
        Err(m) => m,
    };
    let outside = match zip::ZipArchive::new(Cursor::new(&b"this is no archive"[..])) {
        Ok(_) => panic!("opened"),
        Err(e) => e.to_string(),
    };
    assert_eq!(text, outside);
}

#[test]
fn an_archive_with_a_damaged_part() {
    let mut bytes = archive(&[("a.xml", b"some text that is long enough to be stored")]);
    for i in 40..50 {
        bytes[i] ^= 0x55;
    }
    assert!(read_zip_entries(&bytes).is_err());
}

#[test]
fn a_later_part_takes_the_place_of_an_earlier_one() {
    let mut e = Entries::empty();
    e.insert("x".to_string(), vec![1]);
    e.insert("y".to_string(), vec![2]);
    e.insert("x".to_string(), vec![3]);
    assert_eq!(e.len(), 2);
    assert_eq!(e.name(0), "x");
    assert_eq!(e.get("x"), Some(&[3u8][..]));
    assert_eq!(e.get("y"), Some(&[2u8][..]));
}

#[test]
fn fingerprints() {
    assert_eq!(get_file_hash(b""), "d41d8cd98f00b204e9800998ecf8427e");
    assert_eq!(get_file_hash(b"abc"), "900150983cd24fb0d6963f7d28e17f72");
}
