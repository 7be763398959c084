//! From an xlsx file to its handover document, and whether a document is still up to date.

use vstd::prelude::*;
use vstd::utf8::{encode_utf8, encode_utf8_valid_utf8, valid_utf8};

use crate::archive::{get_file_hash, md5_text, part_named, read_zip_entries, zip_parts, Entries};
use crate::document::{
    sheet_lines, sheets_lines, workbook_fields, workbook_lines, written, DocumentView,
};
use crate::fidelity::{
    all_keep_images, bare_styles, bare_table, law_converted_document_is_clean,
};
use crate::floats::{readings_view, FloatReading};
use crate::lines::{
    close_line, declaration, document_text, fields_view, lemma_document_root, lemma_lines_text,
    lemma_single_line, line_in_order, lines_text, open_line, push_field, root_read, write_close,
    write_open, Field, Form, LineView,
};
use crate::readback::{clean_document, law_hash_read_back, lemma_root_in_order};
use crate::sheet::{SheetView, WorksheetData};
use crate::styles::{parse_styles, workbook_styles, Styles, StylesView};
use crate::text::{same, text_of_utf8, texts};
use crate::workbook::{
    pairs_view, parse_shared_strings, parse_workbook, shared_strings, workbook_sheets,
};
use crate::worksheet::worksheet;
use crate::xml::{extract_root_attr, root_attribute, xml_events};

verus! {

/// The worksheets among some sheets whose parts are there.
pub open spec fn found_sheets(
    sheets: Seq<(Seq<char>, Seq<char>)>,
    parts: Seq<(Seq<char>, Seq<u8>)>,
    shared: Seq<Seq<char>>,
    styles: StylesView,
    readings: Seq<FloatReading<Seq<char>>>,
) -> Seq<SheetView>
    decreases sheets.len(),
{
    if sheets.len() == 0 {
        Seq::empty()
    } else {
        let before = found_sheets(sheets.drop_last(), parts, shared, styles, readings);
        let (name, path) = sheets.last();
        match part_named(parts, path) {
            Some(data) => before.push(worksheet(data, name, shared, styles, parts, readings)),
            None => before,
        }
    }
}

/// The worksheets of a workbook whose parts are given.
pub open spec fn converted_sheets(
    parts: Seq<(Seq<char>, Seq<u8>)>,
    readings: Seq<FloatReading<Seq<char>>>,
) -> Seq<SheetView> {
    found_sheets(
        workbook_sheets(parts),
        parts,
        shared_strings(parts),
        workbook_styles(parts, readings),
        readings,
    )
}

/// The name that a document goes by; `unknown.xlsx` where its file has none.
pub open spec fn document_name(filename: Option<&str>) -> Seq<char> {
    match filename {
        Some(n) => n@,
        None => "unknown.xlsx"@,
    }
}

/// The handover document of a workbook whose parts are given.
pub open spec fn document_of(
    parts: Seq<(Seq<char>, Seq<u8>)>,
    filename: Seq<char>,
    converted: Seq<char>,
    hash: Seq<char>,
    readings: Seq<FloatReading<Seq<char>>>,
) -> DocumentView {
    DocumentView { filename, converted, hash, sheets: converted_sheets(parts, readings) }
}

/// Writes the worksheets of a workbook behind what is there.
fn write_sheets(
    sheets: &Vec<(String, String)>,
    entries: &Entries,
    shared: &Vec<String>,
    styles: &Styles,
    readings: &[FloatReading],
    out: &mut String,
)
    ensures
        final(out)@ == old(out)@ + lines_text(
            sheets_lines(
                found_sheets(
                    pairs_view(sheets@),
                    entries@,
                    texts(shared@),
                    styles@,
                    readings_view(readings@),
                ),
            ),
        ),
        all_keep_images(
            found_sheets(
                pairs_view(sheets@),
                entries@,
                texts(shared@),
                styles@,
                readings_view(readings@),
            ),
            entries@,
            readings_view(readings@),
        ),
{
    let ghost all = pairs_view(sheets@);
    let ghost parts = entries@;
    let ghost strings = texts(shared@);
    let ghost table = readings_view(readings@);
    let ghost before = out@;
    assert(all.take(0) =~= Seq::<(Seq<char>, Seq<char>)>::empty());
    assert(before + lines_text(Seq::<LineView>::empty()) =~= before);
    for i in 0..sheets.len()
        invariant
            all == pairs_view(sheets@),
            parts == entries@,
            strings == texts(shared@),
            table == readings_view(readings@),
            out@ == before + lines_text(
                sheets_lines(found_sheets(all.take(i as int), parts, strings, styles@, table)),
            ),
            all_keep_images(
                found_sheets(all.take(i as int), parts, strings, styles@, table),
                parts,
                table,
            ),
    {
        let ghost found = found_sheets(all.take(i as int), parts, strings, styles@, table);
        assert(all.take(i + 1).drop_last() =~= all.take(i as int));
        assert(all.take(i + 1).last() == all[i as int]);
        if let Some(data) = entries.get(sheets[i].1.as_str()) {
            let sheet = WorksheetData::parse(
                data,
                sheets[i].0.as_str(),
                shared.as_slice(),
                styles,
                entries,
                readings,
            );
            sheet.write_xml(out);
            proof {
                let more = found.push(sheet@);
                assert(more.drop_last() =~= found);
                lemma_lines_text(sheets_lines(found), sheet_lines(sheet@));
                assert(before + lines_text(sheets_lines(found)) + lines_text(sheet_lines(sheet@))
                    =~= before + (lines_text(sheets_lines(found)) + lines_text(
                    sheet_lines(sheet@),
                )));
            }
        }
    }
    assert(all.take(all.len() as int) =~= all);
}

/// Writes the handover document of a workbook: what is converted, when, and the fingerprint
/// of the file it comes from are given.
pub fn document_xml(
    entries: &Entries,
    filename: &str,
    converted: &str,
    hash: &str,
    readings: &[FloatReading],
) -> (r: String)
    ensures
        r@ == document_text(
            workbook_lines(
                document_of(entries@, filename@, converted@, hash@, readings_view(readings@)),
            ),
        ),
        all_keep_images(
            converted_sheets(entries@, readings_view(readings@)),
            entries@,
            readings_view(readings@),
        ),
{
    let shared = parse_shared_strings(entries);
    let styles = parse_styles(entries, readings);
    let sheets = parse_workbook(entries);
    let ghost d = document_of(entries@, filename@, converted@, hash@, readings_view(readings@));
    let mut xml = "<?xml version=\"1.0\" encoding=\"UTF-8\"?>\n".to_owned();
    let mut fields: Vec<Field> = Vec::new();
    assert(fields_view(fields@) =~= Seq::<Field<Seq<char>>>::empty());
    push_field(&mut fields, "filename", filename.to_owned(), false, false);
    push_field(&mut fields, "converted", converted.to_owned(), false, false);
    push_field(&mut fields, "hash", hash.to_owned(), false, false);
    assert(fields_view(fields@) == workbook_fields(d));
    write_open(0, "workbook", fields, &mut xml);
    write_sheets(&sheets, entries, &shared, &styles, readings, &mut xml);
    write_close(0, "workbook", &mut xml);
    proof {
        let first = seq![open_line(0, "workbook"@, workbook_fields(d))];
        let middle = sheets_lines(d.sheets);
        let last = seq![close_line(0, "workbook"@)];
        lemma_lines_text(first + middle, last);
        lemma_lines_text(first, middle);
        lemma_single_line(first[0]);
        lemma_single_line(last[0]);
        assert(xml@ =~= document_text(workbook_lines(d)));
    }
    xml
}

/// The handover document of an xlsx file. The only error is one of the archive. The worksheets
/// keep their images, and where no text that is written without escaping needs it, the document
/// is one that a search and an export find again as it was.
pub fn convert_excel_to_xml(
    xlsx: &[u8],
    filename: Option<&str>,
    converted: &str,
    readings: &[FloatReading],
) -> (r: Result<String, String>)
    ensures
        match r {
            Ok(xml) => zip_parts(xlsx@) is Ok && xml@ == document_text(
                workbook_lines(
                    document_of(
                        zip_parts(xlsx@)->Ok_0,
                        document_name(filename),
                        converted@,
                        md5_text(xlsx@),
                        readings_view(readings@),
                    ),
                ),
            ),
            Err(e) => zip_parts(xlsx@) is Err && e@ == zip_parts(xlsx@)->Err_0,
        },
        r is Ok ==> ({
            let parts = zip_parts(xlsx@)->Ok_0;
            let table = readings_view(readings@);
            &&& all_keep_images(converted_sheets(parts, table), parts, table)
            &&& bare_table(table) && bare_styles(workbook_styles(parts, table)) ==> clean_document(
                document_of(
                    parts,
                    document_name(filename),
                    converted@,
                    md5_text(xlsx@),
                    table,
                ),
            )
        }),
{
    let hash = get_file_hash(xlsx);
    let name = match filename {
        Some(n) => n,
        None => "unknown.xlsx",
    };
    match read_zip_entries(xlsx) {
        Ok(entries) => {
            let xml = document_xml(&entries, name, converted, hash.as_str(), readings);
            proof {
                let table = readings_view(readings@);
                if bare_table(table) && bare_styles(workbook_styles(entries@, table)) {
                    law_converted_document_is_clean(
                        entries@,
                        name@,
                        converted@,
                        hash@,
                        table,
                    );
                }
            }
            Ok(xml)
        },
        Err(e) => Err(e),
    }
}

/// The fingerprint that a handover document holds, from the events of the document.
pub open spec fn stored_hash(events: Seq<crate::xml::EventView>) -> Seq<char> {
    match root_attribute(events, "hash"@) {
        Some(h) => h,
        None => Seq::empty(),
    }
}

/// Whether a cached document belongs to the xlsx file as it is now: both can be read, the
/// document is text, and the fingerprint it holds is that of the file.
pub open spec fn cache_valid(xlsx: Option<Seq<u8>>, xml: Option<Seq<u8>>) -> bool {
    match (xlsx, xml) {
        (Some(file), Some(document)) => valid_utf8(document) && stored_hash(
            xml_events(document, true),
        ) == md5_text(file),
        _ => false,
    }
}

/// Whether a fingerprint that may be missing is that of a file.
pub fn hash_matches(cached: Option<String>, current: &str) -> (r: bool)
    ensures
        r == (current@ == match cached {
            Some(h) => h@,
            None => Seq::empty(),
        }),
{
    match cached {
        Some(h) => same(h.as_str(), current),
        None => {
            assert(current@.len() == 0 ==> current@ =~= Seq::<char>::empty());
            current.is_empty()
        },
    }
}

/// The bytes behind an optional slice.
pub open spec fn optional_slice(data: Option<&[u8]>) -> Option<Seq<u8>> {
    match data {
        Some(d) => Some(d@),
        None => None,
    }
}

/// Whether a cached document belongs to the xlsx file as it is now. Either is missing where
/// its file cannot be read. A document that this library wrote does if and only if it was
/// written with the fingerprint of the file.
pub fn is_cache_valid(xlsx: Option<&[u8]>, xml: Option<&[u8]>) -> (r: bool)
    ensures
        r == cache_valid(optional_slice(xlsx), optional_slice(xml)),
        xlsx matches Some(file) ==> forall|d: DocumentView|
            optional_slice(xml) == Some(#[trigger] written(d)) ==> r == (d.hash == md5_text(
                file@,
            )),
{
    let document = match xml {
        Some(d) => d,
        None => {
            return false;
        },
    };
    proof {
        assert forall|d: DocumentView| document@ == #[trigger] written(d) implies valid_utf8(
            document@,
        ) && line_in_order(workbook_lines(d)[0]) by {
            encode_utf8_valid_utf8(document_text(workbook_lines(d)));
            lemma_root_in_order(d);
        }
    }
    let text = match text_of_utf8(document) {
        Ok(t) => t,
        Err(_) => {
            return false;
        },
    };
    let cached = extract_root_attr(text, "hash");
    proof {
        let events = xml_events(document@, true);
        assert forall|d: DocumentView| document@ == #[trigger] written(d) implies root_attribute(
            events,
            "hash"@,
        ) == Some(d.hash) by {
            let lines = workbook_lines(d);
            assert(document@ == encode_utf8(document_text(lines)));
            lemma_document_root(lines);
            assert(lines[0].form == Form::Open);
            assert(root_read(events, Some(declaration()), lines[0]));
            law_hash_read_back(d, events);
        }
    }
    match xlsx {
        Some(file) => hash_matches(cached, get_file_hash(file).as_str()),
        None => false,
    }
}

} // verus!
