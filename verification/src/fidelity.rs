//! What a workbook keeps on its way into a handover document and back.

use vstd::prelude::*;

use crate::archive::{encodes, part_named};
use crate::convert::{converted_sheets, document_of, found_sheets};
use crate::document::workbook_lines;
use crate::drawing::{
    all_encode, drawing_images, drawing_media, drawing_rels_name, drawing_state, images_of,
    images_of_first, DrawingState,
};
use crate::export::{less_one, restored, sheets_hold_all, ImageOp};
use crate::floats::{pixels_of, reading_of, FloatReading};
use crate::lines::{is_plain, read_as};
use crate::plan::{content_of, law_data_types_come_back, Content};
use crate::readback::{
    clean_cell, clean_document, clean_format, clean_image, clean_sheet, plain_cell,
    plain_cell_format, plain_image, plain_sheet,
};
use crate::restore::{images_back, law_export_restores, reads_sheets, sheet_back, sheets_back};
use crate::sheet::{with_span, with_spans, CellFormat, Image, SheetView};
use crate::styles::{
    font_step, style_end, style_state, style_tag, workbook_styles, StyleState, StylesView,
};
use crate::text::trimmed;
use crate::workbook::{rels_part, shared_strings, workbook_sheets};
use crate::worksheet::{
    cell_value, col_range, end_step, ended_cell, plain_type, read_state, style_format, tag_step,
    worksheet, xf_format, ReadState,
};
use crate::xml::{xml_events, EventView, TagView};

verus! {

/// Whether a text can be written without escaping: it holds neither quotation marks nor
/// ampersands.
pub open spec fn is_bare(s: Seq<char>) -> bool {
    is_plain(s) && !s.contains('&')
}

/// Whether an optional text can be written without escaping.
pub open spec fn bare_optional(s: Option<Seq<char>>) -> bool {
    s matches Some(t) ==> is_bare(t)
}

/// Whether the numbers of a table can be written without escaping.
pub open spec fn bare_table(readings: Seq<FloatReading<Seq<char>>>) -> bool {
    forall|i: int|
        0 <= i < readings.len() ==> is_bare((#[trigger] readings[i]).number.shown) && is_bare(
            readings[i].pixels,
        )
}

/// Whether the background colours and the borders of a style sheet can be written without
/// escaping.
pub open spec fn bare_styles(styles: StylesView) -> bool {
    &&& forall|i: int| 0 <= i < styles.fills.len() ==> bare_optional(
        (#[trigger] styles.fills[i]).bg_color,
    )
    &&& forall|i: int|
        0 <= i < styles.borders.len() ==> {
            let b = #[trigger] styles.borders[i];
            is_bare(b.left) && is_bare(b.right) && is_bare(b.top) && is_bare(b.bottom)
        }
}

/// Whether images are those of the drawings of a workbook, each with the bytes of the part that
/// holds it, or there are none.
pub open spec fn keeps_images(
    images: Seq<Image<Seq<char>>>,
    parts: Seq<(Seq<char>, Seq<u8>)>,
    readings: Seq<FloatReading<Seq<char>>>,
) -> bool {
    images.len() == 0 || (images == drawing_images(parts, readings) && all_encode(
        images,
        drawing_media(parts, readings),
    ))
}

/// Whether all worksheets keep their images.
pub open spec fn all_keep_images(
    sheets: Seq<SheetView>,
    parts: Seq<(Seq<char>, Seq<u8>)>,
    readings: Seq<FloatReading<Seq<char>>>,
) -> bool {
    forall|i: int|
        0 <= i < sheets.len() ==> keeps_images((#[trigger] sheets[i]).images, parts, readings)
}

/// The texts that the library writes of its own need no escaping.
proof fn lemma_own_texts()
    ensures
        is_bare("11"@),
        is_bare("8.43"@),
        is_bare("15"@),
        is_bare(Seq::<char>::empty()),
{
    reveal_strlit("11");
    reveal_strlit("8.43");
    reveal_strlit("15");
}

/// What a bare table reads can be written without escaping.
proof fn lemma_reading(readings: Seq<FloatReading<Seq<char>>>, text: Seq<char>)
    requires
        bare_table(readings),
    ensures
        reading_of(readings, text) matches Some(f) ==> is_bare(f.number.shown) && is_bare(f.pixels),
    decreases readings.len(),
{
    if readings.len() > 0 {
        assert(is_bare(readings[0].number.shown));
        let rest = readings.drop_first();
        assert forall|i: int| 0 <= i < rest.len() implies is_bare(
            (#[trigger] rest[i]).number.shown,
        ) && is_bare(rest[i].pixels) by {
            assert(rest[i] == readings[i + 1]);
        }
        lemma_reading(rest, text);
    }
}

/// Whether the sizes of all fonts of a style sheet that is being read can be written without
/// escaping.
spec fn bare_sizes(s: StyleState) -> bool {
    &&& is_bare(s.font.size.shown)
    &&& forall|i: int| 0 <= i < s.styles.fonts.len() ==> is_bare(
        (#[trigger] s.styles.fonts[i]).size.shown,
    )
}

/// The sizes stay so after a tag.
proof fn lemma_sizes_tag(s: StyleState, t: TagView, readings: Seq<FloatReading<Seq<char>>>)
    requires
        bare_table(readings),
        bare_sizes(s),
    ensures
        bare_sizes(style_tag(s, t, readings)),
{
    lemma_own_texts();
    if let Some(v) = t.attribute("val"@) {
        lemma_reading(readings, v);
    }
    assert(is_bare(font_step(s.font, t, readings).size.shown));
    assert(style_tag(s, t, readings).styles.fonts == s.styles.fonts);
}

/// The sizes stay so after an end tag.
proof fn lemma_sizes_end(s: StyleState, name: Seq<char>)
    requires
        bare_sizes(s),
    ensures
        bare_sizes(style_end(s, name)),
{
    lemma_own_texts();
    let after = style_end(s, name);
    assert forall|i: int| 0 <= i < after.styles.fonts.len() implies is_bare(
        (#[trigger] after.styles.fonts[i]).size.shown,
    ) by {
        if i < s.styles.fonts.len() {
            assert(after.styles.fonts[i] == s.styles.fonts[i]);
        }
    }
}

/// The sizes of the fonts of a style sheet come from the table.
proof fn lemma_sizes(events: Seq<EventView>, readings: Seq<FloatReading<Seq<char>>>)
    requires
        bare_table(readings),
    ensures
        bare_sizes(style_state(events, readings)),
    decreases events.len(),
{
    lemma_own_texts();
    if events.len() > 0 {
        lemma_sizes(events.drop_last(), readings);
        let s = style_state(events.drop_last(), readings);
        match events.last() {
            EventView::Start(t) => {
                lemma_sizes_tag(s, t, readings);
            },
            EventView::Empty(t) => {
                lemma_sizes_tag(s, t, readings);
                lemma_sizes_end(style_tag(s, t, readings), t.name);
            },
            EventView::End(n) => {
                lemma_sizes_end(s, n);
            },
            _ => {},
        }
    }
}

/// Whether the sizes of all fonts of a style sheet can be written without escaping.
spec fn bare_fonts(styles: StylesView) -> bool {
    forall|i: int| 0 <= i < styles.fonts.len() ==> is_bare(
        (#[trigger] styles.fonts[i]).size.shown,
    )
}

/// Whether a format can be written without escaping where it is.
spec fn bare_format(f: Option<CellFormat<Seq<char>>>) -> bool {
    f matches Some(f) ==> plain_cell_format(f) && clean_format(f)
}

/// Formats of a bare style sheet.
proof fn lemma_format(styles: StylesView, style: Option<usize>)
    requires
        bare_styles(styles),
        bare_fonts(styles),
    ensures
        bare_format(style_format(styles, style)),
{
    lemma_own_texts();
    if let Some(n) = style {
        if n < styles.cell_xfs.len() {
            let xf = styles.cell_xfs[n as int];
            let f = xf_format(styles, xf);
            assert(is_bare(styles.font(xf.font_id).size.shown));
            assert(bare_optional(styles.fill(xf.fill_id).bg_color));
            let b = styles.border(xf.border_id);
            assert(is_bare(b.left) && is_bare(b.right) && is_bare(b.top) && is_bare(b.bottom));
            assert(is_bare(f.font_size));
        }
    }
}

/// Whether what has been read of a worksheet can be written without escaping where it is.
spec fn bare_sheet(s: SheetView) -> bool {
    &&& forall|i: int| 0 <= i < s.col_widths.len() ==> is_bare((#[trigger] s.col_widths[i]).width)
    &&& forall|i: int|
        0 <= i < s.row_heights.len() ==> is_bare((#[trigger] s.row_heights[i]).height)
    &&& forall|i: int| 0 <= i < s.cells.len() ==> bare_format((#[trigger] s.cells[i]).format)
}

/// It stays so after a start tag.
proof fn lemma_sheet_tag(s: ReadState, t: TagView, readings: Seq<FloatReading<Seq<char>>>)
    requires
        bare_table(readings),
        bare_sheet(s.sheet),
    ensures
        bare_sheet(tag_step(s, t, readings).sheet),
{
    reveal(tag_step);
    lemma_own_texts();
    if let Some(v) = t.attribute("width"@) {
        lemma_reading(readings, v);
    }
    if let Some(v) = t.attribute("ht"@) {
        lemma_reading(readings, v);
    }
    let after = tag_step(s, t, readings).sheet;
    let range = col_range(t, readings);
    assert forall|i: int| 0 <= i < range.len() implies is_bare((#[trigger] range[i]).width) by {}
    assert(after.cells == s.sheet.cells);
    assert forall|i: int| 0 <= i < after.col_widths.len() implies is_bare(
        (#[trigger] after.col_widths[i]).width,
    ) by {
        if i < s.sheet.col_widths.len() {
            assert(after.col_widths[i] == s.sheet.col_widths[i]);
        } else {
            assert(after.col_widths[i] == range[i - s.sheet.col_widths.len()]);
        }
    }
    assert forall|i: int| 0 <= i < after.row_heights.len() implies is_bare(
        (#[trigger] after.row_heights[i]).height,
    ) by {
        if i < s.sheet.row_heights.len() {
            assert(after.row_heights[i] == s.sheet.row_heights[i]);
        }
    }
}

/// It stays so after an end tag.
proof fn lemma_sheet_end(
    s: ReadState,
    name: Seq<char>,
    shared: Seq<Seq<char>>,
    styles: StylesView,
)
    requires
        bare_styles(styles),
        bare_fonts(styles),
        bare_sheet(s.sheet),
    ensures
        bare_sheet(end_step(s, name, shared, styles).sheet),
{
    reveal(end_step);
    lemma_format(styles, s.style);
    let c = ended_cell(s, shared, styles);
    let after = end_step(s, name, shared, styles).sheet;
    assert(after.col_widths == s.sheet.col_widths && after.row_heights == s.sheet.row_heights);
    assert forall|i: int| 0 <= i < after.cells.len() implies bare_format(
        (#[trigger] after.cells[i]).format,
    ) by {
        if i < s.sheet.cells.len() {
            assert(after.cells[i] == s.sheet.cells[i]);
        } else {
            assert(after.cells[i] == c);
        }
    }
}

/// It is so while a worksheet is being read.
proof fn lemma_sheet(
    events: Seq<EventView>,
    name: Seq<char>,
    shared: Seq<Seq<char>>,
    styles: StylesView,
    readings: Seq<FloatReading<Seq<char>>>,
)
    requires
        bare_table(readings),
        bare_styles(styles),
        bare_fonts(styles),
    ensures
        bare_sheet(read_state(events, name, shared, styles, readings).sheet),
    decreases events.len(),
{
    if events.len() > 0 {
        lemma_sheet(events.drop_last(), name, shared, styles, readings);
        let s = read_state(events.drop_last(), name, shared, styles, readings);
        match events.last() {
            EventView::Start(t) => {
                lemma_sheet_tag(s, t, readings);
            },
            EventView::Empty(t) => {
                lemma_sheet_tag(s, t, readings);
                lemma_sheet_end(tag_step(s, t, readings), t.name, shared, styles);
            },
            EventView::End(n) => {
                lemma_sheet_end(s, n, shared, styles);
            },
            _ => {},
        }
    }
}

/// Whether the sizes of images can be written without escaping.
spec fn bare_images(images: Seq<Image<Seq<char>>>) -> bool {
    forall|i: int|
        0 <= i < images.len() ==> bare_optional((#[trigger] images[i]).width) && bare_optional(
            images[i].height,
        )
}

/// Whether the sizes in a drawing that is being read can be written without escaping.
spec fn bare_drawing(s: DrawingState) -> bool {
    bare_images(s.images) && bare_optional(s.width) && bare_optional(s.height)
}

/// It is so while a drawing is being read.
proof fn lemma_drawing(
    events: Seq<EventView>,
    rels: Seq<(Seq<char>, Seq<char>)>,
    parts: Seq<(Seq<char>, Seq<u8>)>,
    readings: Seq<FloatReading<Seq<char>>>,
)
    requires
        bare_table(readings),
    ensures
        bare_drawing(drawing_state(events, rels, parts, readings)),
        bare_images(images_of(events, rels, parts, readings)),
    decreases events.len(),
{
    if events.len() > 0 {
        lemma_drawing(events.drop_last(), rels, parts, readings);
        match events.last() {
            EventView::Start(t) => {
                lemma_sizes_of_tag(t, readings);
            },
            EventView::Empty(t) => {
                lemma_sizes_of_tag(t, readings);
            },
            _ => {},
        }
    }
}

/// The sizes that a tag of a drawing gives.
proof fn lemma_sizes_of_tag(t: TagView, readings: Seq<FloatReading<Seq<char>>>)
    requires
        bare_table(readings),
    ensures
        t.attribute("cx"@) matches Some(v) ==> bare_optional(pixels_of(readings, v)),
        t.attribute("cy"@) matches Some(v) ==> bare_optional(pixels_of(readings, v)),
{
    if let Some(v) = t.attribute("cx"@) {
        lemma_reading(readings, v);
    }
    if let Some(v) = t.attribute("cy"@) {
        lemma_reading(readings, v);
    }
}

/// The sizes of the images of all drawings.
proof fn lemma_drawings(
    n: nat,
    parts: Seq<(Seq<char>, Seq<u8>)>,
    readings: Seq<FloatReading<Seq<char>>>,
)
    requires
        n <= parts.len(),
        bare_table(readings),
    ensures
        bare_images(images_of_first(n, parts, readings)),
    decreases n,
{
    if n > 0 {
        lemma_drawings((n - 1) as nat, parts, readings);
        let (name, data) = parts[n - 1];
        let rels = rels_part(parts, drawing_rels_name(name));
        let events = xml_events(data, true);
        lemma_drawing(events, rels, parts, readings);
        let a = images_of_first((n - 1) as nat, parts, readings);
        let b = images_of(events, rels, parts, readings);
        let all = a + b;
        assert forall|i: int| 0 <= i < all.len() implies bare_optional((#[trigger] all[i]).width)
            && bare_optional(all[i].height) by {
            if i < a.len() {
                assert(all[i] == a[i]);
            } else {
                assert(all[i] == b[i - a.len()]);
            }
        }
    }
}

/// A worksheet that was read is in order.
proof fn lemma_worksheet(
    data: Seq<u8>,
    name: Seq<char>,
    shared: Seq<Seq<char>>,
    styles: StylesView,
    parts: Seq<(Seq<char>, Seq<u8>)>,
    readings: Seq<FloatReading<Seq<char>>>,
)
    requires
        bare_table(readings),
        bare_styles(styles),
        bare_fonts(styles),
        keeps_images(
            worksheet(data, name, shared, styles, parts, readings).images,
            parts,
            readings,
        ),
    ensures
        plain_sheet(worksheet(data, name, shared, styles, parts, readings)),
        clean_sheet(worksheet(data, name, shared, styles, parts, readings)),
{
    let events = xml_events(data, false);
    let w = worksheet(data, name, shared, styles, parts, readings);
    let s = read_state(events, name, shared, styles, readings).sheet;
    lemma_sheet(events, name, shared, styles, readings);
    lemma_drawings(parts.len(), parts, readings);
    assert(w.col_widths == s.col_widths && w.row_heights == s.row_heights);
    assert(w.cells == with_spans(s.cells, s.merges));
    assert forall|i: int| 0 <= i < w.cells.len() implies plain_cell(#[trigger] w.cells[i])
        && clean_cell(w.cells[i]) by {
        assert(w.cells[i] == with_span(s.cells[i], s.merges));
        assert(bare_format(s.cells[i].format));
    }
    assert forall|i: int| 0 <= i < w.images.len() implies plain_image(#[trigger] w.images[i])
        && clean_image(w.images[i]) by {
        assert(encodes(w.images[i].data_b64, drawing_media(parts, readings)[i]));
        assert(bare_optional(w.images[i].width) && bare_optional(w.images[i].height));
    }
}

/// Worksheets that were found are in order.
proof fn lemma_found(
    sheets: Seq<(Seq<char>, Seq<char>)>,
    parts: Seq<(Seq<char>, Seq<u8>)>,
    shared: Seq<Seq<char>>,
    styles: StylesView,
    readings: Seq<FloatReading<Seq<char>>>,
)
    requires
        bare_table(readings),
        bare_styles(styles),
        bare_fonts(styles),
        all_keep_images(found_sheets(sheets, parts, shared, styles, readings), parts, readings),
    ensures
        forall|i: int|
            0 <= i < found_sheets(sheets, parts, shared, styles, readings).len() ==> plain_sheet(
                #[trigger] found_sheets(sheets, parts, shared, styles, readings)[i],
            ) && clean_sheet(found_sheets(sheets, parts, shared, styles, readings)[i]),
    decreases sheets.len(),
{
    if sheets.len() > 0 {
        let all = found_sheets(sheets, parts, shared, styles, readings);
        let before = found_sheets(sheets.drop_last(), parts, shared, styles, readings);
        let (name, path) = sheets.last();
        assert forall|i: int| 0 <= i < before.len() implies keeps_images(
            (#[trigger] before[i]).images,
            parts,
            readings,
        ) by {
            assert(all[i] == before[i]);
        }
        lemma_found(sheets.drop_last(), parts, shared, styles, readings);
        if let Some(data) = part_named(parts, path) {
            assert(all[before.len() as int] == worksheet(
                data,
                name,
                shared,
                styles,
                parts,
                readings,
            ));
            lemma_worksheet(data, name, shared, styles, parts, readings);
        }
        assert forall|i: int| 0 <= i < all.len() implies plain_sheet(#[trigger] all[i])
            && clean_sheet(all[i]) by {
            if i < before.len() {
                assert(all[i] == before[i]);
            }
        }
    }
}

/// The handover document of a workbook holds neither quotation marks nor ampersands where it is
/// written without escaping, if the numbers of the table, the background colours and the
/// borders do not, and the images are those of the workbook, as the conversion ensures.
pub proof fn law_converted_document_is_clean(
    parts: Seq<(Seq<char>, Seq<u8>)>,
    filename: Seq<char>,
    converted: Seq<char>,
    hash: Seq<char>,
    readings: Seq<FloatReading<Seq<char>>>,
)
    requires
        bare_table(readings),
        bare_styles(workbook_styles(parts, readings)),
        all_keep_images(converted_sheets(parts, readings), parts, readings),
    ensures
        clean_document(document_of(parts, filename, converted, hash, readings)),
{
    let styles = workbook_styles(parts, readings);
    if let Some(data) = part_named(parts, "xl/styles.xml"@) {
        lemma_sizes(xml_events(data, true), readings);
    }
    assert(bare_fonts(styles));
    lemma_found(workbook_sheets(parts), parts, shared_strings(parts), styles, readings);
}

/// Images with their bytes at the places where they are inserted. One without bytes is left
/// out.
pub open spec fn placed_images(images: Seq<Image<Seq<char>>>, media: Seq<Seq<u8>>) -> Seq<
    ImageOp<Seq<u8>>,
>
    decreases images.len(),
{
    if images.len() == 0 {
        Seq::empty()
    } else {
        let before = placed_images(images.drop_last(), media.drop_last());
        let i = images.last();
        if media.last().len() > 0 {
            before.push(
                ImageOp {
                    row: less_one(i.row as nat),
                    col: less_one(i.col as nat),
                    data: media.last(),
                },
            )
        } else {
            before
        }
    }
}

/// Images whose data are some bytes in Base64 come back with those bytes.
pub proof fn law_images_come_back(images: Seq<Image<Seq<char>>>, media: Seq<Seq<u8>>)
    requires
        all_encode(images, media),
    ensures
        images_back(images) == placed_images(images, media),
    decreases images.len(),
{
    if images.len() > 0 {
        let rest = images.drop_last();
        let others = media.drop_last();
        assert forall|i: int| 0 <= i < rest.len() implies encodes(
            (#[trigger] rest[i]).data_b64,
            others[i],
        ) by {
            assert(rest[i] == images[i]);
        }
        law_images_come_back(rest, others);
        assert(encodes(images[images.len() - 1].data_b64, media[images.len() - 1]));
    }
}

/// An image of a workbook comes back from its handover document as it was: a worksheet that
/// keeps its images is restored with the bytes of the parts that hold them, in their order and
/// at their places.
pub proof fn law_workbook_images_come_back(
    sheet: SheetView,
    parts: Seq<(Seq<char>, Seq<u8>)>,
    readings: Seq<FloatReading<Seq<char>>>,
    table: Seq<FloatReading<Seq<char>>>,
)
    requires
        keeps_images(sheet.images, parts, readings),
        sheet.images.len() > 0,
    ensures
        sheet_back(sheet, table).image_ops == placed_images(
            drawing_images(parts, readings),
            drawing_media(parts, readings),
        ),
{
    law_images_come_back(sheet.images, drawing_media(parts, readings));
}

/// A workbook comes back from its handover document: what is read of the document is restored
/// as the worksheets of the workbook, under their names, each with the bytes of its images.
/// This needs what [`law_converted_document_is_clean`] needs, and that the table with which the
/// document is read knows its numbers.
pub proof fn law_workbook_comes_back(
    parts: Seq<(Seq<char>, Seq<u8>)>,
    filename: Seq<char>,
    converted: Seq<char>,
    hash: Seq<char>,
    readings: Seq<FloatReading<Seq<char>>>,
    events: Seq<EventView>,
    table: Seq<FloatReading<Seq<char>>>,
)
    requires
        bare_table(readings),
        bare_styles(workbook_styles(parts, readings)),
        all_keep_images(converted_sheets(parts, readings), parts, readings),
        read_as(
            events,
            workbook_lines(document_of(parts, filename, converted, hash, readings)),
        ),
        reads_sheets(table, converted_sheets(parts, readings)),
    ensures
        ({
            let sheets = converted_sheets(parts, readings);
            let back = restored(events, table);
            &&& sheets_hold_all(events, table)
            &&& back == sheets_back(sheets, table)
            &&& forall|i: int|
                0 <= i < sheets.len() ==> {
                    &&& (#[trigger] back[i]).name == sheets[i].name
                    &&& sheets[i].images.len() > 0 ==> back[i].image_ops == placed_images(
                        drawing_images(parts, readings),
                        drawing_media(parts, readings),
                    )
                }
        }),
{
    let d = document_of(parts, filename, converted, hash, readings);
    law_converted_document_is_clean(parts, filename, converted, hash, readings);
    law_export_restores(d, events, table);
    let sheets = converted_sheets(parts, readings);
    let back = restored(events, table);
    assert forall|i: int| 0 <= i < sheets.len() implies ({
        &&& (#[trigger] back[i]).name == sheets[i].name
        &&& sheets[i].images.len() > 0 ==> back[i].image_ops == placed_images(
            drawing_images(parts, readings),
            drawing_media(parts, readings),
        )
    }) by {
        assert(back[i] == sheet_back(sheets[i], table));
        if sheets[i].images.len() > 0 {
            law_workbook_images_come_back(sheets[i], parts, readings, table);
        }
    }
}

/// The values of single cells keep their types from a worksheet to what is restored: truth
/// values say what they said, texts stay texts, and what the table reads as a number becomes
/// that number.
pub proof fn law_cell_types_come_back(
    cell_type: Seq<char>,
    text: Seq<char>,
    shared: Seq<Seq<char>>,
    readings: Seq<FloatReading<Seq<char>>>,
)
    ensures
        ({
            let value = cell_value(cell_type, text, shared);
            let content = content_of(value, plain_type(cell_type), readings);
            &&& cell_type == "b"@ ==> content == Content::<Seq<char>>::Truth(
                trimmed(text) == "1"@,
            )
            &&& plain_type(cell_type) == "s"@ && value.len() > 0 ==> content == Content::<
                Seq<char>,
            >::Text(value)
            &&& plain_type(cell_type) == "n"@ && value.len() > 0 ==> (reading_of(
                readings,
                value,
            ) matches Some(f) ==> content == Content::<Seq<char>>::Number(f.number.shown))
        }),
{
    let value = cell_value(cell_type, text, shared);
    law_data_types_come_back(value, trimmed(text) == "1"@, readings);
    reveal_strlit("s");
    reveal_strlit("b");
    reveal_strlit("n");
    reveal_strlit("e");
    reveal_strlit("str");
    reveal_strlit("inlineStr");
    assert("b"@[0] == 'b' && "s"@[0] == 's' && "e"@[0] == 'e' && "n"@[0] == 'n');
    assert("str"@.len() == 3 && "inlineStr"@.len() == 9 && "b"@.len() == 1);
}

} // verus!
