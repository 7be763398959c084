//! What the tags of a handover document say of its sheets.

use vstd::prelude::*;

use crate::archive::base64_bytes;
use crate::export::{
    export_end, export_run, export_start, export_step, export_tag, restored, unread_images, CellFmt,
    ExportState, MergeOp, OpsView, Pending, Sec,
};
use crate::floats::{reading_of, FloatReading};
use crate::restore::{images_back, sheet_back, sheets_back, single_cells};
use crate::sheet::{Cell, CellFormat, Image, SheetView};
use crate::text::{decimal, law_decimal_reads_back};
use crate::xml::{EventView, TagView};

verus! {

/// What tells short names apart: length, first and last character.
spec fn key(s: Seq<char>) -> (nat, char, char) {
    (s.len(), s[0], s.last())
}

/// The names of a handover document differ.
proof fn lemma_keys()
    ensures
        key("sheet"@) == (5nat, 's', 't'),
        key("colWidths"@) == (9nat, 'c', 's'),
        key("rowHeights"@) == (10nat, 'r', 's'),
        key("merges"@) == (6nat, 'm', 's'),
        key("rows"@) == (4nat, 'r', 's'),
        key("images"@) == (6nat, 'i', 's'),
        key("col"@) == (3nat, 'c', 'l'),
        key("row"@) == (3nat, 'r', 'w'),
        key("merge"@) == (5nat, 'm', 'e'),
        key("cell"@) == (4nat, 'c', 'l'),
        key("format"@) == (6nat, 'f', 't'),
        key("image"@) == (5nat, 'i', 'e'),
{
    reveal_strlit("sheet");
    reveal_strlit("colWidths");
    reveal_strlit("rowHeights");
    reveal_strlit("merges");
    reveal_strlit("rows");
    reveal_strlit("images");
    reveal_strlit("col");
    reveal_strlit("row");
    reveal_strlit("merge");
    reveal_strlit("cell");
    reveal_strlit("format");
    reveal_strlit("image");
}

/// Whether an attribute of a tag writes a number.
pub open spec fn says(t: TagView, name: Seq<char>, n: u32) -> bool {
    t.attribute(name) == Some(decimal(n as nat))
}

/// Numbers of tags.
proof fn lemma_says(t: TagView, name: Seq<char>, default: nat)
    ensures
        forall|n: u32| #[trigger] says(t, name, n) ==> t.number_or(name, default) == n,
        t.attribute(name) is None ==> t.number_or(name, default) == default,
{
    assert forall|n: u32| #[trigger] says(t, name, n) implies t.number_or(name, default)
        == n by {
        law_decimal_reads_back(n as nat, u32::MAX as nat);
    }
}

/// Whether a state stands inside a section of a sheet.
pub open spec fn stands_in(s: ExportState, sec: Sec, ops: OpsView) -> bool {
    !s.lost && s.sec == sec && s.cur == Some(ops)
}

/// Whether a tag is read, as a start tag or as an empty one.
pub open spec fn tag_event(e: EventView, t: TagView) -> bool {
    e == EventView::Start(t) || e == EventView::Empty(t)
}

/// A column of a document is given its width, and hidden where it says so. It is counted from 1
/// in the document and from 0 in the workbook; without a number it is the first.
pub proof fn law_columns_of_documents(
    s: ExportState,
    ops: OpsView,
    e: EventView,
    t: TagView,
    readings: Seq<FloatReading<Seq<char>>>,
)
    requires
        stands_in(s, Sec::ColWidths, ops),
        tag_event(e, t),
        t.name == "col"@,
    ensures
        ({
            let after = export_step(s, e, readings);
            let cols = after.cur->0.col_ops;
            let op = cols.last();
            &&& after == (ExportState { cur: Some(OpsView { col_ops: cols, ..ops }), ..s })
            &&& cols == ops.col_ops.push(op)
            &&& forall|n: u32| #[trigger] says(t, "index"@, n) && n > 0 ==> op.index == n - 1
            &&& says(t, "index"@, 0) || t.attribute("index"@) is None ==> op.index == 0
            &&& op.hidden <==> t.attribute("hidden"@) == Some("true"@)
            &&& t.attribute("width"@) is None ==> op.width == "8.43"@
            &&& t.attribute("width"@) matches Some(w) ==> match reading_of(readings, w) {
                Some(r) => op.width == r.number.shown,
                None => op.width == "8.43"@,
            }
        }),
{
    lemma_keys();
    lemma_says(t, "index"@, 1);
    reveal(export_step);
    reveal(export_tag);
}

/// A row of a document is given its height, and hidden where it says so. It is counted from 1 in
/// the document and from 0 in the workbook; without a number it is the first.
pub proof fn law_rows_of_documents(
    s: ExportState,
    ops: OpsView,
    e: EventView,
    t: TagView,
    readings: Seq<FloatReading<Seq<char>>>,
)
    requires
        stands_in(s, Sec::RowHeights, ops),
        tag_event(e, t),
        t.name == "row"@,
    ensures
        ({
            let after = export_step(s, e, readings);
            let rows = after.cur->0.row_ops;
            let op = rows.last();
            &&& after == (ExportState { cur: Some(OpsView { row_ops: rows, ..ops }), ..s })
            &&& rows == ops.row_ops.push(op)
            &&& forall|n: u32| #[trigger] says(t, "index"@, n) && n > 0 ==> op.index == n - 1
            &&& says(t, "index"@, 0) || t.attribute("index"@) is None ==> op.index == 0
            &&& op.hidden <==> t.attribute("hidden"@) == Some("true"@)
            &&& t.attribute("height"@) is None ==> op.height == "15"@
            &&& t.attribute("height"@) matches Some(h) ==> match reading_of(readings, h) {
                Some(r) => op.height == r.number.shown,
                None => op.height == "15"@,
            }
        }),
{
    lemma_keys();
    lemma_says(t, "index"@, 1);
    reveal(export_step);
    reveal(export_tag);
}

/// A merged range of a document has the corners that its tag gives, and neither a value nor a
/// format before its first cell. Without a last corner it is one cell.
pub proof fn law_merges_of_documents(
    s: ExportState,
    ops: OpsView,
    e: EventView,
    t: TagView,
    readings: Seq<FloatReading<Seq<char>>>,
)
    requires
        stands_in(s, Sec::Merges, ops),
        tag_event(e, t),
        t.name == "merge"@,
    ensures
        ({
            let after = export_step(s, e, readings);
            let merges = after.cur->0.merges;
            let op = merges.last();
            &&& after == (ExportState { cur: Some(OpsView { merges, ..ops }), ..s })
            &&& merges == ops.merges.push(op)
            &&& forall|n: u32| #[trigger] says(t, "startRow"@, n) ==> op.r1 == n
            &&& forall|n: u32| #[trigger] says(t, "startCol"@, n) ==> op.c1 == n
            &&& forall|n: u32| #[trigger] says(t, "endRow"@, n) ==> op.r2 == n
            &&& forall|n: u32| #[trigger] says(t, "endCol"@, n) ==> op.c2 == n
            &&& t.attribute("startRow"@) is None ==> op.r1 == 1
            &&& t.attribute("startCol"@) is None ==> op.c1 == 1
            &&& t.attribute("endRow"@) is None ==> op.r2 == op.r1
            &&& t.attribute("endCol"@) is None ==> op.c2 == op.c1
            &&& op.value.len() == 0
            &&& op.fmt is None
        }),
{
    lemma_keys();
    lemma_says(t, "startRow"@, 1);
    lemma_says(t, "startCol"@, 1);
    lemma_says(t, "endRow"@, t.number_or("startRow"@, 1));
    lemma_says(t, "endCol"@, t.number_or("startCol"@, 1));
    reveal(export_step);
    reveal(export_tag);
    assert(t.number_or("startRow"@, 1) <= u32::MAX);
    assert(t.number_or("startCol"@, 1) <= u32::MAX);
}

/// An image of a document is inserted where its tag says, counted from 0, with the bytes that
/// its data stand for; one without data, or with data that cannot be decoded, is left out.
pub proof fn law_images_of_documents(
    s: ExportState,
    ops: OpsView,
    e: EventView,
    t: TagView,
    readings: Seq<FloatReading<Seq<char>>>,
)
    requires
        stands_in(s, Sec::Images, ops),
        tag_event(e, t),
        t.name == "image"@,
    ensures
        ({
            let after = export_step(s, e, readings);
            let images = after.cur->0.image_ops;
            let op = images.last();
            &&& after == (ExportState { cur: Some(OpsView { image_ops: images, ..ops }), ..s })
            &&& t.attribute("data"@) is None ==> images == ops.image_ops
            &&& t.attribute("data"@) matches Some(d) ==> if d.len() > 0 && base64_bytes(
                d,
            ) is Some {
                &&& images == ops.image_ops.push(op)
                &&& op.data == base64_bytes(d)->0
                &&& forall|n: u32| #[trigger] says(t, "row"@, n) && n > 0 ==> op.row == n - 1
                &&& forall|n: u32| #[trigger] says(t, "col"@, n) && n > 0 ==> op.col == n - 1
                &&& t.attribute("row"@) is None ==> op.row == 0
                &&& t.attribute("col"@) is None ==> op.col == 0
            } else {
                images == ops.image_ops
            }
        }),
{
    lemma_keys();
    lemma_says(t, "row"@, 1);
    lemma_says(t, "col"@, 1);
    reveal(export_step);
    reveal(export_tag);
    assert(t.attribute("data"@) is None ==> t.text_or("data"@, Seq::empty()).len() == 0);
}

/// Whether a cell is what its tag says: where it stands, its value, its type and its spans.
pub open spec fn cell_says(p: Pending<Seq<char>>, t: TagView) -> bool {
    &&& forall|n: u32| #[trigger] says(t, "row"@, n) ==> p.row == n
    &&& forall|n: u32| #[trigger] says(t, "col"@, n) ==> p.col == n
    &&& forall|n: u32| #[trigger] says(t, "rowspan"@, n) ==> p.rowspan == n
    &&& forall|n: u32| #[trigger] says(t, "colspan"@, n) ==> p.colspan == n
    &&& t.attribute("row"@) is None ==> p.row == 1
    &&& t.attribute("col"@) is None ==> p.col == 1
    &&& t.attribute("rowspan"@) is None ==> p.rowspan == 1
    &&& t.attribute("colspan"@) is None ==> p.colspan == 1
    &&& t.attribute("value"@) is None ==> p.value.len() == 0
    &&& t.attribute("value"@) matches Some(v) ==> p.value == v
    &&& t.attribute("type"@) is None ==> p.cell_type == "s"@
    &&& t.attribute("type"@) matches Some(v) ==> p.cell_type == v
}

/// A cell of a document begins with its tag: it stands where that says, with its value, its type
/// and its spans, and has no format yet.
pub proof fn law_cells_of_documents_begin(
    s: ExportState,
    t: TagView,
    readings: Seq<FloatReading<Seq<char>>>,
)
    requires
        !s.lost,
        s.sec == Sec::RowsRow,
        t.name == "cell"@,
    ensures
        ({
            let after = export_step(s, EventView::Start(t), readings);
            &&& after == (ExportState { pending: after.pending, ..s })
            &&& after.pending is Some
            &&& cell_says(after.pending->0, t)
            &&& after.pending->0.fmt is None
            &&& export_step(s, EventView::Empty(t), readings) == export_step(
                after,
                EventView::End("cell"@),
                readings,
            )
        }),
{
    lemma_keys();
    lemma_says(t, "row"@, 1);
    lemma_says(t, "col"@, 1);
    lemma_says(t, "rowspan"@, 1);
    lemma_says(t, "colspan"@, 1);
    reveal(export_step);
    reveal(export_tag);
    reveal(export_end);
}

/// A cell of a document is complete at its end. One that spans no others is written where it
/// stands; one that does gives its value and its format to the range that begins at it, and is
/// not written.
pub proof fn law_cells_of_documents_end(
    s: ExportState,
    ops: OpsView,
    p: Pending<Seq<char>>,
    readings: Seq<FloatReading<Seq<char>>>,
)
    requires
        !s.lost,
        s.cur == Some(ops),
        s.pending == Some(p),
    ensures
        ({
            let after = export_step(s, EventView::End("cell"@), readings);
            let now = after.cur->0;
            &&& after == (ExportState { cur: Some(now), pending: None, ..s })
            &&& p.rowspan <= 1 && p.colspan <= 1 ==> {
                let c = now.cells.last();
                &&& now == (OpsView { cells: now.cells, ..ops })
                &&& now.cells == ops.cells.push(c)
                &&& c.row == p.row && c.col == p.col
                &&& c.value == p.value && c.cell_type == p.cell_type && c.fmt == p.fmt
            }
            &&& p.rowspan > 1 || p.colspan > 1 ==> {
                &&& now == (OpsView { merges: now.merges, ..ops })
                &&& now.merges.len() == ops.merges.len()
                &&& forall|k: int|
                    0 <= k < ops.merges.len() && (#[trigger] ops.merges[k]).r1 == p.row
                        && ops.merges[k].c1 == p.col && (forall|j: int|
                        0 <= j < k ==> !((#[trigger] ops.merges[j]).r1 == p.row
                            && ops.merges[j].c1 == p.col)) ==> now.merges[k] == (MergeOp {
                        value: p.value,
                        fmt: p.fmt,
                        ..ops.merges[k]
                    })
            }
        }),
{
    lemma_keys();
    reveal(export_step);
    reveal(export_end);
    if p.rowspan > 1 || p.colspan > 1 {
        let now = export_step(s, EventView::End("cell"@), readings).cur->0;
        if ops.merges.len() > 0 {
            crate::planlaws::law_ranges_take_the_cell_at_their_corner(ops.merges, p, 0);
        }
        assert forall|k: int|
            0 <= k < ops.merges.len() && (#[trigger] ops.merges[k]).r1 == p.row && ops.merges[k].c1
                == p.col && (forall|j: int|
                0 <= j < k ==> !((#[trigger] ops.merges[j]).r1 == p.row && ops.merges[j].c1
                    == p.col)) implies now.merges[k] == (MergeOp {
            value: p.value,
            fmt: p.fmt,
            ..ops.merges[k]
        }) by {
            crate::planlaws::law_ranges_take_the_cell_at_their_corner(ops.merges, p, k);
        }
    }
}

/// Whether a format is what its tag says.
pub open spec fn format_says(
    f: CellFmt<Seq<char>>,
    t: TagView,
    readings: Seq<FloatReading<Seq<char>>>,
) -> bool {
    &&& f.bold <==> t.attribute("bold"@) == Some("true"@)
    &&& f.italic <==> t.attribute("italic"@) == Some("true"@)
    &&& f.underline <==> t.attribute("underline"@) == Some("true"@)
    &&& f.wrap_text <==> t.attribute("wrapText"@) == Some("true"@)
    &&& t.attribute("fontSize"@) is None ==> f.font_size.shown == "11"@ && f.font_size.positive
    &&& t.attribute("fontSize"@) matches Some(x) ==> match reading_of(readings, x) {
        Some(r) => f.font_size == r.number,
        None => f.font_size.shown == "11"@ && f.font_size.positive,
    }
    &&& gives(t, "fontName"@, f.font_name, "Calibri"@)
    &&& gives(t, "fontColor"@, f.font_color, "FF000000"@)
    &&& t.attribute("bgColor"@) is None ==> f.bg_color is None
    &&& t.attribute("bgColor"@) matches Some(c) ==> if c.len() > 0 {
        f.bg_color == Some(c)
    } else {
        f.bg_color is None
    }
    &&& gives(t, "halign"@, f.halign, Seq::empty())
    &&& gives(t, "valign"@, f.valign, Seq::empty())
    &&& forall|n: u32| #[trigger] says(t, "indent"@, n) ==> f.indent == n
    &&& t.attribute("indent"@) is None ==> f.indent == 0
    &&& gives(t, "borderTop"@, f.border_top, "none"@)
    &&& gives(t, "borderBottom"@, f.border_bottom, "none"@)
    &&& gives(t, "borderLeft"@, f.border_left, "none"@)
    &&& gives(t, "borderRight"@, f.border_right, "none"@)
    &&& gives(t, "numFmt"@, f.num_fmt, "General"@)
}

/// Whether a text is the value of an attribute, or a default where there is none.
pub open spec fn gives(t: TagView, name: Seq<char>, text: Seq<char>, default: Seq<char>) -> bool {
    match t.attribute(name) {
        Some(v) => text == v,
        None => text == default,
    }
}

/// The format inside a cell is that of the cell, field by field what its tag says. Nothing else
/// of the cell changes, and outside of cells a format says nothing.
pub proof fn law_formats_of_documents(
    s: ExportState,
    e: EventView,
    t: TagView,
    readings: Seq<FloatReading<Seq<char>>>,
)
    requires
        !s.lost,
        tag_event(e, t),
        t.name == "format"@,
    ensures
        ({
            let after = export_step(s, e, readings);
            &&& s.pending is None ==> after == s
            &&& s.pending matches Some(p) ==> {
                let now = after.pending->0;
                &&& after == (ExportState { pending: Some(now), ..s })
                &&& now == (Pending { fmt: now.fmt, ..p })
                &&& now.fmt is Some
                &&& format_says(now.fmt->0, t, readings)
            }
        }),
{
    lemma_keys();
    lemma_says(t, "indent"@, 0);
    reveal(export_step);
    reveal(export_tag);
}

/// A sheet of a document begins with its tag, with its name and nothing else, unless the tag has
/// a reference; it is added behind the sheets before it at its end.
pub proof fn law_sheets_of_documents(
    s: ExportState,
    e: EventView,
    t: TagView,
    readings: Seq<FloatReading<Seq<char>>>,
)
    requires
        !s.lost,
        tag_event(e, t),
        t.name == "sheet"@,
    ensures
        s.cur is None && t.attribute("ref"@) is None ==> ({
            let after = export_step(s, e, readings);
            let ops = after.cur->0;
            &&& after == (ExportState { cur: Some(ops), sec: Sec::Outside, ..s })
            &&& gives(t, "name"@, ops.name, "Sheet"@)
            &&& ops.col_ops.len() == 0 && ops.row_ops.len() == 0 && ops.merges.len() == 0
            &&& ops.cells.len() == 0 && ops.image_ops.len() == 0
        }),
        s.cur is Some || t.attribute("ref"@) is Some ==> export_step(s, e, readings) == s,
        s.cur matches Some(ops) ==> export_step(s, EventView::End("sheet"@), readings) == (
        ExportState { sheets: s.sheets.push(ops), cur: None, sec: Sec::Outside, ..s }),
        s.cur is None ==> export_step(s, EventView::End("sheet"@), readings) == (ExportState {
            sec: Sec::Outside,
            ..s
        }),
{
    lemma_keys();
    reveal(export_step);
    reveal(export_tag);
    reveal(export_end);
}

/// The sections of a sheet begin and end with their elements; the cells stand in the `row`
/// elements of the section `rows`.
pub proof fn law_sections_of_documents(
    s: ExportState,
    t: TagView,
    readings: Seq<FloatReading<Seq<char>>>,
)
    requires
        !s.lost,
    ensures
        ({
            let after = export_step(s, EventView::Start(t), readings);
            let end = export_step(s, EventView::End(t.name), readings);
            &&& t.name == "colWidths"@ ==> after == (ExportState { sec: Sec::ColWidths, ..s })
            &&& t.name == "rowHeights"@ ==> after == (ExportState { sec: Sec::RowHeights, ..s })
            &&& t.name == "merges"@ ==> after == (ExportState { sec: Sec::Merges, ..s })
            &&& t.name == "rows"@ ==> after == (ExportState { sec: Sec::Rows, ..s })
            &&& t.name == "images"@ ==> after == (ExportState { sec: Sec::Images, ..s })
            &&& t.name == "row"@ && s.sec == Sec::Rows ==> after == (ExportState {
                sec: Sec::RowsRow,
                ..s
            })
            &&& t.name == "row"@ && s.sec == Sec::RowsRow ==> end == (ExportState {
                sec: Sec::Rows,
                ..s
            })
            &&& t.name == "row"@ && s.sec != Sec::RowsRow ==> end == s
            &&& t.name == "colWidths"@ || t.name == "rowHeights"@ || t.name == "merges"@ || t.name
                == "rows"@ || t.name == "images"@ ==> end == (ExportState {
                sec: Sec::Outside,
                ..s
            })
        }),
{
    lemma_keys();
    reveal(export_step);
    reveal(export_tag);
    reveal(export_end);
}

/// Whether a name says something in a handover document.
pub open spec fn says_something_in_documents(name: Seq<char>) -> bool {
    ||| name == "sheet"@
    ||| name == "colWidths"@
    ||| name == "rowHeights"@
    ||| name == "merges"@
    ||| name == "rows"@
    ||| name == "images"@
    ||| name == "col"@
    ||| name == "row"@
    ||| name == "merge"@
    ||| name == "cell"@
    ||| name == "format"@
    ||| name == "image"@
}

/// Elements of other names and texts say nothing, and nothing more is learned from a document
/// that cannot be restored.
pub proof fn law_what_says_nothing_in_documents(
    s: ExportState,
    e: EventView,
    t: TagView,
    readings: Seq<FloatReading<Seq<char>>>,
)
    requires
        tag_event(e, t),
    ensures
        s.lost ==> export_step(s, e, readings) == s && export_step(
            s,
            EventView::End(t.name),
            readings,
        ) == s,
        !says_something_in_documents(t.name) ==> export_step(s, e, readings) == s && export_step(
            s,
            EventView::End(t.name),
            readings,
        ) == s,
        forall|text: Option<Seq<char>>| #[trigger]
            export_step(s, EventView::Text(text), readings) == s,
        export_step(s, EventView::Other, readings) == s,
{
    reveal(export_step);
    reveal(export_tag);
    reveal(export_end);
}

/// Elements outside of their section say nothing.
pub proof fn law_elements_outside_of_their_section(
    s: ExportState,
    e: EventView,
    t: TagView,
    readings: Seq<FloatReading<Seq<char>>>,
)
    requires
        !s.lost,
        tag_event(e, t),
        t.name == "col"@ && s.sec != Sec::ColWidths || t.name == "row"@ && s.sec != Sec::RowHeights
            && s.sec != Sec::Rows || t.name == "merge"@ && s.sec != Sec::Merges || t.name
            == "cell"@ && s.sec != Sec::RowsRow || t.name == "image"@ && s.sec != Sec::Images,
    ensures
        export_step(s, e, readings) == s,
{
    lemma_keys();
    reveal(export_step);
    reveal(export_tag);
}

/// Columns, rows and merged ranges that stand in their section but in no sheet make a document
/// one that cannot be restored.
pub proof fn law_documents_that_cannot_be_restored(
    s: ExportState,
    e: EventView,
    t: TagView,
    readings: Seq<FloatReading<Seq<char>>>,
)
    requires
        !s.lost,
        s.cur is None,
        tag_event(e, t),
        t.name == "col"@ && s.sec == Sec::ColWidths || t.name == "row"@ && s.sec == Sec::RowHeights
            || t.name == "merge"@ && s.sec == Sec::Merges,
    ensures
        export_step(s, e, readings) == (ExportState { lost: true, ..s }),
{
    lemma_keys();
    reveal(export_step);
    reveal(export_tag);
}

/// The images that are left out are those inside `images` whose data are there and cannot be
/// decoded, each with the row and the column that its tag gives, in the order of the document.
pub proof fn law_images_that_are_left_out(
    events: Seq<EventView>,
    e: EventView,
    t: TagView,
    row: u32,
    col: u32,
    readings: Seq<FloatReading<Seq<char>>>,
)
    requires
        tag_event(e, t),
        says(t, "row"@, row),
        says(t, "col"@, col),
    ensures
        ({
            let s = export_run(export_start(), events, readings);
            let before = unread_images(events, readings);
            let after = unread_images(events.push(e), readings);
            let bad = t.attribute("data"@) matches Some(d) && d.len() > 0 && base64_bytes(
                d,
            ) is None;
            &&& unread_images(Seq::empty(), readings).len() == 0
            &&& !s.lost && s.sec == Sec::Images && t.name == "image"@ && bad ==> after
                == before.push((row, col))
            &&& s.lost || s.sec != Sec::Images || t.name != "image"@ || !bad ==> after == before
        }),
{
    lemma_says(t, "row"@, 1);
    lemma_says(t, "col"@, 1);
    assert(events.push(e).drop_last() =~= events);
}

/// The sheets of a document are those that are complete when it has been read, from its first
/// event to its last.
pub proof fn law_documents_are_read_in_order(
    events: Seq<EventView>,
    e: EventView,
    readings: Seq<FloatReading<Seq<char>>>,
)
    ensures
        ({
            let none = export_run(export_start(), Seq::empty(), readings);
            let before = export_run(export_start(), events, readings);
            let after = export_run(export_start(), events.push(e), readings);
            &&& none.sheets.len() == 0 && none.cur is None && none.pending is None && !none.lost
            &&& none.sec == Sec::Outside
            &&& after == export_step(before, e, readings)
            &&& restored(events, readings) == before.sheets
        }),
{
    assert(events.push(e).drop_last() =~= events);
}

/// A worksheet is restored with its name, its columns, its rows and its merged ranges, each with
/// what the document says of it, one by one.
pub proof fn law_sheets_come_back_as_they_were(
    sheets: Seq<SheetView>,
    i: int,
    readings: Seq<FloatReading<Seq<char>>>,
)
    requires
        0 <= i < sheets.len(),
    ensures
        ({
            let s = sheets[i];
            let back = sheets_back(sheets, readings)[i];
            &&& sheets_back(sheets, readings).len() == sheets.len()
            &&& back == sheet_back(s, readings)
            &&& back.name == s.name
            &&& back.col_ops.len() == s.col_widths.len()
            &&& forall|k: int|
                0 <= k < s.col_widths.len() ==> {
                    let c = #[trigger] back.col_ops[k];
                    &&& c.width == s.col_widths[k].width
                    &&& c.hidden == s.col_widths[k].hidden
                    &&& c.index == if s.col_widths[k].index == 0 {
                        0
                    } else {
                        s.col_widths[k].index - 1
                    }
                }
            &&& back.row_ops.len() == s.row_heights.len()
            &&& forall|k: int|
                0 <= k < s.row_heights.len() ==> {
                    let r = #[trigger] back.row_ops[k];
                    &&& r.height == s.row_heights[k].height
                    &&& r.hidden == s.row_heights[k].hidden
                    &&& r.index == if s.row_heights[k].index == 0 {
                        0
                    } else {
                        s.row_heights[k].index - 1
                    }
                }
        }),
{
}

/// A cell that spans no others is restored where it stood, with its value, its type and its
/// format, behind the cells before it; one that does is not among them.
pub proof fn law_single_cells_come_back(
    cells: Seq<Cell<Seq<char>>>,
    c: Cell<Seq<char>>,
    readings: Seq<FloatReading<Seq<char>>>,
)
    ensures
        ({
            let before = single_cells(cells, readings);
            let after = single_cells(cells.push(c), readings);
            let op = after.last();
            &&& single_cells(Seq::empty(), readings).len() == 0
            &&& c.rowspan > 1 || c.colspan > 1 ==> after == before
            &&& c.rowspan <= 1 && c.colspan <= 1 ==> {
                &&& after == before.push(op)
                &&& op.row == c.row && op.col == c.col
                &&& op.value == c.value && op.cell_type == c.cell_type
                &&& c.format is None ==> op.fmt is None
                &&& c.format matches Some(f) ==> op.fmt is Some && format_stays(
                    op.fmt->0,
                    f,
                    readings,
                )
            }
        }),
{
    assert(cells.push(c).drop_last() =~= cells);
}

/// Whether a format is what the document says of it.
pub open spec fn format_stays(
    b: CellFmt<Seq<char>>,
    f: CellFormat<Seq<char>>,
    readings: Seq<FloatReading<Seq<char>>>,
) -> bool {
    &&& b.bold == f.bold
    &&& b.italic == f.italic
    &&& b.underline == f.underline
    &&& b.font_size == reading_of(readings, f.font_size)->0.number
    &&& b.font_name == f.font_name
    &&& b.font_color == f.font_color
    &&& f.bg_color is None ==> b.bg_color is None
    &&& f.bg_color matches Some(c) ==> c.len() > 0 ==> b.bg_color == Some(c)
    &&& b.halign == f.halign
    &&& b.valign == f.valign
    &&& b.wrap_text == f.wrap_text
    &&& b.indent == f.indent
    &&& line_stays(b.border_top, f.border_top)
    &&& line_stays(b.border_bottom, f.border_bottom)
    &&& line_stays(b.border_left, f.border_left)
    &&& line_stays(b.border_right, f.border_right)
    &&& b.num_fmt == f.num_fmt
}

/// Whether a line of a border is what the document says: `none` for no line.
pub open spec fn line_stays(b: Seq<char>, f: Seq<char>) -> bool {
    if f.len() == 0 {
        b == "none"@
    } else {
        b == f
    }
}

/// An image is restored where it stood, counted from 0, with its bytes, behind the images before
/// it; one whose data are not Base64 is left out.
pub proof fn law_images_are_restored_in_order(images: Seq<Image<Seq<char>>>, i: Image<Seq<char>>)
    requires
        i.row >= 1,
        i.col >= 1,
    ensures
        ({
            let before = images_back(images);
            let after = images_back(images.push(i));
            let op = after.last();
            &&& images_back(Seq::empty()).len() == 0
            &&& i.data_b64.len() > 0 && base64_bytes(i.data_b64) is Some ==> {
                &&& after == before.push(op)
                &&& op.row == i.row - 1
                &&& op.col == i.col - 1
                &&& op.data == base64_bytes(i.data_b64)->0
            }
            &&& i.data_b64.len() == 0 || base64_bytes(i.data_b64) is None ==> after == before
        }),
{
    assert(images.push(i).drop_last() =~= images);
}

} // verus!
