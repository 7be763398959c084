//! What an export restores of a handover document: its worksheets.

use vstd::prelude::*;

use crate::archive::base64_bytes;
use crate::document::{
    cell_fields, cell_lines, col_fields, col_lines, dimension_fields, format_fields, height_fields,
    height_lines, image_fields, image_lines, merge_fields, merge_lines, no_fields, open_rows,
    ordered, row_fields, row_lines, sheet_fields, sheet_lines, sheets_lines, side, workbook_fields,
    workbook_lines, wrapped, DocumentView,
};
use crate::export::{
    cell_done, cell_fmt, col_op, empty_ops, export_end, export_run, export_start, export_step,
    export_tag, filled_merges, image_op, less_one, merge_op, pending_cell, restored, row_op,
    sec_named, sheets_hold_all, with_cell, CellFmt, CellOp, ColOp, ExportState, ImageOp, MergeOp,
    OpsView, Pending, RowOp, Sec,
};
use crate::floats::{reading_of, FloatReading};
use crate::lines::{
    close_line, empty_line, is_plain, line_event, line_tag, lines_events, open_line, read_as, Form,
    LineView,
};
use crate::readback::{
    clean_document, law_clean_document_read_back, lemma_attribute, lemma_cell_fields,
    lemma_col_fields, lemma_format_fields, lemma_height_fields, lemma_image_fields,
    lemma_merge_fields, lemma_ranks, lemma_sheet_fields, plain_cell, plain_cell_format, plain_image,
    plain_sheet,
};
use crate::sheet::{Cell, CellFormat, ColWidth, Image, Merge, RowHeight, SheetView};
use crate::text::{law_decimal_reads_back, truth};
use crate::xml::EventView;

verus! {

/// Whether a table reads a text as the number that is shown as this text.
pub open spec fn reads(readings: Seq<FloatReading<Seq<char>>>, text: Seq<char>) -> bool {
    reading_of(readings, text) matches Some(f) && f.number.shown == text
}

/// Whether a table reads the font size of a cell.
pub open spec fn reads_cell(
    readings: Seq<FloatReading<Seq<char>>>,
    c: Cell<Seq<char>>,
) -> bool {
    c.format matches Some(f) ==> reads(readings, f.font_size)
}

/// Whether a table reads the widths, heights and font sizes of a worksheet.
pub open spec fn reads_sheet(readings: Seq<FloatReading<Seq<char>>>, s: SheetView) -> bool {
    &&& forall|i: int|
        0 <= i < s.col_widths.len() ==> reads(readings, (#[trigger] s.col_widths[i]).width)
    &&& forall|i: int|
        0 <= i < s.row_heights.len() ==> reads(readings, (#[trigger] s.row_heights[i]).height)
    &&& forall|i: int| 0 <= i < s.cells.len() ==> reads_cell(readings, #[trigger] s.cells[i])
}

/// Whether a table reads the widths, heights and font sizes of some worksheets.
pub open spec fn reads_sheets(
    readings: Seq<FloatReading<Seq<char>>>,
    sheets: Seq<SheetView>,
) -> bool {
    forall|i: int| 0 <= i < sheets.len() ==> reads_sheet(readings, #[trigger] sheets[i])
}

/// A column as it is restored.
pub open spec fn col_back(c: ColWidth<Seq<char>>) -> ColOp<Seq<char>> {
    ColOp { index: less_one(c.index as nat), width: c.width, hidden: c.hidden }
}

/// A row height as it is restored.
pub open spec fn row_back(r: RowHeight<Seq<char>>) -> RowOp<Seq<char>> {
    RowOp { index: less_one(r.index as nat), height: r.height, hidden: r.hidden }
}

/// A merged range as it is restored, before its first cell.
pub open spec fn merge_back(m: Merge<Seq<char>>) -> MergeOp<Seq<char>> {
    MergeOp {
        r1: m.start_row,
        c1: m.start_col,
        r2: m.end_row,
        c2: m.end_col,
        value: Seq::empty(),
        fmt: None,
    }
}

/// A format as it is restored: the same, with `none` for a side without a line.
pub open spec fn format_back(
    f: CellFormat<Seq<char>>,
    readings: Seq<FloatReading<Seq<char>>>,
) -> CellFmt<Seq<char>> {
    CellFmt {
        bold: f.bold,
        italic: f.italic,
        underline: f.underline,
        font_size: reading_of(readings, f.font_size)->0.number,
        font_name: f.font_name,
        font_color: f.font_color,
        bg_color: match f.bg_color {
            Some(c) => if c.len() > 0 {
                Some(c)
            } else {
                None
            },
            None => None,
        },
        halign: f.halign,
        valign: f.valign,
        wrap_text: f.wrap_text,
        indent: f.indent,
        border_top: side(f.border_top),
        border_bottom: side(f.border_bottom),
        border_left: side(f.border_left),
        border_right: side(f.border_right),
        num_fmt: f.num_fmt,
    }
}

/// A format that may be missing as it is restored.
pub open spec fn some_format_back(
    f: Option<CellFormat<Seq<char>>>,
    readings: Seq<FloatReading<Seq<char>>>,
) -> Option<CellFmt<Seq<char>>> {
    match f {
        Some(f) => Some(format_back(f, readings)),
        None => None,
    }
}

/// Whether a cell spans others.
pub open spec fn spans(c: Cell<Seq<char>>) -> bool {
    c.rowspan > 1 || c.colspan > 1
}

/// A cell as it is restored.
pub open spec fn cell_back(
    c: Cell<Seq<char>>,
    readings: Seq<FloatReading<Seq<char>>>,
) -> CellOp<Seq<char>> {
    CellOp {
        row: c.row,
        col: c.col,
        value: c.value,
        cell_type: c.cell_type,
        fmt: some_format_back(c.format, readings),
    }
}

/// The cells that span no others, as they are restored.
pub open spec fn single_cells(
    cells: Seq<Cell<Seq<char>>>,
    readings: Seq<FloatReading<Seq<char>>>,
) -> Seq<CellOp<Seq<char>>>
    decreases cells.len(),
{
    if cells.len() == 0 {
        Seq::empty()
    } else if spans(cells.last()) {
        single_cells(cells.drop_last(), readings)
    } else {
        single_cells(cells.drop_last(), readings).push(cell_back(cells.last(), readings))
    }
}

/// A cell on its way to where it is restored.
pub open spec fn cell_pending(
    c: Cell<Seq<char>>,
    readings: Seq<FloatReading<Seq<char>>>,
) -> Pending<Seq<char>> {
    Pending {
        row: c.row,
        col: c.col,
        value: c.value,
        cell_type: c.cell_type,
        rowspan: if c.rowspan > 1 {
            c.rowspan
        } else {
            1
        },
        colspan: if c.colspan > 1 {
            c.colspan
        } else {
            1
        },
        fmt: some_format_back(c.format, readings),
    }
}

/// The merged ranges with the cells that span others in the ranges that begin at them.
pub open spec fn merges_back(
    merges: Seq<MergeOp<Seq<char>>>,
    cells: Seq<Cell<Seq<char>>>,
    readings: Seq<FloatReading<Seq<char>>>,
) -> Seq<MergeOp<Seq<char>>>
    decreases cells.len(),
{
    if cells.len() == 0 {
        merges
    } else {
        let before = merges_back(merges, cells.drop_last(), readings);
        if spans(cells.last()) {
            filled_merges(before, cell_pending(cells.last(), readings))
        } else {
            before
        }
    }
}

/// The images as they are restored: those with bytes that can be decoded.
pub open spec fn images_back(images: Seq<Image<Seq<char>>>) -> Seq<ImageOp<Seq<u8>>>
    decreases images.len(),
{
    if images.len() == 0 {
        Seq::empty()
    } else {
        let before = images_back(images.drop_last());
        let i = images.last();
        match base64_bytes(i.data_b64) {
            Some(data) => if i.data_b64.len() > 0 {
                before.push(
                    ImageOp { row: less_one(i.row as nat), col: less_one(i.col as nat), data },
                )
            } else {
                before
            },
            None => before,
        }
    }
}

/// A worksheet as it is restored.
pub open spec fn sheet_back(
    s: SheetView,
    readings: Seq<FloatReading<Seq<char>>>,
) -> OpsView {
    OpsView {
        name: s.name,
        col_ops: Seq::new(s.col_widths.len(), |i: int| col_back(s.col_widths[i])),
        row_ops: Seq::new(s.row_heights.len(), |i: int| row_back(s.row_heights[i])),
        merges: merges_back(
            Seq::new(s.merges.len(), |i: int| merge_back(s.merges[i])),
            ordered(s.cells),
            readings,
        ),
        cells: single_cells(ordered(s.cells), readings),
        image_ops: images_back(s.images),
    }
}

/// The worksheets as they are restored.
pub open spec fn sheets_back(
    sheets: Seq<SheetView>,
    readings: Seq<FloatReading<Seq<char>>>,
) -> Seq<OpsView> {
    Seq::new(sheets.len(), |i: int| sheet_back(sheets[i], readings))
}

/// Reading on after events that were read.
proof fn lemma_run_append(
    s: ExportState,
    a: Seq<EventView>,
    b: Seq<EventView>,
    readings: Seq<FloatReading<Seq<char>>>,
)
    ensures
        export_run(s, a + b, readings) == export_run(export_run(s, a, readings), b, readings),
    decreases b.len(),
{
    if b.len() == 0 {
        assert(a + b =~= a);
    } else {
        assert((a + b).drop_last() =~= a + b.drop_last());
        assert((a + b).last() == b.last());
        lemma_run_append(s, a, b.drop_last(), readings);
    }
}

/// Reading one event.
proof fn lemma_run_one(s: ExportState, e: EventView, readings: Seq<FloatReading<Seq<char>>>)
    ensures
        export_run(s, seq![e], readings) == export_step(s, e, readings),
{
    assert(seq![e].drop_last() =~= Seq::<EventView>::empty());
    assert(export_run(s, Seq::<EventView>::empty(), readings) == s);
}

/// Reading lines one after the other.
#[verifier::opaque]
spec fn run_lines(
    s: ExportState,
    lines: Seq<LineView>,
    readings: Seq<FloatReading<Seq<char>>>,
) -> ExportState {
    export_run(s, lines_events(lines), readings)
}

/// Reading lines behind lines.
proof fn lemma_lines_append(
    s: ExportState,
    a: Seq<LineView>,
    b: Seq<LineView>,
    readings: Seq<FloatReading<Seq<char>>>,
)
    ensures
        run_lines(s, a + b, readings) == run_lines(run_lines(s, a, readings), b, readings),
{
    reveal(run_lines);
    assert(lines_events(a + b) =~= lines_events(a) + lines_events(b));
    lemma_run_append(s, lines_events(a), lines_events(b), readings);
}

/// Reading one line.
proof fn lemma_lines_one(
    s: ExportState,
    l: LineView,
    readings: Seq<FloatReading<Seq<char>>>,
)
    ensures
        run_lines(s, seq![l], readings) == export_step(s, line_event(l), readings),
{
    reveal(run_lines);
    assert(lines_events(seq![l]) =~= seq![line_event(l)]);
    lemma_run_one(s, line_event(l), readings);
}

/// Reading no line.
proof fn lemma_lines_none(s: ExportState, readings: Seq<FloatReading<Seq<char>>>)
    ensures
        run_lines(s, Seq::<LineView>::empty(), readings) == s,
{
    reveal(run_lines);
    assert(lines_events(Seq::<LineView>::empty()) =~= Seq::<EventView>::empty());
}

/// A truth value is read back.
proof fn lemma_truth(b: bool)
    ensures
        (truth(b) == "true"@) == b,
{
    reveal_strlit("true");
    reveal_strlit("false");
    assert("true"@.len() != "false"@.len());
}

/// What a state is while a sheet is open.
spec fn inside(s: ExportState, sec: Sec, ops: OpsView) -> bool {
    !s.lost && s.sec == sec && s.cur == Some(ops) && s.pending is None
}

/// The same state with another open sheet.
spec fn with_ops(s: ExportState, ops: OpsView) -> ExportState {
    ExportState { cur: Some(ops), ..s }
}

/// What a tag that belongs to an open sheet comes to.
proof fn lemma_item_step(
    s: ExportState,
    ops: OpsView,
    l: LineView,
    readings: Seq<FloatReading<Seq<char>>>,
)
    requires
        !s.lost,
        s.cur == Some(ops),
        l.form == Form::Empty,
    ensures
        l.name == "col"@ && s.sec == Sec::ColWidths ==> export_step(s, line_event(l), readings)
            == with_ops(
            s,
            OpsView { col_ops: ops.col_ops.push(col_op(line_tag(l), readings)), ..ops },
        ),
        l.name == "row"@ && s.sec == Sec::RowHeights ==> export_step(s, line_event(l), readings)
            == with_ops(
            s,
            OpsView { row_ops: ops.row_ops.push(row_op(line_tag(l), readings)), ..ops },
        ),
        l.name == "merge"@ && s.sec == Sec::Merges ==> export_step(s, line_event(l), readings)
            == with_ops(s, OpsView { merges: ops.merges.push(merge_op(line_tag(l))), ..ops }),
        l.name == "image"@ && s.sec == Sec::Images ==> export_step(s, line_event(l), readings)
            == with_ops(
            s,
            match image_op(line_tag(l)) {
                Some(i) => OpsView { image_ops: ops.image_ops.push(i), ..ops },
                None => ops,
            },
        ),
        l.name == "dimensions"@ ==> export_step(s, line_event(l), readings) == s,
{
    reveal(export_step);
    reveal(export_tag);
    lemma_ranks();
}

/// What the start of an element of a sheet comes to.
proof fn lemma_section_start(
    s: ExportState,
    l: LineView,
    readings: Seq<FloatReading<Seq<char>>>,
)
    requires
        !s.lost,
        l.form == Form::Open,
        sec_named(l.name) is Some,
    ensures
        export_step(s, line_event(l), readings) == (ExportState { sec: sec_named(l.name)->0, ..s }),
{
    reveal(export_step);
    reveal(export_tag);
    lemma_ranks();
}

/// What the end of an element of a sheet comes to.
proof fn lemma_section_end(s: ExportState, l: LineView, readings: Seq<FloatReading<Seq<char>>>)
    requires
        !s.lost,
        l.form == Form::Close,
        sec_named(l.name) is Some,
    ensures
        export_step(s, line_event(l), readings) == (ExportState { sec: Sec::Outside, ..s }),
{
    reveal(export_step);
    reveal(export_end);
    lemma_ranks();
}

/// What the start of a row of cells comes to.
proof fn lemma_row_start(s: ExportState, l: LineView, readings: Seq<FloatReading<Seq<char>>>)
    requires
        !s.lost,
        s.sec == Sec::Rows,
        l.form == Form::Open,
        l.name == "row"@,
    ensures
        export_step(s, line_event(l), readings) == (ExportState { sec: Sec::RowsRow, ..s }),
{
    reveal(export_step);
    reveal(export_tag);
    lemma_ranks();
}

/// What the end of a row of cells comes to.
proof fn lemma_row_end(s: ExportState, l: LineView, readings: Seq<FloatReading<Seq<char>>>)
    requires
        !s.lost,
        s.sec == Sec::RowsRow,
        l.form == Form::Close,
        l.name == "row"@,
    ensures
        export_step(s, line_event(l), readings) == (ExportState { sec: Sec::Rows, ..s }),
{
    reveal(export_step);
    reveal(export_end);
    lemma_ranks();
}

/// What the tag of a cell comes to: an empty one is a complete cell.
proof fn lemma_cell_step(s: ExportState, l: LineView, readings: Seq<FloatReading<Seq<char>>>)
    requires
        !s.lost,
        s.sec == Sec::RowsRow,
        l.form != Form::Close,
        l.name == "cell"@,
    ensures
        l.form == Form::Empty ==> export_step(s, line_event(l), readings) == cell_done(
            s,
            Some(pending_cell(line_tag(l))),
        ),
        l.form == Form::Open ==> export_step(s, line_event(l), readings) == (ExportState {
            pending: Some(pending_cell(line_tag(l))),
            ..s
        }),
{
    reveal(export_step);
    reveal(export_tag);
    lemma_ranks();
}

/// What the tag of a format inside a cell comes to.
proof fn lemma_format_step(
    s: ExportState,
    p: Pending<Seq<char>>,
    l: LineView,
    readings: Seq<FloatReading<Seq<char>>>,
)
    requires
        !s.lost,
        s.pending == Some(p),
        l.form == Form::Empty,
        l.name == "format"@,
    ensures
        export_step(s, line_event(l), readings) == (ExportState {
            pending: Some(Pending { fmt: Some(cell_fmt(line_tag(l), readings)), ..p }),
            ..s
        }),
{
    reveal(export_step);
    reveal(export_tag);
    lemma_ranks();
}

/// What the end of a cell comes to.
proof fn lemma_cell_end(s: ExportState, l: LineView, readings: Seq<FloatReading<Seq<char>>>)
    requires
        !s.lost,
        l.form == Form::Close,
        l.name == "cell"@,
    ensures
        export_step(s, line_event(l), readings) == cell_done(s, s.pending),
{
    reveal(export_step);
    reveal(export_end);
    lemma_ranks();
}

/// What the start of a sheet comes to.
proof fn lemma_sheet_start(
    s: ExportState,
    sheet: SheetView,
    l: LineView,
    readings: Seq<FloatReading<Seq<char>>>,
)
    requires
        !s.lost,
        s.cur is None,
        s.sec == Sec::Outside,
        l == open_line(2, "sheet"@, sheet_fields(sheet)),
    ensures
        export_step(s, line_event(l), readings) == with_ops(s, empty_ops(sheet.name)),
{
    reveal(export_step);
    reveal(export_tag);
    lemma_sheet_fields(sheet);
    lemma_attribute(l, "name"@);
    lemma_attribute(l, "ref"@);
}

/// What the end of a sheet comes to.
proof fn lemma_sheet_end(
    s: ExportState,
    ops: OpsView,
    l: LineView,
    readings: Seq<FloatReading<Seq<char>>>,
)
    requires
        inside(s, Sec::Outside, ops),
        l.form == Form::Close,
        l.name == "sheet"@,
    ensures
        export_step(s, line_event(l), readings) == (ExportState {
            sheets: s.sheets.push(ops),
            cur: None,
            ..s
        }),
{
    reveal(export_step);
    reveal(export_end);
    lemma_ranks();
}

/// What the tags of the root element come to.
proof fn lemma_root_step(s: ExportState, l: LineView, readings: Seq<FloatReading<Seq<char>>>)
    requires
        l.name == "workbook"@,
    ensures
        export_step(s, line_event(l), readings) == s,
{
    reveal(export_step);
    reveal(export_tag);
    reveal(export_end);
    lemma_ranks();
}

/// What the line of a column comes to.
proof fn lemma_col_line(
    c: ColWidth<Seq<char>>,
    readings: Seq<FloatReading<Seq<char>>>,
)
    requires
        is_plain(c.width),
        reads(readings, c.width),
    ensures
        col_op(line_tag(empty_line(6, "col"@, col_fields(c))), readings) == col_back(c),
{
    let l = empty_line(6, "col"@, col_fields(c));
    lemma_col_fields(c);
    lemma_attribute(l, "index"@);
    lemma_attribute(l, "width"@);
    lemma_attribute(l, "hidden"@);
    law_decimal_reads_back(c.index as nat, u32::MAX as nat);
    lemma_truth(c.hidden);
}

/// What the lines of columns come to.
proof fn lemma_cols(
    s: ExportState,
    ops: OpsView,
    cols: Seq<ColWidth<Seq<char>>>,
    readings: Seq<FloatReading<Seq<char>>>,
)
    requires
        inside(s, Sec::ColWidths, ops),
        forall|i: int|
            0 <= i < cols.len() ==> is_plain((#[trigger] cols[i]).width) && reads(
                readings,
                cols[i].width,
            ),
    ensures
        run_lines(s, col_lines(cols), readings) == with_ops(
            s,
            OpsView {
                col_ops: ops.col_ops + Seq::new(cols.len(), |i: int| col_back(cols[i])),
                ..ops
            },
        ),
    decreases cols.len(),
{
    if cols.len() == 0 {
        lemma_lines_none(s, readings);
        assert(col_lines(cols) =~= Seq::<LineView>::empty());
        assert(ops.col_ops + Seq::new(cols.len(), |i: int| col_back(cols[i])) =~= ops.col_ops);
    } else {
        let before = cols.drop_last();
        let c = cols.last();
        let l = empty_line(6, "col"@, col_fields(c));
        assert forall|i: int| 0 <= i < before.len() implies is_plain((#[trigger] before[i]).width)
            && reads(readings, before[i].width) by {
            assert(is_plain(cols[i].width));
        }
        lemma_cols(s, ops, before, readings);
        assert(col_lines(cols) =~= col_lines(before) + seq![l]);
        lemma_lines_append(s, col_lines(before), seq![l], readings);
        lemma_lines_one(run_lines(s, col_lines(before), readings), l, readings);
        assert(is_plain(cols[cols.len() - 1].width));
        lemma_col_line(c, readings);
        let mid = run_lines(s, col_lines(before), readings);
        lemma_item_step(mid, mid.cur->0, l, readings);
        assert((ops.col_ops + Seq::new(before.len(), |i: int| col_back(before[i]))).push(
            col_back(c),
        ) =~= ops.col_ops + Seq::new(cols.len(), |i: int| col_back(cols[i])));
    }
}

/// What the line of a row height comes to.
proof fn lemma_height_line(
    r: RowHeight<Seq<char>>,
    readings: Seq<FloatReading<Seq<char>>>,
)
    requires
        is_plain(r.height),
        reads(readings, r.height),
    ensures
        row_op(line_tag(empty_line(6, "row"@, height_fields(r))), readings) == row_back(r),
{
    let l = empty_line(6, "row"@, height_fields(r));
    lemma_height_fields(r);
    lemma_attribute(l, "index"@);
    lemma_attribute(l, "height"@);
    lemma_attribute(l, "hidden"@);
    law_decimal_reads_back(r.index as nat, u32::MAX as nat);
    lemma_truth(r.hidden);
}

/// What the lines of row heights come to.
proof fn lemma_heights(
    s: ExportState,
    ops: OpsView,
    rows: Seq<RowHeight<Seq<char>>>,
    readings: Seq<FloatReading<Seq<char>>>,
)
    requires
        inside(s, Sec::RowHeights, ops),
        forall|i: int|
            0 <= i < rows.len() ==> is_plain((#[trigger] rows[i]).height) && reads(
                readings,
                rows[i].height,
            ),
    ensures
        run_lines(s, height_lines(rows), readings) == with_ops(
            s,
            OpsView {
                row_ops: ops.row_ops + Seq::new(rows.len(), |i: int| row_back(rows[i])),
                ..ops
            },
        ),
    decreases rows.len(),
{
    if rows.len() == 0 {
        lemma_lines_none(s, readings);
        assert(height_lines(rows) =~= Seq::<LineView>::empty());
        assert(ops.row_ops + Seq::new(rows.len(), |i: int| row_back(rows[i])) =~= ops.row_ops);
    } else {
        let before = rows.drop_last();
        let r = rows.last();
        let l = empty_line(6, "row"@, height_fields(r));
        assert forall|i: int| 0 <= i < before.len() implies is_plain((#[trigger] before[i]).height)
            && reads(readings, before[i].height) by {
            assert(is_plain(rows[i].height));
        }
        lemma_heights(s, ops, before, readings);
        assert(height_lines(rows) =~= height_lines(before) + seq![l]);
        lemma_lines_append(s, height_lines(before), seq![l], readings);
        lemma_lines_one(run_lines(s, height_lines(before), readings), l, readings);
        assert(is_plain(rows[rows.len() - 1].height));
        lemma_height_line(r, readings);
        let mid = run_lines(s, height_lines(before), readings);
        lemma_item_step(mid, mid.cur->0, l, readings);
        assert((ops.row_ops + Seq::new(before.len(), |i: int| row_back(before[i]))).push(
            row_back(r),
        ) =~= ops.row_ops + Seq::new(rows.len(), |i: int| row_back(rows[i])));
    }
}

/// What the line of a merged range comes to.
proof fn lemma_merge_line(m: Merge<Seq<char>>)
    ensures
        merge_op(line_tag(empty_line(6, "merge"@, merge_fields(m)))) == merge_back(m),
{
    let l = empty_line(6, "merge"@, merge_fields(m));
    lemma_merge_fields(m);
    lemma_attribute(l, "startRow"@);
    lemma_attribute(l, "startCol"@);
    lemma_attribute(l, "endRow"@);
    lemma_attribute(l, "endCol"@);
    law_decimal_reads_back(m.start_row as nat, u32::MAX as nat);
    law_decimal_reads_back(m.start_col as nat, u32::MAX as nat);
    law_decimal_reads_back(m.end_row as nat, u32::MAX as nat);
    law_decimal_reads_back(m.end_col as nat, u32::MAX as nat);
}

/// What the lines of merged ranges come to.
proof fn lemma_merges(
    s: ExportState,
    ops: OpsView,
    merges: Seq<Merge<Seq<char>>>,
    readings: Seq<FloatReading<Seq<char>>>,
)
    requires
        inside(s, Sec::Merges, ops),
    ensures
        run_lines(s, merge_lines(merges), readings) == with_ops(
            s,
            OpsView {
                merges: ops.merges + Seq::new(merges.len(), |i: int| merge_back(merges[i])),
                ..ops
            },
        ),
    decreases merges.len(),
{
    if merges.len() == 0 {
        lemma_lines_none(s, readings);
        assert(merge_lines(merges) =~= Seq::<LineView>::empty());
        assert(ops.merges + Seq::new(merges.len(), |i: int| merge_back(merges[i])) =~= ops.merges);
    } else {
        let before = merges.drop_last();
        let m = merges.last();
        let l = empty_line(6, "merge"@, merge_fields(m));
        lemma_merges(s, ops, before, readings);
        assert(merge_lines(merges) =~= merge_lines(before) + seq![l]);
        lemma_lines_append(s, merge_lines(before), seq![l], readings);
        lemma_lines_one(run_lines(s, merge_lines(before), readings), l, readings);
        lemma_merge_line(m);
        let mid = run_lines(s, merge_lines(before), readings);
        lemma_item_step(mid, mid.cur->0, l, readings);
        assert((ops.merges + Seq::new(before.len(), |i: int| merge_back(before[i]))).push(
            merge_back(m),
        ) =~= ops.merges + Seq::new(merges.len(), |i: int| merge_back(merges[i])));
    }
}

/// What the line of an image comes to.
proof fn lemma_image_line(i: Image<Seq<char>>)
    requires
        plain_image(i),
    ensures
        image_op(line_tag(empty_line(6, "image"@, image_fields(i)))) == (match base64_bytes(
            i.data_b64,
        ) {
            Some(data) => if i.data_b64.len() > 0 {
                Some(ImageOp { row: less_one(i.row as nat), col: less_one(i.col as nat), data })
            } else {
                None
            },
            None => None,
        }),
{
    let l = empty_line(6, "image"@, image_fields(i));
    lemma_image_fields(i);
    lemma_attribute(l, "row"@);
    lemma_attribute(l, "col"@);
    lemma_attribute(l, "data"@);
    law_decimal_reads_back(i.row as nat, u32::MAX as nat);
    law_decimal_reads_back(i.col as nat, u32::MAX as nat);
}

/// What the lines of images come to.
proof fn lemma_images(
    s: ExportState,
    ops: OpsView,
    images: Seq<Image<Seq<char>>>,
    readings: Seq<FloatReading<Seq<char>>>,
)
    requires
        inside(s, Sec::Images, ops),
        forall|i: int|
            0 <= i < images.len() ==> plain_image(#[trigger] images[i]),
    ensures
        run_lines(s, image_lines(images), readings) == with_ops(
            s,
            OpsView { image_ops: ops.image_ops + images_back(images), ..ops },
        ),
    decreases images.len(),
{
    if images.len() == 0 {
        lemma_lines_none(s, readings);
        assert(image_lines(images) =~= Seq::<LineView>::empty());
        assert(ops.image_ops + images_back(images) =~= ops.image_ops);
    } else {
        let before = images.drop_last();
        let i = images.last();
        let l = empty_line(6, "image"@, image_fields(i));
        assert forall|k: int| 0 <= k < before.len() implies plain_image(#[trigger] before[k]) by {
            assert(plain_image(images[k]));
        }
        lemma_images(s, ops, before, readings);
        assert(image_lines(images) =~= image_lines(before) + seq![l]);
        lemma_lines_append(s, image_lines(before), seq![l], readings);
        lemma_lines_one(run_lines(s, image_lines(before), readings), l, readings);
        assert(plain_image(images[images.len() - 1]));
        lemma_image_line(i);
        let mid = run_lines(s, image_lines(before), readings);
        lemma_item_step(mid, mid.cur->0, l, readings);
        match image_op(line_tag(l)) {
            Some(op) => {
                assert((ops.image_ops + images_back(before)).push(op) =~= ops.image_ops
                    + images_back(before).push(op));
            },
            None => {},
        }
    }
}

/// What the tag of a cell comes to.
proof fn lemma_cell_tag(l: LineView, c: Cell<Seq<char>>, readings: Seq<FloatReading<Seq<char>>>)
    requires
        l.fields == cell_fields(c),
    ensures
        pending_cell(line_tag(l)) == (Pending { fmt: None, ..cell_pending(c, readings) }),
{
    lemma_cell_fields(c);
    lemma_attribute(l, "row"@);
    lemma_attribute(l, "col"@);
    lemma_attribute(l, "value"@);
    lemma_attribute(l, "type"@);
    lemma_attribute(l, "rowspan"@);
    lemma_attribute(l, "colspan"@);
    law_decimal_reads_back(c.row as nat, u32::MAX as nat);
    law_decimal_reads_back(c.col as nat, u32::MAX as nat);
    law_decimal_reads_back(c.rowspan as nat, u32::MAX as nat);
    law_decimal_reads_back(c.colspan as nat, u32::MAX as nat);
}

/// What the tag of a format comes to.
proof fn lemma_format_tag(
    l: LineView,
    f: CellFormat<Seq<char>>,
    readings: Seq<FloatReading<Seq<char>>>,
)
    requires
        l.fields == format_fields(f),
        plain_cell_format(f),
        reads(readings, f.font_size),
    ensures
        cell_fmt(line_tag(l), readings) == format_back(f, readings),
{
    lemma_format_fields(f);
    lemma_attribute(l, "bold"@);
    lemma_attribute(l, "italic"@);
    lemma_attribute(l, "underline"@);
    lemma_attribute(l, "fontSize"@);
    lemma_attribute(l, "fontName"@);
    lemma_attribute(l, "fontColor"@);
    lemma_attribute(l, "bgColor"@);
    lemma_attribute(l, "halign"@);
    lemma_attribute(l, "valign"@);
    lemma_attribute(l, "wrapText"@);
    lemma_attribute(l, "indent"@);
    lemma_attribute(l, "borderTop"@);
    lemma_attribute(l, "borderBottom"@);
    lemma_attribute(l, "borderLeft"@);
    lemma_attribute(l, "borderRight"@);
    lemma_attribute(l, "numFmt"@);
    law_decimal_reads_back(f.indent as nat, u32::MAX as nat);
    lemma_truth(f.bold);
    lemma_truth(f.italic);
    lemma_truth(f.underline);
    lemma_truth(f.wrap_text);
}

/// What the lines of a cell come to.
proof fn lemma_cell_lines(
    s: ExportState,
    ops: OpsView,
    c: Cell<Seq<char>>,
    readings: Seq<FloatReading<Seq<char>>>,
)
    requires
        inside(s, Sec::RowsRow, ops),
        plain_cell(c),
        reads_cell(readings, c),
    ensures
        run_lines(s, cell_lines(c), readings) == with_ops(
            s,
            with_cell(ops, cell_pending(c, readings)),
        ),
{
    match c.format {
        Some(f) => {
            let first = open_line(8, "cell"@, cell_fields(c));
            let inner = empty_line(10, "format"@, format_fields(f));
            let last = close_line(8, "cell"@);
            assert(cell_lines(c) =~= seq![first] + seq![inner] + seq![last]);
            lemma_lines_append(s, seq![first] + seq![inner], seq![last], readings);
            lemma_lines_append(s, seq![first], seq![inner], readings);
            lemma_lines_one(s, first, readings);
            lemma_cell_step(s, first, readings);
            lemma_cell_tag(first, c, readings);
            let s1 = run_lines(s, seq![first], readings);
            assert(s1 == (ExportState {
                pending: Some(Pending { fmt: None, ..cell_pending(c, readings) }),
                ..s
            }));
            lemma_lines_one(s1, inner, readings);
            lemma_format_step(s1, s1.pending->0, inner, readings);
            lemma_format_tag(inner, f, readings);
            let s2 = run_lines(s1, seq![inner], readings);
            assert(s2 == (ExportState { pending: Some(cell_pending(c, readings)), ..s }));
            lemma_lines_one(s2, last, readings);
            lemma_cell_end(s2, last, readings);
        },
        None => {
            let only = empty_line(8, "cell"@, cell_fields(c));
            lemma_lines_one(s, only, readings);
            lemma_cell_step(s, only, readings);
            lemma_cell_tag(only, c, readings);
        },
    }
}

/// A sheet with cells added.
spec fn with_cells(
    ops: OpsView,
    cells: Seq<Cell<Seq<char>>>,
    readings: Seq<FloatReading<Seq<char>>>,
) -> OpsView {
    OpsView {
        cells: ops.cells + single_cells(cells, readings),
        merges: merges_back(ops.merges, cells, readings),
        ..ops
    }
}

/// Whether cells can be restored.
spec fn restorable(
    cells: Seq<Cell<Seq<char>>>,
    readings: Seq<FloatReading<Seq<char>>>,
) -> bool {
    forall|i: int|
        0 <= i < cells.len() ==> plain_cell(#[trigger] cells[i]) && reads_cell(readings, cells[i])
}

/// What the lines of cells in order come to.
proof fn lemma_open_rows(
    s: ExportState,
    ops: OpsView,
    cells: Seq<Cell<Seq<char>>>,
    readings: Seq<FloatReading<Seq<char>>>,
)
    requires
        inside(s, Sec::Rows, ops),
        restorable(cells, readings),
    ensures
        run_lines(s, open_rows(cells), readings) == (ExportState {
            cur: Some(with_cells(ops, cells, readings)),
            sec: if cells.len() > 0 {
                Sec::RowsRow
            } else {
                Sec::Rows
            },
            ..s
        }),
    decreases cells.len(),
{
    if cells.len() == 0 {
        lemma_lines_none(s, readings);
        assert(ops.cells + single_cells(cells, readings) =~= ops.cells);
        assert(with_cells(ops, cells, readings) =~= ops);
    } else {
        let before = cells.drop_last();
        let c = cells.last();
        let row = "row"@;
        let start = open_line(6, row, row_fields(c.row));
        let stop = close_line(6, row);
        let none = Seq::<LineView>::empty();
        let head = if before.len() == 0 {
            seq![start]
        } else if before.last().row != c.row {
            seq![stop, start]
        } else {
            none
        };
        assert forall|i: int| 0 <= i < before.len() implies plain_cell(#[trigger] before[i])
            && reads_cell(readings, before[i]) by {
            assert(plain_cell(cells[i]));
        }
        assert(plain_cell(cells[cells.len() - 1]));
        lemma_open_rows(s, ops, before, readings);
        lemma_lines_append(s, open_rows(before) + head, cell_lines(c), readings);
        lemma_lines_append(s, open_rows(before), head, readings);
        let s1 = run_lines(s, open_rows(before), readings);
        let ops1 = with_cells(ops, before, readings);
        let s2 = run_lines(s1, head, readings);
        if before.len() == 0 {
            lemma_lines_one(s1, start, readings);
            lemma_row_start(s1, start, readings);
        } else if before.last().row != c.row {
            assert(seq![stop, start] =~= seq![stop] + seq![start]);
            lemma_lines_append(s1, seq![stop], seq![start], readings);
            lemma_lines_one(s1, stop, readings);
            lemma_row_end(s1, stop, readings);
            let s0 = run_lines(s1, seq![stop], readings);
            lemma_lines_one(s0, start, readings);
            lemma_row_start(s0, start, readings);
        } else {
            lemma_lines_none(s1, readings);
        }
        assert(s2 == (ExportState { cur: Some(ops1), sec: Sec::RowsRow, ..s }));
        lemma_cell_lines(s2, ops1, c, readings);
        if !spans(c) {
            assert((ops.cells + single_cells(before, readings)).push(cell_back(c, readings))
                =~= ops.cells + single_cells(before, readings).push(cell_back(c, readings)));
        }
        assert(with_cell(ops1, cell_pending(c, readings)) =~= with_cells(ops, cells, readings));
    }
}

/// Putting cells in order keeps them restorable.
proof fn lemma_ordered_restorable(
    cells: Seq<Cell<Seq<char>>>,
    readings: Seq<FloatReading<Seq<char>>>,
)
    requires
        restorable(cells, readings),
    ensures
        restorable(ordered(cells), readings),
    decreases cells.len(),
{
    if cells.len() > 0 {
        let before = cells.drop_last();
        let rest = ordered(before);
        let at = crate::document::place_for(rest, cells.last());
        assert forall|i: int| 0 <= i < before.len() implies plain_cell(#[trigger] before[i])
            && reads_cell(readings, before[i]) by {
            assert(plain_cell(cells[i]));
        }
        lemma_ordered_restorable(before, readings);
        crate::document::lemma_place_for(rest, cells.last());
        assert(plain_cell(cells[cells.len() - 1]));
        assert forall|i: int| 0 <= i < ordered(cells).len() implies plain_cell(
            #[trigger] ordered(cells)[i],
        ) && reads_cell(readings, ordered(cells)[i]) by {
            if i < at {
                assert(ordered(cells)[i] == rest[i]);
            } else if i > at {
                assert(ordered(cells)[i] == rest[i - 1]);
            }
        }
    }
}

/// What an element of a worksheet comes to, from what its lines come to.
proof fn lemma_section(
    s: ExportState,
    ops: OpsView,
    more: OpsView,
    name: Seq<char>,
    lines: Seq<LineView>,
    readings: Seq<FloatReading<Seq<char>>>,
)
    requires
        inside(s, Sec::Outside, ops),
        sec_named(name) is Some,
        ({
            let s1 = ExportState { sec: sec_named(name)->0, ..s };
            run_lines(s1, lines, readings) == with_ops(s1, more)
        }),
    ensures
        run_lines(s, wrapped(name, lines), readings) == with_ops(s, more),
{
    let open = open_line(4, name, no_fields());
    let close = close_line(4, name);
    let s1 = ExportState { sec: sec_named(name)->0, ..s };
    lemma_lines_append(s, seq![open] + lines, seq![close], readings);
    lemma_lines_append(s, seq![open], lines, readings);
    lemma_lines_one(s, open, readings);
    lemma_section_start(s, open, readings);
    lemma_lines_one(with_ops(s1, more), close, readings);
    lemma_section_end(with_ops(s1, more), close, readings);
}

/// What the lines of the rows come to.
proof fn lemma_rows(
    s: ExportState,
    ops: OpsView,
    cells: Seq<Cell<Seq<char>>>,
    readings: Seq<FloatReading<Seq<char>>>,
)
    requires
        inside(s, Sec::Rows, ops),
        restorable(cells, readings),
    ensures
        run_lines(s, row_lines(cells), readings) == with_ops(s, with_cells(ops, cells, readings)),
{
    lemma_open_rows(s, ops, cells, readings);
    if cells.len() == 0 {
        assert(row_lines(cells) =~= open_rows(cells));
    } else {
        let stop = close_line(6, "row"@);
        assert(row_lines(cells) =~= open_rows(cells) + seq![stop]);
        lemma_lines_append(s, open_rows(cells), seq![stop], readings);
        lemma_lines_one(run_lines(s, open_rows(cells), readings), stop, readings);
        lemma_row_end(run_lines(s, open_rows(cells), readings), stop, readings);
    }
}

/// What the lines of a worksheet come to.
proof fn lemma_sheet(
    s: ExportState,
    sheet: SheetView,
    readings: Seq<FloatReading<Seq<char>>>,
)
    requires
        !s.lost,
        s.cur is None,
        s.pending is None,
        s.sec == Sec::Outside,
        plain_sheet(sheet),
        reads_sheet(readings, sheet),
    ensures
        run_lines(s, sheet_lines(sheet), readings) == (ExportState {
            sheets: s.sheets.push(sheet_back(sheet, readings)),
            ..s
        }),
{
    let cells = ordered(sheet.cells);
    let first = open_line(2, "sheet"@, sheet_fields(sheet));
    let dims = empty_line(4, "dimensions"@, dimension_fields(sheet));
    let last = close_line(2, "sheet"@);
    let w1 = wrapped("colWidths"@, col_lines(sheet.col_widths));
    let w2 = wrapped("rowHeights"@, height_lines(sheet.row_heights));
    let w3 = wrapped("merges"@, merge_lines(sheet.merges));
    let w4 = wrapped("rows"@, row_lines(cells));
    let w5 = wrapped("images"@, image_lines(sheet.images));
    let l0 = seq![first, dims];
    assert(l0 =~= seq![first] + seq![dims]);
    lemma_lines_append(s, seq![first], seq![dims], readings);
    lemma_lines_one(s, first, readings);
    lemma_sheet_start(s, sheet, first, readings);
    let o0 = empty_ops(sheet.name);
    let s0 = with_ops(s, o0);
    assert(run_lines(s, seq![first], readings) == s0);
    lemma_lines_one(s0, dims, readings);
    lemma_item_step(s0, o0, dims, readings);
    lemma_ranks();
    assert(run_lines(s, l0, readings) == s0);

    let full = sheet_back(sheet, readings);
    let o1 = OpsView { col_ops: full.col_ops, ..o0 };
    let t1 = ExportState { sec: Sec::ColWidths, ..s0 };
    lemma_cols(t1, o0, sheet.col_widths, readings);
    assert(o0.col_ops + full.col_ops =~= full.col_ops);
    lemma_section(s0, o0, o1, "colWidths"@, col_lines(sheet.col_widths), readings);
    let s1 = with_ops(s0, o1);

    let o2 = OpsView { row_ops: full.row_ops, ..o1 };
    let t2 = ExportState { sec: Sec::RowHeights, ..s1 };
    lemma_heights(t2, o1, sheet.row_heights, readings);
    assert(o1.row_ops + full.row_ops =~= full.row_ops);
    lemma_section(s1, o1, o2, "rowHeights"@, height_lines(sheet.row_heights), readings);
    let s2 = with_ops(s1, o2);

    let bare = Seq::new(sheet.merges.len(), |i: int| merge_back(sheet.merges[i]));
    let o3 = OpsView { merges: bare, ..o2 };
    let t3 = ExportState { sec: Sec::Merges, ..s2 };
    lemma_merges(t3, o2, sheet.merges, readings);
    assert(o2.merges + bare =~= bare);
    lemma_section(s2, o2, o3, "merges"@, merge_lines(sheet.merges), readings);
    let s3 = with_ops(s2, o3);

    let o4 = with_cells(o3, cells, readings);
    let t4 = ExportState { sec: Sec::Rows, ..s3 };
    lemma_ordered_restorable(sheet.cells, readings);
    lemma_rows(t4, o3, cells, readings);
    lemma_section(s3, o3, o4, "rows"@, row_lines(cells), readings);
    let s4 = with_ops(s3, o4);
    assert(o3.cells + full.cells =~= full.cells);

    let o5 = OpsView { image_ops: full.image_ops, ..o4 };
    let t5 = ExportState { sec: Sec::Images, ..s4 };
    lemma_images(t5, o4, sheet.images, readings);
    assert(o4.image_ops + full.image_ops =~= full.image_ops);
    lemma_section(s4, o4, o5, "images"@, image_lines(sheet.images), readings);
    let s5 = with_ops(s4, o5);
    assert(o5 =~= full);

    lemma_lines_append(s, l0, w1, readings);
    lemma_lines_append(s, l0 + w1, w2, readings);
    lemma_lines_append(s, l0 + w1 + w2, w3, readings);
    lemma_lines_append(s, l0 + w1 + w2 + w3, w4, readings);
    lemma_lines_append(s, l0 + w1 + w2 + w3 + w4, w5, readings);
    lemma_lines_append(s, l0 + w1 + w2 + w3 + w4 + w5, seq![last], readings);
    lemma_lines_one(s5, last, readings);
    lemma_sheet_end(s5, full, last, readings);
    assert(sheet_lines(sheet) =~= l0 + w1 + w2 + w3 + w4 + w5 + seq![last]);
}

/// What the lines of worksheets come to.
proof fn lemma_sheets(
    s: ExportState,
    sheets: Seq<SheetView>,
    readings: Seq<FloatReading<Seq<char>>>,
)
    requires
        !s.lost,
        s.cur is None,
        s.pending is None,
        s.sec == Sec::Outside,
        forall|i: int|
            0 <= i < sheets.len() ==> plain_sheet(#[trigger] sheets[i]) && reads_sheet(
                readings,
                sheets[i],
            ),
    ensures
        run_lines(s, sheets_lines(sheets), readings) == (ExportState {
            sheets: s.sheets + sheets_back(sheets, readings),
            ..s
        }),
    decreases sheets.len(),
{
    if sheets.len() == 0 {
        lemma_lines_none(s, readings);
        assert(s.sheets + sheets_back(sheets, readings) =~= s.sheets);
    } else {
        let before = sheets.drop_last();
        let sheet = sheets.last();
        assert forall|i: int| 0 <= i < before.len() implies plain_sheet(#[trigger] before[i])
            && reads_sheet(readings, before[i]) by {
            assert(plain_sheet(sheets[i]));
        }
        lemma_sheets(s, before, readings);
        assert(plain_sheet(sheets[sheets.len() - 1]));
        lemma_lines_append(s, sheets_lines(before), sheet_lines(sheet), readings);
        lemma_sheet(run_lines(s, sheets_lines(before), readings), sheet, readings);
        assert((s.sheets + sheets_back(before, readings)).push(sheet_back(sheet, readings))
            =~= s.sheets + sheets_back(sheets, readings));
    }
}

/// An export restores a handover document from what is read of it: every worksheet with its
/// columns, row heights, merged ranges, cells with their values, types and formats, and
/// images. This needs that what is written without escaping holds neither quotation marks nor
/// ampersands, and that the table reads the numbers.
pub proof fn law_export_restores(
    d: DocumentView,
    events: Seq<EventView>,
    readings: Seq<FloatReading<Seq<char>>>,
)
    requires
        clean_document(d),
        reads_sheets(readings, d.sheets),
        read_as(events, workbook_lines(d)),
    ensures
        sheets_hold_all(events, readings),
        restored(events, readings) == sheets_back(d.sheets, readings),
{
    law_clean_document_read_back(d, events);
    let lines = workbook_lines(d);
    let first = open_line(0, "workbook"@, workbook_fields(d));
    let middle = sheets_lines(d.sheets);
    let last = close_line(0, "workbook"@);
    let s = export_start();
    lemma_run_append(s, seq![EventView::Other], lines_events(lines), readings);
    lemma_run_one(s, EventView::Other, readings);
    lemma_lines_append(s, seq![first] + middle, seq![last], readings);
    lemma_lines_append(s, seq![first], middle, readings);
    lemma_lines_one(s, first, readings);
    lemma_root_step(s, first, readings);
    assert forall|i: int| 0 <= i < d.sheets.len() implies plain_sheet(#[trigger] d.sheets[i])
        && reads_sheet(readings, d.sheets[i]) by {}
    lemma_sheets(s, d.sheets, readings);
    lemma_lines_one(run_lines(s, middle, readings), last, readings);
    lemma_root_step(run_lines(s, middle, readings), last, readings);
    reveal(export_step);
    reveal(run_lines);
    assert(s.sheets + sheets_back(d.sheets, readings) =~= sheets_back(d.sheets, readings));
}

} // verus!
