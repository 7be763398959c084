//! Reading a handover document back: what has to be done to restore its workbook.
//!
//! The events of a document become [`SheetOps`]. What is to be done with them says
//! [`plan`](crate::plan).

use vstd::prelude::*;

use crate::archive::{base64_bytes, decode_base64};
use crate::floats::{number_of, read_number, readings_view, FloatReading, Number};
use crate::text::{optional, same};
use crate::xml::{events_view, read_document, xml_events, EventView, Tag, TagView, XmlEvent};

verus! {

/// How a cell is to look.
pub struct CellFmt<T = String> {
    pub bold: bool,
    pub italic: bool,
    pub underline: bool,
    pub font_size: Number<T>,
    pub font_name: T,
    pub font_color: T,
    pub bg_color: Option<T>,
    pub halign: T,
    pub valign: T,
    pub wrap_text: bool,
    pub indent: u32,
    pub border_top: T,
    pub border_bottom: T,
    pub border_left: T,
    pub border_right: T,
    pub num_fmt: T,
}

impl View for CellFmt {
    type V = CellFmt<Seq<char>>;

    open spec fn view(&self) -> CellFmt<Seq<char>> {
        CellFmt {
            bold: self.bold,
            italic: self.italic,
            underline: self.underline,
            font_size: self.font_size@,
            font_name: self.font_name@,
            font_color: self.font_color@,
            bg_color: optional(self.bg_color),
            halign: self.halign@,
            valign: self.valign@,
            wrap_text: self.wrap_text,
            indent: self.indent,
            border_top: self.border_top@,
            border_bottom: self.border_bottom@,
            border_left: self.border_left@,
            border_right: self.border_right@,
            num_fmt: self.num_fmt@,
        }
    }
}

/// What an optional format holds.
pub open spec fn fmt_view(fmt: Option<CellFmt>) -> Option<CellFmt<Seq<char>>> {
    match fmt {
        Some(f) => Some(f@),
        None => None,
    }
}

/// A column to be given a width, counted from 0.
pub struct ColOp<T = String> {
    pub index: u32,
    pub width: T,
    pub hidden: bool,
}

impl View for ColOp {
    type V = ColOp<Seq<char>>;

    open spec fn view(&self) -> ColOp<Seq<char>> {
        ColOp { index: self.index, width: self.width@, hidden: self.hidden }
    }
}

/// A row to be given a height, counted from 0.
pub struct RowOp<T = String> {
    pub index: u32,
    pub height: T,
    pub hidden: bool,
}

impl View for RowOp {
    type V = RowOp<Seq<char>>;

    open spec fn view(&self) -> RowOp<Seq<char>> {
        RowOp { index: self.index, height: self.height@, hidden: self.hidden }
    }
}

/// A range to be merged, with the value and the format of its first cell. Rows and columns
/// count from 1.
pub struct MergeOp<T = String> {
    pub r1: u32,
    pub c1: u32,
    pub r2: u32,
    pub c2: u32,
    pub value: T,
    pub fmt: Option<CellFmt<T>>,
}

impl View for MergeOp {
    type V = MergeOp<Seq<char>>;

    open spec fn view(&self) -> MergeOp<Seq<char>> {
        MergeOp {
            r1: self.r1,
            c1: self.c1,
            r2: self.r2,
            c2: self.c2,
            value: self.value@,
            fmt: fmt_view(self.fmt),
        }
    }
}

/// A cell to be written. Row and column count from 1.
pub struct CellOp<T = String> {
    pub row: u32,
    pub col: u32,
    pub value: T,
    pub cell_type: T,
    pub fmt: Option<CellFmt<T>>,
}

impl View for CellOp {
    type V = CellOp<Seq<char>>;

    open spec fn view(&self) -> CellOp<Seq<char>> {
        CellOp {
            row: self.row,
            col: self.col,
            value: self.value@,
            cell_type: self.cell_type@,
            fmt: fmt_view(self.fmt),
        }
    }
}

/// An image to be inserted. Row and column count from 0.
pub struct ImageOp<D = Vec<u8>> {
    pub row: u32,
    pub col: u32,
    pub data: D,
}

impl View for ImageOp {
    type V = ImageOp<Seq<u8>>;

    open spec fn view(&self) -> ImageOp<Seq<u8>> {
        ImageOp { row: self.row, col: self.col, data: self.data@ }
    }
}

/// What a sheet is to be restored from.
pub struct SheetOps {
    pub name: String,
    pub col_ops: Vec<ColOp>,
    pub row_ops: Vec<RowOp>,
    pub merges: Vec<MergeOp>,
    pub cells: Vec<CellOp>,
    pub image_ops: Vec<ImageOp>,
}

/// What a [`SheetOps`] holds.
#[verifier::ext_equal]
pub struct OpsView {
    pub name: Seq<char>,
    pub col_ops: Seq<ColOp<Seq<char>>>,
    pub row_ops: Seq<RowOp<Seq<char>>>,
    pub merges: Seq<MergeOp<Seq<char>>>,
    pub cells: Seq<CellOp<Seq<char>>>,
    pub image_ops: Seq<ImageOp<Seq<u8>>>,
}

impl View for SheetOps {
    type V = OpsView;

    open spec fn view(&self) -> OpsView {
        OpsView {
            name: self.name@,
            col_ops: Seq::new(self.col_ops@.len(), |i: int| self.col_ops@[i]@),
            row_ops: Seq::new(self.row_ops@.len(), |i: int| self.row_ops@[i]@),
            merges: Seq::new(self.merges@.len(), |i: int| self.merges@[i]@),
            cells: Seq::new(self.cells@.len(), |i: int| self.cells@[i]@),
            image_ops: Seq::new(self.image_ops@.len(), |i: int| self.image_ops@[i]@),
        }
    }
}

/// What a sequence of sheets holds.
pub open spec fn ops_view(sheets: Seq<SheetOps>) -> Seq<OpsView> {
    Seq::new(sheets.len(), |i: int| sheets[i]@)
}

/// The sheet with a name and nothing else.
pub open spec fn empty_ops(name: Seq<char>) -> OpsView {
    OpsView {
        name,
        col_ops: Seq::empty(),
        row_ops: Seq::empty(),
        merges: Seq::empty(),
        cells: Seq::empty(),
        image_ops: Seq::empty(),
    }
}

/// The part of a sheet that is being read.
#[derive(PartialEq, Eq, Structural, Clone, Copy)]
pub enum Sec {
    Outside,
    ColWidths,
    RowHeights,
    Merges,
    Rows,
    RowsRow,
    Images,
}

/// A cell that is being put together.
pub struct Pending<T = String> {
    pub row: u32,
    pub col: u32,
    pub value: T,
    pub cell_type: T,
    pub rowspan: u32,
    pub colspan: u32,
    pub fmt: Option<CellFmt<T>>,
}

impl View for Pending {
    type V = Pending<Seq<char>>;

    open spec fn view(&self) -> Pending<Seq<char>> {
        Pending {
            row: self.row,
            col: self.col,
            value: self.value@,
            cell_type: self.cell_type@,
            rowspan: self.rowspan,
            colspan: self.colspan,
            fmt: fmt_view(self.fmt),
        }
    }
}

/// A document while it is being read back.
#[verifier::ext_equal]
pub struct ExportState {
    /// The sheets that are complete.
    pub sheets: Seq<OpsView>,
    /// The sheet that is open.
    pub cur: Option<OpsView>,
    pub sec: Sec,
    pub pending: Option<Pending<Seq<char>>>,
    /// Whether something that belongs to a sheet stood outside of any.
    pub lost: bool,
}

/// What is known at the beginning.
pub open spec fn export_start() -> ExportState {
    ExportState {
        sheets: Seq::empty(),
        cur: None,
        sec: Sec::Outside,
        pending: None,
        lost: false,
    }
}

/// The section that a tag or an end tag of this name stands for.
pub open spec fn sec_named(name: Seq<char>) -> Option<Sec> {
    if name == "colWidths"@ {
        Some(Sec::ColWidths)
    } else if name == "rowHeights"@ {
        Some(Sec::RowHeights)
    } else if name == "merges"@ {
        Some(Sec::Merges)
    } else if name == "rows"@ {
        Some(Sec::Rows)
    } else if name == "images"@ {
        Some(Sec::Images)
    } else {
        None
    }
}

/// One less, but not less than 0.
pub open spec fn less_one(n: nat) -> u32 {
    if n == 0 {
        0
    } else {
        (n - 1) as u32
    }
}

/// The column that a `col` tag describes.
pub open spec fn col_op(t: TagView, readings: Seq<FloatReading<Seq<char>>>) -> ColOp<Seq<char>> {
    ColOp {
        index: less_one(t.number_or("index"@, 1)),
        width: match number_of(readings, t.attribute("width"@)) {
            Some(n) => n.shown,
            None => "8.43"@,
        },
        hidden: t.attribute("hidden"@) == Some("true"@),
    }
}

/// The row that a `row` tag describes.
pub open spec fn row_op(t: TagView, readings: Seq<FloatReading<Seq<char>>>) -> RowOp<Seq<char>> {
    RowOp {
        index: less_one(t.number_or("index"@, 1)),
        height: match number_of(readings, t.attribute("height"@)) {
            Some(n) => n.shown,
            None => "15"@,
        },
        hidden: t.attribute("hidden"@) == Some("true"@),
    }
}

/// The range that a `merge` tag describes.
pub open spec fn merge_op(t: TagView) -> MergeOp<Seq<char>> {
    let r1 = t.number_or("startRow"@, 1);
    let c1 = t.number_or("startCol"@, 1);
    MergeOp {
        r1: r1 as u32,
        c1: c1 as u32,
        r2: t.number_or("endRow"@, r1) as u32,
        c2: t.number_or("endCol"@, c1) as u32,
        value: Seq::empty(),
        fmt: None,
    }
}

/// The cell that a `cell` tag describes.
pub open spec fn pending_cell(t: TagView) -> Pending<Seq<char>> {
    Pending {
        row: t.number_or("row"@, 1) as u32,
        col: t.number_or("col"@, 1) as u32,
        value: t.text_or("value"@, Seq::empty()),
        cell_type: t.text_or("type"@, "s"@),
        rowspan: t.number_or("rowspan"@, 1) as u32,
        colspan: t.number_or("colspan"@, 1) as u32,
        fmt: None,
    }
}

/// Whether an attribute says `true`.
pub open spec fn flag(t: TagView, name: Seq<char>) -> bool {
    t.attribute(name) == Some("true"@)
}

/// The format that a `format` tag describes.
pub open spec fn cell_fmt(t: TagView, readings: Seq<FloatReading<Seq<char>>>) -> CellFmt<
    Seq<char>,
> {
    CellFmt {
        bold: flag(t, "bold"@),
        italic: flag(t, "italic"@),
        underline: flag(t, "underline"@),
        font_size: match number_of(readings, t.attribute("fontSize"@)) {
            Some(n) => n,
            None => Number { shown: "11"@, positive: true },
        },
        font_name: t.text_or("fontName"@, "Calibri"@),
        font_color: t.text_or("fontColor"@, "FF000000"@),
        bg_color: match t.attribute("bgColor"@) {
            Some(c) => if c.len() > 0 {
                Some(c)
            } else {
                None
            },
            None => None,
        },
        halign: t.text_or("halign"@, Seq::empty()),
        valign: t.text_or("valign"@, Seq::empty()),
        wrap_text: flag(t, "wrapText"@),
        indent: t.number_or("indent"@, 0) as u32,
        border_top: t.text_or("borderTop"@, "none"@),
        border_bottom: t.text_or("borderBottom"@, "none"@),
        border_left: t.text_or("borderLeft"@, "none"@),
        border_right: t.text_or("borderRight"@, "none"@),
        num_fmt: t.text_or("numFmt"@, "General"@),
    }
}

/// The image that an `image` tag describes, where its data can be decoded.
pub open spec fn image_op(t: TagView) -> Option<ImageOp<Seq<u8>>> {
    let text = t.text_or("data"@, Seq::empty());
    match base64_bytes(text) {
        Some(data) => if text.len() > 0 {
            Some(
                ImageOp {
                    row: less_one(t.number_or("row"@, 1)),
                    col: less_one(t.number_or("col"@, 1)),
                    data,
                },
            )
        } else {
            None
        },
        None => None,
    }
}

/// Where the first range that begins at a cell stands; the number of ranges where none does.
pub open spec fn merge_at(merges: Seq<MergeOp<Seq<char>>>, row: u32, col: u32) -> int
    decreases merges.len(),
{
    if merges.len() == 0 || (merges[0].r1 == row && merges[0].c1 == col) {
        0
    } else {
        1 + merge_at(merges.skip(1), row, col)
    }
}

/// The ranges with the value and the format of a cell in the first that begins at it.
pub open spec fn filled_merges(
    merges: Seq<MergeOp<Seq<char>>>,
    p: Pending<Seq<char>>,
) -> Seq<MergeOp<Seq<char>>> {
    let i = merge_at(merges, p.row, p.col);
    if i < merges.len() {
        merges.update(i, MergeOp { value: p.value, fmt: p.fmt, ..merges[i] })
    } else {
        merges
    }
}

/// A sheet with one more cell: one that spans others goes to its merged range.
pub open spec fn with_cell(ops: OpsView, p: Pending<Seq<char>>) -> OpsView {
    if p.rowspan > 1 || p.colspan > 1 {
        OpsView { merges: filled_merges(ops.merges, p), ..ops }
    } else {
        OpsView {
            cells: ops.cells.push(
                CellOp {
                    row: p.row,
                    col: p.col,
                    value: p.value,
                    cell_type: p.cell_type,
                    fmt: p.fmt,
                },
            ),
            ..ops
        }
    }
}

/// What is known once a cell is complete.
pub open spec fn cell_done(s: ExportState, p: Option<Pending<Seq<char>>>) -> ExportState {
    ExportState {
        pending: None,
        cur: match (p, s.cur) {
            (Some(p), Some(ops)) => Some(with_cell(ops, p)),
            _ => s.cur,
        },
        ..s
    }
}

/// What is known after something was added to the open sheet.
pub open spec fn in_sheet(s: ExportState, ops: OpsView) -> ExportState {
    ExportState { cur: Some(ops), ..s }
}

/// What is known after something that belongs to a sheet stood outside of any.
pub open spec fn outside_sheet(s: ExportState) -> ExportState {
    ExportState { lost: true, ..s }
}

/// What is known after a start tag or an empty tag. An empty `cell` tag is a complete cell.
#[verifier::opaque]
pub open spec fn export_tag(
    s: ExportState,
    t: TagView,
    empty: bool,
    readings: Seq<FloatReading<Seq<char>>>,
) -> ExportState {
    if t.name == "sheet"@ && s.cur is None && t.attribute("ref"@) is None {
        ExportState {
            cur: Some(empty_ops(t.text_or("name"@, "Sheet"@))),
            sec: Sec::Outside,
            ..s
        }
    } else if sec_named(t.name) is Some {
        ExportState { sec: sec_named(t.name)->0, ..s }
    } else if t.name == "col"@ && s.sec == Sec::ColWidths {
        match s.cur {
            Some(ops) => in_sheet(
                s,
                OpsView { col_ops: ops.col_ops.push(col_op(t, readings)), ..ops },
            ),
            None => outside_sheet(s),
        }
    } else if t.name == "row"@ && s.sec == Sec::RowHeights {
        match s.cur {
            Some(ops) => in_sheet(
                s,
                OpsView { row_ops: ops.row_ops.push(row_op(t, readings)), ..ops },
            ),
            None => outside_sheet(s),
        }
    } else if t.name == "row"@ && s.sec == Sec::Rows {
        ExportState { sec: Sec::RowsRow, ..s }
    } else if t.name == "merge"@ && s.sec == Sec::Merges {
        match s.cur {
            Some(ops) => in_sheet(s, OpsView { merges: ops.merges.push(merge_op(t)), ..ops }),
            None => outside_sheet(s),
        }
    } else if t.name == "cell"@ && s.sec == Sec::RowsRow {
        if empty {
            cell_done(s, Some(pending_cell(t)))
        } else {
            ExportState { pending: Some(pending_cell(t)), ..s }
        }
    } else if t.name == "format"@ {
        match s.pending {
            Some(p) => ExportState {
                pending: Some(Pending { fmt: Some(cell_fmt(t, readings)), ..p }),
                ..s
            },
            None => s,
        }
    } else if t.name == "image"@ && s.sec == Sec::Images {
        match image_op(t) {
            Some(image) => match s.cur {
                Some(ops) => in_sheet(
                    s,
                    OpsView { image_ops: ops.image_ops.push(image), ..ops },
                ),
                None => outside_sheet(s),
            },
            None => s,
        }
    } else {
        s
    }
}

/// What is known after an end tag.
#[verifier::opaque]
pub open spec fn export_end(s: ExportState, name: Seq<char>) -> ExportState {
    if name == "cell"@ {
        cell_done(s, s.pending)
    } else if name == "row"@ && s.sec == Sec::RowsRow {
        ExportState { sec: Sec::Rows, ..s }
    } else if sec_named(name) is Some {
        ExportState { sec: Sec::Outside, ..s }
    } else if name == "sheet"@ {
        ExportState {
            sheets: match s.cur {
                Some(ops) => s.sheets.push(ops),
                None => s.sheets,
            },
            cur: None,
            sec: Sec::Outside,
            ..s
        }
    } else {
        s
    }
}

/// What is known after one more event. Nothing more is learned once something was lost.
#[verifier::opaque]
pub open spec fn export_step(
    s: ExportState,
    e: EventView,
    readings: Seq<FloatReading<Seq<char>>>,
) -> ExportState {
    if s.lost {
        s
    } else {
        match e {
            EventView::Start(t) => export_tag(s, t, false, readings),
            EventView::Empty(t) => export_tag(s, t, true, readings),
            EventView::End(n) => export_end(s, n),
            _ => s,
        }
    }
}

/// What is known after some events, from what was known before.
pub open spec fn export_run(
    s: ExportState,
    events: Seq<EventView>,
    readings: Seq<FloatReading<Seq<char>>>,
) -> ExportState
    decreases events.len(),
{
    if events.len() == 0 {
        s
    } else {
        export_step(export_run(s, events.drop_last(), readings), events.last(), readings)
    }
}

/// Whether everything that belongs to a sheet stands in one.
pub open spec fn sheets_hold_all(
    events: Seq<EventView>,
    readings: Seq<FloatReading<Seq<char>>>,
) -> bool {
    !export_run(export_start(), events, readings).lost
}

/// The sheets that some events describe. A sheet counts once its end tag has been read.
pub open spec fn restored(
    events: Seq<EventView>,
    readings: Seq<FloatReading<Seq<char>>>,
) -> Seq<OpsView> {
    export_run(export_start(), events, readings).sheets
}

/// Whether an `image` tag has data that cannot be decoded.
pub open spec fn is_unread(t: TagView) -> bool {
    let text = t.text_or("data"@, Seq::empty());
    text.len() > 0 && base64_bytes(text) is None
}

/// Where a tag that is read in a state describes an image that is left out because its data
/// cannot be decoded: the row and the column that it gives.
pub open spec fn unread_at(s: ExportState, t: TagView) -> Option<(u32, u32)> {
    if !s.lost && s.sec == Sec::Images && t.name == "image"@ && is_unread(t) {
        Some((t.number_or("row"@, 1) as u32, t.number_or("col"@, 1) as u32))
    } else {
        None
    }
}

/// Places with one more, if there is one.
pub open spec fn with_place(places: Seq<(u32, u32)>, place: Option<(u32, u32)>) -> Seq<
    (u32, u32),
> {
    match place {
        Some(p) => places.push(p),
        None => places,
    }
}

/// The places of the images that are left out because their data cannot be decoded.
pub open spec fn unread_images(
    events: Seq<EventView>,
    readings: Seq<FloatReading<Seq<char>>>,
) -> Seq<(u32, u32)>
    decreases events.len(),
{
    if events.len() == 0 {
        Seq::empty()
    } else {
        let before = unread_images(events.drop_last(), readings);
        let s = export_run(export_start(), events.drop_last(), readings);
        match events.last() {
            EventView::Start(t) => with_place(before, unread_at(s, t)),
            EventView::Empty(t) => with_place(before, unread_at(s, t)),
            _ => before,
        }
    }
}

/// Whether a tag is that of a sheet, and not of another element with the same name.
pub open spec fn names_sheet(t: TagView) -> bool {
    t.name == "sheet"@ && t.attribute("ref"@) is None
}

/// Whether a sheet is open after some events in which sheets follow one another; nothing where
/// they do not: where one stands in another, is an empty tag, or ends without having begun.
pub open spec fn sheet_open(events: Seq<EventView>) -> Option<bool>
    decreases events.len(),
{
    if events.len() == 0 {
        Some(false)
    } else {
        match sheet_open(events.drop_last()) {
            None => None,
            Some(open) => match events.last() {
                EventView::Start(t) => if t.name != "sheet"@ {
                    Some(open)
                } else if names_sheet(t) && !open {
                    Some(true)
                } else {
                    None
                },
                EventView::Empty(t) => if t.name != "sheet"@ {
                    Some(open)
                } else {
                    None
                },
                EventView::End(n) => if n != "sheet"@ {
                    Some(open)
                } else if open {
                    Some(false)
                } else {
                    None
                },
                _ => Some(open),
            },
        }
    }
}

/// The names of the sheets among some events, in their order.
pub open spec fn sheet_names(events: Seq<EventView>) -> Seq<Seq<char>>
    decreases events.len(),
{
    if events.len() == 0 {
        Seq::empty()
    } else {
        let before = sheet_names(events.drop_last());
        match events.last() {
            EventView::Start(t) => if names_sheet(t) {
                before.push(t.text_or("name"@, "Sheet"@))
            } else {
                before
            },
            _ => before,
        }
    }
}

/// The names of sheets.
pub open spec fn ops_names(sheets: Seq<OpsView>) -> Seq<Seq<char>> {
    Seq::new(sheets.len(), |i: int| sheets[i].name)
}

/// The names of the sheets that are known, the open one last.
spec fn known_names(s: ExportState) -> Seq<Seq<char>> {
    match s.cur {
        Some(ops) => ops_names(s.sheets).push(ops.name),
        None => ops_names(s.sheets),
    }
}

/// Tags and end tags other than those of sheets keep the sheets and the name of the open one.
proof fn lemma_names_stay(
    s: ExportState,
    t: TagView,
    empty: bool,
    name: Seq<char>,
    readings: Seq<FloatReading<Seq<char>>>,
)
    ensures
        t.name != "sheet"@ ==> ({
            let after = export_tag(s, t, empty, readings);
            &&& after.sheets == s.sheets
            &&& after.cur is Some <==> s.cur is Some
            &&& s.cur matches Some(ops) ==> after.cur->0.name == ops.name
        }),
        name != "sheet"@ ==> ({
            let after = export_end(s, name);
            &&& after.sheets == s.sheets
            &&& after.cur is Some <==> s.cur is Some
            &&& s.cur matches Some(ops) ==> after.cur->0.name == ops.name
        }),
{
    reveal(export_tag);
    reveal(export_end);
}

/// What the names of sheets are while they are being read.
proof fn lemma_known_names(events: Seq<EventView>, readings: Seq<FloatReading<Seq<char>>>)
    requires
        sheet_open(events) is Some,
        sheets_hold_all(events, readings),
    ensures
        ({
            let s = export_run(export_start(), events, readings);
            &&& known_names(s) == sheet_names(events)
            &&& s.cur is Some <==> sheet_open(events) == Some(true)
        }),
    decreases events.len(),
{
    let s = export_run(export_start(), events, readings);
    if events.len() == 0 {
        assert(known_names(s) =~= sheet_names(events));
    } else {
        reveal(export_step);
        let before = export_run(export_start(), events.drop_last(), readings);
        lemma_known_names(events.drop_last(), readings);
        reveal_strlit("sheet");
        reveal_strlit("cell");
        reveal_strlit("row");
        reveal_strlit("rows");
        reveal_strlit("colWidths");
        reveal_strlit("rowHeights");
        reveal_strlit("merges");
        reveal_strlit("images");
        assert("sheet"@.len() == 5 && "cell"@.len() == 4 && "row"@.len() == 3);
        assert("rows"@.len() == 4 && "colWidths"@.len() == 9 && "rowHeights"@.len() == 10);
        assert("merges"@.len() == 6 && "images"@.len() == 6);
        match events.last() {
            EventView::Start(t) => {
                lemma_names_stay(before, t, false, t.name, readings);
                reveal(export_tag);
                assert(known_names(s) =~= sheet_names(events));
            },
            EventView::Empty(t) => {
                lemma_names_stay(before, t, true, t.name, readings);
                assert(known_names(s) =~= sheet_names(events));
            },
            EventView::End(n) => {
                lemma_names_stay(
                    before,
                    TagView { name: n, attributes: Seq::empty(), unique: Seq::empty() },
                    false,
                    n,
                    readings,
                );
                reveal(export_end);
                assert(known_names(s) =~= sheet_names(events));
            },
            _ => {
                assert(known_names(s) =~= sheet_names(events));
            },
        }
    }
}

/// The sheets of a document in which they follow one another are restored under their names, in
/// the order of the document.
pub proof fn law_sheets_in_document_order(
    events: Seq<EventView>,
    readings: Seq<FloatReading<Seq<char>>>,
)
    requires
        sheet_open(events) == Some(false),
        sheets_hold_all(events, readings),
    ensures
        ops_names(restored(events, readings)) == sheet_names(events),
{
    lemma_known_names(events, readings);
}

/// The section that a name stands for.
fn find_sec(name: &str) -> (r: Option<Sec>)
    ensures
        r == sec_named(name@),
{
    if same(name, "colWidths") {
        Some(Sec::ColWidths)
    } else if same(name, "rowHeights") {
        Some(Sec::RowHeights)
    } else if same(name, "merges") {
        Some(Sec::Merges)
    } else if same(name, "rows") {
        Some(Sec::Rows)
    } else if same(name, "images") {
        Some(Sec::Images)
    } else {
        None
    }
}

/// The column that a `col` tag describes.
fn read_col(t: &Tag, readings: &[FloatReading]) -> (r: ColOp)
    ensures
        r@ == col_op(t@, readings_view(readings@)),
{
    ColOp {
        index: t.number_or("index", 1).saturating_sub(1),
        width: match read_number(readings, &t.attribute("width")) {
            Some(n) => n.shown,
            None => "8.43".to_owned(),
        },
        hidden: t.says("hidden", "true"),
    }
}

/// The row that a `row` tag describes.
fn read_row(t: &Tag, readings: &[FloatReading]) -> (r: RowOp)
    ensures
        r@ == row_op(t@, readings_view(readings@)),
{
    RowOp {
        index: t.number_or("index", 1).saturating_sub(1),
        height: match read_number(readings, &t.attribute("height")) {
            Some(n) => n.shown,
            None => "15".to_owned(),
        },
        hidden: t.says("hidden", "true"),
    }
}

/// The range that a `merge` tag describes.
fn read_merge(t: &Tag) -> (r: MergeOp)
    ensures
        r@ == merge_op(t@),
{
    let r1: u32 = t.number_or("startRow", 1);
    let c1: u32 = t.number_or("startCol", 1);
    MergeOp {
        r1,
        c1,
        r2: t.number_or("endRow", r1),
        c2: t.number_or("endCol", c1),
        value: String::new(),
        fmt: None,
    }
}

/// The empty text.
proof fn lemma_no_text()
    ensures
        ""@ == Seq::<char>::empty(),
{
    reveal_strlit("");
    assert(""@ =~= Seq::<char>::empty());
}

/// The cell that a `cell` tag describes.
fn read_cell(t: &Tag) -> (r: Pending)
    ensures
        r@ == pending_cell(t@),
{
    proof {
        lemma_no_text();
    }
    Pending {
        row: t.number_or("row", 1),
        col: t.number_or("col", 1),
        value: t.text_or("value", ""),
        cell_type: t.text_or("type", "s"),
        rowspan: t.number_or("rowspan", 1),
        colspan: t.number_or("colspan", 1),
        fmt: None,
    }
}

/// The format that a `format` tag describes.
fn read_fmt(t: &Tag, readings: &[FloatReading]) -> (r: CellFmt)
    ensures
        r@ == cell_fmt(t@, readings_view(readings@)),
{
    proof {
        lemma_no_text();
    }
    CellFmt {
        bold: t.says("bold", "true"),
        italic: t.says("italic", "true"),
        underline: t.says("underline", "true"),
        font_size: match read_number(readings, &t.attribute("fontSize")) {
            Some(n) => n,
            None => Number { shown: "11".to_owned(), positive: true },
        },
        font_name: t.text_or("fontName", "Calibri"),
        font_color: t.text_or("fontColor", "FF000000"),
        bg_color: match t.attribute("bgColor") {
            Some(c) => {
                if c.as_str().is_empty() {
                    None
                } else {
                    Some(c)
                }
            },
            None => None,
        },
        halign: t.text_or("halign", ""),
        valign: t.text_or("valign", ""),
        wrap_text: t.says("wrapText", "true"),
        indent: t.number_or("indent", 0),
        border_top: t.text_or("borderTop", "none"),
        border_bottom: t.text_or("borderBottom", "none"),
        border_left: t.text_or("borderLeft", "none"),
        border_right: t.text_or("borderRight", "none"),
        num_fmt: t.text_or("numFmt", "General"),
    }
}

/// The image that an `image` tag describes.
fn read_image(t: &Tag) -> (r: Option<ImageOp>)
    ensures
        match r {
            Some(i) => image_op(t@) == Some(i@),
            None => image_op(t@) is None,
        },
{
    proof {
        lemma_no_text();
    }
    let text = t.text_or("data", "");
    if text.as_str().is_empty() {
        return None;
    }
    match decode_base64(text.as_str()) {
        Some(data) => Some(
            ImageOp {
                row: t.number_or("row", 1).saturating_sub(1),
                col: t.number_or("col", 1).saturating_sub(1),
                data,
            },
        ),
        None => None,
    }
}

impl SheetOps {
    /// The sheet with a name and nothing else.
    fn named(name: String) -> (r: SheetOps)
        ensures
            r@ == empty_ops(name@),
    {
        let r = SheetOps {
            name,
            col_ops: Vec::new(),
            row_ops: Vec::new(),
            merges: Vec::new(),
            cells: Vec::new(),
            image_ops: Vec::new(),
        };
        assert(r@ =~= empty_ops(name@));
        r
    }

    /// Adds a column.
    fn push_col(&mut self, op: ColOp)
        ensures
            final(self)@ == (OpsView { col_ops: old(self)@.col_ops.push(op@), ..old(self)@ }),
    {
        self.col_ops.push(op);
        assert(self@.col_ops =~= old(self)@.col_ops.push(op@));
    }

    /// Adds a row.
    fn push_row(&mut self, op: RowOp)
        ensures
            final(self)@ == (OpsView { row_ops: old(self)@.row_ops.push(op@), ..old(self)@ }),
    {
        self.row_ops.push(op);
        assert(self@.row_ops =~= old(self)@.row_ops.push(op@));
    }

    /// Adds a range.
    fn push_merge(&mut self, op: MergeOp)
        ensures
            final(self)@ == (OpsView { merges: old(self)@.merges.push(op@), ..old(self)@ }),
    {
        self.merges.push(op);
        assert(self@.merges =~= old(self)@.merges.push(op@));
    }

    /// Adds an image.
    fn push_image(&mut self, op: ImageOp)
        ensures
            final(self)@ == (OpsView { image_ops: old(self)@.image_ops.push(op@), ..old(self)@ }),
    {
        self.image_ops.push(op);
        assert(self@.image_ops =~= old(self)@.image_ops.push(op@));
    }

    /// Where the first range that begins at a cell stands.
    fn find_merge(&self, row: u32, col: u32) -> (r: usize)
        ensures
            r == merge_at(self@.merges, row, col),
            r <= self.merges@.len(),
    {
        let ghost all = self@.merges;
        assert(all.skip(0) =~= all);
        for i in 0..self.merges.len()
            invariant
                all == self@.merges,
                merge_at(all, row, col) == i + merge_at(all.skip(i as int), row, col),
        {
            assert(all.skip(i as int)[0] == self.merges@[i as int]@);
            assert(all.skip(i as int).skip(1) =~= all.skip(i + 1));
            if self.merges[i].r1 == row && self.merges[i].c1 == col {
                return i;
            }
        }
        self.merges.len()
    }

    /// Adds a cell.
    fn take_cell(&mut self, p: Pending)
        ensures
            final(self)@ == with_cell(old(self)@, p@),
    {
        let ghost pv = p@;
        if p.rowspan > 1 || p.colspan > 1 {
            let i: usize = self.find_merge(p.row, p.col);
            if i < self.merges.len() {
                let m = MergeOp {
                    r1: self.merges[i].r1,
                    c1: self.merges[i].c1,
                    r2: self.merges[i].r2,
                    c2: self.merges[i].c2,
                    value: p.value,
                    fmt: p.fmt,
                };
                self.merges.set(i, m);
            }
            assert(self@.merges =~= filled_merges(old(self)@.merges, pv));
        } else {
            let c = CellOp {
                row: p.row,
                col: p.col,
                value: p.value,
                cell_type: p.cell_type,
                fmt: p.fmt,
            };
            let ghost cv = c@;
            self.cells.push(c);
            assert(self@.cells =~= old(self)@.cells.push(cv));
        }
    }
}

/// A document while it is being read back.
struct Exporter {
    sheets: Vec<SheetOps>,
    cur: Option<SheetOps>,
    sec: Sec,
    pending: Option<Pending>,
    lost: bool,
}

/// What an optional sheet holds.
spec fn cur_view(cur: Option<SheetOps>) -> Option<OpsView> {
    match cur {
        Some(ops) => Some(ops@),
        None => None,
    }
}

/// What an optional cell holds.
spec fn pending_view(p: Option<Pending>) -> Option<Pending<Seq<char>>> {
    match p {
        Some(p) => Some(p@),
        None => None,
    }
}

impl Exporter {
    spec fn state(self) -> ExportState {
        ExportState {
            sheets: ops_view(self.sheets@),
            cur: cur_view(self.cur),
            sec: self.sec,
            pending: pending_view(self.pending),
            lost: self.lost,
        }
    }

    /// Takes in a complete cell.
    fn take_cell(&mut self, p: Option<Pending>)
        ensures
            final(self).state() == cell_done(old(self).state(), pending_view(p)),
    {
        self.pending = None;
        if let Some(p) = p {
            if let Some(mut ops) = self.cur.take() {
                ops.take_cell(p);
                self.cur = Some(ops);
            }
        }
    }

    /// Takes in a `col` tag.
    fn col_tag(&mut self, t: &Tag, readings: &[FloatReading])
        ensures
            final(self).state() == (match old(self).state().cur {
                Some(ops) => in_sheet(
                    old(self).state(),
                    OpsView {
                        col_ops: ops.col_ops.push(col_op(t@, readings_view(readings@))),
                        ..ops
                    },
                ),
                None => outside_sheet(old(self).state()),
            }),
    {
        match self.cur.take() {
            Some(mut ops) => {
                ops.push_col(read_col(t, readings));
                self.cur = Some(ops);
            },
            None => {
                self.lost = true;
            },
        }
    }

    /// Takes in a `row` tag among the row heights.
    fn row_tag(&mut self, t: &Tag, readings: &[FloatReading])
        ensures
            final(self).state() == (match old(self).state().cur {
                Some(ops) => in_sheet(
                    old(self).state(),
                    OpsView {
                        row_ops: ops.row_ops.push(row_op(t@, readings_view(readings@))),
                        ..ops
                    },
                ),
                None => outside_sheet(old(self).state()),
            }),
    {
        match self.cur.take() {
            Some(mut ops) => {
                ops.push_row(read_row(t, readings));
                self.cur = Some(ops);
            },
            None => {
                self.lost = true;
            },
        }
    }

    /// Takes in a `merge` tag.
    fn merge_tag(&mut self, t: &Tag)
        ensures
            final(self).state() == (match old(self).state().cur {
                Some(ops) => in_sheet(
                    old(self).state(),
                    OpsView { merges: ops.merges.push(merge_op(t@)), ..ops },
                ),
                None => outside_sheet(old(self).state()),
            }),
    {
        match self.cur.take() {
            Some(mut ops) => {
                ops.push_merge(read_merge(t));
                self.cur = Some(ops);
            },
            None => {
                self.lost = true;
            },
        }
    }

    /// Takes in an `image` tag.
    fn image_tag(&mut self, t: &Tag)
        ensures
            final(self).state() == (match image_op(t@) {
                Some(image) => match old(self).state().cur {
                    Some(ops) => in_sheet(
                        old(self).state(),
                        OpsView { image_ops: ops.image_ops.push(image), ..ops },
                    ),
                    None => outside_sheet(old(self).state()),
                },
                None => old(self).state(),
            }),
    {
        if let Some(image) = read_image(t) {
            match self.cur.take() {
                Some(mut ops) => {
                    ops.push_image(image);
                    self.cur = Some(ops);
                },
                None => {
                    self.lost = true;
                },
            }
        }
    }

    /// Takes in a `format` tag.
    fn format_tag(&mut self, t: &Tag, readings: &[FloatReading])
        ensures
            final(self).state() == (match old(self).state().pending {
                Some(p) => ExportState {
                    pending: Some(
                        Pending { fmt: Some(cell_fmt(t@, readings_view(readings@))), ..p },
                    ),
                    ..old(self).state()
                },
                None => old(self).state(),
            }),
    {
        if let Some(mut p) = self.pending.take() {
            p.fmt = Some(read_fmt(t, readings));
            self.pending = Some(p);
        }
    }

    /// Takes in a start tag or an empty tag.
    fn tag(&mut self, t: &Tag, empty: bool, readings: &[FloatReading])
        ensures
            final(self).state() == export_tag(
                old(self).state(),
                t@,
                empty,
                readings_view(readings@),
            ),
    {
        reveal(export_tag);
        if t.is("sheet") && self.cur.is_none() && t.attribute("ref").is_none() {
            self.cur = Some(SheetOps::named(t.text_or("name", "Sheet")));
            self.sec = Sec::Outside;
        } else if let Some(sec) = find_sec(t.name.as_str()) {
            self.sec = sec;
        } else if t.is("col") && self.sec == Sec::ColWidths {
            self.col_tag(t, readings);
        } else if t.is("row") && self.sec == Sec::RowHeights {
            self.row_tag(t, readings);
        } else if t.is("row") && self.sec == Sec::Rows {
            self.sec = Sec::RowsRow;
        } else if t.is("merge") && self.sec == Sec::Merges {
            self.merge_tag(t);
        } else if t.is("cell") && self.sec == Sec::RowsRow {
            let p = read_cell(t);
            if empty {
                self.take_cell(Some(p));
            } else {
                self.pending = Some(p);
            }
        } else if t.is("format") {
            self.format_tag(t, readings);
        } else if t.is("image") && self.sec == Sec::Images {
            self.image_tag(t);
        }
    }

    /// Takes in an end tag.
    fn end(&mut self, name: &str)
        ensures
            final(self).state() == export_end(old(self).state(), name@),
    {
        reveal(export_end);
        if same(name, "cell") {
            let p = self.pending.take();
            self.take_cell(p);
        } else if same(name, "row") && self.sec == Sec::RowsRow {
            self.sec = Sec::Rows;
        } else if find_sec(name).is_some() {
            self.sec = Sec::Outside;
        } else if same(name, "sheet") {
            if let Some(ops) = self.cur.take() {
                let ghost before = ops_view(self.sheets@);
                let ghost ov = ops@;
                self.sheets.push(ops);
                assert(ops_view(self.sheets@) =~= before.push(ov));
            }
            self.sec = Sec::Outside;
        }
    }

    /// The reader at the beginning.
    fn new() -> (r: Exporter)
        ensures
            r.state() == export_start(),
    {
        let r = Exporter {
            sheets: Vec::new(),
            cur: None,
            sec: Sec::Outside,
            pending: None,
            lost: false,
        };
        assert(r.state() =~= export_start());
        r
    }

    /// Takes in an event, unless something was lost before.
    fn step(&mut self, event: &XmlEvent, readings: &[FloatReading])
        ensures
            final(self).state() == export_step(
                old(self).state(),
                event@,
                readings_view(readings@),
            ),
    {
        reveal(export_step);
        if !self.lost {
            match event {
                XmlEvent::Start(t) => self.tag(t, false, readings),
                XmlEvent::Empty(t) => self.tag(t, true, readings),
                XmlEvent::End(n) => self.end(n.as_str()),
                _ => {},
            }
        }
    }

    /// Where a tag describes an image that is left out.
    fn unread(&self, t: &Tag) -> (r: Option<(u32, u32)>)
        ensures
            r == unread_at(self.state(), t@),
    {
        proof {
            lemma_no_text();
        }
        if self.lost || self.sec != Sec::Images || !t.is("image") {
            return None;
        }
        let text = t.text_or("data", "");
        if text.as_str().is_empty() || decode_base64(text.as_str()).is_some() {
            None
        } else {
            Some((t.number_or("row", 1), t.number_or("col", 1)))
        }
    }

    /// Takes in all events, or those up to where something is lost.
    fn run(events: &[XmlEvent], readings: &[FloatReading]) -> (r: Exporter)
        ensures
            r.state() == export_run(
                export_start(),
                events_view(events@),
                readings_view(readings@),
            ),
    {
        let mut exporter = Exporter::new();
        let ghost all = events_view(events@);
        let ghost table = readings_view(readings@);
        assert(all.take(0) =~= Seq::<EventView>::empty());
        for i in 0..events.len()
            invariant
                all == events_view(events@),
                table == readings_view(readings@),
                exporter.state() == export_run(export_start(), all.take(i as int), table),
        {
            assert(all.take(i + 1).drop_last() =~= all.take(i as int));
            assert(all.take(i + 1).last() == events@[i as int]@);
            exporter.step(&events[i], readings);
        }
        assert(all.take(all.len() as int) =~= all);
        exporter
    }
}

/// The sheets that the events of a document describe; nothing where something that belongs to
/// a sheet stands outside of any.
pub fn sheets_in(events: &[XmlEvent], readings: &[FloatReading]) -> (r: Option<
    Vec<SheetOps>,
>)
    ensures
        match r {
            Some(sheets) => sheets_hold_all(events_view(events@), readings_view(readings@))
                && ops_view(sheets@) == restored(events_view(events@), readings_view(readings@)),
            None => !sheets_hold_all(events_view(events@), readings_view(readings@)),
        },
{
    let exporter = Exporter::run(events, readings);
    if exporter.lost {
        None
    } else {
        Some(exporter.sheets)
    }
}

/// The places of the images in the events of a document that are left out because their data
/// cannot be decoded.
pub fn unread_images_in(events: &[XmlEvent], readings: &[FloatReading]) -> (r: Vec<(u32, u32)>)
    ensures
        r@ == unread_images(events_view(events@), readings_view(readings@)),
{
    let mut exporter = Exporter::new();
    let mut places: Vec<(u32, u32)> = Vec::new();
    let ghost all = events_view(events@);
    let ghost table = readings_view(readings@);
    assert(all.take(0) =~= Seq::<EventView>::empty());
    for i in 0..events.len()
        invariant
            all == events_view(events@),
            table == readings_view(readings@),
            exporter.state() == export_run(export_start(), all.take(i as int), table),
            places@ == unread_images(all.take(i as int), table),
    {
        assert(all.take(i + 1).drop_last() =~= all.take(i as int));
        assert(all.take(i + 1).last() == events@[i as int]@);
        let place: Option<(u32, u32)> = match &events[i] {
            XmlEvent::Start(t) => exporter.unread(t),
            XmlEvent::Empty(t) => exporter.unread(t),
            _ => None,
        };
        if let Some(p) = place {
            places.push(p);
        }
        exporter.step(&events[i], readings);
    }
    assert(all.take(all.len() as int) =~= all);
    places
}

/// The places of the images in a document that an export leaves out because their data cannot
/// be decoded: the row and the column that each gives.
pub fn find_unread_images(xml: &[u8], readings: &[FloatReading]) -> (r: Vec<(u32, u32)>)
    ensures
        r@ == unread_images(xml_events(xml@, true), readings_view(readings@)),
{
    let document = read_document(xml, true);
    unread_images_in(document.events.as_slice(), readings)
}

} // verus!
