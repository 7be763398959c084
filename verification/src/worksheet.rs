//! Reading a worksheet of an xlsx file.

use vstd::prelude::*;

use crate::archive::Entries;
use crate::cellref::{
    behind_colon, cell_ref_to_row_col, lemma_ref_fits, merge_corners, parse_merge_ref, range_end,
    ref_col, ref_row,
};
use crate::drawing::{drawing_images, parse_images_for_drawing};
use crate::fidelity::keeps_images;
use crate::floats::{number_of, read_number, readings_view, FloatReading};
use crate::sheet::{
    covering, empty_sheet, find_covering, format_view, lemma_covering, span, with_span, with_spans,
    Cell, CellFormat, ColWidth, Merge, RowHeight, SheetView, WorksheetData,
};
use crate::styles::{CellXf, Styles, StylesView};
use crate::text::{first_of, parse_usize, parsed, same, texts, trim, trimmed};
use crate::xml::{events_view, read_document, xml_events, EventView, Tag, TagView, XmlEvent};

verus! {

/// The part of a worksheet that is being read.
#[derive(PartialEq, Eq, Structural, Clone, Copy)]
pub enum SheetSection {
    Outside,
    Cols,
    SheetData,
    MergeCells,
}

/// A worksheet while it is being read.
#[verifier::ext_equal]
pub struct ReadState {
    pub sheet: SheetView,
    pub section: SheetSection,
    pub row: u32,
    pub col: u32,
    pub style: Option<usize>,
    pub cell_type: Seq<char>,
    pub in_v: bool,
    pub in_t: bool,
    /// Whether a phonetic run is being read.
    pub phonetic: bool,
    /// Whether the text gathered so far is that of `t` elements.
    pub runs: bool,
    /// Whether the cell has an element that gives it a value.
    pub valued: bool,
    pub value: Seq<char>,
    pub drawing: bool,
}

/// What is known at the beginning.
pub open spec fn read_start(name: Seq<char>) -> ReadState {
    ReadState {
        sheet: empty_sheet(name),
        section: SheetSection::Outside,
        row: 0,
        col: 0,
        style: None,
        cell_type: Seq::empty(),
        in_v: false,
        in_t: false,
        phonetic: false,
        runs: false,
        valued: false,
        value: Seq::empty(),
        drawing: false,
    }
}

/// The section that a tag or an end tag of this name stands for.
pub open spec fn section_named(name: Seq<char>) -> Option<SheetSection> {
    if name == "cols"@ {
        Some(SheetSection::Cols)
    } else if name == "sheetData"@ {
        Some(SheetSection::SheetData)
    } else if name == "mergeCells"@ {
        Some(SheetSection::MergeCells)
    } else {
        None
    }
}

/// The greater of two numbers.
pub open spec fn larger(a: u32, b: u32) -> u32 {
    if a > b {
        a
    } else {
        b
    }
}

/// The columns that a `col` tag describes, one by one.
pub open spec fn col_range(t: TagView, readings: Seq<FloatReading<Seq<char>>>) -> Seq<
    ColWidth<Seq<char>>,
> {
    let min = t.number_or("min"@, 1);
    let max = t.number_or("max"@, min);
    let width = match number_of(readings, t.attribute("width"@)) {
        Some(n) => n.shown,
        None => "8.43"@,
    };
    let count: nat = if min <= max {
        (max - min + 1) as nat
    } else {
        0
    };
    Seq::new(
        count,
        |i: int|
            ColWidth {
                index: (min + i) as u32,
                width,
                hidden: t.attribute("hidden"@) == Some("1"@),
            },
    )
}

/// The worksheet after a `dimension` tag.
pub open spec fn dimension_step(s: SheetView, t: TagView) -> SheetView {
    match t.attribute("ref"@) {
        Some(r) => match behind_colon(r) {
            Some(end) => SheetView {
                max_row: ref_row(end) as u32,
                max_col: ref_col(end) as u32,
                ..s
            },
            None => s,
        },
        None => s,
    }
}

/// The height that a `row` tag gives a row: its own if it is greater than zero, 15 for a
/// hidden row. It counts only where it is marked as the row's own or the row is hidden.
pub open spec fn row_height(t: TagView, readings: Seq<FloatReading<Seq<char>>>) -> Option<
    RowHeight<Seq<char>>,
> {
    let ht = number_of(readings, t.attribute("ht"@));
    let tall = ht is Some && ht->0.positive;
    let hidden = t.attribute("hidden"@) == Some("1"@);
    if hidden || (tall && t.attribute("customHeight"@) == Some("1"@)) {
        Some(
            RowHeight {
                index: t.number_or("r"@, 0) as u32,
                height: if tall {
                    ht->0.shown
                } else {
                    "15"@
                },
                hidden,
            },
        )
    } else {
        None
    }
}

/// What is known after a `row` tag.
pub open spec fn row_step(
    s: ReadState,
    t: TagView,
    readings: Seq<FloatReading<Seq<char>>>,
) -> ReadState {
    let row = t.number_or("r"@, 0) as u32;
    match row_height(t, readings) {
        Some(h) => ReadState {
            sheet: SheetView {
                row_heights: s.sheet.row_heights.push(h),
                max_row: larger(row, s.sheet.max_row),
                ..s.sheet
            },
            row,
            ..s
        },
        None => ReadState { row, ..s },
    }
}

/// What is known after a `c` tag.
pub open spec fn cell_step(s: ReadState, t: TagView) -> ReadState {
    let moved = match t.attribute("r"@) {
        Some(r) => {
            let row = ref_row(r) as u32;
            let col = ref_col(r) as u32;
            ReadState {
                row,
                col,
                sheet: SheetView {
                    max_row: larger(row, s.sheet.max_row),
                    max_col: larger(col, s.sheet.max_col),
                    ..s.sheet
                },
                ..s
            }
        },
        None => s,
    };
    ReadState {
        style: match t.number("s"@, usize::MAX as nat) {
            Some(n) => Some(n as usize),
            None => None,
        },
        cell_type: t.text_or("t"@, "n"@),
        value: Seq::empty(),
        in_v: false,
        in_t: false,
        phonetic: false,
        runs: false,
        valued: false,
        ..moved
    }
}

/// What is known after a `t` tag. The runs of a cell's inline text are joined; those that only
/// say how it is read aloud are left out. What a `v` element said before is given up.
pub open spec fn run_step(s: ReadState) -> ReadState {
    if s.phonetic {
        s
    } else {
        ReadState {
            in_t: true,
            runs: true,
            valued: true,
            value: if s.runs {
                s.value
            } else {
                Seq::empty()
            },
            ..s
        }
    }
}

/// The merged ranges after a `mergeCell` tag.
pub open spec fn merge_step(merges: Seq<Merge<Seq<char>>>, t: TagView) -> Seq<Merge<Seq<char>>> {
    match t.attribute("ref"@) {
        Some(r) => match merge_corners(r) {
            Some((r1, c1, r2, c2)) => merges.push(
                Merge {
                    ref_str: r,
                    start_row: r1 as u32,
                    start_col: c1 as u32,
                    end_row: r2 as u32,
                    end_col: c2 as u32,
                },
            ),
            None => merges,
        },
        None => merges,
    }
}

/// What is known after a start tag.
#[verifier::opaque]
pub open spec fn tag_step(
    s: ReadState,
    t: TagView,
    readings: Seq<FloatReading<Seq<char>>>,
) -> ReadState {
    let data = s.section == SheetSection::SheetData;
    if t.name == "dimension"@ {
        ReadState { sheet: dimension_step(s.sheet, t), ..s }
    } else if section_named(t.name) is Some {
        ReadState { section: section_named(t.name)->0, ..s }
    } else if t.name == "col"@ && s.section == SheetSection::Cols {
        ReadState {
            sheet: SheetView {
                col_widths: s.sheet.col_widths + col_range(t, readings),
                ..s.sheet
            },
            ..s
        }
    } else if t.name == "row"@ && data {
        row_step(s, t, readings)
    } else if t.name == "c"@ && data {
        cell_step(s, t)
    } else if t.name == "v"@ && data {
        ReadState { in_v: true, runs: false, valued: true, value: Seq::empty(), ..s }
    } else if t.name == "rPh"@ && data {
        ReadState { phonetic: true, ..s }
    } else if t.name == "t"@ && data {
        run_step(s)
    } else if t.name == "mergeCell"@ && s.section == SheetSection::MergeCells {
        ReadState {
            sheet: SheetView { merges: merge_step(s.sheet.merges, t), ..s.sheet },
            ..s
        }
    } else if t.name == "drawing"@ {
        ReadState { drawing: t.qualified("id"@) is Some, ..s }
    } else {
        s
    }
}

/// How a truth value is written.
pub open spec fn truth_text(b: bool) -> Seq<char> {
    if b {
        "TRUE"@
    } else {
        "FALSE"@
    }
}

/// The value of a cell, from its type and its text: a shared string by its number, a truth
/// value by 1, inline text as it stands, anything else without white space around it.
pub open spec fn cell_value(
    cell_type: Seq<char>,
    text: Seq<char>,
    shared: Seq<Seq<char>>,
) -> Seq<char> {
    if cell_type == "s"@ {
        let n = match parsed(trimmed(text), usize::MAX as nat) {
            Some(n) => n,
            None => 0,
        };
        if n < shared.len() {
            shared[n as int]
        } else {
            text
        }
    } else if cell_type == "b"@ {
        truth_text(trimmed(text) == "1"@)
    } else if cell_type == "inlineStr"@ {
        text
    } else {
        trimmed(text)
    }
}

/// The type of a cell in the handover document, from its type in the worksheet.
pub open spec fn plain_type(cell_type: Seq<char>) -> Seq<char> {
    if cell_type == "s"@ || cell_type == "inlineStr"@ || cell_type == "str"@ || cell_type == "e"@ {
        "s"@
    } else if cell_type == "b"@ {
        "b"@
    } else {
        "n"@
    }
}

/// A text, or another one where it is empty.
pub open spec fn text_or_else(s: Seq<char>, other: Seq<char>) -> Seq<char> {
    if s.len() == 0 {
        other
    } else {
        s
    }
}

/// How a cell with a cell format looks.
pub open spec fn xf_format(styles: StylesView, xf: CellXf<Seq<char>>) -> CellFormat<Seq<char>> {
    let font = styles.font(xf.font_id);
    let border = styles.border(xf.border_id);
    CellFormat {
        bold: font.bold,
        italic: font.italic,
        underline: font.underline,
        font_size: if font.size.positive {
            font.size.shown
        } else {
            "11"@
        },
        font_name: text_or_else(font.name, "Calibri"@),
        font_color: text_or_else(font.color, "FF000000"@),
        bg_color: styles.fill(xf.fill_id).bg_color,
        halign: xf.alignment.horizontal,
        valign: xf.alignment.vertical,
        wrap_text: xf.alignment.wrap_text,
        indent: xf.alignment.indent,
        border_top: border.top,
        border_bottom: border.bottom,
        border_left: border.left,
        border_right: border.right,
        num_fmt: styles.num_fmt(xf.num_fmt_id),
    }
}

/// How a cell with a style number looks; nothing where there is no such style.
pub open spec fn style_format(styles: StylesView, style: Option<usize>) -> Option<
    CellFormat<Seq<char>>,
> {
    match style {
        Some(n) => if n < styles.cell_xfs.len() {
            Some(xf_format(styles, styles.cell_xfs[n as int]))
        } else {
            None
        },
        None => None,
    }
}

/// The cell that ends at this point. A cell without an element that gives it a value has the
/// empty one.
pub open spec fn ended_cell(
    s: ReadState,
    shared: Seq<Seq<char>>,
    styles: StylesView,
) -> Cell<Seq<char>> {
    let m = covering(s.sheet.merges, s.row, s.col);
    Cell {
        row: s.row,
        col: s.col,
        value: if s.valued {
            cell_value(s.cell_type, s.value, shared)
        } else {
            Seq::empty()
        },
        cell_type: plain_type(s.cell_type),
        rowspan: if m is Some {
            span(m->0).0 as u32
        } else {
            1
        },
        colspan: if m is Some {
            span(m->0).1 as u32
        } else {
            1
        },
        format: style_format(styles, s.style),
    }
}

/// Whether a cell that ends at this point is kept: it says something, and no merged range
/// known so far hides it behind its first cell.
pub open spec fn kept(s: ReadState, c: Cell<Seq<char>>) -> bool {
    let m = covering(s.sheet.merges, s.row, s.col);
    &&& m is Some ==> s.row == m->0.start_row && s.col == m->0.start_col
    &&& says_something(c)
}

/// What is known after an end tag.
#[verifier::opaque]
pub open spec fn end_step(
    s: ReadState,
    name: Seq<char>,
    shared: Seq<Seq<char>>,
    styles: StylesView,
) -> ReadState {
    if section_named(name) is Some {
        ReadState { section: SheetSection::Outside, ..s }
    } else if name == "v"@ {
        ReadState { in_v: false, ..s }
    } else if name == "t"@ {
        ReadState { in_t: false, ..s }
    } else if name == "rPh"@ {
        ReadState { phonetic: false, ..s }
    } else if name == "c"@ && s.section == SheetSection::SheetData {
        let c = ended_cell(s, shared, styles);
        if kept(s, c) {
            ReadState { sheet: SheetView { cells: s.sheet.cells.push(c), ..s.sheet }, ..s }
        } else {
            s
        }
    } else {
        s
    }
}

/// Whether an empty tag of this name is an element that begins and ends there: a cell, or a
/// piece of its inline text.
pub open spec fn ends_at_once(name: Seq<char>) -> bool {
    name == "c"@ || name == "t"@ || name == "rPh"@
}

/// What is known after an empty tag.
pub open spec fn empty_step(
    s: ReadState,
    t: TagView,
    shared: Seq<Seq<char>>,
    styles: StylesView,
    readings: Seq<FloatReading<Seq<char>>>,
) -> ReadState {
    let begun = tag_step(s, t, readings);
    if ends_at_once(t.name) {
        end_step(begun, t.name, shared, styles)
    } else {
        begun
    }
}

/// What is known after one more event.
pub open spec fn read_step(
    s: ReadState,
    e: EventView,
    shared: Seq<Seq<char>>,
    styles: StylesView,
    readings: Seq<FloatReading<Seq<char>>>,
) -> ReadState {
    match e {
        EventView::Start(t) => tag_step(s, t, readings),
        EventView::Empty(t) => empty_step(s, t, shared, styles, readings),
        EventView::Text(text) => if (s.in_v || s.in_t) && text is Some {
            ReadState { value: s.value + text->0, ..s }
        } else {
            s
        },
        EventView::End(n) => end_step(s, n, shared, styles),
        EventView::Other => s,
    }
}

/// What is known after some events.
pub open spec fn read_state(
    events: Seq<EventView>,
    name: Seq<char>,
    shared: Seq<Seq<char>>,
    styles: StylesView,
    readings: Seq<FloatReading<Seq<char>>>,
) -> ReadState
    decreases events.len(),
{
    if events.len() == 0 {
        read_start(name)
    } else {
        read_step(
            read_state(events.drop_last(), name, shared, styles, readings),
            events.last(),
            shared,
            styles,
            readings,
        )
    }
}

/// The worksheet that some events describe, without its images.
pub open spec fn sheet_of(
    events: Seq<EventView>,
    name: Seq<char>,
    shared: Seq<Seq<char>>,
    styles: StylesView,
    readings: Seq<FloatReading<Seq<char>>>,
) -> SheetView {
    let s = read_state(events, name, shared, styles, readings).sheet;
    SheetView { cells: with_spans(s.cells, s.merges), ..s }
}

/// Whether every merged range of a worksheet begins at a cell.
pub open spec fn merges_at_cells(merges: Seq<Merge<Seq<char>>>) -> bool {
    forall|i: int|
        0 <= i < merges.len() ==> (#[trigger] merges[i]).start_row > 0 && merges[i].start_col > 0
}

/// Whether a cell says something: a value, a format, or that it spans others.
pub open spec fn says_something(c: Cell<Seq<char>>) -> bool {
    c.value.len() > 0 || c.format is Some || c.rowspan > 1 || c.colspan > 1
}

/// Whether what has been read of a worksheet is in order.
spec fn read_well(s: SheetView) -> bool {
    &&& merges_at_cells(s.merges)
    &&& forall|i: int|
        0 <= i < s.cells.len() ==> says_something(#[trigger] s.cells[i]) && s.cells[i].rowspan > 0
            && s.cells[i].colspan > 0
    &&& s.images.len() == 0
}

/// A `mergeCell` tag adds only ranges that begin at a cell.
proof fn lemma_merge_step(merges: Seq<Merge<Seq<char>>>, t: TagView)
    requires
        merges_at_cells(merges),
    ensures
        merges_at_cells(merge_step(merges, t)),
{
    let after = merge_step(merges, t);
    if let Some(r) = t.attribute("ref"@) {
        let a = r.take(first_of(r, ':'));
        lemma_ref_fits(a);
    }
    assert forall|i: int| 0 <= i < after.len() implies (#[trigger] after[i]).start_row > 0
        && after[i].start_col > 0 by {
        if i < merges.len() {
            assert(after[i] == merges[i]);
        }
    }
}

/// What has been read stays in order after a start tag.
proof fn lemma_tag_well(s: ReadState, t: TagView, readings: Seq<FloatReading<Seq<char>>>)
    requires
        read_well(s.sheet),
    ensures
        read_well(tag_step(s, t, readings).sheet),
{
    reveal(tag_step);
    lemma_merge_step(s.sheet.merges, t);
    assert(tag_step(s, t, readings).sheet.cells == s.sheet.cells);
}

/// What has been read stays in order after an end tag.
proof fn lemma_end_well(
    s: ReadState,
    name: Seq<char>,
    shared: Seq<Seq<char>>,
    styles: StylesView,
)
    requires
        read_well(s.sheet),
    ensures
        read_well(end_step(s, name, shared, styles).sheet),
{
    reveal(end_step);
    let c = ended_cell(s, shared, styles);
    let after = end_step(s, name, shared, styles).sheet;
    lemma_covering(s.sheet.merges, s.row, s.col);
    assert(kept(s, c) ==> says_something(c) && c.rowspan > 0 && c.colspan > 0);
    assert forall|i: int| 0 <= i < after.cells.len() implies says_something(
        #[trigger] after.cells[i],
    ) && after.cells[i].rowspan > 0 && after.cells[i].colspan > 0 by {
        if i < s.sheet.cells.len() {
            assert(after.cells[i] == s.sheet.cells[i]);
        } else {
            assert(after.cells[i] == c);
        }
    }
}

/// While a worksheet is being read, it is in order.
proof fn lemma_read_well(
    events: Seq<EventView>,
    name: Seq<char>,
    shared: Seq<Seq<char>>,
    styles: StylesView,
    readings: Seq<FloatReading<Seq<char>>>,
)
    ensures
        read_well(read_state(events, name, shared, styles, readings).sheet),
    decreases events.len(),
{
    if events.len() > 0 {
        lemma_read_well(events.drop_last(), name, shared, styles, readings);
        let before = read_state(events.drop_last(), name, shared, styles, readings);
        match events.last() {
            EventView::Start(t) => {
                lemma_tag_well(before, t, readings);
            },
            EventView::Empty(t) => {
                lemma_tag_well(before, t, readings);
                lemma_end_well(tag_step(before, t, readings), t.name, shared, styles);
            },
            EventView::End(n) => {
                lemma_end_well(before, n, shared, styles);
            },
            _ => {},
        }
    }
}

/// While a worksheet is being read, every merged range begins at a cell, and every cell that
/// is kept says something.
pub proof fn law_sheet_in_order(
    events: Seq<EventView>,
    name: Seq<char>,
    shared: Seq<Seq<char>>,
    styles: StylesView,
    readings: Seq<FloatReading<Seq<char>>>,
)
    ensures
        ({
            let s = read_state(events, name, shared, styles, readings).sheet;
            &&& merges_at_cells(s.merges)
            &&& forall|i: int| 0 <= i < s.cells.len() ==> says_something(#[trigger] s.cells[i])
        }),
{
    lemma_read_well(events, name, shared, styles, readings);
}

/// In a worksheet that has been read, every cell spans at least itself.
pub proof fn law_spans_are_positive(
    events: Seq<EventView>,
    name: Seq<char>,
    shared: Seq<Seq<char>>,
    styles: StylesView,
    readings: Seq<FloatReading<Seq<char>>>,
)
    ensures
        ({
            let s = sheet_of(events, name, shared, styles, readings);
            forall|i: int|
                0 <= i < s.cells.len() ==> (#[trigger] s.cells[i]).rowspan > 0 && s.cells[i].colspan
                    > 0
        }),
{
    let s = read_state(events, name, shared, styles, readings).sheet;
    lemma_read_well(events, name, shared, styles, readings);
    let cells = with_spans(s.cells, s.merges);
    assert forall|i: int| 0 <= i < cells.len() implies (#[trigger] cells[i]).rowspan > 0
        && cells[i].colspan > 0 by {
        assert(s.cells[i].rowspan > 0);
        lemma_covering(s.merges, s.cells[i].row, s.cells[i].col);
    }
}

/// A cell that is written as an empty tag is the cell that begins and ends there. It has the
/// format of its style, and no value.
pub proof fn law_empty_cell_is_complete(
    s: ReadState,
    t: TagView,
    shared: Seq<Seq<char>>,
    styles: StylesView,
    readings: Seq<FloatReading<Seq<char>>>,
)
    requires
        s.section == SheetSection::SheetData,
        t.name == "c"@,
    ensures
        read_step(s, EventView::Empty(t), shared, styles, readings) == read_step(
            read_step(s, EventView::Start(t), shared, styles, readings),
            EventView::End(t.name),
            shared,
            styles,
            readings,
        ),
        ({
            let begun = read_step(s, EventView::Start(t), shared, styles, readings);
            let c = ended_cell(begun, shared, styles);
            &&& begun == cell_step(s, t)
            &&& c.value.len() == 0
            &&& c.format == style_format(styles, begun.style)
            &&& kept(begun, c) ==> read_step(s, EventView::Empty(t), shared, styles, readings)
                == (ReadState {
                sheet: SheetView { cells: begun.sheet.cells.push(c), ..begun.sheet },
                ..begun
            })
        }),
{
    lemma_cell_tag(s, t, readings);
    reveal(end_step);
    lemma_run_names();
    assert(section_named(t.name) is None);
}

/// Texts, joined.
pub open spec fn joined(runs: Seq<Seq<char>>) -> Seq<char>
    decreases runs.len(),
{
    if runs.len() == 0 {
        Seq::empty()
    } else {
        joined(runs.drop_last()) + runs.last()
    }
}

/// The events of some texts in runs: each in a `t` element of its own, and this in an `r`
/// element of its own if there is one.
pub open spec fn run_events(r: Option<TagView>, t: TagView, runs: Seq<Seq<char>>) -> Seq<EventView>
    decreases runs.len(),
{
    if runs.len() == 0 {
        Seq::empty()
    } else {
        let run = seq![
            EventView::Start(t),
            EventView::Text(Some(runs.last())),
            EventView::End(t.name),
        ];
        run_events(r, t, runs.drop_last()) + (match r {
            Some(r) => seq![EventView::Start(r)] + run + seq![EventView::End(r.name)],
            None => run,
        })
    }
}

/// The events of inline text: its runs, inside an `is` element.
pub open spec fn inline_events(
    is: TagView,
    r: Option<TagView>,
    t: TagView,
    runs: Seq<Seq<char>>,
) -> Seq<EventView> {
    seq![EventView::Start(is)] + run_events(r, t, runs) + seq![EventView::End(is.name)]
}

/// The names of a cell, its inline text, a run and a text are none of the others.
proof fn lemma_run_names()
    ensures
        forall|n: Seq<char>|
            #![trigger section_named(n)]
            n == "c"@ || n == "r"@ || n == "t"@ || n == "is"@ ==> {
                &&& section_named(n) is None
                &&& n != "dimension"@ && n != "col"@ && n != "row"@ && n != "v"@
                &&& n != "rPh"@ && n != "mergeCell"@ && n != "drawing"@
            },
        "c"@ != "t"@,
        "c"@ != "r"@,
        "r"@ != "t"@,
        "is"@ != "c"@,
        "is"@ != "t"@,
{
    reveal_strlit("c");
    reveal_strlit("r");
    reveal_strlit("t");
    reveal_strlit("v");
    reveal_strlit("is");
    reveal_strlit("dimension");
    reveal_strlit("cols");
    reveal_strlit("sheetData");
    reveal_strlit("mergeCells");
    reveal_strlit("col");
    reveal_strlit("row");
    reveal_strlit("rPh");
    reveal_strlit("mergeCell");
    reveal_strlit("drawing");
    assert("c"@[0] == 'c' && "r"@[0] == 'r' && "t"@[0] == 't' && "v"@[0] == 'v');
    assert("dimension"@.len() == 9 && "cols"@.len() == 4 && "sheetData"@.len() == 9);
    assert("mergeCells"@.len() == 10 && "col"@.len() == 3 && "row"@.len() == 3);
    assert("rPh"@.len() == 3 && "mergeCell"@.len() == 9 && "drawing"@.len() == 7);
    assert("c"@.len() == 1 && "r"@.len() == 1 && "t"@.len() == 1 && "v"@.len() == 1);
    assert("is"@.len() == 2);
}

/// A `c` tag begins a cell.
proof fn lemma_cell_tag(s: ReadState, c: TagView, readings: Seq<FloatReading<Seq<char>>>)
    requires
        s.section == SheetSection::SheetData,
        c.name == "c"@,
    ensures
        tag_step(s, c, readings) == cell_step(s, c),
{
    reveal(tag_step);
    lemma_run_names();
    assert(section_named(c.name) is None);
}

/// Whether a tag stands around text and says nothing of its own.
spec fn is_wrapper(t: TagView) -> bool {
    t.name == "r"@ || t.name == "is"@
}

/// Tags that stand around text change nothing.
proof fn lemma_wrapper(
    s: ReadState,
    w: TagView,
    shared: Seq<Seq<char>>,
    styles: StylesView,
    readings: Seq<FloatReading<Seq<char>>>,
)
    requires
        is_wrapper(w),
    ensures
        tag_step(s, w, readings) == s,
        end_step(s, w.name, shared, styles) == s,
{
    reveal(tag_step);
    reveal(end_step);
    lemma_run_names();
    assert(section_named(w.name) is None);
}

/// The tags around the text of a run.
proof fn lemma_run_tags(
    s: ReadState,
    t: TagView,
    shared: Seq<Seq<char>>,
    styles: StylesView,
    readings: Seq<FloatReading<Seq<char>>>,
)
    requires
        t.name == "t"@,
    ensures
        s.section == SheetSection::SheetData ==> tag_step(s, t, readings) == run_step(s),
        end_step(s, t.name, shared, styles) == (ReadState { in_t: false, ..s }),
{
    reveal(tag_step);
    reveal(end_step);
    lemma_run_names();
    assert(section_named(t.name) is None);
}

/// One event more.
proof fn lemma_next_event(
    events: Seq<EventView>,
    e: EventView,
    name: Seq<char>,
    shared: Seq<Seq<char>>,
    styles: StylesView,
    readings: Seq<FloatReading<Seq<char>>>,
)
    ensures
        read_state(events.push(e), name, shared, styles, readings) == read_step(
            read_state(events, name, shared, styles, readings),
            e,
            shared,
            styles,
            readings,
        ),
{
    assert(events.push(e).drop_last() =~= events);
}

/// What runs come to behind the beginning of a cell.
proof fn lemma_runs(
    first: Seq<EventView>,
    r: Option<TagView>,
    t: TagView,
    runs: Seq<Seq<char>>,
    name: Seq<char>,
    shared: Seq<Seq<char>>,
    styles: StylesView,
    readings: Seq<FloatReading<Seq<char>>>,
)
    requires
        ({
            let s = read_state(first, name, shared, styles, readings);
            &&& s.section == SheetSection::SheetData
            &&& !s.in_t && !s.in_v && !s.phonetic && !s.runs && !s.valued
            &&& s.value == Seq::<char>::empty()
        }),
        r matches Some(r) ==> is_wrapper(r),
        t.name == "t"@,
    ensures
        read_state(first + run_events(r, t, runs), name, shared, styles, readings) == (ReadState {
            value: joined(runs),
            runs: runs.len() > 0,
            valued: runs.len() > 0,
            ..read_state(first, name, shared, styles, readings)
        }),
    decreases runs.len(),
{
    let s = read_state(first, name, shared, styles, readings);
    let all = first + run_events(r, t, runs);
    if runs.len() == 0 {
        assert(all =~= first);
    } else {
        let x = runs.last();
        lemma_runs(first, r, t, runs.drop_last(), name, shared, styles, readings);
        let e0 = first + run_events(r, t, runs.drop_last());
        let s0 = read_state(e0, name, shared, styles, readings);
        let e1 = match r {
            Some(r) => e0.push(EventView::Start(r)),
            None => e0,
        };
        if let Some(r) = r {
            lemma_wrapper(s0, r, shared, styles, readings);
            lemma_next_event(e0, EventView::Start(r), name, shared, styles, readings);
        }
        let e2 = e1.push(EventView::Start(t));
        let e3 = e2.push(EventView::Text(Some(x)));
        let e4 = e3.push(EventView::End(t.name));
        let s2 = run_step(s0);
        let s3 = ReadState { value: s2.value + x, ..s2 };
        let s4 = ReadState { in_t: false, ..s3 };
        lemma_run_tags(s0, t, shared, styles, readings);
        lemma_run_tags(s3, t, shared, styles, readings);
        lemma_next_event(e1, EventView::Start(t), name, shared, styles, readings);
        lemma_next_event(e2, EventView::Text(Some(x)), name, shared, styles, readings);
        lemma_next_event(e3, EventView::End(t.name), name, shared, styles, readings);
        assert(s2.value =~= joined(runs.drop_last()));
        assert(read_state(e4, name, shared, styles, readings) == s4);
        match r {
            Some(r) => {
                lemma_wrapper(s4, r, shared, styles, readings);
                lemma_next_event(e4, EventView::End(r.name), name, shared, styles, readings);
                assert(all =~= e4.push(EventView::End(r.name)));
            },
            None => {
                assert(all =~= e4);
            },
        }
    }
}

/// The inline text of a cell is that of all its runs, joined, whether or not each stands in an
/// element of its own.
pub proof fn law_inline_runs_are_joined(
    events: Seq<EventView>,
    c: TagView,
    is: TagView,
    r: Option<TagView>,
    t: TagView,
    runs: Seq<Seq<char>>,
    name: Seq<char>,
    shared: Seq<Seq<char>>,
    styles: StylesView,
    readings: Seq<FloatReading<Seq<char>>>,
)
    requires
        read_state(events, name, shared, styles, readings).section == SheetSection::SheetData,
        c.name == "c"@,
        is.name == "is"@,
        r matches Some(r) ==> r.name == "r"@,
        t.name == "t"@,
        c.attribute("t"@) == Some("inlineStr"@),
    ensures
        ({
            let before = read_state(events, name, shared, styles, readings);
            let all = events.push(EventView::Start(c)) + inline_events(is, r, t, runs);
            let s = read_state(all, name, shared, styles, readings);
            &&& s == (ReadState {
                value: joined(runs),
                runs: runs.len() > 0,
                valued: runs.len() > 0,
                ..cell_step(before, c)
            })
            &&& ended_cell(s, shared, styles).value == joined(runs)
        }),
{
    let before = read_state(events, name, shared, styles, readings);
    let first = events.push(EventView::Start(c));
    let opened = first.push(EventView::Start(is));
    let filled = opened + run_events(r, t, runs);
    lemma_cell_tag(before, c, readings);
    lemma_next_event(events, EventView::Start(c), name, shared, styles, readings);
    lemma_wrapper(cell_step(before, c), is, shared, styles, readings);
    lemma_next_event(first, EventView::Start(is), name, shared, styles, readings);
    lemma_runs(opened, r, t, runs, name, shared, styles, readings);
    let s = read_state(filled, name, shared, styles, readings);
    lemma_wrapper(s, is, shared, styles, readings);
    lemma_next_event(filled, EventView::End(is.name), name, shared, styles, readings);
    assert(first + inline_events(is, r, t, runs) =~= filled.push(EventView::End(is.name)));
    lemma_inline_value(joined(runs), shared);
}

/// Inline text is the value of its cell.
proof fn lemma_inline_value(text: Seq<char>, shared: Seq<Seq<char>>)
    ensures
        cell_value("inlineStr"@, text, shared) == text,
{
    reveal_strlit("inlineStr");
    reveal_strlit("s");
    reveal_strlit("b");
    assert("inlineStr"@.len() == 9 && "s"@.len() == 1 && "b"@.len() == 1);
}

/// The worksheet in the bytes of a part, with the images of the workbook if it has a drawing.
pub open spec fn worksheet(
    data: Seq<u8>,
    name: Seq<char>,
    shared: Seq<Seq<char>>,
    styles: StylesView,
    parts: Seq<(Seq<char>, Seq<u8>)>,
    readings: Seq<FloatReading<Seq<char>>>,
) -> SheetView {
    let events = xml_events(data, false);
    let s = sheet_of(events, name, shared, styles, readings);
    if read_state(events, name, shared, styles, readings).drawing {
        SheetView { images: drawing_images(parts, readings), ..s }
    } else {
        s
    }
}

/// A worksheet while it is being read.
struct SheetReader {
    sheet: WorksheetData,
    section: SheetSection,
    row: u32,
    col: u32,
    style: Option<usize>,
    cell_type: String,
    in_v: bool,
    in_t: bool,
    phonetic: bool,
    runs: bool,
    valued: bool,
    value: String,
    drawing: bool,
}

/// Whether the first corner of every merged range is a cell.
spec fn merges_begin(merges: Seq<Merge>) -> bool {
    forall|i: int|
        0 <= i < merges.len() ==> (#[trigger] merges[i]).start_row > 0 && merges[i].start_col > 0
}

/// The section that a name stands for.
fn find_section(name: &str) -> (r: Option<SheetSection>)
    ensures
        r == section_named(name@),
{
    if same(name, "cols") {
        Some(SheetSection::Cols)
    } else if same(name, "sheetData") {
        Some(SheetSection::SheetData)
    } else if same(name, "mergeCells") {
        Some(SheetSection::MergeCells)
    } else {
        None
    }
}

/// The value of a cell, from its type and its text.
pub fn read_cell_value(cell_type: &str, text: &str, shared: &[String]) -> (r: String)
    ensures
        r@ == cell_value(cell_type@, text@, texts(shared@)),
{
    if same(cell_type, "s") {
        let n: usize = match parse_usize(trim(text).as_str()) {
            Some(n) => n,
            None => 0,
        };
        if n < shared.len() {
            shared[n].clone()
        } else {
            text.to_owned()
        }
    } else if same(cell_type, "b") {
        if same(trim(text).as_str(), "1") {
            "TRUE".to_owned()
        } else {
            "FALSE".to_owned()
        }
    } else if same(cell_type, "inlineStr") {
        text.to_owned()
    } else {
        trim(text)
    }
}

/// The type of a cell in the handover document.
fn read_plain_type(cell_type: &str) -> (r: String)
    ensures
        r@ == plain_type(cell_type@),
{
    let s = if same(cell_type, "s") || same(cell_type, "inlineStr") || same(cell_type, "str")
        || same(cell_type, "e") {
        "s"
    } else if same(cell_type, "b") {
        "b"
    } else {
        "n"
    };
    s.to_owned()
}

/// A text, or another one where it is empty.
fn filled(s: String, other: &str) -> (r: String)
    ensures
        r@ == text_or_else(s@, other@),
{
    if s.as_str().is_empty() {
        other.to_owned()
    } else {
        s
    }
}

/// How a cell with a style number looks.
pub fn cell_format(styles: &Styles, style: Option<usize>) -> (r: Option<CellFormat>)
    ensures
        format_view(r) == style_format(styles@, style),
{
    let n: usize = match style {
        Some(n) => n,
        None => {
            return None;
        },
    };
    match styles.get_xf(n) {
        Some(xf) => {
            let font = styles.font(xf.font_id);
            let fill = styles.fill(xf.fill_id);
            let border = styles.border(xf.border_id);
            Some(
                CellFormat {
                    bold: font.bold,
                    italic: font.italic,
                    underline: font.underline,
                    font_size: if font.size.positive {
                        font.size.shown
                    } else {
                        "11".to_owned()
                    },
                    font_name: filled(font.name, "Calibri"),
                    font_color: filled(font.color, "FF000000"),
                    bg_color: fill.bg_color,
                    halign: xf.alignment.horizontal.clone(),
                    valign: xf.alignment.vertical.clone(),
                    wrap_text: xf.alignment.wrap_text,
                    indent: xf.alignment.indent,
                    border_top: border.top,
                    border_bottom: border.bottom,
                    border_left: border.left,
                    border_right: border.right,
                    num_fmt: styles.num_fmt(xf.num_fmt_id),
                },
            )
        },
        None => None,
    }
}

impl SheetReader {
    spec fn state(self) -> ReadState {
        ReadState {
            sheet: self.sheet@,
            section: self.section,
            row: self.row,
            col: self.col,
            style: self.style,
            cell_type: self.cell_type@,
            in_v: self.in_v,
            in_t: self.in_t,
            phonetic: self.phonetic,
            runs: self.runs,
            valued: self.valued,
            value: self.value@,
            drawing: self.drawing,
        }
    }

    /// Takes in a `dimension` tag.
    fn dimension(&mut self, t: &Tag)
        requires
            merges_begin(old(self).sheet.merges@),
        ensures
            merges_begin(final(self).sheet.merges@),
            final(self).state() == (ReadState {
                sheet: dimension_step(old(self).sheet@, t@),
                ..old(self).state()
            }),
    {
        if let Some(r) = t.attribute("ref") {
            if let Some((row, col)) = range_end(r.as_str()) {
                self.sheet.max_row = row;
                self.sheet.max_col = col;
            }
        }
    }

    /// Takes in a `col` tag.
    fn col_tag(&mut self, t: &Tag, readings: &[FloatReading])
        requires
            merges_begin(old(self).sheet.merges@),
        ensures
            merges_begin(final(self).sheet.merges@),
            final(self).state() == (ReadState {
                sheet: SheetView {
                    col_widths: old(self).sheet@.col_widths + col_range(
                        t@,
                        readings_view(readings@),
                    ),
                    ..old(self).sheet@
                },
                ..old(self).state()
            }),
    {
        let min: u32 = t.number_or("min", 1);
        let max: u32 = t.number_or("max", min);
        let width = match read_number(readings, &t.attribute("width")) {
            Some(n) => n.shown,
            None => "8.43".to_owned(),
        };
        let hidden = t.says("hidden", "1");
        let ghost range = col_range(t@, readings_view(readings@));
        let ghost before = self.sheet@.col_widths;
        assert(before + range.take(0) =~= before);
        if min <= max {
            let mut index: u32 = min;
            loop
                invariant_except_break
                    min <= index <= max,
                    self.sheet@.col_widths == before + range.take(index - min),
                invariant
                    range == col_range(t@, readings_view(readings@)),
                    min == t@.number_or("min"@, 1),
                    max == t@.number_or("max"@, min as nat),
                    min <= max,
                    width@ == (match number_of(readings_view(readings@), t@.attribute("width"@)) {
                        Some(n) => n.shown,
                        None => "8.43"@,
                    }),
                    hidden == (t@.attribute("hidden"@) == Some("1"@)),
                    merges_begin(self.sheet.merges@),
                    self.state() == (ReadState {
                        sheet: SheetView {
                            col_widths: self.sheet@.col_widths,
                            ..old(self).sheet@
                        },
                        ..old(self).state()
                    }),
                ensures
                    self.sheet@.col_widths == before + range,
                decreases max - index,
            {
                let ghost seen = self.sheet@.col_widths;
                self.sheet.col_widths.push(ColWidth { index, width: width.clone(), hidden });
                proof {
                    assert(range.len() == max - min + 1);
                    let c = range[index - min];
                    assert(self.sheet@.col_widths =~= seen.push(c));
                    assert(seen.push(c) =~= before + range.take(index - min + 1));
                }
                if index == max {
                    assert(range.take(range.len() as int) =~= range);
                    break ;
                }
                index = index + 1;
            }
        } else {
            assert(range =~= Seq::<ColWidth<Seq<char>>>::empty());
            assert(before + range =~= before);
        }
        assert(self.state() =~= (ReadState {
            sheet: SheetView { col_widths: before + range, ..old(self).sheet@ },
            ..old(self).state()
        }));
    }

    /// Takes in a `row` tag.
    fn row_tag(&mut self, t: &Tag, readings: &[FloatReading])
        requires
            merges_begin(old(self).sheet.merges@),
        ensures
            merges_begin(final(self).sheet.merges@),
            final(self).state() == row_step(old(self).state(), t@, readings_view(readings@)),
    {
        self.row = t.number_or("r", 0);
        let ht = read_number(readings, &t.attribute("ht"));
        let tall = match &ht {
            Some(n) => n.positive,
            None => false,
        };
        let hidden = t.says("hidden", "1");
        if hidden || (tall && t.says("customHeight", "1")) {
            let height = match ht {
                Some(n) => {
                    if n.positive {
                        n.shown
                    } else {
                        "15".to_owned()
                    }
                },
                None => "15".to_owned(),
            };
            let ghost before = self.sheet@.row_heights;
            let h = RowHeight { index: self.row, height, hidden };
            let ghost hv = h@;
            self.sheet.row_heights.push(h);
            assert(self.sheet@.row_heights =~= before.push(hv));
            if self.row > self.sheet.max_row {
                self.sheet.max_row = self.row;
            }
        }
    }

    /// Takes in a `c` tag.
    fn cell_tag(&mut self, t: &Tag)
        requires
            merges_begin(old(self).sheet.merges@),
        ensures
            merges_begin(final(self).sheet.merges@),
            final(self).state() == cell_step(old(self).state(), t@),
    {
        if let Some(r) = t.attribute("r") {
            let (row, col) = cell_ref_to_row_col(r.as_str());
            self.row = row;
            self.col = col;
            if row > self.sheet.max_row {
                self.sheet.max_row = row;
            }
            if col > self.sheet.max_col {
                self.sheet.max_col = col;
            }
        }
        self.style = t.index("s");
        self.cell_type = t.text_or("t", "n");
        self.value = String::new();
        self.in_v = false;
        self.in_t = false;
        self.phonetic = false;
        self.runs = false;
        self.valued = false;
    }

    /// Takes in a `t` tag.
    fn run_tag(&mut self)
        requires
            merges_begin(old(self).sheet.merges@),
        ensures
            merges_begin(final(self).sheet.merges@),
            final(self).state() == run_step(old(self).state()),
    {
        if !self.phonetic {
            if !self.runs {
                self.value = String::new();
            }
            self.in_t = true;
            self.runs = true;
            self.valued = true;
        }
    }

    /// Takes in a `mergeCell` tag.
    fn merge_tag(&mut self, t: &Tag)
        requires
            merges_begin(old(self).sheet.merges@),
        ensures
            merges_begin(final(self).sheet.merges@),
            final(self).state() == (ReadState {
                sheet: SheetView {
                    merges: merge_step(old(self).sheet@.merges, t@),
                    ..old(self).sheet@
                },
                ..old(self).state()
            }),
    {
        if let Some(r) = t.attribute("ref") {
            if let Some((r1, c1, r2, c2)) = parse_merge_ref(r.as_str()) {
                let ghost before = self.sheet@.merges;
                let m = Merge {
                    ref_str: r,
                    start_row: r1,
                    start_col: c1,
                    end_row: r2,
                    end_col: c2,
                };
                let ghost mv = m@;
                self.sheet.merges.push(m);
                assert(self.sheet@.merges =~= before.push(mv));
            }
        }
    }

    /// Takes in a start tag.
    fn tag(&mut self, t: &Tag, readings: &[FloatReading])
        requires
            merges_begin(old(self).sheet.merges@),
        ensures
            merges_begin(final(self).sheet.merges@),
            final(self).state() == tag_step(old(self).state(), t@, readings_view(readings@)),
    {
        reveal(tag_step);
        if t.is("dimension") {
            self.dimension(t);
        } else if let Some(section) = find_section(t.name.as_str()) {
            self.section = section;
        } else if t.is("col") && self.section == SheetSection::Cols {
            self.col_tag(t, readings);
        } else if t.is("row") && self.section == SheetSection::SheetData {
            self.row_tag(t, readings);
        } else if t.is("c") && self.section == SheetSection::SheetData {
            self.cell_tag(t);
        } else if t.is("v") && self.section == SheetSection::SheetData {
            self.in_v = true;
            self.runs = false;
            self.valued = true;
            self.value = String::new();
        } else if t.is("rPh") && self.section == SheetSection::SheetData {
            self.phonetic = true;
        } else if t.is("t") && self.section == SheetSection::SheetData {
            self.run_tag();
        } else if t.is("mergeCell") && self.section == SheetSection::MergeCells {
            self.merge_tag(t);
        } else if t.is("drawing") {
            self.drawing = t.qualified("id").is_some();
        }
    }

    /// Takes in the end of a cell.
    fn end_cell(&mut self, shared: &[String], styles: &Styles)
        requires
            merges_begin(old(self).sheet.merges@),
        ensures
            merges_begin(final(self).sheet.merges@),
            final(self).state() == ({
                let s = old(self).state();
                let c = ended_cell(s, texts(shared@), styles@);
                if kept(s, c) {
                    ReadState { sheet: SheetView { cells: s.sheet.cells.push(c), ..s.sheet }, ..s }
                } else {
                    s
                }
            }),
    {
        let mut rowspan: u32 = 1;
        let mut colspan: u32 = 1;
        if let Some(i) = find_covering(&self.sheet.merges, self.row, self.col) {
            let m = &self.sheet.merges[i];
            if self.row != m.start_row || self.col != m.start_col {
                return ;
            }
            rowspan = m.end_row - m.start_row + 1;
            colspan = m.end_col - m.start_col + 1;
        }
        let cell = Cell {
            row: self.row,
            col: self.col,
            value: if self.valued {
                read_cell_value(self.cell_type.as_str(), self.value.as_str(), shared)
            } else {
                String::new()
            },
            cell_type: read_plain_type(self.cell_type.as_str()),
            rowspan,
            colspan,
            format: cell_format(styles, self.style),
        };
        assert(cell@ == ended_cell(self.state(), texts(shared@), styles@));
        if !cell.value.as_str().is_empty() || cell.format.is_some() || rowspan > 1 || colspan > 1 {
            let ghost before = self.sheet@.cells;
            let ghost cv = cell@;
            self.sheet.cells.push(cell);
            assert(self.sheet@.cells =~= before.push(cv));
        }
    }

    /// Takes in an end tag.
    fn end(&mut self, name: &str, shared: &[String], styles: &Styles)
        requires
            merges_begin(old(self).sheet.merges@),
        ensures
            merges_begin(final(self).sheet.merges@),
            final(self).state() == end_step(old(self).state(), name@, texts(shared@), styles@),
    {
        reveal(end_step);
        if find_section(name).is_some() {
            self.section = SheetSection::Outside;
        } else if same(name, "v") {
            self.in_v = false;
        } else if same(name, "t") {
            self.in_t = false;
        } else if same(name, "rPh") {
            self.phonetic = false;
        } else if same(name, "c") && self.section == SheetSection::SheetData {
            self.end_cell(shared, styles);
        }
    }

    /// Takes in an empty tag.
    fn empty(&mut self, t: &Tag, shared: &[String], styles: &Styles, readings: &[FloatReading])
        requires
            merges_begin(old(self).sheet.merges@),
        ensures
            merges_begin(final(self).sheet.merges@),
            final(self).state() == empty_step(
                old(self).state(),
                t@,
                texts(shared@),
                styles@,
                readings_view(readings@),
            ),
    {
        self.tag(t, readings);
        if t.is("c") || t.is("t") || t.is("rPh") {
            self.end(t.name.as_str(), shared, styles);
        }
    }

    /// Takes in an event.
    fn step(
        &mut self,
        event: &XmlEvent,
        shared: &[String],
        styles: &Styles,
        readings: &[FloatReading],
    )
        requires
            merges_begin(old(self).sheet.merges@),
        ensures
            merges_begin(final(self).sheet.merges@),
            final(self).state() == read_step(
                old(self).state(),
                event@,
                texts(shared@),
                styles@,
                readings_view(readings@),
            ),
    {
        match event {
            XmlEvent::Start(t) => self.tag(t, readings),
            XmlEvent::Empty(t) => self.empty(t, shared, styles, readings),
            XmlEvent::End(n) => self.end(n.as_str(), shared, styles),
            XmlEvent::Text(text) => {
                if self.in_v || self.in_t {
                    if let Some(s) = text {
                        self.value.push_str(s.as_str());
                    }
                }
            },
            XmlEvent::Other => {},
        }
    }
}

/// Gives every cell the span of the merged range that begins at it.
fn apply_spans(sheet: &mut WorksheetData)
    requires
        merges_begin(old(sheet).merges@),
    ensures
        final(sheet)@ == (SheetView {
            cells: with_spans(old(sheet)@.cells, old(sheet)@.merges),
            ..old(sheet)@
        }),
{
    let ghost cells = sheet@.cells;
    let ghost merges = sheet@.merges;
    let n: usize = sheet.cells.len();
    for i in 0..n
        invariant
            n == cells.len(),
            merges_begin(sheet.merges@),
            cells == old(sheet)@.cells,
            merges == old(sheet)@.merges,
            sheet@ == (SheetView { cells: sheet@.cells, ..old(sheet)@ }),
            sheet.cells@.len() == cells.len(),
            forall|j: int|
                0 <= j < cells.len() ==> #[trigger] sheet.cells@[j]@ == (if j < i {
                    with_span(cells[j], merges)
                } else {
                    cells[j]
                }),
    {
        assert(sheet.cells@[i as int]@ == cells[i as int]);
        let row: u32 = sheet.cells[i].row;
        let col: u32 = sheet.cells[i].col;
        if let Some(k) = find_covering(&sheet.merges, row, col) {
            let m = &sheet.merges[k];
            if row == m.start_row && col == m.start_col {
                let rowspan: u32 = m.end_row - m.start_row + 1;
                let colspan: u32 = m.end_col - m.start_col + 1;
                sheet.cells[i].rowspan = rowspan;
                sheet.cells[i].colspan = colspan;
            }
        }
    }
    assert(sheet@.cells =~= with_spans(cells, merges));
}

/// The worksheet that some events describe, without its images, and whether it has a drawing.
pub fn worksheet_in(
    events: &[XmlEvent],
    sheet_name: &str,
    shared: &[String],
    styles: &Styles,
    readings: &[FloatReading],
) -> (r: (WorksheetData, bool))
    ensures
        r.0@ == sheet_of(
            events_view(events@),
            sheet_name@,
            texts(shared@),
            styles@,
            readings_view(readings@),
        ),
        r.1 == read_state(
            events_view(events@),
            sheet_name@,
            texts(shared@),
            styles@,
            readings_view(readings@),
        ).drawing,
{
    let mut reader = SheetReader {
        sheet: WorksheetData::named(sheet_name),
        section: SheetSection::Outside,
        row: 0,
        col: 0,
        style: None,
        cell_type: String::new(),
        in_v: false,
        in_t: false,
        phonetic: false,
        runs: false,
        valued: false,
        value: String::new(),
        drawing: false,
    };
    let ghost all = events_view(events@);
    let ghost table = readings_view(readings@);
    let ghost strings = texts(shared@);
    assert(all.take(0) =~= Seq::<EventView>::empty());
    assert(reader.sheet@.merges.len() == 0);
    for i in 0..events.len()
        invariant
            all == events_view(events@),
            table == readings_view(readings@),
            strings == texts(shared@),
            merges_begin(reader.sheet.merges@),
            reader.state() == read_state(
                all.take(i as int),
                sheet_name@,
                strings,
                styles@,
                table,
            ),
    {
        assert(all.take(i + 1).drop_last() =~= all.take(i as int));
        assert(all.take(i + 1).last() == events@[i as int]@);
        reader.step(&events[i], shared, styles, readings);
    }
    assert(all.take(all.len() as int) =~= all);
    let drawing = reader.drawing;
    let mut sheet = reader.sheet;
    apply_spans(&mut sheet);
    (sheet, drawing)
}

impl WorksheetData {
    /// The worksheet in the bytes of a part, with the images of the workbook if it has a
    /// drawing.
    pub fn parse(
        data: &[u8],
        sheet_name: &str,
        shared: &[String],
        styles: &Styles,
        entries: &Entries,
        readings: &[FloatReading],
    ) -> (r: WorksheetData)
        ensures
            r@ == worksheet(
                data@,
                sheet_name@,
                texts(shared@),
                styles@,
                entries@,
                readings_view(readings@),
            ),
            keeps_images(r@.images, entries@, readings_view(readings@)),
    {
        let document = read_document(data, false);
        let (mut sheet, drawing) = worksheet_in(
            document.events.as_slice(),
            sheet_name,
            shared,
            styles,
            readings,
        );
        proof {
            lemma_read_well(
                events_view(document.events@),
                sheet_name@,
                texts(shared@),
                styles@,
                readings_view(readings@),
            );
        }
        if drawing {
            sheet.images = parse_images_for_drawing(entries, readings);
        }
        sheet
    }
}

} // verus!
