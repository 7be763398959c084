//! A worksheet: columns, rows, merged ranges, cells and images.

use vstd::prelude::*;

use crate::text::optional;

verus! {

/// The width of a column.
pub struct ColWidth<T = String> {
    pub index: u32,
    pub width: T,
    pub hidden: bool,
}

impl View for ColWidth {
    type V = ColWidth<Seq<char>>;

    open spec fn view(&self) -> ColWidth<Seq<char>> {
        ColWidth { index: self.index, width: self.width@, hidden: self.hidden }
    }
}

/// The height of a row.
pub struct RowHeight<T = String> {
    pub index: u32,
    pub height: T,
    pub hidden: bool,
}

impl View for RowHeight {
    type V = RowHeight<Seq<char>>;

    open spec fn view(&self) -> RowHeight<Seq<char>> {
        RowHeight { index: self.index, height: self.height@, hidden: self.hidden }
    }
}

/// A merged range: its text, and its first and last corner.
pub struct Merge<T = String> {
    pub ref_str: T,
    pub start_row: u32,
    pub start_col: u32,
    pub end_row: u32,
    pub end_col: u32,
}

impl View for Merge {
    type V = Merge<Seq<char>>;

    open spec fn view(&self) -> Merge<Seq<char>> {
        Merge {
            ref_str: self.ref_str@,
            start_row: self.start_row,
            start_col: self.start_col,
            end_row: self.end_row,
            end_col: self.end_col,
        }
    }
}

/// How a cell looks.
pub struct CellFormat<T = String> {
    pub bold: bool,
    pub italic: bool,
    pub underline: bool,
    pub font_size: T,
    pub font_name: T,
    pub font_color: T,
    pub bg_color: Option<T>,
    pub halign: T,
    pub valign: T,
    pub wrap_text: bool,
    pub indent: u32,
    pub border_top: T,
    pub border_bottom: T,
    pub border_left: T,
    pub border_right: T,
    pub num_fmt: T,
}

impl View for CellFormat {
    type V = CellFormat<Seq<char>>;

    open spec fn view(&self) -> CellFormat<Seq<char>> {
        CellFormat {
            bold: self.bold,
            italic: self.italic,
            underline: self.underline,
            font_size: self.font_size@,
            font_name: self.font_name@,
            font_color: self.font_color@,
            bg_color: optional(self.bg_color),
            halign: self.halign@,
            valign: self.valign@,
            wrap_text: self.wrap_text,
            indent: self.indent,
            border_top: self.border_top@,
            border_bottom: self.border_bottom@,
            border_left: self.border_left@,
            border_right: self.border_right@,
            num_fmt: self.num_fmt@,
        }
    }
}

/// A cell. Its type is `s` for text, `n` for a number, `b` for a truth value.
pub struct Cell<T = String> {
    pub row: u32,
    pub col: u32,
    pub value: T,
    pub cell_type: T,
    pub rowspan: u32,
    pub colspan: u32,
    pub format: Option<CellFormat<T>>,
}

/// What an optional format holds.
pub open spec fn format_view(format: Option<CellFormat>) -> Option<CellFormat<Seq<char>>> {
    match format {
        Some(f) => Some(f@),
        None => None,
    }
}

impl View for Cell {
    type V = Cell<Seq<char>>;

    open spec fn view(&self) -> Cell<Seq<char>> {
        Cell {
            row: self.row,
            col: self.col,
            value: self.value@,
            cell_type: self.cell_type@,
            rowspan: self.rowspan,
            colspan: self.colspan,
            format: format_view(self.format),
        }
    }
}

/// An image: the cells it is anchored at, its format, its size in pixels, and its bytes in
/// Base64.
pub struct Image<T = String> {
    pub row: u32,
    pub col: u32,
    pub to_row: Option<u32>,
    pub to_col: Option<u32>,
    pub data_b64: T,
    pub fmt: T,
    pub width: Option<T>,
    pub height: Option<T>,
}

impl View for Image {
    type V = Image<Seq<char>>;

    open spec fn view(&self) -> Image<Seq<char>> {
        Image {
            row: self.row,
            col: self.col,
            to_row: self.to_row,
            to_col: self.to_col,
            data_b64: self.data_b64@,
            fmt: self.fmt@,
            width: optional(self.width),
            height: optional(self.height),
        }
    }
}

/// What a sequence of columns holds.
pub open spec fn cols_view(s: Seq<ColWidth>) -> Seq<ColWidth<Seq<char>>> {
    Seq::new(s.len(), |i: int| s[i]@)
}

/// What a sequence of rows holds.
pub open spec fn rows_view(s: Seq<RowHeight>) -> Seq<RowHeight<Seq<char>>> {
    Seq::new(s.len(), |i: int| s[i]@)
}

/// What a sequence of merged ranges holds.
pub open spec fn merges_view(s: Seq<Merge>) -> Seq<Merge<Seq<char>>> {
    Seq::new(s.len(), |i: int| s[i]@)
}

/// What a sequence of cells holds.
pub open spec fn cells_view(s: Seq<Cell>) -> Seq<Cell<Seq<char>>> {
    Seq::new(s.len(), |i: int| s[i]@)
}

/// What a sequence of images holds.
pub open spec fn images_view(s: Seq<Image>) -> Seq<Image<Seq<char>>> {
    Seq::new(s.len(), |i: int| s[i]@)
}

/// A worksheet.
pub struct WorksheetData {
    pub name: String,
    pub max_row: u32,
    pub max_col: u32,
    pub col_widths: Vec<ColWidth>,
    pub row_heights: Vec<RowHeight>,
    pub merges: Vec<Merge>,
    pub cells: Vec<Cell>,
    pub images: Vec<Image>,
}

/// What a [`WorksheetData`] holds.
#[verifier::ext_equal]
pub struct SheetView {
    pub name: Seq<char>,
    pub max_row: u32,
    pub max_col: u32,
    pub col_widths: Seq<ColWidth<Seq<char>>>,
    pub row_heights: Seq<RowHeight<Seq<char>>>,
    pub merges: Seq<Merge<Seq<char>>>,
    pub cells: Seq<Cell<Seq<char>>>,
    pub images: Seq<Image<Seq<char>>>,
}

impl View for WorksheetData {
    type V = SheetView;

    open spec fn view(&self) -> SheetView {
        SheetView {
            name: self.name@,
            max_row: self.max_row,
            max_col: self.max_col,
            col_widths: cols_view(self.col_widths@),
            row_heights: rows_view(self.row_heights@),
            merges: merges_view(self.merges@),
            cells: cells_view(self.cells@),
            images: images_view(self.images@),
        }
    }
}

/// The worksheet with a name and nothing else.
pub open spec fn empty_sheet(name: Seq<char>) -> SheetView {
    SheetView {
        name,
        max_row: 0,
        max_col: 0,
        col_widths: Seq::empty(),
        row_heights: Seq::empty(),
        merges: Seq::empty(),
        cells: Seq::empty(),
        images: Seq::empty(),
    }
}

impl WorksheetData {
    /// The worksheet with a name and nothing else.
    pub fn named(name: &str) -> (r: WorksheetData)
        ensures
            r@ == empty_sheet(name@),
    {
        let r = WorksheetData {
            name: name.to_owned(),
            max_row: 0,
            max_col: 0,
            col_widths: Vec::new(),
            row_heights: Vec::new(),
            merges: Vec::new(),
            cells: Vec::new(),
            images: Vec::new(),
        };
        assert(r@ =~= empty_sheet(name@));
        r
    }
}

/// Whether a merged range covers a cell.
pub open spec fn covers<T>(m: Merge<T>, row: u32, col: u32) -> bool {
    m.start_row <= row <= m.end_row && m.start_col <= col <= m.end_col
}

/// The last merged range that covers a cell.
pub open spec fn covering(merges: Seq<Merge<Seq<char>>>, row: u32, col: u32) -> Option<
    Merge<Seq<char>>,
>
    decreases merges.len(),
{
    if merges.len() == 0 {
        None
    } else if covers(merges.last(), row, col) {
        Some(merges.last())
    } else {
        covering(merges.drop_last(), row, col)
    }
}

/// What covers a cell is one of the ranges, and does cover it.
pub(crate) proof fn lemma_covering(merges: Seq<Merge<Seq<char>>>, row: u32, col: u32)
    ensures
        covering(merges, row, col) matches Some(m) ==> covers(m, row, col) && merges.contains(m),
    decreases merges.len(),
{
    if merges.len() > 0 {
        if covers(merges.last(), row, col) {
            assert(merges[merges.len() - 1] == merges.last());
        } else {
            let rest = merges.drop_last();
            lemma_covering(rest, row, col);
            if let Some(m) = covering(rest, row, col) {
                let i = choose|i: int| 0 <= i < rest.len() && rest[i] == m;
                assert(merges[i] == m);
            }
        }
    }
}

/// Where the last merged range that covers a cell stands.
pub(crate) fn find_covering(merges: &Vec<Merge>, row: u32, col: u32) -> (r: Option<usize>)
    ensures
        match r {
            Some(i) => i < merges@.len() && covers(merges@[i as int], row, col) && covering(
                merges_view(merges@),
                row,
                col,
            ) == Some(merges@[i as int]@),
            None => covering(merges_view(merges@), row, col) is None,
        },
{
    let ghost all = merges_view(merges@);
    let mut i: usize = merges.len();
    assert(all.take(all.len() as int) =~= all);
    while i > 0
        invariant
            all == merges_view(merges@),
            i <= merges@.len(),
            covering(all, row, col) == covering(all.take(i as int), row, col),
        decreases i,
    {
        assert(all.take(i as int).last() == all[i - 1]);
        assert(all.take(i as int).drop_last() =~= all.take(i - 1));
        i = i - 1;
        let m = &merges[i];
        if m.start_row <= row && row <= m.end_row && m.start_col <= col && col <= m.end_col {
            return Some(i);
        }
    }
    None
}

/// The rows and columns that a merged range spans.
pub open spec fn span(m: Merge<Seq<char>>) -> (int, int) {
    (m.end_row - m.start_row + 1, m.end_col - m.start_col + 1)
}

/// A cell with the span of the merged range that begins at it, if one covers it.
pub open spec fn with_span(c: Cell<Seq<char>>, merges: Seq<Merge<Seq<char>>>) -> Cell<Seq<char>> {
    match covering(merges, c.row, c.col) {
        Some(m) => if c.row == m.start_row && c.col == m.start_col {
            Cell { rowspan: span(m).0 as u32, colspan: span(m).1 as u32, ..c }
        } else {
            c
        },
        None => c,
    }
}

/// The cells with their spans.
pub open spec fn with_spans(
    cells: Seq<Cell<Seq<char>>>,
    merges: Seq<Merge<Seq<char>>>,
) -> Seq<Cell<Seq<char>>> {
    Seq::new(cells.len(), |i: int| with_span(cells[i], merges))
}

} // verus!
