//! The handover document: a workbook as the XML that the library writes.

use vstd::prelude::*;
use vstd::seq_lib::{to_multiset_build, to_multiset_insert};
use vstd::utf8::encode_utf8;

use crate::lines::{
    close_line, document_text, empty_line, fields_view, lemma_lines_text, lemma_single_line,
    line_text, lines_text, open_line, push_field, raw_field, text_field, write_close, write_empty,
    write_open, Field, LineView,
};
use crate::sheet::{
    cells_view, cols_view, images_view, merges_view, rows_view, Cell, CellFormat, ColWidth, Image,
    Merge, RowHeight, SheetView, WorksheetData,
};
use crate::text::{decimal, decimal_text, truth, truth_text};

verus! {

/// No attributes.
pub open spec fn no_fields() -> Seq<Field<Seq<char>>> {
    Seq::empty()
}

/// The attributes of a `sheet` tag.
pub open spec fn sheet_fields(s: SheetView) -> Seq<Field<Seq<char>>> {
    no_fields().push(text_field("name"@, s.name))
}

/// The attributes of a `dimensions` tag.
pub open spec fn dimension_fields(s: SheetView) -> Seq<Field<Seq<char>>> {
    no_fields().push(raw_field("maxRow"@, decimal(s.max_row as nat))).push(
        raw_field("maxCol"@, decimal(s.max_col as nat)),
    )
}

/// The attributes of a `col` tag.
pub open spec fn col_fields(c: ColWidth<Seq<char>>) -> Seq<Field<Seq<char>>> {
    no_fields().push(raw_field("index"@, decimal(c.index as nat))).push(
        raw_field("width"@, c.width),
    ).push(raw_field("hidden"@, truth(c.hidden)))
}

/// The attributes of a `row` tag with a height.
pub open spec fn height_fields(r: RowHeight<Seq<char>>) -> Seq<Field<Seq<char>>> {
    no_fields().push(raw_field("index"@, decimal(r.index as nat))).push(
        raw_field("height"@, r.height),
    ).push(raw_field("hidden"@, truth(r.hidden)))
}

/// The attributes of a `merge` tag.
pub open spec fn merge_fields(m: Merge<Seq<char>>) -> Seq<Field<Seq<char>>> {
    no_fields().push(text_field("ref"@, m.ref_str)).push(
        raw_field("startRow"@, decimal(m.start_row as nat)),
    ).push(raw_field("startCol"@, decimal(m.start_col as nat))).push(
        raw_field("endRow"@, decimal(m.end_row as nat)),
    ).push(raw_field("endCol"@, decimal(m.end_col as nat)))
}

/// The attributes of a `row` tag around cells.
pub open spec fn row_fields(row: u32) -> Seq<Field<Seq<char>>> {
    no_fields().push(raw_field("index"@, decimal(row as nat)))
}

/// Attributes with a number behind them if it is there.
pub open spec fn with_number(
    fields: Seq<Field<Seq<char>>>,
    name: Seq<char>,
    n: Option<u32>,
) -> Seq<Field<Seq<char>>> {
    match n {
        Some(n) => fields.push(raw_field(name, decimal(n as nat))),
        None => fields,
    }
}

/// Attributes with a text behind them if it is there.
pub open spec fn with_text(
    fields: Seq<Field<Seq<char>>>,
    name: Seq<char>,
    text: Option<Seq<char>>,
) -> Seq<Field<Seq<char>>> {
    match text {
        Some(t) => fields.push(raw_field(name, t)),
        None => fields,
    }
}

/// A span, where it is one.
pub open spec fn real_span(n: u32) -> Option<u32> {
    if n > 1 {
        Some(n)
    } else {
        None
    }
}

/// The attributes of a `cell` tag.
pub open spec fn cell_fields(c: Cell<Seq<char>>) -> Seq<Field<Seq<char>>> {
    let start = no_fields().push(raw_field("row"@, decimal(c.row as nat))).push(
        raw_field("col"@, decimal(c.col as nat)),
    ).push(text_field("value"@, c.value)).push(text_field("type"@, c.cell_type));
    with_number(
        with_number(start, "rowspan"@, real_span(c.rowspan)),
        "colspan"@,
        real_span(c.colspan),
    )
}

/// How a side of a border is written.
pub open spec fn side(style: Seq<char>) -> Seq<char> {
    if style.len() == 0 {
        "none"@
    } else {
        style
    }
}

/// The attributes of a `format` tag.
pub open spec fn format_fields(f: CellFormat<Seq<char>>) -> Seq<Field<Seq<char>>> {
    let font = no_fields().push(raw_field("bold"@, truth(f.bold))).push(
        raw_field("italic"@, truth(f.italic)),
    ).push(raw_field("underline"@, truth(f.underline))).push(
        raw_field("fontSize"@, f.font_size),
    ).push(text_field("fontName"@, f.font_name)).push(text_field("fontColor"@, f.font_color));
    with_text(font, "bgColor"@, f.bg_color).push(
        Field { name: "halign"@, value: f.halign, raw: false, wide: true },
    ).push(text_field("valign"@, f.valign)).push(raw_field("wrapText"@, truth(f.wrap_text))).push(
        raw_field("indent"@, decimal(f.indent as nat)),
    ).push(raw_field("borderTop"@, side(f.border_top))).push(
        raw_field("borderBottom"@, side(f.border_bottom)),
    ).push(raw_field("borderLeft"@, side(f.border_left))).push(
        raw_field("borderRight"@, side(f.border_right)),
    ).push(text_field("numFmt"@, f.num_fmt))
}

/// The attributes of an `image` tag.
pub open spec fn image_fields(i: Image<Seq<char>>) -> Seq<Field<Seq<char>>> {
    let anchor = with_number(
        with_number(
            no_fields().push(raw_field("row"@, decimal(i.row as nat))).push(
                raw_field("col"@, decimal(i.col as nat)),
            ),
            "toRow"@,
            i.to_row,
        ),
        "toCol"@,
        i.to_col,
    );
    with_text(
        with_text(anchor.push(text_field("format"@, i.fmt)), "width"@, i.width),
        "height"@,
        i.height,
    ).push(raw_field("data"@, i.data_b64))
}

/// The lines of the columns.
pub open spec fn col_lines(cols: Seq<ColWidth<Seq<char>>>) -> Seq<LineView> {
    Seq::new(cols.len(), |i: int| empty_line(6, "col"@, col_fields(cols[i])))
}

/// The lines of the row heights.
pub open spec fn height_lines(rows: Seq<RowHeight<Seq<char>>>) -> Seq<LineView> {
    Seq::new(rows.len(), |i: int| empty_line(6, "row"@, height_fields(rows[i])))
}

/// The lines of the merged ranges.
pub open spec fn merge_lines(merges: Seq<Merge<Seq<char>>>) -> Seq<LineView> {
    Seq::new(merges.len(), |i: int| empty_line(6, "merge"@, merge_fields(merges[i])))
}

/// The lines of the images.
pub open spec fn image_lines(images: Seq<Image<Seq<char>>>) -> Seq<LineView> {
    Seq::new(images.len(), |i: int| empty_line(6, "image"@, image_fields(images[i])))
}

/// The lines of a cell.
pub open spec fn cell_lines(c: Cell<Seq<char>>) -> Seq<LineView> {
    match c.format {
        Some(f) => seq![
            open_line(8, "cell"@, cell_fields(c)),
            empty_line(10, "format"@, format_fields(f)),
            close_line(8, "cell"@),
        ],
        None => seq![empty_line(8, "cell"@, cell_fields(c))],
    }
}

/// Whether a cell stands behind another, or in the same place: by row, then by column.
pub open spec fn not_before<T>(a: Cell<T>, b: Cell<T>) -> bool {
    a.row > b.row || (a.row == b.row && a.col >= b.col)
}

/// Where a cell goes among cells in order: behind all that it does not stand in front of.
pub open spec fn place_for(cells: Seq<Cell<Seq<char>>>, c: Cell<Seq<char>>) -> int
    decreases cells.len(),
{
    if cells.len() == 0 || not_before(c, cells.last()) {
        cells.len() as int
    } else {
        place_for(cells.drop_last(), c)
    }
}

/// `place_for` is a place up to which no cell stands behind the new one, and from which on all
/// do, if the cells are in order.
pub(crate) proof fn lemma_place_for(cells: Seq<Cell<Seq<char>>>, c: Cell<Seq<char>>)
    ensures
        0 <= place_for(cells, c) <= cells.len(),
        place_for(cells, c) > 0 ==> not_before(c, cells[place_for(cells, c) - 1]),
        forall|i: int|
            place_for(cells, c) <= i < cells.len() ==> !not_before(c, #[trigger] cells[i]),
    decreases cells.len(),
{
    if cells.len() > 0 && !not_before(c, cells.last()) {
        let rest = cells.drop_last();
        lemma_place_for(rest, c);
        assert forall|i: int| place_for(cells, c) <= i < cells.len() implies !not_before(
            c,
            #[trigger] cells[i],
        ) by {
            if i < rest.len() {
                assert(!not_before(c, rest[i]));
            }
        }
        if place_for(cells, c) > 0 {
            assert(rest[place_for(cells, c) - 1] == cells[place_for(cells, c) - 1]);
        }
    }
}

/// The cells in order: by row, then by column, cells in one place as they were.
pub open spec fn ordered(cells: Seq<Cell<Seq<char>>>) -> Seq<Cell<Seq<char>>>
    decreases cells.len(),
{
    if cells.len() == 0 {
        cells
    } else {
        let rest = ordered(cells.drop_last());
        rest.insert(place_for(rest, cells.last()), cells.last())
    }
}

/// The cells in order do stand in order.
pub proof fn law_ordered_sorted(cells: Seq<Cell<Seq<char>>>)
    ensures
        forall|i: int, j: int|
            0 <= i <= j < ordered(cells).len() ==> not_before(
                #[trigger] ordered(cells)[j],
                #[trigger] ordered(cells)[i],
            ),
    decreases cells.len(),
{
    if cells.len() > 0 {
        let rest = ordered(cells.drop_last());
        let c = cells.last();
        let at = place_for(rest, c);
        let all = ordered(cells);
        law_ordered_sorted(cells.drop_last());
        lemma_place_for(rest, c);
        assert forall|i: int, j: int| 0 <= i <= j < all.len() implies not_before(
            #[trigger] all[j],
            #[trigger] all[i],
        ) by {
            let x = if i < at {
                rest[i]
            } else if i == at {
                c
            } else {
                rest[i - 1]
            };
            let y = if j < at {
                rest[j]
            } else if j == at {
                c
            } else {
                rest[j - 1]
            };
            assert(all[i] == x && all[j] == y);
            if j == at && i < at {
                assert(not_before(rest[at - 1], rest[i]));
            }
        }
    }
}

/// Putting cells in order neither adds nor loses any.
pub proof fn law_ordered_permutes(cells: Seq<Cell<Seq<char>>>)
    ensures
        ordered(cells).to_multiset() == cells.to_multiset(),
    decreases cells.len(),
{
    if cells.len() > 0 {
        let before = cells.drop_last();
        let rest = ordered(before);
        let c = cells.last();
        law_ordered_permutes(before);
        lemma_place_for(rest, c);
        to_multiset_insert(rest, place_for(rest, c), c);
        to_multiset_build(before, c);
        assert(before.push(c) =~= cells);
    }
}

/// The cells in one place, as they follow one another.
pub open spec fn in_place(cells: Seq<Cell<Seq<char>>>, row: u32, col: u32) -> Seq<Cell<Seq<char>>>
    decreases cells.len(),
{
    if cells.len() == 0 {
        Seq::empty()
    } else if cells.last().row == row && cells.last().col == col {
        in_place(cells.drop_last(), row, col).push(cells.last())
    } else {
        in_place(cells.drop_last(), row, col)
    }
}

/// The cells in one place among cells behind cells.
proof fn lemma_in_place_append(
    a: Seq<Cell<Seq<char>>>,
    b: Seq<Cell<Seq<char>>>,
    row: u32,
    col: u32,
)
    ensures
        in_place(a + b, row, col) == in_place(a, row, col) + in_place(b, row, col),
    decreases b.len(),
{
    if b.len() == 0 {
        assert(a + b =~= a);
        assert(in_place(a, row, col) + in_place(b, row, col) =~= in_place(a, row, col));
    } else {
        assert((a + b).drop_last() =~= a + b.drop_last());
        assert((a + b).last() == b.last());
        lemma_in_place_append(a, b.drop_last(), row, col);
        assert((in_place(a, row, col) + in_place(b.drop_last(), row, col)).push(b.last())
            =~= in_place(a, row, col) + in_place(b.drop_last(), row, col).push(b.last()));
    }
}

/// No cell is in a place where none is.
proof fn lemma_none_in_place(cells: Seq<Cell<Seq<char>>>, row: u32, col: u32)
    requires
        forall|i: int|
            0 <= i < cells.len() ==> (#[trigger] cells[i]).row != row || cells[i].col != col,
    ensures
        in_place(cells, row, col) == Seq::<Cell<Seq<char>>>::empty(),
    decreases cells.len(),
{
    if cells.len() > 0 {
        let rest = cells.drop_last();
        assert forall|i: int| 0 <= i < rest.len() implies (#[trigger] rest[i]).row != row
            || rest[i].col != col by {
            assert(cells[i] == rest[i]);
        }
        lemma_none_in_place(rest, row, col);
        assert(cells[cells.len() - 1] == cells.last());
    }
}

/// Cells in one place follow one another as they did before they were put in order.
pub proof fn law_ordered_stable(cells: Seq<Cell<Seq<char>>>, row: u32, col: u32)
    ensures
        in_place(ordered(cells), row, col) == in_place(cells, row, col),
    decreases cells.len(),
{
    if cells.len() > 0 {
        let before = cells.drop_last();
        let rest = ordered(before);
        let c = cells.last();
        let at = place_for(rest, c);
        let a = rest.take(at);
        let b = rest.skip(at);
        law_ordered_stable(before, row, col);
        lemma_place_for(rest, c);
        assert(rest =~= a + b);
        assert(ordered(cells) =~= a.push(c) + b);
        lemma_in_place_append(a, b, row, col);
        lemma_in_place_append(a.push(c), b, row, col);
        assert(a.push(c).drop_last() =~= a);
        assert(a.push(c).last() == c);
        if c.row == row && c.col == col {
            assert forall|i: int| 0 <= i < b.len() implies (#[trigger] b[i]).row != row || b[i].col
                != col by {
                assert(!not_before(c, rest[at + i]));
            }
            lemma_none_in_place(b, row, col);
            assert(in_place(a, row, col).push(c) + Seq::<Cell<Seq<char>>>::empty() =~= (in_place(
                a,
                row,
                col,
            ) + Seq::<Cell<Seq<char>>>::empty()).push(c));
        }
    }
}

/// The lines of the first of some cells in order, with the row of the last still open.
pub open spec fn open_rows(cells: Seq<Cell<Seq<char>>>) -> Seq<LineView>
    decreases cells.len(),
{
    if cells.len() == 0 {
        Seq::empty()
    } else {
        let before = cells.drop_last();
        let c = cells.last();
        let head = if before.len() == 0 {
            seq![open_line(6, "row"@, row_fields(c.row))]
        } else if before.last().row != c.row {
            seq![close_line(6, "row"@), open_line(6, "row"@, row_fields(c.row))]
        } else {
            Seq::empty()
        };
        open_rows(before) + head + cell_lines(c)
    }
}

/// The lines of some cells in order, each row of cells inside a `row` element.
pub open spec fn row_lines(cells: Seq<Cell<Seq<char>>>) -> Seq<LineView> {
    if cells.len() == 0 {
        Seq::empty()
    } else {
        open_rows(cells).push(close_line(6, "row"@))
    }
}

/// Some lines inside an element.
pub open spec fn wrapped(name: Seq<char>, lines: Seq<LineView>) -> Seq<LineView> {
    seq![open_line(4, name, no_fields())] + lines + seq![close_line(4, name)]
}

/// The lines of a worksheet.
pub open spec fn sheet_lines(s: SheetView) -> Seq<LineView> {
    seq![
        open_line(2, "sheet"@, sheet_fields(s)),
        empty_line(4, "dimensions"@, dimension_fields(s)),
    ] + wrapped("colWidths"@, col_lines(s.col_widths)) + wrapped(
        "rowHeights"@,
        height_lines(s.row_heights),
    ) + wrapped("merges"@, merge_lines(s.merges)) + wrapped("rows"@, row_lines(ordered(s.cells)))
        + wrapped("images"@, image_lines(s.images)) + seq![close_line(2, "sheet"@)]
}

/// The lines of some worksheets.
pub open spec fn sheets_lines(sheets: Seq<SheetView>) -> Seq<LineView>
    decreases sheets.len(),
{
    if sheets.len() == 0 {
        Seq::empty()
    } else {
        sheets_lines(sheets.drop_last()) + sheet_lines(sheets.last())
    }
}

/// A handover document: where it comes from, when it was converted, the fingerprint of the
/// workbook, and the worksheets.
pub struct DocumentView {
    pub filename: Seq<char>,
    pub converted: Seq<char>,
    pub hash: Seq<char>,
    pub sheets: Seq<SheetView>,
}

/// The attributes of the root element.
pub open spec fn workbook_fields(d: DocumentView) -> Seq<Field<Seq<char>>> {
    no_fields().push(text_field("filename"@, d.filename)).push(
        text_field("converted"@, d.converted),
    ).push(text_field("hash"@, d.hash))
}

/// The lines of a handover document.
pub open spec fn workbook_lines(d: DocumentView) -> Seq<LineView> {
    seq![open_line(0, "workbook"@, workbook_fields(d))] + sheets_lines(d.sheets) + seq![
        close_line(0, "workbook"@),
    ]
}

/// The bytes of a handover document.
pub open spec fn written(d: DocumentView) -> Seq<u8> {
    encode_utf8(document_text(workbook_lines(d)))
}

/// Adds an attribute whose value is escaped.
fn push_text(fields: &mut Vec<Field>, name: &str, value: &String)
    ensures
        fields_view(final(fields)@) == fields_view(old(fields)@).push(
            text_field(name@, value@),
        ),
{
    push_field(fields, name, value.clone(), false, false);
}

/// Adds an attribute whose value is written as it stands.
fn push_raw(fields: &mut Vec<Field>, name: &str, value: &String)
    ensures
        fields_view(final(fields)@) == fields_view(old(fields)@).push(raw_field(name@, value@)),
{
    push_field(fields, name, value.clone(), true, false);
}

/// Adds a number.
fn push_number(fields: &mut Vec<Field>, name: &str, n: u32)
    ensures
        fields_view(final(fields)@) == fields_view(old(fields)@).push(
            raw_field(name@, decimal(n as nat)),
        ),
{
    push_field(fields, name, decimal_text(n), true, false);
}

/// Adds a truth value.
fn push_truth(fields: &mut Vec<Field>, name: &str, b: bool)
    ensures
        fields_view(final(fields)@) == fields_view(old(fields)@).push(raw_field(name@, truth(b))),
{
    push_field(fields, name, truth_text(b), true, false);
}

/// Adds a number if it is there.
fn push_some_number(fields: &mut Vec<Field>, name: &str, n: Option<u32>)
    ensures
        fields_view(final(fields)@) == with_number(fields_view(old(fields)@), name@, n),
{
    if let Some(n) = n {
        push_number(fields, name, n);
    }
}

/// Adds a text if it is there.
fn push_some_text(fields: &mut Vec<Field>, name: &str, text: &Option<String>)
    ensures
        fields_view(final(fields)@) == with_text(
            fields_view(old(fields)@),
            name@,
            crate::text::optional(*text),
        ),
{
    if let Some(t) = text {
        push_raw(fields, name, t);
    }
}

/// Adds a side of a border.
fn push_side(fields: &mut Vec<Field>, name: &str, style: &String)
    ensures
        fields_view(final(fields)@) == fields_view(old(fields)@).push(
            raw_field(name@, side(style@)),
        ),
{
    if style.as_str().is_empty() {
        push_field(fields, name, "none".to_owned(), true, false);
    } else {
        push_raw(fields, name, style);
    }
}

/// No attributes.
fn new_fields() -> (r: Vec<Field>)
    ensures
        fields_view(r@) == no_fields(),
{
    let r: Vec<Field> = Vec::new();
    assert(fields_view(r@) =~= no_fields());
    r
}

/// A span, where it is one.
fn span_number(n: u32) -> (r: Option<u32>)
    ensures
        r == real_span(n),
{
    if n > 1 {
        Some(n)
    } else {
        None
    }
}

/// The attributes of a `cell` tag.
fn make_cell_fields(c: &Cell) -> (r: Vec<Field>)
    ensures
        fields_view(r@) == cell_fields(c@),
{
    let mut fields = new_fields();
    push_number(&mut fields, "row", c.row);
    push_number(&mut fields, "col", c.col);
    push_text(&mut fields, "value", &c.value);
    push_text(&mut fields, "type", &c.cell_type);
    push_some_number(&mut fields, "rowspan", span_number(c.rowspan));
    push_some_number(&mut fields, "colspan", span_number(c.colspan));
    fields
}

/// The attributes of a `format` tag.
fn make_format_fields(f: &CellFormat) -> (r: Vec<Field>)
    ensures
        fields_view(r@) == format_fields(f@),
{
    let mut fields = new_fields();
    push_truth(&mut fields, "bold", f.bold);
    push_truth(&mut fields, "italic", f.italic);
    push_truth(&mut fields, "underline", f.underline);
    push_raw(&mut fields, "fontSize", &f.font_size);
    push_text(&mut fields, "fontName", &f.font_name);
    push_text(&mut fields, "fontColor", &f.font_color);
    push_some_text(&mut fields, "bgColor", &f.bg_color);
    push_field(&mut fields, "halign", f.halign.clone(), false, true);
    push_text(&mut fields, "valign", &f.valign);
    push_truth(&mut fields, "wrapText", f.wrap_text);
    push_number(&mut fields, "indent", f.indent);
    push_side(&mut fields, "borderTop", &f.border_top);
    push_side(&mut fields, "borderBottom", &f.border_bottom);
    push_side(&mut fields, "borderLeft", &f.border_left);
    push_side(&mut fields, "borderRight", &f.border_right);
    push_text(&mut fields, "numFmt", &f.num_fmt);
    fields
}

/// The attributes of an `image` tag.
fn make_image_fields(i: &Image) -> (r: Vec<Field>)
    ensures
        fields_view(r@) == image_fields(i@),
{
    let mut fields = new_fields();
    push_number(&mut fields, "row", i.row);
    push_number(&mut fields, "col", i.col);
    push_some_number(&mut fields, "toRow", i.to_row);
    push_some_number(&mut fields, "toCol", i.to_col);
    push_text(&mut fields, "format", &i.fmt);
    push_some_text(&mut fields, "width", &i.width);
    push_some_text(&mut fields, "height", &i.height);
    push_raw(&mut fields, "data", &i.data_b64);
    fields
}

/// What two lines more come to.
proof fn lemma_next_line(before: Seq<char>, lines: Seq<LineView>, l: LineView)
    ensures
        before + lines_text(lines) + line_text(l) == before + lines_text(lines.push(l)),
{
    assert(lines.push(l).drop_last() =~= lines);
    assert(before + lines_text(lines) + line_text(l) =~= before + (lines_text(lines) + line_text(
        l,
    )));
}

/// Writes the columns.
fn write_cols(cols: &Vec<ColWidth>, out: &mut String)
    ensures
        final(out)@ == old(out)@ + lines_text(col_lines(cols_view(cols@))),
{
    let ghost all = col_lines(cols_view(cols@));
    let ghost before = out@;
    assert(all.take(0) =~= Seq::<LineView>::empty());
    assert(before + lines_text(all.take(0)) =~= before);
    for i in 0..cols.len()
        invariant
            all == col_lines(cols_view(cols@)),
            out@ == before + lines_text(all.take(i as int)),
    {
        let c = &cols[i];
        let mut fields = new_fields();
        push_number(&mut fields, "index", c.index);
        push_raw(&mut fields, "width", &c.width);
        push_truth(&mut fields, "hidden", c.hidden);
        write_empty(6, "col", fields, out);
        proof {
            lemma_next_line(before, all.take(i as int), all[i as int]);
            assert(all.take(i as int).push(all[i as int]) =~= all.take(i + 1));
        }
    }
    assert(all.take(all.len() as int) =~= all);
}

/// Writes the row heights.
fn write_heights(rows: &Vec<RowHeight>, out: &mut String)
    ensures
        final(out)@ == old(out)@ + lines_text(height_lines(rows_view(rows@))),
{
    let ghost all = height_lines(rows_view(rows@));
    let ghost before = out@;
    assert(all.take(0) =~= Seq::<LineView>::empty());
    assert(before + lines_text(all.take(0)) =~= before);
    for i in 0..rows.len()
        invariant
            all == height_lines(rows_view(rows@)),
            out@ == before + lines_text(all.take(i as int)),
    {
        let r = &rows[i];
        let mut fields = new_fields();
        push_number(&mut fields, "index", r.index);
        push_raw(&mut fields, "height", &r.height);
        push_truth(&mut fields, "hidden", r.hidden);
        write_empty(6, "row", fields, out);
        proof {
            lemma_next_line(before, all.take(i as int), all[i as int]);
            assert(all.take(i as int).push(all[i as int]) =~= all.take(i + 1));
        }
    }
    assert(all.take(all.len() as int) =~= all);
}

/// Writes the merged ranges.
fn write_merges(merges: &Vec<Merge>, out: &mut String)
    ensures
        final(out)@ == old(out)@ + lines_text(merge_lines(merges_view(merges@))),
{
    let ghost all = merge_lines(merges_view(merges@));
    let ghost before = out@;
    assert(all.take(0) =~= Seq::<LineView>::empty());
    assert(before + lines_text(all.take(0)) =~= before);
    for i in 0..merges.len()
        invariant
            all == merge_lines(merges_view(merges@)),
            out@ == before + lines_text(all.take(i as int)),
    {
        let m = &merges[i];
        let mut fields = new_fields();
        push_text(&mut fields, "ref", &m.ref_str);
        push_number(&mut fields, "startRow", m.start_row);
        push_number(&mut fields, "startCol", m.start_col);
        push_number(&mut fields, "endRow", m.end_row);
        push_number(&mut fields, "endCol", m.end_col);
        write_empty(6, "merge", fields, out);
        proof {
            lemma_next_line(before, all.take(i as int), all[i as int]);
            assert(all.take(i as int).push(all[i as int]) =~= all.take(i + 1));
        }
    }
    assert(all.take(all.len() as int) =~= all);
}

/// Writes the images.
fn write_images(images: &Vec<Image>, out: &mut String)
    ensures
        final(out)@ == old(out)@ + lines_text(image_lines(images_view(images@))),
{
    let ghost all = image_lines(images_view(images@));
    let ghost before = out@;
    assert(all.take(0) =~= Seq::<LineView>::empty());
    assert(before + lines_text(all.take(0)) =~= before);
    for i in 0..images.len()
        invariant
            all == image_lines(images_view(images@)),
            out@ == before + lines_text(all.take(i as int)),
    {
        let fields = make_image_fields(&images[i]);
        write_empty(6, "image", fields, out);
        proof {
            lemma_next_line(before, all.take(i as int), all[i as int]);
            assert(all.take(i as int).push(all[i as int]) =~= all.take(i + 1));
        }
    }
    assert(all.take(all.len() as int) =~= all);
}

/// Writes a cell.
fn write_cell_xml(c: &Cell, out: &mut String)
    ensures
        final(out)@ == old(out)@ + lines_text(cell_lines(c@)),
{
    let ghost before = out@;
    let ghost lines = cell_lines(c@);
    let fields = make_cell_fields(c);
    if let Some(f) = &c.format {
        write_open(8, "cell", fields, out);
        write_empty(10, "format", make_format_fields(f), out);
        write_close(8, "cell", out);
        proof {
            let none = Seq::<LineView>::empty();
            assert(before + lines_text(none) =~= before);
            lemma_next_line(before, none, lines[0]);
            lemma_next_line(before, none.push(lines[0]), lines[1]);
            lemma_next_line(before, none.push(lines[0]).push(lines[1]), lines[2]);
            assert(none.push(lines[0]).push(lines[1]).push(lines[2]) =~= lines);
        }
    } else {
        write_empty(8, "cell", fields, out);
        proof {
            lemma_single_line(lines[0]);
            assert(lines =~= seq![lines[0]]);
        }
    }
}

/// What references to cells lead to.
pub open spec fn refs_view(cells: Seq<&Cell>) -> Seq<Cell<Seq<char>>> {
    Seq::new(cells.len(), |i: int| cells[i]@)
}

/// The cells in order.
fn sort_cells(cells: &Vec<Cell>) -> (r: Vec<&Cell>)
    ensures
        refs_view(r@) == ordered(cells_view(cells@)),
{
    let mut out: Vec<&Cell> = Vec::new();
    let ghost all = cells_view(cells@);
    assert(all.take(0) =~= Seq::<Cell<Seq<char>>>::empty());
    assert(refs_view(out@) =~= Seq::<Cell<Seq<char>>>::empty());
    for i in 0..cells.len()
        invariant
            all == cells_view(cells@),
            refs_view(out@) == ordered(all.take(i as int)),
    {
        let c = &cells[i];
        let ghost sorted = refs_view(out@);
        assert(all.take(i + 1).drop_last() =~= all.take(i as int));
        assert(all.take(i + 1).last() == c@);
        let mut at: usize = out.len();
        assert(sorted.take(sorted.len() as int) =~= sorted);
        while at > 0 && !(c.row > out[at - 1].row || (c.row == out[at - 1].row && c.col
            >= out[at - 1].col))
            invariant
                sorted == refs_view(out@),
                at <= out@.len(),
                place_for(sorted, c@) == place_for(sorted.take(at as int), c@),
            decreases at,
        {
            assert(sorted.take(at as int).last() == out@[at - 1]@);
            assert(sorted.take(at as int).drop_last() =~= sorted.take(at - 1));
            at = at - 1;
        }
        proof {
            if at > 0 {
                assert(sorted.take(at as int).last() == out@[at - 1]@);
            }
        }
        assert(place_for(sorted, c@) == at);
        out.insert(at, c);
        assert(refs_view(out@) =~= sorted.insert(at as int, c@));
    }
    assert(all.take(all.len() as int) =~= all);
    out
}

/// Writes the rows of cells.
fn write_rows(cells: &Vec<Cell>, out: &mut String)
    ensures
        final(out)@ == old(out)@ + lines_text(row_lines(ordered(cells_view(cells@)))),
{
    let sorted = sort_cells(cells);
    let ghost all = refs_view(sorted@);
    let ghost before = out@;
    assert(all.take(0) =~= Seq::<Cell<Seq<char>>>::empty());
    assert(before + lines_text(open_rows(all.take(0))) =~= before);
    for i in 0..sorted.len()
        invariant
            all == refs_view(sorted@),
            out@ == before + lines_text(open_rows(all.take(i as int))),
    {
        let c = sorted[i];
        let ghost so_far = open_rows(all.take(i as int));
        let ghost mut head: Seq<LineView> = Seq::empty();
        assert(all.take(i + 1).drop_last() =~= all.take(i as int));
        assert(all.take(i + 1).last() == c@);
        proof {
            if i > 0 {
                assert(all.take(i as int).last() == sorted@[i - 1]@);
            }
            assert(so_far + head =~= so_far);
        }
        if i == 0 || sorted[i - 1].row != c.row {
            if i > 0 {
                write_close(6, "row", out);
                proof {
                    lemma_next_line(before, so_far + head, close_line(6, "row"@));
                    assert((so_far + head).push(close_line(6, "row"@)) =~= so_far + head.push(
                        close_line(6, "row"@),
                    ));
                    head = head.push(close_line(6, "row"@));
                }
            }
            let mut fields = new_fields();
            push_number(&mut fields, "index", c.row);
            write_open(6, "row", fields, out);
            proof {
                let l = open_line(6, "row"@, row_fields(c.row));
                lemma_next_line(before, so_far + head, l);
                assert((so_far + head).push(l) =~= so_far + head.push(l));
                head = head.push(l);
            }
        }
        assert(out@ == before + lines_text(so_far + head));
        write_cell_xml(c, out);
        proof {
            lemma_lines_text(so_far + head, cell_lines(c@));
            assert(before + lines_text(so_far + head) + lines_text(cell_lines(c@)) =~= before + (
            lines_text(so_far + head) + lines_text(cell_lines(c@))));
            assert(open_rows(all.take(i + 1)) =~= so_far + head + cell_lines(c@));
        }
    }
    assert(all.take(all.len() as int) =~= all);
    if sorted.len() > 0 {
        write_close(6, "row", out);
        proof {
            lemma_next_line(before, open_rows(all), close_line(6, "row"@));
        }
    }
}

/// What some lines inside an element come to.
proof fn lemma_wrapped_text(name: Seq<char>, lines: Seq<LineView>)
    ensures
        lines_text(wrapped(name, lines)) == line_text(open_line(4, name, no_fields())) + lines_text(
            lines,
        ) + line_text(close_line(4, name)),
{
    let first = seq![open_line(4, name, no_fields())];
    let last = seq![close_line(4, name)];
    lemma_lines_text(first + lines, last);
    lemma_lines_text(first, lines);
    lemma_single_line(first[0]);
    lemma_single_line(last[0]);
}

impl WorksheetData {
    /// Writes the worksheet behind what is there.
    pub fn write_xml(&self, out: &mut String)
        ensures
            final(out)@ == old(out)@ + lines_text(sheet_lines(self@)),
    {
        let ghost before = out@;
        let ghost s = self@;
        let mut fields = new_fields();
        push_text(&mut fields, "name", &self.name);
        write_open(2, "sheet", fields, out);
        let mut fields = new_fields();
        push_number(&mut fields, "maxRow", self.max_row);
        push_number(&mut fields, "maxCol", self.max_col);
        write_empty(4, "dimensions", fields, out);
        let ghost start = seq![
            open_line(2, "sheet"@, sheet_fields(s)),
            empty_line(4, "dimensions"@, dimension_fields(s)),
        ];
        proof {
            let none = Seq::<LineView>::empty();
            assert(before + lines_text(none) =~= before);
            lemma_next_line(before, none, start[0]);
            lemma_next_line(before, none.push(start[0]), start[1]);
            assert(none.push(start[0]).push(start[1]) =~= start);
        }
        assert(out@ == before + lines_text(start));

        write_open(4, "colWidths", new_fields(), out);
        write_cols(&self.col_widths, out);
        write_close(4, "colWidths", out);
        let ghost l1 = start + wrapped("colWidths"@, col_lines(s.col_widths));
        proof {
            lemma_section(
                before,
                start,
                "colWidths"@,
                col_lines(s.col_widths),
                out@,
            );
        }

        write_open(4, "rowHeights", new_fields(), out);
        write_heights(&self.row_heights, out);
        write_close(4, "rowHeights", out);
        let ghost l2 = l1 + wrapped("rowHeights"@, height_lines(s.row_heights));
        proof {
            lemma_section(before, l1, "rowHeights"@, height_lines(s.row_heights), out@);
        }

        write_open(4, "merges", new_fields(), out);
        write_merges(&self.merges, out);
        write_close(4, "merges", out);
        let ghost l3 = l2 + wrapped("merges"@, merge_lines(s.merges));
        proof {
            lemma_section(before, l2, "merges"@, merge_lines(s.merges), out@);
        }

        write_open(4, "rows", new_fields(), out);
        write_rows(&self.cells, out);
        write_close(4, "rows", out);
        let ghost l4 = l3 + wrapped("rows"@, row_lines(ordered(s.cells)));
        proof {
            lemma_section(before, l3, "rows"@, row_lines(ordered(s.cells)), out@);
        }

        write_open(4, "images", new_fields(), out);
        write_images(&self.images, out);
        write_close(4, "images", out);
        let ghost l5 = l4 + wrapped("images"@, image_lines(s.images));
        proof {
            lemma_section(before, l4, "images"@, image_lines(s.images), out@);
        }

        write_close(2, "sheet", out);
        proof {
            lemma_next_line(before, l5, close_line(2, "sheet"@));
            assert(l5.push(close_line(2, "sheet"@)) =~= sheet_lines(s));
        }
    }
}

/// What one more element of lines comes to.
proof fn lemma_section(
    before: Seq<char>,
    lines: Seq<LineView>,
    name: Seq<char>,
    inner: Seq<LineView>,
    out: Seq<char>,
)
    requires
        out == before + lines_text(lines) + line_text(open_line(4, name, no_fields()))
            + lines_text(inner) + line_text(close_line(4, name)),
    ensures
        out == before + lines_text(lines + wrapped(name, inner)),
{
    lemma_wrapped_text(name, inner);
    lemma_lines_text(lines, wrapped(name, inner));
    assert(out =~= before + (lines_text(lines) + (line_text(open_line(4, name, no_fields()))
        + lines_text(inner) + line_text(close_line(4, name)))));
}

} // verus!
