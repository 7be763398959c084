//! What references, ranges and merged cells come to.

use vstd::prelude::*;

use crate::cellref::{
    behind_colon, cell_name, col_letters, digits_of, is_letter, law_cell_name_reads_back,
    letter_value, letters_value, merge_corners, ref_col, ref_row,
};
use crate::drawing::drawing_images;
use crate::floats::FloatReading;
use crate::pieces::element;
use crate::sheet::{covering, covers, lemma_covering, with_span, Cell, Merge, SheetView};
use crate::styles::StylesView;
use crate::text::{ascii_upper, decimal, is_digit, lemma_decimal, lemma_first_of_unique};
use crate::worksheet::{
    cell_value, end_step, plain_type, read_state, read_step, sheet_of, style_format, tag_step,
    worksheet, ReadState, SheetSection,
};
use crate::xml::{xml_events, EventView, TagView};

verus! {

/// Columns are lettered like numbers with the digits `A` to `Z`: the first twenty-six have one
/// letter each, in the order of the alphabet, and the letters of another are those of the
/// column at a twenty-sixth and one of these.
pub proof fn law_column_letters(q: nat, r: nat)
    requires
        1 <= r <= 26,
    ensures
        col_letters(0).len() == 0,
        col_letters(r).len() == 1,
        col_letters(r)[0] as u32 == 'A' as u32 + r - 1,
        col_letters(26 * q + r) == col_letters(q) + col_letters(r),
{
    assert((r - 1) / 26 == 0 && (r - 1) % 26 == r - 1);
    assert(col_letters(r) =~= col_letters(0).push(crate::cellref::letter((r - 1) as nat)));
    let n = 26 * q + r;
    assert((n - 1) / 26 == q && (n - 1) % 26 == r - 1) by (nonlinear_arith)
        requires
            n == 26 * q + r,
            1 <= r <= 26,
    ;
    assert(col_letters(n) =~= col_letters(q) + col_letters(r));
}

/// Characters of a reference that are neither letters nor digits, such as the dollar sign, mean
/// nothing, wherever they stand.
pub proof fn law_other_characters_mean_nothing(a: Seq<char>, c: char, b: Seq<char>)
    requires
        !('A' <= c <= 'Z'),
        !('a' <= c <= 'z'),
        !('0' <= c <= '9'),
    ensures
        ref_col(a.push(c) + b) == ref_col(a + b),
        ref_row(a.push(c) + b) == ref_row(a + b),
{
    lemma_other_characters(a, c, b);
}

/// The letters and digits around another character.
proof fn lemma_other_characters(a: Seq<char>, c: char, b: Seq<char>)
    requires
        !('A' <= c <= 'Z'),
        !('a' <= c <= 'z'),
        !('0' <= c <= '9'),
    ensures
        letters_value(a.push(c) + b) == letters_value(a + b),
        digits_of(a.push(c) + b) == digits_of(a + b),
    decreases b.len(),
{
    reveal(Seq::filter);
    let x = a.push(c) + b;
    let y = a + b;
    if b.len() == 0 {
        assert(x =~= a.push(c));
        assert(x.drop_last() =~= a);
        assert(y =~= a);
    } else {
        lemma_other_characters(a, c, b.drop_last());
        assert(x.drop_last() =~= a.push(c) + b.drop_last());
        assert(y.drop_last() =~= a + b.drop_last());
        assert(x.last() == b.last() && y.last() == b.last());
    }
}

/// A reference means the same in upper and in lower case.
pub proof fn law_references_ignore_case(s: Seq<char>)
    ensures
        ref_col(ascii_upper(s)) == ref_col(s),
        ref_row(ascii_upper(s)) == ref_row(s),
{
    lemma_upper_reference(s);
}

/// The letters and digits of a reference in upper case.
proof fn lemma_upper_reference(s: Seq<char>)
    ensures
        letters_value(ascii_upper(s)) == letters_value(s),
        digits_of(ascii_upper(s)) == digits_of(s),
    decreases s.len(),
{
    reveal(Seq::filter);
    let u = ascii_upper(s);
    if s.len() > 0 {
        lemma_upper_reference(s.drop_last());
        assert(u.drop_last() =~= ascii_upper(s.drop_last()));
        let c = s.last();
        assert(u.last() == (if 'a' <= c <= 'z' {
            (c as u32 - 32) as char
        } else {
            c
        }));
        if 'a' <= c <= 'z' {
            assert(is_letter(u.last()) && letter_value(u.last()) == letter_value(c));
        }
    } else {
        assert(u =~= s);
    }
}

/// The name of a range: its first cell, a colon, its last cell.
pub open spec fn range_name(r1: nat, c1: nat, r2: nat, c2: nat) -> Seq<char> {
    cell_name(r1, c1).push(':') + cell_name(r2, c2)
}

/// Letters of columns are letters.
proof fn lemma_letters(n: nat)
    ensures
        forall|i: int| 0 <= i < col_letters(n).len() ==> is_letter(#[trigger] col_letters(n)[i]),
    decreases n,
{
    if n > 0 {
        let q = ((n - 1) / 26) as nat;
        lemma_letters(q);
        let s = col_letters(n);
        assert forall|i: int| 0 <= i < s.len() implies is_letter(#[trigger] s[i]) by {
            if i < s.len() - 1 {
                assert(s[i] == col_letters(q)[i]);
            }
        }
    }
}

/// The name of a cell holds no colon.
proof fn lemma_no_colon(row: nat, col: nat)
    ensures
        forall|i: int| 0 <= i < cell_name(row, col).len() ==> #[trigger] cell_name(row, col)[i]
            != ':',
{
    lemma_letters(col);
    lemma_decimal(row);
    let s = cell_name(row, col);
    let a = col_letters(col);
    assert forall|i: int| 0 <= i < s.len() implies #[trigger] s[i] != ':' by {
        if i < a.len() {
            assert(s[i] == a[i] && is_letter(a[i]));
        } else {
            assert(s[i] == decimal(row)[i - a.len()]);
            assert(is_digit(decimal(row)[i - a.len()]));
        }
    }
}

/// A range leads back to its corners.
pub proof fn law_range_reads_back(r1: u32, c1: u32, r2: u32, c2: u32)
    requires
        r1 > 0,
        c1 > 0,
    ensures
        merge_corners(range_name(r1 as nat, c1 as nat, r2 as nat, c2 as nat)) == Some(
            (r1 as nat, c1 as nat, r2 as nat, c2 as nat),
        ),
        behind_colon(range_name(r1 as nat, c1 as nat, r2 as nat, c2 as nat)) == Some(
            cell_name(r2 as nat, c2 as nat),
        ),
{
    let a = cell_name(r1 as nat, c1 as nat);
    let b = cell_name(r2 as nat, c2 as nat);
    let s = range_name(r1 as nat, c1 as nat, r2 as nat, c2 as nat);
    lemma_no_colon(r1 as nat, c1 as nat);
    lemma_no_colon(r2 as nat, c2 as nat);
    law_cell_name_reads_back(r1, c1);
    law_cell_name_reads_back(r2, c2);
    assert forall|i: int| 0 <= i < a.len() implies s[i] != ':' by {
        assert(s[i] == a[i]);
    }
    lemma_first_of_unique(s, ':', a.len() as int);
    assert(s.take(a.len() as int) =~= a);
    assert(s.skip(a.len() as int + 1) =~= b);
}

/// The names of a worksheet that matter here differ.
proof fn lemma_names()
    ensures
        "dimension"@.len() == 9,
        "mergeCell"@.len() == 9,
        "dimension"@[0] == 'd',
        "mergeCell"@[0] == 'm',
        "cols"@.len() == 4,
        "sheetData"@.len() == 9,
        "sheetData"@[0] == 's',
        "mergeCells"@.len() == 10,
        "col"@.len() == 3,
        "row"@.len() == 3,
        "c"@.len() == 1 && "c"@[0] == 'c',
        "v"@.len() == 1 && "v"@[0] == 'v',
        "t"@.len() == 1 && "t"@[0] == 't',
        "rPh"@.len() == 3,
        "drawing"@.len() == 7,
{
    reveal_strlit("dimension");
    reveal_strlit("cols");
    reveal_strlit("sheetData");
    reveal_strlit("mergeCells");
    reveal_strlit("col");
    reveal_strlit("row");
    reveal_strlit("c");
    reveal_strlit("v");
    reveal_strlit("t");
    reveal_strlit("rPh");
    reveal_strlit("mergeCell");
    reveal_strlit("drawing");
}

/// A `mergeCell` tag among the merged cells adds the range that it names, with its corners, and
/// changes nothing else.
pub proof fn law_merged_ranges_are_added(
    s: ReadState,
    t: TagView,
    r1: u32,
    c1: u32,
    r2: u32,
    c2: u32,
    shared: Seq<Seq<char>>,
    styles: StylesView,
    readings: Seq<FloatReading<Seq<char>>>,
)
    requires
        s.section == SheetSection::MergeCells,
        t.name == "mergeCell"@,
        r1 > 0,
        c1 > 0,
        t.attribute("ref"@) == Some(range_name(r1 as nat, c1 as nat, r2 as nat, c2 as nat)),
    ensures
        ({
            let after = read_step(s, EventView::Empty(t), shared, styles, readings);
            let m = after.sheet.merges.last();
            &&& after == read_step(s, EventView::Start(t), shared, styles, readings)
            &&& after.sheet.merges == s.sheet.merges.push(m)
            &&& m.ref_str == t.attribute("ref"@)->0
            &&& m.start_row == r1 && m.start_col == c1 && m.end_row == r2 && m.end_col == c2
            &&& after.sheet.cells == s.sheet.cells
            &&& after.sheet.col_widths == s.sheet.col_widths
            &&& after.sheet.row_heights == s.sheet.row_heights
            &&& after.section == s.section
        }),
{
    reveal(tag_step);
    reveal(end_step);
    lemma_names();
    law_range_reads_back(r1, c1, r2, c2);
}

/// A `dimension` tag sets the last row and the last column to those of its last cell; a cell
/// beyond them moves them on.
pub proof fn law_dimensions(
    s: ReadState,
    t: TagView,
    r1: u32,
    c1: u32,
    r2: u32,
    c2: u32,
    shared: Seq<Seq<char>>,
    styles: StylesView,
    readings: Seq<FloatReading<Seq<char>>>,
)
    requires
        r1 > 0,
        c1 > 0,
    ensures
        t.name == "dimension"@ && t.attribute("ref"@) == Some(
            range_name(r1 as nat, c1 as nat, r2 as nat, c2 as nat),
        ) ==> ({
            let after = read_step(s, EventView::Empty(t), shared, styles, readings);
            after.sheet.max_row == r2 && after.sheet.max_col == c2 && after.sheet.cells
                == s.sheet.cells
        }),
        t.name == "c"@ && s.section == SheetSection::SheetData && t.attribute("r"@) == Some(
            cell_name(r2 as nat, c2 as nat),
        ) ==> ({
            let after = read_step(s, EventView::Start(t), shared, styles, readings);
            &&& after.row == r2
            &&& after.col == c2
            &&& after.sheet.max_row == (if r2 > s.sheet.max_row {
                r2
            } else {
                s.sheet.max_row
            })
            &&& after.sheet.max_col == (if c2 > s.sheet.max_col {
                c2
            } else {
                s.sheet.max_col
            })
        }),
        t.name == "c"@ && s.section == SheetSection::SheetData && t.attribute("r"@) is None ==> ({
            let after = read_step(s, EventView::Start(t), shared, styles, readings);
            after.row == s.row && after.col == s.col && after.sheet == s.sheet
        }),
{
    reveal(tag_step);
    reveal(end_step);
    lemma_names();
    law_range_reads_back(r1, c1, r2, c2);
    law_cell_name_reads_back(r2, c2);
}

/// Where only one of some ranges covers a cell, that one counts.
proof fn lemma_only_one(merges: Seq<Merge<Seq<char>>>, row: u32, col: u32, k: int)
    requires
        0 <= k < merges.len(),
        covers(merges[k], row, col),
        forall|j: int| 0 <= j < merges.len() && j != k ==> !covers(#[trigger] merges[j], row, col),
    ensures
        covering(merges, row, col) == Some(merges[k]),
    decreases merges.len(),
{
    if k < merges.len() - 1 {
        assert(!covers(merges[merges.len() - 1], row, col));
        let rest = merges.drop_last();
        assert(rest[k] == merges[k]);
        assert forall|j: int| 0 <= j < rest.len() && j != k implies !covers(
            #[trigger] rest[j],
            row,
            col,
        ) by {
            assert(rest[j] == merges[j]);
        }
        lemma_only_one(rest, row, col, k);
    }
}

/// A cell at the first corner of a merged range spans the rows and the columns from its first
/// to its last, as long as no other range covers the cell. All else of a cell stays as it was
/// read.
pub proof fn law_cells_span_their_ranges(
    events: Seq<EventView>,
    name: Seq<char>,
    shared: Seq<Seq<char>>,
    styles: StylesView,
    readings: Seq<FloatReading<Seq<char>>>,
    i: int,
    k: int,
)
    requires
        ({
            let s = read_state(events, name, shared, styles, readings).sheet;
            &&& 0 <= i < s.cells.len()
            &&& 0 <= k < s.merges.len()
            &&& s.cells[i].row == s.merges[k].start_row <= s.merges[k].end_row
            &&& s.cells[i].col == s.merges[k].start_col <= s.merges[k].end_col
            &&& s.merges[k].start_row > 0
            &&& s.merges[k].start_col > 0
            &&& forall|j: int|
                0 <= j < s.merges.len() && j != k ==> !covers(
                    #[trigger] s.merges[j],
                    s.cells[i].row,
                    s.cells[i].col,
                )
        }),
    ensures
        ({
            let s = read_state(events, name, shared, styles, readings).sheet;
            let c = sheet_of(events, name, shared, styles, readings).cells[i];
            let m = s.merges[k];
            &&& c.rowspan == m.end_row - m.start_row + 1
            &&& c.colspan == m.end_col - m.start_col + 1
            &&& c.row == s.cells[i].row
            &&& c.col == s.cells[i].col
            &&& c.value == s.cells[i].value
            &&& c.cell_type == s.cells[i].cell_type
            &&& c.format == s.cells[i].format
        }),
{
    let s = read_state(events, name, shared, styles, readings).sheet;
    lemma_only_one(s.merges, s.cells[i].row, s.cells[i].col, k);
}

/// A text is no range where it has no colon or more than one, or where its first corner has no
/// row or no column. Then it is not added to the merged ranges, and a dimension without a colon
/// says nothing.
pub proof fn law_texts_that_are_no_ranges(
    s: ReadState,
    t: TagView,
    a: Seq<char>,
    b: Seq<char>,
    c: Seq<char>,
    shared: Seq<Seq<char>>,
    styles: StylesView,
    readings: Seq<FloatReading<Seq<char>>>,
)
    requires
        !a.contains(':'),
    ensures
        merge_corners(a) is None,
        behind_colon(a) is None,
        merge_corners(a.push(':') + (b.push(':') + c)) is None,
        ref_row(a) == 0 || ref_col(a) == 0 ==> merge_corners(a.push(':') + b) is None,
        behind_colon(a.push(':') + b) == Some(b),
        t.name == "mergeCell"@ && s.section == SheetSection::MergeCells && (t.attribute(
            "ref"@,
        ) is None || merge_corners(t.attribute("ref"@)->0) is None) ==> read_step(
            s,
            EventView::Empty(t),
            shared,
            styles,
            readings,
        ) == s,
        t.name == "dimension"@ && (t.attribute("ref"@) is None || t.attribute("ref"@) == Some(a))
            ==> read_step(s, EventView::Empty(t), shared, styles, readings) == s,
        t.name == "mergeCell"@ && s.section != SheetSection::MergeCells ==> read_step(
            s,
            EventView::Empty(t),
            shared,
            styles,
            readings,
        ) == s,
{
    reveal(tag_step);
    reveal(end_step);
    lemma_names();
    assert forall|i: int| 0 <= i < a.len() implies a[i] != ':' by {
        assert(a.contains(a[i]));
    }
    lemma_first_of_unique(a, ':', a.len() as int);
    let x = a.push(':') + (b.push(':') + c);
    assert(x[a.len() as int] == ':');
    lemma_first_of_unique(x, ':', a.len() as int);
    let rest = x.skip(a.len() as int + 1);
    assert(rest[b.len() as int] == ':');
    let y = a.push(':') + b;
    assert(y[a.len() as int] == ':');
    lemma_first_of_unique(y, ':', a.len() as int);
    assert(y.take(a.len() as int) =~= a);
    assert(y.skip(a.len() as int + 1) =~= b);
}

/// A range covers exactly the cells from its first corner to its last.
pub proof fn law_ranges_cover_their_cells(m: Merge<Seq<char>>, row: u32, col: u32)
    ensures
        covers(m, row, col) <==> m.start_row <= row && row <= m.end_row && m.start_col <= col
            && col <= m.end_col,
{
}

/// Of the ranges that cover a cell, the last one counts.
pub proof fn law_the_last_range_counts(
    merges: Seq<Merge<Seq<char>>>,
    m: Merge<Seq<char>>,
    row: u32,
    col: u32,
)
    ensures
        covering(Seq::empty(), row, col) is None,
        m.start_row <= row <= m.end_row && m.start_col <= col <= m.end_col ==> covering(
            merges.push(m),
            row,
            col,
        ) == Some(m),
        !(m.start_row <= row <= m.end_row && m.start_col <= col <= m.end_col) ==> covering(
            merges.push(m),
            row,
            col,
        ) == covering(merges, row, col),
{
    assert(merges.push(m).drop_last() =~= merges);
}

/// A cell at which no range begins stays as it was read.
pub proof fn law_other_cells_span_nothing(c: Cell<Seq<char>>, merges: Seq<Merge<Seq<char>>>)
    requires
        forall|j: int|
            0 <= j < merges.len() ==> (#[trigger] merges[j]).start_row != c.row
                || merges[j].start_col != c.col,
    ensures
        with_span(c, merges) == c,
{
    lemma_covering(merges, c.row, c.col);
}

/// A cell ends with the row, the column, the type and the style that it began with, and with the
/// value of its text if it has one. It is kept if it has a value or a style, or spans others; one
/// that a range known by then hides behind its first cell is not.
pub proof fn law_cells_end(
    s: ReadState,
    shared: Seq<Seq<char>>,
    styles: StylesView,
    readings: Seq<FloatReading<Seq<char>>>,
)
    requires
        s.section == SheetSection::SheetData,
    ensures
        ({
            let after = read_step(s, EventView::End("c"@), shared, styles, readings);
            let m = covering(s.sheet.merges, s.row, s.col);
            let here = m matches Some(m) ==> m.start_row == s.row && m.start_col == s.col;
            let c = after.sheet.cells.last();
            let filled = s.valued && cell_value(s.cell_type, s.value, shared).len() > 0;
            &&& after == (ReadState {
                sheet: SheetView { cells: after.sheet.cells, ..s.sheet },
                ..s
            })
            &&& !here ==> after.sheet.cells == s.sheet.cells
            &&& here && (filled || style_format(styles, s.style) is Some) ==> {
                &&& after.sheet.cells == s.sheet.cells.push(c)
                &&& c.row == s.row && c.col == s.col
                &&& c.format == style_format(styles, s.style)
                &&& s.valued ==> c.value == cell_value(s.cell_type, s.value, shared)
                &&& !s.valued ==> c.value.len() == 0
                &&& c.cell_type == plain_type(s.cell_type)
                &&& m is None ==> c.rowspan == 1 && c.colspan == 1
                &&& m matches Some(m) ==> {
                    &&& c.rowspan == (m.end_row - m.start_row + 1) as u32
                    &&& c.colspan == (m.end_col - m.start_col + 1) as u32
                }
            }
            &&& m is None && !filled && style_format(styles, s.style) is None
                ==> after.sheet.cells == s.sheet.cells
        }),
{
    reveal(end_step);
    lemma_names();
}

/// A worksheet that was read has the name it goes by, the columns, rows, merged ranges and cells
/// that its elements describe, in their order, and the images of the workbook if and only if it
/// has a drawing.
pub proof fn law_worksheet_is_what_was_read(
    data: Seq<u8>,
    name: Seq<char>,
    shared: Seq<Seq<char>>,
    styles: StylesView,
    parts: Seq<(Seq<char>, Seq<u8>)>,
    readings: Seq<FloatReading<Seq<char>>>,
)
    ensures
        ({
            let s = read_state(xml_events(data, false), name, shared, styles, readings);
            let w = worksheet(data, name, shared, styles, parts, readings);
            &&& w.col_widths == s.sheet.col_widths
            &&& w.row_heights == s.sheet.row_heights
            &&& w.merges == s.sheet.merges
            &&& w.max_row == s.sheet.max_row
            &&& w.max_col == s.sheet.max_col
            &&& w.cells.len() == s.sheet.cells.len()
            &&& forall|i: int|
                0 <= i < w.cells.len() ==> {
                    let c = #[trigger] w.cells[i];
                    &&& c.row == s.sheet.cells[i].row
                    &&& c.col == s.sheet.cells[i].col
                    &&& c.value == s.sheet.cells[i].value
                    &&& c.cell_type == s.sheet.cells[i].cell_type
                    &&& c.format == s.sheet.cells[i].format
                }
            &&& s.drawing ==> w.images == drawing_images(parts, readings)
            &&& !s.drawing ==> w.images == s.sheet.images
        }),
{
}

/// A worksheet has a drawing after a `drawing` tag with a relationship, with or without a
/// namespace prefix; no other element changes this.
pub proof fn law_drawings_are_noticed(
    s: ReadState,
    e: EventView,
    shared: Seq<Seq<char>>,
    styles: StylesView,
    readings: Seq<FloatReading<Seq<char>>>,
)
    ensures
        e matches EventView::Empty(t) ==> t.name == "drawing"@ ==> read_step(
            s,
            e,
            shared,
            styles,
            readings,
        ) == (ReadState { drawing: t.qualified("id"@) is Some, ..s }),
        element(e) != Some("drawing"@) ==> read_step(s, e, shared, styles, readings).drawing
            == s.drawing,
{
    reveal(tag_step);
    reveal(end_step);
    lemma_names();
}

} // verus!
