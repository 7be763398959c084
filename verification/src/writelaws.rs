//! The text of a handover document, line by line.

use vstd::prelude::*;

use crate::document::{
    cell_fields, cell_lines, col_fields, col_lines, dimension_fields, format_fields, height_fields,
    height_lines, image_fields, image_lines, law_ordered_sorted, merge_fields, merge_lines,
    no_fields, not_before, open_rows, ordered, row_fields, row_lines, sheet_fields, sheet_lines,
    sheets_lines, side, with_number, with_text, workbook_fields, workbook_lines, wrapped,
    DocumentView,
};
use crate::lines::{
    close_line, document_text, empty_line, field_text, fields_text, lemma_lines_text,
    lemma_single_line, line_text, lines_text, open_line, raw_field, spaces, text_field, Field,
    LineView,
};
use crate::sheet::{Cell, CellFormat, ColWidth, Image, Merge, RowHeight, SheetView};
use crate::text::{decimal, truth};
use crate::xml::xml_escaped;

verus! {

/// An attribute with its value, as it stands in a tag.
pub open spec fn said(name: Seq<char>, value: Seq<char>) -> Seq<char> {
    " "@ + name + "=\""@ + value + "\""@
}

/// An attribute that is left out where there is no value.
pub open spec fn said_if(name: Seq<char>, value: Option<Seq<char>>) -> Seq<char> {
    match value {
        Some(v) => said(name, v),
        None => Seq::empty(),
    }
}

/// A number in decimal where there is one.
pub open spec fn digits_if(n: Option<u32>) -> Option<Seq<char>> {
    match n {
        Some(n) => Some(decimal(n as nat)),
        None => None,
    }
}

/// A span in decimal where it is more than one.
pub open spec fn digits_of_span(n: u32) -> Option<Seq<char>> {
    if n > 1 {
        Some(decimal(n as nat))
    } else {
        None
    }
}

/// A truth value as a word.
pub open spec fn word_of(b: bool) -> Seq<char> {
    if b {
        "true"@
    } else {
        "false"@
    }
}

/// A line of a border as a word.
pub open spec fn word_of_line(s: Seq<char>) -> Seq<char> {
    if s.len() == 0 {
        "none"@
    } else {
        s
    }
}

/// One attribute more.
proof fn lemma_more(fields: Seq<Field<Seq<char>>>, f: Field<Seq<char>>)
    ensures
        fields_text(fields.push(f)) == fields_text(fields) + field_text(f),
{
    assert(fields.push(f).drop_last() =~= fields);
}

/// One attribute that is written as it stands.
proof fn lemma_raw(fields: Seq<Field<Seq<char>>>, name: Seq<char>, value: Seq<char>)
    ensures
        fields_text(fields.push(raw_field(name, value))) == fields_text(fields) + said(name, value),
{
    lemma_more(fields, raw_field(name, value));
}

/// One attribute that is escaped.
proof fn lemma_text(fields: Seq<Field<Seq<char>>>, name: Seq<char>, value: Seq<char>)
    ensures
        fields_text(fields.push(text_field(name, value))) == fields_text(fields) + said(
            name,
            xml_escaped(value),
        ),
{
    lemma_more(fields, text_field(name, value));
}

/// An attribute that may be missing.
proof fn lemma_number_if(fields: Seq<Field<Seq<char>>>, name: Seq<char>, n: Option<u32>)
    ensures
        fields_text(with_number(fields, name, n)) == fields_text(fields) + said_if(
            name,
            digits_if(n),
        ),
{
    match n {
        Some(n) => {
            lemma_raw(fields, name, decimal(n as nat));
        },
        None => {
            assert(fields_text(fields) + Seq::<char>::empty() =~= fields_text(fields));
        },
    }
}

/// An attribute that may be missing.
proof fn lemma_text_if(fields: Seq<Field<Seq<char>>>, name: Seq<char>, t: Option<Seq<char>>)
    ensures
        fields_text(with_text(fields, name, t)) == fields_text(fields) + said_if(name, t),
{
    match t {
        Some(t) => {
            lemma_raw(fields, name, t);
        },
        None => {
            assert(fields_text(fields) + Seq::<char>::empty() =~= fields_text(fields));
        },
    }
}

/// The first attribute.
proof fn lemma_first(x: Seq<char>)
    ensures
        fields_text(no_fields()) + x == x,
{
    assert(fields_text(no_fields()) =~= Seq::<char>::empty());
    assert(Seq::<char>::empty() + x =~= x);
}

/// An empty tag on its line.
proof fn lemma_empty(n: nat, name: Seq<char>, fields: Seq<Field<Seq<char>>>, head: Seq<char>)
    requires
        head == spaces(n) + "<"@ + name,
    ensures
        line_text(empty_line(n, name, fields)) == head + fields_text(fields) + "/>\n"@,
{
    reveal_strlit("/>\n");
    reveal_strlit("/>");
    reveal_strlit("\n");
    assert("/>\n"@ =~= "/>"@ + "\n"@);
    assert(line_text(empty_line(n, name, fields)) =~= head + fields_text(fields) + "/>\n"@);
}

/// A start tag on its line.
proof fn lemma_open(n: nat, name: Seq<char>, fields: Seq<Field<Seq<char>>>, head: Seq<char>)
    requires
        head == spaces(n) + "<"@ + name,
    ensures
        line_text(open_line(n, name, fields)) == head + fields_text(fields) + ">\n"@,
{
    reveal_strlit(">\n");
    reveal_strlit(">");
    reveal_strlit("\n");
    assert(">\n"@ =~= ">"@ + "\n"@);
    assert(line_text(open_line(n, name, fields)) =~= head + fields_text(fields) + ">\n"@);
}

/// An end tag on its line.
proof fn lemma_close(n: nat, name: Seq<char>, text: Seq<char>)
    requires
        text == spaces(n) + "</"@ + name + ">\n"@,
    ensures
        line_text(close_line(n, name)) == text,
{
    reveal_strlit(">\n");
    reveal_strlit(">");
    reveal_strlit("\n");
    assert(">\n"@ =~= ">"@ + "\n"@);
    assert(fields_text(Seq::<Field<Seq<char>>>::empty()) =~= Seq::<char>::empty());
    assert(line_text(close_line(n, name)) =~= text);
}

/// A column is written as one tag with its number, its width and whether it is hidden, behind
/// the columns before it.
pub proof fn law_columns_are_written(cols: Seq<ColWidth<Seq<char>>>, c: ColWidth<Seq<char>>)
    ensures
        lines_text(col_lines(cols.push(c))) == lines_text(col_lines(cols)) + ("      <col"@ + (
        said("index"@, decimal(c.index as nat)) + said("width"@, c.width) + said(
            "hidden"@,
            word_of(c.hidden),
        )) + "/>\n"@),
{
    reveal_strlit("      <col");
    reveal_strlit("<");
    reveal_strlit("col");
    assert("      <col"@ =~= spaces(6) + "<"@ + "col"@);
    lemma_empty(6, "col"@, col_fields(c), "      <col"@);
    let s0 = no_fields();
    let s1 = s0.push(raw_field("index"@, decimal(c.index as nat)));
    let s2 = s1.push(raw_field("width"@, c.width));
    lemma_raw(s0, "index"@, decimal(c.index as nat));
    lemma_raw(s1, "width"@, c.width);
    lemma_raw(s2, "hidden"@, truth(c.hidden));
    lemma_first(said("index"@, decimal(c.index as nat)));
    let all = col_lines(cols.push(c));
    assert(all.drop_last() =~= col_lines(cols));
    assert(all.last() == empty_line(6, "col"@, col_fields(c)));
}

/// A row height is written as one tag with its number, its height and whether the row is hidden,
/// behind the heights before it.
pub proof fn law_row_heights_are_written(rows: Seq<RowHeight<Seq<char>>>, r: RowHeight<Seq<char>>)
    ensures
        lines_text(height_lines(rows.push(r))) == lines_text(height_lines(rows)) + ("      <row"@
            + (said("index"@, decimal(r.index as nat)) + said("height"@, r.height) + said(
            "hidden"@,
            word_of(r.hidden),
        )) + "/>\n"@),
{
    reveal_strlit("      <row");
    reveal_strlit("<");
    reveal_strlit("row");
    assert("      <row"@ =~= spaces(6) + "<"@ + "row"@);
    lemma_empty(6, "row"@, height_fields(r), "      <row"@);
    let s0 = no_fields();
    let s1 = s0.push(raw_field("index"@, decimal(r.index as nat)));
    let s2 = s1.push(raw_field("height"@, r.height));
    lemma_raw(s0, "index"@, decimal(r.index as nat));
    lemma_raw(s1, "height"@, r.height);
    lemma_raw(s2, "hidden"@, truth(r.hidden));
    lemma_first(said("index"@, decimal(r.index as nat)));
    let all = height_lines(rows.push(r));
    assert(all.drop_last() =~= height_lines(rows));
    assert(all.last() == empty_line(6, "row"@, height_fields(r)));
}

/// A merged range is written as one tag with its text and its two corners, behind the ranges
/// before it.
pub proof fn law_merged_ranges_are_written(merges: Seq<Merge<Seq<char>>>, m: Merge<Seq<char>>)
    ensures
        lines_text(merge_lines(merges.push(m))) == lines_text(merge_lines(merges)) + (
        "      <merge"@ + (said("ref"@, xml_escaped(m.ref_str)) + said(
            "startRow"@,
            decimal(m.start_row as nat),
        ) + said("startCol"@, decimal(m.start_col as nat)) + said(
            "endRow"@,
            decimal(m.end_row as nat),
        ) + said("endCol"@, decimal(m.end_col as nat))) + "/>\n"@),
{
    reveal_strlit("      <merge");
    reveal_strlit("<");
    reveal_strlit("merge");
    assert("      <merge"@ =~= spaces(6) + "<"@ + "merge"@);
    lemma_empty(6, "merge"@, merge_fields(m), "      <merge"@);
    let s0 = no_fields();
    let s1 = s0.push(text_field("ref"@, m.ref_str));
    let s2 = s1.push(raw_field("startRow"@, decimal(m.start_row as nat)));
    let s3 = s2.push(raw_field("startCol"@, decimal(m.start_col as nat)));
    let s4 = s3.push(raw_field("endRow"@, decimal(m.end_row as nat)));
    lemma_text(s0, "ref"@, m.ref_str);
    lemma_raw(s1, "startRow"@, decimal(m.start_row as nat));
    lemma_raw(s2, "startCol"@, decimal(m.start_col as nat));
    lemma_raw(s3, "endRow"@, decimal(m.end_row as nat));
    lemma_raw(s4, "endCol"@, decimal(m.end_col as nat));
    lemma_first(said("ref"@, xml_escaped(m.ref_str)));
    let all = merge_lines(merges.push(m));
    assert(all.drop_last() =~= merge_lines(merges));
    assert(all.last() == empty_line(6, "merge"@, merge_fields(m)));
}

/// An image is written as one tag with where it stands, where it reaches to if that is known,
/// its kind, its size if that is known, and its bytes, behind the images before it.
pub proof fn law_images_are_written(images: Seq<Image<Seq<char>>>, i: Image<Seq<char>>)
    ensures
        lines_text(image_lines(images.push(i))) == lines_text(image_lines(images)) + (
        "      <image"@ + (said("row"@, decimal(i.row as nat)) + said(
            "col"@,
            decimal(i.col as nat),
        ) + said_if("toRow"@, digits_if(i.to_row)) + said_if("toCol"@, digits_if(i.to_col)) + said(
            "format"@,
            xml_escaped(i.fmt),
        ) + said_if("width"@, i.width) + said_if("height"@, i.height) + said("data"@, i.data_b64))
            + "/>\n"@),
{
    reveal_strlit("      <image");
    reveal_strlit("<");
    reveal_strlit("image");
    assert("      <image"@ =~= spaces(6) + "<"@ + "image"@);
    lemma_empty(6, "image"@, image_fields(i), "      <image"@);
    let s0 = no_fields();
    let s1 = s0.push(raw_field("row"@, decimal(i.row as nat)));
    let s2 = s1.push(raw_field("col"@, decimal(i.col as nat)));
    let s3 = with_number(s2, "toRow"@, i.to_row);
    let s4 = with_number(s3, "toCol"@, i.to_col);
    let s5 = s4.push(text_field("format"@, i.fmt));
    let s6 = with_text(s5, "width"@, i.width);
    let s7 = with_text(s6, "height"@, i.height);
    lemma_raw(s0, "row"@, decimal(i.row as nat));
    lemma_raw(s1, "col"@, decimal(i.col as nat));
    lemma_number_if(s2, "toRow"@, i.to_row);
    lemma_number_if(s3, "toCol"@, i.to_col);
    lemma_text(s4, "format"@, i.fmt);
    lemma_text_if(s5, "width"@, i.width);
    lemma_text_if(s6, "height"@, i.height);
    lemma_raw(s7, "data"@, i.data_b64);
    lemma_first(said("row"@, decimal(i.row as nat)));
    let all = image_lines(images.push(i));
    assert(all.drop_last() =~= image_lines(images));
    assert(all.last() == empty_line(6, "image"@, image_fields(i)));
}

/// The attributes of a cell: where it stands, its value, its type, and how far it spans if that
/// is more than itself.
pub open spec fn cell_text(c: Cell<Seq<char>>) -> Seq<char> {
    said("row"@, decimal(c.row as nat)) + said("col"@, decimal(c.col as nat)) + said(
        "value"@,
        xml_escaped(c.value),
    ) + said("type"@, xml_escaped(c.cell_type)) + said_if(
        "rowspan"@,
        digits_of_span(c.rowspan),
    ) + said_if("colspan"@, digits_of_span(c.colspan))
}

/// The attributes of a format. Two spaces stand before the alignment.
pub open spec fn format_text(f: CellFormat<Seq<char>>) -> Seq<char> {
    said("bold"@, word_of(f.bold)) + said("italic"@, word_of(f.italic)) + said(
        "underline"@,
        word_of(f.underline),
    ) + said("fontSize"@, f.font_size) + said("fontName"@, xml_escaped(f.font_name)) + said(
        "fontColor"@,
        xml_escaped(f.font_color),
    ) + said_if("bgColor"@, f.bg_color) + (" "@ + said("halign"@, xml_escaped(f.halign))) + said(
        "valign"@,
        xml_escaped(f.valign),
    ) + said("wrapText"@, word_of(f.wrap_text)) + said("indent"@, decimal(f.indent as nat)) + said(
        "borderTop"@,
        word_of_line(f.border_top),
    ) + said("borderBottom"@, word_of_line(f.border_bottom)) + said(
        "borderLeft"@,
        word_of_line(f.border_left),
    ) + said("borderRight"@, word_of_line(f.border_right)) + said("numFmt"@, xml_escaped(f.num_fmt))
}

/// The attributes of a cell.
proof fn lemma_cell_text(c: Cell<Seq<char>>)
    ensures
        fields_text(cell_fields(c)) == cell_text(c),
{
    let s0 = no_fields();
    let s1 = s0.push(raw_field("row"@, decimal(c.row as nat)));
    let s2 = s1.push(raw_field("col"@, decimal(c.col as nat)));
    let s3 = s2.push(text_field("value"@, c.value));
    let s4 = s3.push(text_field("type"@, c.cell_type));
    let rowspan = if c.rowspan > 1 {
        Some(c.rowspan)
    } else {
        None
    };
    let colspan = if c.colspan > 1 {
        Some(c.colspan)
    } else {
        None
    };
    let s5 = with_number(s4, "rowspan"@, rowspan);
    lemma_raw(s0, "row"@, decimal(c.row as nat));
    lemma_raw(s1, "col"@, decimal(c.col as nat));
    lemma_text(s2, "value"@, c.value);
    lemma_text(s3, "type"@, c.cell_type);
    lemma_number_if(s4, "rowspan"@, rowspan);
    lemma_number_if(s5, "colspan"@, colspan);
    lemma_first(said("row"@, decimal(c.row as nat)));
}

/// The attributes of a format.
proof fn lemma_format_text(f: CellFormat<Seq<char>>)
    ensures
        fields_text(format_fields(f)) == format_text(f),
{
    let s0 = no_fields();
    let s1 = s0.push(raw_field("bold"@, truth(f.bold)));
    let s2 = s1.push(raw_field("italic"@, truth(f.italic)));
    let s3 = s2.push(raw_field("underline"@, truth(f.underline)));
    let s4 = s3.push(raw_field("fontSize"@, f.font_size));
    let s5 = s4.push(text_field("fontName"@, f.font_name));
    let s6 = s5.push(text_field("fontColor"@, f.font_color));
    let s7 = with_text(s6, "bgColor"@, f.bg_color);
    let wide = Field { name: "halign"@, value: f.halign, raw: false, wide: true };
    let s8 = s7.push(wide);
    let s9 = s8.push(text_field("valign"@, f.valign));
    let s10 = s9.push(raw_field("wrapText"@, truth(f.wrap_text)));
    let s11 = s10.push(raw_field("indent"@, decimal(f.indent as nat)));
    let s12 = s11.push(raw_field("borderTop"@, side(f.border_top)));
    let s13 = s12.push(raw_field("borderBottom"@, side(f.border_bottom)));
    let s14 = s13.push(raw_field("borderLeft"@, side(f.border_left)));
    let s15 = s14.push(raw_field("borderRight"@, side(f.border_right)));
    lemma_raw(s0, "bold"@, truth(f.bold));
    lemma_raw(s1, "italic"@, truth(f.italic));
    lemma_raw(s2, "underline"@, truth(f.underline));
    lemma_raw(s3, "fontSize"@, f.font_size);
    lemma_text(s4, "fontName"@, f.font_name);
    lemma_text(s5, "fontColor"@, f.font_color);
    lemma_text_if(s6, "bgColor"@, f.bg_color);
    lemma_more(s7, wide);
    lemma_wide(f.halign);
    lemma_text(s8, "valign"@, f.valign);
    lemma_raw(s9, "wrapText"@, truth(f.wrap_text));
    lemma_raw(s10, "indent"@, decimal(f.indent as nat));
    lemma_raw(s11, "borderTop"@, side(f.border_top));
    lemma_raw(s12, "borderBottom"@, side(f.border_bottom));
    lemma_raw(s13, "borderLeft"@, side(f.border_left));
    lemma_raw(s14, "borderRight"@, side(f.border_right));
    lemma_text(s15, "numFmt"@, f.num_fmt);
    lemma_first(said("bold"@, word_of(f.bold)));
}

/// The alignment behind two spaces.
proof fn lemma_wide(value: Seq<char>)
    ensures
        field_text(Field { name: "halign"@, value, raw: false, wide: true }) == " "@ + said(
            "halign"@,
            xml_escaped(value),
        ),
{
    reveal_strlit("  ");
    reveal_strlit(" ");
    assert("  "@ =~= " "@ + " "@);
    assert(field_text(Field { name: "halign"@, value, raw: false, wide: true }) =~= " "@ + said(
        "halign"@,
        xml_escaped(value),
    ));
}

/// A cell is written as one empty tag, or with its format inside.
pub proof fn law_cells_are_written(c: Cell<Seq<char>>)
    ensures
        c.format is None ==> lines_text(cell_lines(c)) == "        <cell"@ + cell_text(c)
            + "/>\n"@,
        c.format matches Some(f) ==> lines_text(cell_lines(c)) == "        <cell"@ + cell_text(c)
            + ">\n"@ + ("          <format"@ + format_text(f) + "/>\n"@) + "        </cell>\n"@,
{
    reveal_strlit("        <cell");
    reveal_strlit("          <format");
    reveal_strlit("        </cell>\n");
    reveal_strlit("<");
    reveal_strlit("</");
    reveal_strlit("cell");
    reveal_strlit("format");
    reveal_strlit(">\n");
    assert("        <cell"@ =~= spaces(8) + "<"@ + "cell"@);
    assert("          <format"@ =~= spaces(10) + "<"@ + "format"@);
    assert("        </cell>\n"@ =~= spaces(8) + "</"@ + "cell"@ + ">\n"@);
    lemma_cell_text(c);
    lemma_empty(8, "cell"@, cell_fields(c), "        <cell"@);
    lemma_open(8, "cell"@, cell_fields(c), "        <cell"@);
    lemma_close(8, "cell"@, "        </cell>\n"@);
    match c.format {
        None => {
            lemma_single_line(empty_line(8, "cell"@, cell_fields(c)));
        },
        Some(f) => {
            lemma_format_text(f);
            lemma_empty(10, "format"@, format_fields(f), "          <format"@);
            let a = open_line(8, "cell"@, cell_fields(c));
            let b = empty_line(10, "format"@, format_fields(f));
            let d = close_line(8, "cell"@);
            assert(cell_lines(c) =~= seq![a] + seq![b] + seq![d]);
            lemma_lines_text(seq![a] + seq![b], seq![d]);
            lemma_lines_text(seq![a], seq![b]);
            lemma_single_line(a);
            lemma_single_line(b);
            lemma_single_line(d);
        },
    }
}

/// A row of cells begins and ends with its tags.
proof fn lemma_row_tags(row: u32)
    ensures
        line_text(open_line(6, "row"@, row_fields(row))) == "      <row"@ + said(
            "index"@,
            decimal(row as nat),
        ) + ">\n"@,
        line_text(close_line(6, "row"@)) == "      </row>\n"@,
{
    reveal_strlit("      <row");
    reveal_strlit("      </row>\n");
    reveal_strlit("<");
    reveal_strlit("</");
    reveal_strlit("row");
    reveal_strlit(">\n");
    assert("      <row"@ =~= spaces(6) + "<"@ + "row"@);
    assert("      </row>\n"@ =~= spaces(6) + "</"@ + "row"@ + ">\n"@);
    lemma_open(6, "row"@, row_fields(row), "      <row"@);
    lemma_close(6, "row"@, "      </row>\n"@);
    lemma_raw(no_fields(), "index"@, decimal(row as nat));
    lemma_first(said("index"@, decimal(row as nat)));
}

/// Cells are written one behind the other, those of one row together inside a `row` element with
/// its number: a cell in the row of the one before it joins that element, and a cell in another
/// row begins a new one behind it.
pub proof fn law_rows_of_cells_are_written(cells: Seq<Cell<Seq<char>>>, c: Cell<Seq<char>>)
    ensures
        ({
            let before = lines_text(open_rows(cells));
            let after = lines_text(open_rows(cells.push(c)));
            let begin = "      <row"@ + said("index"@, decimal(c.row as nat)) + ">\n"@;
            let end = "      </row>\n"@;
            &&& cells.len() == 0 ==> after == begin + lines_text(cell_lines(c))
            &&& cells.len() > 0 && cells.last().row == c.row ==> after == before + lines_text(
                cell_lines(c),
            )
            &&& cells.len() > 0 && cells.last().row != c.row ==> after == before + (end + begin)
                + lines_text(cell_lines(c))
            &&& lines_text(row_lines(cells.push(c))) == after + end
            &&& lines_text(row_lines(Seq::empty())).len() == 0
        }),
{
    lemma_row_tags(c.row);
    let all = cells.push(c);
    assert(all.drop_last() =~= cells);
    let open = open_line(6, "row"@, row_fields(c.row));
    let close = close_line(6, "row"@);
    lemma_single_line(open);
    lemma_single_line(close);
    let head = if cells.len() == 0 {
        seq![open]
    } else if cells.last().row != c.row {
        seq![close, open]
    } else {
        Seq::empty()
    };
    assert(open_rows(all) == open_rows(cells) + head + cell_lines(c));
    lemma_lines_text(open_rows(cells) + head, cell_lines(c));
    lemma_lines_text(open_rows(cells), head);
    assert(seq![close, open] =~= seq![close] + seq![open]);
    lemma_lines_text(seq![close], seq![open]);
    assert(lines_text(Seq::<LineView>::empty()) =~= Seq::<char>::empty());
    let before = lines_text(open_rows(cells));
    assert(before + Seq::<char>::empty() =~= before);
    if cells.len() == 0 {
        assert(before =~= Seq::<char>::empty());
        assert(before + line_text(open) =~= line_text(open));
    }
    assert(row_lines(all) =~= open_rows(all) + seq![close]);
    lemma_lines_text(open_rows(all), seq![close]);
}

/// Cells are written row by row, and from left to right in each row.
pub proof fn law_cells_are_in_order(cells: Seq<Cell<Seq<char>>>, i: int, j: int)
    requires
        0 <= i <= j < ordered(cells).len(),
    ensures
        ordered(cells)[i].row <= ordered(cells)[j].row,
        ordered(cells)[i].row == ordered(cells)[j].row ==> ordered(cells)[i].col <= ordered(
            cells,
        )[j].col,
{
    law_ordered_sorted(cells);
    assert(not_before(ordered(cells)[j], ordered(cells)[i]));
}

/// A section of a sheet, between its tags.
proof fn lemma_wrapped(
    name: Seq<char>,
    lines: Seq<LineView>,
    begin: Seq<char>,
    end: Seq<char>,
)
    requires
        begin == spaces(4) + "<"@ + name + ">\n"@,
        end == spaces(4) + "</"@ + name + ">\n"@,
    ensures
        lines_text(wrapped(name, lines)) == begin + lines_text(lines) + end,
{
    let a = open_line(4, name, no_fields());
    let b = close_line(4, name);
    lemma_open(4, name, no_fields(), spaces(4) + "<"@ + name);
    lemma_close(4, name, end);
    assert(fields_text(no_fields()) =~= Seq::<char>::empty());
    assert(spaces(4) + "<"@ + name + Seq::<char>::empty() + ">\n"@ =~= begin);
    lemma_lines_text(seq![a] + lines, seq![b]);
    lemma_lines_text(seq![a], lines);
    lemma_single_line(a);
    lemma_single_line(b);
}

/// The beginning of a sheet: its tag with its name, and its size.
proof fn lemma_sheet_head(s: SheetView)
    ensures
        lines_text(
            seq![
                open_line(2, "sheet"@, sheet_fields(s)),
                empty_line(4, "dimensions"@, dimension_fields(s)),
            ],
        ) == "  <sheet"@ + said("name"@, xml_escaped(s.name)) + ">\n"@ + ("    <dimensions"@ + (
        said("maxRow"@, decimal(s.max_row as nat)) + said("maxCol"@, decimal(s.max_col as nat)))
            + "/>\n"@),
        lines_text(seq![close_line(2, "sheet"@)]) == "  </sheet>\n"@,
{
    reveal_strlit("  <sheet");
    reveal_strlit("  </sheet>\n");
    reveal_strlit("    <dimensions");
    reveal_strlit("<");
    reveal_strlit("</");
    reveal_strlit("sheet");
    reveal_strlit("dimensions");
    reveal_strlit(">\n");
    assert("  <sheet"@ =~= spaces(2) + "<"@ + "sheet"@);
    assert("  </sheet>\n"@ =~= spaces(2) + "</"@ + "sheet"@ + ">\n"@);
    assert("    <dimensions"@ =~= spaces(4) + "<"@ + "dimensions"@);
    let a = open_line(2, "sheet"@, sheet_fields(s));
    let b = empty_line(4, "dimensions"@, dimension_fields(s));
    lemma_open(2, "sheet"@, sheet_fields(s), "  <sheet"@);
    lemma_empty(4, "dimensions"@, dimension_fields(s), "    <dimensions"@);
    lemma_close(2, "sheet"@, "  </sheet>\n"@);
    lemma_text(no_fields(), "name"@, s.name);
    lemma_first(said("name"@, xml_escaped(s.name)));
    let s1 = no_fields().push(raw_field("maxRow"@, decimal(s.max_row as nat)));
    lemma_raw(no_fields(), "maxRow"@, decimal(s.max_row as nat));
    lemma_raw(s1, "maxCol"@, decimal(s.max_col as nat));
    lemma_first(said("maxRow"@, decimal(s.max_row as nat)));
    assert(seq![a, b] =~= seq![a] + seq![b]);
    lemma_lines_text(seq![a], seq![b]);
    lemma_single_line(a);
    lemma_single_line(b);
    lemma_single_line(close_line(2, "sheet"@));
}

/// The tags around the sections of a sheet.
proof fn lemma_section_tags()
    ensures
        "    <colWidths>\n"@ == spaces(4) + "<"@ + "colWidths"@ + ">\n"@,
        "    </colWidths>\n"@ == spaces(4) + "</"@ + "colWidths"@ + ">\n"@,
        "    <rowHeights>\n"@ == spaces(4) + "<"@ + "rowHeights"@ + ">\n"@,
        "    </rowHeights>\n"@ == spaces(4) + "</"@ + "rowHeights"@ + ">\n"@,
        "    <merges>\n"@ == spaces(4) + "<"@ + "merges"@ + ">\n"@,
        "    </merges>\n"@ == spaces(4) + "</"@ + "merges"@ + ">\n"@,
        "    <rows>\n"@ == spaces(4) + "<"@ + "rows"@ + ">\n"@,
        "    </rows>\n"@ == spaces(4) + "</"@ + "rows"@ + ">\n"@,
        "    <images>\n"@ == spaces(4) + "<"@ + "images"@ + ">\n"@,
        "    </images>\n"@ == spaces(4) + "</"@ + "images"@ + ">\n"@,
{
    reveal_strlit("<");
    reveal_strlit("</");
    reveal_strlit(">\n");
    reveal_strlit("colWidths");
    reveal_strlit("rowHeights");
    reveal_strlit("merges");
    reveal_strlit("rows");
    reveal_strlit("images");
    reveal_strlit("    <colWidths>\n");
    reveal_strlit("    </colWidths>\n");
    reveal_strlit("    <rowHeights>\n");
    reveal_strlit("    </rowHeights>\n");
    reveal_strlit("    <merges>\n");
    reveal_strlit("    </merges>\n");
    reveal_strlit("    <rows>\n");
    reveal_strlit("    </rows>\n");
    reveal_strlit("    <images>\n");
    reveal_strlit("    </images>\n");
    assert("    <colWidths>\n"@ =~= spaces(4) + "<"@ + "colWidths"@ + ">\n"@);
    assert("    </colWidths>\n"@ =~= spaces(4) + "</"@ + "colWidths"@ + ">\n"@);
    assert("    <rowHeights>\n"@ =~= spaces(4) + "<"@ + "rowHeights"@ + ">\n"@);
    assert("    </rowHeights>\n"@ =~= spaces(4) + "</"@ + "rowHeights"@ + ">\n"@);
    assert("    <merges>\n"@ =~= spaces(4) + "<"@ + "merges"@ + ">\n"@);
    assert("    </merges>\n"@ =~= spaces(4) + "</"@ + "merges"@ + ">\n"@);
    assert("    <rows>\n"@ =~= spaces(4) + "<"@ + "rows"@ + ">\n"@);
    assert("    </rows>\n"@ =~= spaces(4) + "</"@ + "rows"@ + ">\n"@);
    assert("    <images>\n"@ =~= spaces(4) + "<"@ + "images"@ + ">\n"@);
    assert("    </images>\n"@ =~= spaces(4) + "</"@ + "images"@ + ">\n"@);
}

/// A worksheet is written with its name, its size, and one after the other its columns, its row
/// heights, its merged ranges, its cells in the order of rows and columns, and its images.
pub proof fn law_sheets_are_written(s: SheetView)
    ensures
        lines_text(sheet_lines(s)) == ("  <sheet"@ + said("name"@, xml_escaped(s.name)) + ">\n"@ + (
        "    <dimensions"@ + (said("maxRow"@, decimal(s.max_row as nat)) + said(
            "maxCol"@,
            decimal(s.max_col as nat),
        )) + "/>\n"@)) + ("    <colWidths>\n"@ + lines_text(col_lines(s.col_widths))
            + "    </colWidths>\n"@) + ("    <rowHeights>\n"@ + lines_text(
            height_lines(s.row_heights),
        ) + "    </rowHeights>\n"@) + ("    <merges>\n"@ + lines_text(merge_lines(s.merges))
            + "    </merges>\n"@) + ("    <rows>\n"@ + lines_text(row_lines(ordered(s.cells)))
            + "    </rows>\n"@) + ("    <images>\n"@ + lines_text(image_lines(s.images))
            + "    </images>\n"@) + "  </sheet>\n"@,
{
    lemma_sheet_head(s);
    lemma_section_tags();
    let head = seq![
        open_line(2, "sheet"@, sheet_fields(s)),
        empty_line(4, "dimensions"@, dimension_fields(s)),
    ];
    let a = wrapped("colWidths"@, col_lines(s.col_widths));
    let b = wrapped("rowHeights"@, height_lines(s.row_heights));
    let c = wrapped("merges"@, merge_lines(s.merges));
    let d = wrapped("rows"@, row_lines(ordered(s.cells)));
    let e = wrapped("images"@, image_lines(s.images));
    let last = seq![close_line(2, "sheet"@)];
    lemma_wrapped(
        "colWidths"@,
        col_lines(s.col_widths),
        "    <colWidths>\n"@,
        "    </colWidths>\n"@,
    );
    lemma_wrapped(
        "rowHeights"@,
        height_lines(s.row_heights),
        "    <rowHeights>\n"@,
        "    </rowHeights>\n"@,
    );
    lemma_wrapped("merges"@, merge_lines(s.merges), "    <merges>\n"@, "    </merges>\n"@);
    lemma_wrapped("rows"@, row_lines(ordered(s.cells)), "    <rows>\n"@, "    </rows>\n"@);
    lemma_wrapped("images"@, image_lines(s.images), "    <images>\n"@, "    </images>\n"@);
    lemma_lines_text(head + a + b + c + d + e, last);
    lemma_lines_text(head + a + b + c + d, e);
    lemma_lines_text(head + a + b + c, d);
    lemma_lines_text(head + a + b, c);
    lemma_lines_text(head + a, b);
    lemma_lines_text(head, a);
}

/// A document is written with a declaration, its name, its time and its fingerprint, and its
/// worksheets in their order.
pub proof fn law_documents_are_written(d: DocumentView, sheets: Seq<SheetView>, s: SheetView)
    ensures
        document_text(workbook_lines(d)) == "<?xml version=\"1.0\" encoding=\"UTF-8\"?>\n"@ + (
        "<workbook"@ + (said("filename"@, xml_escaped(d.filename)) + said(
            "converted"@,
            xml_escaped(d.converted),
        ) + said("hash"@, xml_escaped(d.hash))) + ">\n"@ + lines_text(sheets_lines(d.sheets))
            + "</workbook>\n"@),
        lines_text(sheets_lines(Seq::empty())).len() == 0,
        lines_text(sheets_lines(sheets.push(s))) == lines_text(sheets_lines(sheets)) + lines_text(
            sheet_lines(s),
        ),
{
    reveal_strlit("<workbook");
    reveal_strlit("</workbook>\n");
    reveal_strlit("<");
    reveal_strlit("</");
    reveal_strlit("workbook");
    reveal_strlit(">\n");
    assert("<workbook"@ =~= spaces(0) + "<"@ + "workbook"@);
    assert("</workbook>\n"@ =~= spaces(0) + "</"@ + "workbook"@ + ">\n"@);
    let a = open_line(0, "workbook"@, workbook_fields(d));
    let b = close_line(0, "workbook"@);
    lemma_open(0, "workbook"@, workbook_fields(d), "<workbook"@);
    lemma_close(0, "workbook"@, "</workbook>\n"@);
    let s1 = no_fields().push(text_field("filename"@, d.filename));
    let s2 = s1.push(text_field("converted"@, d.converted));
    lemma_text(no_fields(), "filename"@, d.filename);
    lemma_text(s1, "converted"@, d.converted);
    lemma_text(s2, "hash"@, d.hash);
    lemma_first(said("filename"@, xml_escaped(d.filename)));
    let middle = sheets_lines(d.sheets);
    lemma_lines_text(seq![a] + middle, seq![b]);
    lemma_lines_text(seq![a], middle);
    lemma_single_line(a);
    lemma_single_line(b);
    assert(sheets.push(s).drop_last() =~= sheets);
    lemma_lines_text(sheets_lines(sheets), sheet_lines(s));
}

} // verus!
