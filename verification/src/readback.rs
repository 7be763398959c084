//! Reading a handover document back: what the library wrote is what it finds.

use vstd::prelude::*;

use crate::document::{
    cell_fields, cell_lines, col_fields, col_lines, dimension_fields, format_fields, height_fields,
    height_lines, image_fields, image_lines, lemma_place_for, merge_fields, merge_lines, no_fields,
    open_rows, ordered, place_for, real_span, row_fields, row_lines, sheet_fields, sheet_lines,
    sheets_lines, side, with_number, with_text, workbook_fields, workbook_lines, wrapped,
    DocumentView,
};
use crate::lines::{
    close_line, document_events, empty_line, field_attrs, fields_clean, in_order, is_name, is_plain,
    line_event, line_in_order, line_tag, nesting, nesting_step, open_line, raw_field, read_as,
    reads_as, text_field, Field, Form, LineView,
};
use crate::sheet::{Cell, CellFormat, ColWidth, Image, Merge, RowHeight, SheetView};
use crate::text::{decimal, is_digit, lemma_decimal, truth};
use crate::xml::{find_attribute, root_attribute, root_tag, Attr, EventView};

verus! {

/// Whether an optional text can stand between quotation marks as it is.
pub open spec fn plain_optional(s: Option<Seq<char>>) -> bool {
    s matches Some(t) ==> is_plain(t)
}

/// Whether a format is in order: its size, its background and its borders, which are written
/// without escaping, hold no quotation mark.
pub open spec fn plain_cell_format(f: CellFormat<Seq<char>>) -> bool {
    &&& is_plain(f.font_size)
    &&& plain_optional(f.bg_color)
    &&& is_plain(f.border_top)
    &&& is_plain(f.border_bottom)
    &&& is_plain(f.border_left)
    &&& is_plain(f.border_right)
}

/// Whether a cell is in order.
pub open spec fn plain_cell(c: Cell<Seq<char>>) -> bool {
    c.format matches Some(f) ==> plain_cell_format(f)
}

/// Whether an image is in order.
pub open spec fn plain_image(i: Image<Seq<char>>) -> bool {
    is_plain(i.data_b64) && plain_optional(i.width) && plain_optional(i.height)
}

/// Whether a worksheet is in order: what is written without escaping holds no quotation
/// mark.
pub open spec fn plain_sheet(s: SheetView) -> bool {
    &&& forall|i: int| 0 <= i < s.col_widths.len() ==> is_plain((#[trigger] s.col_widths[i]).width)
    &&& forall|i: int|
        0 <= i < s.row_heights.len() ==> is_plain((#[trigger] s.row_heights[i]).height)
    &&& forall|i: int| 0 <= i < s.cells.len() ==> plain_cell(#[trigger] s.cells[i])
    &&& forall|i: int| 0 <= i < s.images.len() ==> plain_image(#[trigger] s.images[i])
}

/// Whether a document is in order: what is written without escaping holds no quotation
/// mark.
pub open spec fn plain_document(d: DocumentView) -> bool {
    forall|i: int| 0 <= i < d.sheets.len() ==> plain_sheet(#[trigger] d.sheets[i])
}

/// Whether a format holds no ampersand where it is written without escaping.
pub open spec fn clean_format(f: CellFormat<Seq<char>>) -> bool {
    &&& !f.font_size.contains('&')
    &&& f.bg_color matches Some(c) ==> !c.contains('&')
    &&& !f.border_top.contains('&')
    &&& !f.border_bottom.contains('&')
    &&& !f.border_left.contains('&')
    &&& !f.border_right.contains('&')
}

/// Whether a cell holds no ampersand where it is written without escaping.
pub open spec fn clean_cell(c: Cell<Seq<char>>) -> bool {
    c.format matches Some(f) ==> clean_format(f)
}

/// Whether an image holds no ampersand where it is written without escaping.
pub open spec fn clean_image(i: Image<Seq<char>>) -> bool {
    &&& !i.data_b64.contains('&')
    &&& i.width matches Some(w) ==> !w.contains('&')
    &&& i.height matches Some(h) ==> !h.contains('&')
}

/// Whether a worksheet holds no ampersand where it is written without escaping.
pub open spec fn clean_sheet(s: SheetView) -> bool {
    &&& forall|i: int|
        0 <= i < s.col_widths.len() ==> !(#[trigger] s.col_widths[i]).width.contains('&')
    &&& forall|i: int|
        0 <= i < s.row_heights.len() ==> !(#[trigger] s.row_heights[i]).height.contains('&')
    &&& forall|i: int| 0 <= i < s.cells.len() ==> clean_cell(#[trigger] s.cells[i])
    &&& forall|i: int| 0 <= i < s.images.len() ==> clean_image(#[trigger] s.images[i])
}

/// Whether a document holds neither quotation marks nor ampersands where it is written
/// without escaping: in numbers, background colours, borders and image data.
pub open spec fn clean_document(d: DocumentView) -> bool {
    plain_document(d) && forall|i: int|
        0 <= i < d.sheets.len() ==> clean_sheet(#[trigger] d.sheets[i])
}

/// Whether attributes are in order.
#[verifier::opaque]
pub closed spec fn fields_in_order(fields: Seq<Field<Seq<char>>>) -> bool {
    &&& forall|i: int| 0 <= i < fields.len() ==> is_name((#[trigger] fields[i]).name)
    &&& forall|i: int|
        0 <= i < fields.len() && (#[trigger] fields[i]).raw ==> is_plain(fields[i].value)
    &&& forall|i: int, j: int|
        0 <= i < j < fields.len() ==> (#[trigger] fields[i]).name != (#[trigger] fields[j]).name
}

/// Whether none of some attributes has a name with this mark.
#[verifier::opaque]
spec fn fresh(fields: Seq<Field<Seq<char>>>, m: (nat, char, char, char)) -> bool {
    forall|i: int| 0 <= i < fields.len() ==> mark((#[trigger] fields[i]).name) != m
}

/// A decimal number needs no escaping.
proof fn lemma_decimal_plain(n: nat)
    ensures
        is_plain(decimal(n)),
        !decimal(n).contains('&'),
{
    lemma_decimal(n);
    let s = decimal(n);
    assert forall|i: int| 0 <= i < s.len() implies #[trigger] s[i] != '&' && s[i] != '"' by {
        assert(is_digit(s[i]));
    }
}

/// A truth value needs no escaping.
proof fn lemma_truth_plain(b: bool)
    ensures
        is_plain(truth(b)),
        !truth(b).contains('&'),
{
    reveal_strlit("true");
    reveal_strlit("false");
}

/// A side of a border needs no more escaping than its style.
pub(crate) proof fn lemma_side_plain(s: Seq<char>)
    ensures
        is_plain(s) ==> is_plain(side(s)),
        !s.contains('&') ==> !side(s).contains('&'),
{
    reveal_strlit("none");
}

/// What tells the names in a document apart: length, first, middle and last character.
spec fn mark(s: Seq<char>) -> (nat, char, char, char) {
    (s.len(), s[0], s[s.len() as int / 2], s.last())
}

/// Whether `s` is a name with this length and these characters.
spec fn word(s: Seq<char>, len: nat, first: char, middle: char, last: char) -> bool {
    is_name(s) && mark(s) == (len, first, middle, last)
}

/// The names of the attributes of a format.
proof fn lemma_format_words()
    ensures
        word("bold"@, 4, 'b', 'l', 'd'),
        word("italic"@, 6, 'i', 'l', 'c'),
        word("underline"@, 9, 'u', 'r', 'e'),
        word("fontSize"@, 8, 'f', 'S', 'e'),
        word("fontName"@, 8, 'f', 'N', 'e'),
        word("fontColor"@, 9, 'f', 'C', 'r'),
        word("bgColor"@, 7, 'b', 'o', 'r'),
        word("halign"@, 6, 'h', 'i', 'n'),
        word("valign"@, 6, 'v', 'i', 'n'),
        word("wrapText"@, 8, 'w', 'T', 't'),
        word("indent"@, 6, 'i', 'e', 't'),
        word("borderTop"@, 9, 'b', 'e', 'p'),
        word("borderBottom"@, 12, 'b', 'B', 'm'),
        word("borderLeft"@, 10, 'b', 'r', 't'),
        word("borderRight"@, 11, 'b', 'r', 't'),
        word("numFmt"@, 6, 'n', 'F', 't'),
{
    assert(word("bold"@, 4, 'b', 'l', 'd')) by {
        reveal_strlit("bold");
    }
    assert(word("italic"@, 6, 'i', 'l', 'c')) by {
        reveal_strlit("italic");
    }
    assert(word("underline"@, 9, 'u', 'r', 'e')) by {
        reveal_strlit("underline");
    }
    assert(word("fontSize"@, 8, 'f', 'S', 'e')) by {
        reveal_strlit("fontSize");
    }
    assert(word("fontName"@, 8, 'f', 'N', 'e')) by {
        reveal_strlit("fontName");
    }
    assert(word("fontColor"@, 9, 'f', 'C', 'r')) by {
        reveal_strlit("fontColor");
    }
    assert(word("bgColor"@, 7, 'b', 'o', 'r')) by {
        reveal_strlit("bgColor");
    }
    assert(word("halign"@, 6, 'h', 'i', 'n')) by {
        reveal_strlit("halign");
    }
    assert(word("valign"@, 6, 'v', 'i', 'n')) by {
        reveal_strlit("valign");
    }
    assert(word("wrapText"@, 8, 'w', 'T', 't')) by {
        reveal_strlit("wrapText");
    }
    assert(word("indent"@, 6, 'i', 'e', 't')) by {
        reveal_strlit("indent");
    }
    assert(word("borderTop"@, 9, 'b', 'e', 'p')) by {
        reveal_strlit("borderTop");
    }
    assert(word("borderBottom"@, 12, 'b', 'B', 'm')) by {
        reveal_strlit("borderBottom");
    }
    assert(word("borderLeft"@, 10, 'b', 'r', 't')) by {
        reveal_strlit("borderLeft");
    }
    assert(word("borderRight"@, 11, 'b', 'r', 't')) by {
        reveal_strlit("borderRight");
    }
    assert(word("numFmt"@, 6, 'n', 'F', 't')) by {
        reveal_strlit("numFmt");
    }
}

/// The names of the other attributes.
proof fn lemma_field_words()
    ensures
        word("filename"@, 8, 'f', 'n', 'e'),
        word("converted"@, 9, 'c', 'e', 'd'),
        word("hash"@, 4, 'h', 's', 'h'),
        word("name"@, 4, 'n', 'm', 'e'),
        word("maxRow"@, 6, 'm', 'R', 'w'),
        word("maxCol"@, 6, 'm', 'C', 'l'),
        word("index"@, 5, 'i', 'd', 'x'),
        word("width"@, 5, 'w', 'd', 'h'),
        word("hidden"@, 6, 'h', 'd', 'n'),
        word("height"@, 6, 'h', 'g', 't'),
        word("ref"@, 3, 'r', 'e', 'f'),
        word("startRow"@, 8, 's', 't', 'w'),
        word("startCol"@, 8, 's', 't', 'l'),
        word("endRow"@, 6, 'e', 'R', 'w'),
        word("endCol"@, 6, 'e', 'C', 'l'),
        word("row"@, 3, 'r', 'o', 'w'),
        word("col"@, 3, 'c', 'o', 'l'),
        word("value"@, 5, 'v', 'l', 'e'),
        word("type"@, 4, 't', 'p', 'e'),
        word("rowspan"@, 7, 'r', 's', 'n'),
        word("colspan"@, 7, 'c', 's', 'n'),
        word("toRow"@, 5, 't', 'R', 'w'),
        word("toCol"@, 5, 't', 'C', 'l'),
        word("format"@, 6, 'f', 'm', 't'),
        word("data"@, 4, 'd', 't', 'a'),
{
    assert(word("filename"@, 8, 'f', 'n', 'e')) by {
        reveal_strlit("filename");
    }
    assert(word("converted"@, 9, 'c', 'e', 'd')) by {
        reveal_strlit("converted");
    }
    assert(word("hash"@, 4, 'h', 's', 'h')) by {
        reveal_strlit("hash");
    }
    assert(word("name"@, 4, 'n', 'm', 'e')) by {
        reveal_strlit("name");
    }
    assert(word("maxRow"@, 6, 'm', 'R', 'w')) by {
        reveal_strlit("maxRow");
    }
    assert(word("maxCol"@, 6, 'm', 'C', 'l')) by {
        reveal_strlit("maxCol");
    }
    assert(word("index"@, 5, 'i', 'd', 'x')) by {
        reveal_strlit("index");
    }
    assert(word("width"@, 5, 'w', 'd', 'h')) by {
        reveal_strlit("width");
    }
    assert(word("hidden"@, 6, 'h', 'd', 'n')) by {
        reveal_strlit("hidden");
    }
    assert(word("height"@, 6, 'h', 'g', 't')) by {
        reveal_strlit("height");
    }
    assert(word("ref"@, 3, 'r', 'e', 'f')) by {
        reveal_strlit("ref");
    }
    assert(word("startRow"@, 8, 's', 't', 'w')) by {
        reveal_strlit("startRow");
    }
    assert(word("startCol"@, 8, 's', 't', 'l')) by {
        reveal_strlit("startCol");
    }
    assert(word("endRow"@, 6, 'e', 'R', 'w')) by {
        reveal_strlit("endRow");
    }
    assert(word("endCol"@, 6, 'e', 'C', 'l')) by {
        reveal_strlit("endCol");
    }
    assert(word("row"@, 3, 'r', 'o', 'w')) by {
        reveal_strlit("row");
    }
    assert(word("col"@, 3, 'c', 'o', 'l')) by {
        reveal_strlit("col");
    }
    assert(word("value"@, 5, 'v', 'l', 'e')) by {
        reveal_strlit("value");
    }
    assert(word("type"@, 4, 't', 'p', 'e')) by {
        reveal_strlit("type");
    }
    assert(word("rowspan"@, 7, 'r', 's', 'n')) by {
        reveal_strlit("rowspan");
    }
    assert(word("colspan"@, 7, 'c', 's', 'n')) by {
        reveal_strlit("colspan");
    }
    assert(word("toRow"@, 5, 't', 'R', 'w')) by {
        reveal_strlit("toRow");
    }
    assert(word("toCol"@, 5, 't', 'C', 'l')) by {
        reveal_strlit("toCol");
    }
    assert(word("format"@, 6, 'f', 'm', 't')) by {
        reveal_strlit("format");
    }
    assert(word("data"@, 4, 'd', 't', 'a')) by {
        reveal_strlit("data");
    }
}

/// The names of the elements.
proof fn lemma_tag_words()
    ensures
        word("workbook"@, 8, 'w', 'b', 'k'),
        word("sheet"@, 5, 's', 'e', 't'),
        word("dimensions"@, 10, 'd', 's', 's'),
        word("colWidths"@, 9, 'c', 'i', 's'),
        word("rowHeights"@, 10, 'r', 'i', 's'),
        word("merges"@, 6, 'm', 'g', 's'),
        word("merge"@, 5, 'm', 'r', 'e'),
        word("rows"@, 4, 'r', 'w', 's'),
        word("cell"@, 4, 'c', 'l', 'l'),
        word("images"@, 6, 'i', 'g', 's'),
        word("image"@, 5, 'i', 'a', 'e'),
{
    assert(word("workbook"@, 8, 'w', 'b', 'k')) by {
        reveal_strlit("workbook");
    }
    assert(word("sheet"@, 5, 's', 'e', 't')) by {
        reveal_strlit("sheet");
    }
    assert(word("dimensions"@, 10, 'd', 's', 's')) by {
        reveal_strlit("dimensions");
    }
    assert(word("colWidths"@, 9, 'c', 'i', 's')) by {
        reveal_strlit("colWidths");
    }
    assert(word("rowHeights"@, 10, 'r', 'i', 's')) by {
        reveal_strlit("rowHeights");
    }
    assert(word("merges"@, 6, 'm', 'g', 's')) by {
        reveal_strlit("merges");
    }
    assert(word("merge"@, 5, 'm', 'r', 'e')) by {
        reveal_strlit("merge");
    }
    assert(word("rows"@, 4, 'r', 'w', 's')) by {
        reveal_strlit("rows");
    }
    assert(word("cell"@, 4, 'c', 'l', 'l')) by {
        reveal_strlit("cell");
    }
    assert(word("images"@, 6, 'i', 'g', 's')) by {
        reveal_strlit("images");
    }
    assert(word("image"@, 5, 'i', 'a', 'e')) by {
        reveal_strlit("image");
    }
}

/// Whether attributes hold no ampersand that is not escaped.
#[verifier::opaque]
pub closed spec fn clean(fields: Seq<Field<Seq<char>>>) -> bool {
    fields_clean(fields)
}

/// The value that is read back for a name.
#[verifier::opaque]
pub closed spec fn attr(fields: Seq<Field<Seq<char>>>, name: Seq<char>) -> Option<Seq<char>> {
    match find_attribute(field_attrs(fields), name) {
        Some(a) => a.value,
        None => None,
    }
}

/// No attributes are in order, and no name occurs among them.
proof fn lemma_no_fields()
    ensures
        fields_in_order(no_fields()),
        forall|m: (nat, char, char, char)| #[trigger] fresh(no_fields(), m),
        forall|n: Seq<char>| #[trigger] attr(no_fields(), n) is None,
        clean(no_fields()),
{
    reveal(clean);
    reveal(fields_in_order);
    reveal(fresh);
    reveal(attr);
}

/// What is found when one more attribute stands behind others.
proof fn lemma_find_push(items: Seq<Option<Attr<Seq<char>>>>, a: Attr<Seq<char>>, name: Seq<char>)
    requires
        forall|i: int| 0 <= i < items.len() ==> #[trigger] items[i] is Some,
    ensures
        find_attribute(items.push(Some(a)), name) == (match find_attribute(items, name) {
            Some(b) => Some(b),
            None => if a.key == name {
                Some(a)
            } else {
                None
            },
        }),
    decreases items.len(),
{
    let more = items.push(Some(a));
    if items.len() == 0 {
        assert(more.drop_first() =~= items);
        assert(find_attribute(items, name) is None);
        assert(more[0] == Some(a));
    } else {
        let rest = items.drop_first();
        assert(more[0] == items[0]);
        assert(items[0] is Some);
        assert(more.drop_first() =~= rest.push(Some(a)));
        assert forall|i: int| 0 <= i < rest.len() implies #[trigger] rest[i] is Some by {
            assert(items[i + 1] is Some);
        }
        lemma_find_push(items.drop_first(), a, name);
    }
}

/// A name that does not occur is not found.
proof fn lemma_fresh_attr(fields: Seq<Field<Seq<char>>>, name: Seq<char>)
    requires
        fresh(fields, mark(name)),
    ensures
        find_attribute(field_attrs(fields), name) is None,
    decreases fields.len(),
{
    reveal(fresh);
    if fields.len() > 0 {
        let rest = fields.drop_first();
        assert(mark(fields[0].name) != mark(name));
        assert(field_attrs(fields).drop_first() =~= field_attrs(rest));
        assert forall|i: int| 0 <= i < rest.len() implies mark((#[trigger] rest[i]).name) != mark(
            name,
        ) by {
            assert(mark(fields[i + 1].name) != mark(name));
        }
        lemma_fresh_attr(rest, name);
    }
}

/// One more attribute keeps attributes in order if its name is a new one.
proof fn lemma_push_field(fields: Seq<Field<Seq<char>>>, f: Field<Seq<char>>)
    requires
        fields_in_order(fields),
        is_name(f.name),
        f.raw ==> is_plain(f.value),
        fresh(fields, mark(f.name)),
    ensures
        fields_in_order(fields.push(f)),
        forall|m: (nat, char, char, char)| #[trigger]
            fresh(fields.push(f), m) <==> fresh(fields, m) && mark(f.name) != m,
        attr(fields.push(f), f.name) == Some(f.value),
        forall|n: Seq<char>|
            mark(n) != mark(f.name) ==> #[trigger] attr(fields.push(f), n) == attr(fields, n),
        clean(fields) && (f.raw ==> !f.value.contains('&')) ==> clean(fields.push(f)),
{
    reveal(clean);
    reveal(fields_in_order);
    reveal(fresh);
    reveal(attr);
    let more = fields.push(f);
    let a = Attr { key: f.name, value: Some(f.value) };
    assert(field_attrs(more) =~= field_attrs(fields).push(Some(a)));
    lemma_fresh_attr(fields, f.name);
    lemma_find_push(field_attrs(fields), a, f.name);
    assert forall|n: Seq<char>| mark(n) != mark(f.name) implies #[trigger] attr(more, n) == attr(
        fields,
        n,
    ) by {
        lemma_find_push(field_attrs(fields), a, n);
    }
    assert forall|m: (nat, char, char, char)| #[trigger] fresh(more, m) <==> fresh(fields, m)
        && mark(f.name) != m by {
        if fresh(more, m) {
            assert(mark(more[fields.len() as int].name) != m);
            assert forall|i: int| 0 <= i < fields.len() implies mark((#[trigger] fields[i]).name)
                != m by {
                assert(mark(more[i].name) != m);
            }
        }
    }
    assert forall|i: int, j: int| 0 <= i < j < more.len() implies (#[trigger] more[i]).name
        != (#[trigger] more[j]).name by {
        if j == fields.len() {
            assert(mark(fields[i].name) != mark(f.name));
        } else {
            assert(fields[i].name != fields[j].name);
        }
    }
}

/// The attributes of a `format` tag are in order.
pub(crate) proof fn lemma_format_fields(f: CellFormat<Seq<char>>)
    requires
        plain_cell_format(f),
    ensures
        fields_in_order(format_fields(f)),
        clean_format(f) ==> clean(format_fields(f)),
        attr(format_fields(f), "bold"@) == Some(truth(f.bold)),
        attr(format_fields(f), "italic"@) == Some(truth(f.italic)),
        attr(format_fields(f), "underline"@) == Some(truth(f.underline)),
        attr(format_fields(f), "fontSize"@) == Some(f.font_size),
        attr(format_fields(f), "fontName"@) == Some(f.font_name),
        attr(format_fields(f), "fontColor"@) == Some(f.font_color),
        attr(format_fields(f), "bgColor"@) == f.bg_color,
        attr(format_fields(f), "halign"@) == Some(f.halign),
        attr(format_fields(f), "valign"@) == Some(f.valign),
        attr(format_fields(f), "wrapText"@) == Some(truth(f.wrap_text)),
        attr(format_fields(f), "indent"@) == Some(decimal(f.indent as nat)),
        attr(format_fields(f), "borderTop"@) == Some(side(f.border_top)),
        attr(format_fields(f), "borderBottom"@) == Some(side(f.border_bottom)),
        attr(format_fields(f), "borderLeft"@) == Some(side(f.border_left)),
        attr(format_fields(f), "borderRight"@) == Some(side(f.border_right)),
        attr(format_fields(f), "numFmt"@) == Some(f.num_fmt),
{
    lemma_format_words();
    lemma_truth_plain(f.bold);
    lemma_truth_plain(f.italic);
    lemma_truth_plain(f.underline);
    lemma_truth_plain(f.wrap_text);
    lemma_decimal_plain(f.indent as nat);
    lemma_side_plain(f.border_top);
    lemma_side_plain(f.border_bottom);
    lemma_side_plain(f.border_left);
    lemma_side_plain(f.border_right);
    lemma_no_fields();
    let s0 = no_fields();
    let s1 = s0.push(raw_field("bold"@, truth(f.bold)));
    lemma_push_field(s0, s1.last());
    let s2 = s1.push(raw_field("italic"@, truth(f.italic)));
    lemma_push_field(s1, s2.last());
    let s3 = s2.push(raw_field("underline"@, truth(f.underline)));
    lemma_push_field(s2, s3.last());
    let s4 = s3.push(raw_field("fontSize"@, f.font_size));
    lemma_push_field(s3, s4.last());
    let s5 = s4.push(text_field("fontName"@, f.font_name));
    lemma_push_field(s4, s5.last());
    let s6 = s5.push(text_field("fontColor"@, f.font_color));
    lemma_push_field(s5, s6.last());
    let s7 = with_text(s6, "bgColor"@, f.bg_color);
    if f.bg_color is Some {
        lemma_push_field(s6, s7.last());
    }
    let s8 = s7.push(Field { name: "halign"@, value: f.halign, raw: false, wide: true });
    lemma_push_field(s7, s8.last());
    let s9 = s8.push(text_field("valign"@, f.valign));
    lemma_push_field(s8, s9.last());
    let s10 = s9.push(raw_field("wrapText"@, truth(f.wrap_text)));
    lemma_push_field(s9, s10.last());
    let s11 = s10.push(raw_field("indent"@, decimal(f.indent as nat)));
    lemma_push_field(s10, s11.last());
    let s12 = s11.push(raw_field("borderTop"@, side(f.border_top)));
    lemma_push_field(s11, s12.last());
    let s13 = s12.push(raw_field("borderBottom"@, side(f.border_bottom)));
    lemma_push_field(s12, s13.last());
    let s14 = s13.push(raw_field("borderLeft"@, side(f.border_left)));
    lemma_push_field(s13, s14.last());
    let s15 = s14.push(raw_field("borderRight"@, side(f.border_right)));
    lemma_push_field(s14, s15.last());
    let s16 = s15.push(text_field("numFmt"@, f.num_fmt));
    lemma_push_field(s15, s16.last());
    assert(format_fields(f) == s16);
}

/// The attributes of the root element are in order.
pub(crate) proof fn lemma_workbook_fields(d: DocumentView)
    ensures
        fields_in_order(workbook_fields(d)),
        clean(workbook_fields(d)),
        attr(workbook_fields(d), "filename"@) == Some(d.filename),
        attr(workbook_fields(d), "converted"@) == Some(d.converted),
        attr(workbook_fields(d), "hash"@) == Some(d.hash),
{
    lemma_field_words();
    lemma_no_fields();
    let s0 = no_fields();
    let s1 = s0.push(text_field("filename"@, d.filename));
    lemma_push_field(s0, s1.last());
    let s2 = s1.push(text_field("converted"@, d.converted));
    lemma_push_field(s1, s2.last());
    let s3 = s2.push(text_field("hash"@, d.hash));
    lemma_push_field(s2, s3.last());
}

/// The attributes of a `sheet` tag are in order.
pub(crate) proof fn lemma_sheet_fields(s: SheetView)
    ensures
        fields_in_order(sheet_fields(s)),
        clean(sheet_fields(s)),
        attr(sheet_fields(s), "name"@) == Some(s.name),
        attr(sheet_fields(s), "ref"@) is None,
{
    lemma_field_words();
    lemma_no_fields();
    lemma_push_field(no_fields(), text_field("name"@, s.name));
}

/// The attributes of a `dimensions` tag are in order.
proof fn lemma_dimension_fields(s: SheetView)
    ensures
        fields_in_order(dimension_fields(s)),
        clean(dimension_fields(s)),
{
    lemma_field_words();
    lemma_no_fields();
    lemma_decimal_plain(s.max_row as nat);
    lemma_decimal_plain(s.max_col as nat);
    let s0 = no_fields();
    let s1 = s0.push(raw_field("maxRow"@, decimal(s.max_row as nat)));
    lemma_push_field(s0, s1.last());
    let s2 = s1.push(raw_field("maxCol"@, decimal(s.max_col as nat)));
    lemma_push_field(s1, s2.last());
}

/// The attributes of a `col` tag are in order.
pub(crate) proof fn lemma_col_fields(c: ColWidth<Seq<char>>)
    requires
        is_plain(c.width),
    ensures
        fields_in_order(col_fields(c)),
        !c.width.contains('&') ==> clean(col_fields(c)),
        attr(col_fields(c), "index"@) == Some(decimal(c.index as nat)),
        attr(col_fields(c), "width"@) == Some(c.width),
        attr(col_fields(c), "hidden"@) == Some(truth(c.hidden)),
{
    lemma_field_words();
    lemma_no_fields();
    lemma_decimal_plain(c.index as nat);
    lemma_truth_plain(c.hidden);
    let s0 = no_fields();
    let s1 = s0.push(raw_field("index"@, decimal(c.index as nat)));
    lemma_push_field(s0, s1.last());
    let s2 = s1.push(raw_field("width"@, c.width));
    lemma_push_field(s1, s2.last());
    let s3 = s2.push(raw_field("hidden"@, truth(c.hidden)));
    lemma_push_field(s2, s3.last());
}

/// The attributes of a `row` tag with a height are in order.
pub(crate) proof fn lemma_height_fields(r: RowHeight<Seq<char>>)
    requires
        is_plain(r.height),
    ensures
        fields_in_order(height_fields(r)),
        !r.height.contains('&') ==> clean(height_fields(r)),
        attr(height_fields(r), "index"@) == Some(decimal(r.index as nat)),
        attr(height_fields(r), "height"@) == Some(r.height),
        attr(height_fields(r), "hidden"@) == Some(truth(r.hidden)),
{
    lemma_field_words();
    lemma_no_fields();
    lemma_decimal_plain(r.index as nat);
    lemma_truth_plain(r.hidden);
    let s0 = no_fields();
    let s1 = s0.push(raw_field("index"@, decimal(r.index as nat)));
    lemma_push_field(s0, s1.last());
    let s2 = s1.push(raw_field("height"@, r.height));
    lemma_push_field(s1, s2.last());
    let s3 = s2.push(raw_field("hidden"@, truth(r.hidden)));
    lemma_push_field(s2, s3.last());
}

/// The attributes of a `merge` tag are in order.
pub(crate) proof fn lemma_merge_fields(m: Merge<Seq<char>>)
    ensures
        fields_in_order(merge_fields(m)),
        clean(merge_fields(m)),
        attr(merge_fields(m), "startRow"@) == Some(decimal(m.start_row as nat)),
        attr(merge_fields(m), "startCol"@) == Some(decimal(m.start_col as nat)),
        attr(merge_fields(m), "endRow"@) == Some(decimal(m.end_row as nat)),
        attr(merge_fields(m), "endCol"@) == Some(decimal(m.end_col as nat)),
{
    lemma_field_words();
    lemma_no_fields();
    lemma_decimal_plain(m.start_row as nat);
    lemma_decimal_plain(m.start_col as nat);
    lemma_decimal_plain(m.end_row as nat);
    lemma_decimal_plain(m.end_col as nat);
    let s0 = no_fields();
    let s1 = s0.push(text_field("ref"@, m.ref_str));
    lemma_push_field(s0, s1.last());
    let s2 = s1.push(raw_field("startRow"@, decimal(m.start_row as nat)));
    lemma_push_field(s1, s2.last());
    let s3 = s2.push(raw_field("startCol"@, decimal(m.start_col as nat)));
    lemma_push_field(s2, s3.last());
    let s4 = s3.push(raw_field("endRow"@, decimal(m.end_row as nat)));
    lemma_push_field(s3, s4.last());
    let s5 = s4.push(raw_field("endCol"@, decimal(m.end_col as nat)));
    lemma_push_field(s4, s5.last());
}

/// The attributes of a `row` tag around cells are in order.
proof fn lemma_row_fields(row: u32)
    ensures
        fields_in_order(row_fields(row)),
        clean(row_fields(row)),
{
    lemma_field_words();
    lemma_no_fields();
    lemma_decimal_plain(row as nat);
    lemma_push_field(no_fields(), raw_field("index"@, decimal(row as nat)));
}

/// A number in decimal, if it is there.
pub open spec fn some_decimal(n: Option<u32>) -> Option<Seq<char>> {
    match n {
        Some(n) => Some(decimal(n as nat)),
        None => None,
    }
}

/// The attributes of a `cell` tag are in order.
pub(crate) proof fn lemma_cell_fields(c: Cell<Seq<char>>)
    ensures
        fields_in_order(cell_fields(c)),
        clean(cell_fields(c)),
        attr(cell_fields(c), "row"@) == Some(decimal(c.row as nat)),
        attr(cell_fields(c), "col"@) == Some(decimal(c.col as nat)),
        attr(cell_fields(c), "value"@) == Some(c.value),
        attr(cell_fields(c), "type"@) == Some(c.cell_type),
        attr(cell_fields(c), "rowspan"@) == some_decimal(real_span(c.rowspan)),
        attr(cell_fields(c), "colspan"@) == some_decimal(real_span(c.colspan)),
{
    lemma_field_words();
    lemma_no_fields();
    lemma_decimal_plain(c.row as nat);
    lemma_decimal_plain(c.col as nat);
    lemma_decimal_plain(c.rowspan as nat);
    lemma_decimal_plain(c.colspan as nat);
    let s0 = no_fields();
    let s1 = s0.push(raw_field("row"@, decimal(c.row as nat)));
    lemma_push_field(s0, s1.last());
    let s2 = s1.push(raw_field("col"@, decimal(c.col as nat)));
    lemma_push_field(s1, s2.last());
    let s3 = s2.push(text_field("value"@, c.value));
    lemma_push_field(s2, s3.last());
    let s4 = s3.push(text_field("type"@, c.cell_type));
    lemma_push_field(s3, s4.last());
    let s5 = with_number(s4, "rowspan"@, real_span(c.rowspan));
    if c.rowspan > 1 {
        lemma_push_field(s4, s5.last());
    }
    let s6 = with_number(s5, "colspan"@, real_span(c.colspan));
    if c.colspan > 1 {
        lemma_push_field(s5, s6.last());
    }
    assert(cell_fields(c) == s6);
}

/// The attributes of an `image` tag are in order.
pub(crate) proof fn lemma_image_fields(i: Image<Seq<char>>)
    requires
        plain_image(i),
    ensures
        fields_in_order(image_fields(i)),
        clean_image(i) ==> clean(image_fields(i)),
        attr(image_fields(i), "row"@) == Some(decimal(i.row as nat)),
        attr(image_fields(i), "col"@) == Some(decimal(i.col as nat)),
        attr(image_fields(i), "data"@) == Some(i.data_b64),
{
    lemma_field_words();
    lemma_no_fields();
    lemma_decimal_plain(i.row as nat);
    lemma_decimal_plain(i.col as nat);
    let s0 = no_fields();
    let s1 = s0.push(raw_field("row"@, decimal(i.row as nat)));
    lemma_push_field(s0, s1.last());
    let s2 = s1.push(raw_field("col"@, decimal(i.col as nat)));
    lemma_push_field(s1, s2.last());
    let s3 = with_number(s2, "toRow"@, i.to_row);
    if i.to_row is Some {
        lemma_decimal_plain(i.to_row->0 as nat);
        lemma_push_field(s2, s3.last());
    }
    let s4 = with_number(s3, "toCol"@, i.to_col);
    if i.to_col is Some {
        lemma_decimal_plain(i.to_col->0 as nat);
        lemma_push_field(s3, s4.last());
    }
    let s5 = s4.push(text_field("format"@, i.fmt));
    lemma_push_field(s4, s5.last());
    let s6 = with_text(s5, "width"@, i.width);
    if i.width is Some {
        lemma_push_field(s5, s6.last());
    }
    let s7 = with_text(s6, "height"@, i.height);
    if i.height is Some {
        lemma_push_field(s6, s7.last());
    }
    let s8 = s7.push(raw_field("data"@, i.data_b64));
    lemma_push_field(s7, s8.last());
    assert(image_fields(i) == s8);
}

/// A line with attributes in order is in order.
proof fn lemma_line(l: LineView)
    requires
        is_name(l.name),
        fields_in_order(l.fields),
        l.form == Form::Close ==> l.fields.len() == 0,
    ensures
        line_in_order(l),
        clean(l.fields) ==> fields_clean(l.fields),
{
    reveal(fields_in_order);
    reveal(clean);
}

/// A number that tells the names of elements apart.
pub closed spec fn rank(s: Seq<char>) -> int {
    s.len() + 100 * (s[0] as int) + 100_000 * (s[s.len() as int / 2] as int) + 100_000_000 * (
    s.last() as int)
}

/// The numbers of the names of elements.
pub(crate) proof fn lemma_ranks()
    ensures
        rank("workbook"@) == 10_709_811_908,
        rank("sheet"@) == 11_610_111_505,
        rank("dimensions"@) == 11_511_510_010,
        rank("colWidths"@) == 11_510_509_909,
        rank("rowHeights"@) == 11_510_511_410,
        rank("merges"@) == 11_510_310_906,
        rank("merge"@) == 10_111_410_905,
        rank("rows"@) == 11_511_911_404,
        rank("cell"@) == 10_810_809_904,
        rank("images"@) == 11_510_310_506,
        rank("image"@) == 10_109_710_505,
        rank("col"@) == 10_811_109_903,
        rank("row"@) == 11_911_111_403,
        rank("format"@) == 11_610_910_206,
{
    lemma_tag_words();
    lemma_field_words();
}

/// What is read back for a name.
pub(crate) proof fn lemma_attribute(l: LineView, name: Seq<char>)
    ensures
        line_tag(l).attribute(name) == attr(l.fields, name),
{
    reveal(attr);
}

/// Whether a line holds no ampersand that is not escaped, where it has to: in a clean
/// document, and in the tags of sheets and cells.
pub open spec fn line_clean(l: LineView, strict: bool) -> bool {
    strict || l.name == "sheet"@ || l.name == "cell"@ ==> fields_clean(l.fields)
}

/// Whether a line is in order and clean.
spec fn good(l: LineView, strict: bool) -> bool {
    line_in_order(l) && line_clean(l, strict)
}

/// Whether a cell is in order, and clean where it has to be.
spec fn cell_ok(c: Cell<Seq<char>>, strict: bool) -> bool {
    plain_cell(c) && (strict ==> clean_cell(c))
}

/// Whether a worksheet is in order, and clean where it has to be.
spec fn sheet_ok(s: SheetView, strict: bool) -> bool {
    plain_sheet(s) && (strict ==> clean_sheet(s))
}

/// Whether lines are in order and clean, and leave the elements that are open as they were.
spec fn closed_lines(lines: Seq<LineView>, strict: bool) -> bool {
    &&& forall|i: int| 0 <= i < lines.len() ==> good(#[trigger] lines[i], strict)
    &&& forall|open: Seq<Seq<char>>| #[trigger] nesting(Some(open), lines) == Some(open)
}

/// Lines that follow one another open and close elements one after the other.
proof fn lemma_nesting(open: Option<Seq<Seq<char>>>, a: Seq<LineView>, b: Seq<LineView>)
    ensures
        nesting(open, a + b) == nesting(nesting(open, a), b),
    decreases b.len(),
{
    if b.len() == 0 {
        assert(a + b =~= a);
    } else {
        assert((a + b).drop_last() =~= a + b.drop_last());
        assert((a + b).last() == b.last());
        lemma_nesting(open, a, b.drop_last());
    }
}

/// A single line opens or closes its element.
proof fn lemma_nesting_one(open: Option<Seq<Seq<char>>>, l: LineView)
    ensures
        nesting(open, seq![l]) == nesting_step(open, l),
{
    assert(seq![l].drop_last() =~= Seq::<LineView>::empty());
    assert(nesting(open, Seq::<LineView>::empty()) == open);
}

/// No lines are in order.
proof fn lemma_closed_none(strict: bool)
    ensures
        closed_lines(Seq::<LineView>::empty(), strict),
{
}

/// Closed lines behind closed lines are closed.
proof fn lemma_closed_append(a: Seq<LineView>, b: Seq<LineView>, strict: bool)
    requires
        closed_lines(a, strict),
        closed_lines(b, strict),
    ensures
        closed_lines(a + b, strict),
{
    assert forall|open: Seq<Seq<char>>| #[trigger] nesting(Some(open), a + b) == Some(open) by {
        lemma_nesting(Some(open), a, b);
        assert(nesting(Some(open), a) == Some(open));
    }
    assert forall|i: int| 0 <= i < (a + b).len() implies good(#[trigger] (a + b)[i], strict) by {
        if i < a.len() {
            assert((a + b)[i] == a[i]);
        } else {
            assert((a + b)[i] == b[i - a.len()]);
        }
    }
}

/// An empty tag is closed.
proof fn lemma_closed_one(l: LineView, strict: bool)
    requires
        good(l, strict),
        l.form == Form::Empty,
    ensures
        closed_lines(seq![l], strict),
{
    assert forall|open: Seq<Seq<char>>| #[trigger] nesting(Some(open), seq![l]) == Some(open) by {
        lemma_nesting_one(Some(open), l);
    }
}

/// Empty tags are closed.
proof fn lemma_closed_all(lines: Seq<LineView>, strict: bool)
    requires
        forall|i: int|
            0 <= i < lines.len() ==> good(#[trigger] lines[i], strict) && lines[i].form
                == Form::Empty,
    ensures
        closed_lines(lines, strict),
    decreases lines.len(),
{
    if lines.len() > 0 {
        let rest = lines.drop_last();
        assert forall|i: int| 0 <= i < rest.len() implies good(#[trigger] rest[i], strict)
            && rest[i].form == Form::Empty by {
            assert(good(lines[i], strict));
        }
        lemma_closed_all(rest, strict);
        assert(good(lines[lines.len() - 1], strict));
        lemma_closed_one(lines.last(), strict);
        lemma_closed_append(rest, seq![lines.last()], strict);
        assert(rest + seq![lines.last()] =~= lines);
    }
}

/// Closed lines inside an element are closed.
proof fn lemma_closed_inside(first: LineView, lines: Seq<LineView>, last: LineView, strict: bool)
    requires
        good(first, strict),
        good(last, strict),
        first.form == Form::Open,
        last.form == Form::Close,
        first.name == last.name,
        closed_lines(lines, strict),
    ensures
        closed_lines(seq![first] + lines + seq![last], strict),
{
    let all = seq![first] + lines + seq![last];
    assert forall|open: Seq<Seq<char>>| #[trigger] nesting(Some(open), all) == Some(open) by {
        lemma_nesting(Some(open), seq![first] + lines, seq![last]);
        lemma_nesting(Some(open), seq![first], lines);
        lemma_nesting_one(Some(open), first);
        let inner = open.push(first.name);
        assert(nesting(Some(inner), lines) == Some(inner));
        lemma_nesting_one(Some(inner), last);
        assert(inner.drop_last() =~= open);
    }
    assert forall|i: int| 0 <= i < all.len() implies good(#[trigger] all[i], strict) by {
        if i == 0 {
            assert(all[i] == first);
        } else if i <= lines.len() {
            assert(all[i] == lines[i - 1]);
        } else {
            assert(all[i] == last);
        }
    }
}

/// An open or empty tag without attributes is in order.
proof fn lemma_bare_line(indent: nat, name: Seq<char>, strict: bool)
    requires
        is_name(name),
    ensures
        good(open_line(indent, name, no_fields()), strict),
        good(close_line(indent, name), strict),
{
    lemma_no_fields();
    lemma_line(open_line(indent, name, no_fields()));
    lemma_line(close_line(indent, name));
}

/// The lines of a cell are closed.
proof fn lemma_closed_cell(c: Cell<Seq<char>>, strict: bool)
    requires
        cell_ok(c, strict),
    ensures
        closed_lines(cell_lines(c), strict),
{
    lemma_tag_words();
    lemma_field_words();
    lemma_cell_fields(c);
    lemma_bare_line(8, "cell"@, strict);
    match c.format {
        Some(f) => {
            let first = open_line(8, "cell"@, cell_fields(c));
            let inner = empty_line(10, "format"@, format_fields(f));
            let last = close_line(8, "cell"@);
            lemma_format_fields(f);
            lemma_line(first);
            lemma_line(inner);
            lemma_closed_one(inner, strict);
            lemma_closed_inside(first, seq![inner], last, strict);
            assert(seq![first] + seq![inner] + seq![last] =~= cell_lines(c));
        },
        None => {
            lemma_line(empty_line(8, "cell"@, cell_fields(c)));
            lemma_closed_one(empty_line(8, "cell"@, cell_fields(c)), strict);
        },
    }
}

/// The lines of cells in order with the last row open.
proof fn lemma_open_rows(cells: Seq<Cell<Seq<char>>>, strict: bool)
    requires
        cells.len() > 0,
        forall|i: int| 0 <= i < cells.len() ==> cell_ok(#[trigger] cells[i], strict),
    ensures
        forall|i: int|
            0 <= i < open_rows(cells).len() ==> good(#[trigger] open_rows(cells)[i], strict),
        forall|open: Seq<Seq<char>>| #[trigger]
            nesting(Some(open), open_rows(cells)) == Some(open.push("row"@)),
    decreases cells.len(),
{
    let before = cells.drop_last();
    let c = cells.last();
    let row = "row"@;
    let start = open_line(6, row, row_fields(c.row));
    let stop = close_line(6, row);
    let none = Seq::<LineView>::empty();
    let head = if before.len() == 0 {
        seq![start]
    } else if before.last().row != c.row {
        seq![stop, start]
    } else {
        none
    };
    let inner = cell_lines(c);
    lemma_field_words();
    lemma_row_fields(c.row);
    lemma_line(start);
    lemma_bare_line(6, row, strict);
    assert(cell_ok(cells[cells.len() - 1], strict));
    lemma_closed_cell(c, strict);
    assert forall|i: int| 0 <= i < before.len() implies cell_ok(#[trigger] before[i], strict) by {
        assert(cell_ok(cells[i], strict));
    }
    if before.len() > 0 {
        lemma_open_rows(before, strict);
    }
    let all = open_rows(before) + head + inner;
    assert(open_rows(cells) == all);
    assert forall|open: Seq<Seq<char>>| #[trigger] nesting(Some(open), all) == Some(
        open.push(row),
    ) by {
        lemma_nesting(Some(open), open_rows(before) + head, inner);
        lemma_nesting(Some(open), open_rows(before), head);
        if before.len() == 0 {
            lemma_nesting_one(Some(open), start);
            assert(nesting(Some(open), open_rows(before)) == Some(open));
        } else if before.last().row != c.row {
            assert(nesting(Some(open), open_rows(before)) == Some(open.push(row)));
            assert(seq![stop, start] =~= seq![stop] + seq![start]);
            lemma_nesting(Some(open.push(row)), seq![stop], seq![start]);
            lemma_nesting_one(Some(open.push(row)), stop);
            assert(open.push(row).drop_last() =~= open);
            lemma_nesting_one(Some(open), start);
        } else {
            assert(nesting(Some(open), open_rows(before)) == Some(open.push(row)));
        }
        assert(nesting(Some(open.push(row)), inner) == Some(open.push(row)));
    }
    assert forall|i: int| 0 <= i < all.len() implies good(#[trigger] all[i], strict) by {
        let n = open_rows(before).len();
        if i < n {
            assert(all[i] == open_rows(before)[i]);
        } else if i < n + head.len() {
            assert(all[i] == head[i - n]);
        } else {
            assert(all[i] == inner[i - n - head.len()]);
        }
    }
}

/// The lines of cells in order are closed.
proof fn lemma_closed_rows(cells: Seq<Cell<Seq<char>>>, strict: bool)
    requires
        forall|i: int| 0 <= i < cells.len() ==> cell_ok(#[trigger] cells[i], strict),
    ensures
        closed_lines(row_lines(cells), strict),
{
    if cells.len() == 0 {
        lemma_closed_none(strict);
    } else {
        let stop = close_line(6, "row"@);
        let rows = open_rows(cells);
        lemma_open_rows(cells, strict);
        lemma_field_words();
        lemma_bare_line(6, "row"@, strict);
        assert(row_lines(cells) =~= rows + seq![stop]);
        assert forall|open: Seq<Seq<char>>| #[trigger] nesting(Some(open), row_lines(cells)) == Some(
            open,
        ) by {
            lemma_nesting(Some(open), rows, seq![stop]);
            assert(nesting(Some(open), rows) == Some(open.push("row"@)));
            lemma_nesting_one(Some(open.push("row"@)), stop);
            assert(open.push("row"@).drop_last() =~= open);
        }
        assert forall|i: int| 0 <= i < row_lines(cells).len() implies good(
            #[trigger] row_lines(cells)[i],
            strict,
        ) by {
            if i < rows.len() {
                assert(row_lines(cells)[i] == rows[i]);
            }
        }
    }
}

/// Putting cells in order keeps them as they are.
proof fn lemma_ordered_ok(cells: Seq<Cell<Seq<char>>>, strict: bool)
    requires
        forall|i: int| 0 <= i < cells.len() ==> cell_ok(#[trigger] cells[i], strict),
    ensures
        forall|i: int|
            0 <= i < ordered(cells).len() ==> cell_ok(#[trigger] ordered(cells)[i], strict),
    decreases cells.len(),
{
    if cells.len() > 0 {
        let before = cells.drop_last();
        let rest = ordered(before);
        let at = place_for(rest, cells.last());
        assert forall|i: int| 0 <= i < before.len() implies cell_ok(#[trigger] before[i], strict) by {
            assert(cell_ok(cells[i], strict));
        }
        lemma_ordered_ok(before, strict);
        lemma_place_for(rest, cells.last());
        assert(cell_ok(cells[cells.len() - 1], strict));
        assert forall|i: int| 0 <= i < ordered(cells).len() implies cell_ok(
            #[trigger] ordered(cells)[i],
            strict,
        ) by {
            if i < at {
                assert(ordered(cells)[i] == rest[i]);
            } else if i > at {
                assert(ordered(cells)[i] == rest[i - 1]);
            }
        }
    }
}

/// Some closed lines inside an element of a worksheet are closed.
proof fn lemma_closed_wrapped(name: Seq<char>, lines: Seq<LineView>, strict: bool)
    requires
        is_name(name),
        closed_lines(lines, strict),
    ensures
        closed_lines(wrapped(name, lines), strict),
{
    lemma_bare_line(4, name, strict);
    lemma_closed_inside(open_line(4, name, no_fields()), lines, close_line(4, name), strict);
}

/// The lines of a worksheet are closed.
proof fn lemma_closed_sheet(s: SheetView, strict: bool)
    requires
        sheet_ok(s, strict),
    ensures
        closed_lines(sheet_lines(s), strict),
{
    lemma_tag_words();
    lemma_field_words();
    let dims = empty_line(4, "dimensions"@, dimension_fields(s));
    lemma_dimension_fields(s);
    lemma_line(dims);
    lemma_closed_one(dims, strict);
    let cols = col_lines(s.col_widths);
    assert forall|i: int| 0 <= i < cols.len() implies good(#[trigger] cols[i], strict)
        && cols[i].form == Form::Empty by {
        lemma_col_fields(s.col_widths[i]);
        lemma_line(cols[i]);
    }
    lemma_closed_all(cols, strict);
    lemma_closed_wrapped("colWidths"@, cols, strict);
    let heights = height_lines(s.row_heights);
    assert forall|i: int| 0 <= i < heights.len() implies good(#[trigger] heights[i], strict)
        && heights[i].form == Form::Empty by {
        lemma_height_fields(s.row_heights[i]);
        lemma_line(heights[i]);
    }
    lemma_closed_all(heights, strict);
    lemma_closed_wrapped("rowHeights"@, heights, strict);
    let merges = merge_lines(s.merges);
    assert forall|i: int| 0 <= i < merges.len() implies good(#[trigger] merges[i], strict)
        && merges[i].form == Form::Empty by {
        lemma_merge_fields(s.merges[i]);
        lemma_line(merges[i]);
    }
    lemma_closed_all(merges, strict);
    lemma_closed_wrapped("merges"@, merges, strict);
    let rows = row_lines(ordered(s.cells));
    assert forall|i: int| 0 <= i < s.cells.len() implies cell_ok(#[trigger] s.cells[i], strict) by {
        assert(plain_cell(s.cells[i]));
    }
    lemma_ordered_ok(s.cells, strict);
    lemma_closed_rows(ordered(s.cells), strict);
    lemma_closed_wrapped("rows"@, rows, strict);
    let images = image_lines(s.images);
    assert forall|i: int| 0 <= i < images.len() implies good(#[trigger] images[i], strict)
        && images[i].form == Form::Empty by {
        lemma_image_fields(s.images[i]);
        lemma_line(images[i]);
    }
    lemma_closed_all(images, strict);
    lemma_closed_wrapped("images"@, images, strict);
    let l1 = seq![dims] + wrapped("colWidths"@, cols);
    lemma_closed_append(seq![dims], wrapped("colWidths"@, cols), strict);
    let l2 = l1 + wrapped("rowHeights"@, heights);
    lemma_closed_append(l1, wrapped("rowHeights"@, heights), strict);
    let l3 = l2 + wrapped("merges"@, merges);
    lemma_closed_append(l2, wrapped("merges"@, merges), strict);
    let l4 = l3 + wrapped("rows"@, rows);
    lemma_closed_append(l3, wrapped("rows"@, rows), strict);
    let l5 = l4 + wrapped("images"@, images);
    lemma_closed_append(l4, wrapped("images"@, images), strict);
    let first = open_line(2, "sheet"@, sheet_fields(s));
    let last = close_line(2, "sheet"@);
    lemma_sheet_fields(s);
    lemma_line(first);
    lemma_bare_line(2, "sheet"@, strict);
    lemma_closed_inside(first, l5, last, strict);
    assert(seq![first] + l5 + seq![last] =~= sheet_lines(s));
}

/// The lines of worksheets are closed.
proof fn lemma_closed_sheets(sheets: Seq<SheetView>, strict: bool)
    requires
        forall|i: int| 0 <= i < sheets.len() ==> sheet_ok(#[trigger] sheets[i], strict),
    ensures
        closed_lines(sheets_lines(sheets), strict),
    decreases sheets.len(),
{
    if sheets.len() == 0 {
        lemma_closed_none(strict);
    } else {
        let before = sheets.drop_last();
        assert forall|i: int| 0 <= i < before.len() implies sheet_ok(#[trigger] before[i], strict) by {
            assert(sheet_ok(sheets[i], strict));
        }
        lemma_closed_sheets(before, strict);
        assert(sheet_ok(sheets[sheets.len() - 1], strict));
        lemma_closed_sheet(sheets.last(), strict);
        lemma_closed_append(sheets_lines(before), sheet_lines(sheets.last()), strict);
    }
}

/// A handover document is written in order: every tag is well formed, and every element is
/// closed. This needs that what is written without escaping holds no quotation mark. An
/// ampersand that is not escaped stands in no tag of a sheet or a cell, and in none at all
/// where the document is clean.
pub proof fn law_document_in_order(d: DocumentView)
    requires
        plain_document(d),
    ensures
        in_order(workbook_lines(d)),
        forall|i: int|
            0 <= i < workbook_lines(d).len() ==> line_clean(
                #[trigger] workbook_lines(d)[i],
                clean_document(d),
            ),
{
    let strict = clean_document(d);
    lemma_tag_words();
    let first = open_line(0, "workbook"@, workbook_fields(d));
    let last = close_line(0, "workbook"@);
    lemma_workbook_fields(d);
    lemma_line(first);
    lemma_bare_line(0, "workbook"@, strict);
    assert forall|i: int| 0 <= i < d.sheets.len() implies sheet_ok(
        #[trigger] d.sheets[i],
        strict,
    ) by {
        assert(plain_sheet(d.sheets[i]));
    }
    lemma_closed_sheets(d.sheets, strict);
    lemma_closed_inside(first, sheets_lines(d.sheets), last, strict);
    let none = Seq::<Seq<char>>::empty();
    assert(nesting(Some(none), workbook_lines(d)) == Some(none));
    assert forall|i: int| 0 <= i < workbook_lines(d).len() implies line_in_order(
        #[trigger] workbook_lines(d)[i],
    ) && line_clean(workbook_lines(d)[i], strict) by {
        assert(good(workbook_lines(d)[i], strict));
    }
}

/// What is read of a clean document is its lines.
pub proof fn law_clean_document_read_back(d: DocumentView, events: Seq<EventView>)
    requires
        clean_document(d),
        read_as(events, workbook_lines(d)),
    ensures
        events == document_events(workbook_lines(d)),
{
    let lines = workbook_lines(d);
    law_document_in_order(d);
    assert forall|i: int| 0 <= i < events.len() implies #[trigger] events[i] == document_events(
        lines,
    )[i] by {
        if i > 0 {
            assert(line_clean(lines[i - 1], true));
            assert(reads_as(events[i - 1 + 1], lines[i - 1]));
        }
    }
    assert(events =~= document_events(lines));
}

/// The root element of a handover document is written in order.
pub(crate) proof fn lemma_root_in_order(d: DocumentView)
    ensures
        workbook_lines(d).len() > 0,
        line_in_order(workbook_lines(d)[0]),
{
    lemma_tag_words();
    let first = open_line(0, "workbook"@, workbook_fields(d));
    lemma_workbook_fields(d);
    lemma_line(first);
    assert(workbook_lines(d)[0] == first);
}

/// The fingerprint that a handover document holds is found in all events that begin with its
/// declaration and its first line.
pub proof fn law_hash_read_back(d: DocumentView, events: Seq<EventView>)
    requires
        events.len() > 1,
        events[0] == EventView::Other,
        reads_as(events[1], workbook_lines(d)[0]),
    ensures
        root_attribute(events, "hash"@) == Some(d.hash),
{
    let first = open_line(0, "workbook"@, workbook_fields(d));
    assert(workbook_lines(d)[0] == first);
    lemma_workbook_fields(d);
    reveal(clean);
    assert(events.drop_first()[0] == line_event(first));
    assert(root_tag(events) == root_tag(events.drop_first()));
    lemma_attribute(first, "hash"@);
}

} // verus!
