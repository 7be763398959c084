//! From the sheets of a document to the actions that restore them in a spreadsheet.

use vstd::prelude::*;
use vstd::utf8::{encode_utf8, encode_utf8_valid_utf8, is_ascii_chars, valid_utf8};

use crate::color::{argb_u32, color_number};
use crate::document::{workbook_lines, written, DocumentView};
use crate::export::{
    fmt_view, ops_view, restored, sheets_hold_all, sheets_in, CellFmt, CellOp, ColOp, ImageOp,
    MergeOp, OpsView, RowOp, SheetOps,
};
use crate::floats::{find_reading, reading_of, readings_view, FloatReading};
use crate::lines::{document_text, in_order};
use crate::readback::{clean_document, law_document_in_order};
use crate::restore::{law_export_restores, reads_sheets, sheets_back};
use crate::text::{
    lower_text, optional, same, text_of_utf8, to_lowercase, to_uppercase, upper_text, utf8_error,
};
use crate::worksheet::truth_text;
use crate::xml::{events_view, read_document, xml_events, XmlEvent};

verus! {

/// How text is aligned across.
#[derive(PartialEq, Eq, Structural, Clone, Copy, Debug)]
pub enum HAlign {
    Center,
    Left,
    Right,
    Justify,
    Fill,
    CenterAcross,
}

/// How text is aligned up and down.
#[derive(PartialEq, Eq, Structural, Clone, Copy, Debug)]
pub enum VAlign {
    Center,
    Top,
    Bottom,
    Justify,
}

/// The line of a border.
#[derive(PartialEq, Eq, Structural, Clone, Copy, Debug)]
pub enum Border {
    Thin,
    Medium,
    Thick,
    Dashed,
    Dotted,
    Double,
    Hair,
    MediumDashed,
    DashDot,
    MediumDashDot,
    DashDotDot,
    MediumDashDotDot,
    SlantDashDot,
}

/// The alignment across that a text names.
pub open spec fn halign_named(s: Seq<char>) -> Option<HAlign> {
    if s == "center"@ {
        Some(HAlign::Center)
    } else if s == "left"@ {
        Some(HAlign::Left)
    } else if s == "right"@ {
        Some(HAlign::Right)
    } else if s == "justify"@ {
        Some(HAlign::Justify)
    } else if s == "fill"@ {
        Some(HAlign::Fill)
    } else if s == "centerContinuous"@ {
        Some(HAlign::CenterAcross)
    } else {
        None
    }
}

/// The alignment up and down that a text names.
pub open spec fn valign_named(s: Seq<char>) -> Option<VAlign> {
    if s == "center"@ {
        Some(VAlign::Center)
    } else if s == "top"@ {
        Some(VAlign::Top)
    } else if s == "bottom"@ {
        Some(VAlign::Bottom)
    } else if s == "justify"@ {
        Some(VAlign::Justify)
    } else {
        None
    }
}

/// The line that a text names.
pub open spec fn border_named(s: Seq<char>) -> Option<Border> {
    if s == "thin"@ {
        Some(Border::Thin)
    } else if s == "medium"@ {
        Some(Border::Medium)
    } else if s == "thick"@ {
        Some(Border::Thick)
    } else if s == "dashed"@ {
        Some(Border::Dashed)
    } else if s == "dotted"@ {
        Some(Border::Dotted)
    } else if s == "double"@ {
        Some(Border::Double)
    } else if s == "hair"@ {
        Some(Border::Hair)
    } else if s == "mediumDashed"@ {
        Some(Border::MediumDashed)
    } else if s == "dashDot"@ {
        Some(Border::DashDot)
    } else if s == "mediumDashDot"@ {
        Some(Border::MediumDashDot)
    } else if s == "dashDotDot"@ {
        Some(Border::DashDotDot)
    } else if s == "mediumDashDotDot"@ {
        Some(Border::MediumDashDotDot)
    } else if s == "slantDashDot"@ {
        Some(Border::SlantDashDot)
    } else {
        None
    }
}

/// The alignment across that a text names.
pub fn halign(s: &str) -> (r: Option<HAlign>)
    ensures
        r == halign_named(s@),
{
    if same(s, "center") {
        Some(HAlign::Center)
    } else if same(s, "left") {
        Some(HAlign::Left)
    } else if same(s, "right") {
        Some(HAlign::Right)
    } else if same(s, "justify") {
        Some(HAlign::Justify)
    } else if same(s, "fill") {
        Some(HAlign::Fill)
    } else if same(s, "centerContinuous") {
        Some(HAlign::CenterAcross)
    } else {
        None
    }
}

/// The alignment up and down that a text names.
pub fn valign(s: &str) -> (r: Option<VAlign>)
    ensures
        r == valign_named(s@),
{
    if same(s, "center") {
        Some(VAlign::Center)
    } else if same(s, "top") {
        Some(VAlign::Top)
    } else if same(s, "bottom") {
        Some(VAlign::Bottom)
    } else if same(s, "justify") {
        Some(VAlign::Justify)
    } else {
        None
    }
}

/// The line that a text names.
pub fn border_style(s: &str) -> (r: Option<Border>)
    ensures
        r == border_named(s@),
{
    if same(s, "thin") {
        Some(Border::Thin)
    } else if same(s, "medium") {
        Some(Border::Medium)
    } else if same(s, "thick") {
        Some(Border::Thick)
    } else if same(s, "dashed") {
        Some(Border::Dashed)
    } else if same(s, "dotted") {
        Some(Border::Dotted)
    } else if same(s, "double") {
        Some(Border::Double)
    } else if same(s, "hair") {
        Some(Border::Hair)
    } else if same(s, "mediumDashed") {
        Some(Border::MediumDashed)
    } else if same(s, "dashDot") {
        Some(Border::DashDot)
    } else if same(s, "mediumDashDot") {
        Some(Border::MediumDashDot)
    } else if same(s, "dashDotDot") {
        Some(Border::DashDotDot)
    } else if same(s, "mediumDashDotDot") {
        Some(Border::MediumDashDotDot)
    } else if same(s, "slantDashDot") {
        Some(Border::SlantDashDot)
    } else {
        None
    }
}

/// What is to be set of a format; what is missing stays as it is by default.
pub struct FormatPlan<T = String> {
    pub bold: bool,
    pub italic: bool,
    pub underline: bool,
    pub font_size: Option<T>,
    pub font_name: Option<T>,
    pub font_color: Option<u32>,
    pub bg_color: Option<u32>,
    pub halign: Option<HAlign>,
    pub valign: Option<VAlign>,
    pub wrap_text: bool,
    pub indent: Option<u8>,
    pub border_top: Option<Border>,
    pub border_bottom: Option<Border>,
    pub border_left: Option<Border>,
    pub border_right: Option<Border>,
    pub num_fmt: Option<T>,
}

impl View for FormatPlan {
    type V = FormatPlan<Seq<char>>;

    open spec fn view(&self) -> FormatPlan<Seq<char>> {
        FormatPlan {
            bold: self.bold,
            italic: self.italic,
            underline: self.underline,
            font_size: optional(self.font_size),
            font_name: optional(self.font_name),
            font_color: self.font_color,
            bg_color: self.bg_color,
            halign: self.halign,
            valign: self.valign,
            wrap_text: self.wrap_text,
            indent: self.indent,
            border_top: self.border_top,
            border_bottom: self.border_bottom,
            border_left: self.border_left,
            border_right: self.border_right,
            num_fmt: optional(self.num_fmt),
        }
    }
}

/// The format in which nothing is set.
pub open spec fn plain_format() -> FormatPlan<Seq<char>> {
    FormatPlan {
        bold: false,
        italic: false,
        underline: false,
        font_size: None,
        font_name: None,
        font_color: None,
        bg_color: None,
        halign: None,
        valign: None,
        wrap_text: false,
        indent: None,
        border_top: None,
        border_bottom: None,
        border_left: None,
        border_right: None,
        num_fmt: None,
    }
}

/// The number of a colour text that is there.
pub open spec fn color_of(s: Option<Seq<char>>) -> Option<u32> {
    match s {
        Some(c) => match color_number(c) {
            Some(n) => Some(n as u32),
            None => None,
        },
        None => None,
    }
}

/// The last eight bits of a number.
pub open spec fn low8(n: u32) -> u8 {
    (n % 0x100) as u8
}

/// The last sixteen bits of a number.
pub open spec fn low16(n: u32) -> u16 {
    (n % 0x1_0000) as u16
}

/// A text if it is not empty.
pub open spec fn if_filled(s: Seq<char>) -> Option<Seq<char>> {
    if s.len() > 0 {
        Some(s)
    } else {
        None
    }
}

/// What is to be set for a format of the document.
pub open spec fn format_plan(f: CellFmt<Seq<char>>) -> FormatPlan<Seq<char>> {
    FormatPlan {
        bold: f.bold,
        italic: f.italic,
        underline: f.underline,
        font_size: if f.font_size.positive {
            Some(f.font_size.shown)
        } else {
            None
        },
        font_name: if_filled(f.font_name),
        font_color: color_of(Some(f.font_color)),
        bg_color: color_of(f.bg_color),
        halign: halign_named(f.halign),
        valign: valign_named(f.valign),
        wrap_text: f.wrap_text,
        indent: if f.indent > 0 {
            Some(low8(f.indent))
        } else {
            None
        },
        border_top: border_named(f.border_top),
        border_bottom: border_named(f.border_bottom),
        border_left: border_named(f.border_left),
        border_right: border_named(f.border_right),
        num_fmt: if f.num_fmt == "General"@ {
            None
        } else {
            if_filled(f.num_fmt)
        },
    }
}

/// What is to be set for a format that may be missing.
pub open spec fn some_format_plan(f: Option<CellFmt<Seq<char>>>) -> FormatPlan<Seq<char>> {
    match f {
        Some(f) => format_plan(f),
        None => plain_format(),
    }
}

/// A text if it is not empty.
fn filled(s: &String) -> (r: Option<String>)
    ensures
        optional(r) == if_filled(s@),
{
    if s.as_str().is_empty() {
        None
    } else {
        Some(s.clone())
    }
}

/// What is to be set for a format of the document.
pub fn mk_fmt(f: &CellFmt) -> (r: FormatPlan)
    ensures
        r@ == format_plan(f@),
{
    let bg_color = match &f.bg_color {
        Some(c) => argb_u32(c.as_str()),
        None => None,
    };
    let font_color = argb_u32(f.font_color.as_str());
    assert(bg_color == color_of(optional(f.bg_color)));
    assert(font_color == color_of(Some(f.font_color@)));
    let indent: Option<u8> = if f.indent > 0 {
        let n: u32 = f.indent;
        assert(#[verifier::truncate] (n as u8) == n % 0x100) by (bit_vector);
        Some(#[verifier::truncate] (n as u8))
    } else {
        None
    };
    FormatPlan {
        bold: f.bold,
        italic: f.italic,
        underline: f.underline,
        font_size: if f.font_size.positive {
            Some(f.font_size.shown.clone())
        } else {
            None
        },
        font_name: filled(&f.font_name),
        font_color,
        bg_color,
        halign: halign(f.halign.as_str()),
        valign: valign(f.valign.as_str()),
        wrap_text: f.wrap_text,
        indent,
        border_top: border_style(f.border_top.as_str()),
        border_bottom: border_style(f.border_bottom.as_str()),
        border_left: border_style(f.border_left.as_str()),
        border_right: border_style(f.border_right.as_str()),
        num_fmt: if same(f.num_fmt.as_str(), "General") {
            None
        } else {
            filled(&f.num_fmt)
        },
    }
}

/// What is to be set for a format that may be missing.
fn some_fmt(f: &Option<CellFmt>) -> (r: FormatPlan)
    ensures
        r@ == some_format_plan(fmt_view(*f)),
{
    match f {
        Some(f) => mk_fmt(f),
        None => FormatPlan {
            bold: false,
            italic: false,
            underline: false,
            font_size: None,
            font_name: None,
            font_color: None,
            bg_color: None,
            halign: None,
            valign: None,
            wrap_text: false,
            indent: None,
            border_top: None,
            border_bottom: None,
            border_left: None,
            border_right: None,
            num_fmt: None,
        },
    }
}

/// What goes into a cell. A number is given by its text.
pub enum Content<T = String> {
    Blank,
    Number(T),
    Text(T),
    Truth(bool),
}

impl View for Content {
    type V = Content<Seq<char>>;

    open spec fn view(&self) -> Content<Seq<char>> {
        match *self {
            Content::Blank => Content::Blank,
            Content::Number(n) => Content::Number(n@),
            Content::Text(t) => Content::Text(t@),
            Content::Truth(b) => Content::Truth(b),
        }
    }
}

/// One thing to be done to a sheet. Rows and columns count from 0; widths and heights are
/// numbers given by their texts.
pub enum Action<T = String, D = Vec<u8>> {
    ColumnWidth(u16, T),
    HideColumn(u16),
    RowHeight(u32, T),
    HideRow(u32),
    Write(u32, u16, Content<T>, FormatPlan<T>),
    Merge(u32, u16, u32, u16, T, FormatPlan<T>),
    Image(u32, u16, D),
}

impl View for Action {
    type V = Action<Seq<char>, Seq<u8>>;

    open spec fn view(&self) -> Action<Seq<char>, Seq<u8>> {
        match *self {
            Action::ColumnWidth(c, w) => Action::ColumnWidth(c, w@),
            Action::HideColumn(c) => Action::HideColumn(c),
            Action::RowHeight(r, h) => Action::RowHeight(r, h@),
            Action::HideRow(r) => Action::HideRow(r),
            Action::Write(r, c, x, f) => Action::Write(r, c, x@, f@),
            Action::Merge(r1, c1, r2, c2, v, f) => Action::Merge(r1, c1, r2, c2, v@, f@),
            Action::Image(r, c, d) => Action::Image(r, c, d@),
        }
    }
}

/// What a sequence of actions holds.
pub open spec fn actions_view(actions: Seq<Action>) -> Seq<Action<Seq<char>, Seq<u8>>> {
    Seq::new(actions.len(), |i: int| actions[i]@)
}

/// The actions for a column.
pub open spec fn col_actions(op: ColOp<Seq<char>>) -> Seq<Action<Seq<char>, Seq<u8>>> {
    let width = Action::ColumnWidth(low16(op.index), op.width);
    if op.hidden {
        seq![width, Action::HideColumn(low16(op.index))]
    } else {
        seq![width]
    }
}

/// The actions for a row.
pub open spec fn row_actions(op: RowOp<Seq<char>>) -> Seq<Action<Seq<char>, Seq<u8>>> {
    let height = Action::RowHeight(op.index, op.height);
    if op.hidden {
        seq![height, Action::HideRow(op.index)]
    } else {
        seq![height]
    }
}

/// The actions for some columns.
pub open spec fn cols_actions(ops: Seq<ColOp<Seq<char>>>) -> Seq<Action<Seq<char>, Seq<u8>>>
    decreases ops.len(),
{
    if ops.len() == 0 {
        Seq::empty()
    } else {
        cols_actions(ops.drop_last()) + col_actions(ops.last())
    }
}

/// The actions for some rows.
pub open spec fn rows_actions(ops: Seq<RowOp<Seq<char>>>) -> Seq<Action<Seq<char>, Seq<u8>>>
    decreases ops.len(),
{
    if ops.len() == 0 {
        Seq::empty()
    } else {
        rows_actions(ops.drop_last()) + row_actions(ops.last())
    }
}

/// One less, but not less than 0.
pub open spec fn one_less(n: u32) -> u32 {
    if n == 0 {
        0
    } else {
        (n - 1) as u32
    }
}

/// Whether a value of a truth cell is true.
pub open spec fn is_true(value: Seq<char>) -> bool {
    lower_text(value) == "true"@ || value == "1"@ || upper_text(value) == "TRUE"@
}

/// What goes into a cell with a value and a type. A value that reads as no number is text.
pub open spec fn content_of(
    value: Seq<char>,
    cell_type: Seq<char>,
    readings: Seq<FloatReading<Seq<char>>>,
) -> Content<Seq<char>> {
    if value.len() == 0 {
        Content::Blank
    } else if cell_type == "n"@ {
        match reading_of(readings, value) {
            Some(f) => Content::Number(f.number.shown),
            None => Content::Text(value),
        }
    } else if cell_type == "b"@ {
        Content::Truth(is_true(value))
    } else {
        Content::Text(value)
    }
}

/// The values of single cells are restored with their types: text as it stands, truth values
/// as what they say, numbers as the table reads them. An empty value leaves the cell blank.
pub proof fn law_data_types_come_back(
    value: Seq<char>,
    b: bool,
    readings: Seq<FloatReading<Seq<char>>>,
)
    ensures
        value.len() > 0 ==> content_of(value, "s"@, readings) == Content::<Seq<char>>::Text(value),
        value.len() > 0 ==> (reading_of(readings, value) matches Some(f) ==> content_of(
            value,
            "n"@,
            readings,
        ) == Content::<Seq<char>>::Number(f.number.shown)),
        content_of(truth_text(b), "b"@, readings) == Content::<Seq<char>>::Truth(b),
        value.len() == 0 ==> content_of(value, "s"@, readings) == Content::<Seq<char>>::Blank,
{
    reveal_strlit("s");
    reveal_strlit("n");
    reveal_strlit("b");
    reveal_strlit("1");
    reveal_strlit("true");
    reveal_strlit("TRUE");
    reveal_strlit("FALSE");
    assert("s"@[0] == 's' && "n"@[0] == 'n' && "b"@[0] == 'b');
    assert("FALSE"@.len() == 5 && "TRUE"@.len() == 4 && "true"@.len() == 4 && "1"@.len() == 1);
    let t = truth_text(b);
    assert(is_ascii_chars(t));
    assert(lower_text(t).len() == t.len());
    assert(upper_text(t).len() == t.len());
    if b {
        assert(upper_text(t) =~= "TRUE"@);
    }
}

/// The action for a cell.
pub open spec fn cell_action(
    op: CellOp<Seq<char>>,
    readings: Seq<FloatReading<Seq<char>>>,
) -> Action<Seq<char>, Seq<u8>> {
    Action::Write(
        one_less(op.row),
        low16(one_less(op.col)),
        content_of(op.value, op.cell_type, readings),
        some_format_plan(op.fmt),
    )
}

/// The action for a merged range. A range of one cell is written like a cell of text.
pub open spec fn merge_action(
    op: MergeOp<Seq<char>>,
    readings: Seq<FloatReading<Seq<char>>>,
) -> Action<Seq<char>, Seq<u8>> {
    let r1 = one_less(op.r1);
    let c1 = low16(one_less(op.c1));
    let r2 = one_less(op.r2);
    let c2 = low16(one_less(op.c2));
    if r1 == r2 && c1 == c2 {
        Action::Write(r1, c1, content_of(op.value, "s"@, readings), some_format_plan(op.fmt))
    } else {
        Action::Merge(r1, c1, r2, c2, op.value, some_format_plan(op.fmt))
    }
}

/// The action for an image.
pub open spec fn image_action(op: ImageOp<Seq<u8>>) -> Action<Seq<char>, Seq<u8>> {
    Action::Image(op.row, low16(op.col), op.data)
}

/// The actions that restore a sheet, in order: columns, rows, cells, merged ranges, images.
pub open spec fn sheet_actions(
    ops: OpsView,
    readings: Seq<FloatReading<Seq<char>>>,
) -> Seq<Action<Seq<char>, Seq<u8>>> {
    cols_actions(ops.col_ops) + rows_actions(ops.row_ops) + Seq::new(
        ops.cells.len(),
        |i: int| cell_action(ops.cells[i], readings),
    ) + Seq::new(ops.merges.len(), |i: int| merge_action(ops.merges[i], readings)) + Seq::new(
        ops.image_ops.len(),
        |i: int| image_action(ops.image_ops[i]),
    )
}

/// The last sixteen bits of a number.
fn to_u16(n: u32) -> (r: u16)
    ensures
        r == low16(n),
{
    assert(#[verifier::truncate] (n as u16) == n % 0x1_0000) by (bit_vector);
    #[verifier::truncate]
    (n as u16)
}

/// Adds an action.
fn push_action(actions: &mut Vec<Action>, action: Action)
    ensures
        actions_view(final(actions)@) == actions_view(old(actions)@).push(action@),
{
    actions.push(action);
    assert(actions_view(actions@) =~= actions_view(old(actions)@).push(action@));
}

/// What goes into a cell with a value and a type.
fn make_content(value: &String, cell_type: &str, readings: &[FloatReading]) -> (r: Content)
    ensures
        r@ == content_of(value@, cell_type@, readings_view(readings@)),
{
    if value.as_str().is_empty() {
        Content::Blank
    } else if same(cell_type, "n") {
        match find_reading(readings, value.as_str()) {
            Some(f) => Content::Number(f.number.shown.clone()),
            None => Content::Text(value.clone()),
        }
    } else if same(cell_type, "b") {
        Content::Truth(
            same(to_lowercase(value.as_str()).as_str(), "true") || same(value.as_str(), "1")
                || same(to_uppercase(value.as_str()).as_str(), "TRUE"),
        )
    } else {
        Content::Text(value.clone())
    }
}

/// The action for a cell.
pub fn write_cell(op: &CellOp, readings: &[FloatReading]) -> (r: Action)
    ensures
        r@ == cell_action(op@, readings_view(readings@)),
{
    Action::Write(
        op.row.saturating_sub(1),
        to_u16(op.col.saturating_sub(1)),
        make_content(&op.value, op.cell_type.as_str(), readings),
        some_fmt(&op.fmt),
    )
}

/// The action for a merged range.
pub fn write_merge(op: &MergeOp, readings: &[FloatReading]) -> (r: Action)
    ensures
        r@ == merge_action(op@, readings_view(readings@)),
{
    let r1: u32 = op.r1.saturating_sub(1);
    let c1: u16 = to_u16(op.c1.saturating_sub(1));
    let r2: u32 = op.r2.saturating_sub(1);
    let c2: u16 = to_u16(op.c2.saturating_sub(1));
    let fmt = some_fmt(&op.fmt);
    if r1 == r2 && c1 == c2 {
        Action::Write(r1, c1, make_content(&op.value, "s", readings), fmt)
    } else {
        Action::Merge(r1, c1, r2, c2, op.value.clone(), fmt)
    }
}

/// A copy of some bytes.
fn copy_bytes(data: &Vec<u8>) -> (r: Vec<u8>)
    ensures
        r@ == data@,
{
    let mut out: Vec<u8> = Vec::new();
    for i in 0..data.len()
        invariant
            out@ == data@.take(i as int),
    {
        out.push(data[i]);
        assert(data@.take(i + 1) =~= data@.take(i as int).push(data@[i as int]));
    }
    assert(data@.take(data@.len() as int) =~= data@);
    out
}

/// Adds the actions for the columns.
fn plan_cols(ops: &Vec<ColOp>, actions: &mut Vec<Action>)
    ensures
        actions_view(final(actions)@) == actions_view(old(actions)@) + cols_actions(
            Seq::new(ops@.len(), |i: int| ops@[i]@),
        ),
{
    let ghost all = Seq::new(ops@.len(), |i: int| ops@[i]@);
    let ghost before = actions_view(actions@);
    assert(all.take(0) =~= Seq::<ColOp<Seq<char>>>::empty());
    assert(before + cols_actions(all.take(0)) =~= before);
    for i in 0..ops.len()
        invariant
            all == Seq::new(ops@.len(), |i: int| ops@[i]@),
            actions_view(actions@) == before + cols_actions(all.take(i as int)),
    {
        let op = &ops[i];
        let ghost so_far = cols_actions(all.take(i as int));
        assert(all.take(i + 1).drop_last() =~= all.take(i as int));
        assert(all.take(i + 1).last() == op@);
        let c: u16 = to_u16(op.index);
        push_action(actions, Action::ColumnWidth(c, op.width.clone()));
        if op.hidden {
            push_action(actions, Action::HideColumn(c));
        }
        assert(actions_view(actions@) =~= before + (so_far + col_actions(op@)));
    }
    assert(all.take(all.len() as int) =~= all);
}

/// Adds the actions for the rows.
fn plan_rows(ops: &Vec<RowOp>, actions: &mut Vec<Action>)
    ensures
        actions_view(final(actions)@) == actions_view(old(actions)@) + rows_actions(
            Seq::new(ops@.len(), |i: int| ops@[i]@),
        ),
{
    let ghost all = Seq::new(ops@.len(), |i: int| ops@[i]@);
    let ghost before = actions_view(actions@);
    assert(all.take(0) =~= Seq::<RowOp<Seq<char>>>::empty());
    assert(before + rows_actions(all.take(0)) =~= before);
    for i in 0..ops.len()
        invariant
            all == Seq::new(ops@.len(), |i: int| ops@[i]@),
            actions_view(actions@) == before + rows_actions(all.take(i as int)),
    {
        let op = &ops[i];
        let ghost so_far = rows_actions(all.take(i as int));
        assert(all.take(i + 1).drop_last() =~= all.take(i as int));
        assert(all.take(i + 1).last() == op@);
        push_action(actions, Action::RowHeight(op.index, op.height.clone()));
        if op.hidden {
            push_action(actions, Action::HideRow(op.index));
        }
        assert(actions_view(actions@) =~= before + (so_far + row_actions(op@)));
    }
    assert(all.take(all.len() as int) =~= all);
}

/// Everything that has to be done to restore a sheet.
pub struct SheetPlan {
    pub name: String,
    pub actions: Vec<Action>,
}

/// What a [`SheetPlan`] holds.
#[verifier::ext_equal]
pub struct PlanView {
    pub name: Seq<char>,
    pub actions: Seq<Action<Seq<char>, Seq<u8>>>,
}

impl View for SheetPlan {
    type V = PlanView;

    open spec fn view(&self) -> PlanView {
        PlanView { name: self.name@, actions: actions_view(self.actions@) }
    }
}

/// What a sequence of plans holds.
pub open spec fn plans_view(plans: Seq<SheetPlan>) -> Seq<PlanView> {
    Seq::new(plans.len(), |i: int| plans[i]@)
}

/// The plan that restores a sheet.
pub open spec fn sheet_plan(ops: OpsView, readings: Seq<FloatReading<Seq<char>>>) -> PlanView {
    PlanView { name: ops.name, actions: sheet_actions(ops, readings) }
}

/// The plans that restore some sheets.
pub open spec fn sheet_plans(
    sheets: Seq<OpsView>,
    readings: Seq<FloatReading<Seq<char>>>,
) -> Seq<PlanView> {
    Seq::new(sheets.len(), |i: int| sheet_plan(sheets[i], readings))
}

/// The plan that restores a sheet.
pub fn plan_sheet(ops: &SheetOps, readings: &[FloatReading]) -> (r: SheetPlan)
    ensures
        r@ == sheet_plan(ops@, readings_view(readings@)),
{
    let mut actions: Vec<Action> = Vec::new();
    let ghost o = ops@;
    let ghost table = readings_view(readings@);
    assert(actions_view(actions@) =~= Seq::<Action<Seq<char>, Seq<u8>>>::empty());
    plan_cols(&ops.col_ops, &mut actions);
    plan_rows(&ops.row_ops, &mut actions);
    let ghost a1 = cols_actions(o.col_ops) + rows_actions(o.row_ops);
    assert(actions_view(actions@) =~= a1);
    let ghost cells = Seq::new(o.cells.len(), |i: int| cell_action(o.cells[i], table));
    assert(a1 + cells.take(0) =~= a1);
    for i in 0..ops.cells.len()
        invariant
            o == ops@,
            table == readings_view(readings@),
            cells == Seq::new(o.cells.len(), |i: int| cell_action(o.cells[i], table)),
            actions_view(actions@) == a1 + cells.take(i as int),
    {
        assert(o.cells[i as int] == ops.cells@[i as int]@);
        push_action(&mut actions, write_cell(&ops.cells[i], readings));
        assert((a1 + cells.take(i as int)).push(cells[i as int]) =~= a1 + cells.take(i + 1));
    }
    let ghost a2 = a1 + cells;
    assert(cells.take(cells.len() as int) =~= cells);
    let ghost merges = Seq::new(o.merges.len(), |i: int| merge_action(o.merges[i], table));
    assert(a2 + merges.take(0) =~= a2);
    for i in 0..ops.merges.len()
        invariant
            o == ops@,
            table == readings_view(readings@),
            merges == Seq::new(o.merges.len(), |i: int| merge_action(o.merges[i], table)),
            actions_view(actions@) == a2 + merges.take(i as int),
    {
        assert(o.merges[i as int] == ops.merges@[i as int]@);
        push_action(&mut actions, write_merge(&ops.merges[i], readings));
        assert((a2 + merges.take(i as int)).push(merges[i as int]) =~= a2 + merges.take(i + 1));
    }
    let ghost a3 = a2 + merges;
    assert(merges.take(merges.len() as int) =~= merges);
    let ghost images = Seq::new(o.image_ops.len(), |i: int| image_action(o.image_ops[i]));
    assert(a3 + images.take(0) =~= a3);
    for i in 0..ops.image_ops.len()
        invariant
            o == ops@,
            images == Seq::new(o.image_ops.len(), |i: int| image_action(o.image_ops[i])),
            actions_view(actions@) == a3 + images.take(i as int),
    {
        let op = &ops.image_ops[i];
        assert(o.image_ops[i as int] == op@);
        push_action(
            &mut actions,
            Action::Image(op.row, to_u16(op.col), copy_bytes(&op.data)),
        );
        assert((a3 + images.take(i as int)).push(images[i as int]) =~= a3 + images.take(i + 1));
    }
    assert(images.take(images.len() as int) =~= images);
    SheetPlan { name: ops.name.clone(), actions }
}

/// Why a document cannot be restored.
pub enum ExportError {
    /// The document is not text; the reason is given.
    NotText(String),
    /// Something that belongs to a sheet stands outside of any.
    NoSheet,
}

/// The plans that restore the sheets which the events of a document describe.
pub fn plan_in(events: &[XmlEvent], readings: &[FloatReading]) -> (r: Result<
    Vec<SheetPlan>,
    ExportError,
>)
    ensures
        ({
            let e = events_view(events@);
            let table = readings_view(readings@);
            match r {
                Ok(plans) => sheets_hold_all(e, table) && plans_view(plans@) == sheet_plans(
                    restored(e, table),
                    table,
                ),
                Err(ExportError::NotText(_)) => false,
                Err(ExportError::NoSheet) => !sheets_hold_all(e, table),
            }
        }),
{
    let ghost table = readings_view(readings@);
    let sheets = match sheets_in(events, readings) {
        Some(s) => s,
        None => {
            return Err(ExportError::NoSheet);
        },
    };
    let ghost all = ops_view(sheets@);
    let mut plans: Vec<SheetPlan> = Vec::new();
    assert(plans_view(plans@) =~= sheet_plans(all, table).take(0));
    for i in 0..sheets.len()
        invariant
            all == ops_view(sheets@),
            table == readings_view(readings@),
            sheets_hold_all(events_view(events@), table),
            all == restored(events_view(events@), table),
            plans_view(plans@) == sheet_plans(all, table).take(i as int),
    {
        assert(all[i as int] == sheets@[i as int]@);
        let ghost before = plans_view(plans@);
        let plan = plan_sheet(&sheets[i], readings);
        let ghost pv = plan@;
        plans.push(plan);
        assert(plans_view(plans@) =~= before.push(pv));
        assert(before.push(pv) =~= sheet_plans(all, table).take(i + 1));
    }
    assert(plans_view(plans@) =~= sheet_plans(all, table));
    Ok(plans)
}

/// The plans that restore the sheets of a document. For a document that this library wrote
/// they restore its worksheets.
pub fn plan_export(xml: &[u8], readings: &[FloatReading]) -> (r: Result<
    Vec<SheetPlan>,
    ExportError,
>)
    ensures
        ({
            let e = xml_events(xml@, true);
            let table = readings_view(readings@);
            match r {
                Ok(plans) => valid_utf8(xml@) && sheets_hold_all(e, table) && plans_view(plans@)
                    == sheet_plans(restored(e, table), table),
                Err(ExportError::NotText(m)) => !valid_utf8(xml@) && m@ == utf8_error(xml@),
                Err(ExportError::NoSheet) => valid_utf8(xml@) && !sheets_hold_all(e, table),
            }
        }),
        forall|d: DocumentView|
            clean_document(d) && reads_sheets(readings_view(readings@), d.sheets) && xml@
                == #[trigger] written(d) ==> match r {
                Ok(plans) => plans_view(plans@) == sheet_plans(
                    sheets_back(d.sheets, readings_view(readings@)),
                    readings_view(readings@),
                ),
                Err(_) => false,
            },
{
    proof {
        let table = readings_view(readings@);
        assert forall|d: DocumentView|
            clean_document(d) && xml@ == #[trigger] written(d) implies valid_utf8(xml@) && in_order(
            workbook_lines(d),
        ) by {
            encode_utf8_valid_utf8(document_text(workbook_lines(d)));
            law_document_in_order(d);
        }
    }
    match text_of_utf8(xml) {
        Err(m) => Err(ExportError::NotText(m)),
        Ok(_) => {
            let document = read_document(xml, true);
            proof {
                let e = xml_events(xml@, true);
                let table = readings_view(readings@);
                assert forall|d: DocumentView|
                    clean_document(d) && reads_sheets(table, d.sheets) && xml@ == #[trigger] written(
                        d,
                    ) implies sheets_hold_all(e, table) && restored(e, table) == sheets_back(
                    d.sheets,
                    table,
                ) by {
                    let lines = workbook_lines(d);
                    assert(xml@ == encode_utf8(document_text(lines)));
                    law_export_restores(d, e, table);
                }
            }
            plan_in(document.events.as_slice(), readings)
        },
    }
}

} // verus!
