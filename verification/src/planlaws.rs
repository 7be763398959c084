//! What a plan does for each part of a sheet.

use vstd::prelude::*;

use crate::color::color_number;
use crate::document::{law_ordered_permutes, ordered};
use crate::export::{filled_merges, merge_at, CellFmt, ColOp, MergeOp, OpsView, Pending, RowOp};
use crate::floats::{reading_of, FloatReading};
use crate::plan::{
    border_named, cell_action, cols_actions, content_of, format_plan, halign_named, image_action,
    merge_action, rows_actions, sheet_actions, sheet_plans, some_format_plan, valign_named, Action,
    Border, Content, FormatPlan, HAlign, VAlign,
};
use crate::restore::{cell_pending, merge_back, merges_back, sheet_back, some_format_back, spans};
use crate::sheet::{Cell, SheetView};
use crate::text::{lower_text, upper_text};

verus! {

/// A row or a column that counts from 1, counted from 0.
pub open spec fn from_zero(n: u32) -> int {
    if n == 0 {
        0
    } else {
        n - 1
    }
}

/// Whether a merged range has two corners that are different cells. Columns are told apart as
/// far as 16 bits reach.
pub open spec fn has_two_corners(op: MergeOp<Seq<char>>) -> bool {
    from_zero(op.r1) != from_zero(op.r2) || from_zero(op.c1) % 0x1_0000 != from_zero(op.c2)
        % 0x1_0000
}

/// The plan of a sheet holds one action for each merged range: it is merged with exactly its
/// corners and its value, whatever that is, if these are different cells; only a range of one
/// cell is written, as text.
pub proof fn law_merged_ranges_are_merged(
    ops: OpsView,
    k: int,
    readings: Seq<FloatReading<Seq<char>>>,
)
    requires
        0 <= k < ops.merges.len(),
    ensures
        ({
            let all = sheet_actions(ops, readings);
            let at = all.len() - ops.image_ops.len() - ops.merges.len() + k;
            let op = ops.merges[k];
            &&& 0 <= at < all.len()
            &&& has_two_corners(op) ==> all[at] == Action::<Seq<char>, Seq<u8>>::Merge(
                from_zero(op.r1) as u32,
                (from_zero(op.c1) % 0x1_0000) as u16,
                from_zero(op.r2) as u32,
                (from_zero(op.c2) % 0x1_0000) as u16,
                op.value,
                some_format_plan(op.fmt),
            )
            &&& !has_two_corners(op) ==> all[at] == Action::<Seq<char>, Seq<u8>>::Write(
                from_zero(op.r1) as u32,
                (from_zero(op.c1) % 0x1_0000) as u16,
                if op.value.len() == 0 {
                    Content::Blank
                } else {
                    Content::Text(op.value)
                },
                some_format_plan(op.fmt),
            )
        }),
{
    reveal_strlit("s");
    reveal_strlit("n");
    reveal_strlit("b");
    assert("s"@[0] == 's' && "n"@[0] == 'n' && "b"@[0] == 'b');
    let all = sheet_actions(ops, readings);
    let at = all.len() - ops.image_ops.len() - ops.merges.len() + k;
    assert(all[at] == merge_action(ops.merges[k], readings));
}

/// The plan of a sheet writes each cell at its row and its column, with its value and its
/// format.
pub proof fn law_cells_are_written(
    ops: OpsView,
    k: int,
    readings: Seq<FloatReading<Seq<char>>>,
)
    requires
        0 <= k < ops.cells.len(),
    ensures
        ({
            let all = sheet_actions(ops, readings);
            let at = all.len() - ops.image_ops.len() - ops.merges.len() - ops.cells.len() + k;
            let op = ops.cells[k];
            &&& 0 <= at < all.len()
            &&& all[at] == Action::<Seq<char>, Seq<u8>>::Write(
                from_zero(op.row) as u32,
                (from_zero(op.col) % 0x1_0000) as u16,
                content_of(op.value, op.cell_type, readings),
                some_format_plan(op.fmt),
            )
        }),
{
    let all = sheet_actions(ops, readings);
    let at = all.len() - ops.image_ops.len() - ops.merges.len() - ops.cells.len() + k;
    assert(all[at] == cell_action(ops.cells[k], readings));
}

/// The plan of a sheet ends with its images, each at its row and its column with its bytes.
pub proof fn law_images_are_inserted(
    ops: OpsView,
    k: int,
    readings: Seq<FloatReading<Seq<char>>>,
)
    requires
        0 <= k < ops.image_ops.len(),
    ensures
        ({
            let all = sheet_actions(ops, readings);
            let op = ops.image_ops[k];
            all[all.len() - ops.image_ops.len() + k] == Action::<Seq<char>, Seq<u8>>::Image(
                op.row,
                (op.col % 0x1_0000) as u16,
                op.data,
            )
        }),
{
    let all = sheet_actions(ops, readings);
    assert(all[all.len() - ops.image_ops.len() + k] == image_action(ops.image_ops[k]));
}

/// How many of the columns are hidden.
pub open spec fn hidden_cols(ops: Seq<ColOp<Seq<char>>>) -> nat
    decreases ops.len(),
{
    if ops.len() == 0 {
        0
    } else if ops.last().hidden {
        hidden_cols(ops.drop_last()) + 1
    } else {
        hidden_cols(ops.drop_last())
    }
}

/// How many of the rows are hidden.
pub open spec fn hidden_rows(ops: Seq<RowOp<Seq<char>>>) -> nat
    decreases ops.len(),
{
    if ops.len() == 0 {
        0
    } else if ops.last().hidden {
        hidden_rows(ops.drop_last()) + 1
    } else {
        hidden_rows(ops.drop_last())
    }
}

/// The actions for the columns up to one.
proof fn lemma_cols(ops: Seq<ColOp<Seq<char>>>, k: int)
    requires
        0 <= k < ops.len(),
    ensures
        ({
            let all = cols_actions(ops);
            let at = k + hidden_cols(ops.take(k));
            let c = (ops[k].index % 0x1_0000) as u16;
            &&& all.len() == ops.len() + hidden_cols(ops)
            &&& 0 <= at < all.len()
            &&& all[at] == Action::<Seq<char>, Seq<u8>>::ColumnWidth(c, ops[k].width)
            &&& ops[k].hidden ==> at + 1 < all.len() && all[at + 1] == Action::<
                Seq<char>,
                Seq<u8>,
            >::HideColumn(c)
        }),
    decreases ops.len(),
{
    let rest = ops.drop_last();
    if k < rest.len() {
        lemma_cols(rest, k);
        assert(rest.take(k) =~= ops.take(k));
    } else {
        assert(rest =~= ops.take(k));
        lemma_cols_len(rest);
    }
}

/// The number of actions for some columns.
proof fn lemma_cols_len(ops: Seq<ColOp<Seq<char>>>)
    ensures
        cols_actions(ops).len() == ops.len() + hidden_cols(ops),
    decreases ops.len(),
{
    if ops.len() > 0 {
        lemma_cols_len(ops.drop_last());
    }
}

/// The actions for the rows up to one.
proof fn lemma_rows(ops: Seq<RowOp<Seq<char>>>, k: int)
    requires
        0 <= k < ops.len(),
    ensures
        ({
            let all = rows_actions(ops);
            let at = k + hidden_rows(ops.take(k));
            &&& all.len() == ops.len() + hidden_rows(ops)
            &&& 0 <= at < all.len()
            &&& all[at] == Action::<Seq<char>, Seq<u8>>::RowHeight(ops[k].index, ops[k].height)
            &&& ops[k].hidden ==> at + 1 < all.len() && all[at + 1] == Action::<
                Seq<char>,
                Seq<u8>,
            >::HideRow(ops[k].index)
        }),
    decreases ops.len(),
{
    let rest = ops.drop_last();
    if k < rest.len() {
        lemma_rows(rest, k);
        assert(rest.take(k) =~= ops.take(k));
    } else {
        assert(rest =~= ops.take(k));
        lemma_rows_len(rest);
    }
}

/// The number of actions for some rows.
proof fn lemma_rows_len(ops: Seq<RowOp<Seq<char>>>)
    ensures
        rows_actions(ops).len() == ops.len() + hidden_rows(ops),
    decreases ops.len(),
{
    if ops.len() > 0 {
        lemma_rows_len(ops.drop_last());
    }
}

/// The plan of a sheet begins with its columns: each is given its width, and then hidden if it
/// is to be.
pub proof fn law_columns_come_first(
    ops: OpsView,
    k: int,
    readings: Seq<FloatReading<Seq<char>>>,
)
    requires
        0 <= k < ops.col_ops.len(),
    ensures
        ({
            let all = sheet_actions(ops, readings);
            let op = ops.col_ops[k];
            let at = k + hidden_cols(ops.col_ops.take(k));
            let c = (op.index % 0x1_0000) as u16;
            &&& all[at] == Action::<Seq<char>, Seq<u8>>::ColumnWidth(c, op.width)
            &&& op.hidden ==> all[at + 1] == Action::<Seq<char>, Seq<u8>>::HideColumn(c)
        }),
{
    lemma_cols(ops.col_ops, k);
}

/// Behind the columns come the rows: each is given its height, and then hidden if it is to be.
pub proof fn law_rows_come_second(
    ops: OpsView,
    k: int,
    readings: Seq<FloatReading<Seq<char>>>,
)
    requires
        0 <= k < ops.row_ops.len(),
    ensures
        ({
            let all = sheet_actions(ops, readings);
            let op = ops.row_ops[k];
            let at = ops.col_ops.len() + hidden_cols(ops.col_ops) + k + hidden_rows(
                ops.row_ops.take(k),
            );
            &&& all[at as int] == Action::<Seq<char>, Seq<u8>>::RowHeight(op.index, op.height)
            &&& op.hidden ==> all[at + 1] == Action::<Seq<char>, Seq<u8>>::HideRow(op.index)
        }),
{
    lemma_cols_len(ops.col_ops);
    lemma_rows(ops.row_ops, k);
}

/// A plan holds nothing but the actions for the columns, the rows, the cells, the merged ranges
/// and the images of its sheet; it has the name of the sheet, and plans stand in the order of
/// the sheets.
pub proof fn law_plans_hold_nothing_else(
    sheets: Seq<OpsView>,
    k: int,
    readings: Seq<FloatReading<Seq<char>>>,
)
    requires
        0 <= k < sheets.len(),
    ensures
        ({
            let plans = sheet_plans(sheets, readings);
            let ops = sheets[k];
            &&& plans.len() == sheets.len()
            &&& plans[k].name == ops.name
            &&& plans[k].actions == sheet_actions(ops, readings)
            &&& plans[k].actions.len() == ops.col_ops.len() + hidden_cols(ops.col_ops)
                + ops.row_ops.len() + hidden_rows(ops.row_ops) + ops.cells.len()
                + ops.merges.len() + ops.image_ops.len()
        }),
{
    lemma_cols_len(sheets[k].col_ops);
    lemma_rows_len(sheets[k].row_ops);
}

/// What goes into a cell: nothing for an empty value; a number where the type is `n` and the
/// value reads as one; a truth value where the type is `b`, true for `1` and for `true` in
/// whatever case; and the value as text for everything else.
pub proof fn law_contents(
    value: Seq<char>,
    cell_type: Seq<char>,
    readings: Seq<FloatReading<Seq<char>>>,
)
    ensures
        ({
            let c = content_of(value, cell_type, readings);
            &&& c is Blank <==> value.len() == 0
            &&& c is Number <==> value.len() > 0 && cell_type == "n"@ && reading_of(
                readings,
                value,
            ) is Some
            &&& c is Truth <==> value.len() > 0 && cell_type == "b"@
            &&& c matches Content::Text(t) ==> t == value
            &&& c matches Content::Number(n) ==> n == reading_of(readings, value)->0.number.shown
            &&& c matches Content::Truth(b) ==> (b <==> value == "1"@ || lower_text(value)
                == "true"@ || upper_text(value) == "TRUE"@)
        }),
{
    reveal_strlit("n");
    reveal_strlit("b");
    assert("n"@[0] == 'n' && "b"@[0] == 'b');
}

/// Whether a plan gives a cell the look that its format says.
pub open spec fn looks_as(p: FormatPlan<Seq<char>>, f: CellFmt<Seq<char>>) -> bool {
    &&& p.bold == f.bold
    &&& p.italic == f.italic
    &&& p.underline == f.underline
    &&& p.wrap_text == f.wrap_text
    &&& f.font_size.positive ==> p.font_size == Some(f.font_size.shown)
    &&& !f.font_size.positive ==> p.font_size is None
    &&& f.font_name.len() > 0 ==> p.font_name == Some(f.font_name)
    &&& f.font_name.len() == 0 ==> p.font_name is None
    &&& match color_number(f.font_color) {
        Some(n) => p.font_color == Some(n as u32),
        None => p.font_color is None,
    }
    &&& f.bg_color is None ==> p.bg_color is None
    &&& f.bg_color matches Some(c) ==> match color_number(c) {
        Some(n) => p.bg_color == Some(n as u32),
        None => p.bg_color is None,
    }
    &&& p.halign == halign_named(f.halign)
    &&& p.valign == valign_named(f.valign)
    &&& f.indent == 0 ==> p.indent is None
    &&& 0 < f.indent < 0x100 ==> p.indent == Some(f.indent as u8)
    &&& p.border_top == border_named(f.border_top)
    &&& p.border_bottom == border_named(f.border_bottom)
    &&& p.border_left == border_named(f.border_left)
    &&& p.border_right == border_named(f.border_right)
    &&& f.num_fmt.len() == 0 || f.num_fmt == "General"@ ==> p.num_fmt is None
    &&& f.num_fmt.len() > 0 && f.num_fmt != "General"@ ==> p.num_fmt == Some(f.num_fmt)
}

/// A plan gives a cell the look that its format says, field by field, and nothing where it has
/// none.
pub proof fn law_plans_keep_the_look(f: CellFmt<Seq<char>>)
    ensures
        looks_as(some_format_plan(Some(f)), f),
        looks_as(format_plan(f), f),
        ({
            let p = some_format_plan(None);
            &&& !p.bold && !p.italic && !p.underline && !p.wrap_text
            &&& p.font_size is None && p.font_name is None && p.font_color is None
            &&& p.bg_color is None && p.halign is None && p.valign is None && p.indent is None
            &&& p.border_top is None && p.border_bottom is None
            &&& p.border_left is None && p.border_right is None
            &&& p.num_fmt is None
        }),
{
}

/// What tells short names apart: length, first and last character.
spec fn key(s: Seq<char>) -> (nat, char, char) {
    (s.len(), s[0], s.last())
}

/// Each alignment across has one name, and no other text names one.
pub proof fn law_names_of_alignments_across(s: Seq<char>)
    ensures
        halign_named("center"@) == Some(HAlign::Center),
        halign_named("left"@) == Some(HAlign::Left),
        halign_named("right"@) == Some(HAlign::Right),
        halign_named("justify"@) == Some(HAlign::Justify),
        halign_named("fill"@) == Some(HAlign::Fill),
        halign_named("centerContinuous"@) == Some(HAlign::CenterAcross),
        halign_named(s) is Some ==> s == "center"@ || s == "left"@ || s == "right"@ || s
            == "justify"@ || s == "fill"@ || s == "centerContinuous"@,
{
    reveal_strlit("center");
    reveal_strlit("left");
    reveal_strlit("right");
    reveal_strlit("justify");
    reveal_strlit("fill");
    reveal_strlit("centerContinuous");
    assert(key("center"@) == (6nat, 'c', 'r'));
    assert(key("left"@) == (4nat, 'l', 't'));
    assert(key("right"@) == (5nat, 'r', 't'));
    assert(key("justify"@) == (7nat, 'j', 'y'));
    assert(key("fill"@) == (4nat, 'f', 'l'));
    assert(key("centerContinuous"@) == (16nat, 'c', 's'));
}

/// Each alignment up and down has one name, and no other text names one.
pub proof fn law_names_of_alignments_up_and_down(s: Seq<char>)
    ensures
        valign_named("center"@) == Some(VAlign::Center),
        valign_named("top"@) == Some(VAlign::Top),
        valign_named("bottom"@) == Some(VAlign::Bottom),
        valign_named("justify"@) == Some(VAlign::Justify),
        valign_named(s) is Some ==> s == "center"@ || s == "top"@ || s == "bottom"@ || s
            == "justify"@,
{
    reveal_strlit("center");
    reveal_strlit("top");
    reveal_strlit("bottom");
    reveal_strlit("justify");
    assert(key("center"@) == (6nat, 'c', 'r'));
    assert(key("top"@) == (3nat, 't', 'p'));
    assert(key("bottom"@) == (6nat, 'b', 'm'));
    assert(key("justify"@) == (7nat, 'j', 'y'));
}

/// Each line of a border has one name, and no other text names one: `none` is no line.
pub proof fn law_names_of_lines(s: Seq<char>)
    ensures
        border_named("thin"@) == Some(Border::Thin),
        border_named("medium"@) == Some(Border::Medium),
        border_named("thick"@) == Some(Border::Thick),
        border_named("dashed"@) == Some(Border::Dashed),
        border_named("dotted"@) == Some(Border::Dotted),
        border_named("double"@) == Some(Border::Double),
        border_named("hair"@) == Some(Border::Hair),
        border_named("mediumDashed"@) == Some(Border::MediumDashed),
        border_named("dashDot"@) == Some(Border::DashDot),
        border_named("mediumDashDot"@) == Some(Border::MediumDashDot),
        border_named("dashDotDot"@) == Some(Border::DashDotDot),
        border_named("mediumDashDotDot"@) == Some(Border::MediumDashDotDot),
        border_named("slantDashDot"@) == Some(Border::SlantDashDot),
        border_named("none"@) is None,
        border_named(s) is Some ==> s == "thin"@ || s == "medium"@ || s == "thick"@ || s
            == "dashed"@ || s == "dotted"@ || s == "double"@ || s == "hair"@ || s
            == "mediumDashed"@ || s == "dashDot"@ || s == "mediumDashDot"@ || s == "dashDotDot"@
            || s == "mediumDashDotDot"@ || s == "slantDashDot"@,
{
    reveal_strlit("thin");
    reveal_strlit("medium");
    reveal_strlit("thick");
    reveal_strlit("dashed");
    reveal_strlit("dotted");
    reveal_strlit("double");
    reveal_strlit("hair");
    reveal_strlit("mediumDashed");
    reveal_strlit("dashDot");
    reveal_strlit("mediumDashDot");
    reveal_strlit("dashDotDot");
    reveal_strlit("mediumDashDotDot");
    reveal_strlit("slantDashDot");
    reveal_strlit("none");
    assert(key("thin"@) == (4nat, 't', 'n'));
    assert(key("medium"@) == (6nat, 'm', 'm'));
    assert(key("thick"@) == (5nat, 't', 'k'));
    assert(key("dashed"@) == (6nat, 'd', 'd') && "dashed"@[1] == 'a');
    assert(key("dotted"@) == (6nat, 'd', 'd') && "dotted"@[1] == 'o');
    assert(key("double"@) == (6nat, 'd', 'e'));
    assert(key("hair"@) == (4nat, 'h', 'r'));
    assert(key("mediumDashed"@) == (12nat, 'm', 'd'));
    assert(key("dashDot"@) == (7nat, 'd', 't'));
    assert(key("mediumDashDot"@) == (13nat, 'm', 't'));
    assert(key("dashDotDot"@) == (10nat, 'd', 't'));
    assert(key("mediumDashDotDot"@) == (16nat, 'm', 't'));
    assert(key("slantDashDot"@) == (12nat, 's', 't'));
    assert(key("none"@) == (4nat, 'n', 'e'));
}

/// Where the first range at a place stands.
pub proof fn law_first_range_at_a_place(
    merges: Seq<MergeOp<Seq<char>>>,
    row: u32,
    col: u32,
    k: int,
)
    requires
        0 <= k <= merges.len(),
        forall|j: int|
            0 <= j < k ==> !((#[trigger] merges[j]).r1 == row && merges[j].c1 == col),
        k < merges.len() ==> merges[k].r1 == row && merges[k].c1 == col,
    ensures
        merge_at(merges, row, col) == k,
    decreases merges.len(),
{
    if k > 0 {
        assert(!(merges[0].r1 == row && merges[0].c1 == col));
        let rest = merges.skip(1);
        assert forall|j: int| 0 <= j < k - 1 implies !((#[trigger] rest[j]).r1 == row
            && rest[j].c1 == col) by {
            assert(rest[j] == merges[j + 1]);
        }
        law_first_range_at_a_place(rest, row, col, k - 1);
    }
}

/// Where the first range at a place stands, or behind all of them.
proof fn lemma_merge_at(merges: Seq<MergeOp<Seq<char>>>, row: u32, col: u32)
    ensures
        0 <= merge_at(merges, row, col) <= merges.len(),
        merge_at(merges, row, col) < merges.len() ==> {
            let m = merges[merge_at(merges, row, col)];
            m.r1 == row && m.c1 == col
        },
    decreases merges.len(),
{
    if !(merges.len() == 0 || (merges[0].r1 == row && merges[0].c1 == col)) {
        lemma_merge_at(merges.skip(1), row, col);
    }
}

/// A cell that spans others gives its value and its format to the first range that begins at it.
/// Nothing else of any range changes.
pub proof fn law_ranges_take_the_cell_at_their_corner(
    merges: Seq<MergeOp<Seq<char>>>,
    p: Pending<Seq<char>>,
    k: int,
)
    requires
        0 <= k < merges.len(),
    ensures
        ({
            let after = filled_merges(merges, p);
            let here = merges[k].r1 == p.row && merges[k].c1 == p.col;
            let first = forall|j: int|
                0 <= j < k ==> !((#[trigger] merges[j]).r1 == p.row && merges[j].c1 == p.col);
            &&& after.len() == merges.len()
            &&& here && first ==> after[k] == (MergeOp {
                value: p.value,
                fmt: p.fmt,
                ..merges[k]
            })
            &&& !(here && first) ==> after[k] == merges[k]
        }),
{
    lemma_merge_at(merges, p.row, p.col);
    let here = merges[k].r1 == p.row && merges[k].c1 == p.col;
    if here && forall|j: int|
        0 <= j < k ==> !((#[trigger] merges[j]).r1 == p.row && merges[j].c1 == p.col) {
        law_first_range_at_a_place(merges, p.row, p.col, k);
    } else if merge_at(merges, p.row, p.col) == k {
        lemma_before_merge_at(merges, p.row, p.col);
    }
}

/// No range before the first one at a place begins there.
proof fn lemma_before_merge_at(merges: Seq<MergeOp<Seq<char>>>, row: u32, col: u32)
    ensures
        forall|j: int|
            0 <= j < merge_at(merges, row, col) ==> !((#[trigger] merges[j]).r1 == row
                && merges[j].c1 == col),
    decreases merges.len(),
{
    lemma_merge_at(merges, row, col);
    if !(merges.len() == 0 || (merges[0].r1 == row && merges[0].c1 == col)) {
        let rest = merges.skip(1);
        lemma_before_merge_at(rest, row, col);
        assert forall|j: int| 0 <= j < merge_at(merges, row, col) implies !((
        #[trigger] merges[j]).r1 == row && merges[j].c1 == col) by {
            if j > 0 {
                assert(rest[j - 1] == merges[j]);
            }
        }
    }
}

/// Ranges after some cells.
proof fn lemma_merges_back(
    merges: Seq<MergeOp<Seq<char>>>,
    cells: Seq<Cell<Seq<char>>>,
    k: int,
    c: Cell<Seq<char>>,
    readings: Seq<FloatReading<Seq<char>>>,
)
    requires
        0 <= k < merges.len(),
        merges[k].r1 == c.row,
        merges[k].c1 == c.col,
        forall|j: int|
            0 <= j < k ==> !((#[trigger] merges[j]).r1 == c.row && merges[j].c1 == c.col),
        forall|i: int|
            0 <= i < cells.len() && spans(#[trigger] cells[i]) && cells[i].row == c.row
                && cells[i].col == c.col ==> cells[i] == c,
        spans(c),
    ensures
        ({
            let after = merges_back(merges, cells, readings);
            &&& after.len() == merges.len()
            &&& forall|j: int|
                0 <= j < merges.len() ==> (#[trigger] after[j]).r1 == merges[j].r1 && after[j].c1
                    == merges[j].c1
            &&& cells.contains(c) ==> after[k] == (MergeOp {
                value: c.value,
                fmt: some_format_back(c.format, readings),
                ..merges[k]
            })
            &&& !cells.contains(c) ==> after[k] == merges[k]
        }),
    decreases cells.len(),
{
    if cells.len() > 0 {
        let rest = cells.drop_last();
        let last = cells.last();
        assert(cells[cells.len() - 1] == last);
        assert forall|i: int|
            0 <= i < rest.len() && spans(#[trigger] rest[i]) && rest[i].row == c.row && rest[i].col
                == c.col implies rest[i] == c by {
            assert(rest[i] == cells[i]);
        }
        lemma_merges_back(merges, rest, k, c, readings);
        let before = merges_back(merges, rest, readings);
        let after = merges_back(merges, cells, readings);
        assert(cells =~= rest.push(last));
        assert(cells.contains(c) <==> rest.contains(c) || last == c) by {
            if cells.contains(c) {
                let i = choose|i: int| 0 <= i < cells.len() && cells[i] == c;
                if i < rest.len() {
                    assert(rest[i] == c);
                }
            }
            if rest.contains(c) {
                let i = choose|i: int| 0 <= i < rest.len() && rest[i] == c;
                assert(cells[i] == c);
            }
        }
        if spans(last) {
            let p = cell_pending(last, readings);
            assert forall|j: int| 0 <= j < k implies !((#[trigger] before[j]).r1 == c.row
                && before[j].c1 == c.col) by {
                assert(!(merges[j].r1 == c.row && merges[j].c1 == c.col));
            }
            assert forall|j: int| 0 <= j < merges.len() implies (#[trigger] after[j]).r1
                == merges[j].r1 && after[j].c1 == merges[j].c1 by {
                law_ranges_take_the_cell_at_their_corner(before, p, j);
                assert(before[j].r1 == merges[j].r1);
            }
            law_ranges_take_the_cell_at_their_corner(before, p, k);
            assert(before[k].r1 == merges[k].r1 && before[k].c1 == merges[k].c1);
        }
    }
}

/// Two sequences of which one is in another order hold the same.
proof fn lemma_same_members(a: Seq<Cell<Seq<char>>>, b: Seq<Cell<Seq<char>>>, c: Cell<Seq<char>>)
    requires
        a.to_multiset() == b.to_multiset(),
    ensures
        a.contains(c) <==> b.contains(c),
{
    vstd::seq_lib::to_multiset_contains(a, c);
    vstd::seq_lib::to_multiset_contains(b, c);
}

/// A merged range of a document whose corners are different cells is merged again, with exactly
/// those corners and with the value and the format of the cell at its first corner, whatever
/// that value is.
#[verifier::rlimit(30)]
pub proof fn law_merges_of_documents_are_merged(
    s: SheetView,
    k: int,
    c: Cell<Seq<char>>,
    readings: Seq<FloatReading<Seq<char>>>,
)
    requires
        0 <= k < s.merges.len(),
        s.merges[k].start_row == c.row,
        s.merges[k].start_col == c.col,
        forall|j: int|
            0 <= j < k ==> !((#[trigger] s.merges[j]).start_row == c.row && s.merges[j].start_col
                == c.col),
        s.cells.contains(c),
        spans(c),
        forall|i: int|
            0 <= i < s.cells.len() && spans(#[trigger] s.cells[i]) && s.cells[i].row == c.row
                && s.cells[i].col == c.col ==> s.cells[i] == c,
        1 <= s.merges[k].start_row,
        1 <= s.merges[k].end_row,
        1 <= s.merges[k].start_col <= 0x1_0000,
        1 <= s.merges[k].end_col <= 0x1_0000,
        s.merges[k].start_row != s.merges[k].end_row || s.merges[k].start_col
            != s.merges[k].end_col,
    ensures
        ({
            let m = s.merges[k];
            let all = sheet_actions(sheet_back(s, readings), readings);
            all.contains(
                Action::<Seq<char>, Seq<u8>>::Merge(
                    (m.start_row - 1) as u32,
                    (m.start_col - 1) as u16,
                    (m.end_row - 1) as u32,
                    (m.end_col - 1) as u16,
                    c.value,
                    some_format_plan(some_format_back(c.format, readings)),
                ),
            )
        }),
{
    let back = Seq::new(s.merges.len(), |i: int| merge_back(s.merges[i]));
    let cells = ordered(s.cells);
    law_ordered_permutes(s.cells);
    lemma_same_members(s.cells, cells, c);
    assert forall|i: int|
        0 <= i < cells.len() && spans(#[trigger] cells[i]) && cells[i].row == c.row && cells[i].col
            == c.col implies cells[i] == c by {
        assert(cells.contains(cells[i]));
        lemma_same_members(s.cells, cells, cells[i]);
        let j = choose|j: int| 0 <= j < s.cells.len() && s.cells[j] == cells[i];
        assert(s.cells[j] == cells[i]);
    }
    assert forall|j: int| 0 <= j < k implies !((#[trigger] back[j]).r1 == c.row && back[j].c1
        == c.col) by {
        assert(!(s.merges[j].start_row == c.row && s.merges[j].start_col == c.col));
    }
    lemma_merges_back(back, cells, k, c, readings);
    let ops = sheet_back(s, readings);
    assert(ops.merges == merges_back(back, cells, readings));
    assert(ops.merges[k] == (MergeOp {
        value: c.value,
        fmt: some_format_back(c.format, readings),
        ..back[k]
    }));
    law_merged_ranges_are_merged(ops, k, readings);
    let all = sheet_actions(ops, readings);
    let at = all.len() - ops.image_ops.len() - ops.merges.len() + k;
    assert(has_two_corners(ops.merges[k]));
    assert(all.contains(all[at]));
}

} // verus!
