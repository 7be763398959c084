//! Which readings of numbers a result depends on: those of the texts that the library asks
//! for, and no others.

use vstd::prelude::*;

use crate::archive::{part_index, part_named};
use crate::convert::{converted_sheets, found_sheets};
use crate::drawing::{drawing_state, images_of_first};
use crate::export::{
    cell_fmt, col_op, export_end, export_run, export_start, export_step, export_tag, pending_cell,
    restored, row_op, sheets_hold_all, with_cell, ExportState, OpsView, Pending,
};
use crate::floats::{number_of, reading_of, FloatReading};
use crate::numbers::{event_texts, is_number_key, item_texts, number_texts, part_texts};
use crate::plan::{cell_action, merge_action, sheet_plan, sheet_plans};
use crate::styles::{style_state, workbook_styles, StylesView};
use crate::workbook::{shared_strings, workbook_sheets};
use crate::worksheet::{col_range, read_state, tag_step, ReadState};
use crate::xml::{find_attribute, xml_events, Attr, EventView, TagView};

verus! {

/// Whether two tables read some texts alike.
pub open spec fn agree(
    a: Seq<FloatReading<Seq<char>>>,
    b: Seq<FloatReading<Seq<char>>>,
    texts: Seq<Seq<char>>,
) -> bool {
    forall|t: Seq<char>| #[trigger] texts.contains(t) ==> reading_of(a, t) == reading_of(b, t)
}

/// Tables that read texts alike read fewer alike.
proof fn lemma_agree_part(
    a: Seq<FloatReading<Seq<char>>>,
    b: Seq<FloatReading<Seq<char>>>,
    x: Seq<Seq<char>>,
    y: Seq<Seq<char>>,
)
    requires
        agree(a, b, x + y),
    ensures
        agree(a, b, x),
        agree(a, b, y),
{
    assert forall|t: Seq<char>| #[trigger] x.contains(t) implies reading_of(a, t) == reading_of(
        b,
        t,
    ) by {
        let i = choose|i: int| 0 <= i < x.len() && x[i] == t;
        assert((x + y)[i] == t);
        assert((x + y).contains(t));
    }
    assert forall|t: Seq<char>| #[trigger] y.contains(t) implies reading_of(a, t) == reading_of(
        b,
        t,
    ) by {
        let i = choose|i: int| 0 <= i < y.len() && y[i] == t;
        assert((x + y)[x.len() + i] == t);
        assert((x + y).contains(t));
    }
}

/// An attribute that is found is one of the tag.
proof fn lemma_found(items: Seq<Option<Attr<Seq<char>>>>, name: Seq<char>)
    ensures
        find_attribute(items, name) matches Some(a) ==> a.key == name && items.contains(Some(a)),
    decreases items.len(),
{
    if items.len() > 0 {
        let rest = items.drop_first();
        lemma_found(rest, name);
        match items[0] {
            Some(a) => {
                if a.key != name {
                    if let Some(f) = find_attribute(rest, name) {
                        let i = choose|i: int| 0 <= i < rest.len() && rest[i] == Some(f);
                        assert(items[i + 1] == Some(f));
                    }
                }
            },
            None => {},
        }
    }
}

/// The value of an attribute that may hold a number is among the texts of its tag.
proof fn lemma_item_text(items: Seq<Option<Attr<Seq<char>>>>, a: Attr<Seq<char>>)
    requires
        items.contains(Some(a)),
        is_number_key(a.key),
        a.value is Some,
    ensures
        item_texts(items).contains(a.value->0),
    decreases items.len(),
{
    let i = choose|i: int| 0 <= i < items.len() && items[i] == Some(a);
    let rest = items.drop_last();
    let before = item_texts(rest);
    if i == items.len() - 1 {
        assert(item_texts(items) == before.push(a.value->0));
        assert(item_texts(items)[before.len() as int] == a.value->0);
    } else {
        assert(rest[i] == Some(a));
        lemma_item_text(rest, a);
        let k = choose|k: int| 0 <= k < before.len() && before[k] == a.value->0;
        assert(item_texts(items)[k] == a.value->0);
    }
}

/// An attribute that may hold a number is read alike.
proof fn lemma_attribute(
    a: Seq<FloatReading<Seq<char>>>,
    b: Seq<FloatReading<Seq<char>>>,
    t: TagView,
    name: Seq<char>,
)
    requires
        agree(a, b, item_texts(t.attributes)),
        is_number_key(name),
    ensures
        number_of(a, t.attribute(name)) == number_of(b, t.attribute(name)),
        t.attribute(name) matches Some(v) ==> reading_of(a, v) == reading_of(b, v)
            && item_texts(t.attributes).contains(v),
{
    lemma_found(t.attributes, name);
    if let Some(v) = t.attribute(name) {
        lemma_item_text(t.attributes, find_attribute(t.attributes, name)->0);
        assert(item_texts(t.attributes).contains(v));
    }
}

/// A style sheet depends only on its own numbers.
proof fn lemma_styles(
    a: Seq<FloatReading<Seq<char>>>,
    b: Seq<FloatReading<Seq<char>>>,
    events: Seq<EventView>,
)
    requires
        agree(a, b, number_texts(events)),
    ensures
        style_state(events, a) == style_state(events, b),
    decreases events.len(),
{
    if events.len() > 0 {
        lemma_agree_part(a, b, number_texts(events.drop_last()), event_texts(events.last()));
        lemma_styles(a, b, events.drop_last());
        match events.last() {
            EventView::Start(t) => {
                lemma_attribute(a, b, t, "val"@);
            },
            EventView::Empty(t) => {
                lemma_attribute(a, b, t, "val"@);
            },
            _ => {},
        }
    }
}

/// A tag of a worksheet says the same with either table.
proof fn lemma_sheet_tag(
    a: Seq<FloatReading<Seq<char>>>,
    b: Seq<FloatReading<Seq<char>>>,
    s: ReadState,
    t: TagView,
)
    requires
        agree(a, b, item_texts(t.attributes)),
    ensures
        tag_step(s, t, a) == tag_step(s, t, b),
{
    reveal(tag_step);
    lemma_attribute(a, b, t, "width"@);
    lemma_attribute(a, b, t, "ht"@);
    assert(col_range(t, a) =~= col_range(t, b));
}

/// A worksheet depends only on its own numbers.
proof fn lemma_worksheet(
    a: Seq<FloatReading<Seq<char>>>,
    b: Seq<FloatReading<Seq<char>>>,
    events: Seq<EventView>,
    name: Seq<char>,
    shared: Seq<Seq<char>>,
    styles: StylesView,
)
    requires
        agree(a, b, number_texts(events)),
    ensures
        read_state(events, name, shared, styles, a) == read_state(events, name, shared, styles, b),
    decreases events.len(),
{
    if events.len() > 0 {
        lemma_agree_part(a, b, number_texts(events.drop_last()), event_texts(events.last()));
        lemma_worksheet(a, b, events.drop_last(), name, shared, styles);
        let before = read_state(events.drop_last(), name, shared, styles, a);
        match events.last() {
            EventView::Start(t) => {
                lemma_sheet_tag(a, b, before, t);
            },
            EventView::Empty(t) => {
                lemma_sheet_tag(a, b, before, t);
            },
            _ => {},
        }
    }
}

/// A drawing depends only on its own numbers.
proof fn lemma_drawing(
    a: Seq<FloatReading<Seq<char>>>,
    b: Seq<FloatReading<Seq<char>>>,
    events: Seq<EventView>,
    rels: Seq<(Seq<char>, Seq<char>)>,
    parts: Seq<(Seq<char>, Seq<u8>)>,
)
    requires
        agree(a, b, number_texts(events)),
    ensures
        drawing_state(events, rels, parts, a) == drawing_state(events, rels, parts, b),
    decreases events.len(),
{
    if events.len() > 0 {
        lemma_agree_part(a, b, number_texts(events.drop_last()), event_texts(events.last()));
        lemma_drawing(a, b, events.drop_last(), rels, parts);
        match events.last() {
            EventView::Start(t) => {
                lemma_attribute(a, b, t, "cx"@);
                lemma_attribute(a, b, t, "cy"@);
            },
            EventView::Empty(t) => {
                lemma_attribute(a, b, t, "cx"@);
                lemma_attribute(a, b, t, "cy"@);
            },
            _ => {},
        }
    }
}

/// The texts of a part are among those of the workbook.
proof fn lemma_part(
    a: Seq<FloatReading<Seq<char>>>,
    b: Seq<FloatReading<Seq<char>>>,
    parts: Seq<(Seq<char>, Seq<u8>)>,
    i: int,
)
    requires
        agree(a, b, part_texts(parts)),
        0 <= i < parts.len(),
    ensures
        agree(a, b, number_texts(xml_events(parts[i].1, false))),
        agree(a, b, number_texts(xml_events(parts[i].1, true))),
    decreases parts.len(),
{
    let before = parts.drop_last();
    let data = parts.last().1;
    lemma_agree_part(
        a,
        b,
        part_texts(before) + number_texts(xml_events(data, false)),
        number_texts(xml_events(data, true)),
    );
    lemma_agree_part(a, b, part_texts(before), number_texts(xml_events(data, false)));
    if i < before.len() {
        lemma_part(a, b, before, i);
    }
}

/// The texts of a part with a name are among those of the workbook.
proof fn lemma_named_part(
    a: Seq<FloatReading<Seq<char>>>,
    b: Seq<FloatReading<Seq<char>>>,
    parts: Seq<(Seq<char>, Seq<u8>)>,
    name: Seq<char>,
)
    requires
        agree(a, b, part_texts(parts)),
    ensures
        part_named(parts, name) matches Some(data) ==> agree(
            a,
            b,
            number_texts(xml_events(data, false)),
        ) && agree(a, b, number_texts(xml_events(data, true))),
{
    let i = part_index(parts, name);
    lemma_index(parts, name);
    if i < parts.len() {
        lemma_part(a, b, parts, i);
    }
}

/// An index is not negative.
proof fn lemma_index(parts: Seq<(Seq<char>, Seq<u8>)>, name: Seq<char>)
    ensures
        part_index(parts, name) >= 0,
    decreases parts.len(),
{
    if parts.len() > 0 {
        lemma_index(parts.skip(1), name);
    }
}

/// The images depend only on the numbers of the workbook.
proof fn lemma_images(
    a: Seq<FloatReading<Seq<char>>>,
    b: Seq<FloatReading<Seq<char>>>,
    n: nat,
    parts: Seq<(Seq<char>, Seq<u8>)>,
)
    requires
        agree(a, b, part_texts(parts)),
        n <= parts.len(),
    ensures
        images_of_first(n, parts, a) == images_of_first(n, parts, b),
    decreases n,
{
    if n > 0 {
        lemma_images(a, b, (n - 1) as nat, parts);
        let (name, data) = parts[n - 1];
        lemma_part(a, b, parts, n - 1);
        lemma_drawing(
            a,
            b,
            xml_events(data, true),
            crate::workbook::rels_part(parts, crate::drawing::drawing_rels_name(name)),
            parts,
        );
    }
}

/// The worksheets among some sheets depend only on the numbers of the workbook.
proof fn lemma_found_sheets(
    a: Seq<FloatReading<Seq<char>>>,
    b: Seq<FloatReading<Seq<char>>>,
    sheets: Seq<(Seq<char>, Seq<char>)>,
    parts: Seq<(Seq<char>, Seq<u8>)>,
    shared: Seq<Seq<char>>,
    styles: StylesView,
)
    requires
        agree(a, b, part_texts(parts)),
    ensures
        found_sheets(sheets, parts, shared, styles, a) == found_sheets(
            sheets,
            parts,
            shared,
            styles,
            b,
        ),
    decreases sheets.len(),
{
    if sheets.len() > 0 {
        lemma_found_sheets(a, b, sheets.drop_last(), parts, shared, styles);
        let (name, path) = sheets.last();
        lemma_named_part(a, b, parts, path);
        if let Some(data) = part_named(parts, path) {
            lemma_worksheet(a, b, xml_events(data, false), name, shared, styles);
            lemma_images(a, b, parts.len(), parts);
        }
    }
}

/// The worksheets of a workbook depend only on how the texts that the library asks for are
/// read.
pub proof fn law_conversion_needs_no_other_readings(
    parts: Seq<(Seq<char>, Seq<u8>)>,
    a: Seq<FloatReading<Seq<char>>>,
    b: Seq<FloatReading<Seq<char>>>,
)
    requires
        agree(a, b, part_texts(parts)),
    ensures
        converted_sheets(parts, a) == converted_sheets(parts, b),
{
    lemma_named_part(a, b, parts, "xl/styles.xml"@);
    if let Some(data) = part_named(parts, "xl/styles.xml"@) {
        lemma_styles(a, b, xml_events(data, true));
    }
    lemma_found_sheets(
        a,
        b,
        workbook_sheets(parts),
        parts,
        shared_strings(parts),
        workbook_styles(parts, a),
    );
}

/// Whether a value is empty or one of some texts.
spec fn known(texts: Seq<Seq<char>>, value: Seq<char>) -> bool {
    value.len() == 0 || texts.contains(value)
}

/// Whether the values of all cells of a sheet are empty or among some texts.
spec fn ops_known(texts: Seq<Seq<char>>, ops: OpsView) -> bool {
    forall|i: int| 0 <= i < ops.cells.len() ==> known(texts, (#[trigger] ops.cells[i]).value)
}

/// Whether the values of all cells that were read are empty or among some texts.
spec fn state_known(texts: Seq<Seq<char>>, s: ExportState) -> bool {
    &&& forall|i: int| 0 <= i < s.sheets.len() ==> ops_known(texts, #[trigger] s.sheets[i])
    &&& s.cur matches Some(ops) ==> ops_known(texts, ops)
    &&& s.pending matches Some(p) ==> known(texts, p.value)
}

/// The texts that are known stay known when there are more.
proof fn lemma_known_more(x: Seq<Seq<char>>, y: Seq<Seq<char>>, s: ExportState)
    requires
        state_known(x, s),
    ensures
        state_known(x + y, s),
{
    assert forall|v: Seq<char>| known(x, v) implies #[trigger] known(x + y, v) by {
        if v.len() > 0 {
            let i = choose|i: int| 0 <= i < x.len() && x[i] == v;
            assert((x + y)[i] == v);
        }
    }
    assert forall|ops: OpsView| ops_known(x, ops) implies #[trigger] ops_known(x + y, ops) by {
        assert forall|i: int| 0 <= i < ops.cells.len() implies known(
            x + y,
            (#[trigger] ops.cells[i]).value,
        ) by {
            assert(known(x, ops.cells[i].value));
        }
    }
}

/// A sheet with one more cell of a known value.
proof fn lemma_known_cell(texts: Seq<Seq<char>>, ops: OpsView, p: Pending<Seq<char>>)
    requires
        ops_known(texts, ops),
        known(texts, p.value),
    ensures
        ops_known(texts, with_cell(ops, p)),
{
    let after = with_cell(ops, p);
    assert forall|i: int| 0 <= i < after.cells.len() implies known(
        texts,
        (#[trigger] after.cells[i]).value,
    ) by {
        if i < ops.cells.len() {
            assert(known(texts, ops.cells[i].value));
        }
    }
}

/// The value of a cell tag is known once its texts are.
proof fn lemma_known_tag(x: Seq<Seq<char>>, t: TagView)
    ensures
        known(x + item_texts(t.attributes), pending_cell(t).value),
{
    let y = item_texts(t.attributes);
    lemma_found(t.attributes, "value"@);
    if let Some(v) = t.attribute("value"@) {
        lemma_item_text(t.attributes, find_attribute(t.attributes, "value"@)->0);
        let i = choose|i: int| 0 <= i < y.len() && y[i] == v;
        assert((x + y)[x.len() + i] == v);
    }
}

/// A tag is read alike, and leaves the values known.
proof fn lemma_tag(
    a: Seq<FloatReading<Seq<char>>>,
    b: Seq<FloatReading<Seq<char>>>,
    x: Seq<Seq<char>>,
    s: ExportState,
    t: TagView,
    empty: bool,
)
    requires
        agree(a, b, item_texts(t.attributes)),
        state_known(x, s),
    ensures
        export_tag(s, t, empty, a) == export_tag(s, t, empty, b),
        state_known(x + item_texts(t.attributes), export_tag(s, t, empty, a)),
{
    let y = x + item_texts(t.attributes);
    lemma_attribute(a, b, t, "width"@);
    lemma_attribute(a, b, t, "height"@);
    lemma_attribute(a, b, t, "fontSize"@);
    assert(col_op(t, a) == col_op(t, b));
    assert(row_op(t, a) == row_op(t, b));
    assert(cell_fmt(t, a) == cell_fmt(t, b));
    lemma_known_more(x, item_texts(t.attributes), s);
    lemma_known_tag(x, t);
    if let Some(ops) = s.cur {
        lemma_known_cell(y, ops, pending_cell(t));
    }
    reveal(export_tag);
    let r = export_tag(s, t, empty, a);
    assert(r == export_tag(s, t, empty, b));
    assert(r.sheets == s.sheets);
}

/// An end tag leaves the values known.
proof fn lemma_end(x: Seq<Seq<char>>, s: ExportState, name: Seq<char>)
    requires
        state_known(x, s),
    ensures
        state_known(x, export_end(s, name)),
{
    reveal(export_end);
    if let Some(ops) = s.cur {
        if let Some(p) = s.pending {
            lemma_known_cell(x, ops, p);
        }
    }
    let r = export_end(s, name);
    assert forall|i: int| 0 <= i < r.sheets.len() implies ops_known(x, #[trigger] r.sheets[i]) by {
        if i < s.sheets.len() {
            assert(ops_known(x, s.sheets[i]));
        }
    }
}

/// What is read of a document depends only on its own numbers, and its values are among its
/// texts.
proof fn lemma_run(
    a: Seq<FloatReading<Seq<char>>>,
    b: Seq<FloatReading<Seq<char>>>,
    events: Seq<EventView>,
)
    requires
        agree(a, b, number_texts(events)),
    ensures
        export_run(export_start(), events, a) == export_run(export_start(), events, b),
        state_known(number_texts(events), export_run(export_start(), events, a)),
    decreases events.len(),
{
    if events.len() > 0 {
        let rest = events.drop_last();
        let e = events.last();
        lemma_agree_part(a, b, number_texts(rest), event_texts(e));
        lemma_run(a, b, rest);
        let s = export_run(export_start(), rest, a);
        lemma_known_more(number_texts(rest), event_texts(e), s);
        reveal(export_step);
        match e {
            EventView::Start(t) => {
                lemma_tag(a, b, number_texts(rest), s, t, false);
            },
            EventView::Empty(t) => {
                lemma_tag(a, b, number_texts(rest), s, t, true);
            },
            EventView::End(n) => {
                lemma_end(number_texts(events), s, n);
            },
            _ => {},
        }
    }
}

/// The plans that restore a document depend only on how the texts that the library asks for
/// are read.
pub proof fn law_export_needs_no_other_readings(
    events: Seq<EventView>,
    a: Seq<FloatReading<Seq<char>>>,
    b: Seq<FloatReading<Seq<char>>>,
)
    requires
        agree(a, b, number_texts(events)),
    ensures
        sheets_hold_all(events, a) == sheets_hold_all(events, b),
        sheet_plans(restored(events, a), a) == sheet_plans(restored(events, b), b),
{
    let texts = number_texts(events);
    lemma_run(a, b, events);
    let sheets = restored(events, a);
    assert forall|k: int| 0 <= k < sheets.len() implies sheet_plan(#[trigger] sheets[k], a)
        == sheet_plan(sheets[k], b) by {
        let ops = sheets[k];
        assert(ops_known(texts, ops));
        assert forall|i: int| 0 <= i < ops.cells.len() implies cell_action(
            #[trigger] ops.cells[i],
            a,
        ) == cell_action(ops.cells[i], b) by {
            assert(known(texts, ops.cells[i].value));
        }
        assert(Seq::new(ops.cells.len(), |i: int| cell_action(ops.cells[i], a)) =~= Seq::new(
            ops.cells.len(),
            |i: int| cell_action(ops.cells[i], b),
        ));
        assert forall|i: int| 0 <= i < ops.merges.len() implies merge_action(
            #[trigger] ops.merges[i],
            a,
        ) == merge_action(ops.merges[i], b) by {
            reveal_strlit("s");
            reveal_strlit("n");
            assert("s"@[0] != "n"@[0]);
        }
        assert(Seq::new(ops.merges.len(), |i: int| merge_action(ops.merges[i], a)) =~= Seq::new(
            ops.merges.len(),
            |i: int| merge_action(ops.merges[i], b),
        ));
    }
    assert(sheet_plans(sheets, a) =~= sheet_plans(sheets, b));
}

} // verus!
