//! What the elements of a worksheet say.

use vstd::prelude::*;

use crate::cellref::{cell_name, law_cell_name_reads_back};
use crate::floats::{reading_of, FloatReading};
use crate::pieces::{
    all_pieces, all_text, element, is_piece, is_text, lemma_shown_push, piece_events, pieces_events,
    shown_text, text_in, Piece,
};
use crate::styles::StylesView;
use crate::text::{decimal, law_decimal_reads_back, parsed, trimmed};
use crate::worksheet::{
    cell_step, cell_value, end_step, ended_cell, kept, plain_type, read_state, read_step, run_step,
    style_format, tag_step, ReadState, SheetSection,
};
use crate::xml::{EventView, TagView};

verus! {

/// What tells short names apart: length, first and last character.
spec fn key(s: Seq<char>) -> (nat, char, char) {
    (s.len(), s[0], s.last())
}

/// The names of a worksheet differ.
proof fn lemma_keys()
    ensures
        key("dimension"@) == (9nat, 'd', 'n'),
        key("cols"@) == (4nat, 'c', 's'),
        key("sheetData"@) == (9nat, 's', 'a'),
        key("mergeCells"@) == (10nat, 'm', 's'),
        key("col"@) == (3nat, 'c', 'l'),
        key("row"@) == (3nat, 'r', 'w'),
        key("c"@) == (1nat, 'c', 'c'),
        key("v"@) == (1nat, 'v', 'v'),
        key("t"@) == (1nat, 't', 't'),
        key("rPh"@) == (3nat, 'r', 'h'),
        key("mergeCell"@) == (9nat, 'm', 'l'),
        key("drawing"@) == (7nat, 'd', 'g'),
{
    reveal_strlit("dimension");
    reveal_strlit("cols");
    reveal_strlit("sheetData");
    reveal_strlit("mergeCells");
    reveal_strlit("col");
    reveal_strlit("row");
    reveal_strlit("c");
    reveal_strlit("v");
    reveal_strlit("t");
    reveal_strlit("rPh");
    reveal_strlit("mergeCell");
    reveal_strlit("drawing");
}

/// Whether an element of this name says something in a worksheet.
pub open spec fn says_something_in_sheets(name: Seq<char>) -> bool {
    ||| name == "dimension"@
    ||| name == "cols"@
    ||| name == "sheetData"@
    ||| name == "mergeCells"@
    ||| name == "col"@
    ||| name == "row"@
    ||| name == "c"@
    ||| name == "v"@
    ||| name == "t"@
    ||| name == "rPh"@
    ||| name == "mergeCell"@
    ||| name == "drawing"@
}

/// Elements of other names say nothing, wherever they stand, and text says nothing outside of
/// `v` and `t` elements.
pub proof fn law_other_elements_say_nothing(
    s: ReadState,
    e: EventView,
    shared: Seq<Seq<char>>,
    styles: StylesView,
    readings: Seq<FloatReading<Seq<char>>>,
)
    requires
        match element(e) {
            Some(n) => !says_something_in_sheets(n),
            None => !s.in_v && !s.in_t,
        },
    ensures
        read_step(s, e, shared, styles, readings) == s,
{
    reveal(tag_step);
    reveal(end_step);
}

/// One event more.
proof fn lemma_push(
    events: Seq<EventView>,
    e: EventView,
    name: Seq<char>,
    shared: Seq<Seq<char>>,
    styles: StylesView,
    readings: Seq<FloatReading<Seq<char>>>,
)
    ensures
        read_state(events.push(e), name, shared, styles, readings) == read_step(
            read_state(events, name, shared, styles, readings),
            e,
            shared,
            styles,
            readings,
        ),
{
    assert(events.push(e).drop_last() =~= events);
}

/// The names that cannot stand inside a cell.
pub open spec fn outside_cells(name: Seq<char>) -> bool {
    ||| name == "dimension"@
    ||| name == "cols"@
    ||| name == "sheetData"@
    ||| name == "mergeCells"@
    ||| name == "row"@
    ||| name == "c"@
    ||| name == "drawing"@
}

/// Whether an event can stand inside a cell without beginning a `t` element: any element but
/// those, and any text.
pub open spec fn may_precede(e: EventView) -> bool {
    &&& element(e) matches Some(n) ==> !outside_cells(n)
    &&& !(e is Start && element(e) == Some("t"@))
}

/// Whether an event can stand inside a cell without giving it a value.
pub open spec fn may_follow(e: EventView) -> bool {
    element(e) matches Some(n) ==> !outside_cells(n) && n != "v"@ && n != "t"@
}

/// What does not change inside a cell.
spec fn same_cell(a: ReadState, b: ReadState) -> bool {
    &&& a.sheet == b.sheet
    &&& a.section == b.section
    &&& a.row == b.row
    &&& a.col == b.col
    &&& a.style == b.style
    &&& a.cell_type == b.cell_type
    &&& a.drawing == b.drawing
}

/// One event inside a cell.
proof fn lemma_inside_step(
    s: ReadState,
    e: EventView,
    shared: Seq<Seq<char>>,
    styles: StylesView,
    readings: Seq<FloatReading<Seq<char>>>,
)
    requires
        s.section == SheetSection::SheetData,
        !s.in_t,
        may_precede(e),
    ensures
        same_cell(read_step(s, e, shared, styles, readings), s),
        !read_step(s, e, shared, styles, readings).in_t,
        may_follow(e) && !s.in_v ==> ({
            let after = read_step(s, e, shared, styles, readings);
            after.value == s.value && after.valued == s.valued && !after.in_v
        }),
{
    reveal(tag_step);
    reveal(end_step);
    lemma_keys();
}

/// Events inside a cell.
proof fn lemma_inside(
    first: Seq<EventView>,
    inside: Seq<EventView>,
    name: Seq<char>,
    shared: Seq<Seq<char>>,
    styles: StylesView,
    readings: Seq<FloatReading<Seq<char>>>,
)
    requires
        read_state(first, name, shared, styles, readings).section == SheetSection::SheetData,
        !read_state(first, name, shared, styles, readings).in_t,
        forall|i: int| 0 <= i < inside.len() ==> may_precede(#[trigger] inside[i]),
    ensures
        ({
            let s = read_state(first, name, shared, styles, readings);
            let after = read_state(first + inside, name, shared, styles, readings);
            &&& same_cell(after, s)
            &&& !after.in_t
            &&& !s.in_v && (forall|i: int| 0 <= i < inside.len() ==> may_follow(
                #[trigger] inside[i],
            )) ==> after.value == s.value && after.valued == s.valued && !after.in_v
        }),
    decreases inside.len(),
{
    if inside.len() == 0 {
        assert(first + inside =~= first);
    } else {
        let rest = inside.drop_last();
        let e = inside.last();
        assert(inside[inside.len() - 1] == e);
        assert forall|i: int| 0 <= i < rest.len() implies may_precede(#[trigger] rest[i]) by {
            assert(rest[i] == inside[i]);
        }
        lemma_inside(first, rest, name, shared, styles, readings);
        let s = read_state(first, name, shared, styles, readings);
        let mid = read_state(first + rest, name, shared, styles, readings);
        lemma_inside_step(mid, e, shared, styles, readings);
        assert(first + inside =~= (first + rest).push(e));
        lemma_push(first + rest, e, name, shared, styles, readings);
        if !s.in_v && (forall|i: int| 0 <= i < inside.len() ==> may_follow(#[trigger] inside[i])) {
            assert forall|i: int| 0 <= i < rest.len() implies may_follow(#[trigger] rest[i]) by {
                assert(rest[i] == inside[i]);
            }
        }
    }
}

/// Text inside a `v` or a `t` element.
proof fn lemma_content(
    first: Seq<EventView>,
    content: Seq<EventView>,
    name: Seq<char>,
    shared: Seq<Seq<char>>,
    styles: StylesView,
    readings: Seq<FloatReading<Seq<char>>>,
)
    requires
        read_state(first, name, shared, styles, readings).in_v || read_state(
            first,
            name,
            shared,
            styles,
            readings,
        ).in_t,
        all_text(content),
    ensures
        ({
            let s = read_state(first, name, shared, styles, readings);
            read_state(first + content, name, shared, styles, readings) == (ReadState {
                value: s.value + text_in(content),
                ..s
            })
        }),
    decreases content.len(),
{
    let s = read_state(first, name, shared, styles, readings);
    if content.len() == 0 {
        assert(first + content =~= first);
        assert(s.value + text_in(content) =~= s.value);
    } else {
        let rest = content.drop_last();
        assert(is_text(content[content.len() - 1]));
        assert forall|i: int| 0 <= i < rest.len() implies is_text(#[trigger] rest[i]) by {
            assert(rest[i] == content[i]);
        }
        lemma_content(first, rest, name, shared, styles, readings);
        assert(first + content =~= (first + rest).push(content.last()));
        lemma_push(first + rest, content.last(), name, shared, styles, readings);
        if let EventView::Text(Some(x)) = content.last() {
            assert(s.value + text_in(rest) + x =~= s.value + (text_in(rest) + x));
        }
    }
}

/// Whether a value is what a cell of a type means by its text: a shared string by its number (the
/// first where it is none, the text itself where there is no such string), a truth value by `1`,
/// inline text as it stands, and anything else without white space around it.
pub open spec fn means(
    value: Seq<char>,
    kind: Option<Seq<char>>,
    text: Seq<char>,
    shared: Seq<Seq<char>>,
) -> bool {
    &&& kind == Some("s"@) ==> forall|n: nat|
        n < shared.len() && n <= usize::MAX && trimmed(text) == #[trigger] decimal(n) ==> value
            == shared[n as int]
    &&& kind == Some("s"@) ==> forall|n: nat|
        n >= shared.len() && n <= usize::MAX && trimmed(text) == #[trigger] decimal(n) ==> value
            == text
    &&& kind == Some("s"@) && parsed(trimmed(text), usize::MAX as nat) is None ==> value == (
    if shared.len() > 0 {
        shared[0]
    } else {
        text
    })
    &&& kind == Some("b"@) && trimmed(text) == "1"@ ==> value == "TRUE"@
    &&& kind == Some("b"@) && trimmed(text) != "1"@ ==> value == "FALSE"@
    &&& kind == Some("inlineStr"@) ==> value == text
    &&& kind != Some("s"@) && kind != Some("b"@) && kind != Some("inlineStr"@) ==> value
        == trimmed(text)
}

/// Whether a type in the handover document is that of a cell: text, truth value or number.
pub open spec fn type_of(cell_type: Seq<char>, kind: Option<Seq<char>>) -> bool {
    if kind == Some("s"@) || kind == Some("inlineStr"@) || kind == Some("str"@) || kind == Some(
        "e"@,
    ) {
        cell_type == "s"@
    } else if kind == Some("b"@) {
        cell_type == "b"@
    } else {
        cell_type == "n"@
    }
}

/// The types differ.
proof fn lemma_types()
    ensures
        key("s"@) == (1nat, 's', 's'),
        key("b"@) == (1nat, 'b', 'b'),
        key("n"@) == (1nat, 'n', 'n'),
        key("e"@) == (1nat, 'e', 'e'),
        key("str"@) == (3nat, 's', 'r'),
        key("inlineStr"@) == (9nat, 'i', 'r'),
{
    reveal_strlit("s");
    reveal_strlit("b");
    reveal_strlit("n");
    reveal_strlit("e");
    reveal_strlit("str");
    reveal_strlit("inlineStr");
}

/// What the value of a cell comes to.
proof fn lemma_means(kind: Option<Seq<char>>, text: Seq<char>, shared: Seq<Seq<char>>)
    ensures
        ({
            let t = match kind {
                Some(k) => k,
                None => "n"@,
            };
            &&& means(cell_value(t, text, shared), kind, text, shared)
            &&& type_of(plain_type(t), kind)
        }),
{
    lemma_types();
    let t = match kind {
        Some(k) => k,
        None => "n"@,
    };
    let value = cell_value(t, text, shared);
    if kind == Some("s"@) {
        assert forall|n: nat|
            n < shared.len() && n <= usize::MAX && trimmed(text) == #[trigger] decimal(
                n,
            ) implies value == shared[n as int] by {
            law_decimal_reads_back(n, usize::MAX as nat);
        }
        assert forall|n: nat|
            n >= shared.len() && n <= usize::MAX && trimmed(text) == #[trigger] decimal(
                n,
            ) implies value == text by {
            law_decimal_reads_back(n, usize::MAX as nat);
        }
    }
}

/// The events of a cell with a value: anything before its last `v` element that begins no `t`
/// element, and behind it anything that gives no value.
pub open spec fn cell_events(
    c: TagView,
    inside: Seq<EventView>,
    v: TagView,
    content: Seq<EventView>,
    after: Seq<EventView>,
) -> Seq<EventView> {
    seq![EventView::Start(c)] + inside + seq![EventView::Start(v)] + content + seq![
        EventView::End(v.name),
    ] + after + seq![EventView::End(c.name)]
}

/// A cell is read at the row and the column of its reference, with the value that the text of
/// its last `v` element means for its type, and with the format of its style. Whatever else
/// stands in the cell, such as the source of a formula, changes nothing. It is added behind the
/// cells before it, unless it says nothing.
pub proof fn law_last_v_gives_the_value(
    events: Seq<EventView>,
    c: TagView,
    inside: Seq<EventView>,
    v: TagView,
    content: Seq<EventView>,
    after: Seq<EventView>,
    row: u32,
    col: u32,
    name: Seq<char>,
    shared: Seq<Seq<char>>,
    styles: StylesView,
    readings: Seq<FloatReading<Seq<char>>>,
)
    requires
        read_state(events, name, shared, styles, readings).section == SheetSection::SheetData,
        read_state(events, name, shared, styles, readings).sheet.merges.len() == 0,
        c.name == "c"@,
        v.name == "v"@,
        c.attribute("r"@) == Some(cell_name(row as nat, col as nat)),
        forall|i: int| 0 <= i < inside.len() ==> may_precede(#[trigger] inside[i]),
        all_text(content),
        forall|i: int| 0 <= i < after.len() ==> may_follow(#[trigger] after[i]),
    ensures
        ({
            let before = read_state(events, name, shared, styles, readings).sheet.cells;
            let cells = read_state(
                events + cell_events(c, inside, v, content, after),
                name,
                shared,
                styles,
                readings,
            ).sheet.cells;
            let kind = c.attribute("t"@);
            let style = c.number("s"@, usize::MAX as nat);
            let cell = cells.last();
            ||| cells == before && style_format(styles, styled(style)) is None && means(
                Seq::empty(),
                kind,
                text_in(content),
                shared,
            )
            ||| {
                &&& cells == before.push(cell)
                &&& cell.row == row
                &&& cell.col == col
                &&& means(cell.value, kind, text_in(content), shared)
                &&& type_of(cell.cell_type, kind)
                &&& cell.rowspan == 1
                &&& cell.colspan == 1
                &&& cell.format == style_format(styles, styled(style))
            }
        }),
{
    lemma_keys();
    law_cell_name_reads_back(row, col);
    let s0 = read_state(events, name, shared, styles, readings);
    let e1 = events.push(EventView::Start(c));
    lemma_push(events, EventView::Start(c), name, shared, styles, readings);
    lemma_named_tags(s0, c, shared, styles, readings);
    let s1 = read_state(e1, name, shared, styles, readings);
    lemma_inside(e1, inside, name, shared, styles, readings);
    let e2 = e1 + inside;
    let s2 = read_state(e2, name, shared, styles, readings);
    let e3 = e2.push(EventView::Start(v));
    lemma_push(e2, EventView::Start(v), name, shared, styles, readings);
    lemma_named_tags(s2, v, shared, styles, readings);
    let s3 = read_state(e3, name, shared, styles, readings);
    lemma_content(e3, content, name, shared, styles, readings);
    let e4 = e3 + content;
    let s4 = read_state(e4, name, shared, styles, readings);
    assert(s4.value =~= text_in(content));
    let e5 = e4.push(EventView::End(v.name));
    lemma_push(e4, EventView::End(v.name), name, shared, styles, readings);
    lemma_named_ends(s4, v.name, shared, styles);
    assert forall|i: int| 0 <= i < after.len() implies may_precede(#[trigger] after[i]) by {
        assert(may_follow(after[i]));
    }
    lemma_inside(e5, after, name, shared, styles, readings);
    let e6 = e5 + after;
    let s6 = read_state(e6, name, shared, styles, readings);
    lemma_push(e6, EventView::End(c.name), name, shared, styles, readings);
    lemma_named_ends(s6, c.name, shared, styles);
    assert(events + cell_events(c, inside, v, content, after) =~= e6.push(
        EventView::End(c.name),
    ));
    lemma_means(c.attribute("t"@), text_in(content), shared);
    let cell = ended_cell(s6, shared, styles);
    assert(cell.value.len() == 0 ==> cell.value =~= Seq::<char>::empty());
}

/// The style that a number stands for.
pub open spec fn styled(n: Option<nat>) -> Option<usize> {
    match n {
        Some(n) => Some(n as usize),
        None => None,
    }
}

/// What the tags of cells and values do in the cells of a sheet.
proof fn lemma_named_tags(
    s: ReadState,
    t: TagView,
    shared: Seq<Seq<char>>,
    styles: StylesView,
    readings: Seq<FloatReading<Seq<char>>>,
)
    requires
        s.section == SheetSection::SheetData,
    ensures
        t.name == "c"@ ==> tag_step(s, t, readings) == cell_step(s, t),
        t.name == "v"@ ==> tag_step(s, t, readings) == (ReadState {
            in_v: true,
            runs: false,
            valued: true,
            value: Seq::empty(),
            ..s
        }),
        t.name == "t"@ ==> tag_step(s, t, readings) == run_step(s),
        t.name == "rPh"@ ==> tag_step(s, t, readings) == (ReadState { phonetic: true, ..s }),
{
    reveal(tag_step);
    lemma_keys();
}

/// What the end tags of cells and values do.
proof fn lemma_named_ends(
    s: ReadState,
    name: Seq<char>,
    shared: Seq<Seq<char>>,
    styles: StylesView,
)
    ensures
        name == "v"@ ==> end_step(s, name, shared, styles) == (ReadState { in_v: false, ..s }),
        name == "t"@ ==> end_step(s, name, shared, styles) == (ReadState { in_t: false, ..s }),
        name == "rPh"@ ==> end_step(s, name, shared, styles) == (ReadState {
            phonetic: false,
            ..s
        }),
        name == "c"@ && s.section == SheetSection::SheetData ==> ({
            let c = ended_cell(s, shared, styles);
            let after = end_step(s, name, shared, styles);
            if kept(s, c) {
                after.sheet.cells == s.sheet.cells.push(c)
            } else {
                after.sheet.cells == s.sheet.cells
            }
        }),
{
    reveal(end_step);
    lemma_keys();
}

/// The names that no piece of inline text may have.
pub open spec fn reserved_in_cells() -> Set<Seq<char>> {
    Set::new(|n: Seq<char>| outside_cells(n) || n == "v"@)
}

/// What a cell is while its inline text is being read.
spec fn gathering(s: ReadState, begun: ReadState, text: Seq<char>) -> bool {
    &&& same_cell(s, begun)
    &&& !s.in_t && !s.in_v && !s.phonetic
    &&& s.valued == s.runs
    &&& s.value == text
    &&& !s.runs ==> text.len() == 0
}

/// What stands inside an `rPh` element adds nothing.
proof fn lemma_aloud(
    first: Seq<EventView>,
    content: Seq<EventView>,
    name: Seq<char>,
    shared: Seq<Seq<char>>,
    styles: StylesView,
    readings: Seq<FloatReading<Seq<char>>>,
)
    requires
        ({
            let s = read_state(first, name, shared, styles, readings);
            s.section == SheetSection::SheetData && s.phonetic && !s.in_t && !s.in_v
        }),
        forall|i: int|
            0 <= i < content.len() ==> (element(#[trigger] content[i]) matches Some(n) ==> n
                != "rPh"@ && !outside_cells(n) && n != "v"@),
    ensures
        read_state(first + content, name, shared, styles, readings) == read_state(
            first,
            name,
            shared,
            styles,
            readings,
        ),
    decreases content.len(),
{
    if content.len() == 0 {
        assert(first + content =~= first);
    } else {
        let rest = content.drop_last();
        let e = content.last();
        assert(content[content.len() - 1] == e);
        assert forall|i: int| 0 <= i < rest.len() implies (element(
            #[trigger] rest[i],
        ) matches Some(n) ==> n != "rPh"@ && !outside_cells(n) && n != "v"@) by {
            assert(rest[i] == content[i]);
        }
        lemma_aloud(first, rest, name, shared, styles, readings);
        assert(first + content =~= (first + rest).push(e));
        lemma_push(first + rest, e, name, shared, styles, readings);
        let s = read_state(first, name, shared, styles, readings);
        reveal(tag_step);
        reveal(end_step);
        lemma_keys();
    }
}

/// What stands aside of inline text adds nothing.
proof fn lemma_aside(
    s: ReadState,
    e: EventView,
    shared: Seq<Seq<char>>,
    styles: StylesView,
    readings: Seq<FloatReading<Seq<char>>>,
)
    requires
        s.section == SheetSection::SheetData,
        !s.in_v,
        !s.in_t,
        element(e) matches Some(n) ==> !outside_cells(n) && n != "v"@ && n != "t"@ && n != "rPh"@,
    ensures
        read_step(s, e, shared, styles, readings) == s,
{
    reveal(tag_step);
    reveal(end_step);
    lemma_keys();
}

/// What a piece of inline text adds.
proof fn lemma_piece(
    first: Seq<EventView>,
    begun: ReadState,
    text: Seq<char>,
    p: Piece,
    name: Seq<char>,
    shared: Seq<Seq<char>>,
    styles: StylesView,
    readings: Seq<FloatReading<Seq<char>>>,
)
    requires
        begun.section == SheetSection::SheetData,
        gathering(read_state(first, name, shared, styles, readings), begun, text),
        is_piece(p, reserved_in_cells()),
    ensures
        gathering(
            read_state(first + piece_events(p), name, shared, styles, readings),
            begun,
            text + shown_text(seq![p]),
        ),
{
    let s = read_state(first, name, shared, styles, readings);
    assert(seq![p].drop_last() =~= Seq::<Piece>::empty());
    assert(shown_text(Seq::<Piece>::empty()) =~= Seq::<char>::empty());
    assert(text + Seq::<char>::empty() =~= text);
    match p {
        Piece::Shown(t, content) => {
            let e1 = first.push(EventView::Start(t));
            lemma_push(first, EventView::Start(t), name, shared, styles, readings);
            lemma_named_tags(s, t, shared, styles, readings);
            lemma_content(e1, content, name, shared, styles, readings);
            let e2 = e1 + content;
            let s2 = read_state(e2, name, shared, styles, readings);
            lemma_push(e2, EventView::End(t.name), name, shared, styles, readings);
            lemma_named_ends(s2, t.name, shared, styles);
            assert(first + piece_events(p) =~= e2.push(EventView::End(t.name)));
            assert(shown_text(seq![p]) =~= text_in(content));
            assert(run_step(s).value =~= text);
        },
        Piece::Aloud(r, content) => {
            let e1 = first.push(EventView::Start(r));
            lemma_push(first, EventView::Start(r), name, shared, styles, readings);
            lemma_named_tags(s, r, shared, styles, readings);
            assert forall|i: int| 0 <= i < content.len() implies (element(
                #[trigger] content[i],
            ) matches Some(n) ==> n != "rPh"@ && !outside_cells(n) && n != "v"@) by {
                if let Some(n) = element(content[i]) {
                    assert(!reserved_in_cells().contains(n));
                }
            }
            lemma_aloud(e1, content, name, shared, styles, readings);
            let e2 = e1 + content;
            let s2 = read_state(e2, name, shared, styles, readings);
            lemma_push(e2, EventView::End(r.name), name, shared, styles, readings);
            lemma_named_ends(s2, r.name, shared, styles);
            assert(first + piece_events(p) =~= e2.push(EventView::End(r.name)));
        },
        Piece::Aside(e) => {
            lemma_push(first, e, name, shared, styles, readings);
            assert(first + piece_events(p) =~= first.push(e));
            if let Some(n) = element(e) {
                assert(!reserved_in_cells().contains(n));
            }
            lemma_aside(s, e, shared, styles, readings);
        },
    }
}

/// What pieces of inline text add.
proof fn lemma_pieces(
    first: Seq<EventView>,
    begun: ReadState,
    pieces: Seq<Piece>,
    name: Seq<char>,
    shared: Seq<Seq<char>>,
    styles: StylesView,
    readings: Seq<FloatReading<Seq<char>>>,
)
    requires
        begun.section == SheetSection::SheetData,
        gathering(read_state(first, name, shared, styles, readings), begun, Seq::empty()),
        all_pieces(pieces, reserved_in_cells()),
    ensures
        gathering(
            read_state(first + pieces_events(pieces), name, shared, styles, readings),
            begun,
            shown_text(pieces),
        ),
    decreases pieces.len(),
{
    if pieces.len() == 0 {
        assert(first + pieces_events(pieces) =~= first);
        assert(shown_text(pieces) =~= Seq::<char>::empty());
    } else {
        let rest = pieces.drop_last();
        let p = pieces.last();
        assert(pieces[pieces.len() - 1] == p);
        assert forall|i: int| 0 <= i < rest.len() implies is_piece(
            #[trigger] rest[i],
            reserved_in_cells(),
        ) by {
            assert(rest[i] == pieces[i]);
        }
        lemma_pieces(first, begun, rest, name, shared, styles, readings);
        lemma_piece(
            first + pieces_events(rest),
            begun,
            shown_text(rest),
            p,
            name,
            shared,
            styles,
            readings,
        );
        lemma_shown_push(rest, p);
        assert(pieces =~= rest.push(p));
        assert(first + pieces_events(pieces) =~= first + pieces_events(rest) + piece_events(p));
    }
}

/// A cell of inline text is read at the row and the column of its reference, with what its `t`
/// elements hold, joined in their order, whatever else stands between and around them. What
/// only says how it is read aloud is left out.
pub proof fn law_inline_text_is_what_it_shows(
    events: Seq<EventView>,
    c: TagView,
    pieces: Seq<Piece>,
    row: u32,
    col: u32,
    name: Seq<char>,
    shared: Seq<Seq<char>>,
    styles: StylesView,
    readings: Seq<FloatReading<Seq<char>>>,
)
    requires
        read_state(events, name, shared, styles, readings).section == SheetSection::SheetData,
        read_state(events, name, shared, styles, readings).sheet.merges.len() == 0,
        c.name == "c"@,
        c.attribute("r"@) == Some(cell_name(row as nat, col as nat)),
        c.attribute("t"@) == Some("inlineStr"@),
        all_pieces(pieces, reserved_in_cells()),
        shown_text(pieces).len() > 0,
    ensures
        ({
            let before = read_state(events, name, shared, styles, readings).sheet.cells;
            let cells = read_state(
                events.push(EventView::Start(c)) + pieces_events(pieces) + seq![
                    EventView::End("c"@),
                ],
                name,
                shared,
                styles,
                readings,
            ).sheet.cells;
            let cell = cells.last();
            &&& cells == before.push(cell)
            &&& cell.row == row
            &&& cell.col == col
            &&& cell.value == shown_text(pieces)
            &&& cell.cell_type == "s"@
            &&& cell.format == style_format(styles, styled(c.number("s"@, usize::MAX as nat)))
        }),
{
    lemma_keys();
    lemma_types();
    law_cell_name_reads_back(row, col);
    let s0 = read_state(events, name, shared, styles, readings);
    let e1 = events.push(EventView::Start(c));
    lemma_push(events, EventView::Start(c), name, shared, styles, readings);
    lemma_named_tags(s0, c, shared, styles, readings);
    let s1 = read_state(e1, name, shared, styles, readings);
    lemma_pieces(e1, s1, pieces, name, shared, styles, readings);
    let e2 = e1 + pieces_events(pieces);
    let s2 = read_state(e2, name, shared, styles, readings);
    lemma_push(e2, EventView::End("c"@), name, shared, styles, readings);
    lemma_named_ends(s2, "c"@, shared, styles);
    assert(e2 + seq![EventView::End("c"@)] =~= e2.push(EventView::End("c"@)));
    lemma_means(c.attribute("t"@), shown_text(pieces), shared);
}

/// At the beginning a worksheet has its name and nothing else. The sections of a worksheet
/// begin and end with their elements.
pub proof fn law_sections(
    s: ReadState,
    t: TagView,
    name: Seq<char>,
    shared: Seq<Seq<char>>,
    styles: StylesView,
    readings: Seq<FloatReading<Seq<char>>>,
)
    ensures
        ({
            let start = read_state(Seq::empty(), name, shared, styles, readings);
            &&& start.section == SheetSection::Outside
            &&& start.sheet.name == name
            &&& start.sheet.cells.len() == 0
            &&& start.sheet.merges.len() == 0
            &&& start.sheet.col_widths.len() == 0
            &&& start.sheet.row_heights.len() == 0
            &&& start.sheet.images.len() == 0
            &&& start.sheet.max_row == 0
            &&& start.sheet.max_col == 0
            &&& !start.drawing
        }),
        t.name == "cols"@ ==> read_step(s, EventView::Start(t), shared, styles, readings) == (
        ReadState { section: SheetSection::Cols, ..s }),
        t.name == "sheetData"@ ==> read_step(s, EventView::Start(t), shared, styles, readings) == (
        ReadState { section: SheetSection::SheetData, ..s }),
        t.name == "mergeCells"@ ==> read_step(s, EventView::Start(t), shared, styles, readings)
            == (ReadState { section: SheetSection::MergeCells, ..s }),
        t.name == "cols"@ || t.name == "sheetData"@ || t.name == "mergeCells"@ ==> read_step(
            s,
            EventView::End(t.name),
            shared,
            styles,
            readings,
        ) == (ReadState { section: SheetSection::Outside, ..s }),
{
    reveal(tag_step);
    reveal(end_step);
    lemma_keys();
}

/// The text of a cell begins anew with each `v` element, and with the first `t` element behind
/// one: what stood before is given up. The texts of `t` elements that follow one another are
/// joined, and one that only says how a text is read aloud changes nothing.
pub proof fn law_texts_of_cells_begin_anew(
    s: ReadState,
    t: TagView,
    shared: Seq<Seq<char>>,
    styles: StylesView,
    readings: Seq<FloatReading<Seq<char>>>,
)
    requires
        s.section == SheetSection::SheetData,
    ensures
        ({
            let after = read_step(s, EventView::Start(t), shared, styles, readings);
            &&& t.name == "v"@ ==> after == (ReadState {
                in_v: true,
                runs: false,
                valued: true,
                value: Seq::empty(),
                ..s
            })
            &&& t.name == "t"@ && s.phonetic ==> after == s
            &&& t.name == "t"@ && !s.phonetic ==> {
                &&& after == (ReadState {
                    in_t: true,
                    runs: true,
                    valued: true,
                    value: after.value,
                    ..s
                })
                &&& s.runs ==> after.value == s.value
                &&& !s.runs ==> after.value.len() == 0
            }
            &&& t.name == "rPh"@ ==> after == (ReadState { phonetic: true, ..s })
        }),
{
    reveal(tag_step);
    lemma_keys();
}

/// Text belongs to a cell only inside its `v` and `t` elements: there it is added to what was
/// read of it, elsewhere it says nothing.
pub proof fn law_text_belongs_to_values(
    s: ReadState,
    text: Seq<char>,
    shared: Seq<Seq<char>>,
    styles: StylesView,
    readings: Seq<FloatReading<Seq<char>>>,
)
    ensures
        s.in_v || s.in_t ==> read_step(s, EventView::Text(Some(text)), shared, styles, readings)
            == (ReadState { value: s.value + text, ..s }),
        !s.in_v && !s.in_t ==> read_step(s, EventView::Text(Some(text)), shared, styles, readings)
            == s,
        read_step(s, EventView::Text(None), shared, styles, readings) == s,
        read_step(s, EventView::Other, shared, styles, readings) == s,
{
}

/// A `col` tag gives each column from its first to its last the width that the table reads and
/// whether it is hidden, one behind the other; columns that were described before stay. Without a
/// first column it begins at 1, without a last one it is one column, and where the last one comes
/// before the first it is none.
pub proof fn law_columns_are_described_one_by_one(
    s: ReadState,
    t: TagView,
    min: nat,
    max: nat,
    shared: Seq<Seq<char>>,
    styles: StylesView,
    readings: Seq<FloatReading<Seq<char>>>,
)
    requires
        s.section == SheetSection::Cols,
        t.name == "col"@,
        t.attribute("min"@) == Some(decimal(min)) || t.attribute("min"@) is None && min == 1,
        t.attribute("max"@) == Some(decimal(max)) || t.attribute("max"@) is None && max == min,
        min <= u32::MAX,
        max <= u32::MAX,
    ensures
        ({
            let before = s.sheet.col_widths;
            let after = read_step(s, EventView::Empty(t), shared, styles, readings);
            let cols = after.sheet.col_widths;
            &&& after == read_step(s, EventView::Start(t), shared, styles, readings)
            &&& before.is_prefix_of(cols)
            &&& min <= max ==> cols.len() == before.len() + max - min + 1
            &&& min > max ==> cols == before
            &&& forall|n: nat|
                min <= n <= max ==> {
                    let c = #[trigger] cols[before.len() + n - min];
                    &&& c.index == n
                    &&& c.hidden == (t.attribute("hidden"@) == Some("1"@))
                    &&& t.attribute("width"@) matches Some(w) ==> match reading_of(readings, w) {
                        Some(f) => c.width == f.number.shown,
                        None => c.width == "8.43"@,
                    }
                    &&& t.attribute("width"@) is None ==> c.width == "8.43"@
                }
            &&& after.sheet.cells == s.sheet.cells
            &&& after.sheet.row_heights == s.sheet.row_heights
            &&& after.sheet.merges == s.sheet.merges
            &&& after.section == s.section
        }),
{
    reveal(tag_step);
    reveal(end_step);
    lemma_keys();
    law_decimal_reads_back(min, u32::MAX as nat);
    law_decimal_reads_back(max, u32::MAX as nat);
    assert(s.sheet.col_widths =~= read_step(
        s,
        EventView::Empty(t),
        shared,
        styles,
        readings,
    ).sheet.col_widths.take(s.sheet.col_widths.len() as int));
}

/// A `row` tag in the data of a sheet sets the row of the cells that follow, and gives it a
/// height where it is hidden or has a height of its own: the one that the table reads if it is
/// greater than zero, else 15.
pub proof fn law_rows_have_their_heights(
    s: ReadState,
    t: TagView,
    row: nat,
    shared: Seq<Seq<char>>,
    styles: StylesView,
    readings: Seq<FloatReading<Seq<char>>>,
)
    requires
        s.section == SheetSection::SheetData,
        t.name == "row"@,
        t.attribute("r"@) == Some(decimal(row)),
        row <= u32::MAX,
    ensures
        ({
            let before = s.sheet.row_heights;
            let after = read_step(s, EventView::Start(t), shared, styles, readings);
            let heights = after.sheet.row_heights;
            let hidden = t.attribute("hidden"@) == Some("1"@);
            let own = t.attribute("customHeight"@) == Some("1"@);
            let tall = t.attribute("ht"@) matches Some(h) && reading_of(readings, h) matches Some(
                f,
            ) && f.number.positive;
            &&& after == read_step(s, EventView::Empty(t), shared, styles, readings)
            &&& after.row == row
            &&& after.sheet.cells == s.sheet.cells
            &&& after.sheet.col_widths == s.sheet.col_widths
            &&& after.sheet.merges == s.sheet.merges
            &&& !hidden && !(own && tall) ==> heights == before
            &&& hidden || (own && tall) ==> {
                let h = heights.last();
                &&& heights == before.push(h)
                &&& h.index == row
                &&& h.hidden == hidden
                &&& tall ==> h.height == reading_of(readings, t.attribute("ht"@)->0)->0.number.shown
                &&& !tall ==> h.height == "15"@
                &&& after.sheet.max_row >= row
            }
        }),
{
    reveal(tag_step);
    reveal(end_step);
    lemma_keys();
    law_decimal_reads_back(row, u32::MAX as nat);
}

} // verus!
