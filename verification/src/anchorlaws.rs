//! Where the images of a drawing stand, and which bytes they have.

use vstd::prelude::*;

use crate::archive::{base64_text, part_named};
use crate::drawing::{
    drawing_end, drawing_rels_name, drawing_state, drawing_tag, drawing_text, images_of,
    images_of_first, is_drawing, media_path, DrawingState,
};
use crate::floats::{reading_of, FloatReading};
use crate::pieces::element;
use crate::text::{
    after_last, begins_with, decimal, law_decimal_reads_back, lower_text, parsed, trimmed,
    without_leading,
};
use crate::workbook::{rel_target, rels_part};
use crate::xml::{xml_events, EventView, TagView};

verus! {

/// What tells short names apart: length, first and last character.
spec fn key(s: Seq<char>) -> (nat, char, char) {
    (s.len(), s[0], s.last())
}

/// The names of a drawing differ.
proof fn lemma_keys()
    ensures
        key("twoCellAnchor"@) == (13nat, 't', 'r'),
        key("oneCellAnchor"@) == (13nat, 'o', 'r'),
        key("absoluteAnchor"@) == (14nat, 'a', 'r'),
        key("from"@) == (4nat, 'f', 'm'),
        key("to"@) == (2nat, 't', 'o'),
        key("col"@) == (3nat, 'c', 'l'),
        key("row"@) == (3nat, 'r', 'w'),
        key("blip"@) == (4nat, 'b', 'p'),
        key("ext"@) == (3nat, 'e', 't'),
        key("pic"@) == (3nat, 'p', 'c'),
        key("sp"@) == (2nat, 's', 'p'),
        key("colOff"@) == (6nat, 'c', 'f'),
        key("rowOff"@) == (6nat, 'r', 'f'),
{
    reveal_strlit("twoCellAnchor");
    reveal_strlit("oneCellAnchor");
    reveal_strlit("absoluteAnchor");
    reveal_strlit("from");
    reveal_strlit("to");
    reveal_strlit("col");
    reveal_strlit("row");
    reveal_strlit("blip");
    reveal_strlit("ext");
    reveal_strlit("pic");
    reveal_strlit("sp");
    reveal_strlit("colOff");
    reveal_strlit("rowOff");
}

/// The names that say something in a drawing.
pub open spec fn says_something_in_drawings(name: Seq<char>) -> bool {
    ||| name == "twoCellAnchor"@
    ||| name == "oneCellAnchor"@
    ||| name == "absoluteAnchor"@
    ||| name == "from"@
    ||| name == "to"@
    ||| name == "col"@
    ||| name == "row"@
    ||| name == "blip"@
    ||| name == "ext"@
    ||| name == "pic"@
    ||| name == "sp"@
}

/// Whether events are texts and elements of names that say nothing, such as the offsets inside a
/// cell.
pub open spec fn beside_the_point(events: Seq<EventView>) -> bool {
    forall|i: int|
        0 <= i < events.len() ==> (element(#[trigger] events[i]) matches Some(n)
            ==> !says_something_in_drawings(n))
}

/// The offsets inside a cell say nothing.
pub proof fn law_offsets_say_nothing(t: TagView, texts: Seq<EventView>)
    requires
        t.name == "colOff"@ || t.name == "rowOff"@,
        beside_the_point(texts),
    ensures
        beside_the_point(seq![EventView::Start(t)] + texts + seq![EventView::End(t.name)]),
{
    lemma_keys();
    let all = seq![EventView::Start(t)] + texts + seq![EventView::End(t.name)];
    assert forall|i: int| 0 <= i < all.len() implies (element(#[trigger] all[i]) matches Some(
        n,
    ) ==> !says_something_in_drawings(n)) by {
        if 0 < i < all.len() - 1 {
            assert(all[i] == texts[i - 1]);
        }
    }
}

/// One event more.
proof fn lemma_push(
    events: Seq<EventView>,
    e: EventView,
    rels: Seq<(Seq<char>, Seq<char>)>,
    parts: Seq<(Seq<char>, Seq<u8>)>,
    readings: Seq<FloatReading<Seq<char>>>,
)
    ensures
        ({
            let s = drawing_state(events, rels, parts, readings);
            drawing_state(events.push(e), rels, parts, readings) == match e {
                EventView::Start(t) => drawing_tag(s, t, rels, parts, readings),
                EventView::Empty(t) => drawing_tag(s, t, rels, parts, readings),
                EventView::Text(t) => drawing_text(s, t),
                EventView::End(n) => drawing_end(s, n, rels, parts),
                EventView::Other => s,
            }
        }),
{
    assert(events.push(e).drop_last() =~= events);
}

/// Elements of names that say nothing, and texts outside of `col` and `row`, change nothing of
/// what is known of the images.
pub proof fn law_what_is_beside_the_point_changes_nothing(
    events: Seq<EventView>,
    more: Seq<EventView>,
    rels: Seq<(Seq<char>, Seq<char>)>,
    parts: Seq<(Seq<char>, Seq<u8>)>,
    readings: Seq<FloatReading<Seq<char>>>,
)
    requires
        !drawing_state(events, rels, parts, readings).in_col,
        !drawing_state(events, rels, parts, readings).in_row,
        beside_the_point(more),
    ensures
        ({
            let s = drawing_state(events, rels, parts, readings);
            let after = drawing_state(events + more, rels, parts, readings);
            after == (DrawingState { text: after.text, ..s })
        }),
    decreases more.len(),
{
    if more.len() == 0 {
        assert(events + more =~= events);
    } else {
        let rest = more.drop_last();
        let e = more.last();
        assert(more[more.len() - 1] == e);
        assert forall|i: int| 0 <= i < rest.len() implies (element(#[trigger] rest[i]) matches Some(
            n,
        ) ==> !says_something_in_drawings(n)) by {
            assert(rest[i] == more[i]);
        }
        law_what_is_beside_the_point_changes_nothing(events, rest, rels, parts, readings);
        assert(events + more =~= (events + rest).push(e));
        lemma_push(events + rest, e, rels, parts, readings);
    }
}

/// An element `name` that holds one text.
pub open spec fn holding(name: TagView, text: Seq<char>) -> Seq<EventView> {
    seq![EventView::Start(name), EventView::Text(Some(text)), EventView::End(name.name)]
}

/// A corner of an anchor: its column and its row, with whatever else is beside the point.
pub open spec fn corner(
    tag: TagView,
    col: TagView,
    row: TagView,
    c: Seq<char>,
    r: Seq<char>,
    a: Seq<EventView>,
    b: Seq<EventView>,
    d: Seq<EventView>,
) -> Seq<EventView> {
    seq![EventView::Start(tag)] + a + holding(col, c) + b + holding(row, r) + d + seq![
        EventView::End(tag.name),
    ]
}

/// An element with a number inside a corner.
proof fn lemma_holding(
    events: Seq<EventView>,
    tag: TagView,
    text: Seq<char>,
    n: nat,
    rels: Seq<(Seq<char>, Seq<char>)>,
    parts: Seq<(Seq<char>, Seq<u8>)>,
    readings: Seq<FloatReading<Seq<char>>>,
)
    requires
        !drawing_state(events, rels, parts, readings).in_col,
        !drawing_state(events, rels, parts, readings).in_row,
        tag.name == "col"@ || tag.name == "row"@,
        trimmed(text) == decimal(n),
        n <= u32::MAX,
    ensures
        ({
            let s = drawing_state(events, rels, parts, readings);
            let after = drawing_state(events + holding(tag, text), rels, parts, readings);
            if tag.name == "col"@ {
                if s.in_from {
                    after == (DrawingState { text: after.text, from_col: n as u32, ..s })
                } else if s.in_to {
                    after == (DrawingState { text: after.text, to_col: Some(n as u32), ..s })
                } else {
                    after == (DrawingState { text: after.text, ..s })
                }
            } else {
                if s.in_from {
                    after == (DrawingState { text: after.text, from_row: n as u32, ..s })
                } else if s.in_to {
                    after == (DrawingState { text: after.text, to_row: Some(n as u32), ..s })
                } else {
                    after == (DrawingState { text: after.text, ..s })
                }
            }
        }),
{
    lemma_keys();
    law_decimal_reads_back(n, u32::MAX as nat);
    let e1 = events.push(EventView::Start(tag));
    let e2 = e1.push(EventView::Text(Some(text)));
    lemma_push(events, EventView::Start(tag), rels, parts, readings);
    lemma_push(e1, EventView::Text(Some(text)), rels, parts, readings);
    lemma_push(e2, EventView::End(tag.name), rels, parts, readings);
    assert(events + holding(tag, text) =~= e2.push(EventView::End(tag.name)));
}

/// Inside `from`, the text of `col` is the column and that of `row` the row of the upper left
/// corner; inside `to`, they are those of the lower right one. Neither changes the other corner
/// or anything else, and no other element or text inside says anything.
#[verifier::rlimit(40)]
pub proof fn law_corners_have_their_columns_and_rows(
    events: Seq<EventView>,
    tag: TagView,
    col: TagView,
    row: TagView,
    c: Seq<char>,
    r: Seq<char>,
    n: nat,
    m: nat,
    a: Seq<EventView>,
    b: Seq<EventView>,
    d: Seq<EventView>,
    rels: Seq<(Seq<char>, Seq<char>)>,
    parts: Seq<(Seq<char>, Seq<u8>)>,
    readings: Seq<FloatReading<Seq<char>>>,
)
    requires
        !drawing_state(events, rels, parts, readings).in_col,
        !drawing_state(events, rels, parts, readings).in_row,
        tag.name == "from"@ || tag.name == "to"@,
        col.name == "col"@,
        row.name == "row"@,
        trimmed(c) == decimal(n),
        trimmed(r) == decimal(m),
        n <= u32::MAX,
        m <= u32::MAX,
        beside_the_point(a),
        beside_the_point(b),
        beside_the_point(d),
    ensures
        ({
            let s = drawing_state(events, rels, parts, readings);
            let after = drawing_state(
                events + corner(tag, col, row, c, r, a, b, d),
                rels,
                parts,
                readings,
            );
            if tag.name == "from"@ {
                after == (DrawingState {
                    from_col: n as u32,
                    from_row: m as u32,
                    in_from: false,
                    in_to: false,
                    text: after.text,
                    ..s
                })
            } else {
                after == (DrawingState {
                    to_col: Some(n as u32),
                    to_row: Some(m as u32),
                    in_from: false,
                    in_to: false,
                    text: after.text,
                    ..s
                })
            }
        }),
{
    lemma_keys();
    let e0 = events.push(EventView::Start(tag));
    lemma_push(events, EventView::Start(tag), rels, parts, readings);
    let e1 = e0 + a;
    law_what_is_beside_the_point_changes_nothing(e0, a, rels, parts, readings);
    let e2 = e1 + holding(col, c);
    lemma_holding(e1, col, c, n, rels, parts, readings);
    let e3 = e2 + b;
    law_what_is_beside_the_point_changes_nothing(e2, b, rels, parts, readings);
    let e4 = e3 + holding(row, r);
    lemma_holding(e3, row, r, m, rels, parts, readings);
    let e5 = e4 + d;
    law_what_is_beside_the_point_changes_nothing(e4, d, rels, parts, readings);
    lemma_push(e5, EventView::End(tag.name), rels, parts, readings);
    assert(events + corner(tag, col, row, c, r, a, b, d) =~= e5.push(EventView::End(tag.name)));
}

/// Text inside `col` and `row` is a number: the one that it writes, without white space around
/// it, and 0 where it writes none. It belongs to `from` inside of that, and to `to` inside of
/// that only; elsewhere it changes no corner.
pub proof fn law_texts_of_corners(
    events: Seq<EventView>,
    text: Seq<char>,
    rels: Seq<(Seq<char>, Seq<char>)>,
    parts: Seq<(Seq<char>, Seq<u8>)>,
    readings: Seq<FloatReading<Seq<char>>>,
)
    ensures
        ({
            let s = drawing_state(events, rels, parts, readings);
            let after = drawing_state(
                events.push(EventView::Text(Some(text))),
                rels,
                parts,
                readings,
            );
            let n = match parsed(trimmed(text), u32::MAX as nat) {
                Some(n) => n,
                None => 0,
            };
            &&& s.in_col && s.in_from ==> after.from_col == n
            &&& s.in_row && s.in_from ==> after.from_row == n
            &&& s.in_col && s.in_to && !s.in_from ==> after.to_col == Some(n as u32)
            &&& s.in_row && s.in_to && !s.in_from ==> after.to_row == Some(n as u32)
            &&& !s.in_col || !s.in_from ==> after.from_col == s.from_col
            &&& !s.in_row || !s.in_from ==> after.from_row == s.from_row
            &&& !s.in_col || !s.in_to || s.in_from ==> after.to_col == s.to_col
            &&& !s.in_row || !s.in_to || s.in_from ==> after.to_row == s.to_row
            &&& after == (DrawingState {
                text: after.text,
                from_col: after.from_col,
                from_row: after.from_row,
                to_col: after.to_col,
                to_row: after.to_row,
                ..s
            })
        }),
{
    lemma_push(events, EventView::Text(Some(text)), rels, parts, readings);
}

/// Whether an image is complete at an event: the beginning of an anchor, or the end of a picture
/// or a shape.
pub open spec fn ends_an_image(e: EventView) -> bool {
    match e {
        EventView::Start(t) => t.name == "twoCellAnchor"@ || t.name == "oneCellAnchor"@ || t.name
            == "absoluteAnchor"@,
        EventView::End(n) => n == "pic"@ || n == "sp"@,
        _ => false,
    }
}

/// When an image is complete, it is added behind the images before it if its relationship leads
/// to a part of the workbook; if it does not, nothing is added. It has the bytes of that part,
/// stands one further down and to the right than its anchor counts, and is of the kind that the
/// name of the part ends with. Then nothing is known of the next image.
pub proof fn law_images_are_complete_one_by_one(
    events: Seq<EventView>,
    e: EventView,
    rels: Seq<(Seq<char>, Seq<char>)>,
    parts: Seq<(Seq<char>, Seq<u8>)>,
    readings: Seq<FloatReading<Seq<char>>>,
)
    requires
        ends_an_image(e),
    ensures
        ({
            let s = drawing_state(events, rels, parts, readings);
            let after = drawing_state(events.push(e), rels, parts, readings);
            &&& after == (DrawingState {
                images: after.images,
                text: s.text,
                in_col: s.in_col,
                in_row: s.in_row,
                ..drawing_state(Seq::empty(), rels, parts, readings)
            })
            &&& images_of(events, rels, parts, readings) == after.images
            &&& s.embed is None ==> after.images == s.images
            &&& s.embed is Some && rel_target(rels, s.embed->0) is None ==> after.images
                == s.images
            &&& s.embed is Some && rel_target(rels, s.embed->0) is Some ==> {
                let path = media_path(rel_target(rels, s.embed->0)->0);
                match part_named(parts, path) {
                    None => after.images == s.images,
                    Some(data) => {
                        let i = after.images.last();
                        &&& after.images == s.images.push(i)
                        &&& i.data_b64 == base64_text(data)
                        &&& i.fmt == lower_text(after_last(path, '.'))
                        &&& s.from_row < u32::MAX ==> i.row == s.from_row + 1
                        &&& s.from_col < u32::MAX ==> i.col == s.from_col + 1
                        &&& s.to_row is None ==> i.to_row is None
                        &&& s.to_col is None ==> i.to_col is None
                        &&& forall|n: u32|
                            n < u32::MAX && s.to_row == Some(n) ==> i.to_row == Some(
                                (#[trigger] (n + 1)) as u32,
                            )
                        &&& forall|n: u32|
                            n < u32::MAX && s.to_col == Some(n) ==> i.to_col == Some(
                                (#[trigger] (n + 1)) as u32,
                            )
                        &&& i.width == s.width
                        &&& i.height == s.height
                    },
                }
            }
        }),
{
    lemma_keys();
    lemma_push(events, e, rels, parts, readings);
}

/// The tag `blip` names the relationship of the image, and `ext` gives its width and its height
/// in pixels. They change nothing else.
pub proof fn law_pictures_and_sizes(
    events: Seq<EventView>,
    t: TagView,
    rels: Seq<(Seq<char>, Seq<char>)>,
    parts: Seq<(Seq<char>, Seq<u8>)>,
    readings: Seq<FloatReading<Seq<char>>>,
)
    requires
        t.name == "blip"@ || t.name == "ext"@,
    ensures
        ({
            let s = drawing_state(events, rels, parts, readings);
            let after = drawing_state(events.push(EventView::Empty(t)), rels, parts, readings);
            &&& after == drawing_state(events.push(EventView::Start(t)), rels, parts, readings)
            &&& t.name == "blip"@ ==> after == (DrawingState { embed: t.qualified("embed"@), ..s })
            &&& t.name == "ext"@ ==> {
                &&& after == (DrawingState { width: after.width, height: after.height, ..s })
                &&& t.attribute("cx"@) is None ==> after.width == s.width
                &&& t.attribute("cy"@) is None ==> after.height == s.height
                &&& t.attribute("cx"@) matches Some(x) ==> match reading_of(readings, x) {
                    Some(r) => after.width == Some(r.pixels),
                    None => after.width is None,
                }
                &&& t.attribute("cy"@) matches Some(x) ==> match reading_of(readings, x) {
                    Some(r) => after.height == Some(r.pixels),
                    None => after.height is None,
                }
            }
        }),
{
    lemma_keys();
    lemma_push(events, EventView::Empty(t), rels, parts, readings);
    lemma_push(events, EventView::Start(t), rels, parts, readings);
}

/// An anchor with its two corners and its picture, with whatever else is beside the point.
pub open spec fn anchor(
    tag: TagView,
    from: Seq<EventView>,
    to: Seq<EventView>,
    blip: TagView,
    a: Seq<EventView>,
    b: Seq<EventView>,
    c: Seq<EventView>,
    d: Seq<EventView>,
) -> Seq<EventView> {
    seq![EventView::Start(tag)] + a + from + b + to + c + seq![EventView::Empty(blip)] + d + seq![
        EventView::End("pic"@),
    ]
}

/// The image of an anchor stands in the column one more than the number in `col`, and in the row
/// one more than the number in `row`, of `from`; it reaches to those of `to`. No other element
/// between them, such as an offset, has a say in it. Its bytes are those of the part that its
/// `blip` leads to.
#[verifier::rlimit(40)]
pub proof fn law_images_stand_where_their_anchor_says(
    events: Seq<EventView>,
    tag: TagView,
    from: TagView,
    to: TagView,
    col: TagView,
    row: TagView,
    texts: Seq<Seq<char>>,
    numbers: Seq<nat>,
    blip: TagView,
    rid: Seq<char>,
    data: Seq<u8>,
    others: Seq<Seq<EventView>>,
    rels: Seq<(Seq<char>, Seq<char>)>,
    parts: Seq<(Seq<char>, Seq<u8>)>,
    readings: Seq<FloatReading<Seq<char>>>,
)
    requires
        !drawing_state(events, rels, parts, readings).in_col,
        !drawing_state(events, rels, parts, readings).in_row,
        tag.name == "twoCellAnchor"@,
        from.name == "from"@,
        to.name == "to"@,
        col.name == "col"@,
        row.name == "row"@,
        blip.name == "blip"@,
        texts.len() == 4,
        numbers.len() == 4,
        forall|i: int| 0 <= i < 4 ==> trimmed(#[trigger] texts[i]) == decimal(numbers[i]),
        forall|i: int| 0 <= i < 4 ==> #[trigger] numbers[i] < u32::MAX,
        others.len() == 10,
        forall|i: int| 0 <= i < 10 ==> beside_the_point(#[trigger] others[i]),
        blip.qualified("embed"@) == Some(rid),
        rel_target(rels, rid) is Some,
        part_named(parts, media_path(rel_target(rels, rid)->0)) == Some(data),
    ensures
        ({
            let upper = corner(
                from,
                col,
                row,
                texts[0],
                texts[1],
                others[0],
                others[1],
                others[2],
            );
            let lower = corner(
                to,
                col,
                row,
                texts[2],
                texts[3],
                others[3],
                others[4],
                others[5],
            );
            let all = events + anchor(
                tag,
                upper,
                lower,
                blip,
                others[6],
                others[7],
                others[8],
                others[9],
            );
            let before = images_of(events, rels, parts, readings);
            let after = drawing_state(all, rels, parts, readings).images;
            let i = after.last();
            &&& after == before.push(i)
            &&& i.col == numbers[0] + 1
            &&& i.row == numbers[1] + 1
            &&& i.to_col == Some((numbers[2] + 1) as u32)
            &&& i.to_row == Some((numbers[3] + 1) as u32)
            &&& i.data_b64 == base64_text(data)
        }),
{
    lemma_keys();
    assert(trimmed(texts[0]) == decimal(numbers[0]) && numbers[0] < u32::MAX);
    assert(trimmed(texts[1]) == decimal(numbers[1]) && numbers[1] < u32::MAX);
    assert(trimmed(texts[2]) == decimal(numbers[2]) && numbers[2] < u32::MAX);
    assert(trimmed(texts[3]) == decimal(numbers[3]) && numbers[3] < u32::MAX);
    let upper = corner(from, col, row, texts[0], texts[1], others[0], others[1], others[2]);
    let lower = corner(to, col, row, texts[2], texts[3], others[3], others[4], others[5]);
    let e0 = events.push(EventView::Start(tag));
    law_images_are_complete_one_by_one(events, EventView::Start(tag), rels, parts, readings);
    let e1 = e0 + others[6];
    law_what_is_beside_the_point_changes_nothing(e0, others[6], rels, parts, readings);
    let e2 = e1 + upper;
    law_corners_have_their_columns_and_rows(
        e1,
        from,
        col,
        row,
        texts[0],
        texts[1],
        numbers[0],
        numbers[1],
        others[0],
        others[1],
        others[2],
        rels,
        parts,
        readings,
    );
    let e3 = e2 + others[7];
    law_what_is_beside_the_point_changes_nothing(e2, others[7], rels, parts, readings);
    let e4 = e3 + lower;
    law_corners_have_their_columns_and_rows(
        e3,
        to,
        col,
        row,
        texts[2],
        texts[3],
        numbers[2],
        numbers[3],
        others[3],
        others[4],
        others[5],
        rels,
        parts,
        readings,
    );
    let e5 = e4 + others[8];
    law_what_is_beside_the_point_changes_nothing(e4, others[8], rels, parts, readings);
    let e6 = e5.push(EventView::Empty(blip));
    law_pictures_and_sizes(e5, blip, rels, parts, readings);
    let e7 = e6 + others[9];
    law_what_is_beside_the_point_changes_nothing(e6, others[9], rels, parts, readings);
    let end = EventView::End("pic"@);
    law_images_are_complete_one_by_one(e7, end, rels, parts, readings);
    let all = events + anchor(
        tag,
        upper,
        lower,
        blip,
        others[6],
        others[7],
        others[8],
        others[9],
    );
    assert(all =~= e7.push(end));
    let s = drawing_state(e7, rels, parts, readings);
    assert(s.to_col == Some(numbers[2] as u32));
    assert(s.to_row == Some(numbers[3] as u32));
    let i = drawing_state(all, rels, parts, readings).images.last();
    assert(i.to_col == Some((numbers[2] as u32 + 1) as u32));
    assert(i.to_row == Some((numbers[3] as u32 + 1) as u32));
}

/// At the beginning of a drawing nothing is known of any image.
pub proof fn law_drawings_begin_empty(
    rels: Seq<(Seq<char>, Seq<char>)>,
    parts: Seq<(Seq<char>, Seq<u8>)>,
    readings: Seq<FloatReading<Seq<char>>>,
)
    ensures
        ({
            let s = drawing_state(Seq::empty(), rels, parts, readings);
            &&& s.images.len() == 0
            &&& s.from_col == 0 && s.from_row == 0
            &&& s.to_col is None && s.to_row is None
            &&& !s.in_from && !s.in_to && !s.in_col && !s.in_row
            &&& s.embed is None && s.width is None && s.height is None
        }),
{
}

/// A path that does not begin with something is left as it is.
proof fn lemma_leads(p: Seq<char>, s: Seq<char>)
    requires
        p.len() > 0,
    ensures
        !begins_with(s, p) ==> without_leading(p + s, p) == s,
{
    assert((p + s).take(p.len() as int) =~= p);
    assert((p + s).skip(p.len() as int) =~= s);
    reveal_with_fuel(without_leading, 2);
}

/// A target that is a path from the root names the part at it; one that leads from the drawings
/// to the media, and a bare name, name the part of that name among the media.
pub proof fn law_media_paths(s: Seq<char>)
    requires
        !begins_with(s, "/"@),
        !begins_with(s, "../media/"@),
    ensures
        media_path("/"@ + s) == s,
        media_path("../media/"@ + s) == "xl/media/"@ + s,
        media_path(s) == "xl/media/"@ + s,
{
    reveal_strlit("/");
    reveal_strlit("../media/");
    lemma_leads("/"@, s);
    lemma_leads("../media/"@, s);
    assert(("/"@ + s).take(1) =~= "/"@);
    let p = "../media/"@ + s;
    assert(p[0] == '.');
    assert(p.take(1)[0] == '.');
    assert("/"@[0] == '/');
}

/// The drawings of a workbook are the parts whose path is `xl/drawings/drawing`, anything, and
/// `.xml`; the relationships of each stand beside it.
pub proof fn law_drawing_parts(name: Seq<char>, s: Seq<char>)
    ensures
        is_drawing("xl/drawings/drawing"@ + s + ".xml"@),
        is_drawing(name) ==> name.len() >= "xl/drawings/drawing"@.len() && name.take(
            "xl/drawings/drawing"@.len() as int,
        ) == "xl/drawings/drawing"@ && name.len() >= 4 && name.skip(name.len() - 4) == ".xml"@,
        drawing_rels_name("xl/drawings/"@ + s) == "xl/drawings/_rels/"@ + s + ".rels"@,
{
    reveal_strlit(".xml");
    let all = "xl/drawings/drawing"@ + s + ".xml"@;
    assert(all.take("xl/drawings/drawing"@.len() as int) =~= "xl/drawings/drawing"@);
    assert(all.skip(all.len() - 4) =~= ".xml"@);
    assert(("xl/drawings/"@ + s).skip("xl/drawings/"@.len() as int) =~= s);
}

/// The images of a workbook are those of its drawings, in the order of the parts.
pub proof fn law_drawings_follow_each_other(
    n: nat,
    parts: Seq<(Seq<char>, Seq<u8>)>,
    readings: Seq<FloatReading<Seq<char>>>,
)
    requires
        n < parts.len(),
    ensures
        images_of_first(0, parts, readings).len() == 0,
        is_drawing(parts[n as int].0) ==> images_of_first(n + 1, parts, readings)
            == images_of_first(n, parts, readings) + images_of(
            xml_events(parts[n as int].1, true),
            rels_part(parts, drawing_rels_name(parts[n as int].0)),
            parts,
            readings,
        ),
        !is_drawing(parts[n as int].0) ==> images_of_first(n + 1, parts, readings)
            == images_of_first(n, parts, readings),
{
}

} // verus!
