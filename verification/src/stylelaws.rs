//! What a style sheet says of the cells that use it.

use vstd::prelude::*;

use crate::color::resolved_color;
use crate::floats::{reading_of, FloatReading};
use crate::pieces::element;
use crate::styles::{
    border_step, font_step, style_empty, style_state, style_step, style_tag, CellXf, StyleBorder,
    StyleFill, StyleFont, StyleSection, StyleState, StylesView,
};
use crate::text::{decimal, law_decimal_reads_back};
use crate::worksheet::style_format;
use crate::xml::{EventView, TagView};

verus! {

/// What tells short names apart: length, first and last character.
spec fn key(s: Seq<char>) -> (nat, char, char) {
    (s.len(), s[0], s.last())
}

/// The names of a style sheet differ.
proof fn lemma_keys()
    ensures
        key("numFmts"@) == (7nat, 'n', 's'),
        key("fonts"@) == (5nat, 'f', 's'),
        key("fills"@) == (5nat, 'f', 's') && "fills"@[1] == 'i' && "fonts"@[1] == 'o',
        key("borders"@) == (7nat, 'b', 's'),
        key("cellXfs"@) == (7nat, 'c', 's'),
        key("numFmt"@) == (6nat, 'n', 't'),
        key("font"@) == (4nat, 'f', 't'),
        key("fill"@) == (4nat, 'f', 'l'),
        key("border"@) == (6nat, 'b', 'r'),
        key("xf"@) == (2nat, 'x', 'f'),
        key("b"@) == (1nat, 'b', 'b'),
        key("i"@) == (1nat, 'i', 'i'),
        key("u"@) == (1nat, 'u', 'u'),
        key("sz"@) == (2nat, 's', 'z'),
        key("name"@) == (4nat, 'n', 'e'),
        key("color"@) == (5nat, 'c', 'r'),
        key("fgColor"@) == (7nat, 'f', 'r'),
        key("left"@) == (4nat, 'l', 't'),
        key("right"@) == (5nat, 'r', 't'),
        key("top"@) == (3nat, 't', 'p'),
        key("bottom"@) == (6nat, 'b', 'm'),
        key("alignment"@) == (9nat, 'a', 't'),
{
    reveal_strlit("numFmts");
    reveal_strlit("fonts");
    reveal_strlit("fills");
    reveal_strlit("borders");
    reveal_strlit("cellXfs");
    reveal_strlit("numFmt");
    reveal_strlit("font");
    reveal_strlit("fill");
    reveal_strlit("border");
    reveal_strlit("xf");
    reveal_strlit("b");
    reveal_strlit("i");
    reveal_strlit("u");
    reveal_strlit("sz");
    reveal_strlit("name");
    reveal_strlit("color");
    reveal_strlit("fgColor");
    reveal_strlit("left");
    reveal_strlit("right");
    reveal_strlit("top");
    reveal_strlit("bottom");
    reveal_strlit("alignment");
}

/// The last tag of a name among some events.
pub open spec fn last_tag(events: Seq<EventView>, name: Seq<char>) -> Option<TagView>
    decreases events.len(),
{
    if events.len() == 0 {
        None
    } else {
        match events.last() {
            EventView::Start(t) => if t.name == name {
                Some(t)
            } else {
                last_tag(events.drop_last(), name)
            },
            EventView::Empty(t) => if t.name == name {
                Some(t)
            } else {
                last_tag(events.drop_last(), name)
            },
            _ => last_tag(events.drop_last(), name),
        }
    }
}

/// What the last tag of a name that has an attribute says in it.
pub open spec fn last_said(events: Seq<EventView>, name: Seq<char>, attribute: Seq<char>) -> Option<
    Seq<char>,
>
    decreases events.len(),
{
    if events.len() == 0 {
        None
    } else {
        let before = last_said(events.drop_last(), name, attribute);
        match events.last() {
            EventView::Start(t) => if t.name == name && t.attribute(attribute) is Some {
                t.attribute(attribute)
            } else {
                before
            },
            EventView::Empty(t) => if t.name == name && t.attribute(attribute) is Some {
                t.attribute(attribute)
            } else {
                before
            },
            _ => before,
        }
    }
}

/// The colour that the attributes of a tag give.
pub open spec fn color_said(t: TagView) -> Option<Seq<char>> {
    resolved_color(
        t.attribute("rgb"@),
        t.number("theme"@, u32::MAX as nat),
        t.number("indexed"@, u32::MAX as nat),
    )
}

/// The colour that the last tag of a name gives of those that give one.
pub open spec fn last_color(events: Seq<EventView>, name: Seq<char>) -> Option<Seq<char>>
    decreases events.len(),
{
    if events.len() == 0 {
        None
    } else {
        let before = last_color(events.drop_last(), name);
        match events.last() {
            EventView::Start(t) => if t.name == name && color_said(t) is Some {
                color_said(t)
            } else {
                before
            },
            EventView::Empty(t) => if t.name == name && color_said(t) is Some {
                color_said(t)
            } else {
                before
            },
            _ => before,
        }
    }
}

/// Whether a name is one that begins a section of a style sheet, or an entry of one.
pub open spec fn structures(name: Seq<char>) -> bool {
    ||| name == "numFmts"@
    ||| name == "fonts"@
    ||| name == "fills"@
    ||| name == "borders"@
    ||| name == "cellXfs"@
    ||| name == "font"@
    ||| name == "fill"@
    ||| name == "border"@
    ||| name == "xf"@
}

/// Whether events can stand inside an entry: none of them begins or ends another, or a section.
pub open spec fn inside_entry(events: Seq<EventView>) -> bool {
    forall|i: int|
        0 <= i < events.len() ==> (element(#[trigger] events[i]) matches Some(n) ==> !structures(n))
}

/// One event more.
proof fn lemma_push(
    events: Seq<EventView>,
    e: EventView,
    readings: Seq<FloatReading<Seq<char>>>,
)
    ensures
        style_state(events.push(e), readings) == style_step(
            style_state(events, readings),
            e,
            readings,
        ),
{
    assert(events.push(e).drop_last() =~= events);
}

/// The beginning of what stands inside an entry.
proof fn lemma_inside_front(inside: Seq<EventView>)
    requires
        inside_entry(inside),
        inside.len() > 0,
    ensures
        inside_entry(inside.drop_last()),
        element(inside.last()) matches Some(n) ==> !structures(n),
{
    let rest = inside.drop_last();
    assert(inside[inside.len() - 1] == inside.last());
    assert forall|i: int| 0 <= i < rest.len() implies (element(#[trigger] rest[i]) matches Some(
        n,
    ) ==> !structures(n)) by {
        assert(rest[i] == inside[i]);
    }
}

/// Whether a font is what tags say: bold, italic and underlined by the last tag of each, unless
/// that denies it; size, name and colour by the last tag that gives one.
pub open spec fn font_says(
    f: StyleFont<Seq<char>>,
    inside: Seq<EventView>,
    readings: Seq<FloatReading<Seq<char>>>,
) -> bool {
    &&& f.bold == (last_tag(inside, "b"@) matches Some(t) && t.attribute("val"@) != Some("0"@))
    &&& f.italic == (last_tag(inside, "i"@) matches Some(t) && t.attribute("val"@) != Some("0"@))
    &&& f.underline == (last_tag(inside, "u"@) matches Some(t) && t.attribute("val"@) != Some(
        "none"@,
    ))
    &&& f.name == (match last_said(inside, "name"@, "val"@) {
        Some(n) => n,
        None => Seq::empty(),
    })
    &&& f.color == (match last_color(inside, "color"@) {
        Some(c) => c,
        None => Seq::empty(),
    })
    &&& match last_said(inside, "sz"@, "val"@) {
        Some(v) => match reading_of(readings, v) {
            Some(r) => f.size == r.number,
            None => f.size.shown == "11"@ && f.size.positive,
        },
        None => f.size.shown == "11"@ && f.size.positive,
    }
}

/// A font while it is being read.
proof fn lemma_font(
    events: Seq<EventView>,
    inside: Seq<EventView>,
    readings: Seq<FloatReading<Seq<char>>>,
)
    requires
        style_state(events, readings).section == StyleSection::Fonts,
        font_says(style_state(events, readings).font, Seq::empty(), readings),
        inside_entry(inside),
    ensures
        ({
            let s = style_state(events, readings);
            let after = style_state(events + inside, readings);
            &&& after == (StyleState { font: after.font, ..s })
            &&& font_says(after.font, inside, readings)
        }),
    decreases inside.len(),
{
    if inside.len() == 0 {
        assert(events + inside =~= events);
        assert(inside =~= Seq::<EventView>::empty());
    } else {
        lemma_inside_front(inside);
        let rest = inside.drop_last();
        let e = inside.last();
        lemma_font(events, rest, readings);
        assert(events + inside =~= (events + rest).push(e));
        lemma_push(events + rest, e, readings);
        let mid = style_state(events + rest, readings);
        match e {
            EventView::Start(t) => {
                lemma_font_tag(mid, t, readings);
                lemma_font_step(mid.font, rest, e, t, readings);
            },
            EventView::Empty(t) => {
                lemma_font_tag(mid, t, readings);
                lemma_font_step(mid.font, rest, e, t, readings);
            },
            _ => {
                lemma_says_nothing(rest, e);
            },
        }
        assert(inside =~= rest.push(e));
    }
}

/// What one tag more changes of what the last tags say.
proof fn lemma_last(rest: Seq<EventView>, e: EventView, t: TagView)
    requires
        e == EventView::Start(t) || e == EventView::Empty(t),
    ensures
        forall|name: Seq<char>| #[trigger]
            last_tag(rest.push(e), name) == if t.name == name {
                Some(t)
            } else {
                last_tag(rest, name)
            },
        forall|name: Seq<char>, a: Seq<char>| #[trigger]
            last_said(rest.push(e), name, a) == if t.name == name && t.attribute(a) is Some {
                t.attribute(a)
            } else {
                last_said(rest, name, a)
            },
        forall|name: Seq<char>| #[trigger]
            last_color(rest.push(e), name) == if t.name == name && color_said(t) is Some {
                color_said(t)
            } else {
                last_color(rest, name)
            },
{
    assert(rest.push(e).drop_last() =~= rest);
}

/// Texts and ends change nothing of what the last tags say.
proof fn lemma_says_nothing(rest: Seq<EventView>, e: EventView)
    requires
        !(e is Start),
        !(e is Empty),
    ensures
        forall|name: Seq<char>| #[trigger] last_tag(rest.push(e), name) == last_tag(rest, name),
        forall|name: Seq<char>, a: Seq<char>| #[trigger]
            last_said(rest.push(e), name, a) == last_said(rest, name, a),
        forall|name: Seq<char>| #[trigger]
            last_color(rest.push(e), name) == last_color(rest, name),
{
    assert(rest.push(e).drop_last() =~= rest);
}

/// One tag more inside a font.
proof fn lemma_font_step(
    f: StyleFont<Seq<char>>,
    rest: Seq<EventView>,
    e: EventView,
    t: TagView,
    readings: Seq<FloatReading<Seq<char>>>,
)
    requires
        e == EventView::Start(t) || e == EventView::Empty(t),
        font_says(f, rest, readings),
        t.name != "font"@,
    ensures
        font_says(font_step(f, t, readings), rest.push(e), readings),
{
    lemma_keys();
    lemma_last(rest, e, t);
}

/// A tag inside a font.
proof fn lemma_font_tag(s: StyleState, t: TagView, readings: Seq<FloatReading<Seq<char>>>)
    requires
        s.section == StyleSection::Fonts,
        !structures(t.name),
    ensures
        style_tag(s, t, readings) == (StyleState { font: font_step(s.font, t, readings), ..s }),
        style_empty(s, t, readings) == style_tag(s, t, readings),
{
}

/// A font is bold, italic and underlined exactly if the last tag of each kind in it says so, and
/// has the size, the name and the colour that its tags give. It is added behind the fonts before
/// it, and nothing else of the style sheet changes.
pub proof fn law_fonts_are_what_their_tags_say(
    events: Seq<EventView>,
    font: TagView,
    inside: Seq<EventView>,
    readings: Seq<FloatReading<Seq<char>>>,
)
    requires
        style_state(events, readings).section == StyleSection::Fonts,
        font.name == "font"@,
        inside_entry(inside),
    ensures
        ({
            let before = style_state(events, readings);
            let after = style_state(
                events.push(EventView::Start(font)) + inside + seq![EventView::End("font"@)],
                readings,
            );
            let f = after.styles.fonts.last();
            &&& after.section == StyleSection::Fonts
            &&& after.styles.fonts == before.styles.fonts.push(f)
            &&& after.styles == (StylesView { fonts: after.styles.fonts, ..before.styles })
            &&& font_says(f, inside, readings)
        }),
{
    lemma_keys();
    let e1 = events.push(EventView::Start(font));
    lemma_push(events, EventView::Start(font), readings);
    lemma_font(e1, inside, readings);
    let e2 = e1 + inside;
    lemma_push(e2, EventView::End("font"@), readings);
    assert(e2 + seq![EventView::End("font"@)] =~= e2.push(EventView::End("font"@)));
}

/// Whether a fill is what tags say: its background is the colour of the last `fgColor` tag,
/// unless that is black, white or none.
pub open spec fn fill_says(f: StyleFill<Seq<char>>, inside: Seq<EventView>) -> bool {
    match last_tag(inside, "fgColor"@) {
        Some(t) => match color_said(t) {
            Some(c) => if c == "FF000000"@ || c == "00000000"@ || c == "FFFFFFFF"@ {
                f.bg_color is None
            } else {
                f.bg_color == Some(c)
            },
            None => f.bg_color is None,
        },
        None => f.bg_color is None,
    }
}

/// A fill while it is being read.
proof fn lemma_fill(
    events: Seq<EventView>,
    inside: Seq<EventView>,
    readings: Seq<FloatReading<Seq<char>>>,
)
    requires
        style_state(events, readings).section == StyleSection::Fills,
        fill_says(style_state(events, readings).fill, Seq::empty()),
        inside_entry(inside),
    ensures
        ({
            let s = style_state(events, readings);
            let after = style_state(events + inside, readings);
            &&& after == (StyleState { fill: after.fill, ..s })
            &&& fill_says(after.fill, inside)
        }),
    decreases inside.len(),
{
    if inside.len() == 0 {
        assert(events + inside =~= events);
        assert(inside =~= Seq::<EventView>::empty());
    } else {
        lemma_inside_front(inside);
        let rest = inside.drop_last();
        let e = inside.last();
        lemma_fill(events, rest, readings);
        assert(events + inside =~= (events + rest).push(e));
        lemma_push(events + rest, e, readings);
        lemma_keys();
    }
}

/// A fill has the background that its last foreground colour gives. It is added behind the fills
/// before it, and nothing else of the style sheet changes.
pub proof fn law_fills_are_what_their_tags_say(
    events: Seq<EventView>,
    fill: TagView,
    inside: Seq<EventView>,
    readings: Seq<FloatReading<Seq<char>>>,
)
    requires
        style_state(events, readings).section == StyleSection::Fills,
        fill.name == "fill"@,
        inside_entry(inside),
    ensures
        ({
            let before = style_state(events, readings);
            let after = style_state(
                events.push(EventView::Start(fill)) + inside + seq![EventView::End("fill"@)],
                readings,
            );
            let f = after.styles.fills.last();
            &&& after.section == StyleSection::Fills
            &&& after.styles.fills == before.styles.fills.push(f)
            &&& after.styles == (StylesView { fills: after.styles.fills, ..before.styles })
            &&& fill_says(f, inside)
        }),
{
    lemma_keys();
    let e1 = events.push(EventView::Start(fill));
    lemma_push(events, EventView::Start(fill), readings);
    lemma_fill(e1, inside, readings);
    let e2 = e1 + inside;
    lemma_push(e2, EventView::End("fill"@), readings);
    assert(e2 + seq![EventView::End("fill"@)] =~= e2.push(EventView::End("fill"@)));
}

/// A text that is there, or the empty one.
pub open spec fn or_empty(s: Option<Seq<char>>) -> Seq<char> {
    match s {
        Some(s) => s,
        None => Seq::empty(),
    }
}

/// Whether a border is what tags say: each side has the line of the last tag of its own name
/// that gives one.
pub open spec fn border_says(b: StyleBorder<Seq<char>>, inside: Seq<EventView>) -> bool {
    &&& b.left == or_empty(last_said(inside, "left"@, "style"@))
    &&& b.right == or_empty(last_said(inside, "right"@, "style"@))
    &&& b.top == or_empty(last_said(inside, "top"@, "style"@))
    &&& b.bottom == or_empty(last_said(inside, "bottom"@, "style"@))
}

/// A border while it is being read.
proof fn lemma_border(
    events: Seq<EventView>,
    inside: Seq<EventView>,
    readings: Seq<FloatReading<Seq<char>>>,
)
    requires
        style_state(events, readings).section == StyleSection::Borders,
        border_says(style_state(events, readings).border, Seq::empty()),
        inside_entry(inside),
    ensures
        ({
            let s = style_state(events, readings);
            let after = style_state(events + inside, readings);
            &&& after == (StyleState { border: after.border, ..s })
            &&& border_says(after.border, inside)
        }),
    decreases inside.len(),
{
    if inside.len() == 0 {
        assert(events + inside =~= events);
        assert(inside =~= Seq::<EventView>::empty());
    } else {
        lemma_inside_front(inside);
        let rest = inside.drop_last();
        let e = inside.last();
        lemma_border(events, rest, readings);
        assert(events + inside =~= (events + rest).push(e));
        lemma_push(events + rest, e, readings);
        let mid = style_state(events + rest, readings);
        lemma_keys();
        match e {
            EventView::Start(t) => {
                lemma_border_tag(mid, t, readings);
            },
            EventView::Empty(t) => {
                lemma_border_tag(mid, t, readings);
            },
            _ => {},
        }
    }
}

/// A tag inside a border.
proof fn lemma_border_tag(s: StyleState, t: TagView, readings: Seq<FloatReading<Seq<char>>>)
    requires
        s.section == StyleSection::Borders,
        !structures(t.name),
    ensures
        style_tag(s, t, readings) == (StyleState { border: border_step(s.border, t), ..s }),
        style_empty(s, t, readings) == style_tag(s, t, readings),
{
}

/// A border has on each side the line that the tags of that side give. It is added behind the
/// borders before it, and nothing else of the style sheet changes.
pub proof fn law_borders_are_what_their_tags_say(
    events: Seq<EventView>,
    border: TagView,
    inside: Seq<EventView>,
    readings: Seq<FloatReading<Seq<char>>>,
)
    requires
        style_state(events, readings).section == StyleSection::Borders,
        border.name == "border"@,
        inside_entry(inside),
    ensures
        ({
            let before = style_state(events, readings);
            let after = style_state(
                events.push(EventView::Start(border)) + inside + seq![EventView::End("border"@)],
                readings,
            );
            let b = after.styles.borders.last();
            &&& after.section == StyleSection::Borders
            &&& after.styles.borders == before.styles.borders.push(b)
            &&& after.styles == (StylesView { borders: after.styles.borders, ..before.styles })
            &&& border_says(b, inside)
        }),
{
    lemma_keys();
    let e1 = events.push(EventView::Start(border));
    lemma_push(events, EventView::Start(border), readings);
    lemma_border(e1, inside, readings);
    let e2 = e1 + inside;
    lemma_push(e2, EventView::End("border"@), readings);
    assert(e2 + seq![EventView::End("border"@)] =~= e2.push(EventView::End("border"@)));
}

/// Whether a cell format is what its tag and the tags in it say: the numbers of its font, fill,
/// border and number format, and the alignment of the last `alignment` tag.
pub open spec fn xf_says(x: CellXf<Seq<char>>, xf: TagView, inside: Seq<EventView>) -> bool {
    &&& forall|n: nat|
        n <= usize::MAX && xf.attribute("fontId"@) == Some(#[trigger] decimal(n)) ==> x.font_id
            == n
    &&& forall|n: nat|
        n <= usize::MAX && xf.attribute("fillId"@) == Some(#[trigger] decimal(n)) ==> x.fill_id
            == n
    &&& forall|n: nat|
        n <= usize::MAX && xf.attribute("borderId"@) == Some(#[trigger] decimal(n))
            ==> x.border_id == n
    &&& forall|n: nat|
        n <= u32::MAX && xf.attribute("numFmtId"@) == Some(#[trigger] decimal(n))
            ==> x.num_fmt_id == n
    &&& xf.attribute("fontId"@) is None ==> x.font_id == 0
    &&& xf.attribute("fillId"@) is None ==> x.fill_id == 0
    &&& xf.attribute("borderId"@) is None ==> x.border_id == 0
    &&& xf.attribute("numFmtId"@) is None ==> x.num_fmt_id == 0
    &&& aligned(x, inside)
}

/// Whether a cell format is aligned as the last `alignment` tag says.
pub open spec fn aligned(x: CellXf<Seq<char>>, inside: Seq<EventView>) -> bool {
    match last_tag(inside, "alignment"@) {
        Some(t) => {
            &&& x.alignment.horizontal == or_empty(t.attribute("horizontal"@))
            &&& x.alignment.vertical == or_empty(t.attribute("vertical"@))
            &&& x.alignment.wrap_text == (t.attribute("wrapText"@) == Some("1"@) || t.attribute(
                "wrapText"@,
            ) == Some("true"@))
            &&& t.attribute("indent"@) is None ==> x.alignment.indent == 0
            &&& forall|n: nat|
                n <= u32::MAX && t.attribute("indent"@) == Some(#[trigger] decimal(n))
                    ==> x.alignment.indent == n
        },
        None => {
            &&& x.alignment.horizontal.len() == 0
            &&& x.alignment.vertical.len() == 0
            &&& !x.alignment.wrap_text
            &&& x.alignment.indent == 0
        },
    }
}

/// The numbers of a tag.
proof fn lemma_numbers(t: TagView, name: Seq<char>)
    ensures
        forall|n: nat|
            n <= usize::MAX && t.attribute(name) == Some(#[trigger] decimal(n)) ==> t.number(
                name,
                usize::MAX as nat,
            ) == Some(n),
        forall|n: nat|
            n <= u32::MAX && t.attribute(name) == Some(#[trigger] decimal(n)) ==> t.number_or(
                name,
                0,
            ) == n,
{
    assert forall|n: nat|
        n <= usize::MAX && t.attribute(name) == Some(#[trigger] decimal(n)) implies t.number(
        name,
        usize::MAX as nat,
    ) == Some(n) by {
        law_decimal_reads_back(n, usize::MAX as nat);
    }
    assert forall|n: nat|
        n <= u32::MAX && t.attribute(name) == Some(#[trigger] decimal(n)) implies t.number_or(
        name,
        0,
    ) == n by {
        law_decimal_reads_back(n, u32::MAX as nat);
    }
}

/// A cell format while it is being read.
proof fn lemma_xf(
    events: Seq<EventView>,
    xf: TagView,
    inside: Seq<EventView>,
    readings: Seq<FloatReading<Seq<char>>>,
)
    requires
        style_state(events, readings).section == StyleSection::CellXfs,
        xf_says(style_state(events, readings).xf, xf, Seq::empty()),
        inside_entry(inside),
    ensures
        ({
            let s = style_state(events, readings);
            let after = style_state(events + inside, readings);
            &&& after == (StyleState { xf: after.xf, ..s })
            &&& xf_says(after.xf, xf, inside)
        }),
    decreases inside.len(),
{
    if inside.len() == 0 {
        assert(events + inside =~= events);
        assert(inside =~= Seq::<EventView>::empty());
    } else {
        lemma_inside_front(inside);
        let rest = inside.drop_last();
        let e = inside.last();
        lemma_xf(events, xf, rest, readings);
        assert(events + inside =~= (events + rest).push(e));
        lemma_push(events + rest, e, readings);
        lemma_keys();
        match e {
            EventView::Start(t) => {
                lemma_numbers(t, "indent"@);
            },
            EventView::Empty(t) => {
                lemma_numbers(t, "indent"@);
            },
            _ => {},
        }
    }
}

/// A cell format has the font, the fill, the border and the number format whose numbers its tag
/// gives, and the alignment of its last `alignment` tag. It is added behind the cell formats
/// before it, and nothing else of the style sheet changes. One that is written as an empty tag
/// is the same without alignment.
pub proof fn law_cell_formats_are_what_their_tags_say(
    events: Seq<EventView>,
    xf: TagView,
    inside: Seq<EventView>,
    readings: Seq<FloatReading<Seq<char>>>,
)
    requires
        style_state(events, readings).section == StyleSection::CellXfs,
        xf.name == "xf"@,
        inside_entry(inside),
    ensures
        ({
            let before = style_state(events, readings);
            let after = style_state(
                events.push(EventView::Start(xf)) + inside + seq![EventView::End("xf"@)],
                readings,
            );
            let x = after.styles.cell_xfs.last();
            &&& after.section == StyleSection::CellXfs
            &&& after.styles.cell_xfs == before.styles.cell_xfs.push(x)
            &&& after.styles == (StylesView { cell_xfs: after.styles.cell_xfs, ..before.styles })
            &&& xf_says(x, xf, inside)
        }),
        style_state(events.push(EventView::Empty(xf)), readings) == style_state(
            events.push(EventView::Start(xf)).push(EventView::End("xf"@)),
            readings,
        ),
{
    lemma_keys();
    lemma_numbers(xf, "fontId"@);
    lemma_numbers(xf, "fillId"@);
    lemma_numbers(xf, "borderId"@);
    lemma_numbers(xf, "numFmtId"@);
    let e1 = events.push(EventView::Start(xf));
    lemma_push(events, EventView::Start(xf), readings);
    lemma_push(events, EventView::Empty(xf), readings);
    lemma_push(e1, EventView::End("xf"@), readings);
    assert(xf_says(style_state(e1, readings).xf, xf, Seq::empty()));
    lemma_xf(e1, xf, inside, readings);
    let e2 = e1 + inside;
    lemma_push(e2, EventView::End("xf"@), readings);
    assert(e2 + seq![EventView::End("xf"@)] =~= e2.push(EventView::End("xf"@)));
}

/// An empty font, fill or border is one without tags in it.
pub proof fn law_empty_entries_count(
    events: Seq<EventView>,
    t: TagView,
    readings: Seq<FloatReading<Seq<char>>>,
)
    requires
        t.name == "font"@ || t.name == "fill"@ || t.name == "border"@,
    ensures
        style_state(events.push(EventView::Empty(t)), readings) == style_state(
            events.push(EventView::Start(t)).push(EventView::End(t.name)),
            readings,
        ),
{
    lemma_push(events, EventView::Empty(t), readings);
    lemma_push(events, EventView::Start(t), readings);
    lemma_push(events.push(EventView::Start(t)), EventView::End(t.name), readings);
}

/// Entries count only in their own section, and a number format without an id or without a code
/// is none. Texts say nothing.
pub proof fn law_entries_outside_of_their_section(
    s: StyleState,
    t: TagView,
    readings: Seq<FloatReading<Seq<char>>>,
)
    ensures
        t.name == "numFmt"@ && s.section != StyleSection::NumFmts ==> style_step(
            s,
            EventView::Empty(t),
            readings,
        ).styles == s.styles,
        t.name == "numFmt"@ && (t.attribute("numFmtId"@) is None || t.attribute(
            "formatCode"@,
        ) is None) ==> style_step(s, EventView::Empty(t), readings).styles == s.styles,
        t.name == "font"@ && s.section != StyleSection::Fonts || t.name == "fill"@ && s.section
            != StyleSection::Fills || t.name == "border"@ && s.section != StyleSection::Borders
            || t.name == "xf"@ && s.section != StyleSection::CellXfs ==> style_step(
            s,
            EventView::Empty(t),
            readings,
        ).styles == s.styles && style_step(s, EventView::End(t.name), readings) == s,
        style_step(s, EventView::Other, readings) == s,
        forall|text: Option<Seq<char>>| #[trigger]
            style_step(s, EventView::Text(text), readings) == s,
{
    lemma_keys();
}

/// The sections of a style sheet begin and end with their elements; at the beginning nothing is
/// known. Elements of other names say nothing outside of all sections.
pub proof fn law_style_sections(
    s: StyleState,
    t: TagView,
    readings: Seq<FloatReading<Seq<char>>>,
)
    ensures
        ({
            let start = style_state(Seq::empty(), readings);
            &&& start.section == StyleSection::Outside
            &&& start.styles.fonts.len() == 0
            &&& start.styles.fills.len() == 0
            &&& start.styles.borders.len() == 0
            &&& start.styles.cell_xfs.len() == 0
            &&& start.styles.num_fmts.len() == 0
        }),
        t.name == "numFmts"@ ==> style_step(s, EventView::Start(t), readings) == (StyleState {
            section: StyleSection::NumFmts,
            ..s
        }),
        t.name == "fonts"@ ==> style_step(s, EventView::Start(t), readings) == (StyleState {
            section: StyleSection::Fonts,
            ..s
        }),
        t.name == "fills"@ ==> style_step(s, EventView::Start(t), readings) == (StyleState {
            section: StyleSection::Fills,
            ..s
        }),
        t.name == "borders"@ ==> style_step(s, EventView::Start(t), readings) == (StyleState {
            section: StyleSection::Borders,
            ..s
        }),
        t.name == "cellXfs"@ ==> style_step(s, EventView::Start(t), readings) == (StyleState {
            section: StyleSection::CellXfs,
            ..s
        }),
        t.name == "numFmts"@ || t.name == "fonts"@ || t.name == "fills"@ || t.name == "borders"@
            || t.name == "cellXfs"@ ==> style_step(s, EventView::End(t.name), readings) == (
        StyleState { section: StyleSection::Outside, ..s }),
        s.section == StyleSection::Outside && !structures(t.name) ==> style_step(
            s,
            EventView::Start(t),
            readings,
        ) == s && style_step(s, EventView::Empty(t), readings) == s && style_step(
            s,
            EventView::End(t.name),
            readings,
        ) == s,
        s.section == StyleSection::Outside ==> style_step(
            s,
            EventView::Start(t),
            readings,
        ).styles == s.styles && style_step(s, EventView::Empty(t), readings).styles == s.styles
            && style_step(s, EventView::End(t.name), readings).styles == s.styles,
{
    lemma_keys();
}

/// A `numFmt` tag gives a number format an id: the one that was given last counts, and without
/// one the format that Excel has built in.
pub proof fn law_number_formats(
    s: StyleState,
    t: TagView,
    id: nat,
    readings: Seq<FloatReading<Seq<char>>>,
)
    requires
        s.section == StyleSection::NumFmts,
        t.name == "numFmt"@,
        t.attribute("numFmtId"@) == Some(decimal(id)),
        t.attribute("formatCode"@) is Some,
        id <= u32::MAX,
    ensures
        ({
            let after = style_step(s, EventView::Empty(t), readings);
            &&& after == style_step(s, EventView::Start(t), readings)
            &&& after.styles.num_fmt(id as u32) == t.attribute("formatCode"@)->0
            &&& forall|other: u32|
                other != id ==> #[trigger] after.styles.num_fmt(other) == s.styles.num_fmt(other)
            &&& after == (StyleState {
                styles: StylesView { num_fmts: after.styles.num_fmts, ..s.styles },
                ..s
            })
        }),
{
    lemma_keys();
    law_decimal_reads_back(id, u32::MAX as nat);
    let after = style_step(s, EventView::Empty(t), readings);
    assert(after.styles.num_fmts.drop_last() =~= s.styles.num_fmts);
}

/// A cell looks as its style says: its font, its background and its borders are those that the
/// cell format names, with 11 points, Calibri and black for what the font leaves open; its
/// alignment and its number format are those of the cell format. A cell without a style, or with
/// one that is not there, has no format.
pub proof fn law_cells_look_as_their_style_says(styles: StylesView, n: usize)
    ensures
        style_format(styles, None) is None,
        n >= styles.cell_xfs.len() ==> style_format(styles, Some(n)) is None,
        n < styles.cell_xfs.len() ==> ({
            let xf = styles.cell_xfs[n as int];
            let f = style_format(styles, Some(n))->0;
            &&& style_format(styles, Some(n)) is Some
            &&& xf.font_id < styles.fonts.len() ==> {
                let font = styles.fonts[xf.font_id as int];
                &&& f.bold == font.bold
                &&& f.italic == font.italic
                &&& f.underline == font.underline
                &&& font.size.positive ==> f.font_size == font.size.shown
                &&& !font.size.positive ==> f.font_size == "11"@
                &&& font.name.len() > 0 ==> f.font_name == font.name
                &&& font.name.len() == 0 ==> f.font_name == "Calibri"@
                &&& font.color.len() > 0 ==> f.font_color == font.color
                &&& font.color.len() == 0 ==> f.font_color == "FF000000"@
            }
            &&& xf.font_id >= styles.fonts.len() ==> !f.bold && !f.italic && !f.underline
                && f.font_size == "11"@ && f.font_name == "Calibri"@ && f.font_color
                == "FF000000"@
            &&& xf.fill_id < styles.fills.len() ==> f.bg_color
                == styles.fills[xf.fill_id as int].bg_color
            &&& xf.fill_id >= styles.fills.len() ==> f.bg_color is None
            &&& xf.border_id < styles.borders.len() ==> {
                let b = styles.borders[xf.border_id as int];
                f.border_top == b.top && f.border_bottom == b.bottom && f.border_left == b.left
                    && f.border_right == b.right
            }
            &&& xf.border_id >= styles.borders.len() ==> f.border_top.len() == 0
                && f.border_bottom.len() == 0 && f.border_left.len() == 0
                && f.border_right.len() == 0
            &&& f.halign == xf.alignment.horizontal
            &&& f.valign == xf.alignment.vertical
            &&& f.wrap_text == xf.alignment.wrap_text
            &&& f.indent == xf.alignment.indent
            &&& f.num_fmt == styles.num_fmt(xf.num_fmt_id)
        }),
{
}

/// A cell is bold, italic or underlined exactly if the last tag of that kind in the font of its
/// style says so.
pub proof fn law_cells_show_what_the_tags_of_their_font_say(
    events: Seq<EventView>,
    font: TagView,
    inside: Seq<EventView>,
    styles: StylesView,
    n: usize,
    readings: Seq<FloatReading<Seq<char>>>,
)
    requires
        style_state(events, readings).section == StyleSection::Fonts,
        font.name == "font"@,
        inside_entry(inside),
        n < styles.cell_xfs.len(),
        styles.fonts == style_state(
            events.push(EventView::Start(font)) + inside + seq![EventView::End("font"@)],
            readings,
        ).styles.fonts,
        styles.cell_xfs[n as int].font_id == style_state(events, readings).styles.fonts.len(),
    ensures
        ({
            let f = style_format(styles, Some(n))->0;
            &&& f.bold == (last_tag(inside, "b"@) matches Some(t) && t.attribute("val"@) != Some(
                "0"@,
            ))
            &&& f.italic == (last_tag(inside, "i"@) matches Some(t) && t.attribute("val"@) != Some(
                "0"@,
            ))
            &&& f.underline == (last_tag(inside, "u"@) matches Some(t) && t.attribute("val"@)
                != Some("none"@))
        }),
{
    law_fonts_are_what_their_tags_say(events, font, inside, readings);
    law_cells_look_as_their_style_says(styles, n);
}

} // verus!
