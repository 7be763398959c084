//! What the shared strings of a workbook are.

use vstd::prelude::*;

use crate::pieces::{
    all_pieces, all_text, element, is_piece, is_text, lemma_shown_push, piece_events, pieces_events,
    shown_text, text_in, Piece,
};
use crate::workbook::{string_state, string_step, StringState};
use crate::xml::{EventView, TagView};

verus! {

/// The name that no piece of an item may have.
pub open spec fn item_name() -> Set<Seq<char>> {
    Set::empty().insert("si"@)
}

/// The names differ.
proof fn lemma_names()
    ensures
        "si"@ != "t"@,
        "si"@ != "rPh"@,
        "t"@ != "rPh"@,
{
    reveal_strlit("si");
    reveal_strlit("t");
    reveal_strlit("rPh");
    assert("si"@.len() == 2 && "t"@.len() == 1 && "rPh"@.len() == 3);
}

/// One event more.
proof fn lemma_push(events: Seq<EventView>, e: EventView)
    ensures
        string_state(events.push(e)) == string_step(string_state(events), e),
{
    assert(events.push(e).drop_last() =~= events);
}

/// What the text inside a `t` element adds.
proof fn lemma_content(events: Seq<EventView>, content: Seq<EventView>)
    requires
        string_state(events).inside_t,
        all_text(content),
    ensures
        string_state(events + content) == (StringState {
            current: string_state(events).current + text_in(content),
            ..string_state(events)
        }),
    decreases content.len(),
{
    let s = string_state(events);
    if content.len() == 0 {
        assert(events + content =~= events);
        assert(s.current + text_in(content) =~= s.current);
    } else {
        let rest = content.drop_last();
        assert(is_text(content[content.len() - 1]));
        assert forall|i: int| 0 <= i < rest.len() implies is_text(#[trigger] rest[i]) by {
            assert(rest[i] == content[i]);
        }
        lemma_content(events, rest);
        assert(events + content =~= (events + rest).push(content.last()));
        lemma_push(events + rest, content.last());
        match content.last() {
            EventView::Text(Some(x)) => {
                assert(s.current + text_in(rest) + x =~= s.current + (text_in(rest) + x));
            },
            _ => {},
        }
    }
}

/// What stands inside an `rPh` element adds nothing.
proof fn lemma_aloud(events: Seq<EventView>, content: Seq<EventView>)
    requires
        string_state(events).phonetic,
        !string_state(events).inside_t,
        forall|i: int|
            0 <= i < content.len() ==> (element(#[trigger] content[i]) matches Some(n) ==> n
                != "rPh"@ && n != "si"@),
    ensures
        string_state(events + content) == string_state(events),
    decreases content.len(),
{
    if content.len() == 0 {
        assert(events + content =~= events);
    } else {
        let rest = content.drop_last();
        let e = content.last();
        assert(content[content.len() - 1] == e);
        assert forall|i: int| 0 <= i < rest.len() implies (element(
            #[trigger] rest[i],
        ) matches Some(n) ==> n != "rPh"@ && n != "si"@) by {
            assert(rest[i] == content[i]);
        }
        lemma_aloud(events, rest);
        assert(events + content =~= (events + rest).push(e));
        lemma_push(events + rest, e);
    }
}

/// What a piece adds.
proof fn lemma_piece(events: Seq<EventView>, p: Piece)
    requires
        string_state(events).inside_si,
        !string_state(events).inside_t,
        !string_state(events).phonetic,
        is_piece(p, item_name()),
    ensures
        string_state(events + piece_events(p)) == (StringState {
            current: string_state(events).current + shown_text(seq![p]),
            ..string_state(events)
        }),
{
    lemma_names();
    let s = string_state(events);
    assert(seq![p].drop_last() =~= Seq::<Piece>::empty());
    assert(shown_text(Seq::<Piece>::empty()) =~= Seq::<char>::empty());
    assert(s.current + Seq::<char>::empty() =~= s.current);
    match p {
        Piece::Shown(t, content) => {
            let e1 = events.push(EventView::Start(t));
            lemma_push(events, EventView::Start(t));
            lemma_content(e1, content);
            let e2 = e1 + content;
            lemma_push(e2, EventView::End(t.name));
            assert(events + piece_events(p) =~= e2.push(EventView::End(t.name)));
            assert(shown_text(seq![p]) =~= text_in(content));
        },
        Piece::Aloud(r, content) => {
            let e1 = events.push(EventView::Start(r));
            lemma_push(events, EventView::Start(r));
            assert forall|i: int| 0 <= i < content.len() implies (element(
                #[trigger] content[i],
            ) matches Some(n) ==> n != "rPh"@ && n != "si"@) by {
                assert(item_name().contains("si"@));
            }
            lemma_aloud(e1, content);
            let e2 = e1 + content;
            lemma_push(e2, EventView::End(r.name));
            assert(events + piece_events(p) =~= e2.push(EventView::End(r.name)));
        },
        Piece::Aside(e) => {
            assert(item_name().contains("si"@));
            lemma_push(events, e);
            assert(events + piece_events(p) =~= events.push(e));
        },
    }
}

/// What pieces add.
proof fn lemma_pieces(events: Seq<EventView>, pieces: Seq<Piece>)
    requires
        string_state(events).inside_si,
        !string_state(events).inside_t,
        !string_state(events).phonetic,
        all_pieces(pieces, item_name()),
    ensures
        string_state(events + pieces_events(pieces)) == (StringState {
            current: string_state(events).current + shown_text(pieces),
            ..string_state(events)
        }),
    decreases pieces.len(),
{
    let s = string_state(events);
    if pieces.len() == 0 {
        assert(events + pieces_events(pieces) =~= events);
        assert(s.current + shown_text(pieces) =~= s.current);
    } else {
        let rest = pieces.drop_last();
        let p = pieces.last();
        assert(pieces[pieces.len() - 1] == p);
        assert forall|i: int| 0 <= i < rest.len() implies is_piece(
            #[trigger] rest[i],
            item_name(),
        ) by {
            assert(rest[i] == pieces[i]);
        }
        lemma_pieces(events, rest);
        let mid = events + pieces_events(rest);
        lemma_piece(mid, p);
        assert(events + pieces_events(pieces) =~= mid + piece_events(p));
        lemma_shown_push(rest, p);
        assert(pieces =~= rest.push(p));
        assert(s.current + shown_text(rest) + shown_text(seq![p]) =~= s.current + shown_text(
            pieces,
        ));
    }
}

/// The string of an item is what its `t` elements hold, joined in their order, whatever other
/// elements stand between and around them. What only says how it is read aloud is left out. The
/// strings before it stay as they were.
pub proof fn law_item_is_what_it_shows(events: Seq<EventView>, si: TagView, pieces: Seq<Piece>)
    requires
        si.name == "si"@,
        all_pieces(pieces, item_name()),
        !string_state(events).inside_t,
    ensures
        string_state(
            events.push(EventView::Start(si)) + pieces_events(pieces) + seq![
                EventView::End("si"@),
            ],
        ).strings == string_state(events).strings.push(shown_text(pieces)),
        !string_state(
            events.push(EventView::Start(si)) + pieces_events(pieces) + seq![
                EventView::End("si"@),
            ],
        ).inside_t,
{
    lemma_names();
    let e1 = events.push(EventView::Start(si));
    lemma_push(events, EventView::Start(si));
    lemma_pieces(e1, pieces);
    let e2 = e1 + pieces_events(pieces);
    lemma_push(e2, EventView::End("si"@));
    assert(e2 + seq![EventView::End("si"@)] =~= e2.push(EventView::End("si"@)));
    assert(Seq::<char>::empty() + shown_text(pieces) =~= shown_text(pieces));
}

/// Elements of other names than `si`, `t` and `rPh`, and empty tags but those of items, change
/// nothing of what was read, and text counts only inside a `t` element.
pub proof fn law_other_elements_are_passed_over(events: Seq<EventView>, e: EventView)
    ensures
        element(e) matches Some(n) ==> n != "si"@ && n != "t"@ && n != "rPh"@ ==> string_state(
            events.push(e),
        ) == string_state(events),
        e is Empty && element(e) != Some("si"@) ==> string_state(events.push(e)) == string_state(
            events,
        ),
        is_text(e) && !string_state(events).inside_t ==> string_state(events.push(e))
            == string_state(events),
        e is Other ==> string_state(events.push(e)) == string_state(events),
{
    lemma_push(events, e);
}

/// An empty item is an empty string; nothing but an item adds a string, and no event changes or
/// removes one.
pub proof fn law_only_items_are_strings(events: Seq<EventView>, e: EventView)
    ensures
        string_state(Seq::<EventView>::empty()).strings.len() == 0,
        element(e) != Some("si"@) || e is Start ==> string_state(events.push(e)).strings
            == string_state(events).strings,
        e is Empty && element(e) == Some("si"@) ==> string_state(events.push(e)).strings
            == string_state(events).strings.push(Seq::empty()),
        string_state(events).strings.is_prefix_of(string_state(events.push(e)).strings),
{
    lemma_names();
    lemma_push(events, e);
}

} // verus!
