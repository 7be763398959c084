//! Text in pieces, as a spreadsheet stores it: runs that are shown, runs that only say how the
//! text is read aloud, and everything else that may stand between them.

use vstd::prelude::*;

use crate::xml::{EventView, TagView};

verus! {

/// The name of the element that an event begins or ends; nothing for text.
pub open spec fn element(e: EventView) -> Option<Seq<char>> {
    match e {
        EventView::Start(t) => Some(t.name),
        EventView::Empty(t) => Some(t.name),
        EventView::End(n) => Some(n),
        _ => None,
    }
}

/// Whether an event belongs to text: a stretch of it, or something that is no element.
pub open spec fn is_text(e: EventView) -> bool {
    element(e) is None
}

/// Whether all of some events belong to text.
pub open spec fn all_text(events: Seq<EventView>) -> bool {
    forall|i: int| 0 <= i < events.len() ==> is_text(#[trigger] events[i])
}

/// The stretches of text among some events, joined.
pub open spec fn text_in(events: Seq<EventView>) -> Seq<char>
    decreases events.len(),
{
    if events.len() == 0 {
        Seq::empty()
    } else {
        match events.last() {
            EventView::Text(Some(x)) => text_in(events.drop_last()) + x,
            _ => text_in(events.drop_last()),
        }
    }
}

/// A piece of text in a spreadsheet.
pub enum Piece {
    /// A `t` element: what is shown.
    Shown(TagView, Seq<EventView>),
    /// An `rPh` element: how the text is read aloud.
    Aloud(TagView, Seq<EventView>),
    /// Anything else: a tag of another element, or text between elements.
    Aside(EventView),
}

/// The events of a piece.
pub open spec fn piece_events(p: Piece) -> Seq<EventView> {
    match p {
        Piece::Shown(t, content) => seq![EventView::Start(t)] + content + seq![
            EventView::End(t.name),
        ],
        Piece::Aloud(r, content) => seq![EventView::Start(r)] + content + seq![
            EventView::End(r.name),
        ],
        Piece::Aside(e) => seq![e],
    }
}

/// The events of some pieces, one behind the other.
pub open spec fn pieces_events(pieces: Seq<Piece>) -> Seq<EventView>
    decreases pieces.len(),
{
    if pieces.len() == 0 {
        Seq::empty()
    } else {
        pieces_events(pieces.drop_last()) + piece_events(pieces.last())
    }
}

/// What some pieces show, joined in their order.
pub open spec fn shown_text(pieces: Seq<Piece>) -> Seq<char>
    decreases pieces.len(),
{
    if pieces.len() == 0 {
        Seq::empty()
    } else {
        match pieces.last() {
            Piece::Shown(_, content) => shown_text(pieces.drop_last()) + text_in(content),
            _ => shown_text(pieces.drop_last()),
        }
    }
}

/// What is shown by one more piece.
pub(crate) proof fn lemma_shown_push(pieces: Seq<Piece>, p: Piece)
    ensures
        shown_text(pieces.push(p)) == shown_text(pieces) + shown_text(seq![p]),
{
    assert(pieces.push(p).drop_last() =~= pieces);
    assert(seq![p].drop_last() =~= Seq::<Piece>::empty());
    assert(shown_text(Seq::<Piece>::empty()) =~= Seq::<char>::empty());
    match p {
        Piece::Shown(_, content) => {
            assert(shown_text(seq![p]) =~= text_in(content));
        },
        _ => {
            assert(shown_text(seq![p]) =~= Seq::<char>::empty());
            assert(shown_text(pieces) + shown_text(seq![p]) =~= shown_text(pieces));
        },
    }
}

/// Whether an event may stand aside, where it must not be one of these elements.
pub open spec fn is_aside(e: EventView, reserved: Set<Seq<char>>) -> bool {
    element(e) matches Some(n) ==> n != "t"@ && n != "rPh"@ && !reserved.contains(n)
}

/// Whether a piece is one, where no element of these names may stand in it.
pub open spec fn is_piece(p: Piece, reserved: Set<Seq<char>>) -> bool {
    match p {
        Piece::Shown(t, content) => t.name == "t"@ && all_text(content),
        Piece::Aloud(r, content) => r.name == "rPh"@ && forall|i: int|
            0 <= i < content.len() ==> (element(#[trigger] content[i]) matches Some(n) ==> n
                != "rPh"@ && !reserved.contains(n)),
        Piece::Aside(e) => is_aside(e, reserved),
    }
}

/// Whether all of some pieces are.
pub open spec fn all_pieces(pieces: Seq<Piece>, reserved: Set<Seq<char>>) -> bool {
    forall|i: int| 0 <= i < pieces.len() ==> is_piece(#[trigger] pieces[i], reserved)
}

} // verus!
