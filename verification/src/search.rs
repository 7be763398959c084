//! Full-text search in handover documents.

use vstd::prelude::*;
use vstd::utf8::{encode_scalar, encode_utf8, encode_utf8_valid_utf8, is_ascii_chars, valid_utf8};

use crate::cellref::{col_letters, col_num_to_str};
use crate::document::{workbook_lines, written, DocumentView};
use crate::lines::{document_text, in_order};
use crate::lookup::{law_search_finds_cells, sheet_hits};
use crate::readback::{law_document_in_order, plain_document};
use crate::text::{
    ascii_lower, has_part, holds, lower_text, text_of, text_of_utf8, to_chars, to_lowercase, trim,
    trimmed, utf8_error,
};
use crate::xml::{events_view, read_document, xml_events, EventView, Tag, TagView, XmlEvent};

verus! {

/// A cell that was found: the name of its sheet, its own name, and its value.
pub struct Hit<T = String> {
    pub sheet: T,
    pub cell: T,
    pub value: T,
}

impl View for Hit {
    type V = Hit<Seq<char>>;

    open spec fn view(&self) -> Hit<Seq<char>> {
        Hit { sheet: self.sheet@, cell: self.cell@, value: self.value@ }
    }
}

/// What a sequence of hits holds.
pub open spec fn hits_view(hits: Seq<Hit>) -> Seq<Hit<Seq<char>>> {
    Seq::new(hits.len(), |i: int| hits[i]@)
}

/// The longest beginning of a text that takes at most `limit` bytes.
pub open spec fn fitting(value: Seq<char>, limit: nat) -> Seq<char>
    decreases value.len(),
{
    if value.len() == 0 || encode_utf8(value).len() <= limit {
        value
    } else {
        fitting(value.drop_last(), limit)
    }
}

/// A value as it is shown: as many of its characters as fit into 300 bytes.
pub open spec fn shown(value: Seq<char>) -> Seq<char> {
    fitting(value, 300)
}

/// The bytes of two texts one behind the other.
proof fn lemma_encode_append(a: Seq<char>, b: Seq<char>)
    ensures
        encode_utf8(a + b) == encode_utf8(a) + encode_utf8(b),
    decreases a.len(),
{
    if a.len() == 0 {
        assert(a + b =~= b);
        assert(encode_utf8(a) + encode_utf8(b) =~= encode_utf8(b));
    } else {
        assert((a + b).drop_first() =~= a.drop_first() + b);
        assert((a + b)[0] == a[0]);
        lemma_encode_append(a.drop_first(), b);
        let head = encode_scalar(a[0] as u32);
        assert(head + (encode_utf8(a.drop_first()) + encode_utf8(b)) =~= head + encode_utf8(
            a.drop_first(),
        ) + encode_utf8(b));
    }
}

/// The bytes of one more character.
proof fn lemma_encode_one_more(value: Seq<char>, k: int)
    requires
        0 <= k < value.len(),
    ensures
        encode_utf8(value.take(k + 1)).len() == encode_utf8(value.take(k)).len() + encode_scalar(
            value[k] as u32,
        ).len(),
{
    let one = seq![value[k]];
    assert(value.take(k + 1) =~= value.take(k) + one);
    lemma_encode_append(value.take(k), one);
    assert(one.drop_first() =~= Seq::<char>::empty());
    reveal_with_fuel(encode_utf8, 2);
    assert(encode_utf8(one) =~= encode_scalar(value[k] as u32));
}

/// A longer beginning takes more bytes.
proof fn lemma_encode_longer(value: Seq<char>, j: int, k: int)
    requires
        0 <= j <= k <= value.len(),
    ensures
        encode_utf8(value.take(j)).len() <= encode_utf8(value.take(k)).len(),
{
    assert(value.take(k) =~= value.take(j) + value.subrange(j, k));
    lemma_encode_append(value.take(j), value.subrange(j, k));
}

/// Where the beginning that fits ends.
proof fn lemma_fitting(value: Seq<char>, limit: nat, k: int)
    requires
        0 <= k <= value.len(),
        encode_utf8(value.take(k)).len() <= limit,
        k < value.len() ==> encode_utf8(value.take(k + 1)).len() > limit,
    ensures
        fitting(value, limit) == value.take(k),
    decreases value.len(),
{
    assert(value.take(value.len() as int) =~= value);
    if k < value.len() {
        lemma_encode_longer(value, k + 1, value.len() as int);
        let rest = value.drop_last();
        assert(rest.take(k) =~= value.take(k));
        if k < rest.len() {
            assert(rest.take(k + 1) =~= value.take(k + 1));
        }
        lemma_fitting(rest, limit, k);
    }
}

/// What is shown of a value is a beginning of it that fits into 300 bytes, and no longer
/// beginning does.
pub proof fn law_shown_is_longest(value: Seq<char>)
    ensures
        shown(value).is_prefix_of(value),
        encode_utf8(shown(value)).len() <= 300,
        forall|n: int|
            shown(value).len() < n <= value.len() ==> encode_utf8(#[trigger] value.take(n)).len()
                > 300,
    decreases value.len(),
{
    if value.len() > 0 && encode_utf8(value).len() > 300 {
        let rest = value.drop_last();
        law_shown_is_longest(rest);
        assert forall|n: int| shown(value).len() < n <= value.len() implies encode_utf8(
            #[trigger] value.take(n),
        ).len() > 300 by {
            if n < value.len() {
                assert(value.take(n) =~= rest.take(n));
            } else {
                assert(value.take(n) =~= value);
            }
        }
    }
}

/// The value that a `cell` tag gives.
pub open spec fn tag_value(t: TagView) -> Seq<char> {
    t.text_or("value"@, Seq::empty())
}

/// Whether a tag is a cell whose value holds what is searched for, in lower case.
pub open spec fn is_hit(t: TagView, query: Seq<char>) -> bool {
    t.name == "cell"@ && tag_value(t).len() > 0 && holds(lower_text(tag_value(t)), query)
}

/// Whether `s` holds `p` somewhere, with letters of ASCII in upper or lower case.
pub open spec fn holds_in_any_case(s: Seq<char>, p: Seq<char>) -> bool {
    exists|i: int|
        0 <= i <= s.len() - p.len() && ascii_lower(#[trigger] s.subrange(i, i + p.len()))
            == ascii_lower(p)
}

/// A search does not distinguish upper and lower case: a value is found if and only if it holds
/// what was asked for in any case. This is said of ASCII texts.
pub proof fn law_search_ignores_case(value: Seq<char>, asked: Seq<char>)
    requires
        is_ascii_chars(value),
        is_ascii_chars(asked),
    ensures
        holds(lower_text(value), lower_text(asked)) == holds_in_any_case(value, asked),
{
    let low = ascii_lower(value);
    let n = asked.len();
    assert forall|i: int| 0 <= i <= value.len() - n implies ascii_lower(
        #[trigger] value.subrange(i, i + n),
    ) == low.subrange(i, i + n) by {
        assert(ascii_lower(value.subrange(i, i + n)) =~= low.subrange(i, i + n));
    }
    if holds(low, ascii_lower(asked)) {
        let i = choose|i: int|
            0 <= i <= low.len() - n && #[trigger] low.subrange(i, i + n) == ascii_lower(asked);
        assert(ascii_lower(value.subrange(i, i + n)) == ascii_lower(asked));
    }
    if holds_in_any_case(value, asked) {
        let i = choose|i: int|
            0 <= i <= value.len() - n && ascii_lower(#[trigger] value.subrange(i, i + n))
                == ascii_lower(asked);
        assert(low.subrange(i, i + n) == ascii_lower(asked));
    }
}

/// The hit that a `cell` tag makes.
pub open spec fn hit_of(t: TagView, sheet: Seq<char>) -> Hit<Seq<char>> {
    Hit {
        sheet,
        cell: col_letters(t.number_or("col"@, 0)) + t.text_or("row"@, Seq::empty()),
        value: shown(tag_value(t)),
    }
}

/// A document while it is being searched.
pub struct SearchState {
    pub sheet: Seq<char>,
    pub hits: Seq<Hit<Seq<char>>>,
}

/// What is known at the beginning.
pub open spec fn search_start() -> SearchState {
    SearchState { sheet: Seq::empty(), hits: Seq::empty() }
}

/// What is known after a start tag or an empty tag.
pub open spec fn search_tag(s: SearchState, t: TagView, query: Seq<char>) -> SearchState {
    if t.name == "sheet"@ {
        SearchState { sheet: t.text_or("name"@, Seq::empty()), ..s }
    } else if is_hit(t, query) {
        SearchState { hits: s.hits.push(hit_of(t, s.sheet)), ..s }
    } else {
        s
    }
}

/// What is known after one more event.
pub open spec fn search_step(s: SearchState, e: EventView, query: Seq<char>) -> SearchState {
    match e {
        EventView::Start(t) => search_tag(s, t, query),
        EventView::Empty(t) => search_tag(s, t, query),
        _ => s,
    }
}

/// What is known after some events, from what was known before.
pub open spec fn search_run(s: SearchState, events: Seq<EventView>, query: Seq<char>) -> SearchState
    decreases events.len(),
{
    if events.len() == 0 {
        s
    } else {
        search_step(search_run(s, events.drop_last(), query), events.last(), query)
    }
}

/// The hits among some events.
pub open spec fn found(events: Seq<EventView>, query: Seq<char>) -> Seq<Hit<Seq<char>>> {
    search_run(search_start(), events, query).hits
}

/// The number of bytes that a character takes.
fn width(c: char) -> (r: usize)
    ensures
        r == encode_scalar(c as u32).len(),
        1 <= r <= 4,
{
    let n: u32 = c as u32;
    if n < 0x80 {
        1
    } else if n < 0x800 {
        2
    } else if n < 0x10000 {
        3
    } else {
        4
    }
}

/// A value as it is shown.
pub fn show(value: &str) -> (r: String)
    ensures
        r@ == shown(value@),
{
    let a = to_chars(value);
    let mut k: usize = 0;
    let mut bytes: usize = 0;
    assert(encode_utf8(value@.take(0)).len() == 0);
    while k < a.len() && bytes + width(a[k]) <= 300
        invariant
            a@ == value@,
            k <= a@.len(),
            bytes == encode_utf8(value@.take(k as int)).len(),
            bytes <= 300,
        decreases a.len() - k,
    {
        proof {
            lemma_encode_one_more(value@, k as int);
        }
        bytes = bytes + width(a[k]);
        k = k + 1;
    }
    proof {
        if k < a@.len() {
            lemma_encode_one_more(value@, k as int);
        }
        lemma_fitting(value@, 300, k as int);
    }
    let r = text_of(&a, 0, k);
    assert(r@ =~= value@.take(k as int));
    r
}

/// The hits among the events of a document, for a text that is already in lower case.
pub fn search_in(events: &[XmlEvent], query_lower: &str) -> (r: Vec<Hit>)
    ensures
        hits_view(r@) == found(events_view(events@), query_lower@),
{
    let mut sheet = String::new();
    let mut hits: Vec<Hit> = Vec::new();
    let ghost all = events_view(events@);
    let ghost query = query_lower@;
    assert(all.take(0) =~= Seq::<EventView>::empty());
    assert(hits_view(hits@) =~= Seq::<Hit<Seq<char>>>::empty());
    proof {
        reveal_strlit("");
        assert(""@ =~= Seq::<char>::empty());
    }
    for i in 0..events.len()
        invariant
            ""@ == Seq::<char>::empty(),
            all == events_view(events@),
            query == query_lower@,
            search_run(search_start(), all.take(i as int), query) == (SearchState {
                sheet: sheet@,
                hits: hits_view(hits@),
            }),
    {
        assert(all.take(i + 1).drop_last() =~= all.take(i as int));
        assert(all.take(i + 1).last() == events@[i as int]@);
        let tag: Option<&Tag> = match &events[i] {
            XmlEvent::Start(t) => Some(t),
            XmlEvent::Empty(t) => Some(t),
            _ => None,
        };
        if let Some(t) = tag {
            if t.is("sheet") {
                sheet = t.text_or("name", "");
            } else if t.is("cell") {
                let value = t.text_or("value", "");
                if !value.as_str().is_empty() && has_part(
                    to_lowercase(value.as_str()).as_str(),
                    query_lower,
                ) {
                    let mut cell = col_num_to_str(t.number_or("col", 0));
                    cell.push_str(t.text_or("row", "").as_str());
                    let hit = Hit { sheet: sheet.clone(), cell, value: show(value.as_str()) };
                    let ghost before = hits_view(hits@);
                    let ghost hv = hit@;
                    hits.push(hit);
                    assert(hits_view(hits@) =~= before.push(hv));
                }
            }
        }
    }
    assert(all.take(all.len() as int) =~= all);
    hits
}

/// Why a document cannot be searched.
pub enum SearchError {
    /// The document is not text; the reason is given.
    NotText(String),
}

/// The hits in a document, for a text that is already in lower case. In a document that this
/// library wrote they are the cells of its worksheets whose values hold the text.
pub fn search_in_xml(xml: &[u8], query_lower: &str) -> (r: Result<Vec<Hit>, SearchError>)
    ensures
        match r {
            Ok(hits) => valid_utf8(xml@) && hits_view(hits@) == found(
                xml_events(xml@, true),
                query_lower@,
            ),
            Err(SearchError::NotText(m)) => !valid_utf8(xml@) && m@ == utf8_error(xml@),
        },
        forall|d: DocumentView|
            plain_document(d) && xml@ == #[trigger] written(d) ==> match r {
                Ok(hits) => hits_view(hits@) == sheet_hits(d.sheets, query_lower@),
                Err(_) => false,
            },
{
    proof {
        assert forall|d: DocumentView| plain_document(d) && xml@ == #[trigger] written(
            d,
        ) implies valid_utf8(xml@) && in_order(workbook_lines(d)) by {
            encode_utf8_valid_utf8(document_text(workbook_lines(d)));
            law_document_in_order(d);
        }
    }
    match text_of_utf8(xml) {
        Err(m) => Err(SearchError::NotText(m)),
        Ok(_) => {
            let document = read_document(xml, true);
            proof {
                let e = xml_events(xml@, true);
                assert forall|d: DocumentView| plain_document(d) && xml@ == #[trigger] written(
                    d,
                ) implies found(e, query_lower@) == sheet_hits(d.sheets, query_lower@) by {
                    let lines = workbook_lines(d);
                    assert(xml@ == encode_utf8(document_text(lines)));
                    law_search_finds_cells(d, e, query_lower@);
                }
            }
            Ok(search_in(document.events.as_slice(), query_lower))
        },
    }
}

/// What is searched for: the text as it was given, without white space around it, and the
/// same in lower case.
pub struct Query {
    pub text: String,
    pub lower: String,
}

/// What a request asks to search for; nothing where it asks for white space or nothing. The
/// text that the reply repeats is given in either case.
pub fn read_query(q: Option<&str>) -> (r: (String, Option<Query>))
    ensures
        r.0@ == trimmed(match q {
            Some(s) => s@,
            None => Seq::empty(),
        }),
        r.1 is None <==> r.0@.len() == 0,
        r.1 matches Some(query) ==> query.text@ == r.0@ && query.lower@ == lower_text(r.0@),
{
    let text = match q {
        Some(s) => trim(s),
        None => {
            proof {
                reveal_strlit("");
                assert(""@ =~= Seq::<char>::empty());
            }
            trim("")
        },
    };
    if text.as_str().is_empty() {
        (text, None)
    } else {
        let lower = to_lowercase(text.as_str());
        (text.clone(), Some(Query { text, lower }))
    }
}

} // verus!
