//! Which texts of a document may be read as floating-point numbers.
//!
//! A caller reads these texts and hands the library a table of what it found: see
//! [`FloatReading`](crate::floats::FloatReading).

use vstd::prelude::*;

use crate::archive::{read_zip_entries, zip_parts, Entries};
use crate::text::{same, texts};
use crate::xml::{
    events_view, items_view, read_document, xml_events, Attr, EventView, Tag, XmlEvent,
};

verus! {

/// Whether an attribute of this name may hold a floating-point number.
pub open spec fn is_number_key(key: Seq<char>) -> bool {
    key == "val"@ || key == "width"@ || key == "ht"@ || key == "cx"@ || key == "cy"@ || key
        == "height"@ || key == "fontSize"@ || key == "value"@
}

/// The values of the attributes that may hold a floating-point number.
pub open spec fn item_texts(items: Seq<Option<Attr<Seq<char>>>>) -> Seq<Seq<char>>
    decreases items.len(),
{
    if items.len() == 0 {
        Seq::empty()
    } else {
        let before = item_texts(items.drop_last());
        match items.last() {
            Some(a) => if is_number_key(a.key) && a.value is Some {
                before.push(a.value->0)
            } else {
                before
            },
            None => before,
        }
    }
}

/// The texts of an event that may be read as floating-point numbers.
pub open spec fn event_texts(e: EventView) -> Seq<Seq<char>> {
    match e {
        EventView::Start(t) => item_texts(t.attributes),
        EventView::Empty(t) => item_texts(t.attributes),
        _ => Seq::empty(),
    }
}

/// The texts of some events that may be read as floating-point numbers.
pub open spec fn number_texts(events: Seq<EventView>) -> Seq<Seq<char>>
    decreases events.len(),
{
    if events.len() == 0 {
        Seq::empty()
    } else {
        number_texts(events.drop_last()) + event_texts(events.last())
    }
}

/// The texts in the parts of a workbook that may be read as floating-point numbers. A part is
/// read with white space and without.
pub open spec fn part_texts(parts: Seq<(Seq<char>, Seq<u8>)>) -> Seq<Seq<char>>
    decreases parts.len(),
{
    if parts.len() == 0 {
        Seq::empty()
    } else {
        part_texts(parts.drop_last()) + number_texts(xml_events(parts.last().1, false))
            + number_texts(xml_events(parts.last().1, true))
    }
}

/// Whether an attribute of this name may hold a floating-point number.
fn may_hold_number(key: &str) -> (r: bool)
    ensures
        r == is_number_key(key@),
{
    same(key, "val") || same(key, "width") || same(key, "ht") || same(key, "cx") || same(key, "cy")
        || same(key, "height") || same(key, "fontSize") || same(key, "value")
}

/// Adds the texts of a tag.
fn add_tag(out: &mut Vec<String>, t: &Tag)
    ensures
        texts(final(out)@) == texts(old(out)@) + item_texts(t@.attributes),
{
    let ghost all = t@.attributes;
    let ghost before = texts(out@);
    assert(all.take(0) =~= Seq::<Option<Attr<Seq<char>>>>::empty());
    assert(before + Seq::<Seq<char>>::empty() =~= before);
    for i in 0..t.attributes.len()
        invariant
            all == items_view(t.attributes@),
            texts(out@) == before + item_texts(all.take(i as int)),
    {
        let ghost seen = texts(out@);
        let ghost so_far = item_texts(all.take(i as int));
        assert(all.take(i + 1).drop_last() =~= all.take(i as int));
        assert(all.take(i + 1).last() == all[i as int]);
        if let Some(a) = &t.attributes[i] {
            if may_hold_number(a.key.as_str()) {
                if let Some(v) = &a.value {
                    out.push(v.clone());
                    assert(texts(out@) =~= seen.push(v@));
                    assert((before + so_far).push(v@) =~= before + so_far.push(v@));
                }
            }
        }
    }
    assert(all.take(all.len() as int) =~= all);
}

/// Adds the texts of some events.
fn add_events(out: &mut Vec<String>, events: &[XmlEvent])
    ensures
        texts(final(out)@) == texts(old(out)@) + number_texts(events_view(events@)),
{
    let ghost all = events_view(events@);
    let ghost before = texts(out@);
    assert(all.take(0) =~= Seq::<EventView>::empty());
    assert(before + Seq::<Seq<char>>::empty() =~= before);
    for i in 0..events.len()
        invariant
            all == events_view(events@),
            texts(out@) == before + number_texts(all.take(i as int)),
    {
        let ghost so_far = number_texts(all.take(i as int));
        assert(all.take(i + 1).drop_last() =~= all.take(i as int));
        assert(all.take(i + 1).last() == events@[i as int]@);
        match &events[i] {
            XmlEvent::Start(t) => add_tag(out, t),
            XmlEvent::Empty(t) => add_tag(out, t),
            _ => {
                assert(before + so_far + Seq::<Seq<char>>::empty() =~= before + so_far);
            },
        }
        assert(before + so_far + event_texts(all[i as int]) =~= before + (so_far + event_texts(
            all[i as int],
        )));
    }
    assert(all.take(all.len() as int) =~= all);
}

/// No texts.
fn no_texts() -> (r: Vec<String>)
    ensures
        texts(r@) == Seq::<Seq<char>>::empty(),
{
    let r: Vec<String> = Vec::new();
    assert(texts(r@) =~= Seq::<Seq<char>>::empty());
    r
}

/// The texts of some events that may be read as floating-point numbers.
pub fn number_texts_in(events: &[XmlEvent]) -> (r: Vec<String>)
    ensures
        texts(r@) == number_texts(events_view(events@)),
{
    let mut out = no_texts();
    add_events(&mut out, events);
    assert(Seq::<Seq<char>>::empty() + number_texts(events_view(events@)) =~= number_texts(
        events_view(events@),
    ));
    out
}

/// The texts of a handover document that may be read as floating-point numbers.
pub fn document_number_texts(xml: &[u8]) -> (r: Vec<String>)
    ensures
        texts(r@) == number_texts(xml_events(xml@, true)),
{
    let document = read_document(xml, true);
    number_texts_in(document.events.as_slice())
}

/// The texts in the parts of a workbook that may be read as floating-point numbers.
pub fn entries_number_texts(entries: &Entries) -> (r: Vec<String>)
    ensures
        texts(r@) == part_texts(entries@),
{
    let mut out = no_texts();
    let ghost parts = entries@;
    let n: usize = entries.len();
    assert(parts.take(0) =~= Seq::<(Seq<char>, Seq<u8>)>::empty());
    for i in 0..n
        invariant
            parts == entries@,
            n == parts.len(),
            texts(out@) == part_texts(parts.take(i as int)),
    {
        assert(parts.take(i + 1).drop_last() =~= parts.take(i as int));
        assert(parts.take(i + 1).last() == parts[i as int]);
        let spaced = read_document(entries.data(i), false);
        add_events(&mut out, spaced.events.as_slice());
        let trimmed = read_document(entries.data(i), true);
        add_events(&mut out, trimmed.events.as_slice());
    }
    assert(parts.take(parts.len() as int) =~= parts);
    out
}

/// The texts of an xlsx file that may be read as floating-point numbers. The only error is one
/// of the archive.
pub fn workbook_number_texts(xlsx: &[u8]) -> (r: Result<Vec<String>, String>)
    ensures
        match r {
            Ok(t) => zip_parts(xlsx@) is Ok && texts(t@) == part_texts(zip_parts(xlsx@)->Ok_0),
            Err(e) => zip_parts(xlsx@) is Err && e@ == zip_parts(xlsx@)->Err_0,
        },
{
    match read_zip_entries(xlsx) {
        Ok(entries) => Ok(entries_number_texts(&entries)),
        Err(e) => Err(e),
    }
}

} // verus!
