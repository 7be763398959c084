//! The workbook part of an xlsx file: its shared strings, its sheets, and the relationships
//! that lead from a sheet to the part that holds it.

use vstd::prelude::*;

use crate::archive::{part_named, Entries};
use crate::text::{begins_with, has_prefix, same, strip_leading, texts, without_leading};
use crate::xml::{
    events_view, find_attribute, read_document, xml_events, EventView, Tag, TagView, XmlEvent,
};

verus! {

/// The shared strings while they are being read.
pub struct StringState {
    pub strings: Seq<Seq<char>>,
    pub inside_si: bool,
    pub inside_t: bool,
    /// Whether a phonetic run is being read.
    pub phonetic: bool,
    pub current: Seq<char>,
}

/// The shared strings after one more event. An item gathers the text of all its `t` elements,
/// without those that only say how it is read aloud. An empty item is an empty string.
pub open spec fn string_step(s: StringState, e: EventView) -> StringState {
    match e {
        EventView::Start(t) => if t.name == "si"@ {
            StringState { inside_si: true, phonetic: false, current: Seq::empty(), ..s }
        } else if t.name == "rPh"@ {
            StringState { phonetic: true, ..s }
        } else if t.name == "t"@ && s.inside_si && !s.phonetic {
            StringState { inside_t: true, ..s }
        } else {
            s
        },
        EventView::Empty(t) => if t.name == "si"@ {
            StringState { strings: s.strings.push(Seq::empty()), ..s }
        } else {
            s
        },
        EventView::Text(text) => if s.inside_t && text is Some {
            StringState { current: s.current + text->0, ..s }
        } else {
            s
        },
        EventView::End(n) => if n == "t"@ {
            StringState { inside_t: false, ..s }
        } else if n == "rPh"@ {
            StringState { phonetic: false, ..s }
        } else if n == "si"@ {
            StringState { strings: s.strings.push(s.current), inside_si: false, ..s }
        } else {
            s
        },
        _ => s,
    }
}

/// The shared strings after some events.
pub open spec fn string_state(events: Seq<EventView>) -> StringState
    decreases events.len(),
{
    if events.len() == 0 {
        StringState {
            strings: Seq::empty(),
            inside_si: false,
            inside_t: false,
            phonetic: false,
            current: Seq::empty(),
        }
    } else {
        string_step(string_state(events.drop_last()), events.last())
    }
}

/// The shared strings of a workbook whose parts are given.
pub open spec fn shared_strings(parts: Seq<(Seq<char>, Seq<u8>)>) -> Seq<Seq<char>> {
    match part_named(parts, "xl/sharedStrings.xml"@) {
        Some(data) => string_state(xml_events(data, false)).strings,
        None => Seq::empty(),
    }
}

/// The shared strings that the events of `xl/sharedStrings.xml` describe.
pub fn shared_strings_in(events: &[XmlEvent]) -> (r: Vec<String>)
    ensures
        texts(r@) == string_state(events_view(events@)).strings,
{
    let mut strings: Vec<String> = Vec::new();
    let mut inside_si = false;
    let mut inside_t = false;
    let mut phonetic = false;
    let mut current = String::new();
    let ghost all = events_view(events@);
    assert(all.take(0) =~= Seq::<EventView>::empty());
    assert(texts(strings@) =~= Seq::<Seq<char>>::empty());
    for i in 0..events.len()
        invariant
            all == events_view(events@),
            string_state(all.take(i as int)) == (StringState {
                strings: texts(strings@),
                inside_si,
                inside_t,
                phonetic,
                current: current@,
            }),
    {
        assert(all.take(i + 1).drop_last() =~= all.take(i as int));
        assert(all.take(i + 1).last() == events@[i as int]@);
        match &events[i] {
            XmlEvent::Start(t) => {
                if t.is("si") {
                    inside_si = true;
                    phonetic = false;
                    current = String::new();
                } else if t.is("rPh") {
                    phonetic = true;
                } else if t.is("t") && inside_si && !phonetic {
                    inside_t = true;
                }
            },
            XmlEvent::Empty(t) => {
                if t.is("si") {
                    let ghost before = texts(strings@);
                    strings.push(String::new());
                    assert(texts(strings@) =~= before.push(Seq::empty()));
                }
            },
            XmlEvent::Text(text) => {
                if inside_t {
                    if let Some(s) = text {
                        current.push_str(s.as_str());
                    }
                }
            },
            XmlEvent::End(n) => {
                if same(n.as_str(), "t") {
                    inside_t = false;
                } else if same(n.as_str(), "rPh") {
                    phonetic = false;
                } else if same(n.as_str(), "si") {
                    let ghost before = texts(strings@);
                    strings.push(current.clone());
                    inside_si = false;
                    assert(texts(strings@) =~= before.push(current@));
                }
            },
            _ => {},
        }
    }
    assert(all.take(all.len() as int) =~= all);
    strings
}

/// The shared strings of a workbook.
pub fn parse_shared_strings(entries: &Entries) -> (r: Vec<String>)
    ensures
        texts(r@) == shared_strings(entries@),
{
    match entries.get("xl/sharedStrings.xml") {
        Some(data) => {
            let document = read_document(data, false);
            shared_strings_in(document.events.as_slice())
        },
        None => {
            let r: Vec<String> = Vec::new();
            assert(texts(r@) =~= Seq::<Seq<char>>::empty());
            r
        },
    }
}

/// Pairs of texts.
pub open spec fn pairs_view(pairs: Seq<(String, String)>) -> Seq<(Seq<char>, Seq<char>)> {
    Seq::new(pairs.len(), |i: int| (pairs[i].0@, pairs[i].1@))
}

/// Pairs of texts with one more, unless one of its two texts is empty.
pub open spec fn with_pair(
    pairs: Seq<(Seq<char>, Seq<char>)>,
    a: Seq<char>,
    b: Seq<char>,
) -> Seq<(Seq<char>, Seq<char>)> {
    if a.len() > 0 && b.len() > 0 {
        pairs.push((a, b))
    } else {
        pairs
    }
}

/// Adds a pair, unless one of its two texts is empty.
fn push_pair(pairs: &mut Vec<(String, String)>, a: String, b: String)
    ensures
        pairs_view(final(pairs)@) == with_pair(pairs_view(old(pairs)@), a@, b@),
{
    if !a.as_str().is_empty() && !b.as_str().is_empty() {
        let ghost before = pairs_view(pairs@);
        let ghost pair = (a@, b@);
        pairs.push((a, b));
        assert(pairs_view(pairs@) =~= before.push(pair));
    }
}

/// The relationship id that a `sheet` tag gives: its attribute `id`, or else the first whose
/// name ends in `:id`.
pub open spec fn sheet_rid(t: TagView) -> Seq<char> {
    let value = if find_attribute(t.attributes, "id"@) is Some {
        t.attribute("id"@)
    } else {
        t.qualified("id"@)
    };
    match value {
        Some(v) => v,
        None => Seq::empty(),
    }
}

/// The sheets of a workbook while they are being read: name and relationship id.
pub struct SheetState {
    pub sheets: Seq<(Seq<char>, Seq<char>)>,
    pub inside: bool,
}

/// The sheets after one more event.
pub open spec fn sheet_step(s: SheetState, e: EventView) -> SheetState {
    match e {
        EventView::Start(t) => if t.name == "sheets"@ {
            SheetState { inside: true, ..s }
        } else {
            s
        },
        EventView::Empty(t) => if s.inside && t.name == "sheet"@ {
            SheetState {
                sheets: with_pair(s.sheets, t.text_or("name"@, Seq::empty()), sheet_rid(t)),
                ..s
            }
        } else {
            s
        },
        EventView::End(n) => if n == "sheets"@ {
            SheetState { inside: false, ..s }
        } else {
            s
        },
        _ => s,
    }
}

/// The sheets after some events.
pub open spec fn sheet_state(events: Seq<EventView>) -> SheetState
    decreases events.len(),
{
    if events.len() == 0 {
        SheetState { sheets: Seq::empty(), inside: false }
    } else {
        sheet_step(sheet_state(events.drop_last()), events.last())
    }
}

/// The relationship id that a `sheet` tag gives.
fn read_rid(t: &Tag) -> (r: String)
    ensures
        r@ == sheet_rid(t@),
{
    let value = if t.has_attribute("id") {
        t.attribute("id")
    } else {
        t.qualified("id")
    };
    match value {
        Some(v) => v,
        None => String::new(),
    }
}

/// The name and the relationship id of each sheet, in the events of `xl/workbook.xml`.
pub fn sheets_in(events: &[XmlEvent]) -> (r: Vec<(String, String)>)
    ensures
        pairs_view(r@) == sheet_state(events_view(events@)).sheets,
{
    let mut sheets: Vec<(String, String)> = Vec::new();
    let mut inside = false;
    let ghost all = events_view(events@);
    assert(all.take(0) =~= Seq::<EventView>::empty());
    assert(pairs_view(sheets@) =~= Seq::<(Seq<char>, Seq<char>)>::empty());
    proof {
        reveal_strlit("");
        assert(""@ =~= Seq::<char>::empty());
    }
    for i in 0..events.len()
        invariant
            ""@ == Seq::<char>::empty(),
            all == events_view(events@),
            sheet_state(all.take(i as int)) == (SheetState { sheets: pairs_view(sheets@), inside }),
    {
        assert(all.take(i + 1).drop_last() =~= all.take(i as int));
        assert(all.take(i + 1).last() == events@[i as int]@);
        match &events[i] {
            XmlEvent::Start(t) => {
                if t.is("sheets") {
                    inside = true;
                }
            },
            XmlEvent::Empty(t) => {
                if inside && t.is("sheet") {
                    push_pair(&mut sheets, t.text_or("name", ""), read_rid(t));
                }
            },
            XmlEvent::End(n) => {
                if same(n.as_str(), "sheets") {
                    inside = false;
                }
            },
            _ => {},
        }
    }
    assert(all.take(all.len() as int) =~= all);
    sheets
}

/// The name and the relationship id of each sheet of a workbook.
pub fn extract_sheets(data: &[u8]) -> (r: Vec<(String, String)>)
    ensures
        pairs_view(r@) == sheet_state(xml_events(data@, true)).sheets,
{
    let document = read_document(data, true);
    sheets_in(document.events.as_slice())
}

/// The relationships that some events list: id and target.
pub open spec fn relationships(events: Seq<EventView>) -> Seq<(Seq<char>, Seq<char>)>
    decreases events.len(),
{
    if events.len() == 0 {
        Seq::empty()
    } else {
        let before = relationships(events.drop_last());
        match events.last() {
            EventView::Empty(t) => if t.name == "Relationship"@ {
                with_pair(
                    before,
                    t.text_or("Id"@, Seq::empty()),
                    t.text_or("Target"@, Seq::empty()),
                )
            } else {
                before
            },
            _ => before,
        }
    }
}

/// The target of the last relationship with an id.
pub open spec fn rel_target(rels: Seq<(Seq<char>, Seq<char>)>, id: Seq<char>) -> Option<Seq<char>>
    decreases rels.len(),
{
    if rels.len() == 0 {
        None
    } else if rels.last().0 == id {
        Some(rels.last().1)
    } else {
        rel_target(rels.drop_last(), id)
    }
}

/// Relationships: targets by id. Of two with one id, the later one counts.
pub struct Rels {
    pub pairs: Vec<(String, String)>,
}

impl View for Rels {
    type V = Seq<(Seq<char>, Seq<char>)>;

    open spec fn view(&self) -> Seq<(Seq<char>, Seq<char>)> {
        pairs_view(self.pairs@)
    }
}

impl Rels {
    /// No relationships.
    pub fn none() -> (r: Rels)
        ensures
            r@ == Seq::<(Seq<char>, Seq<char>)>::empty(),
    {
        let r = Rels { pairs: Vec::new() };
        assert(r@ =~= Seq::<(Seq<char>, Seq<char>)>::empty());
        r
    }

    /// The target of the relationship with an id.
    pub fn target(&self, id: &str) -> (r: Option<&str>)
        ensures
            match r {
                Some(t) => rel_target(self@, id@) == Some(t@),
                None => rel_target(self@, id@) is None,
            },
    {
        let ghost all = self@;
        let mut i: usize = self.pairs.len();
        assert(all.take(all.len() as int) =~= all);
        while i > 0
            invariant
                all == self@,
                i <= self.pairs@.len(),
                rel_target(all, id@) == rel_target(all.take(i as int), id@),
            decreases i,
        {
            assert(all.take(i as int).last() == all[i - 1]);
            assert(all.take(i as int).drop_last() =~= all.take(i - 1));
            i = i - 1;
            if same(self.pairs[i].0.as_str(), id) {
                return Some(self.pairs[i].1.as_str());
            }
        }
        None
    }
}

/// The relationships that the events of a `.rels` part list.
pub fn rels_in(events: &[XmlEvent]) -> (r: Rels)
    ensures
        r@ == relationships(events_view(events@)),
{
    let mut pairs: Vec<(String, String)> = Vec::new();
    let ghost all = events_view(events@);
    assert(all.take(0) =~= Seq::<EventView>::empty());
    assert(pairs_view(pairs@) =~= Seq::<(Seq<char>, Seq<char>)>::empty());
    proof {
        reveal_strlit("");
        assert(""@ =~= Seq::<char>::empty());
    }
    for i in 0..events.len()
        invariant
            ""@ == Seq::<char>::empty(),
            all == events_view(events@),
            relationships(all.take(i as int)) == pairs_view(pairs@),
    {
        assert(all.take(i + 1).drop_last() =~= all.take(i as int));
        assert(all.take(i + 1).last() == events@[i as int]@);
        if let XmlEvent::Empty(t) = &events[i] {
            if t.is("Relationship") {
                push_pair(&mut pairs, t.text_or("Id", ""), t.text_or("Target", ""));
            }
        }
    }
    assert(all.take(all.len() as int) =~= all);
    Rels { pairs }
}

/// The relationships in the bytes of a `.rels` part.
pub fn parse_rels(data: &[u8]) -> (r: Rels)
    ensures
        r@ == relationships(xml_events(data@, true)),
{
    let document = read_document(data, true);
    rels_in(document.events.as_slice())
}

/// The relationships in the part named `name`; none where there is no such part.
pub open spec fn rels_part(
    parts: Seq<(Seq<char>, Seq<u8>)>,
    name: Seq<char>,
) -> Seq<(Seq<char>, Seq<char>)> {
    match part_named(parts, name) {
        Some(data) => relationships(xml_events(data, true)),
        None => Seq::empty(),
    }
}

/// The relationships in the part named `name`.
pub(crate) fn read_rels(entries: &Entries, name: &str) -> (r: Rels)
    ensures
        r@ == rels_part(entries@, name@),
{
    match entries.get(name) {
        Some(data) => parse_rels(data),
        None => Rels::none(),
    }
}

/// The part that a target names: a path from the root of the archive, or one inside `base`.
pub open spec fn target_path(base: Seq<char>, target: Seq<char>) -> Seq<char> {
    if begins_with(target, seq!['/']) {
        without_leading(target, seq!['/'])
    } else {
        base + target
    }
}

/// The part that a target names.
pub(crate) fn resolve_target(base: &str, target: &str) -> (r: String)
    ensures
        r@ == target_path(base@, target@),
{
    proof {
        reveal_strlit("/");
        assert("/"@ =~= seq!['/']);
    }
    if has_prefix(target, "/") {
        strip_leading(target, "/")
    } else {
        let mut path = base.to_owned();
        path.push_str(target);
        path
    }
}

/// The sheets with the parts that hold them; a sheet whose id leads nowhere is left out.
pub open spec fn located(
    sheets: Seq<(Seq<char>, Seq<char>)>,
    rels: Seq<(Seq<char>, Seq<char>)>,
) -> Seq<(Seq<char>, Seq<char>)>
    decreases sheets.len(),
{
    if sheets.len() == 0 {
        Seq::empty()
    } else {
        let before = located(sheets.drop_last(), rels);
        match rel_target(rels, sheets.last().1) {
            Some(t) => before.push((sheets.last().0, target_path("xl/"@, t))),
            None => before,
        }
    }
}

/// The sheets of a workbook whose parts are given: name and part, in the order of the
/// workbook.
pub open spec fn workbook_sheets(
    parts: Seq<(Seq<char>, Seq<u8>)>,
) -> Seq<(Seq<char>, Seq<char>)> {
    match part_named(parts, "xl/workbook.xml"@) {
        Some(data) => located(
            sheet_state(xml_events(data, true)).sheets,
            rels_part(parts, "xl/_rels/workbook.xml.rels"@),
        ),
        None => Seq::empty(),
    }
}

/// The sheets with the parts that hold them.
pub fn locate_sheets(sheets: &Vec<(String, String)>, rels: &Rels) -> (r: Vec<(String, String)>)
    ensures
        pairs_view(r@) == located(pairs_view(sheets@), rels@),
{
    let mut out: Vec<(String, String)> = Vec::new();
    let ghost all = pairs_view(sheets@);
    assert(all.take(0) =~= Seq::<(Seq<char>, Seq<char>)>::empty());
    assert(pairs_view(out@) =~= Seq::<(Seq<char>, Seq<char>)>::empty());
    for i in 0..sheets.len()
        invariant
            all == pairs_view(sheets@),
            pairs_view(out@) == located(all.take(i as int), rels@),
    {
        assert(all.take(i + 1).drop_last() =~= all.take(i as int));
        assert(all.take(i + 1).last() == all[i as int]);
        if let Some(target) = rels.target(sheets[i].1.as_str()) {
            let ghost before = pairs_view(out@);
            let path = resolve_target("xl/", target);
            let name = sheets[i].0.clone();
            let ghost pair = (name@, path@);
            out.push((name, path));
            assert(pairs_view(out@) =~= before.push(pair));
        }
    }
    assert(all.take(all.len() as int) =~= all);
    out
}

/// The sheets of a workbook: name and part, in the order of the workbook.
pub fn parse_workbook(entries: &Entries) -> (r: Vec<(String, String)>)
    ensures
        pairs_view(r@) == workbook_sheets(entries@),
{
    match entries.get("xl/workbook.xml") {
        Some(data) => {
            let sheets = extract_sheets(data);
            let rels = read_rels(entries, "xl/_rels/workbook.xml.rels");
            locate_sheets(&sheets, &rels)
        },
        None => {
            let r: Vec<(String, String)> = Vec::new();
            assert(pairs_view(r@) =~= Seq::<(Seq<char>, Seq<char>)>::empty());
            r
        },
    }
}

} // verus!
