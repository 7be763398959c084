//! XML: the events of a document, the tags in it, and the escaping of text.
//!
//! A document is read with `quick_xml` into a vector of [`XmlEvent`]s. Everything that the
//! library finds in a document it finds in those events.

use quick_xml::events::attributes::Attributes;
use quick_xml::events::{BytesStart, Event};
use quick_xml::Reader;
use vstd::prelude::*;
use vstd::utf8::encode_utf8;

use crate::lines::{
    field_value, fields_clean, law_root_attribute_read_back, reads_back, root_in_order, rooted_text,
    LineView,
};
use crate::text::{
    ends_with, has_suffix, is_text, optional, parse_u32, parse_usize, parsed, same, to_chars,
};

verus! {

/// One attribute of a tag. The value is missing where it is not UTF-8 or holds an escape that
/// XML does not know.
pub struct Attr<T = String> {
    pub key: T,
    pub value: Option<T>,
}

impl View for Attr {
    type V = Attr<Seq<char>>;

    open spec fn view(&self) -> Attr<Seq<char>> {
        Attr { key: self.key@, value: optional(self.value) }
    }
}

/// An attribute, or nothing where the tag holds something malformed in its place.
pub open spec fn item_view(item: Option<Attr>) -> Option<Attr<Seq<char>>> {
    match item {
        Some(a) => Some(a@),
        None => None,
    }
}

/// Attributes and malformed places, in the order of the tag.
pub open spec fn items_view(items: Seq<Option<Attr>>) -> Seq<Option<Attr<Seq<char>>>> {
    Seq::new(items.len(), |i: int| item_view(items[i]))
}

/// A start tag or an empty tag. Names are local names, without a namespace prefix.
pub struct Tag {
    pub name: String,
    /// The attributes, whether or not a name occurs twice.
    pub attributes: Vec<Option<Attr>>,
    /// The attributes, with a malformed place wherever a name occurs again.
    pub unique: Vec<Option<Attr>>,
}

/// What a [`Tag`] holds.
pub struct TagView {
    pub name: Seq<char>,
    pub attributes: Seq<Option<Attr<Seq<char>>>>,
    pub unique: Seq<Option<Attr<Seq<char>>>>,
}

impl View for Tag {
    type V = TagView;

    open spec fn view(&self) -> TagView {
        TagView {
            name: self.name@,
            attributes: items_view(self.attributes@),
            unique: items_view(self.unique@),
        }
    }
}

/// One event of a document.
pub enum XmlEvent {
    /// `<name ...>`
    Start(Tag),
    /// `<name .../>`
    Empty(Tag),
    /// `</name>`
    End(String),
    /// Text between tags, where it can be unescaped.
    Text(Option<String>),
    /// A comment, a declaration, or anything else.
    Other,
}

/// What an [`XmlEvent`] holds.
pub enum EventView {
    Start(TagView),
    Empty(TagView),
    End(Seq<char>),
    Text(Option<Seq<char>>),
    Other,
}

impl View for XmlEvent {
    type V = EventView;

    open spec fn view(&self) -> EventView {
        match *self {
            XmlEvent::Start(t) => EventView::Start(t@),
            XmlEvent::Empty(t) => EventView::Empty(t@),
            XmlEvent::End(n) => EventView::End(n@),
            XmlEvent::Text(t) => EventView::Text(optional(t)),
            XmlEvent::Other => EventView::Other,
        }
    }
}

/// What the events of a slice or a vector hold.
pub open spec fn events_view(events: Seq<XmlEvent>) -> Seq<EventView> {
    Seq::new(events.len(), |i: int| events[i]@)
}

/// The `quick_xml` reader.
#[verifier::external_type_specification]
#[verifier::external_body]
#[verifier::reject_recursive_types(R)]
pub struct ExReader<R>(quick_xml::Reader<R>);

/// The `quick_xml` start tag.
#[verifier::external_type_specification]
#[verifier::external_body]
pub struct ExBytesStart<'a>(quick_xml::events::BytesStart<'a>);

/// The `quick_xml` iterator over the attributes of a tag.
#[verifier::external_type_specification]
#[verifier::external_body]
pub struct ExAttributes<'a>(quick_xml::events::attributes::Attributes<'a>);

/// The `quick_xml` attribute.
#[verifier::external_type_specification]
#[verifier::external_body]
pub struct ExAttribute<'a>(quick_xml::events::attributes::Attribute<'a>);

/// The `quick_xml` error of an attribute.
#[verifier::external_type_specification]
#[verifier::external_body]
pub struct ExAttrError(quick_xml::events::attributes::AttrError);

/// The attributes that an iterator has not handed out yet.
pub uninterp spec fn pending_attributes(it: Attributes<'_>) -> Seq<Option<Attr<Seq<char>>>>;

/// `Attributes::next`: hands out the next attribute. An error is a malformed place; a key that
/// is not UTF-8 has its faulty bytes replaced by U+FFFD; a value is decoded and unescaped with
/// `Attribute::unescape_value`.
#[verifier::external_body]
fn next_attribute(it: &mut Attributes<'_>) -> (r: Option<Option<Attr>>)
    ensures
        match r {
            Some(item) => {
                &&& pending_attributes(*old(it)).len() > 0
                &&& item_view(item) == pending_attributes(*old(it))[0]
                &&& pending_attributes(*final(it)) == pending_attributes(*old(it)).drop_first()
            },
            None => pending_attributes(*old(it)).len() == 0,
        },
{
    it.next().map(
        |a| a.ok().map(
            |a| Attr {
                key: String::from_utf8_lossy(a.key.as_ref()).into_owned(),
                value: a.unescape_value().ok().map(|v| v.into_owned()),
            },
        ),
    )
}

/// The attributes that a start tag holds, with or without a check for names that occur again.
pub uninterp spec fn start_attributes(
    tag: BytesStart<'static>,
    checks: bool,
) -> Seq<Option<Attr<Seq<char>>>>;

/// `BytesStart::attributes` and `Attributes::with_checks`: an iterator over the attributes of
/// the tag.
#[verifier::external_body]
fn attributes_of<'a>(tag: &'a BytesStart<'static>, checks: bool) -> (r: Attributes<'a>)
    ensures
        pending_attributes(r) == start_attributes(*tag, checks),
{
    let mut it = tag.attributes();
    it.with_checks(checks);
    it
}

/// The local name of a start tag.
pub uninterp spec fn start_name(tag: BytesStart<'static>) -> Seq<char>;

/// `BytesStart::local_name`, with faulty bytes replaced by U+FFFD where it is not UTF-8.
#[verifier::external_body]
fn name_of(tag: &BytesStart<'static>) -> (r: String)
    ensures
        r@ == start_name(*tag),
{
    String::from_utf8_lossy(tag.local_name().as_ref()).into_owned()
}

/// What one call of the reader gives.
enum Reading {
    Start(BytesStart<'static>),
    Empty(BytesStart<'static>),
    End(String),
    Text(Option<String>),
    Other,
    /// The document has been read to its end.
    Finished,
    /// The document cannot be read further, for the reason given.
    Broken(String),
}

/// What the library keeps of a start tag.
spec fn start_view(tag: BytesStart<'static>) -> TagView {
    TagView {
        name: start_name(tag),
        attributes: start_attributes(tag, false),
        unique: start_attributes(tag, true),
    }
}

/// The event that a call of the reader gives, if it gives one.
spec fn reading_event(r: Reading) -> Option<EventView> {
    match r {
        Reading::Start(t) => Some(EventView::Start(start_view(t))),
        Reading::Empty(t) => Some(EventView::Empty(start_view(t))),
        Reading::End(n) => Some(EventView::End(n@)),
        Reading::Text(t) => Some(EventView::Text(optional(t))),
        Reading::Other => Some(EventView::Other),
        Reading::Finished => None,
        Reading::Broken(_) => None,
    }
}

/// The events that a reader has still to give before its document ends or breaks off.
pub uninterp spec fn pending_events(reader: Reader<&[u8]>) -> Seq<EventView>;

/// The error with which the document of a reader breaks off, if it does.
pub uninterp spec fn pending_error(reader: Reader<&[u8]>) -> Option<Seq<char>>;

/// `Reader::read_event_into`: gives the next event. Text is unescaped with
/// `BytesText::unescape`, the name of an end tag is its local name.
#[verifier::external_body]
fn read_event(reader: &mut Reader<&[u8]>) -> (r: Reading)
    ensures
        match reading_event(r) {
            Some(e) => {
                &&& pending_events(*old(reader)).len() > 0
                &&& e == pending_events(*old(reader))[0]
                &&& pending_events(*final(reader)) == pending_events(*old(reader)).drop_first()
                &&& pending_error(*final(reader)) == pending_error(*old(reader))
            },
            None => pending_events(*old(reader)).len() == 0,
        },
        r is Finished ==> pending_error(*old(reader)) is None,
        r matches Reading::Broken(m) ==> pending_error(*old(reader)) == Some(m@),
{
    match reader.read_event_into(&mut Vec::new()) {
        Ok(Event::Start(e)) => Reading::Start(e.into_owned()),
        Ok(Event::Empty(e)) => Reading::Empty(e.into_owned()),
        Ok(Event::End(e)) => Reading::End(
            String::from_utf8_lossy(e.local_name().as_ref()).into_owned(),
        ),
        Ok(Event::Text(e)) => Reading::Text(e.unescape().ok().map(|t| t.into_owned())),
        Ok(Event::Eof) => Reading::Finished,
        Ok(_) => Reading::Other,
        Err(e) => Reading::Broken(e.to_string()),
    }
}

/// The events of a document, up to its end or to where it breaks off.
pub uninterp spec fn xml_events(data: Seq<u8>, trim: bool) -> Seq<EventView>;

/// The error with which a document breaks off, if it does.
pub uninterp spec fn xml_error(data: Seq<u8>, trim: bool) -> Option<Seq<char>>;

/// `Reader::from_reader` and `Config::trim_text`: a reader at the beginning of a document.
///
/// A document in order as this library writes it, one tag to a line, is read back with
/// trimming as its tags, with every attribute value as it was before it was escaped. Of a
/// document that begins with such a tag, behind a declaration or none, that tag is read back
/// whatever follows, where it is no end tag.
#[verifier::external_body]
fn open_document(data: &[u8], trim: bool) -> (r: Reader<&[u8]>)
    ensures
        pending_events(r) == xml_events(data@, trim),
        pending_error(r) == xml_error(data@, trim),
        trim ==> reads_back(data@, pending_events(r), pending_error(r)),
{
    let mut reader = Reader::from_reader(data);
    reader.config_mut().trim_text(trim);
    reader
}

/// All attributes of a tag.
fn collect_attributes(tag: &BytesStart<'static>, checks: bool) -> (r: Vec<Option<Attr>>)
    ensures
        items_view(r@) == start_attributes(*tag, checks),
{
    let mut it = attributes_of(tag, checks);
    let ghost all = pending_attributes(it);
    let mut out: Vec<Option<Attr>> = Vec::new();
    assert(items_view(out@) + pending_attributes(it) =~= all);
    loop
        invariant_except_break
            items_view(out@) + pending_attributes(it) == all,
        ensures
            items_view(out@) == all,
        decreases pending_attributes(it).len(),
    {
        let ghost rest = pending_attributes(it);
        match next_attribute(&mut it) {
            Some(item) => {
                let ghost before = items_view(out@);
                out.push(item);
                assert(items_view(out@) =~= before.push(rest[0]));
                assert(before.push(rest[0]) + rest.drop_first() =~= before + rest);
            },
            None => {
                assert(items_view(out@) + rest =~= items_view(out@));
                break ;
            },
        }
    }
    out
}

/// The tag, with its name and its attributes.
fn read_tag(tag: &BytesStart<'static>) -> (r: Tag)
    ensures
        r@ == start_view(*tag),
{
    Tag {
        name: name_of(tag),
        attributes: collect_attributes(tag, false),
        unique: collect_attributes(tag, true),
    }
}

/// A document as it was read: its events, and the error with which it broke off.
pub struct Document {
    pub events: Vec<XmlEvent>,
    pub error: Option<String>,
}

/// Reads a document. With `trim`, white space around text is left out, and text that is
/// nothing else makes no event.
pub fn read_document(data: &[u8], trim: bool) -> (r: Document)
    ensures
        events_view(r.events@) == xml_events(data@, trim),
        optional(r.error) == xml_error(data@, trim),
        trim ==> reads_back(data@, xml_events(data@, trim), xml_error(data@, trim)),
{
    let mut reader = open_document(data, trim);
    let mut events: Vec<XmlEvent> = Vec::new();
    let mut error: Option<String> = None;
    let ghost all = pending_events(reader);
    assert(events_view(events@) + pending_events(reader) =~= all);
    loop
        invariant_except_break
            events_view(events@) + pending_events(reader) == all,
            pending_error(reader) == xml_error(data@, trim),
            error is None,
        invariant
            all == xml_events(data@, trim),
        ensures
            events_view(events@) == all,
            optional(error) == xml_error(data@, trim),
        decreases pending_events(reader).len(),
    {
        let ghost rest = pending_events(reader);
        let event = match read_event(&mut reader) {
            Reading::Start(t) => XmlEvent::Start(read_tag(&t)),
            Reading::Empty(t) => XmlEvent::Empty(read_tag(&t)),
            Reading::End(n) => XmlEvent::End(n),
            Reading::Text(t) => XmlEvent::Text(t),
            Reading::Other => XmlEvent::Other,
            Reading::Finished => {
                assert(events_view(events@) + rest =~= events_view(events@));
                break ;
            },
            Reading::Broken(m) => {
                assert(events_view(events@) + rest =~= events_view(events@));
                error = Some(m);
                break ;
            },
        };
        let ghost before = events_view(events@);
        events.push(event);
        assert(events_view(events@) =~= before.push(rest[0]));
        assert(before.push(rest[0]) + rest.drop_first() =~= before + rest);
    }
    Document { events, error }
}

/// The first attribute named `name`, if none in front of it is malformed.
pub open spec fn find_attribute(
    items: Seq<Option<Attr<Seq<char>>>>,
    name: Seq<char>,
) -> Option<Attr<Seq<char>>>
    decreases items.len(),
{
    if items.len() == 0 {
        None
    } else {
        match items[0] {
            None => None,
            Some(a) => if a.key == name {
                Some(a)
            } else {
                find_attribute(items.drop_first(), name)
            },
        }
    }
}

/// Whether an attribute's name is `name`, with or without a namespace prefix.
pub open spec fn is_qualified(key: Seq<char>, name: Seq<char>) -> bool {
    key == name || ends_with(key, seq![':'] + name)
}

/// The first attribute named `name` with or without a namespace prefix. Malformed places are
/// passed over.
pub open spec fn find_qualified(
    items: Seq<Option<Attr<Seq<char>>>>,
    name: Seq<char>,
) -> Option<Attr<Seq<char>>>
    decreases items.len(),
{
    if items.len() == 0 {
        None
    } else {
        match items[0] {
            Some(a) if is_qualified(a.key, name) => Some(a),
            _ => find_qualified(items.drop_first(), name),
        }
    }
}

impl TagView {
    /// The value of the attribute `name`, where there is one that can be read.
    pub open spec fn attribute(self, name: Seq<char>) -> Option<Seq<char>> {
        match find_attribute(self.attributes, name) {
            Some(a) => a.value,
            None => None,
        }
    }

    /// The number that the attribute `name` writes, up to `limit`.
    pub open spec fn number(self, name: Seq<char>, limit: nat) -> Option<nat> {
        match self.attribute(name) {
            Some(t) => parsed(t, limit),
            None => None,
        }
    }

    /// The number that the attribute `name` writes, where it fits a `u32`; `default` where
    /// there is none.
    pub open spec fn number_or(self, name: Seq<char>, default: nat) -> nat {
        match self.number(name, u32::MAX as nat) {
            Some(n) => n,
            None => default,
        }
    }

    /// The text of the attribute `name`; `default` where there is none.
    pub open spec fn text_or(self, name: Seq<char>, default: Seq<char>) -> Seq<char> {
        match self.attribute(name) {
            Some(t) => t,
            None => default,
        }
    }

    /// The value of the attribute `name` with or without a namespace prefix.
    pub open spec fn qualified(self, name: Seq<char>) -> Option<Seq<char>> {
        match find_qualified(self.unique, name) {
            Some(a) => a.value,
            None => None,
        }
    }
}

/// A copy of an optional text.
pub(crate) fn copy_optional(s: &Option<String>) -> (r: Option<String>)
    ensures
        optional(r) == optional(*s),
{
    match s {
        Some(t) => Some(t.clone()),
        None => None,
    }
}

impl Tag {
    /// The place of the attribute `name`.
    fn position(&self, name: &str) -> (r: Option<usize>)
        ensures
            match r {
                Some(i) => i < self.attributes@.len() && self.attributes@[i as int] is Some
                    && find_attribute(self@.attributes, name@) == item_view(
                    self.attributes@[i as int],
                ),
                None => find_attribute(self@.attributes, name@) is None,
            },
    {
        let ghost all = self@.attributes;
        assert(all.skip(0) =~= all);
        for i in 0..self.attributes.len()
            invariant
                all == items_view(self.attributes@),
                find_attribute(all, name@) == find_attribute(all.skip(i as int), name@),
        {
            assert(all.skip(i as int)[0] == item_view(self.attributes@[i as int]));
            assert(all.skip(i as int).drop_first() =~= all.skip(i + 1));
            match &self.attributes[i] {
                None => {
                    return None;
                },
                Some(a) => {
                    if same(a.key.as_str(), name) {
                        return Some(i);
                    }
                },
            }
        }
        None
    }

    /// Whether there is an attribute `name`, with no malformed one in front of it.
    pub fn has_attribute(&self, name: &str) -> (r: bool)
        ensures
            r == (find_attribute(self@.attributes, name@) is Some),
    {
        self.position(name).is_some()
    }

    /// The value of the attribute `name`, where there is one that can be read.
    pub fn attribute(&self, name: &str) -> (r: Option<String>)
        ensures
            optional(r) == self@.attribute(name@),
    {
        match self.position(name) {
            Some(i) => match &self.attributes[i] {
                Some(a) => copy_optional(&a.value),
                None => None,
            },
            None => None,
        }
    }

    /// The number that the attribute `name` writes, where it fits a `u32`.
    pub fn number(&self, name: &str) -> (r: Option<u32>)
        ensures
            match r {
                Some(n) => self@.number(name@, u32::MAX as nat) == Some(n as nat),
                None => self@.number(name@, u32::MAX as nat) is None,
            },
    {
        match self.attribute(name) {
            Some(t) => parse_u32(t.as_str()),
            None => None,
        }
    }

    /// The number that the attribute `name` writes, where it fits a `usize`.
    pub fn index(&self, name: &str) -> (r: Option<usize>)
        ensures
            match r {
                Some(n) => self@.number(name@, usize::MAX as nat) == Some(n as nat),
                None => self@.number(name@, usize::MAX as nat) is None,
            },
    {
        match self.attribute(name) {
            Some(t) => parse_usize(t.as_str()),
            None => None,
        }
    }

    /// The number that the attribute `name` writes; `default` where there is none.
    pub fn number_or(&self, name: &str, default: u32) -> (r: u32)
        ensures
            r == self@.number_or(name@, default as nat),
    {
        match self.number(name) {
            Some(n) => n,
            None => default,
        }
    }

    /// The text of the attribute `name`; `default` where there is none.
    pub fn text_or(&self, name: &str, default: &str) -> (r: String)
        ensures
            r@ == self@.text_or(name@, default@),
    {
        match self.attribute(name) {
            Some(t) => t,
            None => default.to_owned(),
        }
    }

    /// Whether the attribute `name` is there with the value `value`.
    pub fn says(&self, name: &str, value: &str) -> (r: bool)
        ensures
            r == (self@.attribute(name@) == Some(value@)),
    {
        is_text(&self.attribute(name), value)
    }

    /// The value of the attribute `name` with or without a namespace prefix.
    pub fn qualified(&self, name: &str) -> (r: Option<String>)
        ensures
            optional(r) == self@.qualified(name@),
    {
        let ghost all = self@.unique;
        assert(all.skip(0) =~= all);
        let mut suffix = String::new();
        suffix.push(':');
        suffix.push_str(name);
        assert(suffix@ =~= seq![':'] + name@);
        for i in 0..self.unique.len()
            invariant
                all == items_view(self.unique@),
                all == self@.unique,
                suffix@ == seq![':'] + name@,
                find_qualified(all, name@) == find_qualified(all.skip(i as int), name@),
        {
            assert(all.skip(i as int)[0] == item_view(self.unique@[i as int]));
            assert(all.skip(i as int).drop_first() =~= all.skip(i + 1));
            if let Some(a) = &self.unique[i] {
                if same(a.key.as_str(), name) || has_suffix(a.key.as_str(), suffix.as_str()) {
                    return copy_optional(&a.value);
                }
            }
        }
        None
    }

    /// Whether this is a tag named `name`.
    pub fn is(&self, name: &str) -> (r: bool)
        ensures
            r == (self@.name == name@),
    {
        same(self.name.as_str(), name)
    }
}

/// What stands for `c` in escaped text.
pub open spec fn escaped_char(c: char) -> Seq<char> {
    if c == '&' {
        "&amp;"@
    } else if c == '<' {
        "&lt;"@
    } else if c == '>' {
        "&gt;"@
    } else if c == '"' {
        "&quot;"@
    } else if c == '\'' {
        "&apos;"@
    } else {
        seq![c]
    }
}

/// `s` with the five characters that XML reserves replaced by their entities.
pub open spec fn xml_escaped(s: Seq<char>) -> Seq<char>
    decreases s.len(),
{
    if s.len() == 0 {
        Seq::empty()
    } else {
        xml_escaped(s.drop_last()) + escaped_char(s.last())
    }
}

/// `s` with the five characters that XML reserves replaced by their entities.
pub fn xml_escape(s: &str) -> (r: String)
    ensures
        r@ == xml_escaped(s@),
{
    let a = to_chars(s);
    let mut out = String::new();
    assert(a@.take(0) =~= Seq::<char>::empty());
    for i in 0..a.len()
        invariant
            out@ == xml_escaped(a@.take(i as int)),
    {
        let c = a[i];
        assert(a@.take(i + 1).drop_last() =~= a@.take(i as int));
        assert(a@.take(i + 1).last() == c);
        let ghost before = out@;
        if c == '&' {
            out.push_str("&amp;");
        } else if c == '<' {
            out.push_str("&lt;");
        } else if c == '>' {
            out.push_str("&gt;");
        } else if c == '"' {
            out.push_str("&quot;");
        } else if c == '\'' {
            out.push_str("&apos;");
        } else {
            out.push(c);
            assert(before.push(c) =~= before + seq![c]);
        }
    }
    assert(a@.take(a@.len() as int) =~= a@);
    out
}

/// Escaped text holds no tag delimiters and no quotation marks, so that it can stand between
/// tags and between quotation marks.
pub proof fn law_escaped_text_is_safe(s: Seq<char>)
    ensures
        forall|i: int|
            0 <= i < xml_escaped(s).len() ==> {
                let c = #[trigger] xml_escaped(s)[i];
                c != '<' && c != '>' && c != '"' && c != '\''
            },
    decreases s.len(),
{
    if s.len() > 0 {
        let before = xml_escaped(s.drop_last());
        let last = escaped_char(s.last());
        law_escaped_text_is_safe(s.drop_last());
        reveal_strlit("&amp;");
        reveal_strlit("&lt;");
        reveal_strlit("&gt;");
        reveal_strlit("&quot;");
        reveal_strlit("&apos;");
        assert forall|i: int| 0 <= i < xml_escaped(s).len() implies {
            let c = #[trigger] xml_escaped(s)[i];
            c != '<' && c != '>' && c != '"' && c != '\''
        } by {
            if i < before.len() {
                assert(xml_escaped(s)[i] == before[i]);
            } else {
                assert(xml_escaped(s)[i] == last[i - before.len()]);
            }
        }
    }
}

/// The tag of the first start tag or empty tag among some events.
pub open spec fn root_tag(events: Seq<EventView>) -> Option<TagView>
    decreases events.len(),
{
    if events.len() == 0 {
        None
    } else {
        match events[0] {
            EventView::Start(t) => Some(t),
            EventView::Empty(t) => Some(t),
            _ => root_tag(events.drop_first()),
        }
    }
}

/// The value of an attribute of the root element.
pub open spec fn root_attribute(events: Seq<EventView>, name: Seq<char>) -> Option<Seq<char>> {
    match root_tag(events) {
        Some(t) => t.attribute(name),
        None => None,
    }
}

/// The value of an attribute of the root element, found in the events of a document.
pub fn root_attr_in(events: &[XmlEvent], name: &str) -> (r: Option<String>)
    ensures
        optional(r) == root_attribute(events_view(events@), name@),
{
    let ghost all = events_view(events@);
    assert(all.skip(0) =~= all);
    for i in 0..events.len()
        invariant
            all == events_view(events@),
            root_tag(all) == root_tag(all.skip(i as int)),
    {
        assert(all.skip(i as int)[0] == events@[i as int]@);
        assert(all.skip(i as int).drop_first() =~= all.skip(i + 1));
        match &events[i] {
            XmlEvent::Start(t) => {
                return t.attribute(name);
            },
            XmlEvent::Empty(t) => {
                return t.attribute(name);
            },
            _ => {},
        }
    }
    None
}

/// The value of an attribute of the root element of a document. Where the root tag was written
/// with escaped values, it is the value before it was escaped.
pub fn extract_root_attr(xml: &str, name: &str) -> (r: Option<String>)
    ensures
        optional(r) == root_attribute(xml_events(encode_utf8(xml@), true), name@),
        reads_back(
            encode_utf8(xml@),
            xml_events(encode_utf8(xml@), true),
            xml_error(encode_utf8(xml@), true),
        ),
        forall|prolog: Option<Seq<char>>, l: LineView, rest: Seq<char>|
            xml@ == #[trigger] rooted_text(prolog, l, rest) && root_in_order(prolog, l)
                && fields_clean(l.fields) ==> optional(r) == field_value(l.fields, name@),
{
    let document = read_document(xml.as_bytes(), true);
    proof {
        let events = xml_events(encode_utf8(xml@), true);
        let error = xml_error(encode_utf8(xml@), true);
        assert forall|prolog: Option<Seq<char>>, l: LineView, rest: Seq<char>|
            xml@ == #[trigger] rooted_text(prolog, l, rest) && root_in_order(prolog, l)
                && fields_clean(l.fields) implies root_attribute(events, name@) == field_value(
            l.fields,
            name@,
        ) by {
            law_root_attribute_read_back(prolog, l, rest, events, error, name@);
        }
    }
    root_attr_in(document.events.as_slice(), name)
}

} // verus!
