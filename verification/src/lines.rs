//! XML as the library writes it: one tag to a line.
//!
//! A document is a sequence of lines. Each line has a text, and each has the event as which
//! it is read back.

use vstd::prelude::*;
use vstd::utf8::encode_utf8;

use crate::xml::{
    find_attribute, root_attribute, root_tag, xml_escape, xml_escaped, Attr, EventView, TagView,
};

verus! {

/// One attribute as it is written.
pub struct Field<T = String> {
    pub name: T,
    pub value: T,
    /// Whether the value is written as it stands, without escaping.
    pub raw: bool,
    /// Whether two spaces stand in front of the attribute.
    pub wide: bool,
}

impl View for Field {
    type V = Field<Seq<char>>;

    open spec fn view(&self) -> Field<Seq<char>> {
        Field { name: self.name@, value: self.value@, raw: self.raw, wide: self.wide }
    }
}

/// The three forms of a tag.
#[derive(PartialEq, Eq, Structural, Clone, Copy)]
pub enum Form {
    Open,
    Empty,
    Close,
}

/// One tag on a line of its own.
pub struct Line {
    pub indent: usize,
    pub form: Form,
    pub name: String,
    pub fields: Vec<Field>,
}

/// What a [`Line`] holds.
pub struct LineView {
    pub indent: nat,
    pub form: Form,
    pub name: Seq<char>,
    pub fields: Seq<Field<Seq<char>>>,
}

/// What a sequence of attributes holds.
pub open spec fn fields_view(fields: Seq<Field>) -> Seq<Field<Seq<char>>> {
    Seq::new(fields.len(), |i: int| fields[i]@)
}

impl View for Line {
    type V = LineView;

    open spec fn view(&self) -> LineView {
        LineView {
            indent: self.indent as nat,
            form: self.form,
            name: self.name@,
            fields: fields_view(self.fields@),
        }
    }
}

/// An attribute whose value is escaped.
pub open spec fn text_field(name: Seq<char>, value: Seq<char>) -> Field<Seq<char>> {
    Field { name, value, raw: false, wide: false }
}

/// An attribute whose value is written as it stands.
pub open spec fn raw_field(name: Seq<char>, value: Seq<char>) -> Field<Seq<char>> {
    Field { name, value, raw: true, wide: false }
}

/// A start tag.
pub open spec fn open_line(
    indent: nat,
    name: Seq<char>,
    fields: Seq<Field<Seq<char>>>,
) -> LineView {
    LineView { indent, form: Form::Open, name, fields }
}

/// An empty tag.
pub open spec fn empty_line(
    indent: nat,
    name: Seq<char>,
    fields: Seq<Field<Seq<char>>>,
) -> LineView {
    LineView { indent, form: Form::Empty, name, fields }
}

/// An end tag.
pub open spec fn close_line(indent: nat, name: Seq<char>) -> LineView {
    LineView { indent, form: Form::Close, name, fields: Seq::empty() }
}

/// `n` spaces.
pub open spec fn spaces(n: nat) -> Seq<char> {
    Seq::new(n, |i: int| ' ')
}

/// How an attribute is written.
pub open spec fn field_text(f: Field<Seq<char>>) -> Seq<char> {
    (if f.wide {
        "  "@
    } else {
        " "@
    }) + f.name + "=\""@ + (if f.raw {
        f.value
    } else {
        xml_escaped(f.value)
    }) + "\""@
}

/// How some attributes are written.
pub open spec fn fields_text(fields: Seq<Field<Seq<char>>>) -> Seq<char>
    decreases fields.len(),
{
    if fields.len() == 0 {
        Seq::empty()
    } else {
        fields_text(fields.drop_last()) + field_text(fields.last())
    }
}

/// How a tag is written.
pub open spec fn tag_text(l: LineView) -> Seq<char> {
    let head = (if l.form == Form::Close {
        "</"@
    } else {
        "<"@
    }) + l.name + fields_text(l.fields);
    head + (if l.form == Form::Empty {
        "/>"@
    } else {
        ">"@
    })
}

/// How a line is written.
pub open spec fn line_text(l: LineView) -> Seq<char> {
    spaces(l.indent) + tag_text(l) + "\n"@
}

/// How some lines are written.
pub open spec fn lines_text(lines: Seq<LineView>) -> Seq<char>
    decreases lines.len(),
{
    if lines.len() == 0 {
        Seq::empty()
    } else {
        lines_text(lines.drop_last()) + line_text(lines.last())
    }
}

/// How a document is written: a declaration, then its lines.
pub open spec fn document_text(lines: Seq<LineView>) -> Seq<char> {
    "<?xml version=\"1.0\" encoding=\"UTF-8\"?>\n"@ + lines_text(lines)
}

/// Lines that follow one another are written one behind the other.
pub proof fn lemma_lines_text(a: Seq<LineView>, b: Seq<LineView>)
    ensures
        lines_text(a + b) == lines_text(a) + lines_text(b),
    decreases b.len(),
{
    if b.len() == 0 {
        assert(a + b =~= a);
        assert(lines_text(a) + lines_text(b) =~= lines_text(a));
    } else {
        assert((a + b).drop_last() =~= a + b.drop_last());
        assert((a + b).last() == b.last());
        lemma_lines_text(a, b.drop_last());
        assert(lines_text(a) + lines_text(b.drop_last()) + line_text(b.last()) =~= lines_text(a)
            + (lines_text(b.drop_last()) + line_text(b.last())));
    }
}

/// A single line is written as itself.
pub proof fn lemma_single_line(l: LineView)
    ensures
        lines_text(seq![l]) == line_text(l),
{
    assert(seq![l].drop_last() =~= Seq::<LineView>::empty());
    assert(lines_text(Seq::<LineView>::empty()) + line_text(l) =~= line_text(l));
}

/// The attribute as which a field is read back.
pub open spec fn field_attr(f: Field<Seq<char>>) -> Option<Attr<Seq<char>>> {
    Some(Attr { key: f.name, value: Some(f.value) })
}

/// The attributes as which some fields are read back.
pub open spec fn field_attrs(fields: Seq<Field<Seq<char>>>) -> Seq<Option<Attr<Seq<char>>>> {
    Seq::new(fields.len(), |i: int| field_attr(fields[i]))
}

/// The tag as which a line is read back.
pub open spec fn line_tag(l: LineView) -> TagView {
    TagView {
        name: l.name,
        attributes: field_attrs(l.fields),
        unique: field_attrs(l.fields),
    }
}

/// The event as which a line is read back.
pub open spec fn line_event(l: LineView) -> EventView {
    match l.form {
        Form::Open => EventView::Start(line_tag(l)),
        Form::Empty => EventView::Empty(line_tag(l)),
        Form::Close => EventView::End(l.name),
    }
}

/// The events as which some lines are read back.
pub open spec fn lines_events(lines: Seq<LineView>) -> Seq<EventView> {
    Seq::new(lines.len(), |i: int| line_event(lines[i]))
}

/// The events as which a document is read back: its declaration, then its lines.
pub open spec fn document_events(lines: Seq<LineView>) -> Seq<EventView> {
    seq![EventView::Other] + lines_events(lines)
}

/// Whether a name is made of ASCII letters.
pub open spec fn is_name(s: Seq<char>) -> bool {
    s.len() > 0 && forall|i: int|
        0 <= i < s.len() ==> 'a' <= #[trigger] s[i] <= 'z' || 'A' <= s[i] <= 'Z'
}

/// Whether a text can stand between quotation marks as it is.
pub open spec fn is_plain(s: Seq<char>) -> bool {
    !s.contains('"')
}

/// Whether a line is in order: its names are names and differ, and what is written without
/// escaping holds no quotation mark.
pub open spec fn line_in_order(l: LineView) -> bool {
    &&& is_name(l.name)
    &&& l.form == Form::Close ==> l.fields.len() == 0
    &&& forall|i: int| 0 <= i < l.fields.len() ==> is_name((#[trigger] l.fields[i]).name)
    &&& forall|i: int|
        0 <= i < l.fields.len() && (#[trigger] l.fields[i]).raw ==> is_plain(l.fields[i].value)
    &&& forall|i: int, j: int|
        0 <= i < j < l.fields.len() ==> (#[trigger] l.fields[i]).name != (#[trigger]
        l.fields[j]).name
}

/// The elements that are open after one more line; none where an end tag does not fit.
pub open spec fn nesting_step(open: Option<Seq<Seq<char>>>, l: LineView) -> Option<
    Seq<Seq<char>>,
> {
    match open {
        None => None,
        Some(names) => match l.form {
            Form::Open => Some(names.push(l.name)),
            Form::Empty => Some(names),
            Form::Close => if names.len() > 0 && names.last() == l.name {
                Some(names.drop_last())
            } else {
                None
            },
        },
    }
}

/// The elements that are open after some lines, from those that were open before.
pub open spec fn nesting(open: Option<Seq<Seq<char>>>, lines: Seq<LineView>) -> Option<
    Seq<Seq<char>>,
>
    decreases lines.len(),
{
    if lines.len() == 0 {
        open
    } else {
        nesting_step(nesting(open, lines.drop_last()), lines.last())
    }
}

/// Whether lines are a document in order: every line is, and every element is closed.
pub open spec fn in_order(lines: Seq<LineView>) -> bool {
    &&& forall|i: int| 0 <= i < lines.len() ==> line_in_order(#[trigger] lines[i])
    &&& nesting(Some(Seq::empty()), lines) == Some(Seq::<Seq<char>>::empty())
}

/// Whether attributes hold no ampersand where they are written without escaping.
pub open spec fn fields_clean(fields: Seq<Field<Seq<char>>>) -> bool {
    forall|i: int|
        0 <= i < fields.len() && (#[trigger] fields[i]).raw ==> !fields[i].value.contains('&')
}

/// Whether an event is what a line is read as. Of a line with an ampersand that was not
/// escaped, only the form and the name are known.
pub open spec fn reads_as(e: EventView, l: LineView) -> bool {
    if fields_clean(l.fields) {
        e == line_event(l)
    } else {
        match (l.form, e) {
            (Form::Open, EventView::Start(t)) => t.name == l.name,
            (Form::Empty, EventView::Empty(t)) => t.name == l.name,
            (Form::Close, EventView::End(n)) => n == l.name,
            _ => false,
        }
    }
}

/// Whether events are what a document is read as: its declaration, then its lines.
pub open spec fn read_as(events: Seq<EventView>, lines: Seq<LineView>) -> bool {
    &&& events.len() == lines.len() + 1
    &&& events[0] == EventView::Other
    &&& forall|i: int| 0 <= i < lines.len() ==> reads_as(events[i + 1], #[trigger] lines[i])
}

/// What stands in front of the root element: a declaration on a line of its own, or nothing.
pub open spec fn prolog_text(prolog: Option<Seq<char>>) -> Seq<char> {
    match prolog {
        Some(body) => "<?"@ + body + "?>\n"@,
        None => Seq::empty(),
    }
}

/// Whether a text can stand inside a declaration.
pub open spec fn is_declaration(body: Seq<char>) -> bool {
    body.len() > 0 && !body.contains('?') && !body.contains('>')
}

/// A document that begins with a tag, and goes on in any way behind it.
pub open spec fn rooted_text(prolog: Option<Seq<char>>, l: LineView, rest: Seq<char>) -> Seq<
    char,
> {
    prolog_text(prolog) + spaces(l.indent) + tag_text(l) + rest
}

/// Whether a document begins in order: with a declaration or none, and a start tag or an empty
/// tag.
pub open spec fn root_in_order(prolog: Option<Seq<char>>, l: LineView) -> bool {
    &&& prolog matches Some(body) ==> is_declaration(body)
    &&& line_in_order(l)
    &&& l.form != Form::Close
}

/// Whether events begin with a declaration, if there is one, and what a tag is read as.
pub open spec fn root_read(
    events: Seq<EventView>,
    prolog: Option<Seq<char>>,
    l: LineView,
) -> bool {
    match prolog {
        Some(_) => events.len() > 1 && events[0] == EventView::Other && reads_as(events[1], l),
        None => events.len() > 0 && reads_as(events[0], l),
    }
}

/// Whether these are the events and the error that reading some bytes has to give: all lines
/// where they are a document as this library writes it and in order, the first tag in any case
/// where the beginning is in order.
pub open spec fn reads_back(
    data: Seq<u8>,
    events: Seq<EventView>,
    error: Option<Seq<char>>,
) -> bool {
    &&& forall|lines: Seq<LineView>|
        data == encode_utf8(#[trigger] document_text(lines)) && in_order(lines) ==> read_as(
            events,
            lines,
        ) && error is None
    &&& forall|prolog: Option<Seq<char>>, l: LineView, rest: Seq<char>|
        data == encode_utf8(#[trigger] rooted_text(prolog, l, rest)) && root_in_order(prolog, l)
            ==> root_read(events, prolog, l)
}

/// What stands inside the declaration of a document that this library writes.
pub open spec fn declaration() -> Seq<char> {
    "xml version=\"1.0\" encoding=\"UTF-8\""@
}

/// A document of lines begins with the first of them.
pub(crate) proof fn lemma_document_root(lines: Seq<LineView>)
    requires
        lines.len() > 0,
    ensures
        is_declaration(declaration()),
        document_text(lines) == rooted_text(
            Some(declaration()),
            lines[0],
            "\n"@ + lines_text(lines.skip(1)),
        ),
{
    reveal_strlit("<?xml version=\"1.0\" encoding=\"UTF-8\"?>\n");
    reveal_strlit("xml version=\"1.0\" encoding=\"UTF-8\"");
    reveal_strlit("<?");
    reveal_strlit("?>\n");
    assert("<?xml version=\"1.0\" encoding=\"UTF-8\"?>\n"@ =~= prolog_text(Some(declaration())));
    let first = seq![lines[0]];
    assert(lines =~= first + lines.skip(1));
    lemma_lines_text(first, lines.skip(1));
    lemma_single_line(lines[0]);
    assert(document_text(lines) =~= rooted_text(
        Some(declaration()),
        lines[0],
        "\n"@ + lines_text(lines.skip(1)),
    ));
}

/// The value of the attribute with a name.
pub open spec fn field_value(fields: Seq<Field<Seq<char>>>, name: Seq<char>) -> Option<Seq<char>>
    decreases fields.len(),
{
    if fields.len() == 0 {
        None
    } else if fields[0].name == name {
        Some(fields[0].value)
    } else {
        field_value(fields.drop_first(), name)
    }
}

/// The attribute with a name is read back as the first field with it.
proof fn lemma_field_value(fields: Seq<Field<Seq<char>>>, name: Seq<char>)
    ensures
        find_attribute(field_attrs(fields), name) == (match field_value(fields, name) {
            Some(value) => Some(Attr { key: name, value: Some(value) }),
            None => None,
        }),
    decreases fields.len(),
{
    if fields.len() > 0 {
        assert(field_attrs(fields).drop_first() =~= field_attrs(fields.drop_first()));
        lemma_field_value(fields.drop_first(), name);
    }
}

/// The attributes of the root element of a document are read back as they were before they
/// were escaped, whatever follows the tag. This needs that what is written without escaping
/// holds neither quotation marks nor ampersands.
pub proof fn law_root_attribute_read_back(
    prolog: Option<Seq<char>>,
    l: LineView,
    rest: Seq<char>,
    events: Seq<EventView>,
    error: Option<Seq<char>>,
    name: Seq<char>,
)
    requires
        reads_back(encode_utf8(rooted_text(prolog, l, rest)), events, error),
        root_in_order(prolog, l),
        fields_clean(l.fields),
    ensures
        root_attribute(events, name) == field_value(l.fields, name),
{
    assert(root_read(events, prolog, l));
    lemma_field_value(l.fields, name);
    if prolog is Some {
        assert(root_tag(events) == root_tag(events.drop_first()));
        assert(events.drop_first()[0] == line_event(l));
    }
}

/// A tag's attributes while it is being put together.
pub(crate) fn push_field(fields: &mut Vec<Field>, name: &str, value: String, raw: bool, wide: bool)
    ensures
        fields_view(final(fields)@) == fields_view(old(fields)@).push(
            Field { name: name@, value: value@, raw, wide },
        ),
{
    let f = Field { name: name.to_owned(), value, raw, wide };
    let ghost before = fields_view(fields@);
    let ghost fv = f@;
    fields.push(f);
    assert(fields_view(fields@) =~= before.push(fv));
}

/// Writes attributes.
fn write_fields(fields: &Vec<Field>, out: &mut String)
    ensures
        final(out)@ == old(out)@ + fields_text(fields_view(fields@)),
{
    let ghost all = fields_view(fields@);
    let ghost before = out@;
    assert(all.take(0) =~= Seq::<Field<Seq<char>>>::empty());
    assert(before + fields_text(all.take(0)) =~= before);
    for i in 0..fields.len()
        invariant
            all == fields_view(fields@),
            out@ == before + fields_text(all.take(i as int)),
    {
        let f = &fields[i];
        let ghost so_far = fields_text(all.take(i as int));
        assert(all.take(i + 1).drop_last() =~= all.take(i as int));
        assert(all.take(i + 1).last() == f@);
        if f.wide {
            out.push_str("  ");
        } else {
            out.push_str(" ");
        }
        out.push_str(f.name.as_str());
        out.push_str("=\"");
        if f.raw {
            out.push_str(f.value.as_str());
        } else {
            out.push_str(xml_escape(f.value.as_str()).as_str());
        }
        out.push_str("\"");
        assert(out@ =~= before + (so_far + field_text(f@)));
    }
    assert(all.take(all.len() as int) =~= all);
}

impl Line {
    /// Writes the line behind what is there.
    pub(crate) fn write(&self, out: &mut String)
        ensures
            final(out)@ == old(out)@ + line_text(self@),
    {
        let ghost before = out@;
        assert(before + spaces(0) =~= before);
        for i in 0..self.indent
            invariant
                out@ == before + spaces(i as nat),
        {
            out.push(' ');
            assert((before + spaces(i as nat)).push(' ') =~= before + spaces((i + 1) as nat));
        }
        if self.form == Form::Close {
            out.push_str("</");
        } else {
            out.push_str("<");
        }
        out.push_str(self.name.as_str());
        write_fields(&self.fields, out);
        if self.form == Form::Empty {
            out.push_str("/>");
        } else {
            out.push_str(">");
        }
        out.push_str("\n");
        assert(out@ =~= before + line_text(self@));
    }
}

/// Writes a start tag.
pub(crate) fn write_open(indent: usize, name: &str, fields: Vec<Field>, out: &mut String)
    ensures
        final(out)@ == old(out)@ + line_text(
            open_line(indent as nat, name@, fields_view(fields@)),
        ),
{
    let line = Line { indent, form: Form::Open, name: name.to_owned(), fields };
    line.write(out);
}

/// Writes an empty tag.
pub(crate) fn write_empty(indent: usize, name: &str, fields: Vec<Field>, out: &mut String)
    ensures
        final(out)@ == old(out)@ + line_text(
            empty_line(indent as nat, name@, fields_view(fields@)),
        ),
{
    let line = Line { indent, form: Form::Empty, name: name.to_owned(), fields };
    line.write(out);
}

/// Writes an end tag.
pub(crate) fn write_close(indent: usize, name: &str, out: &mut String)
    ensures
        final(out)@ == old(out)@ + line_text(close_line(indent as nat, name@)),
{
    let line = Line { indent, form: Form::Close, name: name.to_owned(), fields: Vec::new() };
    assert(fields_view(line.fields@) =~= Seq::<Field<Seq<char>>>::empty());
    line.write(out);
}

} // verus!
