//! The images of a workbook: where they are anchored, how large they are, and their bytes.

use vstd::prelude::*;

use crate::archive::{base64_text, encodes, part_named, to_base64, Entries};
use crate::floats::{pixels_of, read_pixels, readings_view, FloatReading};
use crate::sheet::{images_view, Image};
use crate::text::{
    after_last, begins_with, ends_with, has_prefix, has_suffix, lower_text, optional, parse_u32,
    parsed, same, strip_leading, tail_after, text_of, to_chars, to_lowercase, trim, trimmed,
    without_leading,
};
use crate::workbook::{read_rels, rel_target, rels_part, Rels};
use crate::xml::{
    copy_optional, events_view, read_document, xml_events, EventView, Tag, TagView, XmlEvent,
};

verus! {

/// A drawing while it is being read.
#[verifier::ext_equal]
pub struct DrawingState {
    pub images: Seq<Image<Seq<char>>>,
    pub from_col: u32,
    pub from_row: u32,
    pub to_col: Option<u32>,
    pub to_row: Option<u32>,
    /// The text read last.
    pub text: Seq<char>,
    pub in_from: bool,
    pub in_to: bool,
    pub in_col: bool,
    pub in_row: bool,
    /// The relationship that leads to the image.
    pub embed: Option<Seq<char>>,
    pub width: Option<Seq<char>>,
    pub height: Option<Seq<char>>,
}

/// What is known at the beginning.
pub open spec fn drawing_start() -> DrawingState {
    DrawingState {
        images: Seq::empty(),
        from_col: 0,
        from_row: 0,
        to_col: None,
        to_row: None,
        text: Seq::empty(),
        in_from: false,
        in_to: false,
        in_col: false,
        in_row: false,
        embed: None,
        width: None,
        height: None,
    }
}

/// The part that holds an image: a path from the root of the archive, or one in `xl/media/`.
pub open spec fn media_path(target: Seq<char>) -> Seq<char> {
    if begins_with(target, "/"@) {
        without_leading(target, "/"@)
    } else {
        "xl/media/"@ + without_leading(target, "../media/"@)
    }
}

/// The next number; 0 after the greatest.
pub open spec fn next(n: u32) -> u32 {
    if n < u32::MAX {
        (n + 1) as u32
    } else {
        0
    }
}

/// The next of an optional number.
pub open spec fn next_optional(n: Option<u32>) -> Option<u32> {
    match n {
        Some(n) => Some(next(n)),
        None => None,
    }
}

/// The bytes of the image that has been described so far: those of the part to which its
/// relationship leads.
pub open spec fn embedded(
    s: DrawingState,
    rels: Seq<(Seq<char>, Seq<char>)>,
    parts: Seq<(Seq<char>, Seq<u8>)>,
) -> Option<Seq<u8>> {
    match s.embed {
        Some(rid) => match rel_target(rels, rid) {
            Some(target) => part_named(parts, media_path(target)),
            None => None,
        },
        None => None,
    }
}

/// The image that has been described so far, if its relationship leads to a part. Anchors
/// count rows and columns from 0, images from 1.
pub open spec fn described_image(
    s: DrawingState,
    rels: Seq<(Seq<char>, Seq<char>)>,
    parts: Seq<(Seq<char>, Seq<u8>)>,
) -> Option<Image<Seq<char>>> {
    match s.embed {
        Some(rid) => match rel_target(rels, rid) {
            Some(target) => match part_named(parts, media_path(target)) {
                Some(data) => Some(
                    Image {
                        row: next(s.from_row),
                        col: next(s.from_col),
                        to_row: next_optional(s.to_row),
                        to_col: next_optional(s.to_col),
                        data_b64: base64_text(data),
                        fmt: lower_text(after_last(media_path(target), '.')),
                        width: s.width,
                        height: s.height,
                    },
                ),
                None => None,
            },
            None => None,
        },
        None => None,
    }
}

/// What is known once the image described so far is complete.
pub open spec fn image_done(
    s: DrawingState,
    rels: Seq<(Seq<char>, Seq<char>)>,
    parts: Seq<(Seq<char>, Seq<u8>)>,
) -> DrawingState {
    DrawingState {
        images: match described_image(s, rels, parts) {
            Some(i) => s.images.push(i),
            None => s.images,
        },
        text: s.text,
        in_col: s.in_col,
        in_row: s.in_row,
        ..drawing_start()
    }
}

/// The size that an attribute gives; what it was before where there is no such attribute.
pub open spec fn size_step(
    before: Option<Seq<char>>,
    attribute: Option<Seq<char>>,
    readings: Seq<FloatReading<Seq<char>>>,
) -> Option<Seq<char>> {
    match attribute {
        Some(v) => pixels_of(readings, v),
        None => before,
    }
}

/// Whether a tag of this name begins an anchor, with which the image before it is complete.
pub open spec fn is_anchor(name: Seq<char>) -> bool {
    name == "twoCellAnchor"@ || name == "oneCellAnchor"@ || name == "absoluteAnchor"@
}

/// Whether an image is complete at the end of an element of this name.
pub open spec fn ends_image(name: Seq<char>) -> bool {
    name == "pic"@ || name == "sp"@
}

/// What is known after a start tag or an empty tag.
pub open spec fn drawing_tag(
    s: DrawingState,
    t: TagView,
    rels: Seq<(Seq<char>, Seq<char>)>,
    parts: Seq<(Seq<char>, Seq<u8>)>,
    readings: Seq<FloatReading<Seq<char>>>,
) -> DrawingState {
    if is_anchor(t.name) {
        image_done(s, rels, parts)
    } else if t.name == "from"@ {
        DrawingState { in_from: true, in_to: false, ..s }
    } else if t.name == "to"@ {
        DrawingState { in_to: true, in_from: false, ..s }
    } else if t.name == "col"@ {
        DrawingState { in_col: true, ..s }
    } else if t.name == "row"@ {
        DrawingState { in_row: true, ..s }
    } else if t.name == "blip"@ {
        DrawingState { embed: t.qualified("embed"@), ..s }
    } else if t.name == "ext"@ {
        DrawingState {
            width: size_step(s.width, t.attribute("cx"@), readings),
            height: size_step(s.height, t.attribute("cy"@), readings),
            ..s
        }
    } else {
        s
    }
}

/// What is known after text. It is a number of a column or a row inside those elements.
pub open spec fn drawing_text(s: DrawingState, text: Option<Seq<char>>) -> DrawingState {
    let t = match text {
        Some(t) => trimmed(t),
        None => s.text,
    };
    let n = match parsed(t, u32::MAX as nat) {
        Some(n) => n as u32,
        None => 0,
    };
    DrawingState {
        text: t,
        from_col: if s.in_col && s.in_from {
            n
        } else {
            s.from_col
        },
        to_col: if s.in_col && !s.in_from && s.in_to {
            Some(n)
        } else {
            s.to_col
        },
        from_row: if s.in_row && s.in_from {
            n
        } else {
            s.from_row
        },
        to_row: if s.in_row && !s.in_from && s.in_to {
            Some(n)
        } else {
            s.to_row
        },
        ..s
    }
}

/// What is known after an end tag.
pub open spec fn drawing_end(
    s: DrawingState,
    name: Seq<char>,
    rels: Seq<(Seq<char>, Seq<char>)>,
    parts: Seq<(Seq<char>, Seq<u8>)>,
) -> DrawingState {
    if name == "col"@ {
        DrawingState { in_col: false, ..s }
    } else if name == "row"@ {
        DrawingState { in_row: false, ..s }
    } else if name == "from"@ {
        DrawingState { in_from: false, ..s }
    } else if name == "to"@ {
        DrawingState { in_to: false, ..s }
    } else if ends_image(name) {
        image_done(s, rels, parts)
    } else {
        s
    }
}

/// What is known after some events.
pub open spec fn drawing_state(
    events: Seq<EventView>,
    rels: Seq<(Seq<char>, Seq<char>)>,
    parts: Seq<(Seq<char>, Seq<u8>)>,
    readings: Seq<FloatReading<Seq<char>>>,
) -> DrawingState
    decreases events.len(),
{
    if events.len() == 0 {
        drawing_start()
    } else {
        let s = drawing_state(events.drop_last(), rels, parts, readings);
        match events.last() {
            EventView::Start(t) => drawing_tag(s, t, rels, parts, readings),
            EventView::Empty(t) => drawing_tag(s, t, rels, parts, readings),
            EventView::Text(t) => drawing_text(s, t),
            EventView::End(n) => drawing_end(s, n, rels, parts),
            EventView::Other => s,
        }
    }
}

/// The images that the events of a drawing describe. The last one is complete at the end.
pub open spec fn images_of(
    events: Seq<EventView>,
    rels: Seq<(Seq<char>, Seq<char>)>,
    parts: Seq<(Seq<char>, Seq<u8>)>,
    readings: Seq<FloatReading<Seq<char>>>,
) -> Seq<Image<Seq<char>>> {
    image_done(drawing_state(events, rels, parts, readings), rels, parts).images
}

/// Whether the image described so far is complete at an event.
pub open spec fn completes(e: EventView) -> bool {
    match e {
        EventView::Start(t) => is_anchor(t.name),
        EventView::Empty(t) => is_anchor(t.name),
        EventView::End(n) => ends_image(n),
        _ => false,
    }
}

/// The bytes of images with those of one more, if there is one.
pub open spec fn with_media(media: Seq<Seq<u8>>, data: Option<Seq<u8>>) -> Seq<Seq<u8>> {
    match data {
        Some(data) => media.push(data),
        None => media,
    }
}

/// The bytes of the images that are complete after some events, one by one.
pub open spec fn media_state(
    events: Seq<EventView>,
    rels: Seq<(Seq<char>, Seq<char>)>,
    parts: Seq<(Seq<char>, Seq<u8>)>,
    readings: Seq<FloatReading<Seq<char>>>,
) -> Seq<Seq<u8>>
    decreases events.len(),
{
    if events.len() == 0 {
        Seq::empty()
    } else {
        let before = media_state(events.drop_last(), rels, parts, readings);
        if completes(events.last()) {
            let s = drawing_state(events.drop_last(), rels, parts, readings);
            with_media(before, embedded(s, rels, parts))
        } else {
            before
        }
    }
}

/// The bytes of the images that the events of a drawing describe, one by one.
pub open spec fn media_of(
    events: Seq<EventView>,
    rels: Seq<(Seq<char>, Seq<char>)>,
    parts: Seq<(Seq<char>, Seq<u8>)>,
    readings: Seq<FloatReading<Seq<char>>>,
) -> Seq<Seq<u8>> {
    with_media(
        media_state(events, rels, parts, readings),
        embedded(drawing_state(events, rels, parts, readings), rels, parts),
    )
}

/// Whether the data of some images are these bytes in Base64, one by one, so that they are read
/// as them again and need no escaping.
pub open spec fn all_encode(images: Seq<Image<Seq<char>>>, media: Seq<Seq<u8>>) -> bool {
    &&& images.len() == media.len()
    &&& forall|i: int|
        0 <= i < images.len() ==> encodes((#[trigger] images[i]).data_b64, media[i])
}

/// Images of which one more is known.
proof fn lemma_all_encode_push(
    images: Seq<Image<Seq<char>>>,
    media: Seq<Seq<u8>>,
    image: Image<Seq<char>>,
    data: Seq<u8>,
)
    requires
        all_encode(images, media),
        encodes(image.data_b64, data),
    ensures
        all_encode(images.push(image), media.push(data)),
{
    let all = images.push(image);
    assert forall|i: int| 0 <= i < all.len() implies encodes(
        (#[trigger] all[i]).data_b64,
        media.push(data)[i],
    ) by {
        if i < images.len() {
            assert(all[i] == images[i]);
        }
    }
}

/// Images behind images.
proof fn lemma_all_encode_append(
    a: Seq<Image<Seq<char>>>,
    m: Seq<Seq<u8>>,
    b: Seq<Image<Seq<char>>>,
    n: Seq<Seq<u8>>,
)
    requires
        all_encode(a, m),
        all_encode(b, n),
    ensures
        all_encode(a + b, m + n),
{
    let all = a + b;
    assert forall|i: int| 0 <= i < all.len() implies encodes(
        (#[trigger] all[i]).data_b64,
        (m + n)[i],
    ) by {
        if i < a.len() {
            assert(all[i] == a[i]);
        } else {
            assert(all[i] == b[i - a.len()]);
        }
    }
}

/// Whether a part is a drawing.
pub open spec fn is_drawing(name: Seq<char>) -> bool {
    begins_with(name, "xl/drawings/drawing"@) && ends_with(name, ".xml"@)
}

/// The part with the relationships of a drawing.
pub open spec fn drawing_rels_name(name: Seq<char>) -> Seq<char> {
    "xl/drawings/_rels/"@ + name.skip("xl/drawings/"@.len() as int) + ".rels"@
}

/// The images of the drawings among the first parts.
pub open spec fn images_of_first(
    n: nat,
    parts: Seq<(Seq<char>, Seq<u8>)>,
    readings: Seq<FloatReading<Seq<char>>>,
) -> Seq<Image<Seq<char>>>
    decreases n,
{
    if n == 0 {
        Seq::empty()
    } else {
        let before = images_of_first((n - 1) as nat, parts, readings);
        let (name, data) = parts[n - 1];
        if is_drawing(name) {
            before + images_of(
                xml_events(data, true),
                rels_part(parts, drawing_rels_name(name)),
                parts,
                readings,
            )
        } else {
            before
        }
    }
}

/// The images of all drawings of a workbook, in the order of its parts.
pub open spec fn drawing_images(
    parts: Seq<(Seq<char>, Seq<u8>)>,
    readings: Seq<FloatReading<Seq<char>>>,
) -> Seq<Image<Seq<char>>> {
    images_of_first(parts.len(), parts, readings)
}

/// The bytes of the images of the drawings among the first parts, one by one.
pub open spec fn media_of_first(
    n: nat,
    parts: Seq<(Seq<char>, Seq<u8>)>,
    readings: Seq<FloatReading<Seq<char>>>,
) -> Seq<Seq<u8>>
    decreases n,
{
    if n == 0 {
        Seq::empty()
    } else {
        let before = media_of_first((n - 1) as nat, parts, readings);
        let (name, data) = parts[n - 1];
        if is_drawing(name) {
            before + media_of(
                xml_events(data, true),
                rels_part(parts, drawing_rels_name(name)),
                parts,
                readings,
            )
        } else {
            before
        }
    }
}

/// The bytes of the images of all drawings of a workbook, one by one.
pub open spec fn drawing_media(
    parts: Seq<(Seq<char>, Seq<u8>)>,
    readings: Seq<FloatReading<Seq<char>>>,
) -> Seq<Seq<u8>> {
    media_of_first(parts.len(), parts, readings)
}

/// A drawing while it is being read.
struct DrawingReader<'a> {
    images: Vec<Image>,
    from_col: u32,
    from_row: u32,
    to_col: Option<u32>,
    to_row: Option<u32>,
    text: String,
    in_from: bool,
    in_to: bool,
    in_col: bool,
    in_row: bool,
    embed: Option<String>,
    width: Option<String>,
    height: Option<String>,
    rels: &'a Rels,
    entries: &'a Entries,
}

/// The part that holds an image.
fn find_media(target: &str) -> (r: String)
    ensures
        r@ == media_path(target@),
{
    proof {
        reveal_strlit("/");
        reveal_strlit("../media/");
    }
    if has_prefix(target, "/") {
        strip_leading(target, "/")
    } else {
        let mut path = "xl/media/".to_owned();
        path.push_str(strip_leading(target, "../media/").as_str());
        path
    }
}

/// The next number.
fn count_up(n: u32) -> (r: u32)
    ensures
        r == next(n),
{
    n.wrapping_add(1)
}

/// The next of an optional number.
fn count_up_optional(n: Option<u32>) -> (r: Option<u32>)
    ensures
        r == next_optional(n),
{
    match n {
        Some(n) => Some(count_up(n)),
        None => None,
    }
}

impl<'a> DrawingReader<'a> {
    spec fn state(self) -> DrawingState {
        DrawingState {
            images: images_view(self.images@),
            from_col: self.from_col,
            from_row: self.from_row,
            to_col: self.to_col,
            to_row: self.to_row,
            text: self.text@,
            in_from: self.in_from,
            in_to: self.in_to,
            in_col: self.in_col,
            in_row: self.in_row,
            embed: optional(self.embed),
            width: optional(self.width),
            height: optional(self.height),
        }
    }

    /// The image that has been described so far.
    fn described(&self) -> (r: Option<Image>)
        ensures
            match r {
                Some(i) => described_image(self.state(), self.rels@, self.entries@) == Some(i@)
                    && embedded(self.state(), self.rels@, self.entries@) is Some && encodes(
                    i@.data_b64,
                    embedded(self.state(), self.rels@, self.entries@)->0,
                ),
                None => described_image(self.state(), self.rels@, self.entries@) is None,
            },
    {
        let rid = match &self.embed {
            Some(rid) => rid,
            None => {
                return None;
            },
        };
        let target = match self.rels.target(rid.as_str()) {
            Some(target) => target,
            None => {
                return None;
            },
        };
        let path = find_media(target);
        match self.entries.get(path.as_str()) {
            Some(data) => Some(
                Image {
                    row: count_up(self.from_row),
                    col: count_up(self.from_col),
                    to_row: count_up_optional(self.to_row),
                    to_col: count_up_optional(self.to_col),
                    data_b64: to_base64(data),
                    fmt: to_lowercase(tail_after(path.as_str(), '.').as_str()),
                    width: copy_optional(&self.width),
                    height: copy_optional(&self.height),
                },
            ),
            None => None,
        }
    }

    /// Completes the image described so far.
    fn push_image(&mut self)
        ensures
            final(self).rels == old(self).rels,
            final(self).entries == old(self).entries,
            final(self).state() == image_done(
                old(self).state(),
                old(self).rels@,
                old(self).entries@,
            ),
            forall|media: Seq<Seq<u8>>| #[trigger]
                all_encode(old(self).state().images, media) ==> all_encode(
                    final(self).state().images,
                    with_media(
                        media,
                        embedded(old(self).state(), old(self).rels@, old(self).entries@),
                    ),
                ),
    {
        if let Some(image) = self.described() {
            let ghost before = images_view(self.images@);
            let ghost iv = image@;
            let ghost data = embedded(self.state(), self.rels@, self.entries@)->0;
            self.images.push(image);
            assert(images_view(self.images@) =~= before.push(iv));
            proof {
                assert forall|media: Seq<Seq<u8>>| #[trigger] all_encode(
                    before,
                    media,
                ) implies all_encode(before.push(iv), media.push(data)) by {
                    lemma_all_encode_push(before, media, iv, data);
                }
            }
        }
        self.embed = None;
        self.from_col = 0;
        self.from_row = 0;
        self.to_col = None;
        self.to_row = None;
        self.width = None;
        self.height = None;
        self.in_from = false;
        self.in_to = false;
    }

    /// Takes in a start tag or an empty tag.
    fn tag(&mut self, t: &Tag, readings: &[FloatReading])
        ensures
            final(self).rels == old(self).rels,
            final(self).entries == old(self).entries,
            final(self).state() == drawing_tag(
                old(self).state(),
                t@,
                old(self).rels@,
                old(self).entries@,
                readings_view(readings@),
            ),
            !is_anchor(t@.name) ==> final(self).state().images == old(self).state().images,
            is_anchor(t@.name) ==> forall|media: Seq<Seq<u8>>| #[trigger]
                all_encode(old(self).state().images, media) ==> all_encode(
                    final(self).state().images,
                    with_media(
                        media,
                        embedded(old(self).state(), old(self).rels@, old(self).entries@),
                    ),
                ),
    {
        if t.is("twoCellAnchor") || t.is("oneCellAnchor") || t.is("absoluteAnchor") {
            self.push_image();
        } else if t.is("from") {
            self.in_from = true;
            self.in_to = false;
        } else if t.is("to") {
            self.in_to = true;
            self.in_from = false;
        } else if t.is("col") {
            self.in_col = true;
        } else if t.is("row") {
            self.in_row = true;
        } else if t.is("blip") {
            self.embed = t.qualified("embed");
        } else if t.is("ext") {
            if let Some(v) = t.attribute("cx") {
                self.width = read_pixels(readings, v.as_str());
            }
            if let Some(v) = t.attribute("cy") {
                self.height = read_pixels(readings, v.as_str());
            }
        }
    }

    /// Takes in text.
    fn take_text(&mut self, text: &Option<String>)
        ensures
            final(self).rels == old(self).rels,
            final(self).entries == old(self).entries,
            final(self).state() == drawing_text(old(self).state(), optional(*text)),
    {
        if let Some(s) = text {
            self.text = trim(s.as_str());
        }
        let n: u32 = match parse_u32(self.text.as_str()) {
            Some(n) => n,
            None => 0,
        };
        if self.in_col {
            if self.in_from {
                self.from_col = n;
            } else if self.in_to {
                self.to_col = Some(n);
            }
        }
        if self.in_row {
            if self.in_from {
                self.from_row = n;
            } else if self.in_to {
                self.to_row = Some(n);
            }
        }
    }

    /// Takes in an end tag.
    fn end(&mut self, name: &str)
        ensures
            final(self).rels == old(self).rels,
            final(self).entries == old(self).entries,
            final(self).state() == drawing_end(
                old(self).state(),
                name@,
                old(self).rels@,
                old(self).entries@,
            ),
            !ends_image(name@) ==> final(self).state().images == old(self).state().images,
            ends_image(name@) ==> forall|media: Seq<Seq<u8>>| #[trigger]
                all_encode(old(self).state().images, media) ==> all_encode(
                    final(self).state().images,
                    with_media(
                        media,
                        embedded(old(self).state(), old(self).rels@, old(self).entries@),
                    ),
                ),
    {
        proof {
            lemma_end_names();
        }
        if same(name, "col") {
            self.in_col = false;
        } else if same(name, "row") {
            self.in_row = false;
        } else if same(name, "from") {
            self.in_from = false;
        } else if same(name, "to") {
            self.in_to = false;
        } else if same(name, "pic") || same(name, "sp") {
            self.push_image();
        }
    }
}

/// The names at whose end an image is complete are none of the others.
proof fn lemma_end_names()
    ensures
        forall|n: Seq<char>| #[trigger]
            ends_image(n) ==> n != "col"@ && n != "row"@ && n != "from"@ && n != "to"@,
{
    reveal_strlit("pic");
    reveal_strlit("sp");
    reveal_strlit("col");
    reveal_strlit("row");
    reveal_strlit("from");
    reveal_strlit("to");
    assert("pic"@[0] == 'p' && "sp"@[0] == 's' && "col"@[0] == 'c' && "row"@[0] == 'r');
    assert("pic"@.len() == 3 && "sp"@.len() == 2 && "from"@.len() == 4 && "to"@.len() == 2);
    assert("col"@.len() == 3 && "row"@.len() == 3 && "to"@[0] == 't');
}

/// The images that the events of a drawing describe. The data of each are the bytes of the part
/// to which its relationship leads.
pub fn images_in(
    events: &[XmlEvent],
    rels: &Rels,
    entries: &Entries,
    readings: &[FloatReading],
) -> (r: Vec<Image>)
    ensures
        images_view(r@) == images_of(
            events_view(events@),
            rels@,
            entries@,
            readings_view(readings@),
        ),
        all_encode(
            images_view(r@),
            media_of(events_view(events@), rels@, entries@, readings_view(readings@)),
        ),
{
    let mut reader = DrawingReader {
        images: Vec::new(),
        from_col: 0,
        from_row: 0,
        to_col: None,
        to_row: None,
        text: String::new(),
        in_from: false,
        in_to: false,
        in_col: false,
        in_row: false,
        embed: None,
        width: None,
        height: None,
        rels,
        entries,
    };
    let ghost all = events_view(events@);
    let ghost table = readings_view(readings@);
    assert(all.take(0) =~= Seq::<EventView>::empty());
    assert(reader.state() =~= drawing_start());
    for i in 0..events.len()
        invariant
            all == events_view(events@),
            table == readings_view(readings@),
            reader.rels == rels,
            reader.entries == entries,
            reader.state() == drawing_state(all.take(i as int), rels@, entries@, table),
            all_encode(
                reader.state().images,
                media_state(all.take(i as int), rels@, entries@, table),
            ),
    {
        let ghost media = media_state(all.take(i as int), rels@, entries@, table);
        assert(all_encode(reader.state().images, media));
        assert(all.take(i + 1).drop_last() =~= all.take(i as int));
        assert(all.take(i + 1).last() == events@[i as int]@);
        match &events[i] {
            XmlEvent::Start(t) => reader.tag(t, readings),
            XmlEvent::Empty(t) => reader.tag(t, readings),
            XmlEvent::End(n) => reader.end(n.as_str()),
            XmlEvent::Text(t) => reader.take_text(t),
            XmlEvent::Other => {},
        }
    }
    assert(all.take(all.len() as int) =~= all);
    reader.push_image();
    reader.images
}

/// Adds the images of a drawing to those found before.
pub fn parse_drawing_images(
    data: &[u8],
    rels: &Rels,
    entries: &Entries,
    readings: &[FloatReading],
    images: &mut Vec<Image>,
)
    ensures
        images_view(final(images)@) == images_view(old(images)@) + images_of(
            xml_events(data@, true),
            rels@,
            entries@,
            readings_view(readings@),
        ),
        all_encode(
            images_of(xml_events(data@, true), rels@, entries@, readings_view(readings@)),
            media_of(xml_events(data@, true), rels@, entries@, readings_view(readings@)),
        ),
{
    let document = read_document(data, true);
    let mut found = images_in(document.events.as_slice(), rels, entries, readings);
    let ghost before = images_view(images@);
    let ghost new = images_view(found@);
    images.append(&mut found);
    assert(images_view(images@) =~= before + new);
}

/// The part with the relationships of a drawing.
fn find_drawing_rels(name: &str) -> (r: String)
    requires
        is_drawing(name@),
    ensures
        r@ == drawing_rels_name(name@),
{
    proof {
        reveal_strlit("xl/drawings/");
        reveal_strlit("xl/drawings/drawing");
    }
    let a = to_chars(name);
    let from: usize = 12;
    let mut out = "xl/drawings/_rels/".to_owned();
    out.push_str(text_of(&a, from, a.len()).as_str());
    out.push_str(".rels");
    assert(name@.skip(12) =~= name@.subrange(12, name@.len() as int));
    out
}

/// The images of all drawings of a workbook.
pub fn parse_images_for_drawing(entries: &Entries, readings: &[FloatReading]) -> (r: Vec<Image>)
    ensures
        images_view(r@) == drawing_images(entries@, readings_view(readings@)),
        all_encode(images_view(r@), drawing_media(entries@, readings_view(readings@))),
{
    let mut images: Vec<Image> = Vec::new();
    let ghost parts = entries@;
    let ghost table = readings_view(readings@);
    assert(images_view(images@) =~= Seq::<Image<Seq<char>>>::empty());
    let n: usize = entries.len();
    for i in 0..n
        invariant
            n == parts.len(),
            parts == entries@,
            table == readings_view(readings@),
            images_view(images@) == images_of_first(i as nat, parts, table),
            all_encode(images_view(images@), media_of_first(i as nat, parts, table)),
    {
        let ghost before = images_view(images@);
        let ghost media = media_of_first(i as nat, parts, table);
        let name = entries.name(i);
        if has_prefix(name, "xl/drawings/drawing") && has_suffix(name, ".xml") {
            let rels = read_rels(entries, find_drawing_rels(name).as_str());
            parse_drawing_images(entries.data(i), &rels, entries, readings, &mut images);
            proof {
                let events = xml_events(parts[i as int].1, true);
                lemma_all_encode_append(
                    before,
                    media,
                    images_of(events, rels@, parts, table),
                    media_of(events, rels@, parts, table),
                );
            }
        }
    }
    images
}

} // verus!
