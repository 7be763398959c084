//! The parts of an xlsx file, its fingerprint, and bytes as text.
//!
//! An xlsx file is a ZIP archive. It is read once into [`Entries`], from which every part can
//! be had by its name.

use base64::engine::general_purpose::STANDARD;
use base64::Engine;
use std::io::{Cursor, Read};
use vstd::prelude::*;
use zip::ZipArchive;

use crate::text::same;

verus! {

/// The `zip` archive.
#[verifier::external_type_specification]
#[verifier::external_body]
#[verifier::reject_recursive_types(R)]
pub struct ExZipArchive<R>(zip::ZipArchive<R>);

/// The cursor of the standard library.
#[verifier::external_type_specification]
#[verifier::external_body]
#[verifier::reject_recursive_types(T)]
pub struct ExCursor<T>(std::io::Cursor<T>);

/// One place of an archive: the name and the bytes of a part, or the error with which reading
/// it fails.
pub type Place = Result<(Seq<char>, Seq<u8>), Seq<char>>;

/// The places of an archive, in its order.
pub uninterp spec fn archive_places(archive: ZipArchive<Cursor<&[u8]>>) -> Seq<Place>;

/// What the bytes of an archive hold: its places, or the error with which opening it fails.
pub uninterp spec fn zip_places(data: Seq<u8>) -> Result<Seq<Place>, Seq<char>>;

/// `ZipArchive::new`: opens an archive that lies in memory. An error is given by its text.
#[verifier::external_body]
fn open_archive(data: &[u8]) -> (r: Result<ZipArchive<Cursor<&[u8]>>, String>)
    ensures
        match r {
            Ok(a) => zip_places(data@) == Ok::<_, Seq<char>>(archive_places(a)),
            Err(e) => zip_places(data@) == Err::<Seq<Place>, _>(e@),
        },
{
    ZipArchive::new(Cursor::new(data)).map_err(|e| e.to_string())
}

/// `ZipArchive::len`: the number of places.
#[verifier::external_body]
fn archive_len(archive: &ZipArchive<Cursor<&[u8]>>) -> (r: usize)
    ensures
        r == archive_places(*archive).len(),
{
    archive.len()
}

/// What a place of an archive holds.
pub open spec fn place_view(place: Result<(String, Vec<u8>), String>) -> Place {
    match place {
        Ok(part) => Ok((part.0@, part.1@)),
        Err(e) => Err(e@),
    }
}

/// `ZipArchive::by_index`: reads one place, its name and all its bytes. An error of the
/// archive or of the reading is given by its text. The archive stays what it was.
#[verifier::external_body]
fn read_place(archive: &mut ZipArchive<Cursor<&[u8]>>, index: usize) -> (r: Result<
    (String, Vec<u8>),
    String,
>)
    requires
        index < archive_places(*old(archive)).len(),
    ensures
        place_view(r) == archive_places(*old(archive))[index as int],
        archive_places(*final(archive)) == archive_places(*old(archive)),
{
    let mut entry = archive.by_index(index).map_err(|e| e.to_string())?;
    let name = entry.name().to_string();
    let mut data = Vec::new();
    entry.read_to_end(&mut data).map_err(|e| e.to_string())?;
    Ok((name, data))
}

/// The parts of an archive by name. No name occurs twice; the parts stand in the order in
/// which their names first occur.
pub struct Entries {
    parts: Vec<(String, Vec<u8>)>,
}

impl View for Entries {
    type V = Seq<(Seq<char>, Seq<u8>)>;

    closed spec fn view(&self) -> Seq<(Seq<char>, Seq<u8>)> {
        Seq::new(self.parts@.len(), |i: int| (self.parts@[i].0@, self.parts@[i].1@))
    }
}

/// Whether no name occurs twice.
pub open spec fn names_differ(parts: Seq<(Seq<char>, Seq<u8>)>) -> bool {
    forall|i: int, j: int| 0 <= i < j < parts.len() ==> parts[i].0 != parts[j].0
}

/// The place of the first part named `name`; the number of parts where there is none.
pub open spec fn part_index(parts: Seq<(Seq<char>, Seq<u8>)>, name: Seq<char>) -> int
    decreases parts.len(),
{
    if parts.len() == 0 || parts[0].0 == name {
        0
    } else {
        1 + part_index(parts.skip(1), name)
    }
}

/// The bytes of the part named `name`.
pub open spec fn part_named(parts: Seq<(Seq<char>, Seq<u8>)>, name: Seq<char>) -> Option<Seq<u8>> {
    let i = part_index(parts, name);
    if i < parts.len() {
        Some(parts[i].1)
    } else {
        None
    }
}

/// The parts with one more. It takes the place of a part of the same name.
pub open spec fn with_part(
    parts: Seq<(Seq<char>, Seq<u8>)>,
    name: Seq<char>,
    data: Seq<u8>,
) -> Seq<(Seq<char>, Seq<u8>)> {
    let i = part_index(parts, name);
    if i < parts.len() {
        parts.update(i, (name, data))
    } else {
        parts.push((name, data))
    }
}

/// `part_index` is a place up to which no part is named `name`.
proof fn lemma_part_index(parts: Seq<(Seq<char>, Seq<u8>)>, name: Seq<char>)
    ensures
        0 <= part_index(parts, name) <= parts.len(),
        part_index(parts, name) < parts.len() ==> parts[part_index(parts, name)].0 == name,
        forall|i: int| 0 <= i < part_index(parts, name) ==> (#[trigger] parts[i]).0 != name,
    decreases parts.len(),
{
    if parts.len() > 0 && parts[0].0 != name {
        let rest = parts.skip(1);
        lemma_part_index(rest, name);
        assert forall|i: int| 0 <= i < part_index(parts, name) implies (#[trigger] parts[i]).0
            != name by {
            if i > 0 {
                assert(parts[i] == rest[i - 1]);
            }
        }
    }
}

/// A place with that property is `part_index`.
proof fn lemma_part_index_unique(parts: Seq<(Seq<char>, Seq<u8>)>, name: Seq<char>, at: int)
    requires
        0 <= at <= parts.len(),
        at < parts.len() ==> parts[at].0 == name,
        forall|i: int| 0 <= i < at ==> (#[trigger] parts[i]).0 != name,
    ensures
        part_index(parts, name) == at,
{
    lemma_part_index(parts, name);
    let f = part_index(parts, name);
    if f < at {
        assert(parts[f].0 != name);
    } else if at < f {
        assert(parts[at].0 != name);
    }
}

/// Adding a part keeps the names different.
pub proof fn law_with_part_keeps_names_differing(
    parts: Seq<(Seq<char>, Seq<u8>)>,
    name: Seq<char>,
    data: Seq<u8>,
)
    requires
        names_differ(parts),
    ensures
        names_differ(with_part(parts, name, data)),
{
    lemma_part_index(parts, name);
}

/// A part that was added is found under its name, and every other name finds what it found
/// before.
pub proof fn law_part_found(
    parts: Seq<(Seq<char>, Seq<u8>)>,
    name: Seq<char>,
    data: Seq<u8>,
    other: Seq<char>,
)
    ensures
        part_named(with_part(parts, name, data), name) == Some(data),
        other != name ==> part_named(with_part(parts, name, data), other) == part_named(
            parts,
            other,
        ),
{
    let i = part_index(parts, name);
    let after = with_part(parts, name, data);
    lemma_part_index(parts, name);
    lemma_part_index_unique(after, name, i);
    if other != name {
        let j = part_index(parts, other);
        lemma_part_index(parts, other);
        if j < parts.len() {
            lemma_part_index_unique(after, other, j);
        } else {
            lemma_part_index_unique(after, other, after.len() as int);
        }
    }
}

/// The parts at the first places of an archive, or the first error among them.
pub open spec fn parts_of(places: Seq<Place>) -> Result<Seq<(Seq<char>, Seq<u8>)>, Seq<char>>
    decreases places.len(),
{
    if places.len() == 0 {
        Ok(Seq::empty())
    } else {
        match parts_of(places.drop_last()) {
            Err(e) => Err(e),
            Ok(parts) => match places.last() {
                Err(e) => Err(e),
                Ok(part) => Ok(with_part(parts, part.0, part.1)),
            },
        }
    }
}

/// The parts of an archive, or the error with which opening or reading it fails.
pub open spec fn zip_parts(data: Seq<u8>) -> Result<Seq<(Seq<char>, Seq<u8>)>, Seq<char>> {
    match zip_places(data) {
        Ok(places) => parts_of(places),
        Err(e) => Err(e),
    }
}

/// What stays an error when more places follow.
proof fn lemma_parts_error(places: Seq<Place>, n: int)
    requires
        0 <= n <= places.len(),
        parts_of(places.take(n)) is Err,
    ensures
        parts_of(places) == parts_of(places.take(n)),
    decreases places.len() - n,
{
    if n < places.len() {
        assert(places.take(n + 1).drop_last() =~= places.take(n));
        lemma_parts_error(places, n + 1);
    } else {
        assert(places.take(n) =~= places);
    }
}

impl Entries {
    /// Whether no name occurs twice.
    pub closed spec fn wf(self) -> bool {
        names_differ(self@)
    }

    /// No parts.
    pub fn empty() -> (r: Entries)
        ensures
            r.wf(),
            r@ == Seq::<(Seq<char>, Seq<u8>)>::empty(),
    {
        let r = Entries { parts: Vec::new() };
        assert(r@ =~= Seq::<(Seq<char>, Seq<u8>)>::empty());
        r
    }

    /// The number of parts.
    pub fn len(&self) -> (r: usize)
        ensures
            r == self@.len(),
    {
        self.parts.len()
    }

    /// The name of a part.
    pub fn name(&self, index: usize) -> (r: &str)
        requires
            index < self@.len(),
        ensures
            r@ == self@[index as int].0,
    {
        self.parts[index].0.as_str()
    }

    /// The bytes of a part.
    pub fn data(&self, index: usize) -> (r: &[u8])
        requires
            index < self@.len(),
        ensures
            r@ == self@[index as int].1,
    {
        self.parts[index].1.as_slice()
    }

    /// The place of the part named `name`; the number of parts where there is none.
    fn position(&self, name: &str) -> (r: usize)
        ensures
            r == part_index(self@, name@),
            r <= self.parts@.len(),
    {
        for i in 0..self.parts.len()
            invariant
                forall|j: int| 0 <= j < i ==> (#[trigger] self@[j]).0 != name@,
        {
            if same(self.parts[i].0.as_str(), name) {
                proof {
                    lemma_part_index_unique(self@, name@, i as int);
                }
                return i;
            }
        }
        proof {
            lemma_part_index_unique(self@, name@, self@.len() as int);
        }
        self.parts.len()
    }

    /// The bytes of the part named `name`.
    pub fn get(&self, name: &str) -> (r: Option<&[u8]>)
        ensures
            match r {
                Some(d) => part_named(self@, name@) == Some(d@),
                None => part_named(self@, name@) is None,
            },
    {
        let i: usize = self.position(name);
        if i < self.parts.len() {
            Some(self.parts[i].1.as_slice())
        } else {
            None
        }
    }

    /// Adds a part. It takes the place of a part of the same name.
    pub fn insert(&mut self, name: String, data: Vec<u8>)
        requires
            old(self).wf(),
        ensures
            final(self).wf(),
            final(self)@ == with_part(old(self)@, name@, data@),
    {
        let ghost n = name@;
        let ghost d = data@;
        let i: usize = self.position(name.as_str());
        proof {
            law_with_part_keeps_names_differing(self@, n, d);
            lemma_part_index(self@, n);
        }
        if i < self.parts.len() {
            self.parts.set(i, (name, data));
        } else {
            self.parts.push((name, data));
        }
        assert(self@ =~= with_part(old(self)@, n, d));
    }
}

/// Reads all parts of an xlsx file.
pub fn read_zip_entries(bytes: &[u8]) -> (r: Result<Entries, String>)
    ensures
        match r {
            Ok(entries) => entries.wf() && zip_parts(bytes@) == Ok::<_, Seq<char>>(entries@),
            Err(e) => zip_parts(bytes@) == Err::<Seq<(Seq<char>, Seq<u8>)>, _>(e@),
        },
{
    let mut archive = match open_archive(bytes) {
        Ok(a) => a,
        Err(e) => {
            return Err(e);
        },
    };
    let ghost places = archive_places(archive);
    let n: usize = archive_len(&archive);
    let mut entries = Entries::empty();
    assert(places.take(0) =~= Seq::<Place>::empty());
    for i in 0..n
        invariant
            n == places.len(),
            archive_places(archive) == places,
            zip_places(bytes@) == Ok::<_, Seq<char>>(places),
            entries.wf(),
            parts_of(places.take(i as int)) == Ok::<_, Seq<char>>(entries@),
    {
        assert(places.take(i + 1).drop_last() =~= places.take(i as int));
        assert(places.take(i + 1).last() == places[i as int]);
        match read_place(&mut archive, i) {
            Ok((name, data)) => {
                entries.insert(name, data);
            },
            Err(e) => {
                proof {
                    lemma_parts_error(places, i + 1);
                }
                return Err(e);
            },
        }
    }
    assert(places.take(n as int) =~= places);
    Ok(entries)
}

/// The MD5 digest of some bytes, in hexadecimal.
pub uninterp spec fn md5_text(data: Seq<u8>) -> Seq<char>;

/// Whether `c` is a hexadecimal digit in lower case.
pub open spec fn is_low_hex(c: char) -> bool {
    '0' <= c <= '9' || 'a' <= c <= 'f'
}

/// `md5::compute`, its digest formatted with `{:x}`: two digits for each of its 16 bytes.
#[verifier::external_body]
fn md5_hex(bytes: &[u8]) -> (r: String)
    ensures
        r@ == md5_text(bytes@),
        r@.len() == 32,
        forall|i: int| 0 <= i < r@.len() ==> is_low_hex(#[trigger] r@[i]),
{
    format!("{:x}", md5::compute(bytes))
}

/// The fingerprint of a file: the MD5 digest of its bytes in hexadecimal.
pub fn get_file_hash(bytes: &[u8]) -> (r: String)
    ensures
        r@ == md5_text(bytes@),
        r@.len() == 32,
        forall|i: int| 0 <= i < r@.len() ==> is_low_hex(#[trigger] r@[i]),
{
    md5_hex(bytes)
}

/// Some bytes in Base64.
pub uninterp spec fn base64_text(data: Seq<u8>) -> Seq<char>;

/// The bytes that a Base64 text stands for, if it is one.
pub uninterp spec fn base64_bytes(text: Seq<char>) -> Option<Seq<u8>>;

/// Whether `c` occurs in Base64 texts.
pub open spec fn is_base64(c: char) -> bool {
    'A' <= c <= 'Z' || 'a' <= c <= 'z' || '0' <= c <= '9' || c == '+' || c == '/' || c == '='
}

/// Whether a text is bytes in Base64: it is read as them again, it is empty if and only if there
/// are none, and it holds nothing that has to be escaped.
pub open spec fn encodes(text: Seq<char>, data: Seq<u8>) -> bool {
    &&& base64_bytes(text) == Some(data)
    &&& text.len() == 0 <==> data.len() == 0
    &&& !text.contains('"')
    &&& !text.contains('&')
}

/// Some bytes in Base64.
pub(crate) fn to_base64(data: &[u8]) -> (r: String)
    ensures
        r@ == base64_text(data@),
        encodes(r@, data@),
{
    let r = encode_base64(data);
    assert forall|i: int| 0 <= i < r@.len() implies r@[i] != '"' && #[trigger] r@[i] != '&' by {
        assert(is_base64(r@[i]));
    }
    r
}

/// `Engine::encode` with the standard alphabet and padding. Decoding gives the bytes back; no
/// bytes are the empty text, and nothing else is.
#[verifier::external_body]
fn encode_base64(data: &[u8]) -> (r: String)
    ensures
        r@ == base64_text(data@),
        base64_bytes(r@) == Some(data@),
        r@.len() == 0 <==> data@.len() == 0,
        forall|i: int| 0 <= i < r@.len() ==> is_base64(#[trigger] r@[i]),
{
    STANDARD.encode(data)
}

/// The bytes behind an optional vector.
pub open spec fn optional_bytes(data: Option<Vec<u8>>) -> Option<Seq<u8>> {
    match data {
        Some(d) => Some(d@),
        None => None,
    }
}

/// `Engine::decode` with the standard alphabet and padding.
#[verifier::external_body]
pub(crate) fn decode_base64(text: &str) -> (r: Option<Vec<u8>>)
    ensures
        optional_bytes(r) == base64_bytes(text@),
{
    STANDARD.decode(text).ok()
}

} // verus!
