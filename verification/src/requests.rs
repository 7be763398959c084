//! What a request may name, and how it is answered.

use std::path::{Component, Path};
use vstd::prelude::*;
use vstd::utf8::encode_utf8;

use crate::text::{ends_with, has_char, has_part, holds, text_of, texts, to_chars};
use crate::xml::{read_document, xml_error};

verus! {

/// What a part of a path is: the name of a file or a directory, or something else, such as
/// the root or the directory itself.
#[derive(PartialEq, Eq, Structural, Clone, Copy, Debug)]
pub enum PartKind {
    Normal,
    Other,
}

/// Whether a text is a single name wherever it is used as a path: it is not empty, not `.` or
/// `..`, and holds no separator and no colon, which may end a drive letter.
pub open spec fn is_single_name(part: Seq<char>) -> bool {
    &&& part.len() > 0
    &&& part != seq!['.']
    &&& part != seq!['.', '.']
    &&& !part.contains('/')
    &&& !part.contains('\\')
    &&& !part.contains(':')
}

/// `Path::components`: what the platform takes the parts of a path to be. A single name is
/// one normal part; a point is the directory itself. What any other text is taken for differs
/// between platforms, so that nothing is promised of it.
#[verifier::external_body]
fn path_parts(part: &str) -> (r: Vec<PartKind>)
    ensures
        is_single_name(part@) ==> r@ == seq![PartKind::Normal],
        part@ == seq!['.'] ==> r@ == seq![PartKind::Other],
{
    Path::new(part).components().map(
        |c| match c {
            Component::Normal(_) => PartKind::Normal,
            _ => PartKind::Other,
        },
    ).collect()
}

/// Whether a part of a request may become part of a path: it is not empty, holds no `..` and
/// no separator, and the platform takes it for exactly one name.
pub open spec fn safe_part(part: Seq<char>, kinds: Seq<PartKind>) -> bool {
    &&& part.len() > 0
    &&& !part.contains('/')
    &&& !part.contains('\\')
    &&& !holds(part, seq!['.', '.'])
    &&& kinds == seq![PartKind::Normal]
}

/// Whether a part of a request may become part of a path, given what the platform takes it
/// for.
pub fn part_is_safe(part: &str, kinds: &[PartKind]) -> (r: bool)
    ensures
        r == safe_part(part@, kinds@),
{
    proof {
        reveal_strlit("..");
        assert(".."@ =~= seq!['.', '.']);
        assert(kinds@.len() == 1 && kinds@[0] == PartKind::Normal ==> kinds@ =~= seq![
            PartKind::Normal,
        ]);
    }
    !part.is_empty() && !has_char(part, '/') && !has_char(part, '\\') && !has_part(part, "..")
        && kinds.len() == 1 && kinds[0] == PartKind::Normal
}

/// Whether a part of a request may become part of a path as far as its text decides: it is
/// not empty, not `.`, and holds neither `..` nor a separator.
pub open spec fn allowed_part(part: Seq<char>) -> bool {
    &&& part.len() > 0
    &&& part != seq!['.']
    &&& !part.contains('/')
    &&& !part.contains('\\')
    &&& !holds(part, seq!['.', '.'])
}

/// Whether the parts of a request may become a path. Every part is allowed by its text where
/// they may. They may where none holds a colon either; what a colon stands for is left to the
/// platform.
pub fn safe_path(parts: &[&str]) -> (r: bool)
    ensures
        r ==> forall|i: int| 0 <= i < parts@.len() ==> allowed_part((#[trigger] parts@[i])@),
        (forall|i: int|
            0 <= i < parts@.len() ==> allowed_part((#[trigger] parts@[i])@)
                && !parts@[i]@.contains(':')) ==> r,
{
    for i in 0..parts.len()
        invariant
            forall|j: int| 0 <= j < i ==> allowed_part((#[trigger] parts@[j])@),
    {
        let part = parts[i];
        let kinds = path_parts(part);
        let safe = part_is_safe(part, kinds.as_slice());
        proof {
            assert(part@ == parts@[i as int]@);
            assert(seq![PartKind::Normal][0] != seq![PartKind::Other][0]);
            let up = seq!['.', '.'];
            if part@ == up {
                assert(part@.subrange(0int, 0int + up.len()) =~= up);
                assert(holds(part@, up));
            }
            if allowed_part(part@) && !part@.contains(':') {
                assert(is_single_name(part@));
                assert(safe);
            }
        }
        if !safe {
            return false;
        }
    }
    true
}

/// The position of the last point in a name; nothing where there is none, or none but the
/// first character.
pub open spec fn extension_at(name: Seq<char>) -> Option<int>
    decreases name.len(),
{
    if name.len() <= 1 {
        None
    } else if name.last() == '.' {
        Some(name.len() - 1)
    } else {
        extension_at(name.drop_last())
    }
}

/// A name without its extension.
pub open spec fn stem(name: Seq<char>) -> Seq<char> {
    match extension_at(name) {
        Some(i) => name.take(i),
        None => name,
    }
}

/// The name under which the document of a workbook is cached: its own, with the extension
/// `xml`.
pub open spec fn cache_name(name: Seq<char>) -> Seq<char> {
    stem(name) + ".xml"@
}

/// The name under which the document of a workbook is cached.
pub fn cache_path(name: &str) -> (r: String)
    ensures
        r@ == cache_name(name@),
{
    let a = to_chars(name);
    let mut i: usize = a.len();
    assert(name@.take(name@.len() as int) =~= name@);
    while i > 1 && a[i - 1] != '.'
        invariant
            a@ == name@,
            i <= name@.len(),
            extension_at(name@) == extension_at(name@.take(i as int)),
        decreases i,
    {
        assert(name@.take(i as int).last() == name@[i - 1]);
        assert(name@.take(i as int).drop_last() =~= name@.take(i - 1));
        i = i - 1;
    }
    let end: usize = if i > 1 {
        assert(name@.take(i as int).last() == name@[i - 1]);
        i - 1
    } else {
        a.len()
    };
    let mut out = text_of(&a, 0, end);
    assert(out@ =~= stem(name@));
    out.push_str(".xml");
    out
}

/// Where the extension of a workbook stands.
proof fn lemma_workbook_stem(name: Seq<char>)
    requires
        name.len() > 5,
        ends_with(name, ".xlsx"@),
    ensures
        stem(name) == name.take(name.len() - 5),
{
    reveal_strlit(".xlsx");
    let n = name.len() as int;
    let tail = name.skip(n - 5);
    assert(tail[0] == name[n - 5] && tail[1] == name[n - 4] && tail[2] == name[n - 3] && tail[3]
        == name[n - 2] && tail[4] == name[n - 1]);
    let a = name.drop_last();
    let b = a.drop_last();
    let c = b.drop_last();
    let d = c.drop_last();
    assert(extension_at(name) == extension_at(a));
    assert(extension_at(a) == extension_at(b));
    assert(extension_at(b) == extension_at(c));
    assert(extension_at(c) == extension_at(d));
    assert(d.last() == name[n - 5]);
}

/// Different workbooks of one directory are cached under different names. The name `.xlsx`
/// is left out: it is cached as `.xlsx.xml`, like `.xlsx.xlsx`.
pub proof fn law_cache_names_differ(a: Seq<char>, b: Seq<char>)
    requires
        ends_with(a, ".xlsx"@),
        ends_with(b, ".xlsx"@),
        a.len() > 5,
        b.len() > 5,
        a != b,
    ensures
        cache_name(a) != cache_name(b),
{
    reveal_strlit(".xlsx");
    lemma_workbook_stem(a);
    lemma_workbook_stem(b);
    let x = ".xml"@;
    if cache_name(a) == cache_name(b) {
        assert((stem(a) + x).len() == stem(a).len() + x.len());
        assert((stem(b) + x).len() == stem(b).len() + x.len());
        assert(stem(a) =~= (stem(a) + x).take(stem(a).len() as int));
        assert(stem(b) =~= (stem(b) + x).take(stem(b).len() as int));
        assert(a =~= a.take(a.len() - 5) + a.skip(a.len() - 5));
        assert(b =~= b.take(b.len() - 5) + b.skip(b.len() - 5));
    }
}

/// The texts of some parts of a path.
pub open spec fn parts_view(parts: Seq<&str>) -> Seq<Seq<char>> {
    Seq::new(parts.len(), |i: int| parts[i]@)
}

/// Where the document of a workbook is cached, part by part below the directory of the cache:
/// in the same directories as the workbook, under the name for the cache.
pub open spec fn cache_place(parts: Seq<Seq<char>>) -> Seq<Seq<char>> {
    if parts.len() == 0 {
        parts
    } else {
        parts.drop_last().push(cache_name(parts.last()))
    }
}

/// Where the document of a workbook is cached, part by part below the directory of the cache,
/// from the parts of the workbook's path below the directory of the workbooks.
pub fn cache_parts(parts: &[&str]) -> (r: Vec<String>)
    ensures
        texts(r@) == cache_place(parts_view(parts@)),
{
    let ghost all = parts_view(parts@);
    let n: usize = parts.len();
    let mut out: Vec<String> = Vec::new();
    assert(texts(out@) =~= all.take(0));
    if n == 0 {
        assert(texts(out@) =~= all);
        return out;
    }
    for i in 0..n - 1
        invariant
            n == parts@.len(),
            n > 0,
            all == parts_view(parts@),
            texts(out@) == all.take(i as int),
    {
        let ghost before = texts(out@);
        out.push(parts[i].to_owned());
        assert(texts(out@) =~= before.push(all[i as int]));
        assert(before.push(all[i as int]) =~= all.take(i + 1));
    }
    let name = cache_path(parts[n - 1]);
    assert(name@ == cache_name(all.last()));
    let ghost before = texts(out@);
    let ghost last = name@;
    out.push(name);
    assert(texts(out@) =~= before.push(last));
    assert(before =~= all.drop_last());
    out
}

/// Whether the parts of a path lead to a workbook: the last one is the name of one.
pub open spec fn leads_to_workbook(parts: Seq<Seq<char>>) -> bool {
    parts.len() > 0 && ends_with(parts.last(), ".xlsx"@) && parts.last().len() > 5
}

/// No two workbooks share a cached document: each is in the directories of its workbook, under
/// a name that ends in `.xml`, and different workbooks, of one directory or of two, have
/// different ones. The name `.xlsx` is left out, as in [`law_cache_names_differ`].
pub proof fn law_cache_places_differ(a: Seq<Seq<char>>, b: Seq<Seq<char>>)
    requires
        leads_to_workbook(a),
        leads_to_workbook(b),
        a != b,
    ensures
        cache_place(a) != cache_place(b),
        cache_place(a).drop_last() == a.drop_last(),
        ends_with(cache_place(a).last(), ".xml"@),
{
    let x = cache_place(a);
    let y = cache_place(b);
    assert(x.drop_last() =~= a.drop_last());
    assert(y.drop_last() =~= b.drop_last());
    assert(stem(a.last()) + ".xml"@ == x.last());
    assert(x.last().skip(x.last().len() - ".xml"@.len()) =~= ".xml"@);
    if x == y {
        assert(a.last() == b.last()) by {
            if a.last() != b.last() {
                law_cache_names_differ(a.last(), b.last());
            }
        }
        assert(a =~= a.drop_last().push(a.last()));
        assert(b =~= b.drop_last().push(b.last()));
    }
}

/// A request that is refused: the HTTP status and what is wrong.
pub struct Refusal<T = String> {
    pub status: u16,
    pub message: T,
}

impl View for Refusal {
    type V = Refusal<Seq<char>>;

    open spec fn view(&self) -> Refusal<Seq<char>> {
        Refusal { status: self.status, message: self.message@ }
    }
}

/// The refusal of a path that is not allowed.
pub open spec fn bad_path() -> Refusal<Seq<char>> {
    Refusal { status: 400, message: "不正なパスです"@ }
}

/// The refusal of a file that is not there.
pub open spec fn not_found() -> Refusal<Seq<char>> {
    Refusal { status: 404, message: "ファイルが見つかりません"@ }
}

/// The refusal for a failure on this side.
pub open spec fn failed(message: Seq<char>) -> Refusal<Seq<char>> {
    Refusal { status: 500, message }
}

/// The refusal of a path that is not allowed.
pub fn refuse_path() -> (r: Refusal)
    ensures
        r@ == bad_path(),
{
    Refusal { status: 400, message: "不正なパスです".to_owned() }
}

/// The refusal of a file that is not there.
pub fn refuse_missing() -> (r: Refusal)
    ensures
        r@ == not_found(),
{
    Refusal { status: 404, message: "ファイルが見つかりません".to_owned() }
}

/// The refusal for a failure on this side.
pub fn refuse_failed(message: &str) -> (r: Refusal)
    ensures
        r@ == failed(message@),
{
    Refusal { status: 500, message: message.to_owned() }
}

/// Whether a request for a document is refused before anything is read: its path is not
/// allowed, or there is no such workbook.
pub fn get_refusal(safe: bool, exists: bool) -> (r: Option<Refusal>)
    ensures
        r is None <==> safe && exists,
        r matches Some(f) ==> f@ == (if safe {
            not_found()
        } else {
            bad_path()
        }),
{
    if !safe {
        Some(refuse_path())
    } else if !exists {
        Some(refuse_missing())
    } else {
        None
    }
}

/// What a request for an export comes to before anything is read.
pub enum ExportStart {
    /// The cached document is exported as it is.
    UseCache,
    /// The workbook is converted first.
    Convert,
    /// The request is refused.
    Refuse(Refusal),
}

/// What a request for an export comes to: the cached document is used where there is one,
/// whether or not there is a workbook.
pub fn start_export(safe: bool, cached: bool, exists: bool) -> (r: ExportStart)
    ensures
        match r {
            ExportStart::UseCache => safe && cached,
            ExportStart::Convert => safe && !cached && exists,
            ExportStart::Refuse(f) => (!safe && f@ == bad_path()) || (safe && !cached && !exists
                && f@ == not_found()),
        },
{
    if !safe {
        ExportStart::Refuse(refuse_path())
    } else if cached {
        ExportStart::UseCache
    } else if exists {
        ExportStart::Convert
    } else {
        ExportStart::Refuse(refuse_missing())
    }
}

/// The refusal of a document that breaks off with an error.
pub open spec fn malformed(error: Seq<char>) -> Refusal<Seq<char>> {
    Refusal { status: 400, message: "XMLの形式が不正です: "@ + error }
}

/// The refusal of an edited document, given the error with which it breaks off.
pub fn refuse_error(error: Option<String>) -> (r: Option<Refusal>)
    ensures
        r is None <==> error is None,
        r matches Some(f) ==> f@ == malformed(error->0@),
{
    match error {
        Some(e) => {
            let mut message = "XMLの形式が不正です: ".to_owned();
            message.push_str(e.as_str());
            Some(Refusal { status: 400, message })
        },
        None => None,
    }
}

/// Whether an edited document is refused: it is where it breaks off with an error.
pub fn save_refusal(body: &str) -> (r: Option<Refusal>)
    ensures
        r is None <==> xml_error(encode_utf8(body@), false) is None,
        r matches Some(f) ==> f@ == malformed(xml_error(encode_utf8(body@), false)->0),
{
    let document = read_document(body.as_bytes(), false);
    refuse_error(document.error)
}

/// A text without quotation marks.
pub open spec fn unquoted(s: Seq<char>) -> Seq<char> {
    s.filter(|c: char| c != '"')
}

/// The header with which an export is downloaded under a name.
pub open spec fn attachment(filename: Seq<char>) -> Seq<char> {
    "attachment; filename=\""@ + unquoted(filename) + "\""@
}

/// The header with which an export is downloaded under a name.
pub fn attachment_header(filename: &str) -> (r: String)
    ensures
        r@ == attachment(filename@),
{
    let a = to_chars(filename);
    let mut out = "attachment; filename=\"".to_owned();
    let ghost start = out@;
    assert(a@.take(0) =~= Seq::<char>::empty());
    proof {
        reveal(Seq::filter);
    }
    assert(start + unquoted(a@.take(0)) =~= start);
    for i in 0..a.len()
        invariant
            out@ == start + unquoted(a@.take(i as int)),
    {
        let c = a[i];
        proof {
            reveal(Seq::filter);
            assert(a@.take(i + 1).drop_last() =~= a@.take(i as int));
            assert(a@.take(i + 1).last() == c);
        }
        if c != '"' {
            let ghost before = unquoted(a@.take(i as int));
            out.push(c);
            assert((start + before).push(c) =~= start + before.push(c));
        }
    }
    assert(a@.take(a@.len() as int) =~= a@);
    out.push_str("\"");
    out
}

/// A hexadecimal digit in lower case.
pub open spec fn low_hex(d: int) -> char {
    if d < 10 {
        ('0' as u32 + d) as char
    } else {
        ('a' as u32 + d - 10) as char
    }
}

/// What stands for `c` in a JSON string.
pub open spec fn json_char(c: char) -> Seq<char> {
    if c == '"' || c == '\\' {
        seq!['\\', c]
    } else if c == '\n' {
        seq!['\\', 'n']
    } else if c == '\r' {
        seq!['\\', 'r']
    } else if c == '\t' {
        seq!['\\', 't']
    } else if c == '\u{8}' {
        seq!['\\', 'b']
    } else if c == '\u{c}' {
        seq!['\\', 'f']
    } else if (c as u32) < 0x20 {
        seq!['\\', 'u', '0', '0', low_hex(c as u32 as int / 16), low_hex(c as u32 as int % 16)]
    } else {
        seq![c]
    }
}

/// The inside of the JSON string for `s`.
pub open spec fn json_escaped(s: Seq<char>) -> Seq<char>
    decreases s.len(),
{
    if s.len() == 0 {
        Seq::empty()
    } else {
        json_escaped(s.drop_last()) + json_char(s.last())
    }
}

/// `serde_json::Value::from` and its text: a JSON string, with quotation marks, backslashes
/// and control characters escaped, and everything else as it stands.
#[verifier::external_body]
fn json_string(s: &str) -> (r: String)
    ensures
        r@ == seq!['"'] + json_escaped(s@) + seq!['"'],
{
    serde_json::Value::from(s).to_string()
}

impl Refusal {
    /// The JSON that is sent with the refusal.
    pub fn error_json(&self) -> (r: String)
        ensures
            r@ == "{\"error\":"@ + (seq!['"'] + json_escaped(self@.message) + seq!['"']) + "}"@,
    {
        let mut out = "{\"error\":".to_owned();
        out.push_str(json_string(self.message.as_str()).as_str());
        out.push_str("}");
        out
    }
}

} // verus!
