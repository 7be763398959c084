//! Colours: from the attributes of a style sheet to `AARRGGBB` texts, and from those to
//! numbers.

use vstd::prelude::*;
use vstd::utf8::{
    decode_utf8, encode_scalar, encode_utf8, encode_utf8_decode_utf8, encode_utf8_valid_utf8,
    is_ascii_chars, is_ascii_chars_encode_utf8, is_char_boundary,
    is_char_boundary_iff_not_is_continuation_byte,
};

use crate::text::{
    ascii_upper, digit_value, same, strip_leading, to_chars, to_uppercase, unsigned, upper_text,
    without_leading,
};

verus! {

/// The colours of the default theme, by number.
pub open spec fn theme_color(t: nat) -> Option<Seq<char>> {
    if t == 0 {
        Some("FFFFFFFF"@)
    } else if t == 1 {
        Some("FF000000"@)
    } else if t == 2 {
        Some("FFE7E6E6"@)
    } else if t == 3 {
        Some("FF44546A"@)
    } else if t == 4 || t == 8 {
        Some("FF4472C4"@)
    } else if t == 5 || t == 9 {
        Some("FFED7D31"@)
    } else if t == 6 {
        Some("FFA5A5A5"@)
    } else if t == 7 {
        Some("FFFFC000"@)
    } else {
        None
    }
}

/// The colours of the indexed palette that the library knows.
pub open spec fn indexed_color(i: nat) -> Option<Seq<char>> {
    if i == 0 || i == 8 || i == 64 {
        Some("FF000000"@)
    } else if i == 1 || i == 9 || i == 65 {
        Some("FFFFFFFF"@)
    } else if i == 2 {
        Some("FFFF0000"@)
    } else if i == 3 {
        Some("FF00FF00"@)
    } else if i == 4 {
        Some("FF0000FF"@)
    } else if i == 5 {
        Some("FFFFFF00"@)
    } else if i == 6 {
        Some("FFFF00FF"@)
    } else if i == 7 {
        Some("FF00FFFF"@)
    } else {
        None
    }
}

/// The colour that the text of an `rgb` attribute gives, once it is in upper case: eight
/// digits that are not all zero, or six digits made opaque. Lengths count the bytes.
pub open spec fn upper_color(s: Seq<char>) -> Option<Seq<char>> {
    if encode_utf8(s).len() == 8 && s != "00000000"@ {
        Some(s)
    } else if encode_utf8(s).len() == 6 {
        Some("FF"@ + s)
    } else {
        None
    }
}

/// The colour that an `rgb` attribute gives.
pub open spec fn rgb_color(rgb: Seq<char>) -> Option<Seq<char>> {
    upper_color(upper_text(rgb))
}

/// The colour that three attributes give. The first of `rgb`, `theme` and `indexed` that says
/// something decides; an `rgb` of another length says nothing.
pub open spec fn resolved_color(
    rgb: Option<Seq<char>>,
    theme: Option<nat>,
    indexed: Option<nat>,
) -> Option<Seq<char>> {
    if rgb is Some && rgb_color(rgb->0) is Some {
        rgb_color(rgb->0)
    } else if theme is Some {
        theme_color(theme->0)
    } else if indexed is Some {
        indexed_color(indexed->0)
    } else {
        None
    }
}

/// The text behind a borrowed optional text.
pub open spec fn optional_str(s: Option<&str>) -> Option<Seq<char>> {
    match s {
        Some(s) => Some(s@),
        None => None,
    }
}

/// The number behind an optional `u32`.
pub open spec fn optional_nat(n: Option<u32>) -> Option<nat> {
    match n {
        Some(n) => Some(n as nat),
        None => None,
    }
}

/// A colour of the default theme.
fn theme_text(t: u32) -> (r: Option<String>)
    ensures
        crate::text::optional(r) == theme_color(t as nat),
{
    let s = if t == 0 {
        "FFFFFFFF"
    } else if t == 1 {
        "FF000000"
    } else if t == 2 {
        "FFE7E6E6"
    } else if t == 3 {
        "FF44546A"
    } else if t == 4 || t == 8 {
        "FF4472C4"
    } else if t == 5 || t == 9 {
        "FFED7D31"
    } else if t == 6 {
        "FFA5A5A5"
    } else if t == 7 {
        "FFFFC000"
    } else {
        return None;
    };
    Some(s.to_owned())
}

/// A colour of the indexed palette.
fn indexed_text(i: u32) -> (r: Option<String>)
    ensures
        crate::text::optional(r) == indexed_color(i as nat),
{
    let s = if i == 0 || i == 8 || i == 64 {
        "FF000000"
    } else if i == 1 || i == 9 || i == 65 {
        "FFFFFFFF"
    } else if i == 2 {
        "FFFF0000"
    } else if i == 3 {
        "FF00FF00"
    } else if i == 4 {
        "FF0000FF"
    } else if i == 5 {
        "FFFFFF00"
    } else if i == 6 {
        "FFFF00FF"
    } else if i == 7 {
        "FF00FFFF"
    } else {
        return None;
    };
    Some(s.to_owned())
}

/// The colour that the text of an `rgb` attribute gives, once it is in upper case.
pub fn upper_rgb(s: String) -> (r: Option<String>)
    ensures
        crate::text::optional(r) == upper_color(s@),
{
    let n: usize = s.as_str().as_bytes().len();
    if n == 8 && !same(s.as_str(), "00000000") {
        Some(s)
    } else if n == 6 {
        let mut out = "FF".to_owned();
        out.push_str(s.as_str());
        Some(out)
    } else {
        None
    }
}

/// The colour that the attributes `rgb`, `theme` and `indexed` of a style sheet give.
pub fn resolve_color(rgb: Option<&str>, theme: Option<u32>, indexed: Option<u32>) -> (r: Option<
    String,
>)
    ensures
        crate::text::optional(r) == resolved_color(
            optional_str(rgb),
            optional_nat(theme),
            optional_nat(indexed),
        ),
{
    if let Some(rgb) = rgb {
        let c = upper_rgb(to_uppercase(rgb));
        if c.is_some() {
            return c;
        }
    }
    if let Some(t) = theme {
        return theme_text(t);
    }
    if let Some(i) = indexed {
        return indexed_text(i);
    }
    None
}

/// Whether `c` is a hexadecimal digit.
pub open spec fn is_hex(c: char) -> bool {
    '0' <= c <= '9' || 'a' <= c <= 'f' || 'A' <= c <= 'F'
}

/// The number that a hexadecimal digit stands for.
pub open spec fn hex_value(c: char) -> nat {
    if 'a' <= c {
        (c as u32 - 'a' as u32 + 10) as nat
    } else if 'A' <= c {
        (c as u32 - 'A' as u32 + 10) as nat
    } else {
        digit_value(c)
    }
}

/// The number that a row of hexadecimal digits stands for.
pub open spec fn hex_number(s: Seq<char>) -> nat
    decreases s.len(),
{
    if s.len() == 0 {
        0
    } else {
        hex_number(s.drop_last()) * 16 + hex_value(s.last())
    }
}

/// The number that `s` writes in hexadecimal, after an optional plus sign.
pub open spec fn hex_parsed(s: Seq<char>) -> Option<nat> {
    let d = unsigned(s);
    if d.len() > 0 && (forall|i: int| 0 <= i < d.len() ==> is_hex(#[trigger] d[i])) {
        Some(hex_number(d))
    } else {
        None
    }
}

/// What remains of a colour text without `#` in front.
pub open spec fn color_digits(s: Seq<char>) -> Seq<char> {
    without_leading(s, seq!['#'])
}

/// The number of a colour text: six hexadecimal digits, or what follows the first two bytes of
/// eight, with or without `#` in front. There is none where those two bytes are not whole
/// characters.
pub open spec fn color_number(s: Seq<char>) -> Option<nat> {
    let d = encode_utf8(color_digits(s));
    if d.len() == 8 && is_char_boundary(d, 2) {
        hex_parsed(decode_utf8(d.skip(2)))
    } else if d.len() == 6 {
        hex_parsed(color_digits(s))
    } else {
        None
    }
}

/// A row of hexadecimal digits is less than its number of digits allows.
proof fn lemma_hex_bound(s: Seq<char>)
    requires
        s.len() <= 6,
        forall|i: int| 0 <= i < s.len() ==> is_hex(#[trigger] s[i]),
    ensures
        s.len() == 0 ==> hex_number(s) == 0,
        s.len() == 1 ==> hex_number(s) < 0x10,
        s.len() == 2 ==> hex_number(s) < 0x100,
        s.len() == 3 ==> hex_number(s) < 0x1000,
        s.len() == 4 ==> hex_number(s) < 0x1_0000,
        s.len() == 5 ==> hex_number(s) < 0x10_0000,
        s.len() == 6 ==> hex_number(s) < 0x100_0000,
    decreases s.len(),
{
    if s.len() > 0 {
        let t = s.drop_last();
        assert forall|i: int| 0 <= i < t.len() implies is_hex(#[trigger] t[i]) by {
            assert(t[i] == s[i]);
        }
        lemma_hex_bound(t);
        assert(is_hex(s[s.len() - 1]));
    }
}

/// A text is no longer than its bytes.
proof fn lemma_utf8_len(s: Seq<char>)
    ensures
        s.len() <= encode_utf8(s).len(),
    decreases s.len(),
{
    if s.len() > 0 {
        lemma_utf8_len(s.drop_first());
    }
}

/// The number that at most six characters write in hexadecimal.
fn parse_hex(s: &str) -> (r: Option<u32>)
    requires
        s@.len() <= 6,
    ensures
        optional_nat(r) == hex_parsed(s@),
{
    let a = to_chars(s);
    let from: usize = if a.len() > 0 && a[0] == '+' {
        1
    } else {
        0
    };
    let ghost d = unsigned(s@);
    assert(d =~= s@.skip(from as int));
    if from == a.len() {
        return None;
    }
    let mut n: u32 = 0;
    assert(d.take(0) =~= Seq::<char>::empty());
    for i in from..a.len()
        invariant
            a@ == s@,
            a@.len() <= 6,
            from <= a@.len(),
            d == s@.skip(from as int),
            d == unsigned(s@),
            n == hex_number(d.take(i - from)),
            forall|j: int| 0 <= j < i - from ==> is_hex(#[trigger] d[j]),
    {
        let c = a[i];
        assert(c == d[i - from]);
        let v: u32 = if '0' <= c && c <= '9' {
            c as u32 - '0' as u32
        } else if 'a' <= c && c <= 'f' {
            c as u32 - 'a' as u32 + 10
        } else if 'A' <= c && c <= 'F' {
            c as u32 - 'A' as u32 + 10
        } else {
            return None;
        };
        proof {
            let t = d.take(i - from);
            assert forall|j: int| 0 <= j < t.len() implies is_hex(#[trigger] t[j]) by {
                assert(t[j] == d[j]);
            }
            lemma_hex_bound(t);
            assert(d.take(i - from + 1).drop_last() =~= t);
        }
        n = n * 16 + v;
    }
    assert(d.take(d.len() as int) =~= d);
    Some(n)
}

/// The number of a colour text: red, green and blue in 24 bits.
pub fn argb_u32(argb: &str) -> (r: Option<u32>)
    ensures
        optional_nat(r) == color_number(argb@),
{
    proof {
        reveal_strlit("#");
        assert("#"@ =~= seq!['#']);
    }
    let s = strip_leading(argb, "#");
    let n: usize = s.as_str().as_bytes().len();
    proof {
        lemma_utf8_len(s@);
    }
    if n == 8 && s.as_str().is_char_boundary(2) {
        let (_, t) = s.as_str().split_at(2);
        proof {
            encode_utf8_decode_utf8(t@);
            assert(encode_utf8(t@) =~= encode_utf8(s@).skip(2));
            lemma_utf8_len(t@);
        }
        parse_hex(t)
    } else if n == 6 {
        parse_hex(s.as_str())
    } else {
        None
    }
}

/// The bytes of a text behind two letters `F`.
proof fn lemma_opaque_bytes(s: Seq<char>)
    ensures
        encode_utf8("FF"@ + s).len() == encode_utf8(s).len() + 2,
        encode_utf8("FF"@ + s).skip(2) == encode_utf8(s),
{
    reveal_strlit("FF");
    let a = "FF"@ + s;
    let b = a.drop_first();
    assert(a[0] == 'F' && b[0] == 'F');
    assert(b.drop_first() =~= s);
    assert(encode_scalar('F' as u32).len() == 1);
    assert(encode_utf8(a) == encode_scalar('F' as u32) + encode_utf8(b));
    assert(encode_utf8(b) == encode_scalar('F' as u32) + encode_utf8(s));
    assert(encode_utf8(a).skip(2) =~= encode_utf8(s));
}

/// Every colour that attributes give is a text of eight bytes.
pub proof fn law_colors_have_eight_bytes(
    rgb: Option<Seq<char>>,
    theme: Option<nat>,
    indexed: Option<nat>,
)
    ensures
        resolved_color(rgb, theme, indexed) matches Some(c) ==> encode_utf8(c).len() == 8,
{
    if rgb is Some && rgb_color(rgb->0) is Some {
        lemma_opaque_bytes(upper_text(rgb->0));
    } else if let Some(c) = resolved_color(rgb, theme, indexed) {
        lemma_known_colors(theme, indexed);
        is_ascii_chars_encode_utf8(c);
    }
}

/// Whether a text holds no lower-case letter of ASCII.
pub open spec fn is_upper(s: Seq<char>) -> bool {
    forall|i: int| 0 <= i < s.len() ==> !('a' <= #[trigger] s[i] <= 'z')
}

/// A colour that was resolved is resolved to itself, whatever theme and index are given with
/// it. Where an `rgb` attribute was given, this is said of ASCII texts; of others only that the
/// colour, once in upper case, is taken as it stands.
pub proof fn law_resolved_colors_stay(
    rgb: Option<Seq<char>>,
    theme: Option<nat>,
    indexed: Option<nat>,
)
    ensures
        resolved_color(rgb, theme, indexed) matches Some(c) ==> {
            &&& upper_color(c) == Some(c)
            &&& c != "00000000"@
            &&& (rgb matches Some(s) ==> is_ascii_chars(s)) ==> {
                &&& c.len() == 8
                &&& is_upper(c)
                &&& forall|t: Option<nat>, i: Option<nat>|
                    #[trigger] resolved_color(Some(c), t, i) == Some(c)
            }
        },
{
    if let Some(c) = resolved_color(rgb, theme, indexed) {
        law_colors_have_eight_bytes(rgb, theme, indexed);
        reveal_strlit("00000000");
        assert("00000000"@[0] == '0');
        if rgb is Some && rgb_color(rgb->0) is Some {
            let s = upper_text(rgb->0);
            reveal_strlit("FF");
            assert(("FF"@ + s)[0] == 'F');
            if is_ascii_chars(rgb->0) {
                lemma_upper(rgb->0);
                assert(is_ascii_chars(c));
                is_ascii_chars_encode_utf8(c);
                lemma_upper(c);
                assert(ascii_upper(c) =~= c);
            }
        } else {
            lemma_known_colors(theme, indexed);
            is_ascii_chars_encode_utf8(c);
            lemma_upper(c);
            assert(ascii_upper(c) =~= c);
        }
    }
}

/// A text of ASCII in upper case.
proof fn lemma_upper(s: Seq<char>)
    requires
        is_ascii_chars(s),
    ensures
        upper_text(s) == ascii_upper(s),
        is_ascii_chars(ascii_upper(s)),
        is_upper(ascii_upper(s)),
        is_upper(s) ==> ascii_upper(s) == s,
{
    let u = ascii_upper(s);
    assert forall|i: int| 0 <= i < u.len() implies 0 <= #[trigger] (u[i] as nat) < 128 && !('a'
        <= u[i] <= 'z') by {
        assert((s[i] as nat) < 128);
    }
    if is_upper(s) {
        assert(u =~= s);
    }
}

/// The colours of the theme and of the palette are eight characters of ASCII in upper case,
/// the first of them an `F`.
proof fn lemma_known_colors(theme: Option<nat>, indexed: Option<nat>)
    ensures
        theme matches Some(t) ==> (theme_color(t) matches Some(c) ==> is_ascii_chars(c)
            && is_upper(c) && c.len() == 8 && c[0] == 'F'),
        indexed matches Some(i) ==> (indexed_color(i) matches Some(c) ==> is_ascii_chars(c)
            && is_upper(c) && c.len() == 8 && c[0] == 'F'),
{
    reveal_strlit("FFFFFFFF");
    reveal_strlit("FF000000");
    reveal_strlit("FFE7E6E6");
    reveal_strlit("FF44546A");
    reveal_strlit("FF4472C4");
    reveal_strlit("FFED7D31");
    reveal_strlit("FFA5A5A5");
    reveal_strlit("FFFFC000");
    reveal_strlit("FFFF0000");
    reveal_strlit("FF00FF00");
    reveal_strlit("FF0000FF");
    reveal_strlit("FFFFFF00");
    reveal_strlit("FFFF00FF");
    reveal_strlit("FF00FFFF");
}

/// Six digits made opaque stand for the number of the six digits.
pub proof fn law_opaque_color_number(s: Seq<char>)
    requires
        s.len() == 6,
        forall|i: int| 0 <= i < s.len() ==> is_hex(#[trigger] s[i]),
    ensures
        color_number("FF"@ + s) == Some(hex_number(s)),
{
    let c = "FF"@ + s;
    reveal_strlit("FF");
    assert(c[0] == 'F');
    assert(c.take(1)[0] == 'F');
    assert(color_digits(c) == c);
    assert forall|i: int| 0 <= i < s.len() implies 0 <= #[trigger] (s[i] as nat) < 128 by {
        assert(is_hex(s[i]));
    }
    assert(is_ascii_chars(s));
    is_ascii_chars_encode_utf8(s);
    lemma_opaque_bytes(s);
    encode_utf8_decode_utf8(s);
    assert(is_hex(s[0]));
    assert(unsigned(s) == s);
    encode_utf8_valid_utf8(c);
    assert(is_ascii_chars(c));
    is_ascii_chars_encode_utf8(c);
    let d = encode_utf8(c);
    assert(d[2] == c[2] as u8);
    is_char_boundary_iff_not_is_continuation_byte(d, 2);
}

} // verus!
