//! The colours and the number formats that a workbook names by numbers.

use vstd::prelude::*;
use vstd::utf8::{
    encode_utf8, encode_utf8_decode_utf8, encode_utf8_valid_utf8, is_ascii_chars,
    is_ascii_chars_encode_utf8, is_char_boundary_iff_not_is_continuation_byte,
};

use crate::color::{
    color_digits, color_number, hex_number, hex_value, indexed_color, is_hex, resolved_color,
    rgb_color, theme_color,
};
use crate::styles::{builtin_format, StylesView};
use crate::text::{ascii_upper, unsigned, without_leading};

verus! {

/// The colours of the default theme.
pub proof fn law_theme_colors(t: nat)
    ensures
        theme_color(0) == Some("FFFFFFFF"@),
        theme_color(1) == Some("FF000000"@),
        theme_color(2) == Some("FFE7E6E6"@),
        theme_color(3) == Some("FF44546A"@),
        theme_color(4) == Some("FF4472C4"@),
        theme_color(5) == Some("FFED7D31"@),
        theme_color(6) == Some("FFA5A5A5"@),
        theme_color(7) == Some("FFFFC000"@),
        theme_color(8) == Some("FF4472C4"@),
        theme_color(9) == Some("FFED7D31"@),
        t > 9 ==> theme_color(t) is None,
{
}

/// The colours of the palette.
pub proof fn law_palette_colors(i: nat)
    ensures
        i == 0 || i == 8 || i == 64 ==> indexed_color(i) == Some("FF000000"@),
        i == 1 || i == 9 || i == 65 ==> indexed_color(i) == Some("FFFFFFFF"@),
        indexed_color(2) == Some("FFFF0000"@),
        indexed_color(3) == Some("FF00FF00"@),
        indexed_color(4) == Some("FF0000FF"@),
        indexed_color(5) == Some("FFFFFF00"@),
        indexed_color(6) == Some("FFFF00FF"@),
        indexed_color(7) == Some("FF00FFFF"@),
        i > 9 && i != 64 && i != 65 ==> indexed_color(i) is None,
{
}

/// A colour in eight ASCII characters is itself in upper case, unless all are zero; one in six
/// is made opaque; of any other length there is none.
pub proof fn law_colors_by_their_digits(s: Seq<char>)
    requires
        is_ascii_chars(s),
    ensures
        s.len() == 8 && ascii_upper(s) != "00000000"@ ==> rgb_color(s) == Some(ascii_upper(s)),
        s.len() == 6 ==> rgb_color(s) == Some("FF"@ + ascii_upper(s)),
        s.len() == 8 && ascii_upper(s) == "00000000"@ ==> rgb_color(s) is None,
        s.len() != 6 && s.len() != 8 ==> rgb_color(s) is None,
{
    let u = ascii_upper(s);
    assert(is_ascii_chars(u)) by {
        assert forall|i: int| 0 <= i < u.len() implies 0 <= #[trigger] (u[i] as nat) < 128 by {
            assert(0 <= (s[i] as nat) < 128);
        }
    }
    is_ascii_chars_encode_utf8(u);
}

/// A colour is given by its digits if they are one, else by its number in the theme, else by its
/// number in the palette. What comes later has no say once one of them is there.
pub proof fn law_colors_are_chosen_in_order(
    rgb: Seq<char>,
    theme: nat,
    t: Option<nat>,
    i: Option<nat>,
    indexed: nat,
)
    ensures
        rgb_color(rgb) is Some ==> resolved_color(Some(rgb), t, i) == rgb_color(rgb),
        rgb_color(rgb) is None ==> resolved_color(Some(rgb), t, i) == resolved_color(None, t, i),
        resolved_color(None, Some(theme), i) == theme_color(theme),
        resolved_color(None, None, Some(indexed)) == indexed_color(indexed),
        resolved_color(None, None, None) is None,
{
}

/// Hexadecimal digits count by sixteens, with letters in upper or lower case.
pub proof fn law_hexadecimal_digits(s: Seq<char>, c: char)
    ensures
        hex_number(Seq::empty()) == 0,
        hex_number(s.push(c)) == hex_number(s) * 16 + hex_value(c),
        '0' <= c <= '9' ==> hex_value(c) == c as u32 - '0' as u32,
        'a' <= c <= 'f' ==> hex_value(c) == c as u32 - 'a' as u32 + 10,
        'A' <= c <= 'F' ==> hex_value(c) == c as u32 - 'A' as u32 + 10,
        is_hex(c) <==> '0' <= c <= '9' || 'a' <= c <= 'f' || 'A' <= c <= 'F',
{
    assert(s.push(c).drop_last() =~= s);
}

/// Hexadecimal digits are ASCII, and their bytes are themselves.
proof fn lemma_hex_bytes(s: Seq<char>)
    requires
        forall|i: int| 0 <= i < s.len() ==> is_hex(#[trigger] s[i]),
    ensures
        is_ascii_chars(s),
        encode_utf8(s).len() == s.len(),
        forall|i: int| 0 <= i < s.len() ==> encode_utf8(s)[i] == #[trigger] s[i] as u8,
{
    assert forall|i: int| 0 <= i < s.len() implies 0 <= #[trigger] (s[i] as nat) < 128 by {
        assert(is_hex(s[i]));
    }
    is_ascii_chars_encode_utf8(s);
}

/// The number of a colour is that of its six hexadecimal digits; of eight, the first two say how
/// opaque it is and do not count; a hash sign in front says nothing.
pub proof fn law_color_numbers(s: Seq<char>, x: char, y: char)
    requires
        s.len() == 6,
        forall|i: int| 0 <= i < s.len() ==> is_hex(#[trigger] s[i]),
        is_hex(x),
        is_hex(y),
    ensures
        color_number(s) == Some(hex_number(s)),
        color_number(seq!['#'] + s) == Some(hex_number(s)),
        color_number(seq![x, y] + s) == Some(hex_number(s)),
        color_number(seq!['#'] + (seq![x, y] + s)) == Some(hex_number(s)),
{
    let c = seq![x, y] + s;
    assert forall|i: int| 0 <= i < c.len() implies is_hex(#[trigger] c[i]) by {
        if i >= 2 {
            assert(c[i] == s[i - 2]);
        }
    }
    lemma_hex_bytes(s);
    lemma_hex_bytes(c);
    assert(is_hex(s[0]));
    assert(s.take(1)[0] == s[0]);
    assert(c[0] == x);
    assert(c.take(1)[0] == x);
    lemma_hash(s);
    lemma_hash(c);
    assert(unsigned(s) == s);
    let d = encode_utf8(c);
    assert(d[2] == c[2] as u8);
    assert(is_hex(c[2]));
    encode_utf8_valid_utf8(c);
    is_char_boundary_iff_not_is_continuation_byte(d, 2);
    assert(d.skip(2) =~= encode_utf8(s)) by {
        assert forall|i: int| 0 <= i < s.len() implies d.skip(2)[i] == encode_utf8(s)[i] by {
            assert(d[i + 2] == c[i + 2] as u8);
            assert(c[i + 2] == s[i]);
            assert(encode_utf8(s)[i] == s[i] as u8);
        }
    }
    encode_utf8_decode_utf8(s);
}

/// A hash sign in front of digits is passed over.
proof fn lemma_hash(s: Seq<char>)
    requires
        s.len() > 0,
        s[0] != '#',
    ensures
        color_digits(s) == s,
        color_digits(seq!['#'] + s) == s,
{
    let h = seq!['#'];
    assert(s.take(1)[0] == s[0]);
    assert((h + s).take(1) =~= h);
    assert((h + s).skip(1) =~= s);
    reveal_with_fuel(without_leading, 2);
}

/// A text of another length than six or eight is no colour, nor is one of six that holds anything
/// but hexadecimal digits.
pub proof fn law_texts_that_are_no_colors(s: Seq<char>, i: int)
    requires
        is_ascii_chars(s),
        s.len() > 0,
        s[0] != '#',
        0 <= i < s.len(),
    ensures
        s.len() != 6 && s.len() != 8 ==> color_number(s) is None,
        s.len() == 6 && !is_hex(s[i]) && s[0] != '+' ==> color_number(s) is None,
{
    lemma_hash(s);
    is_ascii_chars_encode_utf8(s);
}

/// The number formats that are built in, by their ids; `General` for every other.
pub proof fn law_built_in_formats(id: u32)
    ensures
        builtin_format(1) == "0"@,
        builtin_format(2) == "0.00"@,
        builtin_format(3) == "#,##0"@,
        builtin_format(4) == "#,##0.00"@,
        builtin_format(9) == "0%"@,
        builtin_format(10) == "0.00%"@,
        builtin_format(11) == "0.00E+00"@,
        builtin_format(12) == "# ?/?"@,
        builtin_format(13) == "# ??/??"@,
        builtin_format(14) == "m/d/yyyy"@,
        builtin_format(15) == "d-mmm-yy"@,
        builtin_format(16) == "d-mmm"@,
        builtin_format(17) == "mmm-yy"@,
        builtin_format(18) == "h:mm AM/PM"@,
        builtin_format(19) == "h:mm:ss AM/PM"@,
        builtin_format(20) == "h:mm"@,
        builtin_format(21) == "h:mm:ss"@,
        builtin_format(22) == "m/d/yyyy h:mm"@,
        builtin_format(37) == "#,##0 ;(#,##0)"@,
        builtin_format(38) == "#,##0 ;[Red](#,##0)"@,
        builtin_format(39) == "#,##0.00;(#,##0.00)"@,
        builtin_format(40) == "#,##0.00;[Red](#,##0.00)"@,
        builtin_format(45) == "mm:ss"@,
        builtin_format(46) == "[h]:mm:ss"@,
        builtin_format(47) == "mmss.0"@,
        builtin_format(48) == "##0.0E+0"@,
        builtin_format(49) == "@"@,
        id == 0 || 4 < id < 9 || 22 < id < 37 || 40 < id < 45 || id > 49 ==> builtin_format(id)
            == "General"@,
{
}

/// A style sheet in which no format has an id uses the one that is built in for it.
pub proof fn law_formats_without_an_entry_are_built_in(styles: StylesView, id: u32)
    requires
        forall|i: int| 0 <= i < styles.num_fmts.len() ==> (#[trigger] styles.num_fmts[i]).0 != id,
    ensures
        styles.num_fmt(id) == builtin_format(id),
{
    lemma_no_entry(styles.num_fmts, id);
}

/// No format has an id.
proof fn lemma_no_entry(formats: Seq<(u32, Seq<char>)>, id: u32)
    requires
        forall|i: int| 0 <= i < formats.len() ==> (#[trigger] formats[i]).0 != id,
    ensures
        crate::styles::custom_format(formats, id) is None,
    decreases formats.len(),
{
    if formats.len() > 0 {
        assert(formats[formats.len() - 1] == formats.last());
        let rest = formats.drop_last();
        assert forall|i: int| 0 <= i < rest.len() implies (#[trigger] rest[i]).0 != id by {
            assert(rest[i] == formats[i]);
        }
        lemma_no_entry(rest, id);
    }
}

} // verus!
