//! Cell references such as `B12`, and ranges of cells such as `A1:C3`.

use vstd::arithmetic::div_mod::{
    lemma_add_mod_noop, lemma_mod_bound, lemma_mul_mod_noop, lemma_small_mod,
};
use vstd::prelude::*;

use crate::text::{
    all_digits, decimal, digits_value, find_first, first_of, is_digit, lemma_decimal,
    lemma_first_of, parse_u32, parsed, text_of, to_chars, unsigned,
};

verus! {

/// The number of values of a `u32`: column numbers are counted modulo this.
pub open spec fn word() -> nat {
    0x1_0000_0000
}

/// Whether `c` is an ASCII letter.
pub open spec fn is_letter(c: char) -> bool {
    'A' <= c <= 'Z' || 'a' <= c <= 'z'
}

/// The place of an ASCII letter in the alphabet, from 1 to 26.
pub open spec fn letter_value(c: char) -> nat {
    if 'a' <= c {
        (c as u32 - 'a' as u32 + 1) as nat
    } else {
        (c as u32 - 'A' as u32 + 1) as nat
    }
}

/// The letters of `s`, read as a number with 26 digits that start at 1. Other characters count
/// for nothing.
pub open spec fn letters_value(s: Seq<char>) -> nat
    decreases s.len(),
{
    if s.len() == 0 {
        0
    } else if is_letter(s.last()) {
        letters_value(s.drop_last()) * 26 + letter_value(s.last())
    } else {
        letters_value(s.drop_last())
    }
}

/// The digits of `s` in their order.
pub open spec fn digits_of(s: Seq<char>) -> Seq<char> {
    s.filter(|c: char| is_digit(c))
}

/// The row that a cell reference names: the number that its digits write, 0 where that is none.
pub open spec fn ref_row(s: Seq<char>) -> nat {
    match parsed(digits_of(s), u32::MAX as nat) {
        Some(n) => n,
        None => 0,
    }
}

/// The column that a cell reference names: `A` is 1.
pub open spec fn ref_col(s: Seq<char>) -> nat {
    letters_value(s) % word()
}

/// One more letter, modulo the size of a `u32`.
proof fn lemma_letter_step(v: int, acc: int, d: int)
    requires
        acc == v % (word() as int),
    ensures
        ((acc * 26) % (word() as int) + d) % (word() as int) == (v * 26 + d) % (word() as int),
{
    let m = word() as int;
    lemma_mul_mod_noop(v, 26, m);
    lemma_small_mod(26, word());
    lemma_add_mod_noop(acc * 26, d, m);
    lemma_add_mod_noop(v * 26, d, m);
    lemma_mul_mod_noop(acc, 26, m);
    lemma_mod_bound(v, m);
    lemma_small_mod(acc as nat, word());
    assert((acc * 26) % m == (v * 26) % m);
    let x = (acc * 26) % m;
    lemma_add_mod_noop(x, d, m);
    lemma_mod_bound(acc * 26, m);
    lemma_small_mod(x as nat, word());
}

/// The row and the column that a cell reference names, in that order. Letters give the column,
/// in either case, and digits the row, wherever they stand; other characters are skipped. A
/// column beyond the `u32` range wraps around.
pub fn cell_ref_to_row_col(cell_ref: &str) -> (r: (u32, u32))
    ensures
        r.0 == ref_row(cell_ref@),
        r.1 == ref_col(cell_ref@),
{
    let s = to_chars(cell_ref);
    let mut row_digits = String::new();
    let mut col: u32 = 0;
    assert(s@.take(0) =~= Seq::<char>::empty());
    proof {
        lemma_small_mod(0, word());
    }
    for i in 0..s.len()
        invariant
            s@ == cell_ref@,
            col == letters_value(s@.take(i as int)) % word(),
            row_digits@ == digits_of(s@.take(i as int)),
    {
        let c = s[i];
        let ghost before = s@.take(i as int);
        proof {
            let after = s@.take(i + 1);
            assert(after.drop_last() =~= before);
            assert(after.last() == c);
            reveal(Seq::filter);
        }
        if 'A' <= c && c <= 'Z' || 'a' <= c && c <= 'z' {
            let d: u32 = if 'a' <= c {
                c as u32 - 'a' as u32 + 1
            } else {
                c as u32 - 'A' as u32 + 1
            };
            proof {
                lemma_letter_step(letters_value(before) as int, col as int, d as int);
            }
            col = col.wrapping_mul(26).wrapping_add(d);
        } else if '0' <= c && c <= '9' {
            row_digits.push(c);
        }
    }
    assert(s@.take(s@.len() as int) =~= s@);
    let row: u32 = match parse_u32(row_digits.as_str()) {
        Some(n) => n,
        None => 0,
    };
    (row, col)
}

/// The letter at place `r` of the alphabet, from 0 to 25.
pub open spec fn letter(r: nat) -> char {
    ('A' as u32 + r) as char
}

/// The letters of column `n`: `A` for 1, `Z` for 26, `AA` for 27; nothing for 0.
pub open spec fn col_letters(n: nat) -> Seq<char>
    decreases n,
{
    if n == 0 {
        Seq::empty()
    } else {
        col_letters(((n - 1) / 26) as nat).push(letter(((n - 1) % 26) as nat))
    }
}

/// The letters of column `n`: `A` for 1, `Z` for 26, `AA` for 27; nothing for 0.
pub fn col_num_to_str(n: u32) -> (r: String)
    ensures
        r@ == col_letters(n as nat),
    decreases n,
{
    if n == 0 {
        return String::new();
    }
    let mut s = col_num_to_str((n - 1) / 26);
    s.push(('A' as u8 + ((n - 1) % 26) as u8) as char);
    s
}

/// The corners of a range such as `A1:C3`, first and last row and column in the order first
/// row, first column, last row, last column. There is none where `s` has not exactly one
/// colon, or where the first corner has no row or no column.
pub open spec fn merge_corners(s: Seq<char>) -> Option<(nat, nat, nat, nat)> {
    let at = first_of(s, ':');
    let a = s.take(at);
    let b = s.skip(at + 1);
    if at < s.len() && !b.contains(':') && ref_row(a) > 0 && ref_col(a) > 0 {
        Some((ref_row(a), ref_col(a), ref_row(b), ref_col(b)))
    } else {
        None
    }
}

/// The corners of a range of cells: first row, first column, last row, last column.
pub fn parse_merge_ref(ref_str: &str) -> (r: Option<(u32, u32, u32, u32)>)
    ensures
        match r {
            Some((sr, sc, er, ec)) => merge_corners(ref_str@) == Some(
                (sr as nat, sc as nat, er as nat, ec as nat),
            ),
            None => merge_corners(ref_str@) is None,
        },
{
    let s = to_chars(ref_str);
    let at = find_first(&s, ':');
    if at == s.len() {
        return None;
    }
    let a = text_of(&s, 0, at);
    let b = text_of(&s, at + 1, s.len());
    assert(ref_str@.take(at as int) =~= a@);
    assert(ref_str@.skip(at + 1) =~= b@);
    let rest = to_chars(b.as_str());
    proof {
        lemma_first_of(b@, ':');
    }
    if find_first(&rest, ':') < rest.len() {
        return None;
    }
    let (r1, c1) = cell_ref_to_row_col(a.as_str());
    let (r2, c2) = cell_ref_to_row_col(b.as_str());
    if r1 > 0 && c1 > 0 {
        Some((r1, c1, r2, c2))
    } else {
        None
    }
}

/// The part of `s` behind its first colon.
pub open spec fn behind_colon(s: Seq<char>) -> Option<Seq<char>> {
    let at = first_of(s, ':');
    if at < s.len() {
        Some(s.skip(at + 1))
    } else {
        None
    }
}

/// The row and the column that stand behind the first colon of a range.
pub(crate) fn range_end(ref_str: &str) -> (r: Option<(u32, u32)>)
    ensures
        match r {
            Some((row, col)) => behind_colon(ref_str@) matches Some(b) && row == ref_row(b) && col
                == ref_col(b),
            None => behind_colon(ref_str@) is None,
        },
{
    let s = to_chars(ref_str);
    let at = find_first(&s, ':');
    if at == s.len() {
        return None;
    }
    let b = text_of(&s, at + 1, s.len());
    assert(ref_str@.skip(at + 1) =~= b@);
    Some(cell_ref_to_row_col(b.as_str()))
}

/// Rows and columns of references fit a `u32`.
pub(crate) proof fn lemma_ref_fits(s: Seq<char>)
    ensures
        ref_row(s) <= u32::MAX,
        ref_col(s) <= u32::MAX,
{
}

/// The name of a cell: the letters of its column, then its row.
pub open spec fn cell_name(row: nat, col: nat) -> Seq<char> {
    col_letters(col) + decimal(row)
}

/// The letters of a column stand for its number.
pub proof fn law_col_letters_value(n: nat)
    ensures
        letters_value(col_letters(n)) == n,
        digits_of(col_letters(n)) == Seq::<char>::empty(),
    decreases n,
{
    reveal(Seq::filter);
    if n > 0 {
        let q = ((n - 1) / 26) as nat;
        law_col_letters_value(q);
        let s = col_letters(n);
        assert(s.drop_last() =~= col_letters(q));
        assert(is_letter(s.last()));
        assert(letter_value(s.last()) == (n - 1) % 26 + 1);
    }
}

/// Two columns with the same letters are the same column.
pub proof fn law_col_letters_distinct(m: nat, n: nat)
    requires
        col_letters(m) == col_letters(n),
    ensures
        m == n,
{
    law_col_letters_value(m);
    law_col_letters_value(n);
}

/// Digits behind a text add nothing to its letters, and are its last digits.
proof fn lemma_digits_behind(s: Seq<char>, d: Seq<char>)
    requires
        all_digits(d),
    ensures
        letters_value(s + d) == letters_value(s),
        digits_of(s + d) == digits_of(s) + d,
    decreases d.len(),
{
    reveal(Seq::filter);
    if d.len() == 0 {
        assert(s + d =~= s);
        assert(digits_of(s) + d =~= digits_of(s));
    } else {
        let t = d.drop_last();
        assert forall|i: int| 0 <= i < t.len() implies is_digit(#[trigger] t[i]) by {
            assert(t[i] == d[i]);
        }
        lemma_digits_behind(s, t);
        assert((s + d).drop_last() =~= s + t);
        assert((s + d).last() == d.last());
        assert(is_digit(d[d.len() - 1]));
        assert(digits_of(s) + d =~= (digits_of(s) + t).push(d.last()));
    }
}

/// A cell's name leads back to its row and its column.
pub proof fn law_cell_name_reads_back(row: u32, col: u32)
    ensures
        ref_row(cell_name(row as nat, col as nat)) == row,
        ref_col(cell_name(row as nat, col as nat)) == col,
{
    law_col_letters_value(col as nat);
    lemma_decimal(row as nat);
    lemma_digits_behind(col_letters(col as nat), decimal(row as nat));
    let d = decimal(row as nat);
    assert(Seq::<char>::empty() + d =~= d);
    assert(is_digit(d[0]));
    assert(unsigned(d) == d);
    assert(digits_value(d) == row);
    lemma_small_mod(col as nat, word());
}

} // verus!
