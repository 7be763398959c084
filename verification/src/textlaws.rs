//! Attributes, escaping, numbers and white space, as they are read and written.

use vstd::prelude::*;

use crate::floats::{reading_of, FloatReading};
use crate::text::{
    after_last, ascii_lower, ascii_upper, decimal, is_digit, is_space, parsed, trimmed, trimmed_end,
    trimmed_start, truth, unsigned,
};
use crate::xml::{
    escaped_char, find_attribute, find_qualified, root_attribute, root_tag, xml_escaped, Attr,
    EventView, TagView,
};

verus! {

/// Whether none of some attributes is malformed or has a name.
pub open spec fn others(items: Seq<Option<Attr<Seq<char>>>>, name: Seq<char>) -> bool {
    forall|i: int| 0 <= i < items.len() ==> (#[trigger] items[i]) is Some && items[i]->0.key != name
}

/// The first attribute behind others.
proof fn lemma_find(
    a: Seq<Option<Attr<Seq<char>>>>,
    x: Attr<Seq<char>>,
    b: Seq<Option<Attr<Seq<char>>>>,
    name: Seq<char>,
)
    requires
        others(a, name),
        x.key == name,
    ensures
        find_attribute(a + seq![Some(x)] + b, name) == Some(x),
    decreases a.len(),
{
    let all = a + seq![Some(x)] + b;
    if a.len() == 0 {
        assert(all[0] == Some(x));
    } else {
        assert(all[0] == a[0]);
        let rest = a.drop_first();
        assert forall|i: int| 0 <= i < rest.len() implies (#[trigger] rest[i]) is Some
            && rest[i]->0.key != name by {
            assert(rest[i] == a[i + 1]);
        }
        lemma_find(rest, x, b, name);
        assert(all.drop_first() =~= rest + seq![Some(x)] + b);
    }
}

/// No attribute among others.
proof fn lemma_find_none(a: Seq<Option<Attr<Seq<char>>>>, name: Seq<char>)
    requires
        others(a, name),
    ensures
        find_attribute(a, name) is None,
    decreases a.len(),
{
    if a.len() > 0 {
        assert(a[0] is Some && a[0]->0.key != name);
        let rest = a.drop_first();
        assert forall|i: int| 0 <= i < rest.len() implies (#[trigger] rest[i]) is Some
            && rest[i]->0.key != name by {
            assert(rest[i] == a[i + 1]);
        }
        lemma_find_none(rest, name);
    }
}

/// An attribute of a tag is found by its exact name wherever it stands among others; of two with
/// one name the first counts, and a name that no attribute has finds nothing.
pub proof fn law_attributes_are_found(
    t: TagView,
    a: Seq<Option<Attr<Seq<char>>>>,
    x: Attr<Seq<char>>,
    b: Seq<Option<Attr<Seq<char>>>>,
    name: Seq<char>,
)
    requires
        others(a, name),
    ensures
        x.key == name && t.attributes == a + seq![Some(x)] + b ==> t.attribute(name) == x.value,
        t.attributes == a ==> t.attribute(name) is None,
{
    if x.key == name {
        lemma_find(a, x, b, name);
    }
    lemma_find_none(a, name);
}

/// An attribute is found behind a prefix too: the first whose name is the one that is asked for,
/// or ends with a colon and that name.
pub proof fn law_prefixed_attributes_are_found(
    t: TagView,
    a: Seq<Option<Attr<Seq<char>>>>,
    prefix: Seq<char>,
    value: Option<Seq<char>>,
    b: Seq<Option<Attr<Seq<char>>>>,
    name: Seq<char>,
)
    requires
        forall|i: int|
            0 <= i < a.len() ==> ((#[trigger] a[i]) matches Some(y) ==> y.key != name && !(
            y.key.len() > name.len() && y.key.skip(y.key.len() - name.len() - 1) == seq![':']
                + name)),
    ensures
        t.unique == a + seq![Some(Attr { key: prefix + seq![':'] + name, value })] + b
            ==> t.qualified(name) == value,
        t.unique == a + seq![Some(Attr { key: name, value })] + b ==> t.qualified(name) == value,
        t.unique == a ==> t.qualified(name) is None,
{
    let k = prefix + seq![':'] + name;
    let x = Attr { key: k, value };
    let y = Attr { key: name, value };
    assert(k.skip(k.len() - name.len() - 1) =~= seq![':'] + name);
    assert((seq![':'] + name).len() == name.len() + 1);
    lemma_qualified(a, x, b, name);
    lemma_qualified(a, y, b, name);
    lemma_not_qualified(a, name);
}

/// The first qualified attribute behind others.
proof fn lemma_qualified(
    a: Seq<Option<Attr<Seq<char>>>>,
    x: Attr<Seq<char>>,
    b: Seq<Option<Attr<Seq<char>>>>,
    name: Seq<char>,
)
    requires
        forall|i: int|
            0 <= i < a.len() ==> ((#[trigger] a[i]) matches Some(y) ==> y.key != name && !(
            y.key.len() > name.len() && y.key.skip(y.key.len() - name.len() - 1) == seq![':']
                + name)),
        x.key == name || x.key.len() > name.len() && x.key.skip(x.key.len() - name.len() - 1)
            == seq![':'] + name,
    ensures
        find_qualified(a + seq![Some(x)] + b, name) == Some(x),
    decreases a.len(),
{
    let all = a + seq![Some(x)] + b;
    assert((seq![':'] + name).len() == name.len() + 1);
    if a.len() == 0 {
        assert(all[0] == Some(x));
    } else {
        assert(all[0] == a[0]);
        let rest = a.drop_first();
        assert forall|i: int| 0 <= i < rest.len() implies ((#[trigger] rest[i]) matches Some(y)
            ==> y.key != name && !(y.key.len() > name.len() && y.key.skip(
            y.key.len() - name.len() - 1,
        ) == seq![':'] + name)) by {
            assert(rest[i] == a[i + 1]);
        }
        lemma_qualified(rest, x, b, name);
        assert(all.drop_first() =~= rest + seq![Some(x)] + b);
    }
}

/// No qualified attribute among others.
proof fn lemma_not_qualified(a: Seq<Option<Attr<Seq<char>>>>, name: Seq<char>)
    requires
        forall|i: int|
            0 <= i < a.len() ==> ((#[trigger] a[i]) matches Some(y) ==> y.key != name && !(
            y.key.len() > name.len() && y.key.skip(y.key.len() - name.len() - 1) == seq![':']
                + name)),
    ensures
        find_qualified(a, name) is None,
    decreases a.len(),
{
    assert((seq![':'] + name).len() == name.len() + 1);
    if a.len() > 0 {
        assert(a[0] matches Some(y) ==> y.key != name);
        let rest = a.drop_first();
        assert forall|i: int| 0 <= i < rest.len() implies ((#[trigger] rest[i]) matches Some(y)
            ==> y.key != name && !(y.key.len() > name.len() && y.key.skip(
            y.key.len() - name.len() - 1,
        ) == seq![':'] + name)) by {
            assert(rest[i] == a[i + 1]);
        }
        lemma_not_qualified(rest, name);
    }
}

/// The root element is the first tag of a document, whatever stands before it.
pub proof fn law_the_root_is_the_first_tag(
    before: Seq<EventView>,
    t: TagView,
    after: Seq<EventView>,
    name: Seq<char>,
)
    requires
        forall|i: int|
            0 <= i < before.len() ==> !((#[trigger] before[i]) is Start) && !(before[i] is Empty),
    ensures
        root_tag(before) is None,
        root_tag(before + seq![EventView::Start(t)] + after) == Some(t),
        root_tag(before + seq![EventView::Empty(t)] + after) == Some(t),
        root_attribute(before + seq![EventView::Start(t)] + after, name) == t.attribute(name),
        root_attribute(before, name) is None,
    decreases before.len(),
{
    let a = before + seq![EventView::Start(t)] + after;
    let b = before + seq![EventView::Empty(t)] + after;
    if before.len() == 0 {
        assert(a[0] == EventView::Start(t));
        assert(b[0] == EventView::Empty(t));
    } else {
        assert(a[0] == before[0]);
        assert(b[0] == before[0]);
        let rest = before.drop_first();
        assert forall|i: int| 0 <= i < rest.len() implies !((#[trigger] rest[i]) is Start) && !(
        rest[i] is Empty) by {
            assert(rest[i] == before[i + 1]);
        }
        law_the_root_is_the_first_tag(rest, t, after, name);
        assert(a.drop_first() =~= rest + seq![EventView::Start(t)] + after);
        assert(b.drop_first() =~= rest + seq![EventView::Empty(t)] + after);
    }
}

/// The five characters that XML reserves are written as their entities, and every other
/// character as it stands.
pub proof fn law_entities(c: char)
    ensures
        escaped_char('&') == "&amp;"@,
        escaped_char('<') == "&lt;"@,
        escaped_char('>') == "&gt;"@,
        escaped_char('"') == "&quot;"@,
        escaped_char('\'') == "&apos;"@,
        c != '&' && c != '<' && c != '>' && c != '"' && c != '\'' ==> escaped_char(c) == seq![c],
{
}

/// A text is escaped character by character, in its order.
pub proof fn law_texts_are_escaped_one_by_one(a: Seq<char>, b: Seq<char>, c: char)
    ensures
        xml_escaped(a + b) == xml_escaped(a) + xml_escaped(b),
        xml_escaped(seq![c]) == escaped_char(c),
        xml_escaped(Seq::empty()).len() == 0,
    decreases b.len(),
{
    assert(seq![c].drop_last() =~= Seq::<char>::empty());
    assert(xml_escaped(Seq::<char>::empty()) =~= Seq::<char>::empty());
    assert(Seq::<char>::empty() + escaped_char(c) =~= escaped_char(c));
    assert(xml_escaped(seq![c]) == xml_escaped(Seq::<char>::empty()) + escaped_char(c));
    if b.len() == 0 {
        assert(a + b =~= a);
        assert(xml_escaped(a) + xml_escaped(b) =~= xml_escaped(a));
    } else {
        law_texts_are_escaped_one_by_one(a, b.drop_last(), c);
        assert((a + b).drop_last() =~= a + b.drop_last());
        assert(xml_escaped(a) + xml_escaped(b.drop_last()) + escaped_char(b.last())
            =~= xml_escaped(a) + (xml_escaped(b.drop_last()) + escaped_char(b.last())));
    }
}

/// A text that holds none of the reserved characters is written as it stands.
pub proof fn law_plain_texts_stay(s: Seq<char>)
    requires
        forall|i: int|
            0 <= i < s.len() ==> #[trigger] s[i] != '&' && s[i] != '<' && s[i] != '>' && s[i] != '"'
                && s[i] != '\'',
    ensures
        xml_escaped(s) == s,
    decreases s.len(),
{
    if s.len() > 0 {
        let rest = s.drop_last();
        assert forall|i: int| 0 <= i < rest.len() implies #[trigger] rest[i] != '&' && rest[i]
            != '<' && rest[i] != '>' && rest[i] != '"' && rest[i] != '\'' by {
            assert(rest[i] == s[i]);
        }
        law_plain_texts_stay(rest);
        assert(s[s.len() - 1] == s.last());
        assert(rest + seq![s.last()] =~= s);
    }
}

/// A number is read from digits, with or without a plus sign; what holds anything else, nothing
/// at all, or a number beyond the limit, is none.
pub proof fn law_numbers_are_read_from_digits(s: Seq<char>, limit: nat, i: int)
    ensures
        parsed(Seq::empty(), limit) is None,
        parsed(seq!['+'], limit) is None,
        0 < i < s.len() && !('0' <= s[i] <= '9') ==> parsed(s, limit) is None,
        s.len() > 0 && !('0' <= s[0] <= '9') && s[0] != '+' ==> parsed(s, limit) is None,
        parsed(s, limit) matches Some(n) ==> n <= limit,
{
    let d = unsigned(s);
    if 0 < i < s.len() && !('0' <= s[i] <= '9') {
        if d == s {
            assert(!is_digit(d[i]));
        } else {
            assert(d == s.skip(1));
            assert(d[i - 1] == s[i]);
            assert(!is_digit(d[i - 1]));
        }
    }
    if s.len() > 0 && !('0' <= s[0] <= '9') && s[0] != '+' {
        assert(!is_digit(d[0]));
    }
    assert(seq!['+'].skip(1) =~= Seq::<char>::empty());
}

/// Digits keep their value behind a plus sign and behind zeros, and a digit more counts ten
/// times what was there and itself.
pub proof fn law_digits_count_by_tens(s: Seq<char>, d: nat, n: nat, limit: nat)
    requires
        d < 10,
        parsed(s, limit) == Some(n),
        s[0] != '+',
        n * 10 + d <= limit,
    ensures
        parsed(seq!['+'] + s, limit) == Some(n),
        parsed(s.push(('0' as u32 + d) as char), limit) == Some((n * 10 + d) as nat),
{
    let plus = seq!['+'] + s;
    assert(plus[0] == '+');
    assert(plus.skip(1) =~= s);
    assert(unsigned(plus) == s);
    let c = ('0' as u32 + d) as char;
    let more = s.push(c);
    assert(more[0] == s[0]);
    assert(more.drop_last() =~= s);
    assert(is_digit(c));
    assert forall|i: int| 0 <= i < more.len() implies is_digit(#[trigger] more[i]) by {
        if i < s.len() {
            assert(more[i] == s[i]);
        }
    }
}

/// A number below ten is written as its digit, and any other as what a tenth of it is, without
/// fractions, and then its last digit. Truth values are written as words.
pub proof fn law_decimals(n: nat)
    ensures
        n < 10 ==> decimal(n) == seq![('0' as u32 + n) as char],
        n >= 10 ==> decimal(n) == decimal(n / 10).push(('0' as u32 + n % 10) as char),
        truth(true) == "true"@,
        truth(false) == "false"@,
{
    if n < 10 {
        assert(decimal(n) =~= seq![('0' as u32 + n) as char]);
    }
}

/// White space around a text is not part of it; what is inside stays.
pub proof fn law_white_space_is_trimmed(a: Seq<char>, s: Seq<char>, b: Seq<char>)
    requires
        forall|i: int| 0 <= i < a.len() ==> is_space(#[trigger] a[i]),
        forall|i: int| 0 <= i < b.len() ==> is_space(#[trigger] b[i]),
        s.len() > 0 ==> !is_space(s[0]) && !is_space(s.last()),
        s.len() == 0 ==> b.len() == 0,
    ensures
        trimmed(a + s + b) == s,
{
    lemma_trimmed_start(a, s + b);
    assert(a + s + b =~= a + (s + b));
    lemma_trimmed_end(s, b);
}

/// White space in front of a text.
proof fn lemma_trimmed_start(a: Seq<char>, s: Seq<char>)
    requires
        forall|i: int| 0 <= i < a.len() ==> is_space(#[trigger] a[i]),
        s.len() > 0 ==> !is_space(s[0]),
    ensures
        trimmed_start(a + s) == s,
    decreases a.len(),
{
    let all = a + s;
    if a.len() == 0 {
        assert(all =~= s);
    } else {
        assert(all[0] == a[0]);
        let rest = a.drop_first();
        assert forall|i: int| 0 <= i < rest.len() implies is_space(#[trigger] rest[i]) by {
            assert(rest[i] == a[i + 1]);
        }
        lemma_trimmed_start(rest, s);
        assert(all.drop_first() =~= rest + s);
    }
}

/// White space behind a text.
proof fn lemma_trimmed_end(s: Seq<char>, b: Seq<char>)
    requires
        forall|i: int| 0 <= i < b.len() ==> is_space(#[trigger] b[i]),
        s.len() > 0 ==> !is_space(s.last()),
    ensures
        trimmed_end(s + b) == s,
    decreases b.len(),
{
    let all = s + b;
    if b.len() == 0 {
        assert(all =~= s);
    } else {
        assert(all.last() == b.last());
        assert(b[b.len() - 1] == b.last());
        let rest = b.drop_last();
        assert forall|i: int| 0 <= i < rest.len() implies is_space(#[trigger] rest[i]) by {
            assert(rest[i] == b[i]);
        }
        lemma_trimmed_end(s, rest);
        assert(all.drop_last() =~= s + rest);
    }
}

/// The white space of ASCII is space, tab, line feed, vertical tab, form feed and carriage
/// return.
pub proof fn law_white_space_of_ascii(c: char)
    requires
        (c as u32) < 128,
    ensures
        is_space(c) <==> c == ' ' || 9 <= (c as u32) <= 13,
{
}

/// What stands behind the last mark of a text is what follows it, and all of a text without one.
pub proof fn law_behind_the_last_mark(a: Seq<char>, s: Seq<char>, c: char)
    requires
        !s.contains(c),
    ensures
        after_last(a.push(c) + s, c) == s,
        after_last(s, c) == s,
    decreases s.len(),
{
    let all = a.push(c) + s;
    if s.len() == 0 {
        assert(all =~= a.push(c));
        assert(after_last(all, c) =~= s);
    } else {
        let rest = s.drop_last();
        assert(s[s.len() - 1] == s.last());
        assert(!rest.contains(c)) by {
            if rest.contains(c) {
                let i = choose|i: int| 0 <= i < rest.len() && rest[i] == c;
                assert(s[i] == c);
            }
        }
        law_behind_the_last_mark(a, rest, c);
        assert(all.drop_last() =~= a.push(c) + rest);
        assert(all.last() == s.last());
        assert(rest.push(s.last()) =~= s);
    }
}

/// Of ASCII letters the case is changed one by one; every other character stays.
pub proof fn law_letters_change_their_case(s: Seq<char>, i: int)
    requires
        0 <= i < s.len(),
    ensures
        ascii_lower(s).len() == s.len(),
        ascii_upper(s).len() == s.len(),
        'A' <= s[i] <= 'Z' ==> ascii_lower(s)[i] as u32 == s[i] as u32 + 32 && ascii_upper(s)[i]
            == s[i],
        'a' <= s[i] <= 'z' ==> ascii_upper(s)[i] as u32 == s[i] as u32 - 32 && ascii_lower(s)[i]
            == s[i],
        !('A' <= s[i] <= 'Z') && !('a' <= s[i] <= 'z') ==> ascii_lower(s)[i] == s[i]
            && ascii_upper(s)[i] == s[i],
{
}

/// A text reads as the number that the table gives for exactly this text, and as none where the
/// table does not hold it.
pub proof fn law_readings_are_found(
    a: Seq<FloatReading<Seq<char>>>,
    r: FloatReading<Seq<char>>,
    b: Seq<FloatReading<Seq<char>>>,
)
    requires
        forall|i: int| 0 <= i < a.len() ==> (#[trigger] a[i]).text != r.text,
    ensures
        reading_of(a + seq![r] + b, r.text) == Some(r),
        reading_of(a, r.text) is None,
    decreases a.len(),
{
    let all = a + seq![r] + b;
    if a.len() == 0 {
        assert(all[0] == r);
    } else {
        assert(all[0] == a[0]);
        let rest = a.drop_first();
        assert forall|i: int| 0 <= i < rest.len() implies (#[trigger] rest[i]).text != r.text by {
            assert(rest[i] == a[i + 1]);
        }
        law_readings_are_found(rest, r, b);
        assert(all.drop_first() =~= rest + seq![r] + b);
    }
}

} // verus!
