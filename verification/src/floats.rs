//! Floating-point numbers, as far as this library needs them.
//!
//! Widths, heights and font sizes are floating-point numbers. The library does not compute
//! with them: its caller reads each text once and hands the library a table of what it found.

use vstd::prelude::*;

use crate::text::same;

verus! {

/// A floating-point number: its shortest decimal text, and whether it is greater than zero.
pub struct Number<T = String> {
    pub shown: T,
    pub positive: bool,
}

impl View for Number {
    type V = Number<Seq<char>>;

    open spec fn view(&self) -> Number<Seq<char>> {
        Number { shown: self.shown@, positive: self.positive }
    }
}

impl Number {
    /// The same number once more.
    pub(crate) fn copy(&self) -> (r: Number)
        ensures
            r@ == self@,
    {
        Number { shown: self.shown.clone(), positive: self.positive }
    }
}

/// A text that reads as a floating-point number.
pub struct FloatReading<T = String> {
    pub text: T,
    /// The number that the text reads as.
    pub number: Number<T>,
    /// The number as a length in English Metric Units, shown in pixels of 1/96 inch.
    pub pixels: T,
}

impl View for FloatReading {
    type V = FloatReading<Seq<char>>;

    open spec fn view(&self) -> FloatReading<Seq<char>> {
        FloatReading { text: self.text@, number: self.number@, pixels: self.pixels@ }
    }
}

/// What a table of readings holds.
pub open spec fn readings_view(readings: Seq<FloatReading>) -> Seq<FloatReading<Seq<char>>> {
    Seq::new(readings.len(), |i: int| readings[i]@)
}

/// The first reading of `text` in a table. A text that is not there reads as no number.
pub open spec fn reading_of(
    readings: Seq<FloatReading<Seq<char>>>,
    text: Seq<char>,
) -> Option<FloatReading<Seq<char>>>
    decreases readings.len(),
{
    if readings.len() == 0 {
        None
    } else if readings[0].text == text {
        Some(readings[0])
    } else {
        reading_of(readings.drop_first(), text)
    }
}

/// The first reading of `text` in a table.
pub(crate) fn find_reading<'a>(readings: &'a [FloatReading], text: &str) -> (r: Option<
    &'a FloatReading,
>)
    ensures
        match r {
            Some(f) => reading_of(readings_view(readings@), text@) == Some(f@),
            None => reading_of(readings_view(readings@), text@) is None,
        },
{
    let ghost all = readings_view(readings@);
    assert(all.skip(0) =~= all);
    for i in 0..readings.len()
        invariant
            all == readings_view(readings@),
            reading_of(all, text@) == reading_of(all.skip(i as int), text@),
    {
        assert(all.skip(i as int)[0] == readings@[i as int]@);
        assert(all.skip(i as int).drop_first() =~= all.skip(i + 1));
        if same(readings[i].text.as_str(), text) {
            return Some(&readings[i]);
        }
    }
    None
}

/// The number that an optional text reads as.
pub open spec fn number_of(
    readings: Seq<FloatReading<Seq<char>>>,
    text: Option<Seq<char>>,
) -> Option<Number<Seq<char>>> {
    match text {
        Some(t) => match reading_of(readings, t) {
            Some(f) => Some(f.number),
            None => None,
        },
        None => None,
    }
}

/// The number that an optional text reads as.
pub(crate) fn read_number(readings: &[FloatReading], text: &Option<String>) -> (r: Option<Number>)
    ensures
        match r {
            Some(n) => number_of(readings_view(readings@), crate::text::optional(*text)) == Some(
                n@,
            ),
            None => number_of(readings_view(readings@), crate::text::optional(*text)) is None,
        },
{
    match text {
        Some(t) => match find_reading(readings, t.as_str()) {
            Some(f) => Some(f.number.copy()),
            None => None,
        },
        None => None,
    }
}

/// The length in pixels that an optional text reads as.
pub open spec fn pixels_of(
    readings: Seq<FloatReading<Seq<char>>>,
    text: Seq<char>,
) -> Option<Seq<char>> {
    match reading_of(readings, text) {
        Some(f) => Some(f.pixels),
        None => None,
    }
}

/// The length in pixels that a text reads as.
pub(crate) fn read_pixels(readings: &[FloatReading], text: &str) -> (r: Option<String>)
    ensures
        crate::text::optional(r) == pixels_of(readings_view(readings@), text@),
{
    match find_reading(readings, text) {
        Some(f) => Some(f.pixels.clone()),
        None => None,
    }
}

} // verus!
