//! The style sheet of a workbook: fonts, fills, borders, number formats, and the cell formats
//! that combine them.

use vstd::prelude::*;

use crate::archive::{part_named, Entries};
use crate::color::{optional_nat, optional_str, resolve_color, resolved_color};
use crate::floats::{number_of, read_number, readings_view, FloatReading, Number};
use crate::text::{is_text, optional, same};
use crate::xml::{
    copy_optional, events_view, read_document, xml_events, EventView, Tag, TagView, XmlEvent,
};

verus! {

/// A font.
pub struct StyleFont<T = String> {
    pub bold: bool,
    pub italic: bool,
    pub underline: bool,
    pub size: Number<T>,
    pub name: T,
    pub color: T,
}

impl View for StyleFont {
    type V = StyleFont<Seq<char>>;

    open spec fn view(&self) -> StyleFont<Seq<char>> {
        StyleFont {
            bold: self.bold,
            italic: self.italic,
            underline: self.underline,
            size: self.size@,
            name: self.name@,
            color: self.color@,
        }
    }
}

/// A fill: its background colour.
pub struct StyleFill<T = String> {
    pub bg_color: Option<T>,
}

impl View for StyleFill {
    type V = StyleFill<Seq<char>>;

    open spec fn view(&self) -> StyleFill<Seq<char>> {
        StyleFill { bg_color: optional(self.bg_color) }
    }
}

/// The line styles of the four sides of a cell; an empty text is no line.
pub struct StyleBorder<T = String> {
    pub left: T,
    pub right: T,
    pub top: T,
    pub bottom: T,
}

impl View for StyleBorder {
    type V = StyleBorder<Seq<char>>;

    open spec fn view(&self) -> StyleBorder<Seq<char>> {
        StyleBorder {
            left: self.left@,
            right: self.right@,
            top: self.top@,
            bottom: self.bottom@,
        }
    }
}

/// How the contents of a cell are aligned.
pub struct StyleAlign<T = String> {
    pub horizontal: T,
    pub vertical: T,
    pub wrap_text: bool,
    pub indent: u32,
}

impl View for StyleAlign {
    type V = StyleAlign<Seq<char>>;

    open spec fn view(&self) -> StyleAlign<Seq<char>> {
        StyleAlign {
            horizontal: self.horizontal@,
            vertical: self.vertical@,
            wrap_text: self.wrap_text,
            indent: self.indent,
        }
    }
}

/// A cell format: which font, fill, border and number format it combines, and an alignment.
pub struct CellXf<T = String> {
    pub font_id: usize,
    pub fill_id: usize,
    pub border_id: usize,
    pub num_fmt_id: u32,
    pub alignment: StyleAlign<T>,
}

impl View for CellXf {
    type V = CellXf<Seq<char>>;

    open spec fn view(&self) -> CellXf<Seq<char>> {
        CellXf {
            font_id: self.font_id,
            fill_id: self.fill_id,
            border_id: self.border_id,
            num_fmt_id: self.num_fmt_id,
            alignment: self.alignment@,
        }
    }
}

/// A style sheet. Of two number formats with one id, the later one counts.
pub struct Styles {
    pub fonts: Vec<StyleFont>,
    pub fills: Vec<StyleFill>,
    pub borders: Vec<StyleBorder>,
    pub cell_xfs: Vec<CellXf>,
    pub num_fmts: Vec<(u32, String)>,
}

/// What a [`Styles`] holds.
#[verifier::ext_equal]
pub struct StylesView {
    pub fonts: Seq<StyleFont<Seq<char>>>,
    pub fills: Seq<StyleFill<Seq<char>>>,
    pub borders: Seq<StyleBorder<Seq<char>>>,
    pub cell_xfs: Seq<CellXf<Seq<char>>>,
    pub num_fmts: Seq<(u32, Seq<char>)>,
}

impl View for Styles {
    type V = StylesView;

    open spec fn view(&self) -> StylesView {
        StylesView {
            fonts: Seq::new(self.fonts@.len(), |i: int| self.fonts@[i]@),
            fills: Seq::new(self.fills@.len(), |i: int| self.fills@[i]@),
            borders: Seq::new(self.borders@.len(), |i: int| self.borders@[i]@),
            cell_xfs: Seq::new(self.cell_xfs@.len(), |i: int| self.cell_xfs@[i]@),
            num_fmts: Seq::new(
                self.num_fmts@.len(),
                |i: int| (self.num_fmts@[i].0, self.num_fmts@[i].1@),
            ),
        }
    }
}

/// The number that stands for a size of 11 points.
pub open spec fn eleven() -> Number<Seq<char>> {
    Number { shown: "11"@, positive: true }
}

/// The font from which every font of a style sheet starts, and which stands for one that is
/// missing.
pub open spec fn default_font() -> StyleFont<Seq<char>> {
    StyleFont {
        bold: false,
        italic: false,
        underline: false,
        size: eleven(),
        name: Seq::empty(),
        color: Seq::empty(),
    }
}

/// The fill without a background colour.
pub open spec fn default_fill() -> StyleFill<Seq<char>> {
    StyleFill { bg_color: None }
}

/// The border without lines.
pub open spec fn default_border() -> StyleBorder<Seq<char>> {
    StyleBorder { left: Seq::empty(), right: Seq::empty(), top: Seq::empty(), bottom: Seq::empty() }
}

/// The cell format that says nothing.
pub open spec fn default_xf() -> CellXf<Seq<char>> {
    CellXf {
        font_id: 0,
        fill_id: 0,
        border_id: 0,
        num_fmt_id: 0,
        alignment: StyleAlign {
            horizontal: Seq::empty(),
            vertical: Seq::empty(),
            wrap_text: false,
            indent: 0,
        },
    }
}

/// The empty style sheet.
pub open spec fn no_styles() -> StylesView {
    StylesView {
        fonts: Seq::empty(),
        fills: Seq::empty(),
        borders: Seq::empty(),
        cell_xfs: Seq::empty(),
        num_fmts: Seq::empty(),
    }
}

impl StyleFont {
    /// The font from which every font starts.
    pub fn initial() -> (r: StyleFont)
        ensures
            r@ == default_font(),
    {
        StyleFont {
            bold: false,
            italic: false,
            underline: false,
            size: Number { shown: "11".to_owned(), positive: true },
            name: String::new(),
            color: String::new(),
        }
    }

    fn copy(&self) -> (r: StyleFont)
        ensures
            r@ == self@,
    {
        StyleFont {
            bold: self.bold,
            italic: self.italic,
            underline: self.underline,
            size: self.size.copy(),
            name: self.name.clone(),
            color: self.color.clone(),
        }
    }
}

impl StyleFill {
    /// The fill without a background colour.
    pub fn initial() -> (r: StyleFill)
        ensures
            r@ == default_fill(),
    {
        StyleFill { bg_color: None }
    }

    fn copy(&self) -> (r: StyleFill)
        ensures
            r@ == self@,
    {
        StyleFill { bg_color: copy_optional(&self.bg_color) }
    }
}

impl StyleBorder {
    /// The border without lines.
    pub fn initial() -> (r: StyleBorder)
        ensures
            r@ == default_border(),
    {
        StyleBorder {
            left: String::new(),
            right: String::new(),
            top: String::new(),
            bottom: String::new(),
        }
    }

    fn copy(&self) -> (r: StyleBorder)
        ensures
            r@ == self@,
    {
        StyleBorder {
            left: self.left.clone(),
            right: self.right.clone(),
            top: self.top.clone(),
            bottom: self.bottom.clone(),
        }
    }
}

impl CellXf {
    /// The cell format that says nothing.
    pub fn initial() -> (r: CellXf)
        ensures
            r@ == default_xf(),
    {
        CellXf {
            font_id: 0,
            fill_id: 0,
            border_id: 0,
            num_fmt_id: 0,
            alignment: StyleAlign {
                horizontal: String::new(),
                vertical: String::new(),
                wrap_text: false,
                indent: 0,
            },
        }
    }

    fn copy(&self) -> (r: CellXf)
        ensures
            r@ == self@,
    {
        CellXf {
            font_id: self.font_id,
            fill_id: self.fill_id,
            border_id: self.border_id,
            num_fmt_id: self.num_fmt_id,
            alignment: StyleAlign {
                horizontal: self.alignment.horizontal.clone(),
                vertical: self.alignment.vertical.clone(),
                wrap_text: self.alignment.wrap_text,
                indent: self.alignment.indent,
            },
        }
    }
}

/// The number format that Excel has built in under an id.
pub open spec fn builtin_format(id: u32) -> Seq<char> {
    if id == 1 {
        "0"@
    } else if id == 2 {
        "0.00"@
    } else if id == 3 {
        "#,##0"@
    } else if id == 4 {
        "#,##0.00"@
    } else if id == 9 {
        "0%"@
    } else if id == 10 {
        "0.00%"@
    } else if id == 11 {
        "0.00E+00"@
    } else if id == 12 {
        "# ?/?"@
    } else if id == 13 {
        "# ??/??"@
    } else if id == 14 {
        "m/d/yyyy"@
    } else if id == 15 {
        "d-mmm-yy"@
    } else if id == 16 {
        "d-mmm"@
    } else if id == 17 {
        "mmm-yy"@
    } else if id == 18 {
        "h:mm AM/PM"@
    } else if id == 19 {
        "h:mm:ss AM/PM"@
    } else if id == 20 {
        "h:mm"@
    } else if id == 21 {
        "h:mm:ss"@
    } else if id == 22 {
        "m/d/yyyy h:mm"@
    } else if id == 37 {
        "#,##0 ;(#,##0)"@
    } else if id == 38 {
        "#,##0 ;[Red](#,##0)"@
    } else if id == 39 {
        "#,##0.00;(#,##0.00)"@
    } else if id == 40 {
        "#,##0.00;[Red](#,##0.00)"@
    } else if id == 45 {
        "mm:ss"@
    } else if id == 46 {
        "[h]:mm:ss"@
    } else if id == 47 {
        "mmss.0"@
    } else if id == 48 {
        "##0.0E+0"@
    } else if id == 49 {
        "@"@
    } else {
        "General"@
    }
}

/// The number format that Excel has built in under an id.
fn builtin_text(id: u32) -> (r: &'static str)
    ensures
        r@ == builtin_format(id),
{
    if id == 1 {
        "0"
    } else if id == 2 {
        "0.00"
    } else if id == 3 {
        "#,##0"
    } else if id == 4 {
        "#,##0.00"
    } else if id == 9 {
        "0%"
    } else if id == 10 {
        "0.00%"
    } else if id == 11 {
        "0.00E+00"
    } else if id == 12 {
        "# ?/?"
    } else if id == 13 {
        "# ??/??"
    } else if id == 14 {
        "m/d/yyyy"
    } else if id == 15 {
        "d-mmm-yy"
    } else if id == 16 {
        "d-mmm"
    } else if id == 17 {
        "mmm-yy"
    } else if id == 18 {
        "h:mm AM/PM"
    } else if id == 19 {
        "h:mm:ss AM/PM"
    } else if id == 20 {
        "h:mm"
    } else if id == 21 {
        "h:mm:ss"
    } else if id == 22 {
        "m/d/yyyy h:mm"
    } else if id == 37 {
        "#,##0 ;(#,##0)"
    } else if id == 38 {
        "#,##0 ;[Red](#,##0)"
    } else if id == 39 {
        "#,##0.00;(#,##0.00)"
    } else if id == 40 {
        "#,##0.00;[Red](#,##0.00)"
    } else if id == 45 {
        "mm:ss"
    } else if id == 46 {
        "[h]:mm:ss"
    } else if id == 47 {
        "mmss.0"
    } else if id == 48 {
        "##0.0E+0"
    } else if id == 49 {
        "@"
    } else {
        "General"
    }
}

/// The last number format that a style sheet gives an id.
pub open spec fn custom_format(formats: Seq<(u32, Seq<char>)>, id: u32) -> Option<Seq<char>>
    decreases formats.len(),
{
    if formats.len() == 0 {
        None
    } else if formats.last().0 == id {
        Some(formats.last().1)
    } else {
        custom_format(formats.drop_last(), id)
    }
}

impl StylesView {
    /// The font with a number, or the default font.
    pub open spec fn font(self, idx: usize) -> StyleFont<Seq<char>> {
        if idx < self.fonts.len() {
            self.fonts[idx as int]
        } else {
            default_font()
        }
    }

    /// The fill with a number, or the default fill.
    pub open spec fn fill(self, idx: usize) -> StyleFill<Seq<char>> {
        if idx < self.fills.len() {
            self.fills[idx as int]
        } else {
            default_fill()
        }
    }

    /// The border with a number, or the default border.
    pub open spec fn border(self, idx: usize) -> StyleBorder<Seq<char>> {
        if idx < self.borders.len() {
            self.borders[idx as int]
        } else {
            default_border()
        }
    }

    /// The number format with an id: the style sheet's own, or else the built-in one.
    pub open spec fn num_fmt(self, id: u32) -> Seq<char> {
        match custom_format(self.num_fmts, id) {
            Some(s) => s,
            None => builtin_format(id),
        }
    }
}

impl Styles {
    /// The empty style sheet.
    pub fn none() -> (r: Styles)
        ensures
            r@ == no_styles(),
    {
        let r = Styles {
            fonts: Vec::new(),
            fills: Vec::new(),
            borders: Vec::new(),
            cell_xfs: Vec::new(),
            num_fmts: Vec::new(),
        };
        assert(r@ =~= no_styles());
        r
    }

    /// The cell format with a number.
    pub fn get_xf(&self, idx: usize) -> (r: Option<&CellXf>)
        ensures
            match r {
                Some(x) => idx < self@.cell_xfs.len() && x@ == self@.cell_xfs[idx as int],
                None => idx >= self@.cell_xfs.len(),
            },
    {
        if idx < self.cell_xfs.len() {
            Some(&self.cell_xfs[idx])
        } else {
            None
        }
    }

    /// The font with a number, or the default font.
    pub fn font(&self, idx: usize) -> (r: StyleFont)
        ensures
            r@ == self@.font(idx),
    {
        if idx < self.fonts.len() {
            self.fonts[idx].copy()
        } else {
            StyleFont::initial()
        }
    }

    /// The fill with a number, or the default fill.
    pub fn fill(&self, idx: usize) -> (r: StyleFill)
        ensures
            r@ == self@.fill(idx),
    {
        if idx < self.fills.len() {
            self.fills[idx].copy()
        } else {
            StyleFill::initial()
        }
    }

    /// The border with a number, or the default border.
    pub fn border(&self, idx: usize) -> (r: StyleBorder)
        ensures
            r@ == self@.border(idx),
    {
        if idx < self.borders.len() {
            self.borders[idx].copy()
        } else {
            StyleBorder::initial()
        }
    }

    /// The number format with an id: the style sheet's own, or else the built-in one.
    pub fn num_fmt(&self, id: u32) -> (r: String)
        ensures
            r@ == self@.num_fmt(id),
    {
        let ghost all = self@.num_fmts;
        let mut i: usize = self.num_fmts.len();
        assert(all.take(all.len() as int) =~= all);
        while i > 0
            invariant
                all == self@.num_fmts,
                i <= self.num_fmts@.len(),
                custom_format(all, id) == custom_format(all.take(i as int), id),
            decreases i,
        {
            assert(all.take(i as int).last() == all[i - 1]);
            assert(all.take(i as int).drop_last() =~= all.take(i - 1));
            i = i - 1;
            if self.num_fmts[i].0 == id {
                return self.num_fmts[i].1.clone();
            }
        }
        builtin_text(id).to_owned()
    }
}

/// The part of a style sheet that is being read.
#[derive(PartialEq, Eq, Structural, Clone, Copy)]
pub enum StyleSection {
    Outside,
    NumFmts,
    Fonts,
    Fills,
    Borders,
    CellXfs,
}

/// A style sheet that is being read: what has been found, and the pieces under construction.
struct StyleReader {
    styles: Styles,
    section: StyleSection,
    font: StyleFont,
    fill: StyleFill,
    border: StyleBorder,
    xf: CellXf,
}

/// What is known of a style sheet while it is being read.
#[verifier::ext_equal]
pub struct StyleState {
    pub styles: StylesView,
    pub section: StyleSection,
    pub font: StyleFont<Seq<char>>,
    pub fill: StyleFill<Seq<char>>,
    pub border: StyleBorder<Seq<char>>,
    pub xf: CellXf<Seq<char>>,
}

/// What is known at the beginning.
pub open spec fn style_start() -> StyleState {
    StyleState {
        styles: no_styles(),
        section: StyleSection::Outside,
        font: default_font(),
        fill: default_fill(),
        border: default_border(),
        xf: default_xf(),
    }
}

/// The colour that a tag's attributes give.
pub open spec fn tag_color(t: TagView) -> Option<Seq<char>> {
    resolved_color(
        t.attribute("rgb"@),
        t.number("theme"@, u32::MAX as nat),
        t.number("indexed"@, u32::MAX as nat),
    )
}

/// A fill colour that counts: neither black nor white nor nothing.
pub open spec fn fill_color(t: TagView) -> Option<Seq<char>> {
    match tag_color(t) {
        Some(c) => if c == "FF000000"@ || c == "00000000"@ || c == "FFFFFFFF"@ {
            None
        } else {
            Some(c)
        },
        None => None,
    }
}

/// The section that a tag or an end tag of this name stands for.
pub open spec fn section_named(name: Seq<char>) -> Option<StyleSection> {
    if name == "numFmts"@ {
        Some(StyleSection::NumFmts)
    } else if name == "fonts"@ {
        Some(StyleSection::Fonts)
    } else if name == "fills"@ {
        Some(StyleSection::Fills)
    } else if name == "borders"@ {
        Some(StyleSection::Borders)
    } else if name == "cellXfs"@ {
        Some(StyleSection::CellXfs)
    } else {
        None
    }
}

/// The number formats after a `numFmt` tag.
pub open spec fn with_num_fmt(formats: Seq<(u32, Seq<char>)>, t: TagView) -> Seq<(u32, Seq<char>)> {
    match (t.number("numFmtId"@, u32::MAX as nat), t.attribute("formatCode"@)) {
        (Some(id), Some(code)) => formats.push((id as u32, code)),
        _ => formats,
    }
}

/// The font after a tag inside the fonts.
pub open spec fn font_step(
    f: StyleFont<Seq<char>>,
    t: TagView,
    readings: Seq<FloatReading<Seq<char>>>,
) -> StyleFont<Seq<char>> {
    let val = t.attribute("val"@);
    if t.name == "b"@ {
        StyleFont { bold: val != Some("0"@), ..f }
    } else if t.name == "i"@ {
        StyleFont { italic: val != Some("0"@), ..f }
    } else if t.name == "u"@ {
        StyleFont { underline: val != Some("none"@), ..f }
    } else if t.name == "sz"@ {
        match val {
            Some(_) => StyleFont {
                size: match number_of(readings, val) {
                    Some(n) => n,
                    None => eleven(),
                },
                ..f
            },
            None => f,
        }
    } else if t.name == "name"@ {
        match val {
            Some(v) => StyleFont { name: v, ..f },
            None => f,
        }
    } else if t.name == "color"@ {
        match tag_color(t) {
            Some(c) => StyleFont { color: c, ..f },
            None => f,
        }
    } else if t.name == "font"@ {
        default_font()
    } else {
        f
    }
}

/// The fill after a tag inside the fills.
pub open spec fn fill_step(f: StyleFill<Seq<char>>, t: TagView) -> StyleFill<Seq<char>> {
    if t.name == "fgColor"@ {
        StyleFill { bg_color: fill_color(t) }
    } else if t.name == "fill"@ {
        default_fill()
    } else {
        f
    }
}

/// The border after a tag inside the borders.
pub open spec fn border_step(b: StyleBorder<Seq<char>>, t: TagView) -> StyleBorder<Seq<char>> {
    let style = t.attribute("style"@);
    if t.name == "border"@ {
        default_border()
    } else if style is None {
        b
    } else if t.name == "left"@ {
        StyleBorder { left: style->0, ..b }
    } else if t.name == "right"@ {
        StyleBorder { right: style->0, ..b }
    } else if t.name == "top"@ {
        StyleBorder { top: style->0, ..b }
    } else if t.name == "bottom"@ {
        StyleBorder { bottom: style->0, ..b }
    } else {
        b
    }
}

/// The number that an attribute writes, where it fits a `usize`; 0 where there is none.
pub open spec fn index_or_zero(t: TagView, name: Seq<char>) -> usize {
    match t.number(name, usize::MAX as nat) {
        Some(n) => n as usize,
        None => 0,
    }
}

/// The cell format after a tag inside the cell formats.
pub open spec fn xf_step(x: CellXf<Seq<char>>, t: TagView) -> CellXf<Seq<char>> {
    if t.name == "xf"@ {
        CellXf {
            font_id: index_or_zero(t, "fontId"@),
            fill_id: index_or_zero(t, "fillId"@),
            border_id: index_or_zero(t, "borderId"@),
            num_fmt_id: t.number_or("numFmtId"@, 0) as u32,
            alignment: default_xf().alignment,
        }
    } else if t.name == "alignment"@ {
        CellXf {
            alignment: StyleAlign {
                horizontal: t.text_or("horizontal"@, Seq::empty()),
                vertical: t.text_or("vertical"@, Seq::empty()),
                wrap_text: t.attribute("wrapText"@) == Some("1"@) || t.attribute("wrapText"@)
                    == Some("true"@),
                indent: t.number_or("indent"@, 0) as u32,
            },
            ..x
        }
    } else {
        x
    }
}

/// What is known after a start tag.
pub open spec fn style_tag(
    s: StyleState,
    t: TagView,
    readings: Seq<FloatReading<Seq<char>>>,
) -> StyleState {
    match section_named(t.name) {
        Some(section) => StyleState { section, ..s },
        None => match s.section {
            StyleSection::Outside => s,
            StyleSection::NumFmts => if t.name == "numFmt"@ {
                StyleState {
                    styles: StylesView { num_fmts: with_num_fmt(s.styles.num_fmts, t), ..s.styles },
                    ..s
                }
            } else {
                s
            },
            StyleSection::Fonts => StyleState { font: font_step(s.font, t, readings), ..s },
            StyleSection::Fills => StyleState { fill: fill_step(s.fill, t), ..s },
            StyleSection::Borders => StyleState { border: border_step(s.border, t), ..s },
            StyleSection::CellXfs => StyleState { xf: xf_step(s.xf, t), ..s },
        },
    }
}

/// What is known after an end tag.
pub open spec fn style_end(s: StyleState, name: Seq<char>) -> StyleState {
    if section_named(name) is Some {
        StyleState { section: StyleSection::Outside, ..s }
    } else if name == "font"@ && s.section == StyleSection::Fonts {
        StyleState {
            styles: StylesView { fonts: s.styles.fonts.push(s.font), ..s.styles },
            font: default_font(),
            ..s
        }
    } else if name == "fill"@ && s.section == StyleSection::Fills {
        StyleState {
            styles: StylesView { fills: s.styles.fills.push(s.fill), ..s.styles },
            fill: default_fill(),
            ..s
        }
    } else if name == "border"@ && s.section == StyleSection::Borders {
        StyleState {
            styles: StylesView { borders: s.styles.borders.push(s.border), ..s.styles },
            border: default_border(),
            ..s
        }
    } else if name == "xf"@ && s.section == StyleSection::CellXfs {
        StyleState {
            styles: StylesView { cell_xfs: s.styles.cell_xfs.push(s.xf), ..s.styles },
            xf: default_xf(),
            ..s
        }
    } else {
        s
    }
}

/// Whether an empty tag of this name is an element that begins and ends there.
pub open spec fn ends_at_once(name: Seq<char>) -> bool {
    name == "font"@ || name == "fill"@ || name == "border"@ || name == "xf"@
}

/// What is known after an empty tag. An empty font, fill, border or cell format is counted like
/// any other.
pub open spec fn style_empty(
    s: StyleState,
    t: TagView,
    readings: Seq<FloatReading<Seq<char>>>,
) -> StyleState {
    let begun = style_tag(s, t, readings);
    if ends_at_once(t.name) {
        style_end(begun, t.name)
    } else {
        begun
    }
}

/// What is known after one more event.
pub open spec fn style_step(
    s: StyleState,
    e: EventView,
    readings: Seq<FloatReading<Seq<char>>>,
) -> StyleState {
    match e {
        EventView::Start(t) => style_tag(s, t, readings),
        EventView::Empty(t) => style_empty(s, t, readings),
        EventView::End(n) => style_end(s, n),
        _ => s,
    }
}

/// What is known after some events.
pub open spec fn style_state(
    events: Seq<EventView>,
    readings: Seq<FloatReading<Seq<char>>>,
) -> StyleState
    decreases events.len(),
{
    if events.len() == 0 {
        style_start()
    } else {
        style_step(style_state(events.drop_last(), readings), events.last(), readings)
    }
}

/// The style sheet that some events describe.
pub open spec fn styles_of(
    events: Seq<EventView>,
    readings: Seq<FloatReading<Seq<char>>>,
) -> StylesView {
    style_state(events, readings).styles
}

/// The section that a name stands for.
fn find_section(name: &str) -> (r: Option<StyleSection>)
    ensures
        r == section_named(name@),
{
    if same(name, "numFmts") {
        Some(StyleSection::NumFmts)
    } else if same(name, "fonts") {
        Some(StyleSection::Fonts)
    } else if same(name, "fills") {
        Some(StyleSection::Fills)
    } else if same(name, "borders") {
        Some(StyleSection::Borders)
    } else if same(name, "cellXfs") {
        Some(StyleSection::CellXfs)
    } else {
        None
    }
}

/// The colour that a tag's attributes give.
fn read_color(t: &Tag) -> (r: Option<String>)
    ensures
        optional(r) == tag_color(t@),
{
    let rgb = t.attribute("rgb");
    let theme = t.number("theme");
    let indexed = t.number("indexed");
    let text: Option<&str> = match &rgb {
        Some(s) => Some(s.as_str()),
        None => None,
    };
    assert(optional_str(text) == t@.attribute("rgb"@));
    assert(optional_nat(theme) == t@.number("theme"@, u32::MAX as nat));
    assert(optional_nat(indexed) == t@.number("indexed"@, u32::MAX as nat));
    resolve_color(text, theme, indexed)
}

/// The fill colour that a tag's attributes give.
fn read_fill_color(t: &Tag) -> (r: Option<String>)
    ensures
        optional(r) == fill_color(t@),
{
    match read_color(t) {
        Some(c) => {
            if same(c.as_str(), "FF000000") || same(c.as_str(), "00000000") || same(
                c.as_str(),
                "FFFFFFFF",
            ) {
                None
            } else {
                Some(c)
            }
        },
        None => None,
    }
}

/// The number that an attribute writes; 0 where there is none.
fn read_index(t: &Tag, name: &str) -> (r: usize)
    ensures
        r == index_or_zero(t@, name@),
{
    match t.index(name) {
        Some(n) => n,
        None => 0,
    }
}

impl StyleReader {
    spec fn state(self) -> StyleState {
        StyleState {
            styles: self.styles@,
            section: self.section,
            font: self.font@,
            fill: self.fill@,
            border: self.border@,
            xf: self.xf@,
        }
    }

    /// Takes in a tag inside the fonts.
    fn font_tag(&mut self, t: &Tag, readings: &[FloatReading])
        ensures
            final(self).state() == (StyleState {
                font: font_step(old(self).font@, t@, readings_view(readings@)),
                ..old(self).state()
            }),
    {
        let val = t.attribute("val");
        if t.is("b") {
            self.font.bold = !is_text(&val, "0");
        } else if t.is("i") {
            self.font.italic = !is_text(&val, "0");
        } else if t.is("u") {
            self.font.underline = !is_text(&val, "none");
        } else if t.is("sz") {
            if val.is_some() {
                self.font.size = match read_number(readings, &val) {
                    Some(n) => n,
                    None => Number { shown: "11".to_owned(), positive: true },
                };
            }
        } else if t.is("name") {
            if let Some(v) = val {
                self.font.name = v;
            }
        } else if t.is("color") {
            if let Some(c) = read_color(t) {
                self.font.color = c;
            }
        } else if t.is("font") {
            self.font = StyleFont::initial();
        }
    }

    /// Takes in a tag inside the borders.
    fn border_tag(&mut self, t: &Tag)
        ensures
            final(self).state() == (StyleState {
                border: border_step(old(self).border@, t@),
                ..old(self).state()
            }),
    {
        if t.is("border") {
            self.border = StyleBorder::initial();
        } else if let Some(style) = t.attribute("style") {
            if t.is("left") {
                self.border.left = style;
            } else if t.is("right") {
                self.border.right = style;
            } else if t.is("top") {
                self.border.top = style;
            } else if t.is("bottom") {
                self.border.bottom = style;
            }
        }
    }

    /// Takes in a tag inside the cell formats.
    fn xf_tag(&mut self, t: &Tag)
        ensures
            final(self).state() == (StyleState {
                xf: xf_step(old(self).xf@, t@),
                ..old(self).state()
            }),
    {
        if t.is("xf") {
            self.xf = CellXf::initial();
            self.xf.font_id = read_index(t, "fontId");
            self.xf.fill_id = read_index(t, "fillId");
            self.xf.border_id = read_index(t, "borderId");
            self.xf.num_fmt_id = t.number_or("numFmtId", 0);
        } else if t.is("alignment") {
            proof {
                reveal_strlit("");
                assert(""@ =~= Seq::<char>::empty());
            }
            self.xf.alignment = StyleAlign {
                horizontal: t.text_or("horizontal", ""),
                vertical: t.text_or("vertical", ""),
                wrap_text: t.says("wrapText", "1") || t.says("wrapText", "true"),
                indent: t.number_or("indent", 0),
            };
        }
    }

    /// Takes in a start tag.
    fn tag(&mut self, t: &Tag, readings: &[FloatReading])
        ensures
            final(self).state() == style_tag(old(self).state(), t@, readings_view(readings@)),
    {
        if let Some(section) = find_section(t.name.as_str()) {
            self.section = section;
            return ;
        }
        match self.section {
            StyleSection::Outside => {},
            StyleSection::NumFmts => {
                if t.is("numFmt") {
                    if let (Some(id), Some(code)) = (t.number("numFmtId"), t.attribute(
                        "formatCode",
                    )) {
                        self.styles.num_fmts.push((id, code));
                        assert(self.styles@.num_fmts =~= old(self).styles@.num_fmts.push(
                            (id, code@),
                        ));
                    }
                }
                assert(self.state() =~= style_tag(
                    old(self).state(),
                    t@,
                    readings_view(readings@),
                ));
            },
            StyleSection::Fonts => {
                self.font_tag(t, readings);
            },
            StyleSection::Fills => {
                if t.is("fgColor") {
                    self.fill.bg_color = read_fill_color(t);
                } else if t.is("fill") {
                    self.fill = StyleFill::initial();
                }
            },
            StyleSection::Borders => {
                self.border_tag(t);
            },
            StyleSection::CellXfs => {
                self.xf_tag(t);
            },
        }
    }

    /// Takes in an end tag.
    fn end(&mut self, name: &str)
        ensures
            final(self).state() == style_end(old(self).state(), name@),
    {
        if find_section(name).is_some() {
            self.section = StyleSection::Outside;
        } else if same(name, "font") && self.section == StyleSection::Fonts {
            self.styles.fonts.push(self.font.copy());
            self.font = StyleFont::initial();
            assert(self.styles@.fonts =~= old(self).styles@.fonts.push(old(self).font@));
        } else if same(name, "fill") && self.section == StyleSection::Fills {
            self.styles.fills.push(self.fill.copy());
            self.fill = StyleFill::initial();
            assert(self.styles@.fills =~= old(self).styles@.fills.push(old(self).fill@));
        } else if same(name, "border") && self.section == StyleSection::Borders {
            self.styles.borders.push(self.border.copy());
            self.border = StyleBorder::initial();
            assert(self.styles@.borders =~= old(self).styles@.borders.push(old(self).border@));
        } else if same(name, "xf") && self.section == StyleSection::CellXfs {
            self.styles.cell_xfs.push(self.xf.copy());
            self.xf = CellXf::initial();
            assert(self.styles@.cell_xfs =~= old(self).styles@.cell_xfs.push(old(self).xf@));
        }
    }

    /// Takes in an empty tag.
    fn empty(&mut self, t: &Tag, readings: &[FloatReading])
        ensures
            final(self).state() == style_empty(old(self).state(), t@, readings_view(readings@)),
    {
        self.tag(t, readings);
        if t.is("font") || t.is("fill") || t.is("border") || t.is("xf") {
            self.end(t.name.as_str());
        }
    }
}

/// The style sheet that the events of `xl/styles.xml` describe.
pub fn styles_from_events(events: &[XmlEvent], readings: &[FloatReading]) -> (r: Styles)
    ensures
        r@ == styles_of(events_view(events@), readings_view(readings@)),
{
    let mut reader = StyleReader {
        styles: Styles::none(),
        section: StyleSection::Outside,
        font: StyleFont::initial(),
        fill: StyleFill::initial(),
        border: StyleBorder::initial(),
        xf: CellXf::initial(),
    };
    let ghost all = events_view(events@);
    let ghost table = readings_view(readings@);
    assert(all.take(0) =~= Seq::<EventView>::empty());
    for i in 0..events.len()
        invariant
            all == events_view(events@),
            table == readings_view(readings@),
            reader.state() == style_state(all.take(i as int), table),
    {
        assert(all.take(i + 1).drop_last() =~= all.take(i as int));
        assert(all.take(i + 1).last() == events@[i as int]@);
        match &events[i] {
            XmlEvent::Start(t) => reader.tag(t, readings),
            XmlEvent::Empty(t) => reader.empty(t, readings),
            XmlEvent::End(n) => reader.end(n.as_str()),
            _ => {},
        }
    }
    assert(all.take(all.len() as int) =~= all);
    reader.styles
}

/// The style sheet of a workbook whose parts are given; the empty one where it has none.
pub open spec fn workbook_styles(
    parts: Seq<(Seq<char>, Seq<u8>)>,
    readings: Seq<FloatReading<Seq<char>>>,
) -> StylesView {
    match part_named(parts, "xl/styles.xml"@) {
        Some(data) => styles_of(xml_events(data, true), readings),
        None => no_styles(),
    }
}

/// The style sheet of a workbook.
pub fn parse_styles(entries: &Entries, readings: &[FloatReading]) -> (r: Styles)
    ensures
        r@ == workbook_styles(entries@, readings_view(readings@)),
{
    match entries.get("xl/styles.xml") {
        Some(data) => {
            let document = read_document(data, true);
            styles_from_events(document.events.as_slice(), readings)
        },
        None => Styles::none(),
    }
}

} // verus!
