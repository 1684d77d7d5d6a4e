//! What is drawn: styled text and the areas it goes into.

use ratatui::layout::{Constraint, Direction, Layout};

use vstd::prelude::*;
use vstd::string::*;

verus! {

/// A colour.
#[derive(Debug, Clone, Copy, PartialEq, Eq, Structural)]
pub enum Color {
    Reset,
    Black,
    Red,
    Green,
    Yellow,
    Blue,
    Magenta,
    Cyan,
    Gray,
    DarkGray,
    LightRed,
    LightGreen,
    LightYellow,
    LightBlue,
    LightMagenta,
    LightCyan,
    White,
    /// A colour of the palette.
    Indexed(u8),
    /// A colour by its red, green and blue parts.
    Rgb(u8, u8, u8),
}

/// How text looks. What is not set is left as it is.
#[derive(Debug, Clone, Copy)]
pub struct Style {
    /// The colour of the text.
    pub fg: Option<Color>,
    /// The colour behind it.
    pub bg: Option<Color>,
    /// Bold text.
    pub bold: bool,
    /// Dim text.
    pub dim: bool,
    /// Italic text.
    pub italic: bool,
    /// Underlined text.
    pub underlined: bool,
    /// Text with its colours exchanged.
    pub reversed: bool,
}

impl Style {
    /// Nothing set.
    pub open spec fn spec_plain() -> Style {
        Style {
            fg: None,
            bg: None,
            bold: false,
            dim: false,
            italic: false,
            underlined: false,
            reversed: false,
        }
    }

    /// Nothing set.
    #[verifier::when_used_as_spec(spec_plain)]
    pub fn plain() -> (s: Style)
        ensures
            s == Style::spec_plain(),
    {
        Style {
            fg: None,
            bg: None,
            bold: false,
            dim: false,
            italic: false,
            underlined: false,
            reversed: false,
        }
    }

    /// Text in a colour.
    pub open spec fn spec_colored(c: Color) -> Style {
        Style { fg: Some(c), ..Style::spec_plain() }
    }

    /// Text in a colour.
    #[verifier::when_used_as_spec(spec_colored)]
    pub fn colored(c: Color) -> (s: Style)
        ensures
            s == Style::spec_colored(c),
    {
        let mut s = Style::plain();
        s.fg = Some(c);
        s
    }

    /// The same, in bold.
    pub open spec fn spec_bold(self) -> Style {
        Style { bold: true, ..self }
    }

    /// The same, in bold.
    #[verifier::when_used_as_spec(spec_bold)]
    pub fn bold(self) -> (s: Style)
        ensures
            s == self.spec_bold(),
    {
        let mut s = self;
        s.bold = true;
        s
    }

    /// The same, in italics.
    pub open spec fn spec_italic(self) -> Style {
        Style { italic: true, ..self }
    }

    /// The same, in italics.
    #[verifier::when_used_as_spec(spec_italic)]
    pub fn italic(self) -> (s: Style)
        ensures
            s == self.spec_italic(),
    {
        let mut s = self;
        s.italic = true;
        s
    }

    /// The same, on a colour.
    pub open spec fn spec_on(self, c: Color) -> Style {
        Style { bg: Some(c), ..self }
    }

    /// The same, on a colour.
    #[verifier::when_used_as_spec(spec_on)]
    pub fn on(self, c: Color) -> (s: Style)
        ensures
            s == self.spec_on(c),
    {
        let mut s = self;
        s.bg = Some(c);
        s
    }
}

/// Text in one style.
#[derive(Debug, Clone)]
pub struct Span {
    pub text: String,
    pub style: Style,
}

/// A line of text, with a style under those of its parts.
#[derive(Debug, Clone)]
pub struct Line {
    pub spans: Vec<Span>,
    pub style: Style,
}

/// An entry of a list, with a style under those of its lines.
#[derive(Debug, Clone)]
pub struct Item {
    pub lines: Vec<Line>,
    pub style: Style,
}

/// Text in one style, as a value.
pub struct SpanModel {
    pub text: Seq<char>,
    pub style: Style,
}

/// A line, as a value.
#[verifier::ext_equal]
pub struct LineModel {
    pub spans: Seq<SpanModel>,
    pub style: Style,
}

/// An entry, as a value.
#[verifier::ext_equal]
pub struct ItemModel {
    pub lines: Seq<LineModel>,
    pub style: Style,
}

impl View for Span {
    type V = SpanModel;

    open spec fn view(&self) -> SpanModel {
        SpanModel { text: self.text@, style: self.style }
    }
}

impl View for Line {
    type V = LineModel;

    open spec fn view(&self) -> LineModel {
        LineModel { spans: span_models(self.spans@), style: self.style }
    }
}

impl View for Item {
    type V = ItemModel;

    open spec fn view(&self) -> ItemModel {
        ItemModel { lines: line_models(self.lines@), style: self.style }
    }
}

/// Spans, as values.
pub open spec fn span_models(v: Seq<Span>) -> Seq<SpanModel> {
    Seq::new(v.len(), |i: int| v[i]@)
}

/// Lines, as values.
pub open spec fn line_models(v: Seq<Line>) -> Seq<LineModel> {
    Seq::new(v.len(), |i: int| v[i]@)
}

/// Entries, as values.
pub open spec fn item_models(v: Seq<Item>) -> Seq<ItemModel> {
    Seq::new(v.len(), |i: int| v[i]@)
}

/// Text in a style.
pub open spec fn spec_span(text: Seq<char>, style: Style) -> SpanModel {
    SpanModel { text, style }
}

/// Text in a style.
pub fn span(text: &str, style: Style) -> (s: Span)
    ensures
        s@ == spec_span(text@, style),
{
    Span { text: text.to_owned(), style }
}

/// An entry of one line, which has no style of its own.
pub open spec fn spec_one_line(spans: Seq<SpanModel>, style: Style) -> ItemModel {
    ItemModel { lines: seq![LineModel { spans, style: Style::spec_plain() }], style }
}

/// An entry of one line, which has no style of its own.
pub fn one_line(spans: Vec<Span>, style: Style) -> (item: Item)
    ensures
        item@ == spec_one_line(span_models(spans@), style),
{
    let line = Line { spans, style: Style::plain() };
    let ghost model = line@;
    let mut lines: Vec<Line> = Vec::new();
    lines.push(line);
    assert(line_models(lines@) =~= seq![model]);
    Item { lines, style }
}

// ---------------------------------------------------------------------------
// Areas
// ---------------------------------------------------------------------------

/// A part of the screen.
#[derive(Debug, Clone, Copy, PartialEq, Eq, Structural)]
pub struct Rect {
    pub x: u16,
    pub y: u16,
    pub width: u16,
    pub height: u16,
}

/// How much room a part of an area takes.
#[derive(Debug, Clone, Copy, PartialEq, Eq, Structural)]
pub enum Extent {
    /// So much.
    Length(u16),
    /// So much or more.
    AtLeast(u16),
}

/// How much of the room a part that wants `n` gets next to one that takes at least `m`: what
/// it wants, as far as the other leaves it.
pub open spec fn fixed_part(room: u16, n: u16, m: u16) -> u16 {
    if m >= room {
        0
    } else if n <= room - m {
        n
    } else {
        (room - m) as u16
    }
}

/// How much of the room the first of two parts gets, one of which wants so much while the
/// other takes what is left.
pub open spec fn first_part(room: u16, first: Extent, second: Extent) -> u16 {
    match (first, second) {
        (Extent::Length(n), Extent::AtLeast(m)) => fixed_part(room, n, m),
        (Extent::AtLeast(m), Extent::Length(n)) => (room - fixed_part(room, n, m)) as u16,
        _ => room,
    }
}

/// The two parts of an area: one after the other, with no room left, and each as wide as it
/// is (or as high, where it is split from left to right).
pub open spec fn parts_of(area: Rect, vertical: bool, first: Extent, second: Extent) -> (Rect, Rect) {
    if vertical {
        let h = first_part(area.height, first, second);
        (
            Rect { height: h, ..area },
            Rect { y: (area.y + h) as u16, height: (area.height - h) as u16, ..area },
        )
    } else {
        let w = first_part(area.width, first, second);
        (
            Rect { width: w, ..area },
            Rect { x: (area.x + w) as u16, width: (area.width - w) as u16, ..area },
        )
    }
}

/// `ratatui::layout::Layout::split` with a `Constraint::Length` and a `Constraint::Min`, in
/// either order: two parts, one after the other. `Min` comes before `Length`, so the part of
/// a fixed length gets what it wants as far as the least size of the other leaves it; the
/// other takes the rest.
#[verifier::external_body]
pub(crate) fn split_area(area: Rect, vertical: bool, first: Extent, second: Extent) -> (r: (Rect, Rect))
    requires
        area.x + area.width <= u16::MAX,
        area.y + area.height <= u16::MAX,
        first is Length <==> second is AtLeast,
    ensures
        r == parts_of(area, vertical, first, second),
{
    let direction = if vertical { Direction::Vertical } else { Direction::Horizontal };
    let size = |e: Extent| match e { Extent::Length(n) => Constraint::Length(n), Extent::AtLeast(n) => Constraint::Min(n) };
    let part = |r: &ratatui::layout::Rect| Rect { x: r.x, y: r.y, width: r.width, height: r.height };
    let whole = ratatui::layout::Rect { x: area.x, y: area.y, width: area.width, height: area.height };
    let parts = Layout::default().direction(direction).constraints([size(first), size(second)]).split(whole);
    (part(&parts[0]), part(&parts[1]))
}

/// The area inside a border on all four sides.
pub open spec fn spec_inside(area: Rect) -> Rect {
    Rect {
        x: if area.width > 0 { (area.x + 1) as u16 } else { area.x },
        y: if area.height > 0 { (area.y + 1) as u16 } else { area.y },
        width: if area.width >= 2 { (area.width - 2) as u16 } else { 0 },
        height: if area.height >= 2 { (area.height - 2) as u16 } else { 0 },
    }
}

/// The area inside a border on all four sides.
pub fn inside(area: Rect) -> (r: Rect)
    requires
        area.x + area.width <= u16::MAX,
        area.y + area.height <= u16::MAX,
    ensures
        r == spec_inside(area),
{
    Rect {
        x: if area.width > 0 { area.x + 1 } else { area.x },
        y: if area.height > 0 { area.y + 1 } else { area.y },
        width: area.width.saturating_sub(2),
        height: area.height.saturating_sub(2),
    }
}

/// A plain style changes nothing; a colour, another behind the text, bold and italic text each add
/// just that.
pub proof fn law_styles(c: Color, s: Style)
    ensures
        Style::spec_plain() == (Style {
            fg: None,
            bg: None,
            bold: false,
            dim: false,
            italic: false,
            underlined: false,
            reversed: false,
        }),
        Style::spec_colored(c) == (Style { fg: Some(c), ..Style::spec_plain() }),
        s.spec_bold() == (Style { bold: true, ..s }),
        s.spec_italic() == (Style { italic: true, ..s }),
        s.spec_on(c) == (Style { bg: Some(c), ..s }),
{
}

/// Inside a border there is one column less on either side, and one row less above and below.
pub proof fn law_inside_a_border(area: Rect)
    requires
        area.x + area.width <= u16::MAX,
        area.y + area.height <= u16::MAX,
        area.width >= 2,
        area.height >= 2,
    ensures
        ({
            let r = spec_inside(area);
            &&& r.x == area.x + 1 && r.y == area.y + 1
            &&& r.x + r.width + 1 == area.x + area.width
            &&& r.y + r.height + 1 == area.y + area.height
        }),
{
}

} // verus!
