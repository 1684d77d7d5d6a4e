//! How the screen of a terminal is drawn.

use vstd::prelude::*;
use vstd::string::*;

use crate::emulator::{screen_cell, term_size, TermCell, TermCellModel, TermColor};
use crate::pty::{Pty, PtyModel};
use crate::ui::{Color, Rect, Style};

verus! {

/// Draws the screen of a terminal.
pub struct TerminalWidget<'a> {
    pub screen: &'a Pty,
}

/// A cell that is drawn.
#[derive(Debug, Clone)]
pub struct DrawnCell {
    pub x: u16,
    pub y: u16,
    pub text: String,
    pub style: Style,
}

/// A cell that is drawn, as a value.
pub struct DrawnCellModel {
    pub x: int,
    pub y: int,
    pub text: Seq<char>,
    pub style: Style,
}

impl View for DrawnCell {
    type V = DrawnCellModel;

    open spec fn view(&self) -> DrawnCellModel {
        DrawnCellModel { x: self.x as int, y: self.y as int, text: self.text@, style: self.style }
    }
}

/// Cells that are drawn, as values.
pub open spec fn drawn_models(v: Seq<DrawnCell>) -> Seq<DrawnCellModel> {
    Seq::new(v.len(), |i: int| v[i]@)
}

/// The colour that one of a terminal is drawn in: the first sixteen of its palette have
/// names.
pub open spec fn drawn_color(c: TermColor) -> Color {
    match c {
        TermColor::Default => Color::Reset,
        TermColor::Indexed(i) => if i < 16 {
            named_colors()[i as int]
        } else {
            Color::Indexed(i)
        },
        TermColor::Rgb(r, g, b) => Color::Rgb(r, g, b),
    }
}

/// The colours of the palette that have names.
pub open spec fn named_colors() -> Seq<Color> {
    seq![
        Color::Black,
        Color::Red,
        Color::Green,
        Color::Yellow,
        Color::Blue,
        Color::Magenta,
        Color::Cyan,
        Color::Gray,
        Color::DarkGray,
        Color::LightRed,
        Color::LightGreen,
        Color::LightYellow,
        Color::LightBlue,
        Color::LightMagenta,
        Color::LightCyan,
        Color::White,
    ]
}

/// The colour that one of a terminal is drawn in.
pub fn convert_color(color: TermColor) -> (c: Color)
    ensures
        c == drawn_color(color),
{
    match color {
        TermColor::Default => Color::Reset,
        TermColor::Indexed(i) => convert_indexed_color(i),
        TermColor::Rgb(r, g, b) => Color::Rgb(r, g, b),
    }
}

/// The colour that one of the palette is drawn in.
pub fn convert_indexed_color(idx: u8) -> (c: Color)
    ensures
        c == drawn_color(TermColor::Indexed(idx)),
{
    match idx {
        0 => Color::Black,
        1 => Color::Red,
        2 => Color::Green,
        3 => Color::Yellow,
        4 => Color::Blue,
        5 => Color::Magenta,
        6 => Color::Cyan,
        7 => Color::Gray,
        8 => Color::DarkGray,
        9 => Color::LightRed,
        10 => Color::LightGreen,
        11 => Color::LightYellow,
        12 => Color::LightBlue,
        13 => Color::LightMagenta,
        14 => Color::LightCyan,
        15 => Color::White,
        _ => Color::Indexed(idx),
    }
}

/// The style that a cell is drawn in.
pub open spec fn cell_style(cell: TermCellModel) -> Style {
    Style {
        fg: Some(drawn_color(cell.fg)),
        bg: Some(drawn_color(cell.bg)),
        bold: cell.bold,
        dim: cell.dim,
        italic: cell.italic,
        underlined: cell.underline,
        reversed: cell.inverse,
    }
}

/// What is drawn for a cell: its text, or a space if it has none. The right half of a
/// character of double width is not drawn.
pub open spec fn drawn_cell(cell: Option<TermCellModel>, x: int, y: int) -> Seq<DrawnCellModel> {
    match cell {
        Some(c) => if c.wide_continuation {
            Seq::empty()
        } else {
            seq![
                DrawnCellModel {
                    x,
                    y,
                    text: if c.contents.len() == 0 {
                        seq![' ']
                    } else {
                        c.contents
                    },
                    style: cell_style(c),
                },
            ]
        },
        None => Seq::empty(),
    }
}

/// What is drawn for the first `n` cells of a row.
pub open spec fn drawn_row(p: PtyModel, area: Rect, row: nat, n: nat) -> Seq<DrawnCellModel>
    decreases n,
{
    if n == 0 {
        Seq::empty()
    } else {
        drawn_row(p, area, row, (n - 1) as nat) + drawn_cell(
            screen_cell(p.log, p.view, row as u16, (n - 1) as u16),
            area.x + n - 1,
            area.y + row,
        )
    }
}

/// What is drawn for the first `n` rows, so many columns of each.
pub open spec fn drawn_rows(p: PtyModel, area: Rect, cols: nat, n: nat) -> Seq<DrawnCellModel>
    decreases n,
{
    if n == 0 {
        Seq::empty()
    } else {
        drawn_rows(p, area, cols, (n - 1) as nat) + drawn_row(p, area, (n - 1) as nat, cols)
    }
}

/// What is drawn for a terminal in an area: as much of its upper left part as there is room
/// for.
pub open spec fn drawn(p: PtyModel, area: Rect) -> Seq<DrawnCellModel> {
    let (rows, cols) = term_size(p.log);
    drawn_rows(
        p,
        area,
        if cols <= area.width {
            cols as nat
        } else {
            area.width as nat
        },
        if rows <= area.height {
            rows as nat
        } else {
            area.height as nat
        },
    )
}

impl<'a> TerminalWidget<'a> {
    /// Draws this screen.
    pub fn new(screen: &'a Pty) -> (w: TerminalWidget<'a>)
        ensures
            w.screen == screen,
    {
        TerminalWidget { screen }
    }

    /// The cells to draw in an area.
    pub fn render(&self, area: Rect) -> (r: Vec<DrawnCell>)
        requires
            area.x + area.width <= u16::MAX,
            area.y + area.height <= u16::MAX,
        ensures
            drawn_models(r@) == drawn(self.screen@, area),
    {
        let (rows, cols) = self.screen.size();
        let height: u16 = if rows <= area.height { rows } else { area.height };
        let width: u16 = if cols <= area.width { cols } else { area.width };
        let ghost p = self.screen@;
        let mut r: Vec<DrawnCell> = Vec::new();
        let mut row: u16 = 0;
        assert(drawn_models(r@) =~= Seq::<DrawnCellModel>::empty());
        while row < height
            invariant
                row <= height <= area.height,
                width <= area.width,
                p == self.screen@,
                area.x + area.width <= u16::MAX,
                area.y + area.height <= u16::MAX,
                drawn_models(r@) == drawn_rows(p, area, width as nat, row as nat),
            decreases height - row,
        {
            let ghost above = drawn_models(r@);
            let mut col: u16 = 0;
            assert(above + drawn_row(p, area, row as nat, 0) =~= above);
            while col < width
                invariant
                    row < height <= area.height,
                    col <= width <= area.width,
                    p == self.screen@,
                    area.x + area.width <= u16::MAX,
                    area.y + area.height <= u16::MAX,
                    drawn_models(r@) == above + drawn_row(p, area, row as nat, col as nat),
                decreases width - col,
            {
                let ghost before = drawn_models(r@);
                let ghost cell = screen_cell(p.log, p.view, row, col);
                if let Some(c) = self.screen.terminal.cell(row, col) {
                    if !c.wide_continuation {
                        let style = style_of(&c);
                        let text = if c.contents.as_str().is_empty() {
                            let mut space = String::new();
                            space.push(' ');
                            assert(space@ =~= seq![' ']);
                            space
                        } else {
                            c.contents
                        };
                        r.push(DrawnCell { x: area.x + col, y: area.y + row, text, style });
                    }
                }
                col = col + 1;
                assert(drawn_models(r@) =~= before + drawn_cell(cell, area.x + col - 1, area.y + row));
                assert(drawn_models(r@) =~= above + drawn_row(p, area, row as nat, col as nat));
            }
            row = row + 1;
        }
        r
    }
}

/// The style that a cell is drawn in.
fn style_of(cell: &TermCell) -> (s: Style)
    ensures
        s == cell_style(cell@),
{
    Style {
        fg: Some(convert_color(cell.fg)),
        bg: Some(convert_color(cell.bg)),
        bold: cell.bold,
        dim: cell.dim,
        italic: cell.italic,
        underlined: cell.underline,
        reversed: cell.inverse,
    }
}

// ---------------------------------------------------------------------------
// Laws
// ---------------------------------------------------------------------------

/// Nothing is drawn outside of the area.
pub proof fn law_drawing_stays_in_its_area(p: PtyModel, area: Rect, i: int)
    requires
        0 <= i < drawn(p, area).len(),
    ensures
        area.x <= drawn(p, area)[i].x < area.x + area.width,
        area.y <= drawn(p, area)[i].y < area.y + area.height,
{
    let (rows, cols) = term_size(p.log);
    lemma_rows_stay_inside(
        p,
        area,
        if cols <= area.width {
            cols as nat
        } else {
            area.width as nat
        },
        if rows <= area.height {
            rows as nat
        } else {
            area.height as nat
        },
        i,
    );
}

proof fn lemma_rows_stay_inside(p: PtyModel, area: Rect, cols: nat, n: nat, i: int)
    requires
        0 <= i < drawn_rows(p, area, cols, n).len(),
    ensures
        area.x <= drawn_rows(p, area, cols, n)[i].x < area.x + cols,
        area.y <= drawn_rows(p, area, cols, n)[i].y < area.y + n,
    decreases n,
{
    let above = drawn_rows(p, area, cols, (n - 1) as nat);
    if i < above.len() {
        lemma_rows_stay_inside(p, area, cols, (n - 1) as nat, i);
    } else {
        lemma_row_stays_inside(p, area, (n - 1) as nat, cols, i - above.len());
    }
}

proof fn lemma_row_stays_inside(p: PtyModel, area: Rect, row: nat, n: nat, i: int)
    requires
        0 <= i < drawn_row(p, area, row, n).len(),
    ensures
        area.x <= drawn_row(p, area, row, n)[i].x < area.x + n,
        drawn_row(p, area, row, n)[i].y == area.y + row,
    decreases n,
{
    let before = drawn_row(p, area, row, (n - 1) as nat);
    if i < before.len() {
        lemma_row_stays_inside(p, area, row, (n - 1) as nat, i);
    }
}

/// The sixteen colours with names are shown by their names, all others as they are.
pub proof fn law_colors_are_shown(i: u8, r: u8, g: u8, b: u8)
    ensures
        drawn_color(TermColor::Default) == Color::Reset,
        drawn_color(TermColor::Rgb(r, g, b)) == Color::Rgb(r, g, b),
        i >= 16 ==> drawn_color(TermColor::Indexed(i)) == Color::Indexed(i),
        drawn_color(TermColor::Indexed(0)) == Color::Black,
        drawn_color(TermColor::Indexed(1)) == Color::Red,
        drawn_color(TermColor::Indexed(2)) == Color::Green,
        drawn_color(TermColor::Indexed(3)) == Color::Yellow,
        drawn_color(TermColor::Indexed(4)) == Color::Blue,
        drawn_color(TermColor::Indexed(5)) == Color::Magenta,
        drawn_color(TermColor::Indexed(6)) == Color::Cyan,
        drawn_color(TermColor::Indexed(7)) == Color::Gray,
        drawn_color(TermColor::Indexed(8)) == Color::DarkGray,
        drawn_color(TermColor::Indexed(9)) == Color::LightRed,
        drawn_color(TermColor::Indexed(10)) == Color::LightGreen,
        drawn_color(TermColor::Indexed(11)) == Color::LightYellow,
        drawn_color(TermColor::Indexed(12)) == Color::LightBlue,
        drawn_color(TermColor::Indexed(13)) == Color::LightMagenta,
        drawn_color(TermColor::Indexed(14)) == Color::LightCyan,
        drawn_color(TermColor::Indexed(15)) == Color::White,
{
}

/// Whether a cell that was drawn is the one in a place of a screen: it stands there in the area, has
/// the text of the cell or a blank if that is empty, and its colours and its style.
pub open spec fn shows_cell(d: DrawnCellModel, c: TermCellModel, area: Rect, row: int, col: int) -> bool {
    &&& d.x == area.x + col
    &&& d.y == area.y + row
    &&& c.contents.len() > 0 ==> d.text == c.contents
    &&& c.contents.len() == 0 ==> d.text == seq![' ']
    &&& d.style.fg == Some(drawn_color(c.fg))
    &&& d.style.bg == Some(drawn_color(c.bg))
    &&& d.style.bold == c.bold
    &&& d.style.dim == c.dim
    &&& d.style.italic == c.italic
    &&& d.style.underlined == c.underline
    &&& d.style.reversed == c.inverse
}

proof fn lemma_row_is_drawn(p: PtyModel, area: Rect, row: nat, n: nat, col: int) -> (k: int)
    requires
        0 <= col < n,
        screen_cell(p.log, p.view, row as u16, col as u16) matches Some(c) && !c.wide_continuation,
    ensures
        0 <= k < drawn_row(p, area, row, n).len(),
        shows_cell(
            drawn_row(p, area, row, n)[k],
            screen_cell(p.log, p.view, row as u16, col as u16)->0,
            area,
            row as int,
            col,
        ),
    decreases n,
{
    let before = drawn_row(p, area, row, (n - 1) as nat);
    if col == n - 1 {
        before.len() as int
    } else {
        lemma_row_is_drawn(p, area, row, (n - 1) as nat, col)
    }
}

proof fn lemma_rows_are_drawn(p: PtyModel, area: Rect, cols: nat, n: nat, row: int, col: int) -> (k: int)
    requires
        0 <= row < n,
        0 <= col < cols,
        screen_cell(p.log, p.view, row as u16, col as u16) matches Some(c) && !c.wide_continuation,
    ensures
        0 <= k < drawn_rows(p, area, cols, n).len(),
        shows_cell(
            drawn_rows(p, area, cols, n)[k],
            screen_cell(p.log, p.view, row as u16, col as u16)->0,
            area,
            row,
            col,
        ),
    decreases n,
{
    let before = drawn_rows(p, area, cols, (n - 1) as nat);
    if row == n - 1 {
        let k = lemma_row_is_drawn(p, area, (n - 1) as nat, cols, col);
        before.len() + k
    } else {
        lemma_rows_are_drawn(p, area, cols, (n - 1) as nat, row, col)
    }
}

/// Every cell of a terminal's screen that the area has room for is drawn in its place, as it is; only
/// the right half of a wide character is not, since the character covers it. The place among what is
/// drawn is returned.
pub proof fn law_the_screen_is_drawn(p: PtyModel, area: Rect, row: int, col: int) -> (k: int)
    requires
        0 <= row < area.height,
        0 <= col < area.width,
        row < term_size(p.log).0,
        col < term_size(p.log).1,
        screen_cell(p.log, p.view, row as u16, col as u16) matches Some(c) && !c.wide_continuation,
    ensures
        0 <= k < drawn(p, area).len(),
        shows_cell(
            drawn(p, area)[k],
            screen_cell(p.log, p.view, row as u16, col as u16)->0,
            area,
            row,
            col,
        ),
{
    let (rows, cols) = term_size(p.log);
    let w = if cols <= area.width { cols as nat } else { area.width as nat };
    let h = if rows <= area.height { rows as nat } else { area.height as nat };
    lemma_rows_are_drawn(p, area, w, h, row, col)
}

proof fn lemma_only_row_is_drawn(p: PtyModel, area: Rect, row: nat, n: nat, k: int) -> (col: int)
    requires
        0 <= k < drawn_row(p, area, row, n).len(),
    ensures
        0 <= col < n,
        screen_cell(p.log, p.view, row as u16, col as u16) matches Some(c) && !c.wide_continuation
            && shows_cell(drawn_row(p, area, row, n)[k], c, area, row as int, col),
    decreases n,
{
    let before = drawn_row(p, area, row, (n - 1) as nat);
    if k < before.len() {
        lemma_only_row_is_drawn(p, area, row, (n - 1) as nat, k)
    } else {
        n - 1
    }
}

proof fn lemma_only_rows_are_drawn(p: PtyModel, area: Rect, cols: nat, n: nat, k: int) -> (r: (int, int))
    requires
        0 <= k < drawn_rows(p, area, cols, n).len(),
    ensures
        0 <= r.0 < n,
        0 <= r.1 < cols,
        screen_cell(p.log, p.view, r.0 as u16, r.1 as u16) matches Some(c) && !c.wide_continuation
            && shows_cell(drawn_rows(p, area, cols, n)[k], c, area, r.0, r.1),
    decreases n,
{
    let before = drawn_rows(p, area, cols, (n - 1) as nat);
    if k < before.len() {
        lemma_only_rows_are_drawn(p, area, cols, (n - 1) as nat, k)
    } else {
        let col = lemma_only_row_is_drawn(p, area, (n - 1) as nat, cols, k - before.len());
        (n - 1, col)
    }
}

/// Nothing else is drawn: whatever is, is a cell of the screen in its place. The row and the column
/// are returned.
pub proof fn law_only_the_screen_is_drawn(p: PtyModel, area: Rect, k: int) -> (r: (int, int))
    requires
        0 <= k < drawn(p, area).len(),
    ensures
        0 <= r.0 < term_size(p.log).0 && r.0 < area.height,
        0 <= r.1 < term_size(p.log).1 && r.1 < area.width,
        screen_cell(p.log, p.view, r.0 as u16, r.1 as u16) matches Some(c) && !c.wide_continuation
            && shows_cell(drawn(p, area)[k], c, area, r.0, r.1),
{
    let (rows, cols) = term_size(p.log);
    let w = if cols <= area.width { cols as nat } else { area.width as nat };
    let h = if rows <= area.height { rows as nat } else { area.height as nat };
    lemma_only_rows_are_drawn(p, area, w, h, k)
}

} // verus!
