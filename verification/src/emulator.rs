//! The terminal emulator.
//!
//! A terminal is a parser of the `vt100` crate. What it shows follows from what it
//! was fed: the size it was opened with, the output it was given, the sizes it was
//! set to, and the screens it was given of another terminal. Two names speak of a terminal: that record, and how far its view is
//! scrolled back.

use std::collections::hash_map::DefaultHasher;
use std::hash::Hasher;

use vt100::Color;

use vstd::prelude::*;
use vstd::std_specs::hash::*;
use vstd::string::*;
use vstd::utf8::*;

use crate::number::{append_decimal, decimal};

verus! {

/// One step in the life of a terminal.
pub enum TermStep {
    /// It was opened, with a size and a limit on the lines kept above the screen.
    Open { rows: u16, cols: u16, lines: nat },
    /// It was given output.
    Feed(Seq<u8>),
    /// It was set to a size.
    Resize { rows: u16, cols: u16 },
    /// It was made as a copy: its screens are those of the other, and it waits for no rest of
    /// an escape sequence.
    Copied,
    /// It was given the screens of a terminal with this record.
    Adopted(Seq<TermStep>),
}

/// The sizes that the emulator works with: it needs a row to wrap a line from and one to
/// wrap it to, room for the widest character there is, which has a width of three, and
/// columns that can still be counted one tab stop further.
pub open spec fn size_ok(rows: u16, cols: u16) -> bool {
    rows >= 2 && 3 <= cols <= 65527
}

/// The size of a terminal: the one it was opened with or set to last.
pub open spec fn term_size(log: Seq<TermStep>) -> (u16, u16)
    decreases log,
{
    if log.len() == 0 {
        (0, 0)
    } else {
        match log.last() {
            TermStep::Open { rows, cols, .. } => (rows, cols),
            TermStep::Resize { rows, cols } => (rows, cols),
            TermStep::Feed(_) => term_size(log.drop_last()),
            TermStep::Copied => term_size(log.drop_last()),
            TermStep::Adopted(other) => term_size(other),
        }
    }
}

/// The limit on the lines that a terminal keeps above its screen.
pub open spec fn line_limit(log: Seq<TermStep>) -> nat {
    log[0]->lines
}

/// A colour of a cell.
#[derive(Debug, Clone, Copy, PartialEq, Eq, Structural)]
pub enum TermColor {
    /// The terminal's own colour.
    Default,
    /// A colour of the palette.
    Indexed(u8),
    /// A colour by its red, green and blue parts.
    Rgb(u8, u8, u8),
}

/// One cell of a screen.
#[derive(Debug, Clone)]
pub struct TermCell {
    /// The text in it; empty where nothing was written.
    pub contents: String,
    /// Whether it is the right half of a character of double width.
    pub wide_continuation: bool,
    /// The colour of the text.
    pub fg: TermColor,
    /// The colour behind it.
    pub bg: TermColor,
    /// Bold text.
    pub bold: bool,
    /// Dim text.
    pub dim: bool,
    /// Italic text.
    pub italic: bool,
    /// Underlined text.
    pub underline: bool,
    /// Text with its colours exchanged.
    pub inverse: bool,
}

/// A cell, as a value.
pub struct TermCellModel {
    pub contents: Seq<char>,
    pub wide_continuation: bool,
    pub fg: TermColor,
    pub bg: TermColor,
    pub bold: bool,
    pub dim: bool,
    pub italic: bool,
    pub underline: bool,
    pub inverse: bool,
}

impl View for TermCell {
    type V = TermCellModel;

    open spec fn view(&self) -> TermCellModel {
        TermCellModel {
            contents: self.contents@,
            wide_continuation: self.wide_continuation,
            fg: self.fg,
            bg: self.bg,
            bold: self.bold,
            dim: self.dim,
            italic: self.italic,
            underline: self.underline,
            inverse: self.inverse,
        }
    }
}

/// A cell that may be there, as a value.
pub open spec fn cell_model(c: Option<TermCell>) -> Option<TermCellModel> {
    match c {
        Some(cell) => Some(cell@),
        None => None,
    }
}

/// Whether no character of double width lies across the left edge of a column: one that
/// does has its right half in that column.
pub open spec fn edge_clear(log: Seq<TermStep>, col: u16) -> bool {
    forall|row: u16| row < term_size(log).0 ==> !halved_at(log, row, col)
}

/// Whether a place of the screen holds the right half of a character of double width.
pub open spec fn halved_at(log: Seq<TermStep>, row: u16, col: u16) -> bool {
    screen_cell(log, 0, row, col) matches Some(cell) && cell.wide_continuation
}

/// The bytes that bring forth the other one of the two screens of a terminal, the main
/// and the alternate one: they reset or set the private mode 47, which changes nothing
/// on either screen.
pub open spec fn switch_bytes(alternate: bool) -> Seq<u8> {
    seq![0x1b, 0x5b, 0x3f, 0x34, 0x37, if alternate { 0x6cu8 } else { 0x68u8 }]
}

/// The record of a terminal once its other screen was brought forth.
pub open spec fn switched(log: Seq<TermStep>) -> Seq<TermStep> {
    log.push(TermStep::Feed(switch_bytes(alternate_on(log))))
}

/// The record of a copy of a terminal.
pub open spec fn copied(log: Seq<TermStep>) -> Seq<TermStep> {
    log.push(TermStep::Copied)
}

/// Whether a terminal can be narrowed to a width as it is: no character would be cut in two,
/// neither on the screen that is shown nor on the one that is not, as a copy shows.
pub open spec fn can_narrow(log: Seq<TermStep>, cols: u16) -> bool {
    let copy = copied(log);
    &&& edge_clear(copy, cols)
    &&& alternate_on(switched(copy)) != alternate_on(copy)
    &&& edge_clear(switched(copy), cols)
}

/// Whether no character of double width was ever cut in two: the terminal was narrowed
/// only while both of its screens were clear at the new edge.
pub open spec fn unbroken(log: Seq<TermStep>) -> bool
    decreases log,
{
    log.len() > 0 && match log.last() {
        TermStep::Open { rows, cols, .. } => size_ok(rows, cols),
        TermStep::Feed(_) => unbroken(log.drop_last()),
        TermStep::Resize { rows, cols } => {
            let before = log.drop_last();
            &&& size_ok(rows, cols)
            &&& unbroken(before)
            &&& cols >= term_size(before).1 || can_narrow(before, cols)
        },
        TermStep::Copied => unbroken(log.drop_last()),
        TermStep::Adopted(other) => unbroken(other),
    }
}

/// The text that moves the cursor to a row and a column, which are counted from 0. It names
/// each by a sequence of its own, so that it does not depend on where lines scroll.
pub open spec fn move_text(row: u16, col: u16) -> Seq<char> {
    "\x1b["@ + decimal((row + 1) as nat) + "d\x1b["@ + decimal((col + 1) as nat) + "G"@
}

/// The text that erases the character in a place.
pub open spec fn erase_text(row: u16, col: u16) -> Seq<char> {
    move_text(row, col) + "\x1b[X"@
}

/// The record of a terminal once the characters that lay across the left edge of a column
/// were erased in the first `n` rows.
pub open spec fn erased(log: Seq<TermStep>, col: u16, n: nat) -> Seq<TermStep>
    decreases n,
{
    if n == 0 {
        log
    } else {
        let before = erased(log, col, (n - 1) as nat);
        if halved_at(before, (n - 1) as u16, col) {
            before.push(TermStep::Feed(encode_utf8(erase_text((n - 1) as u16, col))))
        } else {
            before
        }
    }
}

/// The record of a terminal once no character lies across the left edge of a column of the
/// screen that is shown: those that did were erased, and the cursor was moved back.
pub open spec fn mended(log: Seq<TermStep>, col: u16) -> Seq<TermStep> {
    if edge_clear(log, col) {
        log
    } else {
        erased(log, col, term_size(log).0 as nat).push(
            TermStep::Feed(encode_utf8(move_text(cursor_at(log).0, cursor_at(log).1))),
        )
    }
}

/// The record of a terminal once this was done on both of its screens.
pub open spec fn both_mended(log: Seq<TermStep>, col: u16) -> Seq<TermStep> {
    switched(mended(switched(mended(log, col)), col))
}

/// The record of a terminal once its screens were replaced by such ones.
pub open spec fn repaired(log: Seq<TermStep>, col: u16) -> Seq<TermStep> {
    log.push(TermStep::Adopted(both_mended(copied(log), col)))
}

/// Whether a terminal outlives a change of its width.
pub open spec fn outlives(log: Seq<TermStep>, cols: u16) -> bool {
    cols >= term_size(log).1 || can_narrow(log, cols) || can_narrow(repaired(log, cols), cols)
}

/// The record of a terminal after its size was changed. Characters that would be cut in two
/// are erased first. Should one be left even so, the terminal is opened anew.
pub open spec fn resized_log(log: Seq<TermStep>, rows: u16, cols: u16) -> Seq<TermStep> {
    if cols >= term_size(log).1 || can_narrow(log, cols) {
        log.push(TermStep::Resize { rows, cols })
    } else if can_narrow(repaired(log, cols), cols) {
        repaired(log, cols).push(TermStep::Resize { rows, cols })
    } else {
        seq![TermStep::Open { rows, cols, lines: line_limit(log) }]
    }
}

/// How far the view of a terminal is scrolled back after its size was changed.
pub open spec fn resized_view(log: Seq<TermStep>, view: nat, rows: u16, cols: u16) -> nat {
    if cols >= term_size(log).1 || can_narrow(log, cols) {
        view
    } else if !outlives(log, cols) {
        0
    } else if view <= lines_above(repaired(log, cols)) {
        view
    } else {
        lines_above(repaired(log, cols))
    }
}

/// A terminal emulator: a `vt100::Parser`.
#[verifier::external_body]
pub struct Terminal {
    parser: vt100::Parser,
}

/// The record of what a terminal was fed.
pub uninterp spec fn fed(t: Terminal) -> Seq<TermStep>;

/// How many lines the view of a terminal is scrolled back.
pub uninterp spec fn view_offset(t: Terminal) -> nat;

/// How many lines a terminal with this record keeps above its screen.
pub uninterp spec fn lines_above(log: Seq<TermStep>) -> nat;

/// How far a view that was scrolled back so far is scrolled back after the terminal with
/// this record was fed these bytes.
pub uninterp spec fn view_moved(log: Seq<TermStep>, offset: nat, data: Seq<u8>) -> nat;

/// The text that a terminal with this record shows when it is scrolled back so far.
pub uninterp spec fn screen_text(log: Seq<TermStep>, offset: nat) -> Seq<char>;

/// The cell that a terminal with this record shows in a place when it is scrolled
/// back so far.
pub uninterp spec fn screen_cell(log: Seq<TermStep>, offset: nat, row: u16, col: u16) -> Option<TermCellModel>;

/// Where the cursor of a terminal with this record is: the row and the column.
pub uninterp spec fn cursor_at(log: Seq<TermStep>) -> (u16, u16);

/// Whether a terminal with this record shows its alternate screen.
pub uninterp spec fn alternate_on(log: Seq<TermStep>) -> bool;

impl Terminal {
    /// `vt100::Parser::new`: a terminal that was fed nothing but its size and its limit
    /// of lines, and whose view is not scrolled. It panics on smaller sizes.
    #[verifier::external_body]
    pub(crate) fn open(rows: u16, cols: u16, lines: usize) -> (t: Terminal)
        requires
            size_ok(rows, cols),
        ensures
            fed(t) == seq![TermStep::Open { rows, cols, lines: lines as nat }],
            view_offset(t) == 0,
    {
        Terminal { parser: vt100::Parser::new(rows, cols, lines) }
    }

    /// `vt100::Parser::process`: the terminal is fed the bytes. Where its view is then
    /// depends on what it was fed and where it was; a view that is not scrolled stays so.
    /// It panics where the bytes touch the left half of a character of double width whose
    /// right half was cut off, and so asks that no such half is left.
    #[verifier::external_body]
    pub(crate) fn process(&mut self, data: &[u8])
        requires
            unbroken(fed(*old(self))),
        ensures
            fed(*final(self)) == fed(*old(self)).push(TermStep::Feed(data@)),
            view_offset(*final(self)) == view_moved(fed(*old(self)), view_offset(*old(self)), data@),
            view_offset(*old(self)) == 0 ==> view_offset(*final(self)) == 0,
    {
        self.parser.process(data)
    }

    /// `vt100::Screen::set_size`: the terminal has the size from now on; its view stays
    /// where it is. It panics on smaller sizes.
    #[verifier::external_body]
    pub(crate) fn set_size(&mut self, rows: u16, cols: u16)
        requires
            size_ok(rows, cols),
        ensures
            fed(*final(self)) == fed(*old(self)).push(TermStep::Resize { rows, cols }),
            view_offset(*final(self)) == view_offset(*old(self)),
    {
        self.parser.screen_mut().set_size(rows, cols)
    }

    /// The `Clone` of `vt100::Screen`, in a `vt100::Parser` of its own: a terminal with the
    /// same two screens and the same view. An escape sequence of which only the beginning has
    /// come is not begun in the copy.
    #[verifier::external_body]
    pub(crate) fn copy(&self) -> (t: Terminal)
        ensures
            fed(t) == copied(fed(*self)),
            view_offset(t) == view_offset(*self),
    {
        let mut parser = vt100::Parser::default();
        *parser.screen_mut() = self.parser.screen().clone();
        Terminal { parser }
    }

    /// `vt100::Parser::screen_mut`: the terminal is given the two screens of another and its
    /// view, and still waits for the rest of an escape sequence if it did. The two keep the
    /// same number of lines above their screens.
    #[verifier::external_body]
    pub(crate) fn adopt(&mut self, other: &Terminal)
        requires
            line_limit(fed(*other)) == line_limit(fed(*old(self))),
        ensures
            fed(*final(self)) == fed(*old(self)).push(TermStep::Adopted(fed(*other))),
            view_offset(*final(self)) == view_offset(*other),
    {
        *self.parser.screen_mut() = other.parser.screen().clone();
    }

    /// `vt100::Screen::size`: the height and width that the terminal was opened with or
    /// set to last; output does not change them.
    #[verifier::external_body]
    pub(crate) fn size(&self) -> (r: (u16, u16))
        ensures
            r == term_size(fed(*self)),
    {
        self.parser.screen().size()
    }

    /// `vt100::Screen::set_scrollback`: the view is scrolled back so many lines, or as
    /// many as there are; nothing else changes.
    #[verifier::external_body]
    pub(crate) fn set_scrollback(&mut self, lines: usize)
        ensures
            fed(*final(self)) == fed(*old(self)),
            view_offset(*final(self)) == if lines <= lines_above(fed(*old(self))) {
                lines as nat
            } else {
                lines_above(fed(*old(self)))
            },
    {
        self.parser.screen_mut().set_scrollback(lines)
    }

    /// `vt100::Screen::scrollback`: how far the view is scrolled back, which is never
    /// further than there are lines, nor than the limit they are kept to.
    #[verifier::external_body]
    pub(crate) fn scrollback(&self) -> (r: usize)
        ensures
            r == view_offset(*self),
            r <= lines_above(fed(*self)),
            r <= line_limit(fed(*self)),
    {
        self.parser.screen().scrollback()
    }

    /// `vt100::Screen::alternate_screen`: whether the alternate screen is shown, which
    /// depends on what the terminal was fed.
    #[verifier::external_body]
    pub(crate) fn alternate_screen(&self) -> (r: bool)
        ensures
            r == alternate_on(fed(*self)),
    {
        self.parser.screen().alternate_screen()
    }

    /// `vt100::Screen::contents`: the text on the screen, which depends on what the
    /// terminal was fed and on how far its view is scrolled back.
    #[verifier::external_body]
    pub(crate) fn contents(&self) -> (r: String)
        ensures
            r@ == screen_text(fed(*self), view_offset(*self)),
    {
        self.parser.screen().contents()
    }

    /// `vt100::Screen::cursor_position`: the row and the column of the cursor, which depend on
    /// what the terminal was fed.
    #[verifier::external_body]
    pub(crate) fn cursor_position(&self) -> (r: (u16, u16))
        ensures
            r == cursor_at(fed(*self)),
    {
        self.parser.screen().cursor_position()
    }

    /// `vt100::Screen::cell`: what stands in a place of the screen, which depends on what
    /// the terminal was fed and on how far its view is scrolled back.
    #[verifier::external_body]
    pub(crate) fn cell(&self, row: u16, col: u16) -> (r: Option<TermCell>)
        ensures
            cell_model(r) == screen_cell(fed(*self), view_offset(*self), row, col),
    {
        let c = self.parser.screen().cell(row, col)?;
        let color = |c: Color| match c {
            Color::Default => TermColor::Default,
            Color::Idx(i) => TermColor::Indexed(i),
            Color::Rgb(r, g, b) => TermColor::Rgb(r, g, b),
        };
        Some(TermCell {
            contents: c.contents().to_string(),
            wide_continuation: c.is_wide_continuation(),
            fg: color(c.fgcolor()), bg: color(c.bgcolor()),
            bold: c.bold(), dim: c.dim(), italic: c.italic(), underline: c.underline(), inverse: c.inverse(),
        })
    }
}

impl Terminal {
    /// Whether no character lies across the left edge of a column. The view must not be
    /// scrolled.
    fn is_edge_clear(&self, col: u16) -> (clear: bool)
        requires
            view_offset(*self) == 0,
        ensures
            clear == edge_clear(fed(*self), col),
    {
        let (rows, _) = self.size();
        let mut row: u16 = 0;
        while row < rows
            invariant
                view_offset(*self) == 0,
                rows == term_size(fed(*self)).0,
                row <= rows,
                forall|r: u16| r < row ==> !halved_at(fed(*self), r, col),
            decreases rows - row,
        {
            if let Some(cell) = self.cell(row, col) {
                if cell.wide_continuation {
                    assert(halved_at(fed(*self), row, col));
                    return false;
                }
            }
            row = row + 1;
        }
        true
    }

    /// Brings forth the other one of the two screens; gives which one was shown.
    fn switch_screen(&mut self) -> (alternate: bool)
        requires
            unbroken(fed(*old(self))),
            view_offset(*old(self)) == 0,
        ensures
            alternate == alternate_on(fed(*old(self))),
            fed(*final(self)) == switched(fed(*old(self))),
            view_offset(*final(self)) == 0,
    {
        let alternate = self.alternate_screen();
        let last: u8 = if alternate { 0x6c } else { 0x68 };
        let bytes: [u8; 6] = [0x1b, 0x5b, 0x3f, 0x34, 0x37, last];
        assert(bytes@ =~= switch_bytes(alternate));
        self.process(&bytes);
        alternate
    }

    /// Feeds a text.
    fn feed_text(&mut self, text: &str)
        requires
            unbroken(fed(*old(self))),
            view_offset(*old(self)) == 0,
        ensures
            fed(*final(self)) == fed(*old(self)).push(TermStep::Feed(encode_utf8(text@))),
            view_offset(*final(self)) == 0,
    {
        self.process(text.as_bytes());
    }

    /// Erases the characters that lie across the left edge of a column of the screen that is
    /// shown.
    fn mend(&mut self, col: u16)
        requires
            unbroken(fed(*old(self))),
            view_offset(*old(self)) == 0,
        ensures
            fed(*final(self)) == mended(fed(*old(self)), col),
            view_offset(*final(self)) == 0,
    {
        if self.is_edge_clear(col) {
            return;
        }
        let ghost log = fed(*self);
        let (rows, _) = self.size();
        let (cursor_row, cursor_col) = self.cursor_position();
        let mut row: u16 = 0;
        while row < rows
            invariant
                log == fed(*old(self)),
                rows == term_size(log).0,
                row <= rows,
                unbroken(log),
                view_offset(*self) == 0,
                fed(*self) == erased(log, col, row as nat),
            decreases rows - row,
        {
            let halved = match self.cell(row, col) {
                Some(cell) => cell.wide_continuation,
                None => false,
            };
            assert(halved == halved_at(fed(*self), row, col));
            if halved {
                proof {
                    lemma_erased_keeps(log, col, row as nat);
                }
                let text = erase_at(row, col);
                self.feed_text(text.as_str());
            }
            row = row + 1;
        }
        proof {
            lemma_erased_keeps(log, col, rows as nat);
        }
        let back = move_to(cursor_row, cursor_col);
        self.feed_text(back.as_str());
    }

    /// Whether the terminal can be narrowed to a width as it is.
    fn is_narrowable(&self, cols: u16) -> (r: bool)
        requires
            unbroken(fed(*self)),
        ensures
            r == can_narrow(fed(*self), cols),
    {
        let mut copy = self.copy();
        proof {
            lemma_copy_keeps(fed(*self));
        }
        copy.set_scrollback(0);
        if !copy.is_edge_clear(cols) {
            return false;
        }
        let shown = copy.switch_screen();
        let other = copy.alternate_screen();
        shown != other && copy.is_edge_clear(cols)
    }

    /// A copy of the terminal in which no character lies across the left edge of a column, on
    /// neither screen: those that did are erased.
    fn mended_copy(&self, col: u16) -> (copy: Terminal)
        requires
            unbroken(fed(*self)),
        ensures
            fed(copy) == both_mended(copied(fed(*self)), col),
    {
        let mut copy = self.copy();
        let ghost first = mended(copied(fed(*self)), col);
        proof {
            lemma_copy_keeps(fed(*self));
            lemma_mended_keeps(copied(fed(*self)), col);
            lemma_feed_keeps(first, switch_bytes(alternate_on(first)));
            lemma_mended_keeps(switched(first), col);
        }
        copy.set_scrollback(0);
        copy.mend(col);
        copy.switch_screen();
        copy.mend(col);
        copy.switch_screen();
        copy
    }

    /// Changes the size, and leaves no character of double width cut in two: those that would
    /// be are erased, and where that fails the terminal is opened anew. Says whether the
    /// terminal was kept.
    pub(crate) fn resize(&mut self, rows: u16, cols: u16, lines: usize) -> (kept: bool)
        requires
            unbroken(fed(*old(self))),
            lines == line_limit(fed(*old(self))),
            size_ok(rows, cols),
        ensures
            fed(*final(self)) == resized_log(fed(*old(self)), rows, cols),
            view_offset(*final(self)) == resized_view(fed(*old(self)), view_offset(*old(self)), rows, cols),
            kept == outlives(fed(*old(self)), cols),
    {
        let (_, width) = self.size();
        if cols >= width || self.is_narrowable(cols) {
            self.set_size(rows, cols);
            return true;
        }
        let view = self.scrollback();
        proof {
            lemma_repaired_keeps(fed(*self), cols);
        }
        let copy = self.mended_copy(cols);
        self.adopt(&copy);
        self.set_scrollback(view);
        if self.is_narrowable(cols) {
            self.set_size(rows, cols);
            return true;
        }
        *self = Terminal::open(rows, cols, lines);
        false
    }
}

/// The text that moves the cursor to a row and a column.
fn move_to(row: u16, col: u16) -> (s: String)
    ensures
        s@ == move_text(row, col),
{
    let mut s = "\x1b[".to_owned();
    append_decimal(&mut s, row as u64 + 1);
    s.append("d\x1b[");
    append_decimal(&mut s, col as u64 + 1);
    s.append("G");
    assert(s@ =~= move_text(row, col));
    s
}

/// The text that erases the character in a place.
fn erase_at(row: u16, col: u16) -> (s: String)
    ensures
        s@ == erase_text(row, col),
{
    let mut s = move_to(row, col);
    s.append("\x1b[X");
    s
}

proof fn lemma_erased_keeps(log: Seq<TermStep>, col: u16, n: nat)
    requires
        unbroken(log),
    ensures
        unbroken(erased(log, col, n)),
        erased(log, col, n).len() > 0,
        erased(log, col, n)[0] == log[0],
        term_size(erased(log, col, n)) == term_size(log),
    decreases n,
{
    if n > 0 {
        lemma_erased_keeps(log, col, (n - 1) as nat);
        lemma_feed_keeps(
            erased(log, col, (n - 1) as nat),
            encode_utf8(erase_text((n - 1) as u16, col)),
        );
    }
}

/// Erasing characters and moving the cursor keep the size and the limit of lines.
proof fn lemma_mended_keeps(log: Seq<TermStep>, col: u16)
    requires
        unbroken(log),
    ensures
        unbroken(mended(log, col)),
        mended(log, col).len() > 0,
        mended(log, col)[0] == log[0],
        term_size(mended(log, col)) == term_size(log),
{
    let n = term_size(log).0 as nat;
    lemma_erased_keeps(log, col, n);
    lemma_feed_keeps(
        erased(log, col, n),
        encode_utf8(move_text(cursor_at(log).0, cursor_at(log).1)),
    );
}

proof fn lemma_copy_keeps(log: Seq<TermStep>)
    requires
        unbroken(log),
    ensures
        unbroken(copied(log)),
        copied(log)[0] == log[0],
        term_size(copied(log)) == term_size(log),
{
    assert(copied(log).drop_last() == log);
}

/// Taking over mended screens keeps the size and the limit of lines.
proof fn lemma_repaired_keeps(log: Seq<TermStep>, col: u16)
    requires
        unbroken(log),
    ensures
        both_mended(copied(log), col)[0] == log[0],
        unbroken(repaired(log, col)),
        repaired(log, col)[0] == log[0],
        term_size(repaired(log, col)) == term_size(log),
{
    lemma_copy_keeps(log);
    let first = mended(copied(log), col);
    lemma_mended_keeps(copied(log), col);
    lemma_feed_keeps(first, switch_bytes(alternate_on(first)));
    let second = mended(switched(first), col);
    lemma_mended_keeps(switched(first), col);
    lemma_feed_keeps(second, switch_bytes(alternate_on(second)));
}

/// What a step of output leaves as it was.
pub proof fn lemma_feed_keeps(log: Seq<TermStep>, data: Seq<u8>)
    requires
        log.len() > 0,
    ensures
        log.push(TermStep::Feed(data))[0] == log[0],
        term_size(log.push(TermStep::Feed(data))) == term_size(log),
        unbroken(log.push(TermStep::Feed(data))) == unbroken(log),
{
    assert(log.push(TermStep::Feed(data)).drop_last() == log);
}

/// A change of size gives a terminal that size, and cuts no character in two.
pub proof fn law_resize_breaks_nothing(log: Seq<TermStep>, rows: u16, cols: u16)
    requires
        unbroken(log),
        log[0] is Open,
        size_ok(rows, cols),
    ensures
        unbroken(resized_log(log, rows, cols)),
        term_size(resized_log(log, rows, cols)) == (rows, cols),
        resized_log(log, rows, cols)[0] is Open,
        line_limit(resized_log(log, rows, cols)) == line_limit(log),
{
    let step = TermStep::Resize { rows, cols };
    lemma_repaired_keeps(log, cols);
    assert(log.push(step).drop_last() == log);
    assert(repaired(log, cols).push(step).drop_last() == repaired(log, cols));
}

// ---------------------------------------------------------------------------
// Comparing screens
// ---------------------------------------------------------------------------

/// The fingerprint of a text: what the standard hasher makes of its bytes and of a
/// closing byte that no text holds.
pub open spec fn text_hash(s: Seq<char>) -> u64 {
    DefaultHasher::spec_finish(seq![encode_utf8(s), seq![0xffu8]])
}

/// Computes the fingerprint of a text.
pub fn hash_text(s: &str) -> (h: u64)
    ensures
        h == text_hash(s@),
{
    let mut hasher = DefaultHasher::new();
    hasher.write(s.as_bytes());
    let end: [u8; 1] = [0xff];
    hasher.write(&end);
    assert(hasher@ =~= seq![encode_utf8(s@), seq![0xffu8]]) by {
        assert(end@ =~= seq![0xffu8]);
    }
    hasher.finish()
}

/// The fingerprint of what a terminal shows.
pub fn hash_screen(t: &Terminal) -> (h: u64)
    ensures
        h == text_hash(screen_text(fed(*t), view_offset(*t))),
{
    hash_text(t.contents().as_str())
}

/// Screens are told apart by all of their text: the fingerprint is taken of every byte of it.
pub proof fn law_all_of_the_text_counts(s: Seq<char>)
    ensures
        text_hash(s) == DefaultHasher::spec_finish(seq![encode_utf8(s), seq![0xffu8]]),
{
}

/// A terminal has the size that it was opened with or set to last; output does not change it.
pub proof fn law_the_size_of_a_terminal(log: Seq<TermStep>, rows: u16, cols: u16, lines: nat, data: Seq<u8>)
    ensures
        term_size(seq![TermStep::Open { rows, cols, lines }]) == (rows, cols),
        term_size(log.push(TermStep::Resize { rows, cols })) == (rows, cols),
        term_size(log.push(TermStep::Feed(data))) == term_size(log),
        term_size(log.push(TermStep::Copied)) == term_size(log),
        line_limit(seq![TermStep::Open { rows, cols, lines }]) == lines,
{
    assert(log.push(TermStep::Feed(data)).drop_last() =~= log);
    assert(log.push(TermStep::Copied).drop_last() =~= log);
}

/// A terminal keeps what it shows when its size changes: it is only told the new size, if it becomes
/// no narrower, or if no wide character lies across the new edge, neither on the screen that is shown
/// nor on the one that comes forth when the private mode 47 is changed.
pub proof fn law_sizes_change_in_place(log: Seq<TermStep>, view: nat, rows: u16, cols: u16, alternate: bool)
    requires
        cols >= term_size(log).1 || stays_whole(log, cols, alternate),
    ensures
        resized_log(log, rows, cols) == log.push(TermStep::Resize { rows, cols }),
        resized_view(log, view, rows, cols) == view,
        outlives(log, cols),
{
    if cols < term_size(log).1 {
        let copy = copied(log);
        let other = switched(copy);
        let bytes = seq![0x1bu8, 0x5b, 0x3f, 0x34, 0x37, if alternate { 0x6cu8 } else { 0x68u8 }];
        assert(copy.drop_last() =~= log);
        assert(other.drop_last() =~= copy);
        assert(bytes =~= switch_bytes(alternate));
        assert(other =~= log.push(TermStep::Copied).push(TermStep::Feed(bytes)));
        assert(term_size(copy) == term_size(log));
        assert(term_size(other) == term_size(copy));
        assert(alternate_on(other) == !alternate);
        assert forall|row: u16| row < term_size(copy).0 implies !halved_at(copy, row, cols) by {
            assert(!holds_right_half(copy, row, cols));
        }
        assert forall|row: u16| row < term_size(other).0 implies !halved_at(other, row, cols) by {
            assert(!holds_right_half(on_other_screen(copy, alternate), row, cols));
        }
        assert(can_narrow(log, cols));
    }
}

/// Whether a place of the screen that is shown holds the right half of a wide character.
pub open spec fn holds_right_half(log: Seq<TermStep>, row: u16, col: u16) -> bool {
    screen_cell(log, 0, row, col) matches Some(c) && c.wide_continuation
}

/// The record of a terminal once the private mode 47 was changed, from which it goes to the other
/// one of its two screens.
pub open spec fn on_other_screen(log: Seq<TermStep>, alternate: bool) -> Seq<TermStep> {
    log.push(
        TermStep::Feed(seq![0x1bu8, 0x5b, 0x3f, 0x34, 0x37, if alternate { 0x6cu8 } else { 0x68u8 }]),
    )
}

/// Whether no wide character of a terminal lies across the left edge of a column, on the screen that
/// is shown, be it the alternate one or not, and on the other one.
pub open spec fn stays_whole(log: Seq<TermStep>, col: u16, alternate: bool) -> bool {
    let copy = log.push(TermStep::Copied);
    let other = on_other_screen(copy, alternate);
    &&& alternate == alternate_on(copy)
    &&& alternate_on(other) == !alternate
    &&& (forall|row: u16| row < term_size(log).0 ==> !#[trigger] holds_right_half(copy, row, col))
    &&& (forall|row: u16| row < term_size(log).0 ==> !#[trigger] holds_right_half(other, row, col))
}

/// Only what would be cut is erased when a terminal is narrowed: row by row the one character that
/// lies across the edge, by moving to it and erasing one cell; a row without one is left alone. Then
/// the cursor is moved back to where it was.
pub proof fn law_only_cut_characters_are_erased(log: Seq<TermStep>, col: u16, n: nat)
    requires
        n < u16::MAX,
    ensures
        erased(log, col, 0) == log,
        ({
            let before = erased(log, col, n);
            let bytes = encode_utf8(
                "\x1b["@ + decimal(n + 1) + "d\x1b["@ + decimal((col + 1) as nat) + "G"@ + "\x1b[X"@,
            );
            erased(log, col, n + 1) == if holds_right_half(before, n as u16, col) {
                before.push(TermStep::Feed(bytes))
            } else {
                before
            }
        }),
        (exists|row: u16| row < term_size(log).0 && #[trigger] holds_right_half(log, row, col)) ==> mended(log, col)
            == erased(log, col, term_size(log).0 as nat).push(
            TermStep::Feed(
                encode_utf8(
                    "\x1b["@ + decimal((cursor_at(log).0 + 1) as nat) + "d\x1b["@ + decimal(
                        (cursor_at(log).1 + 1) as nat,
                    ) + "G"@,
                ),
            ),
        ),
        !(exists|row: u16| row < term_size(log).0 && #[trigger] holds_right_half(log, row, col)) ==> mended(log, col)
            == log,
{
    if exists|row: u16| row < term_size(log).0 && #[trigger] holds_right_half(log, row, col) {
        let row = choose|row: u16| row < term_size(log).0 && #[trigger] holds_right_half(log, row, col);
        assert(halved_at(log, row, col));
    } else {
        assert forall|row: u16| row < term_size(log).0 implies !halved_at(log, row, col) by {
            assert(!holds_right_half(log, row, col));
        }
    }
}

} // verus!
