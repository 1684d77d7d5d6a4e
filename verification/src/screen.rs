//! How the whole screen is laid out, and what its last line says.

use vstd::prelude::*;
use vstd::string::*;

use crate::app::{is_view, law_what_is_in_view, App, AppModel, InputMode};
use crate::emulator::lines_above;
use crate::number::{append_decimal, decimal};
use crate::picker::HasPtyStatus;
use crate::pty::PtyStatus;
use crate::room_view::ScreenModel;
use crate::sidebar::SIDEBAR_WIDTH;
use crate::ui::{parts_of, split_area, Color, Extent, Rect, Style};

verus! {

/// Where the parts of the screen are.
#[derive(Debug, Clone, Copy)]
pub struct Areas {
    /// The list at the side, if it is shown.
    pub sidebar: Option<Rect>,
    /// What is in view.
    pub content: Rect,
    /// The last line.
    pub status: Rect,
}

/// Where the parts of the screen are.
pub open spec fn areas_of(show_sidebar: bool, frame: Rect) -> Areas {
    let sides = parts_of(frame, false, Extent::Length(SIDEBAR_WIDTH), Extent::AtLeast(0));
    let main = if show_sidebar {
        sides.1
    } else {
        frame
    };
    let parts = parts_of(main, true, Extent::AtLeast(0), Extent::Length(1));
    Areas {
        sidebar: if show_sidebar {
            Some(sides.0)
        } else {
            None
        },
        content: parts.0,
        status: parts.1,
    }
}

/// Where the parts of the screen are.
pub fn areas(show_sidebar: bool, frame: Rect) -> (r: Areas)
    requires
        frame.x + frame.width <= u16::MAX,
        frame.y + frame.height <= u16::MAX,
    ensures
        r == areas_of(show_sidebar, frame),
{
    if show_sidebar {
        let sides = split_area(frame, false, Extent::Length(SIDEBAR_WIDTH), Extent::AtLeast(0));
        let parts = split_area(sides.1, true, Extent::AtLeast(0), Extent::Length(1));
        Areas { sidebar: Some(sides.0), content: parts.0, status: parts.1 }
    } else {
        let parts = split_area(frame, true, Extent::AtLeast(0), Extent::Length(1));
        Areas { sidebar: None, content: parts.0, status: parts.1 }
    }
}

/// Where the question stands whether to end everything: in the middle.
pub fn quit_area(frame: Rect) -> (r: Rect)
    ensures
        r == (Rect {
            x: if frame.width >= 50 {
                ((frame.width - 50) / 2) as u16
            } else {
                0
            },
            y: if frame.height >= 7 {
                ((frame.height - 7) / 2) as u16
            } else {
                0
            },
            width: 50,
            height: 7,
        }),
{
    Rect {
        x: frame.width.saturating_sub(50) / 2,
        y: frame.height.saturating_sub(7) / 2,
        width: 50,
        height: 7,
    }
}

/// The title over the question whether to end everything.
pub fn quit_title() -> (r: String)
    ensures
        r@ == " Quit Session "@,
{
    " Quit Session ".to_owned()
}

/// The question whether to end everything.
pub fn quit_text() -> (r: String)
    ensures
        r@ == "This will kill all PTYs in this session.\n\nPress 'y' to confirm, any other key to cancel."@,
{
    "This will kill all PTYs in this session.\n\nPress 'y' to confirm, any other key to cancel.".to_owned()
}

/// Which screen of the room is in view.
pub open spec fn screen_mark(current: nat, count: nat) -> Seq<char> {
    seq!['['] + decimal(current + 1) + seq!['/'] + decimal(count) + seq![']']
}

/// Which screen of the room is in view.
fn show_screen_mark(current: usize, count: usize) -> (r: String)
    requires
        current < count,
    ensures
        r@ == screen_mark(current as nat, count as nat),
{
    let mut r = String::new();
    r.push('[');
    append_decimal(&mut r, current as u64 + 1);
    r.push('/');
    append_decimal(&mut r, count as u64);
    r.push(']');
    assert(r@ =~= screen_mark(current as nat, count as nat));
    r
}

/// How much there is to scroll back to, if there is anything.
pub open spec fn scroll_hint(lines: nat) -> Seq<char> {
    if lines > 0 {
        " \u{2502} ^B[ scroll ("@ + decimal(lines) + " lines)"@
    } else {
        Seq::empty()
    }
}

/// The last line while keys go to the screen in view.
pub open spec fn normal_status(mark: Seq<char>, lines: nat) -> Seq<char> {
    seq![' '] + mark + " \u{2502} ^K search \u{2502} ^B leader"@ + scroll_hint(lines) + seq![' ']
}

/// The last line while a command is awaited.
pub open spec fn leader_status(mark: Seq<char>) -> Seq<char> {
    " LEADER "@ + mark
        + " \u{2502} j/k room \u{2502} h/l screen \u{2502} 1-9 jump \u{2502} / search \u{2502} t new term \u{2502} q quit "@
}

/// The last line while the user has scrolled back.
pub open spec fn scroll_status(mark: Seq<char>, scroll: nat, lines: nat) -> Seq<char> {
    " SCROLL ["@ + decimal(scroll) + seq!['/'] + decimal(lines) + "] "@ + mark
        + " \u{2502} j/k line \u{2502} PgUp/PgDn page \u{2502} g/G top/bottom \u{2502} Esc/q exit "@
}

/// The last line while the process in view has exited.
pub open spec fn exited_status(mark: Seq<char>) -> Seq<char> {
    " EXITED "@ + mark + " \u{2502} ^K switch room "@
}

/// Text in bold on a colour.
pub open spec fn bar_style(bg: Color, fg: Color) -> Style {
    Style::spec_colored(fg).spec_on(bg).spec_bold()
}

impl AppModel {
    /// What the last line says, and how it looks.
    pub open spec fn status_line(self) -> (Seq<char>, Style) {
        let room = self.in_view();
        let mark = screen_mark(room.current, room.screens.len());
        match room.shown() {
            ScreenModel::Pty(c) => if c.pty.status == PtyStatus::Exited {
                (exited_status(mark), bar_style(Color::Rgb(100, 50, 50), Color::White))
            } else if c.pty.scroll > 0 {
                (
                    scroll_status(mark, c.pty.scroll, c.pty.reach()),
                    bar_style(Color::Rgb(60, 60, 100), Color::White),
                )
            } else {
                self.idle_status(mark, c.pty.reach())
            },
            ScreenModel::Chat(_) => self.idle_status(mark, 0),
        }
    }

    /// What the last line says if there is nothing special in view.
    pub open spec fn idle_status(self, mark: Seq<char>, lines: nat) -> (Seq<char>, Style) {
        match self.mode {
            InputMode::Normal => (
                normal_status(mark, lines),
                Style::spec_colored(Color::DarkGray).spec_on(Color::Rgb(30, 30, 40)),
            ),
            InputMode::Leader => (
                leader_status(mark),
                bar_style(Color::Rgb(180, 140, 40), Color::Black),
            ),
        }
    }
}

/// Text in bold on a colour.
fn bar(bg: Color, fg: Color) -> (s: Style)
    ensures
        s == bar_style(bg, fg),
{
    Style::colored(fg).on(bg).bold()
}

impl App {
    /// What the last line says, and how it looks.
    pub fn status_line(&mut self) -> (r: (String, Style))
        requires
            old(self)@.wf(),
        ensures
            (r.0@, r.1) == old(self)@.status_line(),
            final(self)@ == old(self)@,
    {
        let ghost start = self@;
        proof {
            start.lemma_in_view();
        }
        let ghost room = start.in_view();
        assert(room.screens[room.current as int].wf());
        let i = self.focused_room_idx();
        let mark = show_screen_mark(
            self.rooms[i].current_screen_index(),
            self.rooms[i].screen_count(),
        );
        let mut exited = false;
        let mut scroll: usize = 0;
        let mut lines: usize = 0;
        if let Some(c) = self.rooms[i].current_pty_mut() {
            exited = matches!(c.pty_status(), PtyStatus::Exited);
            scroll = c.pty.scroll_offset;
            lines = c.scrollback_len();
        }
        proof {
            assert(room.with_screen(room.current as int, room.shown()).screens =~= room.screens);
            assert(self@.rooms =~= start.rooms);
        }
        if exited {
            let mut r = " EXITED ".to_owned();
            r.append(mark.as_str());
            r.append(" \u{2502} ^K switch room ");
            assert(r@ =~= exited_status(mark@));
            (r, bar(Color::Rgb(100, 50, 50), Color::White))
        } else if scroll > 0 {
            let mut r = " SCROLL [".to_owned();
            append_decimal(&mut r, scroll as u64);
            r.push('/');
            append_decimal(&mut r, lines as u64);
            r.append("] ");
            r.append(mark.as_str());
            r.append(
                " \u{2502} j/k line \u{2502} PgUp/PgDn page \u{2502} g/G top/bottom \u{2502} Esc/q exit ",
            );
            assert(r@ =~= scroll_status(mark@, scroll as nat, lines as nat));
            (r, bar(Color::Rgb(60, 60, 100), Color::White))
        } else {
            match self.input_mode {
                InputMode::Normal => {
                    let mut r = String::new();
                    r.push(' ');
                    r.append(mark.as_str());
                    r.append(" \u{2502} ^K search \u{2502} ^B leader");
                    if lines > 0 {
                        r.append(" \u{2502} ^B[ scroll (");
                        append_decimal(&mut r, lines as u64);
                        r.append(" lines)");
                    }
                    r.push(' ');
                    assert(r@ =~= normal_status(mark@, lines as nat));
                    (r, Style::colored(Color::DarkGray).on(Color::Rgb(30, 30, 40)))
                },
                InputMode::Leader => {
                    let mut r = " LEADER ".to_owned();
                    r.append(mark.as_str());
                    r.append(
                        " \u{2502} j/k room \u{2502} h/l screen \u{2502} 1-9 jump \u{2502} / search \u{2502} t new term \u{2502} q quit ",
                    );
                    assert(r@ =~= leader_status(mark@));
                    (r, bar(Color::Rgb(180, 140, 40), Color::Black))
                },
            }
        }
    }
}

/// The parts of the screen do not overlap: the list is to the left of what is in view, and
/// the last line is below it.
pub proof fn law_parts_do_not_overlap(show_sidebar: bool, frame: Rect)
    requires
        frame.x + frame.width <= u16::MAX,
        frame.y + frame.height <= u16::MAX,
    ensures
        ({
            let a = areas_of(show_sidebar, frame);
            &&& a.content.y + a.content.height == a.status.y
            &&& a.status.height <= 1
            &&& a.status.y + a.status.height == frame.y + frame.height
            &&& a.content.x == a.status.x && a.content.width == a.status.width
            &&& match a.sidebar {
                Some(s) => s.x + s.width == a.content.x && s.width <= SIDEBAR_WIDTH,
                None => a.content.x == frame.x && a.content.width == frame.width,
            }
        }),
{
}

/// The parts fill the screen: the list at the side takes 22 columns where it is shown, the status
/// the last row beside it, and what is in view the rest.
pub proof fn law_parts_fill_the_screen(show_sidebar: bool, frame: Rect)
    requires
        frame.x + frame.width <= u16::MAX,
        frame.y + frame.height <= u16::MAX,
        frame.width >= 22,
        frame.height >= 1,
    ensures
        ({
            let a = areas_of(show_sidebar, frame);
            let side = if show_sidebar { 22int } else { 0 };
            &&& a.sidebar is Some <==> show_sidebar
            &&& a.sidebar matches Some(s) ==> s == (Rect { width: 22, ..frame })
            &&& a.content == (Rect {
                x: (frame.x + side) as u16,
                y: frame.y,
                width: (frame.width - side) as u16,
                height: (frame.height - 1) as u16,
            })
            &&& a.status == (Rect {
                x: (frame.x + side) as u16,
                y: (frame.y + frame.height - 1) as u16,
                width: (frame.width - side) as u16,
                height: 1,
            })
        }),
{
}

/// The status says which screen of the room is in view and of how many, and what the keys do: that a
/// command has ended, before how far the user has scrolled back and how far that can go, before
/// whether a command is awaited.
pub proof fn law_what_the_status_says(a: AppModel, r: int)
    requires
        a.wf(),
        is_view(a, r),
    ensures
        ({
            let room = a.rooms[r];
            let mark = seq!['['] + decimal(room.current + 1) + seq!['/'] + decimal(room.screens.len()) + seq![']'];
            let text = a.status_line().0;
            let shown = room.screens[room.current as int];
            let lines = if shown is Pty {
                lines_above(shown->Pty_0.pty.log)
            } else {
                0
            };
            let ended = shown matches ScreenModel::Pty(c) && c.pty.status == PtyStatus::Exited;
            let scrolled = shown matches ScreenModel::Pty(c) && c.pty.scroll > 0;
            &&& ended ==> text == " EXITED "@ + mark + " \u{2502} ^K switch room "@
            &&& !ended && scrolled ==> text == " SCROLL ["@ + decimal(shown->Pty_0.pty.scroll) + seq!['/']
                + decimal(lines) + "] "@ + mark
                + " \u{2502} j/k line \u{2502} PgUp/PgDn page \u{2502} g/G top/bottom \u{2502} Esc/q exit "@
            &&& !ended && !scrolled && a.mode == InputMode::Leader ==> text == " LEADER "@ + mark
                + " \u{2502} j/k room \u{2502} h/l screen \u{2502} 1-9 jump \u{2502} / search \u{2502} t new term \u{2502} q quit "@
            &&& !ended && !scrolled && a.mode == InputMode::Normal ==> text == seq![' '] + mark
                + " \u{2502} ^K search \u{2502} ^B leader"@ + (if lines > 0 {
                " \u{2502} ^B[ scroll ("@ + decimal(lines) + " lines)"@
            } else {
                Seq::empty()
            }) + seq![' ']
        }),
{
    law_what_is_in_view(a, r);
}

/// The status stands out while keys mean something else: in red where a command has ended, in blue
/// while the user scrolls, in yellow while a command is awaited, and else not at all.
pub proof fn law_how_the_status_looks(a: AppModel, r: int)
    requires
        a.wf(),
        is_view(a, r),
    ensures
        ({
            let room = a.rooms[r];
            let shown = room.screens[room.current as int];
            let style = a.status_line().1;
            let ended = shown matches ScreenModel::Pty(c) && c.pty.status == PtyStatus::Exited;
            let scrolled = shown matches ScreenModel::Pty(c) && c.pty.scroll > 0;
            &&& ended ==> style.bg == Some(Color::Rgb(100, 50, 50)) && style.bold
            &&& !ended && scrolled ==> style.bg == Some(Color::Rgb(60, 60, 100)) && style.bold
            &&& !ended && !scrolled && a.mode == InputMode::Leader ==> style.bg == Some(
                Color::Rgb(180, 140, 40),
            ) && style.bold
            &&& !ended && !scrolled && a.mode == InputMode::Normal ==> style.bg == Some(
                Color::Rgb(30, 30, 40),
            ) && !style.bold && style.fg == Some(Color::DarkGray)
        }),
{
    law_what_is_in_view(a, r);
}

} // verus!
