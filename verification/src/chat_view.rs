//! The chat of a room: its messages, what is being typed, and how it is shown.

use vstd::prelude::*;
use vstd::string::*;

use crate::number::{append_decimal, decimal};
use crate::ui::{
    inside, parts_of, span, span_models, spec_inside, spec_span, split_area, Color, Extent, Line,
    LineModel, Rect, Span, Style,
};
use crate::ui::line_models;

verus! {

/// A message in a chat.
#[derive(Clone, Debug)]
pub struct ChatMessage {
    /// Who sent it.
    pub sender: String,
    /// What it says.
    pub content: String,
    /// When it was sent, as it is shown.
    pub timestamp: String,
    /// Whether the user sent it.
    pub is_own: bool,
}

/// A message, as a value.
pub struct ChatMessageModel {
    pub sender: Seq<char>,
    pub content: Seq<char>,
    pub timestamp: Seq<char>,
    pub is_own: bool,
}

impl View for ChatMessage {
    type V = ChatMessageModel;

    open spec fn view(&self) -> ChatMessageModel {
        ChatMessageModel {
            sender: self.sender@,
            content: self.content@,
            timestamp: self.timestamp@,
            is_own: self.is_own,
        }
    }
}

impl ChatMessage {
    /// A message.
    pub fn new(sender: String, content: String, timestamp: String, is_own: bool) -> (m: ChatMessage)
        ensures
            m@ == (ChatMessageModel {
                sender: sender@,
                content: content@,
                timestamp: timestamp@,
                is_own,
            }),
    {
        ChatMessage { sender, content, timestamp, is_own }
    }
}

/// The chat of a room.
#[derive(Clone, Debug)]
pub struct ChatState {
    /// The messages, oldest first.
    pub messages: Vec<ChatMessage>,
    /// What is being typed.
    pub input: String,
    /// How many messages the user has scrolled back.
    pub scroll_offset: usize,
    /// Whether there are messages that the user has not seen.
    pub has_unread: bool,
}

/// A chat, as a value.
#[verifier::ext_equal]
pub struct ChatModel {
    pub messages: Seq<ChatMessageModel>,
    pub input: Seq<char>,
    pub scroll: nat,
    pub has_unread: bool,
}

/// Messages, as values.
pub open spec fn message_models(v: Seq<ChatMessage>) -> Seq<ChatMessageModel> {
    Seq::new(v.len(), |i: int| v[i]@)
}

impl View for ChatState {
    type V = ChatModel;

    open spec fn view(&self) -> ChatModel {
        ChatModel {
            messages: message_models(self.messages@),
            input: self.input@,
            scroll: self.scroll_offset as nat,
            has_unread: self.has_unread,
        }
    }
}

impl ChatModel {
    /// A chat without messages.
    pub open spec fn empty() -> ChatModel {
        ChatModel { messages: Seq::empty(), input: Seq::empty(), scroll: 0, has_unread: false }
    }

    /// The chat with one message more; it is unread where the user has scrolled back.
    pub open spec fn with_message(self, m: ChatMessageModel) -> ChatModel {
        ChatModel {
            messages: self.messages.push(m),
            has_unread: self.has_unread || self.scroll > 0,
            ..self
        }
    }

    /// How far the user can scroll back.
    pub open spec fn reach(self) -> nat {
        if self.messages.len() > 0 {
            (self.messages.len() - 1) as nat
        } else {
            0
        }
    }

    /// The chat after the user scrolled back.
    pub open spec fn scrolled_up(self, n: nat) -> ChatModel {
        ChatModel {
            scroll: if self.scroll + n <= self.reach() {
                self.scroll + n
            } else {
                self.reach()
            },
            ..self
        }
    }

    /// The chat after the user scrolled forth; at the end everything is read.
    pub open spec fn scrolled_down(self, n: nat) -> ChatModel {
        let to = if n <= self.scroll {
            (self.scroll - n) as nat
        } else {
            0
        };
        ChatModel { scroll: to, has_unread: self.has_unread && to > 0, ..self }
    }
}

impl Default for ChatState {
    fn default() -> (s: Self)
        ensures
            s@ == ChatModel::empty(),
    {
        let s = ChatState {
            messages: Vec::new(),
            input: String::new(),
            scroll_offset: 0,
            has_unread: false,
        };
        assert(s@ =~= ChatModel::empty());
        s
    }
}

impl ChatState {
    /// A chat without messages.
    pub fn new() -> (s: ChatState)
        ensures
            s@ == ChatModel::empty(),
    {
        ChatState::default()
    }

    /// Adds a message.
    pub fn add_message(&mut self, message: ChatMessage)
        ensures
            final(self)@ == old(self)@.with_message(message@),
    {
        let ghost before = self.messages@;
        self.messages.push(message);
        assert(message_models(self.messages@) =~= message_models(before).push(message@));
        if self.scroll_offset > 0 {
            self.has_unread = true;
        }
    }

    /// Notes that everything has been read.
    pub fn mark_read(&mut self)
        ensures
            final(self)@ == (ChatModel { has_unread: false, ..old(self)@ }),
    {
        self.has_unread = false;
    }

    /// Scrolls back.
    pub fn scroll_up(&mut self, n: usize)
        requires
            old(self)@.scroll + n <= usize::MAX,
        ensures
            final(self)@ == old(self)@.scrolled_up(n as nat),
    {
        let max = self.messages.len().saturating_sub(1);
        let to = self.scroll_offset + n;
        self.scroll_offset = if to <= max { to } else { max };
    }

    /// Scrolls forth.
    pub fn scroll_down(&mut self, n: usize)
        ensures
            final(self)@ == old(self)@.scrolled_down(n as nat),
    {
        self.scroll_offset = self.scroll_offset.saturating_sub(n);
        if self.scroll_offset == 0 {
            self.mark_read();
        }
    }

    /// Scrolls to the end.
    pub fn scroll_to_bottom(&mut self)
        ensures
            final(self)@ == (ChatModel { scroll: 0, has_unread: false, ..old(self)@ }),
    {
        self.scroll_offset = 0;
        self.mark_read();
    }

    /// Whether the user has scrolled back.
    pub fn is_scrolled(&self) -> (r: bool)
        ensures
            r == (self@.scroll > 0),
    {
        self.scroll_offset > 0
    }

    /// Types a character.
    pub fn push_input(&mut self, c: char)
        ensures
            final(self)@ == (ChatModel { input: old(self)@.input.push(c), ..old(self)@ }),
    {
        self.input.push(c);
    }

    /// Takes the last character back, if there is one.
    pub fn pop_input(&mut self)
        ensures
            final(self)@ == (ChatModel {
                input: if old(self)@.input.len() > 0 {
                    old(self)@.input.drop_last()
                } else {
                    old(self)@.input
                },
                ..old(self)@
            }),
    {
        self.input.pop();
    }

    /// Takes what was typed.
    pub fn take_input(&mut self) -> (text: String)
        ensures
            text@ == old(self)@.input,
            final(self)@ == (ChatModel { input: Seq::empty(), ..old(self)@ }),
    {
        let mut text = String::new();
        core::mem::swap(&mut text, &mut self.input);
        assert(self.input@ =~= Seq::<char>::empty());
        text
    }

    /// Whether nothing has been typed.
    pub fn input_is_empty(&self) -> (r: bool)
        ensures
            r == (self@.input.len() == 0),
    {
        self.input.as_str().is_empty()
    }
}

// ---------------------------------------------------------------------------
// How it is shown
// ---------------------------------------------------------------------------

/// The chat of a room, ready to be shown.
pub struct ChatViewWidget<'a> {
    pub state: &'a ChatState,
    pub room_name: &'a str,
    pub is_focused: bool,
}

/// What the list of messages shows.
pub struct MessagesView {
    /// The title on the border.
    pub title: String,
    /// The style of the border.
    pub border: Style,
    /// The area inside the border.
    pub inner: Rect,
    /// The messages in view; `None` where there is not one message.
    pub lines: Option<Vec<Line>>,
    /// The note on how far the user has scrolled back, and where it goes.
    pub indicator: Option<(String, Rect)>,
}

/// The style of a border.
pub open spec fn border_style(is_focused: bool) -> Style {
    if is_focused {
        Style::spec_colored(Color::Cyan)
    } else {
        Style::spec_colored(Color::DarkGray)
    }
}

/// The first message in view.
pub open spec fn first_shown(total: nat, height: nat, scroll: nat) -> nat {
    if total >= height + scroll {
        (total - height - scroll) as nat
    } else {
        0
    }
}

/// The place after the last message in view.
pub open spec fn end_shown(total: nat, scroll: nat) -> nat {
    if total >= scroll {
        (total - scroll) as nat
    } else {
        0
    }
}

/// How a message is shown: its time, its sender and what it says.
pub open spec fn message_line(m: ChatMessageModel) -> LineModel {
    LineModel {
        spans: seq![
            spec_span(m.timestamp, Style::spec_colored(Color::DarkGray)),
            spec_span(seq![' '], Style::spec_plain()),
            spec_span(
                m.sender,
                if m.is_own {
                    Style::spec_colored(Color::Green).spec_bold()
                } else {
                    Style::spec_colored(Color::Cyan).spec_bold()
                },
            ),
            spec_span(seq![':', ' '], Style::spec_plain()),
            spec_span(m.content, Style::spec_colored(Color::White)),
        ],
        style: Style::spec_plain(),
    }
}

/// The note on how far the user has scrolled back.
pub open spec fn scroll_note(scroll: nat) -> Seq<char> {
    seq!['\u{2191}', ' '] + decimal(scroll) + seq![' ', 'm', 'o', 'r', 'e']
}

impl<'a> ChatViewWidget<'a> {
    /// The chat of a room.
    pub fn new(state: &'a ChatState, room_name: &'a str, is_focused: bool) -> (w: ChatViewWidget<'a>)
        ensures
            w.state@ == state@,
            w.room_name@ == room_name@,
            w.is_focused == is_focused,
    {
        ChatViewWidget { state, room_name, is_focused }
    }

    /// The areas of the messages and of what is being typed.
    pub fn areas(&self, area: Rect) -> (r: (Rect, Rect))
        requires
            area.x + area.width <= u16::MAX,
            area.y + area.height <= u16::MAX,
        ensures
            r == parts_of(area, true, Extent::AtLeast(3), Extent::Length(3)),
    {
        split_area(area, true, Extent::AtLeast(3), Extent::Length(3))
    }

    /// What the list of messages shows in an area.
    pub fn render_messages(&self, area: Rect) -> (v: MessagesView)
        requires
            area.x + area.width <= u16::MAX,
            area.y + area.height <= u16::MAX,
        ensures
            v.title@ == seq![' ', '#'] + self.room_name@ + seq![' '],
            v.border == border_style(self.is_focused),
            v.inner == spec_inside(area),
            ({
                let chat = self.state@;
                let from = first_shown(chat.messages.len(), v.inner.height as nat, chat.scroll);
                let to = end_shown(chat.messages.len(), chat.scroll);
                match v.lines {
                    None => chat.messages.len() == 0,
                    Some(lines) => chat.messages.len() > 0 && line_models(lines@)
                        == chat.messages.subrange(from as int, to as int).map_values(
                        |m: ChatMessageModel| message_line(m),
                    ),
                }
            }),
            v.indicator is Some <==> self.state@.messages.len() > 0 && self.state@.scroll > 0,
            v.indicator matches Some((note, place)) ==> {
                &&& note@ == scroll_note(self.state@.scroll)
                &&& place == note_area(v.inner, self.state@.scroll)
            },
    {
        let mut title = String::new();
        title.push(' ');
        title.push('#');
        title.append(self.room_name);
        title.push(' ');
        assert(title@ =~= seq![' ', '#'] + self.room_name@ + seq![' ']);
        let border = if self.is_focused {
            Style::colored(Color::Cyan)
        } else {
            Style::colored(Color::DarkGray)
        };
        let inner = inside(area);
        let total = self.state.messages.len();
        if total == 0 {
            return MessagesView { title, border, inner, lines: None, indicator: None };
        }
        let from = total.saturating_sub(inner.height as usize).saturating_sub(self.state.scroll_offset);
        let to = total.saturating_sub(self.state.scroll_offset);
        let ghost chat = self.state@;
        assert(from == first_shown(total as nat, inner.height as nat, chat.scroll));
        assert(to == end_shown(total as nat, chat.scroll));
        let mut lines: Vec<Line> = Vec::new();
        let mut i: usize = from;
        while i < to
            invariant
                from <= i <= to <= self.state.messages@.len(),
                chat == self.state@,
                lines@.len() == i - from,
                forall|k: int|
                    0 <= k < lines@.len() ==> #[trigger] lines@[k]@ == message_line(chat.messages[from + k]),
            decreases to - i,
        {
            lines.push(show_message(&self.state.messages[i]));
            i = i + 1;
        }
        assert(line_models(lines@) =~= chat.messages.subrange(from as int, to as int).map_values(
            |m: ChatMessageModel| message_line(m),
        ));
        let indicator = if self.state.is_scrolled() {
            Some(scroll_indicator(inner, self.state.scroll_offset))
        } else {
            None
        };
        MessagesView { title, border, inner, lines: Some(lines), indicator }
    }

    /// What is being typed, as it is shown: with a cursor where the chat is in view.
    pub fn render_input(&self) -> (r: (String, Style, Style))
        ensures
            r.0@ == if self.is_focused {
                self.state@.input.push('\u{258c}')
            } else {
                self.state@.input
            },
            r.1 == if self.is_focused {
                Style::spec_colored(Color::White)
            } else {
                Style::spec_colored(Color::DarkGray)
            },
            r.2 == border_style(self.is_focused),
    {
        let mut text = self.state.input.clone();
        if self.is_focused {
            text.push('\u{258c}');
            (text, Style::colored(Color::White), Style::colored(Color::Cyan))
        } else {
            (text, Style::colored(Color::DarkGray), Style::colored(Color::DarkGray))
        }
    }
}

/// How a message is shown.
fn show_message(m: &ChatMessage) -> (line: Line)
    ensures
        line@ == message_line(m@),
{
    let sender_style = if m.is_own {
        Style::colored(Color::Green).bold()
    } else {
        Style::colored(Color::Cyan).bold()
    };
    proof {
        reveal_strlit(" ");
        reveal_strlit(": ");
    }
    let mut spans: Vec<Span> = Vec::new();
    spans.push(span(m.timestamp.as_str(), Style::colored(Color::DarkGray)));
    spans.push(span(" ", Style::plain()));
    spans.push(span(m.sender.as_str(), sender_style));
    spans.push(span(": ", Style::plain()));
    spans.push(span(m.content.as_str(), Style::colored(Color::White)));
    assert(" "@ =~= seq![' ']);
    assert(": "@ =~= seq![':', ' ']);
    assert(span_models(spans@) =~= message_line(m@).spans);
    Line { spans, style: Style::plain() }
}

/// How many bytes the note on scrolling takes.
pub open spec fn note_size(scroll: nat) -> nat {
    vstd::utf8::encode_utf8(scroll_note(scroll)).len()
}

/// Where the note on scrolling goes: at the top, one column from the right, as wide as
/// it has bytes.
pub open spec fn note_area(inner: Rect, scroll: nat) -> Rect {
    let size = note_size(scroll);
    Rect {
        x: if inner.width >= size + 1 {
            (inner.x + (inner.width - size - 1)) as u16
        } else {
            inner.x
        },
        y: inner.y,
        width: size as u16,
        height: 1,
    }
}

/// A number of at most 20 digits.
proof fn lemma_decimal_length(n: nat, digits: nat)
    requires
        n < power_of_ten(digits),
        digits > 0,
    ensures
        decimal(n).len() <= digits,
        vstd::utf8::is_ascii_chars(decimal(n)),
    decreases digits,
{
    if n >= 10 {
        assert(n / 10 < power_of_ten((digits - 1) as nat)) by (nonlinear_arith)
            requires
                n < 10 * power_of_ten((digits - 1) as nat),
        ;
        assert(power_of_ten(0) == 1);
        lemma_decimal_length(n / 10, (digits - 1) as nat);
    }
}

spec fn power_of_ten(d: nat) -> nat
    decreases d,
{
    if d == 0 {
        1
    } else {
        10 * power_of_ten((d - 1) as nat)
    }
}

/// The note on scrolling is short.
proof fn lemma_note_size(scroll: nat)
    requires
        scroll <= u64::MAX,
    ensures
        note_size(scroll) <= 30,
{
    assert(power_of_ten(20) == 100_000_000_000_000_000_000) by {
        reveal_with_fuel(power_of_ten, 21);
    }
    lemma_decimal_length(scroll, 20);
    let tail = seq![' '] + decimal(scroll) + seq![' ', 'm', 'o', 'r', 'e'];
    assert(vstd::utf8::is_ascii_chars(tail));
    vstd::utf8::is_ascii_chars_encode_utf8(tail);
    assert(scroll_note(scroll) =~= seq!['\u{2191}'] + tail);
    assert(scroll_note(scroll).drop_first() =~= tail);
    assert(vstd::utf8::encode_utf8(scroll_note(scroll)) == vstd::utf8::encode_scalar('\u{2191}' as u32)
        + vstd::utf8::encode_utf8(tail));
}

/// The note on how far the user has scrolled back, and where it goes.
fn scroll_indicator(inner: Rect, scroll: usize) -> (r: (String, Rect))
    requires
        inner.x + inner.width <= u16::MAX,
    ensures
        r.0@ == scroll_note(scroll as nat),
        r.1 == note_area(inner, scroll as nat),
{
    let mut note = String::new();
    note.push('\u{2191}');
    note.push(' ');
    append_decimal(&mut note, scroll as u64);
    proof {
        reveal_strlit(" more");
        lemma_note_size(scroll as nat);
    }
    note.append(" more");
    assert(note@ =~= scroll_note(scroll as nat));
    let size: u16 = note.as_str().as_bytes().len() as u16;
    let place = Rect {
        x: inner.x + inner.width.saturating_sub(size + 1),
        y: inner.y,
        width: size,
        height: 1,
    };
    (note, place)
}

// ---------------------------------------------------------------------------
// Laws
// ---------------------------------------------------------------------------

/// A message that comes while the end of the chat is in view is not unread; one that
/// comes while the user has scrolled back is, until the end is in view again.
pub proof fn law_unread_until_the_end(chat: ChatModel, m: ChatMessageModel, n: nat)
    ensures
        chat.scroll == 0 ==> chat.with_message(m).has_unread == chat.has_unread,
        chat.scroll > 0 ==> chat.with_message(m).has_unread,
        n >= chat.scroll ==> !chat.with_message(m).scrolled_down(n).has_unread,
{
}

/// The user never scrolls past the oldest message or past the end.
pub proof fn law_chat_scroll_stays_in_reach(chat: ChatModel, n: nat)
    ensures
        chat.scrolled_up(n).scroll <= chat.reach(),
        chat.scrolled_down(n).scroll <= chat.scroll,
{
}

/// What is typed and taken back leaves the input as it was.
pub proof fn law_typing_is_taken_back(input: Seq<char>, c: char)
    ensures
        input.push(c).drop_last() == input,
{
    assert(input.push(c).drop_last() =~= input);
}

/// At most as many messages are shown as there are lines; at the end of the chat the
/// newest one is the last.
pub proof fn law_shown_messages_fit(total: nat, height: nat, scroll: nat)
    ensures
        first_shown(total, height, scroll) <= end_shown(total, scroll) <= total,
        end_shown(total, scroll) - first_shown(total, height, scroll) <= height,
        scroll == 0 ==> end_shown(total, scroll) == total,
{
}

/// A new message stands behind the others and is unread while the user has scrolled back; nothing
/// that was unread is read by it, and what is being typed and where the user has scrolled to stay.
pub proof fn law_messages_are_added(chat: ChatModel, m: ChatMessageModel, i: int)
    ensures
        ({
            let c = chat.with_message(m);
            &&& c.messages.len() == chat.messages.len() + 1
            &&& 0 <= i < chat.messages.len() ==> c.messages[i] == chat.messages[i]
            &&& c.messages.last() == m
            &&& c.has_unread == (chat.has_unread || chat.scroll > 0)
            &&& c.input == chat.input && c.scroll == chat.scroll
        }),
{
}

/// The user scrolls back message by message until the first one, and forth until the last; whoever
/// reaches the end has read everything.
pub proof fn law_chats_are_scrolled(chat: ChatModel, n: nat)
    requires
        chat.messages.len() > 0,
        chat.scroll < chat.messages.len(),
    ensures
        chat.scroll + n < chat.messages.len() ==> chat.scrolled_up(n) == (ChatModel {
            scroll: chat.scroll + n,
            ..chat
        }),
        chat.scroll + n >= chat.messages.len() ==> chat.scrolled_up(n) == (ChatModel {
            scroll: (chat.messages.len() - 1) as nat,
            ..chat
        }),
        n < chat.scroll ==> chat.scrolled_down(n) == (ChatModel {
            scroll: (chat.scroll - n) as nat,
            ..chat
        }),
        n >= chat.scroll ==> chat.scrolled_down(n) == (ChatModel { scroll: 0, has_unread: false, ..chat }),
{
}

/// The messages shown are the last ones, up to as many as fit; whoever has scrolled back sees those
/// before as many as that.
pub proof fn law_the_last_messages_are_shown(total: nat, height: nat, scroll: nat)
    requires
        scroll <= total,
    ensures
        end_shown(total, scroll) + scroll == total,
        height <= total - scroll ==> first_shown(total, height, scroll) + height == end_shown(
            total,
            scroll,
        ),
        height > total - scroll ==> first_shown(total, height, scroll) == 0,
{
}

/// A message is shown with its time, its sender and what it says, in this order; one's own name has
/// another colour than those of others.
pub proof fn law_messages_are_shown_whole(m: ChatMessageModel)
    ensures
        ({
            let spans = message_line(m).spans;
            &&& spans.len() == 5
            &&& spans[0].text == m.timestamp
            &&& spans[1].text == seq![' ']
            &&& spans[2].text == m.sender
            &&& spans[3].text == seq![':', ' ']
            &&& spans[4].text == m.content
            &&& spans[2].style.fg == Some(if m.is_own { Color::Green } else { Color::Cyan })
        }),
{
}

/// Who has scrolled back is told how far, in lines before the end.
pub proof fn law_the_scroll_note(scroll: nat)
    ensures
        scroll_note(scroll) == seq!['\u{2191}', ' '] + decimal(scroll) + seq![' ', 'm', 'o', 'r', 'e'],
        border_style(true).fg == Some(Color::Cyan),
        border_style(false).fg == Some(Color::DarkGray),
{
}

/// The note stands in the first row of the messages, one column from their right edge, if there is
/// room for it.
pub proof fn law_where_the_note_stands(inner: Rect, scroll: nat)
    requires
        inner.x + inner.width <= u16::MAX,
        vstd::utf8::encode_utf8(scroll_note(scroll)).len() < inner.width,
    ensures
        ({
            let r = note_area(inner, scroll);
            &&& r.width == vstd::utf8::encode_utf8(scroll_note(scroll)).len()
            &&& r.x + r.width + 1 == inner.x + inner.width
            &&& r.y == inner.y
            &&& r.height == 1
        }),
{
}

} // verus!
