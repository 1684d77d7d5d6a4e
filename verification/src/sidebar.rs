//! The list at the side: channels, agents, and what is new in them.

use vstd::prelude::*;
use vstd::string::*;

use crate::channel::Channel;
use crate::number::{append_decimal, decimal};
use crate::picker::{is_dm, HasAgentActivity, HasAgentName, HasNameActivity, HasPtyStatus};
use crate::pty::{ActivityState, PtyStatus};
use crate::room_view::{room_models, RoomModel, RoomView};
use crate::text::{is_listing, listing, listing_of, places, texts};
use crate::ui::{
    item_models, line_models, one_line, span, span_models, spec_one_line, spec_span, Color, Item,
    ItemModel, Line, LineModel, Span, SpanModel, Style,
};

verus! {

/// How many columns the list takes.
pub const SIDEBAR_WIDTH: u16 = 22;

/// The title of the list.
pub fn title() -> (r: String)
    ensures
        r@ == " bz v0.1.0 "@,
{
    " bz v0.1.0 ".to_owned()
}

/// The mark before an entry: an arrow if it is in view.
pub open spec fn mark(is_focused: bool) -> SpanModel {
    if is_focused {
        spec_span(seq![' ', '\u{25b8}', ' '], Style::spec_colored(Color::Cyan))
    } else {
        spec_span(seq![' ', ' ', ' '], Style::spec_plain())
    }
}

/// The mark before an entry.
fn show_mark(is_focused: bool) -> (s: Span)
    ensures
        s@ == mark(is_focused),
{
    let mut text = String::new();
    text.push(' ');
    text.push(if is_focused { '\u{25b8}' } else { ' ' });
    text.push(' ');
    assert(text@ =~= mark(is_focused).text);
    Span {
        text,
        style: if is_focused {
            Style::colored(Color::Cyan)
        } else {
            Style::plain()
        },
    }
}

/// The sign before a name.
pub open spec fn sign(c: char) -> SpanModel {
    spec_span(seq![c], Style::spec_colored(Color::DarkGray))
}

fn show_sign(c: char) -> (s: Span)
    ensures
        s@ == sign(c),
{
    let mut text = String::new();
    text.push(c);
    assert(text@ =~= seq![c]);
    Span { text, style: Style::colored(Color::DarkGray) }
}

/// What stands behind the name of a channel: that its process has exited, or else what is
/// new: a dot, or the number of bells. What is pending is not shown.
pub open spec fn channel_note(status: PtyStatus, activity: ActivityState) -> Seq<SpanModel> {
    if status == PtyStatus::Exited {
        seq![spec_span(seq![' ', '\u{2715}'], Style::spec_colored(Color::Red))]
    } else {
        match activity {
            ActivityState::Active(n) => if n == 0 {
                seq![spec_span(seq![' ', '\u{25cf}'], Style::spec_colored(Color::Yellow))]
            } else {
                seq![
                    spec_span(
                        seq![' ', '\u{25c6}', ' '] + decimal(n as nat),
                        Style::spec_colored(Color::Red).spec_bold(),
                    ),
                ]
            },
            _ => Seq::empty(),
        }
    }
}

/// The style of a channel's entry.
pub open spec fn channel_style(is_focused: bool, status: PtyStatus, activity: ActivityState) -> Style {
    if is_focused {
        Style::spec_colored(Color::White).spec_bold()
    } else if status == PtyStatus::Exited {
        Style::spec_colored(Color::Red)
    } else if activity is Active {
        Style::spec_colored(Color::White).spec_bold()
    } else {
        Style::spec_colored(Color::DarkGray)
    }
}

/// The entry of a channel.
pub open spec fn channel_item(
    name: Seq<char>,
    is_focused: bool,
    status: PtyStatus,
    activity: ActivityState,
) -> ItemModel {
    spec_one_line(
        seq![mark(is_focused), sign('#'), spec_span(name, Style::spec_plain())] + channel_note(
            status,
            activity,
        ),
        channel_style(is_focused, status, activity),
    )
}

/// The entry of a channel.
fn show_channel(name: &str, is_focused: bool, status: PtyStatus, activity: ActivityState) -> (item: Item)
    ensures
        item@ == channel_item(name@, is_focused, status, activity),
{
    let mut spans: Vec<Span> = Vec::new();
    spans.push(show_mark(is_focused));
    spans.push(show_sign('#'));
    spans.push(span(name, Style::plain()));
    let exited = matches!(status, PtyStatus::Exited);
    if exited {
        let mut text = String::new();
        text.push(' ');
        text.push('\u{2715}');
        assert(text@ =~= seq![' ', '\u{2715}']);
        spans.push(Span { text, style: Style::colored(Color::Red) });
    } else if let ActivityState::Active(n) = activity {
        let mut text = String::new();
        text.push(' ');
        if n == 0 {
            text.push('\u{25cf}');
            assert(text@ =~= seq![' ', '\u{25cf}']);
            spans.push(Span { text, style: Style::colored(Color::Yellow) });
        } else {
            text.push('\u{25c6}');
            text.push(' ');
            append_decimal(&mut text, n as u64);
            assert(text@ =~= seq![' ', '\u{25c6}', ' '] + decimal(n as nat));
            spans.push(Span { text, style: Style::colored(Color::Red).bold() });
        }
    }
    assert(span_models(spans@) =~= seq![
        mark(is_focused),
        sign('#'),
        spec_span(name@, Style::spec_plain()),
    ] + channel_note(status, activity));
    let style = if is_focused {
        Style::colored(Color::White).bold()
    } else if exited {
        Style::colored(Color::Red)
    } else if activity.is_active() {
        Style::colored(Color::White).bold()
    } else {
        Style::colored(Color::DarkGray)
    };
    one_line(spans, style)
}

/// A list of channels.
pub struct Sidebar<'a> {
    pub channels: &'a [Channel],
    pub focused: usize,
}

impl<'a> Sidebar<'a> {
    /// A list of channels, one of which is in view.
    pub fn new(channels: &'a [Channel], focused: usize) -> (s: Sidebar<'a>)
        ensures
            s.channels == channels,
            s.focused == focused,
    {
        Sidebar { channels, focused }
    }

    /// A list of a session's channels.
    pub fn from_session_channels<T: HasNameActivity + HasPtyStatus>(
        channels: &'a [T],
        focused: usize,
    ) -> (s: SessionSidebar<'a, T>)
        ensures
            s.channels == channels,
            s.focused == focused,
            s.rooms@ == Seq::<(String, String)>::empty(),
    {
        SessionSidebar { channels, focused, rooms: Vec::new() }
    }

    /// The entries.
    pub fn items(&self) -> (r: Vec<Item>)
        ensures
            item_models(r@) == Seq::new(
                self.channels@.len(),
                |i: int|
                    channel_item(
                        self.channels@[i].name@,
                        i == self.focused,
                        self.channels@[i].pty@.status,
                        self.channels@[i].pty@.activity,
                    ),
            ),
    {
        let mut r: Vec<Item> = Vec::new();
        let mut i: usize = 0;
        while i < self.channels.len()
            invariant
                i <= self.channels@.len(),
                r@.len() == i,
                forall|k: int|
                    0 <= k < i ==> (#[trigger] r@[k])@ == channel_item(
                        self.channels@[k].name@,
                        k == self.focused,
                        self.channels@[k].pty@.status,
                        self.channels@[k].pty@.activity,
                    ),
            decreases self.channels@.len() - i,
        {
            let c = &self.channels[i];
            r.push(show_channel(c.name.as_str(), i == self.focused, c.pty.status, *c.activity()));
            i = i + 1;
        }
        assert(item_models(r@) =~= Seq::new(
            self.channels@.len(),
            |i: int|
                channel_item(
                    self.channels@[i].name@,
                    i == self.focused,
                    self.channels@[i].pty@.status,
                    self.channels@[i].pty@.activity,
                ),
        ));
        r
    }
}

/// A list of a session's channels, and of rooms on the chat server.
pub struct SessionSidebar<'a, T: HasNameActivity + HasPtyStatus> {
    pub channels: &'a [T],
    pub focused: usize,
    /// The rooms, by their name on the server and the name they are shown under.
    pub rooms: Vec<(String, String)>,
}

/// The line above the rooms.
pub open spec fn rooms_header() -> ItemModel {
    spec_one_line(
        seq![
            spec_span(
                seq!['\u{2500}', '\u{2500}', '\u{2500}'] + " Rooms "@ + seq![
                    '\u{2500}',
                    '\u{2500}',
                    '\u{2500}',
                ],
                Style::spec_colored(Color::DarkGray),
            ),
        ],
        Style::spec_plain(),
    )
}

/// The entry of a room on the chat server.
pub open spec fn server_room_item(name: Seq<char>) -> ItemModel {
    spec_one_line(
        seq![
            spec_span(seq![' ', ' ', ' '], Style::spec_plain()),
            spec_span(seq!['\u{25c9}', ' '], Style::spec_colored(Color::Green)),
            spec_span(name, Style::spec_colored(Color::DarkGray)),
        ],
        Style::spec_plain(),
    )
}

/// The entries of the rooms on the chat server, with the line above them.
pub open spec fn server_room_items(rooms: Seq<(String, String)>) -> Seq<ItemModel> {
    if rooms.len() == 0 {
        Seq::empty()
    } else {
        seq![rooms_header()] + Seq::new(rooms.len(), |i: int| server_room_item(rooms[i].1@))
    }
}

impl<'a, T: HasNameActivity + HasPtyStatus> SessionSidebar<'a, T> {
    /// The same list with these rooms.
    pub fn with_rooms(self, rooms: Vec<(String, String)>) -> (s: SessionSidebar<'a, T>)
        ensures
            s.channels == self.channels,
            s.focused == self.focused,
            s.rooms == rooms,
    {
        SessionSidebar { channels: self.channels, focused: self.focused, rooms }
    }

    /// The entries.
    pub fn items(&self) -> (r: Vec<Item>)
        ensures
            item_models(r@) == Seq::new(
                self.channels@.len(),
                |i: int|
                    channel_item(
                        self.channels@[i].spec_name(),
                        i == self.focused,
                        self.channels@[i].spec_pty_status(),
                        self.channels@[i].spec_activity(),
                    ),
            ) + server_room_items(self.rooms@),
    {
        let ghost firsts = Seq::new(
            self.channels@.len(),
            |i: int|
                channel_item(
                    self.channels@[i].spec_name(),
                    i == self.focused,
                    self.channels@[i].spec_pty_status(),
                    self.channels@[i].spec_activity(),
                ),
        );
        let mut r: Vec<Item> = Vec::new();
        let mut i: usize = 0;
        while i < self.channels.len()
            invariant
                i <= self.channels@.len(),
                r@.len() == i,
                firsts == Seq::new(
                    self.channels@.len(),
                    |i: int|
                        channel_item(
                            self.channels@[i].spec_name(),
                            i == self.focused,
                            self.channels@[i].spec_pty_status(),
                            self.channels@[i].spec_activity(),
                        ),
                ),
                forall|k: int| 0 <= k < i ==> (#[trigger] r@[k])@ == firsts[k],
            decreases self.channels@.len() - i,
        {
            let c = &self.channels[i];
            r.push(show_channel(c.name(), i == self.focused, *c.pty_status(), *c.activity()));
            i = i + 1;
        }
        assert(item_models(r@) =~= firsts);
        if self.rooms.len() == 0 {
            assert(item_models(r@) =~= firsts + server_room_items(self.rooms@));
            return r;
        }
        r.push(show_rooms_header());
        assert(item_models(r@) =~= firsts + seq![rooms_header()]);
        let ghost n = r@.len();
        let mut k: usize = 0;
        while k < self.rooms.len()
            invariant
                k <= self.rooms@.len(),
                r@.len() == n + k,
                forall|j: int| 0 <= j < n ==> (#[trigger] r@[j])@ == (firsts + seq![rooms_header()])[j],
                forall|j: int|
                    0 <= j < k ==> (#[trigger] r@[n + j])@ == server_room_item(self.rooms@[j].1@),
            decreases self.rooms@.len() - k,
        {
            let item = show_server_room(self.rooms[k].1.as_str());
            r.push(item);
            assert(r@[n + k]@ == server_room_item(self.rooms@[k as int].1@));
            k = k + 1;
        }
        proof {
            let wanted = firsts + server_room_items(self.rooms@);
            assert forall|j: int| 0 <= j < r@.len() implies item_models(r@)[j] == wanted[j] by {
                if j >= n {
                    assert(r@[n + (j - n)]@ == server_room_item(self.rooms@[j - n].1@));
                }
            }
            assert(item_models(r@) =~= wanted);
        }
        r
    }
}

fn show_rooms_header() -> (item: Item)
    ensures
        item@ == rooms_header(),
{
    let mut text = String::new();
    text.push('\u{2500}');
    text.push('\u{2500}');
    text.push('\u{2500}');
    text.append(" Rooms ");
    text.push('\u{2500}');
    text.push('\u{2500}');
    text.push('\u{2500}');
    assert(text@ =~= rooms_header().lines[0].spans[0].text);
    let mut spans: Vec<Span> = Vec::new();
    spans.push(Span { text, style: Style::colored(Color::DarkGray) });
    assert(span_models(spans@) =~= rooms_header().lines[0].spans);
    one_line(spans, Style::plain())
}

fn show_server_room(name: &str) -> (item: Item)
    ensures
        item@ == server_room_item(name@),
{
    let mut indent = String::new();
    indent.push(' ');
    indent.push(' ');
    indent.push(' ');
    assert(indent@ =~= seq![' ', ' ', ' ']);
    let mut dot = String::new();
    dot.push('\u{25c9}');
    dot.push(' ');
    assert(dot@ =~= seq!['\u{25c9}', ' ']);
    let mut spans: Vec<Span> = Vec::new();
    spans.push(Span { text: indent, style: Style::plain() });
    spans.push(Span { text: dot, style: Style::colored(Color::Green) });
    spans.push(span(name, Style::colored(Color::DarkGray)));
    assert(span_models(spans@) =~= server_room_item(name@).lines[0].spans);
    one_line(spans, Style::plain())
}

// ---------------------------------------------------------------------------
// Rooms and agents
// ---------------------------------------------------------------------------

/// A heading of the list.
pub open spec fn heading(text: Seq<char>) -> ItemModel {
    spec_one_line(
        seq![spec_span(text, Style::spec_colored(Color::DarkGray).spec_bold())],
        Style::spec_plain(),
    )
}

fn show_heading(text: &str) -> (item: Item)
    ensures
        item@ == heading(text@),
{
    let mut spans: Vec<Span> = Vec::new();
    spans.push(span(text, Style::colored(Color::DarkGray).bold()));
    assert(span_models(spans@) =~= heading(text@).lines[0].spans);
    one_line(spans, Style::plain())
}

/// A row of the same character.
pub open spec fn row_of(c: char, n: nat) -> Seq<char> {
    Seq::new(n, |i: int| c)
}

/// The line under the title.
pub open spec fn divider() -> ItemModel {
    spec_one_line(
        seq![spec_span(seq![' '] + row_of('\u{2500}', 19), Style::spec_colored(Color::DarkGray))],
        Style::spec_plain(),
    )
}

fn show_divider() -> (item: Item)
    ensures
        item@ == divider(),
{
    let mut text = String::new();
    text.push(' ');
    let mut i: usize = 0;
    while i < 19
        invariant
            i <= 19,
            text@ == seq![' '] + row_of('\u{2500}', i as nat),
        decreases 19 - i,
    {
        text.push('\u{2500}');
        i = i + 1;
        assert(row_of('\u{2500}', i as nat) =~= row_of('\u{2500}', (i - 1) as nat).push('\u{2500}'));
        assert(text@ =~= seq![' '] + row_of('\u{2500}', i as nat));
    }
    let mut spans: Vec<Span> = Vec::new();
    spans.push(Span { text, style: Style::colored(Color::DarkGray) });
    assert(span_models(spans@) =~= divider().lines[0].spans);
    one_line(spans, Style::plain())
}

/// The dot behind a name if there is something new.
pub open spec fn dot(active: bool) -> Seq<SpanModel> {
    if active {
        seq![spec_span(seq![' ', '\u{25cf}'], Style::spec_colored(Color::Yellow))]
    } else {
        Seq::empty()
    }
}

/// The parts of an entry: a mark, a sign, the name, and a dot if there is something new.
pub open spec fn entry_spans(c: char, name: Seq<char>, is_focused: bool, active: bool) -> Seq<SpanModel> {
    seq![mark(is_focused), sign(c), spec_span(name, Style::spec_plain())] + dot(active)
}

/// The style of an entry.
pub open spec fn entry_style(is_focused: bool, active: bool) -> Style {
    if is_focused || active {
        Style::spec_colored(Color::White).spec_bold()
    } else {
        Style::spec_colored(Color::DarkGray)
    }
}

fn show_entry(c: char, name: &str, is_focused: bool, active: bool) -> (r: (Vec<Span>, Style))
    ensures
        span_models(r.0@) == entry_spans(c, name@, is_focused, active),
        r.1 == entry_style(is_focused, active),
{
    let mut spans: Vec<Span> = Vec::new();
    spans.push(show_mark(is_focused));
    spans.push(show_sign(c));
    spans.push(span(name, Style::plain()));
    if active {
        let mut text = String::new();
        text.push(' ');
        text.push('\u{25cf}');
        assert(text@ =~= seq![' ', '\u{25cf}']);
        spans.push(Span { text, style: Style::colored(Color::Yellow) });
    }
    assert(span_models(spans@) =~= entry_spans(c, name@, is_focused, active));
    let style = if is_focused || active {
        Style::colored(Color::White).bold()
    } else {
        Style::colored(Color::DarkGray)
    };
    (spans, style)
}

/// The line of a screen under the room in view: an arrow before the screen in view, and
/// whether it is the chat or a workspace.
pub open spec fn screen_line(i: int, current: nat) -> LineModel {
    let style = if i == current {
        Style::spec_colored(Color::Cyan)
    } else {
        Style::spec_colored(Color::DarkGray)
    };
    LineModel {
        spans: seq![
            spec_span(
                if i == current {
                    seq![' ', ' ', ' ', '\u{25b8}', ' ']
                } else {
                    seq![' ', ' ', ' ', ' ', ' ']
                },
                style,
            ),
            spec_span(
                if i == 0 {
                    seq!['\u{1f4ac}'] + " chat"@
                } else {
                    seq!['\u{1f5a5}', '\u{fe0f}'] + " workspace"@
                },
                style,
            ),
        ],
        style: Style::spec_plain(),
    }
}

fn show_screen(i: usize, current: usize) -> (line: Line)
    ensures
        line@ == screen_line(i as int, current as nat),
{
    let style = if i == current {
        Style::colored(Color::Cyan)
    } else {
        Style::colored(Color::DarkGray)
    };
    let mut prefix = String::new();
    prefix.push(' ');
    prefix.push(' ');
    prefix.push(' ');
    prefix.push(if i == current { '\u{25b8}' } else { ' ' });
    prefix.push(' ');
    assert(prefix@ =~= screen_line(i as int, current as nat).spans[0].text);
    let mut label = String::new();
    if i == 0 {
        label.push('\u{1f4ac}');
        label.append(" chat");
    } else {
        label.push('\u{1f5a5}');
        label.push('\u{fe0f}');
        label.append(" workspace");
    }
    assert(label@ =~= screen_line(i as int, current as nat).spans[1].text);
    let mut spans: Vec<Span> = Vec::new();
    spans.push(Span { text: prefix, style });
    spans.push(Span { text: label, style });
    assert(span_models(spans@) =~= screen_line(i as int, current as nat).spans);
    Line { spans, style: Style::plain() }
}

/// The entry of a room. The room in view shows its screens, if it has more than the chat.
pub open spec fn room_item(room: RoomModel, is_focused: bool) -> ItemModel {
    let active = room.activity() is Active;
    let spans = entry_spans('#', room.name, is_focused, active);
    let style = entry_style(is_focused, active);
    if room.screens.len() > 1 && is_focused {
        ItemModel {
            lines: seq![LineModel { spans, style }] + Seq::new(
                room.screens.len(),
                |i: int| screen_line(i, room.current),
            ),
            style: Style::spec_plain(),
        }
    } else {
        spec_one_line(spans, style)
    }
}

fn show_room(room: &RoomView, is_focused: bool) -> (item: Item)
    ensures
        item@ == room_item(room@, is_focused),
{
    let active = room.activity().is_active();
    let (spans, style) = show_entry('#', room.name.as_str(), is_focused, active);
    let count = room.screen_count();
    if count > 1 && is_focused {
        let current = room.current_screen_index();
        let mut lines: Vec<Line> = Vec::new();
        lines.push(Line { spans, style });
        let ghost first = lines@[0]@;
        let mut i: usize = 0;
        while i < count
            invariant
                i <= count,
                lines@.len() == i + 1,
                lines@[0]@ == first,
                forall|k: int|
                    0 <= k < i ==> (#[trigger] lines@[k + 1])@ == screen_line(k, current as nat),
            decreases count - i,
        {
            lines.push(show_screen(i, current));
            assert(lines@[i + 1]@ == screen_line(i as int, current as nat));
            i = i + 1;
        }
        proof {
            let wanted = room_item(room@, is_focused).lines;
            assert forall|k: int| 0 <= k < lines@.len() implies line_models(lines@)[k] == wanted[k] by {
                if k > 0 {
                    assert(lines@[(k - 1) + 1]@ == screen_line(k - 1, current as nat));
                }
            }
            assert(line_models(lines@) =~= wanted);
        }
        Item { lines, style: Style::plain() }
    } else {
        one_line(spans, style)
    }
}

/// The entries of the rooms among the first `n`; rooms for talking to agents have none.
pub open spec fn room_items<A: HasAgentName>(
    rooms: Seq<RoomModel>,
    agents: Seq<A>,
    focused_room: usize,
    in_channels: bool,
    n: nat,
) -> Seq<ItemModel>
    decreases n,
{
    if n == 0 {
        Seq::empty()
    } else {
        let before = room_items(rooms, agents, focused_room, in_channels, (n - 1) as nat);
        if is_dm(agents, n - 1) {
            before
        } else {
            before.push(room_item(rooms[n - 1], in_channels && n - 1 == focused_room))
        }
    }
}

/// The names of agents.
pub open spec fn agent_names<A: HasAgentName>(agents: Seq<A>) -> Seq<Seq<char>> {
    agents.map_values(|a: A| a.spec_agent_name())
}

/// The entry of an agent.
pub open spec fn agent_item<A: HasAgentName + HasAgentActivity>(
    rooms: Seq<RoomModel>,
    agent: A,
    is_focused: bool,
) -> ItemModel {
    let active = agent.spec_has_activity(rooms);
    spec_one_line(
        entry_spans('@', agent.spec_agent_name(), is_focused, active),
        entry_style(is_focused, active),
    )
}

/// The entries of the agents, by name, with an empty line and a heading before them.
pub open spec fn agent_items<A: HasAgentName + HasAgentActivity>(
    rooms: Seq<RoomModel>,
    agents: Seq<A>,
    focused_agent: Option<usize>,
) -> Seq<ItemModel> {
    if agents.len() == 0 {
        Seq::empty()
    } else {
        seq![spec_one_line(Seq::empty(), Style::spec_plain()), heading(" Agents"@)]
            + listing_of(agent_names(agents)).map_values(
            |i: int| agent_item(rooms, agents[i], focused_agent == Some(i as usize)),
        )
    }
}

/// The list of rooms and agents.
pub open spec fn room_sidebar<A: HasAgentName + HasAgentActivity>(
    rooms: Seq<RoomModel>,
    agents: Seq<A>,
    focused_room: usize,
    focused_agent: Option<usize>,
) -> Seq<ItemModel> {
    seq![divider(), heading(" Channels"@)] + room_items(
        rooms,
        agents,
        focused_room,
        focused_agent is None,
        rooms.len(),
    ) + agent_items(rooms, agents, focused_agent)
}

/// The order in which agents are listed.
pub fn agent_order<A: HasAgentName>(agents: &[A]) -> (order: Vec<usize>)
    ensures
        places(order@) == listing_of(agent_names(agents@)),
        is_listing(agent_names(agents@), places(order@)),
{
    let mut names: Vec<String> = Vec::new();
    let mut i: usize = 0;
    while i < agents.len()
        invariant
            i <= agents@.len(),
            names@.len() == i,
            forall|k: int| 0 <= k < i ==> (#[trigger] names@[k])@ == agents@[k].spec_agent_name(),
        decreases agents@.len() - i,
    {
        names.push(agents[i].agent_name().to_owned());
        i = i + 1;
    }
    assert(texts(names@) =~= agent_names(agents@));
    listing(&names)
}

/// The list of rooms and agents.
pub fn render_room_sidebar<A: HasAgentName + HasAgentActivity>(
    rooms: &[RoomView],
    focused_room: usize,
    agents: &[A],
    focused_agent: Option<usize>,
) -> (r: Vec<Item>)
    ensures
        item_models(r@) == room_sidebar(room_models(rooms@), agents@, focused_room, focused_agent),
{
    let mut r: Vec<Item> = Vec::new();
    r.push(show_divider());
    r.push(show_heading(" Channels"));
    let ghost head = seq![divider(), heading(" Channels"@)];
    assert(item_models(r@) =~= head);
    let in_channels = focused_agent.is_none();
    let mut i: usize = 0;
    assert(head + Seq::<ItemModel>::empty() =~= head);
    while i < rooms.len()
        invariant
            i <= room_models(rooms@).len(),
            in_channels == focused_agent is None,
            item_models(r@) == head + room_items(room_models(rooms@), agents@, focused_room, in_channels, i as nat),
        decreases room_models(rooms@).len() - i,
    {
        let ghost before = item_models(r@);
        let mut dm = false;
        let mut a: usize = 0;
        while a < agents.len()
            invariant
                a <= agents@.len(),
                dm <==> exists|k: int|
                    0 <= k < a && #[trigger] agents@[k].spec_dm_room_idx() == Some(i),
            decreases agents@.len() - a,
        {
            if let Some(idx) = agents[a].dm_room_idx() {
                if idx == i {
                    assert(agents@[a as int].spec_dm_room_idx() == Some(i));
                    dm = true;
                }
            }
            a = a + 1;
        }
        assert(dm == is_dm(agents@, i as int));
        if !dm {
            let item = show_room(&rooms[i], in_channels && i == focused_room);
            let ghost model = item@;
            r.push(item);
            assert(item_models(r@) =~= before.push(model));
            assert(item_models(r@) =~= head + room_items(
                room_models(rooms@),
                agents@,
                focused_room,
                in_channels,
                (i + 1) as nat,
            ));
        }
        i = i + 1;
    }
    let ghost upper = item_models(r@);
    if agents.len() > 0 {
        r.push(one_line(Vec::new(), Style::plain()));
        r.push(show_heading(" Agents"));
        assert(span_models(Seq::<Span>::empty()) =~= Seq::<SpanModel>::empty());
        let ghost lead = seq![spec_one_line(Seq::empty(), Style::spec_plain()), heading(" Agents"@)];
        assert(item_models(r@) =~= upper + lead);
        let order = agent_order(agents);
        let ghost ls = listing_of(agent_names(agents@));
        let ghost n = r@.len();
        let mut k: usize = 0;
        while k < order.len()
            invariant
                k <= order@.len() == ls.len(),
                ls == places(order@),
                is_listing(agent_names(agents@), ls),
                r@.len() == n + k,
                forall|j: int| 0 <= j < n ==> (#[trigger] r@[j])@ == (upper + lead)[j],
                forall|j: int|
                    0 <= j < k ==> (#[trigger] r@[n + j])@ == agent_item(
                        room_models(rooms@),
                        agents@[ls[j]],
                        focused_agent == Some(ls[j] as usize),
                    ),
            decreases order@.len() - k,
        {
            let idx = order[k];
            assert(ls[k as int] == idx && 0 <= ls[k as int] < agents@.len());
            let is_focused = match focused_agent {
                Some(f) => f == idx,
                None => false,
            };
            let active = agents[idx].has_activity(rooms);
            let (spans, style) = show_entry('@', agents[idx].agent_name(), is_focused, active);
            r.push(one_line(spans, style));
            assert(r@[n + k]@ == agent_item(
                room_models(rooms@),
                agents@[ls[k as int]],
                focused_agent == Some(ls[k as int] as usize),
            ));
            k = k + 1;
        }
        proof {
            let lower = agent_items(room_models(rooms@), agents@, focused_agent);
            let wanted = upper + lower;
            assert forall|j: int| 0 <= j < r@.len() implies item_models(r@)[j] == wanted[j] by {
                if j < n {
                    assert(r@[j]@ == (upper + lead)[j]);
                } else {
                    assert(r@[n + (j - n)]@ == agent_item(
                        room_models(rooms@),
                        agents@[ls[j - n]],
                        focused_agent == Some(ls[j - n] as usize),
                    ));
                    assert(lower[j - upper.len()] == agent_item(
                        room_models(rooms@),
                        agents@[ls[j - n]],
                        focused_agent == Some(ls[j - n] as usize),
                    ));
                }
            }
            assert(item_models(r@) =~= wanted);
        }
    } else {
        assert(item_models(r@) =~= upper + agent_items(room_models(rooms@), agents@, focused_agent));
    }
    assert(item_models(r@) =~= room_sidebar(room_models(rooms@), agents@, focused_room, focused_agent));
    r
}

/// The entry of a list that one of its lines belongs to.
pub open spec fn entry_at(items: Seq<ItemModel>, line: int) -> Option<int>
    decreases items.len(),
{
    if items.len() == 0 {
        None
    } else if line < items[0].lines.len() {
        Some(0)
    } else {
        match entry_at(items.drop_first(), line - items[0].lines.len()) {
            Some(k) => Some(k + 1),
            None => None,
        }
    }
}

/// The entry of a list that one of its lines belongs to.
pub fn find_entry(items: &Vec<Item>, line: usize) -> (r: Option<usize>)
    ensures
        match r {
            Some(k) => entry_at(item_models(items@), line as int) == Some(k as int) && k < items@.len(),
            None => entry_at(item_models(items@), line as int) is None,
        },
{
    let ghost all = item_models(items@);
    let mut rest: usize = line;
    let mut k: usize = 0;
    assert(all.skip(0) =~= all);
    while k < items.len()
        invariant
            k <= items@.len(),
            all == item_models(items@),
            entry_at(all, line as int) == match entry_at(all.skip(k as int), rest as int) {
                Some(j) => Some(j + k),
                None => None,
            },
        decreases items@.len() - k,
    {
        assert(all.skip(k as int)[0] == items@[k as int]@);
        assert(all.skip(k as int).drop_first() =~= all.skip(k + 1));
        let height = items[k].lines.len();
        assert(all[k as int].lines.len() == height);
        if rest < height {
            return Some(k);
        }
        rest = rest - height;
        k = k + 1;
    }
    None
}

// ---------------------------------------------------------------------------
// Laws
// ---------------------------------------------------------------------------

/// That a process has exited is shown in place of what is new.
pub proof fn law_exit_goes_before_activity(name: Seq<char>, is_focused: bool, a: ActivityState, b: ActivityState)
    ensures
        channel_item(name, is_focused, PtyStatus::Exited, a) == channel_item(
            name,
            is_focused,
            PtyStatus::Exited,
            b,
        ),
{
}

/// What is pending looks as if nothing had come.
pub proof fn law_pending_is_not_shown(
    name: Seq<char>,
    is_focused: bool,
    status: PtyStatus,
    since: u64,
    snapshot: u64,
    bells: u32,
)
    ensures
        channel_item(name, is_focused, status, ActivityState::Pending { since, snapshot, bells })
            == channel_item(name, is_focused, status, ActivityState::Idle),
{
}

/// Only the room in view shows its screens, one line for each; all other rooms take one
/// line.
pub proof fn law_only_the_room_in_view_unfolds(room: RoomModel)
    ensures
        room_item(room, false).lines.len() == 1,
        room.screens.len() > 1 ==> room_item(room, true).lines.len() == 1 + room.screens.len(),
        room.screens.len() <= 1 ==> room_item(room, true).lines.len() == 1,
{
}

/// While an agent is in view no room is marked.
pub proof fn law_no_room_is_marked_while_an_agent_is<A: HasAgentName>(
    rooms: Seq<RoomModel>,
    agents: Seq<A>,
    focused_room: usize,
    n: nat,
    k: int,
)
    requires
        n <= rooms.len(),
        0 <= k < room_items(rooms, agents, focused_room, false, n).len(),
    ensures
        room_items(rooms, agents, focused_room, false, n)[k].lines.len() == 1,
        room_items(rooms, agents, focused_room, false, n)[k].lines[0].spans[0] == mark(false),
    decreases n,
{
    let before = room_items(rooms, agents, focused_room, false, (n - 1) as nat);
    if k < before.len() {
        law_no_room_is_marked_while_an_agent_is(rooms, agents, focused_room, (n - 1) as nat, k);
    }
}

/// The text of a line, all its stretches together.
pub open spec fn text_of(spans: Seq<SpanModel>) -> Seq<char> {
    spans.map_values(|s: SpanModel| s.text).flatten()
}

proof fn lemma_text_of(a: SpanModel, b: SpanModel, c: SpanModel, rest: Seq<SpanModel>)
    requires
        rest.len() <= 1,
    ensures
        text_of(seq![a, b, c] + rest) == a.text + b.text + c.text + if rest.len() == 1 {
            rest[0].text
        } else {
            Seq::empty()
        },
{
    let all = (seq![a, b, c] + rest).map_values(|s: SpanModel| s.text);
    if rest.len() == 1 {
        assert(all =~= seq![a.text, b.text, c.text, rest[0].text]);
    } else {
        assert(all =~= seq![a.text, b.text, c.text]);
    }
    let t1 = all.drop_first();
    let t2 = t1.drop_first();
    let t3 = t2.drop_first();
    assert(all.first() == a.text && t1.first() == b.text && t2.first() == c.text);
    reveal_with_fuel(Seq::flatten, 5);
    assert(all.flatten() == a.text + (b.text + (c.text + t3.flatten())));
    if rest.len() == 1 {
        assert(t3.first() == rest[0].text);
        assert(t3.drop_first() =~= Seq::<Seq<char>>::empty());
        assert(t3.flatten() =~= rest[0].text);
    } else {
        assert(t3 =~= Seq::<Seq<char>>::empty());
        assert(t3.flatten() =~= Seq::<char>::empty());
    }
    assert(all.flatten() =~= a.text + b.text + c.text + if rest.len() == 1 {
        rest[0].text
    } else {
        Seq::empty()
    });
}

/// The entry of a room shows its name behind a hash sign, a mark before it exactly if the room is in
/// view, and a dot behind it exactly if the room has something new. Only the room in view shows its
/// screens below, one line for each, if it has more than its chat.
pub proof fn law_the_entry_of_a_room(room: RoomModel, is_focused: bool)
    ensures
        ({
            let item = room_item(room, is_focused);
            &&& item.lines.len() == (if is_focused && room.screens.len() > 1 {
                1 + room.screens.len()
            } else {
                1
            })
            &&& text_of(item.lines[0].spans) == (if is_focused {
                seq![' ', '\u{25b8}', ' ']
            } else {
                seq![' ', ' ', ' ']
            }) + seq!['#'] + room.name + if room.activity() is Active {
                seq![' ', '\u{25cf}']
            } else {
                Seq::empty()
            }
        }),
{
    let active = room.activity() is Active;
    lemma_text_of(
        mark(is_focused),
        sign('#'),
        spec_span(room.name, Style::spec_plain()),
        dot(active),
    );
}

/// The lines below the room in view stand for its screens: the first for the chat, the others for
/// its workspaces, and the one that is in view is marked.
pub proof fn law_the_lines_of_screens(room: RoomModel, i: int)
    requires
        room.screens.len() > 1,
        0 <= i < room.screens.len(),
    ensures
        ({
            let spans = room_item(room, true).lines[i + 1].spans;
            &&& spans.len() == 2
            &&& spans[0].text == (if i == room.current {
                seq![' ', ' ', ' ', '\u{25b8}', ' ']
            } else {
                seq![' ', ' ', ' ', ' ', ' ']
            })
            &&& spans[1].text == (if i == 0 {
                seq!['\u{1f4ac}'] + " chat"@
            } else {
                seq!['\u{1f5a5}', '\u{fe0f}'] + " workspace"@
            })
        }),
{
}

/// The entry of an agent shows its name behind an at sign, a mark before it exactly if the agent is
/// in view, and a dot behind it exactly if it has something new.
pub proof fn law_the_entry_of_an_agent<A: HasAgentName + HasAgentActivity>(
    rooms: Seq<RoomModel>,
    agent: A,
    is_focused: bool,
)
    ensures
        ({
            let item = agent_item(rooms, agent, is_focused);
            &&& item.lines.len() == 1
            &&& text_of(item.lines[0].spans) == (if is_focused {
                seq![' ', '\u{25b8}', ' ']
            } else {
                seq![' ', ' ', ' ']
            }) + seq!['@'] + agent.spec_agent_name() + if agent.spec_has_activity(rooms) {
                seq![' ', '\u{25cf}']
            } else {
                Seq::empty()
            }
        }),
{
    let active = agent.spec_has_activity(rooms);
    lemma_text_of(
        mark(is_focused),
        sign('@'),
        spec_span(agent.spec_agent_name(), Style::spec_plain()),
        dot(active),
    );
}

/// The entry of a channel shows its name behind a hash sign, a mark before it exactly if it is in
/// view, and behind it a cross if its command has ended, or else the number of bells if any rang, or
/// a dot if there is something new without a bell.
pub proof fn law_the_entry_of_a_channel(
    name: Seq<char>,
    is_focused: bool,
    status: PtyStatus,
    activity: ActivityState,
)
    ensures
        ({
            let item = channel_item(name, is_focused, status, activity);
            &&& item.lines.len() == 1
            &&& text_of(item.lines[0].spans) == (if is_focused {
                seq![' ', '\u{25b8}', ' ']
            } else {
                seq![' ', ' ', ' ']
            }) + seq!['#'] + name + match (status, activity) {
                (PtyStatus::Exited, _) => seq![' ', '\u{2715}'],
                (PtyStatus::Running, ActivityState::Active(n)) => if n == 0 {
                    seq![' ', '\u{25cf}']
                } else {
                    seq![' ', '\u{25c6}', ' '] + decimal(n as nat)
                },
                _ => Seq::empty(),
            }
        }),
{
    lemma_text_of(
        mark(is_focused),
        sign('#'),
        spec_span(name, Style::spec_plain()),
        channel_note(status, activity),
    );
}

/// What stands out in the lists: what is in view and what has something new is white and bold, a
/// command that has ended is red, and the rest is grey.
pub proof fn law_what_stands_out(name: Seq<char>, activity: ActivityState)
    ensures
        entry_style(true, false).fg == Some(Color::White) && entry_style(true, false).bold,
        entry_style(false, true).fg == Some(Color::White) && entry_style(false, true).bold,
        entry_style(false, false).fg == Some(Color::DarkGray) && !entry_style(false, false).bold,
        channel_item(name, true, PtyStatus::Exited, activity).style.fg == Some(Color::White),
        channel_item(name, false, PtyStatus::Exited, activity).style.fg == Some(Color::Red),
        channel_item(name, false, PtyStatus::Running, activity).style.fg == Some(
            if activity is Active {
                Color::White
            } else {
                Color::DarkGray
            },
        ),
{
}

proof fn lemma_rooms_listed_before<A: HasAgentName>(
    rooms: Seq<RoomModel>,
    room: RoomModel,
    agents: Seq<A>,
    focused_room: usize,
    in_channels: bool,
    n: nat,
)
    requires
        n <= rooms.len(),
    ensures
        room_items(rooms.push(room), agents, focused_room, in_channels, n) == room_items(
            rooms,
            agents,
            focused_room,
            in_channels,
            n,
        ),
    decreases n,
{
    if n > 0 {
        lemma_rooms_listed_before(rooms, room, agents, focused_room, in_channels, (n - 1) as nat);
    }
}

/// Which rooms are listed: none where there are none, and each room more at the end, unless it is
/// one for talking to an agent. It is marked exactly if no agent is in view and the room is.
pub proof fn law_which_rooms_are_listed<A: HasAgentName>(
    rooms: Seq<RoomModel>,
    room: RoomModel,
    agents: Seq<A>,
    focused_room: usize,
    in_channels: bool,
)
    ensures
        ({
            let i = rooms.len() as int;
            let talk = exists|g: int|
                0 <= g < agents.len() && #[trigger] agents[g].spec_dm_room_idx() == Some(i as usize);
            let before = room_items(rooms, agents, focused_room, in_channels, rooms.len());
            let after = room_items(rooms.push(room), agents, focused_room, in_channels, rooms.len() + 1);
            &&& room_items(Seq::empty(), agents, focused_room, in_channels, 0).len() == 0
            &&& talk ==> after == before
            &&& !talk ==> after == before.push(room_item(room, in_channels && focused_room == i))
        }),
{
    lemma_rooms_listed_before(rooms, room, agents, focused_room, in_channels, rooms.len());
}

/// Which agents are listed: all of them, by name, each once, behind an empty line and a heading; the
/// one in view is marked. Without agents there is no heading.
pub proof fn law_which_agents_are_listed<A: HasAgentName + HasAgentActivity>(
    rooms: Seq<RoomModel>,
    agents: Seq<A>,
    focused_agent: Option<usize>,
    k: int,
)
    requires
        agents.len() <= usize::MAX,
        0 <= k < agents.len(),
    ensures
        agent_items(rooms, Seq::<A>::empty(), focused_agent).len() == 0,
        ({
            let items = agent_items(rooms, agents, focused_agent);
            let g = listing_of(agent_names(agents))[k];
            &&& items.len() == agents.len() + 2
            &&& items[0].lines.len() == 1 && items[0].lines[0].spans.len() == 0
            &&& items[1].lines[0].spans.len() == 1 && items[1].lines[0].spans[0].text == " Agents"@
            &&& is_listing(agent_names(agents), listing_of(agent_names(agents)))
            &&& 0 <= g < agents.len()
            &&& items[k + 2] == agent_item(rooms, agents[g], focused_agent == Some(g as usize))
        }),
        agent_names(agents).len() == agents.len(),
        agent_names(agents)[k] == agents[k].spec_agent_name(),
{
    crate::text::lemma_listing_exists(agent_names(agents));
}

/// The list at the side: a line and a heading, the rooms, and behind them the agents. A room is
/// marked only where no agent is in view.
pub proof fn law_the_list_at_the_side<A: HasAgentName + HasAgentActivity>(
    rooms: Seq<RoomModel>,
    agents: Seq<A>,
    focused_room: usize,
    focused_agent: Option<usize>,
)
    ensures
        ({
            let items = room_sidebar(rooms, agents, focused_room, focused_agent);
            let listed = room_items(rooms, agents, focused_room, focused_agent is None, rooms.len());
            &&& items.len() == 2 + listed.len() + agent_items(rooms, agents, focused_agent).len()
            &&& items[0].lines.len() == 1 && items[1].lines.len() == 1
            &&& items[1].lines[0].spans[0].text == " Channels"@
            &&& items.subrange(2, 2 + listed.len() as int) == listed
            &&& items.skip(2 + listed.len() as int) == agent_items(rooms, agents, focused_agent)
        }),
{
    let items = room_sidebar(rooms, agents, focused_room, focused_agent);
    let listed = room_items(rooms, agents, focused_room, focused_agent is None, rooms.len());
    assert(items.subrange(2, 2 + listed.len() as int) =~= listed);
    assert(items.skip(2 + listed.len() as int) =~= agent_items(rooms, agents, focused_agent));
}

/// A line of a list belongs to the entry that it is one of the lines of: those of the first entry to
/// the first, and those behind them to what follows.
pub proof fn law_lines_belong_to_entries(items: Seq<ItemModel>, line: int)
    requires
        items.len() > 0,
        0 <= line,
    ensures
        entry_at(Seq::<ItemModel>::empty(), line) is None,
        line < items[0].lines.len() ==> entry_at(items, line) == Some(0int),
        line >= items[0].lines.len() ==> entry_at(items, line) == match entry_at(
            items.skip(1),
            line - items[0].lines.len(),
        ) {
            Some(k) => Some(k + 1),
            None => None,
        },
{
    assert(items.skip(1) =~= items.drop_first());
}

/// The rooms on the server stand behind the channels under a heading, by their names, if there are
/// any.
pub proof fn law_rooms_on_the_server_are_listed(rooms: Seq<(String, String)>, i: int)
    requires
        0 <= i < rooms.len(),
    ensures
        server_room_items(Seq::empty()).len() == 0,
        server_room_items(rooms).len() == rooms.len() + 1,
        server_room_items(rooms)[i + 1].lines.len() == 1,
        server_room_items(rooms)[i + 1].lines[0].spans.last().text == rooms[i].1@,
        server_room_items(rooms)[0].lines[0].spans[0].text == seq!['\u{2500}', '\u{2500}', '\u{2500}']
            + " Rooms "@ + seq!['\u{2500}', '\u{2500}', '\u{2500}'],
{
}

/// Headings say what they are given, and the line at the top is nineteen strokes wide.
pub proof fn law_headings_and_lines(text: Seq<char>)
    ensures
        heading(text).lines.len() == 1 && heading(text).lines[0].spans.len() == 1,
        heading(text).lines[0].spans[0].text == text,
        divider().lines.len() == 1 && divider().lines[0].spans.len() == 1,
        divider().lines[0].spans[0].text == seq![' '] + Seq::new(19, |i: int| '\u{2500}'),
{
    assert(divider().lines[0].spans[0].text =~= seq![' '] + Seq::new(19, |i: int| '\u{2500}'));
}

} // verus!
