//! A room: its chat, and the terminals that are open in it.
//!
//! The first screen is the chat, the others are terminals.

use vstd::prelude::*;
use vstd::string::*;

use crate::chaperone_channel::{ChannelModel, ChaperoneChannel};
use crate::chat_view::{ChatModel, ChatState};
use crate::clock::text_model;
use crate::emulator::size_ok;
use crate::picker::HasNameActivity;
use crate::protocol::{ClientMessage, ClientMessageModel, DaemonMessage, DaemonMessageModel};
use crate::pty::{ActivityState, PtyModel, PtyStatus, RESIZE_COOLDOWN};
use crate::wire::{row_models, Wire};

verus! {

/// A screen of a room.
pub enum Screen {
    /// The chat.
    Chat(ChatState),
    /// A terminal.
    Pty(ChaperoneChannel),
}

/// A screen, as a value.
pub enum ScreenModel {
    Chat(ChatModel),
    Pty(ChannelModel),
}

impl View for Screen {
    type V = ScreenModel;

    open spec fn view(&self) -> ScreenModel {
        match self {
            Screen::Chat(state) => ScreenModel::Chat(state@),
            Screen::Pty(channel) => ScreenModel::Pty(channel@),
        }
    }
}

impl ScreenModel {
    /// What every screen keeps.
    pub open spec fn wf(self) -> bool {
        match self {
            ScreenModel::Chat(_) => true,
            ScreenModel::Pty(channel) => channel.wf(),
        }
    }

    /// Whether the screen has something new to show.
    pub open spec fn activity(self) -> ActivityState {
        match self {
            ScreenModel::Chat(chat) => if chat.has_unread {
                ActivityState::Active(0)
            } else {
                ActivityState::Idle
            },
            ScreenModel::Pty(channel) => channel.pty.activity,
        }
    }

    /// The screen once what was new has been seen.
    pub open spec fn seen(self) -> ScreenModel {
        match self {
            ScreenModel::Chat(chat) => ScreenModel::Chat(ChatModel { has_unread: false, ..chat }),
            ScreenModel::Pty(channel) => ScreenModel::Pty(
                ChannelModel {
                    pty: PtyModel { activity: ActivityState::Idle, ..channel.pty },
                    ..channel
                },
            ),
        }
    }

    /// The screen without its connection.
    pub open spec fn without_connection(self) -> ScreenModel {
        match self {
            ScreenModel::Chat(chat) => self,
            ScreenModel::Pty(channel) => ScreenModel::Pty(channel.without_connection()),
        }
    }

    /// The screen once its connection is made.
    pub open spec fn with_connection(self) -> ScreenModel {
        match self {
            ScreenModel::Chat(chat) => self,
            ScreenModel::Pty(channel) => ScreenModel::Pty(channel.with_connection()),
        }
    }

    /// The screen after a change of size.
    pub open spec fn resized(self, rows: u16, cols: u16, now: u64) -> ScreenModel {
        match self {
            ScreenModel::Chat(chat) => self,
            ScreenModel::Pty(channel) => ScreenModel::Pty(channel.resized(rows, cols, now)),
        }
    }

    /// The screen after messages.
    pub open spec fn after_messages(self, msgs: Seq<DaemonMessageModel>, is_focused: bool, now: u64) -> ScreenModel {
        match self {
            ScreenModel::Chat(chat) => self,
            ScreenModel::Pty(channel) => ScreenModel::Pty(channel.after_messages(msgs, is_focused, now)),
        }
    }

    /// Whether the bells in the messages can be counted.
    pub open spec fn can_count(self, msgs: Seq<DaemonMessageModel>, is_focused: bool, now: u64) -> bool {
        match self {
            ScreenModel::Chat(chat) => true,
            ScreenModel::Pty(channel) => channel.can_count(msgs, is_focused, now),
        }
    }

    /// Whether the screen is a terminal whose command has ended, with a directory to open a
    /// shell in, in whose place none was asked for yet.
    pub open spec fn wants_shell(self) -> bool {
        self matches ScreenModel::Pty(channel) && channel.pty.status is Exited && channel.cwd is Some
            && !channel.replaced
    }

    /// The screen once a shell was asked for in its place.
    pub open spec fn replaced(self) -> ScreenModel {
        match self {
            ScreenModel::Chat(chat) => self,
            ScreenModel::Pty(channel) => ScreenModel::Pty(ChannelModel { replaced: true, ..channel }),
        }
    }

    /// Whether the screen is a terminal that waits for its connection.
    pub open spec fn wants_connection(self) -> bool {
        self matches ScreenModel::Pty(channel) && !channel.connected
    }
}

impl Screen {
    /// An empty chat.
    pub fn chat() -> (s: Screen)
        ensures
            s@ == ScreenModel::Chat(ChatModel::empty()),
    {
        Screen::Chat(ChatState::new())
    }

    /// A terminal.
    pub fn pty(channel: ChaperoneChannel) -> (s: Screen)
        ensures
            s@ == ScreenModel::Pty(channel@),
    {
        Screen::Pty(channel)
    }

    /// Whether the screen has something new to show.
    pub fn activity(&self) -> (a: ActivityState)
        ensures
            a == self@.activity(),
    {
        match self {
            Screen::Chat(state) => {
                if state.has_unread {
                    ActivityState::Active(0)
                } else {
                    ActivityState::Idle
                }
            },
            Screen::Pty(channel) => *channel.activity(),
        }
    }

    /// Whether the screen is the chat.
    pub fn is_chat(&self) -> (r: bool)
        ensures
            r == (self@ is Chat),
    {
        matches!(self, Screen::Chat(_))
    }

    /// The terminal, if the screen is one.
    pub fn as_pty(&self) -> (r: Option<&ChaperoneChannel>)
        ensures
            r is Some <==> self@ is Pty,
            r matches Some(c) ==> self@ == ScreenModel::Pty(c@),
    {
        match self {
            Screen::Pty(channel) => Some(channel),
            _ => None,
        }
    }

    /// The terminal, if the screen is one, to be changed.
    pub fn as_pty_mut(&mut self) -> (r: Option<&mut ChaperoneChannel>)
        ensures
            r is Some <==> old(self)@ is Pty,
            match r {
                Some(c) => old(self)@ == ScreenModel::Pty(c@) && final(self)@ == ScreenModel::Pty(final(c)@),
                None => final(self)@ == old(self)@,
            },
    {
        match self {
            Screen::Pty(channel) => Some(channel),
            _ => None,
        }
    }

    /// The chat, if the screen is it.
    pub fn as_chat(&self) -> (r: Option<&ChatState>)
        ensures
            r is Some <==> self@ is Chat,
            r matches Some(c) ==> self@ == ScreenModel::Chat(c@),
    {
        match self {
            Screen::Chat(state) => Some(state),
            _ => None,
        }
    }

    /// The chat, if the screen is it, to be changed.
    pub fn as_chat_mut(&mut self) -> (r: Option<&mut ChatState>)
        ensures
            r is Some <==> old(self)@ is Chat,
            match r {
                Some(c) => old(self)@ == ScreenModel::Chat(c@) && final(self)@ == ScreenModel::Chat(
                    final(c)@,
                ),
                None => final(self)@ == old(self)@,
            },
    {
        match self {
            Screen::Chat(state) => Some(state),
            _ => None,
        }
    }

    /// Notes that what was new has been seen.
    fn see(&mut self)
        ensures
            final(self)@ == old(self)@.seen(),
    {
        match self {
            Screen::Pty(channel) => {
                channel.clear_activity();
            },
            Screen::Chat(state) => {
                state.has_unread = false;
            },
        }
    }

    /// The directory to open a shell in, in place of a terminal whose command has ended; notes
    /// that it was given.
    fn take_cwd(&mut self) -> (r: Option<String>)
        ensures
            r is Some <==> old(self)@.wants_shell(),
            r is Some ==> text_model(r) == old(self)@->Pty_0.cwd && final(self)@ == old(
                self,
            )@.replaced(),
            r is None ==> final(self)@ == old(self)@,
    {
        match self {
            Screen::Pty(channel) => {
                let ended = matches!(channel.pty.status, PtyStatus::Exited);
                if !ended || channel.replaced || channel.cwd.is_none() {
                    None
                } else {
                    channel.replaced = true;
                    channel.cwd.clone()
                }
            },
            Screen::Chat(_) => None,
        }
    }

    /// Notes that the connection, if there was one, is gone.
    fn disconnect(&mut self)
        ensures
            final(self)@ == old(self)@.without_connection(),
    {
        match self {
            Screen::Pty(channel) => {
                channel.disconnect();
            },
            Screen::Chat(_) => {},
        }
    }

    /// Notes that the connection has been made; returns what to send over it first.
    fn connect(&mut self) -> (first: Option<ClientMessage>)
        ensures
            final(self)@ == old(self)@.with_connection(),
            first.model() == first_message(old(self)@),
    {
        match self {
            Screen::Pty(channel) => channel.connect(),
            Screen::Chat(_) => None,
        }
    }

    /// Changes the size; returns what to send.
    fn resize(&mut self, rows: u16, cols: u16, now: u64) -> (msg: Option<ClientMessage>)
        requires
            old(self)@.wf(),
            size_ok(rows, cols),
            now + RESIZE_COOLDOWN <= u64::MAX,
        ensures
            final(self)@ == old(self)@.resized(rows, cols, now),
            final(self)@.wf(),
            msg.model() == resize_message(old(self)@, rows, cols),
    {
        match self {
            Screen::Pty(channel) => channel.resize(rows, cols, now),
            Screen::Chat(_) => None,
        }
    }

    /// Takes in messages.
    fn process_pending(&mut self, messages: &Vec<DaemonMessage>, is_focused: bool, now: u64)
        requires
            old(self)@.wf(),
            old(self)@.can_count(row_models(messages@), is_focused, now),
        ensures
            final(self)@ == old(self)@.after_messages(row_models(messages@), is_focused, now),
            final(self)@.wf(),
    {
        match self {
            Screen::Pty(channel) => {
                channel.process_pending(messages, is_focused, now);
            },
            Screen::Chat(_) => {},
        }
    }
}

/// The first screen in whose place a shell is to be opened.
pub open spec fn first_ended(screens: Seq<ScreenModel>) -> Option<int>
    decreases screens.len(),
{
    if screens.len() == 0 {
        None
    } else {
        match first_ended(screens.drop_last()) {
            Some(i) => Some(i),
            None => if screens.last().wants_shell() {
                Some(screens.len() - 1)
            } else {
                None
            },
        }
    }
}

/// The screen found wants a shell, and none before it does.
pub proof fn lemma_first_ended(screens: Seq<ScreenModel>)
    ensures
        match first_ended(screens) {
            Some(i) => 0 <= i < screens.len() && screens[i].wants_shell() && forall|k: int|
                0 <= k < i ==> !(#[trigger] screens[k]).wants_shell(),
            None => forall|k: int| 0 <= k < screens.len() ==> !(#[trigger] screens[k]).wants_shell(),
        },
    decreases screens.len(),
{
    if screens.len() > 0 {
        let before = screens.drop_last();
        lemma_first_ended(before);
        assert forall|k: int| 0 <= k < before.len() implies screens[k] == #[trigger] before[k] by {}
        match first_ended(before) {
            Some(i) => {
                assert(screens[i] == before[i]);
                assert forall|k: int| 0 <= k < i implies !(#[trigger] screens[k]).wants_shell() by {
                    assert(!before[k].wants_shell());
                }
            },
            None => {
                assert forall|k: int| 0 <= k < before.len() implies !(#[trigger] screens[k]).wants_shell() by {
                    assert(!before[k].wants_shell());
                }
            },
        }
    }
}

proof fn lemma_ended_stays(screens: Seq<ScreenModel>, n: int)
    requires
        0 <= n <= screens.len(),
        first_ended(screens.take(n)) is Some,
    ensures
        first_ended(screens) == first_ended(screens.take(n)),
    decreases screens.len() - n,
{
    if n < screens.len() {
        assert(screens.take(n + 1).drop_last() =~= screens.take(n));
        lemma_ended_stays(screens, n + 1);
    } else {
        assert(screens.take(n) =~= screens);
    }
}

/// What a screen says first over a connection that was just made.
pub open spec fn first_message(s: ScreenModel) -> Option<ClientMessageModel> {
    match s {
        ScreenModel::Pty(channel) => if channel.connected {
            None
        } else {
            Some(
                ClientMessageModel::Resize {
                    pty_id: 0,
                    rows: channel.rows as nat,
                    cols: channel.cols as nat,
                },
            )
        },
        ScreenModel::Chat(_) => None,
    }
}

/// What a screen says when its size changes.
pub open spec fn resize_message(s: ScreenModel, rows: u16, cols: u16) -> Option<ClientMessageModel> {
    if s matches ScreenModel::Pty(channel) && channel.connected {
        Some(ClientMessageModel::Resize { pty_id: 0, rows: rows as nat, cols: cols as nat })
    } else {
        None
    }
}

/// A room.
pub struct RoomView {
    /// Its name on the chat server.
    pub room_id: String,
    /// The name it is shown under.
    pub name: String,
    /// The screen in view.
    pub current_screen: usize,
    /// Its screens.
    pub screens: Vec<Screen>,
}

/// A room, as a value.
#[verifier::ext_equal]
pub struct RoomModel {
    pub room_id: Seq<char>,
    pub name: Seq<char>,
    pub current: nat,
    pub screens: Seq<ScreenModel>,
}

/// Screens, as values.
pub open spec fn screen_models(v: Seq<Screen>) -> Seq<ScreenModel> {
    Seq::new(v.len(), |i: int| v[i]@)
}

impl View for RoomView {
    type V = RoomModel;

    open spec fn view(&self) -> RoomModel {
        RoomModel {
            room_id: self.room_id@,
            name: self.name@,
            current: self.current_screen as nat,
            screens: screen_models(self.screens@),
        }
    }
}

impl RoomModel {
    /// What every room keeps: the first screen is the chat and the others are terminals,
    /// and one of them is in view.
    pub open spec fn wf(self) -> bool {
        &&& self.current < self.screens.len()
        &&& self.screens[0] is Chat
        &&& forall|i: int| 0 < i < self.screens.len() ==> #[trigger] self.screens[i] is Pty
        &&& forall|i: int| 0 <= i < self.screens.len() ==> (#[trigger] self.screens[i]).wf()
    }

    /// A room with nothing but its chat.
    pub open spec fn chat_only(room_id: Seq<char>, name: Seq<char>) -> RoomModel {
        RoomModel { room_id, name, current: 0, screens: seq![ScreenModel::Chat(ChatModel::empty())] }
    }

    /// The screen in view.
    pub open spec fn shown(self) -> ScreenModel {
        self.screens[self.current as int]
    }

    /// The room with the screen before in view.
    pub open spec fn prev(self) -> RoomModel {
        if self.current > 0 {
            RoomModel { current: (self.current - 1) as nat, ..self }
        } else {
            self
        }
    }

    /// The room with the screen after in view.
    pub open spec fn next(self) -> RoomModel {
        if self.current + 1 < self.screens.len() {
            RoomModel { current: self.current + 1, ..self }
        } else {
            self
        }
    }

    /// The room with one terminal more.
    pub open spec fn with_terminal(self, channel: ChannelModel, switch_to: bool) -> RoomModel {
        RoomModel {
            screens: self.screens.push(ScreenModel::Pty(channel)),
            current: if switch_to {
                self.screens.len()
            } else {
                self.current
            },
            ..self
        }
    }

    /// The room with one screen changed.
    pub open spec fn with_screen(self, i: int, s: ScreenModel) -> RoomModel {
        RoomModel { screens: self.screens.update(i, s), ..self }
    }

    /// The room once what was new on the screen in view has been seen.
    pub open spec fn seen(self) -> RoomModel {
        self.with_screen(self.current as int, self.shown().seen())
    }

    /// The directory of the first terminal in whose place a shell is to be opened.
    pub open spec fn respawn_cwd(self) -> Option<Seq<char>> {
        match first_ended(self.screens) {
            Some(i) => self.screens[i]->Pty_0.cwd,
            None => None,
        }
    }

    /// The room once that shell was asked for.
    pub open spec fn respawned(self) -> RoomModel {
        match first_ended(self.screens) {
            Some(i) => self.with_screen(i, self.screens[i].replaced()),
            None => self,
        }
    }

    /// The room with all its terminals disconnected.
    pub open spec fn all_disconnected(self) -> RoomModel {
        RoomModel {
            screens: self.screens.map_values(|s: ScreenModel| s.without_connection()),
            ..self
        }
    }

    /// The room once the connection of one of its screens is made.
    pub open spec fn connected(self, i: int) -> RoomModel {
        self.with_screen(i, self.screens[i].with_connection())
    }

    /// The room after a change of size.
    pub open spec fn resized(self, rows: u16, cols: u16, now: u64) -> RoomModel {
        RoomModel {
            screens: self.screens.map_values(|s: ScreenModel| s.resized(rows, cols, now)),
            ..self
        }
    }

    /// The room after messages for its screens. Someone looks at a screen if it is in view
    /// and the room is.
    pub open spec fn after_messages(
        self,
        pending: Seq<Seq<DaemonMessageModel>>,
        is_focused_room: bool,
        now: u64,
    ) -> RoomModel {
        RoomModel {
            screens: Seq::new(
                self.screens.len(),
                |i: int|
                    self.screens[i].after_messages(pending[i], is_focused_room && i == self.current, now),
            ),
            ..self
        }
    }

    /// Whether the bells in the messages can be counted.
    pub open spec fn can_count(
        self,
        pending: Seq<Seq<DaemonMessageModel>>,
        is_focused_room: bool,
        now: u64,
    ) -> bool {
        &&& pending.len() == self.screens.len()
        &&& forall|i: int|
            0 <= i < self.screens.len() ==> (#[trigger] self.screens[i]).can_count(
                pending[i],
                is_focused_room && i == self.current,
                now,
            )
    }

    /// Whether a screen has something new for sure.
    pub open spec fn has_activity(self) -> bool {
        exists|i: int| 0 <= i < self.screens.len() && (#[trigger] self.screens[i]).activity() is Active
    }

    /// Whether the room has something new to show: just if one of its screens has. The
    /// bells of those screens add up.
    pub open spec fn activity(self) -> ActivityState {
        if self.has_activity() {
            ActivityState::Active(
                if active_bells(self.screens) <= u32::MAX {
                    active_bells(self.screens) as u32
                } else {
                    u32::MAX
                },
            )
        } else {
            ActivityState::Idle
        }
    }
}

/// The bells of the screens that have something new.
pub open spec fn active_bells(screens: Seq<ScreenModel>) -> nat
    decreases screens.len(),
{
    if screens.len() == 0 {
        0
    } else {
        active_bells(screens.drop_last()) + match screens.last().activity() {
            ActivityState::Active(n) => n as nat,
            _ => 0,
        }
    }
}

/// Rooms, as values.
pub open spec fn room_models(v: Seq<RoomView>) -> Seq<RoomModel> {
    Seq::new(v.len(), |i: int| v[i]@)
}

/// Messages for screens, as values.
pub open spec fn pending_models(v: Seq<Vec<DaemonMessage>>) -> Seq<Seq<DaemonMessageModel>> {
    Seq::new(v.len(), |i: int| row_models(v[i]@))
}

impl RoomView {
    /// A room with nothing but its chat.
    pub fn new(room_id: String, name: String) -> (r: RoomView)
        ensures
            r@ == RoomModel::chat_only(room_id@, name@),
            r@.wf(),
    {
        let mut screens: Vec<Screen> = Vec::new();
        screens.push(Screen::chat());
        assert(screen_models(screens@) =~= seq![ScreenModel::Chat(ChatModel::empty())]);
        RoomView { room_id, name, current_screen: 0, screens }
    }

    /// A room with a terminal, which is in view.
    pub fn with_pty(room_id: String, name: String, channel: ChaperoneChannel) -> (r: RoomView)
        requires
            channel@.wf(),
        ensures
            r@ == RoomModel::chat_only(room_id@, name@).with_terminal(channel@, true),
            r@.wf(),
    {
        let mut r = RoomView::new(room_id, name);
        r.add_pty(channel, true);
        r
    }

    /// The place of the screen in view.
    pub fn current_screen_index(&self) -> (i: usize)
        ensures
            i == self@.current,
    {
        self.current_screen
    }

    /// How many screens there are.
    pub fn screen_count(&self) -> (n: usize)
        ensures
            n == self@.screens.len(),
    {
        self.screens.len()
    }

    /// The screen in view.
    pub fn current_screen(&self) -> (s: &Screen)
        requires
            self@.wf(),
        ensures
            s@ == self@.shown(),
    {
        &self.screens[self.current_screen]
    }

    /// The screen in view, to be changed.
    pub fn current_screen_mut(&mut self) -> (s: &mut Screen)
        requires
            old(self)@.wf(),
        ensures
            s@ == old(self)@.shown(),
            final(self)@ == old(self)@.with_screen(old(self)@.current as int, final(s)@),
    {
        let i = self.current_screen;
        let s = &mut self.screens[i];
        proof {
            assert(screen_models(old(self).screens@.update(i as int, *final(s))) =~= screen_models(
                old(self).screens@,
            ).update(i as int, final(s)@));
        }
        s
    }

    /// Brings the screen before into view, if there is one.
    pub fn prev_screen(&mut self)
        ensures
            final(self)@ == old(self)@.prev(),
            old(self)@.wf() ==> final(self)@.wf(),
    {
        if self.current_screen > 0 {
            self.current_screen = self.current_screen - 1;
        }
    }

    /// Brings the screen after into view, if there is one.
    pub fn next_screen(&mut self)
        requires
            old(self)@.wf(),
        ensures
            final(self)@ == old(self)@.next(),
            final(self)@.wf(),
    {
        if self.current_screen < self.screens.len() - 1 {
            self.current_screen = self.current_screen + 1;
        }
    }

    /// Adds a terminal, and brings it into view if that is wanted.
    pub fn add_pty(&mut self, channel: ChaperoneChannel, switch_to: bool)
        requires
            old(self)@.wf(),
            channel@.wf(),
        ensures
            final(self)@ == old(self)@.with_terminal(channel@, switch_to),
            final(self)@.wf(),
    {
        let ghost before = self.screens@;
        self.screens.push(Screen::pty(channel));
        if switch_to {
            self.current_screen = self.screens.len() - 1;
        }
        assert(screen_models(self.screens@) =~= screen_models(before).push(ScreenModel::Pty(channel@)));
    }

    /// The terminals.
    pub fn ptys(&self) -> (r: Vec<&ChaperoneChannel>)
        requires
            self@.wf(),
        ensures
            r@.len() == self@.screens.len() - 1,
            forall|i: int|
                0 <= i < r@.len() ==> self@.screens[i + 1] == ScreenModel::Pty((#[trigger] r@[i])@),
    {
        let mut r: Vec<&ChaperoneChannel> = Vec::new();
        let mut i: usize = 1;
        while i < self.screens.len()
            invariant
                self@.wf(),
                1 <= i <= self.screens@.len(),
                r@.len() == i - 1,
                forall|k: int|
                    0 <= k < r@.len() ==> self@.screens[k + 1] == ScreenModel::Pty((#[trigger] r@[k])@),
            decreases self.screens@.len() - i,
        {
            assert(self@.screens[i as int] is Pty);
            if let Screen::Pty(channel) = &self.screens[i] {
                r.push(channel);
            }
            i = i + 1;
        }
        r
    }

    /// Whether the chat is in view.
    pub fn on_chat(&self) -> (r: bool)
        ensures
            r == (self@.current == 0),
            self@.wf() ==> r == (self@.shown() is Chat),
    {
        self.current_screen == 0
    }

    /// Whether a terminal is in view.
    pub fn on_pty(&self) -> (r: bool)
        ensures
            r == (self@.current > 0),
            self@.wf() ==> r == (self@.shown() is Pty),
    {
        self.current_screen > 0
    }

    /// The terminal in view, if one is.
    pub fn current_pty(&self) -> (r: Option<&ChaperoneChannel>)
        requires
            self@.wf(),
        ensures
            r is Some <==> self@.shown() is Pty,
            r matches Some(c) ==> self@.shown() == ScreenModel::Pty(c@),
    {
        self.current_screen().as_pty()
    }

    /// The terminal in view, if one is, to be changed.
    pub fn current_pty_mut(&mut self) -> (r: Option<&mut ChaperoneChannel>)
        requires
            old(self)@.wf(),
        ensures
            r is Some <==> old(self)@.shown() is Pty,
            match r {
                Some(c) => {
                    &&& old(self)@.shown() == ScreenModel::Pty(c@)
                    &&& final(self)@ == old(self)@.with_screen(
                        old(self)@.current as int,
                        ScreenModel::Pty(final(c)@),
                    )
                },
                None => final(self)@ == old(self)@,
            },
    {
        proof {
            assert(old(self)@.with_screen(old(self)@.current as int, old(self)@.shown()) =~= old(self)@);
        }
        self.current_screen_mut().as_pty_mut()
    }

    /// The chat.
    pub fn chat_state(&self) -> (r: Option<&ChatState>)
        requires
            self@.wf(),
        ensures
            r is Some,
            self@.screens[0] == ScreenModel::Chat(r->0@),
    {
        self.screens[0].as_chat()
    }

    /// The chat, to be changed.
    pub fn chat_state_mut(&mut self) -> (r: Option<&mut ChatState>)
        requires
            old(self)@.wf(),
        ensures
            r is Some,
            old(self)@.screens[0] == ScreenModel::Chat(r->0@),
            final(self)@ == old(self)@.with_screen(0, ScreenModel::Chat(final(r->0)@)),
    {
        let s = &mut self.screens[0];
        proof {
            assert(screen_models(old(self).screens@.update(0, *final(s))) =~= screen_models(
                old(self).screens@,
            ).update(0, final(s)@));
        }
        s.as_chat_mut()
    }

    /// The chat, if it is in view.
    pub fn current_chat(&self) -> (r: Option<&ChatState>)
        requires
            self@.wf(),
        ensures
            r is Some <==> self@.shown() is Chat,
            r matches Some(c) ==> self@.shown() == ScreenModel::Chat(c@),
    {
        self.current_screen().as_chat()
    }

    /// The chat, if it is in view, to be changed.
    pub fn current_chat_mut(&mut self) -> (r: Option<&mut ChatState>)
        requires
            old(self)@.wf(),
        ensures
            r is Some <==> old(self)@.shown() is Chat,
            match r {
                Some(c) => {
                    &&& old(self)@.shown() == ScreenModel::Chat(c@)
                    &&& final(self)@ == old(self)@.with_screen(
                        old(self)@.current as int,
                        ScreenModel::Chat(final(c)@),
                    )
                },
                None => final(self)@ == old(self)@,
            },
    {
        proof {
            assert(old(self)@.with_screen(old(self)@.current as int, old(self)@.shown()) =~= old(self)@);
        }
        self.current_screen_mut().as_chat_mut()
    }

    /// Whether the room has something new to show.
    pub fn activity(&self) -> (a: ActivityState)
        ensures
            a == self@.activity(),
    {
        let mut any = false;
        let mut bells: u32 = 0;
        let mut i: usize = 0;
        let ghost all = self@.screens;
        assert(all.take(0) =~= Seq::<ScreenModel>::empty());
        while i < self.screens.len()
            invariant
                i <= self.screens@.len(),
                all == self@.screens,
                any <==> exists|k: int| 0 <= k < i && (#[trigger] all[k]).activity() is Active,
                bells == if active_bells(all.take(i as int)) <= u32::MAX {
                    active_bells(all.take(i as int)) as u32
                } else {
                    u32::MAX
                },
            decreases self.screens@.len() - i,
        {
            assert(all.take(i + 1).drop_last() =~= all.take(i as int));
            assert(all.take(i + 1).last() == self.screens@[i as int]@);
            assert(all[i as int] == self.screens@[i as int]@);
            if let ActivityState::Active(n) = self.screens[i].activity() {
                any = true;
                bells = bells.saturating_add(n);
            }
            i = i + 1;
        }
        assert(all.take(all.len() as int) =~= all);
        if any {
            ActivityState::Active(bells)
        } else {
            ActivityState::Idle
        }
    }

    /// Takes in messages for the screens.
    pub fn process_pending(&mut self, pending: &Vec<Vec<DaemonMessage>>, is_focused_room: bool, now: u64)
        requires
            old(self)@.wf(),
            old(self)@.can_count(pending_models(pending@), is_focused_room, now),
        ensures
            final(self)@ == old(self)@.after_messages(pending_models(pending@), is_focused_room, now),
            final(self)@.wf(),
    {
        let ghost start = self@;
        let ghost after = start.after_messages(pending_models(pending@), is_focused_room, now);
        let mut i: usize = 0;
        while i < self.screens.len()
            invariant
                i <= self.screens@.len() == start.screens.len(),
                start.wf(),
                start.can_count(pending_models(pending@), is_focused_room, now),
                after == start.after_messages(pending_models(pending@), is_focused_room, now),
                self.current_screen == start.current,
                self.room_id@ == start.room_id,
                self.name@ == start.name,
                forall|k: int| 0 <= k < i ==> (#[trigger] self.screens@[k])@ == after.screens[k],
                forall|k: int| 0 <= k < i ==> (#[trigger] self.screens@[k])@.wf(),
                forall|k: int|
                    i <= k < start.screens.len() ==> (#[trigger] self.screens@[k])@ == start.screens[k],
            decreases start.screens.len() - i,
        {
            let is_focused = is_focused_room && i == self.current_screen;
            assert(start.screens[i as int].can_count(
                pending_models(pending@)[i as int],
                is_focused,
                now,
            ));
            assert(start.screens[i as int].wf());
            self.screens[i].process_pending(&pending[i], is_focused, now);
            i = i + 1;
        }
        assert(self@.screens =~= after.screens);
        assert(self@.wf()) by {
            assert forall|k: int| 0 < k < self@.screens.len() implies #[trigger] self@.screens[k] is Pty by {
                assert(start.screens[k] is Pty);
            }
            assert(start.screens[0] is Chat);
        }
    }

    /// Looks again at activity that was pending, on every terminal.
    pub fn check_pending_activity(&mut self, now: u64)
        requires
            old(self)@.wf(),
        ensures
            final(self)@ == old(self)@.settled(now),
            final(self)@.wf(),
    {
        let ghost start = self@;
        let ghost after = start.settled(now);
        let mut i: usize = 0;
        while i < self.screens.len()
            invariant
                i <= self.screens@.len() == start.screens.len(),
                start.wf(),
                after == start.settled(now),
                self.current_screen == start.current,
                self.room_id@ == start.room_id,
                self.name@ == start.name,
                forall|k: int| 0 <= k < i ==> (#[trigger] self.screens@[k])@ == after.screens[k],
                forall|k: int|
                    i <= k < start.screens.len() ==> (#[trigger] self.screens@[k])@ == start.screens[k],
            decreases start.screens.len() - i,
        {
            match &mut self.screens[i] {
                Screen::Pty(channel) => {
                    channel.check_pending_activity(now);
                },
                Screen::Chat(_) => {},
            }
            i = i + 1;
        }
        assert(self@.screens =~= after.screens);
        assert(self@.wf()) by {
            assert forall|k: int| 0 < k < self@.screens.len() implies #[trigger] self@.screens[k] is Pty by {
                assert(start.screens[k] is Pty);
            }
            assert forall|k: int| 0 <= k < self@.screens.len() implies (#[trigger] self@.screens[k]).wf() by {
                assert(start.screens[k].wf());
            }
            assert(start.screens[0] is Chat);
        }
    }

    /// Notes that what was new on the screen in view has been seen.
    pub fn clear_current_activity(&mut self)
        requires
            old(self)@.wf(),
        ensures
            final(self)@ == old(self)@.seen(),
            final(self)@.wf(),
    {
        proof {
            lemma_seen_wf(old(self)@);
        }
        self.current_screen_mut().see();
    }

    /// Follows a change of the screen in view: the terminal that left it is disconnected.
    /// Returns whether the one that came into view waits for its connection. Screens that
    /// are not there are passed over.
    pub fn handle_screen_focus_change(&mut self, old_screen: usize, new_screen: usize) -> (connect: bool)
        requires
            old(self)@.wf(),
        ensures
            final(self)@ == if old_screen < old(self)@.screens.len() {
                old(self)@.with_screen(
                    old_screen as int,
                    old(self)@.screens[old_screen as int].without_connection(),
                )
            } else {
                old(self)@
            },
            final(self)@.wf(),
            connect == (new_screen < final(self)@.screens.len()
                && final(self)@.screens[new_screen as int].wants_connection()),
    {
        let ghost start = self@;
        if old_screen < self.screens.len() {
            self.screens[old_screen].disconnect();
            assert(self@.screens =~= start.screens.update(
                old_screen as int,
                start.screens[old_screen as int].without_connection(),
            ));
            assert(start.screens[old_screen as int].wf());
        }
        new_screen < self.screens.len() && self.screen_wants_connection(new_screen)
    }

    /// Whether a screen is a terminal that waits for its connection.
    pub fn screen_wants_connection(&self, i: usize) -> (r: bool)
        requires
            i < self@.screens.len(),
        ensures
            r == self@.screens[i as int].wants_connection(),
    {
        match &self.screens[i] {
            Screen::Pty(channel) => !channel.is_connected(),
            Screen::Chat(_) => false,
        }
    }

    /// Follows the room's coming into view. Returns whether the terminal in view waits for
    /// its connection.
    pub fn on_focus_gained(&self) -> (connect: bool)
        requires
            self@.wf(),
        ensures
            connect == self@.shown().wants_connection(),
    {
        self.screen_wants_connection(self.current_screen)
    }

    /// Follows the room's going out of view: its terminals are disconnected.
    pub fn on_focus_lost(&mut self)
        ensures
            final(self)@ == old(self)@.all_disconnected(),
            old(self)@.wf() ==> final(self)@.wf(),
    {
        self.disconnect_all();
    }

    /// Disconnects all terminals.
    pub fn disconnect_all(&mut self)
        ensures
            final(self)@ == old(self)@.all_disconnected(),
            old(self)@.wf() ==> final(self)@.wf(),
    {
        let ghost start = self@;
        let ghost after = start.all_disconnected();
        let mut i: usize = 0;
        while i < self.screens.len()
            invariant
                i <= self.screens@.len() == start.screens.len(),
                after == start.all_disconnected(),
                self.current_screen == start.current,
                self.room_id@ == start.room_id,
                self.name@ == start.name,
                forall|k: int| 0 <= k < i ==> (#[trigger] self.screens@[k])@ == after.screens[k],
                forall|k: int|
                    i <= k < start.screens.len() ==> (#[trigger] self.screens@[k])@ == start.screens[k],
            decreases start.screens.len() - i,
        {
            self.screens[i].disconnect();
            i = i + 1;
        }
        assert(self@.screens =~= after.screens);
        proof {
            if start.wf() {
                lemma_disconnected_wf(start);
            }
        }
    }

    /// The directory to open a shell in, in place of a terminal whose command has ended. For
    /// each terminal it is given once.
    pub fn take_respawn_cwd(&mut self) -> (r: Option<String>)
        requires
            old(self)@.wf(),
        ensures
            text_model(r) == old(self)@.respawn_cwd(),
            final(self)@ == old(self)@.respawned(),
            final(self)@.wf(),
    {
        let ghost start = self@;
        let ghost all = start.screens;
        let mut i: usize = 0;
        assert(all.take(0) =~= Seq::<ScreenModel>::empty());
        while i < self.screens.len()
            invariant
                i <= self.screens@.len(),
                start == old(self)@,
                self@ == start,
                all == start.screens,
                start.wf(),
                first_ended(all.take(i as int)) is None,
            decreases self.screens@.len() - i,
        {
            assert(all.take(i + 1).drop_last() =~= all.take(i as int));
            assert(all.take(i + 1).last() == self.screens@[i as int]@);
            assert(all[i as int].wf());
            let taken = self.screens[i].take_cwd();
            if taken.is_some() {
                proof {
                    assert(all[i as int].wants_shell());
                    assert(first_ended(all.take(i + 1)) == Some(i as int));
                    lemma_ended_stays(all, i + 1);
                    assert(self@.screens =~= start.respawned().screens);
                    lemma_respawned_wf(start);
                }
                return taken;
            }
            assert(self@.screens =~= start.screens);
            i = i + 1;
        }
        assert(all.take(all.len() as int) =~= all);
        None
    }

    /// Notes that the connection of a screen has been made; returns what to send first.
    pub fn connect_screen(&mut self, i: usize) -> (first: Option<ClientMessage>)
        requires
            old(self)@.wf(),
            i < old(self)@.screens.len(),
        ensures
            final(self)@ == old(self)@.connected(i as int),
            final(self)@.wf(),
            first.model() == first_message(old(self)@.screens[i as int]),
    {
        let ghost start = self@;
        assert(start.screens[i as int].wf());
        let first = self.screens[i].connect();
        assert(self@.screens =~= start.screens.update(i as int, start.screens[i as int].with_connection()));
        first
    }

    /// Notes that the connection of the terminal in view, if one is, has been made; returns
    /// what to send first.
    pub fn connect_current(&mut self) -> (first: Option<ClientMessage>)
        requires
            old(self)@.wf(),
        ensures
            final(self)@ == old(self)@.connected(old(self)@.current as int),
            final(self)@.wf(),
            first.model() == first_message(old(self)@.shown()),
    {
        let i = self.current_screen;
        self.connect_screen(i)
    }

    /// Changes the size of all terminals. Returns what to send, for each screen.
    pub fn resize_all(&mut self, rows: u16, cols: u16, now: u64) -> (msgs: Vec<Option<ClientMessage>>)
        requires
            old(self)@.wf(),
            size_ok(rows, cols),
            now + RESIZE_COOLDOWN <= u64::MAX,
        ensures
            final(self)@ == old(self)@.resized(rows, cols, now),
            final(self)@.wf(),
            msgs@.len() == old(self)@.screens.len(),
            forall|i: int|
                0 <= i < msgs@.len() ==> (#[trigger] msgs@[i]).model() == resize_message(
                    old(self)@.screens[i],
                    rows,
                    cols,
                ),
    {
        let ghost start = self@;
        let ghost after = start.resized(rows, cols, now);
        let mut msgs: Vec<Option<ClientMessage>> = Vec::new();
        let mut i: usize = 0;
        while i < self.screens.len()
            invariant
                i <= self.screens@.len() == start.screens.len(),
                start.wf(),
                size_ok(rows, cols),
                now + RESIZE_COOLDOWN <= u64::MAX,
                after == start.resized(rows, cols, now),
                self.current_screen == start.current,
                self.room_id@ == start.room_id,
                self.name@ == start.name,
                msgs@.len() == i,
                forall|k: int|
                    0 <= k < i ==> (#[trigger] msgs@[k]).model() == resize_message(
                        start.screens[k],
                        rows,
                        cols,
                    ),
                forall|k: int| 0 <= k < i ==> (#[trigger] self.screens@[k])@ == after.screens[k],
                forall|k: int| 0 <= k < i ==> (#[trigger] self.screens@[k])@.wf(),
                forall|k: int|
                    i <= k < start.screens.len() ==> (#[trigger] self.screens@[k])@ == start.screens[k],
            decreases start.screens.len() - i,
        {
            assert(start.screens[i as int].wf());
            let msg = self.screens[i].resize(rows, cols, now);
            msgs.push(msg);
            i = i + 1;
        }
        assert(self@.screens =~= after.screens);
        assert(self@.wf()) by {
            assert forall|k: int| 0 < k < self@.screens.len() implies #[trigger] self@.screens[k] is Pty by {
                assert(start.screens[k] is Pty);
            }
            assert(start.screens[0] is Chat);
        }
        msgs
    }
}

impl RoomModel {
    /// The room once pending activity has been looked at again.
    pub open spec fn settled(self, now: u64) -> RoomModel {
        RoomModel { screens: self.screens.map_values(|s: ScreenModel| s.settled(now)), ..self }
    }
}

impl ScreenModel {
    /// The screen once pending activity has been looked at again.
    pub open spec fn settled(self, now: u64) -> ScreenModel {
        match self {
            ScreenModel::Chat(chat) => self,
            ScreenModel::Pty(channel) => ScreenModel::Pty(
                ChannelModel {
                    pty: PtyModel { activity: channel.pty.activity_settled(now), ..channel.pty },
                    ..channel
                },
            ),
        }
    }
}

/// A room stays well-formed when what was new is seen.
pub proof fn lemma_seen_wf(r: RoomModel)
    requires
        r.wf(),
    ensures
        r.seen().wf(),
{
    let s = r.seen();
    assert(r.screens[r.current as int].wf());
    assert forall|i: int| 0 < i < s.screens.len() implies #[trigger] s.screens[i] is Pty by {
        assert(r.screens[i] is Pty);
    }
    assert forall|i: int| 0 <= i < s.screens.len() implies (#[trigger] s.screens[i]).wf() by {
        assert(r.screens[i].wf());
    }
}

/// A room stays well-formed when a shell is asked for.
pub proof fn lemma_respawned_wf(r: RoomModel)
    requires
        r.wf(),
    ensures
        r.respawned().wf(),
{
    lemma_first_ended(r.screens);
    let s = r.respawned();
    assert forall|i: int| 0 < i < s.screens.len() implies #[trigger] s.screens[i] is Pty by {
        assert(r.screens[i] is Pty);
    }
    assert forall|i: int| 0 <= i < s.screens.len() implies (#[trigger] s.screens[i]).wf() by {
        assert(r.screens[i].wf());
    }
}

/// A room stays well-formed when its terminals are disconnected.
pub proof fn lemma_disconnected_wf(r: RoomModel)
    requires
        r.wf(),
    ensures
        r.all_disconnected().wf(),
{
    let d = r.all_disconnected();
    assert forall|i: int| 0 < i < d.screens.len() implies #[trigger] d.screens[i] is Pty by {
        assert(r.screens[i] is Pty);
    }
    assert forall|i: int| 0 <= i < d.screens.len() implies (#[trigger] d.screens[i]).wf() by {
        assert(r.screens[i].wf());
    }
}

// ---------------------------------------------------------------------------
// Laws
// ---------------------------------------------------------------------------

/// Going to the next screen and back again, or the other way round, ends where it began,
/// unless there was no screen to go to.
pub proof fn law_screens_back_and_forth(r: RoomModel)
    ensures
        r.current + 1 < r.screens.len() ==> r.next().prev() == r,
        0 < r.current < r.screens.len() ==> r.prev().next() == r,
        r.current + 1 >= r.screens.len() ==> r.next() == r,
        r.current == 0 ==> r.prev() == r,
{
}

/// Moving between screens, adding terminals, disconnecting and seeing what is new keep
/// the chat in its place.
pub proof fn law_chat_is_the_first_screen(r: RoomModel, channel: ChannelModel, switch_to: bool)
    requires
        r.wf(),
        channel.wf(),
    ensures
        r.next().wf() && r.prev().wf(),
        r.with_terminal(channel, switch_to).wf(),
        r.all_disconnected().wf(),
        r.seen().wf(),
        r.with_terminal(channel, switch_to).screens[0] == r.screens[0],
        r.all_disconnected().screens[0] == r.screens[0],
{
    lemma_seen_wf(r);
    lemma_disconnected_wf(r);
    let t = r.with_terminal(channel, switch_to);
    assert forall|i: int| 0 < i < t.screens.len() implies #[trigger] t.screens[i] is Pty by {
        if i < r.screens.len() {
            assert(r.screens[i] is Pty);
        }
    }
    assert forall|i: int| 0 <= i < t.screens.len() implies (#[trigger] t.screens[i]).wf() by {
        if i < r.screens.len() {
            assert(r.screens[i].wf());
        }
    }
}

/// A room has something new just if one of its screens has.
pub proof fn law_room_activity_is_its_screens(r: RoomModel)
    ensures
        r.activity() is Active <==> exists|i: int|
            0 <= i < r.screens.len() && (#[trigger] r.screens[i]).activity() is Active,
{
}

/// In place of a terminal whose command has ended a shell is asked for once, and not while
/// the command runs.
pub proof fn law_shells_are_asked_for_once(r: RoomModel, i: int)
    requires
        r.wf(),
        0 <= i < r.screens.len(),
    ensures
        r.respawn_cwd() is Some <==> exists|k: int|
            0 <= k < r.screens.len() && (#[trigger] r.screens[k]).wants_shell(),
        r.respawned().screens[i].wants_shell() ==> r.screens[i].wants_shell(),
        first_ended(r.screens) == Some(i) ==> !r.respawned().screens[i].wants_shell(),
        r.screens[i] matches ScreenModel::Pty(c) && c.pty.status is Running
            ==> !r.screens[i].wants_shell(),
{
    lemma_first_ended(r.screens);
}

/// Once the screen in view has been seen, it has nothing new.
pub proof fn law_seen_screen_is_idle(r: RoomModel)
    requires
        r.wf(),
    ensures
        r.seen().shown().activity() == ActivityState::Idle,
        r.seen().seen() == r.seen(),
{
    assert(r.seen().seen().screens =~= r.seen().screens);
}

/// In a room that is out of view no terminal is connected.
pub proof fn law_rooms_out_of_view_are_disconnected(r: RoomModel, i: int)
    requires
        0 <= i < r.screens.len(),
    ensures
        r.all_disconnected().screens[i] matches ScreenModel::Pty(c) ==> !c.connected,
        r.all_disconnected().all_disconnected() == r.all_disconnected(),
{
    assert(r.all_disconnected().all_disconnected().screens =~= r.all_disconnected().screens);
}

/// A room has something new exactly if one of its screens has: a chat with unread messages, or a
/// terminal with activity. What is pending does not count.
pub proof fn law_when_a_room_has_something_new(r: RoomModel)
    ensures
        r.activity() is Active <==> exists|i: int|
            0 <= i < r.screens.len() && match #[trigger] r.screens[i] {
                ScreenModel::Chat(chat) => chat.has_unread,
                ScreenModel::Pty(c) => c.pty.activity is Active,
            },
        !(r.activity() is Active) ==> r.activity() == ActivityState::Idle,
{
    if r.activity() is Active {
        let i = choose|i: int|
            0 <= i < r.screens.len() && (#[trigger] r.screens[i]).activity() is Active;
        assert(match r.screens[i] {
            ScreenModel::Chat(chat) => chat.has_unread,
            ScreenModel::Pty(c) => c.pty.activity is Active,
        });
    }
}

/// The bells of a room are those of its terminals that have something new, all together, as far as
/// they can be counted.
pub proof fn law_the_bells_of_a_room(r: RoomModel, screens: Seq<ScreenModel>, s: ScreenModel)
    ensures
        active_bells(Seq::empty()) == 0,
        active_bells(screens.push(s)) == active_bells(screens) + match s {
            ScreenModel::Chat(_) => 0,
            ScreenModel::Pty(c) => match c.pty.activity {
                ActivityState::Active(n) => n as nat,
                _ => 0,
            },
        },
        r.activity() matches ActivityState::Active(n) ==> {
            &&& active_bells(r.screens) <= u32::MAX ==> n == active_bells(r.screens)
            &&& active_bells(r.screens) > u32::MAX ==> n == u32::MAX
        },
{
    assert(screens.push(s).drop_last() =~= screens);
}

/// What is new on a screen: unread messages in a chat, and in a terminal what its output has made
/// of it. A screen that was seen has nothing new, and is else as it was.
pub proof fn law_what_is_new_on_a_screen(chat: ChatModel, c: ChannelModel)
    ensures
        ScreenModel::Chat(chat).activity() is Active <==> chat.has_unread,
        ScreenModel::Chat(chat).activity() is Active || ScreenModel::Chat(chat).activity() is Idle,
        ScreenModel::Pty(c).activity() == c.pty.activity,
        ScreenModel::Chat(chat).seen() == ScreenModel::Chat(ChatModel { has_unread: false, ..chat }),
        ScreenModel::Pty(c).seen() == ScreenModel::Pty(
            ChannelModel { pty: PtyModel { activity: ActivityState::Idle, ..c.pty }, ..c },
        ),
{
}

/// Seeing what is new concerns the screen in view alone.
pub proof fn law_only_the_screen_in_view_is_seen(r: RoomModel, i: int)
    requires
        r.wf(),
        0 <= i < r.screens.len(),
    ensures
        r.seen().screens.len() == r.screens.len(),
        r.seen().screens[i] == if i == r.current {
            match r.screens[i] {
                ScreenModel::Chat(chat) => ScreenModel::Chat(ChatModel { has_unread: false, ..chat }),
                ScreenModel::Pty(c) => ScreenModel::Pty(
                    ChannelModel { pty: PtyModel { activity: ActivityState::Idle, ..c.pty }, ..c },
                ),
            }
        } else {
            r.screens[i]
        },
        r.seen().current == r.current && r.seen().name == r.name && r.seen().room_id == r.room_id,
{
}

/// The screens of a room are gone through one by one, and not past either end.
pub proof fn law_screens_are_gone_through(r: RoomModel)
    requires
        r.wf(),
    ensures
        r.current + 1 < r.screens.len() ==> r.next() == (RoomModel { current: r.current + 1, ..r }),
        r.current + 1 == r.screens.len() ==> r.next() == r,
        r.current > 0 ==> r.prev() == (RoomModel { current: (r.current - 1) as nat, ..r }),
        r.current == 0 ==> r.prev() == r,
        r.shown() == r.screens[r.current as int],
{
}

/// A new terminal stands behind the other screens, and is in view if that is wanted.
pub proof fn law_terminals_are_added(r: RoomModel, c: ChannelModel, switch_to: bool, i: int)
    requires
        0 <= i < r.screens.len(),
    ensures
        ({
            let s = r.with_terminal(c, switch_to);
            &&& s.screens.len() == r.screens.len() + 1
            &&& s.screens[i] == r.screens[i]
            &&& s.screens.last() == ScreenModel::Pty(c)
            &&& s.current == (if switch_to { r.screens.len() } else { r.current })
            &&& s.name == r.name && s.room_id == r.room_id
        }),
{
}

/// A room that is left has no connections any more; else its screens are as they were. A screen
/// that is connected is the only one to change.
pub proof fn law_connections_of_a_room(r: RoomModel, i: int, k: int)
    requires
        0 <= i < r.screens.len(),
        0 <= k < r.screens.len(),
    ensures
        r.all_disconnected().screens.len() == r.screens.len(),
        r.all_disconnected().screens[i] == match r.screens[i] {
            ScreenModel::Chat(chat) => ScreenModel::Chat(chat),
            ScreenModel::Pty(c) => ScreenModel::Pty(ChannelModel { connected: false, ..c }),
        },
        r.all_disconnected() == (RoomModel { screens: r.all_disconnected().screens, ..r }),
        r.connected(k) == (RoomModel { screens: r.connected(k).screens, ..r }),
        r.connected(k).screens.len() == r.screens.len(),
        i != k ==> r.connected(k).screens[i] == r.screens[i],
        r.screens[k] matches ScreenModel::Pty(c) ==> r.connected(k).screens[k] == ScreenModel::Pty(
            ChannelModel {
                connected: true,
                history_complete: c.connected && c.history_complete,
                ..c
            },
        ),
        r.screens[k] is Chat ==> r.connected(k) == r,
{
    if r.screens[k] is Chat {
        assert(r.connected(k).screens =~= r.screens);
    }
}

/// A connection begins with the size that the terminal has, and a change of size is told to every
/// terminal that is connected, and to no other.
pub proof fn law_sizes_are_told(s: ScreenModel, rows: u16, cols: u16)
    ensures
        match s {
            ScreenModel::Chat(_) => first_message(s) is None && resize_message(s, rows, cols) is None,
            ScreenModel::Pty(c) => {
                &&& !c.connected ==> first_message(s) == Some(
                    ClientMessageModel::Resize { pty_id: 0, rows: c.rows as nat, cols: c.cols as nat },
                )
                &&& c.connected ==> first_message(s) is None
                &&& c.connected ==> resize_message(s, rows, cols) == Some(
                    ClientMessageModel::Resize { pty_id: 0, rows: rows as nat, cols: cols as nat },
                )
                &&& !c.connected ==> resize_message(s, rows, cols) is None
            },
        },
        s.wants_connection() <==> (s matches ScreenModel::Pty(c) && !c.connected),
{
}

/// Each screen gets its own messages, and someone looks at it only if it is the screen in view of
/// the room in view; a change of size and the settling of output reach every terminal, and chats
/// are left alone.
pub proof fn law_every_screen_is_reached(
    r: RoomModel,
    pending: Seq<Seq<DaemonMessageModel>>,
    in_view: bool,
    rows: u16,
    cols: u16,
    now: u64,
    i: int,
)
    requires
        0 <= i < r.screens.len(),
        pending.len() == r.screens.len(),
    ensures
        ({
            let got = r.after_messages(pending, in_view, now);
            let sized = r.resized(rows, cols, now);
            let later = r.settled(now);
            &&& got == (RoomModel { screens: got.screens, ..r }) && got.screens.len() == r.screens.len()
            &&& sized == (RoomModel { screens: sized.screens, ..r }) && sized.screens.len()
                == r.screens.len()
            &&& later == (RoomModel { screens: later.screens, ..r }) && later.screens.len()
                == r.screens.len()
            &&& r.screens[i] matches ScreenModel::Pty(c) ==> {
                &&& got.screens[i] == ScreenModel::Pty(
                    c.after_messages(pending[i], in_view && i == r.current, now),
                )
                &&& sized.screens[i] == ScreenModel::Pty(c.resized(rows, cols, now))
                &&& later.screens[i] == ScreenModel::Pty(
                    ChannelModel {
                        pty: PtyModel { activity: c.pty.activity_settled(now), ..c.pty },
                        ..c
                    },
                )
            }
            &&& r.screens[i] is Chat ==> got.screens[i] == r.screens[i] && sized.screens[i]
                == r.screens[i] && later.screens[i] == r.screens[i]
        }),
{
}

/// Whether a shell is to be opened in the place of a terminal: its command has ended, it has a
/// directory, and no shell was asked for in its place yet.
pub open spec fn is_to_be_replaced(s: ScreenModel) -> bool {
    s matches ScreenModel::Pty(c) && c.pty.status == PtyStatus::Exited && c.cwd is Some && !c.replaced
}

/// A shell is asked for in the directory of the first terminal of a room whose command has ended,
/// and only that terminal is marked; without one nothing is asked for and nothing changes.
pub proof fn law_ended_commands_are_replaced(r: RoomModel, i: int)
    ensures
        0 <= i < r.screens.len() && is_to_be_replaced(r.screens[i]) && (forall|k: int|
            0 <= k < i ==> !is_to_be_replaced(#[trigger] r.screens[k])) ==> {
            &&& r.respawn_cwd() == r.screens[i]->Pty_0.cwd
            &&& r.respawned() == (RoomModel {
                screens: r.screens.update(
                    i,
                    ScreenModel::Pty(ChannelModel { replaced: true, ..r.screens[i]->Pty_0 }),
                ),
                ..r
            })
        },
        (forall|k: int| 0 <= k < r.screens.len() ==> !is_to_be_replaced(#[trigger] r.screens[k])) ==> {
            &&& r.respawn_cwd() is None
            &&& r.respawned() == r
        },
{
    lemma_first_ended(r.screens);
    assert(forall|k: int|
        0 <= k < r.screens.len() ==> is_to_be_replaced(r.screens[k]) == (
        #[trigger] r.screens[k]).wants_shell());
}

/// A new room has an empty chat and nothing else, and shows it.
pub proof fn law_new_rooms(room_id: Seq<char>, name: Seq<char>)
    ensures
        RoomModel::chat_only(room_id, name) == (RoomModel {
            room_id,
            name,
            current: 0,
            screens: seq![
                ScreenModel::Chat(
                    ChatModel { messages: Seq::empty(), input: Seq::empty(), scroll: 0, has_unread: false },
                ),
            ],
        }),
{
}

} // verus!
