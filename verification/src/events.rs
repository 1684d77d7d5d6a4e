//! What happens without the user: output, messages, changes of size and new terminals.

use vstd::prelude::*;
use vstd::string::*;

use crate::app::{
    effect_models, is_view, law_what_is_in_view, App, AppModel, Effect, EffectModel,
    MOBILE_WIDTH_THRESHOLD,
};
use crate::chaperone_channel::{ChannelModel, ChaperoneChannel};
use crate::chat_view::{ChatMessage, ChatMessageModel, ChatModel};
use crate::clock::{show_time, time_shown};
use crate::emulator::{screen_text, size_ok, text_hash};
use crate::matrix_client::{
    pair_models, AttachedPty, AttachedPtyModel, MatrixMessage, MatrixMessageModel,
};
use crate::number::{append_decimal, decimal};
use crate::protocol::{ClientMessageModel, DaemonMessage, DaemonMessageModel};
use crate::pty::{ActivityState, RESIZE_COOLDOWN};
use crate::room_view::{
    first_message, pending_models, resize_message, room_models, RoomModel, ScreenModel,
};
use crate::sidebar::SIDEBAR_WIDTH;
use crate::text::{chars_of, same_text};
use crate::wire::Wire;

verus! {

/// The least height of a terminal.
pub const MIN_ROWS: u16 = 24;

/// The least width of a terminal.
pub const MIN_COLS: u16 = 80;

/// The size of terminals on a screen with so many columns and with so many rows for them:
/// beside the list at the side, if it is shown, but never too small.
pub open spec fn pty_size_is(show_sidebar: bool, rows: u16, cols: u16) -> (u16, u16) {
    let width = if show_sidebar {
        if cols >= SIDEBAR_WIDTH {
            (cols - SIDEBAR_WIDTH) as u16
        } else {
            0
        }
    } else {
        cols
    };
    (
        if rows >= MIN_ROWS {
            rows
        } else {
            MIN_ROWS
        },
        if width >= MIN_COLS {
            width
        } else {
            MIN_COLS
        },
    )
}

/// The size of terminals.
pub fn pty_size(show_sidebar: bool, rows: u16, cols: u16) -> (r: (u16, u16))
    ensures
        r == pty_size_is(show_sidebar, rows, cols),
        cols <= 65527 ==> size_ok(r.0, r.1),
{
    let width: u16 = if show_sidebar { cols.saturating_sub(SIDEBAR_WIDTH) } else { cols };
    (
        if rows >= MIN_ROWS { rows } else { MIN_ROWS },
        if width >= MIN_COLS { width } else { MIN_COLS },
    )
}

/// The rows of a screen that terminals have: all but that of the status line.
pub fn content_rows(rows: u16) -> (r: u16)
    ensures
        r == if rows > 0 {
            rows - 1
        } else {
            0
        },
{
    rows.saturating_sub(1)
}

/// The messages to send when the first `n` screens of a room change their size.
pub open spec fn room_resized(room: nat, screens: Seq<ScreenModel>, size: (u16, u16), n: nat) -> Seq<EffectModel>
    decreases n,
{
    if n == 0 {
        Seq::empty()
    } else {
        let before = room_resized(room, screens, size, (n - 1) as nat);
        match resize_message(screens[n - 1], size.0, size.1) {
            Some(message) => before.push(
                EffectModel::Send { room, screen: (n - 1) as nat, message },
            ),
            None => before,
        }
    }
}

/// The messages to send when the terminals of the first `n` rooms change their size.
pub open spec fn rooms_resized(rooms: Seq<RoomModel>, size: (u16, u16), n: nat) -> Seq<EffectModel>
    decreases n,
{
    if n == 0 {
        Seq::empty()
    } else {
        rooms_resized(rooms, size, (n - 1) as nat) + room_resized(
            (n - 1) as nat,
            rooms[n - 1].screens,
            size,
            rooms[n - 1].screens.len(),
        )
    }
}

/// Messages for rooms, as values.
pub open spec fn all_pending(v: Seq<Vec<Vec<DaemonMessage>>>) -> Seq<Seq<Seq<DaemonMessageModel>>> {
    Seq::new(v.len(), |i: int| pending_models(v[i]@))
}

/// The first room with this name on the server.
pub open spec fn room_with_id(rooms: Seq<RoomModel>, room_id: Seq<char>) -> Option<int>
    decreases rooms.len(),
{
    if rooms.len() == 0 {
        None
    } else {
        match room_with_id(rooms.drop_last(), room_id) {
            Some(i) => Some(i),
            None => if rooms.last().room_id == room_id {
                Some(rooms.len() - 1)
            } else {
                None
            },
        }
    }
}

/// A room's name on the server as part of a path: without marks that do not belong there.
pub open spec fn dir_part(room_id: Seq<char>) -> Seq<char>
    decreases room_id.len(),
{
    if room_id.len() == 0 {
        Seq::empty()
    } else {
        let before = dir_part(room_id.drop_last());
        let c = room_id.last();
        if c == '!' {
            before
        } else if c == ':' {
            before.push('_')
        } else {
            before.push(c)
        }
    }
}

/// The directory for terminals of a room that has none yet.
pub open spec fn room_dir(room_id: Seq<char>) -> Seq<char> {
    "/tmp/bz-room-"@ + dir_part(room_id)
}

/// The directory for terminals of a room that has none yet.
pub fn room_directory(room_id: &str) -> (r: String)
    ensures
        r@ == room_dir(room_id@),
{
    let cs = chars_of(room_id);
    let mut r = "/tmp/bz-room-".to_owned();
    let ghost all = cs@;
    let ghost lead = r@;
    let mut i: usize = 0;
    assert(all.take(0) =~= Seq::<char>::empty());
    assert(r@ =~= lead + dir_part(all.take(0)));
    while i < cs.len()
        invariant
            i <= cs@.len(),
            all == cs@,
            r@ == lead + dir_part(all.take(i as int)),
        decreases cs@.len() - i,
    {
        assert(all.take(i + 1).drop_last() =~= all.take(i as int));
        let c = cs[i];
        if c == ':' {
            r.push('_');
        } else if c != '!' {
            r.push(c);
        }
        i = i + 1;
        assert(r@ =~= lead + dir_part(all.take(i as int)));
    }
    assert(all.take(all.len() as int) =~= all);
    r
}

/// A terminal that is to be opened.
#[derive(Debug)]
pub struct TerminalRequest {
    /// The place of the room.
    pub room: usize,
    /// The room's name on the server.
    pub room_id: String,
    /// The name of the terminal.
    pub name: String,
    /// The directory that it opens in.
    pub cwd: String,
    /// Whether that directory has to be made.
    pub make_dir: bool,
    /// Its height.
    pub rows: u16,
    /// Its width.
    pub cols: u16,
}

/// A terminal that is to be opened, as a value.
pub struct TerminalRequestModel {
    pub room: int,
    pub room_id: Seq<char>,
    pub name: Seq<char>,
    pub cwd: Seq<char>,
    pub make_dir: bool,
    pub size: (u16, u16),
}

impl View for TerminalRequest {
    type V = TerminalRequestModel;

    open spec fn view(&self) -> TerminalRequestModel {
        TerminalRequestModel {
            room: self.room as int,
            room_id: self.room_id@,
            name: self.name@,
            cwd: self.cwd@,
            make_dir: self.make_dir,
            size: (self.rows, self.cols),
        }
    }
}

/// The name of a terminal that is opened in a room: the room's name and the number of its
/// screens.
pub open spec fn new_name(room: RoomModel) -> Seq<char> {
    room.name + seq!['-'] + decimal(room.screens.len())
}

/// The size of terminals on a screen of this size.
pub open spec fn fitting(show_sidebar: bool, rows: u16, cols: u16) -> (u16, u16) {
    pty_size_is(
        show_sidebar,
        if rows > 0 {
            (rows - 1) as u16
        } else {
            0
        },
        cols,
    )
}

/// The shells that are to be opened in the first `n` rooms, in place of terminals whose
/// commands have ended.
pub open spec fn respawns(rooms: Seq<RoomModel>, size: (u16, u16), n: nat) -> Seq<TerminalRequestModel>
    decreases n,
{
    if n == 0 {
        Seq::empty()
    } else {
        let before = respawns(rooms, size, (n - 1) as nat);
        let room = rooms[n - 1];
        match room.respawn_cwd() {
            Some(cwd) => before.push(
                TerminalRequestModel {
                    room: n - 1,
                    room_id: room.room_id,
                    name: new_name(room),
                    cwd,
                    make_dir: false,
                    size,
                },
            ),
            None => before,
        }
    }
}

/// Terminals that are to be opened, as values.
pub open spec fn request_models(v: Seq<TerminalRequest>) -> Seq<TerminalRequestModel> {
    v.map_values(|r: TerminalRequest| r@)
}

impl AppModel {
    /// The state after messages for its terminals.
    pub open spec fn after_messages(self, pending: Seq<Seq<Seq<DaemonMessageModel>>>, now: u64) -> AppModel {
        AppModel {
            rooms: Seq::new(
                self.rooms.len(),
                |i: int| self.rooms[i].after_messages(pending[i], i == self.focused_idx(), now),
            ),
            ..self
        }
    }

    /// Whether the bells in the messages can be counted.
    pub open spec fn can_count(self, pending: Seq<Seq<Seq<DaemonMessageModel>>>, now: u64) -> bool {
        &&& pending.len() == self.rooms.len()
        &&& forall|i: int|
            0 <= i < self.rooms.len() ==> (#[trigger] self.rooms[i]).can_count(
                pending[i],
                i == self.focused_idx(),
                now,
            )
    }

    /// The state once pending activity has been looked at again.
    pub open spec fn settled(self, now: u64) -> AppModel {
        AppModel { rooms: self.rooms.map_values(|r: RoomModel| r.settled(now)), ..self }
    }

    /// The state after a change of size.
    pub open spec fn resized(self, rows: u16, cols: u16, now: u64) -> AppModel {
        let size = pty_size_is(self.show_sidebar, rows, cols);
        AppModel {
            rooms: self.rooms.map_values(|r: RoomModel| r.resized(size.0, size.1, now)),
            ..self
        }
    }

    /// With the list at the side shown if the screen is wide enough.
    pub open spec fn fitted(self, cols: u16) -> AppModel {
        AppModel { show_sidebar: cols >= MOBILE_WIDTH_THRESHOLD, ..self }
    }

    /// After a message has come. It is new unless its room is the one in view, and there the
    /// chat is.
    pub open spec fn delivered(self, m: MatrixMessageModel) -> AppModel {
        match room_with_id(self.rooms, m.room_id) {
            Some(i) => {
                let chat = self.rooms[i].screens[0]->Chat_0.with_message(
                    ChatMessageModel {
                        sender: m.sender_name(),
                        content: m.content,
                        timestamp: time_shown(m.timestamp),
                        is_own: false,
                    },
                );
                let looking = i == self.focused_idx() && self.in_view().current == 0;
                self.with_room(
                    i,
                    self.rooms[i].with_screen(
                        0,
                        ScreenModel::Chat(
                            ChatModel { has_unread: chat.has_unread || !looking, ..chat },
                        ),
                    ),
                )
            },
            None => self,
        }
    }

    /// With one terminal more in a room, in view there.
    pub open spec fn with_terminal(self, room: int, c: ChannelModel) -> AppModel {
        self.with_room(room, self.rooms[room].with_terminal(c, true))
    }

    /// With all rooms but the one in view disconnected.
    pub open spec fn others_disconnected(self) -> AppModel {
        AppModel {
            rooms: Seq::new(
                self.rooms.len(),
                |i: int|
                    if i == self.focused_room {
                        self.rooms[i]
                    } else {
                        self.rooms[i].all_disconnected()
                    },
            ),
            ..self
        }
    }

    /// The directory for a new terminal in the room in view: that of the terminal in view, or
    /// the room's own.
    pub open spec fn new_dir(self) -> Seq<char> {
        match self.in_view().shown() {
            ScreenModel::Pty(c) => match c.cwd {
                Some(dir) => dir,
                None => room_dir(self.in_view().room_id),
            },
            ScreenModel::Chat(_) => room_dir(self.in_view().room_id),
        }
    }

    /// The terminal that is to be opened in the room in view, on a screen of this size.
    pub open spec fn new_terminal(self, rows: u16, cols: u16) -> TerminalRequestModel {
        TerminalRequestModel {
            room: self.focused_idx(),
            room_id: self.in_view().room_id,
            name: new_name(self.in_view()),
            cwd: self.new_dir(),
            make_dir: !self.has_dir(),
            size: fitting(self.show_sidebar, rows, cols),
        }
    }

    /// The state once shells were asked for in place of terminals whose commands have ended.
    pub open spec fn respawned(self) -> AppModel {
        AppModel { rooms: self.rooms.map_values(|r: RoomModel| r.respawned()), ..self }
    }

    /// Whether a new terminal in the room in view opens in the directory of another.
    pub open spec fn has_dir(self) -> bool {
        self.in_view().shown() matches ScreenModel::Pty(c) && c.cwd is Some
    }

    /// A state stays well-formed when all its rooms are changed into others.
    pub proof fn lemma_rooms_changed(self, rooms: Seq<RoomModel>)
        requires
            self.wf(),
            rooms.len() == self.rooms.len(),
            forall|i: int| 0 <= i < rooms.len() ==> (#[trigger] rooms[i]).wf(),
        ensures
            (AppModel { rooms, ..self }).wf(),
    {
    }
}

impl App {
    /// Takes in messages for the terminals: for each room and each of its screens those that
    /// have come.
    pub fn process_pending(&mut self, pending: &Vec<Vec<Vec<DaemonMessage>>>, now: u64)
        requires
            old(self)@.wf(),
            old(self)@.can_count(all_pending(pending@), now),
        ensures
            final(self)@ == old(self)@.after_messages(all_pending(pending@), now),
            final(self)@.wf(),
    {
        let ghost start = self@;
        let ghost all = all_pending(pending@);
        let ghost after = start.after_messages(all, now);
        let focused = self.focused_room_idx();
        let mut i: usize = 0;
        while i < self.rooms.len()
            invariant
                i <= self.rooms@.len() == start.rooms.len(),
                start.wf(),
                all == all_pending(pending@),
                start.can_count(all, now),
                after == start.after_messages(all, now),
                focused == start.focused_idx(),
                self@ == (AppModel { rooms: room_models(self.rooms@), ..start }),
                forall|k: int| 0 <= k < i ==> (#[trigger] self.rooms@[k])@ == after.rooms[k],
                forall|k: int| 0 <= k < i ==> (#[trigger] self.rooms@[k])@.wf(),
                forall|k: int|
                    i <= k < start.rooms.len() ==> (#[trigger] self.rooms@[k])@ == start.rooms[k],
            decreases start.rooms.len() - i,
        {
            assert(start.rooms[i as int].can_count(all[i as int], i == focused, now));
            assert(start.rooms[i as int].wf());
            self.rooms[i].process_pending(&pending[i], i == focused, now);
            i = i + 1;
        }
        proof {
            assert(self@.rooms =~= after.rooms);
            start.lemma_rooms_changed(after.rooms);
        }
    }

    /// Looks again at activity that was pending.
    pub fn check_pending_activity(&mut self, now: u64)
        requires
            old(self)@.wf(),
        ensures
            final(self)@ == old(self)@.settled(now),
            final(self)@.wf(),
    {
        let ghost start = self@;
        let ghost after = start.settled(now);
        let mut i: usize = 0;
        while i < self.rooms.len()
            invariant
                i <= self.rooms@.len() == start.rooms.len(),
                start.wf(),
                after == start.settled(now),
                self@ == (AppModel { rooms: room_models(self.rooms@), ..start }),
                forall|k: int| 0 <= k < i ==> (#[trigger] self.rooms@[k])@ == after.rooms[k],
                forall|k: int| 0 <= k < i ==> (#[trigger] self.rooms@[k])@.wf(),
                forall|k: int|
                    i <= k < start.rooms.len() ==> (#[trigger] self.rooms@[k])@ == start.rooms[k],
            decreases start.rooms.len() - i,
        {
            assert(start.rooms[i as int].wf());
            self.rooms[i].check_pending_activity(now);
            i = i + 1;
        }
        proof {
            assert(self@.rooms =~= after.rooms);
            start.lemma_rooms_changed(after.rooms);
        }
    }

    /// Changes the size of all terminals; returns the messages to send.
    pub fn resize_all(&mut self, rows: u16, cols: u16, now: u64) -> (fx: Vec<Effect>)
        requires
            old(self)@.wf(),
            cols <= 65527,
            now + RESIZE_COOLDOWN <= u64::MAX,
        ensures
            final(self)@ == old(self)@.resized(rows, cols, now),
            effect_models(fx@) == rooms_resized(
                old(self)@.rooms,
                pty_size_is(old(self)@.show_sidebar, rows, cols),
                old(self)@.rooms.len(),
            ),
            final(self)@.wf(),
    {
        let ghost start = self@;
        let ghost after = start.resized(rows, cols, now);
        let (height, width) = pty_size(self.show_sidebar, rows, cols);
        let ghost size = (height, width);
        let mut fx: Vec<Effect> = Vec::new();
        let mut i: usize = 0;
        assert(effect_models(fx@) =~= Seq::<EffectModel>::empty());
        while i < self.rooms.len()
            invariant
                i <= self.rooms@.len() == start.rooms.len(),
                start.wf(),
                size == (height, width),
                size == pty_size_is(start.show_sidebar, rows, cols),
                size_ok(height, width),
                now + RESIZE_COOLDOWN <= u64::MAX,
                after == start.resized(rows, cols, now),
                self@ == (AppModel { rooms: room_models(self.rooms@), ..start }),
                effect_models(fx@) == rooms_resized(start.rooms, size, i as nat),
                forall|k: int| 0 <= k < i ==> (#[trigger] self.rooms@[k])@ == after.rooms[k],
                forall|k: int| 0 <= k < i ==> (#[trigger] self.rooms@[k])@.wf(),
                forall|k: int|
                    i <= k < start.rooms.len() ==> (#[trigger] self.rooms@[k])@ == start.rooms[k],
            decreases start.rooms.len() - i,
        {
            let ghost before = effect_models(fx@);
            let ghost screens = start.rooms[i as int].screens;
            assert(start.rooms[i as int].wf());
            assert(self.rooms@[i as int]@ == start.rooms[i as int]);
            let mut msgs = self.rooms[i].resize_all(height, width, now);
            let mut k: usize = 0;
            assert(before + room_resized(i as nat, screens, size, 0) =~= before);
            while k < msgs.len()
                invariant
                    k <= msgs@.len() == screens.len(),
                    size == (height, width),
                    effect_models(fx@) == before + room_resized(i as nat, screens, size, k as nat),
                    forall|j: int|
                        k <= j < msgs@.len() ==> (#[trigger] msgs@[j]).model() == resize_message(
                            screens[j],
                            height,
                            width,
                        ),
                decreases msgs@.len() - k,
            {
                let ghost sofar = effect_models(fx@);
                let ghost wanted = resize_message(screens[k as int], height, width);
                assert(msgs@[k as int].model() == wanted);
                if let Some(message) = msgs[k].take() {
                    let ghost model = message.model();
                    fx.push(Effect::Send { room: i, screen: k, message });
                    assert(effect_models(fx@) =~= sofar.push(
                        EffectModel::Send { room: i as nat, screen: k as nat, message: model },
                    ));
                }
                k = k + 1;
                assert(effect_models(fx@) =~= before + room_resized(i as nat, screens, size, k as nat));
            }
            i = i + 1;
        }
        proof {
            assert(self@.rooms =~= after.rooms);
            start.lemma_rooms_changed(after.rooms);
        }
        fx
    }

    /// Follows a change of the screen's size.
    pub fn handle_resize(&mut self, cols: u16, rows: u16, now: u64) -> (fx: Vec<Effect>)
        requires
            old(self)@.wf(),
            cols <= 65527,
            now + RESIZE_COOLDOWN <= u64::MAX,
        ensures
            final(self)@ == old(self)@.fitted(cols).resized(
                if rows > 0 {
                    (rows - 1) as u16
                } else {
                    0
                },
                cols,
                now,
            ),
            effect_models(fx@) == rooms_resized(
                old(self)@.rooms,
                pty_size_is(
                    cols >= MOBILE_WIDTH_THRESHOLD,
                    if rows > 0 {
                        (rows - 1) as u16
                    } else {
                        0
                    },
                    cols,
                ),
                old(self)@.rooms.len(),
            ),
            final(self)@.wf(),
    {
        self.show_sidebar = cols >= MOBILE_WIDTH_THRESHOLD;
        self.resize_all(content_rows(rows), cols, now)
    }

    /// Notes that a terminal was connected; returns what to send over the connection first.
    pub fn connected(&mut self, room: usize, screen: usize) -> (fx: Vec<Effect>)
        requires
            old(self)@.wf(),
            room < old(self)@.rooms.len(),
            screen < old(self)@.rooms[room as int].screens.len(),
        ensures
            final(self)@ == old(self)@.with_room(
                room as int,
                old(self)@.rooms[room as int].connected(screen as int),
            ),
            effect_models(fx@) == match first_message(
                old(self)@.rooms[room as int].screens[screen as int],
            ) {
                Some(message) => seq![
                    EffectModel::Send { room: room as nat, screen: screen as nat, message },
                ],
                None => Seq::empty(),
            },
            final(self)@.wf(),
    {
        let ghost start = self@;
        assert(start.rooms[room as int].wf());
        let first = self.rooms[room].connect_screen(screen);
        proof {
            let r = start.rooms[room as int].connected(screen as int);
            assert(self@.rooms =~= start.with_room(room as int, r).rooms);
            start.lemma_room_changed(room as int, r);
        }
        match first {
            Some(message) => crate::app::only(Effect::Send { room, screen, message }),
            None => crate::app::nothing(),
        }
    }

    /// Takes the names of the rooms on the server, if there is a connection to it.
    pub fn update_matrix_rooms(&mut self, rooms: Vec<(String, String)>)
        ensures
            final(self)@ == if old(self)@.has_matrix {
                AppModel { cached_rooms: pair_models(rooms@), ..old(self)@ }
            } else {
                old(self)@
            },
    {
        if self.has_matrix {
            self.cached_rooms = rooms;
        }
    }

    /// Disconnects all rooms but the first in view.
    pub fn disconnect_others(&mut self)
        requires
            old(self)@.wf(),
        ensures
            final(self)@ == old(self)@.others_disconnected(),
            final(self)@.wf(),
    {
        let ghost start = self@;
        let ghost after = start.others_disconnected();
        let mut i: usize = 0;
        while i < self.rooms.len()
            invariant
                i <= self.rooms@.len() == start.rooms.len(),
                start.wf(),
                after == start.others_disconnected(),
                self@ == (AppModel { rooms: room_models(self.rooms@), ..start }),
                forall|k: int| 0 <= k < i ==> (#[trigger] self.rooms@[k])@ == after.rooms[k],
                forall|k: int| 0 <= k < i ==> (#[trigger] self.rooms@[k])@.wf(),
                forall|k: int|
                    i <= k < start.rooms.len() ==> (#[trigger] self.rooms@[k])@ == start.rooms[k],
            decreases start.rooms.len() - i,
        {
            assert(start.rooms[i as int].wf());
            if i != self.focused_room {
                self.rooms[i].disconnect_all();
            }
            i = i + 1;
        }
        proof {
            assert(self@.rooms =~= after.rooms);
            start.lemma_rooms_changed(after.rooms);
        }
    }

    /// Takes in a message from the chat server.
    pub fn deliver(&mut self, msg: MatrixMessage)
        requires
            old(self)@.wf(),
        ensures
            final(self)@ == old(self)@.delivered(msg@),
            final(self)@.wf(),
    {
        let ghost start = self@;
        proof {
            start.lemma_in_view();
        }
        let idx = match self.room_by_id(msg.room_id.as_str()) {
            Some(i) => i,
            None => {
                return ;
            },
        };
        assert(start.rooms[idx as int].wf());
        let looking = idx == self.focused_room_idx() && !self.focused_room().on_pty();
        let sender = msg.sender_name();
        let timestamp = show_time(msg.timestamp);
        let chat_msg = ChatMessage::new(sender, msg.content, timestamp, false);
        let ghost room = start.rooms[idx as int];
        let ghost old_chat = room.screens[0]->Chat_0;
        if let Some(chat) = self.rooms[idx].chat_state_mut() {
            chat.add_message(chat_msg);
            if !looking {
                chat.has_unread = true;
            }
        }
        proof {
            let target = start.delivered(msg@);
            assert(self@.rooms =~= target.rooms);
            let r = target.rooms[idx as int];
            assert forall|k: int| 0 < k < r.screens.len() implies #[trigger] r.screens[k] is Pty by {
                assert(room.screens[k] is Pty);
            }
            assert forall|k: int| 0 <= k < r.screens.len() implies (#[trigger] r.screens[k]).wf() by {
                assert(room.screens[k].wf());
            }
            start.lemma_room_changed(idx as int, r);
        }
    }

    /// The first room with this name on the server.
    pub fn room_by_id(&self, room_id: &str) -> (r: Option<usize>)
        ensures
            match r {
                Some(i) => room_with_id(self@.rooms, room_id@) == Some(i as int) && i < self@.rooms.len(),
                None => room_with_id(self@.rooms, room_id@) is None,
            },
    {
        let ghost all = self@.rooms;
        let mut i: usize = 0;
        assert(all.take(0) =~= Seq::<RoomModel>::empty());
        while i < self.rooms.len()
            invariant
                i <= self.rooms@.len(),
                all == self@.rooms,
                room_with_id(all.take(i as int), room_id@) is None,
            decreases self.rooms@.len() - i,
        {
            assert(all.take(i + 1).drop_last() =~= all.take(i as int));
            assert(all.take(i + 1).last() == self.rooms@[i as int]@);
            if same_text(self.rooms[i].room_id.as_str(), room_id) {
                proof {
                    lemma_found_room_stays(all, room_id@, i + 1);
                }
                return Some(i);
            }
            i = i + 1;
        }
        assert(all.take(all.len() as int) =~= all);
        None
    }

    /// The terminal that is to be opened in the room in view, on a screen of this size.
    pub fn terminal_request(&self, cols: u16, rows: u16) -> (r: TerminalRequest)
        requires
            self@.wf(),
        ensures
            r@ == self@.new_terminal(rows, cols),
    {
        proof {
            self@.lemma_in_view();
        }
        let (height, width) = pty_size(self.show_sidebar, content_rows(rows), cols);
        let room = self.focused_room();
        let name = terminal_name(room.name.as_str(), room.screen_count());
        let mut dir: Option<String> = None;
        if let Some(c) = room.current_pty() {
            if let Some(d) = &c.cwd {
                dir = Some(d.clone());
            }
        }
        let make_dir = dir.is_none();
        let cwd = match dir {
            Some(d) => d,
            None => room_directory(room.room_id.as_str()),
        };
        TerminalRequest {
            room: self.focused_room_idx(),
            room_id: room.room_id.clone(),
            name,
            cwd,
            make_dir,
            rows: height,
            cols: width,
        }
    }

    /// The shells that are to be opened in place of terminals whose commands have ended: at
    /// most one in a room. The screen is of this size.
    pub fn respawn_requests(&mut self, cols: u16, rows: u16) -> (r: Vec<TerminalRequest>)
        requires
            old(self)@.wf(),
        ensures
            request_models(r@) == respawns(
                old(self)@.rooms,
                fitting(old(self)@.show_sidebar, rows, cols),
                old(self)@.rooms.len(),
            ),
            final(self)@ == old(self)@.respawned(),
            final(self)@.wf(),
    {
        let ghost start = self@;
        let ghost after = start.respawned();
        let (height, width) = pty_size(self.show_sidebar, content_rows(rows), cols);
        let ghost size = (height, width);
        let mut r: Vec<TerminalRequest> = Vec::new();
        let mut i: usize = 0;
        assert(request_models(r@) =~= Seq::<TerminalRequestModel>::empty());
        while i < self.rooms.len()
            invariant
                i <= self.rooms@.len() == start.rooms.len(),
                start.wf(),
                size == (height, width),
                after == start.respawned(),
                self@ == (AppModel { rooms: room_models(self.rooms@), ..start }),
                request_models(r@) == respawns(start.rooms, size, i as nat),
                forall|k: int| 0 <= k < i ==> (#[trigger] self.rooms@[k])@ == after.rooms[k],
                forall|k: int| 0 <= k < i ==> (#[trigger] self.rooms@[k])@.wf(),
                forall|k: int|
                    i <= k < start.rooms.len() ==> (#[trigger] self.rooms@[k])@ == start.rooms[k],
            decreases start.rooms.len() - i,
        {
            let ghost sofar = request_models(r@);
            let ghost room = start.rooms[i as int];
            assert(room.wf());
            assert(self.rooms@[i as int]@ == room);
            let room_id = self.rooms[i].room_id.clone();
            let name = terminal_name(self.rooms[i].name.as_str(), self.rooms[i].screen_count());
            let taken = self.rooms[i].take_respawn_cwd();
            if let Some(cwd) = taken {
                let request = TerminalRequest {
                    room: i,
                    room_id,
                    name,
                    cwd,
                    make_dir: false,
                    rows: height,
                    cols: width,
                };
                let ghost model = request@;
                r.push(request);
                assert(request_models(r@) =~= sofar.push(model));
            }
            i = i + 1;
        }
        proof {
            assert(self@.rooms =~= after.rooms);
            start.lemma_rooms_changed(after.rooms);
        }
        r
    }

    /// Notes that a terminal was opened in a room.
    pub fn terminal_opened(&mut self, room: usize, channel: ChaperoneChannel)
        requires
            old(self)@.wf(),
            room < old(self)@.rooms.len(),
            channel@.wf(),
        ensures
            final(self)@ == old(self)@.with_terminal(room as int, channel@),
            final(self)@.wf(),
    {
        let ghost start = self@;
        assert(start.rooms[room as int].wf());
        self.rooms[room].add_pty(channel, true);
        proof {
            let r = start.rooms[room as int].with_terminal(channel@, true);
            assert(self@.rooms =~= start.with_terminal(room as int, channel@).rooms);
            start.lemma_room_changed(room as int, r);
        }
    }
}

/// The name of a terminal: the name of its room and its number there.
pub fn terminal_name(room: &str, screens: usize) -> (r: String)
    ensures
        r@ == room@ + seq!['-'] + decimal(screens as nat),
{
    let mut name = room.to_owned();
    name.push('-');
    append_decimal(&mut name, screens as u64);
    assert(name@ =~= room@ + seq!['-'] + decimal(screens as nat));
    name
}

/// What is listed of a terminal in its room.
pub fn attached_pty(channel: &ChaperoneChannel, user_id: &str) -> (r: AttachedPty)
    ensures
        r@ == (AttachedPtyModel {
            pty_id: channel@.id,
            user_id: user_id@,
            socket: channel@.socket,
            command: channel@.command,
        }),
{
    AttachedPty {
        pty_id: channel.id().to_owned(),
        user_id: user_id.to_owned(),
        socket: channel.socket_path.clone(),
        command: channel.command.clone(),
    }
}

proof fn lemma_found_room_stays(rooms: Seq<RoomModel>, room_id: Seq<char>, n: int)
    requires
        0 <= n <= rooms.len(),
        room_with_id(rooms.take(n), room_id) is Some,
    ensures
        room_with_id(rooms, room_id) == room_with_id(rooms.take(n), room_id),
    decreases rooms.len() - n,
{
    if n < rooms.len() {
        assert(rooms.take(n + 1).drop_last() =~= rooms.take(n));
        lemma_found_room_stays(rooms, room_id, n + 1);
    } else {
        assert(rooms.take(n) =~= rooms);
    }
}

// ---------------------------------------------------------------------------
// Laws
// ---------------------------------------------------------------------------

/// Terminals are never too small, nor wider than there is room for if there is enough.
pub proof fn law_terminals_are_large_enough(show_sidebar: bool, rows: u16, cols: u16)
    ensures
        pty_size_is(show_sidebar, rows, cols).0 >= MIN_ROWS,
        pty_size_is(show_sidebar, rows, cols).1 >= MIN_COLS,
        pty_size_is(show_sidebar, rows, cols).0 >= rows,
        cols >= MIN_COLS + SIDEBAR_WIDTH ==> pty_size_is(show_sidebar, rows, cols).1 <= cols,
{
}

/// A message shows up in its room and in no other, behind those that were there.
pub proof fn law_messages_go_to_their_room(a: AppModel, m: MatrixMessageModel, i: int)
    requires
        a.wf(),
        0 <= i < a.rooms.len(),
    ensures
        room_with_id(a.rooms, m.room_id) != Some(i) ==> a.delivered(m).rooms[i] == a.rooms[i],
        room_with_id(a.rooms, m.room_id) == Some(i) ==> a.rooms[i].room_id == m.room_id
            && a.delivered(m).rooms[i].screens[0]->Chat_0.messages.drop_last()
            == a.rooms[i].screens[0]->Chat_0.messages
            && a.delivered(m).rooms[i].screens[0]->Chat_0.messages.last().content == m.content,
        (forall|k: int| 0 <= k < a.rooms.len() ==> (#[trigger] a.rooms[k]).room_id != m.room_id)
            ==> a.delivered(m) == a,
{
    lemma_room_with_id(a.rooms, m.room_id);
    assert(a.rooms[i].wf());
    if room_with_id(a.rooms, m.room_id) == Some(i) {
        assert(a.delivered(m).rooms[i].screens[0]->Chat_0.messages.drop_last()
            =~= a.rooms[i].screens[0]->Chat_0.messages);
    }
    if forall|k: int| 0 <= k < a.rooms.len() ==> (#[trigger] a.rooms[k]).room_id != m.room_id {
        if let Some(k) = room_with_id(a.rooms, m.room_id) {
            assert(a.rooms[k].room_id == m.room_id);
        }
    }
}

/// The room that is found has the name, and none before it does.
pub proof fn lemma_room_with_id(rooms: Seq<RoomModel>, room_id: Seq<char>)
    ensures
        match room_with_id(rooms, room_id) {
            Some(i) => 0 <= i < rooms.len() && rooms[i].room_id == room_id && forall|k: int|
                0 <= k < i ==> (#[trigger] rooms[k]).room_id != room_id,
            None => forall|k: int| 0 <= k < rooms.len() ==> (#[trigger] rooms[k]).room_id != room_id,
        },
    decreases rooms.len(),
{
    if rooms.len() > 0 {
        lemma_room_with_id(rooms.drop_last(), room_id);
        match room_with_id(rooms.drop_last(), room_id) {
            Some(i) => {
                assert forall|k: int| 0 <= k < i implies (#[trigger] rooms[k]).room_id != room_id by {
                    assert(rooms.drop_last()[k].room_id != room_id);
                }
            },
            None => {
                assert forall|k: int| 0 <= k < rooms.len() - 1 implies (#[trigger] rooms[k]).room_id
                    != room_id by {
                    assert(rooms.drop_last()[k].room_id != room_id);
                }
            },
        }
    }
}

/// Output never shows up as new in the screen in view.
pub proof fn law_output_in_view_is_not_new(
    a: AppModel,
    pending: Seq<Seq<Seq<DaemonMessageModel>>>,
    now: u64,
)
    requires
        a.wf(),
        a.can_count(pending, now),
    ensures
        a.after_messages(pending, now).in_view().shown().activity() == a.in_view().shown().activity(),
{
    a.lemma_in_view();
    let i = a.focused_idx();
    let room = a.in_view();
    let s = room.current as int;
    assert(a.rooms[i].can_count(pending[i], true, now));
    match room.screens[s] {
        ScreenModel::Pty(c) => {
            lemma_focused_output(c, pending[i][s], now);
        },
        ScreenModel::Chat(_) => {},
    }
}

proof fn lemma_focused_output(c: ChannelModel, msgs: Seq<DaemonMessageModel>, now: u64)
    ensures
        c.after_messages(msgs, true, now).pty.activity == c.pty.activity,
    decreases msgs.len(),
{
    if c.connected && msgs.len() > 0 {
        lemma_focused_output(c, msgs.drop_last(), now);
    }
}

/// A message from the chat server stands behind the others in the chat of the first room with its
/// room's name, with the sender's name, the time and what it says, as a message of another. It is
/// unread unless that room is in view and shows its chat, and the user has not scrolled back there;
/// what was unread stays so. Nothing else changes.
pub proof fn law_messages_are_delivered(a: AppModel, m: MatrixMessageModel, r: int, i: int)
    requires
        a.wf(),
        is_view(a, r),
        0 <= i < a.rooms.len(),
        a.rooms[i].room_id == m.room_id,
        forall|k: int| 0 <= k < i ==> (#[trigger] a.rooms[k]).room_id != m.room_id,
    ensures
        ({
            let room = a.rooms[i];
            let chat = room.screens[0]->Chat_0;
            a.delivered(m) == (AppModel {
                rooms: a.rooms.update(
                    i,
                    RoomModel {
                        screens: room.screens.update(
                            0,
                            ScreenModel::Chat(
                                ChatModel {
                                    messages: chat.messages.push(
                                        ChatMessageModel {
                                            sender: m.sender_name(),
                                            content: m.content,
                                            timestamp: time_shown(m.timestamp),
                                            is_own: false,
                                        },
                                    ),
                                    has_unread: chat.has_unread || chat.scroll > 0 || i != r
                                        || room.current != 0,
                                    ..chat
                                },
                            ),
                        ),
                        ..room
                    },
                ),
                ..a
            })
        }),
{
    law_what_is_in_view(a, r);
    lemma_room_with_id(a.rooms, m.room_id);
    if let Some(k) = room_with_id(a.rooms, m.room_id) {
        assert(a.rooms[k].room_id == m.room_id);
        if i < k {
            assert(a.rooms[i].room_id != m.room_id);
        }
    }
    assert(room_with_id(a.rooms, m.room_id) == Some(i));
}

/// Terminals take what the screen leaves them beside the list, which takes 22 columns where it is
/// shown; they have at least 24 rows and 80 columns.
pub proof fn law_the_size_of_terminals(show_sidebar: bool, rows: u16, cols: u16)
    ensures
        ({
            let left = if show_sidebar { cols - 22 } else { cols as int };
            let size = pty_size_is(show_sidebar, rows, cols);
            &&& rows >= 24 ==> size.0 == rows
            &&& rows < 24 ==> size.0 == 24
            &&& left >= 80 ==> size.1 == left
            &&& left < 80 ==> size.1 == 80
            &&& rows >= 1 ==> fitting(show_sidebar, rows, cols) == pty_size_is(
                show_sidebar,
                (rows - 1) as u16,
                cols,
            )
        }),
{
}

proof fn lemma_room_resized(room: nat, screens: Seq<ScreenModel>, size: (u16, u16), n: nat, e: EffectModel)
    requires
        n <= screens.len(),
    ensures
        room_resized(room, screens, size, n).contains(e) <==> exists|s: int|
            0 <= s < n && (#[trigger] screens[s] matches ScreenModel::Pty(c) && c.connected) && e == (
            EffectModel::Send {
                room,
                screen: s as nat,
                message: ClientMessageModel::Resize {
                    pty_id: 0,
                    rows: size.0 as nat,
                    cols: size.1 as nat,
                },
            }),
    decreases n,
{
    let all = room_resized(room, screens, size, n);
    if n > 0 {
        lemma_room_resized(room, screens, size, (n - 1) as nat, e);
        let before = room_resized(room, screens, size, (n - 1) as nat);
        if resize_message(screens[n - 1], size.0, size.1) is Some {
            assert(all.drop_last() =~= before);
            assert(all.last() == all[all.len() - 1]);
            assert(all.contains(e) <==> before.contains(e) || all.last() == e) by {
                if before.contains(e) {
                    let k = choose|k: int| 0 <= k < before.len() && before[k] == e;
                    assert(all[k] == e);
                }
                if all.contains(e) {
                    let k = choose|k: int| 0 <= k < all.len() && all[k] == e;
                    if k < before.len() {
                        assert(before[k] == e);
                    }
                }
            }
        }
        assert(screens[n - 1] == screens[n - 1]);
    }
}

proof fn lemma_rooms_resized(rooms: Seq<RoomModel>, size: (u16, u16), n: nat, e: EffectModel)
    requires
        n <= rooms.len(),
    ensures
        rooms_resized(rooms, size, n).contains(e) <==> exists|r: int, s: int|
            0 <= r < n && 0 <= s < rooms[r].screens.len() && (#[trigger] rooms[r].screens[s] matches
            ScreenModel::Pty(c) && c.connected) && e == (EffectModel::Send {
                room: r as nat,
                screen: s as nat,
                message: ClientMessageModel::Resize {
                    pty_id: 0,
                    rows: size.0 as nat,
                    cols: size.1 as nat,
                },
            }),
    decreases n,
{
    let all = rooms_resized(rooms, size, n);
    if n > 0 {
        let before = rooms_resized(rooms, size, (n - 1) as nat);
        let room = rooms[n - 1];
        let own = room_resized((n - 1) as nat, room.screens, size, room.screens.len());
        lemma_rooms_resized(rooms, size, (n - 1) as nat, e);
        lemma_room_resized((n - 1) as nat, room.screens, size, room.screens.len(), e);
        assert(all =~= before + own);
        assert(all.contains(e) <==> before.contains(e) || own.contains(e)) by {
            if before.contains(e) {
                let k = choose|k: int| 0 <= k < before.len() && before[k] == e;
                assert(all[k] == e);
            }
            if own.contains(e) {
                let k = choose|k: int| 0 <= k < own.len() && own[k] == e;
                assert(all[before.len() + k] == e);
            }
            if all.contains(e) {
                let k = choose|k: int| 0 <= k < all.len() && all[k] == e;
                if k < before.len() {
                    assert(before[k] == e);
                } else {
                    assert(own[k - before.len()] == e);
                }
            }
        }
        if own.contains(e) {
            let s = choose|s: int|
                0 <= s < room.screens.len() && (#[trigger] room.screens[s] matches ScreenModel::Pty(c)
                    && c.connected) && e == (EffectModel::Send {
                    room: (n - 1) as nat,
                    screen: s as nat,
                    message: ClientMessageModel::Resize {
                        pty_id: 0,
                        rows: size.0 as nat,
                        cols: size.1 as nat,
                    },
                });
            assert(rooms[n - 1].screens[s] == room.screens[s]);
        }
    }
}

/// A new size is told to every terminal that is connected, in every room, and to nobody else.
pub proof fn law_a_new_size_is_told_to_all(rooms: Seq<RoomModel>, size: (u16, u16), e: EffectModel)
    ensures
        rooms_resized(rooms, size, rooms.len()).contains(e) <==> exists|r: int, s: int|
            0 <= r < rooms.len() && 0 <= s < rooms[r].screens.len() && (#[trigger] rooms[r].screens[s]
                matches ScreenModel::Pty(c) && c.connected) && e == (EffectModel::Send {
                room: r as nat,
                screen: s as nat,
                message: ClientMessageModel::Resize {
                    pty_id: 0,
                    rows: size.0 as nat,
                    cols: size.1 as nat,
                },
            }),
{
    lemma_rooms_resized(rooms, size, rooms.len(), e);
}

/// What comes for the terminals reaches every room, and someone looks only at the room in view; a
/// new size reaches every room, and so does the settling of output. Nothing but the rooms changes.
pub proof fn law_every_room_is_reached(
    a: AppModel,
    pending: Seq<Seq<Seq<DaemonMessageModel>>>,
    r: int,
    rows: u16,
    cols: u16,
    now: u64,
    i: int,
)
    requires
        a.wf(),
        is_view(a, r),
        pending.len() == a.rooms.len(),
        0 <= i < a.rooms.len(),
    ensures
        ({
            let got = a.after_messages(pending, now);
            let sized = a.resized(rows, cols, now);
            let later = a.settled(now);
            let size = pty_size_is(a.show_sidebar, rows, cols);
            &&& got == (AppModel { rooms: got.rooms, ..a }) && got.rooms.len() == a.rooms.len()
            &&& sized == (AppModel { rooms: sized.rooms, ..a }) && sized.rooms.len() == a.rooms.len()
            &&& later == (AppModel { rooms: later.rooms, ..a }) && later.rooms.len() == a.rooms.len()
            &&& got.rooms[i] == a.rooms[i].after_messages(pending[i], i == r, now)
            &&& sized.rooms[i] == a.rooms[i].resized(size.0, size.1, now)
            &&& later.rooms[i] == a.rooms[i].settled(now)
        }),
{
    law_what_is_in_view(a, r);
}

/// Output of a terminal that is not in view is told of in the list of rooms: once it has settled,
/// the terminal's room has something new if the screen is not as it was.
pub proof fn law_rooms_with_settled_output_are_marked(a: AppModel, now: u64, r: int, s: int)
    requires
        0 <= r < a.rooms.len(),
        0 <= s < a.rooms[r].screens.len(),
        a.rooms[r].screens[s] matches ScreenModel::Pty(c) && (c.pty.activity matches
            ActivityState::Pending { since, snapshot, bells } && now >= since + 500 && text_hash(
            screen_text(c.pty.log, c.pty.view),
        ) != snapshot),
    ensures
        a.settled(now).rooms[r].activity() is Active,
{
    let room = a.settled(now).rooms[r];
    assert(room.screens[s].activity() is Active);
}

/// The list at the side is shown by itself on screens of 100 columns and more.
pub proof fn law_when_the_list_is_shown(a: AppModel, cols: u16)
    ensures
        a.fitted(cols) == (AppModel { show_sidebar: cols >= 100, ..a }),
{
}

/// When the program starts, only the room in view keeps its connections.
pub proof fn law_only_the_room_in_view_stays_connected(a: AppModel, i: int)
    requires
        0 <= i < a.rooms.len(),
    ensures
        a.others_disconnected() == (AppModel { rooms: a.others_disconnected().rooms, ..a }),
        a.others_disconnected().rooms.len() == a.rooms.len(),
        i == a.focused_room ==> a.others_disconnected().rooms[i] == a.rooms[i],
        i != a.focused_room ==> a.others_disconnected().rooms[i] == a.rooms[i].all_disconnected(),
{
}

/// A new terminal is opened for the room in view, under the room's name and the number of its
/// screens, where the terminal in view works or else in the room's own directory, which is then to
/// be made. It is put into the room that it was opened for, and comes into view there.
pub proof fn law_new_terminals(a: AppModel, r: int, rows: u16, cols: u16, to: int, c: ChannelModel)
    requires
        a.wf(),
        is_view(a, r),
        0 <= to < a.rooms.len(),
    ensures
        ({
            let req = a.new_terminal(rows, cols);
            let room = a.rooms[r];
            let shown = room.screens[room.current as int];
            &&& req.room == r
            &&& req.room_id == room.room_id
            &&& req.name == room.name + seq!['-'] + decimal(room.screens.len())
            &&& (shown matches ScreenModel::Pty(t) && t.cwd is Some) ==> Some(req.cwd)
                == shown->Pty_0.cwd && !req.make_dir
            &&& !(shown matches ScreenModel::Pty(t) && t.cwd is Some) ==> req.cwd == "/tmp/bz-room-"@
                + dir_part(room.room_id) && req.make_dir
            &&& req.size == fitting(a.show_sidebar, rows, cols)
        }),
        a.with_terminal(to, c) == (AppModel {
            rooms: a.rooms.update(
                to,
                RoomModel {
                    screens: a.rooms[to].screens.push(ScreenModel::Pty(c)),
                    current: a.rooms[to].screens.len(),
                    ..a.rooms[to]
                },
            ),
            ..a
        }),
{
    law_what_is_in_view(a, r);
}

/// The directory of a room bears the room's name without exclamation marks, and with an underscore
/// for each colon.
pub proof fn law_directories_of_rooms(room_id: Seq<char>, c: char)
    ensures
        dir_part(Seq::empty()).len() == 0,
        dir_part(room_id.push(c)) == if c == '!' {
            dir_part(room_id)
        } else {
            dir_part(room_id).push(if c == ':' { '_' } else { c })
        },
{
    assert(room_id.push(c).drop_last() =~= room_id);
}

proof fn lemma_respawns_before(rooms: Seq<RoomModel>, room: RoomModel, size: (u16, u16), n: nat)
    requires
        n <= rooms.len(),
    ensures
        respawns(rooms.push(room), size, n) == respawns(rooms, size, n),
    decreases n,
{
    if n > 0 {
        lemma_respawns_before(rooms, room, size, (n - 1) as nat);
    }
}

/// For each room with a command that has ended a shell is asked for, in its directory, which is
/// there, and under a new name; rooms without one ask for nothing.
pub proof fn law_shells_are_asked_for(rooms: Seq<RoomModel>, room: RoomModel, size: (u16, u16))
    ensures
        respawns(Seq::empty(), size, 0).len() == 0,
        respawns(rooms.push(room), size, rooms.len() + 1) == match room.respawn_cwd() {
            Some(cwd) => respawns(rooms, size, rooms.len()).push(
                TerminalRequestModel {
                    room: rooms.len() as int,
                    room_id: room.room_id,
                    name: room.name + seq!['-'] + decimal(room.screens.len()),
                    cwd,
                    make_dir: false,
                    size,
                },
            ),
            None => respawns(rooms, size, rooms.len()),
        },
{
    lemma_respawns_before(rooms, room, size, rooms.len());
}

/// When shells are asked for, every room notes for which of its terminals, and nothing else changes.
pub proof fn law_rooms_note_what_they_ask_for(a: AppModel, i: int)
    requires
        0 <= i < a.rooms.len(),
    ensures
        a.respawned() == (AppModel { rooms: a.respawned().rooms, ..a }),
        a.respawned().rooms.len() == a.rooms.len(),
        a.respawned().rooms[i] == a.rooms[i].respawned(),
{
}

} // verus!
