//! What keys, clicks and pastes do.

use vstd::prelude::*;
use vstd::string::*;
use vstd::utf8::*;

use crate::app::{
    channel_list, effect_models, is_served, is_view, law_rooms_in_view_are_connected,
    law_what_is_in_view, lemma_open_serves, lemma_switch_serves, quietly, App, AppModel, Effect, EffectModel, InputMode, Step,
};
use crate::chaperone_channel::ChannelModel;
use crate::chat_view::ChatModel;
use crate::emulator::{lines_above, term_size};
use crate::keys::{key_bytes, key_to_bytes, KeyCode, KeyEvent};
use crate::picker::{found, Picker, PickerItem, PickerModel};
use crate::protocol::ClientMessageModel;
use crate::pty::PtyModel;
use crate::room_view::{lemma_seen_wf, RoomModel, ScreenModel};
use crate::sidebar::{
    agent_item, agent_items, divider, entry_at, find_entry, heading, render_room_sidebar, room_item,
    room_items, room_sidebar, SIDEBAR_WIDTH,
};
use crate::text::is_listing;
use crate::ui::{spec_one_line, ItemModel, Style};

verus! {

/// The lines of a page, but for two.
pub open spec fn page(p: PtyModel) -> nat {
    let rows = term_size(p.log).0;
    if rows >= 2 {
        (rows - 2) as nat
    } else {
        0
    }
}

/// A terminal after a key that scrolls.
pub open spec fn scrolled_by(p: PtyModel, code: KeyCode) -> PtyModel {
    match code {
        KeyCode::Esc => PtyModel { scroll: 0, ..p },
        KeyCode::PageUp => p.scrolled_up(page(p)),
        KeyCode::PageDown => p.scrolled_down(page(p)),
        KeyCode::Up => p.scrolled_up(1),
        KeyCode::Down => p.scrolled_down(1),
        KeyCode::Char(c) => if c == 'q' || c == 'G' {
            PtyModel { scroll: 0, ..p }
        } else if c == 'k' {
            p.scrolled_up(1)
        } else if c == 'j' {
            p.scrolled_down(1)
        } else if c == 'g' {
            p.scrolled_up(p.reach())
        } else {
            p
        },
        _ => p,
    }
}

impl AppModel {
    /// The state with the terminal in view changed.
    pub open spec fn with_shown_pty(self, c: ChannelModel, p: PtyModel) -> AppModel {
        let room = self.in_view();
        self.with_room(
            self.focused_idx(),
            room.with_screen(room.current as int, ScreenModel::Pty(ChannelModel { pty: p, ..c })),
        )
    }

    /// The state with the chat of the room in view changed.
    pub open spec fn with_chat(self, chat: ChatModel) -> AppModel {
        self.with_room(
            self.focused_idx(),
            self.in_view().with_screen(0, ScreenModel::Chat(chat)),
        )
    }

    /// Whether the user has scrolled back in the terminal in view.
    pub open spec fn scrolled(self) -> bool {
        self.in_view().shown() matches ScreenModel::Pty(c) && c.pty.scroll > 0
    }

    /// What has to be done to write to the terminal in view: nothing if there is none, or
    /// if it is not connected.
    pub open spec fn written(self, data: Seq<u8>) -> Seq<EffectModel> {
        match self.in_view().shown() {
            ScreenModel::Pty(c) => if c.connected {
                seq![
                    EffectModel::Send {
                        room: self.focused_idx() as nat,
                        screen: self.in_view().current,
                        message: ClientMessageModel::Input { pty_id: 0, data },
                    },
                ]
            } else {
                Seq::empty()
            },
            ScreenModel::Chat(_) => Seq::empty(),
        }
    }

    /// With a search that has just begun.
    pub open spec fn searching(self) -> AppModel {
        AppModel {
            picker: Some(PickerModel::search(self.rooms, self.agents, Seq::empty())),
            ..self
        }
    }

    /// After a key while a search is made.
    pub open spec fn after_search_key(self, p: PickerModel, code: KeyCode) -> Step {
        match code {
            KeyCode::Esc => quietly(AppModel { picker: None, ..self }),
            KeyCode::Enter => {
                let closed = AppModel { picker: None, ..self };
                match p.chosen() {
                    Some(PickerItem::Channel(i)) => closed.switched_to(i as int),
                    Some(PickerItem::Agent(i)) => closed.agent_opened(i as int),
                    None => quietly(closed),
                }
            },
            KeyCode::Up => quietly(AppModel { picker: Some(p.up()), ..self }),
            KeyCode::Down => quietly(AppModel { picker: Some(p.down()), ..self }),
            KeyCode::Backspace => quietly(
                AppModel {
                    picker: Some(
                        PickerModel::search(
                            self.rooms,
                            self.agents,
                            if p.query.len() > 0 {
                                p.query.drop_last()
                            } else {
                                p.query
                            },
                        ),
                    ),
                    ..self
                },
            ),
            KeyCode::Char(c) => quietly(
                AppModel {
                    picker: Some(PickerModel::search(self.rooms, self.agents, p.query.push(c))),
                    ..self
                },
            ),
            _ => quietly(self),
        }
    }

    /// After a key while the user has scrolled back.
    pub open spec fn after_scroll_key(self, code: KeyCode) -> AppModel {
        match self.in_view().shown() {
            ScreenModel::Pty(c) => self.with_shown_pty(c, scrolled_by(c.pty, code)),
            ScreenModel::Chat(_) => self,
        }
    }

    /// After a key while the chat is in view.
    pub open spec fn after_chat_key(self, chat: ChatModel, code: KeyCode) -> Step {
        match code {
            KeyCode::Enter => (
                self.with_chat(ChatModel { input: Seq::empty(), ..chat }),
                if chat.input.len() > 0 && self.has_matrix {
                    seq![
                        EffectModel::Post { room_id: self.in_view().room_id, text: chat.input },
                    ]
                } else {
                    Seq::empty()
                },
            ),
            KeyCode::Backspace => quietly(
                self.with_chat(
                    ChatModel {
                        input: if chat.input.len() > 0 {
                            chat.input.drop_last()
                        } else {
                            chat.input
                        },
                        ..chat
                    },
                ),
            ),
            KeyCode::Char(c) => quietly(
                self.with_chat(ChatModel { input: chat.input.push(c), ..chat }),
            ),
            _ => quietly(self),
        }
    }

    /// After going to the next screen of the room in view.
    pub open spec fn next_screen_shown(self) -> Step {
        self.screen_moved(self.in_view().next())
    }

    /// After going to the screen before in the room in view.
    pub open spec fn prev_screen_shown(self) -> Step {
        self.screen_moved(self.in_view().prev())
    }

    /// After a command.
    pub open spec fn after_command(self, code: KeyCode) -> Step {
        match code {
            KeyCode::Down => self.went_next(),
            KeyCode::Up => self.went_prev(),
            KeyCode::Left => self.prev_screen_shown(),
            KeyCode::Right => self.next_screen_shown(),
            KeyCode::Char(c) => if c == 'j' || c == 'n' {
                self.went_next()
            } else if c == 'k' || c == 'p' {
                self.went_prev()
            } else if c == 'h' {
                self.prev_screen_shown()
            } else if c == 'l' {
                self.next_screen_shown()
            } else if '1' <= c <= '9' {
                self.switched_to(c as int - '1' as int)
            } else if c == '/' {
                quietly(self.searching())
            } else if c == '[' {
                match self.in_view().shown() {
                    ScreenModel::Pty(ch) => if ch.pty.reach() > 0 {
                        quietly(self.with_shown_pty(ch, ch.pty.scrolled_up(1)))
                    } else {
                        quietly(self)
                    },
                    ScreenModel::Chat(_) => quietly(self),
                }
            } else if c == 'q' {
                (self, seq![EffectModel::Quit])
            } else if c == 'Q' {
                quietly(AppModel { quit_confirm: true, ..self })
            } else if c == 'b' {
                (self, self.written(seq![2u8]))
            } else if c == 't' {
                (self, seq![EffectModel::OpenTerminal])
            } else {
                quietly(self)
            },
            _ => quietly(self),
        }
    }

    /// After a key that is no command.
    pub open spec fn after_plain_key(self, key: KeyEvent) -> Step {
        if self.picker is Some {
            self.after_search_key(self.picker->0, key.code)
        } else if self.scrolled() {
            quietly(self.after_scroll_key(key.code))
        } else if key.control && key.code == KeyCode::Char('b') {
            quietly(AppModel { mode: InputMode::Leader, ..self })
        } else if key.control && key.code == KeyCode::Char('k') {
            quietly(self.searching())
        } else if key.control && key.code == KeyCode::Char('\\') {
            (AppModel { show_sidebar: !self.show_sidebar, ..self }, seq![EffectModel::Refit])
        } else {
            match self.in_view().shown() {
                ScreenModel::Pty(_) => match key_bytes(key) {
                    Some(data) => (self, self.written(data)),
                    None => quietly(self),
                },
                ScreenModel::Chat(chat) => self.after_chat_key(chat, key.code),
            }
        }
    }

    /// After a key.
    pub open spec fn after_key(self, key: KeyEvent) -> Step {
        if self.quit_confirm {
            if key.code == KeyCode::Char('y') || key.code == KeyCode::Char('Y') {
                (self, seq![EffectModel::StopAndQuit])
            } else {
                quietly(AppModel { quit_confirm: false, ..self })
            }
        } else {
            match self.mode {
                InputMode::Normal => self.after_plain_key(key),
                InputMode::Leader => (AppModel { mode: InputMode::Normal, ..self }).after_command(
                    key.code,
                ),
            }
        }
    }

    /// The list at the side.
    pub open spec fn side_list(self) -> Seq<ItemModel> {
        room_sidebar(self.rooms, self.agents, self.focused_room as usize, self.focused_agent)
    }

    /// What an entry of the list at the side stands for, by its place among the things to go
    /// to. The line at the top, the headings and the gap stand for nothing.
    pub open spec fn place_of_entry(self, k: int) -> Option<int> {
        let n = self.channels().len();
        if 2 <= k < n + 2 {
            Some(k - 2)
        } else if k >= n + 4 {
            Some(k - 4)
        } else {
            None
        }
    }

    /// After a click: one in the list at the side, which has a title above it, goes to what
    /// stands there.
    pub open spec fn after_click(self, column: u16, row: u16) -> Step {
        if self.show_sidebar && column < SIDEBAR_WIDTH && row > 0 {
            match entry_at(self.side_list(), row - 1) {
                Some(k) => match self.place_of_entry(k) {
                    Some(place) => if place < self.channels().len() {
                        self.switched_to(self.channels()[place])
                    } else {
                        self.agent_opened(self.agent_list()[place - self.channels().len()])
                    },
                    None => quietly(self),
                },
                None => quietly(self),
            }
        } else {
            quietly(self)
        }
    }

    /// A state stays well-formed when the screen in view is changed into another.
    pub proof fn lemma_screen_changed(self, i: int, s: ScreenModel)
        requires
            self.wf(),
            0 <= i < self.in_view().screens.len(),
            s.wf(),
            s is Chat <==> i == 0,
        ensures
            self.with_room(self.focused_idx(), self.in_view().with_screen(i, s)).wf(),
    {
        self.lemma_in_view();
        let room = self.in_view();
        let r = room.with_screen(i, s);
        assert forall|k: int| 0 < k < r.screens.len() implies #[trigger] r.screens[k] is Pty by {
            assert(room.screens[k] is Pty);
        }
        assert forall|k: int| 0 <= k < r.screens.len() implies (#[trigger] r.screens[k]).wf() by {
            assert(room.screens[k].wf());
        }
        self.lemma_room_changed(self.focused_idx(), r);
    }
}

impl App {
    /// What has to be done to write to the terminal in view.
    pub fn write_to_current_pty(&self, data: &[u8]) -> (fx: Vec<Effect>)
        requires
            self@.wf(),
        ensures
            effect_models(fx@) == self@.written(data@),
    {
        proof {
            self@.lemma_in_view();
        }
        let room = self.focused_room();
        if let Some(c) = room.current_pty() {
            if let Some(message) = c.write(data) {
                let i = self.focused_room_idx();
                return crate::app::only(
                    Effect::Send { room: i, screen: room.current_screen_index(), message },
                );
            }
        }
        crate::app::nothing()
    }

    /// Follows a paste.
    pub fn handle_paste(&self, text: &str) -> (fx: Vec<Effect>)
        requires
            self@.wf(),
        ensures
            effect_models(fx@) == self@.written(encode_utf8(text@)),
    {
        self.write_to_current_pty(text.as_bytes())
    }

    /// Follows a click.
    pub fn handle_click(&mut self, column: u16, row: u16) -> (fx: Vec<Effect>)
        requires
            old(self)@.wf(),
        ensures
            final(self)@ == old(self)@.after_click(column, row).0,
            effect_models(fx@) == old(self)@.after_click(column, row).1,
            final(self)@.wf(),
    {
        if self.show_sidebar && column < SIDEBAR_WIDTH && row > 0 {
            let items = render_room_sidebar(
                self.rooms.as_slice(),
                self.focused_room,
                self.agents.as_slice(),
                self.focused_agent,
            );
            if let Some(k) = find_entry(&items, (row - 1) as usize) {
                let channels = self.channel_indices();
                let agents = self.sorted_agents();
                let n = channels.len();
                proof {
                    if k >= n + 2 {
                        law_clicks_follow_the_list(self@, k as int);
                    }
                    self@.lemma_agents();
                }
                if k >= 2 && k - 2 < n {
                    assert(self@.channels()[k - 2] == channels@[k - 2]);
                    return self.switch_to_room(channels[k - 2]);
                }
                if k >= 4 && k - 4 >= n {
                    assert(self@.agent_list()[k - 4 - n] == agents@[k - 4 - n]);
                    return self.open_agent_dm(agents[k - 4 - n]);
                }
            }
        }
        crate::app::nothing()
    }

    /// Begins a search.
    fn begin_search(&mut self)
        requires
            old(self)@.wf(),
        ensures
            final(self)@ == old(self)@.searching(),
            final(self)@.wf(),
    {
        let mut picker = Picker::new();
        picker.update_filter(self.rooms.as_slice(), self.agents.as_slice());
        assert(picker@ =~= PickerModel::search(self@.rooms, self@.agents, Seq::empty()));
        self.picker = Some(picker);
    }

    /// Follows a key while a search is made.
    fn search_key(&mut self, code: KeyCode) -> (fx: Vec<Effect>)
        requires
            old(self)@.wf(),
            old(self)@.picker is Some,
        ensures
            final(self)@ == old(self)@.after_search_key(old(self)@.picker->0, code).0,
            effect_models(fx@) == old(self)@.after_search_key(old(self)@.picker->0, code).1,
            final(self)@.wf(),
    {
        let ghost start = self@;
        let mut picker = match self.picker.take() {
            Some(p) => p,
            None => {
                return crate::app::nothing();
            },
        };
        let ghost p = picker@;
        match code {
            KeyCode::Esc => {
                return crate::app::nothing();
            },
            KeyCode::Enter => {
                match picker.selected_item() {
                    Some(PickerItem::Channel(i)) => {
                        return self.switch_to_room(i);
                    },
                    Some(PickerItem::Agent(i)) => {
                        return self.open_agent_dm(i);
                    },
                    None => {
                        return crate::app::nothing();
                    },
                }
            },
            KeyCode::Up => {
                picker.move_up();
            },
            KeyCode::Down => {
                picker.move_down();
            },
            KeyCode::Backspace => {
                picker.query.pop();
                picker.selected = 0;
                picker.update_filter(self.rooms.as_slice(), self.agents.as_slice());
                assert(picker@ =~= PickerModel::search(
                    start.rooms,
                    start.agents,
                    if p.query.len() > 0 {
                        p.query.drop_last()
                    } else {
                        p.query
                    },
                ));
            },
            KeyCode::Char(c) => {
                picker.query.push(c);
                picker.selected = 0;
                picker.update_filter(self.rooms.as_slice(), self.agents.as_slice());
                assert(picker@ =~= PickerModel::search(start.rooms, start.agents, p.query.push(c)));
            },
            _ => {},
        }
        self.picker = Some(picker);
        crate::app::nothing()
    }

    /// Follows a key while the user has scrolled back.
    fn scroll_key(&mut self, code: KeyCode)
        requires
            old(self)@.wf(),
        ensures
            final(self)@ == old(self)@.after_scroll_key(code),
            final(self)@.wf(),
    {
        let ghost start = self@;
        proof {
            start.lemma_in_view();
        }
        let i = self.focused_room_idx();
        let ghost room = start.in_view();
        assert(room.screens[room.current as int].wf());
        let ghost target = start.after_scroll_key(code);
        if let Some(c) = self.rooms[i].current_pty_mut() {
            let ghost before = c@;
            let ghost p = c@.pty;
            assert(room.shown() == ScreenModel::Pty(before));
            match code {
                KeyCode::Esc => {
                    c.scroll_to_bottom();
                },
                KeyCode::PageUp => {
                    let lines = page_of(c);
                    c.scroll_up(lines);
                },
                KeyCode::PageDown => {
                    let lines = page_of(c);
                    c.scroll_down(lines);
                },
                KeyCode::Up => {
                    c.scroll_up(1);
                },
                KeyCode::Down => {
                    c.scroll_down(1);
                },
                KeyCode::Char(ch) => {
                    if ch == 'q' || ch == 'G' {
                        c.scroll_to_bottom();
                    } else if ch == 'k' {
                        c.scroll_up(1);
                    } else if ch == 'j' {
                        c.scroll_down(1);
                    } else if ch == 'g' {
                        let max = c.scrollback_len();
                        c.scroll_up(max);
                    }
                },
                _ => {},
            }
            assert(c@ == (ChannelModel { pty: scrolled_by(p, code), ..before }));
            assert(c@.wf());
            proof {
                start.lemma_screen_changed(room.current as int, ScreenModel::Pty(c@));
            }
        }
        proof {
            if room.shown() is Chat {
                assert(self@.rooms =~= start.rooms);
            } else {
                assert(self@.rooms =~= target.rooms);
            }
        }
    }

    /// Follows a key while the chat is in view.
    fn chat_key(&mut self, code: KeyCode) -> (fx: Vec<Effect>)
        requires
            old(self)@.wf(),
            old(self)@.in_view().shown() is Chat,
        ensures
            final(self)@ == old(self)@.after_chat_key(old(self)@.in_view().shown()->Chat_0, code).0,
            effect_models(fx@) == old(self)@.after_chat_key(
                old(self)@.in_view().shown()->Chat_0,
                code,
            ).1,
            final(self)@.wf(),
    {
        let ghost start = self@;
        proof {
            start.lemma_in_view();
        }
        let ghost room = start.in_view();
        let ghost chat = room.shown()->Chat_0;
        assert(room.current == 0);
        let i = self.focused_room_idx();
        match code {
            KeyCode::Enter => {
                let mut text = String::new();
                if let Some(state) = self.rooms[i].chat_state_mut() {
                    text = state.take_input();
                }
                assert(self@.rooms =~= start.with_chat(
                    ChatModel { input: Seq::empty(), ..chat },
                ).rooms);
                proof {
                    start.lemma_screen_changed(
                        0,
                        ScreenModel::Chat(ChatModel { input: Seq::empty(), ..chat }),
                    );
                }
                if !text.as_str().is_empty() && self.has_matrix {
                    let room_id = self.rooms[i].room_id.clone();
                    return crate::app::only(Effect::Post { room_id, text });
                }
            },
            KeyCode::Backspace => {
                if let Some(state) = self.rooms[i].chat_state_mut() {
                    state.pop_input();
                }
                proof {
                    let after = ChatModel {
                        input: if chat.input.len() > 0 {
                            chat.input.drop_last()
                        } else {
                            chat.input
                        },
                        ..chat
                    };
                    assert(self@.rooms =~= start.with_chat(after).rooms);
                    start.lemma_screen_changed(0, ScreenModel::Chat(after));
                }
            },
            KeyCode::Char(c) => {
                if let Some(state) = self.rooms[i].chat_state_mut() {
                    state.push_input(c);
                }
                proof {
                    let after = ChatModel { input: chat.input.push(c), ..chat };
                    assert(self@.rooms =~= start.with_chat(after).rooms);
                    start.lemma_screen_changed(0, ScreenModel::Chat(after));
                }
            },
            _ => {},
        }
        crate::app::nothing()
    }

    /// Brings the next screen of the room in view into view.
    pub fn next_screen(&mut self) -> (fx: Vec<Effect>)
        requires
            old(self)@.wf(),
        ensures
            final(self)@ == old(self)@.next_screen_shown().0,
            effect_models(fx@) == old(self)@.next_screen_shown().1,
            final(self)@.wf(),
    {
        self.move_screen(true)
    }

    /// Brings the screen before in the room in view into view.
    pub fn prev_screen(&mut self) -> (fx: Vec<Effect>)
        requires
            old(self)@.wf(),
        ensures
            final(self)@ == old(self)@.prev_screen_shown().0,
            effect_models(fx@) == old(self)@.prev_screen_shown().1,
            final(self)@.wf(),
    {
        self.move_screen(false)
    }

    /// Brings another screen of the room in view into view.
    fn move_screen(&mut self, forth: bool) -> (fx: Vec<Effect>)
        requires
            old(self)@.wf(),
        ensures
            final(self)@ == old(self)@.screen_moved(
                if forth {
                    old(self)@.in_view().next()
                } else {
                    old(self)@.in_view().prev()
                },
            ).0,
            effect_models(fx@) == old(self)@.screen_moved(
                if forth {
                    old(self)@.in_view().next()
                } else {
                    old(self)@.in_view().prev()
                },
            ).1,
            final(self)@.wf(),
    {
        let ghost start = self@;
        proof {
            start.lemma_in_view();
        }
        let i = self.focused_room_idx();
        let ghost room = start.in_view();
        let ghost moved = if forth { room.next() } else { room.prev() };
        let old_screen = self.rooms[i].current_screen_index();
        if forth {
            self.rooms[i].next_screen();
        } else {
            self.rooms[i].prev_screen();
        }
        let new_screen = self.rooms[i].current_screen_index();
        assert(self.rooms@[i as int]@ == moved);
        let mut connect = false;
        if old_screen != new_screen {
            connect = self.rooms[i].handle_screen_focus_change(old_screen, new_screen);
            self.needs_clear = true;
        }
        let ghost left = self.rooms@[i as int]@;
        assert(left.wf());
        self.rooms[i].clear_current_activity();
        proof {
            lemma_seen_wf(left);
            let target = start.screen_moved(moved).0;
            start.lemma_room_changed(i as int, left.seen());
            assert(self@.rooms =~= target.rooms);
            assert(self@ =~= target);
        }
        if connect {
            crate::app::only(Effect::Connect { room: i, screen: new_screen })
        } else {
            crate::app::nothing()
        }
    }

    /// Begins to scroll back in the terminal in view, if there is anything to see.
    fn begin_scroll(&mut self)
        requires
            old(self)@.wf(),
        ensures
            final(self)@ == old(self)@.after_command(KeyCode::Char('[')).0,
            final(self)@.wf(),
    {
        let ghost start = self@;
        proof {
            start.lemma_in_view();
        }
        let i = self.focused_room_idx();
        let ghost room = start.in_view();
        assert(room.screens[room.current as int].wf());
        let ghost target = start.after_command(KeyCode::Char('[')).0;
        if let Some(c) = self.rooms[i].current_pty_mut() {
            let ghost before = c@;
            if c.scrollback_len() > 0 {
                c.scroll_up(1);
            }
            assert(c@.wf());
            proof {
                start.lemma_screen_changed(room.current as int, ScreenModel::Pty(c@));
            }
        }
        proof {
            assert(room.with_screen(room.current as int, room.shown()).screens =~= room.screens);
            assert(self@.rooms =~= target.rooms);
            assert(self@ =~= target);
        }
    }

    /// Follows a command.
    fn command_key(&mut self, code: KeyCode) -> (fx: Vec<Effect>)
        requires
            old(self)@.wf(),
        ensures
            final(self)@ == old(self)@.after_command(code).0,
            effect_models(fx@) == old(self)@.after_command(code).1,
            final(self)@.wf(),
    {
        match code {
            KeyCode::Down => self.next_room(),
            KeyCode::Up => self.prev_room(),
            KeyCode::Left => self.prev_screen(),
            KeyCode::Right => self.next_screen(),
            KeyCode::Char(c) => {
                if c == 'j' || c == 'n' {
                    self.next_room()
                } else if c == 'k' || c == 'p' {
                    self.prev_room()
                } else if c == 'h' {
                    self.prev_screen()
                } else if c == 'l' {
                    self.next_screen()
                } else if '1' <= c && c <= '9' {
                    let idx: usize = (c as u32 - '1' as u32) as usize;
                    self.switch_to_room(idx)
                } else if c == '/' {
                    self.begin_search();
                    crate::app::nothing()
                } else if c == '[' {
                    self.begin_scroll();
                    crate::app::nothing()
                } else if c == 'q' {
                    crate::app::only(Effect::Quit)
                } else if c == 'Q' {
                    self.quit_confirm = true;
                    crate::app::nothing()
                } else if c == 'b' {
                    let data: [u8; 1] = [2];
                    assert(data@ =~= seq![2u8]);
                    self.write_to_current_pty(&data)
                } else if c == 't' {
                    crate::app::only(Effect::OpenTerminal)
                } else {
                    crate::app::nothing()
                }
            },
            _ => crate::app::nothing(),
        }
    }

    /// Follows a key that is no command.
    fn plain_key(&mut self, key: KeyEvent) -> (fx: Vec<Effect>)
        requires
            old(self)@.wf(),
        ensures
            final(self)@ == old(self)@.after_plain_key(key).0,
            effect_models(fx@) == old(self)@.after_plain_key(key).1,
            final(self)@.wf(),
    {
        proof {
            self@.lemma_in_view();
        }
        if self.picker.is_some() {
            return self.search_key(key.code);
        }
        let scrolled = match self.focused_room().current_pty() {
            Some(c) => c.is_scrolled(),
            None => false,
        };
        if scrolled {
            self.scroll_key(key.code);
            return crate::app::nothing();
        }
        if key.control && key.code == KeyCode::Char('b') {
            self.input_mode = InputMode::Leader;
            crate::app::nothing()
        } else if key.control && key.code == KeyCode::Char('k') {
            self.begin_search();
            crate::app::nothing()
        } else if key.control && key.code == KeyCode::Char('\\') {
            self.show_sidebar = !self.show_sidebar;
            crate::app::only(Effect::Refit)
        } else if self.focused_room().on_pty() {
            match key_to_bytes(key) {
                Some(bytes) => self.write_to_current_pty(bytes.as_slice()),
                None => crate::app::nothing(),
            }
        } else {
            self.chat_key(key.code)
        }
    }

    /// Follows a key.
    pub fn handle_key(&mut self, key: KeyEvent) -> (fx: Vec<Effect>)
        requires
            old(self)@.wf(),
        ensures
            final(self)@ == old(self)@.after_key(key).0,
            effect_models(fx@) == old(self)@.after_key(key).1,
            final(self)@.wf(),
    {
        if self.quit_confirm {
            if key.code == KeyCode::Char('y') || key.code == KeyCode::Char('Y') {
                return crate::app::only(Effect::StopAndQuit);
            }
            self.quit_confirm = false;
            return crate::app::nothing();
        }
        match self.input_mode {
            InputMode::Normal => self.plain_key(key),
            InputMode::Leader => {
                self.input_mode = InputMode::Normal;
                self.command_key(key.code)
            },
        }
    }
}

/// The lines of a page, but for two.
fn page_of(c: &crate::chaperone_channel::ChaperoneChannel) -> (n: usize)
    ensures
        n == page(c@.pty),
{
    let rows = c.screen().size().0;
    rows.saturating_sub(2) as usize
}

// ---------------------------------------------------------------------------
// Laws
// ---------------------------------------------------------------------------

/// A command takes one key: after it, keys mean what they did before.
pub proof fn law_a_command_is_one_key(a: AppModel, key: KeyEvent)
    requires
        a.mode == InputMode::Leader,
        !a.quit_confirm,
    ensures
        a.after_key(key).0.mode == InputMode::Normal,
{
}

/// What runs is ended only if the user was asked and said yes.
#[verifier::rlimit(60)]
#[verifier::spinoff_prover]
pub proof fn law_nothing_ends_unasked(a: AppModel, key: KeyEvent)
    ensures
        a.after_key(key).1.contains(EffectModel::StopAndQuit) ==> a.quit_confirm,
        a.quit_confirm ==> (a.after_key(key).1.len() > 0 <==> key.code == KeyCode::Char('y')
            || key.code == KeyCode::Char('Y')),
{
    let fx = a.after_key(key).1;
    if fx.contains(EffectModel::StopAndQuit) {
        let i = choose|i: int| 0 <= i < fx.len() && fx[i] == EffectModel::StopAndQuit;
        assert(fx[i] == EffectModel::StopAndQuit);
    }
}

/// The user can leave, and what runs goes on; or end everything, but only by saying yes to a
/// question. Any other key takes the question back, and everything is as it was.
#[verifier::rlimit(60)]
#[verifier::spinoff_prover]
pub proof fn law_leaving_and_ending(a: AppModel, other: KeyEvent)
    requires
        a.wf(),
        !a.quit_confirm,
        a.mode == InputMode::Normal,
        a.picker is None,
        !a.scrolled(),
        other.code != KeyCode::Char('y'),
        other.code != KeyCode::Char('Y'),
    ensures
        ({
            let leader = KeyEvent { code: KeyCode::Char('b'), control: true, shift: false };
            let leave = KeyEvent { code: KeyCode::Char('q'), control: false, shift: false };
            let end = KeyEvent { code: KeyCode::Char('Q'), control: false, shift: true };
            let yes = KeyEvent { code: KeyCode::Char('y'), control: false, shift: false };
            let commanding = a.after_key(leader).0;
            let asked = commanding.after_key(end);
            &&& commanding.after_key(leave).1 == seq![EffectModel::Quit]
            &&& asked.1.len() == 0
            &&& asked.0.after_key(yes).1 == seq![EffectModel::StopAndQuit]
            &&& asked.0.after_key(other) == (a, Seq::<EffectModel>::empty())
        }),
{
}

/// A command and its own key reach the terminal in view: they send what the key alone would
/// have sent.
pub proof fn law_the_command_key_can_be_sent(a: AppModel)
    requires
        a.wf(),
        !a.quit_confirm,
        a.mode == InputMode::Normal,
        a.picker is None,
        !a.scrolled(),
    ensures
        ({
            let leader = KeyEvent { code: KeyCode::Char('b'), control: true, shift: false };
            let plain = KeyEvent { code: KeyCode::Char('b'), control: false, shift: false };
            let asked = a.after_key(leader).0;
            &&& asked.after_key(plain).0 == a
            &&& asked.after_key(plain).1 == a.written(key_bytes(leader)->0)
        }),
{
    let leader = KeyEvent { code: KeyCode::Char('b'), control: true, shift: false };
    assert(key_bytes(leader)->0 =~= seq![2u8]);
}

/// A search that is given up leaves everything else as it was.
pub proof fn law_a_search_can_be_given_up(a: AppModel, c: char)
    requires
        a.wf(),
        !a.quit_confirm,
        a.mode == InputMode::Normal,
        a.picker is None,
        !a.scrolled(),
    ensures
        ({
            let search = KeyEvent { code: KeyCode::Char('k'), control: true, shift: false };
            let letter = KeyEvent { code: KeyCode::Char(c), control: false, shift: false };
            let esc = KeyEvent { code: KeyCode::Esc, control: false, shift: false };
            a.after_key(search).0.after_key(letter).0.after_key(esc).0 == a
        }),
{
}

/// In a search the user's keys go nowhere else.
pub proof fn law_a_search_takes_all_keys(a: AppModel, key: KeyEvent)
    requires
        a.picker is Some,
        !a.quit_confirm,
        a.mode == InputMode::Normal,
        key.code != KeyCode::Enter,
    ensures
        a.after_key(key).0 == (AppModel { picker: a.after_key(key).0.picker, ..a }),
        a.after_key(key).1.len() == 0,
{
}

/// Going to the next screen and back shows the screen that was in view.
pub proof fn law_screens_of_a_room_back_and_forth(a: AppModel)
    requires
        a.wf(),
        a.in_view().current + 1 < a.in_view().screens.len(),
    ensures
        a.next_screen_shown().0.prev_screen_shown().0.in_view().current == a.in_view().current,
        a.next_screen_shown().0.focused_idx() == a.focused_idx(),
{
    a.lemma_in_view();
}

proof fn lemma_rooms_listed(a: AppModel, n: nat)
    requires
        n <= a.rooms.len(),
    ensures
        ({
            let f = a.focused_room as usize;
            let shown = room_items(a.rooms, a.agents, f, a.focused_agent is None, n);
            let list = channel_list(a.agents, n);
            &&& shown.len() == list.len()
            &&& forall|k: int|
                0 <= k < shown.len() ==> (#[trigger] shown[k]) == room_item(
                    a.rooms[list[k]],
                    a.focused_agent is None && list[k] == f,
                )
        }),
    decreases n,
{
    if n > 0 {
        lemma_rooms_listed(a, (n - 1) as nat);
    }
}

/// A click goes to what is seen where it is made: the entries that stand for a room or an
/// agent show that room or agent, and all others are the line at the top, a heading or the
/// gap between the two lists.
pub proof fn law_clicks_follow_the_list(a: AppModel, k: int)
    requires
        a.wf(),
        0 <= k < a.side_list().len(),
    ensures
        ({
            let n = a.channels().len();
            match a.place_of_entry(k) {
                Some(place) => 0 <= place < a.nav_count() && a.side_list()[k] == if place < n {
                    room_item(
                        a.rooms[a.channels()[place]],
                        a.focused_agent is None && a.channels()[place] == a.focused_room,
                    )
                } else {
                    agent_item(
                        a.rooms,
                        a.agents[a.agent_list()[place - n]],
                        a.focused_agent == Some(a.agent_list()[place - n] as usize),
                    )
                },
                None => {
                    ||| a.side_list()[k] == divider()
                    ||| a.side_list()[k] == heading(" Channels"@)
                    ||| a.side_list()[k] == heading(" Agents"@)
                    ||| a.side_list()[k] == spec_one_line(Seq::empty(), Style::spec_plain())
                },
            }
        }),
{
    lemma_rooms_listed(a, a.rooms.len());
    a.lemma_agents();
    let n = a.channels().len();
    let f = a.focused_room as usize;
    let upper = seq![divider(), heading(" Channels"@)] + room_items(
        a.rooms,
        a.agents,
        f,
        a.focused_agent is None,
        a.rooms.len(),
    );
    let lower = agent_items(a.rooms, a.agents, a.focused_agent);
    assert(a.side_list() =~= upper + lower);
    if k >= n + 4 {
        assert(a.side_list()[k] == lower[k - n - 2]);
        assert(is_listing(crate::sidebar::agent_names(a.agents), a.agent_list()));
    } else if k >= n + 2 {
        assert(a.side_list()[k] == lower[k - n - 2]);
    }
}

proof fn lemma_going_connects(a: AppModel, pos: int)
    requires
        a.wf(),
    ensures
        a.went_to(pos).0.focused_idx() != a.focused_idx() ==> is_served(a.went_to(pos)),
{
    law_rooms_in_view_are_connected(a, 0, 0, pos);
}

proof fn lemma_next_and_prev_connect(a: AppModel)
    requires
        a.wf(),
    ensures
        a.went_next().0.focused_idx() != a.focused_idx() ==> is_served(a.went_next()),
        a.went_prev().0.focused_idx() != a.focused_idx() ==> is_served(a.went_prev()),
{
    if a.nav_count() > 0 {
        lemma_going_connects(a, (a.nav_place() + 1) % (a.nav_count() as int));
        lemma_going_connects(a, a.nav_count() - 1);
        lemma_going_connects(a, a.nav_place() - 1);
    }
}

proof fn lemma_screens_stay_in_the_room(a: AppModel)
    ensures
        a.next_screen_shown().0.focused_idx() == a.focused_idx(),
        a.prev_screen_shown().0.focused_idx() == a.focused_idx(),
{
}

#[verifier::spinoff_prover]
proof fn lemma_commands_connect(a: AppModel, code: KeyCode)
    requires
        a.wf(),
    ensures
        a.after_command(code).0.focused_idx() != a.focused_idx() ==> is_served(a.after_command(code)),
{
    let step = a.after_command(code);
    match code {
        KeyCode::Down | KeyCode::Up => {
            lemma_next_and_prev_connect(a);
        },
        KeyCode::Left | KeyCode::Right => {
            lemma_screens_stay_in_the_room(a);
        },
        KeyCode::Char(c) => {
            if c == 'j' || c == 'n' || c == 'k' || c == 'p' {
                lemma_next_and_prev_connect(a);
            } else if c == 'h' || c == 'l' {
                lemma_screens_stay_in_the_room(a);
            } else if '1' <= c <= '9' {
                assert(step == a.switched_to(c as int - '1' as int));
                lemma_switch_serves(a, c as int - '1' as int);
            } else {
                assert(step.0.focused_idx() == a.focused_idx());
            }
        },
        _ => {},
    }
}

#[verifier::spinoff_prover]
proof fn lemma_search_keys_connect(a: AppModel, p: PickerModel, code: KeyCode)
    requires
        a.wf(),
    ensures
        a.after_search_key(p, code).0.focused_idx() != a.focused_idx() ==> is_served(
            a.after_search_key(p, code),
        ),
{
    let closed = AppModel { picker: None, ..a };
    match p.chosen() {
        Some(PickerItem::Channel(i)) => {
            lemma_switch_serves(closed, i as int);
        },
        Some(PickerItem::Agent(i)) => {
            lemma_open_serves(closed, i as int);
        },
        None => {},
    }
}

#[verifier::spinoff_prover]
proof fn lemma_keys_connect(a: AppModel, key: KeyEvent)
    requires
        a.wf(),
    ensures
        a.after_key(key).0.focused_idx() != a.focused_idx() ==> is_served(a.after_key(key)),
{
    lemma_commands_connect(AppModel { mode: InputMode::Normal, ..a }, key.code);
    if let Some(p) = a.picker {
        lemma_search_keys_connect(a, p, key.code);
    }
}

/// Whatever key or click brings a room into view, the terminal that it shows is connected or is
/// about to be.
#[verifier::spinoff_prover]
pub proof fn law_keys_and_clicks_connect(a: AppModel, key: KeyEvent, column: u16, row: u16)
    requires
        a.wf(),
    ensures
        a.after_key(key).0.focused_idx() != a.focused_idx() ==> is_served(a.after_key(key)),
        a.after_click(column, row).0.focused_idx() != a.focused_idx() ==> is_served(
            a.after_click(column, row),
        ),
{
    lemma_keys_connect(a, key);
    if a.show_sidebar && column < SIDEBAR_WIDTH && row > 0 {
        if let Some(k) = entry_at(a.side_list(), row - 1) {
            if let Some(place) = a.place_of_entry(k) {
                if place < a.channels().len() {
                    lemma_switch_serves(a, a.channels()[place]);
                } else {
                    lemma_open_serves(a, a.agent_list()[place - a.channels().len()]);
                }
            }
        }
    }
}

/// Whether an effect, if it sends something, sends input to the very screen that is in view, and
/// that screen is a terminal that is connected.
pub open spec fn reaches_the_view(a: AppModel, e: EffectModel) -> bool {
    e matches EffectModel::Send { room, screen, message } ==> {
        &&& is_view(a, room as int)
        &&& screen == a.rooms[room as int].current
        &&& (a.rooms[room as int].screens[screen as int] matches ScreenModel::Pty(c) && c.connected)
        &&& message is Input
    }
}

proof fn lemma_written_reaches(a: AppModel, data: Seq<u8>, k: int)
    requires
        a.wf(),
        0 <= k < a.written(data).len(),
    ensures
        reaches_the_view(a, a.written(data)[k]),
{
    a.lemma_in_view();
    assert(is_view(a, a.focused_idx()));
}

proof fn lemma_going_sends_nothing(a: AppModel, pos: int, idx: int, g: int, k: int)
    ensures
        0 <= k < a.switched_to(idx).1.len() ==> !(a.switched_to(idx).1[k] is Send),
        0 <= k < a.agent_opened(g).1.len() ==> !(a.agent_opened(g).1[k] is Send),
        0 <= k < a.went_to(pos).1.len() ==> !(a.went_to(pos).1[k] is Send),
        0 <= k < a.went_next().1.len() ==> !(a.went_next().1[k] is Send),
        0 <= k < a.went_prev().1.len() ==> !(a.went_prev().1[k] is Send),
{
}

proof fn lemma_screens_send_nothing(a: AppModel, k: int)
    ensures
        0 <= k < a.next_screen_shown().1.len() ==> !(a.next_screen_shown().1[k] is Send),
        0 <= k < a.prev_screen_shown().1.len() ==> !(a.prev_screen_shown().1[k] is Send),
{
}

#[verifier::spinoff_prover]
proof fn lemma_commands_reach(a: AppModel, code: KeyCode, k: int)
    requires
        a.wf(),
        0 <= k < a.after_command(code).1.len(),
    ensures
        reaches_the_view(a, a.after_command(code).1[k]),
{
    let fx = a.after_command(code).1;
    match code {
        KeyCode::Down | KeyCode::Up => {
            lemma_going_sends_nothing(a, 0, 0, 0, k);
        },
        KeyCode::Left | KeyCode::Right => {
            lemma_screens_send_nothing(a, k);
        },
        KeyCode::Char(c) => {
            if c == 'j' || c == 'n' || c == 'k' || c == 'p' {
                lemma_going_sends_nothing(a, 0, 0, 0, k);
            } else if c == 'h' || c == 'l' {
                lemma_screens_send_nothing(a, k);
            } else if '1' <= c <= '9' {
                lemma_going_sends_nothing(a, 0, c as int - '1' as int, 0, k);
            } else if c == 'b' {
                lemma_written_reaches(a, seq![2u8], k);
            } else {
                assert(!(fx[k] is Send));
            }
        },
        _ => {},
    }
}

#[verifier::spinoff_prover]
proof fn lemma_plain_keys_reach(a: AppModel, key: KeyEvent, k: int)
    requires
        a.wf(),
        0 <= k < a.after_plain_key(key).1.len(),
    ensures
        reaches_the_view(a, a.after_plain_key(key).1[k]),
{
    let fx = a.after_plain_key(key).1;
    if let Some(p) = a.picker {
        let closed = AppModel { picker: None, ..a };
        match p.chosen() {
            Some(PickerItem::Channel(i)) => {
                lemma_going_sends_nothing(closed, 0, i as int, 0, k);
            },
            Some(PickerItem::Agent(i)) => {
                lemma_going_sends_nothing(closed, 0, 0, i as int, k);
            },
            None => {},
        }
        assert(!(fx[k] is Send));
    } else if a.in_view().shown() is Pty && key_bytes(key) is Some && fx == a.written(key_bytes(key)->0) {
        lemma_written_reaches(a, key_bytes(key)->0, k);
    } else {
        assert(!(fx[k] is Send));
    }
}

/// Whatever a key or a paste sends is input, and goes to the room in view, to the very screen of it
/// that is in view, whatever its number; that screen is a terminal that is connected.
pub proof fn law_input_goes_to_the_screen_in_view(a: AppModel, key: KeyEvent, pasted: Seq<u8>, k: int)
    requires
        a.wf(),
    ensures
        0 <= k < a.after_key(key).1.len() ==> reaches_the_view(a, a.after_key(key).1[k]),
        0 <= k < a.written(pasted).len() ==> reaches_the_view(a, a.written(pasted)[k]),
{
    if 0 <= k < a.written(pasted).len() {
        lemma_written_reaches(a, pasted, k);
    }
    if 0 <= k < a.after_key(key).1.len() && !a.quit_confirm {
        match a.mode {
            InputMode::Normal => {
                lemma_plain_keys_reach(a, key, k);
            },
            InputMode::Leader => {
                lemma_commands_reach(AppModel { mode: InputMode::Normal, ..a }, key.code, k);
            },
        }
    }
}

/// Everything typed or pasted reaches the terminal in view if it is connected: the bytes of the key,
/// or of the text, all of them, once and as they are; and the program does not change. Without a
/// terminal in view, or without a connection, nothing is sent.
pub proof fn law_what_is_typed_reaches_the_terminal(a: AppModel, r: int, key: KeyEvent, pasted: Seq<u8>)
    requires
        a.wf(),
        is_view(a, r),
    ensures
        ({
            let room = a.rooms[r];
            let shown = room.screens[room.current as int];
            let to = |data: Seq<u8>|
                EffectModel::Send {
                    room: r as nat,
                    screen: room.current,
                    message: ClientMessageModel::Input { pty_id: 0, data },
                };
            &&& (shown matches ScreenModel::Pty(c) && c.connected) ==> a.written(pasted) == seq![to(pasted)]
            &&& !(shown matches ScreenModel::Pty(c) && c.connected) ==> a.written(pasted).len() == 0
            &&& !a.quit_confirm && a.mode == InputMode::Normal && a.picker is None && (shown matches
                ScreenModel::Pty(c) && c.connected && c.pty.scroll == 0) && key_bytes(key) is Some
                && !(key.control && (key.code == KeyCode::Char('b') || key.code == KeyCode::Char('k')
                || key.code == KeyCode::Char('\\'))) ==> a.after_key(key) == (
                a,
                seq![to(key_bytes(key)->0)],
            )
        }),
{
    law_what_is_in_view(a, r);
}

/// What is typed while the chat is in view is added to the message at its end, and the last
/// character is taken back again. The message is posted to the room in view as it was typed, unless
/// it is empty or there is no server, and is then no longer being typed.
#[verifier::spinoff_prover]
pub proof fn law_what_is_typed_in_the_chat(a: AppModel, r: int, key: KeyEvent)
    requires
        a.wf(),
        is_view(a, r),
        a.rooms[r].current == 0,
        !a.quit_confirm,
        a.mode == InputMode::Normal,
        a.picker is None,
        !(key.control && (key.code == KeyCode::Char('b') || key.code == KeyCode::Char('k') || key.code
            == KeyCode::Char('\\'))),
    ensures
        ({
            let room = a.rooms[r];
            let chat = room.screens[0]->Chat_0;
            let (b, fx) = a.after_key(key);
            let typed = |input: Seq<char>|
                AppModel {
                    rooms: a.rooms.update(
                        r,
                        RoomModel {
                            screens: room.screens.update(
                                0,
                                ScreenModel::Chat(ChatModel { input, ..chat }),
                            ),
                            ..room
                        },
                    ),
                    ..a
                };
            match key.code {
                KeyCode::Char(c) => b == typed(chat.input.push(c)) && fx.len() == 0,
                KeyCode::Backspace => {
                    &&& fx.len() == 0
                    &&& chat.input.len() > 0 ==> b == typed(
                        chat.input.subrange(0, chat.input.len() - 1),
                    )
                    &&& chat.input.len() == 0 ==> b == typed(chat.input)
                },
                KeyCode::Enter => {
                    &&& b == typed(Seq::empty())
                    &&& chat.input.len() > 0 && a.has_matrix ==> fx == seq![
                        EffectModel::Post { room_id: room.room_id, text: chat.input },
                    ]
                    &&& chat.input.len() == 0 || !a.has_matrix ==> fx.len() == 0
                },
                _ => b == a && fx.len() == 0,
            }
        }),
{
    law_what_is_in_view(a, r);
    assert(a.rooms[r].wf());
    let chat = a.rooms[r].screens[0]->Chat_0;
    if chat.input.len() > 0 {
        assert(chat.input.drop_last() =~= chat.input.subrange(0, chat.input.len() - 1));
    }
}

/// A search follows what is typed: each character makes the query longer and each step back makes it
/// shorter, and what is found is found anew among the rooms and agents there are, with the first
/// chosen. Up and down move the choice; enter goes to what is chosen, and the search is over.
#[verifier::spinoff_prover]
pub proof fn law_a_search_follows_the_keys(
    a: AppModel,
    p: PickerModel,
    c: char,
    other: KeyCode,
    control: bool,
    shift: bool,
)
    requires
        a.picker == Some(p),
        !a.quit_confirm,
        a.mode == InputMode::Normal,
    ensures
        ({
            let after = |code: KeyCode| a.after_key(KeyEvent { code, control, shift });
            let with = |query: Seq<char>|
                AppModel {
                    picker: Some(
                        PickerModel { query, selected: 0, filtered: found(a.rooms, a.agents, query) },
                    ),
                    ..a
                };
            let closed = AppModel { picker: None, ..a };
            let nothing = Seq::<EffectModel>::empty();
            &&& after(KeyCode::Char(c)) == (with(p.query.push(c)), nothing)
            &&& p.query.len() > 0 ==> after(KeyCode::Backspace) == (
                with(p.query.subrange(0, p.query.len() - 1)),
                nothing,
            )
            &&& p.query.len() == 0 ==> after(KeyCode::Backspace) == (with(p.query), nothing)
            &&& after(KeyCode::Esc) == (closed, nothing)
            &&& after(KeyCode::Up) == (AppModel { picker: Some(p.up()), ..a }, nothing)
            &&& after(KeyCode::Down) == (AppModel { picker: Some(p.down()), ..a }, nothing)
            &&& p.selected < p.filtered.len() ==> after(KeyCode::Enter) == match p.filtered[p.selected as int] {
                PickerItem::Channel(i) => closed.switched_to(i as int),
                PickerItem::Agent(i) => closed.agent_opened(i as int),
            }
            &&& p.selected >= p.filtered.len() ==> after(KeyCode::Enter) == (closed, nothing)
            &&& !(other is Char) && !(other is Backspace) && !(other is Esc) && !(other is Up) && !(other is Down)
                && !(other is Enter) ==> after(other) == (a, nothing)
        }),
{
    if p.query.len() > 0 {
        assert(p.query.drop_last() =~= p.query.subrange(0, p.query.len() - 1));
    }
}

/// What the commands do, in whatever state they are given: the keys for going through rooms and
/// screens, the digits for the rooms by their places, the search, the scrolling, leaving, ending, and
/// opening a terminal. Any other key ends the command and does nothing.
#[verifier::spinoff_prover]
#[verifier::rlimit(60)]
pub proof fn law_what_commands_do(a: AppModel, r: int, c: char, control: bool, shift: bool)
    requires
        a.wf(),
        is_view(a, r),
        a.mode == InputMode::Leader,
        !a.quit_confirm,
    ensures
        ({
            let n = AppModel { mode: InputMode::Normal, ..a };
            let (b, fx) = a.after_key(KeyEvent { code: KeyCode::Char(c), control, shift });
            let room = a.rooms[r];
            let nothing = Seq::<EffectModel>::empty();
            &&& c == 'j' || c == 'n' ==> (b, fx) == n.went_next()
            &&& c == 'k' || c == 'p' ==> (b, fx) == n.went_prev()
            &&& c == 'l' ==> (b, fx) == n.screen_moved(room.next())
            &&& c == 'h' ==> (b, fx) == n.screen_moved(room.prev())
            &&& '1' <= c <= '9' ==> (b, fx) == n.switched_to(c as int - 49)
            &&& c == '/' ==> (b, fx) == (
                AppModel {
                    picker: Some(
                        PickerModel {
                            query: Seq::empty(),
                            selected: 0,
                            filtered: found(a.rooms, a.agents, Seq::empty()),
                        },
                    ),
                    ..n
                },
                nothing,
            )
            &&& c == 'q' ==> (b, fx) == (n, seq![EffectModel::Quit])
            &&& c == 'Q' ==> (b, fx) == (AppModel { quit_confirm: true, ..n }, nothing)
            &&& c == 't' ==> (b, fx) == (n, seq![EffectModel::OpenTerminal])
            &&& c == 'b' ==> (b, fx) == (n, a.written(seq![2u8]))
            &&& !seq!['j', 'n', 'k', 'p', 'l', 'h', '/', 'q', 'Q', 't', 'b', '['].contains(c) && !('1' <= c
                <= '9') ==> (b, fx) == (n, nothing)
        }),
{
    law_what_is_in_view(a, r);
    let all = seq!['j', 'n', 'k', 'p', 'l', 'h', '/', 'q', 'Q', 't', 'b', '['];
    assert(all[0] == 'j' && all[1] == 'n' && all[2] == 'k' && all[3] == 'p' && all[4] == 'l' && all[5]
        == 'h' && all[6] == '/' && all[7] == 'q' && all[8] == 'Q' && all[9] == 't' && all[10] == 'b'
        && all[11] == '[');
}

/// The arrows are commands too: up and down go through the rooms, left and right through the screens.
/// Any other key that is no character ends the command and does nothing.
pub proof fn law_arrows_are_commands(a: AppModel, other: KeyCode, control: bool, shift: bool)
    requires
        a.mode == InputMode::Leader,
        !a.quit_confirm,
    ensures
        ({
            let after = |code: KeyCode| a.after_key(KeyEvent { code, control, shift });
            let n = AppModel { mode: InputMode::Normal, ..a };
            &&& after(KeyCode::Down) == n.went_next()
            &&& after(KeyCode::Up) == n.went_prev()
            &&& after(KeyCode::Right) == n.screen_moved(n.in_view().next())
            &&& after(KeyCode::Left) == n.screen_moved(n.in_view().prev())
            &&& !(other is Char) && !(other is Down) && !(other is Up) && !(other is Right) && !(other is Left)
                ==> after(other) == (n, Seq::<EffectModel>::empty())
        }),
{
}

/// Scrolling begins with one line back in the terminal in view, if there is a line to go back to.
#[verifier::spinoff_prover]
pub proof fn law_scrolling_begins(a: AppModel, r: int, control: bool, shift: bool)
    requires
        a.wf(),
        is_view(a, r),
        a.mode == InputMode::Leader,
        !a.quit_confirm,
    ensures
        ({
            let n = AppModel { mode: InputMode::Normal, ..a };
            let (b, fx) = a.after_key(KeyEvent { code: KeyCode::Char('['), control, shift });
            let room = a.rooms[r];
            &&& fx.len() == 0
            &&& match room.screens[room.current as int] {
                ScreenModel::Chat(_) => b == n,
                ScreenModel::Pty(c) => {
                    let reach = lines_above(c.pty.log);
                    let to = if c.pty.scroll + 1 <= reach { c.pty.scroll + 1 } else { reach };
                    &&& reach == 0 ==> b == n
                    &&& reach > 0 ==> b == (AppModel {
                        rooms: a.rooms.update(
                            r,
                            RoomModel {
                                screens: room.screens.update(
                                    room.current as int,
                                    ScreenModel::Pty(
                                        ChannelModel { pty: PtyModel { scroll: to, ..c.pty }, ..c },
                                    ),
                                ),
                                ..room
                            },
                        ),
                        ..n
                    })
                },
            }
        }),
{
    law_what_is_in_view(a, r);
}

/// While the user has scrolled back, the keys scroll and do nothing else: by a line, by a page but
/// for two lines, to the top and to the end. No other key has an effect, and nothing is sent.
#[verifier::spinoff_prover]
pub proof fn law_keys_scroll(a: AppModel, r: int, key: KeyEvent)
    requires
        a.wf(),
        is_view(a, r),
        !a.quit_confirm,
        a.mode == InputMode::Normal,
        a.picker is None,
        a.rooms[r].screens[a.rooms[r].current as int] matches ScreenModel::Pty(c) && c.pty.scroll > 0,
    ensures
        ({
            let room = a.rooms[r];
            let c = room.screens[room.current as int]->Pty_0;
            let (b, fx) = a.after_key(key);
            let top = lines_above(c.pty.log);
            let full = (term_size(c.pty.log).0 - 2) as nat;
            let back = |n: nat| if c.pty.scroll + n <= top { c.pty.scroll + n } else { top };
            let forth = |n: nat| if n <= c.pty.scroll { (c.pty.scroll - n) as nat } else { 0 };
            let to = match key.code {
                KeyCode::Esc => 0,
                KeyCode::PageUp => back(full),
                KeyCode::PageDown => forth(full),
                KeyCode::Up => back(1),
                KeyCode::Down => forth(1),
                KeyCode::Char('q') => 0,
                KeyCode::Char('G') => 0,
                KeyCode::Char('k') => back(1),
                KeyCode::Char('j') => forth(1),
                KeyCode::Char('g') => top,
                _ => c.pty.scroll,
            };
            &&& fx.len() == 0
            &&& b == (AppModel {
                rooms: a.rooms.update(
                    r,
                    RoomModel {
                        screens: room.screens.update(
                            room.current as int,
                            ScreenModel::Pty(ChannelModel { pty: PtyModel { scroll: to, ..c.pty }, ..c }),
                        ),
                        ..room
                    },
                ),
                ..a
            })
        }),
{
    law_what_is_in_view(a, r);
    assert(a.rooms[r].wf());
    assert(a.rooms[r].screens[a.rooms[r].current as int].wf());
}

/// Three keys are commands at any time but in a search, while scrolling and while a question is
/// asked: one begins a command, one begins a search, and one shows or hides the list at the side.
pub proof fn law_keys_of_the_program(a: AppModel, r: int, shift: bool)
    requires
        a.wf(),
        is_view(a, r),
        !a.quit_confirm,
        a.mode == InputMode::Normal,
        a.picker is None,
        !(a.rooms[r].screens[a.rooms[r].current as int] matches ScreenModel::Pty(c) && c.pty.scroll > 0),
    ensures
        ({
            let after = |c: char| a.after_key(KeyEvent { code: KeyCode::Char(c), control: true, shift });
            let nothing = Seq::<EffectModel>::empty();
            &&& after('b') == (AppModel { mode: InputMode::Leader, ..a }, nothing)
            &&& after('k') == (
                AppModel {
                    picker: Some(
                        PickerModel {
                            query: Seq::empty(),
                            selected: 0,
                            filtered: found(a.rooms, a.agents, Seq::empty()),
                        },
                    ),
                    ..a
                },
                nothing,
            )
            &&& after('\\') == (
                AppModel { show_sidebar: !a.show_sidebar, ..a },
                seq![EffectModel::Refit],
            )
        }),
{
    law_what_is_in_view(a, r);
}

/// A click in the list at the side, which takes 22 columns and has a title in its first row, goes to
/// the room or agent whose entry the row belongs to; a click anywhere else does nothing.
pub proof fn law_clicks_go_to_entries(a: AppModel, column: u16, row: u16, k: int, place: int)
    ensures
        !a.show_sidebar || column >= 22 || row == 0 ==> a.after_click(column, row) == (
            a,
            Seq::<EffectModel>::empty(),
        ),
        a.show_sidebar && column < 22 && row > 0 && entry_at(a.side_list(), row - 1) == Some(k)
            && a.place_of_entry(k) == Some(place) ==> a.after_click(column, row) == if place
            < a.channels().len() {
            a.switched_to(a.channels()[place])
        } else {
            a.agent_opened(a.agent_list()[place - a.channels().len()])
        },
        a.show_sidebar && entry_at(a.side_list(), row - 1) == Some(k) && a.place_of_entry(k) is None
            ==> a.after_click(column, row) == (a, Seq::<EffectModel>::empty()),
{
}

/// The question whether to end everything is answered by one key, whatever else is going on: yes ends
/// everything, and any other key takes the question back.
pub proof fn law_the_question_is_answered(a: AppModel, key: KeyEvent)
    requires
        a.quit_confirm,
    ensures
        key.code == KeyCode::Char('y') || key.code == KeyCode::Char('Y') ==> a.after_key(key) == (
            a,
            seq![EffectModel::StopAndQuit],
        ),
        key.code != KeyCode::Char('y') && key.code != KeyCode::Char('Y') ==> a.after_key(key) == (
            AppModel { quit_confirm: false, ..a },
            Seq::<EffectModel>::empty(),
        ),
{
}

} // verus!
