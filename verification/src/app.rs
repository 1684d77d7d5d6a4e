//! The program's state, and how it follows what the user does.
//!
//! What has to be done outside, such as making a connection, is handed back as a list of
//! effects.

use vstd::prelude::*;
use vstd::string::*;

use crate::chaperone_channel::ChannelModel;
use crate::chat_view::ChatModel;
use crate::config::AgentConfig;
use crate::matrix_client::{pair_models, user_id_is, user_id_of};
use crate::picker::{
    is_dm, items_exist, HasAgentActivity, HasAgentName, Picker, PickerModel,
};
use crate::protocol::{ClientMessage, ClientMessageModel};
use crate::pty::{ActivityState, PtyModel};
use crate::room_view::{
    lemma_disconnected_wf, lemma_seen_wf, room_models, RoomModel, RoomView, ScreenModel,
};
use crate::sidebar::{agent_names, agent_order};
use crate::text::{is_listing, lemma_listing_complete, listing_of, places};
use crate::wire::Wire;

verus! {

/// How wide the screen must be for the list at the side to be shown by itself.
pub const MOBILE_WIDTH_THRESHOLD: u16 = 100;

/// What keys mean.
#[derive(Debug, Clone, Copy, PartialEq, Eq, Structural)]
pub enum InputMode {
    /// They go to the screen in view.
    Normal,
    /// The next one is a command.
    Leader,
}

impl Default for InputMode {
    fn default() -> (m: Self)
        ensures
            m == InputMode::Normal,
    {
        InputMode::Normal
    }
}

/// An agent, and the room for talking to it.
pub struct AgentEntry {
    pub config: AgentConfig,
    /// The place of that room, once it is open.
    pub dm_room_idx: Option<usize>,
}

impl HasAgentName for AgentEntry {
    open spec fn spec_agent_name(&self) -> Seq<char> {
        self.config.name@
    }

    open spec fn spec_dm_room_idx(&self) -> Option<usize> {
        self.dm_room_idx
    }

    fn agent_name(&self) -> &str {
        self.config.name.as_str()
    }

    fn dm_room_idx(&self) -> Option<usize> {
        self.dm_room_idx
    }
}

impl HasAgentActivity for AgentEntry {
    open spec fn spec_has_activity(&self, rooms: Seq<RoomModel>) -> bool {
        match self.dm_room_idx {
            Some(i) => i < rooms.len() && rooms[i as int].activity() is Active,
            None => false,
        }
    }

    fn has_activity(&self, rooms: &[RoomView]) -> bool {
        match self.dm_room_idx {
            Some(i) => i < rooms.len() && rooms[i].activity().is_active(),
            None => false,
        }
    }
}

/// Something to be done outside.
#[derive(Debug)]
pub enum Effect {
    /// Connect a terminal.
    Connect { room: usize, screen: usize },
    /// Open a room for talking to an agent.
    CreateDm { agent: usize, user_id: String },
    /// Send a message to the chaperone of a terminal.
    Send { room: usize, screen: usize, message: ClientMessage },
    /// Say something in a room.
    Post { room_id: String, text: String },
    /// Fit all terminals to the screen.
    Refit,
    /// Open a terminal in the room in view.
    OpenTerminal,
    /// Leave; what runs goes on.
    Quit,
    /// End what runs, and leave.
    StopAndQuit,
}

/// Something to be done outside, as a value.
pub enum EffectModel {
    Connect { room: nat, screen: nat },
    CreateDm { agent: nat, user_id: Seq<char> },
    Send { room: nat, screen: nat, message: ClientMessageModel },
    Post { room_id: Seq<char>, text: Seq<char> },
    Refit,
    OpenTerminal,
    Quit,
    StopAndQuit,
}

impl View for Effect {
    type V = EffectModel;

    open spec fn view(&self) -> EffectModel {
        match self {
            Effect::Connect { room, screen } => EffectModel::Connect {
                room: *room as nat,
                screen: *screen as nat,
            },
            Effect::CreateDm { agent, user_id } => EffectModel::CreateDm {
                agent: *agent as nat,
                user_id: user_id@,
            },
            Effect::Send { room, screen, message } => EffectModel::Send {
                room: *room as nat,
                screen: *screen as nat,
                message: message.model(),
            },
            Effect::Post { room_id, text } => EffectModel::Post { room_id: room_id@, text: text@ },
            Effect::Refit => EffectModel::Refit,
            Effect::OpenTerminal => EffectModel::OpenTerminal,
            Effect::Quit => EffectModel::Quit,
            Effect::StopAndQuit => EffectModel::StopAndQuit,
        }
    }
}

/// Things to be done outside, as values.
pub open spec fn effect_models(v: Seq<Effect>) -> Seq<EffectModel> {
    Seq::new(v.len(), |i: int| v[i]@)
}

/// Nothing to be done.
pub(crate) fn nothing() -> (fx: Vec<Effect>)
    ensures
        effect_models(fx@) == Seq::<EffectModel>::empty(),
{
    let fx: Vec<Effect> = Vec::new();
    assert(effect_models(fx@) =~= Seq::<EffectModel>::empty());
    fx
}

/// One thing to be done.
pub(crate) fn only(e: Effect) -> (fx: Vec<Effect>)
    ensures
        effect_models(fx@) == seq![e@],
{
    let mut fx: Vec<Effect> = Vec::new();
    fx.push(e);
    assert(effect_models(fx@) =~= seq![e@]);
    fx
}

/// The program's state.
pub struct App {
    /// The rooms.
    pub rooms: Vec<RoomView>,
    /// The channel in view, or the one that was before an agent was.
    pub focused_room: usize,
    /// What keys mean.
    pub input_mode: InputMode,
    /// The search, while one is made.
    pub picker: Option<Picker>,
    /// Whether the list at the side is shown.
    pub show_sidebar: bool,
    /// Whether the user is asked if they want to end everything.
    pub quit_confirm: bool,
    /// Whether there is a connection to the chat server.
    pub has_matrix: bool,
    /// The rooms on the chat server.
    pub cached_rooms: Vec<(String, String)>,
    /// Whether the screen has to be drawn anew.
    pub needs_clear: bool,
    /// The agents.
    pub agents: Vec<AgentEntry>,
    /// The agent in view, if one is.
    pub focused_agent: Option<usize>,
    /// The name of the chat server.
    pub server_name: String,
}

/// The program's state, as a value.
#[verifier::ext_equal]
pub struct AppModel {
    pub rooms: Seq<RoomModel>,
    pub focused_room: nat,
    pub mode: InputMode,
    pub picker: Option<PickerModel>,
    pub show_sidebar: bool,
    pub quit_confirm: bool,
    pub has_matrix: bool,
    pub cached_rooms: Seq<(Seq<char>, Seq<char>)>,
    pub needs_clear: bool,
    pub agents: Seq<AgentEntry>,
    pub focused_agent: Option<usize>,
    pub server_name: Seq<char>,
}

/// A search that may be there, as a value.
pub open spec fn picker_model(p: Option<Picker>) -> Option<PickerModel> {
    match p {
        Some(picker) => Some(picker@),
        None => None,
    }
}

impl View for App {
    type V = AppModel;

    open spec fn view(&self) -> AppModel {
        AppModel {
            rooms: room_models(self.rooms@),
            focused_room: self.focused_room as nat,
            mode: self.input_mode,
            picker: picker_model(self.picker),
            show_sidebar: self.show_sidebar,
            quit_confirm: self.quit_confirm,
            has_matrix: self.has_matrix,
            cached_rooms: pair_models(self.cached_rooms@),
            needs_clear: self.needs_clear,
            agents: self.agents@,
            focused_agent: self.focused_agent,
            server_name: self.server_name@,
        }
    }
}

/// The places of the channels among the first `n` rooms: those that are not for talking to
/// an agent.
pub open spec fn channel_list<A: HasAgentName>(agents: Seq<A>, n: nat) -> Seq<int>
    decreases n,
{
    if n == 0 {
        Seq::empty()
    } else {
        let before = channel_list(agents, (n - 1) as nat);
        if is_dm(agents, n - 1) {
            before
        } else {
            before.push(n - 1)
        }
    }
}

/// The place of a number in a list, or 0 if it is not there.
pub open spec fn place_in(s: Seq<int>, x: int) -> int {
    if s.contains(x) {
        s.index_of(x)
    } else {
        0
    }
}

/// The state after something has happened, and what has to be done outside.
pub type Step = (AppModel, Seq<EffectModel>);

/// A state, with nothing to be done.
pub open spec fn quietly(a: AppModel) -> Step {
    (a, Seq::empty())
}

impl AppModel {
    /// What always holds: there is a room in view, rooms are well-formed, every agent that
    /// has a room has one of its own, an agent in view has one, and what a search has found is
    /// there.
    pub open spec fn wf(self) -> bool {
        &&& self.focused_room < self.rooms.len()
        &&& self.rooms.len() + self.agents.len() <= usize::MAX
        &&& forall|i: int| 0 <= i < self.rooms.len() ==> (#[trigger] self.rooms[i]).wf()
        &&& forall|a: int|
            0 <= a < self.agents.len() && (#[trigger] self.agents[a]).dm_room_idx is Some
                ==> self.agents[a].dm_room_idx->0 < self.rooms.len()
        &&& forall|a: int, b: int|
            0 <= a < b < self.agents.len() && (#[trigger] self.agents[a]).dm_room_idx is Some
                ==> self.agents[a].dm_room_idx != (#[trigger] self.agents[b]).dm_room_idx
        &&& self.focused_agent matches Some(a) ==> a < self.agents.len()
            && self.agents[a as int].dm_room_idx is Some
        &&& self.picker matches Some(p) ==> items_exist(self.rooms, self.agents, p.filtered)
    }

    /// The place of the room in view: that of the agent in view, or else the channel's.
    pub open spec fn focused_idx(self) -> int {
        match self.focused_agent {
            Some(a) => if a < self.agents.len() && self.agents[a as int].dm_room_idx is Some {
                self.agents[a as int].dm_room_idx->0 as int
            } else {
                self.focused_room as int
            },
            None => self.focused_room as int,
        }
    }

    /// The room in view.
    pub open spec fn in_view(self) -> RoomModel {
        self.rooms[self.focused_idx()]
    }

    /// The state with one room changed.
    pub open spec fn with_room(self, i: int, r: RoomModel) -> AppModel {
        AppModel { rooms: self.rooms.update(i, r), ..self }
    }

    /// The channels.
    pub open spec fn channels(self) -> Seq<int> {
        channel_list(self.agents, self.rooms.len())
    }

    /// The agents, in the order of their names.
    pub open spec fn agent_list(self) -> Seq<int> {
        listing_of(agent_names(self.agents))
    }

    /// How many things there are to go to.
    pub open spec fn nav_count(self) -> nat {
        self.channels().len() + self.agents.len()
    }

    /// The place of what is in view among the things to go to: channels, and then agents.
    pub open spec fn nav_place(self) -> int {
        match self.focused_agent {
            Some(a) => self.channels().len() + place_in(self.agent_list(), a as int),
            None => place_in(self.channels(), self.focused_room as int),
        }
    }

    /// The state with the terminals of a room disconnected.
    pub open spec fn with_room_left(self, i: int) -> AppModel {
        self.with_room(i, self.rooms[i].all_disconnected())
    }

    /// The state once what was new in a room has been seen.
    pub open spec fn with_room_seen(self, i: int) -> AppModel {
        self.with_room(i, self.rooms[i].seen())
    }

    /// What has to be done for a room that has come into view.
    pub open spec fn connect_effects(self, i: int) -> Seq<EffectModel> {
        if self.rooms[i].shown().wants_connection() {
            seq![EffectModel::Connect { room: i as nat, screen: self.rooms[i].current }]
        } else {
            Seq::empty()
        }
    }

    /// After a room was brought into view. A room that is not there is not.
    pub open spec fn switched_to(self, idx: int) -> Step {
        if !(0 <= idx < self.rooms.len()) {
            quietly(self)
        } else if idx == self.focused_idx() {
            quietly(
                (AppModel { focused_agent: None, focused_room: idx as nat, ..self }).with_room_seen(idx),
            )
        } else {
            let left = AppModel {
                focused_agent: None,
                focused_room: idx as nat,
                needs_clear: true,
                ..self.with_room_left(self.focused_idx())
            };
            (left.with_room_seen(idx), left.connect_effects(idx))
        }
    }

    /// After the room of an agent was brought into view. If it is not open yet, it has to be
    /// opened, which takes the chat server.
    pub open spec fn agent_opened(self, a: int) -> Step {
        if !(0 <= a < self.agents.len()) {
            quietly(self)
        } else {
            match self.agents[a].dm_room_idx {
                Some(d) => if d == self.focused_idx() {
                    quietly(
                        (AppModel { focused_agent: Some(a as usize), ..self }).with_room_seen(d as int),
                    )
                } else {
                    let left = AppModel {
                        focused_agent: Some(a as usize),
                        needs_clear: true,
                        ..self.with_room_left(self.focused_idx())
                    };
                    (left.with_room_seen(d as int), left.connect_effects(d as int))
                },
                None => if self.has_matrix {
                    (
                        self,
                        seq![
                            EffectModel::CreateDm {
                                agent: a as nat,
                                user_id: user_id_is(self.agents[a].config.name@, self.server_name),
                            },
                        ],
                    )
                } else {
                    quietly(self)
                },
            }
        }
    }

    /// After the room of an agent was opened on the chat server: it is in view.
    pub open spec fn dm_opened(self, a: int, room_id: Seq<char>) -> AppModel {
        let left = self.with_room_left(self.focused_idx());
        AppModel {
            rooms: left.rooms.push(RoomModel::chat_only(room_id, self.agents[a].config.name@)),
            agents: self.agents.update(
                a,
                AgentEntry { dm_room_idx: Some(self.rooms.len() as usize), ..self.agents[a] },
            ),
            focused_agent: Some(a as usize),
            needs_clear: true,
            ..left
        }
    }

    /// After going to a place among the things to go to.
    pub open spec fn went_to(self, pos: int) -> Step {
        let channels = self.channels();
        let agents = self.agent_list();
        if 0 <= pos < channels.len() {
            self.switched_to(channels[pos])
        } else if 0 <= pos - channels.len() < agents.len() {
            self.agent_opened(agents[pos - channels.len()])
        } else {
            quietly(self)
        }
    }

    /// After going to the next thing; behind the last comes the first.
    pub open spec fn went_next(self) -> Step {
        if self.nav_count() == 0 {
            quietly(self)
        } else {
            self.went_to((self.nav_place() + 1) % (self.nav_count() as int))
        }
    }

    /// After going to the thing before; before the first comes the last.
    pub open spec fn went_prev(self) -> Step {
        if self.nav_count() == 0 {
            quietly(self)
        } else if self.nav_place() == 0 {
            self.went_to(self.nav_count() - 1)
        } else {
            self.went_to(self.nav_place() - 1)
        }
    }

    /// After another screen of the room in view was brought into view, if there was one.
    pub open spec fn screen_moved(self, moved: RoomModel) -> Step {
        let i = self.focused_idx();
        let room = self.in_view();
        if moved.current == room.current {
            quietly(self.with_room(i, moved.seen()))
        } else {
            let left = moved.with_screen(
                room.current as int,
                moved.screens[room.current as int].without_connection(),
            );
            (
                (AppModel { needs_clear: true, ..self }).with_room(i, left.seen()),
                if left.shown().wants_connection() {
                    seq![EffectModel::Connect { room: i as nat, screen: left.current }]
                } else {
                    Seq::empty()
                },
            )
        }
    }
}

// ---------------------------------------------------------------------------
// Lists
// ---------------------------------------------------------------------------

/// The channels are listed in the order of their places, all of them and nothing else.
pub proof fn lemma_channel_list<A: HasAgentName>(agents: Seq<A>, n: nat)
    ensures
        channel_list(agents, n).len() <= n,
        forall|k: int|
            0 <= k < channel_list(agents, n).len() ==> 0 <= #[trigger] channel_list(agents, n)[k] < n
                && !is_dm(agents, channel_list(agents, n)[k]),
        forall|j: int, k: int|
            0 <= j < k < channel_list(agents, n).len() ==> #[trigger] channel_list(agents, n)[j]
                < #[trigger] channel_list(agents, n)[k],
        forall|i: int|
            0 <= i < n && !#[trigger] is_dm(agents, i) ==> channel_list(agents, n).contains(i),
    decreases n,
{
    if n > 0 {
        let m = (n - 1) as nat;
        let before = channel_list(agents, m);
        let all = channel_list(agents, n);
        lemma_channel_list(agents, m);
        assert forall|k: int| 0 <= k < all.len() implies 0 <= #[trigger] all[k] < n && !is_dm(
            agents,
            all[k],
        ) by {
            if k < before.len() {
                assert(all[k] == before[k]);
            }
        }
        assert forall|j: int, k: int| 0 <= j < k < all.len() implies #[trigger] all[j]
            < #[trigger] all[k] by {
            assert(all[j] == before[j]);
            if k < before.len() {
                assert(all[k] == before[k]);
            }
        }
        assert forall|i: int| 0 <= i < n && !#[trigger] is_dm(agents, i) implies all.contains(i) by {
            if i == m {
                assert(all.last() == i);
            } else {
                assert(before.contains(i));
                let k = choose|k: int| 0 <= k < before.len() && before[k] == i;
                assert(all[k] == i);
            }
        }
    }
}

/// Where a number stands in a list that holds it once.
pub proof fn lemma_place_in(s: Seq<int>, k: int)
    requires
        0 <= k < s.len(),
        s.no_duplicates(),
    ensures
        place_in(s, s[k]) == k,
{
    assert(s.contains(s[k]));
    let i = s.index_of(s[k]);
    assert(0 <= i < s.len() && s[i] == s[k]);
}

impl AppModel {
    /// The channels are listed once each.
    pub proof fn lemma_channels(self)
        ensures
            self.channels().no_duplicates(),
            self.channels().len() <= self.rooms.len(),
            forall|k: int|
                0 <= k < self.channels().len() ==> 0 <= #[trigger] self.channels()[k] < self.rooms.len(),
    {
        lemma_channel_list(self.agents, self.rooms.len());
    }

    /// The agents are listed once each.
    pub proof fn lemma_agents(self)
        ensures
            is_listing(agent_names(self.agents), self.agent_list()),
            self.agent_list().no_duplicates(),
            self.agent_list().len() == self.agents.len(),
            forall|k: int|
                0 <= k < self.agent_list().len() ==> 0 <= #[trigger] self.agent_list()[k]
                    < self.agents.len(),
    {
        crate::text::lemma_listing_exists(agent_names(self.agents));
    }

    /// What is in view has a place among the things to go to.
    pub proof fn lemma_nav_place(self)
        ensures
            0 <= self.nav_place(),
            self.wf() && self.nav_count() > 0 ==> self.nav_place() < self.nav_count(),
    {
        self.lemma_channels();
        self.lemma_agents();
        match self.focused_agent {
            Some(a) => {
                if self.agent_list().contains(a as int) {
                    let i = self.agent_list().index_of(a as int);
                    assert(0 <= i < self.agent_list().len());
                }
                if self.wf() {
                    lemma_listing_complete(agent_names(self.agents), self.agent_list(), a as int);
                }
            },
            None => {
                if self.channels().contains(self.focused_room as int) {
                    let i = self.channels().index_of(self.focused_room as int);
                    assert(0 <= i < self.channels().len());
                }
            },
        }
    }

    /// A state stays well-formed when a room is changed into another.
    pub proof fn lemma_room_changed(self, i: int, r: RoomModel)
        requires
            self.wf(),
            0 <= i < self.rooms.len(),
            r.wf(),
        ensures
            self.with_room(i, r).wf(),
            self.with_room(i, r).focused_idx() == self.focused_idx(),
    {
        let b = self.with_room(i, r);
        assert forall|k: int| 0 <= k < b.rooms.len() implies (#[trigger] b.rooms[k]).wf() by {
            if k != i {
                assert(b.rooms[k] == self.rooms[k]);
            }
        }
    }

    /// The room in view is there.
    pub proof fn lemma_in_view(self)
        requires
            self.wf(),
        ensures
            0 <= self.focused_idx() < self.rooms.len(),
            self.in_view().wf(),
    {
    }
}

// ---------------------------------------------------------------------------
// Moving around
// ---------------------------------------------------------------------------

impl App {
    /// The state at the start: the first room is in view, and the list at the side is shown
    /// if the screen is wide enough.
    pub fn new(
        rooms: Vec<RoomView>,
        cols: u16,
        has_matrix: bool,
        agents: Vec<AgentEntry>,
        server_name: String,
    ) -> (a: App)
        ensures
            a@ == (AppModel {
                rooms: room_models(rooms@),
                focused_room: 0,
                mode: InputMode::Normal,
                picker: None,
                show_sidebar: cols >= MOBILE_WIDTH_THRESHOLD,
                quit_confirm: false,
                has_matrix,
                cached_rooms: Seq::empty(),
                needs_clear: false,
                agents: agents@,
                focused_agent: None,
                server_name: server_name@,
            }),
    {
        let a = App {
            rooms,
            focused_room: 0,
            input_mode: InputMode::default(),
            picker: None,
            show_sidebar: cols >= MOBILE_WIDTH_THRESHOLD,
            quit_confirm: false,
            has_matrix,
            cached_rooms: Vec::new(),
            needs_clear: false,
            agents,
            focused_agent: None,
            server_name,
        };
        assert(a@.cached_rooms =~= Seq::<(Seq<char>, Seq<char>)>::empty());
        a
    }

    /// The place of the room in view.
    pub fn focused_room_idx(&self) -> (i: usize)
        ensures
            i == self@.focused_idx(),
    {
        if let Some(a) = self.focused_agent {
            if a < self.agents.len() {
                if let Some(d) = self.agents[a].dm_room_idx {
                    return d;
                }
            }
        }
        self.focused_room
    }

    /// The room in view.
    pub fn focused_room(&self) -> (r: &RoomView)
        requires
            self@.wf(),
        ensures
            r@ == self@.in_view(),
    {
        proof {
            self@.lemma_in_view();
        }
        let i = self.focused_room_idx();
        &self.rooms[i]
    }

    /// The places of the channels.
    pub fn channel_indices(&self) -> (r: Vec<usize>)
        ensures
            places(r@) == self@.channels(),
    {
        let mut r: Vec<usize> = Vec::new();
        let mut i: usize = 0;
        assert(places(r@) =~= Seq::<int>::empty());
        while i < self.rooms.len()
            invariant
                i <= self.rooms@.len(),
                places(r@) == channel_list(self.agents@, i as nat),
            decreases self.rooms@.len() - i,
        {
            let ghost before = places(r@);
            let mut dm = false;
            let mut a: usize = 0;
            while a < self.agents.len()
                invariant
                    a <= self.agents@.len(),
                    dm <==> exists|k: int|
                        0 <= k < a && #[trigger] self.agents@[k].spec_dm_room_idx() == Some(i),
                decreases self.agents@.len() - a,
            {
                if let Some(idx) = self.agents[a].dm_room_idx {
                    if idx == i {
                        assert(self.agents@[a as int].spec_dm_room_idx() == Some(i));
                        dm = true;
                    }
                }
                a = a + 1;
            }
            assert(dm == is_dm(self.agents@, i as int));
            if !dm {
                r.push(i);
                assert(places(r@) =~= before.push(i as int));
            }
            i = i + 1;
        }
        r
    }

    /// The places of the agents, in the order of their names.
    pub fn sorted_agents(&self) -> (r: Vec<usize>)
        ensures
            places(r@) == self@.agent_list(),
    {
        agent_order(self.agents.as_slice())
    }

    /// How many things there are to go to.
    pub fn nav_item_count(&self) -> (n: usize)
        requires
            self@.wf(),
        ensures
            n == self@.nav_count(),
    {
        proof {
            self@.lemma_channels();
        }
        self.channel_indices().len() + self.agents.len()
    }

    /// The place of what is in view among the things to go to.
    pub fn nav_position(&self) -> (n: usize)
        requires
            self@.wf(),
        ensures
            n == self@.nav_place(),
    {
        let channels = self.channel_indices();
        proof {
            self@.lemma_channels();
            self@.lemma_agents();
        }
        if let Some(agent) = self.focused_agent {
            let sorted = self.sorted_agents();
            let k = place_of_number(&sorted, agent);
            proof {
                lemma_listing_complete(agent_names(self.agents@), self@.agent_list(), agent as int);
            }
            channels.len() + k
        } else {
            place_of_number(&channels, self.focused_room)
        }
    }

    /// Goes to a place among the things to go to.
    pub fn nav_to_position(&mut self, pos: usize) -> (fx: Vec<Effect>)
        requires
            old(self)@.wf(),
        ensures
            final(self)@ == old(self)@.went_to(pos as int).0,
            effect_models(fx@) == old(self)@.went_to(pos as int).1,
            final(self)@.wf(),
    {
        let channels = self.channel_indices();
        proof {
            self@.lemma_channels();
            self@.lemma_agents();
        }
        if pos < channels.len() {
            assert(self@.channels()[pos as int] == channels@[pos as int]);
            self.switch_to_room(channels[pos])
        } else {
            let sorted = self.sorted_agents();
            let agent = pos - channels.len();
            if agent < sorted.len() {
                assert(self@.agent_list()[agent as int] == sorted@[agent as int]);
                self.open_agent_dm(sorted[agent])
            } else {
                nothing()
            }
        }
    }

    /// Goes to the next thing.
    pub fn next_room(&mut self) -> (fx: Vec<Effect>)
        requires
            old(self)@.wf(),
        ensures
            final(self)@ == old(self)@.went_next().0,
            effect_models(fx@) == old(self)@.went_next().1,
            final(self)@.wf(),
    {
        let count = self.nav_item_count();
        if count == 0 {
            return nothing();
        }
        proof {
            self@.lemma_nav_place();
        }
        let pos = (self.nav_position() + 1) % count;
        self.nav_to_position(pos)
    }

    /// Goes to the thing before.
    pub fn prev_room(&mut self) -> (fx: Vec<Effect>)
        requires
            old(self)@.wf(),
        ensures
            final(self)@ == old(self)@.went_prev().0,
            effect_models(fx@) == old(self)@.went_prev().1,
            final(self)@.wf(),
    {
        let count = self.nav_item_count();
        if count == 0 {
            return nothing();
        }
        let at = self.nav_position();
        let pos = if at == 0 { count - 1 } else { at - 1 };
        self.nav_to_position(pos)
    }

    /// Changes a room: its terminals are disconnected.
    fn leave_room(&mut self, i: usize)
        requires
            old(self)@.wf(),
            i < old(self)@.rooms.len(),
        ensures
            final(self)@ == old(self)@.with_room_left(i as int),
            final(self)@.wf(),
    {
        let ghost start = self@;
        self.rooms[i].on_focus_lost();
        proof {
            assert(self@.rooms =~= start.with_room_left(i as int).rooms);
            lemma_disconnected_wf(start.rooms[i as int]);
            start.lemma_room_changed(i as int, start.rooms[i as int].all_disconnected());
        }
    }

    /// Changes a room: what was new has been seen.
    fn see_room(&mut self, i: usize)
        requires
            old(self)@.wf(),
            i < old(self)@.rooms.len(),
        ensures
            final(self)@ == old(self)@.with_room_seen(i as int),
            final(self)@.wf(),
    {
        let ghost start = self@;
        self.rooms[i].clear_current_activity();
        proof {
            assert(self@.rooms =~= start.with_room_seen(i as int).rooms);
            lemma_seen_wf(start.rooms[i as int]);
            start.lemma_room_changed(i as int, start.rooms[i as int].seen());
        }
    }

    /// What has to be done for a room that has come into view.
    fn enter_room(&self, i: usize) -> (fx: Vec<Effect>)
        requires
            self@.wf(),
            i < self@.rooms.len(),
        ensures
            effect_models(fx@) == self@.connect_effects(i as int),
    {
        assert(self@.rooms[i as int].wf());
        if self.rooms[i].on_focus_gained() {
            let screen = self.rooms[i].current_screen_index();
            only(Effect::Connect { room: i, screen })
        } else {
            nothing()
        }
    }

    /// Brings a room into view.
    pub fn switch_to_room(&mut self, idx: usize) -> (fx: Vec<Effect>)
        requires
            old(self)@.wf(),
        ensures
            final(self)@ == old(self)@.switched_to(idx as int).0,
            effect_models(fx@) == old(self)@.switched_to(idx as int).1,
            final(self)@.wf(),
    {
        if idx >= self.rooms.len() {
            return nothing();
        }
        let ghost start = self@;
        proof {
            start.lemma_in_view();
        }
        let old_idx = self.focused_room_idx();
        if idx == old_idx {
            self.focused_agent = None;
            self.focused_room = idx;
            self.see_room(idx);
            return nothing();
        }
        self.leave_room(old_idx);
        self.focused_agent = None;
        self.focused_room = idx;
        self.needs_clear = true;
        let fx = self.enter_room(idx);
        self.see_room(idx);
        fx
    }

    /// Brings the room of an agent into view.
    pub fn open_agent_dm(&mut self, agent_idx: usize) -> (fx: Vec<Effect>)
        requires
            old(self)@.wf(),
        ensures
            final(self)@ == old(self)@.agent_opened(agent_idx as int).0,
            effect_models(fx@) == old(self)@.agent_opened(agent_idx as int).1,
            final(self)@.wf(),
    {
        if agent_idx >= self.agents.len() {
            return nothing();
        }
        let ghost start = self@;
        proof {
            start.lemma_in_view();
        }
        let old_idx = self.focused_room_idx();
        match self.agents[agent_idx].dm_room_idx {
            Some(dm_idx) => {
                assert(start.agents[agent_idx as int].dm_room_idx is Some);
                if dm_idx == old_idx {
                    self.focused_agent = Some(agent_idx);
                    self.see_room(dm_idx);
                    return nothing();
                }
                self.leave_room(old_idx);
                self.focused_agent = Some(agent_idx);
                self.needs_clear = true;
                let fx = self.enter_room(dm_idx);
                self.see_room(dm_idx);
                fx
            },
            None => {
                if self.has_matrix {
                    let user_id = user_id_of(
                        self.agents[agent_idx].config.name.as_str(),
                        self.server_name.as_str(),
                    );
                    only(Effect::CreateDm { agent: agent_idx, user_id })
                } else {
                    nothing()
                }
            },
        }
    }

    /// Notes that the room of an agent was opened on the chat server.
    pub fn dm_created(&mut self, agent_idx: usize, room_id: String)
        requires
            old(self)@.wf(),
            agent_idx < old(self)@.agents.len(),
            old(self)@.agents[agent_idx as int].dm_room_idx is None,
            old(self)@.rooms.len() + old(self)@.agents.len() < usize::MAX,
        ensures
            final(self)@ == old(self)@.dm_opened(agent_idx as int, room_id@),
            final(self)@.wf(),
    {
        let ghost start = self@;
        proof {
            start.lemma_in_view();
        }
        let old_idx = self.focused_room_idx();
        self.leave_room(old_idx);
        let ghost left = self@;
        let room = RoomView::new(room_id, self.agents[agent_idx].config.name.clone());
        let new_idx = self.rooms.len();
        let ghost model = room@;
        self.rooms.push(room);
        assert(room_models(self.rooms@) =~= left.rooms.push(model));
        self.agents[agent_idx].dm_room_idx = Some(new_idx);
        self.focused_agent = Some(agent_idx);
        self.needs_clear = true;
        proof {
            let target = start.dm_opened(agent_idx as int, room_id@);
            assert(self@.agents =~= target.agents);
            assert(self@ =~= target);
            assert forall|i: int| 0 <= i < target.rooms.len() implies (#[trigger] target.rooms[i]).wf() by {
                if i < left.rooms.len() {
                    assert(left.rooms[i].wf());
                }
            }
            assert forall|a: int|
                0 <= a < target.agents.len() && (#[trigger] target.agents[a]).dm_room_idx is Some
                    implies target.agents[a].dm_room_idx->0 < target.rooms.len() by {
                if a != agent_idx {
                    assert(start.agents[a].dm_room_idx is Some);
                }
            }
            assert forall|a: int, b: int|
                0 <= a < b < target.agents.len() && (#[trigger] target.agents[a]).dm_room_idx is Some
                    implies target.agents[a].dm_room_idx != (#[trigger] target.agents[b]).dm_room_idx by {
                if a != agent_idx && b != agent_idx {
                    assert(start.agents[a].dm_room_idx != start.agents[b].dm_room_idx);
                } else if a == agent_idx {
                    assert(target.agents[b] == start.agents[b]);
                } else {
                    assert(target.agents[a] == start.agents[a]);
                }
            }
        }
    }
}

/// The place of a number in a list, or 0 if it is not there.
fn place_of_number(v: &Vec<usize>, x: usize) -> (k: usize)
    requires
        places(v@).no_duplicates(),
    ensures
        k == place_in(places(v@), x as int),
        k < v@.len() || k == 0,
{
    let ghost s = places(v@);
    let mut k: usize = 0;
    while k < v.len()
        invariant
            k <= v@.len(),
            s == places(v@),
            s.no_duplicates(),
            forall|j: int| 0 <= j < k ==> v@[j] != x,
        decreases v@.len() - k,
    {
        if v[k] == x {
            proof {
                lemma_place_in(s, k as int);
            }
            return k;
        }
        k = k + 1;
    }
    assert(!s.contains(x as int)) by {
        if s.contains(x as int) {
            let j = choose|j: int| 0 <= j < s.len() && s[j] == x;
            assert(v@[j] == x);
        }
    }
    0
}

// ---------------------------------------------------------------------------
// Laws
// ---------------------------------------------------------------------------

impl AppModel {
    /// Whether going to a place leads there at once: to a channel always, to an agent if its
    /// room is open.
    pub open spec fn leads_there(self, pos: int) -> bool {
        let n = self.channels().len();
        0 <= pos < n || 0 <= pos - n < self.agents.len() && self.agents[self.agent_list()[pos - n]].dm_room_idx is Some
    }
}

/// Going to a place leads to that place.
pub proof fn law_going_leads_there(a: AppModel, pos: int)
    requires
        a.wf(),
        a.leads_there(pos),
    ensures
        a.went_to(pos).0.nav_place() == pos,
        a.went_to(pos).0.nav_count() == a.nav_count(),
{
    a.lemma_channels();
    a.lemma_agents();
    let b = a.went_to(pos).0;
    let n = a.channels().len();
    if pos < n {
        assert(0 <= a.channels()[pos] < a.rooms.len());
        lemma_place_in(a.channels(), pos);
        assert(b.focused_agent is None && b.focused_room == a.channels()[pos]);
    } else {
        let k = pos - n;
        assert(0 <= a.agent_list()[k] < a.agents.len());
        lemma_place_in(a.agent_list(), k);
        assert(b.focused_agent == Some(a.agent_list()[k] as usize));
    }
}

/// Going on and then back, or back and then on, ends where it began.
pub proof fn law_next_and_prev_undo_each_other(a: AppModel)
    requires
        a.wf(),
        a.nav_count() > 0,
        a.leads_there(a.nav_place()),
    ensures
        a.leads_there((a.nav_place() + 1) % (a.nav_count() as int))
            ==> a.went_next().0.went_prev().0.nav_place() == a.nav_place(),
        a.nav_place() > 0 && a.leads_there(a.nav_place() - 1)
            ==> a.went_prev().0.went_next().0.nav_place() == a.nav_place(),
        a.nav_place() == 0 && a.leads_there(a.nav_count() - 1)
            ==> a.went_prev().0.went_next().0.nav_place() == a.nav_place(),
{
    a.lemma_nav_place();
    let p = a.nav_place();
    let n = a.nav_count() as int;
    let q = (p + 1) % n;
    if a.leads_there(q) {
        law_going_leads_there(a, q);
        let b = a.went_to(q).0;
        lemma_going_keeps_wf(a, q);
        assert(b.leads_there(p));
        if p + 1 < n {
            assert(q == p + 1) by (nonlinear_arith)
                requires
                    0 <= p,
                    p + 1 < n,
                    q == (p + 1) % n,
            ;
        } else {
            assert(q == 0) by (nonlinear_arith)
                requires
                    p + 1 == n,
                    n > 0,
                    q == (p + 1) % n,
            ;
        }
        law_going_leads_there(b, p);
    }
    let r = if p == 0 {
        n - 1
    } else {
        p - 1
    };
    if a.leads_there(r) {
        law_going_leads_there(a, r);
        let b = a.went_to(r).0;
        lemma_going_keeps_wf(a, r);
        assert(b.leads_there(p));
        assert((r + 1) % n == p) by (nonlinear_arith)
            requires
                0 <= p < n,
                p == 0 ==> r == n - 1,
                p > 0 ==> r == p - 1,
        ;
        law_going_leads_there(b, p);
    }
}

/// Going somewhere keeps the state well-formed, and the lists as they are.
proof fn lemma_going_keeps_wf(a: AppModel, pos: int)
    requires
        a.wf(),
        a.leads_there(pos),
    ensures
        a.went_to(pos).0.wf(),
        a.went_to(pos).0.agents == a.agents,
        a.went_to(pos).0.rooms.len() == a.rooms.len(),
{
    a.lemma_channels();
    a.lemma_agents();
    let n = a.channels().len();
    if pos < n {
        let u = AppModel { focused_agent: None, ..a };
        assert(0 <= a.channels()[pos] < a.rooms.len());
        lemma_switch_keeps_wf(u, a.channels()[pos]);
    } else {
        let k = a.agent_list()[pos - n];
        assert(0 <= k < a.agents.len());
        lemma_open_keeps_wf(a, k);
    }
}

proof fn lemma_left_and_seen(a: AppModel, i: int, j: int)
    requires
        a.wf(),
        0 <= i < a.rooms.len(),
        0 <= j < a.rooms.len(),
    ensures
        a.with_room_left(i).wf(),
        a.with_room_seen(j).wf(),
        a.with_room_left(i).with_room_seen(j).wf(),
{
    lemma_disconnected_wf(a.rooms[i]);
    a.lemma_room_changed(i, a.rooms[i].all_disconnected());
    lemma_seen_wf(a.rooms[j]);
    a.lemma_room_changed(j, a.rooms[j].seen());
    let b = a.with_room_left(i);
    lemma_seen_wf(b.rooms[j]);
    b.lemma_room_changed(j, b.rooms[j].seen());
}

proof fn lemma_switch_keeps_wf(a: AppModel, idx: int)
    requires
        a.wf(),
        0 <= idx < a.rooms.len(),
    ensures
        a.switched_to(idx).0.wf(),
{
    a.lemma_in_view();
    lemma_left_and_seen(a, a.focused_idx(), idx);
}

proof fn lemma_open_keeps_wf(a: AppModel, k: int)
    requires
        a.wf(),
        0 <= k < a.agents.len(),
        a.agents[k].dm_room_idx is Some,
    ensures
        a.agent_opened(k).0.wf(),
{
    a.lemma_in_view();
    lemma_left_and_seen(a, a.focused_idx(), a.agents[k].dm_room_idx->0 as int);
}

/// Whether a terminal in view is connected or is about to be: its connection has to be made.
pub open spec fn is_served(step: Step) -> bool {
    step.0.in_view().shown().wants_connection() ==> step.1.contains(
        EffectModel::Connect { room: step.0.focused_idx() as nat, screen: step.0.in_view().current },
    )
}

/// The terminal of a room that comes into view is connected or is about to be, whether the room
/// is a channel or one of an agent, and wherever one comes from.
pub proof fn law_rooms_in_view_are_connected(a: AppModel, idx: int, k: int, pos: int)
    requires
        a.wf(),
    ensures
        a.switched_to(idx).0.focused_idx() != a.focused_idx() ==> is_served(a.switched_to(idx)),
        a.agent_opened(k).0.focused_idx() != a.focused_idx() ==> is_served(a.agent_opened(k)),
        a.went_to(pos).0.focused_idx() != a.focused_idx() ==> is_served(a.went_to(pos)),
{
    lemma_switch_serves(a, idx);
    lemma_open_serves(a, k);
    let channels = a.channels();
    let agents = a.agent_list();
    if 0 <= pos < channels.len() {
        lemma_switch_serves(a, channels[pos]);
    } else if 0 <= pos - channels.len() < agents.len() {
        lemma_open_serves(a, agents[pos - channels.len()]);
    }
}

pub proof fn lemma_switch_serves(a: AppModel, idx: int)
    requires
        a.wf(),
    ensures
        a.switched_to(idx).0.focused_idx() != a.focused_idx() ==> is_served(a.switched_to(idx)),
{
    a.lemma_in_view();
    if 0 <= idx < a.rooms.len() && idx != a.focused_idx() {
        let (b, fx) = a.switched_to(idx);
        assert(b.focused_idx() == idx);
        assert(b.in_view() == a.rooms[idx].seen());
        lemma_seen_connection(a.rooms[idx]);
        if b.in_view().shown().wants_connection() {
            assert(fx[0] == EffectModel::Connect { room: idx as nat, screen: b.in_view().current });
        }
    }
}

pub proof fn lemma_open_serves(a: AppModel, k: int)
    requires
        a.wf(),
    ensures
        a.agent_opened(k).0.focused_idx() != a.focused_idx() ==> is_served(a.agent_opened(k)),
{
    a.lemma_in_view();
    if 0 <= k < a.agents.len() && a.agents[k].dm_room_idx is Some {
        let d = a.agents[k].dm_room_idx->0 as int;
        if d != a.focused_idx() {
            let (b, fx) = a.agent_opened(k);
            assert(b.focused_idx() == d);
            assert(b.in_view() == a.rooms[d].seen());
            lemma_seen_connection(a.rooms[d]);
            if b.in_view().shown().wants_connection() {
                assert(fx[0] == EffectModel::Connect { room: d as nat, screen: b.in_view().current });
            }
        }
    }
}

/// Seeing what is new on a screen leaves its connection as it is.
proof fn lemma_seen_connection(r: RoomModel)
    requires
        r.wf(),
    ensures
        r.seen().current == r.current,
        r.seen().shown().wants_connection() == r.shown().wants_connection(),
{
}

/// A room that was brought into view is in view, and nothing is new on its screen. Of the
/// other rooms only the one that was left changes: its terminals are disconnected.
pub proof fn law_switching_rooms(a: AppModel, idx: int, other: int)
    requires
        a.wf(),
        0 <= idx < a.rooms.len(),
        0 <= other < a.rooms.len(),
        other != idx,
    ensures
        a.switched_to(idx).0.focused_idx() == idx,
        a.switched_to(idx).0.in_view().shown().activity() == crate::pty::ActivityState::Idle,
        a.switched_to(idx).0.rooms[other] == if other == a.focused_idx() {
            a.rooms[other].all_disconnected()
        } else {
            a.rooms[other]
        },
        a.switched_to(idx).0.switched_to(idx).0 == a.switched_to(idx).0,
        a.switched_to(idx).0.switched_to(idx).1.len() == 0,
{
    a.lemma_in_view();
    lemma_switch_keeps_wf(a, idx);
    let b = a.switched_to(idx).0;
    let room = if idx == a.focused_idx() {
        a.rooms[idx]
    } else {
        a.with_room_left(a.focused_idx()).rooms[idx]
    };
    assert(b.rooms[idx] == room.seen());
    assert(a.rooms[idx].wf());
    crate::room_view::law_seen_screen_is_idle(room);
    assert(b.with_room_seen(idx).rooms =~= b.rooms);
}

/// A room that was opened for talking to an agent is in view, is no channel, and leaves the
/// list of channels as it was.
pub proof fn law_rooms_of_agents_are_no_channels(a: AppModel, k: int, room_id: Seq<char>)
    requires
        a.wf(),
        0 <= k < a.agents.len(),
        a.agents[k].dm_room_idx is None,
        a.rooms.len() < usize::MAX,
    ensures
        a.dm_opened(k, room_id).focused_idx() == a.rooms.len(),
        a.dm_opened(k, room_id).in_view() == RoomModel::chat_only(room_id, a.agents[k].config.name@),
        a.dm_opened(k, room_id).channels() == a.channels(),
{
    a.lemma_in_view();
    let b = a.dm_opened(k, room_id);
    let n = a.rooms.len();
    assert(b.agents[k].spec_dm_room_idx() == Some(n as usize));
    assert(is_dm(b.agents, n as int));
    lemma_same_channels(a.agents, b.agents, k, n);
}

proof fn lemma_same_channels(before: Seq<AgentEntry>, after: Seq<AgentEntry>, k: int, n: nat)
    requires
        0 <= k < before.len() == after.len(),
        before[k].dm_room_idx is None,
        after[k].dm_room_idx is Some,
        after[k].dm_room_idx->0 >= n,
        n <= usize::MAX,
        forall|i: int| 0 <= i < before.len() && i != k ==> before[i] == after[i],
    ensures
        channel_list(after, n) == channel_list(before, n),
    decreases n,
{
    if n > 0 {
        lemma_same_channels(before, after, k, (n - 1) as nat);
        let i = n - 1;
        assert(is_dm(before, i) == is_dm(after, i)) by {
            if is_dm(before, i) {
                let d = choose|d: int|
                    0 <= d < before.len() && #[trigger] before[d].spec_dm_room_idx() == Some(i as usize);
                assert(after[d].spec_dm_room_idx() == Some(i as usize));
            }
            if is_dm(after, i) {
                let d = choose|d: int|
                    0 <= d < after.len() && #[trigger] after[d].spec_dm_room_idx() == Some(i as usize);
                assert(before[d].spec_dm_room_idx() == Some(i as usize));
            }
        }
    }
}

/// Whether a room is the one in view: that of the agent in view, or the channel in view where no
/// agent is.
pub open spec fn is_view(a: AppModel, r: int) -> bool {
    &&& 0 <= r < a.rooms.len()
    &&& match a.focused_agent {
        Some(g) => a.agents[g as int].dm_room_idx == Some(r as usize),
        None => a.focused_room == r,
    }
}

/// There is one room in view, and it is the one that everything goes by.
pub proof fn law_what_is_in_view(a: AppModel, r: int)
    requires
        a.wf(),
        is_view(a, r),
    ensures
        a.focused_idx() == r,
        a.in_view() == a.rooms[r],
{
}

/// A channel is brought into view. Whatever was in view is left, its connections are gone, and the
/// screen has to be drawn anew; in the room that comes into view only what was new on its screen is
/// seen, and the terminal there has to be connected if it is not. No other room changes, nor does
/// anything else. A room that is in view already stays, and one that is not there is passed over.
pub proof fn law_channels_are_brought_into_view(a: AppModel, r: int, idx: int, other: int, i: int)
    requires
        a.wf(),
        is_view(a, r),
        0 <= idx < a.rooms.len(),
    ensures
        ({
            let (b, fx) = a.switched_to(idx);
            let there = 0 <= other < a.rooms.len() && other != idx;
            let room = a.rooms[idx];
            let shown = room.screens[room.current as int];
            &&& is_view(b, idx)
            &&& b.focused_agent is None && b.focused_room == idx
            &&& b == (AppModel {
                rooms: b.rooms,
                focused_agent: b.focused_agent,
                focused_room: b.focused_room,
                needs_clear: b.needs_clear,
                ..a
            })
            &&& b.needs_clear == (a.needs_clear || idx != r)
            &&& b.rooms.len() == a.rooms.len()
            &&& b.rooms[idx] == (RoomModel {
                screens: room.screens.update(
                    room.current as int,
                    match shown {
                        ScreenModel::Chat(chat) => ScreenModel::Chat(
                            ChatModel { has_unread: false, ..chat },
                        ),
                        ScreenModel::Pty(c) => ScreenModel::Pty(
                            ChannelModel {
                                pty: PtyModel { activity: ActivityState::Idle, ..c.pty },
                                ..c
                            },
                        ),
                    },
                ),
                ..room
            })
            &&& there && other != r ==> b.rooms[other] == a.rooms[other]
            &&& there && other == r ==> b.rooms[other] == (RoomModel {
                screens: b.rooms[other].screens,
                ..a.rooms[other]
            }) && b.rooms[other].screens.len() == a.rooms[other].screens.len()
            &&& there && other == r && 0 <= i < a.rooms[other].screens.len() ==> b.rooms[other].screens[i]
                == match a.rooms[other].screens[i] {
                ScreenModel::Chat(chat) => ScreenModel::Chat(chat),
                ScreenModel::Pty(c) => ScreenModel::Pty(ChannelModel { connected: false, ..c }),
            }
            &&& idx != r && (shown matches ScreenModel::Pty(c) && !c.connected) ==> fx == seq![
                EffectModel::Connect { room: idx as nat, screen: room.current },
            ]
            &&& idx == r || !(shown matches ScreenModel::Pty(c) && !c.connected) ==> fx.len() == 0
        }),
        forall|gone: int|
            !(0 <= gone < a.rooms.len()) ==> #[trigger] a.switched_to(gone) == (
                a,
                Seq::<EffectModel>::empty(),
            ),
{
    law_what_is_in_view(a, r);
    assert(a.rooms[idx].wf());
    let b = a.switched_to(idx).0;
    if idx == r {
        assert(b.rooms =~= a.rooms.update(idx, a.rooms[idx].seen()));
    } else {
        assert(b.rooms =~= a.rooms.update(r, a.rooms[r].all_disconnected()).update(
            idx,
            a.rooms[idx].seen(),
        ));
    }
}

/// An agent is brought into view. If its room is open, that comes into view just as a channel does,
/// with the agent marked; if not, the room has to be made for talking to the agent, under its name
/// on the server, where there is a server. An agent that is not there is passed over.
pub proof fn law_agents_are_brought_into_view(a: AppModel, r: int, k: int)
    requires
        a.wf(),
        is_view(a, r),
    ensures
        ({
            let (b, fx) = a.agent_opened(k);
            &&& 0 <= k < a.agents.len() && a.agents[k].dm_room_idx is Some ==> {
                let d = a.agents[k].dm_room_idx->0 as int;
                &&& is_view(b, d)
                &&& b.focused_agent == Some(k as usize)
                &&& b.focused_room == a.focused_room
                &&& b.rooms == a.switched_to(d).0.rooms
                &&& b.needs_clear == a.switched_to(d).0.needs_clear
                &&& fx == a.switched_to(d).1
                &&& b == (AppModel {
                    rooms: b.rooms,
                    needs_clear: b.needs_clear,
                    focused_agent: b.focused_agent,
                    ..a
                })
            }
            &&& 0 <= k < a.agents.len() && a.agents[k].dm_room_idx is None && a.has_matrix ==> b == a
                && fx == seq![
                EffectModel::CreateDm {
                    agent: k as nat,
                    user_id: seq!['@'] + a.agents[k].config.name@ + seq![':'] + a.server_name,
                },
            ]
            &&& 0 <= k < a.agents.len() && a.agents[k].dm_room_idx is None && !a.has_matrix ==> b == a
                && fx.len() == 0
            &&& !(0 <= k < a.agents.len()) ==> b == a && fx.len() == 0
        }),
{
    law_what_is_in_view(a, r);
}

/// The room that was made for talking to an agent stands behind the others, bears the agent's name
/// and holds an empty chat; it is in view, and it is the agent's from now on. The room that was in
/// view is left.
pub proof fn law_rooms_for_agents_are_opened(a: AppModel, r: int, k: int, room_id: Seq<char>, i: int)
    requires
        a.wf(),
        is_view(a, r),
        0 <= k < a.agents.len(),
        a.rooms.len() < usize::MAX,
        0 <= i < a.rooms.len(),
    ensures
        ({
            let b = a.dm_opened(k, room_id);
            let room = b.rooms.last();
            &&& b.rooms.len() == a.rooms.len() + 1
            &&& room.room_id == room_id
            &&& room.name == a.agents[k].config.name@
            &&& room.current == 0 && room.screens.len() == 1
            &&& room.screens[0] == ScreenModel::Chat(
                ChatModel { messages: Seq::empty(), input: Seq::empty(), scroll: 0, has_unread: false },
            )
            &&& b.agents.len() == a.agents.len()
            &&& b.agents[k].dm_room_idx == Some(a.rooms.len() as usize)
            &&& b.agents[k].config == a.agents[k].config
            &&& forall|g: int| 0 <= g < a.agents.len() && g != k ==> b.agents[g] == a.agents[g]
            &&& is_view(b, a.rooms.len() as int)
            &&& b.focused_agent == Some(k as usize)
            &&& b.needs_clear
            &&& b.rooms[i] == (if i == r { a.rooms[i].all_disconnected() } else { a.rooms[i] })
            &&& b.focused_room == a.focused_room && b.mode == a.mode && b.picker == a.picker
            &&& b.show_sidebar == a.show_sidebar && b.server_name == a.server_name
        }),
{
    law_what_is_in_view(a, r);
}

/// The channels to go through are all rooms but those for talking to agents, in their order, each
/// once.
pub proof fn law_the_channels_to_go_through(a: AppModel, i: int, k: int, l: int)
    requires
        a.wf(),
    ensures
        a.channels().contains(i) <==> 0 <= i < a.rooms.len() && !(exists|g: int|
            0 <= g < a.agents.len() && (#[trigger] a.agents[g]).dm_room_idx == Some(i as usize)),
        0 <= k < l < a.channels().len() ==> a.channels()[k] < a.channels()[l],
{
    lemma_channel_list(a.agents, a.rooms.len());
    let talk = exists|g: int|
        0 <= g < a.agents.len() && (#[trigger] a.agents[g]).dm_room_idx == Some(i as usize);
    if talk {
        let g = choose|g: int|
            0 <= g < a.agents.len() && (#[trigger] a.agents[g]).dm_room_idx == Some(i as usize);
        assert(a.agents[g].spec_dm_room_idx() == Some(i as usize));
        assert(is_dm(a.agents, i));
    }
    if is_dm(a.agents, i) {
        let g = choose|g: int|
            0 <= g < a.agents.len() && #[trigger] a.agents[g].spec_dm_room_idx() == Some(i as usize);
        assert(a.agents[g].dm_room_idx == Some(i as usize));
        assert(talk);
    }
    if a.channels().contains(i) {
        let j = choose|j: int| 0 <= j < a.channels().len() && a.channels()[j] == i;
        assert(!is_dm(a.agents, a.channels()[j]));
    }
}

/// The agents to go through are all agents, by name, each once.
pub proof fn law_the_agents_to_go_through(a: AppModel, i: int, k: int, l: int)
    ensures
        a.agent_list().len() == a.agents.len(),
        0 <= i < a.agents.len() ==> a.agent_list().contains(i),
        0 <= k < l < a.agents.len() ==> a.agent_list()[k] != a.agent_list()[l],
        0 <= k < a.agents.len() ==> 0 <= a.agent_list()[k] < a.agents.len(),
        0 <= k < l < a.agents.len() ==> crate::text::name_le(
            a.agents[a.agent_list()[k]].config.name@,
            a.agents[a.agent_list()[l]].config.name@,
        ),
{
    a.lemma_agents();
    let names = agent_names(a.agents);
    if 0 <= i < a.agents.len() {
        lemma_listing_complete(names, a.agent_list(), i);
    }
    if 0 <= k < l < a.agents.len() {
        let x = a.agent_list()[k];
        let y = a.agent_list()[l];
        assert(crate::text::listed_before(names, x, y));
        assert(names[x] == a.agents[x].spec_agent_name());
        assert(names[y] == a.agents[y].spec_agent_name());
    }
}

/// Whether one stands in a place among the things to go through: channels, and behind them agents.
pub open spec fn stands_in(a: AppModel, pos: int) -> bool {
    let n = a.channels().len();
    match a.focused_agent {
        Some(g) => n <= pos < n + a.agents.len() && a.agent_list()[pos - n] == g,
        None => 0 <= pos < n && a.channels()[pos] == a.focused_room,
    }
}

/// Going on leads to the next thing and behind the last to the first, going back to the one before
/// and before the first to the last: channels are brought into view, and agents are.
pub proof fn law_going_on_and_back(a: AppModel, pos: int)
    requires
        a.wf(),
        stands_in(a, pos),
    ensures
        ({
            let n = a.channels().len();
            let last = n + a.agents.len() - 1;
            let next = if pos == last { 0 } else { pos + 1 };
            let prev = if pos == 0 { last } else { pos - 1 };
            &&& next < n ==> a.went_next() == a.switched_to(a.channels()[next])
            &&& next >= n ==> a.went_next() == a.agent_opened(a.agent_list()[next - n])
            &&& prev < n ==> a.went_prev() == a.switched_to(a.channels()[prev])
            &&& prev >= n ==> a.went_prev() == a.agent_opened(a.agent_list()[prev - n])
        }),
{
    a.lemma_channels();
    a.lemma_agents();
    let n = a.channels().len();
    let count = n + a.agents.len();
    assert(a.nav_place() == pos) by {
        if a.focused_agent is Some {
            lemma_place_in(a.agent_list(), pos - n);
        } else {
            lemma_place_in(a.channels(), pos);
        }
    }
    let q = (pos + 1) % (count as int);
    if pos + 1 < count {
        assert(q == pos + 1) by (nonlinear_arith)
            requires
                0 <= pos,
                pos + 1 < count,
                q == (pos + 1) % (count as int),
        ;
    } else {
        assert(q == 0) by (nonlinear_arith)
            requires
                pos + 1 == count,
                q == (pos + 1) % (count as int),
                count > 0,
        ;
    }
}

/// Another screen of the room in view is brought into view: the next one or the one before. The
/// terminal that was in view loses its connection, the one that comes into view has to be connected
/// if it is not, and what was new there is seen. At either end the screen stays.
pub proof fn law_screens_are_brought_into_view(a: AppModel, r: int, forth: bool, i: int)
    requires
        a.wf(),
        is_view(a, r),
        0 <= i < a.rooms[r].screens.len(),
    ensures
        ({
            let room = a.rooms[r];
            let (b, fx) = if forth {
                a.screen_moved(room.next())
            } else {
                a.screen_moved(room.prev())
            };
            let to = if forth {
                room.current as int + 1
            } else {
                room.current - 1
            };
            let stays = !(0 <= to < room.screens.len());
            let at = if stays { room.current as int } else { to };
            let was = room.screens[i];
            &&& b == (AppModel { rooms: b.rooms, needs_clear: b.needs_clear, ..a })
            &&& b.needs_clear == (a.needs_clear || !stays)
            &&& b.rooms == a.rooms.update(r, b.rooms[r])
            &&& b.rooms[r] == (RoomModel {
                current: at as nat,
                screens: b.rooms[r].screens,
                ..room
            })
            &&& b.rooms[r].screens.len() == room.screens.len()
            &&& i == at ==> b.rooms[r].screens[i] == match was {
                ScreenModel::Chat(chat) => ScreenModel::Chat(ChatModel { has_unread: false, ..chat }),
                ScreenModel::Pty(c) => ScreenModel::Pty(
                    ChannelModel { pty: PtyModel { activity: ActivityState::Idle, ..c.pty }, ..c },
                ),
            }
            &&& i != at && i == room.current ==> b.rooms[r].screens[i] == match was {
                ScreenModel::Chat(chat) => ScreenModel::Chat(chat),
                ScreenModel::Pty(c) => ScreenModel::Pty(ChannelModel { connected: false, ..c }),
            }
            &&& i != at && i != room.current ==> b.rooms[r].screens[i] == was
            &&& !stays && (room.screens[to] matches ScreenModel::Pty(c) && !c.connected) ==> fx == seq![
                EffectModel::Connect { room: r as nat, screen: to as nat },
            ]
            &&& stays || !(room.screens[to] matches ScreenModel::Pty(c) && !c.connected) ==> fx.len() == 0
        }),
{
    law_what_is_in_view(a, r);
    assert(a.rooms[r].wf());
}

/// An agent has something new exactly if its room is open and has.
pub proof fn law_when_an_agent_has_something_new(g: AgentEntry, rooms: Seq<RoomModel>)
    ensures
        g.spec_has_activity(rooms) <==> (g.dm_room_idx matches Some(i) && i < rooms.len()
            && rooms[i as int].activity() is Active),
{
}

/// An agent is listed by its own name, and with the room that was opened for it.
pub proof fn law_how_agents_are_listed(g: AgentEntry)
    ensures
        g.spec_agent_name() == g.config.name@,
        g.spec_dm_room_idx() == g.dm_room_idx,
{
}

/// Going to a place leads to the channel or the agent there, and nowhere from a place that is not
/// there. There are as many places as channels and agents, and one knows where one stands.
pub proof fn law_going_to_a_place(a: AppModel, pos: int, at: int)
    requires
        a.wf(),
        stands_in(a, at),
    ensures
        ({
            let n = a.channels().len();
            &&& 0 <= pos < n ==> a.went_to(pos) == a.switched_to(a.channels()[pos])
            &&& n <= pos < n + a.agents.len() ==> a.went_to(pos) == a.agent_opened(a.agent_list()[pos - n])
            &&& pos < 0 || pos >= n + a.agents.len() ==> a.went_to(pos) == (a, Seq::<EffectModel>::empty())
            &&& a.nav_count() == n + a.agents.len()
            &&& a.nav_place() == at
        }),
{
    a.lemma_channels();
    a.lemma_agents();
    if a.focused_agent is Some {
        lemma_place_in(a.agent_list(), at - a.channels().len());
    } else {
        lemma_place_in(a.channels(), at);
    }
}

} // verus!
