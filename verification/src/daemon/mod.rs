//! The session daemon: it keeps terminals while clients come and go.

use std::collections::hash_map::DefaultHasher;
use std::hash::Hasher;

use vstd::prelude::*;
use vstd::std_specs::hash::*;
use vstd::string::*;
use vstd::utf8::*;

use crate::config::{channel_models, ChannelConfigModel, Config};
use crate::env::{join, joined};
use crate::ident::{is_random_uuid, new_id};
use crate::number::{parse_signed, signed_value};
use crate::protocol::{
    ClientMessage, ClientMessageModel, DaemonMessage, DaemonMessageModel, PtyConfig,
    PtyConfigModel, SessionInfo, SessionInfoModel,
};
use crate::text::{chars_of, string_of, trim, trimmed};
use crate::wire::{row_models, Wire};
use self::pty_manager::{
    copy_of, info_models, law_terminals_are_found, none_runs, output_models, place_of_pty,
    ManagedPtyModel,
    ManagerModel, PtyManager,
};

pub mod conduit;
pub mod pty_manager;

verus! {

// ---------------------------------------------------------------------------
// The fingerprint of a configuration
// ---------------------------------------------------------------------------

/// What is hashed of a text: its bytes, and a byte that no text holds.
pub open spec fn hashed_text(s: Seq<char>) -> Seq<Seq<u8>> {
    seq![encode_utf8(s), seq![0xffu8]]
}

/// What is hashed of a choice: its number, in eight bytes.
pub open spec fn hashed_choice(n: u8) -> Seq<Seq<u8>> {
    seq![seq![n, 0u8, 0u8, 0u8, 0u8, 0u8, 0u8, 0u8]]
}

/// What is hashed of a channel: its name, its command, and its directory if it has one.
pub open spec fn hashed_channel(c: ChannelConfigModel) -> Seq<Seq<u8>> {
    hashed_text(c.name) + hashed_text(c.command) + match c.cwd {
        Some(dir) => hashed_choice(1) + hashed_text(dir),
        None => hashed_choice(0),
    }
}

/// What is hashed of channels.
pub open spec fn hashed_channels(cs: Seq<ChannelConfigModel>) -> Seq<Seq<u8>>
    decreases cs.len(),
{
    if cs.len() == 0 {
        Seq::empty()
    } else {
        hashed_channels(cs.drop_last()) + hashed_channel(cs.last())
    }
}

/// The fingerprint of the channels of a configuration.
pub open spec fn channels_hash(cs: Seq<ChannelConfigModel>) -> u64 {
    DefaultHasher::spec_finish(hashed_channels(cs))
}

/// Hashes a text.
fn hash_one(hasher: &mut DefaultHasher, s: &str)
    ensures
        final(hasher)@ == old(hasher)@ + hashed_text(s@),
{
    let ghost before = hasher@;
    hasher.write(s.as_bytes());
    let end: [u8; 1] = [0xff];
    hasher.write(&end);
    assert(end@ =~= seq![0xffu8]);
    assert(hasher@ =~= before + hashed_text(s@));
}

/// Hashes a choice.
fn hash_choice(hasher: &mut DefaultHasher, n: u8)
    ensures
        final(hasher)@ == old(hasher)@ + hashed_choice(n),
{
    let ghost before = hasher@;
    let bytes: [u8; 8] = [n, 0, 0, 0, 0, 0, 0, 0];
    hasher.write(&bytes);
    assert(bytes@ =~= seq![n, 0u8, 0u8, 0u8, 0u8, 0u8, 0u8, 0u8]);
    assert(hasher@ =~= before + hashed_choice(n));
}

/// The fingerprint of a configuration, to notice when its channels change.
pub fn hash_config(config: &Config) -> (h: u64)
    ensures
        h == channels_hash(channel_models(config.channel@)),
{
    let mut hasher = DefaultHasher::new();
    let ghost all = channel_models(config.channel@);
    let mut i: usize = 0;
    assert(all.take(0) =~= Seq::<ChannelConfigModel>::empty());
    assert(hasher@ =~= Seq::<Seq<u8>>::empty());
    while i < config.channel.len()
        invariant
            i <= config.channel@.len(),
            all == channel_models(config.channel@),
            hasher@ == hashed_channels(all.take(i as int)),
        decreases config.channel@.len() - i,
    {
        let ghost before = hasher@;
        assert(all.take(i + 1).drop_last() =~= all.take(i as int));
        assert(all.take(i + 1).last() == config.channel@[i as int]@);
        let c = &config.channel[i];
        hash_one(&mut hasher, c.name.as_str());
        hash_one(&mut hasher, c.command.as_str());
        match &c.cwd {
            Some(dir) => {
                hash_choice(&mut hasher, 1);
                hash_one(&mut hasher, dir.as_str());
            },
            None => {
                hash_choice(&mut hasher, 0);
            },
        }
        assert(hasher@ =~= before + hashed_channel(c@));
        i = i + 1;
    }
    assert(all.take(all.len() as int) =~= all);
    hasher.finish()
}

// ---------------------------------------------------------------------------
// Files
// ---------------------------------------------------------------------------

/// The socket of a session.
pub fn session_socket(session_dir: &str, session_id: &str) -> (r: String)
    ensures
        r@ == joined(session_dir@, session_id@ + ".sock"@),
{
    let mut file = session_id.to_owned();
    file.append(".sock");
    join(session_dir, file.as_str())
}

/// The directory for the configurations of agents.
pub fn agents_dir(session_dir: &str) -> (r: String)
    ensures
        r@ == joined(session_dir@, "agents"@),
{
    join(session_dir, "agents")
}

/// The file for the configuration of an agent.
pub fn agent_config_path(agents_dir: &str, name: &str) -> (r: String)
    ensures
        r@ == joined(agents_dir@, name@ + ".toml"@),
{
    let mut file = name.to_owned();
    file.append(".toml");
    join(agents_dir, file.as_str())
}

/// The configuration of an agent's chaperone.
pub open spec fn agent_config_is(name: Seq<char>, mode: Seq<char>, cwd: Option<Seq<char>>) -> Seq<char> {
    "name = \""@ + name + "\"\nmode = \""@ + mode + "\"\n"@ + match cwd {
        Some(dir) => "cwd = \""@ + dir + "\"\n"@,
        None => Seq::empty(),
    }
}

/// The configuration of an agent's chaperone.
pub fn agent_config_content(name: &str, mode: &str, cwd: &Option<String>) -> (r: String)
    ensures
        r@ == agent_config_is(name@, mode@, cwd.model()),
{
    let mut r = "name = \"".to_owned();
    r.append(name);
    r.append("\"\nmode = \"");
    r.append(mode);
    r.append("\"\n");
    if let Some(dir) = cwd {
        r.append("cwd = \"");
        r.append(dir.as_str());
        r.append("\"\n");
    }
    assert(r@ =~= agent_config_is(name@, mode@, cwd.model()));
    r
}

/// The number of the process that a file names, if it names one.
pub fn parse_pid(text: &str) -> (r: Option<i32>)
    ensures
        match r {
            Some(pid) => signed_value(trimmed(text@)) == Some(pid as int),
            None => signed_value(trimmed(text@)) is None,
        },
{
    let cs = chars_of(text);
    let t = trim(cs.as_slice());
    let s = string_of(t.as_slice());
    parse_signed(s.as_str())
}

// ---------------------------------------------------------------------------
// The daemon
// ---------------------------------------------------------------------------

/// The session daemon.
pub struct Daemon {
    /// The name of the session.
    pub session_id: String,
    /// The fingerprint of the configuration.
    pub config_hash: u64,
    /// The terminals.
    pub pty_manager: PtyManager,
    /// The number of the connection over which a client is attached, if one is.
    pub client: Option<usize>,
    /// Where clients connect.
    pub socket_path: String,
    /// The channel that was in view last.
    pub focused: usize,
}

/// The session daemon, as a value.
#[verifier::ext_equal]
pub struct DaemonModel {
    pub session_id: Seq<char>,
    pub config_hash: u64,
    pub manager: ManagerModel,
    pub client: Option<usize>,
    pub socket_path: Seq<char>,
    pub focused: nat,
}

impl View for Daemon {
    type V = DaemonModel;

    open spec fn view(&self) -> DaemonModel {
        DaemonModel {
            session_id: self.session_id@,
            config_hash: self.config_hash,
            manager: self.pty_manager@,
            client: self.client,
            socket_path: self.socket_path@,
            focused: self.focused as nat,
        }
    }
}

/// How a connection begins.
#[derive(Debug)]
pub enum Opening {
    /// The client is turned away with this message.
    TurnedAway(DaemonMessage),
    /// The client is attached. The one that was before, if there was one, is told to go.
    Attached { kicked: Option<usize> },
    /// The connection is closed without a word.
    Closed,
}

/// How a connection begins, as a value.
pub enum OpeningModel {
    TurnedAway(DaemonMessageModel),
    Attached { kicked: Option<usize> },
    Closed,
}

impl View for Opening {
    type V = OpeningModel;

    open spec fn view(&self) -> OpeningModel {
        match self {
            Opening::TurnedAway(msg) => OpeningModel::TurnedAway(msg.model()),
            Opening::Attached { kicked } => OpeningModel::Attached { kicked: *kicked },
            Opening::Closed => OpeningModel::Closed,
        }
    }
}

/// What a message of a client asks for.
#[derive(Debug)]
pub enum DaemonAction {
    /// Nothing.
    Nothing,
    /// Write to the terminal in this place.
    Write { place: usize, data: Vec<u8> },
    /// Resize the terminal in this place.
    Resize { place: usize, rows: u16, cols: u16 },
    /// Start a terminal.
    Spawn(PtyConfig),
    /// Kill the command of the terminal in this place.
    Kill { place: usize },
    /// Close the connection.
    Close,
    /// End the daemon and all that it has started.
    Exit,
}

/// What a message of a client asks for, as a value.
pub enum ActionModel {
    Nothing,
    Write { place: int, data: Seq<u8> },
    Resize { place: int, rows: nat, cols: nat },
    Spawn(PtyConfigModel),
    Kill { place: int },
    Close,
    Exit,
}

impl View for DaemonAction {
    type V = ActionModel;

    open spec fn view(&self) -> ActionModel {
        match self {
            DaemonAction::Nothing => ActionModel::Nothing,
            DaemonAction::Write { place, data } => ActionModel::Write {
                place: *place as int,
                data: data@,
            },
            DaemonAction::Resize { place, rows, cols } => ActionModel::Resize {
                place: *place as int,
                rows: *rows as nat,
                cols: *cols as nat,
            },
            DaemonAction::Spawn(config) => ActionModel::Spawn(config.model()),
            DaemonAction::Kill { place } => ActionModel::Kill { place: *place as int },
            DaemonAction::Close => ActionModel::Close,
            DaemonAction::Exit => ActionModel::Exit,
        }
    }
}

/// What a client that is turned away is told.
pub open spec fn busy() -> DaemonMessageModel {
    DaemonMessageModel::Rejected {
        reason: "Another client is connected. Use --takeover to take over."@,
    }
}

/// The output that a client is told of when it attaches: for each of the first `n` terminals
/// what it has written, if anything, and that there is no more.
pub open spec fn replay(ptys: Seq<ManagedPtyModel>, n: nat) -> Seq<DaemonMessageModel>
    decreases n,
{
    if n == 0 {
        Seq::empty()
    } else {
        let before = replay(ptys, (n - 1) as nat);
        let p = ptys[n - 1];
        let end = DaemonMessageModel::HistoryEnd { pty_id: p.info.id };
        if p.history.len() > 0 {
            before.push(DaemonMessageModel::History { pty_id: p.info.id, data: p.history }).push(end)
        } else {
            before.push(end)
        }
    }
}

/// The messages about output.
pub open spec fn output_messages(out: Seq<(nat, Seq<u8>)>) -> Seq<DaemonMessageModel> {
    out.map_values(
        |o: (nat, Seq<u8>)| DaemonMessageModel::Output { pty_id: o.0, data: o.1 },
    )
}

impl DaemonModel {
    /// What a client learns of the session.
    pub open spec fn info(self) -> SessionInfoModel {
        SessionInfoModel {
            session_id: self.session_id,
            config_hash: self.config_hash as nat,
            ptys: info_models(self.manager.ptys),
            focused: self.focused,
        }
    }

    /// What a client is told when it attaches.
    pub open spec fn greeting(self) -> Seq<DaemonMessageModel> {
        seq![DaemonMessageModel::Welcome(self.info())] + replay(
            self.manager.ptys,
            self.manager.ptys.len(),
        )
    }

    /// After the first message on a connection: only a message to attach is taken, and only
    /// one client can be attached.
    pub open spec fn opened(self, connection: usize, first: ClientMessageModel) -> (DaemonModel, OpeningModel) {
        match first {
            ClientMessageModel::Attach => if self.client is Some {
                (self, OpeningModel::TurnedAway(busy()))
            } else {
                (
                    DaemonModel { client: Some(connection), ..self },
                    OpeningModel::Attached { kicked: None },
                )
            },
            ClientMessageModel::AttachTakeover => (
                DaemonModel { client: Some(connection), ..self },
                OpeningModel::Attached { kicked: self.client },
            ),
            _ => (self, OpeningModel::Closed),
        }
    }

    /// Without the client on a connection. Whoever has taken over from it stays.
    pub open spec fn detached(self, connection: usize) -> DaemonModel {
        if self.client == Some(connection) {
            DaemonModel { client: None, ..self }
        } else {
            self
        }
    }

    /// After a message on the connection of a client that was let in.
    pub open spec fn asked(self, connection: usize, msg: ClientMessageModel) -> (DaemonModel, ActionModel) {
        match msg {
            ClientMessageModel::Input { pty_id, data } => (
                self,
                match place_of_pty(self.manager.ptys, pty_id) {
                    Some(place) => if self.manager.ptys[place].info.running {
                        ActionModel::Write { place, data }
                    } else {
                        ActionModel::Nothing
                    },
                    None => ActionModel::Nothing,
                },
            ),
            ClientMessageModel::Resize { pty_id, rows, cols } => (
                self,
                match place_of_pty(self.manager.ptys, pty_id) {
                    Some(place) => ActionModel::Resize { place, rows, cols },
                    None => ActionModel::Nothing,
                },
            ),
            ClientMessageModel::SetFocus { channel_idx } => (
                DaemonModel { focused: channel_idx, ..self },
                ActionModel::Nothing,
            ),
            ClientMessageModel::Spawn(config) => (self, ActionModel::Spawn(config)),
            ClientMessageModel::Kill { pty_id } => (
                self,
                match place_of_pty(self.manager.ptys, pty_id) {
                    Some(place) => if self.manager.ptys[place].info.running {
                        ActionModel::Kill { place }
                    } else {
                        ActionModel::Nothing
                    },
                    None => ActionModel::Nothing,
                },
            ),
            ClientMessageModel::Detach => (self.detached(connection), ActionModel::Close),
            ClientMessageModel::Quit => (self.detached(connection), ActionModel::Exit),
            _ => (self, ActionModel::Nothing),
        }
    }

    /// Whether the daemon has nothing left to do.
    pub open spec fn is_done(self) -> bool {
        none_runs(self.manager.ptys) && self.client is None
    }
}

impl Daemon {
    /// A session for a configuration, with no terminals yet.
    pub fn new(config: &Config, session_dir: &str, rows: u16, cols: u16) -> (d: Daemon)
        ensures
            is_random_uuid(d@.session_id),
            d@ == (DaemonModel {
                session_id: d@.session_id,
                config_hash: channels_hash(channel_models(config.channel@)),
                manager: ManagerModel { ptys: Seq::empty(), next_id: 0, rows, cols },
                client: None,
                socket_path: joined(session_dir@, d@.session_id + ".sock"@),
                focused: 0,
            }),
            d.pty_manager.wf(),
    {
        let session_id = new_id();
        let socket_path = session_socket(session_dir, session_id.as_str());
        Daemon {
            session_id,
            config_hash: hash_config(config),
            pty_manager: PtyManager::new(rows, cols),
            client: None,
            socket_path,
            focused: 0,
        }
    }

    /// Where clients connect.
    pub fn socket_path(&self) -> (r: &str)
        ensures
            r@ == self@.socket_path,
    {
        self.socket_path.as_str()
    }

    /// What a client learns of the session.
    pub fn session_info(&self) -> (r: SessionInfo)
        ensures
            r.model() == self@.info(),
    {
        SessionInfo {
            session_id: self.session_id.clone(),
            config_hash: self.config_hash,
            ptys: self.pty_manager.infos(),
            focused: self.focused,
        }
    }

    /// What a client is told when it attaches.
    pub fn greeting(&self) -> (r: Vec<DaemonMessage>)
        ensures
            row_models(r@) == self@.greeting(),
    {
        let mut r: Vec<DaemonMessage> = Vec::new();
        r.push(DaemonMessage::Welcome(self.session_info()));
        let ghost first = seq![DaemonMessageModel::Welcome(self@.info())];
        let ghost ptys = self@.manager.ptys;
        assert(row_models(r@) =~= first);
        let mut i: usize = 0;
        assert(first + replay(ptys, 0) =~= first);
        while i < self.pty_manager.ptys.len()
            invariant
                i <= self.pty_manager.ptys@.len(),
                ptys == self@.manager.ptys,
                row_models(r@) == first + replay(ptys, i as nat),
            decreases self.pty_manager.ptys@.len() - i,
        {
            let ghost before = row_models(r@);
            let p = &self.pty_manager.ptys[i];
            assert(ptys[i as int] == p@);
            let data = p.get_history();
            let ghost bytes = data@;
            if data.len() > 0 {
                r.push(DaemonMessage::History { pty_id: p.id, data });
                assert(row_models(r@) =~= before.push(
                    DaemonMessageModel::History { pty_id: p@.info.id, data: bytes },
                ));
            }
            let ghost middle = row_models(r@);
            r.push(DaemonMessage::HistoryEnd { pty_id: p.id });
            assert(row_models(r@) =~= middle.push(
                DaemonMessageModel::HistoryEnd { pty_id: p@.info.id },
            ));
            i = i + 1;
            assert(row_models(r@) =~= first + replay(ptys, i as nat));
        }
        r
    }

    /// Follows the first message on a connection.
    pub fn open_connection(&mut self, connection: usize, first: &ClientMessage) -> (r: Opening)
        ensures
            final(self)@ == old(self)@.opened(connection, first.model()).0,
            r@ == old(self)@.opened(connection, first.model()).1,
            final(self).pty_manager == old(self).pty_manager,
    {
        match first {
            ClientMessage::Attach => {
                if self.client.is_some() {
                    Opening::TurnedAway(
                        DaemonMessage::Rejected {
                            reason: "Another client is connected. Use --takeover to take over.".to_owned(),
                        },
                    )
                } else {
                    self.client = Some(connection);
                    Opening::Attached { kicked: None }
                }
            },
            ClientMessage::AttachTakeover => {
                let kicked = self.client;
                self.client = Some(connection);
                Opening::Attached { kicked }
            },
            _ => Opening::Closed,
        }
    }

    /// Follows a message on the connection of a client that was let in.
    pub fn handle_message(&mut self, connection: usize, msg: ClientMessage) -> (r: DaemonAction)
        ensures
            final(self)@ == old(self)@.asked(connection, msg.model()).0,
            r@ == old(self)@.asked(connection, msg.model()).1,
            final(self).pty_manager == old(self).pty_manager,
    {
        match msg {
            ClientMessage::Input { pty_id, data } => {
                match self.pty_manager.place(pty_id) {
                    Some(place) => {
                        if self.pty_manager.ptys[place].takes_input() {
                            DaemonAction::Write { place, data }
                        } else {
                            DaemonAction::Nothing
                        }
                    },
                    None => DaemonAction::Nothing,
                }
            },
            ClientMessage::Resize { pty_id, rows, cols } => {
                match self.pty_manager.place(pty_id) {
                    Some(place) => DaemonAction::Resize { place, rows, cols },
                    None => DaemonAction::Nothing,
                }
            },
            ClientMessage::SetFocus { channel_idx } => {
                self.focused = channel_idx;
                DaemonAction::Nothing
            },
            ClientMessage::Spawn(config) => DaemonAction::Spawn(config),
            ClientMessage::Kill { pty_id } => {
                match self.pty_manager.place(pty_id) {
                    Some(place) => {
                        if self.pty_manager.ptys[place].takes_input() {
                            DaemonAction::Kill { place }
                        } else {
                            DaemonAction::Nothing
                        }
                    },
                    None => DaemonAction::Nothing,
                }
            },
            ClientMessage::Detach => {
                self.connection_lost(connection);
                DaemonAction::Close
            },
            ClientMessage::Quit => {
                self.connection_lost(connection);
                DaemonAction::Exit
            },
            _ => DaemonAction::Nothing,
        }
    }

    /// Follows the loss of a connection, which is taken as its client's leaving.
    pub fn connection_lost(&mut self, connection: usize)
        ensures
            final(self)@ == old(self)@.detached(connection),
            final(self).pty_manager == old(self).pty_manager,
    {
        if let Some(attached) = self.client {
            if attached == connection {
                self.client = None;
            }
        }
    }

    /// Whether the daemon has nothing left to do: no command runs and no client is attached.
    pub fn should_exit(&self) -> (r: bool)
        ensures
            r == self@.is_done(),
    {
        self.pty_manager.all_exited() && self.client.is_none()
    }
}

/// The terminals to start for a configuration: one for each channel.
pub fn channel_terminals(config: &Config) -> (r: Vec<PtyConfig>)
    ensures
        row_models(r@) == channel_models(config.channel@).map_values(
            |c: ChannelConfigModel| PtyConfigModel { name: c.name, command: c.command, cwd: c.cwd },
        ),
{
    let mut r: Vec<PtyConfig> = Vec::new();
    let mut i: usize = 0;
    while i < config.channel.len()
        invariant
            i <= config.channel@.len(),
            r@.len() == i,
            forall|k: int|
                0 <= k < i ==> (#[trigger] r@[k]).model() == (PtyConfigModel {
                    name: config.channel@[k]@.name,
                    command: config.channel@[k]@.command,
                    cwd: config.channel@[k]@.cwd,
                }),
        decreases config.channel@.len() - i,
    {
        let c = &config.channel[i];
        r.push(
            PtyConfig { name: c.name.clone(), command: c.command.clone(), cwd: copy_of(&c.cwd) },
        );
        i = i + 1;
    }
    assert(row_models(r@) =~= channel_models(config.channel@).map_values(
        |c: ChannelConfigModel| PtyConfigModel { name: c.name, command: c.command, cwd: c.cwd },
    ));
    r
}

/// The messages about output.
pub fn tell_output(out: Vec<(usize, Vec<u8>)>) -> (r: Vec<DaemonMessage>)
    ensures
        row_models(r@) == output_messages(output_models(out@)),
{
    let ghost all = output_models(out@);
    let mut rest = out;
    let mut r: Vec<DaemonMessage> = Vec::new();
    let ghost n = all.len();
    while rest.len() > 0
        invariant
            rest@.len() + r@.len() == n == all.len(),
            output_models(rest@) == all.skip(r@.len() as int),
            forall|k: int|
                0 <= k < r@.len() ==> (#[trigger] r@[k]).model() == (DaemonMessageModel::Output {
                    pty_id: all[k].0,
                    data: all[k].1,
                }),
        decreases rest@.len(),
    {
        let ghost before = rest@;
        let (pty_id, data) = rest.remove(0);
        assert(output_models(before)[0] == all[r@.len() as int]);
        assert(output_models(rest@) =~= output_models(before).skip(1));
        assert(output_models(before).skip(1) =~= all.skip((r@.len() + 1) as int));
        r.push(DaemonMessage::Output { pty_id, data });
    }
    assert(row_models(r@) =~= output_messages(all));
    r
}

/// Whether a message is the last that a client gets.
pub fn is_last_message(msg: &DaemonMessage) -> (r: bool)
    ensures
        r == (msg.model() is Kicked || msg.model() is Shutdown),
{
    matches!(msg, DaemonMessage::Kicked | DaemonMessage::Shutdown)
}

/// The messages that stop a daemon, whether it has a client or not: only a client is
/// listened to, so the first one takes over.
pub fn stop_messages() -> (r: Vec<ClientMessage>)
    ensures
        row_models(r@) == seq![ClientMessageModel::AttachTakeover, ClientMessageModel::Quit],
{
    let mut r: Vec<ClientMessage> = Vec::new();
    r.push(ClientMessage::AttachTakeover);
    r.push(ClientMessage::Quit);
    assert(row_models(r@) =~= seq![ClientMessageModel::AttachTakeover, ClientMessageModel::Quit]);
    r
}

// ---------------------------------------------------------------------------
// Laws
// ---------------------------------------------------------------------------

/// A daemon that is stopped ends, in whatever state it is.
pub proof fn law_daemons_can_be_stopped(d: DaemonModel, connection: usize)
    ensures
        ({
            let (after, opening) = d.opened(connection, ClientMessageModel::AttachTakeover);
            &&& opening is Attached
            &&& after.asked(connection, ClientMessageModel::Quit).1 is Exit
        }),
{
}

/// A client that asks politely is never let in beside another, and changes nothing then; one
/// that takes over always is, and the other is told to go.
pub proof fn law_one_client_at_a_time(d: DaemonModel, connection: usize)
    ensures
        d.client is Some ==> d.opened(connection, ClientMessageModel::Attach) == (
            d,
            OpeningModel::TurnedAway(busy()),
        ),
        d.client is None ==> d.opened(connection, ClientMessageModel::Attach).0.client == Some(connection),
        d.opened(connection, ClientMessageModel::AttachTakeover).0.client == Some(connection),
        d.opened(connection, ClientMessageModel::AttachTakeover).1 == (OpeningModel::Attached {
            kicked: d.client,
        }),
{
}

/// Terminals outlive clients: attaching, asking for anything but a new terminal, and leaving
/// do not change them. The next client is told of all that was written.
pub proof fn law_terminals_outlive_clients(
    d: DaemonModel,
    connection: usize,
    msg: ClientMessageModel,
    next: usize,
)
    ensures
        ({
            let attached = d.opened(connection, ClientMessageModel::AttachTakeover).0;
            let left = attached.asked(connection, msg).0.detached(connection);
            let again = left.opened(next, ClientMessageModel::Attach).0;
            &&& again.manager == d.manager
            &&& again.client == Some(next)
            &&& again.greeting() == (DaemonModel { focused: again.focused, ..d }).greeting()
        }),
{
}

/// A client that was told to go takes nobody along: when it leaves or is lost, the one that
/// took over from it stays attached.
pub proof fn law_only_the_attached_leave(d: DaemonModel, connection: usize, next: usize)
    requires
        connection != next,
    ensures
        ({
            let taken = d.opened(next, ClientMessageModel::AttachTakeover).0;
            &&& taken.detached(connection) == taken
            &&& taken.asked(connection, ClientMessageModel::Detach) == (taken, ActionModel::Close)
            &&& taken.detached(next).client is None
        }),
{
}

proof fn lemma_place_of_pty(ptys: Seq<ManagedPtyModel>, id: nat)
    ensures
        place_of_pty(ptys, id) matches Some(i) ==> 0 <= i < ptys.len() && ptys[i].info.id == id,
    decreases ptys.len(),
{
    if ptys.len() > 0 {
        lemma_place_of_pty(ptys.drop_first(), id);
    }
}

/// A command is killed only in the terminal that was named, and nothing else changes: the
/// client stays, and so do the terminals until they are looked at.
pub proof fn law_kill_touches_one_terminal(d: DaemonModel, connection: usize, pty_id: nat)
    ensures
        ({
            let (after, action) = d.asked(connection, ClientMessageModel::Kill { pty_id });
            &&& after == d
            &&& action matches ActionModel::Kill { place } ==> 0 <= place < d.manager.ptys.len()
                && d.manager.ptys[place].info.id == pty_id && d.manager.ptys[place].info.running
        }),
{
    lemma_place_of_pty(d.manager.ptys, pty_id);
}

/// While a command runs or a client is attached the daemon stays.
pub proof fn law_the_daemon_stays(d: DaemonModel, i: int)
    requires
        0 <= i < d.manager.ptys.len(),
    ensures
        d.manager.ptys[i].info.running ==> !d.is_done(),
        d.client is Some ==> !d.is_done(),
{
}

proof fn lemma_replay_before(ptys: Seq<ManagedPtyModel>, more: Seq<ManagedPtyModel>, n: nat)
    requires
        n <= ptys.len() <= more.len(),
        more.take(ptys.len() as int) == ptys,
    ensures
        replay(more, n) == replay(ptys, n),
    decreases n,
{
    if n > 0 {
        lemma_replay_before(ptys, more, (n - 1) as nat);
        assert(more.take(ptys.len() as int)[n - 1] == more[n - 1]);
    }
}

/// A client that attaches to a session without terminals is only welcomed. Each terminal more, be
/// its command running or not, adds to what the client is told, at the end: what the terminal has
/// written if it has written anything, and that there is no more.
pub proof fn law_each_terminal_is_replayed(d: DaemonModel, p: ManagedPtyModel)
    ensures
        ({
            let ptys = d.manager.ptys.push(p);
            let e = DaemonModel { manager: ManagerModel { ptys, ..d.manager }, ..d };
            let end = DaemonMessageModel::HistoryEnd { pty_id: p.info.id };
            &&& d.greeting().len() > 0
            &&& d.manager.ptys.len() == 0 ==> d.greeting().len() == 1
            &&& e.greeting().skip(1) == d.greeting().skip(1) + if p.history.len() > 0 {
                seq![DaemonMessageModel::History { pty_id: p.info.id, data: p.history }, end]
            } else {
                seq![end]
            }
        }),
{
    let old_ptys = d.manager.ptys;
    let ptys = old_ptys.push(p);
    let e = DaemonModel { manager: ManagerModel { ptys, ..d.manager }, ..d };
    assert(ptys.take(old_ptys.len() as int) =~= old_ptys);
    lemma_replay_before(old_ptys, ptys, old_ptys.len());
    assert(d.greeting().skip(1) =~= replay(old_ptys, old_ptys.len()));
    assert(e.greeting().skip(1) =~= replay(ptys, ptys.len()));
    let end = DaemonMessageModel::HistoryEnd { pty_id: p.info.id };
    let before = replay(old_ptys, old_ptys.len());
    let said = DaemonMessageModel::History { pty_id: p.info.id, data: p.history };
    assert(before.push(said).push(end) =~= before + seq![said, end]);
    assert(before.push(end) =~= before + seq![end]);
}

proof fn lemma_replayed(ptys: Seq<ManagedPtyModel>, n: nat, i: int) -> (k: int)
    requires
        0 <= i < n <= ptys.len(),
    ensures
        0 <= k < replay(ptys, n).len(),
        ptys[i].history.len() > 0 ==> k + 1 < replay(ptys, n).len() && replay(ptys, n)[k] == (
        DaemonMessageModel::History { pty_id: ptys[i].info.id, data: ptys[i].history })
            && replay(ptys, n)[k + 1] == (DaemonMessageModel::HistoryEnd { pty_id: ptys[i].info.id }),
        ptys[i].history.len() == 0 ==> replay(ptys, n)[k] == (DaemonMessageModel::HistoryEnd {
            pty_id: ptys[i].info.id,
        }),
    decreases n,
{
    let before = replay(ptys, (n - 1) as nat);
    if i == n - 1 {
        before.len() as int
    } else {
        lemma_replayed(ptys, (n - 1) as nat, i)
    }
}

/// Whatever a terminal has written is replayed to a client that attaches, whether its command runs
/// or not: the greeting holds exactly that output under the terminal's number, and right behind it
/// that there is no more. The place where it stands is returned.
pub proof fn law_all_output_is_replayed(d: DaemonModel, i: int) -> (k: int)
    requires
        0 <= i < d.manager.ptys.len(),
    ensures
        1 <= k < d.greeting().len(),
        d.manager.ptys[i].history.len() > 0 ==> {
            &&& d.greeting()[k] == (DaemonMessageModel::History {
                pty_id: d.manager.ptys[i].info.id,
                data: d.manager.ptys[i].history,
            })
            &&& k + 1 < d.greeting().len()
            &&& d.greeting()[k + 1] == (DaemonMessageModel::HistoryEnd {
                pty_id: d.manager.ptys[i].info.id,
            })
        },
        d.manager.ptys[i].history.len() == 0 ==> d.greeting()[k] == (DaemonMessageModel::HistoryEnd {
            pty_id: d.manager.ptys[i].info.id,
        }),
{
    let ptys = d.manager.ptys;
    let k = lemma_replayed(ptys, ptys.len(), i);
    let all = replay(ptys, ptys.len());
    assert(d.greeting()[k + 1] == all[k]);
    if k + 1 < all.len() {
        assert(d.greeting()[k + 2] == all[k + 1]);
    }
    k + 1
}

proof fn lemma_only_replayed(ptys: Seq<ManagedPtyModel>, n: nat, k: int) -> (i: int)
    requires
        n <= ptys.len(),
        0 <= k < replay(ptys, n).len(),
    ensures
        0 <= i < n,
        replay(ptys, n)[k] == (DaemonMessageModel::HistoryEnd { pty_id: ptys[i].info.id })
            || ptys[i].history.len() > 0 && replay(ptys, n)[k] == (DaemonMessageModel::History {
            pty_id: ptys[i].info.id,
            data: ptys[i].history,
        }),
    decreases n,
{
    let before = replay(ptys, (n - 1) as nat);
    if k < before.len() {
        lemma_only_replayed(ptys, (n - 1) as nat, k)
    } else {
        n - 1
    }
}

/// Nothing else is in a greeting: behind the welcome every message is the output of a terminal, all
/// of it, or the end of that. The terminal's place is returned.
pub proof fn law_only_output_is_replayed(d: DaemonModel, k: int) -> (i: int)
    requires
        1 <= k < d.greeting().len(),
    ensures
        0 <= i < d.manager.ptys.len(),
        d.greeting()[k] == (DaemonMessageModel::HistoryEnd { pty_id: d.manager.ptys[i].info.id })
            || d.manager.ptys[i].history.len() > 0 && d.greeting()[k] == (DaemonMessageModel::History {
            pty_id: d.manager.ptys[i].info.id,
            data: d.manager.ptys[i].history,
        }),
{
    let ptys = d.manager.ptys;
    assert(d.greeting()[k] == replay(ptys, ptys.len())[k - 1]);
    lemma_only_replayed(ptys, ptys.len(), k - 1)
}

/// A client that attaches is welcomed first, and learns the session's name, the fingerprint of its
/// configuration, the channel in view, and every terminal with its number, name, command, directory
/// and whether it runs, in their order.
pub proof fn law_clients_are_welcomed(d: DaemonModel)
    ensures
        d.greeting().len() > 0,
        d.greeting()[0] matches DaemonMessageModel::Welcome(info) && {
            &&& info.session_id == d.session_id
            &&& info.config_hash == d.config_hash
            &&& info.focused == d.focused
            &&& info.ptys.len() == d.manager.ptys.len()
            &&& forall|i: int| 0 <= i < info.ptys.len() ==> #[trigger] info.ptys[i] == d.manager.ptys[i].info
        },
{
}

/// What a client asks of a terminal reaches the one with that number, as it was asked: input and
/// the wish to kill only while the command runs, a size in any case. Nothing else changes.
pub proof fn law_messages_reach_their_terminal(
    d: DaemonModel,
    connection: usize,
    place: int,
    data: Seq<u8>,
    rows: nat,
    cols: nat,
)
    requires
        d.manager.wf(),
        0 <= place < d.manager.ptys.len(),
    ensures
        ({
            let p = d.manager.ptys[place].info;
            let input = ClientMessageModel::Input { pty_id: p.id, data };
            let resize = ClientMessageModel::Resize { pty_id: p.id, rows, cols };
            let kill = ClientMessageModel::Kill { pty_id: p.id };
            &&& p.running ==> d.asked(connection, input) == (d, ActionModel::Write { place, data })
            &&& p.running ==> d.asked(connection, kill) == (d, ActionModel::Kill { place })
            &&& !p.running ==> d.asked(connection, input) == (d, ActionModel::Nothing)
            &&& !p.running ==> d.asked(connection, kill) == (d, ActionModel::Nothing)
            &&& d.asked(connection, resize) == (d, ActionModel::Resize { place, rows, cols })
        }),
{
    law_terminals_are_found(d.manager, place);
}

/// What a client asks of a terminal that is not there does nothing.
pub proof fn law_unknown_terminals_are_passed_over(
    d: DaemonModel,
    connection: usize,
    id: nat,
    data: Seq<u8>,
    rows: nat,
    cols: nat,
)
    requires
        forall|i: int| 0 <= i < d.manager.ptys.len() ==> (#[trigger] d.manager.ptys[i]).info.id != id,
    ensures
        d.asked(connection, ClientMessageModel::Input { pty_id: id, data }) == (d, ActionModel::Nothing),
        d.asked(connection, ClientMessageModel::Resize { pty_id: id, rows, cols }) == (
            d,
            ActionModel::Nothing,
        ),
        d.asked(connection, ClientMessageModel::Kill { pty_id: id }) == (d, ActionModel::Nothing),
{
    lemma_place_of_pty(d.manager.ptys, id);
}

/// What else a client asks for: a new terminal is started as it was ordered, the channel in view is
/// noted and nothing else, and a client that is in already stays. One that leaves is let go, and the
/// session goes on; one that quits ends it. Whoever leaves, no terminal changes.
pub proof fn law_what_clients_ask_for(
    d: DaemonModel,
    connection: usize,
    config: PtyConfigModel,
    channel_idx: nat,
)
    ensures
        d.asked(connection, ClientMessageModel::Spawn(config)) == (d, ActionModel::Spawn(config)),
        d.asked(connection, ClientMessageModel::SetFocus { channel_idx }) == (
            DaemonModel { focused: channel_idx, ..d },
            ActionModel::Nothing,
        ),
        d.asked(connection, ClientMessageModel::Attach) == (d, ActionModel::Nothing),
        d.asked(connection, ClientMessageModel::AttachTakeover) == (d, ActionModel::Nothing),
        d.asked(connection, ClientMessageModel::Detach).1 == ActionModel::Close,
        d.asked(connection, ClientMessageModel::Quit).1 == ActionModel::Exit,
        d.client == Some(connection) ==> {
            &&& d.asked(connection, ClientMessageModel::Detach).0 == (DaemonModel { client: None, ..d })
            &&& d.asked(connection, ClientMessageModel::Quit).0 == (DaemonModel { client: None, ..d })
            &&& d.detached(connection) == (DaemonModel { client: None, ..d })
        },
        d.client != Some(connection) ==> d.detached(connection) == d,
{
}

/// A connection is opened by a wish to attach and by nothing else. A client that asks while another
/// is attached is told why it is not let in; one that takes over, or that asks while none is, is let
/// in, and nothing but the client changes.
pub proof fn law_how_connections_begin(d: DaemonModel, connection: usize, first: ClientMessageModel)
    ensures
        ({
            let (after, opening) = d.opened(connection, first);
            let taken = DaemonModel { client: Some(connection), ..d };
            &&& first is Attach && d.client is None ==> (after, opening) == (
                taken,
                OpeningModel::Attached { kicked: None },
            )
            &&& first is Attach && d.client is Some ==> (after, opening) == (
                d,
                OpeningModel::TurnedAway(
                    DaemonMessageModel::Rejected {
                        reason: "Another client is connected. Use --takeover to take over."@,
                    },
                ),
            )
            &&& first is AttachTakeover ==> (after, opening) == (
                taken,
                OpeningModel::Attached { kicked: d.client },
            )
            &&& !(first is Attach) && !(first is AttachTakeover) ==> (after, opening) == (
                d,
                OpeningModel::Closed,
            )
        }),
{
}

/// The daemon ends exactly when no command runs and no client is attached.
pub proof fn law_when_the_daemon_ends(d: DaemonModel)
    ensures
        d.is_done() <==> d.client is None && forall|i: int|
            0 <= i < d.manager.ptys.len() ==> !(#[trigger] d.manager.ptys[i]).info.running,
{
}

/// Output is told under the number of its terminal, each lot as it is and in its order.
pub proof fn law_output_is_told(out: Seq<(nat, Seq<u8>)>, i: int)
    requires
        0 <= i < out.len(),
    ensures
        output_messages(out).len() == out.len(),
        output_messages(out)[i] == (DaemonMessageModel::Output { pty_id: out[i].0, data: out[i].1 }),
{
}

proof fn lemma_texts_differ(a: Seq<char>, b: Seq<char>)
    requires
        encode_utf8(a) == encode_utf8(b),
    ensures
        a == b,
{
    encode_utf8_decode_utf8(a);
    encode_utf8_decode_utf8(b);
}

/// The fingerprint of a configuration is taken of all its channels, in their order, with name,
/// command and directory: two lists of channels of which the same is hashed are the same.
pub proof fn law_all_of_the_channels_is_hashed(a: Seq<ChannelConfigModel>, b: Seq<ChannelConfigModel>)
    requires
        hashed_channels(a) == hashed_channels(b),
    ensures
        a == b,
    decreases a.len(),
{
    let h = hashed_channels(a);
    let none = seq![0u8, 0u8, 0u8, 0u8, 0u8, 0u8, 0u8, 0u8];
    if a.len() == 0 || b.len() == 0 {
        if a.len() > 0 {
            assert(hashed_channel(a.last()).len() >= 5);
        }
        if b.len() > 0 {
            assert(hashed_channel(b.last()).len() >= 5);
        }
        assert(a =~= b);
    } else {
        let x = a.last();
        let y = b.last();
        let fx = hashed_channels(a.drop_last());
        let fy = hashed_channels(b.drop_last());
        let hx = hashed_channel(x);
        let hy = hashed_channel(y);
        assert(h == fx + hx && h == fy + hy);
        assert(hx.len() == if x.cwd is Some { 7nat } else { 5nat });
        assert(hy.len() == if y.cwd is Some { 7nat } else { 5nat });
        assert(hx.last() == h.last() && hy.last() == h.last());
        assert(x.cwd is Some ==> hx.last() == seq![0xffu8]);
        assert(y.cwd is Some ==> hy.last() == seq![0xffu8]);
        assert(x.cwd is None ==> hx.last() == none);
        assert(y.cwd is None ==> hy.last() == none);
        assert(none.len() == 8 && seq![0xffu8].len() == 1);
        assert(hx.len() == hy.len());
        assert(fx.len() == fy.len());
        assert(fx =~= fy) by {
            assert forall|i: int| 0 <= i < fx.len() implies fx[i] == fy[i] by {
                assert(h[i] == fx[i]);
                assert(h[i] == fy[i]);
            }
        }
        assert(hx =~= hy) by {
            assert forall|i: int| 0 <= i < hx.len() implies hx[i] == hy[i] by {
                assert(h[fx.len() + i] == hx[i]);
                assert(h[fy.len() + i] == hy[i]);
            }
        }
        assert(hx[0] == encode_utf8(x.name) && hy[0] == encode_utf8(y.name));
        assert(hx[2] == encode_utf8(x.command) && hy[2] == encode_utf8(y.command));
        lemma_texts_differ(x.name, y.name);
        lemma_texts_differ(x.command, y.command);
        if x.cwd is Some {
            assert(hx[5] == encode_utf8(x.cwd->0) && hy[5] == encode_utf8(y.cwd->0));
            lemma_texts_differ(x.cwd->0, y.cwd->0);
        }
        assert(x == y);
        law_all_of_the_channels_is_hashed(a.drop_last(), b.drop_last());
        assert(a =~= a.drop_last().push(x));
        assert(b =~= b.drop_last().push(y));
    }
}

/// The configuration of an agent's chaperone holds the agent's name, how it is run, and the
/// directory that it works in if it has one.
pub proof fn law_what_agents_are_run_with(name: Seq<char>, mode: Seq<char>, dir: Seq<char>)
    ensures
        agent_config_is(name, mode, None) == "name = \""@ + name + "\"\nmode = \""@ + mode + "\"\n"@,
        agent_config_is(name, mode, Some(dir)) == agent_config_is(name, mode, None) + "cwd = \""@ + dir
            + "\"\n"@,
{
    assert(agent_config_is(name, mode, None) =~= "name = \""@ + name + "\"\nmode = \""@ + mode + "\"\n"@);
    assert(agent_config_is(name, mode, Some(dir)) =~= agent_config_is(name, mode, None) + "cwd = \""@ + dir
        + "\"\n"@);
}

/// The fingerprint is taken of what is hashed of the channels, and of nothing else: of each one in its
/// turn its name, its command, and its directory if it has one.
pub proof fn law_what_the_fingerprint_is_of(cs: Seq<ChannelConfigModel>, c: ChannelConfigModel)
    ensures
        channels_hash(cs) == DefaultHasher::spec_finish(hashed_channels(cs)),
        hashed_channels(Seq::empty()).len() == 0,
        hashed_channels(cs.push(c)) == hashed_channels(cs) + hashed_channel(c),
        ({
            let none = seq![0u8, 0, 0, 0, 0, 0, 0, 0];
            let some = seq![1u8, 0, 0, 0, 0, 0, 0, 0];
            let end = seq![0xffu8];
            let start = seq![encode_utf8(c.name), end, encode_utf8(c.command), end];
            &&& c.cwd is None ==> hashed_channel(c) == start + seq![none]
            &&& c.cwd is Some ==> hashed_channel(c) == start + seq![some, encode_utf8(c.cwd->0), end]
        }),
{
    assert(cs.push(c).drop_last() =~= cs);
    let none = seq![0u8, 0, 0, 0, 0, 0, 0, 0];
    let some = seq![1u8, 0, 0, 0, 0, 0, 0, 0];
    let end = seq![0xffu8];
    let start = seq![encode_utf8(c.name), end, encode_utf8(c.command), end];
    if c.cwd is Some {
        assert(hashed_channel(c) =~= start + seq![some, encode_utf8(c.cwd->0), end]);
    } else {
        assert(hashed_channel(c) =~= start + seq![none]);
    }
}

} // verus!
