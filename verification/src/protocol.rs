//! Messages between the session daemon and its client.
//!
//! On a socket every message is four bytes of length, lowest first, and then the
//! byte form of the message.

use vstd::prelude::*;
use vstd::string::*;
use vstd::utf8::*;

use crate::wire::{at, get_row, le_bytes, le_value, put_row, row_bytes, row_fits, row_models};
use crate::wire::{DecodeError, Wire};
use crate::wire::{
    lemma_at_concat, lemma_byte_ranges, lemma_choice, lemma_le_read_back, lemma_le_write_back,
    lemma_row_unique,
};

verus! {

/// What a client learns of a session when it connects.
#[derive(Debug, Clone)]
pub struct SessionInfo {
    /// The name of the session.
    pub session_id: String,
    /// A fingerprint of the configuration, to notice when it changes.
    pub config_hash: u64,
    /// The terminals of the session.
    pub ptys: Vec<PtyInfo>,
    /// The channel that was in view last.
    pub focused: usize,
}

/// What a client learns of one terminal.
#[derive(Debug, Clone)]
pub struct PtyInfo {
    /// The number of the terminal in its session.
    pub id: usize,
    /// The channel it belongs to.
    pub name: String,
    /// The command that runs in it.
    pub command: String,
    /// The directory that the command runs in.
    pub cwd: Option<String>,
    /// Whether the command still runs.
    pub running: bool,
}

/// How a new terminal is to be started.
#[derive(Debug, Clone)]
pub struct PtyConfig {
    /// The channel it belongs to.
    pub name: String,
    /// The command to run.
    pub command: String,
    /// The directory to run it in.
    pub cwd: Option<String>,
}

/// What a client says to the daemon.
#[derive(Debug, Clone)]
pub enum ClientMessage {
    /// Connect, unless another client is connected.
    Attach,
    /// Connect in place of the client that is connected.
    AttachTakeover,
    /// Input for a terminal.
    Input { pty_id: usize, data: Vec<u8> },
    /// A new size for a terminal.
    Resize { pty_id: usize, rows: u16, cols: u16 },
    /// Remember which channel is in view.
    SetFocus { channel_idx: usize },
    /// Start a terminal.
    Spawn(PtyConfig),
    /// Stop a terminal.
    Kill { pty_id: usize },
    /// Disconnect; the daemon stays.
    Detach,
    /// Stop the daemon and all terminals.
    Quit,
}

/// What the daemon says to a client.
#[derive(Debug, Clone)]
pub enum DaemonMessage {
    /// The client is connected.
    Welcome(SessionInfo),
    /// The client is turned away.
    Rejected { reason: String },
    /// Output of a terminal from before the client connected.
    History { pty_id: usize, data: Vec<u8> },
    /// No more such output for this terminal.
    HistoryEnd { pty_id: usize },
    /// Output of a terminal.
    Output { pty_id: usize, data: Vec<u8> },
    /// The command of a terminal has ended.
    PtyExited { pty_id: usize, exit_code: Option<i32> },
    /// A terminal was started.
    PtySpawned(PtyInfo),
    /// Another client has taken over.
    Kicked,
    /// The daemon stops.
    Shutdown,
}

// ---------------------------------------------------------------------------
// What messages are
// ---------------------------------------------------------------------------

/// A terminal's entry, as a value.
pub struct PtyInfoModel {
    pub id: nat,
    pub name: Seq<char>,
    pub command: Seq<char>,
    pub cwd: Option<Seq<char>>,
    pub running: bool,
}

/// A session's entry, as a value.
pub struct SessionInfoModel {
    pub session_id: Seq<char>,
    pub config_hash: nat,
    pub ptys: Seq<PtyInfoModel>,
    pub focused: nat,
}

/// How a terminal is to be started, as a value.
pub struct PtyConfigModel {
    pub name: Seq<char>,
    pub command: Seq<char>,
    pub cwd: Option<Seq<char>>,
}

/// A client's message, as a value.
pub enum ClientMessageModel {
    Attach,
    AttachTakeover,
    Input { pty_id: nat, data: Seq<u8> },
    Resize { pty_id: nat, rows: nat, cols: nat },
    SetFocus { channel_idx: nat },
    Spawn(PtyConfigModel),
    Kill { pty_id: nat },
    Detach,
    Quit,
}

/// A daemon's message, as a value.
pub enum DaemonMessageModel {
    Welcome(SessionInfoModel),
    Rejected { reason: Seq<char> },
    History { pty_id: nat, data: Seq<u8> },
    HistoryEnd { pty_id: nat },
    Output { pty_id: nat, data: Seq<u8> },
    PtyExited { pty_id: nat, exit_code: Option<int> },
    PtySpawned(PtyInfoModel),
    Kicked,
    Shutdown,
}

type PtyInfoFields = (usize, (String, (String, (Option<String>, bool))));

type PtyConfigFields = (String, (String, Option<String>));

/// The fields of a terminal's entry in the order in which they travel.
pub open spec fn pty_info_fields(m: PtyInfoModel) -> (nat, (Seq<char>, (Seq<char>, (Option<Seq<char>>, bool)))) {
    (m.id, (m.name, (m.command, (m.cwd, m.running))))
}

/// The fields of a start order in the order in which they travel.
pub open spec fn pty_config_fields(m: PtyConfigModel) -> (Seq<char>, (Seq<char>, Option<Seq<char>>)) {
    (m.name, (m.command, m.cwd))
}

impl Wire for PtyInfo {
    type Model = PtyInfoModel;

    open spec fn model(&self) -> PtyInfoModel {
        PtyInfoModel {
            id: self.id as nat,
            name: self.name@,
            command: self.command@,
            cwd: self.cwd.model(),
            running: self.running,
        }
    }

    open spec fn fits(m: PtyInfoModel) -> bool {
        <(usize, (String, (String, (Option<String>, bool))))>::fits(pty_info_fields(m))
    }

    open spec fn wire(m: PtyInfoModel) -> Seq<u8> {
        <(usize, (String, (String, (Option<String>, bool))))>::wire(pty_info_fields(m))
    }

    proof fn wire_unique(a: PtyInfoModel, b: PtyInfoModel, buf: Seq<u8>, pos: int) {
        PtyInfoFields::wire_unique(pty_info_fields(a), pty_info_fields(b), buf, pos);
    }

    fn put(&self, out: &mut Vec<u8>) {
        self.id.put(out);
        self.name.put(out);
        self.command.put(out);
        self.cwd.put(out);
        self.running.put(out);
        assert(out@ == old(out)@ + Self::wire(self.model()));
    }

    fn get(buf: &[u8], pos: usize) -> (r: Result<(Self, usize), DecodeError>) {
        match PtyInfoFields::get(buf, pos) {
            Ok(((id, (name, (command, (cwd, running)))), end)) => {
                Ok((PtyInfo { id, name, command, cwd, running }, end))
            },
            Err(e) => {
                proof {
                    assert forall|m: PtyInfoModel| Self::fits(m) implies !at(buf@, pos as int, #[trigger] Self::wire(m)) by {
                        assert(!at(buf@, pos as int, PtyInfoFields::wire(pty_info_fields(m))));
                    }
                }
                Err(e)
            },
        }
    }
}

impl Wire for PtyConfig {
    type Model = PtyConfigModel;

    open spec fn model(&self) -> PtyConfigModel {
        PtyConfigModel { name: self.name@, command: self.command@, cwd: self.cwd.model() }
    }

    open spec fn fits(m: PtyConfigModel) -> bool {
        <(String, (String, Option<String>))>::fits(pty_config_fields(m))
    }

    open spec fn wire(m: PtyConfigModel) -> Seq<u8> {
        <(String, (String, Option<String>))>::wire(pty_config_fields(m))
    }

    proof fn wire_unique(a: PtyConfigModel, b: PtyConfigModel, buf: Seq<u8>, pos: int) {
        PtyConfigFields::wire_unique(pty_config_fields(a), pty_config_fields(b), buf, pos);
    }

    fn put(&self, out: &mut Vec<u8>) {
        self.name.put(out);
        self.command.put(out);
        self.cwd.put(out);
        assert(out@ == old(out)@ + Self::wire(self.model()));
    }

    fn get(buf: &[u8], pos: usize) -> (r: Result<(Self, usize), DecodeError>) {
        match PtyConfigFields::get(buf, pos) {
            Ok(((name, (command, cwd)), end)) => Ok((PtyConfig { name, command, cwd }, end)),
            Err(e) => {
                proof {
                    assert forall|m: PtyConfigModel| Self::fits(m) implies !at(buf@, pos as int, #[trigger] Self::wire(m)) by {
                        assert(!at(buf@, pos as int, PtyConfigFields::wire(pty_config_fields(m))));
                    }
                }
                Err(e)
            },
        }
    }
}

/// A list of terminals: how many there are in eight bytes, then each entry.
impl Wire for Vec<PtyInfo> {
    type Model = Seq<PtyInfoModel>;

    open spec fn model(&self) -> Seq<PtyInfoModel> {
        row_models(self@)
    }

    open spec fn fits(m: Seq<PtyInfoModel>) -> bool {
        m.len() <= usize::MAX && row_fits::<PtyInfo>(m)
    }

    open spec fn wire(m: Seq<PtyInfoModel>) -> Seq<u8> {
        le_bytes(m.len(), 8) + row_bytes::<PtyInfo>(m)
    }

    proof fn wire_unique(a: Seq<PtyInfoModel>, b: Seq<PtyInfoModel>, buf: Seq<u8>, pos: int) {
        lemma_list(a, buf, pos);
        lemma_list(b, buf, pos);
        <u64 as Wire>::wire_unique(a.len(), b.len(), buf, pos);
        lemma_row_unique::<PtyInfo>(a, b, buf, pos + 8);
    }

    fn put(&self, out: &mut Vec<u8>) {
        (self.len() as u64).put(out);
        put_row(self, out);
        assert(out@ == old(out)@ + Self::wire(self.model()));
    }

    fn get(buf: &[u8], pos: usize) -> (r: Result<(Self, usize), DecodeError>) {
        proof {
            assert forall|m: Seq<PtyInfoModel>| #[trigger] Self::fits(m) && at(buf@, pos as int, Self::wire(m)) implies at(
                buf@,
                pos as int,
                <u64 as Wire>::wire(m.len()),
            ) && at(buf@, pos + 8, row_bytes::<PtyInfo>(m)) by {
                lemma_list(m, buf@, pos as int);
            }
        }
        match u64::get(buf, pos) {
            Ok((count, next)) => {
                proof {
                    lemma_byte_ranges();
                    lemma_le_read_back(count as nat, 8);
                    assert forall|m: Seq<PtyInfoModel>| #[trigger] Self::fits(m) && at(buf@, pos as int, Self::wire(m)) implies m.len()
                        == count by {
                        <u64 as Wire>::wire_unique(m.len(), count as nat, buf@, pos as int);
                    }
                }
                match get_row::<PtyInfo>(buf, next, count) {
                    Ok((row, end)) => {
                        let n = row.len();
                        proof {
                            lemma_at_concat(
                                buf@,
                                pos as int,
                                le_bytes(count as nat, 8),
                                row_bytes::<PtyInfo>(row_models(row@)),
                            );
                        }
                        Ok((row, end))
                    },
                    Err(e) => Err(e),
                }
            },
            Err(e) => Err(e),
        }
    }
}

proof fn lemma_list(m: Seq<PtyInfoModel>, buf: Seq<u8>, pos: int)
    requires
        m.len() <= usize::MAX,
        at(buf, pos, Vec::<PtyInfo>::wire(m)),
    ensures
        at(buf, pos, <u64 as Wire>::wire(m.len())),
        at(buf, pos + 8, row_bytes::<PtyInfo>(m)),
{
    lemma_byte_ranges();
    lemma_le_read_back(m.len(), 8);
    lemma_at_concat(buf, pos, le_bytes(m.len(), 8), row_bytes::<PtyInfo>(m));
}

type SessionInfoFields = (String, (u64, (Vec<PtyInfo>, usize)));

/// The fields of a session's entry in the order in which they travel.
pub open spec fn session_info_fields(m: SessionInfoModel) -> (Seq<char>, (nat, (Seq<PtyInfoModel>, nat))) {
    (m.session_id, (m.config_hash, (m.ptys, m.focused)))
}

impl Wire for SessionInfo {
    type Model = SessionInfoModel;

    open spec fn model(&self) -> SessionInfoModel {
        SessionInfoModel {
            session_id: self.session_id@,
            config_hash: self.config_hash as nat,
            ptys: self.ptys.model(),
            focused: self.focused as nat,
        }
    }

    open spec fn fits(m: SessionInfoModel) -> bool {
        <(String, (u64, (Vec<PtyInfo>, usize)))>::fits(session_info_fields(m))
    }

    open spec fn wire(m: SessionInfoModel) -> Seq<u8> {
        <(String, (u64, (Vec<PtyInfo>, usize)))>::wire(session_info_fields(m))
    }

    proof fn wire_unique(a: SessionInfoModel, b: SessionInfoModel, buf: Seq<u8>, pos: int) {
        SessionInfoFields::wire_unique(session_info_fields(a), session_info_fields(b), buf, pos);
    }

    fn put(&self, out: &mut Vec<u8>) {
        self.session_id.put(out);
        self.config_hash.put(out);
        self.ptys.put(out);
        self.focused.put(out);
        assert(out@ == old(out)@ + Self::wire(self.model()));
    }

    fn get(buf: &[u8], pos: usize) -> (r: Result<(Self, usize), DecodeError>) {
        match SessionInfoFields::get(buf, pos) {
            Ok(((session_id, (config_hash, (ptys, focused))), end)) => {
                Ok((SessionInfo { session_id, config_hash, ptys, focused }, end))
            },
            Err(e) => {
                proof {
                    assert forall|m: SessionInfoModel| Self::fits(m) implies !at(buf@, pos as int, #[trigger] Self::wire(m)) by {
                        assert(!at(buf@, pos as int, SessionInfoFields::wire(session_info_fields(m))));
                    }
                }
                Err(e)
            },
        }
    }
}

/// The number of a client's message.
pub open spec fn client_number(m: ClientMessageModel) -> nat {
    match m {
        ClientMessageModel::Attach => 0,
        ClientMessageModel::AttachTakeover => 1,
        ClientMessageModel::Input { .. } => 2,
        ClientMessageModel::Resize { .. } => 3,
        ClientMessageModel::SetFocus { .. } => 4,
        ClientMessageModel::Spawn(_) => 5,
        ClientMessageModel::Kill { .. } => 6,
        ClientMessageModel::Detach => 7,
        ClientMessageModel::Quit => 8,
    }
}

/// The byte form of what a client's message carries.
pub open spec fn client_body(m: ClientMessageModel) -> Seq<u8> {
    match m {
        ClientMessageModel::Input { pty_id, data } => <(usize, Vec<u8>)>::wire((pty_id, data)),
        ClientMessageModel::Resize { pty_id, rows, cols } => <(usize, (u16, u16))>::wire(
            (pty_id, (rows, cols)),
        ),
        ClientMessageModel::SetFocus { channel_idx } => usize::wire(channel_idx),
        ClientMessageModel::Spawn(config) => PtyConfig::wire(config),
        ClientMessageModel::Kill { pty_id } => usize::wire(pty_id),
        _ => Seq::empty(),
    }
}

impl Wire for ClientMessage {
    type Model = ClientMessageModel;

    open spec fn model(&self) -> ClientMessageModel {
        match self {
            ClientMessage::Attach => ClientMessageModel::Attach,
            ClientMessage::AttachTakeover => ClientMessageModel::AttachTakeover,
            ClientMessage::Input { pty_id, data } => ClientMessageModel::Input {
                pty_id: *pty_id as nat,
                data: data@,
            },
            ClientMessage::Resize { pty_id, rows, cols } => ClientMessageModel::Resize {
                pty_id: *pty_id as nat,
                rows: *rows as nat,
                cols: *cols as nat,
            },
            ClientMessage::SetFocus { channel_idx } => ClientMessageModel::SetFocus {
                channel_idx: *channel_idx as nat,
            },
            ClientMessage::Spawn(config) => ClientMessageModel::Spawn(config.model()),
            ClientMessage::Kill { pty_id } => ClientMessageModel::Kill { pty_id: *pty_id as nat },
            ClientMessage::Detach => ClientMessageModel::Detach,
            ClientMessage::Quit => ClientMessageModel::Quit,
        }
    }

    open spec fn fits(m: ClientMessageModel) -> bool {
        match m {
            ClientMessageModel::Input { pty_id, data } => <(usize, Vec<u8>)>::fits((pty_id, data)),
            ClientMessageModel::Resize { pty_id, rows, cols } => <(usize, (u16, u16))>::fits(
                (pty_id, (rows, cols)),
            ),
            ClientMessageModel::SetFocus { channel_idx } => usize::fits(channel_idx),
            ClientMessageModel::Spawn(config) => PtyConfig::fits(config),
            ClientMessageModel::Kill { pty_id } => usize::fits(pty_id),
            _ => true,
        }
    }

    open spec fn wire(m: ClientMessageModel) -> Seq<u8> {
        le_bytes(client_number(m), 4) + client_body(m)
    }

    proof fn wire_unique(a: ClientMessageModel, b: ClientMessageModel, buf: Seq<u8>, pos: int) {
        lemma_choice(client_number(a), client_body(a), buf, pos);
        lemma_choice(client_number(b), client_body(b), buf, pos);
        <u32 as Wire>::wire_unique(client_number(a), client_number(b), buf, pos);
        match a {
            ClientMessageModel::Input { pty_id, data } => {
                <(usize, Vec<u8>)>::wire_unique((pty_id, data), (b->Input_pty_id, b->Input_data), buf, pos + 4);
            },
            ClientMessageModel::Resize { pty_id, rows, cols } => {
                <(usize, (u16, u16))>::wire_unique(
                    (pty_id, (rows, cols)),
                    (b->Resize_pty_id, (b->Resize_rows, b->Resize_cols)),
                    buf,
                    pos + 4,
                );
            },
            ClientMessageModel::SetFocus { channel_idx } => {
                <usize as Wire>::wire_unique(channel_idx, b->SetFocus_channel_idx, buf, pos + 4);
            },
            ClientMessageModel::Spawn(config) => {
                PtyConfig::wire_unique(config, b->Spawn_0, buf, pos + 4);
            },
            ClientMessageModel::Kill { pty_id } => {
                <usize as Wire>::wire_unique(pty_id, b->Kill_pty_id, buf, pos + 4);
            },
            _ => {},
        }
    }

    fn put(&self, out: &mut Vec<u8>) {
        match self {
            ClientMessage::Attach => {
                0u32.put(out);
            },
            ClientMessage::AttachTakeover => {
                1u32.put(out);
            },
            ClientMessage::Input { pty_id, data } => {
                2u32.put(out);
                pty_id.put(out);
                data.put(out);
            },
            ClientMessage::Resize { pty_id, rows, cols } => {
                3u32.put(out);
                pty_id.put(out);
                rows.put(out);
                cols.put(out);
            },
            ClientMessage::SetFocus { channel_idx } => {
                4u32.put(out);
                channel_idx.put(out);
            },
            ClientMessage::Spawn(config) => {
                5u32.put(out);
                config.put(out);
            },
            ClientMessage::Kill { pty_id } => {
                6u32.put(out);
                pty_id.put(out);
            },
            ClientMessage::Detach => {
                7u32.put(out);
            },
            ClientMessage::Quit => {
                8u32.put(out);
            },
        }
        assert(out@ == old(out)@ + Self::wire(self.model()));
    }

    fn get(buf: &[u8], pos: usize) -> (r: Result<(Self, usize), DecodeError>) {
        proof {
            assert forall|m: ClientMessageModel| #[trigger] Self::fits(m) && at(buf@, pos as int, Self::wire(m)) implies at(
                buf@,
                pos as int,
                <u32 as Wire>::wire(client_number(m)),
            ) && at(buf@, pos + 4, client_body(m)) by {
                lemma_choice(client_number(m), client_body(m), buf@, pos as int);
            }
        }
        let (number, next) = match u32::get(buf, pos) {
            Ok(x) => x,
            Err(e) => {
                return Err(e);
            },
        };
        proof {
            lemma_choice(number as nat, Seq::empty(), buf@, pos as int);
            assert(buf@.subrange(pos + 4, pos + 4) == Seq::<u8>::empty());
            assert forall|m: ClientMessageModel| #[trigger] Self::fits(m) && at(buf@, pos as int, Self::wire(m)) implies client_number(m)
                == number by {
                <u32 as Wire>::wire_unique(client_number(m), number as nat, buf@, pos as int);
            }
        }
        let (msg, end) = match number {
            0 => (ClientMessage::Attach, next),
            1 => (ClientMessage::AttachTakeover, next),
            2 => match <(usize, Vec<u8>)>::get(buf, next) {
                Ok(((pty_id, data), end)) => (ClientMessage::Input { pty_id, data }, end),
                Err(e) => {
                    return Err(e);
                },
            },
            3 => match <(usize, (u16, u16))>::get(buf, next) {
                Ok(((pty_id, (rows, cols)), end)) => (ClientMessage::Resize { pty_id, rows, cols }, end),
                Err(e) => {
                    return Err(e);
                },
            },
            4 => match usize::get(buf, next) {
                Ok((channel_idx, end)) => (ClientMessage::SetFocus { channel_idx }, end),
                Err(e) => {
                    return Err(e);
                },
            },
            5 => match PtyConfig::get(buf, next) {
                Ok((config, end)) => (ClientMessage::Spawn(config), end),
                Err(e) => {
                    return Err(e);
                },
            },
            6 => match usize::get(buf, next) {
                Ok((pty_id, end)) => (ClientMessage::Kill { pty_id }, end),
                Err(e) => {
                    return Err(e);
                },
            },
            7 => (ClientMessage::Detach, next),
            8 => (ClientMessage::Quit, next),
            _ => {
                return Err(DecodeError::Malformed);
            },
        };
        proof {
            lemma_choice(client_number(msg.model()), client_body(msg.model()), buf@, pos as int);
        }
        Ok((msg, end))
    }
}

/// The number of a daemon's message.
pub open spec fn daemon_number(m: DaemonMessageModel) -> nat {
    match m {
        DaemonMessageModel::Welcome(_) => 0,
        DaemonMessageModel::Rejected { .. } => 1,
        DaemonMessageModel::History { .. } => 2,
        DaemonMessageModel::HistoryEnd { .. } => 3,
        DaemonMessageModel::Output { .. } => 4,
        DaemonMessageModel::PtyExited { .. } => 5,
        DaemonMessageModel::PtySpawned(_) => 6,
        DaemonMessageModel::Kicked => 7,
        DaemonMessageModel::Shutdown => 8,
    }
}

/// The byte form of what a daemon's message carries.
pub open spec fn daemon_body(m: DaemonMessageModel) -> Seq<u8> {
    match m {
        DaemonMessageModel::Welcome(info) => SessionInfo::wire(info),
        DaemonMessageModel::Rejected { reason } => String::wire(reason),
        DaemonMessageModel::History { pty_id, data } => <(usize, Vec<u8>)>::wire((pty_id, data)),
        DaemonMessageModel::HistoryEnd { pty_id } => usize::wire(pty_id),
        DaemonMessageModel::Output { pty_id, data } => <(usize, Vec<u8>)>::wire((pty_id, data)),
        DaemonMessageModel::PtyExited { pty_id, exit_code } => <(usize, Option<i32>)>::wire(
            (pty_id, exit_code),
        ),
        DaemonMessageModel::PtySpawned(info) => PtyInfo::wire(info),
        _ => Seq::empty(),
    }
}

impl Wire for DaemonMessage {
    type Model = DaemonMessageModel;

    open spec fn model(&self) -> DaemonMessageModel {
        match self {
            DaemonMessage::Welcome(info) => DaemonMessageModel::Welcome(info.model()),
            DaemonMessage::Rejected { reason } => DaemonMessageModel::Rejected { reason: reason@ },
            DaemonMessage::History { pty_id, data } => DaemonMessageModel::History {
                pty_id: *pty_id as nat,
                data: data@,
            },
            DaemonMessage::HistoryEnd { pty_id } => DaemonMessageModel::HistoryEnd {
                pty_id: *pty_id as nat,
            },
            DaemonMessage::Output { pty_id, data } => DaemonMessageModel::Output {
                pty_id: *pty_id as nat,
                data: data@,
            },
            DaemonMessage::PtyExited { pty_id, exit_code } => DaemonMessageModel::PtyExited {
                pty_id: *pty_id as nat,
                exit_code: exit_code.model(),
            },
            DaemonMessage::PtySpawned(info) => DaemonMessageModel::PtySpawned(info.model()),
            DaemonMessage::Kicked => DaemonMessageModel::Kicked,
            DaemonMessage::Shutdown => DaemonMessageModel::Shutdown,
        }
    }

    open spec fn fits(m: DaemonMessageModel) -> bool {
        match m {
            DaemonMessageModel::Welcome(info) => SessionInfo::fits(info),
            DaemonMessageModel::Rejected { reason } => String::fits(reason),
            DaemonMessageModel::History { pty_id, data } => <(usize, Vec<u8>)>::fits((pty_id, data)),
            DaemonMessageModel::HistoryEnd { pty_id } => usize::fits(pty_id),
            DaemonMessageModel::Output { pty_id, data } => <(usize, Vec<u8>)>::fits((pty_id, data)),
            DaemonMessageModel::PtyExited { pty_id, exit_code } => <(usize, Option<i32>)>::fits(
                (pty_id, exit_code),
            ),
            DaemonMessageModel::PtySpawned(info) => PtyInfo::fits(info),
            _ => true,
        }
    }

    open spec fn wire(m: DaemonMessageModel) -> Seq<u8> {
        le_bytes(daemon_number(m), 4) + daemon_body(m)
    }

    proof fn wire_unique(a: DaemonMessageModel, b: DaemonMessageModel, buf: Seq<u8>, pos: int) {
        lemma_choice(daemon_number(a), daemon_body(a), buf, pos);
        lemma_choice(daemon_number(b), daemon_body(b), buf, pos);
        <u32 as Wire>::wire_unique(daemon_number(a), daemon_number(b), buf, pos);
        match a {
            DaemonMessageModel::Welcome(info) => {
                SessionInfo::wire_unique(info, b->Welcome_0, buf, pos + 4);
            },
            DaemonMessageModel::Rejected { reason } => {
                String::wire_unique(reason, b->Rejected_reason, buf, pos + 4);
            },
            DaemonMessageModel::History { pty_id, data } => {
                <(usize, Vec<u8>)>::wire_unique((pty_id, data), (b->History_pty_id, b->History_data), buf, pos + 4);
            },
            DaemonMessageModel::HistoryEnd { pty_id } => {
                <usize as Wire>::wire_unique(pty_id, b->HistoryEnd_pty_id, buf, pos + 4);
            },
            DaemonMessageModel::Output { pty_id, data } => {
                <(usize, Vec<u8>)>::wire_unique((pty_id, data), (b->Output_pty_id, b->Output_data), buf, pos + 4);
            },
            DaemonMessageModel::PtyExited { pty_id, exit_code } => {
                <(usize, Option<i32>)>::wire_unique(
                    (pty_id, exit_code),
                    (b->PtyExited_pty_id, b->PtyExited_exit_code),
                    buf,
                    pos + 4,
                );
            },
            DaemonMessageModel::PtySpawned(info) => {
                PtyInfo::wire_unique(info, b->PtySpawned_0, buf, pos + 4);
            },
            _ => {},
        }
    }

    fn put(&self, out: &mut Vec<u8>) {
        match self {
            DaemonMessage::Welcome(info) => {
                0u32.put(out);
                info.put(out);
            },
            DaemonMessage::Rejected { reason } => {
                1u32.put(out);
                reason.put(out);
            },
            DaemonMessage::History { pty_id, data } => {
                2u32.put(out);
                pty_id.put(out);
                data.put(out);
            },
            DaemonMessage::HistoryEnd { pty_id } => {
                3u32.put(out);
                pty_id.put(out);
            },
            DaemonMessage::Output { pty_id, data } => {
                4u32.put(out);
                pty_id.put(out);
                data.put(out);
            },
            DaemonMessage::PtyExited { pty_id, exit_code } => {
                5u32.put(out);
                pty_id.put(out);
                exit_code.put(out);
            },
            DaemonMessage::PtySpawned(info) => {
                6u32.put(out);
                info.put(out);
            },
            DaemonMessage::Kicked => {
                7u32.put(out);
            },
            DaemonMessage::Shutdown => {
                8u32.put(out);
            },
        }
        assert(out@ == old(out)@ + Self::wire(self.model()));
    }

    fn get(buf: &[u8], pos: usize) -> (r: Result<(Self, usize), DecodeError>) {
        proof {
            assert forall|m: DaemonMessageModel| #[trigger] Self::fits(m) && at(buf@, pos as int, Self::wire(m)) implies at(
                buf@,
                pos as int,
                <u32 as Wire>::wire(daemon_number(m)),
            ) && at(buf@, pos + 4, daemon_body(m)) by {
                lemma_choice(daemon_number(m), daemon_body(m), buf@, pos as int);
            }
        }
        let (number, next) = match u32::get(buf, pos) {
            Ok(x) => x,
            Err(e) => {
                return Err(e);
            },
        };
        proof {
            lemma_choice(number as nat, Seq::empty(), buf@, pos as int);
            assert(buf@.subrange(pos + 4, pos + 4) == Seq::<u8>::empty());
            assert forall|m: DaemonMessageModel| #[trigger] Self::fits(m) && at(buf@, pos as int, Self::wire(m)) implies daemon_number(m)
                == number by {
                <u32 as Wire>::wire_unique(daemon_number(m), number as nat, buf@, pos as int);
            }
        }
        let (msg, end) = match number {
            0 => match SessionInfo::get(buf, next) {
                Ok((info, end)) => (DaemonMessage::Welcome(info), end),
                Err(e) => {
                    return Err(e);
                },
            },
            1 => match String::get(buf, next) {
                Ok((reason, end)) => (DaemonMessage::Rejected { reason }, end),
                Err(e) => {
                    return Err(e);
                },
            },
            2 => match <(usize, Vec<u8>)>::get(buf, next) {
                Ok(((pty_id, data), end)) => (DaemonMessage::History { pty_id, data }, end),
                Err(e) => {
                    return Err(e);
                },
            },
            3 => match usize::get(buf, next) {
                Ok((pty_id, end)) => (DaemonMessage::HistoryEnd { pty_id }, end),
                Err(e) => {
                    return Err(e);
                },
            },
            4 => match <(usize, Vec<u8>)>::get(buf, next) {
                Ok(((pty_id, data), end)) => (DaemonMessage::Output { pty_id, data }, end),
                Err(e) => {
                    return Err(e);
                },
            },
            5 => match <(usize, Option<i32>)>::get(buf, next) {
                Ok(((pty_id, exit_code), end)) => (DaemonMessage::PtyExited { pty_id, exit_code }, end),
                Err(e) => {
                    return Err(e);
                },
            },
            6 => match PtyInfo::get(buf, next) {
                Ok((info, end)) => (DaemonMessage::PtySpawned(info), end),
                Err(e) => {
                    return Err(e);
                },
            },
            7 => (DaemonMessage::Kicked, next),
            8 => (DaemonMessage::Shutdown, next),
            _ => {
                return Err(DecodeError::Malformed);
            },
        };
        proof {
            lemma_choice(daemon_number(msg.model()), daemon_body(msg.model()), buf@, pos as int);
        }
        Ok((msg, end))
    }
}

// ---------------------------------------------------------------------------
// Frames
// ---------------------------------------------------------------------------

/// Why a message could not be written.
#[derive(Debug, Clone, Copy, PartialEq, Eq, Structural)]
pub enum EncodeError {
    /// The message has no byte form. Every message has one, so this does not occur.
    Unwritable,
}

/// A payload as it travels: its length in four bytes, then the payload. A length
/// that does not fit in four bytes loses its upper part.
pub open spec fn frame(payload: Seq<u8>) -> Seq<u8> {
    le_bytes(payload.len() % 0x1_0000_0000, 4) + payload
}

/// What decoding gives: the message whose byte form the bytes start with, and an
/// error just if they start with none.
pub open spec fn decoded<T: Wire>(buf: Seq<u8>, r: Result<T, DecodeError>) -> bool {
    match r {
        Ok(v) => T::fits(v.model()) && at(buf, 0, T::wire(v.model())),
        Err(_) => forall|m: T::Model| T::fits(m) ==> !at(buf, 0, #[trigger] T::wire(m)),
    }
}

/// Writes a message with its length before it.
pub fn encode<T: Wire>(msg: &T) -> (r: Result<Vec<u8>, EncodeError>)
    ensures
        r is Ok,
        T::fits(msg.model()),
        r->Ok_0@ == frame(T::wire(msg.model())),
{
    let mut payload: Vec<u8> = Vec::new();
    msg.put(&mut payload);
    let len: u32 = (payload.len() as u64 % 0x1_0000_0000) as u32;
    let mut buf: Vec<u8> = Vec::new();
    len.put(&mut buf);
    buf.append(&mut payload);
    assert(buf@ == frame(T::wire(msg.model())));
    Ok(buf)
}

/// Reads the length at the start of a frame; says how many bytes it took.
pub fn decode_length(buf: &[u8]) -> (r: Option<(usize, usize)>)
    ensures
        r is None <==> buf@.len() < 4,
        r matches Some((len, taken)) ==> len == le_value(buf@.take(4)) && taken == 4,
{
    if buf.len() < 4 {
        return None;
    }
    proof {
        lemma_byte_ranges();
        lemma_le_write_back(buf@.take(4));
        assert(buf@.take(4) == buf@.subrange(0, 4));
        assert(at(buf@, 0, <u32 as Wire>::wire(le_value(buf@.take(4)))));
    }
    match u32::get(buf, 0) {
        Ok((len, _)) => {
            proof {
                <u32 as Wire>::wire_unique(len as nat, le_value(buf@.take(4)), buf@, 0);
            }
            Some((len as usize, 4))
        },
        Err(_) => None,
    }
}

/// Reads a message from the bytes after its length.
pub fn decode<T: Wire>(buf: &[u8]) -> (r: Result<T, DecodeError>)
    ensures
        decoded(buf@, r),
{
    match T::get(buf, 0) {
        Ok((v, _)) => Ok(v),
        Err(e) => Err(e),
    }
}

// ---------------------------------------------------------------------------
// Laws
// ---------------------------------------------------------------------------

/// What was written is read back: decoding the byte form of a message, with
/// anything after it, gives the message.
pub proof fn law_decode_reads_back<T: Wire>(m: T::Model, rest: Seq<u8>, r: Result<T, DecodeError>)
    requires
        T::fits(m),
        decoded(T::wire(m) + rest, r),
    ensures
        r is Ok,
        r->Ok_0.model() == m,
{
    let buf = T::wire(m) + rest;
    assert(buf.subrange(0, T::wire(m).len() as int) == T::wire(m));
    if let Ok(v) = r {
        T::wire_unique(v.model(), m, buf, 0);
    }
}

/// The length at the start of a frame is the number of bytes after it, and those
/// bytes are the payload, if the payload is shorter than four bytes can count.
pub proof fn law_frame_is_cut_off(payload: Seq<u8>)
    requires
        payload.len() < 0x1_0000_0000,
    ensures
        frame(payload).len() == 4 + payload.len(),
        le_value(frame(payload).take(4)) == payload.len(),
        frame(payload).skip(4) == payload,
{
    lemma_byte_ranges();
    lemma_le_read_back(payload.len(), 4);
    assert(frame(payload).take(4) == le_bytes(payload.len(), 4));
}

/// Frames that follow one another are told apart: with a second frame behind the
/// first, the length at the start still ends at the first one's end.
pub proof fn law_frames_follow(first: Seq<u8>, second: Seq<u8>)
    requires
        first.len() < 0x1_0000_0000,
    ensures
        ({
            let stream = frame(first) + frame(second);
            let len = le_value(stream.take(4)) as int;
            &&& stream.subrange(4, 4 + len) == first
            &&& stream.skip(4 + len) == frame(second)
        }),
{
    law_frame_is_cut_off(first);
    let stream = frame(first) + frame(second);
    assert(stream.take(4) == frame(first).take(4));
    assert(stream.subrange(4, 4 + first.len() as int) == frame(first).skip(4));
}

/// Two messages with one byte form are one message.
pub proof fn law_messages_differ_on_the_wire<T: Wire>(a: T::Model, b: T::Model)
    requires
        T::fits(a),
        T::fits(b),
        T::wire(a) == T::wire(b),
    ensures
        a == b,
{
    let buf = T::wire(a);
    assert(buf.subrange(0, buf.len() as int) == buf);
    T::wire_unique(a, b, buf, 0);
}

proof fn lemma_small_number(n: nat)
    requires
        n < 256,
    ensures
        le_bytes(n, 4) == seq![n as u8, 0u8, 0u8, 0u8],
{
    reveal_with_fuel(le_bytes, 5);
    assert(le_bytes(n, 4) =~= seq![n as u8, 0u8, 0u8, 0u8]);
}

/// How a client's messages stand on the wire: a number of four bytes that says which message it is,
/// and behind it what the message holds, part by part. Numbers of terminals take eight bytes and
/// sizes two, and bytes stand behind their number.
pub proof fn law_the_wire_form_of_client_messages(
    pty_id: nat,
    data: Seq<u8>,
    rows: nat,
    cols: nat,
    config: PtyConfigModel,
)
    ensures
        ClientMessage::wire(ClientMessageModel::Attach) == seq![0u8, 0, 0, 0],
        ClientMessage::wire(ClientMessageModel::AttachTakeover) == seq![1u8, 0, 0, 0],
        ClientMessage::wire(ClientMessageModel::Input { pty_id, data }) == seq![2u8, 0, 0, 0] + le_bytes(
            pty_id,
            8,
        ) + le_bytes(data.len(), 8) + data,
        ClientMessage::wire(ClientMessageModel::Resize { pty_id, rows, cols }) == seq![3u8, 0, 0, 0]
            + le_bytes(pty_id, 8) + le_bytes(rows, 2) + le_bytes(cols, 2),
        ClientMessage::wire(ClientMessageModel::SetFocus { channel_idx: pty_id }) == seq![4u8, 0, 0, 0]
            + le_bytes(pty_id, 8),
        ClientMessage::wire(ClientMessageModel::Spawn(config)) == seq![5u8, 0, 0, 0] + String::wire(
            config.name,
        ) + String::wire(config.command) + Option::<String>::wire(config.cwd),
        ClientMessage::wire(ClientMessageModel::Kill { pty_id }) == seq![6u8, 0, 0, 0] + le_bytes(pty_id, 8),
        ClientMessage::wire(ClientMessageModel::Detach) == seq![7u8, 0, 0, 0],
        ClientMessage::wire(ClientMessageModel::Quit) == seq![8u8, 0, 0, 0],
{
    assert forall|n: nat| n < 256 implies #[trigger] le_bytes(n, 4) == seq![n as u8, 0u8, 0u8, 0u8] by {
        lemma_small_number(n);
    }
    let wire = |m: ClientMessageModel| ClientMessage::wire(m);
    assert(wire(ClientMessageModel::Attach) =~= seq![0u8, 0, 0, 0]);
    assert(wire(ClientMessageModel::AttachTakeover) =~= seq![1u8, 0, 0, 0]);
    assert(wire(ClientMessageModel::Detach) =~= seq![7u8, 0, 0, 0]);
    assert(wire(ClientMessageModel::Quit) =~= seq![8u8, 0, 0, 0]);
    assert(wire(ClientMessageModel::Input { pty_id, data }) =~= seq![2u8, 0, 0, 0] + le_bytes(pty_id, 8)
        + le_bytes(data.len(), 8) + data);
    assert(wire(ClientMessageModel::Resize { pty_id, rows, cols }) =~= seq![3u8, 0, 0, 0] + le_bytes(
        pty_id,
        8,
    ) + le_bytes(rows, 2) + le_bytes(cols, 2));
    assert(wire(ClientMessageModel::Spawn(config)) =~= seq![5u8, 0, 0, 0] + String::wire(config.name)
        + String::wire(config.command) + Option::<String>::wire(config.cwd));
}

/// How the daemon's messages stand on the wire, in the same way.
pub proof fn law_the_wire_form_of_daemon_messages(
    info: SessionInfoModel,
    pty: PtyInfoModel,
    reason: Seq<char>,
    pty_id: nat,
    data: Seq<u8>,
    exit_code: Option<int>,
)
    ensures
        DaemonMessage::wire(DaemonMessageModel::Welcome(info)) == seq![0u8, 0, 0, 0] + String::wire(
            info.session_id,
        ) + le_bytes(info.config_hash, 8) + Vec::<PtyInfo>::wire(info.ptys) + le_bytes(info.focused, 8),
        DaemonMessage::wire(DaemonMessageModel::Rejected { reason }) == seq![1u8, 0, 0, 0] + String::wire(
            reason,
        ),
        DaemonMessage::wire(DaemonMessageModel::History { pty_id, data }) == seq![2u8, 0, 0, 0] + le_bytes(
            pty_id,
            8,
        ) + le_bytes(data.len(), 8) + data,
        DaemonMessage::wire(DaemonMessageModel::HistoryEnd { pty_id }) == seq![3u8, 0, 0, 0] + le_bytes(
            pty_id,
            8,
        ),
        DaemonMessage::wire(DaemonMessageModel::Output { pty_id, data }) == seq![4u8, 0, 0, 0] + le_bytes(
            pty_id,
            8,
        ) + le_bytes(data.len(), 8) + data,
        DaemonMessage::wire(DaemonMessageModel::PtyExited { pty_id, exit_code }) == seq![5u8, 0, 0, 0]
            + le_bytes(pty_id, 8) + Option::<i32>::wire(exit_code),
        DaemonMessage::wire(DaemonMessageModel::PtySpawned(pty)) == seq![6u8, 0, 0, 0] + PtyInfo::wire(pty),
        DaemonMessage::wire(DaemonMessageModel::Kicked) == seq![7u8, 0, 0, 0],
        DaemonMessage::wire(DaemonMessageModel::Shutdown) == seq![8u8, 0, 0, 0],
        PtyInfo::wire(pty) == le_bytes(pty.id, 8) + String::wire(pty.name) + String::wire(pty.command)
            + Option::<String>::wire(pty.cwd) + seq![if pty.running { 1u8 } else { 0u8 }],
{
    assert forall|n: nat| n < 256 implies #[trigger] le_bytes(n, 4) == seq![n as u8, 0u8, 0u8, 0u8] by {
        lemma_small_number(n);
    }
    let wire = |m: DaemonMessageModel| DaemonMessage::wire(m);
    assert(wire(DaemonMessageModel::Kicked) =~= seq![7u8, 0, 0, 0]);
    assert(wire(DaemonMessageModel::Shutdown) =~= seq![8u8, 0, 0, 0]);
    assert(wire(DaemonMessageModel::Welcome(info)) =~= seq![0u8, 0, 0, 0] + String::wire(info.session_id)
        + le_bytes(info.config_hash, 8) + Vec::<PtyInfo>::wire(info.ptys) + le_bytes(info.focused, 8));
    assert(wire(DaemonMessageModel::History { pty_id, data }) =~= seq![2u8, 0, 0, 0] + le_bytes(pty_id, 8)
        + le_bytes(data.len(), 8) + data);
    assert(wire(DaemonMessageModel::Output { pty_id, data }) =~= seq![4u8, 0, 0, 0] + le_bytes(pty_id, 8)
        + le_bytes(data.len(), 8) + data);
    assert(wire(DaemonMessageModel::PtyExited { pty_id, exit_code }) =~= seq![5u8, 0, 0, 0] + le_bytes(
        pty_id,
        8,
    ) + Option::<i32>::wire(exit_code));
    assert(PtyInfo::wire(pty) =~= le_bytes(pty.id, 8) + String::wire(pty.name) + String::wire(pty.command)
        + Option::<String>::wire(pty.cwd) + seq![if pty.running { 1u8 } else { 0u8 }]);
}

/// How texts, choices and lists stand on the wire: a text as its bytes behind their number, what may
/// be there behind a one and what is not there as a zero, and a list as its parts behind their
/// number.
pub proof fn law_the_wire_form_of_parts(s: Seq<char>, code: int, ptys: Seq<PtyInfoModel>, p: PtyInfoModel)
    ensures
        String::wire(s) == le_bytes(encode_utf8(s).len(), 8) + encode_utf8(s),
        Option::<String>::wire(Some(s)) == seq![1u8] + String::wire(s),
        Option::<String>::wire(None) == seq![0u8],
        code >= 0 ==> Option::<i32>::wire(Some(code)) == seq![1u8] + le_bytes(code as nat, 4),
        code < 0 ==> Option::<i32>::wire(Some(code)) == seq![1u8] + le_bytes(
            (code + 4294967296) as nat,
            4,
        ),
        Vec::<PtyInfo>::wire(Seq::empty()) == le_bytes(0, 8),
        Vec::<PtyInfo>::wire(seq![p] + ptys).skip(8) == PtyInfo::wire(p) + Vec::<PtyInfo>::wire(ptys).skip(8),
        Vec::<PtyInfo>::wire(ptys).take(8) == le_bytes(ptys.len(), 8),
{
    lemma_le_len(ptys.len(), 8);
    lemma_le_len((seq![p] + ptys).len(), 8);
    assert((seq![p] + ptys).drop_first() =~= ptys);
    assert((seq![p] + ptys)[0] == p);
    assert(Vec::<PtyInfo>::wire(ptys).take(8) =~= le_bytes(ptys.len(), 8));
    assert(Vec::<PtyInfo>::wire(ptys).skip(8) =~= row_bytes::<PtyInfo>(ptys));
    assert(Vec::<PtyInfo>::wire(seq![p] + ptys).skip(8) =~= row_bytes::<PtyInfo>(seq![p] + ptys));
    assert(Vec::<PtyInfo>::wire(Seq::empty()) =~= le_bytes(0, 8));
}

proof fn lemma_le_len(n: nat, width: nat)
    ensures
        le_bytes(n, width).len() == width,
    decreases width,
{
    if width > 0 {
        lemma_le_len(n / 256, (width - 1) as nat);
    }
}

/// Numbers stand on the wire with their lowest byte first.
pub proof fn law_the_lowest_byte_comes_first(n: nat, width: nat)
    requires
        width > 0,
    ensures
        le_bytes(n, 0).len() == 0,
        le_bytes(n, width) == seq![(n % 256) as u8] + le_bytes(n / 256, (width - 1) as nat),
        le_bytes(n, width).len() == width,
{
    lemma_le_len(n, width);
}

/// A frame is the length of what it holds in four bytes, the lowest first, and what it holds.
pub proof fn law_the_form_of_frames(payload: Seq<u8>)
    ensures
        payload.len() < 4294967296 ==> frame(payload) == le_bytes(payload.len(), 4) + payload,
{
}

} // verus!
