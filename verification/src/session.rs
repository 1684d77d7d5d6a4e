//! A client of the session daemon.

use vstd::prelude::*;
use vstd::string::*;

use crate::number::{decimal, decimal_string};
use crate::protocol::{
    ClientMessage, ClientMessageModel, DaemonMessage, DaemonMessageModel, PtyInfo, SessionInfo,
    SessionInfoModel,
};
use crate::text::{chars_of, string_of, texts, trim, trimmed};
use crate::wire::{row_models, Wire};

verus! {

/// How to connect.
#[derive(Debug, Clone, Copy, PartialEq, Eq, Structural)]
pub struct ConnectOptions {
    /// Whether to take over from a client that is connected.
    pub takeover: bool,
}

impl Default for ConnectOptions {
    fn default() -> (o: Self)
        ensures
            !o.takeover,
    {
        ConnectOptions { takeover: false }
    }
}

/// Why a connection was not made.
#[derive(Debug)]
pub enum ConnectError {
    /// The daemon has turned the client away.
    Rejected(String),
    /// The daemon has said something else than it should.
    Unexpected,
}

/// Why a connection was not made, as a value.
pub enum ConnectErrorModel {
    Rejected(Seq<char>),
    Unexpected,
}

impl View for ConnectError {
    type V = ConnectErrorModel;

    open spec fn view(&self) -> ConnectErrorModel {
        match self {
            ConnectError::Rejected(reason) => ConnectErrorModel::Rejected(reason@),
            ConnectError::Unexpected => ConnectErrorModel::Unexpected,
        }
    }
}

impl ConnectError {
    /// What the user is told.
    pub fn message(&self) -> (r: String)
        ensures
            r@ == match self@ {
                ConnectErrorModel::Rejected(reason) => reason,
                ConnectErrorModel::Unexpected => "Unexpected response from daemon"@,
            },
    {
        match self {
            ConnectError::Rejected(reason) => reason.clone(),
            ConnectError::Unexpected => "Unexpected response from daemon".to_owned(),
        }
    }
}

/// A client that is attached to a session.
#[derive(Debug)]
pub struct Session {
    /// What the daemon has said of the session.
    pub info: SessionInfo,
}

/// What an answer of the daemon means for a client that wants to attach.
pub open spec fn attached(answer: DaemonMessageModel) -> Result<SessionInfoModel, ConnectErrorModel> {
    match answer {
        DaemonMessageModel::Welcome(info) => Ok(info),
        DaemonMessageModel::Rejected { reason } => Err(ConnectErrorModel::Rejected(reason)),
        _ => Err(ConnectErrorModel::Unexpected),
    }
}

/// A session or an error, as a value.
pub open spec fn session_result(r: Result<Session, ConnectError>) -> Result<
    SessionInfoModel,
    ConnectErrorModel,
> {
    match r {
        Ok(s) => Ok(s.info.model()),
        Err(e) => Err(e@),
    }
}

impl Session {
    /// The message to attach with.
    pub fn attach_message(opts: ConnectOptions) -> (r: ClientMessage)
        ensures
            r.model() == if opts.takeover {
                ClientMessageModel::AttachTakeover
            } else {
                ClientMessageModel::Attach
            },
    {
        if opts.takeover {
            ClientMessage::AttachTakeover
        } else {
            ClientMessage::Attach
        }
    }

    /// Follows the daemon's answer.
    pub fn connect(answer: DaemonMessage) -> (r: Result<Session, ConnectError>)
        ensures
            session_result(r) == attached(answer.model()),
    {
        match answer {
            DaemonMessage::Welcome(info) => Ok(Session { info }),
            DaemonMessage::Rejected { reason } => Err(ConnectError::Rejected(reason)),
            _ => Err(ConnectError::Unexpected),
        }
    }

    /// What the daemon has said of the session.
    pub fn info(&self) -> (r: &SessionInfo)
        ensures
            r.model() == self.info.model(),
    {
        &self.info
    }

    /// The terminals of the session.
    pub fn ptys(&self) -> (r: &[PtyInfo])
        ensures
            row_models(r@) == self.info.model().ptys,
    {
        self.info.ptys.as_slice()
    }

    /// The message that carries input for a terminal.
    pub fn write(&self, pty_id: usize, data: &[u8]) -> (r: ClientMessage)
        ensures
            r.model() == (ClientMessageModel::Input { pty_id: pty_id as nat, data: data@ }),
    {
        ClientMessage::Input { pty_id, data: vstd::slice::slice_to_vec(data) }
    }

    /// The message that asks for the size of a terminal.
    pub fn resize(&self, pty_id: usize, rows: u16, cols: u16) -> (r: ClientMessage)
        ensures
            r.model() == (ClientMessageModel::Resize {
                pty_id: pty_id as nat,
                rows: rows as nat,
                cols: cols as nat,
            }),
    {
        ClientMessage::Resize { pty_id, rows, cols }
    }

    /// The message that leaves the session; it goes on.
    pub fn detach(&self) -> (r: ClientMessage)
        ensures
            r.model() == ClientMessageModel::Detach,
    {
        ClientMessage::Detach
    }

    /// The message that ends the session.
    pub fn quit(&self) -> (r: ClientMessage)
        ensures
            r.model() == ClientMessageModel::Quit,
    {
        ClientMessage::Quit
    }
}

/// The arguments that a daemon is started with.
pub fn daemon_args(rows: u16, cols: u16) -> (r: Vec<String>)
    ensures
        texts(r@) == seq![decimal(rows as nat), decimal(cols as nat)],
{
    let mut r: Vec<String> = Vec::new();
    r.push(decimal_string(rows as u64));
    r.push(decimal_string(cols as u64));
    assert(texts(r@) =~= seq![decimal(rows as nat), decimal(cols as nat)]);
    r
}

/// The socket that a daemon names when it has started, if it names one.
pub fn started_socket(output: &str) -> (r: Option<String>)
    ensures
        match r {
            Some(path) => path@ == trimmed(output@) && path@.len() > 0,
            None => trimmed(output@).len() == 0,
        },
{
    let cs = chars_of(output);
    let t = trim(cs.as_slice());
    if t.len() == 0 {
        None
    } else {
        Some(string_of(t.as_slice()))
    }
}

/// A client that attaches to a daemon without one is welcome and learns of the session; one
/// that does not take over from another is told why it cannot.
pub proof fn law_answers_to_a_client(d: crate::daemon::DaemonModel, connection: usize)
    ensures
        ({
            let (after, opening) = d.opened(connection, ClientMessageModel::Attach);
            match opening {
                crate::daemon::OpeningModel::Attached { .. } => d.client is None && attached(
                    after.greeting()[0],
                ) == Ok::<SessionInfoModel, ConnectErrorModel>(d.info()),
                crate::daemon::OpeningModel::TurnedAway(answer) => d.client is Some && attached(answer)
                    == Err::<SessionInfoModel, ConnectErrorModel>(
                    ConnectErrorModel::Rejected(
                        "Another client is connected. Use --takeover to take over."@,
                    ),
                ),
                crate::daemon::OpeningModel::Closed => false,
            }
        }),
{
}

/// A client is attached exactly if it is welcomed, and then knows the session; one that is turned
/// away is told why, and any other answer is none.
pub proof fn law_what_answers_mean(info: SessionInfoModel, reason: Seq<char>, other: DaemonMessageModel)
    ensures
        attached(DaemonMessageModel::Welcome(info)) == Ok::<SessionInfoModel, ConnectErrorModel>(info),
        attached(DaemonMessageModel::Rejected { reason }) == Err::<SessionInfoModel, ConnectErrorModel>(
            ConnectErrorModel::Rejected(reason),
        ),
        !(other is Welcome) && !(other is Rejected) ==> attached(other) == Err::<
            SessionInfoModel,
            ConnectErrorModel,
        >(ConnectErrorModel::Unexpected),
{
}

} // verus!
