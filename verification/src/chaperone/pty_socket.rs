//! The socket of a terminal: clients come one after the other, and each sees all that was
//! written before it sees what is being written.

use vstd::prelude::*;
use vstd::string::*;

use crate::daemon::pty_manager::append_bytes;
use crate::env::{join, joined};
use crate::protocol::{ClientMessage, ClientMessageModel, DaemonMessage, DaemonMessageModel};
use crate::wire::{row_models, Wire};

verus! {

/// The socket of a terminal.
pub fn pty_socket_path(chaperone_dir: &str, pty_id: &str) -> (r: String)
    ensures
        r@ == joined(chaperone_dir@, pty_id@ + ".sock"@),
{
    let mut file = pty_id.to_owned();
    file.append(".sock");
    join(chaperone_dir, file.as_str())
}

/// What a client wants of a terminal.
#[derive(Debug)]
pub enum PtyInput {
    /// Input.
    Data(Vec<u8>),
    /// Another size.
    Resize { rows: u16, cols: u16 },
}

/// What a client wants of a terminal, as a value.
pub enum PtyInputModel {
    Data(Seq<u8>),
    Resize { rows: nat, cols: nat },
}

impl View for PtyInput {
    type V = PtyInputModel;

    open spec fn view(&self) -> PtyInputModel {
        match self {
            PtyInput::Data(data) => PtyInputModel::Data(data@),
            PtyInput::Resize { rows, cols } => PtyInputModel::Resize {
                rows: *rows as nat,
                cols: *cols as nat,
            },
        }
    }
}

/// Why a socket is closed.
#[derive(Debug, Clone, Copy, PartialEq, Eq, Structural)]
pub enum PtyExitReason {
    /// The command has ended.
    ProcessExited,
}

/// What a message means for the terminal: input and sizes count, whatever terminal they
/// name; nothing else does.
pub open spec fn input_of(msg: ClientMessageModel) -> Option<PtyInputModel> {
    match msg {
        ClientMessageModel::Input { data, .. } => Some(PtyInputModel::Data(data)),
        ClientMessageModel::Resize { rows, cols, .. } => Some(PtyInputModel::Resize { rows, cols }),
        _ => None,
    }
}

/// What may be wanted of a terminal, as a value.
pub open spec fn input_model(i: Option<PtyInput>) -> Option<PtyInputModel> {
    match i {
        Some(input) => Some(input@),
        None => None,
    }
}

/// What a message means for the terminal.
pub fn client_input(msg: ClientMessage) -> (r: Option<PtyInput>)
    ensures
        input_model(r) == input_of(msg.model()),
{
    match msg {
        ClientMessage::Input { data, .. } => Some(PtyInput::Data(data)),
        ClientMessage::Resize { rows, cols, .. } => Some(PtyInput::Resize { rows, cols }),
        _ => None,
    }
}

/// The message that carries output.
pub fn output_message(data: Vec<u8>) -> (r: DaemonMessage)
    ensures
        r.model() == (DaemonMessageModel::Output { pty_id: 0, data: data@ }),
{
    DaemonMessage::Output { pty_id: 0, data }
}

/// The message that the command has ended.
pub fn exit_message() -> (r: DaemonMessage)
    ensures
        r.model() == (DaemonMessageModel::PtyExited { pty_id: 0, exit_code: None }),
{
    let exit_code: Option<i32> = None;
    DaemonMessage::PtyExited { pty_id: 0, exit_code }
}

/// What is shared between a terminal's output and its client.
pub struct RelayState {
    /// All that was written.
    pub history: Vec<u8>,
    /// Whether a client is there.
    pub client: bool,
}

/// What is shared between a terminal's output and its client, as a value.
#[verifier::ext_equal]
pub struct RelayModel {
    pub history: Seq<u8>,
    pub client: bool,
}

impl View for RelayState {
    type V = RelayModel;

    open spec fn view(&self) -> RelayModel {
        RelayModel { history: self.history@, client: self.client }
    }
}

/// What happens to a terminal and its client.
#[derive(Debug)]
pub enum RelayEvent {
    /// A client has come.
    Attached,
    /// The command has written something.
    Written(Vec<u8>),
    /// The command has ended.
    Ended,
    /// The client has gone.
    Left,
}

/// What happens to a terminal and its client, as a value.
pub enum RelayEventModel {
    Attached,
    Written(Seq<u8>),
    Ended,
    Left,
}

impl View for RelayEvent {
    type V = RelayEventModel;

    open spec fn view(&self) -> RelayEventModel {
        match self {
            RelayEvent::Attached => RelayEventModel::Attached,
            RelayEvent::Written(data) => RelayEventModel::Written(data@),
            RelayEvent::Ended => RelayEventModel::Ended,
            RelayEvent::Left => RelayEventModel::Left,
        }
    }
}

impl RelayModel {
    /// After something has happened, and what the client is told then.
    pub open spec fn after(self, e: RelayEventModel) -> (RelayModel, Seq<DaemonMessageModel>) {
        match e {
            RelayEventModel::Attached => (RelayModel { client: true, ..self }, self.greeting()),
            RelayEventModel::Written(data) => (
                self.written(data),
                if self.client {
                    seq![DaemonMessageModel::Output { pty_id: 0, data }]
                } else {
                    Seq::empty()
                },
            ),
            RelayEventModel::Ended => (
                RelayModel { client: false, ..self },
                if self.client {
                    seq![DaemonMessageModel::PtyExited { pty_id: 0, exit_code: None }]
                } else {
                    Seq::empty()
                },
            ),
            RelayEventModel::Left => (RelayModel { client: false, ..self }, Seq::empty()),
        }
    }

    /// After all of some things have happened, in their order, and what clients are told.
    pub open spec fn after_all(self, events: Seq<RelayEventModel>) -> (RelayModel, Seq<DaemonMessageModel>)
        decreases events.len(),
    {
        if events.len() == 0 {
            (self, Seq::empty())
        } else {
            let (before, told) = self.after_all(events.drop_last());
            let (now, more) = before.after(events.last());
            (now, told + more)
        }
    }

    /// After output.
    pub open spec fn written(self, data: Seq<u8>) -> RelayModel {
        RelayModel { history: self.history + data, ..self }
    }

    /// What a new client is told: what was written, if anything, and that there is no more.
    pub open spec fn greeting(self) -> Seq<DaemonMessageModel> {
        let end = DaemonMessageModel::HistoryEnd { pty_id: 0 };
        if self.history.len() > 0 {
            seq![DaemonMessageModel::History { pty_id: 0, data: self.history }, end]
        } else {
            seq![end]
        }
    }
}

impl RelayState {
    /// With what was written so far, and no client.
    pub fn new(initial_history: Vec<u8>) -> (s: RelayState)
        ensures
            s@ == (RelayModel { history: initial_history@, client: false }),
    {
        RelayState { history: initial_history, client: false }
    }

    /// Takes in output; returns it if a client is there to get it.
    pub fn append_and_forward(&mut self, data: Vec<u8>) -> (forward: Option<Vec<u8>>)
        ensures
            final(self)@ == old(self)@.written(data@),
            match forward {
                Some(d) => old(self)@.client && d@ == data@,
                None => !old(self)@.client,
            },
    {
        append_bytes(&mut self.history, data.as_slice());
        if self.client {
            Some(data)
        } else {
            None
        }
    }

    /// All that was written.
    pub fn get_history(&self) -> (r: Vec<u8>)
        ensures
            r@ == self@.history,
    {
        vstd::slice::slice_to_vec(self.history.as_slice())
    }

    /// Notes that a client is there.
    pub fn set_client(&mut self)
        ensures
            final(self)@ == (RelayModel { client: true, ..old(self)@ }),
    {
        self.client = true;
    }

    /// Notes that no client is there.
    pub fn clear_client(&mut self)
        ensures
            final(self)@ == (RelayModel { client: false, ..old(self)@ }),
    {
        self.client = false;
    }

    /// What a new client is told.
    pub fn greeting(&self) -> (r: Vec<DaemonMessage>)
        ensures
            row_models(r@) == self@.greeting(),
    {
        let mut r: Vec<DaemonMessage> = Vec::new();
        let data = self.get_history();
        if data.len() > 0 {
            r.push(DaemonMessage::History { pty_id: 0, data });
        }
        r.push(DaemonMessage::HistoryEnd { pty_id: 0 });
        assert(row_models(r@) =~= self@.greeting());
        r
    }
}

impl RelayState {
    /// Follows what has happened; returns what the client is told.
    pub fn step(&mut self, event: RelayEvent) -> (told: Vec<DaemonMessage>)
        ensures
            final(self)@ == old(self)@.after(event@).0,
            row_models(told@) == old(self)@.after(event@).1,
    {
        let mut told: Vec<DaemonMessage> = Vec::new();
        match event {
            RelayEvent::Attached => {
                told = self.greeting();
                self.set_client();
            },
            RelayEvent::Written(data) => {
                if let Some(forward) = self.append_and_forward(data) {
                    told.push(output_message(forward));
                }
            },
            RelayEvent::Ended => {
                if self.client {
                    told.push(exit_message());
                }
                self.clear_client();
            },
            RelayEvent::Left => {
                self.clear_client();
            },
        }
        assert(row_models(told@) =~= old(self)@.after(event@).1);
        told
    }
}

/// Output in lots, as things that happen.
pub open spec fn lots(chunks: Seq<Seq<u8>>) -> Seq<RelayEventModel> {
    chunks.map_values(|c: Seq<u8>| RelayEventModel::Written(c))
}

/// Output in lots, as messages.
pub open spec fn lots_told(chunks: Seq<Seq<u8>>) -> Seq<DaemonMessageModel> {
    chunks.map_values(|c: Seq<u8>| DaemonMessageModel::Output { pty_id: 0, data: c })
}

proof fn lemma_after_lots(s: RelayModel, chunks: Seq<Seq<u8>>)
    ensures
        ({
            let (after, told) = s.after_all(seq![RelayEventModel::Attached] + lots(chunks));
            &&& after == (RelayModel { client: true, history: s.history + chunks.flatten() })
            &&& told == s.greeting() + lots_told(chunks)
        }),
    decreases chunks.len(),
{
    let events = seq![RelayEventModel::Attached] + lots(chunks);
    if chunks.len() == 0 {
        assert(events.drop_last() =~= Seq::<RelayEventModel>::empty());
        assert(events.last() == RelayEventModel::Attached);
        assert(s.after_all(events.drop_last()) == (s, Seq::<DaemonMessageModel>::empty()));
        assert(Seq::<DaemonMessageModel>::empty() + s.greeting() =~= s.greeting() + lots_told(chunks));
        assert(chunks.flatten() =~= Seq::<u8>::empty());
        assert(s.history + chunks.flatten() =~= s.history);
    } else {
        let fewer = chunks.drop_last();
        lemma_after_lots(s, fewer);
        assert(events.drop_last() =~= seq![RelayEventModel::Attached] + lots(fewer));
        assert(events.last() == RelayEventModel::Written(chunks.last()));
        assert(lots_told(chunks) =~= lots_told(fewer).push(
            DaemonMessageModel::Output { pty_id: 0, data: chunks.last() },
        ));
        assert(s.greeting() + lots_told(fewer) + seq![
            DaemonMessageModel::Output { pty_id: 0, data: chunks.last() },
        ] =~= s.greeting() + lots_told(chunks));
        chunks.lemma_flatten_and_flatten_alt_are_equivalent();
        fewer.lemma_flatten_and_flatten_alt_are_equivalent();
        assert(s.history + fewer.flatten() + chunks.last() =~= s.history + chunks.flatten());
    }
}

/// The whole of what is said on a connection: what was written before, that there is no more of
/// it, each lot of output in its order, and at last that the command has ended. Nothing is said
/// after that.
pub proof fn law_what_a_connection_is_told(s: RelayModel, chunks: Seq<Seq<u8>>, later: Seq<u8>)
    ensures
        ({
            let events = (seq![RelayEventModel::Attached] + lots(chunks)).push(RelayEventModel::Ended);
            let (after, told) = s.after_all(events);
            &&& told == s.greeting() + lots_told(chunks) + seq![
                DaemonMessageModel::PtyExited { pty_id: 0, exit_code: None },
            ]
            &&& after == (RelayModel { client: false, history: s.history + chunks.flatten() })
            &&& after.after(RelayEventModel::Written(later)).1 == Seq::<DaemonMessageModel>::empty()
            &&& after.after(RelayEventModel::Ended).1 == Seq::<DaemonMessageModel>::empty()
        }),
{
    lemma_after_lots(s, chunks);
    let begun = seq![RelayEventModel::Attached] + lots(chunks);
    assert(begun.push(RelayEventModel::Ended).drop_last() =~= begun);
}

/// Nothing is lost between clients: what the next client is told is what the last was told,
/// and what was written since, whether anyone was there or not.
pub proof fn law_clients_see_everything(s: RelayModel, first: Seq<u8>, second: Seq<u8>)
    requires
        s.history.len() + first.len() + second.len() > 0,
    ensures
        ({
            let with_client = RelayModel { client: true, ..s };
            let gone = RelayModel { client: false, ..with_client.written(first) };
            let next = gone.written(second);
            &&& next.greeting()[0] == (DaemonMessageModel::History {
                pty_id: 0,
                data: s.history + first + second,
            })
            &&& next.greeting().len() == 2
        }),
{
}

/// A client that comes is told all that was written, in one piece and before anything else, if
/// anything was, and then that there is no more of it. From then on it is told each lot that is
/// written, as it is. Whoever is not there is told nothing, and everything that is written is kept.
pub proof fn law_what_clients_are_told(s: RelayModel, data: Seq<u8>)
    ensures
        ({
            let end = DaemonMessageModel::HistoryEnd { pty_id: 0 };
            let (here, told) = s.after(RelayEventModel::Attached);
            let (later, output) = s.after(RelayEventModel::Written(data));
            let (ended, last) = s.after(RelayEventModel::Ended);
            &&& here == (RelayModel { history: s.history, client: true })
            &&& s.history.len() > 0 ==> told == seq![
                DaemonMessageModel::History { pty_id: 0, data: s.history },
                end,
            ]
            &&& s.history.len() == 0 ==> told == seq![end]
            &&& later == (RelayModel { history: s.history + data, client: s.client })
            &&& s.client ==> output == seq![DaemonMessageModel::Output { pty_id: 0, data }]
            &&& !s.client ==> output.len() == 0
            &&& ended == (RelayModel { history: s.history, client: false })
            &&& s.client ==> last == seq![DaemonMessageModel::PtyExited { pty_id: 0, exit_code: None }]
            &&& !s.client ==> last.len() == 0
            &&& s.after(RelayEventModel::Left) == (
                RelayModel { history: s.history, client: false },
                Seq::<DaemonMessageModel>::empty(),
            )
        }),
{
}

/// What clients want of a terminal: input reaches it as it was sent, and sizes as they were asked
/// for, whatever terminal they name; nothing else is wanted of it.
pub proof fn law_what_clients_want(pty_id: nat, data: Seq<u8>, rows: nat, cols: nat, other: ClientMessageModel)
    ensures
        input_of(ClientMessageModel::Input { pty_id, data }) == Some(PtyInputModel::Data(data)),
        input_of(ClientMessageModel::Resize { pty_id, rows, cols }) == Some(
            PtyInputModel::Resize { rows, cols },
        ),
        !(other is Input) && !(other is Resize) ==> input_of(other) is None,
{
}

} // verus!
