//! The orders that a chaperone takes, and the terminals that it keeps.

use vstd::prelude::*;
use vstd::string::*;

use crate::chaperone::protocol::{ControlMessage, ControlMessageModel};
use crate::chaperone::pty::{PtySpawnConfig, SpawnModel};
use crate::env::{join, joined};
use crate::text::same_text;
use crate::wire::Wire;

verus! {

/// The directory of a chaperone.
pub open spec fn chaperone_dir_is(data_dir: Seq<char>, name: Seq<char>) -> Seq<char> {
    joined(joined(data_dir, "chaperones"@), name)
}

/// The directory of a chaperone.
pub fn chaperone_dir(data_dir: &str, name: &str) -> (r: String)
    ensures
        r@ == chaperone_dir_is(data_dir@, name@),
{
    let base = join(data_dir, "chaperones");
    join(base.as_str(), name)
}

/// The control socket of a chaperone.
pub open spec fn control_socket_is(data_dir: Seq<char>, name: Seq<char>) -> Seq<char> {
    joined(chaperone_dir_is(data_dir, name), "control.sock"@)
}

/// The control socket of a chaperone.
pub fn control_socket_path(data_dir: &str, name: &str) -> (r: String)
    ensures
        r@ == control_socket_is(data_dir@, name@),
{
    let dir = chaperone_dir(data_dir, name);
    join(dir.as_str(), "control.sock")
}

/// A terminal that is kept.
pub struct PtyHandle {
    /// Its name.
    pub pty_id: String,
    /// Its socket.
    pub socket_path: String,
    /// The room that it belongs to.
    pub room_id: String,
}

/// A terminal that is kept, as a value.
pub struct HandleModel {
    pub pty_id: Seq<char>,
    pub socket_path: Seq<char>,
    pub room_id: Seq<char>,
}

impl View for PtyHandle {
    type V = HandleModel;

    open spec fn view(&self) -> HandleModel {
        HandleModel {
            pty_id: self.pty_id@,
            socket_path: self.socket_path@,
            room_id: self.room_id@,
        }
    }
}

/// Terminals, as values.
pub open spec fn handle_models(v: Seq<PtyHandle>) -> Seq<HandleModel> {
    Seq::new(v.len(), |i: int| v[i]@)
}

/// The terminals by their names.
pub open spec fn handle_map(hs: Seq<HandleModel>) -> Map<Seq<char>, HandleModel>
    decreases hs.len(),
{
    if hs.len() == 0 {
        Map::empty()
    } else {
        handle_map(hs.drop_last()).insert(hs.last().pty_id, hs.last())
    }
}

/// Whether every terminal has a name of its own.
pub open spec fn distinct(hs: Seq<HandleModel>) -> bool {
    forall|i: int, j: int|
        0 <= i < j < hs.len() ==> (#[trigger] hs[i]).pty_id != (#[trigger] hs[j]).pty_id
}

/// A chaperone.
pub struct Chaperone {
    /// Its name.
    pub name: String,
    /// The terminals that it keeps.
    pub ptys: Vec<PtyHandle>,
    /// The height of terminals.
    pub default_rows: u16,
    /// The width of terminals.
    pub default_cols: u16,
}

/// A chaperone, as a value.
#[verifier::ext_equal]
pub struct ChaperoneModel {
    pub name: Seq<char>,
    pub ptys: Map<Seq<char>, HandleModel>,
    pub rows: u16,
    pub cols: u16,
}

impl View for Chaperone {
    type V = ChaperoneModel;

    open spec fn view(&self) -> ChaperoneModel {
        ChaperoneModel {
            name: self.name@,
            ptys: handle_map(handle_models(self.ptys@)),
            rows: self.default_rows,
            cols: self.default_cols,
        }
    }
}

/// What an order asks for.
#[derive(Debug)]
pub enum ControlAction {
    /// Nothing.
    Nothing,
    /// Start a terminal for a room.
    Spawn { config: PtySpawnConfig, room_id: String },
    /// Remove the socket of a terminal that is not kept any more.
    Remove { socket_path: String },
}

/// What an order asks for, as a value.
pub enum ControlActionModel {
    Nothing,
    Spawn { config: SpawnModel, room_id: Seq<char> },
    Remove { socket_path: Seq<char> },
}

impl View for ControlAction {
    type V = ControlActionModel;

    open spec fn view(&self) -> ControlActionModel {
        match self {
            ControlAction::Nothing => ControlActionModel::Nothing,
            ControlAction::Spawn { config, room_id } => ControlActionModel::Spawn {
                config: config@,
                room_id: room_id@,
            },
            ControlAction::Remove { socket_path } => ControlActionModel::Remove {
                socket_path: socket_path@,
            },
        }
    }
}

/// The command of a terminal: the one that is asked for, or the shell, or `bash`.
pub open spec fn command_or_shell(command: Option<Seq<char>>, shell: Option<Seq<char>>) -> Seq<char> {
    match command {
        Some(c) => c,
        None => match shell {
            Some(s) => s,
            None => "bash"@,
        },
    }
}

impl ChaperoneModel {
    /// Without a terminal.
    pub open spec fn without(self, pty_id: Seq<char>) -> ChaperoneModel {
        ChaperoneModel { ptys: self.ptys.remove(pty_id), ..self }
    }

    /// With a terminal.
    pub open spec fn with(self, h: HandleModel) -> ChaperoneModel {
        ChaperoneModel { ptys: self.ptys.insert(h.pty_id, h), ..self }
    }

    /// After an order. Messages that only a chaperone sends are passed over.
    pub open spec fn ordered(self, msg: ControlMessageModel, shell: Option<Seq<char>>) -> (
        ChaperoneModel,
        ControlActionModel,
    ) {
        match msg {
            ControlMessageModel::SpawnPty { room_id, cwd, command, rows, cols } => (
                self,
                ControlActionModel::Spawn {
                    config: SpawnModel {
                        command: command_or_shell(command, shell),
                        cwd,
                        rows,
                        cols,
                    },
                    room_id,
                },
            ),
            ControlMessageModel::KillPty { pty_id } => (
                self.without(pty_id),
                if self.ptys.contains_key(pty_id) {
                    ControlActionModel::Remove { socket_path: self.ptys[pty_id].socket_path }
                } else {
                    ControlActionModel::Nothing
                },
            ),
            _ => (self, ControlActionModel::Nothing),
        }
    }
}

impl Chaperone {
    /// What always holds: every terminal has a name of its own.
    pub open spec fn wf(self) -> bool {
        distinct(handle_models(self.ptys@))
    }

    /// A chaperone that keeps nothing yet.
    pub fn new(name: String) -> (c: Chaperone)
        ensures
            c@ == (ChaperoneModel { name: name@, ptys: Map::empty(), rows: 24, cols: 80 }),
            c.wf(),
    {
        let c = Chaperone { name, ptys: Vec::new(), default_rows: 24, default_cols: 80 };
        assert(handle_models(c.ptys@) =~= Seq::<HandleModel>::empty());
        c
    }

    /// Where it takes orders.
    pub fn control_socket_path(&self, data_dir: &str) -> (r: String)
        ensures
            r@ == control_socket_is(data_dir@, self@.name),
    {
        control_socket_path(data_dir, self.name.as_str())
    }

    /// What it says first.
    pub fn greeting(&self) -> (r: ControlMessage)
        ensures
            r.model() == ControlMessageModel::Ready,
    {
        ControlMessage::Ready
    }

    /// Lets go of a terminal; returns its socket if it was kept.
    fn forget(&mut self, pty_id: &str) -> (socket: Option<String>)
        requires
            old(self).wf(),
        ensures
            final(self)@ == old(self)@.without(pty_id@),
            final(self).wf(),
            match socket {
                Some(s) => old(self)@.ptys.contains_key(pty_id@) && s@
                    == old(self)@.ptys[pty_id@].socket_path,
                None => !old(self)@.ptys.contains_key(pty_id@),
            },
    {
        let ghost hs = handle_models(self.ptys@);
        let mut i: usize = 0;
        while i < self.ptys.len()
            invariant
                i <= self.ptys@.len(),
                hs == handle_models(self.ptys@),
                *self == *old(self),
                distinct(hs),
                forall|k: int| 0 <= k < i ==> (#[trigger] hs[k]).pty_id != pty_id@,
            decreases self.ptys@.len() - i,
        {
            assert(hs[i as int] == self.ptys@[i as int]@);
            if same_text(self.ptys[i].pty_id.as_str(), pty_id) {
                let ghost given = self.ptys@;
                let handle = self.ptys.remove(i);
                proof {
                    assert(handle_models(self.ptys@) =~= hs.remove(i as int));
                    lemma_removed(hs, i as int);
                    lemma_in_map(hs, i as int);
                }
                return Some(handle.socket_path);
            }
            i = i + 1;
        }
        proof {
            lemma_not_in_map(hs, pty_id@);
            assert(old(self)@.ptys.remove(pty_id@) =~= old(self)@.ptys);
        }
        None
    }

    /// Follows an order. A terminal without a command runs the shell that the environment
    /// names.
    pub fn handle_message(&mut self, msg: ControlMessage, shell: Option<String>) -> (r: ControlAction)
        requires
            old(self).wf(),
        ensures
            final(self)@ == old(self)@.ordered(msg.model(), shell.model()).0,
            r@ == old(self)@.ordered(msg.model(), shell.model()).1,
            final(self).wf(),
    {
        match msg {
            ControlMessage::SpawnPty { room_id, cwd, command, rows, cols } => {
                let command = match command {
                    Some(c) => c,
                    None => match shell {
                        Some(s) => s,
                        None => "bash".to_owned(),
                    },
                };
                ControlAction::Spawn { config: PtySpawnConfig { command, cwd, rows, cols }, room_id }
            },
            ControlMessage::KillPty { pty_id } => {
                match self.forget(pty_id.as_str()) {
                    Some(socket_path) => ControlAction::Remove { socket_path },
                    None => ControlAction::Nothing,
                }
            },
            _ => ControlAction::Nothing,
        }
    }

    /// Notes that a terminal was started; returns what to answer.
    pub fn pty_started(&mut self, pty_id: String, room_id: String, socket_path: String) -> (answer: ControlMessage)
        requires
            old(self).wf(),
        ensures
            final(self)@ == old(self)@.with(
                HandleModel { pty_id: pty_id@, socket_path: socket_path@, room_id: room_id@ },
            ),
            final(self).wf(),
            answer.model() == (ControlMessageModel::PtyAttached {
                pty_id: pty_id@,
                room_id: room_id@,
                socket: socket_path@,
            }),
    {
        self.forget(pty_id.as_str());
        let ghost hs = handle_models(self.ptys@);
        let handle = PtyHandle {
            pty_id: pty_id.clone(),
            socket_path: socket_path.clone(),
            room_id: room_id.clone(),
        };
        let ghost model = handle@;
        self.ptys.push(handle);
        proof {
            let after = handle_models(self.ptys@);
            assert(after =~= hs.push(model));
            assert(after.drop_last() =~= hs);
            assert forall|i: int, j: int| 0 <= i < j < after.len() implies (
            #[trigger] after[i]).pty_id != (#[trigger] after[j]).pty_id by {
                if j < hs.len() {
                    assert(hs[i].pty_id != hs[j].pty_id);
                } else {
                    lemma_in_map(hs, i);
                }
            }
            assert(self@.ptys =~= old(self)@.ptys.insert(pty_id@, model));
        }
        ControlMessage::PtyAttached { pty_id, room_id, socket: socket_path }
    }

    /// Notes that the command of a terminal has ended; returns what to say, and the socket to
    /// remove if the terminal was kept.
    pub fn pty_exited(&mut self, pty_id: String, room_id: String) -> (r: (ControlMessage, Option<String>))
        requires
            old(self).wf(),
        ensures
            final(self)@ == old(self)@.without(pty_id@),
            final(self).wf(),
            r.0.model() == (ControlMessageModel::PtyDetached { pty_id: pty_id@, room_id: room_id@ }),
            match r.1 {
                Some(s) => old(self)@.ptys.contains_key(pty_id@) && s@
                    == old(self)@.ptys[pty_id@].socket_path,
                None => !old(self)@.ptys.contains_key(pty_id@),
            },
    {
        let socket = self.forget(pty_id.as_str());
        (ControlMessage::PtyDetached { pty_id, room_id }, socket)
    }
}

proof fn lemma_in_map(hs: Seq<HandleModel>, i: int)
    requires
        distinct(hs),
        0 <= i < hs.len(),
    ensures
        handle_map(hs).contains_key(hs[i].pty_id),
        handle_map(hs)[hs[i].pty_id] == hs[i],
    decreases hs.len(),
{
    if i < hs.len() - 1 {
        let before = hs.drop_last();
        assert(distinct(before)) by {
            assert forall|a: int, b: int| 0 <= a < b < before.len() implies (
            #[trigger] before[a]).pty_id != (#[trigger] before[b]).pty_id by {
                assert(hs[a].pty_id != hs[b].pty_id);
            }
        }
        lemma_in_map(before, i);
        assert(hs[i].pty_id != hs[hs.len() - 1].pty_id);
    }
}

proof fn lemma_not_in_map(hs: Seq<HandleModel>, pty_id: Seq<char>)
    requires
        forall|k: int| 0 <= k < hs.len() ==> (#[trigger] hs[k]).pty_id != pty_id,
    ensures
        !handle_map(hs).contains_key(pty_id),
    decreases hs.len(),
{
    if hs.len() > 0 {
        assert(hs[hs.len() - 1].pty_id != pty_id);
        assert forall|k: int| 0 <= k < hs.drop_last().len() implies (#[trigger] hs.drop_last()[k]).pty_id
            != pty_id by {
            assert(hs[k].pty_id != pty_id);
        }
        lemma_not_in_map(hs.drop_last(), pty_id);
    }
}

proof fn lemma_removed(hs: Seq<HandleModel>, i: int)
    requires
        distinct(hs),
        0 <= i < hs.len(),
    ensures
        distinct(hs.remove(i)),
        handle_map(hs.remove(i)) == handle_map(hs).remove(hs[i].pty_id),
    decreases hs.len(),
{
    let rest = hs.remove(i);
    let before = hs.drop_last();
    assert(distinct(rest)) by {
        assert forall|a: int, b: int| 0 <= a < b < rest.len() implies (#[trigger] rest[a]).pty_id != (
        #[trigger] rest[b]).pty_id by {
            let x = if a < i { a } else { a + 1 };
            let y = if b < i { b } else { b + 1 };
            assert(hs[x].pty_id != hs[y].pty_id);
        }
    }
    if i == hs.len() - 1 {
        assert(rest =~= before);
        assert forall|k: int| 0 <= k < before.len() implies (#[trigger] before[k]).pty_id
            != hs[i].pty_id by {
            assert(hs[k].pty_id != hs[i].pty_id);
        }
        lemma_not_in_map(before, hs[i].pty_id);
        assert(handle_map(rest) =~= handle_map(hs).remove(hs[i].pty_id));
    } else {
        assert(distinct(before)) by {
            assert forall|a: int, b: int| 0 <= a < b < before.len() implies (
            #[trigger] before[a]).pty_id != (#[trigger] before[b]).pty_id by {
                assert(hs[a].pty_id != hs[b].pty_id);
            }
        }
        lemma_removed(before, i);
        assert(rest.drop_last() =~= before.remove(i));
        assert(rest.last() == hs.last());
        assert(hs[i].pty_id != hs[hs.len() - 1].pty_id);
        assert(handle_map(rest) =~= handle_map(hs).remove(hs[i].pty_id));
    }
}

// ---------------------------------------------------------------------------
// Laws
// ---------------------------------------------------------------------------

/// A terminal that was started can be stopped: its socket is the one to remove, and then
/// everything is as before.
pub proof fn law_started_terminals_can_be_stopped(c: ChaperoneModel, h: HandleModel, shell: Option<Seq<char>>)
    requires
        !c.ptys.contains_key(h.pty_id),
    ensures
        ({
            let kill = ControlMessageModel::KillPty { pty_id: h.pty_id };
            &&& c.with(h).ordered(kill, shell).0 == c
            &&& c.with(h).ordered(kill, shell).1 == (ControlActionModel::Remove {
                socket_path: h.socket_path,
            })
            &&& c.ordered(kill, shell) == (c, ControlActionModel::Nothing)
        }),
{
    assert(c.ptys.insert(h.pty_id, h).remove(h.pty_id) =~= c.ptys);
    assert(c.ptys.remove(h.pty_id) =~= c.ptys);
}

/// What a chaperone is ordered: a terminal is started with the command that was ordered, or else the
/// user's shell or `bash`, in the directory and with the size that were ordered, for the room it was
/// ordered for; one that is to be killed is forgotten, and its socket removed. Other messages change
/// nothing.
pub proof fn law_what_chaperones_are_ordered(
    c: ChaperoneModel,
    room_id: Seq<char>,
    cwd: Option<Seq<char>>,
    command: Option<Seq<char>>,
    rows: nat,
    cols: nat,
    pty_id: Seq<char>,
    shell: Option<Seq<char>>,
    other: ControlMessageModel,
)
    ensures
        ({
            let (after, action) = c.ordered(
                ControlMessageModel::SpawnPty { room_id, cwd, command, rows, cols },
                shell,
            );
            &&& after == c
            &&& action matches ControlActionModel::Spawn { config, room_id: to } && {
                &&& to == room_id
                &&& config.cwd == cwd
                &&& config.rows == rows && config.cols == cols
                &&& command is Some ==> Some(config.command) == command
                &&& command is None && shell is Some ==> Some(config.command) == shell
                &&& command is None && shell is None ==> config.command == "bash"@
            }
        }),
        ({
            let (after, action) = c.ordered(ControlMessageModel::KillPty { pty_id }, shell);
            &&& !after.ptys.contains_key(pty_id)
            &&& forall|k: Seq<char>|
                k != pty_id ==> (#[trigger] after.ptys.contains_key(k) <==> c.ptys.contains_key(k)) && (
                c.ptys.contains_key(k) ==> after.ptys[k] == c.ptys[k])
            &&& after.name == c.name && after.rows == c.rows && after.cols == c.cols
            &&& c.ptys.contains_key(pty_id) ==> action == (ControlActionModel::Remove {
                socket_path: c.ptys[pty_id].socket_path,
            })
            &&& !c.ptys.contains_key(pty_id) ==> action == ControlActionModel::Nothing
        }),
        !(other is SpawnPty) && !(other is KillPty) ==> c.ordered(other, shell) == (
            c,
            ControlActionModel::Nothing,
        ),
{
}

/// A terminal that was started is known by its number, and the others are known as before.
pub proof fn law_started_terminals_are_known(c: ChaperoneModel, h: HandleModel, k: Seq<char>)
    ensures
        c.with(h).ptys.contains_key(h.pty_id),
        c.with(h).ptys[h.pty_id] == h,
        k != h.pty_id ==> (c.with(h).ptys.contains_key(k) <==> c.ptys.contains_key(k)),
        k != h.pty_id && c.ptys.contains_key(k) ==> c.with(h).ptys[k] == c.ptys[k],
        c.with(h).name == c.name && c.with(h).rows == c.rows && c.with(h).cols == c.cols,
{
}

/// The sockets of a chaperone stand in a directory of its own.
pub proof fn law_where_chaperones_are(data_dir: Seq<char>, name: Seq<char>)
    ensures
        chaperone_dir_is(data_dir, name) == joined(joined(data_dir, "chaperones"@), name),
        control_socket_is(data_dir, name) == joined(chaperone_dir_is(data_dir, name), "control.sock"@),
{
}

} // verus!
