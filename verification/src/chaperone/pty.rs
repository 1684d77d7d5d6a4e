//! A terminal that a chaperone keeps.

use vstd::prelude::*;
use vstd::string::*;

use crate::daemon::pty_manager::{append_bytes, chunk_models, copy_of, together};
use crate::history::{kept, law_history_is_the_end_of_the_output, History, DEFAULT_BUFFER_SIZE};
use crate::ident::{is_random_uuid, new_id};
use crate::wire::Wire;

verus! {

/// How a terminal is to be started.
#[derive(Debug, Clone)]
pub struct PtySpawnConfig {
    /// The command to run.
    pub command: String,
    /// The directory to run it in.
    pub cwd: Option<String>,
    /// The height.
    pub rows: u16,
    /// The width.
    pub cols: u16,
}

/// How a terminal is to be started, as a value.
pub struct SpawnModel {
    pub command: Seq<char>,
    pub cwd: Option<Seq<char>>,
    pub rows: nat,
    pub cols: nat,
}

impl View for PtySpawnConfig {
    type V = SpawnModel;

    open spec fn view(&self) -> SpawnModel {
        SpawnModel {
            command: self.command@,
            cwd: self.cwd.model(),
            rows: self.rows as nat,
            cols: self.cols as nat,
        }
    }
}

/// What is told of a terminal.
#[derive(Debug, Clone)]
pub struct PtyInfo {
    /// Its name.
    pub id: String,
    /// The command that runs in it.
    pub command: String,
    /// The directory that the command runs in.
    pub cwd: Option<String>,
    /// Whether the command still runs.
    pub running: bool,
}

/// What is told of a terminal, as a value.
pub struct InfoModel {
    pub id: Seq<char>,
    pub command: Seq<char>,
    pub cwd: Option<Seq<char>>,
    pub running: bool,
}

impl View for PtyInfo {
    type V = InfoModel;

    open spec fn view(&self) -> InfoModel {
        InfoModel {
            id: self.id@,
            command: self.command@,
            cwd: self.cwd.model(),
            running: self.running,
        }
    }
}

/// A terminal that a chaperone keeps.
pub struct ManagedPty {
    /// Its name.
    pub id: String,
    /// The command that runs in it.
    pub command: String,
    /// The directory that the command runs in.
    pub cwd: Option<String>,
    /// Whether the command still runs.
    pub running: bool,
    /// Whether its output still comes here, and not to its socket.
    pub has_output: bool,
    /// What the command has written.
    pub history: History,
}

/// A terminal that a chaperone keeps, as a value.
#[verifier::ext_equal]
pub struct KeptModel {
    pub info: InfoModel,
    pub has_output: bool,
    pub history: Seq<u8>,
}

impl View for ManagedPty {
    type V = KeptModel;

    open spec fn view(&self) -> KeptModel {
        KeptModel {
            info: InfoModel {
                id: self.id@,
                command: self.command@,
                cwd: self.cwd.model(),
                running: self.running,
            },
            has_output: self.has_output,
            history: self.history@,
        }
    }
}

impl KeptModel {
    /// The terminal after output, and after its end if it has ended. Once its output goes to
    /// the socket, nothing changes here.
    pub open spec fn after_output(self, output: Seq<u8>, ended: bool) -> KeptModel {
        if self.has_output {
            KeptModel {
                info: InfoModel { running: self.info.running && !ended, ..self.info },
                history: kept(self.history + output, DEFAULT_BUFFER_SIZE as nat),
                ..self
            }
        } else {
            self
        }
    }
}

impl ManagedPty {
    /// What always holds.
    pub open spec fn wf(self) -> bool {
        self.history.wf() && self.history.limit == DEFAULT_BUFFER_SIZE
    }

    /// A terminal that was just started.
    pub fn started(config: PtySpawnConfig) -> (p: ManagedPty)
        ensures
            is_random_uuid(p@.info.id),
            p@ == (KeptModel {
                info: InfoModel {
                    id: p@.info.id,
                    command: config@.command,
                    cwd: config@.cwd,
                    running: true,
                },
                has_output: true,
                history: Seq::empty(),
            }),
            p.wf(),
    {
        ManagedPty {
            id: new_id(),
            command: config.command,
            cwd: config.cwd,
            running: true,
            has_output: true,
            history: History::new(),
        }
    }

    /// Its name.
    pub fn id(&self) -> (r: &str)
        ensures
            r@ == self@.info.id,
    {
        self.id.as_str()
    }

    /// Whether the command still runs.
    pub fn is_running(&self) -> (r: bool)
        ensures
            r == self@.info.running,
    {
        self.running
    }

    /// What is told of it.
    pub fn info(&self) -> (r: PtyInfo)
        ensures
            r@ == self@.info,
    {
        PtyInfo {
            id: self.id.clone(),
            command: self.command.clone(),
            cwd: copy_of(&self.cwd),
            running: self.running,
        }
    }

    /// Takes in the pieces of output that have come, and whether it has ended; returns the
    /// output if there is any.
    pub fn poll_output(&mut self, chunks: &Vec<Vec<u8>>, ended: bool) -> (r: Option<Vec<u8>>)
        requires
            old(self).wf(),
        ensures
            final(self)@ == old(self)@.after_output(together(chunk_models(chunks@)), ended),
            final(self).wf(),
            match r {
                Some(data) => old(self)@.has_output && data@ == together(chunk_models(chunks@))
                    && data@.len() > 0,
                None => !old(self)@.has_output || together(chunk_models(chunks@)).len() == 0,
            },
    {
        if !self.has_output {
            return None;
        }
        let ghost start = self@;
        let ghost all = chunk_models(chunks@);
        let mut collected: Vec<u8> = Vec::new();
        let mut i: usize = 0;
        assert(all.take(0) =~= Seq::<Seq<u8>>::empty());
        assert(start.history + collected@ =~= start.history);
        while i < chunks.len()
            invariant
                i <= chunks@.len(),
                all == chunk_models(chunks@),
                self.wf(),
                self@.info == start.info,
                self@.has_output == start.has_output,
                self@.history == kept(start.history + collected@, DEFAULT_BUFFER_SIZE as nat),
                collected@ == together(all.take(i as int)),
            decreases chunks@.len() - i,
        {
            let ghost before = collected@;
            assert(all.take(i + 1).drop_last() =~= all.take(i as int));
            assert(all.take(i + 1).last() == chunks@[i as int]@);
            self.history.append(chunks[i].as_slice());
            append_bytes(&mut collected, chunks[i].as_slice());
            proof {
                law_history_is_the_end_of_the_output(
                    start.history + before,
                    chunks@[i as int]@,
                    DEFAULT_BUFFER_SIZE as nat,
                );
                assert((start.history + before) + chunks@[i as int]@ =~= start.history + collected@);
            }
            i = i + 1;
        }
        assert(all.take(all.len() as int) =~= all);
        if ended {
            self.running = false;
        }
        if collected.len() == 0 {
            None
        } else {
            Some(collected)
        }
    }

    /// Hands its output over to its socket; says whether it was still here.
    pub fn take_output_rx(&mut self) -> (was_here: bool)
        ensures
            was_here == old(self)@.has_output,
            final(self)@ == (KeptModel { has_output: false, ..old(self)@ }),
            old(self).wf() ==> final(self).wf(),
    {
        let was_here = self.has_output;
        self.has_output = false;
        was_here
    }

    /// What it has written, as far back as it is kept.
    pub fn get_history(&self) -> (r: Vec<u8>)
        ensures
            r@ == self@.history,
    {
        self.history.to_vec()
    }
}

/// Output goes to one place: once it was handed over, nothing is taken in here, and it
/// cannot be handed over again.
pub proof fn law_output_goes_to_one_place(p: KeptModel, output: Seq<u8>, ended: bool)
    ensures
        ({
            let given = KeptModel { has_output: false, ..p };
            &&& given.after_output(output, ended) == given
            &&& !given.has_output
        }),
{
}

/// What a terminal writes is kept, up to the last mebibyte, and a terminal runs until its command
/// has ended, as long as its output was not handed to someone else; who it is does not change.
pub proof fn law_output_is_kept_by_chaperones(p: KeptModel, output: Seq<u8>, ended: bool)
    ensures
        ({
            let q = p.after_output(output, ended);
            let all = p.history + output;
            &&& !p.has_output ==> q == p
            &&& p.has_output && all.len() <= 1048576 ==> q.history == all
            &&& p.has_output && all.len() > 1048576 ==> q.history == all.skip(all.len() - 1048576)
            &&& p.has_output ==> q.info.running == (p.info.running && !ended)
            &&& q.info.id == p.info.id && q.info.command == p.info.command && q.info.cwd == p.info.cwd
            &&& q.has_output == p.has_output
        }),
{
}

} // verus!
