//! The terminals of a session.

use vstd::prelude::*;
use vstd::string::*;

use crate::history::{kept, History, DEFAULT_BUFFER_SIZE};
use crate::protocol::{PtyConfig, PtyConfigModel, PtyInfo, PtyInfoModel};
use crate::text::{chars_of, split_words, texts, words};
use crate::wire::{row_models, Wire};

verus! {

/// A terminal of a session.
pub struct ManagedPty {
    /// Its number in the session.
    pub id: usize,
    /// The channel it belongs to.
    pub name: String,
    /// The command that runs in it.
    pub command: String,
    /// The directory that the command runs in.
    pub cwd: Option<String>,
    /// Whether the command still runs.
    pub running: bool,
    /// What the command has written.
    pub history: History,
}

/// A terminal of a session, as a value.
#[verifier::ext_equal]
pub struct ManagedPtyModel {
    pub info: PtyInfoModel,
    pub history: Seq<u8>,
}

impl View for ManagedPty {
    type V = ManagedPtyModel;

    open spec fn view(&self) -> ManagedPtyModel {
        ManagedPtyModel {
            info: PtyInfoModel {
                id: self.id as nat,
                name: self.name@,
                command: self.command@,
                cwd: self.cwd.model(),
                running: self.running,
            },
            history: self.history@,
        }
    }
}

/// Pieces of output, one behind the other.
pub open spec fn together(chunks: Seq<Seq<u8>>) -> Seq<u8>
    decreases chunks.len(),
{
    if chunks.len() == 0 {
        Seq::empty()
    } else {
        together(chunks.drop_last()) + chunks.last()
    }
}

/// Pieces of output, as values.
pub open spec fn chunk_models(v: Seq<Vec<u8>>) -> Seq<Seq<u8>> {
    Seq::new(v.len(), |i: int| v[i]@)
}

impl ManagedPtyModel {
    /// A terminal that was just started.
    pub open spec fn started(id: nat, config: PtyConfigModel) -> ManagedPtyModel {
        ManagedPtyModel {
            info: PtyInfoModel {
                id,
                name: config.name,
                command: config.command,
                cwd: config.cwd,
                running: true,
            },
            history: Seq::empty(),
        }
    }

    /// The terminal after output, and after its end if it has ended.
    pub open spec fn after_output(self, output: Seq<u8>, ended: bool) -> ManagedPtyModel {
        ManagedPtyModel {
            info: PtyInfoModel { running: self.info.running && !ended, ..self.info },
            history: kept(self.history + output, DEFAULT_BUFFER_SIZE as nat),
        }
    }
}

/// The program and the arguments of a command: its words. A command without words has none.
pub fn split_command(command: &str) -> (r: Option<(String, Vec<String>)>)
    ensures
        match r {
            Some((program, arguments)) => words(command@).len() > 0 && program@ == words(command@)[0]
                && texts(arguments@) == words(command@).skip(1),
            None => words(command@).len() == 0,
        },
{
    let cs = chars_of(command);
    let mut parts = split_words(cs.as_slice());
    let ghost all = texts(parts@);
    if parts.len() == 0 {
        return None;
    }
    let ghost given = parts@;
    let program = parts.remove(0);
    assert(texts(parts@) =~= all.skip(1)) by {
        assert(parts@ =~= given.remove(0));
    }
    Some((program, parts))
}

impl ManagedPty {
    /// What always holds.
    pub open spec fn wf(self) -> bool {
        self.history.wf() && self.history.limit == DEFAULT_BUFFER_SIZE
    }

    /// A terminal that was just started.
    pub fn started(id: usize, config: &PtyConfig) -> (p: ManagedPty)
        ensures
            p@ == ManagedPtyModel::started(id as nat, config.model()),
            p.wf(),
    {
        ManagedPty {
            id,
            name: config.name.clone(),
            command: config.command.clone(),
            cwd: copy_of(&config.cwd),
            running: true,
            history: History::new(),
        }
    }

    /// What a client learns of it.
    pub fn info(&self) -> (r: PtyInfo)
        ensures
            r.model() == self@.info,
    {
        PtyInfo {
            id: self.id,
            name: self.name.clone(),
            command: self.command.clone(),
            cwd: copy_of(&self.cwd),
            running: self.running,
        }
    }

    /// Whether input goes to it: only while its command runs.
    pub fn takes_input(&self) -> (r: bool)
        ensures
            r == self@.info.running,
    {
        self.running
    }

    /// Takes in the pieces of output that have come, and whether it has ended; returns the
    /// output if there is any.
    pub fn poll_output(&mut self, chunks: &Vec<Vec<u8>>, ended: bool) -> (r: Option<Vec<u8>>)
        requires
            old(self).wf(),
        ensures
            final(self)@ == old(self)@.after_output(together(chunk_models(chunks@)), ended),
            final(self).wf(),
            match r {
                Some(data) => data@ == together(chunk_models(chunks@)) && data@.len() > 0,
                None => together(chunk_models(chunks@)).len() == 0,
            },
    {
        let ghost start = self@;
        let ghost all = chunk_models(chunks@);
        let mut collected: Vec<u8> = Vec::new();
        let mut i: usize = 0;
        assert(all.take(0) =~= Seq::<Seq<u8>>::empty());
        assert(start.history + collected@ =~= start.history);
        while i < chunks.len()
            invariant
                i <= chunks@.len(),
                all == chunk_models(chunks@),
                self.wf(),
                self@.info == start.info,
                self@.history == kept(start.history + collected@, DEFAULT_BUFFER_SIZE as nat),
                collected@ == together(all.take(i as int)),
            decreases chunks@.len() - i,
        {
            let ghost before = collected@;
            assert(all.take(i + 1).drop_last() =~= all.take(i as int));
            assert(all.take(i + 1).last() == chunks@[i as int]@);
            self.history.append(chunks[i].as_slice());
            append_bytes(&mut collected, chunks[i].as_slice());
            proof {
                crate::history::law_history_is_the_end_of_the_output(
                    start.history + before,
                    chunks@[i as int]@,
                    DEFAULT_BUFFER_SIZE as nat,
                );
                assert((start.history + before) + chunks@[i as int]@ =~= start.history + collected@);
            }
            i = i + 1;
        }
        assert(all.take(all.len() as int) =~= all);
        if ended {
            self.running = false;
        }
        if collected.len() == 0 {
            None
        } else {
            Some(collected)
        }
    }

    /// What it has written, as far back as it is kept.
    pub fn get_history(&self) -> (r: Vec<u8>)
        ensures
            r@ == self@.history,
    {
        self.history.to_vec()
    }
}

/// Appends bytes.
pub(crate) fn append_bytes(out: &mut Vec<u8>, data: &[u8])
    ensures
        final(out)@ == old(out)@ + data@,
{
    let ghost start = out@;
    let mut i: usize = 0;
    assert(start + data@.take(0) =~= start);
    while i < data.len()
        invariant
            i <= data@.len(),
            out@ == start + data@.take(i as int),
        decreases data@.len() - i,
    {
        out.push(data[i]);
        i = i + 1;
        assert(out@ =~= start + data@.take(i as int));
    }
    assert(data@.take(i as int) =~= data@);
}

/// A copy of a text that may be there.
pub(crate) fn copy_of(t: &Option<String>) -> (r: Option<String>)
    ensures
        r.model() == t.model(),
{
    match t {
        Some(s) => Some(s.clone()),
        None => None,
    }
}

/// The terminals of a session.
pub struct PtyManager {
    pub ptys: Vec<ManagedPty>,
    /// The number of the next one.
    pub next_id: usize,
    /// The height of new ones.
    pub default_rows: u16,
    /// The width of new ones.
    pub default_cols: u16,
}

/// The terminals of a session, as a value.
#[verifier::ext_equal]
pub struct ManagerModel {
    pub ptys: Seq<ManagedPtyModel>,
    pub next_id: nat,
    pub rows: u16,
    pub cols: u16,
}

/// Terminals, as values.
pub open spec fn pty_models(v: Seq<ManagedPty>) -> Seq<ManagedPtyModel> {
    Seq::new(v.len(), |i: int| v[i]@)
}

impl View for PtyManager {
    type V = ManagerModel;

    open spec fn view(&self) -> ManagerModel {
        ManagerModel {
            ptys: pty_models(self.ptys@),
            next_id: self.next_id as nat,
            rows: self.default_rows,
            cols: self.default_cols,
        }
    }
}

/// The place of the terminal with a number, if there is one.
pub open spec fn place_of_pty(ptys: Seq<ManagedPtyModel>, id: nat) -> Option<int>
    decreases ptys.len(),
{
    if ptys.len() == 0 {
        None
    } else if ptys[0].info.id == id {
        Some(0)
    } else {
        match place_of_pty(ptys.drop_first(), id) {
            Some(i) => Some(i + 1),
            None => None,
        }
    }
}

/// Whether no command runs any more.
pub open spec fn none_runs(ptys: Seq<ManagedPtyModel>) -> bool {
    forall|i: int| 0 <= i < ptys.len() ==> !(#[trigger] ptys[i]).info.running
}

/// What clients learn of terminals.
pub open spec fn info_models(ptys: Seq<ManagedPtyModel>) -> Seq<PtyInfoModel> {
    ptys.map_values(|p: ManagedPtyModel| p.info)
}

/// The output of the first `n` terminals, by their numbers; those without any are left out.
pub open spec fn outputs(ptys: Seq<ManagedPtyModel>, output: Seq<Seq<u8>>, n: nat) -> Seq<(nat, Seq<u8>)>
    decreases n,
{
    if n == 0 {
        Seq::empty()
    } else {
        let before = outputs(ptys, output, (n - 1) as nat);
        if output[n - 1].len() > 0 {
            before.push((ptys[n - 1].info.id, output[n - 1]))
        } else {
            before
        }
    }
}

/// Output by terminal, as values.
pub open spec fn output_models(v: Seq<(usize, Vec<u8>)>) -> Seq<(nat, Seq<u8>)> {
    Seq::new(v.len(), |i: int| (v[i].0 as nat, v[i].1@))
}

/// What has come from a terminal.
pub struct Polled {
    /// The pieces of output.
    pub chunks: Vec<Vec<u8>>,
    /// Whether it has ended.
    pub ended: bool,
}

/// What has come from terminals, one behind the other for each.
pub open spec fn polled_output(v: Seq<Polled>) -> Seq<Seq<u8>> {
    Seq::new(v.len(), |i: int| together(chunk_models(v[i].chunks@)))
}

impl ManagerModel {
    /// What always holds: every terminal has a number of its own, the later the higher.
    pub open spec fn wf(self) -> bool {
        &&& forall|i: int| 0 <= i < self.ptys.len() ==> (#[trigger] self.ptys[i]).info.id < self.next_id
        &&& forall|i: int, j: int|
            0 <= i < j < self.ptys.len() ==> (#[trigger] self.ptys[i]).info.id < (
            #[trigger] self.ptys[j]).info.id
    }

    /// With a terminal more, whose number has been given out.
    pub open spec fn with_started(self, id: nat, config: PtyConfigModel) -> ManagerModel {
        ManagerModel { ptys: self.ptys.push(ManagedPtyModel::started(id, config)), ..self }
    }

    /// After output.
    pub open spec fn after_output(self, output: Seq<Seq<u8>>, ended: Seq<bool>) -> ManagerModel {
        ManagerModel {
            ptys: Seq::new(
                self.ptys.len(),
                |i: int| self.ptys[i].after_output(output[i], ended[i]),
            ),
            ..self
        }
    }
}

/// Whether each terminal has ended.
pub open spec fn polled_ends(v: Seq<Polled>) -> Seq<bool> {
    Seq::new(v.len(), |i: int| v[i].ended)
}

impl PtyManager {
    /// What always holds.
    pub open spec fn wf(self) -> bool {
        &&& self@.wf()
        &&& forall|i: int| 0 <= i < self.ptys@.len() ==> (#[trigger] self.ptys@[i]).wf()
    }

    /// No terminals yet.
    pub fn new(rows: u16, cols: u16) -> (m: PtyManager)
        ensures
            m@ == (ManagerModel { ptys: Seq::empty(), next_id: 0, rows, cols }),
            m.wf(),
    {
        let m = PtyManager { ptys: Vec::new(), next_id: 0, default_rows: rows, default_cols: cols };
        assert(m@.ptys =~= Seq::<ManagedPtyModel>::empty());
        m
    }

    /// Gives out the number of a terminal that is to be started. It is used up even if the
    /// start fails.
    pub fn next_id(&mut self) -> (id: usize)
        requires
            old(self).wf(),
            old(self)@.next_id < usize::MAX,
        ensures
            id == old(self)@.next_id,
            final(self)@ == (ManagerModel { next_id: old(self)@.next_id + 1, ..old(self)@ }),
            final(self).wf(),
    {
        let id = self.next_id;
        self.next_id = self.next_id + 1;
        id
    }

    /// Notes that a terminal was started; returns what a client learns of it.
    pub fn spawn(&mut self, id: usize, config: &PtyConfig) -> (info: PtyInfo)
        requires
            old(self).wf(),
            id < old(self)@.next_id,
            old(self)@.ptys.len() > 0 ==> old(self)@.ptys.last().info.id < id,
        ensures
            final(self)@ == old(self)@.with_started(id as nat, config.model()),
            final(self).wf(),
            info.model() == ManagedPtyModel::started(id as nat, config.model()).info,
    {
        let ghost start = self@;
        let pty = ManagedPty::started(id, config);
        let ghost model = pty@;
        let info = pty.info();
        self.ptys.push(pty);
        assert(self@.ptys =~= start.ptys.push(model));
        info
    }

    /// The place of the terminal with a number.
    pub fn place(&self, id: usize) -> (r: Option<usize>)
        ensures
            match r {
                Some(i) => i < self@.ptys.len() && place_of_pty(self@.ptys, id as nat) == Some(i as int)
                    && self@.ptys[i as int].info.id == id,
                None => place_of_pty(self@.ptys, id as nat) is None,
            },
    {
        let ghost all = self@.ptys;
        let mut i: usize = 0;
        assert(all.skip(0) =~= all);
        while i < self.ptys.len()
            invariant
                i <= self.ptys@.len(),
                all == self@.ptys,
                place_of_pty(all, id as nat) == match place_of_pty(all.skip(i as int), id as nat) {
                    Some(k) => Some(k + i),
                    None => None,
                },
            decreases self.ptys@.len() - i,
        {
            assert(all.skip(i as int)[0] == self.ptys@[i as int]@);
            assert(all.skip(i as int).drop_first() =~= all.skip(i + 1));
            if self.ptys[i].id == id {
                return Some(i);
            }
            i = i + 1;
        }
        None
    }

    /// The terminal with a number.
    pub fn get(&self, id: usize) -> (r: Option<&ManagedPty>)
        ensures
            match r {
                Some(p) => place_of_pty(self@.ptys, id as nat) is Some && p@ == self@.ptys[place_of_pty(
                    self@.ptys,
                    id as nat,
                )->0],
                None => place_of_pty(self@.ptys, id as nat) is None,
            },
    {
        match self.place(id) {
            Some(i) => Some(&self.ptys[i]),
            None => None,
        }
    }

    /// The terminal with a number, to be changed.
    pub fn get_mut(&mut self, id: usize) -> (r: Option<&mut ManagedPty>)
        ensures
            match r {
                Some(p) => {
                    let place = place_of_pty(old(self)@.ptys, id as nat);
                    &&& place is Some
                    &&& p@ == old(self)@.ptys[place->0]
                    &&& final(self)@ == (ManagerModel {
                        ptys: old(self)@.ptys.update(place->0, final(p)@),
                        ..old(self)@
                    })
                },
                None => place_of_pty(old(self)@.ptys, id as nat) is None && final(self)@ == old(self)@,
            },
    {
        match self.place(id) {
            Some(i) => {
                let p = &mut self.ptys[i];
                proof {
                    assert(pty_models(old(self).ptys@.update(i as int, *final(p))) =~= pty_models(
                        old(self).ptys@,
                    ).update(i as int, final(p)@));
                }
                Some(p)
            },
            None => None,
        }
    }

    /// What a client learns of all terminals.
    pub fn infos(&self) -> (r: Vec<PtyInfo>)
        ensures
            row_models(r@) == info_models(self@.ptys),
    {
        let mut r: Vec<PtyInfo> = Vec::new();
        let mut i: usize = 0;
        while i < self.ptys.len()
            invariant
                i <= self.ptys@.len(),
                r@.len() == i,
                forall|k: int| 0 <= k < i ==> (#[trigger] r@[k]).model() == self@.ptys[k].info,
            decreases self.ptys@.len() - i,
        {
            r.push(self.ptys[i].info());
            i = i + 1;
        }
        assert(row_models(r@) =~= info_models(self@.ptys));
        r
    }

    /// Takes in what has come from each terminal; returns the output by their numbers.
    pub fn poll_all(&mut self, polled: &Vec<Polled>) -> (r: Vec<(usize, Vec<u8>)>)
        requires
            old(self).wf(),
            polled@.len() == old(self)@.ptys.len(),
        ensures
            final(self)@ == old(self)@.after_output(polled_output(polled@), polled_ends(polled@)),
            final(self).wf(),
            output_models(r@) == outputs(
                old(self)@.ptys,
                polled_output(polled@),
                old(self)@.ptys.len(),
            ),
    {
        let ghost start = self@;
        let ghost out = polled_output(polled@);
        let ghost ends = polled_ends(polled@);
        let ghost after = start.after_output(out, ends);
        let mut r: Vec<(usize, Vec<u8>)> = Vec::new();
        let mut i: usize = 0;
        assert(output_models(r@) =~= Seq::<(nat, Seq<u8>)>::empty());
        while i < self.ptys.len()
            invariant
                i <= self.ptys@.len() == start.ptys.len() == polled@.len(),
                start.wf(),
                out == polled_output(polled@),
                ends == polled_ends(polled@),
                after == start.after_output(out, ends),
                self@ == (ManagerModel { ptys: pty_models(self.ptys@), ..start }),
                output_models(r@) == outputs(start.ptys, out, i as nat),
                forall|k: int| 0 <= k < self.ptys@.len() ==> (#[trigger] self.ptys@[k]).wf(),
                forall|k: int| 0 <= k < i ==> (#[trigger] self.ptys@[k])@ == after.ptys[k],
                forall|k: int|
                    i <= k < start.ptys.len() ==> (#[trigger] self.ptys@[k])@ == start.ptys[k],
            decreases start.ptys.len() - i,
        {
            let ghost before = output_models(r@);
            assert(self.ptys@[i as int].wf());
            let id = self.ptys[i].id;
            assert(start.ptys[i as int].info.id == id);
            if let Some(data) = self.ptys[i].poll_output(&polled[i].chunks, polled[i].ended) {
                let ghost bytes = data@;
                r.push((id, data));
                assert(output_models(r@) =~= before.push((id as nat, bytes)));
            }
            i = i + 1;
        }
        proof {
            assert(self@.ptys =~= after.ptys);
            assert forall|k: int| 0 <= k < after.ptys.len() implies (#[trigger] after.ptys[k]).info.id
                < after.next_id by {
                assert(start.ptys[k].info.id < start.next_id);
            }
            assert forall|j: int, k: int| 0 <= j < k < after.ptys.len() implies (
            #[trigger] after.ptys[j]).info.id < (#[trigger] after.ptys[k]).info.id by {
                assert(start.ptys[j].info.id < start.ptys[k].info.id);
            }
        }
        r
    }

    /// Whether no command runs any more.
    pub fn all_exited(&self) -> (r: bool)
        ensures
            r == none_runs(self@.ptys),
    {
        let mut i: usize = 0;
        while i < self.ptys.len()
            invariant
                i <= self.ptys@.len(),
                forall|k: int| 0 <= k < i ==> !(#[trigger] self@.ptys[k]).info.running,
            decreases self.ptys@.len() - i,
        {
            if self.ptys[i].running {
                assert(self@.ptys[i as int].info.running);
                return false;
            }
            i = i + 1;
        }
        true
    }

    /// What a terminal has written.
    pub fn get_history(&self, id: usize) -> (r: Option<Vec<u8>>)
        ensures
            match r {
                Some(h) => place_of_pty(self@.ptys, id as nat) is Some && h@
                    == self@.ptys[place_of_pty(self@.ptys, id as nat)->0].history,
                None => place_of_pty(self@.ptys, id as nat) is None,
            },
    {
        match self.get(id) {
            Some(p) => Some(p.get_history()),
            None => None,
        }
    }

    /// Changes the size of terminals to come.
    pub fn set_default_size(&mut self, rows: u16, cols: u16)
        ensures
            final(self)@ == (ManagerModel { rows, cols, ..old(self)@ }),
            old(self).wf() ==> final(self).wf(),
    {
        self.default_rows = rows;
        self.default_cols = cols;
    }
}

// ---------------------------------------------------------------------------
// Laws
// ---------------------------------------------------------------------------

/// Every terminal is found by its number.
pub proof fn law_terminals_are_found(m: ManagerModel, i: int)
    requires
        m.wf(),
        0 <= i < m.ptys.len(),
    ensures
        place_of_pty(m.ptys, m.ptys[i].info.id) == Some(i),
    decreases m.ptys.len(),
{
    lemma_found(m.ptys, i);
}

proof fn lemma_found(ptys: Seq<ManagedPtyModel>, i: int)
    requires
        0 <= i < ptys.len(),
        forall|j: int, k: int|
            0 <= j < k < ptys.len() ==> (#[trigger] ptys[j]).info.id < (#[trigger] ptys[k]).info.id,
    ensures
        place_of_pty(ptys, ptys[i].info.id) == Some(i),
    decreases ptys.len(),
{
    if i > 0 {
        assert(ptys[0].info.id < ptys[i].info.id);
        let rest = ptys.drop_first();
        assert forall|j: int, k: int| 0 <= j < k < rest.len() implies (#[trigger] rest[j]).info.id < (
        #[trigger] rest[k]).info.id by {
            assert(ptys[j + 1].info.id < ptys[k + 1].info.id);
        }
        lemma_found(rest, i - 1);
        assert(rest[i - 1] == ptys[i]);
    }
}

/// A terminal that was started runs and is found by its number; those before it are found as
/// before.
pub proof fn law_started_terminals_run(m: ManagerModel, config: PtyConfigModel)
    requires
        m.wf(),
    ensures
        ({
            let id = m.next_id;
            let after = (ManagerModel { next_id: id + 1, ..m }).with_started(id, config);
            &&& after.wf()
            &&& place_of_pty(after.ptys, id) == Some(m.ptys.len() as int)
            &&& after.ptys.last().info.running
            &&& !none_runs(after.ptys)
            &&& forall|i: int| 0 <= i < m.ptys.len() ==> after.ptys[i] == #[trigger] m.ptys[i]
        }),
{
    let id = m.next_id;
    let after = (ManagerModel { next_id: id + 1, ..m }).with_started(id, config);
    assert(after.wf()) by {
        assert forall|i: int, j: int| 0 <= i < j < after.ptys.len() implies (
        #[trigger] after.ptys[i]).info.id < (#[trigger] after.ptys[j]).info.id by {
            assert(after.ptys[i] == m.ptys[i]);
            if j < m.ptys.len() {
                assert(after.ptys[j] == m.ptys[j]);
            }
        }
    }
    law_terminals_are_found(after, m.ptys.len() as int);
    assert(after.ptys[m.ptys.len() as int].info.running);
}

/// A terminal that has ended does not run again, and its output stays.
pub proof fn law_the_end_is_final(p: ManagedPtyModel, output: Seq<u8>, ended: bool)
    requires
        !p.info.running,
        p.history.len() <= DEFAULT_BUFFER_SIZE,
    ensures
        !p.after_output(output, ended).info.running,
        p.after_output(Seq::empty(), ended) == p,
{
    assert(p.history + Seq::<u8>::empty() =~= p.history);
}

/// A terminal that was started has the number it was given, and the name, the command and the
/// directory that were ordered; it runs, has written nothing, and stands behind the others.
pub proof fn law_terminals_are_started_as_ordered(m: ManagerModel, id: nat, config: PtyConfigModel)
    ensures
        ({
            let after = m.with_started(id, config);
            let p = after.ptys.last();
            &&& after.ptys.len() == m.ptys.len() + 1
            &&& p.info.id == id
            &&& p.info.name == config.name
            &&& p.info.command == config.command
            &&& p.info.cwd == config.cwd
            &&& p.info.running
            &&& p.history.len() == 0
            &&& after.next_id == m.next_id && after.rows == m.rows && after.cols == m.cols
        }),
{
}

/// What a terminal writes is kept, up to the last mebibyte, and a terminal runs until its command
/// has ended; who it is does not change.
pub proof fn law_output_is_kept(p: ManagedPtyModel, output: Seq<u8>, ended: bool)
    ensures
        ({
            let q = p.after_output(output, ended);
            let all = p.history + output;
            &&& all.len() <= 1048576 ==> q.history == all
            &&& all.len() > 1048576 ==> q.history == all.skip(all.len() - 1048576)
            &&& q.info.running == (p.info.running && !ended)
            &&& q.info.id == p.info.id && q.info.name == p.info.name
            &&& q.info.command == p.info.command && q.info.cwd == p.info.cwd
        }),
{
}

/// Each terminal gets its own output.
pub proof fn law_each_terminal_gets_its_output(
    m: ManagerModel,
    output: Seq<Seq<u8>>,
    ended: Seq<bool>,
    i: int,
)
    requires
        0 <= i < m.ptys.len(),
        output.len() == m.ptys.len(),
        ended.len() == m.ptys.len(),
    ensures
        m.after_output(output, ended).ptys.len() == m.ptys.len(),
        m.after_output(output, ended).ptys[i] == m.ptys[i].after_output(output[i], ended[i]),
{
}

/// The output that comes in lots is taken in their order, with nothing between.
pub proof fn law_lots_of_output_are_joined(chunks: Seq<Seq<u8>>)
    ensures
        together(chunks) == chunks.flatten(),
    decreases chunks.len(),
{
    chunks.lemma_flatten_and_flatten_alt_are_equivalent();
    if chunks.len() > 0 {
        law_lots_of_output_are_joined(chunks.drop_last());
        chunks.drop_last().lemma_flatten_and_flatten_alt_are_equivalent();
    } else {
        assert(together(chunks) =~= chunks.flatten());
    }
}

proof fn lemma_outputs_before(
    ptys: Seq<ManagedPtyModel>,
    output: Seq<Seq<u8>>,
    p: ManagedPtyModel,
    more: Seq<u8>,
    n: nat,
)
    requires
        n <= ptys.len() == output.len(),
    ensures
        outputs(ptys.push(p), output.push(more), n) == outputs(ptys, output, n),
    decreases n,
{
    if n > 0 {
        lemma_outputs_before(ptys, output, p, more, (n - 1) as nat);
    }
}

/// What is told of output: nothing without terminals, and for each terminal more its number with
/// what it has written, behind what is told of those before it, if it has written anything.
pub proof fn law_what_is_told_of_output(
    ptys: Seq<ManagedPtyModel>,
    output: Seq<Seq<u8>>,
    p: ManagedPtyModel,
    more: Seq<u8>,
)
    requires
        ptys.len() == output.len(),
    ensures
        outputs(Seq::empty(), Seq::empty(), 0).len() == 0,
        outputs(ptys.push(p), output.push(more), ptys.len() + 1) == if more.len() > 0 {
            outputs(ptys, output, ptys.len()).push((p.info.id, more))
        } else {
            outputs(ptys, output, ptys.len())
        },
{
    lemma_outputs_before(ptys, output, p, more, ptys.len());
}

/// Nothing runs exactly if no terminal does; the others are told as they are.
pub proof fn law_terminals_are_told_of(ptys: Seq<ManagedPtyModel>, i: int)
    requires
        0 <= i < ptys.len(),
    ensures
        ptys[i].info.running ==> !none_runs(ptys),
        !none_runs(ptys) ==> exists|k: int| 0 <= k < ptys.len() && (#[trigger] ptys[k]).info.running,
        info_models(ptys).len() == ptys.len(),
        info_models(ptys)[i] == ptys[i].info,
{
}

/// What came of each terminal is taken as its own: its lots of output, one behind the other, and
/// whether its command has ended.
pub proof fn law_what_came_of_each_terminal(polled: Seq<Polled>, i: int)
    requires
        0 <= i < polled.len(),
    ensures
        polled_output(polled).len() == polled.len(),
        polled_output(polled)[i] == chunk_models(polled[i].chunks@).flatten(),
        polled_ends(polled).len() == polled.len(),
        polled_ends(polled)[i] == polled[i].ended,
{
    law_lots_of_output_are_joined(chunk_models(polled[i].chunks@));
}

} // verus!
