//! A terminal that a chaperone keeps, as the program sees it: it may be connected or
//! not, and its screen outlives the connection.

use vstd::prelude::*;
use vstd::string::*;

use crate::emulator::{size_ok, term_size, view_moved, TermStep};
use crate::ident::{is_random_uuid, new_id};
use crate::picker::{HasNameActivity, HasPtyStatus};
use crate::protocol::{ClientMessage, ClientMessageModel, DaemonMessage, DaemonMessageModel};
use crate::pty::{
    bells_in, count_bells, law_bells_are_counted, ActivityState, Pty, PtyModel, PtyStatus,
    RESIZE_COOLDOWN,
};
use crate::wire::{row_models, Wire};

verus! {

/// A chaperone's terminal, as a value.
#[verifier::ext_equal]
pub struct ChannelModel {
    pub id: Seq<char>,
    pub name: Seq<char>,
    pub command: Seq<char>,
    pub cwd: Option<Seq<char>>,
    pub socket: Seq<char>,
    pub connected: bool,
    pub rows: u16,
    pub cols: u16,
    pub pty: PtyModel,
    pub history_complete: bool,
    pub replaced: bool,
}

impl ChannelModel {
    /// What every such terminal keeps: the size it asks for is the size it has.
    pub open spec fn wf(self) -> bool {
        self.pty.wf() && term_size(self.pty.log) == (self.rows, self.cols)
    }

    /// The terminal once its connection is made: the history will come again.
    pub open spec fn with_connection(self) -> ChannelModel {
        if self.connected {
            self
        } else {
            ChannelModel { connected: true, history_complete: false, ..self }
        }
    }

    /// The terminal without its connection.
    pub open spec fn without_connection(self) -> ChannelModel {
        ChannelModel { connected: false, ..self }
    }

    /// The terminal after a message.
    pub open spec fn after_message(self, msg: DaemonMessageModel, is_focused: bool, now: u64) -> ChannelModel {
        match msg {
            DaemonMessageModel::History { data, .. } => ChannelModel {
                pty: self.pty.replayed(data),
                ..self
            },
            DaemonMessageModel::HistoryEnd { .. } => ChannelModel { history_complete: true, ..self },
            DaemonMessageModel::Output { data, .. } => ChannelModel {
                pty: self.pty.after_output(data, is_focused, now),
                ..self
            },
            DaemonMessageModel::PtyExited { .. } => ChannelModel {
                pty: PtyModel { status: PtyStatus::Exited, ..self.pty },
                ..self
            },
            _ => self,
        }
    }

    /// The terminal after messages, in their order. Without a connection none count.
    pub open spec fn after_messages(self, msgs: Seq<DaemonMessageModel>, is_focused: bool, now: u64) -> ChannelModel
        decreases msgs.len(),
    {
        if !self.connected || msgs.len() == 0 {
            self
        } else {
            self.after_messages(msgs.drop_last(), is_focused, now).after_message(
                msgs.last(),
                is_focused,
                now,
            )
        }
    }

    /// Whether the bells in the messages can be counted.
    pub open spec fn can_count(self, msgs: Seq<DaemonMessageModel>, is_focused: bool, now: u64) -> bool {
        self.connected && !is_focused && !self.pty.quiet(now) ==> self.pty.activity.bells()
            + bells_in_messages(msgs) <= u32::MAX
    }

    /// The terminal after a change of size.
    pub open spec fn resized(self, rows: u16, cols: u16, now: u64) -> ChannelModel {
        ChannelModel { rows, cols, pty: self.pty.resized(rows, cols, now), ..self }
    }
}

/// The bells in the output among messages.
pub open spec fn bells_in_messages(msgs: Seq<DaemonMessageModel>) -> nat
    decreases msgs.len(),
{
    if msgs.len() == 0 {
        0
    } else {
        bells_in_messages(msgs.drop_last()) + match msgs.last() {
            DaemonMessageModel::Output { data, .. } => bells_in(data),
            _ => 0,
        }
    }
}

/// Counts the bells in the output among messages, up to the largest count there is.
pub fn count_message_bells(msgs: &Vec<DaemonMessage>) -> (n: u64)
    ensures
        n == bells_in_messages(row_models(msgs@)) || n == u64::MAX && bells_in_messages(
            row_models(msgs@),
        ) >= u64::MAX,
{
    let mut n: u64 = 0;
    let mut i: usize = 0;
    let ghost all = row_models(msgs@);
    assert(all.take(0) == Seq::<DaemonMessageModel>::empty());
    while i < msgs.len()
        invariant
            i <= msgs@.len(),
            all == row_models(msgs@),
            n == bells_in_messages(all.take(i as int)) || n == u64::MAX && bells_in_messages(
                all.take(i as int),
            ) >= u64::MAX,
        decreases msgs@.len() - i,
    {
        assert(all.take(i + 1).drop_last() == all.take(i as int));
        assert(all.take(i + 1).last() == msgs@[i as int].model());
        if let DaemonMessage::Output { data, .. } = &msgs[i] {
            n = n.saturating_add(count_bells(data.as_slice()) as u64);
        }
        i = i + 1;
    }
    assert(all.take(msgs@.len() as int) == all);
    n
}

/// A terminal that a chaperone keeps.
pub struct ChaperoneChannel {
    /// Its own name, unlike any other.
    pub id: String,
    /// The name it is shown under.
    pub name: String,
    /// The command that runs in it.
    pub command: String,
    /// The directory that the command runs in.
    pub cwd: Option<String>,
    /// The socket to reach it by.
    pub socket_path: String,
    /// Whether it is connected.
    pub connected: bool,
    /// Its height.
    pub rows: u16,
    /// Its width.
    pub cols: u16,
    /// Its screen.
    pub pty: Pty,
    /// Whether the output from before the connection has all come.
    pub history_complete: bool,
    /// Whether a shell was asked for in its place once its command had ended.
    pub replaced: bool,
}

impl View for ChaperoneChannel {
    type V = ChannelModel;

    open spec fn view(&self) -> ChannelModel {
        ChannelModel {
            id: self.id@,
            name: self.name@,
            command: self.command@,
            cwd: self.cwd.model(),
            socket: self.socket_path@,
            connected: self.connected,
            rows: self.rows,
            cols: self.cols,
            pty: self.pty@,
            history_complete: self.history_complete,
            replaced: self.replaced,
        }
    }
}

/// What a message that may be there says.
pub open spec fn said(msg: Option<ClientMessage>) -> Option<ClientMessageModel> {
    msg.model()
}

impl ChaperoneChannel {
    /// A terminal whose connection has just been made.
    pub fn new(
        name: String,
        command: String,
        cwd: Option<String>,
        socket_path: String,
        rows: u16,
        cols: u16,
    ) -> (c: ChaperoneChannel)
        requires
            size_ok(rows, cols),
        ensures
            c@ == (ChannelModel {
                id: c@.id,
                name: name@,
                command: command@,
                cwd: cwd.model(),
                socket: socket_path@,
                connected: true,
                rows,
                cols,
                pty: PtyModel::opened(rows, cols),
                history_complete: false,
                replaced: false,
            }),
            is_random_uuid(c@.id),
            c@.wf(),
    {
        let mut c = ChaperoneChannel::new_disconnected(name, command, cwd, socket_path, rows, cols);
        c.connected = true;
        c
    }

    /// A terminal that is not connected yet.
    pub fn new_disconnected(
        name: String,
        command: String,
        cwd: Option<String>,
        socket_path: String,
        rows: u16,
        cols: u16,
    ) -> (c: ChaperoneChannel)
        requires
            size_ok(rows, cols),
        ensures
            c@ == (ChannelModel {
                id: c@.id,
                name: name@,
                command: command@,
                cwd: cwd.model(),
                socket: socket_path@,
                connected: false,
                rows,
                cols,
                pty: PtyModel::opened(rows, cols),
                history_complete: false,
                replaced: false,
            }),
            is_random_uuid(c@.id),
            c@.wf(),
    {
        ChaperoneChannel {
            id: new_id(),
            name,
            command,
            cwd,
            socket_path,
            connected: false,
            rows,
            cols,
            pty: Pty::new(rows, cols),
            history_complete: false,
            replaced: false,
        }
    }

    /// Its own name.
    pub fn id(&self) -> (r: &str)
        ensures
            r@ == self@.id,
    {
        self.id.as_str()
    }

    /// Whether it is connected.
    pub fn is_connected(&self) -> (r: bool)
        ensures
            r == self@.connected,
    {
        self.connected
    }

    /// Notes that its connection has been made, and returns what to send over it first:
    /// its size. Does nothing if it was connected.
    pub fn connect(&mut self) -> (first: Option<ClientMessage>)
        ensures
            final(self)@ == old(self)@.with_connection(),
            said(first) == if old(self)@.connected {
                None
            } else {
                Some(
                    ClientMessageModel::Resize {
                        pty_id: 0,
                        rows: old(self)@.rows as nat,
                        cols: old(self)@.cols as nat,
                    },
                )
            },
    {
        if self.connected {
            return None;
        }
        self.connected = true;
        self.history_complete = false;
        self.send_resize(self.rows, self.cols)
    }

    /// Notes that its connection is gone. The screen stays.
    pub fn disconnect(&mut self)
        ensures
            final(self)@ == old(self)@.without_connection(),
    {
        self.connected = false;
    }

    /// The message that asks for a size, if there is a connection to send it over.
    fn send_resize(&self, rows: u16, cols: u16) -> (msg: Option<ClientMessage>)
        ensures
            said(msg) == if self@.connected {
                Some(ClientMessageModel::Resize { pty_id: 0, rows: rows as nat, cols: cols as nat })
            } else {
                None
            },
    {
        if self.connected {
            Some(ClientMessage::Resize { pty_id: 0, rows, cols })
        } else {
            None
        }
    }

    /// Takes in messages that have come.
    pub fn process_pending(&mut self, messages: &Vec<DaemonMessage>, is_focused: bool, now: u64)
        requires
            old(self)@.wf(),
            old(self)@.can_count(row_models(messages@), is_focused, now),
        ensures
            final(self)@ == old(self)@.after_messages(row_models(messages@), is_focused, now),
            final(self)@.wf(),
    {
        if !self.connected {
            return;
        }
        let ghost start = self@;
        let ghost all = row_models(messages@);
        let mut i: usize = 0;
        assert(all.take(0) == Seq::<DaemonMessageModel>::empty());
        while i < messages.len()
            invariant
                i <= messages@.len(),
                all == row_models(messages@),
                start == old(self)@,
                start.connected,
                self@ == start.after_messages(all.take(i as int), is_focused, now),
                self@.wf(),
                self@.connected,
                self@.pty.quiet_until == start.pty.quiet_until,
                !is_focused && !start.pty.quiet(now) ==> self@.pty.activity.bells() == start.pty.activity.bells()
                    + bells_in_messages(all.take(i as int)),
                !is_focused && !start.pty.quiet(now) ==> start.pty.activity.bells() + bells_in_messages(
                    all,
                ) <= u32::MAX,
            decreases messages@.len() - i,
        {
            proof {
                assert(all.take(i + 1).drop_last() == all.take(i as int));
                assert(all.take(i + 1).last() == messages@[i as int].model());
                lemma_fewer_bells(all, i + 1);
            }
            match &messages[i] {
                DaemonMessage::History { data, .. } => {
                    self.pty.replay(data.as_slice());
                },
                DaemonMessage::HistoryEnd { .. } => {
                    self.history_complete = true;
                },
                DaemonMessage::Output { data, .. } => {
                    self.pty.process_output(data.as_slice(), is_focused, now);
                },
                DaemonMessage::PtyExited { .. } => {
                    self.pty.mark_exited();
                },
                _ => {},
            }
            i = i + 1;
        }
        assert(all.take(messages@.len() as int) == all);
    }

    /// Looks again at activity that was pending.
    pub fn check_pending_activity(&mut self, now: u64)
        ensures
            final(self)@ == (ChannelModel {
                pty: PtyModel { activity: old(self)@.pty.activity_settled(now), ..old(self)@.pty },
                ..old(self)@
            }),
    {
        self.pty.check_pending_activity(now);
    }

    /// Forgets what was new.
    pub fn clear_activity(&mut self)
        ensures
            final(self)@ == (ChannelModel {
                pty: PtyModel { activity: ActivityState::Idle, ..old(self)@.pty },
                ..old(self)@
            }),
    {
        self.pty.clear_activity();
    }

    /// Changes the size, and returns what to send over the connection if there is one.
    pub fn resize(&mut self, rows: u16, cols: u16, now: u64) -> (msg: Option<ClientMessage>)
        requires
            old(self)@.wf(),
            size_ok(rows, cols),
            now + RESIZE_COOLDOWN <= u64::MAX,
        ensures
            final(self)@ == old(self)@.resized(rows, cols, now),
            final(self)@.wf(),
            said(msg) == if old(self)@.connected {
                Some(ClientMessageModel::Resize { pty_id: 0, rows: rows as nat, cols: cols as nat })
            } else {
                None
            },
    {
        self.rows = rows;
        self.cols = cols;
        self.pty.resize(rows, cols, now);
        self.send_resize(rows, cols)
    }

    /// What to send for input; nothing without a connection.
    pub fn write(&self, data: &[u8]) -> (msg: Option<ClientMessage>)
        ensures
            said(msg) == if self@.connected {
                Some(ClientMessageModel::Input { pty_id: 0, data: data@ })
            } else {
                None
            },
    {
        if self.connected {
            let bytes = vstd::slice::slice_to_vec(data);
            Some(ClientMessage::Input { pty_id: 0, data: bytes })
        } else {
            None
        }
    }

    /// Moves the view to where the user has scrolled to.
    pub fn apply_scroll_for_render(&mut self)
        ensures
            final(self)@ == (ChannelModel {
                pty: PtyModel {
                    view: if old(self)@.pty.scroll <= old(self)@.pty.reach() {
                        old(self)@.pty.scroll
                    } else {
                        old(self)@.pty.reach()
                    },
                    ..old(self)@.pty
                },
                ..old(self)@
            }),
    {
        self.pty.apply_scroll_for_render();
    }

    /// Moves the view back to the screen.
    pub fn reset_scroll_view(&mut self)
        ensures
            final(self)@ == (ChannelModel { pty: PtyModel { view: 0, ..old(self)@.pty }, ..old(self)@ }),
    {
        self.pty.reset_scroll_view();
    }

    /// Whether the user has scrolled back.
    pub fn is_scrolled(&self) -> (r: bool)
        ensures
            r == (self@.pty.scroll > 0),
    {
        self.pty.is_scrolled()
    }

    /// How far the user can scroll back.
    pub fn scrollback_len(&mut self) -> (n: usize)
        requires
            old(self)@.wf(),
        ensures
            n == old(self)@.pty.reach(),
            n <= crate::pty::SCROLLBACK_LINES,
            final(self)@ == old(self)@,
    {
        self.pty.scrollback_len()
    }

    /// Scrolls back; says whether this began the scrolling.
    pub fn scroll_up(&mut self, lines: usize) -> (began: bool)
        requires
            old(self)@.wf(),
            old(self)@.pty.scroll + lines <= usize::MAX,
        ensures
            final(self)@ == (ChannelModel { pty: old(self)@.pty.scrolled_up(lines as nat), ..old(self)@ }),
            final(self)@.wf(),
            began == (old(self)@.pty.scroll == 0 && final(self)@.pty.scroll > 0),
    {
        self.pty.scroll_up(lines)
    }

    /// Scrolls forth; says whether this ended the scrolling.
    pub fn scroll_down(&mut self, lines: usize) -> (ended: bool)
        ensures
            final(self)@ == (ChannelModel { pty: old(self)@.pty.scrolled_down(lines as nat), ..old(self)@ }),
            old(self)@.wf() ==> final(self)@.wf(),
            ended == (old(self)@.pty.scroll > 0 && final(self)@.pty.scroll == 0),
    {
        self.pty.scroll_down(lines)
    }

    /// Scrolls to the end.
    pub fn scroll_to_bottom(&mut self)
        ensures
            final(self)@ == (ChannelModel { pty: PtyModel { scroll: 0, ..old(self)@.pty }, ..old(self)@ }),
    {
        self.pty.scroll_to_bottom();
    }

    /// The screen.
    pub fn screen(&self) -> (r: &Pty)
        ensures
            r@ == self@.pty,
    {
        &self.pty
    }
}

proof fn lemma_fewer_bells(msgs: Seq<DaemonMessageModel>, n: int)
    requires
        0 <= n <= msgs.len(),
    ensures
        bells_in_messages(msgs.take(n)) <= bells_in_messages(msgs),
    decreases msgs.len() - n,
{
    if n < msgs.len() {
        lemma_fewer_bells(msgs, n + 1);
        assert(msgs.take(n + 1).drop_last() == msgs.take(n));
    } else {
        assert(msgs.take(n) == msgs);
    }
}

impl HasNameActivity for ChaperoneChannel {
    open spec fn spec_name(&self) -> Seq<char> {
        self@.name
    }

    open spec fn spec_activity(&self) -> ActivityState {
        self@.pty.activity
    }

    fn name(&self) -> &str {
        self.name.as_str()
    }

    fn activity(&self) -> &ActivityState {
        &self.pty.activity
    }
}

impl HasPtyStatus for ChaperoneChannel {
    open spec fn spec_pty_status(&self) -> PtyStatus {
        self@.pty.status
    }

    fn pty_status(&self) -> &PtyStatus {
        &self.pty.status
    }
}

// ---------------------------------------------------------------------------
// Laws
// ---------------------------------------------------------------------------

/// A connection that is lost and made again leaves the screen, the scroll position and
/// the activity as they were; only the history is awaited anew.
pub proof fn law_reconnect_keeps_the_screen(c: ChannelModel)
    ensures
        c.without_connection().with_connection() == (ChannelModel {
            connected: true,
            history_complete: false,
            ..c
        }),
{
}

/// Connecting twice is connecting once.
pub proof fn law_connect_is_idempotent(c: ChannelModel)
    ensures
        c.with_connection().with_connection() == c.with_connection(),
{
}

/// Without a connection no message has an effect.
pub proof fn law_disconnected_ignores_messages(
    c: ChannelModel,
    msgs: Seq<DaemonMessageModel>,
    is_focused: bool,
    now: u64,
)
    ensures
        c.without_connection().after_messages(msgs, is_focused, now) == c.without_connection(),
{
}

/// Messages that come in two lots have the effect of one lot.
pub proof fn law_messages_in_lots(
    c: ChannelModel,
    first: Seq<DaemonMessageModel>,
    second: Seq<DaemonMessageModel>,
    is_focused: bool,
    now: u64,
)
    ensures
        c.after_messages(first, is_focused, now).after_messages(second, is_focused, now)
            == c.after_messages(first + second, is_focused, now),
    decreases second.len(),
{
    lemma_messages_keep_connection(c, first, is_focused, now);
    if second.len() == 0 {
        assert(first + second == first);
    } else {
        law_messages_in_lots(c, first, second.drop_last(), is_focused, now);
        assert((first + second).drop_last() == first + second.drop_last());
        assert((first + second).last() == second.last());
    }
}

proof fn lemma_messages_keep_connection(
    c: ChannelModel,
    msgs: Seq<DaemonMessageModel>,
    is_focused: bool,
    now: u64,
)
    ensures
        c.after_messages(msgs, is_focused, now).connected == c.connected,
    decreases msgs.len(),
{
    if c.connected && msgs.len() > 0 {
        lemma_messages_keep_connection(c, msgs.drop_last(), is_focused, now);
    }
}

/// What each message does to a terminal that is connected. What was written before the connection
/// is shown and is never something new; output is shown and may be; that there is no more of the
/// past, and that the command has ended, are noted; anything else is passed over.
pub proof fn law_what_messages_do(c: ChannelModel, m: DaemonMessageModel, is_focused: bool, now: u64)
    requires
        c.connected,
    ensures
        ({
            let d = c.after_messages(seq![m], is_focused, now);
            match m {
                DaemonMessageModel::History { pty_id, data } => d == (ChannelModel {
                    pty: PtyModel {
                        log: c.pty.log.push(TermStep::Feed(data)),
                        view: view_moved(c.pty.log, c.pty.view, data),
                        ..c.pty
                    },
                    ..c
                }),
                DaemonMessageModel::HistoryEnd { pty_id } => d == (ChannelModel {
                    history_complete: true,
                    ..c
                }),
                DaemonMessageModel::Output { pty_id, data } => {
                    &&& data.len() > 0 ==> d.pty.log == c.pty.log.push(TermStep::Feed(data))
                    &&& data.len() > 0 ==> d.pty.view == view_moved(c.pty.log, c.pty.view, data)
                    &&& data.len() > 0 ==> d.pty.activity == c.pty.activity_after(data, is_focused, now)
                    &&& data.len() == 0 ==> d == c
                    &&& d == (ChannelModel {
                        pty: PtyModel {
                            log: d.pty.log,
                            view: d.pty.view,
                            activity: d.pty.activity,
                            ..c.pty
                        },
                        ..c
                    })
                },
                DaemonMessageModel::PtyExited { pty_id, exit_code } => d == (ChannelModel {
                    pty: PtyModel { status: PtyStatus::Exited, ..c.pty },
                    ..c
                }),
                _ => d == c,
            }
        }),
{
    assert(seq![m].drop_last() =~= Seq::<DaemonMessageModel>::empty());
    reveal_with_fuel(ChannelModel::after_messages, 2);
}

/// The bells in messages are those in their output, message by message.
pub proof fn law_bells_of_messages(msgs: Seq<DaemonMessageModel>, m: DaemonMessageModel)
    ensures
        bells_in_messages(Seq::empty()) == 0,
        bells_in_messages(msgs.push(m)) == bells_in_messages(msgs) + match m {
            DaemonMessageModel::Output { pty_id, data } => data.to_multiset().count(0x07),
            _ => 0,
        },
{
    assert(msgs.push(m).drop_last() =~= msgs);
    if let DaemonMessageModel::Output { pty_id, data } = m {
        law_bells_are_counted(data);
    }
}

/// A connection is made and lost without a trace on the screen; when it is made, what was written
/// before is awaited.
pub proof fn law_connections_are_made_and_lost(c: ChannelModel)
    ensures
        c.without_connection() == (ChannelModel { connected: false, ..c }),
        c.connected ==> c.with_connection() == c,
        !c.connected ==> c.with_connection() == (ChannelModel {
            connected: true,
            history_complete: false,
            ..c
        }),
{
}

/// A change of size gives the terminal and its screen that size, and nothing else of it changes.
pub proof fn law_channels_are_resized(c: ChannelModel, rows: u16, cols: u16, now: u64)
    ensures
        ({
            let d = c.resized(rows, cols, now);
            &&& d.rows == rows && d.cols == cols
            &&& d.pty == c.pty.resized(rows, cols, now)
            &&& d == (ChannelModel { rows, cols, pty: d.pty, ..c })
        }),
{
}

/// A terminal is listed by its own name, with what is new there and whether its command runs.
pub proof fn law_how_terminals_are_listed(c: ChaperoneChannel)
    ensures
        c.spec_name() == c.name@,
        c.spec_activity() == c.pty.activity,
        c.spec_pty_status() == c.pty.status,
{
}

} // verus!
