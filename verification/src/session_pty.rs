//! A terminal that the session daemon keeps, as its client sees it.

use vstd::prelude::*;
use vstd::string::*;

use crate::emulator::{law_resize_breaks_nothing, outlives, resized_log, resized_view, size_ok};
use crate::protocol::{ClientMessage, ClientMessageModel};
use crate::pty::{ActivityState, Pty, PtyModel, PtyStatus, SCROLLBACK_LINES};
use crate::wire::Wire;

verus! {

/// A terminal of the session.
pub struct SessionPty {
    /// Its number in the session.
    pub id: usize,
    /// Its screen.
    pub pty: Pty,
    /// Whether the output from before the connection has all come.
    pub history_complete: bool,
}

impl SessionPty {
    /// What every such terminal keeps.
    pub open spec fn wf(self) -> bool {
        self.pty@.wf()
    }

    /// A terminal of which nothing has come yet.
    pub fn new(id: usize, rows: u16, cols: u16) -> (p: SessionPty)
        requires
            size_ok(rows, cols),
        ensures
            p.id == id,
            p.pty@ == PtyModel::opened(rows, cols),
            !p.history_complete,
            p.wf(),
    {
        SessionPty { id, pty: Pty::new(rows, cols), history_complete: false }
    }

    /// Takes in output; says whether there was any.
    pub fn process_daemon_output(&mut self, data: &[u8], is_focused: bool) -> (any: bool)
        requires
            old(self).wf(),
        ensures
            final(self).wf(),
            any == (data@.len() > 0),
            final(self).pty@ == if data@.len() > 0 {
                old(self).pty@.replayed(data@)
            } else {
                old(self).pty@
            },
            final(self).id == old(self).id,
            final(self).history_complete == old(self).history_complete,
    {
        if data.len() == 0 {
            return false;
        }
        self.pty.replay(data);
        true
    }

    /// Takes in output from before the connection.
    pub fn process_history(&mut self, data: &[u8])
        requires
            old(self).wf(),
        ensures
            final(self).wf(),
            final(self).pty@ == old(self).pty@.replayed(data@),
            final(self).id == old(self).id,
            final(self).history_complete == old(self).history_complete,
    {
        self.pty.replay(data);
    }

    /// Notes that the output from before the connection has all come.
    pub fn mark_history_complete(&mut self)
        ensures
            final(self).history_complete,
            final(self).id == old(self).id,
            final(self).pty == old(self).pty,
    {
        self.history_complete = true;
    }

    /// Whether the output from before the connection has all come.
    pub fn is_history_complete(&self) -> (r: bool)
        ensures
            r == self.history_complete,
    {
        self.history_complete
    }

    /// Changes the size, and returns what to tell the daemon.
    pub fn resize(&mut self, rows: u16, cols: u16) -> (msg: ClientMessage)
        requires
            old(self).wf(),
            size_ok(rows, cols),
        ensures
            final(self).wf(),
            final(self).pty@ == (PtyModel {
                log: resized_log(old(self).pty@.log, rows, cols),
                view: resized_view(old(self).pty@.log, old(self).pty@.view, rows, cols),
                scroll: if outlives(old(self).pty@.log, cols) {
                    old(self).pty@.scroll
                } else {
                    0
                },
                ..old(self).pty@
            }),
            final(self).id == old(self).id,
            final(self).history_complete == old(self).history_complete,
            msg.model() == (ClientMessageModel::Resize {
                pty_id: old(self).id as nat,
                rows: rows as nat,
                cols: cols as nat,
            }),
    {
        let kept = self.pty.terminal.resize(rows, cols, SCROLLBACK_LINES);
        if !kept {
            self.pty.scroll_offset = 0;
        }
        proof {
            law_resize_breaks_nothing(old(self).pty@.log, rows, cols);
        }
        ClientMessage::Resize { pty_id: self.id, rows, cols }
    }

    /// What to tell the daemon for input.
    pub fn write(&self, data: &[u8]) -> (msg: ClientMessage)
        ensures
            msg.model() == (ClientMessageModel::Input { pty_id: self.id as nat, data: data@ }),
    {
        let bytes = vstd::slice::slice_to_vec(data);
        ClientMessage::Input { pty_id: self.id, data: bytes }
    }

    /// Forgets what was new.
    pub fn clear_activity(&mut self)
        ensures
            final(self).pty@ == (PtyModel { activity: ActivityState::Idle, ..old(self).pty@ }),
            final(self).id == old(self).id,
            final(self).history_complete == old(self).history_complete,
    {
        self.pty.clear_activity();
    }

    /// Notes that the process has exited.
    pub fn mark_exited(&mut self)
        ensures
            final(self).pty@ == (PtyModel { status: PtyStatus::Exited, ..old(self).pty@ }),
            final(self).id == old(self).id,
            final(self).history_complete == old(self).history_complete,
    {
        self.pty.mark_exited();
    }

    /// The screen.
    pub fn screen(&self) -> (r: &Pty)
        ensures
            r@ == self.pty@,
    {
        &self.pty
    }

    /// Moves the view to where the user has scrolled to.
    pub fn apply_scroll_for_render(&mut self)
        ensures
            final(self).pty@ == (PtyModel {
                view: if old(self).pty@.scroll <= old(self).pty@.reach() {
                    old(self).pty@.scroll
                } else {
                    old(self).pty@.reach()
                },
                ..old(self).pty@
            }),
            final(self).id == old(self).id,
            final(self).history_complete == old(self).history_complete,
    {
        self.pty.apply_scroll_for_render();
    }

    /// Moves the view back to the screen.
    pub fn reset_scroll_view(&mut self)
        ensures
            final(self).pty@ == (PtyModel { view: 0, ..old(self).pty@ }),
            final(self).id == old(self).id,
            final(self).history_complete == old(self).history_complete,
    {
        self.pty.reset_scroll_view();
    }

    /// Whether the user has scrolled back.
    pub fn is_scrolled(&self) -> (r: bool)
        ensures
            r == (self.pty@.scroll > 0),
    {
        self.pty.is_scrolled()
    }

    /// How far the user can scroll back.
    pub fn scrollback_len(&mut self) -> (n: usize)
        requires
            old(self).wf(),
        ensures
            n == old(self).pty@.reach(),
            n <= SCROLLBACK_LINES,
            final(self).pty@ == old(self).pty@,
            final(self).id == old(self).id,
            final(self).history_complete == old(self).history_complete,
    {
        self.pty.scrollback_len()
    }

    /// Scrolls back; says whether this began the scrolling.
    pub fn scroll_up(&mut self, lines: usize) -> (began: bool)
        requires
            old(self).wf(),
            old(self).pty@.scroll + lines <= usize::MAX,
        ensures
            final(self).wf(),
            final(self).pty@ == old(self).pty@.scrolled_up(lines as nat),
            final(self).id == old(self).id,
            final(self).history_complete == old(self).history_complete,
            began == (old(self).pty@.scroll == 0 && final(self).pty@.scroll > 0),
    {
        self.pty.scroll_up(lines)
    }

    /// Scrolls forth; says whether this ended the scrolling.
    pub fn scroll_down(&mut self, lines: usize) -> (ended: bool)
        ensures
            old(self).wf() ==> final(self).wf(),
            final(self).pty@ == old(self).pty@.scrolled_down(lines as nat),
            final(self).id == old(self).id,
            final(self).history_complete == old(self).history_complete,
            ended == (old(self).pty@.scroll > 0 && final(self).pty@.scroll == 0),
    {
        self.pty.scroll_down(lines)
    }

    /// Scrolls to the end.
    pub fn scroll_to_bottom(&mut self)
        ensures
            final(self).pty@ == (PtyModel { scroll: 0, ..old(self).pty@ }),
            final(self).id == old(self).id,
            final(self).history_complete == old(self).history_complete,
    {
        self.pty.scroll_to_bottom();
    }
}

} // verus!
