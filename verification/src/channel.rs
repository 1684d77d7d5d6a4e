//! A channel: a named place to work, with one terminal.

use vstd::prelude::*;
use vstd::string::*;

use crate::pty::{ActivityState, Pty, PtyModel};

verus! {

/// The number of a channel.
pub type ChannelId = usize;

/// A named place to work.
pub struct Channel {
    /// Its number.
    pub id: ChannelId,
    /// The name it is shown under.
    pub name: String,
    /// Its terminal.
    pub pty: Pty,
}

impl Channel {
    /// A channel with a terminal.
    pub fn new(id: ChannelId, name: String, pty: Pty) -> (c: Channel)
        ensures
            c.id == id,
            c.name@ == name@,
            c.pty@ == pty@,
    {
        Channel { id, name, pty }
    }

    /// Whether the channel has something new to show.
    pub fn activity(&self) -> (r: &ActivityState)
        ensures
            *r == self.pty@.activity,
    {
        &self.pty.activity
    }

    /// Forgets what was new, as when the channel comes into view.
    pub fn clear_activity(&mut self)
        ensures
            final(self).pty@ == (PtyModel { activity: ActivityState::Idle, ..old(self).pty@ }),
            final(self).id == old(self).id,
            final(self).name == old(self).name,
    {
        self.pty.clear_activity();
    }

    /// Takes in output of the terminal.
    pub fn process_output(&mut self, data: &[u8], is_focused: bool, now: u64)
        requires
            old(self).pty@.wf(),
            old(self).pty@.can_count(data@, is_focused, now),
        ensures
            final(self).pty@ == old(self).pty@.after_output(data@, is_focused, now),
            final(self).pty@.wf(),
            final(self).id == old(self).id,
            final(self).name == old(self).name,
    {
        self.pty.process_output(data, is_focused, now);
    }
}

/// A channel that comes into view has nothing new, whatever came before.
pub proof fn law_focus_clears_activity(p: PtyModel, data: Seq<u8>, now: u64)
    ensures
        ({
            let seen = PtyModel { activity: ActivityState::Idle, ..p };
            seen.after_output(data, true, now).activity == ActivityState::Idle
        }),
{
}

} // verus!
