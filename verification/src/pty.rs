//! A terminal with what the rest of the program wants to know of it: whether it has
//! shown something new, how far it is scrolled, and whether its process lives.

use vstd::prelude::*;
use vstd::string::*;

use crate::emulator::{
    fed, hash_screen, law_resize_breaks_nothing, lemma_feed_keeps, line_limit, lines_above,
    outlives, resized_log, resized_view, screen_text, size_ok, term_size, text_hash, unbroken,
    view_moved, view_offset, TermStep, Terminal,
};

verus! {

/// How long a screen must be at rest before new output counts, in milliseconds.
pub const ACTIVITY_SETTLE_TIME: u64 = 500;

/// How long output does not count after a change of size, in milliseconds.
pub const RESIZE_COOLDOWN: u64 = 2000;

/// How many lines a terminal keeps above its screen.
pub const SCROLLBACK_LINES: usize = 10000;

/// Whether a screen has something new to show.
#[derive(Debug, Clone, Copy, PartialEq, Eq, Structural)]
pub enum ActivityState {
    /// Nothing new.
    Idle,
    /// Output has come, but it may leave the screen as it was.
    Pending {
        /// When it began, in milliseconds.
        since: u64,
        /// The fingerprint of the screen before it.
        snapshot: u64,
        /// The bells in it.
        bells: u32,
    },
    /// Something new, with the number of bells that came with it.
    Active(u32),
}

impl Default for ActivityState {
    fn default() -> (state: Self)
        ensures
            state == ActivityState::Idle,
    {
        ActivityState::Idle
    }
}

impl ActivityState {
    /// Whether there is something new for sure.
    pub open spec fn spec_is_active(self) -> bool {
        self is Active
    }

    /// Whether there is something new for sure.
    #[verifier::when_used_as_spec(spec_is_active)]
    pub fn is_active(self) -> (r: bool)
        ensures
            r == self.spec_is_active(),
    {
        matches!(self, ActivityState::Active(_))
    }

    /// The bells that have been counted.
    pub open spec fn bells(self) -> nat {
        match self {
            ActivityState::Idle => 0,
            ActivityState::Pending { bells, .. } => bells as nat,
            ActivityState::Active(n) => n as nat,
        }
    }

    /// The bells that have been counted.
    pub fn bell_count(self) -> (n: u32)
        ensures
            n == self.bells(),
    {
        match self {
            ActivityState::Idle => 0,
            ActivityState::Pending { bells, .. } => bells,
            ActivityState::Active(n) => n,
        }
    }
}

/// Whether the process behind a terminal is alive.
#[derive(Debug, Clone, Copy, PartialEq, Eq, Structural)]
pub enum PtyStatus {
    /// The process is running.
    Running,
    /// The process has exited.
    Exited,
}

impl Default for PtyStatus {
    fn default() -> (status: Self)
        ensures
            status == PtyStatus::Running,
    {
        PtyStatus::Running
    }
}

/// How many bells a stretch of output rings.
pub open spec fn bells_in(data: Seq<u8>) -> nat
    decreases data.len(),
{
    if data.len() == 0 {
        0
    } else {
        bells_in(data.drop_last()) + if data.last() == 0x07 {
            1nat
        } else {
            0
        }
    }
}

/// There are no more bells than bytes.
pub proof fn lemma_bells_bound(data: Seq<u8>)
    ensures
        bells_in(data) <= data.len(),
    decreases data.len(),
{
    if data.len() > 0 {
        lemma_bells_bound(data.drop_last());
    }
}

/// Counts the bells in a stretch of output.
pub fn count_bells(data: &[u8]) -> (n: usize)
    ensures
        n == bells_in(data@),
{
    let len = data.len();
    let mut n: usize = 0;
    let mut i: usize = 0;
    while i < len
        invariant
            i <= len == data@.len(),
            n == bells_in(data@.take(i as int)),
            n <= i,
        decreases data@.len() - i,
    {
        assert(data@.take(i + 1).drop_last() == data@.take(i as int));
        if data[i] == 0x07 {
            n = n + 1;
        }
        i = i + 1;
    }
    assert(data@.take(data@.len() as int) == data@);
    n
}

/// A terminal, as a value.
#[verifier::ext_equal]
pub struct PtyModel {
    /// What its emulator was fed.
    pub log: Seq<TermStep>,
    /// How far the emulator's view is scrolled back now.
    pub view: nat,
    /// Whether it has something new to show.
    pub activity: ActivityState,
    /// How far the user has scrolled back.
    pub scroll: nat,
    /// Whether its process lives.
    pub status: PtyStatus,
    /// Until when output does not count.
    pub quiet_until: Option<u64>,
}

impl PtyModel {
    /// What every terminal keeps.
    pub open spec fn wf(self) -> bool {
        &&& self.log.len() > 0
        &&& self.log[0] is Open
        &&& line_limit(self.log) == SCROLLBACK_LINES
        &&& size_ok(term_size(self.log).0, term_size(self.log).1)
        &&& unbroken(self.log)
        &&& self.scroll <= SCROLLBACK_LINES
    }

    /// A terminal that was just opened.
    pub open spec fn opened(rows: u16, cols: u16) -> PtyModel {
        PtyModel {
            log: seq![TermStep::Open { rows, cols, lines: SCROLLBACK_LINES as nat }],
            view: 0,
            activity: ActivityState::Idle,
            scroll: 0,
            status: PtyStatus::Running,
            quiet_until: None,
        }
    }

    /// Whether output does not count at this time.
    pub open spec fn quiet(self, now: u64) -> bool {
        self.quiet_until matches Some(until) && now < until
    }

    /// The fingerprint of what is on the screen.
    pub open spec fn screen_hash(self) -> u64 {
        text_hash(screen_text(self.log, self.view))
    }

    /// How far the user can scroll back.
    pub open spec fn reach(self) -> nat {
        lines_above(self.log)
    }

    /// The activity after output: nothing changes where someone looks or shortly after a
    /// change of size; else the bells are counted, and output on an idle screen is held
    /// against the screen as it was before.
    pub open spec fn activity_after(self, data: Seq<u8>, is_focused: bool, now: u64) -> ActivityState {
        if is_focused || self.quiet(now) {
            self.activity
        } else {
            let more = bells_in(data);
            match self.activity {
                ActivityState::Idle => ActivityState::Pending {
                    since: now,
                    snapshot: self.screen_hash(),
                    bells: more as u32,
                },
                ActivityState::Pending { since, snapshot, bells } => ActivityState::Pending {
                    since,
                    snapshot,
                    bells: (bells + more) as u32,
                },
                ActivityState::Active(n) => ActivityState::Active((n + more) as u32),
            }
        }
    }

    /// The terminal after it was fed.
    pub open spec fn replayed(self, data: Seq<u8>) -> PtyModel {
        PtyModel {
            log: self.log.push(TermStep::Feed(data)),
            view: view_moved(self.log, self.view, data),
            ..self
        }
    }

    /// The terminal after output.
    pub open spec fn after_output(self, data: Seq<u8>, is_focused: bool, now: u64) -> PtyModel {
        if data.len() == 0 {
            self
        } else {
            PtyModel { activity: self.activity_after(data, is_focused, now), ..self.replayed(data) }
        }
    }

    /// Whether the bells in so much more output can be counted.
    pub open spec fn can_count(self, data: Seq<u8>, is_focused: bool, now: u64) -> bool {
        is_focused || self.quiet(now) || self.activity.bells() + bells_in(data) <= u32::MAX
    }

    /// The activity once a pending one is looked at again: it is settled after a while,
    /// and is something new if the screen is not as it was.
    pub open spec fn activity_settled(self, now: u64) -> ActivityState {
        match self.activity {
            ActivityState::Pending { since, snapshot, bells } => {
                if now - since >= ACTIVITY_SETTLE_TIME {
                    if self.screen_hash() != snapshot {
                        ActivityState::Active(bells)
                    } else {
                        ActivityState::Idle
                    }
                } else {
                    self.activity
                }
            },
            _ => self.activity,
        }
    }

    /// The terminal after a change of size. One that had to be opened anew has no lines to
    /// be scrolled back to.
    pub open spec fn resized(self, rows: u16, cols: u16, now: u64) -> PtyModel {
        PtyModel {
            log: resized_log(self.log, rows, cols),
            view: resized_view(self.log, self.view, rows, cols),
            scroll: if outlives(self.log, cols) {
                self.scroll
            } else {
                0
            },
            activity: if self.activity is Pending {
                ActivityState::Idle
            } else {
                self.activity
            },
            quiet_until: Some((now + RESIZE_COOLDOWN) as u64),
            ..self
        }
    }

    /// The terminal after the user scrolled back so many lines.
    pub open spec fn scrolled_up(self, lines: nat) -> PtyModel {
        PtyModel {
            scroll: if self.scroll + lines <= self.reach() {
                self.scroll + lines
            } else {
                self.reach()
            },
            ..self
        }
    }

    /// The terminal after the user scrolled forth so many lines.
    pub open spec fn scrolled_down(self, lines: nat) -> PtyModel {
        PtyModel {
            scroll: if lines <= self.scroll {
                (self.scroll - lines) as nat
            } else {
                0
            },
            ..self
        }
    }
}

/// A terminal with its activity, its scroll position and the state of its process.
pub struct Pty {
    /// The emulator.
    pub terminal: Terminal,
    /// Whether it has something new to show.
    pub activity: ActivityState,
    /// How far the user has scrolled back.
    pub scroll_offset: usize,
    /// Whether its process lives.
    pub status: PtyStatus,
    /// Until when output does not count, in milliseconds.
    pub quiet_until: Option<u64>,
}

impl View for Pty {
    type V = PtyModel;

    open spec fn view(&self) -> PtyModel {
        PtyModel {
            log: fed(self.terminal),
            view: view_offset(self.terminal),
            activity: self.activity,
            scroll: self.scroll_offset as nat,
            status: self.status,
            quiet_until: self.quiet_until,
        }
    }
}

impl Pty {
    /// Opens a terminal.
    pub fn new(rows: u16, cols: u16) -> (p: Pty)
        requires
            size_ok(rows, cols),
        ensures
            p@ == PtyModel::opened(rows, cols),
            p@.wf(),
    {
        Pty {
            terminal: Terminal::open(rows, cols, SCROLLBACK_LINES),
            activity: ActivityState::Idle,
            scroll_offset: 0,
            status: PtyStatus::Running,
            quiet_until: None,
        }
    }

    /// Feeds output that does not count as activity.
    pub fn replay(&mut self, data: &[u8])
        requires
            old(self)@.wf(),
        ensures
            final(self)@.wf(),
            final(self)@ == old(self)@.replayed(data@),
            old(self)@.view == 0 ==> final(self)@.view == 0,
            term_size(final(self)@.log) == term_size(old(self)@.log),
    {
        self.terminal.process(data);
        proof {
            lemma_feed_keeps(old(self)@.log, data@);
        }
    }

    /// Feeds output.
    pub fn process_output(&mut self, data: &[u8], is_focused: bool, now: u64)
        requires
            old(self)@.wf(),
            old(self)@.can_count(data@, is_focused, now),
        ensures
            final(self)@.wf(),
            final(self)@ == old(self)@.after_output(data@, is_focused, now),
            old(self)@.view == 0 ==> final(self)@.view == 0,
            term_size(final(self)@.log) == term_size(old(self)@.log),
    {
        if data.len() == 0 {
            return;
        }
        let quiet = match self.quiet_until {
            Some(until) => now < until,
            None => false,
        };
        if !is_focused && !quiet {
            let before = hash_screen(&self.terminal);
            let more: u32 = count_bells(data) as u32;
            self.terminal.process(data);
            self.activity = match self.activity {
                ActivityState::Idle => ActivityState::Pending { since: now, snapshot: before, bells: more },
                ActivityState::Pending { since, snapshot, bells } => ActivityState::Pending {
                    since,
                    snapshot,
                    bells: bells + more,
                },
                ActivityState::Active(n) => ActivityState::Active(n + more),
            };
        } else {
            self.terminal.process(data);
        }
        proof {
            lemma_feed_keeps(old(self)@.log, data@);
        }
    }

    /// Looks again at activity that was pending.
    pub fn check_pending_activity(&mut self, now: u64)
        ensures
            final(self)@ == (PtyModel {
                activity: old(self)@.activity_settled(now),
                ..old(self)@
            }),
    {
        if let ActivityState::Pending { since, snapshot, bells } = self.activity {
            if now >= since && now - since >= ACTIVITY_SETTLE_TIME {
                if hash_screen(&self.terminal) != snapshot {
                    self.activity = ActivityState::Active(bells);
                } else {
                    self.activity = ActivityState::Idle;
                }
            }
        }
    }

    /// Forgets what was new.
    pub fn clear_activity(&mut self)
        ensures
            final(self)@ == (PtyModel { activity: ActivityState::Idle, ..old(self)@ }),
    {
        self.activity = ActivityState::Idle;
    }

    /// Notes that the process has exited.
    pub fn mark_exited(&mut self)
        ensures
            final(self)@ == (PtyModel { status: PtyStatus::Exited, ..old(self)@ }),
    {
        self.status = PtyStatus::Exited;
    }

    /// Changes the size.
    pub fn resize(&mut self, rows: u16, cols: u16, now: u64)
        requires
            old(self)@.wf(),
            size_ok(rows, cols),
            now + RESIZE_COOLDOWN <= u64::MAX,
        ensures
            final(self)@ == old(self)@.resized(rows, cols, now),
            final(self)@.wf(),
            term_size(final(self)@.log) == (rows, cols),
    {
        let kept = self.terminal.resize(rows, cols, SCROLLBACK_LINES);
        if !kept {
            self.scroll_offset = 0;
        }
        if let ActivityState::Pending { .. } = self.activity {
            self.activity = ActivityState::Idle;
        }
        self.quiet_until = Some(now + RESIZE_COOLDOWN);
        proof {
            law_resize_breaks_nothing(old(self)@.log, rows, cols);
        }
    }

    /// The height and width.
    pub fn size(&self) -> (r: (u16, u16))
        ensures
            r == term_size(self@.log),
    {
        self.terminal.size()
    }

    /// Moves the emulator's view to where the user has scrolled to.
    pub fn apply_scroll_for_render(&mut self)
        ensures
            final(self)@ == (PtyModel {
                view: if old(self)@.scroll <= old(self)@.reach() {
                    old(self)@.scroll
                } else {
                    old(self)@.reach()
                },
                ..old(self)@
            }),
    {
        self.terminal.set_scrollback(self.scroll_offset);
    }

    /// Moves the emulator's view back to the screen.
    pub fn reset_scroll_view(&mut self)
        ensures
            final(self)@ == (PtyModel { view: 0, ..old(self)@ }),
    {
        self.terminal.set_scrollback(0);
    }

    /// Whether the user has scrolled back.
    pub fn is_scrolled(&self) -> (r: bool)
        ensures
            r == (self@.scroll > 0),
    {
        self.scroll_offset > 0
    }

    /// How far the user can scroll back.
    pub fn scrollback_len(&mut self) -> (n: usize)
        requires
            old(self)@.wf(),
        ensures
            n == old(self)@.reach(),
            n <= SCROLLBACK_LINES,
            final(self)@ == old(self)@,
    {
        let current = self.terminal.scrollback();
        self.terminal.set_scrollback(usize::MAX);
        let n = self.terminal.scrollback();
        self.terminal.set_scrollback(current);
        n
    }

    /// Scrolls back; says whether this began the scrolling.
    pub fn scroll_up(&mut self, lines: usize) -> (began: bool)
        requires
            old(self)@.wf(),
            old(self)@.scroll + lines <= usize::MAX,
        ensures
            final(self)@ == old(self)@.scrolled_up(lines as nat),
            final(self)@.wf(),
            began == (old(self)@.scroll == 0 && final(self)@.scroll > 0),
    {
        let was_at_bottom = self.scroll_offset == 0;
        let max = self.scrollback_len();
        let to = self.scroll_offset + lines;
        self.scroll_offset = if to <= max { to } else { max };
        was_at_bottom && self.scroll_offset > 0
    }

    /// Scrolls forth; says whether this ended the scrolling.
    pub fn scroll_down(&mut self, lines: usize) -> (ended: bool)
        ensures
            final(self)@ == old(self)@.scrolled_down(lines as nat),
            old(self)@.wf() ==> final(self)@.wf(),
            ended == (old(self)@.scroll > 0 && final(self)@.scroll == 0),
    {
        let was_scrolled = self.scroll_offset > 0;
        self.scroll_offset = self.scroll_offset.saturating_sub(lines);
        was_scrolled && self.scroll_offset == 0
    }

    /// Scrolls to the end.
    pub fn scroll_to_bottom(&mut self)
        ensures
            final(self)@ == (PtyModel { scroll: 0, ..old(self)@ }),
    {
        self.scroll_offset = 0;
    }
}

// ---------------------------------------------------------------------------
// Laws
// ---------------------------------------------------------------------------

/// Output on a screen that someone looks at is never something new.
pub proof fn law_no_activity_in_focus(p: PtyModel, data: Seq<u8>, now: u64)
    ensures
        p.activity_after(data, true, now) == p.activity,
{
}

/// For two seconds after a change of size no output is something new, and what was
/// pending is forgotten.
pub proof fn law_resize_is_no_activity(p: PtyModel, rows: u16, cols: u16, now: u64, data: Seq<u8>, later: u64)
    requires
        now + RESIZE_COOLDOWN <= u64::MAX,
        later < now + RESIZE_COOLDOWN,
    ensures
        ({
            let q = p.resized(rows, cols, now);
            &&& !(q.activity is Pending)
            &&& q.activity_after(data, false, later) == q.activity
        }),
{
}

/// Output becomes something new only if, when it is looked at after it has settled,
/// the screen is not as it was before.
pub proof fn law_only_changed_screens_are_active(p: PtyModel, data: Seq<u8>, now: u64, q: PtyModel, later: u64)
    requires
        p.activity == ActivityState::Idle,
        q.activity == p.activity_after(data, false, now),
        q.activity_settled(later).is_active(),
    ensures
        q.screen_hash() != p.screen_hash(),
        later >= now + ACTIVITY_SETTLE_TIME,
{
}

/// Every bell in output that counts is counted.
pub proof fn law_bells_add_up(p: PtyModel, data: Seq<u8>, now: u64)
    requires
        !p.quiet(now),
        p.can_count(data, false, now),
    ensures
        p.activity_after(data, false, now).bells() == p.activity.bells() + bells_in(data),
{
}

/// The user never scrolls further than there are lines, nor past the end.
pub proof fn law_scroll_stays_in_reach(p: PtyModel, lines: nat)
    ensures
        p.scrolled_up(lines).scroll <= p.reach(),
        p.scrolled_down(lines).scroll <= p.scroll,
{
}

/// Scrolling back and as far forth again ends where it began, unless the top was hit.
pub proof fn law_scroll_down_undoes_up(p: PtyModel, lines: nat)
    requires
        p.scroll + lines <= p.reach(),
    ensures
        p.scrolled_up(lines).scrolled_down(lines) == p,
{
}

/// Something new is told of: output that was pending is looked at again once the screen has been
/// at rest for half a second, and is something new exactly if the screen is not as it was, with or
/// without bells. Before that, and where nothing was pending, nothing changes.
pub proof fn law_settled_output_is_told_of(p: PtyModel, now: u64)
    ensures
        p.activity matches ActivityState::Pending { since, snapshot, bells } ==> {
            let seen = text_hash(screen_text(p.log, p.view));
            &&& now >= since + 500 && seen != snapshot ==> p.activity_settled(now)
                == ActivityState::Active(bells)
            &&& now >= since + 500 && seen == snapshot ==> p.activity_settled(now)
                == ActivityState::Idle
            &&& now < since + 500 ==> p.activity_settled(now) == p.activity
        },
        !(p.activity is Pending) ==> p.activity_settled(now) == p.activity,
{
}

/// Output on an idle screen that nobody looks at is told of once it has settled, whatever it is,
/// if it leaves another screen behind; and with it the bells that rang, be there any or not.
pub proof fn law_output_out_of_view_is_told_of(p: PtyModel, data: Seq<u8>, now: u64, later: u64)
    requires
        p.activity == ActivityState::Idle,
        data.len() > 0,
        p.quiet_until matches Some(until) ==> now >= until,
        data.to_multiset().count(0x07) <= u32::MAX,
        later >= now + 500,
    ensures
        ({
            let q = p.after_output(data, false, now);
            let before = text_hash(screen_text(p.log, p.view));
            let after = text_hash(
                screen_text(
                    p.log.push(TermStep::Feed(data)),
                    view_moved(p.log, p.view, data),
                ),
            );
            q.activity_settled(later) == if after != before {
                ActivityState::Active(data.to_multiset().count(0x07) as u32)
            } else {
                ActivityState::Idle
            }
        }),
{
    law_bells_are_counted(data);
}

/// The bells in output are its bytes with the value 7.
pub proof fn law_bells_are_counted(data: Seq<u8>)
    ensures
        bells_in(data) == data.to_multiset().count(0x07),
    decreases data.len(),
{
    broadcast use vstd::seq_lib::group_to_multiset_ensures;

    if data.len() > 0 {
        law_bells_are_counted(data.drop_last());
        assert(data =~= data.drop_last().push(data.last()));
    } else {
        assert(data.to_multiset().len() == 0);
    }
}

/// Whatever a command writes reaches the emulator, whether someone looks or not, and nothing but
/// the screen and what is new changes: not the size, the place the user has scrolled to, nor
/// whether the command runs. Without output nothing changes.
pub proof fn law_output_reaches_the_screen(p: PtyModel, data: Seq<u8>, is_focused: bool, now: u64)
    ensures
        ({
            let q = p.after_output(data, is_focused, now);
            &&& data.len() > 0 ==> q.log == p.log.push(TermStep::Feed(data)) && q.view == view_moved(
                p.log,
                p.view,
                data,
            )
            &&& data.len() == 0 ==> q == p
            &&& q.scroll == p.scroll && q.status == p.status && q.quiet_until == p.quiet_until
            &&& p.replayed(data).log == p.log.push(TermStep::Feed(data))
            &&& p.replayed(data).activity == p.activity
            &&& p.replayed(data).scroll == p.scroll && p.replayed(data).status == p.status
        }),
{
}

/// More output while some is pending, or while something is new already, only adds its bells: when
/// it began and how the screen was before stay as they were.
pub proof fn law_more_output_adds_bells(p: PtyModel, data: Seq<u8>, now: u64)
    requires
        p.quiet_until matches Some(until) ==> now >= until,
        p.activity.bells() + data.to_multiset().count(0x07) <= u32::MAX,
    ensures
        ({
            let more = data.to_multiset().count(0x07);
            match p.activity {
                ActivityState::Idle => p.activity_after(data, false, now) == (ActivityState::Pending {
                    since: now,
                    snapshot: text_hash(screen_text(p.log, p.view)),
                    bells: more as u32,
                }),
                ActivityState::Pending { since, snapshot, bells } => p.activity_after(data, false, now)
                    == (ActivityState::Pending { since, snapshot, bells: (bells + more) as u32 }),
                ActivityState::Active(n) => p.activity_after(data, false, now) == ActivityState::Active(
                    (n + more) as u32,
                ),
            }
        }),
{
    law_bells_are_counted(data);
}

/// A change of size is asked of the emulator and keeps what was new already, where the user has
/// scrolled to and whether the command runs; a terminal that becomes no narrower keeps all that it
/// was fed and the place of its view. For two seconds its output does not count.
pub proof fn law_a_change_of_size(p: PtyModel, rows: u16, cols: u16, now: u64)
    requires
        p.wf(),
        size_ok(rows, cols),
        now + 2000 <= u64::MAX,
    ensures
        ({
            let q = p.resized(rows, cols, now);
            &&& term_size(q.log) == (rows, cols)
            &&& q.status == p.status
            &&& q.quiet_until == Some((now + 2000) as u64)
            &&& p.activity is Active ==> q.activity == p.activity
            &&& !(p.activity is Active) ==> q.activity == ActivityState::Idle
            &&& cols >= term_size(p.log).1 ==> q.log == p.log.push(TermStep::Resize { rows, cols })
                && q.view == p.view && q.scroll == p.scroll
            &&& q.scroll == p.scroll || q.scroll == 0 && q.log.len() == 1
        }),
{
    law_resize_breaks_nothing(p.log, rows, cols);
}

/// The user scrolls back line by line until the top is reached, and forth until the end is; only
/// the place changes.
pub proof fn law_scrolling_moves_by_lines(p: PtyModel, lines: nat)
    requires
        p.scroll <= lines_above(p.log),
    ensures
        p.scroll + lines <= lines_above(p.log) ==> p.scrolled_up(lines) == (PtyModel {
            scroll: p.scroll + lines,
            ..p
        }),
        p.scroll + lines > lines_above(p.log) ==> p.scrolled_up(lines) == (PtyModel {
            scroll: lines_above(p.log),
            ..p
        }),
        lines <= p.scroll ==> p.scrolled_down(lines) == (PtyModel {
            scroll: (p.scroll - lines) as nat,
            ..p
        }),
        lines > p.scroll ==> p.scrolled_down(lines) == (PtyModel { scroll: 0, ..p }),
{
}

/// A terminal that was just opened has its size, keeps ten thousand lines above its screen, shows
/// their end, has nothing new, and its command runs.
pub proof fn law_opened_terminals(rows: u16, cols: u16)
    ensures
        PtyModel::opened(rows, cols) == (PtyModel {
            log: seq![TermStep::Open { rows, cols, lines: 10000 }],
            view: 0,
            activity: ActivityState::Idle,
            scroll: 0,
            status: PtyStatus::Running,
            quiet_until: None,
        }),
{
}

/// Output does not count while someone looks, nor before the time that a change of size has set; it
/// does from that time on.
pub proof fn law_when_output_counts(p: PtyModel, data: Seq<u8>, now: u64)
    ensures
        p.activity_after(data, true, now) == p.activity,
        p.quiet_until matches Some(until) && now < until ==> p.activity_after(data, false, now) == p.activity,
        p.activity == ActivityState::Idle && (p.quiet_until matches Some(until) ==> now >= until)
            ==> p.activity_after(data, false, now) is Pending,
        p.reach() == lines_above(p.log),
{
}

/// The bells that were counted, and whether there is something new for sure, follow from the activity.
pub proof fn law_what_activity_tells(n: u32, since: u64, snapshot: u64)
    ensures
        ActivityState::Active(n).bells() == n,
        (ActivityState::Pending { since, snapshot, bells: n }).bells() == n,
        ActivityState::Idle.bells() == 0,
        ActivityState::Active(n).is_active(),
        !(ActivityState::Pending { since, snapshot, bells: n }).is_active(),
        !ActivityState::Idle.is_active(),
{
}

} // verus!
