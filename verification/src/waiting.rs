//! Waiting for a process or a server, with an end to it.

use vstd::prelude::*;

verus! {

/// How often it is looked whether something has happened before it is given up.
pub const POLLS: u8 = 50;

/// How long it is waited between two looks, in milliseconds.
pub const POLL_INTERVAL: u64 = 100;

/// How long the user's chaperone has to end once it was asked to, in milliseconds.
pub const CHAPERONE_GRACE: u64 = 500;

/// What to do about a process that was asked to end.
#[derive(Debug, Clone, Copy, PartialEq, Eq, Structural)]
pub enum StopStep {
    /// Nothing: it has ended.
    Done,
    /// Wait, and look again.
    Wait,
    /// Kill it.
    Kill,
}

/// What to do about a process that was asked to end, after so many looks. It is killed only if
/// it has not ended at the last of them.
pub fn stop_step(polls: u8, ended: bool) -> (r: StopStep)
    ensures
        r == (if ended {
            StopStep::Done
        } else if polls < 50 {
            StopStep::Wait
        } else {
            StopStep::Kill
        }),
{
    if ended {
        StopStep::Done
    } else if polls < POLLS {
        StopStep::Wait
    } else {
        StopStep::Kill
    }
}

/// What to do about the user's chaperone once it was asked to end: it is looked at once.
pub fn chaperone_stop_step(polls: u8, ended: bool) -> (r: StopStep)
    ensures
        r == (if ended {
            StopStep::Done
        } else if polls == 0 {
            StopStep::Wait
        } else {
            StopStep::Kill
        }),
{
    if ended {
        StopStep::Done
    } else if polls == 0 {
        StopStep::Wait
    } else {
        StopStep::Kill
    }
}

/// What to do while something is awaited: the socket of a process, or the answer of a server.
#[derive(Debug, Clone, Copy, PartialEq, Eq, Structural)]
pub enum WaitStep {
    /// Go on: it is there.
    Ready,
    /// Wait, and look again.
    Wait,
    /// Give it up.
    GiveUp,
}

/// What to do while something is awaited that may be waited for so many times.
pub open spec fn wait_step_is(limit: u8, waits: u8, there: bool) -> WaitStep {
    if there {
        WaitStep::Ready
    } else if waits < limit {
        WaitStep::Wait
    } else {
        WaitStep::GiveUp
    }
}

/// What to do while the socket of a process is awaited, after it was waited so many times: there
/// is a last look after the last wait.
pub fn socket_wait_step(waits: u8, there: bool) -> (r: WaitStep)
    ensures
        r == wait_step_is(50, waits, there),
{
    if there {
        WaitStep::Ready
    } else if waits < POLLS {
        WaitStep::Wait
    } else {
        WaitStep::GiveUp
    }
}

/// What to do while the answer of the server is awaited, after it was waited so many times: it
/// is looked for so often, and not waited after the last look.
pub fn server_wait_step(waits: u8, there: bool) -> (r: WaitStep)
    ensures
        r == wait_step_is(49, waits, there),
{
    if there {
        WaitStep::Ready
    } else if waits < POLLS - 1 {
        WaitStep::Wait
    } else {
        WaitStep::GiveUp
    }
}

/// Waits for what may or may not be there at each look; gives how often it was waited, and
/// whether it was there at the end.
pub open spec fn awaited(limit: u8, looks: spec_fn(u8) -> bool, waits: u8) -> (u8, bool)
    decreases limit - waits,
{
    match wait_step_is(limit, waits, looks(waits)) {
        WaitStep::Ready => (waits, true),
        WaitStep::Wait => awaited(limit, looks, (waits + 1) as u8),
        WaitStep::GiveUp => (waits, false),
    }
}

/// Whatever is seen, waiting ends within its limit, which is five seconds at most, and it is
/// given up only if what is awaited was there at none of the looks.
pub proof fn law_waiting_ends(limit: u8, looks: spec_fn(u8) -> bool, waits: u8)
    requires
        waits <= limit <= POLLS,
    ensures
        ({
            let (n, there) = awaited(limit, looks, waits);
            &&& waits <= n <= limit
            &&& n * POLL_INTERVAL <= 5000
            &&& there == looks(n)
            &&& !there ==> n == limit
            &&& forall|k: u8| waits <= k < n ==> !#[trigger] looks(k)
        }),
    decreases limit - waits,
{
    if wait_step_is(limit, waits, looks(waits)) == WaitStep::Wait {
        law_waiting_ends(limit, looks, (waits + 1) as u8);
    }
}

// ---------------------------------------------------------------------------
// Whether a server answers
// ---------------------------------------------------------------------------

/// Whether a byte is a decimal digit.
pub open spec fn is_digit(b: u8) -> bool {
    0x30 <= b <= 0x39
}

/// Whether bytes begin as an answer over HTTP does: with `HTTP/1.`, a digit, a space and a
/// status of three digits.
pub open spec fn http_answer(bytes: Seq<u8>) -> bool {
    &&& bytes.len() >= 12
    &&& bytes.take(7) == seq![0x48u8, 0x54, 0x54, 0x50, 0x2f, 0x31, 0x2e]
    &&& is_digit(bytes[7])
    &&& bytes[8] == 0x20
    &&& is_digit(bytes[9])
    &&& is_digit(bytes[10])
    &&& is_digit(bytes[11])
}

fn digit(b: u8) -> (r: bool)
    ensures
        r == is_digit(b),
{
    0x30 <= b && b <= 0x39
}

/// Whether bytes begin as an answer over HTTP does.
pub fn is_http_answer(bytes: &[u8]) -> (r: bool)
    ensures
        r == http_answer(bytes@),
{
    if bytes.len() < 12 {
        return false;
    }
    let start: [u8; 7] = [0x48, 0x54, 0x54, 0x50, 0x2f, 0x31, 0x2e];
    let ghost wanted = seq![0x48u8, 0x54, 0x54, 0x50, 0x2f, 0x31, 0x2e];
    assert(start@ =~= wanted);
    let mut i: usize = 0;
    while i < 7
        invariant
            i <= 7,
            bytes@.len() >= 12,
            start@ == wanted,
            wanted.len() == 7,
            wanted == seq![0x48u8, 0x54, 0x54, 0x50, 0x2f, 0x31, 0x2e],
            forall|k: int| 0 <= k < i ==> bytes@[k] == wanted[k],
        decreases 7 - i,
    {
        if bytes[i] != start[i] {
            assert(bytes@.take(7)[i as int] != wanted[i as int]);
            return false;
        }
        i = i + 1;
    }
    assert(bytes@.take(7) =~= wanted);
    digit(bytes[7]) && bytes[8] == 0x20 && digit(bytes[9]) && digit(bytes[10]) && digit(bytes[11])
}

/// It is waited a tenth of a second between two looks, fifty of them at most, and half a second for
/// the user's chaperone.
pub proof fn law_how_long_is_waited(waits: u8, limit: u8)
    ensures
        POLLS == 50 && POLL_INTERVAL == 100 && CHAPERONE_GRACE == 500,
        wait_step_is(limit, waits, true) == WaitStep::Ready,
        waits < limit ==> wait_step_is(limit, waits, false) == WaitStep::Wait,
        waits >= limit ==> wait_step_is(limit, waits, false) == WaitStep::GiveUp,
{
}

/// What begins as an answer does: with the version, a space and a status of three digits.
pub proof fn law_what_answers_begin_with(minor: u8, a: u8, b: u8, c: u8, rest: Seq<u8>)
    ensures
        http_answer(seq![0x48u8, 0x54, 0x54, 0x50, 0x2f, 0x31, 0x2e, minor, 0x20, a, b, c] + rest) <==> (
        0x30 <= minor <= 0x39 && 0x30 <= a <= 0x39 && 0x30 <= b <= 0x39 && 0x30 <= c <= 0x39),
{
    let s = seq![0x48u8, 0x54, 0x54, 0x50, 0x2f, 0x31, 0x2e, minor, 0x20, a, b, c] + rest;
    assert(s.take(7) =~= seq![0x48u8, 0x54, 0x54, 0x50, 0x2f, 0x31, 0x2e]);
}

} // verus!
