//! Wakeups of the scheduler, and the handshake that a watcher is armed.
//!
//! The flags are kept here; sleeping and waking threads is done elsewhere.

use vstd::prelude::*;

verus! {

/// The flags of wakeups.
#[derive(Debug, Clone, Copy, PartialEq, Eq, Structural)]
pub struct Signals {
    /// A wakeup is pending.
    pub pending: bool,
    /// The watcher is armed: its marks are installed and events flow.
    pub armed: bool,
}

impl Signals {
    /// No wakeup is pending and no watcher is armed.
    pub fn new() -> (r: Signals)
        ensures
            r == (Signals { pending: false, armed: false }),
    {
        Signals { pending: false, armed: false }
    }
}

/// Makes a wakeup pending; several pending wakeups are one.
pub fn notify_scheduler(s: &mut Signals)
    ensures
        *final(s) == (Signals { pending: true, ..*old(s) }),
{
    s.pending = true;
}

/// Consumes a pending wakeup, and says whether there was one: with one there is no waiting.
pub fn wait_for_activity(s: &mut Signals) -> (immediate: bool)
    ensures
        immediate == old(s).pending,
        *final(s) == (Signals { pending: false, ..*old(s) }),
{
    let immediate = s.pending;
    s.pending = false;
    immediate
}

/// Forgets that the watcher is armed: a new one is about to be started.
pub fn reset_watcher_armed(s: &mut Signals)
    ensures
        *final(s) == (Signals { armed: false, ..*old(s) }),
{
    s.armed = false;
}

/// Records that the watcher is armed.
pub fn mark_watcher_armed(s: &mut Signals)
    ensures
        *final(s) == (Signals { armed: true, ..*old(s) }),
{
    s.armed = true;
}

/// How waiting for the watcher stands.
#[derive(Debug, Clone, Copy, PartialEq, Eq, Structural)]
pub enum ArmedWait {
    /// The watcher is armed.
    Armed,
    /// The time is up.
    TimedOut,
    /// Wait on, for at most so many milliseconds.
    Wait(u64),
}

/// How waiting for the watcher stands at the time `now`.
pub fn wait_watcher_armed(s: &Signals, now: u64, deadline: u64) -> (r: ArmedWait)
    ensures
        r == (if s.armed {
            ArmedWait::Armed
        } else if now >= deadline {
            ArmedWait::TimedOut
        } else {
            ArmedWait::Wait((deadline - now) as u64)
        }),
{
    if s.armed {
        ArmedWait::Armed
    } else if now >= deadline {
        ArmedWait::TimedOut
    } else {
        ArmedWait::Wait(deadline - now)
    }
}

} // verus!
