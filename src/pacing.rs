//! Frame pacing: what to do once a frame's work has taken its time.
use vstd::prelude::*;

verus! {

/// The pacer's decision at the end of a frame, in nanoseconds.
#[derive(Clone, Copy, Debug, PartialEq, Eq, Structural)]
pub enum Pace {
    /// The frame finished early: block for the rest of its budget.
    Sleep(u64),
    /// The frame overran its budget by this much: report it, do not sleep.
    Late(u64),
}

/// Decides how a frame that took `elapsed` of a `target` budget ends.
pub fn frame_pacing(elapsed: u64, target: u64) -> (p: Pace)
    ensures
        elapsed >= target ==> p == Pace::Late((elapsed - target) as u64),
        elapsed < target ==> p == Pace::Sleep((target - elapsed) as u64),
{
    if elapsed >= target {
        Pace::Late(elapsed - target)
    } else {
        Pace::Sleep(target - elapsed)
    }
}

} // verus!
