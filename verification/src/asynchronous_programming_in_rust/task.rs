//! The two values that a computation and its scheduler exchange.

use vstd::prelude::*;

verus! {

/// Result of one attempt to advance a computation.
#[derive(Clone, Copy, Debug, PartialEq, Eq, Structural)]
pub enum Poll {
    /// The computation has finished and must not be polled again.
    Ready,
    /// The computation is suspended until its wake capability is invoked.
    Pending,
}

/// A wake capability: it names the task that an invocation re-submits.
#[derive(Clone, Copy, Debug, PartialEq, Eq, Structural)]
pub struct Waker {
    pub task: usize,
}

impl Waker {
    /// Whether invoking `other` would re-submit the same task as invoking `self`.
    pub fn will_wake(&self, other: &Waker) -> (same: bool)
        ensures
            same == (self.task == other.task),
    {
        self.task == other.task
    }
}

} // verus!
