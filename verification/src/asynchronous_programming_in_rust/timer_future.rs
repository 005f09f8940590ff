//! A timer that becomes ready once its deadline has passed.
//!
//! The timer is the state that a consumer and a background worker share. The
//! consumer calls [`TimerFuture::poll`]; the worker sleeps for
//! [`TimerFuture::remaining`] and then calls [`TimerFuture::fire`], which
//! hands it the wake capability to invoke. Both steps are taken under one
//! exclusive borrow of the timer, so neither can slip in between the other's
//! test of the completion flag and its update of the stored capability.
//! Time is a count of clock ticks that the caller reads from its clock.

use super::executor::Computation;
use super::task::{Poll, Waker};
use vstd::prelude::*;

verus! {

/// Mathematical state of a timer.
pub struct TimerState {
    /// The tick from which on the timer may complete.
    pub deadline: u64,
    /// The worker has seen the deadline pass.
    pub completed: bool,
    /// The capability that the worker is to invoke at completion.
    pub waker: Option<Waker>,
}

impl TimerState {
    /// A pending timer without a stored capability, due `duration` ticks
    /// after `now`.
    pub open spec fn init(now: u64, duration: u64) -> Self {
        TimerState { deadline: (now + duration) as u64, completed: false, waker: None }
    }

    /// What a poll returns.
    pub open spec fn poll_outcome(self) -> Poll {
        if self.completed {
            Poll::Ready
        } else {
            Poll::Pending
        }
    }

    /// State after a poll with `waker`: a pending timer keeps the capability
    /// of its latest poll, a completed one is left alone.
    pub open spec fn polled(self, waker: Waker) -> Self {
        if self.completed {
            self
        } else {
            TimerState { waker: Some(waker), ..self }
        }
    }

    /// Whether the worker, looking at the clock at `now`, completes the
    /// timer.
    pub open spec fn due(self, now: u64) -> bool {
        now >= self.deadline
    }

    /// The capability that the worker has to invoke after its step at `now`.
    pub open spec fn fire_outcome(self, now: u64) -> Option<Waker> {
        if self.due(now) {
            self.waker
        } else {
            None
        }
    }

    /// State after the worker's step at `now`.
    pub open spec fn fired(self, now: u64) -> Self {
        if self.due(now) {
            TimerState { completed: true, waker: None, ..self }
        } else {
            self
        }
    }
}

/// A computation that is ready once a duration has elapsed since it was made.
pub struct TimerFuture {
    deadline: u64,
    shared_state: SharedState,
}

struct SharedState {
    completed: bool,
    waker: Option<Waker>,
}

impl View for TimerFuture {
    type V = TimerState;

    closed spec fn view(&self) -> TimerState {
        TimerState {
            deadline: self.deadline,
            completed: self.shared_state.completed,
            waker: self.shared_state.waker,
        }
    }
}

impl TimerFuture {
    /// Creates a pending timer whose deadline lies `duration` ticks after
    /// `now`.
    pub fn new(now: u64, duration: u64) -> (timer: Self)
        requires
            now + duration <= u64::MAX,
        ensures
            timer@ == TimerState::init(now, duration),
            timer@.deadline == now + duration,
    {
        TimerFuture {
            deadline: now + duration,
            shared_state: SharedState { completed: false, waker: None },
        }
    }

    /// The tick from which on the timer may complete.
    pub fn deadline(&self) -> (tick: u64)
        ensures
            tick == self@.deadline,
    {
        self.deadline
    }

    /// Whether the worker has completed the timer.
    pub fn is_completed(&self) -> (completed: bool)
        ensures
            completed == self@.completed,
    {
        self.shared_state.completed
    }

    /// How many ticks after `now` the deadline lies; 0 once it has passed.
    /// This is how long the worker has to sleep before it fires.
    pub fn remaining(&self, now: u64) -> (ticks: u64)
        ensures
            self@.due(now) ==> ticks == 0,
            !self@.due(now) ==> ticks == self@.deadline - now,
    {
        if now >= self.deadline {
            0
        } else {
            self.deadline - now
        }
    }

    /// One attempt to complete. A completed timer is `Ready` and is left as
    /// it is. A pending timer is `Pending` and stores `waker` in place of any
    /// capability stored before.
    pub fn poll(&mut self, waker: &Waker) -> (outcome: Poll)
        ensures
            outcome == old(self)@.poll_outcome(),
            final(self)@ == old(self)@.polled(*waker),
    {
        if self.shared_state.completed {
            Poll::Ready
        } else {
            self.shared_state.waker = Some(*waker);
            Poll::Pending
        }
    }

    /// The worker's step when it wakes up at `now`. Before the deadline
    /// nothing happens. From the deadline on the timer is completed, and the
    /// stored capability, if there is one, is taken out and returned for the
    /// worker to invoke.
    pub fn fire(&mut self, now: u64) -> (to_wake: Option<Waker>)
        ensures
            to_wake == old(self)@.fire_outcome(now),
            final(self)@ == old(self)@.fired(now),
    {
        if now >= self.deadline {
            self.shared_state.completed = true;
            self.shared_state.waker.take()
        } else {
            None
        }
    }
}

impl Computation for TimerFuture {
    /// The poll of the timer, for a scheduler to call.
    fn poll(&mut self, waker: &Waker) -> (outcome: Poll)
        ensures
            outcome == old(self)@.poll_outcome(),
            final(self)@ == old(self)@.polled(*waker),
    {
        TimerFuture::poll(self, waker)
    }
}

/// No lost wakeup: let the worker's step at or after the deadline and a poll
/// with `waker` happen in either order. If the worker comes first, the poll
/// is `Ready` at once, whether or not a capability was ever stored. If the
/// poll of the still pending timer comes first, the worker is handed exactly
/// that capability to invoke, and the next poll is `Ready`.
pub proof fn lemma_no_lost_wakeup(s: TimerState, now: u64, waker: Waker)
    requires
        s.due(now),
    ensures
        s.fired(now).poll_outcome() == Poll::Ready,
        s.fired(now).polled(waker) == s.fired(now),
        !s.completed ==> s.poll_outcome() == Poll::Pending,
        !s.completed ==> s.polled(waker).fire_outcome(now) == Some(waker),
        s.polled(waker).fired(now).poll_outcome() == Poll::Ready,
{
}

/// A timer never completes early, and a completed timer stays completed:
/// the worker's step completes the timer exactly when the deadline has
/// passed, and neither step ever clears the completion flag or moves the
/// deadline.
pub proof fn lemma_completion_is_final(s: TimerState, now: u64, waker: Waker)
    ensures
        s.fired(now).completed == (s.completed || s.due(now)),
        s.polled(waker).completed == s.completed,
        s.fired(now).deadline == s.deadline,
        s.polled(waker).deadline == s.deadline,
{
}

} // verus!
