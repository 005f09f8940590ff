//! A second, smaller runtime: an unbounded run queue, a delay that checks the
//! clock itself, and a computation written out as a state machine.
//!
//! The run queue is a channel without a bound. The runtime keeps both ends
//! of it to itself, so that the messages that wait in it are exactly those
//! that the runtime has sent and not yet received. Time is a count of
//! milliseconds that the caller reads from its clock.

use crate::asynchronous_programming_in_rust::task::{Poll, Waker};
use crossbeam::channel::{Receiver, Sender};
use vstd::prelude::*;

verus! {

/// `crossbeam::channel::Sender`, the sending end of a channel; nothing of
/// its inside is known here.
#[verifier::external_type_specification]
#[verifier::external_body]
#[verifier::reject_recursive_types(T)]
pub struct ExSender<T>(Sender<T>);

/// `crossbeam::channel::Receiver`, the receiving end of a channel; nothing
/// of its inside is known here.
#[verifier::external_type_specification]
#[verifier::external_body]
#[verifier::reject_recursive_types(T)]
pub struct ExReceiver<T>(Receiver<T>);

/// The messages that wait in the channel behind `receiver`, the oldest
/// first. The name is for a receiver that was never cloned and is fed by
/// one sender that was never cloned: nobody but their owner puts a message
/// in or takes one out.
pub uninterp spec fn waiting(receiver: Receiver<usize>) -> Seq<usize>;

/// Whether `sender` and `receiver` are the two ends that one call of
/// `unbounded` returned.
pub uninterp spec fn feeds(sender: Sender<usize>, receiver: Receiver<usize>) -> bool;

/// `crossbeam::channel::unbounded`: the two ends of a new channel, in which
/// no message waits.
#[verifier::external_body]
fn unbounded() -> (ends: (Sender<usize>, Receiver<usize>))
    ensures
        feeds(ends.0, ends.1),
        waiting(ends.1) == Seq::<usize>::empty(),
{
    crossbeam::channel::unbounded()
}

/// `Sender::send` into a channel without a bound whose receiving end is
/// alive, as the borrow of it shows: the message is put behind those that
/// wait, and the call neither blocks nor fails.
#[verifier::external_body]
fn send(sender: &Sender<usize>, receiver: &mut Receiver<usize>, message: usize) -> (sent: bool)
    requires
        feeds(*sender, *old(receiver)),
    ensures
        sent,
        feeds(*sender, *final(receiver)),
        waiting(*final(receiver)) == waiting(*old(receiver)).push(message),
{
    sender.send(message).is_ok()
}

/// `Receiver::recv` from a channel in which a message waits: the oldest
/// message is taken out, and the call does not block.
#[verifier::external_body]
fn recv(receiver: &mut Receiver<usize>) -> (message: Option<usize>)
    requires
        waiting(*old(receiver)).len() > 0,
    ensures
        message == Some(waiting(*old(receiver))[0]),
        waiting(*final(receiver)) == waiting(*old(receiver)).drop_first(),
        forall|sender: Sender<usize>|
            feeds(sender, *old(receiver)) ==> feeds(sender, *final(receiver)),
{
    receiver.recv().ok()
}

/// `Receiver::len`: the number of messages that wait in the channel.
#[verifier::external_body]
fn len(receiver: &Receiver<usize>) -> (n: usize)
    ensures
        n == waiting(*receiver).len(),
{
    receiver.len()
}

/// How long the delay inside a [`MainFuture`] lasts, in milliseconds.
pub const MAIN_DELAY_MILLIS: u64 = 10;

/// Mathematical state of a [`Delay`].
pub struct DelayState {
    /// The instant from which on the delay is over.
    pub when: u64,
    /// The capability that the worker invokes once it has slept.
    pub waker: Option<Waker>,
}

/// A computation that is ready from the instant `when` on.
pub struct Delay {
    pub when: u64,
    waker: Option<Waker>,
}

/// What a poll of a [`Delay`] asks of its caller.
#[derive(Clone, Copy, Debug, PartialEq, Eq, Structural)]
pub struct DelayPoll {
    /// Whether the delay is over.
    pub outcome: Poll,
    /// Whether this was the first poll, after which the caller has to start
    /// the worker that sleeps until `when` and then invokes the stored
    /// capability.
    pub start_worker: bool,
}

impl View for Delay {
    type V = DelayState;

    closed spec fn view(&self) -> DelayState {
        DelayState { when: self.when, waker: self.waker }
    }
}

impl DelayState {
    /// What a poll at `now` returns.
    pub open spec fn poll_outcome(self, now: u64) -> DelayPoll {
        DelayPoll {
            outcome: if now >= self.when {
                Poll::Ready
            } else {
                Poll::Pending
            },
            start_worker: self.waker is None,
        }
    }

    /// State after a poll with `waker`.
    pub open spec fn polled(self, waker: Waker) -> Self {
        DelayState { waker: Some(waker), ..self }
    }
}

impl Delay {
    /// A delay that ends at `when` and has not been polled yet.
    pub fn new(when: u64) -> (delay: Self)
        ensures
            delay@ == (DelayState { when, waker: None }),
    {
        Delay { when, waker: None }
    }

    /// A delay that ends at `when` and already holds `waker`, so that no
    /// poll of it will ask for a worker.
    pub fn with_waker(when: u64, waker: Waker) -> (delay: Self)
        ensures
            delay@ == (DelayState { when, waker: Some(waker) }),
    {
        Delay { when, waker: Some(waker) }
    }

    /// The capability that the worker has to invoke after its sleep: the one
    /// of the latest poll.
    pub fn waker(&self) -> (stored: Option<Waker>)
        ensures
            stored == self@.waker,
    {
        self.waker
    }

    /// How long the worker, starting at `now`, sleeps before it invokes the
    /// stored capability: until `when`, or not at all if `when` has passed.
    pub fn pause(&self, now: u64) -> (millis: u64)
        ensures
            now < self@.when ==> millis == self@.when - now,
            now >= self@.when ==> millis == 0,
    {
        if now < self.when {
            self.when - now
        } else {
            0
        }
    }

    /// One attempt to complete, at the instant `now`. The delay keeps the
    /// capability of its latest poll. The first poll asks the caller to start
    /// the worker. The outcome is `Ready` exactly from `when` on.
    pub fn poll(&mut self, now: u64, waker: &Waker) -> (polled: DelayPoll)
        ensures
            polled == old(self)@.poll_outcome(now),
            final(self)@ == old(self)@.polled(*waker),
    {
        let start_worker = match self.waker {
            Some(stored) => {
                if !stored.will_wake(waker) {
                    self.waker = Some(*waker);
                }
                false
            },
            None => {
                self.waker = Some(*waker);
                true
            },
        };
        let outcome = if now >= self.when {
            Poll::Ready
        } else {
            Poll::Pending
        };
        DelayPoll { outcome, start_worker }
    }
}

/// A computation in three states.
pub enum MainFuture {
    /// Not polled yet.
    State0,
    /// Waiting for its delay to be over.
    State1(Delay),
    /// Finished; it must not be polled again.
    Terminated,
}

impl MainFuture {
    /// The delay that a poll, at `now` and with `waker`, polls: the one that
    /// the computation is waiting for, or the one that the poll creates,
    /// which ends `MAIN_DELAY_MILLIS` after `now` and holds `waker`.
    pub open spec fn delay_polled(self, now: u64, waker: Waker) -> DelayState {
        match self {
            MainFuture::State1(delay) => delay@,
            _ => DelayState { when: (now + MAIN_DELAY_MILLIS) as u64, waker: Some(waker) },
        }
    }

    /// What a poll at `now` returns.
    pub open spec fn poll_outcome(self, now: u64, waker: Waker) -> Poll {
        self.delay_polled(now, waker).poll_outcome(now).outcome
    }

    /// One attempt to complete, at the instant `now`. A computation that has
    /// not started creates its delay. Then the delay is polled: when it is
    /// over the computation is `Terminated` and the outcome is `Ready`, else
    /// the computation waits in `State1`. A terminated computation must not
    /// be polled.
    pub fn poll(&mut self, now: u64, waker: &Waker) -> (outcome: Poll)
        requires
            !(*old(self) is Terminated),
            *old(self) is State0 ==> now + MAIN_DELAY_MILLIS <= u64::MAX,
        ensures
            outcome == old(self).poll_outcome(now, *waker),
            outcome == Poll::Ready ==> *final(self) is Terminated,
            outcome == Poll::Pending ==> *final(self) is State1,
            outcome == Poll::Pending ==> final(self)->State1_0@
                == old(self).delay_polled(now, *waker).polled(*waker),
    {
        let mut state = MainFuture::Terminated;
        std::mem::swap(self, &mut state);
        let mut delay = match state {
            MainFuture::State1(delay) => delay,
            _ => Delay::with_waker(now + MAIN_DELAY_MILLIS, *waker),
        };
        let polled = delay.poll(now, waker);
        match polled.outcome {
            Poll::Ready => {
                *self = MainFuture::Terminated;
                Poll::Ready
            },
            Poll::Pending => {
                *self = MainFuture::State1(delay);
                Poll::Pending
            },
        }
    }
}

/// A task of a [`MiniTokio`]: the handle that schedules it again.
#[derive(Clone, Copy, Debug, PartialEq, Eq, Structural)]
pub struct Task {
    pub id: usize,
}

/// Mathematical state of a [`MiniTokio`].
pub struct MiniTokioState {
    /// Task ids in the run queue, the next one to be polled first.
    pub scheduled: Seq<usize>,
    /// Number of tasks spawned so far.
    pub spawned: nat,
}

/// A run queue without a bound. Its loop polls whatever it is handed, as
/// often as it is scheduled.
pub struct MiniTokio {
    scheduled: Receiver<usize>,
    sender: Sender<usize>,
    spawned: usize,
}

impl View for MiniTokio {
    type V = MiniTokioState;

    closed spec fn view(&self) -> MiniTokioState {
        MiniTokioState { scheduled: waiting(self.scheduled), spawned: self.spawned as nat }
    }
}

impl MiniTokioState {
    /// State after `task` was put at the back of the run queue.
    pub open spec fn schedule(self, task: usize) -> Self {
        MiniTokioState { scheduled: self.scheduled.push(task), ..self }
    }

    /// State after a new task was spawned and scheduled for its first poll.
    pub open spec fn spawn(self) -> Self {
        MiniTokioState {
            scheduled: self.scheduled.push(self.spawned as usize),
            spawned: self.spawned + 1,
        }
    }

    /// State after the task at the front was taken off the run queue.
    pub open spec fn advance(self) -> Self {
        MiniTokioState { scheduled: self.scheduled.drop_first(), ..self }
    }
}

impl Task {
    /// The capability that schedules the task when it is invoked.
    pub fn waker(&self) -> (waker: Waker)
        ensures
            waker == (Waker { task: self.id }),
    {
        Waker { task: self.id }
    }

    /// Puts the task at the back of the run queue of `runtime`.
    pub fn schedule(&self, runtime: &mut MiniTokio)
        requires
            old(runtime).wf(),
        ensures
            final(runtime).wf(),
            final(runtime)@ == old(runtime)@.schedule(self.id),
    {
        send(&runtime.sender, &mut runtime.scheduled, self.id);
    }

    /// Gives the next task id of `runtime` to a new task and schedules it
    /// for its first poll.
    pub fn spawn(runtime: &mut MiniTokio) -> (task: Self)
        requires
            old(runtime).wf(),
            old(runtime)@.spawned < usize::MAX,
        ensures
            final(runtime).wf(),
            task.id == old(runtime)@.spawned,
            final(runtime)@ == old(runtime)@.spawn(),
    {
        let task = Task { id: runtime.spawned };
        runtime.spawned = runtime.spawned + 1;
        send(&runtime.sender, &mut runtime.scheduled, task.id);
        task
    }
}

impl MiniTokio {
    /// The invariant of the runtime: what its sender sends arrives in its
    /// own run queue.
    pub closed spec fn wf(&self) -> bool {
        feeds(self.sender, self.scheduled)
    }

    /// A runtime with no task and an empty run queue.
    pub fn new() -> (runtime: MiniTokio)
        ensures
            runtime.wf(),
            runtime@ == (MiniTokioState { scheduled: Seq::empty(), spawned: 0 }),
    {
        let (sender, scheduled) = unbounded();
        MiniTokio { scheduled, sender, spawned: 0 }
    }

    /// Number of tasks spawned so far.
    pub fn spawned(&self) -> (n: usize)
        ensures
            n == self@.spawned,
    {
        self.spawned
    }

    /// Number of tasks waiting in the run queue.
    pub fn scheduled(&self) -> (n: usize)
        ensures
            n == self@.scheduled.len(),
    {
        len(&self.scheduled)
    }

    /// Spawns a task onto the runtime.
    pub fn spawn(&mut self) -> (task: Task)
        requires
            old(self).wf(),
            old(self)@.spawned < usize::MAX,
        ensures
            final(self).wf(),
            task.id == old(self)@.spawned,
            final(self)@ == old(self)@.spawn(),
    {
        Task::spawn(self)
    }

    /// Takes the task at the front of the run queue for the loop to poll, or
    /// returns `None`, with nothing changed, when the queue is empty and the
    /// loop has to block.
    pub fn next_task(&mut self) -> (next: Option<Task>)
        requires
            old(self).wf(),
        ensures
            final(self).wf(),
            old(self)@.scheduled.len() == 0 ==> next.is_none(),
            old(self)@.scheduled.len() == 0 ==> final(self)@ == old(self)@,
            old(self)@.scheduled.len() > 0 ==> next == Some(Task { id: old(self)@.scheduled[0] }),
            old(self)@.scheduled.len() > 0 ==> final(self)@ == old(self)@.advance(),
    {
        if len(&self.scheduled) == 0 {
            None
        } else {
            match recv(&mut self.scheduled) {
                Some(id) => Some(Task { id }),
                None => None,
            }
        }
    }
}

} // verus!
