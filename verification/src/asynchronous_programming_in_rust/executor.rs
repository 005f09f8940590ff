//! The scheduler: a bounded FIFO run queue of task ids, one slot per task
//! for its computation, and the count of the submission handles that are
//! alive.
//!
//! [`Executor::next_turn`] takes one submission off the queue and says what
//! the polling loop has to do with it, and [`Executor::settle`] takes the
//! outcome of the poll back. [`Executor::run`] is that loop for a caller who
//! owns the scheduler: it serves the queue until it is empty. A program that
//! shares the scheduler between threads takes the turns itself and lets go
//! of the scheduler while it polls. Every contract is stated over
//! [`RunState`], the mathematical state.

use super::run_state::{
    lemma_polls_bounded_by_submissions, lemma_single_completion, loop_events, occurrences, Event,
    RunState,
};
use super::task::{Poll, Waker};
use std::collections::VecDeque;
use vstd::prelude::*;

verus! {

/// The most submissions that the run queue holds at one time.
pub const MAXED_QUEUED_TASKS: usize = 10_000;

/// Why a submission was refused.
#[derive(Clone, Copy, Debug, PartialEq, Eq, Structural)]
pub enum SpawnError {
    /// The run queue already holds `MAXED_QUEUED_TASKS` submissions.
    QueueFull,
}

/// A submission that was refused.
pub struct Rejected<C> {
    /// Why it was refused.
    pub error: SpawnError,
    /// The computation that was to be submitted, for the caller to try again
    /// with or to give up.
    pub computation: C,
}

/// What the polling loop has to do next.
#[derive(Clone, Copy, Debug, PartialEq, Eq, Structural)]
pub enum Turn {
    /// Poll the computation of the named task with this capability, then
    /// report the outcome with [`Executor::settle`].
    Poll(Waker),
    /// The dequeued task has no computation left in its slot: go on.
    Skip(usize),
    /// The queue is empty but submission handles are alive: block until one
    /// of them submits or is dropped.
    Wait,
    /// The queue is empty and no submission can ever arrive: return.
    Exit,
}

/// A resumable unit of work. `poll` makes one attempt to finish that does
/// not block. A computation that is not finished keeps `waker`, or hands it
/// to whoever will know when to go on, and returns `Pending`. Once it has
/// returned `Ready` it is not polled again.
pub trait Computation {
    fn poll(&mut self, waker: &Waker) -> Poll;
}

/// The scheduler: the run queue, and for every task the slot that holds its
/// computation while the task is neither being polled nor finished.
pub struct Executor<C> {
    ready_queue: VecDeque<usize>,
    slots: Vec<Option<C>>,
    running: Option<usize>,
    handles: usize,
    polls: Ghost<Seq<nat>>,
    completions: Ghost<Seq<nat>>,
}

/// A handle through which new computations are submitted.
pub struct Spawner {
    _private: (),
}

impl<C> View for Executor<C> {
    type V = RunState;

    closed spec fn view(&self) -> RunState {
        RunState {
            queue: self.ready_queue@,
            present: Seq::new(self.slots@.len(), |t: int| self.slots@[t] is Some),
            polls: self.polls@,
            completions: self.completions@,
            running: self.running,
            handles: self.handles as nat,
        }
    }
}

/// Creates a scheduler without tasks and the first handle to submit to it.
pub fn new_executor_and_spawner<C>() -> (pair: (Executor<C>, Spawner))
    ensures
        pair.0@ == RunState::init(),
        pair.0@.wf(),
        pair.0.computations() == Seq::<Option<C>>::empty(),
{
    let executor = Executor {
        ready_queue: VecDeque::new(),
        slots: Vec::new(),
        running: None,
        handles: 1,
        polls: Ghost(Seq::empty()),
        completions: Ghost(Seq::empty()),
    };
    assert(executor@.present =~= Seq::<bool>::empty());
    (executor, Spawner { _private: () })
}

impl Spawner {
    /// Submits `computation`: gives it the next task id, puts it in the slot
    /// of that task and appends the task to the run queue. Returns the wake
    /// capability of the new task. When the queue is at capacity nothing
    /// changes, and the caller gets `computation` back with the error.
    pub fn spawn<C>(&self, executor: &mut Executor<C>, computation: C) -> (spawned: Result<
        Waker,
        Rejected<C>,
    >)
        requires
            old(executor)@.wf(),
        ensures
            final(executor)@.wf(),
            final(executor)@ == old(executor)@.step(Event::Spawn),
            old(executor)@.has_room() ==> spawned == Ok::<Waker, Rejected<C>>(
                Waker { task: old(executor)@.tasks() as usize },
            ),
            old(executor)@.has_room() ==> final(executor)@ == old(executor)@.spawn(),
            old(executor)@.has_room() ==> final(executor).computations()
                == old(executor).computations().push(Some(computation)),
            !old(executor)@.has_room() ==> spawned == Err::<Waker, Rejected<C>>(
                Rejected { error: SpawnError::QueueFull, computation },
            ),
            !old(executor)@.has_room() ==> final(executor)@ == old(executor)@,
            !old(executor)@.has_room() ==> final(executor).computations()
                == old(executor).computations(),
    {
        if executor.ready_queue.len() >= MAXED_QUEUED_TASKS {
            return Err(Rejected { error: SpawnError::QueueFull, computation });
        }
        let task: usize = executor.slots.len();
        executor.slots.push(Some(computation));
        executor.ready_queue.push_back(task);
        proof {
            executor.polls@ = executor.polls@.push(0);
            executor.completions@ = executor.completions@.push(0);
            assert(executor.slots@.len() == executor.slots.len());
            assert(executor@.present =~= old(executor)@.present.push(true));
            assert forall|i: int|
                0 <= i < executor@.queue.len() implies #[trigger] executor@.queue[i]
                < executor@.present.len() by {
                if i < old(executor)@.queue.len() {
                    assert(executor@.queue[i] == old(executor)@.queue[i]);
                }
            }
        }
        Ok(Waker { task })
    }

    /// Makes one more handle to submit through; it counts as a submission
    /// handle of its own.
    pub fn duplicate<C>(&self, executor: &mut Executor<C>) -> (copy: Spawner)
        requires
            old(executor)@.wf(),
            old(executor)@.handles < usize::MAX,
        ensures
            final(executor)@.wf(),
            final(executor)@ == old(executor)@.retain(),
            final(executor)@ == old(executor)@.step(Event::Retain),
            final(executor).computations() == old(executor).computations(),
    {
        executor.retain();
        Spawner { _private: () }
    }

    /// Gives the handle up; it no longer counts as a submission handle.
    pub fn close<C>(self, executor: &mut Executor<C>)
        requires
            old(executor)@.wf(),
            old(executor)@.handles > 0,
        ensures
            final(executor)@.wf(),
            final(executor)@ == old(executor)@.release(),
            final(executor)@ == old(executor)@.step(Event::Release),
            final(executor).computations() == old(executor).computations(),
    {
        executor.release();
    }
}

impl<C> Executor<C> {
    /// What every slot holds: the computation of the task, or nothing while
    /// the task is being polled and after it has finished.
    pub closed spec fn computations(&self) -> Seq<Option<C>> {
        self.slots@
    }

    /// The slots are those of the tasks, and a computation is present
    /// exactly where a slot holds one.
    pub proof fn lemma_computations(&self)
        ensures
            self.computations().len() == self@.tasks(),
            forall|t: int|
                0 <= t < self@.tasks() ==> #[trigger] self@.present[t] == (
                self.computations()[t] is Some),
    {
    }

    /// Number of tasks spawned so far.
    pub fn tasks(&self) -> (n: usize)
        ensures
            n == self@.tasks(),
    {
        self.slots.len()
    }

    /// Number of submissions waiting in the run queue.
    pub fn queued(&self) -> (n: usize)
        ensures
            n == self@.queue.len(),
    {
        self.ready_queue.len()
    }

    /// Number of submission handles that are alive.
    pub fn handles(&self) -> (n: usize)
        ensures
            n == self@.handles,
    {
        self.handles
    }

    /// Whether a poll is in progress, that is, a turn has not been settled
    /// yet.
    pub fn is_polling(&self) -> (polling: bool)
        ensures
            polling == (self@.running is Some),
    {
        self.running.is_some()
    }

    /// Whether the computation of `task` is in its slot.
    pub fn is_present(&self, task: usize) -> (present: bool)
        ensures
            present == (task < self@.tasks() && self@.present[task as int]),
    {
        task < self.slots.len() && self.slots[task].is_some()
    }

    /// Whether `task` was reported `Ready`: its slot is empty and it is not
    /// being polled.
    pub fn is_finished(&self, task: usize) -> (finished: bool)
        requires
            self@.wf(),
        ensures
            finished == self@.finished(task),
    {
        let finished = task < self.slots.len() && self.slots[task].is_none() && !self.is_running(
            task,
        );
        proof {
            if task < self.slots.len() {
                assert(self@.present[task as int] == (self.slots@[task as int] is Some));
                assert(self@.completions[task as int] <= 1);
            }
        }
        finished
    }

    /// Whether `task` is the task that is being polled.
    fn is_running(&self, task: usize) -> (running: bool)
        ensures
            running == (self.running == Some(task)),
    {
        match self.running {
            Some(polled) => polled == task,
            None => false,
        }
    }

    /// Re-submits the task that `waker` names to the back of the run queue.
    /// Each call adds one entry; nothing is deduplicated. On a full queue the
    /// call changes nothing and says so, and the caller tries again once the
    /// loop has made room.
    pub fn wake(&mut self, waker: &Waker) -> (woken: Result<(), SpawnError>)
        requires
            old(self)@.wf(),
            waker.task < old(self)@.tasks(),
        ensures
            final(self)@.wf(),
            final(self)@ == old(self)@.step(Event::Wake(waker.task)),
            final(self).computations() == old(self).computations(),
            old(self)@.has_room() ==> woken == Ok::<(), SpawnError>(()),
            old(self)@.has_room() ==> final(self)@ == old(self)@.wake(waker.task),
            !old(self)@.has_room() ==> woken == Err::<(), SpawnError>(SpawnError::QueueFull),
            !old(self)@.has_room() ==> final(self)@ == old(self)@,
    {
        if self.ready_queue.len() >= MAXED_QUEUED_TASKS {
            return Err(SpawnError::QueueFull);
        }
        self.ready_queue.push_back(waker.task);
        Ok(())
    }

    /// Takes the next submission off the run queue and says what to do with
    /// it. A task whose computation is in its slot is to be polled: the
    /// computation is taken out of the slot and handed over with the turn.
    /// A task with an empty slot is skipped. On an empty queue the answer is
    /// `Exit` exactly when no submission handle is alive, else `Wait`.
    pub fn next_turn(&mut self) -> (next: (Turn, Option<C>))
        requires
            old(self)@.wf(),
            old(self)@.running is None,
        ensures
            final(self)@.wf(),
            next.0 == old(self)@.turn(),
            final(self)@ == old(self)@.dequeue(),
            final(self)@ == old(self)@.step(Event::Turn),
            next.0 is Poll ==> next.1 is Some,
            next.0 is Poll ==> next.1 == old(self).computations()[next.0->Poll_0.task as int],
            next.0 is Poll ==> final(self).computations() == old(self).computations().update(
                next.0->Poll_0.task as int,
                None,
            ),
            !(next.0 is Poll) ==> next.1 is None,
            !(next.0 is Poll) ==> final(self).computations() == old(self).computations(),
    {
        match self.ready_queue.pop_front() {
            None => {
                if self.handles == 0 {
                    (Turn::Exit, None)
                } else {
                    (Turn::Wait, None)
                }
            },
            Some(task) => {
                assert(task == old(self)@.queue[0]);
                assert(self.ready_queue@ =~= old(self)@.queue.drop_first());
                if self.slots[task].is_some() {
                    let mut taken: Option<C> = None;
                    std::mem::swap(&mut self.slots[task], &mut taken);
                    self.running = Some(task);
                    proof {
                        self.polls@ = self.polls@.update(task as int, self.polls@[task as int] + 1);
                        assert(self@.present =~= old(self)@.present.update(task as int, false));
                    }
                    (Turn::Poll(Waker { task }), taken)
                } else {
                    (Turn::Skip(task), None)
                }
            },
        }
    }

    /// Ends the poll in progress. After `Pending` the computation is put
    /// back in its slot and the task is parked until it is woken. After
    /// `Ready` the computation is dropped and the slot stays empty for good.
    pub fn settle(&mut self, outcome: Poll, computation: C)
        requires
            old(self)@.wf(),
            old(self)@.running is Some,
        ensures
            final(self)@.wf(),
            final(self)@ == old(self)@.settle(outcome),
            final(self)@ == old(self)@.step(Event::Settle(outcome)),
            outcome == Poll::Pending ==> final(self).computations()
                == old(self).computations().update(
                old(self)@.running.unwrap() as int,
                Some(computation),
            ),
            outcome == Poll::Ready ==> final(self).computations() == old(self).computations(),
    {
        let task: usize = self.running.unwrap();
        self.running = None;
        match outcome {
            Poll::Pending => {
                self.slots.set(task, Some(computation));
                proof {
                    assert(self@.present =~= old(self)@.present.update(task as int, true));
                }
            },
            Poll::Ready => {
                proof {
                    self.completions@ = self.completions@.update(
                        task as int,
                        self.completions@[task as int] + 1,
                    );
                }
            },
        }
    }

    /// Records that one more submission handle is alive. Whoever keeps a
    /// wake capability beyond the poll that it was handed out for holds such
    /// a handle, from then until the capability is dropped.
    pub fn retain(&mut self)
        requires
            old(self)@.wf(),
            old(self)@.handles < usize::MAX,
        ensures
            final(self)@.wf(),
            final(self)@ == old(self)@.retain(),
            final(self)@ == old(self)@.step(Event::Retain),
            final(self).computations() == old(self).computations(),
    {
        self.handles = self.handles + 1;
    }

    /// Records that a submission handle was dropped. When it was the last
    /// one and the queue is empty, the next turn is `Exit`.
    pub fn release(&mut self)
        requires
            old(self)@.wf(),
            old(self)@.handles > 0,
        ensures
            final(self)@.wf(),
            final(self)@ == old(self)@.release(),
            final(self)@ == old(self)@.step(Event::Release),
            final(self).computations() == old(self).computations(),
    {
        self.handles = self.handles - 1;
    }
}

impl<C: Computation> Executor<C> {
    /// Serves the run queue until it is empty: takes one submission after
    /// the other, polls the computation of each task that still has one, and
    /// settles the outcome. Returns `Exit` when no submission can arrive any
    /// more, and `Wait` when the caller has to block until a handle submits
    /// or is dropped, and then to call `run` again.
    ///
    /// What the computations answer is theirs to decide. Whatever it is, the
    /// state at the end is reached from the state at the start by turns and
    /// settled polls alone, every task is polled at most once for each entry
    /// it had in the queue, and no task that had finished is polled.
    pub fn run(&mut self) -> (last: Turn)
        requires
            old(self)@.wf(),
            old(self)@.running is None,
        ensures
            final(self)@.wf(),
            final(self)@.queue.len() == 0,
            final(self)@.running is None,
            final(self)@.handles == old(self)@.handles,
            final(self)@.tasks() == old(self)@.tasks(),
            old(self)@.handles == 0 ==> last == Turn::Exit,
            old(self)@.handles > 0 ==> last == Turn::Wait,
            exists|events: Seq<Event>|
                loop_events(events) && final(self)@ == old(self)@.run(events),
            forall|t: usize|
                t < old(self)@.tasks() ==> #[trigger] final(self)@.polls[t as int]
                    >= old(self)@.polls[t as int],
            forall|t: usize|
                t < old(self)@.tasks() ==> #[trigger] final(self)@.polls[t as int]
                    <= old(self)@.polls[t as int] + occurrences(old(self)@.queue, t),
            forall|t: usize|
                t < old(self)@.tasks() ==> #[trigger] final(self)@.completions[t as int] <= 1,
            forall|t: usize|
                old(self)@.finished(t) ==> #[trigger] final(self)@.finished(t),
            forall|t: usize|
                old(self)@.finished(t) ==> #[trigger] final(self)@.polls[t as int]
                    == old(self)@.polls[t as int],
    {
        let ghost mut trace: Seq<Event> = Seq::empty();
        let mut last = Turn::Wait;
        let mut idle = false;
        while !idle
            invariant
                old(self)@.wf(),
                self@.wf(),
                self@.running is None,
                loop_events(trace),
                self@ == old(self)@.run(trace),
                self@.handles == old(self)@.handles,
                self@.tasks() == old(self)@.tasks(),
                idle ==> self@.queue.len() == 0 && last == self@.turn(),
            decreases self@.queue.len() + if idle { 0nat } else { 1nat },
        {
            let (turn, taken) = self.next_turn();
            proof {
                let extended = trace.push(Event::Turn);
                assert(extended.drop_last() =~= trace);
                assert(old(self)@.run(extended) == old(self)@.run(trace).step(Event::Turn));
                trace = extended;
            }
            match turn {
                Turn::Poll(waker) => {
                    let mut computation = taken.unwrap();
                    let outcome = computation.poll(&waker);
                    self.settle(outcome, computation);
                    proof {
                        let extended = trace.push(Event::Settle(outcome));
                        assert(extended.drop_last() =~= trace);
                        assert(old(self)@.run(extended) == old(self)@.run(trace).step(
                            Event::Settle(outcome),
                        ));
                        trace = extended;
                    }
                },
                Turn::Skip(_) => {},
                Turn::Wait => {
                    last = Turn::Wait;
                    idle = true;
                },
                Turn::Exit => {
                    last = Turn::Exit;
                    idle = true;
                },
            }
        }
        proof {
            assert forall|t: usize| t < old(self)@.tasks() implies old(self)@.polls[t as int]
                <= #[trigger] self@.polls[t as int] <= old(self)@.polls[t as int] + occurrences(
                old(self)@.queue,
                t,
            ) by {
                lemma_polls_bounded_by_submissions(old(self)@, trace, t);
            }
            assert forall|t: usize|
                t < old(self)@.tasks() implies #[trigger] self@.completions[t as int] <= 1 by {
                lemma_single_completion(old(self)@, trace, t);
            }
            assert forall|t: usize| old(self)@.finished(t) implies #[trigger] self@.finished(t) by {
                lemma_single_completion(old(self)@, trace, t);
            }
            assert forall|t: usize| old(self)@.finished(t) implies #[trigger] self@.polls[t as int]
                == old(self)@.polls[t as int] by {
                lemma_single_completion(old(self)@, trace, t);
            }
        }
        last
    }
}

} // verus!
