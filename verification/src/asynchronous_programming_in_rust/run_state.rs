//! The mathematical state of the scheduler, the events that change it, and
//! the laws that hold of every sequence of events.
//!
//! A state knows the run queue, which tasks have their computation in their
//! slot, which task is being polled, and how many submission handles are
//! alive. It also counts, for every task, the polls and the completions so
//! far, so that the laws can speak of them.

use super::executor::{Turn, MAXED_QUEUED_TASKS};
use super::task::{Poll, Waker};
use vstd::prelude::*;

verus! {

/// One thing that can happen to the scheduler.
pub enum Event {
    /// A new computation is submitted.
    Spawn,
    /// The wake capability of a task is invoked.
    Wake(usize),
    /// The polling loop asks for its next turn.
    Turn,
    /// The polling loop reports the outcome of the poll in progress.
    Settle(Poll),
    /// A submission handle is created.
    Retain,
    /// A submission handle is dropped.
    Release,
}

/// Mathematical state of the scheduler.
pub struct RunState {
    /// Task ids in the run queue, the next one to be served first.
    pub queue: Seq<usize>,
    /// `present[t]`: the computation of task `t` is in its slot.
    pub present: Seq<bool>,
    /// `polls[t]`: how often the loop was told to poll task `t`.
    pub polls: Seq<nat>,
    /// `completions[t]`: how often task `t` was reported `Ready`.
    pub completions: Seq<nat>,
    /// The task whose computation the loop is polling right now.
    pub running: Option<usize>,
    /// Submission handles that are alive: spawn handles, and wake
    /// capabilities that someone holds on to.
    pub handles: nat,
}

/// How often `task` occurs in `queue`.
pub open spec fn occurrences(queue: Seq<usize>, task: usize) -> nat
    decreases queue.len(),
{
    if queue.len() == 0 {
        0
    } else if queue.last() == task {
        occurrences(queue.drop_last(), task) + 1
    } else {
        occurrences(queue.drop_last(), task)
    }
}

/// Whether `events` are steps of the polling loop alone: turns and settled
/// polls.
pub open spec fn loop_events(events: Seq<Event>) -> bool {
    forall|i: int| 0 <= i < events.len() ==> events[i] is Turn || events[i] is Settle
}

/// Whether no event in `events` wakes task `t`.
pub open spec fn no_wake_of(events: Seq<Event>, t: usize) -> bool {
    forall|i: int| 0 <= i < events.len() ==> events[i] != Event::Wake(t)
}

impl RunState {
    /// A scheduler without tasks, with the one spawn handle that its creator
    /// gets.
    pub open spec fn init() -> Self {
        RunState {
            queue: Seq::empty(),
            present: Seq::empty(),
            polls: Seq::empty(),
            completions: Seq::empty(),
            running: None,
            handles: 1,
        }
    }

    /// Number of tasks spawned so far; the task ids are `0..tasks()`.
    pub open spec fn tasks(self) -> nat {
        self.present.len()
    }

    /// The run queue accepts one more submission.
    pub open spec fn has_room(self) -> bool {
        self.queue.len() < MAXED_QUEUED_TASKS
    }

    /// The invariant of every reachable state. The queue is within its
    /// capacity and names tasks only. A task is reported `Ready` at most
    /// once. The slot of a task is empty exactly while the task is being
    /// polled and after it was reported `Ready`.
    pub open spec fn wf(self) -> bool {
        &&& self.queue.len() <= MAXED_QUEUED_TASKS
        &&& self.present.len() <= usize::MAX
        &&& self.polls.len() == self.present.len()
        &&& self.completions.len() == self.present.len()
        &&& forall|i: int|
            0 <= i < self.queue.len() ==> #[trigger] self.queue[i] < self.present.len()
        &&& forall|t: int|
            0 <= t < self.present.len() ==> #[trigger] self.completions[t] <= 1
        &&& forall|t: int|
            0 <= t < self.present.len() && #[trigger] self.completions[t] == 1
                ==> !self.present[t] && self.running != Some(t as usize)
        &&& forall|t: int|
            0 <= t < self.present.len() && !#[trigger] self.present[t] && self.running != Some(
                t as usize,
            ) ==> self.completions[t] == 1
        &&& match self.running {
            Some(t) => t < self.present.len() && !self.present[t as int],
            None => true,
        }
    }

    /// Task `t` is in the run queue.
    pub open spec fn queued(self, t: usize) -> bool {
        occurrences(self.queue, t) > 0
    }

    /// Task `t` is being polled.
    pub open spec fn polling(self, t: usize) -> bool {
        self.running == Some(t)
    }

    /// Task `t` is neither queued nor being polled, and its computation
    /// waits in its slot for a wake.
    pub open spec fn parked(self, t: usize) -> bool {
        &&& t < self.present.len()
        &&& self.present[t as int]
        &&& !self.polling(t)
        &&& !self.queued(t)
    }

    /// Task `t` was reported `Ready`.
    pub open spec fn finished(self, t: usize) -> bool {
        t < self.completions.len() && self.completions[t as int] == 1
    }

    /// State after a new task was submitted.
    pub open spec fn spawn(self) -> Self {
        RunState {
            queue: self.queue.push(self.present.len() as usize),
            present: self.present.push(true),
            polls: self.polls.push(0),
            completions: self.completions.push(0),
            ..self
        }
    }

    /// State after `task` was re-submitted.
    pub open spec fn wake(self, task: usize) -> Self {
        RunState { queue: self.queue.push(task), ..self }
    }

    /// What the loop is told when it asks for its next turn.
    pub open spec fn turn(self) -> Turn {
        if self.queue.len() == 0 {
            if self.handles == 0 {
                Turn::Exit
            } else {
                Turn::Wait
            }
        } else if self.present[self.queue[0] as int] {
            Turn::Poll(Waker { task: self.queue[0] })
        } else {
            Turn::Skip(self.queue[0])
        }
    }

    /// State after the loop asked for its next turn.
    pub open spec fn dequeue(self) -> Self {
        match self.turn() {
            Turn::Poll(waker) => RunState {
                queue: self.queue.drop_first(),
                present: self.present.update(waker.task as int, false),
                polls: self.polls.update(waker.task as int, self.polls[waker.task as int] + 1),
                running: Some(waker.task),
                ..self
            },
            Turn::Skip(_) => RunState { queue: self.queue.drop_first(), ..self },
            Turn::Wait => self,
            Turn::Exit => self,
        }
    }

    /// State after the poll in progress ended with `outcome`.
    pub open spec fn settle(self, outcome: Poll) -> Self {
        match self.running {
            Some(t) => match outcome {
                Poll::Pending => RunState {
                    present: self.present.update(t as int, true),
                    running: None,
                    ..self
                },
                Poll::Ready => RunState {
                    completions: self.completions.update(t as int, self.completions[t as int] + 1),
                    running: None,
                    ..self
                },
            },
            None => self,
        }
    }

    /// State after one more submission handle came to life.
    pub open spec fn retain(self) -> Self {
        RunState { handles: self.handles + 1, ..self }
    }

    /// State after one submission handle was dropped.
    pub open spec fn release(self) -> Self {
        RunState { handles: (self.handles - 1) as nat, ..self }
    }

    /// Whether `event` can take effect in this state. A submission needs room
    /// in the queue, a turn needs the previous poll to be settled, and only a
    /// live handle can be dropped.
    pub open spec fn enabled(self, event: Event) -> bool {
        match event {
            Event::Spawn => self.has_room() && self.present.len() < usize::MAX,
            Event::Wake(t) => self.has_room() && t < self.present.len(),
            Event::Turn => self.running is None,
            Event::Settle(_) => self.running is Some,
            Event::Retain => true,
            Event::Release => self.handles > 0,
        }
    }

    /// State after `event`; an event that is not enabled changes nothing.
    pub open spec fn step(self, event: Event) -> Self {
        if !self.enabled(event) {
            self
        } else {
            match event {
                Event::Spawn => self.spawn(),
                Event::Wake(t) => self.wake(t),
                Event::Turn => self.dequeue(),
                Event::Settle(outcome) => self.settle(outcome),
                Event::Retain => self.retain(),
                Event::Release => self.release(),
            }
        }
    }

    /// State after all of `events`, in order.
    pub open spec fn run(self, events: Seq<Event>) -> Self
        decreases events.len(),
    {
        if events.len() == 0 {
            self
        } else {
            self.run(events.drop_last()).step(events.last())
        }
    }

    /// State after `n` tasks were spawned.
    pub open spec fn spawned(self, n: nat) -> Self
        decreases n,
    {
        if n == 0 {
            self
        } else {
            self.spawned((n - 1) as nat).step(Event::Spawn)
        }
    }

    /// State after the loop took `k` turns and each poll came back `Ready`.
    pub open spec fn served_ready(self, k: nat) -> Self
        decreases k,
    {
        if k == 0 {
            self
        } else {
            self.served_ready((k - 1) as nat).step(Event::Turn).step(Event::Settle(Poll::Ready))
        }
    }
}

proof fn lemma_occurrences_push(queue: Seq<usize>, entry: usize, task: usize)
    ensures
        entry == task ==> occurrences(queue.push(entry), task) == occurrences(queue, task) + 1,
        entry != task ==> occurrences(queue.push(entry), task) == occurrences(queue, task),
{
    assert(queue.push(entry).drop_last() =~= queue);
}

proof fn lemma_occurrences_drop_first(queue: Seq<usize>, task: usize)
    requires
        queue.len() > 0,
    ensures
        queue[0] == task ==> occurrences(queue, task) == occurrences(queue.drop_first(), task) + 1,
        queue[0] != task ==> occurrences(queue, task) == occurrences(queue.drop_first(), task),
    decreases queue.len(),
{
    if queue.len() == 1 {
        assert(queue.drop_first() =~= Seq::<usize>::empty());
        assert(queue.drop_last() =~= Seq::<usize>::empty());
    } else {
        lemma_occurrences_drop_first(queue.drop_last(), task);
        assert(queue.drop_first().drop_last() =~= queue.drop_last().drop_first());
    }
}

/// Every event leaves a valid state valid, and no task is ever forgotten.
pub proof fn lemma_step_preserves_wf(s: RunState, event: Event)
    requires
        s.wf(),
    ensures
        s.step(event).wf(),
        s.step(event).tasks() >= s.tasks(),
{
    let next = s.step(event);
    if s.enabled(event) {
        match event {
            Event::Spawn => {
                assert forall|i: int| 0 <= i < next.queue.len() implies #[trigger] next.queue[i]
                    < next.present.len() by {
                    if i < s.queue.len() {
                        assert(next.queue[i] == s.queue[i]);
                    }
                }
            },
            Event::Wake(t) => {
                assert forall|i: int| 0 <= i < next.queue.len() implies #[trigger] next.queue[i]
                    < next.present.len() by {
                    if i < s.queue.len() {
                        assert(next.queue[i] == s.queue[i]);
                    }
                }
            },
            Event::Turn => {
                if s.queue.len() > 0 {
                    assert(s.queue[0] < s.present.len());
                    assert forall|i: int| 0 <= i < next.queue.len() implies #[trigger] next.queue[i]
                        < next.present.len() by {
                        assert(next.queue[i] == s.queue[i + 1]);
                    }
                }
            },
            Event::Settle(outcome) => {},
            Event::Retain => {},
            Event::Release => {},
        }
    }
}

/// Every sequence of events leaves a valid state valid.
pub proof fn lemma_run_preserves_wf(s: RunState, events: Seq<Event>)
    requires
        s.wf(),
    ensures
        s.run(events).wf(),
        s.run(events).tasks() >= s.tasks(),
    decreases events.len(),
{
    if events.len() > 0 {
        lemma_run_preserves_wf(s, events.drop_last());
        lemma_step_preserves_wf(s.run(events.drop_last()), events.last());
    }
}

/// The states of a task: its computation is in its slot, or it is being
/// polled, or it has finished, and no two of these hold at once.
pub proof fn lemma_task_states(s: RunState, t: usize)
    requires
        s.wf(),
        t < s.tasks(),
    ensures
        s.present[t as int] || s.polling(t) || s.finished(t),
        !(s.present[t as int] && s.polling(t)),
        !(s.present[t as int] && s.finished(t)),
        !(s.polling(t) && s.finished(t)),
        s.parked(t) ==> !s.queued(t) && !s.polling(t) && !s.finished(t),
{
}

/// Single completion: whatever happens, a task is reported `Ready` at most
/// once, and once it was, it stays finished and is never polled again.
pub proof fn lemma_single_completion(s: RunState, events: Seq<Event>, t: usize)
    requires
        s.wf(),
        t < s.tasks(),
    ensures
        s.run(events).wf(),
        t < s.run(events).tasks(),
        s.run(events).completions[t as int] <= 1,
        s.finished(t) ==> s.run(events).finished(t),
        s.finished(t) ==> s.run(events).polls[t as int] == s.polls[t as int],
    decreases events.len(),
{
    lemma_run_preserves_wf(s, events);
    if events.len() > 0 {
        let before = s.run(events.drop_last());
        lemma_single_completion(s, events.drop_last(), t);
        lemma_step_preserves_wf(before, events.last());
        if s.finished(t) && before.enabled(events.last()) && events.last() is Turn
            && before.queue.len() > 0 {
            assert(before.queue[0] < before.present.len());
        }
    }
}

/// What one event does to a task that it does not wake: the polls of the
/// task and its entries in the queue, taken together, do not grow, and the
/// polls do not shrink.
proof fn lemma_step_uses_up_submissions(s: RunState, event: Event, t: usize)
    requires
        s.wf(),
        t < s.tasks(),
        event != Event::Wake(t),
    ensures
        s.polls[t as int] <= s.step(event).polls[t as int],
        s.step(event).polls[t as int] + occurrences(s.step(event).queue, t) <= s.polls[t as int]
            + occurrences(s.queue, t),
        s.parked(t) ==> s.step(event).parked(t),
        s.parked(t) ==> s.step(event).completions[t as int] == s.completions[t as int],
{
    lemma_step_preserves_wf(s, event);
    if s.enabled(event) {
        match event {
            Event::Spawn => {
                lemma_occurrences_push(s.queue, s.present.len() as usize, t);
            },
            Event::Wake(woken) => {
                lemma_occurrences_push(s.queue, woken, t);
            },
            Event::Turn => {
                if s.queue.len() > 0 {
                    assert(s.queue[0] < s.present.len());
                    lemma_occurrences_drop_first(s.queue, t);
                }
            },
            Event::Settle(outcome) => {},
            Event::Retain => {},
            Event::Release => {},
        }
    }
}

/// Without a wake for task `t`, every further poll of `t` uses up one of
/// the entries that `t` has in the run queue.
pub proof fn lemma_polls_bounded_by_submissions(s: RunState, events: Seq<Event>, t: usize)
    requires
        s.wf(),
        t < s.tasks(),
        no_wake_of(events, t),
    ensures
        s.run(events).wf(),
        t < s.run(events).tasks(),
        s.polls[t as int] <= s.run(events).polls[t as int],
        s.run(events).polls[t as int] + occurrences(s.run(events).queue, t) <= s.polls[t as int]
            + occurrences(s.queue, t),
    decreases events.len(),
{
    lemma_run_preserves_wf(s, events);
    if events.len() > 0 {
        assert(no_wake_of(events.drop_last(), t)) by {
            assert forall|i: int| 0 <= i < events.drop_last().len() implies events.drop_last()[i]
                != Event::Wake(t) by {
                assert(events.drop_last()[i] == events[i]);
            }
        }
        assert(events.last() == events[events.len() - 1]);
        lemma_polls_bounded_by_submissions(s, events.drop_last(), t);
        lemma_step_uses_up_submissions(s.run(events.drop_last()), events.last(), t);
    }
}

/// Cross-thread wake: a parked task is not polled, and so cannot be observed
/// as `Ready`, before its wake capability is invoked. Whatever else happens
/// in the meantime, it stays parked.
pub proof fn lemma_parked_until_woken(s: RunState, events: Seq<Event>, t: usize)
    requires
        s.wf(),
        s.parked(t),
        no_wake_of(events, t),
    ensures
        s.run(events).wf(),
        s.run(events).parked(t),
        s.run(events).polls[t as int] == s.polls[t as int],
        s.run(events).completions[t as int] == s.completions[t as int],
    decreases events.len(),
{
    lemma_run_preserves_wf(s, events);
    if events.len() > 0 {
        assert(no_wake_of(events.drop_last(), t)) by {
            assert forall|i: int| 0 <= i < events.drop_last().len() implies events.drop_last()[i]
                != Event::Wake(t) by {
                assert(events.drop_last()[i] == events[i]);
            }
        }
        assert(events.last() == events[events.len() - 1]);
        lemma_parked_until_woken(s, events.drop_last(), t);
        lemma_step_uses_up_submissions(s.run(events.drop_last()), events.last(), t);
    }
}

/// Redundant wake: two wakes in a row of a parked task put it in the queue
/// twice. Every event stays legal afterwards, the task is polled at most
/// twice more until it is woken again, and it completes at most once.
pub proof fn lemma_redundant_wake(s: RunState, events: Seq<Event>, t: usize)
    requires
        s.wf(),
        s.parked(t),
        s.queue.len() + 2 <= MAXED_QUEUED_TASKS,
        no_wake_of(events, t),
    ensures
        s.step(Event::Wake(t)).step(Event::Wake(t)).queue == s.queue.push(t).push(t),
        s.step(Event::Wake(t)).step(Event::Wake(t)).run(events).wf(),
        s.step(Event::Wake(t)).step(Event::Wake(t)).run(events).polls[t as int] <= s.polls[t as int]
            + 2,
        s.step(Event::Wake(t)).step(Event::Wake(t)).run(events).completions[t as int] <= 1,
{
    let once = s.step(Event::Wake(t));
    let twice = once.step(Event::Wake(t));
    lemma_step_preserves_wf(s, Event::Wake(t));
    lemma_step_preserves_wf(once, Event::Wake(t));
    lemma_occurrences_push(s.queue, t, t);
    lemma_occurrences_push(once.queue, t, t);
    lemma_polls_bounded_by_submissions(twice, events, t);
    lemma_single_completion(twice, events, t);
}

/// The state that serving `k` of `n` freshly spawned tasks leads to, when
/// every poll so far came back `Ready`.
spec fn ready_served(n: nat, k: nat) -> RunState {
    RunState {
        queue: Seq::new((n - k) as nat, |i: int| (k + i) as usize),
        present: Seq::new(n, |t: int| t >= k),
        polls: Seq::new(n, |t: int| if t < k { 1nat } else { 0nat }),
        completions: Seq::new(n, |t: int| if t < k { 1nat } else { 0nat }),
        running: None,
        handles: 1,
    }
}

proof fn lemma_spawned_shape(n: nat)
    requires
        n <= MAXED_QUEUED_TASKS,
    ensures
        RunState::init().spawned(n) == ready_served(n, 0),
    decreases n,
{
    let shape = ready_served(n, 0);
    let got = RunState::init().spawned(n);
    if n > 0 {
        lemma_spawned_shape((n - 1) as nat);
    }
    assert(got.queue =~= shape.queue);
    assert(got.present =~= shape.present);
    assert(got.polls =~= shape.polls);
    assert(got.completions =~= shape.completions);
}

proof fn lemma_served_shape(n: nat, k: nat)
    requires
        k <= n <= MAXED_QUEUED_TASKS,
    ensures
        RunState::init().spawned(n).served_ready(k) == ready_served(n, k),
    decreases k,
{
    let shape = ready_served(n, k);
    let got = RunState::init().spawned(n).served_ready(k);
    if k == 0 {
        lemma_spawned_shape(n);
    } else {
        lemma_served_shape(n, (k - 1) as nat);
        let before = ready_served(n, (k - 1) as nat);
        assert(before.queue[0] == (k - 1) as usize);
        assert(before.present[k - 1]);
        assert(before.step(Event::Turn).running == Some((k - 1) as usize));
    }
    assert(got.queue =~= shape.queue);
    assert(got.present =~= shape.present);
    assert(got.polls =~= shape.polls);
    assert(got.completions =~= shape.completions);
}

/// FIFO fairness: when `n` tasks are spawned and each is ready at its first
/// poll, the loop's turn number `k` polls task `k`. So the completions come
/// in spawn order, and after `n` turns every task has completed and the
/// queue is empty.
pub proof fn lemma_ready_tasks_complete_in_spawn_order(n: nat, k: nat)
    requires
        k < n <= MAXED_QUEUED_TASKS,
    ensures
        RunState::init().spawned(n).served_ready(k).turn() == Turn::Poll(
            Waker { task: k as usize },
        ),
        RunState::init().spawned(n).served_ready(n).queue.len() == 0,
        forall|t: usize|
            t < n ==> #[trigger] RunState::init().spawned(n).served_ready(n).finished(t),
{
    lemma_served_shape(n, k);
    lemma_served_shape(n, n);
}

} // verus!
