use learn_rust::asynchronous_programming_in_rust::task::{Poll, Waker};
use learn_rust::asynchronous_programming_in_rust::timer_future::TimerFuture;
use learn_rust::tokio_tutorial::{Delay, DelayPoll, MainFuture, MiniTokio, Task, MAIN_DELAY_MILLIS};

#[test]
fn timer_starts_pending_without_a_waker() {
    let mut timer = TimerFuture::new(100, 25);
    assert_eq!(125, timer.deadline());
    assert!(!timer.is_completed());
    assert_eq!(25, timer.remaining(100));
    assert_eq!(1, timer.remaining(124));
    assert_eq!(0, timer.remaining(125));
    assert_eq!(0, timer.remaining(9_000));
    // nothing was stored, so the worker has nothing to wake
    assert_eq!(None, timer.fire(125));
    assert!(timer.is_completed());
}

#[test]
fn no_lost_wakeup() {
    let waker = Waker { task: 7 };

    // the worker fires first: the poll is ready at once
    let mut timer = TimerFuture::new(0, 10);
    assert_eq!(None, timer.fire(10));
    assert_eq!(Poll::Ready, timer.poll(&waker));
    assert_eq!(Poll::Ready, timer.poll(&waker));
    assert_eq!(None, timer.fire(11));

    // the poll comes first: the worker is handed the capability
    let mut timer = TimerFuture::new(0, 10);
    assert_eq!(Poll::Pending, timer.poll(&waker));
    assert_eq!(Some(waker), timer.fire(10));
    assert_eq!(Poll::Ready, timer.poll(&waker));
    assert_eq!(None, timer.fire(10));
}

#[test]
fn timer_keeps_the_capability_of_its_latest_poll() {
    let mut timer = TimerFuture::new(5, 5);
    assert_eq!(Poll::Pending, timer.poll(&Waker { task: 1 }));
    assert_eq!(Poll::Pending, timer.poll(&Waker { task: 2 }));
    assert_eq!(Poll::Pending, timer.poll(&Waker { task: 3 }));
    assert_eq!(Some(Waker { task: 3 }), timer.fire(10));
}

#[test]
fn timer_does_not_fire_before_its_deadline() {
    let mut timer = TimerFuture::new(5, 5);
    assert_eq!(Poll::Pending, timer.poll(&Waker { task: 1 }));
    assert_eq!(None, timer.fire(0));
    assert_eq!(None, timer.fire(9));
    assert!(!timer.is_completed());
    assert_eq!(Poll::Pending, timer.poll(&Waker { task: 1 }));
    assert_eq!(Some(Waker { task: 1 }), timer.fire(u64::MAX));
    assert!(timer.is_completed());
}

#[test]
fn timer_of_no_duration() {
    let mut timer = TimerFuture::new(u64::MAX, 0);
    assert_eq!(u64::MAX, timer.deadline());
    assert_eq!(Poll::Pending, timer.poll(&Waker { task: 0 }));
    assert_eq!(Some(Waker { task: 0 }), timer.fire(u64::MAX));
}

#[test]
fn delay_asks_for_a_worker_once() {
    let mut delay = Delay::new(30);
    assert_eq!(30, delay.when);
    assert_eq!(None, delay.waker());

    let first = delay.poll(0, &Waker { task: 4 });
    assert_eq!(DelayPoll { outcome: Poll::Pending, start_worker: true }, first);
    assert_eq!(Some(Waker { task: 4 }), delay.waker());
    assert_eq!(30, delay.pause(0));
    assert_eq!(1, delay.pause(29));
    assert_eq!(0, delay.pause(30));
    assert_eq!(0, delay.pause(31));

    let second = delay.poll(29, &Waker { task: 5 });
    assert_eq!(DelayPoll { outcome: Poll::Pending, start_worker: false }, second);
    assert_eq!(Some(Waker { task: 5 }), delay.waker());

    let third = delay.poll(30, &Waker { task: 5 });
    assert_eq!(DelayPoll { outcome: Poll::Ready, start_worker: false }, third);
    assert_eq!(Some(Waker { task: 5 }), delay.waker());
}

#[test]
fn delay_that_is_over_at_its_first_poll() {
    let mut delay = Delay::new(3);
    let polled = delay.poll(3, &Waker { task: 0 });
    assert_eq!(DelayPoll { outcome: Poll::Ready, start_worker: true }, polled);
}

#[test]
fn delay_with_a_waker_never_asks_for_a_worker() {
    let mut delay = Delay::with_waker(8, Waker { task: 2 });
    assert_eq!(Some(Waker { task: 2 }), delay.waker());
    let polled = delay.poll(1, &Waker { task: 2 });
    assert_eq!(DelayPoll { outcome: Poll::Pending, start_worker: false }, polled);
}

#[test]
fn main_future_goes_through_its_states() {
    let waker = Waker { task: 0 };
    let mut future = MainFuture::State0;

    assert_eq!(Poll::Pending, future.poll(1_000, &waker));
    match &future {
        MainFuture::State1(delay) => {
            assert_eq!(1_000 + MAIN_DELAY_MILLIS, delay.when);
            assert_eq!(1_010, delay.when);
            assert_eq!(Some(waker), delay.waker());
        }
        _ => panic!("the first poll starts the delay"),
    }

    assert_eq!(Poll::Pending, future.poll(1_009, &waker));
    assert!(matches!(future, MainFuture::State1(_)));

    assert_eq!(Poll::Ready, future.poll(1_010, &waker));
    assert!(matches!(future, MainFuture::Terminated));
}

#[test]
fn main_future_in_state1_polls_the_delay_it_holds() {
    let mut future = MainFuture::State1(Delay::new(5));
    assert_eq!(Poll::Pending, future.poll(4, &Waker { task: 9 }));
    match &future {
        MainFuture::State1(delay) => assert_eq!(Some(Waker { task: 9 }), delay.waker()),
        _ => panic!("still waiting"),
    }
    assert_eq!(Poll::Ready, future.poll(5, &Waker { task: 9 }));
    assert!(matches!(future, MainFuture::Terminated));
}

#[test]
fn mini_tokio_polls_in_the_order_of_scheduling() {
    let mut runtime = MiniTokio::new();
    assert_eq!(0, runtime.spawned());
    assert_eq!(0, runtime.scheduled());
    assert_eq!(None, runtime.next_task());

    let a = runtime.spawn();
    let b = Task::spawn(&mut runtime);
    assert_eq!(Task { id: 0 }, a);
    assert_eq!(Task { id: 1 }, b);
    assert_eq!(Waker { task: 1 }, b.waker());
    assert_eq!(2, runtime.spawned());
    assert_eq!(2, runtime.scheduled());

    a.schedule(&mut runtime);
    assert_eq!(3, runtime.scheduled());
    assert_eq!(Some(a), runtime.next_task());
    assert_eq!(2, runtime.scheduled());
    assert_eq!(Some(b), runtime.next_task());
    assert_eq!(Some(a), runtime.next_task());
    assert_eq!(0, runtime.scheduled());
    assert_eq!(None, runtime.next_task());
    assert_eq!(None, runtime.next_task());
    assert_eq!(2, runtime.spawned());

    let c = runtime.spawn();
    assert_eq!(Task { id: 2 }, c);
    assert_eq!(Some(c), runtime.next_task());
}

#[test]
fn mini_tokio_keeps_redundant_schedules_in_order() {
    let mut runtime = MiniTokio::new();
    let mut tasks = Vec::new();
    for _ in 0..100 {
        tasks.push(runtime.spawn());
    }
    for task in tasks.iter().rev() {
        task.schedule(&mut runtime);
        task.schedule(&mut runtime);
    }
    assert_eq!(300, runtime.scheduled());
    let mut order = Vec::new();
    while let Some(next) = runtime.next_task() {
        order.push(next.id);
    }
    let mut expected: Vec<usize> = (0..100).collect();
    for id in (0..100).rev() {
        expected.push(id);
        expected.push(id);
    }
    assert_eq!(expected, order);
}

#[test]
fn mini_tokio_runs_a_main_future() {
    let mut runtime = MiniTokio::new();
    let task = runtime.spawn();
    let mut future = MainFuture::State0;
    let mut clock = 0;
    let mut polls = 0;

    while let Some(next) = runtime.next_task() {
        polls += 1;
        match future.poll(clock, &next.waker()) {
            Poll::Ready => break,
            Poll::Pending => {
                // the delay elapses and its capability is invoked
                clock += MAIN_DELAY_MILLIS;
                next.schedule(&mut runtime);
            }
        }
    }
    assert_eq!(2, polls);
    assert_eq!(Task { id: 0 }, task);
    assert!(matches!(future, MainFuture::Terminated));
}
