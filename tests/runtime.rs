use std::cell::Cell;
use std::future::Future;
use std::pin::Pin;
use std::rc::Rc;
use std::sync::{Arc, Mutex};
use std::task::{Context, Poll, Wake, Waker};

use rt_tokyo::helpers::{select_outcome, Select, SelectResult};
use rt_tokyo::scheduler::{Scheduler, Step};
use rt_tokyo::task::TaskId;

type Task = Pin<Box<dyn Future<Output = ()>>>;

/// Wake handle that records its task's token in a queue shared with the driver.
struct Signal {
    token: usize,
    queue: Arc<Mutex<Vec<usize>>>,
}

impl Wake for Signal {
    fn wake(self: Arc<Self>) {
        self.wake_by_ref();
    }

    fn wake_by_ref(self: &Arc<Self>) {
        self.queue.lock().unwrap().push(self.token);
    }
}

fn waker_for(id: TaskId, queue: &Arc<Mutex<Vec<usize>>>) -> Waker {
    Waker::from(Arc::new(Signal { token: id.to_ptr(), queue: queue.clone() }))
}

/// Drives `main` on `scheduler` until it completes; `spawned` are spawned first.
fn run<F: Future>(mut scheduler: Scheduler<Task>, main: F, spawned: Vec<Task>) -> F::Output {
    let mut main = Box::pin(main);
    let queue = Arc::new(Mutex::new(Vec::new()));
    let main_id = scheduler.enter();
    for task in spawned {
        scheduler.spawn(task);
    }
    let main_waker = waker_for(main_id, &queue);
    loop {
        match scheduler.next_step() {
            Step::PollMain => {
                if let Poll::Ready(out) = main.as_mut().poll(&mut Context::from_waker(&main_waker)) {
                    return out;
                }
            }
            Step::PollTask(id, mut task) => {
                let waker = waker_for(id, &queue);
                if task.as_mut().poll(&mut Context::from_waker(&waker)).is_pending() {
                    scheduler.suspend(id, task);
                }
            }
            Step::Block => panic!("no descriptor can make progress"),
        }
        let signals: Vec<usize> = queue.lock().unwrap().drain(..).collect();
        for token in signals {
            scheduler.schedule(TaskId::from_ptr(token));
        }
    }
}

struct DumbFuture {
    counter: u64,
}

impl Future for DumbFuture {
    type Output = u64;

    fn poll(mut self: Pin<&mut Self>, cx: &mut Context<'_>) -> Poll<Self::Output> {
        println!("counter: {}", self.counter);

        if self.counter > 0 {
            self.counter -= 1;
            cx.waker().wake_by_ref();
            return Poll::Pending;
        }

        Poll::Ready(self.counter)
    }
}

/// Awaits both computations of a `Select`; the first ready one wins.
struct Racing<F1, F2>(Select<F1, F2>);

impl<F1: Future + Unpin, F2: Future + Unpin> Future for Racing<F1, F2> {
    type Output = SelectResult<F1::Output, F2::Output>;

    fn poll(mut self: Pin<&mut Self>, cx: &mut Context<'_>) -> Poll<Self::Output> {
        let this = &mut self.0;
        let first = match Pin::new(&mut this.future1).poll(cx) {
            Poll::Ready(out) => Some(out),
            Poll::Pending => None,
        };
        let second = if first.is_none() {
            match Pin::new(&mut this.future2).poll(cx) {
                Poll::Ready(out) => Some(out),
                Poll::Pending => None,
            }
        } else {
            None
        };
        match select_outcome(first, second) {
            Some(out) => Poll::Ready(out),
            None => Poll::Pending,
        }
    }
}

async fn dumb_future_2() {
    let d1 = DumbFuture { counter: 20 };
    let d2 = DumbFuture { counter: 10 };

    assert!(matches!(Racing(Select::new(d1, d2)).await, SelectResult::Second(_)));
}

#[test]
fn dumb_futures() {
    let scheduler = Scheduler::default();
    assert_eq!(run(scheduler, DumbFuture { counter: 10 }, Vec::new()), 0);

    let scheduler = Scheduler::default();
    run(scheduler, dumb_future_2(), Vec::new());
}

/// Counts down like `DumbFuture`, and counts its polls.
struct CountingFuture {
    counter: u64,
    polls: Rc<Cell<usize>>,
}

impl Future for CountingFuture {
    type Output = u64;

    fn poll(mut self: Pin<&mut Self>, cx: &mut Context<'_>) -> Poll<Self::Output> {
        self.polls.set(self.polls.get() + 1);
        if self.counter > 0 {
            self.counter -= 1;
            cx.waker().wake_by_ref();
            return Poll::Pending;
        }
        Poll::Ready(self.counter)
    }
}

#[test]
fn countdown_is_polled_once_per_self_wake_plus_one() {
    let polls = Rc::new(Cell::new(0));
    let main = CountingFuture { counter: 10, polls: polls.clone() };
    assert_eq!(run(Scheduler::default(), main, Vec::new()), 0);
    assert_eq!(polls.get(), 11);
}

#[test]
fn select_loser_is_dropped_before_reaching_zero() {
    let slow_polls = Rc::new(Cell::new(0));
    let fast_polls = Rc::new(Cell::new(0));
    let slow = CountingFuture { counter: 20, polls: slow_polls.clone() };
    let fast = CountingFuture { counter: 10, polls: fast_polls.clone() };
    let out = run(Scheduler::default(), Racing(Select::new(slow, fast)), Vec::new());
    assert!(matches!(out, SelectResult::Second(0)));
    assert_eq!(fast_polls.get(), 11);
    assert_eq!(slow_polls.get(), 11);
}

#[test]
fn select_first_branch_wins_when_ready() {
    let a = CountingFuture { counter: 0, polls: Rc::new(Cell::new(0)) };
    let b = CountingFuture { counter: 0, polls: Rc::new(Cell::new(0)) };
    let out = run(Scheduler::default(), Racing(Select::new(a, b)), Vec::new());
    assert!(matches!(out, SelectResult::First(0)));
}

#[test]
fn spawned_tasks_run_alongside_main() {
    let polls = Rc::new(Cell::new(0));
    let counted = polls.clone();
    let task: Task = Box::pin(async move {
        let _ = CountingFuture { counter: 3, polls: counted }.await;
    });
    let main = DumbFuture { counter: 10 };
    assert_eq!(run(Scheduler::default(), main, vec![task]), 0);
    assert_eq!(polls.get(), 4);
}
