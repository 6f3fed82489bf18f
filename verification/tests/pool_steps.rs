use hello::message::Message;
use hello::pool::ThreadPool;
use hello::queue::{Closed, JobQueue};
use hello::worker::{Action, Worker};
use std::cell::{Cell, RefCell};
use std::collections::HashSet;
use std::rc::Rc;

type Job = Box<dyn FnOnce()>;

/// Lets the workers take turns, in the order of their numbers, until none of
/// them gets anything to do, and runs each job that is handed out.
fn drain<H>(pool: &mut ThreadPool<Job, H>) {
    loop {
        let mut idle = true;
        for id in 0..pool.size() {
            if pool.is_stopped(id) {
                continue;
            }
            match pool.receive(id) {
                Some(Action::Run(job)) => {
                    job();
                    idle = false;
                }
                Some(Action::Exit) => idle = false,
                None => {}
            }
        }
        if idle {
            break;
        }
    }
}

fn counting(counter: &Rc<Cell<usize>>) -> Job {
    let counter = Rc::clone(counter);
    Box::new(move || counter.set(counter.get() + 1))
}

#[test]
fn new_pool_has_all_workers_running() {
    for size in 1..=5usize {
        let pool: ThreadPool<u32, ()> = ThreadPool::new(size);
        assert_eq!(pool.size(), size);
        assert_eq!(pool.running(), size);
        assert_eq!(pool.pending(), 0);
        assert!(!pool.is_closed());
        for id in 0..size {
            assert!(!pool.is_stopped(id));
        }
    }
}

#[test]
fn new_pool_is_ready_for_work() {
    for id in 0..3usize {
        let mut pool: ThreadPool<u32, ()> = ThreadPool::new(3);
        assert!(pool.receive(id).is_none());
        pool.execute(7);
        assert!(matches!(pool.receive(id), Some(Action::Run(7))));
        assert_eq!(pool.pending(), 0);
        assert_eq!(pool.running(), 3);
    }
}

#[test]
fn ten_jobs_on_two_workers_are_all_counted() {
    let counter = Rc::new(Cell::new(0usize));
    let mut pool: ThreadPool<Job, ()> = ThreadPool::new(2);
    for _ in 0..10 {
        pool.execute(counting(&counter));
    }
    assert_eq!(pool.pending(), 10);
    let handles = pool.shutdown();
    assert!(handles.is_empty());
    assert_eq!(pool.pending(), 12);
    drain(&mut pool);
    assert_eq!(counter.get(), 10);
    assert_eq!(pool.running(), 0);
    assert!(pool.is_stopped(0));
    assert!(pool.is_stopped(1));
    assert_eq!(pool.pending(), 0);
}

#[test]
fn job_submitted_before_shutdown_is_run() {
    let done = Rc::new(Cell::new(false));
    let flag = Rc::clone(&done);
    let mut pool: ThreadPool<Job, ()> = ThreadPool::new(1);
    pool.execute(Box::new(move || flag.set(true)));
    pool.shutdown();
    match pool.receive(0) {
        Some(Action::Run(job)) => job(),
        _ => panic!("the job comes before the signal to terminate"),
    }
    assert!(done.get());
    assert!(!pool.is_stopped(0));
    assert!(matches!(pool.receive(0), Some(Action::Exit)));
    assert!(pool.is_stopped(0));
    assert_eq!(pool.running(), 0);
}

#[test]
fn empty_pool_shuts_down_cleanly() {
    let mut pool: ThreadPool<Job, ()> = ThreadPool::new(3);
    pool.shutdown();
    assert!(pool.is_closed());
    assert_eq!(pool.pending(), 3);
    assert_eq!(pool.running(), 3);
    drain(&mut pool);
    assert_eq!(pool.running(), 0);
    assert_eq!(pool.pending(), 0);
}

#[test]
fn jobs_are_counted_for_any_number_of_them() {
    for size in 1..=4usize {
        for jobs in 0..=9usize {
            let counter = Rc::new(Cell::new(0usize));
            let mut pool: ThreadPool<Job, ()> = ThreadPool::new(size);
            for _ in 0..jobs {
                pool.execute(counting(&counter));
            }
            pool.shutdown();
            drain(&mut pool);
            assert_eq!(counter.get(), jobs);
            assert_eq!(pool.running(), 0);
        }
    }
}

#[test]
fn jobs_leave_in_the_order_of_submission() {
    let mut pool: ThreadPool<u32, ()> = ThreadPool::new(3);
    for job in 0..6u32 {
        pool.execute(job);
    }
    let mut seen = Vec::new();
    for turn in 0..6usize {
        match pool.receive((turn * 2) % 3) {
            Some(Action::Run(job)) => seen.push(job),
            _ => panic!("six jobs wait"),
        }
    }
    assert_eq!(seen, vec![0, 1, 2, 3, 4, 5]);
    assert!(pool.receive(0).is_none());
}

#[test]
fn each_job_is_handed_out_once() {
    let mut pool: ThreadPool<u32, ()> = ThreadPool::new(2);
    pool.execute(1);
    pool.execute(2);
    assert!(matches!(pool.receive(1), Some(Action::Run(1))));
    assert!(matches!(pool.receive(0), Some(Action::Run(2))));
    assert!(pool.receive(0).is_none());
    assert!(pool.receive(1).is_none());
    pool.shutdown();
    assert!(matches!(pool.receive(0), Some(Action::Exit)));
    assert!(matches!(pool.receive(1), Some(Action::Exit)));
    assert_eq!(pool.pending(), 0);
}

#[test]
fn jobs_interleaved_with_turns_are_all_run() {
    let mut pool: ThreadPool<u32, ()> = ThreadPool::new(2);
    let mut seen = Vec::new();
    pool.execute(10);
    if let Some(Action::Run(job)) = pool.receive(1) {
        seen.push(job);
    }
    pool.execute(20);
    pool.execute(30);
    if let Some(Action::Run(job)) = pool.receive(1) {
        seen.push(job);
    }
    pool.shutdown();
    for _ in 0..4 {
        for id in 0..2 {
            if let Some(Action::Run(job)) = pool.receive(id) {
                seen.push(job);
            }
        }
    }
    assert_eq!(seen, vec![10, 20, 30]);
    assert_eq!(pool.running(), 0);
}

#[test]
fn markers_of_two_submitters_are_seen_once_each() {
    let seen = Rc::new(RefCell::new(Vec::new()));
    let mut pool: ThreadPool<Job, ()> = ThreadPool::new(3);
    for n in 0..20usize {
        for side in 0..2usize {
            let seen = Rc::clone(&seen);
            let marker = side * 1000 + n;
            pool.execute(Box::new(move || seen.borrow_mut().push(marker)));
        }
        if n % 3 == 0 {
            if let Some(Action::Run(job)) = pool.receive(n % 3) {
                job();
            }
        }
    }
    pool.shutdown();
    drain(&mut pool);
    let seen = seen.borrow();
    assert_eq!(seen.len(), 40);
    let distinct: HashSet<usize> = seen.iter().copied().collect();
    assert_eq!(distinct.len(), 40);
    assert_eq!(pool.running(), 0);
}

#[test]
fn shutdown_takes_as_many_turns_as_messages_wait() {
    let mut pool: ThreadPool<u32, ()> = ThreadPool::new(3);
    for job in 0..4u32 {
        pool.execute(job);
    }
    pool.shutdown();
    let mut turns = 0usize;
    while pool.running() > 0 {
        let id = (0..3usize).rev().find(|&id| !pool.is_stopped(id)).unwrap();
        let waiting = pool.pending();
        assert!(pool.receive(id).is_some());
        assert_eq!(pool.pending(), waiting - 1);
        turns += 1;
    }
    assert_eq!(turns, 7);
    assert_eq!(pool.pending(), 0);
}

#[test]
fn each_worker_takes_one_signal() {
    let mut pool: ThreadPool<u32, ()> = ThreadPool::new(3);
    pool.shutdown();
    assert!(matches!(pool.receive(1), Some(Action::Exit)));
    assert_eq!(pool.pending(), 2);
    assert_eq!(pool.running(), 2);
    assert!(matches!(pool.receive(1), Some(Action::Exit)));
    assert_eq!(pool.pending(), 2);
    assert_eq!(pool.running(), 2);
    assert!(matches!(pool.receive(0), Some(Action::Exit)));
    assert!(matches!(pool.receive(2), Some(Action::Exit)));
    assert_eq!(pool.pending(), 0);
    assert_eq!(pool.running(), 0);
}

#[test]
fn worker_that_never_comes_back_leaves_its_signal() {
    let mut pool: ThreadPool<u32, ()> = ThreadPool::new(2);
    pool.execute(1);
    pool.shutdown();
    assert!(matches!(pool.receive(0), Some(Action::Run(1))));
    assert!(matches!(pool.receive(1), Some(Action::Exit)));
    assert!(!pool.is_stopped(0));
    assert_eq!(pool.running(), 1);
    assert_eq!(pool.pending(), 1);
}

#[test]
fn shutdown_hands_out_the_handles_in_order() {
    let mut pool: ThreadPool<u32, &str> = ThreadPool::new(3);
    assert_eq!(pool.attach(2, "c"), None);
    assert_eq!(pool.attach(0, "a"), None);
    assert_eq!(pool.attach(1, "x"), None);
    assert_eq!(pool.attach(1, "b"), Some("x"));
    assert_eq!(pool.shutdown(), vec![(0, "a"), (1, "b"), (2, "c")]);
    assert_eq!(pool.pending(), 3);
}

#[test]
fn pool_numbers_its_workers() {
    let mut pool: ThreadPool<u32, char> = ThreadPool::new(3);
    pool.attach(1, 'b');
    for id in 0..3usize {
        assert_eq!(pool.worker(id).id(), id);
        assert!(!pool.worker(id).is_stopped());
        assert_eq!(pool.worker(id).has_thread(), id == 1);
    }
    pool.shutdown();
    assert!(matches!(pool.receive(2), Some(Action::Exit)));
    assert!(pool.worker(2).is_stopped());
    assert!(!pool.worker(1).is_stopped());
    assert!(!pool.worker(1).has_thread());
}

#[test]
fn shutdown_skips_workers_without_handle() {
    let mut pool: ThreadPool<u32, u8> = ThreadPool::new(4);
    pool.attach(3, 30);
    pool.attach(1, 10);
    assert_eq!(pool.shutdown(), vec![(1, 10), (3, 30)]);
}

#[test]
fn second_shutdown_changes_nothing() {
    let mut pool: ThreadPool<u32, u8> = ThreadPool::new(2);
    pool.attach(0, 1);
    pool.attach(1, 2);
    pool.execute(5);
    assert_eq!(pool.shutdown(), vec![(0, 1), (1, 2)]);
    assert_eq!(pool.pending(), 3);
    assert_eq!(pool.shutdown(), Vec::<(usize, u8)>::new());
    assert_eq!(pool.pending(), 3);
    assert!(pool.is_closed());
}

#[test]
fn queue_is_first_in_first_out() {
    let mut queue: JobQueue<u8> = JobQueue::new();
    assert!(queue.is_empty());
    assert!(queue.dequeue().is_none());
    assert!(queue.enqueue(Message::Job(1)).is_ok());
    assert!(queue.enqueue(Message::Terminate).is_ok());
    assert!(queue.enqueue(Message::Job(2)).is_ok());
    assert_eq!(queue.len(), 3);
    assert!(matches!(queue.dequeue(), Some(Message::Job(1))));
    assert!(matches!(queue.dequeue(), Some(Message::Terminate)));
    assert!(matches!(queue.dequeue(), Some(Message::Job(2))));
    assert!(queue.dequeue().is_none());
    assert!(queue.is_empty());
}

#[test]
fn closed_queue_refuses_and_still_drains() {
    let mut queue: JobQueue<u8> = JobQueue::new();
    assert!(queue.enqueue(Message::Job(1)).is_ok());
    assert!(!queue.is_closed());
    queue.close();
    assert!(queue.is_closed());
    assert!(matches!(queue.enqueue(Message::Job(2)), Err(Closed(Message::Job(2)))));
    assert!(matches!(queue.enqueue(Message::Terminate), Err(Closed(Message::Terminate))));
    assert_eq!(queue.len(), 1);
    assert!(matches!(queue.dequeue(), Some(Message::Job(1))));
    assert!(queue.dequeue().is_none());
}

#[test]
fn worker_runs_until_told_to_terminate() {
    let mut worker: Worker<u8> = Worker::new(4);
    assert_eq!(worker.id(), 4);
    assert!(!worker.is_stopped());
    assert!(matches!(worker.handle(Message::Job("a")), Action::Run("a")));
    assert!(!worker.is_stopped());
    assert!(matches!(worker.handle(Message::Job("b")), Action::Run("b")));
    assert!(!worker.is_stopped());
    assert!(matches!(worker.handle(Message::<&str>::Terminate), Action::Exit));
    assert!(worker.is_stopped());
    assert_eq!(worker.id(), 4);
}

#[test]
fn worker_gives_its_handle_away_once() {
    let mut worker: Worker<u8> = Worker::new(0);
    assert!(!worker.has_thread());
    assert_eq!(worker.take_thread(), None);
    assert_eq!(worker.attach(9), None);
    assert!(worker.has_thread());
    assert_eq!(worker.take_thread(), Some(9));
    assert!(!worker.has_thread());
    assert_eq!(worker.take_thread(), None);
}
