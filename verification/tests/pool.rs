use std::cell::{Cell, RefCell};
use std::rc::Rc;

use thread_pool::{Dispatch, PoolCreationError, ThreadPool, WorkerState};

type Job = Box<dyn FnOnce()>;

fn built(size: usize) -> ThreadPool<Job> {
    match ThreadPool::build(size) {
        Ok(pool) => pool,
        Err(_) => panic!("a pool of {} workers was refused", size),
    }
}

/// Lets the worker `id` take one job and run it to its end. Says whether
/// there was a job.
fn serve_one(pool: &mut ThreadPool<Job>, id: usize) -> bool {
    match pool.next_job(id) {
        Dispatch::Run(job) => {
            job();
            pool.job_done(id);
            true
        }
        Dispatch::Wait => false,
        Dispatch::Stop => false,
    }
}

fn counting_job(counter: &Rc<Cell<usize>>) -> Job {
    let counter = Rc::clone(counter);
    Box::new(move || counter.set(counter.get() + 1))
}

fn logging_job(log: &Rc<RefCell<Vec<usize>>>, index: usize) -> Job {
    let log = Rc::clone(log);
    Box::new(move || log.borrow_mut().push(index))
}

#[test]
fn build_refuses_zero_workers() {
    match ThreadPool::<Job>::build(0) {
        Ok(_) => panic!("a pool of no workers was built"),
        Err(PoolCreationError::InvalidSize(message)) => {
            assert_eq!(message, "ThreadPool cannot be zero.");
        }
    }
}

#[test]
fn refusal_carries_its_message() {
    let err = match ThreadPool::<Job>::build(0) {
        Ok(_) => panic!("a pool of no workers was built"),
        Err(err) => err,
    };
    assert_eq!(err.message(), "ThreadPool cannot be zero.");
    assert_eq!(format!("{:?}", err), "InvalidSize(\"ThreadPool cannot be zero.\")");
}

#[test]
fn build_gives_one_waiting_worker() {
    let pool = built(1);
    assert_eq!(pool.size(), 1);
    assert_eq!(pool.live_workers(), 1);
    assert_eq!(pool.worker_state(0), Some(WorkerState::Idle));
    assert_eq!(pool.worker_state(1), None);
}

#[test]
fn build_gives_as_many_live_workers_as_asked() {
    for size in 1..=16 {
        let pool = built(size);
        assert_eq!(pool.size(), size);
        assert_eq!(pool.live_workers(), size);
        assert_eq!(pool.count(WorkerState::Idle), size);
        assert_eq!(pool.count(WorkerState::Executing), 0);
        assert_eq!(pool.count(WorkerState::Closed), 0);
        assert_eq!(pool.count(WorkerState::Failed), 0);
        assert_eq!(pool.in_flight(), 0);
        assert_eq!(pool.queued(), 0);
        assert!(pool.is_open());
        for id in 0..size {
            assert_eq!(pool.worker_state(id), Some(WorkerState::Idle));
        }
        assert_eq!(pool.worker_state(size), None);
    }
}

#[test]
fn execute_queues_without_running() {
    let counter = Rc::new(Cell::new(0));
    let mut pool = built(2);
    pool.execute(counting_job(&counter));
    pool.execute(counting_job(&counter));
    pool.execute(counting_job(&counter));
    assert_eq!(pool.queued(), 3);
    assert_eq!(pool.in_flight(), 0);
    assert_eq!(pool.live_workers(), 2);
    assert_eq!(counter.get(), 0);
}

#[test]
fn waiting_worker_is_told_to_wait_on_empty_queue() {
    let mut pool = built(2);
    assert!(matches!(pool.next_job(0), Dispatch::Wait));
    assert!(matches!(pool.next_job(1), Dispatch::Wait));
    assert_eq!(pool.worker_state(0), Some(WorkerState::Idle));
    assert_eq!(pool.worker_state(1), Some(WorkerState::Idle));
    assert_eq!(pool.live_workers(), 2);
}

#[test]
fn taking_a_job_makes_the_worker_execute() {
    let counter = Rc::new(Cell::new(0));
    let mut pool = built(3);
    pool.execute(counting_job(&counter));
    let job = match pool.next_job(1) {
        Dispatch::Run(job) => job,
        _ => panic!("the queued job was not handed out"),
    };
    assert_eq!(pool.worker_state(0), Some(WorkerState::Idle));
    assert_eq!(pool.worker_state(1), Some(WorkerState::Executing));
    assert_eq!(pool.worker_state(2), Some(WorkerState::Idle));
    assert_eq!(pool.in_flight(), 1);
    assert_eq!(pool.queued(), 0);
    assert_eq!(counter.get(), 0);
    job();
    pool.job_done(1);
    assert_eq!(counter.get(), 1);
    assert_eq!(pool.worker_state(1), Some(WorkerState::Idle));
    assert_eq!(pool.in_flight(), 0);
    assert_eq!(pool.live_workers(), 3);
}

#[test]
fn every_job_runs_exactly_once() {
    for size in 1..=5 {
        for jobs in [0usize, 1, 2, 7, 40] {
            let counter = Rc::new(Cell::new(0));
            let mut pool = built(size);
            for _ in 0..jobs {
                pool.execute(counting_job(&counter));
            }
            let mut id = 0;
            while pool.queued() > 0 {
                assert!(serve_one(&mut pool, id));
                id = (id + 1) % size;
            }
            assert_eq!(counter.get(), jobs);
            assert_eq!(pool.in_flight(), 0);
            assert_eq!(pool.live_workers(), size);
            for id in 0..size {
                assert!(!serve_one(&mut pool, id));
            }
            assert_eq!(counter.get(), jobs);
        }
    }
}

#[test]
fn single_worker_runs_jobs_in_submission_order() {
    let log = Rc::new(RefCell::new(Vec::new()));
    let mut pool = built(1);
    for index in 0..25 {
        pool.execute(logging_job(&log, index));
    }
    while serve_one(&mut pool, 0) {}
    let expected: Vec<usize> = (0..25).collect();
    assert_eq!(*log.borrow(), expected);
    assert_eq!(pool.queued(), 0);
}

#[test]
fn single_worker_keeps_order_across_interleaved_submissions() {
    let log = Rc::new(RefCell::new(Vec::new()));
    let mut pool = built(1);
    pool.execute(logging_job(&log, 0));
    pool.execute(logging_job(&log, 1));
    assert!(serve_one(&mut pool, 0));
    pool.execute(logging_job(&log, 2));
    assert!(serve_one(&mut pool, 0));
    pool.execute(logging_job(&log, 3));
    while serve_one(&mut pool, 0) {}
    assert_eq!(*log.borrow(), vec![0, 1, 2, 3]);
}

#[test]
fn jobs_are_handed_out_oldest_first_to_whoever_asks() {
    let log = Rc::new(RefCell::new(Vec::new()));
    let mut pool = built(3);
    for index in 0..6 {
        pool.execute(logging_job(&log, index));
    }
    for id in [2usize, 0, 1, 1, 2, 0] {
        assert!(serve_one(&mut pool, id));
    }
    assert_eq!(*log.borrow(), vec![0, 1, 2, 3, 4, 5]);
}

#[test]
fn all_workers_run_at_once_and_no_more() {
    for size in 2..=6 {
        let counter = Rc::new(Cell::new(0));
        let mut pool = built(size);
        for _ in 0..size + 1 {
            pool.execute(counting_job(&counter));
        }
        let mut held = Vec::new();
        for id in 0..size {
            match pool.next_job(id) {
                Dispatch::Run(job) => held.push(job),
                _ => panic!("worker {} got no job", id),
            }
            assert_eq!(pool.in_flight(), id + 1);
        }
        assert!(pool.in_flight() >= 2);
        assert_eq!(pool.in_flight(), size);
        assert_eq!(pool.count(WorkerState::Idle), 0);
        assert_eq!(pool.queued(), 1);
        assert_eq!(counter.get(), 0);
        for (id, job) in held.into_iter().enumerate() {
            job();
            pool.job_done(id);
        }
        assert_eq!(counter.get(), size);
        assert_eq!(pool.in_flight(), 0);
        assert!(serve_one(&mut pool, 0));
        assert_eq!(counter.get(), size + 1);
    }
}

#[test]
fn failed_job_ends_its_worker_only() {
    let counter = Rc::new(Cell::new(0));
    let mut pool = built(3);
    for _ in 0..6 {
        pool.execute(counting_job(&counter));
    }
    let failing = match pool.next_job(1) {
        Dispatch::Run(job) => job,
        _ => panic!("worker 1 got no job"),
    };
    drop(failing);
    pool.job_failed(1);
    assert_eq!(pool.worker_state(1), Some(WorkerState::Failed));
    assert_eq!(pool.count(WorkerState::Failed), 1);
    assert_eq!(pool.live_workers(), 2);
    assert_eq!(pool.in_flight(), 0);
    assert_eq!(pool.queued(), 5);
    let mut id = 0;
    while pool.queued() > 0 {
        assert!(serve_one(&mut pool, id));
        id = if id == 0 { 2 } else { 0 };
    }
    assert_eq!(counter.get(), 5);
    assert_eq!(pool.worker_state(0), Some(WorkerState::Idle));
    assert_eq!(pool.worker_state(1), Some(WorkerState::Failed));
    assert_eq!(pool.worker_state(2), Some(WorkerState::Idle));
}

#[test]
fn pool_with_a_survivor_still_accepts_jobs() {
    let counter = Rc::new(Cell::new(0));
    let mut pool = built(2);
    pool.execute(counting_job(&counter));
    match pool.next_job(0) {
        Dispatch::Run(job) => drop(job),
        _ => panic!("worker 0 got no job"),
    }
    pool.job_failed(0);
    assert_eq!(pool.live_workers(), 1);
    assert!(pool.is_open());
    pool.execute(counting_job(&counter));
    pool.execute(counting_job(&counter));
    while serve_one(&mut pool, 1) {}
    assert_eq!(counter.get(), 2);
}

#[test]
fn release_lets_workers_take_what_is_queued_and_then_end() {
    let log = Rc::new(RefCell::new(Vec::new()));
    let mut pool = built(2);
    for index in 0..3 {
        pool.execute(logging_job(&log, index));
    }
    pool.release();
    assert!(!pool.is_open());
    assert_eq!(pool.queued(), 3);
    assert_eq!(pool.live_workers(), 2);
    assert!(serve_one(&mut pool, 0));
    assert!(serve_one(&mut pool, 1));
    assert!(serve_one(&mut pool, 0));
    assert_eq!(*log.borrow(), vec![0, 1, 2]);
    assert!(matches!(pool.next_job(0), Dispatch::Stop));
    assert_eq!(pool.worker_state(0), Some(WorkerState::Closed));
    assert_eq!(pool.worker_state(1), Some(WorkerState::Idle));
    assert_eq!(pool.live_workers(), 1);
    assert!(matches!(pool.next_job(1), Dispatch::Stop));
    assert_eq!(pool.worker_state(1), Some(WorkerState::Closed));
    assert_eq!(pool.count(WorkerState::Closed), 2);
    assert_eq!(pool.live_workers(), 0);
}

#[test]
fn release_of_idle_pool_ends_every_worker_at_its_next_turn() {
    let mut pool = built(4);
    assert!(matches!(pool.next_job(2), Dispatch::Wait));
    pool.release();
    for id in 0..4 {
        assert!(matches!(pool.next_job(id), Dispatch::Stop));
        assert_eq!(pool.worker_state(id), Some(WorkerState::Closed));
    }
    assert_eq!(pool.live_workers(), 0);
}

#[test]
fn release_does_not_stop_a_running_job() {
    let counter = Rc::new(Cell::new(0));
    let mut pool = built(1);
    pool.execute(counting_job(&counter));
    let job = match pool.next_job(0) {
        Dispatch::Run(job) => job,
        _ => panic!("worker 0 got no job"),
    };
    pool.release();
    assert_eq!(pool.worker_state(0), Some(WorkerState::Executing));
    assert_eq!(pool.in_flight(), 1);
    job();
    pool.job_done(0);
    assert_eq!(counter.get(), 1);
    assert!(matches!(pool.next_job(0), Dispatch::Stop));
}

#[test]
fn released_pool_without_workers_never_runs_what_is_queued() {
    let counter = Rc::new(Cell::new(0));
    let mut pool = built(2);
    for _ in 0..5 {
        pool.execute(counting_job(&counter));
    }
    for id in 0..2 {
        match pool.next_job(id) {
            Dispatch::Run(job) => drop(job),
            _ => panic!("worker {} got no job", id),
        }
        pool.job_failed(id);
    }
    pool.release();
    assert_eq!(pool.live_workers(), 0);
    assert_eq!(pool.count(WorkerState::Failed), 2);
    assert_eq!(pool.queued(), 3);
    assert_eq!(pool.in_flight(), 0);
    assert_eq!(counter.get(), 0);
    drop(pool);
    assert_eq!(counter.get(), 0);
    assert_eq!(Rc::strong_count(&counter), 1);
}

#[test]
fn release_twice_changes_nothing_more() {
    let mut pool = built(1);
    pool.execute(Box::new(|| {}));
    pool.release();
    pool.release();
    assert!(!pool.is_open());
    assert_eq!(pool.queued(), 1);
    assert_eq!(pool.live_workers(), 1);
}

#[test]
fn pool_takes_jobs_that_are_plain_values() {
    let mut pool: ThreadPool<u32> = match ThreadPool::build(2) {
        Ok(pool) => pool,
        Err(_) => panic!("a pool of 2 workers was refused"),
    };
    pool.execute(10);
    pool.execute(20);
    pool.execute(30);
    assert!(matches!(pool.next_job(1), Dispatch::Run(10)));
    assert!(matches!(pool.next_job(0), Dispatch::Run(20)));
    pool.job_done(1);
    assert!(matches!(pool.next_job(1), Dispatch::Run(30)));
    pool.job_done(0);
    assert!(matches!(pool.next_job(0), Dispatch::Wait));
    assert_eq!(pool.in_flight(), 1);
}

#[test]
fn build_gives_a_large_pool() {
    let mut pool = built(1000);
    assert_eq!(pool.size(), 1000);
    assert_eq!(pool.live_workers(), 1000);
    assert_eq!(pool.worker_state(999), Some(WorkerState::Idle));
    assert_eq!(pool.worker_state(1000), None);
    assert!(matches!(pool.next_job(999), Dispatch::Wait));
}

#[test]
fn single_worker_that_fails_leaves_the_rest_queued() {
    let log = Rc::new(RefCell::new(Vec::new()));
    let mut pool = built(1);
    for index in 0..4 {
        pool.execute(logging_job(&log, index));
    }
    assert!(serve_one(&mut pool, 0));
    match pool.next_job(0) {
        Dispatch::Run(job) => drop(job),
        _ => panic!("worker 0 got no job"),
    }
    pool.job_failed(0);
    assert_eq!(*log.borrow(), vec![0]);
    assert_eq!(pool.worker_state(0), Some(WorkerState::Failed));
    assert_eq!(pool.live_workers(), 0);
    assert_eq!(pool.in_flight(), 0);
    assert_eq!(pool.queued(), 2);
    assert!(pool.is_open());
}
