use thread_pool::channel::{Dispatch, DispatchChannel};
use thread_pool::worker::{Worker, WorkerState};

#[test]
fn new_worker_waits_under_its_identity() {
    for id in [0usize, 1, 7, 1000] {
        let worker = Worker::new(id);
        assert_eq!(worker.id(), id);
        assert_eq!(worker.state(), WorkerState::Idle);
    }
}

#[test]
fn live_states_are_idle_and_executing() {
    assert!(WorkerState::Idle.is_live());
    assert!(WorkerState::Executing.is_live());
    assert!(!WorkerState::Closed.is_live());
    assert!(!WorkerState::Failed.is_live());
}

#[test]
fn worker_keeps_waiting_on_empty_open_channel() {
    let mut channel: DispatchChannel<u8> = DispatchChannel::new();
    let mut worker = Worker::new(4);
    assert!(matches!(worker.receive(&mut channel), Dispatch::Wait));
    assert_eq!(worker.state(), WorkerState::Idle);
    assert_eq!(worker.id(), 4);
}

#[test]
fn worker_runs_the_head_and_waits_again() {
    let mut channel = DispatchChannel::new();
    channel.push(11u8);
    channel.push(22u8);
    let mut worker = Worker::new(0);
    assert!(matches!(worker.receive(&mut channel), Dispatch::Run(11)));
    assert_eq!(worker.state(), WorkerState::Executing);
    assert_eq!(channel.len(), 1);
    worker.complete();
    assert_eq!(worker.state(), WorkerState::Idle);
    assert!(matches!(worker.receive(&mut channel), Dispatch::Run(22)));
    assert_eq!(worker.state(), WorkerState::Executing);
    assert_eq!(channel.len(), 0);
}

#[test]
fn worker_ends_on_closed_empty_channel() {
    let mut channel: DispatchChannel<u8> = DispatchChannel::new();
    channel.close();
    let mut worker = Worker::new(2);
    assert!(matches!(worker.receive(&mut channel), Dispatch::Stop));
    assert_eq!(worker.state(), WorkerState::Closed);
    assert!(!worker.state().is_live());
}

#[test]
fn worker_ends_on_failed_job() {
    let mut channel = DispatchChannel::new();
    channel.push(1u8);
    channel.push(2u8);
    let mut worker = Worker::new(9);
    assert!(matches!(worker.receive(&mut channel), Dispatch::Run(1)));
    worker.fail();
    assert_eq!(worker.state(), WorkerState::Failed);
    assert_eq!(worker.id(), 9);
    assert_eq!(channel.len(), 1);
}

#[test]
fn two_workers_share_one_channel() {
    let mut channel = DispatchChannel::new();
    for job in 0..4u8 {
        channel.push(job);
    }
    let mut first = Worker::new(0);
    let mut second = Worker::new(1);
    assert!(matches!(first.receive(&mut channel), Dispatch::Run(0)));
    assert!(matches!(second.receive(&mut channel), Dispatch::Run(1)));
    second.complete();
    assert!(matches!(second.receive(&mut channel), Dispatch::Run(2)));
    first.complete();
    second.complete();
    assert!(matches!(first.receive(&mut channel), Dispatch::Run(3)));
    assert!(matches!(second.receive(&mut channel), Dispatch::Wait));
}
