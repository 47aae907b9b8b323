use thread_pool::channel::{Dispatch, DispatchChannel};

#[test]
fn new_channel_is_open_and_empty() {
    let channel: DispatchChannel<u8> = DispatchChannel::new();
    assert!(channel.is_open());
    assert_eq!(channel.len(), 0);
}

#[test]
fn take_on_empty_open_channel_waits() {
    let mut channel: DispatchChannel<u8> = DispatchChannel::new();
    assert!(matches!(channel.take(), Dispatch::Wait));
    assert!(channel.is_open());
    assert_eq!(channel.len(), 0);
}

#[test]
fn take_returns_jobs_in_the_order_of_pushing() {
    let mut channel = DispatchChannel::new();
    for job in [5u32, 3, 9, 3] {
        channel.push(job);
    }
    assert_eq!(channel.len(), 4);
    assert!(matches!(channel.take(), Dispatch::Run(5)));
    assert!(matches!(channel.take(), Dispatch::Run(3)));
    assert_eq!(channel.len(), 2);
    channel.push(1);
    assert!(matches!(channel.take(), Dispatch::Run(9)));
    assert!(matches!(channel.take(), Dispatch::Run(3)));
    assert!(matches!(channel.take(), Dispatch::Run(1)));
    assert!(matches!(channel.take(), Dispatch::Wait));
}

#[test]
fn closed_channel_hands_out_what_is_queued_then_stops() {
    let mut channel = DispatchChannel::new();
    channel.push('a');
    channel.push('b');
    channel.close();
    assert!(!channel.is_open());
    assert_eq!(channel.len(), 2);
    assert!(matches!(channel.take(), Dispatch::Run('a')));
    assert!(matches!(channel.take(), Dispatch::Run('b')));
    assert!(matches!(channel.take(), Dispatch::Stop));
    assert!(matches!(channel.take(), Dispatch::Stop));
    assert_eq!(channel.len(), 0);
}

#[test]
fn channel_holds_many_jobs() {
    let mut channel = DispatchChannel::new();
    for job in 0..10_000u32 {
        channel.push(job);
    }
    assert_eq!(channel.len(), 10_000);
    for job in 0..10_000u32 {
        match channel.take() {
            Dispatch::Run(got) => assert_eq!(got, job),
            _ => panic!("job {} was not handed out", job),
        }
    }
    assert!(matches!(channel.take(), Dispatch::Wait));
}
