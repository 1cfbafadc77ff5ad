use cppwatch::event::{make_channel, ExecutorEvent, CHANNEL_CAPACITY};

#[test]
fn channel_starts_empty_with_fixed_capacity() {
    let mut ch = make_channel();
    assert_eq!(ch.len(), 0);
    assert_eq!(ch.capacity, CHANNEL_CAPACITY);
    assert!(ch.recv().is_none());
}

#[test]
fn channel_delivers_in_fifo_order() {
    let mut ch = make_channel();
    ch.try_send(ExecutorEvent::Success(1, Vec::new())).unwrap();
    ch.try_send(ExecutorEvent::Fail(2, Vec::new())).unwrap();
    match ch.recv() {
        Some(ExecutorEvent::Success(id, _)) => assert_eq!(id, 1),
        _ => panic!("first out must be the first in"),
    }
    match ch.recv() {
        Some(ExecutorEvent::Fail(id, _)) => assert_eq!(id, 2),
        _ => panic!("second out must be the second in"),
    }
    assert!(ch.recv().is_none());
}

#[test]
fn channel_overflow_returns_the_outcome() {
    let mut ch = make_channel();
    for i in 0..CHANNEL_CAPACITY {
        assert!(ch.try_send(ExecutorEvent::Success(i as u64, Vec::new())).is_ok());
    }
    assert_eq!(ch.len(), CHANNEL_CAPACITY);
    match ch.try_send(ExecutorEvent::Fail(99, Vec::new())) {
        Err(ExecutorEvent::Fail(id, _)) => assert_eq!(id, 99),
        _ => panic!("a full channel must hand the outcome back"),
    }
    assert_eq!(ch.len(), CHANNEL_CAPACITY);
    match ch.recv() {
        Some(ExecutorEvent::Success(id, _)) => assert_eq!(id, 0),
        _ => panic!("overflow must not disturb queued outcomes"),
    }
}
