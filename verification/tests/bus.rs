use kodama_core::frame::{Channel, Frame, FrameFlags, SourceId};
use kodama_core::router::{BusError, Received, Router};

fn frame(source: u64, n: u64) -> Frame {
    Frame {
        source: SourceId(source),
        channel: Channel::Video,
        flags: if n % 5 == 0 { FrameFlags::keyframe() } else { FrameFlags::default() },
        timestamp_us: n * 1000,
        payload: vec![n as u8, (n >> 8) as u8, 0xAB],
    }
}

#[test]
fn zero_capacity_is_refused() {
    assert!(matches!(Router::new(0), Err(BusError::ZeroCapacity)));
    assert!(Router::new(1).is_ok());
}

#[test]
fn new_bus_is_empty_and_open() {
    let router = Router::new(4).unwrap();
    assert_eq!(router.capacity(), 4);
    assert_eq!(router.published(), 0);
    assert!(!router.is_closed());
    let mut sub = router.subscribe();
    assert_eq!(sub.position(), 0);
    assert_eq!(router.recv(&mut sub), Received::Empty);
}

#[test]
fn subscriber_that_keeps_up_receives_every_frame_in_order() {
    let mut router = Router::new(4).unwrap();
    let mut sub = router.subscribe();
    let mut got = Vec::new();
    for n in 0..20u64 {
        router.publish(frame(1, n)).unwrap();
        assert!(router.backlog(&sub) <= 4);
        if n % 3 == 2 {
            loop {
                match router.recv(&mut sub) {
                    Received::Frame(f) => got.push(f),
                    Received::Empty => break,
                    other => panic!("unexpected {:?}", other),
                }
            }
        }
    }
    loop {
        match router.recv(&mut sub) {
            Received::Frame(f) => got.push(f),
            Received::Empty => break,
            other => panic!("unexpected {:?}", other),
        }
    }
    assert_eq!(got.len(), 20);
    for n in 0..20u64 {
        assert_eq!(got[n as usize], frame(1, n));
    }
    assert_eq!(router.backlog(&sub), 0);
}

#[test]
fn stalled_subscriber_sees_lag_of_six_then_frames_seven_to_ten() {
    let mut router = Router::new(4).unwrap();
    let mut sub = router.subscribe();
    for n in 1..=10u64 {
        assert_eq!(router.publish(frame(0xA, n)), Ok(()));
    }
    assert_eq!(router.backlog(&sub), 10);
    assert_eq!(router.recv(&mut sub), Received::Lagged(6));
    assert_eq!(router.recv(&mut sub), Received::Frame(frame(0xA, 7)));
    assert_eq!(router.recv(&mut sub), Received::Frame(frame(0xA, 8)));
    assert_eq!(router.recv(&mut sub), Received::Frame(frame(0xA, 9)));
    assert_eq!(router.recv(&mut sub), Received::Frame(frame(0xA, 10)));
    assert_eq!(router.recv(&mut sub), Received::Empty);
    assert_eq!(sub.position(), 10);
}

#[test]
fn backlog_of_exactly_the_capacity_is_no_lag() {
    let mut router = Router::new(4).unwrap();
    let mut sub = router.subscribe();
    for n in 0..4u64 {
        router.publish(frame(1, n)).unwrap();
    }
    assert_eq!(router.backlog(&sub), 4);
    assert_eq!(router.recv(&mut sub), Received::Frame(frame(1, 0)));
    router.publish(frame(1, 4)).unwrap();
    router.publish(frame(1, 5)).unwrap();
    assert_eq!(router.recv(&mut sub), Received::Lagged(1));
    assert_eq!(router.recv(&mut sub), Received::Frame(frame(1, 2)));
}

#[test]
fn capacity_is_not_rounded_up() {
    let mut router = Router::new(3).unwrap();
    let mut sub = router.subscribe();
    for n in 0..4u64 {
        router.publish(frame(1, n)).unwrap();
    }
    assert_eq!(router.recv(&mut sub), Received::Lagged(1));
    assert_eq!(router.recv(&mut sub), Received::Frame(frame(1, 1)));
}

#[test]
fn subscribers_have_independent_cursors() {
    let mut router = Router::new(8).unwrap();
    let mut early = router.subscribe();
    router.publish(frame(1, 0)).unwrap();
    router.publish(frame(2, 1)).unwrap();
    let mut late = router.subscribe();
    router.publish(frame(1, 2)).unwrap();
    assert_eq!(router.recv(&mut late), Received::Frame(frame(1, 2)));
    assert_eq!(router.recv(&mut late), Received::Empty);
    assert_eq!(router.recv(&mut early), Received::Frame(frame(1, 0)));
    assert_eq!(router.recv(&mut early), Received::Frame(frame(2, 1)));
    assert_eq!(router.recv(&mut early), Received::Frame(frame(1, 2)));
    assert_eq!(router.recv(&mut early), Received::Empty);
}

#[test]
fn slow_subscriber_does_not_hold_back_a_fast_one() {
    let mut router = Router::new(2).unwrap();
    let mut slow = router.subscribe();
    let mut fast = router.subscribe();
    for n in 0..6u64 {
        assert_eq!(router.publish(frame(1, n)), Ok(()));
        assert_eq!(router.recv(&mut fast), Received::Frame(frame(1, n)));
    }
    assert_eq!(router.recv(&mut slow), Received::Lagged(4));
    assert_eq!(router.recv(&mut slow), Received::Frame(frame(1, 4)));
    assert_eq!(router.recv(&mut slow), Received::Frame(frame(1, 5)));
    assert_eq!(router.recv(&mut slow), Received::Empty);
}

#[test]
fn closed_bus_drains_then_reports_closed() {
    let mut router = Router::new(4).unwrap();
    let mut sub = router.subscribe();
    router.publish(frame(1, 0)).unwrap();
    router.close();
    assert!(router.is_closed());
    assert_eq!(router.publish(frame(1, 1)), Err(BusError::Closed));
    assert_eq!(router.published(), 1);
    assert_eq!(router.recv(&mut sub), Received::Frame(frame(1, 0)));
    assert_eq!(router.recv(&mut sub), Received::Closed);
    assert_eq!(router.recv(&mut sub), Received::Closed);
}

#[test]
fn ingress_tags_frames_with_the_connection_source() {
    let mut router = Router::new(4).unwrap();
    let mut sub = router.subscribe();
    let claimed = frame(999, 3);
    router.publish_from(SourceId(42), claimed.clone()).unwrap();
    let mut expected = claimed;
    expected.source = SourceId(42);
    assert_eq!(router.recv(&mut sub), Received::Frame(expected));
}

#[test]
fn foreign_cursor_ahead_of_the_bus_reads_nothing() {
    let mut busy = Router::new(4).unwrap();
    for n in 0..3u64 {
        busy.publish(frame(1, n)).unwrap();
    }
    let mut sub = busy.subscribe();
    let quiet = Router::new(4).unwrap();
    assert_eq!(quiet.backlog(&sub), 0);
    assert_eq!(quiet.recv(&mut sub), Received::Empty);
    assert_eq!(sub.position(), 3);
}
