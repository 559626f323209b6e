use kodama_core::fanout::{
    settle, BusEvent, Delivery, DrainStep, FanOut, LaneCounters, Offer, QUEUE_CAPACITY,
};
use kodama_core::frame::{Channel, Frame, FrameFlags, SourceId};

fn frame(source: u64, n: u64) -> Frame {
    Frame {
        source: SourceId(source),
        channel: Channel::Video,
        flags: FrameFlags::default(),
        timestamp_us: n,
        payload: vec![n as u8; 3],
    }
}

#[test]
fn queue_capacity_is_256() {
    assert_eq!(QUEUE_CAPACITY, 256);
}

#[test]
fn first_frame_of_a_camera_opens_its_queue() {
    let mut fan = FanOut::new();
    assert!(!fan.has_source(7));
    assert_eq!(fan.lane_counters(7), None);
    let first = fan.route(frame(7, 0));
    assert_eq!(first.delivery, Delivery::Queued);
    let mut rx = first.opened.expect("a new queue");
    assert_eq!(rx.max_capacity(), 256);
    assert!(fan.has_source(7));
    let second = fan.route(frame(7, 1));
    assert_eq!(second.delivery, Delivery::Queued);
    assert!(second.opened.is_none());
    assert_eq!(fan.lane_counters(7), Some(LaneCounters { queued: 2, dropped: 0 }));
    assert_eq!(rx.try_recv().unwrap(), frame(7, 0));
    assert_eq!(rx.try_recv().unwrap(), frame(7, 1));
    assert!(rx.try_recv().is_err());
}

#[test]
fn full_queue_drops_for_that_camera_only() {
    let mut fan = FanOut::new();
    let opened_a = fan.route(frame(1, 0));
    let mut rx_a = opened_a.opened.unwrap();
    let opened_b = fan.route(frame(2, 0));
    let mut rx_b = opened_b.opened.unwrap();
    for n in 1..256u64 {
        assert_eq!(fan.route(frame(1, n)).delivery, Delivery::Queued);
    }
    assert_eq!(fan.lane_counters(1), Some(LaneCounters { queued: 256, dropped: 0 }));
    for n in 256..266u64 {
        let out = fan.route(frame(1, n));
        assert_eq!(out.delivery, Delivery::DroppedFull);
        assert!(out.opened.is_none());
        let beside = fan.route(frame(2, n));
        assert_eq!(beside.delivery, Delivery::Queued);
    }
    assert_eq!(fan.lane_counters(1), Some(LaneCounters { queued: 256, dropped: 10 }));
    assert_eq!(fan.lane_counters(2), Some(LaneCounters { queued: 11, dropped: 0 }));
    for n in 0..256u64 {
        assert_eq!(rx_a.try_recv().unwrap(), frame(1, n));
    }
    assert!(rx_a.try_recv().is_err());
    assert_eq!(rx_b.try_recv().unwrap(), frame(2, 0));
    for n in 256..266u64 {
        assert_eq!(rx_b.try_recv().unwrap(), frame(2, n));
    }
    assert_eq!(fan.route(frame(1, 300)).delivery, Delivery::Queued);
    assert_eq!(rx_a.try_recv().unwrap(), frame(1, 300));
}

#[test]
fn vanished_writer_loses_frames_without_counting_a_drop() {
    let mut fan = FanOut::new();
    let opened = fan.route(frame(5, 0));
    drop(opened.opened);
    let out = fan.route(frame(5, 1));
    assert_eq!(out.delivery, Delivery::WriterGone);
    assert!(out.opened.is_none());
    assert_eq!(fan.lane_counters(5), Some(LaneCounters { queued: 1, dropped: 0 }));
}

#[test]
fn settle_books_each_outcome() {
    let before = LaneCounters { queued: 3, dropped: 4 };
    assert_eq!(
        settle(before, &Offer::Queued),
        (LaneCounters { queued: 4, dropped: 4 }, Delivery::Queued)
    );
    assert_eq!(
        settle(before, &Offer::Full(frame(1, 1))),
        (LaneCounters { queued: 3, dropped: 5 }, Delivery::DroppedFull)
    );
    assert_eq!(settle(before, &Offer::Closed(frame(1, 1))), (before, Delivery::WriterGone));
    let top = LaneCounters { queued: u64::MAX, dropped: u64::MAX };
    assert_eq!(settle(top, &Offer::Queued), (top, Delivery::Queued));
    assert_eq!(settle(top, &Offer::Full(frame(1, 1))), (top, Delivery::DroppedFull));
}

#[test]
fn drain_routes_frames_counts_lag_and_stops_when_closed() {
    let mut fan = FanOut::new();
    let rx = match fan.drain_step(BusEvent::Frame(frame(9, 0))) {
        DrainStep::Routed(out) => {
            assert_eq!(out.delivery, Delivery::Queued);
            out.opened.unwrap()
        }
        _ => panic!("a frame is routed"),
    };
    assert!(matches!(fan.drain_step(BusEvent::Lagged(6)), DrainStep::Lagged(6)));
    assert!(matches!(fan.drain_step(BusEvent::Lagged(u64::MAX)), DrainStep::Lagged(u64::MAX)));
    assert_eq!(fan.missed_frames(), u64::MAX);
    assert!(matches!(fan.drain_step(BusEvent::Closed), DrainStep::Stop));
    assert!(fan.has_source(9));
    assert_eq!(fan.lane_counters(9), Some(LaneCounters { queued: 1, dropped: 0 }));
    drop(rx);
}

#[test]
fn lag_is_added_up() {
    let mut fan = FanOut::new();
    assert_eq!(fan.missed_frames(), 0);
    fan.note_lag(6);
    fan.note_lag(4);
    assert_eq!(fan.missed_frames(), 10);
}
