//! What subscribers of the bus can rely on, stated over whole runs.
//!
//! A run is any interleaving of publishes and of reads by one subscriber.
//! The statements here are proved from the bus model alone, so they hold for
//! every run the executable bus can make.

use crate::frame::FrameView;
use crate::router::{BusView, ReceivedView};
use vstd::prelude::*;

verus! {

/// One event of a run, seen from a single subscriber.
pub enum BusStep {
    /// A producer publishes this frame.
    Publish(FrameView),
    /// The subscriber reads once.
    Receive,
}

/// A subscriber's record of a run.
pub struct Trace {
    /// The bus after the run.
    pub bus: BusView,
    /// The subscriber's cursor after the run.
    pub cursor: nat,
    /// The frames the subscriber read, in the order it read them.
    pub delivered: Seq<FrameView>,
    /// Sum of the lag counts the subscriber was told.
    pub missed: nat,
    /// Whether the subscriber's backlog ever exceeded the capacity.
    pub overran: bool,
}

/// The record before anything happens.
pub open spec fn start(bus: BusView, cursor: nat) -> Trace {
    Trace {
        bus,
        cursor,
        delivered: Seq::empty(),
        missed: 0,
        overran: bus.backlog(cursor) > bus.capacity,
    }
}

/// The record after one more event.
pub open spec fn advance(t: Trace, step: BusStep) -> Trace {
    match step {
        BusStep::Publish(frame) => {
            let bus = t.bus.publish(frame);
            Trace {
                bus,
                cursor: t.cursor,
                delivered: t.delivered,
                missed: t.missed,
                overran: t.overran || bus.backlog(t.cursor) > bus.capacity,
            }
        },
        BusStep::Receive => {
            let (got, cursor) = t.bus.receive(t.cursor);
            match got {
                ReceivedView::Frame(frame) => Trace {
                    bus: t.bus,
                    cursor,
                    delivered: t.delivered.push(frame),
                    missed: t.missed,
                    overran: t.overran,
                },
                ReceivedView::Lagged(n) => Trace {
                    bus: t.bus,
                    cursor,
                    delivered: t.delivered,
                    missed: t.missed + n,
                    overran: t.overran,
                },
                _ => t,
            }
        },
    }
}

/// The record after a whole run.
pub open spec fn replay(bus: BusView, cursor: nat, steps: Seq<BusStep>) -> Trace
    decreases steps.len(),
{
    if steps.len() == 0 {
        start(bus, cursor)
    } else {
        advance(replay(bus, cursor, steps.drop_last()), steps.last())
    }
}

/// The frames a run publishes, in publish order.
pub open spec fn published_in(steps: Seq<BusStep>) -> Seq<FrameView>
    decreases steps.len(),
{
    if steps.len() == 0 {
        Seq::empty()
    } else {
        let before = published_in(steps.drop_last());
        match steps.last() {
            BusStep::Publish(frame) => before.push(frame),
            BusStep::Receive => before,
        }
    }
}

/// Whether the retained frames that were published at or after `since` are
/// the frames of `sent`, each at its place.
spec fn window_holds(bus: BusView, since: nat, sent: Seq<FrameView>) -> bool {
    forall|i: int|
        0 <= i < bus.retained.len() && bus.oldest() + i >= since ==> #[trigger] bus.retained[i]
            == sent[bus.oldest() + i - since]
}

proof fn lemma_publish_keeps_window(bus: BusView, since: nat, sent: Seq<FrameView>, frame: FrameView)
    requires
        bus.wf(),
        bus.published == since + sent.len(),
        window_holds(bus, since, sent),
    ensures
        bus.publish(frame).wf(),
        window_holds(bus.publish(frame), since, sent.push(frame)),
{
    let next = bus.publish(frame);
    let grown = bus.retained.push(frame);
    assert forall|i: int|
        0 <= i < next.retained.len() && next.oldest() + i >= since implies #[trigger] next.retained[i]
        == sent.push(frame)[next.oldest() + i - since] by {
        if grown.len() > bus.capacity {
            assert(next.retained[i] == grown[i + 1]);
            if i + 1 < bus.retained.len() {
                assert(grown[i + 1] == bus.retained[i + 1]);
            }
        } else {
            assert(next.retained[i] == grown[i]);
            if i < bus.retained.len() {
                assert(grown[i] == bus.retained[i]);
            }
        }
    }
}

/// What holds after every prefix of a run in which a fresh subscriber never
/// overran the capacity.
spec fn keeps_up(bus: BusView, steps: Seq<BusStep>) -> bool {
    let t = replay(bus, bus.published, steps);
    let sent = published_in(steps);
    &&& t.bus.wf()
    &&& t.bus.capacity == bus.capacity
    &&& t.bus.published == bus.published + sent.len()
    &&& bus.published <= t.cursor <= t.bus.published
    &&& t.bus.published - t.cursor <= t.bus.capacity
    &&& t.missed == 0
    &&& t.delivered == sent.take(t.cursor - bus.published)
    &&& window_holds(t.bus, bus.published, sent)
}

proof fn lemma_keeps_up(bus: BusView, steps: Seq<BusStep>)
    requires
        bus.wf(),
        !replay(bus, bus.published, steps).overran,
    ensures
        keeps_up(bus, steps),
    decreases steps.len(),
{
    let t = replay(bus, bus.published, steps);
    let sent = published_in(steps);
    if steps.len() == 0 {
        assert(t.delivered =~= sent.take(0));
    } else {
        let before = steps.drop_last();
        let p = replay(bus, bus.published, before);
        let sent_before = published_in(before);
        assert(t == advance(p, steps.last()));
        lemma_keeps_up(bus, before);
        match steps.last() {
            BusStep::Publish(frame) => {
                assert(sent == sent_before.push(frame));
                assert(t.delivered =~= sent.take(t.cursor - bus.published));
                lemma_publish_keeps_window(p.bus, bus.published, sent_before, frame);
            },
            BusStep::Receive => {
                assert(sent == sent_before);
                let (got, cursor) = p.bus.receive(p.cursor);
                if p.cursor < p.bus.published {
                    let slot = p.cursor - p.bus.oldest();
                    assert(got == ReceivedView::Frame(p.bus.retained[slot]));
                    assert(p.bus.retained[slot] == sent[p.cursor - bus.published]);
                    assert(t.delivered =~= sent.take(t.cursor - bus.published));
                }
            },
        }
    }
}

/// A subscriber whose backlog never exceeds the capacity is never told of a
/// lag and reads exactly the frames published since it subscribed, in
/// publish order: at every moment what it has read is the published frames
/// up to its cursor, and once its backlog is empty it has read them all.
pub proof fn law_delivery_in_order(bus: BusView, steps: Seq<BusStep>)
    requires
        bus.wf(),
        !replay(bus, bus.published, steps).overran,
    ensures
        ({
            let t = replay(bus, bus.published, steps);
            let sent = published_in(steps);
            &&& t.missed == 0
            &&& t.delivered.len() <= sent.len()
            &&& t.delivered == sent.take(t.delivered.len() as int)
            &&& t.cursor == bus.published + t.delivered.len()
            &&& t.bus.backlog(t.cursor) == sent.len() - t.delivered.len()
            &&& t.bus.backlog(t.cursor) == 0 ==> t.delivered == sent
        }),
{
    lemma_keeps_up(bus, steps);
    let t = replay(bus, bus.published, steps);
    let sent = published_in(steps);
    assert(t.delivered.len() == t.cursor - bus.published);
    if t.bus.backlog(t.cursor) == 0 {
        assert(sent.take(sent.len() as int) =~= sent);
    }
}

/// A subscriber that has fallen more than the capacity behind is told
/// exactly how many frames it missed, namely those between its cursor and
/// the oldest retained frame, and then reads the retained frames in order.
pub proof fn law_lag_counts_missed(bus: BusView, cursor: nat)
    requires
        bus.wf(),
        bus.backlog(cursor) > bus.capacity,
    ensures
        bus.receive(cursor) == (
            ReceivedView::Lagged((bus.backlog(cursor) - bus.capacity) as nat),
            (bus.published - bus.capacity) as nat,
        ),
        forall|k: nat|
            k < bus.capacity ==> #[trigger] bus.receive((bus.published - bus.capacity + k) as nat)
                == (
                ReceivedView::Frame(bus.retained[k as int]),
                (bus.published - bus.capacity + k + 1) as nat,
            ),
{
}

/// A run that only publishes the given frames, in order.
pub open spec fn publishes(frames: Seq<FrameView>) -> Seq<BusStep> {
    Seq::new(frames.len(), |i: int| BusStep::Publish(frames[i]))
}

/// A run of `n` reads.
pub open spec fn receives(n: nat) -> Seq<BusStep> {
    Seq::new(n, |i: int| BusStep::Receive)
}

proof fn lemma_only_publishes(bus: BusView, frames: Seq<FrameView>)
    requires
        bus.wf(),
    ensures
        ({
            let t = replay(bus, bus.published, publishes(frames));
            &&& t.bus.wf()
            &&& t.bus.capacity == bus.capacity
            &&& t.bus.published == bus.published + frames.len()
            &&& t.cursor == bus.published
            &&& t.delivered == Seq::<FrameView>::empty()
            &&& t.missed == 0
            &&& window_holds(t.bus, bus.published, frames)
        }),
    decreases frames.len(),
{
    let steps = publishes(frames);
    let t = replay(bus, bus.published, steps);
    if frames.len() > 0 {
        let shorter = frames.drop_last();
        assert(steps.drop_last() =~= publishes(shorter));
        assert(steps.last() == BusStep::Publish(frames.last()));
        lemma_only_publishes(bus, shorter);
        let p = replay(bus, bus.published, publishes(shorter));
        assert(t == advance(p, steps.last()));
        lemma_publish_keeps_window(p.bus, bus.published, shorter, frames.last());
        assert(shorter.push(frames.last()) =~= frames);
    }
}

proof fn lemma_catch_up(bus: BusView, frames: Seq<FrameView>, reads: nat)
    requires
        bus.wf(),
        frames.len() > bus.capacity,
        1 <= reads <= bus.capacity + 1,
    ensures
        ({
            let t = replay(bus, bus.published, publishes(frames) + receives(reads));
            let first = frames.len() - bus.capacity;
            &&& t.bus == replay(bus, bus.published, publishes(frames)).bus
            &&& t.missed == first
            &&& t.cursor == bus.published + first + reads - 1
            &&& t.delivered == frames.subrange(first, first + reads - 1)
        }),
    decreases reads,
{
    let steps = publishes(frames) + receives(reads);
    let first = frames.len() - bus.capacity;
    lemma_only_publishes(bus, frames);
    let quiet = replay(bus, bus.published, publishes(frames));
    assert(quiet.bus.oldest() == bus.published + first);
    assert(steps.last() == BusStep::Receive);
    if reads == 1 {
        assert(steps.drop_last() =~= publishes(frames));
        assert(frames.subrange(first, first) =~= Seq::<FrameView>::empty());
    } else {
        let fewer = (reads - 1) as nat;
        assert(steps.drop_last() =~= publishes(frames) + receives(fewer));
        lemma_catch_up(bus, frames, fewer);
        let p = replay(bus, bus.published, publishes(frames) + receives(fewer));
        let slot = p.cursor - quiet.bus.oldest();
        assert(slot == reads - 2);
        assert(quiet.bus.retained[slot] == frames[first + slot]);
        assert(frames.subrange(first, first + reads - 2).push(frames[first + slot])
            =~= frames.subrange(first, first + reads - 1));
    }
}

/// A subscriber that reads nothing while more frames than the capacity are
/// published, and then reads until it has caught up, is told once that it
/// missed all but the last `capacity` frames, and then reads exactly those,
/// in publish order.
pub proof fn law_stalled_subscriber(bus: BusView, frames: Seq<FrameView>)
    requires
        bus.wf(),
        frames.len() > bus.capacity,
    ensures
        ({
            let t = replay(
                bus,
                bus.published,
                publishes(frames) + receives((bus.capacity + 1) as nat),
            );
            &&& t.missed == frames.len() - bus.capacity
            &&& t.delivered == frames.subrange(
                frames.len() - bus.capacity,
                frames.len() as int,
            )
            &&& t.bus.backlog(t.cursor) == 0
        }),
{
    lemma_only_publishes(bus, frames);
    lemma_catch_up(bus, frames, (bus.capacity + 1) as nat);
}

} // verus!
