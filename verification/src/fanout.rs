//! Per-camera fan-out in front of the storage writers.
//!
//! One task drains the broadcast bus as fast as it can and hands every frame
//! to a bounded queue that belongs to the frame's camera alone. A queue and
//! its writer are created the first time a camera is seen. When a camera's
//! queue is full the frame is dropped for that camera only: no other camera's
//! queue or counters are touched, and the drain never waits.
//!
//! Whether a queue has room is for the queue and its reader to say. What is
//! fixed here is everything else: that every frame is offered, once, on the
//! queue of its own camera; that what is reported of it is what the queue
//! answered; that nothing is offered on any other queue; and which reader
//! belongs to which queue.

use crate::frame::{Frame, FrameView};
use std::collections::HashMap;
use tokio::sync::mpsc::error::TrySendError;
use tokio::sync::mpsc::{Receiver, Sender};
use vstd::prelude::*;

verus! {

broadcast use vstd::std_specs::hash::group_hash_axioms;

/// Number of frames a camera's queue holds before new frames are dropped.
pub const QUEUE_CAPACITY: usize = 256;

/// `tokio::sync::mpsc::Sender`, the sending half of a bounded queue. Nothing
/// is known of what is inside.
#[verifier::external_type_specification]
#[verifier::external_body]
#[verifier::reject_recursive_types(T)]
pub struct ExSender<T>(Sender<T>);

/// `tokio::sync::mpsc::Receiver`, the reading half of a bounded queue. It is
/// only passed on to the writer that reads it.
#[verifier::external_type_specification]
#[verifier::external_body]
#[verifier::reject_recursive_types(T)]
pub struct ExReceiver<T>(Receiver<T>);

/// The bound a queue was created with, as `Sender::max_capacity` reports it.
pub uninterp spec fn queue_limit(tx: Sender<Frame>) -> nat;

/// One attempt to queue a frame, and what the queue answered.
pub struct Attempt {
    /// The frame that was offered.
    pub frame: FrameView,
    /// What became of it.
    pub delivery: Delivery,
}

/// Every attempt made on a queue through this sender since the queue was
/// created, in order, each with the answer `Sender::try_send` gave. The
/// fan-out keeps the only sender of each of its queues and never copies it,
/// so this is all that was ever offered on the queue.
pub uninterp spec fn queue_log(tx: Sender<Frame>) -> Seq<Attempt>;

/// Which queue a sender feeds. The two halves that one call of
/// `tokio::sync::mpsc::channel` returns belong to one queue.
pub uninterp spec fn queue_of(tx: Sender<Frame>) -> int;

/// Which queue a receiver reads; see [`queue_of`].
pub uninterp spec fn queue_read_by(rx: Receiver<Frame>) -> int;

/// What became of one attempt to queue a frame. A frame that was not queued
/// is handed back.
pub enum Offer {
    Queued,
    Full(Frame),
    Closed(Frame),
}

/// Outcome of routing one frame, as the drain task sees it.
#[derive(Clone, Copy, Debug, PartialEq, Eq, Structural)]
pub enum Delivery {
    /// The frame is in its camera's queue.
    Queued,
    /// The camera's queue was full; the frame was dropped and counted.
    DroppedFull,
    /// The camera's writer has gone; the frame was discarded.
    WriterGone,
}

/// Running totals of one camera's queue.
#[derive(Clone, Copy, Debug, PartialEq, Eq, Structural)]
pub struct LaneCounters {
    /// Frames accepted by the queue.
    pub queued: u64,
    /// Frames dropped because the queue was full.
    pub dropped: u64,
}

/// Creates a bounded queue with `tokio::sync::mpsc::channel`.
///
/// Trusted: the call returns for every bound from 1 up to the semaphore's
/// maximum (`usize::MAX >> 3`); the sender half reports the bound it was
/// created with; nothing has been offered on the queue yet; and the two
/// halves that come back belong to one queue.
#[verifier::external_body]
fn open_queue(bound: usize) -> (ends: (Sender<Frame>, Receiver<Frame>))
    requires
        0 < bound <= usize::MAX / 8,
    ensures
        queue_limit(ends.0) == bound,
        queue_log(ends.0) == Seq::<Attempt>::empty(),
        queue_of(ends.0) == queue_read_by(ends.1),
{
    tokio::sync::mpsc::channel(bound)
}

/// Tries to queue a frame with `Sender::try_send`, without waiting.
///
/// Trusted: the call is one more attempt on this sender's queue, made
/// with this frame and answered as reported: success means the queue took
/// the frame, behind all it took before; on either failure the queue took
/// nothing and the frame that comes back is the frame that was offered. The
/// sender goes on feeding the same queue with the same bound. Which of the
/// three answers is given depends on the reader of the queue, so nothing is
/// claimed about it.
#[verifier::external_body]
fn offer(tx: &mut Sender<Frame>, frame: Frame) -> (out: Offer)
    ensures
        queue_limit(*final(tx)) == queue_limit(*old(tx)),
        queue_of(*final(tx)) == queue_of(*old(tx)),
        queue_log(*final(tx)) == queue_log(*old(tx)).push(
            Attempt { frame: frame@, delivery: delivery_of(out) },
        ),
        out matches Offer::Full(back) ==> back@ == frame@,
        out matches Offer::Closed(back) ==> back@ == frame@,
{
    match tx.try_send(frame) {
        Ok(()) => Offer::Queued,
        Err(TrySendError::Full(back)) => Offer::Full(back),
        Err(TrySendError::Closed(back)) => Offer::Closed(back),
    }
}

/// One camera's queue: the sending half and its totals.
struct Lane {
    tx: Sender<Frame>,
    counters: LaneCounters,
}

/// The drain task's state: one lane per camera seen so far, and the number
/// of frames the drain itself missed on the bus.
pub struct FanOut {
    lanes: HashMap<u64, Lane>,
    missed: u64,
}

/// What the drain task is told after routing one frame.
pub struct Routed {
    /// What became of the frame.
    pub delivery: Delivery,
    /// The reading half of a queue that was created for this frame. The
    /// caller starts the camera's writer on it.
    pub opened: Option<Receiver<Frame>>,
}

/// What the bus handed to the drain task.
pub enum BusEvent {
    /// The next frame.
    Frame(Frame),
    /// The drain fell behind and this many frames were overwritten unread.
    Lagged(u64),
    /// The bus is closed and drained.
    Closed,
}

/// What the drain task does next.
pub enum DrainStep {
    /// A frame was routed; keep draining.
    Routed(Routed),
    /// A lag of this many frames was recorded; keep draining.
    Lagged(u64),
    /// The bus is gone; stop.
    Stop,
}

/// `a + b`, held at the largest `u64`.
pub open spec fn capped_sum(a: u64, b: u64) -> u64 {
    if a + b > u64::MAX {
        u64::MAX
    } else {
        (a + b) as u64
    }
}

/// The delivery that an attempt to queue amounts to.
pub open spec fn delivery_of(out: Offer) -> Delivery {
    match out {
        Offer::Queued => Delivery::Queued,
        Offer::Full(_) => Delivery::DroppedFull,
        Offer::Closed(_) => Delivery::WriterGone,
    }
}

/// A lane's totals after one delivery: a queued frame and a frame dropped on
/// a full queue are each counted once, a frame for a vanished writer is not
/// counted.
pub open spec fn settled(before: LaneCounters, delivery: Delivery) -> LaneCounters {
    match delivery {
        Delivery::Queued => LaneCounters {
            queued: capped_sum(before.queued, 1),
            dropped: before.dropped,
        },
        Delivery::DroppedFull => LaneCounters {
            queued: before.queued,
            dropped: capped_sum(before.dropped, 1),
        },
        Delivery::WriterGone => before,
    }
}

/// Totals of a lane that has seen nothing yet.
pub open spec fn fresh_counters() -> LaneCounters {
    LaneCounters { queued: 0, dropped: 0 }
}

/// The frames a queue has taken, in the order in which it took them: the
/// frames of the attempts that were answered with success. What the reader
/// has read since is still part of it.
pub open spec fn taken_of(log: Seq<Attempt>) -> Seq<FrameView>
    decreases log.len(),
{
    if log.len() == 0 {
        Seq::empty()
    } else if log.last().delivery == Delivery::Queued {
        taken_of(log.drop_last()).push(log.last().frame)
    } else {
        taken_of(log.drop_last())
    }
}

/// The totals of all lanes after one frame of `source` met with `delivery`:
/// the lane of `source` moves by that delivery, starting fresh if the camera
/// had none, and every other lane stays as it is.
pub open spec fn routed(totals: Map<u64, LaneCounters>, source: u64, delivery: Delivery) -> Map<
    u64,
    LaneCounters,
> {
    let before = if totals.contains_key(source) {
        totals[source]
    } else {
        fresh_counters()
    };
    totals.insert(source, settled(before, delivery))
}

/// The logs of all queues after one frame of `source` was offered and met
/// with `delivery`: the attempt stands at the end of the log of the queue of
/// `source`, which starts empty if the camera had none, and the log of every
/// other queue is as it was.
pub open spec fn offered(
    logs: Map<u64, Seq<Attempt>>,
    source: u64,
    frame: FrameView,
    delivery: Delivery,
) -> Map<u64, Seq<Attempt>> {
    let before = if logs.contains_key(source) {
        logs[source]
    } else {
        Seq::empty()
    };
    logs.insert(source, before.push(Attempt { frame, delivery }))
}

/// Books the outcome of one attempt to queue a frame: names the delivery and
/// gives the lane's new totals.
pub fn settle(before: LaneCounters, out: &Offer) -> (after: (LaneCounters, Delivery))
    ensures
        after.1 == delivery_of(*out),
        after.0 == settled(before, after.1),
{
    match out {
        Offer::Queued => (
            LaneCounters { queued: before.queued.saturating_add(1), dropped: before.dropped },
            Delivery::Queued,
        ),
        Offer::Full(_) => (
            LaneCounters { queued: before.queued, dropped: before.dropped.saturating_add(1) },
            Delivery::DroppedFull,
        ),
        Offer::Closed(_) => (before, Delivery::WriterGone),
    }
}

impl FanOut {
    /// The totals of every lane, by camera.
    pub closed spec fn totals(&self) -> Map<u64, LaneCounters> {
        Map::new(|s: u64| self.lanes@.contains_key(s), |s: u64| self.lanes@[s].counters)
    }

    /// The cameras that have a lane.
    pub open spec fn sources(&self) -> Set<u64> {
        self.totals().dom()
    }

    /// The totals of a camera's lane.
    pub open spec fn counters(&self, source: u64) -> LaneCounters {
        self.totals()[source]
    }

    /// The sending half of a camera's queue.
    pub closed spec fn sender(&self, source: u64) -> Sender<Frame> {
        self.lanes@[source].tx
    }

    /// Every attempt made on every camera's queue so far, by camera.
    pub open spec fn logs(&self) -> Map<u64, Seq<Attempt>> {
        Map::new(|s: u64| self.sources().contains(s), |s: u64| queue_log(self.sender(s)))
    }

    /// What a camera's queue has taken so far; nothing if the camera has no
    /// queue.
    pub open spec fn taken(&self, source: u64) -> Seq<FrameView> {
        if self.sources().contains(source) {
            taken_of(self.logs()[source])
        } else {
            Seq::empty()
        }
    }

    /// Frames the drain task missed on the bus.
    pub closed spec fn missed(&self) -> u64 {
        self.missed
    }

    /// Every queue was created with the bound [`QUEUE_CAPACITY`].
    pub open spec fn wf(&self) -> bool {
        forall|s: u64| #[trigger]
            self.sources().contains(s) ==> queue_limit(self.sender(s)) == QUEUE_CAPACITY
    }

    /// A fan-out that has seen no camera.
    pub fn new() -> (fan: FanOut)
        ensures
            fan.wf(),
            fan.totals() == Map::<u64, LaneCounters>::empty(),
            fan.logs() == Map::<u64, Seq<Attempt>>::empty(),
            fan.missed() == 0,
    {
        let fan = FanOut { lanes: HashMap::new(), missed: 0 };
        assert(fan.totals() =~= Map::<u64, LaneCounters>::empty());
        assert(fan.logs() =~= Map::<u64, Seq<Attempt>>::empty());
        fan
    }

    /// Whether the camera has a lane.
    pub fn has_source(&self, source: u64) -> (known: bool)
        ensures
            known == self.sources().contains(source),
    {
        self.lanes.contains_key(&source)
    }

    /// The totals of a camera's lane, if it has one.
    pub fn lane_counters(&self, source: u64) -> (totals: Option<LaneCounters>)
        ensures
            totals == if self.sources().contains(source) {
                Some(self.counters(source))
            } else {
                None
            },
    {
        match self.lanes.get(&source) {
            Some(lane) => Some(lane.counters),
            None => None,
        }
    }

    /// Frames the drain task missed on the bus.
    pub fn missed_frames(&self) -> (n: u64)
        ensures
            n == self.missed(),
    {
        self.missed
    }

    /// Hands a frame to its camera's queue, creating the queue on first
    /// sight of the camera.
    ///
    /// The frame is offered, once, on the queue of its own camera and on no
    /// other. Whether that queue takes it depends on the queue's reader.
    /// Whatever it answers: the attempt stands at the end of that queue's
    /// log with the delivery that is reported, so the queue has taken the
    /// frame, behind all it took before, exactly when the frame is reported
    /// as queued; the camera's totals move by exactly the reported delivery;
    /// every other camera's queue and totals are as they were; and a reader
    /// that is handed out reads the queue the frame was offered on.
    pub fn route(&mut self, frame: Frame) -> (out: Routed)
        requires
            old(self).wf(),
        ensures
            final(self).wf(),
            final(self).totals() == routed(old(self).totals(), frame.source.0, out.delivery),
            final(self).logs() == offered(
                old(self).logs(),
                frame.source.0,
                frame@,
                out.delivery,
            ),
            final(self).missed() == old(self).missed(),
            out.opened is Some <==> !old(self).sources().contains(frame.source.0),
            out.opened matches Some(rx) ==> queue_read_by(rx) == queue_of(
                final(self).sender(frame.source.0),
            ),
            old(self).sources().contains(frame.source.0) ==> queue_of(
                final(self).sender(frame.source.0),
            ) == queue_of(old(self).sender(frame.source.0)),
            forall|s: u64|
                s != frame.source.0 && #[trigger] old(self).sources().contains(s) ==> final(self).sender(s) == old(self).sender(s),
    {
        let source: u64 = frame.source.0;
        let (mut lane, opened) = match self.lanes.remove(&source) {
            Some(lane) => (lane, None),
            None => {
                let (tx, rx) = open_queue(QUEUE_CAPACITY);
                (Lane { tx, counters: LaneCounters { queued: 0, dropped: 0 } }, Some(rx))
            },
        };
        let attempt = offer(&mut lane.tx, frame);
        let (counters, delivery) = settle(lane.counters, &attempt);
        self.lanes.insert(source, Lane { tx: lane.tx, counters });
        proof {
            assert(self.totals() =~= routed(old(self).totals(), source, delivery));
            assert forall|s: u64| #[trigger] self.sources().contains(s) implies queue_limit(
                self.sender(s),
            ) == QUEUE_CAPACITY by {
                if s != source {
                    assert(old(self).sources().contains(s));
                } else if old(self).sources().contains(source) {
                }
            }
            assert(self.logs() =~= offered(old(self).logs(), source, frame@, delivery));
        }
        Routed { delivery, opened }
    }

    /// Records that the drain task fell behind the bus by `frames` frames.
    pub fn note_lag(&mut self, frames: u64)
        ensures
            old(self).wf() ==> final(self).wf(),
            final(self).missed() == capped_sum(old(self).missed(), frames),
            final(self).totals() == old(self).totals(),
            final(self).logs() == old(self).logs(),
            forall|s: u64| #[trigger]
                old(self).sources().contains(s) ==> final(self).sender(s) == old(self).sender(s),
    {
        self.missed = self.missed.saturating_add(frames);
        assert(self.totals() == old(self).totals());
        assert forall|s: u64| #[trigger] self.sources().contains(s) implies self.sender(s) == old(self).sender(s) && old(self).sources().contains(s) by {}
        assert(self.logs() =~= old(self).logs());
    }

    /// One turn of the drain task: a frame is routed as [`FanOut::route`]
    /// routes it, a lag is recorded, and a closed bus ends the task without
    /// touching anything.
    pub fn drain_step(&mut self, event: BusEvent) -> (step: DrainStep)
        requires
            old(self).wf(),
        ensures
            final(self).wf(),
            match event {
                BusEvent::Frame(frame) => {
                    &&& step matches DrainStep::Routed(out)
                    &&& final(self).totals() == routed(
                        old(self).totals(),
                        frame.source.0,
                        out.delivery,
                    )
                    &&& final(self).logs() == offered(
                        old(self).logs(),
                        frame.source.0,
                        frame@,
                        out.delivery,
                    )
                    &&& final(self).missed() == old(self).missed()
                    &&& out.opened is Some <==> !old(self).sources().contains(frame.source.0)
                    &&& out.opened matches Some(rx) ==> queue_read_by(rx) == queue_of(
                        final(self).sender(frame.source.0),
                    )
                    &&& old(self).sources().contains(frame.source.0) ==> queue_of(
                        final(self).sender(frame.source.0),
                    ) == queue_of(old(self).sender(frame.source.0))
                    &&& forall|s: u64|
                        s != frame.source.0 && #[trigger] old(self).sources().contains(s)
                            ==> final(self).sender(s) == old(self).sender(s)
                },
                BusEvent::Lagged(n) => {
                    &&& step == DrainStep::Lagged(n)
                    &&& final(self).missed() == capped_sum(old(self).missed(), n)
                    &&& final(self).totals() == old(self).totals()
                    &&& final(self).logs() == old(self).logs()
                    &&& forall|s: u64| #[trigger]
                        old(self).sources().contains(s) ==> final(self).sender(s) == old(self).sender(s)
                },
                BusEvent::Closed => {
                    &&& step is Stop
                    &&& final(self).missed() == old(self).missed()
                    &&& final(self).totals() == old(self).totals()
                    &&& final(self).logs() == old(self).logs()
                    &&& forall|s: u64| #[trigger]
                        old(self).sources().contains(s) ==> final(self).sender(s) == old(self).sender(s)
                },
            },
    {
        match event {
            BusEvent::Frame(frame) => DrainStep::Routed(self.route(frame)),
            BusEvent::Lagged(n) => {
                self.note_lag(n);
                DrainStep::Lagged(n)
            },
            BusEvent::Closed => DrainStep::Stop,
        }
    }
}

/// One routed frame of a run: whose it was, and what became of it.
pub struct Routing {
    /// The camera the frame came from.
    pub source: u64,
    /// The frame.
    pub frame: FrameView,
    /// What its camera's queue answered.
    pub delivery: Delivery,
}

/// The logs of all queues after a run of routed frames.
pub open spec fn logs_after(logs: Map<u64, Seq<Attempt>>, routings: Seq<Routing>) -> Map<
    u64,
    Seq<Attempt>,
>
    decreases routings.len(),
{
    if routings.len() == 0 {
        logs
    } else {
        offered(
            logs_after(logs, routings.drop_last()),
            routings.last().source,
            routings.last().frame,
            routings.last().delivery,
        )
    }
}

/// The totals of all lanes after a run of routed frames.
pub open spec fn totals_after(totals: Map<u64, LaneCounters>, routings: Seq<Routing>) -> Map<
    u64,
    LaneCounters,
>
    decreases routings.len(),
{
    if routings.len() == 0 {
        totals
    } else {
        routed(totals_after(totals, routings.drop_last()), routings.last().source, routings.last().delivery)
    }
}

/// The frames of one camera in a run, in order, each with what became of it.
pub open spec fn own_frames(routings: Seq<Routing>, camera: u64) -> Seq<Attempt>
    decreases routings.len(),
{
    if routings.len() == 0 {
        Seq::empty()
    } else if routings.last().source == camera {
        own_frames(routings.drop_last(), camera).push(
            Attempt { frame: routings.last().frame, delivery: routings.last().delivery },
        )
    } else {
        own_frames(routings.drop_last(), camera)
    }
}

/// A lane's totals after a run of attempts.
pub open spec fn settled_all(before: LaneCounters, attempts: Seq<Attempt>) -> LaneCounters
    decreases attempts.len(),
{
    if attempts.len() == 0 {
        before
    } else {
        settled(settled_all(before, attempts.drop_last()), attempts.last().delivery)
    }
}

/// What a queue has taken is what it had taken before and then what it took
/// since.
pub proof fn lemma_taken_of_concat(earlier: Seq<Attempt>, later: Seq<Attempt>)
    ensures
        taken_of(earlier + later) == taken_of(earlier) + taken_of(later),
    decreases later.len(),
{
    if later.len() == 0 {
        assert(earlier + later =~= earlier);
        assert(taken_of(earlier) + taken_of(later) =~= taken_of(earlier));
    } else {
        assert((earlier + later).drop_last() =~= earlier + later.drop_last());
        lemma_taken_of_concat(earlier, later.drop_last());
        if later.last().delivery == Delivery::Queued {
            assert((taken_of(earlier) + taken_of(later.drop_last())).push(later.last().frame)
                =~= taken_of(earlier) + taken_of(later.drop_last()).push(later.last().frame));
        }
    }
}

/// A camera's queue and totals are made by its own frames alone. After any
/// run, the log of its queue is the log it had and then its own frames, in
/// order, each with the answer it got; so the queue has taken what it had
/// taken and then those of its own frames that were queued, none lost and
/// none out of order. Its totals count exactly those frames, and it has a
/// queue exactly if it had one or a frame of its own was in the run. The
/// frames of other cameras, and what became of them, do not enter.
pub proof fn law_queue_follows_own_frames(
    logs: Map<u64, Seq<Attempt>>,
    totals: Map<u64, LaneCounters>,
    routings: Seq<Routing>,
    camera: u64,
)
    ensures
        logs_after(logs, routings).contains_key(camera) == (logs.contains_key(camera) || own_frames(
            routings,
            camera,
        ).len() > 0),
        logs_after(logs, routings).contains_key(camera) ==> logs_after(logs, routings)[camera] == (
        if logs.contains_key(camera) {
            logs[camera]
        } else {
            Seq::empty()
        }) + own_frames(routings, camera),
        logs_after(logs, routings).contains_key(camera) ==> taken_of(logs_after(logs, routings)[camera])
            == taken_of(
            if logs.contains_key(camera) {
                logs[camera]
            } else {
                Seq::empty()
            },
        ) + taken_of(own_frames(routings, camera)),
        totals_after(totals, routings).contains_key(camera) == (totals.contains_key(camera)
            || own_frames(routings, camera).len() > 0),
        totals_after(totals, routings).contains_key(camera) ==> totals_after(totals, routings)[camera]
            == settled_all(
            if totals.contains_key(camera) {
                totals[camera]
            } else {
                fresh_counters()
            },
            own_frames(routings, camera),
        ),
    decreases routings.len(),
{
    let first_log = if logs.contains_key(camera) {
        logs[camera]
    } else {
        Seq::empty()
    };
    let first_totals = if totals.contains_key(camera) {
        totals[camera]
    } else {
        fresh_counters()
    };
    lemma_taken_of_concat(first_log, own_frames(routings, camera));
    if routings.len() > 0 {
        let before = routings.drop_last();
        let own_before = own_frames(before, camera);
        law_queue_follows_own_frames(logs, totals, before, camera);
        if routings.last().source == camera {
            let own = own_frames(routings, camera);
            assert(own.drop_last() =~= own_before);
            assert((first_log + own_before).push(own.last()) =~= first_log + own);
            if !logs_after(logs, before).contains_key(camera) {
                assert(first_log + own_before =~= Seq::<Attempt>::empty());
            }
            if !totals_after(totals, before).contains_key(camera) {
                assert(settled_all(first_totals, own_before) == first_totals);
            }
        }
    } else {
        assert(first_log + own_frames(routings, camera) =~= first_log);
    }
}

/// Overload stays with the camera that causes it. Whatever becomes of the
/// frames of other cameras, and however many of them are dropped on full
/// queues, a camera none of whose frames is in the run has its queue, its
/// queue's log and its totals exactly as before.
pub proof fn law_overflow_is_isolated(
    logs: Map<u64, Seq<Attempt>>,
    totals: Map<u64, LaneCounters>,
    routings: Seq<Routing>,
    camera: u64,
)
    requires
        forall|i: int| 0 <= i < routings.len() ==> (#[trigger] routings[i]).source != camera,
    ensures
        logs_after(logs, routings).contains_key(camera) == logs.contains_key(camera),
        logs.contains_key(camera) ==> logs_after(logs, routings)[camera] == logs[camera],
        totals_after(totals, routings).contains_key(camera) == totals.contains_key(camera),
        totals.contains_key(camera) ==> totals_after(totals, routings)[camera] == totals[camera],
    decreases routings.len(),
{
    if routings.len() > 0 {
        let before = routings.drop_last();
        assert forall|i: int| 0 <= i < before.len() implies (#[trigger] before[i]).source
            != camera by {
            assert(before[i] == routings[i]);
        }
        law_overflow_is_isolated(logs, totals, before, camera);
        assert(routings.last() == routings[routings.len() - 1]);
    }
}

/// What is queued for one camera does not depend on the other cameras. Take
/// two runs from the same start in which the camera's own frames are the
/// same and get the same answers from its own queue. However the two runs
/// differ in the frames of other cameras, and whichever of those overflow
/// their queues, the camera's queue has taken the same frames in the same
/// order in both, and its totals are the same.
pub proof fn law_other_cameras_do_not_matter(
    logs: Map<u64, Seq<Attempt>>,
    totals: Map<u64, LaneCounters>,
    one: Seq<Routing>,
    other: Seq<Routing>,
    camera: u64,
)
    requires
        own_frames(one, camera) == own_frames(other, camera),
    ensures
        logs_after(logs, one).contains_key(camera) == logs_after(logs, other).contains_key(camera),
        logs_after(logs, one).contains_key(camera) ==> {
            &&& logs_after(logs, one)[camera] == logs_after(logs, other)[camera]
            &&& taken_of(logs_after(logs, one)[camera]) == taken_of(
                logs_after(logs, other)[camera],
            )
        },
        totals_after(totals, one).contains_key(camera) == totals_after(
            totals,
            other,
        ).contains_key(camera),
        totals_after(totals, one).contains_key(camera) ==> totals_after(totals, one)[camera]
            == totals_after(totals, other)[camera],
{
    law_queue_follows_own_frames(logs, totals, one, camera);
    law_queue_follows_own_frames(logs, totals, other, camera);
}

} // verus!
