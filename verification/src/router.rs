//! The frame bus: bounded broadcast from cameras to subscribers.
//!
//! Every published frame gets the next sequence number. The bus retains the
//! most recent frames, at most its capacity. Each subscriber owns a cursor,
//! the sequence number it reads next, and reads without ever holding the
//! publisher back: a subscriber whose cursor has fallen out of the retained
//! window is told how many frames it missed and resumes at the oldest frame
//! still retained.
//!
//! The bus owns its ring. Its capacity is exact: a bus made for three frames
//! retains three, and a subscriber lags as soon as it is more than three
//! behind. And what a subscriber reads is a function of the bus and of its
//! own cursor, so that everything subscribers rely on can be proved here
//! rather than taken on trust.

use crate::frame::{Frame, FrameView, SourceId};
use std::collections::VecDeque;
use vstd::prelude::*;

verus! {

broadcast use vstd::std_specs::vecdeque::group_vec_dequeue_axioms;

/// Why the bus refused an operation.
#[derive(Clone, Copy, Debug, PartialEq, Eq, Structural)]
pub enum BusError {
    /// A bus must be able to retain at least one frame.
    ZeroCapacity,
    /// The bus was closed; nothing more can be published.
    Closed,
    /// Every sequence number has been used.
    Exhausted,
}

/// What a subscriber gets from one read.
#[derive(Debug, PartialEq, Eq)]
pub enum Received {
    /// The next frame in publish order.
    Frame(Frame),
    /// This many frames were overwritten before the subscriber read them.
    Lagged(u64),
    /// Nothing new has been published yet.
    Empty,
    /// The bus is closed and the subscriber has read all that was retained.
    Closed,
}

/// Mathematical value of a [`Received`].
pub enum ReceivedView {
    Frame(FrameView),
    Lagged(nat),
    Empty,
    Closed,
}

impl View for Received {
    type V = ReceivedView;

    open spec fn view(&self) -> ReceivedView {
        match *self {
            Received::Frame(frame) => ReceivedView::Frame(frame@),
            Received::Lagged(n) => ReceivedView::Lagged(n as nat),
            Received::Empty => ReceivedView::Empty,
            Received::Closed => ReceivedView::Closed,
        }
    }
}

/// Mathematical value of the bus.
pub struct BusView {
    /// Most frames the bus retains.
    pub capacity: nat,
    /// Number of frames published so far; also the next sequence number.
    pub published: nat,
    /// The retained frames, oldest first.
    pub retained: Seq<FrameView>,
    /// Whether the bus has been closed.
    pub closed: bool,
}

impl BusView {
    /// The bus retains the most recent frames, as many as fit.
    pub open spec fn wf(self) -> bool {
        &&& self.capacity > 0
        &&& self.retained.len() == if self.published < self.capacity {
            self.published
        } else {
            self.capacity
        }
    }

    /// Sequence number of the oldest retained frame.
    pub open spec fn oldest(self) -> nat {
        (self.published - self.retained.len()) as nat
    }

    /// Number of published frames the cursor has not passed yet.
    pub open spec fn backlog(self, cursor: nat) -> nat {
        if cursor <= self.published {
            (self.published - cursor) as nat
        } else {
            0
        }
    }

    /// The bus after one more frame: the frame is appended, and the oldest
    /// frame leaves if the bus was full.
    pub open spec fn publish(self, frame: FrameView) -> BusView {
        let grown = self.retained.push(frame);
        BusView {
            capacity: self.capacity,
            published: self.published + 1,
            retained: if grown.len() > self.capacity {
                grown.drop_first()
            } else {
                grown
            },
            closed: self.closed,
        }
    }

    /// What a subscriber at `cursor` reads, and where its cursor stands
    /// afterwards.
    pub open spec fn receive(self, cursor: nat) -> (ReceivedView, nat) {
        if cursor >= self.published {
            (
                if self.closed {
                    ReceivedView::Closed
                } else {
                    ReceivedView::Empty
                },
                cursor,
            )
        } else if cursor < self.oldest() {
            (ReceivedView::Lagged((self.oldest() - cursor) as nat), self.oldest())
        } else {
            (ReceivedView::Frame(self.retained[cursor - self.oldest()]), cursor + 1)
        }
    }
}

/// The frame as the bus carries it when it came in on the stream of the
/// camera `source`: whatever the frame said of its origin, it is that camera's.
pub open spec fn tagged(frame: FrameView, source: u64) -> FrameView {
    FrameView { source, ..frame }
}

/// The bus itself. Producers publish into it, subscribers read from it with
/// their own [`Subscription`].
pub struct Router {
    capacity: usize,
    published: u64,
    retained: VecDeque<Frame>,
    closed: bool,
}

/// A subscriber's read cursor.
#[derive(Debug)]
pub struct Subscription {
    next: u64,
}

impl Subscription {
    /// Sequence number of the frame this subscriber reads next.
    pub closed spec fn cursor(&self) -> nat {
        self.next as nat
    }

    /// Sequence number of the frame this subscriber reads next.
    pub fn position(&self) -> (next: u64)
        ensures
            next == self.cursor(),
    {
        self.next
    }
}

impl View for Router {
    type V = BusView;

    closed spec fn view(&self) -> BusView {
        BusView {
            capacity: self.capacity as nat,
            published: self.published as nat,
            retained: Seq::new(self.retained@.len(), |i: int| self.retained@[i]@),
            closed: self.closed,
        }
    }
}

impl Router {
    /// The retained window is as the model demands.
    pub open spec fn wf(&self) -> bool {
        self@.wf()
    }

    /// A bus that retains at most `buffer_capacity` frames. A capacity of
    /// zero is refused.
    pub fn new(buffer_capacity: usize) -> (made: Result<Router, BusError>)
        ensures
            buffer_capacity == 0 <==> made is Err,
            made matches Err(e) ==> e == BusError::ZeroCapacity,
            made matches Ok(router) ==> {
                &&& router.wf()
                &&& router@.capacity == buffer_capacity
                &&& router@.published == 0
                &&& router@.retained == Seq::<FrameView>::empty()
                &&& !router@.closed
            },
    {
        if buffer_capacity == 0 {
            return Err(BusError::ZeroCapacity);
        }
        let router = Router {
            capacity: buffer_capacity,
            published: 0,
            retained: VecDeque::new(),
            closed: false,
        };
        assert(router@.retained =~= Seq::<FrameView>::empty());
        Ok(router)
    }

    /// Most frames the bus retains.
    pub fn capacity(&self) -> (n: usize)
        ensures
            n == self@.capacity,
    {
        self.capacity
    }

    /// Number of frames published so far.
    pub fn published(&self) -> (n: u64)
        ensures
            n == self@.published,
    {
        self.published
    }

    /// Whether the bus has been closed.
    pub fn is_closed(&self) -> (closed: bool)
        ensures
            closed == self@.closed,
    {
        self.closed
    }

    /// Publishes one frame to every subscriber. Never waits for a reader:
    /// when the bus is full the oldest retained frame is overwritten.
    ///
    /// Refused, with the bus unchanged, exactly when the bus is closed or
    /// out of sequence numbers.
    pub fn publish(&mut self, frame: Frame) -> (done: Result<(), BusError>)
        requires
            old(self).wf(),
        ensures
            final(self).wf(),
            done == if old(self)@.closed {
                Err::<(), BusError>(BusError::Closed)
            } else if old(self)@.published == u64::MAX {
                Err::<(), BusError>(BusError::Exhausted)
            } else {
                Ok::<(), BusError>(())
            },
            done is Ok ==> final(self)@ == old(self)@.publish(frame@),
            done is Err ==> final(self)@ == old(self)@,
    {
        if self.closed {
            return Err(BusError::Closed);
        }
        if self.published == u64::MAX {
            return Err(BusError::Exhausted);
        }
        if self.retained.len() >= self.capacity {
            let _ = self.retained.pop_front();
        }
        self.retained.push_back(frame);
        self.published = self.published + 1;
        assert(final(self)@.retained =~= old(self)@.publish(frame@).retained);
        Ok(())
    }

    /// Publishes a frame that was read from a camera's frame stream. The
    /// frame is tagged with the identifier of the camera whose connection it
    /// came in on, and is otherwise published as it is.
    pub fn publish_from(&mut self, source: SourceId, frame: Frame) -> (done: Result<(), BusError>)
        requires
            old(self).wf(),
        ensures
            final(self).wf(),
            done == if old(self)@.closed {
                Err::<(), BusError>(BusError::Closed)
            } else if old(self)@.published == u64::MAX {
                Err::<(), BusError>(BusError::Exhausted)
            } else {
                Ok::<(), BusError>(())
            },
            done is Ok ==> final(self)@ == old(self)@.publish(tagged(frame@, source.0)),
            done is Err ==> final(self)@ == old(self)@,
    {
        let mut frame = frame;
        frame.source = source;
        self.publish(frame)
    }

    /// Closes the bus: nothing more is published, subscribers drain what is
    /// retained and are then told that the bus is closed.
    pub fn close(&mut self)
        ensures
            final(self)@ == (BusView { closed: true, ..old(self)@ }),
    {
        self.closed = true;
    }

    /// A new subscriber. It sees the frames published from now on.
    pub fn subscribe(&self) -> (sub: Subscription)
        ensures
            sub.cursor() == self@.published,
    {
        Subscription { next: self.published }
    }

    /// Number of published frames the subscriber has not read or skipped.
    pub fn backlog(&self, sub: &Subscription) -> (n: u64)
        ensures
            n == self@.backlog(sub.cursor()),
    {
        if sub.next <= self.published {
            self.published - sub.next
        } else {
            0
        }
    }

    /// Reads for one subscriber: the next frame in publish order; or, if
    /// frames it had not read were overwritten, how many, with the cursor
    /// moved to the oldest frame still retained; or that there is nothing.
    pub fn recv(&self, sub: &mut Subscription) -> (got: Received)
        requires
            self.wf(),
        ensures
            (got@, final(sub).cursor()) == self@.receive(old(sub).cursor()),
    {
        if sub.next >= self.published {
            return if self.closed {
                Received::Closed
            } else {
                Received::Empty
            };
        }
        let held: u64 = self.retained.len() as u64;
        let oldest: u64 = self.published - held;
        if sub.next < oldest {
            let missed: u64 = oldest - sub.next;
            sub.next = oldest;
            return Received::Lagged(missed);
        }
        let slot: usize = (sub.next - oldest) as usize;
        let frame = self.retained[slot].duplicate();
        sub.next = sub.next + 1;
        Received::Frame(frame)
    }
}

} // verus!
