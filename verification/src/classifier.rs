//! Deciding what a new connection is.
//!
//! A camera opens a frame stream as soon as it is connected; a client never
//! does. So every connection starts by racing the acceptance of a frame
//! stream against a short timer. Whichever comes first decides, once and for
//! good: a frame stream makes a camera, the timer a client, and an outright
//! failure of the acceptance ends that connection. The loser of the race is
//! never read again. After that each side may get a command stream, whose
//! absence is not an error.
//!
//! The connection's task waits; this module decides. The task reports what
//! happened as an [`Event`] and does what the returned [`Action`] says.

use vstd::prelude::*;

verus! {

/// Milliseconds a connection may stay silent before it is taken for a client.
pub const DETECT_TIMEOUT_MS: u64 = 2000;

/// What a connection has been found to be.
#[derive(Clone, Copy, Debug, PartialEq, Eq, Structural)]
pub enum Role {
    /// Not decided yet: the race is on.
    Racing,
    /// The peer opened a frame stream.
    Camera,
    /// The peer stayed silent for the whole detection window.
    Client,
    /// Accepting the frame stream failed outright.
    Failed,
}

/// State of a connection's command stream.
#[derive(Clone, Copy, Debug, PartialEq, Eq, Structural)]
pub enum CommandLink {
    /// None has been accepted yet.
    Pending,
    /// One was accepted and is in use.
    Ready,
    /// Accepting one failed; the connection goes on without.
    Absent,
}

/// What the connection's task observed.
#[derive(Clone, Copy, Debug, PartialEq, Eq, Structural)]
pub enum Event {
    /// The peer's frame stream was accepted.
    FrameStreamAccepted,
    /// Accepting a frame stream failed outright.
    FrameStreamFailed,
    /// This many milliseconds have passed since the connection was accepted.
    Waited(u64),
    /// A command stream was accepted.
    CommandStreamAccepted,
    /// Accepting a command stream failed, or the peer offers none.
    CommandStreamFailed,
}

/// What the connection's task is to do next.
#[derive(Clone, Copy, Debug, PartialEq, Eq, Structural)]
pub enum Action {
    /// Keep racing; the timer has this many milliseconds to go.
    KeepWaiting(u64),
    /// Publish the frame stream on the bus, and try to accept a command
    /// stream beside it.
    ServeCamera,
    /// Serve the client until it disconnects, and try to accept its command
    /// stream beside it.
    ServeClient,
    /// Give the connection up.
    Close,
    /// Register the camera's command stream under its identity.
    RegisterCommands,
    /// Pass the client's commands on to the cameras they name.
    RelayCommands,
    /// Refuse a frame stream that arrives after the connection was taken for
    /// a client.
    RejectLateStream,
    /// Nothing: the event changes nothing.
    Ignore,
}

/// The classifier of one connection.
#[derive(Clone, Copy, Debug, PartialEq, Eq, Structural)]
pub struct Classifier {
    /// What the connection is.
    pub role: Role,
    /// State of its command stream.
    pub commands: CommandLink,
}

/// The classifier of a connection that was just accepted.
pub open spec fn fresh() -> Classifier {
    Classifier { role: Role::Racing, commands: CommandLink::Pending }
}

/// Whether an event can end the race.
pub open spec fn decides(event: Event) -> bool {
    match event {
        Event::FrameStreamAccepted => true,
        Event::FrameStreamFailed => true,
        Event::Waited(millis) => millis >= DETECT_TIMEOUT_MS,
        _ => false,
    }
}

/// The role that a deciding event gives.
pub open spec fn verdict(event: Event) -> Role {
    match event {
        Event::FrameStreamAccepted => Role::Camera,
        Event::FrameStreamFailed => Role::Failed,
        Event::Waited(_) => Role::Client,
        _ => Role::Racing,
    }
}

/// The classifier after an event, and what is to be done.
pub open spec fn transition(state: Classifier, event: Event) -> (Classifier, Action) {
    match state.role {
        Role::Racing => match event {
            Event::FrameStreamAccepted => (
                Classifier { role: Role::Camera, ..state },
                Action::ServeCamera,
            ),
            Event::FrameStreamFailed => (Classifier { role: Role::Failed, ..state }, Action::Close),
            Event::Waited(millis) => if millis >= DETECT_TIMEOUT_MS {
                (Classifier { role: Role::Client, ..state }, Action::ServeClient)
            } else {
                (state, Action::KeepWaiting((DETECT_TIMEOUT_MS - millis) as u64))
            },
            _ => (state, Action::Ignore),
        },
        Role::Camera => match (event, state.commands) {
            (Event::CommandStreamAccepted, CommandLink::Pending) => (
                Classifier { commands: CommandLink::Ready, ..state },
                Action::RegisterCommands,
            ),
            (Event::CommandStreamFailed, CommandLink::Pending) => (
                Classifier { commands: CommandLink::Absent, ..state },
                Action::Ignore,
            ),
            _ => (state, Action::Ignore),
        },
        Role::Client => match (event, state.commands) {
            (Event::CommandStreamAccepted, CommandLink::Pending) => (
                Classifier { commands: CommandLink::Ready, ..state },
                Action::RelayCommands,
            ),
            (Event::CommandStreamFailed, CommandLink::Pending) => (
                Classifier { commands: CommandLink::Absent, ..state },
                Action::Ignore,
            ),
            (Event::FrameStreamAccepted, _) => (state, Action::RejectLateStream),
            _ => (state, Action::Ignore),
        },
        Role::Failed => (state, Action::Ignore),
    }
}

impl Classifier {
    /// The classifier of a connection that was just accepted: the race is
    /// on and no command stream has been seen.
    pub fn new() -> (state: Classifier)
        ensures
            state == fresh(),
    {
        Classifier { role: Role::Racing, commands: CommandLink::Pending }
    }

    /// Takes one event: moves to the next state and says what to do.
    pub fn on_event(&mut self, event: Event) -> (action: Action)
        ensures
            (*final(self), action) == transition(*old(self), event),
    {
        match self.role {
            Role::Racing => match event {
                Event::FrameStreamAccepted => {
                    self.role = Role::Camera;
                    Action::ServeCamera
                },
                Event::FrameStreamFailed => {
                    self.role = Role::Failed;
                    Action::Close
                },
                Event::Waited(millis) => {
                    if millis >= DETECT_TIMEOUT_MS {
                        self.role = Role::Client;
                        Action::ServeClient
                    } else {
                        Action::KeepWaiting(DETECT_TIMEOUT_MS - millis)
                    }
                },
                _ => Action::Ignore,
            },
            Role::Camera => match (event, self.commands) {
                (Event::CommandStreamAccepted, CommandLink::Pending) => {
                    self.commands = CommandLink::Ready;
                    Action::RegisterCommands
                },
                (Event::CommandStreamFailed, CommandLink::Pending) => {
                    self.commands = CommandLink::Absent;
                    Action::Ignore
                },
                _ => Action::Ignore,
            },
            Role::Client => match (event, self.commands) {
                (Event::CommandStreamAccepted, CommandLink::Pending) => {
                    self.commands = CommandLink::Ready;
                    Action::RelayCommands
                },
                (Event::CommandStreamFailed, CommandLink::Pending) => {
                    self.commands = CommandLink::Absent;
                    Action::Ignore
                },
                (Event::FrameStreamAccepted, _) => Action::RejectLateStream,
                _ => Action::Ignore,
            },
            Role::Failed => Action::Ignore,
        }
    }

    /// Whether the connection is still undecided.
    pub fn is_racing(&self) -> (racing: bool)
        ensures
            racing == (self.role == Role::Racing),
    {
        self.role == Role::Racing
    }
}

/// The classifier after a sequence of events.
pub open spec fn after(state: Classifier, events: Seq<Event>) -> Classifier
    decreases events.len(),
{
    if events.len() == 0 {
        state
    } else {
        transition(after(state, events.drop_last()), events.last()).0
    }
}

/// Whether some event of the sequence can end the race.
pub open spec fn is_decided(events: Seq<Event>) -> bool {
    exists|i: int| 0 <= i < events.len() && decides(#[trigger] events[i])
}

/// Place of the first event that can end the race.
pub open spec fn first_deciding(events: Seq<Event>) -> int
    decreases events.len(),
{
    if events.len() == 0 {
        0
    } else if decides(events[0]) {
        0
    } else {
        1 + first_deciding(events.drop_first())
    }
}

proof fn lemma_first_deciding(events: Seq<Event>)
    ensures
        0 <= first_deciding(events) <= events.len(),
        forall|i: int| 0 <= i < first_deciding(events) ==> !decides(#[trigger] events[i]),
        is_decided(events) <==> first_deciding(events) < events.len(),
        first_deciding(events) < events.len() ==> decides(events[first_deciding(events)]),
    decreases events.len(),
{
    if events.len() > 0 && !decides(events[0]) {
        let rest = events.drop_first();
        lemma_first_deciding(rest);
        assert forall|i: int| 0 <= i < first_deciding(events) implies !decides(
            #[trigger] events[i],
        ) by {
            if i > 0 {
                assert(events[i] == rest[i - 1]);
            }
        }
        if is_decided(events) {
            let w = choose|i: int| 0 <= i < events.len() && decides(#[trigger] events[i]);
            assert(decides(rest[w - 1]));
        }
        if first_deciding(rest) < rest.len() {
            assert(decides(events[first_deciding(rest) + 1]));
        }
    } else if events.len() > 0 {
        assert(decides(events[0]));
    }
}

/// A connection is classified exactly once: once its role is decided, no
/// event changes it.
pub proof fn law_classified_once(state: Classifier, events: Seq<Event>)
    requires
        state.role != Role::Racing,
    ensures
        after(state, events).role == state.role,
    decreases events.len(),
{
    if events.len() > 0 {
        law_classified_once(state, events.drop_last());
    }
}

/// Events that cannot end the race leave a racing connection racing, with
/// its command stream still pending.
pub proof fn lemma_still_racing(events: Seq<Event>)
    requires
        forall|i: int| 0 <= i < events.len() ==> !decides(#[trigger] events[i]),
    ensures
        after(fresh(), events) == fresh(),
    decreases events.len(),
{
    if events.len() > 0 {
        let before = events.drop_last();
        assert forall|i: int| 0 <= i < before.len() implies !decides(#[trigger] before[i]) by {
            assert(before[i] == events[i]);
        }
        lemma_still_racing(before);
        assert(!decides(events.last()));
    }
}

proof fn lemma_after_split(state: Classifier, events: Seq<Event>, at: int)
    requires
        0 <= at <= events.len(),
    ensures
        after(state, events) == after(after(state, events.take(at)), events.skip(at)),
    decreases events.len() - at,
{
    if at == events.len() {
        assert(events.take(at) =~= events);
    } else {
        assert(events.drop_last().take(at) =~= events.take(at));
        assert(events.drop_last().skip(at) =~= events.skip(at).drop_last());
        lemma_after_split(state, events.drop_last(), at);
    }
}

/// The race has one winner: whatever a connection observes, its role is the
/// verdict of the first event that could end the race, and it is still
/// racing if there was none.
///
/// So a connection is a camera exactly when a frame stream was accepted
/// before the detection window closed and before any failure; it is a client
/// exactly when the window closed first; and it has failed exactly when the
/// acceptance failed first.
pub proof fn law_first_event_decides(events: Seq<Event>)
    ensures
        !is_decided(events) ==> after(fresh(), events).role == Role::Racing,
        is_decided(events) ==> after(fresh(), events).role == verdict(
            events[first_deciding(events)],
        ),
{
    lemma_first_deciding(events);
    let k = first_deciding(events);
    if k < events.len() {
        let head = events.take(k);
        let tail = events.skip(k + 1);
        lemma_still_racing(head);
        lemma_after_split(fresh(), events, k + 1);
        assert(events.take(k + 1).drop_last() =~= head);
        assert(events.take(k + 1).last() == events[k]);
        let decided = after(fresh(), events.take(k + 1));
        assert(decided.role == verdict(events[k]));
        law_classified_once(decided, tail);
    } else {
        lemma_still_racing(events);
    }
}

/// A connection that is a camera has had its frame stream accepted, and
/// accepted before the detection window closed.
pub proof fn law_camera_has_frame_stream(events: Seq<Event>)
    requires
        after(fresh(), events).role == Role::Camera,
    ensures
        is_decided(events),
        events[first_deciding(events)] == Event::FrameStreamAccepted,
        forall|i: int|
            0 <= i < first_deciding(events) ==> !(#[trigger] events[i] matches Event::Waited(millis)
                && millis >= DETECT_TIMEOUT_MS),
{
    law_first_event_decides(events);
    lemma_first_deciding(events);
    assert forall|i: int| 0 <= i < first_deciding(events) implies !(
    #[trigger] events[i] matches Event::Waited(millis) && millis >= DETECT_TIMEOUT_MS) by {
        assert(!decides(events[i]));
    }
}

/// A connection that stays without a frame stream until the detection window
/// has closed is a client, whatever follows.
pub proof fn law_idle_connection_is_client(events: Seq<Event>, at: int)
    requires
        0 <= at < events.len(),
        events[at] matches Event::Waited(millis) && millis >= DETECT_TIMEOUT_MS,
        forall|i: int|
            0 <= i < at ==> #[trigger] events[i] != Event::FrameStreamAccepted && events[i]
                != Event::FrameStreamFailed,
    ensures
        after(fresh(), events).role == Role::Client,
{
    law_first_event_decides(events);
    lemma_first_deciding(events);
    assert(decides(events[at]));
    let k = first_deciding(events);
    if k > at {
        assert(!decides(events[at]));
    }
    if k < at {
        assert(events[k] != Event::FrameStreamAccepted && events[k] != Event::FrameStreamFailed);
    }
}

/// Whether a command stream is there or not never changes what a connection
/// is.
pub proof fn law_command_stream_is_optional(state: Classifier, accepted: bool)
    ensures
        transition(
            state,
            if accepted {
                Event::CommandStreamAccepted
            } else {
                Event::CommandStreamFailed
            },
        ).0.role == state.role,
{
}

} // verus!
