//! What the recording can rely on, stated over the storage model.
//!
//! These statements are proved from the model of the segment store alone, so
//! they hold for every sequence of calls the executable store can see.

use crate::frame::{Channel, FrameView};
use crate::record::record_len;
use crate::storage::{
    bytes_of, expiry, holds, is_expired, lasting, lemma_bytes_of_bounds, lemma_bytes_of_concat,
    lemma_bytes_of_split, lemma_bytes_of_update, lemma_filter_keeps_order, lemma_sealed_with,
    rank, rolls_over, trim_count, Placement, SegmentInfo, StoreView,
};
use vstd::prelude::*;

verus! {

/// One call on the store.
pub enum StoreStep {
    /// `store` of this frame at this wall-clock second.
    Store(FrameView, u64),
    /// `cleanup` with this size limit and retention at this wall-clock second.
    Cleanup(u64, u64, u64),
    /// `forget_write` of this many bytes for this camera and channel.
    Forget(u64, Channel, u64),
}

/// The segment a placement puts the record in.
pub open spec fn segment_of(placement: Placement) -> u64 {
    match placement {
        Placement::Appended { segment } => segment,
        Placement::Opened { segment } => segment,
        Placement::Rolled { segment, .. } => segment,
    }
}

/// The store after one call. A refused call leaves the store as it was.
pub open spec fn step(store: StoreView, call: StoreStep) -> StoreView {
    match call {
        StoreStep::Store(frame, now_secs) => match store.stored(frame, now_secs) {
            Ok((after, _)) => after,
            Err(_) => store,
        },
        StoreStep::Cleanup(max_size_bytes, retention_secs, now_secs) => store.swept(
            max_size_bytes,
            retention_secs,
            now_secs,
        ).0,
        StoreStep::Forget(source, channel, bytes) => match store.forgot(source, channel, bytes) {
            Some(after) => after,
            None => store,
        },
    }
}

/// The store after a sequence of calls.
pub open spec fn after(store: StoreView, calls: Seq<StoreStep>) -> StoreView
    decreases calls.len(),
{
    if calls.len() == 0 {
        store
    } else {
        step(after(store, calls.drop_last()), calls.last())
    }
}

/// Whether the call stores a video frame of this camera.
pub open spec fn is_video_of(call: StoreStep, source: u64) -> bool {
    match call {
        StoreStep::Store(frame, _) => frame.is_video() && frame.source == source,
        _ => false,
    }
}

proof fn lemma_slot(store: StoreView, i: int)
    requires
        store.wf(),
        0 <= i < store.open.len(),
    ensures
        store.has_open(store.open[i].source.0, store.open[i].channel),
        store.slot(store.open[i].source.0, store.open[i].channel) == i,
{
    let source = store.open[i].source.0;
    let channel = store.open[i].channel;
    assert(holds(store.open[i], source, channel));
    let picked = store.slot(source, channel);
    assert(0 <= picked < store.open.len() && holds(store.open[picked], source, channel));
    if picked < i {
        assert(!holds(store.open[picked], store.open[i].source.0, store.open[i].channel));
    } else if picked > i {
        assert(!holds(store.open[i], store.open[picked].source.0, store.open[picked].channel));
    }
}

/// Storing a frame keeps the store well formed, and afterwards the segment
/// that took the frame is the open segment of the frame's camera and channel.
pub proof fn lemma_stored(store: StoreView, frame: FrameView, now_secs: u64)
    requires
        store.wf(),
        store.stored(frame, now_secs) is Ok,
    ensures
        ({
            let (next, placement) = store.stored(frame, now_secs)->Ok_0;
            &&& next.wf()
            &&& next.has_open(frame.source, frame.channel)
            &&& next.open[next.slot(frame.source, frame.channel)].id == segment_of(placement)
            &&& next.open.len() >= store.open.len()
            &&& forall|i: int|
                0 <= i < store.open.len() && !holds(
                    #[trigger] store.open[i],
                    frame.source,
                    frame.channel,
                ) ==> next.open[i] == store.open[i]
            &&& forall|i: int|
                0 <= i < store.open.len() ==> holds(
                    #[trigger] next.open[i],
                    store.open[i].source.0,
                    store.open[i].channel,
                )
        }),
{
    let (next, placement) = store.stored(frame, now_secs)->Ok_0;
    if !store.has_open(frame.source, frame.channel) {
        let at = store.open.len() as int;
        assert(next.open.drop_last() =~= store.open);
        assert forall|i: int, j: int| 0 <= i < j < next.open.len() implies !holds(
            #[trigger] next.open[i],
            (#[trigger] next.open[j]).source.0,
            next.open[j].channel,
        ) by {
            if j == at {
                assert(!holds(store.open[i], frame.source, frame.channel));
            }
        }
        lemma_slot(next, at);
    } else {
        let at = store.slot(frame.source, frame.channel);
        let current = store.open[at];
        lemma_bytes_of_update(store.open, at, next.open[at]);
        assert(holds(next.open[at], frame.source, frame.channel));
        assert forall|i: int, j: int| 0 <= i < j < next.open.len() implies !holds(
            #[trigger] next.open[i],
            (#[trigger] next.open[j]).source.0,
            next.open[j].channel,
        ) by {
            assert(!holds(store.open[i], store.open[j].source.0, store.open[j].channel));
        }
        if rolls_over(current.start_us, frame, store.segment_duration_us) {
            lemma_sealed_with(store.sealed, current);
        }
        lemma_bytes_of_bounds(store.open, at);
        lemma_slot(next, at);
    }
}

/// Taking an unwritten record off the books keeps the store well formed and
/// leaves every segment open, under its number.
pub proof fn lemma_forgot(store: StoreView, source: u64, channel: Channel, bytes: u64)
    requires
        store.wf(),
        store.forgot(source, channel, bytes) is Some,
    ensures
        ({
            let next = store.forgot(source, channel, bytes)->Some_0;
            &&& next.wf()
            &&& next.sealed == store.sealed
            &&& next.open.len() == store.open.len()
            &&& forall|i: int|
                0 <= i < store.open.len() ==> (#[trigger] next.open[i]).id == store.open[i].id
                    && holds(next.open[i], store.open[i].source.0, store.open[i].channel)
        }),
{
    let next = store.forgot(source, channel, bytes)->Some_0;
    let at = store.slot(source, channel);
    lemma_bytes_of_update(store.open, at, next.open[at]);
    lemma_bytes_of_bounds(store.open, at);
    assert forall|i: int, j: int| 0 <= i < j < next.open.len() implies !holds(
        #[trigger] next.open[i],
        (#[trigger] next.open[j]).source.0,
        next.open[j].channel,
    ) by {
        assert(!holds(store.open[i], store.open[j].source.0, store.open[j].channel));
    }
}

proof fn lemma_trim(sealed: Seq<SegmentInfo>, floor: nat, max_size_bytes: nat)
    ensures
        trim_count(sealed, floor, max_size_bytes) <= sealed.len(),
        floor + bytes_of(sealed.skip(trim_count(sealed, floor, max_size_bytes) as int))
            <= max_size_bytes || trim_count(sealed, floor, max_size_bytes) == sealed.len(),
        bytes_of(sealed) == bytes_of(sealed.take(trim_count(sealed, floor, max_size_bytes) as int))
            + bytes_of(sealed.skip(trim_count(sealed, floor, max_size_bytes) as int)),
    decreases sealed.len(),
{
    let k = trim_count(sealed, floor, max_size_bytes) as int;
    if sealed.len() == 0 || floor + bytes_of(sealed) <= max_size_bytes {
        assert(sealed.skip(0) =~= sealed);
    } else {
        lemma_trim(sealed.drop_first(), floor, max_size_bytes);
        assert(sealed.drop_first().skip(k - 1) =~= sealed.skip(k));
    }
    lemma_bytes_of_concat(sealed.take(k), sealed.skip(k));
    assert(sealed.take(k) + sealed.skip(k) =~= sealed);
}

/// A cleanup never deletes an open segment, whatever the ledger says: the
/// open segments are exactly as before, and every deleted segment was sealed.
/// What it deletes leaves the books: the ledger drops by the bytes of the
/// deleted segments. Afterwards no sealed segment is older than the
/// retention allows, and the ledger is within the size limit unless nothing
/// sealed is left to delete.
pub proof fn law_cleanup(store: StoreView, max_size_bytes: u64, retention_secs: u64, now_secs: u64)
    requires
        store.wf(),
    ensures
        ({
            let (next, removed) = store.swept(max_size_bytes, retention_secs, now_secs);
            &&& next.wf()
            &&& next.open == store.open
            &&& forall|i: int| 0 <= i < removed.len() ==> store.sealed.contains(#[trigger] removed[i])
            &&& forall|i: int|
                0 <= i < next.sealed.len() ==> store.sealed.contains(#[trigger] next.sealed[i])
            &&& next.total_bytes + bytes_of(removed) == store.total_bytes
            &&& forall|i: int|
                0 <= i < next.sealed.len() ==> !is_expired(
                    #[trigger] next.sealed[i],
                    now_secs,
                    retention_secs,
                )
            &&& next.total_bytes <= max_size_bytes || next.sealed.len() == 0
        }),
{
    let (next, removed) = store.swept(max_size_bytes, retention_secs, now_secs);
    let expired = store.sealed.filter(expiry(now_secs, retention_secs));
    let rest = store.sealed.filter(lasting(now_secs, retention_secs));
    let floor = bytes_of(store.open);
    let k = trim_count(rest, floor, max_size_bytes as nat) as int;
    lemma_trim(rest, floor, max_size_bytes as nat);
    lemma_bytes_of_split(store.sealed, now_secs, retention_secs);
    lemma_bytes_of_concat(expired, rest.take(k));
    assert forall|i: int| 0 <= i < removed.len() implies store.sealed.contains(
        #[trigger] removed[i],
    ) by {
        if i < expired.len() {
            assert(expired.contains(expired[i]));
            store.sealed.lemma_filter_contains_rev(expiry(now_secs, retention_secs), expired[i]);
        } else {
            assert(rest.contains(rest[i - expired.len()]));
            store.sealed.lemma_filter_contains_rev(
                lasting(now_secs, retention_secs),
                rest[i - expired.len()],
            );
        }
    }
    assert forall|i: int| 0 <= i < next.sealed.len() implies store.sealed.contains(
        #[trigger] next.sealed[i],
    ) && !is_expired(next.sealed[i], now_secs, retention_secs) by {
        assert(next.sealed[i] == rest[i + k]);
        assert(rest.contains(rest[i + k]));
        store.sealed.lemma_filter_contains_rev(lasting(now_secs, retention_secs), rest[i + k]);
        store.sealed.lemma_filter_pred(lasting(now_secs, retention_secs), i + k);
    }
    lemma_filter_keeps_order(store.sealed, lasting(now_secs, retention_secs));
    assert forall|j: int| 0 <= j < next.sealed.len() implies (#[trigger] next.sealed[j]).id
        < next.next_id && (forall|i: int|
        0 <= i < store.open.len() ==> (#[trigger] store.open[i]).id != next.sealed[j].id) by {
        let at = choose|at: int| 0 <= at < store.sealed.len() && store.sealed[at] == next.sealed[j];
        assert(store.sealed[at].id < store.next_id);
    }
    assert forall|i: int, j: int| 0 <= i < j < next.sealed.len() implies (
    #[trigger] next.sealed[i]).id < (#[trigger] next.sealed[j]).id by {
        assert(rest[i + k].id < rest[j + k].id);
    }
}

/// The size limit takes the oldest segments. A segment that a cleanup
/// deletes although the retention still allowed it was opened before every
/// sealed segment that stays: its number is lower than theirs.
pub proof fn law_trim_takes_the_oldest(
    store: StoreView,
    max_size_bytes: u64,
    retention_secs: u64,
    now_secs: u64,
)
    requires
        store.wf(),
    ensures
        ({
            let (next, removed) = store.swept(max_size_bytes, retention_secs, now_secs);
            forall|i: int, j: int|
                0 <= i < removed.len() && 0 <= j < next.sealed.len() && !is_expired(
                    #[trigger] removed[i],
                    now_secs,
                    retention_secs,
                ) ==> removed[i].id < (#[trigger] next.sealed[j]).id
        }),
{
    let (next, removed) = store.swept(max_size_bytes, retention_secs, now_secs);
    let expired = store.sealed.filter(expiry(now_secs, retention_secs));
    let rest = store.sealed.filter(lasting(now_secs, retention_secs));
    let k = trim_count(rest, bytes_of(store.open), max_size_bytes as nat) as int;
    lemma_trim(rest, bytes_of(store.open), max_size_bytes as nat);
    lemma_filter_keeps_order(store.sealed, lasting(now_secs, retention_secs));
    assert forall|i: int, j: int|
        0 <= i < removed.len() && 0 <= j < next.sealed.len() && !is_expired(
            #[trigger] removed[i],
            now_secs,
            retention_secs,
        ) implies removed[i].id < (#[trigger] next.sealed[j]).id by {
        if i < expired.len() {
            store.sealed.lemma_filter_pred(expiry(now_secs, retention_secs), i);
        } else {
            assert(removed[i] == rest[i - expired.len()]);
            assert(next.sealed[j] == rest[j + k]);
            assert(rest[i - expired.len()].id < rest[j + k].id);
        }
    }
}

proof fn lemma_step_keeps(store: StoreView, call: StoreStep, source: u64, i: int)
    requires
        store.wf(),
        !is_video_of(call, source),
        0 <= i < store.open.len(),
        holds(store.open[i], source, Channel::Video),
    ensures
        step(store, call).wf(),
        i < step(store, call).open.len(),
        holds(step(store, call).open[i], source, Channel::Video),
        step(store, call).open[i].id == store.open[i].id,
{
    match call {
        StoreStep::Store(frame, now_secs) => {
            if store.stored(frame, now_secs) is Ok {
                lemma_stored(store, frame, now_secs);
            }
        },
        StoreStep::Cleanup(max_size_bytes, retention_secs, now_secs) => {
            law_cleanup(store, max_size_bytes, retention_secs, now_secs);
        },
        StoreStep::Forget(camera, channel, bytes) => {
            if store.forgot(camera, channel, bytes) is Some {
                lemma_forgot(store, camera, channel, bytes);
            }
        },
    }
}

proof fn lemma_after_keeps(store: StoreView, calls: Seq<StoreStep>, source: u64, i: int)
    requires
        store.wf(),
        forall|k: int| 0 <= k < calls.len() ==> !is_video_of(#[trigger] calls[k], source),
        0 <= i < store.open.len(),
        holds(store.open[i], source, Channel::Video),
    ensures
        after(store, calls).wf(),
        i < after(store, calls).open.len(),
        holds(after(store, calls).open[i], source, Channel::Video),
        after(store, calls).open[i].id == store.open[i].id,
    decreases calls.len(),
{
    if calls.len() > 0 {
        let before = calls.drop_last();
        assert forall|k: int| 0 <= k < before.len() implies !is_video_of(
            #[trigger] before[k],
            source,
        ) by {
            assert(before[k] == calls[k]);
        }
        lemma_after_keeps(store, before, source, i);
        lemma_step_keeps(after(store, before), calls.last(), source, i);
    }
}

/// Every sequence of calls keeps the store well formed.
pub proof fn law_store_stays_well_formed(store: StoreView, calls: Seq<StoreStep>)
    requires
        store.wf(),
    ensures
        after(store, calls).wf(),
    decreases calls.len(),
{
    if calls.len() > 0 {
        law_store_stays_well_formed(store, calls.drop_last());
        let before = after(store, calls.drop_last());
        match calls.last() {
            StoreStep::Store(frame, now_secs) => {
                if before.stored(frame, now_secs) is Ok {
                    lemma_stored(before, frame, now_secs);
                }
            },
            StoreStep::Cleanup(max_size_bytes, retention_secs, now_secs) => {
                law_cleanup(before, max_size_bytes, retention_secs, now_secs);
            },
            StoreStep::Forget(camera, channel, bytes) => {
                if before.forgot(camera, channel, bytes) is Some {
                    lemma_forgot(before, camera, channel, bytes);
                }
            },
        }
    }
}

/// A sealed segment never changes. Every segment that is sealed after a call
/// either was sealed before it and is as it was, or was open before it and
/// is sealed as the call found it. As no two segments share a number, nothing
/// is ever added to or taken from a segment once it is sealed; it can only be
/// deleted whole.
pub proof fn law_sealed_segments_do_not_change(store: StoreView, call: StoreStep)
    requires
        store.wf(),
    ensures
        forall|j: int|
            0 <= j < step(store, call).sealed.len() ==> store.sealed.contains(
                #[trigger] step(store, call).sealed[j],
            ) || store.open.contains(step(store, call).sealed[j]),
{
    let next = step(store, call);
    match call {
        StoreStep::Store(frame, now_secs) => {
            assert forall|j: int| 0 <= j < next.sealed.len() implies store.sealed.contains(
                #[trigger] next.sealed[j],
            ) || store.open.contains(next.sealed[j]) by {
                if !(store.stored(frame, now_secs) matches Ok((_, Placement::Rolled { .. }))) {
                    assert(next.sealed == store.sealed);
                    assert(store.sealed[j] == next.sealed[j]);
                } else {
                    let at = store.slot(frame.source, frame.channel);
                    lemma_sealed_with(store.sealed, store.open[at]);
                    let place = rank(store.sealed, store.open[at].id);
                    if j < place {
                        assert(store.sealed[j] == next.sealed[j]);
                    } else if j == place {
                        assert(store.open[at] == next.sealed[j]);
                    } else {
                        assert(store.sealed[j - 1] == next.sealed[j]);
                    }
                }
            }
        },
        StoreStep::Cleanup(max_size_bytes, retention_secs, now_secs) => {
            law_cleanup(store, max_size_bytes, retention_secs, now_secs);
        },
        StoreStep::Forget(camera, channel, bytes) => {
            assert forall|j: int| 0 <= j < next.sealed.len() implies store.sealed.contains(
                #[trigger] next.sealed[j],
            ) by {
                assert(store.sealed[j] == next.sealed[j]);
            }
        },
    }
}

/// Of two video frames of one camera that are stored one after the other,
/// with no video frame of that camera stored between them, the later one is
/// a keyframe whenever it lands in another segment than the earlier one.
/// Whatever else happens between the two (frames of other cameras or other
/// channels, cleanups, records taken off the books) does not matter.
pub proof fn law_video_segments_start_at_keyframes(
    store: StoreView,
    earlier: FrameView,
    earlier_secs: u64,
    between: Seq<StoreStep>,
    later: FrameView,
    later_secs: u64,
)
    requires
        store.wf(),
        earlier.is_video(),
        later.is_video(),
        earlier.source == later.source,
        forall|k: int| 0 <= k < between.len() ==> !is_video_of(#[trigger] between[k], later.source),
        store.stored(earlier, earlier_secs) is Ok,
        after(store.stored(earlier, earlier_secs)->Ok_0.0, between).stored(later, later_secs) is Ok,
    ensures
        ({
            let (first, first_placement) = store.stored(earlier, earlier_secs)->Ok_0;
            let (_, second_placement) = after(first, between).stored(later, later_secs)->Ok_0;
            segment_of(first_placement) != segment_of(second_placement) ==> later.is_keyframe()
        }),
{
    let (first, first_placement) = store.stored(earlier, earlier_secs)->Ok_0;
    lemma_stored(store, earlier, earlier_secs);
    let i = first.slot(earlier.source, earlier.channel);
    assert(0 <= i < first.open.len() && holds(first.open[i], earlier.source, earlier.channel));
    lemma_after_keeps(first, between, later.source, i);
    let second = after(first, between);
    lemma_slot(second, i);
}

/// What the recording of one camera and channel looks like from within: the
/// timestamp at which its open segment starts and the bytes that segment
/// holds. The segment's number and the second it was opened are left out:
/// they depend on what else the store has seen.
pub struct Shape {
    pub start_us: u64,
    pub bytes: u64,
}

/// The shape of the open segment of a camera and channel, if one is open.
pub open spec fn shape_of(store: StoreView, source: u64, channel: Channel) -> Option<Shape> {
    if store.has_open(source, channel) {
        let segment = store.open[store.slot(source, channel)];
        Some(Shape { start_us: segment.start_us, bytes: segment.bytes })
    } else {
        None
    }
}

/// A call that concerns one camera and channel and was carried out.
pub enum OwnCall {
    /// A frame of theirs was stored.
    Stored(FrameView),
    /// This many bytes of theirs were taken off the books.
    Forgot(u64),
}

/// The shape after one call of their own.
pub open spec fn shape_after(shape: Option<Shape>, call: OwnCall, duration: nat) -> Option<Shape> {
    match call {
        OwnCall::Stored(frame) => {
            let len = record_len(frame.payload.len()) as u64;
            let fresh = Some(Shape { start_us: frame.timestamp_us, bytes: len });
            match shape {
                None => fresh,
                Some(open) => if rolls_over(open.start_us, frame, duration) {
                    fresh
                } else {
                    Some(Shape { start_us: open.start_us, bytes: (open.bytes + len) as u64 })
                },
            }
        },
        OwnCall::Forgot(bytes) => match shape {
            None => None,
            Some(open) => Some(Shape { start_us: open.start_us, bytes: (open.bytes - bytes) as u64 }),
        },
    }
}

/// The shape after a sequence of calls of their own.
pub open spec fn shape_after_all(shape: Option<Shape>, calls: Seq<OwnCall>, duration: nat) -> Option<
    Shape,
>
    decreases calls.len(),
{
    if calls.len() == 0 {
        shape
    } else {
        shape_after(shape_after_all(shape, calls.drop_last(), duration), calls.last(), duration)
    }
}

/// What a call amounts to for one camera and channel: the call itself if it
/// concerns them and is carried out, and nothing otherwise.
pub open spec fn own_call(store: StoreView, call: StoreStep, source: u64, channel: Channel) -> Option<
    OwnCall,
> {
    match call {
        StoreStep::Store(frame, now_secs) => if frame.source == source && frame.channel == channel
            && store.stored(frame, now_secs) is Ok {
            Some(OwnCall::Stored(frame))
        } else {
            None
        },
        StoreStep::Forget(camera, of, bytes) => if camera == source && of == channel
            && store.forgot(camera, of, bytes) is Some {
            Some(OwnCall::Forgot(bytes))
        } else {
            None
        },
        StoreStep::Cleanup(_, _, _) => None,
    }
}

/// The calls of a sequence that concern one camera and channel and are
/// carried out, in order.
pub open spec fn own_calls(store: StoreView, calls: Seq<StoreStep>, source: u64, channel: Channel) -> Seq<
    OwnCall,
>
    decreases calls.len(),
{
    if calls.len() == 0 {
        Seq::empty()
    } else {
        let earlier = own_calls(store, calls.drop_last(), source, channel);
        match own_call(after(store, calls.drop_last()), calls.last(), source, channel) {
            Some(call) => earlier.push(call),
            None => earlier,
        }
    }
}

proof fn lemma_no_slot(store: StoreView, next: StoreView, source: u64, channel: Channel)
    requires
        !store.has_open(source, channel),
        next.open.len() >= store.open.len(),
        forall|i: int|
            0 <= i < store.open.len() ==> holds(
                #[trigger] next.open[i],
                store.open[i].source.0,
                store.open[i].channel,
            ),
        forall|i: int|
            store.open.len() <= i < next.open.len() ==> !holds(
                #[trigger] next.open[i],
                source,
                channel,
            ),
    ensures
        !next.has_open(source, channel),
{
    if next.has_open(source, channel) {
        let i = next.slot(source, channel);
        if i < store.open.len() {
            assert(holds(next.open[i], store.open[i].source.0, store.open[i].channel));
            assert(holds(store.open[i], source, channel));
        }
    }
}

proof fn lemma_step_shape(store: StoreView, call: StoreStep, source: u64, channel: Channel)
    requires
        store.wf(),
    ensures
        step(store, call).wf(),
        step(store, call).segment_duration_us == store.segment_duration_us,
        shape_of(step(store, call), source, channel) == match own_call(
            store,
            call,
            source,
            channel,
        ) {
            Some(own) => shape_after(
                shape_of(store, source, channel),
                own,
                store.segment_duration_us,
            ),
            None => shape_of(store, source, channel),
        },
{
    let next = step(store, call);
    match call {
        StoreStep::Store(frame, now_secs) => {
            if store.stored(frame, now_secs) is Ok {
                lemma_stored(store, frame, now_secs);
                if frame.source == source && frame.channel == channel {
                    if store.has_open(source, channel) {
                        let at = store.slot(source, channel);
                        assert(holds(next.open[at], source, channel));
                        lemma_slot(next, at);
                    } else {
                        let at = store.open.len() as int;
                        assert(holds(next.open[at], source, channel));
                        lemma_slot(next, at);
                    }
                } else if store.has_open(source, channel) {
                    let at = store.slot(source, channel);
                    assert(next.open[at] == store.open[at]);
                    lemma_slot(next, at);
                } else {
                    lemma_no_slot(store, next, source, channel);
                }
            }
        },
        StoreStep::Cleanup(max_size_bytes, retention_secs, now_secs) => {
            law_cleanup(store, max_size_bytes, retention_secs, now_secs);
            assert(next.open == store.open);
            assert(next.has_open(source, channel) == store.has_open(source, channel));
        },
        StoreStep::Forget(camera, of, bytes) => {
            if store.forgot(camera, of, bytes) is Some {
                lemma_forgot(store, camera, of, bytes);
                if store.has_open(source, channel) {
                    let at = store.slot(source, channel);
                    assert(holds(next.open[at], source, channel));
                    lemma_slot(next, at);
                } else {
                    lemma_no_slot(store, next, source, channel);
                }
            }
        },
    }
}

/// The recording of one camera and channel is made by its own frames alone.
/// After any sequence of calls, its open segment starts where, and holds
/// what, its own calls that were carried out make it, whatever was stored,
/// forgotten or cleaned up for others in between.
pub proof fn law_recording_follows_own_frames(
    store: StoreView,
    calls: Seq<StoreStep>,
    source: u64,
    channel: Channel,
)
    requires
        store.wf(),
    ensures
        after(store, calls).wf(),
        after(store, calls).segment_duration_us == store.segment_duration_us,
        shape_of(after(store, calls), source, channel) == shape_after_all(
            shape_of(store, source, channel),
            own_calls(store, calls, source, channel),
            store.segment_duration_us,
        ),
    decreases calls.len(),
{
    if calls.len() > 0 {
        let earlier = calls.drop_last();
        law_recording_follows_own_frames(store, earlier, source, channel);
        lemma_step_shape(after(store, earlier), calls.last(), source, channel);
        let own = own_calls(store, calls, source, channel);
        let own_earlier = own_calls(store, earlier, source, channel);
        if own_call(after(store, earlier), calls.last(), source, channel) is Some {
            assert(own.drop_last() =~= own_earlier);
        }
    }
}

/// What is recorded for one camera does not depend on the other cameras.
/// Take two sequences of calls from the same store in which the calls that
/// concern one camera and channel, and are carried out, are the same.
/// However the two differ in what they store, forget and clean up for
/// others, the camera's open segment starts at the same frame and holds the
/// same bytes in both: its frames were cut into segments at the same places.
pub proof fn law_recording_is_isolated(
    store: StoreView,
    one: Seq<StoreStep>,
    other: Seq<StoreStep>,
    source: u64,
    channel: Channel,
)
    requires
        store.wf(),
        own_calls(store, one, source, channel) == own_calls(store, other, source, channel),
    ensures
        shape_of(after(store, one), source, channel) == shape_of(
            after(store, other),
            source,
            channel,
        ),
{
    law_recording_follows_own_frames(store, one, source, channel);
    law_recording_follows_own_frames(store, other, source, channel);
}

} // verus!
