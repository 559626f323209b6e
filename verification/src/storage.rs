//! Segmented recording of frames, one run of segments per camera and
//! channel, and the retention rules that bound what is kept.
//!
//! This module decides; it does not touch the disk. `store` says into which
//! segment a frame's record goes and whether a segment was sealed or opened
//! for it, and keeps the ledger of bytes. `cleanup` says which sealed
//! segments are to be deleted. The caller writes and deletes the files.

use crate::frame::{Channel, Frame, FrameView, SourceId};
use crate::record::{record_len, MAX_PAYLOAD_LEN, RECORD_HEADER_LEN};
use vstd::prelude::*;

verus! {

/// Why the storage refused.
#[derive(Clone, Copy, Debug, PartialEq, Eq, Structural)]
pub enum StorageError {
    /// A setting that must not be zero is zero, or the root path is empty.
    InvalidConfig,
    /// The frame's payload is too long for a record.
    FrameTooLarge,
    /// The ledger cannot count the bytes of one more record.
    LedgerFull,
    /// Every segment number has been used.
    OutOfSegments,
}

/// Settings of the segment store.
#[derive(Clone, Debug, PartialEq, Eq)]
pub struct LocalStorageConfig {
    /// Directory under which the segment files live.
    pub root_path: String,
    /// Bytes the store is meant to stay under.
    pub max_size_bytes: u64,
    /// Age, in microseconds of frame time, at which a segment is due to be
    /// sealed.
    pub segment_duration_us: u64,
}

/// What is known of one segment.
#[derive(Clone, Copy, Debug, PartialEq, Eq, Structural)]
pub struct SegmentInfo {
    /// Number of the segment, unique within the store.
    pub id: u64,
    /// The camera whose frames the segment holds.
    pub source: SourceId,
    /// The channel whose frames the segment holds.
    pub channel: Channel,
    /// Timestamp of the segment's first frame.
    pub start_us: u64,
    /// Wall-clock second at which the segment was opened.
    pub opened_secs: u64,
    /// Bytes of records in the segment.
    pub bytes: u64,
}

/// Where the record of a stored frame goes.
#[derive(Clone, Copy, Debug, PartialEq, Eq, Structural)]
pub enum Placement {
    /// Behind the last record of the open segment `segment`.
    Appended { segment: u64 },
    /// At the start of `segment`, opened because none was open.
    Opened { segment: u64 },
    /// At the start of `segment`, opened after `sealed` was sealed.
    Rolled { sealed: u64, segment: u64 },
}

/// What a cleanup did.
#[derive(Debug)]
pub struct CleanupReport {
    /// The segments that were taken off the books, for the caller to delete.
    pub removed: Vec<SegmentInfo>,
    /// Whether the ledger is still above the size limit.
    pub over_limit: bool,
}

/// Mathematical value of the segment store.
pub struct StoreView {
    /// The open segments, at most one per camera and channel.
    pub open: Seq<SegmentInfo>,
    /// The sealed segments, oldest first: in the order in which they were
    /// opened, which is the order of their numbers.
    pub sealed: Seq<SegmentInfo>,
    /// The ledger: bytes of all segments, open and sealed.
    pub total_bytes: nat,
    /// Number the next segment gets.
    pub next_id: nat,
    /// Age at which a segment is due to be sealed.
    pub segment_duration_us: nat,
}

/// Sum of the bytes of the given segments.
pub open spec fn bytes_of(segments: Seq<SegmentInfo>) -> nat
    decreases segments.len(),
{
    if segments.len() == 0 {
        0
    } else {
        bytes_of(segments.drop_last()) + segments.last().bytes as nat
    }
}

/// Whether no two of the segments share a number.
pub open spec fn distinct_ids(segments: Seq<SegmentInfo>) -> bool {
    forall|i: int, j: int|
        0 <= i < j < segments.len() ==> (#[trigger] segments[i]).id != (#[trigger] segments[j]).id
}

/// Whether the segments stand in the order of their numbers, lowest first.
pub open spec fn ascending_ids(segments: Seq<SegmentInfo>) -> bool {
    forall|i: int, j: int|
        0 <= i < j < segments.len() ==> (#[trigger] segments[i]).id < (#[trigger] segments[j]).id
}

/// The place a segment with this number takes among segments that stand in
/// the order of their numbers: behind the last one with a lower number.
pub open spec fn rank(segments: Seq<SegmentInfo>, id: u64) -> int
    decreases segments.len(),
{
    if segments.len() == 0 {
        0
    } else if segments.last().id < id {
        segments.len() as int
    } else {
        rank(segments.drop_last(), id)
    }
}

/// The sealed segments with one more: it takes its place by its number, so
/// that a segment that was opened earlier stands before one that was opened
/// later, whichever of the two was sealed first.
pub open spec fn sealed_with(sealed: Seq<SegmentInfo>, segment: SegmentInfo) -> Seq<SegmentInfo> {
    sealed.insert(rank(sealed, segment.id), segment)
}

/// Whether the segment holds the frames of this camera and channel.
pub open spec fn holds(segment: SegmentInfo, source: u64, channel: Channel) -> bool {
    segment.source.0 == source && segment.channel == channel
}

/// Whether the age of a segment that starts at `start_us`, measured from its
/// first frame to this frame, has reached the duration. A frame stamped
/// before the segment's start gives the segment no age.
pub open spec fn is_due(start_us: u64, frame: FrameView, duration: nat) -> bool {
    frame.timestamp_us >= start_us && frame.timestamp_us - start_us >= duration
}

/// Whether this frame seals the segment and starts the next: the segment is
/// due, and a video segment waits for a keyframe.
pub open spec fn rolls_over(start_us: u64, frame: FrameView, duration: nat) -> bool {
    is_due(start_us, frame, duration) && (!frame.is_video() || frame.is_keyframe())
}

/// The segment that a frame starts.
pub open spec fn started_by(id: u64, frame: FrameView, now_secs: u64, bytes: u64) -> SegmentInfo {
    SegmentInfo {
        id,
        source: SourceId(frame.source),
        channel: frame.channel,
        start_us: frame.timestamp_us,
        opened_secs: now_secs,
        bytes,
    }
}

/// The segment with `bytes` more bytes.
pub open spec fn grown_by(segment: SegmentInfo, bytes: u64) -> SegmentInfo {
    SegmentInfo { bytes: (segment.bytes + bytes) as u64, ..segment }
}

/// Whether a segment is older than the retention allows. A segment is as old
/// as its first frame: its age is counted from the second it was opened.
pub open spec fn is_expired(segment: SegmentInfo, now_secs: u64, retention_secs: u64) -> bool {
    now_secs >= segment.opened_secs && now_secs - segment.opened_secs > retention_secs
}

/// The test for segments that are older than the retention allows.
pub open spec fn expiry(now_secs: u64, retention_secs: u64) -> spec_fn(SegmentInfo) -> bool {
    |segment: SegmentInfo| is_expired(segment, now_secs, retention_secs)
}

/// The test for segments that the retention still allows.
pub open spec fn lasting(now_secs: u64, retention_secs: u64) -> spec_fn(SegmentInfo) -> bool {
    |segment: SegmentInfo| !is_expired(segment, now_secs, retention_secs)
}

/// How many of the oldest sealed segments have to go for the store to fit
/// under `max_size_bytes`, when `floor` bytes cannot be freed: as few as
/// possible, and all of them if even that is not enough. The oldest are
/// those that stand first: those that were opened first.
pub open spec fn trim_count(sealed: Seq<SegmentInfo>, floor: nat, max_size_bytes: nat) -> nat
    decreases sealed.len(),
{
    if sealed.len() == 0 || floor + bytes_of(sealed) <= max_size_bytes {
        0
    } else {
        1 + trim_count(sealed.drop_first(), floor, max_size_bytes)
    }
}

impl StoreView {
    /// The store after a cleanup, and the segments the cleanup deletes.
    ///
    /// Sealed segments older than the retention go first. Of the rest, the
    /// oldest go one by one until the ledger is within the size limit. In
    /// both rules a segment's age is that of its first frame: the retention
    /// counts from the second the segment was opened, and the oldest segment
    /// is the one that was opened first. Open segments are no candidates:
    /// they stay, whatever the ledger says.
    pub open spec fn swept(self, max_size_bytes: u64, retention_secs: u64, now_secs: u64) -> (
        StoreView,
        Seq<SegmentInfo>,
    ) {
        let expired = self.sealed.filter(expiry(now_secs, retention_secs));
        let rest = self.sealed.filter(lasting(now_secs, retention_secs));
        let trimmed = trim_count(rest, bytes_of(self.open), max_size_bytes as nat) as int;
        (
            StoreView {
                sealed: rest.skip(trimmed),
                total_bytes: bytes_of(self.open) + bytes_of(rest.skip(trimmed)),
                ..self
            },
            expired + rest.take(trimmed),
        )
    }

    /// The store after a record of `bytes` bytes that was booked for this
    /// camera and channel turned out not to have been written; `None` when no
    /// open segment of theirs holds that many bytes.
    pub open spec fn forgot(self, source: u64, channel: Channel, bytes: u64) -> Option<StoreView> {
        if self.has_open(source, channel) && self.open[self.slot(source, channel)].bytes >= bytes {
            let i = self.slot(source, channel);
            Some(
                StoreView {
                    open: self.open.update(
                        i,
                        SegmentInfo { bytes: (self.open[i].bytes - bytes) as u64, ..self.open[i] },
                    ),
                    total_bytes: (self.total_bytes - bytes) as nat,
                    ..self
                },
            )
        } else {
            None
        }
    }

    /// Whether a segment is open for this camera and channel.
    pub open spec fn has_open(self, source: u64, channel: Channel) -> bool {
        exists|i: int| 0 <= i < self.open.len() && holds(#[trigger] self.open[i], source, channel)
    }

    /// Place of the open segment for this camera and channel.
    pub open spec fn slot(self, source: u64, channel: Channel) -> int {
        choose|i: int| 0 <= i < self.open.len() && holds(#[trigger] self.open[i], source, channel)
    }

    /// The ledger is the sum of all segments, at most one segment is open per
    /// camera and channel, every segment number has been given out, no two
    /// segments share a number, and the sealed segments stand in the order
    /// of their numbers.
    pub open spec fn wf(self) -> bool {
        &&& self.segment_duration_us > 0
        &&& self.total_bytes == bytes_of(self.open) + bytes_of(self.sealed)
        &&& forall|i: int, j: int|
            0 <= i < j < self.open.len() ==> !holds(
                #[trigger] self.open[i],
                (#[trigger] self.open[j]).source.0,
                self.open[j].channel,
            )
        &&& forall|i: int| 0 <= i < self.open.len() ==> (#[trigger] self.open[i]).id < self.next_id
        &&& forall|i: int|
            0 <= i < self.sealed.len() ==> (#[trigger] self.sealed[i]).id < self.next_id
        &&& distinct_ids(self.open)
        &&& ascending_ids(self.sealed)
        &&& forall|i: int, j: int|
            0 <= i < self.open.len() && 0 <= j < self.sealed.len() ==> (#[trigger] self.open[i]).id
                != (#[trigger] self.sealed[j]).id
    }

    /// The store after one frame, and where the frame's record goes; or why
    /// the frame is refused.
    ///
    /// The record goes to the open segment of the frame's camera and channel.
    /// A segment is opened when none is open. When the open segment is due,
    /// it is sealed and the frame starts the next one; a video segment is
    /// sealed only by a keyframe and until then keeps growing.
    pub open spec fn stored(self, frame: FrameView, now_secs: u64) -> Result<
        (StoreView, Placement),
        StorageError,
    > {
        let len = record_len(frame.payload.len());
        if frame.payload.len() > MAX_PAYLOAD_LEN {
            Err(StorageError::FrameTooLarge)
        } else if self.total_bytes + len > u64::MAX {
            Err(StorageError::LedgerFull)
        } else if !self.has_open(frame.source, frame.channel) {
            if self.next_id >= u64::MAX {
                Err(StorageError::OutOfSegments)
            } else {
                Ok(
                    (
                        StoreView {
                            open: self.open.push(
                                started_by(self.next_id as u64, frame, now_secs, len as u64),
                            ),
                            total_bytes: self.total_bytes + len,
                            next_id: self.next_id + 1,
                            ..self
                        },
                        Placement::Opened { segment: self.next_id as u64 },
                    ),
                )
            }
        } else {
            let i = self.slot(frame.source, frame.channel);
            let current = self.open[i];
            if !rolls_over(current.start_us, frame, self.segment_duration_us) {
                Ok(
                    (
                        StoreView {
                            open: self.open.update(i, grown_by(current, len as u64)),
                            total_bytes: self.total_bytes + len,
                            ..self
                        },
                        Placement::Appended { segment: current.id },
                    ),
                )
            } else if self.next_id >= u64::MAX {
                Err(StorageError::OutOfSegments)
            } else {
                Ok(
                    (
                        StoreView {
                            open: self.open.update(
                                i,
                                started_by(self.next_id as u64, frame, now_secs, len as u64),
                            ),
                            sealed: sealed_with(self.sealed, current),
                            total_bytes: self.total_bytes + len,
                            next_id: self.next_id + 1,
                            ..self
                        },
                        Placement::Rolled { sealed: current.id, segment: self.next_id as u64 },
                    ),
                )
            }
        }
    }
}

/// The sum over a sequence with one element replaced.
pub proof fn lemma_bytes_of_update(segments: Seq<SegmentInfo>, i: int, segment: SegmentInfo)
    requires
        0 <= i < segments.len(),
    ensures
        bytes_of(segments.update(i, segment)) == bytes_of(segments) - segments[i].bytes
            + segment.bytes,
    decreases segments.len(),
{
    let updated = segments.update(i, segment);
    if i == segments.len() - 1 {
        assert(updated.drop_last() =~= segments.drop_last());
    } else {
        assert(updated.drop_last() =~= segments.drop_last().update(i, segment));
        lemma_bytes_of_update(segments.drop_last(), i, segment);
    }
}

/// The sum over two sequences joined.
pub proof fn lemma_bytes_of_concat(a: Seq<SegmentInfo>, b: Seq<SegmentInfo>)
    ensures
        bytes_of(a + b) == bytes_of(a) + bytes_of(b),
    decreases b.len(),
{
    if b.len() == 0 {
        assert(a + b =~= a);
    } else {
        assert((a + b).drop_last() =~= a + b.drop_last());
        lemma_bytes_of_concat(a, b.drop_last());
    }
}

/// No segment holds more bytes than the whole sequence.
pub proof fn lemma_bytes_of_bounds(segments: Seq<SegmentInfo>, i: int)
    requires
        0 <= i < segments.len(),
    ensures
        segments[i].bytes <= bytes_of(segments),
    decreases segments.len(),
{
    if i < segments.len() - 1 {
        lemma_bytes_of_bounds(segments.drop_last(), i);
    }
}

/// The sum over a sequence, split off its first element.
pub proof fn lemma_bytes_of_first(segments: Seq<SegmentInfo>)
    requires
        segments.len() > 0,
    ensures
        bytes_of(segments) == segments[0].bytes + bytes_of(segments.drop_first()),
{
    assert(segments =~= seq![segments[0]] + segments.drop_first());
    lemma_bytes_of_concat(seq![segments[0]], segments.drop_first());
    assert(seq![segments[0]].drop_last() =~= Seq::<SegmentInfo>::empty());
    assert(bytes_of(Seq::<SegmentInfo>::empty()) == 0);
    assert(bytes_of(seq![segments[0]]) == segments[0].bytes);
}

/// Splitting the sealed segments by age loses no byte.
pub proof fn lemma_bytes_of_split(sealed: Seq<SegmentInfo>, now_secs: u64, retention_secs: u64)
    ensures
        bytes_of(sealed) == bytes_of(sealed.filter(expiry(now_secs, retention_secs))) + bytes_of(
            sealed.filter(lasting(now_secs, retention_secs)),
        ),
    decreases sealed.len(),
{
    reveal(Seq::filter);
    if sealed.len() > 0 {
        lemma_bytes_of_split(sealed.drop_last(), now_secs, retention_secs);
        let last = sealed.last();
        let expired = sealed.drop_last().filter(expiry(now_secs, retention_secs));
        let rest = sealed.drop_last().filter(lasting(now_secs, retention_secs));
        if is_expired(last, now_secs, retention_secs) {
            assert(expired.push(last).drop_last() =~= expired);
        } else {
            assert(rest.push(last).drop_last() =~= rest);
        }
    }
}

/// Among segments that stand in the order of their numbers, a number that
/// none of them has ranks behind all lower numbers and before all higher
/// ones.
pub proof fn lemma_rank(segments: Seq<SegmentInfo>, id: u64)
    requires
        ascending_ids(segments),
        forall|i: int| 0 <= i < segments.len() ==> (#[trigger] segments[i]).id != id,
    ensures
        0 <= rank(segments, id) <= segments.len(),
        forall|i: int| 0 <= i < rank(segments, id) ==> (#[trigger] segments[i]).id < id,
        forall|i: int|
            rank(segments, id) <= i < segments.len() ==> (#[trigger] segments[i]).id > id,
    decreases segments.len(),
{
    if segments.len() > 0 {
        let init = segments.drop_last();
        if segments.last().id < id {
            assert forall|i: int| 0 <= i < segments.len() implies (#[trigger] segments[i]).id
                < id by {
                if i < segments.len() - 1 {
                    assert(segments[i].id < segments[segments.len() - 1].id);
                }
            }
        } else {
            assert forall|i: int, j: int| 0 <= i < j < init.len() implies (#[trigger] init[i]).id
                < (#[trigger] init[j]).id by {
                assert(segments[i].id < segments[j].id);
            }
            assert forall|i: int| 0 <= i < init.len() implies (#[trigger] init[i]).id != id by {
                assert(segments[i].id != id);
            }
            lemma_rank(init, id);
            assert forall|i: int| rank(segments, id) <= i < segments.len() implies (
            #[trigger] segments[i]).id > id by {
                if i < init.len() {
                    assert(init[i].id > id);
                } else {
                    assert(segments[i].id != id);
                }
            }
            assert forall|i: int| 0 <= i < rank(segments, id) implies (#[trigger] segments[i]).id
                < id by {
                assert(init[i].id < id);
            }
        }
    }
}

/// A segment that takes its place by its number leaves the order of the
/// numbers intact, and adds its bytes and nothing else.
pub proof fn lemma_sealed_with(sealed: Seq<SegmentInfo>, segment: SegmentInfo)
    requires
        ascending_ids(sealed),
        forall|i: int| 0 <= i < sealed.len() ==> (#[trigger] sealed[i]).id != segment.id,
    ensures
        ascending_ids(sealed_with(sealed, segment)),
        bytes_of(sealed_with(sealed, segment)) == bytes_of(sealed) + segment.bytes,
        sealed_with(sealed, segment).len() == sealed.len() + 1,
        0 <= rank(sealed, segment.id) <= sealed.len(),
{
    lemma_rank(sealed, segment.id);
    let at = rank(sealed, segment.id);
    let next = sealed_with(sealed, segment);
    assert forall|i: int, j: int| 0 <= i < j < next.len() implies (#[trigger] next[i]).id < (
    #[trigger] next[j]).id by {
        if j < at {
            assert(sealed[i].id < sealed[j].id);
        } else if j == at {
            assert(sealed[i].id < segment.id);
        } else if i < at {
            assert(sealed[i].id < sealed[j - 1].id || i == j - 1);
            assert(sealed[j - 1].id > segment.id);
        } else if i == at {
            assert(sealed[j - 1].id > segment.id);
        } else {
            assert(sealed[i - 1].id < sealed[j - 1].id);
        }
    }
    assert(next =~= sealed.take(at).push(segment) + sealed.skip(at));
    assert(sealed =~= sealed.take(at) + sealed.skip(at));
    lemma_bytes_of_concat(sealed.take(at), sealed.skip(at));
    lemma_bytes_of_concat(sealed.take(at).push(segment), sealed.skip(at));
    assert(sealed.take(at).push(segment).drop_last() =~= sealed.take(at));
}

/// Leaving segments out keeps the others in the order of their numbers, and
/// brings in no segment that was not there.
pub proof fn lemma_filter_keeps_order(
    segments: Seq<SegmentInfo>,
    pred: spec_fn(SegmentInfo) -> bool,
)
    requires
        ascending_ids(segments),
    ensures
        ascending_ids(segments.filter(pred)),
        forall|i: int|
            0 <= i < segments.filter(pred).len() ==> segments.contains(
                #[trigger] segments.filter(pred)[i],
            ),
    decreases segments.len(),
{
    reveal(Seq::filter);
    let kept = segments.filter(pred);
    if segments.len() > 0 {
        let init = segments.drop_last();
        let before = init.filter(pred);
        assert forall|i: int, j: int| 0 <= i < j < init.len() implies (#[trigger] init[i]).id < (
        #[trigger] init[j]).id by {
            assert(segments[i].id < segments[j].id);
        }
        lemma_filter_keeps_order(init, pred);
        assert forall|i: int| 0 <= i < kept.len() implies segments.contains(
            #[trigger] kept[i],
        ) by {
            if i < before.len() {
                assert(init.contains(before[i]));
                let at = choose|at: int| 0 <= at < init.len() && init[at] == before[i];
                assert(segments[at] == kept[i]);
            } else {
                assert(segments[segments.len() - 1] == kept[i]);
            }
        }
        assert forall|i: int, j: int| 0 <= i < j < kept.len() implies (#[trigger] kept[i]).id < (
        #[trigger] kept[j]).id by {
            if j == before.len() {
                assert(init.contains(before[i]));
                let at = choose|at: int| 0 <= at < init.len() && init[at] == before[i];
                assert(segments[at].id < segments[segments.len() - 1].id);
            } else {
                assert(before[i].id < before[j].id);
            }
        }
    }
}

/// The segment store: which segments exist, which are open, and how many
/// bytes they hold.
pub struct LocalStorage {
    config: LocalStorageConfig,
    open: Vec<SegmentInfo>,
    sealed: Vec<SegmentInfo>,
    total_bytes: u64,
    next_id: u64,
}

impl View for LocalStorage {
    type V = StoreView;

    closed spec fn view(&self) -> StoreView {
        StoreView {
            open: self.open@,
            sealed: self.sealed@,
            total_bytes: self.total_bytes as nat,
            next_id: self.next_id as nat,
            segment_duration_us: self.config.segment_duration_us as nat,
        }
    }
}

impl LocalStorage {
    /// The store's value is well formed.
    pub open spec fn wf(&self) -> bool {
        self@.wf()
    }

    /// The settings the store was made with.
    pub closed spec fn settings(&self) -> LocalStorageConfig {
        self.config
    }

    /// An empty store. Refused exactly when the root path is empty or the
    /// size limit or the segment duration is zero.
    pub fn new(config: LocalStorageConfig) -> (made: Result<LocalStorage, StorageError>)
        ensures
            made is Err <==> (config.root_path@.len() == 0 || config.max_size_bytes == 0
                || config.segment_duration_us == 0),
            made matches Err(e) ==> e == StorageError::InvalidConfig,
            made matches Ok(store) ==> {
                &&& store.wf()
                &&& store.settings() == config
                &&& store@.open == Seq::<SegmentInfo>::empty()
                &&& store@.sealed == Seq::<SegmentInfo>::empty()
                &&& store@.total_bytes == 0
                &&& store@.next_id == 0
                &&& store@.segment_duration_us == config.segment_duration_us
            },
    {
        if config.root_path.as_str().unicode_len() == 0 || config.max_size_bytes == 0
            || config.segment_duration_us == 0 {
            return Err(StorageError::InvalidConfig);
        }
        Ok(LocalStorage { config, open: Vec::new(), sealed: Vec::new(), total_bytes: 0, next_id: 0 })
    }

    /// The ledger: bytes of all segments, open and sealed.
    pub fn total_bytes(&self) -> (n: u64)
        ensures
            n == self@.total_bytes,
    {
        self.total_bytes
    }

    /// The size limit the store was made with.
    pub fn max_size_bytes(&self) -> (n: u64)
        ensures
            n == self.settings().max_size_bytes,
    {
        self.config.max_size_bytes
    }

    /// The open segments.
    pub fn open_segments(&self) -> (segments: &Vec<SegmentInfo>)
        ensures
            segments@ == self@.open,
    {
        &self.open
    }

    /// The sealed segments, oldest first: in the order in which they were
    /// opened, which is the order of their numbers.
    pub fn sealed_segments(&self) -> (segments: &Vec<SegmentInfo>)
        ensures
            segments@ == self@.sealed,
    {
        &self.sealed
    }

    fn find_open(&self, source: u64, channel: Channel) -> (found: Option<usize>)
        requires
            self.wf(),
        ensures
            found is Some <==> self@.has_open(source, channel),
            found matches Some(i) ==> i == self@.slot(source, channel) && 0 <= i < self@.open.len(),
    {
        let mut i: usize = 0;
        while i < self.open.len()
            invariant
                self.wf(),
                i <= self.open@.len(),
                forall|j: int| 0 <= j < i ==> !holds(#[trigger] self.open@[j], source, channel),
            decreases self.open@.len() - i,
        {
            if self.open[i].source.0 == source && self.open[i].channel == channel {
                assert(holds(self@.open[i as int], source, channel));
                let ghost picked = self@.slot(source, channel);
                assert(self@.has_open(source, channel));
                assert(0 <= picked < self@.open.len() && holds(self@.open[picked], source, channel));
                assert(picked == i) by {
                    if picked < i {
                        assert(!holds(self.open@[picked], source, channel));
                    } else if picked > i {
                        assert(!holds(
                            self@.open[i as int],
                            self@.open[picked].source.0,
                            self@.open[picked].channel,
                        ));
                    }
                }
                return Some(i);
            }
            i = i + 1;
        }
        None
    }

    fn sealed_place(&self, id: u64) -> (at: usize)
        requires
            self.wf(),
            forall|i: int| 0 <= i < self@.sealed.len() ==> (#[trigger] self@.sealed[i]).id != id,
        ensures
            at == rank(self@.sealed, id),
            at <= self@.sealed.len(),
    {
        let mut at: usize = self.sealed.len();
        assert(self@.sealed.take(at as int) =~= self@.sealed);
        while at > 0 && self.sealed[at - 1].id > id
            invariant
                self.wf(),
                forall|i: int|
                    0 <= i < self@.sealed.len() ==> (#[trigger] self@.sealed[i]).id != id,
                at <= self@.sealed.len(),
                rank(self@.sealed, id) == rank(self@.sealed.take(at as int), id),
            decreases at,
        {
            assert(self@.sealed.take(at as int).drop_last() =~= self@.sealed.take(at - 1));
            at = at - 1;
        }
        if at > 0 {
            assert(self@.sealed.take(at as int).last() == self@.sealed[at - 1]);
            assert(self@.sealed[at - 1].id != id);
        }
        at
    }

    /// Takes one frame: decides where its record goes and books its bytes.
    ///
    /// Refused, with the store unchanged, exactly when the payload is too
    /// long for a record, the ledger cannot count the record, or a segment
    /// would have to be opened and no segment number is left.
    pub fn store(&mut self, frame: &Frame, now_secs: u64) -> (out: Result<Placement, StorageError>)
        requires
            old(self).wf(),
        ensures
            final(self).wf(),
            final(self).settings() == old(self).settings(),
            match out {
                Ok(placement) => old(self)@.stored(frame@, now_secs) == Ok::<
                    (StoreView, Placement),
                    StorageError,
                >((final(self)@, placement)),
                Err(e) => old(self)@.stored(frame@, now_secs) == Err::<
                    (StoreView, Placement),
                    StorageError,
                >(e) && final(self)@ == old(self)@,
            },
    {
        if frame.payload.len() > MAX_PAYLOAD_LEN {
            return Err(StorageError::FrameTooLarge);
        }
        let len: u64 = (RECORD_HEADER_LEN + frame.payload.len()) as u64;
        if len > u64::MAX - self.total_bytes {
            return Err(StorageError::LedgerFull);
        }
        let source: u64 = frame.source.0;
        match self.find_open(source, frame.channel) {
            None => {
                if self.next_id == u64::MAX {
                    return Err(StorageError::OutOfSegments);
                }
                let id: u64 = self.next_id;
                self.open.push(
                    SegmentInfo {
                        id,
                        source: frame.source,
                        channel: frame.channel,
                        start_us: frame.timestamp_us,
                        opened_secs: now_secs,
                        bytes: len,
                    },
                );
                self.total_bytes = self.total_bytes + len;
                self.next_id = id + 1;
                assert(final(self)@.open.drop_last() =~= old(self)@.open);
                Ok(Placement::Opened { segment: id })
            },
            Some(i) => {
                let current = self.open[i];
                let due = frame.timestamp_us >= current.start_us && frame.timestamp_us
                    - current.start_us >= self.config.segment_duration_us;
                let video = frame.channel == Channel::Video;
                let rolls = due && (!video || frame.flags.is_keyframe());
                proof {
                    lemma_bytes_of_bounds(old(self)@.open, i as int);
                }
                if !rolls {
                    let grown = SegmentInfo {
                        id: current.id,
                        source: current.source,
                        channel: current.channel,
                        start_us: current.start_us,
                        opened_secs: current.opened_secs,
                        bytes: current.bytes + len,
                    };
                    self.open[i] = grown;
                    self.total_bytes = self.total_bytes + len;
                    proof {
                        lemma_bytes_of_update(old(self)@.open, i as int, grown);
                    }
                    Ok(Placement::Appended { segment: current.id })
                } else {
                    if self.next_id == u64::MAX {
                        return Err(StorageError::OutOfSegments);
                    }
                    let id: u64 = self.next_id;
                    let started = SegmentInfo {
                        id,
                        source: frame.source,
                        channel: frame.channel,
                        start_us: frame.timestamp_us,
                        opened_secs: now_secs,
                        bytes: len,
                    };
                    let at = self.sealed_place(current.id);
                    proof {
                        lemma_bytes_of_update(old(self)@.open, i as int, started);
                        lemma_sealed_with(old(self)@.sealed, current);
                        lemma_rank(old(self)@.sealed, current.id);
                    }
                    self.open[i] = started;
                    self.sealed.insert(at, current);
                    self.total_bytes = self.total_bytes + len;
                    self.next_id = id + 1;
                    Ok(Placement::Rolled { sealed: current.id, segment: id })
                }
            },
        }
    }
    /// Chooses the sealed segments to delete and takes them off the books.
    ///
    /// Every sealed segment older than `retention_secs` goes. Then the oldest
    /// remaining sealed segments go, those that were opened first, one by
    /// one, while the ledger is above `max_size_bytes`. No open segment is touched. The report lists the
    /// deleted segments and says whether the ledger is still above the limit,
    /// which can only be because what remains is open.
    pub fn cleanup(&mut self, max_size_bytes: u64, retention_secs: u64, now_secs: u64) -> (report:
        CleanupReport)
        requires
            old(self).wf(),
        ensures
            final(self).wf(),
            final(self).settings() == old(self).settings(),
            (final(self)@, report.removed@) == old(self)@.swept(
                max_size_bytes,
                retention_secs,
                now_secs,
            ),
            report.over_limit == (final(self)@.total_bytes > max_size_bytes),
    {
        let ghost before = self@;
        let ghost old_pred = expiry(now_secs, retention_secs);
        let ghost new_pred = lasting(now_secs, retention_secs);
        let mut kept: Vec<SegmentInfo> = Vec::new();
        let mut removed: Vec<SegmentInfo> = Vec::new();
        let mut total: u64 = self.total_bytes;
        let mut i: usize = 0;
        proof {
            reveal(Seq::filter);
            assert(before.sealed.take(0) =~= Seq::<SegmentInfo>::empty());
            lemma_bytes_of_concat(before.sealed.take(0), before.sealed.skip(0));
            assert(before.sealed.take(0) + before.sealed.skip(0) =~= before.sealed);
        }
        while i < self.sealed.len()
            invariant
                self@ == before,
                before.wf(),
                old_pred == expiry(now_secs, retention_secs),
                new_pred == lasting(now_secs, retention_secs),
                i <= before.sealed.len(),
                removed@ == before.sealed.take(i as int).filter(old_pred),
                kept@ == before.sealed.take(i as int).filter(new_pred),
                total == bytes_of(before.open) + bytes_of(kept@) + bytes_of(
                    before.sealed.skip(i as int),
                ),
            decreases before.sealed.len() - i,
        {
            let segment = self.sealed[i];
            proof {
                let seen = before.sealed.take(i as int);
                assert(before.sealed.take(i + 1) =~= seen.push(segment));
                seen.lemma_filter_push(segment, old_pred);
                seen.lemma_filter_push(segment, new_pred);
                lemma_bytes_of_first(before.sealed.skip(i as int));
                assert(before.sealed.skip(i as int).drop_first() =~= before.sealed.skip(i + 1));
                assert(kept@.push(segment).drop_last() =~= kept@);
            }
            if now_secs >= segment.opened_secs && now_secs - segment.opened_secs > retention_secs {
                removed.push(segment);
                total = total - segment.bytes;
            } else {
                kept.push(segment);
            }
            i = i + 1;
        }
        let ghost expired = removed@;
        let ghost all = kept@;
        let ghost floor = bytes_of(before.open);
        let mut k: usize = 0;
        proof {
            assert(before.sealed.take(i as int) =~= before.sealed);
            assert(before.sealed.skip(i as int) =~= Seq::<SegmentInfo>::empty());
            assert(kept@.skip(0) =~= kept@);
            assert(kept@.take(0) =~= Seq::<SegmentInfo>::empty());
            assert(expired + kept@.take(0) =~= expired);
        }
        while k < kept.len() && total > max_size_bytes
            invariant
                self@ == before,
                before.wf(),
                floor == bytes_of(before.open),
                expired == before.sealed.filter(expiry(now_secs, retention_secs)),
                all == before.sealed.filter(lasting(now_secs, retention_secs)),
                kept@ == all,
                k <= kept@.len(),
                total == floor + bytes_of(kept@.skip(k as int)),
                trim_count(kept@, floor, max_size_bytes as nat) == k + trim_count(
                    kept@.skip(k as int),
                    floor,
                    max_size_bytes as nat,
                ),
                removed@ == expired + kept@.take(k as int),
            decreases kept@.len() - k,
        {
            let segment = kept[k];
            proof {
                lemma_bytes_of_first(kept@.skip(k as int));
                assert(kept@.skip(k as int).drop_first() =~= kept@.skip(k + 1));
                assert(expired + kept@.take(k + 1) =~= (expired + kept@.take(k as int)).push(
                    segment,
                ));
            }
            total = total - segment.bytes;
            removed.push(segment);
            k = k + 1;
        }
        let rest = kept.split_off(k);
        proof {
            assert(rest@ =~= all.skip(k as int));
            lemma_filter_keeps_order(before.sealed, lasting(now_secs, retention_secs));
            assert forall|j: int| 0 <= j < rest@.len() implies (#[trigger] rest@[j]).id
                < before.next_id && (forall|i: int|
                0 <= i < before.open.len() ==> (#[trigger] before.open[i]).id != rest@[j].id) by {
                assert(rest@[j] == all[j + k]);
                assert(before.sealed.contains(all[j + k]));
                let at = choose|at: int|
                    0 <= at < before.sealed.len() && before.sealed[at] == all[j + k];
                assert(before.sealed[at].id < before.next_id);
            }
            assert forall|i: int, j: int| 0 <= i < j < rest@.len() implies (#[trigger] rest@[i]).id
                < (#[trigger] rest@[j]).id by {
                assert(all[i + k].id < all[j + k].id);
            }
        }
        self.sealed = rest;
        self.total_bytes = total;
        CleanupReport { removed, over_limit: total > max_size_bytes }
    }
    /// Takes a record off the books that was booked by `store` and then
    /// could not be written. The segment stays open and keeps growing with
    /// the frames that follow. Nothing changes, and `false` is returned, when
    /// no open segment of this camera and channel holds that many bytes.
    pub fn forget_write(&mut self, source: SourceId, channel: Channel, bytes: u64) -> (done: bool)
        requires
            old(self).wf(),
        ensures
            final(self).wf(),
            final(self).settings() == old(self).settings(),
            match old(self)@.forgot(source.0, channel, bytes) {
                Some(next) => done && final(self)@ == next,
                None => !done && final(self)@ == old(self)@,
            },
    {
        match self.find_open(source.0, channel) {
            None => false,
            Some(i) => {
                let current = self.open[i];
                if current.bytes < bytes {
                    return false;
                }
                let shrunk = SegmentInfo {
                    id: current.id,
                    source: current.source,
                    channel: current.channel,
                    start_us: current.start_us,
                    opened_secs: current.opened_secs,
                    bytes: current.bytes - bytes,
                };
                proof {
                    lemma_bytes_of_bounds(old(self)@.open, i as int);
                    lemma_bytes_of_update(old(self)@.open, i as int, shrunk);
                }
                self.open[i] = shrunk;
                self.total_bytes = self.total_bytes - bytes;
                true
            },
        }
    }
}

/// Policy of the recording.
#[derive(Clone, Copy, Debug, PartialEq, Eq, Structural)]
pub struct StorageConfig {
    /// Bytes the recording is to stay under.
    pub max_size_bytes: u64,
    /// Seconds after which a sealed segment is deleted.
    pub retention_secs: u64,
    /// Whether only keyframes of video are recorded.
    pub keyframes_only: bool,
    /// Seconds between two cleanups.
    pub cleanup_interval_secs: u64,
}

/// What became of a frame handed to the recording.
#[derive(Clone, Copy, Debug, PartialEq, Eq, Structural)]
pub enum Stored {
    /// The frame is not recorded under the policy; the store never saw it.
    Skipped,
    /// The frame's record goes where the placement says.
    Placed(Placement),
}

/// Whether the policy keeps a frame from the store: with `keyframes_only`,
/// video frames that are no keyframes are not recorded.
pub open spec fn is_skipped(config: StorageConfig, frame: FrameView) -> bool {
    config.keyframes_only && frame.is_video() && !frame.is_keyframe()
}

/// The recording: a policy in front of a segment store.
pub struct StorageManager {
    config: StorageConfig,
    backend: LocalStorage,
}

impl StorageManager {
    /// The policy.
    pub closed spec fn policy(&self) -> StorageConfig {
        self.config
    }

    /// The segment store behind the policy.
    pub closed spec fn store_view(&self) -> StoreView {
        self.backend@
    }

    /// The segment store is well formed.
    pub closed spec fn wf(&self) -> bool {
        self.backend.wf()
    }

    /// A recording over the given store. Refused exactly when the size limit
    /// or the cleanup interval is zero.
    pub fn new(config: StorageConfig, backend: LocalStorage) -> (made: Result<
        StorageManager,
        StorageError,
    >)
        requires
            backend.wf(),
        ensures
            made is Err <==> (config.max_size_bytes == 0 || config.cleanup_interval_secs == 0),
            made matches Err(e) ==> e == StorageError::InvalidConfig,
            made matches Ok(manager) ==> {
                &&& manager.wf()
                &&& manager.policy() == config
                &&& manager.store_view() == backend@
            },
    {
        if config.max_size_bytes == 0 || config.cleanup_interval_secs == 0 {
            return Err(StorageError::InvalidConfig);
        }
        Ok(StorageManager { config, backend })
    }

    /// The policy.
    pub fn config(&self) -> (config: StorageConfig)
        ensures
            config == self.policy(),
    {
        self.config
    }

    /// The segment store behind the policy.
    pub fn backend(&self) -> (backend: &LocalStorage)
        ensures
            backend@ == self.store_view(),
            self.wf() ==> backend.wf(),
    {
        &self.backend
    }

    /// Records one frame. Under `keyframes_only` a video frame that is no
    /// keyframe is skipped before it reaches the store; every other frame is
    /// handed to the store, whose answer is passed on.
    pub fn store(&mut self, frame: &Frame, now_secs: u64) -> (out: Result<Stored, StorageError>)
        requires
            old(self).wf(),
        ensures
            final(self).wf(),
            final(self).policy() == old(self).policy(),
            is_skipped(old(self).policy(), frame@) ==> out == Ok::<Stored, StorageError>(
                Stored::Skipped,
            ) && final(self).store_view() == old(self).store_view(),
            !is_skipped(old(self).policy(), frame@) ==> match out {
                Ok(stored) => stored matches Stored::Placed(placement) && old(
                    self,
                ).store_view().stored(frame@, now_secs) == Ok::<
                    (StoreView, Placement),
                    StorageError,
                >((final(self).store_view(), placement)),
                Err(e) => old(self).store_view().stored(frame@, now_secs) == Err::<
                    (StoreView, Placement),
                    StorageError,
                >(e) && final(self).store_view() == old(self).store_view(),
            },
    {
        if self.config.keyframes_only && frame.channel == Channel::Video
            && !frame.flags.is_keyframe() {
            return Ok(Stored::Skipped);
        }
        match self.backend.store(frame, now_secs) {
            Ok(placement) => Ok(Stored::Placed(placement)),
            Err(e) => Err(e),
        }
    }

    /// Takes a record off the books that could not be written; see
    /// [`LocalStorage::forget_write`].
    pub fn forget_write(&mut self, source: SourceId, channel: Channel, bytes: u64) -> (done: bool)
        requires
            old(self).wf(),
        ensures
            final(self).wf(),
            final(self).policy() == old(self).policy(),
            match old(self).store_view().forgot(source.0, channel, bytes) {
                Some(next) => done && final(self).store_view() == next,
                None => !done && final(self).store_view() == old(self).store_view(),
            },
    {
        self.backend.forget_write(source, channel, bytes)
    }

    /// One cleanup under the policy's size limit and retention.
    pub fn cleanup(&mut self, now_secs: u64) -> (report: CleanupReport)
        requires
            old(self).wf(),
        ensures
            final(self).wf(),
            final(self).policy() == old(self).policy(),
            (final(self).store_view(), report.removed@) == old(self).store_view().swept(
                old(self).policy().max_size_bytes,
                old(self).policy().retention_secs,
                now_secs,
            ),
            report.over_limit == (final(self).store_view().total_bytes > old(
                self,
            ).policy().max_size_bytes),
    {
        self.backend.cleanup(self.config.max_size_bytes, self.config.retention_secs, now_secs)
    }
}

} // verus!
