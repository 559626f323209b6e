//! Frames: one timestamped unit of media or telemetry, tagged with the camera
//! that produced it and the channel it belongs to.

use vstd::prelude::*;

verus! {

/// Number of bytes in a transport identity (a public key).
pub const NODE_ID_LEN: usize = 32;

/// Bit of [`FrameFlags`] that marks a frame decodable without earlier frames.
pub const FLAG_KEYFRAME: u8 = 0x01;

/// Stable identifier of a camera, derived from its transport public key.
///
/// The same key always gives the same identifier, so a camera keeps its
/// identifier across reconnects. It is the partition key of both the fan-out
/// and the storage.
#[derive(Clone, Copy, Debug, PartialEq, Eq, Hash, Structural)]
pub struct SourceId(pub u64);

/// Media category of a frame.
#[derive(Clone, Copy, Debug, PartialEq, Eq, Hash, Structural)]
pub enum Channel {
    Video,
    Audio,
    Telemetry,
}

/// Bit set carried by every frame.
#[derive(Clone, Copy, Debug, PartialEq, Eq, Hash, Structural)]
pub struct FrameFlags(pub u8);

/// One frame as it travels through the relay. The payload is opaque here.
#[derive(Clone, Debug, PartialEq, Eq)]
pub struct Frame {
    pub source: SourceId,
    pub channel: Channel,
    pub flags: FrameFlags,
    pub timestamp_us: u64,
    pub payload: Vec<u8>,
}

/// Mathematical value of a [`Frame`].
pub struct FrameView {
    pub source: u64,
    pub channel: Channel,
    pub flags: u8,
    pub timestamp_us: u64,
    pub payload: Seq<u8>,
}

/// The little-endian number spelled by the first eight bytes of `bytes`.
pub open spec fn le_prefix_value(bytes: Seq<u8>) -> u64
    recommends
        bytes.len() >= 8,
{
    vstd::bytes::spec_u64_from_le_bytes(bytes.subrange(0, 8))
}

impl SourceId {
    /// Derives the identifier from the bytes of a transport public key: the
    /// first eight bytes, read as a little-endian number.
    pub fn from_node_id_bytes(bytes: &[u8; 32]) -> (id: SourceId)
        ensures
            id.0 == le_prefix_value(bytes@),
    {
        let head = vstd::slice::slice_subrange(bytes.as_slice(), 0, 8);
        SourceId(vstd::bytes::u64_from_le_bytes(head))
    }

    /// The identifier as a number.
    pub fn as_u64(&self) -> (raw: u64)
        ensures
            raw == self.0,
    {
        self.0
    }
}

impl FrameFlags {
    /// Flags of a frame that can be decoded on its own.
    pub fn keyframe() -> (flags: FrameFlags)
        ensures
            flags.0 == FLAG_KEYFRAME,
            flags.has_keyframe(),
    {
        assert(FLAG_KEYFRAME & FLAG_KEYFRAME != 0) by (bit_vector);
        FrameFlags(FLAG_KEYFRAME)
    }

    /// Whether the keyframe bit is set.
    pub open spec fn has_keyframe(self) -> bool {
        self.0 & FLAG_KEYFRAME != 0
    }

    /// Whether the keyframe bit is set.
    pub fn is_keyframe(&self) -> (set: bool)
        ensures
            set == self.has_keyframe(),
    {
        self.0 & FLAG_KEYFRAME != 0
    }
}

impl Default for FrameFlags {
    /// No flag set.
    fn default() -> (flags: FrameFlags)
        ensures
            flags.0 == 0,
            !flags.has_keyframe(),
    {
        assert(0u8 & FLAG_KEYFRAME == 0) by (bit_vector);
        FrameFlags(0)
    }
}

impl View for Frame {
    type V = FrameView;

    open spec fn view(&self) -> FrameView {
        FrameView {
            source: self.source.0,
            channel: self.channel,
            flags: self.flags.0,
            timestamp_us: self.timestamp_us,
            payload: self.payload@,
        }
    }
}

impl FrameView {
    /// Whether the frame is a video frame.
    pub open spec fn is_video(self) -> bool {
        self.channel == Channel::Video
    }

    /// Whether the keyframe bit is set.
    pub open spec fn is_keyframe(self) -> bool {
        self.flags & FLAG_KEYFRAME != 0
    }
}

impl Frame {
    /// An independent copy of the frame, payload included.
    pub fn duplicate(&self) -> (copy: Frame)
        ensures
            copy@ == self@,
    {
        let payload = self.payload.clone();
        assert(payload@ =~= self.payload@);
        Frame {
            source: self.source,
            channel: self.channel,
            flags: self.flags,
            timestamp_us: self.timestamp_us,
            payload,
        }
    }
}

} // verus!
