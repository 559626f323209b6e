//! The form in which a frame is stored and sent.
//!
//! A segment file is a run of records, one per frame, and so is a frame
//! stream. A record is a header of 22 bytes followed by the payload:
//!
//! | bytes  | field                                   |
//! |--------|-----------------------------------------|
//! | 0..8   | source, little-endian                   |
//! | 8      | channel: 0 video, 1 audio, 2 telemetry  |
//! | 9      | flags                                   |
//! | 10..18 | timestamp in microseconds, little-endian |
//! | 18..22 | payload length, little-endian           |
//! | 22..   | payload                                 |
//!
//! Reading back what was written gives the frame that was written, field for
//! field and byte for byte.

use crate::frame::{Channel, Frame, FrameFlags, FrameView, SourceId};
use vstd::bytes::{
    spec_u32_from_le_bytes, spec_u32_to_le_bytes, spec_u64_from_le_bytes, spec_u64_to_le_bytes,
    u32_from_le_bytes, u32_to_le_bytes, u64_from_le_bytes, u64_to_le_bytes,
};
use vstd::prelude::*;
use vstd::slice::slice_subrange;

verus! {

/// Bytes in front of the payload.
pub const RECORD_HEADER_LEN: usize = 22;

/// Longest payload a record can carry: 16 MiB. A reader never has to set
/// aside more than this for one record, whatever a header announces.
pub const MAX_PAYLOAD_LEN: usize = 0x100_0000;

/// Why a record could not be written or read.
#[derive(Clone, Copy, Debug, PartialEq, Eq, Structural)]
pub enum RecordError {
    /// The payload is longer than [`MAX_PAYLOAD_LEN`], or the header
    /// announces one that is.
    PayloadTooLarge,
    /// The bytes end before the record does.
    Truncated,
    /// The channel byte names no channel.
    UnknownChannel,
}

/// The byte that stands for a channel.
pub open spec fn channel_code(channel: Channel) -> u8 {
    match channel {
        Channel::Video => 0,
        Channel::Audio => 1,
        Channel::Telemetry => 2,
    }
}

/// The channel a byte stands for, if any.
pub open spec fn channel_of_code(code: u8) -> Option<Channel> {
    if code == 0 {
        Some(Channel::Video)
    } else if code == 1 {
        Some(Channel::Audio)
    } else if code == 2 {
        Some(Channel::Telemetry)
    } else {
        None
    }
}

/// The record of a frame.
pub open spec fn encoded(frame: FrameView) -> Seq<u8> {
    spec_u64_to_le_bytes(frame.source) + seq![channel_code(frame.channel), frame.flags]
        + spec_u64_to_le_bytes(frame.timestamp_us) + spec_u32_to_le_bytes(
        frame.payload.len() as u32,
    ) + frame.payload
}

/// The frame at the front of `bytes` and the length of its record, or why
/// there is none.
pub open spec fn decoded(bytes: Seq<u8>) -> Result<(FrameView, nat), RecordError> {
    if bytes.len() < RECORD_HEADER_LEN {
        Err(RecordError::Truncated)
    } else {
        match channel_of_code(bytes[8]) {
            None => Err(RecordError::UnknownChannel),
            Some(channel) => {
                let len = spec_u32_from_le_bytes(bytes.subrange(18, 22)) as nat;
                if len > MAX_PAYLOAD_LEN {
                    Err(RecordError::PayloadTooLarge)
                } else if bytes.len() < RECORD_HEADER_LEN + len {
                    Err(RecordError::Truncated)
                } else {
                    Ok(
                        (
                            FrameView {
                                source: spec_u64_from_le_bytes(bytes.subrange(0, 8)),
                                channel,
                                flags: bytes[9],
                                timestamp_us: spec_u64_from_le_bytes(bytes.subrange(10, 18)),
                                payload: bytes.subrange(
                                    RECORD_HEADER_LEN as int,
                                    RECORD_HEADER_LEN + len,
                                ),
                            },
                            record_len(len),
                        ),
                    )
                }
            },
        }
    }
}

/// The payload length that the header at the front of `bytes` announces, or
/// why there is no header.
pub open spec fn announced_len(bytes: Seq<u8>) -> Result<nat, RecordError> {
    if bytes.len() < RECORD_HEADER_LEN {
        Err(RecordError::Truncated)
    } else if channel_of_code(bytes[8]) is None {
        Err(RecordError::UnknownChannel)
    } else if spec_u32_from_le_bytes(bytes.subrange(18, 22)) > MAX_PAYLOAD_LEN {
        Err(RecordError::PayloadTooLarge)
    } else {
        Ok(spec_u32_from_le_bytes(bytes.subrange(18, 22)) as nat)
    }
}

/// Number of bytes the record of a frame with this payload takes.
pub open spec fn record_len(payload_len: nat) -> nat {
    (RECORD_HEADER_LEN + payload_len) as nat
}

fn channel_to_code(channel: Channel) -> (code: u8)
    ensures
        code == channel_code(channel),
        channel_of_code(code) == Some(channel),
{
    match channel {
        Channel::Video => 0,
        Channel::Audio => 1,
        Channel::Telemetry => 2,
    }
}

fn channel_from_code(code: u8) -> (channel: Option<Channel>)
    ensures
        channel == channel_of_code(code),
{
    if code == 0 {
        Some(Channel::Video)
    } else if code == 1 {
        Some(Channel::Audio)
    } else if code == 2 {
        Some(Channel::Telemetry)
    } else {
        None
    }
}

/// Appends a copy of `bytes` to `out`.
pub(crate) fn push_all(out: &mut Vec<u8>, bytes: &[u8])
    ensures
        final(out)@ == old(out)@ + bytes@,
{
    let mut i: usize = 0;
    while i < bytes.len()
        invariant
            i <= bytes@.len(),
            out@ == old(out)@ + bytes@.take(i as int),
        decreases bytes@.len() - i,
    {
        out.push(bytes[i]);
        i = i + 1;
        assert(out@ =~= old(out)@ + bytes@.take(i as int));
    }
    assert(bytes@.take(i as int) =~= bytes@);
}

/// Writes the record of a frame. Refused exactly when the payload is longer
/// than [`MAX_PAYLOAD_LEN`].
pub fn encode_frame(frame: &Frame) -> (out: Result<Vec<u8>, RecordError>)
    ensures
        frame.payload@.len() > MAX_PAYLOAD_LEN <==> out is Err,
        out matches Err(e) ==> e == RecordError::PayloadTooLarge,
        out matches Ok(bytes) ==> bytes@ == encoded(frame@) && bytes@.len() == record_len(
            frame.payload@.len(),
        ),
{
    if frame.payload.len() > MAX_PAYLOAD_LEN {
        return Err(RecordError::PayloadTooLarge);
    }
    let len: u32 = frame.payload.len() as u32;
    let mut out = u64_to_le_bytes(frame.source.0);
    out.push(channel_to_code(frame.channel));
    out.push(frame.flags.0);
    let stamp = u64_to_le_bytes(frame.timestamp_us);
    push_all(&mut out, stamp.as_slice());
    let size = u32_to_le_bytes(len);
    push_all(&mut out, size.as_slice());
    push_all(&mut out, frame.payload.as_slice());
    assert(out@ =~= encoded(frame@));
    Ok(out)
}

/// Reads the payload length from a header, so that a reader of a stream
/// knows how many bytes to wait for before it has the whole record. A header
/// that announces more than [`MAX_PAYLOAD_LEN`] is refused.
pub fn payload_len(header: &[u8]) -> (len: Result<u32, RecordError>)
    ensures
        match len {
            Ok(n) => announced_len(header@) == Ok::<nat, RecordError>(n as nat),
            Err(e) => announced_len(header@) == Err::<nat, RecordError>(e),
        },
{
    if header.len() < RECORD_HEADER_LEN {
        return Err(RecordError::Truncated);
    }
    if channel_from_code(header[8]).is_none() {
        return Err(RecordError::UnknownChannel);
    }
    let len: u32 = u32_from_le_bytes(slice_subrange(header, 18, 22));
    if len as usize > MAX_PAYLOAD_LEN {
        return Err(RecordError::PayloadTooLarge);
    }
    Ok(len)
}

/// Reads the record at the front of `bytes`: the frame, and how many bytes
/// its record took, so that the next record can be read behind it.
pub fn decode_frame(bytes: &[u8]) -> (out: Result<(Frame, usize), RecordError>)
    ensures
        match out {
            Ok((frame, used)) => decoded(bytes@) == Ok::<(FrameView, nat), RecordError>(
                (frame@, used as nat),
            ),
            Err(e) => decoded(bytes@) == Err::<(FrameView, nat), RecordError>(e),
        },
{
    if bytes.len() < RECORD_HEADER_LEN {
        return Err(RecordError::Truncated);
    }
    let channel = match channel_from_code(bytes[8]) {
        Some(channel) => channel,
        None => {
            return Err(RecordError::UnknownChannel);
        },
    };
    let len: u32 = u32_from_le_bytes(slice_subrange(bytes, 18, 22));
    if len as usize > MAX_PAYLOAD_LEN {
        return Err(RecordError::PayloadTooLarge);
    }
    let used: usize = RECORD_HEADER_LEN + len as usize;
    if bytes.len() < used {
        return Err(RecordError::Truncated);
    }
    let source: u64 = u64_from_le_bytes(slice_subrange(bytes, 0, 8));
    let timestamp_us: u64 = u64_from_le_bytes(slice_subrange(bytes, 10, 18));
    let mut payload: Vec<u8> = Vec::new();
    push_all(&mut payload, slice_subrange(bytes, RECORD_HEADER_LEN, used));
    assert(payload@ =~= bytes@.subrange(RECORD_HEADER_LEN as int, used as int));
    Ok(
        (
            Frame {
                source: SourceId(source),
                channel,
                flags: FrameFlags(bytes[9]),
                timestamp_us,
                payload,
            },
            used,
        ),
    )
}

/// The header of a record announces the length of the record's payload,
/// whether it is read alone or with what follows it.
pub proof fn law_header_announces_payload(frame: FrameView, rest: Seq<u8>)
    requires
        frame.payload.len() <= MAX_PAYLOAD_LEN,
    ensures
        announced_len(encoded(frame) + rest) == Ok::<nat, RecordError>(frame.payload.len()),
        announced_len(encoded(frame).take(RECORD_HEADER_LEN as int)) == Ok::<nat, RecordError>(
            frame.payload.len(),
        ),
{
    vstd::bytes::lemma_auto_spec_u64_to_from_le_bytes();
    vstd::bytes::lemma_auto_spec_u32_to_from_le_bytes();
    let size = spec_u32_to_le_bytes(frame.payload.len() as u32);
    let whole = encoded(frame) + rest;
    let header = encoded(frame).take(RECORD_HEADER_LEN as int);
    assert(whole.subrange(18, 22) =~= size);
    assert(header.subrange(18, 22) =~= size);
    assert(whole[8] == channel_code(frame.channel));
    assert(header[8] == channel_code(frame.channel));
    assert(channel_of_code(channel_code(frame.channel)) == Some(frame.channel));
}

/// A frame that was written and is read back is the frame that was written,
/// whatever follows its record: source, channel, flags, timestamp and
/// payload are all unchanged, and the reader stops at the record's end.
pub proof fn law_record_round_trip(frame: FrameView, rest: Seq<u8>)
    requires
        frame.payload.len() <= MAX_PAYLOAD_LEN,
    ensures
        decoded(encoded(frame) + rest) == Ok::<(FrameView, nat), RecordError>(
            (frame, record_len(frame.payload.len())),
        ),
        encoded(frame).len() == record_len(frame.payload.len()),
{
    vstd::bytes::lemma_auto_spec_u64_to_from_le_bytes();
    vstd::bytes::lemma_auto_spec_u32_to_from_le_bytes();
    let bytes = encoded(frame) + rest;
    let len = frame.payload.len();
    let source = spec_u64_to_le_bytes(frame.source);
    let stamp = spec_u64_to_le_bytes(frame.timestamp_us);
    let size = spec_u32_to_le_bytes(len as u32);
    assert(encoded(frame).len() == RECORD_HEADER_LEN + len);
    assert(bytes.subrange(0, 8) =~= source);
    assert(bytes.subrange(10, 18) =~= stamp);
    assert(bytes.subrange(18, 22) =~= size);
    assert(bytes[8] == channel_code(frame.channel));
    assert(bytes[9] == frame.flags);
    assert(bytes.subrange(RECORD_HEADER_LEN as int, RECORD_HEADER_LEN + len) =~= frame.payload);
    assert(channel_of_code(channel_code(frame.channel)) == Some(frame.channel));
}

} // verus!
