//! The camera simulator's own rules: what its command line means and how it
//! stamps the frames it sends.

use crate::frame::{Channel, Frame, FrameFlags, FrameView, SourceId, FLAG_KEYFRAME};
use crate::h264::{contains_keyframe, holds_keyframe};
use crate::numbers::{parse_decimal, parsed_decimal};
use vstd::prelude::*;

verus! {

/// Cameras that are simulated when the command line names no number.
pub const DEFAULT_CAMERAS: usize = 2;

/// A progress line is due after every this many video frames.
pub const PROGRESS_EVERY: u64 = 150;

/// What the simulator was asked to do.
#[derive(Clone, Debug, PartialEq, Eq)]
pub struct SimArgs {
    /// The server's public key, as text.
    pub server_key: String,
    /// Number of cameras to simulate.
    pub cameras: usize,
}

/// The command line names no server.
#[derive(Clone, Copy, Debug, PartialEq, Eq, Structural)]
pub struct UsageError;

/// Why a camera cannot be simulated.
#[derive(Clone, Copy, Debug, PartialEq, Eq, Structural)]
pub enum SimError {
    /// The text given for the server is no public key.
    InvalidServerKey,
}

/// Bytes in a public key.
pub const PUBLIC_KEY_LEN: usize = 32;

/// The bytes of the public key that a text spells, as
/// `iroh::PublicKey::from_str` reads it: 64 hexadecimal digits or the
/// base32 form, of a valid key.
pub uninterp spec fn public_key_of(text: Seq<char>) -> Option<Seq<u8>>;

/// Reads a public key with `iroh::PublicKey::from_str`.
///
/// Trusted: what comes back depends on the text alone, and a key is 32
/// bytes.
#[verifier::external_body]
fn read_public_key(text: &str) -> (key: Option<Vec<u8>>)
    ensures
        key matches Some(bytes) ==> public_key_of(text@) == Some(bytes@) && bytes@.len()
            == PUBLIC_KEY_LEN,
        key is None ==> public_key_of(text@) is None,
{
    match text.parse::<iroh::PublicKey>() {
        Ok(key) => Some(key.as_bytes().to_vec()),
        Err(_) => None,
    }
}

/// The server's key, or the error for a text that spelled none.
pub fn checked_key(read: Option<Vec<u8>>) -> (out: Result<Vec<u8>, SimError>)
    ensures
        match read {
            Some(bytes) => out == Ok::<Vec<u8>, SimError>(bytes),
            None => out == Err::<Vec<u8>, SimError>(SimError::InvalidServerKey),
        },
{
    match read {
        Some(bytes) => Ok(bytes),
        None => Err(SimError::InvalidServerKey),
    }
}

/// Reads the server's public key from the command line's text. Fails
/// exactly when the text spells no public key.
pub fn server_key(text: &str) -> (out: Result<Vec<u8>, SimError>)
    ensures
        match out {
            Ok(bytes) => public_key_of(text@) == Some(bytes@) && bytes@.len() == PUBLIC_KEY_LEN,
            Err(e) => public_key_of(text@) is None && e == SimError::InvalidServerKey,
        },
{
    checked_key(read_public_key(text))
}

/// Whether the argument at this place is the first `--cameras`.
pub open spec fn is_first_flag(args: Seq<String>, at: int) -> bool {
    &&& 0 <= at < args.len()
    &&& args[at]@ == "--cameras"@
    &&& forall|i: int| 0 <= i < at ==> (#[trigger] args[i])@ != "--cameras"@
}

/// The number of cameras a command line asks for: the number behind the
/// first `--cameras`, and [`DEFAULT_CAMERAS`] when there is no `--cameras`,
/// nothing behind it, or no number behind it.
pub open spec fn cameras_of(args: Seq<String>) -> nat {
    if exists|at: int| is_first_flag(args, at) {
        let at = choose|at: int| is_first_flag(args, at);
        if at + 1 < args.len() {
            match parsed_decimal(args[at + 1]@, usize::MAX as nat) {
                Some(n) => n,
                None => DEFAULT_CAMERAS as nat,
            }
        } else {
            DEFAULT_CAMERAS as nat
        }
    } else {
        DEFAULT_CAMERAS as nat
    }
}

/// Reads the simulator's command line: the program's name, the server's
/// public key, and optionally `--cameras` and a number. Refused exactly when
/// the server's key is missing.
pub fn parse_args(args: &Vec<String>) -> (out: Result<SimArgs, UsageError>)
    ensures
        out is Err <==> args@.len() < 2,
        out matches Ok(parsed) ==> parsed.server_key@ == args@[1]@ && parsed.cameras
            == cameras_of(args@),
{
    if args.len() < 2 {
        return Err(UsageError);
    }
    let flag = String::from_str("--cameras");
    let mut cameras: usize = DEFAULT_CAMERAS;
    let mut i: usize = 0;
    while i < args.len()
        invariant
            args@.len() >= 2,
            i <= args@.len(),
            flag@ == "--cameras"@,
            cameras == DEFAULT_CAMERAS,
            forall|j: int| 0 <= j < i ==> (#[trigger] args@[j])@ != "--cameras"@,
        decreases args@.len() - i,
    {
        if args[i] == flag {
            assert(is_first_flag(args@, i as int));
            assert forall|at: int| is_first_flag(args@, at) implies at == i by {
                if at < i {
                    assert(args@[at]@ != "--cameras"@);
                }
                if at > i {
                    assert(args@[i as int]@ != "--cameras"@);
                }
            }
            if i + 1 < args.len() {
                if let Some(n) = parse_decimal(args[i + 1].as_str(), usize::MAX as u64) {
                    cameras = n as usize;
                }
            }
            return Ok(SimArgs { server_key: args[1].clone(), cameras });
        }
        i = i + 1;
    }
    assert forall|at: int| !is_first_flag(args@, at) by {
        if 0 <= at < args@.len() {
            assert(args@[at]@ != "--cameras"@);
        }
    }
    Ok(SimArgs { server_key: args[1].clone(), cameras })
}

/// The timestamp a frame gets when this many microseconds have passed since
/// the camera started: the low 64 bits of the count.
pub open spec fn stamp_of(elapsed_micros: u128) -> u64 {
    (elapsed_micros % 0x1_0000_0000_0000_0000) as u64
}

/// The timestamp for a frame sent this many microseconds after the start.
pub fn timestamp_us(elapsed_micros: u128) -> (stamp: u64)
    ensures
        stamp == stamp_of(elapsed_micros),
{
    (elapsed_micros % 0x1_0000_0000_0000_0000) as u64
}

/// A video frame. It carries the keyframe flag exactly when its payload
/// holds a keyframe.
pub fn video_frame(source: SourceId, payload: Vec<u8>, keyframe: bool, elapsed_micros: u128) -> (frame:
    Frame)
    ensures
        frame@ == (FrameView {
            source: source.0,
            channel: Channel::Video,
            flags: if keyframe {
                FLAG_KEYFRAME
            } else {
                0
            },
            timestamp_us: stamp_of(elapsed_micros),
            payload: payload@,
        }),
        frame@.is_keyframe() == keyframe,
{
    let flags = if keyframe {
        FrameFlags::keyframe()
    } else {
        FrameFlags::default()
    };
    Frame {
        source,
        channel: Channel::Video,
        flags,
        timestamp_us: timestamp_us(elapsed_micros),
        payload,
    }
}

/// A video frame made from what the encoder put out. It carries the keyframe
/// flag exactly when the bytes hold a keyframe.
pub fn encoded_video_frame(source: SourceId, payload: Vec<u8>, elapsed_micros: u128) -> (frame:
    Frame)
    ensures
        frame@ == (FrameView {
            source: source.0,
            channel: Channel::Video,
            flags: if holds_keyframe(payload@) {
                FLAG_KEYFRAME
            } else {
                0
            },
            timestamp_us: stamp_of(elapsed_micros),
            payload: payload@,
        }),
        frame@.is_keyframe() == holds_keyframe(payload@),
{
    let keyframe = contains_keyframe(payload.as_slice());
    video_frame(source, payload, keyframe, elapsed_micros)
}

/// An audio or telemetry frame: no flag is set.
pub fn plain_frame(source: SourceId, channel: Channel, payload: Vec<u8>, elapsed_micros: u128) -> (frame:
    Frame)
    ensures
        frame@ == (FrameView {
            source: source.0,
            channel,
            flags: 0,
            timestamp_us: stamp_of(elapsed_micros),
            payload: payload@,
        }),
{
    Frame {
        source,
        channel,
        flags: FrameFlags::default(),
        timestamp_us: timestamp_us(elapsed_micros),
        payload,
    }
}

/// What a simulated camera does after it tried to send a frame.
#[derive(Clone, Copy, Debug, PartialEq, Eq, Structural)]
pub enum AfterSend {
    /// Go on with the next frame.
    Continue,
    /// The stream is lost: stop sending.
    Stop,
}

/// What follows an attempt to send a frame: a video frame that could not be
/// sent ends the camera's stream; a lost audio or telemetry frame is passed
/// over.
pub open spec fn follows_send(channel: Channel, sent: bool) -> AfterSend {
    if channel == Channel::Video && !sent {
        AfterSend::Stop
    } else {
        AfterSend::Continue
    }
}

/// Decides what a simulated camera does after it tried to send a frame of
/// this channel.
pub fn after_send(channel: Channel, sent: bool) -> (next: AfterSend)
    ensures
        next == follows_send(channel, sent),
{
    if channel == Channel::Video && !sent {
        AfterSend::Stop
    } else {
        AfterSend::Continue
    }
}

/// Counts one more video frame as sent and says whether a progress line is
/// due: after every [`PROGRESS_EVERY`] frames. The count stops at the largest
/// number it can hold.
pub fn count_sent(sent: u64) -> (out: (u64, bool))
    ensures
        out.0 == if sent == u64::MAX {
            sent
        } else {
            (sent + 1) as u64
        },
        out.1 == (out.0 % PROGRESS_EVERY == 0),
{
    let now: u64 = if sent == u64::MAX {
        sent
    } else {
        sent + 1
    };
    (now, now % PROGRESS_EVERY == 0)
}

} // verus!
