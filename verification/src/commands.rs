//! Command channels to the cameras.
//!
//! Beside its frame stream a camera may accept a command stream. The relay
//! keeps the sending end of each under the camera's identifier. A camera
//! that reconnects replaces its entry. A command for a camera that has no
//! entry fails; it is never queued.
//!
//! The registry is generic in the sending end: it stores and finds, it never
//! sends.

use crate::frame::SourceId;
use crate::record::push_all;
use std::collections::HashMap;
use vstd::bytes::{
    spec_u32_from_le_bytes, spec_u32_to_le_bytes, spec_u64_from_le_bytes, u32_from_le_bytes,
    u32_to_le_bytes, u64_from_le_bytes,
};
use vstd::prelude::*;
use vstd::slice::slice_subrange;

verus! {

broadcast use vstd::std_specs::hash::group_hash_axioms;

/// Why a command could not be passed on.
#[derive(Clone, Copy, Debug, PartialEq, Eq, Structural)]
pub enum CommandError {
    /// The camera has no command channel.
    NotConnected,
}

/// A message read from a client's command stream.
#[derive(Clone, Debug, PartialEq, Eq)]
pub enum ClientMessage {
    /// A command for the camera `target`.
    Command { target: SourceId, body: Vec<u8> },
    /// Bytes that are no message.
    Malformed,
}

/// Bytes in front of a command's body: the target camera, little-endian.
pub const COMMAND_HEADER_LEN: usize = 8;

/// What the bytes of a client's message mean: the first eight bytes name the
/// camera, the rest is the command for it; fewer than eight bytes are no
/// message.
pub open spec fn message_of(bytes: Seq<u8>) -> (Option<(u64, Seq<u8>)>) {
    if bytes.len() < COMMAND_HEADER_LEN {
        None
    } else {
        Some(
            (
                spec_u64_from_le_bytes(bytes.subrange(0, COMMAND_HEADER_LEN as int)),
                bytes.subrange(COMMAND_HEADER_LEN as int, bytes.len() as int),
            ),
        )
    }
}

/// Reads a client's message.
pub fn parse_client_message(bytes: &[u8]) -> (message: ClientMessage)
    ensures
        match message {
            ClientMessage::Command { target, body } => message_of(bytes@) == Some(
                (target.0, body@),
            ),
            ClientMessage::Malformed => message_of(bytes@) is None,
        },
{
    if bytes.len() < COMMAND_HEADER_LEN {
        return ClientMessage::Malformed;
    }
    let target: u64 = u64_from_le_bytes(slice_subrange(bytes, 0, COMMAND_HEADER_LEN));
    let rest = slice_subrange(bytes, COMMAND_HEADER_LEN, bytes.len());
    let mut body: Vec<u8> = Vec::new();
    push_all(&mut body, rest);
    assert(body@ =~= rest@);
    ClientMessage::Command { target: SourceId(target), body }
}

/// Bytes of the length that goes in front of every message on a command
/// stream.
pub const LENGTH_PREFIX_LEN: usize = 4;

/// Longest message a command stream carries.
pub const MAX_MESSAGE_LEN: u32 = 1_048_576;

/// A message as it goes over a command stream: its length, little-endian,
/// and then the message.
pub open spec fn framed(message: Seq<u8>) -> Seq<u8> {
    spec_u32_to_le_bytes(message.len() as u32) + message
}

/// The length of the message that a prefix announces, if the prefix is whole
/// and the length allowed.
pub open spec fn announced(prefix: Seq<u8>) -> Option<u32> {
    if prefix.len() == LENGTH_PREFIX_LEN && spec_u32_from_le_bytes(prefix) <= MAX_MESSAGE_LEN {
        Some(spec_u32_from_le_bytes(prefix))
    } else {
        None
    }
}

/// Puts the length in front of a message. Refused exactly when the message
/// is longer than [`MAX_MESSAGE_LEN`].
pub fn frame_message(message: &[u8]) -> (out: Option<Vec<u8>>)
    ensures
        out is Some <==> message@.len() <= MAX_MESSAGE_LEN,
        out matches Some(bytes) ==> bytes@ == framed(message@),
{
    if message.len() > MAX_MESSAGE_LEN as usize {
        return None;
    }
    let mut out = u32_to_le_bytes(message.len() as u32);
    push_all(&mut out, message);
    Some(out)
}

/// Reads the length of the message that follows a prefix. A prefix that is
/// not four bytes, or announces more than [`MAX_MESSAGE_LEN`], ends the
/// stream.
pub fn message_len(prefix: &[u8]) -> (len: Option<u32>)
    ensures
        len == announced(prefix@),
{
    if prefix.len() != LENGTH_PREFIX_LEN {
        return None;
    }
    let len: u32 = u32_from_le_bytes(prefix);
    if len > MAX_MESSAGE_LEN {
        None
    } else {
        Some(len)
    }
}

/// The prefix of a framed message announces the message's length, and the
/// message follows it unchanged.
pub proof fn law_frame_announces_message(message: Seq<u8>)
    requires
        message.len() <= MAX_MESSAGE_LEN,
    ensures
        framed(message).len() == LENGTH_PREFIX_LEN + message.len(),
        announced(framed(message).take(LENGTH_PREFIX_LEN as int)) == Some(message.len() as u32),
        framed(message).skip(LENGTH_PREFIX_LEN as int) == message,
{
    vstd::bytes::lemma_auto_spec_u32_to_from_le_bytes();
    let prefix = spec_u32_to_le_bytes(message.len() as u32);
    assert(framed(message).take(LENGTH_PREFIX_LEN as int) =~= prefix);
    assert(framed(message).skip(LENGTH_PREFIX_LEN as int) =~= message);
}

/// What the client's session does with a message. No message ends the
/// session.
pub enum Relayed<'a, C> {
    /// Send the command on this channel.
    Forward(&'a C),
    /// Tell the client that the camera is not connected.
    Refuse(CommandError),
    /// Log the message and go on.
    Skip,
}

/// The command channels, by camera.
pub struct CommandRegistry<C> {
    senders: HashMap<u64, C>,
}

impl<C> View for CommandRegistry<C> {
    type V = Map<u64, C>;

    closed spec fn view(&self) -> Map<u64, C> {
        self.senders@
    }
}

impl<C> CommandRegistry<C> {
    /// A registry without entries.
    pub fn new() -> (registry: CommandRegistry<C>)
        ensures
            registry@ == Map::<u64, C>::empty(),
    {
        CommandRegistry { senders: HashMap::new() }
    }

    /// Stores the sending end of a camera's command stream. An earlier
    /// entry of the same camera is replaced and handed back.
    pub fn register_camera_commands(&mut self, source: SourceId, sender: C) -> (replaced: Option<C>)
        ensures
            final(self)@ == old(self)@.insert(source.0, sender),
            replaced == if old(self)@.contains_key(source.0) {
                Some(old(self)@[source.0])
            } else {
                None
            },
    {
        self.senders.insert(source.0, sender)
    }

    /// Whether the camera has a command channel.
    pub fn is_connected(&self, source: SourceId) -> (connected: bool)
        ensures
            connected == self@.contains_key(source.0),
    {
        self.senders.contains_key(&source.0)
    }

    /// The command channel of a camera. Fails exactly when the camera has
    /// none.
    pub fn camera_commands(&self, source: SourceId) -> (found: Result<&C, CommandError>)
        ensures
            match found {
                Ok(sender) => self@.contains_key(source.0) && *sender == self@[source.0],
                Err(e) => !self@.contains_key(source.0) && e == CommandError::NotConnected,
            },
    {
        match self.senders.get(&source.0) {
            Some(sender) => Ok(sender),
            None => Err(CommandError::NotConnected),
        }
    }

    /// Decides what a client's session does with a message it read: a
    /// command goes to its camera's channel or is refused because the camera
    /// has none; anything malformed is skipped.
    pub fn relay(&self, message: &ClientMessage) -> (out: Relayed<'_, C>)
        ensures
            match *message {
                ClientMessage::Command { target, .. } => if self@.contains_key(target.0) {
                    out matches Relayed::Forward(sender) && *sender == self@[target.0]
                } else {
                    out matches Relayed::Refuse(e) && e == CommandError::NotConnected
                },
                ClientMessage::Malformed => out is Skip,
            },
    {
        match message {
            ClientMessage::Command { target, .. } => match self.camera_commands(*target) {
                Ok(sender) => Relayed::Forward(sender),
                Err(e) => Relayed::Refuse(e),
            },
            ClientMessage::Malformed => Relayed::Skip,
        }
    }
}

} // verus!
