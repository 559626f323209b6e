//! The relay's identity at startup, and which failures end the relay.
//!
//! The relay keeps one secret key for good, so that its public key, which
//! the cameras are configured with, survives restarts. The process reads the
//! key file; this module decides what follows from what was found.
//!
//! Failures stay where they happen: one connection, one camera, one write.
//! Only a relay without settings, identity or endpoint ends the process.

use vstd::prelude::*;

verus! {

/// Bytes in a secret key.
pub const SECRET_KEY_LEN: usize = 32;

/// What the process found where the key is kept.
#[derive(Clone, Debug, PartialEq, Eq)]
pub enum KeyFile {
    /// No path was given: the identity is not to be kept.
    NoPath,
    /// A path was given and no file is there.
    Missing,
    /// A file is there and could not be read.
    Unreadable,
    /// A file is there and holds these bytes.
    Found(Vec<u8>),
}

/// Why the relay has no identity. This ends the startup.
#[derive(Clone, Copy, Debug, PartialEq, Eq, Structural)]
pub enum KeyError {
    /// The key file could not be read.
    Unreadable,
    /// The key file does not hold a secret key.
    Corrupt,
}

/// How the relay comes by its identity.
#[derive(Clone, Debug, PartialEq, Eq)]
pub enum IdentityPlan {
    /// Generate a key and keep it in memory only.
    Ephemeral,
    /// Generate a key and write it to the given path.
    Create,
    /// Use this key, which was read from the given path.
    Load(Vec<u8>),
}

/// Decides how the relay comes by its identity.
///
/// Without a path a fresh key is used and forgotten. With a path, a missing
/// file means a fresh key that is written there, and a file of exactly
/// [`SECRET_KEY_LEN`] bytes is the key. Anything else is an error: a file
/// that cannot be read, or one of another length.
pub fn plan_identity(file: &KeyFile) -> (plan: Result<IdentityPlan, KeyError>)
    ensures
        match *file {
            KeyFile::NoPath => plan == Ok::<IdentityPlan, KeyError>(IdentityPlan::Ephemeral),
            KeyFile::Missing => plan == Ok::<IdentityPlan, KeyError>(IdentityPlan::Create),
            KeyFile::Unreadable => plan == Err::<IdentityPlan, KeyError>(KeyError::Unreadable),
            KeyFile::Found(bytes) => if bytes@.len() == SECRET_KEY_LEN {
                plan matches Ok(IdentityPlan::Load(key)) && key@ == bytes@
            } else {
                plan == Err::<IdentityPlan, KeyError>(KeyError::Corrupt)
            },
        },
{
    match file {
        KeyFile::NoPath => Ok(IdentityPlan::Ephemeral),
        KeyFile::Missing => Ok(IdentityPlan::Create),
        KeyFile::Unreadable => Err(KeyError::Unreadable),
        KeyFile::Found(bytes) => {
            if bytes.len() == SECRET_KEY_LEN {
                let key = bytes.clone();
                assert(key@ =~= bytes@);
                Ok(IdentityPlan::Load(key))
            } else {
                Err(KeyError::Corrupt)
            }
        },
    }
}

/// What can go wrong while the relay runs.
#[derive(Clone, Copy, Debug, PartialEq, Eq, Structural)]
pub enum Failure {
    /// The settings cannot be used.
    Settings,
    /// The relay has no identity.
    Identity(KeyError),
    /// The endpoint could not be bound.
    Endpoint,
    /// The endpoint is shut down: no connection will come any more.
    EndpointClosed,
    /// A peer could not be connected to, or its handshake failed.
    Connection,
    /// Accepting a connection's frame stream failed outright.
    Classification,
    /// A stream of one connection failed.
    Stream,
    /// A subscriber of the bus fell behind and missed frames.
    BusLag,
    /// A camera's storage queue was full and a frame was dropped.
    QueueFull,
    /// A record could not be written.
    StorageWrite,
    /// The store is over its size limit and only open segments are left.
    OverLimit,
}

/// What is done about a failure.
#[derive(Clone, Copy, Debug, PartialEq, Eq, Structural)]
pub enum Handling {
    /// The process cannot go on.
    Fatal,
    /// It is logged; whatever it concerns is given up or retried, and
    /// everything else goes on.
    Logged,
    /// It is counted and not logged.
    Counted,
}

/// What is done about each failure. A relay without settings, identity or
/// endpoint cannot go on. A dropped frame on a full queue is by design and
/// only counted. Everything else is logged and stays with the connection,
/// the camera or the write it concerns.
pub open spec fn handling_of(failure: Failure) -> Handling {
    match failure {
        Failure::Settings => Handling::Fatal,
        Failure::Identity(_) => Handling::Fatal,
        Failure::Endpoint => Handling::Fatal,
        Failure::EndpointClosed => Handling::Fatal,
        Failure::QueueFull => Handling::Counted,
        _ => Handling::Logged,
    }
}

/// Says what is done about a failure.
pub fn handling(failure: Failure) -> (what: Handling)
    ensures
        what == handling_of(failure),
{
    match failure {
        Failure::Settings => Handling::Fatal,
        Failure::Identity(_) => Handling::Fatal,
        Failure::Endpoint => Handling::Fatal,
        Failure::EndpointClosed => Handling::Fatal,
        Failure::QueueFull => Handling::Counted,
        _ => Handling::Logged,
    }
}

} // verus!
