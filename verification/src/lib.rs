//! Core of an embedded media relay.
//!
//! Cameras connect over an encrypted peer-to-peer transport and push frames.
//! The relay finds out which connections are cameras, fans their frames out
//! to any number of subscribers without letting a slow one hold the others
//! back, and records them in segments that are bounded in time and size.
//!
//! This crate is the part of the relay that decides. It waits for nothing
//! and touches neither network nor disk: the tasks around it report what
//! happened and do what they are told. Every function is stated over a
//! mathematical model and proved against it.
//!
//! - [`frame`]: frames and camera identifiers.
//! - [`record`]: the form in which a frame is stored and sent, and that it
//!   reads back unchanged.
//! - [`transport`]: how the relay comes by its identity at startup.
//! - [`classifier`]: camera or client, decided once per connection.
//! - [`router`]: the bounded broadcast bus; [`delivery`]: what subscribers can
//!   rely on.
//! - [`commands`]: the command channels to the cameras.
//! - [`fanout`]: one bounded queue per camera in front of the storage.
//! - [`storage`]: segments, rollover and retention; [`recording`]: what the
//!   recording can rely on.
//! - [`config`] and [`numbers`]: startup settings.
//! - [`simulator`] and [`h264`]: the camera simulator's rules.

pub mod classifier;
pub mod commands;
pub mod config;
pub mod delivery;
pub mod fanout;
pub mod frame;
pub mod h264;
pub mod numbers;
pub mod record;
pub mod recording;
pub mod router;
pub mod simulator;
pub mod storage;
pub mod transport;
