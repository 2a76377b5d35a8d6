//! Core logic of a peer-to-peer terminal chat client.
//!
//! Participants exchange text messages and file offers over a gossip-style
//! broadcast network. This crate holds the verified core: the wire codec for
//! the message envelope, the shareable room ticket and its textual form, the
//! connection-quality tracker, the file-transfer state machine, the welcome
//! form, and the decision logic of the main event loop. Terminal rendering
//! and all networking I/O live outside, in the surrounding binary.

pub mod ids;
pub mod strutil;
pub mod wire;
pub mod b32;
pub mod codec;
pub mod chat;
pub mod conn;
pub mod event;
pub mod keys;
pub mod theme;
pub mod transfer;
pub mod ticket;
pub mod welcome;
