//! A length-delimited message server library.
//!
//! Clients send a tagged request envelope (an echo request or a 32-bit
//! addition request) as one encoded frame; the server decodes the frame,
//! dispatches it to a pure handler, and encodes a response envelope.  This
//! crate holds the verified core: the wire codec for both envelopes, the
//! request dispatcher, the per-connection handler decisions, and the
//! server lifecycle with its shared running flag.  The sockets and threads
//! that drive these decisions live outside the library and hand it plain
//! bytes and events.

pub mod codec;
pub mod dispatch;
pub mod handler;
pub mod message;
pub mod server;
pub mod wire;
