//! Verified core of a line-framed JSON IPC client.
//!
//! A lightweight control process talks to a long-running daemon over a
//! local stream socket.  Each message is a JSON object on a single line,
//! terminated by one line-feed byte.  This crate holds everything that can
//! be stated and proved: the wire value model, the encoder, the parser,
//! the message envelopes, the client state machine and the small pieces of
//! presentation logic the consuming layer needs.  The transport itself
//! (dialing the socket, writing and reading bytes) is left to the caller.

pub mod client;
pub mod elements;
pub mod encode;
pub mod parse;
pub mod protocol;
pub mod roundtrip;
pub mod value;
