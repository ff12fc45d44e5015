//! An HTTP/1.1 message-framing engine.
//!
//! The engine reads and writes HTTP requests and responses over a raw byte
//! stream, independent of any runtime: the caller reads bytes from its
//! transport and feeds them in, and the engine hands back parsed messages
//! and serialized replies.  Everything here is pure logic over bytes; all
//! I/O stays with the caller.

pub mod auth;
pub mod bytes;
pub mod config;
pub mod connection;
pub mod decimal;
pub mod framing;
pub mod header;
pub mod message;
pub mod models;
pub mod parse;
pub mod roundtrip;
