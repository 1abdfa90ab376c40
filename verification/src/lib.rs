//! A JSON-RPC 2.0 protocol engine.
//!
//! The crate turns a stream of bytes into RPC messages, decides what an
//! endpoint answers to each of them, and matches the answers that arrive
//! with the calls that are still waiting for one. It opens no connection and
//! runs no task: the caller owns the transport and the executor, and hands
//! plain values in and out.
//!
//! * [`json`] holds the JSON values that everything else is built from.
//! * [`message`] is the message model and its mapping to and from JSON.
//! * [`codec`] frames a byte buffer into one message per line.
//! * [`endpoint`] is the dispatch engine and the client's table of calls.

pub mod codec;
pub mod endpoint;
pub mod json;
pub mod message;
