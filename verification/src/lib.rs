//! An HTTP/1.1 client core with optional WebSocket upgrade.
//!
//! The crate holds the poll-free decision logic of an asynchronous client:
//! origin resolution, header framing, the request state machine, response
//! body decoding and the WebSocket handshake. All I/O is performed by the
//! caller, who drives the state machines in this crate with plain byte
//! buffers and events.
//!
//! Two policies this client fixes: a target without a scheme defaults to
//! TLS, and redirects are surfaced to the caller as data, never followed.

pub mod ascii;
pub mod base64;
pub mod body;
pub mod error;
pub mod engine;
pub mod framing;
pub mod head;
pub mod headers;
pub mod request;
pub mod request_write;
pub mod response;
pub mod uri;
pub mod ws;
