//! Verified core of an HTTP/1.1 client request encoder.
//!
//! The library turns a strict sequence of calls (request line, headers, an
//! optional body, finish) into byte-correct HTTP/1.1 request framing on an
//! append-only output buffer, and publishes two cross-task signals (in-flight
//! request kind, connection-close requested) for the response-reading side of
//! a pipelined connection.

pub mod encoder;
pub mod headers;
pub mod laws;
pub mod parse;
pub mod message;
pub mod wire;
