//! A reliable file-transfer client over an unreliable datagram substrate.
//!
//! The crate holds the message codec, the segment window and the decisions of
//! the retransmission loop. Sockets, files and the kernel's readiness
//! facility stay with the caller, which feeds events in and carries actions
//! out.
//!
//! - `ascii`: tokens and decimal numbers in byte strings.
//! - `messages`: requests and responses on the wire.
//! - `segment`, `ranges`, `window`: the byte ranges of a file and the window
//!   of segments in flight.
//! - `downloader`: the state of a download and its transitions.
//! - `session`: a download as a sequence of events, with the laws that hold
//!   of every such sequence.
//! - `config`: the command line.
//! - `registry`: the interest table of a readiness registry.
//!
//! Beside the client the crate carries the value types of two sibling
//! programs: `distance`, `subnet_mask` and `route` of a distance-vector
//! router, and `http`, the vocabulary of an HTTP/1.1 server.

pub mod ascii;
pub mod messages;
pub mod segment;
pub mod ranges;
pub mod window;
pub mod downloader;
pub mod session;
pub mod config;
pub mod registry;
pub mod distance;
pub mod subnet_mask;
pub mod route;
pub mod http;
