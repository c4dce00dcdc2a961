//! A userspace TCP endpoint over IPv4 that is opened by its peers.
//!
//! The library holds everything but the device and the threads: a caller
//! hands it the datagrams that arrive and an idle tick now and then, and
//! sends on the datagrams that it emits.
//!
//! - `sequence`: comparison of sequence numbers modulo 2^32.
//! - `wire`: inbound datagrams read into header fields, outbound segments
//!   serialised with their checksums.
//! - `model`: the connection as a state machine over mathematical values.
//! - `lemmas`, `laws`: what every step keeps, and what holds of every
//!   connection.
//! - `tcp`: the connection itself.
//! - `quad`, `manager`: the table of connections by flow, the listening
//!   ports, and the two entry points of the packet pump.
//! - `socket`: the listener and the stream that an application holds.
//! - `available`, `error`: readiness flags and errors.

pub mod available;
pub mod error;
pub mod laws;
mod lemmas;
pub mod manager;
pub mod model;
pub mod quad;
pub mod sequence;
pub mod socket;
pub mod tcp;
pub mod wire;

pub use available::Available;
pub use error::NetError;
pub use manager::{ConnectionManager, Wake};
pub use model::{RecvSequenceSpace, SendSequenceSpace, State, SENDQUEUE_SIZE};
pub use quad::Quad;
pub use sequence::{between_wrapping, wrapping_lt};
pub use socket::{TcpListener, TcpStream};
pub use tcp::Connection;
pub use wire::{encode_segment, parse_segment, ParsedSegment, SegmentHeader};
