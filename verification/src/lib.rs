//! The logic of a small multi-user text chat, without its sockets and its
//! terminal: the wire format of a message, the typed view of a received
//! message, the server's user registry and per-connection state machine, and
//! the client's input line.
//!
//! Nothing here performs I/O. Bytes come in and go out as plain values, so a
//! caller owns the sockets, threads and locks, and every rule of the protocol
//! is stated in a contract.

pub mod client;
pub mod common;
pub mod reader;
pub mod registry;
pub mod server;
pub mod stream;
pub mod text;
pub mod wire;
