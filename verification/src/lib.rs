//! Transport core for a line-oriented text protocol client.
//!
//! The crate covers the pure heart of the connection manager: parsing
//! connection addresses, re-assembling a byte stream into terminator-delimited
//! frames, the per-connection read and write state machines, the registry of
//! live connections, and comparison of release versions for the update check.
//! The surrounding shell owns the sockets and the task scheduler; it feeds
//! bytes and events in and carries actions and events out.
use vstd::prelude::*;

pub mod addr;
pub mod codec;
pub mod socket;
pub mod text;
pub mod update;

verus! {

/// Errors surfaced synchronously by the transport commands.
#[derive(Clone, Copy, Debug, PartialEq, Eq, Structural)]
pub enum SocketError {
    /// The connection address has an empty host.
    InvalidAddress,
    /// No live connection is registered under the given identifier.
    UnknownConnection,
    /// The write task for the connection has already exited, so its
    /// outbound queue accepts nothing more.
    QueueClosed,
}

} // verus!
