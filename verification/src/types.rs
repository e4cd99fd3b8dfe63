use vstd::prelude::*;

verus! {

/// A remote node, identified by its endpoint address and tracked with the
/// chain height it last reported.
///
/// Two peers are the same peer exactly when their addresses are equal; the
/// height is mutable metadata. The address is an opaque endpoint identifier:
/// an IPv4 socket address (32-bit host plus 16-bit port) packs into it
/// losslessly, and driver code owns the mapping to the textual form.
#[derive(Clone, Copy, PartialEq, Eq, Structural, Debug)]
pub struct Peer {
    pub addr: u64,
    pub current_block: u64,
}

/// Why contacting a peer failed. Every caller treats the three kinds the
/// same way; they differ only in how the failure is reported.
#[derive(Clone, Copy, PartialEq, Eq, Structural, Debug)]
pub enum FailureKind {
    /// The request never reached the peer (connection refused, timeout, ...).
    Connection,
    /// The peer answered with a non-success HTTP status.
    Status,
    /// The peer's response body could not be decoded.
    Parse,
}

/// A value-transfer "spend" log entry, reduced to the fields the core
/// carries. The core never inspects events; it only collects and orders
/// them.
#[derive(Clone, Copy, PartialEq, Eq, Structural, Debug)]
pub struct SpendEvent {
    pub index: u64,
    pub nullifier: u64,
}

/// A value-transfer "sent" log entry, reduced to the fields the core
/// carries.
#[derive(Clone, Copy, PartialEq, Eq, Structural, Debug)]
pub struct SentEvent {
    pub index: u64,
    pub commitment: u64,
}

/// A configured blockchain provider binding. The core only records whether
/// one is configured; the handle names the real provider and contract
/// objects, which live with the driver code that issues the queries.
#[derive(Clone, Copy, PartialEq, Eq, Structural, Debug)]
pub struct Network {
    pub provider_handle: u64,
}

} // verus!
