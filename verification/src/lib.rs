//! Peer-synchronization and on-chain-event-ingestion core of a lightweight
//! blockchain node.
//!
//! The library keeps a registry of known peers, runs handshake rounds that
//! elect the most advanced peer as a synchronization source, merges gossiped
//! peer lists, and assembles chain event logs fetched either from an elected
//! peer's paginated API or directly from a provider with an adaptive range
//! controller.
//!
//! Network transport is not done here: every decision the node takes is a
//! function of the registry state and of the outcomes of the network calls,
//! which callers hand in as plain values. Unverified driver code performs the
//! actual HTTP and provider requests and feeds the outcomes to this crate.

pub mod direct_fetch;
pub mod laws;
pub mod peer_fetch;
pub mod registry;
pub mod sync;
pub mod tokens;
pub mod types;
