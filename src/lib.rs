//! An append-only hash-chain ledger: blocks linked by SHA-256 digests, a
//! validity check over the links, and the "longest valid chain wins" rule for
//! adopting a replica offered by a peer.
pub mod block;
pub mod chain;
pub mod digest;
pub mod render;
