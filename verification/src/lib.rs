//! The core of a peer-to-peer node that gathers numeric "manifestation
//! results" from an anonymous population: signed envelopes over an Ed25519
//! identity, validation of what comes in, bounded windows of scores with
//! their means and percentiles, the cache of message ids, and the decisions
//! of the node and of its host. Every score is a binary64 number carried as
//! its bit pattern, and worked on with integer arithmetic. The overlay, the
//! files and the JSON encoding of the records are left to whoever runs the
//! node.

pub mod binary64;
pub mod encoding;
pub mod host;
pub mod identity;
pub mod network;
pub mod score;
