//! Retransmit core of a validator node: batched intake of already-verified
//! block fragments (shreds), two-stage deduplication, deterministic peer-set
//! computation over a broadcast-tree overlay, and per-slot statistics
//! aggregation. Datagram transport, clocks and channels live with the caller;
//! every decision the core makes is verified here.

pub mod cluster_nodes;
pub mod deduper;
pub mod engine;
pub mod first_shred;
pub mod ring;
pub mod shred;
pub mod slot_stats;
pub mod stats;
