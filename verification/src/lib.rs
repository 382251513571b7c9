//! Verified core logic of a BFT consensus node: value sync, proposal-part
//! stream reassembly, peer bookkeeping and connection limits.

pub mod assoc;
pub mod content;
pub mod engine;
pub mod hash;
pub mod host_stream;
pub mod mempool;
pub mod mock_host;
pub mod part_store;
pub mod peer;
pub mod proposal;
pub mod rng;
pub mod signing;
pub mod streaming;
pub mod sync;
pub mod network;
