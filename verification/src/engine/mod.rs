//! Consensus engine settings: step timeouts and how they grow from round to round.
//! Durations are counted in nanoseconds.

pub mod timeouts;
pub mod consensus;
pub mod driver;
pub mod wal;
