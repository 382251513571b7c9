//! Value sync: fetching decided values from peers when this node falls behind,
//! and serving decided values to peers that are behind.

pub mod ranges;
pub mod state;
pub mod handle;
pub mod credit;
