//! Network-side logic: the validator proof protocol, the validator set as the
//! network sees it, persistent peers and per-IP connection limits.

pub mod validator_proof;
pub mod validators;
pub mod addresses;
pub mod ip_limits;
pub mod peers;
pub mod i2p_transport;
