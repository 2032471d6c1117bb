//! The wallet graph: who sent to whom, and clusters of wallets.

pub mod cluster;
pub mod tracker;
