//! The anomaly engine: a fixed set of rules over each batch of transfers.

pub mod engine;
pub mod rules;
pub mod types;
