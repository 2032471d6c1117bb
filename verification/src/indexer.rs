//! The per-chain indexer: log decoding and the decisions of the backfill and
//! live loops.

pub mod chain;
pub mod decoder;
pub mod defi_decoder;
pub mod receipt_fetcher;
pub mod types;
