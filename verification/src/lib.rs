//! Ingestion and enrichment engine for stablecoin transfers on EVM chains.
//!
//! The crate holds the decisions of the engine: how a log becomes a transfer
//! or a DeFi event, which wallets are new, how a batch folds into graph
//! edges, which anomaly rules fire, and how a chain indexer plans its next
//! step. Every executable function carries a contract over a mathematical
//! model of its data. The calls to nodes and to the database are the
//! caller's; the functions here take what came back and say what to do.

pub mod amount;
pub mod anomaly;
pub mod bytes;
pub mod config;
pub mod db;
pub mod entity;
pub mod fields;
pub mod graph;
pub mod indexer;
pub mod onramp;
pub mod pipeline;
pub mod text;
pub mod tokens;
pub mod wallet;
