//! Entity labels: who an address is said to belong to.

pub mod label_store;
pub mod matcher;
pub mod ofac;
