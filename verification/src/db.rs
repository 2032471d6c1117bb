//! The persistence layer: how rows are written.

pub mod rules;
pub mod repository;
