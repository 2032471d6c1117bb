//! The registry of watched token contracts.

pub mod registry;
