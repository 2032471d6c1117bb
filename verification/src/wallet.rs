//! Wallets and when they were first seen.

pub mod first_seen;
