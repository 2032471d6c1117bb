//! On-ramp providers: exchanges and their known wallets.

pub mod matcher;
pub mod registry;
