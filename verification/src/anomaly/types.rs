//! Anomaly kinds and records.

use crate::fields::{fields_view, Field, FieldView};
use crate::indexer::types::opt_bytes;
use vstd::prelude::*;

verus! {

/// The kinds of anomaly that the engine detects.
#[derive(Debug, Clone, Copy, PartialEq, Eq, Structural)]
pub enum AnomalyType {
    LargeTransfer,
    Velocity,
    SanctionedCounterparty,
    RoundNumber,
    NewWalletLargeReceive,
    CrossChainActivity,
}

/// The name under which a kind of anomaly is stored.
pub open spec fn anomaly_type_name(t: AnomalyType) -> Seq<char> {
    match t {
        AnomalyType::LargeTransfer => "large_transfer"@,
        AnomalyType::Velocity => "velocity"@,
        AnomalyType::SanctionedCounterparty => "sanctioned_counterparty"@,
        AnomalyType::RoundNumber => "round_number"@,
        AnomalyType::NewWalletLargeReceive => "new_wallet_large_receive"@,
        AnomalyType::CrossChainActivity => "cross_chain_activity"@,
    }
}

impl AnomalyType {
    /// The name under which this kind of anomaly is stored.
    pub fn as_str(&self) -> (name: &'static str)
        ensures
            name@ == anomaly_type_name(*self),
    {
        match self {
            AnomalyType::LargeTransfer => "large_transfer",
            AnomalyType::Velocity => "velocity",
            AnomalyType::SanctionedCounterparty => "sanctioned_counterparty",
            AnomalyType::RoundNumber => "round_number",
            AnomalyType::NewWalletLargeReceive => "new_wallet_large_receive",
            AnomalyType::CrossChainActivity => "cross_chain_activity",
        }
    }
}

/// A detected anomaly, ready to be stored. It names its transfer by the
/// transfer's natural key.
#[derive(Debug)]
pub struct AnomalyRecord {
    pub chain_id: i64,
    pub anomaly_type: AnomalyType,
    /// Between 0 and 100.
    pub risk_score: u8,
    pub flags: Vec<String>,
    pub details: Vec<Field>,
    pub address: Option<Vec<u8>>,
    pub tx_hash: Vec<u8>,
    pub log_index: i32,
}

/// What a `AnomalyRecord` holds, as plain mathematical values.
pub struct AnomalyRecordView {
    pub chain_id: i64,
    pub anomaly_type: AnomalyType,
    pub risk_score: u8,
    pub flags: Seq<Seq<char>>,
    pub details: Seq<FieldView>,
    pub address: Option<Seq<u8>>,
    pub tx_hash: Seq<u8>,
    pub log_index: i32,
}

impl View for AnomalyRecord {
    type V = AnomalyRecordView;

    open spec fn view(&self) -> AnomalyRecordView {
        AnomalyRecordView {
            chain_id: self.chain_id,
            anomaly_type: self.anomaly_type,
            risk_score: self.risk_score,
            flags: self.flags@.map_values(|f: String| f@),
            details: fields_view(self.details@),
            address: opt_bytes(self.address),
            tx_hash: self.tx_hash@,
            log_index: self.log_index,
        }
    }
}

/// The view of a record that may be absent.
pub open spec fn record_view(r: Option<AnomalyRecord>) -> Option<AnomalyRecordView> {
    match r {
        Some(a) => Some(a@),
        None => None,
    }
}

/// The views of a run of records.
pub open spec fn records_view(records: Seq<AnomalyRecord>) -> Seq<AnomalyRecordView> {
    records.map_values(|r: AnomalyRecord| r@)
}

} // verus!
