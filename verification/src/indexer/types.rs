//! The plain data that the indexer works on.

use crate::amount::Amount;
use crate::bytes::copy_bytes;
use vstd::prelude::*;

verus! {

/// What a byte string that may be absent holds.
pub open spec fn opt_bytes(b: Option<Vec<u8>>) -> Option<Seq<u8>> {
    match b {
        Some(v) => Some(v@),
        None => None,
    }
}

/// 32 zero bytes: the hash that stands in for an absent one.
pub open spec fn zero_hash() -> Seq<u8> {
    Seq::new(32, |i: int| 0u8)
}

/// A log as a node reports it.
#[derive(Debug)]
pub struct RawLog {
    /// The emitting contract, 20 bytes.
    pub address: Vec<u8>,
    /// The topics, 32 bytes each.
    pub topics: Vec<Vec<u8>>,
    pub data: Vec<u8>,
    pub block_number: Option<u64>,
    pub block_hash: Option<Vec<u8>>,
    pub transaction_hash: Option<Vec<u8>>,
    pub log_index: Option<u64>,
}

/// What a `RawLog` holds, as plain mathematical values.
pub struct RawLogView {
    pub address: Seq<u8>,
    pub topics: Seq<Seq<u8>>,
    pub data: Seq<u8>,
    pub block_number: Option<u64>,
    pub block_hash: Option<Seq<u8>>,
    pub transaction_hash: Option<Seq<u8>>,
    pub log_index: Option<u64>,
}

impl View for RawLog {
    type V = RawLogView;

    open spec fn view(&self) -> RawLogView {
        RawLogView {
            address: self.address@,
            topics: self.topics@.map_values(|t: Vec<u8>| t@),
            data: self.data@,
            block_number: self.block_number,
            block_hash: opt_bytes(self.block_hash),
            transaction_hash: opt_bytes(self.transaction_hash),
            log_index: self.log_index,
        }
    }
}

/// The views of a run of logs.
pub open spec fn logs_view(logs: Seq<RawLog>) -> Seq<RawLogView> {
    logs.map_values(|l: RawLog| l@)
}

impl RawLog {
    /// The transaction hash, or 32 zero bytes where the node gave none.
    pub fn tx_hash_or_zero(&self) -> (hash: Vec<u8>)
        ensures
            hash@ == tx_hash_or_zero(self@),
    {
        match &self.transaction_hash {
            Some(h) => copy_bytes(h.as_slice()),
            None => zero_hash_bytes(),
        }
    }

    /// The block hash, or 32 zero bytes where the node gave none.
    pub fn block_hash_or_zero(&self) -> (hash: Vec<u8>)
        ensures
            hash@ == block_hash_or_zero(self@),
    {
        match &self.block_hash {
            Some(h) => copy_bytes(h.as_slice()),
            None => zero_hash_bytes(),
        }
    }
}

/// The transaction hash of a log, or 32 zero bytes.
pub open spec fn tx_hash_or_zero(log: RawLogView) -> Seq<u8> {
    match log.transaction_hash {
        Some(h) => h,
        None => zero_hash(),
    }
}

/// The block hash of a log, or 32 zero bytes.
pub open spec fn block_hash_or_zero(log: RawLogView) -> Seq<u8> {
    match log.block_hash {
        Some(h) => h,
        None => zero_hash(),
    }
}

/// 32 zero bytes.
pub fn zero_hash_bytes() -> (hash: Vec<u8>)
    ensures
        hash@ == zero_hash(),
{
    let mut hash: Vec<u8> = Vec::new();
    let mut i: usize = 0;
    while i < 32
        invariant
            i <= 32,
            hash@.len() == i,
            forall|j: int| 0 <= j < i ==> hash@[j] == 0u8,
        decreases 32 - i,
    {
        hash.push(0u8);
        i += 1;
    }
    assert(hash@ =~= zero_hash());
    hash
}

/// The largest block number, chain id or count that a signed 64-bit column
/// holds; larger ones are stored as this.
pub open spec fn clamp_i64(x: u64) -> i64 {
    if x > i64::MAX as u64 {
        i64::MAX
    } else {
        x as i64
    }
}

/// `x` as a signed 64-bit number, or the largest one where `x` is above it.
pub fn to_i64(x: u64) -> (r: i64)
    ensures
        r == clamp_i64(x),
{
    if x > i64::MAX as u64 {
        i64::MAX
    } else {
        x as i64
    }
}

/// The largest log index that a signed 32-bit column holds; larger ones are stored as this.
pub open spec fn clamp_i32(x: u64) -> i32 {
    if x > i32::MAX as u64 {
        i32::MAX
    } else {
        x as i32
    }
}

/// `x` as a signed 32-bit number, or the largest one where `x` is above it.
pub fn to_i32(x: u64) -> (r: i32)
    ensures
        r == clamp_i32(x),
{
    if x > i32::MAX as u64 {
        i32::MAX
    } else {
        x as i32
    }
}

/// A decoded stablecoin transfer, ready to be stored.
#[derive(Debug)]
pub struct StablecoinTransfer {
    pub chain_id: i64,
    pub block_number: i64,
    pub block_hash: Vec<u8>,
    pub tx_hash: Vec<u8>,
    pub log_index: i32,
    pub token_address: Vec<u8>,
    pub from_address: Vec<u8>,
    pub to_address: Vec<u8>,
    /// The raw on-chain amount.
    pub amount: Amount,
    pub token_symbol: String,
    pub token_decimals: i16,
    /// Seconds since the Unix epoch.
    pub block_timestamp: i64,
}

/// What a `Transfer` holds, as plain mathematical values.
pub struct TransferView {
    pub chain_id: i64,
    pub block_number: i64,
    pub block_hash: Seq<u8>,
    pub tx_hash: Seq<u8>,
    pub log_index: i32,
    pub token_address: Seq<u8>,
    pub from_address: Seq<u8>,
    pub to_address: Seq<u8>,
    pub amount: nat,
    pub token_symbol: Seq<char>,
    pub token_decimals: i16,
    pub block_timestamp: i64,
}

impl View for StablecoinTransfer {
    type V = TransferView;

    open spec fn view(&self) -> TransferView {
        TransferView {
            chain_id: self.chain_id,
            block_number: self.block_number,
            block_hash: self.block_hash@,
            tx_hash: self.tx_hash@,
            log_index: self.log_index,
            token_address: self.token_address@,
            from_address: self.from_address@,
            to_address: self.to_address@,
            amount: self.amount@,
            token_symbol: self.token_symbol@,
            token_decimals: self.token_decimals,
            block_timestamp: self.block_timestamp,
        }
    }
}

impl Clone for StablecoinTransfer {
    fn clone(&self) -> (copy: Self)
        ensures
            copy@ == self@,
    {
        StablecoinTransfer {
            chain_id: self.chain_id,
            block_number: self.block_number,
            block_hash: copy_bytes(self.block_hash.as_slice()),
            tx_hash: copy_bytes(self.tx_hash.as_slice()),
            log_index: self.log_index,
            token_address: copy_bytes(self.token_address.as_slice()),
            from_address: copy_bytes(self.from_address.as_slice()),
            to_address: copy_bytes(self.to_address.as_slice()),
            amount: self.amount.clone(),
            token_symbol: self.token_symbol.clone(),
            token_decimals: self.token_decimals,
            block_timestamp: self.block_timestamp,
        }
    }
}

/// The views of a batch of transfers.
pub open spec fn transfers_view(batch: Seq<StablecoinTransfer>) -> Seq<TransferView> {
    batch.map_values(|t: StablecoinTransfer| t@)
}

/// The natural key of a transfer: chain, transaction hash and log index.
pub open spec fn transfer_key(t: TransferView) -> (i64, Seq<u8>, i32) {
    (t.chain_id, t.tx_hash, t.log_index)
}

/// What the indexer needs of a block header.
#[derive(Debug)]
pub struct BlockInfo {
    pub chain_id: i64,
    pub block_number: u64,
    pub block_hash: Vec<u8>,
    pub parent_hash: Vec<u8>,
    /// Seconds since the Unix epoch.
    pub timestamp: u64,
}

/// Symbol and decimals of a watched token.
#[derive(Debug)]
pub struct TokenMeta {
    pub symbol: String,
    pub decimals: i16,
}

/// What a `TokenMeta` holds, as plain mathematical values.
pub struct TokenMetaView {
    pub symbol: Seq<char>,
    pub decimals: i16,
}

impl View for TokenMeta {
    type V = TokenMetaView;

    open spec fn view(&self) -> TokenMetaView {
        TokenMetaView { symbol: self.symbol@, decimals: self.decimals }
    }
}

impl Clone for TokenMeta {
    fn clone(&self) -> (copy: Self)
        ensures
            copy@ == self@,
    {
        TokenMeta { symbol: self.symbol.clone(), decimals: self.decimals }
    }
}

} // verus!
