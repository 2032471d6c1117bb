//! Decoding of ERC-20 `Transfer` logs.

use crate::amount::{be_nat, Amount};
use crate::bytes::{bytes_eq, copy_bytes};
use crate::indexer::types::{tx_hash_or_zero, RawLog, RawLogView};
use crate::text::utf8;
use crate::tokens::registry::{find_token, WatchedTokenView, WatchedTokens};
use vstd::prelude::*;
use vstd::slice::slice_subrange;

verus! {

/// The Keccak-256 digest of a byte string.
pub uninterp spec fn keccak256_of(data: Seq<u8>) -> Seq<u8>;

/// `keccak256` of alloy: the 32 bytes of the Keccak-256 digest of `data`.
#[verifier::external_body]
pub(crate) fn keccak256(data: &[u8]) -> (digest: Vec<u8>)
    ensures
        digest@ == keccak256_of(data@),
        digest@.len() == 32,
{
    alloy::primitives::keccak256(data).as_slice().to_vec()
}

/// The topic by which an event with the given canonical signature is
/// found: the Keccak-256 digest of the signature's text.
pub open spec fn topic_of(signature: Seq<char>) -> Seq<u8> {
    keccak256_of(utf8(signature))
}

/// The first topic of every log of the event with this signature.
pub fn event_topic(signature: &str) -> (topic: Vec<u8>)
    ensures
        topic@ == topic_of(signature@),
        topic@.len() == 32,
{
    keccak256(signature.as_bytes())
}

/// The canonical signature of the ERC-20 transfer event.
pub const TRANSFER_SIGNATURE: &'static str = "Transfer(address,address,uint256)";

/// The address in a 32-byte word: its low 20 bytes.
pub open spec fn word_address(word: Seq<u8>) -> Seq<u8> {
    word.skip(12)
}

/// The address in a 32-byte word.
pub(crate) fn address_of_word(word: &[u8]) -> (address: Vec<u8>)
    requires
        word@.len() == 32,
    ensures
        address@ == word_address(word@),
        address@.len() == 20,
{
    let low = slice_subrange(word, 12, 32);
    assert(low@ =~= word@.skip(12));
    copy_bytes(low)
}

/// The 32-byte word of `data` at position `index`.
pub open spec fn data_word(data: Seq<u8>, index: int) -> Seq<u8> {
    data.subrange(32 * index, 32 * index + 32)
}

/// A transfer as the log alone gives it, before the block is known.
#[derive(Debug)]
pub struct DecodedTransfer {
    pub from: Vec<u8>,
    pub to: Vec<u8>,
    pub amount: Amount,
    pub token_address: Vec<u8>,
    pub token_symbol: String,
    pub token_decimals: i16,
    pub log_index: u64,
    pub tx_hash: Vec<u8>,
}

/// What a `DecodedTransfer` holds, as plain mathematical values.
pub struct DecodedTransferView {
    pub from: Seq<u8>,
    pub to: Seq<u8>,
    pub amount: nat,
    pub token_address: Seq<u8>,
    pub token_symbol: Seq<char>,
    pub token_decimals: i16,
    pub log_index: u64,
    pub tx_hash: Seq<u8>,
}

impl View for DecodedTransfer {
    type V = DecodedTransferView;

    open spec fn view(&self) -> DecodedTransferView {
        DecodedTransferView {
            from: self.from@,
            to: self.to@,
            amount: self.amount@,
            token_address: self.token_address@,
            token_symbol: self.token_symbol@,
            token_decimals: self.token_decimals,
            log_index: self.log_index,
            tx_hash: self.tx_hash@,
        }
    }
}

/// Whether a log has the shape of a transfer event with first topic
/// `topic0`: exactly three topics of 32 bytes, the first of them `topic0`,
/// and at least 32 bytes of data.
pub open spec fn is_transfer_shape(log: RawLogView, topic0: Seq<u8>) -> bool {
    &&& log.topics.len() == 3
    &&& log.topics[0] == topic0
    &&& log.topics[1].len() == 32
    &&& log.topics[2].len() == 32
    &&& log.data.len() >= 32
}

/// The transfer that a log stands for, given the watched tokens and the
/// topic of the transfer event; nothing where the emitting contract is not
/// watched or the log has another shape.
pub open spec fn transfer_of_log(
    log: RawLogView,
    watched: Seq<WatchedTokenView>,
    topic0: Seq<u8>,
) -> Option<DecodedTransferView> {
    match find_token(watched, log.address) {
        None => None,
        Some(meta) => if is_transfer_shape(log, topic0) {
            Some(
                DecodedTransferView {
                    from: word_address(log.topics[1]),
                    to: word_address(log.topics[2]),
                    amount: be_nat(data_word(log.data, 0)),
                    token_address: log.address,
                    token_symbol: meta.symbol,
                    token_decimals: meta.decimals,
                    log_index: match log.log_index {
                        Some(i) => i,
                        None => 0,
                    },
                    tx_hash: tx_hash_or_zero(log),
                },
            )
        } else {
            None
        },
    }
}

/// What the views of an optional decoded transfer are.
pub open spec fn decoded_view(d: Option<DecodedTransfer>) -> Option<DecodedTransferView> {
    match d {
        Some(t) => Some(t@),
        None => None,
    }
}

/// Decodes a log as a transfer of a watched token, where `topic0` is the
/// topic of the transfer event. A log that does not match gives nothing.
pub fn decode_transfer_with_topic(
    log: &RawLog,
    watched_tokens: &WatchedTokens,
    topic0: &[u8],
) -> (decoded: Option<DecodedTransfer>)
    ensures
        decoded_view(decoded) == transfer_of_log(log@, watched_tokens@, topic0@),
{
    let token_meta = match watched_tokens.lookup(log.address.as_slice()) {
        Some(m) => m,
        None => {
            return None;
        },
    };
    if log.topics.len() != 3 {
        return None;
    }
    if !bytes_eq(log.topics[0].as_slice(), topic0) {
        return None;
    }
    if log.topics[1].len() != 32 || log.topics[2].len() != 32 {
        return None;
    }
    if log.data.len() < 32 {
        return None;
    }
    let from = address_of_word(log.topics[1].as_slice());
    let to = address_of_word(log.topics[2].as_slice());
    let word = slice_subrange(log.data.as_slice(), 0, 32);
    assert(word@ =~= data_word(log@.data, 0));
    let amount = Amount::from_be_bytes(word);
    let tx_hash = log.tx_hash_or_zero();
    let log_index = match log.log_index {
        Some(i) => i,
        None => 0,
    };
    Some(
        DecodedTransfer {
            from,
            to,
            amount,
            token_address: copy_bytes(log.address.as_slice()),
            token_symbol: token_meta.symbol.clone(),
            token_decimals: token_meta.decimals,
            log_index,
            tx_hash,
        },
    )
}

/// Decodes a log as an ERC-20 transfer of a watched token. The log must be
/// emitted by a watched contract, carry the topic of
/// `Transfer(address,address,uint256)` and two more topics, and at least 32
/// bytes of data; any other log gives nothing.
pub fn decode_transfer_log(log: &RawLog, watched_tokens: &WatchedTokens) -> (decoded: Option<
    DecodedTransfer,
>)
    ensures
        decoded_view(decoded) == transfer_of_log(
            log@,
            watched_tokens@,
            topic_of(TRANSFER_SIGNATURE@),
        ),
{
    let topic0 = event_topic(TRANSFER_SIGNATURE);
    decode_transfer_with_topic(log, watched_tokens, topic0.as_slice())
}

} // verus!
