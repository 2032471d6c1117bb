use chainwatch_indexer::bytes::{bytes_to_hex, hex_to_bytes, HexError};
use chainwatch_indexer::config::{ChainConfig, TokenConfig};
use chainwatch_indexer::indexer::decoder::{
    decode_transfer_log, decode_transfer_with_topic, event_topic, TRANSFER_SIGNATURE,
};
use chainwatch_indexer::indexer::types::RawLog;
use chainwatch_indexer::tokens::registry::build_watched_tokens;

const USDC: &str = "0xA0b86991c6218b36c1d19D4a2e9Eb0cE3606eB48";

fn chain(tokens: Vec<TokenConfig>) -> ChainConfig {
    ChainConfig {
        name: "ethereum".to_string(),
        chain_id: 1,
        rpc_http: "http://localhost:8545".to_string(),
        rpc_ws: None,
        start_block: None,
        batch_size: 100,
        poll_interval_ms: 2000,
        max_reorg_depth: 64,
        tokens,
        decode_defi: true,
    }
}

fn usdc() -> TokenConfig {
    TokenConfig { symbol: "USDC".to_string(), address: USDC.to_string(), decimals: 6 }
}

fn word(last: &[u8]) -> Vec<u8> {
    let mut w = vec![0u8; 32 - last.len()];
    w.extend_from_slice(last);
    w
}

fn transfer_log() -> RawLog {
    RawLog {
        address: hex_to_bytes(USDC).unwrap(),
        topics: vec![event_topic(TRANSFER_SIGNATURE), word(&[1]), word(&[2])],
        data: word(&[0x1e, 0x84, 0x80]),
        block_number: Some(100),
        block_hash: Some(vec![0xaa; 32]),
        transaction_hash: Some(vec![0x11; 32]),
        log_index: Some(7),
    }
}

#[test]
fn transfer_topic_is_the_known_digest() {
    assert_eq!(
        bytes_to_hex(&event_topic("Transfer(address,address,uint256)")),
        "0xddf252ad1be2c89b69c2b068fc378daa952ba7f163c4a11628f55a4df523b3ef"
    );
}

#[test]
fn decoder_match() {
    let watched = build_watched_tokens(&chain(vec![usdc()]));
    let decoded = decode_transfer_log(&transfer_log(), &watched).unwrap();
    assert_eq!(decoded.from, hex_to_bytes("0x0000000000000000000000000000000000000001").unwrap());
    assert_eq!(decoded.to, hex_to_bytes("0x0000000000000000000000000000000000000002").unwrap());
    assert_eq!(decoded.amount.to_decimal(), "2000000");
    assert_eq!(decoded.token_symbol, "USDC");
    assert_eq!(decoded.token_decimals, 6);
    assert_eq!(decoded.log_index, 7);
    assert_eq!(decoded.tx_hash, vec![0x11; 32]);
    assert_eq!(decoded.token_address, hex_to_bytes(USDC).unwrap());
}

#[test]
fn unwatched_contract_gives_nothing() {
    let watched = build_watched_tokens(&chain(vec![usdc()]));
    let mut log = transfer_log();
    log.address = vec![0x22; 20];
    assert!(decode_transfer_log(&log, &watched).is_none());
}

#[test]
fn other_topic_gives_nothing() {
    let watched = build_watched_tokens(&chain(vec![usdc()]));
    let mut log = transfer_log();
    log.topics[0] = vec![0x33; 32];
    assert!(decode_transfer_log(&log, &watched).is_none());
    assert!(decode_transfer_with_topic(&log, &watched, &[0x33; 32]).is_some());
}

#[test]
fn wrong_topic_count_gives_nothing() {
    let watched = build_watched_tokens(&chain(vec![usdc()]));
    let mut log = transfer_log();
    log.topics.push(word(&[3]));
    assert!(decode_transfer_log(&log, &watched).is_none());
    let mut log = transfer_log();
    log.topics.pop();
    assert!(decode_transfer_log(&log, &watched).is_none());
    let mut log = transfer_log();
    log.topics.clear();
    assert!(decode_transfer_log(&log, &watched).is_none());
}

#[test]
fn short_data_gives_nothing() {
    let watched = build_watched_tokens(&chain(vec![usdc()]));
    let mut log = transfer_log();
    log.data.truncate(31);
    assert!(decode_transfer_log(&log, &watched).is_none());
}

#[test]
fn missing_hash_and_index_default_to_zero() {
    let watched = build_watched_tokens(&chain(vec![usdc()]));
    let mut log = transfer_log();
    log.transaction_hash = None;
    log.log_index = None;
    let decoded = decode_transfer_log(&log, &watched).unwrap();
    assert_eq!(decoded.tx_hash, vec![0u8; 32]);
    assert_eq!(decoded.log_index, 0);
}

#[test]
fn registry_skips_bad_addresses_and_replaces_duplicates() {
    let bad = TokenConfig { symbol: "BAD".to_string(), address: "not-an-address".to_string(), decimals: 6 };
    let again = TokenConfig {
        symbol: "USDC2".to_string(),
        address: USDC.to_lowercase(),
        decimals: 18,
    };
    let watched = build_watched_tokens(&chain(vec![usdc(), bad, again]));
    assert_eq!(watched.len(), 1);
    let meta = watched.lookup(&hex_to_bytes(USDC).unwrap()).unwrap();
    assert_eq!(meta.symbol, "USDC2");
    assert_eq!(meta.decimals, 18);
    assert!(watched.lookup(&[0u8; 20]).is_none());
}

#[test]
fn hex_round_trip_and_errors() {
    assert_eq!(bytes_to_hex(&[0xde, 0xad, 0x01]), "0xdead01");
    assert_eq!(hex_to_bytes("0xDEad01"), Ok(vec![0xde, 0xad, 0x01]));
    assert_eq!(hex_to_bytes("dead01"), Ok(vec![0xde, 0xad, 0x01]));
    assert_eq!(hex_to_bytes("0x123"), Err(HexError::OddLength));
    assert_eq!(hex_to_bytes("0x66ag"), Err(HexError::InvalidCharacter { index: 3 }));
    assert_eq!(hex_to_bytes(""), Ok(vec![]));
}
