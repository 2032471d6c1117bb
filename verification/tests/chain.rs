use chainwatch_indexer::bytes::hex_to_bytes;
use chainwatch_indexer::config::{ChainConfig, TokenConfig};
use chainwatch_indexer::db::repository::{
    chunk_end, insert_chunks, EDGE_CHUNK_ROWS, INSERT_CHUNK_ROWS,
};
use chainwatch_indexer::indexer::chain::{
    backfill, backfill_fetches_receipts, batch_timestamp, block_time, blocks_needing_time,
    checks_parent, contains_block, detect_reorg, find_fork_point, live_fetches_receipts,
    live_index, process_new_block, prune_cutoff, retry_rpc, rollback_checkpoint, start_plan,
    unique_tx_hashes, BackfillCursor, BlockAction, BlockRange, BlockTime, PollCursor,
    RetryAction, RetryState, StartPlan,
};
use chainwatch_indexer::indexer::decoder::{event_topic, TRANSFER_SIGNATURE};
use chainwatch_indexer::indexer::types::{to_i32, to_i64, BlockInfo, RawLog};
use chainwatch_indexer::tokens::registry::{address_from_text, build_watched_tokens, WatchedTokens};

const USDC: &str = "0xA0b86991c6218b36c1d19D4a2e9Eb0cE3606eB48";

fn watched() -> WatchedTokens {
    build_watched_tokens(&ChainConfig {
        name: "ethereum".to_string(),
        chain_id: 1,
        rpc_http: "http://localhost:8545".to_string(),
        rpc_ws: None,
        start_block: None,
        batch_size: 100,
        poll_interval_ms: 2000,
        max_reorg_depth: 64,
        tokens: vec![TokenConfig {
            symbol: "USDC".to_string(),
            address: USDC.to_string(),
            decimals: 6,
        }],
        decode_defi: true,
    })
}

fn word(last: &[u8]) -> Vec<u8> {
    let mut w = vec![0u8; 32 - last.len()];
    w.extend_from_slice(last);
    w
}

fn transfer_log(block: Option<u64>, tx: u8, index: u64) -> RawLog {
    RawLog {
        address: hex_to_bytes(USDC).unwrap(),
        topics: vec![event_topic(TRANSFER_SIGNATURE), word(&[1]), word(&[2])],
        data: word(&[0x1e, 0x84, 0x80]),
        block_number: block,
        block_hash: block.map(|b| vec![b as u8; 32]),
        transaction_hash: Some(vec![tx; 32]),
        log_index: Some(index),
    }
}

fn other_log(block: u64) -> RawLog {
    let mut l = transfer_log(Some(block), 9, 0);
    l.address = vec![0x22; 20];
    l
}

#[test]
fn reorg_scenario() {
    // Stored: block 100 with hash 0xAA. The node reports block 101 whose
    // parent hash is 0xBB.
    let stored_hash = vec![0xaa; 32];
    let parent_hash = vec![0xbb; 32];
    assert!(checks_parent(101));
    let action = process_new_block(101, &parent_hash, Some(&stored_hash), &[100], Some(100), 64);
    assert_eq!(action, BlockAction::Rollback { fork_block: 100, checkpoint: Some(99) });
    let mut cursor = PollCursor { last_block: 100 };
    cursor.advance(101, action);
    assert_eq!(cursor.last_block, 99);
    assert_eq!(cursor.pending(101), Some(BlockRange { from: 100, to: 101 }));
}

#[test]
fn matching_parent_is_indexed() {
    let hash = vec![0xaa; 32];
    let action = process_new_block(101, &hash, Some(&hash), &[100], Some(100), 64);
    assert_eq!(action, BlockAction::Index { prune_below: Some(37) });
    let action = process_new_block(50, &hash, None, &[], Some(49), 64);
    assert_eq!(action, BlockAction::Index { prune_below: None });
    let action = process_new_block(0, &hash, Some(&[0xbb; 32]), &[], None, 64);
    assert_eq!(action, BlockAction::Index { prune_below: None });
    let mut cursor = PollCursor { last_block: 100 };
    cursor.advance(101, BlockAction::Index { prune_below: None });
    assert_eq!(cursor.last_block, 101);
    assert_eq!(cursor.pending(101), None);
    assert_eq!(cursor.pending(100), None);
    assert_eq!(cursor.pending(103), Some(BlockRange { from: 102, to: 103 }));
}

#[test]
fn reorg_detection() {
    assert!(detect_reorg(101, Some(&[0xaa; 32]), &[0xbb; 32]));
    assert!(!detect_reorg(101, Some(&[0xaa; 32]), &[0xaa; 32]));
    assert!(!detect_reorg(101, None, &[0xbb; 32]));
    assert!(!detect_reorg(0, Some(&[0xaa; 32]), &[0xbb; 32]));
    assert!(!checks_parent(0));
}

#[test]
fn fork_point_is_the_start_of_the_stored_run() {
    assert_eq!(find_fork_point(&[100], 101, 64), 100);
    assert_eq!(find_fork_point(&[98, 99, 100], 101, 64), 98);
    assert_eq!(find_fork_point(&[90, 98, 99, 100], 101, 64), 98);
    assert_eq!(find_fork_point(&[100, 99, 98, 97], 101, 2), 99);
    assert_eq!(find_fork_point(&[0, 1, 2], 3, 64), 0);
    assert_eq!(find_fork_point(&[], 101, 64), 101);
    assert_eq!(find_fork_point(&[5], 0, 64), 0);
    assert_eq!(find_fork_point(&[100], 101, 0), 101);
    let all: Vec<u64> = (0..200).collect();
    assert_eq!(find_fork_point(&all, 150, 64), 86);
    assert!(contains_block(&all, 199) && !contains_block(&all, 200));
}

#[test]
fn checkpoint_never_passes_the_block_before_the_fork() {
    assert_eq!(rollback_checkpoint(Some(100), 100), Some(99));
    assert_eq!(rollback_checkpoint(Some(150), 100), Some(99));
    assert_eq!(rollback_checkpoint(Some(99), 100), Some(99));
    assert_eq!(rollback_checkpoint(Some(42), 100), Some(42));
    assert_eq!(rollback_checkpoint(Some(5), 0), None);
    assert_eq!(rollback_checkpoint(None, 100), None);
    assert_eq!(prune_cutoff(101, 64), Some(37));
    assert_eq!(prune_cutoff(64, 64), None);
    assert_eq!(prune_cutoff(65, 64), Some(1));
}

#[test]
fn retry_backs_off_from_half_a_second_and_gives_up_after_five() {
    let mut state = RetryState::new();
    let mut waits = vec![];
    loop {
        match retry_rpc(&mut state, true) {
            RetryAction::Sleep { delay_ms } => waits.push(delay_ms),
            RetryAction::GiveUp => break,
            RetryAction::Done => unreachable!(),
        }
    }
    assert_eq!(waits, [500, 1000, 2000, 4000, 8000]);
    assert_eq!(state.failures, 5);
    let mut state = RetryState::new();
    assert_eq!(retry_rpc(&mut state, true), RetryAction::Sleep { delay_ms: 500 });
    assert_eq!(retry_rpc(&mut state, false), RetryAction::Done);
    assert_eq!(state, RetryState { failures: 1, delay_ms: 1000 });
}

#[test]
fn start_plan_prefers_the_checkpoint() {
    assert_eq!(start_plan(0, Some(5), Some(1)), StartPlan::NothingToWatch);
    assert_eq!(start_plan(2, Some(5), Some(1)), StartPlan::Backfill { start: 6 });
    assert_eq!(start_plan(2, None, Some(1)), StartPlan::Backfill { start: 1 });
    assert_eq!(start_plan(2, None, None), StartPlan::LiveOnly);
    assert_eq!(start_plan(1, Some(u64::MAX), None), StartPlan::Backfill { start: u64::MAX });
}

fn ranges(start: u64, tip: u64, batch: u64) -> Vec<(u64, u64)> {
    let mut cursor = BackfillCursor::new(start, tip, batch);
    let mut out = vec![];
    while let Some(r) = cursor.next_range() {
        out.push((r.from, r.to));
    }
    assert_eq!(cursor.next_range(), None);
    out
}

#[test]
fn backfill_ranges_cover_up_to_the_tip() {
    assert_eq!(ranges(1, 250, 100), [(1, 100), (101, 200), (201, 250)]);
    assert_eq!(ranges(0, 199, 100), [(0, 99), (100, 199)]);
    assert_eq!(ranges(7, 7, 100), [(7, 7)]);
    assert_eq!(ranges(8, 7, 100), []);
    assert_eq!(ranges(5, 7, 0), [(5, 5), (6, 6), (7, 7)]);
    assert_eq!(ranges(5, 7, 1), [(5, 5), (6, 6), (7, 7)]);
    assert_eq!(ranges(u64::MAX - 1, u64::MAX, 100), [(u64::MAX - 1, u64::MAX)]);
    assert_eq!(ranges(0, u64::MAX, u64::MAX), [(0, u64::MAX - 1), (u64::MAX, u64::MAX)]);
}

#[test]
fn receipts_are_fetched_within_the_cap() {
    assert!(backfill_fetches_receipts(true, 5, 100));
    assert!(!backfill_fetches_receipts(true, 500, 101));
    assert!(!backfill_fetches_receipts(true, 0, 0));
    assert!(!backfill_fetches_receipts(false, 5, 5));
    assert!(live_fetches_receipts(true, 500));
    assert!(!live_fetches_receipts(true, 0));
    assert!(!live_fetches_receipts(false, 5));
}

#[test]
fn backfill_places_transfers_in_their_blocks() {
    let logs = vec![
        transfer_log(Some(10), 1, 0),
        other_log(10),
        transfer_log(Some(11), 2, 3),
        transfer_log(None, 3, 1),
        transfer_log(Some(10), 1, 4),
    ];
    assert_eq!(blocks_needing_time(&logs), [10, 11]);
    let times = [
        BlockTime { block_number: 10, timestamp: 1000 },
        BlockTime { block_number: 11, timestamp: 1012 },
        BlockTime { block_number: 10, timestamp: 5 },
    ];
    assert_eq!(block_time(&times, 10), 1000);
    assert_eq!(block_time(&times, 12), 0);
    assert_eq!(batch_timestamp(&times), 1000);
    assert_eq!(batch_timestamp(&[]), 0);
    let transfers = backfill(&logs, &watched(), 1, &times);
    assert_eq!(transfers.len(), 4);
    let t = &transfers[1];
    assert_eq!(t.chain_id, 1);
    assert_eq!(t.block_number, 11);
    assert_eq!(t.block_hash, vec![11u8; 32]);
    assert_eq!(t.tx_hash, vec![2u8; 32]);
    assert_eq!(t.log_index, 3);
    assert_eq!(t.token_address, address_from_text(USDC).unwrap());
    assert_eq!(t.from_address, address_from_text("0x0000000000000000000000000000000000000001").unwrap());
    assert_eq!(t.to_address, address_from_text("0000000000000000000000000000000000000002").unwrap());
    assert_eq!(t.amount.to_decimal(), "2000000");
    assert_eq!(t.token_symbol, "USDC");
    assert_eq!(t.token_decimals, 6);
    assert_eq!(t.block_timestamp, 1012);
    assert_eq!(transfers[2].block_number, 0);
    assert_eq!(transfers[2].block_hash, vec![0u8; 32]);
    assert_eq!(transfers[2].block_timestamp, 0);
    assert_eq!(transfers[3].block_timestamp, 1000);
    assert_eq!(unique_tx_hashes(&transfers), [vec![1u8; 32], vec![2u8; 32], vec![3u8; 32]]);
    assert!(unique_tx_hashes(&[]).is_empty());
}

#[test]
fn live_block_places_transfers_by_the_header() {
    let header = BlockInfo {
        chain_id: 137,
        block_number: 500,
        block_hash: vec![0xab; 32],
        parent_hash: vec![0xaa; 32],
        timestamp: 1_700_000_000,
    };
    let logs = vec![other_log(500), transfer_log(Some(1), 7, 2)];
    let transfers = live_index(&logs, &watched(), &header);
    assert_eq!(transfers.len(), 1);
    assert_eq!(transfers[0].chain_id, 137);
    assert_eq!(transfers[0].block_number, 500);
    assert_eq!(transfers[0].block_hash, vec![0xab; 32]);
    assert_eq!(transfers[0].block_timestamp, 1_700_000_000);
    assert_eq!(transfers[0].tx_hash, vec![7u8; 32]);
    assert_eq!(transfers[0].log_index, 2);
}

#[test]
fn wide_numbers_are_capped() {
    assert_eq!(to_i64(5), 5);
    assert_eq!(to_i64(u64::MAX), i64::MAX);
    assert_eq!(to_i32(7), 7);
    assert_eq!(to_i32(1 << 40), i32::MAX);
}

#[test]
fn addresses_parse_as_forty_hex_digits() {
    assert_eq!(address_from_text(USDC), hex_to_bytes(USDC).ok());
    assert_eq!(address_from_text(&USDC.to_lowercase()), hex_to_bytes(USDC).ok());
    assert_eq!(address_from_text(&USDC.replace("0x", "0X")), hex_to_bytes(USDC).ok());
    assert_eq!(address_from_text(&USDC[2..]), hex_to_bytes(USDC).ok());
    assert_eq!(address_from_text("0x1234"), None);
    assert_eq!(address_from_text(&format!("{}00", USDC)), None);
    assert_eq!(address_from_text(&format!("0x{}", "g".repeat(40))), None);
    assert_eq!(address_from_text(""), None);
}

#[test]
fn inserts_are_chunked() {
    assert_eq!(INSERT_CHUNK_ROWS, 1000);
    assert_eq!(EDGE_CHUNK_ROWS, 500);
    assert_eq!(insert_chunks(2500, 1000), [(0, 1000), (1000, 2000), (2000, 2500)]);
    assert_eq!(insert_chunks(1000, 500), [(0, 500), (500, 1000)]);
    assert_eq!(insert_chunks(3, 1000), [(0, 3)]);
    assert_eq!(insert_chunks(0, 1000), []);
    assert_eq!(insert_chunks(2, 0), [(0, 1), (1, 2)]);
    assert_eq!(chunk_end(1000, 2500, 1000), 2000);
    assert_eq!(chunk_end(2000, 2500, 1000), 2500);
}
