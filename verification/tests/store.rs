use chainwatch_indexer::amount::Amount;
use chainwatch_indexer::db::repository::MemoryStore;
use chainwatch_indexer::graph::cluster::{recluster, WalletPair};
use chainwatch_indexer::graph::tracker::update_edges;
use chainwatch_indexer::indexer::chain::{find_fork_point, process_new_block, BlockAction};
use chainwatch_indexer::indexer::decoder::event_topic;
use chainwatch_indexer::indexer::defi_decoder::{decode_defi_logs, DefiEvent, COMET_SUPPLY};
use chainwatch_indexer::indexer::types::{RawLog, StablecoinTransfer};
use chainwatch_indexer::wallet::first_seen::NewWalletEvent;

fn transfer(chain_id: i64, block: i64, tx: u8, index: i32) -> StablecoinTransfer {
    StablecoinTransfer {
        chain_id,
        block_number: block,
        block_hash: vec![block as u8; 32],
        tx_hash: vec![tx; 32],
        log_index: index,
        token_address: vec![0xcc; 20],
        from_address: vec![tx; 20],
        to_address: vec![tx + 1; 20],
        amount: Amount::from_u64(1_000_000),
        token_symbol: "USDC".to_string(),
        token_decimals: 6,
        block_timestamp: block * 12,
    }
}

fn event(chain_id: i64, block: u64, tx: u8, index: u64) -> DefiEvent {
    let mut word = vec![0u8; 32];
    word[31] = 9;
    let log = RawLog {
        address: vec![0xcc; 20],
        topics: vec![event_topic(COMET_SUPPLY), vec![1; 32], vec![2; 32]],
        data: word,
        block_number: Some(block),
        block_hash: None,
        transaction_hash: Some(vec![tx; 32]),
        log_index: Some(index),
    };
    decode_defi_logs(&[log], block as i64 * 12, chain_id).pop().unwrap()
}

fn keys(store: &MemoryStore) -> Vec<(i64, u8, i32)> {
    store.transfers.iter().map(|t| (t.chain_id, t.tx_hash[0], t.log_index)).collect()
}

#[test]
fn natural_key_of_a_transfer_is_unique() {
    let mut store = MemoryStore::new();
    let batch = vec![
        transfer(1, 10, 1, 0),
        transfer(1, 10, 1, 1),
        transfer(1, 10, 1, 0),
        transfer(2, 10, 1, 0),
        transfer(1, 11, 2, 0),
    ];
    assert_eq!(store.insert_transfers_batch(&batch), 4);
    assert_eq!(keys(&store), [(1, 1, 0), (1, 1, 1), (2, 1, 0), (1, 2, 0)]);
    let mut seen = std::collections::HashSet::new();
    assert!(keys(&store).into_iter().all(|k| seen.insert(k)));
    assert!(store.has_transfer(1, &[1; 32], 1));
    assert!(!store.has_transfer(1, &[1; 32], 2));
    assert_eq!(store.transfers[0].block_number, 10);
}

#[test]
fn persisting_the_same_batch_twice_inserts_nothing_the_second_time() {
    let mut store = MemoryStore::new();
    let batch = vec![transfer(1, 10, 1, 0), transfer(1, 10, 1, 1), transfer(1, 11, 2, 0)];
    assert_eq!(store.insert_transfers_batch(&batch), 3);
    let before = format!("{:?}", store);
    assert_eq!(store.insert_transfers_batch(&batch), 0);
    assert_eq!(format!("{:?}", store), before);
    let events = vec![event(1, 10, 1, 0), event(1, 10, 1, 1)];
    assert_eq!(store.insert_defi_events_batch(&events), 2);
    let before = format!("{:?}", store);
    assert_eq!(store.insert_defi_events_batch(&events), 0);
    assert_eq!(format!("{:?}", store), before);
    assert!(store.has_defi_event(1, &[1; 32], 1) && !store.has_defi_event(2, &[1; 32], 1));
}

#[test]
fn replaying_a_block_range_leaves_the_store_identical() {
    let mut store = MemoryStore::new();
    let run = |store: &mut MemoryStore| {
        for block in 100u64..104 {
            let transfers = vec![
                transfer(1, block as i64, block as u8, 0),
                transfer(1, block as i64, block as u8, 1),
            ];
            let events = vec![event(1, block, block as u8, 5)];
            store.index_block(
                &transfers,
                &events,
                1,
                block,
                &[block as u8; 32],
                &[block as u8 - 1; 32],
                Some(block - 2),
            );
        }
    };
    run(&mut store);
    let first = format!("{:?}", store);
    assert_eq!(store.transfers.len(), 8);
    assert_eq!(store.defi_events.len(), 4);
    assert_eq!(store.stored_blocks(1), [101, 102, 103]);
    assert_eq!(store.get_last_indexed_block(1), Some(103));
    store.index_block(
        &[transfer(1, 103, 103, 0)],
        &[event(1, 103, 103, 5)],
        1,
        103,
        &[103; 32],
        &[102; 32],
        Some(101),
    );
    assert_eq!(format!("{:?}", store), first);
}

#[test]
fn rollback_leaves_nothing_at_or_above_the_fork_block() {
    let mut store = MemoryStore::new();
    for block in 98u64..=100 {
        store.index_block(
            &[transfer(1, block as i64, block as u8, 0)],
            &[event(1, block, block as u8, 1)],
            1,
            block,
            &[0xaa; 32],
            &[0xa9; 32],
            None,
        );
        store.index_block(&[transfer(2, block as i64, block as u8, 0)], &[], 2, block, &[1; 32], &[0; 32], None);
    }
    assert_eq!(store.get_block_hash(1, 100), Some(vec![0xaa; 32]));
    let stored = store.stored_blocks(1);
    let action = process_new_block(
        101,
        &[0xbb; 32],
        store.get_block_hash(1, 100).as_deref(),
        &stored,
        store.get_last_indexed_block(1),
        1,
    );
    assert_eq!(action, BlockAction::Rollback { fork_block: 100, checkpoint: Some(99) });
    store.rollback(1, 100);
    assert!(store.transfers.iter().all(|t| !(t.chain_id == 1 && t.block_number >= 100)));
    assert!(store.defi_events.iter().all(|e| !(e.chain_id == 1 && e.block_number >= 100)));
    assert!(store.block_hashes.iter().all(|b| !(b.chain_id == 1 && b.block_number >= 100)));
    assert_eq!(store.get_last_indexed_block(1), Some(99));
    assert_eq!(store.get_block_hash(1, 100), None);
    assert_eq!(store.get_block_hash(1, 99), Some(vec![0xaa; 32]));
    assert_eq!(keys(&store), [(1, 98, 0), (2, 98, 0), (1, 99, 0), (2, 99, 0), (2, 100, 0)]);
    assert_eq!(store.defi_events.len(), 2);
    assert_eq!(store.get_last_indexed_block(2), Some(100));
    assert_eq!(store.stored_blocks(2), [98, 99, 100]);
    let after = format!("{:?}", store);
    store.rollback(1, 100);
    assert_eq!(format!("{:?}", store), after);
    store.rollback(2, 0);
    assert_eq!(store.get_last_indexed_block(2), None);
    assert!(store.transfers.iter().all(|t| t.chain_id == 1));
    store.rollback(3, 5);
    assert_eq!(store.get_last_indexed_block(1), Some(99));
}

#[test]
fn rollback_reaches_back_over_the_whole_stored_run() {
    let mut store = MemoryStore::new();
    for block in 90u64..=100 {
        store.index_block(&[], &[], 1, block, &[block as u8; 32], &[0; 32], None);
    }
    let stored = store.stored_blocks(1);
    assert_eq!(find_fork_point(&stored, 101, 64), 90);
    assert_eq!(find_fork_point(&stored, 101, 4), 97);
    store.delete_block_hashes_from(1, 97);
    assert_eq!(store.stored_blocks(1), [90, 91, 92, 93, 94, 95, 96]);
    store.prune_block_hashes(1, 95);
    assert_eq!(store.stored_blocks(1), [95, 96]);
    assert_eq!(store.delete_transfers_from_block(1, 0), 0);
    assert_eq!(store.delete_defi_events_from_block(1, 0), 0);
}

#[test]
fn block_hashes_and_checkpoints_are_upserted() {
    let mut store = MemoryStore::new();
    store.upsert_block_hash(1, 5, &[1; 32], &[0; 32]);
    store.upsert_block_hash(2, 5, &[2; 32], &[0; 32]);
    store.upsert_block_hash(1, 5, &[3; 32], &[9; 32]);
    assert_eq!(store.block_hashes.len(), 2);
    assert_eq!(store.get_block_hash(1, 5), Some(vec![3; 32]));
    assert_eq!(store.block_hashes[0].parent_hash, vec![9; 32]);
    assert_eq!(store.get_block_hash(2, 5), Some(vec![2; 32]));
    assert_eq!(store.get_block_hash(1, 6), None);
    assert_eq!(store.get_last_indexed_block(1), None);
    store.upsert_indexer_state(1, 7, None);
    store.upsert_indexer_state(1, 8, Some(&[8; 32]));
    assert_eq!(store.indexer_state.len(), 1);
    assert_eq!(store.get_last_indexed_block(1), Some(8));
    assert_eq!(store.indexer_state[0].last_block_hash, Some(vec![8; 32]));
}

fn edge_transfer(from: u8, to: u8, amount: u64, time: i64) -> StablecoinTransfer {
    let mut t = transfer(1, time / 12, from, 0);
    t.from_address = vec![from; 20];
    t.to_address = vec![to; 20];
    t.amount = Amount::from_u64(amount);
    t.block_timestamp = time;
    t
}

#[test]
fn stored_edges_account_for_all_batches() {
    let mut store = MemoryStore::new();
    let first = vec![edge_transfer(1, 2, 10, 100), edge_transfer(1, 2, 5, 90), edge_transfer(3, 4, 7, 95)];
    let second = vec![edge_transfer(1, 2, 1, 200), edge_transfer(4, 3, 2, 210), edge_transfer(1, 2, 4, 180)];
    assert_eq!(store.update_edges(&update_edges(&first)), Some(2));
    assert_eq!(store.update_edges(&update_edges(&second)), Some(2));
    let got: Vec<_> = store
        .graph_edges
        .iter()
        .map(|e| {
            (
                e.source_address[0],
                e.dest_address[0],
                e.transfer_count,
                e.total_amount.to_decimal(),
                e.first_seen,
                e.last_seen,
            )
        })
        .collect();
    assert_eq!(
        got,
        [
            (1, 2, 4, "20".to_string(), 90, 200),
            (3, 4, 1, "7".to_string(), 95, 95),
            (4, 3, 1, "2".to_string(), 210, 210),
        ]
    );
    let all: Vec<_> = first.iter().chain(second.iter()).collect();
    for e in &store.graph_edges {
        let along: Vec<_> = all
            .iter()
            .filter(|t| t.from_address == e.source_address && t.to_address == e.dest_address)
            .collect();
        assert_eq!(e.transfer_count as usize, along.len());
        assert!(along.iter().all(|t| e.first_seen <= t.block_timestamp));
        assert!(along.iter().all(|t| e.last_seen >= t.block_timestamp));
    }
}

#[test]
fn the_first_time_of_a_stored_edge_is_never_overwritten() {
    let mut store = MemoryStore::new();
    store.update_edges(&update_edges(&[edge_transfer(1, 2, 10, 100)]));
    store.update_edges(&update_edges(&[edge_transfer(1, 2, 10, 50), edge_transfer(1, 2, 10, 70)]));
    assert_eq!(store.graph_edges.len(), 1);
    assert_eq!(store.graph_edges[0].first_seen, 100);
    assert_eq!(store.graph_edges[0].last_seen, 100);
    assert_eq!(store.graph_edges[0].transfer_count, 3);
}

#[test]
fn edge_counts_that_do_not_fit_leave_the_store_unchanged() {
    let mut store = MemoryStore::new();
    let mut edges = update_edges(&[edge_transfer(1, 2, 10, 100), edge_transfer(3, 4, 1, 100)]);
    edges[0].transfer_count = u64::MAX;
    assert_eq!(store.update_edges(&edges), Some(2));
    let before = format!("{:?}", store);
    let more = update_edges(&[edge_transfer(3, 4, 1, 100), edge_transfer(1, 2, 10, 100)]);
    assert_eq!(store.update_edges(&more), None);
    assert_eq!(format!("{:?}", store), before);
}

#[test]
fn sender_activity_is_counted_within_the_window() {
    let mut store = MemoryStore::new();
    let mut rows = vec![];
    for (i, (chain, from, to, time)) in
        [(1, 7, 8, 1000), (1, 7, 9, 1500), (1, 8, 7, 1600), (2, 7, 8, 1700), (3, 9, 7, 1800), (1, 7, 8, 2000)]
            .into_iter()
            .enumerate()
    {
        let mut t = edge_transfer(from, to, 1, time);
        t.chain_id = chain;
        t.tx_hash = vec![i as u8; 32];
        rows.push(t);
    }
    store.insert_transfers_batch(&rows);
    let now = &rows[5];
    assert_eq!(store.count_recent_transfers(now, 1000), 2);
    assert_eq!(store.count_recent_transfers(now, 1001), 3);
    assert_eq!(store.count_recent_transfers(now, 0), 0);
    assert_eq!(store.count_recent_transfers(now, u64::MAX), 3);
    assert_eq!(store.count_active_chains(now, 1000), 3);
    assert_eq!(store.count_active_chains(now, 250), 2);
    assert_eq!(store.count_active_chains(now, 1), 1);
    assert_eq!(store.count_active_chains(now, 0), 0);
}

fn pair(a: u8, b: u8) -> WalletPair {
    WalletPair { source: vec![a; 20], dest: vec![b; 20] }
}

#[test]
fn wallets_that_sent_to_each_other_share_a_cluster() {
    let pairs = vec![pair(1, 2), pair(2, 1), pair(3, 4), pair(5, 6), pair(4, 3), pair(6, 1), pair(7, 7)];
    let got: Vec<_> = recluster(&pairs).iter().map(|a| (a.address[0], a.cluster_id)).collect();
    assert_eq!(got, [(1, 1), (2, 1), (3, 2), (4, 2), (5, 1), (6, 1), (7, 3)]);
    assert!(recluster(&[]).is_empty());
    let got: Vec<_> = recluster(&[pair(9, 8)]).iter().map(|a| (a.address[0], a.cluster_id)).collect();
    assert_eq!(got, [(9, 1), (8, 1)]);
}

#[test]
fn a_first_sighting_is_written_once_and_never_changed() {
    let sighting = |address: u8, chain_id: i64, time: i64, direction: &str| NewWalletEvent {
        address: vec![address; 20],
        chain_id,
        first_seen_at: time,
        first_block: time / 12,
        first_tx_hash: vec![time as u8; 32],
        direction: direction.to_string(),
    };
    let mut store = MemoryStore::new();
    assert_eq!(store.upsert_first_seen(&[sighting(1, 1, 100, "from"), sighting(2, 1, 100, "to")]), 2);
    let before = format!("{:?}", store.wallet_first_seen);
    assert_eq!(
        store.upsert_first_seen(&[sighting(1, 1, 50, "to"), sighting(1, 2, 200, "to"), sighting(2, 1, 300, "from")]),
        1
    );
    assert!(format!("{:?}", store.wallet_first_seen).starts_with(&before[..before.len() - 1]));
    assert_eq!(store.wallet_first_seen[0].first_seen_at, 100);
    assert_eq!(store.wallet_first_seen[0].direction, "from");
    assert_eq!(store.wallet_first_seen.len(), 3);
    assert!(store.has_first_seen(&[1; 20], 2) && !store.has_first_seen(&[2; 20], 2));
}
