use chainwatch_indexer::amount::Amount;
use chainwatch_indexer::indexer::types::StablecoinTransfer;
use chainwatch_indexer::wallet::first_seen::{KnownWallet, NewWalletEvent, WalletTracker};

fn transfer(chain_id: i64, from: u8, to: u8, time: i64, tx: u8) -> StablecoinTransfer {
    StablecoinTransfer {
        chain_id,
        block_number: time / 12,
        block_hash: vec![0xbb; 32],
        tx_hash: vec![tx; 32],
        log_index: 0,
        token_address: vec![0xcc; 20],
        from_address: vec![from; 20],
        to_address: vec![to; 20],
        amount: Amount::from_u64(1),
        token_symbol: "USDC".to_string(),
        token_decimals: 6,
        block_timestamp: time,
    }
}

fn brief(events: &[NewWalletEvent]) -> Vec<(u8, i64, String, i64, u8)> {
    events
        .iter()
        .map(|e| (e.address[0], e.chain_id, e.direction.clone(), e.first_seen_at, e.first_tx_hash[0]))
        .collect()
}

#[test]
fn both_sides_of_a_transfer_may_be_new() {
    let mut tracker = WalletTracker::new();
    let events = tracker.process_transfers(&[transfer(1, 10, 20, 1200, 7)]);
    assert_eq!(
        brief(&events),
        [(10, 1, "from".to_string(), 1200, 7), (20, 1, "to".to_string(), 1200, 7)]
    );
    assert_eq!(events[0].first_block, 100);
    assert_eq!(events[0].address, vec![10; 20]);
    assert!(tracker.contains(&[10; 20], 1) && tracker.contains(&[20; 20], 1));
    assert!(!tracker.contains(&[10; 20], 2));
    assert_eq!(tracker.len(), 2);
}

#[test]
fn a_wallet_is_new_once_per_chain() {
    let mut tracker = WalletTracker::new();
    let batch = [
        transfer(1, 10, 20, 100, 1),
        transfer(1, 20, 10, 200, 2),
        transfer(1, 30, 10, 300, 3),
        transfer(2, 10, 30, 400, 4),
        transfer(2, 40, 40, 500, 5),
    ];
    let events = tracker.process_transfers(&batch);
    assert_eq!(
        brief(&events),
        [
            (10, 1, "from".to_string(), 100, 1),
            (20, 1, "to".to_string(), 100, 1),
            (30, 1, "from".to_string(), 300, 3),
            (10, 2, "from".to_string(), 400, 4),
            (30, 2, "to".to_string(), 400, 4),
            (40, 2, "from".to_string(), 500, 5),
        ]
    );
    assert!(tracker.process_transfers(&batch).is_empty());
    assert!(tracker.process_transfers(&[]).is_empty());
}

#[test]
fn first_sighting_is_the_earliest_in_a_time_ordered_batch() {
    let mut tracker = WalletTracker::new();
    let batch = [
        transfer(1, 1, 2, 100, 1),
        transfer(1, 3, 1, 150, 2),
        transfer(1, 2, 3, 150, 3),
        transfer(1, 4, 1, 900, 4),
    ];
    let events = tracker.process_transfers(&batch);
    for e in &events {
        for t in &batch {
            if t.chain_id == e.chain_id && (t.from_address == e.address || t.to_address == e.address) {
                assert!(e.first_seen_at <= t.block_timestamp);
            }
        }
    }
    assert_eq!(events.len(), 4);
}

#[test]
fn stored_rows_are_known_from_the_start() {
    let mut tracker = WalletTracker::from_rows(vec![
        KnownWallet { address: vec![10; 20], chain_id: 1 },
        KnownWallet { address: vec![20; 20], chain_id: 2 },
    ]);
    let events = tracker.process_transfers(&[transfer(1, 10, 20, 100, 1)]);
    assert_eq!(brief(&events), [(20, 1, "to".to_string(), 100, 1)]);
}
