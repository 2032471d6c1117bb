use chainwatch_indexer::amount::Amount;
use chainwatch_indexer::anomaly::engine::{AnomalyEngine, SenderActivity};
use chainwatch_indexer::anomaly::rules::{
    check_cross_chain_activity, check_large_transfer, check_new_wallet_large_receive,
    check_round_number, check_sanctioned_counterparty, check_velocity,
};
use chainwatch_indexer::anomaly::types::{AnomalyRecord, AnomalyType};
use chainwatch_indexer::config::{AnomalyDetectionConfig, TokenThreshold};
use chainwatch_indexer::entity::label_store::EntityLabelStore;
use chainwatch_indexer::fields::{Field, FieldValue};
use chainwatch_indexer::indexer::types::StablecoinTransfer;
use chainwatch_indexer::wallet::first_seen::{NewWalletEvent, WalletTracker};

fn transfer(symbol: &str, decimals: i16, raw: &str, from: u8, to: u8) -> StablecoinTransfer {
    let digits: Vec<u64> = raw.bytes().map(|b| (b - b'0') as u64).collect();
    let mut amount = Amount::zero();
    for d in digits {
        amount = amount.times(&Amount::from_u64(10)).plus(&Amount::from_u64(d));
    }
    StablecoinTransfer {
        chain_id: 1,
        block_number: 100,
        block_hash: vec![0xbb; 32],
        tx_hash: vec![from ^ to; 32],
        log_index: 3,
        token_address: vec![0xcc; 20],
        from_address: vec![from; 20],
        to_address: vec![to; 20],
        amount,
        token_symbol: symbol.to_string(),
        token_decimals: decimals,
        block_timestamp: 1_700_000_000,
    }
}

fn usdc(units: u64) -> StablecoinTransfer {
    transfer("USDC", 6, &format!("{}000000", units), 1, 2)
}

fn threshold(symbol: &str, units: u64) -> TokenThreshold {
    TokenThreshold { symbol: symbol.to_string(), units }
}

fn field(fields: &[Field], name: &str) -> String {
    for f in fields {
        if f.name == name {
            return match &f.value {
                FieldValue::Text(t) => t.clone(),
                FieldValue::Number(n) => n.to_decimal(),
                FieldValue::Flag(b) => b.to_string(),
            };
        }
    }
    panic!("no field {}", name)
}

fn names_the(record: &AnomalyRecord, t: &StablecoinTransfer) {
    assert_eq!(record.chain_id, t.chain_id);
    assert_eq!(record.tx_hash, t.tx_hash);
    assert_eq!(record.log_index, t.log_index);
    assert!(record.risk_score <= 100);
}

#[test]
fn large_transfer_scenario() {
    let t = transfer("USDC", 6, "500000000000", 1, 2);
    let r = check_large_transfer(&t, &[threshold("default", 100_000)]).unwrap();
    assert_eq!(r.anomaly_type, AnomalyType::LargeTransfer);
    assert_eq!(r.anomaly_type.as_str(), "large_transfer");
    assert_eq!(r.risk_score, 60);
    assert_eq!(r.flags, ["transfer_amount_500000_USDC_exceeds_100000"]);
    assert_eq!(field(&r.details, "amount"), "500000");
    assert_eq!(field(&r.details, "token"), "USDC");
    assert_eq!(field(&r.details, "threshold"), "100000");
    assert_eq!(r.address, None);
    names_the(&r, &t);
}

#[test]
fn large_transfer_risk_tiers_and_boundaries() {
    let th = [threshold("default", 100_000)];
    assert!(check_large_transfer(&transfer("USDC", 6, "99999999999", 1, 2), &th).is_none());
    assert_eq!(check_large_transfer(&usdc(100_000), &th).unwrap().risk_score, 40);
    assert_eq!(check_large_transfer(&usdc(499_999), &th).unwrap().risk_score, 40);
    assert_eq!(check_large_transfer(&usdc(500_000), &th).unwrap().risk_score, 60);
    assert_eq!(check_large_transfer(&usdc(999_999), &th).unwrap().risk_score, 60);
    assert_eq!(check_large_transfer(&usdc(1_000_000), &th).unwrap().risk_score, 80);
}

#[test]
fn large_transfer_threshold_lookup() {
    let th = [threshold("USDT", 50), threshold("default", 1_000), threshold("USDT", 9)];
    assert!(check_large_transfer(&transfer("USDT", 6, "50000000", 1, 2), &th).is_some());
    assert!(check_large_transfer(&transfer("USDT", 6, "49999999", 1, 2), &th).is_none());
    assert!(check_large_transfer(&usdc(999), &th).is_none());
    assert!(check_large_transfer(&usdc(1_000), &th).is_some());
    assert!(check_large_transfer(&usdc(99_999), &[]).is_none());
    assert!(check_large_transfer(&usdc(100_000), &[]).is_some());
    assert!(check_large_transfer(&usdc(100_000), &[threshold("DAI", 1)]).is_some());
    assert!(check_large_transfer(&usdc(0), &[threshold("USDC", 0)]).is_some());
}

#[test]
fn amounts_are_scaled_by_the_token_decimals() {
    let th = [threshold("default", 100)];
    assert!(check_large_transfer(&transfer("DAI", 18, "100000000000000000000", 1, 2), &th).is_some());
    assert!(check_large_transfer(&transfer("DAI", 18, "99999999999999999999", 1, 2), &th).is_none());
    assert!(check_large_transfer(&transfer("X", 0, "100", 1, 2), &th).is_some());
    assert!(check_large_transfer(&transfer("X", 0, "99", 1, 2), &th).is_none());
    let r = check_large_transfer(&transfer("DAI", 18, "123456789012345678901234", 1, 2), &th).unwrap();
    assert_eq!(r.flags, ["transfer_amount_123456_DAI_exceeds_100"]);
    assert!(check_large_transfer(&transfer("Y", 255, "1000000", 1, 2), &th).is_none());
}

#[test]
fn round_number_scenario() {
    let t = usdc(10_000);
    let r = check_round_number(&t, 10_000).unwrap();
    assert_eq!(r.anomaly_type, AnomalyType::RoundNumber);
    assert_eq!(r.anomaly_type.as_str(), "round_number");
    assert_eq!(r.risk_score, 30);
    assert_eq!(r.flags, ["round_amount_10000"]);
    assert_eq!(field(&r.details, "amount"), "10000");
    assert_eq!(field(&r.details, "nearest_round"), "10000");
    assert_eq!(field(&r.details, "token"), "USDC");
    assert_eq!(r.address, None);
    names_the(&r, &t);
}

#[test]
fn round_number_bases_and_tiers() {
    assert!(check_round_number(&usdc(999), 10_000).is_none());
    assert_eq!(check_round_number(&usdc(1_000), 10_000).unwrap().risk_score, 20);
    assert_eq!(check_round_number(&usdc(5_000), 10_000).unwrap().risk_score, 20);
    assert_eq!(check_round_number(&usdc(25_000), 10_000).unwrap().risk_score, 30);
    assert_eq!(check_round_number(&usdc(50_000), 10_000).unwrap().risk_score, 30);
    assert_eq!(check_round_number(&usdc(100_000), 10_000).unwrap().risk_score, 40);
    assert_eq!(check_round_number(&usdc(300_000), 10_000).unwrap().risk_score, 40);
    assert_eq!(
        field(&check_round_number(&usdc(5_010), 10_000).unwrap().details, "nearest_round"),
        "5000"
    );
    assert!(check_round_number(&usdc(1_500), 10_000).is_none());
    assert!(check_round_number(&usdc(12_000), 10_000).is_none());
    assert!(check_round_number(&usdc(110_000), 10_000).is_none());
}

#[test]
fn round_number_tolerance_is_strict_on_both_sides() {
    // 1% of the base 10,000 is 100 units.
    assert!(check_round_number(&usdc(10_099), 10_000).is_some());
    assert!(check_round_number(&usdc(10_100), 10_000).is_none());
    assert!(check_round_number(&usdc(19_900), 10_000).is_none());
    assert!(check_round_number(&usdc(19_901), 10_000).is_some());
    assert!(check_round_number(&transfer("USDC", 6, "10099999999", 1, 2), 10_000).is_some());
    assert!(check_round_number(&usdc(10_000), 0).is_none());
    assert!(check_round_number(&usdc(15_000), 1_000_000).is_some());
    assert!(check_round_number(&usdc(10_000), 1_000_000).is_some());
    assert!(check_round_number(&usdc(15_000), 1_000_001).is_some());
    assert!(check_round_number(&usdc(15_000), 500_000).is_none());
    assert!(check_round_number(&usdc(15_001), 500_000).is_some());
}

fn new_wallet(address: u8, chain_id: i64, direction: &str) -> NewWalletEvent {
    NewWalletEvent {
        address: vec![address; 20],
        chain_id,
        first_seen_at: 1_700_000_000,
        first_block: 100,
        first_tx_hash: vec![0; 32],
        direction: direction.to_string(),
    }
}

#[test]
fn new_wallet_large_receive_scenario() {
    // 50,000 USDT into a wallet that the batch shows for the first time.
    let t = transfer("USDT", 6, "50000000000", 1, 0x58);
    let mut tracker = WalletTracker::new();
    let events = tracker.process_transfers(std::slice::from_ref(&t));
    let r = check_new_wallet_large_receive(&t, &events, 10_000).unwrap();
    assert_eq!(r.anomaly_type, AnomalyType::NewWalletLargeReceive);
    assert_eq!(r.anomaly_type.as_str(), "new_wallet_large_receive");
    assert_eq!(r.risk_score, 60);
    assert_eq!(r.flags, ["new_wallet_received_50000_USDT"]);
    assert_eq!(field(&r.details, "amount"), "50000");
    assert_eq!(field(&r.details, "token"), "USDT");
    assert_eq!(field(&r.details, "new_wallet"), "58".repeat(20));
    assert_eq!(r.address, Some(vec![0x58; 20]));
    names_the(&r, &t);
    let ten_times = transfer("USDT", 6, "100000000000", 1, 0x58);
    assert_eq!(check_new_wallet_large_receive(&ten_times, &events, 10_000).unwrap().risk_score, 80);
    let again = tracker.process_transfers(std::slice::from_ref(&t));
    assert!(check_new_wallet_large_receive(&t, &again, 10_000).is_none());
}

#[test]
fn new_wallet_rule_needs_a_new_receiver_and_the_threshold() {
    let t = transfer("USDT", 6, "10000000000", 1, 2);
    assert!(check_new_wallet_large_receive(&t, &[new_wallet(2, 1, "to")], 10_000).is_some());
    let below = transfer("USDT", 6, "9999999999", 1, 2);
    assert!(check_new_wallet_large_receive(&below, &[new_wallet(2, 1, "to")], 10_000).is_none());
    assert!(check_new_wallet_large_receive(&t, &[new_wallet(2, 1, "from")], 10_000).is_none());
    assert!(check_new_wallet_large_receive(&t, &[new_wallet(2, 5, "to")], 10_000).is_none());
    assert!(check_new_wallet_large_receive(&t, &[new_wallet(1, 1, "to")], 10_000).is_none());
    assert!(check_new_wallet_large_receive(&t, &[], 10_000).is_none());
    assert!(check_new_wallet_large_receive(
        &t,
        &[new_wallet(9, 1, "to"), new_wallet(2, 1, "to")],
        10_000
    )
    .is_some());
}

#[test]
fn velocity_scenario() {
    let t = usdc(1);
    let r = check_velocity(&t, 12, 1000, 10).unwrap();
    assert_eq!(r.anomaly_type, AnomalyType::Velocity);
    assert_eq!(r.anomaly_type.as_str(), "velocity");
    assert_eq!(r.risk_score, 50);
    assert_eq!(r.flags, ["velocity_12_transfers_in_1000_secs"]);
    assert_eq!(field(&r.details, "transfer_count"), "12");
    assert_eq!(field(&r.details, "window_secs"), "1000");
    assert_eq!(field(&r.details, "max_allowed"), "10");
    assert_eq!(r.address, Some(t.from_address.clone()));
    names_the(&r, &t);
    assert_eq!(check_velocity(&t, 60, 1000, 10).unwrap().risk_score, 70);
}

#[test]
fn velocity_boundaries() {
    let t = usdc(1);
    assert!(check_velocity(&t, 10, 3600, 10).is_none());
    assert_eq!(check_velocity(&t, 11, 3600, 10).unwrap().risk_score, 50);
    assert_eq!(check_velocity(&t, 50, 3600, 10).unwrap().risk_score, 50);
    assert_eq!(check_velocity(&t, 51, 3600, 10).unwrap().risk_score, 70);
    assert!(check_velocity(&t, 0, 3600, 0).is_none());
    assert_eq!(check_velocity(&t, 1, 3600, 0).unwrap().risk_score, 70);
    assert!(check_velocity(&t, u64::MAX, 3600, u32::MAX).is_some());
}

#[test]
fn cross_chain_activity_tiers() {
    let t = usdc(1);
    assert!(check_cross_chain_activity(&t, 2, 1800).is_none());
    let r = check_cross_chain_activity(&t, 3, 1800).unwrap();
    assert_eq!(r.anomaly_type, AnomalyType::CrossChainActivity);
    assert_eq!(r.anomaly_type.as_str(), "cross_chain_activity");
    assert_eq!(r.risk_score, 30);
    assert_eq!(r.flags, ["active_on_3_chains_in_1800_secs"]);
    assert_eq!(field(&r.details, "chain_count"), "3");
    assert_eq!(field(&r.details, "address"), "01".repeat(20));
    assert_eq!(r.address, Some(t.from_address.clone()));
    assert_eq!(check_cross_chain_activity(&t, 4, 1800).unwrap().risk_score, 30);
    assert_eq!(check_cross_chain_activity(&t, 5, 1800).unwrap().risk_score, 50);
}

fn store_with(address: u8, entity_type: &str, source: &str) -> EntityLabelStore {
    let mut store = EntityLabelStore::new();
    store.seed_label(1, &vec![address; 20], None, "Someone", entity_type, source, 100);
    store
}

#[test]
fn sanctioned_counterparty_reports_the_sender_first() {
    let t = usdc(1);
    let r = check_sanctioned_counterparty(&t, &store_with(1, "sanctioned", "manual")).unwrap();
    assert_eq!(r.anomaly_type, AnomalyType::SanctionedCounterparty);
    assert_eq!(r.anomaly_type.as_str(), "sanctioned_counterparty");
    assert_eq!(r.risk_score, 95);
    assert_eq!(r.flags, ["sanctioned_from_address"]);
    assert_eq!(field(&r.details, "side"), "from");
    assert_eq!(field(&r.details, "sanctioned_address"), "01".repeat(20));
    assert_eq!(r.address, Some(vec![1; 20]));
    let r = check_sanctioned_counterparty(&t, &store_with(2, "exchange", "ofac_sdn")).unwrap();
    assert_eq!(r.flags, ["sanctioned_to_address"]);
    assert_eq!(r.address, Some(vec![2; 20]));
    let mut both = store_with(2, "sanctioned", "x");
    both.seed_label(2, &vec![1; 20], Some(9), "Other", "sanctioned", "y", 100);
    let r = check_sanctioned_counterparty(&t, &both).unwrap();
    assert_eq!(r.flags, ["sanctioned_from_address"]);
    assert!(check_sanctioned_counterparty(&t, &store_with(1, "exchange", "seed_data")).is_none());
    assert!(check_sanctioned_counterparty(&t, &store_with(3, "sanctioned", "ofac_sdn")).is_none());
}

fn engine(enabled: bool) -> AnomalyEngine {
    let mut config = AnomalyDetectionConfig::default();
    config.enabled = enabled;
    config.large_transfer_thresholds = vec![threshold("default", 100_000)];
    AnomalyEngine::new(config)
}

fn kinds(records: &[AnomalyRecord]) -> Vec<&'static str> {
    records.iter().map(|r| r.anomaly_type.as_str()).collect()
}

#[test]
fn engine_runs_the_rules_in_order_on_every_transfer() {
    let big = transfer("USDC", 6, "500000000000", 1, 2);
    let small = transfer("USDC", 6, "1234000000", 3, 4);
    let batch = vec![big, small];
    let store = store_with(3, "sanctioned", "ofac_sdn");
    let activity = [
        SenderActivity { recent_transfers: 12, active_chains: 5 },
        SenderActivity { recent_transfers: 1, active_chains: 1 },
    ];
    let events = [new_wallet(2, 1, "to")];
    let records = engine(true).analyze_batch(&batch, &store, &events, &activity);
    assert_eq!(
        kinds(&records),
        [
            "large_transfer",
            "round_number",
            "new_wallet_large_receive",
            "velocity",
            "cross_chain_activity",
            "sanctioned_counterparty",
        ]
    );
    for r in &records[..5] {
        names_the(r, &batch[0]);
    }
    names_the(&records[5], &batch[1]);
    assert!(engine(false).analyze_batch(&batch, &store, &events, &activity).is_empty());
    assert!(engine(true).analyze_batch(&[], &store, &events, &activity).is_empty());
}

#[test]
fn engine_skips_store_rules_on_large_batches() {
    let store = EntityLabelStore::new();
    let busy = SenderActivity { recent_transfers: 1_000, active_chains: 9 };
    let batch = |n: usize| -> Vec<StablecoinTransfer> { (0..n).map(|_| usdc(1)).collect() };
    let e = engine(true);
    let records = e.analyze_batch(&batch(50), &store, &[], &vec![busy; 50]);
    assert_eq!(records.len(), 100);
    let records = e.analyze_batch(&batch(51), &store, &[], &vec![busy; 51]);
    assert_eq!(records.len(), 51);
    assert!(records.iter().all(|r| r.anomaly_type == AnomalyType::Velocity));
    let records = e.analyze_batch(&batch(100), &store, &[], &vec![busy; 100]);
    assert_eq!(records.len(), 100);
    assert!(e.analyze_batch(&batch(101), &store, &[], &vec![busy; 101]).is_empty());
    let records = e.analyze_batch(&batch(3), &store, &[], &[busy]);
    assert_eq!(kinds(&records), ["velocity", "cross_chain_activity"]);
    assert!(e.wants_velocity(100) && !e.wants_velocity(101));
    assert!(e.wants_cross_chain(50) && !e.wants_cross_chain(51));
    assert!(!engine(false).wants_velocity(1) && !engine(false).wants_cross_chain(1));
    let one = e.analyze_transfer(&usdc(1), &store, &[], 1, None);
    assert!(one.is_empty());
}
