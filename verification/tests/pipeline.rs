use chainwatch_indexer::amount::Amount;
use chainwatch_indexer::anomaly::engine::SenderActivity;
use chainwatch_indexer::config::{AnomalyDetectionConfig, TokenThreshold};
use chainwatch_indexer::entity::label_store::EntityLabelStore;
use chainwatch_indexer::indexer::types::StablecoinTransfer;
use chainwatch_indexer::pipeline::{EnrichmentResult, TransferPipeline};
use chainwatch_indexer::wallet::first_seen::WalletTracker;

fn transfer(from: u8, to: u8, units: u64, tx: u8) -> StablecoinTransfer {
    StablecoinTransfer {
        chain_id: 1,
        block_number: 100,
        block_hash: vec![0xbb; 32],
        tx_hash: vec![tx; 32],
        log_index: 0,
        token_address: vec![0xcc; 20],
        from_address: vec![from; 20],
        to_address: vec![to; 20],
        amount: Amount::from_u64(units).times(&Amount::pow10(6)),
        token_symbol: "USDT".to_string(),
        token_decimals: 6,
        block_timestamp: 1_700_000_000,
    }
}

fn fresh() -> TransferPipeline {
    let mut labels = EntityLabelStore::new();
    labels.seed_label(1, &[9; 20], None, "Lazarus", "sanctioned", "ofac_sdn", 100);
    labels.seed_label(2, &[2; 20], Some(1), "Binance", "exchange", "seed_data", 100);
    let mut config = AnomalyDetectionConfig::default();
    config.large_transfer_thresholds =
        vec![TokenThreshold { symbol: "default".to_string(), units: 100_000 }];
    TransferPipeline::init(labels, WalletTracker::new(), config)
}

fn batch() -> Vec<StablecoinTransfer> {
    vec![transfer(1, 2, 50_000, 1), transfer(9, 3, 7, 2), transfer(1, 2, 123, 3)]
}

#[test]
fn enrichment_runs_all_steps_on_the_batch() {
    let mut pipeline = fresh();
    let activity = vec![SenderActivity { recent_transfers: 0, active_chains: 1 }; 3];
    let e = pipeline.enrich(&batch(), &activity);
    let wallets: Vec<_> = e.new_wallets.iter().map(|w| (w.address[0], w.direction.as_str())).collect();
    assert_eq!(wallets, [(1, "from"), (2, "to"), (9, "from"), (3, "to")]);
    let flags: Vec<_> = e
        .entity_flags
        .iter()
        .map(|f| (f.tx_hash[0], f.entity_label_id, f.side.as_str()))
        .collect();
    assert_eq!(flags, [(1, 2, "to"), (2, 1, "from"), (3, 2, "to")]);
    let edges: Vec<_> = e
        .edges
        .iter()
        .map(|g| (g.source_address[0], g.dest_address[0], g.transfer_count, g.total_amount.to_decimal()))
        .collect();
    assert_eq!(edges, [(1, 2, 2, "50123000000".to_string()), (9, 3, 1, "7000000".to_string())]);
    let anomalies: Vec<_> = e
        .anomalies
        .iter()
        .map(|a| (a.tx_hash[0], a.anomaly_type.as_str(), a.risk_score))
        .collect();
    assert_eq!(
        anomalies,
        [
            (1, "round_number", 30),
            (1, "new_wallet_large_receive", 60),
            (2, "sanctioned_counterparty", 95),
        ]
    );
    assert_eq!(
        e.result(3, 2),
        EnrichmentResult {
            entities_attributed: 3,
            new_wallets_found: 4,
            anomalies_detected: 3,
            graph_edges_updated: 2,
        }
    );
    assert_eq!(pipeline.wallet_tracker.len(), 4);
    assert_eq!(pipeline.entity_store.labels.len(), 2);
}

#[test]
fn enrichment_is_deterministic_against_fresh_state() {
    let activity = vec![SenderActivity { recent_transfers: 30, active_chains: 4 }; 3];
    let first = fresh().enrich(&batch(), &activity);
    let second = fresh().enrich(&batch(), &activity);
    assert_eq!(format!("{:?}", first), format!("{:?}", second));
    assert!(!first.anomalies.is_empty());
}

#[test]
fn a_second_run_finds_no_new_wallets() {
    let mut pipeline = fresh();
    let first = pipeline.enrich(&batch(), &[]);
    let second = pipeline.enrich(&batch(), &[]);
    assert_eq!(first.new_wallets.len(), 4);
    assert!(second.new_wallets.is_empty());
    assert_eq!(format!("{:?}", first.edges), format!("{:?}", second.edges));
    assert_eq!(format!("{:?}", first.entity_flags), format!("{:?}", second.entity_flags));
    assert!(second.anomalies.iter().all(|a| a.anomaly_type.as_str() != "new_wallet_large_receive"));
}

#[test]
fn an_empty_batch_gives_nothing() {
    let mut pipeline = fresh();
    let e = pipeline.enrich(&[], &[]);
    assert!(e.new_wallets.is_empty() && e.entity_flags.is_empty());
    assert!(e.edges.is_empty() && e.anomalies.is_empty());
    assert_eq!(e.result(0, 0), EnrichmentResult::default());
}
