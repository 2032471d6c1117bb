use chainwatch_indexer::amount::Amount;
use chainwatch_indexer::graph::cluster::UnionFind;
use chainwatch_indexer::graph::tracker::{update_edges, AggregatedEdge};
use chainwatch_indexer::indexer::types::StablecoinTransfer;

fn transfer(chain_id: i64, from: u8, to: u8, amount: u64, time: i64) -> StablecoinTransfer {
    StablecoinTransfer {
        chain_id,
        block_number: 1,
        block_hash: vec![0xbb; 32],
        tx_hash: vec![1; 32],
        log_index: 0,
        token_address: vec![0xcc; 20],
        from_address: vec![from; 20],
        to_address: vec![to; 20],
        amount: Amount::from_u64(amount),
        token_symbol: "USDC".to_string(),
        token_decimals: 6,
        block_timestamp: time,
    }
}

fn brief(e: &AggregatedEdge) -> (u8, u8, i64, u64, String, i64, i64) {
    (
        e.source_address[0],
        e.dest_address[0],
        e.chain_id,
        e.transfer_count,
        e.total_amount.to_decimal(),
        e.first_seen,
        e.last_seen,
    )
}

#[test]
fn a_batch_folds_into_one_edge_per_source_dest_and_chain() {
    let batch = [
        transfer(1, 1, 2, 100, 50),
        transfer(1, 2, 1, 7, 60),
        transfer(1, 1, 2, 11, 40),
        transfer(2, 1, 2, 5, 70),
        transfer(1, 1, 2, u64::MAX, 90),
        transfer(1, 1, 3, 1, 10),
    ];
    let edges = update_edges(&batch);
    let got: Vec<_> = edges.iter().map(brief).collect();
    assert_eq!(
        got,
        [
            (1, 2, 1, 3, "18446744073709551726".to_string(), 40, 90),
            (2, 1, 1, 1, "7".to_string(), 60, 60),
            (1, 2, 2, 1, "5".to_string(), 70, 70),
            (1, 3, 1, 1, "1".to_string(), 10, 10),
        ]
    );
    for e in &edges {
        let along: Vec<_> = batch
            .iter()
            .filter(|t| {
                t.from_address == e.source_address
                    && t.to_address == e.dest_address
                    && t.chain_id == e.chain_id
            })
            .collect();
        assert_eq!(e.transfer_count as usize, along.len());
        assert_eq!(e.first_seen, along.iter().map(|t| t.block_timestamp).min().unwrap());
        assert_eq!(e.last_seen, along.iter().map(|t| t.block_timestamp).max().unwrap());
    }
    assert!(update_edges(&[]).is_empty());
}

#[test]
fn union_find_joins_sets() {
    let mut uf = UnionFind::new(6);
    for i in 0..6 {
        assert_eq!(uf.find(i), i);
    }
    uf.union(0, 1);
    uf.union(2, 3);
    assert_eq!(uf.find(0), uf.find(1));
    assert_eq!(uf.find(2), uf.find(3));
    assert_ne!(uf.find(0), uf.find(2));
    assert_ne!(uf.find(4), uf.find(5));
    uf.union(1, 3);
    let root = uf.find(0);
    for i in 0..4 {
        assert_eq!(uf.find(i), root);
    }
    assert_ne!(uf.find(4), root);
    uf.union(3, 0);
    assert_eq!(uf.find(2), root);
    uf.union(5, 5);
    assert_eq!(uf.find(5), 5);
    assert!(UnionFind::new(0).parent.is_empty());
}

#[test]
fn union_find_compresses_paths_and_ranks_by_height() {
    let mut uf = UnionFind::new(4);
    uf.union(0, 1);
    assert_eq!(uf.parent, [0, 0, 2, 3]);
    assert_eq!(uf.rank, [1, 0, 0, 0]);
    uf.union(2, 3);
    uf.union(0, 2);
    assert_eq!(uf.parent, [0, 0, 0, 2]);
    assert_eq!(uf.rank, [2, 0, 1, 0]);
    assert_eq!(uf.find(3), 0);
    assert_eq!(uf.parent, [0, 0, 0, 0]);
    uf.union(1, 3);
    assert_eq!(uf.rank, [2, 0, 1, 0]);
}
