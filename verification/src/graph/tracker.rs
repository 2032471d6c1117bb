//! Aggregation of a batch of transfers into directed edges between wallets.
//!
//! A batch is folded into one edge per `(source, dest, chain)` before it is
//! written, so that no stored edge is touched twice by one statement.

use crate::amount::Amount;
use crate::bytes::{bytes_eq, copy_bytes};
use crate::indexer::types::{transfers_view, StablecoinTransfer, TransferView};
use vstd::prelude::*;

verus! {

/// Source, destination and chain: what an edge is found by.
pub type EdgeKey = (Seq<u8>, Seq<u8>, i64);

/// What a batch adds to the edge between two wallets on a chain.
#[derive(Debug)]
pub struct AggregatedEdge {
    pub source_address: Vec<u8>,
    pub dest_address: Vec<u8>,
    pub chain_id: i64,
    pub transfer_count: u64,
    pub total_amount: Amount,
    /// The earliest block time among the transfers, in seconds.
    pub first_seen: i64,
    /// The latest block time among the transfers, in seconds.
    pub last_seen: i64,
}

/// What a `Edge` holds, as plain mathematical values.
pub struct EdgeView {
    pub source_address: Seq<u8>,
    pub dest_address: Seq<u8>,
    pub chain_id: i64,
    pub transfer_count: nat,
    pub total_amount: nat,
    pub first_seen: i64,
    pub last_seen: i64,
}

impl View for AggregatedEdge {
    type V = EdgeView;

    open spec fn view(&self) -> EdgeView {
        EdgeView {
            source_address: self.source_address@,
            dest_address: self.dest_address@,
            chain_id: self.chain_id,
            transfer_count: self.transfer_count as nat,
            total_amount: self.total_amount@,
            first_seen: self.first_seen,
            last_seen: self.last_seen,
        }
    }
}

/// The views of a run of edges.
pub open spec fn edges_view(edges: Seq<AggregatedEdge>) -> Seq<EdgeView> {
    edges.map_values(|e: AggregatedEdge| e@)
}

/// The key of an edge.
pub open spec fn edge_key(e: EdgeView) -> EdgeKey {
    (e.source_address, e.dest_address, e.chain_id)
}

/// The key of the edge that a transfer runs along.
pub open spec fn transfer_edge(t: TransferView) -> EdgeKey {
    (t.from_address, t.to_address, t.chain_id)
}

/// The index of the first edge with the given key, or the number of edges
/// where there is none.
pub open spec fn edge_index(edges: Seq<EdgeView>, key: EdgeKey) -> int
    decreases edges.len(),
{
    if edges.len() == 0 {
        0
    } else if edge_key(edges[0]) == key {
        0
    } else {
        1 + edge_index(edges.drop_first(), key)
    }
}

/// The edge of a single transfer.
pub open spec fn single_edge(t: TransferView) -> EdgeView {
    EdgeView {
        source_address: t.from_address,
        dest_address: t.to_address,
        chain_id: t.chain_id,
        transfer_count: 1,
        total_amount: t.amount,
        first_seen: t.block_timestamp,
        last_seen: t.block_timestamp,
    }
}

/// An edge with one more transfer on it.
pub open spec fn edge_with(e: EdgeView, t: TransferView) -> EdgeView {
    EdgeView {
        transfer_count: e.transfer_count + 1,
        total_amount: e.total_amount + t.amount,
        first_seen: if t.block_timestamp < e.first_seen {
            t.block_timestamp
        } else {
            e.first_seen
        },
        last_seen: if t.block_timestamp > e.last_seen {
            t.block_timestamp
        } else {
            e.last_seen
        },
        ..e
    }
}

/// The edges with one more transfer: on the edge that it runs along, or on
/// a new edge at the end.
pub open spec fn absorbed(edges: Seq<EdgeView>, t: TransferView) -> Seq<EdgeView> {
    let i = edge_index(edges, transfer_edge(t));
    if i < edges.len() {
        edges.update(i, edge_with(edges[i], t))
    } else {
        edges.push(single_edge(t))
    }
}

/// The edges of a batch, in the order in which the batch first shows them.
pub open spec fn aggregated(batch: Seq<TransferView>) -> Seq<EdgeView>
    decreases batch.len(),
{
    if batch.len() == 0 {
        Seq::empty()
    } else {
        absorbed(aggregated(batch.drop_last()), batch.last())
    }
}

/// The number of transfers of the batch along the edge `key`.
pub open spec fn count_along(batch: Seq<TransferView>, key: EdgeKey) -> nat
    decreases batch.len(),
{
    if batch.len() == 0 {
        0
    } else {
        count_along(batch.drop_last(), key) + if transfer_edge(batch.last()) == key {
            1nat
        } else {
            0nat
        }
    }
}

/// The sum of the amounts of the transfers of the batch along the edge
/// `key`.
pub open spec fn sum_along(batch: Seq<TransferView>, key: EdgeKey) -> nat
    decreases batch.len(),
{
    if batch.len() == 0 {
        0
    } else {
        sum_along(batch.drop_last(), key) + if transfer_edge(batch.last()) == key {
            batch.last().amount
        } else {
            0nat
        }
    }
}

/// The index that `edge_index` names is the first with the key.
pub proof fn lemma_edge_index(edges: Seq<EdgeView>, key: EdgeKey)
    ensures
        0 <= edge_index(edges, key) <= edges.len(),
        edge_index(edges, key) < edges.len() ==> edge_key(edges[edge_index(edges, key)]) == key,
        forall|j: int| 0 <= j < edge_index(edges, key) ==> edge_key(#[trigger] edges[j]) != key,
    decreases edges.len(),
{
    if edges.len() > 0 && edge_key(edges[0]) != key {
        let rest = edges.drop_first();
        lemma_edge_index(rest, key);
        assert forall|j: int| 0 <= j < edge_index(edges, key) implies edge_key(
            #[trigger] edges[j],
        ) != key by {
            if j > 0 {
                assert(edges[j] == rest[j - 1]);
            }
        }
    }
}

/// The first index with the key is the index that `edge_index` names.
pub proof fn lemma_edge_index_is(edges: Seq<EdgeView>, key: EdgeKey, i: int)
    requires
        0 <= i <= edges.len(),
        forall|j: int| 0 <= j < i ==> edge_key(#[trigger] edges[j]) != key,
        i < edges.len() ==> edge_key(edges[i]) == key,
    ensures
        edge_index(edges, key) == i,
    decreases edges.len(),
{
    if edges.len() > 0 && i > 0 {
        assert(edge_key(edges[0]) != key);
        let rest = edges.drop_first();
        assert forall|j: int| 0 <= j < i - 1 implies edge_key(#[trigger] rest[j]) != key by {
            assert(rest[j] == edges[j + 1]);
        }
        lemma_edge_index_is(rest, key, i - 1);
    }
}

/// No transfer along an edge: no count and no sum.
pub proof fn lemma_nothing_along(batch: Seq<TransferView>, key: EdgeKey)
    requires
        forall|n: int| 0 <= n < batch.len() ==> transfer_edge(#[trigger] batch[n]) != key,
    ensures
        count_along(batch, key) == 0,
        sum_along(batch, key) == 0,
    decreases batch.len(),
{
    if batch.len() > 0 {
        let prefix = batch.drop_last();
        assert forall|n: int| 0 <= n < prefix.len() implies transfer_edge(#[trigger] prefix[n])
            != key by {
            assert(prefix[n] == batch[n]);
        }
        lemma_nothing_along(prefix, key);
        assert(batch.last() == batch[batch.len() - 1]);
    }
}

/// What holds of the edges of a batch: the edge `e` counts the transfers of
/// the batch along it, sums their amounts, and spans their block times.
pub open spec fn edge_matches_batch(e: EdgeView, batch: Seq<TransferView>) -> bool {
    &&& e.transfer_count == count_along(batch, edge_key(e))
    &&& e.transfer_count >= 1
    &&& e.total_amount == sum_along(batch, edge_key(e))
    &&& e.first_seen <= e.last_seen
    &&& forall|n: int|
        0 <= n < batch.len() && transfer_edge(#[trigger] batch[n]) == edge_key(e)
            ==> e.first_seen <= batch[n].block_timestamp <= e.last_seen
    &&& exists|n: int|
        0 <= n < batch.len() && transfer_edge(#[trigger] batch[n]) == edge_key(e)
            && batch[n].block_timestamp == e.first_seen
    &&& exists|n: int|
        0 <= n < batch.len() && transfer_edge(#[trigger] batch[n]) == edge_key(e)
            && batch[n].block_timestamp == e.last_seen
}

/// An edge that accounts for a batch still does so after a transfer along
/// another edge.
proof fn lemma_match_other(b: EdgeView, prefix: Seq<TransferView>, t: TransferView)
    requires
        edge_matches_batch(b, prefix),
        edge_key(b) != transfer_edge(t),
    ensures
        edge_matches_batch(b, prefix.push(t)),
{
    let batch = prefix.push(t);
    assert(batch.drop_last() =~= prefix);
    assert(batch.last() == t);
    let nf = choose|n: int|
        0 <= n < prefix.len() && transfer_edge(#[trigger] prefix[n]) == edge_key(b)
            && prefix[n].block_timestamp == b.first_seen;
    let nl = choose|n: int|
        0 <= n < prefix.len() && transfer_edge(#[trigger] prefix[n]) == edge_key(b)
            && prefix[n].block_timestamp == b.last_seen;
    assert(batch[nf] == prefix[nf]);
    assert(batch[nl] == prefix[nl]);
    assert forall|n: int|
        0 <= n < batch.len() && transfer_edge(#[trigger] batch[n]) == edge_key(
            b,
        ) implies b.first_seen <= batch[n].block_timestamp <= b.last_seen by {
        if n < prefix.len() {
            assert(batch[n] == prefix[n]);
        }
    }
}

/// An edge that accounts for a batch accounts, with one more transfer on
/// it, for the batch and that transfer.
proof fn lemma_match_with(b: EdgeView, prefix: Seq<TransferView>, t: TransferView)
    requires
        edge_matches_batch(b, prefix),
        edge_key(b) == transfer_edge(t),
    ensures
        edge_matches_batch(edge_with(b, t), prefix.push(t)),
{
    let batch = prefix.push(t);
    let e = edge_with(b, t);
    let last = prefix.len() as int;
    assert(batch.drop_last() =~= prefix);
    assert(batch.last() == t);
    assert(batch[last] == t);
    let nf = choose|n: int|
        0 <= n < prefix.len() && transfer_edge(#[trigger] prefix[n]) == edge_key(b)
            && prefix[n].block_timestamp == b.first_seen;
    let nl = choose|n: int|
        0 <= n < prefix.len() && transfer_edge(#[trigger] prefix[n]) == edge_key(b)
            && prefix[n].block_timestamp == b.last_seen;
    assert(batch[nf] == prefix[nf]);
    assert(batch[nl] == prefix[nl]);
    let wf = if t.block_timestamp < b.first_seen {
        last
    } else {
        nf
    };
    let wl = if t.block_timestamp > b.last_seen {
        last
    } else {
        nl
    };
    assert(0 <= wf < batch.len() && transfer_edge(batch[wf]) == edge_key(e)
        && batch[wf].block_timestamp == e.first_seen);
    assert(0 <= wl < batch.len() && transfer_edge(batch[wl]) == edge_key(e)
        && batch[wl].block_timestamp == e.last_seen);
    assert forall|n: int|
        0 <= n < batch.len() && transfer_edge(#[trigger] batch[n]) == edge_key(
            e,
        ) implies e.first_seen <= batch[n].block_timestamp <= e.last_seen by {
        if n < prefix.len() {
            assert(batch[n] == prefix[n]);
        }
    }
}

/// The edge of a single transfer accounts for a batch that ends with that
/// transfer and has no other along the edge.
proof fn lemma_match_single(prefix: Seq<TransferView>, t: TransferView)
    requires
        forall|n: int| 0 <= n < prefix.len() ==> transfer_edge(#[trigger] prefix[n])
            != transfer_edge(t),
    ensures
        edge_matches_batch(single_edge(t), prefix.push(t)),
{
    let batch = prefix.push(t);
    let e = single_edge(t);
    let last = prefix.len() as int;
    assert(batch.drop_last() =~= prefix);
    assert(batch.last() == t);
    assert(batch[last] == t);
    lemma_nothing_along(prefix, transfer_edge(t));
    assert(0 <= last < batch.len() && transfer_edge(batch[last]) == edge_key(e)
        && batch[last].block_timestamp == e.first_seen);
    assert forall|n: int|
        0 <= n < batch.len() && transfer_edge(#[trigger] batch[n]) == edge_key(
            e,
        ) implies e.first_seen <= batch[n].block_timestamp <= e.last_seen by {
        if n < prefix.len() {
            assert(batch[n] == prefix[n]);
        }
    }
}

/// No two edges have the same key.
pub open spec fn keys_distinct(edges: Seq<EdgeView>) -> bool {
    forall|i: int, j: int|
        0 <= i < j < edges.len() ==> edge_key(#[trigger] edges[i]) != edge_key(#[trigger] edges[j])
}

/// Every edge accounts for the batch.
pub open spec fn all_match(edges: Seq<EdgeView>, batch: Seq<TransferView>) -> bool {
    forall|i: int| 0 <= i < edges.len() ==> edge_matches_batch(#[trigger] edges[i], batch)
}

/// Every transfer of the batch runs along one of the edges.
pub open spec fn all_covered(edges: Seq<EdgeView>, batch: Seq<TransferView>) -> bool {
    forall|n: int|
        0 <= n < batch.len() ==> has_edge(edges, transfer_edge(#[trigger] batch[n]))
}

/// One of the edges has the key.
pub open spec fn has_edge(edges: Seq<EdgeView>, key: EdgeKey) -> bool {
    exists|i: int| 0 <= i < edges.len() && edge_key(#[trigger] edges[i]) == key
}

proof fn lemma_absorb_existing(before: Seq<EdgeView>, prefix: Seq<TransferView>, t: TransferView)
    requires
        keys_distinct(before),
        all_match(before, prefix),
        all_covered(before, prefix),
        edge_index(before, transfer_edge(t)) < before.len(),
    ensures
        keys_distinct(absorbed(before, t)),
        all_match(absorbed(before, t), prefix.push(t)),
        all_covered(absorbed(before, t), prefix.push(t)),
{
    let key = transfer_edge(t);
    let idx = edge_index(before, key);
    let edges = absorbed(before, t);
    let batch = prefix.push(t);
    lemma_edge_index(before, key);
    assert(edges == before.update(idx, edge_with(before[idx], t)));
    assert forall|i: int| 0 <= i < edges.len() implies edge_key(#[trigger] edges[i]) == edge_key(
        before[i],
    ) by {}
    assert forall|i: int| 0 <= i < edges.len() implies edge_matches_batch(
        #[trigger] edges[i],
        batch,
    ) by {
        assert(edge_matches_batch(before[i], prefix));
        if i == idx {
            lemma_match_with(before[i], prefix, t);
        } else {
            if i > idx {
                assert(edge_key(before[idx]) != edge_key(before[i]));
            }
            lemma_match_other(before[i], prefix, t);
        }
    }
    assert forall|n: int| 0 <= n < batch.len() implies has_edge(
        edges,
        transfer_edge(#[trigger] batch[n]),
    ) by {
        if n < prefix.len() {
            assert(batch[n] == prefix[n]);
            assert(has_edge(before, transfer_edge(prefix[n])));
            let i = choose|i: int|
                0 <= i < before.len() && edge_key(#[trigger] before[i]) == transfer_edge(prefix[n]);
            assert(edge_key(edges[i]) == transfer_edge(batch[n]));
        } else {
            assert(edge_key(edges[idx]) == transfer_edge(batch[n]));
        }
    }
}

proof fn lemma_absorb_new(before: Seq<EdgeView>, prefix: Seq<TransferView>, t: TransferView)
    requires
        keys_distinct(before),
        all_match(before, prefix),
        all_covered(before, prefix),
        edge_index(before, transfer_edge(t)) >= before.len(),
    ensures
        keys_distinct(absorbed(before, t)),
        all_match(absorbed(before, t), prefix.push(t)),
        all_covered(absorbed(before, t), prefix.push(t)),
{
    let key = transfer_edge(t);
    let edges = absorbed(before, t);
    let batch = prefix.push(t);
    lemma_edge_index(before, key);
    assert(edges == before.push(single_edge(t)));
    assert forall|n: int| 0 <= n < prefix.len() implies transfer_edge(#[trigger] prefix[n])
        != key by {
        if transfer_edge(prefix[n]) == key {
            assert(has_edge(before, transfer_edge(prefix[n])));
            let i = choose|i: int|
                0 <= i < before.len() && edge_key(#[trigger] before[i]) == transfer_edge(prefix[n]);
            assert(edge_key(before[i]) != key);
        }
    }
    assert forall|i: int| 0 <= i < edges.len() implies edge_matches_batch(
        #[trigger] edges[i],
        batch,
    ) by {
        if i < before.len() {
            assert(edges[i] == before[i]);
            assert(edge_matches_batch(before[i], prefix));
            assert(edge_key(before[i]) != key);
            lemma_match_other(before[i], prefix, t);
        } else {
            lemma_match_single(prefix, t);
        }
    }
    assert forall|n: int| 0 <= n < batch.len() implies has_edge(
        edges,
        transfer_edge(#[trigger] batch[n]),
    ) by {
        if n < prefix.len() {
            assert(batch[n] == prefix[n]);
            assert(has_edge(before, transfer_edge(prefix[n])));
            let i = choose|i: int|
                0 <= i < before.len() && edge_key(#[trigger] before[i]) == transfer_edge(prefix[n]);
            assert(edges[i] == before[i]);
            assert(edge_key(edges[i]) == transfer_edge(batch[n]));
        } else {
            assert(edge_key(edges[before.len() as int]) == transfer_edge(batch[n]));
        }
    }
    assert forall|i: int, j: int| 0 <= i < j < edges.len() implies edge_key(#[trigger] edges[i])
        != edge_key(#[trigger] edges[j]) by {
        assert(edges[i] == before[i]);
        if j < before.len() {
            assert(edges[j] == before[j]);
        } else {
            assert(edge_key(before[i]) != key);
        }
    }
}

/// The edges of a batch are one per `(source, dest, chain)` that the batch
/// shows. Each counts the transfers along it and sums their amounts; its
/// first and last times are the least and the greatest block time among
/// them.
pub proof fn lemma_edges_account_for_batch(batch: Seq<TransferView>)
    ensures
        keys_distinct(aggregated(batch)),
        all_match(aggregated(batch), batch),
        all_covered(aggregated(batch), batch),
    decreases batch.len(),
{
    if batch.len() > 0 {
        let prefix = batch.drop_last();
        let t = batch.last();
        lemma_edges_account_for_batch(prefix);
        assert(batch =~= prefix.push(t));
        let before = aggregated(prefix);
        if edge_index(before, transfer_edge(t)) < before.len() {
            lemma_absorb_existing(before, prefix, t);
        } else {
            lemma_absorb_new(before, prefix, t);
        }
    }
}

fn find_edge(edges: &Vec<AggregatedEdge>, t: &StablecoinTransfer) -> (i: usize)
    ensures
        i == edge_index(edges_view(edges@), transfer_edge(t@)),
        i <= edges@.len(),
{
    let ghost views = edges_view(edges@);
    let ghost key = transfer_edge(t@);
    let mut i: usize = 0;
    while i < edges.len()
        invariant
            i <= edges@.len(),
            views == edges_view(edges@),
            key == transfer_edge(t@),
            forall|j: int| 0 <= j < i ==> edge_key(#[trigger] views[j]) != key,
        decreases edges@.len() - i,
    {
        let e = &edges[i];
        if e.chain_id == t.chain_id && bytes_eq(
            e.source_address.as_slice(),
            t.from_address.as_slice(),
        ) && bytes_eq(e.dest_address.as_slice(), t.to_address.as_slice()) {
            proof {
                assert(edge_key(views[i as int]) == key);
                lemma_edge_index_is(views, key, i as int);
            }
            return i;
        }
        assert(edge_key(views[i as int]) != key);
        i += 1;
    }
    proof {
        lemma_edge_index_is(views, key, i as int);
    }
    i
}

/// Folds a batch of transfers into one edge per `(source, dest, chain)`:
/// the number of transfers along it, the sum of their amounts, and the
/// earliest and the latest of their block times. The edges come in the
/// order in which the batch first shows them.
pub fn update_edges(transfers: &[StablecoinTransfer]) -> (edges: Vec<AggregatedEdge>)
    ensures
        edges_view(edges@) == aggregated(transfers_view(transfers@)),
{
    let mut edges: Vec<AggregatedEdge> = Vec::new();
    let mut i: usize = 0;
    assert(transfers_view(transfers@).take(0) =~= Seq::<TransferView>::empty());
    assert(edges_view(edges@) =~= Seq::<EdgeView>::empty());
    while i < transfers.len()
        invariant
            i <= transfers@.len(),
            edges_view(edges@) == aggregated(transfers_view(transfers@).take(i as int)),
            forall|j: int| 0 <= j < edges@.len() ==> (#[trigger] edges@[j]).transfer_count <= i,
        decreases transfers@.len() - i,
    {
        let t = &transfers[i];
        proof {
            let next = transfers_view(transfers@).take(i + 1);
            assert(next.drop_last() =~= transfers_view(transfers@).take(i as int));
            assert(next.last() == t@);
        }
        let ghost before = edges_view(edges@);
        let at = find_edge(&edges, t);
        if at < edges.len() {
            let e = &edges[at];
            assert(before[at as int] == e@);
            let merged = AggregatedEdge {
                source_address: copy_bytes(e.source_address.as_slice()),
                dest_address: copy_bytes(e.dest_address.as_slice()),
                chain_id: e.chain_id,
                transfer_count: e.transfer_count + 1,
                total_amount: e.total_amount.plus(&t.amount),
                first_seen: if t.block_timestamp < e.first_seen {
                    t.block_timestamp
                } else {
                    e.first_seen
                },
                last_seen: if t.block_timestamp > e.last_seen {
                    t.block_timestamp
                } else {
                    e.last_seen
                },
            };
            assert(merged@ == edge_with(before[at as int], t@));
            let ghost mv = merged@;
            edges[at] = merged;
            assert(edges_view(edges@) =~= before.update(at as int, mv));
        } else {
            let single = AggregatedEdge {
                source_address: copy_bytes(t.from_address.as_slice()),
                dest_address: copy_bytes(t.to_address.as_slice()),
                chain_id: t.chain_id,
                transfer_count: 1,
                total_amount: t.amount.clone(),
                first_seen: t.block_timestamp,
                last_seen: t.block_timestamp,
            };
            let ghost sv = single@;
            edges.push(single);
            assert(edges_view(edges@) =~= before.push(sv));
        }
        i += 1;
    }
    assert(transfers_view(transfers@).take(transfers@.len() as int) =~= transfers_view(
        transfers@,
    ));
    edges
}

/// A counterparty of a wallet in the stored graph.
#[derive(Debug)]
pub struct GraphEdge {
    /// The wallet at the other end of the edge.
    pub dest_address: Vec<u8>,
    pub chain_id: i64,
    pub transfer_count: i64,
    pub total_amount: Amount,
}

/// A stored edge with what a batch adds to it: the counts and the totals
/// add up, the later last time stays, and the first time is kept as it was
/// stored.
pub open spec fn merged_edge(stored: EdgeView, delta: EdgeView) -> EdgeView {
    EdgeView {
        transfer_count: stored.transfer_count + delta.transfer_count,
        total_amount: stored.total_amount + delta.total_amount,
        first_seen: stored.first_seen,
        last_seen: if delta.last_seen > stored.last_seen {
            delta.last_seen
        } else {
            stored.last_seen
        },
        ..stored
    }
}

/// The stored edges after the upsert of one edge of a batch: merged into
/// the stored edge with its key, or added at the end.
pub open spec fn edge_upserted(edges: Seq<EdgeView>, delta: EdgeView) -> Seq<EdgeView> {
    let i = edge_index(edges, edge_key(delta));
    if i < edges.len() {
        edges.update(i, merged_edge(edges[i], delta))
    } else {
        edges.push(delta)
    }
}

/// The stored edges after the upsert of the edges of a batch, in order.
pub open spec fn edges_upserted(edges: Seq<EdgeView>, deltas: Seq<EdgeView>) -> Seq<EdgeView>
    decreases deltas.len(),
{
    if deltas.len() == 0 {
        edges
    } else {
        edge_upserted(edges_upserted(edges, deltas.drop_last()), deltas.last())
    }
}

/// The edge with the key, if there is one.
pub open spec fn edge_for(edges: Seq<EdgeView>, key: EdgeKey) -> Option<EdgeView> {
    let i = edge_index(edges, key);
    if i < edges.len() {
        Some(edges[i])
    } else {
        None
    }
}

/// The edge accounts for the transfers `all`: it counts those along it,
/// sums their amounts, and none of them is earlier than its first time or
/// later than its last.
pub open spec fn edge_accounts_for(e: EdgeView, all: Seq<TransferView>) -> bool {
    &&& e.transfer_count == count_along(all, edge_key(e))
    &&& e.total_amount == sum_along(all, edge_key(e))
    &&& forall|n: int|
        0 <= n < all.len() && transfer_edge(#[trigger] all[n]) == edge_key(e) ==> e.first_seen
            <= all[n].block_timestamp <= e.last_seen
}

/// The stored edges account for the transfers `all`: there is one edge for
/// every `(source, dest, chain)` that `all` shows, and each accounts for
/// `all`.
pub open spec fn graph_accounts_for(edges: Seq<EdgeView>, all: Seq<TransferView>) -> bool {
    &&& keys_distinct(edges)
    &&& forall|i: int| 0 <= i < edges.len() ==> edge_accounts_for(#[trigger] edges[i], all)
    &&& all_covered(edges, all)
}

/// Counts and sums along an edge add up over two runs of transfers.
pub proof fn lemma_along_concat(a: Seq<TransferView>, b: Seq<TransferView>, key: EdgeKey)
    ensures
        count_along(a + b, key) == count_along(a, key) + count_along(b, key),
        sum_along(a + b, key) == sum_along(a, key) + sum_along(b, key),
    decreases b.len(),
{
    if b.len() == 0 {
        assert(a + b =~= a);
    } else {
        lemma_along_concat(a, b.drop_last(), key);
        assert((a + b).drop_last() =~= a + b.drop_last());
        assert((a + b).last() == b.last());
    }
}

proof fn lemma_edge_for(edges: Seq<EdgeView>, key: EdgeKey)
    requires
        keys_distinct(edges),
    ensures
        match edge_for(edges, key) {
            Some(e) => edge_key(e) == key && edges.contains(e),
            None => !has_edge(edges, key),
        },
        forall|i: int|
            0 <= i < edges.len() && edge_key(#[trigger] edges[i]) == key ==> edge_for(edges, key)
                == Some(edges[i]),
{
    lemma_edge_index(edges, key);
    let at = edge_index(edges, key);
    assert forall|i: int| 0 <= i < edges.len() && edge_key(#[trigger] edges[i]) == key implies edge_for(
        edges,
        key,
    ) == Some(edges[i]) by {
        if i != at {
            if at < i {
                assert(edge_key(edges[at]) != edge_key(edges[i]));
            }
        }
    }
}

/// The upsert of one edge changes the edge with its key and no other.
proof fn lemma_edge_upserted(edges: Seq<EdgeView>, delta: EdgeView, key: EdgeKey)
    requires
        keys_distinct(edges),
    ensures
        keys_distinct(edge_upserted(edges, delta)),
        edge_for(edge_upserted(edges, delta), key) == if key == edge_key(delta) {
            match edge_for(edges, key) {
                Some(e) => Some(merged_edge(e, delta)),
                None => Some(delta),
            }
        } else {
            edge_for(edges, key)
        },
{
    let dk = edge_key(delta);
    let at = edge_index(edges, dk);
    let after = edge_upserted(edges, delta);
    lemma_edge_index(edges, dk);
    lemma_edge_index(edges, key);
    assert forall|i: int, j: int| 0 <= i < j < after.len() implies edge_key(#[trigger] after[i])
        != edge_key(#[trigger] after[j]) by {
        if at < edges.len() {
            assert(edge_key(after[i]) == edge_key(edges[i]));
            assert(edge_key(after[j]) == edge_key(edges[j]));
        } else {
            assert(after[i] == edges[i]);
            if j < edges.len() {
                assert(after[j] == edges[j]);
            }
        }
    }
    let ki = edge_index(edges, key);
    if key == dk {
        assert forall|j: int| 0 <= j < at implies edge_key(#[trigger] after[j]) != key by {
            assert(after[j] == edges[j]);
        }
        lemma_edge_index_is(after, key, at);
    } else {
        assert forall|j: int| 0 <= j < ki implies edge_key(#[trigger] after[j]) != key by {
            if at < edges.len() {
                assert(edge_key(after[j]) == edge_key(edges[j]));
            } else {
                assert(after[j] == edges[j]);
            }
        }
        if ki < edges.len() {
            assert(after[ki] == edges[ki]);
            lemma_edge_index_is(after, key, ki);
        } else if at < edges.len() {
            lemma_edge_index_is(after, key, ki);
        } else {
            assert(after[ki] == delta);
            lemma_edge_index_is(after, key, ki + 1);
        }
    }
}

/// The upsert of edges with distinct keys merges, for every key, the
/// stored edge with the edge of the batch.
proof fn lemma_edges_upserted(edges: Seq<EdgeView>, deltas: Seq<EdgeView>, key: EdgeKey)
    requires
        keys_distinct(edges),
        keys_distinct(deltas),
    ensures
        keys_distinct(edges_upserted(edges, deltas)),
        edge_for(edges_upserted(edges, deltas), key) == match edge_for(deltas, key) {
            Some(d) => match edge_for(edges, key) {
                Some(e) => Some(merged_edge(e, d)),
                None => Some(d),
            },
            None => edge_for(edges, key),
        },
    decreases deltas.len(),
{
    if deltas.len() == 0 {
    } else {
        let prefix = deltas.drop_last();
        let d = deltas.last();
        let last = deltas.len() - 1;
        assert(deltas[last] == d);
        assert forall|i: int, j: int| 0 <= i < j < prefix.len() implies edge_key(
            #[trigger] prefix[i],
        ) != edge_key(#[trigger] prefix[j]) by {
            assert(prefix[i] == deltas[i] && prefix[j] == deltas[j]);
        }
        lemma_edges_upserted(edges, prefix, key);
        let before = edges_upserted(edges, prefix);
        lemma_edge_upserted(before, d, key);
        lemma_edge_for(deltas, key);
        lemma_edge_for(prefix, key);
        if key == edge_key(d) {
            assert(edge_for(deltas, key) == Some(d));
            if has_edge(prefix, key) {
                let i = choose|i: int| 0 <= i < prefix.len() && edge_key(#[trigger] prefix[i]) == key;
                assert(prefix[i] == deltas[i]);
                assert(edge_key(deltas[i]) != edge_key(deltas[last]));
            }
        } else {
            match edge_for(prefix, key) {
                Some(e) => {
                    let i = choose|i: int| 0 <= i < prefix.len() && prefix[i] == e;
                    assert(deltas[i] == e);
                },
                None => {
                    if has_edge(deltas, key) {
                        let i = choose|i: int|
                            0 <= i < deltas.len() && edge_key(#[trigger] deltas[i]) == key;
                        assert(prefix[i] == deltas[i]);
                    }
                },
            }
        }
    }
}

/// No transfer of the batch is earlier than the first time of the stored
/// edge that it runs along.
pub open spec fn not_before_stored(edges: Seq<EdgeView>, batch: Seq<TransferView>) -> bool {
    forall|i: int, n: int|
        0 <= i < edges.len() && 0 <= n < batch.len() && edge_key(#[trigger] edges[i])
            == transfer_edge(#[trigger] batch[n]) ==> edges[i].first_seen
            <= batch[n].block_timestamp
}

/// The stored graph keeps account across batches. Where the stored edges
/// account for the transfers stored so far, and no transfer of the batch is
/// earlier than the first time of the stored edge that it runs along, the
/// upsert of the edges of the batch gives edges that account for those
/// transfers and the batch: each edge counts the transfers from its source
/// to its destination on its chain, sums their amounts, and has a first
/// time not after and a last time not before any of them.
pub proof fn lemma_graph_accounts_for_all(
    edges: Seq<EdgeView>,
    stored: Seq<TransferView>,
    batch: Seq<TransferView>,
)
    requires
        graph_accounts_for(edges, stored),
        not_before_stored(edges, batch),
    ensures
        graph_accounts_for(edges_upserted(edges, aggregated(batch)), stored + batch),
{
    let deltas = aggregated(batch);
    let after = edges_upserted(edges, deltas);
    let all = stored + batch;
    lemma_edges_account_for_batch(batch);
    assert forall|i: int| 0 <= i < after.len() implies edge_accounts_for(
        #[trigger] after[i],
        all,
    ) by {
        let e = after[i];
        let key = edge_key(e);
        lemma_edges_upserted(edges, deltas, key);
        lemma_edge_for(after, key);
        lemma_edge_for(edges, key);
        lemma_edge_for(deltas, key);
        lemma_along_concat(stored, batch, key);
        assert(edge_for(after, key) == Some(e));
        match edge_for(deltas, key) {
            Some(d) => {
                let j = choose|j: int| 0 <= j < deltas.len() && deltas[j] == d;
                assert(edge_matches_batch(deltas[j], batch));
                match edge_for(edges, key) {
                    Some(o) => {
                        let m = choose|m: int| 0 <= m < edges.len() && edges[m] == o;
                        assert(edge_accounts_for(edges[m], stored));
                    },
                    None => {
                        assert forall|n: int| 0 <= n < stored.len() implies transfer_edge(
                            #[trigger] stored[n],
                        ) != key by {
                            assert(has_edge(edges, transfer_edge(stored[n])));
                        }
                        lemma_nothing_along(stored, key);
                    },
                }
            },
            None => {
                let m = choose|m: int| 0 <= m < edges.len() && edges[m] == e;
                assert(edge_accounts_for(edges[m], stored));
                assert forall|n: int| 0 <= n < batch.len() implies transfer_edge(
                    #[trigger] batch[n],
                ) != key by {
                    assert(has_edge(deltas, transfer_edge(batch[n])));
                }
                lemma_nothing_along(batch, key);
            },
        }
        assert forall|n: int|
            0 <= n < all.len() && transfer_edge(#[trigger] all[n]) == key implies e.first_seen
            <= all[n].block_timestamp <= e.last_seen by {
            if n < stored.len() {
                assert(all[n] == stored[n]);
                assert(has_edge(edges, transfer_edge(stored[n])));
            } else {
                assert(all[n] == batch[n - stored.len()]);
                assert(has_edge(deltas, transfer_edge(batch[n - stored.len()])));
            }
        }
    }
    assert forall|n: int| 0 <= n < all.len() implies has_edge(
        after,
        transfer_edge(#[trigger] all[n]),
    ) by {
        let key = transfer_edge(all[n]);
        lemma_edges_upserted(edges, deltas, key);
        lemma_edge_for(after, key);
        lemma_edge_for(edges, key);
        lemma_edge_for(deltas, key);
        if n < stored.len() {
            assert(all[n] == stored[n]);
            assert(has_edge(edges, key));
        } else {
            assert(all[n] == batch[n - stored.len()]);
            assert(has_edge(deltas, key));
        }
    }
    lemma_edges_upserted(edges, deltas, (Seq::empty(), Seq::empty(), 0));
}

} // verus!
