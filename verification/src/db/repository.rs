//! The store of the indexer: chunking of batched inserts, and a store in
//! memory that keeps the write rules of the persistence layer.

use crate::bytes::{bytes_eq, copy_bytes};
use crate::db::rules::{
    has_key, inserted, key_index, keys_unique, lemma_inserted_extends, lemma_inserted_unique,
    lemma_key_index_is, lemma_upserted, lemma_without, lemma_without_unique, row_with, upserted,
    without,
};
use crate::graph::tracker::{
    edge_index, edge_key, edges_upserted, edges_view, lemma_edge_index_is,
    merged_edge, AggregatedEdge, EdgeView,
};
use crate::indexer::chain::{checkpoint_after, rollback_checkpoint};
use crate::wallet::first_seen::{
    event_key, wallet_events_view, NewWalletEvent, NewWalletEventView, WalletKey,
};
use crate::indexer::defi_decoder::{events_view, DefiEvent, DefiEventView};
use crate::indexer::types::{
    clamp_i64, opt_bytes, to_i64, transfer_key, transfers_view, StablecoinTransfer, TransferView,
};
use vstd::prelude::*;

verus! {

/// The largest number of transfer or event rows in one insert statement.
pub const INSERT_CHUNK_ROWS: usize = 1000;

/// The largest number of graph edges in one upsert statement.
pub const EDGE_CHUNK_ROWS: usize = 500;

/// The end of the chunk that starts at `start`, past its last row: `chunk`
/// rows further, or the end of the rows where fewer are left. A chunk size
/// of zero counts as one.
pub open spec fn chunk_end_of(start: int, rows: int, chunk: int) -> int {
    let step = if chunk <= 0 {
        1
    } else {
        chunk
    };
    if start + step < rows {
        start + step
    } else {
        rows
    }
}

/// The chunks of `rows` rows from `start` on, each as its first row and
/// the row past its last.
pub open spec fn chunks_from(start: int, rows: int, chunk: int) -> Seq<(int, int)>
    decreases rows - start,
{
    if start < 0 || start >= rows {
        Seq::empty()
    } else {
        seq![(start, chunk_end_of(start, rows, chunk))] + chunks_from(
            chunk_end_of(start, rows, chunk),
            rows,
            chunk,
        )
    }
}

/// The end of the chunk of rows that starts at `start`.
pub fn chunk_end(start: usize, rows: usize, chunk: usize) -> (end: usize)
    ensures
        end == chunk_end_of(start as int, rows as int, chunk as int),
        start < rows ==> start < end <= rows,
{
    let step = if chunk == 0 {
        1
    } else {
        chunk
    };
    if start >= rows {
        rows
    } else if step < rows - start {
        start + step
    } else {
        rows
    }
}

/// The chunks in which a batch of `rows` rows is written: they follow one
/// another from the first row to the last, and none holds more than
/// `chunk` rows.
pub fn insert_chunks(rows: usize, chunk: usize) -> (chunks: Vec<(usize, usize)>)
    ensures
        chunks@.len() == chunks_from(0, rows as int, chunk as int).len(),
        forall|i: int|
            0 <= i < chunks@.len() ==> (#[trigger] chunks@[i].0 as int, chunks@[i].1 as int)
                == chunks_from(0, rows as int, chunk as int)[i],
{
    let mut chunks: Vec<(usize, usize)> = Vec::new();
    let mut start: usize = 0;
    let ghost all = chunks_from(0, rows as int, chunk as int);
    while start < rows
        invariant
            start <= rows,
            all == chunks_from(0, rows as int, chunk as int),
            chunks@.len() + chunks_from(start as int, rows as int, chunk as int).len() == all.len(),
            forall|i: int|
                0 <= i < chunks@.len() ==> (#[trigger] chunks@[i].0 as int, chunks@[i].1 as int)
                    == all[i],
            forall|k: int|
                0 <= k < chunks_from(start as int, rows as int, chunk as int).len() ==> all[chunks@.len()
                    + k] == #[trigger] chunks_from(start as int, rows as int, chunk as int)[k],
        decreases rows - start,
    {
        let end = chunk_end(start, rows, chunk);
        proof {
            let here = chunks_from(start as int, rows as int, chunk as int);
            let rest = chunks_from(end as int, rows as int, chunk as int);
            assert(here == seq![(start as int, end as int)] + rest);
            assert(here[0] == (start as int, end as int));
            assert forall|k: int| 0 <= k < rest.len() implies all[chunks@.len() + 1 + k]
                == #[trigger] rest[k] by {
                assert(here[k + 1] == rest[k]);
            }
        }
        chunks.push((start, end));
        start = end;
    }
    chunks
}

/// The chunks of a batch cover it without a gap or an overlap, and none is
/// empty or longer than the chunk size.
pub proof fn lemma_chunks_cover(start: int, rows: int, chunk: int)
    requires
        0 <= start < rows,
        chunk >= 1,
    ensures
        ({
            let c = chunks_from(start, rows, chunk);
            &&& c.len() > 0
            &&& c[0].0 == start
            &&& c.last().1 == rows
            &&& forall|i: int| 0 <= i < c.len() ==> (#[trigger] c[i]).0 < c[i].1 && c[i].1 - c[i].0
                <= chunk
            &&& forall|i: int| 0 <= i < c.len() - 1 ==> (#[trigger] c[i + 1]).0 == c[i].1
        }),
    decreases rows - start,
{
    let c = chunks_from(start, rows, chunk);
    let end = chunk_end_of(start, rows, chunk);
    let rest = chunks_from(end, rows, chunk);
    assert(c == seq![(start, end)] + rest);
    if end < rows {
        lemma_chunks_cover(end, rows, chunk);
        assert(c.last() == rest.last());
        assert forall|i: int| 0 <= i < c.len() implies (#[trigger] c[i]).0 < c[i].1 && c[i].1
            - c[i].0 <= chunk by {
            if i > 0 {
                assert(c[i] == rest[i - 1]);
            }
        }
        assert forall|i: int| 0 <= i < c.len() - 1 implies (#[trigger] c[i + 1]).0 == c[i].1 by {
            assert(c[i + 1] == rest[i]);
            if i > 0 {
                assert(c[i] == rest[i - 1]);
                assert(rest[(i - 1) + 1] == rest[i]);
            }
        }
    } else {
        assert(rest =~= Seq::<(int, int)>::empty());
        assert(c =~= seq![(start, end)]);
    }
}

/// The stored hash of a block.
#[derive(Debug)]
pub struct BlockHashRow {
    pub chain_id: i64,
    pub block_number: i64,
    pub block_hash: Vec<u8>,
    pub parent_hash: Vec<u8>,
}

/// What a `BlockHash` holds, as plain mathematical values.
pub struct BlockHashView {
    pub chain_id: i64,
    pub block_number: i64,
    pub block_hash: Seq<u8>,
    pub parent_hash: Seq<u8>,
}

impl View for BlockHashRow {
    type V = BlockHashView;

    open spec fn view(&self) -> BlockHashView {
        BlockHashView {
            chain_id: self.chain_id,
            block_number: self.block_number,
            block_hash: self.block_hash@,
            parent_hash: self.parent_hash@,
        }
    }
}

/// The checkpoint of a chain.
#[derive(Debug)]
pub struct IndexerState {
    pub chain_id: i64,
    pub last_indexed_block: u64,
    pub last_block_hash: Option<Vec<u8>>,
}

/// What a `IndexerState` holds, as plain mathematical values.
pub struct IndexerStateView {
    pub chain_id: i64,
    pub last_indexed_block: u64,
    pub last_block_hash: Option<Seq<u8>>,
}

impl View for IndexerState {
    type V = IndexerStateView;

    open spec fn view(&self) -> IndexerStateView {
        IndexerStateView {
            chain_id: self.chain_id,
            last_indexed_block: self.last_indexed_block,
            last_block_hash: opt_bytes(self.last_block_hash),
        }
    }
}

/// The natural key of a transfer, as a function.
pub open spec fn transfer_key_of() -> spec_fn(TransferView) -> (i64, Seq<u8>, i32) {
    |t: TransferView| transfer_key(t)
}

/// The natural key of a DeFi event: chain, transaction hash and log index.
pub open spec fn event_key_of() -> spec_fn(DefiEventView) -> (i64, Seq<u8>, i32) {
    |e: DefiEventView| (e.chain_id, e.tx_hash, e.log_index)
}

/// The key of a block hash: chain and block number.
pub open spec fn block_key_of() -> spec_fn(BlockHashView) -> (i64, i64) {
    |b: BlockHashView| (b.chain_id, b.block_number)
}

/// The key of a first-seen row: wallet and chain.
pub open spec fn wallet_of() -> spec_fn(NewWalletEventView) -> WalletKey {
    |e: NewWalletEventView| event_key(e)
}

/// The key of a checkpoint: its chain.
pub open spec fn chain_of() -> spec_fn(IndexerStateView) -> i64 {
    |s: IndexerStateView| s.chain_id
}

/// The transfers of a chain at or above a block.
pub open spec fn transfers_from(chain_id: i64, from: i64) -> spec_fn(TransferView) -> bool {
    |t: TransferView| t.chain_id == chain_id && t.block_number >= from
}

/// The DeFi events of a chain at or above a block.
pub open spec fn events_from(chain_id: i64, from: i64) -> spec_fn(DefiEventView) -> bool {
    |e: DefiEventView| e.chain_id == chain_id && e.block_number >= from
}

/// The block hashes of a chain at or above a block.
pub open spec fn hashes_from(chain_id: i64, from: i64) -> spec_fn(BlockHashView) -> bool {
    |b: BlockHashView| b.chain_id == chain_id && b.block_number >= from
}

/// The block hashes of a chain below a block.
pub open spec fn hashes_below(chain_id: i64, below: i64) -> spec_fn(BlockHashView) -> bool {
    |b: BlockHashView| b.chain_id == chain_id && b.block_number < below
}

/// The checkpoint of a chain.
pub open spec fn state_of_chain(chain_id: i64) -> spec_fn(IndexerStateView) -> bool {
    |s: IndexerStateView| s.chain_id == chain_id
}

/// What the store holds.
pub struct StoreView {
    pub transfers: Seq<TransferView>,
    pub defi_events: Seq<DefiEventView>,
    pub block_hashes: Seq<BlockHashView>,
    pub indexer_state: Seq<IndexerStateView>,
    pub graph_edges: Seq<EdgeView>,
    pub wallet_first_seen: Seq<NewWalletEventView>,
}

/// No natural key occurs twice in any table.
pub open spec fn store_ok(s: StoreView) -> bool {
    &&& keys_unique(s.transfers, transfer_key_of())
    &&& keys_unique(s.defi_events, event_key_of())
    &&& keys_unique(s.block_hashes, block_key_of())
    &&& keys_unique(s.indexer_state, chain_of())
    &&& keys_unique(s.wallet_first_seen, wallet_of())
}

/// The store after a rollback of a chain to the fork block: without the
/// chain's transfers, DeFi events and block hashes at or above it, and with
/// the checkpoint before it.
pub open spec fn rolled_back(s: StoreView, chain_id: i64, fork_block: u64) -> StoreView {
    let from = clamp_i64(fork_block);
    let state = row_with(s.indexer_state, chain_of(), chain_id);
    StoreView {
        transfers: without(s.transfers, transfers_from(chain_id, from)),
        defi_events: without(s.defi_events, events_from(chain_id, from)),
        block_hashes: without(s.block_hashes, hashes_from(chain_id, from)),
        indexer_state: match state {
            None => s.indexer_state,
            Some(st) => match checkpoint_after(Some(st.last_indexed_block), fork_block) {
                Some(c) => if c == st.last_indexed_block {
                    s.indexer_state
                } else {
                    upserted(
                        s.indexer_state,
                        chain_of(),
                        IndexerStateView {
                            chain_id,
                            last_indexed_block: c,
                            last_block_hash: None,
                        },
                    )
                },
                None => without(s.indexer_state, state_of_chain(chain_id)),
            },
        },
        graph_edges: s.graph_edges,
        wallet_first_seen: s.wallet_first_seen,
    }
}

/// After a rollback of a chain to the fork block `fork_block`, no transfer,
/// DeFi event or block hash of the chain at or above that block remains,
/// and the chain's checkpoint, if it has one, lies before the block. No
/// natural key occurs twice afterwards where none did before.
pub proof fn lemma_rollback_leaves_nothing_above(s: StoreView, chain_id: i64, fork_block: u64)
    ensures
        ({
            let r = rolled_back(s, chain_id, fork_block);
            let from = clamp_i64(fork_block);
            &&& forall|i: int|
                0 <= i < r.transfers.len() ==> !((#[trigger] r.transfers[i]).chain_id == chain_id
                    && r.transfers[i].block_number >= from)
            &&& forall|i: int|
                0 <= i < r.defi_events.len() ==> !((#[trigger] r.defi_events[i]).chain_id
                    == chain_id && r.defi_events[i].block_number >= from)
            &&& forall|i: int|
                0 <= i < r.block_hashes.len() ==> !((#[trigger] r.block_hashes[i]).chain_id
                    == chain_id && r.block_hashes[i].block_number >= from)
            &&& forall|i: int|
                0 <= i < r.indexer_state.len() && (#[trigger] r.indexer_state[i]).chain_id
                    == chain_id && keys_unique(s.indexer_state, chain_of())
                    ==> r.indexer_state[i].last_indexed_block < fork_block
            &&& store_ok(s) ==> store_ok(r)
        }),
{
    let r = rolled_back(s, chain_id, fork_block);
    let from = clamp_i64(fork_block);
    lemma_without(s.transfers, transfers_from(chain_id, from));
    lemma_without(s.defi_events, events_from(chain_id, from));
    lemma_without(s.block_hashes, hashes_from(chain_id, from));
    lemma_without(s.indexer_state, state_of_chain(chain_id));
    if store_ok(s) {
        lemma_without_unique(s.transfers, transfers_from(chain_id, from), transfer_key_of());
        lemma_without_unique(s.defi_events, events_from(chain_id, from), event_key_of());
        lemma_without_unique(s.block_hashes, hashes_from(chain_id, from), block_key_of());
        lemma_without_unique(s.indexer_state, state_of_chain(chain_id), chain_of());
    }
    let idx = key_index(s.indexer_state, chain_of(), chain_id);
    crate::db::rules::lemma_key_index(s.indexer_state, chain_of(), chain_id);
    match row_with(s.indexer_state, chain_of(), chain_id) {
        None => {
            assert forall|i: int|
                0 <= i < r.indexer_state.len() implies (#[trigger] r.indexer_state[i]).chain_id
                != chain_id by {
                assert(chain_of()(s.indexer_state[i]) != chain_id);
            }
        },
        Some(st) => {
            match checkpoint_after(Some(st.last_indexed_block), fork_block) {
                Some(c) => {
                    let row = IndexerStateView {
                        chain_id,
                        last_indexed_block: c,
                        last_block_hash: None,
                    };
                    lemma_upserted(s.indexer_state, chain_of(), row);
                    if keys_unique(s.indexer_state, chain_of()) {
                        assert forall|i: int|
                            0 <= i < r.indexer_state.len() && (
                            #[trigger] r.indexer_state[i]).chain_id
                                == chain_id implies r.indexer_state[i].last_indexed_block
                            < fork_block by {
                            if i != idx {
                                assert(chain_of()(s.indexer_state[i]) == chain_id);
                                assert(chain_of()(s.indexer_state[idx]) == chain_id);
                                if i < idx {
                                } else {
                                    assert(chain_of()(s.indexer_state[idx]) != chain_of()(
                                        s.indexer_state[i],
                                    ));
                                }
                            }
                        }
                    }
                },
                None => {
                    assert forall|i: int|
                        0 <= i < r.indexer_state.len() implies (
                    #[trigger] r.indexer_state[i]).chain_id != chain_id by {
                        assert(!state_of_chain(chain_id)(r.indexer_state[i]));
                    }
                },
            }
        },
    }
}

/// The views of a run of block hashes.
pub open spec fn hashes_view(rows: Seq<BlockHashRow>) -> Seq<BlockHashView> {
    rows.map_values(|r: BlockHashRow| r@)
}

/// The views of a run of checkpoints.
pub open spec fn states_view(rows: Seq<IndexerState>) -> Seq<IndexerStateView> {
    rows.map_values(|r: IndexerState| r@)
}

/// A store in memory.
#[derive(Debug)]
pub struct MemoryStore {
    pub transfers: Vec<StablecoinTransfer>,
    pub defi_events: Vec<DefiEvent>,
    pub block_hashes: Vec<BlockHashRow>,
    pub indexer_state: Vec<IndexerState>,
    pub graph_edges: Vec<AggregatedEdge>,
    pub wallet_first_seen: Vec<NewWalletEvent>,
}

impl View for MemoryStore {
    type V = StoreView;

    open spec fn view(&self) -> StoreView {
        StoreView {
            transfers: transfers_view(self.transfers@),
            defi_events: events_view(self.defi_events@),
            block_hashes: hashes_view(self.block_hashes@),
            indexer_state: states_view(self.indexer_state@),
            graph_edges: edges_view(self.graph_edges@),
            wallet_first_seen: wallet_events_view(self.wallet_first_seen@),
        }
    }
}

fn copy_state(s: &IndexerState) -> (copy: IndexerState)
    ensures
        copy@ == s@,
{
    IndexerState {
        chain_id: s.chain_id,
        last_indexed_block: s.last_indexed_block,
        last_block_hash: match &s.last_block_hash {
            Some(h) => Some(copy_bytes(h.as_slice())),
            None => None,
        },
    }
}

fn copy_hash_row(r: &BlockHashRow) -> (copy: BlockHashRow)
    ensures
        copy@ == r@,
{
    BlockHashRow {
        chain_id: r.chain_id,
        block_number: r.block_number,
        block_hash: copy_bytes(r.block_hash.as_slice()),
        parent_hash: copy_bytes(r.parent_hash.as_slice()),
    }
}

fn span(before: usize, after: usize) -> (n: u64)
    ensures
        n == if before >= after {
            before - after
        } else {
            after - before
        },
{
    if before >= after {
        (before - after) as u64
    } else {
        (after - before) as u64
    }
}

impl MemoryStore {
    /// An empty store.
    pub fn new() -> (store: Self)
        ensures
            store@.transfers.len() == 0,
            store@.defi_events.len() == 0,
            store@.block_hashes.len() == 0,
            store@.indexer_state.len() == 0,
            store@.graph_edges.len() == 0,
            store@.wallet_first_seen.len() == 0,
            store_ok(store@),
    {
        MemoryStore {
            transfers: Vec::new(),
            defi_events: Vec::new(),
            block_hashes: Vec::new(),
            indexer_state: Vec::new(),
            graph_edges: Vec::new(),
            wallet_first_seen: Vec::new(),
        }
    }

    /// Whether a transfer with the natural key is stored.
    pub fn has_transfer(&self, chain_id: i64, tx_hash: &[u8], log_index: i32) -> (found: bool)
        ensures
            found == has_key(self@.transfers, transfer_key_of(), (chain_id, tx_hash@, log_index)),
    {
        let ghost rows = self@.transfers;
        let mut i: usize = 0;
        while i < self.transfers.len()
            invariant
                i <= self.transfers@.len(),
                rows == self@.transfers,
                forall|j: int|
                    0 <= j < i ==> transfer_key_of()(#[trigger] rows[j]) != (
                        chain_id,
                        tx_hash@,
                        log_index,
                    ),
            decreases self.transfers@.len() - i,
        {
            let t = &self.transfers[i];
            if t.chain_id == chain_id && t.log_index == log_index && bytes_eq(
                t.tx_hash.as_slice(),
                tx_hash,
            ) {
                assert(transfer_key_of()(rows[i as int]) == (chain_id, tx_hash@, log_index));
                return true;
            }
            assert(transfer_key_of()(rows[i as int]) != (chain_id, tx_hash@, log_index));
            i += 1;
        }
        false
    }

    /// Inserts a batch of transfers. A transfer whose chain, transaction
    /// hash and log index are stored already is discarded. Returns the
    /// number of rows inserted.
    pub fn insert_transfers_batch(&mut self, transfers: &[StablecoinTransfer]) -> (rows: u64)
        ensures
            final(self)@ == (StoreView {
                transfers: inserted(
                    old(self)@.transfers,
                    transfer_key_of(),
                    transfers_view(transfers@),
                ),
                ..old(self)@
            }),
            rows == final(self)@.transfers.len() - old(self)@.transfers.len(),
            store_ok(old(self)@) ==> store_ok(final(self)@),
    {
        let before = self.transfers.len();
        let ghost batch = transfers_view(transfers@);
        let mut i: usize = 0;
        assert(batch.take(0) =~= Seq::<TransferView>::empty());
        while i < transfers.len()
            invariant
                i <= transfers@.len(),
                batch == transfers_view(transfers@),
                self@ == (StoreView {
                    transfers: inserted(old(self)@.transfers, transfer_key_of(), batch.take(i as int)),
                    ..old(self)@
                }),
            decreases transfers@.len() - i,
        {
            let t = &transfers[i];
            proof {
                let next = batch.take(i + 1);
                assert(next.drop_last() =~= batch.take(i as int));
                assert(next.last() == t@);
            }
            let ghost rows = self@.transfers;
            if !self.has_transfer(t.chain_id, t.tx_hash.as_slice(), t.log_index) {
                self.transfers.push(t.clone());
                assert(self@.transfers =~= rows.push(t@));
            }
            i += 1;
        }
        proof {
            assert(batch.take(transfers@.len() as int) =~= batch);
            lemma_inserted_extends(old(self)@.transfers, transfer_key_of(), batch);
            if store_ok(old(self)@) {
                lemma_inserted_unique(old(self)@.transfers, transfer_key_of(), batch);
            }
        }
        span(before, self.transfers.len())
    }

    /// Deletes the transfers of a chain at or above a block. Returns the
    /// number of rows deleted.
    pub fn delete_transfers_from_block(&mut self, chain_id: i64, from_block: i64) -> (rows: u64)
        ensures
            final(self)@ == (StoreView {
                transfers: without(old(self)@.transfers, transfers_from(chain_id, from_block)),
                ..old(self)@
            }),
            rows == old(self)@.transfers.len() - final(self)@.transfers.len(),
            store_ok(old(self)@) ==> store_ok(final(self)@),
    {
        let before = self.transfers.len();
        let ghost rows = self@.transfers;
        let ghost doomed = transfers_from(chain_id, from_block);
        let mut kept: Vec<StablecoinTransfer> = Vec::new();
        let mut i: usize = 0;
        assert(rows.take(0) =~= Seq::<TransferView>::empty());
        assert(transfers_view(kept@) =~= Seq::<TransferView>::empty());
        while i < self.transfers.len()
            invariant
                i <= self.transfers@.len(),
                rows == self@.transfers,
                self@ == old(self)@,
                doomed == transfers_from(chain_id, from_block),
                transfers_view(kept@) == without(rows.take(i as int), doomed),
            decreases self.transfers@.len() - i,
        {
            let t = &self.transfers[i];
            proof {
                let next = rows.take(i + 1);
                assert(next.drop_last() =~= rows.take(i as int));
                assert(next.last() == t@);
            }
            let ghost so_far = transfers_view(kept@);
            if !(t.chain_id == chain_id && t.block_number >= from_block) {
                kept.push(t.clone());
                assert(transfers_view(kept@) =~= so_far.push(t@));
            }
            i += 1;
        }
        proof {
            assert(rows.take(self.transfers@.len() as int) =~= rows);
            lemma_without(rows, doomed);
            if store_ok(old(self)@) {
                lemma_without_unique(rows, doomed, transfer_key_of());
            }
        }
        let after = kept.len();
        self.transfers = kept;
        span(before, after)
    }

    /// Whether a DeFi event with the natural key is stored.
    pub fn has_defi_event(&self, chain_id: i64, tx_hash: &[u8], log_index: i32) -> (found: bool)
        ensures
            found == has_key(self@.defi_events, event_key_of(), (chain_id, tx_hash@, log_index)),
    {
        let ghost rows = self@.defi_events;
        let mut i: usize = 0;
        while i < self.defi_events.len()
            invariant
                i <= self.defi_events@.len(),
                rows == self@.defi_events,
                forall|j: int|
                    0 <= j < i ==> event_key_of()(#[trigger] rows[j]) != (
                        chain_id,
                        tx_hash@,
                        log_index,
                    ),
            decreases self.defi_events@.len() - i,
        {
            let e = &self.defi_events[i];
            if e.chain_id == chain_id && e.log_index == log_index && bytes_eq(
                e.tx_hash.as_slice(),
                tx_hash,
            ) {
                assert(event_key_of()(rows[i as int]) == (chain_id, tx_hash@, log_index));
                return true;
            }
            assert(event_key_of()(rows[i as int]) != (chain_id, tx_hash@, log_index));
            i += 1;
        }
        false
    }

    /// Inserts a batch of DeFi events. An event whose chain, transaction
    /// hash and log index are stored already is discarded. Returns the
    /// number of rows inserted.
    pub fn insert_defi_events_batch(&mut self, events: &[DefiEvent]) -> (rows: u64)
        ensures
            final(self)@ == (StoreView {
                defi_events: inserted(old(self)@.defi_events, event_key_of(), events_view(events@)),
                ..old(self)@
            }),
            rows == final(self)@.defi_events.len() - old(self)@.defi_events.len(),
            store_ok(old(self)@) ==> store_ok(final(self)@),
    {
        let before = self.defi_events.len();
        let ghost batch = events_view(events@);
        let mut i: usize = 0;
        assert(batch.take(0) =~= Seq::<DefiEventView>::empty());
        while i < events.len()
            invariant
                i <= events@.len(),
                batch == events_view(events@),
                self@ == (StoreView {
                    defi_events: inserted(old(self)@.defi_events, event_key_of(), batch.take(i as int)),
                    ..old(self)@
                }),
            decreases events@.len() - i,
        {
            let e = &events[i];
            proof {
                let next = batch.take(i + 1);
                assert(next.drop_last() =~= batch.take(i as int));
                assert(next.last() == e@);
            }
            let ghost rows = self@.defi_events;
            if !self.has_defi_event(e.chain_id, e.tx_hash.as_slice(), e.log_index) {
                self.defi_events.push(e.clone());
                assert(self@.defi_events =~= rows.push(e@));
            }
            i += 1;
        }
        proof {
            assert(batch.take(events@.len() as int) =~= batch);
            lemma_inserted_extends(old(self)@.defi_events, event_key_of(), batch);
            if store_ok(old(self)@) {
                lemma_inserted_unique(old(self)@.defi_events, event_key_of(), batch);
            }
        }
        span(before, self.defi_events.len())
    }

    /// Deletes the DeFi events of a chain at or above a block. Returns the
    /// number of rows deleted.
    pub fn delete_defi_events_from_block(&mut self, chain_id: i64, from_block: i64) -> (rows: u64)
        ensures
            final(self)@ == (StoreView {
                defi_events: without(old(self)@.defi_events, events_from(chain_id, from_block)),
                ..old(self)@
            }),
            rows == old(self)@.defi_events.len() - final(self)@.defi_events.len(),
            store_ok(old(self)@) ==> store_ok(final(self)@),
    {
        let before = self.defi_events.len();
        let ghost rows = self@.defi_events;
        let ghost doomed = events_from(chain_id, from_block);
        let mut kept: Vec<DefiEvent> = Vec::new();
        let mut i: usize = 0;
        assert(rows.take(0) =~= Seq::<DefiEventView>::empty());
        assert(events_view(kept@) =~= Seq::<DefiEventView>::empty());
        while i < self.defi_events.len()
            invariant
                i <= self.defi_events@.len(),
                rows == self@.defi_events,
                self@ == old(self)@,
                doomed == events_from(chain_id, from_block),
                events_view(kept@) == without(rows.take(i as int), doomed),
            decreases self.defi_events@.len() - i,
        {
            let e = &self.defi_events[i];
            proof {
                let next = rows.take(i + 1);
                assert(next.drop_last() =~= rows.take(i as int));
                assert(next.last() == e@);
            }
            let ghost so_far = events_view(kept@);
            if !(e.chain_id == chain_id && e.block_number >= from_block) {
                kept.push(e.clone());
                assert(events_view(kept@) =~= so_far.push(e@));
            }
            i += 1;
        }
        proof {
            assert(rows.take(self.defi_events@.len() as int) =~= rows);
            lemma_without(rows, doomed);
            if store_ok(old(self)@) {
                lemma_without_unique(rows, doomed, event_key_of());
            }
        }
        let after = kept.len();
        self.defi_events = kept;
        span(before, after)
    }

    fn hash_position(&self, chain_id: i64, block_number: i64) -> (i: usize)
        ensures
            i == key_index(self@.block_hashes, block_key_of(), (chain_id, block_number)),
            i <= self.block_hashes@.len(),
    {
        let ghost rows = self@.block_hashes;
        let mut i: usize = 0;
        while i < self.block_hashes.len()
            invariant
                i <= self.block_hashes@.len(),
                rows == self@.block_hashes,
                forall|j: int|
                    0 <= j < i ==> block_key_of()(#[trigger] rows[j]) != (chain_id, block_number),
            decreases self.block_hashes@.len() - i,
        {
            let r = &self.block_hashes[i];
            if r.chain_id == chain_id && r.block_number == block_number {
                proof {
                    assert(block_key_of()(rows[i as int]) == (chain_id, block_number));
                    lemma_key_index_is(rows, block_key_of(), (chain_id, block_number), i as int);
                }
                return i;
            }
            assert(block_key_of()(rows[i as int]) != (chain_id, block_number));
            i += 1;
        }
        proof {
            lemma_key_index_is(rows, block_key_of(), (chain_id, block_number), i as int);
        }
        i
    }

    /// Stores the hash of a block, in the place of the one stored for the
    /// same chain and block number.
    pub fn upsert_block_hash(
        &mut self,
        chain_id: i64,
        block_number: i64,
        block_hash: &[u8],
        parent_hash: &[u8],
    )
        ensures
            final(self)@ == (StoreView {
                block_hashes: upserted(
                    old(self)@.block_hashes,
                    block_key_of(),
                    BlockHashView {
                        chain_id,
                        block_number,
                        block_hash: block_hash@,
                        parent_hash: parent_hash@,
                    },
                ),
                ..old(self)@
            }),
            store_ok(old(self)@) ==> store_ok(final(self)@),
    {
        let row = BlockHashRow {
            chain_id,
            block_number,
            block_hash: copy_bytes(block_hash),
            parent_hash: copy_bytes(parent_hash),
        };
        let ghost rows = self@.block_hashes;
        let ghost rv = row@;
        proof {
            lemma_upserted(rows, block_key_of(), rv);
        }
        let i = self.hash_position(chain_id, block_number);
        if i < self.block_hashes.len() {
            self.block_hashes[i] = row;
            assert(self@.block_hashes =~= rows.update(i as int, rv));
        } else {
            self.block_hashes.push(row);
            assert(self@.block_hashes =~= rows.push(rv));
        }
    }

    /// The stored hash of a block, if there is one.
    pub fn get_block_hash(&self, chain_id: i64, block_number: i64) -> (hash: Option<Vec<u8>>)
        ensures
            match row_with(self@.block_hashes, block_key_of(), (chain_id, block_number)) {
                Some(row) => hash is Some && hash.unwrap()@ == row.block_hash,
                None => hash is None,
            },
    {
        let i = self.hash_position(chain_id, block_number);
        if i < self.block_hashes.len() {
            assert(self@.block_hashes[i as int] == self.block_hashes@[i as int]@);
            Some(copy_bytes(self.block_hashes[i].block_hash.as_slice()))
        } else {
            None
        }
    }

    fn delete_hashes(&mut self, chain_id: i64, bound: i64, above: bool)
        ensures
            final(self)@ == (StoreView {
                block_hashes: without(
                    old(self)@.block_hashes,
                    if above {
                        hashes_from(chain_id, bound)
                    } else {
                        hashes_below(chain_id, bound)
                    },
                ),
                ..old(self)@
            }),
            store_ok(old(self)@) ==> store_ok(final(self)@),
    {
        let ghost rows = self@.block_hashes;
        let ghost doomed = if above {
            hashes_from(chain_id, bound)
        } else {
            hashes_below(chain_id, bound)
        };
        let mut kept: Vec<BlockHashRow> = Vec::new();
        let mut i: usize = 0;
        assert(rows.take(0) =~= Seq::<BlockHashView>::empty());
        assert(hashes_view(kept@) =~= Seq::<BlockHashView>::empty());
        while i < self.block_hashes.len()
            invariant
                i <= self.block_hashes@.len(),
                rows == self@.block_hashes,
                self@ == old(self)@,
                doomed == if above {
                    hashes_from(chain_id, bound)
                } else {
                    hashes_below(chain_id, bound)
                },
                hashes_view(kept@) == without(rows.take(i as int), doomed),
            decreases self.block_hashes@.len() - i,
        {
            let r = &self.block_hashes[i];
            proof {
                let next = rows.take(i + 1);
                assert(next.drop_last() =~= rows.take(i as int));
                assert(next.last() == r@);
            }
            let ghost so_far = hashes_view(kept@);
            let gone = r.chain_id == chain_id && if above {
                r.block_number >= bound
            } else {
                r.block_number < bound
            };
            assert(gone == doomed(r@));
            if !gone {
                kept.push(copy_hash_row(r));
                assert(hashes_view(kept@) =~= so_far.push(r@));
            }
            i += 1;
        }
        proof {
            assert(rows.take(self.block_hashes@.len() as int) =~= rows);
            if store_ok(old(self)@) {
                lemma_without_unique(rows, doomed, block_key_of());
            }
        }
        self.block_hashes = kept;
    }

    /// Deletes the block hashes of a chain at or above a block.
    pub fn delete_block_hashes_from(&mut self, chain_id: i64, from_block: i64)
        ensures
            final(self)@ == (StoreView {
                block_hashes: without(old(self)@.block_hashes, hashes_from(chain_id, from_block)),
                ..old(self)@
            }),
            store_ok(old(self)@) ==> store_ok(final(self)@),
    {
        self.delete_hashes(chain_id, from_block, true)
    }

    /// Deletes the block hashes of a chain below a block.
    pub fn prune_block_hashes(&mut self, chain_id: i64, below_block: i64)
        ensures
            final(self)@ == (StoreView {
                block_hashes: without(old(self)@.block_hashes, hashes_below(chain_id, below_block)),
                ..old(self)@
            }),
            store_ok(old(self)@) ==> store_ok(final(self)@),
    {
        self.delete_hashes(chain_id, below_block, false)
    }

    fn state_position(&self, chain_id: i64) -> (i: usize)
        ensures
            i == key_index(self@.indexer_state, chain_of(), chain_id),
            i <= self.indexer_state@.len(),
    {
        let ghost rows = self@.indexer_state;
        let mut i: usize = 0;
        while i < self.indexer_state.len()
            invariant
                i <= self.indexer_state@.len(),
                rows == self@.indexer_state,
                forall|j: int| 0 <= j < i ==> chain_of()(#[trigger] rows[j]) != chain_id,
            decreases self.indexer_state@.len() - i,
        {
            if self.indexer_state[i].chain_id == chain_id {
                proof {
                    assert(chain_of()(rows[i as int]) == chain_id);
                    lemma_key_index_is(rows, chain_of(), chain_id, i as int);
                }
                return i;
            }
            assert(chain_of()(rows[i as int]) != chain_id);
            i += 1;
        }
        proof {
            lemma_key_index_is(rows, chain_of(), chain_id, i as int);
        }
        i
    }

    /// The last indexed block of a chain; nothing where it was never
    /// indexed.
    pub fn get_last_indexed_block(&self, chain_id: i64) -> (block: Option<u64>)
        ensures
            match row_with(self@.indexer_state, chain_of(), chain_id) {
                Some(row) => block == Some(row.last_indexed_block),
                None => block is None,
            },
    {
        let i = self.state_position(chain_id);
        if i < self.indexer_state.len() {
            assert(self@.indexer_state[i as int] == self.indexer_state@[i as int]@);
            Some(self.indexer_state[i].last_indexed_block)
        } else {
            None
        }
    }

    /// Puts the checkpoint of a chain at a block.
    pub fn upsert_indexer_state(&mut self, chain_id: i64, block_number: u64, block_hash: Option<&[u8]>)
        ensures
            final(self)@ == (StoreView {
                indexer_state: upserted(
                    old(self)@.indexer_state,
                    chain_of(),
                    IndexerStateView {
                        chain_id,
                        last_indexed_block: block_number,
                        last_block_hash: match block_hash {
                            Some(h) => Some(h@),
                            None => None,
                        },
                    },
                ),
                ..old(self)@
            }),
            store_ok(old(self)@) ==> store_ok(final(self)@),
    {
        let row = IndexerState {
            chain_id,
            last_indexed_block: block_number,
            last_block_hash: match block_hash {
                Some(h) => Some(copy_bytes(h)),
                None => None,
            },
        };
        let ghost rows = self@.indexer_state;
        let ghost rv = row@;
        proof {
            lemma_upserted(rows, chain_of(), rv);
        }
        let i = self.state_position(chain_id);
        if i < self.indexer_state.len() {
            self.indexer_state[i] = row;
            assert(self@.indexer_state =~= rows.update(i as int, rv));
        } else {
            self.indexer_state.push(row);
            assert(self@.indexer_state =~= rows.push(rv));
        }
    }

    fn delete_state(&mut self, chain_id: i64)
        ensures
            final(self)@ == (StoreView {
                indexer_state: without(old(self)@.indexer_state, state_of_chain(chain_id)),
                ..old(self)@
            }),
    {
        let ghost rows = self@.indexer_state;
        let ghost doomed = state_of_chain(chain_id);
        let mut kept: Vec<IndexerState> = Vec::new();
        let mut i: usize = 0;
        assert(rows.take(0) =~= Seq::<IndexerStateView>::empty());
        assert(states_view(kept@) =~= Seq::<IndexerStateView>::empty());
        while i < self.indexer_state.len()
            invariant
                i <= self.indexer_state@.len(),
                rows == self@.indexer_state,
                self@ == old(self)@,
                doomed == state_of_chain(chain_id),
                states_view(kept@) == without(rows.take(i as int), doomed),
            decreases self.indexer_state@.len() - i,
        {
            let r = &self.indexer_state[i];
            proof {
                let next = rows.take(i + 1);
                assert(next.drop_last() =~= rows.take(i as int));
                assert(next.last() == r@);
            }
            let ghost so_far = states_view(kept@);
            if r.chain_id != chain_id {
                kept.push(copy_state(r));
                assert(states_view(kept@) =~= so_far.push(r@));
            }
            i += 1;
        }
        assert(rows.take(self.indexer_state@.len() as int) =~= rows);
        self.indexer_state = kept;
    }

    /// Rolls a chain back to a fork block: deletes its transfers, DeFi
    /// events and block hashes at or above the block and puts its
    /// checkpoint before the block.
    pub fn rollback(&mut self, chain_id: i64, fork_block: u64)
        ensures
            final(self)@ == rolled_back(old(self)@, chain_id, fork_block),
            store_ok(old(self)@) ==> store_ok(final(self)@),
    {
        proof {
            lemma_rollback_leaves_nothing_above(self@, chain_id, fork_block);
        }
        let from = to_i64(fork_block);
        self.delete_transfers_from_block(chain_id, from);
        self.delete_defi_events_from_block(chain_id, from);
        self.delete_block_hashes_from(chain_id, from);
        match self.get_last_indexed_block(chain_id) {
            None => {},
            Some(last) => match rollback_checkpoint(Some(last), fork_block) {
                Some(c) => {
                    if c != last {
                        self.upsert_indexer_state(chain_id, c, None);
                    }
                },
                None => {
                    self.delete_state(chain_id);
                },
            },
        }
    }
}

/// Persisting the same batch of transfers twice inserts no row the second
/// time and leaves the store as the first insert left it.
pub proof fn lemma_same_batch_twice(rows: Seq<TransferView>, batch: Seq<TransferView>)
    ensures
        inserted(inserted(rows, transfer_key_of(), batch), transfer_key_of(), batch) == inserted(
            rows,
            transfer_key_of(),
            batch,
        ),
{
    crate::db::rules::lemma_insert_twice(rows, transfer_key_of(), batch);
}

/// The store after a block is indexed: its transfers and DeFi events
/// inserted, its hash stored, old hashes of its chain pruned where a bound
/// is given, and the checkpoint of its chain put at it.
pub open spec fn block_indexed(
    s: StoreView,
    transfers: Seq<TransferView>,
    events: Seq<DefiEventView>,
    hash: BlockHashView,
    prune_below: Option<i64>,
    state: IndexerStateView,
) -> StoreView {
    let stored = upserted(s.block_hashes, block_key_of(), hash);
    StoreView {
        transfers: inserted(s.transfers, transfer_key_of(), transfers),
        defi_events: inserted(s.defi_events, event_key_of(), events),
        block_hashes: match prune_below {
            Some(b) => without(stored, hashes_below(hash.chain_id, b)),
            None => stored,
        },
        indexer_state: upserted(s.indexer_state, chain_of(), state),
        graph_edges: s.graph_edges,
        wallet_first_seen: s.wallet_first_seen,
    }
}

/// Upserting a row and removing some rows, done a second time, changes
/// nothing.
proof fn lemma_upsert_remove_twice<V, K>(
    rows: Seq<V>,
    key_of: spec_fn(V) -> K,
    row: V,
    doomed: spec_fn(V) -> bool,
)
    requires
        keys_unique(rows, key_of),
    ensures
        without(upserted(without(upserted(rows, key_of, row), doomed), key_of, row), doomed)
            == without(upserted(rows, key_of, row), doomed),
{
    let stored = upserted(rows, key_of, row);
    let left = without(stored, doomed);
    lemma_upserted(rows, key_of, row);
    lemma_without(stored, doomed);
    lemma_without_unique(stored, doomed, key_of);
    crate::db::rules::lemma_key_index(stored, key_of, key_of(row));
    crate::db::rules::lemma_key_index(left, key_of, key_of(row));
    let at = key_index(stored, key_of, key_of(row));
    assert(stored[at] == row);
    let i = key_index(left, key_of, key_of(row));
    if doomed(row) {
        if i < left.len() {
            assert(stored.contains(left[i]));
            let n = choose|n: int| 0 <= n < stored.len() && stored[n] == left[i];
            if n != at {
                if n < at {
                    assert(key_of(stored[n]) != key_of(stored[at]));
                } else {
                    assert(key_of(stored[at]) != key_of(stored[n]));
                }
            }
            assert(false);
        }
        assert(upserted(left, key_of, row) == left.push(row));
        assert(left.push(row).drop_last() =~= left);
        crate::db::rules::lemma_without_twice(stored, doomed);
    } else {
        assert(left.contains(stored[at]));
        let m = choose|m: int| 0 <= m < left.len() && left[m] == row;
        if m != i {
            if i < m {
                assert(key_of(left[i]) != key_of(left[m]));
            }
        }
        assert(left.update(i, row) =~= left);
        crate::db::rules::lemma_without_twice(stored, doomed);
    }
}

/// Replaying a block leaves the store as the first pass left it: every
/// write of the pass is idempotent.
pub proof fn lemma_replay_changes_nothing(
    s: StoreView,
    transfers: Seq<TransferView>,
    events: Seq<DefiEventView>,
    hash: BlockHashView,
    prune_below: Option<i64>,
    state: IndexerStateView,
)
    requires
        store_ok(s),
    ensures
        block_indexed(
            block_indexed(s, transfers, events, hash, prune_below, state),
            transfers,
            events,
            hash,
            prune_below,
            state,
        ) == block_indexed(s, transfers, events, hash, prune_below, state),
        store_ok(block_indexed(s, transfers, events, hash, prune_below, state)),
{
    crate::db::rules::lemma_insert_twice(s.transfers, transfer_key_of(), transfers);
    crate::db::rules::lemma_insert_twice(s.defi_events, event_key_of(), events);
    lemma_inserted_unique(s.transfers, transfer_key_of(), transfers);
    lemma_inserted_unique(s.defi_events, event_key_of(), events);
    lemma_upserted(s.indexer_state, chain_of(), state);
    lemma_upserted(s.block_hashes, block_key_of(), hash);
    match prune_below {
        Some(b) => {
            lemma_upsert_remove_twice(
                s.block_hashes,
                block_key_of(),
                hash,
                hashes_below(hash.chain_id, b),
            );
            lemma_without_unique(
                upserted(s.block_hashes, block_key_of(), hash),
                hashes_below(hash.chain_id, b),
                block_key_of(),
            );
        },
        None => {},
    }
}

/// Whether every count fits the store while the edges of a batch are
/// upserted one after the other.
pub open spec fn upsert_fits(edges: Seq<EdgeView>, deltas: Seq<EdgeView>) -> bool
    decreases deltas.len(),
{
    if deltas.len() == 0 {
        true
    } else {
        let before = edges_upserted(edges, deltas.drop_last());
        let i = edge_index(before, edge_key(deltas.last()));
        upsert_fits(edges, deltas.drop_last()) && (i < before.len() ==> before[i].transfer_count
            + deltas.last().transfer_count <= u64::MAX)
    }
}

/// Where the upsert of a batch fits, the upsert of each of its beginnings
/// fits.
proof fn lemma_upsert_fits_prefix(edges: Seq<EdgeView>, deltas: Seq<EdgeView>, n: int)
    requires
        0 <= n <= deltas.len(),
        upsert_fits(edges, deltas),
    ensures
        upsert_fits(edges, deltas.take(n)),
    decreases deltas.len(),
{
    if n == deltas.len() {
        assert(deltas.take(n) =~= deltas);
    } else {
        lemma_upsert_fits_prefix(edges, deltas.drop_last(), n);
        assert(deltas.drop_last().take(n) =~= deltas.take(n));
    }
}

fn copy_edge(e: &AggregatedEdge) -> (copy: AggregatedEdge)
    ensures
        copy@ == e@,
{
    AggregatedEdge {
        source_address: copy_bytes(e.source_address.as_slice()),
        dest_address: copy_bytes(e.dest_address.as_slice()),
        chain_id: e.chain_id,
        transfer_count: e.transfer_count,
        total_amount: e.total_amount.clone(),
        first_seen: e.first_seen,
        last_seen: e.last_seen,
    }
}

fn copy_edges(edges: &Vec<AggregatedEdge>) -> (copy: Vec<AggregatedEdge>)
    ensures
        edges_view(copy@) == edges_view(edges@),
{
    let mut copy: Vec<AggregatedEdge> = Vec::new();
    let mut i: usize = 0;
    while i < edges.len()
        invariant
            i <= edges@.len(),
            copy@.len() == i,
            forall|j: int| 0 <= j < i ==> copy@[j]@ == edges@[j]@,
        decreases edges@.len() - i,
    {
        copy.push(copy_edge(&edges[i]));
        i += 1;
    }
    assert(edges_view(copy@) =~= edges_view(edges@));
    copy
}

fn stored_edge_position(edges: &Vec<AggregatedEdge>, e: &AggregatedEdge) -> (i: usize)
    ensures
        i == edge_index(edges_view(edges@), edge_key(e@)),
        i <= edges@.len(),
{
    let ghost views = edges_view(edges@);
    let ghost key = edge_key(e@);
    let mut i: usize = 0;
    while i < edges.len()
        invariant
            i <= edges@.len(),
            views == edges_view(edges@),
            key == edge_key(e@),
            forall|j: int| 0 <= j < i ==> edge_key(#[trigger] views[j]) != key,
        decreases edges@.len() - i,
    {
        let s = &edges[i];
        if s.chain_id == e.chain_id && bytes_eq(
            s.source_address.as_slice(),
            e.source_address.as_slice(),
        ) && bytes_eq(s.dest_address.as_slice(), e.dest_address.as_slice()) {
            proof {
                assert(edge_key(views[i as int]) == key);
                lemma_edge_index_is(views, key, i as int);
            }
            return i;
        }
        assert(edge_key(views[i as int]) != key);
        i += 1;
    }
    proof {
        lemma_edge_index_is(views, key, i as int);
    }
    i
}

fn contains_chain(chains: &Vec<i64>, chain_id: i64) -> (found: bool)
    ensures
        found == chains@.contains(chain_id),
{
    let mut i: usize = 0;
    while i < chains.len()
        invariant
            i <= chains@.len(),
            forall|j: int| 0 <= j < i ==> chains@[j] != chain_id,
        decreases chains@.len() - i,
    {
        if chains[i] == chain_id {
            return true;
        }
        i += 1;
    }
    false
}

/// The transfers of `rows` that `sender` sent on `chain_id` after the time
/// `after`, which may lie before any time a row can have.
pub open spec fn sent_after(rows: Seq<TransferView>, sender: Seq<u8>, chain_id: i64, after: int) -> nat
    decreases rows.len(),
{
    if rows.len() == 0 {
        0
    } else {
        sent_after(rows.drop_last(), sender, chain_id, after) + if rows.last().from_address
            == sender && rows.last().chain_id == chain_id && rows.last().block_timestamp > after {
            1nat
        } else {
            0nat
        }
    }
}

/// The chains on which `wallet` sent or received after the time `after`,
/// each once.
pub open spec fn chains_after(rows: Seq<TransferView>, wallet: Seq<u8>, after: int) -> Seq<i64>
    decreases rows.len(),
{
    if rows.len() == 0 {
        Seq::empty()
    } else {
        let before = chains_after(rows.drop_last(), wallet, after);
        let r = rows.last();
        if (r.from_address == wallet || r.to_address == wallet) && r.block_timestamp > after
            && !before.contains(r.chain_id) {
            before.push(r.chain_id)
        } else {
            before
        }
    }
}

impl MemoryStore {
    /// Upserts the edges of a batch into the stored graph. An edge is
    /// merged into the stored edge with its source, destination and chain:
    /// the counts and the totals add up, the later last time stays, and the
    /// first time is never overwritten. Returns the number of edges written, or
    /// nothing, with the store unchanged, where a count would not fit.
    pub fn update_edges(&mut self, edges: &[AggregatedEdge]) -> (rows: Option<u64>)
        ensures
            match rows {
                Some(n) => upsert_fits(old(self)@.graph_edges, edges_view(edges@)) && final(self)@
                    == (StoreView {
                    graph_edges: edges_upserted(old(self)@.graph_edges, edges_view(edges@)),
                    ..old(self)@
                }) && n == edges@.len(),
                None => !upsert_fits(old(self)@.graph_edges, edges_view(edges@)) && final(self)@
                    == old(self)@,
            },
    {
        let ghost stored = self@.graph_edges;
        let ghost deltas = edges_view(edges@);
        let mut work = copy_edges(&self.graph_edges);
        let mut i: usize = 0;
        assert(deltas.take(0) =~= Seq::<EdgeView>::empty());
        while i < edges.len()
            invariant
                i <= edges@.len(),
                self@ == old(self)@,
                stored == old(self)@.graph_edges,
                deltas == edges_view(edges@),
                upsert_fits(stored, deltas.take(i as int)),
                edges_view(work@) == edges_upserted(stored, deltas.take(i as int)),
            decreases edges@.len() - i,
        {
            let d = &edges[i];
            proof {
                let next = deltas.take(i + 1);
                assert(next.drop_last() =~= deltas.take(i as int));
                assert(next.last() == d@);
            }
            let ghost before = edges_view(work@);
            let at = stored_edge_position(&work, d);
            if at < work.len() {
                let e = &work[at];
                assert(before[at as int] == e@);
                if e.transfer_count > u64::MAX - d.transfer_count {
                    proof {
                        assert(!upsert_fits(stored, deltas.take(i + 1)));
                        if upsert_fits(stored, deltas) {
                            lemma_upsert_fits_prefix(stored, deltas, i + 1);
                        }
                    }
                    return None;
                }
                let merged = AggregatedEdge {
                    source_address: copy_bytes(e.source_address.as_slice()),
                    dest_address: copy_bytes(e.dest_address.as_slice()),
                    chain_id: e.chain_id,
                    transfer_count: e.transfer_count + d.transfer_count,
                    total_amount: e.total_amount.plus(&d.total_amount),
                    first_seen: e.first_seen,
                    last_seen: if d.last_seen > e.last_seen {
                        d.last_seen
                    } else {
                        e.last_seen
                    },
                };
                assert(merged@ == merged_edge(before[at as int], d@));
                let ghost mv = merged@;
                work[at] = merged;
                assert(edges_view(work@) =~= before.update(at as int, mv));
            } else {
                work.push(copy_edge(d));
                assert(edges_view(work@) =~= before.push(d@));
            }
            i += 1;
        }
        assert(deltas.take(edges@.len() as int) =~= deltas);
        self.graph_edges = work;
        Some(edges.len() as u64)
    }

    /// The number of stored transfers that the sender of `transfer` sent on
    /// its chain within `window_secs` before the time of `transfer`: later
    /// than that time less the window.
    pub fn count_recent_transfers(&self, transfer: &StablecoinTransfer, window_secs: u64) -> (count:
        u64)
        ensures
            count == sent_after(
                self@.transfers,
                transfer@.from_address,
                transfer@.chain_id,
                transfer@.block_timestamp - window_secs,
            ),
    {
        let ghost rows = self@.transfers;
        let after: i128 = (transfer.block_timestamp as i128) - (window_secs as i128);
        let mut count: u64 = 0;
        let mut i: usize = 0;
        assert(rows.take(0) =~= Seq::<TransferView>::empty());
        while i < self.transfers.len()
            invariant
                i <= self.transfers@.len(),
                rows == self@.transfers,
                after == transfer@.block_timestamp - window_secs,
                count <= i,
                count == sent_after(
                    rows.take(i as int),
                    transfer@.from_address,
                    transfer@.chain_id,
                    after as int,
                ),
            decreases self.transfers@.len() - i,
        {
            let r = &self.transfers[i];
            proof {
                let next = rows.take(i + 1);
                assert(next.drop_last() =~= rows.take(i as int));
                assert(next.last() == r@);
            }
            if r.chain_id == transfer.chain_id && (r.block_timestamp as i128) > after && bytes_eq(
                r.from_address.as_slice(),
                transfer.from_address.as_slice(),
            ) {
                count += 1;
            }
            i += 1;
        }
        assert(rows.take(self.transfers@.len() as int) =~= rows);
        count
    }

    /// The number of chains on which the sender of `transfer` sent or
    /// received within `window_secs` before the time of `transfer`.
    pub fn count_active_chains(&self, transfer: &StablecoinTransfer, window_secs: u64) -> (count: u64)
        ensures
            count == chains_after(
                self@.transfers,
                transfer@.from_address,
                transfer@.block_timestamp - window_secs,
            ).len(),
    {
        let ghost rows = self@.transfers;
        let after: i128 = (transfer.block_timestamp as i128) - (window_secs as i128);
        let mut chains: Vec<i64> = Vec::new();
        let mut i: usize = 0;
        assert(rows.take(0) =~= Seq::<TransferView>::empty());
        while i < self.transfers.len()
            invariant
                i <= self.transfers@.len(),
                rows == self@.transfers,
                after == transfer@.block_timestamp - window_secs,
                chains@.len() <= i,
                chains@ == chains_after(rows.take(i as int), transfer@.from_address, after as int),
            decreases self.transfers@.len() - i,
        {
            let r = &self.transfers[i];
            proof {
                let next = rows.take(i + 1);
                assert(next.drop_last() =~= rows.take(i as int));
                assert(next.last() == r@);
            }
            let wallet = transfer.from_address.as_slice();
            if (r.block_timestamp as i128) > after && (bytes_eq(r.from_address.as_slice(), wallet)
                || bytes_eq(r.to_address.as_slice(), wallet)) {
                let seen = contains_chain(&chains, r.chain_id);
                if !seen {
                    chains.push(r.chain_id);
                }
            }
            i += 1;
        }
        assert(rows.take(self.transfers@.len() as int) =~= rows);
        chains.len() as u64
    }
}

/// The numbers of the blocks of a chain that have a stored hash, in the
/// order of the rows; a row with a negative number is passed over.
pub open spec fn blocks_with_hash(rows: Seq<BlockHashView>, chain_id: i64) -> Seq<u64>
    decreases rows.len(),
{
    if rows.len() == 0 {
        Seq::empty()
    } else {
        let before = blocks_with_hash(rows.drop_last(), chain_id);
        if rows.last().chain_id == chain_id && rows.last().block_number >= 0 {
            before.push(rows.last().block_number as u64)
        } else {
            before
        }
    }
}

impl MemoryStore {
    /// The numbers of the blocks of a chain that have a stored hash.
    pub fn stored_blocks(&self, chain_id: i64) -> (blocks: Vec<u64>)
        ensures
            blocks@ == blocks_with_hash(self@.block_hashes, chain_id),
    {
        let ghost rows = self@.block_hashes;
        let mut blocks: Vec<u64> = Vec::new();
        let mut i: usize = 0;
        assert(rows.take(0) =~= Seq::<BlockHashView>::empty());
        while i < self.block_hashes.len()
            invariant
                i <= self.block_hashes@.len(),
                rows == self@.block_hashes,
                blocks@ == blocks_with_hash(rows.take(i as int), chain_id),
            decreases self.block_hashes@.len() - i,
        {
            let r = &self.block_hashes[i];
            proof {
                let next = rows.take(i + 1);
                assert(next.drop_last() =~= rows.take(i as int));
                assert(next.last() == r@);
            }
            if r.chain_id == chain_id && r.block_number >= 0 {
                blocks.push(r.block_number as u64);
            }
            i += 1;
        }
        assert(rows.take(self.block_hashes@.len() as int) =~= rows);
        blocks
    }

    /// Writes what indexing a block gives: its transfers and DeFi events,
    /// its hash, the pruning of old hashes of its chain where a bound is
    /// given, and the checkpoint of its chain at the block.
    pub fn index_block(
        &mut self,
        transfers: &[StablecoinTransfer],
        events: &[DefiEvent],
        chain_id: i64,
        block_number: u64,
        block_hash: &[u8],
        parent_hash: &[u8],
        prune_below: Option<u64>,
    )
        ensures
            final(self)@ == block_indexed(
                old(self)@,
                transfers_view(transfers@),
                events_view(events@),
                BlockHashView {
                    chain_id,
                    block_number: clamp_i64(block_number),
                    block_hash: block_hash@,
                    parent_hash: parent_hash@,
                },
                match prune_below {
                    Some(b) => Some(clamp_i64(b)),
                    None => None,
                },
                IndexerStateView {
                    chain_id,
                    last_indexed_block: block_number,
                    last_block_hash: Some(block_hash@),
                },
            ),
            store_ok(old(self)@) ==> store_ok(final(self)@),
    {
        self.insert_transfers_batch(transfers);
        self.insert_defi_events_batch(events);
        self.upsert_block_hash(chain_id, to_i64(block_number), block_hash, parent_hash);
        match prune_below {
            Some(b) => {
                self.prune_block_hashes(chain_id, to_i64(b));
            },
            None => {},
        }
        self.upsert_indexer_state(chain_id, block_number, Some(block_hash));
    }
}

/// Every transfer of a stored batch is represented by exactly one row:
/// after the insert into a store without two equal natural keys, one row,
/// and no second one, has the natural key of the transfer.
pub proof fn lemma_stored_exactly_once(rows: Seq<TransferView>, batch: Seq<TransferView>, t: TransferView)
    requires
        keys_unique(rows, transfer_key_of()),
        batch.contains(t),
    ensures
        exists|i: int|
            0 <= i < inserted(rows, transfer_key_of(), batch).len() && transfer_key(
                #[trigger] inserted(rows, transfer_key_of(), batch)[i],
            ) == transfer_key(t) && forall|j: int|
                0 <= j < inserted(rows, transfer_key_of(), batch).len() && j != i ==> transfer_key(
                    #[trigger] inserted(rows, transfer_key_of(), batch)[j],
                ) != transfer_key(t),
{
    let after = inserted(rows, transfer_key_of(), batch);
    lemma_inserted_extends(rows, transfer_key_of(), batch);
    lemma_inserted_unique(rows, transfer_key_of(), batch);
    let n = choose|n: int| 0 <= n < batch.len() && batch[n] == t;
    assert(has_key(after, transfer_key_of(), transfer_key_of()(batch[n])));
    let i = choose|i: int|
        0 <= i < after.len() && transfer_key_of()(#[trigger] after[i]) == transfer_key_of()(t);
    assert(transfer_key(after[i]) == transfer_key(t));
    assert forall|j: int| 0 <= j < after.len() && j != i implies transfer_key(#[trigger] after[j])
        != transfer_key(t) by {
        if j < i {
            assert(transfer_key_of()(after[j]) != transfer_key_of()(after[i]));
        } else {
            assert(transfer_key_of()(after[i]) != transfer_key_of()(after[j]));
        }
    }
}

impl MemoryStore {
    /// Whether the wallet has a first-seen row on the chain.
    pub fn has_first_seen(&self, address: &[u8], chain_id: i64) -> (found: bool)
        ensures
            found == has_key(self@.wallet_first_seen, wallet_of(), (address@, chain_id)),
    {
        let ghost rows = self@.wallet_first_seen;
        let mut i: usize = 0;
        while i < self.wallet_first_seen.len()
            invariant
                i <= self.wallet_first_seen@.len(),
                rows == self@.wallet_first_seen,
                forall|j: int| 0 <= j < i ==> wallet_of()(#[trigger] rows[j]) != (address@, chain_id),
            decreases self.wallet_first_seen@.len() - i,
        {
            let e = &self.wallet_first_seen[i];
            if e.chain_id == chain_id && bytes_eq(e.address.as_slice(), address) {
                assert(wallet_of()(rows[i as int]) == (address@, chain_id));
                return true;
            }
            assert(wallet_of()(rows[i as int]) != (address@, chain_id));
            i += 1;
        }
        false
    }

    /// Stores first sightings. A wallet that has a row on its chain keeps
    /// it: a first sighting is written once and never changed. Returns the
    /// number of rows inserted.
    pub fn upsert_first_seen(&mut self, events: &[NewWalletEvent]) -> (rows: u64)
        ensures
            final(self)@ == (StoreView {
                wallet_first_seen: inserted(
                    old(self)@.wallet_first_seen,
                    wallet_of(),
                    wallet_events_view(events@),
                ),
                ..old(self)@
            }),
            rows == final(self)@.wallet_first_seen.len() - old(self)@.wallet_first_seen.len(),
            forall|i: int|
                0 <= i < old(self)@.wallet_first_seen.len() ==> final(self)@.wallet_first_seen[i]
                    == old(self)@.wallet_first_seen[i],
            store_ok(old(self)@) ==> store_ok(final(self)@),
    {
        let before = self.wallet_first_seen.len();
        let ghost batch = wallet_events_view(events@);
        let mut i: usize = 0;
        assert(batch.take(0) =~= Seq::<NewWalletEventView>::empty());
        while i < events.len()
            invariant
                i <= events@.len(),
                batch == wallet_events_view(events@),
                self@ == (StoreView {
                    wallet_first_seen: inserted(
                        old(self)@.wallet_first_seen,
                        wallet_of(),
                        batch.take(i as int),
                    ),
                    ..old(self)@
                }),
            decreases events@.len() - i,
        {
            let e = &events[i];
            proof {
                let next = batch.take(i + 1);
                assert(next.drop_last() =~= batch.take(i as int));
                assert(next.last() == e@);
            }
            let ghost rows = self@.wallet_first_seen;
            if !self.has_first_seen(e.address.as_slice(), e.chain_id) {
                self.wallet_first_seen.push(e.clone());
                assert(self@.wallet_first_seen =~= rows.push(e@));
            }
            i += 1;
        }
        proof {
            assert(batch.take(events@.len() as int) =~= batch);
            lemma_inserted_extends(old(self)@.wallet_first_seen, wallet_of(), batch);
            if store_ok(old(self)@) {
                lemma_inserted_unique(old(self)@.wallet_first_seen, wallet_of(), batch);
            }
        }
        span(before, self.wallet_first_seen.len())
    }
}

} // verus!
