//! The first-seen tracker: which `(address, chain)` pairs have been observed,
//! and the events that newcomers give rise to.

use crate::bytes::{bytes_eq, copy_bytes};
use crate::indexer::types::{transfers_view, StablecoinTransfer, TransferView};
use vstd::prelude::*;

verus! {

/// A wallet on a chain.
pub type WalletKey = (Seq<u8>, i64);

/// A wallet that a batch showed for the first time on its chain.
#[derive(Debug)]
pub struct NewWalletEvent {
    pub address: Vec<u8>,
    pub chain_id: i64,
    /// Seconds since the Unix epoch.
    pub first_seen_at: i64,
    pub first_block: i64,
    pub first_tx_hash: Vec<u8>,
    /// `from` or `to`: the side of the transfer on which the wallet stood.
    pub direction: String,
}

/// What a `NewWalletEvent` holds, as plain mathematical values.
pub struct NewWalletEventView {
    pub address: Seq<u8>,
    pub chain_id: i64,
    pub first_seen_at: i64,
    pub first_block: i64,
    pub first_tx_hash: Seq<u8>,
    pub direction: Seq<char>,
}

impl View for NewWalletEvent {
    type V = NewWalletEventView;

    open spec fn view(&self) -> NewWalletEventView {
        NewWalletEventView {
            address: self.address@,
            chain_id: self.chain_id,
            first_seen_at: self.first_seen_at,
            first_block: self.first_block,
            first_tx_hash: self.first_tx_hash@,
            direction: self.direction@,
        }
    }
}

impl Clone for NewWalletEvent {
    fn clone(&self) -> (copy: Self)
        ensures
            copy@ == self@,
    {
        NewWalletEvent {
            address: copy_bytes(self.address.as_slice()),
            chain_id: self.chain_id,
            first_seen_at: self.first_seen_at,
            first_block: self.first_block,
            first_tx_hash: copy_bytes(self.first_tx_hash.as_slice()),
            direction: self.direction.clone(),
        }
    }
}

/// The views of a run of events.
pub open spec fn wallet_events_view(events: Seq<NewWalletEvent>) -> Seq<NewWalletEventView> {
    events.map_values(|e: NewWalletEvent| e@)
}

/// The wallet that an event is about.
pub open spec fn event_key(e: NewWalletEventView) -> WalletKey {
    (e.address, e.chain_id)
}

/// The event for the sender of `t`.
pub open spec fn from_event(t: TransferView) -> NewWalletEventView {
    NewWalletEventView {
        address: t.from_address,
        chain_id: t.chain_id,
        first_seen_at: t.block_timestamp,
        first_block: t.block_number,
        first_tx_hash: t.tx_hash,
        direction: "from"@,
    }
}

/// The event for the receiver of `t`.
pub open spec fn to_event(t: TransferView) -> NewWalletEventView {
    NewWalletEventView {
        address: t.to_address,
        chain_id: t.chain_id,
        first_seen_at: t.block_timestamp,
        first_block: t.block_number,
        first_tx_hash: t.tx_hash,
        direction: "to"@,
    }
}

/// What one transfer adds: first its sender, then its receiver, each with
/// an event where the tracker did not know it yet.
pub open spec fn first_seen_step(known: Set<WalletKey>, t: TransferView) -> (
    Set<WalletKey>,
    Seq<NewWalletEventView>,
) {
    let from_key = (t.from_address, t.chain_id);
    let to_key = (t.to_address, t.chain_id);
    let (k1, e1) = if known.contains(from_key) {
        (known, Seq::<NewWalletEventView>::empty())
    } else {
        (known.insert(from_key), seq![from_event(t)])
    };
    if k1.contains(to_key) {
        (k1, e1)
    } else {
        (k1.insert(to_key), e1.push(to_event(t)))
    }
}

/// What a batch adds, its transfers taken in order: the wallets known
/// afterwards and the events of the newcomers.
pub open spec fn first_seen_run(known: Set<WalletKey>, batch: Seq<TransferView>) -> (
    Set<WalletKey>,
    Seq<NewWalletEventView>,
)
    decreases batch.len(),
{
    if batch.len() == 0 {
        (known, Seq::empty())
    } else {
        let (k, e) = first_seen_run(known, batch.drop_last());
        let (k2, e2) = first_seen_step(k, batch.last());
        (k2, e + e2)
    }
}

/// One wallet that the tracker knows.
#[derive(Debug)]
pub struct KnownWallet {
    pub address: Vec<u8>,
    pub chain_id: i64,
}

impl View for KnownWallet {
    type V = WalletKey;

    open spec fn view(&self) -> WalletKey {
        (self.address@, self.chain_id)
    }
}

/// Tracks which wallets have been seen on which chain.
#[derive(Debug)]
pub struct WalletTracker {
    pub known: Vec<KnownWallet>,
}

impl View for WalletTracker {
    type V = Set<WalletKey>;

    open spec fn view(&self) -> Set<WalletKey> {
        self.known@.map_values(|k: KnownWallet| k@).to_set()
    }
}

impl WalletTracker {
    /// A tracker that knows no wallet.
    pub fn new() -> (tracker: Self)
        ensures
            tracker@ == Set::<WalletKey>::empty(),
    {
        let tracker = WalletTracker { known: Vec::new() };
        assert(tracker@ =~= Set::<WalletKey>::empty());
        tracker
    }

    /// A tracker that knows the wallets of the stored first-seen rows.
    pub fn from_rows(rows: Vec<KnownWallet>) -> (tracker: Self)
        ensures
            tracker@ == rows@.map_values(|k: KnownWallet| k@).to_set(),
    {
        WalletTracker { known: rows }
    }

    /// The number of entries.
    pub fn len(&self) -> (n: usize)
        ensures
            n == self.known@.len(),
    {
        self.known.len()
    }

    /// Whether the wallet has been seen on the chain.
    pub fn contains(&self, address: &[u8], chain_id: i64) -> (found: bool)
        ensures
            found == self@.contains((address@, chain_id)),
    {
        let ghost keys = self.known@.map_values(|k: KnownWallet| k@);
        let mut i: usize = 0;
        while i < self.known.len()
            invariant
                i <= self.known@.len(),
                keys == self.known@.map_values(|k: KnownWallet| k@),
                forall|j: int| 0 <= j < i ==> keys[j] != (address@, chain_id),
            decreases self.known@.len() - i,
        {
            if self.known[i].chain_id == chain_id && bytes_eq(
                self.known[i].address.as_slice(),
                address,
            ) {
                assert(keys[i as int] == (address@, chain_id));
                assert(keys.contains((address@, chain_id)));
                return true;
            }
            assert(keys[i as int] != (address@, chain_id));
            i += 1;
        }
        assert(!keys.contains((address@, chain_id)));
        false
    }

    /// Marks the wallet as seen on the chain.
    fn insert(&mut self, address: Vec<u8>, chain_id: i64)
        ensures
            final(self)@ == old(self)@.insert((address@, chain_id)),
    {
        let ghost keys = self.known@.map_values(|k: KnownWallet| k@);
        let ghost key = (address@, chain_id);
        self.known.push(KnownWallet { address, chain_id });
        proof {
            let after = self.known@.map_values(|k: KnownWallet| k@);
            assert(after =~= keys.push(key));
            assert forall|k: WalletKey| after.to_set().contains(k) == keys.to_set().insert(
                key,
            ).contains(k) by {
                if after.contains(k) {
                    let i = choose|i: int| 0 <= i < after.len() && after[i] == k;
                    if i < keys.len() {
                        assert(keys[i] == k);
                        assert(keys.contains(k));
                    }
                }
                if keys.contains(k) {
                    let i = choose|i: int| 0 <= i < keys.len() && keys[i] == k;
                    assert(after[i] == k);
                }
                if k == key {
                    assert(after[keys.len() as int] == k);
                }
            }
            assert(after.to_set() =~= keys.to_set().insert(key));
        }
    }

    /// Takes a batch of transfers in order and returns an event for every
    /// wallet that the tracker had not seen on its chain: for the sender
    /// first, then for the receiver, so that one transfer may give two
    /// events. Each newcomer is known from then on.
    pub fn process_transfers(&mut self, transfers: &[StablecoinTransfer]) -> (new_wallets: Vec<
        NewWalletEvent,
    >)
        ensures
            (final(self)@, wallet_events_view(new_wallets@)) == first_seen_run(
                old(self)@,
                transfers_view(transfers@),
            ),
    {
        let mut new_wallets: Vec<NewWalletEvent> = Vec::new();
        let mut i: usize = 0;
        assert(transfers_view(transfers@).take(0) =~= Seq::<TransferView>::empty());
        assert(wallet_events_view(new_wallets@) =~= Seq::<NewWalletEventView>::empty());
        while i < transfers.len()
            invariant
                i <= transfers@.len(),
                (self@, wallet_events_view(new_wallets@)) == first_seen_run(
                    old(self)@,
                    transfers_view(transfers@).take(i as int),
                ),
            decreases transfers@.len() - i,
        {
            let t = &transfers[i];
            proof {
                let next = transfers_view(transfers@).take(i + 1);
                assert(next.drop_last() =~= transfers_view(transfers@).take(i as int));
                assert(next.last() == t@);
            }
            let ghost k0 = self@;
            let ghost e0 = wallet_events_view(new_wallets@);
            let ghost step = first_seen_step(k0, t@);
            if !self.contains(t.from_address.as_slice(), t.chain_id) {
                self.insert(copy_bytes(t.from_address.as_slice()), t.chain_id);
                let event = NewWalletEvent {
                    address: copy_bytes(t.from_address.as_slice()),
                    chain_id: t.chain_id,
                    first_seen_at: t.block_timestamp,
                    first_block: t.block_number,
                    first_tx_hash: copy_bytes(t.tx_hash.as_slice()),
                    direction: String::from_str("from"),
                };
                assert(event@ == from_event(t@));
                new_wallets.push(event);
                assert(wallet_events_view(new_wallets@) =~= e0 + seq![from_event(t@)]);
            } else {
                assert(wallet_events_view(new_wallets@) =~= e0 + Seq::<
                    NewWalletEventView,
                >::empty());
            }
            let ghost e1 = wallet_events_view(new_wallets@);
            if !self.contains(t.to_address.as_slice(), t.chain_id) {
                self.insert(copy_bytes(t.to_address.as_slice()), t.chain_id);
                let event = NewWalletEvent {
                    address: copy_bytes(t.to_address.as_slice()),
                    chain_id: t.chain_id,
                    first_seen_at: t.block_timestamp,
                    first_block: t.block_number,
                    first_tx_hash: copy_bytes(t.tx_hash.as_slice()),
                    direction: String::from_str("to"),
                };
                assert(event@ == to_event(t@));
                new_wallets.push(event);
                assert(wallet_events_view(new_wallets@) =~= e1.push(to_event(t@)));
            }
            assert(self@ == step.0);
            assert(wallet_events_view(new_wallets@) =~= e0 + step.1);
            i += 1;
        }
        assert(transfers_view(transfers@).take(transfers@.len() as int) =~= transfers_view(
            transfers@,
        ));
        new_wallets
    }
}

/// Whether the transfer has the wallet on one of its sides.
pub open spec fn involves(t: TransferView, key: WalletKey) -> bool {
    t.chain_id == key.1 && (t.from_address == key.0 || t.to_address == key.0)
}

/// The transfers of the batch are in the order of their block times.
pub open spec fn time_ordered(batch: Seq<TransferView>) -> bool {
    forall|i: int, j: int|
        0 <= i <= j < batch.len() ==> (#[trigger] batch[i]).block_timestamp <= (
        #[trigger] batch[j]).block_timestamp
}

/// A first sighting is recorded once and never again: no event is about a
/// wallet that the tracker knew before the batch, no two events of a batch
/// are about the same wallet, and the tracker afterwards knows what it knew
/// before and every wallet of the batch.
pub proof fn lemma_first_seen_once(known: Set<WalletKey>, batch: Seq<TransferView>)
    ensures
        ({
            let (after, events) = first_seen_run(known, batch);
            &&& known.subset_of(after)
            &&& forall|i: int|
                0 <= i < events.len() ==> !known.contains(event_key(#[trigger] events[i]))
                    && after.contains(event_key(events[i]))
            &&& forall|i: int, j: int|
                0 <= i < j < events.len() ==> event_key(#[trigger] events[i]) != event_key(
                    #[trigger] events[j],
                )
            &&& forall|k: WalletKey|
                after.contains(k) ==> known.contains(k) || exists|i: int|
                    0 <= i < events.len() && event_key(#[trigger] events[i]) == k
            &&& forall|n: int, k: WalletKey|
                0 <= n < batch.len() && #[trigger] involves(batch[n], k) ==> after.contains(k)
        }),
    decreases batch.len(),
{
    if batch.len() > 0 {
        let prefix = batch.drop_last();
        let t = batch.last();
        lemma_first_seen_once(known, prefix);
        let (k, e) = first_seen_run(known, prefix);
        let (k2, e2) = first_seen_step(k, t);
        let (after, events) = first_seen_run(known, batch);
        assert(after == k2 && events == e + e2);
        assert forall|i: int| 0 <= i < events.len() implies !known.contains(
            event_key(#[trigger] events[i]),
        ) && after.contains(event_key(events[i])) by {
            if i < e.len() {
                assert(events[i] == e[i]);
            } else {
                assert(events[i] == e2[i - e.len()]);
            }
        }
        assert forall|i: int, j: int| 0 <= i < j < events.len() implies event_key(
            #[trigger] events[i],
        ) != event_key(#[trigger] events[j]) by {
            if j < e.len() {
                assert(events[i] == e[i] && events[j] == e[j]);
            } else if i < e.len() {
                assert(events[i] == e[i]);
                assert(events[j] == e2[j - e.len()]);
                assert(k.contains(event_key(e[i])));
            } else {
                assert(events[i] == e2[i - e.len()]);
                assert(events[j] == e2[j - e.len()]);
            }
        }
        assert forall|key: WalletKey| after.contains(key) implies known.contains(key) || exists|
            i: int,
        |
            0 <= i < events.len() && event_key(#[trigger] events[i]) == key by {
            if k.contains(key) {
                if !known.contains(key) {
                    let i = choose|i: int| 0 <= i < e.len() && event_key(#[trigger] e[i]) == key;
                    assert(events[i] == e[i]);
                }
            } else {
                if e2.len() == 1 {
                    assert(events[e.len() as int] == e2[0]);
                    assert(event_key(e2[0]) == key);
                } else {
                    assert(e2.len() == 2);
                    assert(events[e.len() as int] == e2[0]);
                    assert(events[e.len() as int + 1] == e2[1]);
                    assert(event_key(e2[0]) == key || event_key(e2[1]) == key);
                }
            }
        }
        assert forall|n: int, key: WalletKey|
            0 <= n < batch.len() && #[trigger] involves(batch[n], key) implies after.contains(
            key,
        ) by {
            if n < prefix.len() {
                assert(batch[n] == prefix[n]);
            }
        }
    }
}

/// The event of a wallet carries the time of the first transfer of the
/// batch that has the wallet on one of its sides, and no earlier transfer
/// of the batch has it.
pub proof fn lemma_first_seen_is_first(known: Set<WalletKey>, batch: Seq<TransferView>, i: int)
    requires
        0 <= i < first_seen_run(known, batch).1.len(),
    ensures
        ({
            let e = first_seen_run(known, batch).1[i];
            exists|n: int|
                0 <= n < batch.len() && involves(#[trigger] batch[n], event_key(e))
                    && e.first_seen_at == batch[n].block_timestamp && e.first_block
                    == batch[n].block_number && e.first_tx_hash == batch[n].tx_hash && forall|
                    m: int,
                | 0 <= m < n ==> !involves(#[trigger] batch[m], event_key(e))
        }),
    decreases batch.len(),
{
    let prefix = batch.drop_last();
    let t = batch.last();
    let (k, e) = first_seen_run(known, prefix);
    let (k2, e2) = first_seen_step(k, t);
    let events = first_seen_run(known, batch).1;
    assert(events == e + e2);
    if i < e.len() {
        lemma_first_seen_is_first(known, prefix, i);
        assert(events[i] == e[i]);
        let n = choose|n: int|
            0 <= n < prefix.len() && involves(#[trigger] prefix[n], event_key(e[i]))
                && e[i].first_seen_at == prefix[n].block_timestamp && e[i].first_block
                == prefix[n].block_number && e[i].first_tx_hash == prefix[n].tx_hash && forall|
                m: int,
            | 0 <= m < n ==> !involves(#[trigger] prefix[m], event_key(e[i]));
        assert(batch[n] == prefix[n]);
        assert forall|m: int| 0 <= m < n implies !involves(
            #[trigger] batch[m],
            event_key(e[i]),
        ) by {
            assert(batch[m] == prefix[m]);
        }
    } else {
        let ev = e2[i - e.len()];
        assert(events[i] == ev);
        lemma_first_seen_once(known, prefix);
        let n = batch.len() - 1;
        assert(batch[n] == t);
        assert(!k.contains(event_key(ev)));
        assert forall|m: int| 0 <= m < n implies !involves(#[trigger] batch[m], event_key(ev)) by {
            assert(batch[m] == prefix[m]);
            if involves(prefix[m], event_key(ev)) {
                assert(k.contains(event_key(ev)));
            }
        }
    }
}

/// In a batch that is ordered by block time, the time of a wallet's first
/// sighting is not later than the time of any transfer of the batch that
/// has the wallet on one of its sides.
pub proof fn lemma_first_seen_is_earliest(
    known: Set<WalletKey>,
    batch: Seq<TransferView>,
    i: int,
    n: int,
)
    requires
        time_ordered(batch),
        0 <= i < first_seen_run(known, batch).1.len(),
        0 <= n < batch.len(),
        involves(batch[n], event_key(first_seen_run(known, batch).1[i])),
    ensures
        first_seen_run(known, batch).1[i].first_seen_at <= batch[n].block_timestamp,
{
    lemma_first_seen_is_first(known, batch, i);
    let e = first_seen_run(known, batch).1[i];
    let first = choose|f: int|
        0 <= f < batch.len() && involves(#[trigger] batch[f], event_key(e)) && e.first_seen_at
            == batch[f].block_timestamp && e.first_block == batch[f].block_number
            && e.first_tx_hash == batch[f].tx_hash && forall|m: int|
            0 <= m < f ==> !involves(#[trigger] batch[m], event_key(e));
    if n < first {
        assert(!involves(batch[n], event_key(e)));
    }
}

} // verus!
