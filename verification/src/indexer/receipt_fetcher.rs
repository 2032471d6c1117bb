//! The fetch of transaction receipts: its pace, and the events in what it
//! brings.

use crate::indexer::defi_decoder::{
    canonical_topics, decode_defi_logs_with, defi_events_of, events_view, DefiEvent,
    DefiEventView, DefiTopics, DefiTopicsView,
};
use crate::indexer::types::{logs_view, RawLog};
use vstd::prelude::*;

verus! {

/// The pause between two receipt calls, in milliseconds.
pub const RECEIPT_THROTTLE_MS: u64 = 50;

/// Whether to pause after the receipt call with the given index out of
/// `total`: after every call but the last.
pub fn throttle_after(index: usize, total: usize) -> (pause: bool)
    ensures
        pause == (index + 1 < total),
{
    index < total && index + 1 < total
}

/// The logs of the receipt of one transaction.
#[derive(Debug)]
pub struct ReceiptLogs {
    pub tx_hash: Vec<u8>,
    pub logs: Vec<RawLog>,
}

/// The events in the logs of a run of receipts, receipt by receipt.
pub open spec fn receipt_events_of(
    receipts: Seq<ReceiptLogs>,
    block_timestamp: i64,
    chain_id: i64,
    topics: DefiTopicsView,
) -> Seq<DefiEventView>
    decreases receipts.len(),
{
    if receipts.len() == 0 {
        Seq::empty()
    } else {
        receipt_events_of(receipts.drop_last(), block_timestamp, chain_id, topics)
            + defi_events_of(
            logs_view(receipts.last().logs@),
            block_timestamp,
            chain_id,
            topics,
        )
    }
}

/// Decodes the DeFi events in the logs of the fetched receipts, in the
/// order of the receipts and of their logs.
pub fn decode_receipts(receipts: &[ReceiptLogs], block_timestamp: i64, chain_id: i64) -> (events:
    Vec<DefiEvent>)
    ensures
        events_view(events@) == receipt_events_of(
            receipts@,
            block_timestamp,
            chain_id,
            canonical_topics(),
        ),
{
    let topics = DefiTopics::canonical();
    let mut events: Vec<DefiEvent> = Vec::new();
    let mut i: usize = 0;
    assert(receipts@.take(0) =~= Seq::<ReceiptLogs>::empty());
    assert(events_view(events@) =~= Seq::<DefiEventView>::empty());
    while i < receipts.len()
        invariant
            i <= receipts@.len(),
            topics@ == canonical_topics(),
            events_view(events@) == receipt_events_of(
                receipts@.take(i as int),
                block_timestamp,
                chain_id,
                canonical_topics(),
            ),
        decreases receipts@.len() - i,
    {
        proof {
            let next = receipts@.take(i + 1);
            assert(next.drop_last() =~= receipts@.take(i as int));
            assert(next.last() == receipts@[i as int]);
        }
        let ghost before = events_view(events@);
        let mut found = decode_defi_logs_with(
            receipts[i].logs.as_slice(),
            block_timestamp,
            chain_id,
            &topics,
        );
        let ghost step = events_view(found@);
        let ghost events0 = events@;
        let ghost found0 = found@;
        events.append(&mut found);
        assert(events@ =~= events0 + found0);
        assert(events_view(events@) =~= before + step);
        i += 1;
    }
    assert(receipts@.take(receipts@.len() as int) =~= receipts@);
    events
}

} // verus!
