//! The decisions of a chain indexer: where to resume, which block range to
//! backfill next, how long to wait before a failed call is tried again,
//! whether a new block shows a reorganization and how far to roll back.
//!
//! The caller performs the calls to the node and the store and hands what
//! came back to the functions here.

use crate::bytes::{byte_lists, bytes_eq, contains_bytes, copy_bytes};
use crate::indexer::decoder::{
    decode_transfer_with_topic, event_topic, topic_of, transfer_of_log, DecodedTransfer,
    DecodedTransferView, TRANSFER_SIGNATURE,
};
use crate::indexer::types::{
    block_hash_or_zero, clamp_i32, clamp_i64, logs_view, to_i32, to_i64, transfers_view,
    BlockInfo, RawLog, RawLogView, StablecoinTransfer, TransferView,
};
use crate::tokens::registry::{WatchedTokenView, WatchedTokens};
use vstd::prelude::*;

verus! {

/// The wait before the first retry, in milliseconds.
pub const RETRY_INITIAL_DELAY_MS: u64 = 500;

/// The longest wait between two tries, in milliseconds.
pub const RETRY_MAX_DELAY_MS: u64 = 30_000;

/// How often a failed call is tried again before its error is handed on.
pub const RETRY_MAX_RETRIES: u32 = 5;

/// The wait after the failure with the given number, counted from zero:
/// 500 ms, doubled with every failure, and never more than 30 s.
pub open spec fn backoff_ms(failures: nat) -> nat
    decreases failures,
{
    if failures == 0 {
        500
    } else if 2 * backoff_ms((failures - 1) as nat) > 30_000 {
        30_000
    } else {
        2 * backoff_ms((failures - 1) as nat)
    }
}

/// The wait never exceeds the cap, never shrinks, and starts at 500 ms.
pub proof fn lemma_backoff_bounds(failures: nat)
    ensures
        500 <= backoff_ms(failures) <= 30_000,
        backoff_ms(failures) <= backoff_ms(failures + 1),
    decreases failures,
{
    if failures > 0 {
        lemma_backoff_bounds((failures - 1) as nat);
    }
}

/// Where one call stands in its series of tries.
#[derive(Debug, Clone, Copy, PartialEq, Eq, Structural)]
pub struct RetryState {
    /// How many tries have failed so far.
    pub failures: u32,
    /// The wait that the next failure brings, in milliseconds.
    pub delay_ms: u64,
}

/// What to do after a try.
#[derive(Debug, Clone, Copy, PartialEq, Eq, Structural)]
pub enum RetryAction {
    /// The try succeeded: hand its value on.
    Done,
    /// The try failed: wait this long, then try again.
    Sleep { delay_ms: u64 },
    /// The last try failed: hand its error on.
    GiveUp,
}

impl RetryState {
    /// The state is one that a series of tries reaches from its start.
    pub open spec fn wf(self) -> bool {
        self.failures <= RETRY_MAX_RETRIES && self.delay_ms == backoff_ms(self.failures as nat)
    }

    /// The state before the first try.
    pub fn new() -> (state: RetryState)
        ensures
            state.wf(),
            state.failures == 0,
            state.delay_ms == 500,
    {
        RetryState { failures: 0, delay_ms: RETRY_INITIAL_DELAY_MS }
    }
}

/// What follows a try in `state`, by whether it failed.
pub open spec fn retry_step(state: RetryState, failed: bool) -> (RetryAction, RetryState) {
    if !failed {
        (RetryAction::Done, state)
    } else if state.failures < RETRY_MAX_RETRIES {
        (
            RetryAction::Sleep { delay_ms: state.delay_ms },
            RetryState {
                failures: (state.failures + 1) as u32,
                delay_ms: if state.delay_ms > RETRY_MAX_DELAY_MS / 2 {
                    RETRY_MAX_DELAY_MS
                } else {
                    (2 * state.delay_ms) as u64
                },
            },
        )
    } else {
        (RetryAction::GiveUp, state)
    }
}

/// From its start, a series of failing tries waits 500 ms, then twice as
/// long each time up to 30 s, and hands the error on at the sixth failure:
/// in a state that the series reaches, a failure brings the wait of its
/// number while fewer than five tries have failed, and the end after that.
pub proof fn lemma_retry_series(state: RetryState)
    requires
        state.wf(),
    ensures
        state.failures < RETRY_MAX_RETRIES ==> retry_step(state, true).0 == (RetryAction::Sleep {
            delay_ms: backoff_ms(state.failures as nat) as u64,
        }) && retry_step(state, true).1.wf() && retry_step(state, true).1.failures
            == state.failures + 1,
        state.failures == RETRY_MAX_RETRIES ==> retry_step(state, true) == (
            RetryAction::GiveUp,
            state,
        ),
        retry_step(state, false) == (RetryAction::Done, state),
{
    lemma_backoff_bounds(state.failures as nat);
}

/// Decides what follows a try of a call to the node. A success ends the
/// series. Each of the first five failures brings a wait, 500 ms at first
/// and doubled each time up to 30 s; the sixth failure is handed on.
pub fn retry_rpc(state: &mut RetryState, failed: bool) -> (action: RetryAction)
    ensures
        (action, *final(state)) == retry_step(*old(state), failed),
        old(state).wf() ==> final(state).wf(),
{
    if !failed {
        RetryAction::Done
    } else if state.failures < RETRY_MAX_RETRIES {
        let delay_ms = state.delay_ms;
        proof {
            lemma_backoff_bounds(state.failures as nat);
        }
        state.failures = state.failures + 1;
        state.delay_ms = if delay_ms > RETRY_MAX_DELAY_MS / 2 {
            RETRY_MAX_DELAY_MS
        } else {
            delay_ms * 2
        };
        RetryAction::Sleep { delay_ms }
    } else {
        RetryAction::GiveUp
    }
}

/// What a chain indexer does first.
#[derive(Debug, Clone, Copy, PartialEq, Eq, Structural)]
pub enum StartPlan {
    /// No valid token is configured: there is nothing to index.
    NothingToWatch,
    /// Backfill from this block, then go live.
    Backfill { start: u64 },
    /// There is neither a checkpoint nor a configured start: go live.
    LiveOnly,
}

/// The first step of an indexer: after the block of the checkpoint where
/// there is one, else at the configured start block, else live only.
pub open spec fn start_plan_of(
    watched: nat,
    last_indexed: Option<u64>,
    start_block: Option<u64>,
) -> StartPlan {
    if watched == 0 {
        StartPlan::NothingToWatch
    } else {
        match last_indexed {
            Some(b) => StartPlan::Backfill {
                start: if b == u64::MAX {
                    u64::MAX
                } else {
                    (b + 1) as u64
                },
            },
            None => match start_block {
                Some(s) => StartPlan::Backfill { start: s },
                None => StartPlan::LiveOnly,
            },
        }
    }
}

/// Decides where a chain indexer resumes.
pub fn start_plan(watched: usize, last_indexed: Option<u64>, start_block: Option<u64>) -> (plan:
    StartPlan)
    ensures
        plan == start_plan_of(watched as nat, last_indexed, start_block),
{
    if watched == 0 {
        return StartPlan::NothingToWatch;
    }
    match last_indexed {
        Some(b) => StartPlan::Backfill {
            start: if b == u64::MAX {
                u64::MAX
            } else {
                b + 1
            },
        },
        None => match start_block {
            Some(s) => StartPlan::Backfill { start: s },
            None => StartPlan::LiveOnly,
        },
    }
}

/// A run of blocks, both ends included.
#[derive(Debug, Clone, Copy, PartialEq, Eq, Structural)]
pub struct BlockRange {
    pub from: u64,
    pub to: u64,
}

/// The number of blocks that one backfill step covers: the configured batch
/// size, and one where that is zero.
pub open spec fn step_size(batch_size: u64) -> int {
    if batch_size == 0 {
        1
    } else {
        batch_size as int
    }
}

/// The last block of the range that starts at `current`.
pub open spec fn range_end(current: u64, batch_size: u64, chain_tip: u64) -> int {
    if current + step_size(batch_size) - 1 < chain_tip {
        current + step_size(batch_size) - 1
    } else {
        chain_tip as int
    }
}

/// The ranges of a backfill from `current` up to `chain_tip`, in order.
pub open spec fn backfill_ranges(current: int, batch_size: u64, chain_tip: u64) -> Seq<(int, int)>
    decreases chain_tip - current + 1,
{
    if current < 0 || current > chain_tip {
        Seq::empty()
    } else {
        let to = range_end(current as u64, batch_size, chain_tip);
        seq![(current, to)] + backfill_ranges(to + 1, batch_size, chain_tip)
    }
}

/// The cursor of a backfill towards the chain tip seen at its start.
#[derive(Debug, Clone, Copy, PartialEq, Eq, Structural)]
pub struct BackfillCursor {
    /// The next block to fetch; meaningless once `finished`.
    pub current: u64,
    pub chain_tip: u64,
    pub batch_size: u64,
    /// Whether the cursor has passed the tip.
    pub finished: bool,
}

impl BackfillCursor {
    /// The ranges that are still to come.
    pub open spec fn remaining(self) -> Seq<(int, int)> {
        if self.finished {
            Seq::empty()
        } else {
            backfill_ranges(self.current as int, self.batch_size, self.chain_tip)
        }
    }

    /// A cursor at `start_block`. Where the start lies past the tip, nothing
    /// remains.
    pub fn new(start_block: u64, chain_tip: u64, batch_size: u64) -> (cursor: BackfillCursor)
        ensures
            cursor.remaining() == backfill_ranges(start_block as int, batch_size, chain_tip),
            cursor.chain_tip == chain_tip,
            cursor.batch_size == batch_size,
    {
        BackfillCursor { current: start_block, chain_tip, batch_size, finished: start_block > chain_tip }
    }

    /// The next range to fetch, or nothing once the tip is passed. The
    /// checkpoint moves to the range's last block when the range is done.
    pub fn next_range(&mut self) -> (range: Option<BlockRange>)
        ensures
            final(self).chain_tip == old(self).chain_tip,
            final(self).batch_size == old(self).batch_size,
            match range {
                Some(r) => old(self).remaining().len() > 0 && old(self).remaining()[0] == (
                    r.from as int,
                    r.to as int,
                ) && final(self).remaining() == old(self).remaining().drop_first(),
                None => old(self).remaining().len() == 0 && *final(self) == *old(self),
            },
    {
        if self.finished || self.current > self.chain_tip {
            return None;
        }
        let from = self.current;
        let room = self.chain_tip - from;
        let step = if self.batch_size == 0 {
            1
        } else {
            self.batch_size
        };
        let to = if step - 1 < room {
            from + (step - 1)
        } else {
            self.chain_tip
        };
        proof {
            let rest = backfill_ranges(to + 1, self.batch_size, self.chain_tip);
            assert(old(self).remaining() == seq![(from as int, to as int)] + rest);
            assert((seq![(from as int, to as int)] + rest).drop_first() =~= rest);
        }
        if to == self.chain_tip {
            self.finished = true;
            proof {
                assert(backfill_ranges(to + 1, self.batch_size, self.chain_tip) =~= Seq::<
                    (int, int),
                >::empty());
            }
        } else {
            self.current = to + 1;
        }
        Some(BlockRange { from, to })
    }
}

/// The ranges of a backfill follow one another without a gap or an
/// overlap, none is longer than a step, and the last one ends at the tip.
pub proof fn lemma_backfill_ranges_cover(start: int, batch_size: u64, chain_tip: u64)
    requires
        0 <= start <= chain_tip,
    ensures
        ({
            let r = backfill_ranges(start, batch_size, chain_tip);
            &&& r.len() > 0
            &&& r[0].0 == start
            &&& r.last().1 == chain_tip
            &&& forall|i: int|
                0 <= i < r.len() ==> (#[trigger] r[i]).0 <= r[i].1 && r[i].1 - r[i].0 < step_size(
                    batch_size,
                )
            &&& forall|i: int| 0 <= i < r.len() - 1 ==> (#[trigger] r[i + 1]).0 == r[i].1 + 1
        }),
    decreases chain_tip - start,
{
    let r = backfill_ranges(start, batch_size, chain_tip);
    let to = range_end(start as u64, batch_size, chain_tip);
    let rest = backfill_ranges(to + 1, batch_size, chain_tip);
    assert(r == seq![(start, to)] + rest);
    if to < chain_tip {
        lemma_backfill_ranges_cover(to + 1, batch_size, chain_tip);
        assert(r.last() == rest.last());
        assert forall|i: int| 0 <= i < r.len() implies (#[trigger] r[i]).0 <= r[i].1 && r[i].1
            - r[i].0 < step_size(batch_size) by {
            if i > 0 {
                assert(r[i] == rest[i - 1]);
            }
        }
        assert forall|i: int| 0 <= i < r.len() - 1 implies (#[trigger] r[i + 1]).0 == r[i].1
            + 1 by {
            assert(r[i + 1] == rest[i]);
            if i > 0 {
                assert(r[i] == rest[i - 1]);
                assert(rest[(i - 1) + 1] == rest[i]);
            }
        }
    } else {
        assert(rest =~= Seq::<(int, int)>::empty());
        assert(r =~= seq![(start, to)]);
    }
}

/// Whether the fetch of receipts is worth its cost in a backfill range:
/// DeFi decoding is on, the range holds a transfer, and its transfers come
/// from at most 100 transactions.
pub fn backfill_fetches_receipts(decode_defi: bool, transfers: usize, unique_txs: usize) -> (fetch:
    bool)
    ensures
        fetch == (decode_defi && transfers > 0 && unique_txs <= 100),
{
    decode_defi && transfers > 0 && unique_txs <= 100
}

/// Whether receipts are fetched for a live block: DeFi decoding is on and
/// the block holds a transfer.
pub fn live_fetches_receipts(decode_defi: bool, transfers: usize) -> (fetch: bool)
    ensures
        fetch == (decode_defi && transfers > 0),
{
    decode_defi && transfers > 0
}

/// Whether a new block shows a reorganization: the store holds a hash for
/// the block before it, and that hash is not the new block's parent.
pub open spec fn reorg_shown(block_number: u64, stored_parent: Option<Seq<u8>>, parent_hash: Seq<u8>) -> bool {
    block_number > 0 && stored_parent is Some && stored_parent.unwrap() != parent_hash
}

/// Whether the stored hash of the block before `block_number` is to be
/// looked up: for every block but the first.
pub fn checks_parent(block_number: u64) -> (check: bool)
    ensures
        check == (block_number > 0),
{
    block_number > 0
}

/// Decides whether a new block shows a reorganization, given the stored
/// hash of the block before it, if any.
pub fn detect_reorg(block_number: u64, stored_parent: Option<&[u8]>, parent_hash: &[u8]) -> (reorg:
    bool)
    ensures
        reorg == reorg_shown(
            block_number,
            match stored_parent {
                Some(h) => Some(h@),
                None => None,
            },
            parent_hash@,
        ),
{
    if block_number == 0 {
        return false;
    }
    match stored_parent {
        Some(stored) => !bytes_eq(stored, parent_hash),
        None => false,
    }
}

/// The lowest block that a rollback may reach from `block_number`.
pub open spec fn earliest_fork(block_number: u64, max_depth: u64) -> int {
    if block_number > max_depth {
        block_number - max_depth
    } else {
        0
    }
}

/// The lowest block that a rollback may reach from `block_number`:
/// `max_depth` blocks below it, or the first block.
pub fn earliest_block(block_number: u64, max_depth: u64) -> (earliest: u64)
    ensures
        earliest == earliest_fork(block_number, max_depth),
{
    if block_number > max_depth {
        block_number - max_depth
    } else {
        0
    }
}

/// Every block from `from` up to the one before `block_number` has a
/// stored hash.
pub open spec fn stored_run(stored: Set<u64>, from: int, block_number: u64) -> bool {
    forall|b: u64| from <= b < block_number ==> stored.contains(b)
}

/// `fork` is the fork point for a new block `block_number`: the lowest
/// block, not more than `max_depth` below the new one, from which on the
/// store holds a hash for every block before the new one. All of that run
/// is taken as stale.
pub open spec fn is_fork_point(stored: Set<u64>, block_number: u64, max_depth: u64, fork: u64) -> bool {
    &&& earliest_fork(block_number, max_depth) <= fork <= block_number
    &&& stored_run(stored, fork as int, block_number)
    &&& fork > earliest_fork(block_number, max_depth) ==> !stored.contains((fork - 1) as u64)
}

/// Two fork points for the same store and block are the same block.
pub proof fn lemma_fork_point_unique(
    stored: Set<u64>,
    block_number: u64,
    max_depth: u64,
    f1: u64,
    f2: u64,
)
    requires
        is_fork_point(stored, block_number, max_depth, f1),
        is_fork_point(stored, block_number, max_depth, f2),
    ensures
        f1 == f2,
{
    if f1 < f2 {
        assert(stored.contains((f2 - 1) as u64));
    } else if f2 < f1 {
        assert(stored.contains((f1 - 1) as u64));
    }
}

/// Whether `block` is among `blocks`.
pub fn contains_block(blocks: &[u64], block: u64) -> (found: bool)
    ensures
        found == blocks@.contains(block),
{
    let mut i: usize = 0;
    while i < blocks.len()
        invariant
            i <= blocks@.len(),
            forall|j: int| 0 <= j < i ==> blocks@[j] != block,
        decreases blocks@.len() - i,
    {
        if blocks[i] == block {
            return true;
        }
        i += 1;
    }
    false
}

/// Finds the fork point for a new block whose parent is not the stored
/// one. `stored_blocks` are the numbers of the blocks below `block_number`
/// for which the store holds a hash. The walk goes back from the block
/// before the new one, at most `max_depth` blocks, and stops at the first
/// block without a stored hash: the block after it is the fork point.
pub fn find_fork_point(stored_blocks: &[u64], block_number: u64, max_depth: u64) -> (fork: u64)
    ensures
        is_fork_point(stored_blocks@.to_set(), block_number, max_depth, fork),
{
    let earliest = earliest_block(block_number, max_depth);
    let mut num = block_number;
    while num > earliest
        invariant
            earliest <= num <= block_number,
            earliest == earliest_fork(block_number, max_depth),
            stored_run(stored_blocks@.to_set(), num as int, block_number),
        decreases num,
    {
        if !contains_block(stored_blocks, num - 1) {
            return num;
        }
        num -= 1;
    }
    num
}

/// The checkpoint after a rollback to `fork`: the block before the fork
/// point where the checkpoint lay at or past the fork point, and nothing
/// where the fork point is the first block.
pub open spec fn checkpoint_after(checkpoint: Option<u64>, fork: u64) -> Option<u64> {
    match checkpoint {
        None => None,
        Some(c) => if c < fork {
            Some(c)
        } else if fork == 0 {
            None
        } else {
            Some((fork - 1) as u64)
        },
    }
}

/// Where the checkpoint stands after a rollback to `fork`. It never
/// passes the block before the fork point.
pub fn rollback_checkpoint(checkpoint: Option<u64>, fork: u64) -> (after: Option<u64>)
    ensures
        after == checkpoint_after(checkpoint, fork),
        after is Some ==> after.unwrap() < fork,
{
    match checkpoint {
        None => None,
        Some(c) => if c < fork {
            Some(c)
        } else if fork == 0 {
            None
        } else {
            Some(fork - 1)
        },
    }
}

/// The block below which stored hashes are dropped once `block_number` is
/// indexed: `max_depth` below it, and nothing while the chain is not
/// longer than that.
pub fn prune_cutoff(block_number: u64, max_depth: u64) -> (cutoff: Option<u64>)
    ensures
        block_number > max_depth ==> cutoff == Some((block_number - max_depth) as u64),
        block_number <= max_depth ==> cutoff is None,
{
    if block_number > max_depth {
        Some(block_number - max_depth)
    } else {
        None
    }
}

/// What the indexer does with a new block.
#[derive(Debug, Clone, Copy, PartialEq, Eq, Structural)]
pub enum BlockAction {
    /// Index the block: fetch its logs, store its transfers, enrich them,
    /// store its hash, prune old hashes and move the checkpoint to it.
    Index { prune_below: Option<u64> },
    /// Roll back: delete transfers, DeFi events and block hashes at or
    /// above the fork point, put the checkpoint where `checkpoint` says, and
    /// take the blocks up again from the fork point.
    Rollback { fork_block: u64, checkpoint: Option<u64> },
}

/// The decision on a new block, from what the store holds.
pub open spec fn block_action_of(
    block_number: u64,
    parent_hash: Seq<u8>,
    stored_parent: Option<Seq<u8>>,
    stored: Set<u64>,
    checkpoint: Option<u64>,
    max_depth: u64,
    action: BlockAction,
) -> bool {
    if reorg_shown(block_number, stored_parent, parent_hash) {
        match action {
            BlockAction::Rollback { fork_block, checkpoint: after } => is_fork_point(
                stored,
                block_number,
                max_depth,
                fork_block,
            ) && after == checkpoint_after(checkpoint, fork_block),
            BlockAction::Index { .. } => false,
        }
    } else {
        action == (BlockAction::Index {
            prune_below: if block_number > max_depth {
                Some((block_number - max_depth) as u64)
            } else {
                None
            },
        })
    }
}

/// Decides what to do with a new block. `stored_parent` is the stored hash
/// of the block before it, `stored_blocks` the numbers of the blocks below
/// it that have a stored hash, `checkpoint` the last indexed block.
pub fn process_new_block(
    block_number: u64,
    parent_hash: &[u8],
    stored_parent: Option<&[u8]>,
    stored_blocks: &[u64],
    checkpoint: Option<u64>,
    max_reorg_depth: u64,
) -> (action: BlockAction)
    ensures
        block_action_of(
            block_number,
            parent_hash@,
            match stored_parent {
                Some(h) => Some(h@),
                None => None,
            },
            stored_blocks@.to_set(),
            checkpoint,
            max_reorg_depth,
            action,
        ),
{
    if detect_reorg(block_number, stored_parent, parent_hash) {
        let fork_block = find_fork_point(stored_blocks, block_number, max_reorg_depth);
        BlockAction::Rollback { fork_block, checkpoint: rollback_checkpoint(checkpoint, fork_block) }
    } else {
        BlockAction::Index { prune_below: prune_cutoff(block_number, max_reorg_depth) }
    }
}

/// The cursor of the polling live loop: the last block that it has taken
/// up.
#[derive(Debug, Clone, Copy, PartialEq, Eq, Structural)]
pub struct PollCursor {
    pub last_block: u64,
}

impl PollCursor {
    /// The blocks to take up when the node reports `tip`: those above the
    /// last one, in ascending order; none where the tip has not moved.
    pub fn pending(&self, tip: u64) -> (range: Option<BlockRange>)
        ensures
            tip <= self.last_block ==> range is None,
            tip > self.last_block ==> range == Some(
                BlockRange { from: (self.last_block + 1) as u64, to: tip },
            ),
    {
        if tip <= self.last_block {
            None
        } else {
            Some(BlockRange { from: self.last_block + 1, to: tip })
        }
    }

    /// Moves the cursor after a block was handled. An indexed block is
    /// behind the cursor from then on; after a rollback the cursor stands
    /// before the fork point, so that the next tick starts there.
    pub fn advance(&mut self, block_number: u64, action: BlockAction)
        ensures
            match action {
                BlockAction::Index { .. } => final(self).last_block == block_number,
                BlockAction::Rollback { fork_block, .. } => final(self).last_block == if fork_block
                    == 0 {
                    0
                } else {
                    (fork_block - 1) as u64
                },
            },
    {
        match action {
            BlockAction::Index { .. } => {
                self.last_block = block_number;
            },
            BlockAction::Rollback { fork_block, .. } => {
                self.last_block = if fork_block == 0 {
                    0
                } else {
                    fork_block - 1
                };
            },
        }
    }
}

/// The time of a block, in seconds since the Unix epoch.
#[derive(Debug, Clone, Copy, PartialEq, Eq, Structural)]
pub struct BlockTime {
    pub block_number: u64,
    pub timestamp: i64,
}

/// The time that `times` gives for `block`: that of its first entry for the
/// block, and the epoch where it has none.
pub open spec fn time_of(times: Seq<BlockTime>, block: u64) -> i64
    decreases times.len(),
{
    if times.len() == 0 {
        0
    } else if times[0].block_number == block {
        times[0].timestamp
    } else {
        time_of(times.drop_first(), block)
    }
}

/// The time of `block` among the fetched block times.
pub fn block_time(times: &[BlockTime], block: u64) -> (timestamp: i64)
    ensures
        timestamp == time_of(times@, block),
{
    let mut i: usize = 0;
    assert(times@.skip(0) =~= times@);
    while i < times.len()
        invariant
            i <= times@.len(),
            time_of(times@, block) == time_of(times@.skip(i as int), block),
        decreases times@.len() - i,
    {
        assert(times@.skip(i as int)[0] == times@[i as int]);
        assert(times@.skip(i as int).drop_first() =~= times@.skip(i + 1));
        if times[i].block_number == block {
            return times[i].timestamp;
        }
        i += 1;
    }
    0
}

/// The time that stands for a whole backfill range: that of the first
/// block whose time was fetched, and the epoch where none was.
pub fn batch_timestamp(times: &[BlockTime]) -> (timestamp: i64)
    ensures
        timestamp == if times@.len() == 0 {
            0
        } else {
            times@[0].timestamp
        },
{
    if times.len() == 0 {
        0
    } else {
        times[0].timestamp
    }
}

/// The block numbers that the logs name, each once, in the order in which
/// they first occur.
pub open spec fn blocks_of_logs(logs: Seq<RawLogView>) -> Seq<u64>
    decreases logs.len(),
{
    if logs.len() == 0 {
        Seq::empty()
    } else {
        let before = blocks_of_logs(logs.drop_last());
        match logs.last().block_number {
            Some(b) => if before.contains(b) {
                before
            } else {
                before.push(b)
            },
            None => before,
        }
    }
}

/// The blocks whose headers a backfill range needs for their times.
pub fn blocks_needing_time(logs: &[RawLog]) -> (blocks: Vec<u64>)
    ensures
        blocks@ == blocks_of_logs(logs_view(logs@)),
{
    let mut blocks: Vec<u64> = Vec::new();
    let mut i: usize = 0;
    assert(logs_view(logs@).take(0) =~= Seq::<RawLogView>::empty());
    while i < logs.len()
        invariant
            i <= logs@.len(),
            blocks@ == blocks_of_logs(logs_view(logs@).take(i as int)),
        decreases logs@.len() - i,
    {
        proof {
            let next = logs_view(logs@).take(i + 1);
            assert(next.drop_last() =~= logs_view(logs@).take(i as int));
            assert(next.last() == logs@[i as int]@);
        }
        match logs[i].block_number {
            Some(b) => {
                if !contains_block(blocks.as_slice(), b) {
                    blocks.push(b);
                }
            },
            None => {},
        }
        i += 1;
    }
    assert(logs_view(logs@).take(logs@.len() as int) =~= logs_view(logs@));
    blocks
}

/// The transfer that a decoded log makes in the given block.
pub open spec fn placed_transfer(
    d: DecodedTransferView,
    chain_id: i64,
    block_number: i64,
    block_hash: Seq<u8>,
    block_timestamp: i64,
) -> TransferView {
    TransferView {
        chain_id,
        block_number,
        block_hash,
        tx_hash: d.tx_hash,
        log_index: clamp_i32(d.log_index),
        token_address: d.token_address,
        from_address: d.from,
        to_address: d.to,
        amount: d.amount,
        token_symbol: d.token_symbol,
        token_decimals: d.token_decimals,
        block_timestamp,
    }
}

fn place_transfer(
    d: DecodedTransfer,
    chain_id: i64,
    block_number: i64,
    block_hash: Vec<u8>,
    block_timestamp: i64,
) -> (t: StablecoinTransfer)
    ensures
        t@ == placed_transfer(d@, chain_id, block_number, block_hash@, block_timestamp),
{
    StablecoinTransfer {
        chain_id,
        block_number,
        block_hash,
        tx_hash: d.tx_hash,
        log_index: to_i32(d.log_index),
        token_address: d.token_address,
        from_address: d.from,
        to_address: d.to,
        amount: d.amount,
        token_symbol: d.token_symbol,
        token_decimals: d.token_decimals,
        block_timestamp,
    }
}

/// The transfer that a log of a backfill range stands for: block number
/// and hash are the log's own, zero where the node left them out, and the
/// time is that of its block among `times`.
pub open spec fn backfill_transfer_of(
    log: RawLogView,
    watched: Seq<WatchedTokenView>,
    topic0: Seq<u8>,
    chain_id: i64,
    times: Seq<BlockTime>,
) -> Option<TransferView> {
    match transfer_of_log(log, watched, topic0) {
        None => None,
        Some(d) => {
            let block = match log.block_number {
                Some(b) => b,
                None => 0,
            };
            Some(
                placed_transfer(
                    d,
                    chain_id,
                    clamp_i64(block),
                    block_hash_or_zero(log),
                    time_of(times, block),
                ),
            )
        },
    }
}

/// The transfers of a backfill range: one for every log that decodes, in
/// the order of the logs.
pub open spec fn backfill_transfers_of(
    logs: Seq<RawLogView>,
    watched: Seq<WatchedTokenView>,
    topic0: Seq<u8>,
    chain_id: i64,
    times: Seq<BlockTime>,
) -> Seq<TransferView>
    decreases logs.len(),
{
    if logs.len() == 0 {
        Seq::empty()
    } else {
        let before = backfill_transfers_of(logs.drop_last(), watched, topic0, chain_id, times);
        match backfill_transfer_of(logs.last(), watched, topic0, chain_id, times) {
            Some(t) => before.push(t),
            None => before,
        }
    }
}

/// Decodes the logs of a backfill range into transfers, where `topic0` is
/// the topic of the transfer event.
pub fn backfill_transfers_with_topic(
    logs: &[RawLog],
    watched_tokens: &WatchedTokens,
    chain_id: i64,
    times: &[BlockTime],
    topic0: &[u8],
) -> (transfers: Vec<StablecoinTransfer>)
    ensures
        transfers_view(transfers@) == backfill_transfers_of(
            logs_view(logs@),
            watched_tokens@,
            topic0@,
            chain_id,
            times@,
        ),
{
    let mut transfers: Vec<StablecoinTransfer> = Vec::new();
    let mut i: usize = 0;
    assert(logs_view(logs@).take(0) =~= Seq::<RawLogView>::empty());
    assert(transfers_view(transfers@) =~= Seq::<TransferView>::empty());
    while i < logs.len()
        invariant
            i <= logs@.len(),
            transfers_view(transfers@) == backfill_transfers_of(
                logs_view(logs@).take(i as int),
                watched_tokens@,
                topic0@,
                chain_id,
                times@,
            ),
        decreases logs@.len() - i,
    {
        proof {
            let next = logs_view(logs@).take(i + 1);
            assert(next.drop_last() =~= logs_view(logs@).take(i as int));
            assert(next.last() == logs@[i as int]@);
        }
        let ghost before = transfers_view(transfers@);
        let log = &logs[i];
        match decode_transfer_with_topic(log, watched_tokens, topic0) {
            Some(decoded) => {
                let block = match log.block_number {
                    Some(b) => b,
                    None => 0,
                };
                let t = place_transfer(
                    decoded,
                    chain_id,
                    to_i64(block),
                    log.block_hash_or_zero(),
                    block_time(times, block),
                );
                let ghost tv = t@;
                transfers.push(t);
                assert(transfers_view(transfers@) =~= before.push(tv));
            },
            None => {},
        }
        i += 1;
    }
    assert(logs_view(logs@).take(logs@.len() as int) =~= logs_view(logs@));
    transfers
}

/// Decodes the logs of a backfill range into transfers of watched tokens.
/// Every log that is a transfer of a watched token gives exactly one
/// transfer, in the order of the logs; every other log gives none.
pub fn backfill(
    logs: &[RawLog],
    watched_tokens: &WatchedTokens,
    chain_id: i64,
    times: &[BlockTime],
) -> (transfers: Vec<StablecoinTransfer>)
    ensures
        transfers_view(transfers@) == backfill_transfers_of(
            logs_view(logs@),
            watched_tokens@,
            topic_of(TRANSFER_SIGNATURE@),
            chain_id,
            times@,
        ),
{
    let topic0 = event_topic(TRANSFER_SIGNATURE);
    backfill_transfers_with_topic(logs, watched_tokens, chain_id, times, topic0.as_slice())
}

/// The transfer that a log of a live block stands for: block number, hash
/// and time are those of the block's header.
pub open spec fn live_transfer_of(
    log: RawLogView,
    watched: Seq<WatchedTokenView>,
    topic0: Seq<u8>,
    chain_id: i64,
    block_number: u64,
    block_hash: Seq<u8>,
    timestamp: u64,
) -> Option<TransferView> {
    match transfer_of_log(log, watched, topic0) {
        None => None,
        Some(d) => Some(
            placed_transfer(d, chain_id, clamp_i64(block_number), block_hash, clamp_i64(timestamp)),
        ),
    }
}

/// The transfers of a live block: one for every log that decodes, in the
/// order of the logs.
pub open spec fn live_transfers_of(
    logs: Seq<RawLogView>,
    watched: Seq<WatchedTokenView>,
    topic0: Seq<u8>,
    chain_id: i64,
    block_number: u64,
    block_hash: Seq<u8>,
    timestamp: u64,
) -> Seq<TransferView>
    decreases logs.len(),
{
    if logs.len() == 0 {
        Seq::empty()
    } else {
        let before = live_transfers_of(
            logs.drop_last(),
            watched,
            topic0,
            chain_id,
            block_number,
            block_hash,
            timestamp,
        );
        match live_transfer_of(
            logs.last(),
            watched,
            topic0,
            chain_id,
            block_number,
            block_hash,
            timestamp,
        ) {
            Some(t) => before.push(t),
            None => before,
        }
    }
}

/// Decodes the logs of a live block into transfers, where `topic0` is the
/// topic of the transfer event.
pub fn live_transfers_with_topic(
    logs: &[RawLog],
    watched_tokens: &WatchedTokens,
    header: &BlockInfo,
    topic0: &[u8],
) -> (transfers: Vec<StablecoinTransfer>)
    ensures
        transfers_view(transfers@) == live_transfers_of(
            logs_view(logs@),
            watched_tokens@,
            topic0@,
            header.chain_id,
            header.block_number,
            header.block_hash@,
            header.timestamp,
        ),
{
    let mut transfers: Vec<StablecoinTransfer> = Vec::new();
    let mut i: usize = 0;
    assert(logs_view(logs@).take(0) =~= Seq::<RawLogView>::empty());
    assert(transfers_view(transfers@) =~= Seq::<TransferView>::empty());
    while i < logs.len()
        invariant
            i <= logs@.len(),
            transfers_view(transfers@) == live_transfers_of(
                logs_view(logs@).take(i as int),
                watched_tokens@,
                topic0@,
                header.chain_id,
                header.block_number,
                header.block_hash@,
                header.timestamp,
            ),
        decreases logs@.len() - i,
    {
        proof {
            let next = logs_view(logs@).take(i + 1);
            assert(next.drop_last() =~= logs_view(logs@).take(i as int));
            assert(next.last() == logs@[i as int]@);
        }
        let ghost before = transfers_view(transfers@);
        match decode_transfer_with_topic(&logs[i], watched_tokens, topic0) {
            Some(decoded) => {
                let t = place_transfer(
                    decoded,
                    header.chain_id,
                    to_i64(header.block_number),
                    copy_bytes(header.block_hash.as_slice()),
                    to_i64(header.timestamp),
                );
                let ghost tv = t@;
                transfers.push(t);
                assert(transfers_view(transfers@) =~= before.push(tv));
            },
            None => {},
        }
        i += 1;
    }
    assert(logs_view(logs@).take(logs@.len() as int) =~= logs_view(logs@));
    transfers
}

/// Decodes the logs of a live block into transfers of watched tokens.
pub fn live_index(logs: &[RawLog], watched_tokens: &WatchedTokens, header: &BlockInfo) -> (transfers:
    Vec<StablecoinTransfer>)
    ensures
        transfers_view(transfers@) == live_transfers_of(
            logs_view(logs@),
            watched_tokens@,
            topic_of(TRANSFER_SIGNATURE@),
            header.chain_id,
            header.block_number,
            header.block_hash@,
            header.timestamp,
        ),
{
    let topic0 = event_topic(TRANSFER_SIGNATURE);
    live_transfers_with_topic(logs, watched_tokens, header, topic0.as_slice())
}

/// The transaction hashes of a batch, each once, in the order in which they
/// first occur.
pub open spec fn unique_hashes(batch: Seq<TransferView>) -> Seq<Seq<u8>>
    decreases batch.len(),
{
    if batch.len() == 0 {
        Seq::empty()
    } else {
        let before = unique_hashes(batch.drop_last());
        if before.contains(batch.last().tx_hash) {
            before
        } else {
            before.push(batch.last().tx_hash)
        }
    }
}

/// The transactions whose receipts a batch asks for.
pub fn unique_tx_hashes(transfers: &[StablecoinTransfer]) -> (hashes: Vec<Vec<u8>>)
    ensures
        byte_lists(hashes@) == unique_hashes(transfers_view(transfers@)),
{
    let mut hashes: Vec<Vec<u8>> = Vec::new();
    let mut i: usize = 0;
    assert(transfers_view(transfers@).take(0) =~= Seq::<TransferView>::empty());
    assert(byte_lists(hashes@) =~= Seq::<Seq<u8>>::empty());
    while i < transfers.len()
        invariant
            i <= transfers@.len(),
            byte_lists(hashes@) == unique_hashes(transfers_view(transfers@).take(i as int)),
        decreases transfers@.len() - i,
    {
        proof {
            let next = transfers_view(transfers@).take(i + 1);
            assert(next.drop_last() =~= transfers_view(transfers@).take(i as int));
            assert(next.last() == transfers@[i as int]@);
        }
        let ghost before = byte_lists(hashes@);
        if !contains_bytes(hashes.as_slice(), transfers[i].tx_hash.as_slice()) {
            let h = copy_bytes(transfers[i].tx_hash.as_slice());
            hashes.push(h);
            assert(byte_lists(hashes@) =~= before.push(transfers@[i as int]@.tx_hash));
        }
        i += 1;
    }
    assert(transfers_view(transfers@).take(transfers@.len() as int) =~= transfers_view(
        transfers@,
    ));
    hashes
}

/// No matching log of a live block is lost: the transfer of every log that
/// decodes is among the transfers of the block.
pub proof fn lemma_live_transfers_complete(
    logs: Seq<RawLogView>,
    watched: Seq<WatchedTokenView>,
    topic0: Seq<u8>,
    chain_id: i64,
    block_number: u64,
    block_hash: Seq<u8>,
    timestamp: u64,
    n: int,
)
    requires
        0 <= n < logs.len(),
        live_transfer_of(logs[n], watched, topic0, chain_id, block_number, block_hash, timestamp)
            is Some,
    ensures
        live_transfers_of(
            logs,
            watched,
            topic0,
            chain_id,
            block_number,
            block_hash,
            timestamp,
        ).contains(
            live_transfer_of(
                logs[n],
                watched,
                topic0,
                chain_id,
                block_number,
                block_hash,
                timestamp,
            ).unwrap(),
        ),
    decreases logs.len(),
{
    let all = live_transfers_of(logs, watched, topic0, chain_id, block_number, block_hash, timestamp);
    let before = live_transfers_of(
        logs.drop_last(),
        watched,
        topic0,
        chain_id,
        block_number,
        block_hash,
        timestamp,
    );
    if n == logs.len() - 1 {
        assert(logs[n] == logs.last());
        assert(all[before.len() as int] == all.last());
    } else {
        assert(logs.drop_last()[n] == logs[n]);
        lemma_live_transfers_complete(
            logs.drop_last(),
            watched,
            topic0,
            chain_id,
            block_number,
            block_hash,
            timestamp,
            n,
        );
        let t = live_transfer_of(
            logs[n],
            watched,
            topic0,
            chain_id,
            block_number,
            block_hash,
            timestamp,
        ).unwrap();
        let i = choose|i: int| 0 <= i < before.len() && before[i] == t;
        assert(all[i] == t);
    }
}

/// No matching log of a backfill range is lost: the transfer of every log
/// that decodes is among the transfers of the range.
pub proof fn lemma_backfill_transfers_complete(
    logs: Seq<RawLogView>,
    watched: Seq<WatchedTokenView>,
    topic0: Seq<u8>,
    chain_id: i64,
    times: Seq<BlockTime>,
    n: int,
)
    requires
        0 <= n < logs.len(),
        backfill_transfer_of(logs[n], watched, topic0, chain_id, times) is Some,
    ensures
        backfill_transfers_of(logs, watched, topic0, chain_id, times).contains(
            backfill_transfer_of(logs[n], watched, topic0, chain_id, times).unwrap(),
        ),
    decreases logs.len(),
{
    let all = backfill_transfers_of(logs, watched, topic0, chain_id, times);
    let before = backfill_transfers_of(logs.drop_last(), watched, topic0, chain_id, times);
    if n == logs.len() - 1 {
        assert(logs[n] == logs.last());
        assert(all[before.len() as int] == all.last());
    } else {
        assert(logs.drop_last()[n] == logs[n]);
        lemma_backfill_transfers_complete(logs.drop_last(), watched, topic0, chain_id, times, n);
        let t = backfill_transfer_of(logs[n], watched, topic0, chain_id, times).unwrap();
        let i = choose|i: int| 0 <= i < before.len() && before[i] == t;
        assert(all[i] == t);
    }
}

} // verus!
