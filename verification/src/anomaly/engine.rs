//! The anomaly engine: every rule, on every transfer of a batch.

use crate::anomaly::rules::{
    check_cross_chain_activity, check_large_transfer, check_new_wallet_large_receive,
    check_round_number, check_sanctioned_counterparty, check_velocity, cross_chain_activity_of,
    large_transfer_of, new_wallet_large_receive_of, round_number_of, sanctioned_counterparty_of,
    thresholds_view, velocity_of, CROSS_CHAIN_MAX_BATCH, VELOCITY_MAX_BATCH,
};
use crate::anomaly::types::{records_view, AnomalyRecord, AnomalyRecordView};
use crate::config::AnomalyDetectionConfig;
use crate::entity::label_store::{EntityLabelStore, EntityLabelView};
use crate::indexer::types::{transfer_key, transfers_view, StablecoinTransfer, TransferView};
use crate::wallet::first_seen::{wallet_events_view, NewWalletEvent, NewWalletEventView};
use vstd::prelude::*;

verus! {

/// What the store knows of the sender of one transfer.
#[derive(Debug, Clone, Copy, PartialEq, Eq, Structural)]
pub struct SenderActivity {
    /// The number of stored transfers of the sender on the transfer's
    /// chain within the velocity window before the transfer.
    pub recent_transfers: u64,
    /// The number of chains on which the sender was active within the
    /// cross-chain window before the transfer.
    pub active_chains: u64,
}

/// The settings of the rules, as plain values.
pub struct RuleSettings {
    pub enabled: bool,
    pub thresholds: Seq<(Seq<char>, u64)>,
    pub velocity_window_secs: u64,
    pub velocity_max_transfers: u32,
    pub tolerance_ppm: u32,
    pub new_wallet_threshold: u64,
    pub cross_chain_window_secs: u64,
}

/// The settings that a configuration holds.
pub open spec fn settings_of(config: AnomalyDetectionConfig) -> RuleSettings {
    RuleSettings {
        enabled: config.enabled,
        thresholds: thresholds_view(config.large_transfer_thresholds@),
        velocity_window_secs: config.velocity.window_secs,
        velocity_max_transfers: config.velocity.max_transfers,
        tolerance_ppm: config.round_number.tolerance_ppm,
        new_wallet_threshold: config.new_wallet.threshold_usd,
        cross_chain_window_secs: config.cross_chain.window_secs,
    }
}

/// A run of none or one record.
pub open spec fn as_seq(r: Option<AnomalyRecordView>) -> Seq<AnomalyRecordView> {
    match r {
        Some(a) => seq![a],
        None => Seq::empty(),
    }
}

/// The records of one transfer, in the order of the rules: large
/// transfer, sanctioned counterparty, round number, new wallet with a large
/// receipt, then velocity where the batch has at most 100 transfers, then
/// cross-chain activity where it has at most 50. The last two need what the
/// store knows of the sender and are passed over where that is not given.
pub open spec fn transfer_anomalies(
    settings: RuleSettings,
    t: TransferView,
    labels: Seq<EntityLabelView>,
    new_wallets: Seq<NewWalletEventView>,
    batch_len: nat,
    activity: Option<SenderActivity>,
) -> Seq<AnomalyRecordView> {
    as_seq(large_transfer_of(t, settings.thresholds)) + as_seq(
        sanctioned_counterparty_of(t, labels),
    ) + as_seq(round_number_of(t, settings.tolerance_ppm)) + as_seq(
        new_wallet_large_receive_of(t, new_wallets, settings.new_wallet_threshold),
    ) + (if batch_len <= VELOCITY_MAX_BATCH && activity is Some {
        as_seq(
            velocity_of(
                t,
                activity.unwrap().recent_transfers,
                settings.velocity_window_secs,
                settings.velocity_max_transfers,
            ),
        )
    } else {
        Seq::empty()
    }) + (if batch_len <= CROSS_CHAIN_MAX_BATCH && activity is Some {
        as_seq(
            cross_chain_activity_of(
                t,
                activity.unwrap().active_chains,
                settings.cross_chain_window_secs,
            ),
        )
    } else {
        Seq::empty()
    })
}

/// What is known of the sender of the transfer at `index`.
pub open spec fn activity_at(activity: Seq<SenderActivity>, index: int) -> Option<SenderActivity> {
    if 0 <= index < activity.len() {
        Some(activity[index])
    } else {
        None
    }
}

/// The records of the first `n` transfers of a batch.
pub open spec fn anomalies_upto(
    settings: RuleSettings,
    batch: Seq<TransferView>,
    labels: Seq<EntityLabelView>,
    new_wallets: Seq<NewWalletEventView>,
    activity: Seq<SenderActivity>,
    n: int,
) -> Seq<AnomalyRecordView>
    decreases n,
{
    if n <= 0 || n > batch.len() {
        Seq::empty()
    } else {
        anomalies_upto(settings, batch, labels, new_wallets, activity, n - 1) + transfer_anomalies(
            settings,
            batch[n - 1],
            labels,
            new_wallets,
            batch.len(),
            activity_at(activity, n - 1),
        )
    }
}

/// The records of a batch: nothing where detection is off, else the
/// records of its transfers in their order.
pub open spec fn batch_anomalies(
    settings: RuleSettings,
    batch: Seq<TransferView>,
    labels: Seq<EntityLabelView>,
    new_wallets: Seq<NewWalletEventView>,
    activity: Seq<SenderActivity>,
) -> Seq<AnomalyRecordView> {
    if !settings.enabled {
        Seq::empty()
    } else {
        anomalies_upto(settings, batch, labels, new_wallets, activity, batch.len() as int)
    }
}

/// Runs every rule on every transfer of a batch.
pub struct AnomalyEngine {
    pub config: AnomalyDetectionConfig,
}

fn push_record(records: &mut Vec<AnomalyRecord>, record: Option<AnomalyRecord>)
    ensures
        records_view(final(records)@) == records_view(old(records)@) + as_seq(
            match record {
                Some(r) => Some(r@),
                None => None,
            },
        ),
{
    let ghost before = records_view(records@);
    match record {
        Some(r) => {
            let ghost rv = r@;
            records.push(r);
            assert(records_view(records@) =~= before + seq![rv]);
        },
        None => {
            assert(records_view(records@) =~= before + Seq::<AnomalyRecordView>::empty());
        },
    }
}

impl AnomalyEngine {
    /// An engine with the given settings.
    pub fn new(config: AnomalyDetectionConfig) -> (engine: Self)
        ensures
            engine.config == config,
    {
        AnomalyEngine { config }
    }

    /// Whether a batch of this size is held against the velocity rule, so
    /// that the sender's recent transfers are to be counted.
    pub fn wants_velocity(&self, batch_len: usize) -> (wanted: bool)
        ensures
            wanted == (self.config.enabled && batch_len <= VELOCITY_MAX_BATCH),
    {
        self.config.enabled && batch_len <= VELOCITY_MAX_BATCH
    }

    /// Whether a batch of this size is held against the cross-chain rule,
    /// so that the sender's active chains are to be counted.
    pub fn wants_cross_chain(&self, batch_len: usize) -> (wanted: bool)
        ensures
            wanted == (self.config.enabled && batch_len <= CROSS_CHAIN_MAX_BATCH),
    {
        self.config.enabled && batch_len <= CROSS_CHAIN_MAX_BATCH
    }

    /// Runs the rules on one transfer of a batch of `batch_len` transfers.
    pub fn analyze_transfer(
        &self,
        transfer: &StablecoinTransfer,
        label_store: &EntityLabelStore,
        new_wallets: &[NewWalletEvent],
        batch_len: usize,
        activity: Option<SenderActivity>,
    ) -> (anomalies: Vec<AnomalyRecord>)
        ensures
            records_view(anomalies@) == transfer_anomalies(
                settings_of(self.config),
                transfer@,
                label_store@,
                wallet_events_view(new_wallets@),
                batch_len as nat,
                activity,
            ),
    {
        let mut anomalies: Vec<AnomalyRecord> = Vec::new();
        let ghost none = Seq::<AnomalyRecordView>::empty();
        assert(records_view(anomalies@) =~= none);
        let r1 = check_large_transfer(transfer, self.config.large_transfer_thresholds.as_slice());
        let ghost s1 = as_seq(crate::anomaly::types::record_view(r1));
        push_record(&mut anomalies, r1);
        assert(records_view(anomalies@) =~= s1);
        let r2 = check_sanctioned_counterparty(transfer, label_store);
        push_record(&mut anomalies, r2);
        let r3 = check_round_number(transfer, self.config.round_number.tolerance_ppm);
        push_record(&mut anomalies, r3);
        let r4 = check_new_wallet_large_receive(
            transfer,
            new_wallets,
            self.config.new_wallet.threshold_usd,
        );
        push_record(&mut anomalies, r4);
        let r5 = match activity {
            Some(a) => if batch_len <= VELOCITY_MAX_BATCH {
                check_velocity(
                    transfer,
                    a.recent_transfers,
                    self.config.velocity.window_secs,
                    self.config.velocity.max_transfers,
                )
            } else {
                None
            },
            None => None,
        };
        push_record(&mut anomalies, r5);
        let r6 = match activity {
            Some(a) => if batch_len <= CROSS_CHAIN_MAX_BATCH {
                check_cross_chain_activity(
                    transfer,
                    a.active_chains,
                    self.config.cross_chain.window_secs,
                )
            } else {
                None
            },
            None => None,
        };
        push_record(&mut anomalies, r6);
        anomalies
    }

    /// Analyzes a batch of transfers. `new_wallets` are the first-seen
    /// events of this batch; `activity` holds, for the transfer at the same
    /// index, what the store knows of its sender. Every record names a
    /// transfer of the batch and has a risk between 0 and 100.
    pub fn analyze_batch(
        &self,
        transfers: &[StablecoinTransfer],
        label_store: &EntityLabelStore,
        new_wallets: &[NewWalletEvent],
        activity: &[SenderActivity],
    ) -> (anomalies: Vec<AnomalyRecord>)
        ensures
            records_view(anomalies@) == batch_anomalies(
                settings_of(self.config),
                transfers_view(transfers@),
                label_store@,
                wallet_events_view(new_wallets@),
                activity@,
            ),
    {
        let mut anomalies: Vec<AnomalyRecord> = Vec::new();
        assert(records_view(anomalies@) =~= Seq::<AnomalyRecordView>::empty());
        if !self.config.enabled {
            return anomalies;
        }
        let ghost settings = settings_of(self.config);
        let ghost batch = transfers_view(transfers@);
        let mut i: usize = 0;
        while i < transfers.len()
            invariant
                i <= transfers@.len(),
                settings == settings_of(self.config),
                batch == transfers_view(transfers@),
                records_view(anomalies@) == anomalies_upto(
                    settings,
                    batch,
                    label_store@,
                    wallet_events_view(new_wallets@),
                    activity@,
                    i as int,
                ),
            decreases transfers@.len() - i,
        {
            let ghost before = records_view(anomalies@);
            assert(batch[i as int] == transfers@[i as int]@);
            let known = if i < activity.len() {
                Some(activity[i])
            } else {
                None
            };
            let mut found = self.analyze_transfer(
                &transfers[i],
                label_store,
                new_wallets,
                transfers.len(),
                known,
            );
            let ghost step = records_view(found@);
            let ghost old_anomalies = anomalies@;
            let ghost found_seq = found@;
            anomalies.append(&mut found);
            assert(anomalies@ =~= old_anomalies + found_seq);
            assert(records_view(anomalies@) =~= before + step);
            i += 1;
        }
        anomalies
    }
}

/// The record names the transfer by its natural key and has a risk of at
/// most 100.
pub open spec fn record_of_transfer(r: AnomalyRecordView, t: TransferView) -> bool {
    (r.chain_id, r.tx_hash, r.log_index) == transfer_key(t) && r.risk_score <= 100
}

/// Every record of one transfer names that transfer and has a risk of at
/// most 100.
pub proof fn lemma_transfer_anomalies_sound(
    settings: RuleSettings,
    t: TransferView,
    labels: Seq<EntityLabelView>,
    new_wallets: Seq<NewWalletEventView>,
    batch_len: nat,
    activity: Option<SenderActivity>,
)
    ensures
        forall|i: int|
            0 <= i < transfer_anomalies(
                settings,
                t,
                labels,
                new_wallets,
                batch_len,
                activity,
            ).len() ==> record_of_transfer(
                #[trigger] transfer_anomalies(
                    settings,
                    t,
                    labels,
                    new_wallets,
                    batch_len,
                    activity,
                )[i],
                t,
            ),
        transfer_anomalies(settings, t, labels, new_wallets, batch_len, activity).len() <= 6,
{
}

/// No anomaly without its transfer, and no risk outside the scale: every
/// record that the analysis of a batch gives names a transfer of that batch
/// by its natural key, and its risk is at most 100.
pub proof fn lemma_anomalies_name_transfers(
    settings: RuleSettings,
    batch: Seq<TransferView>,
    labels: Seq<EntityLabelView>,
    new_wallets: Seq<NewWalletEventView>,
    activity: Seq<SenderActivity>,
    n: int,
)
    requires
        0 <= n <= batch.len(),
    ensures
        forall|i: int|
            0 <= i < anomalies_upto(settings, batch, labels, new_wallets, activity, n).len()
                ==> exists|k: int|
                0 <= k < n && record_of_transfer(
                    #[trigger] anomalies_upto(settings, batch, labels, new_wallets, activity, n)[i],
                    #[trigger] batch[k],
                ),
    decreases n,
{
    if n > 0 {
        lemma_anomalies_name_transfers(settings, batch, labels, new_wallets, activity, n - 1);
        let before = anomalies_upto(settings, batch, labels, new_wallets, activity, n - 1);
        let step = transfer_anomalies(
            settings,
            batch[n - 1],
            labels,
            new_wallets,
            batch.len(),
            activity_at(activity, n - 1),
        );
        let all = anomalies_upto(settings, batch, labels, new_wallets, activity, n);
        assert(all == before + step);
        lemma_transfer_anomalies_sound(
            settings,
            batch[n - 1],
            labels,
            new_wallets,
            batch.len(),
            activity_at(activity, n - 1),
        );
        assert forall|i: int| 0 <= i < all.len() implies exists|k: int|
            0 <= k < n && record_of_transfer(#[trigger] all[i], #[trigger] batch[k]) by {
            if i < before.len() {
                assert(all[i] == before[i]);
                let k = choose|k: int|
                    0 <= k < n - 1 && record_of_transfer(before[i], #[trigger] batch[k]);
                assert(record_of_transfer(all[i], batch[k]));
            } else {
                assert(all[i] == step[i - before.len()]);
                assert(record_of_transfer(all[i], batch[n - 1]));
            }
        }
    }
}

} // verus!
