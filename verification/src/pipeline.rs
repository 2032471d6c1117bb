//! The enrichment pipeline: first-seen wallets, entity attribution, graph
//! edges and anomalies for each stored batch, in that order.

use crate::anomaly::engine::{batch_anomalies, settings_of, AnomalyEngine, SenderActivity};
use crate::anomaly::types::{records_view, AnomalyRecord, AnomalyRecordView};
use crate::config::AnomalyDetectionConfig;
use crate::entity::label_store::{EntityLabelStore, EntityLabelView};
use crate::entity::matcher::{attribute_entities, batch_flags, flags_view, EntityFlag, EntityFlagView};
use crate::graph::tracker::{aggregated, edges_view, update_edges, AggregatedEdge, EdgeView};
use crate::indexer::types::{transfers_view, StablecoinTransfer, TransferView};
use crate::wallet::first_seen::{
    first_seen_run, wallet_events_view, NewWalletEvent, NewWalletEventView, WalletKey,
    WalletTracker,
};
use vstd::prelude::*;

verus! {

/// The counts of one run of the pipeline.
#[derive(Debug, Clone, Copy, PartialEq, Eq, Structural)]
pub struct EnrichmentResult {
    pub entities_attributed: u64,
    pub new_wallets_found: u64,
    pub anomalies_detected: u64,
    pub graph_edges_updated: u64,
}

impl Default for EnrichmentResult {
    fn default() -> (r: Self)
        ensures
            r.entities_attributed == 0,
            r.new_wallets_found == 0,
            r.anomalies_detected == 0,
            r.graph_edges_updated == 0,
    {
        EnrichmentResult {
            entities_attributed: 0,
            new_wallets_found: 0,
            anomalies_detected: 0,
            graph_edges_updated: 0,
        }
    }
}

/// What a batch gives rise to: the rows to write, in the order of the
/// pipeline's steps.
#[derive(Debug)]
pub struct Enrichment {
    pub new_wallets: Vec<NewWalletEvent>,
    pub entity_flags: Vec<EntityFlag>,
    pub edges: Vec<AggregatedEdge>,
    pub anomalies: Vec<AnomalyRecord>,
}

/// What a `Enrichment` holds, as plain mathematical values.
pub struct EnrichmentView {
    pub new_wallets: Seq<NewWalletEventView>,
    pub entity_flags: Seq<EntityFlagView>,
    pub edges: Seq<EdgeView>,
    pub anomalies: Seq<AnomalyRecordView>,
}

impl View for Enrichment {
    type V = EnrichmentView;

    open spec fn view(&self) -> EnrichmentView {
        EnrichmentView {
            new_wallets: wallet_events_view(self.new_wallets@),
            entity_flags: flags_view(self.entity_flags@),
            edges: edges_view(self.edges@),
            anomalies: records_view(self.anomalies@),
        }
    }
}

/// The enrichment of a batch, given the wallets known and the labels held
/// at entry: it depends on nothing else. The anomaly rules see the
/// first-seen events of this very batch.
pub open spec fn enrichment_of(
    known: Set<WalletKey>,
    labels: Seq<EntityLabelView>,
    config: AnomalyDetectionConfig,
    batch: Seq<TransferView>,
    activity: Seq<SenderActivity>,
) -> EnrichmentView {
    let new_wallets = first_seen_run(known, batch).1;
    EnrichmentView {
        new_wallets,
        entity_flags: batch_flags(labels, batch),
        edges: aggregated(batch),
        anomalies: batch_anomalies(settings_of(config), batch, labels, new_wallets, activity),
    }
}

/// Enrichment is deterministic: two runs on the same batch, with the same
/// settings and the same knowledge of the senders, from states that know
/// the same wallets and hold the same labels, give the same rows and leave
/// the same wallets known.
pub proof fn lemma_enrichment_is_deterministic(
    known_a: Set<WalletKey>,
    known_b: Set<WalletKey>,
    labels_a: Seq<EntityLabelView>,
    labels_b: Seq<EntityLabelView>,
    config: AnomalyDetectionConfig,
    batch: Seq<TransferView>,
    activity: Seq<SenderActivity>,
)
    requires
        known_a =~= known_b,
        labels_a =~= labels_b,
    ensures
        enrichment_of(known_a, labels_a, config, batch, activity) == enrichment_of(
            known_b,
            labels_b,
            config,
            batch,
            activity,
        ),
        first_seen_run(known_a, batch).0 == first_seen_run(known_b, batch).0,
{
}

/// The in-memory state that enrichment works on. One pipeline serves all
/// chains, one batch at a time.
pub struct TransferPipeline {
    pub entity_store: EntityLabelStore,
    pub wallet_tracker: WalletTracker,
    pub anomaly_engine: AnomalyEngine,
}

fn count(n: usize) -> (c: u64)
    ensures
        c == n,
{
    n as u64
}

impl Enrichment {
    /// The counts of this run, given how many anomaly rows and graph edges
    /// the store reported as written.
    pub fn result(&self, anomalies_written: u64, edges_written: u64) -> (r: EnrichmentResult)
        ensures
            r.entities_attributed == self.entity_flags@.len(),
            r.new_wallets_found == self.new_wallets@.len(),
            r.anomalies_detected == anomalies_written,
            r.graph_edges_updated == edges_written,
    {
        EnrichmentResult {
            entities_attributed: count(self.entity_flags.len()),
            new_wallets_found: count(self.new_wallets.len()),
            anomalies_detected: anomalies_written,
            graph_edges_updated: edges_written,
        }
    }
}

impl TransferPipeline {
    /// A pipeline over the loaded labels and wallets.
    pub fn init(
        entity_store: EntityLabelStore,
        wallet_tracker: WalletTracker,
        anomaly_detection: AnomalyDetectionConfig,
    ) -> (pipeline: Self)
        ensures
            pipeline.entity_store == entity_store,
            pipeline.wallet_tracker == wallet_tracker,
            pipeline.anomaly_engine.config == anomaly_detection,
    {
        TransferPipeline {
            entity_store,
            wallet_tracker,
            anomaly_engine: AnomalyEngine::new(anomaly_detection),
        }
    }

    /// Runs all enrichment steps on a batch of stored transfers: new
    /// wallets, entity attribution, graph edges, anomalies. `activity`
    /// holds, for the transfer at the same index, what the store knows of
    /// its sender. The result is a function of the batch, of `activity` and
    /// of the state at entry; only the wallet tracker changes.
    pub fn enrich(&mut self, transfers: &[StablecoinTransfer], activity: &[SenderActivity]) -> (enrichment:
        Enrichment)
        ensures
            enrichment@ == enrichment_of(
                old(self).wallet_tracker@,
                old(self).entity_store@,
                old(self).anomaly_engine.config,
                transfers_view(transfers@),
                activity@,
            ),
            final(self).wallet_tracker@ == first_seen_run(
                old(self).wallet_tracker@,
                transfers_view(transfers@),
            ).0,
            final(self).entity_store == old(self).entity_store,
            final(self).anomaly_engine == old(self).anomaly_engine,
    {
        let new_wallets = self.wallet_tracker.process_transfers(transfers);
        let entity_flags = attribute_entities(transfers, &self.entity_store);
        let edges = update_edges(transfers);
        let anomalies = self.anomaly_engine.analyze_batch(
            transfers,
            &self.entity_store,
            new_wallets.as_slice(),
            activity,
        );
        Enrichment { new_wallets, entity_flags, edges, anomalies }
    }
}

} // verus!
