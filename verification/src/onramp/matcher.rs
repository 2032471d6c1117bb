//! Attribution of transfers to on-ramp providers.

use crate::bytes::copy_bytes;
use crate::indexer::types::{transfers_view, StablecoinTransfer, TransferView};
use crate::onramp::registry::{provider_of, ProviderWalletIndex, ProviderWalletView};
use vstd::prelude::*;

verus! {

/// A link from a transfer, named by its natural key, to the provider on one
/// of its sides.
#[derive(Debug)]
pub struct OnrampAttribution {
    pub chain_id: i64,
    pub tx_hash: Vec<u8>,
    pub log_index: i32,
    pub provider_id: i32,
    /// `withdrawal` where the provider sends, `deposit` where it receives.
    pub direction: String,
}

/// What a `OnrampAttribution` holds, as plain mathematical values.
pub struct OnrampAttributionView {
    pub chain_id: i64,
    pub tx_hash: Seq<u8>,
    pub log_index: i32,
    pub provider_id: i32,
    pub direction: Seq<char>,
}

impl View for OnrampAttribution {
    type V = OnrampAttributionView;

    open spec fn view(&self) -> OnrampAttributionView {
        OnrampAttributionView {
            chain_id: self.chain_id,
            tx_hash: self.tx_hash@,
            log_index: self.log_index,
            provider_id: self.provider_id,
            direction: self.direction@,
        }
    }
}

/// The views of a run of attributions.
pub open spec fn attributions_view(list: Seq<OnrampAttribution>) -> Seq<OnrampAttributionView> {
    list.map_values(|a: OnrampAttribution| a@)
}

/// The attribution of a transfer on the chain named `chain_name`: a
/// withdrawal where the sender is a provider wallet, else a deposit where
/// the receiver is one, else nothing.
pub open spec fn onramp_of(
    wallets: Seq<ProviderWalletView>,
    chain_name: Seq<char>,
    t: TransferView,
) -> Option<OnrampAttributionView> {
    match provider_of(wallets, chain_name, t.from_address) {
        Some(provider_id) => Some(
            OnrampAttributionView {
                chain_id: t.chain_id,
                tx_hash: t.tx_hash,
                log_index: t.log_index,
                provider_id,
                direction: "withdrawal"@,
            },
        ),
        None => match provider_of(wallets, chain_name, t.to_address) {
            Some(provider_id) => Some(
                OnrampAttributionView {
                    chain_id: t.chain_id,
                    tx_hash: t.tx_hash,
                    log_index: t.log_index,
                    provider_id,
                    direction: "deposit"@,
                },
            ),
            None => None,
        },
    }
}

/// The attributions of a batch, in the order of its transfers.
pub open spec fn onramp_attributions_of(
    wallets: Seq<ProviderWalletView>,
    chain_name: Seq<char>,
    batch: Seq<TransferView>,
) -> Seq<OnrampAttributionView>
    decreases batch.len(),
{
    if batch.len() == 0 {
        Seq::empty()
    } else {
        let before = onramp_attributions_of(wallets, chain_name, batch.drop_last());
        match onramp_of(wallets, chain_name, batch.last()) {
            Some(a) => before.push(a),
            None => before,
        }
    }
}

/// Matches a batch of transfers against the known provider wallets of the
/// chain. A transfer gives at most one attribution; the sender's side goes
/// first.
pub fn attribute_onramp_transfers(
    chain_name: &str,
    transfers: &[StablecoinTransfer],
    wallet_index: &ProviderWalletIndex,
) -> (attributions: Vec<OnrampAttribution>)
    ensures
        attributions_view(attributions@) == onramp_attributions_of(
            wallet_index@,
            chain_name@,
            transfers_view(transfers@),
        ),
{
    let mut attributions: Vec<OnrampAttribution> = Vec::new();
    let mut i: usize = 0;
    assert(transfers_view(transfers@).take(0) =~= Seq::<TransferView>::empty());
    assert(attributions_view(attributions@) =~= Seq::<OnrampAttributionView>::empty());
    while i < transfers.len()
        invariant
            i <= transfers@.len(),
            attributions_view(attributions@) == onramp_attributions_of(
                wallet_index@,
                chain_name@,
                transfers_view(transfers@).take(i as int),
            ),
        decreases transfers@.len() - i,
    {
        let t = &transfers[i];
        proof {
            let next = transfers_view(transfers@).take(i + 1);
            assert(next.drop_last() =~= transfers_view(transfers@).take(i as int));
            assert(next.last() == t@);
        }
        let ghost before = attributions_view(attributions@);
        let found = match wallet_index.get(chain_name, t.from_address.as_slice()) {
            Some(info) => Some((info.provider_id, "withdrawal")),
            None => match wallet_index.get(chain_name, t.to_address.as_slice()) {
                Some(info) => Some((info.provider_id, "deposit")),
                None => None,
            },
        };
        match found {
            Some((provider_id, direction)) => {
                let a = OnrampAttribution {
                    chain_id: t.chain_id,
                    tx_hash: copy_bytes(t.tx_hash.as_slice()),
                    log_index: t.log_index,
                    provider_id,
                    direction: String::from_str(direction),
                };
                let ghost av = a@;
                attributions.push(a);
                assert(attributions_view(attributions@) =~= before.push(av));
            },
            None => {},
        }
        i += 1;
    }
    assert(transfers_view(transfers@).take(transfers@.len() as int) =~= transfers_view(
        transfers@,
    ));
    attributions
}

} // verus!
