//! The index of known provider wallets.

use crate::bytes::bytes_eq;
use crate::text::str_eq;
use vstd::prelude::*;

verus! {

/// The provider behind a wallet.
#[derive(Debug)]
pub struct ProviderWalletInfo {
    pub provider_id: i32,
    pub provider_name: String,
    pub label: Option<String>,
}

/// A wallet of a provider on a chain.
#[derive(Debug)]
pub struct ProviderWallet {
    pub chain_name: String,
    pub address: Vec<u8>,
    pub info: ProviderWalletInfo,
}

/// What a `ProviderWallet` holds, as plain mathematical values.
pub struct ProviderWalletView {
    pub chain_name: Seq<char>,
    pub address: Seq<u8>,
    pub provider_id: i32,
}

impl View for ProviderWallet {
    type V = ProviderWalletView;

    open spec fn view(&self) -> ProviderWalletView {
        ProviderWalletView {
            chain_name: self.chain_name@,
            address: self.address@,
            provider_id: self.info.provider_id,
        }
    }
}

/// The views of a run of wallets.
pub open spec fn wallets_view(wallets: Seq<ProviderWallet>) -> Seq<ProviderWalletView> {
    wallets.map_values(|w: ProviderWallet| w@)
}

/// The provider of the first wallet with the given chain and address.
pub open spec fn provider_of(
    wallets: Seq<ProviderWalletView>,
    chain_name: Seq<char>,
    address: Seq<u8>,
) -> Option<i32>
    decreases wallets.len(),
{
    if wallets.len() == 0 {
        None
    } else if wallets[0].chain_name == chain_name && wallets[0].address == address {
        Some(wallets[0].provider_id)
    } else {
        provider_of(wallets.drop_first(), chain_name, address)
    }
}

/// The known wallets of all providers.
#[derive(Debug)]
pub struct ProviderWalletIndex {
    pub wallets: Vec<ProviderWallet>,
}

impl View for ProviderWalletIndex {
    type V = Seq<ProviderWalletView>;

    open spec fn view(&self) -> Seq<ProviderWalletView> {
        wallets_view(self.wallets@)
    }
}

impl ProviderWalletIndex {
    /// The index of the stored provider wallets.
    pub fn load_provider_wallet_index(rows: Vec<ProviderWallet>) -> (index: Self)
        ensures
            index@ == wallets_view(rows@),
    {
        ProviderWalletIndex { wallets: rows }
    }

    /// The wallet with the given chain and address, if a provider has one.
    pub fn get(&self, chain_name: &str, address: &[u8]) -> (found: Option<&ProviderWalletInfo>)
        ensures
            match found {
                Some(info) => provider_of(self@, chain_name@, address@) == Some(info.provider_id),
                None => provider_of(self@, chain_name@, address@) is None,
            },
    {
        let ghost all = self@;
        let mut i: usize = 0;
        assert(all.skip(0) =~= all);
        while i < self.wallets.len()
            invariant
                i <= self.wallets@.len(),
                all == self@,
                provider_of(all, chain_name@, address@) == provider_of(
                    all.skip(i as int),
                    chain_name@,
                    address@,
                ),
            decreases self.wallets@.len() - i,
        {
            assert(all.skip(i as int)[0] == all[i as int]);
            assert(all.skip(i as int).drop_first() =~= all.skip(i + 1));
            let w = &self.wallets[i];
            if str_eq(w.chain_name.as_str(), chain_name) && bytes_eq(w.address.as_slice(), address) {
                return Some(&w.info);
            }
            i += 1;
        }
        None
    }
}

} // verus!
