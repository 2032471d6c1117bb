//! The typed configuration of the indexer and its validation.
//!
//! Money thresholds are whole token units; the round-number tolerance is in
//! millionths; a label's confidence is in hundredths.

use vstd::prelude::*;
use crate::text::utf8;

verus! {

/// The whole configuration.
#[derive(Debug, Clone)]
pub struct Config {
    pub database: DatabaseConfig,
    pub chains: Vec<ChainConfig>,
    pub onramp_providers: Vec<OnrampProviderConfig>,
    pub fiat_currencies: Vec<FiatCurrencyConfig>,
    pub entity_attribution: EntityAttributionConfig,
    pub anomaly_detection: AnomalyDetectionConfig,
    pub api: ApiConfig,
}

/// Where the database is, and how many connections to it are kept.
#[derive(Debug, Clone)]
pub struct DatabaseConfig {
    pub url: String,
    pub max_connections: u32,
}

/// The number of database connections where the file names none.
pub fn default_max_connections() -> (n: u32)
    ensures
        n == 10,
{
    10
}

/// One chain to index.
#[derive(Debug, Clone)]
pub struct ChainConfig {
    pub name: String,
    pub chain_id: u64,
    pub rpc_http: String,
    pub rpc_ws: Option<String>,
    pub start_block: Option<u64>,
    pub batch_size: u64,
    pub poll_interval_ms: u64,
    pub max_reorg_depth: u64,
    pub tokens: Vec<TokenConfig>,
    pub decode_defi: bool,
}

/// The number of blocks in one backfill range where the file names none.
pub fn default_batch_size() -> (n: u64)
    ensures
        n == 100,
{
    100
}

/// The pause between two polls of the node where the file names none, in milliseconds.
pub fn default_poll_interval_ms() -> (n: u64)
    ensures
        n == 2000,
{
    2000
}

/// The number of blocks for which hashes are kept where the file names none.
pub fn default_max_reorg_depth() -> (n: u64)
    ensures
        n == 64,
{
    64
}

/// A token contract to watch.
#[derive(Debug, Clone)]
pub struct TokenConfig {
    pub symbol: String,
    pub address: String,
    pub decimals: u8,
}

/// An on-ramp provider.
#[derive(Debug, Clone)]
pub struct OnrampProviderConfig {
    pub name: String,
    pub provider_type: String,
    pub website: Option<String>,
    pub supported_fiat: Vec<String>,
    pub kyc_required: bool,
    pub wallets: Option<Vec<ProviderWalletConfig>>,
}

/// Whether a provider asks for identification where the file does not say.
pub fn default_kyc_required() -> (b: bool)
    ensures
        b,
{
    true
}

/// A known wallet of a provider.
#[derive(Debug, Clone)]
pub struct ProviderWalletConfig {
    pub chain: String,
    pub address: String,
    pub label: String,
}

/// A fiat currency of the registry.
#[derive(Debug, Clone)]
pub struct FiatCurrencyConfig {
    pub code: String,
    pub name: String,
    pub country: String,
    pub region: String,
    pub primary_stablecoin: String,
    pub risk_tier: String,
}

/// The risk tier of a currency where the file names none.
pub fn default_risk_tier() -> (s: String)
    ensures
        s@ == "medium"@,
{
    String::from_str("medium")
}

/// Where entity labels come from.
#[derive(Debug, Clone)]
pub struct EntityAttributionConfig {
    pub ofac_sdn_path: Option<String>,
    pub custom_watchlist_path: Option<String>,
    pub manual_labels: Vec<ManualLabelConfig>,
    pub custom_watchlists: Vec<CustomWatchlistConfig>,
}

impl Default for EntityAttributionConfig {
    fn default() -> (c: Self)
        ensures
            c.ofac_sdn_path is None,
            c.custom_watchlist_path is None,
            c.manual_labels@.len() == 0,
            c.custom_watchlists@.len() == 0,
    {
        EntityAttributionConfig {
            ofac_sdn_path: None,
            custom_watchlist_path: None,
            manual_labels: Vec::new(),
            custom_watchlists: Vec::new(),
        }
    }
}

/// A label given by hand.
#[derive(Debug, Clone)]
pub struct ManualLabelConfig {
    pub address: String,
    pub chain_id: Option<i64>,
    pub entity_name: String,
    pub entity_type: String,
    /// In hundredths: 100 is certainty.
    pub confidence: u8,
    pub source: String,
}

/// The confidence of a label where the file names none, in hundredths.
pub fn default_confidence() -> (c: u8)
    ensures
        c == 100,
{
    100
}

/// The source of a label where the file names none.
pub fn default_label_source() -> (s: String)
    ensures
        s@ == "config"@,
{
    String::from_str("config")
}

/// A watchlist file.
#[derive(Debug, Clone)]
pub struct CustomWatchlistConfig {
    pub name: String,
    pub file_path: String,
}

/// The large-transfer threshold of one token, or of every other token where
/// the symbol is `default`.
#[derive(Debug, Clone)]
pub struct TokenThreshold {
    pub symbol: String,
    /// In whole token units.
    pub units: u64,
}

/// The settings of the anomaly rules.
#[derive(Debug, Clone)]
pub struct AnomalyDetectionConfig {
    pub enabled: bool,
    pub large_transfer_thresholds: Vec<TokenThreshold>,
    pub velocity: VelocityConfig,
    pub round_number: RoundNumberConfig,
    pub new_wallet: NewWalletAnomalyConfig,
    pub cross_chain: CrossChainConfig,
}

impl Default for AnomalyDetectionConfig {
    fn default() -> (c: Self)
        ensures
            c.enabled,
            c.large_transfer_thresholds@.len() == 0,
            c.velocity.window_secs == 3600,
            c.velocity.max_transfers == 10,
            c.round_number.tolerance_ppm == 10_000,
            c.new_wallet.threshold_usd == 10_000,
            c.cross_chain.window_secs == 1800,
    {
        AnomalyDetectionConfig {
            enabled: true,
            large_transfer_thresholds: Vec::new(),
            velocity: VelocityConfig::default(),
            round_number: RoundNumberConfig::default(),
            new_wallet: NewWalletAnomalyConfig::default(),
            cross_chain: CrossChainConfig::default(),
        }
    }
}

/// The value of a switch that is on where the file does not say.
pub fn default_true() -> (b: bool)
    ensures
        b,
{
    true
}

/// The settings of the velocity rule.
#[derive(Debug, Clone, Copy)]
pub struct VelocityConfig {
    pub window_secs: u64,
    pub max_transfers: u32,
}

impl Default for VelocityConfig {
    fn default() -> (c: Self)
        ensures
            c.window_secs == 3600,
            c.max_transfers == 10,
    {
        VelocityConfig { window_secs: 3600, max_transfers: 10 }
    }
}

/// The window of the velocity rule where the file names none, in seconds.
pub fn default_velocity_window() -> (n: u64)
    ensures
        n == 3600,
{
    3600
}

/// The limit of the velocity rule where the file names none.
pub fn default_velocity_max() -> (n: u32)
    ensures
        n == 10,
{
    10
}

/// The settings of the round-number rule.
#[derive(Debug, Clone, Copy)]
pub struct RoundNumberConfig {
    /// How far, in millionths of the round base, an amount may lie from a
    /// multiple of it.
    pub tolerance_ppm: u32,
}

impl Default for RoundNumberConfig {
    fn default() -> (c: Self)
        ensures
            c.tolerance_ppm == 10_000,
    {
        RoundNumberConfig { tolerance_ppm: 10_000 }
    }
}

/// The tolerance of the round-number rule where the file names none, in millionths.
pub fn default_round_tolerance() -> (n: u32)
    ensures
        n == 10_000,
{
    10_000
}

/// The settings of the rule on new wallets.
#[derive(Debug, Clone, Copy)]
pub struct NewWalletAnomalyConfig {
    /// In whole token units.
    pub threshold_usd: u64,
}

impl Default for NewWalletAnomalyConfig {
    fn default() -> (c: Self)
        ensures
            c.threshold_usd == 10_000,
    {
        NewWalletAnomalyConfig { threshold_usd: 10_000 }
    }
}

/// The threshold of the rule on new wallets where the file names none, in whole units.
pub fn default_new_wallet_threshold() -> (n: u64)
    ensures
        n == 10_000,
{
    10_000
}

/// The settings of the cross-chain rule.
#[derive(Debug, Clone, Copy)]
pub struct CrossChainConfig {
    pub window_secs: u64,
}

impl Default for CrossChainConfig {
    fn default() -> (c: Self)
        ensures
            c.window_secs == 1800,
    {
        CrossChainConfig { window_secs: 1800 }
    }
}

/// The window of the cross-chain rule where the file names none, in seconds.
pub fn default_cross_chain_window() -> (n: u64)
    ensures
        n == 1800,
{
    1800
}

/// The settings of the read API.
#[derive(Debug, Clone)]
pub struct ApiConfig {
    pub enabled: bool,
    pub port: u16,
    pub host: String,
    pub exchange_wallets_path: Option<String>,
}

impl Default for ApiConfig {
    fn default() -> (c: Self)
        ensures
            c.enabled,
            c.port == 3000,
            c.host@ == "0.0.0.0"@,
            c.exchange_wallets_path is None,
    {
        ApiConfig {
            enabled: true,
            port: 3000,
            host: String::from_str("0.0.0.0"),
            exchange_wallets_path: None,
        }
    }
}

/// The port of the read API where the file names none.
pub fn default_api_port() -> (n: u16)
    ensures
        n == 3000,
{
    3000
}

/// The host of the read API where the file names none.
pub fn default_api_host() -> (s: String)
    ensures
        s@ == "0.0.0.0"@,
{
    String::from_str("0.0.0.0")
}

/// Why a configuration is refused.
#[derive(Debug, Clone, Copy, PartialEq, Eq, Structural)]
pub enum ConfigError {
    /// No chain is configured.
    NoChains,
    /// The chain at this index has no token.
    NoTokens { chain: usize },
    /// The token at this index of the chain at this index has an address
    /// that is not 42 bytes beginning with `0x`.
    InvalidTokenAddress { chain: usize, token: usize },
}

/// A token address as the configuration must give it: 42 bytes, the first
/// two of them `0x`.
pub open spec fn address_text_ok(address: Seq<u8>) -> bool {
    address.len() == 42 && address[0] == 0x30 && address[1] == 0x78
}

/// The chain has a token and every token address is well formed.
pub open spec fn chain_ok(chain: ChainConfig) -> bool {
    &&& chain.tokens@.len() > 0
    &&& forall|t: int|
        0 <= t < chain.tokens@.len() ==> address_text_ok(
            utf8((#[trigger] chain.tokens@[t]).address@),
        )
}

/// What validation answers for `config`: the first fault in reading order,
/// or nothing where there is none.
pub open spec fn validation_outcome(config: Config, r: Result<(), ConfigError>) -> bool {
    match r {
        Ok(()) => config.chains@.len() > 0 && forall|c: int|
            0 <= c < config.chains@.len() ==> chain_ok(#[trigger] config.chains@[c]),
        Err(ConfigError::NoChains) => config.chains@.len() == 0,
        Err(ConfigError::NoTokens { chain }) => {
            &&& chain < config.chains@.len()
            &&& forall|c: int| 0 <= c < chain ==> chain_ok(#[trigger] config.chains@[c])
            &&& config.chains@[chain as int].tokens@.len() == 0
        },
        Err(ConfigError::InvalidTokenAddress { chain, token }) => {
            &&& chain < config.chains@.len()
            &&& forall|c: int| 0 <= c < chain ==> chain_ok(#[trigger] config.chains@[c])
            &&& token < config.chains@[chain as int].tokens@.len()
            &&& forall|t: int|
                0 <= t < token ==> address_text_ok(
                    utf8((#[trigger] config.chains@[chain as int].tokens@[t]).address@),
                )
            &&& !address_text_ok(
                utf8(config.chains@[chain as int].tokens@[token as int].address@),
            )
        },
    }
}

/// Whether `address` is 42 bytes that begin with `0x`.
pub fn address_text_is_ok(address: &str) -> (ok: bool)
    ensures
        ok == address_text_ok(utf8(address@)),
{
    let raw = address.as_bytes();
    raw.len() == 42 && raw[0] == 0x30 && raw[1] == 0x78
}

impl Config {
    /// Checks that at least one chain is configured, that each chain has at
    /// least one token, and that every token address is 42 bytes beginning
    /// with `0x`. The first fault in reading order is reported.
    pub fn validate(&self) -> (r: Result<(), ConfigError>)
        ensures
            validation_outcome(*self, r),
    {
        if self.chains.len() == 0 {
            return Err(ConfigError::NoChains);
        }
        let mut c: usize = 0;
        while c < self.chains.len()
            invariant
                c <= self.chains@.len(),
                forall|k: int| 0 <= k < c ==> chain_ok(#[trigger] self.chains@[k]),
            decreases self.chains@.len() - c,
        {
            let chain = &self.chains[c];
            if chain.tokens.len() == 0 {
                return Err(ConfigError::NoTokens { chain: c });
            }
            let mut t: usize = 0;
            while t < chain.tokens.len()
                invariant
                    c < self.chains@.len(),
                    *chain == self.chains@[c as int],
                    t <= chain.tokens@.len(),
                    forall|k: int| 0 <= k < c ==> chain_ok(#[trigger] self.chains@[k]),
                    forall|k: int|
                        0 <= k < t ==> address_text_ok(
                            utf8((#[trigger] chain.tokens@[k]).address@),
                        ),
                decreases chain.tokens@.len() - t,
            {
                if !address_text_is_ok(chain.tokens[t].address.as_str()) {
                    return Err(ConfigError::InvalidTokenAddress { chain: c, token: t });
                }
                t += 1;
            }
            c += 1;
        }
        Ok(())
    }
}

} // verus!
