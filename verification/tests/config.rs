use chainwatch_indexer::config::{
    default_api_host, default_api_port, default_batch_size, default_confidence,
    default_cross_chain_window, default_kyc_required, default_label_source,
    default_max_connections, default_max_reorg_depth, default_new_wallet_threshold,
    default_poll_interval_ms, default_risk_tier, default_round_tolerance, default_true,
    default_velocity_max, default_velocity_window, AnomalyDetectionConfig, ApiConfig, ChainConfig,
    Config, ConfigError, CrossChainConfig, DatabaseConfig, EntityAttributionConfig,
    NewWalletAnomalyConfig, RoundNumberConfig, TokenConfig, VelocityConfig,
};

fn config_with(chains: Vec<ChainConfig>) -> Config {
    Config {
        database: DatabaseConfig { url: "postgres://localhost/test".to_string(), max_connections: 5 },
        chains,
        onramp_providers: vec![],
        fiat_currencies: vec![],
        entity_attribution: EntityAttributionConfig::default(),
        anomaly_detection: AnomalyDetectionConfig::default(),
        api: ApiConfig::default(),
    }
}

fn chain_with(name: &str, tokens: Vec<TokenConfig>) -> ChainConfig {
    ChainConfig {
        name: name.to_string(),
        chain_id: 1,
        rpc_http: "http://localhost:8545".to_string(),
        rpc_ws: None,
        start_block: None,
        batch_size: 100,
        poll_interval_ms: 2000,
        max_reorg_depth: 64,
        tokens,
        decode_defi: true,
    }
}

fn token(symbol: &str, address: &str) -> TokenConfig {
    TokenConfig { symbol: symbol.to_string(), address: address.to_string(), decimals: 6 }
}

const USDC: &str = "0xA0b86991c6218b36c1d19D4a2e9Eb0cE3606eB48";

#[test]
fn test_validate_empty_chains() {
    let config = Config {
        database: DatabaseConfig {
            url: "postgres://localhost/test".to_string(),
            max_connections: 5,
        },
        chains: vec![],
        onramp_providers: vec![],
        fiat_currencies: vec![],
        entity_attribution: EntityAttributionConfig::default(),
        anomaly_detection: AnomalyDetectionConfig::default(),
        api: ApiConfig::default(),
    };
    assert!(config.validate().is_err());
}

#[test]
fn test_validate_bad_address() {
    let config = Config {
        database: DatabaseConfig {
            url: "postgres://localhost/test".to_string(),
            max_connections: 5,
        },
        chains: vec![ChainConfig {
            name: "test".to_string(),
            chain_id: 1,
            rpc_http: "http://localhost:8545".to_string(),
            rpc_ws: None,
            start_block: None,
            batch_size: 100,
            poll_interval_ms: 2000,
            max_reorg_depth: 64,
            tokens: vec![TokenConfig {
                symbol: "BAD".to_string(),
                address: "not-an-address".to_string(),
                decimals: 6,
            }],
            decode_defi: true,
        }],
        onramp_providers: vec![],
        fiat_currencies: vec![],
        entity_attribution: EntityAttributionConfig::default(),
        anomaly_detection: AnomalyDetectionConfig::default(),
        api: ApiConfig::default(),
    };
    assert!(config.validate().is_err());
}

#[test]
fn validate_accepts_a_sound_config() {
    let config = config_with(vec![chain_with("ethereum", vec![token("USDC", USDC)])]);
    assert_eq!(config.validate(), Ok(()));
}

#[test]
fn validate_names_the_first_fault() {
    assert_eq!(config_with(vec![]).validate(), Err(ConfigError::NoChains));
    let config = config_with(vec![
        chain_with("a", vec![token("USDC", USDC)]),
        chain_with("b", vec![]),
        chain_with("c", vec![token("BAD", "zz")]),
    ]);
    assert_eq!(config.validate(), Err(ConfigError::NoTokens { chain: 1 }));
    let config = config_with(vec![
        chain_with("a", vec![token("USDC", USDC)]),
        chain_with("b", vec![token("USDC", USDC), token("BAD", "not-an-address")]),
    ]);
    assert_eq!(config.validate(), Err(ConfigError::InvalidTokenAddress { chain: 1, token: 1 }));
}

#[test]
fn validate_checks_prefix_and_length_only() {
    let forty_two = format!("0x{}", "z".repeat(40));
    assert_eq!(
        config_with(vec![chain_with("a", vec![token("T", &forty_two)])]).validate(),
        Ok(())
    );
    let short = format!("0x{}", "a".repeat(39));
    assert_eq!(
        config_with(vec![chain_with("a", vec![token("T", &short)])]).validate(),
        Err(ConfigError::InvalidTokenAddress { chain: 0, token: 0 })
    );
    let no_prefix = "a".repeat(42);
    assert_eq!(
        config_with(vec![chain_with("a", vec![token("T", &no_prefix)])]).validate(),
        Err(ConfigError::InvalidTokenAddress { chain: 0, token: 0 })
    );
    let upper_prefix = format!("0X{}", "a".repeat(40));
    assert_eq!(
        config_with(vec![chain_with("a", vec![token("T", &upper_prefix)])]).validate(),
        Err(ConfigError::InvalidTokenAddress { chain: 0, token: 0 })
    );
}

#[test]
fn defaults_are_the_documented_ones() {
    assert_eq!(default_max_connections(), 10);
    assert_eq!(default_batch_size(), 100);
    assert_eq!(default_poll_interval_ms(), 2000);
    assert_eq!(default_max_reorg_depth(), 64);
    assert!(default_kyc_required());
    assert_eq!(default_risk_tier(), "medium");
    assert_eq!(default_confidence(), 100);
    assert_eq!(default_label_source(), "config");
    assert!(default_true());
    assert_eq!(default_velocity_window(), 3600);
    assert_eq!(default_velocity_max(), 10);
    assert_eq!(default_round_tolerance(), 10_000);
    assert_eq!(default_new_wallet_threshold(), 10_000);
    assert_eq!(default_cross_chain_window(), 1800);
    assert_eq!(default_api_port(), 3000);
    assert_eq!(default_api_host(), "0.0.0.0");
}

#[test]
fn default_sections_are_the_documented_ones() {
    let a = AnomalyDetectionConfig::default();
    assert!(a.enabled);
    assert!(a.large_transfer_thresholds.is_empty());
    assert_eq!(a.velocity.window_secs, 3600);
    assert_eq!(a.velocity.max_transfers, 10);
    assert_eq!(a.round_number.tolerance_ppm, 10_000);
    assert_eq!(a.new_wallet.threshold_usd, 10_000);
    assert_eq!(a.cross_chain.window_secs, 1800);
    assert_eq!(VelocityConfig::default().max_transfers, 10);
    assert_eq!(RoundNumberConfig::default().tolerance_ppm, 10_000);
    assert_eq!(NewWalletAnomalyConfig::default().threshold_usd, 10_000);
    assert_eq!(CrossChainConfig::default().window_secs, 1800);
    let api = ApiConfig::default();
    assert!(api.enabled);
    assert_eq!(api.port, 3000);
    assert_eq!(api.host, "0.0.0.0");
    assert!(api.exchange_wallets_path.is_none());
    let e = EntityAttributionConfig::default();
    assert!(e.ofac_sdn_path.is_none() && e.manual_labels.is_empty());
}
