use basket_grid_engine::engine::connect::{
    banner, connector, env_flag, env_present, size_warnings, ConnectError, Connector, Environment,
};
use basket_grid_engine::models::config::{AgentConfig, Exchange};

fn nothing() -> Environment {
    Environment {
        deribit_client_id: None,
        deribit_client_secret: None,
        deribit_testnet: None,
        hyperliquid_private_key: None,
        hyperliquid_main_wallet: None,
        hyperliquid_testnet: None,
    }
}

fn some(s: &str) -> Option<String> {
    Some(s.to_string())
}

fn agent(exchange: Exchange) -> AgentConfig {
    let mut c = AgentConfig::default_demo();
    c.trading.exchange = exchange;
    c
}

fn error(exchange: Exchange, env: &Environment) -> ConnectError {
    connector(&agent(exchange), env).unwrap_err()
}

#[test]
fn flags_and_presence() {
    assert!(env_flag(&some("TRUE")));
    assert!(env_flag(&some("1")));
    assert!(!env_flag(&some("yes")));
    assert!(!env_flag(&some("")));
    assert!(!env_flag(&None));
    assert!(env_present(&some("x")));
    assert!(!env_present(&some("")));
    assert!(!env_present(&None));
}

#[test]
fn the_paper_exchange_starts_half_way() {
    match connector(&agent(Exchange::Mock), &nothing()).unwrap() {
        Connector::Paper { initial_price } => assert_eq!(initial_price, 6_500_000_000_000),
        _ => panic!(),
    }
}

#[test]
fn deribit_needs_credentials() {
    let mut env = nothing();
    assert_eq!(error(Exchange::Deribit, &env), ConnectError::NoDeribitClientId);
    env.deribit_client_id = some("id");
    assert_eq!(error(Exchange::Deribit, &env), ConnectError::NoDeribitClientSecret);
    env.deribit_client_secret = some("");
    assert_eq!(error(Exchange::Deribit, &env), ConnectError::EmptyDeribitCredentials);
    env.deribit_client_secret = some("word");
    match connector(&agent(Exchange::Deribit), &env).unwrap() {
        Connector::Deribit { client_id, client_secret, instrument, mainnet } => {
            assert_eq!((client_id.as_str(), client_secret.as_str()), ("id", "word"));
            assert_eq!(instrument, "BTC-USDT");
            assert!(mainnet);
        }
        _ => panic!(),
    }
    env.deribit_testnet = some("true");
    match connector(&agent(Exchange::Deribit), &env).unwrap() {
        Connector::Deribit { mainnet, .. } => assert!(!mainnet),
        _ => panic!(),
    }
}

#[test]
fn hyperliquid_needs_a_key() {
    let mut env = nothing();
    assert_eq!(error(Exchange::Hyperliquid, &env), ConnectError::NoHyperliquidKey);
    env.hyperliquid_private_key = some("");
    assert_eq!(error(Exchange::Hyperliquid, &env), ConnectError::EmptyHyperliquidKey);
    env.hyperliquid_private_key = some("word");
    env.hyperliquid_testnet = some("1");
    match connector(&agent(Exchange::Hyperliquid), &env).unwrap() {
        Connector::Hyperliquid { private_key, main_wallet, coin, mainnet } => {
            assert_eq!(private_key, "word");
            assert_eq!(main_wallet, None);
            assert_eq!(coin, "BTC-USDT");
            assert!(!mainnet);
        }
        _ => panic!(),
    }
}

#[test]
fn binance_is_not_there_yet() {
    let e = error(Exchange::Binance, &nothing());
    assert_eq!(
        e.message(),
        "Binance connector not yet implemented. Use mock, deribit, or hyperliquid."
    );
}

#[test]
fn connection_errors_in_words() {
    let words = [
        (ConnectError::NoDeribitClientId, "DERIBIT_CLIENT_ID not set in .env"),
        (ConnectError::NoDeribitClientSecret, "DERIBIT_CLIENT_SECRET not set in .env"),
        (ConnectError::EmptyDeribitCredentials, "Deribit credentials are empty"),
        (ConnectError::NoHyperliquidKey, "HYPERLIQUID_PRIVATE_KEY not set in .env"),
        (ConnectError::EmptyHyperliquidKey, "HYPERLIQUID_PRIVATE_KEY is empty"),
    ];
    for (e, w) in words {
        assert_eq!(e.message(), w);
    }
}

#[test]
fn the_banner_counts_configured_exchanges_only() {
    let mut env = nothing();
    assert!(!banner(&env).any_mainnet);
    env.hyperliquid_private_key = some("word");
    assert!(banner(&env).any_mainnet);
    env.hyperliquid_testnet = some("True");
    let b = banner(&env);
    assert!(b.hyperliquid_configured && b.hyperliquid_testnet && !b.any_mainnet);
    env.deribit_client_id = some("id");
    assert!(!banner(&env).deribit_configured);
    env.deribit_client_secret = some("word");
    assert!(banner(&env).deribit_configured && banner(&env).any_mainnet);
}

#[test]
fn sizes_are_doubted() {
    let mut c = agent(Exchange::Mock);
    let w = size_warnings(&c);
    assert_eq!(w.expected_exposure, 30_000_000);
    assert!(!w.cap_below_exposure && !w.cap_below_step);
    c.kill_switch.max_position_cap = 29_999_999;
    assert!(size_warnings(&c).cap_below_exposure);
    c.kill_switch.max_position_cap = 999_999;
    assert!(size_warnings(&c).cap_below_step);
}
