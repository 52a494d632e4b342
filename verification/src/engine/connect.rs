//! Which exchange an agent connects to, and what the environment must hold
//! for it.
use vstd::prelude::*;

use crate::amount::clamp;
use crate::models::config::{AgentConfig, Exchange};
use crate::models::order::{halfway, midpoint};
use crate::text::{eq_ignore_case, same_letters};

verus! {

/// The environment variables that concern exchanges; `None` where one is not
/// set.
pub struct Environment {
    pub deribit_client_id: Option<String>,
    pub deribit_client_secret: Option<String>,
    pub deribit_testnet: Option<String>,
    pub hyperliquid_private_key: Option<String>,
    pub hyperliquid_main_wallet: Option<String>,
    pub hyperliquid_testnet: Option<String>,
}

/// What a connection needs.
#[derive(Debug)]
pub enum Connector {
    Paper { initial_price: i64 },
    Deribit { client_id: String, client_secret: String, instrument: String, mainnet: bool },
    Hyperliquid { private_key: String, main_wallet: Option<String>, coin: String, mainnet: bool },
}

/// Why an agent cannot connect.
#[derive(Debug, Clone, Copy, PartialEq, Eq, Structural)]
pub enum ConnectError {
    NoDeribitClientId,
    NoDeribitClientSecret,
    EmptyDeribitCredentials,
    NoHyperliquidKey,
    EmptyHyperliquidKey,
    BinanceNotImplemented,
}

impl ConnectError {
    /// The error in words.
    pub open spec fn words(self) -> Seq<char> {
        match self {
            ConnectError::NoDeribitClientId => "DERIBIT_CLIENT_ID not set in .env"@,
            ConnectError::NoDeribitClientSecret => "DERIBIT_CLIENT_SECRET not set in .env"@,
            ConnectError::EmptyDeribitCredentials => "Deribit credentials are empty"@,
            ConnectError::NoHyperliquidKey => "HYPERLIQUID_PRIVATE_KEY not set in .env"@,
            ConnectError::EmptyHyperliquidKey => "HYPERLIQUID_PRIVATE_KEY is empty"@,
            ConnectError::BinanceNotImplemented =>
                "Binance connector not yet implemented. Use mock, deribit, or hyperliquid."@,
        }
    }

    /// The error in words.
    pub fn message(self) -> (r: String)
        ensures
            r@ == self.words(),
    {
        match self {
            ConnectError::NoDeribitClientId => "DERIBIT_CLIENT_ID not set in .env".to_string(),
            ConnectError::NoDeribitClientSecret =>
                "DERIBIT_CLIENT_SECRET not set in .env".to_string(),
            ConnectError::EmptyDeribitCredentials => "Deribit credentials are empty".to_string(),
            ConnectError::NoHyperliquidKey => "HYPERLIQUID_PRIVATE_KEY not set in .env".to_string(),
            ConnectError::EmptyHyperliquidKey => "HYPERLIQUID_PRIVATE_KEY is empty".to_string(),
            ConnectError::BinanceNotImplemented =>
                "Binance connector not yet implemented. Use mock, deribit, or hyperliquid.".to_string(),
        }
    }
}

/// A variable that switches something on: `true` in any case, or `1`.
pub open spec fn is_on(value: Option<String>) -> bool {
    match value {
        Some(v) => same_letters(v@, "true"@) || v@ == "1"@,
        None => false,
    }
}

/// A variable that is set to something.
pub open spec fn is_given(value: Option<String>) -> bool {
    match value {
        Some(v) => v@.len() > 0,
        None => false,
    }
}

/// A variable that switches something on.
pub fn env_flag(value: &Option<String>) -> (r: bool)
    ensures
        r == is_on(*value),
{
    match value {
        Some(v) => eq_ignore_case(v.as_str(), "true") || *v == "1".to_string(),
        None => false,
    }
}

/// A variable that is set to something.
pub fn env_present(value: &Option<String>) -> (r: bool)
    ensures
        r == is_given(*value),
{
    match value {
        Some(v) => v.as_str().unicode_len() > 0,
        None => false,
    }
}

/// What the start-up banner says of the configured exchanges.
#[derive(Debug, Clone, Copy, PartialEq, Eq, Structural)]
pub struct Banner {
    pub deribit_configured: bool,
    pub hyperliquid_configured: bool,
    pub deribit_testnet: bool,
    pub hyperliquid_testnet: bool,
    /// An exchange with real money is configured.
    pub any_mainnet: bool,
}

/// What the start-up banner says. Only an exchange with credentials counts.
pub fn banner(env: &Environment) -> (r: Banner)
    ensures
        r.deribit_configured == (is_given(env.deribit_client_id) && is_given(
            env.deribit_client_secret,
        )),
        r.hyperliquid_configured == is_given(env.hyperliquid_private_key),
        r.deribit_testnet == is_on(env.deribit_testnet),
        r.hyperliquid_testnet == is_on(env.hyperliquid_testnet),
        r.any_mainnet == ((r.deribit_configured && !r.deribit_testnet) || (r.hyperliquid_configured
            && !r.hyperliquid_testnet)),
{
    let deribit_configured: bool = env_present(&env.deribit_client_id) && env_present(
        &env.deribit_client_secret,
    );
    let hyperliquid_configured: bool = env_present(&env.hyperliquid_private_key);
    let deribit_testnet: bool = env_flag(&env.deribit_testnet);
    let hyperliquid_testnet: bool = env_flag(&env.hyperliquid_testnet);
    Banner {
        deribit_configured,
        hyperliquid_configured,
        deribit_testnet,
        hyperliquid_testnet,
        any_mainnet: (deribit_configured && !deribit_testnet) || (hyperliquid_configured
            && !hyperliquid_testnet),
    }
}

/// The connection of an agent, or the first thing that it lacks.
pub open spec fn connects(
    config: AgentConfig,
    env: Environment,
    r: Result<Connector, ConnectError>,
) -> bool {
    match config.trading.exchange {
        Exchange::Mock => r == Ok::<Connector, ConnectError>(
            Connector::Paper {
                initial_price: midpoint(config.trading.grid_lower, config.trading.grid_upper),
            },
        ),
        Exchange::Deribit => match (env.deribit_client_id, env.deribit_client_secret) {
            (None, _) => r == Err::<Connector, ConnectError>(ConnectError::NoDeribitClientId),
            (_, None) => r == Err::<Connector, ConnectError>(ConnectError::NoDeribitClientSecret),
            (Some(id), Some(secret)) => if id@.len() == 0 || secret@.len() == 0 {
                r == Err::<Connector, ConnectError>(ConnectError::EmptyDeribitCredentials)
            } else {
                r == Ok::<Connector, ConnectError>(
                    Connector::Deribit {
                        client_id: id,
                        client_secret: secret,
                        instrument: config.trading.token,
                        mainnet: !is_on(env.deribit_testnet),
                    },
                )
            },
        },
        Exchange::Hyperliquid => match env.hyperliquid_private_key {
            None => r == Err::<Connector, ConnectError>(ConnectError::NoHyperliquidKey),
            Some(key) => if key@.len() == 0 {
                r == Err::<Connector, ConnectError>(ConnectError::EmptyHyperliquidKey)
            } else {
                r == Ok::<Connector, ConnectError>(
                    Connector::Hyperliquid {
                        private_key: key,
                        main_wallet: env.hyperliquid_main_wallet,
                        coin: config.trading.token,
                        mainnet: !is_on(env.hyperliquid_testnet),
                    },
                )
            },
        },
        Exchange::Binance => r == Err::<Connector, ConnectError>(
            ConnectError::BinanceNotImplemented,
        ),
    }
}

/// The connection of an agent. The paper exchange starts half way between the
/// grid's bounds; a live one needs its credentials, and is the main network
/// unless the environment asks for the test network.
pub fn connector(config: &AgentConfig, env: &Environment) -> (r: Result<Connector, ConnectError>)
    ensures
        connects(*config, *env, r),
{
    match config.trading.exchange {
        Exchange::Mock => Ok(
            Connector::Paper {
                initial_price: halfway(config.trading.grid_lower, config.trading.grid_upper),
            },
        ),
        Exchange::Deribit => {
            let client_id: String = match &env.deribit_client_id {
                Some(id) => id.clone(),
                None => {
                    return Err(ConnectError::NoDeribitClientId);
                },
            };
            let client_secret: String = match &env.deribit_client_secret {
                Some(secret) => secret.clone(),
                None => {
                    return Err(ConnectError::NoDeribitClientSecret);
                },
            };
            if client_id.as_str().unicode_len() == 0 || client_secret.as_str().unicode_len() == 0 {
                return Err(ConnectError::EmptyDeribitCredentials);
            }
            Ok(
                Connector::Deribit {
                    client_id,
                    client_secret,
                    instrument: config.trading.token.clone(),
                    mainnet: !env_flag(&env.deribit_testnet),
                },
            )
        },
        Exchange::Hyperliquid => {
            let private_key: String = match &env.hyperliquid_private_key {
                Some(key) => key.clone(),
                None => {
                    return Err(ConnectError::NoHyperliquidKey);
                },
            };
            if private_key.as_str().unicode_len() == 0 {
                return Err(ConnectError::EmptyHyperliquidKey);
            }
            let main_wallet: Option<String> = match &env.hyperliquid_main_wallet {
                Some(w) => Some(w.clone()),
                None => None,
            };
            Ok(
                Connector::Hyperliquid {
                    private_key,
                    main_wallet,
                    coin: config.trading.token.clone(),
                    mainnet: !env_flag(&env.hyperliquid_testnet),
                },
            )
        },
        Exchange::Binance => Err(ConnectError::BinanceNotImplemented),
    }
}

/// Doubts about an agent's sizes.
#[derive(Debug, Clone, Copy, PartialEq, Eq, Structural)]
pub struct SizeWarnings {
    pub expected_exposure: i64,
    /// The cap is below the exposure with every basket full.
    pub cap_below_exposure: bool,
    /// The cap is below a single entry.
    pub cap_below_step: bool,
}

/// Holds the exposure cap against the sizes of baskets and entries.
pub fn size_warnings(config: &AgentConfig) -> (r: SizeWarnings)
    ensures
        r.expected_exposure == clamp(config.basket.num_baskets * config.basket.basket_size_qty),
        r.cap_below_exposure == (config.kill_switch.max_position_cap < r.expected_exposure),
        r.cap_below_step == (config.kill_switch.max_position_cap < config.trading.per_step_qty),
{
    let expected_exposure: i64 = config.basket.max_exposure();
    SizeWarnings {
        expected_exposure,
        cap_below_exposure: config.kill_switch.max_position_cap < expected_exposure,
        cap_below_step: config.kill_switch.max_position_cap < config.trading.per_step_qty,
    }
}

} // verus!
