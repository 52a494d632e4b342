//! Agent configuration.
use vstd::prelude::*;

use crate::amount::{clamp, clamped, UNIT};

verus! {

/// The venue that an agent trades on.
#[derive(Debug, Clone, Copy, PartialEq, Eq, Structural)]
pub enum Exchange {
    Binance,
    Deribit,
    Hyperliquid,
    Mock,
}

/// What is traded, and how the grid is laid out.
#[derive(Debug)]
pub struct TradingConfig {
    pub token: String,
    pub exchange: Exchange,
    /// Seeds the paper exchange's price together with `grid_upper`.
    pub grid_lower: i64,
    pub grid_upper: i64,
    /// Distance from an anchor price at which a stop-loss fires.
    pub grid_distance: i64,
    /// Spacing between grid levels.
    pub grid_step: i64,
    /// Orders kept on each side of mid.
    pub grid_depth: u32,
    pub per_step_qty: i64,
    pub tp_spread: i64,
    pub maker_only: bool,
}

impl Clone for TradingConfig {
    fn clone(&self) -> (r: Self)
        ensures
            r == *self,
    {
        TradingConfig {
            token: self.token.clone(),
            exchange: self.exchange,
            grid_lower: self.grid_lower,
            grid_upper: self.grid_upper,
            grid_distance: self.grid_distance,
            grid_step: self.grid_step,
            grid_depth: self.grid_depth,
            per_step_qty: self.per_step_qty,
            tp_spread: self.tp_spread,
            maker_only: self.maker_only,
        }
    }
}

/// The grid depth of a configuration that names none.
pub fn default_grid_depth() -> (r: u32)
    ensures
        r == 5,
{
    5
}

/// The grid distance of a configuration that names none.
pub fn default_grid_distance() -> (r: i64)
    ensures
        r == 2_000 * UNIT,
{
    2_000 * UNIT
}

/// How many baskets there are and how large one may grow.
#[derive(Debug, Clone, Copy, PartialEq, Eq, Structural)]
pub struct BasketConfig {
    pub num_baskets: u32,
    pub basket_size_qty: i64,
    /// Ignored; kept so that older saved configurations still load.
    pub basket_sl_distance: i64,
}

impl BasketConfig {
    /// The exposure with every basket full.
    pub fn max_exposure(&self) -> (r: i64)
        ensures
            r == clamp(self.num_baskets * self.basket_size_qty),
    {
        proof {
            let n = self.num_baskets as int;
            let q = self.basket_size_qty as int;
            assert(-0x1_0000_0000 * 0x8000_0000_0000_0000 <= n * q <= 0x1_0000_0000
                * 0x8000_0000_0000_0000) by (nonlinear_arith)
                requires
                    0 <= n <= 0x1_0000_0000,
                    -0x8000_0000_0000_0000 <= q <= 0x8000_0000_0000_0000,
            ;
        }
        clamped(self.num_baskets as i128 * self.basket_size_qty as i128)
    }
}

/// When the agent stops for good.
#[derive(Debug, Clone, Copy, PartialEq, Eq, Structural)]
pub struct KillSwitchConfig {
    /// Exposure cap in quantity units, used when no cap in coins is set.
    pub max_position_cap: i64,
    /// Exposure cap in coins; zero when not set.
    pub max_position_cap_coins: i64,
    pub max_daily_loss: i64,
    pub api_disconnect_protection: bool,
    /// Cycle resets allowed before the agent stops.
    pub max_basket_hits: u32,
}

/// The hit limit of a configuration that names none.
pub fn default_max_basket_hits() -> (r: u32)
    ensures
        r == 5,
{
    5
}

/// How positions are closed in an emergency.
#[derive(Debug, Clone, Copy, PartialEq, Eq, Structural)]
pub struct EmergencySlicingConfig {
    pub enabled: bool,
    pub max_slice_qty: i64,
    pub slice_delay_ms: u64,
    pub max_slippage_bps: i64,
    pub book_depth_levels: u32,
    pub participation_rate: i64,
    pub max_slice_attempts: u32,
}

/// Everything that defines one agent.
#[derive(Debug)]
pub struct AgentConfig {
    /// The agent's name; saved agents are found by it.
    pub name: String,
    /// Unix milliseconds of the last start; zero when never started.
    pub last_active_at: i64,
    /// Why the agent last stopped; empty while it runs or before it ever ran.
    pub last_stop_reason: String,
    pub trading: TradingConfig,
    pub basket: BasketConfig,
    pub kill_switch: KillSwitchConfig,
    pub slicing: EmergencySlicingConfig,
}

impl Clone for AgentConfig {
    fn clone(&self) -> (r: Self)
        ensures
            r == *self,
    {
        AgentConfig {
            name: self.name.clone(),
            last_active_at: self.last_active_at,
            last_stop_reason: self.last_stop_reason.clone(),
            trading: self.trading.clone(),
            basket: self.basket,
            kill_switch: self.kill_switch,
            slicing: self.slicing,
        }
    }
}

/// The name of a configuration that gives none.
pub fn default_agent_name() -> (r: String)
    ensures
        r@ == "Agent"@,
{
    "Agent".to_string()
}

impl AgentConfig {
    /// The configuration that a new agent starts from.
    pub fn default_demo() -> (r: Self)
        ensures
            r.name@ == "Demo Agent"@,
            r.last_active_at == 0,
            r.last_stop_reason@ == Seq::<char>::empty(),
            r.trading.token@ == "BTC-USDT"@,
            r.trading.exchange == Exchange::Mock,
            r.trading.grid_lower == 60_000 * UNIT,
            r.trading.grid_upper == 70_000 * UNIT,
            r.trading.grid_distance == 5_000 * UNIT,
            r.trading.grid_step == 200 * UNIT,
            r.trading.grid_depth == 5,
            r.trading.per_step_qty == UNIT / 100,
            r.trading.tp_spread == 150 * UNIT,
            r.trading.maker_only,
            r.basket == (BasketConfig {
                num_baskets: 6,
                basket_size_qty: (UNIT / 20) as i64,
                basket_sl_distance: (800 * UNIT) as i64,
            }),
            r.kill_switch == (KillSwitchConfig {
                max_position_cap: (UNIT / 2) as i64,
                max_position_cap_coins: 0,
                max_daily_loss: (500 * UNIT) as i64,
                api_disconnect_protection: true,
                max_basket_hits: 5,
            }),
            r.slicing == (EmergencySlicingConfig {
                enabled: true,
                max_slice_qty: (UNIT / 50) as i64,
                slice_delay_ms: 200,
                max_slippage_bps: (30 * UNIT) as i64,
                book_depth_levels: 5,
                participation_rate: (UNIT / 5) as i64,
                max_slice_attempts: 10,
            }),
    {
        AgentConfig {
            name: "Demo Agent".to_string(),
            last_active_at: 0,
            last_stop_reason: String::new(),
            trading: TradingConfig {
                token: "BTC-USDT".to_string(),
                exchange: Exchange::Mock,
                grid_lower: 60_000 * UNIT,
                grid_upper: 70_000 * UNIT,
                grid_distance: 5_000 * UNIT,
                grid_step: 200 * UNIT,
                grid_depth: 5,
                per_step_qty: UNIT / 100,
                tp_spread: 150 * UNIT,
                maker_only: true,
            },
            basket: BasketConfig {
                num_baskets: 6,
                basket_size_qty: UNIT / 20,
                basket_sl_distance: 800 * UNIT,
            },
            kill_switch: KillSwitchConfig {
                max_position_cap: UNIT / 2,
                max_position_cap_coins: 0,
                max_daily_loss: 500 * UNIT,
                api_disconnect_protection: true,
                max_basket_hits: 5,
            },
            slicing: EmergencySlicingConfig {
                enabled: true,
                max_slice_qty: UNIT / 50,
                slice_delay_ms: 200,
                max_slippage_bps: 30 * UNIT,
                book_depth_levels: 5,
                participation_rate: UNIT / 5,
                max_slice_attempts: 10,
            },
        }
    }
}

} // verus!
