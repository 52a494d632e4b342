//! The data that the engine keeps and exchanges.
pub mod basket;
pub mod config;
pub mod order;
pub mod trade_stats;

pub use basket::{Basket, BasketSide, BasketStatus};
pub use config::{
    AgentConfig, BasketConfig, EmergencySlicingConfig, Exchange, KillSwitchConfig, TradingConfig,
};
pub use order::{
    Fill, Order, OrderBook, OrderBookLevel, OrderPurpose, OrderStatus, OrderType, Side,
};
pub use trade_stats::{RoundTrip, TradeStats};
