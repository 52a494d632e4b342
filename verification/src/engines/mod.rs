//! The engines: basket bookkeeping, grid planning, risk, emergency exits and
//! trade statistics.
pub mod basket_manager;
pub mod grid;
pub mod kill_switch;
pub mod risk;
pub mod slicing;
pub mod trade_tracker;
