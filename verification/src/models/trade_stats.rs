//! Trade statistics and completed round trips.
use vstd::prelude::*;

use crate::models::order::Side;

verus! {

/// Trading metrics accumulated since the engine started.
#[derive(Debug, Clone, Copy, PartialEq, Eq, Structural)]
pub struct TradeStats {
    /// Engine start, in Unix milliseconds.
    pub start_time: i64,
    pub duration_seconds: i64,
    /// The same as `net_pnl`.
    pub total_pnl: i64,
    /// Take-profit and stop-loss results together.
    pub net_pnl: i64,
    /// Result of round trips that a take-profit closed.
    pub rtp_pnl: i64,
    /// Result of round trips that a stop-loss or the kill switch closed.
    pub sl_pnl: i64,
    pub total_fees: i64,
    /// Round trips that a take-profit closed.
    pub round_trips: u64,
    /// Round trips that a stop-loss or the kill switch closed.
    pub sl_count: u64,
    pub rtp_per_hour: i64,
    pub pnl_per_hour: i64,
    pub buy_vwap: i64,
    pub sell_vwap: i64,
    pub total_volume: i64,
    pub buy_volume: i64,
    pub sell_volume: i64,
    pub buy_qty: i64,
    pub sell_qty: i64,
    pub net_qty: i64,
    pub total_fills: u64,
    pub total_buys: u64,
    pub total_sells: u64,
}

impl TradeStats {
    /// The statistics of an engine that has not traded yet.
    pub open spec fn none_since(start_time: i64) -> TradeStats {
        TradeStats {
            start_time,
            duration_seconds: 0,
            total_pnl: 0,
            net_pnl: 0,
            rtp_pnl: 0,
            sl_pnl: 0,
            total_fees: 0,
            round_trips: 0,
            sl_count: 0,
            rtp_per_hour: 0,
            pnl_per_hour: 0,
            buy_vwap: 0,
            sell_vwap: 0,
            total_volume: 0,
            buy_volume: 0,
            sell_volume: 0,
            buy_qty: 0,
            sell_qty: 0,
            net_qty: 0,
            total_fills: 0,
            total_buys: 0,
            total_sells: 0,
        }
    }

    /// Zero in every metric.
    pub fn empty(start_time: i64) -> (r: Self)
        ensures
            r == Self::none_since(start_time),
    {
        TradeStats {
            start_time,
            duration_seconds: 0,
            total_pnl: 0,
            net_pnl: 0,
            rtp_pnl: 0,
            sl_pnl: 0,
            total_fees: 0,
            round_trips: 0,
            sl_count: 0,
            rtp_per_hour: 0,
            pnl_per_hour: 0,
            buy_vwap: 0,
            sell_vwap: 0,
            total_volume: 0,
            buy_volume: 0,
            sell_volume: 0,
            buy_qty: 0,
            sell_qty: 0,
            net_qty: 0,
            total_fills: 0,
            total_buys: 0,
            total_sells: 0,
        }
    }
}

/// An entry matched first-in-first-out with a fill that closed it. A `Buy`
/// entry makes a long round trip, a `Sell` entry a short one.
#[derive(Debug, Clone, Copy, PartialEq, Eq, Structural)]
pub struct RoundTrip {
    pub rtp_id: u128,
    pub basket_id: u128,
    pub basket_index: u32,
    pub entry_side: Side,
    pub entry_price: i64,
    pub exit_price: i64,
    pub qty: i64,
    pub gross_pnl: i64,
    /// Fees of both legs, in proportion to `qty`.
    pub fees: i64,
    /// `gross_pnl` less `fees`.
    pub pnl: i64,
    /// Notional of both legs: the sum of the two prices times `qty`, or twice
    /// `qty` where quantities are in quote currency.
    pub volume: i64,
    pub entry_time: i64,
    pub exit_time: i64,
    /// Closed by a take-profit rather than by a stop-loss or the kill switch.
    pub is_take_profit: bool,
}

} // verus!
