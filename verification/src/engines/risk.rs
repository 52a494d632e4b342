//! Risk limits.
use vstd::prelude::*;

use crate::amount::{clamp, minus, product, times};
use crate::engines::basket_manager::{open_total, realized_total, BasketManager};
use crate::models::config::KillSwitchConfig;
use crate::text::{amount_text, push_amount};

verus! {

/// The verdict on each limit.
#[derive(Debug)]
pub struct RiskState {
    pub max_exposure_ok: bool,
    pub daily_loss_ok: bool,
    pub api_connected: bool,
    pub missing_sl_ok: bool,
    pub slippage_ok: bool,
    pub liquidity_ok: bool,
    pub runaway_ok: bool,
    /// The first limit that is broken, in words.
    pub breach_reason: Option<String>,
}

impl RiskState {
    /// No limit is broken.
    pub open spec fn sound(&self) -> bool {
        &&& self.max_exposure_ok
        &&& self.daily_loss_ok
        &&& self.api_connected
        &&& self.missing_sl_ok
        &&& self.slippage_ok
        &&& self.liquidity_ok
        &&& self.runaway_ok
    }

    /// No limit is broken.
    pub fn healthy(&self) -> (r: bool)
        ensures
            r == self.sound(),
    {
        self.max_exposure_ok && self.daily_loss_ok && self.api_connected && self.missing_sl_ok
            && self.slippage_ok && self.liquidity_ok && self.runaway_ok
    }
}

/// Checks exposure, loss and connection against the configured limits.
#[derive(Debug, Clone, Copy)]
pub struct RiskEngine {
    pub config: KillSwitchConfig,
    pub api_connected: bool,
    /// Positions are counted in quote currency, so a cap in coins is converted
    /// at mid.
    pub is_inverse: bool,
}

impl RiskEngine {
    /// The cap in coins applies: it is set, and there is a mid to price it at.
    pub open spec fn caps_coins(&self, mid: i64) -> bool {
        self.config.max_position_cap_coins > 0 && mid > 0
    }

    /// The exposure cap in quantity units.
    pub open spec fn cap(&self, mid: i64) -> i64 {
        if self.caps_coins(mid) {
            if self.is_inverse {
                product(self.config.max_position_cap_coins, mid)
            } else {
                self.config.max_position_cap_coins
            }
        } else {
            self.config.max_position_cap
        }
    }

    /// The exposure cap in words.
    pub open spec fn cap_text(&self, mid: i64) -> Seq<char> {
        if self.caps_coins(mid) {
            amount_text(self.config.max_position_cap_coins, 4) + " coins × "@ + amount_text(mid, 2)
                + " = "@ + amount_text(self.cap(mid), 4)
        } else {
            amount_text(self.config.max_position_cap, 4)
        }
    }

    /// The first broken limit in words: exposure before loss before connection.
    pub open spec fn breach(&self, total_open: i64, realized: i64, mid: i64) -> Option<Seq<char>> {
        if total_open > self.cap(mid) {
            Some(
                "exposure "@ + amount_text(total_open, 4) + " > max_position_cap ("@
                    + self.cap_text(mid) + ")"@,
            )
        } else if realized < -self.config.max_daily_loss {
            Some(
                "daily loss "@ + amount_text(clamp(-realized), 2) + " > max_daily_loss "@
                    + amount_text(self.config.max_daily_loss, 2),
            )
        } else if !self.api_connected {
            Some("API disconnect"@)
        } else {
            None
        }
    }

    /// `r` is the verdict on these figures.
    pub open spec fn judges(
        &self,
        total_open: i64,
        realized: i64,
        mid: i64,
        r: RiskState,
    ) -> bool {
        &&& r.max_exposure_ok == (total_open <= self.cap(mid))
        &&& r.daily_loss_ok == (realized >= -self.config.max_daily_loss)
        &&& r.api_connected == self.api_connected
        &&& r.missing_sl_ok
        &&& r.slippage_ok
        &&& r.liquidity_ok
        &&& r.runaway_ok
        &&& match self.breach(total_open, realized, mid) {
            Some(words) => r.breach_reason matches Some(s) && s@ == words,
            None => r.breach_reason is None,
        }
    }

    /// A risk engine that sees the exchange as connected.
    pub fn new(config: KillSwitchConfig, is_inverse: bool) -> (r: Self)
        ensures
            r == (RiskEngine { config, api_connected: true, is_inverse }),
    {
        RiskEngine { config, api_connected: true, is_inverse }
    }

    /// The exposure cap in quantity units.
    pub fn effective_cap(&self, mid: i64) -> (r: i64)
        ensures
            r == self.cap(mid),
    {
        let coins: i64 = self.config.max_position_cap_coins;
        if coins > 0 && mid > 0 {
            if self.is_inverse {
                times(coins, mid)
            } else {
                coins
            }
        } else {
            self.config.max_position_cap
        }
    }

    /// The verdict on given exposure and realised result.
    pub fn judge(&self, total_open: i64, realized: i64, mid: i64) -> (r: RiskState)
        ensures
            self.judges(total_open, realized, mid, r),
            r.sound() <==> r.breach_reason is None,
    {
        let cap: i64 = self.effective_cap(mid);
        let coins: i64 = self.config.max_position_cap_coins;
        let max_exposure_ok: bool = total_open <= cap;
        let daily_loss_ok: bool = realized as i128 >= -(self.config.max_daily_loss as i128);
        let mut words: String = String::new();
        let breach_reason: Option<String> = if !max_exposure_ok {
            words.append("exposure ");
            push_amount(&mut words, total_open, 4);
            words.append(" > max_position_cap (");
            if coins > 0 && mid > 0 {
                push_amount(&mut words, coins, 4);
                words.append(" coins × ");
                push_amount(&mut words, mid, 2);
                words.append(" = ");
                push_amount(&mut words, cap, 4);
            } else {
                push_amount(&mut words, self.config.max_position_cap, 4);
            }
            words.append(")");
            assert(words@ =~= self.breach(total_open, realized, mid)->0);
            Some(words)
        } else if !daily_loss_ok {
            words.append("daily loss ");
            push_amount(&mut words, minus(0, realized), 2);
            words.append(" > max_daily_loss ");
            push_amount(&mut words, self.config.max_daily_loss, 2);
            assert(words@ =~= self.breach(total_open, realized, mid)->0);
            Some(words)
        } else if !self.api_connected {
            words.append("API disconnect");
            assert(words@ =~= self.breach(total_open, realized, mid)->0);
            Some(words)
        } else {
            None
        };
        RiskState {
            max_exposure_ok,
            daily_loss_ok,
            api_connected: self.api_connected,
            missing_sl_ok: true,
            slippage_ok: true,
            liquidity_ok: true,
            runaway_ok: true,
            breach_reason,
        }
    }

    /// The verdict on the baskets as they stand.
    pub fn assess(&self, basket_mgr: &BasketManager, mid: i64) -> (r: RiskState)
        ensures
            self.judges(
                clamp(open_total(basket_mgr.book())),
                clamp(realized_total(basket_mgr.book())),
                mid,
                r,
            ),
            r.sound() <==> r.breach_reason is None,
    {
        self.judge(basket_mgr.total_open_qty(), basket_mgr.total_realized_pnl(), mid)
    }
}

} // verus!
