//! Laws of the engine's loop, its state and its connections.
use vstd::prelude::*;

use crate::clock::is_time_of_day;
use crate::engine::connect::{
    banner, connector, env_flag, env_present, size_warnings, Banner, ConnectError, Connector,
    Environment, SizeWarnings,
};
use crate::engine::ticks::{Drift, TickAction, TickStage};
use crate::engine::{EngineHandle, EngineSnapshot};
use crate::engines::basket_manager::{
    lemma_seeded, net_total, open_total, realized_total, seeded, BasketManager,
};
use crate::engines::risk::{RiskEngine, RiskState};
use crate::engines::trade_tracker::TradeTracker;
use crate::laws::amounts::{held, lemma_rounds_to, rounds_to};
use crate::laws::book::{lemma_limit, names_the_limit};
use crate::laws::fills::apart;
use crate::laws::words::{all_digits, lemma_digits, spells};
use crate::models::basket::{BasketSide, BasketStatus};
use crate::models::config::{AgentConfig, Exchange};
use crate::models::order::Order;
use crate::models::trade_stats::TradeStats;
use crate::names::texts;
use crate::text::{digits, same_letters};

verus! {

/// The engine has baskets, and every one of them is killed.
pub open spec fn is_spent(h: EngineHandle) -> bool {
    &&& exists|k: u128| h.book().dom().contains(k)
    &&& forall|k: u128| #[trigger]
        h.book().dom().contains(k) ==> h.book()[k].status == BasketStatus::Killed
}

/// What spent means to the loop.
proof fn lemma_spent(h: EngineHandle)
    ensures
        crate::engines::basket_manager::every_killed(h.book()) <==> is_spent(h),
{
    if forall|k: u128| !h.book().dom().contains(k) {
        assert(h.book().dom() =~= Set::<u128>::empty());
    }
}

/// The loop's order. A running engine polls, then reads the book, then stops
/// baskets, tripping in between on a broken limit. While the switch is not
/// tripped and a basket may trade it works on the grid, if the cycle has an
/// anchor and a width, and unparks. Then it checks the position if that is due,
/// and rests.
pub proof fn a_pass_runs_in_order(
    h: &mut EngineHandle,
    stage: &mut TickStage,
    now_ms: u64,
    r: TickAction,
)
    requires
        call_ensures(EngineHandle::next_action, (h, stage, now_ms), r),
    ensures
        ({
            let a = *old(stage);
            let b = *final(stage);
            let live = !old(h).kill_switch.tripped && !is_spent(*old(h));
            let wide = old(h).cycle_anchor > 0 && old(h).config.trading.grid_distance > 0;
            let resting = a == TickStage::Begin || a == TickStage::Rested;
            &&& r is PollExchange <==> resting && old(h).running
            &&& r is PollExchange ==> b == TickStage::Polled
            &&& r is Halt <==> (resting && !old(h).running) || a == TickStage::Ended
            &&& r is ReadBook <==> a == TickStage::Polled
            &&& r is ReadBook ==> b == TickStage::Booked
            &&& r is CheckStops ==> a == TickStage::Booked || a == TickStage::Assessed
            &&& r is CheckStops ==> b == TickStage::Stopped
            &&& a == TickStage::Assessed ==> r is CheckStops
            &&& r is TripOnRisk ==> a == TickStage::Booked && b == TickStage::Assessed
            &&& a == TickStage::Booked ==> r is TripOnRisk || r is CheckStops
            &&& r is StepGrid <==> a == TickStage::Stopped && live && wide
            &&& r matches TickAction::StepGrid { anchor, distance } ==> {
                &&& anchor == old(h).cycle_anchor
                &&& distance == old(h).config.trading.grid_distance
                &&& b == TickStage::Gridded
            }
            &&& r is Unpark <==> a == TickStage::Gridded || (a == TickStage::Stopped && live
                && !wide)
            &&& r is Unpark ==> b == TickStage::Unparked
        }),
{
    lemma_spent(*old(h));
}

/// The loop's end of a pass. The position is checked when it was never checked,
/// or more than three seconds ago, and not otherwise. While a basket may trade
/// the engine then sleeps. With its last basket it trips the switch, unless
/// that is tripped, and stops.
pub proof fn a_pass_ends_with_a_rest_or_a_stop(
    h: &mut EngineHandle,
    stage: &mut TickStage,
    now_ms: u64,
    r: TickAction,
)
    requires
        call_ensures(EngineHandle::next_action, (h, stage, now_ms), r),
    ensures
        ({
            let a = *old(stage);
            let live = !old(h).kill_switch.tripped && !is_spent(*old(h));
            let worked = a == TickStage::Unparked || (a == TickStage::Stopped && !live);
            let due = match old(h).last_drift_check {
                None => true,
                Some(t) => now_ms - t > 3_000,
            };
            let closing = (worked && !due) || a == TickStage::Reconciled;
            &&& r is CheckDrift <==> worked && due
            &&& r is CheckDrift ==> final(h).last_drift_check == Some(now_ms) && *final(stage)
                == TickStage::Reconciled
            &&& r !is CheckDrift ==> final(h).last_drift_check == old(h).last_drift_check
            &&& r is Sleep <==> closing && !is_spent(*old(h))
            &&& r is Sleep ==> *final(stage) == TickStage::Rested
            &&& r is TripOnExhaustion <==> closing && is_spent(*old(h))
                && !old(h).kill_switch.tripped
            &&& r is TripOnExhaustion ==> *final(stage) == TickStage::Tripped
            &&& r is Stop <==> (closing && is_spent(*old(h)) && old(h).kill_switch.tripped) || a
                == TickStage::Tripped
            &&& r is Stop || r is Halt ==> !final(h).running && *final(stage) == TickStage::Ended
            &&& r !is Stop && r !is Halt ==> final(h).running == old(h).running
        }),
        final(h).book() == old(h).book(),
        final(h).parked_tps == old(h).parked_tps,
        final(h).mid_price == old(h).mid_price,
        final(h).cycle_anchor == old(h).cycle_anchor,
        final(h).kill_switch == old(h).kill_switch,
        final(h).basket_hits == old(h).basket_hits,
{
    lemma_spent(*old(h));
}

/// The engine trips on risk exactly when the switch is not tripped and the
/// exposure is over its cap, the loss over its limit, or the exchange gone.
pub proof fn broken_limits_trip_the_switch(
    h: &mut EngineHandle,
    stage: &mut TickStage,
    now_ms: u64,
    r: TickAction,
    cap: i64,
    open: i64,
    realized: i64,
)
    requires
        call_ensures(EngineHandle::next_action, (h, stage, now_ms), r),
        call_ensures(
            RiskEngine::effective_cap,
            (&old(h).risk, old(h).mid_price),
            cap,
        ),
        *old(stage) == TickStage::Booked,
        held(open, open_total(old(h).book())),
        held(realized, realized_total(old(h).book())),
    ensures
        r is TripOnRisk <==> !old(h).kill_switch.tripped && (open > cap || realized
            + old(h).risk.config.max_daily_loss < 0 || !old(h).risk.api_connected),
{
}

/// A mid that was read is kept. The first one starts the session and anchors
/// the first cycle; later ones do neither. No mid changes nothing.
pub proof fn the_first_mid_anchors_the_cycle(h: &mut EngineHandle, mid: i64, r: bool)
    requires
        call_ensures(EngineHandle::on_book, (h, mid), r),
    ensures
        r <==> mid > 0 && old(h).cycle_anchor <= 0,
        final(h).mid_price == if mid > 0 {
            mid
        } else {
            old(h).mid_price
        },
        final(h).cycle_anchor == if r {
            mid
        } else {
            old(h).cycle_anchor
        },
        final(h).start_price == if r {
            mid
        } else {
            old(h).start_price
        },
        final(h).book() == old(h).book(),
        final(h).parked_tps == old(h).parked_tps,
        final(h).running == old(h).running,
{
}

/// Drift is the distance of the exchange's position from that of the baskets,
/// and is exceeded past half a unit.
pub proof fn drift_is_a_distance(h: &EngineHandle, position: i64, r: Drift)
    requires
        call_ensures(EngineHandle::check_drift, (h, position), r),
    ensures
        held(r.bot_net_qty, net_total(h.book())),
        held(r.drift, apart(position, r.bot_net_qty)),
        r.exceeded <==> apart(position, r.bot_net_qty) > 50_000_000,
{
}

/// Starting sets the engine running at the beginning of a pass, halting stops
/// it, and neither does anything else.
pub proof fn engines_start_and_halt(a: &mut EngineHandle, stage: TickStage, b: &mut EngineHandle)
    requires
        call_ensures(EngineHandle::spawn_engine, (a,), stage),
        call_ensures(EngineHandle::halt, (b,), ()),
    ensures
        stage == TickStage::Begin,
        final(a).running && !final(b).running,
        final(a).book() == old(a).book() && final(b).book() == old(b).book(),
        final(a).kill_switch == old(a).kill_switch,
        final(b).kill_switch == old(b).kill_switch,
{
}

/// A cycle is never narrower than nothing, and a side never shallower than one.
pub proof fn cycles_and_sides_have_a_size(h: &EngineHandle, distance: i64, depth: usize)
    requires
        call_ensures(EngineHandle::cycle_distance, (h,), distance),
        call_ensures(EngineHandle::side_depth, (h,), depth),
    ensures
        h.config.trading.grid_distance >= 0 ==> distance == h.config.trading.grid_distance,
        h.config.trading.grid_distance < 0 ==> distance == 0,
        h.config.trading.grid_depth >= 1 ==> depth == h.config.trading.grid_depth,
        h.config.trading.grid_depth == 0 ==> depth == 1,
{
}

/// A new engine has the limits of its configuration, treats Deribit alone as
/// inverse, and has done nothing yet.
pub proof fn new_engines_have_done_nothing(
    config: AgentConfig,
    mgr: BasketManager,
    start_ms: i64,
    r: EngineHandle,
    b: u128,
)
    requires
        call_ensures(EngineHandle::assemble, (config, mgr, start_ms), r),
    ensures
        r.config == config,
        r.basket_mgr == mgr,
        r.grid.trading == config.trading,
        r.grid.max_position_cap == config.kill_switch.max_position_cap,
        r.risk.config == config.kill_switch && r.risk.api_connected,
        r.risk.is_inverse <==> config.trading.exchange == Exchange::Deribit,
        r.trade_tracker.is_inverse <==> config.trading.exchange == Exchange::Deribit,
        r.trade_tracker.start_time_ms == start_ms,
        r.slicing.config == config.slicing,
        !r.kill_switch.tripped && !r.running,
        r.mid_price == 0 && r.cycle_anchor == 0 && r.start_price == 0 && r.basket_hits == 0,
        r.parked_tps@.len() == 0 && r.recent_fills@.len() == 0 && r.log@.len() == 0,
        r.trade_tracker.round_trips@.len() == 0,
        r.trade_tracker.queue(b).len() == 0,
        r.trade_tracker.totals.rtp_pnl == 0 && r.trade_tracker.totals.sl_pnl == 0,
        r.trade_tracker.totals.total_fills == 0 && r.trade_tracker.totals.total_fees == 0,
        r.last_drift_check is None,
{
}

/// A snapshot shows the engine as it is: flags, prices, totals of the baskets,
/// the cycle's bounds at its distance from the anchor, and the drift.
pub proof fn snapshots_show_the_engine(
    h: &EngineHandle,
    open_orders: Vec<Order>,
    exchange_name: String,
    position: i64,
    now_ms: i64,
    r: EngineSnapshot,
)
    requires
        call_ensures(
            EngineHandle::snapshot_at,
            (h, open_orders, exchange_name, position, now_ms),
            r,
        ),
    ensures
        r.running <==> h.running,
        r.kill_switch_tripped <==> h.kill_switch.tripped,
        r.mid_price == h.mid_price,
        held(r.total_open_qty, open_total(h.book())),
        held(r.total_realized_pnl, realized_total(h.book())),
        held(r.bot_net_qty, net_total(h.book())),
        r.exchange_position == position,
        held(r.position_drift, apart(position, r.bot_net_qty)),
        r.baskets@.len() == h.book().dom().len(),
        r.open_orders@ == open_orders@,
        r.recent_fills@ == h.recent_fills@,
        r.log@ == h.log@,
        r.exchange_name@ == exchange_name@,
        r.start_price == h.start_price,
        r.cycle_anchor == h.cycle_anchor,
        r.basket_hits == h.basket_hits,
        r.max_basket_hits == h.config.kill_switch.max_basket_hits,
        r.parked_tp_count == h.parked_tps@.len(),
        r.grid_distance == if h.config.trading.grid_distance > 0 {
            h.config.trading.grid_distance
        } else {
            0
        },
        h.cycle_anchor > 0 ==> held(r.cycle_lower, h.cycle_anchor - r.grid_distance) && held(
            r.cycle_upper,
            h.cycle_anchor + r.grid_distance,
        ),
        h.cycle_anchor <= 0 ==> r.cycle_lower == 0 && r.cycle_upper == 0,
        r.trade_stats.rtp_pnl == h.trade_tracker.totals.rtp_pnl,
        r.trade_stats.sl_pnl == h.trade_tracker.totals.sl_pnl,
        r.round_trips@.len() == if h.trade_tracker.round_trips@.len() < 200 {
            h.trade_tracker.round_trips@.len() as int
        } else {
            200
        },
        r.round_trips@.len() > 0 ==> r.round_trips@[0] == h.trade_tracker.round_trips@.last(),
{
    let all = h.trade_tracker.round_trips@;
    let last = crate::lists::last_of(all, 200);
    assert(r.round_trips@ == last.reverse());
    if all.len() > 0 {
        assert(last.reverse()[0] == last[last.len() - 1]);
        assert(last[last.len() - 1] == all[all.len() - 1]);
    }
}

/// A variable is on exactly when it spells `true`, in any case, or `1`, and is
/// present exactly when it is set to something.
pub proof fn flags_are_true_or_one(value: &Option<String>, on: bool, present: bool)
    requires
        call_ensures(env_flag, (value,), on),
        call_ensures(env_present, (value,), present),
    ensures
        on <==> (*value matches Some(v) && (same_letters(v@, "true"@) || v@ == "1"@)),
        present <==> (*value matches Some(v) && v@.len() > 0),
{
}

/// An exchange counts as configured with all of its credentials, and as real
/// money unless its test network is asked for.
pub proof fn banners_warn_of_real_money(env: &Environment, r: Banner)
    requires
        call_ensures(banner, (env,), r),
    ensures
        r.deribit_configured <==> (env.deribit_client_id matches Some(v) && v@.len() > 0) && (
        env.deribit_client_secret matches Some(v) && v@.len() > 0),
        r.hyperliquid_configured <==> (env.hyperliquid_private_key matches Some(v) && v@.len() > 0),
        r.deribit_testnet <==> (env.deribit_testnet matches Some(v) && (same_letters(v@, "true"@)
            || v@ == "1"@)),
        r.hyperliquid_testnet <==> (env.hyperliquid_testnet matches Some(v) && (same_letters(
            v@,
            "true"@,
        ) || v@ == "1"@)),
        r.any_mainnet <==> (r.deribit_configured && !r.deribit_testnet) || (
        r.hyperliquid_configured && !r.hyperliquid_testnet),
{
}

/// An agent connects to the exchange it names, with that exchange's
/// credentials, on the main network unless the test network is asked for; it
/// does not connect without them.
pub proof fn agents_connect_to_their_exchange(
    config: &AgentConfig,
    env: &Environment,
    r: Result<Connector, ConnectError>,
    deribit_test: bool,
    hyperliquid_test: bool,
)
    requires
        call_ensures(connector, (config, env), r),
        call_ensures(env_flag, (&env.deribit_testnet,), deribit_test),
        call_ensures(env_flag, (&env.hyperliquid_testnet,), hyperliquid_test),
    ensures
        config.trading.exchange == Exchange::Mock ==> (r matches Ok(Connector::Paper {
            initial_price,
        }) && rounds_to(
            initial_price,
            config.trading.grid_lower + config.trading.grid_upper,
            2,
        )),
        config.trading.exchange == Exchange::Deribit ==> match (
            env.deribit_client_id,
            env.deribit_client_secret,
        ) {
            (Some(id), Some(secret)) => if id@.len() > 0 && secret@.len() > 0 {
                r matches Ok(Connector::Deribit { client_id, client_secret, instrument, mainnet })
                    && client_id@ == id@ && client_secret@ == secret@ && instrument@
                    == config.trading.token@ && mainnet == !deribit_test
            } else {
                r == Err::<Connector, ConnectError>(ConnectError::EmptyDeribitCredentials)
            },
            (None, _) => r == Err::<Connector, ConnectError>(ConnectError::NoDeribitClientId),
            (Some(_), None) => r == Err::<Connector, ConnectError>(
                ConnectError::NoDeribitClientSecret,
            ),
        },
        config.trading.exchange == Exchange::Hyperliquid ==> match env.hyperliquid_private_key {
            Some(key) => if key@.len() > 0 {
                r matches Ok(Connector::Hyperliquid { private_key, main_wallet, coin, mainnet })
                    && private_key@ == key@ && main_wallet == env.hyperliquid_main_wallet && coin@
                    == config.trading.token@ && mainnet == !hyperliquid_test
            } else {
                r == Err::<Connector, ConnectError>(ConnectError::EmptyHyperliquidKey)
            },
            None => r == Err::<Connector, ConnectError>(ConnectError::NoHyperliquidKey),
        },
        config.trading.exchange == Exchange::Binance ==> r == Err::<Connector, ConnectError>(
            ConnectError::BinanceNotImplemented,
        ),
{
    lemma_rounds_to(config.trading.grid_lower + config.trading.grid_upper, 2);
}

/// The cap is too small when it is below every basket full, or below a step.
pub proof fn small_caps_are_warned_of(config: &AgentConfig, r: SizeWarnings)
    requires
        call_ensures(size_warnings, (config,), r),
    ensures
        held(r.expected_exposure, config.basket.num_baskets * config.basket.basket_size_qty),
        r.cap_below_exposure <==> config.kill_switch.max_position_cap < r.expected_exposure,
        r.cap_below_step <==> config.kill_switch.max_position_cap < config.trading.per_step_qty,
{
}

/// A line is added to the log behind a time of day in brackets, after the lines
/// that are kept, of which there are never more than two hundred.
pub proof fn the_log_ends_with_the_last_line(h: &mut EngineHandle, line: String)
    requires
        call_ensures(EngineHandle::log_line, (h, line), ()),
    ensures
        0 < final(h).log@.len() <= 200,
        old(h).log@.len() < 200 ==> final(h).log@.len() == old(h).log@.len() + 1,
        exists|stamp: Seq<char>| #[trigger]
            is_time_of_day(stamp) && final(h).log@.last()@ == seq!['['] + stamp + seq![']', ' ']
                + line@,
        final(h).book() == old(h).book(),
{
    reveal_strlit("[");
    reveal_strlit("] ");
    let before = texts(old(h).log@);
    let after = texts(final(h).log@);
    let stamp = choose|stamp: Seq<char>| #[trigger]
        is_time_of_day(stamp) && after == crate::lists::last_of(
            before.push(crate::engine::stamped(stamp, line@)),
            200,
        );
    let grown = before.push(crate::engine::stamped(stamp, line@));
    assert(after.len() == final(h).log@.len());
    assert(after.last() == grown.last());
    assert(after[after.len() - 1] == final(h).log@[after.len() - 1]@);
    assert("["@ =~= seq!['[']);
    assert("] "@ =~= seq![']', ' ']);
}

/// A new engine has as many baskets as configured, of the configured size and
/// spread, inverse on Deribit alone, and has done nothing yet.
pub proof fn new_engines_have_their_baskets(config: AgentConfig, r: EngineHandle, k: u128)
    requires
        call_ensures(EngineHandle::new, (config,), r),
    ensures
        r.book().dom().contains(k) ==> {
            let b = r.book()[k];
            &&& b.basket_id == k
            &&& b.index < config.basket.num_baskets
            &&& b.index % 2 == 0 ==> b.side == BasketSide::Long
            &&& b.index % 2 == 1 ==> b.side == BasketSide::Short
            &&& b.max_qty == config.basket.basket_size_qty
            &&& b.is_inverse <==> config.trading.exchange == Exchange::Deribit
            &&& b.tp_spread == config.trading.tp_spread
            &&& b.status == BasketStatus::Idle && b.open_qty == 0
        },
        r.config == config,
        r.risk.is_inverse <==> config.trading.exchange == Exchange::Deribit,
        r.trade_tracker.is_inverse <==> config.trading.exchange == Exchange::Deribit,
        !r.running && !r.kill_switch.tripped && r.mid_price == 0 && r.cycle_anchor == 0,
{
    let inverse = crate::engine::is_inverse_venue(config.trading.exchange);
    let ids = choose|ids: Seq<u128>|
        {
            &&& #[trigger] ids.len() == config.basket.num_baskets
            &&& r.book() == seeded(
                ids,
                config.basket.basket_size_qty,
                inverse,
                config.trading.tp_spread,
            )
        };
    lemma_seeded(ids, config.basket.basket_size_qty, inverse, config.trading.tp_spread);
}

/// A snapshot shows every basket by rising index, the verdict on the limits, the
/// statistics at the moment, why the switch was tripped, and the latest two
/// hundred round trips, newest first.
pub proof fn snapshots_show_the_details(
    h: &EngineHandle,
    open_orders: Vec<Order>,
    exchange_name: String,
    position: i64,
    now_ms: i64,
    r: EngineSnapshot,
    stats: TradeStats,
    verdict: RiskState,
    i: int,
    k: u128,
)
    requires
        call_ensures(
            EngineHandle::snapshot_at,
            (h, open_orders, exchange_name, position, now_ms),
            r,
        ),
        call_ensures(TradeTracker::stats, (&h.trade_tracker, now_ms), stats),
        call_ensures(RiskEngine::assess, (&h.risk, &h.basket_mgr, h.mid_price), verdict),
    ensures
        r.trade_stats == stats,
        r.risk.max_exposure_ok == verdict.max_exposure_ok,
        r.risk.daily_loss_ok == verdict.daily_loss_ok,
        r.risk.api_connected == verdict.api_connected,
        r.risk.breach_reason is Some <==> verdict.breach_reason is Some,
        r.risk.breach_reason matches Some(s) ==> s@ == (verdict.breach_reason->0)@,
        r.kill_switch_reason is Some <==> h.kill_switch.reason is Some,
        r.kill_switch_reason matches Some(s) ==> s@ == (h.kill_switch.reason->0)@,
        h.book().dom().contains(k) ==> r.baskets@.contains(h.book()[k]),
        0 <= i < r.baskets@.len() ==> h.book().dom().contains(r.baskets@[i].basket_id)
            && h.book()[r.baskets@[i].basket_id] == r.baskets@[i],
        forall|j: int|
            0 <= i < j < r.baskets@.len() ==> r.baskets@[i].index < (#[trigger] r.baskets@[j]).index,
        0 <= i < 200 && i < h.trade_tracker.round_trips@.len() ==> r.round_trips@[i]
            == h.trade_tracker.round_trips@[h.trade_tracker.round_trips@.len() - 1 - i],
{
}

/// A trip on risk says which limit was broken, and a trip on exhaustion how many
/// baskets there were.
pub proof fn trips_say_why(
    h: &mut EngineHandle,
    stage: &mut TickStage,
    now_ms: u64,
    r: TickAction,
    cap: i64,
    open: i64,
    realized: i64,
)
    requires
        call_ensures(EngineHandle::next_action, (h, stage, now_ms), r),
        call_ensures(RiskEngine::effective_cap, (&old(h).risk, old(h).mid_price), cap),
        held(open, open_total(old(h).book())),
        held(realized, realized_total(old(h).book())),
    ensures
        r matches TickAction::TripOnRisk { reason } ==> names_the_limit(
            reason@,
            old(h).risk,
            open,
            realized,
            old(h).mid_price,
            cap,
        ),
        r matches TickAction::TripOnExhaustion { reason } ==> exists|d: Seq<char>|
            {
                &&& #[trigger] all_digits(d)
                &&& spells(d) == old(h).book().dom().len()
                &&& reason@ == "all "@ + d + " baskets killed by sequential per-basket SLs"@
            },
{
    lemma_limit(old(h).risk, open, realized, old(h).mid_price);
    lemma_digits(old(h).book().dom().len());
    assert(all_digits(digits(old(h).book().dom().len())));
}

} // verus!
