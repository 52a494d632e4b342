use basket_grid_engine::engine::fills::{FillOutcome, TpPlan};
use basket_grid_engine::engine::stops::{
    bound_hit, orders_of, residual_exit, Bound, CycleBreach, FlatWatch, ResidualExit,
};
use basket_grid_engine::engine::ticks::{TickAction, TickStage};
use basket_grid_engine::engine::{EngineHandle, ParkedTp};
use basket_grid_engine::engines::basket_manager::BasketManager;
use basket_grid_engine::models::basket::{BasketSide, BasketStatus};
use basket_grid_engine::models::config::{AgentConfig, Exchange};
use basket_grid_engine::models::order::{Fill, Order, OrderPurpose, OrderStatus, OrderType, Side};

const UNIT: i64 = 100_000_000;

fn u(x: i64) -> i64 {
    x * UNIT
}

fn config() -> AgentConfig {
    let mut c = AgentConfig::default_demo();
    c.basket.num_baskets = 3;
    c.basket.basket_size_qty = u(10);
    c.trading.grid_distance = u(50);
    c.trading.grid_step = u(2);
    c.trading.grid_depth = 2;
    c.trading.tp_spread = u(5);
    c.kill_switch.max_position_cap = u(100);
    c.kill_switch.max_daily_loss = u(1000);
    c.kill_switch.max_basket_hits = 2;
    c
}

// Long baskets 100 and 102, a short basket 101.
fn engine() -> EngineHandle {
    let c = config();
    let m = BasketManager::with_ids(c.basket, &vec![100, 101, 102], false, u(5));
    EngineHandle::assemble(c, m, 0)
}

fn fill(basket_id: u128, purpose: OrderPurpose, side: Side, price: i64, qty: i64) -> Fill {
    Fill {
        fill_id: 1,
        order_id: 2,
        basket_id,
        purpose,
        side,
        price,
        qty,
        fee: 0,
        timestamp: 3,
    }
}

fn order(id: u128, basket_id: u128, side: Side, purpose: OrderPurpose, price: i64) -> Order {
    Order {
        order_id: id,
        basket_id,
        side,
        order_type: OrderType::LimitMaker,
        purpose,
        price,
        qty: u(1),
        filled_qty: 0,
        status: OrderStatus::Open,
        created_at: 0,
    }
}

#[test]
fn a_new_engine_is_idle() {
    let mut c = config();
    c.trading.exchange = Exchange::Deribit;
    let h = EngineHandle::new(c);
    assert!(!h.running);
    assert_eq!(h.basket_mgr.len(), 3);
    assert!(h.risk.is_inverse);
    assert!(h.trade_tracker.is_inverse);
    assert!(h.basket_mgr.all()[0].is_inverse);
    assert!(h.trade_tracker.start_time_ms > 1_600_000_000_000);
    assert_eq!(h.grid.max_position_cap, u(100));
    assert_eq!(h.slicing.config.max_slice_attempts, 10);
}

#[test]
fn an_entry_anchors_its_basket_and_calls_for_a_take_profit() {
    let mut h = engine();
    h.on_book(u(1000));
    let f = fill(100, OrderPurpose::Entry, Side::Buy, u(998), u(2));
    let tp = ParkedTp { basket_id: 100, side: Side::Sell, price: u(1003), qty: u(2) };
    assert_eq!(
        h.process_fill(&f),
        FillOutcome::Entered {
            index: 0,
            side: BasketSide::Long,
            avg_price: u(998),
            anchored: true,
            lower_sl: u(948),
            upper_sl: u(1048),
            mid: u(1000),
            tp: Some(tp),
        }
    );
    assert_eq!(h.basket_mgr.get(100).unwrap().open_qty, u(2));
    assert_eq!(h.recent_fills, vec![f]);
    // The second entry keeps the anchor.
    match h.process_fill(&fill(100, OrderPurpose::Entry, Side::Buy, u(994), u(2))) {
        FillOutcome::Entered { anchored, avg_price, lower_sl, .. } => {
            assert!(!anchored);
            assert_eq!(avg_price, u(996));
            assert_eq!(lower_sl, u(948));
        }
        other => panic!("{:?}", other),
    }
    assert_eq!(h.trade_tracker.stats(0).total_buys, 2);
}

#[test]
fn a_take_profit_that_would_take_is_not_placed() {
    let mut h = engine();
    h.on_book(u(1000));
    match h.process_fill(&fill(100, OrderPurpose::Entry, Side::Buy, u(995), u(1))) {
        FillOutcome::Entered { tp, .. } => assert_eq!(tp, None),
        other => panic!("{:?}", other),
    }
    match h.process_fill(&fill(101, OrderPurpose::Entry, Side::Sell, u(1004), u(1))) {
        FillOutcome::Entered { tp, side, .. } => {
            assert_eq!(side, BasketSide::Short);
            let want = ParkedTp { basket_id: 101, side: Side::Buy, price: u(999), qty: u(1) };
            assert_eq!(tp, Some(want));
        }
        other => panic!("{:?}", other),
    }
}

#[test]
fn other_fills_are_booked_where_they_belong() {
    let mut h = engine();
    h.process_fill(&fill(100, OrderPurpose::Entry, Side::Buy, u(10), u(2)));
    assert_eq!(
        h.process_fill(&fill(100, OrderPurpose::TakeProfit, Side::Sell, u(15), u(2))),
        FillOutcome::TookProfit { index: 0, realized_pnl: u(10) }
    );
    assert_eq!(h.basket_mgr.get(100).unwrap().status, BasketStatus::Idle);
    assert_eq!(
        h.process_fill(&fill(100, OrderPurpose::StopLossExit, Side::Sell, u(15), u(2))),
        FillOutcome::Noted
    );
    assert_eq!(
        h.process_fill(&fill(100, OrderPurpose::KillSwitchExit, Side::Sell, u(15), u(2))),
        FillOutcome::Noted
    );
    assert_eq!(
        h.process_fill(&fill(999, OrderPurpose::Entry, Side::Buy, u(15), u(2))),
        FillOutcome::NoBasket
    );
    assert_eq!(
        h.process_fill(&fill(999, OrderPurpose::TakeProfit, Side::Sell, u(15), u(2))),
        FillOutcome::NoBasket
    );
    assert_eq!(h.recent_fills.len(), 6);
}

#[test]
fn fills_move_the_net_position() {
    let mut h = engine();
    h.process_fill(&fill(100, OrderPurpose::Entry, Side::Buy, u(10), u(3)));
    assert_eq!(h.basket_mgr.net_qty(), u(3));
    h.process_fill(&fill(101, OrderPurpose::Entry, Side::Sell, u(10), u(5)));
    assert_eq!(h.basket_mgr.net_qty(), u(-2));
    h.process_fill(&fill(101, OrderPurpose::TakeProfit, Side::Buy, u(5), u(4)));
    assert_eq!(h.basket_mgr.net_qty(), u(2));
}

#[test]
fn only_recent_fills_are_kept() {
    let mut h = engine();
    for i in 0..1005 {
        let mut f = fill(999, OrderPurpose::StopLossExit, Side::Buy, u(1), 1);
        f.timestamp = i;
        h.process_fill(&f);
    }
    assert_eq!(h.recent_fills.len(), 1000);
    assert_eq!(h.recent_fills[0].timestamp, 5);
    assert_eq!(h.recent_fills[999].timestamp, 1004);
}

#[test]
fn take_profits_make_room_for_themselves() {
    let mut h = engine();
    let tp = ParkedTp { basket_id: 100, side: Side::Sell, price: u(1010), qty: u(1) };
    let mid = u(1000);
    let e = |id, p| order(id, 102, Side::Sell, OrderPurpose::Entry, p);
    let t = |id, p| order(id, 102, Side::Sell, OrderPurpose::TakeProfit, p);

    // Room on the side.
    let open = vec![e(1, u(1005)), order(2, 100, Side::Buy, OrderPurpose::Entry, u(990))];
    assert_eq!(h.plan_tp(&tp, mid, &open), TpPlan::Place);

    // The furthest entry gives way, the last of equals.
    let open = vec![e(1, u(1020)), e(2, u(1020)), t(3, u(1090))];
    assert_eq!(h.plan_tp(&tp, mid, &open), TpPlan::ReplaceEntry { victim: open[1] });

    // Without entries the furthest take-profit is parked, if it is further.
    let open = vec![t(1, u(1020)), t(2, u(1030))];
    let plan = h.plan_tp(&tp, mid, &open);
    assert_eq!(plan, TpPlan::ReplaceTp { far: open[1] });
    assert!(h.follow_tp_plan(&tp, plan));
    assert_eq!(
        h.parked_tps,
        vec![ParkedTp { basket_id: 102, side: Side::Sell, price: u(1030), qty: u(1) }]
    );

    // Else the new one is.
    let open = vec![t(1, u(1001)), t(2, u(1010))];
    let plan = h.plan_tp(&tp, mid, &open);
    assert_eq!(plan, TpPlan::Park);
    assert!(!h.follow_tp_plan(&tp, plan));
    assert_eq!(h.parked_tps[1], tp);

    // One that rests within half a unit is not repeated.
    let mine = order(9, 100, Side::Sell, OrderPurpose::TakeProfit, u(1010) + UNIT / 2 - 1);
    let plan = h.plan_tp(&tp, mid, &vec![mine]);
    assert_eq!(plan, TpPlan::Duplicate);
    assert!(!h.follow_tp_plan(&tp, plan));
    assert_eq!(h.parked_tps.len(), 2);
    let near = order(9, 100, Side::Sell, OrderPurpose::TakeProfit, u(1010) + UNIT / 2);
    assert_eq!(h.plan_tp(&tp, mid, &vec![near]), TpPlan::Place);

    h.order_placed(77, 100);
    assert_eq!(h.basket_mgr.basket_for_order(77), Some(100));
}

#[test]
fn stops_kill_one_basket() {
    let mut h = engine();
    h.on_book(u(1000));
    h.process_fill(&fill(100, OrderPurpose::Entry, Side::Buy, u(1000), u(2)));
    h.process_fill(&fill(102, OrderPurpose::Entry, Side::Buy, u(980), u(1)));
    assert!(h.check_basket_boundaries().is_empty());
    h.on_book(u(950));
    let hit = h.check_basket_boundaries();
    assert_eq!(hit.len(), 1);
    assert_eq!(hit[0].basket_id, 100);
    assert_eq!(bound_hit(&hit[0], u(950)), Bound::Lower);
    assert_eq!(bound_hit(&hit[0], u(1050)), Bound::Upper);

    h.parked_tps.push(ParkedTp { basket_id: 100, side: Side::Sell, price: u(1), qty: u(1) });
    h.parked_tps.push(ParkedTp { basket_id: 102, side: Side::Sell, price: u(2), qty: u(1) });
    assert_eq!(h.stop_out(100, Some(u(940)), u(950)), 1);
    let b = h.basket_mgr.get(100).unwrap();
    assert_eq!(b.status, BasketStatus::Killed);
    assert_eq!(b.realized_pnl, u(-120));
    assert_eq!(h.parked_tps.len(), 1);
    assert_eq!(h.parked_tps[0].basket_id, 102);
    assert_eq!(h.basket_mgr.get(102).unwrap().open_qty, u(1));
    assert!(h.check_basket_boundaries().is_empty());

    // A failed exit is booked at mid.
    h.on_book(u(900));
    assert_eq!(h.stop_out(102, None, u(900)), 2);
    assert_eq!(h.basket_mgr.get(102).unwrap().realized_pnl, u(-80));
}

#[test]
fn no_stops_while_tripped_or_without_a_mid() {
    let mut h = engine();
    h.process_fill(&fill(100, OrderPurpose::Entry, Side::Buy, u(1000), u(2)));
    assert!(h.check_basket_boundaries().is_empty());
    h.on_book(u(10));
    assert_eq!(h.check_basket_boundaries().len(), 1);
    let reason = "x".to_string();
    h.kill_switch.trip(reason);
    assert!(h.check_basket_boundaries().is_empty());
    assert_eq!(h.check_cycle_boundary(), None);
}

#[test]
fn residuals_are_closed_against_their_sign() {
    assert_eq!(residual_exit(UNIT / 2), None);
    assert_eq!(residual_exit(-UNIT / 2), None);
    let half = UNIT / 2;
    assert_eq!(residual_exit(half + 1), Some(ResidualExit { side: Side::Sell, qty: half + 1 }));
    assert_eq!(residual_exit(u(-3)), Some(ResidualExit { side: Side::Buy, qty: u(3) }));
    let mut h = engine();
    h.process_fill(&fill(100, OrderPurpose::Entry, Side::Buy, u(10), u(3)));
    assert_eq!(h.stop_residual(u(3)), None);
    assert_eq!(h.stop_residual(u(5)), Some(ResidualExit { side: Side::Sell, qty: u(2) }));
    assert!([100, 101, 102].contains(&h.any_basket_id()));
}

#[test]
fn orders_are_found_by_basket() {
    let open = vec![
        order(1, 100, Side::Buy, OrderPurpose::Entry, 1),
        order(2, 101, Side::Buy, OrderPurpose::Entry, 1),
        order(3, 100, Side::Sell, OrderPurpose::TakeProfit, 1),
    ];
    assert_eq!(orders_of(&open, 100), vec![1, 3]);
    assert!(orders_of(&open, 102).is_empty());
}

#[test]
fn a_cycle_ends_at_its_bounds() {
    let mut h = engine();
    assert_eq!(h.check_cycle_boundary(), None);
    assert!(h.on_book(u(1000)));
    assert!(!h.on_book(u(1049)));
    assert_eq!(h.check_cycle_boundary(), None);
    h.on_book(u(1050));
    assert_eq!(
        h.check_cycle_boundary(),
        Some(CycleBreach { bound: Bound::Upper, level: u(1050) })
    );
    h.on_book(u(940));
    assert_eq!(
        h.check_cycle_boundary(),
        Some(CycleBreach { bound: Bound::Lower, level: u(950) })
    );
}

#[test]
fn cycles_start_over_until_the_hits_are_used_up() {
    let mut h = engine();
    h.on_book(u(1000));
    h.process_fill(&fill(100, OrderPurpose::Entry, Side::Buy, u(1000), u(2)));
    h.process_fill(&fill(101, OrderPurpose::Entry, Side::Sell, u(1000), u(1)));
    h.on_book(u(950));
    let held = h.holdings();
    assert_eq!(held.len(), 2);
    h.cycle_exit(100, Some(u(940)), u(950));
    h.cycle_exit(101, None, u(950));
    assert!(h.holdings().is_empty());
    assert_eq!(h.basket_mgr.get(100).unwrap().realized_pnl, u(-120));
    assert_eq!(h.basket_mgr.get(101).unwrap().realized_pnl, u(50));
    assert_eq!(h.basket_mgr.get(101).unwrap().status, BasketStatus::Hit);
    let end = h.end_cycle(u(950));
    assert_eq!((end.hits, end.trip), (1, None));
    assert_eq!(h.cycle_anchor, u(950));
    assert_eq!(h.start_price, u(1000));
    let end = h.end_cycle(u(900));
    assert_eq!(end.hits, 2);
    assert_eq!(end.trip, Some("max_basket_hits=2 reached".to_string()));
    assert_eq!(h.cycle_anchor, u(950));
}

#[test]
fn a_flush_resets_every_position_at_mid() {
    let mut h = engine();
    h.on_book(u(100));
    h.process_fill(&fill(100, OrderPurpose::Entry, Side::Buy, u(90), u(2)));
    h.parked_tps.push(ParkedTp { basket_id: 100, side: Side::Sell, price: u(1), qty: u(1) });
    let held = h.force_flatten();
    assert_eq!(held.len(), 1);
    assert!(h.parked_tps.is_empty());
    h.flush_exit(100);
    let b = h.basket_mgr.get(100).unwrap();
    assert_eq!((b.open_qty, b.realized_pnl, b.status), (0, u(20), BasketStatus::Hit));
}

#[test]
fn a_flush_resets_flat_baskets_too() {
    let mut h = engine();
    h.on_book(u(100));
    h.process_fill(&fill(100, OrderPurpose::Entry, Side::Buy, u(90), u(2)));
    h.stop_out(102, Some(u(1)), u(100));
    for b in h.force_flatten() {
        h.flush_exit(b.basket_id);
    }
    h.end_flush();
    for (id, status) in [
        (100, BasketStatus::Hit),
        (101, BasketStatus::Hit),
        (102, BasketStatus::Killed),
    ] {
        let b = h.basket_mgr.get(id).unwrap();
        assert_eq!((b.status, b.open_qty, b.avg_price), (status, 0, 0));
    }
    assert_eq!(h.basket_mgr.get(100).unwrap().realized_pnl, u(20));
}

#[test]
fn late_fills_do_not_revive_a_killed_basket() {
    let mut h = engine();
    h.on_book(u(100));
    h.stop_out(100, Some(u(100)), u(100));
    h.process_fill(&fill(100, OrderPurpose::Entry, Side::Buy, u(90), u(2)));
    assert_eq!(h.basket_mgr.get(100).unwrap().status, BasketStatus::Killed);
    assert_eq!(h.basket_mgr.get(100).unwrap().open_qty, u(2));
    h.process_fill(&fill(100, OrderPurpose::TakeProfit, Side::Sell, u(95), u(2)));
    assert_eq!(h.basket_mgr.get(100).unwrap().status, BasketStatus::Killed);
    assert_eq!(h.basket_mgr.get(100).unwrap().realized_pnl, u(10));
    assert_eq!(h.basket_mgr.find_basket_with_capacity_by_side(BasketSide::Long, u(1)), Some(102));
}

#[test]
fn a_flush_is_watched_four_times() {
    let mut w = FlatWatch::new();
    assert_eq!(w.observe(u(3)), None);
    assert_eq!(
        w.observe(UNIT / 2),
        Some((true, "flat — exchange position 0.50".to_string()))
    );
    let mut w = FlatWatch::new();
    for _ in 0..3 {
        assert_eq!(w.observe(u(-3)), None);
    }
    assert_eq!(
        w.observe(u(-3)),
        Some((
            false,
            "residual position -3.00 remains — close manually on the exchange".to_string()
        ))
    );
}

#[test]
fn parked_take_profits_return_when_they_fit() {
    let mut h = engine();
    assert!(h.unpark_eligible_tps().is_none());
    h.on_book(u(1000));
    assert!(h.unpark_eligible_tps().is_none());
    let p = |price: i64| ParkedTp { basket_id: 100, side: Side::Sell, price, qty: u(1) };
    // Reach is two levels of two: four.
    h.parked_tps = vec![p(u(1005)), p(u(1004)), p(u(1003)), p(u(1002))];
    let mut run = h.unpark_eligible_tps().unwrap();
    assert!(h.parked_tps.is_empty());
    let open = vec![order(1, 102, Side::Sell, OrderPurpose::Entry, u(1001))];
    run.count(&open);
    assert_eq!(run.next(), Some(p(u(1004))));
    // The placement fails, so it stays parked.
    run.settle(false);
    assert_eq!(run.next(), Some(p(u(1003))));
    run.settle(true);
    // The side is full now.
    assert_eq!(run.next(), None);
    h.repark(run);
    assert_eq!(h.parked_tps, vec![p(u(1005)), p(u(1004)), p(u(1002))]);
}

fn action_name(a: &TickAction) -> String {
    match a {
        TickAction::PollExchange => "poll".to_string(),
        TickAction::ReadBook => "book".to_string(),
        TickAction::TripOnRisk { reason } => format!("risk: {}", reason),
        TickAction::CheckStops => "stops".to_string(),
        TickAction::StepGrid { .. } => "grid".to_string(),
        TickAction::Unpark => "unpark".to_string(),
        TickAction::CheckDrift => "drift".to_string(),
        TickAction::TripOnExhaustion { reason } => format!("end: {}", reason),
        TickAction::Stop => "stop".to_string(),
        TickAction::Sleep => "sleep".to_string(),
        TickAction::Halt => "halt".to_string(),
    }
}

fn pass(h: &mut EngineHandle, stage: &mut TickStage, now: u64, mid: i64) -> Vec<String> {
    let mut seen = Vec::new();
    loop {
        let a = h.next_action(stage, now);
        let name = action_name(&a);
        if name == "book" {
            h.on_book(mid);
        }
        if let TickAction::TripOnRisk { reason } | TickAction::TripOnExhaustion { reason } = a {
            h.kill_switch.trip(reason);
        }
        let last = name == "sleep" || name == "halt" || name == "stop";
        seen.push(name);
        if last {
            return seen;
        }
    }
}

#[test]
fn a_pass_of_the_main_loop() {
    let mut h = engine();
    let mut stage = h.spawn_engine();
    assert!(h.running);
    assert_eq!(
        pass(&mut h, &mut stage, 10_000, u(1000)),
        ["poll", "book", "stops", "grid", "unpark", "drift", "sleep"]
    );
    assert_eq!(h.last_drift_check, Some(10_000));
    // The position is checked only now and then.
    assert_eq!(
        pass(&mut h, &mut stage, 13_000, u(1000)),
        ["poll", "book", "stops", "grid", "unpark", "sleep"]
    );
    assert_eq!(
        pass(&mut h, &mut stage, 13_001, u(1000)),
        ["poll", "book", "stops", "grid", "unpark", "drift", "sleep"]
    );
    h.halt();
    assert_eq!(pass(&mut h, &mut stage, 14_000, u(1000)), ["halt"]);
}

#[test]
fn a_pass_without_an_anchor_leaves_the_grid_alone() {
    let mut h = engine();
    let mut stage = h.spawn_engine();
    assert_eq!(
        pass(&mut h, &mut stage, 0, 0),
        ["poll", "book", "stops", "unpark", "drift", "sleep"]
    );
}

#[test]
fn a_breach_trips_and_stops_the_grid() {
    let mut h = engine();
    let mut stage = h.spawn_engine();
    h.process_fill(&fill(100, OrderPurpose::Entry, Side::Buy, u(1000), u(101)));
    assert_eq!(
        pass(&mut h, &mut stage, 0, u(1000)),
        [
            "poll",
            "book",
            "risk: exposure 101.0000 > max_position_cap (100.0000)",
            "stops",
            "drift",
            "sleep"
        ]
    );
    assert_eq!(
        pass(&mut h, &mut stage, 1, u(1000)),
        ["poll", "book", "stops", "sleep"]
    );
}

#[test]
fn the_last_basket_stops_the_engine() {
    let mut h = engine();
    let mut stage = h.spawn_engine();
    h.basket_mgr.mark_all_killed();
    assert_eq!(
        pass(&mut h, &mut stage, 0, u(1000)),
        [
            "poll",
            "book",
            "stops",
            "drift",
            "end: all 3 baskets killed by sequential per-basket SLs",
            "stop"
        ]
    );
    assert!(!h.running);
    assert!(h.kill_switch.is_tripped());
    assert_eq!(pass(&mut h, &mut stage, 1, u(1000)), ["halt"]);
}

#[test]
fn drift_is_held_against_half_a_unit() {
    let mut h = engine();
    h.process_fill(&fill(101, OrderPurpose::Entry, Side::Sell, u(10), u(3)));
    let d = h.check_drift(u(-3) + UNIT / 2);
    assert_eq!((d.bot_net_qty, d.drift, d.exceeded), (u(-3), UNIT / 2, false));
    assert!(h.check_drift(u(-3) - UNIT / 2 - 1).exceeded);
}

#[test]
fn log_lines_carry_the_time() {
    let mut h = engine();
    h.log_line("hello".to_string());
    let line = h.log[0].clone();
    assert_eq!(line.len(), "[00:00:00] hello".len());
    assert!(line.starts_with('[') && line.ends_with("] hello"));
    let t: Vec<char> = line.chars().collect();
    assert!(t[1].is_ascii_digit() && t[2].is_ascii_digit() && t[3] == ':' && t[6] == ':');
    for i in 0..205 {
        h.log_line(format!("{}", i));
    }
    assert_eq!(h.log.len(), 200);
    assert!(h.log[0].ends_with("] 5"));
    assert!(h.log[199].ends_with("] 204"));
}

#[test]
fn a_snapshot_shows_the_engine() {
    let mut h = engine();
    let mut stage = h.spawn_engine();
    pass(&mut h, &mut stage, 0, u(1000));
    h.process_fill(&fill(101, OrderPurpose::Entry, Side::Sell, u(1000), u(3)));
    h.process_fill(&fill(101, OrderPurpose::TakeProfit, Side::Buy, u(995), u(1)));
    h.log_line("x".to_string());
    let open = vec![order(1, 100, Side::Buy, OrderPurpose::Entry, u(998))];
    let s = h.snapshot_at(open.clone(), "MockExchange".to_string(), u(1), 3_600_000);
    assert!(s.running && !s.kill_switch_tripped);
    assert_eq!(s.kill_switch_reason, None);
    assert_eq!(s.mid_price, u(1000));
    assert_eq!(s.total_open_qty, u(2));
    assert_eq!(s.total_realized_pnl, u(5));
    assert_eq!(s.baskets.iter().map(|b| b.basket_id).collect::<Vec<_>>(), [100, 101, 102]);
    assert_eq!(s.open_orders, open);
    assert_eq!(s.recent_fills.len(), 2);
    assert!(s.risk.healthy());
    assert_eq!(s.log, h.log);
    assert_eq!(s.exchange_name, "MockExchange");
    assert_eq!(s.trade_stats.rtp_per_hour, UNIT);
    assert_eq!(s.round_trips.len(), 1);
    assert_eq!((s.start_price, s.cycle_anchor), (u(1000), u(1000)));
    assert_eq!((s.cycle_lower, s.cycle_upper), (u(950), u(1050)));
    assert_eq!(s.grid_distance, u(50));
    assert_eq!((s.basket_hits, s.max_basket_hits), (0, 2));
    assert_eq!((s.exchange_position, s.bot_net_qty, s.position_drift), (u(1), u(-2), u(3)));
    assert_eq!(s.parked_tp_count, 0);
    let fresh = engine().snapshot(Vec::new(), String::new(), 0);
    assert_eq!((fresh.cycle_lower, fresh.cycle_upper), (0, 0));
}
