use basket_grid_engine::engine::exits::{ExitAction, ExitReason, ExitRun, ExitStage};
use basket_grid_engine::engine::{EngineHandle, ParkedTp};
use basket_grid_engine::engines::basket_manager::BasketManager;
use basket_grid_engine::models::basket::{BasketStatus, ExitOrder};
use basket_grid_engine::models::config::AgentConfig;
use basket_grid_engine::models::order::{Fill, OrderPurpose, Side};

const UNIT: i64 = 100_000_000;

fn u(x: i64) -> i64 {
    x * UNIT
}

fn entry(basket_id: u128, side: Side, price: i64, qty: i64) -> Fill {
    Fill {
        fill_id: 1,
        order_id: 2,
        basket_id,
        purpose: OrderPurpose::Entry,
        side,
        price,
        qty,
        fee: 0,
        timestamp: 3,
    }
}

// Long baskets 100 and 102, a short basket 101; 100 and 101 hold positions
// around a mid of one thousand, with bounds fifty away.
fn engine() -> EngineHandle {
    let mut c = AgentConfig::default_demo();
    c.basket.num_baskets = 3;
    c.basket.basket_size_qty = u(10);
    c.trading.grid_distance = u(50);
    let m = BasketManager::with_ids(c.basket, &vec![100, 101, 102], false, u(5));
    let mut h = EngineHandle::assemble(c, m, 0);
    h.on_book(u(1000));
    h.process_fill(&entry(100, Side::Buy, u(1000), u(2)));
    h.process_fill(&entry(101, Side::Sell, u(1000), u(3)));
    h
}

fn exit(basket_id: u128, purpose: OrderPurpose) -> ExitAction {
    let (index, side, qty) =
        if basket_id == 100 { (0, Side::Sell, u(2)) } else { (1, Side::Buy, u(3)) };
    ExitAction::Send { exit: ExitOrder { basket_id, index, side, qty, purpose } }
}

// Performs a run; every exit gets the same outcome.
fn perform(h: &mut EngineHandle, run: &mut ExitRun, price: Option<i64>) -> Vec<ExitAction> {
    let mut done = Vec::new();
    loop {
        let action = h.next_exit(run);
        done.push(action);
        if let ExitAction::Send { exit } = action {
            h.book_exit(run, exit.basket_id, price);
        }
        if action == ExitAction::Done {
            return done;
        }
    }
}

fn sorted(mut actions: Vec<ExitAction>) -> Vec<ExitAction> {
    actions.sort_by_key(|a| match a {
        ExitAction::Send { exit } => exit.index,
        _ => 9,
    });
    actions
}

#[test]
fn a_trip_cancels_before_it_lists() {
    let mut h = engine();
    let mut run = h.begin_exits(ExitReason::Trip);
    assert_eq!(h.next_exit(&mut run), ExitAction::CancelAll);
    // A fill that arrives while orders are cancelled is still closed.
    h.process_fill(&entry(102, Side::Buy, u(1000), u(1)));
    let rest = perform(&mut h, &mut run, None);
    assert_eq!(rest.len(), 5);
    assert_eq!(rest[3..], [ExitAction::Conclude, ExitAction::Done]);
    let exits = sorted(rest[..3].to_vec());
    assert_eq!(exits[0], exit(100, OrderPurpose::KillSwitchExit));
    assert_eq!(exits[1], exit(101, OrderPurpose::KillSwitchExit));
    for id in [100, 101, 102] {
        let b = h.basket_mgr.get(id).unwrap();
        // A failed exit is booked at the mean price.
        assert_eq!((b.status, b.open_qty, b.realized_pnl), (BasketStatus::Killed, 0, 0));
    }
}

#[test]
fn a_stop_clears_the_way_for_each_basket() {
    let mut h = engine();
    h.parked_tps.push(ParkedTp { basket_id: 100, side: Side::Sell, price: u(1), qty: u(1) });
    let mut quiet = h.begin_exits(ExitReason::Stop);
    assert_eq!(perform(&mut h, &mut quiet, None), vec![ExitAction::Done]);
    h.on_book(u(950));
    let mut run = h.begin_exits(ExitReason::Stop);
    let done = perform(&mut h, &mut run, Some(u(940)));
    assert_eq!(done.len(), 6);
    for at in [0, 2] {
        let ExitAction::CancelOrders { basket_id } = done[at] else { panic!() };
        assert_eq!(done[at + 1], exit(basket_id, OrderPurpose::StopLossExit));
    }
    assert_eq!(done[4..], [ExitAction::CloseResidual, ExitAction::Done]);
    assert_eq!(h.basket_hits, 2);
    assert!(h.parked_tps.is_empty());
    assert_eq!(h.basket_mgr.get(100).unwrap().realized_pnl, u(-120));
    assert_eq!(h.basket_mgr.get(101).unwrap().realized_pnl, u(180));
    assert_eq!(h.basket_mgr.killed_count(), 2);
}

#[test]
fn a_failed_stop_is_booked_at_the_mid_of_the_run() {
    let mut h = engine();
    h.on_book(u(940));
    let mut run = h.begin_exits(ExitReason::Stop);
    h.on_book(u(900));
    perform(&mut h, &mut run, None);
    assert_eq!(h.basket_mgr.get(100).unwrap().realized_pnl, u(-120));
}

#[test]
fn a_flush_and_a_cycle_reset_sweep_and_conclude() {
    for (reason, purpose, pnl) in [
        (ExitReason::Flush, OrderPurpose::KillSwitchExit, 0),
        (ExitReason::CycleReset, OrderPurpose::StopLossExit, u(-20)),
    ] {
        let mut h = engine();
        h.parked_tps.push(ParkedTp { basket_id: 102, side: Side::Sell, price: u(1), qty: u(1) });
        let mut run = h.begin_exits(reason);
        assert_eq!(run.stage, ExitStage::Begin);
        let done = perform(&mut h, &mut run, Some(u(990)));
        assert_eq!(done[0], ExitAction::CancelAll);
        assert_eq!(
            sorted(done[1..3].to_vec()),
            vec![exit(100, purpose), exit(101, purpose)]
        );
        assert_eq!(
            done[3..],
            [ExitAction::CloseResidual, ExitAction::Conclude, ExitAction::Done]
        );
        assert_eq!(h.parked_tps.is_empty(), reason == ExitReason::Flush);
        // A flush is booked at mid, a reset at the exit price.
        let b = h.basket_mgr.get(100).unwrap();
        assert_eq!((b.status, b.realized_pnl), (BasketStatus::Hit, pnl));
        assert_eq!(reason.purpose(), purpose);
        assert_eq!(h.next_exit(&mut run), ExitAction::Done);
    }
}
