use basket_grid_engine::engines::slicing::{FlattenStep, SlicingEngine};
use basket_grid_engine::models::config::EmergencySlicingConfig;
use basket_grid_engine::models::order::{OrderBook, OrderBookLevel, Side};

const UNIT: i64 = 100_000_000;

fn u(x: i64) -> i64 {
    x * UNIT
}

fn engine(enabled: bool) -> SlicingEngine {
    SlicingEngine::new(EmergencySlicingConfig {
        enabled,
        max_slice_qty: u(10),
        slice_delay_ms: 0,
        max_slippage_bps: u(30),
        book_depth_levels: 2,
        participation_rate: UNIT / 5,
        max_slice_attempts: 3,
    })
}

fn book(sizes: &[i64]) -> OrderBook {
    let levels = |s: &[i64]| -> Vec<OrderBookLevel> {
        s.iter().map(|q| OrderBookLevel { price: u(100), size: *q }).collect()
    };
    OrderBook { bids: levels(sizes), asks: Vec::new(), mid: u(100), timestamp: 0 }
}

#[test]
fn without_slicing_one_order_does_it() {
    let e = engine(false);
    let mut run = e.begin(u(7));
    assert_eq!(e.flatten(&run), FlattenStep::SingleShot { qty: u(7) });
    e.sliced(&mut run, u(7), u(99));
    assert_eq!(e.flatten(&run), FlattenStep::Done { exit_price: u(99) });
    assert_eq!(e.outcome(&run), Ok(u(99)));
    let mut nearly = e.begin(u(7));
    e.sliced(&mut nearly, u(7) - 100, u(99));
    assert_eq!(e.outcome(&nearly), Ok(u(99)));
    let mut less = e.begin(u(7));
    e.sliced(&mut less, u(7) - 101, u(99));
    assert_eq!(e.outcome(&less), Err(101));
    let mut part = e.begin(u(7));
    e.sliced(&mut part, u(5), u(99));
    assert_eq!(e.flatten(&part), FlattenStep::GaveUp { left: u(2), last_price: u(99) });
}

#[test]
fn slices_follow_the_book() {
    let e = engine(true);
    let run = e.begin(u(50));
    // A fifth of the first two levels.
    assert_eq!(e.slice(&run, &book(&[u(20), u(10), u(1000)]), Side::Sell), u(6));
    // The cap.
    assert_eq!(e.slice(&run, &book(&[u(2000)]), Side::Sell), u(10));
    // A tenth of the cap when the book is thin, as on the empty other side.
    assert_eq!(e.slice(&run, &book(&[u(1)]), Side::Sell), u(1));
    assert_eq!(e.slice(&run, &book(&[u(2000)]), Side::Buy), u(1));
    // What is left.
    assert_eq!(e.slice(&e.begin(u(2)), &book(&[u(2000)]), Side::Sell), u(2));
}

#[test]
fn slices_stop_when_flat() {
    let e = engine(true);
    let mut run = e.begin(u(15));
    let mut sent = 0;
    while e.flatten(&run) == FlattenStep::Slice {
        let s = e.slice(&run, &book(&[u(2000)]), Side::Sell);
        assert!(s > 0 && s <= u(10));
        sent += s;
        e.sliced(&mut run, s, u(98));
    }
    assert_eq!(sent, u(15));
    assert_eq!(run.attempts, 2);
    assert_eq!(e.flatten(&run), FlattenStep::Done { exit_price: u(98) });
    assert_eq!(e.outcome(&run), Ok(u(98)));
}

#[test]
fn attempts_run_out() {
    let e = engine(true);
    let mut run = e.begin(u(100));
    let mut n = 0;
    while e.flatten(&run) == FlattenStep::Slice {
        let s = e.slice(&run, &book(&[u(2000)]), Side::Sell);
        e.sliced(&mut run, s, u(98));
        n += 1;
    }
    assert_eq!(n, 3);
    assert_eq!(e.flatten(&run), FlattenStep::GaveUp { left: u(70), last_price: u(98) });
    assert_eq!(e.outcome(&run), Err(u(70)));
}

#[test]
fn nothing_to_flatten_is_done_at_once() {
    let e = engine(true);
    assert_eq!(e.flatten(&e.begin(0)), FlattenStep::Done { exit_price: 0 });
}

#[test]
fn slippage_is_in_basis_points_of_mid() {
    let e = engine(true);
    // Thirty basis points of a hundred are 0.3.
    assert!(!e.slippage_exceeded(u(100) + 30_000_000, u(100)));
    assert!(e.slippage_exceeded(u(100) + 30_000_001, u(100)));
    assert!(e.slippage_exceeded(u(100) - 30_000_001, u(100)));
    assert!(e.slippage_exceeded(1, 0));
    assert!(!e.slippage_exceeded(0, 0));
    assert!(!e.slippage_exceeded(u(-50), u(-100)));
}
