use basket_grid_engine::exchanges::mock::MockExchange;
use basket_grid_engine::models::order::{OrderPurpose, OrderStatus, OrderType, Side};

const UNIT: i64 = 100_000_000;

fn u(x: i64) -> i64 {
    x * UNIT
}

#[test]
fn crossing_orders_are_rejected() {
    let mut ex = MockExchange::new(u(100));
    let o = ex.place_maker_only(Side::Buy, u(100), u(1), 7, OrderPurpose::Entry);
    assert_eq!(o.status, OrderStatus::Rejected);
    assert!(ex.open_orders().is_empty());
    let o = ex.place_maker_only(Side::Sell, u(101), u(1), 7, OrderPurpose::Entry);
    assert_eq!(o.status, OrderStatus::Open);
    assert_eq!(o.order_type, OrderType::LimitMaker);
    assert_eq!((o.basket_id, o.price, o.qty, o.filled_qty), (7, u(101), u(1), 0));
    assert!(o.created_at > 1_600_000_000_000);
    assert_eq!(ex.open_orders(), vec![o]);
}

#[test]
fn crossed_orders_fill_whole_and_once() {
    let mut ex = MockExchange::new(u(100));
    let buy = ex.accept(1, Side::Buy, u(95), u(2), 7, OrderPurpose::Entry, 0);
    ex.accept(2, Side::Sell, u(105), u(3), 7, OrderPurpose::TakeProfit, 0);
    assert!(ex.fill_crossed(5).is_empty());
    ex.walk(u(-5), 0);
    let fills = ex.fill_crossed(6);
    assert_eq!(fills.len(), 1);
    let f = fills[0];
    assert_eq!((f.order_id, f.price, f.qty, f.side), (1, buy.price, buy.qty, Side::Buy));
    assert_eq!((f.purpose, f.basket_id, f.fee, f.timestamp), (OrderPurpose::Entry, 7, 0, 6));
    assert_eq!(ex.open_orders().len(), 1);
    assert!(ex.fill_crossed(7).is_empty());
    ex.walk(u(20), u(-5));
    assert_eq!(ex.current_price(), u(110));
    assert_eq!(ex.fill_crossed(8)[0].order_id, 2);
}

#[test]
fn cancelling_takes_orders_off() {
    let mut ex = MockExchange::new(u(100));
    ex.accept(1, Side::Buy, u(95), u(2), 7, OrderPurpose::Entry, 0);
    ex.accept(2, Side::Buy, u(94), u(2), 7, OrderPurpose::Entry, 0);
    ex.cancel(1);
    ex.cancel(99);
    assert_eq!(ex.open_orders().len(), 1);
    ex.cancel_all();
    assert!(ex.open_orders().is_empty());
}

#[test]
fn market_orders_slip_and_fill() {
    let ex = MockExchange::new(u(1000));
    let (o, f) = ex.execute(1, 2, Side::Buy, u(3), 7, OrderPurpose::StopLossExit, u(2), 9);
    assert_eq!(o.price, u(1000) + UNIT / 5);
    assert_eq!((o.status, o.filled_qty), (OrderStatus::Filled, u(3)));
    assert_eq!((f.fill_id, f.order_id, f.price, f.qty), (2, 1, o.price, u(3)));
    let (o, _) = ex.execute(1, 2, Side::Sell, u(3), 7, OrderPurpose::StopLossExit, u(2), 9);
    assert_eq!(o.price, u(1000) - UNIT / 5);
    for _ in 0..200 {
        let (o, f) = ex.place_market_reduce_only(Side::Buy, u(1), 7, OrderPurpose::KillSwitchExit);
        assert!(o.price >= u(1000) + UNIT / 10 && o.price < u(1000) + UNIT / 2);
        assert_eq!(o.order_type, OrderType::MarketReduceOnly);
        assert_eq!(f.price, o.price);
        assert_ne!(f.fill_id, o.order_id);
    }
}

#[test]
fn the_price_walks_in_small_steps() {
    let mut ex = MockExchange::new(u(1000));
    let mut spikes = 0;
    let mut moved = 0;
    for _ in 0..5000 {
        ex.mid_price = u(1000);
        ex.advance_price();
        let d = (ex.mid_price - u(1000)).abs();
        assert!(d <= u(215));
        if d >= u(15) {
            spikes += 1;
        }
        if d != 0 {
            moved += 1;
        }
    }
    assert!(moved > 4900);
    assert!(spikes > 20 && spikes < 300);
    ex.mid_price = UNIT;
    ex.walk(u(-100), 0);
    assert_eq!(ex.mid_price, UNIT);
}

#[test]
fn the_book_has_ten_levels() {
    let ex = MockExchange::new(u(1000));
    let b = ex.orderbook_at(4);
    assert_eq!((b.mid, b.timestamp), (u(1000), 4));
    assert_eq!((b.bids.len(), b.asks.len()), (10, 10));
    assert_eq!((b.bids[0].price, b.bids[0].size), (u(995), 60_000_000));
    assert_eq!((b.asks[9].price, b.asks[9].size), (u(1050), 150_000_000));
    assert!(ex.orderbook().timestamp > 1_600_000_000_000);
    assert_eq!(ex.name(), "MockExchange");
}

#[test]
fn a_tick_moves_and_fills() {
    let mut ex = MockExchange::new(u(1000));
    ex.accept(1, Side::Buy, u(999), u(1), 7, OrderPurpose::Entry, 0);
    ex.accept(2, Side::Sell, u(1001), u(1), 7, OrderPurpose::Entry, 0);
    let mut filled = 0;
    for _ in 0..1000 {
        let mid = ex.mid_price;
        filled += ex.tick().len();
        assert!((ex.mid_price - mid).abs() <= u(215));
    }
    assert_eq!(filled, 2);
    assert!(ex.open_orders().is_empty());
}
