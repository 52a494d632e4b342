use basket_grid_engine::exchanges::deribit::OrderRequest;
use basket_grid_engine::exchanges::hyperliquid::{
    market_limit, HyperliquidClient, OrderAnswer, VenueFill,
};
use basket_grid_engine::models::order::{
    OrderBook, OrderBookLevel, OrderPurpose, OrderStatus, Side,
};

const UNIT: i64 = 100_000_000;

fn u(x: i64) -> i64 {
    x * UNIT
}

fn order_request() -> OrderRequest {
    OrderRequest {
        side: Side::Sell,
        price: u(50),
        qty: u(3),
        basket_id: 7,
        purpose: OrderPurpose::TakeProfit,
    }
}

fn client() -> HyperliquidClient {
    HyperliquidClient::since("BTC".to_string(), 0)
}

fn level(price: i64) -> Option<OrderBookLevel> {
    Some(OrderBookLevel { price, size: u(1) })
}

fn venue_fill(oid: u64, time: u64) -> VenueFill {
    VenueFill { oid, time, px: Some(u(51)), sz: Some(u(2)) }
}

#[test]
fn books_take_ten_readable_levels() {
    let mut bids = vec![None, level(u(99))];
    for i in 0..20 {
        bids.push(level(u(90 - i)));
    }
    let b = client().orderbook(&bids, &vec![level(u(101))]);
    assert_eq!(b.bids.len(), 9);
    assert_eq!(b.mid, u(100));
    assert_eq!(client().orderbook(&bids, &vec![None]).mid, 0);
    assert!(b.timestamp > 1_600_000_000_000);
    let nothing = OrderBook::unavailable();
    assert_eq!(nothing.mid, 0);
    assert!(nothing.bids.is_empty() && nothing.asks.is_empty());
    assert!(nothing.timestamp > 1_600_000_000_000);
    let nothing = OrderBook::unavailable_at(4);
    assert_eq!((nothing.mid, nothing.timestamp), (0, 4));
    assert!(nothing.bids.is_empty() && nothing.asks.is_empty());
}

#[test]
fn quoted_books_fall_back_on_another_mid() {
    let b = OrderBook::quoted(Vec::new(), vec![level(u(101)).unwrap()], u(98));
    assert_eq!(b.mid, u(98));
    let b = OrderBook::quoted(vec![level(u(100)).unwrap()], vec![level(u(101)).unwrap()], 0);
    assert_eq!(b.mid, u(100) + UNIT / 2);
}

#[test]
fn market_orders_cross_the_book() {
    let b = client().orderbook(&vec![level(u(99)), level(u(97))], &vec![level(u(101)), level(u(104))]);
    assert_eq!(market_limit(&b, Side::Buy), u(104));
    assert_eq!(market_limit(&b, Side::Sell), u(97));
    let empty = OrderBook { bids: Vec::new(), asks: Vec::new(), mid: u(100), timestamp: 0 };
    assert_eq!(market_limit(&empty, Side::Buy), u(101));
    assert_eq!(market_limit(&empty, Side::Sell), u(99));
}

#[test]
fn answers_become_statuses() {
    let mut c = HyperliquidClient::since("BTC".to_string(), 0);
    let open = c.place_maker_only(&order_request(), OrderAnswer::Resting { oid: 5 });
    assert_eq!(open.status, OrderStatus::Open);
    let filled = OrderAnswer::Filled { avg_px: None, total_sz: None };
    assert_eq!(c.place_maker_only(&order_request(), filled).status, OrderStatus::Filled);
    let refused = c.place_maker_only(&order_request(), OrderAnswer::Refused);
    assert_eq!(refused.status, OrderStatus::Rejected);
    let unclear = c.place_maker_only(&order_request(), OrderAnswer::Unclear);
    assert_eq!(unclear.status, OrderStatus::Pending);
    assert_eq!(c.open_orders(), vec![open]);
    assert_eq!(c.find_order(open.order_id), Some(5));
    assert_eq!(c.find_order(refused.order_id), None);
    assert_eq!(c.name(), "Hyperliquid");
}

#[test]
fn fills_are_taken_in_once() {
    let mut c = HyperliquidClient::since("BTC".to_string(), 100);
    let o = c.place_maker_only(&order_request(), OrderAnswer::Resting { oid: 5 });
    let p = c.place_maker_only(&order_request(), OrderAnswer::Resting { oid: 6 });
    let mut bare = venue_fill(6, 130);
    bare.px = None;
    bare.sz = None;
    let report =
        vec![venue_fill(5, 100), venue_fill(5, 120), venue_fill(5, 125), bare, venue_fill(9, 110)];
    let fills = c.tick(&report);
    assert_eq!(fills.len(), 2);
    assert_eq!((fills[0].order_id, fills[0].price, fills[0].qty), (o.order_id, u(51), u(2)));
    assert_eq!((fills[0].timestamp, fills[0].fee, fills[0].side), (120, 0, Side::Sell));
    assert_eq!((fills[1].order_id, fills[1].price, fills[1].qty), (p.order_id, u(50), u(3)));
    assert_eq!(c.last_seen_fill, 130);
    assert!(c.open_orders().is_empty());
    assert!(c.tick(&report).is_empty());
    assert_eq!(c.last_seen_fill, 130);
}

#[test]
fn orders_are_forgotten_with_their_cancellation() {
    let mut c = HyperliquidClient::new("BTC".to_string());
    assert!(c.last_seen_fill > 1_600_000_000_000);
    for oid in [1, 2, 3] {
        c.place_maker_only(&order_request(), OrderAnswer::Resting { oid });
    }
    c.cancel(2);
    let mut left = c.tracked_oids();
    left.sort();
    assert_eq!(left, vec![1, 3]);
    c.cancel_all();
    assert!(c.tracked_oids().is_empty());
}

#[test]
fn immediate_orders_fill_as_answered() {
    let c = HyperliquidClient::since("BTC".to_string(), 0);
    let answer = OrderAnswer::Filled { avg_px: Some(u(49)), total_sz: Some(u(2)) };
    let (o, f) = c.place_market_reduce_only(&order_request(), answer);
    assert_eq!((o.price, o.qty, o.filled_qty), (u(49), u(3), u(2)));
    assert_eq!((f.price, f.qty, f.order_id), (u(49), u(2), o.order_id));
    let answer = OrderAnswer::Filled { avg_px: None, total_sz: None };
    let (o, _) = c.place_market_reduce_only(&order_request(), answer);
    assert_eq!((o.price, o.filled_qty), (u(50), u(3)));
    let (o, f) = c.place_market_reduce_only(&order_request(), OrderAnswer::Refused);
    assert_eq!((o.price, o.filled_qty, f.qty), (u(50), 0, 0));
    assert_eq!(o.status, OrderStatus::Filled);
}
