use basket_grid_engine::exchanges::deribit::{
    base_url, fallback_contract_size, instrument_spec, AccessToken, DeribitClient, MarketReply,
    OrderReply, OrderRequest, ReplyError, TradeReport,
};
use basket_grid_engine::models::order::{
    Fill, OrderBookLevel, OrderPurpose, OrderStatus, OrderType, Side,
};

const UNIT: i64 = 100_000_000;

fn u(x: i64) -> i64 {
    x * UNIT
}

fn client() -> DeribitClient {
    DeribitClient::new("BTC-PERPETUAL".to_string(), Some((u(10), u(20))))
}

fn request() -> OrderRequest {
    OrderRequest {
        side: Side::Buy,
        price: u(50),
        qty: u(33),
        basket_id: 7,
        purpose: OrderPurpose::Entry,
    }
}

fn trade(id: &str, order: &str, amount: i64) -> TradeReport {
    TradeReport {
        trade_id: Some(id.to_string()),
        order_id: Some(order.to_string()),
        price: Some(u(51)),
        amount: Some(amount),
        fee: Some(-3),
    }
}

fn reply(id: &str, state: Option<&str>, trades: Vec<TradeReport>) -> OrderReply {
    OrderReply {
        order_id: Some(id.to_string()),
        state: state.map(|s| s.to_string()),
        trades,
    }
}

fn listed(ids: &[&str]) -> Vec<Option<String>> {
    ids.iter().map(|s| Some(s.to_string())).collect()
}

// A client past its first poll, with one open order "A".
fn trading() -> DeribitClient {
    let mut c = client();
    c.absorb_trades(&Vec::new(), 0);
    c.place_maker_only(&request(), &reply("A", Some("open"), Vec::new())).unwrap();
    c
}

fn absorb(c: &mut DeribitClient, trades: Vec<TradeReport>) -> (Vec<Fill>, Vec<usize>) {
    let news = c.absorb_trades(&trades, 99);
    (news.fills, news.orphans)
}

#[test]
fn sizes_are_snapped_to_contracts() {
    let c = client();
    assert_eq!(c.snap_qty(u(34)), u(30));
    assert_eq!(c.snap_qty(u(35)), u(40));
    assert_eq!(c.snap_qty(u(3)), u(20));
    let odd = DeribitClient::new("X".to_string(), Some((0, 0)));
    assert_eq!(odd.snap_qty(UNIT / 3), UNIT);
    assert_eq!(odd.snap_qty(u(7) + 1), u(7));
    let small = DeribitClient::new("X".to_string(), Some((u(10), u(1))));
    assert_eq!(small.snap_qty(u(1)), u(10));
}

#[test]
fn sizes_fall_back_by_instrument() {
    assert_eq!(fallback_contract_size("btc-perpetual"), u(10));
    assert_eq!(fallback_contract_size("ETH-PERPETUAL"), UNIT);
    assert_eq!(fallback_contract_size("SOL"), UNIT);
    let c = DeribitClient::new("BTC-PERPETUAL".to_string(), None);
    assert_eq!((c.contract_size, c.min_trade_amount), (u(10), u(10)));
    assert_eq!(instrument_spec(Some(5), Some(6)), Some((5, 6)));
    assert_eq!(instrument_spec(Some(5), None), Some((5, 5)));
    assert_eq!(instrument_spec(None, Some(6)), None);
}

#[test]
fn tokens_are_renewed_in_time() {
    let t = AccessToken::granted("t".to_string(), Some(100), 5);
    assert_eq!(t.expires_at, 70_005);
    assert!(t.usable(70_004));
    assert!(!t.usable(70_005));
    assert_eq!(AccessToken::granted("t".to_string(), None, 0).expires_at, 870_000);
    assert_eq!(AccessToken::granted("t".to_string(), Some(10), 4).expires_at, 4);
    assert_eq!(AccessToken::granted("t".to_string(), Some(u64::MAX), 4).expires_at, u64::MAX);
}

#[test]
fn networks_have_addresses() {
    assert_eq!(base_url(true), "https://www.deribit.com/api/v2");
    assert_eq!(base_url(false), "https://test.deribit.com/api/v2");
    assert_eq!(client().name(), "Deribit");
}

#[test]
fn books_fall_back_on_the_index() {
    let l = |price: i64| Some(OrderBookLevel { price, size: u(1) });
    let b = client().orderbook(&vec![None, l(u(9))], &vec![l(u(11)), None], None);
    assert_eq!((b.bids.len(), b.asks.len(), b.mid), (1, 1, u(10)));
    assert_eq!(client().orderbook(&Vec::new(), &vec![l(u(11))], Some(u(12))).mid, u(12));
    assert_eq!(client().orderbook(&Vec::new(), &Vec::new(), None).mid, 0);
}

#[test]
fn an_open_order_is_kept() {
    let mut c = client();
    let (o, fills) =
        c.place_maker_only(&request(), &reply("A", Some("open"), Vec::new())).unwrap();
    assert!(fills.is_empty());
    assert_eq!((o.status, o.order_type), (OrderStatus::Open, OrderType::LimitMaker));
    assert_eq!((o.price, o.qty, o.basket_id), (u(50), u(33), 7));
    assert_eq!(c.open_orders(), vec![o]);
    let found = c.find_order(o.order_id).unwrap();
    assert_eq!((found.0.as_str(), found.1), ("A", o));
    assert!(c.find_order(1).is_none());
}

#[test]
fn states_become_statuses() {
    let mut c = client();
    let mut status = |s: Option<&str>| {
        c.place_maker_only(&request(), &reply("A", s, Vec::new())).unwrap().0.status
    };
    assert_eq!(status(None), OrderStatus::Open);
    assert_eq!(status(Some("filled")), OrderStatus::Filled);
    assert_eq!(status(Some("rejected")), OrderStatus::Rejected);
    assert_eq!(status(Some("untriggered")), OrderStatus::Pending);
}

#[test]
fn an_answer_without_an_identifier_is_an_error() {
    let mut c = client();
    let mut r = reply("A", None, vec![trade("t", "A", u(1))]);
    r.order_id = None;
    assert_eq!(c.place_maker_only(&request(), &r).unwrap_err(), ReplyError::NoOrderId);
    assert!(c.open_orders().is_empty());
    assert_eq!(ReplyError::NoOrderId.message(), "no order_id in deribit response");
}

#[test]
fn trades_in_an_answer_fill_at_once_and_never_again() {
    let mut c = client();
    c.absorb_trades(&Vec::new(), 0);
    let mut bare = trade("t3", "A", u(4));
    bare.price = None;
    bare.fee = None;
    let r = reply(
        "A",
        Some("open"),
        vec![trade("t1", "A", u(5)), trade("t2", "A", 0), bare],
    );
    let (o, fills) = c.place_maker_only(&request(), &r).unwrap();
    assert_eq!(fills.len(), 2);
    assert_eq!((fills[0].price, fills[0].qty, fills[0].fee), (u(51), u(5), 3));
    assert_eq!((fills[1].price, fills[1].qty, fills[1].fee), (u(50), u(4), 0));
    assert_eq!((fills[0].order_id, fills[0].basket_id), (o.order_id, 7));
    let polled = vec![trade("t1", "A", u(5)), trade("t2", "A", u(1)), trade("t3", "A", u(4))];
    assert_eq!(absorb(&mut c, polled), (vec![], vec![]));
}

#[test]
fn the_first_poll_only_marks() {
    let mut c = client();
    c.place_maker_only(&request(), &reply("A", Some("open"), Vec::new())).unwrap();
    assert_eq!(absorb(&mut c, vec![trade("t1", "A", u(5))]), (vec![], vec![]));
    assert!(c.first_tick_done);
    assert_eq!(absorb(&mut c, vec![trade("t1", "A", u(5))]), (vec![], vec![]));
    assert_eq!(absorb(&mut c, vec![trade("t2", "A", u(5))]).0.len(), 1);
}

#[test]
fn each_trade_fills_once() {
    let mut c = trading();
    let mut unnamed = trade("x", "A", u(9));
    unnamed.trade_id = None;
    let (fills, orphans) = absorb(
        &mut c,
        vec![
            trade("t1", "A", u(5)),
            trade("t1", "A", u(5)),
            unnamed,
            trade("t2", "A", u(2)),
            trade("t3", "Z", u(2)),
        ],
    );
    assert_eq!(fills.len(), 2);
    assert_eq!((fills[0].qty, fills[1].qty), (u(5), u(2)));
    assert_eq!((fills[0].side, fills[0].purpose), (Side::Buy, OrderPurpose::Entry));
    assert_eq!((fills[0].fee, fills[0].timestamp), (3, 99));
    assert_eq!(orphans, vec![4]);
    // Partial fills leave the order open.
    assert_eq!(c.open_orders().len(), 1);
    // What a report leaves out comes from the order.
    let mut bare = trade("t4", "A", 0);
    bare.price = None;
    bare.amount = None;
    let (fills, _) = absorb(&mut c, vec![bare]);
    assert_eq!((fills[0].price, fills[0].qty), (u(50), u(33)));
    let mut lost = trade("t5", "", 0);
    lost.order_id = None;
    assert_eq!(absorb(&mut c, vec![lost]), (vec![], vec![0]));
}

#[test]
fn a_refused_cancellation_keeps_the_order() {
    let mut c = trading();
    let o = c.open_orders()[0];
    let (id, found) = c.find_order(o.order_id).unwrap();
    c.cancel(id.clone(), found, false, 0);
    assert_eq!(c.open_orders(), vec![o]);
    c.cancel(id, found, true, 0);
    assert!(c.open_orders().is_empty());
    // A late trade is still matched.
    assert_eq!(absorb(&mut c, vec![trade("t1", "A", u(5))]).0[0].order_id, o.order_id);
}

#[test]
fn cancelled_orders_are_forgotten_after_half_a_minute() {
    let mut c = trading();
    let (id, o) = c.find_order(c.open_orders()[0].order_id).unwrap();
    c.cancel(id, o, true, 1_000);
    c.expire(31_000);
    assert_eq!(absorb(&mut c, vec![trade("t1", "A", u(5))]).0.len(), 1);
    c.expire(31_001);
    assert_eq!(absorb(&mut c, vec![trade("t2", "A", u(5))]), (vec![], vec![0]));
}

#[test]
fn orders_that_left_the_book_are_still_matched() {
    let mut c = trading();
    c.place_maker_only(&request(), &reply("B", Some("open"), Vec::new())).unwrap();
    let orphans = c.sync(&vec![None, Some("B".to_string()), Some("C".to_string())], 500);
    assert_eq!(orphans, vec![2]);
    assert_eq!(c.open_orders().len(), 1);
    assert_eq!(absorb(&mut c, vec![trade("t1", "A", u(5)), trade("t2", "B", u(5))]).0.len(), 2);
    // Shortly off the book is no orphan.
    assert!(c.sync(&listed(&["A", "B"]), 600).is_empty());
}

#[test]
fn everything_is_forgotten_with_cancel_all() {
    let mut c = trading();
    c.cancel_all();
    assert!(c.open_orders().is_empty());
}

#[test]
fn marked_trades_stay_in_bounds() {
    let mut c = trading();
    let many: Vec<TradeReport> = (0..5000).map(|i| trade(&format!("t{}", i), "A", 1)).collect();
    assert_eq!(absorb(&mut c, many).0.len(), 5000);
    c.trim_processed();
    assert_eq!(c.processed_trade_ids.len(), 5000);
    absorb(&mut c, vec![trade("u", "A", 1)]);
    c.trim_processed();
    assert_eq!(c.processed_trade_ids.len(), 1000);
}

#[test]
fn a_whole_poll() {
    let mut c = trading();
    assert!(c.tick(&None, 0).fills.is_empty());
    let news = c.tick(&Some(vec![trade("t1", "A", u(5))]), 0);
    assert_eq!(news.fills.len(), 1);
    assert!(news.fills[0].timestamp > 1_600_000_000_000);
    assert!(c.reconcile(&None, 0).is_empty());
    assert_eq!(c.open_orders().len(), 1);
    assert_eq!(c.reconcile(&Some(listed(&["Q"])), 0), vec![0]);
    assert!(c.open_orders().is_empty());
    let mut fresh = client();
    fresh.tick(&None, 0);
    assert!(!fresh.first_tick_done);
}

#[test]
fn market_orders_fill_as_told() {
    let c = client();
    let told = MarketReply { average_price: Some(u(49)), filled_amount: Some(u(30)) };
    let (o, f) = c.place_market_reduce_only(&request(), &told);
    assert_eq!((o.price, o.qty, o.filled_qty), (u(49), u(33), u(30)));
    assert_eq!((o.status, o.order_type), (OrderStatus::Filled, OrderType::MarketReduceOnly));
    assert_eq!((f.price, f.qty, f.fee, f.order_id), (u(49), u(30), 0, o.order_id));
    let silent = MarketReply { average_price: None, filled_amount: None };
    let (o, f) = c.place_market_reduce_only(&request(), &silent);
    assert_eq!((o.price, f.qty), (0, u(33)));
}
