use basket_grid_engine::api::summary::{
    summary, summary_at, within, HistoryEvent, SummaryQuery, Tally, Window,
};

const UNIT: i64 = 100_000_000;
const HOUR: i64 = 3_600_000;

fn u(x: i64) -> i64 {
    x * UNIT
}

fn event(ts: i64, exchange: &str, agent: &str, token: &str, kind: &str, gross: i64) -> HistoryEvent {
    HistoryEvent {
        ts,
        agent: agent.to_string(),
        exchange: exchange.to_string(),
        token: token.to_string(),
        kind: kind.to_string(),
        gross_pnl: gross,
        fees: u(1),
        volume: u(100),
        qty: u(2),
        entry_side: "Buy".to_string(),
        entry_price: u(50),
        exit_price: u(55),
    }
}

fn nothing_asked() -> SummaryQuery {
    SummaryQuery { hours: None, since_ms: None, until_ms: None }
}

#[test]
fn windows_are_as_asked() {
    let now = 1_000 * HOUR;
    let w = Window::of(&nothing_asked(), now);
    assert_eq!((w.since_ms, w.until_ms, w.now_ms), (976 * HOUR, now, now));
    let q = SummaryQuery { hours: Some(0), since_ms: None, until_ms: Some(now - 5) };
    let w = Window::of(&q, now);
    assert_eq!((w.since_ms, w.until_ms), (999 * HOUR, now - 5));
    let q = SummaryQuery { hours: Some(9), since_ms: Some(7), until_ms: None };
    assert_eq!(Window::of(&q, now).since_ms, 7);
}

#[test]
fn both_ends_of_a_window_are_inside() {
    let events: Vec<HistoryEvent> =
        (0..6).map(|t| event(t, "mock", "a", "BTC", "rtp", 0)).collect();
    let w = Window { since_ms: 2, until_ms: 4, now_ms: 9 };
    let kept = within(&events, &w);
    assert_eq!(kept.iter().map(|e| e.ts).collect::<Vec<_>>(), [2, 3, 4]);
}

#[test]
fn large_round_trips_keep_their_average_prices() {
    let mut t = Tally::new();
    let mut ev = event(0, "deribit", "a", "BTC", "rtp", 0);
    ev.qty = u(1_000_000);
    ev.entry_price = u(100_000);
    ev.exit_price = u(100_005);
    t.take_in(&ev);
    let mut both = t;
    both.add_tally(&t);
    let f = both.show(HOUR);
    assert_eq!((f.buy_vwap, f.sell_vwap), (u(100_000), u(100_005)));
}

#[test]
fn a_round_trip_has_two_legs() {
    let mut t = Tally::new();
    t.take_in(&event(0, "mock", "a", "BTC", "rtp", u(10)));
    let mut short = event(0, "mock", "a", "BTC", "sl_rtp", u(-4));
    short.entry_side = "SELL".to_string();
    short.fees = u(-3);
    t.take_in(&short);
    let mut priceless = event(0, "mock", "a", "BTC", "rtp", 0);
    priceless.exit_price = 0;
    priceless.fees = 0;
    t.take_in(&priceless);
    assert_eq!(t.rtp_count, 3);
    assert_eq!((t.gross_pnl, t.fees, t.rebates), (u(6), u(1), u(3)));
    assert_eq!((t.buys, t.sells), (3, 2));
    assert_eq!((t.buy_pq_sum, t.buy_qty_sum), (u(310) as i128 * UNIT as i128, u(6)));
    assert_eq!((t.sell_pq_sum, t.sell_qty_sum), (u(210) as i128 * UNIT as i128, u(4)));
    t.take_in(&event(0, "mock", "a", "BTC", "basket_hit", u(-7)));
    t.take_in(&event(0, "mock", "a", "BTC", "anything", u(-7)));
    assert_eq!((t.basket_hits, t.basket_hit_pnl), (1, u(-7)));
    assert_eq!(t.net_pnl(), u(1));
    let f = t.show(HOUR / 2);
    assert_eq!(f.buy_vwap, 5_166_666_667);
    assert_eq!(f.sell_vwap, u(52) + UNIT / 2);
    assert_eq!(f.rtp_per_hr, u(6));
    assert_eq!(f.vol_per_hr, u(600));
    assert_eq!(f.pnl_per_rtp, 33_333_333);
    assert_eq!(Tally::new().show(HOUR).pnl_per_rtp, 0);
}

#[test]
fn a_report_groups_and_sorts() {
    let events = vec![
        event(5, "mock", "zoe", "ETH", "rtp", u(1)),
        event(6, "deribit", "amy", "BTC", "rtp", u(2)),
        event(7, "mock", "bob", "BTC", "rtp", u(4)),
        event(8, "mock", "zoe", "BTC", "basket_hit", u(-8)),
        event(999, "mock", "late", "BTC", "rtp", u(16)),
    ];
    let q = SummaryQuery { hours: None, since_ms: Some(0), until_ms: Some(10) };
    let active = vec!["zoe".to_string()];
    let r = summary_at(&events, &active, &q, 50);
    assert_eq!(r.hours, 1);
    assert_eq!(r.window.now_ms, 50);
    let names: Vec<&str> = r.accounts.iter().map(|a| a.name.as_str()).collect();
    assert_eq!(names, ["deribit", "mock"]);
    let mock = &r.accounts[1];
    let agents: Vec<&str> = mock.agents.iter().map(|a| a.name.as_str()).collect();
    assert_eq!(agents, ["bob", "zoe"]);
    assert!(!mock.agents[0].active && mock.agents[1].active);
    // The last token that she traded.
    assert_eq!(mock.agents[1].symbol, "BTC");
    assert_eq!(mock.agents[1].figures.net_pnl, u(-8));
    assert_eq!(mock.agents[0].figures.net_pnl, u(3));
    assert_eq!(mock.cumulative.rtps, 2);
    assert_eq!(mock.cumulative.gross_pnl, u(5));
    assert_eq!(mock.cumulative.net_pnl, u(-5));
    assert_eq!(mock.cumulative.basket_hits, 1);
    assert_eq!(mock.cumulative.buy_vwap, u(50));

    let keys: Vec<(&str, &str)> =
        r.rows.iter().map(|c| (c.exchange.as_str(), c.token.as_str())).collect();
    assert_eq!(keys, [("deribit", "BTC"), ("mock", "BTC"), ("mock", "ETH")]);
    assert_eq!(r.rows[1].agents, ["bob", "zoe"]);
    assert_eq!((r.rows[1].rtp_count, r.rows[1].gross_pnl), (1, u(4)));
    assert_eq!(r.rows[1].per_rtp_pnl, u(4));
    assert_eq!(r.rows[1].net_pnl, u(-5));
    assert_eq!(r.rows[1].basket_hit_pnl, u(-8));
}

#[test]
fn an_empty_report() {
    let q = SummaryQuery { hours: Some(48), since_ms: None, until_ms: None };
    let r = summary(&Vec::new(), &Vec::new(), &q);
    assert!(r.accounts.is_empty() && r.rows.is_empty());
    assert_eq!(r.hours, 48);
    assert!(r.window.now_ms > 1_600_000_000_000);
}
