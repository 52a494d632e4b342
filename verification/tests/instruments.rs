use basket_grid_engine::exchanges::instruments::{
    collect_perps, deribit_currencies, deribit_listing_url, fetch_deribit_perps,
    fetch_hyperliquid_perps, mock_symbols, requested_source, unknown_source_message,
    InstrumentSource, Listing,
};

fn listing(period: Option<&str>, name: Option<&str>) -> Listing {
    Listing {
        settlement_period: period.map(|s| s.to_string()),
        instrument_name: name.map(|s| s.to_string()),
    }
}

fn strings(list: &[&str]) -> Vec<String> {
    list.iter().map(|s| s.to_string()).collect()
}

#[test]
fn sources_go_by_name_in_any_case() {
    assert_eq!(requested_source("DERIBIT").0, InstrumentSource::Deribit);
    assert_eq!(requested_source("HyperLiquid").0, InstrumentSource::Hyperliquid);
    assert_eq!(requested_source("mock").0, InstrumentSource::Mock);
    // The Kelvin sign is a capital letter of `k`.
    assert_eq!(requested_source("moc\u{212a}").0, InstrumentSource::Mock);
    let (source, name) = requested_source("Binance");
    assert_eq!(source, InstrumentSource::Unknown);
    assert_eq!(unknown_source_message(&name), "unknown exchange: binance");
}

#[test]
fn only_named_perpetuals_are_listed() {
    let mut names = strings(&["Z"]);
    collect_perps(
        &mut names,
        &vec![
            listing(Some("perpetual"), Some("ETH-PERPETUAL")),
            listing(Some("month"), Some("BTC-27JUN")),
            listing(None, Some("X")),
            listing(Some("perpetual"), None),
            listing(Some("perpetual"), Some("BTC-PERPETUAL")),
            listing(Some("perpetual"), Some("ETH-PERPETUAL")),
        ],
    );
    assert_eq!(names, strings(&["Z", "ETH-PERPETUAL", "BTC-PERPETUAL", "ETH-PERPETUAL"]));
    assert_eq!(
        fetch_deribit_perps(&names),
        strings(&["BTC-PERPETUAL", "ETH-PERPETUAL", "Z"])
    );
    assert_eq!(
        fetch_hyperliquid_perps(&names),
        strings(&["BTC-PERPETUAL", "ETH-PERPETUAL", "ETH-PERPETUAL", "Z"])
    );
}

#[test]
fn listings_are_asked_for_by_currency() {
    assert_eq!(deribit_currencies(), strings(&["BTC", "ETH", "SOL", "MATIC", "XRP", "USDC"]));
    assert_eq!(
        deribit_listing_url(true, "BTC"),
        "https://test.deribit.com/api/v2/public/get_instruments?currency=BTC&kind=future&expired=false"
    );
    assert!(deribit_listing_url(false, "SOL").starts_with("https://www.deribit.com/api/v2/public"));
    assert_eq!(mock_symbols(), strings(&["BTC-MOCK", "ETH-MOCK", "SOL-MOCK"]));
}
