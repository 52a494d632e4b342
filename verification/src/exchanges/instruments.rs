//! Lists of tradeable instruments.
use vstd::prelude::*;

use crate::exchanges::deribit::base_url;
use crate::names::{ascending, in_order, sorted_list, sorted_set, texts};
use crate::text::{lowercase, lowered};

verus! {

/// An instrument as Deribit lists it; `None` where a field is missing.
pub struct Listing {
    pub settlement_period: Option<String>,
    pub instrument_name: Option<String>,
}

/// Where instruments are listed.
#[derive(Debug, Clone, Copy, PartialEq, Eq, Structural)]
pub enum InstrumentSource {
    Deribit,
    Hyperliquid,
    Mock,
    Unknown,
}

/// The source of a name in lower case.
pub open spec fn source_named(name: Seq<char>) -> InstrumentSource {
    if name == "deribit"@ {
        InstrumentSource::Deribit
    } else if name == "hyperliquid"@ {
        InstrumentSource::Hyperliquid
    } else if name == "mock"@ {
        InstrumentSource::Mock
    } else {
        InstrumentSource::Unknown
    }
}

/// The source of a name in lower case.
pub fn source_of(name: &String) -> (r: InstrumentSource)
    ensures
        r == source_named(name@),
{
    if *name == "deribit".to_string() {
        InstrumentSource::Deribit
    } else if *name == "hyperliquid".to_string() {
        InstrumentSource::Hyperliquid
    } else if *name == "mock".to_string() {
        InstrumentSource::Mock
    } else {
        InstrumentSource::Unknown
    }
}

/// The source that a request names, in whatever case, and its name in lower
/// case.
pub fn requested_source(exchange: &str) -> (r: (InstrumentSource, String))
    ensures
        r.1@ == lowercase(exchange@),
        r.0 == source_named(lowercase(exchange@)),
{
    let name: String = lowered(exchange);
    (source_of(&name), name)
}

/// The answer to a request that names no source.
pub fn unknown_source_message(name: &String) -> (r: String)
    ensures
        r@ == "unknown exchange: "@ + name@,
{
    let mut out: String = "unknown exchange: ".to_string();
    out.append(name.as_str());
    out
}

/// The instruments of the paper exchange.
pub fn mock_symbols() -> (r: Vec<String>)
    ensures
        texts(r@) == seq!["BTC-MOCK"@, "ETH-MOCK"@, "SOL-MOCK"@],
{
    let mut out: Vec<String> = Vec::new();
    out.push("BTC-MOCK".to_string());
    out.push("ETH-MOCK".to_string());
    out.push("SOL-MOCK".to_string());
    assert(texts(out@) =~= seq!["BTC-MOCK"@, "ETH-MOCK"@, "SOL-MOCK"@]);
    out
}

/// The currencies that Deribit is asked for.
pub fn deribit_currencies() -> (r: Vec<String>)
    ensures
        texts(r@) == seq!["BTC"@, "ETH"@, "SOL"@, "MATIC"@, "XRP"@, "USDC"@],
{
    let mut out: Vec<String> = Vec::new();
    out.push("BTC".to_string());
    out.push("ETH".to_string());
    out.push("SOL".to_string());
    out.push("MATIC".to_string());
    out.push("XRP".to_string());
    out.push("USDC".to_string());
    assert(texts(out@) =~= seq!["BTC"@, "ETH"@, "SOL"@, "MATIC"@, "XRP"@, "USDC"@]);
    out
}

/// The address that lists a currency's futures.
pub fn deribit_listing_url(testnet: bool, currency: &str) -> (r: String)
    ensures
        r@ == (if testnet {
            "https://test.deribit.com/api/v2"@
        } else {
            "https://www.deribit.com/api/v2"@
        }) + "/public/get_instruments?currency="@ + currency@ + "&kind=future&expired=false"@,
{
    let mut out: String = base_url(!testnet);
    out.append("/public/get_instruments?currency=");
    out.append(currency);
    out.append("&kind=future&expired=false");
    out
}

/// A perpetual with a name.
pub open spec fn is_perp(l: Listing) -> bool {
    (l.settlement_period matches Some(s) && s@ == "perpetual"@) && l.instrument_name is Some
}

/// The names of the perpetuals of a list.
pub open spec fn perp_names(listings: Seq<Listing>) -> Seq<Seq<char>>
    decreases listings.len(),
{
    if listings.len() == 0 {
        Seq::empty()
    } else {
        let before = perp_names(listings.drop_last());
        let l = listings.last();
        if is_perp(l) {
            before.push((l.instrument_name->0)@)
        } else {
            before
        }
    }
}

/// Adds the names of the perpetuals among listed instruments.
pub fn collect_perps(names: &mut Vec<String>, listings: &Vec<Listing>)
    ensures
        texts(final(names)@) == texts(old(names)@) + perp_names(listings@),
{
    let mut n: usize = 0;
    assert(listings@.take(0) =~= Seq::empty());
    assert(texts(names@) + Seq::<Seq<char>>::empty() =~= texts(names@));
    while n < listings.len()
        invariant
            n <= listings@.len(),
            texts(names@) == texts(old(names)@) + perp_names(listings@.take(n as int)),
        decreases listings@.len() - n,
    {
        let l: &Listing = &listings[n];
        proof {
            assert(listings@.take(n + 1).drop_last() =~= listings@.take(n as int));
            assert(listings@.take(n + 1).last() == *l);
        }
        let perpetual: bool = match &l.settlement_period {
            Some(s) => *s == "perpetual".to_string(),
            None => false,
        };
        if perpetual {
            if let Some(name) = &l.instrument_name {
                let ghost before = names@;
                names.push(name.clone());
                assert(texts(names@) =~= texts(before).push(name@));
                assert(texts(names@) =~= texts(old(names)@) + perp_names(
                    listings@.take(n as int),
                ).push(name@));
            }
        }
        n += 1;
    }
    assert(listings@.take(listings@.len() as int) =~= listings@);
}

/// Deribit's perpetuals as they are shown: in order, each once.
pub fn fetch_deribit_perps(names: &Vec<String>) -> (r: Vec<String>)
    ensures
        ascending(texts(r@)),
        forall|t: Seq<char>| #[trigger] texts(r@).contains(t) <==> texts(names@).contains(t),
{
    sorted_set(names)
}

/// Hyperliquid's perpetuals as they are shown: in order.
pub fn fetch_hyperliquid_perps(names: &Vec<String>) -> (r: Vec<String>)
    ensures
        in_order(texts(r@)),
        texts(r@).to_multiset() == texts(names@).to_multiset(),
{
    sorted_list(names)
}

} // verus!
