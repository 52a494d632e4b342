use basket_grid_engine::names::{holds, sorted_list, sorted_set};
use basket_grid_engine::text::{
    chars_of, eq_ignore_case, push_amount, push_number, rank, text_of, trim, upper_begins_with,
    upper_of, white, Rank,
};

fn amount(x: i64, places: u32) -> String {
    let mut s = String::new();
    push_amount(&mut s, x, places);
    s
}

fn names(list: &[&str]) -> Vec<String> {
    list.iter().map(|s| s.to_string()).collect()
}

#[test]
fn numbers_in_digits() {
    let mut s = String::from("n=");
    push_number(&mut s, 0);
    push_number(&mut s, 907);
    assert_eq!(s, "n=0907");
    let mut big = String::new();
    push_number(&mut big, u64::MAX);
    assert_eq!(big, "18446744073709551615");
}

#[test]
fn amounts_with_decimals() {
    assert_eq!(amount(123_456_000_000, 2), "1234.56");
    assert_eq!(amount(-50_000_000, 4), "-0.5000");
    assert_eq!(amount(100_500_000, 2), "1.01");
    assert_eq!(amount(99_999_999, 2), "1.00");
    assert_eq!(amount(7, 8), "0.00000007");
    assert_eq!(amount(250_000_000, 0), "3");
    assert_eq!(amount(i64::MIN, 2), "-92233720368.55");
}

#[test]
fn white_space_is_trimmed() {
    assert_eq!(trim("  a b \t\n"), "a b");
    assert_eq!(trim("\u{3000}x\u{a0}"), "x");
    assert_eq!(trim(" \n "), "");
    assert_eq!(trim(""), "");
    for n in 0u32..0x11_0000 {
        if let Some(c) = char::from_u32(n) {
            assert_eq!(white(c), c.is_whitespace());
        }
    }
}

#[test]
fn case_of_ascii_letters() {
    assert!(eq_ignore_case("TrUe", "true"));
    assert!(!eq_ignore_case("true ", "true"));
    assert!(!eq_ignore_case("ÄB", "äb"));
    assert!(upper_begins_with("btc-perpetual", "BTC-"));
    assert!(!upper_begins_with("bt", "BTC-"));
    assert!(!upper_begins_with("eth-perpetual", "BTC-"));
    assert_eq!(upper_of('z'), 'Z');
    assert_eq!(upper_of('ä'), 'ä');
}

#[test]
fn texts_rank_like_strings() {
    let samples = ["", "a", "ab", "b", "B", "é", "zz", "\u{10000}", "\u{ffff}"];
    for a in samples {
        for b in samples {
            let want = if a < b {
                Rank::Before
            } else if a == b {
                Rank::Same
            } else {
                Rank::After
            };
            assert_eq!(rank(a, b), want);
        }
    }
}

#[test]
fn characters_and_back() {
    let c = chars_of("aé\u{1F600}");
    assert_eq!(c, vec!['a', 'é', '\u{1F600}']);
    assert_eq!(text_of(&c), "aé\u{1F600}");
}

#[test]
fn names_are_sorted() {
    let list = names(&["ETH", "BTC", "SOL", "BTC"]);
    assert_eq!(sorted_set(&list), names(&["BTC", "ETH", "SOL"]));
    assert_eq!(sorted_list(&list), names(&["BTC", "BTC", "ETH", "SOL"]));
    assert!(holds(&list, "SOL"));
    assert!(!holds(&list, "SO"));
    assert!(sorted_set(&Vec::new()).is_empty());
}
