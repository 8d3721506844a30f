use trade_ledger::decimal::{push_decimal, push_padded};
use trade_ledger::text::{chars_of, split_pair, text_is};

#[test]
fn chars_of_lists_the_characters() {
    assert_eq!(chars_of("BTC-ETH"), vec!['B', 'T', 'C', '-', 'E', 'T', 'H']);
    assert_eq!(chars_of(""), Vec::<char>::new());
    assert_eq!(chars_of("a\u{e9}\u{1f600}z"), vec!['a', '\u{e9}', '\u{1f600}', 'z']);
}

#[test]
fn text_is_compares_whole_texts() {
    assert!(text_is(&"Trade".to_string(), "Trade"));
    assert!(!text_is(&"Trade".to_string(), "trade"));
    assert!(!text_is(&"Trade ".to_string(), "Trade"));
    assert!(!text_is(&"".to_string(), "Trade"));
    assert!(text_is(&"".to_string(), ""));
}

fn pair(left: &str, right: &str) -> Option<(String, String)> {
    Some((left.to_string(), right.to_string()))
}

#[test]
fn split_pair_splits_at_the_one_dash() {
    assert_eq!(split_pair("BTC-ETH"), pair("BTC", "ETH"));
    assert_eq!(split_pair("USDT-BTC"), pair("USDT", "BTC"));
    assert_eq!(split_pair("-ETH"), pair("", "ETH"));
    assert_eq!(split_pair("BTC-"), pair("BTC", ""));
    assert_eq!(split_pair("-"), pair("", ""));
    assert_eq!(split_pair("\u{20bf}TC-\u{39e}TH"), pair("\u{20bf}TC", "\u{39e}TH"));
}

#[test]
fn split_pair_refuses_none_or_several_dashes() {
    assert_eq!(split_pair("BTCETH"), None);
    assert_eq!(split_pair(""), None);
    assert_eq!(split_pair("BTC-ETH-LTC"), None);
    assert_eq!(split_pair("--"), None);
    assert_eq!(split_pair("BTC--ETH"), None);
    assert_eq!(split_pair("BTC\u{2013}ETH"), None);
}

fn decimal(n: u64) -> String {
    let mut out = String::from("n=");
    push_decimal(&mut out, n);
    out
}

fn padded(n: u64, width: usize) -> String {
    let mut out = String::from("n=");
    push_padded(&mut out, n, width);
    out
}

#[test]
fn push_decimal_appends_the_digits() {
    assert_eq!(decimal(0), "n=0");
    assert_eq!(decimal(7), "n=7");
    assert_eq!(decimal(10), "n=10");
    assert_eq!(decimal(42), "n=42");
    assert_eq!(decimal(4_294_967_295), "n=4294967295");
    assert_eq!(decimal(u64::MAX), "n=18446744073709551615");
}

#[test]
fn push_padded_appends_the_last_digits_with_zeros_in_front() {
    assert_eq!(padded(0, 8), "n=00000000");
    assert_eq!(padded(100_000, 8), "n=00100000");
    assert_eq!(padded(99_999_999, 8), "n=99999999");
    assert_eq!(padded(123_456_789, 8), "n=23456789");
    assert_eq!(padded(5, 1), "n=5");
    assert_eq!(padded(5, 0), "n=");
    assert_eq!(padded(5, 3), "n=005");
}
