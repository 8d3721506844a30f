use trade_ledger::amount::Amount;
use trade_ledger::coin_gecko::{PriceHist, PriceHists, Row};
use trade_ledger::error::Error;
use trade_ledger::moment::Date;

fn units(v: i64) -> Amount {
    Amount { units: v }
}

fn snapshot(at: &str, price: &str) -> Row {
    Row {
        snapped_at: at.to_string(),
        price: price.to_string(),
        market_cap: String::new(),
        total_volume: String::new(),
    }
}

fn day(days: i32) -> Date {
    Date { days }
}

#[test]
fn date_of_reads_the_first_ten_characters() {
    assert_eq!(PriceHist::date_of(&snapshot("2017-12-14 00:00:00 UTC", "")), Some(day(736677)));
    assert_eq!(PriceHist::date_of(&snapshot("2017-12-14", "")), Some(day(736677)));
    assert_eq!(PriceHist::date_of(&snapshot("2018-01-05T10:00:00Z", "")), Some(day(736699)));
    assert_eq!(PriceHist::date_of(&snapshot("0001-01-01", "")), Some(day(1)));
}

#[test]
fn date_of_refuses_short_or_malformed_text() {
    assert_eq!(PriceHist::date_of(&snapshot("2017-12-1", "")), None);
    assert_eq!(PriceHist::date_of(&snapshot("", "")), None);
    assert_eq!(PriceHist::date_of(&snapshot("14/12/2017 00:00", "")), None);
    assert_eq!(PriceHist::date_of(&snapshot("2017-13-01 00:00:00", "")), None);
    assert_eq!(PriceHist::date_of(&snapshot("2017-02-30 00:00:00", "")), None);
    assert_eq!(PriceHist::date_of(&snapshot("\u{e9}\u{e9}\u{e9}\u{e9}-12-14 00", "")), None);
}

#[test]
fn from_file_builds_the_table() {
    let rows = vec![
        snapshot("2017-12-14 00:00:00 UTC", "20000.5"),
        snapshot("2017-12-15 00:00:00 UTC", ""),
        snapshot("2018-01-05 00:00:00 UTC", "19000"),
    ];
    let hist = PriceHist::from_file(&rows).unwrap();
    assert_eq!(hist.data.len(), 3);
    assert_eq!(hist.lookup(&day(736677)), Some(units(2_000_050_000_000)));
    assert_eq!(hist.lookup(&day(736678)), None);
    assert_eq!(hist.lookup(&day(736699)), Some(units(1_900_000_000_000)));
}

#[test]
fn lookup_matches_the_exact_day_only() {
    let rows = vec![snapshot("2017-12-14 00:00:00 UTC", "0.00000005")];
    let hist = PriceHist::from_file(&rows).unwrap();
    assert_eq!(hist.lookup(&day(736676)), None);
    assert_eq!(hist.lookup(&day(736677)), Some(units(5)));
    assert_eq!(hist.lookup(&day(736678)), None);
}

#[test]
fn a_zero_price_is_not_an_unknown_price() {
    let rows = vec![snapshot("2017-12-14", "0"), snapshot("2017-12-15", "")];
    let hist = PriceHist::from_file(&rows).unwrap();
    assert_eq!(hist.lookup(&day(736677)), Some(units(0)));
    assert_eq!(hist.lookup(&day(736678)), None);
}

#[test]
fn a_later_row_of_the_same_day_replaces_the_earlier() {
    let rows = vec![
        snapshot("2017-12-14 00:00:00 UTC", "0.00000001"),
        snapshot("2017-12-14 12:00:00 UTC", "0.00000002"),
    ];
    let hist = PriceHist::from_file(&rows).unwrap();
    assert_eq!(hist.data.len(), 1);
    assert_eq!(hist.lookup(&day(736677)), Some(units(2)));
}

#[test]
fn a_price_that_is_no_number_is_unknown() {
    let rows = vec![
        snapshot("2017-12-14", "n/a"),
        snapshot("2017-12-15", ""),
        snapshot("2017-12-16", "1e3"),
        snapshot("2017-12-17", "12.5"),
    ];
    let hist = PriceHist::from_file(&rows).unwrap();
    assert_eq!(hist.data.len(), 4);
    assert_eq!(hist.lookup(&day(736677)), None);
    assert_eq!(hist.lookup(&day(736678)), None);
    assert_eq!(hist.lookup(&day(736679)), None);
    assert_eq!(hist.lookup(&day(736680)), Some(units(1_250_000_000)));
}

#[test]
fn from_file_fails_on_a_malformed_date() {
    let rows = vec![
        snapshot("2017-12-14 00:00:00 UTC", "1"),
        snapshot("not a date at all", "2"),
        snapshot("2017-12-16 00:00:00 UTC", "3"),
    ];
    assert!(matches!(PriceHist::from_file(&rows), Err(Error::BadDate)));
}

#[test]
fn from_file_of_nothing_is_empty() {
    let hist = PriceHist::from_file(&Vec::new()).unwrap();
    assert!(hist.data.is_empty());
    assert!(PriceHist::default().data.is_empty());
}

fn table() -> PriceHists {
    let mut hists = PriceHists::default();
    let btc = PriceHist::from_file(&vec![
        snapshot("2017-12-14", "20000.5"),
        snapshot("2017-12-15", ""),
    ])
    .unwrap();
    let eth = PriceHist::from_file(&vec![snapshot("2017-12-16", "900")]).unwrap();
    hists.insert("BTC".to_string(), btc);
    hists.insert("ETH".to_string(), eth);
    hists
}

#[test]
fn convert_multiplies_price_and_amount() {
    let hists = table();
    // 0.05 BTC at 20000.5 AUD
    assert_eq!(
        hists.convert("BTC", units(5_000_000), &day(736677)),
        Ok(Some(units(100_002_500_000)))
    );
    // 2 ETH at 900 AUD
    assert_eq!(
        hists.convert("ETH", units(200_000_000), &day(736679)),
        Ok(Some(units(180_000_000_000)))
    );
}

#[test]
fn convert_is_unknown_without_a_price() {
    let hists = table();
    assert_eq!(hists.convert("BTC", units(5_000_000), &day(736678)), Ok(None));
    assert_eq!(hists.convert("BTC", units(5_000_000), &day(736676)), Ok(None));
    assert_eq!(hists.convert("ETH", units(5_000_000), &day(736677)), Ok(None));
    assert_eq!(hists.convert("LTC", units(5_000_000), &day(736677)), Ok(None));
    assert_eq!(hists.convert("btc", units(5_000_000), &day(736677)), Ok(None));
    assert_eq!(PriceHists::default().convert("BTC", units(1), &day(736677)), Ok(None));
}

#[test]
fn convert_reports_a_value_too_large() {
    let hists = table();
    assert_eq!(hists.convert("BTC", units(i64::MAX), &day(736677)), Err(Error::AmountOverflow));
}

#[test]
fn price_finds_the_entry_made_last() {
    let mut hists = table();
    assert_eq!(hists.price("BTC", &day(736677)), Some(units(2_000_050_000_000)));
    let newer = PriceHist::from_file(&vec![snapshot("2017-12-14", "0.00000007")]).unwrap();
    hists.insert("BTC".to_string(), newer);
    assert_eq!(hists.price("BTC", &day(736677)), Some(units(7)));
    assert_eq!(hists.price("ETH", &day(736679)), Some(units(90_000_000_000)));
}
