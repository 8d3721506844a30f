use trade_ledger::amount::Amount;
use trade_ledger::bittrex::{load_csv, Reconciled, Row, Warning};
use trade_ledger::coin_gecko::{PriceHist, PriceHists};
use trade_ledger::error::Error;
use trade_ledger::moment::Timestamp;
use trade_ledger::trade::{Trade, TradeType};

fn units(v: i64) -> Amount {
    Amount { units: v }
}

fn snapshot(at: &str, price: &str) -> trade_ledger::coin_gecko::Row {
    trade_ledger::coin_gecko::Row {
        snapped_at: at.to_string(),
        price: price.to_string(),
        market_cap: String::new(),
        total_volume: String::new(),
    }
}

fn order(market: &str, typ: &str, quantity: i64, price: i64, closed: &str) -> Row {
    Row {
        order_uuid: "0d9c-11".to_string(),
        exchange: market.to_string(),
        typ: typ.to_string(),
        quantity: units(quantity),
        limit: units(2_500_000),
        commission_paid: units(12_500),
        price: units(price),
        opened: "12/14/17 7:30".to_string(),
        closed: closed.to_string(),
    }
}

fn cell(price: Option<i64>) -> String {
    price.map(|v| units(v).to_text()).unwrap_or_default()
}

fn prices(btc: Option<i64>, eth: Option<i64>) -> PriceHists {
    let mut hists = PriceHists::default();
    hists.insert(
        "BTC".to_string(),
        PriceHist::from_file(&vec![snapshot("2017-12-14 00:00:00 UTC", &cell(btc))]).unwrap(),
    );
    hists.insert(
        "ETH".to_string(),
        PriceHist::from_file(&vec![snapshot("2017-12-14 00:00:00 UTC", &cell(eth))]).unwrap(),
    );
    hists
}

fn moment() -> Timestamp {
    Timestamp { days: 736677, secs: 27_060, nanos: 0 }
}

fn leg(direction: TradeType, currency: &str, amount: i64, value: i64) -> Trade {
    Trade {
        datetime: moment(),
        buy_or_sell: direction,
        crypto_currency: currency.to_string(),
        crypto_amount: units(amount),
        aud_equivalent: units(value),
        source: "Bittrex".to_string(),
        info: String::new(),
    }
}

#[test]
fn closed_at_reads_the_compact_form() {
    let row = order("BTC-ETH", "LIMIT_BUY", 1, 1, "12/14/17 7:31");
    assert_eq!(row.closed_at(), Some(moment()));
    let row = order("BTC-ETH", "LIMIT_BUY", 1, 1, "1/5/18 23:59");
    assert_eq!(row.closed_at(), Some(Timestamp { days: 736699, secs: 86_340, nanos: 0 }));
}

#[test]
fn closed_at_reads_the_verbose_form() {
    let row = order("BTC-ETH", "LIMIT_BUY", 1, 1, "12/14/2017 7:31:43 AM");
    assert_eq!(row.closed_at(), Some(Timestamp { days: 736677, secs: 27_103, nanos: 0 }));
    let row = order("BTC-ETH", "LIMIT_BUY", 1, 1, "12/14/2017 19:31:43 PM");
    assert_eq!(row.closed_at(), Some(Timestamp { days: 736677, secs: 70_303, nanos: 0 }));
}

#[test]
fn closed_at_fails_when_neither_form_fits() {
    assert_eq!(order("BTC-ETH", "LIMIT_BUY", 1, 1, "2017-12-14T07:31:00Z").closed_at(), None);
    assert_eq!(order("BTC-ETH", "LIMIT_BUY", 1, 1, "").closed_at(), None);
    assert_eq!(order("BTC-ETH", "LIMIT_BUY", 1, 1, "13/14/17 7:31").closed_at(), None);
    assert_eq!(order("BTC-ETH", "LIMIT_BUY", 1, 1, "12/14/17 7:31 trailing").closed_at(), None);
}

#[test]
fn limit_buy_sells_the_first_currency_and_buys_the_second() {
    // quantity 2.0, price 0.05, BTC at 20000.5 AUD
    let row = order("BTC-ETH", "LIMIT_BUY", 200_000_000, 5_000_000, "12/14/17 7:31");
    let outcome = row.into_trades(&prices(Some(2_000_050_000_000), None));
    assert_eq!(
        outcome,
        Ok(Reconciled::Legs(
            leg(TradeType::Sell, "BTC", 5_000_000, 100_002_500_000),
            leg(TradeType::Buy, "ETH", 200_000_000, 100_002_500_000),
        ))
    );
}

#[test]
fn limit_sell_sells_the_second_currency_and_buys_the_first() {
    let row = order("BTC-ETH", "LIMIT_SELL", 200_000_000, 5_000_000, "12/14/17 7:31");
    // ETH at 900 AUD: 2 ETH are worth 1800 AUD
    let outcome = row.into_trades(&prices(Some(2_000_050_000_000), Some(90_000_000_000)));
    assert_eq!(
        outcome,
        Ok(Reconciled::Legs(
            leg(TradeType::Sell, "ETH", 200_000_000, 180_000_000_000),
            leg(TradeType::Buy, "BTC", 5_000_000, 180_000_000_000),
        ))
    );
}

#[test]
fn the_buy_leg_values_the_order_where_the_sell_leg_has_no_price() {
    let row = order("BTC-ETH", "LIMIT_BUY", 200_000_000, 5_000_000, "12/14/17 7:31");
    let outcome = row.into_trades(&prices(None, Some(90_000_000_000)));
    assert_eq!(
        outcome,
        Ok(Reconciled::Legs(
            leg(TradeType::Sell, "BTC", 5_000_000, 180_000_000_000),
            leg(TradeType::Buy, "ETH", 200_000_000, 180_000_000_000),
        ))
    );
}

#[test]
fn an_order_without_any_price_is_left_out() {
    let row = order("BTC-ETH", "LIMIT_BUY", 200_000_000, 5_000_000, "12/14/17 7:31");
    let outcome = row.into_trades(&prices(None, None));
    assert_eq!(
        outcome,
        Ok(Reconciled::Unvalued {
            sell_currency: "BTC".to_string(),
            buy_currency: "ETH".to_string(),
        })
    );
    let row = order("BTC-ETH", "LIMIT_SELL", 200_000_000, 5_000_000, "12/14/17 7:31");
    assert_eq!(
        row.into_trades(&PriceHists::default()),
        Ok(Reconciled::Unvalued {
            sell_currency: "ETH".to_string(),
            buy_currency: "BTC".to_string(),
        })
    );
}

#[test]
fn a_price_of_another_day_does_not_count() {
    let row = order("BTC-ETH", "LIMIT_BUY", 200_000_000, 5_000_000, "12/15/17 7:31");
    let outcome = row.into_trades(&prices(Some(2_000_050_000_000), Some(90_000_000_000)));
    assert!(matches!(outcome, Ok(Reconciled::Unvalued { .. })));
}

#[test]
fn into_trades_fails_on_an_unreadable_time() {
    let row = order("BTC-ETH", "LIMIT_BUY", 1, 1, "yesterday");
    assert_eq!(row.into_trades(&prices(Some(1), Some(1))), Err(Error::BadTimestamp));
}

#[test]
fn into_trades_fails_on_a_market_that_is_no_pair() {
    for market in ["BTCETH", "BTC-ETH-LTC", "", "--"] {
        let row = order(market, "LIMIT_BUY", 1, 1, "12/14/17 7:31");
        assert_eq!(row.into_trades(&prices(Some(1), Some(1))), Err(Error::BadPair));
    }
}

#[test]
fn into_trades_fails_on_an_unknown_order_type() {
    for typ in ["MARKET_BUY", "limit_buy", "", "LIMIT_BUY "] {
        let row = order("BTC-ETH", typ, 1, 1, "12/14/17 7:31");
        assert_eq!(row.into_trades(&prices(Some(1), Some(1))), Err(Error::UnknownOrderType));
    }
}

#[test]
fn the_time_is_read_before_the_market_and_the_market_before_the_type() {
    let row = order("BTCETH", "MARKET_BUY", 1, 1, "yesterday");
    assert_eq!(row.into_trades(&PriceHists::default()), Err(Error::BadTimestamp));
    let row = order("BTCETH", "MARKET_BUY", 1, 1, "12/14/17 7:31");
    assert_eq!(row.into_trades(&PriceHists::default()), Err(Error::BadPair));
}

#[test]
fn into_trades_reports_a_value_too_large() {
    let row = order("BTC-ETH", "LIMIT_BUY", 200_000_000, i64::MAX, "12/14/17 7:31");
    assert_eq!(
        row.into_trades(&prices(Some(2_000_050_000_000), None)),
        Err(Error::AmountOverflow)
    );
}

#[test]
fn trades_at_uses_the_moment_it_is_given() {
    let row = order("BTC-ETH", "LIMIT_BUY", 200_000_000, 5_000_000, "no time here");
    let when = Timestamp { days: 736677, secs: 5, nanos: 9 };
    match row.trades_at(when, &prices(Some(2_000_050_000_000), None)) {
        Ok(Reconciled::Legs(sell, buy)) => {
            assert_eq!(sell.datetime, when);
            assert_eq!(buy.datetime, when);
            assert_eq!(sell.aud_equivalent, units(100_002_500_000));
            assert_eq!(buy.aud_equivalent, sell.aud_equivalent);
        }
        other => panic!("unexpected outcome {:?}", other),
    }
}

#[test]
fn load_csv_keeps_the_order_of_the_file() {
    let rows = vec![
        order("BTC-ETH", "LIMIT_BUY", 200_000_000, 5_000_000, "12/14/17 7:31"),
        order("BTC-LTC", "LIMIT_BUY", 300_000_000, 5_000_000, "12/15/17 7:31"),
        order("BTC-ETH", "LIMIT_SELL", 100_000_000, 2_500_000, "12/14/17 7:31"),
    ];
    let loaded = load_csv(&rows, &prices(Some(2_000_050_000_000), None)).unwrap();
    assert_eq!(
        loaded.trades,
        vec![
            leg(TradeType::Sell, "BTC", 5_000_000, 100_002_500_000),
            leg(TradeType::Buy, "ETH", 200_000_000, 100_002_500_000),
            leg(TradeType::Sell, "ETH", 100_000_000, 50_001_250_000),
            leg(TradeType::Buy, "BTC", 2_500_000, 50_001_250_000),
        ]
    );
    assert_eq!(
        loaded.warnings,
        vec![Warning { sell_currency: "BTC".to_string(), buy_currency: "LTC".to_string() }]
    );
}

#[test]
fn load_csv_of_nothing_is_empty() {
    let loaded = load_csv(&Vec::new(), &PriceHists::default()).unwrap();
    assert!(loaded.trades.is_empty());
    assert!(loaded.warnings.is_empty());
}

#[test]
fn load_csv_stops_at_the_first_order_refused() {
    let rows = vec![
        order("BTC-ETH", "LIMIT_BUY", 200_000_000, 5_000_000, "12/14/17 7:31"),
        order("BTC-ETH", "STOP", 200_000_000, 5_000_000, "12/14/17 7:31"),
        order("BTCETH", "LIMIT_BUY", 200_000_000, 5_000_000, "12/14/17 7:31"),
    ];
    assert_eq!(load_csv(&rows, &prices(Some(1), Some(1))), Err(Error::UnknownOrderType));
}
