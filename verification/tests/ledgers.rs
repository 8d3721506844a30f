use trade_ledger::amount::Amount;
use trade_ledger::bittrex::Warning;
use trade_ledger::coin_gecko::{PriceHist, PriceHists};
use trade_ledger::error::Error;
use trade_ledger::ledger::{finish, merge, reconcile, sort_by_time};
use trade_ledger::moment::Timestamp;
use trade_ledger::trade::{Trade, TradeType};

fn units(v: i64) -> Amount {
    Amount { units: v }
}

fn at(days: i32, secs: u32, nanos: u32) -> Timestamp {
    Timestamp { days, secs, nanos }
}

fn trade(when: Timestamp, info: &str) -> Trade {
    Trade {
        datetime: when,
        buy_or_sell: TradeType::Buy,
        crypto_currency: "BTC".to_string(),
        crypto_amount: units(1),
        aud_equivalent: units(2),
        source: "Bittrex".to_string(),
        info: info.to_string(),
    }
}

fn infos(trades: &[Trade]) -> Vec<String> {
    trades.iter().map(|t| t.info.clone()).collect()
}

fn activity(action: &str, currency: &str, amount: i64, reference_id: u32, time: &str) -> trade_ledger::btc_markets::Row {
    trade_ledger::btc_markets::Row {
        creation_time: time.to_string(),
        record_type: "Trade".to_string(),
        action: action.to_string(),
        currency: currency.to_string(),
        amount: units(amount),
        description: "Fully matched".to_string(),
        reference_id,
    }
}

fn order(typ: &str, quantity: i64, price: i64, closed: &str) -> trade_ledger::bittrex::Row {
    trade_ledger::bittrex::Row {
        order_uuid: String::new(),
        exchange: "BTC-ETH".to_string(),
        typ: typ.to_string(),
        quantity: units(quantity),
        limit: units(0),
        commission_paid: units(0),
        price: units(price),
        opened: String::new(),
        closed: closed.to_string(),
    }
}

fn prices() -> PriceHists {
    let mut hists = PriceHists::default();
    let rows = vec![trade_ledger::coin_gecko::Row {
        snapped_at: "2017-12-14 00:00:00 UTC".to_string(),
        price: "20000.5".to_string(),
        market_cap: String::new(),
        total_volume: String::new(),
    }];
    hists.insert("BTC".to_string(), PriceHist::from_file(&rows).unwrap());
    hists
}

#[test]
fn timestamps_compare_by_day_then_second_then_nanosecond() {
    assert!(at(1, 0, 0).at_or_before(at(1, 0, 0)));
    assert!(at(1, 0, 0).at_or_before(at(1, 0, 1)));
    assert!(!at(1, 0, 1).at_or_before(at(1, 0, 0)));
    assert!(at(1, 5, 999).at_or_before(at(1, 6, 0)));
    assert!(!at(1, 6, 0).at_or_before(at(1, 5, 999)));
    assert!(at(1, 86_399, 999).at_or_before(at(2, 0, 0)));
    assert!(!at(2, 0, 0).at_or_before(at(1, 86_399, 999)));
    assert!(at(-5, 7, 7).at_or_before(at(0, 0, 0)));
    assert!(at(i32::MIN, u32::MAX, u32::MAX).at_or_before(at(i32::MIN + 1, 0, 0)));
    assert_eq!(at(7, 8, 9).date().days, 7);
}

#[test]
fn sort_by_time_orders_the_trades() {
    let trades = vec![
        trade(at(3, 0, 0), "c"),
        trade(at(1, 50, 0), "b"),
        trade(at(1, 2, 0), "a"),
        trade(at(4, 0, 1), "e"),
        trade(at(4, 0, 0), "d"),
    ];
    let sorted = sort_by_time(trades);
    assert_eq!(infos(&sorted), vec!["a", "b", "c", "d", "e"]);
    for pair in sorted.windows(2) {
        assert!(pair[0].datetime.at_or_before(pair[1].datetime));
    }
}

#[test]
fn sort_by_time_keeps_the_order_of_trades_of_one_moment() {
    let trades = vec![
        trade(at(2, 0, 0), "first of two"),
        trade(at(1, 0, 0), "first of one"),
        trade(at(2, 0, 0), "second of two"),
        trade(at(1, 0, 0), "second of one"),
        trade(at(2, 0, 0), "third of two"),
    ];
    assert_eq!(
        infos(&sort_by_time(trades)),
        vec!["first of one", "second of one", "first of two", "second of two", "third of two"]
    );
}

#[test]
fn sorting_twice_is_sorting_once() {
    let trades = vec![trade(at(3, 0, 0), "c"), trade(at(1, 0, 0), "a"), trade(at(3, 0, 0), "d")];
    let once = sort_by_time(trades);
    let twice = sort_by_time(once.clone());
    assert_eq!(once, twice);
    assert_eq!(sort_by_time(Vec::new()), Vec::new());
}

#[test]
fn merge_joins_and_orders_without_dropping_duplicates() {
    let first = vec![trade(at(5, 0, 0), "x"), trade(at(1, 0, 0), "same")];
    let second = vec![trade(at(1, 0, 0), "same"), trade(at(0, 0, 0), "y")];
    let merged = merge(first, second);
    assert_eq!(infos(&merged), vec!["y", "same", "same", "x"]);
    assert_eq!(merge(Vec::new(), Vec::new()), Vec::new());
}

#[test]
fn merge_puts_the_first_list_first_among_trades_of_one_moment() {
    let first = vec![trade(at(1, 0, 0), "first")];
    let second = vec![trade(at(1, 0, 0), "second")];
    assert_eq!(infos(&merge(first, second)), vec!["first", "second"]);
}

#[test]
fn finish_turns_every_pending_trade_into_a_trade() {
    let rows = vec![
        activity("Buy Order", "BTC", 100_000_000, 42, "2017-07-03T08:14:33Z"),
        activity("Buy Order", "AUD", -10_000_000_000, 42, "2017-07-03T08:14:33Z"),
        activity("Sell Order", "ETH", -5, 43, "2017-12-14T00:00:00Z"),
        activity("Sell Order", "AUD", 7, 43, "2017-12-14T00:00:00Z"),
    ];
    let pending = trade_ledger::btc_markets::load_csv(&rows).unwrap();
    let trades = finish(pending).unwrap();
    assert_eq!(trades.len(), 2);
    assert_eq!(trades[0].buy_or_sell, TradeType::Buy);
    assert_eq!(trades[0].info, "42: Fully matched");
    assert_eq!(trades[1].buy_or_sell, TradeType::Sell);
    assert_eq!(trades[1].datetime, at(736677, 0, 0));
    assert_eq!(finish(Vec::new()), Ok(Vec::new()));
}

#[test]
fn finish_fails_on_an_unreadable_creation_time() {
    let rows = vec![
        activity("Buy Order", "BTC", 1, 42, "2017-07-03T08:14:33Z"),
        activity("Buy Order", "BTC", 1, 43, "last week"),
    ];
    let pending = trade_ledger::btc_markets::load_csv(&rows).unwrap();
    assert_eq!(finish(pending), Err(Error::BadTimestamp));
}

fn inputs() -> (Vec<trade_ledger::btc_markets::Row>, Vec<trade_ledger::bittrex::Row>) {
    let activity_rows = vec![
        activity("Buy Order", "BTC", 100_000_000, 42, "2017-12-14T07:31:00Z"),
        activity("Buy Order", "AUD", -10_000_000_000, 42, "2017-12-14T07:31:00Z"),
        activity("Trading Fee", "BTC", -100_000, 42, "2017-12-14T07:31:00Z"),
        activity("Sell Order", "ETH", -5, 43, "2018-01-05T00:00:00Z"),
        activity("Sell Order", "AUD", 7, 43, "2018-01-05T00:00:00Z"),
    ];
    let orders = vec![
        order("LIMIT_BUY", 200_000_000, 5_000_000, "12/14/17 7:31"),
        order("LIMIT_SELL", 200_000_000, 5_000_000, "12/13/17 7:31"),
        order("LIMIT_BUY", 200_000_000, 5_000_000, "12/14/17 7:30"),
    ];
    (activity_rows, orders)
}

#[test]
fn reconcile_builds_the_sorted_ledger() {
    let (activity_rows, orders) = inputs();
    let ledger = reconcile(&activity_rows, &orders, &prices()).unwrap();
    let summary: Vec<(String, TradeType, String)> = ledger
        .trades
        .iter()
        .map(|t| (t.source.clone(), t.buy_or_sell, t.crypto_currency.clone()))
        .collect();
    assert_eq!(
        summary,
        vec![
            ("Bittrex".to_string(), TradeType::Sell, "BTC".to_string()),
            ("Bittrex".to_string(), TradeType::Buy, "ETH".to_string()),
            ("BTC Markets".to_string(), TradeType::Buy, "BTC".to_string()),
            ("Bittrex".to_string(), TradeType::Sell, "BTC".to_string()),
            ("Bittrex".to_string(), TradeType::Buy, "ETH".to_string()),
            ("BTC Markets".to_string(), TradeType::Sell, "ETH".to_string()),
        ]
    );
    assert_eq!(ledger.trades[2].crypto_amount, units(99_900_000));
    assert_eq!(ledger.trades[2].aud_equivalent, units(10_000_000_000));
    assert_eq!(
        ledger.warnings,
        vec![Warning { sell_currency: "ETH".to_string(), buy_currency: "BTC".to_string() }]
    );
    for pair in ledger.trades.windows(2) {
        assert!(pair[0].datetime.at_or_before(pair[1].datetime));
    }
}

#[test]
fn reconcile_gives_the_same_ledger_every_time() {
    let (activity_rows, orders) = inputs();
    let first = reconcile(&activity_rows, &orders, &prices());
    let second = reconcile(&activity_rows, &orders, &prices());
    assert!(first.is_ok());
    assert_eq!(first, second);
    let (mut broken, _) = inputs();
    broken[1].currency = "BTC".to_string();
    assert_eq!(
        reconcile(&broken, &orders, &prices()),
        reconcile(&broken, &orders, &prices())
    );
}

#[test]
fn reconcile_of_nothing_is_an_empty_ledger() {
    let ledger = reconcile(&Vec::new(), &Vec::new(), &PriceHists::default()).unwrap();
    assert!(ledger.trades.is_empty());
    assert!(ledger.warnings.is_empty());
}

#[test]
fn reconcile_fails_before_any_output_on_an_unknown_record_type() {
    let (mut activity_rows, orders) = inputs();
    activity_rows[4].record_type = "Airdrop".to_string();
    assert_eq!(reconcile(&activity_rows, &orders, &prices()), Err(Error::UnknownRecordType));
}

#[test]
fn reconcile_reports_the_activity_log_before_the_orders() {
    let (mut activity_rows, mut orders) = inputs();
    orders[0].typ = "STOP".to_string();
    assert_eq!(reconcile(&activity_rows, &orders, &prices()), Err(Error::UnknownOrderType));
    activity_rows[0].creation_time = "never".to_string();
    assert_eq!(reconcile(&activity_rows, &orders, &prices()), Err(Error::BadTimestamp));
    activity_rows[2].currency = "XRP".to_string();
    assert_eq!(
        reconcile(&activity_rows, &orders, &prices()),
        Err(Error::UnmatchedFee { reference_id: 42 })
    );
}
