//! Orders of the swap-style exchange: each row is one filled order on a
//! market of two currencies, valued through the price histories.

use crate::amount::Amount;
use crate::coin_gecko::{converted, PriceHists};
use crate::error::Error;
use crate::moment::{datetime_parsed, parse_datetime, Date, Timestamp};
use crate::text::{pair_of, split_pair, text_is};
use crate::trade::{trade_views, Trade, TradeType, TradeView};
use vstd::prelude::*;
use vstd::string::*;

verus! {

/// One filled order as the exchange exports it.
#[derive(Clone, Debug, PartialEq, Eq)]
pub struct Row {
    pub order_uuid: String,
    /// The market, such as `BTC-ETH`.
    pub exchange: String,
    /// The order type: `LIMIT_BUY` or `LIMIT_SELL`.
    pub typ: String,
    /// Amount of the market's second currency.
    pub quantity: Amount,
    pub limit: Amount,
    pub commission_paid: Amount,
    /// Amount of the market's first currency.
    pub price: Amount,
    pub opened: String,
    pub closed: String,
}

/// What one order comes to.
#[derive(Clone, Debug, PartialEq, Eq)]
pub enum Reconciled {
    /// The sell leg and the buy leg, at one time and one value.
    Legs(Trade, Trade),
    /// No price is known for either currency on the day, so the order is
    /// left out of the ledger.
    Unvalued { sell_currency: String, buy_currency: String },
}

/// An order left out of the ledger for want of a price, with the two
/// currencies it exchanged.
#[derive(Clone, Debug, PartialEq, Eq)]
pub struct Warning {
    pub sell_currency: String,
    pub buy_currency: String,
}

/// The trades of a file of orders, and the orders left out.
#[derive(Clone, Debug, PartialEq, Eq)]
pub struct Loaded {
    pub trades: Vec<Trade>,
    pub warnings: Vec<Warning>,
}

/// An outcome as contracts speak of it.
pub enum ReconciledView {
    Legs(TradeView, TradeView),
    Unvalued { sell_currency: Seq<char>, buy_currency: Seq<char> },
}

impl View for Reconciled {
    type V = ReconciledView;

    open spec fn view(&self) -> ReconciledView {
        match self {
            Reconciled::Legs(sell, buy) => ReconciledView::Legs(sell@, buy@),
            Reconciled::Unvalued { sell_currency, buy_currency } => ReconciledView::Unvalued {
                sell_currency: sell_currency@,
                buy_currency: buy_currency@,
            },
        }
    }
}

impl View for Warning {
    type V = (Seq<char>, Seq<char>);

    open spec fn view(&self) -> (Seq<char>, Seq<char>) {
        (self.sell_currency@, self.buy_currency@)
    }
}

/// The outcome of a file as contracts speak of it.
pub struct LoadedView {
    pub trades: Seq<TradeView>,
    pub warnings: Seq<(Seq<char>, Seq<char>)>,
}

/// The views of a list of warnings, in order.
pub open spec fn warning_views(warnings: Seq<Warning>) -> Seq<(Seq<char>, Seq<char>)> {
    Seq::new(warnings.len(), |i: int| warnings[i]@)
}

impl View for Loaded {
    type V = LoadedView;

    open spec fn view(&self) -> LoadedView {
        LoadedView { trades: trade_views(self.trades@), warnings: warning_views(self.warnings@) }
    }
}

/// What was given and what was taken in one order.
pub struct Swap {
    pub sell_currency: Seq<char>,
    pub sell_amount: Amount,
    pub buy_currency: Seq<char>,
    pub buy_amount: Amount,
}

/// The time an order closed: the text is tried in the compact form first,
/// then in the verbose form with AM or PM.
pub open spec fn closing_time(row: Row) -> Option<Timestamp> {
    match datetime_parsed(row.closed@, "%-m/%-d/%-y %-H:%M"@) {
        Some(when) => Some(when),
        None => datetime_parsed(row.closed@, "%-m/%-d/%-Y %-H:%M:%S %p"@),
    }
}

/// The two legs of an order. A limit buy on the market `A-B` gives the
/// price in `A` and takes the quantity in `B`; a limit sell gives the
/// quantity in `B` and takes the price in `A`.
pub open spec fn legs_of(row: Row) -> Result<Swap, Error> {
    match pair_of(row.exchange@) {
        None => Err(Error::BadPair),
        Some((first, second)) => if row.typ@ == "LIMIT_BUY"@ {
            Ok(
                Swap {
                    sell_currency: first,
                    sell_amount: row.price,
                    buy_currency: second,
                    buy_amount: row.quantity,
                },
            )
        } else if row.typ@ == "LIMIT_SELL"@ {
            Ok(
                Swap {
                    sell_currency: second,
                    sell_amount: row.quantity,
                    buy_currency: first,
                    buy_amount: row.price,
                },
            )
        } else {
            Err(Error::UnknownOrderType)
        },
    }
}

/// The value of an order in AUD: that of what was given, or, where no
/// price is known for it, that of what was taken.
pub open spec fn valuation(
    table: Map<Seq<char>, Map<i32, Option<Amount>>>,
    swap: Swap,
    day: Date,
) -> Result<Option<Amount>, Error> {
    match converted(table, swap.sell_currency, swap.sell_amount, day) {
        Ok(None) => converted(table, swap.buy_currency, swap.buy_amount, day),
        known => known,
    }
}

/// One leg as a trade of this exchange.
pub open spec fn leg_trade(
    when: Timestamp,
    direction: TradeType,
    currency: Seq<char>,
    amount: Amount,
    value: Amount,
) -> TradeView {
    TradeView {
        datetime: when,
        buy_or_sell: direction,
        crypto_currency: currency,
        crypto_amount: amount,
        aud_equivalent: value,
        source: "Bittrex"@,
        info: ""@,
    }
}

/// What an order that closed at `when` comes to.
pub open spec fn reconciled_at(
    row: Row,
    when: Timestamp,
    table: Map<Seq<char>, Map<i32, Option<Amount>>>,
) -> Result<ReconciledView, Error> {
    match legs_of(row) {
        Err(e) => Err(e),
        Ok(swap) => match valuation(table, swap, Date { days: when.days }) {
            Err(e) => Err(e),
            Ok(None) => Ok(
                ReconciledView::Unvalued {
                    sell_currency: swap.sell_currency,
                    buy_currency: swap.buy_currency,
                },
            ),
            Ok(Some(value)) => Ok(
                ReconciledView::Legs(
                    leg_trade(when, TradeType::Sell, swap.sell_currency, swap.sell_amount, value),
                    leg_trade(when, TradeType::Buy, swap.buy_currency, swap.buy_amount, value),
                ),
            ),
        },
    }
}

/// What an order comes to.
pub open spec fn reconciled(row: Row, table: Map<Seq<char>, Map<i32, Option<Amount>>>) -> Result<
    ReconciledView,
    Error,
> {
    match closing_time(row) {
        None => Err(Error::BadTimestamp),
        Some(when) => reconciled_at(row, when, table),
    }
}

/// Whether `res` is the outcome `expected`, texts compared by their
/// characters.
pub open spec fn outcome_is(res: Result<Reconciled, Error>, expected: Result<ReconciledView, Error>)
    -> bool {
    match expected {
        Ok(view) => res matches Ok(found) && found@ == view,
        Err(e) => res matches Err(f) && f == e,
    }
}

impl Row {
    /// Reads the closing time in either of its two forms.
    pub fn closed_at(&self) -> (res: Option<Timestamp>)
        ensures
            res == closing_time(*self),
    {
        match parse_datetime(self.closed.as_str(), "%-m/%-d/%-y %-H:%M") {
            Some(when) => Some(when),
            None => parse_datetime(self.closed.as_str(), "%-m/%-d/%-Y %-H:%M:%S %p"),
        }
    }

    /// Turns an order that closed at `when` into its two trades, or reports
    /// that no price is known for it.
    pub fn trades_at(&self, when: Timestamp, price_hists: &PriceHists) -> (res: Result<
        Reconciled,
        Error,
    >)
        ensures
            outcome_is(res, reconciled_at(*self, when, price_hists@)),
    {
        let (first, second) = match split_pair(self.exchange.as_str()) {
            Some(sides) => sides,
            None => {
                return Err(Error::BadPair);
            },
        };
        let (sell_currency, buy_currency, sell_amount, buy_amount) = if text_is(
            &self.typ,
            "LIMIT_BUY",
        ) {
            (first, second, self.price, self.quantity)
        } else if text_is(&self.typ, "LIMIT_SELL") {
            (second, first, self.quantity, self.price)
        } else {
            return Err(Error::UnknownOrderType);
        };
        let date = when.date();
        let sold = match price_hists.convert(sell_currency.as_str(), sell_amount, &date) {
            Ok(value) => value,
            Err(e) => {
                return Err(e);
            },
        };
        let known = match sold {
            Some(value) => Some(value),
            None => match price_hists.convert(buy_currency.as_str(), buy_amount, &date) {
                Ok(value) => value,
                Err(e) => {
                    return Err(e);
                },
            },
        };
        let aud_equivalent = match known {
            Some(value) => value,
            None => {
                return Ok(Reconciled::Unvalued { sell_currency, buy_currency });
            },
        };
        let sell_trade = Trade {
            datetime: when,
            buy_or_sell: TradeType::Sell,
            crypto_currency: sell_currency,
            crypto_amount: sell_amount,
            aud_equivalent,
            source: String::from_str("Bittrex"),
            info: String::from_str(""),
        };
        let buy_trade = Trade {
            datetime: when,
            buy_or_sell: TradeType::Buy,
            crypto_currency: buy_currency,
            crypto_amount: buy_amount,
            aud_equivalent,
            source: String::from_str("Bittrex"),
            info: String::from_str(""),
        };
        Ok(Reconciled::Legs(sell_trade, buy_trade))
    }

    /// Turns an order into its two trades, or reports that no price is
    /// known for it.
    pub fn into_trades(self, price_hists: &PriceHists) -> (res: Result<Reconciled, Error>)
        ensures
            outcome_is(res, reconciled(self, price_hists@)),
    {
        match self.closed_at() {
            Some(when) => self.trades_at(when, price_hists),
            None => Err(Error::BadTimestamp),
        }
    }
}

/// What a file of orders comes to: for each order in turn its sell leg and
/// its buy leg, or a warning where no price is known; the error of the
/// first order that is refused.
pub open spec fn loaded(rows: Seq<Row>, table: Map<Seq<char>, Map<i32, Option<Amount>>>) -> Result<
    LoadedView,
    Error,
>
    decreases rows.len(),
{
    if rows.len() == 0 {
        Ok(LoadedView { trades: Seq::empty(), warnings: Seq::empty() })
    } else {
        match loaded(rows.drop_last(), table) {
            Err(e) => Err(e),
            Ok(earlier) => match reconciled(rows.last(), table) {
                Err(e) => Err(e),
                Ok(ReconciledView::Legs(sell, buy)) => Ok(
                    LoadedView {
                        trades: earlier.trades.push(sell).push(buy),
                        warnings: earlier.warnings,
                    },
                ),
                Ok(ReconciledView::Unvalued { sell_currency, buy_currency }) => Ok(
                    LoadedView {
                        trades: earlier.trades,
                        warnings: earlier.warnings.push((sell_currency, buy_currency)),
                    },
                ),
            },
        }
    }
}

/// The error of a prefix of the orders is the error of them all.
pub proof fn lemma_loaded_error(
    rows: Seq<Row>,
    table: Map<Seq<char>, Map<i32, Option<Amount>>>,
    k: int,
)
    requires
        0 <= k <= rows.len(),
        loaded(rows.take(k), table) is Err,
    ensures
        loaded(rows, table) == loaded(rows.take(k), table),
    decreases rows.len() - k,
{
    if k == rows.len() {
        assert(rows.take(k) =~= rows);
    } else {
        assert(rows.drop_last().take(k) =~= rows.take(k));
        lemma_loaded_error(rows.drop_last(), table, k);
    }
}

/// Turns the orders of one file into trades, in the order of the file.
pub fn load_csv(rows: &Vec<Row>, price_hists: &PriceHists) -> (res: Result<Loaded, Error>)
    ensures
        match loaded(rows@, price_hists@) {
            Ok(view) => res matches Ok(found) && found@ == view,
            Err(e) => res matches Err(f) && f == e,
        },
{
    let mut trades: Vec<Trade> = Vec::new();
    let mut warnings: Vec<Warning> = Vec::new();
    let mut i: usize = 0;
    proof {
        assert(rows@.take(0) =~= Seq::<Row>::empty());
        assert(trade_views(trades@) =~= Seq::<TradeView>::empty());
        assert(warning_views(warnings@) =~= Seq::<(Seq<char>, Seq<char>)>::empty());
    }
    while i < rows.len()
        invariant
            i <= rows@.len(),
            loaded(rows@.take(i as int), price_hists@) == Ok::<LoadedView, Error>(
                LoadedView {
                    trades: trade_views(trades@),
                    warnings: warning_views(warnings@),
                },
            ),
        decreases rows@.len() - i,
    {
        let ghost before_trades = trades@;
        let ghost before_warnings = warnings@;
        proof {
            assert(rows@.take(i + 1).drop_last() =~= rows@.take(i as int));
            assert(rows@.take(i + 1).last() == rows@[i as int]);
        }
        let outcome = match rows[i].closed_at() {
            Some(when) => rows[i].trades_at(when, price_hists),
            None => Err(Error::BadTimestamp),
        };
        match outcome {
            Ok(Reconciled::Legs(sell, buy)) => {
                trades.push(sell);
                trades.push(buy);
                assert(trade_views(trades@) =~= trade_views(before_trades).push(sell@).push(buy@));
            },
            Ok(Reconciled::Unvalued { sell_currency, buy_currency }) => {
                let warning = Warning { sell_currency, buy_currency };
                warnings.push(warning);
                assert(warning_views(warnings@) =~= warning_views(before_warnings).push(warning@));
            },
            Err(e) => {
                proof {
                    lemma_loaded_error(rows@, price_hists@, i + 1);
                }
                return Err(e);
            },
        }
        i = i + 1;
    }
    assert(rows@.take(i as int) =~= rows@);
    Ok(Loaded { trades, warnings })
}

} // verus!
