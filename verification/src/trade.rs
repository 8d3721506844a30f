//! The one form that every exchange's trades are brought into.

use crate::amount::{amount_text, Amount};
use crate::moment::{datetime_formatted, format_datetime, ledger_format, Timestamp};
use vstd::prelude::*;
use vstd::string::*;

verus! {

/// Whether crypto currency was bought or sold.
#[derive(Clone, Copy, Debug, PartialEq, Eq, Structural)]
pub enum TradeType {
    Buy,
    Sell,
}

/// Common format for all trades.
#[derive(Clone, Debug, PartialEq, Eq)]
pub struct Trade {
    pub datetime: Timestamp,
    pub buy_or_sell: TradeType,
    pub crypto_currency: String,
    /// Amount of crypto bought or sold.
    pub crypto_amount: Amount,
    /// Price paid, or amount received in AUD.
    pub aud_equivalent: Amount,
    /// Exchange where the trade occurred.
    pub source: String,
    pub info: String,
}

/// A trade as contracts speak of it: its texts as character sequences.
pub struct TradeView {
    pub datetime: Timestamp,
    pub buy_or_sell: TradeType,
    pub crypto_currency: Seq<char>,
    pub crypto_amount: Amount,
    pub aud_equivalent: Amount,
    pub source: Seq<char>,
    pub info: Seq<char>,
}

impl View for Trade {
    type V = TradeView;

    open spec fn view(&self) -> TradeView {
        TradeView {
            datetime: self.datetime,
            buy_or_sell: self.buy_or_sell,
            crypto_currency: self.crypto_currency@,
            crypto_amount: self.crypto_amount,
            aud_equivalent: self.aud_equivalent,
            source: self.source@,
            info: self.info@,
        }
    }
}

/// The views of a list of trades, in order.
pub open spec fn trade_views(trades: Seq<Trade>) -> Seq<TradeView> {
    Seq::new(trades.len(), |i: int| trades[i]@)
}

impl TradeType {
    /// The word that the ledger writes for the direction.
    pub open spec fn name_text(self) -> Seq<char> {
        match self {
            TradeType::Buy => "Buy"@,
            TradeType::Sell => "Sell"@,
        }
    }

    /// The word that the ledger writes for the direction.
    pub fn name(self) -> (res: String)
        ensures
            res@ == self.name_text(),
    {
        match self {
            TradeType::Buy => String::from_str("Buy"),
            TradeType::Sell => String::from_str("Sell"),
        }
    }
}

/// The cells of a trade's row in the ledger: time, direction, crypto
/// currency, crypto amount, value in AUD, exchange, and info.
pub open spec fn record_of(trade: TradeView, time: Seq<char>) -> Seq<Seq<char>> {
    seq![
        time,
        trade.buy_or_sell.name_text(),
        trade.crypto_currency,
        amount_text(trade.crypto_amount),
        amount_text(trade.aud_equivalent),
        trade.source,
        trade.info,
    ]
}

/// The texts of a list of cells.
pub open spec fn cell_views(cells: Seq<String>) -> Seq<Seq<char>> {
    Seq::new(cells.len(), |i: int| cells[i]@)
}

impl Trade {
    /// The row of the trade in the ledger, its time written as
    /// `YYYY-MM-DD HH:MM:SS`; none where the time cannot be written.
    pub fn to_record(&self) -> (res: Option<Vec<String>>)
        ensures
            match datetime_formatted(self.datetime, ledger_format()) {
                Some(time) => res matches Some(cells) && cell_views(cells@) == record_of(
                    self@,
                    time,
                ),
                None => res is None,
            },
    {
        let time = match format_datetime(self.datetime, "%Y-%m-%d %H:%M:%S") {
            Some(time) => time,
            None => {
                return None;
            },
        };
        let mut cells: Vec<String> = Vec::new();
        cells.push(time);
        cells.push(self.buy_or_sell.name());
        cells.push(self.crypto_currency.clone());
        cells.push(self.crypto_amount.to_text());
        cells.push(self.aud_equivalent.to_text());
        cells.push(self.source.clone());
        cells.push(self.info.clone());
        assert(cell_views(cells@) =~= record_of(self@, time@));
        Some(cells)
    }
}

} // verus!
