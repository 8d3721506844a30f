//! The activity log of the ledger-style exchange: several rows that share a
//! reference make up one trade.

use crate::amount::{amount_of, magnitude_of, Amount};
use crate::decimal::{decimal_text, push_decimal};
use crate::error::Error;
use crate::moment::{datetime_parsed, parse_datetime, Timestamp};
use crate::text::text_is;
use crate::trade::{TradeType, TradeView};
use vstd::prelude::*;
use vstd::string::*;

verus! {

/// One row of the activity log.
#[derive(Clone, Debug, PartialEq, Eq)]
pub struct Row {
    pub creation_time: String,
    /// `Trade` or `Fund Transfer`.
    pub record_type: String,
    /// What the row records; `Trading Fee` marks a fee.
    pub action: String,
    pub currency: String,
    /// Positive for what came in, negative for what went out.
    pub amount: Amount,
    pub description: String,
    /// The reference that the rows of one transaction share.
    pub reference_id: u32,
}

/// A trade in the making: what the rows read so far have bought and sold.
#[derive(Clone, Debug, PartialEq, Eq)]
pub struct Trade {
    pub creation_time: String,
    /// The reference of the first row; `None` before any row.
    pub reference_id: Option<u32>,
    pub sold_currency: Option<String>,
    pub sold_amount: Amount,
    pub bought_currency: Option<String>,
    pub bought_amount: Amount,
    pub description: String,
}

/// A trade in the making as contracts speak of it.
pub struct Pending {
    pub creation_time: Seq<char>,
    pub reference_id: Option<u32>,
    pub sold_currency: Option<Seq<char>>,
    pub sold_amount: Amount,
    pub bought_currency: Option<Seq<char>>,
    pub bought_amount: Amount,
    pub description: Seq<char>,
}

/// The name of a leg's currency; empty where the leg was never begun.
pub open spec fn name_of(currency: Option<Seq<char>>) -> Seq<char> {
    match currency {
        Some(name) => name,
        None => Seq::empty(),
    }
}

/// The characters of a text that may be missing.
pub open spec fn text_of(text: Option<String>) -> Option<Seq<char>> {
    match text {
        Some(s) => Some(s@),
        None => None,
    }
}

impl View for Trade {
    type V = Pending;

    open spec fn view(&self) -> Pending {
        Pending {
            creation_time: self.creation_time@,
            reference_id: self.reference_id,
            sold_currency: text_of(self.sold_currency),
            sold_amount: self.sold_amount,
            bought_currency: text_of(self.bought_currency),
            bought_amount: self.bought_amount,
            description: self.description@,
        }
    }
}

impl Pending {
    /// The trade before any row.
    pub open spec fn empty() -> Pending {
        Pending {
            creation_time: Seq::empty(),
            reference_id: None,
            sold_currency: None,
            sold_amount: Amount { units: 0 },
            bought_currency: None,
            bought_amount: Amount { units: 0 },
            description: Seq::empty(),
        }
    }

    /// The reference to report in an error; zero before any row.
    pub open spec fn reference(self) -> u32 {
        match self.reference_id {
            Some(id) => id,
            None => 0,
        }
    }

    /// The first row gives the trade its reference, description and
    /// creation time; every later row must bear the same reference.
    pub open spec fn identified(self, row: Row) -> Result<Pending, Error> {
        match self.reference_id {
            None => Ok(
                Pending {
                    reference_id: Some(row.reference_id),
                    description: row.description@,
                    creation_time: row.creation_time@,
                    ..self
                },
            ),
            Some(id) => if id == row.reference_id {
                Ok(self)
            } else {
                Err(Error::ReferenceMismatch { expected: id, found: row.reference_id })
            },
        }
    }

    /// Adds to what was bought. The first amount fixes the currency.
    pub open spec fn bought_more(self, currency: Seq<char>, amount: Amount) -> Result<
        Pending,
        Error,
    > {
        if self.bought_currency is Some && self.bought_currency != Some(currency) {
            Err(Error::CurrencyMismatch { reference_id: self.reference() })
        } else {
            match amount_of(self.bought_amount.value() + amount.value()) {
                Some(total) => Ok(
                    Pending { bought_currency: Some(currency), bought_amount: total, ..self },
                ),
                None => Err(Error::AmountOverflow),
            }
        }
    }

    /// Adds to what was sold. The first amount fixes the currency.
    pub open spec fn sold_more(self, currency: Seq<char>, amount: Amount) -> Result<
        Pending,
        Error,
    > {
        if self.sold_currency is Some && self.sold_currency != Some(currency) {
            Err(Error::CurrencyMismatch { reference_id: self.reference() })
        } else {
            match amount_of(self.sold_amount.value() + amount.value()) {
                Some(total) => Ok(
                    Pending { sold_currency: Some(currency), sold_amount: total, ..self },
                ),
                None => Err(Error::AmountOverflow),
            }
        }
    }

    /// Nets a fee against the leg of its currency: a fee in the currency
    /// bought lessens what was bought, a fee in the currency sold adds to
    /// what was sold. The fee counts by its size, whatever its sign.
    pub open spec fn fee_charged(self, currency: Seq<char>, amount: Amount) -> Result<
        Pending,
        Error,
    > {
        match magnitude_of(amount) {
            None => Err(Error::AmountOverflow),
            Some(fee) => if self.bought_currency == Some(currency) {
                match amount_of(self.bought_amount.value() - fee.value()) {
                    Some(rest) => Ok(Pending { bought_amount: rest, ..self }),
                    None => Err(Error::AmountOverflow),
                }
            } else if self.sold_currency == Some(currency) {
                match amount_of(self.sold_amount.value() + fee.value()) {
                    Some(total) => Ok(Pending { sold_amount: total, ..self }),
                    None => Err(Error::AmountOverflow),
                }
            } else {
                Err(Error::UnmatchedFee { reference_id: self.reference() })
            },
        }
    }

    /// Takes in a row of trade activity: a fee as a fee; any other amount as
    /// bought if it is not negative, and as sold, with its sign turned, if
    /// it is.
    pub open spec fn traded(self, row: Row) -> Result<Pending, Error> {
        if row.action@ == "Trading Fee"@ {
            self.fee_charged(row.currency@, row.amount)
        } else if row.amount.value() >= 0 {
            self.bought_more(row.currency@, row.amount)
        } else {
            match magnitude_of(row.amount) {
                Some(given) => self.sold_more(row.currency@, given),
                None => Err(Error::AmountOverflow),
            }
        }
    }

    /// The text that tells where a trade came from: its reference, a
    /// colon and a space, and its description.
    pub open spec fn info_text(self) -> Seq<char> {
        decimal_text(self.reference() as nat) + ": "@ + self.description
    }

    /// The finished trade, created at `when`. Where AUD was bought, crypto
    /// currency was sold for it; in every other case crypto currency was
    /// bought, and what was sold is its value in AUD.
    pub open spec fn finalized(self, when: Timestamp) -> TradeView {
        if self.bought_currency == Some("AUD"@) {
            TradeView {
                datetime: when,
                buy_or_sell: TradeType::Sell,
                crypto_currency: name_of(self.sold_currency),
                crypto_amount: self.sold_amount,
                aud_equivalent: self.bought_amount,
                source: "BTC Markets"@,
                info: self.info_text(),
            }
        } else {
            TradeView {
                datetime: when,
                buy_or_sell: TradeType::Buy,
                crypto_currency: name_of(self.bought_currency),
                crypto_amount: self.bought_amount,
                aud_equivalent: self.sold_amount,
                source: "BTC Markets"@,
                info: self.info_text(),
            }
        }
    }

    /// Takes in one row of the trade's group.
    pub open spec fn stepped(self, row: Row) -> Result<Pending, Error> {
        match self.identified(row) {
            Err(e) => Err(e),
            Ok(named) => if row.record_type@ == "Trade"@ {
                named.traded(row)
            } else if row.record_type@ == "Fund Transfer"@ {
                Ok(named)
            } else {
                Err(Error::UnknownRecordType)
            },
        }
    }
}

/// Whether a step ended as expected: on success in the expected state, on
/// failure with the expected error and the state untouched.
pub open spec fn step_is(
    before: Pending,
    after: Pending,
    res: Result<(), Error>,
    expected: Result<Pending, Error>,
) -> bool {
    match expected {
        Ok(next) => res is Ok && after == next,
        Err(e) => res == Err::<(), Error>(e) && after == before,
    }
}

/// Whether `currency` is the one that a leg was begun with.
fn leg_is(leg: &Option<String>, currency: &str) -> (res: bool)
    ensures
        res == (text_of(*leg) == Some(currency@)),
{
    match leg {
        Some(name) => {
            let wanted = String::from_str(currency);
            *name == wanted
        },
        None => false,
    }
}

impl Default for Trade {
    /// The trade before any row.
    fn default() -> (res: Trade)
        ensures
            res@ == Pending::empty(),
    {
        Trade {
            creation_time: String::new(),
            reference_id: None,
            sold_currency: None,
            sold_amount: Amount { units: 0 },
            bought_currency: None,
            bought_amount: Amount { units: 0 },
            description: String::new(),
        }
    }
}

impl Trade {
    /// The reference to report in an error; zero before any row.
    fn reference(&self) -> (res: u32)
        ensures
            res == self@.reference(),
    {
        match self.reference_id {
            Some(id) => id,
            None => 0,
        }
    }

    /// Gives the trade its reference, description and creation time from
    /// its first row, and holds every later row to that reference.
    pub fn update_common_info(&mut self, row: &Row) -> (res: Result<(), Error>)
        ensures
            step_is(old(self)@, final(self)@, res, old(self)@.identified(*row)),
    {
        match self.reference_id {
            None => {
                self.reference_id = Some(row.reference_id);
                self.description = row.description.clone();
                self.creation_time = row.creation_time.clone();
                Ok(())
            },
            Some(id) => if id == row.reference_id {
                Ok(())
            } else {
                Err(Error::ReferenceMismatch { expected: id, found: row.reference_id })
            },
        }
    }

    /// Adds an amount that came in to what was bought.
    pub fn add_buy_part(&mut self, currency: &str, amount: Amount) -> (res: Result<(), Error>)
        requires
            amount.value() >= 0,
        ensures
            step_is(old(self)@, final(self)@, res, old(self)@.bought_more(currency@, amount)),
    {
        if self.bought_currency.is_some() && !leg_is(&self.bought_currency, currency) {
            return Err(Error::CurrencyMismatch { reference_id: self.reference() });
        }
        match self.bought_amount.checked_add(amount) {
            Some(total) => {
                if self.bought_currency.is_none() {
                    self.bought_currency = Some(String::from_str(currency));
                }
                self.bought_amount = total;
                Ok(())
            },
            None => Err(Error::AmountOverflow),
        }
    }

    /// Adds an amount that went out, given without its sign, to what was
    /// sold.
    pub fn add_sell_part(&mut self, currency: &str, amount: Amount) -> (res: Result<(), Error>)
        requires
            amount.value() >= 0,
        ensures
            step_is(old(self)@, final(self)@, res, old(self)@.sold_more(currency@, amount)),
    {
        if self.sold_currency.is_some() && !leg_is(&self.sold_currency, currency) {
            return Err(Error::CurrencyMismatch { reference_id: self.reference() });
        }
        match self.sold_amount.checked_add(amount) {
            Some(total) => {
                if self.sold_currency.is_none() {
                    self.sold_currency = Some(String::from_str(currency));
                }
                self.sold_amount = total;
                Ok(())
            },
            None => Err(Error::AmountOverflow),
        }
    }

    /// Nets a fee against the leg of its currency.
    pub fn add_txn_fee(&mut self, currency: &str, amount: Amount) -> (res: Result<(), Error>)
        ensures
            step_is(old(self)@, final(self)@, res, old(self)@.fee_charged(currency@, amount)),
    {
        let fee = match amount.magnitude() {
            Some(fee) => fee,
            None => {
                return Err(Error::AmountOverflow);
            },
        };
        if leg_is(&self.bought_currency, currency) {
            match self.bought_amount.checked_sub(fee) {
                Some(rest) => {
                    self.bought_amount = rest;
                    Ok(())
                },
                None => Err(Error::AmountOverflow),
            }
        } else if leg_is(&self.sold_currency, currency) {
            match self.sold_amount.checked_add(fee) {
                Some(total) => {
                    self.sold_amount = total;
                    Ok(())
                },
                None => Err(Error::AmountOverflow),
            }
        } else {
            Err(Error::UnmatchedFee { reference_id: self.reference() })
        }
    }

    /// Takes in a row of trade activity.
    pub fn process_trade(&mut self, part: &Row) -> (res: Result<(), Error>)
        ensures
            step_is(old(self)@, final(self)@, res, old(self)@.traded(*part)),
    {
        if text_is(&part.action, "Trading Fee") {
            self.add_txn_fee(part.currency.as_str(), part.amount)
        } else if !part.amount.is_negative() {
            self.add_buy_part(part.currency.as_str(), part.amount)
        } else {
            match part.amount.magnitude() {
                Some(given) => self.add_sell_part(part.currency.as_str(), given),
                None => Err(Error::AmountOverflow),
            }
        }
    }

    /// A transfer of funds is no trade: the row is taken note of and
    /// changes nothing.
    pub fn process_transfer(&mut self, _part: &Row)
        ensures
            final(self)@ == old(self)@,
    {
    }

    /// Takes in one row of the trade's group. A row that is refused leaves
    /// the trade as it was.
    pub fn process_part(&mut self, part: &Row) -> (res: Result<(), Error>)
        ensures
            step_is(old(self)@, final(self)@, res, old(self)@.stepped(*part)),
    {
        let previous = self.reference_id;
        match previous {
            Some(id) => {
                if id != part.reference_id {
                    return Err(
                        Error::ReferenceMismatch { expected: id, found: part.reference_id },
                    );
                }
            },
            None => {
                // The legs report the row's reference in their errors.
                self.reference_id = Some(part.reference_id);
            },
        }
        let outcome = if text_is(&part.record_type, "Trade") {
            self.process_trade(part)
        } else if text_is(&part.record_type, "Fund Transfer") {
            self.process_transfer(part);
            Ok(())
        } else {
            Err(Error::UnknownRecordType)
        };
        // The trade is named only once the row is taken in.
        self.reference_id = previous;
        match outcome {
            Ok(()) => self.update_common_info(part),
            Err(e) => Err(e),
        }
    }

    /// Finishes the trade, given the moment that its creation time reads
    /// as.
    pub fn common_at(self, when: Timestamp) -> (res: crate::trade::Trade)
        ensures
            res@ == self@.finalized(when),
    {
        let mut info = String::new();
        push_decimal(&mut info, self.reference() as u64);
        info.append(": ");
        info.append(self.description.as_str());
        assert(info@ =~= self@.info_text());
        let crypto_sold = leg_is(&self.bought_currency, "AUD");
        let (direction, currency, crypto_amount, aud_equivalent) = if crypto_sold {
            (TradeType::Sell, self.sold_currency, self.sold_amount, self.bought_amount)
        } else {
            (TradeType::Buy, self.bought_currency, self.bought_amount, self.sold_amount)
        };
        let crypto_currency = match currency {
            Some(name) => name,
            None => String::new(),
        };
        crate::trade::Trade {
            datetime: when,
            buy_or_sell: direction,
            crypto_currency,
            crypto_amount,
            aud_equivalent,
            source: String::from_str("BTC Markets"),
            info,
        }
    }

    /// Finishes the trade. Its creation time must be a date and time in the
    /// ISO 8601 form.
    pub fn into_common(self) -> (res: Result<crate::trade::Trade, Error>)
        ensures
            match datetime_parsed(self.creation_time@, "%+"@) {
                Some(when) => res matches Ok(trade) && trade@ == self@.finalized(when),
                None => res matches Err(e) && e == Error::BadTimestamp,
            },
    {
        match parse_datetime(self.creation_time.as_str(), "%+") {
            Some(when) => Ok(self.common_at(when)),
            None => Err(Error::BadTimestamp),
        }
    }
}

/// Whether a row records trade activity.
pub open spec fn is_trade(row: Row) -> bool {
    row.record_type@ == "Trade"@
}

/// Whether a row records a transfer of funds.
pub open spec fn is_transfer(row: Row) -> bool {
    row.record_type@ == "Fund Transfer"@
}

/// Whether every row is of a record type that the format knows.
pub open spec fn all_known(rows: Seq<Row>) -> bool {
    forall|i: int| 0 <= i < rows.len() ==> is_trade(#[trigger] rows[i]) || is_transfer(rows[i])
}

/// The references of the rows of trade activity, each once, in the order
/// in which they are first seen.
pub open spec fn references(rows: Seq<Row>) -> Seq<u32>
    decreases rows.len(),
{
    if rows.len() == 0 {
        Seq::empty()
    } else {
        let earlier = references(rows.drop_last());
        if is_trade(rows.last()) && !earlier.contains(rows.last().reference_id) {
            earlier.push(rows.last().reference_id)
        } else {
            earlier
        }
    }
}

/// The rows of trade activity that bear the reference `id`, in the order
/// of the file.
pub open spec fn group_of(rows: Seq<Row>, id: u32) -> Seq<Row>
    decreases rows.len(),
{
    if rows.len() == 0 {
        Seq::empty()
    } else {
        let earlier = group_of(rows.drop_last(), id);
        if is_trade(rows.last()) && rows.last().reference_id == id {
            earlier.push(rows.last())
        } else {
            earlier
        }
    }
}

/// The trade that the rows of one group make, taken in one after the
/// other; the error of the first row that is refused.
pub open spec fn folded(rows: Seq<Row>) -> Result<Pending, Error>
    decreases rows.len(),
{
    if rows.len() == 0 {
        Ok(Pending::empty())
    } else {
        match folded(rows.drop_last()) {
            Err(e) => Err(e),
            Ok(pending) => pending.stepped(rows.last()),
        }
    }
}

/// The trades of the groups with the references `ids`, one for each in
/// turn; the error of the first group that is refused.
pub open spec fn trades_of(rows: Seq<Row>, ids: Seq<u32>) -> Result<Seq<Pending>, Error>
    decreases ids.len(),
{
    if ids.len() == 0 {
        Ok(Seq::empty())
    } else {
        match trades_of(rows, ids.drop_last()) {
            Err(e) => Err(e),
            Ok(done) => match folded(group_of(rows, ids.last())) {
                Err(e) => Err(e),
                Ok(pending) => Ok(done.push(pending)),
            },
        }
    }
}

/// What an activity log comes to. A record type that the format does not
/// know refuses the whole log. Transfers are left aside. The rows of trade
/// activity are grouped by their reference, the groups in the order in
/// which their references are first seen, and each group makes one trade.
pub open spec fn loaded(rows: Seq<Row>) -> Result<Seq<Pending>, Error> {
    if !all_known(rows) {
        Err(Error::UnknownRecordType)
    } else {
        trades_of(rows, references(rows))
    }
}

/// The views of a list of trades in the making, in order.
pub open spec fn pending_views(trades: Seq<Trade>) -> Seq<Pending> {
    Seq::new(trades.len(), |i: int| trades[i]@)
}

/// Whether every row is of a known record type.
fn check_record_types(rows: &Vec<Row>) -> (res: bool)
    ensures
        res == all_known(rows@),
{
    let mut i: usize = 0;
    while i < rows.len()
        invariant
            i <= rows@.len(),
            forall|j: int|
                0 <= j < i ==> is_trade(#[trigger] rows@[j]) || is_transfer(rows@[j]),
        decreases rows@.len() - i,
    {
        if !text_is(&rows[i].record_type, "Trade") && !text_is(
            &rows[i].record_type,
            "Fund Transfer",
        ) {
            return false;
        }
        i = i + 1;
    }
    true
}

/// Whether `id` is among `ids`.
fn seen(ids: &Vec<u32>, id: u32) -> (res: bool)
    ensures
        res == ids@.contains(id),
{
    let mut i: usize = 0;
    while i < ids.len()
        invariant
            i <= ids@.len(),
            forall|j: int| 0 <= j < i ==> ids@[j] != id,
        decreases ids@.len() - i,
    {
        if ids[i] == id {
            return true;
        }
        i = i + 1;
    }
    false
}

/// The references of the trade rows in the order of their first
/// appearance.
fn collect_references(rows: &Vec<Row>) -> (res: Vec<u32>)
    ensures
        res@ == references(rows@),
{
    let mut ids: Vec<u32> = Vec::new();
    let mut i: usize = 0;
    assert(rows@.take(0) =~= Seq::<Row>::empty());
    while i < rows.len()
        invariant
            i <= rows@.len(),
            ids@ == references(rows@.take(i as int)),
        decreases rows@.len() - i,
    {
        proof {
            assert(rows@.take(i + 1).drop_last() =~= rows@.take(i as int));
            assert(rows@.take(i + 1).last() == rows@[i as int]);
        }
        if text_is(&rows[i].record_type, "Trade") && !seen(&ids, rows[i].reference_id) {
            ids.push(rows[i].reference_id);
        }
        i = i + 1;
    }
    assert(rows@.take(i as int) =~= rows@);
    ids
}

/// The error of a prefix of a group is the error of the group.
pub proof fn lemma_folded_error(rows: Seq<Row>, k: int)
    requires
        0 <= k <= rows.len(),
        folded(rows.take(k)) is Err,
    ensures
        folded(rows) == folded(rows.take(k)),
    decreases rows.len() - k,
{
    if k == rows.len() {
        assert(rows.take(k) =~= rows);
    } else {
        assert(rows.drop_last().take(k) =~= rows.take(k));
        lemma_folded_error(rows.drop_last(), k);
    }
}

/// A group's rows up to some row of the file are the first rows of the
/// whole group.
pub proof fn lemma_group_prefix(rows: Seq<Row>, id: u32, k: int)
    requires
        0 <= k <= rows.len(),
    ensures
        group_of(rows.take(k), id).len() <= group_of(rows, id).len(),
        group_of(rows.take(k), id) == group_of(rows, id).take(
            group_of(rows.take(k), id).len() as int,
        ),
    decreases rows.len() - k,
{
    if k == rows.len() {
        assert(rows.take(k) =~= rows);
        assert(group_of(rows, id).take(group_of(rows, id).len() as int) =~= group_of(rows, id));
    } else {
        assert(rows.drop_last().take(k) =~= rows.take(k));
        lemma_group_prefix(rows.drop_last(), id, k);
        let part = group_of(rows.take(k), id);
        let earlier = group_of(rows.drop_last(), id);
        assert(part =~= group_of(rows, id).take(part.len() as int));
    }
}

/// Makes the trade of the group with the reference `id`.
fn fold_group(rows: &Vec<Row>, id: u32) -> (res: Result<Trade, Error>)
    ensures
        match folded(group_of(rows@, id)) {
            Ok(pending) => res matches Ok(trade) && trade@ == pending,
            Err(e) => res matches Err(f) && f == e,
        },
{
    let mut trade = Trade::default();
    let mut i: usize = 0;
    assert(rows@.take(0) =~= Seq::<Row>::empty());
    while i < rows.len()
        invariant
            i <= rows@.len(),
            folded(group_of(rows@.take(i as int), id)) == Ok::<Pending, Error>(trade@),
        decreases rows@.len() - i,
    {
        proof {
            assert(rows@.take(i + 1).drop_last() =~= rows@.take(i as int));
            assert(rows@.take(i + 1).last() == rows@[i as int]);
        }
        if text_is(&rows[i].record_type, "Trade") && rows[i].reference_id == id {
            let ghost part = group_of(rows@.take(i + 1), id);
            proof {
                assert(part.drop_last() =~= group_of(rows@.take(i as int), id));
                assert(part.last() == rows@[i as int]);
            }
            match trade.process_part(&rows[i]) {
                Ok(()) => {},
                Err(e) => {
                    proof {
                        lemma_group_prefix(rows@, id, i + 1);
                        lemma_folded_error(group_of(rows@, id), part.len() as int);
                    }
                    return Err(e);
                },
            }
        }
        i = i + 1;
    }
    assert(rows@.take(i as int) =~= rows@);
    Ok(trade)
}

/// The error of the first groups is the error of them all.
pub proof fn lemma_trades_error(rows: Seq<Row>, ids: Seq<u32>, k: int)
    requires
        0 <= k <= ids.len(),
        trades_of(rows, ids.take(k)) is Err,
    ensures
        trades_of(rows, ids) == trades_of(rows, ids.take(k)),
    decreases ids.len() - k,
{
    if k == ids.len() {
        assert(ids.take(k) =~= ids);
    } else {
        assert(ids.drop_last().take(k) =~= ids.take(k));
        lemma_trades_error(rows, ids.drop_last(), k);
    }
}

/// Groups the rows of an activity log by their reference and makes one
/// trade of each group.
pub fn load_csv(rows: &Vec<Row>) -> (res: Result<Vec<Trade>, Error>)
    ensures
        match loaded(rows@) {
            Ok(pending) => res matches Ok(trades) && pending_views(trades@) == pending,
            Err(e) => res matches Err(f) && f == e,
        },
{
    if !check_record_types(rows) {
        return Err(Error::UnknownRecordType);
    }
    let ids = collect_references(rows);
    let mut trades: Vec<Trade> = Vec::new();
    let mut k: usize = 0;
    proof {
        assert(ids@.take(0) =~= Seq::<u32>::empty());
        assert(pending_views(trades@) =~= Seq::<Pending>::empty());
    }
    while k < ids.len()
        invariant
            k <= ids@.len(),
            all_known(rows@),
            ids@ == references(rows@),
            trades_of(rows@, ids@.take(k as int)) == Ok::<Seq<Pending>, Error>(
                pending_views(trades@),
            ),
        decreases ids@.len() - k,
    {
        let ghost before = trades@;
        proof {
            assert(ids@.take(k + 1).drop_last() =~= ids@.take(k as int));
            assert(ids@.take(k + 1).last() == ids@[k as int]);
        }
        match fold_group(rows, ids[k]) {
            Ok(trade) => {
                trades.push(trade);
                assert(pending_views(trades@) =~= pending_views(before).push(trade@));
            },
            Err(e) => {
                proof {
                    lemma_trades_error(rows@, ids@, k + 1);
                }
                return Err(e);
            },
        }
        k = k + 1;
    }
    assert(ids@.take(k as int) =~= ids@);
    Ok(trades)
}

/// Whether a row is a fee.
pub open spec fn is_fee(row: Row) -> bool {
    row.action@ == "Trading Fee"@
}

/// The size of an amount, whatever its sign.
pub open spec fn size_of(amount: Amount) -> int {
    if amount.value() < 0 {
        -amount.value()
    } else {
        amount.value()
    }
}

/// All that the rows of a group brought in, fees left aside.
pub open spec fn gross_bought(rows: Seq<Row>) -> int
    decreases rows.len(),
{
    if rows.len() == 0 {
        0
    } else {
        let row = rows.last();
        gross_bought(rows.drop_last()) + if is_trade(row) && !is_fee(row) && row.amount.value()
            >= 0 {
            row.amount.value()
        } else {
            0
        }
    }
}

/// The fees of a group that were charged to what was bought: those in the
/// currency that the rows before them had bought.
pub open spec fn fees_on_bought(rows: Seq<Row>) -> int
    decreases rows.len(),
{
    if rows.len() == 0 {
        0
    } else {
        let row = rows.last();
        fees_on_bought(rows.drop_last()) + match folded(rows.drop_last()) {
            Ok(pending) => if is_trade(row) && is_fee(row) && pending.bought_currency == Some(
                row.currency@,
            ) {
                size_of(row.amount)
            } else {
                0
            },
            Err(_) => 0,
        }
    }
}

/// After all rows of a group, what was sold is not negative, and what was
/// bought is all that came in less the fees charged to it.
pub proof fn lemma_legs_balance(rows: Seq<Row>, pending: Pending)
    requires
        folded(rows) == Ok::<Pending, Error>(pending),
    ensures
        pending.sold_amount.value() >= 0,
        pending.bought_amount.value() == gross_bought(rows) - fees_on_bought(rows),
    decreases rows.len(),
{
    if rows.len() > 0 {
        match folded(rows.drop_last()) {
            Ok(before) => {
                lemma_legs_balance(rows.drop_last(), before);
            },
            Err(_) => {},
        }
    }
}

/// After all rows of a group, neither what was bought nor what was sold is
/// negative, unless the fees charged to what was bought exceed all that
/// came in.
pub proof fn lemma_legs_not_negative(rows: Seq<Row>, pending: Pending)
    requires
        folded(rows) == Ok::<Pending, Error>(pending),
        fees_on_bought(rows) <= gross_bought(rows),
    ensures
        pending.bought_amount.value() >= 0,
        pending.sold_amount.value() >= 0,
{
    lemma_legs_balance(rows, pending);
}

/// Each trade of a log is the trade of one group: the `k`-th trade is made
/// of the rows that bear the `k`-th reference.
pub proof fn lemma_trades_are_groups(rows: Seq<Row>, ids: Seq<u32>, trades: Seq<Pending>, k: int)
    requires
        trades_of(rows, ids) == Ok::<Seq<Pending>, Error>(trades),
        0 <= k < ids.len(),
    ensures
        trades.len() == ids.len(),
        folded(group_of(rows, ids[k])) == Ok::<Pending, Error>(trades[k]),
    decreases ids.len(),
{
    match trades_of(rows, ids.drop_last()) {
        Ok(done) => {
            if k < ids.len() - 1 {
                lemma_trades_are_groups(rows, ids.drop_last(), done, k);
            } else if ids.len() > 1 {
                lemma_trades_are_groups(rows, ids.drop_last(), done, 0);
            }
        },
        Err(_) => {},
    }
}

/// In every trade of a log neither what was bought nor what was sold is
/// negative, unless the fees charged to what its group bought exceed all
/// that the group brought in.
pub proof fn lemma_loaded_legs_not_negative(rows: Seq<Row>, trades: Seq<Pending>, k: int)
    requires
        loaded(rows) == Ok::<Seq<Pending>, Error>(trades),
        0 <= k < references(rows).len(),
        fees_on_bought(group_of(rows, references(rows)[k])) <= gross_bought(
            group_of(rows, references(rows)[k]),
        ),
    ensures
        trades.len() == references(rows).len(),
        trades[k].bought_amount.value() >= 0,
        trades[k].sold_amount.value() >= 0,
{
    let ids = references(rows);
    lemma_trades_are_groups(rows, ids, trades, k);
    lemma_legs_not_negative(group_of(rows, ids[k]), trades[k]);
}

} // verus!
