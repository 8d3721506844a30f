//! Daily price histories, one per currency, and the valuation they allow.

use crate::amount::{amount_of, parsed_amount, scaled_product, Amount};
use crate::error::Error;
use crate::moment::{date_parsed, parse_date, Date};
use std::collections::BTreeMap;
use vstd::prelude::*;
use vstd::string::*;

verus! {

broadcast use {vstd::std_specs::btree::group_btree_axioms, vstd::laws_cmp::group_laws_cmp};

/// Length of a date written as `YYYY-MM-DD`.
pub const DATE_LEN: usize = 10;

/// One row of a price history: a day's snapshot.
#[derive(Clone, Debug, PartialEq, Eq)]
pub struct Row {
    /// When the snapshot was taken; begins with the date as `YYYY-MM-DD`.
    pub snapped_at: String,
    /// The price in AUD as the file states it; it may be blank.
    pub price: String,
    pub market_cap: String,
    pub total_volume: String,
}

/// The prices of one currency by day. A day without an entry and a day
/// whose entry is `None` both have no known price.
pub struct PriceHist {
    pub data: BTreeMap<i32, Option<Amount>>,
}

/// The histories of all tracked currencies, each under its symbol. Where a
/// symbol was entered more than once, the entry made last counts.
pub struct PriceHists {
    pub hists: Vec<(String, PriceHist)>,
}

/// The table that a list of entries stands for.
pub open spec fn table_of(entries: Seq<(String, PriceHist)>) -> Map<
    Seq<char>,
    Map<i32, Option<Amount>>,
>
    decreases entries.len(),
{
    if entries.len() == 0 {
        Map::empty()
    } else {
        table_of(entries.drop_last()).insert(entries.last().0@, entries.last().1@)
    }
}

/// The price of `currency` on `day`, if the table knows one.
pub open spec fn known_price(
    table: Map<Seq<char>, Map<i32, Option<Amount>>>,
    currency: Seq<char>,
    day: Date,
) -> Option<Amount> {
    if table.contains_key(currency) {
        price_on(table[currency], day)
    } else {
        None
    }
}

/// The value in AUD of `amount` of `currency` on `day`: the day's price
/// times the amount, rounded toward zero; unknown without a price.
pub open spec fn fiat_value(
    table: Map<Seq<char>, Map<i32, Option<Amount>>>,
    currency: Seq<char>,
    amount: Amount,
    day: Date,
) -> Option<int> {
    match known_price(table, currency, day) {
        Some(price) => Some(scaled_product(price.value(), amount.value())),
        None => None,
    }
}

/// What a conversion returns: the value if it is known and can be held, no
/// value if no price is known, an error if the value is too large.
pub open spec fn converted(
    table: Map<Seq<char>, Map<i32, Option<Amount>>>,
    currency: Seq<char>,
    amount: Amount,
    day: Date,
) -> Result<Option<Amount>, Error> {
    match fiat_value(table, currency, amount, day) {
        None => Ok(None),
        Some(units) => match amount_of(units) {
            Some(value) => Ok(Some(value)),
            None => Err(Error::AmountOverflow),
        },
    }
}

/// The day that a row's snapshot belongs to.
pub open spec fn row_date(row: Row) -> Option<Date> {
    if row.snapped_at@.len() < 10 {
        None
    } else {
        date_parsed(row.snapped_at@.take(10), "%Y-%m-%d"@)
    }
}

/// The price that a row states. A cell that is blank or is no number
/// states none: the price of that day is unknown.
pub open spec fn row_price(row: Row) -> Option<Amount> {
    parsed_amount(row.price@)
}

/// The table that the rows build up, later rows replacing earlier ones of
/// the same day; an error if any row's date cannot be read.
pub open spec fn history_of(rows: Seq<Row>) -> Result<Map<i32, Option<Amount>>, Error>
    decreases rows.len(),
{
    if rows.len() == 0 {
        Ok(Map::empty())
    } else {
        match (history_of(rows.drop_last()), row_date(rows.last())) {
            (Ok(earlier), Some(day)) => Ok(earlier.insert(day.days, row_price(rows.last()))),
            _ => Err(Error::BadDate),
        }
    }
}

/// The price that a table knows for a day.
pub open spec fn price_on(data: Map<i32, Option<Amount>>, day: Date) -> Option<Amount> {
    if data.contains_key(day.days) {
        data[day.days]
    } else {
        None
    }
}

impl View for PriceHist {
    type V = Map<i32, Option<Amount>>;

    open spec fn view(&self) -> Map<i32, Option<Amount>> {
        self.data@
    }
}

impl Default for PriceHist {
    /// A history without any price.
    fn default() -> (res: PriceHist)
        ensures
            res@ == Map::<i32, Option<Amount>>::empty(),
    {
        PriceHist { data: BTreeMap::new() }
    }
}

impl View for PriceHists {
    type V = Map<Seq<char>, Map<i32, Option<Amount>>>;

    open spec fn view(&self) -> Map<Seq<char>, Map<i32, Option<Amount>>> {
        table_of(self.hists@)
    }
}

impl Default for PriceHists {
    /// A table without any currency.
    fn default() -> (res: PriceHists)
        ensures
            res@ == Map::<Seq<char>, Map<i32, Option<Amount>>>::empty(),
    {
        PriceHists { hists: Vec::new() }
    }
}

impl PriceHist {
    /// Reads the day of one row.
    pub fn date_of(row: &Row) -> (res: Option<Date>)
        ensures
            res == row_date(*row),
    {
        let text = row.snapped_at.as_str();
        if text.unicode_len() < DATE_LEN {
            return None;
        }
        let prefix = text.substring_char(0, DATE_LEN);
        assert(text@.subrange(0, 10) =~= text@.take(10));
        parse_date(prefix, "%Y-%m-%d")
    }

    /// Builds the history from the rows of one currency's price file.
    pub fn from_file(rows: &Vec<Row>) -> (res: Result<PriceHist, Error>)
        ensures
            match history_of(rows@) {
                Ok(data) => res matches Ok(hist) && hist@ == data,
                Err(e) => res matches Err(f) && f == e,
            },
    {
        let mut data: BTreeMap<i32, Option<Amount>> = BTreeMap::new();
        let mut i: usize = 0;
        assert(rows@.take(0) =~= Seq::<Row>::empty());
        while i < rows.len()
            invariant
                i <= rows@.len(),
                history_of(rows@.take(i as int)) == Ok::<Map<i32, Option<Amount>>, Error>(data@),
            decreases rows@.len() - i,
        {
            let row = &rows[i];
            proof {
                assert(rows@.take(i + 1).drop_last() =~= rows@.take(i as int));
                assert(rows@.take(i + 1).last() == rows@[i as int]);
            }
            match Self::date_of(row) {
                Some(day) => {
                    data.insert(day.days, Amount::parse(row.price.as_str()));
                },
                None => {
                    proof {
                        lemma_history_fails_on(rows@, i + 1);
                    }
                    return Err(Error::BadDate);
                },
            }
            i = i + 1;
        }
        assert(rows@.take(i as int) =~= rows@);
        Ok(PriceHist { data })
    }

    /// The price on `day`, if one is known.
    pub fn lookup(&self, day: &Date) -> (res: Option<Amount>)
        ensures
            res == price_on(self@, *day),
    {
        match self.data.get(&day.days) {
            Some(price) => *price,
            None => None,
        }
    }
}

/// An entry that no later entry shadows is what the table holds for its
/// symbol.
pub proof fn lemma_table_entry(entries: Seq<(String, PriceHist)>, currency: Seq<char>, k: int)
    requires
        0 <= k < entries.len(),
        entries[k].0@ == currency,
        forall|j: int| k < j < entries.len() ==> (#[trigger] entries[j]).0@ != currency,
    ensures
        table_of(entries).contains_key(currency),
        table_of(entries)[currency] == entries[k].1@,
    decreases entries.len(),
{
    if k < entries.len() - 1 {
        let earlier = entries.drop_last();
        assert(entries.last() == entries[entries.len() - 1]);
        assert forall|j: int| k < j < earlier.len() implies (#[trigger] earlier[j]).0@
            != currency by {
            assert(earlier[j] == entries[j]);
        }
        lemma_table_entry(earlier, currency, k);
    }
}

/// A symbol that no entry bears is not in the table.
pub proof fn lemma_table_absent(entries: Seq<(String, PriceHist)>, currency: Seq<char>)
    requires
        forall|j: int| 0 <= j < entries.len() ==> (#[trigger] entries[j]).0@ != currency,
    ensures
        !table_of(entries).contains_key(currency),
    decreases entries.len(),
{
    if entries.len() > 0 {
        let earlier = entries.drop_last();
        assert(entries.last() == entries[entries.len() - 1]);
        assert forall|j: int| 0 <= j < earlier.len() implies (#[trigger] earlier[j]).0@
            != currency by {
            assert(earlier[j] == entries[j]);
        }
        lemma_table_absent(earlier, currency);
    }
}

impl PriceHists {
    /// Enters the history of `currency`, in place of any entered before.
    pub fn insert(&mut self, currency: String, hist: PriceHist)
        ensures
            final(self)@ == old(self)@.insert(currency@, hist@),
    {
        self.hists.push((currency, hist));
        assert(self.hists@.drop_last() =~= old(self).hists@);
    }

    /// The price of `currency` on `day`, if one is known.
    pub fn price(&self, currency: &str, day: &Date) -> (res: Option<Amount>)
        ensures
            res == known_price(self@, currency@, *day),
    {
        let wanted = String::from_str(currency);
        let mut i: usize = self.hists.len();
        while i > 0
            invariant
                i <= self.hists@.len(),
                wanted@ == currency@,
                forall|j: int|
                    i <= j < self.hists@.len() ==> (#[trigger] self.hists@[j]).0@ != currency@,
            decreases i,
        {
            i = i - 1;
            if self.hists[i].0 == wanted {
                proof {
                    lemma_table_entry(self.hists@, currency@, i as int);
                }
                return self.hists[i].1.lookup(day);
            }
        }
        proof {
            lemma_table_absent(self.hists@, currency@);
        }
        None
    }

    /// Values `amount` of `currency` in AUD at the price of `day`.
    pub fn convert(&self, currency: &str, amount: Amount, date: &Date) -> (res: Result<
        Option<Amount>,
        Error,
    >)
        ensures
            res == converted(self@, currency@, amount, *date),
    {
        match self.price(currency, date) {
            None => Ok(None),
            Some(price) => match price.checked_mul(amount) {
                Some(value) => Ok(Some(value)),
                None => Err(Error::AmountOverflow),
            },
        }
    }
}

/// Once a prefix of the rows is refused, so is the whole.
pub proof fn lemma_history_fails_on(rows: Seq<Row>, k: int)
    requires
        0 <= k <= rows.len(),
        history_of(rows.take(k)) is Err,
    ensures
        history_of(rows) == Err::<Map<i32, Option<Amount>>, Error>(Error::BadDate),
    decreases rows.len() - k,
{
    if k == rows.len() {
        assert(rows.take(k) =~= rows);
    } else {
        assert(rows.drop_last().take(k) =~= rows.take(k));
        lemma_history_fails_on(rows.drop_last(), k);
    }
}

} // verus!
