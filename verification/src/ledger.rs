//! The ledger: the trades of all exchanges in one list, ordered by time.

use crate::amount::Amount;
use crate::bittrex::{warning_views, Warning};
use crate::btc_markets::{pending_views, Pending};
use crate::coin_gecko::PriceHists;
use crate::error::Error;
use crate::moment::datetime_parsed;
use crate::trade::{trade_views, Trade, TradeView};
use vstd::prelude::*;

verus! {

/// The list `sorted` with `trade` put in behind every entry that is not
/// later than it.
pub open spec fn inserted(sorted: Seq<TradeView>, trade: TradeView) -> Seq<TradeView>
    decreases sorted.len(),
{
    if sorted.len() == 0 {
        seq![trade]
    } else if sorted.last().datetime.ordinal() <= trade.datetime.ordinal() {
        sorted.push(trade)
    } else {
        inserted(sorted.drop_last(), trade).push(sorted.last())
    }
}

/// The trades ordered by time, earliest first; trades of the same moment
/// keep the order in which they were given.
pub open spec fn sorted_by_time(trades: Seq<TradeView>) -> Seq<TradeView>
    decreases trades.len(),
{
    if trades.len() == 0 {
        Seq::empty()
    } else {
        inserted(sorted_by_time(trades.drop_last()), trades.last())
    }
}

/// Whether no trade comes before an earlier one.
pub open spec fn ordered(trades: Seq<TradeView>) -> bool {
    forall|i: int, j: int|
        0 <= i < j < trades.len() ==> (#[trigger] trades[i]).datetime.ordinal() <= (
        #[trigger] trades[j]).datetime.ordinal()
}

/// Putting a trade in is putting it at the place behind the last entry
/// that is not later than it.
pub proof fn lemma_inserted_at(sorted: Seq<TradeView>, trade: TradeView, at: int)
    requires
        0 <= at <= sorted.len(),
        at > 0 ==> sorted[at - 1].datetime.ordinal() <= trade.datetime.ordinal(),
        forall|j: int|
            at <= j < sorted.len() ==> (#[trigger] sorted[j]).datetime.ordinal()
                > trade.datetime.ordinal(),
    ensures
        inserted(sorted, trade) == sorted.insert(at, trade),
    decreases sorted.len(),
{
    if sorted.len() == 0 {
        assert(sorted.insert(at, trade) =~= seq![trade]);
    } else if at == sorted.len() {
        assert(sorted.insert(at, trade) =~= sorted.push(trade));
    } else {
        let front = sorted.drop_last();
        assert(sorted.last() == sorted[sorted.len() - 1]);
        assert forall|j: int| at <= j < front.len() implies (#[trigger] front[j]).datetime.ordinal()
            > trade.datetime.ordinal() by {
            assert(front[j] == sorted[j]);
        }
        if at > 0 {
            assert(front[at - 1] == sorted[at - 1]);
        }
        lemma_inserted_at(front, trade, at);
        assert(sorted.insert(at, trade) =~= front.insert(at, trade).push(sorted.last()));
    }
}

/// Orders the trades by time; trades of the same moment keep their order.
pub fn sort_by_time(trades: Vec<Trade>) -> (res: Vec<Trade>)
    ensures
        trade_views(res@) == sorted_by_time(trade_views(trades@)),
{
    let ghost given = trade_views(trades@);
    let mut out: Vec<Trade> = Vec::new();
    proof {
        assert(given.take(0) =~= Seq::<TradeView>::empty());
        assert(trade_views(out@) =~= Seq::<TradeView>::empty());
    }
    for trade in it: trades
        invariant
            given == trade_views(it.seq()),
            trade_views(out@) == sorted_by_time(given.take(it.index() as int)),
    {
        let ghost before = out@;
        let ghost done = it.index() as int;
        let mut at: usize = out.len();
        while at > 0 && !out[at - 1].datetime.at_or_before(trade.datetime)
            invariant
                at <= out@.len(),
                forall|j: int|
                    at <= j < out@.len() ==> (#[trigger] trade_views(out@)[j]).datetime.ordinal()
                        > trade.datetime.ordinal(),
            decreases at,
        {
            at = at - 1;
            assert(trade_views(out@)[at as int] == out@[at as int]@);
        }
        proof {
            if at > 0 {
                assert(trade_views(out@)[at - 1] == out@[at - 1]@);
            }
            lemma_inserted_at(trade_views(before), trade@, at as int);
            assert(given.take(done + 1).drop_last() =~= given.take(done));
            assert(given.take(done + 1).last() == trade@);
        }
        out.insert(at, trade);
        assert(trade_views(out@) =~= trade_views(before).insert(at as int, trade@));
    }
    assert(given.take(given.len() as int) =~= given);
    out
}

/// The place at which a trade is put into an ordered list.
pub proof fn lemma_insert_place(sorted: Seq<TradeView>, trade: TradeView) -> (at: int)
    ensures
        0 <= at <= sorted.len(),
        inserted(sorted, trade) == sorted.insert(at, trade),
        at > 0 ==> sorted[at - 1].datetime.ordinal() <= trade.datetime.ordinal(),
        at < sorted.len() ==> sorted[at].datetime.ordinal() > trade.datetime.ordinal(),
    decreases sorted.len(),
{
    if sorted.len() == 0 {
        assert(sorted.insert(0, trade) =~= seq![trade]);
        0
    } else if sorted.last().datetime.ordinal() <= trade.datetime.ordinal() {
        assert(sorted.insert(sorted.len() as int, trade) =~= sorted.push(trade));
        sorted.len() as int
    } else {
        let front = sorted.drop_last();
        let at = lemma_insert_place(front, trade);
        assert(sorted.insert(at, trade) =~= front.insert(at, trade).push(sorted.last()));
        if at > 0 {
            assert(front[at - 1] == sorted[at - 1]);
        }
        if at < front.len() {
            assert(front[at] == sorted[at]);
        }
        at
    }
}

/// Putting a trade into an ordered list leaves it ordered.
pub proof fn lemma_inserted_ordered(sorted: Seq<TradeView>, trade: TradeView)
    requires
        ordered(sorted),
    ensures
        ordered(inserted(sorted, trade)),
{
    let at = lemma_insert_place(sorted, trade);
    let longer = sorted.insert(at, trade);
    assert forall|i: int, j: int| 0 <= i < j < longer.len() implies (
    #[trigger] longer[i]).datetime.ordinal() <= (#[trigger] longer[j]).datetime.ordinal() by {
        if j < at {
            assert(longer[i] == sorted[i] && longer[j] == sorted[j]);
        } else if j == at {
            assert(longer[i] == sorted[i]);
            assert(longer[j] == trade);
            if i < at - 1 {
                assert(sorted[i].datetime.ordinal() <= sorted[at - 1].datetime.ordinal());
            }
        } else if i < at {
            assert(longer[i] == sorted[i] && longer[j] == sorted[j - 1]);
        } else if i == at {
            assert(longer[i] == trade);
            assert(longer[j] == sorted[j - 1]);
            if at < j - 1 {
                assert(sorted[at].datetime.ordinal() <= sorted[j - 1].datetime.ordinal());
            }
        } else {
            assert(longer[i] == sorted[i - 1] && longer[j] == sorted[j - 1]);
        }
    }
}

/// The ledger is sorted: no trade comes before an earlier one.
pub proof fn lemma_sorted_is_ordered(trades: Seq<TradeView>)
    ensures
        ordered(sorted_by_time(trades)),
        sorted_by_time(trades).len() == trades.len(),
    decreases trades.len(),
{
    if trades.len() > 0 {
        lemma_sorted_is_ordered(trades.drop_last());
        lemma_inserted_ordered(sorted_by_time(trades.drop_last()), trades.last());
        lemma_insert_place(sorted_by_time(trades.drop_last()), trades.last());
    }
}

/// The trades made at one moment, in the order of the list.
pub open spec fn made_at(trades: Seq<TradeView>, moment: int) -> Seq<TradeView>
    decreases trades.len(),
{
    if trades.len() == 0 {
        Seq::empty()
    } else {
        let earlier = made_at(trades.drop_last(), moment);
        if trades.last().datetime.ordinal() == moment {
            earlier.push(trades.last())
        } else {
            earlier
        }
    }
}

/// A trade put into an ordered list comes behind those of its own moment.
pub proof fn lemma_inserted_made_at(sorted: Seq<TradeView>, trade: TradeView, moment: int)
    ensures
        made_at(inserted(sorted, trade), moment) == if trade.datetime.ordinal() == moment {
            made_at(sorted, moment).push(trade)
        } else {
            made_at(sorted, moment)
        },
    decreases sorted.len(),
{
    if sorted.len() == 0 {
        assert(seq![trade].drop_last() =~= Seq::<TradeView>::empty());
        assert(made_at(Seq::<TradeView>::empty(), moment) =~= Seq::<TradeView>::empty());
    } else if sorted.last().datetime.ordinal() <= trade.datetime.ordinal() {
        assert(sorted.push(trade).drop_last() =~= sorted);
    } else {
        let front = sorted.drop_last();
        lemma_inserted_made_at(front, trade, moment);
        assert(inserted(front, trade).push(sorted.last()).drop_last() =~= inserted(front, trade));
    }
}

/// Sorting is stable: the trades of any one moment stand in the ledger in
/// the order in which they were given, none lost and none added.
pub proof fn lemma_sorted_is_stable(trades: Seq<TradeView>, moment: int)
    ensures
        made_at(sorted_by_time(trades), moment) == made_at(trades, moment),
    decreases trades.len(),
{
    if trades.len() > 0 {
        lemma_sorted_is_stable(trades.drop_last(), moment);
        lemma_inserted_made_at(sorted_by_time(trades.drop_last()), trades.last(), moment);
    }
}

/// Sorting neither loses a trade nor adds one.
pub proof fn lemma_sorted_is_permutation(trades: Seq<TradeView>)
    ensures
        sorted_by_time(trades).to_multiset() == trades.to_multiset(),
    decreases trades.len(),
{
    if trades.len() > 0 {
        let front = trades.drop_last();
        lemma_sorted_is_permutation(front);
        let at = lemma_insert_place(sorted_by_time(front), trades.last());
        vstd::seq_lib::to_multiset_insert(sorted_by_time(front), at, trades.last());
        vstd::seq_lib::to_multiset_build(front, trades.last());
        assert(front.push(trades.last()) =~= trades);
        assert(sorted_by_time(trades).to_multiset() =~= trades.to_multiset());
    } else {
        assert(trades =~= Seq::<TradeView>::empty());
    }
}

/// A list that is in order already is left as it is.
pub proof fn lemma_sorted_keeps_ordered(trades: Seq<TradeView>)
    requires
        ordered(trades),
    ensures
        sorted_by_time(trades) == trades,
    decreases trades.len(),
{
    if trades.len() > 0 {
        let front = trades.drop_last();
        assert forall|i: int, j: int| 0 <= i < j < front.len() implies (
        #[trigger] front[i]).datetime.ordinal() <= (#[trigger] front[j]).datetime.ordinal() by {
            assert(front[i] == trades[i] && front[j] == trades[j]);
        }
        lemma_sorted_keeps_ordered(front);
        if front.len() > 0 {
            assert(front.last() == trades[front.len() - 1]);
            assert(trades.last() == trades[trades.len() - 1]);
        }
        assert(front.push(trades.last()) =~= trades);
    } else {
        assert(trades =~= Seq::<TradeView>::empty());
    }
}

/// Sorting twice is sorting once.
pub proof fn lemma_sorted_twice(trades: Seq<TradeView>)
    ensures
        sorted_by_time(sorted_by_time(trades)) == sorted_by_time(trades),
{
    lemma_sorted_is_ordered(trades);
    lemma_sorted_keeps_ordered(sorted_by_time(trades));
}

/// Joins the trades of two exchanges and orders them by time; trades of
/// the same moment keep their order, those of `first` before those of
/// `second`.
pub fn merge(first: Vec<Trade>, second: Vec<Trade>) -> (res: Vec<Trade>)
    ensures
        trade_views(res@) == sorted_by_time(trade_views(first@) + trade_views(second@)),
        ordered(trade_views(res@)),
        res@.len() == first@.len() + second@.len(),
{
    let mut all = first;
    let mut rest = second;
    all.append(&mut rest);
    proof {
        assert(trade_views(all@) =~= trade_views(first@) + trade_views(second@));
        lemma_sorted_is_ordered(trade_views(all@));
    }
    sort_by_time(all)
}

/// The ledger of a run, and the orders left out of it for want of a price.
#[derive(Clone, Debug, PartialEq, Eq)]
pub struct Ledger {
    pub trades: Vec<Trade>,
    pub warnings: Vec<Warning>,
}

/// A ledger as contracts speak of it.
pub struct LedgerView {
    pub trades: Seq<TradeView>,
    pub warnings: Seq<(Seq<char>, Seq<char>)>,
}

impl View for Ledger {
    type V = LedgerView;

    open spec fn view(&self) -> LedgerView {
        LedgerView { trades: trade_views(self.trades@), warnings: warning_views(self.warnings@) }
    }
}

/// The finished trades of a list of trades in the making, in order; an
/// error if the creation time of any of them cannot be read.
pub open spec fn finished(pending: Seq<Pending>) -> Result<Seq<TradeView>, Error>
    decreases pending.len(),
{
    if pending.len() == 0 {
        Ok(Seq::empty())
    } else {
        match finished(pending.drop_last()) {
            Err(e) => Err(e),
            Ok(done) => match datetime_parsed(pending.last().creation_time, "%+"@) {
                None => Err(Error::BadTimestamp),
                Some(when) => Ok(done.push(pending.last().finalized(when))),
            },
        }
    }
}

/// Once some first trades cannot be finished, neither can the whole list.
pub proof fn lemma_finished_error(pending: Seq<Pending>, k: int)
    requires
        0 <= k <= pending.len(),
        finished(pending.take(k)) is Err,
    ensures
        finished(pending) == finished(pending.take(k)),
    decreases pending.len() - k,
{
    if k == pending.len() {
        assert(pending.take(k) =~= pending);
    } else {
        assert(pending.drop_last().take(k) =~= pending.take(k));
        lemma_finished_error(pending.drop_last(), k);
    }
}

/// Finishes every trade of an activity log.
pub fn finish(pending: Vec<crate::btc_markets::Trade>) -> (res: Result<Vec<Trade>, Error>)
    ensures
        match finished(pending_views(pending@)) {
            Ok(done) => res matches Ok(trades) && trade_views(trades@) == done,
            Err(e) => res matches Err(f) && f == e,
        },
{
    let ghost given = pending_views(pending@);
    let mut trades: Vec<Trade> = Vec::new();
    proof {
        assert(given.take(0) =~= Seq::<Pending>::empty());
        assert(trade_views(trades@) =~= Seq::<TradeView>::empty());
    }
    for trade in it: pending
        invariant
            given == pending_views(it.seq()),
            finished(given.take(it.index() as int)) == Ok::<Seq<TradeView>, Error>(
                trade_views(trades@),
            ),
    {
        let ghost before = trades@;
        let ghost done = it.index() as int;
        proof {
            assert(given.take(done + 1).drop_last() =~= given.take(done));
            assert(given.take(done + 1).last() == trade@);
        }
        match trade.into_common() {
            Ok(common) => {
                trades.push(common);
                assert(trade_views(trades@) =~= trade_views(before).push(common@));
            },
            Err(e) => {
                proof {
                    lemma_finished_error(given, done + 1);
                }
                return Err(e);
            },
        }
    }
    assert(given.take(given.len() as int) =~= given);
    Ok(trades)
}

/// What a run comes to: the trades of the activity log, then those of the
/// orders, ordered by time; the error of whichever step fails first.
pub open spec fn ledger_of(
    activity: Seq<crate::btc_markets::Row>,
    orders: Seq<crate::bittrex::Row>,
    table: Map<Seq<char>, Map<i32, Option<Amount>>>,
) -> Result<LedgerView, Error> {
    match crate::btc_markets::loaded(activity) {
        Err(e) => Err(e),
        Ok(pending) => match finished(pending) {
            Err(e) => Err(e),
            Ok(first) => match crate::bittrex::loaded(orders, table) {
                Err(e) => Err(e),
                Ok(second) => Ok(
                    LedgerView {
                        trades: sorted_by_time(first + second.trades),
                        warnings: second.warnings,
                    },
                ),
            },
        },
    }
}

/// Whether a run ended as expected, texts compared by their characters.
pub open spec fn ledger_is(res: Result<Ledger, Error>, expected: Result<LedgerView, Error>)
    -> bool {
    match expected {
        Ok(view) => res matches Ok(ledger) && ledger@ == view,
        Err(e) => res matches Err(f) && f == e,
    }
}

/// Reconciles the exports of both exchanges into one ledger.
pub fn reconcile(
    activity: &Vec<crate::btc_markets::Row>,
    orders: &Vec<crate::bittrex::Row>,
    price_hists: &PriceHists,
) -> (res: Result<Ledger, Error>)
    ensures
        ledger_is(res, ledger_of(activity@, orders@, price_hists@)),
        res matches Ok(ledger) ==> ordered(trade_views(ledger.trades@)),
{
    let pending = match crate::btc_markets::load_csv(activity) {
        Ok(pending) => pending,
        Err(e) => {
            return Err(e);
        },
    };
    let first = match finish(pending) {
        Ok(first) => first,
        Err(e) => {
            return Err(e);
        },
    };
    let second = match crate::bittrex::load_csv(orders, price_hists) {
        Ok(second) => second,
        Err(e) => {
            return Err(e);
        },
    };
    let trades = merge(first, second.trades);
    Ok(Ledger { trades, warnings: second.warnings })
}

/// Two runs on the same inputs end alike: with the same trades in the same
/// order and the same warnings, or with the same error.
pub proof fn lemma_reconcile_repeatable(
    activity: Seq<crate::btc_markets::Row>,
    orders: Seq<crate::bittrex::Row>,
    table: Map<Seq<char>, Map<i32, Option<Amount>>>,
    first: Result<Ledger, Error>,
    second: Result<Ledger, Error>,
)
    requires
        ledger_is(first, ledger_of(activity, orders, table)),
        ledger_is(second, ledger_of(activity, orders, table)),
    ensures
        match (first, second) {
            (Ok(a), Ok(b)) => a@ == b@,
            (Err(e), Err(f)) => e == f,
            _ => false,
        },
{
}

/// The ledger of a run is sorted: of two adjacent rows the first is not the
/// later one.
pub proof fn lemma_ledger_sorted(
    activity: Seq<crate::btc_markets::Row>,
    orders: Seq<crate::bittrex::Row>,
    table: Map<Seq<char>, Map<i32, Option<Amount>>>,
    ledger: LedgerView,
    i: int,
)
    requires
        ledger_of(activity, orders, table) == Ok::<LedgerView, Error>(ledger),
        0 <= i,
        i + 1 < ledger.trades.len(),
    ensures
        ledger.trades[i].datetime.ordinal() <= ledger.trades[i + 1].datetime.ordinal(),
{
    match (crate::btc_markets::loaded(activity), crate::bittrex::loaded(orders, table)) {
        (Ok(pending), Ok(second)) => match finished(pending) {
            Ok(first) => {
                lemma_sorted_is_ordered(first + second.trades);
            },
            Err(_) => {},
        },
        _ => {},
    }
}

} // verus!
