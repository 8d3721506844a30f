//! Calendar dates and points in time, read from text by `chrono`.

use vstd::prelude::*;

verus! {

/// A calendar day, counted from 1 January of the year 1, which is day 1.
#[derive(Clone, Copy, Debug, PartialEq, Eq, Structural)]
pub struct Date {
    pub days: i32,
}

/// A day and a time of day, without a time zone.
#[derive(Clone, Copy, Debug, PartialEq, Eq, Structural)]
pub struct Timestamp {
    /// The day, counted as in [`Date`].
    pub days: i32,
    /// Whole seconds since midnight.
    pub secs: u32,
    /// Nanoseconds since the whole second.
    pub nanos: u32,
}

/// What `chrono` reads from `text` as a date and time under `format`.
pub uninterp spec fn datetime_parsed(text: Seq<char>, format: Seq<char>) -> Option<Timestamp>;

/// What `chrono` reads from `text` as a date under `format`.
pub uninterp spec fn date_parsed(text: Seq<char>, format: Seq<char>) -> Option<Date>;

/// Calls `chrono::NaiveDateTime::parse_from_str`.
///
/// The result depends on the two strings alone. A success is handed out as
/// the day number, the seconds since midnight and the nanoseconds that
/// `chrono` reports for the value; every failure becomes `None`.
#[verifier::external_body]
pub(crate) fn parse_datetime(text: &str, format: &str) -> (res: Option<Timestamp>)
    ensures
        res == datetime_parsed(text@, format@),
{
    match chrono::NaiveDateTime::parse_from_str(text, format) {
        Ok(moment) => Some(
            Timestamp {
                days: chrono::Datelike::num_days_from_ce(&moment),
                secs: chrono::Timelike::num_seconds_from_midnight(&moment),
                nanos: chrono::Timelike::nanosecond(&moment),
            },
        ),
        Err(_) => None,
    }
}

/// Calls `chrono::NaiveDate::parse_from_str`.
///
/// The result depends on the two strings alone. A success is handed out as
/// the day number that `chrono` reports; every failure becomes `None`.
#[verifier::external_body]
pub(crate) fn parse_date(text: &str, format: &str) -> (res: Option<Date>)
    ensures
        res == date_parsed(text@, format@),
{
    match chrono::NaiveDate::parse_from_str(text, format) {
        Ok(day) => Some(Date { days: chrono::Datelike::num_days_from_ce(&day) }),
        Err(_) => None,
    }
}

/// What `chrono` writes for a moment under `format`; nothing for a moment
/// outside the dates and times that `chrono` can hold.
pub uninterp spec fn datetime_formatted(when: Timestamp, format: Seq<char>) -> Option<Seq<char>>;

/// The form in which the ledger states its times.
pub open spec fn ledger_format() -> Seq<char> {
    "%Y-%m-%d %H:%M:%S"@
}

/// Calls `chrono`'s `NaiveDateTime::format` and the `to_string` of what it
/// returns, on the value that `NaiveDate::from_num_days_from_ce_opt` and
/// `NaiveTime::from_num_seconds_from_midnight_opt` make of the three numbers.
///
/// The result depends on the arguments alone; it is `None` where either of
/// the two constructors refuses its numbers. The format is required to be
/// the ledger's, which `chrono` accepts: it would panic on a malformed one.
#[verifier::external_body]
pub(crate) fn format_datetime(when: Timestamp, format: &str) -> (res: Option<String>)
    requires
        format@ == ledger_format(),
    ensures
        match datetime_formatted(when, format@) {
            Some(text) => res matches Some(found) && found@ == text,
            None => res is None,
        },
{
    let day = chrono::NaiveDate::from_num_days_from_ce_opt(when.days)?;
    let time = chrono::NaiveTime::from_num_seconds_from_midnight_opt(when.secs, when.nanos)?;
    Some(day.and_time(time).format(format).to_string())
}

impl Timestamp {
    /// Position on the time line: later moments have larger ordinals, and
    /// two moments with the same ordinal are the same moment.
    pub open spec fn ordinal(self) -> int {
        (self.days as int) * 0x1_0000_0000_0000_0000 + (self.secs as int) * 0x1_0000_0000
            + self.nanos as int
    }

    /// The calendar day of this moment.
    pub fn date(self) -> (res: Date)
        ensures
            res.days == self.days,
    {
        Date { days: self.days }
    }

    /// Whether this moment is not later than `other`.
    pub fn at_or_before(self, other: Timestamp) -> (res: bool)
        ensures
            res == (self.ordinal() <= other.ordinal()),
    {
        if self.days != other.days {
            self.days < other.days
        } else if self.secs != other.secs {
            self.secs < other.secs
        } else {
            self.nanos <= other.nanos
        }
    }
}

} // verus!
