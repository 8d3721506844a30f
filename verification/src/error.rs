//! The failures that stop a reconciliation.

use vstd::prelude::*;

verus! {

/// Why an input could not be reconciled.
#[derive(Clone, Copy, Debug, PartialEq, Eq, Structural)]
pub enum Error {
    /// A price history row whose date is not `YYYY-MM-DD`.
    BadDate,
    /// A creation or closing time in none of the accepted formats.
    BadTimestamp,
    /// A market name that is not two currency symbols joined by `-`.
    BadPair,
    /// An order type other than `LIMIT_BUY` and `LIMIT_SELL`.
    UnknownOrderType,
    /// A record type other than `Trade` and `Fund Transfer`.
    UnknownRecordType,
    /// A row whose reference differs from the one its group began with.
    ReferenceMismatch { expected: u32, found: u32 },
    /// A row that would change the currency of a leg already begun.
    CurrencyMismatch { reference_id: u32 },
    /// A fee in a currency that is on neither leg of its trade.
    UnmatchedFee { reference_id: u32 },
    /// A sum or product too large to be held.
    AmountOverflow,
}

/// The three classes of failure.
#[derive(Clone, Copy, Debug, PartialEq, Eq, Structural)]
pub enum ErrorKind {
    /// The input does not have the agreed form.
    Schema,
    /// The rows of one transaction contradict each other.
    Consistency,
    /// A number left the range that can be represented.
    Range,
}

impl Error {
    pub open spec fn kind_of(self) -> ErrorKind {
        match self {
            Error::BadDate
            | Error::BadTimestamp
            | Error::BadPair
            | Error::UnknownOrderType
            | Error::UnknownRecordType => ErrorKind::Schema,
            Error::ReferenceMismatch { .. }
            | Error::CurrencyMismatch { .. }
            | Error::UnmatchedFee { .. } => ErrorKind::Consistency,
            Error::AmountOverflow => ErrorKind::Range,
        }
    }

    /// The class this failure belongs to.
    pub fn kind(self) -> (res: ErrorKind)
        ensures
            res == self.kind_of(),
    {
        match self {
            Error::BadDate => ErrorKind::Schema,
            Error::BadTimestamp => ErrorKind::Schema,
            Error::BadPair => ErrorKind::Schema,
            Error::UnknownOrderType => ErrorKind::Schema,
            Error::UnknownRecordType => ErrorKind::Schema,
            Error::ReferenceMismatch { .. } => ErrorKind::Consistency,
            Error::CurrencyMismatch { .. } => ErrorKind::Consistency,
            Error::UnmatchedFee { .. } => ErrorKind::Consistency,
            Error::AmountOverflow => ErrorKind::Range,
        }
    }
}

} // verus!
