//! Reconciliation of cryptocurrency exchange exports into one ledger of
//! trades valued in Australian dollars.
//!
//! Amounts are exact fixed-point decimals, so every rule of the
//! reconciliation is stated over integers and proved.

pub mod amount;
pub mod bittrex;
pub mod btc_markets;
pub mod coin_gecko;
pub mod decimal;
pub mod error;
pub mod ledger;
pub mod moment;
pub mod text;
pub mod trade;
