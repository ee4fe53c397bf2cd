//! Aggregation of per-account cloud spend into one comparative report.
//!
//! Amounts are integers in a fixed minor unit that the caller chooses (for instance
//! millionths of a currency unit), so that every sum is exact and does not depend on
//! the order in which it is taken. The cost of a service may be negative, where
//! credits outweigh it; the total of an account's summary is never negative.

pub mod text;
pub mod date;
pub mod table;
pub mod summary;
pub mod ranking;
pub mod report;
pub mod gathering;
pub mod aws;
pub mod access;
pub mod accounts;
