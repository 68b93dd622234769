//! Single-instrument exchange core: an order book that matches market buys
//! against limit sells, and a ledger that turns each match into order fills
//! and balance changes with an append-only history.
//!
//! Quantities and prices are integers in the smallest unit of their asset:
//! a quantity counts base-asset units, a price counts quote-asset units per
//! base-asset unit, and timestamps are nanoseconds since the Unix epoch.

pub mod table;

pub mod orders;
pub mod matcher;
pub mod assets;
pub mod accounts;
pub mod storage;
pub mod ledger;
pub mod audit;
