//! A table-side restaurant ordering core: tables and menu items are
//! registered once, and each table carries at most one open order whose
//! lines merge repeated requests for the same menu item into a single
//! quantity-bearing line with an aggregate cooking time.

pub mod arith;
pub mod catalog;
pub mod closure;
pub mod estimator;
pub mod laws;
pub mod ledger;
pub mod models;
pub mod queries;
pub mod resolve;
