//! Discount-priced, maturity-bearing obligations ("bills"): a series
//! lifecycle engine with linear-accretion pricing, a per-series fungible
//! bill ledger with restricted mint and burn, an over-collateralized repo
//! market, and protocol-wide accounting.
//!
//! The surrounding runtime (persistent storage, caller authentication, the
//! clock, the settlement-currency payment rail, and event delivery) is an
//! external collaborator: every operation here takes the current time and
//! the already-authenticated parties as plain values and works on owned
//! tables, so the whole of the logic is verified.

pub mod bill_token;
pub mod pricing;
pub mod repo;
pub mod vault;
pub mod yield_calc;
