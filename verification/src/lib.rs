//! An in-memory inventory ledger: products grouped by name, with
//! append-only sales and purchase logs.
//!
//! The ledger state is modelled by [`model::LedgerView`]; every mutating
//! operation of [`ledger::Inventory`] is specified as a pure transition on
//! that model, and [`laws`] proves the properties that relate several
//! operations.

pub mod errors;
pub mod items;
pub mod model;
pub mod ledger;
pub mod laws;
