//! An indexed work queue with an offchain dispatch loop.
//!
//! Producers append payloads to per-method, strictly numbered slots; a consumer drains
//! the slots between two progress cursors and hands each decoded item to a handler.

pub mod cursors;
pub mod decimal;
pub mod dispatch;
pub mod keys;
pub mod ledger;
pub mod model;
pub mod pallet;
pub mod registry;
pub mod scale;
pub mod store;
