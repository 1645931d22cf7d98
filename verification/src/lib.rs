//! An on-chain treasury ledger.
//!
//! The crate keeps per-organization bank accounts whose balance is split
//! between `free` and `reserved` funds, and mediates a two-phase spend
//! protocol (reserve, then commit or uncommit) gated by organizational
//! governance permissions.
//!
//! * [`types`] holds the identifiers, permission descriptors, errors and
//!   events shared by the other modules.
//! * [`gate`] models the governance/membership registry and the pure
//!   authorization predicates consulted before every funds-moving operation.
//! * [`external`] models the external spendable-balance ledger that
//!   registration and deposits debit.
//! * [`bank`] is the treasury ledger itself: the account and reservation
//!   store and its five state-transition operations.

pub mod bank;
pub mod external;
pub mod gate;
pub mod types;
