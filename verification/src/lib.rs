//! A batch ledger-replay engine: transaction records (deposits, withdrawals,
//! disputes, resolutions, chargebacks) keyed by client account are applied
//! against an in-memory per-account ledger, and a final snapshot of every
//! account's balances and lock state is produced.

pub mod amount;
pub mod csv;
pub mod model;
pub mod registry;
pub mod transaction;
