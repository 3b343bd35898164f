//! A ledger that replays deposits, withdrawals and the dispute protocol
//! into per-client balances.
pub mod decimal;
pub mod transaction;
pub mod account;
pub mod transaction_processor;
