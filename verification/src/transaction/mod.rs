//! Timestamps, transaction options and the transaction interface.

pub mod timestamp;
pub mod txn;

pub use timestamp::{Timestamp, TimestampError, TimestampGenerator};
pub use txn::{IsolationLevel, LockStrategy, Transaction, TxnOptions};
