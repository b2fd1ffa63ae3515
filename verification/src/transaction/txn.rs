//! Transaction options and the interface of a transaction.

use vstd::prelude::*;
use super::timestamp::Timestamp;

verus! {

/// Isolation level of a transaction.
#[derive(Clone, Copy, Debug, PartialEq, Eq, Structural)]
pub enum IsolationLevel {
    /// Reads see one consistent snapshot.
    Snapshot,
    /// Full serializability.
    Serializable,
}

/// Lock strategy of a transaction.
/// - `Pessimistic` checks for conflicts when a write is applied.
/// - `Optimistic` defers conflict detection to the validation of write sets at commit.
#[derive(Clone, Copy, Debug, PartialEq, Eq, Structural)]
pub enum LockStrategy {
    Pessimistic,
    Optimistic,
}

/// Transaction behaviour shared by the storage implementations.
#[derive(Clone, Copy, Debug, PartialEq, Eq, Structural)]
pub struct TxnOptions {
    /// Lock strategy used when a caller does not choose one.
    pub default_lock: LockStrategy,
    /// Isolation level used when a caller does not choose one.
    pub default_isolation: IsolationLevel,
}

impl Default for TxnOptions {
    fn default() -> (r: Self)
        ensures
            r.default_lock == LockStrategy::Pessimistic,
            r.default_isolation == IsolationLevel::Snapshot,
    {
        TxnOptions {
            default_lock: LockStrategy::Pessimistic,
            default_isolation: IsolationLevel::Snapshot,
        }
    }
}

/// What every transaction answers about itself.
pub trait Transaction {
    spec fn spec_txn_id(&self) -> Timestamp;

    spec fn spec_start_ts(&self) -> Timestamp;

    spec fn spec_commit_ts(&self) -> Option<Timestamp>;

    spec fn spec_isolation_level(&self) -> IsolationLevel;

    fn txn_id(&self) -> (r: Timestamp)
        ensures
            r == self.spec_txn_id(),
    ;

    fn start_ts(&self) -> (r: Timestamp)
        ensures
            r == self.spec_start_ts(),
    ;

    /// The commit timestamp, once there is one.
    fn commit_ts(&self) -> (r: Option<Timestamp>)
        ensures
            r == self.spec_commit_ts(),
    ;

    fn isolation_level(&self) -> (r: &IsolationLevel)
        ensures
            *r == self.spec_isolation_level(),
    ;
}

} // verus!
