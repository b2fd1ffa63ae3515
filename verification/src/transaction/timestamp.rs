//! Commit timestamps and transaction identifiers share one number line: numbers below
//! [`Timestamp::TXN_ID_START`] are commit timestamps, the others identify running transactions.

use vstd::prelude::*;

verus! {

#[derive(Clone, Copy, Debug, PartialEq, Eq, PartialOrd, Ord, Hash, Structural)]
pub struct Timestamp(pub u64);

impl Timestamp {
    /// The first transaction identifier.
    pub const TXN_ID_START: u64 = 0x8000_0000_0000_0000;

    pub open spec fn spec_is_txn_id(self) -> bool {
        self.0 >= Timestamp::TXN_ID_START
    }

    pub open spec fn spec_is_commit_ts(self) -> bool {
        self.0 < Timestamp::TXN_ID_START
    }

    pub fn with_ts(ts: u64) -> (r: Timestamp)
        ensures
            r == Timestamp(ts),
    {
        Timestamp(ts)
    }

    pub fn raw(&self) -> (r: u64)
        ensures
            r == self.0,
    {
        self.0
    }

    pub fn is_txn_id(&self) -> (r: bool)
        ensures
            r == self.spec_is_txn_id(),
    {
        self.0 >= Timestamp::TXN_ID_START
    }

    pub fn is_commit_ts(&self) -> (r: bool)
        ensures
            r == self.spec_is_commit_ts(),
    {
        self.0 < Timestamp::TXN_ID_START
    }

    /// The last commit timestamp.
    pub fn max_commit_ts() -> (r: Timestamp)
        ensures
            r == Timestamp::spec_max_commit_ts(),
    {
        Timestamp(Timestamp::TXN_ID_START - 1)
    }

    pub open spec fn spec_max_commit_ts() -> Timestamp {
        Timestamp((Timestamp::TXN_ID_START - 1) as u64)
    }

    pub open spec fn spec_earlier(self, other: Timestamp) -> Timestamp {
        if self.0 <= other.0 {
            self
        } else {
            other
        }
    }

    pub open spec fn spec_later(self, other: Timestamp) -> Timestamp {
        if self.0 >= other.0 {
            self
        } else {
            other
        }
    }

    /// The smaller of two timestamps.
    pub fn earlier(self, other: Timestamp) -> (r: Timestamp)
        ensures
            r == self.spec_earlier(other),
    {
        if self.0 <= other.0 {
            self
        } else {
            other
        }
    }

    /// The greater of two timestamps.
    pub fn later(self, other: Timestamp) -> (r: Timestamp)
        ensures
            r == self.spec_later(other),
    {
        if self.0 >= other.0 {
            self
        } else {
            other
        }
    }
}

#[derive(Clone, Copy, Debug, PartialEq, Eq, Structural)]
pub enum TimestampError {
    /// Every commit timestamp has been handed out.
    CommitTsOverflow(u64),
    /// A transaction identifier was given where a commit timestamp belongs.
    NotACommitTs(u64),
}

/// Hands out commit timestamps in increasing order.
#[derive(Clone, Copy, Debug, PartialEq, Eq, Structural)]
pub struct TimestampGenerator {
    /// The next timestamp.
    pub counter: u64,
}

impl TimestampGenerator {
    pub fn new() -> (r: TimestampGenerator)
        ensures
            r.counter == 1,
    {
        TimestampGenerator { counter: 1 }
    }

    /// The next commit timestamp; each call that succeeds returns a greater one.
    pub fn next(&mut self) -> (r: Result<Timestamp, TimestampError>)
        ensures
            old(self).counter < Timestamp::TXN_ID_START ==> r == Ok::<Timestamp, TimestampError>(
                Timestamp(old(self).counter),
            ) && final(self).counter == old(self).counter + 1,
            old(self).counter >= Timestamp::TXN_ID_START ==> r == Err::<Timestamp, TimestampError>(
                TimestampError::CommitTsOverflow(old(self).counter),
            ) && *final(self) == *old(self),
    {
        if self.counter >= Timestamp::TXN_ID_START {
            return Err(TimestampError::CommitTsOverflow(self.counter));
        }
        let ts = Timestamp(self.counter);
        self.counter = self.counter + 1;
        Ok(ts)
    }

    /// Makes every later timestamp greater than `ts`.
    pub fn update_if_greater(&mut self, ts: Timestamp) -> (r: Result<(), TimestampError>)
        ensures
            ts.spec_is_commit_ts() ==> r == Ok::<(), TimestampError>(()) && final(self).counter
                == if old(self).counter > ts.0 {
                old(self).counter as int
            } else {
                ts.0 + 1
            },
            ts.spec_is_txn_id() ==> r == Err::<(), TimestampError>(
                TimestampError::NotACommitTs(ts.0),
            ) && *final(self) == *old(self),
    {
        if !ts.is_commit_ts() {
            return Err(TimestampError::NotACommitTs(ts.0));
        }
        if self.counter <= ts.0 {
            self.counter = ts.0 + 1;
        }
        Ok(())
    }
}

} // verus!
