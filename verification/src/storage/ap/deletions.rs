//! Which edges have been deleted, and when.

use vstd::prelude::*;
use std::collections::HashMap;
use crate::common::types::EdgeId;
use crate::storage::ap::model::{
    any_seen, deletion_stamps, sees, stamps_promoted, stamps_without, Deletions, Reader,
};
use crate::transaction::Timestamp;

verus! {

broadcast use vstd::std_specs::hash::group_hash_axioms;

/// The stamps of the deletions of every edge: the marks of the running transactions that have
/// deleted it, and the times at which deletions of it were committed.
#[derive(Debug)]
pub struct DeletionLog {
    pub stamps: HashMap<EdgeId, Vec<Timestamp>>,
}

impl View for DeletionLog {
    type V = Deletions;

    open spec fn view(&self) -> Deletions {
        self.stamps@.map_values(|stamps: Vec<Timestamp>| stamps@)
    }
}

/// Whether a reader sees a timestamp.
pub fn sees_ts(ts: Timestamp, txn_id: Option<Timestamp>, start_ts: Timestamp) -> (r: bool)
    ensures
        r == sees(ts, txn_id, start_ts),
{
    if ts.is_txn_id() {
        Some(ts) == txn_id
    } else {
        ts.raw() <= start_ts.raw()
    }
}

impl DeletionLog {
    /// A log without deletions.
    pub fn new() -> (r: DeletionLog)
        ensures
            r@ == Map::<EdgeId, Seq<Timestamp>>::empty(),
    {
        let r = DeletionLog { stamps: HashMap::new() };
        assert(r@ =~= Map::empty());
        r
    }

    /// The stamps of the deletions of an edge, copied out.
    fn copied(&self, eid: EdgeId) -> (r: Vec<Timestamp>)
        ensures
            r@ == deletion_stamps(self@, eid),
    {
        let mut r: Vec<Timestamp> = Vec::new();
        if let Some(stamps) = self.stamps.get(&eid) {
            let mut i: usize = 0;
            while i < stamps.len()
                invariant
                    i <= stamps.len(),
                    r@ == stamps@.take(i as int),
                decreases stamps.len() - i,
            {
                r.push(stamps[i]);
                i = i + 1;
                assert(r@ =~= stamps@.take(i as int));
            }
            assert(stamps@.take(i as int) =~= stamps@);
        }
        r
    }

    /// Replaces the stamps of an edge.
    fn store(&mut self, eid: EdgeId, stamps: Vec<Timestamp>)
        ensures
            final(self)@ == old(self)@.insert(eid, stamps@),
    {
        self.stamps.insert(eid, stamps);
        assert(self@ =~= old(self)@.insert(eid, stamps@));
    }

    /// Records one more deletion of an edge.
    pub fn mark(&mut self, eid: EdgeId, ts: Timestamp)
        ensures
            final(self)@ == old(self)@.insert(eid, deletion_stamps(old(self)@, eid).push(ts)),
    {
        let mut stamps = self.copied(eid);
        stamps.push(ts);
        self.store(eid, stamps);
    }

    /// Commits the deletions of an edge by a transaction.
    pub fn promote(&mut self, eid: EdgeId, txn_id: Timestamp, commit_ts: Timestamp)
        ensures
            final(self)@ == old(self)@.insert(
                eid,
                stamps_promoted(deletion_stamps(old(self)@, eid), txn_id, commit_ts),
            ),
    {
        let stamps = self.copied(eid);
        let mut r: Vec<Timestamp> = Vec::new();
        let mut i: usize = 0;
        while i < stamps.len()
            invariant
                i <= stamps.len(),
                r.len() == i,
                forall|k: int|
                    0 <= k < i ==> #[trigger] r@[k] == stamps_promoted(
                        stamps@,
                        txn_id,
                        commit_ts,
                    )[k],
            decreases stamps.len() - i,
        {
            if stamps[i] == txn_id {
                r.push(commit_ts);
            } else {
                r.push(stamps[i]);
            }
            i = i + 1;
        }
        assert(r@ =~= stamps_promoted(stamps@, txn_id, commit_ts));
        self.store(eid, r);
    }

    /// Takes back the deletions of an edge by a transaction.
    pub fn revert(&mut self, eid: EdgeId, txn_id: Timestamp)
        ensures
            final(self)@ == old(self)@.insert(
                eid,
                stamps_without(deletion_stamps(old(self)@, eid), txn_id),
            ),
    {
        let stamps = self.copied(eid);
        let mut r: Vec<Timestamp> = Vec::new();
        assert(stamps@.take(0) =~= Seq::empty());
        proof {
            reveal(Seq::filter);
        }
        let mut i: usize = 0;
        while i < stamps.len()
            invariant
                i <= stamps.len(),
                r@ == stamps_without(stamps@.take(i as int), txn_id),
            decreases stamps.len() - i,
        {
            proof {
                reveal(Seq::filter);
                assert(stamps@.take(i + 1).drop_last() =~= stamps@.take(i as int));
            }
            if stamps[i] != txn_id {
                r.push(stamps[i]);
            }
            i = i + 1;
        }
        assert(stamps@.take(i as int) =~= stamps@);
        self.store(eid, r);
    }

    /// Whether an edge has been deleted, for a reader.
    pub fn hides(&self, eid: EdgeId, reader: Reader) -> (r: bool)
        ensures
            r == (match reader {
                Reader::At { txn_id, start_ts } => any_seen(
                    deletion_stamps(self@, eid),
                    txn_id,
                    start_ts,
                ),
                Reader::Committed => deletion_stamps(self@, eid).len() > 0,
            }),
    {
        let stamps = match self.stamps.get(&eid) {
            Some(stamps) => stamps,
            None => {
                return false;
            },
        };
        assert(stamps@ == deletion_stamps(self@, eid));
        match reader {
            Reader::Committed => stamps.len() > 0,
            Reader::At { txn_id, start_ts } => {
                let mut i: usize = 0;
                while i < stamps.len()
                    invariant
                        i <= stamps.len(),
                        stamps@ == deletion_stamps(self@, eid),
                        reader == (Reader::At { txn_id, start_ts }),
                        forall|k: int|
                            0 <= k < i ==> !sees(#[trigger] stamps@[k], txn_id, start_ts),
                    decreases stamps.len() - i,
                {
                    if sees_ts(stamps[i], txn_id, start_ts) {
                        assert(sees(deletion_stamps(self@, eid)[i as int], txn_id, start_ts));
                        return true;
                    }
                    i = i + 1;
                }
                false
            },
        }
    }
}

} // verus!
