//! Walks over all edges, block by block.

use vstd::prelude::*;
use crate::storage::ap::model::{no_gaps, Reader, StorageModel};
use crate::storage::ap::olap_graph::OlapStorage;
use crate::storage::ap::transaction::MemTransaction;
use crate::storage::ap::types::{OlapEdge, BLOCK_CAPACITY};
use crate::storage::error::StorageResult;
use crate::transaction::Timestamp;

verus! {

impl StorageModel {
    /// The slots that a walk over all edges still has to give, from a slot on. The walk leaves a
    /// block that is buried, and a block at its first unused slot; it steps over edges that the
    /// reader does not see.
    pub open spec fn edges_from(self, reader: Reader, b: int, offset: int) -> Seq<(usize, usize)>
        decreases self.blocks.len() - b, BLOCK_CAPACITY - offset,
    {
        if b < 0 || b >= self.blocks.len() {
            Seq::empty()
        } else if self.blocks[b].is_tombstone || offset >= BLOCK_CAPACITY
            || self.blocks[b].edges[offset].eid == 0 {
            self.edges_from(reader, b + 1, 0)
        } else {
            let rest = self.edges_from(reader, b, offset + 1);
            if self.slot_seen(self.blocks[b].edges[offset], reader) {
                seq![(b as usize, offset as usize)] + rest
            } else {
                rest
            }
        }
    }
}

/// What one step of a walk returns and leaves: the edge in the first of the slots that are left,
/// or nothing where none is left.
pub open spec fn walk_step(
    storage: StorageModel,
    reader: Reader,
    left: Seq<(usize, usize)>,
    r: Option<StorageResult<OlapEdge>>,
    left_after: Seq<(usize, usize)>,
) -> bool {
    if left.len() == 0 {
        r is None && left_after == left
    } else {
        &&& r matches Some(Ok(edge)) && edge@ == storage.edge_at(left[0], reader)
        &&& left_after == left.drop_first()
    }
}

/// Advances a walk over all edges to its next slot and past it.
fn step_edges(storage: &OlapStorage, reader: Reader, block_idx: usize, offset: usize) -> (r: (
    Option<(usize, usize)>,
    usize,
    usize,
))
    requires
        storage@.wf(),
        offset <= BLOCK_CAPACITY,
    ensures
        r.2 <= BLOCK_CAPACITY,
        ({
            let left = storage@.edges_from(reader, block_idx as int, offset as int);
            let left_after = storage@.edges_from(reader, r.1 as int, r.2 as int);
            if left.len() == 0 {
                r.0 is None && left_after == left
            } else {
                &&& r.0 == Some(left[0])
                &&& left_after == left.drop_first()
                &&& left[0].0 < storage@.blocks.len() && left[0].1 < BLOCK_CAPACITY
            }
        }),
{
    let mut b: usize = block_idx;
    let mut o: usize = offset;
    let ghost left = storage@.edges_from(reader, block_idx as int, offset as int);
    while b < storage.edges.len()
        invariant
            storage@.wf(),
            o <= BLOCK_CAPACITY,
            left == storage@.edges_from(reader, block_idx as int, offset as int),
            left == storage@.edges_from(reader, b as int, o as int),
        decreases storage.edges.len() - b, BLOCK_CAPACITY - o,
    {
        let block = &storage.edges[b];
        assert(storage@.blocks[b as int] == block@);
        assert(storage@.blocks[b as int].wf());
        if block.is_tombstone || o == BLOCK_CAPACITY || block.edges[o].eid == 0 {
            b = b + 1;
            o = 0;
            continue;
        }
        let slot = block.edges[o];
        let given = storage.sees_slot(&slot, reader);
        if given {
            assert(left =~= seq![(b, o)] + storage@.edges_from(reader, b as int, o + 1));
            assert(left[0] == (b, o));
            assert(storage@.blocks.len() == storage.edges.len());
            assert(left.drop_first() =~= storage@.edges_from(reader, b as int, o + 1));
            return (Some((b, o)), b, o + 1);
        }
        o = o + 1;
    }
    (None, b, o)
}

/// Walks over all edges, whoever wrote them, with their newest committed properties.
pub struct EdgeIter<'a> {
    pub storage: &'a OlapStorage,
    /// Index of the current block.
    pub block_idx: usize,
    /// Offset within the block.
    pub offset: usize,
}

impl<'a> EdgeIter<'a> {
    /// The slots that are left.
    pub open spec fn left(&self) -> Seq<(usize, usize)> {
        self.storage@.edges_from(Reader::Committed, self.block_idx as int, self.offset as int)
    }

    /// The next edge.
    pub fn next(&mut self) -> (r: Option<StorageResult<OlapEdge>>)
        requires
            old(self).storage@.wf(),
            old(self).offset <= BLOCK_CAPACITY,
            old(self).left().len() > 0 ==> no_gaps(
                old(self).storage@.columns,
                old(self).left()[0],
                Reader::Committed,
            ),
        ensures
            *final(self).storage == *old(self).storage,
            final(self).offset <= BLOCK_CAPACITY,
            walk_step(
                old(self).storage@,
                Reader::Committed,
                old(self).left(),
                r,
                final(self).left(),
            ),
    {
        let (found, b, o) = step_edges(
            self.storage,
            Reader::Committed,
            self.block_idx,
            self.offset,
        );
        self.block_idx = b;
        self.offset = o;
        match found {
            Some(location) => {
                assert(self.storage@.blocks[location.0 as int].wf());
                Some(Ok(self.storage.edge_for(location, Reader::Committed)))
            },
            None => None,
        }
    }
}

/// Walks over the edges that a snapshot sees, with the properties that it sees.
pub struct EdgeIterAtTs<'a> {
    pub storage: &'a OlapStorage,
    /// Index of the current block.
    pub block_idx: usize,
    /// Offset within the block.
    pub offset: usize,
    pub txn_id: Option<Timestamp>,
    pub start_ts: Timestamp,
}

impl<'a> EdgeIterAtTs<'a> {
    pub open spec fn reader(&self) -> Reader {
        Reader::At { txn_id: self.txn_id, start_ts: self.start_ts }
    }

    /// The slots that are left.
    pub open spec fn left(&self) -> Seq<(usize, usize)> {
        self.storage@.edges_from(self.reader(), self.block_idx as int, self.offset as int)
    }

    /// The next edge that the snapshot sees.
    pub fn next(&mut self) -> (r: Option<StorageResult<OlapEdge>>)
        requires
            old(self).storage@.wf(),
            old(self).offset <= BLOCK_CAPACITY,
            old(self).left().len() > 0 ==> no_gaps(
                old(self).storage@.columns,
                old(self).left()[0],
                old(self).reader(),
            ),
        ensures
            *final(self).storage == *old(self).storage,
            final(self).offset <= BLOCK_CAPACITY,
            final(self).reader() == old(self).reader(),
            walk_step(
                old(self).storage@,
                old(self).reader(),
                old(self).left(),
                r,
                final(self).left(),
            ),
    {
        let reader = Reader::At { txn_id: self.txn_id, start_ts: self.start_ts };
        let (found, b, o) = step_edges(self.storage, reader, self.block_idx, self.offset);
        self.block_idx = b;
        self.offset = o;
        match found {
            Some(location) => {
                assert(self.storage@.blocks[location.0 as int].wf());
                Some(Ok(self.storage.edge_for(location, reader)))
            },
            None => None,
        }
    }
}

impl OlapStorage {
    /// A walk over all edges.
    pub fn iter_edges<'a>(&'a self, txn: &MemTransaction) -> (r: StorageResult<EdgeIter<'a>>)
        ensures
            r matches Ok(iter) && *iter.storage == *self && iter.block_idx == 0 && iter.offset == 0,
    {
        Ok(EdgeIter { storage: self, block_idx: 0, offset: 0 })
    }

    /// A walk over the edges that a transaction sees.
    pub fn iter_edges_at_ts<'a>(&'a self, txn: &MemTransaction) -> (r: StorageResult<
        EdgeIterAtTs<'a>,
    >)
        ensures
            r matches Ok(iter) && *iter.storage == *self && iter.block_idx == 0 && iter.offset == 0
                && iter.txn_id == Some(txn@.txn_id) && iter.start_ts == txn@.start_ts,
    {
        Ok(
            EdgeIterAtTs {
                storage: self,
                block_idx: 0,
                offset: 0,
                txn_id: Some(txn.txn_id),
                start_ts: txn.start_ts,
            },
        )
    }
}

} // verus!
