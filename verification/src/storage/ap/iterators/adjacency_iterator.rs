//! Walks over the edges of one vertex, from its last block back to its first.

use vstd::prelude::*;
use crate::common::types::VertexId;
use crate::storage::ap::iterators::edge_iterator::walk_step;
use crate::storage::ap::model::{no_gaps, Reader, StorageModel};
use crate::storage::ap::olap_graph::OlapStorage;
use crate::storage::ap::transaction::MemTransaction;
use crate::storage::ap::types::{OlapEdge, BLOCK_CAPACITY};
use crate::storage::error::{vertex_missing, StorageResult};
use crate::transaction::Timestamp;

verus! {

impl StorageModel {
    /// The previous block of the same vertex; -1 where there is none.
    pub open spec fn block_before(self, b: int) -> int {
        match self.blocks[b].pre_block_index {
            Some(pre) if pre < b => pre as int,
            _ => -1,
        }
    }

    /// The slots that a walk over the edges of a vertex still has to give, from a slot of a block
    /// on. The walk steps over blocks that are buried, leaves a block at its first unused slot, and
    /// steps over edges that the reader does not see.
    pub open spec fn chain_from(self, reader: Reader, b: int, offset: int) -> Seq<(usize, usize)>
        decreases b + 1, BLOCK_CAPACITY - offset,
    {
        if b < 0 || b >= self.blocks.len() {
            Seq::empty()
        } else if self.blocks[b].is_tombstone || offset >= BLOCK_CAPACITY
            || self.blocks[b].edges[offset].eid == 0 {
            self.chain_from(reader, self.block_before(b), 0)
        } else {
            let rest = self.chain_from(reader, b, offset + 1);
            if self.slot_seen(self.blocks[b].edges[offset], reader) {
                seq![(b as usize, offset as usize)] + rest
            } else {
                rest
            }
        }
    }
}

/// Advances a walk over the edges of a vertex to its next slot and past it.
fn step_chain(storage: &OlapStorage, reader: Reader, block_idx: usize, offset: usize) -> (r: (
    Option<(usize, usize)>,
    usize,
    usize,
))
    requires
        storage@.wf(),
        offset <= BLOCK_CAPACITY,
    ensures
        r.2 <= BLOCK_CAPACITY,
        ({
            let left = storage@.chain_from(reader, block_idx as int, offset as int);
            let left_after = storage@.chain_from(reader, r.1 as int, r.2 as int);
            if left.len() == 0 {
                r.0 is None && left_after == left
            } else {
                &&& r.0 == Some(left[0])
                &&& left_after == left.drop_first()
                &&& left[0].0 < storage@.blocks.len() && left[0].1 < BLOCK_CAPACITY
            }
        }),
{
    let mut b: usize = block_idx;
    let mut o: usize = offset;
    let ghost left = storage@.chain_from(reader, block_idx as int, offset as int);
    assert(storage@.blocks.len() == storage.edges.len());
    while b < storage.edges.len()
        invariant
            storage@.wf(),
            o <= BLOCK_CAPACITY,
            left == storage@.chain_from(reader, block_idx as int, offset as int),
            left == storage@.chain_from(reader, b as int, o as int),
        decreases
                if b < storage.edges.len() {
                    b + 1
                } else {
                    0
                },
                BLOCK_CAPACITY - o,
    {
        let block = &storage.edges[b];
        assert(storage@.blocks.len() == storage.edges.len());
        assert(storage@.blocks[b as int] == block@);
        assert(storage@.blocks[b as int].wf());
        if block.is_tombstone || o == BLOCK_CAPACITY || block.edges[o].eid == 0 {
            match block.pre_block_index {
                Some(pre) => {
                    b = pre;
                    o = 0;
                    continue;
                },
                None => {
                    assert(storage@.chain_from(reader, -1, 0) == Seq::<(usize, usize)>::empty());
                    return (None, usize::MAX, 0);
                },
            }
        }
        let slot = block.edges[o];
        let seen = storage.sees_slot(&slot, reader);
        if seen {
            assert(left =~= seq![(b, o)] + storage@.chain_from(reader, b as int, o + 1));
            assert(left[0] == (b, o));
            assert(left.drop_first() =~= storage@.chain_from(reader, b as int, o + 1));
            return (Some((b, o)), b, o + 1);
        }
        o = o + 1;
    }
    (None, usize::MAX, o)
}

/// Walks over the edges of a vertex, whoever wrote them, with their newest committed properties.
pub struct AdjacencyIterator<'a> {
    pub storage: &'a OlapStorage,
    pub vertex_id: VertexId,
    /// Index of the current block; `usize::MAX` at the end.
    pub block_idx: usize,
    /// Offset within the block.
    pub offset: usize,
}

impl<'a> AdjacencyIterator<'a> {
    /// The slots that are left.
    pub open spec fn left(&self) -> Seq<(usize, usize)> {
        self.storage@.chain_from(Reader::Committed, self.block_idx as int, self.offset as int)
    }

    /// The next edge.
    pub fn next(&mut self) -> (r: Option<StorageResult<OlapEdge>>)
        requires
            old(self).storage@.wf(),
            old(self).offset <= BLOCK_CAPACITY,
            old(self).left().len() > 0 ==> no_gaps(
                old(self).storage@.columns,
                old(self).left()[0],
                Reader::Committed,
            ),
        ensures
            *final(self).storage == *old(self).storage,
            final(self).vertex_id == old(self).vertex_id,
            final(self).offset <= BLOCK_CAPACITY,
            walk_step(
                old(self).storage@,
                Reader::Committed,
                old(self).left(),
                r,
                final(self).left(),
            ),
    {
        let (found, b, o) = step_chain(
            self.storage,
            Reader::Committed,
            self.block_idx,
            self.offset,
        );
        self.block_idx = b;
        self.offset = o;
        match found {
            Some(location) => {
                assert(self.storage@.blocks[location.0 as int].wf());
                Some(Ok(self.storage.edge_for(location, Reader::Committed)))
            },
            None => None,
        }
    }
}

/// Walks over the edges of a vertex that a snapshot sees, with the properties that it sees.
pub struct AdjacencyIteratorAtTs<'a> {
    pub storage: &'a OlapStorage,
    pub vertex_id: VertexId,
    /// Index of the current block; `usize::MAX` at the end.
    pub block_idx: usize,
    /// Offset within the block.
    pub offset: usize,
    pub txn_id: Option<Timestamp>,
    pub start_ts: Timestamp,
}

impl<'a> AdjacencyIteratorAtTs<'a> {
    pub open spec fn reader(&self) -> Reader {
        Reader::At { txn_id: self.txn_id, start_ts: self.start_ts }
    }

    /// The slots that are left.
    pub open spec fn left(&self) -> Seq<(usize, usize)> {
        self.storage@.chain_from(self.reader(), self.block_idx as int, self.offset as int)
    }

    /// The next edge that the snapshot sees.
    pub fn next(&mut self) -> (r: Option<StorageResult<OlapEdge>>)
        requires
            old(self).storage@.wf(),
            old(self).offset <= BLOCK_CAPACITY,
            old(self).left().len() > 0 ==> no_gaps(
                old(self).storage@.columns,
                old(self).left()[0],
                old(self).reader(),
            ),
        ensures
            *final(self).storage == *old(self).storage,
            final(self).vertex_id == old(self).vertex_id,
            final(self).offset <= BLOCK_CAPACITY,
            final(self).reader() == old(self).reader(),
            walk_step(
                old(self).storage@,
                old(self).reader(),
                old(self).left(),
                r,
                final(self).left(),
            ),
    {
        let reader = Reader::At { txn_id: self.txn_id, start_ts: self.start_ts };
        let (found, b, o) = step_chain(self.storage, reader, self.block_idx, self.offset);
        self.block_idx = b;
        self.offset = o;
        match found {
            Some(location) => {
                assert(self.storage@.blocks[location.0 as int].wf());
                Some(Ok(self.storage.edge_for(location, reader)))
            },
            None => None,
        }
    }
}

impl OlapStorage {
    /// A walk over the edges of a vertex.
    pub fn iter_adjacency<'a>(&'a self, txn: &MemTransaction, vid: VertexId) -> (r: StorageResult<
        AdjacencyIterator<'a>,
    >)
        requires
            self@.wf(),
        ensures
            match self@.vertex_index(vid) {
                Some(v) => r matches Ok(iter) && *iter.storage == *self && iter.vertex_id == vid
                    && iter.block_idx == self@.vertices[v].block_offset && iter.offset == 0,
                None => r is Err && r->Err_0.is_vertex_not_found(vertex_missing(vid)),
            },
    {
        match self.get_vertex(txn, vid) {
            Ok(vertex) => Ok(
                AdjacencyIterator {
                    storage: self,
                    vertex_id: vid,
                    block_idx: vertex.block_offset,
                    offset: 0,
                },
            ),
            Err(e) => Err(e),
        }
    }

    /// A walk over the edges of a vertex that a transaction sees.
    pub fn iter_adjacency_at_ts<'a>(&'a self, txn: &MemTransaction, vid: VertexId) -> (r:
        StorageResult<AdjacencyIteratorAtTs<'a>>)
        requires
            self@.wf(),
        ensures
            match self@.vertex_index(vid) {
                Some(v) => r matches Ok(iter) && *iter.storage == *self && iter.vertex_id == vid
                    && iter.block_idx == self@.vertices[v].block_offset && iter.offset == 0
                    && iter.txn_id == Some(txn@.txn_id) && iter.start_ts == txn@.start_ts,
                None => r is Err && r->Err_0.is_vertex_not_found(vertex_missing(vid)),
            },
    {
        match self.get_vertex(txn, vid) {
            Ok(vertex) => Ok(
                AdjacencyIteratorAtTs {
                    storage: self,
                    vertex_id: vid,
                    block_idx: vertex.block_offset,
                    offset: 0,
                    txn_id: Some(txn.txn_id),
                    start_ts: txn.start_ts,
                },
            ),
            Err(e) => Err(e),
        }
    }
}

} // verus!
