//! A walk over all vertices.

use vstd::prelude::*;
use crate::storage::ap::olap_graph::OlapStorage;
use crate::storage::ap::transaction::MemTransaction;
use crate::storage::ap::types::OlapVertex;
use crate::storage::error::StorageResult;

verus! {

/// Walks over the vertices in the order of their positions.
pub struct VertexIter<'a> {
    pub storage: &'a OlapStorage,
    /// The position of the next vertex.
    pub idx: usize,
}

impl<'a> VertexIter<'a> {
    /// The next vertex.
    pub fn next(&mut self) -> (r: Option<StorageResult<OlapVertex>>)
        ensures
            *final(self).storage == *old(self).storage,
            if old(self).idx < old(self).storage@.vertices.len() {
                &&& r matches Some(Ok(vertex)) && vertex@
                    == old(self).storage@.vertices[old(self).idx as int]
                &&& final(self).idx == old(self).idx + 1
            } else {
                r is None && final(self).idx == old(self).idx
            },
    {
        if self.idx < self.storage.vertices.len() {
            let vertex = self.storage.vertices[self.idx].clone();
            self.idx = self.idx + 1;
            Some(Ok(vertex))
        } else {
            None
        }
    }
}

impl OlapStorage {
    pub fn iter_vertices<'a>(&'a self, txn: &MemTransaction) -> (r: StorageResult<VertexIter<'a>>)
        ensures
            r matches Ok(iter) && *iter.storage == *self && iter.idx == 0,
    {
        Ok(VertexIter { storage: self, idx: 0 })
    }
}

} // verus!
