//! What a transaction reads: the graph as it sees it, and what it is about to write.

use vstd::prelude::*;
use std::sync::Arc;
use crate::common::types::{EdgeId, LabelId, VertexId};
use crate::storage::model::PropertyRecord;
use crate::storage::tp::neighbors::NeighborSet;
use crate::transaction::txn::LockStrategy;

verus! {

/// An edge as the graph keeps it.
#[derive(Debug)]
pub struct Edge {
    pub eid: EdgeId,
    pub src_id: VertexId,
    pub dst_id: VertexId,
    pub label_id: LabelId,
    pub properties: Arc<PropertyRecord>,
    /// The edge has been deleted.
    pub is_tombstone: bool,
}

impl Clone for Edge {
    fn clone(&self) -> (r: Self)
        ensures
            r == *self,
    {
        Edge {
            eid: self.eid,
            src_id: self.src_id,
            dst_id: self.dst_id,
            label_id: self.label_id,
            properties: self.properties.clone(),
            is_tombstone: self.is_tombstone,
        }
    }
}

impl Edge {
    /// An edge that has not been deleted.
    pub fn new(
        eid: EdgeId,
        src_id: VertexId,
        dst_id: VertexId,
        label_id: LabelId,
        properties: PropertyRecord,
    ) -> (r: Self)
        ensures
            r == (Edge {
                eid,
                src_id,
                dst_id,
                label_id,
                properties: Arc::new(properties),
                is_tombstone: false,
            }),
    {
        Edge {
            eid,
            src_id,
            dst_id,
            label_id,
            properties: Arc::new(properties),
            is_tombstone: false,
        }
    }

    pub fn eid(&self) -> (r: EdgeId)
        ensures
            r == self.eid,
    {
        self.eid
    }
}

/// A write that a transaction holds back until it commits.
#[derive(Debug)]
pub enum WriteKind {
    InsertEdge(Edge),
    UpdateEdge { before: Edge, after: Edge },
    DeleteEdge { before: Edge },
    /// A write to something else than an edge.
    Other,
}

impl WriteKind {
    /// The edge that the write is about.
    pub open spec fn about(self) -> Option<EdgeId> {
        match self {
            WriteKind::InsertEdge(edge) => Some(edge.eid),
            WriteKind::UpdateEdge { after, .. } => Some(after.eid),
            WriteKind::DeleteEdge { before } => Some(before.eid),
            WriteKind::Other => None,
        }
    }

    /// The edge as it is after the write, for an insertion or an update.
    pub open spec fn written(self) -> Option<Edge> {
        match self {
            WriteKind::InsertEdge(edge) => Some(edge),
            WriteKind::UpdateEdge { after, .. } => Some(after),
            _ => None,
        }
    }
}

/// An edge of the graph, as far as a transaction sees it.
#[derive(Debug)]
pub struct EdgeEntry {
    pub eid: EdgeId,
    /// The version that the transaction sees, if it sees one.
    pub visible: Option<Edge>,
}

/// The neighbours of a vertex.
pub struct VertexAdjacency {
    pub incoming: Arc<NeighborSet>,
    pub outgoing: Arc<NeighborSet>,
}

/// A transaction with what it reads.
pub struct MemTransaction {
    pub lock_strategy: LockStrategy,
    /// The writes to edges that are held back, one for an edge at most.
    pub edge_writes: Vec<(EdgeId, WriteKind)>,
    /// The edges of the graph, each once.
    pub edges: Vec<EdgeEntry>,
    /// The neighbours of the vertices, each vertex once.
    pub adjacency_list: Vec<(VertexId, VertexAdjacency)>,
}

/// The first write to an edge, from `from` on.
pub open spec fn write_index(writes: Seq<(EdgeId, WriteKind)>, eid: EdgeId, from: int) -> Option<
    int,
>
    decreases writes.len() - from,
{
    if from >= writes.len() {
        None
    } else if writes[from].0 == eid {
        Some(from)
    } else {
        write_index(writes, eid, from + 1)
    }
}

/// The first entry of an edge, from `from` on.
pub open spec fn entry_index(entries: Seq<EdgeEntry>, eid: EdgeId, from: int) -> Option<int>
    decreases entries.len() - from,
{
    if from >= entries.len() {
        None
    } else if entries[from].eid == eid {
        Some(from)
    } else {
        entry_index(entries, eid, from + 1)
    }
}

/// The first entry of a vertex, from `from` on.
pub open spec fn vertex_index(
    entries: Seq<(VertexId, VertexAdjacency)>,
    vid: VertexId,
    from: int,
) -> Option<int>
    decreases entries.len() - from,
{
    if from >= entries.len() {
        None
    } else if entries[from].0 == vid {
        Some(from)
    } else {
        vertex_index(entries, vid, from + 1)
    }
}

/// A write that is found is in range and is to the edge.
pub proof fn lemma_write_index(writes: Seq<(EdgeId, WriteKind)>, eid: EdgeId, from: int)
    requires
        from >= 0,
    ensures
        match write_index(writes, eid, from) {
            Some(i) => from <= i < writes.len() && writes[i].0 == eid,
            None => forall|i: int| from <= i < writes.len() ==> (#[trigger] writes[i]).0 != eid,
        },
    decreases writes.len() - from,
{
    if from < writes.len() && writes[from].0 != eid {
        lemma_write_index(writes, eid, from + 1);
    }
}

impl MemTransaction {
    /// No edge has two writes, and a write is about the edge under which it is kept; the lists of
    /// neighbours are finite.
    pub open spec fn wf(&self) -> bool {
        &&& forall|i: int, j: int|
            0 <= i < j < self.edge_writes@.len() ==> (#[trigger] self.edge_writes@[i]).0 != (
            #[trigger] self.edge_writes@[j]).0
        &&& forall|i: int|
            0 <= i < self.edge_writes@.len() ==> ((#[trigger] self.edge_writes@[i]).1.about()
                matches Some(eid) ==> eid == self.edge_writes@[i].0)
        &&& forall|i: int|
            0 <= i < self.adjacency_list@.len() ==> (
            #[trigger] self.adjacency_list@[i]).1.incoming.wf()
                && self.adjacency_list@[i].1.outgoing.wf()
    }

    /// The write to an edge.
    pub open spec fn write_to(&self, eid: EdgeId) -> Option<WriteKind> {
        match write_index(self.edge_writes@, eid, 0) {
            Some(i) => Some(self.edge_writes@[i].1),
            None => None,
        }
    }

    /// The version of an edge of the graph that the transaction sees.
    pub open spec fn version_of(&self, eid: EdgeId) -> Option<Edge> {
        match entry_index(self.edges@, eid, 0) {
            Some(i) => self.edges@[i].visible,
            None => None,
        }
    }

    /// Whether the transaction sees an edge. An optimistic transaction sees its own writes first.
    pub open spec fn sees(&self, eid: EdgeId) -> bool {
        if self.lock_strategy == LockStrategy::Optimistic && self.write_to(eid) is Some {
            match self.write_to(eid)->0 {
                WriteKind::InsertEdge(edge) => !edge.is_tombstone,
                WriteKind::UpdateEdge { after, .. } => !after.is_tombstone,
                WriteKind::DeleteEdge { .. } => false,
                WriteKind::Other => self.version_of(eid) is Some,
            }
        } else {
            self.version_of(eid) is Some
        }
    }

    /// The write to an edge.
    pub fn lookup_edge_write(&self, eid: EdgeId) -> (r: Option<&WriteKind>)
        ensures
            self.write_to(eid) == (match r {
                Some(write) => Some(*write),
                None => None,
            }),
    {
        let mut i: usize = 0;
        while i < self.edge_writes.len()
            invariant
                i <= self.edge_writes@.len(),
                write_index(self.edge_writes@, eid, 0) == write_index(
                    self.edge_writes@,
                    eid,
                    i as int,
                ),
            decreases self.edge_writes.len() - i,
        {
            if self.edge_writes[i].0 == eid {
                return Some(&self.edge_writes[i].1);
            }
            i = i + 1;
        }
        None
    }

    /// The version of an edge of the graph that the transaction sees.
    pub fn visible_version(&self, eid: EdgeId) -> (r: Option<&Edge>)
        ensures
            self.version_of(eid) == (match r {
                Some(edge) => Some(*edge),
                None => None,
            }),
    {
        let mut i: usize = 0;
        while i < self.edges.len()
            invariant
                i <= self.edges@.len(),
                entry_index(self.edges@, eid, 0) == entry_index(self.edges@, eid, i as int),
            decreases self.edges.len() - i,
        {
            if self.edges[i].eid == eid {
                return match &self.edges[i].visible {
                    Some(edge) => Some(edge),
                    None => None,
                };
            }
            i = i + 1;
        }
        None
    }

    /// The neighbours of a vertex.
    pub fn adjacency(&self, vid: VertexId) -> (r: Option<&VertexAdjacency>)
        ensures
            match vertex_index(self.adjacency_list@, vid, 0) {
                Some(i) => 0 <= i < self.adjacency_list@.len() && r == Some(
                    &self.adjacency_list@[i].1,
                ),
                None => r is None,
            },
    {
        let mut i: usize = 0;
        while i < self.adjacency_list.len()
            invariant
                i <= self.adjacency_list@.len(),
                vertex_index(self.adjacency_list@, vid, 0) == vertex_index(
                    self.adjacency_list@,
                    vid,
                    i as int,
                ),
            decreases self.adjacency_list.len() - i,
        {
            if self.adjacency_list[i].0 == vid {
                return Some(&self.adjacency_list[i].1);
            }
            i = i + 1;
        }
        None
    }

    /// Whether the transaction sees an edge.
    pub fn is_visible(&self, eid: EdgeId) -> (r: bool)
        ensures
            r == self.sees(eid),
    {
        if self.lock_strategy == LockStrategy::Optimistic {
            if let Some(write) = self.lookup_edge_write(eid) {
                match write {
                    WriteKind::InsertEdge(edge) => {
                        return !edge.is_tombstone;
                    },
                    WriteKind::UpdateEdge { after, .. } => {
                        return !after.is_tombstone;
                    },
                    WriteKind::DeleteEdge { .. } => {
                        return false;
                    },
                    WriteKind::Other => {},
                }
            }
        }
        self.visible_version(eid).is_some()
    }
}

} // verus!
