//! Reads: single vertices and edges, with or without a snapshot.

use vstd::prelude::*;
use crate::common::types::{EdgeId, VertexId};
use crate::common::value::ScalarValue;
use crate::storage::ap::collections::{dense_get, location_get};
use crate::storage::ap::deletions::sees_ts;
use crate::storage::ap::model::{no_gaps, row, value_for, versions_at, Reader, StorageModel};
use crate::storage::ap::olap_graph::{
    latest_committed_prop_value, prop_value_visible_at, OlapStorage,
};
use crate::storage::ap::transaction::MemTransaction;
use crate::storage::ap::types::{
    OlapEdge, OlapPropertyStore, OlapStorageEdge, OlapVertex, PropertyVersion,
};
use crate::storage::error::{
    edge_block_missing, edge_block_not_found, edge_missing, edge_not_found, vertex_missing,
    vertex_not_found, StorageResult,
};
use crate::transaction::Timestamp;

verus! {

/// The value of the version that counts for a reader.
pub fn prop_value_for(versions: &Vec<PropertyVersion>, reader: Reader) -> (r: Option<ScalarValue>)
    ensures
        r == value_for(versions@, reader),
{
    match reader {
        Reader::At { txn_id, start_ts } => prop_value_visible_at(versions, txn_id, start_ts),
        Reader::Committed => latest_committed_prop_value(versions),
    }
}

/// A transaction as a reader.
pub open spec fn reader_of(txn_id: Timestamp, start_ts: Timestamp) -> Reader {
    Reader::At { txn_id: Some(txn_id), start_ts }
}

impl StorageModel {
    /// The location of an edge that is stored and not deleted, whoever wrote it.
    pub open spec fn readable(self, eid: EdgeId) -> Option<(usize, usize)> {
        match self.located(eid) {
            Some(location) if !self.blocks[location.0 as int].is_tombstone && self.slot_seen(
                self.slot(location),
                Reader::Committed,
            ) => Some(location),
            _ => None,
        }
    }
}

impl OlapStorage {
    /// The properties of the edge at a location that have a value for a reader.
    pub fn properties_for(&self, location: (usize, usize), reader: Reader) -> (r: OlapPropertyStore)
        requires
            no_gaps(self@.columns, location, reader),
        ensures
            r.properties@ == row(self@.columns, location, reader, self@.columns.len()),
    {
        let mut props = OlapPropertyStore::default();
        let mut c: usize = 0;
        while c < self.property_columns.len()
            invariant
                c <= self@.columns.len(),
                no_gaps(self@.columns, location, reader),
                props.properties@ == row(self@.columns, location, reader, c as nat),
                props.properties@.len() <= c,
                props.properties@.len() < c ==> exists|d: int|
                    0 <= d < c && (#[trigger] value_for(
                        versions_at(self@.columns, d, location),
                        reader,
                    )) is None,
            decreases self.property_columns.len() - c,
        {
            let value = match self.versions_in(c, location) {
                Some(versions) => prop_value_for(versions, reader),
                None => None,
            };
            assert(value == value_for(versions_at(self@.columns, c as int, location), reader)) by {
                assert(value_for(Seq::<PropertyVersion>::empty(), reader) is None);
            }
            if let Some(v) = value {
                assert(props.properties@.len() == c);
                let ghost before = props.properties@;
                props.set_prop(c, Some(v));
                assert(props.properties@ =~= before.push(Some(v)));
            }
            c = c + 1;
        }
        props
    }

    /// The edge at a location, as a reader sees it.
    pub fn edge_for(&self, location: (usize, usize), reader: Reader) -> (r: OlapEdge)
        requires
            self@.wf(),
            location.0 < self@.blocks.len(),
            location.1 < self@.blocks[location.0 as int].edges.len(),
            no_gaps(self@.columns, location, reader),
        ensures
            r@ == self@.edge_at(location, reader),
    {
        let block = &self.edges[location.0];
        assert(self@.blocks[location.0 as int] == block@);
        let slot = block.edges[location.1];
        OlapEdge {
            label_id: slot.label_id,
            src_id: block.src_id,
            dst_id: slot.dst_id,
            properties: self.properties_for(location, reader),
        }
    }

    /// Whether a reader sees the edge in a slot.
    pub fn sees_slot(&self, slot: &OlapStorageEdge, reader: Reader) -> (r: bool)
        ensures
            r == self@.slot_seen(*slot, reader),
    {
        let stamped = match reader {
            Reader::At { txn_id, start_ts } => sees_ts(slot.commit_ts, txn_id, start_ts),
            Reader::Committed => true,
        };
        stamped && !self.deletions.hides(slot.eid, reader)
    }

    /// The vertex with this identifier.
    pub fn get_vertex(&self, txn: &MemTransaction, id: VertexId) -> (r: StorageResult<OlapVertex>)
        requires
            self@.wf(),
        ensures
            r matches Ok(vertex) ==> vertex@.vid == id,
            match self@.vertex_index(id) {
                Some(v) => r is Ok && r->Ok_0@ == self@.vertices[v],
                None => r is Err && r->Err_0.is_vertex_not_found(vertex_missing(id)),
            },
    {
        let logical_id: usize = match dense_get(&self.dense_id_map, id) {
            Some(index) => index as usize,
            None => {
                return Err(vertex_not_found(id));
            },
        };
        assert(self@.dense_ids.dom().contains(id));
        assert(self@.vertices.len() == self.vertices.len());
        Ok(self.vertices[logical_id].clone())
    }

    /// The edge with this identifier, whoever wrote it, with the properties that the transaction
    /// sees.
    pub fn get_edge(&self, txn: &MemTransaction, eid: EdgeId) -> (r: StorageResult<OlapEdge>)
        requires
            self@.wf(),
            self@.readable(eid) matches Some(location) ==> no_gaps(
                self@.columns,
                location,
                reader_of(txn@.txn_id, txn@.start_ts),
            ),
        ensures
            match self@.readable(eid) {
                Some(location) => r is Ok && r->Ok_0@ == self@.edge_at(
                    location,
                    reader_of(txn@.txn_id, txn@.start_ts),
                ),
                None => {
                    &&& r is Err
                    &&& if self@.locations.dom().contains(eid) && self@.locations[eid].0
                        >= self@.blocks.len() {
                        r->Err_0.is_edge_not_found(
                            edge_block_missing(self@.locations[eid].0 as u64),
                        )
                    } else {
                        r->Err_0.is_edge_not_found(edge_missing(eid))
                    }
                },
            },
    {
        let location = match location_get(&self.edge_id_map, eid) {
            Some(location) => location,
            None => {
                return Err(edge_not_found(eid));
            },
        };
        if location.0 >= self.edges.len() {
            return Err(edge_block_not_found(location.0));
        }
        let block = &self.edges[location.0];
        assert(self@.blocks[location.0 as int] == block@);
        assert(self@.blocks[location.0 as int].wf());
        if block.is_tombstone || location.1 >= block.edge_counter {
            return Err(edge_not_found(eid));
        }
        let slot = block.edges[location.1];
        if slot.eid != eid || !self.sees_slot(&slot, Reader::Committed) {
            return Err(edge_not_found(eid));
        }
        let reader = Reader::At { txn_id: Some(txn.txn_id), start_ts: txn.start_ts };
        Ok(self.edge_for(location, reader))
    }

    /// The edge with this identifier, where the transaction sees it.
    pub fn get_edge_at_ts(&self, txn: &MemTransaction, eid: EdgeId) -> (r: StorageResult<
        Option<OlapEdge>,
    >)
        requires
            self@.wf(),
            self@.visible_at(eid, txn@.txn_id, txn@.start_ts) matches Some(location) ==> no_gaps(
                self@.columns,
                location,
                reader_of(txn@.txn_id, txn@.start_ts),
            ),
        ensures
            match self@.visible_at(eid, txn@.txn_id, txn@.start_ts) {
                Some(location) => r matches Ok(Some(edge)) && edge@ == self@.edge_at(
                    location,
                    reader_of(txn@.txn_id, txn@.start_ts),
                ),
                None => r matches Ok(None),
            },
    {
        let location = match location_get(&self.edge_id_map, eid) {
            Some(location) => location,
            None => {
                return Ok(None);
            },
        };
        if location.0 >= self.edges.len() {
            return Ok(None);
        }
        let block = &self.edges[location.0];
        assert(self@.blocks[location.0 as int] == block@);
        assert(self@.blocks[location.0 as int].wf());
        if block.is_tombstone || location.1 >= block.edge_counter {
            return Ok(None);
        }
        let slot = block.edges[location.1];
        let reader = Reader::At { txn_id: Some(txn.txn_id), start_ts: txn.start_ts };
        if slot.eid != eid || !self.sees_slot(&slot, reader) {
            return Ok(None);
        }
        Ok(Some(self.edge_for(location, reader)))
    }
}

} // verus!
