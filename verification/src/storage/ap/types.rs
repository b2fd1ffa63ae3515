//! Vertices, edge blocks and property columns.

use vstd::prelude::*;
use crate::common::types::{EdgeId, LabelId, VertexId};
use crate::common::value::{copy_value, ScalarValue};
use crate::storage::ap::collections::{Bits16, Bits64};
use crate::storage::model::PropertyRecord;
use crate::transaction::Timestamp;

verus! {

/// Number of edge slots in a block.
pub const BLOCK_CAPACITY: usize = 256;

/// Number of chunks of sixteen slots in a block.
pub const CHUNK_COUNT: usize = 16;

/// A vertex. Its position in the vertex array is its logical identifier.
#[derive(Debug)]
pub struct OlapVertex {
    pub vid: VertexId,
    pub properties: PropertyRecord,
    /// The last edge block of the vertex; `usize::MAX` where it has none.
    pub block_offset: usize,
}

impl Clone for OlapVertex {
    fn clone(&self) -> (r: Self)
        ensures
            r.vid == self.vid,
            r.properties.properties@ == self.properties.properties@,
            r.block_offset == self.block_offset,
    {
        OlapVertex {
            vid: self.vid,
            properties: self.properties.clone(),
            block_offset: self.block_offset,
        }
    }
}

/// Two vertices are equal where their identifiers are.
impl PartialEq for OlapVertex {
    fn eq(&self, other: &Self) -> (r: bool) {
        self.vid == other.vid
    }
}

impl vstd::std_specs::cmp::PartialEqSpecImpl for OlapVertex {
    open spec fn obeys_eq_spec() -> bool {
        true
    }

    open spec fn eq_spec(&self, other: &Self) -> bool {
        self.vid == other.vid
    }
}

impl Eq for OlapVertex {

}

/// An edge as a block stores it.
#[derive(Clone, Copy, Debug, PartialEq, Eq, Structural)]
pub struct OlapStorageEdge {
    /// Unique over all blocks; zero marks an unused slot.
    pub eid: EdgeId,
    pub label_id: Option<LabelId>,
    pub dst_id: VertexId,
    /// The mark of the transaction that created the edge, or the time of its commit.
    pub commit_ts: Timestamp,
}

/// The content of an unused slot.
pub open spec fn blank_slot() -> OlapStorageEdge {
    OlapStorageEdge {
        eid: 0,
        label_id: Some(LabelId { raw: 1 }),
        dst_id: 1,
        commit_ts: Timestamp(0),
    }
}

impl OlapStorageEdge {
    /// The content of an unused slot.
    pub fn default() -> (r: OlapStorageEdge)
        ensures
            r == blank_slot(),
    {
        OlapStorageEdge {
            eid: 0,
            label_id: Some(LabelId { raw: 1 }),
            dst_id: 1,
            commit_ts: Timestamp(0),
        }
    }
}

/// An edge with its properties.
#[derive(Debug)]
pub struct OlapEdge {
    pub label_id: Option<LabelId>,
    pub src_id: VertexId,
    pub dst_id: VertexId,
    pub properties: OlapPropertyStore,
}

/// Properties by position; a position may be empty.
#[derive(Debug, PartialEq, Eq)]
pub struct OlapPropertyStore {
    pub properties: Vec<Option<ScalarValue>>,
}

impl Default for OlapPropertyStore {
    fn default() -> (r: Self)
        ensures
            r.properties@ == Seq::<Option<ScalarValue>>::empty(),
    {
        OlapPropertyStore { properties: Vec::new() }
    }
}

impl OlapPropertyStore {
    pub fn new(properties: Vec<Option<ScalarValue>>) -> (r: OlapPropertyStore)
        ensures
            r.properties@ == properties@,
    {
        OlapPropertyStore { properties }
    }

    /// Puts a property in front of what stands at the position.
    pub fn set_prop(&mut self, index: usize, prop: Option<ScalarValue>)
        requires
            index <= old(self).properties@.len(),
        ensures
            final(self).properties@ == old(self).properties@.insert(index as int, prop),
    {
        self.properties.insert(index, prop);
    }

    /// The property at a position; none where the position is empty or out of range.
    pub fn get(&self, index: usize) -> (r: Option<ScalarValue>)
        ensures
            r == property_at(self.properties@, index as int),
    {
        if index < self.properties.len() {
            copy_value(&self.properties[index])
        } else {
            None
        }
    }
}

/// The property at a position; none where the position is empty or out of range.
pub open spec fn property_at(properties: Seq<Option<ScalarValue>>, index: int) -> Option<
    ScalarValue,
> {
    if 0 <= index < properties.len() {
        properties[index]
    } else {
        None
    }
}

/// A block of edges that leave one vertex.
#[derive(Debug)]
pub struct EdgeBlock {
    /// The previous block of the same vertex.
    pub pre_block_index: Option<usize>,
    pub cur_block_index: usize,
    pub is_tombstone: bool,
    pub max_label_id: Option<LabelId>,
    pub min_label_id: Option<LabelId>,
    pub max_dst_id: VertexId,
    pub min_dst_id: VertexId,
    pub min_ts: Timestamp,
    pub max_ts: Timestamp,
    pub src_id: VertexId,
    /// The slots below this number hold edges.
    pub edge_counter: usize,
    pub edges: [OlapStorageEdge; BLOCK_CAPACITY],
}

/// An edge block after compression.
pub struct CompressedEdgeBlock {
    pub pre_block_index: Option<usize>,
    pub cur_block_index: usize,
    pub max_label_id: Option<LabelId>,
    pub min_label_id: Option<LabelId>,
    pub max_dst_id: VertexId,
    pub min_dst_id: VertexId,
    pub min_ts: Timestamp,
    pub max_ts: Timestamp,
    pub src_id: VertexId,
    pub edge_counter: usize,
    pub delta_bit_width: u8,
    pub first_dst_id: VertexId,
    /// The differences between neighbouring destinations, each in `delta_bit_width` bits.
    pub compressed_dst_ids: Bits64,
    pub label_ids: [Option<LabelId>; BLOCK_CAPACITY],
    pub version_ts: Timestamp,
}

/// A property value and the time from which it holds.
#[derive(Debug, PartialEq, Eq)]
pub struct PropertyVersion {
    pub ts: Timestamp,
    pub value: Option<ScalarValue>,
}

impl Clone for PropertyVersion {
    fn clone(&self) -> (r: Self)
        ensures
            r == *self,
    {
        PropertyVersion { ts: self.ts, value: copy_value(&self.value) }
    }
}

/// A block of one property column: the versions of the property, by edge slot.
#[derive(Debug)]
pub struct PropertyBlock {
    pub min_ts: Timestamp,
    pub max_ts: Timestamp,
    pub values: Vec<Vec<PropertyVersion>>,
}

/// One property of every edge, block by block.
#[derive(Debug)]
pub struct PropertyColumn {
    pub blocks: Vec<PropertyBlock>,
}

/// A property block after compression.
pub struct CompressedPropertyBlock {
    pub min_ts: Timestamp,
    pub max_ts: Timestamp,
    pub version_ts: Timestamp,
    /// Which slots have a value.
    pub bitmap: Bits16,
    /// How many slots of each chunk of sixteen have a value.
    pub offsets: [u8; CHUNK_COUNT],
    /// The values, in slot order.
    pub values: Vec<ScalarValue>,
}

/// A property column after compression.
pub struct CompressedPropertyColumn {
    pub blocks: Vec<CompressedPropertyBlock>,
}

} // verus!
