//! The storage as mathematics: what every operation does, over sequences and maps.

use vstd::prelude::*;
use crate::common::types::{label_rank, EdgeId, LabelId, VertexId};
use crate::common::value::ScalarValue;
use crate::storage::ap::collections::{bits16, bits64};
use crate::storage::ap::types::{
    blank_slot, property_at, CompressedEdgeBlock, CompressedPropertyBlock,
    CompressedPropertyColumn, EdgeBlock, OlapEdge, OlapStorageEdge, OlapVertex, PropertyBlock,
    PropertyColumn, PropertyVersion, BLOCK_CAPACITY,
};
use crate::storage::model::DeltaOp;
use crate::transaction::{IsolationLevel, Timestamp};

verus! {

// ---------------------------------------------------------------------------------------------
// Vertices and edges
// ---------------------------------------------------------------------------------------------

#[verifier::ext_equal]
pub struct VertexModel {
    pub vid: VertexId,
    pub properties: Seq<ScalarValue>,
    pub block_offset: usize,
}

impl View for OlapVertex {
    type V = VertexModel;

    open spec fn view(&self) -> VertexModel {
        VertexModel {
            vid: self.vid,
            properties: self.properties.properties@,
            block_offset: self.block_offset,
        }
    }
}

#[verifier::ext_equal]
pub struct EdgeModel {
    pub label_id: Option<LabelId>,
    pub src_id: VertexId,
    pub dst_id: VertexId,
    pub properties: Seq<Option<ScalarValue>>,
}

impl View for OlapEdge {
    type V = EdgeModel;

    open spec fn view(&self) -> EdgeModel {
        EdgeModel {
            label_id: self.label_id,
            src_id: self.src_id,
            dst_id: self.dst_id,
            properties: self.properties.properties@,
        }
    }
}

// ---------------------------------------------------------------------------------------------
// Edge blocks
// ---------------------------------------------------------------------------------------------

/// `s` with `x` at `pos`, what stood at `pos..n` one place further on, and what stood at `n` gone.
pub open spec fn shifted_in<A>(s: Seq<A>, pos: int, n: int, x: A) -> Seq<A> {
    s.insert(pos, x).remove(n + 1)
}

/// `s` without what stood at `off`, what stood at `off + 1..n` one place nearer, and `x` at
/// `n - 1`.
pub open spec fn shifted_out<A>(s: Seq<A>, off: int, n: int, x: A) -> Seq<A> {
    s.remove(off).insert(n - 1, x)
}

#[verifier::ext_equal]
pub struct BlockModel {
    pub pre_block_index: Option<usize>,
    pub cur_block_index: usize,
    pub is_tombstone: bool,
    pub max_label_id: Option<LabelId>,
    pub min_label_id: Option<LabelId>,
    pub max_dst_id: VertexId,
    pub min_dst_id: VertexId,
    pub min_ts: Timestamp,
    pub max_ts: Timestamp,
    pub src_id: VertexId,
    pub edge_counter: int,
    pub edges: Seq<OlapStorageEdge>,
}

impl View for EdgeBlock {
    type V = BlockModel;

    open spec fn view(&self) -> BlockModel {
        BlockModel {
            pre_block_index: self.pre_block_index,
            cur_block_index: self.cur_block_index,
            is_tombstone: self.is_tombstone,
            max_label_id: self.max_label_id,
            min_label_id: self.min_label_id,
            max_dst_id: self.max_dst_id,
            min_dst_id: self.min_dst_id,
            min_ts: self.min_ts,
            max_ts: self.max_ts,
            src_id: self.src_id,
            edge_counter: self.edge_counter as int,
            edges: self.edges@,
        }
    }
}

/// The key by which a block orders its edges comes before another one.
pub open spec fn key_less(
    dst_a: VertexId,
    label_a: Option<LabelId>,
    dst_b: VertexId,
    label_b: Option<LabelId>,
) -> bool {
    dst_a < dst_b || (dst_a == dst_b && label_rank(label_a) < label_rank(label_b))
}

impl BlockModel {
    pub open spec fn wf(self) -> bool {
        &&& 0 <= self.edge_counter <= BLOCK_CAPACITY
        &&& self.edges.len() == BLOCK_CAPACITY
    }

    /// A block without edges.
    pub open spec fn fresh(
        pre: Option<usize>,
        index: usize,
        src_id: VertexId,
        min_ts: Timestamp,
        max_ts: Timestamp,
    ) -> BlockModel {
        BlockModel {
            pre_block_index: pre,
            cur_block_index: index,
            is_tombstone: false,
            max_label_id: Some(LabelId { raw: 1 }),
            min_label_id: Some(LabelId { raw: u32::MAX }),
            max_dst_id: 0,
            min_dst_id: u64::MAX,
            min_ts,
            max_ts,
            src_id,
            edge_counter: 0,
            edges: Seq::new(BLOCK_CAPACITY as nat, |i: int| blank_slot()),
        }
    }

    /// The slot holds the edge with this identifier.
    pub open spec fn holds(self, offset: int, eid: EdgeId) -> bool {
        0 <= offset < self.edge_counter && self.edges[offset].eid == eid
    }

    /// The edges are in the order of destination and label.
    pub open spec fn sorted(self) -> bool {
        forall|i: int, j: int|
            0 <= i < j < self.edge_counter ==> !#[trigger] key_less(
                self.edges[j].dst_id,
                self.edges[j].label_id,
                self.edges[i].dst_id,
                self.edges[i].label_id,
            )
    }

    /// The position is where a new edge belongs: what stands before it is smaller, what stands
    /// there is not.
    pub open spec fn is_slot_for(
        self,
        pos: int,
        dst_id: VertexId,
        label_id: Option<LabelId>,
    ) -> bool {
        &&& 0 <= pos <= self.edge_counter
        &&& pos > 0 ==> key_less(
            self.edges[pos - 1].dst_id,
            self.edges[pos - 1].label_id,
            dst_id,
            label_id,
        )
        &&& pos < self.edge_counter ==> !key_less(
            self.edges[pos].dst_id,
            self.edges[pos].label_id,
            dst_id,
            label_id,
        )
    }

    /// The block with one more edge. A block that was buried without edges is in use again.
    pub open spec fn slot_inserted(self, pos: int, slot: OlapStorageEdge) -> BlockModel {
        BlockModel {
            is_tombstone: self.is_tombstone && self.edge_counter > 0,
            edge_counter: self.edge_counter + 1,
            edges: shifted_in(self.edges, pos, self.edge_counter, slot),
            ..self
        }
    }

    pub open spec fn slot_removed(self, offset: int) -> BlockModel {
        BlockModel {
            edge_counter: self.edge_counter - 1,
            edges: shifted_out(self.edges, offset, self.edge_counter, blank_slot()),
            ..self
        }
    }

    pub open spec fn with_slot(self, offset: int, slot: OlapStorageEdge) -> BlockModel {
        BlockModel { edges: self.edges.update(offset, slot), ..self }
    }

    /// The bounds on destinations and labels take in one more edge.
    pub open spec fn widened(self, dst_id: VertexId, label_id: Option<LabelId>) -> BlockModel {
        BlockModel {
            min_dst_id: if dst_id <= self.min_dst_id {
                dst_id
            } else {
                self.min_dst_id
            },
            max_dst_id: if dst_id >= self.max_dst_id {
                dst_id
            } else {
                self.max_dst_id
            },
            max_label_id: if label_rank(label_id) < label_rank(self.max_label_id) {
                self.max_label_id
            } else {
                label_id
            },
            min_label_id: if label_rank(self.min_label_id) < label_rank(label_id) {
                self.min_label_id
            } else {
                label_id
            },
            ..self
        }
    }

    /// The bounds on timestamps take in one more.
    pub open spec fn stamped(self, ts: Timestamp) -> BlockModel {
        BlockModel {
            min_ts: self.min_ts.spec_earlier(ts),
            max_ts: self.max_ts.spec_later(ts),
            ..self
        }
    }

    /// The bounds on timestamps after a commit; marks of running transactions give way.
    pub open spec fn committed(self, ts: Timestamp) -> BlockModel {
        BlockModel {
            min_ts: if self.min_ts.spec_is_txn_id() {
                ts
            } else {
                self.min_ts.spec_earlier(ts)
            },
            max_ts: if self.max_ts.spec_is_txn_id() {
                ts
            } else {
                self.max_ts.spec_later(ts)
            },
            ..self
        }
    }

    pub open spec fn buried(self) -> BlockModel {
        BlockModel { is_tombstone: true, ..self }
    }
}

// ---------------------------------------------------------------------------------------------
// Property columns
// ---------------------------------------------------------------------------------------------

pub type Versions = Seq<PropertyVersion>;

#[verifier::ext_equal]
pub struct PropBlockModel {
    pub min_ts: Timestamp,
    pub max_ts: Timestamp,
    pub values: Seq<Versions>,
}

impl View for PropertyBlock {
    type V = PropBlockModel;

    open spec fn view(&self) -> PropBlockModel {
        PropBlockModel {
            min_ts: self.min_ts,
            max_ts: self.max_ts,
            values: self.values@.map_values(|versions: Vec<PropertyVersion>| versions@),
        }
    }
}

impl PropBlockModel {
    pub open spec fn wf(self) -> bool {
        self.values.len() == BLOCK_CAPACITY
    }

    /// A block without versions.
    pub open spec fn fresh(min_ts: Timestamp, max_ts: Timestamp) -> PropBlockModel {
        PropBlockModel {
            min_ts,
            max_ts,
            values: Seq::new(BLOCK_CAPACITY as nat, |i: int| Seq::<PropertyVersion>::empty()),
        }
    }

    pub open spec fn stamped(self, ts: Timestamp) -> PropBlockModel {
        PropBlockModel {
            min_ts: self.min_ts.spec_earlier(ts),
            max_ts: self.max_ts.spec_later(ts),
            ..self
        }
    }

    pub open spec fn with_versions(self, offset: int, versions: Versions) -> PropBlockModel {
        PropBlockModel { values: self.values.update(offset, versions), ..self }
    }

    pub open spec fn version_pushed(self, offset: int, version: PropertyVersion) -> PropBlockModel {
        self.with_versions(offset, self.values[offset].push(version))
    }

    /// Room for one more slot at `pos` among `n`: the versions from `pos` on are copied one place
    /// further, and those at `pos` stay as the history beneath the new slot.
    pub open spec fn slot_opened(self, pos: int, n: int) -> PropBlockModel {
        PropBlockModel { values: shifted_in(self.values, pos, n, self.values[pos]), ..self }
    }

    /// The slot at `offset` among `n` closes.
    pub open spec fn slot_closed(self, offset: int, n: int) -> PropBlockModel {
        PropBlockModel {
            values: shifted_out(self.values, offset, n, Seq::<PropertyVersion>::empty()),
            ..self
        }
    }
}

pub type ColumnModel = Seq<PropBlockModel>;

impl View for PropertyColumn {
    type V = ColumnModel;

    open spec fn view(&self) -> ColumnModel {
        self.blocks@.map_values(|block: PropertyBlock| block@)
    }
}

/// A column with a block at `index`, which may be one past the end.
pub open spec fn column_with_block(
    column: ColumnModel,
    index: int,
    min_ts: Timestamp,
    max_ts: Timestamp,
) -> ColumnModel {
    if index < column.len() {
        column
    } else {
        column.insert(index, PropBlockModel::fresh(min_ts, max_ts))
    }
}

pub open spec fn column_wf(column: ColumnModel) -> bool {
    forall|b: int| 0 <= b < column.len() ==> (#[trigger] column[b]).wf()
}

// ---------------------------------------------------------------------------------------------
// Compressed blocks
// ---------------------------------------------------------------------------------------------

#[verifier::ext_equal]
pub struct CompressedBlockModel {
    pub pre_block_index: Option<usize>,
    pub cur_block_index: usize,
    pub max_label_id: Option<LabelId>,
    pub min_label_id: Option<LabelId>,
    pub max_dst_id: VertexId,
    pub min_dst_id: VertexId,
    pub min_ts: Timestamp,
    pub max_ts: Timestamp,
    pub src_id: VertexId,
    pub edge_counter: int,
    pub delta_bit_width: int,
    pub first_dst_id: VertexId,
    pub bits: Seq<bool>,
    pub label_ids: Seq<Option<LabelId>>,
    pub version_ts: Timestamp,
}

impl View for CompressedEdgeBlock {
    type V = CompressedBlockModel;

    open spec fn view(&self) -> CompressedBlockModel {
        CompressedBlockModel {
            pre_block_index: self.pre_block_index,
            cur_block_index: self.cur_block_index,
            max_label_id: self.max_label_id,
            min_label_id: self.min_label_id,
            max_dst_id: self.max_dst_id,
            min_dst_id: self.min_dst_id,
            min_ts: self.min_ts,
            max_ts: self.max_ts,
            src_id: self.src_id,
            edge_counter: self.edge_counter as int,
            delta_bit_width: self.delta_bit_width as int,
            first_dst_id: self.first_dst_id,
            bits: bits64(self.compressed_dst_ids),
            label_ids: self.label_ids@,
            version_ts: self.version_ts,
        }
    }
}

#[verifier::ext_equal]
pub struct CompressedPropModel {
    pub min_ts: Timestamp,
    pub max_ts: Timestamp,
    pub version_ts: Timestamp,
    pub bitmap: Seq<bool>,
    pub offsets: Seq<u8>,
    pub values: Seq<ScalarValue>,
}

impl View for CompressedPropertyBlock {
    type V = CompressedPropModel;

    open spec fn view(&self) -> CompressedPropModel {
        CompressedPropModel {
            min_ts: self.min_ts,
            max_ts: self.max_ts,
            version_ts: self.version_ts,
            bitmap: bits16(self.bitmap),
            offsets: self.offsets@,
            values: self.values@,
        }
    }
}

impl View for CompressedPropertyColumn {
    type V = Seq<CompressedPropModel>;

    open spec fn view(&self) -> Seq<CompressedPropModel> {
        self.blocks@.map_values(|block: CompressedPropertyBlock| block@)
    }
}

// ---------------------------------------------------------------------------------------------
// The storage
// ---------------------------------------------------------------------------------------------

/// Where an edge is stored.
pub type Locations = Map<EdgeId, (usize, usize)>;

/// The stamps of the deletions of an edge: the mark of a running transaction that has deleted it, or
/// the time at which a deletion was committed.
pub type Deletions = Map<EdgeId, Seq<Timestamp>>;

#[verifier::ext_equal]
pub struct StorageModel {
    pub logic_id_counter: u64,
    pub edge_id_counter: u64,
    pub dense_ids: Map<VertexId, VertexId>,
    pub locations: Locations,
    pub vertices: Seq<VertexModel>,
    pub blocks: Seq<BlockModel>,
    pub columns: Seq<ColumnModel>,
    pub deletions: Deletions,
    pub is_edge_compressed: bool,
    pub compressed_edges: Seq<CompressedBlockModel>,
    pub is_property_compressed: bool,
    pub compressed_properties: Seq<Seq<CompressedPropModel>>,
}

/// How a new edge is stamped.
#[derive(Clone, Copy)]
pub struct WriteMode {
    /// The timestamp of the edge and of its property versions.
    pub ts: Timestamp,
    /// The timestamp bounds of a block that is opened for it.
    pub fresh_min: Timestamp,
    pub fresh_max: Timestamp,
    /// Whether the write belongs to a transaction: then it adds the property columns that are
    /// missing and widens the timestamp bounds of the blocks that it touches.
    pub transactional: bool,
}

/// `locations` after the edges in the slots `lo..hi` of block `b` have been entered in it.
pub open spec fn remapped(
    locations: Locations,
    edges: Seq<OlapStorageEdge>,
    b: usize,
    lo: int,
    hi: int,
) -> Locations
    decreases hi - lo,
{
    if lo >= hi {
        locations
    } else {
        let before = remapped(locations, edges, b, lo, hi - 1);
        let eid = edges[hi - 1].eid;
        if eid != 0 {
            before.insert(eid, (b, (hi - 1) as usize))
        } else {
            before
        }
    }
}

/// A column after an edge has been put in slot `pos` of block `b`, which held `n` edges.
pub open spec fn column_inserted(
    column: ColumnModel,
    b: int,
    pos: int,
    n: int,
    value: Option<ScalarValue>,
    mode: WriteMode,
) -> ColumnModel {
    let ready = column_with_block(column, b, mode.fresh_min, mode.fresh_max);
    let block = if mode.transactional {
        ready[b].stamped(mode.ts)
    } else {
        ready[b]
    };
    ready.update(
        b,
        block.slot_opened(pos, n).version_pushed(pos, PropertyVersion { ts: mode.ts, value }),
    )
}

/// A column after slot `offset` among the `n` of block `b` has been closed.
pub open spec fn column_removed(
    column: ColumnModel,
    b: int,
    offset: int,
    n: int,
) -> ColumnModel {
    if b < column.len() {
        column.update(b, column[b].slot_closed(offset, n))
    } else {
        column
    }
}

/// The columns after empty ones have been added until there are `n`.
pub open spec fn columns_extended(columns: Seq<ColumnModel>, n: int) -> Seq<ColumnModel> {
    if n <= columns.len() {
        columns
    } else {
        columns + Seq::new((n - columns.len()) as nat, |i: int| Seq::<PropBlockModel>::empty())
    }
}

/// Every block has its slots, and the previous block of its vertex stands before it.
pub open spec fn blocks_wf(blocks: Seq<BlockModel>) -> bool {
    &&& forall|b: int| 0 <= b < blocks.len() ==> (#[trigger] blocks[b]).wf()
    &&& forall|b: int|
        0 <= b < blocks.len() ==> match (#[trigger] blocks[b]).pre_block_index {
            Some(pre) => pre < b,
            None => true,
        }
}

pub open spec fn columns_wf(columns: Seq<ColumnModel>) -> bool {
    forall|c: int| 0 <= c < columns.len() ==> column_wf(#[trigger] columns[c])
}

/// The positions of the vertices are recorded, each under the identifier of the vertex.
pub open spec fn vertices_wf(
    vertices: Seq<VertexModel>,
    dense_ids: Map<VertexId, VertexId>,
    next: u64,
) -> bool {
    &&& next == vertices.len()
    &&& forall|i: int|
        0 <= i < vertices.len() ==> dense_ids.dom().contains((#[trigger] vertices[i]).vid)
            && dense_ids[vertices[i].vid] == i
    &&& forall|vid: VertexId| #[trigger]
        dense_ids.dom().contains(vid) ==> dense_ids[vid] < vertices.len()
            && vertices[dense_ids[vid] as int].vid == vid
}

impl StorageModel {
    /// Every block has its slots, and every vertex is found under its identifier.
    pub open spec fn wf(self) -> bool {
        &&& blocks_wf(self.blocks)
        &&& columns_wf(self.columns)
        &&& vertices_wf(self.vertices, self.dense_ids, self.logic_id_counter)
    }

    /// The position of a vertex, where it is known.
    pub open spec fn vertex_index(self, vid: VertexId) -> Option<int> {
        if self.dense_ids.dom().contains(vid) && (self.dense_ids[vid] as usize)
            < self.vertices.len() {
            Some((self.dense_ids[vid] as usize) as int)
        } else {
            None
        }
    }

    /// The vertex has no block yet, or one that exists.
    pub open spec fn has_block(self, v: int) -> bool {
        self.vertices[v].block_offset == usize::MAX || self.vertices[v].block_offset
            < self.blocks.len()
    }

    /// The storage with a block appended for a vertex.
    pub open spec fn block_appended(
        self,
        v: int,
        pre: Option<usize>,
        src_id: VertexId,
        mode: WriteMode,
    ) -> StorageModel {
        let index = self.blocks.len() as usize;
        StorageModel {
            blocks: self.blocks.push(
                BlockModel::fresh(pre, index, src_id, mode.fresh_min, mode.fresh_max),
            ),
            vertices: self.vertices.update(
                v,
                VertexModel { block_offset: index, ..self.vertices[v] },
            ),
            ..self
        }
    }

    /// The storage with room for one more edge in the last block of a vertex.
    pub open spec fn block_opened(
        self,
        v: int,
        src_id: VertexId,
        mode: WriteMode,
    ) -> StorageModel {
        let off = self.vertices[v].block_offset;
        if off == usize::MAX {
            self.block_appended(v, None, src_id, mode)
        } else if self.blocks[off as int].edge_counter >= BLOCK_CAPACITY {
            self.block_appended(v, Some(off), src_id, mode)
        } else {
            self
        }
    }

    /// The storage after an edge has been put in slot `pos` of the last block of a vertex.
    pub open spec fn edge_placed(
        self,
        v: int,
        pos: int,
        edge: EdgeModel,
        mode: WriteMode,
    ) -> StorageModel {
        let eid = self.edge_id_counter;
        let b = self.vertices[v].block_offset;
        let block = self.blocks[b as int];
        let slot = OlapStorageEdge {
            eid,
            label_id: edge.label_id,
            dst_id: edge.dst_id,
            commit_ts: mode.ts,
        };
        let filled = block.slot_inserted(pos, slot);
        let wide = filled.widened(edge.dst_id, edge.label_id);
        let columns = if mode.transactional {
            columns_extended(self.columns, edge.properties.len() as int)
        } else {
            self.columns
        };
        StorageModel {
            edge_id_counter: eid.wrapping_add(1),
            locations: remapped(
                self.locations,
                filled.edges,
                b,
                pos + 1,
                filled.edge_counter,
            ).insert(eid, (b, pos as usize)),
            blocks: self.blocks.update(
                b as int,
                if mode.transactional {
                    wide.stamped(mode.ts)
                } else {
                    wide
                },
            ),
            columns: Seq::new(
                columns.len(),
                |c: int|
                    column_inserted(
                        columns[c],
                        b as int,
                        pos,
                        block.edge_counter,
                        property_at(edge.properties, c),
                        mode,
                    ),
            ),
            ..self
        }
    }

    /// The storage after an edge of a known vertex has been inserted at `pos`.
    pub open spec fn edge_created(
        self,
        v: int,
        pos: int,
        edge: EdgeModel,
        mode: WriteMode,
    ) -> StorageModel {
        self.block_opened(v, edge.src_id, mode).edge_placed(v, pos, edge, mode)
    }

    /// No property column ends before the block that a new edge goes to.
    pub open spec fn columns_reach(self, b: int, properties: int, mode: WriteMode) -> bool {
        &&& forall|c: int| 0 <= c < self.columns.len() ==> (#[trigger] self.columns[c]).len() >= b
        &&& mode.transactional && properties > self.columns.len() ==> b == 0
    }

    /// Whether the storage can take an edge: where the source vertex is known, no property column
    /// ends before the block of the new edge.
    pub open spec fn takes_edge(self, edge: EdgeModel, mode: WriteMode) -> bool {
        match self.vertex_index(edge.src_id) {
            None => true,
            Some(v) => self.has_block(v) ==> {
                let opened = self.block_opened(v, edge.src_id, mode);
                opened.columns_reach(
                    opened.vertices[v].block_offset as int,
                    edge.properties.len() as int,
                    mode,
                )
            },
        }
    }
}

// ---------------------------------------------------------------------------------------------
// Finding an edge
// ---------------------------------------------------------------------------------------------

/// The first slot of a block, from `from` on, that holds the edge.
pub open spec fn slot_of(block: BlockModel, eid: EdgeId, from: int) -> Option<int>
    decreases block.edge_counter - from,
{
    if from >= block.edge_counter {
        None
    } else if block.edges[from].eid == eid {
        Some(from)
    } else {
        slot_of(block, eid, from + 1)
    }
}

/// The first block, from `from` on, that holds the edge, and its slot there.
pub open spec fn find_edge(blocks: Seq<BlockModel>, eid: EdgeId, from: int) -> Option<(int, int)>
    decreases blocks.len() - from,
{
    if from >= blocks.len() {
        None
    } else {
        match slot_of(blocks[from], eid, 0) {
            Some(offset) => Some((from, offset)),
            None => find_edge(blocks, eid, from + 1),
        }
    }
}

impl StorageModel {
    /// The location holds the edge.
    pub open spec fn holds_at(self, location: (usize, usize), eid: EdgeId) -> bool {
        location.0 < self.blocks.len() && self.blocks[location.0 as int].holds(
            location.1 as int,
            eid,
        )
    }

    /// The recorded location of the edge, where it still holds it.
    pub open spec fn located(self, eid: EdgeId) -> Option<(usize, usize)> {
        if self.locations.dom().contains(eid) && self.holds_at(self.locations[eid], eid) {
            Some(self.locations[eid])
        } else {
            None
        }
    }

    /// The location of the edge: the preferred one or the recorded one where it holds the edge,
    /// else the first that does.
    pub open spec fn resolved(self, eid: EdgeId, preferred: Option<(usize, usize)>) -> Option<
        (usize, usize),
    > {
        match preferred {
            Some(location) if self.holds_at(location, eid) => Some(location),
            _ => match self.located(eid) {
                Some(location) => Some(location),
                None => match find_edge(self.blocks, eid, 0) {
                    Some((b, offset)) => Some((b as usize, offset as usize)),
                    None => None,
                },
            },
        }
    }

    /// The storage after the location of an edge has been resolved: what had to be searched for is
    /// recorded.
    pub open spec fn with_resolved(
        self,
        eid: EdgeId,
        preferred: Option<(usize, usize)>,
    ) -> StorageModel {
        match self.resolved(eid, preferred) {
            Some(location) if !(preferred is Some && self.holds_at(preferred->0, eid))
                && self.located(eid) is None => StorageModel {
                locations: self.locations.insert(eid, location),
                ..self
            },
            _ => self,
        }
    }

    /// The location of an edge that can be written: it has a recorded location, and the block that
    /// holds it is in use.
    pub open spec fn writable(self, eid: EdgeId) -> Option<(usize, usize)> {
        if self.locations.dom().contains(eid) {
            match self.resolved(eid, Some(self.locations[eid])) {
                Some(location) if !self.blocks[location.0 as int].is_tombstone => Some(location),
                _ => None,
            }
        } else {
            None
        }
    }

    /// The storage after an edge that is to be written has been looked for.
    pub open spec fn with_writable(self, eid: EdgeId) -> StorageModel {
        if self.locations.dom().contains(eid) {
            self.with_resolved(eid, Some(self.locations[eid]))
        } else {
            self
        }
    }

    pub open spec fn slot(self, location: (usize, usize)) -> OlapStorageEdge {
        self.blocks[location.0 as int].edges[location.1 as int]
    }

    /// The storage with another content of a slot.
    pub open spec fn with_slot(
        self,
        location: (usize, usize),
        slot: OlapStorageEdge,
    ) -> StorageModel {
        StorageModel {
            blocks: self.blocks.update(
                location.0 as int,
                self.blocks[location.0 as int].with_slot(location.1 as int, slot),
            ),
            ..self
        }
    }
}

// ---------------------------------------------------------------------------------------------
// Reading properties
// ---------------------------------------------------------------------------------------------

/// The newest version counts, whoever wrote it.
pub open spec fn latest_value(versions: Versions) -> Option<ScalarValue> {
    if versions.len() == 0 {
        None
    } else {
        versions.last().value
    }
}

/// A timestamp that a reader sees: its own mark, or a commit no later than its start.
pub open spec fn sees(ts: Timestamp, txn_id: Option<Timestamp>, start_ts: Timestamp) -> bool {
    if ts.spec_is_txn_id() {
        Some(ts) == txn_id
    } else {
        ts.0 <= start_ts.0
    }
}

/// The newest version that the reader sees counts.
pub open spec fn value_visible_at(
    versions: Versions,
    txn_id: Option<Timestamp>,
    start_ts: Timestamp,
) -> Option<ScalarValue>
    decreases versions.len(),
{
    if versions.len() == 0 {
        None
    } else if sees(versions.last().ts, txn_id, start_ts) {
        versions.last().value
    } else {
        value_visible_at(versions.drop_last(), txn_id, start_ts)
    }
}

/// The newest committed version counts.
pub open spec fn committed_value(versions: Versions) -> Option<ScalarValue>
    decreases versions.len(),
{
    if versions.len() == 0 {
        None
    } else if !versions.last().ts.spec_is_txn_id() {
        versions.last().value
    } else {
        committed_value(versions.drop_last())
    }
}

/// Who reads properties.
#[derive(Clone, Copy)]
pub enum Reader {
    /// A transaction, or a snapshot without one.
    At { txn_id: Option<Timestamp>, start_ts: Timestamp },
    /// Whoever takes the newest committed value.
    Committed,
}

pub open spec fn value_for(versions: Versions, reader: Reader) -> Option<ScalarValue> {
    match reader {
        Reader::At { txn_id, start_ts } => value_visible_at(versions, txn_id, start_ts),
        Reader::Committed => committed_value(versions),
    }
}

/// The versions of property `c` of the edge in a slot; none where nothing is stored.
pub open spec fn versions_at(
    columns: Seq<ColumnModel>,
    c: int,
    location: (usize, usize),
) -> Versions {
    if 0 <= c < columns.len() && location.0 < columns[c].len() && location.1
        < columns[c][location.0 as int].values.len() {
        columns[c][location.0 as int].values[location.1 as int]
    } else {
        Seq::empty()
    }
}

/// The values of the first `n` properties of an edge that have one for the reader, in order.
pub open spec fn row(
    columns: Seq<ColumnModel>,
    location: (usize, usize),
    reader: Reader,
    n: nat,
) -> Seq<Option<ScalarValue>>
    decreases n,
{
    if n == 0 {
        Seq::empty()
    } else {
        let before = row(columns, location, reader, (n - 1) as nat);
        match value_for(versions_at(columns, n - 1, location), reader) {
            Some(value) => before.push(Some(value)),
            None => before,
        }
    }
}

/// The properties that have a value for the reader come before those that have none.
pub open spec fn no_gaps(
    columns: Seq<ColumnModel>,
    location: (usize, usize),
    reader: Reader,
) -> bool {
    forall|c: int, d: int|
        0 <= c < d < columns.len() && (#[trigger] value_for(
            versions_at(columns, d, location),
            reader,
        )) is Some ==> (#[trigger] value_for(versions_at(columns, c, location), reader)) is Some
}

impl StorageModel {
    /// The edge in a slot, as a reader sees it.
    pub open spec fn edge_at(self, location: (usize, usize), reader: Reader) -> EdgeModel {
        EdgeModel {
            label_id: self.slot(location).label_id,
            src_id: self.blocks[location.0 as int].src_id,
            dst_id: self.slot(location).dst_id,
            properties: row(self.columns, location, reader, self.columns.len()),
        }
    }

    /// Whether an edge has been deleted, for a reader: it sees the stamp of one of its deletions.
    /// Who reads without a snapshot takes every deletion into account.
    pub open spec fn deleted_for(self, eid: EdgeId, reader: Reader) -> bool {
        let stamps = deletion_stamps(self.deletions, eid);
        match reader {
            Reader::At { txn_id, start_ts } => any_seen(stamps, txn_id, start_ts),
            Reader::Committed => stamps.len() > 0,
        }
    }

    /// Whether a slot holds an edge that a reader sees: it sees the edge's stamp, and the edge has
    /// not been deleted for it. Who reads without a snapshot takes edges whoever wrote them.
    pub open spec fn slot_seen(self, slot: OlapStorageEdge, reader: Reader) -> bool {
        &&& !self.deleted_for(slot.eid, reader)
        &&& match reader {
            Reader::At { txn_id, start_ts } => sees(slot.commit_ts, txn_id, start_ts),
            Reader::Committed => true,
        }
    }

    /// The location of an edge that a transaction sees.
    pub open spec fn visible_at(
        self,
        eid: EdgeId,
        txn_id: Timestamp,
        start_ts: Timestamp,
    ) -> Option<(usize, usize)> {
        match self.located(eid) {
            Some(location) if !self.blocks[location.0 as int].is_tombstone && self.slot_seen(
                self.slot(location),
                Reader::At { txn_id: Some(txn_id), start_ts },
            ) => Some(location),
            _ => None,
        }
    }
}

/// The stamps of the deletions of an edge; none where it has not been deleted.
pub open spec fn deletion_stamps(deletions: Deletions, eid: EdgeId) -> Seq<Timestamp> {
    if deletions.dom().contains(eid) {
        deletions[eid]
    } else {
        Seq::empty()
    }
}

/// A reader sees one of the stamps.
pub open spec fn any_seen(
    stamps: Seq<Timestamp>,
    txn_id: Option<Timestamp>,
    start_ts: Timestamp,
) -> bool {
    exists|i: int| 0 <= i < stamps.len() && sees(#[trigger] stamps[i], txn_id, start_ts)
}

// ---------------------------------------------------------------------------------------------
// Writing properties
// ---------------------------------------------------------------------------------------------

pub open spec fn value_or_null(value: Option<ScalarValue>) -> ScalarValue {
    match value {
        Some(v) => v,
        None => ScalarValue::Null,
    }
}

/// The newest values of some properties of an edge; null where there is none.
pub open spec fn latest_values(
    columns: Seq<ColumnModel>,
    location: (usize, usize),
    indices: Seq<usize>,
) -> Seq<ScalarValue> {
    Seq::new(
        indices.len(),
        |k: int|
            value_or_null(latest_value(versions_at(columns, indices[k] as int, location))),
    )
}

/// A column after a transaction has written a value.
pub open spec fn column_written(
    column: ColumnModel,
    location: (usize, usize),
    value: ScalarValue,
    ts: Timestamp,
) -> ColumnModel {
    let ready = column_with_block(column, location.0 as int, ts, ts);
    ready.update(
        location.0 as int,
        ready[location.0 as int].stamped(ts).version_pushed(
            location.1 as int,
            PropertyVersion { ts, value: Some(value) },
        ),
    )
}

/// The columns after the first `k` of some properties have been written.
pub open spec fn columns_written(
    columns: Seq<ColumnModel>,
    location: (usize, usize),
    indices: Seq<usize>,
    props: Seq<ScalarValue>,
    ts: Timestamp,
    k: nat,
) -> Seq<ColumnModel>
    decreases k,
{
    if k == 0 {
        columns
    } else {
        let before = columns_written(columns, location, indices, props, ts, (k - 1) as nat);
        let c = indices[k - 1] as int;
        before.update(c, column_written(before[c], location, props[k - 1], ts))
    }
}

impl StorageModel {
    /// Whether properties of an edge can be written: no column that is written ends before the
    /// block of the edge.
    pub open spec fn takes_properties(self, location: (usize, usize), indices: Seq<usize>) -> bool {
        forall|k: int|
            0 <= k < indices.len() && indices[k] < self.columns.len()
                ==> self.columns[#[trigger] indices[k] as int].len() >= location.0
    }

    /// The storage after a transaction has written properties of the edge at a location. The edge
    /// keeps the stamp of its creation.
    pub open spec fn properties_set(
        self,
        location: (usize, usize),
        indices: Seq<usize>,
        props: Seq<ScalarValue>,
        ts: Timestamp,
    ) -> StorageModel {
        StorageModel {
            blocks: self.blocks.update(
                location.0 as int,
                self.blocks[location.0 as int].stamped(ts),
            ),
            columns: columns_written(
                self.columns,
                location,
                indices,
                props,
                ts,
                indices.len(),
            ),
            ..self
        }
    }

    /// The storage after a transaction has deleted the edge at a location: the edge stays in its
    /// slot, with one more deletion recorded for it.
    pub open spec fn edge_buried(
        self,
        eid: EdgeId,
        location: (usize, usize),
        ts: Timestamp,
    ) -> StorageModel {
        StorageModel {
            blocks: self.blocks.update(
                location.0 as int,
                self.blocks[location.0 as int].stamped(ts),
            ),
            deletions: self.deletions.insert(
                eid,
                deletion_stamps(self.deletions, eid).push(ts),
            ),
            ..self
        }
    }

    /// The storage after the edge at a location has been taken out.
    pub open spec fn edge_removed(self, location: (usize, usize), eid: EdgeId) -> StorageModel {
        let b = location.0 as int;
        let n = self.blocks[b].edge_counter;
        let block = self.blocks[b].slot_removed(location.1 as int);
        StorageModel {
            blocks: self.blocks.update(b, block),
            locations: remapped(
                self.locations,
                block.edges,
                location.0,
                location.1 as int,
                block.edge_counter,
            ).remove(eid),
            columns: self.columns.map_values(
                |column: ColumnModel| column_removed(column, b, location.1 as int, n),
            ),
            ..self
        }
    }
}

// ---------------------------------------------------------------------------------------------
// Transactions
// ---------------------------------------------------------------------------------------------

/// A change that a transaction can take back.
#[verifier::ext_equal]
pub enum Undo {
    Create {
        eid: EdgeId,
        src_id: VertexId,
        dst_id: VertexId,
        label_id: LabelId,
        properties: Seq<ScalarValue>,
    },
    Delete { eid: EdgeId },
    SetProps { eid: EdgeId, indices: Seq<usize>, props: Seq<ScalarValue> },
    CreateVertex { vid: VertexId },
    DeleteVertex { vid: VertexId },
    SetVertexProps { vid: VertexId, indices: Seq<usize>, props: Seq<ScalarValue> },
    AddLabel { label_id: LabelId },
    RemoveLabel { label_id: LabelId },
}

impl View for DeltaOp {
    type V = Undo;

    open spec fn view(&self) -> Undo {
        match self {
            DeltaOp::CreateEdge(edge) => Undo::Create {
                eid: edge.eid,
                src_id: edge.src_id,
                dst_id: edge.dst_id,
                label_id: edge.label_id,
                properties: edge.properties.properties@,
            },
            DeltaOp::DelEdge(eid) => Undo::Delete { eid: *eid },
            DeltaOp::SetEdgeProps(eid, op) => Undo::SetProps {
                eid: *eid,
                indices: op.indices@,
                props: op.props@,
            },
            DeltaOp::CreateVertex(vid) => Undo::CreateVertex { vid: *vid },
            DeltaOp::DelVertex(vid) => Undo::DeleteVertex { vid: *vid },
            DeltaOp::SetVertexProps(vid, op) => Undo::SetVertexProps {
                vid: *vid,
                indices: op.indices@,
                props: op.props@,
            },
            DeltaOp::AddLabel(label_id) => Undo::AddLabel { label_id: *label_id },
            DeltaOp::RemoveLabel(label_id) => Undo::RemoveLabel { label_id: *label_id },
        }
    }
}

/// Label and destination of edges before their deletion.
pub type Deleted = Map<EdgeId, (Option<LabelId>, VertexId)>;

#[verifier::ext_equal]
pub struct TxnModel {
    pub txn_id: Timestamp,
    pub start_ts: Timestamp,
    pub isolation_level: IsolationLevel,
    pub commit_ts: Option<Timestamp>,
    pub undo: Seq<(Undo, Timestamp)>,
    pub deleted: Deleted,
}

impl TxnModel {
    pub open spec fn undo_pushed(self, op: Undo, ts: Timestamp) -> TxnModel {
        TxnModel { undo: self.undo.push((op, ts)), ..self }
    }

    pub open spec fn deletion_recorded(
        self,
        eid: EdgeId,
        label_id: Option<LabelId>,
        dst_id: VertexId,
    ) -> TxnModel {
        TxnModel { deleted: self.deleted.insert(eid, (label_id, dst_id)), ..self }
    }

    /// Nothing is left to take back.
    pub open spec fn cleared(self) -> TxnModel {
        TxnModel { undo: Seq::empty(), deleted: Map::empty(), ..self }
    }
}

/// A version list in which what a transaction wrote has been committed.
pub open spec fn promoted(versions: Versions, txn_id: Timestamp, commit_ts: Timestamp) -> Versions {
    versions.map_values(
        |v: PropertyVersion|
            if v.ts == txn_id {
                PropertyVersion { ts: commit_ts, ..v }
            } else {
                v
            },
    )
}

/// The stamps of deletions in which those of a transaction have been committed.
pub open spec fn stamps_promoted(
    stamps: Seq<Timestamp>,
    txn_id: Timestamp,
    commit_ts: Timestamp,
) -> Seq<Timestamp> {
    stamps.map_values(
        |ts: Timestamp|
            if ts == txn_id {
                commit_ts
            } else {
                ts
            },
    )
}

/// The stamps of deletions without those of a transaction.
pub open spec fn stamps_without(stamps: Seq<Timestamp>, txn_id: Timestamp) -> Seq<Timestamp> {
    stamps.filter(|ts: Timestamp| ts != txn_id)
}

/// A column after the versions that a transaction wrote for an edge have been committed.
pub open spec fn column_promoted(
    column: ColumnModel,
    location: (usize, usize),
    txn_id: Timestamp,
    commit_ts: Timestamp,
) -> ColumnModel {
    let b = location.0 as int;
    let offset = location.1 as int;
    if b < column.len() && offset < column[b].values.len() && exists|i: int|
        0 <= i < column[b].values[offset].len() && (#[trigger] column[b].values[offset][i]).ts
            == txn_id {
        column.update(
            b,
            column[b].with_versions(
                offset,
                promoted(column[b].values[offset], txn_id, commit_ts),
            ).stamped(commit_ts),
        )
    } else {
        column
    }
}

/// A version list without what a transaction wrote.
pub open spec fn without_txn(versions: Versions, txn_id: Timestamp) -> Versions {
    versions.filter(|v: PropertyVersion| v.ts != txn_id)
}

/// A column after the versions that a transaction wrote for an edge have been dropped.
pub open spec fn column_reverted(
    column: ColumnModel,
    location: (usize, usize),
    txn_id: Timestamp,
    old_ts: Timestamp,
) -> ColumnModel {
    let b = location.0 as int;
    let ready = column_with_block(column, b, old_ts, old_ts);
    let block = ready[b].stamped(old_ts);
    ready.update(
        b,
        block.with_versions(
            location.1 as int,
            without_txn(block.values[location.1 as int], txn_id),
        ),
    )
}

/// The columns after the first `k` of some properties of an edge have been reverted.
pub open spec fn columns_reverted(
    columns: Seq<ColumnModel>,
    location: (usize, usize),
    indices: Seq<usize>,
    txn_id: Timestamp,
    old_ts: Timestamp,
    k: nat,
) -> Seq<ColumnModel>
    decreases k,
{
    if k == 0 {
        columns
    } else {
        let before = columns_reverted(columns, location, indices, txn_id, old_ts, (k - 1) as nat);
        let c = indices[k - 1] as int;
        if c < before.len() {
            before.update(c, column_reverted(before[c], location, txn_id, old_ts))
        } else {
            before
        }
    }
}

impl StorageModel {
    /// The location of an edge that carries the mark of a transaction.
    pub open spec fn marked(self, eid: EdgeId, txn_id: Timestamp) -> Option<(usize, usize)> {
        match self.located(eid) {
            Some(location) if self.slot(location).commit_ts == txn_id => Some(location),
            _ => None,
        }
    }

    /// The storage after the edge at a location has got a commit timestamp, where it carries the
    /// mark of the transaction.
    pub open spec fn edge_committed(
        self,
        location: (usize, usize),
        txn_id: Timestamp,
        commit_ts: Timestamp,
    ) -> StorageModel {
        let b = location.0 as int;
        let slot = if self.slot(location).commit_ts == txn_id {
            OlapStorageEdge { commit_ts, ..self.slot(location) }
        } else {
            self.slot(location)
        };
        StorageModel {
            blocks: self.blocks.update(
                b,
                self.blocks[b].with_slot(location.1 as int, slot).committed(commit_ts),
            ),
            ..self
        }
    }

    /// The storage after what a transaction wrote of an edge's properties has been committed.
    pub open spec fn properties_committed(
        self,
        location: (usize, usize),
        txn_id: Timestamp,
        commit_ts: Timestamp,
    ) -> StorageModel {
        StorageModel {
            columns: self.columns.map_values(
                |column: ColumnModel| column_promoted(column, location, txn_id, commit_ts),
            ),
            ..self
        }
    }

    /// The storage after the deletions of an edge by a transaction have been committed.
    pub open spec fn deletion_committed(
        self,
        eid: EdgeId,
        txn_id: Timestamp,
        commit_ts: Timestamp,
    ) -> StorageModel {
        StorageModel {
            deletions: self.deletions.insert(
                eid,
                stamps_promoted(deletion_stamps(self.deletions, eid), txn_id, commit_ts),
            ),
            ..self
        }
    }

    /// The storage after one change of a transaction has been committed. Whatever other
    /// transactions have written to the same edge in the meantime, what this one wrote is
    /// committed.
    pub open spec fn change_committed(
        self,
        op: Undo,
        txn_id: Timestamp,
        commit_ts: Timestamp,
    ) -> StorageModel {
        match op {
            Undo::Create { eid, .. } | Undo::SetProps { eid, .. } => match self.located(eid) {
                Some(location) => self.edge_committed(
                    location,
                    txn_id,
                    commit_ts,
                ).properties_committed(location, txn_id, commit_ts),
                None => self,
            },
            Undo::Delete { eid } => match self.located(eid) {
                Some(location) => self.edge_committed(
                    location,
                    txn_id,
                    commit_ts,
                ).deletion_committed(eid, txn_id, commit_ts),
                None => self.deletion_committed(eid, txn_id, commit_ts),
            },
            _ => self,
        }
    }

    /// The storage after the first `k` changes of a transaction have been committed, in order.
    pub open spec fn changes_committed(
        self,
        undo: Seq<(Undo, Timestamp)>,
        txn_id: Timestamp,
        commit_ts: Timestamp,
        k: nat,
    ) -> StorageModel
        decreases k,
    {
        if k == 0 {
            self
        } else {
            self.changes_committed(undo, txn_id, commit_ts, (k - 1) as nat).change_committed(
                undo[k - 1].0,
                txn_id,
                commit_ts,
            )
        }
    }

    /// The storage after one change of a transaction has been taken back. What other transactions
    /// have written to the same edge stays.
    pub open spec fn change_undone(
        self,
        op: Undo,
        old_ts: Timestamp,
        txn_id: Timestamp,
    ) -> StorageModel {
        match op {
            Undo::Create { eid, .. } => match self.marked(eid, txn_id) {
                Some(location) => self.edge_removed(location, eid),
                None => self,
            },
            Undo::Delete { eid } => StorageModel {
                deletions: self.deletions.insert(
                    eid,
                    stamps_without(deletion_stamps(self.deletions, eid), txn_id),
                ),
                ..self
            },
            Undo::SetProps { eid, indices, .. } => match self.located(eid) {
                Some(location) => StorageModel {
                    columns: columns_reverted(
                        self.columns,
                        location,
                        indices,
                        txn_id,
                        old_ts,
                        indices.len(),
                    ),
                    ..self
                },
                None => self,
            },
            _ => self,
        }
    }

    /// Whether a change can be taken back: no column that has to be reverted ends before the block
    /// of the edge.
    pub open spec fn can_undo(self, op: Undo) -> bool {
        match op {
            Undo::SetProps { eid, indices, .. } => match self.located(eid) {
                Some(location) => self.takes_properties(location, indices),
                None => true,
            },
            _ => true,
        }
    }

    /// The storage after the changes from `k` on have been taken back, the last one first.
    pub open spec fn changes_undone(
        self,
        undo: Seq<(Undo, Timestamp)>,
        txn_id: Timestamp,
        k: nat,
    ) -> StorageModel
        decreases undo.len() - k,
    {
        if k >= undo.len() {
            self
        } else {
            self.changes_undone(undo, txn_id, k + 1).change_undone(
                undo[k as int].0,
                undo[k as int].1,
                txn_id,
            )
        }
    }

    /// Whether every change of a transaction can be taken back in turn.
    pub open spec fn can_undo_all(
        self,
        undo: Seq<(Undo, Timestamp)>,
        txn_id: Timestamp,
    ) -> bool {
        forall|k: nat|
            k < undo.len() ==> (#[trigger] self.changes_undone(undo, txn_id, k + 1)).can_undo(
                undo[k as int].0,
            )
    }
}

} // verus!
