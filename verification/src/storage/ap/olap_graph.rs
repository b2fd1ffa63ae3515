//! The storage itself: edges in blocks per source vertex, properties in columns, both versioned.

use vstd::prelude::*;
use dashmap::DashMap;
use crate::common::text::{decimal, decimal_text, numbered};
use crate::common::types::{EdgeId, LabelId, VertexId};
use crate::common::value::{copy_value, ScalarValue};
use crate::storage::ap::collections::{
    dense_get, dense_ids, edge_locations, location_get, location_insert, new_dense_ids,
    new_edge_locations,
};
use crate::storage::ap::deletions::DeletionLog;
use crate::storage::ap::model::{
    column_inserted, column_wf, blocks_wf, column_written, columns_extended, columns_wf,
    columns_written, committed_value, find_edge, latest_value, latest_values, remapped, slot_of,
    value_visible_at, versions_at, BlockModel, EdgeModel, StorageModel, TxnModel, Undo, WriteMode,
};
use crate::storage::ap::types::{
    property_at, CompressedEdgeBlock, CompressedPropertyColumn, EdgeBlock, OlapEdge,
    OlapPropertyStore, OlapStorageEdge, OlapVertex, PropertyColumn, PropertyVersion, BLOCK_CAPACITY,
};
use crate::storage::error::{
    edge_missing, edge_not_found, source_vertex_missing, source_vertex_not_found,
    vertex_block_not_found, vertex_missing, StorageError, StorageResult,
};
use crate::storage::ap::transaction::MemTransaction;
use crate::storage::model::{DeltaOp, Edge, PropertyRecord, SetPropsOp};
use crate::transaction::Timestamp;

verus! {

/// The value of the newest version.
pub fn latest_prop_value(versions: &Vec<PropertyVersion>) -> (r: Option<ScalarValue>)
    ensures
        r == latest_value(versions@),
{
    if versions.len() == 0 {
        None
    } else {
        copy_value(&versions[versions.len() - 1].value)
    }
}

/// The value of the newest version that a reader sees.
pub fn prop_value_visible_at(
    versions: &Vec<PropertyVersion>,
    txn_id: Option<Timestamp>,
    start_ts: Timestamp,
) -> (r: Option<ScalarValue>)
    ensures
        r == value_visible_at(versions@, txn_id, start_ts),
{
    let mut i: usize = versions.len();
    assert(versions@.take(i as int) =~= versions@);
    while i > 0
        invariant
            i <= versions.len(),
            value_visible_at(versions@, txn_id, start_ts) == value_visible_at(
                versions@.take(i as int),
                txn_id,
                start_ts,
            ),
        decreases i,
    {
        let v = &versions[i - 1];
        assert(versions@.take(i as int).drop_last() =~= versions@.take(i - 1));
        if v.ts.is_txn_id() {
            if Some(v.ts) == txn_id {
                return copy_value(&v.value);
            }
        } else if v.ts.raw() <= start_ts.raw() {
            return copy_value(&v.value);
        }
        i = i - 1;
    }
    None
}

/// The value of the newest committed version.
pub fn latest_committed_prop_value(versions: &Vec<PropertyVersion>) -> (r: Option<ScalarValue>)
    ensures
        r == committed_value(versions@),
{
    let mut i: usize = versions.len();
    assert(versions@.take(i as int) =~= versions@);
    while i > 0
        invariant
            i <= versions.len(),
            committed_value(versions@) == committed_value(versions@.take(i as int)),
        decreases i,
    {
        let v = &versions[i - 1];
        assert(versions@.take(i as int).drop_last() =~= versions@.take(i - 1));
        if !v.ts.is_txn_id() {
            return copy_value(&v.value);
        }
        i = i - 1;
    }
    None
}

/// Graph storage in compressed sparse rows.
pub struct OlapStorage {
    /// The next logical vertex identifier.
    pub logic_id_counter: u64,
    /// The next edge identifier.
    pub edge_id_counter: u64,
    /// Positions in `vertices`, by vertex identifier.
    pub dense_id_map: DashMap<VertexId, VertexId>,
    /// Block and slot, by edge identifier.
    pub edge_id_map: DashMap<EdgeId, (usize, usize)>,
    pub vertices: Vec<OlapVertex>,
    pub edges: Vec<EdgeBlock>,
    pub property_columns: Vec<PropertyColumn>,
    /// Which edges transactions have deleted, and when.
    pub deletions: DeletionLog,
    pub is_edge_compressed: bool,
    pub compressed_edges: Vec<CompressedEdgeBlock>,
    pub is_property_compressed: bool,
    pub compressed_properties: Vec<CompressedPropertyColumn>,
}

impl View for OlapStorage {
    type V = StorageModel;

    open spec fn view(&self) -> StorageModel {
        StorageModel {
            logic_id_counter: self.logic_id_counter,
            edge_id_counter: self.edge_id_counter,
            dense_ids: dense_ids(self.dense_id_map),
            locations: edge_locations(self.edge_id_map),
            vertices: self.vertices@.map_values(|v: OlapVertex| v@),
            blocks: self.edges@.map_values(|b: EdgeBlock| b@),
            columns: self.property_columns@.map_values(|c: PropertyColumn| c@),
            deletions: self.deletions@,
            is_edge_compressed: self.is_edge_compressed,
            compressed_edges: self.compressed_edges@.map_values(|b: CompressedEdgeBlock| b@),
            is_property_compressed: self.is_property_compressed,
            compressed_properties: self.compressed_properties@.map_values(
                |c: CompressedPropertyColumn| c@,
            ),
        }
    }
}

/// The storage without vertices, edges and properties. Edge identifiers begin at one: zero marks
/// an unused slot.
pub open spec fn empty_storage() -> StorageModel {
    StorageModel {
        logic_id_counter: 0,
        edge_id_counter: 1,
        dense_ids: Map::empty(),
        locations: Map::empty(),
        vertices: Seq::empty(),
        blocks: Seq::empty(),
        columns: Seq::empty(),
        deletions: Map::empty(),
        is_edge_compressed: false,
        compressed_edges: Seq::empty(),
        is_property_compressed: false,
        compressed_properties: Seq::empty(),
    }
}

impl OlapStorage {
    pub fn new() -> (r: OlapStorage)
        ensures
            r@ == empty_storage(),
            r@.wf(),
    {
        let r = OlapStorage {
            logic_id_counter: 0,
            edge_id_counter: 1,
            dense_id_map: new_dense_ids(),
            edge_id_map: new_edge_locations(),
            vertices: Vec::new(),
            edges: Vec::new(),
            property_columns: Vec::new(),
            deletions: DeletionLog::new(),
            is_edge_compressed: false,
            compressed_edges: Vec::new(),
            is_property_compressed: false,
            compressed_properties: Vec::new(),
        };
        assert(r@ =~= empty_storage());
        r
    }

    /// Adds property columns until there are `n`.
    fn extend_columns(&mut self, n: usize)
        requires
            old(self)@.wf(),
        ensures
            final(self)@ == (StorageModel {
                columns: columns_extended(old(self)@.columns, n as int),
                ..old(self)@
            }),
            final(self)@.wf(),
    {
        while self.property_columns.len() < n
            invariant
                self@.wf(),
                self@ == (StorageModel { columns: self@.columns, ..old(self)@ }),
                self@.columns.len() >= old(self)@.columns.len(),
                self@.columns.len() <= n || self@.columns.len() == old(self)@.columns.len(),
                self@.columns == columns_extended(old(self)@.columns, self@.columns.len() as int),
            decreases n - self.property_columns.len(),
        {
            let ghost before = self@;
            let column = PropertyColumn { blocks: Vec::new() };
            assert(column@ =~= Seq::empty());
            self.property_columns.push(column);
            assert(self@.columns =~= before.columns.push(Seq::empty()));
            assert(columns_wf(self@.columns)) by {
                assert forall|c: int| 0 <= c < self@.columns.len() implies column_wf(
                    #[trigger] self@.columns[c],
                ) by {
                    if c < before.columns.len() {
                        assert(self@.columns[c] == before.columns[c]);
                    }
                }
            }
            assert(self@ =~= (StorageModel { columns: self@.columns, ..old(self)@ }));
            assert(self@.columns =~= columns_extended(
                old(self)@.columns,
                self@.columns.len() as int,
            ));
        }
        assert(self@.columns =~= columns_extended(old(self)@.columns, n as int));
    }

    /// Makes sure that the last block of a vertex has room for one more edge.
    fn open_block(&mut self, v: usize, src_id: VertexId, mode: WriteMode)
        requires
            old(self)@.wf(),
            v < old(self)@.vertices.len(),
            old(self)@.has_block(v as int),
        ensures
            final(self)@ == old(self)@.block_opened(v as int, src_id, mode),
            final(self)@.wf(),
            final(self)@.vertices.len() == old(self)@.vertices.len(),
            final(self)@.vertices[v as int].block_offset < final(self)@.blocks.len(),
            final(self)@.blocks[final(self)@.vertices[v as int].block_offset as int].edge_counter
                < BLOCK_CAPACITY,
    {
        let off: usize = self.vertices[v].block_offset;
        let index: usize = self.edges.len();
        let ghost before = self@;
        if off == usize::MAX {
            self.edges.push(
                EdgeBlock::fresh(None, index, src_id, mode.fresh_min, mode.fresh_max),
            );
            self.vertices[v].block_offset = index;
            assert(self@ =~= before.block_appended(v as int, None, src_id, mode));
        } else if self.edges[off].edge_counter >= BLOCK_CAPACITY {
            self.edges.push(
                EdgeBlock::fresh(Some(off), index, src_id, mode.fresh_min, mode.fresh_max),
            );
            self.vertices[v].block_offset = index;
            assert(self@ =~= before.block_appended(v as int, Some(off), src_id, mode));
        }
    }

    /// Stores the first version of every property of a new edge.
    fn insert_properties(
        &mut self,
        b: usize,
        pos: usize,
        n: usize,
        properties: &OlapPropertyStore,
        mode: WriteMode,
    )
        requires
            old(self)@.wf(),
            pos <= n < BLOCK_CAPACITY,
            forall|c: int|
                0 <= c < old(self)@.columns.len() ==> (#[trigger] old(self)@.columns[c]).len()
                    >= b,
        ensures
            final(self)@ == (StorageModel {
                columns: Seq::new(
                    old(self)@.columns.len(),
                    |c: int|
                        column_inserted(
                            old(self)@.columns[c],
                            b as int,
                            pos as int,
                            n as int,
                            property_at(properties.properties@, c),
                            mode,
                        ),
                ),
                ..old(self)@
            }),
            final(self)@.wf(),
    {
        let mut i: usize = 0;
        while i < self.property_columns.len()
            invariant
                i <= self@.columns.len(),
                self@.columns.len() == old(self)@.columns.len(),
                self@.wf(),
                self@ == (StorageModel { columns: self@.columns, ..old(self)@ }),
                pos <= n < BLOCK_CAPACITY,
                forall|c: int|
                    i <= c < self@.columns.len() ==> #[trigger] self@.columns[c] == old(
                        self,
                    )@.columns[c] && self@.columns[c].len() >= b,
                forall|c: int|
                    0 <= c < i ==> #[trigger] self@.columns[c] == column_inserted(
                        old(self)@.columns[c],
                        b as int,
                        pos as int,
                        n as int,
                        property_at(properties.properties@, c),
                        mode,
                    ),
            decreases self.property_columns.len() - i,
        {
            let ghost before = self@;
            let value = properties.get(i);
            assert(column_wf(self@.columns[i as int]));
            self.property_columns[i].insert_property(b, pos, n, value, mode);
            assert(self@.columns =~= before.columns.update(
                i as int,
                column_inserted(
                    before.columns[i as int],
                    b as int,
                    pos as int,
                    n as int,
                    value,
                    mode,
                ),
            ));
            assert(columns_wf(self@.columns)) by {
                assert forall|c: int| 0 <= c < self@.columns.len() implies column_wf(
                    #[trigger] self@.columns[c],
                ) by {
                    if c != i {
                        assert(self@.columns[c] == before.columns[c]);
                    }
                }
            }
            assert(self@ =~= (StorageModel { columns: self@.columns, ..old(self)@ }));
            i = i + 1;
        }
        assert(self@ =~= (StorageModel {
            columns: Seq::new(
                old(self)@.columns.len(),
                |c: int|
                    column_inserted(
                        old(self)@.columns[c],
                        b as int,
                        pos as int,
                        n as int,
                        property_at(properties.properties@, c),
                        mode,
                    ),
            ),
            ..old(self)@
        }));
    }

    /// Puts an edge in a slot of the last block of a vertex.
    fn place_edge(&mut self, v: usize, edge: &OlapEdge, mode: WriteMode) -> (pos: usize)
        requires
            old(self)@.wf(),
            v < old(self)@.vertices.len(),
            old(self)@.vertices[v as int].block_offset < old(self)@.blocks.len(),
            old(self)@.blocks[old(self)@.vertices[v as int].block_offset as int].edge_counter
                < BLOCK_CAPACITY,
            old(self)@.columns_reach(
                old(self)@.vertices[v as int].block_offset as int,
                edge@.properties.len() as int,
                mode,
            ),
        ensures
            old(self)@.blocks[old(self)@.vertices[v as int].block_offset as int].is_slot_for(
                pos as int,
                edge@.dst_id,
                edge@.label_id,
            ),
            final(self)@ == old(self)@.edge_placed(v as int, pos as int, edge@, mode),
            final(self)@.wf(),
    {
        let ghost start = self@;
        let b: usize = self.vertices[v].block_offset;
        let eid: EdgeId = self.edge_id_counter;
        self.edge_id_counter = eid.wrapping_add(1);
        assert(self@.blocks[b as int].wf());
        let pos: usize = self.edges[b].find_slot(edge.dst_id, edge.label_id);
        let n: usize = self.edges[b].edge_counter;
        let slot = OlapStorageEdge {
            eid,
            label_id: edge.label_id,
            dst_id: edge.dst_id,
            commit_ts: mode.ts,
        };
        self.edges[b].insert_slot(pos, slot);
        let ghost filled = self.edges[b as int]@;
        self.edges[b].enter_locations(&mut self.edge_id_map, b, pos + 1, n + 1);
        location_insert(&mut self.edge_id_map, eid, (b, pos));
        let ghost entered = self@;
        assert(entered =~= (StorageModel {
            edge_id_counter: eid.wrapping_add(1),
            locations: remapped(start.locations, filled.edges, b, pos + 1, n + 1).insert(
                eid,
                (b, pos),
            ),
            blocks: start.blocks.update(b as int, filled),
            ..start
        }));
        assert(entered.wf());
        if mode.transactional {
            self.extend_columns(edge.properties.properties.len());
        }
        self.insert_properties(b, pos, n, &edge.properties, mode);
        let ghost stored = self@;
        assert(stored.blocks == entered.blocks);
        assert(stored.blocks.len() == self.edges.len());
        assert(stored.blocks[b as int] == self.edges[b as int]@);
        assert(self.edges[b as int]@ == filled);
        self.edges[b].widen(edge.dst_id, edge.label_id);
        if mode.transactional {
            self.edges[b].stamp(mode.ts);
        }
        let ghost placed = start.edge_placed(v as int, pos as int, edge@, mode);
        assert(self@.columns =~= stored.columns);
        assert(stored.columns =~= placed.columns);
        assert(self@.locations =~= placed.locations);
        assert(self.edges[b as int]@ == placed.blocks[b as int]);
        assert forall|k: int| 0 <= k < self@.blocks.len() implies self@.blocks[k]
            == placed.blocks[k] by {
            if k != b {
                assert(self.edges[k]@ == stored.blocks[k]);
                assert(entered.blocks[k] == start.blocks[k]);
            }
        }
        assert(self@.blocks =~= placed.blocks);
        assert(self@.vertices =~= placed.vertices);
        assert(self@ =~= placed);
        pos
    }

    /// Inserts an edge; see [`OlapStorage::create_edge`] and
    /// [`OlapStorage::create_edge_in_txn`].
    pub(crate) fn insert_edge(&mut self, edge: &OlapEdge, mode: WriteMode) -> (r: StorageResult<EdgeId>)
        requires
            old(self)@.wf(),
            old(self)@.takes_edge(edge@, mode),
        ensures
            edge_insertion(old(self)@, edge@, mode, r, final(self)@),
            final(self)@.wf(),
    {
        let v: usize = match dense_get(&self.dense_id_map, edge.src_id) {
            Some(dense_id) => dense_id as usize,
            None => {
                return Err(source_vertex_not_found(edge.src_id));
            },
        };
        if v >= self.vertices.len() {
            return Err(source_vertex_not_found(edge.src_id));
        }
        let off: usize = self.vertices[v].block_offset;
        if off != usize::MAX && off >= self.edges.len() {
            return Err(vertex_block_not_found(self.vertices[v].vid));
        }
        self.open_block(v, edge.src_id, mode);
        let eid: EdgeId = self.edge_id_counter;
        let pos: usize = self.place_edge(v, edge, mode);
        assert(edge_position(old(self)@, edge@, mode, v as int, pos as int));
        Ok(eid)
    }
}

/// The position is one where the storage puts a new edge of a known vertex.
pub open spec fn edge_position(
    before: StorageModel,
    edge: EdgeModel,
    mode: WriteMode,
    v: int,
    pos: int,
) -> bool {
    let opened = before.block_opened(v, edge.src_id, mode);
    opened.blocks[opened.vertices[v].block_offset as int].is_slot_for(
        pos,
        edge.dst_id,
        edge.label_id,
    )
}

/// What the insertion of an edge returns and leaves behind.
pub open spec fn edge_insertion(
    before: StorageModel,
    edge: EdgeModel,
    mode: WriteMode,
    r: StorageResult<EdgeId>,
    after: StorageModel,
) -> bool {
    match before.vertex_index(edge.src_id) {
        None => {
            &&& r is Err
            &&& r->Err_0.is_vertex_not_found(source_vertex_missing(edge.src_id))
            &&& after == before
        },
        Some(v) => if before.has_block(v) {
            &&& r == Ok::<EdgeId, StorageError>(before.edge_id_counter)
            &&& exists|pos: int|
                #[trigger] edge_position(before, edge, mode, v, pos) && after
                    == before.edge_created(v, pos, edge, mode)
        } else {
            &&& r is Err
            &&& r->Err_0.is_edge_not_found(vertex_missing(before.vertices[v].vid))
            &&& after == before
        },
    }
}


// ---------------------------------------------------------------------------------------------
// Transactional writes
// ---------------------------------------------------------------------------------------------

/// The stamp of a write in a transaction: its identifier everywhere.
pub open spec fn txn_mode(txn_id: Timestamp) -> WriteMode {
    WriteMode { ts: txn_id, fresh_min: txn_id, fresh_max: txn_id, transactional: true }
}

/// The stamp of a write outside transactions: it has always been there.
pub open spec fn plain_mode() -> WriteMode {
    WriteMode {
        ts: Timestamp(0),
        fresh_min: Timestamp::spec_max_commit_ts(),
        fresh_max: Timestamp(0),
        transactional: false,
    }
}

/// The label that the undo entry of an edge without label carries.
pub open spec fn label_or_one(label_id: Option<LabelId>) -> LabelId {
    match label_id {
        Some(label) => label,
        None => LabelId { raw: 1 },
    }
}

/// `indices/props length mismatch: {indices} vs {props}`
pub open spec fn length_mismatch(indices: int, props: int) -> Seq<char> {
    "indices/props length mismatch: "@ + decimal(indices as nat) + " vs "@ + decimal(props as nat)
}

fn length_mismatch_error(indices: usize, props: usize) -> (r: StorageError)
    ensures
        r.is_not_supported(length_mismatch(indices as int, props as int)),
{
    let mut text = numbered("indices/props length mismatch: ", indices as u64, " vs ");
    let tail = decimal_text(props as u64);
    text.append(tail.as_str());
    assert(text@ =~= length_mismatch(indices as int, props as int));
    StorageError::NotSupported(text)
}

/// What a transactional write of properties returns and leaves behind.
pub open spec fn property_write(
    before: StorageModel,
    txn: TxnModel,
    eid: EdgeId,
    indices: Seq<usize>,
    props: Seq<ScalarValue>,
    r: StorageResult<()>,
    after: StorageModel,
    txn_after: TxnModel,
) -> bool {
    if indices.len() != props.len() {
        &&& r is Err
        &&& r->Err_0.is_not_supported(length_mismatch(indices.len() as int, props.len() as int))
        &&& after == before
        &&& txn_after == txn
    } else {
        match before.writable(eid) {
            None => {
                &&& r is Err
                &&& r->Err_0.is_edge_not_found(edge_missing(eid))
                &&& after == before.with_writable(eid)
                &&& txn_after == txn
            },
            Some(location) => {
                let found = before.with_writable(eid);
                if exists|k: int|
                    0 <= k < indices.len() && #[trigger] indices[k] >= before.columns.len() {
                    &&& r is Err
                    &&& r->Err_0.is_not_supported("property index out of range"@)
                    &&& after == found
                    &&& txn_after == txn
                } else {
                    &&& r is Ok
                    &&& after == found.properties_set(location, indices, props, txn.txn_id)
                    &&& txn_after == txn.undo_pushed(
                        Undo::SetProps {
                            eid,
                            indices,
                            props: latest_values(before.columns, location, indices),
                        },
                        before.slot(location).commit_ts,
                    )
                }
            },
        }
    }
}

/// What a transactional deletion returns and leaves behind.
pub open spec fn edge_deletion(
    before: StorageModel,
    txn: TxnModel,
    eid: EdgeId,
    r: StorageResult<()>,
    after: StorageModel,
    txn_after: TxnModel,
) -> bool {
    match before.writable(eid) {
        None => {
            &&& r is Err
            &&& r->Err_0.is_edge_not_found(edge_missing(eid))
            &&& after == before.with_writable(eid)
            &&& txn_after == txn
        },
        Some(location) => {
            let slot = before.slot(location);
            &&& r is Ok
            &&& after == before.with_writable(eid).edge_buried(eid, location, txn.txn_id)
            &&& txn_after == txn.deletion_recorded(
                eid,
                slot.label_id,
                slot.dst_id,
            ).undo_pushed(Undo::Delete { eid }, slot.commit_ts)
        },
    }
}

impl OlapStorage {
    /// Whether a location holds an edge.
    pub fn holds_edge_at(&self, location: (usize, usize), eid: EdgeId) -> (r: bool)
        requires
            self@.wf(),
        ensures
            r == self@.holds_at(location, eid),
    {
        if location.0 < self.edges.len() {
            assert(self@.blocks[location.0 as int].wf());
            let block = &self.edges[location.0];
            location.1 < block.edge_counter && block.edges[location.1].eid == eid
        } else {
            false
        }
    }

    /// The first slot of a block that holds the edge.
    fn slot_in_block(&self, b: usize, eid: EdgeId) -> (r: Option<usize>)
        requires
            self@.wf(),
            b < self@.blocks.len(),
        ensures
            slot_of(self@.blocks[b as int], eid, 0) == (match r {
                Some(offset) => Some(offset as int),
                None => None,
            }),
    {
        let ghost block = self@.blocks[b as int];
        assert(block.wf());
        let mut offset: usize = 0;
        while offset < self.edges[b].edge_counter
            invariant
                b < self.edges.len(),
                block == self.edges[b as int]@,
                block.wf(),
                offset <= block.edge_counter,
                slot_of(block, eid, 0) == slot_of(block, eid, offset as int),
            decreases block.edge_counter - offset,
        {
            if self.edges[b].edges[offset].eid == eid {
                return Some(offset);
            }
            offset = offset + 1;
        }
        None
    }

    /// Where an edge is stored: at the preferred location, else at the recorded one, else in the
    /// first slot that holds it, which is then recorded.
    pub fn resolve_edge_location(
        &mut self,
        eid: EdgeId,
        preferred: Option<(usize, usize)>,
    ) -> (r: Option<(usize, usize)>)
        requires
            old(self)@.wf(),
        ensures
            r == old(self)@.resolved(eid, preferred),
            final(self)@ == old(self)@.with_resolved(eid, preferred),
            final(self)@.wf(),
    {
        if let Some(location) = preferred {
            if self.holds_edge_at(location, eid) {
                return Some(location);
            }
        }
        if let Some(location) = location_get(&self.edge_id_map, eid) {
            if self.holds_edge_at(location, eid) {
                return Some(location);
            }
        }
        let mut b: usize = 0;
        while b < self.edges.len()
            invariant
                *self == *old(self),
                self@.wf(),
                b <= self@.blocks.len(),
                find_edge(self@.blocks, eid, 0) == find_edge(self@.blocks, eid, b as int),
                self@.located(eid) is None,
                preferred is Some ==> !self@.holds_at(preferred->0, eid),
            decreases self.edges.len() - b,
        {
            if let Some(offset) = self.slot_in_block(b, eid) {
                location_insert(&mut self.edge_id_map, eid, (b, offset));
                assert(self@ =~= old(self)@.with_resolved(eid, preferred));
                return Some((b, offset));
            }
            b = b + 1;
        }
        None
    }

    /// The location of an edge that can be written: its block is in use.
    fn find_writable(&mut self, eid: EdgeId) -> (r: Option<(usize, usize)>)
        requires
            old(self)@.wf(),
        ensures
            r == old(self)@.writable(eid),
            final(self)@ == old(self)@.with_writable(eid),
            final(self)@.wf(),
            r is Some ==> final(self)@.holds_at(r->0, eid),
    {
        let initial = match location_get(&self.edge_id_map, eid) {
            Some(location) => location,
            None => {
                return None;
            },
        };
        let ghost before = self@;
        assert(before.blocks.len() == self.edges.len());
        let location = match self.resolve_edge_location(eid, Some(initial)) {
            Some(location) => location,
            None => {
                return None;
            },
        };
        proof {
            lemma_resolved_holds(before, eid, Some(initial));
        }
        assert(self@.blocks[location.0 as int].wf());
        if self.edges[location.0].is_tombstone {
            return None;
        }
        Some(location)
    }

    /// Inserts an edge for a transaction and records how to take it back.
    pub fn create_edge_in_txn(&mut self, txn: &mut MemTransaction, edge: OlapEdge) -> (r:
        StorageResult<EdgeId>)
        requires
            old(self)@.wf(),
            old(self)@.takes_edge(edge@, txn_mode(old(txn)@.txn_id)),
        ensures
            edge_insertion(old(self)@, edge@, txn_mode(old(txn)@.txn_id), r, final(self)@),
            final(self)@.wf(),
            r is Err ==> final(txn)@ == old(txn)@,
            r is Ok ==> final(txn)@ == old(txn)@.undo_pushed(
                Undo::Create {
                    eid: r->Ok_0,
                    src_id: edge@.src_id,
                    dst_id: edge@.dst_id,
                    label_id: label_or_one(edge@.label_id),
                    properties: Seq::empty(),
                },
                old(txn)@.txn_id,
            ),
    {
        let ts: Timestamp = txn.txn_id;
        let mode = WriteMode { ts, fresh_min: ts, fresh_max: ts, transactional: true };
        match self.insert_edge(&edge, mode) {
            Ok(eid) => {
                let label_id = match edge.label_id {
                    Some(label) => label,
                    None => LabelId { raw: 1 },
                };
                let undo = Edge::new(
                    eid,
                    edge.src_id,
                    edge.dst_id,
                    label_id,
                    PropertyRecord::default(),
                );
                txn.push_undo(DeltaOp::CreateEdge(undo), ts);
                Ok(eid)
            },
            Err(e) => Err(e),
        }
    }

    /// The newest values of some properties of an edge; null where there is none.
    fn read_latest(&self, location: (usize, usize), indices: &Vec<usize>) -> (r: Vec<ScalarValue>)
        ensures
            r@ == latest_values(self@.columns, location, indices@),
    {
        let mut r: Vec<ScalarValue> = Vec::new();
        let mut k: usize = 0;
        while k < indices.len()
            invariant
                k <= indices.len(),
                r.len() == k,
                forall|j: int|
                    0 <= j < k ==> #[trigger] r@[j] == latest_values(
                        self@.columns,
                        location,
                        indices@,
                    )[j],
            decreases indices.len() - k,
        {
            let value = match self.versions_in(indices[k], location) {
                Some(versions) => latest_prop_value(versions),
                None => None,
            };
            match value {
                Some(v) => r.push(v),
                None => r.push(ScalarValue::Null),
            }
            k = k + 1;
        }
        assert(r@ =~= latest_values(self@.columns, location, indices@));
        r
    }

    /// The versions of a property of the edge at a location, where something is stored.
    pub fn versions_in(&self, c: usize, location: (usize, usize)) -> (r: Option<&Vec<PropertyVersion>>)
        ensures
            versions_at(self@.columns, c as int, location) == (match r {
                Some(versions) => versions@,
                None => Seq::empty(),
            }),
    {
        if c < self.property_columns.len() {
            let column = &self.property_columns[c];
            assert(self@.columns[c as int] == column@);
            if location.0 < column.blocks.len() {
                let block = &column.blocks[location.0];
                assert(column@[location.0 as int] == block@);
                if location.1 < block.values.len() {
                    return Some(&block.values[location.1]);
                }
            }
        }
        None
    }

    /// Whether there is a column for every index.
    fn has_columns(&self, indices: &Vec<usize>) -> (r: bool)
        ensures
            r == !(exists|k: int|
                0 <= k < indices@.len() && #[trigger] indices@[k] >= self@.columns.len()),
    {
        let mut i: usize = 0;
        while i < indices.len()
            invariant
                i <= indices.len(),
                forall|k: int| 0 <= k < i ==> #[trigger] indices@[k] < self@.columns.len(),
            decreases indices.len() - i,
        {
            if indices[i] >= self.property_columns.len() {
                assert(indices@[i as int] >= self@.columns.len());
                return false;
            }
            i = i + 1;
        }
        true
    }

    /// Writes one property of an edge for a transaction.
    fn write_property(
        &mut self,
        c: usize,
        location: (usize, usize),
        value: ScalarValue,
        ts: Timestamp,
    )
        requires
            old(self)@.wf(),
            c < old(self)@.columns.len(),
            old(self)@.columns[c as int].len() >= location.0,
            location.1 < BLOCK_CAPACITY,
        ensures
            final(self)@ == (StorageModel {
                columns: old(self)@.columns.update(
                    c as int,
                    column_written(old(self)@.columns[c as int], location, value, ts),
                ),
                ..old(self)@
            }),
            final(self)@.wf(),
    {
        let b: usize = location.0;
        let ghost column = self@.columns[c as int];
        assert(column_wf(column));
        self.property_columns[c].ensure_block(b, ts, ts);
        let ghost ready = self.property_columns[c as int]@;
        assert(ready[b as int].wf());
        self.property_columns[c].blocks[b].stamp(ts);
        self.property_columns[c].blocks[b].push_version(
            location.1,
            PropertyVersion { ts, value: Some(value) },
        );
        assert(self.property_columns[c as int]@ =~= column_written(column, location, value, ts));
        assert(self@.columns =~= old(self)@.columns.update(
            c as int,
            column_written(column, location, value, ts),
        ));
        assert(self@ =~= (StorageModel { columns: self@.columns, ..old(self)@ }));
        assert(columns_wf(self@.columns)) by {
            assert forall|d: int| 0 <= d < self@.columns.len() implies column_wf(
                #[trigger] self@.columns[d],
            ) by {
                if d != c {
                    assert(self@.columns[d] == old(self)@.columns[d]);
                }
            }
        }
    }

    /// Writes properties of an edge for a transaction and records how to take it back.
    pub fn set_edge_property_in_txn(
        &mut self,
        txn: &mut MemTransaction,
        eid: EdgeId,
        indices: Vec<usize>,
        props: Vec<ScalarValue>,
    ) -> (r: StorageResult<()>)
        requires
            old(self)@.wf(),
            old(self)@.writable(eid) matches Some(location) ==> old(self)@.takes_properties(
                location,
                indices@,
            ),
        ensures
            property_write(
                old(self)@,
                old(txn)@,
                eid,
                indices@,
                props@,
                r,
                final(self)@,
                final(txn)@,
            ),
            final(self)@.wf(),
    {
        if indices.len() != props.len() {
            return Err(length_mismatch_error(indices.len(), props.len()));
        }
        let location = match self.find_writable(eid) {
            Some(location) => location,
            None => {
                return Err(edge_not_found(eid));
            },
        };
        let ghost found = self@;
        let b: usize = location.0;
        let offset: usize = location.1;
        assert(found.blocks[b as int].wf());
        if !self.has_columns(&indices) {
            return Err(StorageError::NotSupported("property index out of range".to_owned()));
        }
        let ts: Timestamp = txn.txn_id;
        let old_props = self.read_latest(location, &indices);
        let old_commit_ts: Timestamp = self.edges[b].edges[offset].commit_ts;
        let mut recorded: Vec<usize> = Vec::new();
        let mut j: usize = 0;
        while j < indices.len()
            invariant
                j <= indices.len(),
                recorded@ == indices@.take(j as int),
            decreases indices.len() - j,
        {
            recorded.push(indices[j]);
            j = j + 1;
            assert(recorded@ =~= indices@.take(j as int));
        }
        assert(recorded@ =~= indices@);
        txn.push_undo(
            DeltaOp::SetEdgeProps(eid, SetPropsOp { indices: recorded, props: old_props }),
            old_commit_ts,
        );
        self.edges[b].stamp(ts);
        let ghost marked = self@;
        assert(marked.blocks =~= found.properties_set(location, indices@, props@, ts).blocks);
        assert(marked =~= (StorageModel { blocks: marked.blocks, ..found }));
        assert(blocks_wf(marked.blocks));
        let mut k: usize = 0;
        while k < indices.len()
            invariant
                k <= indices.len() == props.len(),
                offset < BLOCK_CAPACITY,
                location == (b, offset),
                self@.wf(),
                self@.columns.len() == marked.columns.len(),
                self@ == (StorageModel {
                    columns: columns_written(
                        marked.columns,
                        location,
                        indices@,
                        props@,
                        ts,
                        k as nat,
                    ),
                    ..marked
                }),
                forall|m: int| 0 <= m < indices.len() ==> #[trigger] indices[m]
                    < marked.columns.len(),
                forall|m: int|
                    0 <= m < indices.len() ==> self@.columns[#[trigger] indices[m] as int].len()
                        >= b,
            decreases indices.len() - k,
        {
            let ghost before = self@;
            self.write_property(indices[k], location, props[k].clone(), ts);
            assert forall|m: int| 0 <= m < indices.len() implies self@.columns[
                #[trigger] indices[m] as int
            ].len()
                >= b by {
                assert(before.columns[indices[m] as int].len() >= b);
            }
            k = k + 1;
        }
        assert(self@ =~= found.properties_set(location, indices@, props@, ts));
        Ok(())
    }

    /// Deletes an edge for a transaction and records how to take it back. The edge stays in its
    /// slot for those who do not see the deletion.
    pub fn delete_edge_in_txn(&mut self, txn: &mut MemTransaction, eid: EdgeId) -> (r:
        StorageResult<()>)
        requires
            old(self)@.wf(),
        ensures
            edge_deletion(old(self)@, old(txn)@, eid, r, final(self)@, final(txn)@),
            final(self)@.wf(),
    {
        let location = match self.find_writable(eid) {
            Some(location) => location,
            None => {
                return Err(edge_not_found(eid));
            },
        };
        let ghost found = self@;
        let b: usize = location.0;
        let offset: usize = location.1;
        assert(found.blocks[b as int].wf());
        let ts: Timestamp = txn.txn_id;
        let slot = self.edges[b].edges[offset];
        txn.record_deleted_edge(eid, slot.label_id, slot.dst_id);
        txn.push_undo(DeltaOp::DelEdge(eid), slot.commit_ts);
        self.edges[b].stamp(ts);
        self.deletions.mark(eid, ts);
        assert(self@.blocks =~= found.edge_buried(eid, location, ts).blocks);
        assert(self@ =~= found.edge_buried(eid, location, ts));
        assert(blocks_wf(self@.blocks));
        Ok(())
    }
}

proof fn lemma_slot_of(block: BlockModel, eid: EdgeId, from: int)
    requires
        from >= 0,
    ensures
        slot_of(block, eid, from) matches Some(offset) ==> block.holds(offset, eid),
    decreases block.edge_counter - from,
{
    if from < block.edge_counter && block.edges[from].eid != eid {
        lemma_slot_of(block, eid, from + 1);
    }
}

proof fn lemma_find_edge(blocks: Seq<BlockModel>, eid: EdgeId, from: int)
    requires
        from >= 0,
    ensures
        find_edge(blocks, eid, from) matches Some((b, offset)) ==> 0 <= b < blocks.len()
            && blocks[b].holds(offset, eid),
    decreases blocks.len() - from,
{
    if from < blocks.len() {
        lemma_slot_of(blocks[from], eid, 0);
        if slot_of(blocks[from], eid, 0) is None {
            lemma_find_edge(blocks, eid, from + 1);
        }
    }
}

/// A resolved location holds the edge.
proof fn lemma_resolved_holds(
    storage: StorageModel,
    eid: EdgeId,
    preferred: Option<(usize, usize)>,
)
    requires
        storage.wf(),
        storage.blocks.len() <= usize::MAX,
    ensures
        storage.resolved(eid, preferred) matches Some(location) ==> storage.holds_at(
            location,
            eid,
        ),
{
    lemma_find_edge(storage.blocks, eid, 0);
    if let Some((b, offset)) = find_edge(storage.blocks, eid, 0) {
        assert(storage.blocks[b].wf());
    }
}

} // verus!
