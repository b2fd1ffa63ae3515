//! Writes outside transactions.

use vstd::prelude::*;
use crate::common::text::{decimal, numbered};
use crate::common::types::{EdgeId, VertexId};
use crate::common::value::ScalarValue;
use crate::storage::ap::collections::{
    dense_contains, dense_get, dense_insert, dense_remove, location_get, location_remove,
};
use crate::storage::ap::model::{
    blocks_wf, column_wf, columns_wf, BlockModel, ColumnModel, StorageModel, VertexModel, WriteMode,
};
use crate::storage::ap::olap_graph::{edge_insertion, plain_mode, OlapStorage};
use crate::storage::ap::transaction::MemTransaction;
use crate::storage::ap::types::{OlapEdge, OlapVertex, PropertyVersion};
use crate::storage::error::{
    edge_block_missing, edge_block_not_found, edge_missing, edge_not_found, vertex_missing,
    vertex_not_found, StorageError, StorageResult, VertexNotFoundError,
};
use crate::transaction::Timestamp;

verus! {

/// `Vertex {vid} is existed`
pub open spec fn vertex_exists(vid: VertexId) -> Seq<char> {
    "Vertex "@ + decimal(vid as nat) + " is existed"@
}

/// `Vertex ID {vid} not found`
pub open spec fn vertex_id_missing(vid: VertexId) -> Seq<char> {
    "Vertex ID "@ + decimal(vid as nat) + " not found"@
}

/// The blocks after block `b` and the blocks before it in its chain have been buried.
pub open spec fn chain_buried(blocks: Seq<BlockModel>, b: int) -> Seq<BlockModel>
    decreases b,
{
    if 0 <= b < blocks.len() {
        let next = blocks.update(b, blocks[b].buried());
        match blocks[b].pre_block_index {
            Some(pre) if pre < b => chain_buried(next, pre as int),
            _ => next,
        }
    } else {
        blocks
    }
}

/// The properties after the first `k` of some positions have been replaced.
pub open spec fn properties_replaced(
    properties: Seq<ScalarValue>,
    indices: Seq<usize>,
    props: Seq<ScalarValue>,
    k: nat,
) -> Seq<ScalarValue>
    decreases k,
{
    if k == 0 {
        properties
    } else {
        properties_replaced(properties, indices, props, (k - 1) as nat).update(
            indices[k - 1] as int,
            props[k - 1],
        )
    }
}

/// A column after a value that has always been there has been added for an edge, where the column
/// has a slot for it.
pub open spec fn column_amended(
    column: ColumnModel,
    location: (usize, usize),
    value: ScalarValue,
) -> ColumnModel {
    if location.0 < column.len() && location.1 < column[location.0 as int].values.len() {
        column.update(
            location.0 as int,
            column[location.0 as int].version_pushed(
                location.1 as int,
                PropertyVersion { ts: Timestamp(0), value: Some(value) },
            ),
        )
    } else {
        column
    }
}

/// The columns after the first `k` of some properties of an edge have been amended.
pub open spec fn columns_amended(
    columns: Seq<ColumnModel>,
    location: (usize, usize),
    indices: Seq<usize>,
    props: Seq<ScalarValue>,
    k: nat,
) -> Seq<ColumnModel>
    decreases k,
{
    if k == 0 {
        columns
    } else {
        let before = columns_amended(columns, location, indices, props, (k - 1) as nat);
        let c = indices[k - 1] as int;
        if c < before.len() {
            before.update(c, column_amended(before[c], location, props[k - 1]))
        } else {
            before
        }
    }
}

/// The length of the shorter of two lists.
pub open spec fn shorter(a: nat, b: nat) -> nat {
    if a <= b {
        a
    } else {
        b
    }
}

/// A position after the vertex at `v` has been taken out: one less behind it, up to `end`.
pub open spec fn lowered(position: u64, v: int, end: int) -> u64 {
    if v < position <= end {
        (position - 1) as u64
    } else {
        position
    }
}

impl StorageModel {
    /// The storage after the only edge of a block has been deleted: the block is buried with the
    /// edge still in its slot.
    pub open spec fn last_edge_deleted(self, location: (usize, usize), eid: EdgeId) -> StorageModel {
        let b = location.0 as int;
        StorageModel {
            blocks: self.blocks.update(
                b,
                BlockModel { edge_counter: 0, ..self.blocks[b].buried() },
            ),
            locations: self.locations.remove(eid),
            ..self
        }
    }

    pub open spec fn edge_deleted(self, location: (usize, usize), eid: EdgeId) -> StorageModel {
        if self.blocks[location.0 as int].edge_counter == 1 {
            self.last_edge_deleted(location, eid)
        } else {
            self.edge_removed(location, eid)
        }
    }

    /// The storage with a vertex at the next position.
    pub open spec fn vertex_created(self, vertex: VertexModel) -> StorageModel {
        StorageModel {
            logic_id_counter: (self.logic_id_counter + 1) as u64,
            dense_ids: self.dense_ids.insert(vertex.vid, self.logic_id_counter),
            vertices: self.vertices.push(VertexModel { block_offset: usize::MAX, ..vertex }),
            ..self
        }
    }

    /// The storage without the vertex at a position; the vertices behind it move one position
    /// nearer.
    pub open spec fn vertex_removed(self, v: int) -> StorageModel {
        let vid = self.vertices[v].vid;
        StorageModel {
            logic_id_counter: (self.logic_id_counter - 1) as u64,
            dense_ids: Map::new(
                |other: VertexId| self.dense_ids.dom().contains(other) && other != vid,
                |other: VertexId| lowered(self.dense_ids[other], v, u64::MAX as int),
            ),
            vertices: self.vertices.remove(v),
            ..self
        }
    }
}

impl OlapStorage {
    /// Adds a vertex without edges, unless its identifier is taken.
    pub fn create_vertex(&mut self, txn: &MemTransaction, vertex: OlapVertex) -> (r: StorageResult<
        VertexId,
    >)
        requires
            old(self)@.wf(),
        ensures
            final(self)@.wf(),
            if old(self)@.dense_ids.dom().contains(vertex@.vid) {
                &&& r is Err
                &&& r->Err_0.is_vertex_not_found(vertex_exists(vertex@.vid))
                &&& final(self)@ == old(self)@
            } else {
                &&& r == Ok::<VertexId, StorageError>(vertex@.vid)
                &&& final(self)@ == old(self)@.vertex_created(vertex@)
            },
    {
        let vid: VertexId = vertex.vid;
        if dense_contains(&self.dense_id_map, vid) {
            return Err(
                StorageError::VertexNotFound(
                    VertexNotFoundError::VertexNotFound(numbered("Vertex ", vid, " is existed")),
                ),
            );
        }
        let index: u64 = self.logic_id_counter;
        dense_insert(&mut self.dense_id_map, vid, index);
        let mut placed = vertex;
        placed.block_offset = usize::MAX;
        assert(self.vertices@.len() == old(self)@.vertices.len());
        self.vertices.insert(index as usize, placed);
        assert(self.vertices.len() == index + 1);
        self.logic_id_counter = index + 1;
        assert(self@ =~= old(self)@.vertex_created(vertex@));
        proof {
            lemma_vertex_created(old(self)@, vertex@);
        }
        Ok(vid)
    }

    /// Adds an edge that has always been there: every reader sees it. The timestamp bounds of its
    /// block are those of transactions, and stay as they are; a block that is opened for the edge
    /// starts with the greatest commit timestamp as the lower one.
    pub fn create_edge(&mut self, txn: &MemTransaction, edge: OlapEdge) -> (r: StorageResult<
        EdgeId,
    >)
        requires
            old(self)@.wf(),
            old(self)@.takes_edge(edge@, plain_mode()),
        ensures
            edge_insertion(old(self)@, edge@, plain_mode(), r, final(self)@),
            final(self)@.wf(),
    {
        let mode = WriteMode {
            ts: Timestamp::with_ts(0),
            fresh_min: Timestamp::max_commit_ts(),
            fresh_max: Timestamp::with_ts(0),
            transactional: false,
        };
        self.insert_edge(&edge, mode)
    }

    /// Buries a block and the blocks before it in its chain.
    fn bury_chain(&mut self, b: usize)
        requires
            old(self)@.wf(),
            b < old(self)@.blocks.len(),
        ensures
            final(self)@ == (StorageModel {
                blocks: chain_buried(old(self)@.blocks, b as int),
                ..old(self)@
            }),
            final(self)@.wf(),
        decreases b,
    {
        let ghost before = self@;
        assert(before.blocks[b as int].wf());
        assert(before.blocks[b as int] == self.edges[b as int]@);
        self.edges[b].is_tombstone = true;
        assert(self@.blocks =~= before.blocks.update(b as int, before.blocks[b as int].buried()));
        assert(self@ =~= (StorageModel { blocks: self@.blocks, ..before }));
        assert(blocks_wf(self@.blocks));
        if let Some(pre) = self.edges[b].pre_block_index {
            self.bury_chain(pre);
        }
    }

    /// Gives the vertices from a position on the positions that they have now.
    fn lower_positions(&mut self, from: usize)
        requires
            from <= old(self)@.vertices.len(),
        ensures
            final(self).vertices@ == old(self).vertices@,
            final(self)@ == (StorageModel { dense_ids: final(self)@.dense_ids, ..old(self)@ }),
            final(self)@.dense_ids == positions_entered(
                old(self)@.dense_ids,
                old(self)@.vertices,
                from as int,
                old(self)@.vertices.len() as int,
            ),
    {
        let mut i: usize = from;
        while i < self.vertices.len()
            invariant
                from <= i <= self@.vertices.len(),
                self.vertices@ == old(self).vertices@,
                self@ == (StorageModel { dense_ids: self@.dense_ids, ..old(self)@ }),
                self@.dense_ids == positions_entered(
                    old(self)@.dense_ids,
                    old(self)@.vertices,
                    from as int,
                    i as int,
                ),
            decreases self.vertices.len() - i,
        {
            let vid: VertexId = self.vertices[i].vid;
            assert(vid == old(self)@.vertices[i as int].vid);
            dense_insert(&mut self.dense_id_map, vid, i as u64);
            i = i + 1;
            assert(self@ =~= (StorageModel { dense_ids: self@.dense_ids, ..old(self)@ }));
        }
    }

    /// Removes a vertex that has edges, and buries its blocks. The vertices behind it move one
    /// position nearer.
    pub fn delete_vertex(&mut self, txn: &MemTransaction, vid: VertexId) -> (r: StorageResult<()>)
        requires
            old(self)@.wf(),
            old(self)@.vertex_index(vid) matches Some(v) ==> old(self)@.vertices[v].block_offset
                < old(self)@.blocks.len(),
        ensures
            final(self)@.wf(),
            final(self)@.vertex_index(vid) is None,
            match old(self)@.vertex_index(vid) {
                None => {
                    &&& r is Err
                    &&& r->Err_0.is_vertex_not_found(vertex_missing(vid))
                    &&& final(self)@ == old(self)@
                },
                Some(v) => {
                    &&& r is Ok
                    &&& final(self)@ == (StorageModel {
                        blocks: chain_buried(
                            old(self)@.blocks,
                            old(self)@.vertices[v].block_offset as int,
                        ),
                        ..old(self)@.vertex_removed(v)
                    })
                },
            },
    {
        let ghost before = self@;
        assert(before.vertices.len() == self.vertices.len());
        let position: u64 = match dense_get(&self.dense_id_map, vid) {
            Some(position) => position,
            None => {
                return Err(vertex_not_found(vid));
            },
        };
        assert(before.dense_ids.dom().contains(vid));
        let index: usize = position as usize;
        let vertex = self.vertices.remove(index);
        let b: usize = vertex.block_offset;
        dense_remove(&mut self.dense_id_map, vid);
        self.logic_id_counter = self.logic_id_counter - 1;
        let ghost taken = self@;
        assert(taken =~= (StorageModel {
            vertices: before.vertices.remove(index as int),
            dense_ids: before.dense_ids.remove(vid),
            logic_id_counter: (before.logic_id_counter - 1) as u64,
            ..before
        }));
        self.lower_positions(index);
        proof {
            lemma_vertex_removed(before, index as int);
            assert(self@ =~= before.vertex_removed(index as int));
        }
        self.bury_chain(b);
        Ok(())
    }

    /// Takes an edge out of its block. The last edge of a block takes the block with it, until
    /// another edge is put there.
    pub fn delete_edge(&mut self, txn: &MemTransaction, eid: EdgeId) -> (r: StorageResult<()>)
        requires
            old(self)@.wf(),
            old(self)@.locations.dom().contains(eid) ==> old(self)@.locations[eid].0 < old(
                self,
            )@.blocks.len(),
        ensures
            final(self)@.wf(),
            match old(self)@.located(eid) {
                None => {
                    &&& r is Err
                    &&& r->Err_0.is_edge_not_found(edge_missing(eid))
                    &&& final(self)@ == old(self)@
                },
                Some(location) => r is Ok && final(self)@ == old(self)@.edge_deleted(
                    location,
                    eid,
                ),
            },
    {
        let location = match self.locate(eid) {
            Some(location) => location,
            None => {
                return Err(edge_not_found(eid));
            },
        };
        let b: usize = location.0;
        assert(self@.blocks[b as int].wf());
        if self.edges[b].edge_counter == 1 {
            let ghost before = self@;
            self.edges[b].edge_counter = 0;
            self.edges[b].is_tombstone = true;
            location_remove(&mut self.edge_id_map, eid);
            assert(self@ =~= before.last_edge_deleted(location, eid));
            assert(blocks_wf(self@.blocks));
        } else {
            self.remove_edge_at(location, eid);
        }
        Ok(())
    }

    /// Replaces properties of a vertex.
    pub fn set_vertex_property(
        &mut self,
        txn: &MemTransaction,
        vid: VertexId,
        indices: Vec<usize>,
        props: Vec<ScalarValue>,
    ) -> (r: StorageResult<()>)
        requires
            old(self)@.wf(),
            old(self)@.vertex_index(vid) matches Some(v) ==> forall|k: int|
                0 <= k < shorter(indices@.len(), props@.len()) ==> #[trigger] indices@[k] < old(
                    self,
                )@.vertices[v].properties.len(),
        ensures
            final(self)@.wf(),
            match old(self)@.vertex_index(vid) {
                None => {
                    &&& r is Err
                    &&& r->Err_0.is_vertex_not_found(vertex_id_missing(vid))
                    &&& final(self)@ == old(self)@
                },
                Some(v) => {
                    &&& r is Ok
                    &&& final(self)@ == (StorageModel {
                        vertices: old(self)@.vertices.update(
                            v,
                            VertexModel {
                                properties: properties_replaced(
                                    old(self)@.vertices[v].properties,
                                    indices@,
                                    props@,
                                    shorter(indices@.len(), props@.len()),
                                ),
                                ..old(self)@.vertices[v]
                            },
                        ),
                        ..old(self)@
                    })
                },
            },
    {
        let v: usize = match dense_get(&self.dense_id_map, vid) {
            Some(index) => index as usize,
            None => {
                return Err(
                    StorageError::VertexNotFound(
                        VertexNotFoundError::VertexNotFound(
                            numbered("Vertex ID ", vid, " not found"),
                        ),
                    ),
                );
            },
        };
        assert(self@.dense_ids.dom().contains(vid));
        let ghost start = self@.vertices[v as int];
        let ghost n = shorter(indices@.len(), props@.len());
        let mut k: usize = 0;
        while k < indices.len() && k < props.len()
            invariant
                v < self.vertices.len(),
                v < old(self)@.vertices.len(),
                n == shorter(indices@.len(), props@.len()),
                k <= n,
                start == old(self)@.vertices[v as int],
                forall|m: int| 0 <= m < n ==> #[trigger] indices@[m] < start.properties.len(),
                self@ == (StorageModel {
                    vertices: old(self)@.vertices.update(
                        v as int,
                        VertexModel {
                            properties: properties_replaced(
                                start.properties,
                                indices@,
                                props@,
                                k as nat,
                            ),
                            ..start
                        },
                    ),
                    ..old(self)@
                }),
                properties_replaced(start.properties, indices@, props@, k as nat).len()
                    == start.properties.len(),
            decreases indices.len() - k,
        {
            let ghost before = self@;
            assert(before.vertices[v as int] == self.vertices[v as int]@);
            assert(indices@[k as int] < start.properties.len());
            self.vertices[v].properties.set_prop(indices[k], props[k].clone());
            assert(self@.vertices =~= before.vertices.update(
                v as int,
                VertexModel {
                    properties: before.vertices[v as int].properties.update(
                        indices@[k as int] as int,
                        props@[k as int],
                    ),
                    ..start
                },
            ));
            k = k + 1;
            assert(self@ =~= (StorageModel {
                vertices: old(self)@.vertices.update(
                    v as int,
                    VertexModel {
                        properties: properties_replaced(
                            start.properties,
                            indices@,
                            props@,
                            k as nat,
                        ),
                        ..start
                    },
                ),
                ..old(self)@
            }));
        }
        Ok(())
    }

    /// Adds values that have always been there to properties of an edge. Properties that have no
    /// column, or whose column has no block for the edge, are left out.
    pub fn set_edge_property(
        &mut self,
        txn: &MemTransaction,
        eid: EdgeId,
        indices: Vec<usize>,
        props: Vec<ScalarValue>,
    ) -> (r: StorageResult<()>)
        requires
            old(self)@.wf(),
        ensures
            final(self)@.wf(),
            match old(self)@.located(eid) {
                Some(location) if !old(self)@.blocks[location.0 as int].is_tombstone => {
                    &&& r is Ok
                    &&& final(self)@ == (StorageModel {
                        columns: columns_amended(
                            old(self)@.columns,
                            location,
                            indices@,
                            props@,
                            shorter(indices@.len(), props@.len()),
                        ),
                        ..old(self)@
                    })
                },
                _ => {
                    &&& r is Err
                    &&& if old(self)@.locations.dom().contains(eid) && old(
                        self,
                    )@.locations[eid].0 >= old(self)@.blocks.len() {
                        r->Err_0.is_edge_not_found(
                            edge_block_missing(old(self)@.locations[eid].0 as u64),
                        )
                    } else {
                        r->Err_0.is_edge_not_found(edge_missing(eid))
                    }
                    &&& final(self)@ == old(self)@
                },
            },
    {
        let location = match location_get(&self.edge_id_map, eid) {
            Some(location) => location,
            None => {
                return Err(edge_not_found(eid));
            },
        };
        if location.0 >= self.edges.len() {
            return Err(edge_block_not_found(location.0));
        }
        if self.edges[location.0].is_tombstone || !self.holds_edge_at(location, eid) {
            return Err(edge_not_found(eid));
        }
        let ghost n = shorter(indices@.len(), props@.len());
        let mut k: usize = 0;
        while k < indices.len() && k < props.len()
            invariant
                n == shorter(indices@.len(), props@.len()),
                k <= n,
                self@.wf(),
                self@.columns.len() == old(self)@.columns.len(),
                self@ == (StorageModel {
                    columns: columns_amended(
                        old(self)@.columns,
                        location,
                        indices@,
                        props@,
                        k as nat,
                    ),
                    ..old(self)@
                }),
            decreases indices.len() - k,
        {
            let ghost before = self@;
            let c: usize = indices[k];
            if c < self.property_columns.len() {
                let ghost column = self@.columns[c as int];
                assert(column == self.property_columns[c as int]@);
                assert(column_wf(column));
                if location.0 < self.property_columns[c].blocks.len() && location.1
                    < self.property_columns[c].blocks[location.0].values.len() {
                    self.property_columns[c].blocks[location.0].push_version(
                        location.1,
                        PropertyVersion { ts: Timestamp::with_ts(0), value: Some(props[k].clone()) },
                    );
                }
                assert(self.property_columns[c as int]@ =~= column_amended(
                    column,
                    location,
                    props@[k as int],
                ));
                assert(self@.columns =~= before.columns.update(
                    c as int,
                    column_amended(column, location, props@[k as int]),
                ));
                assert(self@ =~= (StorageModel { columns: self@.columns, ..old(self)@ }));
                assert(columns_wf(self@.columns)) by {
                    assert forall|d: int| 0 <= d < self@.columns.len() implies column_wf(
                        #[trigger] self@.columns[d],
                    ) by {
                        if d != c {
                            assert(self@.columns[d] == before.columns[d]);
                        }
                    }
                }
            }
            k = k + 1;
        }
        Ok(())
    }
}

/// The positions after those of the vertices `lo..hi` have been entered.
pub open spec fn positions_entered(
    dense_ids: Map<VertexId, VertexId>,
    vertices: Seq<VertexModel>,
    lo: int,
    hi: int,
) -> Map<VertexId, VertexId>
    decreases hi - lo,
{
    if lo >= hi {
        dense_ids
    } else {
        positions_entered(dense_ids, vertices, lo, hi - 1).insert(
            vertices[hi - 1].vid,
            (hi - 1) as u64,
        )
    }
}

proof fn lemma_vertex_created(storage: StorageModel, vertex: VertexModel)
    requires
        storage.wf(),
        !storage.dense_ids.dom().contains(vertex.vid),
        storage.vertices.len() < u64::MAX,
    ensures
        storage.vertex_created(vertex).wf(),
{
    let after = storage.vertex_created(vertex);
    assert forall|i: int| 0 <= i < after.vertices.len() implies after.dense_ids.dom().contains(
        (#[trigger] after.vertices[i]).vid,
    ) && after.dense_ids[after.vertices[i].vid] == i by {
        if i < storage.vertices.len() {
            assert(storage.dense_ids.dom().contains(storage.vertices[i].vid));
        }
    }
    assert forall|vid: VertexId| #[trigger] after.dense_ids.dom().contains(vid) implies
        after.dense_ids[vid] < after.vertices.len() && after.vertices[after.dense_ids[vid] as int].vid
        == vid by {
        if vid != vertex.vid {
            assert(storage.dense_ids.dom().contains(vid));
        }
    }
}

/// Entering the positions behind a vertex that has been taken out lowers them by one.
proof fn lemma_lowered_upto(storage: StorageModel, v: int, hi: int)
    requires
        storage.wf(),
        0 <= v <= hi < storage.vertices.len(),
    ensures
        ({
            let vid = storage.vertices[v].vid;
            positions_entered(
                storage.dense_ids.remove(vid),
                storage.vertices.remove(v),
                v,
                hi,
            ) == Map::new(
                |other: VertexId| storage.dense_ids.dom().contains(other) && other != vid,
                |other: VertexId| lowered(storage.dense_ids[other], v, hi),
            )
        }),
    decreases hi - v,
{
    let vid = storage.vertices[v].vid;
    let left = storage.vertices.remove(v);
    let entered = positions_entered(storage.dense_ids.remove(vid), left, v, hi);
    let expected = Map::new(
        |other: VertexId| storage.dense_ids.dom().contains(other) && other != vid,
        |other: VertexId| lowered(storage.dense_ids[other], v, hi),
    );
    assert(storage.dense_ids.dom().contains(vid) && storage.dense_ids[vid] == v);
    if v < hi {
        lemma_lowered_upto(storage, v, hi - 1);
        let moved = storage.vertices[hi].vid;
        assert(left[hi - 1] == storage.vertices[hi]);
        assert(storage.dense_ids.dom().contains(moved) && storage.dense_ids[moved] == hi);
        assert forall|other: VertexId| expected.dom().contains(other) implies #[trigger] expected[other]
            == entered[other] by {
            if other != moved {
                assert(storage.dense_ids.dom().contains(other));
                assert(storage.vertices[storage.dense_ids[other] as int].vid == other);
                assert(storage.dense_ids[other] != hi);
            }
        }
    } else {
        assert forall|other: VertexId| expected.dom().contains(other) implies #[trigger] expected[other]
            == entered[other] by {
            assert(storage.dense_ids.dom().contains(other));
        }
    }
    assert(entered =~= expected);
}

proof fn lemma_vertex_removed(storage: StorageModel, v: int)
    requires
        storage.wf(),
        0 <= v < storage.vertices.len(),
    ensures
        storage.vertex_removed(v).wf(),
        storage.vertex_removed(v).vertex_index(storage.vertices[v].vid) is None,
        storage.vertex_removed(v).dense_ids == positions_entered(
            storage.dense_ids.remove(storage.vertices[v].vid),
            storage.vertices.remove(v),
            v,
            storage.vertices.len() - 1,
        ),
{
    let after = storage.vertex_removed(v);
    let vid = storage.vertices[v].vid;
    let n = storage.vertices.len() as int;
    assert(storage.dense_ids.dom().contains(vid) && storage.dense_ids[vid] == v);
    lemma_lowered_upto(storage, v, n - 1);
    assert forall|other: VertexId| #[trigger] after.dense_ids.dom().contains(other) implies
        after.dense_ids[other] == lowered(storage.dense_ids[other], v, n - 1) && after.dense_ids[other]
        < after.vertices.len() && after.vertices[after.dense_ids[other] as int].vid == other by {
        assert(storage.dense_ids.dom().contains(other));
        let position = storage.dense_ids[other] as int;
        assert(storage.vertices[position].vid == other);
        assert(position != v);
    }
    assert(after.dense_ids =~= Map::new(
        |other: VertexId| storage.dense_ids.dom().contains(other) && other != vid,
        |other: VertexId| lowered(storage.dense_ids[other], v, n - 1),
    ));
    assert forall|i: int| 0 <= i < after.vertices.len() implies after.dense_ids.dom().contains(
        (#[trigger] after.vertices[i]).vid,
    ) && after.dense_ids[after.vertices[i].vid] == i by {
        let j = if i < v {
            i
        } else {
            i + 1
        };
        assert(after.vertices[i] == storage.vertices[j]);
        assert(storage.dense_ids.dom().contains(storage.vertices[j].vid)
            && storage.dense_ids[storage.vertices[j].vid] == j);
    }
}

/// A new vertex is found under its identifier, without edges; the others are found as before.
pub proof fn created_vertex_is_found(storage: StorageModel, vertex: VertexModel, other: VertexId)
    requires
        storage.wf(),
        !storage.dense_ids.dom().contains(vertex.vid),
        storage.vertices.len() < usize::MAX,
    ensures
        ({
            let after = storage.vertex_created(vertex);
            &&& after.vertex_index(vertex.vid) matches Some(v) && after.vertices[v] == (
            VertexModel { block_offset: usize::MAX, ..vertex })
            &&& other != vertex.vid ==> after.vertex_index(other) == storage.vertex_index(other)
            &&& other != vertex.vid ==> (storage.vertex_index(other) matches Some(v)
                ==> after.vertices[v] == storage.vertices[v])
        }),
{
    if storage.dense_ids.dom().contains(other) {
        assert(storage.vertices[storage.dense_ids[other] as int].vid == other);
    }
}

/// A vertex that has been taken out is not found any more; every other one is found under its
/// identifier as before.
pub proof fn vertex_removal_keeps_others(storage: StorageModel, v: int, other: VertexId)
    requires
        storage.wf(),
        0 <= v < storage.vertices.len() <= usize::MAX,
    ensures
        ({
            let after = storage.vertex_removed(v);
            &&& after.wf()
            &&& after.vertex_index(storage.vertices[v].vid) is None
            &&& other != storage.vertices[v].vid ==> match storage.vertex_index(other) {
                Some(i) => after.vertex_index(other) matches Some(j) && after.vertices[j]
                    == storage.vertices[i] && after.vertices[j].vid == other,
                None => after.vertex_index(other) is None,
            }
        }),
{
    lemma_vertex_removed(storage, v);
    let after = storage.vertex_removed(v);
    if other != storage.vertices[v].vid && storage.dense_ids.dom().contains(other) {
        assert(after.dense_ids.dom().contains(other));
        assert(storage.vertices[storage.dense_ids[other] as int].vid == other);
    }
}

} // verus!
