//! Every block belongs to a vertex: the blocks in use that a vertex leads to are those that bear
//! its identifier. Every operation keeps it so. Blocks keep their edges in order.

use vstd::multiset::Multiset;
use vstd::prelude::*;
use vstd::seq_lib::to_multiset_insert;
use crate::common::types::{EdgeId, VertexId};
use crate::storage::ap::abort_laws::{
    can_create, lemma_extended_versions, lemma_inserted_versions, makes, Change,
};
use crate::storage::ap::compress::{compressible, shown_block};
use crate::storage::ap::index_laws::exact_map_resolves;
use crate::storage::ap::isolation_laws::abort_is_unseen;
use crate::storage::ap::model::{
    columns_extended, deletion_stamps, key_less, remapped, versions_at, BlockModel, Deletions,
    EdgeModel, Locations, StorageModel, Undo, VertexModel, WriteMode,
};
use crate::storage::ap::olap_graph::{edge_position, txn_mode};
use crate::storage::ap::reads::reader_of;
use crate::storage::ap::types::{property_at, OlapStorageEdge, PropertyVersion, BLOCK_CAPACITY};
use crate::storage::ap::visibility_laws::{
    adjacency_gives_visible_edges, insertion_keeps_order, kept_with_versions,
    lemma_changes_committed,
};
use crate::storage::ap::writes::chain_buried;
use crate::transaction::Timestamp;

verus! {

// ---------------------------------------------------------------------------------------------
// Chains
// ---------------------------------------------------------------------------------------------

impl StorageModel {
    /// A vertex has no block yet, or leads to one that bears its identifier, and that has no edges
    /// where it is buried.
    pub open spec fn leads_home(self, v: int) -> bool {
        let b = self.vertices[v].block_offset;
        b == usize::MAX || {
            &&& b < self.blocks.len()
            &&& self.blocks[b as int].src_id == self.vertices[v].vid
            &&& self.blocks[b as int].is_tombstone ==> self.blocks[b as int].edge_counter == 0
        }
    }

    /// A block bears the same identifier as the block before it.
    pub open spec fn linked(self, b: int) -> bool {
        self.block_before(b) >= 0 ==> self.blocks[self.block_before(b)].src_id
            == self.blocks[b].src_id
    }

    /// The vertex whose identifier a block bears leads to the block.
    pub open spec fn reached(self, b: int) -> bool {
        let vid = self.blocks[b].src_id;
        &&& self.dense_ids.dom().contains(vid)
        &&& self.in_chain(self.vertices[self.dense_ids[vid] as int].block_offset as int, b)
    }

    /// Vertices and blocks belong together: what a vertex leads to bears its identifier, and every
    /// block that is not buried is reached from the vertex whose identifier it bears.
    pub open spec fn chained(self) -> bool {
        &&& forall|v: int| 0 <= v < self.vertices.len() ==> #[trigger] self.leads_home(v)
        &&& forall|b: int| 0 <= b < self.blocks.len() ==> #[trigger] self.linked(b)
        &&& forall|b: int|
            0 <= b < self.blocks.len() && !self.blocks[b].is_tombstone ==> #[trigger] self.reached(
                b,
            )
    }
}

/// What a chain leads to bears the identifier of its start.
proof fn lemma_chain_home(storage: StorageModel, start: int, b: int)
    requires
        forall|i: int| 0 <= i < storage.blocks.len() ==> #[trigger] storage.linked(i),
        storage.in_chain(start, b),
    ensures
        0 <= b <= start < storage.blocks.len(),
        storage.blocks[b].src_id == storage.blocks[start].src_id,
    decreases start + 1,
{
    if b != start {
        assert(storage.linked(start));
        lemma_chain_home(storage, storage.block_before(start), b);
    }
}

/// Chains are the same where every block has the same block before it.
proof fn lemma_same_chain(before: StorageModel, after: StorageModel, start: int, b: int)
    requires
        before.blocks.len() <= after.blocks.len(),
        start < before.blocks.len(),
        forall|i: int|
            0 <= i < before.blocks.len() ==> (#[trigger] after.blocks[i]).pre_block_index
                == before.blocks[i].pre_block_index,
    ensures
        after.in_chain(start, b) == before.in_chain(start, b),
    decreases start + 1,
{
    if 0 <= start {
        assert(after.block_before(start) == before.block_before(start));
        if b != start {
            lemma_same_chain(before, after, before.block_before(start), b);
        }
    }
}

/// The blocks in use that a vertex leads to are exactly those that bear its identifier.
pub proof fn vertices_lead_to_their_blocks(storage: StorageModel, v: int, b: int)
    requires
        storage.wf(),
        storage.chained(),
        storage.blocks.len() < usize::MAX,
        0 <= v < storage.vertices.len(),
        0 <= b < storage.blocks.len(),
    ensures
        storage.in_chain(storage.vertices[v].block_offset as int, b) ==> storage.blocks[b].src_id
            == storage.vertices[v].vid,
        !storage.blocks[b].is_tombstone ==> (storage.in_chain(
            storage.vertices[v].block_offset as int,
            b,
        ) <==> storage.blocks[b].src_id == storage.vertices[v].vid),
{
    assert(storage.leads_home(v));
    if storage.in_chain(storage.vertices[v].block_offset as int, b) {
        lemma_chain_home(storage, storage.vertices[v].block_offset as int, b);
    }
    if !storage.blocks[b].is_tombstone {
        assert(storage.reached(b));
    }
}

/// A walk over the edges of a vertex with a snapshot gives exactly the slots of the edges that the
/// transaction sees in the blocks that bear the identifier of the vertex.
pub proof fn adjacency_gives_the_edges_of_a_vertex(
    storage: StorageModel,
    v: int,
    txn_id: Timestamp,
    start_ts: Timestamp,
    location: (usize, usize),
)
    requires
        storage.wf(),
        storage.indexed(),
        storage.chained(),
        0 <= v < storage.vertices.len(),
    ensures
        storage.chain_from(
            reader_of(txn_id, start_ts),
            storage.vertices[v].block_offset as int,
            0,
        ).contains(location) <==> {
            &&& location.0 < storage.blocks.len()
            &&& location.1 < storage.in_use(location.0 as int)
            &&& storage.blocks[location.0 as int].src_id == storage.vertices[v].vid
            &&& storage.visible_at(storage.slot(location).eid, txn_id, start_ts) == Some(location)
        },
{
    let b = storage.vertices[v].block_offset as int;
    adjacency_gives_visible_edges(storage, txn_id, start_ts, b, 0, location);
    if location.0 < storage.blocks.len() {
        vertices_lead_to_their_blocks(storage, v, location.0 as int);
    }
}

/// The storage without edges has no blocks to lead to.
pub proof fn empty_storage_is_chained()
    ensures
        crate::storage::ap::olap_graph::empty_storage().chained(),
{
}

/// A new vertex leads to no block.
pub proof fn vertex_creation_keeps_chains(storage: StorageModel, vertex: VertexModel)
    requires
        storage.wf(),
        storage.chained(),
        storage.blocks.len() < usize::MAX,
        storage.vertices.len() < u64::MAX,
        !storage.dense_ids.dom().contains(vertex.vid),
    ensures
        storage.vertex_created(vertex).chained(),
{
    let after = storage.vertex_created(vertex);
    assert forall|v: int| 0 <= v < after.vertices.len() implies #[trigger] after.leads_home(v) by {
        if v < storage.vertices.len() {
            assert(storage.leads_home(v));
        }
    }
    assert forall|b: int| 0 <= b < after.blocks.len() implies #[trigger] after.linked(b) by {
        assert(storage.linked(b));
    }
    assert forall|b: int|
        0 <= b < after.blocks.len()
            && !after.blocks[b].is_tombstone implies #[trigger] after.reached(b) by {
        assert(storage.reached(b));
        let vid = storage.blocks[b].src_id;
        let start = storage.vertices[storage.dense_ids[vid] as int].block_offset as int;
        assert(storage.leads_home(storage.dense_ids[vid] as int));
        lemma_same_chain(storage, after, start, b);
    }
}

/// The storage with room for one more edge of a vertex.
proof fn lemma_opened_chained(storage: StorageModel, v: int, mode: WriteMode)
    requires
        storage.wf(),
        storage.chained(),
        storage.blocks.len() + 1 < usize::MAX,
        0 <= v < storage.vertices.len(),
    ensures
        ({
            let opened = storage.block_opened(v, storage.vertices[v].vid, mode);
            let b = opened.vertices[v].block_offset;
            &&& opened.chained()
            &&& b < opened.blocks.len()
            &&& opened.blocks[b as int].edge_counter < BLOCK_CAPACITY
            &&& opened.blocks[b as int].wf()
        }),
{
    let vid = storage.vertices[v].vid;
    let opened = storage.block_opened(v, vid, mode);
    let n = storage.blocks.len() as int;
    assert(storage.leads_home(v));
    let off = storage.vertices[v].block_offset;
    if off < n {
        assert(storage.blocks[off as int].wf());
    }
    if opened != storage {
        assert(opened.blocks.len() == n + 1);
        assert(opened.vertices[v].block_offset == n);
        assert(opened.block_before(n) == (if off == usize::MAX {
            -1
        } else {
            off as int
        }));
        assert forall|w: int| 0 <= w < opened.vertices.len() implies #[trigger] opened.leads_home(
            w,
        ) by {
            assert(storage.leads_home(w));
        }
        assert forall|b: int| 0 <= b < opened.blocks.len() implies #[trigger] opened.linked(b) by {
            if b < n {
                assert(storage.linked(b));
                assert(opened.block_before(b) == storage.block_before(b));
            }
        }
        assert forall|b: int|
            0 <= b < opened.blocks.len()
                && !opened.blocks[b].is_tombstone implies #[trigger] opened.reached(b) by {
            if b == n {
                assert(opened.in_chain(n, n));
            } else {
                assert(storage.reached(b));
                let other = storage.blocks[b].src_id;
                let w = storage.dense_ids[other] as int;
                assert(storage.leads_home(w));
                let start = storage.vertices[w].block_offset as int;
                if start < n {
                    lemma_same_chain(storage, opened, start, b);
                }
                if w == v {
                    assert(storage.in_chain(off as int, b));
                    assert(opened.in_chain(opened.block_before(n), b));
                    assert(opened.in_chain(n, b));
                }
            }
        }
    }
}

/// A change of blocks keeps the chains where every block keeps its identifier and the block before
/// it, none comes to be in use that was not, and one is buried only without edges.
proof fn lemma_same_chains(before: StorageModel, after: StorageModel)
    requires
        before.wf(),
        before.chained(),
        after.vertices == before.vertices,
        after.dense_ids == before.dense_ids,
        after.blocks.len() == before.blocks.len(),
        after.blocks.len() < usize::MAX,
        forall|b: int|
            0 <= b < before.blocks.len() ==> {
                &&& (#[trigger] after.blocks[b]).src_id == before.blocks[b].src_id
                &&& after.blocks[b].pre_block_index == before.blocks[b].pre_block_index
                &&& before.blocks[b].is_tombstone ==> after.blocks[b].is_tombstone
                &&& after.blocks[b].is_tombstone && after.blocks[b].edge_counter != 0
                    ==> before.blocks[b].is_tombstone && before.blocks[b].edge_counter != 0
            },
    ensures
        after.chained(),
{
    assert forall|v: int| 0 <= v < after.vertices.len() implies #[trigger] after.leads_home(v) by {
        assert(before.leads_home(v));
        let b = before.vertices[v].block_offset;
        if b < before.blocks.len() {
            assert(after.blocks[b as int].src_id == before.blocks[b as int].src_id);
        }
    }
    assert forall|b: int| 0 <= b < after.blocks.len() implies #[trigger] after.linked(b) by {
        assert(before.linked(b));
        assert(after.blocks[b].src_id == before.blocks[b].src_id);
        let pre = before.block_before(b);
        assert(after.block_before(b) == pre);
        if pre >= 0 {
            assert(after.blocks[pre].src_id == before.blocks[pre].src_id);
        }
    }
    assert forall|b: int|
        0 <= b < after.blocks.len()
            && !after.blocks[b].is_tombstone implies #[trigger] after.reached(b) by {
        assert(after.blocks[b].src_id == before.blocks[b].src_id);
        assert(before.reached(b));
        let v = before.dense_ids[before.blocks[b].src_id] as int;
        assert(before.leads_home(v));
        lemma_same_chain(before, after, before.vertices[v].block_offset as int, b);
    }
}

/// Inserting an edge keeps the chains, and the block of the edge is in use.
pub proof fn insertion_keeps_chains(
    storage: StorageModel,
    v: int,
    pos: int,
    edge: EdgeModel,
    mode: WriteMode,
)
    requires
        storage.wf(),
        storage.chained(),
        storage.blocks.len() + 1 < usize::MAX,
        0 <= v < storage.vertices.len(),
        edge.src_id == storage.vertices[v].vid,
    ensures
        ({
            let after = storage.edge_created(v, pos, edge, mode);
            let opened = storage.block_opened(v, edge.src_id, mode);
            let b = opened.vertices[v].block_offset;
            &&& after.chained()
            &&& b < after.blocks.len()
            &&& !after.blocks[b as int].is_tombstone
            &&& after.blocks[b as int].src_id == edge.src_id
        }),
{
    let opened = storage.block_opened(v, edge.src_id, mode);
    let after = storage.edge_created(v, pos, edge, mode);
    lemma_opened_chained(storage, v, mode);
    assert(opened.leads_home(v));
    let b0 = opened.vertices[v].block_offset as int;
    assert(opened.vertices.len() == storage.vertices.len());
    assert forall|w: int| 0 <= w < after.vertices.len() implies #[trigger] after.leads_home(w) by {
        assert(opened.leads_home(w));
    }
    assert forall|b: int| 0 <= b < after.blocks.len() implies #[trigger] after.linked(b) by {
        assert(opened.linked(b));
        assert(after.block_before(b) == opened.block_before(b));
    }
    assert forall|b: int|
        0 <= b < after.blocks.len()
            && !after.blocks[b].is_tombstone implies #[trigger] after.reached(b) by {
        if b == b0 {
            assert(storage.dense_ids[edge.src_id] == v);
            assert(after.in_chain(b0, b0));
        } else {
            assert(opened.reached(b));
            let w = opened.dense_ids[opened.blocks[b].src_id] as int;
            assert(opened.dense_ids == storage.dense_ids);
            assert(opened.leads_home(w));
            lemma_same_chain(opened, after, opened.vertices[w].block_offset as int, b);
        }
    }
}

/// Deleting an edge for good keeps the chains.
pub proof fn deletion_keeps_chains(storage: StorageModel, eid: EdgeId)
    requires
        storage.wf(),
        storage.indexed(),
        storage.chained(),
        storage.located(eid) is Some,
    ensures
        storage.edge_deleted(storage.located(eid)->0, eid).chained(),
{
    let location = storage.located(eid)->0;
    lemma_same_chains(storage, storage.edge_deleted(location, eid));
}

/// Burying a chain buries its blocks and no others.
proof fn lemma_bury_chain(storage: StorageModel, start: int)
    requires
        storage.wf(),
        forall|i: int| 0 <= i < storage.blocks.len() ==> #[trigger] storage.linked(i),
        0 <= start < storage.blocks.len(),
    ensures
        chain_buried(storage.blocks, start).len() == storage.blocks.len(),
        forall|i: int|
            0 <= i < storage.blocks.len() ==> #[trigger] chain_buried(storage.blocks, start)[i]
                == (if storage.in_chain(start, i) {
                storage.blocks[i].buried()
            } else {
                storage.blocks[i]
            }),
    decreases start,
{
    let next = StorageModel {
        blocks: storage.blocks.update(start, storage.blocks[start].buried()),
        ..storage
    };
    let pre = storage.block_before(start);
    assert(storage.blocks[start].wf());
    assert forall|i: int| 0 <= i < next.blocks.len() implies #[trigger] next.linked(i) by {
        assert(storage.linked(i));
        assert(next.block_before(i) == storage.block_before(i));
    }
    assert(next.wf()) by {
        assert forall|i: int| 0 <= i < next.blocks.len() implies (
        #[trigger] next.blocks[i]).wf() by {
            assert(storage.blocks[i].wf());
        }
        assert forall|i: int| 0 <= i < next.blocks.len() implies match (
        #[trigger] next.blocks[i]).pre_block_index {
            Some(before) => before < i,
            None => true,
        } by {
            assert(storage.blocks[i].wf());
        }
    }
    if pre >= 0 {
        lemma_bury_chain(next, pre);
    }
    assert forall|i: int| 0 <= i < storage.blocks.len() implies #[trigger] chain_buried(
        storage.blocks,
        start,
    )[i] == (if storage.in_chain(start, i) {
        storage.blocks[i].buried()
    } else {
        storage.blocks[i]
    }) by {
        if pre >= 0 {
            lemma_same_chain(storage, next, pre, i);
            assert(chain_buried(next.blocks, pre)[i] == (if next.in_chain(pre, i) {
                next.blocks[i].buried()
            } else {
                next.blocks[i]
            }));
            assert(storage.in_chain(start, i) == (i == start || storage.in_chain(pre, i)));
        } else {
            assert(!storage.in_chain(pre, i));
        }
    }
}

/// Deleting a vertex keeps the chains: its blocks are buried, and those of the others stay theirs.
pub proof fn vertex_deletion_keeps_chains(storage: StorageModel, v: int)
    requires
        storage.wf(),
        storage.chained(),
        storage.blocks.len() < usize::MAX,
        0 <= v < storage.vertices.len(),
        storage.vertices[v].block_offset < storage.blocks.len(),
    ensures
        (StorageModel {
            blocks: chain_buried(storage.blocks, storage.vertices[v].block_offset as int),
            ..storage.vertex_removed(v)
        }).chained(),
{
    let vid = storage.vertices[v].vid;
    let start = storage.vertices[v].block_offset as int;
    let after = StorageModel {
        blocks: chain_buried(storage.blocks, start),
        ..storage.vertex_removed(v)
    };
    assert(storage.leads_home(v));
    lemma_bury_chain(storage, start);
    assert forall|i: int| 0 <= i < storage.blocks.len() implies (
    #[trigger] after.blocks[i]).pre_block_index == storage.blocks[i].pre_block_index
        && after.blocks[i].src_id == storage.blocks[i].src_id && (storage.blocks[i].src_id != vid
        ==> after.blocks[i] == storage.blocks[i]) && (!after.blocks[i].is_tombstone ==> (
    !storage.blocks[i].is_tombstone && storage.blocks[i].src_id != vid)) by {
        if storage.in_chain(start, i) {
            lemma_chain_home(storage, start, i);
        } else if storage.blocks[i].src_id == vid && !storage.blocks[i].is_tombstone {
            assert(storage.reached(i));
        }
    }
    assert forall|w: int| 0 <= w < after.vertices.len() implies #[trigger] after.leads_home(w) by {
        let old = if w < v {
            w
        } else {
            w + 1
        };
        assert(after.vertices[w] == storage.vertices[old]);
        assert(storage.leads_home(old));
        assert(storage.vertices[old].vid != vid);
        let b = storage.vertices[old].block_offset;
        if b < storage.blocks.len() {
            assert(after.blocks[b as int] == storage.blocks[b as int]);
        }
    }
    assert forall|b: int| 0 <= b < after.blocks.len() implies #[trigger] after.linked(b) by {
        assert(storage.linked(b));
        assert(after.blocks[b].src_id == storage.blocks[b].src_id);
        let pre = storage.block_before(b);
        assert(after.block_before(b) == pre);
        if pre >= 0 {
            assert(after.blocks[pre].src_id == storage.blocks[pre].src_id);
        }
    }
    assert forall|b: int|
        0 <= b < after.blocks.len()
            && !after.blocks[b].is_tombstone implies #[trigger] after.reached(b) by {
        assert(after.blocks[b].src_id == storage.blocks[b].src_id);
        assert(storage.reached(b));
        let other = storage.blocks[b].src_id;
        let old = storage.dense_ids[other] as int;
        assert(storage.vertices[old].vid == other);
        assert(old != v);
        let w = after.dense_ids[other] as int;
        assert(after.vertices[w] == storage.vertices[old]);
        assert(storage.leads_home(old));
        lemma_same_chain(storage, after, storage.vertices[old].block_offset as int, b);
    }
}

/// What a transaction does keeps the chains.
pub proof fn changes_keep_chains(
    change: Change,
    before: StorageModel,
    after: StorageModel,
    entry: (Undo, Timestamp),
    txn_id: Timestamp,
)
    requires
        before.wf(),
        before.indexed(),
        before.chained(),
        makes(change, before, after, entry, txn_id),
        change matches Change::Create { v, edge, .. } ==> edge.src_id == before.vertices[v].vid,
    ensures
        after.chained(),
{
    match change {
        Change::Create { v, pos, edge } => {
            insertion_keeps_chains(before, v, pos, edge, txn_mode(txn_id));
        },
        Change::SetProps { eid, .. } => {
            exact_map_resolves(before, eid);
            lemma_same_chains(before, after);
        },
        Change::Delete { eid } => {
            exact_map_resolves(before, eid);
            lemma_same_chains(before, after);
        },
    }
}

/// A commit keeps the chains.
pub proof fn commit_keeps_chains(
    storage: StorageModel,
    undo: Seq<(Undo, Timestamp)>,
    txn_id: Timestamp,
    commit_ts: Timestamp,
    k: nat,
)
    requires
        storage.wf(),
        storage.indexed(),
        storage.chained(),
        txn_id.spec_is_txn_id(),
        commit_ts.spec_is_commit_ts(),
        k <= undo.len(),
    ensures
        storage.changes_committed(undo, txn_id, commit_ts, k).chained(),
    decreases k,
{
    if k > 0 {
        commit_keeps_chains(storage, undo, txn_id, commit_ts, (k - 1) as nat);
        lemma_changes_committed(storage, undo, txn_id, commit_ts, (k - 1) as nat);
        let before = storage.changes_committed(undo, txn_id, commit_ts, (k - 1) as nat);
        lemma_same_chains(before, before.change_committed(undo[k - 1].0, txn_id, commit_ts));
    }
}

/// An abort keeps the chains.
pub proof fn abort_keeps_chains(
    storage: StorageModel,
    undo: Seq<(Undo, Timestamp)>,
    txn_id: Timestamp,
    k: nat,
)
    requires
        storage.wf(),
        storage.indexed(),
        storage.chained(),
        txn_id.spec_is_txn_id(),
        storage.can_undo_all(undo, txn_id),
        k <= undo.len(),
    ensures
        storage.changes_undone(undo, txn_id, k).chained(),
    decreases undo.len() - k,
{
    if k < undo.len() {
        abort_keeps_chains(storage, undo, txn_id, k + 1);
        abort_is_unseen(storage, undo, txn_id, k + 1, 0, Timestamp(0), Timestamp(0));
        let before = storage.changes_undone(undo, txn_id, k + 1);
        lemma_same_chains(before, before.change_undone(undo[k as int].0, undo[k as int].1, txn_id));
    }
}

// ---------------------------------------------------------------------------------------------
// The edges of a vertex
// ---------------------------------------------------------------------------------------------

/// The edges of a block.
pub open spec fn block_edges(block: BlockModel) -> Multiset<OlapStorageEdge> {
    block.edges.take(block.edge_counter).to_multiset()
}

/// The edges in the blocks among the first `n` that bear an identifier.
pub open spec fn edges_of(blocks: Seq<BlockModel>, src_id: VertexId, n: int) -> Multiset<
    OlapStorageEdge,
>
    decreases n,
{
    if n <= 0 {
        Multiset::empty()
    } else {
        let before = edges_of(blocks, src_id, n - 1);
        if blocks[n - 1].src_id == src_id {
            before.add(block_edges(blocks[n - 1]))
        } else {
            before
        }
    }
}

/// Every block has its edges in order.
pub open spec fn all_sorted(blocks: Seq<BlockModel>) -> bool {
    forall|b: int| 0 <= b < blocks.len() ==> (#[trigger] blocks[b]).sorted()
}

/// The edges that bear an identifier depend on the blocks that bear it alone.
proof fn lemma_same_edges(
    before: Seq<BlockModel>,
    after: Seq<BlockModel>,
    src_id: VertexId,
    n: int,
)
    requires
        forall|b: int|
            0 <= b < n ==> (#[trigger] after[b]).src_id == before[b].src_id && (before[b].src_id
                == src_id ==> block_edges(after[b]) == block_edges(before[b])),
    ensures
        edges_of(after, src_id, n) == edges_of(before, src_id, n),
    decreases n,
{
    if n > 0 {
        lemma_same_edges(before, after, src_id, n - 1);
        assert(after[n - 1].src_id == before[n - 1].src_id);
    }
}

/// One more edge in a block is one more edge with its identifier.
proof fn lemma_one_more_edge(
    before: Seq<BlockModel>,
    after: Seq<BlockModel>,
    at: int,
    slot: OlapStorageEdge,
    n: int,
)
    requires
        0 <= at < n,
        after[at].src_id == before[at].src_id,
        block_edges(after[at]) == block_edges(before[at]).insert(slot),
        forall|b: int| 0 <= b < n && b != at ==> #[trigger] after[b] == before[b],
    ensures
        edges_of(after, before[at].src_id, n) == edges_of(before, before[at].src_id, n).insert(
            slot,
        ),
    decreases n,
{
    let src_id = before[at].src_id;
    if at < n - 1 {
        lemma_one_more_edge(before, after, at, slot, n - 1);
        assert(after[n - 1] == before[n - 1]);
        if before[n - 1].src_id == src_id {
            assert(edges_of(after, src_id, n) =~= edges_of(before, src_id, n).insert(slot));
        }
    } else {
        lemma_same_edges(before, after, src_id, at);
        assert(edges_of(after, src_id, n) =~= edges_of(before, src_id, n).insert(slot));
    }
}

/// The edges of a block with one more.
proof fn lemma_block_edges(block: BlockModel, pos: int, slot: OlapStorageEdge)
    requires
        block.wf(),
        0 <= pos <= block.edge_counter < BLOCK_CAPACITY,
    ensures
        block_edges(block.slot_inserted(pos, slot)) == block_edges(block).insert(slot),
{
    let n = block.edge_counter;
    let after = block.slot_inserted(pos, slot);
    let list = block.edges.take(n);
    assert(after.edges.take(n + 1) =~= list.insert(pos, slot));
    to_multiset_insert(list, pos, slot);
}

/// Creating an edge for a transaction adds one edge to those of its source vertex, with the mark of
/// the transaction; the blocks of the other vertices stay as they are. Blocks in order stay in
/// order. The edge has the next identifier, and the one after it is next.
pub proof fn creation_adds_one_edge(
    storage: StorageModel,
    v: int,
    pos: int,
    edge: EdgeModel,
    txn_id: Timestamp,
)
    requires
        storage.wf(),
        storage.chained(),
        can_create(storage, v, pos, edge, txn_id),
        edge.src_id == storage.vertices[v].vid,
        edge_position(storage, edge, txn_mode(txn_id), v, pos),
    ensures
        ({
            let after = storage.edge_created(v, pos, edge, txn_mode(txn_id));
            let slot = OlapStorageEdge {
                eid: storage.edge_id_counter,
                label_id: edge.label_id,
                dst_id: edge.dst_id,
                commit_ts: txn_id,
            };
            let n = storage.blocks.len() as int;
            let m = after.blocks.len() as int;
            &&& all_sorted(storage.blocks) ==> all_sorted(after.blocks)
            &&& edges_of(after.blocks, edge.src_id, m) == edges_of(
                storage.blocks,
                edge.src_id,
                n,
            ).insert(slot)
            &&& forall|other: VertexId|
                other != edge.src_id ==> #[trigger] edges_of(after.blocks, other, m) == edges_of(
                    storage.blocks,
                    other,
                    n,
                )
            &&& forall|b: int|
                0 <= b < n && storage.blocks[b].src_id != edge.src_id
                    ==> #[trigger] after.blocks[b] == storage.blocks[b]
            &&& after.edge_id_counter == storage.edge_id_counter + 1
        }),
{
    let mode = txn_mode(txn_id);
    let opened = storage.block_opened(v, edge.src_id, mode);
    let after = storage.edge_created(v, pos, edge, mode);
    let slot = OlapStorageEdge {
        eid: storage.edge_id_counter,
        label_id: edge.label_id,
        dst_id: edge.dst_id,
        commit_ts: txn_id,
    };
    let n = storage.blocks.len() as int;
    let m = after.blocks.len() as int;
    lemma_opened_chained(storage, v, mode);
    assert(opened.leads_home(v));
    let at = opened.vertices[v].block_offset as int;
    let block = opened.blocks[at];
    lemma_block_edges(block, pos, slot);
    assert(after.blocks[at].edges == block.slot_inserted(pos, slot).edges);
    assert(after.blocks[at].edge_counter == block.edge_counter + 1);
    assert(block_edges(after.blocks[at]) == block_edges(block).insert(slot));
    lemma_one_more_edge(opened.blocks, after.blocks, at, slot, m);
    if n < m {
        let fresh = opened.blocks[n];
        assert(fresh.edges.take(0) =~= Seq::empty());
        assert(block_edges(fresh) =~= Multiset::empty()) by {
            Seq::<OlapStorageEdge>::empty().to_multiset_ensures();
            assert(fresh.edges.take(0).to_multiset().len() == 0);
        }
        lemma_same_edges(storage.blocks, opened.blocks, edge.src_id, n);
        assert(edges_of(opened.blocks, edge.src_id, m) =~= edges_of(opened.blocks, edge.src_id, n));
    }
    assert forall|other: VertexId| other != edge.src_id implies #[trigger] edges_of(
        after.blocks,
        other,
        m,
    ) == edges_of(storage.blocks, other, n) by {
        lemma_same_edges(opened.blocks, after.blocks, other, m);
        if n < m {
            lemma_same_edges(storage.blocks, opened.blocks, other, n);
        }
    }
    if all_sorted(storage.blocks) {
        assert forall|b: int| 0 <= b < m implies (#[trigger] after.blocks[b]).sorted() by {
            if b < n {
                assert(storage.blocks[b].sorted());
            }
            if b == at {
                assert(block.sorted());
                insertion_keeps_order(block, pos, slot);
                let filled = block.slot_inserted(pos, slot);
                assert(filled.sorted());
                assert forall|i: int, j: int|
                    0 <= i < j < after.blocks[b].edge_counter implies !#[trigger] key_less(
                    after.blocks[b].edges[j].dst_id,
                    after.blocks[b].edges[j].label_id,
                    after.blocks[b].edges[i].dst_id,
                    after.blocks[b].edges[i].label_id,
                ) by {
                    assert(!key_less(
                        filled.edges[j].dst_id,
                        filled.edges[j].label_id,
                        filled.edges[i].dst_id,
                        filled.edges[i].label_id,
                    ));
                }
            }
        }
    }
}

/// A block in order stays in order when an edge is taken out.
pub proof fn removal_keeps_order(block: BlockModel, offset: int)
    requires
        block.wf(),
        block.sorted(),
        0 <= offset < block.edge_counter,
    ensures
        block.slot_removed(offset).sorted(),
{
    let after = block.slot_removed(offset);
    assert forall|i: int, j: int| 0 <= i < j < after.edge_counter implies !#[trigger] key_less(
        after.edges[j].dst_id,
        after.edges[j].label_id,
        after.edges[i].dst_id,
        after.edges[i].label_id,
    ) by {
        let a = if i < offset {
            i
        } else {
            i + 1
        };
        let b = if j < offset {
            j
        } else {
            j + 1
        };
        assert(!key_less(
            block.edges[b].dst_id,
            block.edges[b].label_id,
            block.edges[a].dst_id,
            block.edges[a].label_id,
        ));
    }
}

/// A block in order that has edges, none of them deleted, can be compressed.
pub proof fn sorted_blocks_are_compressible(block: BlockModel, deletions: Deletions)
    requires
        block.wf(),
        block.sorted(),
        block.edge_counter >= 1,
        forall|i: int|
            0 <= i < block.edge_counter ==> deletion_stamps(
                deletions,
                (#[trigger] block.edges[i]).eid,
            ).len() == 0,
    ensures
        compressible(shown_block(block, deletions)),
{
    let seen = shown_block(block, deletions);
    assert forall|i: int| 1 <= i < seen.edge_counter implies seen.edges[i - 1].dst_id <= (
    #[trigger] seen.edges[i]).dst_id by {
        assert(deletion_stamps(deletions, block.edges[i - 1].eid).len() == 0);
        assert(deletion_stamps(deletions, block.edges[i].eid).len() == 0);
        assert(!key_less(
            block.edges[i].dst_id,
            block.edges[i].label_id,
            block.edges[i - 1].dst_id,
            block.edges[i - 1].label_id,
        ));
    }
}

// ---------------------------------------------------------------------------------------------
// A map that need not know every edge
// ---------------------------------------------------------------------------------------------

impl StorageModel {
    /// A slot holds an edge.
    pub open spec fn is_used(self, b: int, offset: int) -> bool {
        0 <= b < self.blocks.len() && 0 <= offset < self.blocks[b].edge_counter
    }

    /// What the map of locations says of an edge is right.
    pub open spec fn map_is_right(self) -> bool {
        forall|eid: EdgeId| #[trigger]
            self.locations.dom().contains(eid) ==> self.holds_at(self.locations[eid], eid)
    }

    /// Every stored edge has an identifier other than zero, and none is stored twice.
    pub open spec fn stored_once(self) -> bool {
        &&& forall|b: int, i: int|
            #![trigger self.blocks[b].edges[i]]
            self.is_used(b, i) ==> self.blocks[b].edges[i].eid != 0
        &&& forall|b: int, i: int, c: int, j: int|
            #![trigger self.blocks[b].edges[i], self.blocks[c].edges[j]]
            self.is_used(b, i) && self.is_used(c, j) && self.blocks[b].edges[i].eid
                == self.blocks[c].edges[j].eid ==> b == c && i == j
    }
}

/// Entering slots leads every edge to one of its slots, or leaves it where it was.
proof fn lemma_remapped_right(
    locations: Locations,
    edges: Seq<OlapStorageEdge>,
    b: usize,
    lo: int,
    hi: int,
    eid: EdgeId,
)
    requires
        0 <= lo,
        hi <= BLOCK_CAPACITY,
    ensures
        ({
            let after = remapped(locations, edges, b, lo, hi);
            ||| after.dom().contains(eid) && after[eid].0 == b && lo <= after[eid].1 < hi
                && edges[after[eid].1 as int].eid == eid
            ||| after.dom().contains(eid) == locations.dom().contains(eid) && after[eid]
                == locations[eid] && forall|i: int|
                lo <= i < hi ==> (#[trigger] edges[i]).eid != eid || eid == 0
        }),
    decreases hi - lo,
{
    if lo < hi {
        lemma_remapped_right(locations, edges, b, lo, hi - 1, eid);
    }
}

/// Creating an edge keeps what the map of locations says right, with the new edge in it, whether or
/// not the map knows every edge. Where no edge is stored twice, every other edge that the map knows
/// keeps its slot content and its versions of every property; and the newest version of every
/// property of the new edge is the transaction's.
pub proof fn creation_keeps_the_map_right(
    storage: StorageModel,
    v: int,
    pos: int,
    edge: EdgeModel,
    txn_id: Timestamp,
)
    requires
        storage.wf(),
        storage.map_is_right(),
        storage.stored_once(),
        can_create(storage, v, pos, edge, txn_id),
    ensures
        ({
            let after = storage.edge_created(v, pos, edge, txn_mode(txn_id));
            let opened = storage.block_opened(v, edge.src_id, txn_mode(txn_id));
            let location = (opened.vertices[v].block_offset, pos as usize);
            &&& after.map_is_right()
            &&& after.located(storage.edge_id_counter) == Some(location)
            &&& forall|eid: EdgeId| #[trigger]
                storage.locations.dom().contains(eid) && eid != storage.edge_id_counter
                    ==> kept_with_versions(storage, after, eid)
            &&& forall|c: int|
                0 <= c < after.columns.len() ==> (#[trigger] versions_at(
                    after.columns,
                    c,
                    location,
                )).len() > 0 && versions_at(after.columns, c, location).last() == (
                PropertyVersion { ts: txn_id, value: property_at(edge.properties, c) })
        }),
{
    let mode = txn_mode(txn_id);
    let opened = storage.block_opened(v, edge.src_id, mode);
    let after = storage.edge_created(v, pos, edge, mode);
    let at = opened.vertices[v].block_offset;
    let location = (at, pos as usize);
    let eid0 = storage.edge_id_counter;
    assert(at < opened.blocks.len());
    let block = opened.blocks[at as int];
    assert(block.wf()) by {
        if at < storage.blocks.len() {
            assert(storage.blocks[at as int].wf());
        }
    }
    let n = block.edge_counter;
    let edges = after.blocks[at as int].edges;
    assert(after.blocks[at as int].edge_counter == n + 1);
    let moved = remapped(opened.locations, edges, at, pos + 1, n + 1);
    assert(after.locations == moved.insert(eid0, location));
    assert(edges[pos].eid == eid0);
    assert forall|i: int| 0 <= i < BLOCK_CAPACITY implies #[trigger] edges[i] == (if i < pos {
        block.edges[i]
    } else if pos < i <= n {
        block.edges[i - 1]
    } else {
        edges[i]
    }) by {}
    let to_of = |from: (usize, usize)|
        if from.0 == at && from.1 >= pos {
            (from.0, (from.1 + 1) as usize)
        } else {
            from
        };
    assert forall|eid: EdgeId| #[trigger]
        after.locations.dom().contains(eid) implies after.holds_at(
        after.locations[eid],
        eid,
    ) by {
        if eid != eid0 {
            lemma_remapped_right(opened.locations, edges, at, pos + 1, n + 1, eid);
            if !(moved.dom().contains(eid) && moved[eid].0 == at && pos + 1 <= moved[eid].1 < n + 1
                && edges[moved[eid].1 as int].eid == eid) {
                assert(storage.locations.dom().contains(eid));
                let from = storage.locations[eid];
                assert(storage.holds_at(from, eid));
                assert(storage.blocks[from.0 as int].wf());
                assert(storage.blocks[from.0 as int].edges[from.1 as int].eid != 0);
                if from.0 == at {
                    if from.1 >= pos {
                        assert(edges[from.1 + 1].eid == eid);
                        assert(false);
                    }
                    assert(edges[from.1 as int] == block.edges[from.1 as int]);
                } else {
                    assert(after.blocks[from.0 as int] == storage.blocks[from.0 as int]);
                }
            }
        }
    }
    let columns = columns_extended(storage.columns, edge.properties.len() as int);
    assert forall|eid: EdgeId| #[trigger]
        storage.locations.dom().contains(eid) && eid != eid0 implies kept_with_versions(
        storage,
        after,
        eid,
    ) by {
        let from = storage.locations[eid];
        assert(storage.holds_at(from, eid));
        assert(storage.blocks[from.0 as int].wf());
        let to = to_of(from);
        lemma_remapped_right(opened.locations, edges, at, pos + 1, n + 1, eid);
        assert(storage.is_used(from.0 as int, from.1 as int));
        if moved.dom().contains(eid) && moved[eid].0 == at && pos + 1 <= moved[eid].1 < n + 1
            && edges[moved[eid].1 as int].eid == eid {
            let o = moved[eid].1 - 1;
            assert(edges[o + 1] == block.edges[o]);
            assert(at < storage.blocks.len());
            assert(storage.is_used(at as int, o));
            assert(storage.blocks[at as int].edges[o].eid
                == storage.blocks[from.0 as int].edges[from.1 as int].eid);
            assert(from == (at, o as usize));
        } else {
            assert(storage.blocks[from.0 as int].edges[from.1 as int].eid != 0);
            if from.0 == at && from.1 >= pos {
                assert(edges[from.1 + 1].eid == eid);
                assert(false);
            }
        }
        assert(after.locations[eid] == to);
        assert(after.holds_at(to, eid));
        assert(after.slot(to) == storage.slot(from)) by {
            if from.0 == at {
                assert(edges[to.1 as int] == block.edges[from.1 as int]);
            }
        }
        assert forall|c: int| #[trigger] versions_at(after.columns, c, to) == versions_at(
            storage.columns,
            c,
            from,
        ) by {
            lemma_extended_versions(storage.columns, edge.properties.len() as int, c, from);
            lemma_inserted_versions(
                columns,
                after.columns,
                at,
                pos,
                n,
                edge.properties,
                mode,
                c,
                to,
            );
        }
    }
    assert forall|c: int| 0 <= c < after.columns.len() implies (#[trigger] versions_at(
        after.columns,
        c,
        location,
    )).len() > 0 && versions_at(after.columns, c, location).last() == (PropertyVersion {
        ts: txn_id,
        value: property_at(edge.properties, c),
    }) by {
        lemma_extended_versions(storage.columns, edge.properties.len() as int, c, location);
        lemma_inserted_versions(
            columns,
            after.columns,
            at,
            pos,
            n,
            edge.properties,
            mode,
            c,
            location,
        );
    }
}

} // verus!
