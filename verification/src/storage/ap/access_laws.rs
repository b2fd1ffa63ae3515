//! How vertices and edges are found, and what is answered where they are not: laws.

use vstd::prelude::*;
use crate::common::text::decimal;
use crate::common::types::{EdgeId, VertexId};
use crate::common::value::ScalarValue;
use crate::storage::ap::iterators::edge_iterator::walk_step;
use crate::storage::ap::model::{
    deletion_stamps, find_edge, sees, slot_of, BlockModel, EdgeModel, Reader, StorageModel,
    TxnModel, VertexModel, WriteMode,
};
use crate::storage::ap::olap_graph::{edge_deletion, edge_insertion, property_write};
use crate::storage::ap::types::OlapEdge;
use crate::storage::ap::writes::{positions_entered, vertex_exists, vertex_id_missing};
use crate::storage::ap::transaction::{abort_refusal, timestamp_text};
use crate::storage::error::{
    edge_block_missing, edge_missing, source_vertex_missing, vertex_missing, EdgeNotFoundError,
    StorageError, StorageResult, TransactionError, VertexNotFoundError,
};
use crate::transaction::Timestamp;

verus! {

// ---------------------------------------------------------------------------------------------
// Edges
// ---------------------------------------------------------------------------------------------

/// An edge is found in the first slot of a block that has its number.
pub proof fn first_slot_with_an_edge_is_found(block: BlockModel, eid: EdgeId, from: int)
    requires
        0 <= from,
    ensures
        match slot_of(block, eid, from) {
            Some(k) => {
                &&& from <= k < block.edge_counter
                &&& block.edges[k].eid == eid
                &&& forall|i: int| from <= i < k ==> (#[trigger] block.edges[i]).eid != eid
            },
            None => forall|i: int|
                from <= i < block.edge_counter ==> (#[trigger] block.edges[i]).eid != eid,
        },
    decreases block.edge_counter - from,
{
    if from < block.edge_counter && block.edges[from].eid != eid {
        first_slot_with_an_edge_is_found(block, eid, from + 1);
    }
}

/// An edge is found in the first block that has it.
pub proof fn first_block_with_an_edge_is_found(blocks: Seq<BlockModel>, eid: EdgeId, from: int)
    requires
        0 <= from,
    ensures
        match find_edge(blocks, eid, from) {
            Some((b, k)) => {
                &&& from <= b < blocks.len()
                &&& 0 <= k < blocks[b].edge_counter
                &&& blocks[b].edges[k].eid == eid
                &&& forall|i: int| 0 <= i < k ==> (#[trigger] blocks[b].edges[i]).eid != eid
                &&& forall|a: int, i: int|
                    from <= a < b && 0 <= i < blocks[a].edge_counter ==> (
                    #[trigger] blocks[a].edges[i]).eid != eid
            },
            None => forall|a: int, i: int|
                from <= a < blocks.len() && 0 <= i < blocks[a].edge_counter ==> (
                #[trigger] blocks[a].edges[i]).eid != eid,
        },
    decreases blocks.len() - from,
{
    if from < blocks.len() {
        first_slot_with_an_edge_is_found(blocks[from], eid, 0);
        if slot_of(blocks[from], eid, 0) is None {
            first_block_with_an_edge_is_found(blocks, eid, from + 1);
        }
    }
}

/// Where an edge is looked for, it is found: at the place that is tried first, at the one that is
/// recorded, or wherever it is. Only what was looked for everywhere is recorded, and nothing else
/// changes.
pub proof fn edges_are_found_where_they_are(
    storage: StorageModel,
    eid: EdgeId,
    first: Option<(usize, usize)>,
    other: EdgeId,
)
    requires
        storage.blocks.len() <= usize::MAX,
        forall|b: int|
            0 <= b < storage.blocks.len() ==> 0 <= (#[trigger] storage.blocks[b]).edge_counter
                <= usize::MAX,
    ensures
        match storage.resolved(eid, first) {
            Some(location) => {
                &&& location.0 < storage.blocks.len()
                &&& location.1 < storage.blocks[location.0 as int].edge_counter
                &&& storage.blocks[location.0 as int].edges[location.1 as int].eid == eid
            },
            None => forall|b: int, i: int|
                0 <= b < storage.blocks.len() && 0 <= i < storage.blocks[b].edge_counter ==> (
                #[trigger] storage.blocks[b].edges[i]).eid != eid,
        },
        first matches Some(location) ==> location.0 < storage.blocks.len() && location.1
            < storage.blocks[location.0 as int].edge_counter
            && storage.blocks[location.0 as int].edges[location.1 as int].eid == eid
            ==> storage.resolved(eid, first) == first,
        ({
            let after = storage.with_resolved(eid, first);
            &&& after.blocks == storage.blocks
            &&& after.columns == storage.columns
            &&& after.vertices == storage.vertices
            &&& after.dense_ids == storage.dense_ids
            &&& after.deletions == storage.deletions
            &&& after.edge_id_counter == storage.edge_id_counter
            &&& after.logic_id_counter == storage.logic_id_counter
            &&& other != eid ==> after.locations.dom().contains(other)
                == storage.locations.dom().contains(other)
            &&& other != eid && storage.locations.dom().contains(other)
                ==> after.locations[other] == storage.locations[other]
            &&& first is None && storage.resolved(eid, first) is Some
                ==> after.locations.dom().contains(eid) && after.locations[eid]
                == storage.resolved(eid, first)->0
            &&& storage.resolved(eid, first) is None ==> after == storage
        }),
{
    first_block_with_an_edge_is_found(storage.blocks, eid, 0);
}

/// An edge can be written where it has a recorded location, there is a slot with its number, and
/// the block of that slot is in use.
pub proof fn edges_in_use_can_be_written(storage: StorageModel, eid: EdgeId)
    requires
        storage.blocks.len() <= usize::MAX,
        forall|b: int|
            0 <= b < storage.blocks.len() ==> 0 <= (#[trigger] storage.blocks[b]).edge_counter
                <= usize::MAX,
    ensures
        storage.writable(eid) matches Some(location) ==> {
            &&& storage.locations.dom().contains(eid)
            &&& location.0 < storage.blocks.len()
            &&& location.1 < storage.blocks[location.0 as int].edge_counter
            &&& storage.blocks[location.0 as int].edges[location.1 as int].eid == eid
            &&& !storage.blocks[location.0 as int].is_tombstone
        },
        storage.locations.dom().contains(eid) ==> {
            let location = storage.locations[eid];
            location.0 < storage.blocks.len() && location.1
                < storage.blocks[location.0 as int].edge_counter
                && storage.blocks[location.0 as int].edges[location.1 as int].eid == eid ==> {
                &&& storage.writable(eid) is Some
                    <==> !storage.blocks[location.0 as int].is_tombstone
                &&& storage.writable(eid) is Some ==> storage.writable(eid) == Some(location)
                &&& storage.with_writable(eid) == storage
            }
        },
        !storage.locations.dom().contains(eid) ==> storage.writable(eid) is None
            && storage.with_writable(eid) == storage,
{
    if storage.locations.dom().contains(eid) {
        edges_are_found_where_they_are(storage, eid, Some(storage.locations[eid]), eid);
    }
}

/// Outside a transaction an edge is read where it is recorded, provided that its slot is still its
/// own, its block is in use and nobody has deleted it.
pub proof fn edges_in_use_can_be_read(storage: StorageModel, eid: EdgeId)
    ensures
        storage.readable(eid) is Some <==> {
            let location = storage.locations[eid];
            let block = storage.blocks[location.0 as int];
            &&& storage.locations.dom().contains(eid)
            &&& location.0 < storage.blocks.len()
            &&& location.1 < block.edge_counter
            &&& block.edges[location.1 as int].eid == eid
            &&& !block.is_tombstone
            &&& storage.deletions.dom().contains(eid) ==> storage.deletions[eid].len() == 0
        },
        storage.readable(eid) is Some ==> storage.readable(eid) == Some(storage.locations[eid]),
{
}

/// A transaction reads an edge where it is recorded, provided that its slot is still its own, its
/// block is in use, the transaction wrote it or it was committed before the transaction started,
/// and the same holds of none of its deletions.
pub proof fn edges_of_the_snapshot_can_be_read(
    storage: StorageModel,
    eid: EdgeId,
    txn_id: Timestamp,
    start_ts: Timestamp,
)
    requires
        txn_id.0 >= 0x8000_0000_0000_0000,
        start_ts.0 < 0x8000_0000_0000_0000,
    ensures
        storage.visible_at(eid, txn_id, start_ts) is Some <==> {
            let location = storage.locations[eid];
            let block = storage.blocks[location.0 as int];
            let slot = block.edges[location.1 as int];
            &&& storage.locations.dom().contains(eid)
            &&& location.0 < storage.blocks.len()
            &&& location.1 < block.edge_counter
            &&& slot.eid == eid
            &&& !block.is_tombstone
            &&& slot.commit_ts == txn_id || slot.commit_ts.0 <= start_ts.0
            &&& storage.deletions.dom().contains(eid) ==> forall|i: int|
                0 <= i < storage.deletions[eid].len() ==> (
                #[trigger] storage.deletions[eid][i]) != txn_id && storage.deletions[eid][i].0
                    > start_ts.0
        },
        storage.visible_at(eid, txn_id, start_ts) matches Some(location) ==> location
            == storage.locations[eid],
{
    let stamps = deletion_stamps(storage.deletions, eid);
    assert(forall|i: int|
        0 <= i < stamps.len() ==> (sees(#[trigger] stamps[i], Some(txn_id), start_ts) <==> (
        stamps[i] == txn_id || stamps[i].0 <= start_ts.0)));
}

/// An edge needs a source that is known; one that is not is reported, and nothing changes. A new
/// edge has the next number, and the numbers go up by one.
pub proof fn new_edges_need_their_source(
    before: StorageModel,
    edge: EdgeModel,
    mode: WriteMode,
    r: StorageResult<EdgeId>,
    after: StorageModel,
)
    requires
        edge_insertion(before, edge, mode, r, after),
        before.edge_id_counter < u64::MAX,
    ensures
        !before.dense_ids.dom().contains(edge.src_id) ==> {
            &&& after == before
            &&& r matches Err(
                StorageError::VertexNotFound(VertexNotFoundError::VertexNotFound(text)),
            )
            &&& text@ == "Source vertex "@ + decimal(edge.src_id as nat) + " not found"@
        },
        r is Err ==> after == before,
        r matches Ok(eid) ==> {
            &&& before.dense_ids.dom().contains(edge.src_id)
            &&& eid == before.edge_id_counter
            &&& after.edge_id_counter == eid + 1
            &&& after.locations.dom().contains(eid)
            &&& after.dense_ids == before.dense_ids
            &&& after.vertices.len() == before.vertices.len()
            &&& after.deletions == before.deletions
            &&& before.blocks.len() <= after.blocks.len() <= before.blocks.len() + 1
        },
{
}

/// A write of properties is refused, with nothing noted: where there are not as many values as
/// properties, else where the edge cannot be written, else where there is no such property.
pub proof fn property_writes_are_refused_in_order(
    before: StorageModel,
    txn: TxnModel,
    eid: EdgeId,
    indices: Seq<usize>,
    props: Seq<ScalarValue>,
    r: StorageResult<()>,
    after: StorageModel,
    txn_after: TxnModel,
    k: int,
)
    requires
        property_write(before, txn, eid, indices, props, r, after, txn_after),
    ensures
        r is Err ==> txn_after == txn && after.blocks == before.blocks && after.columns
            == before.columns && after.deletions == before.deletions,
        indices.len() != props.len() ==> after == before && (r matches Err(
            StorageError::NotSupported(text),
        ) && text@ == "indices/props length mismatch: "@ + decimal(indices.len()) + " vs "@
            + decimal(props.len())),
        indices.len() == props.len() && before.writable(eid) is None ==> (r matches Err(
            StorageError::EdgeNotFound(EdgeNotFoundError::EdgeNotFound(text)),
        ) && text@ == "Edge "@ + decimal(eid as nat) + " not found"@),
        indices.len() == props.len() && before.writable(eid) is Some && 0 <= k < indices.len()
            && indices[k] >= before.columns.len() ==> (r matches Err(
            StorageError::NotSupported(text),
        ) && text@ == "property index out of range"@),
        indices.len() == props.len() && before.writable(eid) is Some && (forall|j: int|
            0 <= j < indices.len() ==> #[trigger] indices[j] < before.columns.len()) ==> r is Ok,
{
}

/// A deletion is refused where the edge cannot be written, and then nothing is noted.
pub proof fn deletions_need_their_edge(
    before: StorageModel,
    txn: TxnModel,
    eid: EdgeId,
    r: StorageResult<()>,
    after: StorageModel,
    txn_after: TxnModel,
)
    requires
        edge_deletion(before, txn, eid, r, after, txn_after),
    ensures
        r is Ok <==> before.writable(eid) is Some,
        r is Err ==> txn_after == txn && after.blocks == before.blocks && after.columns
            == before.columns && after.deletions == before.deletions,
        before.writable(eid) is None ==> (r matches Err(
            StorageError::EdgeNotFound(EdgeNotFoundError::EdgeNotFound(text)),
        ) && text@ == "Edge "@ + decimal(eid as nat) + " not found"@),
{
}

/// A walk gives one edge after the other, and nothing once none is left.
pub proof fn walks_give_one_edge_after_the_other(
    storage: StorageModel,
    reader: Reader,
    left: Seq<(usize, usize)>,
    r: Option<StorageResult<OlapEdge>>,
    left_after: Seq<(usize, usize)>,
    k: int,
)
    requires
        walk_step(storage, reader, left, r, left_after),
    ensures
        r is None <==> left.len() == 0,
        left.len() == 0 ==> left_after.len() == 0,
        left.len() > 0 ==> left_after.len() == left.len() - 1 && (r matches Some(Ok(edge))
            && edge@ == storage.edge_at(left[0], reader)),
        left.len() > 0 && 0 <= k < left_after.len() ==> left_after[k] == left[k + 1],
{
}

// ---------------------------------------------------------------------------------------------
// Vertices
// ---------------------------------------------------------------------------------------------

/// A vertex that is created is found behind the others, with its properties and without edges; the
/// others stay where they are.
pub proof fn created_vertices_are_found(storage: StorageModel, vertex: VertexModel, other: VertexId)
    requires
        storage.wf(),
        storage.logic_id_counter < u64::MAX,
        storage.vertices.len() < usize::MAX,
        !storage.dense_ids.dom().contains(vertex.vid),
    ensures
        ({
            let after = storage.vertex_created(vertex);
            &&& after.vertex_index(vertex.vid) == Some(storage.vertices.len() as int)
            &&& after.vertices.len() == storage.vertices.len() + 1
            &&& after.vertices.last().vid == vertex.vid
            &&& after.vertices.last().properties == vertex.properties
            &&& after.vertices.last().block_offset == usize::MAX
            &&& other != vertex.vid ==> after.vertex_index(other) == storage.vertex_index(other)
            &&& forall|i: int|
                0 <= i < storage.vertices.len() ==> after.vertices[i]
                    == #[trigger] storage.vertices[i]
            &&& after.blocks == storage.blocks
            &&& after.locations == storage.locations
            &&& after.columns == storage.columns
            &&& after.deletions == storage.deletions
        }),
{
}

/// A vertex that is removed is gone; every other vertex is found still, and is what it was.
pub proof fn removed_vertices_are_gone(storage: StorageModel, v: int, other: VertexId)
    requires
        storage.wf(),
        storage.vertices.len() <= usize::MAX,
        0 <= v < storage.vertices.len(),
    ensures
        ({
            let after = storage.vertex_removed(v);
            &&& after.vertex_index(storage.vertices[v].vid) is None
            &&& after.vertices.len() == storage.vertices.len() - 1
            &&& other != storage.vertices[v].vid ==> (match storage.vertex_index(other) {
                Some(i) => after.vertex_index(other) matches Some(j) && after.vertices[j]
                    == storage.vertices[i],
                None => after.vertex_index(other) is None,
            })
            &&& after.blocks == storage.blocks
            &&& after.locations == storage.locations
            &&& after.columns == storage.columns
            &&& after.deletions == storage.deletions
        }),
{
    let after = storage.vertex_removed(v);
    if other != storage.vertices[v].vid {
        if let Some(i) = storage.vertex_index(other) {
            assert(storage.vertices[i].vid == other);
            let j: int = if i > v {
                i - 1
            } else {
                i
            };
            assert(after.dense_ids[other] == j);
            assert(after.vertices[j] == storage.vertices[i]);
        }
    }
}

/// The last of some vertices with a number is the one that is found under it.
pub proof fn vertices_are_entered_at_their_positions(
    dense_ids: Map<VertexId, VertexId>,
    vertices: Seq<VertexModel>,
    lo: int,
    hi: int,
    vid: VertexId,
)
    requires
        0 <= lo <= hi <= vertices.len() <= u64::MAX,
    ensures
        ({
            let after = positions_entered(dense_ids, vertices, lo, hi);
            &&& (forall|i: int| lo <= i < hi ==> (#[trigger] vertices[i]).vid != vid) ==> {
                &&& after.dom().contains(vid) == dense_ids.dom().contains(vid)
                &&& dense_ids.dom().contains(vid) ==> after[vid] == dense_ids[vid]
            }
            &&& forall|i: int|
                lo <= i < hi && (#[trigger] vertices[i]).vid == vid && (forall|j: int|
                    i < j < hi ==> (#[trigger] vertices[j]).vid != vid)
                    ==> after.dom().contains(vid) && after[vid] == i
        }),
    decreases hi - lo,
{
    if lo < hi {
        vertices_are_entered_at_their_positions(dense_ids, vertices, lo, hi - 1, vid);
    }
}

// ---------------------------------------------------------------------------------------------
// Errors
// ---------------------------------------------------------------------------------------------

/// Errors have their sorts, and hold the text that they are reported with.
pub proof fn errors_hold_their_texts(e: StorageError, text: Seq<char>)
    ensures
        e.is_edge_not_found(text) <==> (e matches StorageError::EdgeNotFound(
            EdgeNotFoundError::EdgeNotFound(held),
        ) && held@ == text),
        e.is_vertex_not_found(text) <==> (e matches StorageError::VertexNotFound(
            VertexNotFoundError::VertexNotFound(held),
        ) && held@ == text),
        e.is_not_supported(text) <==> (e matches StorageError::NotSupported(held) && held@ == text),
        e.is_already_committed(text) <==> (e matches StorageError::Transaction(
            TransactionError::TransactionAlreadyCommitted(held),
        ) && held@ == text),
{
}

/// What is missing, or there twice, is named by its number.
pub proof fn what_is_missing_is_named(number: u64, ts: Timestamp)
    ensures
        edge_missing(number) == "Edge "@ + decimal(number as nat) + " not found"@,
        edge_block_missing(number) == "Edge block "@ + decimal(number as nat) + " not found"@,
        vertex_missing(number) == "Vertex "@ + decimal(number as nat) + " not found"@,
        source_vertex_missing(number) == "Source vertex "@ + decimal(number as nat)
            + " not found"@,
        vertex_exists(number) == "Vertex "@ + decimal(number as nat) + " is existed"@,
        vertex_id_missing(number) == "Vertex ID "@ + decimal(number as nat) + " not found"@,
        timestamp_text(ts) == "Timestamp("@ + decimal(ts.0 as nat) + ")"@,
        abort_refusal(ts) == "abort called on already committed transaction at "@ + timestamp_text(
            ts,
        ),
{
    reveal_strlit("abort called on already committed transaction at Timestamp(");
    reveal_strlit("abort called on already committed transaction at ");
    reveal_strlit("Timestamp(");
    let head = "abort called on already committed transaction at "@;
    assert("abort called on already committed transaction at Timestamp("@ =~= head
        + "Timestamp("@);
    assert(abort_refusal(ts) =~= head + timestamp_text(ts));
}

} // verus!
