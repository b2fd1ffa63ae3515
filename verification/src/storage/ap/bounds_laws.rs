//! Timestamps of blocks: every write and every commit lies within the bounds of the blocks that it
//! reaches.

use vstd::prelude::*;
use crate::common::types::EdgeId;
use crate::common::value::ScalarValue;
use crate::storage::ap::model::{
    column_inserted, column_promoted, column_reverted, column_written, BlockModel, ColumnModel,
    EdgeModel, PropBlockModel, StorageModel, Undo, WriteMode,
};
use crate::storage::ap::types::PropertyVersion;
use crate::transaction::Timestamp;

verus! {

/// A timestamp lies within the bounds of a block of values.
pub open spec fn lies_within(ts: Timestamp, block: PropBlockModel) -> bool {
    block.min_ts.0 <= ts.0 <= block.max_ts.0
}

/// A timestamp lies within the bounds of a block of edges.
pub open spec fn lies_within_edges(ts: Timestamp, block: BlockModel) -> bool {
    block.min_ts.0 <= ts.0 <= block.max_ts.0
}

/// A value that is written in a transaction lies within the bounds of its block, which take in what
/// they did before; the other blocks stay. A block that is opened for it starts with its time.
pub proof fn written_values_lie_within_bounds(
    column: ColumnModel,
    location: (usize, usize),
    value: ScalarValue,
    ts: Timestamp,
    other: Timestamp,
    a: int,
)
    requires
        location.0 <= column.len(),
        forall|b: int| 0 <= b < column.len() ==> location.1 < (#[trigger] column[b]).values.len(),
    ensures
        ({
            let b = location.0 as int;
            let after = column_written(column, location, value, ts);
            &&& after.len() == (if b < column.len() {
                column.len()
            } else {
                column.len() + 1
            })
            &&& lies_within(ts, after[b])
            &&& b < column.len() && lies_within(other, column[b]) ==> lies_within(other, after[b])
            &&& b == column.len() && lies_within(other, after[b]) ==> other == ts
            &&& 0 <= a < column.len() && a != b ==> after[a] == column[a]
        }),
{
}

/// What a transaction inserts lies within the bounds of the block of values; what has always been
/// there does not change them.
pub proof fn inserted_values_lie_within_bounds(
    column: ColumnModel,
    b: int,
    pos: int,
    n: int,
    value: Option<ScalarValue>,
    mode: WriteMode,
    other: Timestamp,
    a: int,
)
    requires
        0 <= b < column.len(),
        0 <= pos <= n < column[b].values.len(),
    ensures
        ({
            let after = column_inserted(column, b, pos, n, value, mode);
            &&& after.len() == column.len()
            &&& mode.transactional ==> lies_within(mode.ts, after[b])
            &&& lies_within(other, column[b]) ==> lies_within(other, after[b])
            &&& !mode.transactional ==> after[b].min_ts == column[b].min_ts && after[b].max_ts
                == column[b].max_ts
            &&& 0 <= a < column.len() && a != b ==> after[a] == column[a]
        }),
{
}

/// A block of values that is opened for an edge starts with the bounds of the write.
pub proof fn opened_blocks_start_with_the_bounds_of_the_write(
    column: ColumnModel,
    pos: int,
    n: int,
    value: Option<ScalarValue>,
    mode: WriteMode,
)
    requires
        0 <= pos <= n < 256,
    ensures
        ({
            let b = column.len() as int;
            let after = column_inserted(column, b, pos, n, value, mode);
            &&& after.len() == b + 1
            &&& mode.transactional ==> lies_within(mode.ts, after[b])
            &&& !mode.transactional ==> after[b].min_ts == mode.fresh_min && after[b].max_ts
                == mode.fresh_max
            &&& mode.fresh_min.0 <= mode.ts.0 <= mode.fresh_max.0 ==> after[b].min_ts
                == mode.fresh_min && after[b].max_ts == mode.fresh_max
        }),
{
}

/// A commit lies within the bounds of the blocks of the values that it publishes; where it
/// publishes none, the column stays as it is.
pub proof fn published_values_lie_within_bounds(
    column: ColumnModel,
    location: (usize, usize),
    txn_id: Timestamp,
    commit_ts: Timestamp,
    i: int,
    other: Timestamp,
    a: int,
)
    requires
        location.0 < column.len(),
        location.1 < column[location.0 as int].values.len(),
    ensures
        ({
            let b = location.0 as int;
            let offset = location.1 as int;
            let versions = column[b].values[offset];
            let after = column_promoted(column, location, txn_id, commit_ts);
            &&& after.len() == column.len()
            &&& 0 <= i < versions.len() && versions[i].ts == txn_id ==> lies_within(
                commit_ts,
                after[b],
            ) && after[b].values[offset][i] == (PropertyVersion { ts: commit_ts, ..versions[i] })
            &&& 0 <= i < versions.len() && versions[i].ts != txn_id
                ==> after[b].values[offset][i] == versions[i]
            &&& (forall|j: int| 0 <= j < versions.len() ==> (#[trigger] versions[j]).ts != txn_id)
                ==> after == column
            &&& lies_within(other, column[b]) ==> lies_within(other, after[b])
            &&& 0 <= a < column.len() && a != b ==> after[a] == column[a]
            &&& 0 <= a < column[b].values.len() && a != offset ==> after[b].values[a]
                == column[b].values[a]
        }),
{
}

/// The time of an edge whose values are taken back lies within the bounds of their block, and no
/// version of the transaction is left.
pub proof fn reverted_values_lie_within_bounds(
    column: ColumnModel,
    location: (usize, usize),
    txn_id: Timestamp,
    old_ts: Timestamp,
    i: int,
    other: Timestamp,
    a: int,
)
    requires
        location.0 < column.len(),
        location.1 < column[location.0 as int].values.len(),
    ensures
        ({
            let b = location.0 as int;
            let offset = location.1 as int;
            let after = column_reverted(column, location, txn_id, old_ts);
            &&& after.len() == column.len()
            &&& lies_within(old_ts, after[b])
            &&& lies_within(other, column[b]) ==> lies_within(other, after[b])
            &&& 0 <= i < after[b].values[offset].len() ==> after[b].values[offset][i].ts != txn_id
                && column[b].values[offset].contains(after[b].values[offset][i])
            &&& 0 <= a < column.len() && a != b ==> after[a] == column[a]
            &&& 0 <= a < column[b].values.len() && a != offset ==> after[b].values[a]
                == column[b].values[a]
        }),
{
    let b = location.0 as int;
    let offset = location.1 as int;
    let versions = column[b].values[offset];
    let kept = |v: PropertyVersion| v.ts != txn_id;
    let left = versions.filter(kept);
    assert(column_reverted(column, location, txn_id, old_ts)[b].values[offset] == left);
    if 0 <= i < left.len() {
        versions.lemma_filter_pred(kept, i);
        assert(left.contains(left[i]));
        versions.lemma_filter_contains_rev(kept, left[i]);
    }
}

/// Writes and deletions in a transaction lie within the bounds of the block of the edge, which take
/// in what they did before. They change nothing else of the block, and no other block.
pub proof fn changed_edges_lie_within_bounds(
    storage: StorageModel,
    eid: EdgeId,
    location: (usize, usize),
    indices: Seq<usize>,
    props: Seq<ScalarValue>,
    ts: Timestamp,
    other: Timestamp,
    a: int,
)
    requires
        location.0 < storage.blocks.len(),
    ensures
        ({
            let b = location.0 as int;
            let block = storage.blocks[b];
            let written = storage.properties_set(location, indices, props, ts).blocks;
            let deleted = storage.edge_buried(eid, location, ts).blocks;
            &&& lies_within_edges(ts, written[b])
            &&& lies_within_edges(ts, deleted[b])
            &&& lies_within_edges(other, block) ==> lies_within_edges(other, written[b])
                && lies_within_edges(other, deleted[b])
            &&& written[b] == (BlockModel {
                min_ts: written[b].min_ts,
                max_ts: written[b].max_ts,
                ..block
            })
            &&& deleted[b] == written[b]
            &&& written.len() == storage.blocks.len()
            &&& deleted.len() == storage.blocks.len()
            &&& 0 <= a < storage.blocks.len() && a != b ==> written[a] == storage.blocks[a]
                && deleted[a] == storage.blocks[a]
        }),
{
}

/// A new edge of a transaction lies within the bounds of its block.
pub proof fn new_edges_lie_within_bounds(
    storage: StorageModel,
    v: int,
    pos: int,
    edge: EdgeModel,
    mode: WriteMode,
)
    requires
        storage.wf(),
        0 <= v < storage.vertices.len(),
        storage.has_block(v),
        storage.blocks.len() < usize::MAX,
        mode.transactional,
    ensures
        ({
            let after = storage.edge_created(v, pos, edge, mode);
            lies_within_edges(mode.ts, after.blocks[after.vertices[v].block_offset as int])
        }),
{
}

/// A commit lies within the bounds of the block of every edge that the transaction has changed, and
/// neither bound is a mark of a transaction any more. What the commit changes of the block is this
/// and the time of the edge.
pub proof fn committed_edges_lie_within_bounds(
    storage: StorageModel,
    op: Undo,
    eid: EdgeId,
    txn_id: Timestamp,
    commit_ts: Timestamp,
    a: int,
)
    requires
        match op {
            Undo::Create { eid: changed, .. } | Undo::SetProps { eid: changed, .. } => changed
                == eid,
            Undo::Delete { eid: changed } => changed == eid,
            _ => false,
        },
        storage.wf(),
        commit_ts.0 < 0x8000_0000_0000_0000,
        storage.located(eid) is Some,
    ensures
        ({
            let location = storage.located(eid)->0;
            let b = location.0 as int;
            let block = storage.blocks[b];
            let after = storage.change_committed(op, txn_id, commit_ts).blocks;
            &&& lies_within_edges(commit_ts, after[b])
            &&& after[b].min_ts.0 < 0x8000_0000_0000_0000
            &&& after[b].max_ts.0 < 0x8000_0000_0000_0000
            &&& after.len() == storage.blocks.len()
            &&& 0 <= a < storage.blocks.len() && a != b ==> after[a] == storage.blocks[a]
            &&& after[b] == (BlockModel {
                min_ts: after[b].min_ts,
                max_ts: after[b].max_ts,
                edges: after[b].edges,
                ..block
            })
            &&& 0 <= a < block.edges.len() && a != location.1 ==> after[b].edges[a]
                == block.edges[a]
        }),
{
}

} // verus!
