//! Who sees what: a transaction sees its own writes, nobody else does before it commits, and
//! everybody who starts late enough does afterwards.

use vstd::prelude::*;
use crate::common::types::EdgeId;
use crate::storage::ap::abort_laws::{
    can_create, lemma_created_wf, lemma_extended_versions, lemma_inserted_versions,
    lemma_some_wrote_more, some_deleted,
};
use crate::storage::ap::chain_laws::insertion_keeps_chains;
use crate::storage::ap::index_laws::exact_map_resolves;
use crate::storage::ap::model::{
    column_wf, columns_extended, deletion_stamps, key_less, promoted, sees, stamps_promoted,
    value_for, versions_at, BlockModel, EdgeModel, Reader, StorageModel, Undo, Versions,
};
use crate::storage::ap::olap_graph::txn_mode;
use crate::storage::ap::reads::reader_of;
use crate::storage::ap::types::{
    blank_slot, property_at, OlapStorageEdge, PropertyVersion, BLOCK_CAPACITY,
};
use crate::transaction::Timestamp;

verus! {

/// An edge that carries the mark of a running transaction is seen by that transaction alone.
pub proof fn marked_edge_is_hidden(
    storage: StorageModel,
    eid: EdgeId,
    txn_id: Timestamp,
    reader_id: Timestamp,
    start_ts: Timestamp,
)
    requires
        txn_id.spec_is_txn_id(),
        storage.marked(eid, txn_id) is Some,
        reader_id != txn_id,
    ensures
        storage.visible_at(eid, reader_id, start_ts) is None,
{
}

/// A transaction sees the edge that it has just created, with its ends, its label and its
/// properties.
pub proof fn created_edge_is_seen_by_its_writer(
    storage: StorageModel,
    v: int,
    pos: int,
    edge: EdgeModel,
    txn_id: Timestamp,
    start_ts: Timestamp,
)
    requires
        storage.wf(),
        storage.indexed(),
        storage.chained(),
        txn_id.spec_is_txn_id(),
        can_create(storage, v, pos, edge, txn_id),
        edge.src_id == storage.vertices[v].vid,
    ensures
        ({
            let after = storage.edge_created(v, pos, edge, txn_mode(txn_id));
            let opened = storage.block_opened(v, edge.src_id, txn_mode(txn_id));
            let location = (opened.vertices[v].block_offset, pos as usize);
            let reader = Reader::At { txn_id: Some(txn_id), start_ts };
            let slot = after.slot(location);
            &&& after.visible_at(storage.edge_id_counter, txn_id, start_ts) == Some(location)
            &&& after.blocks[location.0 as int].src_id == edge.src_id
            &&& slot.label_id == edge.label_id && slot.dst_id == edge.dst_id && slot.commit_ts
                == txn_id
            &&& forall|c: int|
                0 <= c < after.columns.len() ==> value_for(
                    #[trigger] versions_at(after.columns, c, location),
                    reader,
                ) == property_at(edge.properties, c)
        }),
{
    lemma_created_edge(storage, v, pos, edge, txn_id, start_ts);
    insertion_keeps_chains(storage, v, pos, edge, txn_mode(txn_id));
}

/// The slot of a new edge and its properties.
proof fn lemma_created_edge(
    storage: StorageModel,
    v: int,
    pos: int,
    edge: EdgeModel,
    txn_id: Timestamp,
    start_ts: Timestamp,
)
    requires
        storage.wf(),
        storage.indexed(),
        txn_id.spec_is_txn_id(),
        can_create(storage, v, pos, edge, txn_id),
    ensures
        ({
            let after = storage.edge_created(v, pos, edge, txn_mode(txn_id));
            let opened = storage.block_opened(v, edge.src_id, txn_mode(txn_id));
            let b = opened.vertices[v].block_offset;
            let location = (b, pos as usize);
            let reader = Reader::At { txn_id: Some(txn_id), start_ts };
            let slot = after.slot(location);
            &&& after.located(storage.edge_id_counter) == Some(location)
            &&& slot.label_id == edge.label_id && slot.dst_id == edge.dst_id && slot.commit_ts
                == txn_id
            &&& !after.blocks[b as int].is_tombstone ==> after.visible_at(
                storage.edge_id_counter,
                txn_id,
                start_ts,
            ) == Some(location)
            &&& forall|c: int|
                0 <= c < after.columns.len() ==> {
                    let versions = #[trigger] versions_at(after.columns, c, location);
                    &&& versions.len() > 0
                    &&& versions.last() == (PropertyVersion {
                        ts: txn_id,
                        value: property_at(edge.properties, c),
                    })
                    &&& value_for(versions, reader) == property_at(edge.properties, c)
                }
        }),
{
    let mode = txn_mode(txn_id);
    let opened = storage.block_opened(v, edge.src_id, mode);
    let after = storage.edge_created(v, pos, edge, mode);
    let b = opened.vertices[v].block_offset;
    let location = (b, pos as usize);
    let eid = storage.edge_id_counter;
    assert(deletion_stamps(storage.deletions, eid).len() == 0);
    lemma_created_wf(storage, v, pos, edge, txn_id);
    let block = opened.blocks[b as int];
    assert(block.wf()) by {
        if b < storage.blocks.len() {
            assert(storage.blocks[b as int].wf());
        }
    }
    assert(after.blocks[b as int].edges[pos].eid == eid);
    assert(after.slot_recorded(b as int, pos));
    let columns = columns_extended(storage.columns, edge.properties.len() as int);
    let reader = Reader::At { txn_id: Some(txn_id), start_ts };
    assert forall|c: int| 0 <= c < after.columns.len() implies {
        let versions = #[trigger] versions_at(after.columns, c, location);
        &&& versions.len() > 0
        &&& versions.last() == (PropertyVersion {
            ts: txn_id,
            value: property_at(edge.properties, c),
        })
        &&& value_for(versions, reader) == property_at(edge.properties, c)
    } by {
        lemma_extended_versions(storage.columns, edge.properties.len() as int, c, location);
        lemma_inserted_versions(
            columns,
            after.columns,
            b,
            pos,
            block.edge_counter,
            edge.properties,
            mode,
            c,
            location,
        );
    }
}

/// Inserting an edge moves the others within their blocks with everything that belongs to them:
/// slot and property versions.
pub proof fn insertion_keeps_other_edges(
    storage: StorageModel,
    v: int,
    pos: int,
    edge: EdgeModel,
    txn_id: Timestamp,
    eid: EdgeId,
    c: int,
)
    requires
        storage.wf(),
        storage.indexed(),
        can_create(storage, v, pos, edge, txn_id),
        storage.located(eid) is Some,
    ensures
        ({
            let after = storage.edge_created(v, pos, edge, txn_mode(txn_id));
            let from = storage.located(eid)->0;
            &&& after.located(eid) matches Some(to) && {
                &&& to.0 == from.0
                &&& after.slot(to) == storage.slot(from)
                &&& versions_at(after.columns, c, to) == versions_at(storage.columns, c, from)
            }
        }),
{
    let mode = txn_mode(txn_id);
    let opened = storage.block_opened(v, edge.src_id, mode);
    let after = storage.edge_created(v, pos, edge, mode);
    let b = opened.vertices[v].block_offset;
    lemma_created_wf(storage, v, pos, edge, txn_id);
    exact_map_resolves(storage, eid);
    exact_map_resolves(after, eid);
    let from = storage.located(eid)->0;
    let block = opened.blocks[b as int];
    assert(block.wf()) by {
        if b < storage.blocks.len() {
            assert(storage.blocks[b as int].wf());
        }
    }
    assert(storage.blocks[from.0 as int].wf());
    let to = if from.0 == b && from.1 >= pos {
        (from.0, (from.1 + 1) as usize)
    } else {
        from
    };
    assert(after.blocks[to.0 as int].edges[to.1 as int]
        == storage.blocks[from.0 as int].edges[from.1 as int]);
    assert(after.slot_recorded(to.0 as int, to.1 as int));
    let columns = columns_extended(storage.columns, edge.properties.len() as int);
    lemma_extended_versions(storage.columns, edge.properties.len() as int, c, from);
    lemma_inserted_versions(
        columns,
        after.columns,
        b,
        pos,
        block.edge_counter,
        edge.properties,
        mode,
        c,
        to,
    );
}

/// Creating an edge keeps the map of locations exact, with the new edge in it; every other edge
/// keeps its slot content and its versions of every property; and the newest version of every
/// property of the new edge is the transaction's, with the value that the edge was created with.
pub proof fn creation_keeps_everything_else(
    storage: StorageModel,
    v: int,
    pos: int,
    edge: EdgeModel,
    txn_id: Timestamp,
)
    requires
        storage.wf(),
        storage.indexed(),
        txn_id.spec_is_txn_id(),
        can_create(storage, v, pos, edge, txn_id),
    ensures
        ({
            let after = storage.edge_created(v, pos, edge, txn_mode(txn_id));
            let opened = storage.block_opened(v, edge.src_id, txn_mode(txn_id));
            let location = (opened.vertices[v].block_offset, pos as usize);
            &&& after.wf()
            &&& after.indexed()
            &&& after.located(storage.edge_id_counter) == Some(location)
            &&& forall|eid: EdgeId| #[trigger]
                storage.located(eid) is Some ==> kept_with_versions(storage, after, eid)
            &&& forall|c: int|
                0 <= c < after.columns.len() ==> (#[trigger] versions_at(
                    after.columns,
                    c,
                    location,
                )).len() > 0 && versions_at(after.columns, c, location).last() == (
                PropertyVersion { ts: txn_id, value: property_at(edge.properties, c) })
        }),
{
    let after = storage.edge_created(v, pos, edge, txn_mode(txn_id));
    lemma_created_wf(storage, v, pos, edge, txn_id);
    lemma_created_edge(storage, v, pos, edge, txn_id, Timestamp(0));
    assert forall|eid: EdgeId| #[trigger] storage.located(eid) is Some implies kept_with_versions(
        storage,
        after,
        eid,
    ) by {
        insertion_keeps_other_edges(storage, v, pos, edge, txn_id, eid, 0);
        let from = storage.located(eid)->0;
        let to = after.located(eid)->0;
        assert forall|c: int| #[trigger] versions_at(after.columns, c, to) == versions_at(
            storage.columns,
            c,
            from,
        ) by {
            insertion_keeps_other_edges(storage, v, pos, edge, txn_id, eid, c);
        }
    }
}

/// An edge is still stored, with the same content of its slot and the same versions.
pub open spec fn kept_with_versions(
    before: StorageModel,
    after: StorageModel,
    eid: EdgeId,
) -> bool {
    match (before.located(eid), after.located(eid)) {
        (Some(from), Some(to)) => {
            &&& to.0 == from.0
            &&& after.slot(to) == before.slot(from)
            &&& forall|c: int| #[trigger]
                versions_at(after.columns, c, to) == versions_at(before.columns, c, from)
        },
        _ => false,
    }
}

/// A block in order stays in order when an edge is put where it belongs.
pub proof fn insertion_keeps_order(block: BlockModel, pos: int, slot: OlapStorageEdge)
    requires
        block.wf(),
        block.edge_counter < BLOCK_CAPACITY,
        block.sorted(),
        block.is_slot_for(pos, slot.dst_id, slot.label_id),
    ensures
        block.slot_inserted(pos, slot).sorted(),
{
    let after = block.slot_inserted(pos, slot);
    let n = block.edge_counter;
    assert forall|i: int, j: int| 0 <= i < j < after.edge_counter implies !#[trigger] key_less(
        after.edges[j].dst_id,
        after.edges[j].label_id,
        after.edges[i].dst_id,
        after.edges[i].label_id,
    ) by {
        let oi = if i < pos {
            i
        } else {
            i - 1
        };
        let oj = if j < pos {
            j
        } else {
            j - 1
        };
        if i != pos && j != pos {
            assert(!key_less(
                block.edges[oj].dst_id,
                block.edges[oj].label_id,
                block.edges[oi].dst_id,
                block.edges[oi].label_id,
            ));
        } else if i == pos {
            if oj > pos {
                assert(!key_less(
                    block.edges[oj].dst_id,
                    block.edges[oj].label_id,
                    block.edges[pos].dst_id,
                    block.edges[pos].label_id,
                ));
            }
        } else {
            if oi < pos - 1 {
                assert(!key_less(
                    block.edges[pos - 1].dst_id,
                    block.edges[pos - 1].label_id,
                    block.edges[oi].dst_id,
                    block.edges[oi].label_id,
                ));
            }
        }
    }
}

// ---------------------------------------------------------------------------------------------
// Commit
// ---------------------------------------------------------------------------------------------

/// The edge that an entry is about, if any.
pub open spec fn entry_edge(op: Undo) -> Option<EdgeId> {
    match op {
        Undo::Create { eid, .. } => Some(eid),
        Undo::SetProps { eid, .. } => Some(eid),
        Undo::Delete { eid } => Some(eid),
        _ => None,
    }
}

/// One storage is another one with some marks of a transaction replaced by its commit timestamp.
pub open spec fn partly_committed(
    after: StorageModel,
    before: StorageModel,
    txn_id: Timestamp,
    commit_ts: Timestamp,
) -> bool {
    &&& after.locations == before.locations
    &&& after.edge_id_counter == before.edge_id_counter
    &&& after.blocks.len() == before.blocks.len()
    &&& forall|b: int|
        0 <= b < before.blocks.len() ==> block_partly_committed(
            #[trigger] after.blocks[b],
            before.blocks[b],
            txn_id,
            commit_ts,
        )
}

pub open spec fn block_partly_committed(
    after: BlockModel,
    before: BlockModel,
    txn_id: Timestamp,
    commit_ts: Timestamp,
) -> bool {
    &&& after.edge_counter == before.edge_counter
    &&& after.edges.len() == before.edges.len()
    &&& after.is_tombstone == before.is_tombstone
    &&& after.src_id == before.src_id
    &&& after.pre_block_index == before.pre_block_index
    &&& forall|o: int|
        0 <= o < before.edges.len() ==> #[trigger] after.edges[o] == before.edges[o] || (
        before.edges[o].commit_ts == txn_id && after.edges[o] == (OlapStorageEdge {
            commit_ts,
            ..before.edges[o]
        }))
}

/// The change is one of properties: it creates an edge or writes its properties.
pub open spec fn writes_properties(op: Undo) -> bool {
    op is Create || op is SetProps
}

/// Promoting a version list without versions of the transaction changes nothing.
proof fn lemma_nothing_promoted(versions: Versions, txn_id: Timestamp, commit_ts: Timestamp)
    requires
        !(exists|i: int| 0 <= i < versions.len() && (#[trigger] versions[i]).ts == txn_id),
    ensures
        promoted(versions, txn_id, commit_ts) == versions,
{
    assert(promoted(versions, txn_id, commit_ts) =~= versions);
}

/// Committing a change promotes the versions of the transaction in the slot of its edge, and its
/// deletions of the edge.
pub proof fn lemma_change_promotes(
    storage: StorageModel,
    op: Undo,
    txn_id: Timestamp,
    commit_ts: Timestamp,
    c: int,
    l: (usize, usize),
)
    ensures
        ({
            let after = storage.change_committed(op, txn_id, commit_ts);
            &&& after.columns.len() == storage.columns.len()
            &&& versions_at(after.columns, c, l) == (if writes_properties(op) && storage.located(
                entry_edge(op)->0,
            ) == Some(l) {
                promoted(versions_at(storage.columns, c, l), txn_id, commit_ts)
            } else {
                versions_at(storage.columns, c, l)
            })
        }),
{
    let versions = versions_at(storage.columns, c, l);
    if !(exists|i: int| 0 <= i < versions.len() && (#[trigger] versions[i]).ts == txn_id) {
        lemma_nothing_promoted(versions, txn_id, commit_ts);
    }
}

pub proof fn lemma_change_committed(
    before: StorageModel,
    op: Undo,
    txn_id: Timestamp,
    commit_ts: Timestamp,
)
    requires
        before.wf(),
        before.indexed(),
        txn_id.spec_is_txn_id(),
        commit_ts.spec_is_commit_ts(),
    ensures
        ({
            let after = before.change_committed(op, txn_id, commit_ts);
            &&& after.wf()
            &&& after.indexed()
            &&& partly_committed(after, before, txn_id, commit_ts)
            &&& entry_edge(op) matches Some(eid) ==> after.marked(eid, txn_id) is None
            &&& forall|e: EdgeId| #[trigger]
                deletion_stamps(after.deletions, e) == (if op == (Undo::Delete { eid: e }) {
                    stamps_promoted(deletion_stamps(before.deletions, e), txn_id, commit_ts)
                } else {
                    deletion_stamps(before.deletions, e)
                })
        }),
{
    let after = before.change_committed(op, txn_id, commit_ts);
    if let Some(eid) = entry_edge(op) {
        exact_map_resolves(before, eid);
        assert(after.deletions_known()) by {
            assert forall|e: EdgeId|
                (#[trigger] deletion_stamps(after.deletions, e)).len() > 0 implies 0 < e
                < after.edge_id_counter by {
                assert(deletion_stamps(before.deletions, e).len() > 0);
            }
        }
        if let Some(location) = before.located(eid) {
            assert(before.blocks[location.0 as int].wf());
            assert forall|c: int| 0 <= c < after.columns.len() implies column_wf(
                #[trigger] after.columns[c],
            ) by {
                assert(column_wf(before.columns[c]));
                if after.columns[c] != before.columns[c] {
                    assert forall|b: int| 0 <= b < after.columns[c].len() implies (
                    #[trigger] after.columns[c][b]).wf() by {
                        assert(before.columns[c][b].wf());
                    }
                }
            }
            crate::storage::ap::index_laws::slot_update_keeps_index(before, after, location);
            exact_map_resolves(after, eid);
        } else {
            assert forall|e: EdgeId| #[trigger] after.locations.dom().contains(e) implies
                after.location_exact(e) by {
                assert(before.location_exact(e));
            }
            assert forall|b: int, offset: int|
                0 <= b < after.blocks.len() && 0 <= offset < after.blocks[b].edge_counter implies
                #[trigger] after.slot_recorded(b, offset) by {
                assert(before.slot_recorded(b, offset));
            }
        }
    }
}

proof fn lemma_partly_committed_trans(
    a: StorageModel,
    b: StorageModel,
    c: StorageModel,
    txn_id: Timestamp,
    commit_ts: Timestamp,
)
    requires
        partly_committed(a, b, txn_id, commit_ts),
        partly_committed(b, c, txn_id, commit_ts),
        txn_id != commit_ts,
    ensures
        partly_committed(a, c, txn_id, commit_ts),
{
    assert forall|i: int| 0 <= i < c.blocks.len() implies block_partly_committed(
        #[trigger] a.blocks[i],
        c.blocks[i],
        txn_id,
        commit_ts,
    ) by {
        assert(block_partly_committed(a.blocks[i], b.blocks[i], txn_id, commit_ts));
        assert(block_partly_committed(b.blocks[i], c.blocks[i], txn_id, commit_ts));
        assert forall|o: int| 0 <= o < c.blocks[i].edges.len() implies #[trigger] a.blocks[i].edges[o]
            == c.blocks[i].edges[o] || (c.blocks[i].edges[o].commit_ts == txn_id
            && a.blocks[i].edges[o] == (OlapStorageEdge { commit_ts, ..c.blocks[i].edges[o] })) by {
            assert(a.blocks[i].edges[o] == b.blocks[i].edges[o] || b.blocks[i].edges[o].commit_ts
                == txn_id);
            assert(b.blocks[i].edges[o] == c.blocks[i].edges[o] || c.blocks[i].edges[o].commit_ts
                == txn_id);
        }
    }
}

pub proof fn lemma_changes_committed(
    storage: StorageModel,
    undo: Seq<(Undo, Timestamp)>,
    txn_id: Timestamp,
    commit_ts: Timestamp,
    k: nat,
)
    requires
        storage.wf(),
        storage.indexed(),
        txn_id.spec_is_txn_id(),
        commit_ts.spec_is_commit_ts(),
        k <= undo.len(),
    ensures
        ({
            let after = storage.changes_committed(undo, txn_id, commit_ts, k);
            &&& after.wf()
            &&& after.indexed()
            &&& partly_committed(after, storage, txn_id, commit_ts)
            &&& forall|i: int|
                0 <= i < k ==> (entry_edge((#[trigger] undo[i]).0) matches Some(eid)
                    ==> after.marked(eid, txn_id) is None)
        }),
    decreases k,
{
    if k > 0 {
        lemma_changes_committed(storage, undo, txn_id, commit_ts, (k - 1) as nat);
        let before = storage.changes_committed(undo, txn_id, commit_ts, (k - 1) as nat);
        let after = storage.changes_committed(undo, txn_id, commit_ts, k);
        lemma_change_committed(before, undo[k - 1].0, txn_id, commit_ts);
        lemma_partly_committed_trans(after, before, storage, txn_id, commit_ts);
        assert forall|i: int| 0 <= i < k implies (entry_edge((#[trigger] undo[i]).0) matches Some(
            eid,
        ) ==> after.marked(eid, txn_id) is None) by {
            if let Some(eid) = entry_edge(undo[i].0) {
                if i < k - 1 {
                    assert(before.marked(eid, txn_id) is None);
                    exact_map_resolves(before, eid);
                    exact_map_resolves(after, eid);
                    if let Some(location) = after.located(eid) {
                        let b = location.0 as int;
                        assert(before.blocks[b].wf());
                        assert(block_partly_committed(
                            after.blocks[b],
                            before.blocks[b],
                            txn_id,
                            commit_ts,
                        ));
                        assert(after.blocks[b].edges[location.1 as int]
                            == before.blocks[b].edges[location.1 as int]
                            || before.blocks[b].edges[location.1 as int].commit_ts == txn_id);
                    }
                }
            }
        }
    }
}

/// A commit replaces every mark that the transaction left on the edges it wrote, and nothing else
/// of any edge.
pub proof fn commit_replaces_marks(
    storage: StorageModel,
    undo: Seq<(Undo, Timestamp)>,
    txn_id: Timestamp,
    commit_ts: Timestamp,
)
    requires
        storage.wf(),
        storage.indexed(),
        txn_id.spec_is_txn_id(),
        commit_ts.spec_is_commit_ts(),
    ensures
        ({
            let after = storage.changes_committed(undo, txn_id, commit_ts, undo.len());
            &&& after.wf()
            &&& after.indexed()
            &&& partly_committed(after, storage, txn_id, commit_ts)
            &&& forall|i: int|
                0 <= i < undo.len() ==> (entry_edge((#[trigger] undo[i]).0) matches Some(eid)
                    ==> after.marked(eid, txn_id) is None)
        }),
{
    lemma_changes_committed(storage, undo, txn_id, commit_ts, undo.len());
}

/// An edge that a transaction created is seen, once committed, by exactly those transactions that
/// start no earlier than the commit: unless they see a deletion of it, or its block has been buried
/// with the source vertex.
pub proof fn commit_publishes(
    storage: StorageModel,
    undo: Seq<(Undo, Timestamp)>,
    txn_id: Timestamp,
    commit_ts: Timestamp,
    i: int,
    reader_id: Timestamp,
    start_ts: Timestamp,
)
    requires
        storage.wf(),
        storage.indexed(),
        txn_id.spec_is_txn_id(),
        commit_ts.spec_is_commit_ts(),
        0 <= i < undo.len(),
        entry_edge(undo[i].0) is Some,
        storage.marked(entry_edge(undo[i].0)->0, txn_id) is Some,
        ({
            let location = storage.marked(entry_edge(undo[i].0)->0, txn_id)->0;
            !storage.blocks[location.0 as int].is_tombstone
        }),
    ensures
        ({
            let eid = entry_edge(undo[i].0)->0;
            let after = storage.changes_committed(undo, txn_id, commit_ts, undo.len());
            &&& after.located(eid) == storage.located(eid)
            &&& after.slot(storage.located(eid)->0).commit_ts == commit_ts
            &&& after.visible_at(eid, reader_id, start_ts) == (if start_ts.0 >= commit_ts.0
                && !after.deleted_for(eid, reader_of(reader_id, start_ts)) {
                storage.located(eid)
            } else {
                None
            })
        }),
{
    let eid = entry_edge(undo[i].0)->0;
    let after = storage.changes_committed(undo, txn_id, commit_ts, undo.len());
    lemma_changes_committed(storage, undo, txn_id, commit_ts, undo.len());
    exact_map_resolves(storage, eid);
    exact_map_resolves(after, eid);
    let location = storage.located(eid)->0;
    let b = location.0 as int;
    let o = location.1 as int;
    assert(storage.blocks[b].wf());
    assert(block_partly_committed(after.blocks[b], storage.blocks[b], txn_id, commit_ts));
    assert(after.marked(eid, txn_id) is None) by {
        assert(entry_edge(undo[i].0) matches Some(e) ==> after.marked(e, txn_id) is None);
    }
    assert(after.blocks[b].edges[o] == storage.blocks[b].edges[o]
        || storage.blocks[b].edges[o].commit_ts == txn_id);
}

proof fn lemma_deletions_committed(
    storage: StorageModel,
    undo: Seq<(Undo, Timestamp)>,
    txn_id: Timestamp,
    commit_ts: Timestamp,
    eid: EdgeId,
    k: nat,
)
    requires
        storage.wf(),
        storage.indexed(),
        txn_id.spec_is_txn_id(),
        commit_ts.spec_is_commit_ts(),
        k <= undo.len(),
    ensures
        ({
            let after = storage.changes_committed(undo, txn_id, commit_ts, k);
            deletion_stamps(after.deletions, eid) == (if some_deleted(undo, k as int, eid) {
                stamps_promoted(deletion_stamps(storage.deletions, eid), txn_id, commit_ts)
            } else {
                deletion_stamps(storage.deletions, eid)
            })
        }),
    decreases k,
{
    if k > 0 {
        lemma_deletions_committed(storage, undo, txn_id, commit_ts, eid, (k - 1) as nat);
        lemma_changes_committed(storage, undo, txn_id, commit_ts, (k - 1) as nat);
        let before = storage.changes_committed(undo, txn_id, commit_ts, (k - 1) as nat);
        lemma_change_committed(before, undo[k - 1].0, txn_id, commit_ts);
        lemma_some_wrote_more(undo, k - 1, eid, 0);
        let stamps = deletion_stamps(storage.deletions, eid);
        assert(stamps_promoted(
            stamps_promoted(stamps, txn_id, commit_ts),
            txn_id,
            commit_ts,
        ) =~= stamps_promoted(stamps, txn_id, commit_ts));
        let after = storage.changes_committed(undo, txn_id, commit_ts, k);
        assert(deletion_stamps(after.deletions, eid) == (if undo[k - 1].0 == (Undo::Delete {
            eid,
        }) {
            stamps_promoted(deletion_stamps(before.deletions, eid), txn_id, commit_ts)
        } else {
            deletion_stamps(before.deletions, eid)
        }));
    }
}

/// An edge that a transaction deleted is seen, once the deletion is committed, by nobody who starts
/// no earlier than the commit.
pub proof fn commit_publishes_deletions(
    storage: StorageModel,
    undo: Seq<(Undo, Timestamp)>,
    txn_id: Timestamp,
    commit_ts: Timestamp,
    i: int,
    reader_id: Timestamp,
    start_ts: Timestamp,
)
    requires
        storage.wf(),
        storage.indexed(),
        txn_id.spec_is_txn_id(),
        commit_ts.spec_is_commit_ts(),
        0 <= i < undo.len(),
        undo[i].0 matches Undo::Delete { eid } && deletion_stamps(
            storage.deletions,
            eid,
        ).contains(txn_id),
        start_ts.0 >= commit_ts.0,
    ensures
        ({
            let eid = entry_edge(undo[i].0)->0;
            let after = storage.changes_committed(undo, txn_id, commit_ts, undo.len());
            after.visible_at(eid, reader_id, start_ts) is None && after.readable(eid) is None
        }),
{
    let eid = entry_edge(undo[i].0)->0;
    let after = storage.changes_committed(undo, txn_id, commit_ts, undo.len());
    lemma_deletions_committed(storage, undo, txn_id, commit_ts, eid, undo.len());
    assert(some_deleted(undo, undo.len() as int, eid)) by {
        assert(undo[i].0 == (Undo::Delete { eid }));
    }
    let stamps = deletion_stamps(storage.deletions, eid);
    let k = choose|k: int| 0 <= k < stamps.len() && stamps[k] == txn_id;
    assert(deletion_stamps(after.deletions, eid)[k] == commit_ts);
    assert(sees(deletion_stamps(after.deletions, eid)[k], Some(reader_id), start_ts));
}

// ---------------------------------------------------------------------------------------------
// Walks
// ---------------------------------------------------------------------------------------------

proof fn lemma_edges_from(
    storage: StorageModel,
    txn_id: Timestamp,
    start_ts: Timestamp,
    b: int,
    offset: int,
    location: (usize, usize),
)
    requires
        storage.wf(),
        storage.indexed(),
        0 <= b <= storage.blocks.len(),
        0 <= offset <= BLOCK_CAPACITY,
        b < storage.blocks.len() && !storage.blocks[b].is_tombstone ==> offset
            <= storage.blocks[b].edge_counter || offset == 0,
    ensures
        storage.edges_from(
            Reader::At { txn_id: Some(txn_id), start_ts },
            b,
            offset,
        ).contains(location) <==> {
            &&& location.0 > b || (location.0 == b && location.1 >= offset)
            &&& location.0 < storage.blocks.len()
            &&& location.1 < storage.in_use(location.0 as int)
            &&& storage.visible_at(storage.slot(location).eid, txn_id, start_ts) == Some(location)
        },
    decreases storage.blocks.len() - b, BLOCK_CAPACITY - offset,
{
    let reader = Reader::At { txn_id: Some(txn_id), start_ts };
    let left = storage.edges_from(reader, b, offset);
    if b >= storage.blocks.len() {
    } else {
        assert(storage.blocks[b].wf());
        if location.0 < storage.blocks.len() && location.1 < storage.in_use(location.0 as int) {
            assert(storage.slot_recorded(location.0 as int, location.1 as int));
            exact_map_resolves(storage, storage.slot(location).eid);
        }
        if storage.blocks[b].is_tombstone || offset >= BLOCK_CAPACITY {
            lemma_edges_from(storage, txn_id, start_ts, b + 1, 0, location);
        } else {
            let slot = storage.blocks[b].edges[offset];
            if offset < storage.blocks[b].edge_counter {
                assert(storage.slot_recorded(b, offset));
                assert(storage.location_exact(slot.eid));
                lemma_edges_from(storage, txn_id, start_ts, b, offset + 1, location);
                let rest = storage.edges_from(reader, b, offset + 1);
                if !storage.slot_seen(slot, reader) {
                    assert(left == rest);
                } else {
                    let first = (b as usize, offset as usize);
                    assert(left == seq![first] + rest);
                    assert(left[0] == first);
                    if rest.contains(location) {
                        let k = choose|k: int| 0 <= k < rest.len() && rest[k] == location;
                        assert(left[k + 1] == location);
                    }
                    if left.contains(location) && location != first {
                        let k = choose|k: int| 0 <= k < left.len() && left[k] == location;
                        assert(rest[k - 1] == location);
                    }
                }
            } else {
                assert(storage.blocks[b].edges[offset] == blank_slot());
                lemma_edges_from(storage, txn_id, start_ts, b + 1, 0, location);
            }
        }
    }
}

/// A walk over all edges with a snapshot gives exactly the slots of the edges that the transaction
/// sees.
pub proof fn walk_gives_visible_edges(
    storage: StorageModel,
    txn_id: Timestamp,
    start_ts: Timestamp,
    location: (usize, usize),
)
    requires
        storage.wf(),
        storage.indexed(),
    ensures
        storage.edges_from(
            Reader::At { txn_id: Some(txn_id), start_ts },
            0,
            0,
        ).contains(location) <==> {
            &&& location.0 < storage.blocks.len()
            &&& location.1 < storage.in_use(location.0 as int)
            &&& storage.visible_at(storage.slot(location).eid, txn_id, start_ts) == Some(location)
        },
{
    lemma_edges_from(storage, txn_id, start_ts, 0, 0, location);
}

impl StorageModel {
    /// A block is in a chain: it is the block that the chain starts with, or one before it.
    pub open spec fn in_chain(self, start: int, b: int) -> bool
        decreases start + 1,
    {
        0 <= start < self.blocks.len() && (b == start || self.in_chain(self.block_before(start), b))
    }
}

/// The blocks of a chain do not come after its start.
proof fn lemma_in_chain(storage: StorageModel, start: int, b: int)
    requires
        storage.in_chain(start, b),
    ensures
        0 <= b <= start,
    decreases start + 1,
{
    if b != start {
        lemma_in_chain(storage, storage.block_before(start), b);
    }
}

/// A walk over the edges of a vertex with a snapshot, from a slot of a block on, gives exactly the
/// slots of the edges that the transaction sees: those behind the slot in its block, and all those
/// in the blocks before it in the chain of the vertex.
pub proof fn adjacency_gives_visible_edges(
    storage: StorageModel,
    txn_id: Timestamp,
    start_ts: Timestamp,
    b: int,
    offset: int,
    location: (usize, usize),
)
    requires
        storage.wf(),
        storage.indexed(),
        0 <= offset <= BLOCK_CAPACITY,
        0 <= b < storage.blocks.len() && !storage.blocks[b].is_tombstone ==> offset
            <= storage.blocks[b].edge_counter || offset == 0,
    ensures
        storage.chain_from(
            Reader::At { txn_id: Some(txn_id), start_ts },
            b,
            offset,
        ).contains(location) <==> {
            &&& storage.in_chain(b, location.0 as int)
            &&& location.0 == b ==> location.1 >= offset
            &&& location.1 < storage.in_use(location.0 as int)
            &&& storage.visible_at(storage.slot(location).eid, txn_id, start_ts) == Some(location)
        },
    decreases b + 1, BLOCK_CAPACITY - offset,
{
    let reader = Reader::At { txn_id: Some(txn_id), start_ts };
    let left = storage.chain_from(reader, b, offset);
    if 0 <= b < storage.blocks.len() {
        assert(storage.blocks[b].wf());
        let before = storage.block_before(b);
        if location.0 < storage.blocks.len() && location.1 < storage.in_use(location.0 as int) {
            assert(storage.slot_recorded(location.0 as int, location.1 as int));
            exact_map_resolves(storage, storage.slot(location).eid);
        }
        if storage.in_chain(before, location.0 as int) {
            lemma_in_chain(storage, before, location.0 as int);
        }
        if storage.blocks[b].is_tombstone || offset >= BLOCK_CAPACITY {
            adjacency_gives_visible_edges(storage, txn_id, start_ts, before, 0, location);
        } else if offset < storage.blocks[b].edge_counter {
            let slot = storage.blocks[b].edges[offset];
            assert(storage.slot_recorded(b, offset));
            assert(storage.location_exact(slot.eid));
            adjacency_gives_visible_edges(storage, txn_id, start_ts, b, offset + 1, location);
            let rest = storage.chain_from(reader, b, offset + 1);
            if !storage.slot_seen(slot, reader) {
                assert(left == rest);
            } else {
                let first = (b as usize, offset as usize);
                assert(left == seq![first] + rest);
                assert(left[0] == first);
                if rest.contains(location) {
                    let k = choose|k: int| 0 <= k < rest.len() && rest[k] == location;
                    assert(left[k + 1] == location);
                }
                if left.contains(location) && location != first {
                    let k = choose|k: int| 0 <= k < left.len() && left[k] == location;
                    assert(rest[k - 1] == location);
                }
            }
        } else {
            assert(storage.blocks[b].edges[offset] == blank_slot());
            adjacency_gives_visible_edges(storage, txn_id, start_ts, before, 0, location);
        }
    }
}

} // verus!
