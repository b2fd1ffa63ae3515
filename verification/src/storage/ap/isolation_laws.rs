//! What one transaction does is not seen by another: not while it runs, not when it is aborted, and
//! not by who started before its commit.

use vstd::prelude::*;
use crate::common::types::EdgeId;
use crate::storage::ap::abort_laws::{
    abort_restores, can_create, changes_keep_index, lemma_any_seen_last, lemma_created_slot,
    lemma_removed_slot, lemma_reverted_versions, lemma_stamps_unseen, lemma_undo_keeps_index,
    lemma_without_unseen, lemma_written_newest, made_alone, makes, Change,
};
use crate::storage::ap::index_laws::{exact_map_resolves, removal_keeps_index};
use crate::storage::ap::model::{
    any_seen, deletion_stamps, promoted, row, sees, stamps_promoted, value_for, value_visible_at,
    versions_at, ColumnModel, EdgeModel, Reader, StorageModel, Undo, Versions,
};
use crate::storage::ap::olap_graph::txn_mode;
use crate::storage::ap::reads::reader_of;
use crate::storage::ap::types::PropertyVersion;
use crate::storage::ap::visibility_laws::{
    insertion_keeps_other_edges, lemma_change_committed, lemma_change_promotes,
    lemma_changes_committed,
};
use crate::transaction::Timestamp;

verus! {

impl StorageModel {
    /// What a transaction reads of an edge: nothing where it does not see the edge.
    pub open spec fn seen(self, eid: EdgeId, txn_id: Timestamp, start_ts: Timestamp) -> Option<
        EdgeModel,
    > {
        match self.visible_at(eid, txn_id, start_ts) {
            Some(location) => Some(self.edge_at(location, reader_of(txn_id, start_ts))),
            None => None,
        }
    }
}

/// Columns that give every property the same value give the same row; columns without a value
/// add nothing to it.
proof fn lemma_same_row(
    a: Seq<ColumnModel>,
    la: (usize, usize),
    b: Seq<ColumnModel>,
    lb: (usize, usize),
    reader: Reader,
    n: nat,
)
    requires
        a.len() <= b.len(),
        n <= b.len(),
        forall|c: int|
            value_for(#[trigger] versions_at(a, c, la), reader) == value_for(
                versions_at(b, c, lb),
                reader,
            ),
    ensures
        row(b, lb, reader, n) == row(
            a,
            la,
            reader,
            if n <= a.len() {
                n
            } else {
                a.len()
            },
        ),
    decreases n,
{
    if n > 0 {
        lemma_same_row(a, la, b, lb, reader, (n - 1) as nat);
        assert(value_for(versions_at(a, n - 1, la), reader) == value_for(
            versions_at(b, n - 1, lb),
            reader,
        ));
        if n > a.len() {
            assert(value_for(Seq::<PropertyVersion>::empty(), reader) is None);
        }
    }
}

/// An edge whose slot, block, deletions and property values are the same for a reader reads the
/// same.
proof fn lemma_same_seen(
    a: StorageModel,
    la: (usize, usize),
    b: StorageModel,
    lb: (usize, usize),
    eid: EdgeId,
    txn_id: Timestamp,
    start_ts: Timestamp,
)
    requires
        a.located(eid) == Some(la),
        b.located(eid) == Some(lb),
        a.slot(la) == b.slot(lb),
        a.blocks[la.0 as int].is_tombstone == b.blocks[lb.0 as int].is_tombstone,
        a.blocks[la.0 as int].src_id == b.blocks[lb.0 as int].src_id,
        a.deleted_for(eid, reader_of(txn_id, start_ts)) == b.deleted_for(
            eid,
            reader_of(txn_id, start_ts),
        ),
        forall|c: int|
            value_for(#[trigger] versions_at(a.columns, c, la), reader_of(txn_id, start_ts))
                == value_for(versions_at(b.columns, c, lb), reader_of(txn_id, start_ts)),
    ensures
        a.seen(eid, txn_id, start_ts) == b.seen(eid, txn_id, start_ts),
{
    let reader = reader_of(txn_id, start_ts);
    if a.columns.len() <= b.columns.len() {
        lemma_same_row(a.columns, la, b.columns, lb, reader, b.columns.len());
    } else {
        assert forall|c: int|
            value_for(#[trigger] versions_at(b.columns, c, lb), reader) == value_for(
                versions_at(a.columns, c, la),
                reader,
            ) by {
            assert(value_for(versions_at(a.columns, c, la), reader) == value_for(
                versions_at(b.columns, c, lb),
                reader,
            ));
        }
        lemma_same_row(b.columns, lb, a.columns, la, reader, a.columns.len());
    }
}

/// Storages that equal each other read the same, whoever reads.
pub proof fn equal_storages_read_the_same(
    a: StorageModel,
    b: StorageModel,
    eid: EdgeId,
    reader_id: Timestamp,
    start_ts: Timestamp,
)
    requires
        a.wf(),
        b.wf(),
        a.indexed(),
        b.indexed(),
        a.equals(b),
    ensures
        a.seen(eid, reader_id, start_ts) == b.seen(eid, reader_id, start_ts),
        a.readable(eid) == b.readable(eid),
{
    exact_map_resolves(a, eid);
    exact_map_resolves(b, eid);
    assert(deletion_stamps(a.deletions, eid) == deletion_stamps(b.deletions, eid));
    if let Some(location) = a.located(eid) {
        let i = location.0 as int;
        assert(a.in_use(i) == b.in_use(i));
        assert(a.same_slot(b, i, location.1 as int));
        assert(a.same_header(b, i));
        assert forall|c: int|
            value_for(
                #[trigger] versions_at(a.columns, c, location),
                reader_of(reader_id, start_ts),
            ) == value_for(
                versions_at(b.columns, c, location),
                reader_of(reader_id, start_ts),
            ) by {
            assert(versions_at(a.columns, c, location) == versions_at(b.columns, c, location));
        }
        lemma_same_seen(a, location, b, location, eid, reader_id, start_ts);
    }
}

// ---------------------------------------------------------------------------------------------
// While a transaction runs
// ---------------------------------------------------------------------------------------------

/// Whatever a transaction creates, changes or deletes, every other transaction reads of every edge
/// what it read before.
pub proof fn writes_are_isolated(
    change: Change,
    before: StorageModel,
    after: StorageModel,
    entry: (Undo, Timestamp),
    txn_id: Timestamp,
    eid: EdgeId,
    reader_id: Timestamp,
    start_ts: Timestamp,
)
    requires
        before.wf(),
        before.indexed(),
        txn_id.spec_is_txn_id(),
        makes(change, before, after, entry, txn_id),
        reader_id != txn_id,
    ensures
        after.seen(eid, reader_id, start_ts) == before.seen(eid, reader_id, start_ts),
{
    changes_keep_index(change, before, after, entry, txn_id);
    exact_map_resolves(before, eid);
    exact_map_resolves(after, eid);
    let reader = reader_of(reader_id, start_ts);
    match change {
        Change::Create { v, pos, edge } => {
            let opened = before.block_opened(v, edge.src_id, txn_mode(txn_id));
            let b = opened.vertices[v].block_offset;
            if let Some(to) = after.located(eid) {
                let from = if to.0 == b && to.1 > pos {
                    (to.0, (to.1 - 1) as usize)
                } else {
                    to
                };
                lemma_created_slot(before, v, pos, edge, txn_id, 0, to);
                if to.0 == b && to.1 == pos {
                    assert(before.located(eid) is None) by {
                        if before.locations.dom().contains(eid) {
                            assert(before.location_exact(eid));
                        }
                    }
                    lemma_new_slot_marked(before, v, pos, edge, txn_id);
                } else {
                    assert(before.slot_recorded(from.0 as int, from.1 as int));
                    assert forall|c: int|
                        value_for(#[trigger] versions_at(after.columns, c, to), reader)
                            == value_for(versions_at(before.columns, c, from), reader) by {
                        lemma_created_slot(before, v, pos, edge, txn_id, c, to);
                    }
                    lemma_same_seen(after, to, before, from, eid, reader_id, start_ts);
                }
            } else if let Some(from) = before.located(eid) {
                lemma_still_located(before, v, pos, edge, txn_id, eid);
            }
        },
        Change::SetProps { eid: written, indices, props } => {
            exact_map_resolves(before, written);
            let location = before.writable(written)->0;
            assert(before.blocks[location.0 as int].wf());
            if let Some(l) = before.located(eid) {
                assert(before.blocks[l.0 as int].wf());
                assert forall|c: int|
                    value_for(#[trigger] versions_at(after.columns, c, l), reader) == value_for(
                        versions_at(before.columns, c, l),
                        reader,
                    ) by {
                    lemma_written_newest(
                        before.columns,
                        location,
                        indices,
                        props,
                        txn_id,
                        indices.len(),
                        c,
                        l,
                    );
                    lemma_without_unseen(
                        versions_at(after.columns, c, l),
                        txn_id,
                        Some(reader_id),
                        start_ts,
                    );
                    lemma_without_unseen(
                        versions_at(before.columns, c, l),
                        txn_id,
                        Some(reader_id),
                        start_ts,
                    );
                }
                lemma_same_seen(after, l, before, l, eid, reader_id, start_ts);
            }
        },
        Change::Delete { eid: deleted } => {
            exact_map_resolves(before, deleted);
            let stamps = deletion_stamps(before.deletions, deleted);
            assert(stamps.push(txn_id).drop_last() =~= stamps);
            lemma_any_seen_last(stamps.push(txn_id), Some(reader_id), start_ts);
            if let Some(l) = before.located(eid) {
                assert(before.blocks[l.0 as int].wf());
                lemma_same_seen(after, l, before, l, eid, reader_id, start_ts);
            }
        },
    }
}

/// The slot of a new edge carries the mark of the transaction.
proof fn lemma_new_slot_marked(
    storage: StorageModel,
    v: int,
    pos: int,
    edge: EdgeModel,
    txn_id: Timestamp,
)
    requires
        storage.wf(),
        can_create(storage, v, pos, edge, txn_id),
    ensures
        ({
            let opened = storage.block_opened(v, edge.src_id, txn_mode(txn_id));
            let location = (opened.vertices[v].block_offset, pos as usize);
            storage.edge_created(v, pos, edge, txn_mode(txn_id)).slot(location).commit_ts == txn_id
        }),
{
    let opened = storage.block_opened(v, edge.src_id, txn_mode(txn_id));
    let b = opened.vertices[v].block_offset as int;
    assert(opened.blocks[b].wf()) by {
        if b < storage.blocks.len() {
            assert(storage.blocks[b].wf());
        }
    }
}

/// An edge is still stored after another one has been inserted.
proof fn lemma_still_located(
    storage: StorageModel,
    v: int,
    pos: int,
    edge: EdgeModel,
    txn_id: Timestamp,
    eid: EdgeId,
)
    requires
        storage.wf(),
        storage.indexed(),
        can_create(storage, v, pos, edge, txn_id),
        storage.located(eid) is Some,
    ensures
        storage.edge_created(v, pos, edge, txn_mode(txn_id)).located(eid) is Some,
{
    insertion_keeps_other_edges(
        storage,
        v,
        pos,
        edge,
        txn_id,
        eid,
        0,
    );
}

// ---------------------------------------------------------------------------------------------
// When a transaction is aborted
// ---------------------------------------------------------------------------------------------

/// Taking a change of a transaction back changes nothing of what another transaction reads of any
/// edge, whatever other transactions have written or committed in between.
pub proof fn undone_change_is_unseen(
    storage: StorageModel,
    op: Undo,
    old_ts: Timestamp,
    txn_id: Timestamp,
    eid: EdgeId,
    reader_id: Timestamp,
    start_ts: Timestamp,
)
    requires
        storage.wf(),
        storage.indexed(),
        txn_id.spec_is_txn_id(),
        storage.can_undo(op),
        reader_id != txn_id,
    ensures
        storage.change_undone(op, old_ts, txn_id).seen(eid, reader_id, start_ts) == storage.seen(
            eid,
            reader_id,
            start_ts,
        ),
{
    let after = storage.change_undone(op, old_ts, txn_id);
    let reader = reader_of(reader_id, start_ts);
    lemma_undo_keeps_index(storage, op, old_ts, txn_id);
    exact_map_resolves(storage, eid);
    exact_map_resolves(after, eid);
    match op {
        Undo::Create { eid: created, .. } => {
            if let Some(location) = storage.marked(created, txn_id) {
                if let Some(to) = after.located(eid) {
                    let from = if to.0 == location.0 && to.1 >= location.1 {
                        (to.0, (to.1 + 1) as usize)
                    } else {
                        to
                    };
                    lemma_removed_slot(storage, location, created, 0, to);
                    assert(storage.slot_recorded(from.0 as int, from.1 as int));
                    assert forall|c: int|
                        value_for(#[trigger] versions_at(after.columns, c, to), reader)
                            == value_for(versions_at(storage.columns, c, from), reader) by {
                        lemma_removed_slot(storage, location, created, c, to);
                    }
                    lemma_same_seen(after, to, storage, from, eid, reader_id, start_ts);
                } else if eid != created {
                    if let Some(from) = storage.located(eid) {
                        lemma_still_located_without(storage, location, created, eid);
                    }
                }
            }
        },
        Undo::SetProps { eid: written, indices, .. } => {
            if let Some(location) = storage.located(written) {
                assert(storage.blocks[location.0 as int].wf());
                if let Some(l) = storage.located(eid) {
                    assert(storage.blocks[l.0 as int].wf());
                    assert forall|c: int|
                        value_for(#[trigger] versions_at(after.columns, c, l), reader)
                            == value_for(versions_at(storage.columns, c, l), reader) by {
                        lemma_reverted_versions(
                            storage.columns,
                            location,
                            indices,
                            txn_id,
                            old_ts,
                            indices.len(),
                            c,
                            l,
                        );
                        lemma_without_unseen(
                            versions_at(storage.columns, c, l),
                            txn_id,
                            Some(reader_id),
                            start_ts,
                        );
                    }
                    lemma_same_seen(after, l, storage, l, eid, reader_id, start_ts);
                }
            }
        },
        Undo::Delete { eid: deleted } => {
            lemma_stamps_unseen(
                deletion_stamps(storage.deletions, deleted),
                txn_id,
                Some(reader_id),
                start_ts,
            );
            if let Some(l) = storage.located(eid) {
                lemma_same_seen(after, l, storage, l, eid, reader_id, start_ts);
            }
        },
        _ => {},
    }
}

/// An edge is still stored after another one has been taken out.
proof fn lemma_still_located_without(
    storage: StorageModel,
    location: (usize, usize),
    removed: EdgeId,
    eid: EdgeId,
)
    requires
        storage.wf(),
        storage.indexed(),
        storage.holds_at(location, removed),
        storage.located(eid) is Some,
        eid != removed,
    ensures
        storage.edge_removed(location, removed).located(eid) is Some,
{
    let after = storage.edge_removed(location, removed);
    removal_keeps_index(storage, location, removed);
    exact_map_resolves(storage, eid);
    let from = storage.located(eid)->0;
    assert(storage.blocks[location.0 as int].wf());
    assert(storage.blocks[from.0 as int].wf());
    let to = if from.0 == location.0 && from.1 > location.1 {
        (from.0, (from.1 - 1) as usize)
    } else {
        from
    };
    assert(after.blocks[to.0 as int].edges[to.1 as int].eid == eid);
    assert(after.slot_recorded(to.0 as int, to.1 as int));
}

/// Aborting a transaction changes nothing of what another transaction reads of any edge, whatever
/// other transactions have written or committed while it ran.
pub proof fn abort_is_unseen(
    storage: StorageModel,
    undo: Seq<(Undo, Timestamp)>,
    txn_id: Timestamp,
    k: nat,
    eid: EdgeId,
    reader_id: Timestamp,
    start_ts: Timestamp,
)
    requires
        storage.wf(),
        storage.indexed(),
        txn_id.spec_is_txn_id(),
        storage.can_undo_all(undo, txn_id),
        reader_id != txn_id,
        k <= undo.len(),
    ensures
        storage.changes_undone(undo, txn_id, k).wf(),
        storage.changes_undone(undo, txn_id, k).indexed(),
        storage.changes_undone(undo, txn_id, k).seen(eid, reader_id, start_ts) == storage.seen(
            eid,
            reader_id,
            start_ts,
        ),
    decreases undo.len() - k,
{
    if k < undo.len() {
        abort_is_unseen(storage, undo, txn_id, k + 1, eid, reader_id, start_ts);
        let before = storage.changes_undone(undo, txn_id, k + 1);
        assert(before.can_undo(undo[k as int].0));
        lemma_undo_keeps_index(before, undo[k as int].0, undo[k as int].1, txn_id);
        undone_change_is_unseen(
            before,
            undo[k as int].0,
            undo[k as int].1,
            txn_id,
            eid,
            reader_id,
            start_ts,
        );
    }
}

/// After an abort every transaction, the aborted one too, reads of every edge what it would have
/// read when the aborted one began.
pub proof fn abort_restores_for_every_reader(
    history: Seq<StorageModel>,
    changes: Seq<Change>,
    undo: Seq<(Undo, Timestamp)>,
    txn_id: Timestamp,
    eid: EdgeId,
    reader_id: Timestamp,
    start_ts: Timestamp,
)
    requires
        made_alone(history, changes, undo, txn_id),
        txn_id.spec_is_txn_id(),
        history[0].wf(),
        history[0].indexed(),
        history[0].free_of(txn_id),
    ensures
        history.last().can_undo_all(undo, txn_id),
        history.last().changes_undone(undo, txn_id, 0).seen(eid, reader_id, start_ts)
            == history[0].seen(eid, reader_id, start_ts),
        history.last().changes_undone(undo, txn_id, 0).readable(eid) == history[0].readable(eid),
{
    abort_restores(history, changes, undo, txn_id);
    equal_storages_read_the_same(
        history.last().changes_undone(undo, txn_id, 0),
        history[0],
        eid,
        reader_id,
        start_ts,
    );
}

// ---------------------------------------------------------------------------------------------
// When a transaction commits
// ---------------------------------------------------------------------------------------------

/// Who started before a commit does not see the versions that it promotes.
proof fn lemma_promoted_unseen(
    versions: Versions,
    txn_id: Timestamp,
    commit_ts: Timestamp,
    reader_id: Option<Timestamp>,
    start_ts: Timestamp,
)
    requires
        txn_id.spec_is_txn_id(),
        commit_ts.spec_is_commit_ts(),
        reader_id != Some(txn_id),
        start_ts.0 < commit_ts.0,
    ensures
        value_visible_at(promoted(versions, txn_id, commit_ts), reader_id, start_ts)
            == value_visible_at(versions, reader_id, start_ts),
    decreases versions.len(),
{
    if versions.len() > 0 {
        lemma_promoted_unseen(versions.drop_last(), txn_id, commit_ts, reader_id, start_ts);
        assert(promoted(versions, txn_id, commit_ts).drop_last() =~= promoted(
            versions.drop_last(),
            txn_id,
            commit_ts,
        ));
    }
}

/// Who started before a commit does not see the deletions that it promotes.
proof fn lemma_stamps_promoted_unseen(
    stamps: Seq<Timestamp>,
    txn_id: Timestamp,
    commit_ts: Timestamp,
    reader_id: Option<Timestamp>,
    start_ts: Timestamp,
)
    requires
        txn_id.spec_is_txn_id(),
        commit_ts.spec_is_commit_ts(),
        reader_id != Some(txn_id),
        start_ts.0 < commit_ts.0,
    ensures
        any_seen(stamps_promoted(stamps, txn_id, commit_ts), reader_id, start_ts) == any_seen(
            stamps,
            reader_id,
            start_ts,
        ),
{
    let after = stamps_promoted(stamps, txn_id, commit_ts);
    if any_seen(after, reader_id, start_ts) {
        let i = choose|i: int|
            0 <= i < after.len() && sees(#[trigger] after[i], reader_id, start_ts);
        assert(sees(stamps[i], reader_id, start_ts));
    }
    if any_seen(stamps, reader_id, start_ts) {
        let i = choose|i: int|
            0 <= i < stamps.len() && sees(#[trigger] stamps[i], reader_id, start_ts);
        assert(sees(after[i], reader_id, start_ts));
    }
}

proof fn lemma_commit_step_unseen(
    storage: StorageModel,
    op: Undo,
    txn_id: Timestamp,
    commit_ts: Timestamp,
    eid: EdgeId,
    reader_id: Timestamp,
    start_ts: Timestamp,
)
    requires
        storage.wf(),
        storage.indexed(),
        txn_id.spec_is_txn_id(),
        commit_ts.spec_is_commit_ts(),
        reader_id != txn_id,
        start_ts.0 < commit_ts.0,
    ensures
        storage.change_committed(op, txn_id, commit_ts).seen(eid, reader_id, start_ts)
            == storage.seen(eid, reader_id, start_ts),
{
    let after = storage.change_committed(op, txn_id, commit_ts);
    let reader = reader_of(reader_id, start_ts);
    lemma_change_committed(storage, op, txn_id, commit_ts);
    exact_map_resolves(storage, eid);
    exact_map_resolves(after, eid);
    lemma_stamps_promoted_unseen(
        deletion_stamps(storage.deletions, eid),
        txn_id,
        commit_ts,
        Some(reader_id),
        start_ts,
    );
    if let Some(l) = storage.located(eid) {
        assert(storage.blocks[l.0 as int].wf());
        assert forall|c: int|
            value_for(#[trigger] versions_at(after.columns, c, l), reader) == value_for(
                versions_at(storage.columns, c, l),
                reader,
            ) by {
            lemma_promoted_unseen(
                versions_at(storage.columns, c, l),
                txn_id,
                commit_ts,
                Some(reader_id),
                start_ts,
            );
            lemma_change_promotes(
                storage,
                op,
                txn_id,
                commit_ts,
                c,
                l,
            );
        }
        if storage.slot(l).commit_ts != txn_id {
            assert(after.slot(l) == storage.slot(l));
            lemma_same_seen(after, l, storage, l, eid, reader_id, start_ts);
        }
    }
}

/// A commit changes nothing of what a transaction reads that started before it: every transaction
/// reads from the snapshot that was there when it began.
pub proof fn later_commits_are_unseen(
    storage: StorageModel,
    undo: Seq<(Undo, Timestamp)>,
    txn_id: Timestamp,
    commit_ts: Timestamp,
    k: nat,
    eid: EdgeId,
    reader_id: Timestamp,
    start_ts: Timestamp,
)
    requires
        storage.wf(),
        storage.indexed(),
        txn_id.spec_is_txn_id(),
        commit_ts.spec_is_commit_ts(),
        reader_id != txn_id,
        start_ts.0 < commit_ts.0,
        k <= undo.len(),
    ensures
        storage.changes_committed(undo, txn_id, commit_ts, k).seen(eid, reader_id, start_ts)
            == storage.seen(eid, reader_id, start_ts),
    decreases k,
{
    if k > 0 {
        later_commits_are_unseen(
            storage,
            undo,
            txn_id,
            commit_ts,
            (k - 1) as nat,
            eid,
            reader_id,
            start_ts,
        );
        lemma_changes_committed(
            storage,
            undo,
            txn_id,
            commit_ts,
            (k - 1) as nat,
        );
        let before = storage.changes_committed(undo, txn_id, commit_ts, (k - 1) as nat);
        lemma_commit_step_unseen(
            before,
            undo[k - 1].0,
            txn_id,
            commit_ts,
            eid,
            reader_id,
            start_ts,
        );
    }
}

} // verus!
