//! What is written can be read back.

use vstd::prelude::*;
use crate::common::types::EdgeId;
use crate::common::value::ScalarValue;
use crate::storage::ap::abort_laws::{last_write, lemma_inserted_versions, lemma_written_newest};
use crate::storage::ap::chain_laws::insertion_keeps_chains;
use crate::storage::ap::index_laws::{exact_map_resolves, insertion_keeps_index};
use crate::storage::ap::model::{
    deletion_stamps, promoted, row, sees, value_for, value_visible_at, versions_at, ColumnModel,
    EdgeModel, Reader, StorageModel, Undo, Versions,
};
use crate::storage::ap::olap_graph::plain_mode;
use crate::storage::ap::reads::reader_of;
use crate::storage::ap::types::{property_at, PropertyVersion, BLOCK_CAPACITY};
use crate::storage::ap::visibility_laws::{
    entry_edge, lemma_change_committed, lemma_change_promotes, lemma_changes_committed,
    writes_properties,
};
use crate::storage::ap::writes::{column_amended, columns_amended};
use crate::transaction::Timestamp;

verus! {

// ---------------------------------------------------------------------------------------------
// Edges
// ---------------------------------------------------------------------------------------------

/// What the creation of an edge outside transactions needs of the storage.
pub open spec fn can_add(storage: StorageModel, v: int, pos: int, edge: EdgeModel) -> bool {
    let opened = storage.block_opened(v, edge.src_id, plain_mode());
    &&& storage.blocks.len() + 1 < usize::MAX
    &&& storage.edge_id_counter < u64::MAX
    &&& 0 <= v < storage.vertices.len()
    &&& storage.has_block(v)
    &&& opened.columns_reach(
        opened.vertices[v].block_offset as int,
        edge.properties.len() as int,
        plain_mode(),
    )
    &&& 0 <= pos <= opened.blocks[opened.vertices[v].block_offset as int].edge_counter
}

/// Where every property has a value, they are read in order.
proof fn lemma_full_row(
    columns: Seq<ColumnModel>,
    location: (usize, usize),
    reader: Reader,
    values: Seq<Option<ScalarValue>>,
    n: nat,
)
    requires
        n <= values.len(),
        forall|c: int|
            0 <= c < n ==> (#[trigger] values[c]) is Some && value_for(
                versions_at(columns, c, location),
                reader,
            ) == values[c],
    ensures
        row(columns, location, reader, n) == values.take(n as int),
    decreases n,
{
    if n > 0 {
        lemma_full_row(columns, location, reader, values, (n - 1) as nat);
        assert(values[n - 1] is Some);
        assert(values.take(n as int) =~= values.take(n - 1).push(values[n - 1]));
    } else {
        assert(values.take(0) =~= Seq::empty());
    }
}

/// Every transaction, whenever it started, reads back an edge that was created outside
/// transactions, with its ends, its label and its properties.
pub proof fn plain_edges_are_read_back(
    storage: StorageModel,
    v: int,
    pos: int,
    edge: EdgeModel,
    reader_id: Timestamp,
    start_ts: Timestamp,
)
    requires
        storage.wf(),
        storage.indexed(),
        storage.chained(),
        can_add(storage, v, pos, edge),
        edge.src_id == storage.vertices[v].vid,
    ensures
        ({
            let after = storage.edge_created(v, pos, edge, plain_mode());
            let opened = storage.block_opened(v, edge.src_id, plain_mode());
            let b = opened.vertices[v].block_offset;
            let location = (b, pos as usize);
            let reader = reader_of(reader_id, start_ts);
            let slot = after.slot(location);
            &&& after.readable(storage.edge_id_counter) == Some(location)
            &&& after.visible_at(storage.edge_id_counter, reader_id, start_ts) == Some(location)
            &&& after.blocks[b as int].src_id == edge.src_id
            &&& slot.label_id == edge.label_id && slot.dst_id == edge.dst_id
            &&& forall|c: int|
                0 <= c < after.columns.len() ==> value_for(
                    #[trigger] versions_at(after.columns, c, location),
                    reader,
                ) == property_at(edge.properties, c)
            &&& edge.properties.len() == storage.columns.len() && (forall|c: int|
                0 <= c < edge.properties.len() ==> (#[trigger] edge.properties[c]) is Some)
                ==> after.edge_at(location, reader) == edge
        }),
{
    let mode = plain_mode();
    let opened = storage.block_opened(v, edge.src_id, mode);
    let after = storage.edge_created(v, pos, edge, mode);
    let b = opened.vertices[v].block_offset;
    let location = (b, pos as usize);
    let reader = reader_of(reader_id, start_ts);
    insertion_keeps_index(storage, v, pos, edge, mode);
    insertion_keeps_chains(storage, v, pos, edge, mode);
    assert(deletion_stamps(storage.deletions, storage.edge_id_counter).len() == 0);
    let block = opened.blocks[b as int];
    assert(block.wf()) by {
        if b < storage.blocks.len() {
            assert(storage.blocks[b as int].wf());
        }
    }
    assert(block.edge_counter < BLOCK_CAPACITY);
    assert(after.blocks[b as int].edges[pos].eid == storage.edge_id_counter);
    assert(after.slot_recorded(b as int, pos));
    assert forall|c: int| 0 <= c < after.columns.len() implies value_for(
        #[trigger] versions_at(after.columns, c, location),
        reader,
    ) == property_at(edge.properties, c) by {
        lemma_inserted_versions(
            storage.columns,
            after.columns,
            b,
            pos,
            block.edge_counter,
            edge.properties,
            mode,
            c,
            location,
        );
    }
    if edge.properties.len() == storage.columns.len() && (forall|c: int|
        0 <= c < edge.properties.len() ==> (#[trigger] edge.properties[c]) is Some) {
        assert forall|c: int| 0 <= c < edge.properties.len() implies (
        #[trigger] edge.properties[c]) is Some && value_for(
            versions_at(after.columns, c, location),
            reader,
        ) == edge.properties[c] by {
            assert(property_at(edge.properties, c) == edge.properties[c]);
        }
        lemma_full_row(after.columns, location, reader, edge.properties, edge.properties.len());
        assert(edge.properties.take(edge.properties.len() as int) =~= edge.properties);
    }
}

/// A transaction does not see an edge that it has deleted, and nobody reads it without a snapshot.
pub proof fn deleted_edges_are_hidden(
    storage: StorageModel,
    eid: EdgeId,
    txn_id: Timestamp,
    start_ts: Timestamp,
)
    requires
        storage.wf(),
        storage.indexed(),
        txn_id.spec_is_txn_id(),
        storage.writable(eid) is Some,
    ensures
        ({
            let after = storage.with_writable(eid).edge_buried(
                eid,
                storage.writable(eid)->0,
                txn_id,
            );
            &&& after.visible_at(eid, txn_id, start_ts) is None
            &&& after.readable(eid) is None
        }),
{
    exact_map_resolves(storage, eid);
    let location = storage.writable(eid)->0;
    let after = storage.edge_buried(eid, location, txn_id);
    let stamps = deletion_stamps(after.deletions, eid);
    assert(stamps.last() == txn_id);
    assert(sees(stamps[stamps.len() - 1], Some(txn_id), start_ts));
    assert(storage.blocks[location.0 as int].wf());
}

/// An edge that has been deleted for a reader stays so, whoever writes its properties and whatever
/// another transaction commits.
pub proof fn deleted_edges_stay_deleted(
    storage: StorageModel,
    eid: EdgeId,
    indices: Seq<usize>,
    props: Seq<ScalarValue>,
    writer_id: Timestamp,
    undo: Seq<(Undo, Timestamp)>,
    txn_id: Timestamp,
    commit_ts: Timestamp,
    k: nat,
    reader_id: Timestamp,
    start_ts: Timestamp,
)
    requires
        storage.wf(),
        storage.indexed(),
        txn_id.spec_is_txn_id(),
        commit_ts.spec_is_commit_ts(),
        reader_id != txn_id,
        k <= undo.len(),
        storage.located(eid) is Some,
        storage.deleted_for(eid, reader_of(reader_id, start_ts)),
    ensures
        storage.properties_set(storage.located(eid)->0, indices, props, writer_id).visible_at(
            eid,
            reader_id,
            start_ts,
        ) is None,
        storage.changes_committed(undo, txn_id, commit_ts, k).deleted_for(
            eid,
            reader_of(reader_id, start_ts),
        ),
        storage.changes_committed(undo, txn_id, commit_ts, k).visible_at(
            eid,
            reader_id,
            start_ts,
        ) is None,
    decreases k,
{
    let location = storage.located(eid)->0;
    assert(storage.blocks[location.0 as int].wf());
    if k > 0 {
        deleted_edges_stay_deleted(
            storage,
            eid,
            indices,
            props,
            writer_id,
            undo,
            txn_id,
            commit_ts,
            (k - 1) as nat,
            reader_id,
            start_ts,
        );
        lemma_changes_committed(storage, undo, txn_id, commit_ts, (k - 1) as nat);
        let before = storage.changes_committed(undo, txn_id, commit_ts, (k - 1) as nat);
        let after = storage.changes_committed(undo, txn_id, commit_ts, k);
        lemma_change_committed(before, undo[k - 1].0, txn_id, commit_ts);
        let stamps = deletion_stamps(before.deletions, eid);
        let i = choose|i: int|
            0 <= i < stamps.len() && sees(#[trigger] stamps[i], Some(reader_id), start_ts);
        let stamps_after = deletion_stamps(after.deletions, eid);
        assert(stamps_after.len() == stamps.len());
        assert(sees(stamps_after[i], Some(reader_id), start_ts));
        lemma_changes_committed(storage, undo, txn_id, commit_ts, k);
        exact_map_resolves(after, eid);
        if let Some(l) = after.located(eid) {
            assert(after.slot(l).eid == eid);
        }
    }
}

// ---------------------------------------------------------------------------------------------
// Properties
// ---------------------------------------------------------------------------------------------

/// A transaction reads back the properties that it has written: the last value of each. What it
/// has not written it reads as before, of this edge and of every other one.
pub proof fn written_properties_are_read_back(
    storage: StorageModel,
    location: (usize, usize),
    indices: Seq<usize>,
    props: Seq<ScalarValue>,
    txn_id: Timestamp,
    start_ts: Timestamp,
    c: int,
    other: (usize, usize),
)
    requires
        storage.wf(),
        txn_id.spec_is_txn_id(),
        location.1 < BLOCK_CAPACITY,
        other.1 < BLOCK_CAPACITY,
        storage.takes_properties(location, indices),
        forall|k: int| 0 <= k < indices.len() ==> #[trigger] indices[k] < storage.columns.len(),
    ensures
        ({
            let after = storage.properties_set(location, indices, props, txn_id);
            let reader = reader_of(txn_id, start_ts);
            &&& value_for(versions_at(after.columns, c, location), reader) == (match last_write(
                indices,
                c,
                indices.len() as int,
            ) {
                Some(m) => Some(props[m]),
                None => value_for(versions_at(storage.columns, c, location), reader),
            })
            &&& other != location ==> versions_at(after.columns, c, other) == versions_at(
                storage.columns,
                c,
                other,
            )
        }),
{
    lemma_written_newest(
        storage.columns,
        location,
        indices,
        props,
        txn_id,
        indices.len(),
        c,
        other,
    );
}

/// A property has a slot for the edge at a location.
pub open spec fn has_slot(columns: Seq<ColumnModel>, c: int, location: (usize, usize)) -> bool {
    0 <= c < columns.len() && location.0 < columns[c].len() && location.1
        < columns[c][location.0 as int].values.len()
}

proof fn lemma_amended_newest(
    columns: Seq<ColumnModel>,
    location: (usize, usize),
    indices: Seq<usize>,
    props: Seq<ScalarValue>,
    k: nat,
    c: int,
    l: (usize, usize),
)
    requires
        k <= indices.len(),
    ensures
        ({
            let after = columns_amended(columns, location, indices, props, k);
            &&& after.len() == columns.len()
            &&& has_slot(after, c, location) == has_slot(columns, c, location)
            &&& l != location ==> versions_at(after, c, l) == versions_at(columns, c, l)
            &&& match last_write(indices, c, k as int) {
                Some(m) => {
                    &&& 0 <= m < k
                    &&& has_slot(columns, c, location) ==> {
                        &&& versions_at(after, c, location).len() > 0
                        &&& versions_at(after, c, location).last() == (PropertyVersion {
                            ts: Timestamp(0),
                            value: Some(props[m]),
                        })
                    }
                },
                None => versions_at(after, c, location) == versions_at(columns, c, location),
            }
        }),
    decreases k,
{
    if k > 0 {
        lemma_amended_newest(columns, location, indices, props, (k - 1) as nat, c, l);
        let before = columns_amended(columns, location, indices, props, (k - 1) as nat);
        let after = columns_amended(columns, location, indices, props, k);
        let d = indices[k - 1] as int;
        if d < before.len() {
            assert(after[d] == column_amended(before[d], location, props[k - 1]));
        }
    }
}

/// Every transaction reads back the properties that were written outside transactions, where they
/// have a slot for the edge: the last value of each.
pub proof fn plain_properties_are_read_back(
    columns: Seq<ColumnModel>,
    location: (usize, usize),
    indices: Seq<usize>,
    props: Seq<ScalarValue>,
    k: nat,
    reader_id: Timestamp,
    start_ts: Timestamp,
    c: int,
    other: (usize, usize),
)
    requires
        k <= indices.len(),
        has_slot(columns, c, location),
    ensures
        ({
            let after = columns_amended(columns, location, indices, props, k);
            let reader = reader_of(reader_id, start_ts);
            &&& value_for(versions_at(after, c, location), reader) == (match last_write(
                indices,
                c,
                k as int,
            ) {
                Some(m) => Some(props[m]),
                None => value_for(versions_at(columns, c, location), reader),
            })
            &&& other != location ==> versions_at(after, c, other) == versions_at(columns, c, other)
        }),
{
    lemma_amended_newest(columns, location, indices, props, k, c, other);
}

// ---------------------------------------------------------------------------------------------
// Commit
// ---------------------------------------------------------------------------------------------

/// The newest version that a reader sees counts.
proof fn lemma_newest_seen(
    versions: Versions,
    m: int,
    reader_id: Option<Timestamp>,
    start_ts: Timestamp,
)
    requires
        0 <= m < versions.len(),
        sees(versions[m].ts, reader_id, start_ts),
        forall|j: int|
            m < j < versions.len() ==> !sees((#[trigger] versions[j]).ts, reader_id, start_ts),
    ensures
        value_visible_at(versions, reader_id, start_ts) == versions[m].value,
    decreases versions.len(),
{
    if m < versions.len() - 1 {
        assert(!sees(versions[versions.len() - 1].ts, reader_id, start_ts));
        lemma_newest_seen(versions.drop_last(), m, reader_id, start_ts);
    }
}

proof fn lemma_changes_promote(
    storage: StorageModel,
    undo: Seq<(Undo, Timestamp)>,
    txn_id: Timestamp,
    commit_ts: Timestamp,
    i: int,
    c: int,
    k: nat,
)
    requires
        storage.wf(),
        storage.indexed(),
        txn_id.spec_is_txn_id(),
        commit_ts.spec_is_commit_ts(),
        0 <= i < undo.len(),
        k <= undo.len(),
        writes_properties(undo[i].0),
        storage.located(entry_edge(undo[i].0)->0) is Some,
    ensures
        ({
            let after = storage.changes_committed(undo, txn_id, commit_ts, k);
            let eid = entry_edge(undo[i].0)->0;
            let location = storage.located(eid)->0;
            let versions = versions_at(storage.columns, c, location);
            let versions_after = versions_at(after.columns, c, location);
            &&& after.located(eid) == Some(location)
            &&& versions_after == versions || versions_after == promoted(
                versions,
                txn_id,
                commit_ts,
            )
            &&& k > i ==> versions_after == promoted(versions, txn_id, commit_ts)
        }),
    decreases k,
{
    let eid = entry_edge(undo[i].0)->0;
    let location = storage.located(eid)->0;
    if k > 0 {
        lemma_changes_promote(storage, undo, txn_id, commit_ts, i, c, (k - 1) as nat);
        let before = storage.changes_committed(undo, txn_id, commit_ts, (k - 1) as nat);
        let after = storage.changes_committed(undo, txn_id, commit_ts, k);
        lemma_changes_committed(storage, undo, txn_id, commit_ts, (k - 1) as nat);
        lemma_changes_committed(storage, undo, txn_id, commit_ts, k);
        lemma_change_promotes(before, undo[k - 1].0, txn_id, commit_ts, c, location);
        exact_map_resolves(storage, eid);
        exact_map_resolves(after, eid);
        let versions = versions_at(storage.columns, c, location);
        assert(promoted(promoted(versions, txn_id, commit_ts), txn_id, commit_ts) =~= promoted(
            versions,
            txn_id,
            commit_ts,
        ));
    }
}

/// Once a transaction has committed, whoever starts no earlier than the commit reads the newest
/// value that the transaction gave to a property of an edge, even where other transactions that are
/// still running have written the property since.
pub proof fn commit_publishes_properties(
    storage: StorageModel,
    undo: Seq<(Undo, Timestamp)>,
    txn_id: Timestamp,
    commit_ts: Timestamp,
    i: int,
    c: int,
    m: int,
    reader_id: Timestamp,
    start_ts: Timestamp,
)
    requires
        storage.wf(),
        storage.indexed(),
        txn_id.spec_is_txn_id(),
        commit_ts.spec_is_commit_ts(),
        0 <= i < undo.len(),
        writes_properties(undo[i].0),
        storage.located(entry_edge(undo[i].0)->0) is Some,
        start_ts.0 >= commit_ts.0,
        ({
            let location = storage.located(entry_edge(undo[i].0)->0)->0;
            let versions = versions_at(storage.columns, c, location);
            &&& 0 <= m < versions.len()
            &&& versions[m].ts == txn_id
            &&& forall|j: int|
                m < j < versions.len() ==> (#[trigger] versions[j]).ts.spec_is_txn_id()
                    && versions[j].ts != txn_id && versions[j].ts != reader_id
        }),
    ensures
        ({
            let after = storage.changes_committed(undo, txn_id, commit_ts, undo.len());
            let location = storage.located(entry_edge(undo[i].0)->0)->0;
            let versions = versions_at(storage.columns, c, location);
            &&& after.located(entry_edge(undo[i].0)->0) == Some(location)
            &&& value_for(
                versions_at(after.columns, c, location),
                reader_of(reader_id, start_ts),
            ) == versions[m].value
        }),
{
    let location = storage.located(entry_edge(undo[i].0)->0)->0;
    let versions = versions_at(storage.columns, c, location);
    lemma_changes_promote(storage, undo, txn_id, commit_ts, i, c, undo.len());
    let after = promoted(versions, txn_id, commit_ts);
    assert forall|j: int| m < j < after.len() implies !sees(
        (#[trigger] after[j]).ts,
        Some(reader_id),
        start_ts,
    ) by {
        assert(versions[j].ts.spec_is_txn_id());
    }
    lemma_newest_seen(after, m, Some(reader_id), start_ts);
}

} // verus!
