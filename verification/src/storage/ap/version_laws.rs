//! Which version of a property counts: laws over the positions in a version list.

use vstd::prelude::*;
use crate::common::value::ScalarValue;
use crate::storage::ap::compress::{
    committed_bitmap, committed_values, compressed_props, compression_keeps_properties,
};
use crate::storage::ap::model::{
    column_wf, column_written, columns_wf, columns_written, committed_value, latest_value, row, value_for,
    value_visible_at, versions_at, ColumnModel, PropBlockModel, Reader, StorageModel, Versions,
};
use crate::storage::ap::types::{PropertyVersion, BLOCK_CAPACITY};
use crate::transaction::Timestamp;

verus! {

/// Who reads without a snapshot gets the value of the version at the greatest position that carries
/// a commit timestamp, whatever stands after it with the marks of running transactions.
pub proof fn newest_committed_version_is_read(versions: Versions, i: int)
    requires
        0 <= i < versions.len(),
        versions[i].ts.0 < 0x8000_0000_0000_0000,
        forall|j: int| i < j < versions.len() ==> (#[trigger] versions[j]).ts.0
            >= 0x8000_0000_0000_0000,
    ensures
        committed_value(versions) == versions[i].value,
        value_for(versions, Reader::Committed) == versions[i].value,
    decreases versions.len(),
{
    if i < versions.len() - 1 {
        assert(versions.last() == versions[versions.len() - 1]);
        newest_committed_version_is_read(versions.drop_last(), i);
    }
}

/// Who reads without a snapshot gets nothing from a version list in which every version carries the
/// mark of a running transaction.
pub proof fn without_committed_versions_nothing_is_read(versions: Versions)
    requires
        forall|j: int| 0 <= j < versions.len() ==> (#[trigger] versions[j]).ts.0
            >= 0x8000_0000_0000_0000,
    ensures
        committed_value(versions) is None,
        value_for(versions, Reader::Committed) is None,
    decreases versions.len(),
{
    if versions.len() > 0 {
        assert(versions.last() == versions[versions.len() - 1]);
        without_committed_versions_nothing_is_read(versions.drop_last());
    }
}

/// Versions with the marks of running transactions, appended to a version list, change nothing for
/// who reads without a snapshot.
pub proof fn marked_versions_are_not_read(versions: Versions, marked: Versions)
    requires
        forall|j: int| 0 <= j < marked.len() ==> (#[trigger] marked[j]).ts.0
            >= 0x8000_0000_0000_0000,
    ensures
        committed_value(versions + marked) == committed_value(versions),
        value_for(versions + marked, Reader::Committed) == value_for(versions, Reader::Committed),
    decreases marked.len(),
{
    let all = versions + marked;
    if marked.len() == 0 {
        assert(all =~= versions);
    } else {
        assert(all.last() == marked[marked.len() - 1]);
        assert(all.drop_last() =~= versions + marked.drop_last());
        marked_versions_are_not_read(versions, marked.drop_last());
    }
}

/// A committed version that is appended to a version list is what is read without a snapshot.
pub proof fn committed_version_is_read(versions: Versions, version: PropertyVersion)
    requires
        version.ts.0 < 0x8000_0000_0000_0000,
    ensures
        committed_value(versions.push(version)) == version.value,
{
    newest_committed_version_is_read(versions.push(version), versions.len() as int);
}

/// A reader with a snapshot gets the value of the version at the greatest position that it sees:
/// one with its own mark, or one that was committed no later than its start.
pub proof fn newest_seen_version_is_read(
    versions: Versions,
    txn_id: Option<Timestamp>,
    start_ts: Timestamp,
    i: int,
)
    requires
        0 <= i < versions.len(),
        versions[i].ts.0 >= 0x8000_0000_0000_0000 ==> txn_id == Some(versions[i].ts),
        versions[i].ts.0 < 0x8000_0000_0000_0000 ==> versions[i].ts.0 <= start_ts.0,
        forall|j: int|
            i < j < versions.len() ==> if (#[trigger] versions[j]).ts.0 >= 0x8000_0000_0000_0000 {
                txn_id != Some(versions[j].ts)
            } else {
                versions[j].ts.0 > start_ts.0
            },
    ensures
        value_visible_at(versions, txn_id, start_ts) == versions[i].value,
        value_for(versions, Reader::At { txn_id, start_ts }) == versions[i].value,
    decreases versions.len(),
{
    assert(versions.last() == versions[versions.len() - 1]);
    if i < versions.len() - 1 {
        newest_seen_version_is_read(versions.drop_last(), txn_id, start_ts, i);
    }
}

/// A reader with a snapshot gets nothing from a version list of which it sees no version.
pub proof fn without_seen_versions_nothing_is_read(
    versions: Versions,
    txn_id: Option<Timestamp>,
    start_ts: Timestamp,
)
    requires
        forall|j: int|
            0 <= j < versions.len() ==> if (#[trigger] versions[j]).ts.0 >= 0x8000_0000_0000_0000 {
                txn_id != Some(versions[j].ts)
            } else {
                versions[j].ts.0 > start_ts.0
            },
    ensures
        value_visible_at(versions, txn_id, start_ts) is None,
        value_for(versions, Reader::At { txn_id, start_ts }) is None,
    decreases versions.len(),
{
    if versions.len() > 0 {
        assert(versions.last() == versions[versions.len() - 1]);
        without_seen_versions_nothing_is_read(versions.drop_last(), txn_id, start_ts);
    }
}

/// The newest value of a version list is that of its last version, whoever wrote it.
pub proof fn last_version_is_the_newest(versions: Versions)
    ensures
        versions.len() > 0 ==> latest_value(versions) == versions[versions.len() - 1].value,
        versions.len() == 0 ==> latest_value(versions) is None,
{
}

/// Where the first `n` properties of an edge have a value for a reader, the row that it reads holds
/// them in the order of the columns.
pub proof fn row_holds_the_values(
    columns: Seq<ColumnModel>,
    location: (usize, usize),
    reader: Reader,
    n: nat,
)
    requires
        n <= columns.len(),
        forall|c: int|
            0 <= c < n ==> location.0 < (#[trigger] columns[c]).len() && location.1
                < columns[c][location.0 as int].values.len() && value_for(
                columns[c][location.0 as int].values[location.1 as int],
                reader,
            ) is Some,
    ensures
        row(columns, location, reader, n).len() == n,
        forall|c: int|
            0 <= c < n ==> #[trigger] row(columns, location, reader, n)[c] == value_for(
                columns[c][location.0 as int].values[location.1 as int],
                reader,
            ),
    decreases n,
{
    if n > 0 {
        let last = columns[n - 1];
        row_holds_the_values(columns, location, reader, (n - 1) as nat);
        let before = row(columns, location, reader, (n - 1) as nat);
        let after = row(columns, location, reader, n);
        assert(after == before.push(value_for(versions_at(columns, n - 1, location), reader)));
        assert forall|c: int| 0 <= c < n implies #[trigger] after[c] == value_for(
            columns[c][location.0 as int].values[location.1 as int],
            reader,
        ) by {
            if c < n - 1 {
                assert(after[c] == before[c]);
            }
        }
    }
}

/// `after` is `before` with versions appended that carry the marks of running transactions.
pub open spec fn only_marks_added(before: Versions, after: Versions) -> bool {
    &&& before.len() <= after.len()
    &&& forall|i: int| 0 <= i < before.len() ==> #[trigger] after[i] == before[i]
    &&& forall|i: int|
        before.len() <= i < after.len() ==> (#[trigger] after[i]).ts.0 >= 0x8000_0000_0000_0000
}

/// Versions with the marks of running transactions change no row that is read without a snapshot.
pub proof fn rows_pass_over_marked_versions(
    before: Seq<ColumnModel>,
    after: Seq<ColumnModel>,
    location: (usize, usize),
    n: nat,
)
    requires
        forall|c: int|
            0 <= c < n ==> only_marks_added(
                #[trigger] versions_at(before, c, location),
                versions_at(after, c, location),
            ),
    ensures
        row(before, location, Reader::Committed, n) == row(after, location, Reader::Committed, n),
    decreases n,
{
    if n > 0 {
        rows_pass_over_marked_versions(before, after, location, (n - 1) as nat);
        let old_versions = versions_at(before, n - 1, location);
        let new_versions = versions_at(after, n - 1, location);
        let added = new_versions.subrange(old_versions.len() as int, new_versions.len() as int);
        assert(new_versions =~= old_versions + added);
        marked_versions_are_not_read(old_versions, added);
    }
}

proof fn lemma_columns_written_add_marks(
    columns: Seq<ColumnModel>,
    location: (usize, usize),
    indices: Seq<usize>,
    props: Seq<ScalarValue>,
    ts: Timestamp,
    k: nat,
)
    requires
        ts.0 >= 0x8000_0000_0000_0000,
        k <= indices.len(),
        location.1 < BLOCK_CAPACITY,
        columns_wf(columns),
        forall|m: int| 0 <= m < indices.len() ==> #[trigger] indices[m] < columns.len(),
        forall|m: int|
            0 <= m < indices.len() ==> columns[#[trigger] indices[m] as int].len() >= location.0,
    ensures
        ({
            let after = columns_written(columns, location, indices, props, ts, k);
            &&& after.len() == columns.len()
            &&& columns_wf(after)
            &&& forall|c: int|
                0 <= c < columns.len() ==> (#[trigger] after[c]).len() >= columns[c].len()
            &&& forall|c: int, l: (usize, usize)|
                only_marks_added(
                    #[trigger] versions_at(columns, c, l),
                    versions_at(after, c, l),
                )
        }),
    decreases k,
{
    if k > 0 {
        lemma_columns_written_add_marks(columns, location, indices, props, ts, (k - 1) as nat);
        let mid = columns_written(columns, location, indices, props, ts, (k - 1) as nat);
        let after = columns_written(columns, location, indices, props, ts, k);
        let w = indices[k - 1] as int;
        assert(mid[w].len() >= columns[w].len());
        let written = column_written(mid[w], location, props[k - 1], ts);
        assert(after == mid.update(w, written));
        assert(column_wf(mid[w]));
        assert(column_wf(written));
        assert forall|c: int, l: (usize, usize)| only_marks_added(
            #[trigger] versions_at(columns, c, l),
            versions_at(after, c, l),
        ) by {
            assert(only_marks_added(versions_at(columns, c, l), versions_at(mid, c, l)));
            if c == w && l == location {
                let b = location.0 as int;
                if b < mid[w].len() {
                    assert(mid[w][b].wf());
                    assert(versions_at(after, c, l) == versions_at(mid, c, l).push(
                        PropertyVersion { ts, value: Some(props[k - 1]) },
                    ));
                } else {
                    assert(versions_at(mid, c, l) =~= Seq::empty());
                    assert(versions_at(after, c, l) =~= seq![
                        PropertyVersion { ts, value: Some(props[k - 1]) },
                    ]);
                }
            } else if c == w {
                let b = l.0 as int;
                if l.0 == location.0 {
                    if b < mid[w].len() {
                        assert(mid[w][b].wf());
                        assert(versions_at(after, c, l) == versions_at(mid, c, l));
                    } else {
                        assert(versions_at(mid, c, l) =~= Seq::empty());
                        assert(versions_at(after, c, l) =~= Seq::empty());
                    }
                } else {
                    assert(versions_at(after, c, l) == versions_at(mid, c, l));
                }
            } else {
                assert(versions_at(after, c, l) == versions_at(mid, c, l));
            }
        }
    }
}

/// The two storages have the same edges in the same blocks, and the same deletions.
spec fn same_slots(a: StorageModel, b: StorageModel) -> bool {
    &&& a.blocks.len() == b.blocks.len()
    &&& a.deletions == b.deletions
    &&& forall|i: int|
        0 <= i < a.blocks.len() ==> {
            &&& (#[trigger] a.blocks[i]).edges == b.blocks[i].edges
            &&& a.blocks[i].is_tombstone == b.blocks[i].is_tombstone
            &&& a.blocks[i].pre_block_index == b.blocks[i].pre_block_index
        }
}

proof fn lemma_walks_agree(a: StorageModel, b: StorageModel, reader: Reader, i: int, offset: int)
    requires
        same_slots(a, b),
    ensures
        a.edges_from(reader, i, offset) == b.edges_from(reader, i, offset),
    decreases a.blocks.len() - i, BLOCK_CAPACITY - offset,
{
    if 0 <= i < a.blocks.len() {
        assert(a.blocks[i].edges == b.blocks[i].edges);
        if a.blocks[i].is_tombstone || offset >= BLOCK_CAPACITY || a.blocks[i].edges[offset].eid
            == 0 {
            lemma_walks_agree(a, b, reader, i + 1, 0);
        } else {
            lemma_walks_agree(a, b, reader, i, offset + 1);
        }
    }
}

proof fn lemma_chains_agree(a: StorageModel, b: StorageModel, reader: Reader, i: int, offset: int)
    requires
        same_slots(a, b),
    ensures
        a.chain_from(reader, i, offset) == b.chain_from(reader, i, offset),
    decreases i + 1, BLOCK_CAPACITY - offset,
{
    if 0 <= i < a.blocks.len() {
        assert(a.blocks[i].edges == b.blocks[i].edges);
        if a.blocks[i].is_tombstone || offset >= BLOCK_CAPACITY || a.blocks[i].edges[offset].eid
            == 0 {
            lemma_chains_agree(a, b, reader, a.block_before(i), 0);
        } else {
            lemma_chains_agree(a, b, reader, i, offset + 1);
        }
    }
}

/// What a running transaction writes of an edge's properties changes no edge that a walk without a
/// snapshot gives.
pub proof fn running_writes_change_no_committed_edge(
    storage: StorageModel,
    location: (usize, usize),
    indices: Seq<usize>,
    props: Seq<ScalarValue>,
    txn_id: Timestamp,
    l: (usize, usize),
)
    requires
        storage.wf(),
        txn_id.0 >= 0x8000_0000_0000_0000,
        location.0 < storage.blocks.len(),
        location.1 < BLOCK_CAPACITY,
        storage.takes_properties(location, indices),
        forall|m: int| 0 <= m < indices.len() ==> #[trigger] indices[m] < storage.columns.len(),
    ensures
        ({
            let after = storage.properties_set(location, indices, props, txn_id);
            &&& l.0 < storage.blocks.len() ==> after.edge_at(l, Reader::Committed)
                == storage.edge_at(l, Reader::Committed)
            &&& after.edges_from(Reader::Committed, 0, 0) == storage.edges_from(
                Reader::Committed,
                0,
                0,
            )
            &&& after.chain_from(Reader::Committed, l.0 as int, 0) == storage.chain_from(
                Reader::Committed,
                l.0 as int,
                0,
            )
        }),
{
    let after = storage.properties_set(location, indices, props, txn_id);
    lemma_columns_written_add_marks(
        storage.columns,
        location,
        indices,
        props,
        txn_id,
        indices.len(),
    );
    rows_pass_over_marked_versions(
        storage.columns,
        after.columns,
        l,
        storage.columns.len(),
    );
    lemma_walks_agree(storage, after, Reader::Committed, 0, 0);
    lemma_chains_agree(storage, after, Reader::Committed, l.0 as int, 0);
}

/// A compressed property block gives back, for every slot, the value at the greatest position of
/// the slot's version list that carries a commit timestamp.
pub proof fn compression_takes_the_newest_committed_version(
    block: PropBlockModel,
    version_ts: Timestamp,
    slot: int,
    i: int,
)
    requires
        block.wf(),
        0 <= slot < BLOCK_CAPACITY,
        0 <= i < block.values[slot].len(),
        block.values[slot][i].ts.0 < 0x8000_0000_0000_0000,
        forall|j: int|
            i < j < block.values[slot].len() ==> (#[trigger] block.values[slot][j]).ts.0
                >= 0x8000_0000_0000_0000,
    ensures
        compressed_props(block, version_ts).value_in(slot) == block.values[slot][i].value,
{
    newest_committed_version_is_read(block.values[slot], i);
    compression_keeps_properties(block, version_ts, slot);
}

/// A compressed property block gives back nothing for a slot in which every version carries the
/// mark of a running transaction.
pub proof fn compression_leaves_out_marked_slots(
    block: PropBlockModel,
    version_ts: Timestamp,
    slot: int,
)
    requires
        block.wf(),
        0 <= slot < BLOCK_CAPACITY,
        forall|j: int|
            0 <= j < block.values[slot].len() ==> (#[trigger] block.values[slot][j]).ts.0
                >= 0x8000_0000_0000_0000,
    ensures
        compressed_props(block, version_ts).value_in(slot) is None,
{
    without_committed_versions_nothing_is_read(block.values[slot]);
    compression_keeps_properties(block, version_ts, slot);
}

proof fn lemma_committed_values_agree(a: PropBlockModel, b: PropBlockModel, n: int)
    requires
        a.wf(),
        b.wf(),
        n <= BLOCK_CAPACITY,
        forall|slot: int|
            0 <= slot < BLOCK_CAPACITY ==> committed_value(#[trigger] a.values[slot])
                == committed_value(b.values[slot]),
    ensures
        committed_values(a, n) == committed_values(b, n),
    decreases n,
{
    if n > 0 {
        lemma_committed_values_agree(a, b, n - 1);
        assert(committed_value(a.values[n - 1]) == committed_value(b.values[n - 1]));
    }
}

/// Versions with the marks of running transactions change nothing of what a property block is
/// compressed to but the bounds on its timestamps.
pub proof fn compression_passes_over_marked_versions(
    before: PropBlockModel,
    after: PropBlockModel,
    version_ts: Timestamp,
)
    requires
        before.wf(),
        after.wf(),
        forall|slot: int|
            0 <= slot < BLOCK_CAPACITY ==> only_marks_added(
                #[trigger] before.values[slot],
                after.values[slot],
            ),
    ensures
        ({
            let a = compressed_props(before, version_ts);
            let b = compressed_props(after, version_ts);
            &&& a.bitmap == b.bitmap
            &&& a.offsets == b.offsets
            &&& a.values == b.values
            &&& a.version_ts == b.version_ts
        }),
{
    assert forall|slot: int| 0 <= slot < BLOCK_CAPACITY implies committed_value(
        #[trigger] before.values[slot],
    ) == committed_value(after.values[slot]) by {
        let old_versions = before.values[slot];
        let new_versions = after.values[slot];
        let added = new_versions.subrange(old_versions.len() as int, new_versions.len() as int);
        assert(new_versions =~= old_versions + added);
        marked_versions_are_not_read(old_versions, added);
    }
    lemma_committed_values_agree(before, after, BLOCK_CAPACITY as int);
    assert forall|i: int| 0 <= i < BLOCK_CAPACITY implies committed_bitmap(before)[i]
        == #[trigger] committed_bitmap(after)[i] by {
        assert(committed_value(before.values[i]) == committed_value(after.values[i]));
    }
    assert(committed_bitmap(before) =~= committed_bitmap(after));
    assert(compressed_props(before, version_ts).offsets =~= compressed_props(
        after,
        version_ts,
    ).offsets);
}

} // verus!
