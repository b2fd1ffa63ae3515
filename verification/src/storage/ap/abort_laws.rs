//! Aborting a transaction takes back what it did: afterwards every other transaction reads what it
//! would have read before the transaction began.

use vstd::prelude::*;
use crate::common::types::{EdgeId, LabelId};
use crate::common::value::ScalarValue;
use crate::storage::ap::index_laws::{
    exact_map_resolves, insertion_keeps_index, removal_keeps_index, slot_update_keeps_index,
};
use crate::storage::ap::model::{
    any_seen, column_inserted, column_removed, column_reverted, column_wf, column_with_block,
    column_written, columns_extended, columns_reverted, columns_wf, columns_written,
    deletion_stamps, latest_values, sees, stamps_without, value_visible_at, versions_at,
    without_txn, ColumnModel, EdgeModel, StorageModel, TxnModel, Undo, Versions, WriteMode,
};
use crate::storage::ap::olap_graph::{label_or_one, txn_mode};
use crate::storage::ap::types::{property_at, PropertyVersion, BLOCK_CAPACITY};
use crate::transaction::Timestamp;

verus! {

// ---------------------------------------------------------------------------------------------
// Version lists without the versions of a transaction
// ---------------------------------------------------------------------------------------------

proof fn lemma_without_pushed(versions: Versions, version: PropertyVersion, txn_id: Timestamp)
    requires
        version.ts == txn_id,
    ensures
        without_txn(versions.push(version), txn_id) == without_txn(versions, txn_id),
{
    reveal(Seq::filter);
    assert(versions.push(version).drop_last() =~= versions);
}

proof fn lemma_without_twice(versions: Versions, txn_id: Timestamp)
    ensures
        without_txn(without_txn(versions, txn_id), txn_id) == without_txn(versions, txn_id),
    decreases versions.len(),
{
    reveal(Seq::filter);
    if versions.len() > 0 {
        lemma_without_twice(versions.drop_last(), txn_id);
        let rest = without_txn(versions.drop_last(), txn_id);
        if versions.last().ts != txn_id {
            assert(rest.push(versions.last()).drop_last() =~= rest);
        }
    }
}

proof fn lemma_stamps_pushed(stamps: Seq<Timestamp>, txn_id: Timestamp)
    ensures
        stamps_without(stamps.push(txn_id), txn_id) == stamps_without(stamps, txn_id),
{
    reveal(Seq::filter);
    assert(stamps.push(txn_id).drop_last() =~= stamps);
}

proof fn lemma_stamps_twice(stamps: Seq<Timestamp>, txn_id: Timestamp)
    ensures
        stamps_without(stamps_without(stamps, txn_id), txn_id) == stamps_without(stamps, txn_id),
    decreases stamps.len(),
{
    reveal(Seq::filter);
    if stamps.len() > 0 {
        lemma_stamps_twice(stamps.drop_last(), txn_id);
        let rest = stamps_without(stamps.drop_last(), txn_id);
        if stamps.last() != txn_id {
            assert(rest.push(stamps.last()).drop_last() =~= rest);
        }
    }
}

proof fn lemma_stamps_shorter(stamps: Seq<Timestamp>, txn_id: Timestamp)
    ensures
        stamps_without(stamps, txn_id).len() <= stamps.len(),
    decreases stamps.len(),
{
    reveal(Seq::filter);
    if stamps.len() > 0 {
        lemma_stamps_shorter(stamps.drop_last(), txn_id);
    }
}

/// Whoever is not the transaction sees the same deletions with and without its own.
pub proof fn lemma_stamps_unseen(
    stamps: Seq<Timestamp>,
    txn_id: Timestamp,
    reader_id: Option<Timestamp>,
    start_ts: Timestamp,
)
    requires
        txn_id.spec_is_txn_id(),
        reader_id != Some(txn_id),
    ensures
        any_seen(stamps_without(stamps, txn_id), reader_id, start_ts) == any_seen(
            stamps,
            reader_id,
            start_ts,
        ),
    decreases stamps.len(),
{
    reveal(Seq::filter);
    if stamps.len() > 0 {
        let shorter = stamps.drop_last();
        lemma_stamps_unseen(shorter, txn_id, reader_id, start_ts);
        lemma_any_seen_last(stamps, reader_id, start_ts);
        let rest = stamps_without(shorter, txn_id);
        if stamps.last() != txn_id {
            assert(rest.push(stamps.last()).drop_last() =~= rest);
            lemma_any_seen_last(rest.push(stamps.last()), reader_id, start_ts);
        }
    }
}

/// One of the stamps is seen where the last one is, or one of the others.
pub proof fn lemma_any_seen_last(
    stamps: Seq<Timestamp>,
    reader_id: Option<Timestamp>,
    start_ts: Timestamp,
)
    requires
        stamps.len() > 0,
    ensures
        any_seen(stamps, reader_id, start_ts) == (sees(stamps.last(), reader_id, start_ts)
            || any_seen(stamps.drop_last(), reader_id, start_ts)),
{
    let rest = stamps.drop_last();
    if any_seen(stamps, reader_id, start_ts) {
        let i = choose|i: int|
            0 <= i < stamps.len() && sees(#[trigger] stamps[i], reader_id, start_ts);
        if i < rest.len() {
            assert(sees(rest[i], reader_id, start_ts));
        }
    }
    if any_seen(rest, reader_id, start_ts) {
        let i = choose|i: int|
            0 <= i < rest.len() && sees(#[trigger] rest[i], reader_id, start_ts);
        assert(sees(stamps[i], reader_id, start_ts));
    }
    if sees(stamps.last(), reader_id, start_ts) {
        assert(sees(stamps[stamps.len() - 1], reader_id, start_ts));
    }
}

/// Whoever is not the transaction reads the same with and without its versions.
pub proof fn lemma_without_unseen(
    versions: Versions,
    txn_id: Timestamp,
    reader_id: Option<Timestamp>,
    start_ts: Timestamp,
)
    requires
        txn_id.spec_is_txn_id(),
        reader_id != Some(txn_id),
    ensures
        value_visible_at(without_txn(versions, txn_id), reader_id, start_ts) == value_visible_at(
            versions,
            reader_id,
            start_ts,
        ),
    decreases versions.len(),
{
    reveal(Seq::filter);
    if versions.len() > 0 {
        lemma_without_unseen(versions.drop_last(), txn_id, reader_id, start_ts);
        let rest = without_txn(versions.drop_last(), txn_id);
        if versions.last().ts != txn_id {
            assert(rest.push(versions.last()).drop_last() =~= rest);
        }
    }
}

// ---------------------------------------------------------------------------------------------
// Agreement
// ---------------------------------------------------------------------------------------------

impl StorageModel {
    /// How many slots of a block are in use; none where there is no such block.
    pub open spec fn in_use(self, b: int) -> int {
        if 0 <= b < self.blocks.len() {
            self.blocks[b].edge_counter
        } else {
            0
        }
    }

    pub open spec fn same_slot(self, other: StorageModel, b: int, offset: int) -> bool {
        self.blocks[b].edges[offset] == other.blocks[b].edges[offset]
    }

    /// The headers of a block tell readers the same.
    pub open spec fn same_header(self, other: StorageModel, b: int) -> bool {
        &&& self.blocks[b].is_tombstone == other.blocks[b].is_tombstone
        &&& self.blocks[b].src_id == other.blocks[b].src_id
    }

    /// A slot has the same versions of a property, but for those that a transaction wrote.
    pub open spec fn same_versions(
        self,
        other: StorageModel,
        txn_id: Timestamp,
        c: int,
        location: (usize, usize),
    ) -> bool {
        without_txn(versions_at(self.columns, c, location), txn_id) == without_txn(
            versions_at(other.columns, c, location),
            txn_id,
        )
    }

    /// The deletions of an edge are the same, but for those by a transaction.
    pub open spec fn same_deletions(
        self,
        other: StorageModel,
        txn_id: Timestamp,
        eid: EdgeId,
    ) -> bool {
        stamps_without(deletion_stamps(self.deletions, eid), txn_id) == stamps_without(
            deletion_stamps(other.deletions, eid),
            txn_id,
        )
    }

    /// Two storages hold the same edges in the same slots, with the same properties and deletions
    /// but for what a transaction wrote.
    pub open spec fn agrees(self, other: StorageModel, txn_id: Timestamp) -> bool {
        &&& self.locations == other.locations
        &&& forall|b: int| #[trigger] self.in_use(b) == other.in_use(b)
        &&& forall|b: int, offset: int|
            0 <= offset < self.in_use(b) ==> #[trigger] self.same_slot(other, b, offset)
        &&& forall|b: int| self.in_use(b) > 0 ==> #[trigger] self.same_header(other, b)
        &&& forall|c: int, location: (usize, usize)|
            location.1 < self.in_use(location.0 as int) ==> #[trigger] self.same_versions(
                other,
                txn_id,
                c,
                location,
            )
        &&& forall|eid: EdgeId| #[trigger] self.same_deletions(other, txn_id, eid)
    }

    /// Every property column is at least as long as that of another storage.
    pub open spec fn extends(self, other: StorageModel) -> bool {
        &&& self.columns.len() >= other.columns.len()
        &&& forall|c: int|
            0 <= c < other.columns.len() ==> (#[trigger] self.columns[c]).len()
                >= other.columns[c].len()
    }

    /// The properties that a change wrote are in columns that reach the block of its edge.
    pub open spec fn covers(self, op: Undo) -> bool {
        match op {
            Undo::SetProps { eid, indices, .. } => match self.located(eid) {
                Some(location) => forall|k: int|
                    0 <= k < indices.len() ==> (#[trigger] indices[k] as int) < self.columns.len()
                        && self.columns[indices[k] as int].len() >= location.0,
                None => true,
            },
            _ => true,
        }
    }
}

proof fn lemma_agrees_trans(a: StorageModel, b: StorageModel, c: StorageModel, txn_id: Timestamp)
    requires
        a.agrees(b, txn_id),
        b.agrees(c, txn_id),
    ensures
        a.agrees(c, txn_id),
{
    assert forall|i: int| #[trigger] a.in_use(i) == c.in_use(i) by {
        assert(a.in_use(i) == b.in_use(i));
        assert(b.in_use(i) == c.in_use(i));
    }
    assert forall|i: int, offset: int| 0 <= offset < a.in_use(i) implies #[trigger] a.same_slot(
        c,
        i,
        offset,
    ) by {
        assert(a.in_use(i) == b.in_use(i));
        assert(a.same_slot(b, i, offset));
        assert(b.same_slot(c, i, offset));
    }
    assert forall|i: int| a.in_use(i) > 0 implies #[trigger] a.same_header(c, i) by {
        assert(a.in_use(i) == b.in_use(i));
        assert(a.same_header(b, i));
        assert(b.same_header(c, i));
    }
    assert forall|k: int, location: (usize, usize)|
        location.1 < a.in_use(location.0 as int) implies #[trigger] a.same_versions(
        c,
        txn_id,
        k,
        location,
    ) by {
        assert(a.in_use(location.0 as int) == b.in_use(location.0 as int));
        assert(a.same_versions(b, txn_id, k, location));
        assert(b.same_versions(c, txn_id, k, location));
    }
    assert forall|eid: EdgeId| #[trigger] a.same_deletions(c, txn_id, eid) by {
        assert(a.same_deletions(b, txn_id, eid));
        assert(b.same_deletions(c, txn_id, eid));
    }
}

proof fn lemma_extends_trans(a: StorageModel, b: StorageModel, c: StorageModel)
    requires
        a.extends(b),
        b.extends(c),
    ensures
        a.extends(c),
{
    assert forall|k: int| 0 <= k < c.columns.len() implies (#[trigger] a.columns[k]).len()
        >= c.columns[k].len() by {
        assert(b.columns[k].len() >= c.columns[k].len());
    }
}

/// Where two storages agree, an edge is located in the same place, in the same state.
proof fn lemma_agrees_located(a: StorageModel, b: StorageModel, txn_id: Timestamp, eid: EdgeId)
    requires
        a.wf(),
        b.wf(),
        a.indexed(),
        b.indexed(),
        a.agrees(b, txn_id),
    ensures
        a.located(eid) == b.located(eid),
        a.located(eid) matches Some(location) ==> {
            &&& a.slot(location) == b.slot(location)
            &&& a.same_header(b, location.0 as int)
            &&& a.blocks[location.0 as int].edge_counter
                == b.blocks[location.0 as int].edge_counter
            &&& location.0 < a.blocks.len() && location.0 < b.blocks.len()
            &&& location.1 < a.in_use(location.0 as int)
        },
{
    exact_map_resolves(a, eid);
    exact_map_resolves(b, eid);
    if let Some(location) = a.located(eid) {
        let i = location.0 as int;
        assert(a.in_use(i) == b.in_use(i));
        assert(a.same_slot(b, i, location.1 as int));
        assert(a.same_header(b, i));
    }
}

// ---------------------------------------------------------------------------------------------
// Where versions go
// ---------------------------------------------------------------------------------------------

/// The versions in every slot after an edge has been put in slot `pos` of block `b`.
pub proof fn lemma_inserted_versions(
    columns: Seq<ColumnModel>,
    after: Seq<ColumnModel>,
    b: usize,
    pos: int,
    n: int,
    properties: Seq<Option<ScalarValue>>,
    mode: WriteMode,
    c: int,
    location: (usize, usize),
)
    requires
        columns_wf(columns),
        0 <= pos <= n < BLOCK_CAPACITY,
        forall|k: int| 0 <= k < columns.len() ==> (#[trigger] columns[k]).len() >= b,
        after.len() == columns.len(),
        forall|k: int|
            0 <= k < columns.len() ==> #[trigger] after[k] == column_inserted(
                columns[k],
                b as int,
                pos,
                n,
                property_at(properties, k),
                mode,
            ),
        location.1 < BLOCK_CAPACITY,
    ensures
        columns_wf(after),
        location.0 != b || location.1 < pos || location.1 > n ==> versions_at(after, c, location)
            == versions_at(columns, c, location),
        location.0 == b && pos < location.1 <= n ==> versions_at(after, c, location)
            == versions_at(columns, c, (b, (location.1 - 1) as usize)),
        0 <= c < columns.len() && location.0 == b && location.1 == pos ==> versions_at(
            after,
            c,
            location,
        ) == versions_at(columns, c, location).push(
            PropertyVersion { ts: mode.ts, value: property_at(properties, c) },
        ),
{
    assert forall|k: int| 0 <= k < after.len() implies column_wf(#[trigger] after[k]) by {
        lemma_inserted_column_wf(columns[k], b as int, pos, n, property_at(properties, k), mode);
    }
    if 0 <= c < columns.len() {
        let column = columns[c];
        assert(column_wf(column));
        assert(column.len() >= b);
        let ready = column_with_block(column, b as int, mode.fresh_min, mode.fresh_max);
        assert(ready[b as int].wf());
        if b < column.len() {
            assert(column[b as int].wf());
        }
        assert(after[c] == column_inserted(
            column,
            b as int,
            pos,
            n,
            property_at(properties, c),
            mode,
        ));
        if location.0 < column.len() {
            assert(column[location.0 as int].wf());
        }
    }
}

proof fn lemma_inserted_column_wf(
    column: ColumnModel,
    b: int,
    pos: int,
    n: int,
    value: Option<ScalarValue>,
    mode: WriteMode,
)
    requires
        column_wf(column),
        0 <= b <= column.len(),
        0 <= pos <= n < BLOCK_CAPACITY,
    ensures
        column_wf(column_inserted(column, b, pos, n, value, mode)),
        column_inserted(column, b, pos, n, value, mode).len() >= column.len(),
        column_inserted(column, b, pos, n, value, mode).len() > b,
{
    let ready = column_with_block(column, b, mode.fresh_min, mode.fresh_max);
    assert(ready[b].wf());
    let after = column_inserted(column, b, pos, n, value, mode);
    assert forall|k: int| 0 <= k < after.len() implies (#[trigger] after[k]).wf() by {
        if k != b {
            assert(column[k].wf());
        }
    }
}

/// The versions in every slot after the edge in slot `off` of block `b` has been taken out.
proof fn lemma_removed_versions(
    columns: Seq<ColumnModel>,
    after: Seq<ColumnModel>,
    b: usize,
    off: int,
    n: int,
    c: int,
    location: (usize, usize),
)
    requires
        columns_wf(columns),
        0 <= off < n <= BLOCK_CAPACITY,
        after.len() == columns.len(),
        forall|k: int|
            0 <= k < columns.len() ==> #[trigger] after[k] == column_removed(
                columns[k],
                b as int,
                off,
                n,
            ),
        location.1 < BLOCK_CAPACITY,
    ensures
        columns_wf(after),
        location.0 != b || location.1 < off ==> versions_at(after, c, location) == versions_at(
            columns,
            c,
            location,
        ),
        location.0 == b && off <= location.1 < n - 1 ==> versions_at(after, c, location)
            == versions_at(columns, c, (b, (location.1 + 1) as usize)),
{
    assert forall|k: int| 0 <= k < after.len() implies column_wf(#[trigger] after[k]) by {
        assert(column_wf(columns[k]));
        assert(after[k] == column_removed(columns[k], b as int, off, n));
        assert forall|j: int| 0 <= j < after[k].len() implies (#[trigger] after[k][j]).wf() by {
            assert(columns[k][j].wf());
        }
    }
    if 0 <= c < columns.len() {
        assert(column_wf(columns[c]));
        assert(after[c] == column_removed(columns[c], b as int, off, n));
        if b < columns[c].len() {
            assert(columns[c][b as int].wf());
        }
        if location.0 < columns[c].len() {
            assert(columns[c][location.0 as int].wf());
        }
    }
}

/// Empty columns add no versions.
pub proof fn lemma_extended_versions(
    columns: Seq<ColumnModel>,
    n: int,
    c: int,
    location: (usize, usize),
)
    requires
        columns_wf(columns),
    ensures
        columns_wf(columns_extended(columns, n)),
        versions_at(columns_extended(columns, n), c, location) == versions_at(
            columns,
            c,
            location,
        ),
{
    let after = columns_extended(columns, n);
    assert forall|k: int| 0 <= k < after.len() implies column_wf(#[trigger] after[k]) by {
        if k < columns.len() {
            assert(column_wf(columns[k]));
        }
    }
}

/// Storages with an exact map and the same slots in use have the same map.
proof fn lemma_same_slots_same_map(a: StorageModel, b: StorageModel)
    requires
        a.wf(),
        b.wf(),
        a.indexed(),
        b.indexed(),
        forall|i: int| #[trigger] a.in_use(i) == b.in_use(i),
        forall|i: int, offset: int|
            0 <= offset < a.in_use(i) ==> #[trigger] a.same_slot(b, i, offset),
    ensures
        a.locations == b.locations,
{
    assert forall|eid: EdgeId| #[trigger]
        a.locations.dom().contains(eid) implies b.locations.dom().contains(eid)
        && b.locations[eid] == a.locations[eid] by {
        assert(a.location_exact(eid));
        let at = a.locations[eid];
        assert(a.in_use(at.0 as int) == b.in_use(at.0 as int));
        assert(a.same_slot(b, at.0 as int, at.1 as int));
        assert(b.slot_recorded(at.0 as int, at.1 as int));
    }
    assert forall|eid: EdgeId| #[trigger]
        b.locations.dom().contains(eid) implies a.locations.dom().contains(eid) by {
        assert(b.location_exact(eid));
        let at = b.locations[eid];
        assert(a.in_use(at.0 as int) == b.in_use(at.0 as int));
        assert(a.same_slot(b, at.0 as int, at.1 as int));
        assert(a.slot_recorded(at.0 as int, at.1 as int));
    }
    assert(a.locations =~= b.locations);
}

// ---------------------------------------------------------------------------------------------
// Taking back a creation
// ---------------------------------------------------------------------------------------------

/// What the creation of an edge needs of the storage.
pub open spec fn can_create(
    storage: StorageModel,
    v: int,
    pos: int,
    edge: EdgeModel,
    txn_id: Timestamp,
) -> bool {
    let mode = txn_mode(txn_id);
    let opened = storage.block_opened(v, edge.src_id, mode);
    &&& storage.blocks.len() + 1 < usize::MAX
    &&& storage.edge_id_counter < u64::MAX
    &&& 0 <= v < storage.vertices.len()
    &&& storage.has_block(v)
    &&& opened.columns_reach(
        opened.vertices[v].block_offset as int,
        edge.properties.len() as int,
        mode,
    )
    &&& 0 <= pos <= opened.blocks[opened.vertices[v].block_offset as int].edge_counter
}

pub proof fn lemma_created_wf(
    storage: StorageModel,
    v: int,
    pos: int,
    edge: EdgeModel,
    txn_id: Timestamp,
)
    requires
        storage.wf(),
        storage.indexed(),
        can_create(storage, v, pos, edge, txn_id),
    ensures
        storage.edge_created(v, pos, edge, txn_mode(txn_id)).wf(),
        storage.edge_created(v, pos, edge, txn_mode(txn_id)).indexed(),
        storage.edge_created(v, pos, edge, txn_mode(txn_id)).extends(storage),
{
    let mode = txn_mode(txn_id);
    let opened = storage.block_opened(v, edge.src_id, mode);
    let after = storage.edge_created(v, pos, edge, mode);
    insertion_keeps_index(storage, v, pos, edge, mode);
    let at = opened.vertices[v].block_offset;
    assert(opened.columns == storage.columns);
    assert(0 <= at < opened.blocks.len());
    let n = opened.blocks[at as int].edge_counter;
    assert(n < BLOCK_CAPACITY) by {
        if at < storage.blocks.len() {
            assert(storage.blocks[at as int].wf());
        }
    }
    let columns = columns_extended(storage.columns, edge.properties.len() as int);
    lemma_extended_versions(storage.columns, edge.properties.len() as int, 0, (0, 0));
    lemma_inserted_versions(
        columns,
        after.columns,
        at,
        pos,
        n,
        edge.properties,
        mode,
        0,
        (0, 0),
    );
    assert forall|c: int| 0 <= c < storage.columns.len() implies (
    #[trigger] after.columns[c]).len() >= storage.columns[c].len() by {
        assert(column_wf(columns[c]));
        lemma_inserted_column_wf(
            columns[c],
            at as int,
            pos,
            n,
            property_at(edge.properties, c),
            mode,
        );
    }
}

/// Taking back the creation of an edge restores what was there.
proof fn lemma_create_undone(
    storage: StorageModel,
    v: int,
    pos: int,
    edge: EdgeModel,
    txn_id: Timestamp,
    label_id: LabelId,
)
    requires
        storage.wf(),
        storage.indexed(),
        txn_id.spec_is_txn_id(),
        can_create(storage, v, pos, edge, txn_id),
    ensures
        ({
            let after = storage.edge_created(v, pos, edge, txn_mode(txn_id));
            let op = Undo::Create {
                eid: storage.edge_id_counter,
                src_id: edge.src_id,
                dst_id: edge.dst_id,
                label_id,
                properties: Seq::empty(),
            };
            let undone = after.change_undone(op, txn_id, txn_id);
            undone.wf() && undone.indexed() && undone.agrees(storage, txn_id) && undone.extends(
                storage,
            )
        }),
{
    let mode = txn_mode(txn_id);
    let opened = storage.block_opened(v, edge.src_id, mode);
    let after = storage.edge_created(v, pos, edge, mode);
    lemma_created_wf(storage, v, pos, edge, txn_id);
    let at = opened.vertices[v].block_offset;
    let b0 = at as int;
    let block = opened.blocks[b0];
    let n = block.edge_counter;
    assert(block.wf()) by {
        if b0 < storage.blocks.len() {
            assert(storage.blocks[b0].wf());
        }
    }
    assert(n < BLOCK_CAPACITY);
    let eid = storage.edge_id_counter;
    let location = (at, pos as usize);
    assert(after.blocks[b0].edges[pos].eid == eid);
    assert(after.slot_recorded(b0, pos));
    assert(after.marked(eid, txn_id) == Some(location));
    let undone = after.edge_removed(location, eid);
    removal_keeps_index(after, location, eid);
    assert forall|i: int| #[trigger] undone.in_use(i) == storage.in_use(i) by {
        if i == b0 {
            assert(undone.blocks[b0].edge_counter == n);
        }
    }
    assert forall|i: int, offset: int|
        0 <= offset < undone.in_use(i) implies #[trigger] undone.same_slot(storage, i, offset) by {
        assert(undone.in_use(i) == storage.in_use(i));
    }
    assert forall|i: int| undone.in_use(i) > 0 implies #[trigger] undone.same_header(
        storage,
        i,
    ) by {
        assert(undone.in_use(i) == storage.in_use(i));
    }
    let columns = columns_extended(storage.columns, edge.properties.len() as int);
    assert(after.columns.len() == columns.len());
    assert(columns_wf(undone.columns)) by {
        lemma_removed_versions(
            after.columns,
            undone.columns,
            at,
            pos,
            n + 1,
            0,
            (0, 0),
        );
    }
    lemma_same_slots_same_map(undone, storage);
    assert forall|c: int, l: (usize, usize)|
        l.1 < undone.in_use(l.0 as int) implies #[trigger] undone.same_versions(
        storage,
        txn_id,
        c,
        l,
    ) by {
        assert(undone.in_use(l.0 as int) == storage.in_use(l.0 as int));
        assert(storage.blocks[l.0 as int].wf());
        let next = (at, (l.1 + 1) as usize);
        lemma_removed_versions(after.columns, undone.columns, at, pos, n + 1, c, l);
        lemma_extended_versions(storage.columns, edge.properties.len() as int, c, l);
        lemma_inserted_versions(
            columns,
            after.columns,
            at,
            pos,
            n,
            edge.properties,
            mode,
            c,
            l,
        );
        if l.0 == at && l.1 >= pos {
            lemma_inserted_versions(
                columns,
                after.columns,
                at,
                pos,
                n,
                edge.properties,
                mode,
                c,
                next,
            );
        }
    }
    assert(undone.extends(storage)) by {
        assert forall|c: int| 0 <= c < storage.columns.len() implies (
        #[trigger] undone.columns[c]).len() >= storage.columns[c].len() by {
            assert(after.columns[c].len() >= storage.columns[c].len());
        }
    }
}

// ---------------------------------------------------------------------------------------------
// Taking back a write of properties and a deletion
// ---------------------------------------------------------------------------------------------

/// The last of the first `k` writes that is to property `c`.
pub open spec fn last_write(indices: Seq<usize>, c: int, k: int) -> Option<int>
    decreases k,
{
    if k <= 0 {
        None
    } else if indices[k - 1] == c {
        Some(k - 1)
    } else {
        last_write(indices, c, k - 1)
    }
}

/// A write to property `c` is among the first `k`, where there is a last one.
proof fn lemma_last_write(indices: Seq<usize>, c: int, k: int)
    requires
        0 <= k <= indices.len(),
    ensures
        last_write(indices, c, k) is Some <==> exists|m: int|
            0 <= m < k && #[trigger] indices[m] == c,
        last_write(indices, c, k) matches Some(m) ==> 0 <= m < k && indices[m] == c,
    decreases k,
{
    if k > 0 {
        lemma_last_write(indices, c, k - 1);
    }
}

/// Writing properties adds versions of the transaction to the properties that are written; the
/// newest version of each is the value of its last write. The versions of every other property, and
/// of every other edge, stay.
pub proof fn lemma_written_newest(
    columns: Seq<ColumnModel>,
    location: (usize, usize),
    indices: Seq<usize>,
    props: Seq<ScalarValue>,
    ts: Timestamp,
    k: nat,
    c: int,
    l: (usize, usize),
)
    requires
        columns_wf(columns),
        k <= indices.len(),
        location.1 < BLOCK_CAPACITY,
        l.1 < BLOCK_CAPACITY,
        forall|m: int|
            0 <= m < indices.len() ==> (#[trigger] indices[m] as int) < columns.len()
                && columns[indices[m] as int].len() >= location.0,
    ensures
        ({
            let after = columns_written(columns, location, indices, props, ts, k);
            &&& columns_wf(after)
            &&& after.len() == columns.len()
            &&& forall|d: int|
                0 <= d < columns.len() ==> (#[trigger] after[d]).len() >= columns[d].len()
            &&& without_txn(versions_at(after, c, l), ts) == without_txn(
                versions_at(columns, c, l),
                ts,
            )
            &&& l != location ==> versions_at(after, c, l) == versions_at(columns, c, l)
            &&& match last_write(indices, c, k as int) {
                Some(m) => {
                    &&& 0 <= m < k
                    &&& versions_at(after, c, location).len() > 0
                    &&& versions_at(after, c, location).last() == (PropertyVersion {
                        ts,
                        value: Some(props[m]),
                    })
                },
                None => versions_at(after, c, location) == versions_at(columns, c, location),
            }
        }),
    decreases k,
{
    if k > 0 {
        lemma_written_newest(columns, location, indices, props, ts, (k - 1) as nat, c, l);
        let before = columns_written(columns, location, indices, props, ts, (k - 1) as nat);
        let after = columns_written(columns, location, indices, props, ts, k);
        let d = indices[k - 1] as int;
        assert(columns[indices[k - 1] as int].len() >= location.0);
        assert(before[d].len() >= columns[d].len());
        assert(column_wf(before[d]));
        let b = location.0 as int;
        let ready = column_with_block(before[d], b, ts, ts);
        assert(ready[b].wf());
        let version = PropertyVersion { ts, value: Some(props[k - 1]) };
        assert(after[d] == column_written(before[d], location, props[k - 1], ts));
        assert forall|e: int| 0 <= e < after.len() implies column_wf(#[trigger] after[e]) by {
            if e == d {
                assert forall|j: int| 0 <= j < after[d].len() implies (
                #[trigger] after[d][j]).wf() by {
                    if j != b {
                        assert(before[d][j].wf());
                    }
                }
            } else {
                assert(column_wf(before[e]));
            }
        }
        if c == d {
            if l.0 < before[d].len() {
                assert(before[d][l.0 as int].wf());
            }
            if location.0 < before[d].len() {
                assert(before[d][location.0 as int].wf());
            }
            assert(versions_at(after, c, location) == versions_at(before, c, location).push(
                version,
            ));
            if l == location {
                lemma_without_pushed(versions_at(before, c, l), version, ts);
            } else {
                assert(versions_at(after, c, l) == versions_at(before, c, l));
            }
        }
        assert forall|e: int| 0 <= e < columns.len() implies (#[trigger] after[e]).len()
            >= columns[e].len() by {
            assert(before[e].len() >= columns[e].len());
        }
    }
}

/// Reverting properties drops the versions of the transaction from those properties of the edge,
/// and nothing else.
pub proof fn lemma_reverted_versions(
    columns: Seq<ColumnModel>,
    location: (usize, usize),
    indices: Seq<usize>,
    txn_id: Timestamp,
    old_ts: Timestamp,
    k: nat,
    c: int,
    l: (usize, usize),
)
    requires
        columns_wf(columns),
        k <= indices.len(),
        location.1 < BLOCK_CAPACITY,
        l.1 < BLOCK_CAPACITY,
        forall|m: int|
            0 <= m < indices.len() && (#[trigger] indices[m] as int) < columns.len()
                ==> columns[indices[m] as int].len() >= location.0,
    ensures
        ({
            let after = columns_reverted(columns, location, indices, txn_id, old_ts, k);
            &&& columns_wf(after)
            &&& after.len() == columns.len()
            &&& forall|d: int|
                0 <= d < columns.len() ==> (#[trigger] after[d]).len() >= columns[d].len()
            &&& versions_at(after, c, l) == (if l == location && last_write(
                indices,
                c,
                k as int,
            ) is Some {
                without_txn(versions_at(columns, c, l), txn_id)
            } else {
                versions_at(columns, c, l)
            })
            &&& without_txn(versions_at(after, c, l), txn_id) == without_txn(
                versions_at(columns, c, l),
                txn_id,
            )
        }),
    decreases k,
{
    lemma_without_twice(versions_at(columns, c, l), txn_id);
    if k > 0 {
        lemma_reverted_versions(
            columns,
            location,
            indices,
            txn_id,
            old_ts,
            (k - 1) as nat,
            c,
            l,
        );
        let before = columns_reverted(
            columns,
            location,
            indices,
            txn_id,
            old_ts,
            (k - 1) as nat,
        );
        let after = columns_reverted(columns, location, indices, txn_id, old_ts, k);
        let d = indices[k - 1] as int;
        if d < before.len() {
            assert(columns[indices[k - 1] as int].len() >= location.0);
            assert(before[d].len() >= columns[d].len());
            assert(column_wf(before[d]));
            let b = location.0 as int;
            let ready = column_with_block(before[d], b, old_ts, old_ts);
            assert(ready[b].wf());
            assert(after[d] == column_reverted(before[d], location, txn_id, old_ts));
            assert forall|e: int| 0 <= e < after.len() implies column_wf(#[trigger] after[e]) by {
                if e == d {
                    assert forall|j: int| 0 <= j < after[d].len() implies (
                    #[trigger] after[d][j]).wf() by {
                        if j != b {
                            assert(before[d][j].wf());
                        }
                    }
                } else {
                    assert(column_wf(before[e]));
                }
            }
            if c == d {
                if l.0 < before[d].len() {
                    assert(before[d][l.0 as int].wf());
                }
                if l == location {
                    assert(versions_at(after, c, l) == without_txn(
                        versions_at(before, c, l),
                        txn_id,
                    )) by {
                        reveal(Seq::filter);
                    }
                } else {
                    assert(versions_at(after, c, l) == versions_at(before, c, l));
                }
            }
            assert forall|e: int| 0 <= e < columns.len() implies (#[trigger] after[e]).len()
                >= columns[e].len() by {
                assert(before[e].len() >= columns[e].len());
            }
        } else if c == d {
            assert(without_txn(Seq::<PropertyVersion>::empty(), txn_id) =~= Seq::empty()) by {
                reveal(Seq::filter);
            }
        }
    }
}

/// What a write of properties needs of the storage.
pub open spec fn can_set(
    storage: StorageModel,
    eid: EdgeId,
    indices: Seq<usize>,
    props: Seq<ScalarValue>,
) -> bool {
    &&& indices.len() == props.len()
    &&& storage.writable(eid) matches Some(location) && forall|m: int|
        0 <= m < indices.len() ==> (#[trigger] indices[m] as int) < storage.columns.len()
            && storage.columns[indices[m] as int].len() >= location.0
}

proof fn lemma_set_wf(
    storage: StorageModel,
    eid: EdgeId,
    indices: Seq<usize>,
    props: Seq<ScalarValue>,
    txn_id: Timestamp,
)
    requires
        storage.wf(),
        storage.indexed(),
        can_set(storage, eid, indices, props),
    ensures
        ({
            let location = storage.writable(eid)->0;
            let after = storage.with_writable(eid).properties_set(
                location,
                indices,
                props,
                txn_id,
            );
            &&& storage.with_writable(eid) == storage
            &&& storage.located(eid) == Some(location)
            &&& after.located(eid) == Some(location)
            &&& after.wf()
            &&& after.indexed()
            &&& after.extends(storage)
        }),
{
    exact_map_resolves(storage, eid);
    let location = storage.writable(eid)->0;
    let after = storage.properties_set(location, indices, props, txn_id);
    assert(storage.blocks[location.0 as int].wf());
    lemma_written_newest(
        storage.columns,
        location,
        indices,
        props,
        txn_id,
        indices.len(),
        0,
        (0, 0),
    );
    slot_update_keeps_index(storage, after, location);
    exact_map_resolves(after, eid);
}

proof fn lemma_set_undone(
    storage: StorageModel,
    eid: EdgeId,
    indices: Seq<usize>,
    props: Seq<ScalarValue>,
    old_props: Seq<ScalarValue>,
    txn_id: Timestamp,
)
    requires
        storage.wf(),
        storage.indexed(),
        txn_id.spec_is_txn_id(),
        can_set(storage, eid, indices, props),
    ensures
        ({
            let location = storage.writable(eid)->0;
            let after = storage.with_writable(eid).properties_set(
                location,
                indices,
                props,
                txn_id,
            );
            let op = Undo::SetProps { eid, indices, props: old_props };
            let undone = after.change_undone(
                op,
                storage.slot(location).commit_ts,
                txn_id,
            );
            &&& undone.wf()
            &&& undone.indexed()
            &&& undone.agrees(storage, txn_id)
            &&& undone.extends(storage)
            &&& after.covers(op)
        }),
{
    lemma_set_wf(storage, eid, indices, props, txn_id);
    let location = storage.writable(eid)->0;
    let old_ts = storage.slot(location).commit_ts;
    let after = storage.properties_set(location, indices, props, txn_id);
    let op = Undo::SetProps { eid, indices, props: old_props };
    assert(after.covers(op)) by {
        assert forall|k: int| 0 <= k < indices.len() implies (#[trigger] indices[k] as int)
            < after.columns.len() && after.columns[indices[k] as int].len() >= location.0 by {
            assert(storage.columns[indices[k] as int].len() >= location.0);
            assert(after.columns[indices[k] as int].len() >= storage.columns[indices[k] as int].len());
        }
    }
    assert(after.blocks[location.0 as int].wf());
    let undone = after.change_undone(op, old_ts, txn_id);
    lemma_reverted_versions(
        after.columns,
        location,
        indices,
        txn_id,
        old_ts,
        indices.len(),
        0,
        (0, 0),
    );
    lemma_same_index(after, undone);
    assert forall|i: int| #[trigger] undone.in_use(i) == storage.in_use(i) by {}
    assert forall|i: int, offset: int|
        0 <= offset < undone.in_use(i) implies #[trigger] undone.same_slot(storage, i, offset) by {
        assert(undone.in_use(i) == storage.in_use(i));
        assert(storage.blocks[i].wf());
    }
    assert forall|i: int| undone.in_use(i) > 0 implies #[trigger] undone.same_header(
        storage,
        i,
    ) by {
        assert(undone.in_use(i) == storage.in_use(i));
    }
    assert forall|c: int, l: (usize, usize)|
        l.1 < undone.in_use(l.0 as int) implies #[trigger] undone.same_versions(
        storage,
        txn_id,
        c,
        l,
    ) by {
        assert(undone.in_use(l.0 as int) == storage.in_use(l.0 as int));
        assert(storage.blocks[l.0 as int].wf());
        lemma_reverted_versions(
            after.columns,
            location,
            indices,
            txn_id,
            old_ts,
            indices.len(),
            c,
            l,
        );
        lemma_written_newest(
            storage.columns,
            location,
            indices,
            props,
            txn_id,
            indices.len(),
            c,
            l,
        );
    }
    assert(undone.extends(after));
    lemma_extends_trans(undone, after, storage);
}

/// Taking back a deletion keeps the map of locations exact.
proof fn lemma_undo_delete_indexed(storage: StorageModel, eid: EdgeId, txn_id: Timestamp)
    requires
        storage.wf(),
        storage.indexed(),
    ensures
        ({
            let undone = storage.change_undone(Undo::Delete { eid }, Timestamp(0), txn_id);
            undone.wf() && undone.indexed()
        }),
{
    let undone = storage.change_undone(Undo::Delete { eid }, Timestamp(0), txn_id);
    let stamps = deletion_stamps(storage.deletions, eid);
    lemma_stamps_shorter(stamps, txn_id);
    assert(undone.deletions_known()) by {
        assert forall|e: EdgeId|
            (#[trigger] deletion_stamps(undone.deletions, e)).len() > 0 implies 0 < e
            < undone.edge_id_counter by {
            assert(deletion_stamps(storage.deletions, e).len() > 0);
        }
    }
    assert forall|e: EdgeId| #[trigger] undone.locations.dom().contains(e) implies
        undone.location_exact(e) by {
        assert(storage.location_exact(e));
    }
    assert forall|b: int, offset: int|
        0 <= b < undone.blocks.len() && 0 <= offset < undone.blocks[b].edge_counter implies
        #[trigger] undone.slot_recorded(b, offset) by {
        assert(storage.slot_recorded(b, offset));
    }
}

/// Taking a change back keeps the storage well formed and its map of locations exact.
pub proof fn lemma_undo_keeps_index(
    storage: StorageModel,
    op: Undo,
    old_ts: Timestamp,
    txn_id: Timestamp,
)
    requires
        storage.wf(),
        storage.indexed(),
        storage.can_undo(op),
    ensures
        storage.change_undone(op, old_ts, txn_id).wf(),
        storage.change_undone(op, old_ts, txn_id).indexed(),
{
    let after = storage.change_undone(op, old_ts, txn_id);
    match op {
        Undo::Create { eid, .. } => {
            if let Some(location) = storage.marked(eid, txn_id) {
                removal_keeps_index(storage, location, eid);
                assert(storage.blocks[location.0 as int].wf());
                lemma_removed_versions(
                    storage.columns,
                    after.columns,
                    location.0,
                    location.1 as int,
                    storage.blocks[location.0 as int].edge_counter,
                    0,
                    (0, 0),
                );
            }
        },
        Undo::Delete { eid } => {
            lemma_undo_delete_indexed(storage, eid, txn_id);
        },
        Undo::SetProps { eid, indices, .. } => {
            if let Some(location) = storage.located(eid) {
                assert(storage.blocks[location.0 as int].wf());
                lemma_reverted_versions(
                    storage.columns,
                    location,
                    indices,
                    txn_id,
                    old_ts,
                    indices.len(),
                    0,
                    (0, 0),
                );
                lemma_same_index(storage, after);
            }
        },
        _ => {},
    }
}

proof fn lemma_delete_undone(
    storage: StorageModel,
    eid: EdgeId,
    txn_id: Timestamp,
)
    requires
        storage.wf(),
        storage.indexed(),
        txn_id.spec_is_txn_id(),
        storage.writable(eid) is Some,
    ensures
        ({
            let location = storage.writable(eid)->0;
            let after = storage.with_writable(eid).edge_buried(eid, location, txn_id);
            let undone = after.change_undone(
                Undo::Delete { eid },
                storage.slot(location).commit_ts,
                txn_id,
            );
            &&& storage.with_writable(eid) == storage
            &&& after.wf()
            &&& after.indexed()
            &&& after.extends(storage)
            &&& undone.wf()
            &&& undone.indexed()
            &&& undone.agrees(storage, txn_id)
            &&& undone.extends(storage)
        }),
{
    exact_map_resolves(storage, eid);
    let location = storage.writable(eid)->0;
    let old_ts = storage.slot(location).commit_ts;
    let after = storage.edge_buried(eid, location, txn_id);
    let stamps = deletion_stamps(storage.deletions, eid);
    assert(storage.blocks[location.0 as int].wf());
    assert(storage.location_exact(eid));
    assert(after.deletions_known()) by {
        assert forall|e: EdgeId|
            (#[trigger] deletion_stamps(after.deletions, e)).len() > 0 implies 0 < e
            < after.edge_id_counter by {
            if e != eid {
                assert(deletion_stamps(storage.deletions, e).len() > 0);
            }
        }
    }
    slot_update_keeps_index(storage, after, location);
    exact_map_resolves(after, eid);
    assert(after.located(eid) == Some(location));
    let undone = after.change_undone(Undo::Delete { eid }, old_ts, txn_id);
    lemma_stamps_pushed(stamps, txn_id);
    lemma_stamps_twice(stamps, txn_id);
    lemma_undo_delete_indexed(after, eid, txn_id);
    assert forall|e: EdgeId| #[trigger] undone.same_deletions(storage, txn_id, e) by {}
    assert forall|i: int| #[trigger] undone.in_use(i) == storage.in_use(i) by {}
    assert forall|i: int, offset: int|
        0 <= offset < undone.in_use(i) implies #[trigger] undone.same_slot(storage, i, offset) by {
        assert(undone.in_use(i) == storage.in_use(i));
        assert(storage.blocks[i].wf());
    }
    assert forall|i: int| undone.in_use(i) > 0 implies #[trigger] undone.same_header(
        storage,
        i,
    ) by {
        assert(undone.in_use(i) == storage.in_use(i));
    }
    assert(undone.columns == storage.columns);
}

// ---------------------------------------------------------------------------------------------
// Agreement survives taking changes back
// ---------------------------------------------------------------------------------------------

proof fn lemma_undo_congruent(
    x: StorageModel,
    y: StorageModel,
    op: Undo,
    old_ts: Timestamp,
    txn_id: Timestamp,
)
    requires
        x.wf(),
        y.wf(),
        x.indexed(),
        y.indexed(),
        x.agrees(y, txn_id),
        x.extends(y),
        y.covers(op),
    ensures
        x.can_undo(op),
        ({
            let xu = x.change_undone(op, old_ts, txn_id);
            let yu = y.change_undone(op, old_ts, txn_id);
            xu.wf() && xu.indexed() && yu.wf() && yu.indexed() && xu.agrees(yu, txn_id)
                && xu.extends(yu)
        }),
{
    let xu = x.change_undone(op, old_ts, txn_id);
    let yu = y.change_undone(op, old_ts, txn_id);
    match op {
        Undo::Create { eid, .. } => {
            lemma_agrees_located(x, y, txn_id, eid);
            if let Some(location) = x.marked(eid, txn_id) {
                lemma_removal_congruent(x, y, location, eid, txn_id);
            }
        },
        Undo::Delete { eid } => {
            lemma_undo_delete_indexed(x, eid, txn_id);
            lemma_undo_delete_indexed(y, eid, txn_id);
            assert(x.same_deletions(y, txn_id, eid));
            lemma_stamps_twice(deletion_stamps(x.deletions, eid), txn_id);
            lemma_stamps_twice(deletion_stamps(y.deletions, eid), txn_id);
            assert forall|e: EdgeId| #[trigger] xu.same_deletions(yu, txn_id, e) by {
                assert(x.same_deletions(y, txn_id, e));
            }
            lemma_same_blocks_agree(x, y, xu, yu, txn_id);
        },
        Undo::SetProps { eid, indices, .. } => {
            lemma_agrees_located(x, y, txn_id, eid);
            if let Some(location) = x.located(eid) {
                assert(x.blocks[location.0 as int].wf());
                assert forall|m: int|
                    0 <= m < indices.len() && (#[trigger] indices[m] as int)
                        < x.columns.len() implies x.columns[indices[m] as int].len()
                    >= location.0 by {
                    assert(y.columns[indices[m] as int].len() >= location.0);
                    assert(x.columns[indices[m] as int].len() >= y.columns[indices[m] as int].len());
                }
                assert forall|c: int, l: (usize, usize)|
                    l.1 < x.in_use(l.0 as int) implies #[trigger] xu.same_versions(
                    yu,
                    txn_id,
                    c,
                    l,
                ) by {
                    assert(x.in_use(l.0 as int) == y.in_use(l.0 as int));
                    assert(x.blocks[l.0 as int].wf());
                    assert(x.same_versions(y, txn_id, c, l));
                    lemma_reverted_versions(
                        x.columns,
                        location,
                        indices,
                        txn_id,
                        old_ts,
                        indices.len(),
                        c,
                        l,
                    );
                    lemma_reverted_versions(
                        y.columns,
                        location,
                        indices,
                        txn_id,
                        old_ts,
                        indices.len(),
                        c,
                        l,
                    );
                }
                lemma_reverted_versions(
                    x.columns,
                    location,
                    indices,
                    txn_id,
                    old_ts,
                    indices.len(),
                    0,
                    (0, 0),
                );
                lemma_reverted_versions(
                    y.columns,
                    location,
                    indices,
                    txn_id,
                    old_ts,
                    indices.len(),
                    0,
                    (0, 0),
                );
                assert forall|e: EdgeId| #[trigger] xu.same_deletions(yu, txn_id, e) by {
                    assert(x.same_deletions(y, txn_id, e));
                }
                lemma_same_index(x, xu);
                lemma_same_index(y, yu);
                lemma_same_blocks_agree(x, y, xu, yu, txn_id);
                lemma_reverted_extends(
                    x.columns,
                    y.columns,
                    location,
                    indices,
                    txn_id,
                    old_ts,
                    indices.len(),
                );
            }
        },
        _ => {},
    }
}

/// Reverting keeps one set of columns at least as long as the other.
proof fn lemma_reverted_extends(
    x: Seq<ColumnModel>,
    y: Seq<ColumnModel>,
    location: (usize, usize),
    indices: Seq<usize>,
    txn_id: Timestamp,
    old_ts: Timestamp,
    k: nat,
)
    requires
        x.len() >= y.len(),
        forall|c: int| 0 <= c < y.len() ==> (#[trigger] x[c]).len() >= y[c].len(),
        k <= indices.len(),
        columns_wf(x),
        columns_wf(y),
        location.1 < BLOCK_CAPACITY,
        forall|m: int|
            0 <= m < indices.len() ==> (#[trigger] indices[m] as int) < y.len()
                && y[indices[m] as int].len() >= location.0,
    ensures
        ({
            let xr = columns_reverted(x, location, indices, txn_id, old_ts, k);
            let yr = columns_reverted(y, location, indices, txn_id, old_ts, k);
            &&& xr.len() == x.len()
            &&& yr.len() == y.len()
            &&& forall|c: int| 0 <= c < y.len() ==> (#[trigger] xr[c]).len() >= yr[c].len()
        }),
    decreases k,
{
    if k > 0 {
        lemma_reverted_extends(x, y, location, indices, txn_id, old_ts, (k - 1) as nat);
        let d = indices[k - 1] as int;
        assert(y[indices[k - 1] as int].len() >= location.0);
        assert forall|m: int|
            0 <= m < indices.len() && (#[trigger] indices[m] as int)
                < x.len() implies x[indices[m] as int].len() >= location.0 by {
            assert(y[indices[m] as int].len() >= location.0);
            assert(x[indices[m] as int].len() >= y[indices[m] as int].len());
        }
        lemma_reverted_versions(
            x,
            location,
            indices,
            txn_id,
            old_ts,
            (k - 1) as nat,
            0,
            (0, 0),
        );
        lemma_reverted_versions(
            y,
            location,
            indices,
            txn_id,
            old_ts,
            (k - 1) as nat,
            0,
            (0, 0),
        );
        let xb = columns_reverted(x, location, indices, txn_id, old_ts, (k - 1) as nat);
        let yb = columns_reverted(y, location, indices, txn_id, old_ts, (k - 1) as nat);
        assert(xb[d].len() >= yb[d].len());
        assert(yb[d].len() >= y[d].len());
        let xr = columns_reverted(x, location, indices, txn_id, old_ts, k);
        let yr = columns_reverted(y, location, indices, txn_id, old_ts, k);
        assert forall|c: int| 0 <= c < y.len() implies (#[trigger] xr[c]).len()
            >= yr[c].len() by {
            assert(xb[c].len() >= yb[c].len());
        }
    }
}

/// What leaves blocks, map and deletions as they are keeps the map exact.
pub proof fn lemma_same_index(x: StorageModel, xu: StorageModel)
    requires
        x.indexed(),
        xu.blocks == x.blocks,
        xu.locations == x.locations,
        xu.edge_id_counter == x.edge_id_counter,
        xu.deletions == x.deletions,
    ensures
        xu.indexed(),
{
    assert forall|e: EdgeId| #[trigger] xu.locations.dom().contains(e) implies xu.location_exact(
        e,
    ) by {
        assert(x.location_exact(e));
    }
    assert forall|b: int, offset: int|
        0 <= b < xu.blocks.len() && 0 <= offset < xu.blocks[b].edge_counter implies
        #[trigger] xu.slot_recorded(b, offset) by {
        assert(x.slot_recorded(b, offset));
    }
}

/// Storages in agreement stay so where their blocks and maps stay, and versions and deletions still
/// match.
proof fn lemma_same_blocks_agree(
    x: StorageModel,
    y: StorageModel,
    xu: StorageModel,
    yu: StorageModel,
    txn_id: Timestamp,
)
    requires
        x.agrees(y, txn_id),
        xu.blocks == x.blocks,
        yu.blocks == y.blocks,
        xu.locations == x.locations,
        yu.locations == y.locations,
        forall|c: int, l: (usize, usize)|
            l.1 < x.in_use(l.0 as int) && !(xu.columns == x.columns && yu.columns == y.columns)
                ==> #[trigger] xu.same_versions(yu, txn_id, c, l),
        forall|e: EdgeId| #[trigger] xu.same_deletions(yu, txn_id, e),
    ensures
        xu.agrees(yu, txn_id),
{
    assert forall|i: int| #[trigger] xu.in_use(i) == yu.in_use(i) by {
        assert(x.in_use(i) == y.in_use(i));
    }
    assert forall|i: int, offset: int| 0 <= offset < xu.in_use(i) implies #[trigger] xu.same_slot(
        yu,
        i,
        offset,
    ) by {
        assert(x.in_use(i) == y.in_use(i));
        assert(x.same_slot(y, i, offset));
    }
    assert forall|i: int| xu.in_use(i) > 0 implies #[trigger] xu.same_header(yu, i) by {
        assert(x.in_use(i) == y.in_use(i));
        assert(x.same_header(y, i));
    }
    assert forall|c: int, l: (usize, usize)|
        l.1 < xu.in_use(l.0 as int) implies #[trigger] xu.same_versions(yu, txn_id, c, l) by {
        assert(xu.in_use(l.0 as int) == x.in_use(l.0 as int));
        assert(x.same_versions(y, txn_id, c, l));
    }
}

/// Taking out the same edge keeps two storages in agreement.
proof fn lemma_removal_congruent(
    x: StorageModel,
    y: StorageModel,
    location: (usize, usize),
    eid: EdgeId,
    txn_id: Timestamp,
)
    requires
        x.wf(),
        y.wf(),
        x.indexed(),
        y.indexed(),
        x.agrees(y, txn_id),
        x.extends(y),
        x.holds_at(location, eid),
        y.holds_at(location, eid),
    ensures
        ({
            let xu = x.edge_removed(location, eid);
            let yu = y.edge_removed(location, eid);
            xu.wf() && yu.wf() && xu.indexed() && yu.indexed() && xu.agrees(yu, txn_id)
                && xu.extends(yu)
        }),
{
    let xu = x.edge_removed(location, eid);
    let yu = y.edge_removed(location, eid);
    removal_keeps_index(x, location, eid);
    removal_keeps_index(y, location, eid);
    let b0 = location.0 as int;
    let off = location.1 as int;
    assert(x.in_use(b0) == y.in_use(b0));
    let n = x.blocks[b0].edge_counter;
    assert(x.blocks[b0].wf());
    assert(y.blocks[b0].wf());
    lemma_removed_versions(x.columns, xu.columns, location.0, off, n, 0, (0, 0));
    lemma_removed_versions(y.columns, yu.columns, location.0, off, n, 0, (0, 0));
    assert forall|i: int| #[trigger] xu.in_use(i) == yu.in_use(i) by {
        assert(x.in_use(i) == y.in_use(i));
    }
    assert forall|i: int, offset: int| 0 <= offset < xu.in_use(i) implies #[trigger] xu.same_slot(
        yu,
        i,
        offset,
    ) by {
        assert(x.in_use(i) == y.in_use(i));
        assert(x.blocks[i].wf());
        assert(y.blocks[i].wf());
        assert(x.same_slot(y, i, offset));
        if i == b0 && offset >= off {
            assert(x.same_slot(y, i, offset + 1));
        }
    }
    assert forall|i: int| xu.in_use(i) > 0 implies #[trigger] xu.same_header(yu, i) by {
        assert(x.in_use(i) == y.in_use(i));
        assert(x.same_header(y, i));
    }
    lemma_same_slots_same_map(xu, yu);
    assert forall|e: EdgeId| #[trigger] xu.same_deletions(yu, txn_id, e) by {
        assert(x.same_deletions(y, txn_id, e));
    }
    assert forall|c: int, l: (usize, usize)|
        l.1 < xu.in_use(l.0 as int) implies #[trigger] xu.same_versions(yu, txn_id, c, l) by {
        assert(x.in_use(l.0 as int) == y.in_use(l.0 as int));
        assert(x.blocks[l.0 as int].wf());
        lemma_removed_versions(x.columns, xu.columns, location.0, off, n, c, l);
        lemma_removed_versions(y.columns, yu.columns, location.0, off, n, c, l);
        if l.0 == location.0 && l.1 >= off {
            assert(x.same_versions(y, txn_id, c, (l.0, (l.1 + 1) as usize)));
        } else {
            assert(x.same_versions(y, txn_id, c, l));
        }
    }
    assert forall|c: int| 0 <= c < yu.columns.len() implies (#[trigger] xu.columns[c]).len()
        >= yu.columns[c].len() by {
        assert(x.columns[c].len() >= y.columns[c].len());
    }
}

// ---------------------------------------------------------------------------------------------
// Changes
// ---------------------------------------------------------------------------------------------

/// A change that a transaction makes, with the slot that a new edge gets.
pub enum Change {
    Create { v: int, pos: int, edge: EdgeModel },
    SetProps { eid: EdgeId, indices: Seq<usize>, props: Seq<ScalarValue> },
    Delete { eid: EdgeId },
}

/// The change can be made, leads from one storage to the next, and is recorded by the entry.
pub open spec fn makes(
    change: Change,
    before: StorageModel,
    after: StorageModel,
    entry: (Undo, Timestamp),
    txn_id: Timestamp,
) -> bool {
    match change {
        Change::Create { v, pos, edge } => {
            &&& can_create(before, v, pos, edge, txn_id)
            &&& after == before.edge_created(v, pos, edge, txn_mode(txn_id))
            &&& entry == (
                Undo::Create {
                    eid: before.edge_id_counter,
                    src_id: edge.src_id,
                    dst_id: edge.dst_id,
                    label_id: label_or_one(edge.label_id),
                    properties: Seq::empty(),
                },
                txn_id,
            )
        },
        Change::SetProps { eid, indices, props } => {
            &&& can_set(before, eid, indices, props)
            &&& after == before.with_writable(eid).properties_set(
                before.writable(eid)->0,
                indices,
                props,
                txn_id,
            )
            &&& entry == (
                Undo::SetProps {
                    eid,
                    indices,
                    props: latest_values(
                        before.columns,
                        before.writable(eid)->0,
                        indices,
                    ),
                },
                before.slot(before.writable(eid)->0).commit_ts,
            )
        },
        Change::Delete { eid } => {
            &&& before.writable(eid) is Some
            &&& after == before.with_writable(eid).edge_buried(
                eid,
                before.writable(eid)->0,
                txn_id,
            )
            &&& entry == (
                Undo::Delete { eid },
                before.slot(before.writable(eid)->0).commit_ts,
            )
        },
    }
}

/// A change keeps the storage well formed and its map of locations exact.
pub proof fn changes_keep_index(
    change: Change,
    before: StorageModel,
    after: StorageModel,
    entry: (Undo, Timestamp),
    txn_id: Timestamp,
)
    requires
        before.wf(),
        before.indexed(),
        txn_id.spec_is_txn_id(),
        makes(change, before, after, entry, txn_id),
    ensures
        after.wf(),
        after.indexed(),
{
    match change {
        Change::Create { v, pos, edge } => {
            lemma_created_wf(before, v, pos, edge, txn_id);
        },
        Change::SetProps { eid, indices, props } => {
            lemma_set_wf(before, eid, indices, props, txn_id);
        },
        Change::Delete { eid } => {
            lemma_delete_undone(before, eid, txn_id);
        },
    }
}

/// Taking one change back leads to a storage that agrees with the one before the change.
proof fn lemma_change_undone(
    change: Change,
    before: StorageModel,
    after: StorageModel,
    entry: (Undo, Timestamp),
    txn_id: Timestamp,
)
    requires
        before.wf(),
        before.indexed(),
        txn_id.spec_is_txn_id(),
        makes(change, before, after, entry, txn_id),
    ensures
        after.wf(),
        after.indexed(),
        after.covers(entry.0),
        ({
            let undone = after.change_undone(entry.0, entry.1, txn_id);
            undone.wf() && undone.indexed() && undone.agrees(before, txn_id) && undone.extends(
                before,
            )
        }),
{
    changes_keep_index(change, before, after, entry, txn_id);
    match change {
        Change::Create { v, pos, edge } => {
            lemma_create_undone(
                before,
                v,
                pos,
                edge,
                txn_id,
                label_or_one(edge.label_id),
            );
        },
        Change::SetProps { eid, indices, props } => {
            lemma_set_undone(
                before,
                eid,
                indices,
                props,
                entry.0->SetProps_props,
                txn_id,
            );
        },
        Change::Delete { eid } => {
            lemma_delete_undone(before, eid, txn_id);
        },
    }
}

proof fn lemma_history_indexed(
    history: Seq<StorageModel>,
    changes: Seq<Change>,
    undo: Seq<(Undo, Timestamp)>,
    txn_id: Timestamp,
    k: int,
)
    requires
        history.len() == changes.len() + 1,
        undo.len() == changes.len(),
        txn_id.spec_is_txn_id(),
        history[0].wf(),
        history[0].indexed(),
        forall|i: int|
            0 <= i < changes.len() ==> makes(
                #[trigger] changes[i],
                history[i],
                history[i + 1],
                undo[i],
                txn_id,
            ),
        0 <= k < history.len(),
    ensures
        history[k].wf(),
        history[k].indexed(),
    decreases k,
{
    if k > 0 {
        lemma_history_indexed(history, changes, undo, txn_id, k - 1);
        assert(makes(changes[k - 1], history[k - 1], history[k], undo[k - 1], txn_id));
        changes_keep_index(
            changes[k - 1],
            history[k - 1],
            history[k],
            undo[k - 1],
            txn_id,
        );
    }
}

/// Taking back the changes from `k` on leads to a storage that agrees with the one at that point.
proof fn lemma_undone_to(
    history: Seq<StorageModel>,
    changes: Seq<Change>,
    undo: Seq<(Undo, Timestamp)>,
    txn_id: Timestamp,
    k: nat,
)
    requires
        history.len() == changes.len() + 1,
        undo.len() == changes.len(),
        txn_id.spec_is_txn_id(),
        history[0].wf(),
        history[0].indexed(),
        forall|i: int|
            0 <= i < changes.len() ==> makes(
                #[trigger] changes[i],
                history[i],
                history[i + 1],
                undo[i],
                txn_id,
            ),
        k < history.len(),
    ensures
        ({
            let undone = history.last().changes_undone(undo, txn_id, k);
            &&& undone.wf()
            &&& undone.indexed()
            &&& undone.agrees(history[k as int], txn_id)
            &&& undone.extends(history[k as int])
        }),
        k < changes.len() ==> history.last().changes_undone(
            undo,
            txn_id,
            k + 1,
        ).can_undo(undo[k as int].0),
    decreases history.len() - k,
{
    let end = history.last();
    lemma_history_indexed(history, changes, undo, txn_id, k as int);
    if k < changes.len() {
        lemma_undone_to(history, changes, undo, txn_id, k + 1);
        let x = end.changes_undone(undo, txn_id, k + 1);
        let y = history[(k + 1) as int];
        let entry = undo[k as int];
        assert(makes(changes[k as int], history[k as int], y, entry, txn_id));
        lemma_change_undone(changes[k as int], history[k as int], y, entry, txn_id);
        lemma_undo_congruent(x, y, entry.0, entry.1, txn_id);
        let xu = x.change_undone(entry.0, entry.1, txn_id);
        let yu = y.change_undone(entry.0, entry.1, txn_id);
        lemma_agrees_trans(xu, yu, history[k as int], txn_id);
        lemma_extends_trans(xu, yu, history[k as int]);
        assert(end.changes_undone(undo, txn_id, k) == xu);
    }
}

// ---------------------------------------------------------------------------------------------
// Every mark is accounted for
// ---------------------------------------------------------------------------------------------

/// The change wrote the property of the edge.
pub open spec fn wrote(op: Undo, eid: EdgeId, c: int) -> bool {
    match op {
        Undo::Create { eid: created, .. } => created == eid,
        Undo::SetProps { eid: written, indices, .. } => written == eid && last_write(
            indices,
            c,
            indices.len() as int,
        ) is Some,
        _ => false,
    }
}

/// One of the first `k` changes wrote the property of the edge.
pub open spec fn some_wrote(undo: Seq<(Undo, Timestamp)>, k: int, eid: EdgeId, c: int) -> bool {
    exists|j: int| 0 <= j < k && wrote((#[trigger] undo[j]).0, eid, c)
}

/// One of the first `k` changes deleted the edge.
pub open spec fn some_deleted(undo: Seq<(Undo, Timestamp)>, k: int, eid: EdgeId) -> bool {
    exists|j: int| 0 <= j < k && (#[trigger] undo[j]).0 == (Undo::Delete { eid })
}

impl StorageModel {
    /// No version of a property in a slot is the transaction's.
    pub open spec fn versions_free(
        self,
        txn_id: Timestamp,
        c: int,
        location: (usize, usize),
    ) -> bool {
        without_txn(versions_at(self.columns, c, location), txn_id) == versions_at(
            self.columns,
            c,
            location,
        )
    }

    /// No deletion of the edge is the transaction's.
    pub open spec fn deletions_free(self, txn_id: Timestamp, eid: EdgeId) -> bool {
        stamps_without(deletion_stamps(self.deletions, eid), txn_id) == deletion_stamps(
            self.deletions,
            eid,
        )
    }

    /// The transaction has written no property and deleted no edge.
    pub open spec fn free_of(self, txn_id: Timestamp) -> bool {
        &&& forall|c: int, location: (usize, usize)|
            location.1 < self.in_use(location.0 as int) ==> #[trigger] self.versions_free(
                txn_id,
                c,
                location,
            )
        &&& forall|eid: EdgeId| #[trigger] self.deletions_free(txn_id, eid)
    }

    /// What the transaction has written is recorded among the first `k` entries.
    pub open spec fn accounted(
        self,
        undo: Seq<(Undo, Timestamp)>,
        k: int,
        txn_id: Timestamp,
    ) -> bool {
        &&& forall|c: int, location: (usize, usize)|
            location.1 < self.in_use(location.0 as int) ==> #[trigger] self.versions_free(
                txn_id,
                c,
                location,
            ) || some_wrote(undo, k, self.slot(location).eid, c)
        &&& forall|eid: EdgeId| #[trigger]
            self.deletions_free(txn_id, eid) || some_deleted(undo, k, eid)
    }

    /// Two storages hold the same edges in the same slots, with the same properties and deletions.
    pub open spec fn equals(self, other: StorageModel) -> bool {
        &&& self.locations == other.locations
        &&& forall|b: int| #[trigger] self.in_use(b) == other.in_use(b)
        &&& forall|b: int, offset: int|
            0 <= offset < self.in_use(b) ==> #[trigger] self.same_slot(other, b, offset)
        &&& forall|b: int| self.in_use(b) > 0 ==> #[trigger] self.same_header(other, b)
        &&& forall|c: int, location: (usize, usize)|
            location.1 < self.in_use(location.0 as int) ==> #[trigger] versions_at(
                self.columns,
                c,
                location,
            ) == versions_at(other.columns, c, location)
        &&& forall|eid: EdgeId| #[trigger]
            deletion_stamps(self.deletions, eid) == deletion_stamps(other.deletions, eid)
    }
}

pub proof fn lemma_some_wrote_more(undo: Seq<(Undo, Timestamp)>, k: int, eid: EdgeId, c: int)
    requires
        0 <= k < undo.len(),
    ensures
        some_wrote(undo, k + 1, eid, c) == (some_wrote(undo, k, eid, c) || wrote(
            undo[k].0,
            eid,
            c,
        )),
        some_deleted(undo, k + 1, eid) == (some_deleted(undo, k, eid) || undo[k].0 == (
        Undo::Delete { eid })),
{
    if some_wrote(undo, k + 1, eid, c) {
        let j = choose|j: int| 0 <= j < k + 1 && wrote((#[trigger] undo[j]).0, eid, c);
        assert(j == k || some_wrote(undo, k, eid, c));
    }
    if some_wrote(undo, k, eid, c) {
        let j = choose|j: int| 0 <= j < k && wrote((#[trigger] undo[j]).0, eid, c);
        assert(wrote(undo[j].0, eid, c));
    }
    if wrote(undo[k].0, eid, c) {
        assert(some_wrote(undo, k + 1, eid, c));
    }
    if some_deleted(undo, k + 1, eid) {
        let j = choose|j: int| 0 <= j < k + 1 && (#[trigger] undo[j]).0 == (Undo::Delete { eid });
        assert(j == k || some_deleted(undo, k, eid));
    }
    if some_deleted(undo, k, eid) {
        let j = choose|j: int| 0 <= j < k && (#[trigger] undo[j]).0 == (Undo::Delete { eid });
        assert(undo[j].0 == (Undo::Delete { eid }));
    }
    if undo[k].0 == (Undo::Delete { eid }) {
        assert(some_deleted(undo, k + 1, eid));
    }
}

/// A change adds marks only where its entry says so.
proof fn lemma_change_accounted(
    change: Change,
    before: StorageModel,
    after: StorageModel,
    undo: Seq<(Undo, Timestamp)>,
    k: int,
    txn_id: Timestamp,
)
    requires
        before.wf(),
        before.indexed(),
        txn_id.spec_is_txn_id(),
        0 <= k < undo.len(),
        makes(change, before, after, undo[k], txn_id),
        before.accounted(undo, k, txn_id),
    ensures
        after.accounted(undo, k + 1, txn_id),
{
    changes_keep_index(change, before, after, undo[k], txn_id);
    assert forall|eid: EdgeId| #[trigger] after.deletions_free(txn_id, eid) || some_deleted(
        undo,
        k + 1,
        eid,
    ) by {
        lemma_some_wrote_more(undo, k, eid, 0);
        assert(before.deletions_free(txn_id, eid) || some_deleted(undo, k, eid));
    }
    assert forall|c: int, l: (usize, usize)|
        l.1 < after.in_use(l.0 as int) implies #[trigger] after.versions_free(txn_id, c, l)
        || some_wrote(undo, k + 1, after.slot(l).eid, c) by {
        lemma_some_wrote_more(undo, k, after.slot(l).eid, c);
        assert(after.blocks[l.0 as int].wf());
        match change {
            Change::Create { v, pos, edge } => {
                lemma_created_slot(before, v, pos, edge, txn_id, c, l);
                let opened = before.block_opened(v, edge.src_id, txn_mode(txn_id));
                let b = opened.vertices[v].block_offset;
                if !(l.0 == b && l.1 == pos) {
                    let from = if l.0 == b && l.1 > pos {
                        (l.0, (l.1 - 1) as usize)
                    } else {
                        l
                    };
                    assert(before.versions_free(txn_id, c, from) || some_wrote(
                        undo,
                        k,
                        before.slot(from).eid,
                        c,
                    ));
                }
            },
            Change::SetProps { eid, indices, props } => {
                lemma_set_wf(before, eid, indices, props, txn_id);
                let location = before.writable(eid)->0;
                assert(before.blocks[location.0 as int].wf());
                lemma_written_newest(
                    before.columns,
                    location,
                    indices,
                    props,
                    txn_id,
                    indices.len(),
                    c,
                    l,
                );
                assert(before.versions_free(txn_id, c, l) || some_wrote(
                    undo,
                    k,
                    before.slot(l).eid,
                    c,
                ));
            },
            Change::Delete { eid } => {
                exact_map_resolves(before, eid);
                assert(before.versions_free(txn_id, c, l) || some_wrote(
                    undo,
                    k,
                    before.slot(l).eid,
                    c,
                ));
            },
        }
    }
}

/// Where the edge in a slot, and its versions, were before an edge was inserted.
pub proof fn lemma_created_slot(
    storage: StorageModel,
    v: int,
    pos: int,
    edge: EdgeModel,
    txn_id: Timestamp,
    c: int,
    l: (usize, usize),
)
    requires
        storage.wf(),
        storage.indexed(),
        can_create(storage, v, pos, edge, txn_id),
        l.1 < storage.edge_created(v, pos, edge, txn_mode(txn_id)).in_use(l.0 as int),
    ensures
        ({
            let after = storage.edge_created(v, pos, edge, txn_mode(txn_id));
            let opened = storage.block_opened(v, edge.src_id, txn_mode(txn_id));
            let b = opened.vertices[v].block_offset;
            let from = if l.0 == b && l.1 > pos {
                (l.0, (l.1 - 1) as usize)
            } else {
                l
            };
            if l.0 == b && l.1 == pos {
                after.slot(l).eid == storage.edge_id_counter
            } else {
                &&& from.1 < storage.in_use(from.0 as int)
                &&& after.slot(l) == storage.slot(from)
                &&& after.same_header(storage, l.0 as int)
                &&& versions_at(after.columns, c, l) == versions_at(storage.columns, c, from)
            }
        }),
{
    let mode = txn_mode(txn_id);
    let opened = storage.block_opened(v, edge.src_id, mode);
    let after = storage.edge_created(v, pos, edge, mode);
    lemma_created_wf(storage, v, pos, edge, txn_id);
    let b = opened.vertices[v].block_offset;
    let block = opened.blocks[b as int];
    assert(block.wf()) by {
        if b < storage.blocks.len() {
            assert(storage.blocks[b as int].wf());
        }
    }
    let n = block.edge_counter;
    assert(after.blocks[l.0 as int].wf());
    let from = if l.0 == b && l.1 > pos {
        (l.0, (l.1 - 1) as usize)
    } else {
        l
    };
    let columns = columns_extended(storage.columns, edge.properties.len() as int);
    lemma_extended_versions(storage.columns, edge.properties.len() as int, c, from);
    lemma_inserted_versions(
        columns,
        after.columns,
        b,
        pos,
        n,
        edge.properties,
        mode,
        c,
        l,
    );
    if l.0 != b {
        assert(after.blocks[l.0 as int] == opened.blocks[l.0 as int]);
    }
}

/// Taking a change back leaves no mark that only its entry accounted for.
proof fn lemma_undone_accounted(
    storage: StorageModel,
    undo: Seq<(Undo, Timestamp)>,
    k: int,
    txn_id: Timestamp,
)
    requires
        storage.wf(),
        storage.indexed(),
        0 <= k < undo.len(),
        storage.can_undo(undo[k].0),
        undo[k].0 matches Undo::Create { eid, .. } ==> storage.marked(eid, txn_id) is Some,
        storage.accounted(undo, k + 1, txn_id),
    ensures
        storage.change_undone(undo[k].0, undo[k].1, txn_id).accounted(undo, k, txn_id),
{
    let op = undo[k].0;
    let undone = storage.change_undone(op, undo[k].1, txn_id);
    assert forall|eid: EdgeId| #[trigger] undone.deletions_free(txn_id, eid) || some_deleted(
        undo,
        k,
        eid,
    ) by {
        lemma_some_wrote_more(undo, k, eid, 0);
        assert(storage.deletions_free(txn_id, eid) || some_deleted(undo, k + 1, eid));
        lemma_stamps_twice(deletion_stamps(storage.deletions, eid), txn_id);
    }
    assert forall|c: int, l: (usize, usize)|
        l.1 < undone.in_use(l.0 as int) implies #[trigger] undone.versions_free(txn_id, c, l)
        || some_wrote(undo, k, undone.slot(l).eid, c) by {
        match op {
            Undo::Create { eid, .. } => {
                let location = storage.marked(eid, txn_id)->0;
                lemma_removed_slot(storage, location, eid, c, l);
                let from = if l.0 == location.0 && l.1 >= location.1 {
                    (l.0, (l.1 + 1) as usize)
                } else {
                    l
                };
                assert(storage.versions_free(txn_id, c, from) || some_wrote(
                    undo,
                    k + 1,
                    storage.slot(from).eid,
                    c,
                ));
                lemma_some_wrote_more(undo, k, storage.slot(from).eid, c);
            },
            Undo::SetProps { eid, indices, .. } => {
                lemma_some_wrote_more(undo, k, storage.slot(l).eid, c);
                assert(storage.versions_free(txn_id, c, l) || some_wrote(
                    undo,
                    k + 1,
                    storage.slot(l).eid,
                    c,
                ));
                assert(storage.blocks[l.0 as int].wf());
                assert(storage.slot_recorded(l.0 as int, l.1 as int));
                exact_map_resolves(storage, eid);
                if let Some(location) = storage.located(eid) {
                    assert(storage.blocks[location.0 as int].wf());
                    lemma_reverted_versions(
                        storage.columns,
                        location,
                        indices,
                        txn_id,
                        undo[k].1,
                        indices.len(),
                        c,
                        l,
                    );
                    lemma_without_twice(versions_at(storage.columns, c, l), txn_id);
                }
            },
            _ => {
                lemma_some_wrote_more(undo, k, storage.slot(l).eid, c);
                assert(storage.versions_free(txn_id, c, l) || some_wrote(
                    undo,
                    k + 1,
                    storage.slot(l).eid,
                    c,
                ));
            },
        }
    }
}

/// Where the edge in a slot, and its versions, were before an edge was taken out.
pub proof fn lemma_removed_slot(
    storage: StorageModel,
    location: (usize, usize),
    eid: EdgeId,
    c: int,
    l: (usize, usize),
)
    requires
        storage.wf(),
        storage.indexed(),
        storage.holds_at(location, eid),
        l.1 < storage.edge_removed(location, eid).in_use(l.0 as int),
    ensures
        ({
            let after = storage.edge_removed(location, eid);
            let from = if l.0 == location.0 && l.1 >= location.1 {
                (l.0, (l.1 + 1) as usize)
            } else {
                l
            };
            &&& from.1 < storage.in_use(from.0 as int)
            &&& after.slot(l) == storage.slot(from)
            &&& after.same_header(storage, l.0 as int)
            &&& versions_at(after.columns, c, l) == versions_at(storage.columns, c, from)
            &&& storage.slot(from).eid != eid
        }),
{
    let after = storage.edge_removed(location, eid);
    let b = location.0 as int;
    assert(storage.blocks[b].wf());
    assert(storage.blocks[l.0 as int].wf());
    let n = storage.blocks[b].edge_counter;
    let from = if l.0 == location.0 && l.1 >= location.1 {
        (l.0, (l.1 + 1) as usize)
    } else {
        l
    };
    lemma_removed_versions(
        storage.columns,
        after.columns,
        location.0,
        location.1 as int,
        n,
        c,
        l,
    );
    assert(storage.slot_recorded(b, location.1 as int));
    assert(storage.slot_recorded(from.0 as int, from.1 as int));
}

// ---------------------------------------------------------------------------------------------
// The laws
// ---------------------------------------------------------------------------------------------

/// A transaction made these changes, one after the other, and nobody else wrote in between.
pub open spec fn made_alone(
    history: Seq<StorageModel>,
    changes: Seq<Change>,
    undo: Seq<(Undo, Timestamp)>,
    txn_id: Timestamp,
) -> bool {
    &&& history.len() == changes.len() + 1
    &&& undo.len() == changes.len()
    &&& forall|i: int|
        0 <= i < changes.len() ==> makes(
            #[trigger] changes[i],
            history[i],
            history[i + 1],
            undo[i],
            txn_id,
        )
}

proof fn lemma_history_accounted(
    history: Seq<StorageModel>,
    changes: Seq<Change>,
    undo: Seq<(Undo, Timestamp)>,
    txn_id: Timestamp,
    k: int,
)
    requires
        made_alone(history, changes, undo, txn_id),
        txn_id.spec_is_txn_id(),
        history[0].wf(),
        history[0].indexed(),
        history[0].free_of(txn_id),
        0 <= k < history.len(),
    ensures
        history[k].accounted(undo, k, txn_id),
        history[k].edge_id_counter >= history[0].edge_id_counter,
    decreases k,
{
    if k > 0 {
        lemma_history_accounted(history, changes, undo, txn_id, k - 1);
        lemma_history_indexed(history, changes, undo, txn_id, k - 1);
        assert(makes(changes[k - 1], history[k - 1], history[k], undo[k - 1], txn_id));
        lemma_change_accounted(
            changes[k - 1],
            history[k - 1],
            history[k],
            undo,
            k - 1,
            txn_id,
        );
        match changes[k - 1] {
            Change::Create { v, pos, edge } => {},
            Change::SetProps { eid, indices, props } => {
                exact_map_resolves(history[k - 1], eid);
            },
            Change::Delete { eid } => {
                exact_map_resolves(history[k - 1], eid);
            },
        }
    }
}

proof fn lemma_undone_free(
    history: Seq<StorageModel>,
    changes: Seq<Change>,
    undo: Seq<(Undo, Timestamp)>,
    txn_id: Timestamp,
    k: nat,
)
    requires
        made_alone(history, changes, undo, txn_id),
        txn_id.spec_is_txn_id(),
        history[0].wf(),
        history[0].indexed(),
        history[0].free_of(txn_id),
        k < history.len(),
    ensures
        history.last().changes_undone(undo, txn_id, k).accounted(undo, k as int, txn_id),
    decreases history.len() - k,
{
    let end = history.last();
    if k < changes.len() {
        lemma_undone_free(history, changes, undo, txn_id, k + 1);
        lemma_undone_to(history, changes, undo, txn_id, k + 1);
        lemma_undone_to(history, changes, undo, txn_id, k);
        lemma_history_indexed(history, changes, undo, txn_id, k as int);
        lemma_history_indexed(history, changes, undo, txn_id, (k + 1) as int);
        let x = end.changes_undone(undo, txn_id, k + 1);
        let y = history[(k + 1) as int];
        assert(makes(changes[k as int], history[k as int], y, undo[k as int], txn_id));
        if let Undo::Create { eid, .. } = undo[k as int].0 {
            lemma_agrees_located(x, y, txn_id, eid);
            lemma_created_marked(changes[k as int], history[k as int], y, undo[k as int], txn_id);
        }
        lemma_undone_accounted(x, undo, k as int, txn_id);
    } else {
        lemma_history_accounted(history, changes, undo, txn_id, k as int);
    }
}

/// An edge that a transaction has just created carries its mark.
proof fn lemma_created_marked(
    change: Change,
    before: StorageModel,
    after: StorageModel,
    entry: (Undo, Timestamp),
    txn_id: Timestamp,
)
    requires
        before.wf(),
        before.indexed(),
        txn_id.spec_is_txn_id(),
        makes(change, before, after, entry, txn_id),
    ensures
        entry.0 matches Undo::Create { eid, .. } ==> after.marked(eid, txn_id) is Some && eid
            == before.edge_id_counter,
{
    if let Change::Create { v, pos, edge } = change {
        changes_keep_index(change, before, after, entry, txn_id);
        let opened = before.block_opened(v, edge.src_id, txn_mode(txn_id));
        let b = opened.vertices[v].block_offset as int;
        assert(opened.blocks[b].wf()) by {
            if b < before.blocks.len() {
                assert(before.blocks[b].wf());
            }
        }
        assert(after.blocks[b].edges[pos].eid == before.edge_id_counter);
        assert(after.slot_recorded(b, pos));
    }
}

/// After any sequence of changes, the transaction can be aborted, and the storage then equals the
/// one in which the transaction began: the same edges in the same slots, the same map of locations,
/// the same properties and deletions. Edges that the transaction created are gone.
pub proof fn abort_restores(
    history: Seq<StorageModel>,
    changes: Seq<Change>,
    undo: Seq<(Undo, Timestamp)>,
    txn_id: Timestamp,
)
    requires
        made_alone(history, changes, undo, txn_id),
        txn_id.spec_is_txn_id(),
        history[0].wf(),
        history[0].indexed(),
        history[0].free_of(txn_id),
    ensures
        history.last().can_undo_all(undo, txn_id),
        ({
            let restored = history.last().changes_undone(undo, txn_id, 0);
            &&& restored.equals(history[0])
            &&& restored.wf()
            &&& restored.indexed()
            &&& forall|i: int|
                0 <= i < undo.len() ==> ((#[trigger] undo[i]).0 matches Undo::Create { eid, .. }
                    ==> restored.located(eid) is None)
        }),
{
    let start = history[0];
    let restored = history.last().changes_undone(undo, txn_id, 0);
    lemma_undone_to(history, changes, undo, txn_id, 0);
    assert forall|k: nat| k < undo.len() implies (#[trigger] history.last().changes_undone(
        undo,
        txn_id,
        k + 1,
    )).can_undo(undo[k as int].0) by {
        lemma_undone_to(history, changes, undo, txn_id, k);
    }
    lemma_undone_free(history, changes, undo, txn_id, 0);
    assert forall|c: int, location: (usize, usize)|
        location.1 < restored.in_use(location.0 as int) implies #[trigger] versions_at(
        restored.columns,
        c,
        location,
    ) == versions_at(start.columns, c, location) by {
        assert(restored.in_use(location.0 as int) == start.in_use(location.0 as int));
        assert(restored.same_versions(start, txn_id, c, location));
        assert(restored.versions_free(txn_id, c, location));
        assert(start.versions_free(txn_id, c, location));
    }
    assert forall|eid: EdgeId| #[trigger] deletion_stamps(restored.deletions, eid)
        == deletion_stamps(start.deletions, eid) by {
        assert(restored.same_deletions(start, txn_id, eid));
        assert(restored.deletions_free(txn_id, eid));
        assert(start.deletions_free(txn_id, eid));
    }
    assert forall|i: int| 0 <= i < undo.len() implies ((#[trigger] undo[i]).0 matches Undo::Create {
        eid,
        ..
    } ==> restored.located(eid) is None) by {
        if let Undo::Create { eid, .. } = undo[i].0 {
            lemma_history_accounted(history, changes, undo, txn_id, i);
            lemma_history_indexed(history, changes, undo, txn_id, i);
            assert(makes(changes[i], history[i], history[i + 1], undo[i], txn_id));
            lemma_created_marked(changes[i], history[i], history[i + 1], undo[i], txn_id);
            exact_map_resolves(restored, eid);
            if start.locations.dom().contains(eid) {
                assert(start.location_exact(eid));
            }
        }
    }
}

/// Aborting a transaction a second time changes nothing: nothing is left to take back.
pub proof fn second_abort_changes_nothing(storage: StorageModel, txn: TxnModel)
    ensures
        txn.cleared().undo == Seq::<(Undo, Timestamp)>::empty(),
        storage.can_undo_all(txn.cleared().undo, txn.txn_id),
        storage.changes_undone(txn.cleared().undo, txn.txn_id, 0) == storage,
        txn.cleared().cleared() == txn.cleared(),
{
}

} // verus!
