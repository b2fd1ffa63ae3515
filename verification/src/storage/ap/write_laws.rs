//! What single operations leave behind: laws over slots, bounds, stamps and positions.

use vstd::prelude::*;
use crate::common::types::{EdgeId, LabelId, VertexId};
use crate::common::value::ScalarValue;
use crate::storage::ap::abort_laws::lemma_removed_slot;
use crate::storage::ap::compress::{compressed_block, shown_block};
use crate::storage::ap::index_laws::{exact_map_resolves, removal_keeps_index};
use crate::storage::ap::model::{
    deletion_stamps, key_less, promoted, sees, stamps_promoted, stamps_without, versions_at,
    without_txn, BlockModel, Deletions, EdgeModel, PropBlockModel, Reader, StorageModel, TxnModel,
    Undo, Versions, WriteMode,
};
use crate::storage::ap::olap_graph::{
    edge_deletion, edge_position, plain_mode, property_write, txn_mode,
};
use crate::storage::ap::transaction::commit_choice;
use crate::storage::ap::types::{OlapStorageEdge, PropertyVersion, BLOCK_CAPACITY};
use crate::storage::ap::writes::{chain_buried, properties_replaced};
use crate::transaction::{Timestamp, TimestampError, TimestampGenerator};

verus! {

// ---------------------------------------------------------------------------------------------
// Order and bounds of a block
// ---------------------------------------------------------------------------------------------

/// A label does not come after another: no label comes before every label, and labels come in the
/// order of their numbers.
pub open spec fn label_not_after(a: Option<LabelId>, b: Option<LabelId>) -> bool {
    match (a, b) {
        (None, _) => true,
        (Some(_), None) => false,
        (Some(x), Some(y)) => x.raw <= y.raw,
    }
}

/// The edges of a block in order ascend by destination, and those to the same destination by label.
pub proof fn blocks_ascend(block: BlockModel, i: int, j: int)
    requires
        block.sorted(),
        0 <= i < j < block.edge_counter,
    ensures
        block.edges[i].dst_id <= block.edges[j].dst_id,
        block.edges[i].dst_id == block.edges[j].dst_id ==> label_not_after(
            block.edges[i].label_id,
            block.edges[j].label_id,
        ),
{
    assert(!key_less(
        block.edges[j].dst_id,
        block.edges[j].label_id,
        block.edges[i].dst_id,
        block.edges[i].label_id,
    ));
}

/// Where the edges of a block ascend by destination and label, the block is in order.
pub proof fn ascending_blocks_are_in_order(block: BlockModel)
    requires
        forall|i: int, j: int|
            0 <= i < j < block.edge_counter ==> (#[trigger] block.edges[i]).dst_id < (
            #[trigger] block.edges[j]).dst_id || (block.edges[i].dst_id == block.edges[j].dst_id
                && label_not_after(block.edges[i].label_id, block.edges[j].label_id)),
    ensures
        block.sorted(),
{
    assert forall|i: int, j: int| 0 <= i < j < block.edge_counter implies
        !#[trigger] key_less(
        block.edges[j].dst_id,
        block.edges[j].label_id,
        block.edges[i].dst_id,
        block.edges[i].label_id,
    ) by {
        let a = block.edges[i];
        let b = block.edges[j];
    }
}

/// A new edge goes where the edges before it are no greater and those from there on no smaller, by
/// destination and then by label.
pub proof fn new_edges_go_between_their_neighbors(
    block: BlockModel,
    pos: int,
    dst_id: VertexId,
    label_id: Option<LabelId>,
)
    requires
        block.is_slot_for(pos, dst_id, label_id),
    ensures
        0 <= pos <= block.edge_counter,
        pos > 0 ==> block.edges[pos - 1].dst_id <= dst_id,
        pos > 0 && block.edges[pos - 1].dst_id == dst_id ==> !label_not_after(
            label_id,
            block.edges[pos - 1].label_id,
        ),
        pos < block.edge_counter ==> dst_id <= block.edges[pos].dst_id,
        pos < block.edge_counter && block.edges[pos].dst_id == dst_id ==> label_not_after(
            label_id,
            block.edges[pos].label_id,
        ),
{
}

/// A slot that is inserted moves those from its place on by one, and nothing else; one that is
/// taken out moves those behind it back by one and leaves an unused slot.
pub proof fn slots_move_by_one(block: BlockModel, at: int, slot: OlapStorageEdge, i: int)
    requires
        block.wf(),
    ensures
        0 <= at <= block.edge_counter < BLOCK_CAPACITY ==> {
            let after = block.slot_inserted(at, slot);
            &&& after.edge_counter == block.edge_counter + 1
            &&& after.edges[at] == slot
            &&& 0 <= i < at ==> after.edges[i] == block.edges[i]
            &&& at <= i < block.edge_counter ==> after.edges[i + 1] == block.edges[i]
            &&& block.edge_counter < i < BLOCK_CAPACITY ==> after.edges[i] == block.edges[i]
            &&& after.src_id == block.src_id && after.pre_block_index == block.pre_block_index
            &&& block.edge_counter > 0 ==> after.is_tombstone == block.is_tombstone
            &&& block.edge_counter == 0 ==> !after.is_tombstone
        },
        0 <= at < block.edge_counter ==> {
            let after = block.slot_removed(at);
            &&& after.edge_counter == block.edge_counter - 1
            &&& 0 <= i < at ==> after.edges[i] == block.edges[i]
            &&& at < i < block.edge_counter ==> after.edges[i - 1] == block.edges[i]
            &&& after.edges[block.edge_counter - 1].eid == 0
            &&& block.edge_counter <= i < BLOCK_CAPACITY ==> after.edges[i] == block.edges[i]
            &&& after.src_id == block.src_id && after.pre_block_index == block.pre_block_index
            &&& after.is_tombstone == block.is_tombstone
        },
{
}

/// After an edge is taken in, the bounds of its block hold its destination and label, hold what
/// they held before, and are no wider than that.
pub proof fn bounds_take_an_edge_in(
    block: BlockModel,
    dst_id: VertexId,
    label_id: Option<LabelId>,
)
    ensures
        ({
            let after = block.widened(dst_id, label_id);
            &&& after.min_dst_id <= dst_id <= after.max_dst_id
            &&& after.min_dst_id <= block.min_dst_id && block.max_dst_id <= after.max_dst_id
            &&& after.min_dst_id == dst_id || after.min_dst_id == block.min_dst_id
            &&& after.max_dst_id == dst_id || after.max_dst_id == block.max_dst_id
            &&& label_not_after(after.min_label_id, label_id)
            &&& label_not_after(label_id, after.max_label_id)
            &&& label_not_after(after.min_label_id, block.min_label_id)
            &&& label_not_after(block.max_label_id, after.max_label_id)
            &&& after.min_label_id == label_id || after.min_label_id == block.min_label_id
            &&& after.max_label_id == label_id || after.max_label_id == block.max_label_id
            &&& after.edges == block.edges && after.edge_counter == block.edge_counter
            &&& after.min_ts == block.min_ts && after.max_ts == block.max_ts
        }),
{
}

/// The bounds of a block without edges are those of its first edge once it is taken in, where the
/// edge has a label.
pub proof fn first_edge_sets_the_bounds(
    pre: Option<usize>,
    index: usize,
    src_id: VertexId,
    min_ts: Timestamp,
    max_ts: Timestamp,
    dst_id: VertexId,
    label: LabelId,
)
    requires
        label.raw >= 1,
    ensures
        ({
            let block = BlockModel::fresh(pre, index, src_id, min_ts, max_ts);
            let after = block.widened(dst_id, Some(label));
            &&& block.edge_counter == 0 && !block.is_tombstone && block.wf()
            &&& block.src_id == src_id && block.pre_block_index == pre && block.cur_block_index
                == index
            &&& block.min_ts == min_ts && block.max_ts == max_ts
            &&& forall|i: int| 0 <= i < BLOCK_CAPACITY ==> (#[trigger] block.edges[i]).eid == 0
            &&& after.min_dst_id == dst_id && after.max_dst_id == dst_id
            &&& after.min_label_id == Some(label) && after.max_label_id == Some(label)
        }),
{
}

/// After a stamp, the bounds on the timestamps of a block hold it, hold what they held before, and
/// are no wider than that.
pub proof fn bounds_take_a_stamp_in(block: BlockModel, props: PropBlockModel, ts: Timestamp)
    ensures
        ({
            let after = block.stamped(ts);
            &&& after.min_ts.0 <= ts.0 <= after.max_ts.0
            &&& after.min_ts.0 <= block.min_ts.0 && block.max_ts.0 <= after.max_ts.0
            &&& after.min_ts == ts || after.min_ts == block.min_ts
            &&& after.max_ts == ts || after.max_ts == block.max_ts
            &&& after.edges == block.edges && after.edge_counter == block.edge_counter
        }),
        ({
            let after = props.stamped(ts);
            &&& after.min_ts.0 <= ts.0 <= after.max_ts.0
            &&& after.min_ts.0 <= props.min_ts.0 && props.max_ts.0 <= after.max_ts.0
            &&& after.min_ts == ts || after.min_ts == props.min_ts
            &&& after.max_ts == ts || after.max_ts == props.max_ts
            &&& after.values == props.values
        }),
{
}

/// After a commit, the bounds on the timestamps of a block hold the time of the commit and carry no
/// mark of a transaction; bounds that were times of commits hold what they held before.
pub proof fn commits_clear_marks_from_bounds(block: BlockModel, ts: Timestamp)
    requires
        ts.0 < 0x8000_0000_0000_0000,
    ensures
        ({
            let after = block.committed(ts);
            &&& after.min_ts.0 <= ts.0 <= after.max_ts.0
            &&& after.min_ts.0 < 0x8000_0000_0000_0000 && after.max_ts.0 < 0x8000_0000_0000_0000
            &&& block.min_ts.0 < 0x8000_0000_0000_0000 ==> after.min_ts.0 <= block.min_ts.0 && (
            after.min_ts == ts || after.min_ts == block.min_ts)
            &&& block.max_ts.0 < 0x8000_0000_0000_0000 ==> block.max_ts.0 <= after.max_ts.0 && (
            after.max_ts == ts || after.max_ts == block.max_ts)
            &&& after.edges == block.edges && after.edge_counter == block.edge_counter
        }),
{
}

// ---------------------------------------------------------------------------------------------
// Stamps
// ---------------------------------------------------------------------------------------------

/// A commit gives the versions with the mark of the transaction the time of the commit, and changes
/// neither their values nor any other version.
pub proof fn commits_stamp_marked_versions(
    versions: Versions,
    txn_id: Timestamp,
    commit_ts: Timestamp,
    i: int,
)
    requires
        0 <= i < versions.len(),
    ensures
        promoted(versions, txn_id, commit_ts).len() == versions.len(),
        promoted(versions, txn_id, commit_ts)[i].value == versions[i].value,
        versions[i].ts == txn_id ==> promoted(versions, txn_id, commit_ts)[i].ts == commit_ts,
        versions[i].ts != txn_id ==> promoted(versions, txn_id, commit_ts)[i] == versions[i],
{
}

/// Dropping the versions of a transaction leaves the others, in order: of two lists, the versions
/// of their concatenation that are left are those left of the first and then those left of the
/// second.
pub proof fn dropped_versions_are_those_of_the_transaction(
    a: Versions,
    version: PropertyVersion,
    txn_id: Timestamp,
)
    ensures
        without_txn(Seq::<PropertyVersion>::empty(), txn_id).len() == 0,
        version.ts == txn_id ==> without_txn(a.push(version), txn_id) == without_txn(a, txn_id),
        version.ts != txn_id ==> without_txn(a.push(version), txn_id) == without_txn(
            a,
            txn_id,
        ).push(version),
{
    reveal(Seq::filter);
    assert(a.push(version).drop_last() =~= a);
}

/// A commit gives the deletions with the mark of the transaction the time of the commit, and an
/// abort drops them; the other deletions stay, in order.
pub proof fn deletions_are_stamped_or_dropped(
    stamps: Seq<Timestamp>,
    stamp: Timestamp,
    txn_id: Timestamp,
    commit_ts: Timestamp,
)
    ensures
        stamps_promoted(Seq::empty(), txn_id, commit_ts).len() == 0,
        stamps_promoted(stamps.push(stamp), txn_id, commit_ts) == stamps_promoted(
            stamps,
            txn_id,
            commit_ts,
        ).push(
            if stamp == txn_id {
                commit_ts
            } else {
                stamp
            },
        ),
        stamps_without(Seq::empty(), txn_id).len() == 0,
        stamp == txn_id ==> stamps_without(stamps.push(stamp), txn_id) == stamps_without(
            stamps,
            txn_id,
        ),
        stamp != txn_id ==> stamps_without(stamps.push(stamp), txn_id) == stamps_without(
            stamps,
            txn_id,
        ).push(stamp),
{
    reveal(Seq::filter);
    assert(stamps.push(stamp).drop_last() =~= stamps);
    assert(stamps_promoted(stamps.push(stamp), txn_id, commit_ts) =~= stamps_promoted(
        stamps,
        txn_id,
        commit_ts,
    ).push(
        if stamp == txn_id {
            commit_ts
        } else {
            stamp
        },
    ));
}

/// A reader with a snapshot takes an edge for deleted where one of its deletions is its own or was
/// committed no later than its start; one without a snapshot, where it has been deleted at all.
pub proof fn deletions_count_for_those_who_see_them(
    storage: StorageModel,
    eid: EdgeId,
    txn_id: Option<Timestamp>,
    start_ts: Timestamp,
)
    ensures
        storage.deleted_for(eid, Reader::At { txn_id, start_ts }) <==> storage.deletions.dom().contains(
            eid,
        ) && exists|i: int|
            0 <= i < storage.deletions[eid].len() && if (
            #[trigger] storage.deletions[eid][i]).0 >= 0x8000_0000_0000_0000 {
                txn_id == Some(storage.deletions[eid][i])
            } else {
                storage.deletions[eid][i].0 <= start_ts.0
            },
        storage.deleted_for(eid, Reader::Committed) <==> storage.deletions.dom().contains(eid)
            && storage.deletions[eid].len() > 0,
{
    if storage.deletions.dom().contains(eid) {
        let stamps = storage.deletions[eid];
        if storage.deleted_for(eid, Reader::At { txn_id, start_ts }) {
            let i = choose|i: int|
                0 <= i < stamps.len() && sees(
                    #[trigger] stamps[i],
                    txn_id,
                    start_ts,
                );
            assert(storage.deletions[eid][i] == stamps[i]);
        }
        if exists|i: int|
            0 <= i < storage.deletions[eid].len() && if (
            #[trigger] storage.deletions[eid][i]).0 >= 0x8000_0000_0000_0000 {
                txn_id == Some(storage.deletions[eid][i])
            } else {
                storage.deletions[eid][i].0 <= start_ts.0
            } {
            let i = choose|i: int|
                0 <= i < storage.deletions[eid].len() && if (
                #[trigger] storage.deletions[eid][i]).0 >= 0x8000_0000_0000_0000 {
                    txn_id == Some(storage.deletions[eid][i])
                } else {
                    storage.deletions[eid][i].0 <= start_ts.0
                };
            assert(sees(stamps[i], txn_id, start_ts));
        }
    }
}

// ---------------------------------------------------------------------------------------------
// Committing
// ---------------------------------------------------------------------------------------------

/// A commit takes the time that it is asked for, where that is one, and else the next time of the
/// clock. The clock then gives only later times, and never goes back. What is no time of a commit,
/// and a clock that has run out, are errors and leave the clock as it is.
pub proof fn commits_get_their_times(clock: TimestampGenerator, requested: Option<Timestamp>)
    ensures
        ({
            let r = commit_choice(clock, requested);
            &&& requested matches Some(ts) ==> ts.0 < 0x8000_0000_0000_0000 ==> r.0 == Ok::<
                Timestamp,
                TimestampError,
            >(ts)
            &&& requested matches Some(ts) ==> ts.0 >= 0x8000_0000_0000_0000 ==> r.0 == Err::<
                Timestamp,
                TimestampError,
            >(TimestampError::NotACommitTs(ts.0)) && r.1 == clock
            &&& requested is None && clock.counter < 0x8000_0000_0000_0000 ==> r.0 == Ok::<
                Timestamp,
                TimestampError,
            >(Timestamp(clock.counter))
            &&& requested is None && clock.counter >= 0x8000_0000_0000_0000 ==> r.0 == Err::<
                Timestamp,
                TimestampError,
            >(TimestampError::CommitTsOverflow(clock.counter)) && r.1 == clock
            &&& r.0 matches Ok(ts) ==> ts.0 < 0x8000_0000_0000_0000 && r.1.counter > ts.0
            &&& r.1.counter >= clock.counter
            &&& r.0 matches Ok(ts) ==> r.1.counter == clock.counter || r.1.counter == ts.0 + 1
        }),
{
}

/// Two commits in a row without requests get ascending times.
pub proof fn later_commits_get_later_times(clock: TimestampGenerator)
    ensures
        ({
            let first = commit_choice(clock, None);
            let second = commit_choice(first.1, None);
            first.0 matches Ok(a) ==> (second.0 matches Ok(b) ==> a.0 < b.0)
        }),
{
}

/// Committing the edge in a slot gives it the time of the commit where it carries the mark of the
/// transaction, and changes nothing else of any slot.
pub proof fn commits_stamp_marked_slots(
    storage: StorageModel,
    location: (usize, usize),
    txn_id: Timestamp,
    commit_ts: Timestamp,
    l: (usize, usize),
)
    requires
        storage.wf(),
        location.0 < storage.blocks.len(),
        location.1 < BLOCK_CAPACITY,
        l.0 < storage.blocks.len(),
        l.1 < BLOCK_CAPACITY,
    ensures
        ({
            let after = storage.edge_committed(location, txn_id, commit_ts);
            let slot = after.blocks[l.0 as int].edges[l.1 as int];
            let was = storage.blocks[l.0 as int].edges[l.1 as int];
            &&& slot.eid == was.eid && slot.label_id == was.label_id && slot.dst_id == was.dst_id
            &&& l == location && was.commit_ts == txn_id ==> slot.commit_ts == commit_ts
            &&& l != location || was.commit_ts != txn_id ==> slot == was
            &&& after.columns == storage.columns && after.deletions == storage.deletions
            &&& after.locations == storage.locations && after.vertices == storage.vertices
        }),
{
    assert(storage.blocks[location.0 as int].wf());
}

// ---------------------------------------------------------------------------------------------
// What a transaction notes to take its changes back
// ---------------------------------------------------------------------------------------------

/// A transaction that has written properties of an edge has noted the edge, the positions, and for
/// each position the value that was the last one there, or null, with the stamp of the edge.
pub proof fn property_writes_note_what_was_there(
    before: StorageModel,
    txn: TxnModel,
    eid: EdgeId,
    indices: Seq<usize>,
    props: Seq<ScalarValue>,
    after: StorageModel,
    txn_after: TxnModel,
    location: (usize, usize),
)
    requires
        property_write(before, txn, eid, indices, props, Ok(()), after, txn_after),
        before.writable(eid) == Some(location),
    ensures
        indices.len() == props.len(),
        forall|k: int| 0 <= k < indices.len() ==> #[trigger] indices[k] < before.columns.len(),
        txn_after.undo.len() == txn.undo.len() + 1,
        forall|i: int| 0 <= i < txn.undo.len() ==> #[trigger] txn_after.undo[i] == txn.undo[i],
        txn_after.undo[txn.undo.len() as int].1 == before.slot(location).commit_ts,
        txn_after.undo[txn.undo.len() as int].0 matches Undo::SetProps {
            eid: noted,
            indices: positions,
            props: values,
        } && noted == eid && positions == indices && values.len() == indices.len() && forall|k: int|
            0 <= k < indices.len() ==> #[trigger] values[k] == ({
                let versions = versions_at(before.columns, indices[k] as int, location);
                if versions.len() > 0 && versions[versions.len() - 1].value is Some {
                    versions[versions.len() - 1].value->0
                } else {
                    ScalarValue::Null
                }
            }),
        txn_after.txn_id == txn.txn_id,
        txn_after.start_ts == txn.start_ts,
        txn_after.commit_ts == txn.commit_ts,
        txn_after.deleted == txn.deleted,
{
}

/// A transaction that has deleted an edge has noted the edge with its stamp, its label and its
/// destination, and the deletions of the edge end with its mark; no slot and no property changes.
pub proof fn deletions_note_what_was_there(
    before: StorageModel,
    txn: TxnModel,
    eid: EdgeId,
    after: StorageModel,
    txn_after: TxnModel,
    location: (usize, usize),
    other: EdgeId,
    l: (usize, usize),
)
    requires
        before.wf(),
        edge_deletion(before, txn, eid, Ok(()), after, txn_after),
        before.writable(eid) == Some(location),
        location.0 < before.blocks.len(),
        l.0 < before.blocks.len(),
    ensures
        txn_after.undo == txn.undo.push((Undo::Delete { eid }, before.slot(location).commit_ts)),
        txn_after.deleted.dom().contains(eid),
        txn_after.deleted[eid] == (before.slot(location).label_id, before.slot(location).dst_id),
        other != eid && txn.deleted.dom().contains(other) ==> txn_after.deleted[other]
            == txn.deleted[other],
        deletion_stamps(after.deletions, eid) == deletion_stamps(before.deletions, eid).push(
            txn.txn_id,
        ),
        other != eid ==> deletion_stamps(after.deletions, other) == deletion_stamps(
            before.deletions,
            other,
        ),
        after.columns == before.columns,
        after.vertices == before.vertices,
        after.blocks.len() == before.blocks.len(),
        after.blocks[l.0 as int].edges == before.blocks[l.0 as int].edges,
        after.blocks[l.0 as int].edge_counter == before.blocks[l.0 as int].edge_counter,
        after.blocks[l.0 as int].is_tombstone == before.blocks[l.0 as int].is_tombstone,
{
}

/// A finished transaction has nothing left to take back, and is the same transaction.
pub proof fn finished_transactions_hold_nothing(txn: TxnModel)
    ensures
        txn.cleared().undo.len() == 0,
        txn.cleared().deleted.dom() == Set::<EdgeId>::empty(),
        txn.cleared().txn_id == txn.txn_id,
        txn.cleared().start_ts == txn.start_ts,
        txn.cleared().isolation_level == txn.isolation_level,
        txn.cleared().commit_ts == txn.commit_ts,
{
    assert(txn.cleared().deleted.dom() =~= Set::<EdgeId>::empty());
}

// ---------------------------------------------------------------------------------------------
// Deleting for good
// ---------------------------------------------------------------------------------------------

/// An edge that is deleted for good is found no more; every other edge is found, with the same
/// content of its slot and the same versions of its properties.
pub proof fn removal_keeps_other_edges(
    storage: StorageModel,
    location: (usize, usize),
    eid: EdgeId,
    other: EdgeId,
    c: int,
)
    requires
        storage.wf(),
        storage.indexed(),
        storage.located(eid) == Some(location),
        other != eid,
        storage.located(other) is Some,
    ensures
        ({
            let after = storage.edge_removed(location, eid);
            let from = storage.located(other)->0;
            &&& after.located(eid) is None
            &&& after.located(other) matches Some(to) && {
                &&& to.0 == from.0
                &&& after.slot(to) == storage.slot(from)
                &&& after.blocks[to.0 as int].src_id == storage.blocks[from.0 as int].src_id
                &&& versions_at(after.columns, c, to) == versions_at(storage.columns, c, from)
            }
        }),
{
    let after = storage.edge_removed(location, eid);
    let from = storage.located(other)->0;
    exact_map_resolves(storage, other);
    exact_map_resolves(storage, eid);
    removal_keeps_index(storage, location, eid);
    exact_map_resolves(after, other);
    exact_map_resolves(after, eid);
    assert(storage.blocks[location.0 as int].wf());
    assert(storage.blocks[from.0 as int].wf());
    assert(storage.slot_recorded(location.0 as int, location.1 as int));
    assert(storage.slot_recorded(from.0 as int, from.1 as int));
    let to = if from.0 == location.0 && from.1 > location.1 {
        (from.0, (from.1 - 1) as usize)
    } else {
        from
    };
    assert(to.1 < after.blocks[to.0 as int].edge_counter);
    assert(after.slot_recorded(to.0 as int, to.1 as int));
    lemma_removed_slot(storage, location, eid, c, to);
}

/// The last edge of a block takes its block out of use with it: the block has no edge in use and is
/// buried. Other blocks stay.
pub proof fn last_edges_bury_their_blocks(
    storage: StorageModel,
    location: (usize, usize),
    eid: EdgeId,
    b: int,
)
    requires
        storage.wf(),
        location.0 < storage.blocks.len(),
        storage.blocks[location.0 as int].edge_counter == 1,
        0 <= b < storage.blocks.len(),
    ensures
        ({
            let after = storage.edge_deleted(location, eid);
            &&& after.blocks[location.0 as int].is_tombstone
            &&& after.blocks[location.0 as int].edge_counter == 0
            &&& b != location.0 ==> after.blocks[b] == storage.blocks[b]
            &&& !after.locations.dom().contains(eid)
            &&& forall|other: EdgeId|
                other != eid && #[trigger] storage.locations.dom().contains(other)
                    ==> after.locations.dom().contains(other) && after.locations[other]
                    == storage.locations[other]
            &&& after.columns == storage.columns
            &&& after.vertices == storage.vertices
        }),
{
}

/// A block that is buried keeps everything else.
spec fn buried_or_same(before: BlockModel, after: BlockModel) -> bool {
    after == before || after == (BlockModel { is_tombstone: true, ..before })
}

proof fn lemma_buried_chain(blocks: Seq<BlockModel>, b: int)
    requires
        0 <= b < blocks.len(),
    ensures
        chain_buried(blocks, b).len() == blocks.len(),
        forall|i: int|
            0 <= i < blocks.len() ==> buried_or_same(
                blocks[i],
                #[trigger] chain_buried(blocks, b)[i],
            ),
        chain_buried(blocks, b)[b].is_tombstone,
        forall|i: int| b < i < blocks.len() ==> #[trigger] chain_buried(blocks, b)[i] == blocks[i],
    decreases b,
{
    let next = blocks.update(b, blocks[b].buried());
    match blocks[b].pre_block_index {
        Some(pre) if pre < b => {
            lemma_buried_chain(next, pre as int);
            assert forall|i: int| 0 <= i < blocks.len() implies buried_or_same(
                blocks[i],
                #[trigger] chain_buried(blocks, b)[i],
            ) by {
                assert(buried_or_same(next[i], chain_buried(next, pre as int)[i]));
            }
            assert(chain_buried(next, pre as int)[b] == next[b]);
            assert forall|i: int| b < i < blocks.len() implies #[trigger] chain_buried(
                blocks,
                b,
            )[i] == blocks[i] by {
                assert(chain_buried(next, pre as int)[i] == next[i]);
            }
        },
        _ => {},
    }
}

proof fn lemma_chain_members_buried(
    storage: StorageModel,
    blocks: Seq<BlockModel>,
    start: int,
    b: int,
)
    requires
        storage.blocks.len() == blocks.len(),
        forall|i: int| 0 <= i <= start ==> #[trigger] blocks[i] == storage.blocks[i],
        0 <= start < blocks.len(),
        0 <= b < blocks.len(),
    ensures
        storage.in_chain(start, b) ==> chain_buried(blocks, start)[b].is_tombstone,
        !storage.in_chain(start, b) ==> chain_buried(blocks, start)[b] == blocks[b],
    decreases start,
{
    let next = blocks.update(start, blocks[start].buried());
    lemma_buried_chain(blocks, start);
    match blocks[start].pre_block_index {
        Some(pre) if pre < start => {
            lemma_chain_members_buried(storage, next, pre as int, b);
            lemma_buried_chain(next, pre as int);
            assert(storage.block_before(start) == pre);
        },
        _ => {
            assert(storage.block_before(start) == -1);
            assert(!storage.in_chain(-1, b));
        },
    }
}

/// Deleting a vertex buries exactly the blocks that it leads to, and changes nothing else of any
/// block.
pub proof fn vertex_deletion_buries_its_blocks(storage: StorageModel, v: int, b: int)
    requires
        storage.wf(),
        0 <= v < storage.vertices.len(),
        storage.vertices[v].block_offset < storage.blocks.len(),
        0 <= b < storage.blocks.len(),
    ensures
        ({
            let start = storage.vertices[v].block_offset as int;
            let after = chain_buried(storage.blocks, start);
            &&& after.len() == storage.blocks.len()
            &&& storage.in_chain(start, b) ==> after[b].is_tombstone
            &&& !storage.in_chain(start, b) ==> after[b] == storage.blocks[b]
            &&& after[b].edges == storage.blocks[b].edges
            &&& after[b].edge_counter == storage.blocks[b].edge_counter
            &&& after[b].src_id == storage.blocks[b].src_id
        }),
{
    let start = storage.vertices[v].block_offset as int;
    lemma_buried_chain(storage.blocks, start);
    lemma_chain_members_buried(storage, storage.blocks, start, b);
    assert(buried_or_same(storage.blocks[b], chain_buried(storage.blocks, start)[b]));
}

// ---------------------------------------------------------------------------------------------
// Vertices
// ---------------------------------------------------------------------------------------------

/// Of the values that are written to a position of a vertex, the last one stays; positions that are
/// not written keep their values.
pub proof fn last_property_value_stays(
    properties: Seq<ScalarValue>,
    indices: Seq<usize>,
    props: Seq<ScalarValue>,
    k: nat,
    at: int,
    m: int,
)
    requires
        k <= indices.len(),
        0 <= at < properties.len(),
        forall|j: int| 0 <= j < k ==> #[trigger] indices[j] < properties.len(),
        -1 <= m < k,
        m >= 0 ==> indices[m] == at,
        forall|j: int| m < j < k ==> #[trigger] indices[j] != at,
    ensures
        properties_replaced(properties, indices, props, k).len() == properties.len(),
        m >= 0 ==> properties_replaced(properties, indices, props, k)[at] == props[m],
        m == -1 ==> properties_replaced(properties, indices, props, k)[at] == properties[at],
    decreases k,
{
    if k > 0 {
        if m == k - 1 {
            lemma_replaced_len(properties, indices, props, (k - 1) as nat);
        } else {
            last_property_value_stays(properties, indices, props, (k - 1) as nat, at, m);
            assert(indices[k - 1] != at);
        }
    }
}

proof fn lemma_replaced_len(
    properties: Seq<ScalarValue>,
    indices: Seq<usize>,
    props: Seq<ScalarValue>,
    k: nat,
)
    requires
        forall|j: int| 0 <= j < k ==> #[trigger] indices[j] < properties.len(),
    ensures
        properties_replaced(properties, indices, props, k).len() == properties.len(),
    decreases k,
{
    if k > 0 {
        lemma_replaced_len(properties, indices, props, (k - 1) as nat);
        assert(indices[k - 1] < properties.len());
    }
}

// ---------------------------------------------------------------------------------------------
// Walks without a snapshot
// ---------------------------------------------------------------------------------------------

proof fn lemma_plain_edges_from(
    storage: StorageModel,
    b: int,
    offset: int,
    location: (usize, usize),
)
    requires
        storage.wf(),
        storage.indexed(),
        0 <= b <= storage.blocks.len(),
        0 <= offset <= BLOCK_CAPACITY,
        b < storage.blocks.len() && !storage.blocks[b].is_tombstone ==> offset
            <= storage.blocks[b].edge_counter || offset == 0,
    ensures
        storage.edges_from(Reader::Committed, b, offset).contains(location) <==> {
            &&& location.0 > b || (location.0 == b && location.1 >= offset)
            &&& location.0 < storage.blocks.len()
            &&& !storage.blocks[location.0 as int].is_tombstone
            &&& location.1 < storage.blocks[location.0 as int].edge_counter
            &&& deletion_stamps(
                storage.deletions,
                storage.blocks[location.0 as int].edges[location.1 as int].eid,
            ).len() == 0
        },
    decreases storage.blocks.len() - b, BLOCK_CAPACITY - offset,
{
    let reader = Reader::Committed;
    let left = storage.edges_from(reader, b, offset);
    if b < storage.blocks.len() {
        assert(storage.blocks[b].wf());
        if storage.blocks[b].is_tombstone || offset >= BLOCK_CAPACITY {
            lemma_plain_edges_from(storage, b + 1, 0, location);
        } else {
            let slot = storage.blocks[b].edges[offset];
            if offset < storage.blocks[b].edge_counter {
                assert(storage.slot_recorded(b, offset));
                assert(storage.location_exact(slot.eid));
                lemma_plain_edges_from(storage, b, offset + 1, location);
                let rest = storage.edges_from(reader, b, offset + 1);
                if storage.slot_seen(slot, reader) {
                    let first = (b as usize, offset as usize);
                    assert(left == seq![first] + rest);
                    assert(left[0] == first);
                    if rest.contains(location) {
                        let k = choose|k: int| 0 <= k < rest.len() && rest[k] == location;
                        assert(left[k + 1] == location);
                    }
                    if left.contains(location) && location != first {
                        let k = choose|k: int| 0 <= k < left.len() && left[k] == location;
                        assert(rest[k - 1] == location);
                    }
                }
            } else {
                assert(storage.blocks[b].edges[offset].eid == 0);
                lemma_plain_edges_from(storage, b + 1, 0, location);
            }
        }
    }
}

/// A walk over all edges without a snapshot gives exactly the slots in use, of blocks in use, whose
/// edges have not been deleted, whoever wrote them.
pub proof fn plain_walk_gives_every_edge(storage: StorageModel, location: (usize, usize))
    requires
        storage.wf(),
        storage.indexed(),
    ensures
        storage.edges_from(Reader::Committed, 0, 0).contains(location) <==> {
            &&& location.0 < storage.blocks.len()
            &&& !storage.blocks[location.0 as int].is_tombstone
            &&& location.1 < storage.blocks[location.0 as int].edge_counter
            &&& deletion_stamps(
                storage.deletions,
                storage.blocks[location.0 as int].edges[location.1 as int].eid,
            ).len() == 0
        },
{
    lemma_plain_edges_from(storage, 0, 0, location);
}

/// A walk over all edges goes through the blocks in order and through each block in order, so that
/// no slot is given twice.
pub proof fn walks_go_forward(
    storage: StorageModel,
    reader: Reader,
    b: int,
    offset: int,
    i: int,
    j: int,
)
    requires
        storage.blocks.len() <= usize::MAX,
        0 <= b,
        0 <= offset <= BLOCK_CAPACITY,
        0 <= i < j < storage.edges_from(reader, b, offset).len(),
    ensures
        ({
            let slots = storage.edges_from(reader, b, offset);
            slots[i].0 < slots[j].0 || (slots[i].0 == slots[j].0 && slots[i].1 < slots[j].1)
        }),
    decreases storage.blocks.len() - b, BLOCK_CAPACITY - offset,
{
    if b < storage.blocks.len() {
        if storage.blocks[b].is_tombstone || offset >= BLOCK_CAPACITY
            || storage.blocks[b].edges[offset].eid == 0 {
            walks_go_forward(storage, reader, b + 1, 0, i, j);
        } else if !storage.slot_seen(storage.blocks[b].edges[offset], reader) {
            walks_go_forward(storage, reader, b, offset + 1, i, j);
        } else {
            if i > 0 {
                walks_go_forward(storage, reader, b, offset + 1, i - 1, j - 1);
            } else {
                lemma_walk_starts(storage, reader, b, offset + 1, j - 1);
            }
        }
    }
}

proof fn lemma_walk_starts(storage: StorageModel, reader: Reader, b: int, offset: int, j: int)
    requires
        storage.blocks.len() <= usize::MAX,
        0 <= b,
        0 <= offset <= BLOCK_CAPACITY,
        0 <= j < storage.edges_from(reader, b, offset).len(),
    ensures
        ({
            let slots = storage.edges_from(reader, b, offset);
            slots[j].0 > b || (slots[j].0 == b && slots[j].1 >= offset)
        }),
    decreases storage.blocks.len() - b, BLOCK_CAPACITY - offset,
{
    if b < storage.blocks.len() {
        if storage.blocks[b].is_tombstone || offset >= BLOCK_CAPACITY
            || storage.blocks[b].edges[offset].eid == 0 {
            lemma_walk_starts(storage, reader, b + 1, 0, j);
        } else if !storage.slot_seen(storage.blocks[b].edges[offset], reader) {
            lemma_walk_starts(storage, reader, b, offset + 1, j);
        } else if j > 0 {
            lemma_walk_starts(storage, reader, b, offset + 1, j - 1);
        }
    }
}

/// A walk over the edges of a vertex goes from later blocks to earlier ones and through each block
/// in order, so that no slot is given twice.
pub proof fn vertex_walks_go_back(
    storage: StorageModel,
    reader: Reader,
    b: int,
    offset: int,
    i: int,
    j: int,
)
    requires
        storage.blocks.len() <= usize::MAX,
        0 <= offset <= BLOCK_CAPACITY,
        0 <= i < j < storage.chain_from(reader, b, offset).len(),
    ensures
        ({
            let slots = storage.chain_from(reader, b, offset);
            slots[i].0 > slots[j].0 || (slots[i].0 == slots[j].0 && slots[i].1 < slots[j].1)
        }),
    decreases b + 1, BLOCK_CAPACITY - offset,
{
    if 0 <= b < storage.blocks.len() {
        if storage.blocks[b].is_tombstone || offset >= BLOCK_CAPACITY
            || storage.blocks[b].edges[offset].eid == 0 {
            vertex_walks_go_back(storage, reader, storage.block_before(b), 0, i, j);
        } else if !storage.slot_seen(storage.blocks[b].edges[offset], reader) {
            vertex_walks_go_back(storage, reader, b, offset + 1, i, j);
        } else {
            if i > 0 {
                vertex_walks_go_back(storage, reader, b, offset + 1, i - 1, j - 1);
            } else {
                lemma_vertex_walk_starts(storage, reader, b, offset + 1, j - 1);
            }
        }
    }
}

proof fn lemma_vertex_walk_starts(
    storage: StorageModel,
    reader: Reader,
    b: int,
    offset: int,
    j: int,
)
    requires
        storage.blocks.len() <= usize::MAX,
        0 <= offset <= BLOCK_CAPACITY,
        0 <= j < storage.chain_from(reader, b, offset).len(),
    ensures
        ({
            let slots = storage.chain_from(reader, b, offset);
            slots[j].0 < b || (slots[j].0 == b && slots[j].1 >= offset)
        }),
    decreases b + 1, BLOCK_CAPACITY - offset,
{
    if 0 <= b < storage.blocks.len() {
        if storage.blocks[b].is_tombstone || offset >= BLOCK_CAPACITY
            || storage.blocks[b].edges[offset].eid == 0 {
            lemma_vertex_walk_starts(storage, reader, storage.block_before(b), 0, j);
        } else if !storage.slot_seen(storage.blocks[b].edges[offset], reader) {
            lemma_vertex_walk_starts(storage, reader, b, offset + 1, j);
        } else if j > 0 {
            lemma_vertex_walk_starts(storage, reader, b, offset + 1, j - 1);
        }
    }
}

// ---------------------------------------------------------------------------------------------
// New edges
// ---------------------------------------------------------------------------------------------

/// A new edge goes to the last block of its source vertex where that has room; else a block is
/// opened for it behind the others, which leads to the block before it and becomes the last of the
/// vertex.
pub proof fn new_edges_go_to_the_last_block(
    storage: StorageModel,
    v: int,
    pos: int,
    edge: EdgeModel,
    mode: WriteMode,
    txn_id: Timestamp,
)
    requires
        mode == txn_mode(txn_id) || mode == plain_mode(),
        storage.wf(),
        storage.blocks.len() < usize::MAX,
        storage.edge_id_counter < u64::MAX,
        0 <= v < storage.vertices.len(),
        storage.has_block(v),
        edge_position(storage, edge, mode, v, pos),
    ensures
        ({
            let after = storage.edge_created(v, pos, edge, mode);
            let last = storage.vertices[v].block_offset;
            let b = after.vertices[v].block_offset as int;
            let has_room = last != usize::MAX && storage.blocks[last as int].edge_counter
                < BLOCK_CAPACITY;
            &&& has_room ==> b == last && after.blocks.len() == storage.blocks.len()
            &&& !has_room ==> b == storage.blocks.len() && after.blocks.len()
                == storage.blocks.len() + 1
            &&& !has_room && last == usize::MAX ==> after.blocks[b].pre_block_index is None
            &&& !has_room && last != usize::MAX ==> after.blocks[b].pre_block_index == Some(last)
            &&& !has_room ==> after.blocks[b].src_id == edge.src_id
                && after.blocks[b].cur_block_index == b && after.blocks[b].edge_counter == 1
            &&& !has_room && mode == txn_mode(txn_id) ==> after.blocks[b].min_ts == txn_id
                && after.blocks[b].max_ts == txn_id
            &&& !has_room && mode == plain_mode() ==> after.blocks[b].min_ts.0
                == 0x7fff_ffff_ffff_ffff && after.blocks[b].max_ts.0 == 0
            &&& after.blocks[b].edges[pos].eid == storage.edge_id_counter
            &&& after.blocks[b].edges[pos].label_id == edge.label_id
            &&& after.blocks[b].edges[pos].dst_id == edge.dst_id
            &&& mode == txn_mode(txn_id) ==> after.blocks[b].edges[pos].commit_ts == txn_id
            &&& mode == plain_mode() ==> after.blocks[b].edges[pos].commit_ts == Timestamp(0)
            &&& after.edge_id_counter == storage.edge_id_counter + 1
            &&& after.locations.dom().contains(storage.edge_id_counter)
            &&& after.locations[storage.edge_id_counter] == (b as usize, pos as usize)
            &&& forall|w: int|
                0 <= w < storage.vertices.len() && w != v ==> #[trigger] after.vertices[w]
                    == storage.vertices[w]
            &&& after.vertices[v].vid == storage.vertices[v].vid
            &&& after.vertices[v].properties == storage.vertices[v].properties
            &&& mode.transactional && edge.properties.len() > storage.columns.len()
                ==> after.columns.len() == edge.properties.len()
            &&& !mode.transactional || edge.properties.len() <= storage.columns.len()
                ==> after.columns.len() == storage.columns.len()
            &&& after.deletions == storage.deletions
        }),
{
}

// ---------------------------------------------------------------------------------------------
// Compression
// ---------------------------------------------------------------------------------------------

/// A compressed block keeps the header of its block, the labels of the edges in their order and the
/// first destination; it bears the number and the version that it is given.
pub proof fn compressed_blocks_keep_headers_and_labels(
    block: BlockModel,
    index: usize,
    version_ts: Timestamp,
    i: int,
)
    requires
        block.wf(),
        0 <= i < block.edge_counter,
    ensures
        ({
            let after = compressed_block(block, index, version_ts);
            &&& after.label_ids.len() == BLOCK_CAPACITY
            &&& after.label_ids[i] == block.edges[i].label_id
            &&& after.first_dst_id == block.edges[0].dst_id
            &&& after.edge_counter == block.edge_counter
            &&& after.src_id == block.src_id
            &&& after.pre_block_index == block.pre_block_index
            &&& after.cur_block_index == index
            &&& after.version_ts == version_ts
            &&& after.min_dst_id == block.min_dst_id && after.max_dst_id == block.max_dst_id
            &&& after.min_label_id == block.min_label_id && after.max_label_id == block.max_label_id
            &&& after.min_ts == block.min_ts && after.max_ts == block.max_ts
        }),
{
}

/// For compression a deleted edge has the label and the destination of an unused slot, and every
/// other edge its own.
pub proof fn deleted_edges_are_shown_as_unused(block: BlockModel, deletions: Deletions, i: int)
    requires
        block.wf(),
        0 <= i < block.edge_counter,
    ensures
        ({
            let after = shown_block(block, deletions);
            let eid = block.edges[i].eid;
            &&& deletions.dom().contains(eid) && deletions[eid].len() > 0 ==> after.edges[i].dst_id
                == 1 && (after.edges[i].label_id matches Some(label) && label.raw == 1)
                && after.edges[i].eid == eid
            &&& !deletions.dom().contains(eid) || deletions[eid].len() == 0 ==> after.edges[i]
                == block.edges[i]
            &&& after.edge_counter == block.edge_counter && after.src_id == block.src_id
        }),
{
}

/// Compressing the edges compresses every block in its place, each with the next version of the
/// clock, and leaves no block; compressing the properties does so with the columns.
pub proof fn compression_takes_every_block(
    storage: StorageModel,
    clock: TimestampGenerator,
    version_ts: Timestamp,
    b: int,
    c: int,
)
    requires
        clock.counter + storage.blocks.len() <= u64::MAX,
        storage.blocks.len() <= usize::MAX,
    ensures
        ({
            let after = storage.edges_compressed(clock);
            &&& after.is_edge_compressed && after.blocks.len() == 0
            &&& after.compressed_edges.len() == storage.blocks.len()
                + storage.compressed_edges.len()
            &&& 0 <= b < storage.blocks.len() ==> after.compressed_edges[b].version_ts.0
                == clock.counter + b && after.compressed_edges[b].cur_block_index == b
                && after.compressed_edges[b].src_id == storage.blocks[b].src_id
                && after.compressed_edges[b].edge_counter == storage.blocks[b].edge_counter
            &&& after.columns == storage.columns && after.vertices == storage.vertices
                && after.is_property_compressed == storage.is_property_compressed
        }),
        ({
            let after = storage.properties_compressed(version_ts);
            &&& after.is_property_compressed && after.columns.len() == 0
            &&& after.compressed_properties.len() == storage.columns.len()
                + storage.compressed_properties.len()
            &&& 0 <= c < storage.columns.len() ==> after.compressed_properties[c].len()
                == storage.columns[c].len() && forall|k: int|
                0 <= k < storage.columns[c].len() ==> (
                #[trigger] after.compressed_properties[c][k]).version_ts == version_ts
                    && after.compressed_properties[c][k].min_ts == storage.columns[c][k].min_ts
                    && after.compressed_properties[c][k].max_ts == storage.columns[c][k].max_ts
            &&& after.blocks == storage.blocks && after.vertices == storage.vertices
                && after.is_edge_compressed == storage.is_edge_compressed
        }),
{
}

} // verus!
