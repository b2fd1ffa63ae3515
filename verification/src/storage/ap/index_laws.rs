//! The map of locations is exact: it leads from every stored edge to its slot and back. Every
//! operation keeps it so.

use vstd::prelude::*;
use crate::common::types::EdgeId;
use crate::storage::ap::model::{
    blocks_wf, deletion_stamps, remapped, BlockModel, EdgeModel, Locations, StorageModel, WriteMode,
};
use crate::storage::ap::types::{blank_slot, OlapStorageEdge, BLOCK_CAPACITY};
use crate::storage::ap::writes::chain_buried;

verus! {

impl StorageModel {
    /// The edge in a slot that is in use has that slot as its recorded location.
    pub open spec fn slot_recorded(self, b: int, offset: int) -> bool {
        let eid = self.blocks[b].edges[offset].eid;
        &&& self.locations.dom().contains(eid)
        &&& self.locations[eid] == (b as usize, offset as usize)
    }

    /// The recorded location of an edge holds it. No edge has the identifier zero or one that has
    /// not been handed out.
    pub open spec fn location_exact(self, eid: EdgeId) -> bool {
        0 < eid < self.edge_id_counter && self.holds_at(self.locations[eid], eid)
    }

    /// Only edges that have been handed out have been deleted.
    pub open spec fn deletions_known(self) -> bool {
        forall|eid: EdgeId|
            (#[trigger] deletion_stamps(self.deletions, eid)).len() > 0 ==> 0 < eid
                < self.edge_id_counter
    }

    /// The map of locations is exact, and unused slots are marked as such: all but the first slot
    /// of a block that is buried.
    pub open spec fn indexed(self) -> bool {
        &&& self.blocks.len() < usize::MAX
        &&& self.edge_id_counter > 0
        &&& self.deletions_known()
        &&& forall|eid: EdgeId| #[trigger]
            self.locations.dom().contains(eid) ==> self.location_exact(eid)
        &&& forall|b: int, offset: int|
            0 <= b < self.blocks.len() && 0 <= offset < self.blocks[b].edge_counter
                ==> #[trigger] self.slot_recorded(b, offset)
        &&& forall|b: int, offset: int|
            0 <= b < self.blocks.len() && (!self.blocks[b].is_tombstone || offset > 0)
                && self.blocks[b].edge_counter <= offset < BLOCK_CAPACITY ==> (
            #[trigger] self.blocks[b].edges[offset]) == blank_slot()
    }
}

/// The identifiers in the slots `lo..hi` are not zero and differ from each other.
pub open spec fn distinct_eids(edges: Seq<OlapStorageEdge>, lo: int, hi: int) -> bool {
    &&& forall|i: int| lo <= i < hi ==> (#[trigger] edges[i]).eid != 0
    &&& forall|i: int, j: int|
        lo <= i < j < hi ==> (#[trigger] edges[i]).eid != (#[trigger] edges[j]).eid
}

/// No slot in `lo..hi` has the identifier.
pub open spec fn absent(edges: Seq<OlapStorageEdge>, lo: int, hi: int, eid: EdgeId) -> bool {
    forall|i: int| lo <= i < hi ==> (#[trigger] edges[i]).eid != eid
}

/// Entering the slots `lo..hi` gives every edge there its slot.
pub proof fn lemma_remapped_hit(
    locations: Locations,
    edges: Seq<OlapStorageEdge>,
    b: usize,
    lo: int,
    hi: int,
    i: int,
)
    requires
        0 <= lo <= i < hi <= BLOCK_CAPACITY,
        distinct_eids(edges, lo, hi),
    ensures
        remapped(locations, edges, b, lo, hi).dom().contains(edges[i].eid),
        remapped(locations, edges, b, lo, hi)[edges[i].eid] == (b, i as usize),
    decreases hi - lo,
{
    if i < hi - 1 {
        lemma_remapped_hit(locations, edges, b, lo, hi - 1, i);
        assert(edges[i].eid != edges[hi - 1].eid);
    }
}

/// Entering the slots `lo..hi` changes nothing for an edge that is not there.
pub proof fn lemma_remapped_miss(
    locations: Locations,
    edges: Seq<OlapStorageEdge>,
    b: usize,
    lo: int,
    hi: int,
    eid: EdgeId,
)
    requires
        absent(edges, lo, hi, eid),
    ensures
        remapped(locations, edges, b, lo, hi).dom().contains(eid) == locations.dom().contains(eid),
        remapped(locations, edges, b, lo, hi)[eid] == locations[eid],
    decreases hi - lo,
{
    if lo < hi {
        lemma_remapped_miss(locations, edges, b, lo, hi - 1, eid);
        assert(edges[hi - 1].eid != eid);
    }
}

/// Where the map is exact, the edges of a block differ in their identifiers.
pub proof fn lemma_indexed_distinct(storage: StorageModel, b: int)
    requires
        storage.wf(),
        storage.indexed(),
        0 <= b < storage.blocks.len(),
    ensures
        distinct_eids(storage.blocks[b].edges, 0, storage.blocks[b].edge_counter),
{
    let block = storage.blocks[b];
    assert(block.wf());
    assert forall|i: int| 0 <= i < block.edge_counter implies (
    #[trigger] block.edges[i]).eid != 0 by {
        assert(storage.slot_recorded(b, i));
    }
    assert forall|i: int, j: int| 0 <= i < j < block.edge_counter implies (
    #[trigger] block.edges[i]).eid != (#[trigger] block.edges[j]).eid by {
        assert(storage.slot_recorded(b, i));
        assert(storage.slot_recorded(b, j));
    }
}

/// The storage without edges has an exact map.
pub proof fn empty_storage_is_indexed()
    ensures
        crate::storage::ap::olap_graph::empty_storage().indexed(),
{
}

proof fn lemma_block_opened_indexed(
    storage: StorageModel,
    v: int,
    src_id: u64,
    mode: WriteMode,
)
    requires
        storage.wf(),
        storage.indexed(),
        storage.blocks.len() + 1 < usize::MAX,
        0 <= v < storage.vertices.len(),
        storage.has_block(v),
    ensures
        storage.block_opened(v, src_id, mode).wf(),
        storage.block_opened(v, src_id, mode).indexed(),
{
    let after = storage.block_opened(v, src_id, mode);
    assert forall|eid: EdgeId| #[trigger] after.locations.dom().contains(eid) implies
        after.location_exact(eid) by {
        assert(storage.locations.dom().contains(eid));
        assert(storage.location_exact(eid));
    }
    assert forall|b: int, offset: int|
        0 <= b < after.blocks.len() && 0 <= offset < after.blocks[b].edge_counter implies
        #[trigger] after.slot_recorded(b, offset) by {
        if b < storage.blocks.len() {
            assert(storage.slot_recorded(b, offset));
        }
    }
    assert forall|b: int, offset: int|
        0 <= b < after.blocks.len() && (!after.blocks[b].is_tombstone || offset > 0)
            && after.blocks[b].edge_counter <= offset < BLOCK_CAPACITY implies (
    #[trigger] after.blocks[b].edges[offset]) == blank_slot() by {
        if b < storage.blocks.len() {
            assert(storage.blocks[b].edges[offset] == blank_slot());
        }
    }
    assert(after.wf()) by {
        assert forall|b: int| 0 <= b < after.blocks.len() implies (
        #[trigger] after.blocks[b]).wf() by {
            if b < storage.blocks.len() {
                assert(storage.blocks[b].wf());
            }
        }
    }
}

/// Inserting an edge keeps the map exact.
pub proof fn insertion_keeps_index(
    storage: StorageModel,
    v: int,
    pos: int,
    edge: EdgeModel,
    mode: WriteMode,
)
    requires
        storage.wf(),
        storage.indexed(),
        storage.blocks.len() + 1 < usize::MAX,
        storage.edge_id_counter < u64::MAX,
        0 <= v < storage.vertices.len(),
        storage.has_block(v),
        ({
            let opened = storage.block_opened(v, edge.src_id, mode);
            0 <= pos <= opened.blocks[opened.vertices[v].block_offset as int].edge_counter
        }),
    ensures
        storage.edge_created(v, pos, edge, mode).indexed(),
        blocks_wf(storage.edge_created(v, pos, edge, mode).blocks),
{
    let opened = storage.block_opened(v, edge.src_id, mode);
    lemma_block_opened_indexed(storage, v, edge.src_id, mode);
    let after = storage.edge_created(v, pos, edge, mode);
    let at = opened.vertices[v].block_offset;
    let b0 = at as int;
    assert(0 <= b0 < opened.blocks.len());
    let block = opened.blocks[b0];
    let n = block.edge_counter;
    assert(block.wf());
    assert(n < BLOCK_CAPACITY);
    let eid0 = opened.edge_id_counter;
    let slot = OlapStorageEdge {
        eid: eid0,
        label_id: edge.label_id,
        dst_id: edge.dst_id,
        commit_ts: mode.ts,
    };
    let filled = block.slot_inserted(pos, slot);
    lemma_indexed_distinct(opened, b0);
    assert forall|i: int| 0 <= i < BLOCK_CAPACITY implies #[trigger] filled.edges[i] == (if i
        < pos {
        block.edges[i]
    } else if i == pos {
        slot
    } else if i <= n {
        block.edges[i - 1]
    } else {
        block.edges[i]
    }) by {}
    assert(distinct_eids(filled.edges, pos + 1, n + 1)) by {
        assert forall|i: int| pos + 1 <= i < n + 1 implies (
        #[trigger] filled.edges[i]).eid != 0 by {
            assert(filled.edges[i] == block.edges[i - 1]);
        }
        assert forall|i: int, j: int| pos + 1 <= i < j < n + 1 implies (
        #[trigger] filled.edges[i]).eid != (#[trigger] filled.edges[j]).eid by {
            assert(filled.edges[i] == block.edges[i - 1]);
            assert(filled.edges[j] == block.edges[j - 1]);
        }
    }
    let moved = remapped(opened.locations, filled.edges, at, pos + 1, n + 1);
    assert(after.locations == moved.insert(eid0, (at, pos as usize)));
    assert(after.blocks[b0].edges == filled.edges);
    assert(after.blocks[b0].edge_counter == n + 1);
    assert forall|b: int, offset: int|
        0 <= b < after.blocks.len() && 0 <= offset < after.blocks[b].edge_counter implies
        #[trigger] after.slot_recorded(b, offset) by {
        if b == b0 {
            let e = filled.edges[offset].eid;
            if offset < pos {
                assert(opened.slot_recorded(b0, offset));
                assert(opened.location_exact(e));
                assert forall|i: int| pos + 1 <= i < n + 1 implies (
                #[trigger] filled.edges[i]).eid != e by {
                    assert(filled.edges[i] == block.edges[i - 1]);
                    assert(block.edges[offset].eid != block.edges[i - 1].eid);
                }
                lemma_remapped_miss(opened.locations, filled.edges, at, pos + 1, n + 1, e);
            } else if offset > pos {
                assert(filled.edges[offset] == block.edges[offset - 1]);
                assert(opened.slot_recorded(b0, offset - 1));
                assert(opened.location_exact(e));
                lemma_remapped_hit(opened.locations, filled.edges, at, pos + 1, n + 1, offset);
            }
        } else {
            assert(opened.slot_recorded(b, offset));
            let e = opened.blocks[b].edges[offset].eid;
            assert(opened.location_exact(e));
            assert forall|i: int| pos + 1 <= i < n + 1 implies (
            #[trigger] filled.edges[i]).eid != e by {
                assert(filled.edges[i] == block.edges[i - 1]);
                assert(opened.slot_recorded(b0, i - 1));
            }
            lemma_remapped_miss(opened.locations, filled.edges, at, pos + 1, n + 1, e);
        }
    }
    assert forall|eid: EdgeId| #[trigger] after.locations.dom().contains(eid) implies
        after.location_exact(eid) by {
        if eid == eid0 {
            assert(after.locations[eid] == (at, pos as usize));
            assert(filled.edges[pos] == slot);
        } else if exists|i: int| pos + 1 <= i < n + 1 && (#[trigger] filled.edges[i]).eid == eid {
            let i = choose|i: int|
                pos + 1 <= i < n + 1 && (#[trigger] filled.edges[i]).eid == eid;
            assert(filled.edges[i] == block.edges[i - 1]);
            assert(opened.slot_recorded(b0, i - 1));
            assert(opened.location_exact(eid));
            lemma_remapped_hit(opened.locations, filled.edges, at, pos + 1, n + 1, i);
        } else {
            lemma_remapped_miss(opened.locations, filled.edges, at, pos + 1, n + 1, eid);
            assert(moved.dom().contains(eid) == opened.locations.dom().contains(eid));
            assert(opened.location_exact(eid));
            let location = opened.locations[eid];
            if location.0 == at {
                let o = location.1 as int;
                if o >= pos {
                    assert(filled.edges[o + 1] == block.edges[o]);
                    assert(false);
                }
            }
        }
    }
    assert(after.edge_id_counter == eid0 + 1);
    assert forall|b: int, offset: int|
        0 <= b < after.blocks.len() && (!after.blocks[b].is_tombstone || offset > 0)
            && after.blocks[b].edge_counter <= offset < BLOCK_CAPACITY implies (
    #[trigger] after.blocks[b].edges[offset]) == blank_slot() by {
        assert(opened.blocks[b].edges[offset] == blank_slot());
    }
    assert(blocks_wf(after.blocks)) by {
        assert forall|b: int| 0 <= b < after.blocks.len() implies (
        #[trigger] after.blocks[b]).wf() by {
            assert(opened.blocks[b].wf());
        }
        assert forall|b: int| 0 <= b < after.blocks.len() implies match (
        #[trigger] after.blocks[b]).pre_block_index {
            Some(pre) => pre < b,
            None => true,
        } by {
            assert(opened.blocks[b].wf());
        }
    }
}

/// Replacing the content of a slot in use but for its edge identifier, and the header of its block
/// but for its number of edges, keeps the map exact.
pub proof fn slot_update_keeps_index(
    storage: StorageModel,
    after: StorageModel,
    location: (usize, usize),
)
    requires
        storage.wf(),
        storage.indexed(),
        location.0 < storage.blocks.len(),
        location.1 < storage.blocks[location.0 as int].edge_counter,
        after.locations == storage.locations,
        after.edge_id_counter == storage.edge_id_counter,
        after.deletions_known(),
        after.blocks.len() == storage.blocks.len(),
        forall|b: int|
            0 <= b < storage.blocks.len() && b != location.0 ==> #[trigger] after.blocks[b]
                == storage.blocks[b],
        ({
            let old_block = storage.blocks[location.0 as int];
            let new_block = after.blocks[location.0 as int];
            &&& new_block.edge_counter == old_block.edge_counter
            &&& new_block.is_tombstone == old_block.is_tombstone
            &&& new_block.pre_block_index == old_block.pre_block_index
            &&& new_block.edges.len() == old_block.edges.len()
            &&& new_block.edges[location.1 as int].eid == old_block.edges[location.1 as int].eid
            &&& forall|i: int|
                0 <= i < old_block.edges.len() && i != location.1
                    ==> #[trigger] new_block.edges[i] == old_block.edges[i]
        }),
    ensures
        after.indexed(),
        blocks_wf(after.blocks),
{
    assert forall|eid: EdgeId| #[trigger] after.locations.dom().contains(eid) implies
        after.location_exact(eid) by {
        assert(storage.location_exact(eid));
        let at = storage.locations[eid];
        assert(storage.blocks[at.0 as int].wf());
        if at.0 == location.0 {
            assert(after.blocks[at.0 as int].edges[at.1 as int].eid
                == storage.blocks[at.0 as int].edges[at.1 as int].eid);
        }
    }
    assert forall|b: int, offset: int|
        0 <= b < after.blocks.len() && 0 <= offset < after.blocks[b].edge_counter implies
        #[trigger] after.slot_recorded(b, offset) by {
        assert(storage.blocks[b].wf());
        assert(storage.slot_recorded(b, offset));
    }
    assert(blocks_wf(after.blocks)) by {
        assert forall|b: int| 0 <= b < after.blocks.len() implies (
        #[trigger] after.blocks[b]).wf() by {
            assert(storage.blocks[b].wf());
        }
        assert forall|b: int| 0 <= b < after.blocks.len() implies match (
        #[trigger] after.blocks[b]).pre_block_index {
            Some(pre) => pre < b,
            None => true,
        } by {
            assert(storage.blocks[b].wf());
        }
    }
    assert forall|b: int, offset: int|
        0 <= b < after.blocks.len() && (!after.blocks[b].is_tombstone || offset > 0)
            && after.blocks[b].edge_counter <= offset < BLOCK_CAPACITY implies (
    #[trigger] after.blocks[b].edges[offset]) == blank_slot() by {
        assert(storage.blocks[b].wf());
        assert(storage.blocks[b].edges[offset] == blank_slot());
    }
}

/// Taking an edge out keeps the map exact.
pub proof fn removal_keeps_index(storage: StorageModel, location: (usize, usize), eid: EdgeId)
    requires
        storage.wf(),
        storage.indexed(),
        storage.holds_at(location, eid),
    ensures
        storage.edge_removed(location, eid).indexed(),
        blocks_wf(storage.edge_removed(location, eid).blocks),
{
    let after = storage.edge_removed(location, eid);
    let b0 = location.0 as int;
    let off = location.1 as int;
    let block = storage.blocks[b0];
    let n = block.edge_counter;
    assert(block.wf());
    let closed = block.slot_removed(off);
    lemma_indexed_distinct(storage, b0);
    assert forall|i: int| 0 <= i < BLOCK_CAPACITY implies #[trigger] closed.edges[i] == (if i
        < off {
        block.edges[i]
    } else if i < n - 1 {
        block.edges[i + 1]
    } else if i == n - 1 {
        blank_slot()
    } else {
        block.edges[i]
    }) by {}
    assert(distinct_eids(closed.edges, off, n - 1)) by {
        assert forall|i: int| off <= i < n - 1 implies (#[trigger] closed.edges[i]).eid != 0 by {
            assert(closed.edges[i] == block.edges[i + 1]);
        }
        assert forall|i: int, j: int| off <= i < j < n - 1 implies (
        #[trigger] closed.edges[i]).eid != (#[trigger] closed.edges[j]).eid by {
            assert(closed.edges[i] == block.edges[i + 1]);
            assert(closed.edges[j] == block.edges[j + 1]);
        }
    }
    let moved = remapped(storage.locations, closed.edges, location.0, off, n - 1);
    assert(after.locations == moved.remove(eid));
    assert(storage.slot_recorded(b0, off));
    assert forall|b: int, offset: int|
        0 <= b < after.blocks.len() && 0 <= offset < after.blocks[b].edge_counter implies
        #[trigger] after.slot_recorded(b, offset) by {
        assert(storage.blocks[b].wf());
        if b == b0 {
            let e = closed.edges[offset].eid;
            if offset < off {
                assert(storage.slot_recorded(b0, offset));
                assert forall|i: int| off <= i < n - 1 implies (
                #[trigger] closed.edges[i]).eid != e by {
                    assert(closed.edges[i] == block.edges[i + 1]);
                    assert(block.edges[offset].eid != block.edges[i + 1].eid);
                }
                assert(block.edges[offset].eid != block.edges[off].eid);
                lemma_remapped_miss(storage.locations, closed.edges, location.0, off, n - 1, e);
            } else {
                assert(closed.edges[offset] == block.edges[offset + 1]);
                assert(block.edges[off].eid != block.edges[offset + 1].eid);
                lemma_remapped_hit(
                    storage.locations,
                    closed.edges,
                    location.0,
                    off,
                    n - 1,
                    offset,
                );
            }
        } else {
            assert(storage.slot_recorded(b, offset));
            let e = storage.blocks[b].edges[offset].eid;
            assert forall|i: int| off <= i < n - 1 implies (
            #[trigger] closed.edges[i]).eid != e by {
                assert(closed.edges[i] == block.edges[i + 1]);
                assert(storage.slot_recorded(b0, i + 1));
            }
            lemma_remapped_miss(storage.locations, closed.edges, location.0, off, n - 1, e);
        }
    }
    assert forall|e: EdgeId| #[trigger] after.locations.dom().contains(e) implies
        after.location_exact(e) by {
        assert(e != eid);
        if exists|i: int| off <= i < n - 1 && (#[trigger] closed.edges[i]).eid == e {
            let i = choose|i: int| off <= i < n - 1 && (#[trigger] closed.edges[i]).eid == e;
            assert(closed.edges[i] == block.edges[i + 1]);
            assert(storage.slot_recorded(b0, i + 1));
            assert(storage.location_exact(e));
            lemma_remapped_hit(storage.locations, closed.edges, location.0, off, n - 1, i);
        } else {
            lemma_remapped_miss(storage.locations, closed.edges, location.0, off, n - 1, e);
            assert(moved.dom().contains(e) == storage.locations.dom().contains(e));
            assert(storage.location_exact(e));
            let at = storage.locations[e];
            if at.0 == location.0 {
                let o = at.1 as int;
                if o > off {
                    assert(closed.edges[o - 1] == block.edges[o]);
                    assert(false);
                }
                assert(o != off);
            }
        }
    }
    assert forall|b: int, offset: int|
        0 <= b < after.blocks.len() && (!after.blocks[b].is_tombstone || offset > 0)
            && after.blocks[b].edge_counter <= offset < BLOCK_CAPACITY implies (
    #[trigger] after.blocks[b].edges[offset]) == blank_slot() by {
        assert(storage.blocks[b].wf());
        if b == b0 {
            if offset >= n {
                assert(storage.blocks[b].edges[offset] == blank_slot());
            }
        } else {
            assert(storage.blocks[b].edges[offset] == blank_slot());
        }
    }
    assert(blocks_wf(after.blocks)) by {
        assert forall|b: int| 0 <= b < after.blocks.len() implies (
        #[trigger] after.blocks[b]).wf() by {
            assert(storage.blocks[b].wf());
        }
        assert forall|b: int| 0 <= b < after.blocks.len() implies match (
        #[trigger] after.blocks[b]).pre_block_index {
            Some(pre) => pre < b,
            None => true,
        } by {
            assert(storage.blocks[b].wf());
        }
    }
}

/// Where the map is exact, an edge is where the map says, and looking for it changes nothing.
pub proof fn exact_map_resolves(storage: StorageModel, eid: EdgeId)
    requires
        storage.wf(),
        storage.indexed(),
    ensures
        storage.with_writable(eid) == storage,
        storage.located(eid) == (if storage.locations.dom().contains(eid) {
            Some(storage.locations[eid])
        } else {
            None
        }),
        storage.writable(eid) == (match storage.located(eid) {
            Some(location) if !storage.blocks[location.0 as int].is_tombstone => Some(location),
            _ => None,
        }),
{
    if storage.locations.dom().contains(eid) {
        assert(storage.location_exact(eid));
    }
}

/// Deleting an edge for good keeps the map exact.
pub proof fn deletion_keeps_index(storage: StorageModel, eid: EdgeId)
    requires
        storage.wf(),
        storage.indexed(),
        storage.located(eid) is Some,
    ensures
        storage.edge_deleted(storage.located(eid)->0, eid).indexed(),
        blocks_wf(storage.edge_deleted(storage.located(eid)->0, eid).blocks),
        storage.edge_deleted(storage.located(eid)->0, eid).located(eid) is None,
{
    let location = storage.located(eid)->0;
    let after = storage.edge_deleted(location, eid);
    let b0 = location.0 as int;
    assert(storage.blocks[b0].wf());
    if storage.blocks[b0].edge_counter == 1 {
        assert forall|e: EdgeId| #[trigger] after.locations.dom().contains(e) implies
            after.location_exact(e) by {
            assert(storage.location_exact(e));
            let at = storage.locations[e];
            if at.0 == location.0 {
                assert(storage.slot_recorded(b0, 0));
            }
        }
        assert forall|b: int, offset: int|
            0 <= b < after.blocks.len() && 0 <= offset < after.blocks[b].edge_counter implies
            #[trigger] after.slot_recorded(b, offset) by {
            assert(storage.slot_recorded(b, offset));
            assert(storage.slot_recorded(b0, 0));
        }
        assert(blocks_wf(after.blocks)) by {
            assert forall|b: int| 0 <= b < after.blocks.len() implies (
            #[trigger] after.blocks[b]).wf() by {
                assert(storage.blocks[b].wf());
            }
            assert forall|b: int| 0 <= b < after.blocks.len() implies match (
            #[trigger] after.blocks[b]).pre_block_index {
                Some(pre) => pre < b,
                None => true,
            } by {
                assert(storage.blocks[b].wf());
            }
        }
        assert forall|b: int, offset: int|
            0 <= b < after.blocks.len() && (!after.blocks[b].is_tombstone || offset > 0)
                && after.blocks[b].edge_counter <= offset < BLOCK_CAPACITY implies (
        #[trigger] after.blocks[b].edges[offset]) == blank_slot() by {
            assert(storage.blocks[b].edges[offset] == blank_slot());
        }
    } else {
        removal_keeps_index(storage, location, eid);
    }
}

proof fn lemma_chain_buried(blocks: Seq<BlockModel>, b: int)
    ensures
        chain_buried(blocks, b).len() == blocks.len(),
        forall|i: int|
            0 <= i < blocks.len() ==> #[trigger] chain_buried(blocks, b)[i] == blocks[i]
                || chain_buried(blocks, b)[i] == blocks[i].buried(),
    decreases b,
{
    if 0 <= b < blocks.len() {
        let next = blocks.update(b, blocks[b].buried());
        match blocks[b].pre_block_index {
            Some(pre) if pre < b => {
                lemma_chain_buried(next, pre as int);
                assert forall|i: int|
                    0 <= i < blocks.len() implies #[trigger] chain_buried(blocks, b)[i]
                    == blocks[i] || chain_buried(blocks, b)[i] == blocks[i].buried() by {
                    assert(chain_buried(next, pre as int)[i] == next[i] || chain_buried(
                        next,
                        pre as int,
                    )[i] == next[i].buried());
                }
            },
            _ => {},
        }
    }
}

/// Deleting a vertex keeps the map exact.
pub proof fn vertex_deletion_keeps_index(storage: StorageModel, after: StorageModel, b: int)
    requires
        storage.wf(),
        storage.indexed(),
        after.blocks == chain_buried(storage.blocks, b),
        after.locations == storage.locations,
        after.edge_id_counter == storage.edge_id_counter,
        after.deletions == storage.deletions,
    ensures
        after.indexed(),
{
    lemma_chain_buried(storage.blocks, b);
    assert forall|e: EdgeId| #[trigger] after.locations.dom().contains(e) implies
        after.location_exact(e) by {
        assert(storage.location_exact(e));
        let at = storage.locations[e];
        assert(after.blocks[at.0 as int] == storage.blocks[at.0 as int] || after.blocks[at.0 as int]
            == storage.blocks[at.0 as int].buried());
    }
    assert forall|i: int, offset: int|
        0 <= i < after.blocks.len() && 0 <= offset < after.blocks[i].edge_counter implies
        #[trigger] after.slot_recorded(i, offset) by {
        assert(after.blocks[i] == storage.blocks[i] || after.blocks[i]
            == storage.blocks[i].buried());
        assert(storage.slot_recorded(i, offset));
    }
    assert forall|i: int, offset: int|
        0 <= i < after.blocks.len() && (!after.blocks[i].is_tombstone || offset > 0)
            && after.blocks[i].edge_counter <= offset < BLOCK_CAPACITY implies (
    #[trigger] after.blocks[i].edges[offset]) == blank_slot() by {
        assert(after.blocks[i] == storage.blocks[i] || after.blocks[i]
            == storage.blocks[i].buried());
        assert(storage.blocks[i].edges[offset] == blank_slot());
    }
}

} // verus!
