//! Work inside one block: finding a slot, opening it, closing it.

use vstd::prelude::*;
use dashmap::DashMap;
use crate::common::types::{label_less, EdgeId, LabelId, VertexId};
use crate::common::value::ScalarValue;
use crate::storage::ap::collections::{edge_locations, location_insert};
use crate::storage::ap::model::{
    column_inserted, column_promoted, column_removed, column_reverted, column_wf,
    column_with_block, key_less, promoted, remapped, shifted_in, shifted_out, without_txn,
    BlockModel, PropBlockModel, WriteMode,
};
use crate::storage::ap::types::{
    blank_slot, EdgeBlock, OlapStorageEdge, PropertyBlock, PropertyColumn, PropertyVersion,
    BLOCK_CAPACITY,
};
use crate::transaction::Timestamp;

verus! {

/// A copy of a version list.
pub fn copy_versions(versions: &Vec<PropertyVersion>) -> (r: Vec<PropertyVersion>)
    ensures
        r@ == versions@,
{
    let mut r: Vec<PropertyVersion> = Vec::new();
    let mut i: usize = 0;
    while i < versions.len()
        invariant
            i <= versions.len(),
            r@ == versions@.take(i as int),
        decreases versions.len() - i,
    {
        r.push(versions[i].clone());
        i = i + 1;
        assert(r@ =~= versions@.take(i as int));
    }
    assert(versions@.take(i as int) =~= versions@);
    r
}

fn slot_less(slot: &OlapStorageEdge, dst_id: VertexId, label_id: Option<LabelId>) -> (r: bool)
    ensures
        r == key_less(slot.dst_id, slot.label_id, dst_id, label_id),
{
    slot.dst_id < dst_id || (slot.dst_id == dst_id && label_less(slot.label_id, label_id))
}

impl EdgeBlock {
    /// A block without edges.
    pub fn fresh(
        pre: Option<usize>,
        index: usize,
        src_id: VertexId,
        min_ts: Timestamp,
        max_ts: Timestamp,
    ) -> (r: EdgeBlock)
        ensures
            r@ == BlockModel::fresh(pre, index, src_id, min_ts, max_ts),
    {
        let r = EdgeBlock {
            pre_block_index: pre,
            cur_block_index: index,
            is_tombstone: false,
            max_label_id: Some(LabelId { raw: 1 }),
            min_label_id: Some(LabelId { raw: u32::MAX }),
            max_dst_id: 0,
            min_dst_id: u64::MAX,
            min_ts,
            max_ts,
            src_id,
            edge_counter: 0,
            edges: [OlapStorageEdge::default();BLOCK_CAPACITY],
        };
        assert(r@ =~= BlockModel::fresh(pre, index, src_id, min_ts, max_ts));
        r
    }

    /// Where an edge with this destination and label belongs, by bisection.
    pub fn find_slot(&self, dst_id: VertexId, label_id: Option<LabelId>) -> (pos: usize)
        requires
            self@.wf(),
        ensures
            self@.is_slot_for(pos as int, dst_id, label_id),
    {
        let mut lo: usize = 0;
        let mut hi: usize = self.edge_counter;
        while lo < hi
            invariant
                lo <= hi <= self.edge_counter <= BLOCK_CAPACITY,
                lo > 0 ==> key_less(
                    self.edges[lo - 1].dst_id,
                    self.edges[lo - 1].label_id,
                    dst_id,
                    label_id,
                ),
                hi < self.edge_counter ==> !key_less(
                    self.edges[hi as int].dst_id,
                    self.edges[hi as int].label_id,
                    dst_id,
                    label_id,
                ),
            decreases hi - lo,
        {
            let mid: usize = lo + (hi - lo) / 2;
            if slot_less(&self.edges[mid], dst_id, label_id) {
                lo = mid + 1;
            } else {
                hi = mid;
            }
        }
        lo
    }

    /// Puts an edge in a slot; the edges from there on move up by one. A block that was buried
    /// without edges is in use again.
    pub fn insert_slot(&mut self, pos: usize, slot: OlapStorageEdge)
        requires
            old(self)@.wf(),
            pos <= old(self).edge_counter < BLOCK_CAPACITY,
        ensures
            final(self)@ == old(self)@.slot_inserted(pos as int, slot),
            final(self)@.wf(),
    {
        let n: usize = self.edge_counter;
        let mut i: usize = n;
        while i > pos
            invariant
                pos <= i <= n < BLOCK_CAPACITY,
                *self == (EdgeBlock { edges: self.edges, ..*old(self) }),
                n == old(self).edge_counter,
                forall|k: int|
                    0 <= k < BLOCK_CAPACITY ==> #[trigger] self.edges@[k] == (if i < k <= n {
                        old(self).edges@[k - 1]
                    } else {
                        old(self).edges@[k]
                    }),
            decreases i,
        {
            self.edges[i] = self.edges[i - 1];
            i = i - 1;
        }
        self.edges[pos] = slot;
        self.edge_counter = n + 1;
        if n == 0 {
            self.is_tombstone = false;
        }
        assert(self.edges@ =~= shifted_in(old(self).edges@, pos as int, n as int, slot));
    }

    /// Takes an edge out of its slot; the edges behind it move down by one.
    pub fn remove_slot(&mut self, offset: usize)
        requires
            old(self)@.wf(),
            offset < old(self).edge_counter,
        ensures
            final(self)@ == old(self)@.slot_removed(offset as int),
            final(self)@.wf(),
    {
        let n: usize = self.edge_counter;
        let mut i: usize = offset;
        while i < n - 1
            invariant
                offset <= i < n <= BLOCK_CAPACITY,
                *self == (EdgeBlock { edges: self.edges, ..*old(self) }),
                forall|k: int|
                    0 <= k < BLOCK_CAPACITY ==> #[trigger] self.edges@[k] == (if offset <= k < i {
                        old(self).edges@[k + 1]
                    } else {
                        old(self).edges@[k]
                    }),
            decreases n - i,
        {
            self.edges[i] = self.edges[i + 1];
            i = i + 1;
        }
        self.edges[n - 1] = OlapStorageEdge::default();
        self.edge_counter = n - 1;
        assert(self.edges@ =~= shifted_out(
            old(self).edges@,
            offset as int,
            n as int,
            blank_slot(),
        ));
    }

    /// Takes one more edge into the bounds on destinations and labels.
    pub fn widen(&mut self, dst_id: VertexId, label_id: Option<LabelId>)
        ensures
            final(self)@ == old(self)@.widened(dst_id, label_id),
    {
        if dst_id <= self.min_dst_id {
            self.min_dst_id = dst_id;
        }
        if dst_id >= self.max_dst_id {
            self.max_dst_id = dst_id;
        }
        if !label_less(label_id, self.max_label_id) {
            self.max_label_id = label_id;
        }
        if !label_less(self.min_label_id, label_id) {
            self.min_label_id = label_id;
        }
    }

    /// Takes one more timestamp into the bounds.
    pub fn stamp(&mut self, ts: Timestamp)
        ensures
            final(self)@ == old(self)@.stamped(ts),
    {
        self.min_ts = self.min_ts.earlier(ts);
        self.max_ts = self.max_ts.later(ts);
    }

    /// Takes a commit timestamp into the bounds, in place of marks of running transactions.
    pub fn stamp_commit(&mut self, ts: Timestamp)
        ensures
            final(self)@ == old(self)@.committed(ts),
    {
        self.min_ts = if self.min_ts.is_txn_id() {
            ts
        } else {
            self.min_ts.earlier(ts)
        };
        self.max_ts = if self.max_ts.is_txn_id() {
            ts
        } else {
            self.max_ts.later(ts)
        };
    }

    /// Enters the edges of the slots `lo..hi` in the map of locations.
    pub fn enter_locations(
        &self,
        locations: &mut DashMap<EdgeId, (usize, usize)>,
        b: usize,
        lo: usize,
        hi: usize,
    )
        requires
            hi <= BLOCK_CAPACITY,
        ensures
            edge_locations(*final(locations)) == remapped(
                edge_locations(*old(locations)),
                self@.edges,
                b,
                lo as int,
                hi as int,
            ),
    {
        let mut i: usize = lo;
        while i < hi
            invariant
                lo <= i,
                i <= hi || i == lo,
                hi <= BLOCK_CAPACITY,
                edge_locations(*locations) == remapped(
                    edge_locations(*old(locations)),
                    self@.edges,
                    b,
                    lo as int,
                    i as int,
                ),
            decreases hi - i,
        {
            let eid: EdgeId = self.edges[i].eid;
            if eid != 0 {
                location_insert(locations, eid, (b, i));
            }
            i = i + 1;
        }
    }
}

impl PropertyBlock {
    /// A block without versions.
    pub fn fresh(min_ts: Timestamp, max_ts: Timestamp) -> (r: PropertyBlock)
        ensures
            r@ == PropBlockModel::fresh(min_ts, max_ts),
    {
        let mut values: Vec<Vec<PropertyVersion>> = Vec::new();
        let mut i: usize = 0;
        while i < BLOCK_CAPACITY
            invariant
                i <= BLOCK_CAPACITY,
                values.len() == i,
                forall|k: int|
                    0 <= k < i ==> (#[trigger] values@[k])@ == Seq::<PropertyVersion>::empty(),
            decreases BLOCK_CAPACITY - i,
        {
            values.push(Vec::new());
            i = i + 1;
        }
        let r = PropertyBlock { min_ts, max_ts, values };
        assert(r@.values =~= PropBlockModel::fresh(min_ts, max_ts).values);
        r
    }

    /// Takes one more timestamp into the bounds.
    pub fn stamp(&mut self, ts: Timestamp)
        ensures
            final(self)@ == old(self)@.stamped(ts),
    {
        self.min_ts = self.min_ts.earlier(ts);
        self.max_ts = self.max_ts.later(ts);
    }

    /// Adds a version to those of a slot.
    pub fn push_version(&mut self, offset: usize, version: PropertyVersion)
        requires
            offset < old(self)@.values.len(),
        ensures
            final(self)@ == old(self)@.version_pushed(offset as int, version),
    {
        self.values[offset].push(version);
        assert(self@.values =~= old(self)@.version_pushed(offset as int, version).values);
    }

    /// Makes room for a slot: the versions from there on are copied one place further.
    pub fn open_slot(&mut self, pos: usize, n: usize)
        requires
            old(self)@.wf(),
            pos <= n < BLOCK_CAPACITY,
        ensures
            final(self)@ == old(self)@.slot_opened(pos as int, n as int),
            final(self)@.wf(),
    {
        let mut i: usize = n;
        while i > pos
            invariant
                pos <= i <= n < BLOCK_CAPACITY,
                self.min_ts == old(self).min_ts,
                self.max_ts == old(self).max_ts,
                self@.values.len() == BLOCK_CAPACITY,
                old(self)@.values.len() == BLOCK_CAPACITY,
                forall|k: int|
                    0 <= k < BLOCK_CAPACITY ==> #[trigger] self@.values[k] == (if i < k <= n {
                        old(self)@.values[k - 1]
                    } else {
                        old(self)@.values[k]
                    }),
            decreases i,
        {
            let ghost before = self@.values;
            let copy = copy_versions(&self.values[i - 1]);
            self.values[i] = copy;
            assert(self@.values =~= before.update(i as int, before[i - 1]));
            i = i - 1;
        }
        assert(self@.values =~= shifted_in(
            old(self)@.values,
            pos as int,
            n as int,
            old(self)@.values[pos as int],
        ));
    }

    /// Closes a slot: the versions behind it move one place nearer.
    pub fn close_slot(&mut self, offset: usize, n: usize)
        requires
            old(self)@.wf(),
            offset < n <= BLOCK_CAPACITY,
        ensures
            final(self)@ == old(self)@.slot_closed(offset as int, n as int),
            final(self)@.wf(),
    {
        let mut i: usize = offset;
        while i < n - 1
            invariant
                offset <= i < n <= BLOCK_CAPACITY,
                self.min_ts == old(self).min_ts,
                self.max_ts == old(self).max_ts,
                self@.values.len() == BLOCK_CAPACITY,
                old(self)@.values.len() == BLOCK_CAPACITY,
                forall|k: int|
                    0 <= k < BLOCK_CAPACITY ==> #[trigger] self@.values[k] == (if offset <= k < i {
                        old(self)@.values[k + 1]
                    } else {
                        old(self)@.values[k]
                    }),
            decreases n - i,
        {
            let ghost before = self@.values;
            let copy = copy_versions(&self.values[i + 1]);
            self.values[i] = copy;
            assert(self@.values =~= before.update(i as int, before[i + 1]));
            i = i + 1;
        }
        let ghost before = self@.values;
        self.values[n - 1] = Vec::new();
        assert(self@.values =~= before.update(n - 1, Seq::<PropertyVersion>::empty()));
        assert(self@.values =~= shifted_out(
            old(self)@.values,
            offset as int,
            n as int,
            Seq::<PropertyVersion>::empty(),
        ));
    }
}

impl PropertyColumn {
    /// Makes sure that the column has a block at the index.
    pub fn ensure_block(&mut self, index: usize, min_ts: Timestamp, max_ts: Timestamp)
        requires
            index <= old(self)@.len(),
        ensures
            final(self)@ == column_with_block(old(self)@, index as int, min_ts, max_ts),
            column_wf(old(self)@) ==> column_wf(final(self)@),
            index < final(self)@.len(),
    {
        if index >= self.blocks.len() {
            self.blocks.insert(index, PropertyBlock::fresh(min_ts, max_ts));
        }
        assert(self@ =~= column_with_block(old(self)@, index as int, min_ts, max_ts));
    }

    /// Makes room for an edge in slot `pos` of block `b`, which held `n` edges, and stores the
    /// first version of its property.
    pub fn insert_property(
        &mut self,
        b: usize,
        pos: usize,
        n: usize,
        value: Option<ScalarValue>,
        mode: WriteMode,
    )
        requires
            b <= old(self)@.len(),
            column_wf(old(self)@),
            pos <= n < BLOCK_CAPACITY,
        ensures
            final(self)@ == column_inserted(
                old(self)@,
                b as int,
                pos as int,
                n as int,
                value,
                mode,
            ),
            column_wf(final(self)@),
    {
        self.ensure_block(b, mode.fresh_min, mode.fresh_max);
        let ghost ready = self@;
        if mode.transactional {
            self.blocks[b].stamp(mode.ts);
        }
        assert(self@ =~= ready.update(
            b as int,
            if mode.transactional {
                ready[b as int].stamped(mode.ts)
            } else {
                ready[b as int]
            },
        ));
        let ghost stamped = self@;
        assert(stamped[b as int].wf());
        self.blocks[b].open_slot(pos, n);
        self.blocks[b].push_version(pos, PropertyVersion { ts: mode.ts, value });
        assert(self@ =~= column_inserted(
            old(self)@,
            b as int,
            pos as int,
            n as int,
            value,
            mode,
        ));
    }

    /// Closes a slot of a block, where the column has that block.
    pub fn remove_property(&mut self, b: usize, offset: usize, n: usize)
        requires
            column_wf(old(self)@),
            offset < n <= BLOCK_CAPACITY,
        ensures
            final(self)@ == column_removed(old(self)@, b as int, offset as int, n as int),
            column_wf(final(self)@),
    {
        if b < self.blocks.len() {
            assert(self@[b as int].wf());
            self.blocks[b].close_slot(offset, n);
        }
        assert(self@ =~= column_removed(old(self)@, b as int, offset as int, n as int));
    }

    /// Commits the versions of a property that the transaction wrote.
    pub fn promote(&mut self, location: (usize, usize), txn_id: Timestamp, commit_ts: Timestamp)
        requires
            column_wf(old(self)@),
        ensures
            final(self)@ == column_promoted(old(self)@, location, txn_id, commit_ts),
            column_wf(final(self)@),
    {
        let b: usize = location.0;
        let offset: usize = location.1;
        if b < self.blocks.len() && offset < self.blocks[b].values.len() {
            let ghost block = self.blocks[b as int]@;
            assert(self@[b as int] == block);
            assert(block.values[offset as int] == self.blocks[b as int].values@[offset as int]@);
            let (versions, any) = versions_promoted(
                &self.blocks[b].values[offset],
                txn_id,
                commit_ts,
            );
            if any {
                self.blocks[b].values[offset] = versions;
                self.blocks[b].stamp(commit_ts);
                assert(self.blocks[b as int]@ =~= block.with_versions(
                    offset as int,
                    promoted(block.values[offset as int], txn_id, commit_ts),
                ).stamped(commit_ts));
            }
        }
        assert(self@ =~= column_promoted(old(self)@, location, txn_id, commit_ts));
    }

    /// Drops the versions that a transaction wrote for an edge.
    pub fn revert(&mut self, location: (usize, usize), txn_id: Timestamp, old_ts: Timestamp)
        requires
            column_wf(old(self)@),
            location.0 <= old(self)@.len(),
            location.1 < BLOCK_CAPACITY,
        ensures
            final(self)@ == column_reverted(old(self)@, location, txn_id, old_ts),
            column_wf(final(self)@),
    {
        let b: usize = location.0;
        let offset: usize = location.1;
        self.ensure_block(b, old_ts, old_ts);
        let ghost ready = self@;
        assert(ready[b as int].wf());
        self.blocks[b].stamp(old_ts);
        let kept = versions_without(&self.blocks[b].values[offset], txn_id);
        self.blocks[b].values[offset] = kept;
        let ghost block = ready[b as int].stamped(old_ts);
        assert(self.blocks[b as int]@.values =~= block.values.update(
            offset as int,
            without_txn(block.values[offset as int], txn_id),
        ));
        assert(self@ =~= column_reverted(old(self)@, location, txn_id, old_ts));
    }
}

/// A version list in which what a transaction wrote has been committed, and whether it wrote any.
fn versions_promoted(
    versions: &Vec<PropertyVersion>,
    txn_id: Timestamp,
    commit_ts: Timestamp,
) -> (r: (Vec<PropertyVersion>, bool))
    ensures
        r.0@ == promoted(versions@, txn_id, commit_ts),
        r.1 == (exists|i: int| 0 <= i < versions@.len() && (#[trigger] versions@[i]).ts == txn_id),
{
    let mut r: Vec<PropertyVersion> = Vec::new();
    let mut any = false;
    let mut i: usize = 0;
    while i < versions.len()
        invariant
            i <= versions.len(),
            r.len() == i,
            forall|k: int|
                0 <= k < i ==> #[trigger] r@[k] == promoted(versions@, txn_id, commit_ts)[k],
            any == (exists|k: int| 0 <= k < i && (#[trigger] versions@[k]).ts == txn_id),
        decreases versions.len() - i,
    {
        let mut version = versions[i].clone();
        if version.ts == txn_id {
            version.ts = commit_ts;
            any = true;
            assert(versions@[i as int].ts == txn_id);
        }
        r.push(version);
        i = i + 1;
    }
    assert(r@ =~= promoted(versions@, txn_id, commit_ts));
    (r, any)
}

/// A version list without what a transaction wrote.
fn versions_without(versions: &Vec<PropertyVersion>, txn_id: Timestamp) -> (r: Vec<PropertyVersion>)
    ensures
        r@ == without_txn(versions@, txn_id),
{
    let mut r: Vec<PropertyVersion> = Vec::new();
    let ghost keep = |v: PropertyVersion| v.ts != txn_id;
    assert(versions@.take(0) =~= Seq::empty());
    proof {
        reveal(Seq::filter);
    }
    let mut i: usize = 0;
    while i < versions.len()
        invariant
            i <= versions.len(),
            keep == (|v: PropertyVersion| v.ts != txn_id),
            r@ == versions@.take(i as int).filter(keep),
        decreases versions.len() - i,
    {
        proof {
            reveal(Seq::filter);
            assert(versions@.take(i + 1).drop_last() =~= versions@.take(i as int));
        }
        if versions[i].ts != txn_id {
            r.push(versions[i].clone());
        }
        i = i + 1;
    }
    assert(versions@.take(i as int) =~= versions@);
    r
}

} // verus!
