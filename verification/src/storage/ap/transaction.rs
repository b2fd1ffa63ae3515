//! Transactions over the storage: they mark what they write with their identifier, and end by
//! replacing the marks with a commit timestamp or by taking every change back.

use vstd::prelude::*;
use std::collections::HashMap;
use crate::common::text::{decimal, numbered};
use crate::common::types::{EdgeId, LabelId, VertexId};
use crate::storage::ap::collections::{location_get, location_remove};
use crate::storage::ap::model::{
    blocks_wf, column_promoted, column_removed, column_reverted, column_wf, columns_reverted,
    columns_wf, remapped, StorageModel, TxnModel,
};
use crate::storage::ap::olap_graph::OlapStorage;
use crate::storage::ap::types::BLOCK_CAPACITY;
use crate::storage::error::{StorageError, StorageResult, TransactionError};
use crate::storage::model::DeltaOp;
use crate::transaction::{
    IsolationLevel, Timestamp, TimestampError, TimestampGenerator, Transaction,
};

verus! {

broadcast use vstd::std_specs::hash::group_hash_axioms;

/// A transaction over the storage.
pub struct MemTransaction {
    pub txn_id: Timestamp,
    pub start_ts: Timestamp,
    pub isolation_level: IsolationLevel,
    /// Set once, by the commit.
    pub commit_ts: Option<Timestamp>,
    /// The changes so far, each with the timestamp that it replaced.
    pub undo_buffer: Vec<(DeltaOp, Timestamp)>,
    /// Label and destination of the edges that the transaction deleted.
    pub deleted_edge_snapshot: HashMap<EdgeId, (Option<LabelId>, VertexId)>,
}

impl View for MemTransaction {
    type V = TxnModel;

    open spec fn view(&self) -> TxnModel {
        TxnModel {
            txn_id: self.txn_id,
            start_ts: self.start_ts,
            isolation_level: self.isolation_level,
            commit_ts: self.commit_ts,
            undo: self.undo_buffer@.map_values(
                |entry: (DeltaOp, Timestamp)| (entry.0@, entry.1),
            ),
            deleted: self.deleted_edge_snapshot@,
        }
    }
}

impl MemTransaction {
    pub fn new(txn_id: Timestamp, start_ts: Timestamp, isolation_level: IsolationLevel) -> (r: Self)
        ensures
            r@ == (TxnModel {
                txn_id,
                start_ts,
                isolation_level,
                commit_ts: None,
                undo: Seq::empty(),
                deleted: Map::empty(),
            }),
    {
        let r = MemTransaction {
            txn_id,
            start_ts,
            isolation_level,
            commit_ts: None,
            undo_buffer: Vec::new(),
            deleted_edge_snapshot: HashMap::new(),
        };
        assert(r@.undo =~= Seq::empty());
        r
    }

    /// Records a change with the timestamp that it replaced.
    pub fn push_undo(&mut self, op: DeltaOp, ts: Timestamp)
        ensures
            final(self)@ == old(self)@.undo_pushed(op@, ts),
            final(self).undo_buffer@ == old(self).undo_buffer@.push((op, ts)),
    {
        self.undo_buffer.push((op, ts));
        assert(self@ =~= old(self)@.undo_pushed(op@, ts));
    }

    /// Records label and destination of an edge before its deletion.
    pub fn record_deleted_edge(
        &mut self,
        eid: EdgeId,
        label_id: Option<LabelId>,
        dst_id: VertexId,
    )
        ensures
            final(self)@ == old(self)@.deletion_recorded(eid, label_id, dst_id),
            final(self).undo_buffer@ == old(self).undo_buffer@,
    {
        self.deleted_edge_snapshot.insert(eid, (label_id, dst_id));
        assert(self@ =~= old(self)@.deletion_recorded(eid, label_id, dst_id));
    }
}

// ---------------------------------------------------------------------------------------------
// The end of a transaction
// ---------------------------------------------------------------------------------------------

impl OlapStorage {
    /// The location of an edge, where the recorded one still holds it.
    pub fn locate(&self, eid: EdgeId) -> (r: Option<(usize, usize)>)
        requires
            self@.wf(),
        ensures
            r == self@.located(eid),
    {
        match location_get(&self.edge_id_map, eid) {
            Some(location) => if self.holds_edge_at(location, eid) {
                Some(location)
            } else {
                None
            },
            None => None,
        }
    }

    /// Gives an edge that carries the mark of a transaction its commit timestamp; with
    /// `properties`, what the transaction wrote of its properties too.
    fn commit_edge(
        &mut self,
        eid: EdgeId,
        txn_id: Timestamp,
        commit_ts: Timestamp,
        properties: bool,
    )
        requires
            old(self)@.wf(),
        ensures
            final(self)@ == (match old(self)@.located(eid) {
                Some(location) => if properties {
                    old(self)@.edge_committed(location, txn_id, commit_ts).properties_committed(
                        location,
                        txn_id,
                        commit_ts,
                    )
                } else {
                    old(self)@.edge_committed(location, txn_id, commit_ts)
                },
                None => old(self)@,
            }),
            final(self)@.wf(),
    {
        let location = match self.locate(eid) {
            Some(location) => location,
            None => {
                return;
            },
        };
        let b: usize = location.0;
        let offset: usize = location.1;
        assert(self@.blocks[b as int].wf());
        let ghost before = self@;
        if self.edges[b].edges[offset].commit_ts == txn_id {
            self.edges[b].edges[offset].commit_ts = commit_ts;
        }
        self.edges[b].stamp_commit(commit_ts);
        let ghost committed = before.edge_committed(location, txn_id, commit_ts);
        assert(self.edges[b as int]@ =~= committed.blocks[b as int]);
        assert(self@.blocks =~= committed.blocks);
        assert(self@ =~= committed);
        assert(blocks_wf(self@.blocks));
        if !properties {
            return;
        }
        let mut c: usize = 0;
        while c < self.property_columns.len()
            invariant
                c <= self@.columns.len(),
                self@.columns.len() == committed.columns.len(),
                self@.wf(),
                self@ == (StorageModel { columns: self@.columns, ..committed }),
                forall|d: int|
                    0 <= d < self@.columns.len() ==> #[trigger] self@.columns[d] == (if d < c {
                        column_promoted(committed.columns[d], location, txn_id, commit_ts)
                    } else {
                        committed.columns[d]
                    }),
            decreases self.property_columns.len() - c,
        {
            let ghost step = self@;
            assert(column_wf(self@.columns[c as int]));
            self.property_columns[c].promote(location, txn_id, commit_ts);
            assert(self@.columns =~= step.columns.update(
                c as int,
                column_promoted(step.columns[c as int], location, txn_id, commit_ts),
            ));
            assert(self@ =~= (StorageModel { columns: self@.columns, ..committed }));
            assert(columns_wf(self@.columns)) by {
                assert forall|d: int| 0 <= d < self@.columns.len() implies column_wf(
                    #[trigger] self@.columns[d],
                ) by {
                    if d != c {
                        assert(self@.columns[d] == step.columns[d]);
                    }
                }
            }
            c = c + 1;
        }
        assert(self@.columns =~= committed.properties_committed(
            location,
            txn_id,
            commit_ts,
        ).columns);
        assert(self@ =~= committed.properties_committed(location, txn_id, commit_ts));
    }

    /// Takes the edge at a location out of its block, the map of locations and every column.
    pub fn remove_edge_at(&mut self, location: (usize, usize), eid: EdgeId)
        requires
            old(self)@.wf(),
            old(self)@.holds_at(location, eid),
        ensures
            final(self)@ == old(self)@.edge_removed(location, eid),
            final(self)@.wf(),
    {
        let b: usize = location.0;
        let offset: usize = location.1;
        let ghost before = self@;
        assert(before.blocks[b as int].wf());
        let n: usize = self.edges[b].edge_counter;
        self.edges[b].remove_slot(offset);
        let ghost block = self.edges[b as int]@;
        self.edges[b].enter_locations(&mut self.edge_id_map, b, offset, n - 1);
        location_remove(&mut self.edge_id_map, eid);
        let ghost closed = self@;
        assert(closed.blocks =~= before.blocks.update(b as int, block));
        assert(closed =~= (StorageModel {
            blocks: before.blocks.update(b as int, block),
            locations: remapped(before.locations, block.edges, b, offset as int, n - 1).remove(eid),
            ..before
        }));
        assert(blocks_wf(closed.blocks));
        let mut c: usize = 0;
        while c < self.property_columns.len()
            invariant
                c <= self@.columns.len(),
                self@.columns.len() == closed.columns.len(),
                self@.wf(),
                offset < n <= BLOCK_CAPACITY,
                self@ == (StorageModel { columns: self@.columns, ..closed }),
                forall|d: int|
                    0 <= d < self@.columns.len() ==> #[trigger] self@.columns[d] == (if d < c {
                        column_removed(closed.columns[d], b as int, offset as int, n as int)
                    } else {
                        closed.columns[d]
                    }),
            decreases self.property_columns.len() - c,
        {
            let ghost step = self@;
            assert(column_wf(self@.columns[c as int]));
            self.property_columns[c].remove_property(b, offset, n);
            assert(self@.columns =~= step.columns.update(
                c as int,
                column_removed(step.columns[c as int], b as int, offset as int, n as int),
            ));
            assert(self@ =~= (StorageModel { columns: self@.columns, ..closed }));
            assert(columns_wf(self@.columns)) by {
                assert forall|d: int| 0 <= d < self@.columns.len() implies column_wf(
                    #[trigger] self@.columns[d],
                ) by {
                    if d != c {
                        assert(self@.columns[d] == step.columns[d]);
                    }
                }
            }
            c = c + 1;
        }
        assert(self@.columns =~= before.edge_removed(location, eid).columns);
        assert(self@ =~= before.edge_removed(location, eid));
    }

    /// Takes back the creation of an edge.
    fn undo_create(&mut self, eid: EdgeId, txn_id: Timestamp)
        requires
            old(self)@.wf(),
        ensures
            final(self)@ == (match old(self)@.marked(eid, txn_id) {
                Some(location) => old(self)@.edge_removed(location, eid),
                None => old(self)@,
            }),
            final(self)@.wf(),
    {
        if let Some(location) = self.locate(eid) {
            assert(self@.blocks[location.0 as int].wf());
            if self.edges[location.0].edges[location.1].commit_ts == txn_id {
                self.remove_edge_at(location, eid);
            }
        }
    }

    /// Takes back a write of properties.
    fn undo_set_props(
        &mut self,
        eid: EdgeId,
        indices: &Vec<usize>,
        old_ts: Timestamp,
        txn_id: Timestamp,
    )
        requires
            old(self)@.wf(),
            old(self)@.located(eid) matches Some(location) ==> old(self)@.takes_properties(
                location,
                indices@,
            ),
        ensures
            final(self)@ == (match old(self)@.located(eid) {
                Some(location) => StorageModel {
                    columns: columns_reverted(
                        old(self)@.columns,
                        location,
                        indices@,
                        txn_id,
                        old_ts,
                        indices@.len(),
                    ),
                    ..old(self)@
                },
                None => old(self)@,
            }),
            final(self)@.wf(),
    {
        let location = match self.locate(eid) {
            Some(location) => location,
            None => {
                return;
            },
        };
        assert(self@.blocks[location.0 as int].wf());
        let ghost before = self@;
        let mut k: usize = 0;
        while k < indices.len()
            invariant
                k <= indices.len(),
                location.1 < BLOCK_CAPACITY,
                self@.wf(),
                self@.columns.len() == before.columns.len(),
                self@ == (StorageModel {
                    columns: columns_reverted(
                        before.columns,
                        location,
                        indices@,
                        txn_id,
                        old_ts,
                        k as nat,
                    ),
                    ..before
                }),
                self@.takes_properties(location, indices@),
            decreases indices.len() - k,
        {
            let ghost step = self@;
            let c: usize = indices[k];
            if c < self.property_columns.len() {
                assert(column_wf(step.columns[c as int]));
                assert(step.columns[indices@[k as int] as int].len() >= location.0);
                assert(step.columns[c as int] == self.property_columns[c as int]@);
                self.property_columns[c].revert(location, txn_id, old_ts);
                assert(self@.columns =~= step.columns.update(
                    c as int,
                    column_reverted(step.columns[c as int], location, txn_id, old_ts),
                ));
                assert(self@ =~= (StorageModel { columns: self@.columns, ..before }));
                assert(columns_wf(self@.columns)) by {
                    assert forall|d: int| 0 <= d < self@.columns.len() implies column_wf(
                        #[trigger] self@.columns[d],
                    ) by {
                        if d != c {
                            assert(self@.columns[d] == step.columns[d]);
                        }
                    }
                }
                assert(self@.takes_properties(location, indices@)) by {
                    assert forall|m: int|
                        0 <= m < indices@.len() && indices@[m] < self@.columns.len() implies
                        self@.columns[#[trigger] indices@[m] as int].len() >= location.0 by {
                        assert(step.columns[indices@[m] as int].len() >= location.0);
                    }
                }
            }
            k = k + 1;
        }
    }
}

/// The commit timestamp that a commit asks for, and the clock after it.
pub open spec fn commit_choice(
    clock: TimestampGenerator,
    requested: Option<Timestamp>,
) -> (Result<Timestamp, TimestampError>, TimestampGenerator) {
    match requested {
        Some(ts) => if ts.spec_is_commit_ts() {
            (
                Ok(ts),
                if clock.counter > ts.0 {
                    clock
                } else {
                    TimestampGenerator { counter: (ts.0 + 1) as u64 }
                },
            )
        } else {
            (Err(TimestampError::NotACommitTs(ts.0)), clock)
        },
        None => if clock.counter < Timestamp::TXN_ID_START {
            (
                Ok(Timestamp(clock.counter)),
                TimestampGenerator { counter: (clock.counter + 1) as u64 },
            )
        } else {
            (Err(TimestampError::CommitTsOverflow(clock.counter)), clock)
        },
    }
}

fn choose_commit_ts(clock: &mut TimestampGenerator, requested: Option<Timestamp>) -> (r: Result<
    Timestamp,
    TimestampError,
>)
    ensures
        r == commit_choice(*old(clock), requested).0,
        *final(clock) == commit_choice(*old(clock), requested).1,
{
    match requested {
        Some(ts) => match clock.update_if_greater(ts) {
            Ok(_) => Ok(ts),
            Err(e) => Err(e),
        },
        None => clock.next(),
    }
}

/// `Timestamp({ts})`
pub open spec fn timestamp_text(ts: Timestamp) -> Seq<char> {
    "Timestamp("@ + decimal(ts.0 as nat) + ")"@
}

/// `abort called on already committed transaction at Timestamp({ts})`
pub open spec fn abort_refusal(ts: Timestamp) -> Seq<char> {
    "abort called on already committed transaction at Timestamp("@ + decimal(ts.0 as nat) + ")"@
}

impl MemTransaction {
    /// Commits: takes a commit timestamp, the requested one or the next one of the clock, and
    /// replaces with it the marks that the transaction left.
    pub fn commit_at(
        &mut self,
        storage: &mut OlapStorage,
        clock: &mut TimestampGenerator,
        commit_ts_opt: Option<Timestamp>,
    ) -> (r: StorageResult<Timestamp>)
        requires
            old(storage)@.wf(),
        ensures
            *final(clock) == commit_choice(*old(clock), commit_ts_opt).1,
            final(storage)@.wf(),
            match commit_choice(*old(clock), commit_ts_opt).0 {
                Err(e) => {
                    &&& r == Err::<Timestamp, StorageError>(
                        StorageError::Transaction(TransactionError::Timestamp(e)),
                    )
                    &&& final(storage)@ == old(storage)@
                    &&& final(self)@ == old(self)@
                },
                Ok(ts) => if old(self)@.commit_ts is Some {
                    &&& r is Err
                    &&& r->Err_0.is_already_committed(timestamp_text(ts))
                    &&& final(storage)@ == old(storage)@
                    &&& final(self)@ == old(self)@
                } else {
                    &&& r == Ok::<Timestamp, StorageError>(ts)
                    &&& final(storage)@ == old(storage)@.changes_committed(
                        old(self)@.undo,
                        old(self)@.txn_id,
                        ts,
                        old(self)@.undo.len(),
                    )
                    &&& final(self)@ == (TxnModel {
                        commit_ts: Some(ts),
                        ..old(self)@.cleared()
                    })
                },
            },
    {
        let commit_ts = match choose_commit_ts(clock, commit_ts_opt) {
            Ok(ts) => ts,
            Err(e) => {
                return Err(StorageError::Transaction(TransactionError::Timestamp(e)));
            },
        };
        if self.commit_ts.is_some() {
            return Err(
                StorageError::Transaction(
                    TransactionError::TransactionAlreadyCommitted(
                        numbered("Timestamp(", commit_ts.0, ")"),
                    ),
                ),
            );
        }
        self.commit_ts = Some(commit_ts);
        let txn_id: Timestamp = self.txn_id;
        let ghost undo = self@.undo;
        let mut k: usize = 0;
        while k < self.undo_buffer.len()
            invariant
                k <= self.undo_buffer.len(),
                undo == self@.undo,
                storage@.wf(),
                self@ == (TxnModel { commit_ts: Some(commit_ts), ..old(self)@ }),
                txn_id == self.txn_id,
                storage@ == old(storage)@.changes_committed(undo, txn_id, commit_ts, k as nat),
            decreases self.undo_buffer.len() - k,
        {
            let ghost before = storage@;
            assert(undo[k as int] == (
                self.undo_buffer@[k as int].0@,
                self.undo_buffer@[k as int].1,
            ));
            match &self.undo_buffer[k].0 {
                DeltaOp::CreateEdge(edge) => {
                    storage.commit_edge(edge.eid, txn_id, commit_ts, true);
                },
                DeltaOp::SetEdgeProps(eid, _) => {
                    storage.commit_edge(*eid, txn_id, commit_ts, true);
                },
                DeltaOp::DelEdge(eid) => {
                    storage.commit_edge(*eid, txn_id, commit_ts, false);
                    let ghost committed = storage@;
                    storage.deletions.promote(*eid, txn_id, commit_ts);
                    assert(storage@ =~= committed.deletion_committed(*eid, txn_id, commit_ts));
                },
                _ => {},
            }
            assert(storage@ == before.change_committed(undo[k as int].0, txn_id, commit_ts));
            k = k + 1;
        }
        self.deleted_edge_snapshot.clear();
        self.undo_buffer.clear();
        assert(self@.undo =~= Seq::empty());
        assert(self@.deleted =~= Map::empty());
        Ok(commit_ts)
    }

    /// Commits at the next timestamp of the clock.
    pub fn commit(&mut self, storage: &mut OlapStorage, clock: &mut TimestampGenerator) -> (r:
        StorageResult<Timestamp>)
        requires
            old(storage)@.wf(),
        ensures
            *final(clock) == commit_choice(*old(clock), None).1,
            final(storage)@.wf(),
            match commit_choice(*old(clock), None).0 {
                Err(e) => {
                    &&& r == Err::<Timestamp, StorageError>(
                        StorageError::Transaction(TransactionError::Timestamp(e)),
                    )
                    &&& final(storage)@ == old(storage)@
                    &&& final(self)@ == old(self)@
                },
                Ok(ts) => if old(self)@.commit_ts is Some {
                    &&& r is Err
                    &&& r->Err_0.is_already_committed(timestamp_text(ts))
                    &&& final(storage)@ == old(storage)@
                    &&& final(self)@ == old(self)@
                } else {
                    &&& r == Ok::<Timestamp, StorageError>(ts)
                    &&& final(storage)@ == old(storage)@.changes_committed(
                        old(self)@.undo,
                        old(self)@.txn_id,
                        ts,
                        old(self)@.undo.len(),
                    )
                    &&& final(self)@ == (TxnModel {
                        commit_ts: Some(ts),
                        ..old(self)@.cleared()
                    })
                },
            },
    {
        self.commit_at(storage, clock, None)
    }

    /// Takes every change of the transaction back, the last one first. A committed transaction
    /// refuses.
    pub fn abort(&mut self, storage: &mut OlapStorage) -> (r: StorageResult<()>)
        requires
            old(storage)@.wf(),
            old(self)@.commit_ts is None ==> old(storage)@.can_undo_all(
                old(self)@.undo,
                old(self)@.txn_id,
            ),
        ensures
            final(storage)@.wf(),
            match old(self)@.commit_ts {
                Some(ts) => {
                    &&& r is Err
                    &&& r->Err_0.is_already_committed(abort_refusal(ts))
                    &&& final(storage)@ == old(storage)@
                    &&& final(self)@ == old(self)@
                },
                None => {
                    &&& r is Ok
                    &&& final(storage)@ == old(storage)@.changes_undone(
                        old(self)@.undo,
                        old(self)@.txn_id,
                        0,
                    )
                    &&& final(self)@ == old(self)@.cleared()
                },
            },
    {
        if let Some(commit_ts) = self.commit_ts {
            return Err(
                StorageError::Transaction(
                    TransactionError::TransactionAlreadyCommitted(
                        numbered(
                            "abort called on already committed transaction at Timestamp(",
                            commit_ts.0,
                            ")",
                        ),
                    ),
                ),
            );
        }
        let txn_id: Timestamp = self.txn_id;
        let ghost undo = self@.undo;
        let ghost start = storage@;
        let mut k: usize = self.undo_buffer.len();
        while k > 0
            invariant
                k <= self.undo_buffer.len(),
                undo == self@.undo,
                storage@.wf(),
                *self == *old(self),
                txn_id == self.txn_id,
                start.can_undo_all(undo, txn_id),
                storage@ == start.changes_undone(undo, txn_id, k as nat),
            decreases k,
        {
            let ghost before = storage@;
            k = k - 1;
            assert(undo[k as int] == (
                self.undo_buffer@[k as int].0@,
                self.undo_buffer@[k as int].1,
            ));
            assert(before == start.changes_undone(undo, txn_id, (k as nat) + 1));
            assert(before.can_undo(undo[k as int].0));
            let old_ts: Timestamp = self.undo_buffer[k].1;
            match &self.undo_buffer[k].0 {
                DeltaOp::CreateEdge(edge) => {
                    storage.undo_create(edge.eid, txn_id);
                },
                DeltaOp::DelEdge(eid) => {
                    storage.deletions.revert(*eid, txn_id);
                    assert(storage@ =~= before.change_undone(undo[k as int].0, old_ts, txn_id));
                },
                DeltaOp::SetEdgeProps(eid, op) => {
                    storage.undo_set_props(*eid, &op.indices, old_ts, txn_id);
                },
                _ => {},
            }
            assert(storage@ == before.change_undone(undo[k as int].0, old_ts, txn_id));
        }
        self.undo_buffer.clear();
        self.deleted_edge_snapshot.clear();
        assert(self@.undo =~= Seq::empty());
        assert(self@.deleted =~= Map::empty());
        Ok(())
    }
}

impl Transaction for MemTransaction {
    open spec fn spec_txn_id(&self) -> Timestamp {
        self.txn_id
    }

    open spec fn spec_start_ts(&self) -> Timestamp {
        self.start_ts
    }

    open spec fn spec_commit_ts(&self) -> Option<Timestamp> {
        self.commit_ts
    }

    open spec fn spec_isolation_level(&self) -> IsolationLevel {
        self.isolation_level
    }

    fn txn_id(&self) -> (r: Timestamp) {
        self.txn_id
    }

    fn start_ts(&self) -> (r: Timestamp) {
        self.start_ts
    }

    fn commit_ts(&self) -> (r: Option<Timestamp>) {
        self.commit_ts
    }

    fn isolation_level(&self) -> (r: &IsolationLevel) {
        &self.isolation_level
    }
}

} // verus!
