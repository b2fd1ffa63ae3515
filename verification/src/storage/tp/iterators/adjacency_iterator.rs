//! The neighbours of a vertex that a transaction sees.

use vstd::prelude::*;
use std::sync::Arc;
use crate::common::types::{EdgeId, VertexId};
use crate::storage::error::StorageResult;
use crate::storage::tp::neighbors::{
    greater, is_sorted_list, lemma_sorted, sorted, Neighbor, NeighborKey, NeighborSet,
};
use crate::storage::tp::transaction::{
    lemma_write_index, vertex_index, write_index, Edge, MemTransaction, WriteKind,
};
use crate::transaction::txn::LockStrategy;

verus! {

/// How many neighbours are read ahead.
pub const BATCH_SIZE: usize = 64;

/// Which edges of a vertex are followed.
#[derive(Clone, Copy, Debug, PartialEq, Eq, Structural)]
pub enum Direction {
    Incoming,
    Outgoing,
    Both,
}

// ---------------------------------------------------------------------------------------------
// The list of neighbours
// ---------------------------------------------------------------------------------------------

pub open spec fn follows_out(direction: Direction) -> bool {
    direction == Direction::Outgoing || direction == Direction::Both
}

pub open spec fn follows_in(direction: Direction) -> bool {
    direction == Direction::Incoming || direction == Direction::Both
}

/// A neighbour that an edge gives a vertex.
pub open spec fn gives(edge: Edge, vid: VertexId, direction: Direction, key: NeighborKey) -> bool {
    ||| follows_out(direction) && edge.src_id == vid && key == (
        edge.label_id.raw,
        edge.dst_id,
        edge.eid,
    )
    ||| follows_in(direction) && edge.dst_id == vid && key == (
        edge.label_id.raw,
        edge.src_id,
        edge.eid,
    )
}

/// A write that is held back adds a neighbour.
pub open spec fn adds(
    write: WriteKind,
    vid: VertexId,
    direction: Direction,
    key: NeighborKey,
) -> bool {
    write.written() matches Some(edge) && !edge.is_tombstone && gives(edge, vid, direction, key)
}

/// A write that is held back takes a neighbour away.
pub open spec fn takes(
    write: WriteKind,
    vid: VertexId,
    direction: Direction,
    key: NeighborKey,
) -> bool {
    write matches WriteKind::DeleteEdge { before } && gives(before, vid, direction, key)
}

/// The neighbours that the graph has for a vertex.
pub open spec fn graph_keys(txn: MemTransaction, vid: VertexId, direction: Direction) -> Set<
    NeighborKey,
> {
    match vertex_index(txn.adjacency_list@, vid, 0) {
        Some(i) => {
            let lists = txn.adjacency_list@[i].1;
            match direction {
                Direction::Incoming => lists.incoming@,
                Direction::Outgoing => lists.outgoing@,
                Direction::Both => lists.incoming@.union(lists.outgoing@),
            }
        },
        None => Set::empty(),
    }
}

/// The neighbours of a vertex in a transaction. In an optimistic one they are those that it is
/// about to add, and those of the graph but for the ones that it is about to take away.
pub open spec fn is_listed(
    txn: MemTransaction,
    vid: VertexId,
    direction: Direction,
    key: NeighborKey,
) -> bool {
    if txn.lock_strategy == LockStrategy::Optimistic {
        ||| exists|i: int|
            0 <= i < txn.edge_writes@.len() && adds(
                (#[trigger] txn.edge_writes@[i]).1,
                vid,
                direction,
                key,
            )
        ||| graph_keys(txn, vid, direction).contains(key) && !exists|i: int|
            0 <= i < txn.edge_writes@.len() && takes(
                (#[trigger] txn.edge_writes@[i]).1,
                vid,
                direction,
                key,
            )
    } else {
        graph_keys(txn, vid, direction).contains(key)
    }
}

/// The neighbours of a vertex after the first `n` of the writes that are held back.
pub open spec fn is_overlaid(
    txn: MemTransaction,
    vid: VertexId,
    direction: Direction,
    n: int,
    key: NeighborKey,
) -> bool {
    ||| exists|i: int|
        0 <= i < n && adds((#[trigger] txn.edge_writes@[i]).1, vid, direction, key)
    ||| graph_keys(txn, vid, direction).contains(key) && !exists|i: int|
        0 <= i < n && takes((#[trigger] txn.edge_writes@[i]).1, vid, direction, key)
}

// ---------------------------------------------------------------------------------------------
// Building the list
// ---------------------------------------------------------------------------------------------

/// Adds the neighbours that an edge gives a vertex.
fn insert_ends(list: &mut NeighborSet, edge: &Edge, vid: VertexId, direction: Direction)
    requires
        old(list).wf(),
    ensures
        final(list).wf(),
        forall|key: NeighborKey| #[trigger]
            final(list)@.contains(key) <==> old(list)@.contains(key) || gives(
                *edge,
                vid,
                direction,
                key,
            ),
{
    if (direction == Direction::Outgoing || direction == Direction::Both) && edge.src_id == vid {
        list.insert(Neighbor::new(edge.label_id, edge.dst_id, edge.eid));
    }
    if (direction == Direction::Incoming || direction == Direction::Both) && edge.dst_id == vid {
        list.insert(Neighbor::new(edge.label_id, edge.src_id, edge.eid));
    }
}

/// Takes away the neighbours that an edge gives a vertex.
fn remove_ends(list: &mut NeighborSet, edge: &Edge, vid: VertexId, direction: Direction)
    requires
        old(list).wf(),
    ensures
        final(list).wf(),
        forall|key: NeighborKey| #[trigger]
            final(list)@.contains(key) <==> old(list)@.contains(key) && !gives(
                *edge,
                vid,
                direction,
                key,
            ),
{
    if (direction == Direction::Outgoing || direction == Direction::Both) && edge.src_id == vid {
        list.remove(Neighbor::new(edge.label_id, edge.dst_id, edge.eid));
    }
    if (direction == Direction::Incoming || direction == Direction::Both) && edge.dst_id == vid {
        list.remove(Neighbor::new(edge.label_id, edge.src_id, edge.eid));
    }
}

/// A write to an edge is no write to another.
proof fn lemma_one_write(
    txn: &MemTransaction,
    vid: VertexId,
    direction: Direction,
    key: NeighborKey,
    i: int,
    j: int,
)
    requires
        txn.wf(),
        0 <= i < txn.edge_writes@.len(),
        0 <= j < txn.edge_writes@.len(),
        adds(txn.edge_writes@[i].1, vid, direction, key) || takes(
            txn.edge_writes@[i].1,
            vid,
            direction,
            key,
        ),
        adds(txn.edge_writes@[j].1, vid, direction, key) || takes(
            txn.edge_writes@[j].1,
            vid,
            direction,
            key,
        ),
    ensures
        i == j,
{
    assert(txn.edge_writes@[i].0 == key.2);
    assert(txn.edge_writes@[j].0 == key.2);
    if i < j {
        assert(txn.edge_writes@[i].0 != txn.edge_writes@[j].0);
    }
    if j < i {
        assert(txn.edge_writes@[j].0 != txn.edge_writes@[i].0);
    }
}

/// One more write.
proof fn lemma_overlay_step(
    txn: MemTransaction,
    vid: VertexId,
    direction: Direction,
    n: int,
    key: NeighborKey,
)
    requires
        txn.wf(),
        0 <= n < txn.edge_writes@.len(),
    ensures
        is_overlaid(txn, vid, direction, n + 1, key) == ((is_overlaid(txn, vid, direction, n, key)
            && !takes(txn.edge_writes@[n].1, vid, direction, key)) || adds(
            txn.edge_writes@[n].1,
            vid,
            direction,
            key,
        )),
{
    let write = txn.edge_writes@[n].1;
    if adds(write, vid, direction, key) {
        assert(adds(txn.edge_writes@[n].1, vid, direction, key));
    } else if takes(write, vid, direction, key) {
        assert(takes(txn.edge_writes@[n].1, vid, direction, key));
        assert forall|i: int| 0 <= i < n implies !adds(
            (#[trigger] txn.edge_writes@[i]).1,
            vid,
            direction,
            key,
        ) by {
            if adds(txn.edge_writes@[i].1, vid, direction, key) {
                lemma_one_write(&txn, vid, direction, key, i, n);
            }
        }
    } else {
        if is_overlaid(txn, vid, direction, n, key) {
            if exists|i: int|
                0 <= i < n && adds((#[trigger] txn.edge_writes@[i]).1, vid, direction, key) {
                let i = choose|i: int|
                    0 <= i < n && adds((#[trigger] txn.edge_writes@[i]).1, vid, direction, key);
                assert(adds(txn.edge_writes@[i].1, vid, direction, key));
            } else {
                assert forall|i: int| 0 <= i < n + 1 implies !takes(
                    (#[trigger] txn.edge_writes@[i]).1,
                    vid,
                    direction,
                    key,
                ) by {}
            }
        }
        if is_overlaid(txn, vid, direction, n + 1, key) {
            if exists|i: int|
                0 <= i < n + 1 && adds((#[trigger] txn.edge_writes@[i]).1, vid, direction, key) {
                let i = choose|i: int|
                    0 <= i < n + 1 && adds((#[trigger] txn.edge_writes@[i]).1, vid, direction, key);
                assert(i < n);
            }
        }
    }
}

/// The list that the graph keeps of the neighbours of a vertex in one direction: none where the
/// vertex is not known or has no neighbours.
pub open spec fn kept_list(txn: MemTransaction, vid: VertexId, direction: Direction) -> Option<
    Arc<NeighborSet>,
> {
    match vertex_index(txn.adjacency_list@, vid, 0) {
        Some(i) => {
            let list = if direction == Direction::Incoming {
                txn.adjacency_list@[i].1.incoming
            } else {
                txn.adjacency_list@[i].1.outgoing
            };
            if list@ == Set::<NeighborKey>::empty() {
                None
            } else {
                Some(list)
            }
        },
        None => None,
    }
}

/// The list of the neighbours of a vertex; none where there are none.
fn neighbor_list(txn: &MemTransaction, vid: VertexId, direction: Direction) -> (r: Option<
    Arc<NeighborSet>,
>)
    requires
        txn.wf(),
    ensures
        match r {
            Some(list) => list.wf() && list@ != Set::<NeighborKey>::empty() && forall|
                key: NeighborKey,
            | #[trigger]
                list@.contains(key) <==> is_listed(*txn, vid, direction, key),
            None => forall|key: NeighborKey| !#[trigger] is_listed(*txn, vid, direction, key),
        },
        txn.lock_strategy != LockStrategy::Optimistic && direction != Direction::Both ==> r
            == kept_list(*txn, vid, direction),
{
    let entry = txn.adjacency(vid);
    let needs_overlay = txn.lock_strategy == LockStrategy::Optimistic || direction
        == Direction::Both;
    if !needs_overlay {
        match entry {
            Some(lists) => {
                let base = if direction == Direction::Incoming {
                    lists.incoming.clone()
                } else {
                    lists.outgoing.clone()
                };
                if base.is_empty() {
                    None
                } else {
                    Some(base)
                }
            },
            None => None,
        }
    } else {
        let mut combined = NeighborSet::new();
        if let Some(lists) = entry {
            if direction != Direction::Outgoing {
                combined.insert_all(&lists.incoming);
            }
            if direction != Direction::Incoming {
                combined.insert_all(&lists.outgoing);
            }
        }
        assert(combined@ =~= graph_keys(*txn, vid, direction));
        if txn.lock_strategy == LockStrategy::Optimistic {
            let mut n: usize = 0;
            while n < txn.edge_writes.len()
                invariant
                    n <= txn.edge_writes@.len(),
                    txn.wf(),
                    combined.wf(),
                    forall|key: NeighborKey| #[trigger]
                        combined@.contains(key) <==> is_overlaid(
                            *txn,
                            vid,
                            direction,
                            n as int,
                            key,
                        ),
                decreases txn.edge_writes.len() - n,
            {
                let ghost before = combined@;
                match &txn.edge_writes[n].1 {
                    WriteKind::InsertEdge(edge) => {
                        if !edge.is_tombstone {
                            insert_ends(&mut combined, edge, vid, direction);
                        }
                    },
                    WriteKind::UpdateEdge { after, .. } => {
                        if !after.is_tombstone {
                            insert_ends(&mut combined, after, vid, direction);
                        }
                    },
                    WriteKind::DeleteEdge { before } => {
                        remove_ends(&mut combined, before, vid, direction);
                    },
                    WriteKind::Other => {},
                }
                proof {
                    assert forall|key: NeighborKey| #[trigger]
                        combined@.contains(key) <==> is_overlaid(
                        *txn,
                        vid,
                        direction,
                        n + 1,
                        key,
                    ) by {
                        assert(before.contains(key) <==> is_overlaid(
                            *txn,
                            vid,
                            direction,
                            n as int,
                            key,
                        ));
                        lemma_overlay_step(*txn, vid, direction, n as int, key);
                    }
                }
                n = n + 1;
            }
        }
        assert forall|key: NeighborKey| #[trigger]
            combined@.contains(key) <==> is_listed(*txn, vid, direction, key) by {}
        if combined.is_empty() {
            assert forall|key: NeighborKey| !#[trigger] is_listed(*txn, vid, direction, key) by {
                assert(!combined@.contains(key));
            }
            None
        } else {
            Some(Arc::new(combined))
        }
    }
}

// ---------------------------------------------------------------------------------------------
// The iterator
// ---------------------------------------------------------------------------------------------

/// Goes through the neighbours of a vertex in order. It gives those that the transaction sees and
/// that no filter refuses.
pub struct AdjacencyIterator<'a, F: Fn(&Neighbor) -> bool> {
    pub adj_list: Option<Arc<NeighborSet>>,
    pub current_entries: Vec<Neighbor>,
    pub current_index: usize,
    pub txn: &'a MemTransaction,
    pub filters: Vec<F>,
    pub current_adj: Option<Neighbor>,
}

/// Every filter can be asked about every neighbour.
pub open spec fn filters_ready<F: Fn(&Neighbor) -> bool>(filters: Seq<F>) -> bool {
    forall|i: int, n: Neighbor|
        0 <= i < filters.len() ==> #[trigger] call_requires(filters[i], (&n,))
}

/// No filter refuses a neighbour.
pub open spec fn all_accept<F: Fn(&Neighbor) -> bool>(filters: Seq<F>, n: Neighbor) -> bool {
    forall|i: int| 0 <= i < filters.len() ==> call_ensures(#[trigger] filters[i], (&n,), true)
}

/// A filter refuses a neighbour.
pub open spec fn one_refuses<F: Fn(&Neighbor) -> bool>(filters: Seq<F>, n: Neighbor) -> bool {
    exists|i: int| 0 <= i < filters.len() && call_ensures(#[trigger] filters[i], (&n,), false)
}

/// Neighbours as keys.
pub open spec fn keys_of(entries: Seq<Neighbor>) -> Seq<NeighborKey> {
    entries.map_values(|n: Neighbor| n.spec_key())
}

/// A copy of a list of neighbours.
fn copy_entries(entries: &Vec<Neighbor>) -> (r: Vec<Neighbor>)
    ensures
        r@ == entries@,
{
    let mut r: Vec<Neighbor> = Vec::new();
    let mut i: usize = 0;
    while i < entries.len()
        invariant
            i <= entries.len(),
            r@ == entries@.take(i as int),
        decreases entries.len() - i,
    {
        r.push(entries[i]);
        i = i + 1;
        assert(r@ =~= entries@.take(i as int));
    }
    assert(entries@.take(i as int) =~= entries@);
    r
}

impl<'a, F: Fn(&Neighbor) -> bool> AdjacencyIterator<'a, F> {
    pub open spec fn wf(&self) -> bool {
        &&& self.txn.wf()
        &&& self.current_index <= self.current_entries@.len()
        &&& filters_ready(self.filters@)
        &&& match self.adj_list {
            Some(list) => list.wf() && (self.current_entries@.len() > 0 ==> list@.contains(
                self.current_entries@.last().spec_key(),
            )),
            None => self.current_entries@.len() == 0,
        }
    }

    /// The neighbours that have not been read ahead.
    pub open spec fn unread(&self) -> Seq<NeighborKey> {
        match self.adj_list {
            Some(list) => if self.current_entries@.len() == 0 {
                sorted(list@)
            } else {
                sorted(greater(list@, self.current_entries@.last().spec_key()))
            },
            None => Seq::empty(),
        }
    }

    /// The neighbours that are left to go through.
    pub open spec fn rest(&self) -> Seq<NeighborKey> {
        keys_of(self.current_entries@.skip(self.current_index as int)) + self.unread()
    }

    /// The neighbour is given out.
    pub open spec fn passes(&self, key: NeighborKey) -> bool {
        self.txn.sees(key.2) && all_accept(self.filters@, Neighbor::of_key(key))
    }

    /// The neighbour is passed over.
    pub open spec fn fails(&self, key: NeighborKey) -> bool {
        !self.txn.sees(key.2) || one_refuses(self.filters@, Neighbor::of_key(key))
    }

    /// Only the position has changed.
    pub open spec fn same_source(&self, other: &Self) -> bool {
        self.adj_list == other.adj_list && self.txn == other.txn && self.filters == other.filters
    }

    /// From `self` on, the neighbour at a position is the first to be given out; `after` stands
    /// behind it.
    pub open spec fn stops_at(self, after: Self, k: int) -> bool {
        let rest = self.rest();
        &&& 0 <= k < rest.len()
        &&& self.passes(rest[k])
        &&& forall|j: int| 0 <= j < k ==> self.fails(#[trigger] rest[j])
        &&& after.rest() == rest.skip(k + 1)
        &&& after.current_adj == Some(Neighbor::of_key(rest[k]))
    }

    /// The neighbour at a position, counted from `self` on, was the last to be given out; `after`
    /// stands behind it.
    pub open spec fn lands_on(self, after: Self, k: int) -> bool {
        let rest = self.rest();
        &&& 0 <= k < rest.len()
        &&& self.passes(rest[k])
        &&& after.rest() == rest.skip(k + 1)
        &&& after.current_adj == Some(Neighbor::of_key(rest[k]))
    }

    /// Among the first `k` neighbours that are left, none is given out with this edge.
    pub open spec fn none_matches(self, id: EdgeId, k: int) -> bool {
        let rest = self.rest();
        forall|j: int|
            0 <= j < k ==> self.fails(#[trigger] rest[j]) || (self.passes(rest[j]) && rest[j].2
                != id)
    }

    /// Among the first `k` neighbours that are left, only those with smaller edges are given out.
    pub open spec fn all_smaller(self, id: EdgeId, k: int) -> bool {
        let rest = self.rest();
        forall|j: int|
            0 <= j < k ==> self.fails(#[trigger] rest[j]) || (self.passes(rest[j]) && rest[j].2
                < id)
    }

    /// From `self` on, the neighbour at a position is the first to be given out whose edge has a
    /// greater identifier; `after` stands behind it. A position at the end says that there is no
    /// such neighbour.
    pub open spec fn passes_by(self, after: Self, id: EdgeId, k: int) -> bool {
        &&& 0 <= k <= self.rest().len()
        &&& self.all_smaller(id, k)
        &&& if k < self.rest().len() {
            self.lands_on(after, k) && self.rest()[k].2 > id
        } else {
            after.rest() == Seq::<NeighborKey>::empty()
        }
    }

    /// Goes through the neighbours of a vertex.
    pub fn new(txn: &'a MemTransaction, vid: VertexId, direction: Direction) -> (r: Self)
        requires
            txn.wf(),
        ensures
            r.wf(),
            r.txn == txn,
            r.filters@.len() == 0,
            r.current_adj is None,
            is_sorted_list(
                r.rest(),
                Set::new(|key: NeighborKey| is_listed(*txn, vid, direction, key)),
            ),
            r.adj_list is Some <==> exists|key: NeighborKey| #[trigger]
                is_listed(*txn, vid, direction, key),
            txn.lock_strategy != LockStrategy::Optimistic && direction != Direction::Both
                ==> r.adj_list == kept_list(*txn, vid, direction),
    {
        let adj_list = neighbor_list(txn, vid, direction);
        let mut result = AdjacencyIterator {
            adj_list,
            current_entries: Vec::new(),
            current_index: 0,
            txn,
            filters: Vec::new(),
            current_adj: None,
        };
        proof {
            let listed = Set::new(|key: NeighborKey| is_listed(*txn, vid, direction, key));
            assert(keys_of(result.current_entries@.skip(0)) =~= Seq::<NeighborKey>::empty());
            assert(result.rest() =~= result.unread());
            match &result.adj_list {
                Some(list) => {
                    assert(list@ =~= listed);
                    lemma_sorted(listed);
                    assert(exists|key: NeighborKey| #[trigger]
                        is_listed(*txn, vid, direction, key)) by {
                        if forall|key: NeighborKey| !#[trigger]
                            is_listed(*txn, vid, direction, key) {
                            assert(list@ =~= Set::<NeighborKey>::empty());
                        }
                    }
                },
                None => {
                    assert(listed =~= Set::<NeighborKey>::empty());
                },
            }
        }
        if result.adj_list.is_some() {
            let _ = result.load_next_batch();
        }
        result
    }

    /// Reads the next neighbours ahead; says whether there were any.
    fn load_next_batch(&mut self) -> (r: bool)
        requires
            old(self).wf(),
            old(self).current_index == old(self).current_entries@.len(),
        ensures
            final(self).wf(),
            final(self).same_source(old(self)),
            final(self).current_adj == old(self).current_adj,
            final(self).rest() == old(self).rest(),
            r == (old(self).rest().len() > 0),
            r ==> final(self).current_index < final(self).current_entries@.len(),
            !r ==> *final(self) == *old(self),
    {
        let ghost before = *self;
        proof {
            assert(keys_of(self.current_entries@.skip(self.current_index as int)) =~= Seq::<
                NeighborKey,
            >::empty());
            assert(self.rest() =~= self.unread());
        }
        if let Some(list) = &self.adj_list {
            let first = if self.current_entries.len() > 0 {
                list.next_after(self.current_entries[self.current_entries.len() - 1])
            } else {
                list.front()
            };
            let mut current = match first {
                Some(n) => n,
                None => {
                    return false;
                },
            };
            let mut entries: Vec<Neighbor> = Vec::new();
            entries.push(current);
            let ghost unread = self.unread();
            assert(keys_of(entries@) =~= seq![current.spec_key()]);
            let mut n: usize = 0;
            while n < BATCH_SIZE
                invariant
                    list.wf(),
                    entries@.len() > 0,
                    current == entries@.last(),
                    list@.contains(current.spec_key()),
                    unread == keys_of(entries@) + sorted(greater(list@, current.spec_key())),
                decreases BATCH_SIZE - n,
            {
                match list.next_after(current) {
                    Some(next) => {
                        let ghost entries_before = entries@;
                        let ghost tail = sorted(greater(list@, next.spec_key()));
                        entries.push(next);
                        proof {
                            assert(keys_of(entries@) =~= keys_of(entries_before).push(
                                next.spec_key(),
                            ));
                            assert(keys_of(entries_before) + (seq![next.spec_key()] + tail)
                                =~= keys_of(entries@) + tail);
                        }
                        current = next;
                        n = n + 1;
                    },
                    None => {
                        n = BATCH_SIZE;
                    },
                }
            }
            self.current_entries = entries;
            self.current_index = 0;
            proof {
                assert(self.current_entries@.skip(0) =~= entries@);
                assert(self.rest() =~= unread);
            }
            return true;
        }
        false
    }

    /// Whether no filter refuses a neighbour.
    fn accepts(&self, n: &Neighbor) -> (r: bool)
        requires
            filters_ready(self.filters@),
        ensures
            r ==> all_accept(self.filters@, *n),
            !r ==> one_refuses(self.filters@, *n),
    {
        let mut i: usize = 0;
        while i < self.filters.len()
            invariant
                i <= self.filters@.len(),
                filters_ready(self.filters@),
                forall|k: int|
                    0 <= k < i ==> call_ensures(#[trigger] self.filters@[k], (n,), true),
            decreases self.filters.len() - i,
        {
            let f = &self.filters[i];
            let ok = f(n);
            if !ok {
                assert(call_ensures(self.filters@[i as int], (n,), false));
                return false;
            }
            i = i + 1;
        }
        true
    }

    /// The next neighbour that the transaction sees and no filter refuses.
    pub fn next(&mut self) -> (r: Option<StorageResult<Neighbor>>)
        requires
            old(self).wf(),
        ensures
            final(self).wf(),
            final(self).same_source(old(self)),
            match r {
                Some(item) => item is Ok && exists|k: int| #[trigger]
                    old(self).stops_at(*final(self), k) && item->Ok_0 == Neighbor::of_key(
                        old(self).rest()[k],
                    ),
                None => {
                    &&& forall|j: int|
                        0 <= j < old(self).rest().len() ==> old(self).fails(
                            #[trigger] old(self).rest()[j],
                        )
                    &&& final(self).rest() == Seq::<NeighborKey>::empty()
                    &&& final(self).current_adj == old(self).current_adj
                },
            },
    {
        let ghost start = *self;
        let ghost rest = self.rest();
        let ghost mut done: int = 0;
        loop
            invariant
                start.wf(),
                self.wf(),
                self.same_source(&start),
                self.current_adj == start.current_adj,
                rest == start.rest(),
                0 <= done <= rest.len(),
                self.rest() == rest.skip(done),
                forall|j: int| 0 <= j < done ==> start.fails(#[trigger] rest[j]),
                start == *old(self),
            decreases rest.len() - done,
        {
            if self.current_index >= self.current_entries.len() {
                let loaded = self.load_next_batch();
                if !loaded {
                    assert(self.rest() =~= Seq::<NeighborKey>::empty());
                    assert(done == rest.len());
                    return None;
                }
            }
            let entry = self.current_entries[self.current_index];
            let ghost index = self.current_index as int;
            let ghost entries = self.current_entries@;
            let ghost unread = self.unread();
            proof {
                assert(self.rest()[0] == entry.spec_key()) by {
                    assert(keys_of(entries.skip(index))[0] == entries[index].spec_key());
                }
                assert(keys_of(entries.skip(index)).len() > 0);
                assert(self.rest().len() > 0);
                assert(done < rest.len());
                assert(rest[done] == rest.skip(done)[0]);
                assert(Neighbor::of_key(rest[done]) == entry);
            }
            assert(self.current_index < self.current_entries.len());
            self.current_index = self.current_index + 1;
            proof {
                assert(entries.skip(index).skip(1) =~= entries.skip(index + 1));
                assert(keys_of(entries.skip(index)) + unread =~= seq![entry.spec_key()] + (keys_of(
                    entries.skip(index + 1),
                ) + unread));
                assert(rest.skip(done).skip(1) =~= rest.skip(done + 1));
                assert(self.rest() =~= rest.skip(done + 1));
            }
            if self.txn.is_visible(entry.eid) && self.accepts(&entry) {
                self.current_adj = Some(entry);
                assert(start.passes(rest[done]));
                assert(start.stops_at(*self, done));
                return Some(Ok(entry));
            }
            proof {
                done = done + 1;
            }
        }
    }

    /// Adds a filter.
    pub fn filter(self, predicate: F) -> (r: Self)
        requires
            self.wf(),
            forall|n: Neighbor| #[trigger] call_requires(predicate, (&n,)),
        ensures
            r.wf(),
            r.filters@ == self.filters@.push(predicate),
            r.adj_list == self.adj_list,
            r.txn == self.txn,
            r.current_adj == self.current_adj,
            r.rest() == self.rest(),
    {
        let mut filters = self.filters;
        filters.push(predicate);
        AdjacencyIterator {
            adj_list: self.adj_list,
            current_entries: self.current_entries,
            current_index: self.current_index,
            txn: self.txn,
            filters,
            current_adj: self.current_adj,
        }
    }

    /// Goes on to the neighbour with an edge, and says whether there is one. Where there is none, it
    /// goes on to the first neighbour whose edge has a greater identifier, or to the end.
    pub fn seek(&mut self, id: EdgeId) -> (r: StorageResult<bool>)
        requires
            old(self).wf(),
        ensures
            final(self).wf(),
            final(self).same_source(old(self)),
            match r {
                Ok(true) => exists|k: int| #[trigger]
                    old(self).lands_on(*final(self), k) && old(self).rest()[k].2 == id && old(
                        self,
                    ).none_matches(id, k),
                Ok(false) => {
                    &&& old(self).none_matches(id, old(self).rest().len() as int)
                    &&& exists|k: int| #[trigger] old(self).passes_by(*final(self), id, k)
                },
                Err(_) => false,
            },
    {
        let ghost start = *self;
        let ghost rest = self.rest();
        let ghost mut done: int = 0;
        let ghost mut greater_state: Self = *self;
        let ghost mut greater_at: int = 0;
        let mut kept: Option<(Vec<Neighbor>, usize, Option<Neighbor>)> = None;
        assert(rest.skip(0) =~= rest);
        loop
            invariant
                start.wf(),
                self.wf(),
                self.same_source(&start),
                rest == start.rest(),
                0 <= done <= rest.len(),
                self.rest() == rest.skip(done),
                start.none_matches(id, done),
                kept is None ==> start.all_smaller(id, done),
                kept matches Some(state) ==> {
                    &&& greater_state.wf()
                    &&& greater_state.same_source(&start)
                    &&& state.0@ == greater_state.current_entries@
                    &&& state.1 == greater_state.current_index
                    &&& state.2 == greater_state.current_adj
                    &&& greater_at < rest.len()
                    &&& start.passes_by(greater_state, id, greater_at)
                },
                start == *old(self),
            decreases rest.len() - done,
        {
            let ghost left = self.rest();
            let ghost here = *self;
            match self.next() {
                Some(Ok(entry)) => {
                    let ghost k = choose|k: int| #[trigger]
                        here.stops_at(*self, k) && entry == Neighbor::of_key(left[k]);
                    proof {
                        assert(left[k] == rest[done + k]);
                        assert forall|j: int| 0 <= j < done + k implies start.fails(
                            #[trigger] rest[j],
                        ) || (start.passes(rest[j]) && rest[j].2 != id) by {
                            if j >= done {
                                assert(left[j - done] == rest[j]);
                            }
                        }
                        if kept is None {
                            assert forall|j: int| 0 <= j < done + k implies start.fails(
                                #[trigger] rest[j],
                            ) || (start.passes(rest[j]) && rest[j].2 < id) by {
                                if j >= done {
                                    assert(left[j - done] == rest[j]);
                                }
                            }
                        }
                        assert(left.skip(k + 1) =~= rest.skip(done + k + 1));
                        assert(start.passes(rest[done + k]));
                        assert(start.lands_on(*self, done + k));
                    }
                    if entry.eid == id {
                        return Ok(true);
                    }
                    if entry.eid > id && kept.is_none() {
                        let entries = copy_entries(&self.current_entries);
                        kept = Some((entries, self.current_index, self.current_adj));
                        proof {
                            greater_state = *self;
                            greater_at = done + k;
                            assert(start.passes_by(greater_state, id, greater_at));
                        }
                    }
                    proof {
                        done = done + k + 1;
                    }
                },
                Some(Err(_)) => {
                    return Ok(false);
                },
                None => {
                    proof {
                        assert forall|j: int| 0 <= j < rest.len() implies start.fails(
                            #[trigger] rest[j],
                        ) || (start.passes(rest[j]) && rest[j].2 != id) by {
                            if j >= done {
                                assert(left[j - done] == rest[j]);
                            }
                        }
                    }
                    match kept {
                        Some((entries, index, adj)) => {
                            self.current_entries = entries;
                            self.current_index = index;
                            self.current_adj = adj;
                            proof {
                                assert(self.rest() == greater_state.rest());
                                assert(start.passes_by(*self, id, greater_at));
                            }
                        },
                        None => {
                            proof {
                                assert forall|j: int| 0 <= j < rest.len() implies start.fails(
                                    #[trigger] rest[j],
                                ) || (start.passes(rest[j]) && rest[j].2 < id) by {
                                    if j >= done {
                                        assert(left[j - done] == rest[j]);
                                    }
                                }
                                assert(start.passes_by(*self, id, rest.len() as int));
                            }
                        },
                    }
                    return Ok(false);
                },
            }
        }
    }

    /// The neighbour that was given out last.
    pub fn current_entry(&self) -> (r: Option<&Neighbor>)
        ensures
            r == (match self.current_adj {
                Some(n) => Some(&n),
                None => None,
            }),
    {
        match &self.current_adj {
            Some(n) => Some(n),
            None => None,
        }
    }
}

impl MemTransaction {
    /// Goes through the neighbours of a vertex.
    pub fn iter_adjacency<'a, F: Fn(&Neighbor) -> bool>(&'a self, vid: VertexId) -> (r:
        AdjacencyIterator<'a, F>)
        requires
            self.wf(),
        ensures
            r.wf(),
            r.txn == self,
            r.filters@.len() == 0,
            r.current_adj is None,
            is_sorted_list(
                r.rest(),
                Set::new(|key: NeighborKey| is_listed(*self, vid, Direction::Both, key)),
            ),
    {
        AdjacencyIterator::new(self, vid, Direction::Both)
    }

    /// Goes through the neighbours at the ends of the edges that leave a vertex.
    pub fn iter_adjacency_outgoing<'a, F: Fn(&Neighbor) -> bool>(&'a self, vid: VertexId) -> (r:
        AdjacencyIterator<'a, F>)
        requires
            self.wf(),
        ensures
            r.wf(),
            r.txn == self,
            r.filters@.len() == 0,
            r.current_adj is None,
            is_sorted_list(
                r.rest(),
                Set::new(|key: NeighborKey| is_listed(*self, vid, Direction::Outgoing, key)),
            ),
    {
        AdjacencyIterator::new(self, vid, Direction::Outgoing)
    }

    /// Goes through the neighbours at the starts of the edges that enter a vertex.
    pub fn iter_adjacency_incoming<'a, F: Fn(&Neighbor) -> bool>(&'a self, vid: VertexId) -> (r:
        AdjacencyIterator<'a, F>)
        requires
            self.wf(),
        ensures
            r.wf(),
            r.txn == self,
            r.filters@.len() == 0,
            r.current_adj is None,
            is_sorted_list(
                r.rest(),
                Set::new(|key: NeighborKey| is_listed(*self, vid, Direction::Incoming, key)),
            ),
    {
        AdjacencyIterator::new(self, vid, Direction::Incoming)
    }
}

// ---------------------------------------------------------------------------------------------
// Laws
// ---------------------------------------------------------------------------------------------

/// An optimistic transaction finds the edges that it is about to insert among the neighbours of
/// the vertices at both their ends, and sees them.
pub proof fn own_insertions_are_listed(txn: &MemTransaction, i: int, edge: Edge)
    requires
        txn.wf(),
        txn.lock_strategy == LockStrategy::Optimistic,
        0 <= i < txn.edge_writes@.len(),
        txn.edge_writes@[i].1 == WriteKind::InsertEdge(edge),
        !edge.is_tombstone,
    ensures
        is_listed(
            *txn,
            edge.src_id,
            Direction::Outgoing,
            (edge.label_id.raw, edge.dst_id, edge.eid),
        ),
        is_listed(
            *txn,
            edge.dst_id,
            Direction::Incoming,
            (edge.label_id.raw, edge.src_id, edge.eid),
        ),
        is_listed(
            *txn,
            edge.src_id,
            Direction::Both,
            (edge.label_id.raw, edge.dst_id, edge.eid),
        ),
        is_listed(
            *txn,
            edge.dst_id,
            Direction::Both,
            (edge.label_id.raw, edge.src_id, edge.eid),
        ),
        txn.sees(edge.eid),
{
    let write = txn.edge_writes@[i].1;
    let out: NeighborKey = (edge.label_id.raw, edge.dst_id, edge.eid);
    let back: NeighborKey = (edge.label_id.raw, edge.src_id, edge.eid);
    assert(adds(write, edge.src_id, Direction::Outgoing, out));
    assert(adds(write, edge.dst_id, Direction::Incoming, back));
    assert(adds(write, edge.src_id, Direction::Both, out));
    assert(adds(write, edge.dst_id, Direction::Both, back));
    lemma_only_write(txn, i);
}

/// An optimistic transaction neither lists nor sees the edges that it is about to delete.
pub proof fn own_deletions_are_hidden(
    txn: &MemTransaction,
    i: int,
    edge: Edge,
    vid: VertexId,
    direction: Direction,
    key: NeighborKey,
)
    requires
        txn.wf(),
        txn.lock_strategy == LockStrategy::Optimistic,
        0 <= i < txn.edge_writes@.len(),
        txn.edge_writes@[i].1 == (WriteKind::DeleteEdge { before: edge }),
        gives(edge, vid, direction, key),
    ensures
        !is_listed(*txn, vid, direction, key),
        !txn.sees(edge.eid),
{
    assert(takes(txn.edge_writes@[i].1, vid, direction, key));
    assert forall|j: int| 0 <= j < txn.edge_writes@.len() implies !adds(
        (#[trigger] txn.edge_writes@[j]).1,
        vid,
        direction,
        key,
    ) by {
        if adds(txn.edge_writes@[j].1, vid, direction, key) {
            lemma_one_write(txn, vid, direction, key, i, j);
        }
    }
    lemma_only_write(txn, i);
}

proof fn lemma_only_write(txn: &MemTransaction, i: int)
    requires
        txn.wf(),
        0 <= i < txn.edge_writes@.len(),
    ensures
        txn.write_to(txn.edge_writes@[i].0) == Some(txn.edge_writes@[i].1),
{
    let eid = txn.edge_writes@[i].0;
    lemma_write_index(txn.edge_writes@, eid, 0);
    match write_index(txn.edge_writes@, eid, 0) {
        Some(j) => {
            if i < j {
                assert(txn.edge_writes@[i].0 != txn.edge_writes@[j].0);
            }
            if j < i {
                assert(txn.edge_writes@[j].0 != txn.edge_writes@[i].0);
            }
        },
        None => {},
    }
}

/// A neighbour in both directions is one in one of them.
pub proof fn both_directions_list_no_more(txn: &MemTransaction, vid: VertexId, key: NeighborKey)
    requires
        is_listed(*txn, vid, Direction::Both, key),
    ensures
        is_listed(*txn, vid, Direction::Incoming, key) || is_listed(
            *txn,
            vid,
            Direction::Outgoing,
            key,
        ),
{
    if txn.lock_strategy == LockStrategy::Optimistic {
        if exists|i: int|
            0 <= i < txn.edge_writes@.len() && adds(
                (#[trigger] txn.edge_writes@[i]).1,
                vid,
                Direction::Both,
                key,
            ) {
            let i = choose|i: int|
                0 <= i < txn.edge_writes@.len() && adds(
                    (#[trigger] txn.edge_writes@[i]).1,
                    vid,
                    Direction::Both,
                    key,
                );
            assert(adds(txn.edge_writes@[i].1, vid, Direction::Incoming, key) || adds(
                txn.edge_writes@[i].1,
                vid,
                Direction::Outgoing,
                key,
            ));
        } else {
            assert forall|i: int| 0 <= i < txn.edge_writes@.len() implies !takes(
                (#[trigger] txn.edge_writes@[i]).1,
                vid,
                Direction::Incoming,
                key,
            ) && !takes(txn.edge_writes@[i].1, vid, Direction::Outgoing, key) by {
                assert(!takes(txn.edge_writes@[i].1, vid, Direction::Both, key));
            }
        }
    }
}

/// The neighbours in a list whose edges a transaction sees.
pub open spec fn seen(txn: MemTransaction, keys: Seq<NeighborKey>) -> Seq<NeighborKey>
    decreases keys.len(),
{
    if keys.len() == 0 {
        Seq::empty()
    } else {
        let rest = seen(txn, keys.skip(1));
        if txn.sees(keys[0].2) {
            seq![keys[0]] + rest
        } else {
            rest
        }
    }
}

/// Without filters, a step gives the first of the neighbours that the transaction sees and
/// leaves the others.
pub proof fn steps_give_the_seen_neighbors<'a, F: Fn(&Neighbor) -> bool>(
    before: &AdjacencyIterator<'a, F>,
    after: &AdjacencyIterator<'a, F>,
    k: int,
)
    requires
        before.filters@.len() == 0,
        before.stops_at(*after, k),
    ensures
        seen(*before.txn, before.rest()) == seq![before.rest()[k]] + seen(
            *before.txn,
            after.rest(),
        ),
{
    lemma_seen_skips(before.txn, before.rest(), k);
    let from = before.rest().skip(k);
    assert(from[0] == before.rest()[k]);
    assert(from.skip(1) =~= before.rest().skip(k + 1));
}

/// Without filters, the end is reached when the transaction sees none of the neighbours.
pub proof fn the_end_leaves_no_seen_neighbor<'a, F: Fn(&Neighbor) -> bool>(
    before: &AdjacencyIterator<'a, F>,
)
    requires
        before.filters@.len() == 0,
        forall|j: int|
            0 <= j < before.rest().len() ==> before.fails(#[trigger] before.rest()[j]),
    ensures
        seen(*before.txn, before.rest()) == Seq::<NeighborKey>::empty(),
{
    let rest = before.rest();
    lemma_seen_skips(before.txn, rest, rest.len() as int);
}

proof fn lemma_seen_skips(txn: &MemTransaction, keys: Seq<NeighborKey>, k: int)
    requires
        0 <= k <= keys.len(),
        forall|j: int| 0 <= j < k ==> !txn.sees((#[trigger] keys[j]).2),
    ensures
        seen(*txn, keys) == seen(*txn, keys.skip(k)),
    decreases k,
{
    if k > 0 {
        let tail = keys.skip(1);
        assert(!txn.sees(keys[0].2));
        assert forall|j: int| 0 <= j < k - 1 implies !txn.sees((#[trigger] tail[j]).2) by {
            assert(tail[j] == keys[j + 1]);
        }
        lemma_seen_skips(txn, tail, k - 1);
        assert(tail.skip(k - 1) =~= keys.skip(k));
    } else {
        assert(keys.skip(0) =~= keys);
    }
}

} // verus!
