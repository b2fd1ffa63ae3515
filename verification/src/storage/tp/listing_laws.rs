//! What a transaction lists and sees: laws over its lists, its entries and its writes.

use vstd::prelude::*;
use crate::common::types::{EdgeId, VertexId};
use crate::storage::tp::iterators::adjacency_iterator::{
    adds, graph_keys, is_listed, takes, AdjacencyIterator, Direction,
};
use crate::storage::tp::iterators::edge_iterator::{walked, EdgeIterator};
use crate::storage::tp::neighbors::{is_sorted_list, key_less, Neighbor, NeighborKey};
use crate::storage::tp::transaction::{
    entry_index, lemma_write_index, vertex_index, write_index, Edge, EdgeEntry, MemTransaction,
    VertexAdjacency, WriteKind,
};
use crate::transaction::txn::LockStrategy;

verus! {

// ---------------------------------------------------------------------------------------------
// Lookups
// ---------------------------------------------------------------------------------------------

/// A vertex is found at its first entry.
pub proof fn first_entry_of_a_vertex_is_found(
    entries: Seq<(VertexId, VertexAdjacency)>,
    vid: VertexId,
    from: int,
    i: int,
)
    requires
        0 <= from <= i <= entries.len(),
        i < entries.len() ==> entries[i].0 == vid,
        forall|j: int| from <= j < i ==> (#[trigger] entries[j]).0 != vid,
    ensures
        i < entries.len() ==> vertex_index(entries, vid, from) == Some(i),
        i == entries.len() ==> vertex_index(entries, vid, from) is None,
    decreases i - from,
{
    if from < i {
        assert(entries[from].0 != vid);
        first_entry_of_a_vertex_is_found(entries, vid, from + 1, i);
    }
}

/// An edge is found at its first entry.
pub proof fn first_entry_of_an_edge_is_found(
    entries: Seq<EdgeEntry>,
    eid: EdgeId,
    from: int,
    i: int,
)
    requires
        0 <= from <= i <= entries.len(),
        i < entries.len() ==> entries[i].eid == eid,
        forall|j: int| from <= j < i ==> (#[trigger] entries[j]).eid != eid,
    ensures
        i < entries.len() ==> entry_index(entries, eid, from) == Some(i),
        i == entries.len() ==> entry_index(entries, eid, from) is None,
    decreases i - from,
{
    if from < i {
        assert(entries[from].eid != eid);
        first_entry_of_an_edge_is_found(entries, eid, from + 1, i);
    }
}

/// A write is found at its first position.
pub proof fn first_write_to_an_edge_is_found(
    writes: Seq<(EdgeId, WriteKind)>,
    eid: EdgeId,
    from: int,
    i: int,
)
    requires
        0 <= from <= i <= writes.len(),
        i < writes.len() ==> writes[i].0 == eid,
        forall|j: int| from <= j < i ==> (#[trigger] writes[j]).0 != eid,
    ensures
        i < writes.len() ==> write_index(writes, eid, from) == Some(i),
        i == writes.len() ==> write_index(writes, eid, from) is None,
    decreases i - from,
{
    if from < i {
        assert(writes[from].0 != eid);
        first_write_to_an_edge_is_found(writes, eid, from + 1, i);
    }
}

// ---------------------------------------------------------------------------------------------
// Seeing
// ---------------------------------------------------------------------------------------------

/// A pessimistic transaction, and one that has not written to an edge, sees the edge where the
/// graph has a version of it for the transaction.
pub proof fn unwritten_edges_are_seen_in_the_graph(txn: &MemTransaction, i: int)
    requires
        0 <= i < txn.edges@.len(),
        forall|j: int| 0 <= j < i ==> (#[trigger] txn.edges@[j]).eid != txn.edges@[i].eid,
        txn.lock_strategy == LockStrategy::Pessimistic || forall|w: int|
            0 <= w < txn.edge_writes@.len() ==> (#[trigger] txn.edge_writes@[w]).0
                != txn.edges@[i].eid || txn.edge_writes@[w].1 is Other,
    ensures
        txn.sees(txn.edges@[i].eid) <==> txn.edges@[i].visible is Some,
        txn.version_of(txn.edges@[i].eid) == txn.edges@[i].visible,
        txn.candidate(i) == txn.edges@[i].visible,
{
    let eid = txn.edges@[i].eid;
    first_entry_of_an_edge_is_found(txn.edges@, eid, 0, i);
    lemma_write_index(txn.edge_writes@, eid, 0);
}

/// An edge that neither the graph nor the transaction has is not seen.
pub proof fn unknown_edges_are_not_seen(txn: &MemTransaction, eid: EdgeId)
    requires
        forall|j: int| 0 <= j < txn.edges@.len() ==> (#[trigger] txn.edges@[j]).eid != eid,
        forall|w: int| 0 <= w < txn.edge_writes@.len() ==> (#[trigger] txn.edge_writes@[w]).0 != eid,
    ensures
        !txn.sees(eid),
        txn.version_of(eid) is None,
        txn.write_to(eid) is None,
{
    first_entry_of_an_edge_is_found(txn.edges@, eid, 0, txn.edges@.len() as int);
    lemma_write_index(txn.edge_writes@, eid, 0);
}

/// An optimistic transaction sees what it has inserted or updated, unless it is marked as deleted,
/// in place of what the graph has; what it has deleted it does not see.
pub proof fn own_writes_are_seen_first(txn: &MemTransaction, w: int)
    requires
        txn.wf(),
        txn.lock_strategy == LockStrategy::Optimistic,
        0 <= w < txn.edge_writes@.len(),
    ensures
        txn.edge_writes@[w].1 matches WriteKind::InsertEdge(edge) ==> (txn.sees(
            txn.edge_writes@[w].0,
        ) <==> !edge.is_tombstone),
        txn.edge_writes@[w].1 matches WriteKind::UpdateEdge { before, after } ==> (txn.sees(
            txn.edge_writes@[w].0,
        ) <==> !after.is_tombstone),
        txn.edge_writes@[w].1 is DeleteEdge ==> !txn.sees(txn.edge_writes@[w].0),
        forall|i: int|
            0 <= i < txn.edges@.len() && (#[trigger] txn.edges@[i]).eid == txn.edge_writes@[w].0
                ==> match txn.edge_writes@[w].1 {
                WriteKind::InsertEdge(edge) => txn.candidate(i) == (if edge.is_tombstone {
                    None
                } else {
                    Some(edge)
                }),
                WriteKind::UpdateEdge { before, after } => txn.candidate(i) == (
                if after.is_tombstone {
                    None
                } else {
                    Some(after)
                }),
                WriteKind::DeleteEdge { before } => txn.candidate(i) is None,
                WriteKind::Other => txn.candidate(i) == txn.edges@[i].visible,
            },
{
    lemma_own_write(txn, w);
}

proof fn lemma_own_write(txn: &MemTransaction, w: int)
    requires
        txn.wf(),
        0 <= w < txn.edge_writes@.len(),
    ensures
        txn.write_to(txn.edge_writes@[w].0) == Some(txn.edge_writes@[w].1),
{
    let eid = txn.edge_writes@[w].0;
    assert forall|j: int| 0 <= j < w implies (#[trigger] txn.edge_writes@[j]).0 != eid by {
        assert(txn.edge_writes@[j].0 != txn.edge_writes@[w].0);
    }
    first_write_to_an_edge_is_found(txn.edge_writes@, eid, 0, w);
}

// ---------------------------------------------------------------------------------------------
// Neighbours
// ---------------------------------------------------------------------------------------------

/// In a pessimistic transaction, the neighbours of a known vertex are those in its incoming list,
/// those in its outgoing list, or for both directions all of them.
pub proof fn graph_neighbors_are_listed(
    txn: &MemTransaction,
    vid: VertexId,
    i: int,
    key: NeighborKey,
)
    requires
        txn.lock_strategy == LockStrategy::Pessimistic,
        0 <= i < txn.adjacency_list@.len(),
        txn.adjacency_list@[i].0 == vid,
        forall|j: int| 0 <= j < i ==> (#[trigger] txn.adjacency_list@[j]).0 != vid,
    ensures
        is_listed(*txn, vid, Direction::Incoming, key)
            <==> txn.adjacency_list@[i].1.incoming@.contains(key),
        is_listed(*txn, vid, Direction::Outgoing, key)
            <==> txn.adjacency_list@[i].1.outgoing@.contains(key),
        txn.adjacency_list@[i].1.incoming@.contains(key) ==> is_listed(
            *txn,
            vid,
            Direction::Both,
            key,
        ),
        txn.adjacency_list@[i].1.outgoing@.contains(key) ==> is_listed(
            *txn,
            vid,
            Direction::Both,
            key,
        ),
        is_listed(*txn, vid, Direction::Both, key)
            ==> txn.adjacency_list@[i].1.incoming@.contains(key)
            || txn.adjacency_list@[i].1.outgoing@.contains(key),
{
    first_entry_of_a_vertex_is_found(txn.adjacency_list@, vid, 0, i);
}

/// A vertex that the graph does not know has no neighbours but those that an optimistic transaction
/// is about to give it.
pub proof fn unknown_vertices_have_no_neighbors(
    txn: &MemTransaction,
    vid: VertexId,
    direction: Direction,
    key: NeighborKey,
)
    requires
        forall|j: int|
            0 <= j < txn.adjacency_list@.len() ==> (#[trigger] txn.adjacency_list@[j]).0 != vid,
        txn.lock_strategy == LockStrategy::Pessimistic || forall|w: int|
            0 <= w < txn.edge_writes@.len() ==> (#[trigger] txn.edge_writes@[w]).1 is DeleteEdge
                || txn.edge_writes@[w].1 is Other,
    ensures
        !is_listed(*txn, vid, direction, key),
{
    first_entry_of_a_vertex_is_found(
        txn.adjacency_list@,
        vid,
        0,
        txn.adjacency_list@.len() as int,
    );
}

/// Both directions list no less than each of them: a neighbour that is listed for one direction,
/// and whose edge the transaction is not about to delete, is listed for both.
pub proof fn both_directions_list_no_less(txn: &MemTransaction, vid: VertexId, key: NeighborKey)
    requires
        is_listed(*txn, vid, Direction::Incoming, key) || is_listed(
            *txn,
            vid,
            Direction::Outgoing,
            key,
        ),
        forall|w: int|
            0 <= w < txn.edge_writes@.len() ==> ((#[trigger] txn.edge_writes@[w]).1 matches
                WriteKind::DeleteEdge { before } ==> before.eid != key.2),
    ensures
        is_listed(*txn, vid, Direction::Both, key),
{
    let one = if is_listed(*txn, vid, Direction::Incoming, key) {
        Direction::Incoming
    } else {
        Direction::Outgoing
    };
    if txn.lock_strategy == LockStrategy::Optimistic {
        if exists|i: int|
            0 <= i < txn.edge_writes@.len() && adds(
                (#[trigger] txn.edge_writes@[i]).1,
                vid,
                one,
                key,
            ) {
            let i = choose|i: int|
                0 <= i < txn.edge_writes@.len() && adds(
                    (#[trigger] txn.edge_writes@[i]).1,
                    vid,
                    one,
                    key,
                );
            assert(adds(txn.edge_writes@[i].1, vid, Direction::Both, key));
        } else {
            assert(graph_keys(*txn, vid, one).contains(key));
            assert(graph_keys(*txn, vid, Direction::Both).contains(key));
            assert forall|i: int| 0 <= i < txn.edge_writes@.len() implies !takes(
                (#[trigger] txn.edge_writes@[i]).1,
                vid,
                Direction::Both,
                key,
            ) by {}
        }
    }
}

/// A neighbour over an edge to which an optimistic transaction has not written is listed exactly
/// where the graph lists it.
pub proof fn unwritten_neighbors_are_those_of_the_graph(
    txn: &MemTransaction,
    vid: VertexId,
    i: int,
    key: NeighborKey,
)
    requires
        txn.wf(),
        0 <= i < txn.adjacency_list@.len(),
        txn.adjacency_list@[i].0 == vid,
        forall|j: int| 0 <= j < i ==> (#[trigger] txn.adjacency_list@[j]).0 != vid,
        forall|w: int|
            0 <= w < txn.edge_writes@.len() ==> (#[trigger] txn.edge_writes@[w]).0 != key.2
                || txn.edge_writes@[w].1 is Other,
    ensures
        is_listed(*txn, vid, Direction::Incoming, key)
            <==> txn.adjacency_list@[i].1.incoming@.contains(key),
        is_listed(*txn, vid, Direction::Outgoing, key)
            <==> txn.adjacency_list@[i].1.outgoing@.contains(key),
        is_listed(*txn, vid, Direction::Both, key)
            <==> txn.adjacency_list@[i].1.incoming@.contains(key)
            || txn.adjacency_list@[i].1.outgoing@.contains(key),
{
    first_entry_of_a_vertex_is_found(txn.adjacency_list@, vid, 0, i);
    assert forall|w: int, direction: Direction| 0 <= w < txn.edge_writes@.len() implies !takes(
        (#[trigger] txn.edge_writes@[w]).1,
        vid,
        direction,
        key,
    ) && !#[trigger] adds(txn.edge_writes@[w].1, vid, direction, key) by {}
}

/// What an optimistic transaction has inserted or updated, and not marked as deleted, is a
/// neighbour at the vertex that the edge leaves for the outgoing direction and at the vertex that
/// it enters for the incoming one, and at no other vertex that the graph does not list it for.
pub proof fn written_edges_join_their_ends(txn: &MemTransaction, w: int, edge: Edge)
    requires
        txn.wf(),
        txn.lock_strategy == LockStrategy::Optimistic,
        0 <= w < txn.edge_writes@.len(),
        txn.edge_writes@[w].1 == WriteKind::InsertEdge(edge) || exists|before: Edge|
            txn.edge_writes@[w].1 == (WriteKind::UpdateEdge { before, after: edge }),
        !edge.is_tombstone,
    ensures
        ({
            let out: NeighborKey = (edge.label_id.raw, edge.dst_id, edge.eid);
            let back: NeighborKey = (edge.label_id.raw, edge.src_id, edge.eid);
            &&& is_listed(*txn, edge.src_id, Direction::Outgoing, out)
            &&& is_listed(*txn, edge.src_id, Direction::Both, out)
            &&& is_listed(*txn, edge.dst_id, Direction::Incoming, back)
            &&& is_listed(*txn, edge.dst_id, Direction::Both, back)
        }),
        forall|vid: VertexId, key: NeighborKey|
            vid != edge.src_id && key.2 == edge.eid && #[trigger] is_listed(
                *txn,
                vid,
                Direction::Outgoing,
                key,
            ) ==> graph_keys(*txn, vid, Direction::Outgoing).contains(key),
        forall|vid: VertexId, key: NeighborKey|
            vid != edge.dst_id && key.2 == edge.eid && #[trigger] is_listed(
                *txn,
                vid,
                Direction::Incoming,
                key,
            ) ==> graph_keys(*txn, vid, Direction::Incoming).contains(key),
{
    let write = txn.edge_writes@[w].1;
    let out: NeighborKey = (edge.label_id.raw, edge.dst_id, edge.eid);
    let back: NeighborKey = (edge.label_id.raw, edge.src_id, edge.eid);
    assert(adds(write, edge.src_id, Direction::Outgoing, out));
    assert(adds(write, edge.dst_id, Direction::Incoming, back));
    assert(adds(write, edge.src_id, Direction::Both, out));
    assert(adds(write, edge.dst_id, Direction::Both, back));
    assert(txn.edge_writes@[w].0 == edge.eid);
    assert forall|i: int, vid: VertexId, direction: Direction, key: NeighborKey|
        0 <= i < txn.edge_writes@.len() && key.2 == edge.eid && #[trigger] adds(
            txn.edge_writes@[i].1,
            vid,
            direction,
            key,
        ) implies i == w by {
        assert(txn.edge_writes@[i].0 == key.2);
        if i < w {
            assert(txn.edge_writes@[i].0 != txn.edge_writes@[w].0);
        }
        if w < i {
            assert(txn.edge_writes@[w].0 != txn.edge_writes@[i].0);
        }
    }
}

/// What an optimistic transaction has written and marked as deleted makes nobody a neighbour: what
/// is listed under the number of the edge stands in the graph.
pub proof fn marked_edges_join_nothing(
    txn: &MemTransaction,
    w: int,
    vid: VertexId,
    direction: Direction,
    key: NeighborKey,
)
    requires
        txn.wf(),
        txn.lock_strategy == LockStrategy::Optimistic,
        0 <= w < txn.edge_writes@.len(),
        match txn.edge_writes@[w].1 {
            WriteKind::InsertEdge(edge) => edge.is_tombstone,
            WriteKind::UpdateEdge { after, .. } => after.is_tombstone,
            _ => false,
        },
        key.2 == txn.edge_writes@[w].0,
        is_listed(*txn, vid, direction, key),
    ensures
        graph_keys(*txn, vid, direction).contains(key),
        !txn.sees(key.2),
{
    lemma_own_write(txn, w);
    if exists|i: int|
        0 <= i < txn.edge_writes@.len() && adds(
            (#[trigger] txn.edge_writes@[i]).1,
            vid,
            direction,
            key,
        ) {
        let i = choose|i: int|
            0 <= i < txn.edge_writes@.len() && adds(
                (#[trigger] txn.edge_writes@[i]).1,
                vid,
                direction,
                key,
            );
        assert(txn.edge_writes@[i].0 == key.2);
        if i < w {
            assert(txn.edge_writes@[i].0 != txn.edge_writes@[w].0);
        }
        if w < i {
            assert(txn.edge_writes@[w].0 != txn.edge_writes@[i].0);
        }
    }
}

/// What an optimistic transaction has deleted is a neighbour at neither of the ends of the edge,
/// for the direction in which the edge runs there and for both.
pub proof fn deleted_edges_leave_their_ends(txn: &MemTransaction, w: int, edge: Edge)
    requires
        txn.wf(),
        txn.lock_strategy == LockStrategy::Optimistic,
        0 <= w < txn.edge_writes@.len(),
        txn.edge_writes@[w].1 == (WriteKind::DeleteEdge { before: edge }),
    ensures
        ({
            let out: NeighborKey = (edge.label_id.raw, edge.dst_id, edge.eid);
            let back: NeighborKey = (edge.label_id.raw, edge.src_id, edge.eid);
            &&& !is_listed(*txn, edge.src_id, Direction::Outgoing, out)
            &&& !is_listed(*txn, edge.src_id, Direction::Both, out)
            &&& !is_listed(*txn, edge.dst_id, Direction::Incoming, back)
            &&& !is_listed(*txn, edge.dst_id, Direction::Both, back)
        }),
{
    let write = txn.edge_writes@[w].1;
    let out: NeighborKey = (edge.label_id.raw, edge.dst_id, edge.eid);
    let back: NeighborKey = (edge.label_id.raw, edge.src_id, edge.eid);
    assert(takes(write, edge.src_id, Direction::Outgoing, out));
    assert(takes(write, edge.dst_id, Direction::Incoming, back));
    assert(takes(write, edge.src_id, Direction::Both, out));
    assert(takes(write, edge.dst_id, Direction::Both, back));
    assert(txn.edge_writes@[w].0 == edge.eid);
    assert forall|i: int, vid: VertexId, direction: Direction, key: NeighborKey|
        0 <= i < txn.edge_writes@.len() && key.2 == edge.eid implies !#[trigger] adds(
        txn.edge_writes@[i].1,
        vid,
        direction,
        key,
    ) by {
        if adds(txn.edge_writes@[i].1, vid, direction, key) {
            assert(txn.edge_writes@[i].0 == key.2);
            if i < w {
                assert(txn.edge_writes@[i].0 != txn.edge_writes@[w].0);
            }
            if w < i {
                assert(txn.edge_writes@[w].0 != txn.edge_writes@[i].0);
            }
        }
    }
}

/// A list of neighbours is in the order of labels, then of neighbours, then of edges, and holds
/// each of them once.
pub proof fn lists_are_in_order(list: Seq<NeighborKey>, keys: Set<NeighborKey>, i: int, j: int)
    requires
        is_sorted_list(list, keys),
        0 <= i < j < list.len(),
    ensures
        list[i] != list[j],
        list[i].0 <= list[j].0,
        list[i].0 == list[j].0 ==> list[i].1 <= list[j].1,
        list[i].0 == list[j].0 && list[i].1 == list[j].1 ==> list[i].2 < list[j].2,
        keys.contains(list[i]),
{
    assert(key_less(list[i], list[j]));
    assert(list.contains(list[i]));
}

// ---------------------------------------------------------------------------------------------
// Steps of the walks
// ---------------------------------------------------------------------------------------------

/// A step of a walk over neighbours gives the first that is left whose edge the transaction sees
/// and that no filter refuses; each before it has an edge that the transaction does not see, or is
/// refused.
pub proof fn neighbor_steps_give_the_first_that_is_seen<'a, F: Fn(&Neighbor) -> bool>(
    before: &AdjacencyIterator<'a, F>,
    after: &AdjacencyIterator<'a, F>,
    k: int,
)
    requires
        before.stops_at(*after, k),
    ensures
        0 <= k < before.rest().len(),
        before.txn.sees(before.rest()[k].2),
        after.rest() == before.rest().subrange(k + 1, before.rest().len() as int),
        after.current_adj matches Some(n) && n.label_id.raw == before.rest()[k].0 && n.neighbor_id
            == before.rest()[k].1 && n.eid == before.rest()[k].2 && forall|f: int|
            0 <= f < before.filters@.len() ==> call_ensures(
                #[trigger] before.filters@[f],
                (&n,),
                true,
            ),
        forall|j: int|
            0 <= j < k && before.txn.sees((#[trigger] before.rest()[j]).2) ==> exists|f: int|
                0 <= f < before.filters@.len() && call_ensures(
                    #[trigger] before.filters@[f],
                    (&Neighbor::of_key(before.rest()[j]),),
                    false,
                ),
{
}

/// A step of a walk over edges gives the edge at the first position that is left at which the
/// transaction sees an edge that no filter refuses. An edge of the graph that the transaction has
/// not written to is noted as read; nothing else is.
pub proof fn edge_steps_give_the_first_that_is_seen<'a, F: Fn(&Edge) -> bool>(
    before: EdgeIterator<'a, F>,
    after: EdgeIterator<'a, F>,
    p: int,
)
    requires
        before.wf(),
        before.in_order(),
        before.stops_at(after, p),
    ensures
        before.index + before.pending_index <= p,
        after.index + after.pending_index == p + 1,
        p < before.txn.edges@.len() ==> after.current_edge == before.txn.candidate(p),
        p >= before.txn.edges@.len() ==> after.current_edge == Some(
            before.pending_inserts@[p - before.txn.edges@.len()],
        ),
        after.current_edge matches Some(e) && forall|f: int|
            0 <= f < before.filters@.len() ==> call_ensures(
                #[trigger] before.filters@[f],
                (&e,),
                true,
            ),
        p < before.txn.edges@.len() && before.txn.lock_strategy == LockStrategy::Pessimistic
            ==> after.edge_reads@ == before.edge_reads@.push(before.txn.edges@[p].eid),
        p < before.txn.edges@.len() && (forall|w: int|
            0 <= w < before.txn.edge_writes@.len() ==> (#[trigger] before.txn.edge_writes@[w]).0
                != before.txn.edges@[p].eid || before.txn.edge_writes@[w].1 is Other)
            ==> after.edge_reads@ == before.edge_reads@.push(before.txn.edges@[p].eid),
        p >= before.txn.edges@.len() ==> after.edge_reads@ == before.edge_reads@,
        before.txn.wf() && before.txn.lock_strategy == LockStrategy::Optimistic && p
            < before.txn.edges@.len() && (exists|w: int|
            0 <= w < before.txn.edge_writes@.len() && (#[trigger] before.txn.edge_writes@[w]).0
                == before.txn.edges@[p].eid && !(before.txn.edge_writes@[w].1 is Other))
            ==> after.edge_reads@ == before.edge_reads@,
{
    if p < before.txn.edges@.len() {
        let txn = before.txn;
        let eid = txn.edges@[p].eid;
        lemma_write_index(txn.edge_writes@, eid, 0);
        if txn.wf() && (exists|w: int|
            0 <= w < txn.edge_writes@.len() && (#[trigger] txn.edge_writes@[w]).0 == eid && !(
            txn.edge_writes@[w].1 is Other)) {
            let w = choose|w: int|
                0 <= w < txn.edge_writes@.len() && (#[trigger] txn.edge_writes@[w]).0 == eid && !(
                txn.edge_writes@[w].1 is Other);
            lemma_own_write(txn, w);
        }
    }
}

/// What an optimistic transaction is about to insert and the graph does not have is gone through in
/// the order of its writes, and nothing else is held back; a pessimistic one holds nothing back.
pub proof fn held_back_edges_are_insertions(txn: &MemTransaction, n: int, k: int)
    requires
        0 <= n <= txn.edge_writes@.len(),
        0 <= k < txn.pending(n).len(),
    ensures
        exists|w: int|
            k <= w < n && (#[trigger] txn.edge_writes@[w]).1 == WriteKind::InsertEdge(
                txn.pending(n)[k],
            ) && forall|i: int|
                0 <= i < txn.edges@.len() ==> (#[trigger] txn.edges@[i]).eid
                    != txn.edge_writes@[w].0,
        txn.pending(n).len() <= n,
    decreases n,
{
    if n > 0 {
        let before = txn.pending(n - 1);
        lemma_pending_short(txn, n - 1);
        if k < before.len() {
            held_back_edges_are_insertions(txn, n - 1, k);
        } else {
            lemma_entry_free(txn.edges@, txn.edge_writes@[n - 1].0, 0);
            assert(txn.edge_writes@[n - 1].1 == WriteKind::InsertEdge(txn.pending(n)[k]));
        }
    }
}

proof fn lemma_pending_short(txn: &MemTransaction, n: int)
    requires
        n >= 0,
    ensures
        txn.pending(n).len() <= n,
    decreases n,
{
    if n > 0 {
        lemma_pending_short(txn, n - 1);
    }
}

proof fn lemma_entry_free(entries: Seq<EdgeEntry>, eid: EdgeId, from: int)
    requires
        from >= 0,
        entry_index(entries, eid, from) is None,
    ensures
        forall|i: int| from <= i < entries.len() ==> (#[trigger] entries[i]).eid != eid,
    decreases entries.len() - from,
{
    if from < entries.len() {
        lemma_entry_free(entries, eid, from + 1);
    }
}

/// A pessimistic transaction goes through the versions that it sees in the graph, in the order of
/// the graph, and through nothing else.
pub proof fn pessimistic_walks_stay_in_the_graph(txn: &MemTransaction, p: int)
    requires
        txn.lock_strategy == LockStrategy::Pessimistic,
        0 <= p <= txn.edges@.len(),
    ensures
        walked(*txn, p) == txn.edges@.skip(p).filter(
            |entry: EdgeEntry| entry.visible is Some,
        ).map_values(|entry: EdgeEntry| entry.visible->0),
    decreases txn.edges@.len() - p,
{
    let keep = |entry: EdgeEntry| entry.visible is Some;
    let get = |entry: EdgeEntry| entry.visible->0;
    let entries = txn.edges@.skip(p);
    if p < txn.edges@.len() {
        pessimistic_walks_stay_in_the_graph(txn, p + 1);
        let rest = txn.edges@.skip(p + 1);
        assert(entries =~= seq![entries[0]] + rest);
        Seq::filter_distributes_over_add(seq![entries[0]], rest, keep);
        assert(seq![entries[0]].filter(keep) =~= if keep(entries[0]) {
            seq![entries[0]]
        } else {
            Seq::empty()
        }) by {
            reveal(Seq::filter);
            assert(seq![entries[0]].drop_last() =~= Seq::<EdgeEntry>::empty());
            assert(Seq::<EdgeEntry>::empty().filter(keep) =~= Seq::empty());
        }
        assert(walked(*txn, p) =~= entries.filter(keep).map_values(get));
    } else {
        assert(entries =~= Seq::empty());
        assert(entries.filter(keep) =~= Seq::empty()) by {
            reveal(Seq::filter);
        }
        assert(walked(*txn, p) =~= entries.filter(keep).map_values(get));
    }
}

/// A search among neighbours that finds an edge stands on it, and no neighbour that was given out
/// before has it; one that does not stands on the first neighbour whose edge is greater, with only
/// smaller ones given out before it, or at the end.
pub proof fn neighbor_searches_stand_where_they_should<'a, F: Fn(&Neighbor) -> bool>(
    before: &AdjacencyIterator<'a, F>,
    after: &AdjacencyIterator<'a, F>,
    id: EdgeId,
    k: int,
)
    requires
        before.filters@.len() == 0,
        before.passes_by(*after, id, k) || (before.lands_on(*after, k) && before.rest()[k].2 == id
            && before.none_matches(id, k)),
    ensures
        0 <= k <= before.rest().len(),
        k < before.rest().len() ==> after.rest() == before.rest().subrange(
            k + 1,
            before.rest().len() as int,
        ) && (after.current_adj matches Some(n) && n.eid == before.rest()[k].2 && n.neighbor_id
            == before.rest()[k].1 && n.label_id.raw == before.rest()[k].0) && before.txn.sees(
            before.rest()[k].2,
        ) && before.rest()[k].2 >= id,
        k == before.rest().len() ==> after.rest().len() == 0,
        k == before.rest().len() || before.rest()[k].2 > id ==> forall|j: int|
            0 <= j < k && before.txn.sees((#[trigger] before.rest()[j]).2) ==> before.rest()[j].2
                < id,
        k < before.rest().len() && before.rest()[k].2 == id ==> forall|j: int|
            0 <= j < k && before.txn.sees((#[trigger] before.rest()[j]).2) ==> before.rest()[j].2
                != id,
{
}

/// The reads that a walk of a pessimistic transaction notes are those of the edges that it gives
/// out, in their order.
pub proof fn walks_note_what_they_give_out<'a, F: Fn(&Edge) -> bool>(
    it: EdgeIterator<'a, F>,
    given: Seq<int>,
    k: int,
)
    requires
        it.txn.lock_strategy == LockStrategy::Pessimistic,
        forall|j: int| 0 <= j < given.len() ==> 0 <= #[trigger] given[j] < it.txn.edges@.len(),
    ensures
        it.reads_of(given).len() == given.len(),
        0 <= k < given.len() ==> it.reads_of(given)[k] == it.txn.edges@[given[k]].eid,
    decreases given.len(),
{
    if given.len() > 0 {
        let before = given.drop_last();
        assert forall|j: int| 0 <= j < before.len() implies 0 <= #[trigger] before[j]
            < it.txn.edges@.len() by {
            assert(before[j] == given[j]);
        }
        walks_note_what_they_give_out(it, before, k);
        assert(given.last() == given[given.len() - 1]);
        if 0 <= k < before.len() {
            assert(before[k] == given[k]);
        }
    }
}

/// What the transaction itself is about to insert or has written is not noted as read.
pub proof fn own_edges_are_not_noted<'a, F: Fn(&Edge) -> bool>(
    it: EdgeIterator<'a, F>,
    given: Seq<int>,
)
    requires
        forall|j: int|
            0 <= j < given.len() ==> #[trigger] given[j] >= it.txn.edges@.len() || (
            it.txn.lock_strategy == LockStrategy::Optimistic && (it.txn.write_to(
                it.txn.edges@[given[j]].eid,
            ) matches Some(write) && !(write is Other))),
    ensures
        it.reads_of(given).len() == 0,
    decreases given.len(),
{
    if given.len() > 0 {
        let before = given.drop_last();
        assert forall|j: int| 0 <= j < before.len() implies #[trigger] before[j]
            >= it.txn.edges@.len() || (it.txn.lock_strategy == LockStrategy::Optimistic && (
        it.txn.write_to(it.txn.edges@[before[j]].eid) matches Some(write) && !(
        write is Other))) by {
            assert(before[j] == given[j]);
        }
        own_edges_are_not_noted(it, before);
        assert(given.last() == given[given.len() - 1]);
    }
}

/// A search among edges without filters that finds one stands behind it, and no edge that was given
/// out before has its number; one that does not stands behind the first edge with a greater number,
/// with only smaller ones given out before it, or at the end. What was given out on the way is what
/// the transaction sees.
pub proof fn edge_searches_stand_where_they_should<'a, F: Fn(&Edge) -> bool>(
    before: EdgeIterator<'a, F>,
    after: EdgeIterator<'a, F>,
    id: EdgeId,
    p: int,
    given: Seq<int>,
    q: int,
)
    requires
        before.wf(),
        before.filters@.len() == 0,
        after.same_source(&before),
        before.passes_by(after, id, p, given) || (before.lands_on(after, p, given) && before.at(
            p,
        )->0.eid == id && before.none_matches(id, p)),
    ensures
        ({
            let graph = before.txn.edges@.len() as int;
            let end = graph + before.pending_inserts@.len();
            let start = before.index + before.pending_index;
            &&& start <= p <= end
            &&& p < end ==> after.index + after.pending_index == p + 1 && (
            after.current_edge matches Some(e) && e.eid >= id)
            &&& p < graph ==> after.current_edge == before.txn.candidate(p)
            &&& graph <= p < end ==> after.current_edge == Some(before.pending_inserts@[p - graph])
            &&& p == end ==> after.current_edge is None
            &&& start <= q < p && q < graph ==> (before.txn.candidate(q) matches Some(e) ==> {
                &&& e.eid != id
                &&& p == end || (after.current_edge->0).eid > id ==> e.eid < id
            })
            &&& start <= q < p && graph <= q ==> {
                let e = before.pending_inserts@[q - graph];
                &&& e.eid != id
                &&& p == end || (after.current_edge->0).eid > id ==> e.eid < id
            }
            &&& start <= q < p && q < graph ==> given.contains(q) == before.txn.candidate(q) is Some
            &&& start <= q < p && graph <= q ==> given.contains(q)
            &&& after.edge_reads@ == before.edge_reads@ + before.reads_of(given)
        }),
{
    let start = before.index + before.pending_index;
    if start <= q < p {
        assert(before.fails(q) || before.passes(q));
        assert(before.fails(q) == (before.at(q) is None));
        if given.contains(q) {
            let k = choose|k: int| 0 <= k < given.len() && given[k] == q;
            assert(before.passes(given[k]));
        }
    }
}

} // verus!
