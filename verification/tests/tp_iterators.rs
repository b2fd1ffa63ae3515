use std::sync::Arc;

use minigu::common::types::LabelId;
use minigu::common::value::ScalarValue;
use minigu::storage::model::PropertyRecord;
use minigu::storage::tp::iterators::adjacency_iterator::{AdjacencyIterator, Direction};
use minigu::storage::tp::neighbors::{Neighbor, NeighborSet};
use minigu::storage::tp::transaction::{
    Edge, EdgeEntry, MemTransaction, VertexAdjacency, WriteKind,
};
use minigu::transaction::LockStrategy;

type NeighborFilter = Box<dyn Fn(&Neighbor) -> bool>;
type EdgeFilter = Box<dyn Fn(&Edge) -> bool>;

const FRIEND_LABEL_ID: u32 = 1;
const FOLLOW_LABEL_ID: u32 = 2;

fn label(raw: u32) -> LabelId {
    LabelId::new(raw).unwrap()
}

fn edge(eid: u64, src: u64, dst: u64, raw: u32) -> Edge {
    Edge::new(eid, src, dst, label(raw), PropertyRecord::new(vec![]))
}

fn transaction(lock_strategy: LockStrategy, vertices: &[u64], edges: Vec<Edge>) -> MemTransaction {
    let mut adjacency_list = Vec::new();
    for &vid in vertices {
        let mut incoming = NeighborSet::new();
        let mut outgoing = NeighborSet::new();
        for e in &edges {
            if e.src_id == vid {
                outgoing.insert(Neighbor::new(e.label_id, e.dst_id, e.eid));
            }
            if e.dst_id == vid {
                incoming.insert(Neighbor::new(e.label_id, e.src_id, e.eid));
            }
        }
        let lists = VertexAdjacency { incoming: Arc::new(incoming), outgoing: Arc::new(outgoing) };
        adjacency_list.push((vid, lists));
    }
    let edges = edges
        .into_iter()
        .map(|e| EdgeEntry { eid: e.eid, visible: Some(e) })
        .collect();
    MemTransaction { lock_strategy, edge_writes: Vec::new(), edges, adjacency_list }
}

fn all(mut iter: AdjacencyIterator<'_, NeighborFilter>) -> Vec<Neighbor> {
    let mut found = Vec::new();
    while let Some(item) = iter.next() {
        found.push(item.unwrap());
    }
    found
}

#[test]
fn adjacency_iterator_pessimistic_outgoing_reuses_arc() {
    let txn = transaction(
        LockStrategy::Pessimistic,
        &[1, 2, 3],
        vec![edge(1, 1, 2, FRIEND_LABEL_ID), edge(2, 3, 1, FOLLOW_LABEL_ID)],
    );
    let vid = 1;
    let expected = txn.adjacency(vid).unwrap().outgoing.clone();
    assert!(!expected.is_empty());

    let iter: AdjacencyIterator<'_, NeighborFilter> =
        AdjacencyIterator::new(&txn, vid, Direction::Outgoing);
    let actual = iter.adj_list.expect("adj_list should exist");

    assert!(Arc::ptr_eq(&actual, &expected));
}

#[test]
fn adjacency_iterator_pessimistic_incoming_reuses_arc() {
    let txn = transaction(
        LockStrategy::Pessimistic,
        &[1, 2, 3],
        vec![edge(1, 1, 2, FRIEND_LABEL_ID), edge(2, 3, 1, FOLLOW_LABEL_ID)],
    );
    let vid = 1;
    let expected = txn.adjacency(vid).unwrap().incoming.clone();
    assert!(!expected.is_empty());

    let iter: AdjacencyIterator<'_, NeighborFilter> =
        AdjacencyIterator::new(&txn, vid, Direction::Incoming);
    let actual = iter.adj_list.expect("adj_list should exist");

    assert!(Arc::ptr_eq(&actual, &expected));
}

#[test]
fn adjacency_iterator_optimistic_overlay_includes_inserts() {
    let mut txn = transaction(LockStrategy::Optimistic, &[1, 2], vec![]);
    let label = LabelId::new(1).unwrap();
    let inserted = Edge::new(10, 1, 2, label, PropertyRecord::new(vec![]));
    txn.edge_writes.push((10, WriteKind::InsertEdge(inserted)));

    let neighbors = all(txn.iter_adjacency_outgoing(1));

    assert_eq!(neighbors, vec![Neighbor::new(label, 2, 10)]);
}

#[test]
fn test_graph_empty_adjacency_list() {
    let txn = transaction(LockStrategy::Pessimistic, &[1], vec![]);
    let adj_count = all(txn.iter_adjacency(1)).len();
    assert_eq!(adj_count, 0);
}

#[test]
fn test_graph_bidirectional_edges() {
    let txn = transaction(
        LockStrategy::Pessimistic,
        &[1, 2],
        vec![edge(1, 1, 2, FRIEND_LABEL_ID), edge(2, 2, 1, FRIEND_LABEL_ID)],
    );
    let alice_out = all(txn.iter_adjacency_outgoing(1)).len();
    assert_eq!(alice_out, 1);
    let alice_in = all(txn.iter_adjacency_incoming(1)).len();
    assert_eq!(alice_in, 1);
}

#[test]
fn test_graph_multiple_edge_types() {
    let txn = transaction(
        LockStrategy::Pessimistic,
        &[1, 2],
        vec![edge(1, 1, 2, FRIEND_LABEL_ID), edge(2, 1, 2, FOLLOW_LABEL_ID)],
    );
    let total_edges = all(txn.iter_adjacency(1)).len();
    assert_eq!(total_edges, 2);

    let friends_only: NeighborFilter = Box::new(|adj| adj.label_id() == label(FRIEND_LABEL_ID));
    let friend_count = all(txn.iter_adjacency_outgoing(1).filter(friends_only)).len();
    assert_eq!(friend_count, 1);
}

#[test]
fn neighbors_come_in_order_and_in_batches() {
    let edges: Vec<Edge> = (0..150u64).map(|i| edge(i, 1, 500 - i, FRIEND_LABEL_ID)).collect();
    let txn = transaction(LockStrategy::Pessimistic, &[1], edges);
    let found = all(txn.iter_adjacency_outgoing(1));
    assert_eq!(found.len(), 150);
    for pair in found.windows(2) {
        assert!(pair[0].neighbor_id < pair[1].neighbor_id);
    }
}

#[test]
fn own_deletions_and_tombstones_are_passed_over() {
    let mut txn = transaction(
        LockStrategy::Optimistic,
        &[1, 2, 3],
        vec![edge(1, 1, 2, FRIEND_LABEL_ID), edge(2, 1, 3, FRIEND_LABEL_ID)],
    );
    txn.edge_writes.push((1, WriteKind::DeleteEdge { before: edge(1, 1, 2, FRIEND_LABEL_ID) }));
    let mut buried = edge(2, 1, 3, FRIEND_LABEL_ID);
    buried.is_tombstone = true;
    let before = edge(2, 1, 3, FRIEND_LABEL_ID);
    txn.edge_writes.push((2, WriteKind::UpdateEdge { before, after: buried }));
    assert_eq!(all(txn.iter_adjacency(1)), vec![]);
    assert!(!txn.is_visible(1));
    assert!(!txn.is_visible(2));
}

#[test]
fn neighbors_can_be_sought() {
    let txn = transaction(
        LockStrategy::Pessimistic,
        &[1],
        vec![
            edge(10, 1, 2, FRIEND_LABEL_ID),
            edge(20, 1, 3, FRIEND_LABEL_ID),
            edge(30, 1, 4, FRIEND_LABEL_ID),
        ],
    );
    let mut iter: AdjacencyIterator<'_, NeighborFilter> = txn.iter_adjacency_outgoing(1);
    assert!(iter.current_entry().is_none());
    assert_eq!(iter.seek(20), Ok(true));
    assert_eq!(iter.current_entry().unwrap().eid(), 20);
    assert_eq!(iter.seek(25), Ok(false));
    assert_eq!(iter.current_entry().unwrap().eid(), 30);
    assert_eq!(iter.seek(99), Ok(false));
}

#[test]
fn skip_sets_hold_each_neighbor_once() {
    let mut set = NeighborSet::new();
    assert!(set.is_empty());
    assert!(set.front().is_none());
    let a = Neighbor::new(label(2), 7, 1);
    let b = Neighbor::new(label(1), 9, 2);
    set.insert(a);
    set.insert(b);
    set.insert(a);
    assert_eq!(set.front(), Some(b));
    assert_eq!(set.next_after(b), Some(a));
    assert_eq!(set.next_after(a), None);
    set.remove(b);
    assert_eq!(set.front(), Some(a));
    set.remove(a);
    assert!(set.is_empty());
}

#[test]
fn edges_are_gone_through_with_own_writes() {
    let mut txn = transaction(
        LockStrategy::Optimistic,
        &[],
        vec![
            edge(1, 1, 2, FRIEND_LABEL_ID),
            edge(2, 1, 3, FRIEND_LABEL_ID),
            edge(3, 1, 4, FRIEND_LABEL_ID),
        ],
    );
    txn.edges.push(EdgeEntry { eid: 4, visible: None });
    let mut after = edge(2, 1, 3, FOLLOW_LABEL_ID);
    after.properties = Arc::new(PropertyRecord::new(vec![ScalarValue::Int32(Some(5))]));
    let before = edge(2, 1, 3, FRIEND_LABEL_ID);
    txn.edge_writes.push((2, WriteKind::UpdateEdge { before, after }));
    txn.edge_writes.push((3, WriteKind::DeleteEdge { before: edge(3, 1, 4, FRIEND_LABEL_ID) }));
    txn.edge_writes.push((9, WriteKind::InsertEdge(edge(9, 5, 6, FRIEND_LABEL_ID))));

    let mut iter = txn.iter_edges::<EdgeFilter>();
    let mut ids = Vec::new();
    let mut labels = Vec::new();
    while let Some(item) = iter.next() {
        let found = item.unwrap();
        if found.eid == 2 {
            assert_eq!(iter.properties()[0].get(0), Some(&ScalarValue::Int32(Some(5))));
        }
        assert_eq!(iter.edge().unwrap().eid(), found.eid);
        ids.push(found.eid);
        labels.push(found.label_id.get());
    }
    assert_eq!(ids, vec![1, 2, 9]);
    assert_eq!(labels, vec![1, 2, 1]);
    assert_eq!(iter.edge_reads, vec![1]);
    assert!(iter.edge().is_none());
    assert!(iter.properties().is_empty());

    let only_follow: EdgeFilter = Box::new(|e| e.label_id == label(FOLLOW_LABEL_ID));
    let mut filtered = txn.iter_edges::<EdgeFilter>().filter(only_follow);
    assert_eq!(filtered.seek(2), Ok(true));
    assert_eq!(filtered.seek(2), Ok(false));
}

#[test]
fn edges_are_sought_in_the_order_of_the_graph() {
    let txn = transaction(
        LockStrategy::Pessimistic,
        &[],
        vec![
            edge(1, 1, 2, FRIEND_LABEL_ID),
            edge(3, 1, 4, FRIEND_LABEL_ID),
            edge(2, 1, 3, FRIEND_LABEL_ID),
        ],
    );
    let mut iter = txn.iter_edges::<EdgeFilter>();
    assert_eq!(iter.seek(2), Ok(true));
    assert_eq!(iter.edge().unwrap().eid(), 2);
    assert!(iter.next().is_none());

    let mut iter = txn.iter_edges::<EdgeFilter>();
    assert_eq!(iter.seek(3), Ok(true));
    assert_eq!(iter.edge().unwrap().eid(), 3);
    assert_eq!(iter.next().unwrap().unwrap().eid, 2);

    let mut iter = txn.iter_edges::<EdgeFilter>();
    assert_eq!(iter.seek(7), Ok(false));
    assert!(iter.edge().is_none());
}

#[test]
fn known_vertices_have_adjacency_lists() {
    let txn = transaction(
        LockStrategy::Pessimistic,
        &[1, 2],
        vec![edge(1, 1, 2, FRIEND_LABEL_ID), edge(2, 2, 1, FRIEND_LABEL_ID)],
    );
    let list = |vid, direction| -> Option<Arc<NeighborSet>> {
        let iter: AdjacencyIterator<'_, NeighborFilter> =
            AdjacencyIterator::new(&txn, vid, direction);
        iter.adj_list
    };
    assert!(list(1, Direction::Outgoing).is_some());
    assert!(list(2, Direction::Incoming).is_some());
    assert!(list(1, Direction::Both).is_some());
    assert!(list(9, Direction::Outgoing).is_none());
    assert!(list(9, Direction::Both).is_none());
}

#[test]
fn seeking_notes_what_was_gone_through() {
    let edges = || {
        vec![
            edge(1, 1, 2, FRIEND_LABEL_ID),
            edge(3, 1, 4, FRIEND_LABEL_ID),
            edge(5, 1, 3, FRIEND_LABEL_ID),
        ]
    };
    let txn = transaction(LockStrategy::Pessimistic, &[], edges());
    let mut iter = txn.iter_edges::<EdgeFilter>();
    assert_eq!(iter.seek(2), Ok(false));
    assert_eq!(iter.edge().unwrap().eid(), 3);
    assert_eq!(iter.edge_reads, vec![1, 3]);
    assert_eq!(iter.next().unwrap().unwrap().eid, 5);
    assert_eq!(iter.edge_reads, vec![1, 3, 5]);

    let mut iter = txn.iter_edges::<EdgeFilter>();
    assert_eq!(iter.seek(3), Ok(true));
    assert_eq!(iter.edge_reads, vec![1, 3]);
    assert_eq!(iter.seek(9), Ok(false));
    assert!(iter.edge().is_none());
    assert_eq!(iter.edge_reads, vec![1, 3, 5]);
}

#[test]
fn filters_keep_what_they_accept() {
    let mut txn = transaction(
        LockStrategy::Optimistic,
        &[],
        (1..=6).map(|i| edge(i, 1, 10 + i, 1 + (i % 2) as u32)).collect(),
    );
    txn.edge_writes.push((9, WriteKind::InsertEdge(edge(9, 1, 19, FOLLOW_LABEL_ID))));
    txn.edge_writes.push((8, WriteKind::InsertEdge(edge(8, 1, 18, FRIEND_LABEL_ID))));
    let follow: EdgeFilter = Box::new(|e| e.label_id == label(FOLLOW_LABEL_ID));
    let far: EdgeFilter = Box::new(|e| e.dst_id > 12);
    let mut iter = txn.iter_edges::<EdgeFilter>().filter(follow).filter(far);
    let mut ids = Vec::new();
    while let Some(item) = iter.next() {
        ids.push(item.unwrap().eid);
    }
    assert_eq!(ids, vec![3, 5, 9]);
    assert_eq!(iter.edge_reads, vec![3, 5]);
    assert!(iter.edge().is_none());
    assert!(iter.next().is_none());
}
