use minigu::common::types::LabelId;
use minigu::common::value::ScalarValue;
use minigu::storage::ap::olap_graph::OlapStorage;
use minigu::storage::ap::transaction::MemTransaction;
use minigu::storage::ap::types::{OlapEdge, OlapPropertyStore, OlapVertex, PropertyColumn};
use minigu::storage::error::StorageError;
use minigu::storage::model::{DeltaOp, PropertyRecord};
use minigu::transaction::{IsolationLevel, Timestamp, TimestampGenerator};

fn make_storage() -> (OlapStorage, TimestampGenerator) {
    (OlapStorage::new(), TimestampGenerator::new())
}

fn begin(offset: u64, start_ts: Timestamp) -> MemTransaction {
    MemTransaction::new(
        Timestamp::with_ts(Timestamp::TXN_ID_START + offset),
        start_ts,
        IsolationLevel::Snapshot,
    )
}

fn begin_at(offset: u64, start_ts: u64) -> MemTransaction {
    begin(offset, Timestamp::with_ts(start_ts))
}

fn vertex(vid: u64) -> OlapVertex {
    OlapVertex { vid, properties: PropertyRecord::default(), block_offset: 0 }
}

fn edge(label: u32, src_id: u64, dst_id: u64, properties: Vec<Option<ScalarValue>>) -> OlapEdge {
    OlapEdge {
        label_id: LabelId::new(label),
        src_id,
        dst_id,
        properties: OlapPropertyStore::new(properties),
    }
}

fn int32(n: i32) -> ScalarValue {
    ScalarValue::Int32(Some(n))
}

fn text(s: &str) -> ScalarValue {
    ScalarValue::String(Some(s.to_string()))
}

fn create_test_edges(
    storage: &mut OlapStorage,
    clock: &mut TimestampGenerator,
    txn_id: Timestamp,
    start_ts: Timestamp,
    edge_offset: u32,
) {
    let mut txn = MemTransaction::new(txn_id, start_ts, IsolationLevel::Snapshot);
    let _ = storage.create_vertex(&txn, vertex(1));
    let _ = storage.create_edge_in_txn(&mut txn, edge(100 + edge_offset, 1, 10, vec![]));
    let _ = storage.create_edge_in_txn(&mut txn, edge(101 + edge_offset, 1, 20, vec![]));
    let _ = storage.create_edge_in_txn(&mut txn, edge(102 + edge_offset, 1, 30, vec![]));
    txn.commit_at(storage, clock, Some(start_ts)).expect("Commit should succeed");
}

fn count_edges_at(storage: &OlapStorage, txn: &MemTransaction) -> usize {
    let mut iter = storage.iter_edges_at_ts(txn).unwrap();
    let mut count = 0;
    while iter.next().is_some() {
        count += 1;
    }
    count
}

fn count_adjacency_at(storage: &OlapStorage, txn: &MemTransaction, vid: u64) -> usize {
    let mut iter = storage.iter_adjacency_at_ts(txn, vid).unwrap();
    let mut count = 0;
    while iter.next().is_some() {
        count += 1;
    }
    count
}

#[test]
fn test_ap_commit_replaces_txn_id() {
    let (mut storage, mut clock) = make_storage();

    let mut vertex_txn = begin_at(0, 0);
    let _ = storage.create_vertex(&vertex_txn, vertex(1));
    vertex_txn
        .commit_at(&mut storage, &mut clock, None)
        .expect("Vertex commit should succeed");

    let mut edge1_txn = begin_at(1, 1);
    let _ = storage.create_edge_in_txn(&mut edge1_txn, edge(100, 1, 42, vec![]));
    let edge1_commit_ts = edge1_txn
        .commit_at(&mut storage, &mut clock, None)
        .expect("Edge1 commit should succeed");

    let mut edge2_txn = begin_at(2, 2);
    let _ = storage.create_edge_in_txn(&mut edge2_txn, edge(100, 1, 42, vec![]));
    let edge2_commit_ts = edge2_txn
        .commit_at(&mut storage, &mut clock, None)
        .expect("commit should succeed");

    let block = storage.edges.first().unwrap();
    assert_eq!(block.edges[0].commit_ts, edge2_commit_ts);
    assert_eq!(block.min_ts, edge1_commit_ts);
    assert_eq!(block.max_ts, edge2_commit_ts);
}

#[test]
fn test_iter_edges_at_ts_filters() {
    let (mut storage, mut clock) = make_storage();
    let txn50 = begin_at(50, 50);

    create_test_edges(
        &mut storage,
        &mut clock,
        Timestamp::with_ts(Timestamp::TXN_ID_START + 100),
        Timestamp::with_ts(100),
        0,
    );
    let txn150 = begin_at(150, 150);
    create_test_edges(
        &mut storage,
        &mut clock,
        Timestamp::with_ts(Timestamp::TXN_ID_START + 200),
        Timestamp::with_ts(200),
        100,
    );
    let txn250 = begin_at(250, 250);

    assert_eq!(count_edges_at(&storage, &txn50), 0, "Should see no edges at ts 50");
    assert_eq!(
        count_edges_at(&storage, &txn150),
        3,
        "Should see 3 edges from first transaction at ts 150"
    );
    assert_eq!(
        count_edges_at(&storage, &txn250),
        6,
        "Should see 6 edges from both transactions at ts 250"
    );
}

#[test]
fn test_uncommitted_data_isolation() {
    let (mut storage, _clock) = make_storage();

    let txn500 = begin_at(500, 500);
    let _ = storage.create_vertex(&txn500, vertex(1));

    let mut txn_a = begin_at(1000, 1000);
    let eid = storage.create_edge_in_txn(&mut txn_a, edge(500, 1, 100, vec![])).unwrap();

    let edge_result = storage.get_edge_at_ts(&txn_a, eid);
    assert!(edge_result.is_ok(), "Transaction A should see its own edge");
    assert!(edge_result.unwrap().is_some(), "Transaction A should see its own edge");

    let txn_b = begin_at(2000, 2000);
    let edge_result_b = storage.get_edge_at_ts(&txn_b, eid);
    if let Ok(item) = edge_result_b {
        assert!(item.is_none(), "Transaction B should not see transaction A's edge");
    }

    let mut iter_a = storage.iter_edges_at_ts(&txn_a).unwrap();
    let mut found_in_a = false;
    while let Some(item) = iter_a.next() {
        if let Ok(e) = item {
            if e.label_id == LabelId::new(500) {
                found_in_a = true;
                break;
            }
        }
    }
    assert!(found_in_a, "Transaction A should find its own edge in iterator");

    let mut iter_b = storage.iter_edges_at_ts(&txn_b).unwrap();
    let mut found_in_b = false;
    while let Some(item) = iter_b.next() {
        if let Ok(e) = item {
            if e.label_id == LabelId::new(500) {
                found_in_b = true;
                break;
            }
        }
    }
    assert!(!found_in_b, "Transaction B should not find transaction A's edge in iterator");
}

#[test]
fn test_set_edge_property_in_txn_basic() {
    let (mut storage, mut clock) = make_storage();
    let mut txn_1 = begin_at(1, 1);
    let _ = storage.create_vertex(&txn_1, vertex(1));
    let eid = storage
        .create_edge_in_txn(&mut txn_1, edge(100, 1, 10, vec![Some(int32(42)), Some(text("hello"))]))
        .unwrap();
    txn_1.commit_at(&mut storage, &mut clock, None).expect("Commit should succeed");

    let mut txn_2 = begin_at(2, 2);
    let result = storage.set_edge_property_in_txn(&mut txn_2, eid, vec![0], vec![int32(10086)]);
    assert!(result.is_ok(), "Setting edge property should succeed");
    txn_2.commit_at(&mut storage, &mut clock, None).expect("Commit should succeed");

    let get_txn = begin(3, Timestamp::max_commit_ts());
    let edge = storage.get_edge_at_ts(&get_txn, eid).unwrap();
    assert_eq!(
        edge.as_ref().unwrap().properties.get(0),
        Some(int32(10086)),
        "Property should be updated"
    );
    assert_eq!(
        edge.as_ref().unwrap().properties.get(1),
        Some(text("hello")),
        "Other properties should remain unchanged"
    );
}

#[test]
fn test_set_edge_property_in_txn_multiple_properties() {
    let (mut storage, mut clock) = make_storage();
    let mut txn_1 = begin_at(1, 1);
    let _ = storage.create_vertex(&txn_1, vertex(1));
    let eid = storage
        .create_edge_in_txn(
            &mut txn_1,
            edge(
                100,
                1,
                10,
                vec![
                    Some(int32(42)),
                    Some(text("hello")),
                    Some(ScalarValue::Boolean(Some(true))),
                ],
            ),
        )
        .unwrap();
    txn_1.commit_at(&mut storage, &mut clock, None).expect("Commit should succeed");

    let mut txn_2 = begin_at(2, 2);
    let result = storage.set_edge_property_in_txn(
        &mut txn_2,
        eid,
        vec![0, 2],
        vec![int32(10086), ScalarValue::Boolean(Some(false))],
    );
    txn_2.commit_at(&mut storage, &mut clock, None).expect("Commit should succeed");
    assert!(result.is_ok(), "Setting multiple edge properties should succeed");

    let get_txn = begin(3, Timestamp::max_commit_ts());
    let edge = storage.get_edge_at_ts(&get_txn, eid).unwrap();
    assert_eq!(
        edge.as_ref().unwrap().properties.get(0),
        Some(int32(10086)),
        "First property should be updated"
    );
    assert_eq!(
        edge.as_ref().unwrap().properties.get(1),
        Some(text("hello")),
        "Second property should remain unchanged"
    );
    assert_eq!(
        edge.as_ref().unwrap().properties.get(2),
        Some(ScalarValue::Boolean(Some(false))),
        "Third property should be updated"
    );
}

#[test]
fn test_set_edge_property_in_txn_nonexistent_edge() {
    let (mut storage, _clock) = make_storage();
    let mut txn = begin_at(1, 1);
    let result = storage.set_edge_property_in_txn(&mut txn, 999u64, vec![0], vec![int32(10086)]);
    assert!(result.is_err(), "Should return error for non-existent edge");
    assert!(
        matches!(result.unwrap_err(), StorageError::EdgeNotFound(_)),
        "Should return EdgeNotFound error"
    );
}

#[test]
fn test_set_edge_property_in_txn_transaction_rollback() {
    let (mut storage, mut clock) = make_storage();
    let mut txn_1 = begin_at(1, 1);
    let _ = storage.create_vertex(&txn_1, vertex(1));
    let eid = storage
        .create_edge_in_txn(&mut txn_1, edge(100, 1, 10, vec![Some(int32(42))]))
        .unwrap();
    txn_1.commit_at(&mut storage, &mut clock, None).expect("Commit should succeed");

    let mut txn_2 = begin_at(2, 2);
    let _ = storage.set_edge_property_in_txn(&mut txn_2, eid, vec![0], vec![int32(10086)]);
    txn_2.abort(&mut storage).expect("Rollback should succeed");

    let get_txn = begin(3, Timestamp::max_commit_ts());
    let edge = storage.get_edge_at_ts(&get_txn, eid).unwrap();
    assert_eq!(
        edge.as_ref().unwrap().properties.get(0),
        Some(int32(42)),
        "Property should remain unchanged after rollback"
    );
}

#[test]
fn test_delete_edge_in_txn_basic() {
    let (mut storage, mut clock) = make_storage();
    let mut txn = begin_at(1, 1);
    let _ = storage.create_vertex(&txn, vertex(1));
    let eid = storage
        .create_edge_in_txn(&mut txn, edge(100, 1, 10, vec![Some(int32(42))]))
        .unwrap();
    txn.commit_at(&mut storage, &mut clock, None).expect("Commit should succeed");

    let mut delete_txn = begin_at(2, 2);
    let result = storage.delete_edge_in_txn(&mut delete_txn, eid);
    assert!(result.is_ok(), "Deleting edge should succeed");
    delete_txn.commit_at(&mut storage, &mut clock, None).expect("Commit should succeed");

    let get_txn = begin(3, Timestamp::max_commit_ts());
    let edge = storage.get_edge_at_ts(&get_txn, eid);
    assert!(
        matches!(edge, Ok(None)),
        "Edge should not be found after deletion, got: {:?}",
        edge
    );
}

#[test]
fn test_iter_adjacency_at_ts_filters() {
    let (mut storage, mut clock) = make_storage();
    let mut txn50 = begin_at(50, 50);
    let _ = storage.create_vertex(&txn50, vertex(1));
    txn50
        .commit_at(&mut storage, &mut clock, None)
        .expect("Vertex commit should succeed");

    create_test_edges(
        &mut storage,
        &mut clock,
        Timestamp::with_ts(Timestamp::TXN_ID_START + 100),
        Timestamp::with_ts(100),
        0,
    );
    let txn150 = begin_at(150, 150);
    create_test_edges(
        &mut storage,
        &mut clock,
        Timestamp::with_ts(Timestamp::TXN_ID_START + 200),
        Timestamp::with_ts(200),
        100,
    );
    let txn250 = begin_at(250, 250);

    assert_eq!(count_adjacency_at(&storage, &txn50, 1), 0, "Should see no edges at ts 50");
    assert_eq!(
        count_adjacency_at(&storage, &txn150, 1),
        3,
        "Should see 3 edges from first transaction at ts 150"
    );
    assert_eq!(
        count_adjacency_at(&storage, &txn250, 1),
        6,
        "Should see 6 edges from both transactions at ts 250"
    );
}

#[test]
fn test_delete_edge_in_txn_transaction_rollback() {
    let (mut storage, mut clock) = make_storage();
    let mut txn = begin_at(1, 1);
    let _ = storage.create_vertex(&txn, vertex(1));
    let eid = storage
        .create_edge_in_txn(&mut txn, edge(100, 1, 10, vec![Some(int32(42))]))
        .unwrap();
    txn.commit_at(&mut storage, &mut clock, None).expect("Commit should succeed");

    let mut delete_txn = begin_at(2, 2);
    let _ = storage.delete_edge_in_txn(&mut delete_txn, eid);
    delete_txn.abort(&mut storage).expect("Rollback should succeed");

    let get_txn = begin(3, Timestamp::max_commit_ts());
    let edge = storage.get_edge_at_ts(&get_txn, eid).unwrap();
    assert_eq!(
        edge.as_ref().unwrap().properties.get(0),
        Some(int32(42)),
        "Edge should still exist after rollback"
    );
}

#[test]
fn test_delete_edge_in_txn_nonexistent_edge() {
    let (mut storage, _clock) = make_storage();
    let mut txn = begin_at(1, 1);
    let result = storage.delete_edge_in_txn(&mut txn, 999u64);
    assert!(result.is_err(), "Should return error for non-existent edge");
    assert!(
        matches!(result.unwrap_err(), StorageError::EdgeNotFound(_)),
        "Should return EdgeNotFound error"
    );
}

#[test]
fn test_delete_edge_in_txn_with_properties() {
    let (mut storage, mut clock) = make_storage();
    let mut txn_1 = begin_at(1, 1);
    let _ = storage.create_vertex(&txn_1, vertex(1));
    let eid = storage
        .create_edge_in_txn(&mut txn_1, edge(100, 1, 10, vec![Some(int32(42)), Some(text("hello"))]))
        .unwrap();
    txn_1.commit_at(&mut storage, &mut clock, None).expect("Commit should succeed");

    let mut delete_txn = begin_at(2, 2);
    let result = storage.delete_edge_in_txn(&mut delete_txn, eid);
    assert!(result.is_ok(), "Deleting edge with properties should succeed");
    delete_txn.commit_at(&mut storage, &mut clock, None).expect("Commit should succeed");

    let get_txn = begin(3, Timestamp::max_commit_ts());
    let edge = storage.get_edge_at_ts(&get_txn, eid);
    assert!(
        matches!(edge, Ok(None)),
        "Edge should not be found after deletion, got: {:?}",
        edge
    );
}

#[test]
fn test_abort_create_edge_keeps_property_alignment() {
    let (mut storage, mut clock) = make_storage();
    let mut setup_txn = begin_at(50, 50);
    let _ = storage.create_vertex(&setup_txn, vertex(1));
    setup_txn
        .commit_at(&mut storage, &mut clock, None)
        .expect("Setup commit should succeed");

    let mut base_txn = begin_at(51, 51);
    let eid10 = storage
        .create_edge_in_txn(&mut base_txn, edge(600, 1, 10, vec![Some(int32(10))]))
        .unwrap();
    let eid20 = storage
        .create_edge_in_txn(&mut base_txn, edge(601, 1, 20, vec![Some(int32(20))]))
        .unwrap();
    let eid30 = storage
        .create_edge_in_txn(&mut base_txn, edge(602, 1, 30, vec![Some(int32(30))]))
        .unwrap();
    base_txn
        .commit_at(&mut storage, &mut clock, None)
        .expect("Base commit should succeed");

    let mut abort_txn = begin_at(52, 52);
    let aborted_eid = storage
        .create_edge_in_txn(&mut abort_txn, edge(603, 1, 15, vec![Some(int32(999))]))
        .unwrap();
    abort_txn.abort(&mut storage).expect("Abort should succeed");

    assert!(
        storage.edge_id_map.get(&aborted_eid).is_none(),
        "Aborted edge should not remain in edge_id_map"
    );

    let read_txn = begin(53, Timestamp::max_commit_ts());
    let edge10 = storage.get_edge_at_ts(&read_txn, eid10).unwrap().unwrap();
    let edge20 = storage.get_edge_at_ts(&read_txn, eid20).unwrap().unwrap();
    let edge30 = storage.get_edge_at_ts(&read_txn, eid30).unwrap().unwrap();
    assert_eq!(edge10.properties.get(0), Some(int32(10)));
    assert_eq!(edge20.properties.get(0), Some(int32(20)));
    assert_eq!(edge30.properties.get(0), Some(int32(30)));

    let locations = [(eid10, int32(10)), (eid20, int32(20)), (eid30, int32(30))]
        .into_iter()
        .map(|(eid, expected)| {
            let (block_idx, offset) = *storage.edge_id_map.get(&eid).unwrap().value();
            (block_idx, offset, expected)
        })
        .collect::<Vec<_>>();

    let prop_col = &storage.property_columns[0];
    for (block_idx, offset, expected) in locations {
        let block = prop_col.blocks.get(block_idx).unwrap();
        let last = block.values[offset].last().unwrap();
        assert_eq!(last.value, Some(expected));
    }
}

#[test]
fn commits_are_refused_twice() {
    let (mut storage, mut clock) = make_storage();
    let mut txn = begin_at(1, 1);
    assert_eq!(
        txn.commit_at(&mut storage, &mut clock, Some(Timestamp::with_ts(7))),
        Ok(Timestamp::with_ts(7))
    );
    assert!(matches!(
        txn.commit_at(&mut storage, &mut clock, None),
        Err(StorageError::Transaction(_))
    ));
}

#[test]
fn missing_vertices_are_reported() {
    let (mut storage, _clock) = make_storage();
    let txn = begin_at(1, 1);
    assert!(matches!(storage.get_vertex(&txn, 4), Err(StorageError::VertexNotFound(_))));
    assert!(storage.iter_adjacency(&txn, 4).is_err());
    assert_eq!(storage.create_vertex(&txn, vertex(4)), Ok(4));
    assert_eq!(storage.get_vertex(&txn, 4).unwrap().vid, 4);
}

#[test]
fn plain_writes_are_seen_at_once() {
    let (mut storage, _clock) = make_storage();
    let txn = begin_at(1, 1);
    storage.property_columns.push(PropertyColumn { blocks: vec![] });
    storage.property_columns.push(PropertyColumn { blocks: vec![] });
    storage.create_vertex(&txn, vertex(1)).unwrap();
    let eid = storage.create_edge(&txn, edge(7, 1, 5, vec![Some(int32(3)), None])).unwrap();
    let seen = storage.get_edge(&txn, eid).unwrap();
    assert_eq!(seen.dst_id, 5);
    assert_eq!(seen.label_id, LabelId::new(7));
    assert_eq!(seen.properties.get(0), Some(int32(3)));
    assert_eq!(seen.properties.get(1), None);
    storage.set_edge_property(&txn, eid, vec![0], vec![int32(4)]).unwrap();
    assert_eq!(storage.get_edge(&txn, eid).unwrap().properties.get(0), Some(int32(4)));
    storage.delete_edge(&txn, eid).unwrap();
    assert!(matches!(storage.get_edge(&txn, eid), Err(StorageError::EdgeNotFound(_))));
}

#[test]
fn blocks_are_linked_when_they_are_full() {
    let (mut storage, mut clock) = make_storage();
    let mut txn = begin_at(1, 1);
    storage.create_vertex(&txn, vertex(1)).unwrap();
    for dst in 0..300u64 {
        storage.create_edge_in_txn(&mut txn, edge(9, 1, 1000 - dst, vec![])).unwrap();
    }
    txn.commit_at(&mut storage, &mut clock, None).unwrap();
    assert_eq!(storage.edges.len(), 2);
    assert_eq!(storage.edges[1].pre_block_index, Some(0));
    let reader = begin(2, Timestamp::max_commit_ts());
    assert_eq!(count_adjacency_at(&storage, &reader, 1), 300);
    assert_eq!(count_edges_at(&storage, &reader), 300);
}

#[test]
fn compression_keeps_destinations_and_properties() {
    let (mut storage, mut clock) = make_storage();
    let mut txn = begin_at(1, 1);
    storage.create_vertex(&txn, vertex(1)).unwrap();
    for (dst, value) in [(30u64, 3), (10, 1), (20, 2)] {
        storage
            .create_edge_in_txn(&mut txn, edge(9, 1, dst, vec![Some(int32(value))]))
            .unwrap();
    }
    txn.commit_at(&mut storage, &mut clock, None).unwrap();
    storage.compress_edge(&mut clock);
    storage.compress_property(&mut clock);
    assert!(storage.is_edge_compressed);
    assert!(storage.is_property_compressed);
    assert_eq!(storage.compressed_edges[0].dst_ids(), vec![10, 20, 30]);
    assert_eq!(storage.compressed_edges[0].delta_bit_width, 4);
    let column = &storage.compressed_properties[0].blocks[0];
    assert_eq!(column.get(0), Some(int32(1)));
    assert_eq!(column.get(1), Some(int32(2)));
    assert_eq!(column.get(2), Some(int32(3)));
    assert_eq!(column.get(3), None);
}

#[test]
fn timestamps_are_handed_out_in_order() {
    let mut clock = TimestampGenerator::new();
    assert_eq!(clock.next(), Ok(Timestamp::with_ts(1)));
    assert_eq!(clock.next(), Ok(Timestamp::with_ts(2)));
    clock.update_if_greater(Timestamp::with_ts(40)).unwrap();
    assert_eq!(clock.next(), Ok(Timestamp::with_ts(41)));
    assert!(clock.update_if_greater(Timestamp::with_ts(Timestamp::TXN_ID_START)).is_err());
}

fn edge_with_property(
    storage: &mut OlapStorage,
    clock: &mut TimestampGenerator,
    dst: u64,
    value: i32,
) -> u64 {
    let mut txn = begin_at(10, 10);
    let _ = storage.create_vertex(&txn, vertex(1));
    let eid = storage
        .create_edge_in_txn(&mut txn, edge(100, 1, dst, vec![Some(int32(value))]))
        .unwrap();
    txn.commit_at(storage, clock, None).expect("Setup commit should succeed");
    eid
}

fn latest(storage: &OlapStorage, eid: u64) -> Option<OlapEdge> {
    storage.get_edge_at_ts(&begin(99, Timestamp::max_commit_ts()), eid).unwrap()
}

#[test]
fn deletions_win_over_property_writes_in_either_order() {
    for delete_first in [true, false] {
        let (mut storage, mut clock) = make_storage();
        let eid = edge_with_property(&mut storage, &mut clock, 10, 1);
        let mut set = begin_at(11, 11);
        let mut delete = begin_at(12, 12);
        if delete_first {
            storage.delete_edge_in_txn(&mut delete, eid).unwrap();
        }
        storage.set_edge_property_in_txn(&mut set, eid, vec![0], vec![int32(111)]).unwrap();
        if !delete_first {
            storage.delete_edge_in_txn(&mut delete, eid).unwrap();
        }
        set.commit_at(&mut storage, &mut clock, None).unwrap();
        delete.commit_at(&mut storage, &mut clock, None).unwrap();
        assert!(latest(&storage, eid).is_none());
    }
}

#[test]
fn uncommitted_edges_appear_with_the_commit() {
    let (mut storage, mut clock) = make_storage();
    let mut writer = begin_at(21, 21);
    storage.create_vertex(&writer, vertex(1)).unwrap();
    let eid = storage.create_edge_in_txn(&mut writer, edge(200, 1, 100, vec![])).unwrap();
    let reader = begin_at(22, 22);
    assert!(storage.get_edge_at_ts(&reader, eid).unwrap().is_none());
    assert_eq!(count_edges_at(&storage, &reader), 0);
    writer.commit_at(&mut storage, &mut clock, None).unwrap();
    assert!(latest(&storage, eid).is_some());
}

#[test]
fn insertions_leave_properties_with_their_edges() {
    let (mut storage, mut clock) = make_storage();
    let eid = edge_with_property(&mut storage, &mut clock, 20, 1);
    let mut set = begin_at(31, 31);
    let mut insert = begin_at(32, 32);
    storage.set_edge_property_in_txn(&mut set, eid, vec![0], vec![int32(999)]).unwrap();
    let other = storage
        .create_edge_in_txn(&mut insert, edge(301, 1, 10, vec![Some(int32(2))]))
        .unwrap();
    set.commit_at(&mut storage, &mut clock, None).unwrap();
    insert.commit_at(&mut storage, &mut clock, None).unwrap();
    assert_eq!(latest(&storage, eid).unwrap().properties.get(0), Some(int32(999)));
    assert_eq!(latest(&storage, other).unwrap().properties.get(0), Some(int32(2)));
}

#[test]
fn committed_values_outlast_aborted_ones() {
    for commit_first in [true, false] {
        let (mut storage, mut clock) = make_storage();
        let eid = edge_with_property(&mut storage, &mut clock, 10, 10);
        let mut commit = begin_at(41, 41);
        let mut abort = begin_at(42, 42);
        if !commit_first {
            storage.set_edge_property_in_txn(&mut abort, eid, vec![0], vec![int32(2222)]).unwrap();
            abort.abort(&mut storage).unwrap();
        }
        storage.set_edge_property_in_txn(&mut commit, eid, vec![0], vec![int32(1111)]).unwrap();
        commit.commit_at(&mut storage, &mut clock, None).unwrap();
        if commit_first {
            storage.set_edge_property_in_txn(&mut abort, eid, vec![0], vec![int32(2222)]).unwrap();
            abort.abort(&mut storage).unwrap();
        }
        assert_eq!(latest(&storage, eid).unwrap().properties.get(0), Some(int32(1111)));
        assert!(abort.abort(&mut storage).is_ok());
        assert!(commit.abort(&mut storage).is_err());
    }
}

#[test]
fn own_properties_are_read_back() {
    let (mut storage, mut clock) = make_storage();
    let eid = edge_with_property(&mut storage, &mut clock, 10, 1);
    let mut txn = begin(50, Timestamp::max_commit_ts());
    storage
        .set_edge_property_in_txn(&mut txn, eid, vec![0, 0], vec![int32(5), int32(6)])
        .unwrap();
    let seen = storage.get_edge(&txn, eid).unwrap();
    assert_eq!(seen.properties.get(0), Some(int32(6)));
    assert!(matches!(
        storage.set_edge_property_in_txn(&mut txn, eid, vec![0], vec![]),
        Err(StorageError::NotSupported(text)) if text == "indices/props length mismatch: 1 vs 0"
    ));
    assert!(matches!(
        storage.set_edge_property_in_txn(&mut txn, eid, vec![7], vec![int32(1)]),
        Err(StorageError::NotSupported(text)) if text == "property index out of range"
    ));
}

#[test]
fn vertices_are_walked_changed_and_deleted() {
    let (mut storage, _clock) = make_storage();
    let txn = begin_at(1, 1);
    for vid in [4, 9] {
        let properties = PropertyRecord::new(vec![int32(0), text("x")]);
        storage.create_vertex(&txn, OlapVertex { vid, properties, block_offset: 0 }).unwrap();
    }
    assert!(storage.create_vertex(&txn, vertex(4)).is_err());
    storage.set_vertex_property(&txn, 9, vec![0], vec![int32(8)]).unwrap();
    assert_eq!(storage.get_vertex(&txn, 9).unwrap().properties.get(0), Some(&int32(8)));
    assert!(matches!(
        storage.set_vertex_property(&txn, 5, vec![0], vec![int32(8)]),
        Err(StorageError::VertexNotFound(_))
    ));
    let mut iter = storage.iter_vertices(&txn).unwrap();
    let mut vids = Vec::new();
    while let Some(v) = iter.next() {
        vids.push(v.unwrap().vid);
    }
    assert_eq!(vids, vec![4, 9]);

    let eid = storage.create_edge(&txn, edge(7, 9, 4, vec![])).unwrap();
    assert!(storage.get_edge(&txn, eid).is_ok());
    storage.delete_vertex(&txn, 9).unwrap();
    assert!(storage.get_edge(&txn, eid).is_err());
    assert!(matches!(storage.delete_vertex(&txn, 9), Err(StorageError::VertexNotFound(_))));
}

#[test]
fn deleting_a_vertex_leaves_the_others_where_they_are() {
    let (mut storage, _clock) = make_storage();
    let txn = begin_at(1, 1);
    let mut eids = Vec::new();
    for vid in [1, 2, 3] {
        storage.create_vertex(&txn, vertex(vid)).unwrap();
        eids.push(storage.create_edge(&txn, edge(7, vid, 50 + vid, vec![])).unwrap());
    }
    storage.delete_vertex(&txn, 1).unwrap();
    assert!(matches!(storage.get_vertex(&txn, 1), Err(StorageError::VertexNotFound(_))));
    assert_eq!(storage.get_vertex(&txn, 2).unwrap().vid, 2);
    assert_eq!(storage.get_vertex(&txn, 3).unwrap().vid, 3);
    assert!(storage.get_edge(&txn, eids[0]).is_err());
    assert_eq!(storage.get_edge(&txn, eids[1]).unwrap().dst_id, 52);
    let mut iter = storage.iter_adjacency(&txn, 3).unwrap();
    assert_eq!(iter.next().unwrap().unwrap().dst_id, 53);
    assert!(iter.next().is_none());

    let late = storage.create_edge(&txn, edge(8, 3, 60, vec![])).unwrap();
    assert_eq!(storage.get_edge(&txn, late).unwrap().src_id, 3);
    storage.create_vertex(&txn, vertex(1)).unwrap();
    assert_eq!(storage.get_vertex(&txn, 1).unwrap().vid, 1);
    assert_eq!(storage.get_vertex(&txn, 3).unwrap().vid, 3);
}

#[test]
fn edges_behind_a_deleted_edge_stay_visible() {
    let (mut storage, mut clock) = make_storage();
    let txn_id = Timestamp::with_ts(Timestamp::TXN_ID_START + 100);
    create_test_edges(&mut storage, &mut clock, txn_id, Timestamp::with_ts(100), 0);
    let mut walk = storage.iter_edges_at_ts(&begin_at(150, 150)).unwrap();
    let first = walk.next().unwrap().unwrap();
    assert_eq!(first.dst_id, 10);

    let eid = storage.edges[0].edges[0].eid;
    let mut delete = begin_at(200, 200);
    storage.delete_edge_in_txn(&mut delete, eid).unwrap();
    delete.commit_at(&mut storage, &mut clock, Some(Timestamp::with_ts(200))).unwrap();

    let reader = begin_at(250, 250);
    let mut iter = storage.iter_adjacency_at_ts(&reader, 1).unwrap();
    let mut found = Vec::new();
    while let Some(e) = iter.next() {
        found.push(e.unwrap().dst_id);
    }
    assert_eq!(found, vec![20, 30]);
    assert_eq!(count_edges_at(&storage, &reader), 2);
    assert!(storage.get_edge_at_ts(&reader, eid).unwrap().is_none());

    let early = begin_at(151, 150);
    assert_eq!(count_adjacency_at(&storage, &early, 1), 3);
    assert_eq!(storage.get_edge_at_ts(&early, eid).unwrap().unwrap().dst_id, 10);
}

#[test]
fn committed_values_outlast_overlapping_aborted_ones() {
    for committed_first in [true, false] {
        let (mut storage, mut clock) = make_storage();
        let mut setup = begin_at(10, 10);
        storage.create_vertex(&setup, vertex(1)).unwrap();
        let eid = storage
            .create_edge_in_txn(&mut setup, edge(400, 1, 10, vec![Some(int32(10))]))
            .unwrap();
        setup.commit_at(&mut storage, &mut clock, None).unwrap();

        let mut a = begin_at(41, 41);
        let mut b = begin_at(42, 42);
        if committed_first {
            storage.set_edge_property_in_txn(&mut a, eid, vec![0], vec![int32(1111)]).unwrap();
            storage.set_edge_property_in_txn(&mut b, eid, vec![0], vec![int32(2222)]).unwrap();
        } else {
            storage.set_edge_property_in_txn(&mut b, eid, vec![0], vec![int32(2222)]).unwrap();
            storage.set_edge_property_in_txn(&mut a, eid, vec![0], vec![int32(1111)]).unwrap();
        }
        a.commit_at(&mut storage, &mut clock, None).unwrap();
        b.abort(&mut storage).unwrap();

        let reader = begin(43, Timestamp::max_commit_ts());
        let seen = storage.get_edge_at_ts(&reader, eid).unwrap().unwrap();
        assert_eq!(seen.properties.get(0), Some(int32(1111)));
    }
}

#[test]
fn snapshots_keep_the_values_they_began_with() {
    let (mut storage, mut clock) = make_storage();
    let mut setup = begin_at(1, 1);
    storage.create_vertex(&setup, vertex(1)).unwrap();
    let eid = storage
        .create_edge_in_txn(&mut setup, edge(100, 1, 10, vec![Some(int32(42))]))
        .unwrap();
    setup.commit_at(&mut storage, &mut clock, Some(Timestamp::with_ts(10))).unwrap();
    let reader = begin_at(2, 20);
    let mut writer = begin_at(3, 20);
    storage.set_edge_property_in_txn(&mut writer, eid, vec![0], vec![int32(7)]).unwrap();
    let value = |storage: &OlapStorage, txn: &MemTransaction| {
        storage.get_edge_at_ts(txn, eid).unwrap().unwrap().properties.get(0)
    };
    assert_eq!(value(&storage, &reader), Some(int32(42)));
    assert_eq!(value(&storage, &writer), Some(int32(7)));
    writer.commit_at(&mut storage, &mut clock, Some(Timestamp::with_ts(30))).unwrap();
    assert_eq!(value(&storage, &reader), Some(int32(42)));
    assert_eq!(count_edges_at(&storage, &reader), 1);
    assert_eq!(count_adjacency_at(&storage, &reader, 1), 1);
    assert_eq!(value(&storage, &begin_at(4, 30)), Some(int32(7)));
}

#[test]
fn deletions_hide_an_edge_from_their_commit_on() {
    let (mut storage, mut clock) = make_storage();
    let eid = edge_with_property(&mut storage, &mut clock, 10, 1);
    let mut aborted = begin(11, Timestamp::max_commit_ts());
    storage.delete_edge_in_txn(&mut aborted, eid).unwrap();
    assert!(storage.get_edge_at_ts(&aborted, eid).unwrap().is_none());
    assert!(latest(&storage, eid).is_some());
    aborted.abort(&mut storage).unwrap();
    assert_eq!(latest(&storage, eid).unwrap().properties.get(0), Some(int32(1)));
    aborted.abort(&mut storage).unwrap();
    assert!(latest(&storage, eid).is_some());

    let mut committed = begin(12, Timestamp::max_commit_ts());
    storage.delete_edge_in_txn(&mut committed, eid).unwrap();
    let mut aborted = begin(13, Timestamp::max_commit_ts());
    storage.delete_edge_in_txn(&mut aborted, eid).unwrap();
    committed.commit_at(&mut storage, &mut clock, None).unwrap();
    aborted.abort(&mut storage).unwrap();
    assert!(latest(&storage, eid).is_none());
}

#[test]
fn small_labels_and_destinations_are_ordinary() {
    let (mut storage, mut clock) = make_storage();
    let mut txn = begin_at(1, 1);
    storage.create_vertex(&txn, vertex(1)).unwrap();
    let eid = storage
        .create_edge_in_txn(&mut txn, edge(1, 1, 1, vec![Some(int32(3))]))
        .unwrap();
    assert_eq!(count_edges_at(&storage, &txn), 1);
    txn.commit_at(&mut storage, &mut clock, Some(Timestamp::with_ts(5))).unwrap();
    let reader = begin_at(2, 6);
    let seen = storage.get_edge_at_ts(&reader, eid).unwrap().unwrap();
    assert_eq!((seen.label_id, seen.src_id, seen.dst_id), (LabelId::new(1), 1, 1));
    assert_eq!(seen.properties.get(0), Some(int32(3)));
    assert_eq!(count_edges_at(&storage, &reader), 1);
    assert_eq!(count_adjacency_at(&storage, &reader, 1), 1);
    assert_eq!(storage.get_edge(&reader, eid).unwrap().dst_id, 1);
    let mut iter = storage.iter_adjacency(&reader, 1).unwrap();
    assert_eq!(iter.next().unwrap().unwrap().dst_id, 1);
}

#[test]
fn plain_edges_are_there_for_every_reader() {
    let (mut storage, _clock) = make_storage();
    storage.property_columns.push(PropertyColumn { blocks: vec![] });
    let txn = begin_at(1, 1);
    storage.create_vertex(&txn, vertex(1)).unwrap();
    let eid = storage.create_edge(&txn, edge(100, 1, 10, vec![Some(int32(8))])).unwrap();
    assert_eq!(storage.edges[0].min_ts, Timestamp::max_commit_ts());
    assert_eq!(storage.edges[0].max_ts, Timestamp::with_ts(0));
    let reader = begin_at(2, 5);
    let seen = storage.get_edge_at_ts(&reader, eid).unwrap().unwrap();
    assert_eq!(seen.properties.get(0), Some(int32(8)));
    assert_eq!(count_edges_at(&storage, &reader), 1);
    assert_eq!(count_adjacency_at(&storage, &reader, 1), 1);
}

#[test]
fn aborts_give_back_what_was_there() {
    let (mut storage, mut clock) = make_storage();
    let eid = edge_with_property(&mut storage, &mut clock, 10, 1);
    let mut txn = begin(11, Timestamp::max_commit_ts());
    storage.set_edge_property_in_txn(&mut txn, eid, vec![0], vec![int32(2)]).unwrap();
    let own = storage.create_edge_in_txn(&mut txn, edge(101, 1, 5, vec![])).unwrap();
    storage.delete_edge_in_txn(&mut txn, eid).unwrap();
    assert!(storage.get_edge_at_ts(&txn, eid).unwrap().is_none());
    txn.abort(&mut storage).unwrap();
    for _ in 0..2 {
        assert_eq!(latest(&storage, eid).unwrap().properties.get(0), Some(int32(1)));
        assert!(latest(&storage, own).is_none());
        assert_eq!(count_edges_at(&storage, &begin(12, Timestamp::max_commit_ts())), 1);
        txn.abort(&mut storage).unwrap();
    }
}

#[test]
fn compression_takes_every_edge_of_a_block() {
    let (mut storage, mut clock) = make_storage();
    storage.property_columns.push(PropertyColumn { blocks: vec![] });
    let txn = begin_at(1, 1);
    storage.create_vertex(&txn, vertex(1)).unwrap();
    for dst in [9, 1, 4] {
        storage.create_edge(&txn, edge(1, 1, dst, vec![Some(int32(dst as i32))])).unwrap();
    }
    storage.compress_edge(&mut clock);
    storage.compress_property(&mut clock);
    let block = &storage.compressed_edges[0];
    assert_eq!(block.edge_counter, 3);
    assert_eq!(block.dst_ids(), vec![1, 4, 9]);
    assert_eq!(block.delta_bit_width, 3);
    assert_eq!(block.label_ids[0], LabelId::new(1));
    let column = &storage.compressed_properties[0].blocks[0];
    assert_eq!(column.values, vec![int32(1), int32(4), int32(9)]);
    assert_eq!(column.offsets.iter().map(|n| *n as usize).sum::<usize>(), 3);
    let before = storage.compressed_edges.len();
    storage.compress_edge(&mut clock);
    assert_eq!(storage.compressed_edges.len(), before);
}

#[test]
fn emptied_blocks_take_edges_again() {
    let (mut storage, mut clock) = make_storage();
    let txn = begin_at(1, 1);
    storage.create_vertex(&txn, vertex(1)).unwrap();
    let first = storage.create_edge(&txn, edge(7, 1, 10, vec![])).unwrap();
    storage.delete_edge(&txn, first).unwrap();
    assert!(storage.edges[0].is_tombstone);
    assert_eq!(storage.edges[0].edge_counter, 0);
    assert!(storage.get_edge(&txn, first).is_err());
    assert!(storage.iter_edges(&txn).unwrap().next().is_none());

    let second = storage.create_edge(&txn, edge(8, 1, 20, vec![])).unwrap();
    assert_eq!(storage.edges.len(), 1);
    assert!(!storage.edges[0].is_tombstone);
    assert_eq!(storage.get_edge(&txn, second).unwrap().dst_id, 20);
    assert_eq!(count_adjacency_at(&storage, &begin_at(2, 5), 1), 1);

    storage.delete_edge(&txn, second).unwrap();
    let mut writer = begin_at(3, 6);
    let third = storage.create_edge_in_txn(&mut writer, edge(9, 1, 30, vec![])).unwrap();
    assert_eq!(storage.get_edge_at_ts(&writer, third).unwrap().unwrap().dst_id, 30);
    writer.abort(&mut storage).unwrap();
    assert_eq!(count_edges_at(&storage, &begin_at(4, 9)), 0);
    let mut writer = begin_at(5, 9);
    let fourth = storage.create_edge_in_txn(&mut writer, edge(9, 1, 40, vec![])).unwrap();
    writer.commit_at(&mut storage, &mut clock, Some(Timestamp::with_ts(10))).unwrap();
    assert_eq!(latest(&storage, fourth).unwrap().dst_id, 40);
}

#[test]
fn compressed_blocks_show_deletions() {
    let (mut storage, mut clock) = make_storage();
    let txn_id = Timestamp::with_ts(Timestamp::TXN_ID_START + 100);
    create_test_edges(&mut storage, &mut clock, txn_id, Timestamp::with_ts(100), 0);
    let eid = storage.edges[0].edges[0].eid;
    let mut delete = begin_at(200, 200);
    storage.delete_edge_in_txn(&mut delete, eid).unwrap();
    delete.commit_at(&mut storage, &mut clock, Some(Timestamp::with_ts(200))).unwrap();
    storage.compress_edge(&mut clock);
    let block = &storage.compressed_edges[0];
    assert_eq!(block.edge_counter, 3);
    assert_eq!(block.dst_ids(), vec![1, 20, 30]);
    assert_eq!(block.delta_bit_width, 5);
    assert_eq!(block.label_ids[0], LabelId::new(1));
    assert_eq!(block.label_ids[1], LabelId::new(101));
    assert_eq!(block.label_ids[2], LabelId::new(102));
}

#[test]
fn creations_are_recorded_without_properties() {
    let (mut storage, _clock) = make_storage();
    let mut txn = begin_at(1, 1);
    storage.create_vertex(&txn, vertex(3)).unwrap();
    let eid = storage
        .create_edge_in_txn(&mut txn, edge(7, 3, 4, vec![Some(int32(5))]))
        .unwrap();
    assert_eq!(txn.undo_buffer.len(), 1);
    let (op, ts) = &txn.undo_buffer[0];
    assert_eq!(*ts, txn.txn_id);
    let DeltaOp::CreateEdge(created) = op else { panic!("{:?}", op) };
    assert_eq!((created.eid, created.src_id, created.dst_id), (eid, 3, 4));
    assert_eq!(created.label_id, LabelId::new(7).unwrap());
    assert!(created.properties.properties.is_empty());
}

#[test]
fn full_blocks_are_chained() {
    let (mut storage, _clock) = make_storage();
    let txn = begin_at(1, 1);
    for vid in [1, 2] {
        storage.create_vertex(&txn, vertex(vid)).unwrap();
    }
    for i in 0..300u64 {
        storage.create_edge(&txn, edge(7, 1, 1000 - i, vec![])).unwrap();
        if i % 100 == 0 {
            storage.create_edge(&txn, edge(7, 2, i, vec![])).unwrap();
        }
    }
    let reader = begin_at(2, 5);
    assert_eq!(count_adjacency_at(&storage, &reader, 1), 300);
    assert_eq!(count_adjacency_at(&storage, &reader, 2), 3);
    assert_eq!(count_edges_at(&storage, &reader), 303);
    for block in &storage.edges {
        let used = &block.edges[..block.edge_counter];
        assert!(used.windows(2).all(|pair| pair[0].dst_id <= pair[1].dst_id));
        if let Some(pre) = block.pre_block_index {
            assert_eq!(storage.edges[pre].src_id, block.src_id);
        }
    }
    storage.delete_vertex(&txn, 1).unwrap();
    assert_eq!(count_edges_at(&storage, &reader), 3);
    assert_eq!(count_adjacency_at(&storage, &reader, 2), 3);
}
