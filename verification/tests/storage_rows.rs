use bytes::Bytes;
use streamdb::catalog::{ColumnDesc, DataType, Field, OrderType, Schema};
use streamdb::storage::cell_based_reader::CellBasedRowDeserializer;
use streamdb::storage::cell_based_table::{
    deserialize_column_id, serialize_column_id, serialize_pk, CellBasedTable, SENTINEL_CELL_ID,
};
use streamdb::storage::mem_table::{MemTable, RowOp};
use streamdb::storage::monitor::{all_metrics, bucket_bounds, Instrument, StateStoreMetric};
use streamdb::storage::mview::{serialize_cell_idx, IterStep, MViewTable, SCAN_LIMIT};
use streamdb::storage::object_store::{BlockLocation, InMemObjectStore, ObjectError};
use streamdb::storage::row::{Row, RowOrder};

#[test]
fn test_upload() {
    let block = Bytes::from("123456");

    let mut s3 = InMemObjectStore::new();
    s3.upload("/abc", block, 0, 0).unwrap();

    // No such object.
    s3.read("/ab", Some(BlockLocation { offset: 0, size: 3 })).unwrap_err();

    let bytes = s3.read("/abc", Some(BlockLocation { offset: 4, size: 2 })).unwrap();
    assert_eq!(String::from_utf8(bytes.to_vec()).unwrap(), "56".to_string());

    // Overflow.
    s3.read("/abc", Some(BlockLocation { offset: 4, size: 4 })).unwrap_err();

    s3.delete("/abc");

    // No such object.
    s3.read("/abc", Some(BlockLocation { offset: 0, size: 3 })).unwrap_err();
}

#[test]
fn test_metadata() {
    let block = Bytes::from("123456");

    let mut obj_store = InMemObjectStore::new();
    obj_store.upload("/abc", block, 17, 3).unwrap();

    let metadata = obj_store.metadata("/abc").unwrap();
    assert_eq!(metadata.total_size, 6);
    assert_eq!((metadata.last_modified_secs, metadata.last_modified_nanos), (17, 3));
}

#[test]
fn test_list() {
    let payload = Bytes::from("123456");
    let mut store = InMemObjectStore::new();
    assert!(store.list("").is_empty());

    let paths = vec!["001/002/test.obj", "001/003/test.obj"];
    for (i, path) in paths.iter().enumerate() {
        assert_eq!(store.list("").len(), i);
        store.upload(path, payload.clone(), 0, 0).unwrap();
        assert_eq!(store.list("").len(), i + 1);
    }

    let list_path: Vec<String> = store.list("").iter().map(|p| p.key.clone()).collect();
    assert_eq!(list_path, paths);

    for i in 0..=5 {
        assert_eq!(store.list(&paths[0][0..=i]).len(), 2);
    }
    for i in 6..=paths[0].len() - 1 {
        assert_eq!(store.list(&paths[0][0..=i]).len(), 1);
    }
    assert!(store.list("003").is_empty());

    for (i, path) in paths.iter().enumerate() {
        assert_eq!(store.list("").len(), paths.len() - i);
        store.delete(path);
        assert_eq!(store.list("").len(), paths.len() - i - 1);
    }
}

#[test]
fn object_errors() {
    let mut store = InMemObjectStore::new();
    assert!(matches!(
        store.upload("x", Bytes::new(), 0, 0),
        Err(ObjectError::UploadEmptyObject)
    ));
    let missing = store.metadata("x").unwrap_err();
    assert!(matches!(&missing, ObjectError::NoObject(p) if p == "x"));
    assert_eq!(missing.message(), "no object at path 'x'");
    store.upload("x", Bytes::from("abcd"), 0, 0).unwrap();
    let loc = |offset, size| BlockLocation { offset, size };
    assert!(matches!(store.read("x", Some(loc(3, 2))), Err(ObjectError::BadBlock)));
    let parts = store.readv("x", &vec![loc(0, 1), loc(2, 2)]).unwrap();
    assert_eq!(parts, vec![Bytes::from("a"), Bytes::from("cd")]);
    assert!(store.readv("x", &vec![loc(0, 1), loc(4, 1)]).is_err());
    assert_eq!(store.read("x", None).unwrap(), Bytes::from("abcd"));
}

fn row(cells: &[Option<u8>]) -> Row {
    Row(cells.iter().map(|c| c.map(|b| vec![b])).collect())
}

fn shown(op: &Option<RowOp>) -> String {
    format!("{:?}", op)
}

#[test]
fn changes_of_a_row_are_merged() {
    let mut t = MemTable::new();
    t.insert(row(&[Some(1)]), row(&[Some(10)]));
    t.delete(row(&[Some(1)]), row(&[Some(10)]));
    assert!(t.get_row(&row(&[Some(1)])).is_none());
    t.insert(row(&[Some(1)]), row(&[Some(10)]));
    t.delete(row(&[Some(1)]), row(&[Some(99)]));
    assert!(t.get_row(&row(&[Some(1)])).is_none());
    t.delete(row(&[Some(2)]), row(&[Some(20)]));
    t.insert(row(&[Some(2)]), row(&[Some(21)]));
    assert_eq!(
        shown(&t.get_row(&row(&[Some(2)]))),
        shown(&Some(RowOp::Update((row(&[Some(20)]), row(&[Some(21)])))))
    );
    t.delete(row(&[Some(2)]), row(&[Some(21)]));
    assert_eq!(
        shown(&t.get_row(&row(&[Some(2)]))),
        shown(&Some(RowOp::Delete(row(&[Some(20)]))))
    );
    t.insert(row(&[None]), row(&[Some(0)]));
    let keys: Vec<String> = t.into_parts().iter().map(|e| format!("{:?}", e.0)).collect();
    let mut sorted = vec![row(&[None]), row(&[Some(2)])];
    sorted.sort_by(|a, b| match a.order(b) {
        RowOrder::Less => std::cmp::Ordering::Less,
        RowOrder::Equal => std::cmp::Ordering::Equal,
        RowOrder::Greater => std::cmp::Ordering::Greater,
    });
    assert_eq!(keys, sorted.iter().map(|r| format!("{:?}", r)).collect::<Vec<_>>());
}

fn test_table() -> CellBasedTable {
    CellBasedTable::new(
        b"t1".to_vec(),
        vec![
            ColumnDesc::unnamed(0, DataType::Int32),
            ColumnDesc::unnamed(1, DataType::Varchar),
        ],
        Some(vec![OrderType::Ascending]),
        Some(vec![0]),
    )
}

#[test]
fn column_ids_round_trip() {
    for id in [SENTINEL_CELL_ID, 0, 1, i32::MAX, i32::MIN] {
        assert_eq!(deserialize_column_id(&serialize_column_id(id), 0), id);
    }
    assert!(serialize_column_id(-1) < serialize_column_id(0));
}

#[test]
fn primary_keys_are_encoded_in_order() {
    let asc = vec![OrderType::Ascending];
    assert_eq!(serialize_pk(&row(&[Some(5)]), &asc), vec![1, 5]);
    assert_eq!(serialize_pk(&row(&[None]), &asc), vec![0]);
    assert_eq!(serialize_pk(&row(&[Some(5)]), &vec![OrderType::Descending]), vec![254, 250]);
}

#[test]
fn written_rows_are_read_back() {
    let table = test_table();
    let pk = row(&[Some(1)]);
    let value = row(&[Some(7), None]);
    let entry = (pk.copy(), RowOp::Insert(value.copy()));
    let writes = table.batch_write_rows(&vec![entry]);
    let keys = table.row_keys(&pk);
    assert_eq!(keys.len(), 3);
    let cells = |writes: &Vec<streamdb::storage::cell_based_table::CellWrite>| {
        keys.iter()
            .map(|k| writes.iter().find(|w| &w.key == k).and_then(|w| w.value.clone()))
            .collect::<Vec<Option<Vec<u8>>>>()
    };
    let read = table.get_row(&cells(&writes)).unwrap();
    assert_eq!(format!("{:?}", read), format!("{:?}", value));

    let mut stored: Vec<(Vec<u8>, Vec<u8>)> = writes
        .iter()
        .filter_map(|w| w.value.clone().map(|v| (w.key.clone(), v)))
        .collect();
    stored.sort();
    let (start, end) = table.row_scan_range(&pk);
    assert!(stored.iter().all(|(k, _)| start <= *k && *k < end));
    let scanned = table.get_row_by_scan(&stored).unwrap();
    assert_eq!(format!("{:?}", scanned), format!("{:?}", value));
    let chunk = table.collect_data_chunk(&vec![value.copy()], None).unwrap();
    assert_eq!((chunk.cardinality, chunk.columns.len()), (1, 2));
    assert!(table.collect_data_chunk(&vec![], None).is_none());

    let deletion = (pk.copy(), RowOp::Delete(value.copy()));
    let buffer = vec![deletion];
    let hashed = table.distribution_keys(&buffer);
    assert_eq!(format!("{:?}", hashed), format!("{:?}", vec![row(&[Some(1)])]));
    let writes = table.batch_write_rows_with_value_meta(&buffer, &vec![9]);
    assert!(writes.iter().all(|w| w.meta.vnode == 9 && w.value.is_none()));
    assert!(table.get_row(&cells(&writes)).is_none());
}

#[test]
fn cells_are_put_together_row_by_row() {
    let table = test_table();
    let mut reader = CellBasedRowDeserializer::new(vec![0, 1]);
    let key = |pk: u8, id| table.make_cell_key(&vec![pk], id);
    assert!(reader.deserialize(&key(1, SENTINEL_CELL_ID), &vec![]).is_none());
    assert!(reader.deserialize(&key(1, 1), &vec![4]).is_none());
    let (pk, first) = reader.deserialize(&key(2, SENTINEL_CELL_ID), &vec![]).unwrap();
    assert_eq!(pk, b"t1\x01".to_vec());
    assert_eq!(format!("{:?}", first), format!("{:?}", row(&[None, Some(4)])));
    let (_, second) = reader.take().unwrap();
    assert_eq!(format!("{:?}", second), format!("{:?}", row(&[None, None])));
    assert!(reader.take().is_none());
}

#[test]
fn view_rows_are_read_cell_by_cell() {
    let schema = Schema::new(vec![
        Field::unnamed(DataType::Int32),
        Field::unnamed(DataType::Int32),
    ]);
    let view = MViewTable::new(b"m".to_vec(), schema, vec![0], vec![OrderType::Ascending]);
    assert_eq!(view.schema().len(), 2);
    assert_eq!(view.column_descs()[1].column_id, 1);
    let key = |pk: u8, idx| view.cell_key(&row(&[Some(pk)]), idx);
    assert_eq!(key(3, 1), vec![b'm', 1, 3, 0, 0, 0, 1]);
    assert_eq!(serialize_cell_idx(258), vec![0, 0, 1, 2]);
    let mut iter = view.iter(8);
    match iter.next() {
        IterStep::Scan(request) => {
            assert_eq!(request.start_key, None);
            assert_eq!((request.limit, request.epoch), (SCAN_LIMIT, 8));
        }
        other => panic!("expected a scan, got {:?}", other),
    }
    let scanned = vec![(key(1, 0), vec![10]), (key(1, 1), vec![11]), (key(2, 0), vec![20])];
    assert_eq!(iter.resume(scanned), IterStep::Row(vec![10, 11]));
    match iter.next() {
        IterStep::Scan(request) => assert_eq!(request.start_key, Some(key(2, 0))),
        other => panic!("expected a scan, got {:?}", other),
    }
    assert_eq!(iter.resume(vec![]), IterStep::Failed("incomplete item".to_string()));
    assert_eq!(iter.next(), IterStep::Failed("incomplete item".to_string()));
    let mut empty = view.iter(8);
    empty.next();
    assert_eq!(empty.resume(vec![]), IterStep::End);
    let mut bad = view.iter(8);
    bad.next();
    assert_eq!(
        bad.resume(vec![(key(1, 0), vec![]), (key(2, 1), vec![])]),
        IterStep::Failed("primary key incorrect".to_string())
    );
    let mut short = view.iter(8);
    short.next();
    assert_eq!(
        short.resume(vec![(vec![b'm'], vec![])]),
        IterStep::Failed("corrupted key".to_string())
    );
}

#[test]
fn metrics_of_the_state_store() {
    let all = all_metrics();
    assert_eq!(all.len(), 33);
    let mut names: Vec<&str> = all.iter().map(|m| m.name()).collect();
    names.sort();
    names.dedup();
    assert_eq!(names.len(), 33);
    let m = StateStoreMetric::BatchWriteAddL0Latency;
    assert_eq!(m.name(), "state_store_batch_write_add_l0_ssts_latency");
    assert_eq!(m.instrument(), Instrument::Histogram { scale: 1 });
    assert_eq!(StateStoreMetric::IterCounts.instrument(), Instrument::Counter);
    assert_eq!(
        StateStoreMetric::IterNextLatency.description(),
        "total latency on a next calls"
    );
    let bounds = bucket_bounds();
    assert_eq!((bounds[0], bounds[10]), (5, 10_000));
    assert!(bounds.windows(2).all(|w| w[0] < w[1]));
}

#[test]
fn distribution_keys_are_parts_of_the_primary_key() {
    let desc = |id| ColumnDesc::unnamed(id, DataType::Int32);
    let order = Some(vec![OrderType::Ascending; 3]);
    let table = CellBasedTable::new(vec![], vec![desc(0)], order, Some(vec![2, 0]));
    let entry = (row(&[Some(1), None, Some(3)]), RowOp::Insert(row(&[None])));
    assert_eq!(
        format!("{:?}", table.distribution_keys(&vec![entry])),
        format!("{:?}", vec![row(&[Some(3), Some(1)])])
    );
    assert!(CellBasedTable::new_adhoc(vec![], vec![desc(0)]).distribution_keys(&vec![]).is_empty());
}
