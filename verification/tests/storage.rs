use savant_core::bbox::Point;
use savant_core::cellmap::CellMap;
use savant_core::errors::QueueError;
use savant_core::float_value::FloatValue;
use savant_core::param_store::{Operation, ParameterStore, VarPathSpec};
use savant_core::polygon::PolygonalArea;
use savant_core::proto;
use savant_core::queue::{PersistentQueue, WRITE_INDEX_CELL};

fn fv(x: f64) -> FloatValue {
    FloatValue::from_bits(x.to_bits())
}

#[test]
fn test_normal_ops() {
    let mut db = PersistentQueue::new(10, 4).unwrap();
    db.push(&vec![1, 2, 3]).unwrap();
    db.push(&vec![4, 5, 6]).unwrap();
    assert_eq!(db.len(), 2);
    assert!(matches!(db.pop(), Some(_)));
    assert!(matches!(db.pop(), Some(_)));
    assert!(db.is_empty());
    db.push(&vec![1, 2, 3]).unwrap();
    db.push(&vec![4, 5, 6]).unwrap();
    db.push(&vec![7, 8, 9]).unwrap();
    assert_eq!(db.len(), 3);
    assert_eq!(db.state.read_index, 2);
    assert_eq!(db.state.write_index, 1);
    assert!(matches!(db.pop(), Some(_)));
    assert_eq!(db.len(), 2);
    assert_eq!(db.state.read_index, 3);
    assert_eq!(db.state.write_index, 1);
    assert!(matches!(db.pop(), Some(_)));
    assert_eq!(db.len(), 1);
    assert_eq!(db.state.read_index, 0);
    assert_eq!(db.state.write_index, 1);
    let data = db.pop().unwrap();
    assert!(db.is_empty());
    assert_eq!(data, vec![7, 8, 9]);
}

#[test]
fn test_limit_len_ops() {
    let mut db = PersistentQueue::new(2, 4).unwrap();
    db.push(&vec![1, 2, 3]).unwrap();
    db.push(&vec![4, 5, 6]).unwrap();
    assert!(matches!(db.push(&vec![1, 2, 3]), Err(_)));
}

#[test]
fn test_fifo_order() {
    let mut db = PersistentQueue::new(100, u128::MAX - 2).unwrap();
    db.push(&vec![1]).unwrap();
    db.push(&vec![2]).unwrap();
    db.push(&vec![3]).unwrap();
    assert_eq!(db.pop().unwrap(), vec![1]);
    db.push(&vec![4]).unwrap();
    assert_eq!(db.pop().unwrap(), vec![2]);
    assert_eq!(db.pop().unwrap(), vec![3]);
    assert_eq!(db.pop().unwrap(), vec![4]);
    assert!(db.pop().is_none());
    assert_eq!(db.len(), 0);
}

#[test]
fn test_reopen_preserves_queue() {
    let mut db = PersistentQueue::new(10, 4).unwrap();
    db.push(&vec![1, 2, 3]).unwrap();
    db.push(&vec![4, 5, 6]).unwrap();
    db.pop().unwrap();
    let reopened = PersistentQueue::from_cells(db.cells.clone(), 10, 4).unwrap();
    assert_eq!(reopened.state, db.state);
    assert_eq!(reopened.len(), 1);
    let mut reopened = reopened;
    assert_eq!(reopened.pop().unwrap(), vec![4, 5, 6]);
}

#[test]
fn test_reopen_rejects_corrupt_index_cells() {
    // a reserved cell of the wrong length
    let mut cells = CellMap::new();
    cells.insert(WRITE_INDEX_CELL, vec![1, 2, 3]);
    assert!(matches!(
        PersistentQueue::from_cells(cells, 10, 4),
        Err(QueueError::BadIndexCell)
    ));

    // a reserved cell holding an index outside the ring
    let mut cells2 = CellMap::new();
    cells2.insert(WRITE_INDEX_CELL, savant_core::queue::index_to_key(9));
    assert!(matches!(
        PersistentQueue::from_cells(cells2, 10, 4),
        Err(QueueError::BadIndexCell)
    ));

    // absent cells default to a fresh queue
    let q = PersistentQueue::from_cells(CellMap::new(), 10, 4).unwrap();
    assert_eq!(q.state.write_index, 0);
    assert_eq!(q.state.read_index, 0);
}

#[test]
fn test_queue_rejects_bad_configuration() {
    assert!(PersistentQueue::new(0, 4).is_err());
    assert!(PersistentQueue::new(1, 1).is_err());
    assert!(PersistentQueue::new(1, u128::MAX).is_err());
}

#[test]
fn test_parameter_store() {
    let mut store = ParameterStore::new();
    assert!(!store.is_present("parameters/node"));

    store.order_data_update(VarPathSpec::SingleVar("parameters/node".to_string()));
    let (gets, others) = store.take_ops();
    assert_eq!(gets.len(), 1);
    assert_eq!(others.len(), 0);

    // what the worker fetched lands in the snapshot, checksummed
    store.apply_fetched(vec![("parameters/node".to_string(), b"value".to_vec())]);
    assert!(store.is_present("parameters/node"));
    let (crc, res) = store.get_data("parameters/node").unwrap();
    assert_eq!(res, b"value".to_vec());
    assert_eq!(crc, crc32fast::hash(b"value"));
    assert_eq!(store.get_data_checksum("parameters/node"), Some(crc));

    // a local set only queues the write; the watch delivers it back
    store.set("parameters/node", b"value2".to_vec());
    let (gets2, others2) = store.take_ops();
    assert_eq!(gets2.len(), 0);
    assert_eq!(others2.len(), 1);
    store.apply_watch(Operation::SetValue {
        key: "parameters/node".to_string(),
        value: b"value2".to_vec(),
        with_lease: false,
    });
    let (new_crc, res2) = store.get_data("parameters/node").unwrap();
    assert_eq!(res2, b"value2".to_vec());
    assert_ne!(new_crc, crc);
}

#[test]
fn test_parameter_store_deletes() {
    let mut store = ParameterStore::new();
    store.apply_fetched(vec![
        ("a/x".to_string(), vec![1]),
        ("a/y".to_string(), vec![2]),
        ("b/z".to_string(), vec![3]),
    ]);
    store.apply_watch(Operation::DelKey { key: "a/x".to_string() });
    assert!(!store.is_present("a/x"));
    assert!(store.is_present("a/y"));
    store.apply_watch(Operation::DelPrefix { prefix: "a/".to_string() });
    assert!(!store.is_present("a/y"));
    assert!(store.is_present("b/z"));
}

#[test]
fn test_polygonal_area() {
    assert_eq!(
        PolygonalArea::new(
            vec![Point::new(fv(1.0), fv(2.0)), Point::new(fv(3.0), fv(4.0))],
            None,
        ),
        PolygonalArea::from(&proto::WirePolygonalArea {
            points: vec![
                proto::Point { x: fv(1.0), y: fv(2.0) },
                proto::Point { x: fv(3.0), y: fv(4.0) },
            ],
            tags: None,
        })
    );
    assert_eq!(
        PolygonalArea::new(
            vec![Point::new(fv(1.0), fv(2.0)), Point::new(fv(3.0), fv(4.0))],
            Some(vec![Some("tag1".to_string()), Some("tag2".to_string())]),
        ),
        PolygonalArea::from(&proto::WirePolygonalArea {
            points: vec![
                proto::Point { x: fv(1.0), y: fv(2.0) },
                proto::Point { x: fv(3.0), y: fv(4.0) },
            ],
            tags: Some(proto::PolygonalAreaTags {
                tags: vec![
                    proto::PolygonalAreaTag {
                        tag: Some("tag1".to_string()),
                    },
                    proto::PolygonalAreaTag {
                        tag: Some("tag2".to_string()),
                    },
                ],
            }),
        })
    );
}

#[test]
fn test_index_cell_codec_round_trip() {
    for x in [0u128, 1, 255, 256, 65535, u128::MAX - 2, u128::MAX] {
        let key = savant_core::queue::index_to_key(x);
        assert_eq!(key.len(), 16);
        assert_eq!(key, x.to_le_bytes().to_vec());
        assert_eq!(savant_core::queue::key_to_index(&key).unwrap(), x);
    }
    assert!(savant_core::queue::key_to_index(&vec![1, 2, 3]).is_err());
}
