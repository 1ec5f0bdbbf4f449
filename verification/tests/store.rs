use delta_file_ingest::store::MemStore;
use delta_file_ingest::StoreError;

#[test]
fn put_then_get_returns_the_bytes() {
    let mut store = MemStore::new();
    let loc = String::from("bucket/a.bin");
    store.put(&loc, vec![1, 2, 3], 1000);
    assert_eq!(store.get(&loc).unwrap(), vec![1, 2, 3]);
}

#[test]
fn get_of_missing_object_is_not_found() {
    let store = MemStore::new();
    let loc = String::from("bucket/missing");
    match store.get(&loc) {
        Err(StoreError::NotFound { path }) => assert_eq!(path, "bucket/missing"),
        other => panic!("expected NotFound, got {:?}", other),
    }
}

#[test]
fn put_overwrites_and_leaves_others_alone() {
    let mut store = MemStore::new();
    let a = String::from("a");
    let b = String::from("b");
    store.put(&a, vec![1], 1);
    store.put(&b, vec![2], 2);
    store.put(&a, vec![9, 9], 3);
    assert_eq!(store.get(&a).unwrap(), vec![9, 9]);
    assert_eq!(store.get(&b).unwrap(), vec![2]);
}

#[test]
fn get_range_returns_exact_bytes() {
    let mut store = MemStore::new();
    let loc = String::from("x");
    store.put(&loc, vec![10, 20, 30, 40, 50], 0);
    assert_eq!(store.get_range(&loc, 1, 4).unwrap(), vec![20, 30, 40]);
    assert_eq!(store.get_range(&loc, 2, 2).unwrap(), Vec::<u8>::new());
}

#[test]
fn get_range_past_the_end_is_generic() {
    let mut store = MemStore::new();
    let loc = String::from("x");
    store.put(&loc, vec![1, 2], 0);
    assert!(matches!(store.get_range(&loc, 0, 3), Err(StoreError::Generic { .. })));
    let missing = String::from("y");
    assert!(matches!(store.get_range(&missing, 0, 1), Err(StoreError::NotFound { .. })));
}

#[test]
fn head_reports_size_and_timestamp() {
    let mut store = MemStore::new();
    let loc = String::from("data/part-0");
    store.put(&loc, vec![7; 42], 123456);
    let meta = store.head(&loc).unwrap();
    assert_eq!(meta.location, "data/part-0");
    assert_eq!(meta.size, 42);
    assert_eq!(meta.last_modified_ms, 123456);
}

#[test]
fn delete_removes_exactly_one_object() {
    let mut store = MemStore::new();
    let a = String::from("a");
    let b = String::from("b");
    store.put(&a, vec![1], 0);
    store.put(&b, vec![2], 0);
    store.delete(&a).unwrap();
    assert!(store.get(&a).is_err());
    assert_eq!(store.get(&b).unwrap(), vec![2]);
    assert!(matches!(store.delete(&a), Err(StoreError::NotFound { .. })));
}

#[test]
fn copy_duplicates_bytes_and_fails_on_missing_source() {
    let mut store = MemStore::new();
    let from = String::from("src");
    let to = String::from("dst");
    store.put(&from, vec![5, 6], 10);
    store.copy(&from, &to, 20).unwrap();
    assert_eq!(store.get(&to).unwrap(), vec![5, 6]);
    let missing = String::from("nope");
    assert!(matches!(store.copy(&missing, &to, 30), Err(StoreError::NotFound { .. })));
}

#[test]
fn list_filters_by_prefix_in_store_order() {
    let mut store = MemStore::new();
    store.put(&String::from("logs/one"), vec![1], 1);
    store.put(&String::from("data/one"), vec![2], 2);
    store.put(&String::from("logs/two"), vec![3], 3);
    let listed = store.list(&String::from("logs/"));
    assert_eq!(listed.len(), 2);
    assert_eq!(listed[0].location, "logs/one");
    assert_eq!(listed[1].location, "logs/two");
    assert_eq!(listed[1].size, 1);
    let all = store.list(&String::from(""));
    assert_eq!(all.len(), 3);
}
