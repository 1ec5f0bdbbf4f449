use delta_file_ingest::checkpoint::{archive_checkpoint, partition_by_extension, Checkpoints, EngineOptions};
use delta_file_ingest::store::MemStore;

#[test]
fn test_checkpointing() {
    let mut chkpnts =
        Checkpoints::new("test_db".to_string(), "test_db".to_string()).unwrap();

    chkpnts.put("/mnt/test.txt", "asdf1234".as_bytes().to_vec()).unwrap();
    chkpnts.put("/mnt/test2.txt", "1234asdf".as_bytes().to_vec()).unwrap();

    chkpnts.create_checkpoint();
}

#[test]
fn with_options_records_locations_and_options() {
    let store = Checkpoints::with_options(
        "db".to_string(),
        "archive".to_string(),
        EngineOptions { create_if_missing: false },
    )
    .unwrap();
    assert_eq!(store.local_location, "db");
    assert_eq!(store.checkpoint_location, "archive");
    assert!(!store.options.create_if_missing);
    assert!(store.entries.is_empty());
}

#[test]
fn checkpoints_without_intervening_writes_are_identical() {
    let mut store = Checkpoints::new("db".to_string(), "archive".to_string()).unwrap();
    store.put("k1", vec![1, 2]).unwrap();
    store.put("k2", vec![3]).unwrap();

    let first = store.create_checkpoint();
    let second = store.create_checkpoint();

    assert_eq!(first.entries.len(), second.entries.len());
    for (a, b) in first.entries.iter().zip(second.entries.iter()) {
        assert_eq!(a.key, b.key);
        assert_eq!(a.value, b.value);
    }
}

#[test]
fn checkpoints_capture_the_store_at_the_moment_of_the_call() {
    let mut store = Checkpoints::new("db".to_string(), "archive".to_string()).unwrap();
    store.put("k", vec![1]).unwrap();
    let before = store.create_checkpoint();
    store.put("k", vec![2]).unwrap();
    let after = store.create_checkpoint();
    assert_eq!(before.entries.len(), 1);
    assert_eq!(after.entries.len(), 2);
    assert_eq!(after.entries[1].value, vec![2]);
}

#[test]
fn latest_write_wins_on_read() {
    let mut store = Checkpoints::new("db".to_string(), "archive".to_string()).unwrap();
    assert!(store.get("progress").is_none());
    store.put("progress", vec![1]).unwrap();
    store.put("progress", vec![2, 3]).unwrap();
    assert_eq!(store.get("progress").unwrap(), vec![2, 3]);
    assert!(store.get("other").is_none());
}

#[test]
fn progress_round_trips_through_the_store() {
    let mut store = Checkpoints::new("db".to_string(), "archive".to_string()).unwrap();
    assert!(store.last_committed_version().is_none());
    store.record_progress(42).unwrap();
    assert_eq!(store.last_committed_version().unwrap(), 42);
    store.record_progress(43).unwrap();
    assert_eq!(store.last_committed_version().unwrap(), 43);
}

#[test]
fn malformed_progress_reads_as_absent() {
    let mut store = Checkpoints::new("db".to_string(), "archive".to_string()).unwrap();
    store.put("last_committed_version", vec![1, 2, 3]).unwrap();
    assert!(store.last_committed_version().is_none());
}

#[test]
fn archiving_copies_every_entry_under_the_prefix() {
    let mut store = Checkpoints::new("db".to_string(), "archive".to_string()).unwrap();
    store.put("k1", vec![1]).unwrap();
    store.put("k2", vec![2]).unwrap();
    store.put("k1", vec![9, 9]).unwrap();
    let snapshot = store.create_checkpoint();

    let mut remote = MemStore::new();
    remote.put(&"unrelated".to_string(), vec![7], 5);
    archive_checkpoint(&snapshot, &mut remote, &"backups/one".to_string(), 100).unwrap();

    assert_eq!(remote.get(&"backups/one/k1".to_string()).unwrap(), vec![9, 9]);
    assert_eq!(remote.get(&"backups/one/k2".to_string()).unwrap(), vec![2]);
    assert_eq!(remote.get(&"unrelated".to_string()).unwrap(), vec![7]);
    let meta = remote.head(&"backups/one/k2".to_string()).unwrap();
    assert_eq!(meta.last_modified_ms, 100);
}

#[test]
fn partitioning_splits_names_by_extension() {
    let names = vec![
        "000001.sst".to_string(),
        "LOG".to_string(),
        "000002.sst".to_string(),
        "MANIFEST.log".to_string(),
        "sst".to_string(),
    ];
    let (data, rest) = partition_by_extension(&names, &"sst".to_string());
    assert_eq!(data, vec!["000001.sst".to_string(), "000002.sst".to_string()]);
    assert_eq!(
        rest,
        vec!["LOG".to_string(), "MANIFEST.log".to_string(), "sst".to_string()]
    );
}
