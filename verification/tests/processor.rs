use delta_file_ingest::codec::{encode_batch, RowBatch};
use delta_file_ingest::processor::{
    retry_decision, EventProcessor, EventProcessorOptions, RetryDecision, SaveMode, TableState,
    TableVersionRecord, ARTIFACT_MAX_ROWS,
};
use delta_file_ingest::store::MemStore;
use delta_file_ingest::StoreError;

fn store_with(files: &[(&str, RowBatch)]) -> MemStore {
    let mut store = MemStore::new();
    for (loc, batch) in files {
        let bytes = encode_batch(batch);
        store.put(&loc.to_string(), bytes, 0);
    }
    store
}

fn committed_rows(record: &TableVersionRecord) -> Vec<Vec<u64>> {
    let mut rows = Vec::new();
    for artifact in &record.artifacts {
        let n_rows = artifact.data.columns[0].len();
        for i in 0..n_rows {
            rows.push(artifact.data.columns.iter().map(|c| c[i]).collect());
        }
    }
    rows
}

#[test]
fn single_file_cycle_commits_one_version_with_its_rows() {
    let ids: Vec<u64> = (0..10).collect();
    let batch = RowBatch { columns: vec![ids.clone()] };
    let store = store_with(&[("bucket/a.parquet", batch)]);
    let table = TableState::new(Vec::new());
    let prior = table.version;
    let mut processor =
        EventProcessor::new(store, table, EventProcessorOptions { poll_time: 20 }).unwrap();

    processor.run(&vec![String::from("bucket/a.parquet")]).unwrap();

    assert_eq!(processor.table.version, prior + 1);
    assert_eq!(processor.table.history.len(), 1);
    let record = &processor.table.history[0];
    assert_eq!(record.version, 1);
    assert!(matches!(record.operation.mode, SaveMode::Append));
    assert!(record.operation.predicate.is_none());
    let rows = committed_rows(record);
    assert_eq!(rows.len(), 10);
    for (i, row) in rows.iter().enumerate() {
        assert_eq!(row, &vec![ids[i]]);
    }
}

#[test]
fn all_good_files_raise_the_version_by_their_count() {
    let b1 = RowBatch { columns: vec![vec![1, 2], vec![10, 20]] };
    let b2 = RowBatch { columns: vec![vec![3]] };
    let b3 = RowBatch { columns: vec![vec![4, 5, 6]] };
    let store = store_with(&[("f/1", b1), ("f/2", b2), ("f/3", b3)]);
    let mut processor = EventProcessor::new(
        store,
        TableState::new(Vec::new()),
        EventProcessorOptions { poll_time: 1 },
    )
    .unwrap();

    let files = vec![String::from("f/1"), String::from("f/2"), String::from("f/3")];
    processor.run(&files).unwrap();

    assert_eq!(processor.table.version, 3);
    assert_eq!(processor.table.history.len(), 3);
    for (i, record) in processor.table.history.iter().enumerate() {
        assert_eq!(record.version, i as u64 + 1);
    }
    assert_eq!(committed_rows(&processor.table.history[1]), vec![vec![3u64]]);
    assert_eq!(processor.checkpointed_version, 3);
}

#[test]
fn missing_second_file_commits_exactly_the_first() {
    let batch = RowBatch { columns: vec![vec![7, 8]] };
    let store = store_with(&[("present", batch)]);
    let mut processor = EventProcessor::new(
        store,
        TableState::new(Vec::new()),
        EventProcessorOptions { poll_time: 1 },
    )
    .unwrap();

    let files = vec![String::from("present"), String::from("absent")];
    let err = processor.run(&files).unwrap_err();

    match err {
        StoreError::NotFound { path } => assert_eq!(path, "absent"),
        other => panic!("expected NotFound, got {:?}", other),
    }
    assert_eq!(processor.table.version, 1);
    assert_eq!(processor.table.history.len(), 1);
    assert_eq!(committed_rows(&processor.table.history[0]), vec![vec![7u64], vec![8u64]]);
    assert_eq!(processor.checkpointed_version, 0);
}

#[test]
fn malformed_file_aborts_with_decode_and_leaves_table_unchanged() {
    let mut store = MemStore::new();
    store.put(&String::from("bad"), vec![1, 2, 3], 0);
    let mut processor = EventProcessor::new(
        store,
        TableState::new(Vec::new()),
        EventProcessorOptions { poll_time: 1 },
    )
    .unwrap();

    let err = processor.run(&vec![String::from("bad")]).unwrap_err();
    assert!(matches!(err, StoreError::Decode { .. }));
    assert_eq!(processor.table.version, 0);
    assert_eq!(processor.table.history.len(), 0);
}

#[test]
fn failing_file_in_the_middle_fails_fast() {
    let b1 = RowBatch { columns: vec![vec![1]] };
    let b3 = RowBatch { columns: vec![vec![3]] };
    let store = store_with(&[("a", b1), ("c", b3)]);
    let mut processor = EventProcessor::new(
        store,
        TableState::new(Vec::new()),
        EventProcessorOptions { poll_time: 1 },
    )
    .unwrap();

    let files = vec![String::from("a"), String::from("b"), String::from("c")];
    let err = processor.run(&files).unwrap_err();
    assert!(matches!(err, StoreError::NotFound { .. }));
    assert_eq!(processor.table.version, 1);
    assert_eq!(processor.table.history.len(), 1);
}

#[test]
fn large_batches_flush_into_several_bounded_artifacts() {
    let n = ARTIFACT_MAX_ROWS + 500;
    let ids: Vec<u64> = (0..n as u64).collect();
    let batch = RowBatch { columns: vec![ids.clone()] };
    let store = store_with(&[("big", batch)]);
    let mut processor = EventProcessor::new(
        store,
        TableState::new(Vec::new()),
        EventProcessorOptions { poll_time: 1 },
    )
    .unwrap();

    processor.run(&vec![String::from("big")]).unwrap();
    let record = &processor.table.history[0];
    assert_eq!(record.artifacts.len(), 2);
    assert_eq!(record.artifacts[0].data.columns[0].len(), ARTIFACT_MAX_ROWS);
    assert_eq!(record.artifacts[1].data.columns[0].len(), 500);
    let rows = committed_rows(record);
    assert_eq!(rows.len(), n);
    assert_eq!(rows[n - 1], vec![ids[n - 1]]);
}

#[test]
fn partition_columns_tag_every_commit() {
    let batch = RowBatch { columns: vec![vec![1]] };
    let store = store_with(&[("f", batch)]);
    let table = TableState::new(vec![String::from("year"), String::from("month")]);
    let mut processor =
        EventProcessor::new(store, table, EventProcessorOptions { poll_time: 1 }).unwrap();
    processor.run(&vec![String::from("f")]).unwrap();
    let record = &processor.table.history[0];
    assert_eq!(record.operation.partition_by, vec!["year".to_string(), "month".to_string()]);
}

#[test]
fn conflicts_are_retried_with_linear_backoff() {
    let conflict = StoreError::Conflict { cause: String::from("version already exists") };
    match retry_decision(conflict, 2, 5, 100) {
        RetryDecision::RetryAfterBackoff { delay_ms } => assert_eq!(delay_ms, 300),
        RetryDecision::Surface { .. } => panic!("expected a retry"),
    }
}

#[test]
fn spent_retry_budget_surfaces_exhausted() {
    let conflict = StoreError::Conflict { cause: String::from("again") };
    match retry_decision(conflict, 5, 5, 100) {
        RetryDecision::Surface { error: StoreError::Exhausted { attempts } } => {
            assert_eq!(attempts, 5)
        },
        _ => panic!("expected Exhausted"),
    }
}

#[test]
fn other_errors_surface_unchanged() {
    let err = StoreError::PermissionDenied { path: String::from("secret") };
    match retry_decision(err, 0, 5, 100) {
        RetryDecision::Surface { error: StoreError::PermissionDenied { path } } => {
            assert_eq!(path, "secret")
        },
        _ => panic!("expected the error back"),
    }
}
