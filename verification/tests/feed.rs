use delta_file_ingest::aws::{
    locations_of_event, normalize_location, Bucket, Event, GlacierEventData, Object,
    RequestParameters, ResponseElements, RestoreEventData, S3, SqsEvent, UserId,
};
use delta_file_ingest::errors::map_native_error;
use delta_file_ingest::local::{is_create_file_event, CreateKind, WatchEventKind};
use delta_file_ingest::uc::{collect_fields, full_table_name, FieldSpec};
use delta_file_ingest::{NativeError, StoreError};

fn record(bucket: &str, key: &str) -> Event {
    Event {
        event_version: "2.1".to_string(),
        event_source: "aws:s3".to_string(),
        aws_region: "us-east-1".to_string(),
        event_time: "2023-01-01T00:00:00Z".to_string(),
        event_name: "ObjectCreated:Put".to_string(),
        user_identity: UserId { principal_id: "AIDAexample".to_string() },
        request_parameters: RequestParameters { source_ipaddress: "127.0.0.1".to_string() },
        response_elements: ResponseElements {
            x_amz_request_id: "req".to_string(),
            x_amz_id_2: "id2".to_string(),
        },
        s3: S3 {
            s3schema_version: "1.0".to_string(),
            configuration_id: "cfg".to_string(),
            bucket: Bucket {
                name: bucket.to_string(),
                owner_identity: UserId { principal_id: "owner".to_string() },
                arn: "arn:aws:s3:::bucket".to_string(),
            },
            object: Object {
                key: key.to_string(),
                size: "10".to_string(),
                e_tag: "etag".to_string(),
                version_id: "v1".to_string(),
                sequencer: "seq".to_string(),
            },
        },
        glacier_event_data: GlacierEventData {
            restore_event_data: RestoreEventData {
                lifecycle_restoration_expiry_time: "never".to_string(),
                lifecycle_restore_storage_class: "STANDARD".to_string(),
            },
        },
    }
}

#[test]
fn each_record_becomes_one_bucket_slash_key_location() {
    let event = SqsEvent {
        records: vec![record("bucket", "a.parquet"), record("other", "dir/b.parquet")],
    };
    let locations = locations_of_event(&event);
    assert_eq!(locations, vec!["bucket/a.parquet".to_string(), "other/dir/b.parquet".to_string()]);
}

#[test]
fn normalizing_strips_delimiters_and_keeps_canonical_paths() {
    let canonical = normalize_location(&"bucket/a.parquet".to_string()).unwrap();
    assert_eq!(canonical, "bucket/a.parquet");
    let stripped = normalize_location(&"/bucket/a/".to_string()).unwrap();
    assert_eq!(stripped, "bucket/a");
}

#[test]
fn locations_with_empty_segments_are_rejected() {
    let r = normalize_location(&"a//b".to_string());
    assert!(matches!(r, Err(StoreError::Generic { .. })));
    let r = normalize_location(&"a/./b".to_string());
    assert!(matches!(r, Err(StoreError::Generic { .. })));
}

#[test]
fn native_errors_map_onto_the_taxonomy() {
    assert!(matches!(
        map_native_error(NativeError::FileNotFound("p".to_string())),
        StoreError::NotFound { .. }
    ));
    assert!(matches!(
        map_native_error(NativeError::FileAlreadyExists("p".to_string())),
        StoreError::AlreadyExists { .. }
    ));
    assert!(matches!(
        map_native_error(NativeError::CannotConnectToNameNode("nn".to_string())),
        StoreError::Generic { .. }
    ));
    assert!(matches!(
        map_native_error(NativeError::InvalidUrl("u".to_string())),
        StoreError::Generic { .. }
    ));
    match map_native_error(NativeError::Generic("cause kept".to_string())) {
        StoreError::Generic { cause } => assert_eq!(cause, "cause kept"),
        _ => panic!("expected Generic"),
    }
}

#[test]
fn only_file_creation_events_pass_the_watch_filter() {
    assert!(is_create_file_event(&WatchEventKind::Create(CreateKind::File)));
    assert!(!is_create_file_event(&WatchEventKind::Create(CreateKind::Folder)));
    assert!(!is_create_file_event(&WatchEventKind::Create(CreateKind::Any)));
    assert!(!is_create_file_event(&WatchEventKind::Modify));
    assert!(!is_create_file_event(&WatchEventKind::Remove));
    assert!(!is_create_file_event(&WatchEventKind::Access));
    assert!(!is_create_file_event(&WatchEventKind::Any));
    assert!(!is_create_file_event(&WatchEventKind::Other));
}

#[test]
fn full_table_names_join_catalog_schema_and_table() {
    let name = full_table_name(
        &"main".to_string(),
        &"default".to_string(),
        &"events".to_string(),
    );
    assert_eq!(name, "main.default.events");
}

#[test]
fn only_parsed_columns_become_schema_fields() {
    let parsed = vec![
        Some(FieldSpec {
            name: "id".to_string(),
            type_label: "integer".to_string(),
            nullable: true,
        }),
        None,
        Some(FieldSpec {
            name: "ts".to_string(),
            type_label: "timestamp".to_string(),
            nullable: false,
        }),
    ];
    let fields = collect_fields(parsed);
    assert_eq!(fields.len(), 2);
    assert_eq!(fields[0].name, "id");
    assert_eq!(fields[1].name, "ts");
    assert_eq!(fields[1].type_label, "timestamp");
    assert!(!fields[1].nullable);
}
