use delta_file_ingest::adapter::{
    handle_step, read_chunk, resolve_seek, seek_round_trips, stream_read_from, HandleEvent,
    HandleState, SeekOrigin,
};
use delta_file_ingest::StoreError;

#[test]
fn seek_from_start_sets_offset_directly() {
    assert_eq!(resolve_seek(&SeekOrigin::Start(42), 10, 3).unwrap(), 42);
}

#[test]
fn seek_from_end_resolves_against_length() {
    assert_eq!(resolve_seek(&SeekOrigin::End(-4), 10, 3).unwrap(), 6);
    assert_eq!(resolve_seek(&SeekOrigin::End(0), 10, 3).unwrap(), 10);
}

#[test]
fn seek_from_current_resolves_against_position() {
    assert_eq!(resolve_seek(&SeekOrigin::Current(5), 10, 3).unwrap(), 8);
    assert_eq!(resolve_seek(&SeekOrigin::Current(-3), 10, 3).unwrap(), 0);
}

#[test]
fn seek_before_start_is_rejected() {
    let r = resolve_seek(&SeekOrigin::Current(-4), 10, 3);
    assert!(matches!(r, Err(StoreError::Generic { .. })));
    let r = resolve_seek(&SeekOrigin::End(-11), 10, 0);
    assert!(matches!(r, Err(StoreError::Generic { .. })));
}

#[test]
fn seek_past_maximum_offset_is_rejected() {
    let r = resolve_seek(&SeekOrigin::End(5), u64::MAX, 0);
    assert!(matches!(r, Err(StoreError::Generic { .. })));
}

#[test]
fn seek_costs_are_not_free() {
    assert_eq!(seek_round_trips(&SeekOrigin::Start(0)), 1);
    assert_eq!(seek_round_trips(&SeekOrigin::End(0)), 2);
    assert_eq!(seek_round_trips(&SeekOrigin::Current(0)), 2);
}

#[test]
fn read_chunk_is_bounded_and_in_order() {
    let file = vec![1u8, 2, 3, 4, 5];
    let chunk = read_chunk(&file, 1, 2).unwrap();
    assert!(chunk.len() >= 1 && chunk.len() <= 2);
    assert_eq!(chunk[0], 2);
}

#[test]
fn read_at_end_of_file_ends_the_stream() {
    let file = vec![1u8, 2, 3];
    assert!(read_chunk(&file, 3, 16).is_none());
    let empty: Vec<u8> = Vec::new();
    assert!(read_chunk(&empty, 0, 16).is_none());
}

#[test]
fn streaming_from_zero_reproduces_the_file() {
    let file: Vec<u8> = (0u8..=200).collect();
    for cap in [1usize, 3, 7, 64, 1000] {
        assert_eq!(stream_read_from(&file, 0, cap), file);
    }
}

#[test]
fn seek_to_end_then_read_yields_empty_stream() {
    let file = vec![9u8, 8, 7];
    let resolved = resolve_seek(&SeekOrigin::End(0), file.len() as u64, 0).unwrap();
    assert_eq!(resolved, 3);
    assert!(read_chunk(&file, resolved as usize, 16).is_none());
    assert_eq!(stream_read_from(&file, resolved as usize, 16), Vec::<u8>::new());
}

#[test]
fn handle_operations_are_linearized() {
    let s = handle_step(HandleState::Idle, HandleEvent::BeginSeek).unwrap();
    assert_eq!(s, HandleState::Seeking);
    assert!(matches!(
        handle_step(HandleState::Seeking, HandleEvent::BeginRead),
        Err(StoreError::Generic { .. })
    ));
    let s = handle_step(s, HandleEvent::SeekDone).unwrap();
    assert_eq!(s, HandleState::Idle);
    let s = handle_step(s, HandleEvent::BeginRead).unwrap();
    assert_eq!(s, HandleState::ReadPending);
    let s = handle_step(s, HandleEvent::ReadDone { eof: false }).unwrap();
    assert_eq!(s, HandleState::Idle);
    let s = handle_step(s, HandleEvent::BeginRead).unwrap();
    let s = handle_step(s, HandleEvent::ReadDone { eof: true }).unwrap();
    assert_eq!(s, HandleState::Exhausted);
    let s = handle_step(s, HandleEvent::Shutdown).unwrap();
    assert_eq!(s, HandleState::Closed);
}

#[test]
fn writes_follow_the_same_discipline() {
    let s = handle_step(HandleState::Idle, HandleEvent::BeginWrite).unwrap();
    assert_eq!(s, HandleState::WritePending);
    assert!(handle_step(s, HandleEvent::BeginWrite).is_err());
    let s = handle_step(s, HandleEvent::WriteDone).unwrap();
    assert_eq!(s, HandleState::Idle);
}
