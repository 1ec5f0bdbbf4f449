use delta_file_ingest::codec::{decode_batch, encode_batch, RowBatch};
use delta_file_ingest::StoreError;

#[test]
fn encoding_has_the_documented_layout() {
    let batch = RowBatch { columns: vec![vec![1u64, 2]] };
    let bytes = encode_batch(&batch);
    let mut expected: Vec<u8> = Vec::new();
    expected.extend_from_slice(&1u64.to_le_bytes());
    expected.extend_from_slice(&2u64.to_le_bytes());
    expected.extend_from_slice(&1u64.to_le_bytes());
    expected.extend_from_slice(&2u64.to_le_bytes());
    assert_eq!(bytes, expected);
    assert_eq!(bytes.len(), 16 + 8 * 2);
}

#[test]
fn decode_restores_the_encoded_batch() {
    let batch = RowBatch { columns: vec![vec![10u64, 20, 30], vec![100u64, 200, 300]] };
    let bytes = encode_batch(&batch);
    let decoded = decode_batch(&bytes).unwrap();
    assert_eq!(decoded.columns, vec![vec![10u64, 20, 30], vec![100u64, 200, 300]]);
}

#[test]
fn truncated_input_is_a_decode_error() {
    let bytes = vec![0u8; 15];
    assert!(matches!(decode_batch(&bytes), Err(StoreError::Decode { .. })));
}

#[test]
fn zero_column_or_zero_row_headers_are_rejected() {
    let mut bytes: Vec<u8> = Vec::new();
    bytes.extend_from_slice(&0u64.to_le_bytes());
    bytes.extend_from_slice(&1u64.to_le_bytes());
    assert!(matches!(decode_batch(&bytes), Err(StoreError::Decode { .. })));

    let mut bytes: Vec<u8> = Vec::new();
    bytes.extend_from_slice(&1u64.to_le_bytes());
    bytes.extend_from_slice(&0u64.to_le_bytes());
    assert!(matches!(decode_batch(&bytes), Err(StoreError::Decode { .. })));
}

#[test]
fn length_mismatch_is_rejected() {
    let batch = RowBatch { columns: vec![vec![1u64, 2, 3]] };
    let mut bytes = encode_batch(&batch);
    bytes.push(0);
    assert!(matches!(decode_batch(&bytes), Err(StoreError::Decode { .. })));
    bytes.pop();
    bytes.pop();
    assert!(matches!(decode_batch(&bytes), Err(StoreError::Decode { .. })));
}
