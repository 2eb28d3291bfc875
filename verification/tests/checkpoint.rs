use voltic::errors::decimal_chars;
use voltic::checkpoint::{decode_checkpoint, encode_checkpoint, Entry, CHECKPOINT_MAGIC};
use voltic::VolticError;

fn sample() -> Vec<Entry> {
    let values: Vec<u32> = [1.5f32, -2.0, 0.25, 3.0, 0.0, 7.75].iter().map(|f| f.to_bits()).collect();
    vec![Entry { shape: vec![2, 3], data: values }, Entry { shape: vec![], data: vec![] }]
}

#[test]
fn checkpoint_round_trip() {
    let entries = sample();
    let bytes = encode_checkpoint(&entries);
    assert_eq!(&bytes[0..4], &CHECKPOINT_MAGIC.to_le_bytes());
    assert_eq!(&bytes[0..4], b"TLOV");
    assert_eq!(&bytes[4..8], &2u32.to_le_bytes());
    // magic, count, then 2 + 2 + 6 words and 2 + 0 + 0 words
    assert_eq!(bytes.len(), 4 * (2 + 10 + 2));
    let back = decode_checkpoint(&bytes, 2).unwrap();
    assert_eq!(back, entries);
    assert_eq!(f32::from_bits(back[0].data[1]), -2.0);
}

#[test]
fn checkpoint_errors() {
    let bytes = encode_checkpoint(&sample());
    match decode_checkpoint(&bytes, 3) {
        Err(VolticError::Internal(m)) => assert_eq!(m, "Checkpoint has 2 vars but expected 3"),
        _ => panic!("expected a count error"),
    }
    match decode_checkpoint(&bytes[..bytes.len() - 1], 2) {
        Err(VolticError::Internal(m)) => assert_eq!(m, "failed to fill whole buffer"),
        _ => panic!("expected a truncation error"),
    }
    let mut bad = bytes.clone();
    bad[0] = 0;
    match decode_checkpoint(&bad, 2) {
        Err(VolticError::Internal(m)) => assert_eq!(m, "Invalid checkpoint file"),
        _ => panic!("expected a magic error"),
    }
    match decode_checkpoint(&[1, 2], 2) {
        Err(VolticError::Internal(m)) => assert_eq!(m, "failed to fill whole buffer"),
        _ => panic!("expected a truncation error"),
    }
}

#[test]
fn decimal_digits() {
    assert_eq!(decimal_chars(0), vec!['0']);
    assert_eq!(decimal_chars(1203).iter().collect::<String>(), "1203");
    assert_eq!(decimal_chars(u64::MAX).iter().collect::<String>(), u64::MAX.to_string());
}
