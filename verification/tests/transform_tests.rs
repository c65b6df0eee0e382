use transcendental_crypto::TranscendentalEngine;
use transcendental_crypto::progress::VecProgress;

#[test]
fn block_round_trip_all_byte_values() {
    let e = TranscendentalEngine::from_digits(vec![9, 4, 1]);
    let block: Vec<u8> = (0u16..256).map(|b| b as u8).collect();
    let encoded = e.transform_block(&block);
    let decoded = e.invert_block(&encoded);
    assert_eq!(decoded, block);
}

#[test]
fn transform_adds_digits_with_wrapping() {
    let e = TranscendentalEngine::from_digits(vec![3]);
    let block = vec![0u8, 127, 255];
    let out = e.transform_block(&block);
    assert_eq!(out, vec![3, 130, 2]);
}

#[test]
fn invert_subtracts_digits_with_wrapping() {
    let e = TranscendentalEngine::from_digits(vec![3, 7]);
    assert_eq!(e.invert_block(&[13, 27, 33]), vec![10, 20, 30]);
    assert_eq!(e.invert_block(&[0, 1]), vec![253, 250]);
}

#[test]
fn keystream_indices_wrap_within_a_block() {
    let e = TranscendentalEngine::from_digits(vec![1, 2]);
    let block = vec![0u8; 5];
    let out = e.transform_block(&block);
    assert_eq!(out, vec![1, 2, 1, 2, 1]);
}

#[test]
fn empty_keystream_is_identity() {
    let e = TranscendentalEngine::from_digits(Vec::new());
    let block = vec![1u8, 2, 3, 250];
    assert_eq!(e.transform_block(&block), block);
    assert_eq!(e.invert_block(&block), block);
    let mut sink = VecProgress::new();
    assert_eq!(e.process(&block, &mut sink), block);
}

#[test]
fn byte_index_resets_at_every_block_boundary() {
    // The per-byte index starts over after 4096 bytes, so the digit used
    // for the byte right past the boundary is the first digit again,
    // whatever the keystream length.
    let e = TranscendentalEngine::from_digits(vec![4, 5, 6]);
    let input = vec![0u8; 4100];
    let mut sink = VecProgress::new();
    let out = e.process(&input, &mut sink);
    assert_eq!(out.len(), 4100);
    assert_eq!(out[0], 4);
    assert_eq!(out[4095], e.digits[4095 % 3]);
    assert_eq!(out[4096], 4);
    assert_eq!(out[4097], 5);
}

#[test]
fn stream_round_trip() {
    let e = TranscendentalEngine::from_digits(vec![8, 3]);
    let input: Vec<u8> = (0..5000u32).map(|i| (i * 7 + 13) as u8).collect();
    let mut sink = VecProgress::new();
    let encoded = e.process(&input, &mut sink);
    assert_ne!(encoded, input);
    let mut sink2 = VecProgress::new();
    let decoded = e.recover(&encoded, &mut sink2);
    assert_eq!(decoded, input);
}

#[test]
fn progress_is_cumulative_and_complete() {
    let e = TranscendentalEngine::from_digits(vec![1]);
    let input = vec![9u8; 10000];
    let mut sink = VecProgress::new();
    let _ = e.process(&input, &mut sink);
    assert_eq!(sink.values, vec![4096, 8192, 10000]);
}

#[test]
fn empty_input_reports_no_progress() {
    let e = TranscendentalEngine::from_digits(vec![1]);
    let mut sink = VecProgress::new();
    let out = e.process(&[], &mut sink);
    assert!(out.is_empty());
    assert!(sink.values.is_empty());
}
