use transcendental_crypto::TranscendentalEngine;
use transcendental_crypto::i18n::parse_chunk_size;
use transcendental_crypto::progress::VecProgress;

#[test]
fn empty_keystream_whole_file_transform_is_identity() {
    // A zero target length gives an empty keystream, and the documented
    // behavior of an empty keystream is the identity transform.
    let e = TranscendentalEngine::from_digits(Vec::new());
    let input = vec![5u8; 5000];
    let mut sink = VecProgress::new();
    let out = e.process(&input, &mut sink);
    assert_eq!(out, input);
    assert_eq!(sink.values, vec![4096, 5000]);
    let mut sink2 = VecProgress::new();
    let back = e.recover(&out, &mut sink2);
    assert_eq!(back, input);
    assert_eq!(sink2.values, vec![4096, 5000]);
}

#[test]
fn encrypt_then_decrypt_recovers_input() {
    let engine = TranscendentalEngine::from_digits(vec![2, 6]);
    let input: Vec<u8> = (0..300u32).map(|i| (i % 256) as u8).collect();
    let mut sink = VecProgress::new();
    let encoded = engine.process(&input, &mut sink);
    assert_ne!(encoded, input);
    let mut sink2 = VecProgress::new();
    let decoded = engine.recover(&encoded, &mut sink2);
    assert_eq!(decoded, input);
}

#[test]
fn parse_chunk_size_reads_decimal_or_defaults() {
    assert_eq!(parse_chunk_size("64"), 64);
    assert_eq!(parse_chunk_size("1"), 1);
    assert_eq!(parse_chunk_size("1024"), 1024);
    assert_eq!(parse_chunk_size(""), 64);
    assert_eq!(parse_chunk_size("12a"), 64);
    assert_eq!(parse_chunk_size("-3"), 64);
    assert_eq!(parse_chunk_size("18446744073709551615"), u64::MAX);
    assert_eq!(parse_chunk_size("18446744073709551616"), 64);
}
