// The transform works on whatever digit sequence the generator holds;
// these tests pick hand-made digit sequences so that the wrapping
// arithmetic and the chunk round trip are exercised with values other
// than zero.

use transcendental_crypto::TranscendentalEngine;
use transcendental_crypto::parts::{detect_parts, join_with_engine, part_name, split_with_engine};
use transcendental_crypto::progress::VecProgress;

fn engine_with(digits: Vec<u8>) -> TranscendentalEngine {
    TranscendentalEngine::from_digits(digits)
}

#[test]
fn transform_block_adds_exact_values() {
    let e = engine_with(vec![3, 7]);
    let out = e.transform_block(&[10, 20, 30]);
    assert_eq!(out, vec![13, 27, 33]);
    let wrapped = e.transform_block(&[255, 254]);
    assert_eq!(wrapped, vec![2, 5]);
}

#[test]
fn invert_block_subtracts_exact_values() {
    let e = engine_with(vec![3, 7]);
    let out = e.invert_block(&[13, 27, 33]);
    assert_eq!(out, vec![10, 20, 30]);
    let wrapped = e.invert_block(&[0, 1]);
    assert_eq!(wrapped, vec![253, 250]);
}

#[test]
fn block_and_invert_are_inverse_for_every_byte() {
    let e = engine_with(vec![9, 4, 1]);
    let block: Vec<u8> = (0u16..256).map(|b| b as u8).collect();
    assert_eq!(e.invert_block(&e.transform_block(&block)), block);
}

#[test]
fn stream_repeats_digits_at_block_boundary() {
    let e = engine_with(vec![5]);
    let input = vec![0u8; 4097];
    let mut sink = VecProgress::new();
    let out = e.process(&input, &mut sink);
    assert!(out.iter().all(|b| *b == 5));
    assert_eq!(sink.values, vec![4096, 4097]);
}

#[test]
fn split_and_join_round_trip_with_nonzero_digits() {
    let e = engine_with(vec![1, 2, 3]);
    let input: Vec<u8> = (0..33u32).map(|i| (i * 11 + 5) as u8).collect();
    let mut sink = VecProgress::new();
    let parts = split_with_engine("data", &e, &input, &mut sink);
    assert_eq!(parts.len(), 11);
    assert_eq!(sink.values, (1..=11u64).map(|k| 3 * k).collect::<Vec<u64>>());
    // Every part is transformed: the first piece is 5,16,27 plus 1,2,3.
    assert_eq!(parts[0].1, vec![6, 18, 30]);
    // Discover from a listing that a name ordering would misorder.
    let mut names: Vec<String> = parts.iter().map(|(n, _)| n.clone()).collect();
    names.sort();
    assert_eq!(names[1], part_name("data", 1));
    assert_eq!(names[2], part_name("data", 10));
    let ordered = detect_parts("data", &names);
    assert_eq!(ordered[1], part_name("data", 1));
    assert_eq!(ordered[2], part_name("data", 2));
    let by_name = |n: &String| -> Vec<u8> {
        parts.iter().find(|(pn, _)| pn == n).unwrap().1.clone()
    };
    let payloads: Vec<Vec<u8>> = ordered.iter().map(by_name).collect();
    let mut sink2 = VecProgress::new();
    let joined = join_with_engine(&e, &payloads, &mut sink2);
    assert_eq!(joined, input);
}
