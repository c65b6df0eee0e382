use transcendental_crypto::TranscendentalEngine;
use transcendental_crypto::decimal::dec_string;
use transcendental_crypto::parts::{
    detect_parts, join_with_engine, parse_part_number, part_name, split_with_engine,
};
use transcendental_crypto::progress::VecProgress;

#[test]
fn decimal_strings() {
    assert_eq!(dec_string(0), "0");
    assert_eq!(dec_string(7), "7");
    assert_eq!(dec_string(10), "10");
    assert_eq!(dec_string(12345), "12345");
    assert_eq!(dec_string(u64::MAX), "18446744073709551615");
}

#[test]
fn part_names_are_stem_marker_number() {
    assert_eq!(part_name("data", 0), "data.part0");
    assert_eq!(part_name("data", 2), "data.part2");
    assert_eq!(part_name("data", 10), "data.part10");
    assert_eq!(part_name("archive.tar", 7), "archive.tar.part7");
}

#[test]
fn parse_accepts_exact_part_names() {
    assert_eq!(parse_part_number("data.part7", "data"), Some(7));
    assert_eq!(parse_part_number("data.part0", "data"), Some(0));
    assert_eq!(parse_part_number("data.part10", "data"), Some(10));
    assert_eq!(
        parse_part_number("data.part18446744073709551615", "data"),
        Some(u64::MAX)
    );
}

#[test]
fn parse_rejects_everything_else() {
    assert_eq!(parse_part_number("data.part", "data"), None);
    assert_eq!(parse_part_number("data.part07", "data"), None);
    assert_eq!(parse_part_number("data.partx", "data"), None);
    assert_eq!(parse_part_number("data.part1x", "data"), None);
    assert_eq!(parse_part_number("other.part1", "data"), None);
    assert_eq!(parse_part_number("data", "data"), None);
    assert_eq!(parse_part_number("data.part18446744073709551616", "data"), None);
}

#[test]
fn detect_parts_orders_numerically_not_lexically() {
    // Eleven parts: a lexical sort would put part10 before part2.
    let mut names: Vec<String> = Vec::new();
    for k in [10u64, 3, 0, 7, 1, 9, 4, 2, 8, 5, 6] {
        names.push(part_name("data", k));
    }
    names.push("data.txt".to_string());
    names.push("data.part".to_string());
    names.push("notdata.part1".to_string());
    let parts = detect_parts("data", &names);
    let expected: Vec<String> = (0u64..=10).map(|k| part_name("data", k)).collect();
    assert_eq!(parts, expected);
}

#[test]
fn detect_parts_empty_when_nothing_matches() {
    let names = vec!["a.txt".to_string(), "b.part".to_string()];
    let parts = detect_parts("data", &names);
    assert!(parts.is_empty());
}

#[test]
fn split_and_join_eleven_parts_round_trip() {
    // A file of eleven chunks: reassembly in the discovered order only
    // reproduces the input when parts are ordered by number, not by name.
    let engine = TranscendentalEngine::from_digits(vec![1, 2, 3]);
    let input: Vec<u8> = (0..33u32).map(|i| (i * 11 + 5) as u8).collect();
    let mut sink = VecProgress::new();
    let parts = split_with_engine("data", &engine, &input, &mut sink);
    assert_eq!(parts.len(), 11);
    for (k, (name, payload)) in parts.iter().enumerate() {
        assert_eq!(*name, part_name("data", k as u64));
        assert_eq!(payload.len(), 3);
    }
    // Discover the parts from a shuffled listing, then join in that order.
    let mut names: Vec<String> = parts.iter().map(|(n, _)| n.clone()).collect();
    names.reverse();
    names.swap(0, 5);
    let ordered = detect_parts("data", &names);
    let by_name = |n: &String| -> Vec<u8> {
        parts.iter().find(|(pn, _)| pn == n).unwrap().1.clone()
    };
    let payloads: Vec<Vec<u8>> = ordered.iter().map(by_name).collect();
    let mut sink2 = VecProgress::new();
    let joined = join_with_engine(&engine, &payloads, &mut sink2);
    assert_eq!(joined, input);
}

#[test]
fn split_with_short_final_piece() {
    let engine = TranscendentalEngine::from_digits(vec![1, 2, 3, 4]);
    let input = vec![1u8, 2, 3, 4, 5, 6];
    let mut sink = VecProgress::new();
    let parts = split_with_engine("f", &engine, &input, &mut sink);
    assert_eq!(parts.len(), 2);
    assert_eq!(parts[0].1.len(), 4);
    assert_eq!(parts[1].1.len(), 2);
    assert_eq!(sink.values, vec![4, 6]);
    let payloads: Vec<Vec<u8>> = parts.iter().map(|(_, p)| p.clone()).collect();
    let mut sink2 = VecProgress::new();
    let joined = join_with_engine(&engine, &payloads, &mut sink2);
    assert_eq!(joined, input);
    assert_eq!(sink2.values, vec![4, 6]);
}

#[test]
fn split_with_zero_chunk_produces_nothing() {
    let engine = TranscendentalEngine::from_digits(Vec::new());
    let input = vec![1u8, 2, 3];
    let mut sink = VecProgress::new();
    let parts = split_with_engine("f", &engine, &input, &mut sink);
    assert!(parts.is_empty());
    assert!(sink.values.is_empty());
}
