use transcendental_crypto::SizeUnit;
use transcendental_crypto::TranscendentalEngine;

#[test]
fn multiplier_values() {
    assert_eq!(SizeUnit::KB.multiplier(), 1024);
    assert_eq!(SizeUnit::MB.multiplier(), 1024 * 1024);
    assert_eq!(SizeUnit::GB.multiplier(), 1024 * 1024 * 1024);
}

#[test]
fn chunk_bytes_multiplies_and_saturates() {
    assert_eq!(TranscendentalEngine::chunk_bytes(1, SizeUnit::KB), 1024);
    assert_eq!(TranscendentalEngine::chunk_bytes(3, SizeUnit::MB), 3 * 1024 * 1024);
    assert_eq!(TranscendentalEngine::chunk_bytes(0, SizeUnit::GB), 0);
    // The product saturates instead of wrapping.
    assert_eq!(TranscendentalEngine::chunk_bytes(u64::MAX, SizeUnit::GB), usize::MAX);
}

#[test]
fn construction_keeps_one_digit_per_byte() {
    let e = TranscendentalEngine::from_digits(vec![0, 1, 9, 5]);
    assert_eq!(e.digits, vec![0, 1, 9, 5]);
    assert_eq!(e.chunk_size, 4);
}

#[test]
fn construction_reduces_values_modulo_ten() {
    let e = TranscendentalEngine::from_digits(vec![10, 37, 255, 9]);
    assert_eq!(e.digits, vec![0, 7, 5, 9]);
    for d in &e.digits {
        assert!(*d <= 9);
    }
}

#[test]
fn empty_input_gives_empty_sequence() {
    let e = TranscendentalEngine::from_digits(Vec::new());
    assert_eq!(e.digits.len(), 0);
    assert_eq!(e.chunk_size, 0);
}

#[test]
fn construction_is_deterministic() {
    let a = TranscendentalEngine::from_digits(vec![4, 17, 8]);
    let b = TranscendentalEngine::from_digits(vec![4, 17, 8]);
    assert_eq!(a.digits, b.digits);
    assert_eq!(a.chunk_size, b.chunk_size);
}

#[test]
fn seed_digest_is_deterministic_and_fixed_width() {
    let a = transcendental_crypto::engine::seed_digest("correct horse");
    let b = transcendental_crypto::engine::seed_digest("correct horse");
    let c = transcendental_crypto::engine::seed_digest("other seed");
    assert_eq!(a.len(), 32);
    assert_eq!(a, b);
    assert_ne!(a, c);
}
