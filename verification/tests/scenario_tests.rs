use transcendental_crypto::TranscendentalEngine;
use transcendental_crypto::progress::VecProgress;

// An end-to-end scenario at a small scale: a four-digit keystream and an
// input of zero bytes twice the keystream length. The whole input fits in
// one read block, so the byte index wraps at the keystream length and the
// output is the digit sequence repeated twice.
#[test]
fn zero_input_reveals_the_keystream_twice() {
    let e = TranscendentalEngine::from_digits(vec![7, 0, 2, 9]);
    let input = vec![0u8; 8];
    let mut sink = VecProgress::new();
    let out = e.process(&input, &mut sink);
    assert_eq!(out, vec![7, 0, 2, 9, 7, 0, 2, 9]);
    assert_eq!(sink.values, vec![8]);
    let mut sink2 = VecProgress::new();
    let back = e.recover(&out, &mut sink2);
    assert_eq!(back, input);
}
