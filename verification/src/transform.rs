//! The byte transform: each byte of a block is combined with the keystream
//! digit at the byte's index within that block, by wrapping addition when
//! encoding and by the inverse wrapping subtraction when decoding.

use vstd::prelude::*;

verus! {

/// A stream is read and transformed in blocks of this many bytes; the byte
/// index used to pick a keystream digit resets at every block boundary.
pub const BLOCK_BYTES: usize = 4096;

/// Wrapping byte addition: `(b + d) mod 256`.
pub open spec fn wrap_add(b: u8, d: u8) -> u8 {
    if b + d > 255 {
        (b + d - 256) as u8
    } else {
        (b + d) as u8
    }
}

/// Wrapping byte subtraction: `(b - d) mod 256`.
pub open spec fn wrap_sub(b: u8, d: u8) -> u8 {
    if b - d < 0 {
        (b - d + 256) as u8
    } else {
        (b - d) as u8
    }
}

/// The keystream digit used for the byte at index `i` within one block:
/// indices wrap around the keystream. An empty keystream contributes the
/// digit zero, so the transform is then the identity; this is the chosen,
/// documented behavior for a generator built with a target length of zero.
pub open spec fn block_key(ks: Seq<u8>, i: int) -> u8 {
    if ks.len() == 0 {
        0u8
    } else {
        ks[i % (ks.len() as int)]
    }
}

/// The keystream digit used for the byte at position `i` of a whole stream:
/// the position resets at every block boundary rather than running on, so
/// the digits repeat with period `min(BLOCK_BYTES, ks.len())` whatever the
/// stream length.
pub open spec fn stream_key(ks: Seq<u8>, i: int) -> u8 {
    block_key(ks, i % (BLOCK_BYTES as int))
}

/// One block, encoded: each byte gets the digit at its index added.
pub open spec fn block_encoded(ks: Seq<u8>, block: Seq<u8>) -> Seq<u8> {
    Seq::new(block.len(), |i: int| wrap_add(block[i], block_key(ks, i)))
}

/// One block, decoded: each byte gets the digit at its index subtracted.
pub open spec fn block_decoded(ks: Seq<u8>, block: Seq<u8>) -> Seq<u8> {
    Seq::new(block.len(), |i: int| wrap_sub(block[i], block_key(ks, i)))
}

/// A whole stream, encoded block by block.
pub open spec fn stream_encoded(ks: Seq<u8>, input: Seq<u8>) -> Seq<u8> {
    Seq::new(input.len(), |i: int| wrap_add(input[i], stream_key(ks, i)))
}

/// A whole stream, decoded block by block.
pub open spec fn stream_decoded(ks: Seq<u8>, input: Seq<u8>) -> Seq<u8> {
    Seq::new(input.len(), |i: int| wrap_sub(input[i], stream_key(ks, i)))
}

/// The effective period of the stream transform: because the byte index
/// resets at every block boundary, the digit used at position
/// `i + BLOCK_BYTES` is exactly the digit used at position `i`, whatever
/// the keystream and stream lengths.
pub proof fn lemma_stream_key_period(ks: Seq<u8>, i: int)
    requires
        0 <= i,
    ensures
        stream_key(ks, i + BLOCK_BYTES) == stream_key(ks, i),
{
    vstd::arithmetic::div_mod::lemma_mod_add_multiples_vanish(i, BLOCK_BYTES as int);
}

/// A stream no longer than one block is transformed exactly as one block:
/// the byte index never resets inside it, so the digits repeat with the
/// keystream's own length as period.
pub proof fn lemma_single_block_stream(ks: Seq<u8>, input: Seq<u8>)
    requires
        input.len() <= BLOCK_BYTES,
    ensures
        stream_encoded(ks, input) == block_encoded(ks, input),
{
    assert forall|i: int| 0 <= i < input.len() implies stream_key(ks, i) == block_key(
        ks,
        i,
    ) by {
        vstd::arithmetic::div_mod::lemma_small_mod(i as nat, BLOCK_BYTES as nat);
    }
    assert(stream_encoded(ks, input) =~= block_encoded(ks, input));
}

/// Within one block that starts at a block boundary `pos`, the stream
/// position `i` picks the same digit as the offset `i - pos` does within
/// the block.
pub proof fn lemma_stream_block_key(ks: Seq<u8>, pos: int, i: int)
    requires
        0 <= pos,
        pos % (BLOCK_BYTES as int) == 0,
        pos <= i < pos + (BLOCK_BYTES as int),
    ensures
        stream_key(ks, i) == block_key(ks, i - pos),
{
    let b = BLOCK_BYTES as int;
    vstd::arithmetic::div_mod::lemma_fundamental_div_mod(pos, b);
    vstd::arithmetic::div_mod::lemma_fundamental_div_mod_converse(i, b, pos / b, i - pos);
}

/// Round trip of one byte: subtracting the same digit that was added
/// recovers the byte, for every byte value and every digit value.
pub proof fn lemma_wrap_round_trip(b: u8, d: u8)
    ensures
        wrap_sub(wrap_add(b, d), d) == b,
{
}

/// Round trip of one block: decoding an encoded block with the same
/// keystream recovers the block exactly.
pub proof fn lemma_block_round_trip(ks: Seq<u8>, block: Seq<u8>)
    ensures
        block_decoded(ks, block_encoded(ks, block)) == block,
{
    assert(block_decoded(ks, block_encoded(ks, block)) =~= block);
}

/// Round trip of a whole stream: decoding an encoded stream with the same
/// keystream recovers the stream exactly.
pub proof fn lemma_stream_round_trip(ks: Seq<u8>, input: Seq<u8>)
    ensures
        stream_decoded(ks, stream_encoded(ks, input)) == input,
{
    assert(stream_decoded(ks, stream_encoded(ks, input)) =~= input);
}

} // verus!
