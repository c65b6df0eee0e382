//! The keystream generator: it owns one digit sequence and applies it to
//! byte streams. A seed is turned into a 32-byte digest here; evaluating
//! the damped-sinusoid recurrence that turns the digest into digits needs
//! arbitrary-precision arithmetic from an outside numeric library, so the
//! surrounding application runs it and hands the digits in. Whatever is
//! handed in is reduced to single decimal digits on construction.

use vstd::prelude::*;
use sha2::Digest;
use crate::transform::{
    BLOCK_BYTES, block_decoded, block_encoded, block_key, lemma_stream_block_key,
    stream_decoded, stream_encoded, stream_key, wrap_add, wrap_sub,
};
use crate::progress::{ProgressSink, lemma_progress_step, progress_seq, progress_seq_from, spec_num_blocks};

verus! {

/// The unit in which a chunk size is given.
#[derive(Copy, Clone, PartialEq, Eq, Structural, Debug)]
pub enum SizeUnit {
    KB,
    MB,
    GB,
}

impl SizeUnit {
    /// The number of bytes this unit stands for.
    pub open spec fn spec_multiplier(self) -> u64 {
        match self {
            SizeUnit::KB => 1024u64,
            SizeUnit::MB => 1048576u64,
            SizeUnit::GB => 1073741824u64,
        }
    }

    /// Executable byte multiplier for this unit.
    pub fn multiplier(self) -> (m: u64)
        ensures
            m == self.spec_multiplier(),
    {
        match self {
            SizeUnit::KB => 1024,
            SizeUnit::MB => 1048576,
            SizeUnit::GB => 1073741824,
        }
    }
}

/// The SHA-256 digest of a seed string's bytes: a fixed 32-byte value that
/// is a function of the seed text alone.
pub uninterp spec fn sha256_of(seed: Seq<char>) -> Seq<u8>;

/// Relies on `sha2::Sha256`: hashing the seed's UTF-8 bytes always yields
/// the same 32-byte digest for the same seed, on every run and machine.
#[verifier::external_body]
fn sha256(seed: &str) -> (h: Vec<u8>)
    ensures
        h@ == sha256_of(seed@),
        h@.len() == 32,
{
    let mut hasher = sha2::Sha256::new();
    hasher.update(seed.as_bytes());
    hasher.finalize().to_vec()
}

/// The 32-byte digest a seed derives: the sole input of the keystream
/// recurrence. All generator parameters come from this value alone, so
/// equal seeds always lead to equal keystreams.
pub fn seed_digest(seed: &str) -> (h: Vec<u8>)
    ensures
        h@ == sha256_of(seed@),
        h@.len() == 32,
{
    sha256(seed)
}

/// Reduction is deterministic: two digit sequences reduced from the same
/// raw values are byte-for-byte equal. Together with the fixed seed
/// digest, equal inputs to construction always give equal keystreams.
pub proof fn lemma_reduction_deterministic(raw: Seq<u8>, d1: Seq<u8>, d2: Seq<u8>)
    requires
        d1.len() == raw.len(),
        forall|i: int| 0 <= i < raw.len() ==> d1[i] == raw[i] % 10,
        d2.len() == raw.len(),
        forall|i: int| 0 <= i < raw.len() ==> d2[i] == raw[i] % 10,
    ensures
        d1 == d2,
{
    assert(d1 =~= d2);
}

/// Reduction preserves prefixes: when one raw sequence is a prefix of
/// another, the digits reduced from it are exactly a prefix of the digits
/// reduced from the other — a shorter generator built from the same raw
/// stream holds a prefix of a longer one.
pub proof fn lemma_reduction_prefix(raw1: Seq<u8>, raw2: Seq<u8>, d1: Seq<u8>, d2: Seq<u8>)
    requires
        raw1.len() <= raw2.len(),
        raw1 == raw2.take(raw1.len() as int),
        d1.len() == raw1.len(),
        forall|i: int| 0 <= i < raw1.len() ==> d1[i] == raw1[i] % 10,
        d2.len() == raw2.len(),
        forall|i: int| 0 <= i < raw2.len() ==> d2[i] == raw2[i] % 10,
    ensures
        d1 == d2.take(d1.len() as int),
{
    assert(d1 =~= d2.take(d1.len() as int));
}

/// The keystream generator. It owns the digit sequence produced for one
/// seed and target length; the sequence is immutable after construction.
pub struct TranscendentalEngine {
    /// The keystream digits, fixed at construction.
    pub digits: Vec<u8>,
    /// The target length the generator was built for, in bytes; also the
    /// piece size used when a file is split.
    pub chunk_size: usize,
}

impl View for TranscendentalEngine {
    type V = Seq<u8>;

    /// The generator's digit sequence.
    closed spec fn view(&self) -> Seq<u8> {
        self.digits@
    }
}

impl TranscendentalEngine {
    /// A generator is well formed when it holds exactly `chunk_size` digits,
    /// each a single decimal digit.
    pub open spec fn wf(&self) -> bool {
        &&& self@.len() == self.chunk_size
        &&& forall|i: int| 0 <= i < self@.len() ==> self@[i] < 10
    }

    /// The requested byte length: the chunk size times the unit multiplier,
    /// saturating on overflow.
    pub open spec fn spec_target_bytes(chunk_size: u64, unit: SizeUnit) -> int {
        if chunk_size * unit.spec_multiplier() > u64::MAX {
            u64::MAX as int
        } else {
            chunk_size * unit.spec_multiplier()
        }
    }

    /// The byte length actually generated: the requested length, further
    /// clamped to what a length in memory can hold.
    pub open spec fn spec_chunk_bytes(chunk_size: u64, unit: SizeUnit) -> int {
        if Self::spec_target_bytes(chunk_size, unit) > usize::MAX as int {
            usize::MAX as int
        } else {
            Self::spec_target_bytes(chunk_size, unit)
        }
    }

    /// The keystream length a chunk size and unit select: their product,
    /// saturating on overflow.
    pub fn chunk_bytes(chunk_size: u64, unit: SizeUnit) -> (target: usize)
        ensures
            target == Self::spec_chunk_bytes(chunk_size, unit),
    {
        let m = unit.multiplier();
        let t64: u64 = match chunk_size.checked_mul(m) {
            Some(v) => v,
            None => u64::MAX,
        };
        if t64 > usize::MAX as u64 {
            usize::MAX
        } else {
            t64 as usize
        }
    }

    /// Builds a generator from raw keystream values, one per target byte:
    /// each value is reduced modulo 10, so the generator always holds
    /// single decimal digits, exactly one per element handed in. An empty
    /// vector gives the empty keystream.
    pub fn from_digits(raw: Vec<u8>) -> (e: Self)
        ensures
            e.chunk_size == raw@.len(),
            e@.len() == raw@.len(),
            forall|i: int| 0 <= i < raw@.len() ==> e@[i] == raw@[i] % 10,
            e.wf(),
    {
        let target = raw.len();
        let mut digits: Vec<u8> = Vec::new();
        let mut i: usize = 0;
        while i < target
            invariant
                i <= target,
                target == raw@.len(),
                digits@.len() == i,
                forall|j: int| 0 <= j < i ==> digits@[j] == raw@[j] % 10,
                forall|j: int| 0 <= j < i ==> digits@[j] < 10,
            decreases target - i,
        {
            let d = raw[i] % 10;
            digits.push(d);
            i = i + 1;
        }
        TranscendentalEngine { digits, chunk_size: target }
    }

    /// Transforms one block for encoding: adds to each byte the keystream
    /// digit at the byte's index within the block, wrapping modulo 256.
    pub fn transform_block(&self, block: &[u8]) -> (out: Vec<u8>)
        ensures
            out@ == block_encoded(self@, block@),
    {
        self.apply_block(block, false)
    }

    /// Transforms one block for decoding: subtracts from each byte the
    /// keystream digit at the byte's index within the block, wrapping
    /// modulo 256. This is the exact inverse of [`Self::transform_block`].
    pub fn invert_block(&self, block: &[u8]) -> (out: Vec<u8>)
        ensures
            out@ == block_decoded(self@, block@),
    {
        self.apply_block(block, true)
    }

    /// One pass over a block, in either direction. An empty keystream
    /// leaves every byte unchanged.
    fn apply_block(&self, block: &[u8], decode: bool) -> (out: Vec<u8>)
        ensures
            out@ == if decode {
                block_decoded(self@, block@)
            } else {
                block_encoded(self@, block@)
            },
    {
        let n = block.len();
        let klen = self.digits.len();
        let mut out: Vec<u8> = Vec::new();
        let mut i: usize = 0;
        while i < n
            invariant
                i <= n,
                n == block@.len(),
                klen == self@.len(),
                out@.len() == i as int,
                forall|j: int| 0 <= j < i ==> out@[j] == (if decode {
                    wrap_sub(block@[j], block_key(self@, j))
                } else {
                    wrap_add(block@[j], block_key(self@, j))
                }),
            decreases n - i,
        {
            let bv = block[i];
            let t = if klen == 0 {
                bv
            } else {
                let d = self.digits[i % klen];
                if decode {
                    bv.wrapping_sub(d)
                } else {
                    bv.wrapping_add(d)
                }
            };
            out.push(t);
            i = i + 1;
        }
        proof {
            if decode {
                assert(out@ =~= block_decoded(self@, block@));
            } else {
                assert(out@ =~= block_encoded(self@, block@));
            }
        }
        out
    }

    /// Applies the keystream to a whole input in the encoding direction:
    /// the input is cut into fixed-size blocks, each block is transformed
    /// with the byte index reset to zero, and after each block the
    /// cumulative number of bytes consumed is reported to `sink`.
    pub fn process<S: ProgressSink>(&self, input: &[u8], sink: &mut S) -> (out: Vec<u8>)
        ensures
            out@ == stream_encoded(self@, input@),
            final(sink).history() == old(sink).history() + progress_seq(input@.len() as int),
    {
        let n = input.len();
        proof {
            assert(n == input@.len());
        }
        self.run(input, 0, sink, false)
    }

    /// Applies the inverse keystream transform to a whole input, block by
    /// block, with the same progress reports as [`Self::process`]. Running
    /// it on the output of `process` for the same generator recovers the
    /// input exactly.
    pub fn recover<S: ProgressSink>(&self, input: &[u8], sink: &mut S) -> (out: Vec<u8>)
        ensures
            out@ == stream_decoded(self@, input@),
            final(sink).history() == old(sink).history() + progress_seq(input@.len() as int),
    {
        let n = input.len();
        proof {
            assert(n == input@.len());
        }
        self.run(input, 0, sink, true)
    }

    /// The shared streaming loop behind `process` and `recover`: transforms
    /// the input block by block and reports `base` plus the bytes consumed
    /// so far after each block.
    pub(crate) fn run<S: ProgressSink>(
        &self,
        input: &[u8],
        base: u64,
        sink: &mut S,
        decode: bool,
    ) -> (out: Vec<u8>)
        requires
            base + input@.len() <= u64::MAX,
        ensures
            out@ == if decode {
                stream_decoded(self@, input@)
            } else {
                stream_encoded(self@, input@)
            },
            final(sink).history() == old(sink).history() + progress_seq_from(
                base as int,
                input@.len() as int,
            ),
    {
        let total = input.len();
        let mut out: Vec<u8> = Vec::new();
        let mut pos: usize = 0;
        proof {
            assert(out@ =~= stream_decoded(self@, input@.subrange(0, 0)));
            assert(out@ =~= stream_encoded(self@, input@.subrange(0, 0)));
            assert(spec_num_blocks(0) == 0);
            assert(sink.history() =~= old(sink).history() + progress_seq_from(
                base as int,
                total as int,
            ).take(0));
        }
        while pos < total
            invariant
                total == input@.len(),
                base as int + total as int <= u64::MAX,
                pos <= total,
                pos == total || pos % BLOCK_BYTES == 0,
                0 <= spec_num_blocks(pos as int) <= spec_num_blocks(total as int),
                out@ == if decode {
                    stream_decoded(self@, input@.subrange(0, pos as int))
                } else {
                    stream_encoded(self@, input@.subrange(0, pos as int))
                },
                sink.history() == old(sink).history() + progress_seq_from(
                    base as int,
                    total as int,
                ).take(spec_num_blocks(pos as int)),
            decreases total - pos,
        {
            let end = if total - pos > BLOCK_BYTES {
                pos + BLOCK_BYTES
            } else {
                total
            };
            let block = &input[pos..end];
            let mut piece = self.apply_block(block, decode);
            proof {
                lemma_progress_step(base as int, pos as int, end as int, total as int);
                assert forall|i: int| pos <= i < end implies stream_key(self@, i) == block_key(
                    self@,
                    i - pos,
                ) by {
                    lemma_stream_block_key(self@, pos as int, i);
                }
                if decode {
                    assert(stream_decoded(self@, input@.subrange(0, end as int)) =~= out@
                        + piece@);
                } else {
                    assert(stream_encoded(self@, input@.subrange(0, end as int)) =~= out@
                        + piece@);
                }
                assert(progress_seq_from(base as int, total as int).take(
                    spec_num_blocks(end as int),
                ) =~= progress_seq_from(base as int, total as int).take(
                    spec_num_blocks(pos as int),
                ).push((base as int + end as int) as u64));
            }
            out.append(&mut piece);
            sink.report(base + end as u64);
            proof {
                assert(sink.history() =~= old(sink).history() + progress_seq_from(
                    base as int,
                    total as int,
                ).take(spec_num_blocks(end as int)));
            }
            pos = end;
        }
        proof {
            assert(input@.subrange(0, total as int) =~= input@);
            assert(progress_seq_from(base as int, total as int).take(
                spec_num_blocks(total as int),
            ) =~= progress_seq_from(base as int, total as int));
        }
        out
    }
}

} // verus!
