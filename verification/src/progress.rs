//! Progress reporting: a transform reports the cumulative number of input
//! bytes consumed, once after each block, to a caller-supplied sink.

use vstd::prelude::*;
use vstd::math::min;
use crate::transform::BLOCK_BYTES;

verus! {

/// A receiver for progress reports. The transform functions report the
/// cumulative number of bytes consumed after each block; callers implement
/// this to drive a display or a log.
pub trait ProgressSink {
    /// The values reported so far, oldest first.
    spec fn history(&self) -> Seq<u64>;

    /// Receives the cumulative number of bytes consumed so far.
    fn report(&mut self, done: u64)
        ensures
            final(self).history() == old(self).history().push(done),
    ;
}

/// A sink that simply records every reported value.
pub struct VecProgress {
    /// Every value reported so far, oldest first.
    pub values: Vec<u64>,
}

impl VecProgress {
    /// An empty record.
    pub fn new() -> (s: Self)
        ensures
            s.history() == Seq::<u64>::empty(),
    {
        VecProgress { values: Vec::new() }
    }
}

impl ProgressSink for VecProgress {
    open spec fn history(&self) -> Seq<u64> {
        self.values@
    }

    fn report(&mut self, done: u64) {
        self.values.push(done);
    }
}

/// How many blocks a stream of `total` bytes is read in.
pub open spec fn spec_num_blocks(total: int) -> int {
    (total + (BLOCK_BYTES - 1)) / (BLOCK_BYTES as int)
}

/// The progress values reported while transforming `total` bytes that sit
/// `base` bytes into a larger job: the value after block `k` is `base` plus
/// the count of bytes consumed through that block.
pub open spec fn progress_seq_from(base: int, total: int) -> Seq<u64> {
    Seq::new(
        spec_num_blocks(total) as nat,
        |k: int| (base + min(total, (k + 1) * (BLOCK_BYTES as int))) as u64,
    )
}

/// The progress values reported while transforming `total` bytes on their
/// own: the value after block `k` is the count of bytes consumed through
/// that block.
pub open spec fn progress_seq(total: int) -> Seq<u64> {
    progress_seq_from(0, total)
}

/// Stepping one block forward: when `pos` sits at a block boundary and
/// `end` closes the next block, the block count grows by exactly one, stays
/// within the stream's block count, and the progress value reported for
/// that block is `base + end`.
pub proof fn lemma_progress_step(base: int, pos: int, end: int, total: int)
    requires
        0 <= base,
        0 <= pos < end <= total,
        pos % (BLOCK_BYTES as int) == 0,
        end == min(pos + (BLOCK_BYTES as int), total),
        base + total <= u64::MAX,
    ensures
        spec_num_blocks(end) == spec_num_blocks(pos) + 1,
        spec_num_blocks(end) <= spec_num_blocks(total),
        0 <= spec_num_blocks(pos),
        progress_seq_from(base, total)[spec_num_blocks(pos)] == (base + end) as u64,
        end < total ==> end % (BLOCK_BYTES as int) == 0,
{
    let b = BLOCK_BYTES as int;
    vstd::arithmetic::div_mod::lemma_fundamental_div_mod(pos, b);
    let q = pos / b;
    assert(pos == b * q);
    vstd::arithmetic::div_mod::lemma_fundamental_div_mod_converse(pos + b - 1, b, q, b - 1);
    assert(spec_num_blocks(pos) == q);
    if end == pos + b {
        vstd::arithmetic::div_mod::lemma_fundamental_div_mod_converse(end + b - 1, b, q + 1, b - 1);
        vstd::arithmetic::div_mod::lemma_fundamental_div_mod_converse(end, b, q + 1, 0);
    } else {
        vstd::arithmetic::div_mod::lemma_fundamental_div_mod_converse(end + b - 1, b, q + 1, end - pos - 1);
    }
    assert(spec_num_blocks(end) == q + 1);
    vstd::arithmetic::div_mod::lemma_div_is_ordered(end + b - 1, total + b - 1, b);
    assert(progress_seq_from(base, total)[q] == (base + min(total, (q + 1) * b)) as u64);
    assert((q + 1) * b == pos + b) by (nonlinear_arith)
        requires pos == b * q,
    ;
}

/// The progress reported over one offset run never decreases, stays within
/// the run's byte range, and ends at `base` plus the run's byte count (an
/// empty run reports nothing).
pub proof fn lemma_progress_from_monotone(base: int, total: int)
    requires
        0 <= base,
        0 <= total,
        base + total <= u64::MAX,
    ensures
        forall|i: int, j: int|
            0 <= i <= j < progress_seq_from(base, total).len() ==> progress_seq_from(base, total)[i]
                <= progress_seq_from(base, total)[j],
        forall|i: int|
            0 <= i < progress_seq_from(base, total).len() ==> base < #[trigger] progress_seq_from(
                base,
                total,
            )[i] <= base + total,
        total > 0 ==> progress_seq_from(base, total).len() > 0 && progress_seq_from(
            base,
            total,
        ).last() == (base + total) as u64,
        total == 0 ==> progress_seq_from(base, total).len() == 0,
{
    vstd::arithmetic::div_mod::lemma_fundamental_div_mod(total + (BLOCK_BYTES - 1), BLOCK_BYTES as int);
    if total > 0 {
        assert(spec_num_blocks(total) > 0);
        let n = spec_num_blocks(total);
        assert(n * (BLOCK_BYTES as int) >= total);
        assert(progress_seq_from(base, total).last() == (base + min(
            total,
            n * (BLOCK_BYTES as int),
        )) as u64);
    }
}

/// The reported progress never decreases, and once the stream ends it is
/// complete: the last value equals the total byte count (an empty stream
/// reports nothing).
pub proof fn lemma_progress_monotone(total: int)
    requires
        0 <= total <= u64::MAX,
    ensures
        forall|i: int, j: int|
            0 <= i <= j < progress_seq(total).len() ==> progress_seq(total)[i] <= progress_seq(total)[j],
        total > 0 ==> progress_seq(total).len() > 0 && progress_seq(total).last() == total as u64,
        total == 0 ==> progress_seq(total).len() == 0,
{
    lemma_progress_from_monotone(0, total);
}

} // verus!
