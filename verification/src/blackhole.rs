//! The capture side: what the input callback does with each chunk.
use crate::ring::{
    accepted, arrived, capacity, follows, released, room, sample_ring, smaller, stream_in,
    stream_out, taken, SampleConsumer, SampleProducer,
};
use crate::rtp::total;
use vstd::arithmetic::power2::{lemma2_to64, lemma_pow2_pos, lemma_pow2_unfold, pow2};
use vstd::prelude::*;

verus! {

/// The size of the capture ring: about a third of a second of 48 kHz stereo.
pub const CAPTURE_RING: usize = 32768;

/// Every so many lost samples the loss is told again.
pub const LOSS_STEP: usize = 10000;

/// `n` is a power of two.
pub open spec fn is_pow2(n: int) -> bool {
    exists|k: nat| n == #[trigger] pow2(k)
}

/// Going from `prev` to `total` lost samples is worth telling: the total is a
/// power of two, or another ten thousand are full.
pub open spec fn is_milestone(prev: int, total: int) -> bool {
    is_pow2(total) || prev / 10000 != total / 10000
}

/// How many of `len` samples a push puts in, when the ring end had `before` in
/// its log, and saw `freed` released in a ring of `size`.
pub open spec fn fitting(len: nat, before: nat, freed: nat, size: nat) -> int {
    smaller(len as int, size + freed - before)
}

/// The two ends of an empty capture ring.
pub fn capture_ring() -> (ends: (SampleProducer, SampleConsumer))
    ensures
        accepted(ends.0) == Seq::<i16>::empty(),
        released(ends.0) == 0,
        capacity(ends.0) == CAPTURE_RING,
        arrived(ends.1) == Seq::<i16>::empty(),
        taken(ends.1) == 0,
        stream_in(ends.0) == stream_out(ends.1),
{
    sample_ring(CAPTURE_RING)
}

/// Whether `n` is a power of two.
fn power_of_two(n: usize) -> (r: bool)
    ensures
        r == is_pow2(n as int),
{
    if n == 0 {
        proof {
            assert forall|k: nat| 0 != #[trigger] pow2(k) by {
                lemma_pow2_pos(k);
            }
        }
        return false;
    }
    let mut m: usize = n;
    while m % 2 == 0
        invariant
            m > 0,
            is_pow2(n as int) == is_pow2(m as int),
        decreases m,
    {
        proof {
            lemma_halve(m as int);
        }
        m = m / 2;
    }
    proof {
        if m == 1 {
            lemma2_to64();
            assert(pow2(0) == 1);
        } else if is_pow2(m as int) {
            let k = choose|k: nat| m as int == #[trigger] pow2(k);
            if k > 0 {
                lemma_pow2_unfold(k);
            } else {
                lemma2_to64();
            }
        }
    }
    m == 1
}

/// Half of an even number is a power of two if and only if the number is.
proof fn lemma_halve(m: int)
    requires
        m > 0,
        m % 2 == 0,
    ensures
        is_pow2(m) == is_pow2(m / 2),
{
    if is_pow2(m) {
        let k = choose|k: nat| m == #[trigger] pow2(k);
        lemma2_to64();
        assert(k > 0);
        lemma_pow2_unfold(k);
        assert(m / 2 == pow2((k - 1) as nat));
    }
    if is_pow2(m / 2) {
        let k = choose|k: nat| m / 2 == #[trigger] pow2(k);
        lemma_pow2_unfold(k + 1);
        assert(m == pow2(k + 1));
    }
}

/// Whether the loss is worth telling.
pub fn loss_milestone(prev: usize, total: usize) -> (r: bool)
    ensures
        r == is_milestone(prev as int, total as int),
        r <==> (exists|k: nat| total == #[trigger] pow2(k)) || prev / 10000 != total / 10000,
{
    power_of_two(total) || prev / LOSS_STEP != total / LOSS_STEP
}

/// Puts a captured chunk into the ring. What does not fit is dropped and counted
/// in `dropped`. Returns the total when it is worth telling. Nothing is lost in
/// silence: every sample is in the ring or counted.
pub fn buffer_audio(data: &[i16], rb_prod: &mut SampleProducer, dropped: &mut usize) -> (r: Option<
    usize,
>)
    requires
        *old(dropped) + data@.len() <= usize::MAX,
    ensures
        capacity(*final(rb_prod)) == capacity(*old(rb_prod)),
        stream_in(*final(rb_prod)) == stream_in(*old(rb_prod)),
        follows(accepted(*final(rb_prod)), stream_in(*final(rb_prod))),
        released(*old(rb_prod)) <= released(*final(rb_prod)),
        ({
            let n = fitting(
                data@.len(),
                accepted(*old(rb_prod)).len(),
                released(*final(rb_prod)),
                capacity(*old(rb_prod)),
            );
            let lost = data@.len() - n;
            &&& 0 <= n <= data@.len()
            &&& accepted(*final(rb_prod)) == accepted(*old(rb_prod)) + data@.take(n)
            &&& *final(dropped) == *old(dropped) + lost
            &&& r == if lost > 0 && is_milestone(*old(dropped) as int, *old(dropped) + lost) {
                Some((*old(dropped) + lost) as usize)
            } else {
                None
            }
        }),
        accepted(*final(rb_prod)).len() + *final(dropped) == accepted(*old(rb_prod)).len() + *old(
            dropped,
        ) + data@.len(),
        room(*old(rb_prod)) >= data@.len() ==> accepted(*final(rb_prod)) == accepted(*old(rb_prod))
            + data@ && *final(dropped) == *old(dropped) && r is None,
{
    let pushed: usize = rb_prod.push_slice(data);
    assert(data@.take(data@.len() as int) =~= data@);
    if pushed < data.len() {
        let prev: usize = *dropped;
        let total: usize = prev + (data.len() - pushed);
        *dropped = total;
        if loss_milestone(prev, total) {
            return Some(total);
        }
    }
    None
}

/// The frame count after a chunk of `samples` samples.
pub fn count_frames(frames_total: u64, samples: usize, channels: usize) -> (r: u64)
    requires
        channels > 0,
        frames_total + samples / channels <= u64::MAX,
    ensures
        r == frames_total + samples / channels,
{
    frames_total + (samples / channels) as u64
}

/// The frames in chunks of the given lengths in samples.
pub open spec fn frames_in(chunks: Seq<nat>, channels: nat) -> nat
    decreases chunks.len(),
{
    if chunks.len() == 0 {
        0
    } else {
        frames_in(chunks.drop_last(), channels) + chunks.last() / channels
    }
}

/// The frame count is the sum over all chunks: where it was right before a chunk,
/// what `count_frames` makes of it is right after.
pub proof fn counted_frames_follow(chunks: Seq<nat>, samples: nat, channels: nat)
    requires
        channels > 0,
    ensures
        frames_in(Seq::empty(), channels) == 0,
        frames_in(chunks.push(samples), channels) == frames_in(chunks, channels) + samples
            / channels,
{
    assert(chunks.push(samples).drop_last() =~= chunks);
}

/// No frame is missed while chunks hold whole frames: the frames account for every
/// captured sample.
pub proof fn whole_chunks_are_counted_in_full(chunks: Seq<nat>, channels: nat)
    requires
        channels > 0,
        forall|i: int| 0 <= i < chunks.len() ==> #[trigger] chunks[i] % channels == 0,
    ensures
        frames_in(chunks, channels) * channels == total(chunks),
    decreases chunks.len(),
{
    if chunks.len() > 0 {
        let front = chunks.drop_last();
        let n: int = chunks.last() as int;
        let f: int = frames_in(front, channels) as int;
        assert(chunks[chunks.len() - 1] % channels == 0);
        assert forall|i: int| 0 <= i < front.len() implies #[trigger] front[i] % channels == 0 by {
            assert(chunks[i] % channels == 0);
        }
        whole_chunks_are_counted_in_full(front, channels);
        vstd::arithmetic::div_mod::lemma_fundamental_div_mod(n, channels as int);
        assert((f + n / channels as int) * channels == f * channels + (n / channels as int)
            * channels) by (nonlinear_arith);
        assert((n / channels as int) * channels == channels * (n / channels as int))
            by (nonlinear_arith);
    } else {
        assert(0 * channels == 0) by (nonlinear_arith);
    }
}

/// A chunk goes in whole, or the part that goes in fills the ring to its last place.
pub proof fn chunk_fits_or_fills_the_ring(len: nat, before: nat, freed: nat, size: nat)
    requires
        before <= size + freed,
    ensures
        ({
            let n = fitting(len, before, freed, size);
            &&& 0 <= n <= len
            &&& before + n <= size + freed
            &&& n == len || before + n == size + freed
        }),
{
}

/// The loss is told at each power of two and whenever another ten thousand are full,
/// so at the latest every ten thousand samples.
pub proof fn loss_is_told_at_its_milestones(prev: int, total: int, k: nat)
    requires
        0 <= prev <= total,
    ensures
        total == pow2(k) ==> is_milestone(prev, total),
        total - prev >= 10000 ==> is_milestone(prev, total),
        prev < 10000 <= total ==> is_milestone(prev, total),
        is_milestone(prev, total) && prev / 10000 == total / 10000 ==> exists|j: nat|
            total == #[trigger] pow2(j),
        prev / 10000 != total / 10000 ==> is_milestone(prev, total),
{
}

} // verus!
