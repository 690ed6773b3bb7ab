//! The target delay of the local speakers, in frames.
use std::sync::atomic::{AtomicUsize, Ordering};
use vstd::prelude::*;

verus! {

/// The 64-bit signed number with the bits of `x`.
pub open spec fn signed(x: usize) -> int {
    if x <= 0x7fff_ffff_ffff_ffff {
        x as int
    } else {
        x - 0x1_0000_0000_0000_0000
    }
}

/// A quarter of `d`, rounded toward zero.
pub open spec fn quarter(d: int) -> int {
    if d >= 0 {
        d / 4
    } else {
        -((-d) / 4)
    }
}

/// The target after one report that asks for `wanted`: a quarter of the way from
/// `prev`, and never below zero.
pub open spec fn nudged(prev: int, wanted: int) -> int {
    let next = prev + quarter(wanted - prev);
    if next >= 0 {
        next
    } else {
        0
    }
}

/// The target after `n` reports that all ask for `wanted`.
pub open spec fn nudged_often(prev: int, wanted: int, n: nat) -> int
    decreases n,
{
    if n == 0 {
        prev
    } else {
        nudged(nudged_often(prev, wanted, (n - 1) as nat), wanted)
    }
}

/// The distance of two numbers.
pub open spec fn distance(a: int, b: int) -> int {
    if a >= b {
        a - b
    } else {
        b - a
    }
}

/// The least fallback delay, in milliseconds.
pub const FALLBACK_MIN_MS: u32 = 50;

/// The greatest fallback delay, in milliseconds.
pub const FALLBACK_MAX_MS: u32 = 500;

/// `ms` milliseconds in frames, rounded down.
pub open spec fn frames_of_ms(ms: u32, sample_rate: u32) -> int {
    ms * sample_rate / 1000
}

/// The fallback target for a wish of `frames`: the wish, kept between the least and
/// the greatest fallback delay.
pub open spec fn fallback(frames: int, sample_rate: u32) -> int {
    let low = frames_of_ms(FALLBACK_MIN_MS, sample_rate);
    let high = frames_of_ms(FALLBACK_MAX_MS, sample_rate);
    if frames < low {
        low
    } else if frames > high {
        high
    } else {
        frames
    }
}

/// `next` is the target that a report for `wanted` makes of `prev`.
pub open spec fn is_nudged(prev: usize, wanted: i64, next: usize) -> bool {
    next == nudged(signed(prev), wanted as int)
}

/// Reads the bits of `x` as a signed number.
pub fn as_signed(x: usize) -> (r: i64)
    ensures
        r == signed(x),
        x < 0x8000_0000_0000_0000 ==> r == x,
        x >= 0x8000_0000_0000_0000 ==> r == x - 0x1_0000_0000_0000_0000,
{
    let wide: u64 = x as u64;
    if wide <= 0x7fff_ffff_ffff_ffff {
        wide as i64
    } else {
        let rest: i64 = (0xffff_ffff_ffff_ffff - wide) as i64;
        -1 - rest
    }
}

/// Moves a target a quarter of the way to what a report asks for, so that no
/// single report makes a step change.
pub fn smooth_target(prev: usize, wanted: i64) -> (next: usize)
    requires
        wanted <= usize::MAX,
    ensures
        is_nudged(prev, wanted, next),
{
    let from: i64 = as_signed(prev);
    if wanted >= from {
        let d: u64 = (wanted as i128 - from as i128) as u64;
        let next: i128 = from as i128 + (d / 4) as i128;
        if next >= 0 {
            next as usize
        } else {
            0
        }
    } else {
        let d: u64 = (from as i128 - wanted as i128) as u64;
        let next: i128 = from as i128 - (d / 4) as i128;
        if next >= 0 {
            next as usize
        } else {
            0
        }
    }
}

/// Keeps a wish between the least and the greatest fallback delay, so that a bad
/// reading cannot make a silly target.
pub fn fallback_target(frames: i64, sample_rate: u32) -> (r: i64)
    ensures
        r == fallback(frames as int, sample_rate),
        0 <= r <= 0x7fff_ffff,
{
    assert(FALLBACK_MIN_MS * sample_rate == 50 * sample_rate);
    assert(FALLBACK_MAX_MS * sample_rate == 500 * sample_rate);
    let low: i64 = (FALLBACK_MIN_MS as u64 * sample_rate as u64 / 1000) as i64;
    let high: i64 = (FALLBACK_MAX_MS as u64 * sample_rate as u64 / 1000) as i64;
    if frames < low {
        low
    } else if frames > high {
        high
    } else {
        frames
    }
}

/// Applies `smooth_target` to the shared target. Returns what was found there
/// and what was put there. The contents of shared memory cannot be named in a
/// contract, so that they change is left unsaid.
pub fn retarget(handle: &AtomicUsize, wanted: i64) -> (r: (usize, usize))
    requires
        wanted <= usize::MAX,
    ensures
        is_nudged(r.0, wanted, r.1),
{
    let prev: usize = handle.load(Ordering::Relaxed);
    let next: usize = smooth_target(prev, wanted);
    handle.store(next, Ordering::Relaxed);
    (prev, next)
}

/// One report never overshoots: the new target lies between the old one and the
/// wanted one, and is closer to the wanted one unless it was within three
/// frames, where it rests.
pub proof fn nudge_stays_between(prev: int, wanted: int)
    requires
        prev >= 0,
        wanted >= 0,
    ensures
        prev <= wanted ==> prev <= nudged(prev, wanted) <= wanted,
        wanted <= prev ==> wanted <= nudged(prev, wanted) <= prev,
        distance(prev, wanted) < 4 ==> nudged(prev, wanted) == prev,
        distance(prev, wanted) >= 4 ==> distance(nudged(prev, wanted), wanted) < distance(
            prev,
            wanted,
        ),
{
}

/// A target within the fallback delays stays within them, whatever a receiver
/// report wishes for.
pub proof fn fallback_keeps_the_target_in_range(prev: int, frames: int, sample_rate: u32)
    requires
        frames_of_ms(FALLBACK_MIN_MS, sample_rate) <= prev <= frames_of_ms(
            FALLBACK_MAX_MS,
            sample_rate,
        ),
    ensures
        frames_of_ms(FALLBACK_MIN_MS, sample_rate) <= nudged(prev, fallback(frames, sample_rate))
            <= frames_of_ms(FALLBACK_MAX_MS, sample_rate),
{
    nudge_stays_between(prev, fallback(frames, sample_rate));
}

/// A report moves the target by a quarter of the distance, to within a frame.
pub proof fn nudge_is_a_quarter(prev: int, wanted: int)
    requires
        prev >= 0,
        wanted >= 0,
    ensures
        4 * distance(nudged(prev, wanted), prev) <= distance(prev, wanted) < 4 * distance(
            nudged(prev, wanted),
            prev,
        ) + 4,
{
}

/// Reports that keep asking for the same target bring it within three frames,
/// at the latest after as many reports as the distance counts frames.
pub proof fn nudges_converge(prev: int, wanted: int, n: nat)
    requires
        prev >= 0,
        wanted >= 0,
        n >= distance(prev, wanted),
    ensures
        distance(nudged_often(prev, wanted, n), wanted) < 4,
{
    lemma_nudged_often(prev, wanted, n);
}

proof fn lemma_nudged_often(prev: int, wanted: int, n: nat)
    requires
        prev >= 0,
        wanted >= 0,
    ensures
        nudged_often(prev, wanted, n) >= 0,
        distance(nudged_often(prev, wanted, n), wanted) < 4 || distance(
            nudged_often(prev, wanted, n),
            wanted,
        ) <= distance(prev, wanted) - n,
    decreases n,
{
    if n > 0 {
        lemma_nudged_often(prev, wanted, (n - 1) as nat);
        nudge_stays_between(nudged_often(prev, wanted, (n - 1) as nat), wanted);
    }
}

/// A report moves the target a quarter of the way, to within a frame, and never past
/// what it asks for. Where a quarter of the way would lead below zero the target is
/// zero. This holds of all that `smooth_target` may return, for every target and
/// every wish.
pub proof fn report_moves_the_target_a_quarter(prev: usize, wanted: i64, next: usize)
    requires
        is_nudged(prev, wanted, next),
    ensures
        ({
            let p: int = if prev < 0x8000_0000_0000_0000 {
                prev as int
            } else {
                prev - 0x1_0000_0000_0000_0000
            };
            &&& p >= 0 && p <= wanted ==> p <= next <= wanted
            &&& 0 <= wanted <= p ==> wanted <= next <= p
            &&& p <= wanted && next > 0 ==> 4 * (next - p) <= wanted - p < 4 * (next - p) + 4
            &&& p >= wanted && next > 0 ==> 4 * (p - next) <= p - wanted < 4 * (p - next) + 4
            &&& p <= wanted && next == 0 ==> wanted - p < 4 * (1 - p)
            &&& p >= wanted && next == 0 ==> p - wanted >= 4 * p
        }),
{
}

/// A greater wish never gives a smaller target, and a greater target before never a
/// smaller one after.
pub proof fn greater_wishes_give_greater_targets(
    prev: usize,
    wanted: i64,
    next: usize,
    prev2: usize,
    wanted2: i64,
    next2: usize,
)
    requires
        is_nudged(prev, wanted, next),
        is_nudged(prev2, wanted2, next2),
        prev <= prev2 < 0x8000_0000_0000_0000,
        wanted <= wanted2,
    ensures
        next <= next2,
{
}

/// The fallback target is the wish itself wherever that lies between a twentieth and
/// half of a second, and otherwise the nearer of the two.
pub proof fn fallback_is_the_nearest_allowed(frames: int, sample_rate: u32)
    ensures
        ({
            let r = fallback(frames, sample_rate);
            let low = sample_rate as int / 20;
            let high = sample_rate as int / 2;
            &&& low <= r <= high
            &&& low <= frames <= high ==> r == frames
            &&& frames <= low ==> r == low
            &&& frames >= high ==> r == high
        }),
{
    assert(FALLBACK_MIN_MS * sample_rate == 50 * sample_rate);
    assert(FALLBACK_MAX_MS * sample_rate == 500 * sample_rate);
}

} // verus!
