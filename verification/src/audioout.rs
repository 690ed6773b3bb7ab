//! The local speakers: a ring that is primed with silence, the end that fills
//! it, and the end that the output callback drains.
use std::sync::atomic::AtomicUsize;
use std::sync::Arc;
use crate::ring::{
    accepted, arrived, capacity, count_set, follows, grows, kept, released, room, sample_ring,
    samples_arrive_in_order, smaller, stream_in, stream_out, taken, SampleConsumer, SampleProducer,
};
use crate::target::{as_signed, signed};
use crate::window::RatioWindow;
use vstd::prelude::*;

verus! {

/// The delay that the speakers start with, in frames.
pub open spec fn delay_frames(sample_rate: u32, initial_delay_ms: u32) -> int {
    sample_rate * initial_delay_ms / 1000
}

/// The size of the ring: the priming silence and one second of audio, for all
/// channels.
pub open spec fn ring_size(sample_rate: u32, initial_delay_ms: u32, channels: u16) -> int {
    (delay_frames(sample_rate, initial_delay_ms) + sample_rate) * channels
}

/// `n` samples of silence.
pub open spec fn silence(n: nat) -> Seq<i16> {
    Seq::new(n, |i: int| 0i16)
}

/// Every sample of `samples`, once for each channel.
pub open spec fn duplicated(samples: Seq<i16>, channels: nat) -> Seq<i16>
    decreases samples.len(),
{
    if samples.len() == 0 {
        Seq::empty()
    } else {
        duplicated(samples.drop_last(), channels) + Seq::new(channels, |i: int| samples.last())
    }
}

/// `items` were offered one by one to the end of a ring of `size`, with `before`
/// samples in its log. When item `j` came, `seen[j]` samples had been released, and
/// it was put in, with its place in `mask` set, if and only if there was room.
pub open spec fn offered(
    items: Seq<i16>,
    mask: Seq<bool>,
    seen: Seq<nat>,
    before: nat,
    size: nat,
) -> bool {
    &&& mask.len() == items.len()
    &&& seen.len() == items.len()
    &&& forall|j: int|
        0 <= j < mask.len() ==> #[trigger] mask[j] == (before + kept(
            items.take(j),
            mask.take(j),
        ).len() < size + seen[j])
}

proof fn lemma_grows_push(seen: Seq<nat>, first: nat, last: nat, now: nat)
    requires
        grows(seen, first, last),
        last <= now,
    ensures
        grows(seen.push(now), first, now),
{
    let seen2 = seen.push(now);
    assert forall|i: int| 0 <= i < seen2.len() implies first <= #[trigger] seen2[i] <= now by {
        if i < seen.len() {
            assert(first <= seen[i] <= last);
        }
    }
    assert forall|i: int, j: int| 0 <= i <= j < seen2.len() implies #[trigger] seen2[i]
        <= #[trigger] seen2[j] by {
        if j < seen.len() {
            assert(seen[i] <= seen[j]);
        }
    }
}

proof fn lemma_kept_push(items: Seq<i16>, mask: Seq<bool>, x: i16, b: bool)
    requires
        mask.len() == items.len(),
    ensures
        kept(items.push(x), mask.push(b)) == if b {
            kept(items, mask).push(x)
        } else {
            kept(items, mask)
        },
{
    assert(items.push(x).drop_last() =~= items);
    assert(mask.push(b).drop_last() =~= mask);
}

proof fn lemma_offered_push(
    items: Seq<i16>,
    mask: Seq<bool>,
    seen: Seq<nat>,
    before: nat,
    size: nat,
    x: i16,
    b: bool,
    now: nat,
)
    requires
        offered(items, mask, seen, before, size),
        b == (before + kept(items, mask).len() < size + now),
    ensures
        offered(items.push(x), mask.push(b), seen.push(now), before, size),
        kept(items.push(x), mask.push(b)) == if b {
            kept(items, mask).push(x)
        } else {
            kept(items, mask)
        },
{
    lemma_kept_push(items, mask, x, b);
    let items2 = items.push(x);
    let mask2 = mask.push(b);
    let seen2 = seen.push(now);
    assert forall|j: int| 0 <= j < mask2.len() implies #[trigger] mask2[j] == (before + kept(
        items2.take(j),
        mask2.take(j),
    ).len() < size + seen2[j]) by {
        assert(items2.take(j) =~= items.take(j));
        assert(mask2.take(j) =~= mask.take(j));
        if j < mask.len() {
            assert(mask2[j] == mask[j]);
            assert(seen2[j] == seen[j]);
        } else {
            assert(items.take(j) =~= items);
            assert(mask.take(j) =~= mask);
        }
    }
}

proof fn lemma_kept_len(items: Seq<i16>, mask: Seq<bool>)
    requires
        mask.len() == items.len(),
    ensures
        kept(items, mask).len() <= items.len(),
    decreases items.len(),
{
    if items.len() > 0 {
        lemma_kept_len(items.drop_last(), mask.drop_last());
    }
}

proof fn lemma_kept_all(items: Seq<i16>, mask: Seq<bool>)
    requires
        mask.len() == items.len(),
        forall|j: int| 0 <= j < mask.len() ==> #[trigger] mask[j],
    ensures
        kept(items, mask) == items,
    decreases items.len(),
{
    if items.len() > 0 {
        lemma_kept_all(items.drop_last(), mask.drop_last());
        assert(kept(items, mask) =~= items);
    }
}

/// Nothing is dropped while there is room for all.
pub proof fn room_for_all_keeps_all(
    items: Seq<i16>,
    mask: Seq<bool>,
    seen: Seq<nat>,
    before: nat,
    size: nat,
    first: nat,
    last: nat,
)
    requires
        offered(items, mask, seen, before, size),
        grows(seen, first, last),
        before + items.len() <= size + first,
    ensures
        kept(items, mask) == items,
{
    assert forall|j: int| 0 <= j < mask.len() implies #[trigger] mask[j] by {
        lemma_kept_len(items.take(j), mask.take(j));
        assert(first <= seen[j]);
    }
    lemma_kept_all(items, mask);
}

/// The front of `items` for which there is room.
pub open spec fn fitting_part(items: Seq<i16>, room: int) -> Seq<i16> {
    items.take(smaller(room, items.len() as int))
}

proof fn lemma_fitting_push(log: Seq<i16>, items: Seq<i16>, x: i16, room: int)
    requires
        room >= 0,
    ensures
        (log + fitting_part(items, room)).len() == log.len() + smaller(room, items.len() as int),
        log + fitting_part(items.push(x), room) == if items.len() < room {
            (log + fitting_part(items, room)).push(x)
        } else {
            log + fitting_part(items, room)
        },
{
    if items.len() < room {
        assert(fitting_part(items, room) =~= items);
        assert(fitting_part(items.push(x), room) =~= items.push(x));
        assert(log + items.push(x) =~= (log + items).push(x));
    } else {
        assert(fitting_part(items.push(x), room) =~= fitting_part(items, room));
    }
}

/// A ring with room for whole frames keeps whole frames: exactly the first samples
/// are queued, each on all channels.
pub proof fn full_ring_keeps_whole_frames(samples: Seq<i16>, channels: nat, frames: nat)
    ensures
        fitting_part(duplicated(samples, channels), (frames * channels) as int) == duplicated(
            samples.take(smaller(frames as int, samples.len() as int)),
            channels,
        ),
{
    let n: int = samples.len() as int;
    lemma_duplicated_len(samples, channels);
    if frames <= n {
        assert(frames * channels <= n * channels) by (nonlinear_arith)
            requires
                frames <= n,
        ;
        lemma_duplicated_take(samples, channels, frames as int);
    } else {
        assert(frames * channels >= n * channels) by (nonlinear_arith)
            requires
                frames > n,
        ;
        assert(samples.take(n) =~= samples);
        assert(fitting_part(duplicated(samples, channels), (frames * channels) as int)
            =~= duplicated(samples, channels));
    }
}

proof fn lemma_duplicated_take(samples: Seq<i16>, channels: nat, k: int)
    requires
        0 <= k <= samples.len(),
    ensures
        k * channels <= duplicated(samples, channels).len(),
        duplicated(samples, channels).take(k * channels) == duplicated(samples.take(k), channels),
    decreases samples.len(),
{
    let all = duplicated(samples, channels);
    lemma_duplicated_len(samples, channels);
    if k == samples.len() {
        assert(samples.take(k) =~= samples);
        assert(all.take(k * channels) =~= all);
    } else {
        let front = samples.drop_last();
        lemma_duplicated_take(front, channels, k);
        lemma_duplicated_len(front, channels);
        assert(0 <= k * channels) by (nonlinear_arith)
            requires
                0 <= k,
        ;
        assert(all.take(k * channels) =~= duplicated(front, channels).take(k * channels));
        assert(front.take(k) =~= samples.take(k));
    }
}

/// Each frame of the speakers plays one sample on all channels.
pub proof fn duplicated_frames(samples: Seq<i16>, channels: nat, i: int, c: int)
    requires
        0 <= i < samples.len(),
        0 <= c < channels,
    ensures
        duplicated(samples, channels).len() == samples.len() * channels,
        0 <= i * channels + c < samples.len() * channels,
        duplicated(samples, channels)[i * channels + c] == samples[i],
    decreases samples.len(),
{
    let front = samples.drop_last();
    lemma_duplicated_len(samples, channels);
    lemma_duplicated_len(front, channels);
    let n: int = samples.len() as int;
    assert(i * channels + c < n * channels && 0 <= i * channels) by (nonlinear_arith)
        requires
            0 <= i < n,
            0 <= c < channels,
    ;
    if i < n - 1 {
        duplicated_frames(front, channels, i, c);
    } else {
        assert(i == n - 1);
    }
}

proof fn lemma_duplicated_len(samples: Seq<i16>, channels: nat)
    ensures
        duplicated(samples, channels).len() == samples.len() * channels,
    decreases samples.len(),
{
    if samples.len() > 0 {
        let n: int = samples.len() as int;
        lemma_duplicated_len(samples.drop_last(), channels);
        assert(n * channels == (n - 1) * channels + channels) by (nonlinear_arith);
    } else {
        assert(0 * channels == 0) by (nonlinear_arith);
    }
}

/// `Arc::clone`. Trusted: another handle to the same value.
#[verifier::external_body]
fn share(handle: &Arc<AtomicUsize>) -> (r: Arc<AtomicUsize>)
    ensures
        r == *handle,
{
    Arc::clone(handle)
}

/// The end that fills the speaker ring.
pub struct AudioOut {
    pub producer: SampleProducer,
    pub channels: usize,
    pub sample_rate: usize,
    pub push_count: u64,
    pub target_delay_frames: Arc<AtomicUsize>,
}

impl AudioOut {
    /// The log follows the stream of the ring.
    pub open spec fn wf(self) -> bool {
        follows(accepted(self.producer), stream_in(self.producer))
    }

    /// A ring for a device with `channels` channels at `sample_rate`, primed so
    /// that the speakers run `initial_delay_ms` behind, and the end that drains
    /// it. The shared target starts out as that delay; the contents of shared
    /// memory cannot be named in a contract, so that is left unsaid.
    pub fn new(initial_delay_ms: u32, sample_rate: u32, channels: u16) -> (r: (
        AudioOut,
        OutputFeed,
    ))
        requires
            0 < channels,
            0 < sample_rate,
            sample_rate * initial_delay_ms <= usize::MAX,
            2 * ring_size(sample_rate, initial_delay_ms, channels) <= isize::MAX,
        ensures
            r.0.wf(),
            stream_in(r.0.producer) == stream_out(r.1.consumer),
            r.0.channels == channels,
            r.0.sample_rate == sample_rate,
            r.0.push_count == 0,
            capacity(r.0.producer) == ring_size(sample_rate, initial_delay_ms, channels),
            accepted(r.0.producer) == silence(
                (delay_frames(sample_rate, initial_delay_ms) * channels) as nat,
            ),
            room(r.0.producer) >= sample_rate * channels,
            r.1.wf(),
            r.1.channels == channels,
            r.1.prev@ == silence(channels as nat),
            r.1.next@ == silence(channels as nat),
            arrived(r.1.consumer) == Seq::<i16>::empty(),
            taken(r.1.consumer) == 0,
            r.1.window.sample_rate == sample_rate,
            r.1.window.step == 0,
            r.1.window.window_frames == 0,
            r.1.window.frames_total == 0,
            r.1.window.anchor is None,
            r.1.window.start_target == delay_frames(sample_rate, initial_delay_ms),
    {
        let rate: usize = sample_rate as usize;
        let width: usize = channels as usize;
        let delay: usize = rate * (initial_delay_ms as usize) / 1000;
        proof {
            let d: int = delay as int;
            let s: int = sample_rate as int;
            let c: int = channels as int;
            assert(d * c + s * c == (d + s) * c) by (nonlinear_arith);
            assert(0 <= d * c && s <= s * c && d + s <= (d + s) * c) by (nonlinear_arith)
                requires
                    d >= 0,
                    s > 0,
                    c >= 1,
            ;
        }
        let size: usize = (delay + rate) * width;
        let (mut producer, consumer) = sample_ring(size);
        let primed: usize = delay * width;
        let mut i: usize = 0;
        while i < primed
            invariant
                i <= primed <= size,
                capacity(producer) == size,
                accepted(producer) == silence(i as nat),
                stream_in(producer) == stream_out(consumer),
                follows(accepted(producer), stream_in(producer)),
            decreases primed - i,
        {
            let _ = producer.try_push(0);
            i = i + 1;
            assert(accepted(producer) =~= silence(i as nat));
        }
        let feed = OutputFeed {
            consumer,
            channels: width,
            prev: silent_frame(width),
            next: silent_frame(width),
            window: RatioWindow::new(sample_rate, delay),
        };
        let out = AudioOut {
            producer,
            channels: width,
            sample_rate: rate,
            push_count: 0,
            target_delay_frames: Arc::new(AtomicUsize::new(delay)),
        };
        (out, feed)
    }

    /// The shared target delay, which reports from the tablet move.
    pub fn target_handle(&self) -> (r: Arc<AtomicUsize>)
        ensures
            r == self.target_delay_frames,
    {
        share(&self.target_delay_frames)
    }

    /// The sample rate of the device.
    pub fn sample_rate(&self) -> (r: usize)
        ensures
            r == self.sample_rate,
    {
        self.sample_rate
    }

    /// Puts each sample into the ring, once for each channel. A sample that finds
    /// the ring full is dropped.
    pub fn push(&mut self, samples: &[i16])
        requires
            old(self).push_count < u64::MAX,
        ensures
            final(self).channels == old(self).channels,
            final(self).sample_rate == old(self).sample_rate,
            final(self).target_delay_frames == old(self).target_delay_frames,
            final(self).push_count == old(self).push_count + 1,
            old(self).wf() ==> final(self).wf(),
            stream_in(final(self).producer) == stream_in(old(self).producer),
            capacity(final(self).producer) == capacity(old(self).producer),
            released(old(self).producer) <= released(final(self).producer),
            exists|mask: Seq<bool>, seen: Seq<nat>|
                {
                    &&& #[trigger] offered(
                        duplicated(samples@, old(self).channels as nat),
                        mask,
                        seen,
                        accepted(old(self).producer).len(),
                        capacity(old(self).producer),
                    )
                    &&& grows(
                        seen,
                        released(old(self).producer),
                        released(final(self).producer),
                    )
                    &&& accepted(final(self).producer) == accepted(old(self).producer) + kept(
                        duplicated(samples@, old(self).channels as nat),
                        mask,
                    )
                },
            room(old(self).producer) >= samples@.len() * old(self).channels ==> accepted(
                final(self).producer,
            ) == accepted(old(self).producer) + duplicated(
                samples@,
                old(self).channels as nat,
            ),
            room(old(self).producer) >= 0 ==> room(final(self).producer) >= 0,
            released(final(self).producer) == released(old(self).producer) && room(
                old(self).producer,
            ) >= 0 ==> accepted(final(self).producer) == accepted(old(self).producer) + fitting_part(
                duplicated(samples@, old(self).channels as nat),
                room(old(self).producer),
            ),
    {
        let width: usize = self.channels;
        let ghost log: Seq<i16> = accepted(self.producer);
        let ghost free: int = room(self.producer);
        let ghost mut items: Seq<i16> = Seq::empty();
        let ghost mut mask: Seq<bool> = Seq::empty();
        let ghost mut seen: Seq<nat> = Seq::empty();
        let ghost size: nat = capacity(self.producer);
        let mut i: usize = 0;
        assert(log + kept(items, mask) =~= log);
        assert(free >= 0 ==> log + fitting_part(items, free) =~= log);
        assert(samples@.take(0) =~= Seq::empty());
        while i < samples.len()
            invariant
                i <= samples.len(),
                width == self.channels,
                self.channels == old(self).channels,
                self.sample_rate == old(self).sample_rate,
                self.target_delay_frames == old(self).target_delay_frames,
                self.push_count == old(self).push_count,
                old(self).wf() ==> self.wf(),
                stream_in(self.producer) == stream_in(old(self).producer),
                capacity(self.producer) == capacity(old(self).producer),
                released(old(self).producer) <= released(self.producer),
                log == accepted(old(self).producer),
                items == duplicated(samples@.take(i as int), width as nat),
                size == capacity(old(self).producer),
                offered(items, mask, seen, log.len(), size),
                grows(seen, released(old(self).producer), released(self.producer)),
                accepted(self.producer) == log + kept(items, mask),
                free == room(old(self).producer),
                free >= 0 ==> room(self.producer) >= 0,
                released(self.producer) == released(old(self).producer) && free >= 0 ==> accepted(
                    self.producer,
                ) == log + fitting_part(items, free),
            decreases samples.len() - i,
        {
            let s: i16 = samples[i];
            let ghost base: Seq<i16> = items;
            let mut c: usize = 0;
            assert(items =~= base + Seq::new(0, |k: int| s));
            while c < width
                invariant
                    c <= width,
                    width == self.channels,
                    self.channels == old(self).channels,
                    self.sample_rate == old(self).sample_rate,
                    self.target_delay_frames == old(self).target_delay_frames,
                    self.push_count == old(self).push_count,
                    old(self).wf() ==> self.wf(),
                    stream_in(self.producer) == stream_in(old(self).producer),
                    capacity(self.producer) == capacity(old(self).producer),
                    released(old(self).producer) <= released(self.producer),
                    log == accepted(old(self).producer),
                    items == base + Seq::new(c as nat, |k: int| s),
                    size == capacity(old(self).producer),
                    offered(items, mask, seen, log.len(), size),
                    grows(seen, released(old(self).producer), released(self.producer)),
                    accepted(self.producer) == log + kept(items, mask),
                    free == room(old(self).producer),
                    free >= 0 ==> room(self.producer) >= 0,
                    released(self.producer) == released(old(self).producer) && free >= 0
                        ==> accepted(self.producer) == log + fitting_part(items, free),
                decreases width - c,
            {
                let ghost before: nat = released(self.producer);
                let ok: bool = self.producer.try_push(s).is_ok();
                proof {
                    let now: nat = released(self.producer);
                    lemma_offered_push(items, mask, seen, log.len(), size, s, ok, now);
                    lemma_grows_push(seen, released(old(self).producer), before, now);
                    if free >= 0 {
                        lemma_fitting_push(log, items, s, free);
                    }
                    if ok {
                        assert(log + kept(items, mask).push(s) =~= (log + kept(items, mask)).push(
                            s,
                        ));
                    }
                    items = items.push(s);
                    mask = mask.push(ok);
                    seen = seen.push(now);
                }
                c = c + 1;
                assert(items =~= base + Seq::new(c as nat, |k: int| s));
            }
            proof {
                let now = samples@.take(i + 1);
                assert(now.drop_last() =~= samples@.take(i as int));
                assert(duplicated(now, width as nat) =~= items);
            }
            i = i + 1;
        }
        assert(samples@.take(i as int) =~= samples@);
        self.push_count = self.push_count + 1;
        proof {
            lemma_duplicated_len(samples@, width as nat);
            if room(old(self).producer) >= samples@.len() * old(self).channels {
                room_for_all_keeps_all(
                    items,
                    mask,
                    seen,
                    log.len(),
                    size,
                    released(old(self).producer),
                    released(self.producer),
                );
            }
        }
    }
}

/// One frame of silence.
fn silent_frame(channels: usize) -> (r: Vec<i16>)
    ensures
        r@ == silence(channels as nat),
{
    let mut r: Vec<i16> = Vec::with_capacity(channels);
    let mut i: usize = 0;
    while i < channels
        invariant
            i <= channels,
            r@ == silence(i as nat),
        decreases channels - i,
    {
        r.push(0);
        i = i + 1;
        assert(r@ =~= silence(i as nat));
    }
    r
}

/// What the output callback keeps: the end that drains the ring, the two frames
/// between which it interpolates, and the window in which it measures.
pub struct OutputFeed {
    pub consumer: SampleConsumer,
    pub channels: usize,
    pub prev: Vec<i16>,
    pub next: Vec<i16>,
    pub window: RatioWindow,
}

impl OutputFeed {
    /// Both frames have a sample for each channel, and the log follows the stream
    /// of the ring.
    pub open spec fn wf(self) -> bool {
        &&& 0 < self.channels
        &&& self.prev@.len() == self.channels
        &&& self.next@.len() == self.channels
        &&& self.window.wf()
        &&& follows(arrived(self.consumer), stream_out(self.consumer))
    }

    /// How many whole frames wait in the ring.
    pub fn fill_frames(&mut self) -> (r: usize)
        requires
            old(self).wf(),
        ensures
            final(self).wf(),
            final(self).channels == old(self).channels,
            final(self).prev@ == old(self).prev@,
            final(self).next@ == old(self).next@,
            final(self).window == old(self).window,
            stream_out(final(self).consumer) == stream_out(old(self).consumer),
            arrived(old(self).consumer).is_prefix_of(arrived(final(self).consumer)),
            taken(final(self).consumer) == taken(old(self).consumer),
            r == (arrived(final(self).consumer).len() - taken(old(self).consumer))
                / old(self).channels as int,
    {
        let waiting: usize = self.consumer.occupied_len();
        waiting / self.channels
    }

    /// Steps to the next frame. Where the ring has run dry, the channel holds its
    /// last sample, which makes no click.
    pub fn advance(&mut self)
        requires
            old(self).wf(),
        ensures
            final(self).wf(),
            final(self).channels == old(self).channels,
            final(self).window == old(self).window,
            final(self).prev@ == old(self).next@,
            stream_out(final(self).consumer) == stream_out(old(self).consumer),
            arrived(old(self).consumer).is_prefix_of(arrived(final(self).consumer)),
            exists|mask: Seq<bool>, seen: Seq<nat>|
                {
                    &&& #[trigger] popped(mask, seen, taken(old(self).consumer))
                    &&& grows(
                        seen,
                        arrived(old(self).consumer).len(),
                        arrived(final(self).consumer).len(),
                    )
                    &&& mask.len() == old(self).channels
                    &&& taken(final(self).consumer) == taken(old(self).consumer) + count_set(mask)
                    &&& taken(final(self).consumer) <= arrived(final(self).consumer).len()
                    &&& final(self).next@ == held(
                        arrived(final(self).consumer),
                        taken(old(self).consumer),
                        old(self).next@,
                        mask,
                    )
                },
            taken(old(self).consumer) + old(self).channels <= arrived(old(self).consumer).len()
                ==> taken(final(self).consumer) == taken(old(self).consumer) + old(self).channels
                && final(self).next@ == arrived(old(self).consumer).subrange(
                taken(old(self).consumer) as int,
                taken(old(self).consumer) + old(self).channels,
            ),
    {
        std::mem::swap(&mut self.prev, &mut self.next);
        let ghost last: Seq<i16> = old(self).next@;
        let ghost start: nat = taken(self.consumer);
        let ghost mut mask: Seq<bool> = Seq::empty();
        let ghost mut counts: Seq<nat> = Seq::empty();
        let width: usize = self.channels;
        let mut c: usize = 0;
        while c < width
            invariant
                c <= width,
                width == self.channels == old(self).channels,
                self.window == old(self).window,
                self.prev@ == last,
                last == old(self).next@,
                last.len() == width,
                self.next@.len() == width,
                start == taken(old(self).consumer),
                mask.len() == c,
                arrived(old(self).consumer).is_prefix_of(arrived(self.consumer)),
                stream_out(self.consumer) == stream_out(old(self).consumer),
                follows(arrived(self.consumer), stream_out(self.consumer)),
                taken(self.consumer) == start + count_set(mask),
                c > 0 ==> taken(self.consumer) <= arrived(self.consumer).len(),
                popped(mask, counts, start),
                grows(counts, arrived(old(self).consumer).len(), arrived(self.consumer).len()),
                self.next@.take(c as int) == held(arrived(self.consumer), start, last, mask),
            decreases width - c,
        {
            let ghost seen: Seq<i16> = arrived(self.consumer);
            let r: Option<i16> = self.consumer.try_pop();
            let s: i16 = match r {
                Some(s) => s,
                None => self.prev[c],
            };
            let ghost before: Seq<i16> = self.next@;
            self.next[c] = s;
            proof {
                let now = arrived(self.consumer);
                lemma_prefix_trans(arrived(old(self).consumer), seen, now);
                lemma_held_grows(seen, now, start, last, mask);
                lemma_popped_push(mask, counts, start, r is Some, now.len());
                lemma_grows_push(counts, arrived(old(self).consumer).len(), seen.len(), now.len());
                let mask2 = mask.push(r is Some);
                lemma_held_push(now, start, last, mask, r is Some);
                assert(self.next@.take(c + 1) =~= before.take(c as int).push(s));
                mask = mask2;
                counts = counts.push(now.len());
            }
            c = c + 1;
        }
        proof {
            assert(self.next@.take(width as int) =~= self.next@);
            let seen = arrived(old(self).consumer);
            if start + width <= seen.len() {
                lemma_popped_all(mask, counts, start, seen.len(), arrived(self.consumer).len());
                assert forall|k: int| 0 <= k < width implies self.next@[k] == seen[start + k] by {
                    lemma_count_all(mask.take(k));
                    assert(held(arrived(self.consumer), start, last, mask)[k] == arrived(
                        self.consumer,
                    )[start + k]);
                    lemma_prefix_index(seen, arrived(self.consumer), start + k);
                }
                lemma_count_all(mask);
                assert(self.next@ =~= seen.subrange(start as int, start + width));
            }
        }
    }
}

/// Samples were taken one by one by a ring end that had taken `start`. When channel
/// `c` came, `seen[c]` samples had come in, and it got one, with its place in `mask`
/// set, if and only if one was left.
pub open spec fn popped(mask: Seq<bool>, seen: Seq<nat>, start: nat) -> bool {
    &&& seen.len() == mask.len()
    &&& forall|c: int|
        0 <= c < mask.len() ==> #[trigger] mask[c] == (start + count_set(mask.take(c)) < seen[c])
}

/// A frame from the samples of `stream` after the first `start`: a channel with
/// its place in `mask` set has the next sample, any other keeps that of `last`.
pub open spec fn held(
    stream: Seq<i16>,
    start: nat,
    last: Seq<i16>,
    mask: Seq<bool>,
) -> Seq<i16> {
    Seq::new(
        mask.len(),
        |c: int|
            if mask[c] {
                stream[(start + count_set(mask.take(c))) as int]
            } else {
                last[c]
            },
    )
}

proof fn lemma_prefix_index(a: Seq<i16>, b: Seq<i16>, i: int)
    requires
        a.is_prefix_of(b),
        0 <= i < a.len(),
    ensures
        a[i] == b[i],
{
    assert(a[i] == b.subrange(0, a.len() as int)[i]);
}

proof fn lemma_prefix_trans(a: Seq<i16>, b: Seq<i16>, c: Seq<i16>)
    requires
        a.is_prefix_of(b),
        b.is_prefix_of(c),
    ensures
        a.is_prefix_of(c),
{
    assert forall|i: int| 0 <= i < a.len() implies a[i] == c[i] by {
        lemma_prefix_index(a, b, i);
        lemma_prefix_index(b, c, i);
    }
    assert(a =~= c.subrange(0, a.len() as int));
}

/// One more step that is set counts one more.
proof fn lemma_count_take(mask: Seq<bool>, c: int)
    requires
        0 <= c < mask.len(),
        mask[c],
    ensures
        count_set(mask.take(c)) < count_set(mask),
    decreases mask.len(),
{
    let front = mask.drop_last();
    if c < front.len() {
        lemma_count_take(front, c);
        assert(front.take(c) =~= mask.take(c));
    } else {
        assert(front =~= mask.take(c));
    }
}

proof fn lemma_count_all(mask: Seq<bool>)
    requires
        forall|c: int| 0 <= c < mask.len() ==> #[trigger] mask[c],
    ensures
        count_set(mask) == mask.len(),
    decreases mask.len(),
{
    if mask.len() > 0 {
        lemma_count_all(mask.drop_last());
    }
}

proof fn lemma_count_len(mask: Seq<bool>)
    ensures
        count_set(mask) <= mask.len(),
    decreases mask.len(),
{
    if mask.len() > 0 {
        lemma_count_len(mask.drop_last());
    }
}

proof fn lemma_popped_push(mask: Seq<bool>, seen: Seq<nat>, start: nat, b: bool, now: nat)
    requires
        popped(mask, seen, start),
        b == (start + count_set(mask) < now),
    ensures
        popped(mask.push(b), seen.push(now), start),
        count_set(mask.push(b)) == count_set(mask) + if b {
            1nat
        } else {
            0nat
        },
{
    let mask2 = mask.push(b);
    let seen2 = seen.push(now);
    assert(mask2.drop_last() =~= mask);
    assert forall|c: int| 0 <= c < mask2.len() implies #[trigger] mask2[c] == (start + count_set(
        mask2.take(c),
    ) < seen2[c]) by {
        assert(mask2.take(c) =~= mask.take(c));
        if c < mask.len() {
            assert(mask2[c] == mask[c]);
            assert(seen2[c] == seen[c]);
        } else {
            assert(mask.take(c) =~= mask);
        }
    }
}

proof fn lemma_popped_all(mask: Seq<bool>, seen: Seq<nat>, start: nat, first: nat, last: nat)
    requires
        popped(mask, seen, start),
        grows(seen, first, last),
        start + mask.len() <= first,
    ensures
        forall|c: int| 0 <= c < mask.len() ==> #[trigger] mask[c],
{
    assert forall|c: int| 0 <= c < mask.len() implies #[trigger] mask[c] by {
        lemma_count_len(mask.take(c));
        assert(first <= seen[c]);
    }
}

proof fn lemma_held_push(stream: Seq<i16>, start: nat, last: Seq<i16>, mask: Seq<bool>, b: bool)
    ensures
        held(stream, start, last, mask.push(b)) == held(stream, start, last, mask).push(
            if b {
                stream[(start + count_set(mask)) as int]
            } else {
                last[mask.len() as int]
            },
        ),
{
    let mask2 = mask.push(b);
    assert forall|c: int| 0 <= c <= mask.len() implies mask2.take(c) == mask.take(c) by {
        assert(mask2.take(c) =~= mask.take(c));
    }
    assert(mask.take(mask.len() as int) =~= mask);
    assert(held(stream, start, last, mask2) =~= held(stream, start, last, mask).push(
        if b {
            stream[(start + count_set(mask)) as int]
        } else {
            last[mask.len() as int]
        },
    ));
}

proof fn lemma_held_grows(a: Seq<i16>, b: Seq<i16>, start: nat, last: Seq<i16>, mask: Seq<bool>)
    requires
        a.is_prefix_of(b),
        mask.len() > 0 ==> start + count_set(mask) <= a.len(),
    ensures
        held(a, start, last, mask) == held(b, start, last, mask),
{
    assert forall|c: int| 0 <= c < mask.len() && #[trigger] mask[c] implies a[(start
        + count_set(mask.take(c))) as int] == b[(start + count_set(mask.take(c))) as int] by {
        lemma_count_take(mask, c);
        lemma_prefix_index(a, b, (start + count_set(mask.take(c))) as int);
    }
    assert(held(a, start, last, mask) =~= held(b, start, last, mask));
}

/// The speakers run behind by exactly the delay that the ring was primed with.
/// While nothing was dropped, the frames that come out are first `delay` frames of
/// silence and then the pushed samples in order, each on all channels.
pub proof fn speakers_run_behind_by_the_delay(
    prod: SampleProducer,
    cons: SampleConsumer,
    delay: nat,
    samples: Seq<i16>,
    channels: nat,
    k: int,
    c: int,
)
    requires
        stream_in(prod) == stream_out(cons),
        follows(accepted(prod), stream_in(prod)),
        follows(arrived(cons), stream_out(cons)),
        accepted(prod) == silence(delay * channels) + duplicated(samples, channels),
        0 <= k < delay + samples.len(),
        0 <= c < channels,
        k * channels + c < arrived(cons).len(),
    ensures
        arrived(cons)[k * channels + c] == if k < delay {
            0
        } else {
            samples[k - delay]
        },
{
    let primed = silence(delay * channels);
    let at: int = k * channels + c;
    lemma_duplicated_len(samples, channels);
    assert(0 <= k * channels) by (nonlinear_arith)
        requires
            0 <= k,
            0 <= channels,
    ;
    if k < delay {
        assert(k * channels + c < delay * channels) by (nonlinear_arith)
            requires
                0 <= k < delay,
                0 <= c < channels,
        ;
    } else {
        duplicated_frames(samples, channels, k - delay, c);
        assert(k * channels == delay * channels + (k - delay) * channels) by (nonlinear_arith);
    }
    samples_arrive_in_order(prod, cons, at);
}

/// How far the fill of the ring is above the target, in frames.
pub fn fill_error(fill_frames: usize, target: usize) -> (err: i64)
    requires
        i64::MIN <= signed(fill_frames) - signed(target) <= i64::MAX,
    ensures
        err == signed(fill_frames) - signed(target),
        fill_frames < 0x8000_0000_0000_0000 && target < 0x8000_0000_0000_0000 ==> err == fill_frames
            - target,
{
    as_signed(fill_frames) - as_signed(target)
}

/// The delay in frames is the delay in milliseconds, rounded down, and the ring has
/// room for it and for a second more, on all channels.
pub proof fn ring_holds_the_delay_and_a_second(
    sample_rate: u32,
    initial_delay_ms: u32,
    channels: u16,
)
    ensures
        ({
            let d = delay_frames(sample_rate, initial_delay_ms);
            &&& d >= 0
            &&& d * 1000 <= sample_rate * initial_delay_ms < (d + 1) * 1000
            &&& ring_size(sample_rate, initial_delay_ms, channels) == d * channels + sample_rate
                * channels
        }),
{
    let d: int = delay_frames(sample_rate, initial_delay_ms);
    let r: int = sample_rate as int;
    let c: int = channels as int;
    assert(0 <= sample_rate * initial_delay_ms) by (nonlinear_arith);
    assert((d + r) * c == d * c + r * c) by (nonlinear_arith);
}

/// Silence is as long as asked for, and zero everywhere.
pub proof fn silence_is_zero(n: nat, i: int)
    requires
        0 <= i < n,
    ensures
        silence(n).len() == n,
        silence(n)[i] == 0,
{
}

/// Of samples that are offered one by one, each goes in if and only if the ring had a
/// free place when it came: it is never dropped while there is room, also after others
/// were dropped, and never overwrites what waits.
pub proof fn sample_goes_in_while_there_is_room(
    items: Seq<i16>,
    mask: Seq<bool>,
    seen: Seq<nat>,
    before: nat,
    size: nat,
    j: int,
)
    requires
        offered(items, mask, seen, before, size),
        0 <= j < items.len(),
    ensures
        mask.len() == items.len(),
        seen.len() == items.len(),
        mask[j] <==> before + kept(items.take(j), mask.take(j)).len() < size + seen[j],
{
    assert(mask[j] || !mask[j]);
}

/// A channel gets the next waiting sample if and only if one waited when it came, and
/// otherwise holds what it played last.
pub proof fn channel_takes_the_next_or_holds(
    stream: Seq<i16>,
    start: nat,
    last: Seq<i16>,
    mask: Seq<bool>,
    seen: Seq<nat>,
    c: int,
)
    requires
        popped(mask, seen, start),
        0 <= c < mask.len(),
    ensures
        ({
            let next = start + count_set(mask.take(c));
            &&& held(stream, start, last, mask).len() == mask.len()
            &&& seen.len() == mask.len()
            &&& mask[c] <==> next < seen[c]
            &&& next < seen[c] ==> held(stream, start, last, mask)[c] == stream[next as int]
            &&& next >= seen[c] ==> held(stream, start, last, mask)[c] == last[c]
        }),
{
    assert(mask[c] || !mask[c]);
}

/// The part that fits is the front of what was offered: all of it, or as much as there
/// is room for.
pub proof fn fitting_part_is_the_front(items: Seq<i16>, room: int, i: int)
    requires
        room >= 0,
    ensures
        fitting_part(items, room).len() <= room,
        fitting_part(items, room).len() == items.len() || fitting_part(items, room).len() == room
            && room < items.len(),
        0 <= i < fitting_part(items, room).len() ==> fitting_part(items, room)[i] == items[i],
{
}

} // verus!
