//! The two ends of a lock-free sample ring.
//!
//! The ends live on different threads, so neither can see what the ring holds
//! at this instant. Each end is described by what it alone decides: the
//! producer by the samples that it has put in, the consumer by the samples that
//! it has seen come in and how many of them it has taken out. What the other
//! end did in the meantime enters as an observation that only grows.
//!
//! Both ends belong to one stream: the sample at each place of the ring's whole
//! life. An end knows the stream as far as its own log goes, and the logs of both
//! ends follow the same stream.
use ringbuf::traits::{Consumer, Observer, Producer, Split};
use ringbuf::{HeapCons, HeapProd, HeapRb};
use vstd::prelude::*;

verus! {

/// The writing end of a `ringbuf` heap ring of samples.
#[verifier::external_body]
pub struct SampleProducer {
    inner: HeapProd<i16>,
}

/// The reading end of a `ringbuf` heap ring of samples.
#[verifier::external_body]
pub struct SampleConsumer {
    inner: HeapCons<i16>,
}

/// All samples that the ring has taken from this end since it was made, oldest
/// first.
pub uninterp spec fn accepted(prod: SampleProducer) -> Seq<i16>;

/// How many of those this end has seen to be taken out again.
pub uninterp spec fn released(prod: SampleProducer) -> nat;

/// How many samples the ring can hold at once.
pub uninterp spec fn capacity(prod: SampleProducer) -> nat;

/// All samples that this end has seen come in since the ring was made, oldest
/// first, those included that it has taken out.
pub uninterp spec fn arrived(cons: SampleConsumer) -> Seq<i16>;

/// How many of those this end has taken out.
pub uninterp spec fn taken(cons: SampleConsumer) -> nat;

/// The sample that the ring takes at each place, counted from the first one, over
/// its whole life. Places that are never filled hold anything.
pub uninterp spec fn stream_in(prod: SampleProducer) -> Map<nat, i16>;

/// The sample that the ring hands out at each place, counted from the first one,
/// over its whole life.
pub uninterp spec fn stream_out(cons: SampleConsumer) -> Map<nat, i16>;

/// A log holds the samples of a stream, each at its place.
pub open spec fn follows(log: Seq<i16>, stream: Map<nat, i16>) -> bool {
    forall|i: int| 0 <= i < log.len() ==> #[trigger] log[i] == stream[i as nat]
}

/// The places that this end knows to be free.
pub open spec fn room(prod: SampleProducer) -> int {
    capacity(prod) + released(prod) - accepted(prod).len()
}

/// The smaller of two numbers.
pub open spec fn smaller(a: int, b: int) -> int {
    if a <= b {
        a
    } else {
        b
    }
}

/// The counts in `seen` never fall, from `first` on, and end with `last`.
pub open spec fn grows(seen: Seq<nat>, first: nat, last: nat) -> bool {
    &&& forall|i: int| 0 <= i < seen.len() ==> first <= #[trigger] seen[i] <= last
    &&& forall|i: int, j: int|
        0 <= i <= j < seen.len() ==> #[trigger] seen[i] <= #[trigger] seen[j]
    &&& last == if seen.len() == 0 {
        first
    } else {
        seen.last()
    }
}

/// The samples of `items` whose place in `mask` is set, in order.
pub open spec fn kept(items: Seq<i16>, mask: Seq<bool>) -> Seq<i16>
    decreases items.len(),
{
    if items.len() == 0 {
        Seq::empty()
    } else if mask.last() {
        kept(items.drop_last(), mask.drop_last()).push(items.last())
    } else {
        kept(items.drop_last(), mask.drop_last())
    }
}

/// How many places of `mask` are set.
pub open spec fn count_set(mask: Seq<bool>) -> nat
    decreases mask.len(),
{
    if mask.len() == 0 {
        0
    } else {
        count_set(mask.drop_last()) + if mask.last() {
            1nat
        } else {
            0nat
        }
    }
}

/// `ringbuf::HeapRb::new`, then `split`: a new ring without samples, as its two
/// ends. Trusted: both logs start out empty, the ring holds `size` samples, and
/// both ends belong to one stream: the ring hands out what it took, in order. A
/// size of zero, or one beyond what can be allocated, panics there.
#[verifier::external_body]
pub(crate) fn sample_ring(size: usize) -> (ends: (SampleProducer, SampleConsumer))
    requires
        0 < size,
        2 * size <= isize::MAX,
    ensures
        accepted(ends.0) == Seq::<i16>::empty(),
        released(ends.0) == 0,
        capacity(ends.0) == size,
        arrived(ends.1) == Seq::<i16>::empty(),
        taken(ends.1) == 0,
        stream_in(ends.0) == stream_out(ends.1),
{
    let (prod, cons) = HeapRb::<i16>::new(size).split();
    (SampleProducer { inner: prod }, SampleConsumer { inner: cons })
}

impl SampleProducer {
    /// `ringbuf`'s `Producer::try_push`. Trusted: the sample is put in if and
    /// only if a place is free by the newest count of released places that the
    /// call looked at, and is handed back otherwise.
    #[verifier::external_body]
    pub(crate) fn try_push(&mut self, x: i16) -> (r: Result<(), i16>)
        ensures
            capacity(*final(self)) == capacity(*old(self)),
            stream_in(*final(self)) == stream_in(*old(self)),
            follows(accepted(*final(self)), stream_in(*final(self))),
            released(*old(self)) <= released(*final(self)) <= accepted(*old(self)).len(),
            r is Ok <==> accepted(*old(self)).len() < capacity(*old(self)) + released(*final(self)),
            r is Ok ==> accepted(*final(self)) == accepted(*old(self)).push(x),
            r is Err ==> accepted(*final(self)) == accepted(*old(self)) && r->Err_0 == x,
    {
        self.inner.try_push(x)
    }

    /// `ringbuf`'s `Producer::push_slice`. Trusted: as many samples as there are
    /// free places, by the newest count of released places, are put in from the
    /// front of `data`, and their number is returned.
    #[verifier::external_body]
    pub(crate) fn push_slice(&mut self, data: &[i16]) -> (n: usize)
        ensures
            capacity(*final(self)) == capacity(*old(self)),
            stream_in(*final(self)) == stream_in(*old(self)),
            follows(accepted(*final(self)), stream_in(*final(self))),
            released(*old(self)) <= released(*final(self)) <= accepted(*old(self)).len(),
            n == smaller(
                data@.len() as int,
                capacity(*old(self)) + released(*final(self)) - accepted(*old(self)).len(),
            ),
            accepted(*final(self)) == accepted(*old(self)) + data@.take(n as int),
    {
        self.inner.push_slice(data)
    }
}

impl SampleConsumer {
    /// `ringbuf`'s `Observer::occupied_len`. Trusted: looks at what has come in,
    /// takes nothing out, and returns how many samples wait. The receiver is
    /// exclusive because the call renews what this end has seen.
    #[verifier::external_body]
    pub(crate) fn occupied_len(&mut self) -> (n: usize)
        ensures
            arrived(*old(self)).is_prefix_of(arrived(*final(self))),
            stream_out(*final(self)) == stream_out(*old(self)),
            follows(arrived(*final(self)), stream_out(*final(self))),
            taken(*final(self)) == taken(*old(self)),
            n == arrived(*final(self)).len() - taken(*old(self)),
    {
        self.inner.occupied_len()
    }

    /// `ringbuf`'s `Consumer::try_pop`. Trusted: takes out the oldest waiting
    /// sample, and gives `None` if and only if none waits.
    #[verifier::external_body]
    pub(crate) fn try_pop(&mut self) -> (r: Option<i16>)
        ensures
            arrived(*old(self)).is_prefix_of(arrived(*final(self))),
            stream_out(*final(self)) == stream_out(*old(self)),
            follows(arrived(*final(self)), stream_out(*final(self))),
            taken(*old(self)) <= arrived(*final(self)).len(),
            r is Some <==> taken(*old(self)) < arrived(*final(self)).len(),
            r is Some ==> r->0 == arrived(*final(self))[taken(*old(self)) as int] && taken(
                *final(self),
            ) == taken(*old(self)) + 1,
            r is None ==> taken(*final(self)) == taken(*old(self)),
    {
        self.inner.try_pop()
    }

    /// `ringbuf`'s `Consumer::skip`. Trusted: drops the oldest `count` waiting
    /// samples, or all if fewer wait, and returns how many those were.
    #[verifier::external_body]
    pub(crate) fn skip(&mut self, count: usize) -> (n: usize)
        ensures
            arrived(*old(self)).is_prefix_of(arrived(*final(self))),
            stream_out(*final(self)) == stream_out(*old(self)),
            follows(arrived(*final(self)), stream_out(*final(self))),
            n == smaller(count as int, arrived(*final(self)).len() - taken(*old(self))),
            taken(*final(self)) == taken(*old(self)) + n,
    {
        self.inner.skip(count)
    }

    /// `ringbuf`'s `Consumer::pop_slice`. Trusted: moves the oldest waiting
    /// samples, as many as `buf` has places for or as wait, to the front of
    /// `buf`, leaves the rest of `buf` as it was, and returns how many it moved.
    #[verifier::external_body]
    pub(crate) fn pop_slice(&mut self, buf: &mut [i16]) -> (n: usize)
        ensures
            arrived(*old(self)).is_prefix_of(arrived(*final(self))),
            stream_out(*final(self)) == stream_out(*old(self)),
            follows(arrived(*final(self)), stream_out(*final(self))),
            n == smaller(
                old(buf)@.len() as int,
                arrived(*final(self)).len() - taken(*old(self)),
            ),
            taken(*final(self)) == taken(*old(self)) + n,
            final(buf)@ == arrived(*final(self)).subrange(
                taken(*old(self)) as int,
                taken(*old(self)) + n,
            ) + old(buf)@.skip(n as int),
    {
        self.inner.pop_slice(buf)
    }
}

/// What one end of a ring sees come in is what the other end put in, place by
/// place: nothing is lost, doubled or moved in between.
pub proof fn samples_arrive_in_order(prod: SampleProducer, cons: SampleConsumer, i: int)
    requires
        stream_in(prod) == stream_out(cons),
        follows(accepted(prod), stream_in(prod)),
        follows(arrived(cons), stream_out(cons)),
        0 <= i < accepted(prod).len(),
        i < arrived(cons).len(),
    ensures
        arrived(cons)[i] == accepted(prod)[i],
{
}

/// One more sample is kept, behind the others, if and only if its place is set.
pub proof fn kept_samples_are_the_marked_ones(items: Seq<i16>, mask: Seq<bool>, x: i16, b: bool)
    requires
        items.len() == mask.len(),
    ensures
        kept(Seq::empty(), Seq::empty()) == Seq::<i16>::empty(),
        kept(items.push(x), mask.push(b)) == if b {
            kept(items, mask).push(x)
        } else {
            kept(items, mask)
        },
        kept(items, mask).len() == count_set(mask),
{
    assert(items.push(x).drop_last() =~= items);
    assert(mask.push(b).drop_last() =~= mask);
    lemma_kept_count(items, mask);
}

proof fn lemma_kept_count(items: Seq<i16>, mask: Seq<bool>)
    requires
        items.len() == mask.len(),
    ensures
        kept(items, mask).len() == count_set(mask),
    decreases items.len(),
{
    if items.len() > 0 {
        lemma_kept_count(items.drop_last(), mask.drop_last());
    }
}

/// One more set place counts one more, and one that is not set counts nothing.
pub proof fn set_places_are_counted(mask: Seq<bool>, b: bool)
    ensures
        count_set(Seq::empty()) == 0,
        b ==> count_set(mask.push(b)) == count_set(mask) + 1,
        !b ==> count_set(mask.push(b)) == count_set(mask),
{
    assert(mask.push(b).drop_last() =~= mask);
}

/// Counts that grow never fall from one place to a later one, begin no lower than the
/// first and end with the last.
pub proof fn counts_never_fall(seen: Seq<nat>, first: nat, last: nat, i: int, j: int)
    requires
        grows(seen, first, last),
        0 <= i <= j < seen.len(),
    ensures
        first <= seen[i] <= seen[j] <= last,
        seen[seen.len() - 1] == last,
{
    assert(first <= seen[i]);
    assert(seen[j] <= last);
}

} // verus!
