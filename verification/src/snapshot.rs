//! A clock reading that one thread writes and another reads without a lock.
//!
//! The writer makes the mark odd, stores the two halves of the reading, and
//! makes the mark even again. A reader takes what it read only if it saw the
//! same even mark before and after.
//!
//! All stores release and all loads of a reader acquire. So whoever sees a store
//! also sees those before it, and no load sees an older state than the load before
//! it: a reader that catches a half of a write cannot miss its odd mark.
use std::sync::atomic::{AtomicU64, Ordering};
use vstd::prelude::*;

verus! {

/// How often a reader tries before it gives up.
pub const READ_ATTEMPTS: usize = 4;

/// One store of the writer.
#[derive(Clone, Copy, PartialEq, Eq, Structural, Debug)]
pub enum Store {
    /// The mark.
    Mark(u64),
    /// The frame count.
    Frames(u64),
    /// The host time.
    HostNanos(u64),
}

/// What a reader does after an attempt.
#[derive(Clone, Copy, PartialEq, Eq, Debug)]
pub enum ReadStep {
    /// It has a reading.
    Done((u64, u64)),
    /// It tries again.
    Retry,
    /// It has tried often enough.
    GiveUp,
}

/// What the shared memory of a snapshot holds.
#[derive(Clone, Copy, PartialEq, Eq, Structural, Debug)]
pub struct Cells {
    pub mark: u64,
    pub frames: u64,
    pub host_nanos: u64,
}

/// The mark `n` further on, with wrap-around.
pub open spec fn mark_plus(mark: u64, n: int) -> u64 {
    ((mark + n) % 0x1_0000_0000_0000_0000) as u64
}

/// The stores of one write in the order in which they are made, given the mark
/// that the writer found.
pub open spec fn write_stores(mark: u64, frames: u64, host_nanos: u64) -> Seq<Store> {
    seq![
        Store::Mark(mark_plus(mark, 1)),
        Store::Frames(frames),
        Store::HostNanos(host_nanos),
        Store::Mark(mark_plus(mark, 2)),
    ]
}

/// What a reader makes of one attempt: the mark before, the two halves, and the
/// mark after.
pub open spec fn attempt(before: u64, frames: u64, host_nanos: u64, after: u64) -> Option<
    (u64, u64),
> {
    if before % 2 == 0 && before == after {
        Some((frames, host_nanos))
    } else {
        None
    }
}

/// What a reader does when its attempt number `made`, counted from one, gave
/// `seen`.
pub open spec fn step_after(made: int, seen: Option<(u64, u64)>) -> ReadStep {
    match seen {
        Some(pair) => ReadStep::Done(pair),
        None => if made < READ_ATTEMPTS {
            ReadStep::Retry
        } else {
            ReadStep::GiveUp
        },
    }
}

/// What a reader does after attempts that gave `seen`, one after the other.
pub open spec fn reader_step(seen: Seq<Option<(u64, u64)>>) -> ReadStep
    decreases seen.len(),
{
    if seen.len() == 0 {
        ReadStep::Retry
    } else {
        match reader_step(seen.drop_last()) {
            ReadStep::Retry => step_after(seen.len() as int, seen.last()),
            s => s,
        }
    }
}

/// Memory after one store.
pub open spec fn stored(cells: Cells, store: Store) -> Cells {
    match store {
        Store::Mark(v) => Cells { mark: v, ..cells },
        Store::Frames(v) => Cells { frames: v, ..cells },
        Store::HostNanos(v) => Cells { host_nanos: v, ..cells },
    }
}

/// Memory after the first `t` stores of a single writer that writes the pairs
/// of `writes` one after the other.
pub open spec fn memory(writes: Seq<(u64, u64)>, t: nat) -> Cells
    decreases t,
{
    if t == 0 {
        Cells { mark: 0, frames: 0, host_nanos: 0 }
    } else {
        let k: int = (t - 1) / 4;
        let found = memory(writes, (4 * k) as nat).mark;
        stored(
            memory(writes, (t - 1) as nat),
            write_stores(found, writes[k].0, writes[k].1)[(t - 1) % 4],
        )
    }
}

/// The pair that the `n`-th write left, counted from one. Before any write both
/// halves are zero.
pub open spec fn written(writes: Seq<(u64, u64)>, n: int) -> (u64, u64) {
    if n == 0 {
        (0, 0)
    } else {
        writes[n - 1]
    }
}

/// How many captured frames there are and when the last of them was captured.
/// Written close to the capture, read when the speaker clock is compared with
/// the capture clock.
pub struct ClockSnapshot {
    mark: AtomicU64,
    frames: AtomicU64,
    host_nanos: AtomicU64,
}

impl ClockSnapshot {
    /// A snapshot that was never written: it starts out with `first_cells`. To a
    /// contract an atomic shows nothing of what it holds, so that is left unsaid
    /// here.
    pub fn new() -> ClockSnapshot {
        let cells: Cells = first_cells();
        ClockSnapshot {
            mark: AtomicU64::new(cells.mark),
            frames: AtomicU64::new(cells.frames),
            host_nanos: AtomicU64::new(cells.host_nanos),
        }
    }

    /// Makes one store.
    fn store(&self, s: Store) {
        match s {
            Store::Mark(v) => self.mark.store(v, Ordering::Release),
            Store::Frames(v) => self.frames.store(v, Ordering::Release),
            Store::HostNanos(v) => self.host_nanos.store(v, Ordering::Release),
        }
    }

    /// Publishes a reading: makes the stores of `plan_write`, in their order.
    /// One thread at a time may write.
    pub fn write(&self, frames: u64, host_nanos: u64) {
        let found: u64 = self.mark.load(Ordering::Relaxed);
        let plan: [Store; 4] = plan_write(found, frames, host_nanos);
        self.store(plan[0]);
        self.store(plan[1]);
        self.store(plan[2]);
        self.store(plan[3]);
    }

    /// Makes one attempt to read. After an odd mark there is nothing to look at.
    fn try_read(&self) -> Option<(u64, u64)> {
        let before: u64 = self.mark.load(Ordering::Acquire);
        if before % 2 != 0 {
            return None;
        }
        let frames: u64 = self.frames.load(Ordering::Acquire);
        let host_nanos: u64 = self.host_nanos.load(Ordering::Acquire);
        let after: u64 = self.mark.load(Ordering::Acquire);
        judge_attempt(before, frames, host_nanos, after)
    }

    /// The last published reading, or `None` if a write was under way at each of
    /// four attempts. What is seen rests on the writing thread, which may publish
    /// any pair and may disturb every attempt, so no result can be ruled out here.
    /// `judge_attempt` says for every possible sight whether it gives a reading and
    /// which, and `after_attempt` whether the reader then ends or tries again.
    pub fn read(&self) -> (r: Option<(u64, u64)>) {
        let mut made: usize = 0;
        loop
            invariant
                made < READ_ATTEMPTS,
            decreases READ_ATTEMPTS - made,
        {
            made = made + 1;
            match after_attempt(made, self.try_read()) {
                ReadStep::Done(pair) => {
                    return Some(pair);
                },
                ReadStep::GiveUp => {
                    return None;
                },
                ReadStep::Retry => {},
            }
        }
    }
}

/// What a snapshot holds before any write.
pub fn first_cells() -> (cells: Cells)
    ensures
        cells == (Cells { mark: 0, frames: 0, host_nanos: 0 }),
        forall|writes: Seq<(u64, u64)>| cells == #[trigger] memory(writes, 0),
{
    Cells { mark: 0, frames: 0, host_nanos: 0 }
}

/// The stores of one write, given the mark that the writer found.
pub fn plan_write(mark: u64, frames: u64, host_nanos: u64) -> (plan: [Store; 4])
    ensures
        plan@ == write_stores(mark, frames, host_nanos),
{
    let odd: u64 = mark.wrapping_add(1);
    let even: u64 = odd.wrapping_add(1);
    let plan: [Store; 4] = [
        Store::Mark(odd),
        Store::Frames(frames),
        Store::HostNanos(host_nanos),
        Store::Mark(even),
    ];
    assert(plan@ =~= write_stores(mark, frames, host_nanos));
    plan
}

/// Whether an attempt to read gave a reading, and which.
pub fn judge_attempt(before: u64, frames: u64, host_nanos: u64, after: u64) -> (r: Option<
    (u64, u64),
>)
    ensures
        r == attempt(before, frames, host_nanos, after),
        r is Some <==> before == after && before % 2 == 0,
        r matches Some(pair) ==> pair.0 == frames && pair.1 == host_nanos,
{
    if before % 2 == 0 && before == after {
        Some((frames, host_nanos))
    } else {
        None
    }
}

/// What a reader does when its attempt number `made`, counted from one, gave
/// `seen`.
pub fn after_attempt(made: usize, seen: Option<(u64, u64)>) -> (r: ReadStep)
    ensures
        r == step_after(made as int, seen),
        seen matches Some(pair) ==> r == ReadStep::Done(pair),
        seen is None && made < 4 ==> r is Retry,
        seen is None && made >= 4 ==> r is GiveUp,
{
    match seen {
        Some(pair) => ReadStep::Done(pair),
        None => if made < READ_ATTEMPTS {
            ReadStep::Retry
        } else {
            ReadStep::GiveUp
        },
    }
}

/// Memory in the middle of the `k`-th write, counted from zero, after `j` of its
/// stores.
proof fn lemma_memory(writes: Seq<(u64, u64)>, k: nat, j: nat)
    requires
        k < writes.len() || j == 0,
        k <= writes.len(),
        j <= 4,
    ensures
        ({
            let m = memory(writes, 4 * k + j);
            let old_pair = written(writes, k as int);
            let new_pair = written(writes, k as int + 1);
            &&& m.mark == mark_plus(
                0,
                2 * k + if j == 0 {
                    0int
                } else if j < 4 {
                    1int
                } else {
                    2int
                },
            )
            &&& m.frames == if j < 2 {
                old_pair.0
            } else {
                new_pair.0
            }
            &&& m.host_nanos == if j < 3 {
                old_pair.1
            } else {
                new_pair.1
            }
        }),
    decreases k, j,
{
    if j == 0 {
        if k > 0 {
            lemma_memory(writes, (k - 1) as nat, 4);
        }
    } else {
        lemma_memory(writes, k, (j - 1) as nat);
        lemma_memory(writes, k, 0);
        let t: nat = 4 * k + j;
        assert((t - 1) / 4 == k);
        assert((t - 1) % 4 == j - 1);
        let found = memory(writes, 4 * k).mark;
        lemma_mark_plus(2 * k, 1);
        lemma_mark_plus(2 * k, 2);
        let before = memory(writes, (t - 1) as nat);
        let plan = write_stores(found, writes[k as int].0, writes[k as int].1);
        assert(memory(writes, t) == stored(before, plan[j - 1]));
        if j == 1 {
            assert(plan[j - 1] == Store::Mark(mark_plus(found, 1)));
        } else if j == 2 {
            assert(plan[j - 1] == Store::Frames(writes[k as int].0));
        } else if j == 3 {
            assert(plan[j - 1] == Store::HostNanos(writes[k as int].1));
        } else {
            assert(plan[j - 1] == Store::Mark(mark_plus(found, 2)));
        }
    }
}

/// Marks add up.
proof fn lemma_mark_plus(a: nat, b: nat)
    ensures
        mark_plus(mark_plus(0, a as int), b as int) == mark_plus(0, a as int + b),
{
    vstd::arithmetic::div_mod::lemma_add_mod_noop(
        a as int,
        b as int,
        0x1_0000_0000_0000_0000,
    );
    vstd::arithmetic::div_mod::lemma_add_mod_noop_right(
        b as int,
        a as int,
        0x1_0000_0000_0000_0000,
    );
}

/// How often the mark was stored in the first `t` stores.
spec fn marks(t: nat) -> int {
    2 * (t / 4) + if t % 4 == 0 {
        0int
    } else {
        1int
    }
}

/// The mark counts its own stores.
proof fn lemma_mark(writes: Seq<(u64, u64)>, t: nat)
    requires
        t <= 4 * writes.len(),
    ensures
        memory(writes, t).mark == mark_plus(0, marks(t)),
        (memory(writes, t).mark % 2 == 0) == (t % 4 == 0),
{
    assert(t == 4 * (t / 4) + t % 4);
    lemma_memory(writes, t / 4, t % 4);
    lemma_parity(marks(t));
}

proof fn lemma_parity(n: int)
    requires
        n >= 0,
    ensures
        mark_plus(0, n) % 2 == n % 2,
{
}

/// Two equal marks that are not a whole round apart are the same store.
proof fn lemma_same_mark(a: int, b: int)
    requires
        0 <= a <= b,
        b - a < 0x1_0000_0000_0000_0000,
        mark_plus(0, a) == mark_plus(0, b),
    ensures
        a == b,
{
}

/// A reader never takes a torn reading. Let one writer make the stores of any
/// number of writes, and let a reader load the mark, the frame count, the host
/// time and the mark again, each load seeing memory as it was after some number
/// of stores and none seeing an older state than the load before it. If the
/// attempt is accepted, both halves are the pair of one and the same write: the
/// last one that was complete when the reader began. The one exception is a
/// reader that sleeps while the mark runs through all its values.
pub proof fn accepted_reading_is_not_torn(
    writes: Seq<(u64, u64)>,
    t1: nat,
    t2: nat,
    t3: nat,
    t4: nat,
)
    requires
        t1 <= t2 <= t3 <= t4 <= 4 * writes.len(),
        t4 - t1 < 0x1_0000_0000_0000_0000,
        attempt(
            memory(writes, t1).mark,
            memory(writes, t2).frames,
            memory(writes, t3).host_nanos,
            memory(writes, t4).mark,
        ) is Some,
    ensures
        attempt(
            memory(writes, t1).mark,
            memory(writes, t2).frames,
            memory(writes, t3).host_nanos,
            memory(writes, t4).mark,
        ) == Some(written(writes, (t1 / 4) as int)),
{
    lemma_mark(writes, t1);
    lemma_mark(writes, t4);
    lemma_same_mark(marks(t1), marks(t4));
    assert(t1 == t4);
    assert(t1 == 4 * (t1 / 4));
    lemma_memory(writes, t1 / 4, 0);
}

/// A reader that is not overtaken by a write gets the last reading at its first
/// attempt.
pub proof fn undisturbed_reading_is_accepted(writes: Seq<(u64, u64)>, n: nat)
    requires
        n <= writes.len(),
    ensures
        ({
            let m = memory(writes, 4 * n);
            attempt(m.mark, m.frames, m.host_nanos, m.mark) == Some(written(writes, n as int))
        }),
{
    lemma_memory(writes, n, 0);
}

/// A reader ends with the first attempt that gives a reading, if one of the first
/// four does.
pub proof fn first_accepted_attempt_is_read(seen: Seq<Option<(u64, u64)>>, k: int)
    requires
        0 <= k < seen.len(),
        k < READ_ATTEMPTS,
        seen[k] is Some,
        forall|i: int| 0 <= i < k ==> #[trigger] seen[i] is None,
    ensures
        reader_step(seen) == ReadStep::Done(seen[k]->0),
    decreases seen.len(),
{
    let front = seen.drop_last();
    if k < front.len() {
        first_accepted_attempt_is_read(front, k);
    } else {
        lemma_refused_attempts(front);
    }
}

/// A reader gives up after exactly four attempts without a reading.
pub proof fn fourth_refusal_gives_up(seen: Seq<Option<(u64, u64)>>)
    requires
        forall|i: int| 0 <= i < seen.len() && i < READ_ATTEMPTS ==> #[trigger] seen[i] is None,
    ensures
        seen.len() < READ_ATTEMPTS ==> reader_step(seen) == ReadStep::Retry,
        seen.len() >= READ_ATTEMPTS ==> reader_step(seen) == ReadStep::GiveUp,
    decreases seen.len(),
{
    if seen.len() > READ_ATTEMPTS {
        fourth_refusal_gives_up(seen.drop_last());
    } else if seen.len() == READ_ATTEMPTS {
        lemma_refused_attempts(seen.drop_last());
    } else {
        lemma_refused_attempts(seen);
    }
}

proof fn lemma_refused_attempts(seen: Seq<Option<(u64, u64)>>)
    requires
        seen.len() < READ_ATTEMPTS,
        forall|i: int| 0 <= i < seen.len() ==> #[trigger] seen[i] is None,
    ensures
        reader_step(seen) == ReadStep::Retry,
    decreases seen.len(),
{
    if seen.len() > 0 {
        lemma_refused_attempts(seen.drop_last());
    }
}

/// No reading is accepted that began during a write.
pub proof fn reading_during_a_write_is_refused(
    writes: Seq<(u64, u64)>,
    t: nat,
    frames: u64,
    host_nanos: u64,
    after: u64,
)
    requires
        t < 4 * writes.len(),
        t % 4 != 0,
    ensures
        attempt(memory(writes, t).mark, frames, host_nanos, after) is None,
{
    lemma_mark(writes, t);
}

/// A write changes the mark before and after it stores the pair, each time by one
/// with wrap-around, and stores exactly the pair.
pub proof fn write_is_framed_by_marks(mark: u64, frames: u64, host_nanos: u64)
    ensures
        ({
            let plan = write_stores(mark, frames, host_nanos);
            &&& plan.len() == 4
            &&& plan[0] matches Store::Mark(odd) && (odd == mark + 1 || odd == 0 && mark
                == u64::MAX)
            &&& plan[1] == Store::Frames(frames)
            &&& plan[2] == Store::HostNanos(host_nanos)
            &&& plan[3] matches Store::Mark(even) && (even == mark + 2 || even + 0xffff_ffff_ffff_fffe
                == mark)
        }),
{
}

/// An attempt is accepted if and only if it saw the same even mark twice, and then it
/// gives what it saw, whatever that was.
pub proof fn attempt_gives_what_was_seen(before: u64, frames: u64, host_nanos: u64, after: u64)
    ensures
        attempt(before, frames, host_nanos, after) is Some <==> before == after && before % 2 == 0,
        attempt(before, frames, host_nanos, after) matches Some(pair) ==> pair.0 == frames
            && pair.1 == host_nanos,
{
}

/// A reader has four attempts.
pub proof fn reader_has_four_attempts(made: int, seen: Option<(u64, u64)>)
    ensures
        seen matches Some(pair) ==> step_after(made, seen) == ReadStep::Done(pair),
        seen is None ==> (step_after(made, seen) is Retry <==> made < 4),
        seen is None ==> (step_after(made, seen) is GiveUp <==> made >= 4),
{
}

} // verus!
