//! Reports from the tablet about what it is playing.
//!
//! A report is a datagram of at least 24 bytes, big-endian: the magic number
//! `STER`, a version byte, three bytes of padding, the tablet's NTP time when it
//! measured, the RTP timestamp of the last sample that it played, and the fill of
//! its de-jitter buffer in samples.
//!
//! A report tells the tablet's clock and, by its arrival, the local clock. How
//! long it travelled is only known as half of a round trip, which is wrong by as
//! much as the two directions differ. The report with the shortest round trip of
//! the last few seconds has the least room for such a difference, so it alone
//! decides the offset of the clocks.
use std::collections::VecDeque;
use crate::clock::{is_reading, ntp_of_reading, wall_clock_ntp};
use crate::rtp::low32;
use crate::wire::{be_value, read_u32, read_u64, u32_at, u64_at};
use vstd::prelude::*;

verus! {

/// The UDP port on which reports come in.
pub const PORT: u16 = 5005;

/// The first four bytes of a report: `STER`.
pub const MAGIC: u32 = 0x5354_4552;

/// The version of the report format.
pub const PROTO_VERSION: u8 = 1;

/// How many observations are kept: about ten seconds at four reports a second.
pub const WINDOW_SAMPLES: usize = 40;

/// How many observations the drift of the clocks needs.
pub const MIN_SAMPLES_FOR_DRIFT: usize = 8;

/// How many accepted reports make one line of the log.
pub const REPORTS_PER_LOG: u64 = 8;

/// What the tablet reports.
#[derive(Clone, Copy, PartialEq, Eq, Structural, Debug)]
pub struct PlayoutReport {
    /// The tablet's NTP time when it measured.
    pub ipad_ntp: u64,
    /// The RTP timestamp of the last sample that it played.
    pub last_rtp_played: u32,
    /// The fill of its de-jitter buffer, in samples.
    pub dejitter_depth: u32,
}

/// One observation of both clocks.
#[derive(Clone, Copy, PartialEq, Eq, Structural, Debug)]
pub struct Sample {
    /// The local NTP time when the report came in.
    pub mac_ntp: u64,
    /// The tablet's NTP time when it measured.
    pub ipad_ntp: u64,
    /// The round-trip time that was believed then, in nanoseconds.
    pub rtt_nanos: u64,
}

/// The report in a datagram, if it is one.
pub open spec fn report_in(buf: Seq<u8>) -> Option<PlayoutReport> {
    if buf.len() >= 24 && u32_at(buf, 0) == MAGIC && buf[4] == PROTO_VERSION {
        Some(
            PlayoutReport {
                ipad_ntp: u64_at(buf, 8),
                last_rtp_played: u32_at(buf, 16),
                dejitter_depth: u32_at(buf, 20),
            },
        )
    } else {
        None
    }
}

/// A report from a tablet that plays nothing yet. It shows that the tablet is
/// there, and measures nothing.
pub open spec fn is_presync(r: PlayoutReport) -> bool {
    r.last_rtp_played == 0 || r.dejitter_depth == 0
}

/// The window after one more observation: the oldest goes when it is full.
pub open spec fn slid(window: Seq<Sample>, s: Sample) -> Seq<Sample> {
    if window.len() == WINDOW_SAMPLES {
        window.skip(1).push(s)
    } else {
        window.push(s)
    }
}

/// The newest observations of a history, as many as the window holds.
pub open spec fn newest(history: Seq<Sample>) -> Seq<Sample> {
    if history.len() <= WINDOW_SAMPLES {
        history
    } else {
        history.skip(history.len() - WINDOW_SAMPLES)
    }
}

/// The observation with the shortest round trip, the earliest of several.
pub open spec fn best_of(window: Seq<Sample>) -> Sample
    decreases window.len(),
{
    if window.len() <= 1 {
        window[0]
    } else {
        let best = best_of(window.drop_last());
        if window.last().rtt_nanos < best.rtt_nanos {
            window.last()
        } else {
            best
        }
    }
}

/// The signed distance from `anchor` to `played` on the RTP clock, which wraps.
pub open spec fn rtp_distance(played: u32, anchor: u32) -> int {
    let d = (played - anchor) % 0x1_0000_0000;
    if d < 0x8000_0000 {
        d
    } else {
        d - 0x1_0000_0000
    }
}

/// The NTP timestamp of the wall clock now.
pub fn ntp_now() -> (r: u64)
    ensures
        exists|d: Option<(u64, u32)>| is_reading(d) && r == #[trigger] ntp_of_reading(d),
{
    wall_clock_ntp()
}

/// Reads a report.
pub fn parse_report(buf: &[u8]) -> (r: Option<PlayoutReport>)
    ensures
        r == report_in(buf@),
{
    if buf.len() < 24 {
        return None;
    }
    if read_u32(buf, 0) != MAGIC || buf[4] != PROTO_VERSION {
        return None;
    }
    Some(
        PlayoutReport {
            ipad_ntp: read_u64(buf, 8),
            last_rtp_played: read_u32(buf, 16),
            dejitter_depth: read_u32(buf, 20),
        },
    )
}

/// How far `played` is ahead of `anchor` on the RTP clock.
pub fn rtp_delta(played: u32, anchor: u32) -> (r: i32)
    ensures
        r == rtp_distance(played, anchor),
        (anchor + r - played) % 0x1_0000_0000 == 0,
{
    let d: u32 = played.wrapping_sub(anchor);
    if d < 0x8000_0000 {
        d as i32
    } else {
        let rest: i32 = (0xffff_ffff - d) as i32;
        -1 - rest
    }
}

/// The observations from which the offset of the two clocks is estimated.
pub struct ClockEstimator {
    samples: VecDeque<Sample>,
}

impl View for ClockEstimator {
    type V = Seq<Sample>;

    closed spec fn view(&self) -> Seq<Sample> {
        self.samples@
    }
}

impl ClockEstimator {
    /// There are no more observations than the window holds.
    pub open spec fn wf(self) -> bool {
        self@.len() <= WINDOW_SAMPLES
    }

    /// No observations.
    pub fn new() -> (r: ClockEstimator)
        ensures
            r.wf(),
            r@ == Seq::<Sample>::empty(),
    {
        ClockEstimator { samples: VecDeque::with_capacity(WINDOW_SAMPLES) }
    }

    /// Adds an observation. The oldest goes when the window is full.
    pub fn push(&mut self, s: Sample)
        requires
            old(self).wf(),
        ensures
            final(self).wf(),
            final(self)@ == slid(old(self)@, s),
            final(self)@.last() == s,
            old(self)@.len() < 40 ==> final(self)@ == old(self)@.push(s),
            old(self)@.len() == 40 ==> final(self)@ == old(self)@.skip(1).push(s),
    {
        if self.samples.len() == WINDOW_SAMPLES {
            let _ = self.samples.pop_front();
        }
        self.samples.push_back(s);
        assert(self@ =~= slid(old(self)@, s));
    }

    /// The observation that decides the offset of the clocks.
    pub fn best_sample(&self) -> (r: Option<Sample>)
        ensures
            r == if self@.len() == 0 {
                None
            } else {
                Some(best_of(self@))
            },
    {
        let n: usize = self.samples.len();
        if n == 0 {
            return None;
        }
        let mut best: Sample = self.samples[0];
        let mut i: usize = 1;
        while i < n
            invariant
                1 <= i <= n,
                n == self@.len(),
                best == best_of(self@.take(i as int)),
            decreases n - i,
        {
            let s: Sample = self.samples[i];
            assert(self@.take(i + 1).drop_last() =~= self@.take(i as int));
            if s.rtt_nanos < best.rtt_nanos {
                best = s;
            }
            i = i + 1;
        }
        assert(self@.take(n as int) =~= self@);
        Some(best)
    }

    /// The observations through which a line is fitted to see the drift of the
    /// clocks, oldest first, or `None` while there are too few.
    pub fn drift_samples(&self) -> (r: Option<Vec<Sample>>)
        ensures
            r is None <==> self@.len() < MIN_SAMPLES_FOR_DRIFT,
            r is None <==> self@.len() < 8,
            r matches Some(v) ==> v@ == self@,
    {
        let n: usize = self.samples.len();
        if n < MIN_SAMPLES_FOR_DRIFT {
            return None;
        }
        let mut v: Vec<Sample> = Vec::with_capacity(n);
        let mut i: usize = 0;
        while i < n
            invariant
                i <= n,
                n == self@.len(),
                v@ == self@.take(i as int),
            decreases n - i,
        {
            v.push(self.samples[i]);
            i = i + 1;
            assert(v@ =~= self@.take(i as int));
        }
        assert(v@ =~= self@);
        Some(v)
    }
}

/// What a report measures, once both clocks and the sender are known.
#[derive(Clone, Copy, PartialEq, Eq, Structural, Debug)]
pub struct Measurement {
    pub report: PlayoutReport,
    /// The observation that decides the offset of the clocks.
    pub best: Sample,
    /// The local NTP time of the last packet that was sent.
    pub anchor_ntp: u64,
    /// How far the played sample is ahead of that packet on the RTP clock.
    pub delta_samples: i32,
}

/// What a datagram means.
#[derive(Clone, Copy, PartialEq, Eq, Structural, Debug)]
pub enum PlayoutStep {
    /// It is no report.
    NotAReport,
    /// The tablet is there, but nothing can be measured yet.
    Alive,
    /// The delay of the tablet can be computed from this.
    Measure(Measurement),
}

/// The observation that a report makes, unless the tablet plays nothing yet or
/// no round trip was measured.
pub open spec fn observation(r: PlayoutReport, mac_ntp: u64, rtt_nanos: u64) -> Option<Sample> {
    if is_presync(r) || rtt_nanos == 0 {
        None
    } else {
        Some(Sample { mac_ntp, ipad_ntp: r.ipad_ntp, rtt_nanos })
    }
}

/// The window after a datagram.
pub open spec fn window_after(
    window: Seq<Sample>,
    buf: Seq<u8>,
    mac_ntp: u64,
    rtt_nanos: u64,
) -> Seq<Sample> {
    match report_in(buf) {
        None => window,
        Some(r) => match observation(r, mac_ntp, rtt_nanos) {
            None => window,
            Some(s) => slid(window, s),
        },
    }
}

/// What a datagram means, given the window before it and the last packet that
/// was sent.
pub open spec fn step_of(
    window: Seq<Sample>,
    buf: Seq<u8>,
    mac_ntp: u64,
    rtt_nanos: u64,
    anchor: (u64, u32),
) -> PlayoutStep {
    match report_in(buf) {
        None => PlayoutStep::NotAReport,
        Some(r) => if observation(r, mac_ntp, rtt_nanos) is None || anchor.0 == 0 {
            PlayoutStep::Alive
        } else {
            PlayoutStep::Measure(
                Measurement {
                    report: r,
                    best: best_of(window_after(window, buf, mac_ntp, rtt_nanos)),
                    anchor_ntp: anchor.0,
                    delta_samples: rtp_distance(r.last_rtp_played, anchor.1) as i32,
                },
            )
        },
    }
}

/// The smaller of two depths.
pub open spec fn shallower(a: u32, b: u32) -> u32 {
    if a <= b {
        a
    } else {
        b
    }
}

/// What is kept from one report to the next.
pub struct PlayoutTracker {
    pub estimator: ClockEstimator,
    /// The tablet has been heard of.
    pub ready: bool,
    /// Accepted reports so far.
    pub report_count: u64,
    /// The smallest depth since the last line of the log.
    pub min_depth: u32,
}

impl PlayoutTracker {
    /// The estimator is well-formed.
    pub open spec fn wf(self) -> bool {
        self.estimator.wf()
    }

    /// Nothing heard yet.
    pub fn new() -> (r: PlayoutTracker)
        ensures
            r.wf(),
            r.estimator@ == Seq::<Sample>::empty(),
            !r.ready,
            r.report_count == 0,
            r.min_depth == u32::MAX,
    {
        PlayoutTracker {
            estimator: ClockEstimator::new(),
            ready: false,
            report_count: 0,
            min_depth: u32::MAX,
        }
    }

    /// Takes in a datagram that came in at `mac_ntp`, when the last measured
    /// round trip was `rtt_nanos` (zero for none) and the last packet was sent at
    /// `anchor` by both clocks (zero for none).
    pub fn on_packet(
        &mut self,
        buf: &[u8],
        mac_ntp: u64,
        rtt_nanos: u64,
        anchor: (u64, u32),
    ) -> (step: PlayoutStep)
        requires
            old(self).wf(),
        ensures
            final(self).wf(),
            final(self).ready == (old(self).ready || report_in(buf@) is Some),
            final(self).report_count == old(self).report_count,
            final(self).min_depth == old(self).min_depth,
            final(self).estimator@ == window_after(
                old(self).estimator@,
                buf@,
                mac_ntp,
                rtt_nanos,
            ),
            step == step_of(old(self).estimator@, buf@, mac_ntp, rtt_nanos, anchor),
    {
        let report: PlayoutReport = match parse_report(buf) {
            Some(r) => r,
            None => {
                return PlayoutStep::NotAReport;
            },
        };
        self.ready = true;
        if report.last_rtp_played == 0 || report.dejitter_depth == 0 || rtt_nanos == 0 {
            return PlayoutStep::Alive;
        }
        self.estimator.push(Sample { mac_ntp, ipad_ntp: report.ipad_ntp, rtt_nanos });
        match self.estimator.best_sample() {
            None => PlayoutStep::Alive,
            Some(best) => {
                if anchor.0 == 0 {
                    return PlayoutStep::Alive;
                }
                PlayoutStep::Measure(
                    Measurement {
                        report,
                        best,
                        anchor_ntp: anchor.0,
                        delta_samples: rtp_delta(report.last_rtp_played, anchor.1),
                    },
                )
            },
        }
    }

    /// Counts an accepted report. Every eighth time returns the smallest depth of
    /// the last eight reports, and begins anew.
    pub fn note_depth(&mut self, depth: u32) -> (r: Option<u32>)
        requires
            old(self).report_count < u64::MAX,
        ensures
            final(self).estimator == old(self).estimator,
            final(self).ready == old(self).ready,
            final(self).report_count == old(self).report_count + 1,
            r == if (old(self).report_count + 1) % 8 == 0 {
                Some(shallower(old(self).min_depth, depth))
            } else {
                None
            },
            final(self).min_depth == if (old(self).report_count + 1) % 8 == 0 {
                u32::MAX
            } else {
                shallower(old(self).min_depth, depth)
            },
            r matches Some(least) ==> least <= depth && least <= old(self).min_depth && (least
                == depth || least == old(self).min_depth),
            r is None ==> final(self).min_depth <= depth && final(self).min_depth <= old(
                self,
            ).min_depth && (final(self).min_depth == depth || final(self).min_depth == old(
                self,
            ).min_depth),
    {
        if depth < self.min_depth {
            self.min_depth = depth;
        }
        self.report_count = self.report_count + 1;
        if self.report_count % REPORTS_PER_LOG == 0 {
            let lowest: u32 = self.min_depth;
            self.min_depth = u32::MAX;
            Some(lowest)
        } else {
            None
        }
    }
}

/// The window is always the newest part of all observations.
pub proof fn window_is_the_newest_part(history: Seq<Sample>, s: Sample)
    ensures
        slid(newest(history), s) == newest(history.push(s)),
{
    assert(slid(newest(history), s) =~= newest(history.push(s)));
}

/// The deciding observation is one of the window, none has a shorter round trip,
/// and none that is older has the same.
pub proof fn best_has_the_shortest_round_trip(window: Seq<Sample>) -> (at: int)
    requires
        window.len() > 0,
    ensures
        0 <= at < window.len(),
        best_of(window) == window[at],
        forall|i: int|
            0 <= i < window.len() ==> best_of(window).rtt_nanos <= #[trigger] window[i].rtt_nanos,
        forall|i: int|
            0 <= i < at ==> best_of(window).rtt_nanos < #[trigger] window[i].rtt_nanos,
    decreases window.len(),
{
    if window.len() == 1 {
        0
    } else {
        let front = window.drop_last();
        let k = best_has_the_shortest_round_trip(front);
        assert forall|i: int| 0 <= i < front.len() implies #[trigger] window[i] == front[i] by {}
        if window.last().rtt_nanos < best_of(front).rtt_nanos {
            window.len() - 1
        } else {
            k
        }
    }
}

/// The distance on the RTP clock is right also where the clock wraps, as long as
/// it is less than half a round.
pub proof fn rtp_distance_survives_wrapping(anchor: u32, k: int)
    requires
        -0x8000_0000 <= k < 0x8000_0000,
    ensures
        rtp_distance(low32(anchor + k), anchor) == k,
{
}

/// A tablet that plays nothing yet shows that it is there, and feeds nothing
/// into the estimate of the clocks.
pub proof fn presync_report_measures_nothing(
    window: Seq<Sample>,
    buf: Seq<u8>,
    mac_ntp: u64,
    rtt_nanos: u64,
    anchor: (u64, u32),
)
    requires
        report_in(buf) matches Some(r) && is_presync(r),
    ensures
        step_of(window, buf, mac_ntp, rtt_nanos, anchor) == PlayoutStep::Alive,
        window_after(window, buf, mac_ntp, rtt_nanos) == window,
{
}

/// Some of the datagrams was a report.
pub open spec fn heard_of(datagrams: Seq<Seq<u8>>) -> bool {
    exists|i: int| 0 <= i < datagrams.len() && report_in(#[trigger] datagrams[i]) is Some
}

/// The tablet counts as ready if and only if some datagram so far was a report, and
/// stays so. Where `ready` was right before a datagram, what `on_packet` makes of it
/// is right after.
pub proof fn ready_means_heard_of(datagrams: Seq<Seq<u8>>, buf: Seq<u8>)
    ensures
        !heard_of(Seq::empty()),
        heard_of(datagrams.push(buf)) == (heard_of(datagrams) || report_in(buf) is Some),
{
    let all = datagrams.push(buf);
    if heard_of(datagrams) {
        let i = choose|i: int|
            0 <= i < datagrams.len() && report_in(#[trigger] datagrams[i]) is Some;
        assert(all[i] == datagrams[i]);
    }
    if report_in(buf) is Some {
        assert(all[datagrams.len() as int] == buf);
    }
    if heard_of(all) && report_in(buf) is None {
        let i = choose|i: int| 0 <= i < all.len() && report_in(#[trigger] all[i]) is Some;
        assert(datagrams[i] == all[i]);
    }
}

/// What makes a datagram a report, byte by byte: its length, `STER`, and the
/// version.
pub proof fn report_is_known_by_its_first_bytes(buf: Seq<u8>)
    ensures
        report_in(buf) is Some <==> buf.len() >= 24 && buf[0] == 0x53 && buf[1] == 0x54 && buf[2]
            == 0x45 && buf[3] == 0x52 && buf[4] == 1,
{
    if buf.len() >= 24 {
        let s = buf.subrange(0, 4);
        let s1 = s.drop_last();
        let s2 = s1.drop_last();
        let s3 = s2.drop_last();
        reveal_with_fuel(be_value, 5);
        assert(be_value(s3.drop_last()) == 0);
        assert(be_value(s) == buf[0] * 0x100_0000 + buf[1] * 0x1_0000 + buf[2] * 0x100 + buf[3]);
    }
}

/// A datagram that is no report changes nothing.
pub proof fn foreign_datagram_changes_nothing(
    window: Seq<Sample>,
    buf: Seq<u8>,
    mac_ntp: u64,
    rtt_nanos: u64,
    anchor: (u64, u32),
)
    requires
        report_in(buf) is None,
    ensures
        step_of(window, buf, mac_ntp, rtt_nanos, anchor) == PlayoutStep::NotAReport,
        window_after(window, buf, mac_ntp, rtt_nanos) == window,
{
}

/// A report never makes the deciding round trip longer than its own.
pub proof fn measurement_is_no_worse_than_its_report(
    window: Seq<Sample>,
    buf: Seq<u8>,
    mac_ntp: u64,
    rtt_nanos: u64,
    anchor: (u64, u32),
)
    requires
        step_of(window, buf, mac_ntp, rtt_nanos, anchor) is Measure,
    ensures
        step_of(window, buf, mac_ntp, rtt_nanos, anchor)->Measure_0.best.rtt_nanos <= rtt_nanos,
{
    let after = window_after(window, buf, mac_ntp, rtt_nanos);
    let at = best_has_the_shortest_round_trip(after);
    assert(after[after.len() - 1].rtt_nanos == rtt_nanos);
}

/// The smallest of `depths`.
pub open spec fn shallowest(depths: Seq<u32>) -> u32
    decreases depths.len(),
{
    if depths.len() == 0 {
        u32::MAX
    } else {
        shallower(shallowest(depths.drop_last()), depths.last())
    }
}

/// The smallest depth that is kept after the accepted reports of `depths`, from
/// the start of a line of the log.
pub open spec fn kept_depth(depths: Seq<u32>) -> u32
    decreases depths.len(),
{
    if depths.len() == 0 {
        u32::MAX
    } else if depths.len() % 8 == 0 {
        u32::MAX
    } else {
        shallower(kept_depth(depths.drop_last()), depths.last())
    }
}

/// The depth that the last of `depths` writes to the log, if it completes a line.
pub open spec fn logged_depth(depths: Seq<u32>) -> Option<u32> {
    if depths.len() > 0 && depths.len() % 8 == 0 {
        Some(shallower(kept_depth(depths.drop_last()), depths.last()))
    } else {
        None
    }
}

/// The depth in a line of the log is the smallest of exactly the eight reports
/// since the last line: a dip between two lines is never missed, nor is one told
/// twice.
pub proof fn logged_depth_is_the_shallowest_of_eight(depths: Seq<u32>)
    requires
        depths.len() > 0,
        depths.len() % 8 == 0,
    ensures
        logged_depth(depths) == Some(shallowest(depths.skip(depths.len() - 8))),
{
    let front = depths.drop_last();
    lemma_kept_depth(front, 7);
    let tail = depths.skip(depths.len() - 8);
    assert(tail.drop_last() =~= front.skip(front.len() - 7));
}

proof fn lemma_kept_depth(depths: Seq<u32>, n: nat)
    requires
        n < 8,
        depths.len() % 8 == n,
    ensures
        kept_depth(depths) == shallowest(depths.skip(depths.len() - n)),
    decreases n,
{
    let tail = depths.skip(depths.len() - n);
    if n > 0 {
        let front = depths.drop_last();
        lemma_kept_depth(front, (n - 1) as nat);
        assert(tail.drop_last() =~= front.skip(front.len() - (n - 1)));
        assert(tail.last() == depths.last());
    } else {
        assert(tail =~= Seq::empty());
    }
}

/// `note_depth` keeps `kept_depth` and returns `logged_depth`: what its contract
/// says of one report, these say of all reports so far.
pub proof fn noted_depths_follow(depths: Seq<u32>, before: PlayoutTracker, depth: u32)
    requires
        before.report_count == depths.len(),
        before.min_depth == kept_depth(depths),
    ensures
        logged_depth(depths.push(depth)) == if (before.report_count + 1) % 8 == 0 {
            Some(shallower(before.min_depth, depth))
        } else {
            None
        },
        kept_depth(depths.push(depth)) == if (before.report_count + 1) % 8 == 0 {
            u32::MAX
        } else {
            shallower(before.min_depth, depth)
        },
{
    assert(depths.push(depth).drop_last() =~= depths);
}

/// The fields of a report stand at their places: the tablet's clock at byte 8, the
/// played timestamp at byte 16 and the depth at byte 20.
pub proof fn report_fields_stand_in_their_places(buf: Seq<u8>)
    ensures
        report_in(buf) matches Some(r) ==> {
            &&& buf.len() >= 24
            &&& r.ipad_ntp == u64_at(buf, 8)
            &&& r.last_rtp_played == u32_at(buf, 16)
            &&& r.dejitter_depth == u32_at(buf, 20)
        },
{
}

/// One more observation stands last in the window. Below forty nothing leaves, and at
/// forty only the oldest does.
pub proof fn window_holds_forty(window: Seq<Sample>, s: Sample)
    requires
        window.len() <= 40,
    ensures
        slid(window, s).len() <= 40,
        slid(window, s).last() == s,
        window.len() < 40 ==> slid(window, s).drop_last() == window,
        window.len() == 40 ==> slid(window, s).drop_last() == window.skip(1),
{
    if window.len() < 40 {
        assert(slid(window, s).drop_last() =~= window);
    } else {
        assert(slid(window, s).drop_last() =~= window.skip(1));
    }
}

/// Every report of a tablet that plays is observed as soon as a round trip was
/// measured, however long that took: its times stand last in the window, as they came
/// in. Once a packet was sent it is measured too, with the shortest round trip of the
/// window and its own distance on the RTP clock.
pub proof fn playing_tablet_is_measured(
    window: Seq<Sample>,
    buf: Seq<u8>,
    mac_ntp: u64,
    rtt_nanos: u64,
    anchor: (u64, u32),
)
    requires
        window.len() <= 40,
        report_in(buf) is Some,
        report_in(buf)->0.last_rtp_played != 0,
        report_in(buf)->0.dejitter_depth != 0,
        rtt_nanos != 0,
    ensures
        ({
            let r = report_in(buf)->0;
            let after = window_after(window, buf, mac_ntp, rtt_nanos);
            let step = step_of(window, buf, mac_ntp, rtt_nanos, anchor);
            &&& after.len() > 0
            &&& after.last().mac_ntp == mac_ntp
            &&& after.last().ipad_ntp == r.ipad_ntp
            &&& after.last().rtt_nanos == rtt_nanos
            &&& window.len() < 40 ==> after.drop_last() == window
            &&& window.len() == 40 ==> after.drop_last() == window.skip(1)
            &&& anchor.0 == 0 ==> step is Alive
            &&& anchor.0 != 0 ==> step is Measure
            &&& step matches PlayoutStep::Measure(m) ==> {
                &&& m.report == r
                &&& m.anchor_ntp == anchor.0
                &&& (anchor.1 + m.delta_samples - r.last_rtp_played) % 0x1_0000_0000 == 0
                &&& after.contains(m.best)
                &&& forall|i: int|
                    0 <= i < after.len() ==> m.best.rtt_nanos <= #[trigger] after[i].rtt_nanos
            }
        }),
{
    let r = report_in(buf)->0;
    let s = Sample { mac_ntp, ipad_ntp: r.ipad_ntp, rtt_nanos };
    window_holds_forty(window, s);
    let after = window_after(window, buf, mac_ntp, rtt_nanos);
    let at = best_has_the_shortest_round_trip(after);
    assert(after[at] == best_of(after));
    rtp_distance_is_the_signed_gap(r.last_rtp_played, anchor.1);
}

/// The three meanings of a datagram, by the datagram and by what is known of the
/// round trip and the sender.
pub proof fn datagrams_are_told_apart(
    window: Seq<Sample>,
    buf: Seq<u8>,
    mac_ntp: u64,
    rtt_nanos: u64,
    anchor: (u64, u32),
)
    ensures
        ({
            let step = step_of(window, buf, mac_ntp, rtt_nanos, anchor);
            let after = window_after(window, buf, mac_ntp, rtt_nanos);
            &&& step is NotAReport <==> report_in(buf) is None
            &&& step is Measure <==> {
                &&& report_in(buf) is Some
                &&& report_in(buf)->0.last_rtp_played != 0
                &&& report_in(buf)->0.dejitter_depth != 0
                &&& rtt_nanos != 0
                &&& anchor.0 != 0
            }
            &&& report_in(buf) is None || report_in(buf)->0.last_rtp_played == 0 || report_in(
                buf,
            )->0.dejitter_depth == 0 || rtt_nanos == 0 ==> after == window
        }),
{
}

/// The distance on the RTP clock leads from the anchor to what was played, and is the
/// shorter way round.
pub proof fn rtp_distance_is_the_signed_gap(played: u32, anchor: u32)
    ensures
        -0x8000_0000 <= rtp_distance(played, anchor) < 0x8000_0000,
        (anchor + rtp_distance(played, anchor) - played) % 0x1_0000_0000 == 0,
{
}

/// The newest part of a history ends where the history ends, and is all of it up to
/// forty observations.
pub proof fn newest_part_is_the_end(history: Seq<Sample>, i: int)
    requires
        0 <= i < newest(history).len(),
    ensures
        newest(history).len() == if history.len() <= 40 {
            history.len() as int
        } else {
            40
        },
        newest(history)[i] == history[history.len() - newest(history).len() + i],
{
}

/// The smaller depth is one of the two and above neither.
pub proof fn shallower_is_the_minimum(a: u32, b: u32)
    ensures
        shallower(a, b) <= a,
        shallower(a, b) <= b,
        shallower(a, b) == a || shallower(a, b) == b,
{
}

/// Reports come in on the port after 5004, four a second: the window holds ten seconds
/// of them, and the drift and the log take two.
pub proof fn reports_come_four_times_a_second()
    ensures
        PORT == 5004 + 1,
        WINDOW_SAMPLES == 4 * 10,
        MIN_SAMPLES_FOR_DRIFT == 4 * 2,
        REPORTS_PER_LOG == 4 * 2,
{
}

} // verus!
