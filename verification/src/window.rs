//! When to re-estimate the ratio of the capture clock to the speaker clock.
//!
//! Output frames are counted in windows. At the end of a window the frame and
//! time counts of both clocks are compared with those of the last clean window.
//! Windows are short and weigh much at first, long and weigh little later.
use vstd::prelude::*;

verus! {

/// How many kinds of window there are.
pub const STEPS: usize = 5;

/// The length in seconds of a window at step `step` of the warm-up schedule.
pub open spec fn window_seconds(step: int) -> u64 {
    if step == 0 {
        2
    } else if step == 1 {
        3
    } else if step == 2 || step == 3 {
        5
    } else {
        30
    }
}

/// The weight, in tenths, of a ratio that is observed at step `step`. The first
/// window sees the startup burst and weighs nothing.
pub open spec fn gain_tenths(step: int) -> u32 {
    if step == 0 {
        0
    } else if step == 1 {
        10
    } else if step == 2 {
        5
    } else if step == 3 {
        3
    } else {
        1
    }
}

/// The step after `step`. The last step stays.
pub open spec fn next_step(step: int) -> int {
    if step + 1 < STEPS {
        step + 1
    } else {
        step
    }
}

/// The step after `n` closed windows.
pub open spec fn step_after(n: nat) -> int
    decreases n,
{
    if n == 0 {
        0
    } else {
        next_step(step_after((n - 1) as nat))
    }
}

/// The counts of both clocks at the end of a window.
#[derive(Clone, Copy, PartialEq, Eq, Structural, Debug)]
pub struct Anchor {
    /// Frames captured so far.
    pub input_frames: u64,
    /// Host time of the last capture, in nanoseconds.
    pub input_nanos: u64,
    /// Frames played so far.
    pub output_frames: u64,
    /// Host time now, in nanoseconds.
    pub output_nanos: u64,
}

/// What both clocks did between two anchors, and how much that counts.
#[derive(Clone, Copy, PartialEq, Eq, Structural, Debug)]
pub struct ClockDeltas {
    pub input_frames: u64,
    pub input_nanos: u64,
    pub output_frames: u64,
    pub output_nanos: u64,
    /// Weight of this observation, in tenths.
    pub gain_tenths: u32,
    /// Length of the window that ended, in output frames.
    pub window_frames: u64,
}

/// What the end of a window brought.
#[derive(Clone, Copy, PartialEq, Eq, Structural, Debug)]
pub enum RatioUpdate {
    /// The target delay moved during the window: the window is no measure.
    TargetChanged,
    /// The capture clock could not be read.
    NoInput,
    /// There is nothing to compare with yet, or a clock stood still.
    Anchored,
    /// The ratio is to be updated with these counts.
    Observed(ClockDeltas),
}

/// The difference of two wrapping counters.
pub open spec fn counter_gap(now: u64, then: u64) -> u64 {
    if now >= then {
        (now - then) as u64
    } else {
        (now - then + 0x1_0000_0000_0000_0000) as u64
    }
}

/// The deltas from `then` to `now`.
pub open spec fn deltas(then: Anchor, now: Anchor, step: int, window_frames: u64) -> ClockDeltas {
    ClockDeltas {
        input_frames: counter_gap(now.input_frames, then.input_frames),
        input_nanos: counter_gap(now.input_nanos, then.input_nanos),
        output_frames: counter_gap(now.output_frames, then.output_frames),
        output_nanos: counter_gap(now.output_nanos, then.output_nanos),
        gain_tenths: gain_tenths(step),
        window_frames,
    }
}

/// Both clocks ran and something was played: the ratio of the rates is defined.
pub open spec fn measurable(d: ClockDeltas) -> bool {
    d.input_nanos > 0 && d.output_nanos > 0 && d.output_frames > 0
}

/// The window that is being counted.
pub struct RatioWindow {
    pub sample_rate: u32,
    /// Step of the warm-up schedule.
    pub step: usize,
    /// Output frames in this window so far.
    pub window_frames: u64,
    /// The target delay when the window began.
    pub start_target: usize,
    /// Output frames since the start.
    pub frames_total: u64,
    /// The counts at the end of the last clean window.
    pub anchor: Option<Anchor>,
}

impl RatioWindow {
    /// The step is one of the schedule, a window is never longer than all that
    /// was played, and the first window has nothing to be compared with.
    pub open spec fn wf(self) -> bool {
        &&& self.step < STEPS
        &&& self.window_frames <= self.frames_total
        &&& self.step == 0 ==> self.anchor is None
    }

    /// The length of this window in output frames.
    pub open spec fn size(self) -> int {
        self.sample_rate * window_seconds(self.step as int)
    }

    /// The anchor that the end of this window would set.
    pub open spec fn anchor_at(self, input: (u64, u64), host_nanos: u64) -> Anchor {
        Anchor {
            input_frames: input.0,
            input_nanos: input.1,
            output_frames: self.frames_total,
            output_nanos: host_nanos,
        }
    }

    /// What ending this window brings.
    pub open spec fn update(
        self,
        target: usize,
        input: Option<(u64, u64)>,
        host_nanos: u64,
    ) -> RatioUpdate {
        if target != self.start_target {
            RatioUpdate::TargetChanged
        } else {
            match input {
                None => RatioUpdate::NoInput,
                Some(pair) => match self.anchor {
                    None => RatioUpdate::Anchored,
                    Some(then) => {
                        let d = deltas(
                            then,
                            self.anchor_at(pair, host_nanos),
                            self.step as int,
                            self.window_frames,
                        );
                        if measurable(d) {
                            RatioUpdate::Observed(d)
                        } else {
                            RatioUpdate::Anchored
                        }
                    },
                },
            }
        }
    }

    /// The window that follows this one.
    pub open spec fn next_window(
        self,
        target: usize,
        input: Option<(u64, u64)>,
        host_nanos: u64,
    ) -> RatioWindow {
        RatioWindow {
            sample_rate: self.sample_rate,
            step: next_step(self.step as int) as usize,
            window_frames: 0,
            start_target: target,
            frames_total: self.frames_total,
            anchor: if target == self.start_target && input is Some {
                Some(self.anchor_at(input->0, host_nanos))
            } else {
                self.anchor
            },
        }
    }

    /// The first window, with nothing counted.
    pub fn new(sample_rate: u32, delay_frames: usize) -> (w: RatioWindow)
        ensures
            w.wf(),
            w == (RatioWindow {
                sample_rate,
                step: 0,
                window_frames: 0,
                start_target: delay_frames,
                frames_total: 0,
                anchor: None,
            }),
    {
        RatioWindow {
            sample_rate,
            step: 0,
            window_frames: 0,
            start_target: delay_frames,
            frames_total: 0,
            anchor: None,
        }
    }

    /// Counts one output frame.
    pub fn output_frame(&mut self)
        requires
            old(self).wf(),
            old(self).frames_total < u64::MAX,
        ensures
            final(self).wf(),
            *final(self) == (RatioWindow {
                window_frames: (old(self).window_frames + 1) as u64,
                frames_total: (old(self).frames_total + 1) as u64,
                ..*old(self)
            }),
    {
        self.window_frames = self.window_frames + 1;
        self.frames_total = self.frames_total + 1;
    }

    /// Whether the window has come to its end.
    pub fn is_full(&self) -> (r: bool)
        requires
            self.wf(),
        ensures
            r == (self.window_frames >= self.size()),
    {
        let seconds: u64 = seconds_of(self.step);
        proof {
            assert(self.sample_rate * seconds <= 0xffff_ffff * 30) by (nonlinear_arith)
                requires
                    self.sample_rate <= 0xffff_ffff,
                    seconds <= 30,
            ;
        }
        self.window_frames >= self.sample_rate as u64 * seconds
    }

    /// Ends a window that is full. `input` is what the capture clock showed, `host_nanos`
    /// the time now, and `target` the target delay now.
    pub fn close(
        &mut self,
        target: usize,
        input: Option<(u64, u64)>,
        host_nanos: u64,
    ) -> (r: RatioUpdate)
        requires
            old(self).wf(),
            old(self).window_frames >= old(self).size(),
        ensures
            final(self).wf(),
            r == old(self).update(target, input, host_nanos),
            *final(self) == old(self).next_window(target, input, host_nanos),
    {
        let mut r: RatioUpdate = RatioUpdate::TargetChanged;
        if target == self.start_target {
            match input {
                None => {
                    r = RatioUpdate::NoInput;
                },
                Some(pair) => {
                    let now: Anchor = Anchor {
                        input_frames: pair.0,
                        input_nanos: pair.1,
                        output_frames: self.frames_total,
                        output_nanos: host_nanos,
                    };
                    r = RatioUpdate::Anchored;
                    if let Some(then) = self.anchor {
                        let d: ClockDeltas = ClockDeltas {
                            input_frames: now.input_frames.wrapping_sub(then.input_frames),
                            input_nanos: now.input_nanos.wrapping_sub(then.input_nanos),
                            output_frames: now.output_frames.wrapping_sub(then.output_frames),
                            output_nanos: now.output_nanos.wrapping_sub(then.output_nanos),
                            gain_tenths: gain_of(self.step),
                            window_frames: self.window_frames,
                        };
                        if d.input_nanos > 0 && d.output_nanos > 0 && d.output_frames > 0 {
                            r = RatioUpdate::Observed(d);
                        }
                    }
                    self.anchor = Some(now);
                },
            }
        }
        self.start_target = target;
        self.window_frames = 0;
        if self.step + 1 < STEPS {
            self.step = self.step + 1;
        }
        r
    }
}

/// The window length of a step, in seconds.
fn seconds_of(step: usize) -> (r: u64)
    ensures
        r == window_seconds(step as int),
{
    if step == 0 {
        2
    } else if step == 1 {
        3
    } else if step == 2 || step == 3 {
        5
    } else {
        30
    }
}

/// The weight of a step, in tenths.
fn gain_of(step: usize) -> (r: u32)
    ensures
        r == gain_tenths(step as int),
{
    if step == 0 {
        0
    } else if step == 1 {
        10
    } else if step == 2 {
        5
    } else if step == 3 {
        3
    } else {
        1
    }
}

/// The warm-up takes exactly four windows: from then on every window has the
/// steady length and weight.
pub proof fn warm_up_ends(n: nat)
    ensures
        n < STEPS ==> step_after(n) == n,
        n >= STEPS - 1 ==> step_after(n) == STEPS - 1 && window_seconds(step_after(n)) == 30
            && gain_tenths(step_after(n)) == 1,
    decreases n,
{
    if n > 0 {
        warm_up_ends((n - 1) as nat);
    }
}

/// The startup burst never counts: whatever the first window ends with, nothing
/// is observed, and every later observation weighs something.
pub proof fn startup_window_never_counts(
    w: RatioWindow,
    target: usize,
    input: Option<(u64, u64)>,
    host_nanos: u64,
)
    requires
        w.wf(),
    ensures
        w.step == 0 ==> !(w.update(target, input, host_nanos) is Observed),
        w.update(target, input, host_nanos) matches RatioUpdate::Observed(d)
            ==> 1 <= d.gain_tenths <= 10,
{
}

/// Observed gaps add up: what the clocks did between the first and the last of
/// three anchors is what they did from the first to the second and from the
/// second to the third, also where a counter wraps in between.
pub proof fn gaps_add_up(first: u64, second: u64, third: u64)
    ensures
        (counter_gap(second, first) + counter_gap(third, second) - counter_gap(third, first))
            % 0x1_0000_0000_0000_0000 == 0,
{
}

/// A window during which the target moved leaves no trace in the measurement:
/// nothing is observed and the next clean window is compared with the same
/// anchor as this one would have been.
pub proof fn moved_target_is_skipped(
    w: RatioWindow,
    target: usize,
    input: Option<(u64, u64)>,
    host_nanos: u64,
)
    requires
        w.wf(),
        target != w.start_target,
    ensures
        w.update(target, input, host_nanos) == RatioUpdate::TargetChanged,
        w.next_window(target, input, host_nanos).anchor == w.anchor,
        w.next_window(target, input, host_nanos).start_target == target,
{
}

/// While the target rests and the capture clock can be read, two windows in a
/// row measure exactly the span of the second one.
pub proof fn clean_windows_measure_their_own_span(
    w: RatioWindow,
    input: (u64, u64),
    host_nanos: u64,
    next: RatioWindow,
    next_input: (u64, u64),
    next_nanos: u64,
)
    requires
        w.wf(),
        next.wf(),
        next.start_target == w.start_target,
        next.anchor == w.next_window(w.start_target, Some(input), host_nanos).anchor,
        next.frames_total == w.frames_total + next.window_frames,
        next.window_frames > 0,
        next_nanos > host_nanos,
        next_input.1 > input.1,
    ensures
        next.update(next.start_target, Some(next_input), next_nanos) is Observed,
        ({
            let d = next.update(next.start_target, Some(next_input), next_nanos)->Observed_0;
            &&& d.output_frames == next.window_frames == d.window_frames
            &&& d.output_nanos == next_nanos - host_nanos
            &&& d.input_nanos == next_input.1 - input.1
            &&& next_input.0 >= input.0 ==> d.input_frames == next_input.0 - input.0
            &&& next_input.0 < input.0 ==> d.input_frames == next_input.0 - input.0
                + 0x1_0000_0000_0000_0000
        }),
{
}

/// What the end of a window brings is decided by the target, the readings and the
/// anchor alone. Only a window with a resting target, a reading, an anchor and two
/// clocks that ran is observed, and then each difference, added to the anchor, gives
/// the count of now, perhaps after one round of the counter.
pub proof fn window_ends_are_told_apart(
    w: RatioWindow,
    target: usize,
    input: Option<(u64, u64)>,
    host_nanos: u64,
)
    requires
        w.wf(),
    ensures
        w.update(target, input, host_nanos) is TargetChanged <==> target != w.start_target,
        w.update(target, input, host_nanos) is NoInput <==> target == w.start_target
            && input is None,
        w.update(target, input, host_nanos) is Observed <==> {
            &&& target == w.start_target
            &&& input is Some
            &&& w.anchor is Some
            &&& (input->0).1 != w.anchor->0.input_nanos
            &&& host_nanos != w.anchor->0.output_nanos
            &&& w.frames_total != w.anchor->0.output_frames
        },
        w.update(target, input, host_nanos) matches RatioUpdate::Observed(d) ==> {
            let a = w.anchor->0;
            &&& a.input_frames + d.input_frames == (input->0).0 || a.input_frames + d.input_frames
                == (input->0).0 + 0x1_0000_0000_0000_0000
            &&& a.input_nanos + d.input_nanos == (input->0).1 || a.input_nanos + d.input_nanos
                == (input->0).1 + 0x1_0000_0000_0000_0000
            &&& a.output_frames + d.output_frames == w.frames_total || a.output_frames
                + d.output_frames == w.frames_total + 0x1_0000_0000_0000_0000
            &&& a.output_nanos + d.output_nanos == host_nanos || a.output_nanos + d.output_nanos
                == host_nanos + 0x1_0000_0000_0000_0000
            &&& d.window_frames == w.window_frames
            &&& w.step == 1 ==> d.gain_tenths == 10
            &&& w.step == 2 ==> d.gain_tenths == 5
            &&& w.step == 3 ==> d.gain_tenths == 3
            &&& w.step == 4 ==> d.gain_tenths == 1
        },
{
}

/// What stays from one window to the next: the rate and the count of frames. A
/// reading in a window with a resting target becomes the anchor, and otherwise the
/// anchor stays. The next window starts empty, with the target of now, one step
/// further until the fifth.
pub proof fn next_window_starts_clean(
    w: RatioWindow,
    target: usize,
    input: Option<(u64, u64)>,
    host_nanos: u64,
)
    requires
        w.wf(),
    ensures
        ({
            let n = w.next_window(target, input, host_nanos);
            &&& n.sample_rate == w.sample_rate
            &&& n.frames_total == w.frames_total
            &&& n.window_frames == 0
            &&& n.start_target == target
            &&& w.step < 4 ==> n.step == w.step + 1
            &&& w.step == 4 ==> n.step == 4
            &&& target != w.start_target || input is None ==> n.anchor == w.anchor
            &&& target == w.start_target && input is Some ==> n.anchor == Some(
                Anchor {
                    input_frames: (input->0).0,
                    input_nanos: (input->0).1,
                    output_frames: w.frames_total,
                    output_nanos: host_nanos,
                },
            )
        }),
{
}

/// The windows of the warm-up last two, three, five and five seconds, and all others
/// thirty, at any sample rate.
pub proof fn windows_last_whole_seconds(w: RatioWindow)
    requires
        w.wf(),
    ensures
        w.step == 0 ==> w.size() == 2 * w.sample_rate,
        w.step == 1 ==> w.size() == 3 * w.sample_rate,
        w.step == 2 ==> w.size() == 5 * w.sample_rate,
        w.step == 3 ==> w.size() == 5 * w.sample_rate,
        w.step == 4 ==> w.size() == 30 * w.sample_rate,
{
}

} // verus!
