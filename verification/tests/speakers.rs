use std::sync::atomic::{AtomicUsize, Ordering};
use stereo_link::audioout::{fill_error, AudioOut};
use stereo_link::snapshot::{
    after_attempt, first_cells, judge_attempt, plan_write, Cells, ClockSnapshot, ReadStep, Store,
};
use stereo_link::target::{as_signed, fallback_target, retarget, smooth_target};
use stereo_link::window::{Anchor, ClockDeltas, RatioUpdate, RatioWindow};

#[test]
fn speakers_start_behind_by_the_initial_delay() {
    let (out, mut feed) = AudioOut::new(10, 48000, 2);
    assert_eq!(out.sample_rate(), 48000);
    assert_eq!(out.channels, 2);
    assert_eq!(feed.fill_frames(), 480);
    assert_eq!(out.target_handle().load(Ordering::Relaxed), 480);
    assert_eq!(feed.window.start_target, 480);
}

#[test]
fn delay_is_rounded_down_to_frames() {
    let (_out, mut feed) = AudioOut::new(1, 44100, 1);
    assert_eq!(feed.fill_frames(), 44);
}

#[test]
fn pushed_samples_come_out_on_all_channels_after_the_delay() {
    let (mut out, mut feed) = AudioOut::new(10, 1000, 2);
    assert_eq!(feed.fill_frames(), 10);
    out.push(&[7, -8]);
    assert_eq!(out.push_count, 1);
    assert_eq!(feed.fill_frames(), 12);
    for _ in 0..10 {
        feed.advance();
        assert_eq!(feed.next, vec![0, 0]);
    }
    feed.advance();
    assert_eq!(feed.prev, vec![0, 0]);
    assert_eq!(feed.next, vec![7, 7]);
    feed.advance();
    assert_eq!(feed.prev, vec![7, 7]);
    assert_eq!(feed.next, vec![-8, -8]);
    assert_eq!(feed.fill_frames(), 0);
}

#[test]
fn dry_ring_holds_the_last_sample() {
    let (mut out, mut feed) = AudioOut::new(0, 100, 3);
    out.push(&[5]);
    feed.advance();
    assert_eq!(feed.next, vec![5, 5, 5]);
    feed.advance();
    feed.advance();
    assert_eq!(feed.prev, vec![5, 5, 5]);
    assert_eq!(feed.next, vec![5, 5, 5]);
}

#[test]
fn full_ring_drops_what_does_not_fit() {
    let (mut out, mut feed) = AudioOut::new(0, 4, 2);
    out.push(&[1, 2, 3, 4, 5, 6]);
    assert_eq!(feed.fill_frames(), 4);
    for s in 1..5 {
        feed.advance();
        assert_eq!(feed.next, vec![s, s]);
    }
    feed.advance();
    assert_eq!(feed.next, vec![4, 4]);
    out.push(&[9]);
    feed.advance();
    assert_eq!(feed.next, vec![9, 9]);
}

#[test]
fn target_is_shared() {
    let (out, _feed) = AudioOut::new(200, 48000, 2);
    let a = out.target_handle();
    let b = out.target_handle();
    assert_eq!(retarget(&a, 9600 + 400), (9600, 9700));
    assert_eq!(b.load(Ordering::Relaxed), 9700);
}

#[test]
fn fill_error_is_signed() {
    assert_eq!(fill_error(100, 480), -380);
    assert_eq!(fill_error(500, 480), 20);
}

#[test]
fn target_moves_a_quarter_of_the_way() {
    assert_eq!(smooth_target(100, 200), 125);
    assert_eq!(smooth_target(200, 100), 175);
    assert_eq!(smooth_target(100, 103), 100);
    assert_eq!(smooth_target(103, 100), 103);
    assert_eq!(smooth_target(0, 4), 1);
}

#[test]
fn target_never_falls_below_zero() {
    assert_eq!(smooth_target(10, -1000), 0);
    assert_eq!(smooth_target(0, i64::MIN), 0);
    assert_eq!(smooth_target(1000, -1000), 500);
}

#[test]
fn fallback_stays_between_its_bounds() {
    assert_eq!(fallback_target(0, 48000), 2400);
    assert_eq!(fallback_target(-7, 48000), 2400);
    assert_eq!(fallback_target(9600, 48000), 9600);
    assert_eq!(fallback_target(i64::MAX, 48000), 24000);
    assert_eq!(fallback_target(0, 44110), 2205);
    let target = AtomicUsize::new(2400);
    retarget(&target, fallback_target(i64::MIN, 48000));
    assert_eq!(target.load(Ordering::Relaxed), 2400);
}

#[test]
fn repeated_reports_converge() {
    let target = AtomicUsize::new(9600);
    for _ in 0..60 {
        retarget(&target, 4800);
    }
    let t = target.load(Ordering::Relaxed);
    assert!(t >= 4800 && t < 4804);
}

#[test]
fn wide_count_reads_as_signed() {
    assert_eq!(as_signed(0), 0);
    assert_eq!(as_signed(5), 5);
    assert_eq!(as_signed(usize::MAX), usize::MAX as i64);
}

fn filled(w: &mut RatioWindow) {
    while !w.is_full() {
        w.output_frame();
    }
}

#[test]
fn warm_up_windows_have_their_lengths_and_weights() {
    let mut w = RatioWindow::new(10, 77);
    let mut lengths = Vec::new();
    let mut gains = Vec::new();
    let mut now = 0u64;
    for k in 0..7u64 {
        let before = w.frames_total;
        filled(&mut w);
        lengths.push(w.frames_total - before);
        now += 1000;
        if let RatioUpdate::Observed(d) = w.close(77, Some((k * 50, now)), now + 3) {
            gains.push(d.gain_tenths);
        }
    }
    assert_eq!(lengths, vec![20, 30, 50, 50, 300, 300, 300]);
    assert_eq!(gains, vec![10, 5, 3, 1, 1, 1]);
}

#[test]
fn second_clean_window_measures_its_own_span() {
    let mut w = RatioWindow::new(1, 0);
    filled(&mut w);
    assert_eq!(w.close(0, Some((100, 1000)), 2000), RatioUpdate::Anchored);
    assert_eq!(
        w.anchor,
        Some(Anchor { input_frames: 100, input_nanos: 1000, output_frames: 2, output_nanos: 2000 })
    );
    filled(&mut w);
    assert_eq!(
        w.close(0, Some((160, 1500)), 2600),
        RatioUpdate::Observed(ClockDeltas {
            input_frames: 60,
            input_nanos: 500,
            output_frames: 3,
            output_nanos: 600,
            gain_tenths: 10,
            window_frames: 3,
        })
    );
}

#[test]
fn moved_target_skips_the_window_and_keeps_the_anchor() {
    let mut w = RatioWindow::new(1, 0);
    filled(&mut w);
    w.close(0, Some((100, 1000)), 2000);
    let anchor = w.anchor;
    filled(&mut w);
    assert_eq!(w.close(9, Some((160, 1500)), 2600), RatioUpdate::TargetChanged);
    assert_eq!(w.anchor, anchor);
    assert_eq!(w.start_target, 9);
    filled(&mut w);
    match w.close(9, Some((200, 2000)), 3000) {
        RatioUpdate::Observed(d) => {
            assert_eq!(d.input_frames, 100);
            assert_eq!(d.output_frames, 8);
            assert_eq!(d.window_frames, 5);
        }
        _ => panic!("nothing observed"),
    }
}

#[test]
fn startup_window_never_counts() {
    let mut w = RatioWindow::new(1, 0);
    filled(&mut w);
    assert_eq!(w.close(3, Some((1, 2)), 3), RatioUpdate::TargetChanged);
    filled(&mut w);
    assert_eq!(w.close(3, Some((2, 4)), 6), RatioUpdate::Anchored);
    filled(&mut w);
    match w.close(3, Some((3, 6)), 9) {
        RatioUpdate::Observed(d) => assert_eq!(d.gain_tenths, 5),
        _ => panic!("nothing observed"),
    }
}

#[test]
fn unreadable_input_clock_is_skipped() {
    let mut w = RatioWindow::new(1, 0);
    filled(&mut w);
    assert_eq!(w.close(0, None, 2000), RatioUpdate::NoInput);
    assert_eq!(w.anchor, None);
    assert_eq!(w.step, 1);
}

#[test]
fn standing_clock_is_no_measure_but_an_anchor() {
    let mut w = RatioWindow::new(1, 0);
    filled(&mut w);
    w.close(0, Some((1, 10)), 10);
    filled(&mut w);
    assert_eq!(w.close(0, Some((5, 10)), 20), RatioUpdate::Anchored);
    assert_eq!(w.anchor.unwrap().input_frames, 5);
}

#[test]
fn wrapped_counters_measure_right() {
    let mut w = RatioWindow::new(1, 0);
    filled(&mut w);
    w.close(0, Some((u64::MAX, u64::MAX - 4)), u64::MAX);
    filled(&mut w);
    match w.close(0, Some((9, 5)), 99) {
        RatioUpdate::Observed(d) => {
            assert_eq!(d.input_frames, 10);
            assert_eq!(d.input_nanos, 10);
            assert_eq!(d.output_nanos, 100);
        }
        _ => panic!("nothing observed"),
    }
}

#[test]
fn snapshot_gives_back_the_last_reading() {
    let s = ClockSnapshot::new();
    assert_eq!(s.read(), Some((0, 0)));
    s.write(480, 1_000_000);
    assert_eq!(s.read(), Some((480, 1_000_000)));
    s.write(960, 2_000_000);
    s.write(1440, 3_000_000);
    assert_eq!(s.read(), Some((1440, 3_000_000)));
    assert_eq!(s.read(), Some((1440, 3_000_000)));
}

#[test]
fn write_frames_its_stores_with_marks() {
    assert_eq!(
        plan_write(6, 11, 22),
        [Store::Mark(7), Store::Frames(11), Store::HostNanos(22), Store::Mark(8)]
    );
    assert_eq!(
        plan_write(u64::MAX - 1, 1, 2),
        [Store::Mark(u64::MAX), Store::Frames(1), Store::HostNanos(2), Store::Mark(0)]
    );
}

#[test]
fn disturbed_reading_is_refused() {
    assert_eq!(judge_attempt(4, 1, 2, 4), Some((1, 2)));
    assert_eq!(judge_attempt(5, 1, 2, 5), None);
    assert_eq!(judge_attempt(4, 1, 2, 5), None);
    assert_eq!(judge_attempt(4, 1, 2, 6), None);
}

#[test]
fn reader_gives_up_after_four_attempts() {
    assert_eq!(after_attempt(1, None), ReadStep::Retry);
    assert_eq!(after_attempt(3, None), ReadStep::Retry);
    assert_eq!(after_attempt(4, None), ReadStep::GiveUp);
    assert_eq!(after_attempt(1, Some((5, 6))), ReadStep::Done((5, 6)));
    assert_eq!(after_attempt(4, Some((5, 6))), ReadStep::Done((5, 6)));
}

#[test]
fn snapshot_starts_out_zero() {
    assert_eq!(first_cells(), Cells { mark: 0, frames: 0, host_nanos: 0 });
    assert_eq!(ClockSnapshot::new().read(), Some((0, 0)));
}
