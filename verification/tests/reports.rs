use std::time::{SystemTime, UNIX_EPOCH};
use stereo_link::clock::ntp_from_unix;
use stereo_link::playout::{
    ntp_now, parse_report, rtp_delta, ClockEstimator, PlayoutStep, PlayoutTracker, Sample,
};

fn report(ipad_ntp: u64, played: u32, depth: u32) -> Vec<u8> {
    let mut b = vec![0x53, 0x54, 0x45, 0x52, 1, 0, 0, 0];
    b.extend_from_slice(&ipad_ntp.to_be_bytes());
    b.extend_from_slice(&played.to_be_bytes());
    b.extend_from_slice(&depth.to_be_bytes());
    b
}

fn sample(rtt_nanos: u64) -> Sample {
    Sample { mac_ntp: 1000 + rtt_nanos, ipad_ntp: 900, rtt_nanos }
}

#[test]
fn report_is_read() {
    let r = parse_report(&report(0x0102_0304_0506_0708, 96000, 2400)).unwrap();
    assert_eq!(r.ipad_ntp, 0x0102_0304_0506_0708);
    assert_eq!(r.last_rtp_played, 96000);
    assert_eq!(r.dejitter_depth, 2400);
}

#[test]
fn padding_and_trailing_bytes_are_ignored() {
    let mut b = report(1, 2, 3);
    b[5] = 7;
    b[6] = 8;
    b[7] = 9;
    b.push(10);
    assert_eq!(parse_report(&b), parse_report(&report(1, 2, 3)));
}

#[test]
fn foreign_datagrams_are_no_reports() {
    let good = report(1, 2, 3);
    assert!(parse_report(&good).is_some());
    assert!(parse_report(&good[..23]).is_none());
    assert!(parse_report(&[]).is_none());
    let mut magic = good.clone();
    magic[3] = 0x53;
    assert!(parse_report(&magic).is_none());
    let mut version = good.clone();
    version[4] = 2;
    assert!(parse_report(&version).is_none());
    let mut t = PlayoutTracker::new();
    assert_eq!(t.on_packet(&version, 5, 6, (7, 8)), PlayoutStep::NotAReport);
    assert!(t.estimator.best_sample().is_none());
}

#[test]
fn presync_reports_show_life_and_feed_nothing() {
    let mut t = PlayoutTracker::new();
    assert_eq!(t.on_packet(&report(0, 0, 0), 5, 6, (7, 8)), PlayoutStep::Alive);
    assert_eq!(t.on_packet(&report(9, 1, 0), 5, 6, (7, 8)), PlayoutStep::Alive);
    assert_eq!(t.on_packet(&report(9, 0, 1), 5, 6, (7, 8)), PlayoutStep::Alive);
    assert!(t.estimator.best_sample().is_none());
}

#[test]
fn tablet_is_ready_once_it_was_heard_of() {
    let mut t = PlayoutTracker::new();
    assert!(!t.ready);
    t.on_packet(&[1, 2, 3], 5, 6, (7, 8));
    assert!(!t.ready);
    t.on_packet(&report(0, 0, 0), 5, 0, (0, 0));
    assert!(t.ready);
    t.on_packet(&[1, 2, 3], 5, 6, (7, 8));
    assert!(t.ready);
    t.note_depth(9);
    assert!(t.ready);
}

#[test]
fn reports_wait_for_a_round_trip() {
    let mut t = PlayoutTracker::new();
    assert_eq!(t.on_packet(&report(9, 1, 1), 5, 0, (7, 8)), PlayoutStep::Alive);
    assert!(t.estimator.best_sample().is_none());
}

#[test]
fn reports_before_the_first_packet_are_observed_but_measure_nothing() {
    let mut t = PlayoutTracker::new();
    assert_eq!(t.on_packet(&report(9, 1, 1), 5, 6, (0, 0)), PlayoutStep::Alive);
    assert_eq!(
        t.estimator.best_sample(),
        Some(Sample { mac_ntp: 5, ipad_ntp: 9, rtt_nanos: 6 })
    );
}

#[test]
fn report_is_measured_with_the_best_observation() {
    let mut t = PlayoutTracker::new();
    t.on_packet(&report(900, 100, 50), 1000, 10, (77, 400));
    match t.on_packet(&report(1900, 1100, 60), 2000, 30, (78, 1500)) {
        PlayoutStep::Measure(m) => {
            assert_eq!(m.report.ipad_ntp, 1900);
            assert_eq!(m.report.dejitter_depth, 60);
            assert_eq!(m.best, Sample { mac_ntp: 1000, ipad_ntp: 900, rtt_nanos: 10 });
            assert_eq!(m.anchor_ntp, 78);
            assert_eq!(m.delta_samples, -400);
        }
        _ => panic!("no measurement"),
    }
}

#[test]
fn rtp_distance_survives_wrapping() {
    assert_eq!(rtp_delta(1500, 1000), 500);
    assert_eq!(rtp_delta(1000, 1500), -500);
    assert_eq!(rtp_delta(5, u32::MAX), 6);
    assert_eq!(rtp_delta(u32::MAX, 5), -6);
    assert_eq!(rtp_delta(0x8000_0000, 0), i32::MIN);
    assert_eq!(rtp_delta(0x7fff_ffff, 0), i32::MAX);
}

#[test]
fn shortest_round_trip_wins_and_the_earliest_of_several() {
    let mut e = ClockEstimator::new();
    assert_eq!(e.best_sample(), None);
    e.push(sample(30));
    e.push(sample(10));
    e.push(Sample { mac_ntp: 5, ipad_ntp: 6, rtt_nanos: 10 });
    e.push(sample(20));
    assert_eq!(e.best_sample(), Some(sample(10)));
}

#[test]
fn old_observations_leave_the_window() {
    let mut e = ClockEstimator::new();
    e.push(sample(1));
    for k in 0..39 {
        e.push(sample(100 + k));
    }
    assert_eq!(e.best_sample(), Some(sample(1)));
    assert_eq!(e.drift_samples().unwrap().len(), 40);
    e.push(sample(500));
    assert_eq!(e.best_sample(), Some(sample(100)));
    let kept = e.drift_samples().unwrap();
    assert_eq!(kept.len(), 40);
    assert_eq!(kept[0], sample(100));
    assert_eq!(kept[39], sample(500));
}

#[test]
fn drift_needs_eight_observations() {
    let mut e = ClockEstimator::new();
    for k in 0..7 {
        e.push(sample(k + 1));
    }
    assert!(e.drift_samples().is_none());
    e.push(sample(8));
    assert_eq!(e.drift_samples().unwrap().len(), 8);
}

#[test]
fn every_eighth_report_logs_the_smallest_depth() {
    let mut t = PlayoutTracker::new();
    let depths = [90u32, 80, 20, 70, 60, 50, 40, 30];
    for d in &depths[..7] {
        assert_eq!(t.note_depth(*d), None);
    }
    assert_eq!(t.note_depth(depths[7]), Some(20));
    for _ in 0..7 {
        assert_eq!(t.note_depth(100), None);
    }
    assert_eq!(t.note_depth(99), Some(99));
    assert_eq!(t.report_count, 16);
}

#[test]
fn arrival_is_stamped_with_the_wall_clock() {
    let before = SystemTime::now().duration_since(UNIX_EPOCH).unwrap();
    let ntp = ntp_now();
    let after = SystemTime::now().duration_since(UNIX_EPOCH).unwrap();
    assert!(ntp_from_unix(before.as_secs(), before.subsec_nanos()) <= ntp);
    assert!(ntp <= ntp_from_unix(after.as_secs(), after.subsec_nanos()));
}
