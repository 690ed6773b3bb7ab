use stereo_link::audioout::AudioOut;
use stereo_link::blackhole::{buffer_audio, capture_ring, count_frames, loss_milestone, CAPTURE_RING};
use stereo_link::device::{contains, find_device, CAPTURE_DEVICE, SPEAKER_DEVICE};
use stereo_link::encoder::encodel16;
use stereo_link::rtp::RtpSender;
use stereo_link::stream::{drain, next_frame, CHUNK_SAMPLES};

fn ramp(from: i16, len: usize) -> Vec<i16> {
    (0..len).map(|i| from.wrapping_add(i as i16)).collect()
}

#[test]
fn channels_are_not_swapped() {
    let f = encodel16(&[10, -10, 20, -20, i16::MAX, i16::MIN]);
    assert_eq!(f.left, vec![10, 20, i16::MAX]);
    assert_eq!(f.right, vec![-10, -20, i16::MIN]);
}

#[test]
fn odd_sample_is_left_out() {
    let f = encodel16(&[1, 2, 3]);
    assert_eq!(f.left, vec![1]);
    assert_eq!(f.right, vec![2]);
}

#[test]
fn empty_chunk_has_empty_channels() {
    let f = encodel16(&[]);
    assert!(f.left.is_empty());
    assert!(f.right.is_empty());
}

#[test]
fn frame_needs_a_whole_chunk() {
    let (mut prod, mut cons) = capture_ring();
    let mut dropped = 0usize;
    let data = ramp(0, CHUNK_SAMPLES);
    assert_eq!(buffer_audio(&data[..959], &mut prod, &mut dropped), None);
    assert!(next_frame(&mut cons).is_none());
    assert_eq!(buffer_audio(&data[959..], &mut prod, &mut dropped), None);
    let f = next_frame(&mut cons).unwrap();
    assert_eq!(f.left.len(), 480);
    assert_eq!(f.right.len(), 480);
    for i in 0..480 {
        assert_eq!(f.left[i], 2 * i as i16);
        assert_eq!(f.right[i], 2 * i as i16 + 1);
    }
    assert!(next_frame(&mut cons).is_none());
    assert_eq!(dropped, 0);
}

#[test]
fn frames_follow_each_other_without_a_gap() {
    let (mut prod, mut cons) = capture_ring();
    let mut dropped = 0usize;
    buffer_audio(&ramp(0, 2000), &mut prod, &mut dropped);
    let a = next_frame(&mut cons).unwrap();
    let b = next_frame(&mut cons).unwrap();
    assert_eq!(a.right[479], 959);
    assert_eq!(b.left[0], 960);
    assert!(next_frame(&mut cons).is_none());
    assert_eq!(drain(&mut cons), 80);
}

#[test]
fn drained_ring_starts_with_fresh_samples() {
    let (mut prod, mut cons) = capture_ring();
    let mut dropped = 0usize;
    buffer_audio(&ramp(5, 700), &mut prod, &mut dropped);
    assert_eq!(drain(&mut cons), 700);
    assert_eq!(drain(&mut cons), 0);
    buffer_audio(&ramp(100, CHUNK_SAMPLES), &mut prod, &mut dropped);
    let f = next_frame(&mut cons).unwrap();
    assert_eq!(f.left[0], 100);
    assert_eq!(f.right[0], 101);
}

#[test]
fn overflow_is_counted_and_told_at_milestones() {
    let (mut prod, mut cons) = capture_ring();
    let mut dropped = 0usize;
    assert_eq!(buffer_audio(&ramp(0, 30000), &mut prod, &mut dropped), None);
    assert_eq!(buffer_audio(&ramp(0, 5000), &mut prod, &mut dropped), None);
    assert_eq!(dropped, 2232);
    assert_eq!(buffer_audio(&ramp(0, 8000), &mut prod, &mut dropped), Some(10232));
    assert_eq!(buffer_audio(&ramp(0, 6152), &mut prod, &mut dropped), Some(16384));
    assert_eq!(buffer_audio(&ramp(0, 1), &mut prod, &mut dropped), None);
    assert_eq!(dropped, 16385);
    assert_eq!(drain(&mut cons), CAPTURE_RING);
    assert_eq!(buffer_audio(&ramp(0, 5), &mut prod, &mut dropped), None);
    assert_eq!(dropped, 16385);
    assert_eq!(drain(&mut cons), 5);
}

#[test]
fn overflow_keeps_the_front_of_a_chunk() {
    let (mut prod, mut cons) = capture_ring();
    let mut dropped = 0usize;
    buffer_audio(&vec![0; CAPTURE_RING - 960], &mut prod, &mut dropped);
    assert_eq!(buffer_audio(&ramp(1, 962), &mut prod, &mut dropped), Some(2));
    for _ in 0..33 {
        next_frame(&mut cons).unwrap();
    }
    let f = next_frame(&mut cons).unwrap();
    assert_eq!(f.right[63], 0);
    assert_eq!(f.left[64], 1);
    assert_eq!(f.right[64], 2);
    assert_eq!(f.right[479], 832);
    assert_eq!(drain(&mut cons), 128);
}

#[test]
fn channels_rebuild_the_chunk() {
    let data = ramp(-3, 10);
    let f = encodel16(&data);
    let mut again = Vec::new();
    for i in 0..f.left.len() {
        again.push(f.left[i]);
        again.push(f.right[i]);
    }
    assert_eq!(again, data);
}

#[test]
fn left_goes_to_the_tablet_and_right_to_the_speakers() {
    let (mut prod, mut cons) = capture_ring();
    let mut dropped = 0usize;
    buffer_audio(&ramp(0, CHUNK_SAMPLES), &mut prod, &mut dropped);
    let frame = next_frame(&mut cons).unwrap();
    let packet = RtpSender::new().send(&frame.left);
    let (mut out, mut feed) = AudioOut::new(0, 48000, 2);
    out.push(&frame.right);
    assert_eq!(packet.bytes.len(), 12 + 960);
    for i in 0..480usize {
        let b = [packet.bytes[12 + 2 * i], packet.bytes[13 + 2 * i]];
        assert_eq!(i16::from_be_bytes(b), 2 * i as i16);
        feed.advance();
        assert_eq!(feed.next, vec![2 * i as i16 + 1; 2]);
    }
}

#[test]
fn milestones_are_powers_of_two_and_ten_thousands() {
    assert!(loss_milestone(0, 1));
    assert!(loss_milestone(1, 2));
    assert!(!loss_milestone(2, 3));
    assert!(loss_milestone(5, 4096));
    assert!(!loss_milestone(4096, 9999));
    assert!(loss_milestone(9999, 10000));
    assert!(!loss_milestone(10000, 10001));
    assert!(loss_milestone(19000, 30001));
    assert!(!loss_milestone(0, 0));
}

#[test]
fn captured_frames_are_counted_per_channel() {
    assert_eq!(count_frames(10, 960, 2), 490);
    assert_eq!(count_frames(0, 7, 2), 3);
    assert_eq!(count_frames(count_frames(count_frames(0, 960, 2), 512, 2), 6, 2), 739);
    assert_eq!(count_frames(u64::MAX - 1, 6, 6), u64::MAX);
}

#[test]
fn device_is_found_by_a_part_of_its_name() {
    let names = vec![
        Some(String::from("Microphone")),
        None,
        Some(String::from("BlackHole 2ch")),
        Some(String::from("BlackHole 16ch")),
    ];
    assert_eq!(find_device(&names, CAPTURE_DEVICE), Some(2));
    assert_eq!(find_device(&names, SPEAKER_DEVICE), None);
    assert_eq!(find_device(&vec![], CAPTURE_DEVICE), None);
    assert_eq!(find_device(&vec![None], ""), None);
}

#[test]
fn part_of_a_name_is_found_anywhere() {
    assert!(contains("MacBook Pro Speakers", "MacBook Pro Speakers"));
    assert!(contains("MacBook Pro Speakers (2)", "MacBook Pro Speakers"));
    assert!(contains("xxMacBook Pro Speakers", "MacBook Pro Speakers"));
    assert!(!contains("MacBook Air Speakers", "MacBook Pro Speakers"));
    assert!(!contains("blackhole 2ch", "BlackHole"));
    assert!(!contains("BlackHol", "BlackHole"));
    assert!(contains("aab", "ab"));
    assert!(contains("", ""));
    assert!(contains("\u{e9}t\u{e9}", "t\u{e9}"));
}
