use std::time::{Duration, Instant, SystemTime, UNIX_EPOCH};
use stereo_link::clock::{ntp_from_reading, ntp_from_unix, NTP_UNIX_OFFSET};
use stereo_link::dest::{bump_port, parse_dest, parse_port, DestError};
use stereo_link::rtp::{
    build_sender_report, find_answer, measure_rr, ntp_timestamp_now, parse_rr, ReportBlock,
    RtpSender, SenderStats, SSRC,
};
use stereo_link::wire::{be16, be32, be64, read_u16, read_u32, read_u64};

fn receiver_report(jitter: u32, lsr: u32, dlsr: u32) -> Vec<u8> {
    let mut b = vec![0x81, 201, 0, 7, 0, 0, 0, 9];
    b.extend_from_slice(&report_block(jitter, lsr, dlsr));
    b
}

fn report_block(jitter: u32, lsr: u32, dlsr: u32) -> Vec<u8> {
    let mut b = vec![0, 0, 0x12, 0x34, 1, 0, 0, 2, 0, 0, 3, 4];
    b.extend_from_slice(&jitter.to_be_bytes());
    b.extend_from_slice(&lsr.to_be_bytes());
    b.extend_from_slice(&dlsr.to_be_bytes());
    b
}

#[test]
fn numbers_are_written_big_endian() {
    assert_eq!(be16(0x0102), [1, 2]);
    assert_eq!(be32(0x0102_0304), [1, 2, 3, 4]);
    assert_eq!(be64(0x0102_0304_0506_0708), [1, 2, 3, 4, 5, 6, 7, 8]);
    assert_eq!(read_u16(&[9, 1, 2], 1), 0x0102);
    assert_eq!(read_u32(&[9, 1, 2, 3, 4], 1), 0x0102_0304);
    assert_eq!(read_u64(&[0xff, 0, 0, 0, 0, 0, 0, 1], 0), 0xff00_0000_0000_0001);
}

#[test]
fn packet_has_a_fixed_header_and_big_endian_samples() {
    let mut sender = RtpSender::new();
    let p = sender.send(&[1, -1, 256, i16::MIN]);
    assert_eq!(
        p.bytes,
        vec![
            0x80, 11, 0, 0, 0, 0, 0, 0, 0, 0, 0x12, 0x34, 0, 1, 0xff, 0xff, 1, 0, 0x80, 0
        ]
    );
    assert_eq!(p.timestamp, 0);
    assert_eq!(p.octets, 8);
    assert_eq!(sender.seq, 1);
    assert_eq!(sender.timestamp, 4);
}

#[test]
fn packets_follow_without_gaps() {
    let mut sender = RtpSender::new();
    sender.send(&[0; 480]);
    sender.send(&[0; 480]);
    let p = sender.send(&[7]);
    assert_eq!(p.timestamp, 960);
    assert_eq!(&p.bytes[2..8], &[0, 2, 0, 0, 3, 0xc0]);
}

#[test]
fn numbering_wraps() {
    let mut sender = RtpSender { seq: u16::MAX, timestamp: u32::MAX };
    let p = sender.send(&[1, 2, 3]);
    assert_eq!(&p.bytes[2..8], &[0xff; 6]);
    assert_eq!(sender.seq, 0);
    assert_eq!(sender.timestamp, 2);
}

#[test]
fn empty_packet_has_no_payload() {
    let mut sender = RtpSender::new();
    let p = sender.send(&[]);
    assert_eq!(p.bytes.len(), 12);
    assert_eq!(p.octets, 0);
    assert_eq!(sender.seq, 1);
    assert_eq!(sender.timestamp, 0);
}

#[test]
fn sender_report_is_laid_out() {
    let sr = build_sender_report(SSRC, 0x0102_0304_0506_0708, 0x0a0b_0c0d, 3, 0x0100_0000);
    assert_eq!(
        sr,
        [
            0x80, 200, 0, 6, 0, 0, 0x12, 0x34, 1, 2, 3, 4, 5, 6, 7, 8, 10, 11, 12, 13, 0, 0, 0, 3,
            1, 0, 0, 0
        ]
    );
}

#[test]
fn no_report_before_the_first_packet() {
    let stats = SenderStats::new();
    assert!(stats.sender_report().is_none());
    assert_eq!(stats.last_rtt_nanos, 0);
}

#[test]
fn report_tells_what_was_sent() {
    let mut sender = RtpSender::new();
    let mut stats = SenderStats::new();
    let a = sender.send(&[0; 480]);
    stats.record_packet(0x1111_2222_3333_4444, &a);
    let b = sender.send(&[0; 480]);
    stats.record_packet(0x1111_2222_3333_5555, &b);
    assert_eq!(stats.packet_count, 2);
    assert_eq!(stats.octet_count, 1920);
    assert_eq!(stats.last_pair, (0x1111_2222_3333_5555, 480));
    let sr = stats.sender_report().unwrap();
    assert_eq!(sr.lsr, 0x2222_3333);
    assert_eq!(sr.bytes, build_sender_report(SSRC, 0x1111_2222_3333_5555, 480, 2, 1920));
    assert_eq!(&sr.bytes[10..14], &[0x22, 0x22, 0x33, 0x33]);
}

#[test]
fn counters_of_the_report_wrap() {
    let mut stats = SenderStats::new();
    stats.packet_count = u32::MAX;
    stats.octet_count = u32::MAX;
    let p = RtpSender::new().send(&[1]);
    stats.record_packet(5, &p);
    assert_eq!(stats.packet_count, 0);
    assert_eq!(stats.octet_count, 1);
}

#[test]
fn answer_gives_round_trip_and_jitter() {
    let b = receiver_report(17, 0x2222_3333, 65536 / 2);
    assert_eq!(measure_rr(&b, Some(0x2222_3333), 520_000_000), Some((20_000_000, 17)));
    assert_eq!(measure_rr(&b, Some(0x2222_3333), 500_000_000), Some((0, 17)));
    let c = receiver_report(0, 1, 1);
    assert_eq!(measure_rr(&c, Some(1), 20_000), Some((20_000 - 15_258, 0)));
}

#[test]
fn fields_of_an_answer_stand_in_their_places() {
    let b = [
        0x81, 201, 0, 7, 0, 0, 0, 1, 0, 0, 0x12, 0x34, 0, 0, 0, 0, 0, 0, 0, 9, 0, 0, 1, 0xe0, 0x7e,
        0x80, 0x80, 0, 0, 1, 0, 0,
    ];
    assert_eq!(measure_rr(&b, Some(0x7e80_8000), 1_250_000_000), Some((250_000_000, 480)));
    assert_eq!(
        find_answer(&b, 0x7e80_8000),
        Some(ReportBlock { jitter: 480, lsr: 0x7e80_8000, dlsr: 65536 })
    );
    assert_eq!(find_answer(&b, 480), None);
}

#[test]
fn answer_behind_a_sender_report_is_found() {
    let mut b = build_sender_report(7, 0, 0, 0, 0).to_vec();
    b.extend_from_slice(&[0x81, 201, 0, 7, 0, 0, 0, 1]);
    for _ in 0..6 {
        b.extend_from_slice(&[0, 1, 0, 0]);
    }
    assert_eq!(measure_rr(&b, Some(65536), 1_250_000_000), Some((250_000_000, 65536)));
    assert_eq!(measure_rr(&b, Some(65537), 1_250_000_000), None);
    let mut c = receiver_report(1, 2, 3);
    c.extend_from_slice(&receiver_report(4, 5, 0));
    assert_eq!(measure_rr(&c, Some(5), 77), Some((77, 4)));
    assert_eq!(measure_rr(&c, Some(2), 100_000), Some((100_000 - 45_776, 1)));
}

#[test]
fn every_block_of_an_answer_is_looked_at() {
    let mut b = receiver_report(1, 2, 3);
    b.extend_from_slice(&report_block(4, 5, 0));
    b[0] = 0x82;
    b[3] = 13;
    assert_eq!(measure_rr(&b, Some(5), 9), Some((9, 4)));
    assert_eq!(measure_rr(&b[..55], Some(5), 9), None);
    b[0] = 0x81;
    assert_eq!(measure_rr(&b, Some(5), 9), None);
}

#[test]
fn packet_of_another_version_ends_the_search() {
    let mut b = vec![0x40, 200, 0, 0];
    b.extend_from_slice(&receiver_report(1, 2, 0));
    assert_eq!(measure_rr(&b, Some(2), 9), None);
    b[0] = 0x80;
    assert_eq!(measure_rr(&b, Some(2), 9), Some((9, 1)));
    let mut c = vec![0x80, 200, 0, 0, 0xc0, 200, 0, 0];
    c.extend_from_slice(&receiver_report(1, 2, 0));
    assert_eq!(measure_rr(&c, Some(2), 9), None);
}

#[test]
fn block_is_not_read_from_the_next_packet() {
    let mut b = receiver_report(1, 2, 3);
    b[0] = 0x82;
    b.extend_from_slice(&report_block(4, 5, 0));
    assert_eq!(measure_rr(&b, Some(5), 9), None);
    assert_eq!(measure_rr(&b, Some(2), 100_000), Some((100_000 - 45_776, 1)));
    b[3] = 13;
    assert_eq!(measure_rr(&b, Some(5), 9), Some((9, 4)));
}

#[test]
fn first_block_is_read_whatever_the_length_field_says() {
    let mut b = receiver_report(1, 2, 0);
    b[3] = 0;
    assert_eq!(measure_rr(&b, Some(2), 9), Some((9, 1)));
}

#[test]
fn packet_that_runs_over_the_end_ends_the_search() {
    let mut b = vec![0x80, 200, 0xff, 0xff];
    b.extend_from_slice(&receiver_report(1, 2, 0));
    assert_eq!(measure_rr(&b, Some(2), 9), None);
    b[2] = 0;
    b[3] = 0;
    assert_eq!(measure_rr(&b, Some(2), 9), Some((9, 1)));
}

#[test]
fn only_a_measured_round_trip_is_noted() {
    let mut stats = SenderStats::new();
    assert_eq!(stats.receive_report(&receiver_report(3, 42, 0)), None);
    assert_eq!(stats.last_rtt_nanos, 0);
    stats.record_report(42, Some(Instant::now() - Duration::from_millis(50)));
    assert_eq!(stats.receive_report(&receiver_report(3, 41, 0)), None);
    assert_eq!(stats.last_rtt_nanos, 0);
    let (rtt, jitter) = stats.receive_report(&receiver_report(3, 42, 0)).unwrap();
    assert_eq!(jitter, 3);
    assert_eq!(stats.last_rtt_nanos as u128, rtt);
    assert!(rtt >= 50_000_000);
}

#[test]
fn report_that_was_not_sent_changes_nothing() {
    let mut stats = SenderStats::new();
    let p = RtpSender::new().send(&[1, 2]);
    stats.record_packet(0x1111_2222_3333_4444, &p);
    let lsr = stats.sender_report().unwrap().lsr;
    stats.record_report(lsr, None);
    assert!(stats.last_sr.is_none());
    stats.record_report(lsr, Some(Instant::now()));
    assert_eq!(stats.last_sr.unwrap().0, 0x2222_3333);
    stats.record_report(7, None);
    assert_eq!(stats.last_sr.unwrap().0, 0x2222_3333);
    assert_eq!((stats.packet_count, stats.octet_count), (1, 4));
}

#[test]
fn counts_cover_every_packet() {
    let mut sender = RtpSender::new();
    let mut stats = SenderStats::new();
    for (k, len) in [480usize, 0, 3, 480].iter().enumerate() {
        let p = sender.send(&vec![0i16; *len]);
        assert_eq!(read_u16(&p.bytes, 2) as usize, k);
        assert_eq!(p.bytes.len(), 12 + 2 * len);
        stats.record_packet(9 + k as u64, &p);
    }
    assert_eq!(stats.packet_count, 4);
    assert_eq!(stats.octet_count, 2 * 963);
    assert_eq!(stats.last_pair, (12, 483));
}

#[test]
fn answer_held_longer_than_it_took_is_refused() {
    let b = receiver_report(17, 1, 65536 / 2);
    assert_eq!(measure_rr(&b, Some(1), 499_999_999), None);
}

#[test]
fn answer_to_another_report_is_refused() {
    let b = receiver_report(17, 1, 0);
    assert_eq!(measure_rr(&b, Some(2), 1000), None);
    assert_eq!(measure_rr(&b, None, 1000), None);
}

#[test]
fn malformed_answers_are_refused() {
    let good = receiver_report(17, 1, 0);
    assert_eq!(measure_rr(&good, Some(1), 1000), Some((1000, 17)));
    assert_eq!(measure_rr(&good[..31], Some(1), 1000), None);
    assert_eq!(measure_rr(&good[..7], Some(1), 1000), None);
    assert_eq!(measure_rr(&[], Some(1), 1000), None);
    let mut version = good.clone();
    version[0] = 0x41;
    assert_eq!(measure_rr(&version, Some(1), 1000), None);
    let mut blocks = good.clone();
    blocks[0] = 0x80;
    assert_eq!(measure_rr(&blocks, Some(1), 1000), None);
    let mut padded = good.clone();
    padded[0] = 0xa1;
    assert_eq!(measure_rr(&padded, Some(1), 1000), Some((1000, 17)));
    let mut kind = good.clone();
    kind[1] = 200;
    assert_eq!(measure_rr(&kind, Some(1), 1000), None);
}

#[test]
fn round_trip_is_measured_from_the_sending() {
    let mut stats = SenderStats::new();
    let b = receiver_report(3, 42, 0);
    assert_eq!(parse_rr(&b, &stats), None);
    let sent = Instant::now() - Duration::from_millis(50);
    stats.record_report(42, Some(sent));
    let (rtt, jitter) = parse_rr(&b, &stats).unwrap();
    assert_eq!(jitter, 3);
    assert!(rtt >= 50_000_000);
    assert!(rtt <= sent.elapsed().as_nanos());
    assert_eq!(parse_rr(&receiver_report(3, 42, u32::MAX), &stats), None);
    assert_eq!(parse_rr(&receiver_report(3, 41, 0), &stats), None);
    stats.record_rtt(rtt);
    assert_eq!(stats.last_rtt_nanos as u128, rtt);
    stats.record_rtt((1u128 << 64) + 5);
    assert_eq!(stats.last_rtt_nanos, 5);
}

#[test]
fn ntp_counts_from_1900() {
    assert_eq!(ntp_from_unix(0, 0), NTP_UNIX_OFFSET << 32);
    assert_eq!(ntp_from_unix(0, 500_000_000), (NTP_UNIX_OFFSET << 32) + 0x8000_0000);
    assert_eq!(ntp_from_unix(1, 999_999_999), ((NTP_UNIX_OFFSET + 1) << 32) + 4_294_967_291);
}

#[test]
fn clock_before_the_epoch_counts_as_the_epoch() {
    assert_eq!(ntp_from_reading(None), 0x83aa_7e80_0000_0000);
    assert_eq!(ntp_from_reading(Some((0, 0))), 0x83aa_7e80_0000_0000);
    assert_eq!(ntp_from_reading(Some((7, 500_000_000))), 0x83aa_7e87_8000_0000);
}

#[test]
fn ntp_tells_nanoseconds_apart() {
    for nanos in [0u32, 1, 2, 499_999_999, 999_999_998] {
        assert!(ntp_from_unix(7, nanos) < ntp_from_unix(7, nanos + 1));
        let frac = ntp_from_unix(7, nanos) & 0xffff_ffff;
        assert_eq!((frac * 1_000_000_000 + 0xffff_ffff) >> 32, nanos as u64);
    }
}

#[test]
fn ntp_era_wraps() {
    assert_eq!(ntp_from_unix((1u64 << 32) - NTP_UNIX_OFFSET, 0), 0);
    assert_eq!(ntp_from_unix((1u64 << 32) - NTP_UNIX_OFFSET - 1, 0), 0xffff_ffff_0000_0000);
}

#[test]
fn wall_clock_is_now() {
    let before = SystemTime::now().duration_since(UNIX_EPOCH).unwrap();
    let ntp = ntp_timestamp_now();
    let after = SystemTime::now().duration_since(UNIX_EPOCH).unwrap();
    assert!(ntp_from_unix(before.as_secs(), before.subsec_nanos()) <= ntp);
    assert!(ntp <= ntp_from_unix(after.as_secs(), after.subsec_nanos()));
}

#[test]
fn rtcp_runs_on_the_next_port() {
    assert_eq!(bump_port("192.168.0.83:5004"), "192.168.0.83:5005");
    assert_eq!(bump_port("[::1]:9"), "[::1]:10");
    assert_eq!(bump_port("host:+0099"), "host:100");
    assert_eq!(bump_port(":65534"), ":65535");
}

#[test]
fn destination_is_taken_apart_at_the_last_colon() {
    let d = parse_dest("a:b:80").unwrap();
    assert_eq!(d.host, "a:b");
    assert_eq!(d.port, 80);
}

#[test]
fn bad_destinations_are_refused() {
    assert!(matches!(parse_dest("192.168.0.83"), Err(DestError::MissingPort)));
    assert!(matches!(parse_dest(""), Err(DestError::MissingPort)));
    assert!(matches!(parse_dest("host:"), Err(DestError::InvalidPort)));
    assert!(matches!(parse_dest("host:65536"), Err(DestError::InvalidPort)));
    assert!(matches!(parse_dest("host:50x4"), Err(DestError::InvalidPort)));
}

#[test]
fn ports_are_decimal() {
    assert_eq!(parse_port("0"), Some(0));
    assert_eq!(parse_port("65535"), Some(65535));
    assert_eq!(parse_port("+7"), Some(7));
    assert_eq!(parse_port("00000000080"), Some(80));
    assert_eq!(parse_port("+"), None);
    assert_eq!(parse_port("-1"), None);
    assert_eq!(parse_port("++1"), None);
    assert_eq!(parse_port("99999999999999999999"), None);
}
