//! The stream to the tablet: RTP packets, RTCP sender reports, and the receiver
//! reports that come back.
use std::time::Instant;
use bytes::Bytes;
use rtp::header::Header;
use rtp::packet::Packet;
use webrtc_util::Marshal;
use crate::clock::{is_reading, ntp_of_reading, wall_clock_ntp};
use crate::wire::{
    be16, be32, be64, be_bytes, be_bytes_skip, be_value, be_value_of_be_bytes,
    be_value_of_low_bytes, bytes_are_read_big_endian, byte_range_values, read_u16, read_u32, u16_at, u32_at, u64_at,
};
use vstd::prelude::*;

verus! {

/// The source identifier of the stream.
pub const SSRC: u32 = 0x1234;

/// The protocol version of RTP and RTCP.
pub const RTP_VERSION: u8 = 2;

/// The payload type of 16-bit linear PCM, mono.
pub const L16_MONO: u8 = 11;

/// Seconds from one sender report to the next.
pub const RTCP_INTERVAL_SECS: u64 = 5;

/// The 16 bits of a sample, as a number.
pub open spec fn sample_bits(s: i16) -> nat {
    if s >= 0 {
        s as nat
    } else {
        (s + 0x1_0000) as nat
    }
}

/// The sample with these 16 bits.
pub open spec fn sample_of(bits: nat) -> i16 {
    if bits < 0x8000 {
        bits as i16
    } else {
        (bits - 0x1_0000) as i16
    }
}

/// The samples on the wire, two bytes each.
pub open spec fn l16_payload(samples: Seq<i16>) -> Seq<u8>
    decreases samples.len(),
{
    if samples.len() == 0 {
        Seq::empty()
    } else {
        l16_payload(samples.drop_last()) + be_bytes(sample_bits(samples.last()), 2)
    }
}

/// The samples that a payload holds.
pub open spec fn l16_samples(payload: Seq<u8>) -> Seq<i16> {
    Seq::new(
        payload.len() / 2,
        |i: int| sample_of(be_value(payload.subrange(2 * i, 2 * i + 2))),
    )
}

/// An RTP packet without padding, extension, contributing sources or marker.
pub open spec fn rtp_packet(
    version: u8,
    payload_type: u8,
    sequence_number: u16,
    timestamp: u32,
    ssrc: u32,
    payload: Seq<u8>,
) -> Seq<u8> {
    seq![(version * 64) as u8, payload_type] + be_bytes(sequence_number as nat, 2) + be_bytes(
        timestamp as nat,
        4,
    ) + be_bytes(ssrc as nat, 4) + payload
}

/// `x` modulo 2^32.
pub open spec fn low32(x: int) -> u32 {
    (x % 0x1_0000_0000) as u32
}

/// `x` modulo 2^16.
pub open spec fn low16(x: int) -> u16 {
    (x % 0x1_0000) as u16
}

/// The middle 32 bits of an NTP timestamp, by which a receiver report names the
/// sender report that it answers.
pub open spec fn middle32(ntp: u64) -> u32 {
    low32(ntp as int / 0x1_0000)
}

/// A sender report without report blocks.
pub open spec fn sender_report_bytes(
    ssrc: u32,
    ntp_ts: u64,
    rtp_ts: u32,
    packet_count: u32,
    octet_count: u32,
) -> Seq<u8> {
    seq![0x80u8, 200u8] + be_bytes(6, 2) + be_bytes(ssrc as nat, 4) + be_bytes(ntp_ts as nat, 8)
        + be_bytes(rtp_ts as nat, 4) + be_bytes(packet_count as nat, 4) + be_bytes(
        octet_count as nat,
        4,
    )
}

/// What a block of a receiver report says.
#[derive(Clone, Copy, PartialEq, Eq, Structural, Debug)]
pub struct ReportBlock {
    /// Interarrival jitter, in timestamp units.
    pub jitter: u32,
    /// The middle 32 bits of the sender report that was answered.
    pub lsr: u32,
    /// The time from that report to the answer, in 1/65536 seconds.
    pub dlsr: u32,
}

/// The block that starts at byte `at`. Its first three words, which name the
/// source and count its packets, are not looked at.
pub open spec fn block_at(buf: Seq<u8>, at: int) -> ReportBlock {
    ReportBlock {
        jitter: u32_at(buf, at + 12),
        lsr: u32_at(buf, at + 16),
        dlsr: u32_at(buf, at + 20),
    }
}

/// Where block number `i` of the receiver report at byte `at` starts: after the
/// header, the reporter's own identifier and the blocks before it.
pub open spec fn block_start(at: int, i: int) -> int {
    at + 8 + 24 * i
}

/// The packet at byte `at` is a receiver report: version 2, packet type 201.
pub open spec fn is_receiver_report(buf: Seq<u8>, at: int) -> bool {
    buf[at] / 64 == 2 && buf[at + 1] == 201
}

/// The first block, from block number `i` on, of the receiver report at byte `at`
/// that answers the sender report with the middle bits `lsr`. Only blocks that are
/// whole count, and after the first one only those that lie within the packet.
pub open spec fn block_answering(buf: Seq<u8>, at: int, i: int, lsr: u32) -> Option<ReportBlock>
    decreases buf[at] % 32 - i,
{
    if i >= buf[at] % 32 || block_start(at, i) + 24 > buf.len() || i >= 1 && block_start(at, i) + 24
        > next_packet(buf, at) {
        None
    } else if block_at(buf, block_start(at, i)).lsr == lsr {
        Some(block_at(buf, block_start(at, i)))
    } else {
        block_answering(buf, at, i + 1, lsr)
    }
}

/// Where the packet after the one at byte `at` starts. The length field counts
/// 32-bit words, less one.
pub open spec fn next_packet(buf: Seq<u8>, at: int) -> int {
    at + 4 * (u16_at(buf, at + 2) + 1)
}

/// How many bytes there are from byte `at` on.
pub open spec fn bytes_left(buf: Seq<u8>, at: int) -> nat {
    if at <= buf.len() {
        (buf.len() - at) as nat
    } else {
        0
    }
}

/// The first block, in the packets of a compound packet from byte `at` on, that
/// answers the sender report with the middle bits `lsr`. All packets have version
/// 2: one that has not ends the search.
pub open spec fn answer_from(buf: Seq<u8>, at: int, lsr: u32) -> Option<ReportBlock>
    decreases bytes_left(buf, at),
{
    if at + 4 > buf.len() || buf[at] / 64 != 2 {
        None
    } else if is_receiver_report(buf, at) && block_answering(buf, at, 0, lsr) is Some {
        block_answering(buf, at, 0, lsr)
    } else {
        answer_from(buf, next_packet(buf, at), lsr)
    }
}

/// A delay of `dlsr` 1/65536 seconds in whole nanoseconds.
pub open spec fn dlsr_nanos(dlsr: u32) -> int {
    dlsr as int * 1_000_000_000 / 65536
}

/// The round-trip time in nanoseconds and the jitter that an answer gives to a
/// report that was sent `elapsed` nanoseconds ago, unless it claims to have been
/// held for longer.
pub open spec fn measured(b: ReportBlock, elapsed: u128) -> Option<(u128, u32)> {
    if dlsr_nanos(b.dlsr) <= elapsed {
        Some(((elapsed - dlsr_nanos(b.dlsr)) as u128, b.jitter))
    } else {
        None
    }
}

/// What a compound packet measures, when the last sender report had `expected`
/// for its middle bits and was sent `elapsed` nanoseconds ago.
pub open spec fn round_trip(buf: Seq<u8>, expected: Option<u32>, elapsed: u128) -> Option<
    (u128, u32),
> {
    match expected {
        None => None,
        Some(lsr) => match answer_from(buf, 0, lsr) {
            None => None,
            Some(b) => measured(b, elapsed),
        },
    }
}

/// `std::time::Instant`, kept to measure a round trip.
#[verifier::external_type_specification]
#[verifier::external_body]
pub struct ExInstant(Instant);

/// `webrtc_util::Error`, the error of a packet that cannot be marshalled.
#[verifier::external_type_specification]
#[verifier::external_body]
pub struct ExMarshalError(webrtc_util::Error);

/// `std::time::Instant::elapsed`, in nanoseconds. Nothing can be promised of the
/// time.
#[verifier::external_body]
fn elapsed_nanos(since: Instant) -> u128 {
    since.elapsed().as_nanos()
}

/// `webrtc_util::Marshal::marshal` of an `rtp::packet::Packet` whose header has
/// the given fields and is otherwise `Header::default`. Trusted: without
/// extensions marshalling succeeds, and gives the fixed header of twelve bytes
/// and the payload.
#[verifier::external_body]
fn marshal_packet(
    version: u8,
    payload_type: u8,
    sequence_number: u16,
    timestamp: u32,
    ssrc: u32,
    payload: Vec<u8>,
) -> (r: Result<Vec<u8>, webrtc_util::Error>)
    requires
        version < 4,
        payload_type < 128,
        payload@.len() + 12 <= isize::MAX,
    ensures
        r is Ok,
        r->Ok_0@ == rtp_packet(
            version,
            payload_type,
            sequence_number,
            timestamp,
            ssrc,
            payload@,
        ),
{
    let header = Header {
        version,
        payload_type,
        sequence_number,
        timestamp,
        ssrc,
        ..Default::default()
    };
    Packet { header, payload: Bytes::from(payload) }.marshal().map(|b| b.to_vec())
}

/// The NTP timestamp of the wall clock now.
pub fn ntp_timestamp_now() -> (r: u64)
    ensures
        exists|d: Option<(u64, u32)>| is_reading(d) && r == #[trigger] ntp_of_reading(d),
{
    wall_clock_ntp()
}

/// What the sender has sent and what it has heard back.
pub struct SenderStats {
    pub packet_count: u32,
    pub octet_count: u32,
    /// The wall clock and the RTP clock when the last packet was handed to the
    /// network.
    pub last_pair: (u64, u32),
    /// The middle bits of the last sender report, and when it was sent.
    pub last_sr: Option<(u32, Instant)>,
    /// The last measured round-trip time. Zero before the first measurement.
    pub last_rtt_nanos: u64,
}

/// A sender report that is ready to be sent.
pub struct SenderReport {
    pub bytes: [u8; 28],
    /// The bits by which the answer will name it.
    pub lsr: u32,
}

impl SenderStats {
    /// The middle bits of the last sender report.
    pub open spec fn expected_lsr(self) -> Option<u32> {
        match self.last_sr {
            Some(sr) => Some(sr.0),
            None => None,
        }
    }

    /// The statistics after a packet with payload length `octets` was handed to the
    /// network at `ntp_now`.
    pub open spec fn after_packet(self, ntp_now: u64, timestamp: u32, octets: u32) -> SenderStats {
        SenderStats {
            packet_count: low32(self.packet_count + 1),
            octet_count: low32(self.octet_count + octets),
            last_pair: (ntp_now, timestamp),
            ..self
        }
    }

    /// The statistics after a sender report with the middle bits `lsr` was sent at
    /// `sent_at`, or could not be sent.
    pub open spec fn after_report(self, lsr: u32, sent_at: Option<Instant>) -> SenderStats {
        match sent_at {
            Some(t) => SenderStats { last_sr: Some((lsr, t)), ..self },
            None => self,
        }
    }

    /// The statistics after a sender report was due. Nothing is due before the
    /// first packet.
    pub open spec fn after_tick(self, sent_at: Option<Instant>) -> SenderStats {
        if self.last_pair.0 == 0 {
            self
        } else {
            self.after_report(middle32(self.last_pair.0), sent_at)
        }
    }

    /// The statistics after a round trip was measured, of which the low 64 bits are
    /// kept.
    pub open spec fn after_rtt(self, rtt_nanos: u128) -> SenderStats {
        SenderStats { last_rtt_nanos: (rtt_nanos % 0x1_0000_0000_0000_0000) as u64, ..self }
    }

    /// Nothing sent, nothing heard.
    pub fn new() -> (r: SenderStats)
        ensures
            r.packet_count == 0,
            r.octet_count == 0,
            r.last_pair == (0u64, 0u32),
            r.last_sr is None,
            r.last_rtt_nanos == 0,
    {
        SenderStats {
            packet_count: 0,
            octet_count: 0,
            last_pair: (0, 0),
            last_sr: None,
            last_rtt_nanos: 0,
        }
    }

    /// Notes that a packet was handed to the network at `ntp_now`. The octet
    /// count covers only payloads.
    pub fn record_packet(&mut self, ntp_now: u64, packet: &SentPacket)
        ensures
            *final(self) == old(self).after_packet(ntp_now, packet.timestamp, packet.octets),
            final(self).packet_count == (old(self).packet_count + 1) % 0x1_0000_0000,
            final(self).octet_count == (old(self).octet_count + packet.octets) % 0x1_0000_0000,
            final(self).last_pair == (ntp_now, packet.timestamp),
            final(self).last_sr == old(self).last_sr,
            final(self).last_rtt_nanos == old(self).last_rtt_nanos,
    {
        self.last_pair = (ntp_now, packet.timestamp);
        self.packet_count = self.packet_count.wrapping_add(1);
        self.octet_count = self.octet_count.wrapping_add(packet.octets);
    }

    /// The sender report that is due, or `None` while no packet was sent.
    pub fn sender_report(&self) -> (r: Option<SenderReport>)
        ensures
            r is None <==> self.last_pair.0 == 0,
            r matches Some(sr) ==> sr.lsr == (self.last_pair.0 as int / 0x1_0000) % 0x1_0000_0000,
            r matches Some(sr) ==> {
                &&& sr.bytes@ == sender_report_bytes(
                    SSRC,
                    self.last_pair.0,
                    self.last_pair.1,
                    self.packet_count,
                    self.octet_count,
                )
                &&& sr.lsr == middle32(self.last_pair.0)
            },
    {
        let ntp: u64 = self.last_pair.0;
        if ntp == 0 {
            return None;
        }
        let bytes: [u8; 28] = build_sender_report(
            SSRC,
            ntp,
            self.last_pair.1,
            self.packet_count,
            self.octet_count,
        );
        let lsr: u32 = ((ntp / 0x1_0000) % 0x1_0000_0000) as u32;
        Some(SenderReport { bytes, lsr })
    }

    /// Notes when a sender report was sent, or changes nothing where it could not
    /// be sent.
    pub fn record_report(&mut self, lsr: u32, sent_at: Option<Instant>)
        ensures
            *final(self) == old(self).after_report(lsr, sent_at),
            sent_at matches Some(t) ==> final(self).last_sr == Some((lsr, t)),
            sent_at is None ==> final(self).last_sr == old(self).last_sr,
            final(self).packet_count == old(self).packet_count,
            final(self).octet_count == old(self).octet_count,
            final(self).last_pair == old(self).last_pair,
            final(self).last_rtt_nanos == old(self).last_rtt_nanos,
    {
        if let Some(t) = sent_at {
            self.last_sr = Some((lsr, t));
        }
    }

    /// Notes a measured round-trip time, of which the low 64 bits are kept.
    pub fn record_rtt(&mut self, rtt_nanos: u128)
        ensures
            *final(self) == old(self).after_rtt(rtt_nanos),
            rtt_nanos <= u64::MAX ==> final(self).last_rtt_nanos == rtt_nanos,
            final(self).last_sr == old(self).last_sr,
            final(self).last_pair == old(self).last_pair,
    {
        self.last_rtt_nanos = (rtt_nanos % 0x1_0000_0000_0000_0000) as u64;
    }

    /// Takes in a datagram that may answer the last sender report. Only a measured
    /// round trip changes anything. The time that has passed is only known when the
    /// clock is read, as in `parse_rr`.
    pub fn receive_report(&mut self, buf: &[u8]) -> (r: Option<(u128, u32)>)
        ensures
            exists|elapsed: u128|
                r == #[trigger] round_trip(buf@, old(self).expected_lsr(), elapsed),
            *final(self) == match r {
                Some(found) => old(self).after_rtt(found.0),
                None => *old(self),
            },
    {
        let r: Option<(u128, u32)> = parse_rr(buf, self);
        if let Some(found) = r {
            self.record_rtt(found.0);
        }
        r
    }
}

/// A packet that is ready to be sent.
pub struct SentPacket {
    pub bytes: Vec<u8>,
    /// The RTP time of its first sample.
    pub timestamp: u32,
    /// The length of its payload, modulo 2^32.
    pub octets: u32,
}

/// Numbers the packets of the stream.
pub struct RtpSender {
    pub seq: u16,
    pub timestamp: u32,
}

impl RtpSender {
    /// A sender before its first packet.
    pub fn new() -> (r: RtpSender)
        ensures
            r.seq == 0,
            r.timestamp == 0,
    {
        RtpSender { seq: 0, timestamp: 0 }
    }

    /// The sender after a packet of `n` samples.
    pub open spec fn after(self, n: nat) -> RtpSender {
        RtpSender { seq: low16(self.seq + 1), timestamp: low32(self.timestamp + n) }
    }

    /// Makes the next packet of the stream. The caller sends it and then notes it
    /// in the statistics.
    pub fn send(&mut self, samples: &[i16]) -> (packet: SentPacket)
        requires
            2 * samples@.len() + 12 <= isize::MAX,
        ensures
            packet.bytes@ == rtp_packet(
                RTP_VERSION,
                L16_MONO,
                old(self).seq,
                old(self).timestamp,
                SSRC,
                l16_payload(samples@),
            ),
            packet.timestamp == old(self).timestamp,
            packet.octets == low32(2 * samples@.len() as int),
            *final(self) == old(self).after(samples@.len()),
            final(self).seq == (old(self).seq + 1) % 0x1_0000,
            final(self).timestamp == (old(self).timestamp + samples@.len()) % 0x1_0000_0000,
            packet.octets == (2 * samples@.len()) % 0x1_0000_0000,
            packet.bytes@.len() == 12 + 2 * samples@.len(),
    {
        let payload: Vec<u8> = encode_payload(samples);
        proof {
            rtp_packet_fields(self.seq, self.timestamp, SSRC, payload@);
        }
        let timestamp: u32 = self.timestamp;
        let bytes: Vec<u8> = marshal_packet(
            RTP_VERSION,
            L16_MONO,
            self.seq,
            timestamp,
            SSRC,
            payload,
        ).unwrap();
        let n: u64 = samples.len() as u64;
        self.seq = self.seq.wrapping_add(1);
        self.timestamp = timestamp.wrapping_add((n % 0x1_0000_0000) as u32);
        SentPacket { bytes, timestamp, octets: ((2 * n) % 0x1_0000_0000) as u32 }
    }
}

/// The samples on the wire.
fn encode_payload(samples: &[i16]) -> (payload: Vec<u8>)
    requires
        2 * samples@.len() + 12 <= isize::MAX,
    ensures
        payload@ == l16_payload(samples@),
        payload@.len() == 2 * samples@.len(),
{
    let mut payload: Vec<u8> = Vec::with_capacity(samples.len() * 2);
    let mut i: usize = 0;
    assert(samples@.take(0) =~= Seq::empty());
    while i < samples.len()
        invariant
            i <= samples.len(),
            payload@ == l16_payload(samples@.take(i as int)),
            payload@.len() == 2 * i,
        decreases samples.len() - i,
    {
        let s: i16 = samples[i];
        let bits: u16 = if s >= 0 {
            s as u16
        } else {
            (s as i32 + 0x1_0000) as u16
        };
        let b: [u8; 2] = be16(bits);
        payload.push(b[0]);
        payload.push(b[1]);
        proof {
            let now = samples@.take(i + 1);
            assert(now.drop_last() =~= samples@.take(i as int));
            assert(b@ =~= seq![b[0], b[1]]);
            assert(payload@ =~= l16_payload(samples@.take(i as int)) + b@);
        }
        i = i + 1;
    }
    assert(samples@.take(i as int) =~= samples@);
    payload
}

/// Builds a sender report without report blocks.
pub fn build_sender_report(
    ssrc: u32,
    ntp_ts: u64,
    rtp_ts: u32,
    packet_count: u32,
    octet_count: u32,
) -> (r: [u8; 28])
    ensures
        r@ == sender_report_bytes(ssrc, ntp_ts, rtp_ts, packet_count, octet_count),
{
    // The length counts 32-bit words, less one.
    let l: [u8; 2] = be16(6);
    let s: [u8; 4] = be32(ssrc);
    let n: [u8; 8] = be64(ntp_ts);
    let t: [u8; 4] = be32(rtp_ts);
    let p: [u8; 4] = be32(packet_count);
    let o: [u8; 4] = be32(octet_count);
    let r: [u8; 28] = [
        0x80,
        200,
        l[0],
        l[1],
        s[0],
        s[1],
        s[2],
        s[3],
        n[0],
        n[1],
        n[2],
        n[3],
        n[4],
        n[5],
        n[6],
        n[7],
        t[0],
        t[1],
        t[2],
        t[3],
        p[0],
        p[1],
        p[2],
        p[3],
        o[0],
        o[1],
        o[2],
        o[3],
    ];
    assert(r@ =~= seq![0x80u8, 200u8] + l@ + s@ + n@ + t@ + p@ + o@);
    r
}

/// Measures the round trip of the last sender report by a compound packet that
/// comes in now and may hold an answer to it. Returns the round-trip time in
/// nanoseconds and the jitter. The time that has passed is only known when the
/// clock is read, so `measure_rr` says what is returned for each value of it.
pub fn parse_rr(buf: &[u8], stats: &SenderStats) -> (r: Option<(u128, u32)>)
    ensures
        exists|elapsed: u128| r == #[trigger] round_trip(buf@, stats.expected_lsr(), elapsed),
        stats.last_sr is None ==> r is None,
        r matches Some(found) ==> {
            &&& stats.last_sr is Some
            &&& answer_from(buf@, 0, stats.expected_lsr()->0) is Some
            &&& found.1 == answer_from(buf@, 0, stats.expected_lsr()->0)->0.jitter
        },
{
    match stats.last_sr {
        None => {
            assert(None::<(u128, u32)> == round_trip(buf@, stats.expected_lsr(), 0));
            None
        },
        Some((lsr, sent_at)) => measure_rr(buf, Some(lsr), elapsed_nanos(sent_at)),
    }
}

/// The round-trip time and the jitter that a compound packet gives.
pub fn measure_rr(buf: &[u8], expected: Option<u32>, elapsed: u128) -> (r: Option<(u128, u32)>)
    ensures
        r == round_trip(buf@, expected, elapsed),
{
    match expected {
        None => None,
        Some(lsr) => match find_answer(buf, lsr) {
            None => None,
            Some(b) => {
                let held: u128 = (b.dlsr as u64 * 1_000_000_000 / 65536) as u128;
                if held <= elapsed {
                    Some((elapsed - held, b.jitter))
                } else {
                    None
                }
            },
        },
    }
}

/// Searches a compound packet for the answer to a sender report.
pub fn find_answer(buf: &[u8], lsr: u32) -> (r: Option<ReportBlock>)
    ensures
        r == answer_from(buf@, 0, lsr),
{
    let mut at: usize = 0;
    while buf.len() - at >= 4
        invariant
            at <= buf.len(),
            answer_from(buf@, at as int, lsr) == answer_from(buf@, 0, lsr),
        decreases buf.len() - at,
    {
        if buf[at] / 64 != 2 {
            return None;
        }
        if buf[at + 1] == 201 {
            let found: Option<ReportBlock> = find_block(buf, at, lsr);
            if found.is_some() {
                return found;
            }
        }
        let size: usize = 4 * (read_u16(buf, at + 2) as usize + 1);
        if size > buf.len() - at {
            assert(answer_from(buf@, next_packet(buf@, at as int), lsr) is None);
            return None;
        }
        at = at + size;
    }
    None
}

/// Searches the blocks of one receiver report.
fn find_block(buf: &[u8], at: usize, lsr: u32) -> (r: Option<ReportBlock>)
    requires
        at + 4 <= buf.len(),
    ensures
        r == block_answering(buf@, at as int, 0, lsr),
{
    let count: usize = (buf[at] % 32) as usize;
    let left: usize = buf.len() - at;
    let size: usize = 4 * (read_u16(buf, at + 2) as usize + 1);
    let mut i: usize = 0;
    while i < count && left >= 32 + 24 * i && (i == 0 || size >= 32 + 24 * i)
        invariant
            at + left == buf.len(),
            left >= 4,
            at + size == next_packet(buf@, at as int),
            count == buf@[at as int] % 32,
            i <= count <= 31,
            block_answering(buf@, at as int, i as int, lsr) == block_answering(
                buf@,
                at as int,
                0,
                lsr,
            ),
        decreases count - i,
    {
        let start: usize = at + 8 + 24 * i;
        if read_u32(buf, start + 16) == lsr {
            return Some(
                ReportBlock {
                    jitter: read_u32(buf, start + 12),
                    lsr,
                    dlsr: read_u32(buf, start + 20),
                },
            );
        }
        i = i + 1;
    }
    None
}

/// Every field of a sender report stands where a receiver looks for it, and the
/// length field counts the words that follow the first.
pub proof fn sender_report_fields(
    ssrc: u32,
    ntp_ts: u64,
    rtp_ts: u32,
    packet_count: u32,
    octet_count: u32,
)
    ensures
        ({
            let s = sender_report_bytes(ssrc, ntp_ts, rtp_ts, packet_count, octet_count);
            &&& s.len() == 28
            &&& s[0] / 64 == RTP_VERSION && s[0] % 32 == 0 && s[1] == 200
            &&& be_value(s.subrange(2, 4)) == s.len() / 4 - 1
            &&& u32_at(s, 4) == ssrc
            &&& u64_at(s, 8) == ntp_ts
            &&& u32_at(s, 16) == rtp_ts
            &&& u32_at(s, 20) == packet_count
            &&& u32_at(s, 24) == octet_count
        }),
{
    let s = sender_report_bytes(ssrc, ntp_ts, rtp_ts, packet_count, octet_count);
    byte_range_values();
    be_value_of_be_bytes(6, 2);
    be_value_of_be_bytes(ssrc as nat, 4);
    be_value_of_be_bytes(ntp_ts as nat, 8);
    be_value_of_be_bytes(rtp_ts as nat, 4);
    be_value_of_be_bytes(packet_count as nat, 4);
    be_value_of_be_bytes(octet_count as nat, 4);
    assert(s.subrange(2, 4) =~= be_bytes(6, 2));
    assert(s.subrange(4, 8) =~= be_bytes(ssrc as nat, 4));
    assert(s.subrange(8, 16) =~= be_bytes(ntp_ts as nat, 8));
    assert(s.subrange(16, 20) =~= be_bytes(rtp_ts as nat, 4));
    assert(s.subrange(20, 24) =~= be_bytes(packet_count as nat, 4));
    assert(s.subrange(24, 28) =~= be_bytes(octet_count as nat, 4));
}

/// The bits by which an answer names a sender report are the middle four bytes
/// of the timestamp in that very report.
pub proof fn sender_report_names_itself(
    ssrc: u32,
    ntp_ts: u64,
    rtp_ts: u32,
    packet_count: u32,
    octet_count: u32,
)
    ensures
        u32_at(
            sender_report_bytes(ssrc, ntp_ts, rtp_ts, packet_count, octet_count),
            10,
        ) == middle32(ntp_ts),
{
    let s = sender_report_bytes(ssrc, ntp_ts, rtp_ts, packet_count, octet_count);
    let x: nat = ntp_ts as nat;
    let n = be_bytes(x, 8);
    byte_range_values();
    be_value_of_be_bytes(6, 2);
    be_value_of_be_bytes(ssrc as nat, 4);
    be_value_of_be_bytes(x, 8);
    be_value_of_be_bytes(rtp_ts as nat, 4);
    be_value_of_be_bytes(packet_count as nat, 4);
    be_value_of_be_bytes(octet_count as nat, 4);
    reveal_with_fuel(be_bytes, 3);
    be_bytes_skip(x / 256 / 256, 6, 2);
    be_value_of_low_bytes(x / 256 / 256, 4);
    assert(n =~= be_bytes(x / 256 / 256, 6).push((x / 256 % 256) as u8).push((x % 256) as u8));
    assert(n.subrange(2, 6) =~= be_bytes(x / 256 / 256, 6).skip(2));
    assert(s.subrange(10, 14) =~= n.subrange(2, 6));
    assert(x / 256 / 256 == x / 0x1_0000);
}

/// An answer to the last sender report, by the bytes in that report, gives the time
/// since the report less the time that the receiver held it, and the receiver's
/// jitter. This needs no more of the answer than a holding time that has passed.
pub proof fn answer_measures_the_round_trip(
    report: SenderReport,
    stats: SenderStats,
    answer: Seq<u8>,
    elapsed: u128,
)
    requires
        report.bytes@ == sender_report_bytes(
            SSRC,
            stats.last_pair.0,
            stats.last_pair.1,
            stats.packet_count,
            stats.octet_count,
        ),
        report.lsr == middle32(stats.last_pair.0),
        answer_from(answer, 0, u32_at(report.bytes@, 10)) matches Some(b) && dlsr_nanos(b.dlsr)
            <= elapsed,
    ensures
        answer_from(answer, 0, u32_at(report.bytes@, 10)) matches Some(b) && round_trip(
            answer,
            Some(report.lsr),
            elapsed,
        ) == Some(((elapsed - dlsr_nanos(b.dlsr)) as u128, b.jitter)),
{
    sender_report_names_itself(
        SSRC,
        stats.last_pair.0,
        stats.last_pair.1,
        stats.packet_count,
        stats.octet_count,
    );
}

/// A packet without an answer to the last sender report, or whose answer claims to
/// have been held longer than the time that has passed, measures nothing.
pub proof fn stale_answer_measures_nothing(answer: Seq<u8>, lsr: u32, elapsed: u128)
    requires
        answer_from(answer, 0, lsr) matches Some(b) ==> dlsr_nanos(b.dlsr) > elapsed,
    ensures
        round_trip(answer, Some(lsr), elapsed) is None,
{
}

/// What is taken for an answer names the report that it answers.
pub proof fn answer_names_the_report(buf: Seq<u8>, at: int, lsr: u32)
    ensures
        answer_from(buf, at, lsr) matches Some(b) ==> b.lsr == lsr,
    decreases bytes_left(buf, at),
{
    if at + 4 <= buf.len() {
        lemma_block_names_the_report(buf, at, 0, lsr);
        answer_names_the_report(buf, next_packet(buf, at), lsr);
    }
}

proof fn lemma_block_names_the_report(buf: Seq<u8>, at: int, i: int, lsr: u32)
    ensures
        block_answering(buf, at, i, lsr) matches Some(b) ==> b.lsr == lsr,
    decreases buf[at] % 32 - i,
{
    if i < buf[at] % 32 {
        lemma_block_names_the_report(buf, at, i + 1, lsr);
    }
}

/// A single receiver report with one block measures the round trip if and only if
/// its block names the last sender report and was not held for too long.
pub proof fn single_report_is_measured(buf: Seq<u8>, expected: Option<u32>, elapsed: u128)
    requires
        buf.len() == 32,
        is_receiver_report(buf, 0),
        buf[0] % 32 == 1,
    ensures
        ({
            let b = block_at(buf, 8);
            round_trip(buf, expected, elapsed) == if expected == Some(b.lsr) && dlsr_nanos(b.dlsr)
                <= elapsed {
                Some(((elapsed - dlsr_nanos(b.dlsr)) as u128, b.jitter))
            } else {
                None
            }
        }),
{
    if let Some(lsr) = expected {
        reveal_with_fuel(block_answering, 2);
        lemma_no_room_for_a_block(buf, next_packet(buf, 0), lsr);
    }
}

proof fn lemma_no_room_for_a_block(buf: Seq<u8>, at: int, lsr: u32)
    requires
        at > 0,
        buf.len() <= 32,
    ensures
        answer_from(buf, at, lsr) is None,
    decreases bytes_left(buf, at),
{
    if at + 4 <= buf.len() {
        lemma_no_room_for_a_block(buf, next_packet(buf, at), lsr);
    }
}

/// A compound packet is searched to its end: a packet in front that does not hold
/// the answer changes nothing.
pub proof fn compound_packet_is_searched(first: Seq<u8>, rest: Seq<u8>, lsr: u32)
    requires
        first.len() >= 4,
        first[0] / 64 == 2,
        next_packet(first, 0) == first.len(),
        !is_receiver_report(first, 0) || block_answering(first + rest, 0, 0, lsr) is None,
    ensures
        answer_from(first + rest, 0, lsr) == answer_from(rest, 0, lsr),
{
    let buf = first + rest;
    assert(buf.subrange(2, 4) =~= first.subrange(2, 4));
    lemma_answer_moves(first, rest, 0, lsr);
}

/// A packet of another version ends the search: what follows it is not looked at.
pub proof fn foreign_packet_ends_the_search(first: Seq<u8>, rest: Seq<u8>, lsr: u32)
    requires
        first.len() >= 4,
        first[0] / 64 != 2,
    ensures
        answer_from(first + rest, 0, lsr) is None,
{
}

/// An answer that follows a sender report in the same datagram is found.
pub proof fn answer_behind_a_sender_report_is_found(
    ssrc: u32,
    ntp_ts: u64,
    rtp_ts: u32,
    packet_count: u32,
    octet_count: u32,
    answer: Seq<u8>,
    lsr: u32,
)
    ensures
        answer_from(
            sender_report_bytes(ssrc, ntp_ts, rtp_ts, packet_count, octet_count) + answer,
            0,
            lsr,
        ) == answer_from(answer, 0, lsr),
{
    sender_report_fields(ssrc, ntp_ts, rtp_ts, packet_count, octet_count);
    compound_packet_is_searched(
        sender_report_bytes(ssrc, ntp_ts, rtp_ts, packet_count, octet_count),
        answer,
        lsr,
    );
}

proof fn lemma_block_moves(first: Seq<u8>, rest: Seq<u8>, at: int, i: int, lsr: u32)
    requires
        0 <= at,
        at + 4 <= rest.len(),
        0 <= i,
    ensures
        block_answering(first + rest, first.len() + at, i, lsr) == block_answering(
            rest,
            at,
            i,
            lsr,
        ),
    decreases rest[at] % 32 - i,
{
    let buf = first + rest;
    let p: int = first.len() + at;
    assert(buf.subrange(p + 2, p + 4) =~= rest.subrange(at + 2, at + 4));
    if i < rest[at] % 32 && block_start(at, i) + 24 <= rest.len() {
        let b = block_start(at, i);
        let c = block_start(first.len() + at, i);
        assert(buf.subrange(c + 12, c + 16) =~= rest.subrange(b + 12, b + 16));
        assert(buf.subrange(c + 16, c + 20) =~= rest.subrange(b + 16, b + 20));
        assert(buf.subrange(c + 20, c + 24) =~= rest.subrange(b + 20, b + 24));
        lemma_block_moves(first, rest, at, i + 1, lsr);
    }
}

proof fn lemma_answer_moves(first: Seq<u8>, rest: Seq<u8>, at: int, lsr: u32)
    requires
        0 <= at,
    ensures
        answer_from(first + rest, first.len() + at, lsr) == answer_from(rest, at, lsr),
    decreases bytes_left(rest, at),
{
    let buf = first + rest;
    if at + 4 <= rest.len() {
        let c: int = first.len() + at;
        assert(buf.subrange(c + 2, c + 4) =~= rest.subrange(at + 2, at + 4));
        lemma_block_moves(first, rest, at, 0, lsr);
        lemma_answer_moves(first, rest, next_packet(rest, at), lsr);
    }
}

/// The sender after one packet for each length in `lens`.
pub open spec fn after_packets(sender: RtpSender, lens: Seq<nat>) -> RtpSender
    decreases lens.len(),
{
    if lens.len() == 0 {
        sender
    } else {
        after_packets(sender, lens.drop_last()).after(lens.last())
    }
}

/// The sum of `lens`.
pub open spec fn total(lens: Seq<nat>) -> nat
    decreases lens.len(),
{
    if lens.len() == 0 {
        0
    } else {
        total(lens.drop_last()) + lens.last()
    }
}

/// Packets are numbered one by one, and the RTP clock has advanced by exactly
/// the samples that were sent, both with wrap-around.
pub proof fn stream_has_no_gaps(sender: RtpSender, lens: Seq<nat>)
    ensures
        after_packets(sender, lens).seq == (sender.seq + lens.len()) % 0x1_0000,
        after_packets(sender, lens).timestamp == (sender.timestamp + total(lens)) % 0x1_0000_0000,
    decreases lens.len(),
{
    if lens.len() > 0 {
        let front = lens.drop_last();
        stream_has_no_gaps(sender, front);
        let t: int = sender.timestamp + total(front);
        let n: int = lens.last() as int;
        vstd::arithmetic::div_mod::lemma_add_mod_noop_right(n, t, 0x1_0000_0000);
        assert((n + t % 0x1_0000_0000) % 0x1_0000_0000 == (n + t) % 0x1_0000_0000);
        let k: int = sender.seq + front.len();
        vstd::arithmetic::div_mod::lemma_add_mod_noop_right(1, k, 0x1_0000);
    }
}

/// The statistics after the packets of `after_packets`, the one with length
/// `lens[i]` handed to the network at `stamps[i]`.
pub open spec fn stats_after_packets(
    stats: SenderStats,
    sender: RtpSender,
    stamps: Seq<u64>,
    lens: Seq<nat>,
) -> SenderStats
    decreases lens.len(),
{
    if lens.len() == 0 {
        stats
    } else {
        stats_after_packets(stats, sender, stamps.drop_last(), lens.drop_last()).after_packet(
            stamps.last(),
            after_packets(sender, lens.drop_last()).timestamp,
            low32(2 * lens.last() as int),
        )
    }
}

/// The counts cover exactly what was sent: every packet, and of the octets the
/// payloads alone, both with wrap-around. What was heard back stays as it is.
pub proof fn counts_cover_what_was_sent(
    stats: SenderStats,
    sender: RtpSender,
    stamps: Seq<u64>,
    lens: Seq<nat>,
)
    requires
        stamps.len() == lens.len(),
    ensures
        ({
            let s = stats_after_packets(stats, sender, stamps, lens);
            &&& s.packet_count == (stats.packet_count + lens.len()) % 0x1_0000_0000
            &&& s.octet_count == (stats.octet_count + 2 * total(lens)) % 0x1_0000_0000
            &&& lens.len() > 0 ==> s.last_pair == (
                stamps.last(),
                after_packets(sender, lens.drop_last()).timestamp,
            )
            &&& s.last_sr == stats.last_sr
            &&& s.last_rtt_nanos == stats.last_rtt_nanos
        }),
    decreases lens.len(),
{
    if lens.len() > 0 {
        let front = lens.drop_last();
        counts_cover_what_was_sent(stats, sender, stamps.drop_last(), front);
        let p: int = stats.packet_count + front.len();
        let o: int = stats.octet_count + 2 * total(front);
        let n: int = 2 * lens.last() as int;
        vstd::arithmetic::div_mod::lemma_add_mod_noop_right(1, p, 0x1_0000_0000);
        vstd::arithmetic::div_mod::lemma_add_mod_noop(o, n, 0x1_0000_0000);
    }
}

/// The next packet of a sender that has sent packets of the lengths `lens` since it
/// was new: its number is how many those were, its time is how many samples those
/// held, and a receiver gets the samples back.
pub proof fn packet_of_the_stream(lens: Seq<nat>, samples: Seq<i16>)
    ensures
        ({
            let sender = after_packets(RtpSender { seq: 0, timestamp: 0 }, lens);
            let s = rtp_packet(
                RTP_VERSION,
                L16_MONO,
                sender.seq,
                sender.timestamp,
                SSRC,
                l16_payload(samples),
            );
            &&& s.len() == 12 + 2 * samples.len()
            &&& s[0] / 64 == RTP_VERSION && s[1] == L16_MONO
            &&& u16_at(s, 2) == lens.len() % 0x1_0000
            &&& u32_at(s, 4) == total(lens) % 0x1_0000_0000
            &&& u32_at(s, 8) == 0x1234
            &&& l16_samples(s.skip(12)) == samples
        }),
{
    let sender = after_packets(RtpSender { seq: 0, timestamp: 0 }, lens);
    stream_has_no_gaps(RtpSender { seq: 0, timestamp: 0 }, lens);
    payload_is_read_back(samples);
    rtp_packet_fields(sender.seq, sender.timestamp, SSRC, l16_payload(samples));
}

/// The statistics after several sender reports were due.
pub open spec fn after_ticks(stats: SenderStats, ticks: Seq<Option<Instant>>) -> SenderStats
    decreases ticks.len(),
{
    if ticks.len() == 0 {
        stats
    } else {
        after_ticks(stats, ticks.drop_last()).after_tick(ticks.last())
    }
}

/// Reporting never changes what is reported, and a report that was not due or
/// could not be sent changes nothing at all.
pub proof fn reporting_keeps_the_counts(stats: SenderStats, ticks: Seq<Option<Instant>>)
    ensures
        ({
            let s = after_ticks(stats, ticks);
            &&& s.packet_count == stats.packet_count
            &&& s.octet_count == stats.octet_count
            &&& s.last_pair == stats.last_pair
            &&& s.last_rtt_nanos == stats.last_rtt_nanos
            &&& stats.last_pair.0 == 0 ==> s == stats
        }),
        (forall|i: int| 0 <= i < ticks.len() ==> #[trigger] ticks[i] is None) ==> after_ticks(
            stats,
            ticks,
        ) == stats,
    decreases ticks.len(),
{
    if ticks.len() > 0 {
        reporting_keeps_the_counts(stats, ticks.drop_last());
        if forall|i: int| 0 <= i < ticks.len() ==> #[trigger] ticks[i] is None {
            assert(ticks[ticks.len() - 1] is None);
            let front = ticks.drop_last();
            assert forall|i: int| 0 <= i < front.len() implies #[trigger] front[i] is None by {
                assert(ticks[i] is None);
            }
        }
    }
}

/// The receiver gets back the samples that were sent.
pub proof fn payload_is_read_back(samples: Seq<i16>)
    ensures
        l16_payload(samples).len() == 2 * samples.len(),
        l16_samples(l16_payload(samples)) == samples,
    decreases samples.len(),
{
    let p = l16_payload(samples);
    if samples.len() > 0 {
        let front = samples.drop_last();
        let fp = l16_payload(front);
        let bits = sample_bits(samples.last());
        payload_is_read_back(front);
        byte_range_values();
        be_value_of_be_bytes(bits, 2);
        assert forall|i: int| 0 <= i < samples.len() implies l16_samples(p)[i] == samples[i] by {
            if i < front.len() {
                assert(p.subrange(2 * i, 2 * i + 2) =~= fp.subrange(2 * i, 2 * i + 2));
                assert(l16_samples(fp)[i] == front[i]);
            } else {
                assert(p.subrange(2 * i, 2 * i + 2) =~= be_bytes(bits, 2));
            }
        }
    }
    assert(l16_samples(p) =~= samples);
}

/// Every field of a packet stands where a receiver looks for it.
pub proof fn rtp_packet_fields(
    sequence_number: u16,
    timestamp: u32,
    ssrc: u32,
    payload: Seq<u8>,
)
    ensures
        ({
            let s = rtp_packet(RTP_VERSION, L16_MONO, sequence_number, timestamp, ssrc, payload);
            &&& s.len() == 12 + payload.len()
            &&& s[0] / 64 == RTP_VERSION && s[0] % 64 == 0 && s[1] == L16_MONO
            &&& be_value(s.subrange(2, 4)) == sequence_number
            &&& u32_at(s, 4) == timestamp
            &&& u32_at(s, 8) == ssrc
            &&& s.skip(12) == payload
        }),
{
    let s = rtp_packet(RTP_VERSION, L16_MONO, sequence_number, timestamp, ssrc, payload);
    byte_range_values();
    be_value_of_be_bytes(sequence_number as nat, 2);
    be_value_of_be_bytes(timestamp as nat, 4);
    be_value_of_be_bytes(ssrc as nat, 4);
    assert(s.subrange(2, 4) =~= be_bytes(sequence_number as nat, 2));
    assert(s.subrange(4, 8) =~= be_bytes(timestamp as nat, 4));
    assert(s.subrange(8, 12) =~= be_bytes(ssrc as nat, 4));
    assert(s.skip(12) =~= payload);
}

/// Each sample is spelled by its two bytes, the high one first, a negative one with
/// its two's complement.
pub proof fn samples_are_spelled_by_two_bytes(samples: Seq<i16>, i: int)
    requires
        0 <= i < samples.len(),
    ensures
        l16_payload(samples).len() == 2 * samples.len(),
        l16_payload(samples)[2 * i] * 0x100 + l16_payload(samples)[2 * i + 1] == if samples[i] >= 0 {
            samples[i] as int
        } else {
            samples[i] + 0x1_0000
        },
{
    let p = l16_payload(samples);
    payload_is_read_back(samples);
    assert(l16_samples(p)[i] == samples[i]);
    bytes_are_read_big_endian(p, 2 * i);
}

/// The bytes of a packet: version 2, no padding, extension, sources or marker, payload
/// type 11, then the number, the time and the source, each high byte first, and the
/// payload.
pub proof fn packet_bytes_are_the_stream_format(
    sequence_number: u16,
    timestamp: u32,
    ssrc: u32,
    payload: Seq<u8>,
    i: int,
)
    ensures
        ({
            let s = rtp_packet(RTP_VERSION, L16_MONO, sequence_number, timestamp, ssrc, payload);
            &&& s.len() == 12 + payload.len()
            &&& s[0] == 0x80
            &&& s[1] == 11
            &&& s[2] * 0x100 + s[3] == sequence_number
            &&& s[4] * 0x100_0000 + s[5] * 0x1_0000 + s[6] * 0x100 + s[7] == timestamp
            &&& s[8] * 0x100_0000 + s[9] * 0x1_0000 + s[10] * 0x100 + s[11] == ssrc
            &&& 0 <= i < payload.len() ==> s[12 + i] == payload[i]
        }),
{
    let s = rtp_packet(RTP_VERSION, L16_MONO, sequence_number, timestamp, ssrc, payload);
    rtp_packet_fields(sequence_number, timestamp, ssrc, payload);
    bytes_are_read_big_endian(s, 2);
    bytes_are_read_big_endian(s, 4);
    bytes_are_read_big_endian(s, 8);
    if 0 <= i < payload.len() {
        assert(s.skip(12)[i] == payload[i]);
    }
}

/// The bytes of a sender report, each number high byte first.
pub proof fn sender_report_bytes_are_the_report_format(
    ssrc: u32,
    ntp_ts: u64,
    rtp_ts: u32,
    packet_count: u32,
    octet_count: u32,
)
    ensures
        ({
            let s = sender_report_bytes(ssrc, ntp_ts, rtp_ts, packet_count, octet_count);
            &&& s.len() == 28
            &&& s[0] == 0x80 && s[1] == 200 && s[2] == 0 && s[3] == 6
            &&& s[4] * 0x100_0000 + s[5] * 0x1_0000 + s[6] * 0x100 + s[7] == ssrc
            &&& s[8] * 0x100_0000 + s[9] * 0x1_0000 + s[10] * 0x100 + s[11] == ntp_ts
                / 0x1_0000_0000
            &&& s[12] * 0x100_0000 + s[13] * 0x1_0000 + s[14] * 0x100 + s[15] == ntp_ts
                % 0x1_0000_0000
            &&& s[16] * 0x100_0000 + s[17] * 0x1_0000 + s[18] * 0x100 + s[19] == rtp_ts
            &&& s[20] * 0x100_0000 + s[21] * 0x1_0000 + s[22] * 0x100 + s[23] == packet_count
            &&& s[24] * 0x100_0000 + s[25] * 0x1_0000 + s[26] * 0x100 + s[27] == octet_count
        }),
{
    let s = sender_report_bytes(ssrc, ntp_ts, rtp_ts, packet_count, octet_count);
    sender_report_fields(ssrc, ntp_ts, rtp_ts, packet_count, octet_count);
    bytes_are_read_big_endian(s, 2);
    bytes_are_read_big_endian(s, 4);
    bytes_are_read_big_endian(s, 8);
    bytes_are_read_big_endian(s, 12);
    bytes_are_read_big_endian(s, 16);
    bytes_are_read_big_endian(s, 20);
    bytes_are_read_big_endian(s, 24);
    assert(s[0] == 0x80);
}

/// From one packet to the next the number goes up by one and the time by the samples
/// of the packet, with wrap-around.
pub proof fn next_packet_follows_on(sender: RtpSender, n: nat)
    ensures
        sender.after(n).seq == (sender.seq + 1) % 0x1_0000,
        sender.after(n).timestamp == (sender.timestamp + n) % 0x1_0000_0000,
{
}

/// A sum of lengths grows by each length that is added to it.
pub proof fn total_adds_up(lens: Seq<nat>, n: nat)
    ensures
        total(Seq::empty()) == 0,
        total(lens.push(n)) == total(lens) + n,
{
    assert(lens.push(n).drop_last() =~= lens);
}

/// The low bits of a number differ from it by whole rounds.
pub proof fn low_bits_differ_by_whole_rounds(x: int)
    ensures
        (x - low32(x)) % 0x1_0000_0000 == 0,
        (x - low16(x)) % 0x1_0000 == 0,
{
}

/// The holding time in an answer is rounded down to whole nanoseconds, for every
/// holding time, and 65536 units more are exactly a second more.
pub proof fn holding_time_is_in_65536ths(dlsr: u32)
    ensures
        dlsr_nanos(dlsr) * 65536 <= dlsr * 1_000_000_000 < (dlsr_nanos(dlsr) + 1) * 65536,
        dlsr <= u32::MAX - 65536 ==> dlsr_nanos((dlsr + 65536) as u32) == dlsr_nanos(dlsr)
            + 1_000_000_000,
{
}

/// A round trip is what is left of the time since the report when the holding time is
/// taken off, to the nanosecond, and the jitter is that of the answer. Nothing is
/// measured if and only if there is no answer or it was held for longer than the time
/// that has passed.
pub proof fn round_trip_is_what_is_left(buf: Seq<u8>, lsr: u32, elapsed: u128)
    ensures
        round_trip(buf, None, elapsed) is None,
        answer_from(buf, 0, lsr) is None ==> round_trip(buf, Some(lsr), elapsed) is None,
        answer_from(buf, 0, lsr) matches Some(b) ==> {
            &&& round_trip(buf, Some(lsr), elapsed) is Some <==> b.dlsr * 1_000_000_000 < (elapsed
                + 1) * 65536
            &&& round_trip(buf, Some(lsr), elapsed) matches Some(found) ==> {
                &&& found.0 <= elapsed
                &&& (elapsed - found.0) * 65536 <= b.dlsr * 1_000_000_000 < (elapsed - found.0 + 1)
                    * 65536
                &&& found.1 == b.jitter
            }
        },
{
    if let Some(b) = answer_from(buf, 0, lsr) {
        holding_time_is_in_65536ths(b.dlsr);
    }
}

/// A longer wait for the same answer is a longer round trip, by just as much.
pub proof fn longer_wait_is_a_longer_round_trip(
    buf: Seq<u8>,
    lsr: u32,
    elapsed: u128,
    more: u128,
)
    requires
        elapsed + more <= u128::MAX,
        round_trip(buf, Some(lsr), elapsed) is Some,
    ensures
        round_trip(buf, Some(lsr), elapsed) matches Some(found) && round_trip(
            buf,
            Some(lsr),
            (elapsed + more) as u128,
        ) == Some(((found.0 + more) as u128, found.1)),
{
}

/// The search goes from packet to packet. It ends at the end of the datagram and at a
/// packet of another version. It takes the answering block of the first receiver report
/// that has one, and otherwise goes on behind as many words as the length field says.
pub proof fn search_goes_from_packet_to_packet(buf: Seq<u8>, at: int, lsr: u32)
    requires
        0 <= at,
    ensures
        at + 4 > buf.len() ==> answer_from(buf, at, lsr) is None,
        at + 4 <= buf.len() && !(0x80 <= buf[at] < 0xc0) ==> answer_from(buf, at, lsr) is None,
        at + 4 <= buf.len() && 0x80 <= buf[at] < 0xc0 && buf[at + 1] == 201 && block_answering(
            buf,
            at,
            0,
            lsr,
        ) is Some ==> answer_from(buf, at, lsr) == block_answering(buf, at, 0, lsr),
        at + 4 <= buf.len() && 0x80 <= buf[at] < 0xc0 && (buf[at + 1] != 201 || block_answering(
            buf,
            at,
            0,
            lsr,
        ) is None) ==> answer_from(buf, at, lsr) == answer_from(
            buf,
            at + 4 + 4 * (buf[at + 2] * 0x100 + buf[at + 3]),
            lsr,
        ),
{
    if at + 4 <= buf.len() {
        bytes_are_read_big_endian(buf, at + 2);
    }
}

/// Block number `k` of a receiver report lies in the datagram and, from the second one
/// on, in its packet.
pub open spec fn block_is_whole(buf: Seq<u8>, at: int, k: int) -> bool {
    &&& at + 8 + 24 * k + 24 <= buf.len()
    &&& k >= 1 ==> 8 + 24 * k + 24 <= 4 + 4 * (buf[at + 2] * 0x100 + buf[at + 3])
}

/// Whichever whole block of a receiver report is the first to name the sender report is
/// the one that answers it, with the jitter, the name and the holding time from its
/// fourth, fifth and sixth word.
pub proof fn first_block_that_names_the_report_answers(
    buf: Seq<u8>,
    at: int,
    i: int,
    k: int,
    lsr: u32,
)
    requires
        0 <= at,
        at + 4 <= buf.len(),
        0 <= i <= k < buf[at] % 32,
        block_is_whole(buf, at, k),
        u32_at(buf, at + 8 + 24 * k + 16) == lsr,
        forall|j: int| i <= j < k ==> u32_at(buf, #[trigger] block_start(at, j) + 16) != lsr,
    ensures
        block_answering(buf, at, i, lsr) == Some(
            ReportBlock {
                jitter: u32_at(buf, at + 8 + 24 * k + 12),
                lsr,
                dlsr: u32_at(buf, at + 8 + 24 * k + 20),
            },
        ),
    decreases k - i,
{
    bytes_are_read_big_endian(buf, at + 2);
    if i < k {
        assert(u32_at(buf, block_start(at, i) + 16) != lsr);
        first_block_that_names_the_report_answers(buf, at, i + 1, k, lsr);
    }
}

/// What answers a sender report is a whole block of the receiver report that names it,
/// and without such a block nothing answers.
pub proof fn only_a_whole_block_answers(buf: Seq<u8>, at: int, i: int, lsr: u32) -> (k: int)
    requires
        0 <= at,
        at + 4 <= buf.len(),
        0 <= i,
    ensures
        block_answering(buf, at, i, lsr) matches Some(b) ==> {
            &&& i <= k < buf[at] % 32
            &&& block_is_whole(buf, at, k)
            &&& u32_at(buf, at + 8 + 24 * k + 16) == lsr
            &&& b.lsr == lsr
            &&& b.jitter == u32_at(buf, at + 8 + 24 * k + 12)
            &&& b.dlsr == u32_at(buf, at + 8 + 24 * k + 20)
        },
    decreases buf[at] % 32 - i,
{
    bytes_are_read_big_endian(buf, at + 2);
    if i >= buf[at] % 32 || !block_is_whole(buf, at, i) {
        i
    } else if u32_at(buf, at + 8 + 24 * i + 16) == lsr {
        i
    } else {
        only_a_whole_block_answers(buf, at, i + 1, lsr)
    }
}

/// A datagram that is one receiver report with one block, by its bytes: the jitter at
/// byte 20, the name at byte 24 and the holding time at byte 28 decide what is measured.
pub proof fn one_report_by_its_bytes(buf: Seq<u8>, lsr: u32, elapsed: u128)
    requires
        buf.len() == 32,
        buf[0] == 0x81,
        buf[1] == 201,
    ensures
        round_trip(buf, Some(lsr), elapsed) is Some <==> u32_at(buf, 24) == lsr && u32_at(buf, 28)
            * 1_000_000_000 < (elapsed + 1) * 65536,
        round_trip(buf, Some(lsr), elapsed) matches Some(found) ==> {
            &&& found.0 <= elapsed
            &&& (elapsed - found.0) * 65536 <= u32_at(buf, 28) * 1_000_000_000 < (elapsed - found.0
                + 1) * 65536
            &&& found.1 == u32_at(buf, 20)
        },
{
    single_report_is_measured(buf, Some(lsr), elapsed);
    holding_time_is_in_65536ths(block_at(buf, 8).dlsr);
}

/// A sender report that was sent is the one that answers are held against from then on,
/// whatever was sent before. One that could not be sent changes nothing.
pub proof fn sent_report_is_remembered(stats: SenderStats, lsr: u32, t: Instant)
    ensures
        stats.after_report(lsr, Some(t)).last_sr == Some((lsr, t)),
        stats.after_report(lsr, Some(t)).expected_lsr() == Some(lsr),
        stats.after_report(lsr, None) == stats,
        stats.after_report(lsr, Some(t)).packet_count == stats.packet_count,
        stats.after_report(lsr, Some(t)).octet_count == stats.octet_count,
        stats.after_report(lsr, Some(t)).last_pair == stats.last_pair,
        stats.after_report(lsr, Some(t)).last_rtt_nanos == stats.last_rtt_nanos,
        stats.last_sr is None ==> stats.expected_lsr() is None,
        stats.last_sr matches Some(sr) ==> stats.expected_lsr() == Some(sr.0),
{
}

/// An answer to the report that was sent last is measured, and one to the report before
/// it no more.
pub proof fn only_the_last_report_is_answered(
    stats: SenderStats,
    first: u32,
    t1: Instant,
    second: u32,
    t2: Instant,
    answer: Seq<u8>,
    elapsed: u128,
)
    requires
        first != second,
    ensures
        ({
            let later = stats.after_report(first, Some(t1)).after_report(second, Some(t2));
            &&& later.last_sr == Some((second, t2))
            &&& answer_from(answer, 0, second) matches Some(b) ==> (round_trip(
                answer,
                later.expected_lsr(),
                elapsed,
            ) is Some <==> b.dlsr * 1_000_000_000 < (elapsed + 1) * 65536)
            &&& answer_from(answer, 0, second) is None ==> round_trip(
                answer,
                later.expected_lsr(),
                elapsed,
            ) is None
        }),
{
    round_trip_is_what_is_left(answer, second, elapsed);
}

/// Over several times that a report was due, the last one that was sent is remembered,
/// by the middle bits of the wall clock that it told.
pub proof fn last_report_sent_is_remembered(
    stats: SenderStats,
    ticks: Seq<Option<Instant>>,
    k: int,
)
    requires
        stats.last_pair.0 != 0,
        0 <= k < ticks.len(),
        ticks[k] is Some,
        forall|i: int| k < i < ticks.len() ==> #[trigger] ticks[i] is None,
    ensures
        after_ticks(stats, ticks).last_sr is Some,
        after_ticks(stats, ticks).last_sr matches Some(sr) ==> sr.0 == (stats.last_pair.0 as int
            / 0x1_0000) % 0x1_0000_0000 && Some(sr.1) == ticks[k],
    decreases ticks.len(),
{
    let front = ticks.drop_last();
    reporting_keeps_the_counts(stats, front);
    if k < front.len() {
        assert(ticks[ticks.len() - 1] is None);
        assert forall|i: int| k < i < front.len() implies #[trigger] front[i] is None by {
            assert(ticks[i] is None);
        }
        last_report_sent_is_remembered(stats, front, k);
    }
}

/// A packet counts as one, its payload by its length, and both clocks are noted as they
/// were. What was heard back stays.
pub proof fn packet_is_counted_once(stats: SenderStats, ntp_now: u64, timestamp: u32, octets: u32)
    ensures
        ({
            let after = stats.after_packet(ntp_now, timestamp, octets);
            &&& after.packet_count == (stats.packet_count + 1) % 0x1_0000_0000
            &&& after.octet_count == (stats.octet_count + octets) % 0x1_0000_0000
            &&& after.last_pair.0 == ntp_now
            &&& after.last_pair.1 == timestamp
            &&& after.last_sr == stats.last_sr
            &&& after.last_rtt_nanos == stats.last_rtt_nanos
        }),
{
}

/// A measured round trip is noted as it is, as long as 64 bits hold it, and changes
/// nothing else.
pub proof fn round_trip_is_noted(stats: SenderStats, rtt_nanos: u128)
    ensures
        rtt_nanos <= u64::MAX ==> stats.after_rtt(rtt_nanos).last_rtt_nanos == rtt_nanos,
        stats.after_rtt(rtt_nanos).packet_count == stats.packet_count,
        stats.after_rtt(rtt_nanos).octet_count == stats.octet_count,
        stats.after_rtt(rtt_nanos).last_pair == stats.last_pair,
        stats.after_rtt(rtt_nanos).last_sr == stats.last_sr,
{
}

} // verus!
