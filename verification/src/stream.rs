//! From the capture ring to the two outputs, a chunk at a time.
use crate::audioout::{duplicated, duplicated_frames};
use crate::encoder::{channel, encodel16, L16Frame};
use crate::ring::{
    accepted, arrived, follows, stream_in, stream_out, taken, SampleConsumer, SampleProducer,
};
use crate::rtp::{l16_payload, l16_samples, payload_is_read_back};
use vstd::prelude::*;

verus! {

/// Samples in a chunk: ten milliseconds of 48 kHz stereo.
pub const CHUNK_SAMPLES: usize = 960;

/// Samples of silence in the packet by which the tablet learns where to report
/// to.
pub const PROBE_SAMPLES: usize = 480;

/// The delay of the local speakers until the tablet reports.
pub const INITIAL_SYNC_DELAY_MS: u32 = 200;

/// How many samples wait at a ring end.
pub open spec fn waiting(cons: SampleConsumer) -> int {
    arrived(cons).len() - taken(cons)
}

/// The next chunk at a ring end that has seen the samples `stream` come in.
pub open spec fn chunk_at(stream: Seq<i16>, start: nat) -> Seq<i16> {
    stream.subrange(start as int, start + CHUNK_SAMPLES)
}

/// Drops what waits in the ring, so that streaming begins with fresh samples.
/// Returns how many were dropped: all that had come in when the call looked.
pub fn drain(cons: &mut SampleConsumer) -> (stale: usize)
    ensures
        arrived(*old(cons)).is_prefix_of(arrived(*final(cons))),
        stream_out(*final(cons)) == stream_out(*old(cons)),
        follows(arrived(*final(cons)), stream_out(*final(cons))),
        taken(*final(cons)) == taken(*old(cons)) + stale,
        waiting(*old(cons)) <= stale <= arrived(*final(cons)).len() - taken(*old(cons)),
        arrived(*old(cons)).len() - taken(*old(cons)) <= stale,
{
    let n: usize = cons.occupied_len();
    cons.skip(n)
}

/// Takes the next whole chunk from the ring and splits it into its channels, or
/// takes nothing while no whole chunk waits.
pub fn next_frame(cons: &mut SampleConsumer) -> (r: Option<L16Frame>)
    ensures
        arrived(*old(cons)).is_prefix_of(arrived(*final(cons))),
        stream_out(*final(cons)) == stream_out(*old(cons)),
        follows(arrived(*final(cons)), stream_out(*final(cons))),
        waiting(*old(cons)) >= CHUNK_SAMPLES ==> r is Some,
        r is None ==> taken(*final(cons)) == taken(*old(cons)) && waiting(*final(cons))
            < CHUNK_SAMPLES,
        r matches Some(frame) ==> {
            &&& taken(*final(cons)) == taken(*old(cons)) + CHUNK_SAMPLES
            &&& taken(*final(cons)) <= arrived(*final(cons)).len()
            &&& frame.left@ == channel(chunk_at(arrived(*final(cons)), taken(*old(cons))), 0)
            &&& frame.right@ == channel(chunk_at(arrived(*final(cons)), taken(*old(cons))), 1)
        },
        arrived(*old(cons)).len() - taken(*old(cons)) >= 960 ==> r is Some,
        r is None ==> arrived(*final(cons)).len() - taken(*old(cons)) < 960,
        r matches Some(frame) ==> {
            &&& taken(*final(cons)) == taken(*old(cons)) + 960
            &&& frame.left@.len() == 480
            &&& frame.right@.len() == 480
            &&& forall|i: int|
                0 <= i < 480 ==> #[trigger] frame.left@[i] == arrived(*final(cons))[taken(*old(cons))
                    + 2 * i]
            &&& forall|i: int|
                0 <= i < 480 ==> #[trigger] frame.right@[i] == arrived(*final(cons))[taken(
                    *old(cons),
                ) + 2 * i + 1]
        },
{
    let n: usize = cons.occupied_len();
    if n < CHUNK_SAMPLES {
        return None;
    }
    let mut chunk: Vec<i16> = vec![0i16; CHUNK_SAMPLES];
    let _ = cons.pop_slice(chunk.as_mut_slice());
    Some(encodel16(chunk.as_slice()))
}

/// A chunk that comes out of the capture ring is what the input callback put in at
/// the same place.
pub proof fn chunk_is_what_was_captured(prod: SampleProducer, cons: SampleConsumer, start: nat)
    requires
        stream_in(prod) == stream_out(cons),
        follows(accepted(prod), stream_in(prod)),
        follows(arrived(cons), stream_out(cons)),
        start + CHUNK_SAMPLES <= accepted(prod).len(),
        start + CHUNK_SAMPLES <= arrived(cons).len(),
    ensures
        chunk_at(arrived(cons), start) == chunk_at(accepted(prod), start),
{
    assert(chunk_at(arrived(cons), start) =~= chunk_at(accepted(prod), start));
}

/// The tablet gets the left channel of a chunk and the speakers get the right
/// one: the packet holds every even sample, and each frame of the speakers plays
/// the odd sample of its stereo frame on all channels.
pub proof fn left_to_the_tablet_right_to_the_speakers(
    chunk: Seq<i16>,
    channels: nat,
    i: int,
    c: int,
)
    requires
        0 <= i < chunk.len() / 2,
        0 <= c < channels,
    ensures
        l16_samples(l16_payload(channel(chunk, 0))).len() == chunk.len() / 2,
        l16_samples(l16_payload(channel(chunk, 0)))[i] == chunk[2 * i],
        duplicated(channel(chunk, 1), channels)[i * channels + c] == chunk[2 * i + 1],
{
    payload_is_read_back(channel(chunk, 0));
    duplicated_frames(channel(chunk, 1), channels, i, c);
}

/// A chunk is the 960 samples from its start on, in order.
pub proof fn chunk_is_a_stretch_of_the_stream(stream: Seq<i16>, start: nat, i: int)
    requires
        start + 960 <= stream.len(),
        0 <= i < 960,
    ensures
        chunk_at(stream, start).len() == 960,
        chunk_at(stream, start)[i] == stream[start + i],
{
}

/// At 48 kHz a chunk of stereo and the silent packet both last ten milliseconds, and
/// the speakers start out twenty chunks behind.
pub proof fn chunks_last_ten_milliseconds()
    ensures
        CHUNK_SAMPLES * 1000 == 2 * 48000 * 10,
        PROBE_SAMPLES * 1000 == 48000 * 10,
        INITIAL_SYNC_DELAY_MS == 20 * 10,
{
}

} // verus!
