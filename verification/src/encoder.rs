//! Splitting a captured chunk into its two channels.
use vstd::prelude::*;

verus! {

/// One chunk of 16-bit linear PCM, one vector per channel.
pub struct L16Frame {
    pub left: Vec<i16>,
    pub right: Vec<i16>,
}

/// Every second sample of `data`, from sample `first` on, as far as whole
/// stereo frames go.
pub open spec fn channel(data: Seq<i16>, first: int) -> Seq<i16> {
    Seq::new(data.len() / 2, |i: int| data[2 * i + first])
}

/// Puts `left` and `right` back together, left sample first.
pub open spec fn stereo(left: Seq<i16>, right: Seq<i16>) -> Seq<i16> {
    Seq::new(2 * left.len(), |i: int| if i % 2 == 0 { left[i / 2] } else { right[i / 2] })
}

/// Splits interleaved stereo samples into the left and the right channel. A
/// sample without its partner at the end is left out.
pub fn encodel16(data: &[i16]) -> (frame: L16Frame)
    ensures
        frame.left@ == channel(data@, 0),
        frame.right@ == channel(data@, 1),
        frame.left@.len() == data@.len() / 2,
        frame.right@.len() == data@.len() / 2,
        forall|i: int| 0 <= i < data@.len() / 2 ==> #[trigger] frame.left@[i] == data@[2 * i],
        forall|i: int| 0 <= i < data@.len() / 2 ==> #[trigger] frame.right@[i] == data@[2 * i + 1],
{
    let frames: usize = data.len() / 2;
    let mut left: Vec<i16> = Vec::with_capacity(frames);
    let mut right: Vec<i16> = Vec::with_capacity(frames);
    let mut i: usize = 0;
    while i < frames
        invariant
            i <= frames,
            frames == data.len() / 2,
            left@ == channel(data@, 0).take(i as int),
            right@ == channel(data@, 1).take(i as int),
        decreases frames - i,
    {
        left.push(data[2 * i]);
        right.push(data[2 * i + 1]);
        i = i + 1;
        assert(left@ =~= channel(data@, 0).take(i as int));
        assert(right@ =~= channel(data@, 1).take(i as int));
    }
    assert(left@ =~= channel(data@, 0));
    assert(right@ =~= channel(data@, 1));
    L16Frame { left, right }
}

/// No sample of a whole stereo frame is lost, moved or swapped between the
/// channels: put together again, the two channels are the captured data.
pub proof fn channels_rebuild_the_data(data: Seq<i16>)
    requires
        data.len() % 2 == 0,
    ensures
        stereo(channel(data, 0), channel(data, 1)) == data,
{
    assert(stereo(channel(data, 0), channel(data, 1)) =~= data);
}

/// Each stereo frame gives its first sample to the left and its second one to the
/// right, however long the data is.
pub proof fn frames_are_split_in_order(data: Seq<i16>, i: int)
    requires
        0 <= i < data.len() / 2,
    ensures
        channel(data, 0).len() == data.len() / 2,
        channel(data, 1).len() == data.len() / 2,
        channel(data, 0)[i] == data[2 * i],
        channel(data, 1)[i] == data[2 * i + 1],
{
}

} // verus!
