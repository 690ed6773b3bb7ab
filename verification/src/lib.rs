//! Verified core of a two-speaker link: the left channel of a captured stream
//! is sent to a tablet over RTP, the right channel is played on the local
//! speakers, and the local playback is delayed until both are heard together.

pub mod audioout;
pub mod blackhole;
pub mod clock;
pub mod dest;
pub mod device;
pub mod encoder;
pub mod playout;
pub mod ring;
pub mod rtp;
pub mod snapshot;
pub mod stream;
pub mod target;
pub mod window;
pub mod wire;
