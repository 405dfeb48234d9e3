//! The format of an audio stream.

use vstd::prelude::*;

verus! {

/// The number of audio channels.
#[derive(Copy, Clone, Debug, PartialEq, Eq, Structural)]
pub enum ChannelCount {
    Mono,
    Stereo,
}

impl ChannelCount {
    /// The number of interleaved samples at one moment.
    pub open spec fn size(self) -> nat {
        match self {
            ChannelCount::Mono => 1,
            ChannelCount::Stereo => 2,
        }
    }

    /// The number of interleaved samples at one moment.
    pub fn count(&self) -> (count: u16)
        ensures
            count == self.size(),
    {
        match self {
            ChannelCount::Mono => 1,
            ChannelCount::Stereo => 2,
        }
    }
}

/// The sample rate and the channels of a stream.
#[derive(Copy, Clone, Debug, PartialEq, Eq, Structural)]
pub struct AudioStreamParams {
    pub sample_rate: u32,
    pub channels: ChannelCount,
}

impl AudioStreamParams {
    /// The parameters of a stream.
    pub fn new(sample_rate: u32, channels: ChannelCount) -> (params: Self)
        ensures
            params.sample_rate == sample_rate,
            params.channels == channels,
    {
        AudioStreamParams { sample_rate, channels }
    }
}

/// A stereo stream has two samples for each one of a mono stream.
pub proof fn lemma_channel_counts(channels: ChannelCount, count: u16)
    requires
        call_ensures(ChannelCount::count, (&channels,), count),
    ensures
        channels is Mono <==> count == 1,
        channels is Stereo <==> count == 2,
{
}

/// A stream has the rate and the channels that it was made with.
pub proof fn lemma_new_stream(sample_rate: u32, channels: ChannelCount, params: AudioStreamParams)
    requires
        call_ensures(AudioStreamParams::new, (sample_rate, channels), params),
    ensures
        params.sample_rate == sample_rate,
        params.channels == channels,
{
}

} // verus!
