//! Rendering to a file: what is rendered when, and when the end is reached.

use crate::channel::event::{ChannelConfigEvent, ChannelEvent, SynthEvent};
use crate::scalar;
use crate::scalar::Scalar;
use crate::stream::AudioStreamParams;
use vstd::prelude::*;

verus! {

/// The events that a synthesizer is set up with: all channels get the soundfonts, then the maximum
/// number of voices per key.
pub fn setup_events<V, F>(soundfonts: F, layers: Option<usize>) -> (events: Vec<SynthEvent<V, F>>)
    ensures
        events@ == seq![
            SynthEvent::<V, F>::AllChannels(
                ChannelEvent::Config(ChannelConfigEvent::SetSoundfonts(soundfonts)),
            ),
            SynthEvent::<V, F>::AllChannels(
                ChannelEvent::Config(ChannelConfigEvent::SetLayerCount(layers)),
            ),
        ],
{
    let mut events: Vec<SynthEvent<V, F>> = Vec::new();
    events.push(
        SynthEvent::AllChannels(
            ChannelEvent::Config(ChannelConfigEvent::SetSoundfonts(soundfonts)),
        ),
    );
    events.push(
        SynthEvent::AllChannels(ChannelEvent::Config(ChannelConfigEvent::SetLayerCount(layers))),
    );
    events
}

/// The format of the file.
#[derive(Copy, Clone, Debug, PartialEq, Eq, Structural)]
pub struct WavFormat {
    /// The number of audio channels.
    pub channels: u16,
    /// The samples per second.
    pub sample_rate: u32,
    /// The bits of a sample, which is a floating point number.
    pub bits_per_sample: u16,
}

/// What of a stretch of time is rendered next.
#[derive(Copy, Clone, Debug)]
pub enum Chunk<V> {
    /// A whole chunk, and after it the rest of the time.
    Whole { time: V, rest: V },
    /// The last piece.
    Last(V),
    /// Nothing.
    Done,
}

/// Whether `chunk` is the next piece of `remaining` seconds: ten seconds as long as more than that
/// is left, then what is left. What is not above zero is rendered only if it is `first`.
pub open spec fn is_chunk<V: Scalar>(remaining: V, first: bool, chunk: Chunk<V>) -> bool {
    exists|ten: V, zero: V, long: bool, some: bool| #[trigger]
        is_chunk_by(remaining, first, chunk, ten, zero, long, some)
}

/// As above, by way of the values in between.
pub open spec fn is_chunk_by<V: Scalar>(
    remaining: V,
    first: bool,
    chunk: Chunk<V>,
    ten: V,
    zero: V,
    long: bool,
    some: bool,
) -> bool {
    &&& scalar::is_ratio(10, 1, ten)
    &&& scalar::is_ratio(0, 1, zero)
    &&& scalar::is_less(ten, remaining, long)
    &&& scalar::is_less(zero, remaining, some)
    &&& if long {
        chunk matches Chunk::Whole { time, rest } && time == ten && scalar::is_difference(
            remaining,
            ten,
            rest,
        )
    } else if first || some {
        chunk == Chunk::Last(remaining)
    } else {
        chunk == Chunk::<V>::Done
    }
}

/// The next piece of `remaining` seconds. `first` tells whether no piece of the stretch has been
/// rendered yet.
pub fn next_chunk<V: Scalar>(remaining: V, first: bool) -> (chunk: Chunk<V>)
    ensures
        is_chunk(remaining, first, chunk),
{
    let ten: V = scalar::ratio(10, 1);
    let zero: V = scalar::ratio(0, 1);
    let long: bool = scalar::less(ten, remaining);
    let some: bool = scalar::less(zero, remaining);
    let chunk = if long {
        Chunk::Whole { time: ten, rest: scalar::difference(remaining, ten) }
    } else if first || some {
        Chunk::Last(remaining)
    } else {
        Chunk::Done
    };
    assert(is_chunk_by(remaining, first, chunk, ten, zero, long, some));
    chunk
}

/// How far rendering to a file has come.
pub struct OfflineProgress<V> {
    params: AudioStreamParams,
    missed_samples: V,
    frames_written: u64,
}

/// Whether `samples` is what a stretch of time and the part of a sample left over make.
pub open spec fn is_samples<V: Scalar>(sample_rate: u32, time: V, missed: V, samples: V) -> bool {
    exists|rate: V, product: V| #[trigger]
        is_samples_by(sample_rate, time, missed, samples, rate, product)
}

/// As above, by way of the values in between.
pub open spec fn is_samples_by<V: Scalar>(
    sample_rate: u32,
    time: V,
    missed: V,
    samples: V,
    rate: V,
    product: V,
) -> bool {
    &&& scalar::is_ratio(sample_rate as int, 1, rate)
    &&& scalar::is_product(rate, time, product)
    &&& scalar::is_sum(product, missed, samples)
}

/// Whether the whole of `samples` makes `count` values in all audio channels, or too many to count,
/// and `left` is its fraction.
pub open spec fn is_split<V: Scalar>(
    samples: V,
    channels: int,
    count: Option<usize>,
    left: V,
) -> bool {
    &&& call_ensures(V::fractional, (samples,), left)
    &&& exists|whole: u64| #[trigger]
        call_ensures(V::whole, (samples,), whole) && match count {
            Some(count) => count == whole * channels,
            None => whole * channels > usize::MAX,
        }
}

/// Whether a stretch of time and the part of a sample left over before make `count` values in all
/// audio channels, or too many to count, with `left` left over.
pub open spec fn is_batch<V: Scalar>(
    sample_rate: u32,
    channels: int,
    time: V,
    missed: V,
    count: Option<usize>,
    left: V,
) -> bool {
    exists|samples: V| #[trigger]
        is_samples(sample_rate, time, missed, samples) && is_split(samples, channels, count, left)
}

/// Whether no sample is larger than a ten thousandth.
pub open spec fn is_quiet<S: Scalar>(samples: Seq<S>, quiet: bool) -> bool {
    if quiet {
        forall|i: int| 0 <= i < samples.len() ==> small(#[trigger] samples[i], true)
    } else {
        exists|i: int| 0 <= i < samples.len() && small(#[trigger] samples[i], false)
    }
}

/// Whether asking if a sample is at most a ten thousandth in size gives `answer`.
pub open spec fn small<S: Scalar>(sample: S, answer: bool) -> bool {
    exists|size: S, limit: S| #[trigger] small_by(sample, answer, size, limit)
}

/// As above, by way of the values in between.
pub open spec fn small_by<S: Scalar>(sample: S, answer: bool, size: S, limit: S) -> bool {
    &&& call_ensures(S::magnitude, (sample,), size)
    &&& scalar::is_ratio(1, 10000, limit)
    &&& call_ensures(S::at_most, (size, limit), answer)
}

/// Tells whether a stretch of samples is so quiet that the rendering ends before it.
pub fn all_quiet<S: Scalar>(samples: &Vec<S>) -> (quiet: bool)
    ensures
        is_quiet(samples@, quiet),
{
    let mut i: usize = 0;
    let limit: S = scalar::ratio(1, 10000);
    while i < samples.len()
        invariant
            i <= samples@.len(),
            scalar::is_ratio(1, 10000, limit),
            forall|j: int| 0 <= j < i ==> small(#[trigger] samples@[j], true),
        decreases samples@.len() - i,
    {
        let size: S = samples[i].magnitude();
        assert(call_ensures(S::magnitude, (samples@[i as int],), size));
        let answer: bool = size.at_most(limit);
        assert(small_by(samples@[i as int], answer, size, limit));
        if !answer {
            return false;
        }
        i += 1;
    }
    true
}

impl<V: Scalar> OfflineProgress<V> {
    /// The format of the stream.
    pub closed spec fn stream(&self) -> AudioStreamParams {
        self.params
    }

    /// The part of a sample that was left over so far.
    pub closed spec fn missed(&self) -> V {
        self.missed_samples
    }

    /// The number of frames that have been written.
    pub closed spec fn frames(&self) -> u64 {
        self.frames_written
    }

    /// Nothing has been rendered.
    pub fn new(params: AudioStreamParams) -> (progress: Self)
        ensures
            progress.stream() == params,
            scalar::is_ratio(0, 1, progress.missed()),
            progress.frames() == 0,
    {
        OfflineProgress { params, missed_samples: scalar::ratio(0, 1), frames_written: 0 }
    }

    /// The format of the stream.
    pub fn get_params(&self) -> (params: AudioStreamParams)
        ensures
            params == self.stream(),
    {
        self.params
    }

    /// The number of frames that have been written.
    pub fn frames_written(&self) -> (frames: u64)
        ensures
            frames == self.frames(),
    {
        self.frames_written
    }

    /// The format of the file: floating point numbers of 32 bits.
    pub fn format(&self) -> (format: WavFormat)
        ensures
            format.channels == self.stream().channels.size(),
            format.sample_rate == self.stream().sample_rate,
            format.bits_per_sample == 32,
    {
        WavFormat {
            channels: self.params.channels.count(),
            sample_rate: self.params.sample_rate,
            bits_per_sample: 32,
        }
    }

    /// The number of values to render for a stretch of time, in all audio channels together. The
    /// part of a sample that is left over counts the next time. None if there are too many.
    pub fn batch_len(&mut self, time: V) -> (count: Option<usize>)
        ensures
            final(self).stream() == old(self).stream(),
            final(self).frames() == old(self).frames(),
            is_batch(
                old(self).stream().sample_rate,
                old(self).stream().channels.size() as int,
                time,
                old(self).missed(),
                count,
                final(self).missed(),
            ),
    {
        let ghost missed = self.missed_samples;
        let rate: V = scalar::ratio(self.params.sample_rate as i64, 1);
        let product = scalar::product(rate, time);
        let samples = scalar::sum(product, self.missed_samples);
        assert(is_samples_by(
            self.params.sample_rate,
            time,
            missed,
            samples,
            rate,
            product,
        ));
        assert(is_samples(self.params.sample_rate, time, missed, samples));
        let left: V = samples.fractional();
        assert(call_ensures(V::fractional, (samples,), left));
        let whole: u64 = samples.whole();
        assert(call_ensures(V::whole, (samples,), whole));
        self.missed_samples = left;
        let channels: u16 = self.params.channels.count();
        let count: Option<usize> = match whole.checked_mul(channels as u64) {
            Some(all) => if all <= usize::MAX as u64 {
                Some(all as usize)
            } else {
                None
            },
            None => None,
        };
        assert(is_split(samples, self.params.channels.size() as int, count, left));
        count
    }

    /// The number of values in a second, in all audio channels together: the end is rendered in
    /// such stretches until one is quiet.
    pub fn tail_len(&self) -> (count: u64)
        ensures
            count == self.stream().sample_rate * self.stream().channels.size(),
    {
        let channels: u16 = self.params.channels.count();
        let rate: u64 = self.params.sample_rate as u64;
        assert(rate * channels <= u32::MAX * 2) by (nonlinear_arith)
            requires
                rate <= u32::MAX,
                channels <= 2,
        ;
        rate * channels as u64
    }

    /// Counts the frames of a stretch of values that is written.
    pub fn wrote(&mut self, len: usize)
        requires
            old(self).frames() + len <= u64::MAX,
        ensures
            final(self).stream() == old(self).stream(),
            final(self).missed() == old(self).missed(),
            final(self).frames() == old(self).frames() + len as int
                / old(self).stream().channels.size() as int,
    {
        let channels: u16 = self.params.channels.count();
        let frames: usize = len / (channels as usize);
        self.frames_written = self.frames_written + frames as u64;
    }
}

/// A synthesizer is set up with its soundfonts first and then with the voices that a key may have, both
/// for all channels.
pub proof fn lemma_setup<V, F>(
    soundfonts: F,
    layers: Option<usize>,
    events: Vec<SynthEvent<V, F>>,
)
    requires
        call_ensures(setup_events::<V, F>, (soundfonts, layers), events),
    ensures
        events@.len() == 2,
        events@[0] matches SynthEvent::AllChannels(
            ChannelEvent::Config(ChannelConfigEvent::SetSoundfonts(fonts)),
        ) && fonts == soundfonts,
        events@[1] matches SynthEvent::AllChannels(
            ChannelEvent::Config(ChannelConfigEvent::SetLayerCount(count)),
        ) && count == layers,
{
}

/// Whether `time` is ten seconds, and `rest` what is left of `remaining` after them.
pub open spec fn is_less_ten<V: Scalar>(remaining: V, time: V, rest: V) -> bool {
    call_ensures(V::ratio, (10, 1), time) && call_ensures(V::minus, (remaining, time), rest)
}

/// Whether some `answer` was given to whether `num` seconds are less than `time`.
pub open spec fn outlasts<V: Scalar>(num: i64, time: V, answer: bool) -> bool {
    exists|bound: V|
        #![trigger call_ensures(V::less, (bound, time), answer)]
        call_ensures(V::ratio, (num, 1), bound) && call_ensures(V::less, (bound, time), answer)
}

/// A stretch of time is rendered ten seconds at a time while more than that is left; then the rest is
/// rendered at once. What does not outlast zero is rendered if nothing of the stretch was yet.
pub proof fn lemma_chunks<V: Scalar>(remaining: V, first: bool, chunk: Chunk<V>)
    requires
        call_ensures(next_chunk::<V>, (remaining, first), chunk),
    ensures
        match chunk {
            Chunk::Whole { time, rest } => outlasts(10, remaining, true) && is_less_ten(
                remaining,
                time,
                rest,
            ),
            Chunk::Last(time) => time == remaining && outlasts(10, remaining, false) && (first
                || outlasts(0, remaining, true)),
            Chunk::Done => !first && outlasts(10, remaining, false) && outlasts(
                0,
                remaining,
                false,
            ),
        },
{
    let (ten, zero, long, some) = choose|ten: V, zero: V, long: bool, some: bool| #[trigger]
        is_chunk_by(remaining, first, chunk, ten, zero, long, some);
    assert(call_ensures(V::less, (ten, remaining), long));
    assert(call_ensures(V::less, (zero, remaining), some));
}

/// Whether `samples` is the sample rate times the time, and what was left over.
pub open spec fn is_rate_times<V: Scalar>(rate: u32, time: V, missed: V, samples: V) -> bool {
    exists|per_second: V, product: V|
        #![trigger call_ensures(V::times, (per_second, time), product), call_ensures(V::plus, (product, missed), samples)]
        call_ensures(V::ratio, (rate as i64, 1), per_second) && call_ensures(
            V::times,
            (per_second, time),
            product,
        ) && call_ensures(V::plus, (product, missed), samples)
}

/// Whether `samples` parts into `whole` and `left`.
pub open spec fn parts_into<V: Scalar>(samples: V, whole: u64, left: V) -> bool {
    call_ensures(V::whole, (samples,), whole) && call_ensures(V::fractional, (samples,), left)
}

/// The time and the part of a sample that was left over make whole samples, one for each audio
/// channel, and a new part that is left over; so no part of a sample is lost. Where there are too many
/// to count there is no answer.
pub proof fn lemma_nothing_is_missed<V: Scalar>(
    progress: &mut OfflineProgress<V>,
    time: V,
    count: Option<usize>,
)
    requires
        call_ensures(OfflineProgress::<V>::batch_len, (progress, time), count),
    ensures
        exists|samples: V, whole: u64| #[trigger]
            parts_into(samples, whole, final(progress).missed()) && is_rate_times(
                old(progress).stream().sample_rate,
                time,
                old(progress).missed(),
                samples,
            ) && match count {
                Some(count) => count == if old(progress).stream().channels is Stereo {
                    whole + whole
                } else {
                    whole as int
                },
                None => if old(progress).stream().channels is Stereo {
                    whole + whole > usize::MAX
                } else {
                    whole > usize::MAX
                },
            },
        final(progress).stream() == old(progress).stream(),
        final(progress).frames() == old(progress).frames(),
{
    let stream = old(progress).stream();
    let missed = old(progress).missed();
    let left = final(progress).missed();
    let channels = stream.channels.size() as int;
    let samples = choose|samples: V| #[trigger]
        is_samples(stream.sample_rate, time, missed, samples) && is_split(
            samples,
            channels,
            count,
            left,
        );
    let (rate, product) = choose|rate: V, product: V| #[trigger]
        is_samples_by(stream.sample_rate, time, missed, samples, rate, product);
    assert(call_ensures(V::times, (rate, time), product));
    assert(call_ensures(V::plus, (product, missed), samples));
    let whole = choose|whole: u64| #[trigger]
        call_ensures(V::whole, (samples,), whole) && match count {
            Some(count) => count == whole * channels,
            None => whole * channels > usize::MAX,
        };
    let w = whole as int;
    assert(channels == 1 ==> w * channels == w) by (nonlinear_arith);
    assert(channels == 2 ==> w * channels == w + w) by (nonlinear_arith);
    assert(parts_into(samples, whole, left));
}

/// A second has as many values as there are samples in it, for each audio channel; the frames that are
/// written are counted once for all channels.
pub proof fn lemma_frames<V: Scalar>(
    progress: OfflineProgress<V>,
    tail: u64,
    writing: &mut OfflineProgress<V>,
    len: usize,
    format: WavFormat,
)
    requires
        call_ensures(OfflineProgress::<V>::tail_len, (&progress,), tail),
        call_ensures(OfflineProgress::<V>::format, (&progress,), format),
        call_ensures(OfflineProgress::<V>::wrote, (writing, len), ()),
    ensures
        progress.stream().channels is Mono ==> tail == progress.stream().sample_rate
            && format.channels == 1,
        progress.stream().channels is Stereo ==> tail == progress.stream().sample_rate
            + progress.stream().sample_rate && format.channels == 2,
        format.sample_rate == progress.stream().sample_rate,
        format.bits_per_sample == 32,
        old(writing).stream().channels is Mono ==> final(writing).frames() - old(
            writing).frames() == len,
        old(writing).stream().channels is Stereo ==> len - 1 <= 2 * (final(writing).frames() - old(
            writing).frames()) <= len,
        final(writing).missed() == old(writing).missed(),
{
    let rate = progress.stream().sample_rate as int;
    let channels = progress.stream().channels.size() as int;
    assert(channels == 1 ==> rate * channels == rate) by (nonlinear_arith);
    assert(channels == 2 ==> rate * channels == rate + rate) by (nonlinear_arith);
    assert(tail == rate * channels);
    let n = len as int;
    let size = old(writing).stream().channels.size() as int;
    assert(size == 1 ==> n / size == n) by (nonlinear_arith);
    assert(size == 2 ==> n / size == n / 2) by (nonlinear_arith);
    assert(final(writing).frames() == old(writing).frames() + n / size);
}

/// Nothing is rendered and nothing left over at the start.
pub proof fn lemma_new_progress<V: Scalar>(
    params: AudioStreamParams,
    progress: OfflineProgress<V>,
    read: AudioStreamParams,
    frames: u64,
)
    requires
        call_ensures(OfflineProgress::<V>::new, (params,), progress),
        call_ensures(OfflineProgress::<V>::get_params, (&progress,), read),
        call_ensures(OfflineProgress::<V>::frames_written, (&progress,), frames),
    ensures
        read == params,
        frames == 0,
        call_ensures(V::ratio, (0, 1), progress.missed()),
{
}

/// Whether asking if a sample is at most a ten thousandth in size gives `answer`.
pub open spec fn hardly_sounds<S: Scalar>(sample: S, answer: bool) -> bool {
    exists|size: S, limit: S|
        #![trigger call_ensures(S::at_most, (size, limit), answer)]
        call_ensures(S::magnitude, (sample,), size) && call_ensures(S::ratio, (1, 10000), limit)
            && call_ensures(S::at_most, (size, limit), answer)
}

/// A stretch is quiet just when each of its samples is at most a ten thousandth.
pub proof fn lemma_quiet<S: Scalar>(samples: Vec<S>, quiet: bool)
    requires
        call_ensures(all_quiet::<S>, (&samples,), quiet),
    ensures
        quiet ==> forall|i: int|
            0 <= i < samples@.len() ==> hardly_sounds(#[trigger] samples@[i], true),
        !quiet ==> exists|i: int|
            0 <= i < samples@.len() && hardly_sounds(#[trigger] samples@[i], false),
{
    if quiet {
        assert forall|i: int| 0 <= i < samples@.len() implies hardly_sounds(
            #[trigger] samples@[i],
            true,
        ) by {
            lemma_small(samples@[i], true);
        }
    } else {
        let i = choose|i: int| 0 <= i < samples@.len() && small(#[trigger] samples@[i], false);
        lemma_small(samples@[i], false);
    }
}

/// A small sample hardly sounds.
proof fn lemma_small<S: Scalar>(sample: S, answer: bool)
    requires
        small(sample, answer),
    ensures
        hardly_sounds(sample, answer),
{
    let (size, limit) = choose|size: S, limit: S| #[trigger] small_by(sample, answer, size, limit);
    assert(call_ensures(S::at_most, (size, limit), answer));
}

} // verus!
