//! The options of the realtime synthesizer.

use vstd::prelude::*;
use crate::channel::voice_buffer::ChannelInitOptions;
use crate::range::ByteRange;
use crate::scalar;
use crate::scalar::Scalar;

verus! {

/// Controls the rendering strategy used by the realtime synthesizer.
#[derive(Copy, Clone, Debug, PartialEq, Eq, Structural)]
pub enum RealtimeRenderMode {
    /// Render all channels synchronously inside the buffered render thread.
    ChannelGroup,
    /// Threaded rendering with one OS thread per MIDI channel.
    Threaded,
}

impl Default for RealtimeRenderMode {
    fn default() -> (mode: Self)
        ensures
            mode == RealtimeRenderMode::ChannelGroup,
    {
        RealtimeRenderMode::ChannelGroup
    }
}

/// The channels that a synthesizer has.
#[derive(Copy, Clone, Debug, PartialEq, Eq, Structural)]
pub enum SynthFormat {
    /// The 16 channels of MIDI, of which the tenth is for percussion.
    Midi,
    /// Any number of channels.
    Custom { channels: u32 },
}

impl SynthFormat {
    /// The number of channels.
    pub open spec fn channels(self) -> u32 {
        match self {
            SynthFormat::Midi => 16,
            SynthFormat::Custom { channels } => channels,
        }
    }

    /// The number of channels.
    pub fn channel_count(&self) -> (count: u32)
        ensures
            count == self.channels(),
    {
        match self {
            SynthFormat::Midi => 16,
            SynthFormat::Custom { channels } => *channels,
        }
    }
}

/// The number of threads of a pool.
#[derive(Copy, Clone, Debug, PartialEq, Eq, Structural)]
pub enum ThreadCount {
    /// No pool.
    Off,
    /// As many as the machine suggests.
    Auto,
    /// So many.
    Manual(usize),
}

impl ThreadCount {
    /// The pool that threaded rendering makes: none, or one with a number of threads, which is None
    /// where the machine decides.
    pub fn pool(&self) -> (pool: Option<Option<usize>>)
        ensures
            pool == match *self {
                ThreadCount::Off => None,
                ThreadCount::Auto => Some(None::<usize>),
                ThreadCount::Manual(threads) => Some(Some(threads)),
            },
    {
        match self {
            ThreadCount::Off => None,
            ThreadCount::Auto => Some(None),
            ThreadCount::Manual(threads) => Some(Some(*threads)),
        }
    }

    /// The threads for the channels of a group. Channels are rendered in parallel even without a
    /// pool of their own.
    pub fn for_channel_group(&self) -> (count: ThreadCount)
        ensures
            count == match *self {
                ThreadCount::Off => ThreadCount::Auto,
                other => other,
            },
    {
        match self {
            ThreadCount::Off => ThreadCount::Auto,
            ThreadCount::Auto => ThreadCount::Auto,
            ThreadCount::Manual(threads) => ThreadCount::Manual(*threads),
        }
    }
}

/// Whether `warn` tells if a render call took longer than the threshold, which has to be above zero.
pub open spec fn is_slow_render<V: Scalar>(elapsed_ms: V, threshold_ms: V, warn: bool) -> bool {
    exists|zero: V, wanted: bool, exceeded: bool| #[trigger]
        is_slow_render_by(elapsed_ms, threshold_ms, warn, zero, wanted, exceeded)
}

/// Whether `warn` tells so, by the answers to the two comparisons.
pub open spec fn is_slow_render_by<V: Scalar>(
    elapsed_ms: V,
    threshold_ms: V,
    warn: bool,
    zero: V,
    wanted: bool,
    exceeded: bool,
) -> bool {
    &&& scalar::is_ratio(0, 1, zero)
    &&& scalar::is_less(zero, threshold_ms, wanted)
    &&& scalar::is_less(threshold_ms, elapsed_ms, exceeded)
    &&& warn == (wanted && exceeded)
}

/// Whether a warning is due for a render call: the threshold is above zero, and the call took longer.
pub fn is_slow<V: Scalar>(elapsed_ms: V, threshold_ms: V) -> (warn: bool)
    ensures
        is_slow_render(elapsed_ms, threshold_ms, warn),
{
    let zero: V = scalar::ratio(0, 1);
    let wanted: bool = scalar::less(zero, threshold_ms);
    let exceeded: bool = scalar::less(threshold_ms, elapsed_ms);
    let warn: bool = wanted && exceeded;
    assert(is_slow_render_by(elapsed_ms, threshold_ms, warn, zero, wanted, exceeded));
    warn
}

/// Options for initializing a new RealtimeSynth.
#[derive(Copy, Clone)]
pub struct XSynthRealtimeConfig<V> {
    /// Channel initialization options (same for all channels).
    pub channel_init_options: ChannelInitOptions,
    /// The length of the buffer reader in ms.
    pub render_window_ms: V,
    /// Defines the format that the synthesizer will use.
    pub format: SynthFormat,
    /// Controls the multithreading used for rendering per-voice audio for all
    /// the voices stored in a key for a channel.
    pub multithreading: ThreadCount,
    /// A range of velocities that will not be played.
    pub ignore_range: ByteRange,
    /// Controls the realtime rendering strategy.
    pub render_mode: RealtimeRenderMode,
    /// Maximum NPS (notes per second) before the realtime synthesizer starts
    /// dropping notes based on velocity. `u64::MAX` effectively disables the
    /// limiter.
    pub max_nps: u64,
    /// Render duration warning threshold in milliseconds. A warning is due for a single render call
    /// that takes longer. 0 disables the warning.
    pub render_warn_threshold_ms: V,
}

impl<V: Scalar> XSynthRealtimeConfig<V> {
    /// The default options for channels that are set up by `options`: a reader of 10 ms, MIDI
    /// channels, no threads, velocity 0 ignored, no limit on the notes per second, and a warning
    /// from 5 ms on.
    pub fn with_channels(options: ChannelInitOptions) -> (config: Self)
        ensures
            config == (XSynthRealtimeConfig {
                channel_init_options: options,
                render_window_ms: config.render_window_ms,
                format: SynthFormat::Midi,
                multithreading: ThreadCount::Off,
                ignore_range: ByteRange { low: 0, high: 0 },
                render_mode: RealtimeRenderMode::ChannelGroup,
                max_nps: u64::MAX,
                render_warn_threshold_ms: config.render_warn_threshold_ms,
            }),
            scalar::is_ratio(10, 1, config.render_window_ms),
            scalar::is_ratio(5, 1, config.render_warn_threshold_ms),
    {
        XSynthRealtimeConfig {
            channel_init_options: options,
            render_window_ms: scalar::ratio(10, 1),
            format: SynthFormat::Midi,
            multithreading: ThreadCount::Off,
            ignore_range: ByteRange::new(0, 0),
            render_mode: RealtimeRenderMode::default(),
            max_nps: u64::MAX,
            render_warn_threshold_ms: scalar::ratio(5, 1),
        }
    }
}

/// Whether `size` is the number of samples in some milliseconds.
pub open spec fn is_render_size<V: Scalar>(sample_rate: u32, buffer_ms: V, size: u64) -> bool {
    exists|rate: V, scaled: V, thousand: V, frames: V|
        {
            &&& scalar::is_ratio(sample_rate as int, 1, rate)
            &&& #[trigger] scalar::is_product(rate, buffer_ms, scaled)
            &&& scalar::is_ratio(1000, 1, thousand)
            &&& #[trigger] scalar::is_quotient(scaled, thousand, frames)
            &&& call_ensures(V::whole, (frames,), size)
        }
}

/// The number of samples in some milliseconds.
pub fn calculate_render_size<V: Scalar>(sample_rate: u32, buffer_ms: V) -> (size: u64)
    ensures
        is_render_size(sample_rate, buffer_ms, size),
{
    let rate = scalar::ratio(sample_rate as i64, 1);
    let scaled = scalar::product(rate, buffer_ms);
    let thousand = scalar::ratio(1000, 1);
    let frames: V = scalar::quotient(scaled, thousand);
    let size: u64 = frames.whole();
    assert(call_ensures(V::whole, (frames,), size));
    size
}

/// The default mode renders all channels together; the number of channels is the one of the format,
/// 16 for MIDI.
pub proof fn lemma_formats(format: SynthFormat, count: u32, mode: RealtimeRenderMode)
    requires
        call_ensures(SynthFormat::channel_count, (&format,), count),
        call_ensures(RealtimeRenderMode::default, (), mode),
    ensures
        format is Midi ==> count == 16,
        format matches SynthFormat::Custom { channels } ==> count == channels,
        mode is ChannelGroup,
{
}

/// A pool is made unless threads are off, with as many threads as are asked for. A group of channels
/// always has threads.
pub proof fn lemma_threads(
    threads: ThreadCount,
    pool: Option<Option<usize>>,
    for_group: ThreadCount,
)
    requires
        call_ensures(ThreadCount::pool, (&threads,), pool),
        call_ensures(ThreadCount::for_channel_group, (&threads,), for_group),
    ensures
        pool is None <==> threads is Off,
        pool matches Some(Some(number)) ==> threads == ThreadCount::Manual(number),
        threads matches ThreadCount::Manual(number) ==> pool == Some(Some(number)),
        !(for_group is Off),
        !(threads is Off) ==> for_group == threads,
        threads is Off ==> for_group is Auto,
{
}

/// Whether asking if a time is longer than another gives `answer`.
pub open spec fn is_longer<V: Scalar>(time: V, than: V, answer: bool) -> bool {
    call_ensures(V::less, (than, time), answer)
}

/// A warning is due just when the call took longer than the threshold and the threshold is above zero.
pub proof fn lemma_slow_calls<V: Scalar>(elapsed_ms: V, threshold_ms: V, warn: bool)
    requires
        call_ensures(is_slow::<V>, (elapsed_ms, threshold_ms), warn),
    ensures
        warn ==> is_longer(elapsed_ms, threshold_ms, true) && exists|zero: V| #[trigger]
            call_ensures(V::ratio, (0, 1), zero) && is_longer(threshold_ms, zero, true),
        !warn ==> is_longer(elapsed_ms, threshold_ms, false) || exists|zero: V| #[trigger]
            call_ensures(V::ratio, (0, 1), zero) && is_longer(threshold_ms, zero, false),
{
    let (zero, wanted, exceeded) = choose|zero: V, wanted: bool, exceeded: bool| #[trigger]
        is_slow_render_by(elapsed_ms, threshold_ms, warn, zero, wanted, exceeded);
    assert(call_ensures(V::ratio, (0, 1), zero));
}

/// The default options ignore velocity 0 and no other, limit nothing, and use no threads.
pub proof fn lemma_default_options<V: Scalar>(
    options: ChannelInitOptions,
    config: XSynthRealtimeConfig<V>,
    velocity: u8,
    ignored: bool,
)
    requires
        call_ensures(XSynthRealtimeConfig::<V>::with_channels, (options,), config),
        call_ensures(ByteRange::contains, (&config.ignore_range, velocity), ignored),
    ensures
        config.channel_init_options == options,
        ignored <==> velocity == 0,
        config.format is Midi,
        config.multithreading is Off,
        config.render_mode is ChannelGroup,
        config.max_nps == 0xffff_ffff_ffff_ffff,
        call_ensures(V::ratio, (10, 1), config.render_window_ms),
        call_ensures(V::ratio, (5, 1), config.render_warn_threshold_ms),
{
}

/// Whether `frames` is the samples of a second times the milliseconds, over a thousand.
pub open spec fn is_thousandth<V: Scalar>(sample_rate: u32, buffer_ms: V, frames: V) -> bool {
    exists|rate: V, scaled: V, thousand: V|
        #![trigger call_ensures(V::times, (rate, buffer_ms), scaled), call_ensures(V::over, (scaled, thousand), frames)]
        call_ensures(V::ratio, (sample_rate as i64, 1), rate) && call_ensures(
            V::times,
            (rate, buffer_ms),
            scaled,
        ) && call_ensures(V::ratio, (1000, 1), thousand) && call_ensures(
            V::over,
            (scaled, thousand),
            frames,
        )
}

/// A buffer of some milliseconds has the whole samples that play in them.
pub proof fn lemma_render_size<V: Scalar>(sample_rate: u32, buffer_ms: V, size: u64)
    requires
        call_ensures(calculate_render_size::<V>, (sample_rate, buffer_ms), size),
    ensures
        exists|frames: V| #[trigger]
            is_thousandth(sample_rate, buffer_ms, frames) && call_ensures(
                V::whole,
                (frames,),
                size,
            ),
{
    let (rate, scaled, thousand, frames) = choose|rate: V, scaled: V, thousand: V, frames: V|
        {
            &&& scalar::is_ratio(sample_rate as int, 1, rate)
            &&& #[trigger] scalar::is_product(rate, buffer_ms, scaled)
            &&& scalar::is_ratio(1000, 1, thousand)
            &&& #[trigger] scalar::is_quotient(scaled, thousand, frames)
            &&& call_ensures(V::whole, (frames,), size)
        };
    assert(call_ensures(V::times, (rate, buffer_ms), scaled));
    assert(call_ensures(V::over, (scaled, thousand), frames));
    assert(is_thousandth(sample_rate, buffer_ms, frames));
}

} // verus!
