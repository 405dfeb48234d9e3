//! The parts of the realtime synthesizer that need no device and no thread.

use core::ops::Add;
use std::collections::VecDeque;
use vstd::prelude::*;
use crate::buffered_renderer::BufferedRendererStatsReader;
use crate::channel::event::ChannelConfigEvent;
use crate::helpers;
use crate::helpers::{fast_zero_fill, sum_simd};
use crate::realtime::config::{RealtimeRenderMode, SynthFormat};
use crate::realtime::event_senders;
use crate::realtime::event_senders::{EventSender, NpsCount, RealtimeEventSender, SenderState};
use crate::range::ByteRange;

verus! {

/// Holds the statistics for an instance of RealtimeSynth.
#[derive(Copy, Clone, Debug, PartialEq, Eq, Structural)]
pub struct RealtimeSynthStats {
    pub voice_count: u64,
}

impl RealtimeSynthStats {
    /// No voices yet.
    pub fn new() -> (stats: RealtimeSynthStats)
        ensures
            stats.voice_count == 0,
    {
        RealtimeSynthStats { voice_count: 0 }
    }
}

/// Reads the statistics of an instance of RealtimeSynth in a usable way.
#[derive(Copy, Clone, Debug, PartialEq, Eq, Structural)]
pub struct RealtimeSynthStatsReader {
    pub buffered_stats: BufferedRendererStatsReader,
    pub stats: RealtimeSynthStats,
}

impl RealtimeSynthStatsReader {
    /// A reader of the given statistics.
    pub fn new(stats: RealtimeSynthStats, buffered_stats: BufferedRendererStatsReader) -> (reader:
        Self)
        ensures
            reader.stats == stats,
            reader.buffered_stats == buffered_stats,
    {
        RealtimeSynthStatsReader { stats, buffered_stats }
    }

    /// Returns the active voice count of all the MIDI channels.
    pub fn voice_count(&self) -> (count: u64)
        ensures
            count == self.stats.voice_count,
    {
        self.stats.voice_count
    }

    /// Returns the statistics of the buffered renderer used.
    pub fn buffer(&self) -> (reader: &BufferedRendererStatsReader)
        ensures
            *reader == self.buffered_stats,
    {
        &self.buffered_stats
    }
}

/// Performance statistics for a single render cycle.
#[derive(Copy, Clone, Debug, PartialEq, Eq, Structural)]
pub struct RenderPerfStats {
    /// Duration of the last render call in microseconds.
    pub last_render_us: i64,
    /// Peak render duration seen so far, in microseconds.
    pub peak_render_us: i64,
    /// Number of MIDI events drained in the last render call.
    pub last_event_count: u64,
}

/// Performance counters of the render thread, in nanoseconds.
#[derive(Copy, Clone, Debug, PartialEq, Eq, Structural)]
pub struct RenderPerfShared {
    pub last_render_ns: i64,
    pub peak_render_ns: i64,
    pub last_event_count: u64,
}

impl RenderPerfShared {
    /// No render took longer than the peak, and none took less than no time.
    pub open spec fn wf(&self) -> bool {
        0 <= self.last_render_ns <= self.peak_render_ns
    }

    /// Nothing rendered yet.
    pub fn new() -> (perf: Self)
        ensures
            perf.wf(),
            perf == (RenderPerfShared {
                last_render_ns: 0,
                peak_render_ns: 0,
                last_event_count: 0,
            }),
    {
        RenderPerfShared { last_render_ns: 0, peak_render_ns: 0, last_event_count: 0 }
    }

    /// Takes note of a render call.
    pub fn record(&mut self, elapsed_ns: i64, event_count: u64)
        requires
            old(self).wf(),
            elapsed_ns >= 0,
        ensures
            final(self).wf(),
            *final(self) == (RenderPerfShared {
                last_render_ns: elapsed_ns,
                peak_render_ns: if elapsed_ns > old(self).peak_render_ns {
                    elapsed_ns
                } else {
                    old(self).peak_render_ns
                },
                last_event_count: event_count,
            }),
    {
        self.last_render_ns = elapsed_ns;
        if elapsed_ns > self.peak_render_ns {
            self.peak_render_ns = elapsed_ns;
        }
        self.last_event_count = event_count;
    }

    /// The counters, in whole microseconds.
    pub fn snapshot(&self) -> (stats: RenderPerfStats)
        requires
            self.wf(),
        ensures
            stats.last_render_us == self.last_render_ns / 1000,
            stats.peak_render_us == self.peak_render_ns / 1000,
            stats.last_event_count == self.last_event_count,
            stats.last_render_us <= stats.peak_render_us,
    {
        RenderPerfStats {
            last_render_us: self.last_render_ns / 1000,
            peak_render_us: self.peak_render_ns / 1000,
            last_event_count: self.last_event_count,
        }
    }
}

/// What to do when no channel has delivered.
#[derive(Copy, Clone, Debug, PartialEq, Eq, Structural)]
pub enum Backoff {
    /// Let other threads run.
    Yield,
    /// Sleep for some microseconds.
    Sleep { micros: u64 },
}

/// Hands out buffers to the threads of the channels, and adds up what comes back.
pub struct RenderCollector<S> {
    vec_cache: VecDeque<Vec<S>>,
    channel_count: u32,
    received: u32,
    spins_without_progress: u32,
}

/// How often collecting looks again before it sleeps.
pub const MOST_SPINS: u32 = 1024;

impl<S: Copy + Default + Add<Output = S>> RenderCollector<S> {
    /// The number of buffers that are not handed out.
    pub closed spec fn kept(&self) -> nat {
        self.vec_cache@.len()
    }

    /// The number of channels.
    pub closed spec fn channels(&self) -> u32 {
        self.channel_count
    }

    /// The number of buffers that have come back in this round.
    pub closed spec fn back(&self) -> u32 {
        self.received
    }

    /// How often nothing was there since something came last.
    pub closed spec fn spins(&self) -> u32 {
        self.spins_without_progress
    }

    /// As many buffers are kept as have come back.
    pub open spec fn wf(&self) -> bool {
        &&& self.back() <= self.channels()
        &&& self.kept() == self.back()
        &&& self.spins() <= MOST_SPINS
    }

    /// A collector with a buffer for each channel, between two rounds.
    pub fn new(channel_count: u32) -> (collector: Self)
        ensures
            collector.wf(),
            collector.channels() == channel_count,
            collector.back() == channel_count,
            collector.spins() == 0,
    {
        let mut vec_cache: VecDeque<Vec<S>> = VecDeque::new();
        let mut i: u32 = 0;
        while i < channel_count
            invariant
                i <= channel_count,
                vec_cache@.len() == i,
            decreases channel_count - i,
        {
            vec_cache.push_front(Vec::new());
            i += 1;
        }
        RenderCollector {
            vec_cache,
            channel_count,
            received: channel_count,
            spins_without_progress: 0,
        }
    }

    /// Starts a round: gives a silent buffer of the given length for each channel.
    pub fn dispatch(&mut self, len: usize) -> (buffers: Vec<Vec<S>>)
        requires
            old(self).wf(),
            old(self).back() == old(self).channels(),
        ensures
            final(self).wf(),
            final(self).channels() == old(self).channels(),
            final(self).back() == 0,
            final(self).spins() == 0,
            buffers@.len() == old(self).channels(),
            forall|i: int|
                0 <= i < buffers@.len() ==> helpers::is_silence(
                    (#[trigger] buffers@[i])@,
                    len as nat,
                ),
    {
        let mut buffers: Vec<Vec<S>> = Vec::new();
        let mut i: u32 = 0;
        while i < self.channel_count
            invariant
                i <= self.channel_count,
                self.channel_count == old(self).channel_count,
                self.vec_cache@.len() == self.channel_count - i,
                buffers@.len() == i,
                forall|j: int|
                    0 <= j < i ==> helpers::is_silence((#[trigger] buffers@[j])@, len as nat),
            decreases self.channel_count - i,
        {
            let mut buf: Vec<S> = match self.vec_cache.pop_front() {
                Some(buf) => buf,
                None => Vec::new(),
            };
            fast_zero_fill(&mut buf, len);
            buffers.push(buf);
            i += 1;
        }
        self.received = 0;
        self.spins_without_progress = 0;
        buffers
    }

    /// Whether every channel has delivered.
    pub fn is_complete(&self) -> (complete: bool)
        requires
            self.wf(),
        ensures
            complete == (self.back() == self.channels()),
    {
        self.received >= self.channel_count
    }

    /// Adds what a channel delivered to the output, and keeps its buffer.
    pub fn collect(&mut self, buf: Vec<S>, out: &mut [S])
        requires
            old(self).wf(),
            old(self).back() < old(self).channels(),
            helpers::can_add::<S>(),
            buf@.len() == old(out)@.len(),
        ensures
            final(self).wf(),
            final(self).channels() == old(self).channels(),
            final(self).back() == old(self).back() + 1,
            final(self).spins() == 0,
            helpers::all_added(old(out)@, buf@, final(out)@),
    {
        sum_simd(buf.as_slice(), out);
        self.vec_cache.push_front(buf);
        self.received += 1;
        self.spins_without_progress = 0;
    }

    /// Takes note that nothing was there, and tells what to do before looking again: after 1024
    /// times in a row a short sleep.
    pub fn back_off(&mut self) -> (backoff: Backoff)
        requires
            old(self).wf(),
        ensures
            final(self).wf(),
            final(self).channels() == old(self).channels(),
            final(self).back() == old(self).back(),
            if old(self).spins() + 1 > MOST_SPINS {
                backoff == (Backoff::Sleep { micros: 10 }) && final(self).spins() == 0
            } else {
                backoff == Backoff::Yield && final(self).spins() == old(self).spins() + 1
            },
    {
        self.spins_without_progress += 1;
        if self.spins_without_progress > MOST_SPINS {
            self.spins_without_progress = 0;
            Backoff::Sleep { micros: 10 }
        } else {
            Backoff::Yield
        }
    }
}

/// The senders for the channels of a synthesizer.
pub fn build_senders(
    channel_count: u32,
    max_nps: u64,
    mode: RealtimeRenderMode,
    ignore_range: ByteRange,
    now: u64,
) -> (senders: RealtimeEventSender)
    ensures
        senders.wf(),
        senders.render_mode() == mode,
        senders.states() == Seq::new(
            channel_count as nat,
            |i: int|
                SenderState {
                    mode,
                    count: NpsCount { windows: Seq::empty(), current: 0, since: now },
                    max_nps,
                    skipped: event_senders::none_skipped(),
                    ignored: ignore_range,
                },
        ),
{
    let ghost state = SenderState {
        mode,
        count: NpsCount { windows: Seq::empty(), current: 0, since: now },
        max_nps,
        skipped: event_senders::none_skipped(),
        ignored: ignore_range,
    };
    let mut list: Vec<EventSender> = Vec::new();
    let mut i: u32 = 0;
    while i < channel_count
        invariant
            i <= channel_count,
            list@.len() == i,
            state == (SenderState {
                mode,
                count: NpsCount { windows: Seq::empty(), current: 0, since: now },
                max_nps,
                skipped: event_senders::none_skipped(),
                ignored: ignore_range,
            }),
            forall|j: int|
                0 <= j < i ==> (#[trigger] list@[j]).wf() && list@[j].now() == state,
        decreases channel_count - i,
    {
        list.push(EventSender::new(max_nps, mode, ignore_range, now));
        i += 1;
    }
    let senders = RealtimeEventSender::new(list, mode);
    assert(senders.states() =~= Seq::new(channel_count as nat, |i: int| state));
    senders
}

/// The change of setup that the channels of a format start with, and the channel that it is for: in
/// MIDI the tenth is for percussion.
pub fn initial_setup<F>(format: SynthFormat) -> (setup: Option<(u32, ChannelConfigEvent<F>)>)
    ensures
        setup == match format {
            SynthFormat::Midi => Some((9u32, ChannelConfigEvent::<F>::SetPercussionMode(true))),
            SynthFormat::Custom { .. } => None,
        },
{
    match format {
        SynthFormat::Midi => Some((9, ChannelConfigEvent::SetPercussionMode(true))),
        SynthFormat::Custom { .. } => None,
    }
}

/// The voices of all channels together.
pub open spec fn voices_of(counts: Seq<u64>) -> int
    decreases counts.len(),
{
    if counts.len() == 0 {
        0
    } else {
        voices_of(counts.drop_last()) + counts.last()
    }
}

/// Adds up the voices of all channels.
pub fn total_voices(counts: &Vec<u64>) -> (total: u64)
    requires
        voices_of(counts@) <= u64::MAX,
    ensures
        total == voices_of(counts@),
{
    let mut total: u64 = 0;
    let mut i: usize = 0;
    while i < counts.len()
        invariant
            i <= counts@.len(),
            total == voices_of(counts@.take(i as int)),
            voices_of(counts@) <= u64::MAX,
        decreases counts@.len() - i,
    {
        proof {
            let next = counts@.take(i + 1);
            assert(next.drop_last() =~= counts@.take(i as int));
            lemma_voices_grow(counts@, i + 1);
        }
        total += counts[i];
        i += 1;
    }
    assert(counts@.take(i as int) =~= counts@);
    total
}

/// Some channels have no more voices than all.
proof fn lemma_voices_grow(counts: Seq<u64>, n: int)
    requires
        0 <= n <= counts.len(),
    ensures
        voices_of(counts.take(n)) <= voices_of(counts),
    decreases counts.len(),
{
    if n == counts.len() {
        assert(counts.take(n) =~= counts);
    } else {
        let fewer = counts.drop_last();
        lemma_voices_grow(fewer, n);
        assert(fewer.take(n) =~= counts.take(n));
    }
}

/// A render call is written down as it was, and the peak is the longest one so far. In microseconds
/// each is rounded down.
pub proof fn lemma_render_times(
    perf: &mut RenderPerfShared,
    elapsed_ns: i64,
    event_count: u64,
    read: RenderPerfShared,
    stats: RenderPerfStats,
)
    requires
        call_ensures(RenderPerfShared::record, (perf, elapsed_ns, event_count), ()),
        call_ensures(RenderPerfShared::snapshot, (&read,), stats),
    ensures
        final(perf).last_render_ns == elapsed_ns,
        final(perf).peak_render_ns >= elapsed_ns,
        final(perf).peak_render_ns >= old(perf).peak_render_ns,
        final(perf).peak_render_ns == elapsed_ns || final(perf).peak_render_ns == old(
            perf).peak_render_ns,
        final(perf).last_event_count == event_count,
        1000 * stats.last_render_us <= read.last_render_ns < 1000 * stats.last_render_us + 1000,
        1000 * stats.peak_render_us <= read.peak_render_ns < 1000 * stats.peak_render_us + 1000,
        stats.last_event_count == read.last_event_count,
{
}

/// Nothing has happened at the start, and readers tell what is counted.
pub proof fn lemma_new_counters(
    perf: RenderPerfShared,
    stats: RealtimeSynthStats,
    counted: RealtimeSynthStats,
    buffered: BufferedRendererStatsReader,
    reader: RealtimeSynthStatsReader,
    count: u64,
)
    requires
        call_ensures(RenderPerfShared::new, (), perf),
        call_ensures(RealtimeSynthStats::new, (), stats),
        call_ensures(RealtimeSynthStatsReader::new, (counted, buffered), reader),
        call_ensures(RealtimeSynthStatsReader::voice_count, (&reader,), count),
    ensures
        perf.last_render_ns == 0,
        perf.peak_render_ns == 0,
        perf.last_event_count == 0,
        stats.voice_count == 0,
        count == counted.voice_count,
        reader.buffered_stats == buffered,
{
}

/// A round starts with a silent buffer for each channel.
pub proof fn lemma_round_starts_silent<S: Copy + Default + Add<Output = S>>(
    collector: &mut RenderCollector<S>,
    len: usize,
    buffers: Vec<Vec<S>>,
)
    requires
        call_ensures(RenderCollector::<S>::dispatch, (collector, len), buffers),
    ensures
        buffers@.len() == old(collector).channels(),
        forall|i: int| 0 <= i < buffers@.len() ==> (#[trigger] buffers@[i])@.len() == len,
        forall|i: int, k: int|
            0 <= i < buffers@.len() && 0 <= k < len ==> call_ensures(
                S::default,
                (),
                #[trigger] buffers@[i]@[k],
            ),
        final(collector).back() == 0,
        final(collector).channels() == old(collector).channels(),
{
    assert forall|i: int, k: int| 0 <= i < buffers@.len() && 0 <= k < len implies call_ensures(
        S::default,
        (),
        #[trigger] buffers@[i]@[k],
    ) by {
        assert(helpers::is_silence(buffers@[i]@, len as nat));
    }
}

/// What a channel delivers is added to the output, sample by sample, and counted once; the round is
/// over when every channel has delivered.
pub proof fn lemma_round_adds_up<S: Copy + Default + Add<Output = S>>(
    collector: &mut RenderCollector<S>,
    buf: Vec<S>,
    out: &mut [S],
    asked: RenderCollector<S>,
    complete: bool,
)
    requires
        call_ensures(RenderCollector::<S>::collect, (collector, buf, out), ()),
        call_ensures(RenderCollector::<S>::is_complete, (&asked,), complete),
    ensures
        final(out)@.len() == old(out)@.len(),
        forall|i: int|
            0 <= i < old(out)@.len() ==> call_ensures(
                S::add,
                (old(out)@[i], buf@[i]),
                #[trigger] final(out)@[i],
            ),
        final(collector).back() == old(collector).back() + 1,
        final(collector).channels() == old(collector).channels(),
        complete <==> asked.back() == asked.channels(),
{
    assert forall|i: int| 0 <= i < old(out)@.len() implies call_ensures(
        S::add,
        (old(out)@[i], buf@[i]),
        #[trigger] final(out)@[i],
    ) by {
        assert(helpers::is_added(old(out)@[i], buf@[i], final(out)@[i]));
    }
}

/// Looking in vain makes way for other threads, and sleeps every time that it has been in vain more
/// than 1024 times in a row; whatever comes starts that count again.
pub proof fn lemma_backing_off<S: Copy + Default + Add<Output = S>>(
    collector: &mut RenderCollector<S>,
    backoff: Backoff,
    collecting: &mut RenderCollector<S>,
    buf: Vec<S>,
    out: &mut [S],
)
    requires
        call_ensures(RenderCollector::<S>::back_off, (collector,), backoff),
        call_ensures(RenderCollector::<S>::collect, (collecting, buf, out), ()),
    ensures
        old(collector).spins() < 1024 ==> backoff == Backoff::Yield && final(collector).spins()
            == old(collector).spins() + 1,
        old(collector).spins() >= 1024 ==> backoff == (Backoff::Sleep { micros: 10 }) && final(
            collector).spins() == 0,
        final(collector).back() == old(collector).back(),
        final(collecting).spins() == 0,
{
}

/// There is a sender for each channel; each has the limit and the ignored velocities that are asked
/// for, and has let nothing through yet.
pub proof fn lemma_new_senders(
    channel_count: u32,
    max_nps: u64,
    mode: RealtimeRenderMode,
    ignore_range: ByteRange,
    now: u64,
    senders: RealtimeEventSender,
)
    requires
        call_ensures(build_senders, (channel_count, max_nps, mode, ignore_range, now), senders),
    ensures
        senders.states().len() == channel_count,
        senders.render_mode() == mode,
        forall|i: int|
            0 <= i < channel_count ==> {
                &&& (#[trigger] senders.states()[i]).max_nps == max_nps
                &&& senders.states()[i].ignored == ignore_range
                &&& senders.states()[i].mode == mode
                &&& senders.states()[i].count.windows.len() == 0
                &&& senders.states()[i].count.current == 0
                &&& senders.states()[i].count.since == now
            },
{
}

/// The tenth channel of MIDI starts as percussion; nothing else is set up.
pub proof fn lemma_percussion_channel<F>(
    format: SynthFormat,
    setup: Option<(u32, ChannelConfigEvent<F>)>,
)
    requires
        call_ensures(initial_setup::<F>, (format,), setup),
    ensures
        setup is Some <==> format is Midi,
        setup matches Some(setup) ==> setup.0 + 1 == 10 && (
        setup.1 matches ChannelConfigEvent::SetPercussionMode(on) && on),
{
}

/// The voices of all channels add up: with no channel there are none, and one more channel adds its
/// own.
pub proof fn lemma_voices_add_up(
    none: Vec<u64>,
    no_voices: u64,
    some: Vec<u64>,
    count: u64,
    more: Vec<u64>,
    before: u64,
    after: u64,
)
    requires
        call_ensures(total_voices, (&none,), no_voices),
        none@.len() == 0,
        call_ensures(total_voices, (&some,), before),
        call_ensures(total_voices, (&more,), after),
        more@ == some@.push(count),
    ensures
        no_voices == 0,
        after == before + count,
{
    assert(more@.drop_last() =~= some@);
}

/// A new collector has a buffer for each channel, all of them back; a reader hands out the statistics of
/// the buffered renderer that it was given.
pub proof fn lemma_new_collector<S: Copy + Default + Add<Output = S>>(
    channel_count: u32,
    collector: RenderCollector<S>,
    reader: RealtimeSynthStatsReader,
    buffered: &BufferedRendererStatsReader,
)
    requires
        call_ensures(RenderCollector::<S>::new, (channel_count,), collector),
        call_ensures(RealtimeSynthStatsReader::buffer, (&reader,), buffered),
    ensures
        collector.channels() == channel_count,
        collector.back() == channel_count,
        collector.kept() == channel_count,
        collector.spins() == 0,
        *buffered == reader.buffered_stats,
{
}

} // verus!
