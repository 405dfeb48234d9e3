//! Rendering ahead of playback.
//!
//! A render loop fills buffers a little faster than they are played, and a reader copies them into
//! whatever lengths the audio device asks for. The loop and the reader run in different threads; what
//! they share is handed to them as plain numbers.

use std::collections::VecDeque;
use vstd::prelude::*;
use crate::helpers;
use crate::scalar;
use crate::scalar::Scalar;
use crate::stream::AudioStreamParams;

verus! {

/// The number of nanoseconds in a second.
pub const SECOND: u128 = 1_000_000_000;

/// The time that one round of the render loop may take, in nanoseconds: nine tenths of the time that
/// its samples play.
pub open spec fn round_time(size: usize, sample_rate: u32) -> nat {
    (SECOND * (size as u32) / (sample_rate as int) * 90 / 100) as nat
}

/// Whether the loop is ahead: more than about a tenth above what was last asked for is waiting to be
/// played.
pub open spec fn is_ahead(samples: i64, last_requested: i64) -> bool {
    samples > last_requested * 110 / 100
}

/// Where the render loop is.
#[derive(Copy, Clone, Debug, PartialEq, Eq, Structural)]
pub enum RenderState {
    /// At the start of a round.
    Idle,
    /// Finding out whether it is ahead.
    Checking { size: usize },
    /// Sleeping because it is ahead.
    Waiting { size: usize },
    /// Rendering and sending.
    Rendering { size: usize },
    /// Writing down how long that took.
    Recording { size: usize },
    /// Sleeping until the next round.
    Resting,
    /// Done for good.
    Stopped,
}

/// What has happened.
#[derive(Copy, Clone, Debug, PartialEq, Eq, Structural)]
pub enum RenderEvent {
    /// The number of samples to render each round was looked up.
    Size(usize),
    /// The samples that are waiting, and those that were last asked for, were looked up.
    Levels { samples: i64, last_requested: i64 },
    /// A sleep is over.
    Slept { killed: bool },
    /// A buffer was rendered and sent.
    Sent { delivered: bool },
    /// The time since the start of the rendering was looked up, in nanoseconds, and written down.
    Recorded { elapsed: u128 },
}

/// What is to be done.
#[derive(Copy, Clone, Debug, PartialEq, Eq, Structural)]
pub enum RenderAction {
    /// Look up the number of samples to render each round.
    LoadSize,
    /// Look up how far ahead the loop is.
    LoadLevels,
    /// Sleep for some nanoseconds.
    Sleep { time: u128 },
    /// Render and send a buffer of this length.
    Render { len: usize },
    /// Write down the share of the allowed time that has been used.
    Record { allowed: u128 },
    /// Leave the loop.
    Stop,
}

/// Whether the event is one that the loop waits for.
pub open spec fn expects(state: RenderState, event: RenderEvent) -> bool {
    match (state, event) {
        (RenderState::Idle, RenderEvent::Size(_)) => true,
        (RenderState::Checking { .. }, RenderEvent::Levels { last_requested, .. }) => 0
            <= last_requested && last_requested * 110 <= i64::MAX,
        (RenderState::Waiting { .. }, RenderEvent::Slept { .. }) => true,
        (RenderState::Rendering { .. }, RenderEvent::Sent { .. }) => true,
        (RenderState::Recording { .. }, RenderEvent::Recorded { .. }) => true,
        (RenderState::Resting, RenderEvent::Slept { .. }) => true,
        _ => false,
    }
}

/// What an event leads to.
pub open spec fn reaction(
    params: AudioStreamParams,
    state: RenderState,
    event: RenderEvent,
) -> (RenderState, RenderAction) {
    match (state, event) {
        (RenderState::Idle, RenderEvent::Size(size)) => (
            RenderState::Checking { size },
            RenderAction::LoadLevels,
        ),
        (RenderState::Checking { size }, RenderEvent::Levels { samples, last_requested }) => if is_ahead(
            samples,
            last_requested,
        ) {
            (
                RenderState::Waiting { size },
                RenderAction::Sleep { time: (round_time(size, params.sample_rate) / 10) as u128 },
            )
        } else {
            (
                RenderState::Rendering { size },
                RenderAction::Render { len: (size * params.channels.size()) as usize },
            )
        },
        (RenderState::Waiting { size }, RenderEvent::Slept { killed }) => if killed {
            (RenderState::Stopped, RenderAction::Stop)
        } else {
            (RenderState::Checking { size }, RenderAction::LoadLevels)
        },
        (RenderState::Rendering { size }, RenderEvent::Sent { delivered }) => if delivered {
            (
                RenderState::Recording { size },
                RenderAction::Record { allowed: round_time(size, params.sample_rate) as u128 },
            )
        } else {
            (RenderState::Stopped, RenderAction::Stop)
        },
        (RenderState::Recording { size }, RenderEvent::Recorded { elapsed }) => {
            let allowed = round_time(size, params.sample_rate);
            if allowed > elapsed {
                (RenderState::Resting, RenderAction::Sleep { time: (allowed - elapsed) as u128 })
            } else {
                (RenderState::Idle, RenderAction::LoadSize)
            }
        },
        _ => (RenderState::Idle, RenderAction::LoadSize),
    }
}

/// The time that one round of the render loop may take, in nanoseconds.
pub fn render_delay(size: usize, sample_rate: u32) -> (time: u128)
    requires
        sample_rate > 0,
    ensures
        time == round_time(size, sample_rate),
{
    let frames: u32 = size as u32;
    let whole: u128 = SECOND * frames as u128;
    let played: u128 = whole / sample_rate as u128;
    assert(played <= whole) by (nonlinear_arith)
        requires
            played == whole / sample_rate as u128,
            sample_rate > 0,
    ;
    played * 90 / 100
}

/// The render loop, without what it waits for and without its sleeps.
pub struct RenderLoop {
    params: AudioStreamParams,
    state: RenderState,
}

impl RenderLoop {
    /// Where the loop is.
    pub closed spec fn at(&self) -> RenderState {
        self.state
    }

    /// The stream that the loop renders for.
    pub closed spec fn stream(&self) -> AudioStreamParams {
        self.params
    }

    /// The start of the loop.
    pub fn new(params: AudioStreamParams) -> (this: Self)
        ensures
            this.at() == RenderState::Idle,
            this.stream() == params,
    {
        RenderLoop { params, state: RenderState::Idle }
    }

    /// Takes note of an event, and tells what to do next.
    pub fn handle(&mut self, event: RenderEvent) -> (action: RenderAction)
        requires
            old(self).stream().sample_rate > 0,
            expects(old(self).at(), event),
            old(self).at() matches RenderState::Checking { size } ==> size * old(
                self,
            ).stream().channels.size() <= usize::MAX,
        ensures
            final(self).stream() == old(self).stream(),
            (final(self).at(), action) == reaction(old(self).stream(), old(self).at(), event),
    {
        match (self.state, event) {
            (RenderState::Idle, RenderEvent::Size(size)) => {
                self.state = RenderState::Checking { size };
                RenderAction::LoadLevels
            },
            (RenderState::Checking { size }, RenderEvent::Levels { samples, last_requested }) => {
                if samples > last_requested * 110 / 100 {
                    let time: u128 = render_delay(size, self.params.sample_rate) / 10;
                    self.state = RenderState::Waiting { size };
                    RenderAction::Sleep { time }
                } else {
                    let count: usize = self.params.channels.count() as usize;
                    assert(size * count == size * self.params.channels.size());
                    self.state = RenderState::Rendering { size };
                    RenderAction::Render { len: size * count }
                }
            },
            (RenderState::Waiting { size }, RenderEvent::Slept { killed }) => {
                if killed {
                    self.state = RenderState::Stopped;
                    RenderAction::Stop
                } else {
                    self.state = RenderState::Checking { size };
                    RenderAction::LoadLevels
                }
            },
            (RenderState::Rendering { size }, RenderEvent::Sent { delivered }) => {
                if delivered {
                    let allowed: u128 = render_delay(size, self.params.sample_rate);
                    self.state = RenderState::Recording { size };
                    RenderAction::Record { allowed }
                } else {
                    self.state = RenderState::Stopped;
                    RenderAction::Stop
                }
            },
            (RenderState::Recording { size }, RenderEvent::Recorded { elapsed }) => {
                let allowed: u128 = render_delay(size, self.params.sample_rate);
                if allowed > elapsed {
                    self.state = RenderState::Resting;
                    RenderAction::Sleep { time: allowed - elapsed }
                } else {
                    self.state = RenderState::Idle;
                    RenderAction::LoadSize
                }
            },
            _ => {
                self.state = RenderState::Idle;
                RenderAction::LoadSize
            },
        }
    }
}

/// The shares of the allowed time that the last rounds used, the latest first.
pub struct LoadQueue<V> {
    queue: VecDeque<V>,
}

/// The most rounds that are remembered.
pub const MOST_LOADS: usize = 100;

/// Whether `trace` holds the sums of more and more of `values`, from zero on.
pub open spec fn is_summing<V: Scalar>(values: Seq<V>, trace: Seq<V>) -> bool {
    &&& trace.len() == values.len() + 1
    &&& scalar::is_ratio(0, 1, trace[0])
    &&& forall|i: int|
        0 <= i < values.len() ==> scalar::is_sum(#[trigger] trace[i], values[i], trace[i + 1])
}

/// Whether `value` is the average of `values`: zero by one where there are none.
pub open spec fn is_average<V: Scalar>(values: Seq<V>, value: V) -> bool {
    exists|trace: Seq<V>, total: V|
        {
            &&& #[trigger] is_summing(values, trace)
            &&& scalar::is_ratio(
                if values.len() > 0 {
                    values.len() as int
                } else {
                    1
                },
                1,
                total,
            )
            &&& #[trigger] scalar::is_quotient(trace.last(), total, value)
        }
}

impl<V: Scalar> LoadQueue<V> {
    /// The loads, the latest first.
    pub closed spec fn loads(&self) -> Seq<V> {
        self.queue@
    }

    /// At most so many rounds are remembered.
    pub open spec fn wf(&self) -> bool {
        self.loads().len() <= MOST_LOADS
    }

    /// No rounds yet.
    pub fn new() -> (queue: Self)
        ensures
            queue.wf(),
            queue.loads().len() == 0,
    {
        LoadQueue { queue: VecDeque::new() }
    }

    /// Remembers a round, and forgets the oldest beyond the most.
    pub fn record(&mut self, load: V)
        requires
            old(self).wf(),
        ensures
            final(self).wf(),
            final(self).loads() == if old(self).loads().len() < MOST_LOADS {
                seq![load] + old(self).loads()
            } else {
                seq![load] + old(self).loads().drop_last()
            },
    {
        self.queue.push_front(load);
        if self.queue.len() > MOST_LOADS {
            self.queue.pop_back();
        }
        assert(old(self).loads().len() < MOST_LOADS ==> self.loads() =~= seq![load] + old(
            self,
        ).loads());
        assert(old(self).loads().len() >= MOST_LOADS ==> self.loads() =~= seq![load] + old(
            self,
        ).loads().drop_last());
    }

    /// The average of the shares of the allowed time that the render loop spent rendering.
    pub fn average_renderer_load(&self) -> (load: V)
        requires
            self.wf(),
        ensures
            is_average(self.loads(), load),
    {
        let mut sum = scalar::ratio(0, 1);
        let ghost mut trace = seq![sum];
        let len: usize = self.queue.len();
        let mut i: usize = 0;
        while i < len
            invariant
                i <= len,
                len == self.queue@.len(),
                trace.len() == i + 1,
                scalar::is_ratio(0, 1, trace[0]),
                trace[i as int] == sum,
                forall|j: int|
                    0 <= j < i ==> scalar::is_sum(
                        #[trigger] trace[j],
                        self.queue@[j],
                        trace[j + 1],
                    ),
            decreases len - i,
        {
            sum = scalar::sum(sum, self.queue[i]);
            proof {
                let longer = trace.push(sum);
                assert forall|j: int| 0 <= j < i + 1 implies scalar::is_sum(
                    #[trigger] longer[j],
                    self.queue@[j],
                    longer[j + 1],
                ) by {
                    assert(longer[j] == trace[j]);
                    if j < i {
                        assert(longer[j + 1] == trace[j + 1]);
                    }
                }
                trace = longer;
            }
            i += 1;
        }
        let count: i64 = if len > 0 {
            len as i64
        } else {
            1
        };
        let total = scalar::ratio(count, 1);
        let load = scalar::quotient(sum, total);
        assert(is_summing(self.loads(), trace));
        assert(scalar::is_quotient(trace.last(), total, load));
        load
    }

    /// The share of the allowed time that the last round used, or zero.
    pub fn last_renderer_load(&self) -> (load: V)
        ensures
            if self.loads().len() > 0 {
                load == self.loads()[0]
            } else {
                scalar::is_ratio(0, 1, load)
            },
    {
        if self.queue.len() > 0 {
            self.queue[0]
        } else {
            scalar::ratio(0, 1)
        }
    }
}

/// The statistics of a buffered renderer at one moment.
#[derive(Copy, Clone, Debug, PartialEq, Eq, Structural)]
pub struct BufferedRendererStats {
    pub samples: i64,
    pub last_samples_after_read: i64,
    pub last_request_samples: i64,
    pub render_size: usize,
}

/// Reads the statistics of an instance of BufferedRenderer in a usable way.
#[derive(Copy, Clone, Debug, PartialEq, Eq, Structural)]
pub struct BufferedRendererStatsReader {
    pub stats: BufferedRendererStats,
}

impl BufferedRendererStatsReader {
    /// The number of samples currently buffered.
    /// Can be negative if the reader is waiting for more samples.
    pub fn samples(&self) -> (samples: i64)
        ensures
            samples == self.stats.samples,
    {
        self.stats.samples
    }

    /// The number of samples that were in the buffer when the last read began.
    pub fn last_samples_after_read(&self) -> (samples: i64)
        ensures
            samples == self.stats.last_samples_after_read,
    {
        self.stats.last_samples_after_read
    }

    /// The number of samples last requested by the read command.
    pub fn last_request_samples(&self) -> (samples: i64)
        ensures
            samples == self.stats.last_request_samples,
    {
        self.stats.last_request_samples
    }

    /// The number of samples to render each iteration.
    pub fn render_size(&self) -> (size: usize)
        ensures
            size == self.stats.render_size,
    {
        self.stats.render_size
    }
}

/// The reading side of a buffered renderer: what is left of the last buffer, and the statistics.
///
/// A read begins with what is left, and then takes buffers as they arrive, until it has enough or
/// none arrives in time.
pub struct BufferedRenderer<S> {
    remainder: Vec<S>,
    stats: BufferedRendererStats,
    stream_params: AudioStreamParams,
}

/// A difference of counters, which wrap around as atomic ones do.
pub open spec fn counted_down(samples: i64, by: int) -> int {
    if samples - by < i64::MIN {
        samples - by + 0x1_0000_0000_0000_0000
    } else {
        samples - by
    }
}

impl<S: Copy + Default> BufferedRenderer<S> {
    /// What is left of the last buffer.
    pub closed spec fn left(&self) -> Seq<S> {
        self.remainder@
    }

    /// The statistics.
    pub closed spec fn numbers(&self) -> BufferedRendererStats {
        self.stats
    }

    /// The stream that is read.
    pub closed spec fn stream(&self) -> AudioStreamParams {
        self.stream_params
    }

    /// A reader that has received nothing.
    pub fn new(stream_params: AudioStreamParams, render_size: usize) -> (this: Self)
        ensures
            this.left().len() == 0,
            this.stream() == stream_params,
            this.numbers() == (BufferedRendererStats {
                samples: 0,
                last_samples_after_read: 0,
                last_request_samples: 0,
                render_size,
            }),
    {
        BufferedRenderer {
            remainder: Vec::new(),
            stats: BufferedRendererStats {
                samples: 0,
                last_samples_after_read: 0,
                last_request_samples: 0,
                render_size,
            },
            stream_params,
        }
    }

    /// Begins a read of `len` samples: gives the part that is left of the last buffer, and counts
    /// the request.
    pub fn begin_read(&mut self, len: usize) -> (dest: Vec<S>)
        requires
            len <= i64::MAX,
        ensures
            dest@.len() <= len,
            dest@ + final(self).left() == old(self).left(),
            final(self).left().len() > 0 ==> dest@.len() == len,
            final(self).stream() == old(self).stream(),
            final(self).numbers() == (BufferedRendererStats {
                samples: counted_down(old(self).numbers().samples, len as int) as i64,
                last_request_samples: len as i64,
                last_samples_after_read: old(self).numbers().samples,
                ..old(self).numbers()
            }),
    {
        self.stats.last_samples_after_read = self.stats.samples;
        self.stats.samples = self.stats.samples.wrapping_sub(len as i64);
        self.stats.last_request_samples = len as i64;
        let ghost all = self.remainder@;
        let count: usize = if len < self.remainder.len() {
            len
        } else {
            self.remainder.len()
        };
        let mut dest: Vec<S> = Vec::new();
        core::mem::swap(&mut dest, &mut self.remainder);
        self.remainder = dest.split_off(count);
        assert(dest@ + self.remainder@ =~= all);
        dest
    }

    /// Goes on with a read of `len` samples, of which `dest` has come, as a buffer arrives. What is
    /// too much is left for the next read.
    pub fn take_buffer(&mut self, dest: &mut Vec<S>, len: usize, buf: Vec<S>)
        requires
            old(self).left().len() == 0,
            old(dest)@.len() <= len,
        ensures
            final(dest)@.len() <= len,
            final(dest)@ + final(self).left() == old(dest)@ + buf@,
            final(self).left().len() > 0 ==> final(dest)@.len() == len,
            final(self).stream() == old(self).stream(),
            final(self).numbers() == old(self).numbers(),
    {
        let ghost all = buf@;
        let room: usize = len - dest.len();
        let mut buf = buf;
        let count: usize = if room < buf.len() {
            room
        } else {
            buf.len()
        };
        self.remainder = buf.split_off(count);
        assert(buf@ + self.remainder@ =~= all);
        let ghost came = buf@;
        dest.append(&mut buf);
        assert(dest@ =~= old(dest)@ + came);
        assert(dest@ + self.left() =~= old(dest)@ + all);
    }

    /// Ends a read of `len` samples, of which `dest` has come: where buffers did not arrive in time
    /// the rest is silence.
    pub fn finish_read(dest: &mut Vec<S>, len: usize)
        requires
            old(dest)@.len() <= len,
        ensures
            exists|rest: Seq<S>| #[trigger]
                helpers::is_silence(rest, (len - old(dest)@.len()) as nat) && final(dest)@ == old(
                    dest,
                )@ + rest,
    {
        let ghost came = dest@;
        let zero = S::default();
        while dest.len() < len
            invariant
                came.len() <= dest@.len() <= len,
                dest@ == came + Seq::new((dest@.len() - came.len()) as nat, |i: int| zero),
            decreases len - dest@.len(),
        {
            let ghost n = (dest@.len() - came.len()) as nat;
            dest.push(zero);
            assert(dest@ =~= came + Seq::new(n + 1, |i: int| zero));
        }
        proof {
            let n = (len - came.len()) as nat;
            let rest = Seq::new(n, |i: int| zero);
            assert(helpers::is_zero(zero));
            assert(helpers::is_silence(rest, n));
        }
    }

    /// Counts samples that were rendered and sent.
    pub fn count_rendered(&mut self, len: usize)
        requires
            old(self).numbers().samples + len <= i64::MAX,
        ensures
            final(self).left() == old(self).left(),
            final(self).stream() == old(self).stream(),
            final(self).numbers() == (BufferedRendererStats {
                samples: (old(self).numbers().samples + len) as i64,
                ..old(self).numbers()
            }),
    {
        self.stats.samples = (self.stats.samples as i128 + len as i128) as i64;
    }

    /// Sets the number of samples that should be rendered each iteration.
    pub fn set_render_size(&mut self, size: usize)
        ensures
            final(self).left() == old(self).left(),
            final(self).stream() == old(self).stream(),
            final(self).numbers() == (BufferedRendererStats {
                render_size: size,
                ..old(self).numbers()
            }),
    {
        self.stats.render_size = size;
    }

    /// Returns a statistics reader.
    pub fn get_buffer_stats(&self) -> (reader: BufferedRendererStatsReader)
        ensures
            reader.stats == self.numbers(),
    {
        BufferedRendererStatsReader { stats: self.stats }
    }

    /// The stream that is read.
    pub fn stream_params(&self) -> (params: AudioStreamParams)
        ensures
            params == self.stream(),
    {
        self.stream_params
    }
}

/// All samples of some buffers, in order.
pub open spec fn chained<S>(bufs: Seq<Vec<S>>) -> Seq<S>
    decreases bufs.len(),
{
    if bufs.len() == 0 {
        Seq::empty()
    } else {
        chained(bufs.drop_last()) + bufs.last()@
    }
}

/// Whether a read of `len` samples from what is left and the buffers that arrive gives `dest` and
/// leaves `after`, when `bufs` are the buffers that it took. A buffer is taken only while samples
/// are missing.
pub open spec fn reads<S: Default>(
    before: Seq<S>,
    bufs: Seq<Vec<S>>,
    len: nat,
    dest: Seq<S>,
    after: Seq<S>,
) -> bool {
    let came = before + chained(bufs);
    &&& if came.len() >= len {
        dest == came.take(len as int) && after == came.skip(len as int)
    } else {
        &&& after.len() == 0
        &&& exists|rest: Seq<S>| #[trigger]
            helpers::is_silence(rest, (len - came.len()) as nat) && dest == came + rest
    }
    &&& bufs.len() > 0 ==> (before + chained(bufs.drop_last())).len() < len
}

impl<S: Copy + Default> BufferedRenderer<S> {
    /// Reads samples from the remainder and the buffers that arrive. Buffers that are not needed are
    /// given back.
    pub fn read(&mut self, dest: &mut [S], arriving: Vec<Vec<S>>) -> (unused: Vec<Vec<S>>)
        requires
            old(dest)@.len() <= i64::MAX,
        ensures
            final(dest)@.len() == old(dest)@.len(),
            unused@.len() <= arriving@.len(),
            unused@ == arriving@.skip(arriving@.len() - unused@.len()),
            reads(
                old(self).left(),
                arriving@.take(arriving@.len() - unused@.len()),
                old(dest)@.len(),
                final(dest)@,
                final(self).left(),
            ),
            unused@.len() > 0 ==> (old(self).left() + chained(
                arriving@.take(arriving@.len() - unused@.len()),
            )).len() >= old(dest)@.len(),
            final(self).stream() == old(self).stream(),
            final(self).numbers() == (BufferedRendererStats {
                samples: counted_down(
                    old(self).numbers().samples,
                    old(dest)@.len() as int,
                ) as i64,
                last_request_samples: old(dest)@.len() as i64,
                last_samples_after_read: old(self).numbers().samples,
                ..old(self).numbers()
            }),
    {
        let len: usize = dest.len();
        let ghost before = self.left();
        let mut out = self.begin_read(len);
        let mut unused: Vec<Vec<S>> = Vec::new();
        let ghost mut taken: int = 0;
        assert(chained(arriving@.take(0)) =~= Seq::<S>::empty());
        assert(before + chained(arriving@.take(0)) =~= before);
        for buf in it: arriving
            invariant
                it.seq() == arriving@,
                len == old(dest)@.len(),
                out@.len() <= len,
                before == old(self).left(),
                0 <= taken <= it.index(),
                unused@ == arriving@.subrange(taken, it.index()),
                out@ + self.left() == before + chained(arriving@.take(taken)),
                self.left().len() > 0 ==> out@.len() == len,
                unused@.len() > 0 ==> out@.len() == len,
                taken > 0 ==> (before + chained(arriving@.take(taken - 1))).len() < len,
                self.stream() == old(self).stream(),
                self.numbers() == (BufferedRendererStats {
                    samples: counted_down(old(self).numbers().samples, len as int) as i64,
                    last_request_samples: len as i64,
                    last_samples_after_read: old(self).numbers().samples,
                    ..old(self).numbers()
                }),
        {
            if out.len() < len {
                proof {
                    assert(taken == it.index());
                    let next = arriving@.take(taken + 1);
                    assert(next.drop_last() =~= arriving@.take(taken));
                    assert(out@ + self.left() =~= out@);
                }
                let ghost so_far = out@;
                let ghost came = buf@;
                self.take_buffer(&mut out, len, buf);
                proof {
                    assert(out@ + self.left() =~= before + chained(arriving@.take(taken + 1))) by {
                        assert(so_far + came =~= before + (chained(arriving@.take(taken)) + came));
                    }
                    taken = taken + 1;
                    assert(unused@ =~= arriving@.subrange(taken, taken));
                }
            } else {
                unused.push(buf);
                assert(unused@ =~= arriving@.subrange(taken, it.index() + 1));
            }
        }
        let ghost came = out@;
        Self::finish_read(&mut out, len);
        proof {
            let n = arriving@.len() as int;
            assert(unused@ =~= arriving@.skip(taken));
            assert(arriving@.len() - unused@.len() == taken);
            let all = before + chained(arriving@.take(taken));
            if taken > 0 {
                assert(arriving@.take(taken).drop_last() =~= arriving@.take(taken - 1));
            }
            if all.len() >= len {
                assert(out@ =~= all.take(len as int));
                assert(self.left() =~= all.skip(len as int));
            } else {
                assert(came =~= all);
            }
            assert(reads(before, arriving@.take(taken), len as nat, out@, self.left()));
        }
        copy_into(dest, &out);
        unused
    }
}

/// Copies samples into a buffer of the same length.
fn copy_into<S: Copy>(dest: &mut [S], source: &Vec<S>)
    requires
        old(dest)@.len() == source@.len(),
    ensures
        final(dest)@ == source@,
{
    let mut i: usize = 0;
    while i < source.len()
        invariant
            i <= source@.len(),
            dest@.len() == source@.len(),
            forall|j: int| 0 <= j < i ==> #[trigger] dest@[j] == source@[j],
        decreases source@.len() - i,
    {
        dest[i] = source[i];
        i += 1;
    }
    assert(dest@ =~= source@);
}

/// As long as enough arrives, two reads give what one read of both lengths gives: no sample is lost
/// or repeated between them.
pub proof fn lemma_reads_join<S: Default>(
    before: Seq<S>,
    first: Seq<Vec<S>>,
    first_dest: Seq<S>,
    between: Seq<S>,
    second: Seq<Vec<S>>,
    second_dest: Seq<S>,
    after: Seq<S>,
)
    requires
        reads(before, first, first_dest.len(), first_dest, between),
        reads(between, second, second_dest.len(), second_dest, after),
        (before + chained(first)).len() >= first_dest.len(),
        (between + chained(second)).len() >= second_dest.len(),
    ensures
        first_dest + second_dest + after == before + chained(first + second),
{
    lemma_chained_append(first, second);
    let a = before + chained(first);
    assert(first_dest + between =~= a);
    let b = between + chained(second);
    assert(second_dest + after =~= b);
    assert(first_dest + second_dest + after =~= first_dest + (second_dest + after));
    assert(first_dest + b =~= first_dest + between + chained(second));
    assert(a + chained(second) =~= before + (chained(first) + chained(second)));
}

/// The samples of two lists of buffers follow each other.
proof fn lemma_chained_append<S>(a: Seq<Vec<S>>, b: Seq<Vec<S>>)
    ensures
        chained(a + b) == chained(a) + chained(b),
    decreases b.len(),
{
    if b.len() == 0 {
        assert(a + b =~= a);
        assert(chained(a) + chained(b) =~= chained(a));
    } else {
        assert((a + b).drop_last() =~= a + b.drop_last());
        lemma_chained_append(a, b.drop_last());
        assert(chained(a) + chained(b.drop_last()) + b.last()@ =~= chained(a) + (chained(
            b.drop_last(),
        ) + b.last()@));
    }
}

/// All samples of some buffers, one buffer behind the other.
pub open spec fn in_a_row<S>(bufs: Seq<Vec<S>>) -> Seq<S> {
    bufs.map_values(|buf: Vec<S>| buf@).flatten()
}

/// The samples of buffers that follow each other.
proof fn lemma_in_a_row<S>(bufs: Seq<Vec<S>>)
    ensures
        in_a_row(bufs) == chained(bufs),
    decreases bufs.len(),
{
    let all = bufs.map_values(|buf: Vec<S>| buf@);
    all.lemma_flatten_and_flatten_alt_are_equivalent();
    if bufs.len() > 0 {
        let fewer = bufs.drop_last();
        let some = fewer.map_values(|buf: Vec<S>| buf@);
        lemma_in_a_row(fewer);
        some.lemma_flatten_and_flatten_alt_are_equivalent();
        assert(all.drop_last() =~= some);
    }
}

/// Reading loses no sample, repeats none and keeps their order: where enough has arrived, what is
/// read, what is left and what is given back are together what was left before and what arrived.
/// Where too little has arrived, all of it is read, and silence behind it.
pub proof fn lemma_reading_loses_nothing<S: Copy + Default>(
    renderer: &mut BufferedRenderer<S>,
    dest: &mut [S],
    arriving: Vec<Vec<S>>,
    unused: Vec<Vec<S>>,
)
    requires
        call_ensures(BufferedRenderer::<S>::read, (renderer, dest, arriving), unused),
    ensures
        final(dest)@.len() == old(dest)@.len(),
        (old(renderer).left() + in_a_row(arriving@)).len() >= old(dest)@.len() ==> final(dest)@
            + final(renderer).left() + in_a_row(unused@) == old(renderer).left() + in_a_row(
            arriving@,
        ),
        (old(renderer).left() + in_a_row(arriving@)).len() < old(dest)@.len() ==> {
            &&& final(renderer).left().len() == 0
            &&& unused@.len() == 0
            &&& forall|i: int|
                0 <= i < old(renderer).left().len() + in_a_row(arriving@).len() ==> #[trigger] final(
                    dest)@[i] == (old(renderer).left() + in_a_row(arriving@))[i]
            &&& forall|i: int|
                old(renderer).left().len() + in_a_row(arriving@).len() <= i < old(dest)@.len()
                    ==> call_ensures(S::default, (), #[trigger] final(dest)@[i])
        },
{
    let before = old(renderer).left();
    let after = final(renderer).left();
    let n = arriving@.len() - unused@.len();
    let bufs = arriving@.take(n);
    let came = before + chained(bufs);
    assert(bufs + unused@ =~= arriving@);
    lemma_chained_append(bufs, unused@);
    lemma_in_a_row(arriving@);
    lemma_in_a_row(unused@);
    let all = before + chained(arriving@);
    assert(all =~= came + chained(unused@));
    let len = old(dest)@.len();
    assert(chained(Seq::<Vec<S>>::empty()) =~= Seq::<S>::empty());
    if unused@.len() == 0 {
        assert(unused@ =~= Seq::<Vec<S>>::empty());
    }
    if all.len() >= len {
        assert(came.len() >= len);
        assert(final(dest)@ + after =~= came);
    }
}

/// The samples that wait are fewer by those that are read, and more by those that are rendered. The
/// reader tells how many were asked for last, and how many there were when that was done.
pub proof fn lemma_waiting_samples<S: Copy + Default>(
    renderer: &mut BufferedRenderer<S>,
    dest: &mut [S],
    arriving: Vec<Vec<S>>,
    unused: Vec<Vec<S>>,
    rendering: &mut BufferedRenderer<S>,
    len: usize,
)
    requires
        call_ensures(BufferedRenderer::<S>::read, (renderer, dest, arriving), unused),
        call_ensures(BufferedRenderer::<S>::count_rendered, (rendering, len), ()),
        old(dest)@.len() <= i64::MAX,
        old(renderer).numbers().samples - old(dest)@.len() >= i64::MIN,
        old(rendering).numbers().samples + len <= i64::MAX,
    ensures
        final(renderer).numbers().samples + old(dest)@.len() == old(renderer).numbers().samples,
        final(renderer).numbers().last_request_samples == old(dest)@.len(),
        final(renderer).numbers().last_samples_after_read == old(renderer).numbers().samples,
        final(renderer).numbers().render_size == old(renderer).numbers().render_size,
        final(rendering).numbers().samples == old(rendering).numbers().samples + len,
        final(rendering).numbers().last_request_samples == old(
            rendering).numbers().last_request_samples,
        final(rendering).left() == old(rendering).left(),
{
}

/// The statistics tell what the renderer counts.
pub proof fn lemma_statistics<S: Copy + Default>(
    renderer: BufferedRenderer<S>,
    reader: BufferedRendererStatsReader,
    samples: i64,
    after_read: i64,
    requested: i64,
    size: usize,
    sized: &mut BufferedRenderer<S>,
    new_size: usize,
)
    requires
        call_ensures(BufferedRenderer::<S>::get_buffer_stats, (&renderer,), reader),
        call_ensures(BufferedRendererStatsReader::samples, (&reader,), samples),
        call_ensures(BufferedRendererStatsReader::last_samples_after_read, (&reader,), after_read),
        call_ensures(BufferedRendererStatsReader::last_request_samples, (&reader,), requested),
        call_ensures(BufferedRendererStatsReader::render_size, (&reader,), size),
        call_ensures(BufferedRenderer::<S>::set_render_size, (sized, new_size), ()),
    ensures
        samples == renderer.numbers().samples,
        after_read == renderer.numbers().last_samples_after_read,
        requested == renderer.numbers().last_request_samples,
        size == renderer.numbers().render_size,
        final(sized).numbers().render_size == new_size,
        final(sized).numbers().samples == old(sized).numbers().samples,
        final(sized).left() == old(sized).left(),
{
}

/// A round takes nine tenths of the time that its samples play, each of the two rounded down to whole
/// nanoseconds.
pub open spec fn is_nine_tenths(frames: int, sample_rate: int, played: int, time: int) -> bool {
    &&& played * sample_rate <= 1_000_000_000 * frames
    &&& 1_000_000_000 * frames < played * sample_rate + sample_rate
    &&& 10 * time <= 9 * played
    &&& 9 * played < 10 * time + 10
}

/// How long a round of the render loop may take.
pub proof fn lemma_round_time(size: usize, sample_rate: u32, time: u128)
    requires
        call_ensures(render_delay, (size, sample_rate), time),
        sample_rate > 0,
        size <= u32::MAX,
    ensures
        exists|played: int| #[trigger]
            is_nine_tenths(size as int, sample_rate as int, played, time as int),
{
    let frames = size as u32;
    assert(frames == size);
    let whole: int = SECOND * frames;
    let rate = sample_rate as int;
    let played = whole / rate;
    vstd::arithmetic::div_mod::lemma_fundamental_div_mod(whole, rate);
    assert(rate * played == played * rate) by (nonlinear_arith);
    assert(played >= 0) by (nonlinear_arith)
        requires
            played == whole / rate,
            whole >= 0,
            rate > 0,
    ;
    assert(is_nine_tenths(size as int, rate, played, time as int));
}

/// Where the render loop goes when it wakes up, has looked up the size, or has been told how far ahead
/// it is: it goes on only if it was not killed; it renders only while what waits is at most a tenth
/// above what was last asked for, and else sleeps a tenth of a round; it renders the samples of
/// all audio channels.
pub proof fn lemma_loop_waits_while_ahead(
    render: &mut RenderLoop,
    event: RenderEvent,
    action: RenderAction,
)
    requires
        call_ensures(RenderLoop::handle, (render, event), action),
        expects(old(render).at(), event),
    ensures
        final(render).stream() == old(render).stream(),
        match (old(render).at(), event) {
            (RenderState::Idle, RenderEvent::Size(size)) => action == RenderAction::LoadLevels
                && final(render).at() == (RenderState::Checking { size }),
            (RenderState::Checking { size }, RenderEvent::Levels { samples, last_requested }) => {
                &&& 100 * samples > 110 * last_requested <==> final(render).at()
                    == (RenderState::Waiting { size })
                &&& 100 * samples <= 110 * last_requested <==> final(render).at()
                    == (RenderState::Rendering { size })
                &&& action matches RenderAction::Render { len } ==> 100 * samples <= 110
                    * last_requested && (size + size <= usize::MAX ==> len
                    == if old(render).stream().channels is Stereo {
                    size + size
                } else {
                    size as int
                })
                &&& action matches RenderAction::Sleep { time } ==> 100 * samples > 110
                    * last_requested && sleeps_tenth(
                    size,
                    old(render).stream().sample_rate,
                    time as int,
                )
                &&& action is Render || action is Sleep
            },
            (RenderState::Waiting { size }, RenderEvent::Slept { killed }) => {
                &&& killed ==> action == RenderAction::Stop && final(render).at()
                    == RenderState::Stopped
                &&& !killed ==> action == RenderAction::LoadLevels && final(render).at()
                    == (RenderState::Checking { size })
            },
            (RenderState::Resting, RenderEvent::Slept { .. }) => action == RenderAction::LoadSize
                && final(render).at() == RenderState::Idle,
            _ => true,
        },
{
    if let (RenderState::Checking { size }, RenderEvent::Levels { samples, last_requested }) = (
        old(render).at(),
        event,
    ) {
        let most: int = last_requested * 110 / 100;
        assert(is_ahead(samples, last_requested) == (samples > most));
        let n = size as int;
        let channels = old(render).stream().channels.size() as int;
        assert(channels == 1 ==> n * channels == n) by (nonlinear_arith);
        assert(channels == 2 ==> n * channels == n + n) by (nonlinear_arith);
        let time = round_time(size, old(render).stream().sample_rate);
        lemma_time_fits(size, old(render).stream().sample_rate);
    }
}

/// Whether a sleep lasts a tenth of a round.
pub open spec fn sleeps_tenth(size: usize, sample_rate: u32, time: int) -> bool {
    sample_rate > 0 && size <= u32::MAX ==> forall|round: u128| #[trigger]
        call_ensures(render_delay, (size, sample_rate), round) ==> 10 * time <= round < 10 * time
            + 10
}

/// The time of a round fits its type.
proof fn lemma_time_fits(size: usize, sample_rate: u32)
    ensures
        sample_rate > 0 ==> round_time(size, sample_rate) <= u128::MAX,
{
    if sample_rate > 0 {
        let whole: int = SECOND * (size as u32);
        let rate = sample_rate as int;
        assert(0 <= whole / rate <= whole) by (nonlinear_arith)
            requires
                whole >= 0,
                rate > 0,
        ;
    }
}

/// What the render loop does after a buffer: it stops if the buffer did not arrive; else it writes
/// down the round, and then sleeps for just as long as is left of it.
pub proof fn lemma_loop_keeps_time(
    render: &mut RenderLoop,
    event: RenderEvent,
    action: RenderAction,
    size: usize,
    round: u128,
)
    requires
        call_ensures(RenderLoop::handle, (render, event), action),
        expects(old(render).at(), event),
        old(render).stream().sample_rate > 0,
        call_ensures(render_delay, (size, old(render).stream().sample_rate), round),
    ensures
        old(render).at() == (RenderState::Rendering { size }) ==> match event {
            RenderEvent::Sent { delivered } => {
                &&& delivered ==> action == (RenderAction::Record { allowed: round }) && final(
                    render).at() == (RenderState::Recording { size })
                &&& !delivered ==> action == RenderAction::Stop && final(render).at()
                    == RenderState::Stopped
            },
            _ => true,
        },
        old(render).at() == (RenderState::Recording { size }) ==> match event {
            RenderEvent::Recorded { elapsed } => {
                &&& elapsed >= round ==> action == RenderAction::LoadSize && final(render).at()
                    == RenderState::Idle
                &&& elapsed < round ==> final(render).at() == RenderState::Resting && (
                action matches RenderAction::Sleep { time } && elapsed + time == round)
            },
            _ => true,
        },
{
    lemma_time_fits(size, old(render).stream().sample_rate);
}

/// The latest load comes first and the others move back by one; a hundred are kept.
pub proof fn lemma_latest_loads<V: Scalar>(
    queue: &mut LoadQueue<V>,
    load: V,
    reading: LoadQueue<V>,
    last: V,
    empty: LoadQueue<V>,
)
    requires
        call_ensures(LoadQueue::<V>::record, (queue, load), ()),
        old(queue).wf(),
        call_ensures(LoadQueue::<V>::last_renderer_load, (&reading,), last),
        call_ensures(LoadQueue::<V>::new, (), empty),
    ensures
        final(queue).loads()[0] == load,
        forall|i: int|
            0 < i < final(queue).loads().len() ==> #[trigger] final(queue).loads()[i] == old(
                queue).loads()[i - 1],
        final(queue).loads().len() == if old(queue).loads().len() < 100 {
            old(queue).loads().len() + 1
        } else {
            100
        },
        reading.loads().len() > 0 ==> last == reading.loads()[0],
        reading.loads().len() == 0 ==> call_ensures(V::ratio, (0, 1), last),
        empty.loads().len() == 0,
{
}

/// Whether `sums` starts at zero and takes up one load after the other.
pub open spec fn sums_up<V: Scalar>(loads: Seq<V>, sums: Seq<V>) -> bool {
    &&& sums.len() == loads.len() + 1
    &&& call_ensures(V::ratio, (0, 1), sums[0])
    &&& forall|i: int|
        0 < i < sums.len() ==> call_ensures(
            V::plus,
            (sums[i - 1], loads[i - 1]),
            #[trigger] sums[i],
        )
}

/// Whether `average` is a sum over the number of its parts, or over one where there are none.
pub open spec fn is_shared_by<V: Scalar>(sum: V, count: int, average: V) -> bool {
    exists|number: V|
        #![trigger call_ensures(V::over, (sum, number), average)]
        call_ensures(V::ratio, (count as i64, 1), number) && call_ensures(
            V::over,
            (sum, number),
            average,
        )
}

/// The average load is the sum of all loads over their number.
pub proof fn lemma_average_load<V: Scalar>(queue: LoadQueue<V>, average: V)
    requires
        call_ensures(LoadQueue::<V>::average_renderer_load, (&queue,), average),
    ensures
        exists|sums: Seq<V>| #[trigger]
            sums_up(queue.loads(), sums) && is_shared_by(
                sums[sums.len() - 1],
                if queue.loads().len() > 0 {
                    queue.loads().len() as int
                } else {
                    1
                },
                average,
            ),
{
    let values = queue.loads();
    let (trace, total) = choose|trace: Seq<V>, total: V|
        {
            &&& #[trigger] is_summing(values, trace)
            &&& scalar::is_ratio(
                if values.len() > 0 {
                    values.len() as int
                } else {
                    1
                },
                1,
                total,
            )
            &&& #[trigger] scalar::is_quotient(trace.last(), total, average)
        };
    assert forall|i: int| 0 < i < trace.len() implies call_ensures(
        V::plus,
        (trace[i - 1], values[i - 1]),
        #[trigger] trace[i],
    ) by {
        assert(scalar::is_sum(trace[i - 1], values[i - 1], trace[i - 1 + 1]));
    }
    assert(sums_up(values, trace));
    assert(call_ensures(V::over, (trace[trace.len() - 1], total), average));
}

/// A read goes on where the last one stopped: it begins with what is left, and takes a buffer behind what
/// has come. What it does not need is left for the next; nothing is left while samples are missing.
pub proof fn lemma_reading_in_steps<S: Copy + Default>(
    beginning: &mut BufferedRenderer<S>,
    len: usize,
    begun: Vec<S>,
    taking: &mut BufferedRenderer<S>,
    dest: &mut Vec<S>,
    buf: Vec<S>,
)
    requires
        call_ensures(BufferedRenderer::<S>::begin_read, (beginning, len), begun),
        call_ensures(BufferedRenderer::<S>::take_buffer, (taking, dest, len, buf), ()),
    ensures
        begun@ + final(beginning).left() == old(beginning).left(),
        begun@.len() <= len,
        begun@.len() < len ==> final(beginning).left().len() == 0,
        final(dest)@ + final(taking).left() == old(dest)@ + buf@,
        final(dest)@.len() <= len,
        final(dest)@.len() < len ==> final(taking).left().len() == 0,
        final(taking).numbers() == old(taking).numbers(),
{
}

/// A read that ends too early is filled up with silence behind what has come.
pub proof fn lemma_missing_samples_are_silent<S: Copy + Default>(dest: &mut Vec<S>, len: usize)
    requires
        call_ensures(BufferedRenderer::<S>::finish_read, (dest, len), ()),
        old(dest)@.len() <= len,
    ensures
        final(dest)@.len() == len,
        forall|i: int| 0 <= i < old(dest)@.len() ==> #[trigger] final(dest)@[i] == old(dest)@[i],
        forall|i: int|
            old(dest)@.len() <= i < len ==> call_ensures(
                S::default,
                (),
                #[trigger] final(dest)@[i],
            ),
{
    let n = (len - old(dest)@.len()) as nat;
    let rest = choose|rest: Seq<S>| #[trigger]
        helpers::is_silence(rest, n) && final(dest)@ == old(dest)@ + rest;
    let zero = choose|zero: S| #[trigger]
        helpers::is_zero(zero) && rest == Seq::new(n, |i: int| zero);
    assert forall|i: int| old(dest)@.len() <= i < len implies call_ensures(
        S::default,
        (),
        #[trigger] final(dest)@[i],
    ) by {
        assert(final(dest)@[i] == rest[i - old(dest)@.len()]);
    }
}

/// A render loop starts idle, and a reader starts with nothing, both for the stream that they are given.
pub proof fn lemma_new_renderers<S: Copy + Default>(
    params: AudioStreamParams,
    render: RenderLoop,
    size: usize,
    renderer: BufferedRenderer<S>,
    stream: AudioStreamParams,
)
    requires
        call_ensures(RenderLoop::new, (params,), render),
        call_ensures(BufferedRenderer::<S>::new, (params, size), renderer),
        call_ensures(BufferedRenderer::<S>::stream_params, (&renderer,), stream),
    ensures
        render.at() == RenderState::Idle,
        render.stream() == params,
        stream == params,
        renderer.left().len() == 0,
        renderer.numbers().samples == 0,
        renderer.numbers().last_request_samples == 0,
        renderer.numbers().last_samples_after_read == 0,
        renderer.numbers().render_size == size,
{
}

} // verus!
