//! Playing a recorded sample.
//!
//! A sample reader finds the value at a position, with the start, the end and the loop of the
//! sample. A sample grabber interpolates between positions. A voice sampler moves along the sample
//! at the speed that a pitch generator gives.

use std::sync::Arc;
use vstd::prelude::*;
use crate::scalar;
use crate::scalar::Scalar;
use crate::voice::simd_voice::SIMDVoiceGenerator;
use crate::voice::{ReleaseType, VoiceGeneratorBase};

verus! {

/// Where a sample starts and loops.
#[derive(Copy, Clone, Debug, PartialEq, Eq, Structural)]
pub struct LoopParams {
    pub offset: u32,
    pub start: u32,
    pub end: u32,
}

/// Whether `value` stands at `pos` in the data. Past the end there is silence.
pub open spec fn is_read<V: Scalar>(data: Seq<V>, pos: int, value: V) -> bool {
    if 0 <= pos < data.len() {
        value == data[pos]
    } else {
        scalar::is_ratio(0, 1, value)
    }
}

/// The smaller of a sum and the largest position.
pub open spec fn sum_of(a: u64, b: u64) -> u64 {
    if a + b > u64::MAX {
        u64::MAX
    } else {
        (a + b) as u64
    }
}

/// The data of a sample.
pub struct BufferSampler<V> {
    pub data: Arc<Vec<V>>,
}

impl<V: Scalar> BufferSampler<V> {
    /// The data of a sample.
    pub fn new(data: Arc<Vec<V>>) -> (sampler: Self)
        ensures
            sampler.data == data,
    {
        BufferSampler { data }
    }

    /// The value at a position.
    pub fn get(&self, pos: u64) -> (value: V)
        ensures
            is_read(self.data@, pos as int, value),
    {
        if pos < self.data.len() as u64 {
            self.data[pos as usize]
        } else {
            scalar::ratio(0, 1)
        }
    }

    /// The number of values.
    pub fn length(&self) -> (len: usize)
        ensures
            len == self.data@.len(),
    {
        self.data.len()
    }
}

/// Something that finds the value of a sample at a position, and implements its start, its end and
/// its loop.
pub trait SampleReader: Sized {
    /// A value of the sample.
    type Value;

    /// Whether reading at `pos` gives `value` and turns `pre` into `post`.
    spec fn reads(pre: Self, pos: u64, value: Self::Value, post: Self) -> bool;

    /// Whether the sample is over at `pos`.
    spec fn over(&self, pos: u64) -> bool;

    /// Whether the release of the note turns `pre` into `post`.
    spec fn lets_go(pre: Self, post: Self) -> bool;

    fn get(&mut self, pos: u64) -> (value: Self::Value)
        ensures
            Self::reads(*old(self), pos, value, *final(self)),
    ;

    fn is_past_end(&self, pos: u64) -> (past: bool)
        ensures
            past == self.over(pos),
    ;

    fn signal_release(&mut self)
        ensures
            Self::lets_go(*old(self), *final(self)),
    ;
}

/// A sample that plays once.
pub struct SampleReaderNoLoop<V> {
    pub buffer: BufferSampler<V>,
    pub offset: u64,
}

impl<V: Scalar> SampleReaderNoLoop<V> {
    pub fn new(buffer: BufferSampler<V>, loop_params: LoopParams) -> (reader: Self)
        ensures
            reader.buffer == buffer,
            reader.offset == loop_params.offset,
    {
        SampleReaderNoLoop { buffer, offset: loop_params.offset as u64 }
    }
}

impl<V: Scalar> SampleReader for SampleReaderNoLoop<V> {
    type Value = V;

    open spec fn reads(pre: Self, pos: u64, value: V, post: Self) -> bool {
        &&& is_read(pre.buffer.data@, sum_of(pos, pre.offset) as int, value)
        &&& post == pre
    }

    open spec fn over(&self, pos: u64) -> bool {
        sum_of(pos, self.offset) >= self.buffer.data@.len()
    }

    open spec fn lets_go(pre: Self, post: Self) -> bool {
        post == pre
    }

    fn get(&mut self, pos: u64) -> (value: V) {
        self.buffer.get(pos.saturating_add(self.offset))
    }

    fn is_past_end(&self, pos: u64) -> (past: bool) {
        pos.saturating_add(self.offset) >= self.buffer.length() as u64
    }

    fn signal_release(&mut self) {
    }
}

/// A position, wrapped into a loop: behind `end` the loop starts again at `start`.
pub open spec fn wrapped(pos: u64, start: u64, end: u64) -> int {
    if pos > end {
        (pos - end - 1) % (end - start) + start
    } else {
        pos as int
    }
}

/// A sample that repeats for ever.
pub struct SampleReaderLoop<V: Scalar> {
    buffer: BufferSampler<V>,
    offset: u64,
    loop_start: u64,
    loop_end: u64,
}

impl<V: Scalar> SampleReaderLoop<V> {
    #[verifier::type_invariant]
    spec fn inv(self) -> bool {
        self.loop_start < self.loop_end
    }

    /// The data of the sample.
    pub closed spec fn data(self) -> Seq<V> {
        self.buffer.data@
    }

    /// Where the sample starts.
    pub closed spec fn first(self) -> u64 {
        self.offset
    }

    /// Where the loop starts and ends.
    pub closed spec fn bounds(self) -> (u64, u64) {
        (self.loop_start, self.loop_end)
    }

    pub fn new(buffer: BufferSampler<V>, loop_params: LoopParams) -> (reader: Self)
        requires
            loop_params.start < loop_params.end,
        ensures
            reader.data() == buffer.data@,
            reader.first() == loop_params.offset,
            reader.bounds() == (loop_params.start as u64, loop_params.end as u64),
    {
        SampleReaderLoop {
            buffer,
            offset: loop_params.offset as u64,
            loop_start: loop_params.start as u64,
            loop_end: loop_params.end as u64,
        }
    }
}

impl<V: Scalar> SampleReader for SampleReaderLoop<V> {
    type Value = V;

    open spec fn reads(pre: Self, pos: u64, value: V, post: Self) -> bool {
        &&& is_read(
            pre.data(),
            wrapped(sum_of(pos, pre.first()), pre.bounds().0, pre.bounds().1),
            value,
        )
        &&& post == pre
    }

    open spec fn over(&self, pos: u64) -> bool {
        false
    }

    open spec fn lets_go(pre: Self, post: Self) -> bool {
        post == pre
    }

    fn get(&mut self, pos: u64) -> (value: V) {
        proof {
            use_type_invariant(&*self);
        }
        let mut pos: u64 = pos.saturating_add(self.offset);
        let end: u64 = self.loop_end;
        let start: u64 = self.loop_start;
        if pos > end {
            let step: u64 = (pos - end - 1) % (end - start);
            assert(step < end - start);
            pos = step + start;
        }
        self.buffer.get(pos)
    }

    fn is_past_end(&self, pos: u64) -> (past: bool) {
        false
    }

    fn signal_release(&mut self) {
    }
}

/// A sample that repeats until its note is released.
pub struct SampleReaderLoopSustain<V> {
    pub buffer: BufferSampler<V>,
    pub offset: u64,
    pub loop_start: u64,
    pub loop_end: u64,
    pub last: u64,
    pub is_released: bool,
}

impl<V: Scalar> SampleReaderLoopSustain<V> {
    /// Whether reading at `pos` wraps around.
    pub open spec fn wraps(self, pos: u64) -> bool {
        &&& !self.is_released
        &&& sum_of(pos, self.offset) > self.loop_end
        &&& self.loop_end > self.loop_start
    }

    /// Where the value for `pos` stands. After the release it is counted from where the loop was
    /// last read.
    pub open spec fn place(self, pos: u64) -> int {
        let at = sum_of(pos, self.offset);
        if self.is_released {
            if at >= self.last {
                at - self.last
            } else {
                0
            }
        } else if self.wraps(pos) {
            wrapped(at, self.loop_start, self.loop_end)
        } else {
            at as int
        }
    }

    pub fn new(buffer: BufferSampler<V>, loop_params: LoopParams) -> (reader: Self)
        ensures
            reader == (SampleReaderLoopSustain {
                buffer,
                offset: loop_params.offset as u64,
                loop_start: loop_params.start as u64,
                loop_end: loop_params.end as u64,
                last: 0,
                is_released: false,
            }),
    {
        SampleReaderLoopSustain {
            buffer,
            offset: loop_params.offset as u64,
            loop_start: loop_params.start as u64,
            loop_end: loop_params.end as u64,
            last: 0,
            is_released: false,
        }
    }
}

impl<V: Scalar> SampleReader for SampleReaderLoopSustain<V> {
    type Value = V;

    open spec fn reads(pre: Self, pos: u64, value: V, post: Self) -> bool {
        &&& is_read(pre.buffer.data@, pre.place(pos), value)
        &&& post == SampleReaderLoopSustain {
            last: if pre.wraps(pos) {
                (sum_of(pos, pre.offset) - pre.offset) as u64
            } else {
                pre.last
            },
            ..pre
        }
    }

    open spec fn over(&self, pos: u64) -> bool {
        let at = if self.last > self.offset {
            sum_of(pos, (self.last - self.offset) as u64)
        } else {
            pos
        };
        self.is_released && at >= self.buffer.data@.len()
    }

    open spec fn lets_go(pre: Self, post: Self) -> bool {
        if pre.is_released {
            post == pre
        } else {
            post == SampleReaderLoopSustain {
                is_released: true,
                last: if pre.last >= pre.offset {
                    pre.last
                } else {
                    pre.offset
                },
                ..pre
            }
        }
    }

    fn get(&mut self, pos: u64) -> (value: V) {
        let at: u64 = pos.saturating_add(self.offset);
        let end: u64 = self.loop_end;
        let start: u64 = self.loop_start;
        let place: u64 = if !self.is_released {
            if at > end && end > start {
                let step: u64 = (at - end - 1) % (end - start);
                assert(step < end - start);
                self.last = at - self.offset;
                start + step
            } else {
                at
            }
        } else {
            at.saturating_sub(self.last)
        };
        self.buffer.get(place)
    }

    fn is_past_end(&self, pos: u64) -> (past: bool) {
        if !self.is_released {
            return false;
        }
        let at: u64 = if self.last > self.offset {
            pos.saturating_add(self.last - self.offset)
        } else {
            pos
        };
        at >= self.buffer.length() as u64
    }

    fn signal_release(&mut self) {
        if !self.is_released {
            self.is_released = true;
            if self.last < self.offset {
                self.last = self.offset;
            }
        }
    }
}

/// As long as a sample that plays once is not over, it is read inside of its data: what is read is one
/// of its values.
pub proof fn lemma_unlooped_reads_inside<V: Scalar>(
    pre: SampleReaderNoLoop<V>,
    pos: u64,
    value: V,
    post: SampleReaderNoLoop<V>,
)
    requires
        !pre.over(pos),
        SampleReader::reads(pre, pos, value, post),
    ensures
        sum_of(pos, pre.offset) < pre.buffer.data@.len(),
        value == pre.buffer.data@[sum_of(pos, pre.offset) as int],
{
}

/// A sample that repeats for ever is read inside of its data, if its loop lies there.
pub proof fn lemma_looped_reads_inside<V: Scalar>(
    pre: SampleReaderLoop<V>,
    pos: u64,
    value: V,
    post: SampleReaderLoop<V>,
)
    requires
        pre.bounds().0 < pre.bounds().1 < pre.data().len(),
        SampleReader::reads(pre, pos, value, post),
    ensures
        0 <= wrapped(sum_of(pos, pre.first()), pre.bounds().0, pre.bounds().1) < pre.data().len(),
        value == pre.data()[wrapped(sum_of(pos, pre.first()), pre.bounds().0, pre.bounds().1)],
{
    lemma_wrapped_inside(sum_of(pos, pre.first()), pre.bounds().0, pre.bounds().1);
}

/// A sample that repeats until its note is released is read inside of its data: before the release, if
/// its loop lies there, and after it, as long as it is not over.
pub proof fn lemma_sustained_reads_inside<V: Scalar>(
    pre: SampleReaderLoopSustain<V>,
    pos: u64,
    value: V,
    post: SampleReaderLoopSustain<V>,
)
    requires
        if pre.is_released {
            pre.last >= pre.offset && !pre.over(pos)
        } else {
            pre.loop_start < pre.loop_end < pre.buffer.data@.len()
        },
        SampleReader::reads(pre, pos, value, post),
    ensures
        0 <= pre.place(pos) < pre.buffer.data@.len(),
        value == pre.buffer.data@[pre.place(pos)],
{
    if !pre.is_released {
        lemma_wrapped_inside(sum_of(pos, pre.offset), pre.loop_start, pre.loop_end);
    }
}

/// The release of a note leaves its sample counted from no earlier than its start.
pub proof fn lemma_released_after_start<V: Scalar>(
    pre: SampleReaderLoopSustain<V>,
    post: SampleReaderLoopSustain<V>,
)
    requires
        SampleReader::lets_go(pre, post),
        pre.is_released ==> pre.last >= pre.offset,
    ensures
        post.is_released && post.last >= post.offset,
{
}

/// A wrapped position lies no further than the end of the loop.
proof fn lemma_wrapped_inside(pos: u64, start: u64, end: u64)
    requires
        start < end,
    ensures
        0 <= wrapped(pos, start, end) <= end,
{
    if pos > end {
        vstd::arithmetic::div_mod::lemma_mod_bound(pos - end - 1, end - start);
    }
}

/// However far a looped sample is read, the position stays before the end of its loop once it has
/// passed it, and the positions there repeat with the length of the loop.
pub proof fn lemma_loop_repeats(pos: u64, start: u64, end: u64)
    requires
        start < end,
        pos > end,
        pos + (end - start) <= u64::MAX,
    ensures
        start <= wrapped(pos, start, end) < end,
        wrapped((pos + (end - start)) as u64, start, end) == wrapped(pos, start, end),
        wrapped((end + 1) as u64, start, end) == start,
{
    let a = pos - end - 1;
    let n = end - start;
    vstd::arithmetic::div_mod::lemma_mod_bound(a, n);
    vstd::arithmetic::div_mod::lemma_mod_add_multiples_vanish(a, n);
    vstd::arithmetic::div_mod::lemma_small_mod(0nat, n as nat);
    assert(pos + n - end - 1 == n + a);
}

/// Something that takes positions with fractions and gives interpolated values.
pub trait SIMDSampleGrabber<V: Scalar>: Sized {
    /// Whether the values at the positions are `values`, and reading them turns `pre` into `post`.
    spec fn grabs(
        pre: Self,
        indexes: Seq<u32>,
        fractional: Seq<V>,
        values: Seq<V>,
        post: Self,
    ) -> bool;

    /// Whether the sample is over at `pos`.
    spec fn over(&self, pos: u64) -> bool;

    /// Whether the release of the note turns `pre` into `post`.
    spec fn lets_go(pre: Self, post: Self) -> bool;

    /// Indexes: the rounded index of the sample
    ///
    /// Fractional: The fractional part of the index, from 0 to 1
    fn get(&mut self, indexes: &Vec<u32>, fractional: &Vec<V>) -> (values: Vec<V>)
        requires
            fractional@.len() == indexes@.len(),
        ensures
            values@.len() == indexes@.len(),
            Self::grabs(*old(self), indexes@, fractional@, values@, *final(self)),
    ;

    fn is_past_end(&self, pos: u64) -> (past: bool)
        ensures
            past == self.over(pos),
    ;

    fn signal_release(&mut self)
        ensures
            Self::lets_go(*old(self), *final(self)),
    ;
}

/// Whether `value` lies between `first` and `second`, at the fraction `blend` of the way.
pub open spec fn is_blended<V: Scalar>(first: V, second: V, blend: V, value: V) -> bool {
    exists|one: V, rest: V, a: V, b: V|
        {
            &&& scalar::is_ratio(1, 1, one)
            &&& #[trigger] scalar::is_difference(one, blend, rest)
            &&& #[trigger] scalar::is_product(first, rest, a)
            &&& #[trigger] scalar::is_product(second, blend, b)
            &&& scalar::is_sum(a, b, value)
        }
}

/// Blends two values.
fn blend_values<V: Scalar>(first: V, second: V, blend: V) -> (value: V)
    ensures
        is_blended(first, second, blend, value),
{
    let one = scalar::ratio(1, 1);
    let rest = scalar::difference(one, blend);
    let a = scalar::product(first, rest);
    let b = scalar::product(second, blend);
    scalar::sum(a, b)
}

/// A grabber that interpolates on a straight line.
pub struct SIMDLinearSampleGrabber<R> {
    pub sampler_reader: R,
}

impl<V: Scalar, R: SampleReader<Value = V>> SIMDLinearSampleGrabber<R> {
    pub fn new(sampler_reader: R) -> (grabber: Self)
        ensures
            grabber.sampler_reader == sampler_reader,
    {
        SIMDLinearSampleGrabber { sampler_reader }
    }
}

/// Whether the value at `index` and a fraction is `value`: it lies between the values at `index`
/// and at the position after it, which are `first` and `second` and are read by way of `mid`.
pub open spec fn is_between<V: Scalar, R: SampleReader<Value = V>>(
    pre: R,
    index: u32,
    fraction: V,
    first: V,
    mid: R,
    second: V,
    value: V,
    post: R,
) -> bool {
    &&& R::reads(pre, index as u64, first, mid)
    &&& R::reads(mid, (index + 1) as u64, second, post)
    &&& is_blended(first, second, fraction, value)
}

/// Whether the value at `index` and a fraction is `value`.
pub open spec fn interpolates<V: Scalar, R: SampleReader<Value = V>>(
    pre: R,
    index: u32,
    fraction: V,
    value: V,
    post: R,
) -> bool {
    exists|first: V, mid: R, second: V|
        is_between(pre, index, fraction, first, mid, second, value, post)
}

/// Whether `trace` reads the values one after another.
pub open spec fn is_interpolating<V: Scalar, R: SampleReader<Value = V>>(
    trace: Seq<R>,
    indexes: Seq<u32>,
    fractional: Seq<V>,
    values: Seq<V>,
) -> bool {
    &&& values.len() == indexes.len()
    &&& trace.len() == indexes.len() + 1
    &&& forall|i: int|
        0 <= i < indexes.len() ==> interpolates(
            #[trigger] trace[i],
            indexes[i],
            fractional[i],
            values[i],
            trace[i + 1],
        )
}

impl<V: Scalar, R: SampleReader<Value = V>> SIMDSampleGrabber<V> for SIMDLinearSampleGrabber<R> {
    open spec fn grabs(
        pre: Self,
        indexes: Seq<u32>,
        fractional: Seq<V>,
        values: Seq<V>,
        post: Self,
    ) -> bool {
        exists|trace: Seq<R>| #[trigger]
            is_interpolating(trace, indexes, fractional, values) && trace[0] == pre.sampler_reader
                && trace.last() == post.sampler_reader
    }

    open spec fn over(&self, pos: u64) -> bool {
        self.sampler_reader.over(pos)
    }

    open spec fn lets_go(pre: Self, post: Self) -> bool {
        R::lets_go(pre.sampler_reader, post.sampler_reader)
    }

    fn get(&mut self, indexes: &Vec<u32>, fractional: &Vec<V>) -> (values: Vec<V>) {
        let ghost mut trace = seq![self.sampler_reader];
        let mut values: Vec<V> = Vec::new();
        let mut i: usize = 0;
        while i < indexes.len()
            invariant
                i <= indexes@.len(),
                fractional@.len() == indexes@.len(),
                values@.len() == i,
                trace.len() == i + 1,
                trace[0] == old(self).sampler_reader,
                trace[i as int] == self.sampler_reader,
                forall|j: int|
                    0 <= j < i ==> interpolates(
                        #[trigger] trace[j],
                        indexes@[j],
                        fractional@[j],
                        values@[j],
                        trace[j + 1],
                    ),
            decreases indexes@.len() - i,
        {
            let ghost pre = self.sampler_reader;
            let first = self.sampler_reader.get(indexes[i] as u64);
            let ghost mid = self.sampler_reader;
            let second = self.sampler_reader.get(indexes[i] as u64 + 1);
            let value = blend_values(first, second, fractional[i]);
            values.push(value);
            proof {
                let post = self.sampler_reader;
                let index = indexes@[i as int];
                assert(is_between(pre, index, fractional@[i as int], first, mid, second, value, post));
                let longer = trace.push(post);
                assert forall|j: int| 0 <= j < i + 1 implies interpolates(
                    #[trigger] longer[j],
                    indexes@[j],
                    fractional@[j],
                    values@[j],
                    longer[j + 1],
                ) by {
                    assert(longer[j] == trace[j]);
                    if j < i {
                        assert(longer[j + 1] == trace[j + 1]);
                    }
                }
                trace = longer;
            }
            i += 1;
        }
        assert(is_interpolating(trace, indexes@, fractional@, values@));
        values
    }

    fn is_past_end(&self, pos: u64) -> (past: bool) {
        self.sampler_reader.is_past_end(pos)
    }

    fn signal_release(&mut self) {
        self.sampler_reader.signal_release();
    }
}

/// A time along a sample. As with the continuous quantities, the library decides which operation is
/// applied where, and claims nothing of what it computes.
pub trait PlayTime<V: Scalar>: Copy {
    /// The start of the sample.
    fn start() -> Self;

    /// The time one moment later, at a speed in values per moment.
    fn advanced(self, speed: V) -> Self;

    /// The whole number of values before this time.
    fn index(self) -> u32;

    /// The whole number of values before this time, for the test of the end.
    fn position(self) -> u64;

    /// The part of a value that follows the whole number.
    fn fraction(self) -> V;
}

/// Whether `post` is the time one moment after `pre`. A speed counts without its sign, and as at
/// least a ten thousandth.
pub open spec fn advances<V: Scalar, C: PlayTime<V>>(pre: C, speed: V, post: C) -> bool {
    exists|size: V, least: V, pace: V| #[trigger] advances_by(pre, speed, post, size, least, pace)
}

/// As above, by way of the values in between.
pub open spec fn advances_by<V: Scalar, C: PlayTime<V>>(
    pre: C,
    speed: V,
    post: C,
    size: V,
    least: V,
    pace: V,
) -> bool {
    &&& call_ensures(V::magnitude, (speed,), size)
    &&& scalar::is_ratio(1, 10000, least)
    &&& scalar::is_larger(size, least, pace)
    &&& call_ensures(C::advanced, (pre, pace), post)
}

/// The time one moment later.
fn advance<V: Scalar, C: PlayTime<V>>(now: C, speed: V) -> (post: C)
    ensures
        advances(now, speed, post),
{
    let size: V = speed.magnitude();
    assert(call_ensures(V::magnitude, (speed,), size));
    let least: V = scalar::ratio(1, 10000);
    let pace = scalar::larger(size, least);
    let post: C = now.advanced(pace);
    assert(advances_by(now, speed, post, size, least, pace));
    post
}

/// Whether `trace` moves along at the speeds, and meets the positions.
pub open spec fn is_moving<V: Scalar, C: PlayTime<V>>(
    trace: Seq<C>,
    speeds: Seq<V>,
    indexes: Seq<u32>,
    fractional: Seq<V>,
) -> bool {
    &&& trace.len() == speeds.len() + 1
    &&& indexes.len() == speeds.len()
    &&& fractional.len() == speeds.len()
    &&& forall|i: int|
        0 <= i < speeds.len() ==> {
            &&& call_ensures(C::index, (#[trigger] trace[i],), indexes[i])
            &&& call_ensures(C::fraction, (trace[i],), fractional[i])
            &&& advances(trace[i], speeds[i], trace[i + 1])
        }
}

/// Whether moving at the speeds leads from `pre` to `post`, and meets the positions.
pub open spec fn moves<V: Scalar, C: PlayTime<V>>(
    pre: C,
    speeds: Seq<V>,
    indexes: Seq<u32>,
    fractional: Seq<V>,
    post: C,
) -> bool {
    exists|trace: Seq<C>| #[trigger]
        is_moving(trace, speeds, indexes, fractional) && trace[0] == pre && trace.last() == post
}

/// Moves along at the speeds, and lists the positions.
fn move_along<V: Scalar, C: PlayTime<V>>(time: C, speeds: &Vec<V>) -> (moved: (
    C,
    Vec<u32>,
    Vec<V>,
))
    ensures
        moves(time, speeds@, moved.1@, moved.2@, moved.0),
        moved.1@.len() == speeds@.len(),
        moved.2@.len() == speeds@.len(),
{
    let mut now = time;
    let ghost mut trace = seq![now];
    let mut indexes: Vec<u32> = Vec::new();
    let mut fractional: Vec<V> = Vec::new();
    let mut i: usize = 0;
    while i < speeds.len()
        invariant
            i <= speeds@.len(),
            indexes@.len() == i,
            fractional@.len() == i,
            trace.len() == i + 1,
            trace[0] == time,
            trace[i as int] == now,
            forall|j: int|
                0 <= j < i ==> {
                    &&& call_ensures(C::index, (#[trigger] trace[j],), indexes@[j])
                    &&& call_ensures(C::fraction, (trace[j],), fractional@[j])
                    &&& advances(trace[j], speeds@[j], trace[j + 1])
                },
        decreases speeds@.len() - i,
    {
        let ghost pre = now;
        let index: u32 = now.index();
        indexes.push(index);
        let fraction = now.fraction();
        fractional.push(fraction);
        let speed = speeds[i];
        now = advance(now, speed);
        proof {
            assert(call_ensures(C::index, (pre,), index));
            assert(call_ensures(C::fraction, (pre,), fraction));
            assert(advances(pre, speed, now));
            let longer = trace.push(now);
            assert forall|j: int| 0 <= j < i + 1 implies {
                &&& call_ensures(C::index, (#[trigger] longer[j],), indexes@[j])
                &&& call_ensures(C::fraction, (longer[j],), fractional@[j])
                &&& advances(longer[j], speeds@[j], longer[j + 1])
            } by {
                assert(longer[j] == trace[j]);
                if j < i {
                    assert(longer[j + 1] == trace[j + 1]);
                }
            }
            trace = longer;
        }
        i += 1;
    }
    assert(is_moving(trace, speeds@, indexes@, fractional@));
    (now, indexes, fractional)
}

/// A generator that plays one sample.
pub struct SIMDMonoVoiceSampler<C, P, G> {
    pub grabber: G,
    pub pitch_gen: P,
    pub time: C,
    /// The position that belongs to the time.
    pub pos: u64,
}

impl<C, P, G> SIMDMonoVoiceSampler<C, P, G> {
    /// A generator at the start of its sample.
    pub fn new<V: Scalar>(grabber: G, pitch_gen: P) -> (sampler: Self) where
        C: PlayTime<V>,
        P: SIMDVoiceGenerator<Lane = V>,
        G: SIMDSampleGrabber<V>,

        ensures
            sampler.grabber == grabber,
            sampler.pitch_gen == pitch_gen,
            call_ensures(C::start, (), sampler.time),
            call_ensures(C::position, (sampler.time,), sampler.pos),
    {
        let time = C::start();
        let pos: u64 = time.position();
        SIMDMonoVoiceSampler { grabber, pitch_gen, time, pos }
    }
}

impl<V: Scalar, C: PlayTime<V>, P: SIMDVoiceGenerator<Lane = V>, G: SIMDSampleGrabber<V>> VoiceGeneratorBase for SIMDMonoVoiceSampler<
    C,
    P,
    G,
> {
    type Control = P::Control;

    open spec fn has_ended(&self) -> bool {
        self.grabber.over(self.pos)
    }

    open spec fn releases(pre: Self, rel_type: ReleaseType, post: Self) -> bool {
        &&& P::releases(pre.pitch_gen, rel_type, post.pitch_gen)
        &&& G::lets_go(pre.grabber, post.grabber)
        &&& post.time == pre.time
        &&& post.pos == pre.pos
    }

    open spec fn follows(pre: Self, control: Self::Control, post: Self) -> bool {
        &&& P::follows(pre.pitch_gen, control, post.pitch_gen)
        &&& post == SIMDMonoVoiceSampler { pitch_gen: post.pitch_gen, ..pre }
    }

    fn ended(&self) -> (ended: bool) {
        self.grabber.is_past_end(self.pos)
    }

    fn signal_release(&mut self, rel_type: ReleaseType) {
        self.pitch_gen.signal_release(rel_type);
        self.grabber.signal_release();
    }

    fn process_controls(&mut self, control: &Self::Control) {
        self.pitch_gen.process_controls(control);
    }
}

/// A path along a sample: the speeds, and the positions that they lead to.
pub ghost struct Path<V> {
    pub speeds: Seq<V>,
    pub indexes: Seq<u32>,
    pub fractional: Seq<V>,
}

impl<V: Scalar, C: PlayTime<V>, P: SIMDVoiceGenerator<Lane = V>, G: SIMDSampleGrabber<V>> SIMDVoiceGenerator for SIMDMonoVoiceSampler<
    C,
    P,
    G,
> {
    type Lane = V;

    open spec fn yields(pre: Self, values: Seq<V>, post: Self) -> bool {
        &&& call_ensures(C::position, (post.time,), post.pos)
        &&& exists|path: Path<V>|
            {
                &&& P::yields(pre.pitch_gen, path.speeds, post.pitch_gen)
                &&& #[trigger] moves(
                    pre.time,
                    path.speeds,
                    path.indexes,
                    path.fractional,
                    post.time,
                )
                &&& G::grabs(pre.grabber, path.indexes, path.fractional, values, post.grabber)
            }
    }

    fn next_sample(&mut self) -> (values: Vec<V>) {
        let speeds = self.pitch_gen.next_sample();
        let (time, indexes, fractional) = move_along(self.time, &speeds);
        self.time = time;
        self.pos = time.position();
        let values = self.grabber.get(&indexes, &fractional);
        proof {
            let path = Path {
                speeds: speeds@,
                indexes: indexes@,
                fractional: fractional@,
            };
            assert(moves(
                old(self).time,
                path.speeds,
                path.indexes,
                path.fractional,
                self.time,
            ));
        }
        values
    }
}

/// A generator that plays a sample for the left and one for the right.
pub struct SIMDStereoVoiceSampler<C, P, G> {
    pub grabber_left: G,
    pub grabber_right: G,
    pub pitch_gen: P,
    pub time: C,
    /// The position that belongs to the time.
    pub pos: u64,
}

impl<C, P, G> SIMDStereoVoiceSampler<C, P, G> {
    /// A generator at the start of its samples.
    pub fn new<V: Scalar>(grabber_left: G, grabber_right: G, pitch_gen: P) -> (sampler: Self) where
        C: PlayTime<V>,
        P: SIMDVoiceGenerator<Lane = V>,
        G: SIMDSampleGrabber<V>,

        ensures
            sampler.grabber_left == grabber_left,
            sampler.grabber_right == grabber_right,
            sampler.pitch_gen == pitch_gen,
            call_ensures(C::start, (), sampler.time),
            call_ensures(C::position, (sampler.time,), sampler.pos),
    {
        let time = C::start();
        let pos: u64 = time.position();
        SIMDStereoVoiceSampler { grabber_left, grabber_right, pitch_gen, time, pos }
    }
}

impl<V: Scalar, C: PlayTime<V>, P: SIMDVoiceGenerator<Lane = V>, G: SIMDSampleGrabber<V>> VoiceGeneratorBase for SIMDStereoVoiceSampler<
    C,
    P,
    G,
> {
    type Control = P::Control;

    open spec fn has_ended(&self) -> bool {
        self.grabber_left.over(self.pos) || self.grabber_right.over(self.pos)
    }

    open spec fn releases(pre: Self, rel_type: ReleaseType, post: Self) -> bool {
        &&& P::releases(pre.pitch_gen, rel_type, post.pitch_gen)
        &&& G::lets_go(pre.grabber_left, post.grabber_left)
        &&& G::lets_go(pre.grabber_right, post.grabber_right)
        &&& post.time == pre.time
        &&& post.pos == pre.pos
    }

    open spec fn follows(pre: Self, control: Self::Control, post: Self) -> bool {
        &&& P::follows(pre.pitch_gen, control, post.pitch_gen)
        &&& post == SIMDStereoVoiceSampler { pitch_gen: post.pitch_gen, ..pre }
    }

    fn ended(&self) -> (ended: bool) {
        self.grabber_left.is_past_end(self.pos) || self.grabber_right.is_past_end(self.pos)
    }

    fn signal_release(&mut self, rel_type: ReleaseType) {
        self.pitch_gen.signal_release(rel_type);
        self.grabber_left.signal_release();
        self.grabber_right.signal_release();
    }

    fn process_controls(&mut self, control: &Self::Control) {
        self.pitch_gen.process_controls(control);
    }
}

/// The left and the right values, in pairs.
pub open spec fn paired<V>(left: Seq<V>, right: Seq<V>) -> Seq<(V, V)> {
    Seq::new(left.len(), |i: int| (left[i], right[i]))
}

/// The left parts of pairs.
pub open spec fn lefts<V>(pairs: Seq<(V, V)>) -> Seq<V> {
    pairs.map_values(|pair: (V, V)| pair.0)
}

/// The right parts of pairs.
pub open spec fn rights<V>(pairs: Seq<(V, V)>) -> Seq<V> {
    pairs.map_values(|pair: (V, V)| pair.1)
}

/// Pairs left and right values.
fn pair_up<V: Scalar>(left: Vec<V>, right: Vec<V>) -> (pairs: Vec<(V, V)>)
    requires
        left@.len() == right@.len(),
    ensures
        pairs@.len() == left@.len(),
        lefts(pairs@) == left@,
        rights(pairs@) == right@,
{
    let mut pairs: Vec<(V, V)> = Vec::new();
    let mut i: usize = 0;
    while i < left.len()
        invariant
            i <= left@.len(),
            left@.len() == right@.len(),
            pairs@ == paired(left@, right@).take(i as int),
        decreases left@.len() - i,
    {
        pairs.push((left[i], right[i]));
        i += 1;
    }
    assert(lefts(pairs@) =~= left@);
    assert(rights(pairs@) =~= right@);
    pairs
}

impl<V: Scalar, C: PlayTime<V>, P: SIMDVoiceGenerator<Lane = V>, G: SIMDSampleGrabber<V>> SIMDVoiceGenerator for SIMDStereoVoiceSampler<
    C,
    P,
    G,
> {
    type Lane = (V, V);

    open spec fn yields(pre: Self, values: Seq<(V, V)>, post: Self) -> bool {
        &&& call_ensures(C::position, (post.time,), post.pos)
        &&& exists|path: Path<V>|
            {
                &&& P::yields(pre.pitch_gen, path.speeds, post.pitch_gen)
                &&& #[trigger] moves(
                    pre.time,
                    path.speeds,
                    path.indexes,
                    path.fractional,
                    post.time,
                )
                &&& G::grabs(
                    pre.grabber_left,
                    path.indexes,
                    path.fractional,
                    lefts(values),
                    post.grabber_left,
                )
                &&& G::grabs(
                    pre.grabber_right,
                    path.indexes,
                    path.fractional,
                    rights(values),
                    post.grabber_right,
                )
            }
    }

    fn next_sample(&mut self) -> (values: Vec<(V, V)>) {
        let speeds = self.pitch_gen.next_sample();
        let (time, indexes, fractional) = move_along(self.time, &speeds);
        self.time = time;
        self.pos = time.position();
        let left = self.grabber_left.get(&indexes, &fractional);
        let right = self.grabber_right.get(&indexes, &fractional);
        proof {
            let path = Path {
                speeds: speeds@,
                indexes: indexes@,
                fractional: fractional@,
            };
            assert(moves(
                old(self).time,
                path.speeds,
                path.indexes,
                path.fractional,
                self.time,
            ));
        }
        pair_up(left, right)
    }
}

/// Whether `value` stands at a place of the data, or is silence past its end.
pub open spec fn stands_at<V: Scalar>(data: Seq<V>, place: int, value: V) -> bool {
    if place < data.len() {
        value == data[place]
    } else {
        call_ensures(V::ratio, (0i64, 1i64), value)
    }
}

/// A sample that plays once is read from its offset on, place by place, and is over exactly where its
/// data ends. Reading and releasing it change nothing.
pub proof fn lemma_sample_plays_once<V: Scalar>(
    buffer: BufferSampler<V>,
    params: LoopParams,
    reader: SampleReaderNoLoop<V>,
    pos: u64,
    value: V,
    read: SampleReaderNoLoop<V>,
    released: SampleReaderNoLoop<V>,
)
    requires
        call_ensures(SampleReaderNoLoop::<V>::new, (buffer, params), reader),
        pos + params.offset <= u64::MAX,
        SampleReader::reads(reader, pos, value, read),
        SampleReader::lets_go(reader, released),
    ensures
        stands_at(buffer.data@, pos + params.offset, value),
        reader.over(pos) <==> pos + params.offset >= buffer.data@.len(),
        read == reader,
        released == reader,
{
}

/// A sample that repeats is read from its offset up to the end of its loop, and from there on the loop
/// comes round again and again: first from its start on, and then every value is the one that was
/// read a length of the loop before. It is never over, and a release does not change that.
pub proof fn lemma_sample_repeats<V: Scalar>(
    buffer: BufferSampler<V>,
    params: LoopParams,
    reader: SampleReaderLoop<V>,
    pos: u64,
    value: V,
    read: SampleReaderLoop<V>,
    later_value: V,
    later_read: SampleReaderLoop<V>,
    released: SampleReaderLoop<V>,
)
    requires
        params.start < params.end < buffer.data@.len(),
        call_ensures(SampleReaderLoop::<V>::new, (buffer, params), reader),
        pos + params.offset + (params.end - params.start) <= u64::MAX,
        SampleReader::reads(reader, pos, value, read),
        SampleReader::reads(
            reader,
            (pos + (params.end - params.start)) as u64,
            later_value,
            later_read,
        ),
        SampleReader::lets_go(reader, released),
    ensures
        ({
            let place = pos + params.offset;
            let length = params.end - params.start;
            &&& place <= params.end ==> value == buffer.data@[place]
            &&& params.end < place <= params.end + length ==> value == buffer.data@[params.start
                + place - params.end - 1]
            &&& place > params.end ==> later_value == value
        }),
        !reader.over(pos),
        read == reader,
        released == reader,
{
    let place = (pos + params.offset) as u64;
    let (start, end) = (params.start as u64, params.end as u64);
    lemma_wrapped_inside(place, start, end);
    if place > end {
        lemma_loop_repeats(place, start, end);
        if place <= end + (end - start) {
            vstd::arithmetic::div_mod::lemma_small_mod(
                (place - end - 1) as nat,
                (end - start) as nat,
            );
        }
    }
}

/// A sample that repeats until its note is released is read, until then, as one that repeats for ever,
/// and is not over. It keeps where its loop was read last; the release leaves that no earlier than
/// the start, and from there on the sample is counted, up to where its data ends.
pub proof fn lemma_sample_repeats_until_release<V: Scalar>(
    pre: SampleReaderLoopSustain<V>,
    pos: u64,
    value: V,
    read: SampleReaderLoopSustain<V>,
    released: SampleReaderLoopSustain<V>,
)
    requires
        pre.loop_start < pre.loop_end < pre.buffer.data@.len(),
        pos + pre.offset <= u64::MAX,
        pos + pre.last <= u64::MAX,
        SampleReader::reads(pre, pos, value, read),
        SampleReader::lets_go(pre, released),
    ensures
        ({
            let place = pos + pre.offset;
            let length = pre.loop_end - pre.loop_start;
            let loops = !pre.is_released && place > pre.loop_end;
            &&& !pre.is_released && place <= pre.loop_end ==> value == pre.buffer.data@[place]
            &&& loops && place <= pre.loop_end + length ==> value
                == pre.buffer.data@[pre.loop_start + place - pre.loop_end - 1]
            &&& loops ==> exists|i: int|
                pre.loop_start <= i < pre.loop_end && value == #[trigger] pre.buffer.data@[i]
            &&& pre.is_released && place >= pre.last ==> stands_at(
                pre.buffer.data@,
                place - pre.last,
                value,
            )
            &&& read == SampleReaderLoopSustain {
                last: if loops {
                    pos
                } else {
                    pre.last
                },
                ..pre
            }
        }),
        !pre.is_released ==> !pre.over(pos),
        pre.is_released && pre.last >= pre.offset ==> (pre.over(pos) <==> pos + pre.last
            - pre.offset >= pre.buffer.data@.len()),
        pre.is_released ==> released == pre,
        !pre.is_released ==> released == (SampleReaderLoopSustain {
            is_released: true,
            last: if pre.last < pre.offset {
                pre.offset
            } else {
                pre.last
            },
            ..pre
        }),
{
    let place = (pos + pre.offset) as u64;
    let (start, end) = (pre.loop_start, pre.loop_end);
    lemma_wrapped_inside(place, start, end);
    if !pre.is_released && place > end {
        vstd::arithmetic::div_mod::lemma_mod_bound(place - end - 1, end - start);
        if place <= end + (end - start) {
            vstd::arithmetic::div_mod::lemma_small_mod(
                (place - end - 1) as nat,
                (end - start) as nat,
            );
        }
        assert(value == pre.buffer.data@[wrapped(place, start, end)]);
    }
}

/// Whether `value` lies a fraction of the way from `first` to `second`:
/// `first * (1 - fraction) + second * fraction`.
pub open spec fn lies_between<V: Scalar>(first: V, second: V, fraction: V, value: V) -> bool {
    exists|one: V, rest: V, a: V, b: V|
        {
            &&& call_ensures(V::ratio, (1i64, 1i64), one)
            &&& #[trigger] call_ensures(V::minus, (one, fraction), rest)
            &&& #[trigger] call_ensures(V::times, (first, rest), a)
            &&& #[trigger] call_ensures(V::times, (second, fraction), b)
            &&& call_ensures(V::plus, (a, b), value)
        }
}

proof fn lemma_lies_between<V: Scalar>(first: V, second: V, fraction: V, value: V)
    requires
        is_blended(first, second, fraction, value),
    ensures
        lies_between(first, second, fraction, value),
{
    let (one, rest, a, b) = choose|one: V, rest: V, a: V, b: V|
        {
            &&& scalar::is_ratio(1, 1, one)
            &&& #[trigger] scalar::is_difference(one, fraction, rest)
            &&& #[trigger] scalar::is_product(first, rest, a)
            &&& #[trigger] scalar::is_product(second, fraction, b)
            &&& scalar::is_sum(a, b, value)
        };
    assert(call_ensures(V::minus, (one, fraction), rest));
    assert(call_ensures(V::times, (first, rest), a));
    assert(call_ensures(V::times, (second, fraction), b));
}

/// Whether a value lies between what a reader gives at `index` and what it gives at the next place, a
/// fraction of the way along.
pub open spec fn reads_between<V: Scalar, R: SampleReader<Value = V>>(
    pre: R,
    index: u32,
    fraction: V,
    value: V,
    post: R,
) -> bool {
    exists|first: V, mid: R, second: V|
        {
            &&& #[trigger] R::reads(pre, index as u64, first, mid)
            &&& #[trigger] R::reads(mid, (index + 1) as u64, second, post)
            &&& lies_between(first, second, fraction, value)
        }
}

/// Whether a reader goes through `trace` and gives the values at the indexes, each with its fraction.
pub open spec fn reads_all_between<V: Scalar, R: SampleReader<Value = V>>(
    trace: Seq<R>,
    indexes: Seq<u32>,
    fractional: Seq<V>,
    values: Seq<V>,
) -> bool {
    &&& values.len() == indexes.len()
    &&& trace.len() == indexes.len() + 1
    &&& forall|i: int|
        0 <= i < indexes.len() ==> reads_between(
            #[trigger] trace[i],
            indexes[i],
            fractional[i],
            values[i],
            trace[i + 1],
        )
}

proof fn lemma_reads_between<V: Scalar, R: SampleReader<Value = V>>(
    pre: R,
    index: u32,
    fraction: V,
    value: V,
    post: R,
)
    requires
        interpolates(pre, index, fraction, value, post),
    ensures
        reads_between(pre, index, fraction, value, post),
{
    let (first, mid, second) = choose|first: V, mid: R, second: V|
        is_between(pre, index, fraction, first, mid, second, value, post);
    lemma_lies_between(first, second, fraction, value);
    assert(R::reads(pre, index as u64, first, mid));
    assert(R::reads(mid, (index + 1) as u64, second, post));
}

/// Interpolation reads each value between its place and the next one, a fraction of the way along, and in
/// the order of the places. The grabber is over where its reader is, and is released with it.
pub proof fn lemma_interpolates_between_neighbours<V: Scalar, R: SampleReader<Value = V>>(
    pre: SIMDLinearSampleGrabber<R>,
    indexes: Seq<u32>,
    fractional: Seq<V>,
    values: Seq<V>,
    post: SIMDLinearSampleGrabber<R>,
    released: SIMDLinearSampleGrabber<R>,
    pos: u64,
)
    requires
        SIMDSampleGrabber::grabs(pre, indexes, fractional, values, post),
        SIMDSampleGrabber::<V>::lets_go(pre, released),
    ensures
        exists|trace: Seq<R>| #[trigger]
            reads_all_between(trace, indexes, fractional, values) && trace[0]
                == pre.sampler_reader && trace.last() == post.sampler_reader,
        R::lets_go(pre.sampler_reader, released.sampler_reader),
        SIMDSampleGrabber::<V>::over(&pre, pos) == pre.sampler_reader.over(pos),
{
    let trace = choose|trace: Seq<R>| #[trigger]
        is_interpolating(trace, indexes, fractional, values) && trace[0] == pre.sampler_reader
            && trace.last() == post.sampler_reader;
    assert forall|i: int| 0 <= i < indexes.len() implies reads_between(
        #[trigger] trace[i],
        indexes[i],
        fractional[i],
        values[i],
        trace[i + 1],
    ) by {
        lemma_reads_between(trace[i], indexes[i], fractional[i], values[i], trace[i + 1]);
    }
    assert(reads_all_between(trace, indexes, fractional, values));
}

/// Whether `value` lies between the values at a place of the data and the next one.
pub open spec fn stands_between<V: Scalar>(
    data: Seq<V>,
    place: int,
    fraction: V,
    value: V,
) -> bool {
    exists|first: V, second: V|
        {
            &&& #[trigger] stands_at(data, place, first)
            &&& #[trigger] stands_at(data, place + 1, second)
            &&& lies_between(first, second, fraction, value)
        }
}

/// The interpolated values of a sample that plays once lie between neighbours of its data.
pub proof fn lemma_unlooped_interpolation<V: Scalar>(
    pre: SIMDLinearSampleGrabber<SampleReaderNoLoop<V>>,
    indexes: Seq<u32>,
    fractional: Seq<V>,
    values: Seq<V>,
    post: SIMDLinearSampleGrabber<SampleReaderNoLoop<V>>,
    i: int,
)
    requires
        SIMDSampleGrabber::grabs(pre, indexes, fractional, values, post),
        pre.sampler_reader.offset <= u32::MAX,
        0 <= i < indexes.len(),
    ensures
        values.len() == indexes.len(),
        post == pre,
        stands_between(
            pre.sampler_reader.buffer.data@,
            indexes[i] + pre.sampler_reader.offset,
            fractional[i],
            values[i],
        ),
{
    let trace = choose|trace: Seq<SampleReaderNoLoop<V>>| #[trigger]
        is_interpolating(trace, indexes, fractional, values) && trace[0] == pre.sampler_reader
            && trace.last() == post.sampler_reader;
    lemma_unlooped_trace(trace, indexes, fractional, values, i);
    lemma_unlooped_trace(trace, indexes, fractional, values, indexes.len() as int);
    let reader = pre.sampler_reader;
    assert(interpolates(trace[i], indexes[i], fractional[i], values[i], trace[i + 1]));
    lemma_unlooped_between(trace[i], indexes[i], fractional[i], values[i], trace[i + 1]);
}

proof fn lemma_unlooped_between<V: Scalar>(
    pre: SampleReaderNoLoop<V>,
    index: u32,
    fraction: V,
    value: V,
    post: SampleReaderNoLoop<V>,
)
    requires
        interpolates(pre, index, fraction, value, post),
    ensures
        post == pre,
        pre.offset <= u32::MAX ==> stands_between(
            pre.buffer.data@,
            index + pre.offset,
            fraction,
            value,
        ),
{
    let (first, mid, second) = choose|first: V, mid: SampleReaderNoLoop<V>, second: V|
        is_between(pre, index, fraction, first, mid, second, value, post);
    lemma_lies_between(first, second, fraction, value);
    if pre.offset <= u32::MAX {
        assert(stands_at(pre.buffer.data@, index + pre.offset, first));
        assert(stands_at(pre.buffer.data@, index + pre.offset + 1, second));
    }
}

proof fn lemma_unlooped_trace<V: Scalar>(
    trace: Seq<SampleReaderNoLoop<V>>,
    indexes: Seq<u32>,
    fractional: Seq<V>,
    values: Seq<V>,
    k: int,
)
    requires
        is_interpolating(trace, indexes, fractional, values),
        0 <= k < trace.len(),
    ensures
        trace[k] == trace[0],
    decreases k,
{
    if k > 0 {
        lemma_unlooped_trace(trace, indexes, fractional, values, k - 1);
        assert(interpolates(
            trace[k - 1],
            indexes[k - 1],
            fractional[k - 1],
            values[k - 1],
            trace[k - 1 + 1],
        ));
        lemma_unlooped_between(
            trace[k - 1],
            indexes[k - 1],
            fractional[k - 1],
            values[k - 1],
            trace[k],
        );
    }
}

/// Whether `times` are the times at which the values are read: each is one step after the one before, of
/// the size of the speed there or a ten thousandth, whichever is more.
pub open spec fn is_journey<V: Scalar, C: PlayTime<V>>(
    times: Seq<C>,
    speeds: Seq<V>,
    indexes: Seq<u32>,
    fractional: Seq<V>,
) -> bool {
    &&& times.len() == speeds.len() + 1
    &&& indexes.len() == speeds.len()
    &&& fractional.len() == speeds.len()
    &&& forall|i: int|
        0 <= i < speeds.len() ==> {
            &&& call_ensures(C::index, (#[trigger] times[i],), indexes[i])
            &&& call_ensures(C::fraction, (times[i],), fractional[i])
            &&& is_step(times[i], speeds[i], times[i + 1])
        }
}

/// Whether `to` is one step after `from`.
pub open spec fn is_step<V: Scalar, C: PlayTime<V>>(from: C, speed: V, to: C) -> bool {
    exists|size: V, least: V, pace: V|
        {
            &&& #[trigger] call_ensures(V::magnitude, (speed,), size)
            &&& call_ensures(V::ratio, (1i64, 10000i64), least)
            &&& #[trigger] call_ensures(V::highest, (size, least), pace)
            &&& call_ensures(C::advanced, (from, pace), to)
        }
}

proof fn lemma_journey<V: Scalar, C: PlayTime<V>>(
    times: Seq<C>,
    speeds: Seq<V>,
    indexes: Seq<u32>,
    fractional: Seq<V>,
)
    requires
        is_moving(times, speeds, indexes, fractional),
    ensures
        is_journey(times, speeds, indexes, fractional),
{
    assert forall|i: int| 0 <= i < speeds.len() implies {
        &&& call_ensures(C::index, (#[trigger] times[i],), indexes[i])
        &&& call_ensures(C::fraction, (times[i],), fractional[i])
        &&& is_step(times[i], speeds[i], times[i + 1])
    } by {
        let (size, least, pace) = choose|size: V, least: V, pace: V| #[trigger]
            advances_by(times[i], speeds[i], times[i + 1], size, least, pace);
        assert(call_ensures(V::magnitude, (speeds[i],), size));
        assert(call_ensures(V::highest, (size, least), pace));
    }
}

/// A mono sampler moves along its sample at the speed that its pitch gives, and reads the sample where it
/// is. It starts at the start, and is over where its sample is.
pub proof fn lemma_mono_sampler_moves<
    V: Scalar,
    C: PlayTime<V>,
    P: SIMDVoiceGenerator<Lane = V>,
    G: SIMDSampleGrabber<V>,
>(
    pre: SIMDMonoVoiceSampler<C, P, G>,
    values: Seq<V>,
    post: SIMDMonoVoiceSampler<C, P, G>,
)
    requires
        SIMDMonoVoiceSampler::yields(pre, values, post),
    ensures
        exists|times: Seq<C>, speeds: Seq<V>, indexes: Seq<u32>, fractional: Seq<V>|
            {
                &&& #[trigger] is_journey(times, speeds, indexes, fractional)
                &&& times[0] == pre.time && times.last() == post.time
                &&& P::yields(pre.pitch_gen, speeds, post.pitch_gen)
                &&& G::grabs(pre.grabber, indexes, fractional, values, post.grabber)
            },
        call_ensures(C::position, (post.time,), post.pos),
        pre.has_ended() == pre.grabber.over(pre.pos),
{
    let path = choose|path: Path<V>|
        {
            &&& P::yields(pre.pitch_gen, path.speeds, post.pitch_gen)
            &&& #[trigger] moves(pre.time, path.speeds, path.indexes, path.fractional, post.time)
            &&& G::grabs(pre.grabber, path.indexes, path.fractional, values, post.grabber)
        };
    let times = choose|trace: Seq<C>| #[trigger]
        is_moving(trace, path.speeds, path.indexes, path.fractional) && trace[0] == pre.time
            && trace.last() == post.time;
    lemma_journey(times, path.speeds, path.indexes, path.fractional);
}

/// Whether `side` holds the left parts of pairs, or the right ones.
pub open spec fn is_side<V>(pairs: Seq<(V, V)>, left: bool, side: Seq<V>) -> bool {
    &&& side.len() == pairs.len()
    &&& forall|i: int|
        0 <= i < pairs.len() ==> #[trigger] side[i] == if left {
            pairs[i].0
        } else {
            pairs[i].1
        }
}

/// A stereo sampler moves along both of its samples at once, at the speed that its pitch gives. The left
/// parts of what it gives are read from the left sample, the right parts from the right one, at the
/// same places. It is over where either sample is.
pub proof fn lemma_stereo_sampler_moves<
    V: Scalar,
    C: PlayTime<V>,
    P: SIMDVoiceGenerator<Lane = V>,
    G: SIMDSampleGrabber<V>,
>(
    pre: SIMDStereoVoiceSampler<C, P, G>,
    values: Seq<(V, V)>,
    post: SIMDStereoVoiceSampler<C, P, G>,
)
    requires
        SIMDStereoVoiceSampler::yields(pre, values, post),
    ensures
        exists|
            times: Seq<C>,
            speeds: Seq<V>,
            indexes: Seq<u32>,
            fractional: Seq<V>,
            left: Seq<V>,
            right: Seq<V>,
        |
            {
                &&& #[trigger] is_journey(times, speeds, indexes, fractional)
                &&& times[0] == pre.time && times.last() == post.time
                &&& P::yields(pre.pitch_gen, speeds, post.pitch_gen)
                &&& #[trigger] is_side(values, true, left)
                &&& #[trigger] is_side(values, false, right)
                &&& G::grabs(pre.grabber_left, indexes, fractional, left, post.grabber_left)
                &&& G::grabs(pre.grabber_right, indexes, fractional, right, post.grabber_right)
            },
        call_ensures(C::position, (post.time,), post.pos),
        pre.has_ended() == (pre.grabber_left.over(pre.pos) || pre.grabber_right.over(pre.pos)),
{
    let path = choose|path: Path<V>|
        {
            &&& P::yields(pre.pitch_gen, path.speeds, post.pitch_gen)
            &&& #[trigger] moves(pre.time, path.speeds, path.indexes, path.fractional, post.time)
            &&& G::grabs(
                pre.grabber_left,
                path.indexes,
                path.fractional,
                lefts(values),
                post.grabber_left,
            )
            &&& G::grabs(
                pre.grabber_right,
                path.indexes,
                path.fractional,
                rights(values),
                post.grabber_right,
            )
        };
    let times = choose|trace: Seq<C>| #[trigger]
        is_moving(trace, path.speeds, path.indexes, path.fractional) && trace[0] == pre.time
            && trace.last() == post.time;
    lemma_journey(times, path.speeds, path.indexes, path.fractional);
    assert(is_side(values, true, lefts(values)));
    assert(is_side(values, false, rights(values)));
}

/// A release reaches the pitch and every sample of a sampler, and the controls reach the pitch alone;
/// neither moves it.
pub proof fn lemma_samplers_hand_on<
    V: Scalar,
    C: PlayTime<V>,
    P: SIMDVoiceGenerator<Lane = V>,
    G: SIMDSampleGrabber<V>,
>(
    mono: SIMDMonoVoiceSampler<C, P, G>,
    mono_released: SIMDMonoVoiceSampler<C, P, G>,
    mono_steered: SIMDMonoVoiceSampler<C, P, G>,
    stereo: SIMDStereoVoiceSampler<C, P, G>,
    stereo_released: SIMDStereoVoiceSampler<C, P, G>,
    stereo_steered: SIMDStereoVoiceSampler<C, P, G>,
    rel_type: ReleaseType,
    control: P::Control,
)
    requires
        SIMDMonoVoiceSampler::releases(mono, rel_type, mono_released),
        SIMDMonoVoiceSampler::follows(mono, control, mono_steered),
        SIMDStereoVoiceSampler::releases(stereo, rel_type, stereo_released),
        SIMDStereoVoiceSampler::follows(stereo, control, stereo_steered),
    ensures
        P::releases(mono.pitch_gen, rel_type, mono_released.pitch_gen),
        G::lets_go(mono.grabber, mono_released.grabber),
        mono_released.time == mono.time && mono_released.pos == mono.pos,
        P::follows(mono.pitch_gen, control, mono_steered.pitch_gen),
        mono_steered.grabber == mono.grabber && mono_steered.time == mono.time
            && mono_steered.pos == mono.pos,
        P::releases(stereo.pitch_gen, rel_type, stereo_released.pitch_gen),
        G::lets_go(stereo.grabber_left, stereo_released.grabber_left),
        G::lets_go(stereo.grabber_right, stereo_released.grabber_right),
        stereo_released.time == stereo.time && stereo_released.pos == stereo.pos,
        P::follows(stereo.pitch_gen, control, stereo_steered.pitch_gen),
        stereo_steered.grabber_left == stereo.grabber_left && stereo_steered.grabber_right
            == stereo.grabber_right && stereo_steered.time == stereo.time && stereo_steered.pos
            == stereo.pos,
{
}

/// The data of a sample is read where it is asked for, and is silent behind its end.
pub proof fn lemma_sample_data<V: Scalar>(
    data: Arc<Vec<V>>,
    sampler: BufferSampler<V>,
    pos: u64,
    value: V,
    length: usize,
)
    requires
        call_ensures(BufferSampler::<V>::new, (data,), sampler),
        call_ensures(BufferSampler::<V>::get, (&sampler, pos), value),
        call_ensures(BufferSampler::<V>::length, (&sampler,), length),
    ensures
        pos < data@.len() ==> value == data@[pos as int],
        pos >= data@.len() ==> call_ensures(V::ratio, (0i64, 1i64), value),
        length == data@.len(),
{
}

/// A sample that repeats until the release starts out neither released nor read, with the loop that it was
/// given; a grabber reads the sample that it was given.
pub proof fn lemma_new_readers<V: Scalar, R: SampleReader<Value = V>>(
    buffer: BufferSampler<V>,
    loop_params: LoopParams,
    sustained: SampleReaderLoopSustain<V>,
    reader: R,
    grabber: SIMDLinearSampleGrabber<R>,
)
    requires
        call_ensures(SampleReaderLoopSustain::<V>::new, (buffer, loop_params), sustained),
        call_ensures(SIMDLinearSampleGrabber::<R>::new, (reader,), grabber),
    ensures
        sustained.buffer == buffer,
        sustained.offset == loop_params.offset,
        sustained.loop_start == loop_params.start,
        sustained.loop_end == loop_params.end,
        sustained.last == 0,
        !sustained.is_released,
        grabber.sampler_reader == reader,
{
}

/// A generator begins at the start of its samples, with the samples and the pitch that it was given: the
/// left one on the left and the right one on the right.
pub proof fn lemma_new_samplers<
    V: Scalar,
    C: PlayTime<V>,
    P: SIMDVoiceGenerator<Lane = V>,
    G: SIMDSampleGrabber<V>,
>(
    left: G,
    right: G,
    pitch: P,
    mono: SIMDMonoVoiceSampler<C, P, G>,
    stereo: SIMDStereoVoiceSampler<C, P, G>,
)
    requires
        call_ensures(SIMDMonoVoiceSampler::<C, P, G>::new::<V>, (left, pitch), mono),
        call_ensures(SIMDStereoVoiceSampler::<C, P, G>::new::<V>, (left, right, pitch), stereo),
    ensures
        mono.grabber == left,
        mono.pitch_gen == pitch,
        call_ensures(C::start, (), mono.time),
        call_ensures(C::position, (mono.time,), mono.pos),
        stereo.grabber_left == left,
        stereo.grabber_right == right,
        stereo.pitch_gen == pitch,
        call_ensures(C::start, (), stereo.time),
        call_ensures(C::position, (stereo.time,), stereo.pos),
{
}

} // verus!
