//! The time within a stage of an envelope.

use crate::scalar;
use crate::scalar::Scalar;
use vstd::prelude::*;

verus! {

/// Whether `factor` is how far `time` samples are on the way to `end`.
pub open spec fn is_progress<V: Scalar>(time: int, end: u32, factor: V) -> bool {
    exists|now: V, all: V| #[trigger] is_progress_by(time, end, factor, now, all)
}

/// As above, by way of the values in between.
pub open spec fn is_progress_by<V: Scalar>(
    time: int,
    end: u32,
    factor: V,
    now: V,
    all: V,
) -> bool {
    &&& scalar::is_ratio(time, 1, now)
    &&& scalar::is_ratio(end as int, 1, all)
    &&& scalar::is_quotient(now, all, factor)
}

/// How far `time` samples are on the way to `end`.
pub(crate) fn progress<V: Scalar>(time: u32, end: u32) -> (factor: V)
    ensures
        is_progress(time as int, end, factor),
{
    let now: V = scalar::ratio(time as i64, 1);
    let all: V = scalar::ratio(end as i64, 1);
    let factor = scalar::quotient(now, all);
    assert(is_progress_by(time as int, end, factor, now, all));
    factor
}

/// The time within a stage, in samples, for as many lanes as are computed together. The lanes stand
/// for consecutive samples; the first one is at `time`.
#[derive(Copy, Clone, Debug, PartialEq, Eq, Structural)]
pub struct StageTime {
    pub time: u32,
    pub end: u32,
    pub width: u32,
}

impl StageTime {
    /// The position of a lane.
    pub open spec fn lane(self, i: int) -> int {
        self.time + i
    }

    /// Whether the last lane is at or past the end.
    pub open spec fn ending(self) -> bool {
        self.lane(self.width - 1) >= self.end
    }

    /// Whether the end lies within the lanes.
    pub open spec fn intersecting(self) -> bool {
        self.ending() && self.lane(0) < self.end
    }

    /// The time `start_offset` of a stage that lasts until `stage_end_time`.
    pub fn new(start_offset: u32, stage_end_time: u32, width: u32) -> (time: Self)
        ensures
            time == (StageTime { time: start_offset, end: stage_end_time, width }),
    {
        StageTime { time: start_offset, end: stage_end_time, width }
    }

    /// Moves every lane on by the number of lanes.
    pub fn increment(&mut self)
        requires
            old(self).time + old(self).width <= u32::MAX,
        ensures
            *final(self) == (StageTime {
                time: (old(self).time + old(self).width) as u32,
                ..*old(self)
            }),
    {
        self.time += self.width;
    }

    /// Moves every lane on.
    pub fn increment_by(&mut self, by: u32)
        requires
            old(self).time + by <= u32::MAX,
        ensures
            *final(self) == (StageTime { time: (old(self).time + by) as u32, ..*old(self) }),
    {
        self.time += by;
    }

    /// Is the last lane past the end?
    pub fn is_ending(&self) -> (ending: bool)
        requires
            self.width > 0,
        ensures
            ending == self.ending(),
    {
        self.time as u64 + (self.width as u64 - 1) >= self.end as u64
    }

    /// Are the lanes intersecting the end? Or have they completely passed the end
    pub fn is_intersecting_end(&self) -> (intersecting: bool)
        requires
            self.width > 0,
        ensures
            intersecting == self.intersecting(),
    {
        self.is_ending() && self.time < self.end
    }

    /// The position of the first lane.
    pub fn simd_array_start(&self) -> (position: u32)
        ensures
            position == self.lane(0),
    {
        self.time
    }

    /// The position of the last lane.
    pub fn simd_array_end(&self) -> (position: u32)
        requires
            self.width > 0,
            self.time + self.width <= u32::MAX,
        ensures
            position == self.lane(self.width - 1),
    {
        self.time + (self.width - 1)
    }

    /// The positions of the lanes.
    pub fn raw_simd_array(&self) -> (positions: Vec<u32>)
        requires
            self.time + self.width <= u32::MAX,
        ensures
            positions@.len() == self.width,
            forall|i: int| 0 <= i < self.width ==> #[trigger] positions@[i] == self.lane(i),
    {
        let mut positions: Vec<u32> = Vec::new();
        let mut i: u32 = 0;
        while i < self.width
            invariant
                i <= self.width,
                self.time + self.width <= u32::MAX,
                positions@.len() == i,
                forall|j: int| 0 <= j < i ==> #[trigger] positions@[j] == self.lane(j),
            decreases self.width - i,
        {
            positions.push(self.time + i);
            i += 1;
        }
        positions
    }

    /// How far the lanes are on the way to the end.
    pub fn progress_simd_array<V: Scalar>(&self) -> (factors: Vec<V>)
        requires
            self.time + self.width <= u32::MAX,
        ensures
            factors@.len() == self.width,
            forall|i: int|
                0 <= i < self.width ==> is_progress(self.lane(i), self.end, #[trigger] factors@[i]),
    {
        let mut factors: Vec<V> = Vec::new();
        let mut i: u32 = 0;
        while i < self.width
            invariant
                i <= self.width,
                self.time + self.width <= u32::MAX,
                factors@.len() == i,
                forall|j: int|
                    0 <= j < i ==> is_progress(self.lane(j), self.end, #[trigger] factors@[j]),
            decreases self.width - i,
        {
            factors.push(progress(self.time + i, self.end));
            i += 1;
        }
        factors
    }
}

/// The lanes stand for samples that follow each other, starting at the time; a stage is over for them
/// once the last lane has reached the end, and they straddle the end while the first one has not.
pub proof fn lemma_lanes_follow(
    time: StageTime,
    positions: Vec<u32>,
    ending: bool,
    intersecting: bool,
    first: u32,
    last: u32,
)
    requires
        time.width > 0,
        call_ensures(StageTime::raw_simd_array, (&time,), positions),
        call_ensures(StageTime::is_ending, (&time,), ending),
        call_ensures(StageTime::is_intersecting_end, (&time,), intersecting),
        call_ensures(StageTime::simd_array_start, (&time,), first),
        call_ensures(StageTime::simd_array_end, (&time,), last),
    ensures
        positions@.len() == time.width,
        positions@[0] == time.time,
        forall|i: int|
            0 < i < time.width ==> #[trigger] positions@[i] == positions@[i - 1] + 1,
        first == positions@[0],
        last == positions@[time.width - 1],
        ending <==> positions@[time.width - 1] >= time.end,
        intersecting <==> positions@[0] < time.end && positions@[time.width - 1] >= time.end,
{
    assert forall|i: int| 0 < i < time.width implies #[trigger] positions@[i] == positions@[i - 1]
        + 1 by {
        assert(positions@[i] == time.lane(i));
        assert(positions@[i - 1] == time.lane(i - 1));
    }
    assert(positions@[0] == time.lane(0));
    assert(positions@[time.width - 1] == time.lane(time.width - 1));
}

/// Whether `factor` is a position over the end.
pub open spec fn is_way_to<V: Scalar>(position: int, end: u32, factor: V) -> bool {
    exists|now: V, all: V|
        #![trigger call_ensures(V::over, (now, all), factor)]
        call_ensures(V::ratio, (position as i64, 1), now) && call_ensures(
            V::ratio,
            (end as i64, 1),
            all,
        ) && call_ensures(V::over, (now, all), factor)
}

/// Each lane is as far on the way to the end as its position says.
pub proof fn lemma_lanes_progress<V: Scalar>(time: StageTime, factors: Vec<V>)
    requires
        call_ensures(StageTime::progress_simd_array::<V>, (&time,), factors),
    ensures
        factors@.len() == time.width,
        forall|i: int|
            0 <= i < time.width ==> is_way_to(time.time + i, time.end, #[trigger] factors@[i]),
{
    assert forall|i: int| 0 <= i < time.width implies is_way_to(
        time.time + i,
        time.end,
        #[trigger] factors@[i],
    ) by {
        let position = time.lane(i);
        let (now, all) = choose|now: V, all: V| #[trigger]
            is_progress_by(position, time.end, factors@[i], now, all);
        assert(call_ensures(V::over, (now, all), factors@[i]));
    }
}

/// Time moves on by all lanes together, or by what is asked for; the end and the lanes stay.
pub proof fn lemma_time_moves_on(
    start: u32,
    end: u32,
    width: u32,
    fresh: StageTime,
    time: &mut StageTime,
    other: &mut StageTime,
    by: u32,
)
    requires
        call_ensures(StageTime::new, (start, end, width), fresh),
        call_ensures(StageTime::increment, (time,), ()),
        call_ensures(StageTime::increment_by, (other, by), ()),
        old(time).time + old(time).width <= u32::MAX,
        old(other).time + by <= u32::MAX,
    ensures
        fresh.time == start,
        fresh.end == end,
        fresh.width == width,
        final(time).time == old(time).time + old(time).width,
        final(time).end == old(time).end,
        final(time).width == old(time).width,
        final(other).time == old(other).time + by,
        final(other).end == old(other).end,
        final(other).width == old(other).width,
{
}

} // verus!
