//! The curves between two amplitudes.

use crate::scalar;
use crate::scalar::Scalar;
use vstd::prelude::*;

verus! {

/// The shape of a ramp between two amplitudes.
#[derive(Copy, Clone, Debug, PartialEq, Eq, Structural)]
pub enum RampCurve {
    /// A straight line in amplitude units.
    Straight,
    /// Falls fast and settles late.
    Concave,
    /// Rises late and ends fast.
    Convex,
}

/// Whether `power` is the eighth power of `value`, by squaring.
pub open spec fn is_eighth<V: Scalar>(value: V, power: V) -> bool {
    exists|second: V, fourth: V| #[trigger] is_eighth_by(value, power, second, fourth)
}

/// As above, by way of the lower powers.
pub open spec fn is_eighth_by<V: Scalar>(value: V, power: V, second: V, fourth: V) -> bool {
    &&& scalar::is_product(value, value, second)
    &&& scalar::is_product(second, second, fourth)
    &&& scalar::is_product(fourth, fourth, power)
}

fn eighth<V: Scalar>(value: V) -> (power: V)
    ensures
        is_eighth(value, power),
{
    let second = scalar::product(value, value);
    let fourth = scalar::product(second, second);
    let power = scalar::product(fourth, fourth);
    assert(is_eighth_by(value, power, second, fourth));
    power
}

/// A straight line: `start + (end - start) * factor`.
#[derive(Copy, Clone)]
pub struct SIMDLerper<V> {
    pub start: V,
    /// `end - start`
    pub length: V,
}

impl<V: Scalar> SIMDLerper<V> {
    /// Whether the line goes from `start` to `end`.
    pub open spec fn is_between(self, start: V, end: V) -> bool {
        self.start == start && scalar::is_difference(end, start, self.length)
    }

    /// Whether the line is at `value` where a fraction `factor` of the way is done.
    pub open spec fn lerps(self, factor: V, value: V) -> bool {
        exists|part: V|
            scalar::is_product(self.length, factor, part) && #[trigger] scalar::is_sum(
                self.start,
                part,
                value,
            )
    }

    /// The line from `start` to `end`.
    pub fn new(start: V, end: V) -> (lerper: Self)
        ensures
            lerper.is_between(start, end),
    {
        SIMDLerper { start, length: scalar::difference(end, start) }
    }

    /// The value where a fraction `factor` of the way is done.
    pub fn lerp(&self, factor: V) -> (value: V)
        ensures
            self.lerps(factor, value),
    {
        let part = scalar::product(self.length, factor);
        scalar::sum(self.start, part)
    }

    /// The values of several fractions.
    pub fn lerp_simd(&self, factors: &Vec<V>) -> (values: Vec<V>)
        ensures
            values@.len() == factors@.len(),
            forall|i: int|
                0 <= i < values@.len() ==> self.lerps(factors@[i], #[trigger] values@[i]),
    {
        let mut values: Vec<V> = Vec::new();
        let mut i: usize = 0;
        while i < factors.len()
            invariant
                i <= factors@.len(),
                values@.len() == i,
                forall|j: int| 0 <= j < i ==> self.lerps(factors@[j], #[trigger] values@[j]),
            decreases factors@.len() - i,
        {
            values.push(self.lerp(factors[i]));
            i += 1;
        }
        values
    }
}

/// A curve that falls fast and settles late: `(start - end) * (1 - factor)^8 + end`.
#[derive(Copy, Clone)]
pub struct SIMDLerperConcave<V> {
    /// `start - end`
    pub length: V,
    pub end: V,
}

impl<V: Scalar> SIMDLerperConcave<V> {
    /// Whether the curve goes from `start` to `end`.
    pub open spec fn is_between(self, start: V, end: V) -> bool {
        self.end == end && scalar::is_difference(start, end, self.length)
    }

    /// Whether the curve is at `value` where a fraction `factor` of the way is done.
    pub open spec fn lerps(self, factor: V, value: V) -> bool {
        exists|one: V, left: V, power: V, part: V| #[trigger]
            self.lerps_by(factor, value, one, left, power, part)
    }

    /// As above, by way of the values in between.
    pub open spec fn lerps_by(
        self,
        factor: V,
        value: V,
        one: V,
        left: V,
        power: V,
        part: V,
    ) -> bool {
        &&& scalar::is_ratio(1, 1, one)
        &&& scalar::is_difference(one, factor, left)
        &&& is_eighth(left, power)
        &&& scalar::is_product(self.length, power, part)
        &&& scalar::is_sum(part, self.end, value)
    }

    /// The curve from `start` to `end`.
    pub fn new(start: V, end: V) -> (lerper: Self)
        ensures
            lerper.is_between(start, end),
    {
        SIMDLerperConcave { length: scalar::difference(start, end), end }
    }

    /// The value where a fraction `factor` of the way is done.
    pub fn lerp(&self, factor: V) -> (value: V)
        ensures
            self.lerps(factor, value),
    {
        let one: V = scalar::ratio(1, 1);
        let left = scalar::difference(one, factor);
        let power = eighth(left);
        let part = scalar::product(self.length, power);
        let value = scalar::sum(part, self.end);
        assert(self.lerps_by(factor, value, one, left, power, part));
        value
    }

    /// The values of several fractions.
    pub fn lerp_simd(&self, factors: &Vec<V>) -> (values: Vec<V>)
        ensures
            values@.len() == factors@.len(),
            forall|i: int|
                0 <= i < values@.len() ==> self.lerps(factors@[i], #[trigger] values@[i]),
    {
        let mut values: Vec<V> = Vec::new();
        let mut i: usize = 0;
        while i < factors.len()
            invariant
                i <= factors@.len(),
                values@.len() == i,
                forall|j: int| 0 <= j < i ==> self.lerps(factors@[j], #[trigger] values@[j]),
            decreases factors@.len() - i,
        {
            values.push(self.lerp(factors[i]));
            i += 1;
        }
        values
    }
}

/// A curve that rises late and ends fast: `(end - start) * factor^8 + start`.
#[derive(Copy, Clone)]
pub struct SIMDLerperConvex<V> {
    pub start: V,
    /// `end - start`
    pub length: V,
}

impl<V: Scalar> SIMDLerperConvex<V> {
    /// Whether the curve goes from `start` to `end`.
    pub open spec fn is_between(self, start: V, end: V) -> bool {
        self.start == start && scalar::is_difference(end, start, self.length)
    }

    /// Whether the curve is at `value` where a fraction `factor` of the way is done.
    pub open spec fn lerps(self, factor: V, value: V) -> bool {
        exists|power: V, part: V| #[trigger] self.lerps_by(factor, value, power, part)
    }

    /// As above, by way of the values in between.
    pub open spec fn lerps_by(self, factor: V, value: V, power: V, part: V) -> bool {
        &&& is_eighth(factor, power)
        &&& scalar::is_product(self.length, power, part)
        &&& scalar::is_sum(part, self.start, value)
    }

    /// The curve from `start` to `end`.
    pub fn new(start: V, end: V) -> (lerper: Self)
        ensures
            lerper.is_between(start, end),
    {
        SIMDLerperConvex { start, length: scalar::difference(end, start) }
    }

    /// The value where a fraction `factor` of the way is done.
    pub fn lerp(&self, factor: V) -> (value: V)
        ensures
            self.lerps(factor, value),
    {
        let power = eighth(factor);
        let part = scalar::product(self.length, power);
        let value = scalar::sum(part, self.start);
        assert(self.lerps_by(factor, value, power, part));
        value
    }

    /// The values of several fractions.
    pub fn lerp_simd(&self, factors: &Vec<V>) -> (values: Vec<V>)
        ensures
            values@.len() == factors@.len(),
            forall|i: int|
                0 <= i < values@.len() ==> self.lerps(factors@[i], #[trigger] values@[i]),
    {
        let mut values: Vec<V> = Vec::new();
        let mut i: usize = 0;
        while i < factors.len()
            invariant
                i <= factors@.len(),
                values@.len() == i,
                forall|j: int| 0 <= j < i ==> self.lerps(factors@[j], #[trigger] values@[j]),
            decreases factors@.len() - i,
        {
            values.push(self.lerp(factors[i]));
            i += 1;
        }
        values
    }
}

/// Whether `value` lies a fraction `factor` of the way from `start` to `end`, on a straight line:
/// `start + (end - start) * factor`.
pub open spec fn on_line<V: Scalar>(start: V, end: V, factor: V, value: V) -> bool {
    exists|length: V, part: V|
        {
            &&& #[trigger] call_ensures(V::minus, (end, start), length)
            &&& call_ensures(V::times, (length, factor), part)
            &&& #[trigger] call_ensures(V::plus, (start, part), value)
        }
}

/// Whether `power` is `value` raised to the eighth.
pub open spec fn eight_times<V: Scalar>(value: V, power: V) -> bool {
    exists|second: V, fourth: V|
        {
            &&& #[trigger] call_ensures(V::times, (value, value), second)
            &&& #[trigger] call_ensures(V::times, (second, second), fourth)
            &&& call_ensures(V::times, (fourth, fourth), power)
        }
}

/// Whether `value` lies where a fraction `factor` of the way from `start` to `end` is done, fast at
/// first: what is left of the distance is the eighth power of what is left of the way.
pub open spec fn on_early_curve<V: Scalar>(start: V, end: V, factor: V, value: V) -> bool {
    exists|one: V, left: V, power: V, distance: V, rest: V|
        {
            &&& call_ensures(V::ratio, (1i64, 1i64), one)
            &&& #[trigger] call_ensures(V::minus, (one, factor), left)
            &&& #[trigger] eight_times(left, power)
            &&& #[trigger] call_ensures(V::minus, (start, end), distance)
            &&& call_ensures(V::times, (distance, power), rest)
            &&& #[trigger] call_ensures(V::plus, (rest, end), value)
        }
}

/// Whether `value` lies where a fraction `factor` of the way from `start` to `end` is done, fast at
/// last: what is done of the distance is the eighth power of what is done of the way.
pub open spec fn on_late_curve<V: Scalar>(start: V, end: V, factor: V, value: V) -> bool {
    exists|power: V, distance: V, done: V|
        {
            &&& #[trigger] eight_times(factor, power)
            &&& #[trigger] call_ensures(V::minus, (end, start), distance)
            &&& call_ensures(V::times, (distance, power), done)
            &&& #[trigger] call_ensures(V::plus, (done, start), value)
        }
}

/// A straight ramp goes from its start to its end in proportion to the way that is done.
pub proof fn lemma_straight_ramp<V: Scalar>(
    start: V,
    end: V,
    lerper: SIMDLerper<V>,
    factor: V,
    value: V,
)
    requires
        call_ensures(SIMDLerper::<V>::new, (start, end), lerper),
        call_ensures(SIMDLerper::<V>::lerp, (&lerper, factor), value),
    ensures
        on_line(start, end, factor, value),
{
    lemma_line(lerper, start, end, factor, value);
}

/// A concave ramp covers most of its distance at the start of the way.
pub proof fn lemma_concave_ramp<V: Scalar>(
    start: V,
    end: V,
    lerper: SIMDLerperConcave<V>,
    factor: V,
    value: V,
)
    requires
        call_ensures(SIMDLerperConcave::<V>::new, (start, end), lerper),
        call_ensures(SIMDLerperConcave::<V>::lerp, (&lerper, factor), value),
    ensures
        on_early_curve(start, end, factor, value),
{
    lemma_early(lerper, start, end, factor, value);
}

/// A convex ramp covers most of its distance at the end of the way.
pub proof fn lemma_convex_ramp<V: Scalar>(
    start: V,
    end: V,
    lerper: SIMDLerperConvex<V>,
    factor: V,
    value: V,
)
    requires
        call_ensures(SIMDLerperConvex::<V>::new, (start, end), lerper),
        call_ensures(SIMDLerperConvex::<V>::lerp, (&lerper, factor), value),
    ensures
        on_late_curve(start, end, factor, value),
{
    lemma_late(lerper, start, end, factor, value);
}

/// A line between two values is where it should be.
pub(crate) proof fn lemma_line<V: Scalar>(
    lerper: SIMDLerper<V>,
    start: V,
    end: V,
    factor: V,
    value: V,
)
    requires
        lerper.is_between(start, end),
        lerper.lerps(factor, value),
    ensures
        on_line(start, end, factor, value),
{
    let part = choose|part: V|
        scalar::is_product(lerper.length, factor, part) && #[trigger] scalar::is_sum(
            lerper.start,
            part,
            value,
        );
    assert(call_ensures(V::minus, (end, start), lerper.length));
    assert(call_ensures(V::plus, (start, part), value));
}

/// An eighth power is one.
proof fn lemma_eighth<V: Scalar>(value: V, power: V)
    requires
        is_eighth(value, power),
    ensures
        eight_times(value, power),
{
    let (second, fourth) = choose|second: V, fourth: V| #[trigger]
        is_eighth_by(value, power, second, fourth);
    assert(call_ensures(V::times, (value, value), second));
    assert(call_ensures(V::times, (second, second), fourth));
}

/// A concave curve between two values is where it should be.
pub(crate) proof fn lemma_early<V: Scalar>(
    lerper: SIMDLerperConcave<V>,
    start: V,
    end: V,
    factor: V,
    value: V,
)
    requires
        lerper.is_between(start, end),
        lerper.lerps(factor, value),
    ensures
        on_early_curve(start, end, factor, value),
{
    let (one, left, power, part) = choose|one: V, left: V, power: V, part: V| #[trigger]
        lerper.lerps_by(factor, value, one, left, power, part);
    lemma_eighth(left, power);
    assert(call_ensures(V::minus, (one, factor), left));
    assert(call_ensures(V::minus, (start, end), lerper.length));
    assert(call_ensures(V::plus, (part, end), value));
}

/// A convex curve between two values is where it should be.
pub(crate) proof fn lemma_late<V: Scalar>(
    lerper: SIMDLerperConvex<V>,
    start: V,
    end: V,
    factor: V,
    value: V,
)
    requires
        lerper.is_between(start, end),
        lerper.lerps(factor, value),
    ensures
        on_late_curve(start, end, factor, value),
{
    let (power, part) = choose|power: V, part: V| #[trigger]
        lerper.lerps_by(factor, value, power, part);
    lemma_eighth(factor, power);
    assert(call_ensures(V::minus, (end, start), lerper.length));
    assert(call_ensures(V::plus, (part, start), value));
}

/// Several fractions at once give what each gives alone, in order.
pub proof fn lemma_ramps_together<V: Scalar>(
    start: V,
    end: V,
    straight: SIMDLerper<V>,
    concave: SIMDLerperConcave<V>,
    convex: SIMDLerperConvex<V>,
    factors: Vec<V>,
    on_straight: Vec<V>,
    on_concave: Vec<V>,
    on_convex: Vec<V>,
)
    requires
        call_ensures(SIMDLerper::<V>::new, (start, end), straight),
        call_ensures(SIMDLerperConcave::<V>::new, (start, end), concave),
        call_ensures(SIMDLerperConvex::<V>::new, (start, end), convex),
        call_ensures(SIMDLerper::<V>::lerp_simd, (&straight, &factors), on_straight),
        call_ensures(SIMDLerperConcave::<V>::lerp_simd, (&concave, &factors), on_concave),
        call_ensures(SIMDLerperConvex::<V>::lerp_simd, (&convex, &factors), on_convex),
    ensures
        on_straight@.len() == factors@.len(),
        on_concave@.len() == factors@.len(),
        on_convex@.len() == factors@.len(),
        forall|i: int|
            0 <= i < factors@.len() ==> on_line(start, end, factors@[i], #[trigger] on_straight@[i]),
        forall|i: int|
            0 <= i < factors@.len() ==> on_early_curve(
                start,
                end,
                factors@[i],
                #[trigger] on_concave@[i],
            ),
        forall|i: int|
            0 <= i < factors@.len() ==> on_late_curve(
                start,
                end,
                factors@[i],
                #[trigger] on_convex@[i],
            ),
{
    assert forall|i: int| 0 <= i < factors@.len() implies on_line(
        start,
        end,
        factors@[i],
        #[trigger] on_straight@[i],
    ) by {
        lemma_line(straight, start, end, factors@[i], on_straight@[i]);
    }
    assert forall|i: int| 0 <= i < factors@.len() implies on_early_curve(
        start,
        end,
        factors@[i],
        #[trigger] on_concave@[i],
    ) by {
        lemma_early(concave, start, end, factors@[i], on_concave@[i]);
    }
    assert forall|i: int| 0 <= i < factors@.len() implies on_late_curve(
        start,
        end,
        factors@[i],
        #[trigger] on_convex@[i],
    ) by {
        lemma_late(convex, start, end, factors@[i], on_convex@[i]);
    }
}

} // verus!
