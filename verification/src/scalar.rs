//! The continuous quantities of the synthesizer.

use vstd::prelude::*;

verus! {

/// A continuous quantity: an amplitude, a time in seconds, a pitch in semitones, a frequency.
///
/// The library decides which operation is applied to which values and where its result goes. It
/// claims nothing of what an operation computes: a contract ties a stored value to the operation
/// that gave it, by naming the call.
pub trait Scalar: Copy {
    /// The quotient of two integers.
    fn ratio(num: i64, den: i64) -> Self;

    /// The sum of two quantities.
    fn plus(self, other: Self) -> Self;

    /// The difference of two quantities.
    fn minus(self, other: Self) -> Self;

    /// The product of two quantities.
    fn times(self, other: Self) -> Self;

    /// The quotient of two quantities.
    fn over(self, other: Self) -> Self;

    /// Whether this quantity is smaller than the other.
    fn less(self, other: Self) -> bool;

    /// Whether this quantity is smaller than the other or equal to it.
    fn at_most(self, other: Self) -> bool;

    /// Whether two quantities are equal.
    fn same(self, other: Self) -> bool;

    /// The smaller of two quantities.
    fn lowest(self, other: Self) -> Self;

    /// The larger of two quantities.
    fn highest(self, other: Self) -> Self;

    /// The quantity held between `low` and `high`.
    fn held(self, low: Self, high: Self) -> Self;

    /// The quantity without its sign.
    fn magnitude(self) -> Self;

    /// One, with the sign of the quantity.
    fn sign(self) -> Self;

    /// What is left of the quantity without its whole units.
    fn fractional(self) -> Self;

    /// The quantity, raised to a power.
    fn raised(self, exponent: Self) -> Self;

    /// The quantity, raised to a whole power.
    fn raised_to(self, exponent: u32) -> Self;

    /// The quality factor of a second order Butterworth filter.
    fn butterworth() -> Self;

    /// The frequency of a key.
    fn key_frequency(key: u8) -> Self;

    /// The number of whole units in this quantity, none below zero.
    fn whole(self) -> u64;
}

/// Whether `value` is `num / den`.
pub open spec fn is_ratio<V: Scalar>(num: int, den: int, value: V) -> bool {
    call_ensures(V::ratio, (num as i64, den as i64), value)
}

/// Gives `num / den`.
pub(crate) fn ratio<V: Scalar>(num: i64, den: i64) -> (value: V)
    ensures
        is_ratio(num as int, den as int, value),
{
    V::ratio(num, den)
}

/// Whether `value` is `a + b`.
pub open spec fn is_sum<V: Scalar>(a: V, b: V, value: V) -> bool {
    call_ensures(V::plus, (a, b), value)
}

/// Gives `a + b`.
pub(crate) fn sum<V: Scalar>(a: V, b: V) -> (value: V)
    ensures
        is_sum(a, b, value),
{
    a.plus(b)
}

/// Whether `value` is `a - b`.
pub open spec fn is_difference<V: Scalar>(a: V, b: V, value: V) -> bool {
    call_ensures(V::minus, (a, b), value)
}

/// Gives `a - b`.
pub(crate) fn difference<V: Scalar>(a: V, b: V) -> (value: V)
    ensures
        is_difference(a, b, value),
{
    a.minus(b)
}

/// Whether `value` is `a * b`.
pub open spec fn is_product<V: Scalar>(a: V, b: V, value: V) -> bool {
    call_ensures(V::times, (a, b), value)
}

/// Gives `a * b`.
pub(crate) fn product<V: Scalar>(a: V, b: V) -> (value: V)
    ensures
        is_product(a, b, value),
{
    a.times(b)
}

/// Whether `value` is `a / b`.
pub open spec fn is_quotient<V: Scalar>(a: V, b: V, value: V) -> bool {
    call_ensures(V::over, (a, b), value)
}

/// Gives `a / b`.
pub(crate) fn quotient<V: Scalar>(a: V, b: V) -> (value: V)
    ensures
        is_quotient(a, b, value),
{
    a.over(b)
}

/// Whether `value` is the smaller of `a` and `b`.
pub open spec fn is_smaller<V: Scalar>(a: V, b: V, value: V) -> bool {
    call_ensures(V::lowest, (a, b), value)
}

/// Gives the smaller of `a` and `b`.
pub(crate) fn smaller<V: Scalar>(a: V, b: V) -> (value: V)
    ensures
        is_smaller(a, b, value),
{
    a.lowest(b)
}

/// Whether `value` is the larger of `a` and `b`.
pub open spec fn is_larger<V: Scalar>(a: V, b: V, value: V) -> bool {
    call_ensures(V::highest, (a, b), value)
}

/// Gives the larger of `a` and `b`.
pub(crate) fn larger<V: Scalar>(a: V, b: V) -> (value: V)
    ensures
        is_larger(a, b, value),
{
    a.highest(b)
}

/// Whether asking if `a` is below `b` gives `answer`.
pub open spec fn is_less<V: Scalar>(a: V, b: V, answer: bool) -> bool {
    call_ensures(V::less, (a, b), answer)
}

/// Asks if `a` is below `b`.
pub(crate) fn less<V: Scalar>(a: V, b: V) -> (answer: bool)
    ensures
        is_less(a, b, answer),
{
    a.less(b)
}

/// Whether `value` is `a`, held between 0 and 1.
pub open spec fn is_unit<V: Scalar>(a: V, value: V) -> bool {
    exists|zero: V, one: V| #[trigger] is_unit_by(a, value, zero, one)
}

/// As above, by way of the bounds.
pub open spec fn is_unit_by<V: Scalar>(a: V, value: V, zero: V, one: V) -> bool {
    &&& is_ratio(0, 1, zero)
    &&& is_ratio(1, 1, one)
    &&& call_ensures(V::held, (a, zero, one), value)
}

/// Gives `a`, held between 0 and 1.
pub(crate) fn unit<V: Scalar>(a: V) -> (value: V)
    ensures
        is_unit(a, value),
{
    let zero: V = ratio(0, 1);
    let one: V = ratio(1, 1);
    let value: V = a.held(zero, one);
    assert(is_unit_by(a, value, zero, one));
    value
}

/// Whether `samples` is the number of whole samples in `secs` seconds, or the largest number if
/// there are more.
pub open spec fn is_samples_at<V: Scalar>(secs: V, rate: V, samples: u32) -> bool {
    exists|length: V, whole: u64| #[trigger] is_samples_at_by(secs, rate, samples, length, whole)
}

/// As above, by way of the values in between.
pub open spec fn is_samples_at_by<V: Scalar>(
    secs: V,
    rate: V,
    samples: u32,
    length: V,
    whole: u64,
) -> bool {
    &&& is_product(secs, rate, length)
    &&& call_ensures(V::whole, (length,), whole)
    &&& samples == if whole <= u32::MAX {
        whole
    } else {
        u32::MAX as u64
    }
}

/// Gives the number of whole samples in `secs` seconds.
pub(crate) fn samples_at<V: Scalar>(secs: V, rate: V) -> (samples: u32)
    ensures
        is_samples_at(secs, rate, samples),
{
    let length = product(secs, rate);
    let whole: u64 = length.whole();
    let samples: u32 = if whole <= u32::MAX as u64 {
        whole as u32
    } else {
        u32::MAX
    };
    assert(is_samples_at_by(secs, rate, samples, length, whole));
    samples
}

/// Whether `secs` is the length in seconds of `samples` samples.
pub open spec fn is_seconds_of<V: Scalar>(samples: u32, rate: V, secs: V) -> bool {
    exists|number: V|
        is_ratio(samples as int, 1, number) && #[trigger] is_quotient(number, rate, secs)
}

/// Gives the length in seconds of `samples` samples.
pub(crate) fn seconds_of<V: Scalar>(samples: u32, rate: V) -> (secs: V)
    ensures
        is_seconds_of(samples, rate, secs),
{
    let number: V = ratio(samples as i64, 1);
    quotient(number, rate)
}

} // verus!
