//! The volume limiter.

use crate::scalar;
use crate::scalar::Scalar;
use vstd::prelude::*;

verus! {

/// The limiter of one audio channel.
#[derive(Copy, Clone)]
pub struct SingleChannelLimiter<V> {
    /// The loudness that is followed.
    pub loudness: V,
    /// How slowly a rising loudness is followed.
    pub attack: V,
    /// How slowly a falling loudness is followed.
    pub falloff: V,
    /// `1 / (falloff + 1)`.
    pub inv_falloff: V,
    /// `1 / (attack + 1)`.
    pub inv_attack: V,
    /// How strongly the loudness above 1 is taken back.
    pub strength: V,
    /// The loudness never counts as less than this.
    pub min_thresh: V,
    /// Above this the signal is bent.
    pub max_output: V,
}

/// Whether `inverse` is `1 / (speed + 1)`.
pub open spec fn is_inverse<V: Scalar>(speed: V, inverse: V) -> bool {
    exists|one: V, sum: V| #[trigger] is_inverse_by(speed, inverse, one, sum)
}

/// Whether `inverse` is `1 / (speed + 1)`, by way of `sum`.
pub open spec fn is_inverse_by<V: Scalar>(speed: V, inverse: V, one: V, sum: V) -> bool {
    &&& scalar::is_ratio(1, 1, one)
    &&& scalar::is_sum(speed, one, sum)
    &&& scalar::is_quotient(one, sum, inverse)
}

fn inverse_of<V: Scalar>(speed: V) -> (inverse: V)
    ensures
        is_inverse(speed, inverse),
{
    let one: V = scalar::ratio(1, 1);
    let sum = scalar::sum(speed, one);
    let inverse = scalar::quotient(one, sum);
    assert(is_inverse_by(speed, inverse, one, sum));
    inverse
}

/// Whether `loudness` follows from what it was and the size of a sample, falling slowly or rising
/// fast.
pub open spec fn loudness_follows<V: Scalar>(
    limiter: SingleChannelLimiter<V>,
    size: V,
    loudness: V,
) -> bool {
    exists|falls: bool, scaled: V, total: V| #[trigger]
        loudness_follows_by(limiter, size, loudness, falls, scaled, total)
}

/// As above, by way of the values in between.
pub open spec fn loudness_follows_by<V: Scalar>(
    limiter: SingleChannelLimiter<V>,
    size: V,
    loudness: V,
    falls: bool,
    scaled: V,
    total: V,
) -> bool {
    let speed = if falls {
        limiter.falloff
    } else {
        limiter.attack
    };
    let inverse = if falls {
        limiter.inv_falloff
    } else {
        limiter.inv_attack
    };
    &&& scalar::is_less(size, limiter.loudness, falls)
    &&& scalar::is_product(limiter.loudness, speed, scaled)
    &&& scalar::is_sum(scaled, size, total)
    &&& scalar::is_product(total, inverse, loudness)
}

/// Whether `gain` is `1 / (1 + max(loudness - 1, 0) * strength)`, where the loudness counts as at
/// least the threshold.
pub open spec fn is_gain<V: Scalar>(limiter: SingleChannelLimiter<V>, gain: V) -> bool {
    exists|one: V, zero: V, loud: V, above: V, excess: V, weighted: V, divisor: V| #[trigger]
        is_gain_by(limiter, gain, one, zero, loud, above, excess, weighted, divisor)
}

/// As above, by way of the values in between.
pub open spec fn is_gain_by<V: Scalar>(
    limiter: SingleChannelLimiter<V>,
    gain: V,
    one: V,
    zero: V,
    loud: V,
    above: V,
    excess: V,
    weighted: V,
    divisor: V,
) -> bool {
    &&& scalar::is_ratio(1, 1, one)
    &&& scalar::is_ratio(0, 1, zero)
    &&& scalar::is_larger(limiter.loudness, limiter.min_thresh, loud)
    &&& scalar::is_difference(loud, one, above)
    &&& scalar::is_larger(above, zero, excess)
    &&& scalar::is_product(excess, limiter.strength, weighted)
    &&& scalar::is_sum(one, weighted, divisor)
    &&& scalar::is_quotient(one, divisor, gain)
}

/// Whether `bent` is `value`, bent where it is larger than the maximal output.
pub open spec fn is_bent<V: Scalar>(
    limiter: SingleChannelLimiter<V>,
    value: V,
    bent: V,
) -> bool {
    exists|size: V, large: bool| #[trigger] is_bent_by(limiter, value, bent, size, large)
}

/// As above, by way of the size of the value.
pub open spec fn is_bent_by<V: Scalar>(
    limiter: SingleChannelLimiter<V>,
    value: V,
    bent: V,
    size: V,
    large: bool,
) -> bool {
    &&& call_ensures(V::magnitude, (value,), size)
    &&& scalar::is_less(limiter.max_output, size, large)
    &&& if large {
        is_knee(limiter, value, size, bent)
    } else {
        bent == value
    }
}

/// Whether `bent` is `sign * (max_output + excess / (1 + excess * 2))`, where `excess` is what
/// `size` has above the maximal output.
pub open spec fn is_knee<V: Scalar>(
    limiter: SingleChannelLimiter<V>,
    value: V,
    size: V,
    bent: V,
) -> bool {
    exists|sign: V, excess: V, double: V, divisor: V, soft: V, level: V| #[trigger]
        is_knee_by(limiter, value, size, bent, sign, excess, double, divisor, soft, level)
}

/// As above, by way of the values in between.
pub open spec fn is_knee_by<V: Scalar>(
    limiter: SingleChannelLimiter<V>,
    value: V,
    size: V,
    bent: V,
    sign: V,
    excess: V,
    double: V,
    divisor: V,
    soft: V,
    level: V,
) -> bool {
    &&& call_ensures(V::sign, (value,), sign)
    &&& scalar::is_difference(size, limiter.max_output, excess)
    &&& exists|two: V| scalar::is_ratio(2, 1, two) && scalar::is_product(excess, two, double)
    &&& exists|one: V| scalar::is_ratio(1, 1, one) && scalar::is_sum(one, double, divisor)
    &&& scalar::is_quotient(excess, divisor, soft)
    &&& scalar::is_sum(limiter.max_output, soft, level)
    &&& scalar::is_product(sign, level, bent)
}

/// Whether `result` is `value` held between -0.99 and 0.99.
pub open spec fn is_held<V: Scalar>(value: V, result: V) -> bool {
    exists|low: V, high: V| #[trigger] is_held_by(value, result, low, high)
}

/// As above, by way of the bounds.
pub open spec fn is_held_by<V: Scalar>(value: V, result: V, low: V, high: V) -> bool {
    &&& scalar::is_ratio(-99, 100, low)
    &&& scalar::is_ratio(99, 100, high)
    &&& call_ensures(V::held, (value, low, high), result)
}

/// Whether a limiter turns a sample into `result` and becomes `after`.
pub open spec fn limits<V: Scalar>(
    before: SingleChannelLimiter<V>,
    value: V,
    after: SingleChannelLimiter<V>,
    result: V,
) -> bool {
    exists|size: V, gain: V, quiet: V, bent: V| #[trigger]
        limits_by(before, value, after, result, size, gain, quiet, bent)
}

/// As above, by way of the values in between: the loudness follows the size of the sample, the gain
/// follows the loudness, and the sample, with the gain applied, is bent and held.
pub open spec fn limits_by<V: Scalar>(
    before: SingleChannelLimiter<V>,
    value: V,
    after: SingleChannelLimiter<V>,
    result: V,
    size: V,
    gain: V,
    quiet: V,
    bent: V,
) -> bool {
    &&& call_ensures(V::magnitude, (value,), size)
    &&& loudness_follows(before, size, after.loudness)
    &&& after == (SingleChannelLimiter { loudness: after.loudness, ..before })
    &&& is_gain(after, gain)
    &&& scalar::is_product(value, gain, quiet)
    &&& is_bent(after, quiet, bent)
    &&& is_held(bent, result)
}

impl<V: Scalar> SingleChannelLimiter<V> {
    /// Whether the limiter is one that has seen no sample.
    pub open spec fn is_new(self) -> bool {
        &&& scalar::is_ratio(1, 1, self.loudness)
        &&& scalar::is_ratio(100, 1, self.attack)
        &&& scalar::is_ratio(16000, 1, self.falloff)
        &&& is_inverse(self.falloff, self.inv_falloff)
        &&& is_inverse(self.attack, self.inv_attack)
        &&& scalar::is_ratio(1, 1, self.strength)
        &&& scalar::is_ratio(1, 10, self.min_thresh)
        &&& scalar::is_ratio(95, 100, self.max_output)
    }

    /// A limiter that has seen no sample.
    pub fn new() -> (limiter: Self)
        ensures
            limiter.is_new(),
    {
        let attack: V = scalar::ratio(100, 1);
        let falloff: V = scalar::ratio(16000, 1);
        SingleChannelLimiter {
            loudness: scalar::ratio(1, 1),
            attack,
            falloff,
            inv_falloff: inverse_of(falloff),
            inv_attack: inverse_of(attack),
            strength: scalar::ratio(1, 1),
            min_thresh: scalar::ratio(1, 10),
            max_output: scalar::ratio(95, 100),
        }
    }

    fn next_loudness(&self, size: V) -> (loudness: V)
        ensures
            loudness_follows(*self, size, loudness),
    {
        let falls: bool = scalar::less(size, self.loudness);
        let (speed, inverse) = if falls {
            (self.falloff, self.inv_falloff)
        } else {
            (self.attack, self.inv_attack)
        };
        let scaled = scalar::product(self.loudness, speed);
        let total = scalar::sum(scaled, size);
        let loudness = scalar::product(total, inverse);
        assert(loudness_follows_by(*self, size, loudness, falls, scaled, total));
        loudness
    }

    fn gain(&self) -> (gain: V)
        ensures
            is_gain(*self, gain),
    {
        let one: V = scalar::ratio(1, 1);
        let zero: V = scalar::ratio(0, 1);
        let loud = scalar::larger(self.loudness, self.min_thresh);
        let above = scalar::difference(loud, one);
        let excess = scalar::larger(above, zero);
        let weighted = scalar::product(excess, self.strength);
        let divisor = scalar::sum(one, weighted);
        let gain = scalar::quotient(one, divisor);
        assert(is_gain_by(*self, gain, one, zero, loud, above, excess, weighted, divisor));
        gain
    }

    fn bend(&self, value: V) -> (bent: V)
        ensures
            is_bent(*self, value, bent),
    {
        let size: V = value.magnitude();
        assert(call_ensures(V::magnitude, (value,), size));
        let large: bool = scalar::less(self.max_output, size);
        if !large {
            assert(is_bent_by(*self, value, value, size, large));
            return value;
        }
        let sign: V = value.sign();
        assert(call_ensures(V::sign, (value,), sign));
        let excess = scalar::difference(size, self.max_output);
        let two: V = scalar::ratio(2, 1);
        let double = scalar::product(excess, two);
        let one: V = scalar::ratio(1, 1);
        let divisor = scalar::sum(one, double);
        let soft = scalar::quotient(excess, divisor);
        let level = scalar::sum(self.max_output, soft);
        let bent = scalar::product(sign, level);
        assert(is_knee_by(*self, value, size, bent, sign, excess, double, divisor, soft, level));
        assert(is_bent_by(*self, value, bent, size, large));
        bent
    }

    /// Limits one sample.
    pub fn limit(&mut self, val: V) -> (result: V)
        ensures
            limits(*old(self), val, *final(self), result),
    {
        let size: V = val.magnitude();
        assert(call_ensures(V::magnitude, (val,), size));
        let loudness = self.next_loudness(size);
        self.loudness = loudness;
        let gain = self.gain();
        let quiet = scalar::product(val, gain);
        let bent = self.bend(quiet);
        let low: V = scalar::ratio(-99, 100);
        let high: V = scalar::ratio(99, 100);
        let result: V = bent.held(low, high);
        assert(is_held_by(bent, result, low, high));
        assert(limits_by(*old(self), val, *self, result, size, gain, quiet, bent));
        result
    }
}

/// A limiter for a number of audio channels. It keeps loud audio from clipping.
pub struct VolumeLimiter<V> {
    channels: Vec<SingleChannelLimiter<V>>,
    channel_count: usize,
}

/// Whether sample number `i` is limited by the limiter whose turn it is, and the others stay as
/// they are.
pub open spec fn limits_in_turn<V: Scalar>(
    before: Seq<SingleChannelLimiter<V>>,
    i: int,
    value: V,
    after: Seq<SingleChannelLimiter<V>>,
    result: V,
) -> bool {
    let channel = i % (before.len() as int);
    &&& limits(before[channel], value, after[channel], result)
    &&& after == before.update(channel, after[channel])
}

/// Whether `trace` holds the limiters before each sample and after the last one.
pub open spec fn is_trace<V: Scalar>(
    trace: Seq<Seq<SingleChannelLimiter<V>>>,
    values: Seq<V>,
    results: Seq<V>,
) -> bool {
    &&& trace.len() == values.len() + 1
    &&& results.len() == values.len()
    &&& forall|i: int| 0 <= i < values.len() ==> #[trigger] trace_step(trace, values, results, i)
}

/// Whether `trace` is right at sample `i`.
pub open spec fn trace_step<V: Scalar>(
    trace: Seq<Seq<SingleChannelLimiter<V>>>,
    values: Seq<V>,
    results: Seq<V>,
    i: int,
) -> bool {
    limits_in_turn(trace[i], i, values[i], trace[i + 1], results[i])
}

/// Whether limiting `values` gives `results` and leaves the limiters `after`.
pub open spec fn limits_all<V: Scalar>(
    before: Seq<SingleChannelLimiter<V>>,
    values: Seq<V>,
    after: Seq<SingleChannelLimiter<V>>,
    results: Seq<V>,
) -> bool {
    exists|trace: Seq<Seq<SingleChannelLimiter<V>>>| #[trigger]
        is_trace(trace, values, results) && trace[0] == before && trace.last() == after
}

impl<V: Scalar> VolumeLimiter<V> {
    /// The limiters of the channels.
    pub closed spec fn limiters(&self) -> Seq<SingleChannelLimiter<V>> {
        self.channels@
    }

    /// Whether there is one limiter for each channel.
    pub closed spec fn wf(&self) -> bool {
        self.channels@.len() == self.channel_count
    }

    /// A limiter for a number of audio channels.
    pub fn new(channel_count: u16) -> (limiter: Self)
        ensures
            limiter.wf(),
            limiter.limiters().len() == channel_count,
            forall|i: int| 0 <= i < channel_count ==> (#[trigger] limiter.limiters()[i]).is_new(),
    {
        let mut channels: Vec<SingleChannelLimiter<V>> = Vec::new();
        let mut i: u16 = 0;
        while i < channel_count
            invariant
                i <= channel_count,
                channels@.len() == i,
                forall|j: int| 0 <= j < i ==> (#[trigger] channels@[j]).is_new(),
            decreases channel_count - i,
        {
            channels.push(SingleChannelLimiter::new());
            i += 1;
        }
        VolumeLimiter { channels, channel_count: channel_count as usize }
    }

    /// Limits interleaved samples in place. The limiters take turns, starting with the first one.
    pub fn limit(&mut self, sample: &mut Vec<V>)
        requires
            old(self).wf(),
            old(sample)@.len() > 0 ==> old(self).limiters().len() > 0,
        ensures
            final(self).wf(),
            limits_all(old(self).limiters(), old(sample)@, final(self).limiters(), final(sample)@),
    {
        let cc: usize = self.channel_count;
        let mut ch: usize = 0;
        let mut i: usize = 0;
        let ghost mut trace: Seq<Seq<SingleChannelLimiter<V>>> = seq![self.channels@];
        let ghost mut results: Seq<V> = Seq::empty();
        while i < sample.len()
            invariant
                self.wf(),
                cc == self.channel_count,
                sample@.len() == old(sample)@.len(),
                i <= sample@.len(),
                sample@.len() > 0 ==> cc > 0,
                cc > 0 ==> ch < cc && ch == i as int % cc as int,
                results.len() == i,
                sample@ == results + old(sample)@.skip(i as int),
                is_trace(trace, old(sample)@.take(i as int), results),
                trace[0] == old(self).limiters(),
                trace.last() == self.channels@,
            decreases sample@.len() - i,
        {
            let ghost before = self.channels@;
            let ghost earlier = trace;
            let ghost done = results;
            let value: V = sample[i];
            let result = self.channels[ch].limit(value);
            sample.set(i, result);
            proof {
                trace = trace.push(self.channels@);
                results = results.push(result);
                let values = old(sample)@.take(i + 1);
                assert(self.channels@ =~= before.update(ch as int, self.channels@[ch as int]));
                assert(value == old(sample)@[i as int]);
                assert forall|j: int| 0 <= j < values.len() implies #[trigger] trace_step(
                    trace,
                    values,
                    results,
                    j,
                ) by {
                    if j < i {
                        assert(trace_step(earlier, old(sample)@.take(i as int), done, j));
                    }
                }
                lemma_next_turn(i as int, ch as int, cc as int);
            }
            ch += 1;
            if ch >= cc {
                ch = 0;
            }
            i += 1;
        }
        proof {
            assert(old(sample)@.take(i as int) =~= old(sample)@);
            assert(sample@ =~= results);
        }
    }

    /// Limits samples as they come: gives what `limit` writes in their place.
    pub fn limit_iter(&mut self, samples: Vec<V>) -> (limited: Vec<V>)
        requires
            old(self).wf(),
            samples@.len() > 0 ==> old(self).limiters().len() > 0,
        ensures
            final(self).wf(),
            limits_all(old(self).limiters(), samples@, final(self).limiters(), limited@),
    {
        let mut limited = samples;
        self.limit(&mut limited);
        limited
    }
}

proof fn lemma_next_turn(i: int, ch: int, cc: int)
    requires
        cc > 0,
        i >= 0,
        ch == i % cc,
    ensures
        (i + 1) % cc == if ch + 1 >= cc {
            0
        } else {
            ch + 1
        },
{
    vstd::arithmetic::div_mod::lemma_fundamental_div_mod(i, cc);
    let q = i / cc;
    assert(cc * q == q * cc) by (nonlinear_arith);
    if ch + 1 >= cc {
        assert(i + 1 == cc * (q + 1)) by (nonlinear_arith)
            requires
                i == cc * q + ch,
                ch + 1 == cc,
        ;
        vstd::arithmetic::div_mod::lemma_fundamental_div_mod_converse(i + 1, cc, q + 1, 0);
    } else {
        vstd::arithmetic::div_mod::lemma_fundamental_div_mod_converse(i + 1, cc, q, ch + 1);
    }
}

/// Each audio channel is limited on its own: a limiter does not change while a sample of another
/// channel is limited.
pub proof fn lemma_channels_apart<V: Scalar>(
    trace: Seq<Seq<SingleChannelLimiter<V>>>,
    values: Seq<V>,
    results: Seq<V>,
    i: int,
    channel: int,
)
    requires
        is_trace(trace, values, results),
        0 <= i < values.len(),
        0 <= channel < trace[i].len(),
        channel != i % (trace[i].len() as int),
    ensures
        trace[i + 1].len() == trace[i].len(),
        trace[i + 1][channel] == trace[i][channel],
{
    assert(trace_step(trace, values, results, i));
}

/// Whether `average` is what `old` and `new` average to, `old` counting `weight` times and `new`
/// once, where `inverse` stands for the division by all of them.
pub open spec fn averages<V: Scalar>(old_value: V, new_value: V, weight: V, inverse: V, average: V) -> bool {
    exists|scaled: V, total: V|
        #![trigger call_ensures(V::times, (old_value, weight), scaled), call_ensures(V::plus, (scaled, new_value), total)]
        call_ensures(V::times, (old_value, weight), scaled) && call_ensures(
            V::plus,
            (scaled, new_value),
            total,
        ) && call_ensures(V::times, (total, inverse), average)
}

/// Whether the loudness moves from `before` to `after` on a sample of the given size: slowly where
/// the sample is quieter, fast where it is not.
pub open spec fn moves_towards<V: Scalar>(
    limiter: SingleChannelLimiter<V>,
    size: V,
    falls: bool,
    after: V,
) -> bool {
    &&& call_ensures(V::less, (size, limiter.loudness), falls)
    &&& falls ==> averages(
        limiter.loudness,
        size,
        limiter.falloff,
        limiter.inv_falloff,
        after,
    )
    &&& !falls ==> averages(limiter.loudness, size, limiter.attack, limiter.inv_attack, after)
}

/// Whether `excess` is by how much the loudness, or the threshold if it is larger, exceeds 1, and 0
/// where it does not.
pub open spec fn exceeds_by<V: Scalar>(limiter: SingleChannelLimiter<V>, excess: V) -> bool {
    exists|one: V, zero: V, loud: V, above: V|
        #![trigger call_ensures(V::minus, (loud, one), above), call_ensures(V::highest, (above, zero), excess)]
        call_ensures(V::ratio, (1, 1), one) && call_ensures(V::ratio, (0, 1), zero)
            && call_ensures(V::highest, (limiter.loudness, limiter.min_thresh), loud)
            && call_ensures(V::minus, (loud, one), above) && call_ensures(
            V::highest,
            (above, zero),
            excess,
        )
}

/// Whether `gain` is 1 over 1 and the weighted excess.
pub open spec fn takes_back<V: Scalar>(strength: V, excess: V, gain: V) -> bool {
    exists|one: V, weighted: V, divisor: V|
        #![trigger call_ensures(V::times, (excess, strength), weighted), call_ensures(V::over, (one, divisor), gain)]
        call_ensures(V::ratio, (1, 1), one) && call_ensures(
            V::times,
            (excess, strength),
            weighted,
        ) && call_ensures(V::plus, (one, weighted), divisor) && call_ensures(
            V::over,
            (one, divisor),
            gain,
        )
}

/// Whether `soft` is `excess / (1 + 2 * excess)`.
pub open spec fn softens<V: Scalar>(excess: V, soft: V) -> bool {
    exists|one: V, two: V, double: V, divisor: V|
        #![trigger call_ensures(V::times, (excess, two), double), call_ensures(V::plus, (one, double), divisor)]
        call_ensures(V::ratio, (1, 1), one) && call_ensures(V::ratio, (2, 1), two)
            && call_ensures(V::times, (excess, two), double) && call_ensures(
            V::plus,
            (one, double),
            divisor,
        ) && call_ensures(V::over, (excess, divisor), soft)
}

/// Whether `bent` is a value that keeps its sign and rises only softly above the maximal output.
pub open spec fn bends<V: Scalar>(most: V, value: V, size: V, bent: V) -> bool {
    exists|sign: V, excess: V, soft: V, level: V|
        #![trigger call_ensures(V::minus, (size, most), excess), call_ensures(V::plus, (most, soft), level), call_ensures(V::times, (sign, level), bent)]
        call_ensures(V::sign, (value,), sign) && call_ensures(V::minus, (size, most), excess)
            && softens(excess, soft) && call_ensures(V::plus, (most, soft), level)
            && call_ensures(V::times, (sign, level), bent)
}

/// Whether `bent` is the value itself where it is not larger than the maximal output, and bent where
/// it is.
pub open spec fn is_kept_below<V: Scalar>(most: V, value: V, bent: V) -> bool {
    exists|size: V, large: bool|
        #![trigger call_ensures(V::less, (most, size), large)]
        call_ensures(V::magnitude, (value,), size) && call_ensures(V::less, (most, size), large)
            && (large ==> bends(most, value, size, bent)) && (!large ==> bent == value)
}

/// Whether `result` is a value kept between -0.99 and 0.99.
pub open spec fn is_clipped<V: Scalar>(value: V, result: V) -> bool {
    exists|low: V, high: V|
        #![trigger call_ensures(V::held, (value, low, high), result)]
        call_ensures(V::ratio, ((-99) as i64, 100), low) && call_ensures(V::ratio, (99, 100), high)
            && call_ensures(V::held, (value, low, high), result)
}

/// Whether a limiter makes `result` of a sample, where `size` is the size of the sample, `gain` what
/// it is multiplied with and `bent` what comes of that.
pub open spec fn limits_to<V: Scalar>(
    before: SingleChannelLimiter<V>,
    value: V,
    after: SingleChannelLimiter<V>,
    result: V,
    size: V,
    falls: bool,
    excess: V,
    gain: V,
    quiet: V,
    bent: V,
) -> bool {
    &&& call_ensures(V::magnitude, (value,), size)
    &&& moves_towards(before, size, falls, after.loudness)
    &&& exceeds_by(after, excess)
    &&& takes_back(after.strength, excess, gain)
    &&& call_ensures(V::times, (value, gain), quiet)
    &&& is_kept_below(after.max_output, quiet, bent)
    &&& is_clipped(bent, result)
}

/// Limiting a sample: the loudness moves towards the size of the sample; the more it then exceeds 1,
/// the more the sample is turned down; what is still above the maximal output is bent, and nothing
/// leaves the range from -0.99 to 0.99. Nothing but the loudness of the limiter changes.
pub proof fn lemma_limits_a_sample<V: Scalar>(
    limiter: &mut SingleChannelLimiter<V>,
    value: V,
    result: V,
)
    requires
        call_ensures(SingleChannelLimiter::<V>::limit, (limiter, value), result),
    ensures
        exists|size: V, falls: bool, excess: V, gain: V, quiet: V, bent: V| #[trigger]
            limits_to(
                *old(limiter),
                value,
                *final(limiter),
                result,
                size,
                falls,
                excess,
                gain,
                quiet,
                bent,
            ),
        final(limiter).attack == old(limiter).attack,
        final(limiter).falloff == old(limiter).falloff,
        final(limiter).inv_attack == old(limiter).inv_attack,
        final(limiter).inv_falloff == old(limiter).inv_falloff,
        final(limiter).strength == old(limiter).strength,
        final(limiter).min_thresh == old(limiter).min_thresh,
        final(limiter).max_output == old(limiter).max_output,
{
    lemma_limits_to(*old(limiter), value, *final(limiter), result);
}

/// The parts of limiting a sample, put together.
proof fn lemma_limits_to<V: Scalar>(
    before: SingleChannelLimiter<V>,
    value: V,
    after: SingleChannelLimiter<V>,
    result: V,
)
    requires
        limits(before, value, after, result),
    ensures
        exists|size: V, falls: bool, excess: V, gain: V, quiet: V, bent: V| #[trigger]
            limits_to(before, value, after, result, size, falls, excess, gain, quiet, bent),
        after == (SingleChannelLimiter { loudness: after.loudness, ..before }),
{
    let (size, gain, quiet, bent) = choose|size: V, gain: V, quiet: V, bent: V| #[trigger]
        limits_by(before, value, after, result, size, gain, quiet, bent);
    let (falls, scaled, total) = choose|falls: bool, scaled: V, total: V| #[trigger]
        loudness_follows_by(before, size, after.loudness, falls, scaled, total);
    assert(moves_towards(before, size, falls, after.loudness));
    let (one, zero, loud, above, excess, weighted, divisor) = choose|
        one: V,
        zero: V,
        loud: V,
        above: V,
        excess: V,
        weighted: V,
        divisor: V,
    | #[trigger] is_gain_by(after, gain, one, zero, loud, above, excess, weighted, divisor);
    assert(call_ensures(V::minus, (loud, one), above));
    assert(exceeds_by(after, excess));
    assert(call_ensures(V::times, (excess, after.strength), weighted));
    assert(takes_back(after.strength, excess, gain));
    lemma_bent(after, quiet, bent);
    let (low, high) = choose|low: V, high: V| #[trigger] is_held_by(bent, result, low, high);
    assert(call_ensures(V::held, (bent, low, high), result));
    assert(is_clipped(bent, result));
    assert(limits_to(before, value, after, result, size, falls, excess, gain, quiet, bent));
}

/// What bending does to a value.
proof fn lemma_bent<V: Scalar>(limiter: SingleChannelLimiter<V>, value: V, bent: V)
    requires
        is_bent(limiter, value, bent),
    ensures
        is_kept_below(limiter.max_output, value, bent),
{
    let most = limiter.max_output;
    let (size, large) = choose|size: V, large: bool| #[trigger]
        is_bent_by(limiter, value, bent, size, large);
    if large {
        let (sign, excess, double, divisor, soft, level) = choose|
            sign: V,
            excess: V,
            double: V,
            divisor: V,
            soft: V,
            level: V,
        | #[trigger]
            is_knee_by(limiter, value, size, bent, sign, excess, double, divisor, soft, level);
        let two = choose|two: V|
            scalar::is_ratio(2, 1, two) && scalar::is_product(excess, two, double);
        let one = choose|one: V|
            scalar::is_ratio(1, 1, one) && scalar::is_sum(one, double, divisor);
        assert(call_ensures(V::times, (excess, two), double));
        assert(call_ensures(V::plus, (one, double), divisor));
        assert(softens(excess, soft));
        assert(call_ensures(V::minus, (size, most), excess));
        assert(call_ensures(V::plus, (most, soft), level));
        assert(call_ensures(V::times, (sign, level), bent));
        assert(bends(most, value, size, bent));
    }
    assert(call_ensures(V::less, (most, size), large));
}

/// Whether `inverse` is 1 over 1 and the weight.
pub open spec fn inverts<V: Scalar>(weight: V, inverse: V) -> bool {
    exists|one: V, sum: V|
        #![trigger call_ensures(V::plus, (weight, one), sum), call_ensures(V::over, (one, sum), inverse)]
        call_ensures(V::ratio, (1, 1), one) && call_ensures(V::plus, (weight, one), sum)
            && call_ensures(V::over, (one, sum), inverse)
}

/// A new limiter starts at full loudness, follows a rising one a hundred samples long and a falling
/// one for sixteen thousand, and bends what is above 0.95.
pub proof fn lemma_new_limiter<V: Scalar>(limiter: SingleChannelLimiter<V>)
    requires
        call_ensures(SingleChannelLimiter::<V>::new, (), limiter),
    ensures
        call_ensures(V::ratio, (1, 1), limiter.loudness),
        call_ensures(V::ratio, (100, 1), limiter.attack),
        call_ensures(V::ratio, (16000, 1), limiter.falloff),
        inverts(limiter.attack, limiter.inv_attack),
        inverts(limiter.falloff, limiter.inv_falloff),
        call_ensures(V::ratio, (1, 1), limiter.strength),
        call_ensures(V::ratio, (1, 10), limiter.min_thresh),
        call_ensures(V::ratio, (95, 100), limiter.max_output),
{
    lemma_inverts(limiter.attack, limiter.inv_attack);
    lemma_inverts(limiter.falloff, limiter.inv_falloff);
}

/// The inverse of a weight.
proof fn lemma_inverts<V: Scalar>(weight: V, inverse: V)
    requires
        is_inverse(weight, inverse),
    ensures
        inverts(weight, inverse),
{
    let (one, sum) = choose|one: V, sum: V| #[trigger] is_inverse_by(weight, inverse, one, sum);
    assert(call_ensures(V::plus, (weight, one), sum));
    assert(call_ensures(V::over, (one, sum), inverse));
}

/// Whether the limiters take turns at the values, one value each.
pub open spec fn takes_turns<V: Scalar>(
    count: int,
    states: Seq<Seq<SingleChannelLimiter<V>>>,
    values: Seq<V>,
    results: Seq<V>,
) -> bool {
    &&& states.len() == values.len() + 1
    &&& results.len() == values.len()
    &&& forall|i: int|
        0 <= i < values.len() ==> limits(
            (#[trigger] states[i])[i % count],
            values[i],
            states[i + 1][i % count],
            results[i],
        )
    &&& forall|i: int, c: int|
        0 <= i < values.len() && 0 <= c < count && c != i % count ==> #[trigger] states[i][c]
            == states[i + 1][c]
}

/// Interleaved samples: the first limiter takes the first sample, the second one the second, and so
/// on in a circle; a limiter rests while the others work. The same comes of `limit_iter`.
pub proof fn lemma_limiters_take_turns<V: Scalar>(
    limiter: &mut VolumeLimiter<V>,
    samples: &mut Vec<V>,
    other: &mut VolumeLimiter<V>,
    values: Vec<V>,
    limited: Vec<V>,
)
    requires
        call_ensures(VolumeLimiter::<V>::limit, (limiter, samples), ()),
        call_ensures(VolumeLimiter::<V>::limit_iter, (other, values), limited),
        old(limiter).limiters().len() > 0,
        old(other).limiters().len() > 0,
    ensures
        exists|states: Seq<Seq<SingleChannelLimiter<V>>>| #[trigger]
            takes_turns(
                old(limiter).limiters().len() as int,
                states,
                old(samples)@,
                final(samples)@,
            ) && states[0] == old(limiter).limiters() && states[states.len() - 1] == final(
                limiter).limiters(),
        exists|states: Seq<Seq<SingleChannelLimiter<V>>>| #[trigger]
            takes_turns(old(other).limiters().len() as int, states, values@, limited@)
                && states[0] == old(other).limiters() && states[states.len() - 1] == final(
                other).limiters(),
{
    lemma_takes_turns(
        old(limiter).limiters(),
        old(samples)@,
        final(limiter).limiters(),
        final(samples)@,
    );
    lemma_takes_turns(old(other).limiters(), values@, final(other).limiters(), limited@);
}

/// The limiters take turns along a trace.
proof fn lemma_takes_turns<V: Scalar>(
    before: Seq<SingleChannelLimiter<V>>,
    values: Seq<V>,
    after: Seq<SingleChannelLimiter<V>>,
    results: Seq<V>,
)
    requires
        limits_all(before, values, after, results),
        before.len() > 0,
    ensures
        exists|states: Seq<Seq<SingleChannelLimiter<V>>>| #[trigger]
            takes_turns(before.len() as int, states, values, results) && states[0] == before
                && states[states.len() - 1] == after,
{
    let trace = choose|trace: Seq<Seq<SingleChannelLimiter<V>>>| #[trigger]
        is_trace(trace, values, results) && trace[0] == before && trace.last() == after;
    let count = before.len() as int;
    assert forall|i: int| 0 <= i < values.len() implies limits(
        (#[trigger] trace[i])[i % count],
        values[i],
        trace[i + 1][i % count],
        results[i],
    ) by {
        lemma_trace_len(trace, values, results, i);
        assert(trace_step(trace, values, results, i));
    }
    assert forall|i: int, c: int|
        0 <= i < values.len() && 0 <= c < count && c != i % count implies #[trigger] trace[i][c]
        == trace[i + 1][c] by {
        lemma_trace_len(trace, values, results, i);
        lemma_channels_apart(trace, values, results, i, c);
    }
    assert(takes_turns(count, trace, values, results));
}

/// The number of limiters stays.
proof fn lemma_trace_len<V: Scalar>(
    trace: Seq<Seq<SingleChannelLimiter<V>>>,
    values: Seq<V>,
    results: Seq<V>,
    i: int,
)
    requires
        is_trace(trace, values, results),
        0 <= i < trace.len(),
        trace[0].len() > 0,
    ensures
        trace[i].len() == trace[0].len(),
    decreases i,
{
    if i > 0 {
        lemma_trace_len(trace, values, results, i - 1);
        assert(trace_step(trace, values, results, i - 1));
        let before = trace[i - 1];
        let after = trace[i - 1 + 1];
        let channel = (i - 1) % (before.len() as int);
        assert(after.len() == before.update(channel, after[channel]).len());
    }
}

/// There is a limiter for each audio channel, and none has seen a sample.
pub proof fn lemma_new_limiters<V: Scalar>(channel_count: u16, limiter: VolumeLimiter<V>)
    requires
        call_ensures(VolumeLimiter::<V>::new, (channel_count,), limiter),
    ensures
        limiter.limiters().len() == channel_count,
        forall|i: int|
            0 <= i < channel_count ==> call_ensures(
                V::ratio,
                (1, 1),
                (#[trigger] limiter.limiters()[i]).loudness,
            ),
{
    assert forall|i: int| 0 <= i < channel_count implies call_ensures(
        V::ratio,
        (1, 1),
        (#[trigger] limiter.limiters()[i]).loudness,
    ) by {
        assert(limiter.limiters()[i].is_new());
    }
}

} // verus!
