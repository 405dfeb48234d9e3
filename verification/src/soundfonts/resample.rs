//! Resampling by linear interpolation.

use crate::scalar;
use crate::scalar::Scalar;
use std::sync::Arc;
use vstd::prelude::*;

verus! {

/// A position among the samples that are read, in samples of amplitude `V`.
pub trait SourcePosition<V>: Scalar {
    /// How far reading moves on for each sample that is written.
    fn step(from_rate: V, to_rate: V) -> Self;

    /// How far the position lies behind sample number `index`.
    fn beyond(self, index: u64) -> V;
}

/// The number of the sample at or before a position, or of the last one.
pub open spec fn sample_before(len: int, index: u64) -> int {
    if index < len - 1 {
        index as int
    } else {
        len - 1
    }
}

/// The sample behind sample `i`, or sample `i` itself if it is the last one.
pub open spec fn sample_after<V>(input: Seq<V>, i: int) -> V {
    if i + 1 < input.len() {
        input[i + 1]
    } else {
        input[i]
    }
}

/// Whether `value` lies between the two samples around a position, as far on as the position does.
pub open spec fn interpolates<V: Scalar, P: SourcePosition<V>>(
    input: Seq<V>,
    at: P,
    value: V,
) -> bool {
    exists|index: u64, fraction: V, rise: V, part: V| #[trigger]
        interpolates_by(input, at, value, index, fraction, rise, part)
}

/// As above, by way of the values in between.
pub open spec fn interpolates_by<V: Scalar, P: SourcePosition<V>>(
    input: Seq<V>,
    at: P,
    value: V,
    index: u64,
    fraction: V,
    rise: V,
    part: V,
) -> bool {
    let i = sample_before(input.len() as int, index);
    &&& call_ensures(P::whole, (at,), index)
    &&& call_ensures(P::beyond, (at, index), fraction)
    &&& scalar::is_difference(sample_after(input, i), input[i], rise)
    &&& scalar::is_product(rise, fraction, part)
    &&& scalar::is_sum(input[i], part, value)
}

/// Whether the positions start at the first sample and are `step` apart.
pub open spec fn are_positions<P: Scalar>(positions: Seq<P>, step: P) -> bool {
    &&& positions.len() > 0
    &&& scalar::is_ratio(0, 1, positions[0])
    &&& forall|i: int| 0 <= i < positions.len() - 1 ==> #[trigger] moves_on(positions, step, i)
}

/// Whether position `i` is followed by the one `step` behind it.
pub open spec fn moves_on<P: Scalar>(positions: Seq<P>, step: P, i: int) -> bool {
    scalar::is_sum(positions[i], step, positions[i + 1])
}

/// Whether the last of the `len` samples that are read lies `whole` whole steps behind the first.
pub open spec fn spans<P: Scalar>(len: int, step: P, whole: u64) -> bool {
    exists|last: P, span: P| #[trigger] spans_by(len, step, whole, last, span)
}

/// As above, by way of the values in between.
pub open spec fn spans_by<P: Scalar>(len: int, step: P, whole: u64, last: P, span: P) -> bool {
    &&& scalar::is_ratio(len - 1, 1, last)
    &&& scalar::is_quotient(last, step, span)
    &&& call_ensures(P::whole, (span,), whole)
}

/// Whether `output` holds an interpolated sample for every position.
pub open spec fn interpolated<V: Scalar, P: SourcePosition<V>>(
    input: Seq<V>,
    positions: Seq<P>,
    output: Seq<V>,
) -> bool {
    &&& output.len() == positions.len()
    &&& forall|i: int|
        0 <= i < output.len() ==> interpolates(input, positions[i], #[trigger] output[i])
}

/// Whether resampling `input` with a given step gives `output`.
pub open spec fn resamples_by<V: Scalar, P: SourcePosition<V>>(
    input: Seq<V>,
    output: Seq<V>,
    step: P,
    whole: u64,
    positions: Seq<P>,
) -> bool {
    &&& spans(input.len() as int, step, whole)
    &&& positions.len() == whole + 1
    &&& are_positions(positions, step)
    &&& interpolated(input, positions, output)
}

/// Whether resampling `input` gives `output`: as many samples as there are steps of `from_rate`
/// over `to_rate` up to the last sample, and the first one.
pub open spec fn resamples<V: Scalar, P: SourcePosition<V>>(
    input: Seq<V>,
    from_rate: V,
    to_rate: V,
    output: Seq<V>,
) -> bool {
    exists|step: P, whole: u64, positions: Seq<P>|
        #![trigger resamples_by(input, output, step, whole, positions)]
        call_ensures(P::step, (from_rate, to_rate), step) && resamples_by(
            input,
            output,
            step,
            whole,
            positions,
        )
}

/// Whether `output` is what `resample_fast` gives: where the rates are equal or there is nothing to
/// read the samples as they are, else the resampled ones.
pub open spec fn is_resampled<V: Scalar, P: SourcePosition<V>>(
    input: Seq<V>,
    from_rate: V,
    to_rate: V,
    output: Seq<V>,
) -> bool {
    ||| (input.len() == 0 || call_ensures(V::same, (from_rate, to_rate), true)) && output == input
    ||| input.len() > 0 && call_ensures(V::same, (from_rate, to_rate), false) && resamples::<V, P>(
        input,
        from_rate,
        to_rate,
        output,
    )
}

fn interpolate<V: Scalar, P: SourcePosition<V>>(input: &Vec<V>, at: P) -> (value: V)
    requires
        input@.len() > 0,
    ensures
        interpolates(input@, at, value),
{
    let index: u64 = at.whole();
    assert(call_ensures(P::whole, (at,), index));
    let fraction: V = at.beyond(index);
    assert(call_ensures(P::beyond, (at, index), fraction));
    let last: usize = input.len() - 1;
    let i: usize = if index < last as u64 {
        index as usize
    } else {
        last
    };
    let first: V = input[i];
    let second: V = if i + 1 < input.len() {
        input[i + 1]
    } else {
        first
    };
    let rise = scalar::difference(second, first);
    let part = scalar::product(rise, fraction);
    let value = scalar::sum(first, part);
    assert(interpolates_by(input@, at, value, index, fraction, rise, part));
    value
}

/// Resamples by linear interpolation.
pub fn resample_fast<V: Scalar, P: SourcePosition<V>>(
    input: &Vec<V>,
    from_rate: V,
    to_rate: V,
) -> (output: Arc<Vec<V>>)
    requires
        input@.len() <= i64::MAX,
    ensures
        is_resampled::<V, P>(input@, from_rate, to_rate, output@),
{
    let same: bool = from_rate.same(to_rate);
    assert(call_ensures(V::same, (from_rate, to_rate), same));
    let mut output: Vec<V> = Vec::new();
    if same || input.len() == 0 {
        let mut i: usize = 0;
        while i < input.len()
            invariant
                i <= input@.len(),
                output@ == input@.take(i as int),
            decreases input@.len() - i,
        {
            output.push(input[i]);
            i += 1;
        }
        assert(output@ =~= input@);
        return Arc::new(output);
    }
    let step: P = P::step(from_rate, to_rate);
    assert(call_ensures(P::step, (from_rate, to_rate), step));
    let last: P = scalar::ratio((input.len() - 1) as i64, 1);
    let span: P = scalar::quotient(last, step);
    let whole: u64 = span.whole();
    assert(spans_by(input@.len() as int, step, whole, last, span));
    let mut position: P = scalar::ratio(0, 1);
    let ghost mut positions: Seq<P> = seq![position];
    output.push(interpolate(input, position));
    let mut i: u64 = 0;
    while i < whole
        invariant
            i <= whole,
            input@.len() > 0,
            positions.len() == i + 1,
            positions.last() == position,
            are_positions(positions, step),
            interpolated(input@, positions, output@),
        decreases whole - i,
    {
        let ghost earlier = positions;
        position = scalar::sum(position, step);
        proof {
            positions = positions.push(position);
            assert forall|j: int| 0 <= j < positions.len() - 1 implies #[trigger] moves_on(
                positions,
                step,
                j,
            ) by {
                if j < earlier.len() - 1 {
                    assert(moves_on(earlier, step, j));
                }
            }
        }
        output.push(interpolate(input, position));
        i += 1;
    }
    assert(resamples_by(input@, output@, step, whole, positions));
    Arc::new(output)
}

/// Whether `value` is a 16-bit sample as an amplitude: a 32767th of it.
pub open spec fn is_amplitude<V: Scalar>(sample: i16, value: V) -> bool {
    exists|number: V, scale: V| #[trigger] is_amplitude_by(sample, value, number, scale)
}

/// As above, by way of the values in between.
pub open spec fn is_amplitude_by<V: Scalar>(sample: i16, value: V, number: V, scale: V) -> bool {
    &&& scalar::is_ratio(sample as int, 1, number)
    &&& scalar::is_ratio(1, 32767, scale)
    &&& scalar::is_product(number, scale, value)
}

/// Whether `values` holds the amplitudes of `samples`.
pub open spec fn are_amplitudes<V: Scalar>(samples: Seq<i16>, values: Seq<V>) -> bool {
    &&& values.len() == samples.len()
    &&& forall|i: int| 0 <= i < values.len() ==> is_amplitude(samples[i], #[trigger] values[i])
}

/// Resamples 16-bit samples: first to amplitudes, and these by linear interpolation.
pub fn resample_i16<V: Scalar, P: SourcePosition<V>>(
    input: &Vec<i16>,
    from_rate: V,
    to_rate: V,
) -> (output: Arc<Vec<V>>)
    requires
        input@.len() <= i64::MAX,
    ensures
        exists|values: Seq<V>| #[trigger]
            are_amplitudes(input@, values) && is_resampled::<V, P>(
                values,
                from_rate,
                to_rate,
                output@,
            ),
{
    let scale: V = scalar::ratio(1, 32767);
    let mut values: Vec<V> = Vec::new();
    let mut i: usize = 0;
    while i < input.len()
        invariant
            i <= input@.len(),
            scalar::is_ratio(1, 32767, scale),
            are_amplitudes(input@.take(i as int), values@),
        decreases input@.len() - i,
    {
        let number: V = scalar::ratio(input[i] as i64, 1);
        let value = scalar::product(number, scale);
        values.push(value);
        assert(is_amplitude_by(input@[i as int], value, number, scale));
        i += 1;
    }
    assert(input@.take(i as int) =~= input@);
    resample_fast::<V, P>(&values, from_rate, to_rate)
}

/// Resamples each of several sample vectors.
pub fn resample_vecs<V: Scalar, P: SourcePosition<V>>(
    vecs: Vec<Vec<V>>,
    sample_rate: V,
    new_sample_rate: V,
) -> (outputs: Arc<Vec<Arc<Vec<V>>>>)
    requires
        forall|i: int| 0 <= i < vecs@.len() ==> (#[trigger] vecs@[i])@.len() <= i64::MAX,
    ensures
        outputs@.len() == vecs@.len(),
        forall|i: int|
            0 <= i < vecs@.len() ==> is_resampled::<V, P>(
                vecs@[i]@,
                sample_rate,
                new_sample_rate,
                (#[trigger] outputs@[i])@,
            ),
{
    let mut outputs: Vec<Arc<Vec<V>>> = Vec::new();
    let mut i: usize = 0;
    while i < vecs.len()
        invariant
            i <= vecs@.len(),
            forall|j: int| 0 <= j < vecs@.len() ==> (#[trigger] vecs@[j])@.len() <= i64::MAX,
            outputs@.len() == i,
            forall|j: int|
                0 <= j < i ==> is_resampled::<V, P>(
                    vecs@[j]@,
                    sample_rate,
                    new_sample_rate,
                    (#[trigger] outputs@[j])@,
                ),
        decreases vecs@.len() - i,
    {
        assert(vecs@[i as int]@.len() <= i64::MAX);
        outputs.push(resample_fast::<V, P>(&vecs[i], sample_rate, new_sample_rate));
        i += 1;
    }
    Arc::new(outputs)
}

/// Resamples a sample vector.
pub fn resample_vec<V: Scalar, P: SourcePosition<V>>(
    vec: Vec<V>,
    sample_rate: V,
    new_sample_rate: V,
) -> (output: Arc<Vec<V>>)
    requires
        vec@.len() <= i64::MAX,
    ensures
        is_resampled::<V, P>(vec@, sample_rate, new_sample_rate, output@),
{
    resample_fast::<V, P>(&vec, sample_rate, new_sample_rate)
}

/// The sample at a position, or the last one for a position behind it.
pub open spec fn at_or_last<V>(input: Seq<V>, i: int) -> V {
    if i < input.len() {
        input[i]
    } else {
        input[input.len() - 1]
    }
}

/// Whether `value` is `a`, and as much of the way from `a` to `b` as `fraction` says.
pub open spec fn lies_between<V: Scalar>(a: V, b: V, fraction: V, value: V) -> bool {
    exists|rise: V, part: V|
        #![trigger call_ensures(V::minus, (b, a), rise), call_ensures(V::times, (rise, fraction), part)]
        call_ensures(V::minus, (b, a), rise) && call_ensures(V::times, (rise, fraction), part)
            && call_ensures(V::plus, (a, part), value)
}

/// Whether `value` is read at a position: between the samples on both sides of it.
pub open spec fn is_read_at<V: Scalar, P: SourcePosition<V>>(
    input: Seq<V>,
    at: P,
    value: V,
) -> bool {
    exists|index: u64, fraction: V|
        #![trigger call_ensures(P::beyond, (at, index), fraction)]
        call_ensures(P::whole, (at,), index) && call_ensures(P::beyond, (at, index), fraction)
            && lies_between(
            at_or_last(input, index as int),
            at_or_last(input, index + 1),
            fraction,
            value,
        )
}

/// Whether positions start at the first sample and go on by one step each.
pub open spec fn goes_by<P: Scalar>(positions: Seq<P>, step: P) -> bool {
    &&& positions.len() > 0
    &&& call_ensures(P::ratio, (0, 1), positions[0])
    &&& forall|i: int|
        0 < i < positions.len() ==> call_ensures(
            P::plus,
            (positions[i - 1], step),
            #[trigger] positions[i],
        )
}

/// Whether `steps` whole steps reach the last of `len` samples.
pub open spec fn reaches_last<P: Scalar>(len: int, step: P, steps: int) -> bool {
    exists|last: P, span: P|
        #![trigger call_ensures(P::over, (last, step), span)]
        call_ensures(P::ratio, ((len - 1) as i64, 1), last) && call_ensures(
            P::over,
            (last, step),
            span,
        ) && call_ensures(P::whole, (span,), steps as u64) && 0 <= steps <= u64::MAX
}

/// Whether `output` is read from `input` at positions that lie `step` apart, up to the last sample.
pub open spec fn is_read_by<V: Scalar, P: SourcePosition<V>>(
    input: Seq<V>,
    step: P,
    positions: Seq<P>,
    output: Seq<V>,
) -> bool {
    &&& goes_by(positions, step)
    &&& reaches_last(input.len() as int, step, positions.len() - 1)
    &&& output.len() == positions.len()
    &&& forall|i: int|
        0 <= i < output.len() ==> is_read_at(input, positions[i], #[trigger] output[i])
}

/// Whether `output` is `input` at another rate: where the rates are the same it is `input`; else it
/// is read in steps of the one rate over the other. Of nothing comes nothing.
pub open spec fn is_at_rate<V: Scalar, P: SourcePosition<V>>(
    input: Seq<V>,
    from_rate: V,
    to_rate: V,
    output: Seq<V>,
) -> bool {
    ||| input.len() == 0 && output.len() == 0
    ||| call_ensures(V::same, (from_rate, to_rate), true) && output == input
    ||| input.len() > 0 && call_ensures(V::same, (from_rate, to_rate), false) && exists|
        step: P,
        positions: Seq<P>,
    |
        #![trigger is_read_by(input, step, positions, output)]
        call_ensures(P::step, (from_rate, to_rate), step) && is_read_by(
            input,
            step,
            positions,
            output,
        )
}

/// Resampling reads between the samples on both sides of each position, from the first sample on, in
/// steps of the old rate over the new one, as far as the last sample. At the same rate nothing
/// changes.
pub proof fn lemma_resampling<V: Scalar, P: SourcePosition<V>>(
    input: Vec<V>,
    from_rate: V,
    to_rate: V,
    output: Arc<Vec<V>>,
    moved: Arc<Vec<V>>,
)
    requires
        call_ensures(resample_fast::<V, P>, (&input, from_rate, to_rate), output),
        call_ensures(resample_vec::<V, P>, (input, from_rate, to_rate), moved),
    ensures
        is_at_rate::<V, P>(input@, from_rate, to_rate, output@),
        is_at_rate::<V, P>(input@, from_rate, to_rate, moved@),
{
    lemma_at_rate::<V, P>(input@, from_rate, to_rate, output@);
    lemma_at_rate::<V, P>(input@, from_rate, to_rate, moved@);
}

/// Several sample vectors are resampled each on its own.
pub proof fn lemma_resampling_each<V: Scalar, P: SourcePosition<V>>(
    vecs: Vec<Vec<V>>,
    from_rate: V,
    to_rate: V,
    outputs: Arc<Vec<Arc<Vec<V>>>>,
)
    requires
        call_ensures(resample_vecs::<V, P>, (vecs, from_rate, to_rate), outputs),
    ensures
        outputs@.len() == vecs@.len(),
        forall|i: int|
            0 <= i < vecs@.len() ==> is_at_rate::<V, P>(
                vecs@[i]@,
                from_rate,
                to_rate,
                (#[trigger] outputs@[i])@,
            ),
{
    assert forall|i: int| 0 <= i < vecs@.len() implies is_at_rate::<V, P>(
        vecs@[i]@,
        from_rate,
        to_rate,
        (#[trigger] outputs@[i])@,
    ) by {
        lemma_at_rate::<V, P>(vecs@[i]@, from_rate, to_rate, outputs@[i]@);
    }
}

/// Whether `value` is a 32767th of a 16-bit sample.
pub open spec fn is_fraction_of<V: Scalar>(sample: i16, value: V) -> bool {
    exists|number: V, scale: V|
        #![trigger call_ensures(V::times, (number, scale), value)]
        call_ensures(V::ratio, (sample as i64, 1), number) && call_ensures(
            V::ratio,
            (1, 32767),
            scale,
        ) && call_ensures(V::times, (number, scale), value)
}

/// Whether `values` are the samples as amplitudes, in order.
pub open spec fn are_fractions_of<V: Scalar>(samples: Seq<i16>, values: Seq<V>) -> bool {
    &&& values.len() == samples.len()
    &&& forall|i: int|
        0 <= i < samples.len() ==> is_fraction_of(samples[i], #[trigger] values[i])
}

/// 16-bit samples become amplitudes, a 32767th of each, and these are resampled.
pub proof fn lemma_resampling_i16<V: Scalar, P: SourcePosition<V>>(
    input: Vec<i16>,
    from_rate: V,
    to_rate: V,
    output: Arc<Vec<V>>,
)
    requires
        call_ensures(resample_i16::<V, P>, (&input, from_rate, to_rate), output),
    ensures
        exists|values: Seq<V>| #[trigger]
            are_fractions_of(input@, values) && is_at_rate::<V, P>(
                values,
                from_rate,
                to_rate,
                output@,
            ),
{
    let values = choose|values: Seq<V>| #[trigger]
        are_amplitudes(input@, values) && is_resampled::<V, P>(
            values,
            from_rate,
            to_rate,
            output@,
        );
    lemma_at_rate::<V, P>(values, from_rate, to_rate, output@);
    assert forall|i: int| 0 <= i < values.len() implies is_fraction_of(
        input@[i],
        #[trigger] values[i],
    ) by {
        let (number, scale) = choose|number: V, scale: V| #[trigger]
            is_amplitude_by(input@[i], values[i], number, scale);
        assert(call_ensures(V::times, (number, scale), values[i]));
    }
    assert(are_fractions_of(input@, values));
}

/// What resampling gives.
pub(crate) proof fn lemma_at_rate<V: Scalar, P: SourcePosition<V>>(
    input: Seq<V>,
    from_rate: V,
    to_rate: V,
    output: Seq<V>,
)
    requires
        is_resampled::<V, P>(input, from_rate, to_rate, output),
    ensures
        is_at_rate::<V, P>(input, from_rate, to_rate, output),
{
    if input.len() > 0 && !(call_ensures(V::same, (from_rate, to_rate), true) && output == input) {
        let (step, whole, positions) = choose|step: P, whole: u64, positions: Seq<P>|
            #![trigger resamples_by(input, output, step, whole, positions)]
            call_ensures(P::step, (from_rate, to_rate), step) && resamples_by(
                input,
                output,
                step,
                whole,
                positions,
            );
        let (last, span) = choose|last: P, span: P| #[trigger]
            spans_by(input.len() as int, step, whole, last, span);
        assert(call_ensures(P::over, (last, step), span));
        assert(reaches_last(input.len() as int, step, positions.len() - 1));
        assert forall|i: int| 0 < i < positions.len() implies call_ensures(
            P::plus,
            (positions[i - 1], step),
            #[trigger] positions[i],
        ) by {
            assert(moves_on(positions, step, i - 1));
        }
        assert forall|i: int| 0 <= i < output.len() implies is_read_at(
            input,
            positions[i],
            #[trigger] output[i],
        ) by {
            lemma_read_at(input, positions[i], output[i]);
        }
        assert(is_read_by(input, step, positions, output));
    }
}

/// What interpolation reads.
proof fn lemma_read_at<V: Scalar, P: SourcePosition<V>>(input: Seq<V>, at: P, value: V)
    requires
        interpolates(input, at, value),
        input.len() > 0,
    ensures
        is_read_at(input, at, value),
{
    let (index, fraction, rise, part) = choose|index: u64, fraction: V, rise: V, part: V| #[trigger]
        interpolates_by(input, at, value, index, fraction, rise, part);
    let a = at_or_last(input, index as int);
    let b = at_or_last(input, index + 1);
    assert(call_ensures(V::minus, (b, a), rise));
    assert(call_ensures(V::times, (rise, fraction), part));
    assert(lies_between(a, b, fraction, value));
    assert(call_ensures(P::beyond, (at, index), fraction));
}

} // verus!
