//! The controllers of a channel.

use vstd::prelude::*;
use crate::channel::event::{ChannelAudioEvent, ControlEvent};
use crate::channel::key;
use crate::channel::key::KeyData;
use crate::channel::voice_buffer;
use crate::channel::voice_buffer::{ChannelInitOptions, VoiceBuffer};
use crate::helpers;
use crate::scalar;
use crate::scalar::Scalar;
use crate::stream::AudioStreamParams;
use crate::voice;
use crate::voice::{
    EnvelopeCCControlData, EnvelopeControlData, ReleaseType, Voice, VoiceControlData,
    VoiceGeneratorBase,
};

verus! {

/// Whether `length` is the number of samples in a hundredth of a second.
pub open spec fn is_lerp_length<V: Scalar>(sample_rate: u32, length: V) -> bool {
    exists|rate: V, part: V|
        {
            &&& scalar::is_ratio(sample_rate as int, 1, rate)
            &&& scalar::is_ratio(1, 100, part)
            &&& #[trigger] scalar::is_product(rate, part, length)
        }
}

/// Whether `step` leads from `current` to `end` in `length` samples.
pub open spec fn is_lerp_step<V: Scalar>(current: V, end: V, length: V, step: V) -> bool {
    exists|distance: V|
        {
            &&& scalar::is_difference(end, current, distance)
            &&& #[trigger] scalar::is_quotient(distance, length, step)
        }
}

/// A value that moves to its target over a hundredth of a second.
#[derive(Copy, Clone)]
pub struct ValueLerp<V> {
    pub lerp_length: V,
    pub step: V,
    pub current: V,
    pub end: V,
}

impl<V: Scalar> ValueLerp<V> {
    /// Whether the value rests at `current`.
    pub open spec fn rests(self, current: V, sample_rate: u32) -> bool {
        &&& self.current == current
        &&& self.end == current
        &&& scalar::is_ratio(0, 1, self.step)
        &&& is_lerp_length(sample_rate, self.lerp_length)
    }

    /// Whether giving `pre` the target `end` makes it `post`.
    pub open spec fn aims(pre: Self, end: V, post: Self) -> bool {
        &&& post.lerp_length == pre.lerp_length
        &&& post.current == pre.current
        &&& post.end == end
        &&& is_lerp_step(pre.current, end, pre.lerp_length, post.step)
    }

    /// A value at rest.
    pub fn new(current: V, sample_rate: u32) -> (lerp: Self)
        ensures
            lerp.rests(current, sample_rate),
    {
        let rate = scalar::ratio(sample_rate as i64, 1);
        let part = scalar::ratio(1, 100);
        let lerp_length = scalar::product(rate, part);
        ValueLerp {
            lerp_length,
            step: scalar::ratio(0, 1),
            current,
            end: current,
        }
    }

    /// Gives the value a new target.
    pub fn set_end(&mut self, end: V)
        ensures
            Self::aims(*old(self), end, *final(self)),
    {
        let distance = scalar::difference(end, self.current);
        self.step = scalar::quotient(distance, self.lerp_length);
        self.end = end;
    }

    /// Takes one step to the target and never past it, and tells where the value is.
    pub fn get_next(&mut self) -> (current: V)
        ensures
            current == final(self).current,
            final(self).lerp_length == old(self).lerp_length,
            final(self).step == old(self).step,
            final(self).end == old(self).end,
            Self::steps(*old(self), final(self).current),
    {
        if scalar::less(self.current, self.end) {
            let sum = scalar::sum(self.current, self.step);
            self.current = scalar::smaller(sum, self.end);
        } else if scalar::less(self.end, self.current) {
            let sum = scalar::sum(self.current, self.step);
            self.current = scalar::larger(sum, self.end);
        }
        self.current
    }

    /// Whether one step leads from `pre` to `current`: the step is added and the sum is cut off at
    /// the target, whichever way that lies; at the target the value stays.
    pub open spec fn steps(pre: Self, current: V) -> bool {
        ||| exists|sum: V|
            {
                &&& scalar::is_less(pre.current, pre.end, true)
                &&& scalar::is_sum(pre.current, pre.step, sum)
                &&& #[trigger] scalar::is_smaller(sum, pre.end, current)
            }
        ||| exists|sum: V|
            {
                &&& scalar::is_less(pre.current, pre.end, false)
                &&& scalar::is_less(pre.end, pre.current, true)
                &&& scalar::is_sum(pre.current, pre.step, sum)
                &&& #[trigger] scalar::is_larger(sum, pre.end, current)
            }
        ||| {
            &&& scalar::is_less(pre.current, pre.end, false)
            &&& scalar::is_less(pre.end, pre.current, false)
            &&& current == pre.current
        }
    }
}

/// What the controllers of a channel have set.
#[derive(Copy, Clone)]
pub struct ControlEventData<V> {
    pub selected_lsb: i8,
    pub selected_msb: i8,
    pub pitch_bend_sensitivity_lsb: u8,
    pub pitch_bend_sensitivity_msb: u8,
    pub pitch_bend_sensitivity: V,
    pub pitch_bend_value: V,
    pub fine_tune_lsb: u8,
    pub fine_tune_msb: u8,
    pub fine_tune_value: V,
    pub coarse_tune_value: V,
    /// 0 = silent, 1 = max volume
    pub volume: ValueLerp<V>,
    /// 0 = left, 1/2 = center, 1 = right
    pub pan: ValueLerp<V>,
    pub expression: ValueLerp<V>,
    /// The cutoff of the low-pass filter.
    pub cutoff: V,
    pub cutoff_active: bool,
    pub resonance: V,
    pub resonance_active: bool,
    /// The cutoff of the high-pass filter.
    pub highpass_cutoff: V,
    pub highpass_active: bool,
    pub highpass_resonance: V,
    pub highpass_resonance_active: bool,
    pub sample_rate: V,
}

/// Whether `limit` is the highest useful cutoff: 100 below half of the rate.
pub open spec fn is_top_cutoff<V: Scalar>(rate: V, limit: V) -> bool {
    exists|two: V, half: V, margin: V|
        {
            &&& scalar::is_ratio(2, 1, two)
            &&& #[trigger] scalar::is_quotient(rate, two, half)
            &&& scalar::is_ratio(100, 1, margin)
            &&& #[trigger] scalar::is_difference(half, margin, limit)
        }
}

/// The highest useful cutoff.
fn top_cutoff<V: Scalar>(rate: V) -> (limit: V)
    ensures
        is_top_cutoff(rate, limit),
{
    let two = scalar::ratio(2, 1);
    let half = scalar::quotient(rate, two);
    let margin = scalar::ratio(100, 1);
    let limit = scalar::difference(half, margin);
    limit
}

impl<V: Scalar> ControlEventData<V> {
    /// Whether these are the settings of an untouched channel.
    pub open spec fn is_default(self, sample_rate: u32) -> bool {
        &&& self.selected_lsb == -1
        &&& self.selected_msb == -1
        &&& self.pitch_bend_sensitivity_lsb == 0
        &&& self.pitch_bend_sensitivity_msb == 2
        &&& scalar::is_ratio(2, 1, self.pitch_bend_sensitivity)
        &&& scalar::is_ratio(0, 1, self.pitch_bend_value)
        &&& self.fine_tune_lsb == 0
        &&& self.fine_tune_msb == 0
        &&& scalar::is_ratio(0, 1, self.fine_tune_value)
        &&& scalar::is_ratio(0, 1, self.coarse_tune_value)
        &&& scalar::is_ratio(1, 1, self.volume.current)
        &&& self.volume.rests(self.volume.current, sample_rate)
        &&& scalar::is_ratio(1, 2, self.pan.current)
        &&& self.pan.rests(self.pan.current, sample_rate)
        &&& scalar::is_ratio(1, 1, self.expression.current)
        &&& self.expression.rests(self.expression.current, sample_rate)
        &&& is_top_cutoff(self.sample_rate, self.cutoff)
        &&& !self.cutoff_active
        &&& call_ensures(V::butterworth, (), self.resonance)
        &&& !self.resonance_active
        &&& scalar::is_ratio(0, 1, self.highpass_cutoff)
        &&& !self.highpass_active
        &&& call_ensures(V::butterworth, (), self.highpass_resonance)
        &&& !self.highpass_resonance_active
        &&& scalar::is_ratio(sample_rate as int, 1, self.sample_rate)
    }

    /// The settings of an untouched channel.
    pub fn new_defaults(sample_rate: u32) -> (data: Self)
        ensures
            data.is_default(sample_rate),
    {
        let rate = scalar::ratio(sample_rate as i64, 1);
        let cutoff = top_cutoff(rate);
        ControlEventData {
            selected_lsb: -1,
            selected_msb: -1,
            pitch_bend_sensitivity_lsb: 0,
            pitch_bend_sensitivity_msb: 2,
            pitch_bend_sensitivity: scalar::ratio(2, 1),
            pitch_bend_value: scalar::ratio(0, 1),
            fine_tune_lsb: 0,
            fine_tune_msb: 0,
            fine_tune_value: scalar::ratio(0, 1),
            coarse_tune_value: scalar::ratio(0, 1),
            volume: ValueLerp::new(scalar::ratio(1, 1), sample_rate),
            pan: ValueLerp::new(scalar::ratio(1, 2), sample_rate),
            expression: ValueLerp::new(scalar::ratio(1, 1), sample_rate),
            cutoff,
            cutoff_active: false,
            resonance: V::butterworth(),
            resonance_active: false,
            highpass_cutoff: scalar::ratio(0, 1),
            highpass_active: false,
            highpass_resonance: V::butterworth(),
            highpass_resonance_active: false,
            sample_rate: rate,
        }
    }

    /// Whether the low-pass filter has anything to do: it is on, and cuts off below the top.
    pub fn is_lowpass_active(&self) -> (active: bool)
        ensures
            !self.cutoff_active ==> !active,
            self.cutoff_active ==> exists|limit: V| #[trigger]
                is_top_cutoff(self.sample_rate, limit) && scalar::is_less(
                    self.cutoff,
                    limit,
                    active,
                ),
    {
        if !self.cutoff_active {
            return false;
        }
        let limit = top_cutoff(self.sample_rate);
        scalar::less(self.cutoff, limit)
    }

    /// Whether the high-pass filter has anything to do: it is on, and cuts off above 1.
    pub fn is_highpass_active(&self) -> (active: bool)
        ensures
            !self.highpass_active ==> !active,
            self.highpass_active ==> exists|one: V| #[trigger]
                scalar::is_ratio(1, 1, one) && scalar::is_less(one, self.highpass_cutoff, active),
    {
        if !self.highpass_active {
            return false;
        }
        let one = scalar::ratio(1, 1);
        scalar::less(one, self.highpass_cutoff)
    }
}

/// The bank and the preset that a channel plays.
#[derive(Copy, Clone, Debug, PartialEq, Eq, Structural)]
pub struct ProgramParams {
    pub bank: u8,
    pub preset: u8,
}

/// A channel: its controls, its keys and the program that it plays.
pub struct VoiceChannel<V, Vo> {
    pub control_event_data: ControlEventData<V>,
    pub voice_control_data: VoiceControlData<V>,
    pub key_voices: Vec<KeyData<Vo>>,
    pub params: ProgramParams,
    pub stream_params: AudioStreamParams,
}

/// Whether `s` is `a / b + c / d`.
pub open spec fn is_mixed<V: Scalar>(a: int, b: int, c: int, d: int, s: V) -> bool {
    exists|whole: V, part: V|
        {
            &&& scalar::is_ratio(a, b, whole)
            &&& scalar::is_ratio(c, d, part)
            &&& #[trigger] scalar::is_sum(whole, part, s)
        }
}

/// Whether `multiplier` is the frequency ratio of an interval in semitones: `2^(semitones / 12)`.
pub open spec fn is_pitch_ratio<V: Scalar>(semitones: V, multiplier: V) -> bool {
    exists|two: V, twelve: V, octaves: V| #[trigger]
        is_pitch_ratio_by(semitones, multiplier, two, twelve, octaves)
}

/// As above, by way of the values in between.
pub open spec fn is_pitch_ratio_by<V: Scalar>(
    semitones: V,
    multiplier: V,
    two: V,
    twelve: V,
    octaves: V,
) -> bool {
    &&& scalar::is_ratio(2, 1, two)
    &&& scalar::is_ratio(12, 1, twelve)
    &&& scalar::is_quotient(semitones, twelve, octaves)
    &&& call_ensures(V::raised, (two, octaves), multiplier)
}

fn pitch_ratio<V: Scalar>(semitones: V) -> (multiplier: V)
    ensures
        is_pitch_ratio(semitones, multiplier),
{
    let two: V = scalar::ratio(2, 1);
    let twelve: V = scalar::ratio(12, 1);
    let octaves = scalar::quotient(semitones, twelve);
    let multiplier: V = two.raised(octaves);
    assert(is_pitch_ratio_by(semitones, multiplier, two, twelve, octaves));
    multiplier
}

/// Whether `resonance` is what a controller value selects: `(value - 64) / 2.4` decibels above the
/// Butterworth filter.
pub open spec fn is_resonance<V: Scalar>(value: u8, resonance: V) -> bool {
    exists|db: V, amp: V, butterworth: V| #[trigger]
        is_resonance_by(value, resonance, db, amp, butterworth)
}

/// As above, by way of the values in between.
pub open spec fn is_resonance_by<V: Scalar>(
    value: u8,
    resonance: V,
    db: V,
    amp: V,
    butterworth: V,
) -> bool {
    &&& exists|distance: V, unit: V|
        scalar::is_ratio(value - 64, 1, distance) && scalar::is_ratio(24, 10, unit)
            && #[trigger] scalar::is_quotient(distance, unit, db)
    &&& helpers::is_db_amp(db, amp)
    &&& call_ensures(V::butterworth, (), butterworth)
    &&& scalar::is_product(amp, butterworth, resonance)
}

fn resonance_of<V: Scalar>(value: u8) -> (resonance: V)
    ensures
        is_resonance(value, resonance),
{
    let distance: V = scalar::ratio(value as i64 - 64, 1);
    let unit: V = scalar::ratio(24, 10);
    let db = scalar::quotient(distance, unit);
    let amp = helpers::db_to_amp(db);
    let butterworth: V = V::butterworth();
    assert(call_ensures(V::butterworth, (), butterworth));
    let resonance = scalar::product(amp, butterworth);
    assert(is_resonance_by(value, resonance, db, amp, butterworth));
    resonance
}

/// Whether `cutoff` is the low-pass frequency that a controller value selects: that of a key, with
/// what it has above 7000 stretched.
pub open spec fn is_cutoff<V: Scalar>(value: u8, cutoff: V) -> bool {
    exists|frequency: V, bend: V, high: bool| #[trigger]
        is_cutoff_by(value, cutoff, frequency, bend, high)
}

/// As above, by way of the frequency of the key and the bound.
pub open spec fn is_cutoff_by<V: Scalar>(
    value: u8,
    cutoff: V,
    frequency: V,
    bend: V,
    high: bool,
) -> bool {
    &&& call_ensures(V::key_frequency, ((value + 64) as u8,), frequency)
    &&& scalar::is_ratio(7000, 1, bend)
    &&& scalar::is_less(bend, frequency, high)
    &&& if high {
        is_stretched(frequency, bend, cutoff)
    } else {
        cutoff == frequency
    }
}

/// Whether `cutoff` is `((frequency / bend - 1) * 2.36 + 1) * bend`.
pub open spec fn is_stretched<V: Scalar>(frequency: V, bend: V, cutoff: V) -> bool {
    exists|one: V, stretch: V, times: V, above: V, more: V, factor: V| #[trigger]
        is_stretched_by(frequency, bend, cutoff, one, stretch, times, above, more, factor)
}

/// As above, by way of the values in between.
pub open spec fn is_stretched_by<V: Scalar>(
    frequency: V,
    bend: V,
    cutoff: V,
    one: V,
    stretch: V,
    times: V,
    above: V,
    more: V,
    factor: V,
) -> bool {
    &&& scalar::is_ratio(1, 1, one)
    &&& scalar::is_ratio(236, 100, stretch)
    &&& scalar::is_quotient(frequency, bend, times)
    &&& scalar::is_difference(times, one, above)
    &&& scalar::is_product(above, stretch, more)
    &&& scalar::is_sum(more, one, factor)
    &&& scalar::is_product(factor, bend, cutoff)
}

fn cutoff_of<V: Scalar>(value: u8) -> (cutoff: V)
    requires
        value < 64,
    ensures
        is_cutoff(value, cutoff),
{
    let frequency: V = V::key_frequency(value + 64);
    assert(call_ensures(V::key_frequency, ((value + 64) as u8,), frequency));
    let bend: V = scalar::ratio(7000, 1);
    let high: bool = scalar::less(bend, frequency);
    if !high {
        assert(is_cutoff_by(value, frequency, frequency, bend, high));
        return frequency;
    }
    let one: V = scalar::ratio(1, 1);
    let stretch: V = scalar::ratio(236, 100);
    let times = scalar::quotient(frequency, bend);
    let above = scalar::difference(times, one);
    let more = scalar::product(above, stretch);
    let factor = scalar::sum(more, one);
    let cutoff = scalar::product(factor, bend);
    assert(is_stretched_by(frequency, bend, cutoff, one, stretch, times, above, more, factor));
    assert(is_cutoff_by(value, cutoff, frequency, bend, high));
    cutoff
}

/// Whether `multiplier` is the frequency ratio of a bend and a coarse tune in semitones and a fine
/// tune in cents.
pub open spec fn is_pitch<V: Scalar>(bend: V, coarse: V, fine: V, multiplier: V) -> bool {
    exists|hundred: V, semitones: V, tuned: V, combined: V|
        {
            &&& scalar::is_ratio(100, 1, hundred)
            &&& #[trigger] scalar::is_quotient(fine, hundred, semitones)
            &&& scalar::is_sum(bend, coarse, tuned)
            &&& #[trigger] scalar::is_sum(tuned, semitones, combined)
            &&& is_pitch_ratio(combined, multiplier)
        }
}

/// Whether `value` is `a`, but at least `num / den`.
pub open spec fn is_at_least<V: Scalar>(a: V, num: int, den: int, value: V) -> bool {
    exists|least: V| scalar::is_ratio(num, den, least) && #[trigger] scalar::is_larger(a, least, value)
}

/// Whether every key of `pre` follows the controls in `post`.
pub open spec fn keys_follow<V: Scalar, Vo: Voice + VoiceGeneratorBase<Control = VoiceControlData<V>>>(
    pre: Seq<KeyData<Vo>>,
    control: VoiceControlData<V>,
    post: Seq<KeyData<Vo>>,
) -> bool {
    &&& post.len() == pre.len()
    &&& forall|i: int|
        0 <= i < pre.len() ==> {
            &&& (#[trigger] post[i]).note() == pre[i].note()
            &&& VoiceBuffer::takes_controls(pre[i].buffer(), control, post[i].buffer())
        }
}

/// Whether the damper of every key of `pre` is moved in `post`.
pub open spec fn keys_damp<Vo: Voice>(
    pre: Seq<KeyData<Vo>>,
    damper: bool,
    post: Seq<KeyData<Vo>>,
) -> bool {
    &&& post.len() == pre.len()
    &&& forall|i: int|
        0 <= i < pre.len() ==> {
            &&& (#[trigger] post[i]).note() == pre[i].note()
            &&& VoiceBuffer::moves_damper(pre[i].buffer(), damper, post[i].buffer())
        }
}

impl<V: Scalar, Vo: Voice + VoiceGeneratorBase<Control = VoiceControlData<V>>> VoiceChannel<V, Vo> {
    /// Every key is consistent.
    pub open spec fn wf(&self) -> bool {
        forall|i: int| 0 <= i < self.key_voices@.len() ==> (#[trigger] self.key_voices@[i]).wf()
    }

    /// Hands the controls on to the voices of every key.
    fn propagate_voice_controls(&mut self)
        requires
            old(self).wf(),
        ensures
            final(self).wf(),
            keys_follow(
                old(self).key_voices@,
                old(self).voice_control_data,
                final(self).key_voices@,
            ),
            final(self).control_event_data == old(self).control_event_data,
            final(self).voice_control_data == old(self).voice_control_data,
            final(self).params == old(self).params,
            final(self).stream_params == old(self).stream_params,
    {
        let control = self.voice_control_data;
        let ghost pre = self.key_voices@;
        let mut i: usize = 0;
        while i < self.key_voices.len()
            invariant
                i <= self.key_voices@.len(),
                self.key_voices@.len() == pre.len(),
                forall|j: int|
                    0 <= j < i ==> {
                        &&& (#[trigger] self.key_voices@[j]).wf()
                        &&& self.key_voices@[j].note() == pre[j].note()
                        &&& VoiceBuffer::takes_controls(
                            pre[j].buffer(),
                            control,
                            self.key_voices@[j].buffer(),
                        )
                    },
                forall|j: int| 0 <= j < pre.len() ==> (#[trigger] pre[j]).wf(),
                forall|j: int| i <= j < pre.len() ==> #[trigger] self.key_voices@[j] == pre[j],
                control == old(self).voice_control_data,
                self.control_event_data == old(self).control_event_data,
                self.voice_control_data == old(self).voice_control_data,
                self.params == old(self).params,
                self.stream_params == old(self).stream_params,
            decreases self.key_voices@.len() - i,
        {
            assert(pre[i as int].wf());
            self.key_voices[i].process_controls(&control);
            i += 1;
        }
    }

    /// Moves the damper of every key.
    fn set_damper(&mut self, damper: bool)
        requires
            old(self).wf(),
        ensures
            final(self).wf(),
            keys_damp(old(self).key_voices@, damper, final(self).key_voices@),
            final(self).control_event_data == old(self).control_event_data,
            final(self).voice_control_data == old(self).voice_control_data,
            final(self).params == old(self).params,
            final(self).stream_params == old(self).stream_params,
    {
        let ghost pre = self.key_voices@;
        let mut i: usize = 0;
        while i < self.key_voices.len()
            invariant
                i <= self.key_voices@.len(),
                self.key_voices@.len() == pre.len(),
                forall|j: int|
                    0 <= j < i ==> {
                        &&& (#[trigger] self.key_voices@[j]).wf()
                        &&& self.key_voices@[j].note() == pre[j].note()
                        &&& VoiceBuffer::moves_damper(
                            pre[j].buffer(),
                            damper,
                            self.key_voices@[j].buffer(),
                        )
                    },
                forall|j: int| 0 <= j < pre.len() ==> (#[trigger] pre[j]).wf(),
                forall|j: int| i <= j < pre.len() ==> #[trigger] self.key_voices@[j] == pre[j],
                self.control_event_data == old(self).control_event_data,
                self.voice_control_data == old(self).voice_control_data,
                self.params == old(self).params,
                self.stream_params == old(self).stream_params,
            decreases self.key_voices@.len() - i,
        {
            assert(pre[i as int].wf());
            self.key_voices[i].set_damper(damper);
            i += 1;
        }
    }

    /// A channel of 128 keys that nothing has been sent to.
    pub fn new(options: ChannelInitOptions, stream_params: AudioStreamParams) -> (channel: Self)
        requires
            voice::release_is_seen::<Vo>(),
        ensures
            channel.wf(),
            channel.control_event_data.is_default(stream_params.sample_rate),
            channel.voice_control_data.is_default(),
            channel.params == (ProgramParams { bank: 0, preset: 0 }),
            channel.stream_params == stream_params,
            channel.key_voices@.len() == 128,
            forall|i: int|
                0 <= i < 128 ==> {
                    &&& (#[trigger] channel.key_voices@[i]).note() == i
                    &&& channel.key_voices@[i].buffer().is_new(options)
                },
    {
        let mut key_voices: Vec<KeyData<Vo>> = Vec::new();
        let mut key: u8 = 0;
        while key < 128
            invariant
                key <= 128,
                voice::release_is_seen::<Vo>(),
                key_voices@.len() == key,
                forall|i: int|
                    0 <= i < key ==> {
                        &&& (#[trigger] key_voices@[i]).wf()
                        &&& key_voices@[i].note() == i
                        &&& key_voices@[i].buffer().is_new(options)
                    },
            decreases 128 - key,
        {
            key_voices.push(KeyData::new(key, options));
            key += 1;
        }
        VoiceChannel {
            control_event_data: ControlEventData::new_defaults(stream_params.sample_rate),
            voice_control_data: VoiceControlData::new_defaults(),
            key_voices,
            params: ProgramParams { bank: 0, preset: 0 },
            stream_params,
        }
    }

    /// Whether `post` is `pre` with other controller settings and nothing else changed.
    pub open spec fn sets(pre: Self, data: ControlEventData<V>, post: Self) -> bool {
        &&& post.control_event_data == data
        &&& post.voice_control_data == pre.voice_control_data
        &&& post.key_voices@ == pre.key_voices@
        &&& post.params == pre.params
        &&& post.stream_params == pre.stream_params
    }

    /// Whether `post` is `pre` with other controller settings and voice controls, which the voices
    /// of every key follow.
    pub open spec fn steers(
        pre: Self,
        data: ControlEventData<V>,
        control: VoiceControlData<V>,
        post: Self,
    ) -> bool {
        &&& post.control_event_data == data
        &&& post.voice_control_data == control
        &&& keys_follow(pre.key_voices@, control, post.key_voices@)
        &&& post.params == pre.params
        &&& post.stream_params == pre.stream_params
    }

    /// Whether `post` is `pre` with other controller settings, and the pitch that they make.
    pub open spec fn pitches(pre: Self, data: ControlEventData<V>, post: Self) -> bool {
        &&& is_pitch(
            data.pitch_bend_value,
            data.coarse_tune_value,
            data.fine_tune_value,
            post.voice_control_data.voice_pitch_multiplier,
        )
        &&& Self::steers(
            pre,
            data,
            VoiceControlData {
                voice_pitch_multiplier: post.voice_control_data.voice_pitch_multiplier,
                ..pre.voice_control_data
            },
            post,
        )
    }

    /// Whether a new pitch bend strength turns `pre`, whose settings have become `data`, into `post`.
    pub open spec fn bends_by(
        pre: Self,
        data: ControlEventData<V>,
        sensitivity: V,
        post: Self,
    ) -> bool {
        &&& scalar::is_product(
            sensitivity,
            data.pitch_bend_value,
            post.control_event_data.pitch_bend_value,
        )
        &&& Self::pitches(
            pre,
            ControlEventData {
                pitch_bend_sensitivity: sensitivity,
                pitch_bend_value: post.control_event_data.pitch_bend_value,
                ..data
            },
            post,
        )
    }

    /// Whether `post` is `pre` with the damper of every key moved.
    pub open spec fn damps(pre: Self, damper: bool, post: Self) -> bool {
        &&& post.control_event_data == pre.control_event_data
        &&& post.voice_control_data == pre.voice_control_data
        &&& keys_damp(pre.key_voices@, damper, post.key_voices@)
        &&& post.params == pre.params
        &&& post.stream_params == pre.stream_params
    }

    /// Whether `post` is `pre` with every control put back to where it starts.
    pub open spec fn resets(pre: Self, post: Self) -> bool {
        &&& post.control_event_data.is_default(pre.stream_params.sample_rate)
        &&& post.voice_control_data.is_default()
        &&& keys_reset(pre.key_voices@, post.voice_control_data, post.key_voices@)
        &&& post.params == pre.params
        &&& post.stream_params == pre.stream_params
    }

    /// Whether `post` is `pre` with a new target for the volume, `num / 128`.
    pub open spec fn aims_volume(pre: Self, value: u8, post: Self) -> bool {
        &&& scalar::is_ratio(value as int, 128, post.control_event_data.volume.end)
        &&& Self::turns_volume(pre, post.control_event_data.volume.end, post)
    }

    /// Whether `post` is `pre` with the volume on its way to `end`.
    pub open spec fn turns_volume(pre: Self, end: V, post: Self) -> bool {
        &&& ValueLerp::aims(pre.control_event_data.volume, end, post.control_event_data.volume)
        &&& Self::sets(
            pre,
            ControlEventData {
                volume: post.control_event_data.volume,
                ..pre.control_event_data
            },
            post,
        )
    }

    /// Whether `post` is `pre` with the pan on its way to `end`.
    pub open spec fn turns_pan(pre: Self, end: V, post: Self) -> bool {
        &&& ValueLerp::aims(pre.control_event_data.pan, end, post.control_event_data.pan)
        &&& Self::sets(
            pre,
            ControlEventData { pan: post.control_event_data.pan, ..pre.control_event_data },
            post,
        )
    }

    /// Whether `post` is `pre` with the expression on its way to `end`.
    pub open spec fn turns_expression(pre: Self, end: V, post: Self) -> bool {
        &&& ValueLerp::aims(
            pre.control_event_data.expression,
            end,
            post.control_event_data.expression,
        )
        &&& Self::sets(
            pre,
            ControlEventData {
                expression: post.control_event_data.expression,
                ..pre.control_event_data
            },
            post,
        )
    }

    /// Whether `post` is `pre` with other controller values for the envelopes of its voices.
    pub open spec fn shapes_by_cc(pre: Self, cc: EnvelopeCCControlData, post: Self) -> bool {
        Self::steers(
            pre,
            pre.control_event_data,
            VoiceControlData { cc_envelope: cc, ..pre.voice_control_data },
            post,
        )
    }

    /// Whether `post` is `pre` with other envelope settings for its voices.
    pub open spec fn shapes(
        pre: Self,
        envelope: EnvelopeControlData<V>,
        cc: EnvelopeCCControlData,
        post: Self,
    ) -> bool {
        Self::steers(
            pre,
            pre.control_event_data,
            VoiceControlData { envelope, cc_envelope: cc, ..pre.voice_control_data },
            post,
        )
    }

    /// Whether the data entry of a selected parameter turns `pre` into `post`. The parameters are
    /// the pitch bend strength (0), the fine tune (1) and the coarse tune (2); `coarse` tells the
    /// more significant data entry from the other one.
    pub open spec fn enters(pre: Self, coarse: bool, value: u8, post: Self) -> bool {
        let data = pre.control_event_data;
        if data.selected_msb != 0 {
            post == pre
        } else if data.selected_lsb == 0 {
            let next = if coarse {
                ControlEventData { pitch_bend_sensitivity_msb: value, ..data }
            } else {
                ControlEventData { pitch_bend_sensitivity_lsb: value, ..data }
            };
            &&& is_mixed(
                next.pitch_bend_sensitivity_msb as int,
                1,
                next.pitch_bend_sensitivity_lsb as int,
                100,
                post.control_event_data.pitch_bend_sensitivity,
            )
            &&& Self::bends_by(
                pre,
                next,
                post.control_event_data.pitch_bend_sensitivity,
                post,
            )
        } else if data.selected_lsb == 1 {
            let next = if coarse {
                ControlEventData { fine_tune_msb: value, ..data }
            } else {
                ControlEventData { fine_tune_lsb: value, ..data }
            };
            let tune = post.control_event_data.fine_tune_value;
            &&& scalar::is_ratio(
                (next.fine_tune_msb * 64 + next.fine_tune_lsb - 4096) * 100,
                4096,
                tune,
            )
            &&& Self::pitches(pre, ControlEventData { fine_tune_value: tune, ..next }, post)
        } else if data.selected_lsb == 2 && coarse {
            let tune = post.control_event_data.coarse_tune_value;
            &&& scalar::is_ratio(value - 64, 1, tune)
            &&& Self::pitches(pre, ControlEventData { coarse_tune_value: tune, ..data }, post)
        } else {
            post == pre
        }
    }

    /// Whether a raw control change turns `pre` into `post` and asks for `next`.
    pub open spec fn answers_raw(
        pre: Self,
        controller: u8,
        value: u8,
        post: Self,
        next: Option<ChannelAudioEvent<V>>,
    ) -> bool {
        let data = pre.control_event_data;
        let cc = pre.voice_control_data.cc_envelope;
        &&& match next {
            Some(ChannelAudioEvent::AllNotesKilled) => controller == 0x78 && value == 0,
            Some(ChannelAudioEvent::AllNotesOff) => controller == 0x7B && value == 0,
            Some(_) => false,
            None => !((controller == 0x78 || controller == 0x7B) && value == 0),
        }
        &&& match controller {
            0x00 => post == VoiceChannel {
                params: ProgramParams { bank: value, ..pre.params },
                ..pre
            },
            0x64 => Self::sets(pre, ControlEventData { selected_lsb: value as i8, ..data }, post),
            0x65 => Self::sets(pre, ControlEventData { selected_msb: value as i8, ..data }, post),
            0x06 => Self::enters(pre, true, value, post),
            0x26 => Self::enters(pre, false, value, post),
            0x07 => Self::aims_volume(pre, value, post),
            0x0A | 0x08 => {
                &&& scalar::is_ratio(value as int, 128, post.control_event_data.pan.end)
                &&& Self::turns_pan(pre, post.control_event_data.pan.end, post)
            },
            0x0B => {
                &&& scalar::is_ratio(value as int, 128, post.control_event_data.expression.end)
                &&& Self::turns_expression(pre, post.control_event_data.expression.end, post)
            },
            0x40 => Self::damps(pre, 64 <= value <= 127, post),
            0x4B => Self::shapes_by_cc(
                pre,
                EnvelopeCCControlData { decay: Some(value), ..cc },
                post,
            ),
            0x47 => {
                &&& is_resonance(value, post.control_event_data.resonance)
                &&& Self::sets(
                    pre,
                    ControlEventData {
                        resonance: post.control_event_data.resonance,
                        resonance_active: true,
                        ..data
                    },
                    post,
                )
            },
            0x48 => Self::shapes_by_cc(
                pre,
                EnvelopeCCControlData { release: Some(value), ..cc },
                post,
            ),
            0x49 => Self::shapes_by_cc(
                pre,
                EnvelopeCCControlData { attack: Some(value), ..cc },
                post,
            ),
            0x4A => if value < 64 {
                &&& is_cutoff(value, post.control_event_data.cutoff)
                &&& Self::sets(
                    pre,
                    ControlEventData {
                        cutoff: post.control_event_data.cutoff,
                        cutoff_active: true,
                        ..data
                    },
                    post,
                )
            } else {
                Self::sets(pre, ControlEventData { cutoff_active: false, ..data }, post)
            },
            0x4F => Self::shapes_by_cc(
                pre,
                EnvelopeCCControlData { sustain_percent: Some(value), ..cc },
                post,
            ),
            0x5E => Self::shapes_by_cc(
                pre,
                EnvelopeCCControlData { delay: Some(value), ..cc },
                post,
            ),
            0x79 => if value == 0 {
                Self::resets(pre, post)
            } else {
                post == pre
            },
            _ => post == pre,
        }
    }

    /// Whether a control event turns `pre` into `post` and asks for `next`.
    pub open spec fn answers(
        pre: Self,
        event: ControlEvent<V>,
        post: Self,
        next: Option<ChannelAudioEvent<V>>,
    ) -> bool {
        let data = pre.control_event_data;
        let env = pre.voice_control_data.envelope;
        let cc = pre.voice_control_data.cc_envelope;
        let new_env = post.voice_control_data.envelope;
        &&& !(event is Raw) ==> next is None
        &&& match event {
            ControlEvent::Raw(controller, value) => Self::answers_raw(
                pre,
                controller,
                value,
                post,
                next,
            ),
            ControlEvent::PitchBendSensitivity(sensitivity) => Self::bends_by(
                pre,
                data,
                sensitivity,
                post,
            ),
            ControlEvent::PitchBendValue(value) => Self::bends_by(
                pre,
                ControlEventData { pitch_bend_value: value, ..data },
                data.pitch_bend_sensitivity,
                post,
            ),
            ControlEvent::PitchBend(value) => Self::pitches(
                pre,
                ControlEventData { pitch_bend_value: value, ..data },
                post,
            ),
            ControlEvent::FineTune(value) => Self::pitches(
                pre,
                ControlEventData { fine_tune_value: value, ..data },
                post,
            ),
            ControlEvent::CoarseTune(value) => Self::pitches(
                pre,
                ControlEventData { coarse_tune_value: value, ..data },
                post,
            ),
            ControlEvent::Volume(value) => {
                &&& scalar::is_unit(value, post.control_event_data.volume.end)
                &&& Self::turns_volume(pre, post.control_event_data.volume.end, post)
            },
            ControlEvent::Pan(value) => {
                &&& scalar::is_unit(value, post.control_event_data.pan.end)
                &&& Self::turns_pan(pre, post.control_event_data.pan.end, post)
            },
            ControlEvent::Expression(value) => {
                &&& scalar::is_unit(value, post.control_event_data.expression.end)
                &&& Self::turns_expression(pre, post.control_event_data.expression.end, post)
            },
            ControlEvent::Cutoff(value) => Self::sets(
                pre,
                ControlEventData { cutoff: value, cutoff_active: true, ..data },
                post,
            ),
            ControlEvent::Resonance(value) => {
                &&& is_at_least(value, 1, 100, post.control_event_data.resonance)
                &&& Self::sets(
                    pre,
                    ControlEventData {
                        resonance: post.control_event_data.resonance,
                        resonance_active: true,
                        ..data
                    },
                    post,
                )
            },
            ControlEvent::HighPassCutoff(value) => {
                &&& is_at_least(value, 0, 1, post.control_event_data.highpass_cutoff)
                &&& Self::sets(
                    pre,
                    ControlEventData {
                        highpass_cutoff: post.control_event_data.highpass_cutoff,
                        highpass_active: true,
                        ..data
                    },
                    post,
                )
            },
            ControlEvent::HighPassResonance(value) => {
                &&& is_at_least(value, 1, 100, post.control_event_data.highpass_resonance)
                &&& Self::sets(
                    pre,
                    ControlEventData {
                        highpass_resonance: post.control_event_data.highpass_resonance,
                        highpass_resonance_active: true,
                        ..data
                    },
                    post,
                )
            },
            ControlEvent::DelayTime(value) => {
                &&& new_env.delay matches Some(v) && is_at_least(value, 0, 1, v)
                &&& Self::shapes(
                    pre,
                    EnvelopeControlData { delay: new_env.delay, ..env },
                    EnvelopeCCControlData { delay: None, ..cc },
                    post,
                )
            },
            ControlEvent::AttackTime(value) => {
                &&& new_env.attack matches Some(v) && is_at_least(value, 0, 1, v)
                &&& Self::shapes(
                    pre,
                    EnvelopeControlData { attack: new_env.attack, ..env },
                    EnvelopeCCControlData { attack: None, ..cc },
                    post,
                )
            },
            ControlEvent::HoldTime(value) => {
                &&& new_env.hold matches Some(v) && is_at_least(value, 0, 1, v)
                &&& Self::shapes(
                    pre,
                    EnvelopeControlData { hold: new_env.hold, ..env },
                    EnvelopeCCControlData { hold: None, ..cc },
                    post,
                )
            },
            ControlEvent::DecayTime(value) => {
                &&& new_env.decay matches Some(v) && is_at_least(value, 0, 1, v)
                &&& Self::shapes(
                    pre,
                    EnvelopeControlData { decay: new_env.decay, ..env },
                    EnvelopeCCControlData { decay: None, ..cc },
                    post,
                )
            },
            ControlEvent::SustainLevel(value) => {
                &&& new_env.sustain_percent matches Some(v) && scalar::is_unit(value, v)
                &&& Self::shapes(
                    pre,
                    EnvelopeControlData { sustain_percent: new_env.sustain_percent, ..env },
                    EnvelopeCCControlData { sustain_percent: None, ..cc },
                    post,
                )
            },
            ControlEvent::ReleaseTime(value) => {
                &&& new_env.release matches Some(v) && is_at_least(value, 0, 1, v)
                &&& Self::shapes(
                    pre,
                    EnvelopeControlData { release: new_env.release, ..env },
                    EnvelopeCCControlData { release: None, ..cc },
                    post,
                )
            },
            ControlEvent::Damper(value) => Self::damps(pre, value, post),
        }
    }

    /// Sends a ControlEvent to the channel. Where the event ends or kills all notes, the event that
    /// does so is given back, to be played by the channel.
    pub fn process_control_event(&mut self, event: ControlEvent<V>) -> (next: Option<
        ChannelAudioEvent<V>,
    >)
        requires
            old(self).wf(),
        ensures
            final(self).wf(),
            Self::answers(*old(self), event, *final(self), next),
    {
        match event {
            ControlEvent::Raw(controller, value) => {
                return self.process_raw(controller, value);
            },
            ControlEvent::PitchBendSensitivity(sensitivity) => {
                self.bend_by(sensitivity);
            },
            ControlEvent::PitchBendValue(value) => {
                let bend = scalar::product(self.control_event_data.pitch_bend_sensitivity, value);
                self.control_event_data.pitch_bend_value = bend;
                self.process_pitch();
            },
            ControlEvent::PitchBend(value) => {
                self.control_event_data.pitch_bend_value = value;
                self.process_pitch();
            },
            ControlEvent::FineTune(value) => {
                self.control_event_data.fine_tune_value = value;
                self.process_pitch();
            },
            ControlEvent::CoarseTune(value) => {
                self.control_event_data.coarse_tune_value = value;
                self.process_pitch();
            },
            ControlEvent::Volume(value) => {
                self.control_event_data.volume.set_end(scalar::unit(value));
            },
            ControlEvent::Pan(value) => {
                self.control_event_data.pan.set_end(scalar::unit(value));
            },
            ControlEvent::Expression(value) => {
                self.control_event_data.expression.set_end(scalar::unit(value));
            },
            ControlEvent::Cutoff(value) => {
                self.control_event_data.cutoff = value;
                self.control_event_data.cutoff_active = true;
            },
            ControlEvent::Resonance(value) => {
                self.control_event_data.resonance = at_least(value, 1, 100);
                self.control_event_data.resonance_active = true;
            },
            ControlEvent::HighPassCutoff(value) => {
                self.control_event_data.highpass_cutoff = at_least(value, 0, 1);
                self.control_event_data.highpass_active = true;
            },
            ControlEvent::HighPassResonance(value) => {
                self.control_event_data.highpass_resonance = at_least(value, 1, 100);
                self.control_event_data.highpass_resonance_active = true;
            },
            ControlEvent::DelayTime(value) => {
                self.voice_control_data.envelope.delay = Some(at_least(value, 0, 1));
                self.voice_control_data.cc_envelope.delay = None;
                self.propagate_voice_controls();
            },
            ControlEvent::AttackTime(value) => {
                self.voice_control_data.envelope.attack = Some(at_least(value, 0, 1));
                self.voice_control_data.cc_envelope.attack = None;
                self.propagate_voice_controls();
            },
            ControlEvent::HoldTime(value) => {
                self.voice_control_data.envelope.hold = Some(at_least(value, 0, 1));
                self.voice_control_data.cc_envelope.hold = None;
                self.propagate_voice_controls();
            },
            ControlEvent::DecayTime(value) => {
                self.voice_control_data.envelope.decay = Some(at_least(value, 0, 1));
                self.voice_control_data.cc_envelope.decay = None;
                self.propagate_voice_controls();
            },
            ControlEvent::SustainLevel(value) => {
                self.voice_control_data.envelope.sustain_percent = Some(scalar::unit(value));
                self.voice_control_data.cc_envelope.sustain_percent = None;
                self.propagate_voice_controls();
            },
            ControlEvent::ReleaseTime(value) => {
                self.voice_control_data.envelope.release = Some(at_least(value, 0, 1));
                self.voice_control_data.cc_envelope.release = None;
                self.propagate_voice_controls();
            },
            ControlEvent::Damper(value) => {
                self.set_damper(value);
            },
        }
        None
    }

    /// Handles a raw control change.
    fn process_raw(&mut self, controller: u8, value: u8) -> (next: Option<ChannelAudioEvent<V>>)
        requires
            old(self).wf(),
        ensures
            final(self).wf(),
            Self::answers_raw(*old(self), controller, value, *final(self), next),
    {
        match controller {
            0x00 => {
                self.params.bank = value;
            },
            0x64 => {
                self.control_event_data.selected_lsb = value as i8;
            },
            0x65 => {
                self.control_event_data.selected_msb = value as i8;
            },
            0x06 => {
                self.enter_data(true, value);
            },
            0x26 => {
                self.enter_data(false, value);
            },
            0x07 => {
                self.control_event_data.volume.set_end(scalar::ratio(value as i64, 128));
            },
            0x0A | 0x08 => {
                self.control_event_data.pan.set_end(scalar::ratio(value as i64, 128));
            },
            0x0B => {
                self.control_event_data.expression.set_end(scalar::ratio(value as i64, 128));
            },
            0x40 => {
                let damper: bool = match value {
                    0..=63 => false,
                    64..=127 => true,
                    _ => false,
                };
                self.set_damper(damper);
            },
            0x4B => {
                self.voice_control_data.cc_envelope.decay = Some(value);
                self.propagate_voice_controls();
            },
            0x47 => {
                self.control_event_data.resonance = resonance_of(value);
                self.control_event_data.resonance_active = true;
            },
            0x48 => {
                self.voice_control_data.cc_envelope.release = Some(value);
                self.propagate_voice_controls();
            },
            0x49 => {
                self.voice_control_data.cc_envelope.attack = Some(value);
                self.propagate_voice_controls();
            },
            0x4A => {
                if value < 64 {
                    self.control_event_data.cutoff = cutoff_of(value);
                    self.control_event_data.cutoff_active = true;
                } else {
                    self.control_event_data.cutoff_active = false;
                }
            },
            0x4F => {
                self.voice_control_data.cc_envelope.sustain_percent = Some(value);
                self.propagate_voice_controls();
            },
            0x5E => {
                self.voice_control_data.cc_envelope.delay = Some(value);
                self.propagate_voice_controls();
            },
            0x78 => {
                if value == 0 {
                    return Some(ChannelAudioEvent::AllNotesKilled);
                }
            },
            0x79 => {
                if value == 0 {
                    self.reset_control();
                }
            },
            0x7B => {
                if value == 0 {
                    return Some(ChannelAudioEvent::AllNotesOff);
                }
            },
            _ => {},
        }
        None
    }

    /// Handles the data entry of the selected parameter.
    fn enter_data(&mut self, coarse: bool, value: u8)
        requires
            old(self).wf(),
        ensures
            final(self).wf(),
            Self::enters(*old(self), coarse, value, *final(self)),
    {
        if self.control_event_data.selected_msb != 0 {
            return ;
        }
        match self.control_event_data.selected_lsb {
            0 => {
                if coarse {
                    self.control_event_data.pitch_bend_sensitivity_msb = value;
                } else {
                    self.control_event_data.pitch_bend_sensitivity_lsb = value;
                }
                let whole = scalar::ratio(
                    self.control_event_data.pitch_bend_sensitivity_msb as i64,
                    1,
                );
                let part = scalar::ratio(
                    self.control_event_data.pitch_bend_sensitivity_lsb as i64,
                    100,
                );
                let sensitivity = scalar::sum(whole, part);
                self.bend_by(sensitivity);
            },
            1 => {
                if coarse {
                    self.control_event_data.fine_tune_msb = value;
                } else {
                    self.control_event_data.fine_tune_lsb = value;
                }
                let msb: i64 = self.control_event_data.fine_tune_msb as i64;
                let lsb: i64 = self.control_event_data.fine_tune_lsb as i64;
                let tune = scalar::ratio((msb * 64 + lsb - 4096) * 100, 4096);
                self.control_event_data.fine_tune_value = tune;
                self.process_pitch();
            },
            2 => {
                if coarse {
                    let tune = scalar::ratio(value as i64 - 64, 1);
                    self.control_event_data.coarse_tune_value = tune;
                    self.process_pitch();
                }
            },
            _ => {},
        }
    }

    /// Sets the pitch bend strength, and bends the present pitch by it.
    fn bend_by(&mut self, sensitivity: V)
        requires
            old(self).wf(),
        ensures
            final(self).wf(),
            Self::bends_by(*old(self), old(self).control_event_data, sensitivity, *final(self)),
    {
        self.control_event_data.pitch_bend_sensitivity = sensitivity;
        let bend = scalar::product(sensitivity, self.control_event_data.pitch_bend_value);
        self.control_event_data.pitch_bend_value = bend;
        self.process_pitch();
    }

    /// Recomputes the pitch from the bend and the tuning, and hands it to the voices.
    pub fn process_pitch(&mut self)
        requires
            old(self).wf(),
        ensures
            final(self).wf(),
            Self::pitches(*old(self), old(self).control_event_data, *final(self)),
    {
        let bend = self.control_event_data.pitch_bend_value;
        let coarse = self.control_event_data.coarse_tune_value;
        let fine = self.control_event_data.fine_tune_value;
        let multiplier = pitch_of(bend, coarse, fine);
        self.voice_control_data.voice_pitch_multiplier = multiplier;
        self.propagate_voice_controls();
    }

    /// Puts every control back to where it starts, and lets the damper of every key go.
    pub fn reset_control(&mut self)
        requires
            old(self).wf(),
        ensures
            final(self).wf(),
            Self::resets(*old(self), *final(self)),
    {
        self.control_event_data = ControlEventData::new_defaults(self.stream_params.sample_rate);
        self.voice_control_data = VoiceControlData::new_defaults();
        self.propagate_voice_controls();
        let ghost mid = self.key_voices@;
        self.set_damper(false);
        assert(keys_follow(old(self).key_voices@, self.voice_control_data, mid));
    }

    /// Goes back to the first bank and preset.
    pub fn reset_program(&mut self)
        ensures
            *final(self) == (VoiceChannel {
                params: ProgramParams { bank: 0, preset: 0 },
                ..*old(self)
            }),
    {
        self.params.bank = 0;
        self.params.preset = 0;
    }
}

/// Gives `a`, but at least `num / den`.
fn at_least<V: Scalar>(a: V, num: i64, den: i64) -> (value: V)
    ensures
        is_at_least(a, num as int, den as int, value),
{
    let least = scalar::ratio(num, den);
    scalar::larger(a, least)
}

/// The frequency ratio of a bend, a coarse tune and a fine tune.
fn pitch_of<V: Scalar>(bend: V, coarse: V, fine: V) -> (multiplier: V)
    ensures
        is_pitch(bend, coarse, fine, multiplier),
{
    let hundred = scalar::ratio(100, 1);
    let semitones = scalar::quotient(fine, hundred);
    let tuned = scalar::sum(bend, coarse);
    let combined = scalar::sum(tuned, semitones);
    pitch_ratio(combined)
}

/// Whether every key of `pre` follows the controls and then has its damper let go in `post`.
pub open spec fn keys_reset<V: Scalar, Vo: Voice + VoiceGeneratorBase<Control = VoiceControlData<V>>>(
    pre: Seq<KeyData<Vo>>,
    control: VoiceControlData<V>,
    post: Seq<KeyData<Vo>>,
) -> bool {
    exists|mid: Seq<KeyData<Vo>>| #[trigger]
        keys_follow(pre, control, mid) && keys_damp(mid, false, post)
}

/// A control event neither starts a voice nor takes one out: every key keeps its voices, in their
/// groups.
pub proof fn lemma_control_keeps_voices<
    V: Scalar,
    Vo: Voice + VoiceGeneratorBase<Control = VoiceControlData<V>>,
>(
    pre: VoiceChannel<V, Vo>,
    event: ControlEvent<V>,
    post: VoiceChannel<V, Vo>,
    next: Option<ChannelAudioEvent<V>>,
    key: int,
)
    requires
        VoiceChannel::answers(pre, event, post, next),
        0 <= key < pre.key_voices@.len(),
    ensures
        post.key_voices@.len() == pre.key_voices@.len(),
        post.key_voices@[key].note() == pre.key_voices@[key].note(),
        post.key_voices@[key].buffer().groups().len()
            == pre.key_voices@[key].buffer().groups().len(),
        forall|i: int|
            0 <= i < pre.key_voices@[key].buffer().groups().len() ==> (
            #[trigger] post.key_voices@[key].buffer().groups()[i]).id
                == pre.key_voices@[key].buffer().groups()[i].id,
{
    let a = pre.key_voices@;
    let b = post.key_voices@;
    let p = a[key].buffer().groups();
    let q = b[key].buffer().groups();
    if VoiceChannel::resets(pre, post) {
        let mid = choose|mid: Seq<KeyData<Vo>>| #[trigger]
            keys_follow(a, post.voice_control_data, mid) && keys_damp(mid, false, b);
        assert(mid[key].note() == a[key].note());
        assert(b[key].note() == mid[key].note());
        let m = mid[key].buffer().groups();
        assert forall|i: int| 0 <= i < p.len() implies (#[trigger] q[i]).id == p[i].id by {
            assert(m[i].id == p[i].id);
        }
    } else if a == b {
    } else {
        assert(b[key].note() == a[key].note());
        assert forall|i: int| 0 <= i < p.len() implies (#[trigger] q[i]).id == p[i].id by {}
    }
}

/// Whether `post` differs from `pre` in its controller settings alone.
pub open spec fn only_settings_change<V: Scalar, Vo>(
    pre: VoiceChannel<V, Vo>,
    post: VoiceChannel<V, Vo>,
) -> bool {
    &&& post.voice_control_data == pre.voice_control_data
    &&& post.key_voices@ == pre.key_voices@
    &&& post.params == pre.params
    &&& post.stream_params == pre.stream_params
}

/// Whether every voice of `pre` follows the voice controls of `post`, and neither the program nor
/// the stream nor anything else of the keys changes.
pub open spec fn every_voice_follows<
    V: Scalar,
    Vo: Voice + VoiceGeneratorBase<Control = VoiceControlData<V>>,
>(pre: VoiceChannel<V, Vo>, post: VoiceChannel<V, Vo>) -> bool {
    &&& post.params == pre.params
    &&& post.stream_params == pre.stream_params
    &&& post.key_voices@.len() == pre.key_voices@.len()
    &&& forall|i: int|
        0 <= i < pre.key_voices@.len() ==> voices_of_key_follow(
            #[trigger] pre.key_voices@[i],
            post.voice_control_data,
            post.key_voices@[i],
        )
}

/// Whether every voice of a key follows the controls.
pub open spec fn voices_of_key_follow<
    V: Scalar,
    Vo: Voice + VoiceGeneratorBase<Control = VoiceControlData<V>>,
>(pre: KeyData<Vo>, control: VoiceControlData<V>, post: KeyData<Vo>) -> bool {
    let a = pre.buffer().groups();
    let b = post.buffer().groups();
    &&& post.note() == pre.note()
    &&& post.buffer().damper() == pre.buffer().damper()
    &&& post.buffer().held() == pre.buffer().held()
    &&& b.len() == a.len()
    &&& forall|i: int|
        0 <= i < a.len() ==> {
            &&& (#[trigger] b[i]).id == a[i].id
            &&& Vo::follows(a[i].voice, control, b[i].voice)
        }
}

/// Whether a value is on its way to `end`, from where it is, over the length that it always takes.
pub open spec fn heads_for<V: Scalar>(pre: ValueLerp<V>, end: V, post: ValueLerp<V>) -> bool {
    &&& post.end == end
    &&& post.current == pre.current
    &&& post.lerp_length == pre.lerp_length
    &&& exists|distance: V|
        {
            &&& call_ensures(V::minus, (end, pre.current), distance)
            &&& #[trigger] call_ensures(V::over, (distance, pre.lerp_length), post.step)
        }
}

/// Whether `multiplier` is the frequency ratio of a bend and a coarse tune in semitones and a fine
/// tune in cents: `2^((bend + coarse + fine / 100) / 12)`.
pub open spec fn tunes<V: Scalar>(bend: V, coarse: V, fine: V, multiplier: V) -> bool {
    exists|hundred: V, semitones: V, tuned: V, all: V, two: V, twelve: V, octaves: V| #[trigger]
        tunes_by(bend, coarse, fine, multiplier, hundred, semitones, tuned, all, two, twelve, octaves)
}

/// As above, by way of the values in between.
pub open spec fn tunes_by<V: Scalar>(
    bend: V,
    coarse: V,
    fine: V,
    multiplier: V,
    hundred: V,
    semitones: V,
    tuned: V,
    all: V,
    two: V,
    twelve: V,
    octaves: V,
) -> bool {
    &&& call_ensures(V::ratio, (100i64, 1i64), hundred)
    &&& call_ensures(V::over, (fine, hundred), semitones)
    &&& call_ensures(V::plus, (bend, coarse), tuned)
    &&& call_ensures(V::plus, (tuned, semitones), all)
    &&& call_ensures(V::ratio, (2i64, 1i64), two)
    &&& call_ensures(V::ratio, (12i64, 1i64), twelve)
    &&& call_ensures(V::over, (all, twelve), octaves)
    &&& call_ensures(V::raised, (two, octaves), multiplier)
}

/// Whether `value` is the larger of `a` and `num / den`.
pub open spec fn is_raised_to<V: Scalar>(a: V, num: i64, den: i64, value: V) -> bool {
    exists|least: V|
        call_ensures(V::ratio, (num, den), least) && #[trigger] call_ensures(
            V::highest,
            (a, least),
            value,
        )
}

/// Whether `value` is `a`, held between 0 and 1.
pub open spec fn is_limited<V: Scalar>(a: V, value: V) -> bool {
    exists|zero: V, one: V|
        {
            &&& call_ensures(V::ratio, (0i64, 1i64), zero)
            &&& call_ensures(V::ratio, (1i64, 1i64), one)
            &&& #[trigger] call_ensures(V::held, (a, zero, one), value)
        }
}

proof fn lemma_aims_heads_for<V: Scalar>(pre: ValueLerp<V>, end: V, post: ValueLerp<V>)
    requires
        ValueLerp::aims(pre, end, post),
    ensures
        heads_for(pre, end, post),
{
    let distance = choose|distance: V|
        {
            &&& scalar::is_difference(end, pre.current, distance)
            &&& #[trigger] scalar::is_quotient(distance, pre.lerp_length, post.step)
        };
    assert(call_ensures(V::over, (distance, pre.lerp_length), post.step));
}

proof fn lemma_pitch_tunes<V: Scalar>(bend: V, coarse: V, fine: V, multiplier: V)
    requires
        is_pitch(bend, coarse, fine, multiplier),
    ensures
        tunes(bend, coarse, fine, multiplier),
{
    let (hundred, semitones, tuned, all) = choose|
        hundred: V,
        semitones: V,
        tuned: V,
        combined: V,
    |
        {
            &&& scalar::is_ratio(100, 1, hundred)
            &&& #[trigger] scalar::is_quotient(fine, hundred, semitones)
            &&& scalar::is_sum(bend, coarse, tuned)
            &&& #[trigger] scalar::is_sum(tuned, semitones, combined)
            &&& is_pitch_ratio(combined, multiplier)
        };
    let (two, twelve, octaves) = choose|two: V, twelve: V, octaves: V| #[trigger]
        is_pitch_ratio_by(all, multiplier, two, twelve, octaves);
    assert(tunes_by(
        bend,
        coarse,
        fine,
        multiplier,
        hundred,
        semitones,
        tuned,
        all,
        two,
        twelve,
        octaves,
    ));
}

proof fn lemma_steers_follows<
    V: Scalar,
    Vo: Voice + VoiceGeneratorBase<Control = VoiceControlData<V>>,
>(
    pre: VoiceChannel<V, Vo>,
    data: ControlEventData<V>,
    control: VoiceControlData<V>,
    post: VoiceChannel<V, Vo>,
)
    requires
        VoiceChannel::steers(pre, data, control, post),
    ensures
        every_voice_follows(pre, post),
        post.voice_control_data == control,
        post.control_event_data == data,
{
    assert forall|i: int| 0 <= i < pre.key_voices@.len() implies voices_of_key_follow(
        #[trigger] pre.key_voices@[i],
        post.voice_control_data,
        post.key_voices@[i],
    ) by {
        assert(post.key_voices@[i].note() == pre.key_voices@[i].note());
    }
}

proof fn lemma_pitches_follows<
    V: Scalar,
    Vo: Voice + VoiceGeneratorBase<Control = VoiceControlData<V>>,
>(pre: VoiceChannel<V, Vo>, data: ControlEventData<V>, post: VoiceChannel<V, Vo>)
    requires
        VoiceChannel::pitches(pre, data, post),
    ensures
        sounds_tuned(pre, data, post),
{
    lemma_pitch_tunes(
        data.pitch_bend_value,
        data.coarse_tune_value,
        data.fine_tune_value,
        post.voice_control_data.voice_pitch_multiplier,
    );
    lemma_steers_follows(pre, data, post.voice_control_data, post);
}

/// Whether the settings of `pre` become `data`, its voices get the pitch that those make, and every
/// one of them follows.
pub open spec fn sounds_tuned<
    V: Scalar,
    Vo: Voice + VoiceGeneratorBase<Control = VoiceControlData<V>>,
>(pre: VoiceChannel<V, Vo>, data: ControlEventData<V>, post: VoiceChannel<V, Vo>) -> bool {
    &&& post.control_event_data == data
    &&& tunes(
        data.pitch_bend_value,
        data.coarse_tune_value,
        data.fine_tune_value,
        post.voice_control_data.voice_pitch_multiplier,
    )
    &&& post.voice_control_data.envelope == pre.voice_control_data.envelope
    &&& post.voice_control_data.cc_envelope == pre.voice_control_data.cc_envelope
    &&& every_voice_follows(pre, post)
}

/// Whether an event presses the sustain pedal: the controller 64 from its middle on, or the event of
/// its own.
pub open spec fn presses_pedal<V>(event: ControlEvent<V>) -> bool {
    match event {
        ControlEvent::Raw(controller, value) => controller == 64 && value >= 64 && value <= 127,
        ControlEvent::Damper(down) => down,
        _ => false,
    }
}

/// Whether an event lifts the sustain pedal: the controller 64 below its middle or beyond its range, or
/// the event of its own.
pub open spec fn lifts_pedal<V>(event: ControlEvent<V>) -> bool {
    match event {
        ControlEvent::Raw(controller, value) => controller == 64 && (value < 64 || value > 127),
        ControlEvent::Damper(down) => !down,
        _ => false,
    }
}

/// While the sustain pedal is pressed, notes that are let go sound on. Pressing it changes no voice, and
/// after that letting a key go leaves the voices of the key as they are.
pub proof fn lemma_pressed_pedal_holds_notes<
    V: Scalar,
    Vo: Voice + VoiceGeneratorBase<Control = VoiceControlData<V>>,
    R: Fn(u8, u8) -> Vec<Vo>,
>(
    channel: &mut VoiceChannel<V, Vo>,
    event: ControlEvent<V>,
    next: Option<ChannelAudioEvent<V>>,
    i: int,
    release: R,
    counter: u64,
    after: VoiceBuffer<Vo>,
)
    requires
        old(channel).wf(),
        presses_pedal(event),
        call_ensures(VoiceChannel::<V, Vo>::process_control_event, (channel, event), next),
        0 <= i < old(channel).key_voices@.len(),
        VoiceBuffer::lets_go(final(channel).key_voices@[i].buffer(), None, after) || key::answers(
            &release,
            final(channel).key_voices@[i].note(),
            (final(channel).key_voices@[i].buffer(), counter),
            after,
        ),
    ensures
        next is None,
        final(channel).control_event_data == old(channel).control_event_data,
        final(channel).voice_control_data == old(channel).voice_control_data,
        final(channel).key_voices@.len() == old(channel).key_voices@.len(),
        forall|i: int|
            0 <= i < old(channel).key_voices@.len() ==> {
                &&& (#[trigger] final(channel).key_voices@[i]).buffer().damper()
                &&& final(channel).key_voices@[i].buffer().groups()
                    == old(channel).key_voices@[i].buffer().groups()
            },
        after.groups() == old(channel).key_voices@[i].buffer().groups(),
        after.damper(),
{
    let pressed = final(channel).key_voices@[i];
    assert(pressed.buffer().damper());
    if !VoiceBuffer::lets_go(pressed.buffer(), None, after) {
        let pre = (pressed.buffer(), counter);
        let (mid, vel, voices) = choose|mid: VoiceBuffer<Vo>, vel: u8, voices: Vec<Vo>|
            key::answered(&release, pressed.note(), pre, mid, vel, voices, after);
        assert(key::answered(&release, pressed.note(), pre, mid, vel, voices, after));
    }
}

/// Lifting the sustain pedal releases the notes that it held, and no other. After that letting a key
/// go releases the first of its voices that still sounds.
pub proof fn lemma_lifted_pedal_releases_notes<
    V: Scalar,
    Vo: Voice + VoiceGeneratorBase<Control = VoiceControlData<V>>,
>(
    channel: &mut VoiceChannel<V, Vo>,
    event: ControlEvent<V>,
    next: Option<ChannelAudioEvent<V>>,
    number: int,
    buffer: &mut VoiceBuffer<Vo>,
    vel: Option<u8>,
)
    requires
        old(channel).wf(),
        lifts_pedal(event),
        call_ensures(VoiceChannel::<V, Vo>::process_control_event, (channel, event), next),
        0 <= number < old(channel).key_voices@.len(),
        *old(buffer) == final(channel).key_voices@[number].buffer(),
        call_ensures(VoiceBuffer::<Vo>::release_next_voice, (buffer,), vel),
    ensures
        next is None,
        final(channel).control_event_data == old(channel).control_event_data,
        final(channel).voice_control_data == old(channel).voice_control_data,
        final(channel).key_voices@.len() == old(channel).key_voices@.len(),
        forall|i: int|
            0 <= i < old(channel).key_voices@.len() ==> is_lifted(
                old(channel).key_voices@[i].buffer(),
                (#[trigger] final(channel).key_voices@[i]).buffer(),
            ),
        releases_first_sounding(old(buffer).groups(), vel, final(buffer).groups()),
{
    let a = old(channel).key_voices@;
    let b = final(channel).key_voices@;
    assert forall|i: int| 0 <= i < a.len() implies is_lifted(
        a[i].buffer(),
        (#[trigger] b[i]).buffer(),
    ) by {
        assert(b[i].note() == a[i].note());
        assert(a[i].wf());
    }
    assert(is_lifted(a[number].buffer(), b[number].buffer()));
    let s = old(buffer).groups();
    if vel is Some {
        let t = final(buffer).groups();
        let (first, end) = choose|first: int, end: int| #[trigger]
            voice_buffer::next_group(s, first, end) && vel->0 == s[first].voice.vel()
                && voice_buffer::signalled(
                s,
                voice_buffer::sounding_between(s, first, end),
                ReleaseType::Standard,
                t,
            );
        assert forall|i: int| 0 <= i < first implies #[trigger] s[i].voice.releasing()
            || s[i].voice.killed() by {
            assert(!voice_buffer::sounding(s[i]));
        }
        assert(is_first_sounding(s, first));
        assert(voice_buffer::sounding_between(s, first, end)(first));
        assert(t[first].id == s[first].id);
        assert forall|i: int| 0 <= i < s.len() implies ({
            ||| #[trigger] t[i] == s[i]
            ||| Vo::releases(s[i].voice, ReleaseType::Standard, t[i].voice) && s[i].id
                == s[first].id
        }) by {
            if voice_buffer::sounding_between(s, first, end)(i) {
                assert(voice_buffer::sounding(s[i]));
            }
        }
    } else {
        assert forall|i: int| 0 <= i < s.len() implies #[trigger] s[i].voice.releasing()
            || s[i].voice.killed() by {
            assert(!voice_buffer::sounding(s[i]));
        }
    }
}

/// Whether the damper is up in `post`, the voices that it held in `pre` are released, and the others
/// are as they were.
pub open spec fn is_lifted<Vo: Voice>(pre: VoiceBuffer<Vo>, post: VoiceBuffer<Vo>) -> bool {
    &&& !post.damper()
    &&& post.held() == Set::<usize>::empty()
    &&& post.groups().len() == pre.groups().len()
    &&& forall|i: int|
        0 <= i < pre.groups().len() ==> {
            &&& (#[trigger] post.groups()[i]).id == pre.groups()[i].id
            &&& if pre.held().contains(pre.groups()[i].id) {
                Vo::releases(
                    pre.groups()[i].voice,
                    ReleaseType::Standard,
                    post.groups()[i].voice,
                )
            } else {
                post.groups()[i] == pre.groups()[i]
            }
        }
}

/// Whether the first voice that is neither released nor killed is released, and `vel` is its velocity.
/// Other voices are left alone, unless they are of its group. Without such a voice nothing happens.
pub open spec fn releases_first_sounding<Vo: Voice>(
    s: Seq<voice_buffer::GroupVoice<Vo>>,
    vel: Option<u8>,
    t: Seq<voice_buffer::GroupVoice<Vo>>,
) -> bool {
    match vel {
        None => {
            &&& t == s
            &&& forall|i: int|
                0 <= i < s.len() ==> #[trigger] s[i].voice.releasing() || s[i].voice.killed()
        },
        Some(vel) => exists|first: int| #[trigger] is_first_sounding(s, first)
            && s[first].voice.vel() == vel && t.len() == s.len() && Vo::releases(
            s[first].voice,
            ReleaseType::Standard,
            t[first].voice,
        ) && forall|i: int|
            0 <= i < s.len() ==> {
                ||| #[trigger] t[i] == s[i]
                ||| Vo::releases(s[i].voice, ReleaseType::Standard, t[i].voice) && s[i].id
                    == s[first].id
            },
    }
}

/// Whether a voice is the first one that is neither released nor killed.
pub open spec fn is_first_sounding<Vo: Voice>(
    s: Seq<voice_buffer::GroupVoice<Vo>>,
    first: int,
) -> bool {
    &&& 0 <= first < s.len()
    &&& !s[first].voice.releasing() && !s[first].voice.killed()
    &&& forall|i: int|
        0 <= i < first ==> #[trigger] s[i].voice.releasing() || s[i].voice.killed()
}

/// The volume, the pan and the expression each have a controller of their own, 7, 10 (and 8) and 11: its
/// value of 128 is where the setting heads for. Nothing else changes.
pub proof fn lemma_level_controllers<
    V: Scalar,
    Vo: Voice + VoiceGeneratorBase<Control = VoiceControlData<V>>,
>(
    channel: &mut VoiceChannel<V, Vo>,
    controller: u8,
    value: u8,
    next: Option<ChannelAudioEvent<V>>,
)
    requires
        old(channel).wf(),
        controller == 7 || controller == 10 || controller == 8 || controller == 11,
        call_ensures(
            VoiceChannel::<V, Vo>::process_control_event,
            (channel, ControlEvent::Raw(controller, value)),
            next,
        ),
    ensures
        next is None,
        only_settings_change(*old(channel), *final(channel)),
        ({
            let pre = old(channel).control_event_data;
            let post = final(channel).control_event_data;
            if controller == 7 {
                &&& post == ControlEventData { volume: post.volume, ..pre }
                &&& call_ensures(V::ratio, (value as i64, 128i64), post.volume.end)
                &&& heads_for(pre.volume, post.volume.end, post.volume)
            } else if controller == 11 {
                &&& post == ControlEventData { expression: post.expression, ..pre }
                &&& call_ensures(V::ratio, (value as i64, 128i64), post.expression.end)
                &&& heads_for(pre.expression, post.expression.end, post.expression)
            } else {
                &&& post == ControlEventData { pan: post.pan, ..pre }
                &&& call_ensures(V::ratio, (value as i64, 128i64), post.pan.end)
                &&& heads_for(pre.pan, post.pan.end, post.pan)
            }
        }),
{
    let pre = old(channel).control_event_data;
    let post = final(channel).control_event_data;
    if controller == 7 {
        lemma_aims_heads_for(pre.volume, post.volume.end, post.volume);
    } else if controller == 11 {
        lemma_aims_heads_for(pre.expression, post.expression.end, post.expression);
    } else {
        lemma_aims_heads_for(pre.pan, post.pan.end, post.pan);
    }
}

/// The volume, the pan and the expression can be set exactly: each heads for the value, held between 0
/// and 1. Nothing else changes.
pub proof fn lemma_level_events<
    V: Scalar,
    Vo: Voice + VoiceGeneratorBase<Control = VoiceControlData<V>>,
>(channel: &mut VoiceChannel<V, Vo>, event: ControlEvent<V>, next: Option<ChannelAudioEvent<V>>)
    requires
        old(channel).wf(),
        call_ensures(VoiceChannel::<V, Vo>::process_control_event, (channel, event), next),
    ensures
        ({
            let pre = old(channel).control_event_data;
            let post = final(channel).control_event_data;
            match event {
                ControlEvent::Volume(value) => {
                    &&& only_settings_change(*old(channel), *final(channel))
                    &&& post == ControlEventData { volume: post.volume, ..pre }
                    &&& is_limited(value, post.volume.end)
                    &&& heads_for(pre.volume, post.volume.end, post.volume)
                },
                ControlEvent::Pan(value) => {
                    &&& only_settings_change(*old(channel), *final(channel))
                    &&& post == ControlEventData { pan: post.pan, ..pre }
                    &&& is_limited(value, post.pan.end)
                    &&& heads_for(pre.pan, post.pan.end, post.pan)
                },
                ControlEvent::Expression(value) => {
                    &&& only_settings_change(*old(channel), *final(channel))
                    &&& post == ControlEventData { expression: post.expression, ..pre }
                    &&& is_limited(value, post.expression.end)
                    &&& heads_for(pre.expression, post.expression.end, post.expression)
                },
                _ => true,
            }
        }),
{
    let pre = old(channel).control_event_data;
    let post = final(channel).control_event_data;
    match event {
        ControlEvent::Volume(value) => {
            lemma_aims_heads_for(pre.volume, post.volume.end, post.volume);
            lemma_unit_limits(value, post.volume.end);
        },
        ControlEvent::Pan(value) => {
            lemma_aims_heads_for(pre.pan, post.pan.end, post.pan);
            lemma_unit_limits(value, post.pan.end);
        },
        ControlEvent::Expression(value) => {
            lemma_aims_heads_for(pre.expression, post.expression.end, post.expression);
            lemma_unit_limits(value, post.expression.end);
        },
        _ => {},
    }
}

proof fn lemma_unit_limits<V: Scalar>(a: V, value: V)
    requires
        scalar::is_unit(a, value),
    ensures
        is_limited(a, value),
{
    let (zero, one) = choose|zero: V, one: V| #[trigger] scalar::is_unit_by(a, value, zero, one);
    assert(call_ensures(V::held, (a, zero, one), value));
}

proof fn lemma_least_raises<V: Scalar>(a: V, num: i64, den: i64, value: V)
    requires
        is_at_least(a, num as int, den as int, value),
    ensures
        is_raised_to(a, num, den, value),
{
    let least = choose|least: V|
        scalar::is_ratio(num as int, den as int, least) && #[trigger] scalar::is_larger(
            a,
            least,
            value,
        );
    assert(call_ensures(V::highest, (a, least), value));
}

/// A value that moves takes one step to its target and does not go past it, and stays there.
pub proof fn lemma_value_steps_to_target<V: Scalar>(lerp: &mut ValueLerp<V>, current: V)
    requires
        call_ensures(ValueLerp::<V>::get_next, (lerp,), current),
    ensures
        *final(lerp) == (ValueLerp { current, ..*old(lerp) }),
        ({
            ||| exists|sum: V|
                {
                    &&& call_ensures(V::less, (old(lerp).current, old(lerp).end), true)
                    &&& call_ensures(V::plus, (old(lerp).current, old(lerp).step), sum)
                    &&& #[trigger] call_ensures(V::lowest, (sum, old(lerp).end), current)
                }
            ||| exists|sum: V|
                {
                    &&& call_ensures(V::less, (old(lerp).end, old(lerp).current), true)
                    &&& call_ensures(V::plus, (old(lerp).current, old(lerp).step), sum)
                    &&& #[trigger] call_ensures(V::highest, (sum, old(lerp).end), current)
                }
            ||| {
                &&& call_ensures(V::less, (old(lerp).current, old(lerp).end), false)
                &&& call_ensures(V::less, (old(lerp).end, old(lerp).current), false)
                &&& current == old(lerp).current
            }
        }),
{
    let pre = *old(lerp);
    assert(ValueLerp::steps(pre, current));
    if exists|sum: V|
        {
            &&& scalar::is_less(pre.current, pre.end, true)
            &&& scalar::is_sum(pre.current, pre.step, sum)
            &&& #[trigger] scalar::is_smaller(sum, pre.end, current)
        } {
        let sum = choose|sum: V|
            {
                &&& scalar::is_less(pre.current, pre.end, true)
                &&& scalar::is_sum(pre.current, pre.step, sum)
                &&& #[trigger] scalar::is_smaller(sum, pre.end, current)
            };
        assert(call_ensures(V::lowest, (sum, pre.end), current));
    } else if exists|sum: V|
        {
            &&& scalar::is_less(pre.current, pre.end, false)
            &&& scalar::is_less(pre.end, pre.current, true)
            &&& scalar::is_sum(pre.current, pre.step, sum)
            &&& #[trigger] scalar::is_larger(sum, pre.end, current)
        } {
        let sum = choose|sum: V|
            {
                &&& scalar::is_less(pre.current, pre.end, false)
                &&& scalar::is_less(pre.end, pre.current, true)
                &&& scalar::is_sum(pre.current, pre.step, sum)
                &&& #[trigger] scalar::is_larger(sum, pre.end, current)
            };
        assert(call_ensures(V::highest, (sum, pre.end), current));
    }
}

/// Every pitch event changes one setting and makes every voice sound at the pitch that the bend, the
/// coarse tune and the fine tune then make together. A bend position counts times the bend strength,
/// and a new strength scales the bend that there is.
pub proof fn lemma_pitch_events<
    V: Scalar,
    Vo: Voice + VoiceGeneratorBase<Control = VoiceControlData<V>>,
>(channel: &mut VoiceChannel<V, Vo>, event: ControlEvent<V>, next: Option<ChannelAudioEvent<V>>)
    requires
        old(channel).wf(),
        event is PitchBendValue || event is PitchBendSensitivity || event is PitchBend
            || event is FineTune || event is CoarseTune,
        call_ensures(VoiceChannel::<V, Vo>::process_control_event, (channel, event), next),
    ensures
        next is None,
        sounds_tuned(*old(channel), final(channel).control_event_data, *final(channel)),
        ({
            let pre = old(channel).control_event_data;
            let post = final(channel).control_event_data;
            match event {
                ControlEvent::PitchBendValue(value) => {
                    &&& call_ensures(
                        V::times,
                        (pre.pitch_bend_sensitivity, value),
                        post.pitch_bend_value,
                    )
                    &&& post == ControlEventData { pitch_bend_value: post.pitch_bend_value, ..pre }
                },
                ControlEvent::PitchBendSensitivity(strength) => {
                    &&& call_ensures(
                        V::times,
                        (strength, pre.pitch_bend_value),
                        post.pitch_bend_value,
                    )
                    &&& post == ControlEventData {
                        pitch_bend_value: post.pitch_bend_value,
                        pitch_bend_sensitivity: strength,
                        ..pre
                    }
                },
                ControlEvent::PitchBend(bend) => post == ControlEventData {
                    pitch_bend_value: bend,
                    ..pre
                },
                ControlEvent::FineTune(cents) => post == ControlEventData {
                    fine_tune_value: cents,
                    ..pre
                },
                ControlEvent::CoarseTune(semitones) => post == ControlEventData {
                    coarse_tune_value: semitones,
                    ..pre
                },
                _ => false,
            }
        }),
{
    lemma_pitches_follows(*old(channel), final(channel).control_event_data, *final(channel));
}

/// The parameters 0, 1 and 2 are the bend strength in semitones and hundredths, the fine tune in cents
/// around 4096 steps of 64, and the coarse tune in semitones around 64. Controllers 100 and 101 select
/// one, controllers 6 and 38 enter its more and its less significant part. The coarse tune has no less
/// significant part, and other parameters are ignored.
pub proof fn lemma_parameter_entry<
    V: Scalar,
    Vo: Voice + VoiceGeneratorBase<Control = VoiceControlData<V>>,
>(
    channel: &mut VoiceChannel<V, Vo>,
    controller: u8,
    value: u8,
    next: Option<ChannelAudioEvent<V>>,
)
    requires
        old(channel).wf(),
        controller == 100 || controller == 101 || controller == 6 || controller == 38,
        call_ensures(
            VoiceChannel::<V, Vo>::process_control_event,
            (channel, ControlEvent::Raw(controller, value)),
            next,
        ),
    ensures
        next is None,
        ({
            let pre = old(channel).control_event_data;
            let post = final(channel).control_event_data;
            let coarse = controller == 6;
            if controller == 100 {
                &&& only_settings_change(*old(channel), *final(channel))
                &&& post.selected_lsb == in_eight_bits(value)
                &&& post == ControlEventData { selected_lsb: post.selected_lsb, ..pre }
            } else if controller == 101 {
                &&& only_settings_change(*old(channel), *final(channel))
                &&& post.selected_msb == in_eight_bits(value)
                &&& post == ControlEventData { selected_msb: post.selected_msb, ..pre }
            } else if pre.selected_msb == 0 && pre.selected_lsb == 0 {
                let msb = if coarse {
                    value
                } else {
                    pre.pitch_bend_sensitivity_msb
                };
                let lsb = if coarse {
                    pre.pitch_bend_sensitivity_lsb
                } else {
                    value
                };
                &&& sounds_tuned(*old(channel), post, *final(channel))
                &&& exists|whole: V, part: V|
                    {
                        &&& call_ensures(V::ratio, (msb as i64, 1i64), whole)
                        &&& call_ensures(V::ratio, (lsb as i64, 100i64), part)
                        &&& #[trigger] call_ensures(
                            V::plus,
                            (whole, part),
                            post.pitch_bend_sensitivity,
                        )
                    }
                &&& call_ensures(
                    V::times,
                    (post.pitch_bend_sensitivity, pre.pitch_bend_value),
                    post.pitch_bend_value,
                )
                &&& post == ControlEventData {
                    pitch_bend_sensitivity_msb: msb,
                    pitch_bend_sensitivity_lsb: lsb,
                    pitch_bend_sensitivity: post.pitch_bend_sensitivity,
                    pitch_bend_value: post.pitch_bend_value,
                    ..pre
                }
            } else if pre.selected_msb == 0 && pre.selected_lsb == 1 {
                let msb = if coarse {
                    value
                } else {
                    pre.fine_tune_msb
                };
                let lsb = if coarse {
                    pre.fine_tune_lsb
                } else {
                    value
                };
                &&& sounds_tuned(*old(channel), post, *final(channel))
                &&& call_ensures(
                    V::ratio,
                    (((msb * 64 + lsb - 4096) * 100) as i64, 4096i64),
                    post.fine_tune_value,
                )
                &&& post == ControlEventData {
                    fine_tune_msb: msb,
                    fine_tune_lsb: lsb,
                    fine_tune_value: post.fine_tune_value,
                    ..pre
                }
            } else if pre.selected_msb == 0 && pre.selected_lsb == 2 && coarse {
                &&& sounds_tuned(*old(channel), post, *final(channel))
                &&& call_ensures(V::ratio, ((value - 64) as i64, 1i64), post.coarse_tune_value)
                &&& post == ControlEventData { coarse_tune_value: post.coarse_tune_value, ..pre }
            } else {
                *final(channel) == *old(channel)
            }
        }),
{
    let pre = old(channel).control_event_data;
    let post = final(channel).control_event_data;
    assert(value <= 127 ==> (value as i8) == value) by (bit_vector);
    assert(value > 127 ==> (value as i8) == value - 256) by (bit_vector);
    if (controller == 6 || controller == 38) && pre.selected_msb == 0 && 0 <= pre.selected_lsb <= 2
        && !(pre.selected_lsb == 2 && controller == 38) {
        lemma_pitches_follows(*old(channel), post, *final(channel));
        if pre.selected_lsb == 0 {
            let coarse = controller == 6;
            let msb = if coarse {
                value
            } else {
                pre.pitch_bend_sensitivity_msb
            };
            let lsb = if coarse {
                pre.pitch_bend_sensitivity_lsb
            } else {
                value
            };
            let (whole, part) = choose|whole: V, part: V|
                {
                    &&& scalar::is_ratio(msb as int, 1, whole)
                    &&& scalar::is_ratio(lsb as int, 100, part)
                    &&& #[trigger] scalar::is_sum(whole, part, post.pitch_bend_sensitivity)
                };
            assert(call_ensures(V::plus, (whole, part), post.pitch_bend_sensitivity));
        }
    }
}

/// A value, read as a signed number of eight bits.
pub open spec fn in_eight_bits(value: u8) -> int {
    if value < 128 {
        value as int
    } else {
        value - 256
    }
}

/// The controllers 72, 73, 75, 79 and 94 are the release, the attack, the decay, the sustain level and
/// the delay of the envelopes. Each is handed to every voice, and leaves the others alone.
pub proof fn lemma_envelope_controllers<
    V: Scalar,
    Vo: Voice + VoiceGeneratorBase<Control = VoiceControlData<V>>,
>(
    channel: &mut VoiceChannel<V, Vo>,
    controller: u8,
    value: u8,
    next: Option<ChannelAudioEvent<V>>,
)
    requires
        old(channel).wf(),
        controller == 72 || controller == 73 || controller == 75 || controller == 79 || controller
            == 94,
        call_ensures(
            VoiceChannel::<V, Vo>::process_control_event,
            (channel, ControlEvent::Raw(controller, value)),
            next,
        ),
    ensures
        next is None,
        final(channel).control_event_data == old(channel).control_event_data,
        every_voice_follows(*old(channel), *final(channel)),
        ({
            let pre = old(channel).voice_control_data.cc_envelope;
            let post = final(channel).voice_control_data.cc_envelope;
            &&& final(channel).voice_control_data == VoiceControlData {
                cc_envelope: post,
                ..old(channel).voice_control_data
            }
            &&& post.release == if controller == 72 {
                Some(value)
            } else {
                pre.release
            }
            &&& post.attack == if controller == 73 {
                Some(value)
            } else {
                pre.attack
            }
            &&& post.decay == if controller == 75 {
                Some(value)
            } else {
                pre.decay
            }
            &&& post.sustain_percent == if controller == 79 {
                Some(value)
            } else {
                pre.sustain_percent
            }
            &&& post.delay == if controller == 94 {
                Some(value)
            } else {
                pre.delay
            }
            &&& post.hold == pre.hold
        }),
{
    lemma_steers_follows(
        *old(channel),
        old(channel).control_event_data,
        final(channel).voice_control_data,
        *final(channel),
    );
}

/// The times and the level of the envelopes can be set exactly. A time is at least none and a level lies
/// between 0 and 1; each takes the place of the controller for the same thing, is handed to every
/// voice, and leaves the others alone.
pub proof fn lemma_envelope_events<
    V: Scalar,
    Vo: Voice + VoiceGeneratorBase<Control = VoiceControlData<V>>,
>(channel: &mut VoiceChannel<V, Vo>, event: ControlEvent<V>, next: Option<ChannelAudioEvent<V>>)
    requires
        old(channel).wf(),
        event is DelayTime || event is AttackTime || event is HoldTime || event is DecayTime
            || event is SustainLevel || event is ReleaseTime,
        call_ensures(VoiceChannel::<V, Vo>::process_control_event, (channel, event), next),
    ensures
        next is None,
        final(channel).control_event_data == old(channel).control_event_data,
        final(channel).voice_control_data.voice_pitch_multiplier
            == old(channel).voice_control_data.voice_pitch_multiplier,
        every_voice_follows(*old(channel), *final(channel)),
        ({
            let a = old(channel).voice_control_data.envelope;
            let b = final(channel).voice_control_data.envelope;
            let c = old(channel).voice_control_data.cc_envelope;
            let d = final(channel).voice_control_data.cc_envelope;
            match event {
                ControlEvent::DelayTime(value) => {
                    &&& b.delay matches Some(v) && is_raised_to(value, 0, 1, v)
                    &&& b == EnvelopeControlData { delay: b.delay, ..a }
                    &&& d == EnvelopeCCControlData { delay: None, ..c }
                },
                ControlEvent::AttackTime(value) => {
                    &&& b.attack matches Some(v) && is_raised_to(value, 0, 1, v)
                    &&& b == EnvelopeControlData { attack: b.attack, ..a }
                    &&& d == EnvelopeCCControlData { attack: None, ..c }
                },
                ControlEvent::HoldTime(value) => {
                    &&& b.hold matches Some(v) && is_raised_to(value, 0, 1, v)
                    &&& b == EnvelopeControlData { hold: b.hold, ..a }
                    &&& d == EnvelopeCCControlData { hold: None, ..c }
                },
                ControlEvent::DecayTime(value) => {
                    &&& b.decay matches Some(v) && is_raised_to(value, 0, 1, v)
                    &&& b == EnvelopeControlData { decay: b.decay, ..a }
                    &&& d == EnvelopeCCControlData { decay: None, ..c }
                },
                ControlEvent::SustainLevel(value) => {
                    &&& b.sustain_percent matches Some(v) && is_limited(value, v)
                    &&& b == EnvelopeControlData { sustain_percent: b.sustain_percent, ..a }
                    &&& d == EnvelopeCCControlData { sustain_percent: None, ..c }
                },
                ControlEvent::ReleaseTime(value) => {
                    &&& b.release matches Some(v) && is_raised_to(value, 0, 1, v)
                    &&& b == EnvelopeControlData { release: b.release, ..a }
                    &&& d == EnvelopeCCControlData { release: None, ..c }
                },
                _ => false,
            }
        }),
{
    let b = final(channel).voice_control_data.envelope;
    lemma_steers_follows(
        *old(channel),
        old(channel).control_event_data,
        final(channel).voice_control_data,
        *final(channel),
    );
    match event {
        ControlEvent::DelayTime(value) => lemma_least_raises(value, 0, 1, b.delay->0),
        ControlEvent::AttackTime(value) => lemma_least_raises(value, 0, 1, b.attack->0),
        ControlEvent::HoldTime(value) => lemma_least_raises(value, 0, 1, b.hold->0),
        ControlEvent::DecayTime(value) => lemma_least_raises(value, 0, 1, b.decay->0),
        ControlEvent::SustainLevel(value) => lemma_unit_limits(value, b.sustain_percent->0),
        ControlEvent::ReleaseTime(value) => lemma_least_raises(value, 0, 1, b.release->0),
        _ => {},
    }
}

/// Whether `cutoff` is the frequency of the key `value + 64`, with what it has above 7000 stretched by
/// 2.36.
pub open spec fn cuts_off_at<V: Scalar>(value: u8, cutoff: V) -> bool {
    exists|frequency: V, bend: V, high: bool|
        {
            &&& #[trigger] call_ensures(V::key_frequency, ((value + 64) as u8,), frequency)
            &&& call_ensures(V::ratio, (7000i64, 1i64), bend)
            &&& #[trigger] call_ensures(V::less, (bend, frequency), high)
            &&& !high ==> cutoff == frequency
            &&& high ==> exists|one: V, stretch: V, times: V, above: V, more: V, factor: V|
                {
                    &&& call_ensures(V::ratio, (1i64, 1i64), one)
                    &&& call_ensures(V::ratio, (236i64, 100i64), stretch)
                    &&& #[trigger] call_ensures(V::over, (frequency, bend), times)
                    &&& #[trigger] call_ensures(V::minus, (times, one), above)
                    &&& #[trigger] call_ensures(V::times, (above, stretch), more)
                    &&& #[trigger] call_ensures(V::plus, (more, one), factor)
                    &&& call_ensures(V::times, (factor, bend), cutoff)
                }
        }
}

proof fn lemma_cutoff_at<V: Scalar>(value: u8, cutoff: V)
    requires
        is_cutoff(value, cutoff),
    ensures
        cuts_off_at(value, cutoff),
{
    let (frequency, bend, high) = choose|frequency: V, bend: V, high: bool| #[trigger]
        is_cutoff_by(value, cutoff, frequency, bend, high);
    if high {
        let (one, stretch, times, above, more, factor) = choose|
            one: V,
            stretch: V,
            times: V,
            above: V,
            more: V,
            factor: V,
        | #[trigger]
            is_stretched_by(frequency, bend, cutoff, one, stretch, times, above, more, factor);
        assert(call_ensures(V::over, (frequency, bend), times));
        assert(call_ensures(V::minus, (times, one), above));
        assert(call_ensures(V::times, (above, stretch), more));
        assert(call_ensures(V::plus, (more, one), factor));
    }
    assert(call_ensures(V::key_frequency, ((value + 64) as u8,), frequency));
    assert(call_ensures(V::less, (bend, frequency), high));
}

/// Whether `resonance` is that of the Butterworth filter, raised by `(value - 64) / 2.4` decibels.
pub open spec fn resonates_at<V: Scalar>(value: u8, resonance: V) -> bool {
    exists|distance: V, unit: V, db: V, ten: V, twenty: V, exponent: V, amp: V, flat: V| #[trigger]
        resonates_by(value, resonance, distance, unit, db, ten, twenty, exponent, amp, flat)
}

/// As above, by way of the values in between.
pub open spec fn resonates_by<V: Scalar>(
    value: u8,
    resonance: V,
    distance: V,
    unit: V,
    db: V,
    ten: V,
    twenty: V,
    exponent: V,
    amp: V,
    flat: V,
) -> bool {
    &&& call_ensures(V::ratio, ((value - 64) as i64, 1i64), distance)
    &&& call_ensures(V::ratio, (24i64, 10i64), unit)
    &&& call_ensures(V::over, (distance, unit), db)
    &&& call_ensures(V::ratio, (10i64, 1i64), ten)
    &&& call_ensures(V::ratio, (20i64, 1i64), twenty)
    &&& call_ensures(V::over, (db, twenty), exponent)
    &&& call_ensures(V::raised, (ten, exponent), amp)
    &&& call_ensures(V::butterworth, (), flat)
    &&& call_ensures(V::times, (amp, flat), resonance)
}

proof fn lemma_resonates<V: Scalar>(value: u8, resonance: V)
    requires
        is_resonance(value, resonance),
    ensures
        resonates_at(value, resonance),
{
    let (db, amp, flat) = choose|db: V, amp: V, butterworth: V| #[trigger]
        is_resonance_by(value, resonance, db, amp, butterworth);
    let (distance, unit) = choose|distance: V, unit: V|
        scalar::is_ratio(value - 64, 1, distance) && scalar::is_ratio(24, 10, unit)
            && #[trigger] scalar::is_quotient(distance, unit, db);
    let (ten, twenty, exponent) = choose|ten: V, twenty: V, exponent: V| #[trigger]
        helpers::is_db_amp_by(db, amp, ten, twenty, exponent);
    assert(resonates_by(
        value,
        resonance,
        distance,
        unit,
        db,
        ten,
        twenty,
        exponent,
        amp,
        flat,
    ));
}

/// The low-pass filter works exactly when it is on and cuts off more than 100 below half of the sample
/// rate; the high-pass filter exactly when it is on and cuts off above 1.
pub proof fn lemma_filters_work<V: Scalar>(data: ControlEventData<V>, low: bool, high: bool)
    requires
        call_ensures(ControlEventData::<V>::is_lowpass_active, (&data,), low),
        call_ensures(ControlEventData::<V>::is_highpass_active, (&data,), high),
    ensures
        if data.cutoff_active {
            exists|two: V, half: V, margin: V, top: V|
                {
                    &&& call_ensures(V::ratio, (2i64, 1i64), two)
                    &&& #[trigger] call_ensures(V::over, (data.sample_rate, two), half)
                    &&& call_ensures(V::ratio, (100i64, 1i64), margin)
                    &&& #[trigger] call_ensures(V::minus, (half, margin), top)
                    &&& call_ensures(V::less, (data.cutoff, top), low)
                }
        } else {
            !low
        },
        if data.highpass_active {
            exists|one: V| #[trigger]
                call_ensures(V::ratio, (1i64, 1i64), one) && call_ensures(
                    V::less,
                    (one, data.highpass_cutoff),
                    high,
                )
        } else {
            !high
        },
{
    if data.cutoff_active {
        let top = choose|limit: V| #[trigger]
            is_top_cutoff(data.sample_rate, limit) && scalar::is_less(data.cutoff, limit, low);
        let (two, half, margin) = choose|two: V, half: V, margin: V|
            {
                &&& scalar::is_ratio(2, 1, two)
                &&& #[trigger] scalar::is_quotient(data.sample_rate, two, half)
                &&& scalar::is_ratio(100, 1, margin)
                &&& #[trigger] scalar::is_difference(half, margin, top)
            };
        assert(call_ensures(V::over, (data.sample_rate, two), half));
        assert(call_ensures(V::minus, (half, margin), top));
    }
    if data.highpass_active {
        let one = choose|one: V| #[trigger]
            scalar::is_ratio(1, 1, one) && scalar::is_less(one, data.highpass_cutoff, high);
        assert(call_ensures(V::ratio, (1i64, 1i64), one));
    }
}

/// The filters have settings of their own. Controller 74 sets the cutoff below its middle and turns
/// that filter off from there on, controller 71 sets the resonance; the events set each of the four
/// exactly, where a resonance is at least a hundredth and a high-pass cutoff is not below zero. What is
/// set is turned on, and nothing else changes.
pub proof fn lemma_filter_settings<
    V: Scalar,
    Vo: Voice + VoiceGeneratorBase<Control = VoiceControlData<V>>,
>(channel: &mut VoiceChannel<V, Vo>, event: ControlEvent<V>, next: Option<ChannelAudioEvent<V>>)
    requires
        old(channel).wf(),
        call_ensures(VoiceChannel::<V, Vo>::process_control_event, (channel, event), next),
    ensures
        ({
            let pre = old(channel).control_event_data;
            let post = final(channel).control_event_data;
            let alone = only_settings_change(*old(channel), *final(channel)) && next is None;
            match event {
                ControlEvent::Raw(74, value) => {
                    &&& alone
                    &&& value < 64 ==> cuts_off_at(value, post.cutoff) && post
                        == ControlEventData { cutoff: post.cutoff, cutoff_active: true, ..pre }
                    &&& value >= 64 ==> post == ControlEventData { cutoff_active: false, ..pre }
                },
                ControlEvent::Cutoff(frequency) => alone && post == ControlEventData {
                    cutoff: frequency,
                    cutoff_active: true,
                    ..pre
                },
                ControlEvent::Raw(71, value) => alone && resonates_at(value, post.resonance) && post
                    == ControlEventData {
                    resonance: post.resonance,
                    resonance_active: true,
                    ..pre
                },
                ControlEvent::Resonance(value) => alone && is_raised_to(
                    value,
                    1,
                    100,
                    post.resonance,
                ) && post == ControlEventData {
                    resonance: post.resonance,
                    resonance_active: true,
                    ..pre
                },
                ControlEvent::HighPassCutoff(frequency) => alone && is_raised_to(
                    frequency,
                    0,
                    1,
                    post.highpass_cutoff,
                ) && post == ControlEventData {
                    highpass_cutoff: post.highpass_cutoff,
                    highpass_active: true,
                    ..pre
                },
                ControlEvent::HighPassResonance(value) => alone && is_raised_to(
                    value,
                    1,
                    100,
                    post.highpass_resonance,
                ) && post == ControlEventData {
                    highpass_resonance: post.highpass_resonance,
                    highpass_resonance_active: true,
                    ..pre
                },
                _ => true,
            }
        }),
{
    let post = final(channel).control_event_data;
    match event {
        ControlEvent::Raw(74, value) => {
            if value < 64 {
                lemma_cutoff_at(value, post.cutoff);
            }
        },
        ControlEvent::Raw(71, value) => lemma_resonates(value, post.resonance),
        ControlEvent::Resonance(value) => lemma_least_raises(value, 1, 100, post.resonance),
        ControlEvent::HighPassCutoff(value) => lemma_least_raises(
            value,
            0,
            1,
            post.highpass_cutoff,
        ),
        ControlEvent::HighPassResonance(value) => lemma_least_raises(
            value,
            1,
            100,
            post.highpass_resonance,
        ),
        _ => {},
    }
}

/// Controller 0 selects the bank, and nothing else. Controllers 120 and 123 at zero ask for all notes to
/// be killed and ended, and are the only events that ask for anything; neither changes the channel.
/// Controllers without a meaning change nothing.
pub proof fn lemma_bank_and_requests<
    V: Scalar,
    Vo: Voice + VoiceGeneratorBase<Control = VoiceControlData<V>>,
>(channel: &mut VoiceChannel<V, Vo>, event: ControlEvent<V>, next: Option<ChannelAudioEvent<V>>)
    requires
        old(channel).wf(),
        call_ensures(VoiceChannel::<V, Vo>::process_control_event, (channel, event), next),
    ensures
        next == if event == ControlEvent::<V>::Raw(120, 0) {
            Some(ChannelAudioEvent::<V>::AllNotesKilled)
        } else if event == ControlEvent::<V>::Raw(123, 0) {
            Some(ChannelAudioEvent::<V>::AllNotesOff)
        } else {
            None
        },
        event matches ControlEvent::Raw(controller, value) ==> {
            let pre = *old(channel);
            let post = *final(channel);
            &&& controller == 0 ==> post == VoiceChannel {
                params: ProgramParams { bank: value, preset: pre.params.preset },
                ..pre
            }
            &&& has_no_meaning(controller) || controller == 120 || controller == 123 || controller
                == 121 && value != 0 ==> post == pre
        },
{
}

/// Whether a controller has no meaning.
pub open spec fn has_no_meaning(controller: u8) -> bool {
    &&& controller != 0 && controller != 6 && controller != 7 && controller != 8
    &&& controller != 10 && controller != 11 && controller != 38 && controller != 64
    &&& controller != 71 && controller != 72 && controller != 73 && controller != 74
    &&& controller != 75 && controller != 79 && controller != 94
    &&& controller != 100 && controller != 101 && controller != 120 && controller != 121
    &&& controller != 123
}

/// Whether a value rests at `num / den`.
pub open spec fn rests_at<V: Scalar>(lerp: ValueLerp<V>, num: i64, den: i64) -> bool {
    &&& call_ensures(V::ratio, (num, den), lerp.current)
    &&& lerp.end == lerp.current
    &&& call_ensures(V::ratio, (0i64, 1i64), lerp.step)
}

/// Whether the settings of a channel are those that it starts with: full volume and expression, pan in
/// the middle, no bend, a bend strength of two semitones, no tuning, no filter, and no parameter
/// selected.
pub open spec fn is_untouched<V: Scalar>(data: ControlEventData<V>) -> bool {
    &&& rests_at(data.volume, 1, 1)
    &&& rests_at(data.expression, 1, 1)
    &&& rests_at(data.pan, 1, 2)
    &&& call_ensures(V::ratio, (0i64, 1i64), data.pitch_bend_value)
    &&& call_ensures(V::ratio, (2i64, 1i64), data.pitch_bend_sensitivity)
    &&& data.pitch_bend_sensitivity_msb == 2 && data.pitch_bend_sensitivity_lsb == 0
    &&& call_ensures(V::ratio, (0i64, 1i64), data.fine_tune_value)
    &&& data.fine_tune_msb == 0 && data.fine_tune_lsb == 0
    &&& call_ensures(V::ratio, (0i64, 1i64), data.coarse_tune_value)
    &&& !data.cutoff_active && !data.resonance_active
    &&& !data.highpass_active && !data.highpass_resonance_active
    &&& data.selected_msb == -1 && data.selected_lsb == -1
}

/// Whether the controls of voices are those that they start with: the pitch of the note, and an
/// envelope that nothing changes.
pub open spec fn leaves_voices_alone<V: Scalar>(control: VoiceControlData<V>) -> bool {
    &&& call_ensures(V::ratio, (1i64, 1i64), control.voice_pitch_multiplier)
    &&& control.envelope == (EnvelopeControlData::<V> {
        delay: None,
        attack: None,
        hold: None,
        decay: None,
        sustain_percent: None,
        release: None,
    })
    &&& control.cc_envelope == (EnvelopeCCControlData {
        delay: None,
        attack: None,
        hold: None,
        decay: None,
        sustain_percent: None,
        release: None,
    })
}

/// A new channel has 128 silent keys, its untouched settings and the first program.
pub proof fn lemma_new_channel<
    V: Scalar,
    Vo: Voice + VoiceGeneratorBase<Control = VoiceControlData<V>>,
>(options: ChannelInitOptions, stream_params: AudioStreamParams, channel: VoiceChannel<V, Vo>)
    requires
        call_ensures(VoiceChannel::<V, Vo>::new, (options, stream_params), channel),
    ensures
        is_untouched(channel.control_event_data),
        leaves_voices_alone(channel.voice_control_data),
        channel.params.bank == 0 && channel.params.preset == 0,
        channel.stream_params == stream_params,
        channel.key_voices@.len() == 128,
        forall|i: int|
            0 <= i < 128 ==> {
                &&& (#[trigger] channel.key_voices@[i]).note() == i
                &&& channel.key_voices@[i].buffer().groups().len() == 0
                &&& !channel.key_voices@[i].buffer().damper()
            },
{
}

/// Resetting the controllers, by controller 121 at zero, puts every setting back to where a new channel
/// has it. It lifts the pedal of every key, so that no key holds notes any more, and leaves the
/// program alone.
pub proof fn lemma_reset_restores<
    V: Scalar,
    Vo: Voice + VoiceGeneratorBase<Control = VoiceControlData<V>>,
>(channel: &mut VoiceChannel<V, Vo>, next: Option<ChannelAudioEvent<V>>)
    requires
        old(channel).wf(),
        call_ensures(
            VoiceChannel::<V, Vo>::process_control_event,
            (channel, ControlEvent::Raw(121, 0)),
            next,
        ),
    ensures
        next is None,
        is_untouched(final(channel).control_event_data),
        leaves_voices_alone(final(channel).voice_control_data),
        final(channel).params == old(channel).params,
        final(channel).key_voices@.len() == old(channel).key_voices@.len(),
        forall|i: int|
            0 <= i < old(channel).key_voices@.len() ==> {
                &&& !(#[trigger] final(channel).key_voices@[i]).buffer().damper()
                &&& final(channel).key_voices@[i].note() == old(channel).key_voices@[i].note()
            },
{
    let a = old(channel).key_voices@;
    let b = final(channel).key_voices@;
    let mid = choose|mid: Seq<KeyData<Vo>>| #[trigger]
        keys_follow(a, final(channel).voice_control_data, mid) && keys_damp(mid, false, b);
    assert forall|i: int| 0 <= i < a.len() implies {
        &&& !(#[trigger] b[i]).buffer().damper()
        &&& b[i].note() == a[i].note()
    } by {
        assert(mid[i].note() == a[i].note());
    }
}

/// Whether a length is a hundredth of a second in samples.
pub open spec fn is_hundredth<V: Scalar>(sample_rate: u32, length: V) -> bool {
    exists|rate: V, part: V|
        {
            &&& call_ensures(V::ratio, (sample_rate as i64, 1i64), rate)
            &&& call_ensures(V::ratio, (1i64, 100i64), part)
            &&& #[trigger] call_ensures(V::times, (rate, part), length)
        }
}

proof fn lemma_hundredth<V: Scalar>(sample_rate: u32, length: V)
    requires
        is_lerp_length(sample_rate, length),
    ensures
        is_hundredth(sample_rate, length),
{
    let (rate, part) = choose|rate: V, part: V|
        {
            &&& scalar::is_ratio(sample_rate as int, 1, rate)
            &&& scalar::is_ratio(1, 100, part)
            &&& #[trigger] scalar::is_product(rate, part, length)
        };
    assert(call_ensures(V::times, (rate, part), length));
}

/// A value starts at rest. One that gets a target heads for it, and will be there after a hundredth of a
/// second.
pub proof fn lemma_values_move_in_a_hundredth<V: Scalar>(
    start: V,
    sample_rate: u32,
    fresh: ValueLerp<V>,
    lerp: &mut ValueLerp<V>,
    end: V,
)
    requires
        call_ensures(ValueLerp::<V>::new, (start, sample_rate), fresh),
        call_ensures(ValueLerp::<V>::set_end, (lerp, end), ()),
    ensures
        fresh.current == start,
        fresh.end == start,
        call_ensures(V::ratio, (0i64, 1i64), fresh.step),
        is_hundredth(sample_rate, fresh.lerp_length),
        heads_for(*old(lerp), end, *final(lerp)),
{
    lemma_hundredth(sample_rate, fresh.lerp_length);
    let pre = *old(lerp);
    let post = *final(lerp);
    let distance = choose|distance: V|
        {
            &&& scalar::is_difference(end, pre.current, distance)
            &&& #[trigger] scalar::is_quotient(distance, pre.lerp_length, post.step)
        };
    assert(call_ensures(V::over, (distance, pre.lerp_length), post.step));
}

/// Whether a frequency lies 100 below half of the sample rate.
pub open spec fn is_below_half<V: Scalar>(rate: V, frequency: V) -> bool {
    exists|two: V, half: V, margin: V|
        {
            &&& call_ensures(V::ratio, (2i64, 1i64), two)
            &&& #[trigger] call_ensures(V::over, (rate, two), half)
            &&& call_ensures(V::ratio, (100i64, 1i64), margin)
            &&& #[trigger] call_ensures(V::minus, (half, margin), frequency)
        }
}

proof fn lemma_below_half<V: Scalar>(rate: V, frequency: V)
    requires
        is_top_cutoff(rate, frequency),
    ensures
        is_below_half(rate, frequency),
{
    let (two, half, margin) = choose|two: V, half: V, margin: V|
        {
            &&& scalar::is_ratio(2, 1, two)
            &&& #[trigger] scalar::is_quotient(rate, two, half)
            &&& scalar::is_ratio(100, 1, margin)
            &&& #[trigger] scalar::is_difference(half, margin, frequency)
        };
    assert(call_ensures(V::over, (rate, two), half));
    assert(call_ensures(V::minus, (half, margin), frequency));
}

/// Whether the filters of a channel are open: the low-pass cutoff is near half of the sample rate, the
/// high-pass cutoff is zero, and the resonances are flat. Besides,
/// each value takes a hundredth of a second to move.
pub open spec fn is_unfiltered<V: Scalar>(data: ControlEventData<V>, sample_rate: u32) -> bool {
    &&& call_ensures(V::butterworth, (), data.resonance)
    &&& call_ensures(V::butterworth, (), data.highpass_resonance)
    &&& call_ensures(V::ratio, (0i64, 1i64), data.highpass_cutoff)
    &&& call_ensures(V::ratio, (sample_rate as i64, 1i64), data.sample_rate)
    &&& is_below_half(data.sample_rate, data.cutoff)
    &&& is_hundredth(sample_rate, data.volume.lerp_length)
    &&& is_hundredth(sample_rate, data.pan.lerp_length)
    &&& is_hundredth(sample_rate, data.expression.lerp_length)
}

/// The settings that a channel starts with.
pub proof fn lemma_untouched_settings<V: Scalar>(
    sample_rate: u32,
    data: ControlEventData<V>,
    control: VoiceControlData<V>,
)
    requires
        call_ensures(ControlEventData::<V>::new_defaults, (sample_rate,), data),
        call_ensures(VoiceControlData::<V>::new_defaults, (), control),
    ensures
        is_untouched(data),
        is_unfiltered(data, sample_rate),
        leaves_voices_alone(control),
{
    lemma_below_half(data.sample_rate, data.cutoff);
    lemma_hundredth(sample_rate, data.volume.lerp_length);
    lemma_hundredth(sample_rate, data.pan.lerp_length);
    lemma_hundredth(sample_rate, data.expression.lerp_length);
}

/// A reset puts every setting back to where a new channel has it, for the sample rate of the channel,
/// lifts the pedal of every key, and leaves the program alone; the program has a reset of its own, which
/// goes back to the first one and changes nothing else. Recomputing the pitch makes the voices sound
/// at the one that bend and tuning make together.
pub proof fn lemma_resets<V: Scalar, Vo: Voice + VoiceGeneratorBase<Control = VoiceControlData<V>>>(
    channel: &mut VoiceChannel<V, Vo>,
    other: &mut VoiceChannel<V, Vo>,
    tuned: &mut VoiceChannel<V, Vo>,
)
    requires
        call_ensures(VoiceChannel::<V, Vo>::reset_control, (channel,), ()),
        call_ensures(VoiceChannel::<V, Vo>::reset_program, (other,), ()),
        call_ensures(VoiceChannel::<V, Vo>::process_pitch, (tuned,), ()),
    ensures
        is_untouched(final(channel).control_event_data),
        is_unfiltered(final(channel).control_event_data, old(channel).stream_params.sample_rate),
        leaves_voices_alone(final(channel).voice_control_data),
        final(channel).params == old(channel).params,
        final(channel).key_voices@.len() == old(channel).key_voices@.len(),
        forall|i: int|
            0 <= i < old(channel).key_voices@.len() ==> !(
            #[trigger] final(channel).key_voices@[i]).buffer().damper(),
        final(other).params.bank == 0,
        final(other).params.preset == 0,
        final(other).key_voices == old(other).key_voices,
        final(other).control_event_data == old(other).control_event_data,
        final(other).voice_control_data == old(other).voice_control_data,
        sounds_tuned(*old(tuned), old(tuned).control_event_data, *final(tuned)),
{
    let a = old(channel).key_voices@;
    let b = final(channel).key_voices@;
    let data = final(channel).control_event_data;
    let rate = old(channel).stream_params.sample_rate;
    lemma_below_half(data.sample_rate, data.cutoff);
    lemma_hundredth(rate, data.volume.lerp_length);
    lemma_hundredth(rate, data.pan.lerp_length);
    lemma_hundredth(rate, data.expression.lerp_length);
    let mid = choose|mid: Seq<KeyData<Vo>>| #[trigger]
        keys_follow(a, final(channel).voice_control_data, mid) && keys_damp(mid, false, b);
    assert forall|i: int| 0 <= i < a.len() implies !(#[trigger] b[i]).buffer().damper() by {
        assert(mid[i].note() == a[i].note());
    }
    lemma_pitches_follows(*old(tuned), old(tuned).control_event_data, *final(tuned));
}

} // verus!
