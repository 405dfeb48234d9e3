//! The volume envelope of a voice.

use vstd::prelude::*;
use crate::scalar;
use crate::scalar::Scalar;
use crate::voice::lerpers;
use crate::voice::lerpers::{RampCurve, SIMDLerper, SIMDLerperConcave, SIMDLerperConvex};
use crate::voice::simd_voice::SIMDVoiceGenerator;
use crate::voice::stage_time;
use crate::voice::stage_time::StageTime;
use crate::voice::{
    EnvelopeCCControlData, EnvelopeControlData, ReleaseType, VoiceControlData, VoiceGeneratorBase,
};

verus! {

/// The stages of an envelope, in order.
#[derive(Copy, Clone, Debug, PartialEq, Eq, Structural)]
pub enum EnvelopeStage {
    Delay,
    Attack,
    Hold,
    Decay,
    Sustain,
    /// Goes to this stage as soon as the voice is released
    Release,
    Finished,
}

impl EnvelopeStage {
    /// The number of the stage.
    pub open spec fn number(self) -> int {
        match self {
            EnvelopeStage::Delay => 0,
            EnvelopeStage::Attack => 1,
            EnvelopeStage::Hold => 2,
            EnvelopeStage::Decay => 3,
            EnvelopeStage::Sustain => 4,
            EnvelopeStage::Release => 5,
            EnvelopeStage::Finished => 6,
        }
    }

    /// The stage that follows. Nothing follows the last one.
    pub open spec fn next(self) -> EnvelopeStage {
        match self {
            EnvelopeStage::Delay => EnvelopeStage::Attack,
            EnvelopeStage::Attack => EnvelopeStage::Hold,
            EnvelopeStage::Hold => EnvelopeStage::Decay,
            EnvelopeStage::Decay => EnvelopeStage::Sustain,
            EnvelopeStage::Sustain => EnvelopeStage::Release,
            EnvelopeStage::Release => EnvelopeStage::Finished,
            EnvelopeStage::Finished => EnvelopeStage::Finished,
        }
    }

    /// The number of the stage.
    pub fn as_usize(&self) -> (number: usize)
        ensures
            number == self.number(),
    {
        match self {
            EnvelopeStage::Delay => 0,
            EnvelopeStage::Attack => 1,
            EnvelopeStage::Hold => 2,
            EnvelopeStage::Decay => 3,
            EnvelopeStage::Sustain => 4,
            EnvelopeStage::Release => 5,
            EnvelopeStage::Finished => 6,
        }
    }

    /// The stage that follows.
    pub fn next_stage(&self) -> (stage: EnvelopeStage)
        ensures
            stage == self.next(),
    {
        match self {
            EnvelopeStage::Delay => EnvelopeStage::Attack,
            EnvelopeStage::Attack => EnvelopeStage::Hold,
            EnvelopeStage::Hold => EnvelopeStage::Decay,
            EnvelopeStage::Decay => EnvelopeStage::Sustain,
            EnvelopeStage::Sustain => EnvelopeStage::Release,
            EnvelopeStage::Release => EnvelopeStage::Finished,
            EnvelopeStage::Finished => EnvelopeStage::Finished,
        }
    }
}

/// What happens in a stage.
#[derive(Copy, Clone)]
pub enum EnvelopePart<V> {
    /// A straight line to the target, over a number of samples.
    Lerp { target: V, duration: u32 },
    /// A concave curve to the target, over a number of samples.
    LerpConcave { target: V, duration: u32 },
    /// A convex curve to the target, over a number of samples.
    LerpConvex { target: V, duration: u32 },
    /// One value for as long as the stage lasts.
    Hold(V),
}

impl<V: Copy> EnvelopePart<V> {
    /// The curve, the target and the duration of a part that moves.
    pub open spec fn ramp(self) -> Option<(RampCurve, V, u32)> {
        match self {
            EnvelopePart::Lerp { target, duration } => Some(
                (RampCurve::Straight, target, duration),
            ),
            EnvelopePart::LerpConcave { target, duration } => Some(
                (RampCurve::Concave, target, duration),
            ),
            EnvelopePart::LerpConvex { target, duration } => Some(
                (RampCurve::Convex, target, duration),
            ),
            EnvelopePart::Hold(_) => None,
        }
    }

    /// The duration of the part: none for one that holds.
    pub open spec fn duration(self) -> u32 {
        match self.ramp() {
            Some((_, _, duration)) => duration,
            None => 0,
        }
    }

    /// The part with another duration. One that holds stays as it is.
    pub open spec fn lasting(self, duration: u32) -> Self {
        match self {
            EnvelopePart::Lerp { target, .. } => EnvelopePart::Lerp { target, duration },
            EnvelopePart::LerpConcave { target, .. } => EnvelopePart::LerpConcave {
                target,
                duration,
            },
            EnvelopePart::LerpConvex { target, .. } => EnvelopePart::LerpConvex {
                target,
                duration,
            },
            EnvelopePart::Hold(value) => EnvelopePart::Hold(value),
        }
    }

    pub fn lerp(target: V, duration: u32) -> (part: EnvelopePart<V>)
        ensures
            part == (EnvelopePart::Lerp { target, duration }),
    {
        EnvelopePart::Lerp { target, duration }
    }

    pub fn lerp_concave(target: V, duration: u32) -> (part: EnvelopePart<V>)
        ensures
            part == (EnvelopePart::LerpConcave { target, duration }),
    {
        EnvelopePart::LerpConcave { target, duration }
    }

    pub fn lerp_convex(target: V, duration: u32) -> (part: EnvelopePart<V>)
        ensures
            part == (EnvelopePart::LerpConvex { target, duration }),
    {
        EnvelopePart::LerpConvex { target, duration }
    }

    pub fn hold(value: V) -> (part: EnvelopePart<V>)
        ensures
            part == EnvelopePart::Hold(value),
    {
        EnvelopePart::Hold(value)
    }
}

/// What moves or rests in the present stage.
#[derive(Copy, Clone)]
pub enum StageData<V> {
    /// A ramp between two amplitudes.
    Ramp { curve: RampCurve, start: V, target: V, time: StageTime },
    /// A constant amplitude.
    Constant(V),
}

/// Where an envelope is.
#[derive(Copy, Clone)]
pub struct VoiceEnvelopeState<V> {
    pub current_stage: EnvelopeStage,
    pub stage_data: StageData<V>,
}

/// The raw envelope parameters used to generate the envelope.
#[derive(Copy, Clone)]
pub struct EnvelopeParameters<V> {
    pub start: V,
    pub parts: [EnvelopePart<V>; 7],
}

impl<V: Scalar> EnvelopeParameters<V> {
    /// The last stage is one to stay in.
    pub open spec fn wf(self) -> bool {
        self.parts@[6].ramp() is Some ==> self.parts@[6].duration() > 0
    }

    /// The state that entering a stage at the amplitude `amp` leads to. A ramp that takes no time
    /// is passed over: it leads on to the next stage, at its target.
    pub open spec fn entered(self, stage: EnvelopeStage, amp: V, width: u32) -> VoiceEnvelopeState<
        V,
    >
        decreases 6 - stage.number(),
    {
        match self.parts@[stage.number()].ramp() {
            Some((curve, target, duration)) => if duration == 0 && stage.number() < 6 {
                self.entered(stage.next(), target, width)
            } else {
                VoiceEnvelopeState {
                    current_stage: stage,
                    stage_data: StageData::Ramp {
                        curve,
                        start: amp,
                        target,
                        time: StageTime { time: 0, end: duration, width },
                    },
                }
            },
            None => VoiceEnvelopeState {
                current_stage: stage,
                stage_data: StageData::Constant(self.parts@[stage.number()]->0),
            },
        }
    }

    /// Enters a stage at an amplitude.
    pub fn get_stage_data(&self, stage: EnvelopeStage, start_amp: V, width: u32) -> (state:
        VoiceEnvelopeState<V>)
        requires
            self.wf(),
        ensures
            state == self.entered(stage, start_amp, width),
        decreases 6 - stage.number(),
    {
        match self.parts[stage.as_usize()] {
            EnvelopePart::Lerp { target, duration } => {
                if duration == 0 {
                    self.get_stage_data(stage.next_stage(), target, width)
                } else {
                    begin_ramp(stage, RampCurve::Straight, start_amp, target, duration, width)
                }
            },
            EnvelopePart::LerpConcave { target, duration } => {
                if duration == 0 {
                    self.get_stage_data(stage.next_stage(), target, width)
                } else {
                    begin_ramp(stage, RampCurve::Concave, start_amp, target, duration, width)
                }
            },
            EnvelopePart::LerpConvex { target, duration } => {
                if duration == 0 {
                    self.get_stage_data(stage.next_stage(), target, width)
                } else {
                    begin_ramp(stage, RampCurve::Convex, start_amp, target, duration, width)
                }
            },
            EnvelopePart::Hold(value) => VoiceEnvelopeState {
                current_stage: stage,
                stage_data: StageData::Constant(value),
            },
        }
    }

    /// The duration of a stage in samples. Stages that hold have none.
    pub fn get_stage_duration(&self, stage: EnvelopeStage) -> (duration: u32)
        ensures
            duration == self.parts@[stage.number()].duration(),
    {
        match self.parts[stage.as_usize()] {
            EnvelopePart::Lerp { duration, .. } => duration,
            EnvelopePart::LerpConcave { duration, .. } => duration,
            EnvelopePart::LerpConvex { duration, .. } => duration,
            EnvelopePart::Hold(_) => 0,
        }
    }

    /// Replaces what happens in a stage.
    pub fn modify_stage_data(&mut self, part: usize, data: EnvelopePart<V>)
        requires
            part < 7,
        ensures
            final(self).start == old(self).start,
            final(self).parts@ == old(self).parts@.update(part as int, data),
    {
        self.parts[part] = data;
    }
}

/// The start of a ramp.
fn begin_ramp<V: Scalar>(
    stage: EnvelopeStage,
    curve: RampCurve,
    start: V,
    target: V,
    duration: u32,
    width: u32,
) -> (state: VoiceEnvelopeState<V>)
    ensures
        state == (VoiceEnvelopeState {
            current_stage: stage,
            stage_data: StageData::Ramp {
                curve,
                start,
                target,
                time: StageTime { time: 0, end: duration, width },
            },
        }),
{
    VoiceEnvelopeState {
        current_stage: stage,
        stage_data: StageData::Ramp {
            curve,
            start,
            target,
            time: StageTime::new(0, duration, width),
        },
    }
}

impl<V: Scalar> StageData<V> {
    /// Whether `amp` is the amplitude at the present time.
    pub open spec fn is_amp(self, amp: V) -> bool {
        match self {
            StageData::Ramp { curve, start, target, time } => is_on_ramp(
                curve,
                start,
                target,
                time.time as int,
                time.end,
                amp,
            ),
            StageData::Constant(constant) => amp == constant,
        }
    }

    /// Whether a ramp has come to its end.
    pub open spec fn is_over(self) -> bool {
        match self {
            StageData::Ramp { time, .. } => time.time >= time.end,
            StageData::Constant(_) => false,
        }
    }

    /// The same, `n` samples later.
    pub open spec fn later(self, n: int) -> StageData<V> {
        match self {
            StageData::Ramp { curve, start, target, time } => StageData::Ramp {
                curve,
                start,
                target,
                time: StageTime { time: (time.time + n) as u32, ..time },
            },
            StageData::Constant(constant) => StageData::Constant(constant),
        }
    }

    /// A ramp takes time, and is not past its end.
    pub open spec fn wf(self, width: u32) -> bool {
        match self {
            StageData::Ramp { time, .. } => {
                &&& time.time <= time.end
                &&& 0 < time.end
                &&& time.width == width
            },
            StageData::Constant(_) => true,
        }
    }

    /// The amplitude at the present time.
    fn amp(&self) -> (amp: V)
        ensures
            self.is_amp(amp),
    {
        match *self {
            StageData::Ramp { curve, start, target, time } => on_ramp(
                curve,
                start,
                target,
                time.time,
                time.end,
            ),
            StageData::Constant(constant) => constant,
        }
    }
}

/// Whether `amp` is the amplitude `time` samples into a ramp.
pub open spec fn is_on_ramp<V: Scalar>(
    curve: RampCurve,
    start: V,
    target: V,
    time: int,
    end: u32,
    amp: V,
) -> bool {
    exists|factor: V| #[trigger]
        stage_time::is_progress(time, end, factor) && lies_at(curve, start, target, factor, amp)
}

/// Whether `amp` lies on a ramp where a fraction `factor` of the way is done.
pub open spec fn lies_at<V: Scalar>(
    curve: RampCurve,
    start: V,
    target: V,
    factor: V,
    amp: V,
) -> bool {
    match curve {
        RampCurve::Straight => exists|lerper: SIMDLerper<V>| #[trigger]
            lerper.is_between(start, target) && lerper.lerps(factor, amp),
        RampCurve::Concave => exists|lerper: SIMDLerperConcave<V>| #[trigger]
            lerper.is_between(start, target) && lerper.lerps(factor, amp),
        RampCurve::Convex => exists|lerper: SIMDLerperConvex<V>| #[trigger]
            lerper.is_between(start, target) && lerper.lerps(factor, amp),
    }
}

/// The amplitude `time` samples into a ramp.
fn on_ramp<V: Scalar>(curve: RampCurve, start: V, target: V, time: u32, end: u32) -> (amp: V)
    ensures
        is_on_ramp(curve, start, target, time as int, end, amp),
{
    let factor: V = stage_time::progress(time, end);
    let amp = match curve {
        RampCurve::Straight => SIMDLerper::new(start, target).lerp(factor),
        RampCurve::Concave => SIMDLerperConcave::new(start, target).lerp(factor),
        RampCurve::Convex => SIMDLerperConvex::new(start, target).lerp(factor),
    };
    assert(stage_time::is_progress(time as int, end, factor));
    amp
}

/// Whether asking if an amplitude is at least a 32768th in size gives `answer`.
pub open spec fn is_loud<V: Scalar>(value: V, answer: bool) -> bool {
    exists|size: V, limit: V| #[trigger] is_loud_by(value, answer, size, limit)
}

/// As above, by way of the values in between.
pub open spec fn is_loud_by<V: Scalar>(value: V, answer: bool, size: V, limit: V) -> bool {
    &&& call_ensures(V::magnitude, (value,), size)
    &&& scalar::is_ratio(1, 32768, limit)
    &&& call_ensures(V::at_most, (limit, size), answer)
}

/// Asks if an amplitude can be heard.
fn loud<V: Scalar>(value: V) -> (answer: bool)
    ensures
        is_loud(value, answer),
{
    let size: V = value.magnitude();
    assert(call_ensures(V::magnitude, (value,), size));
    let limit: V = scalar::ratio(1, 32768);
    let answer: bool = limit.at_most(size);
    assert(is_loud_by(value, answer, size, limit));
    answer
}

/// An envelope and where it is.
#[derive(Copy, Clone)]
pub struct EnvelopeRun<V> {
    pub original_params: EnvelopeParameters<V>,
    pub params: EnvelopeParameters<V>,
    pub allow_release: bool,
    pub state: VoiceEnvelopeState<V>,
    pub sample_rate: V,
    pub killed: bool,
    /// The number of samples that are computed together.
    pub width: u32,
}

impl<V: Scalar> EnvelopeRun<V> {
    /// The parameters lead somewhere, and the present stage is under way.
    pub open spec fn wf(self) -> bool {
        &&& self.original_params.wf()
        &&& self.params.wf()
        &&& self.width > 0
        &&& self.state.stage_data.wf(self.width)
    }

    /// Whether `state` is what entering `stage` from the present amplitude leads to.
    pub open spec fn goes_to(
        self,
        from: VoiceEnvelopeState<V>,
        stage: EnvelopeStage,
        state: VoiceEnvelopeState<V>,
    ) -> bool {
        exists|amp: V| #[trigger]
            from.stage_data.is_amp(amp) && state == self.params.entered(stage, amp, self.width)
    }

    /// Whether `state` is where the next sample is taken from: the next stage where the present one
    /// is over, and otherwise the present one.
    pub open spec fn settles(self, state: VoiceEnvelopeState<V>) -> bool {
        if self.state.stage_data.is_over() {
            self.goes_to(self.state, self.state.current_stage.next(), state)
        } else {
            state == self.state
        }
    }

    /// Whether taking the sample `amp` leads from `from` to `state`. A stage that comes to its end
    /// is left.
    pub open spec fn ticks(
        self,
        from: VoiceEnvelopeState<V>,
        amp: V,
        state: VoiceEnvelopeState<V>,
    ) -> bool {
        let later = VoiceEnvelopeState { stage_data: from.stage_data.later(1), ..from };
        &&& from.stage_data.is_amp(amp)
        &&& if later.stage_data.is_over() {
            self.goes_to(later, later.current_stage.next(), state)
        } else {
            state == later
        }
    }

    /// Whether `trace` takes the samples `values` one by one.
    pub open spec fn is_run(
        self,
        trace: Seq<VoiceEnvelopeState<V>>,
        values: Seq<V>,
    ) -> bool {
        &&& trace.len() == values.len() + 1
        &&& forall|i: int|
            0 <= i < values.len() ==> self.ticks(#[trigger] trace[i], values[i], trace[i + 1])
    }

    /// Whether taking the samples `values` one by one leads from `from` to `state`.
    pub open spec fn runs(
        self,
        from: VoiceEnvelopeState<V>,
        values: Seq<V>,
        state: VoiceEnvelopeState<V>,
    ) -> bool {
        exists|trace: Seq<VoiceEnvelopeState<V>>| #[trigger]
            self.is_run(trace, values) && trace[0] == from && trace.last() == state
    }

    /// Whether all values are below what can be heard.
    pub open spec fn all_inaudible(values: Seq<V>) -> bool {
        forall|i: int|
            0 <= i < values.len() ==> is_loud(#[trigger] values[i], false)
    }

    /// Whether `state` is `from`, or the last stage where the voice is released and none of the
    /// values can be heard.
    pub open spec fn fades(
        self,
        from: VoiceEnvelopeState<V>,
        values: Seq<V>,
        state: VoiceEnvelopeState<V>,
    ) -> bool {
        if from.current_stage != EnvelopeStage::Release {
            state == from
        } else {
            ||| exists|i: int|
                0 <= i < values.len() && is_loud(#[trigger] values[i], true) && state == from
            ||| Self::all_inaudible(values) && self.finishes(state)
        }
    }

    /// Whether `state` is the last stage.
    pub open spec fn finishes(self, state: VoiceEnvelopeState<V>) -> bool {
        exists|zero: V| #[trigger]
            scalar::is_ratio(0, 1, zero) && state == self.params.entered(
                EnvelopeStage::Finished,
                zero,
                self.width,
            )
    }

    /// Whether the next samples from the settled state `from` are `values`, and lead to `state`:
    /// within a ramp they lie on it, across its end they are taken one by one, and a constant
    /// repeats.
    pub open spec fn draws(
        self,
        from: VoiceEnvelopeState<V>,
        values: Seq<V>,
        state: VoiceEnvelopeState<V>,
    ) -> bool {
        &&& values.len() == self.width
        &&& match from.stage_data {
            StageData::Constant(constant) => {
                &&& forall|i: int| 0 <= i < values.len() ==> #[trigger] values[i] == constant
                &&& state == from
            },
            StageData::Ramp { curve, start, target, time } => if time.ending() {
                self.runs(from, values, state)
            } else {
                &&& forall|i: int|
                    0 <= i < values.len() ==> is_on_ramp(
                        curve,
                        start,
                        target,
                        time.lane(i),
                        time.end,
                        #[trigger] values[i],
                    )
                &&& self.fades(
                    VoiceEnvelopeState {
                        stage_data: from.stage_data.later(self.width as int),
                        ..from
                    },
                    values,
                    state,
                )
            },
        }
    }

    /// Whether the next samples are `values`, and lead to `post`.
    pub open spec fn yields(pre: Self, values: Seq<V>, post: Self) -> bool {
        &&& post == EnvelopeRun { state: post.state, ..pre }
        &&& exists|from: VoiceEnvelopeState<V>| #[trigger]
            pre.settles(from) && pre.draws(from, values, post.state)
    }

    /// The start of an envelope.
    pub fn new(
        original_params: EnvelopeParameters<V>,
        params: EnvelopeParameters<V>,
        allow_release: bool,
        sample_rate: V,
        width: u32,
    ) -> (run: Self)
        requires
            original_params.wf(),
            params.wf(),
            width > 0,
        ensures
            run.wf(),
            run == (EnvelopeRun {
                original_params,
                params,
                allow_release,
                state: params.entered(EnvelopeStage::Delay, params.start, width),
                sample_rate,
                killed: false,
                width,
            }),
    {
        proof {
            lemma_entered_wf(params, EnvelopeStage::Delay, params.start, width);
        }
        let state = params.get_stage_data(EnvelopeStage::Delay, params.start, width);
        EnvelopeRun {
            original_params,
            params,
            allow_release,
            state,
            sample_rate,
            killed: false,
            width,
        }
    }

    /// The amplitude at the present time.
    pub fn get_value_at_current_time(&self) -> (amp: V)
        ensures
            self.state.stage_data.is_amp(amp),
    {
        self.state.stage_data.amp()
    }

    /// The stage that follows the present one, entered at the present amplitude.
    fn switch_to_next_stage(&mut self)
        requires
            old(self).wf(),
        ensures
            final(self).wf(),
            *final(self) == (EnvelopeRun { state: final(self).state, ..*old(self) }),
            old(self).goes_to(
                old(self).state,
                old(self).state.current_stage.next(),
                final(self).state,
            ),
            !final(self).state.stage_data.is_over(),
    {
        let amp = self.get_value_at_current_time();
        let stage = self.state.current_stage.next_stage();
        proof {
            lemma_entered_wf(self.params, stage, amp, self.width);
        }
        self.state = self.params.get_stage_data(stage, amp, self.width);
    }

    /// Takes one batch of samples one by one.
    fn manually_build_simd_sample(&mut self) -> (values: Vec<V>)
        requires
            old(self).wf(),
            !old(self).state.stage_data.is_over(),
        ensures
            final(self).wf(),
            *final(self) == (EnvelopeRun { state: final(self).state, ..*old(self) }),
            values@.len() == old(self).width,
            old(self).runs(old(self).state, values@, final(self).state),
    {
        let ghost first = *self;
        let ghost mut trace = seq![self.state];
        let mut values: Vec<V> = Vec::new();
        let mut i: u32 = 0;
        while i < self.width
            invariant
                i <= self.width,
                self.wf(),
                first == *old(self),
                *self == (EnvelopeRun { state: self.state, ..first }),
                !self.state.stage_data.is_over(),
                values@.len() == i,
                trace[0] == first.state,
                trace.last() == self.state,
                first.is_run(trace, values@),
            decreases self.width - i,
        {
            let ghost from = self.state;
            let sample = self.get_value_at_current_time();
            values.push(sample);
            let over: bool = self.increment_time_by(1);
            if over {
                self.switch_to_next_stage();
            }
            proof {
                assert(first.ticks(from, sample, self.state));
                let longer = trace.push(self.state);
                assert forall|k: int| 0 <= k < values@.len() implies first.ticks(
                    #[trigger] longer[k],
                    values@[k],
                    longer[k + 1],
                ) by {
                    assert(longer[k] == trace[k]);
                    if k + 1 < trace.len() {
                        assert(longer[k + 1] == trace[k + 1]);
                    }
                }
                trace = longer;
            }
            i += 1;
        }
        assert(first.is_run(trace, values@));
        values
    }

    /// Lets time pass within a stage, and tells whether it has come to its end.
    fn increment_time_by(&mut self, increment: u32) -> (over: bool)
        requires
            old(self).wf(),
            old(self).state.stage_data matches StageData::Ramp { time, .. } ==> time.time + increment
                <= time.end,
        ensures
            final(self).wf(),
            *final(self) == (EnvelopeRun {
                state: VoiceEnvelopeState {
                    stage_data: old(self).state.stage_data.later(increment as int),
                    ..old(self).state
                },
                ..*old(self)
            }),
            over == final(self).state.stage_data.is_over(),
    {
        match self.state.stage_data {
            StageData::Ramp { curve, start, target, time } => {
                let mut later = time;
                later.increment_by(increment);
                self.state.stage_data = StageData::Ramp { curve, start, target, time: later };
                later.time >= later.end
            },
            StageData::Constant(_) => false,
        }
    }
}

impl<V: Scalar> EnvelopeRun<V> {
    /// Goes to the last stage where the voice is released and none of the values can be heard.
    fn try_finish_silent(&mut self, values: &Vec<V>)
        requires
            old(self).wf(),
            values@.len() > 0,
        ensures
            final(self).wf(),
            *final(self) == (EnvelopeRun { state: final(self).state, ..*old(self) }),
            old(self).fades(old(self).state, values@, final(self).state),
    {
        if self.state.current_stage != EnvelopeStage::Release {
            return ;
        }
        let mut i: usize = 0;
        while i < values.len()
            invariant
                i <= values@.len(),
                *self == *old(self),
                self.state.current_stage == EnvelopeStage::Release,
                self.wf(),
                forall|j: int|
                    0 <= j < i ==> is_loud(#[trigger] values@[j], false),
            decreases values@.len() - i,
        {
            let value = values[i];
            let loud: bool = loud(value);
            assert(values@[i as int] == value);
            if loud {
                return ;
            }
            i += 1;
        }
        let zero = scalar::ratio(0, 1);
        proof {
            lemma_entered_wf(self.params, EnvelopeStage::Finished, zero, self.width);
        }
        self.state = self.params.get_stage_data(EnvelopeStage::Finished, zero, self.width);
    }

    /// The values of a ramp at the present time and the samples that follow.
    fn ramp_values(&self, curve: RampCurve, start: V, target: V, time: StageTime) -> (values: Vec<V>)
        requires
            time.time + time.width <= time.end,
        ensures
            values@.len() == time.width,
            forall|i: int|
                0 <= i < values@.len() ==> is_on_ramp(
                    curve,
                    start,
                    target,
                    time.lane(i),
                    time.end,
                    #[trigger] values@[i],
                ),
    {
        let factors: Vec<V> = time.progress_simd_array();
        let values = match curve {
            RampCurve::Straight => SIMDLerper::new(start, target).lerp_simd(&factors),
            RampCurve::Concave => SIMDLerperConcave::new(start, target).lerp_simd(&factors),
            RampCurve::Convex => SIMDLerperConvex::new(start, target).lerp_simd(&factors),
        };
        assert forall|i: int| 0 <= i < values@.len() implies is_on_ramp(
            curve,
            start,
            target,
            time.lane(i),
            time.end,
            #[trigger] values@[i],
        ) by {
            assert(stage_time::is_progress(time.lane(i), time.end, factors@[i]));
        }
        values
    }

    /// A constant, repeated for every lane.
    fn constant_values(&self, constant: V) -> (values: Vec<V>)
        ensures
            values@.len() == self.width,
            forall|i: int| 0 <= i < values@.len() ==> #[trigger] values@[i] == constant,
    {
        let mut values: Vec<V> = Vec::new();
        let mut i: u32 = 0;
        while i < self.width
            invariant
                i <= self.width,
                values@.len() == i,
                forall|j: int| 0 <= j < i ==> #[trigger] values@[j] == constant,
            decreases self.width - i,
        {
            values.push(constant);
            i += 1;
        }
        values
    }

    /// The next samples.
    pub fn next_sample(&mut self) -> (values: Vec<V>)
        requires
            old(self).wf(),
        ensures
            final(self).wf(),
            Self::yields(*old(self), values@, *final(self)),
    {
        let ghost pre = *self;
        if let StageData::Ramp { time, .. } = self.state.stage_data {
            if time.is_ending() && !time.is_intersecting_end() {
                self.switch_to_next_stage();
            }
        }
        let ghost from = self.state;
        assert(pre.settles(from));
        match self.state.stage_data {
            StageData::Ramp { curve, start, target, time } => {
                if time.is_ending() {
                    let ghost settled = *self;
                    let values = self.manually_build_simd_sample();
                    proof {
                        lemma_runs_alike(settled, pre, from, values@, self.state);
                    }
                    assert(pre.draws(from, values@, self.state));
                    values
                } else {
                    let values = self.ramp_values(curve, start, target, time);
                    let mut later = time;
                    later.increment();
                    self.state.stage_data = StageData::Ramp { curve, start, target, time: later };
                    self.try_finish_silent(&values);
                    assert(pre.draws(from, values@, self.state));
                    values
                }
            },
            StageData::Constant(constant) => {
                let values = self.constant_values(constant);
                assert(pre.draws(from, values@, self.state));
                values
            },
        }
    }
}

/// Whether `secs` is `(value / 64)^5 * duration`.
pub open spec fn is_shortened<V: Scalar>(value: u8, duration: V, secs: V) -> bool {
    exists|part: V, power: V| #[trigger] is_shortened_by(value, duration, secs, part, power)
}

/// As above, by way of the values in between.
pub open spec fn is_shortened_by<V: Scalar>(
    value: u8,
    duration: V,
    secs: V,
    part: V,
    power: V,
) -> bool {
    &&& scalar::is_ratio(value as int, 64, part)
    &&& call_ensures(V::raised_to, (part, 5u32), power)
    &&& scalar::is_product(power, duration, secs)
}

fn shortened<V: Scalar>(value: u8, duration: V) -> (secs: V)
    ensures
        is_shortened(value, duration, secs),
{
    let part: V = scalar::ratio(value as i64, 64);
    let power: V = part.raised_to(5);
    assert(call_ensures(V::raised_to, (part, 5u32), power));
    let secs = scalar::product(power, duration);
    assert(is_shortened_by(value, duration, secs, part, power));
    secs
}

/// Whether `secs` is `duration + ((value - 64) / 64)^3 * 15`.
pub open spec fn is_lengthened<V: Scalar>(value: u8, duration: V, secs: V) -> bool {
    exists|part: V, power: V, fifteen: V, more: V| #[trigger]
        is_lengthened_by(value, duration, secs, part, power, fifteen, more)
}

/// As above, by way of the values in between.
pub open spec fn is_lengthened_by<V: Scalar>(
    value: u8,
    duration: V,
    secs: V,
    part: V,
    power: V,
    fifteen: V,
    more: V,
) -> bool {
    &&& scalar::is_ratio(value - 64, 64, part)
    &&& call_ensures(V::raised_to, (part, 3u32), power)
    &&& scalar::is_ratio(15, 1, fifteen)
    &&& scalar::is_product(power, fifteen, more)
    &&& scalar::is_sum(duration, more, secs)
}

fn lengthened<V: Scalar>(value: u8, duration: V) -> (secs: V)
    ensures
        is_lengthened(value, duration, secs),
{
    let part: V = scalar::ratio(value as i64 - 64, 64);
    let power: V = part.raised_to(3);
    assert(call_ensures(V::raised_to, (part, 3u32), power));
    let fifteen: V = scalar::ratio(15, 1);
    let more = scalar::product(power, fifteen);
    let secs = scalar::sum(duration, more);
    assert(is_lengthened_by(value, duration, secs, part, power, fifteen, more));
    secs
}

/// Whether `secs` is the time that a controller value makes of a duration: at most 64 shortens it,
/// up to 128 lengthens it, and others leave it.
pub open spec fn is_curved<V: Scalar>(value: u8, duration: V, secs: V) -> bool {
    if value <= 64 {
        is_shortened(value, duration, secs)
    } else if value <= 128 {
        is_lengthened(value, duration, secs)
    } else {
        secs == duration
    }
}

/// Whether `samples` is the number of samples of a time in seconds, which is none below zero.
pub open spec fn is_length<V: Scalar>(secs: V, rate: V, samples: u32) -> bool {
    exists|zero: V, held: V|
        {
            &&& scalar::is_ratio(0, 1, zero)
            &&& #[trigger] scalar::is_larger(secs, zero, held)
            &&& scalar::is_samples_at(held, rate, samples)
        }
}

/// Whether `out` is `part` brought to a time in seconds. A part that holds stays.
pub open spec fn is_retimed<V: Scalar>(
    part: EnvelopePart<V>,
    secs: V,
    rate: V,
    out: EnvelopePart<V>,
) -> bool {
    if part.ramp() is None {
        out == part
    } else {
        is_length(secs, rate, out.duration()) && out == part.lasting(out.duration())
    }
}

/// Whether `secs` is the time that a controller value makes of a part: at least `num / den` seconds.
pub open spec fn is_cc_time<V: Scalar>(
    part: EnvelopePart<V>,
    value: u8,
    num: int,
    den: int,
    rate: V,
    secs: V,
) -> bool {
    exists|before: V, curved: V, least: V|
        {
            &&& scalar::is_seconds_of(part.duration(), rate, before)
            &&& #[trigger] is_curved(value, before, curved)
            &&& scalar::is_ratio(num, den, least)
            &&& #[trigger] scalar::is_larger(curved, least, secs)
        }
}

/// Whether `out` is what the controls make of a part with a duration. A time in seconds counts
/// before a controller value, which makes it last at least `num / den` seconds.
pub open spec fn is_timed<V: Scalar>(
    part: EnvelopePart<V>,
    secs: Option<V>,
    value: Option<u8>,
    num: int,
    den: int,
    rate: V,
    out: EnvelopePart<V>,
) -> bool {
    match secs {
        Some(secs) => is_retimed(part, secs, rate, out),
        None => match value {
            Some(value) => exists|secs: V| #[trigger]
                is_cc_time(part, value, num, den, rate, secs) && is_retimed(part, secs, rate, out),
            None => out == part,
        },
    }
}

/// Whether `out` is what the controls make of the sustain level. A level counts before a controller
/// value.
pub open spec fn is_levelled<V: Scalar>(
    part: EnvelopePart<V>,
    level: Option<V>,
    value: Option<u8>,
    out: EnvelopePart<V>,
) -> bool {
    match level {
        Some(level) => out matches EnvelopePart::Hold(held) && scalar::is_unit(level, held),
        None => match value {
            Some(value) => out matches EnvelopePart::Hold(held) && exists|level: V| #[trigger]
                scalar::is_ratio(value as int, 127, level) && scalar::is_unit(level, held),
            None => out == part,
        },
    }
}

/// Whether `out` is what the controls make of an envelope.
pub open spec fn is_modified<V: Scalar>(
    params: EnvelopeParameters<V>,
    envelope: EnvelopeControlData<V>,
    cc: EnvelopeCCControlData,
    rate: V,
    out: EnvelopeParameters<V>,
) -> bool {
    let a = params.parts@;
    let b = out.parts@;
    &&& out.start == params.start
    &&& is_timed(a[0], envelope.delay, cc.delay, 0, 1, rate, b[0])
    &&& is_timed(a[1], envelope.attack, cc.attack, 0, 1, rate, b[1])
    &&& is_timed(a[2], envelope.hold, cc.hold, 0, 1, rate, b[2])
    &&& is_timed(a[3], envelope.decay, cc.decay, 0, 1, rate, b[3])
    &&& is_levelled(a[4], envelope.sustain_percent, cc.sustain_percent, b[4])
    &&& is_timed(a[5], envelope.release, cc.release, 1, 50, rate, b[5])
    &&& b[6] == a[6]
}

/// The time that a controller value makes of a duration.
fn calculate_curve<V: Scalar>(value: u8, duration: V) -> (secs: V)
    ensures
        is_curved(value, duration, secs),
{
    match value {
        0..=64 => shortened(value, duration),
        65..=128 => lengthened(value, duration),
        _ => duration,
    }
}

/// Brings a part to a time in seconds.
fn apply_duration<V: Scalar>(part: EnvelopePart<V>, duration_secs: V, sample_rate: V) -> (out:
    EnvelopePart<V>)
    ensures
        is_retimed(part, duration_secs, sample_rate, out),
{
    let zero = scalar::ratio(0, 1);
    let held = scalar::larger(duration_secs, zero);
    let duration: u32 = scalar::samples_at(held, sample_rate);
    assert(is_length(duration_secs, sample_rate, duration));
    match part {
        EnvelopePart::Lerp { target, .. } => EnvelopePart::lerp(target, duration),
        EnvelopePart::LerpConcave { target, .. } => EnvelopePart::lerp_concave(target, duration),
        EnvelopePart::LerpConvex { target, .. } => EnvelopePart::lerp_convex(target, duration),
        EnvelopePart::Hold(value) => EnvelopePart::hold(value),
    }
}

/// Applies the controls to a part with a duration.
fn apply_time<V: Scalar>(
    part: EnvelopePart<V>,
    secs: Option<V>,
    value: Option<u8>,
    num: i64,
    den: i64,
    sample_rate: V,
) -> (out: EnvelopePart<V>)
    ensures
        is_timed(part, secs, value, num as int, den as int, sample_rate, out),
{
    match secs {
        Some(secs) => apply_duration(part, secs, sample_rate),
        None => match value {
            Some(cc_value) => {
                let samples: u32 = match part {
                    EnvelopePart::Lerp { duration, .. } => duration,
                    EnvelopePart::LerpConcave { duration, .. } => duration,
                    EnvelopePart::LerpConvex { duration, .. } => duration,
                    EnvelopePart::Hold(_) => 0,
                };
                let before = scalar::seconds_of(samples, sample_rate);
                let curved = calculate_curve(cc_value, before);
                let least = scalar::ratio(num, den);
                let secs = scalar::larger(curved, least);
                assert(is_cc_time(part, cc_value, num as int, den as int, sample_rate, secs));
                apply_duration(part, secs, sample_rate)
            },
            None => part,
        },
    }
}

/// Applies the controls to the sustain level.
fn apply_level<V: Scalar>(part: EnvelopePart<V>, level: Option<V>, value: Option<u8>) -> (out:
    EnvelopePart<V>)
    ensures
        is_levelled(part, level, value, out),
{
    match level {
        Some(level) => EnvelopePart::hold(scalar::unit(level)),
        None => match value {
            Some(cc_value) => {
                let level: V = scalar::ratio(cc_value as i64, 127);
                let held: V = scalar::unit(level);
                EnvelopePart::hold(held)
            },
            None => part,
        },
    }
}

impl<V: Scalar> EnvelopeRun<V> {
    /// An envelope, modified by the controls.
    pub fn get_modified_envelope(
        params: EnvelopeParameters<V>,
        envelope: EnvelopeControlData<V>,
        cc_envelope: EnvelopeCCControlData,
        sample_rate: V,
    ) -> (out: EnvelopeParameters<V>)
        ensures
            is_modified(params, envelope, cc_envelope, sample_rate, out),
    {
        let mut out = params;
        let delay = apply_time(params.parts[0], envelope.delay, cc_envelope.delay, 0, 1, sample_rate);
        out.modify_stage_data(0, delay);
        let attack = apply_time(
            params.parts[1],
            envelope.attack,
            cc_envelope.attack,
            0,
            1,
            sample_rate,
        );
        out.modify_stage_data(1, attack);
        let hold = apply_time(params.parts[2], envelope.hold, cc_envelope.hold, 0, 1, sample_rate);
        out.modify_stage_data(2, hold);
        let decay = apply_time(params.parts[3], envelope.decay, cc_envelope.decay, 0, 1, sample_rate);
        out.modify_stage_data(3, decay);
        let sustain = apply_level(
            params.parts[4],
            envelope.sustain_percent,
            cc_envelope.sustain_percent,
        );
        out.modify_stage_data(4, sustain);
        let release = apply_time(
            params.parts[5],
            envelope.release,
            cc_envelope.release,
            1,
            50,
            sample_rate,
        );
        out.modify_stage_data(5, release);
        out
    }

    /// Whether the controls turn `pre` into `post`. A killed voice follows them no longer; another
    /// starts its present stage anew, from where it is.
    pub open spec fn follows(
        pre: Self,
        envelope: EnvelopeControlData<V>,
        cc: EnvelopeCCControlData,
        post: Self,
    ) -> bool {
        if pre.killed {
            post == pre
        } else {
            &&& post == EnvelopeRun { params: post.params, state: post.state, ..pre }
            &&& is_modified(pre.original_params, envelope, cc, pre.sample_rate, post.params)
            &&& post.goes_to(pre.state, pre.state.current_stage, post.state)
        }
    }

    /// Applies the controls to the envelope.
    pub fn modify_envelope(
        &mut self,
        envelope: EnvelopeControlData<V>,
        cc_envelope: EnvelopeCCControlData,
    )
        requires
            old(self).wf(),
        ensures
            final(self).wf(),
            Self::follows(*old(self), envelope, cc_envelope, *final(self)),
    {
        if !self.killed {
            let params = Self::get_modified_envelope(
                self.original_params,
                envelope,
                cc_envelope,
                self.sample_rate,
            );
            let amp = self.get_value_at_current_time();
            let stage = self.state.current_stage;
            proof {
                lemma_entered_wf(params, stage, amp, self.width);
            }
            let state = params.get_stage_data(stage, amp, self.width);
            *self = EnvelopeRun { params, state, ..*self };
        }
    }

    /// Whether `post` is `pre` with a release of a thousandth of a second, and its present stage
    /// begun anew from where it is.
    pub open spec fn dies(pre: Self, post: Self) -> bool {
        &&& post == EnvelopeRun {
            params: post.params,
            state: post.state,
            killed: true,
            ..pre
        }
        &&& post.params.start == pre.params.start
        &&& is_fadeout(pre.sample_rate, post.params.parts@[5])
        &&& post.params.parts@ == pre.params.parts@.update(5, post.params.parts@[5])
        &&& post.goes_to(pre.state, pre.state.current_stage, post.state)
    }

    /// Whether a release turns `pre` into `post`. A voice that does not allow it goes on unless it
    /// is killed.
    pub open spec fn releases(pre: Self, rel_type: ReleaseType, post: Self) -> bool {
        exists|mid: Self| #[trigger] Self::lets_go(pre, rel_type, mid, post)
    }

    /// Whether a release turns `pre` into `post` by way of `mid`.
    pub open spec fn lets_go(pre: Self, rel_type: ReleaseType, mid: Self, post: Self) -> bool {
        &&& if rel_type == ReleaseType::Kill {
            Self::dies(pre, mid)
        } else {
            mid == pre
        }
        &&& post == EnvelopeRun { state: post.state, ..mid }
        &&& if mid.allow_release || mid.killed {
            mid.goes_to(mid.state, EnvelopeStage::Release, post.state)
        } else {
            post.state == mid.state
        }
    }

    /// Goes to the release stage.
    pub fn signal_release(&mut self, rel_type: ReleaseType)
        requires
            old(self).wf(),
        ensures
            final(self).wf(),
            Self::releases(*old(self), rel_type, *final(self)),
    {
        let ghost pre = *self;
        if rel_type == ReleaseType::Kill {
            let zero = scalar::ratio(0, 1);
            let moment: V = scalar::ratio(1, 1000);
            let duration: u32 = scalar::samples_at(moment, self.sample_rate);
            let fadeout = EnvelopePart::lerp(zero, duration);
            assert(is_fadeout(self.sample_rate, fadeout));
            let mut params = self.params;
            params.modify_stage_data(5, fadeout);
            let amp = self.get_value_at_current_time();
            let stage = self.state.current_stage;
            proof {
                lemma_entered_wf(params, stage, amp, self.width);
            }
            let state = params.get_stage_data(stage, amp, self.width);
            *self = EnvelopeRun { params, state, killed: true, ..*self };
        }
        let ghost mid = *self;
        assert(rel_type == ReleaseType::Kill ==> Self::dies(pre, mid));
        if self.allow_release || self.killed {
            let amp = self.get_value_at_current_time();
            proof {
                lemma_entered_wf(self.params, EnvelopeStage::Release, amp, self.width);
            }
            self.state = self.params.get_stage_data(EnvelopeStage::Release, amp, self.width);
        }
        assert(Self::lets_go(pre, rel_type, mid, *self));
    }
}

/// Whether a part fades out within a thousandth of a second.
pub open spec fn is_fadeout<V: Scalar>(rate: V, part: EnvelopePart<V>) -> bool {
    exists|zero: V, moment: V|
        {
            &&& #[trigger] scalar::is_ratio(0, 1, zero)
            &&& #[trigger] scalar::is_ratio(1, 1000, moment)
            &&& scalar::is_samples_at(moment, rate, part.duration())
            &&& part == (EnvelopePart::Lerp { target: zero, duration: part.duration() })
        }
}

/// Where samples lead depends on the parameters and the number of lanes alone.
proof fn lemma_runs_alike<V: Scalar>(
    a: EnvelopeRun<V>,
    b: EnvelopeRun<V>,
    from: VoiceEnvelopeState<V>,
    values: Seq<V>,
    state: VoiceEnvelopeState<V>,
)
    requires
        a.params == b.params,
        a.width == b.width,
        a.runs(from, values, state),
    ensures
        b.runs(from, values, state),
{
    let trace = choose|trace: Seq<VoiceEnvelopeState<V>>| #[trigger]
        a.is_run(trace, values) && trace[0] == from && trace.last() == state;
    assert forall|i: int| 0 <= i < values.len() implies b.ticks(
        #[trigger] trace[i],
        values[i],
        trace[i + 1],
    ) by {
        assert(a.ticks(trace[i], values[i], trace[i + 1]));
    }
    assert(b.is_run(trace, values));
}

/// Entering a stage leads to a state that is under way.
pub proof fn lemma_entered_wf<V: Scalar>(
    params: EnvelopeParameters<V>,
    stage: EnvelopeStage,
    amp: V,
    width: u32,
)
    requires
        params.wf(),
    ensures
        params.entered(stage, amp, width).stage_data.wf(width),
        !params.entered(stage, amp, width).stage_data.is_over(),
        stage.number() <= params.entered(stage, amp, width).current_stage.number(),
    decreases 6 - stage.number(),
{
    match params.parts@[stage.number()].ramp() {
        Some((curve, target, duration)) => {
            if duration == 0 && stage.number() < 6 {
                lemma_entered_wf(params, stage.next(), target, width);
            }
        },
        None => {},
    }
}

/// The shape of a stage in decibels.
#[derive(Copy, Clone, Debug, PartialEq, Eq, Structural)]
pub enum EnvelopeCurveType {
    /// A straight line in decibels.
    Linear,
    /// A straight line in amplitude.
    Exponential,
}

/// The shapes of the stages of an envelope.
#[derive(Copy, Clone, Debug, PartialEq, Eq, Structural)]
pub struct EnvelopeOptions {
    pub attack_curve: EnvelopeCurveType,
    pub decay_curve: EnvelopeCurveType,
    pub release_curve: EnvelopeCurveType,
}

impl Default for EnvelopeOptions {
    /// An attack that is straight in amplitude, a decay and a release that are straight in decibels.
    fn default() -> (options: Self)
        ensures
            options == (EnvelopeOptions {
                attack_curve: EnvelopeCurveType::Exponential,
                decay_curve: EnvelopeCurveType::Linear,
                release_curve: EnvelopeCurveType::Linear,
            }),
    {
        EnvelopeOptions {
            attack_curve: EnvelopeCurveType::Exponential,
            decay_curve: EnvelopeCurveType::Linear,
            release_curve: EnvelopeCurveType::Linear,
        }
    }
}

/// An envelope in levels and seconds
#[derive(Copy, Clone)]
pub struct EnvelopeDescriptor<V> {
    /// From 0 to 1
    pub start_percent: V,
    /// Seconds
    pub delay: V,
    /// Seconds
    pub attack: V,
    /// Seconds
    pub hold: V,
    /// Seconds
    pub decay: V,
    /// From 0 to 1
    pub sustain_percent: V,
    /// Seconds
    pub release: V,
}

/// Whether a part goes along `curve` to `target` in the given seconds.
pub open spec fn is_move<V: Scalar>(
    part: EnvelopePart<V>,
    curve: RampCurve,
    target: V,
    secs: V,
    rate: V,
) -> bool {
    &&& part.ramp() == Some((curve, target, part.duration()))
    &&& scalar::is_samples_at(secs, rate, part.duration())
}

/// The curve in amplitude of a stage that rises.
pub open spec fn rising(curve: EnvelopeCurveType) -> RampCurve {
    match curve {
        EnvelopeCurveType::Linear => RampCurve::Convex,
        EnvelopeCurveType::Exponential => RampCurve::Straight,
    }
}

/// The curve in amplitude of a stage that falls.
pub open spec fn falling(curve: EnvelopeCurveType) -> RampCurve {
    match curve {
        EnvelopeCurveType::Linear => RampCurve::Concave,
        EnvelopeCurveType::Exponential => RampCurve::Straight,
    }
}

impl<V: Scalar> EnvelopeDescriptor<V> {
    /// Whether `params` are the parameters of this envelope at a sample rate.
    pub open spec fn describes(
        self,
        samplerate: u32,
        options: EnvelopeOptions,
        params: EnvelopeParameters<V>,
    ) -> bool {
        exists|rate: V, one: V, zero: V|
            {
                &&& #[trigger] scalar::is_ratio(samplerate as int, 1, rate)
                &&& #[trigger] scalar::is_ratio(1, 1, one)
                &&& #[trigger] scalar::is_ratio(0, 1, zero)
                &&& self.describes_with(rate, one, zero, options, params)
            }
    }

    /// The same for a given rate, full amplitude and silence.
    pub open spec fn describes_with(
        self,
        rate: V,
        one: V,
        zero: V,
        options: EnvelopeOptions,
        params: EnvelopeParameters<V>,
    ) -> bool {
        let parts = params.parts@;
        let level = self.sustain_percent;
        &&& params.start == self.start_percent
        &&& is_move(parts[0], RampCurve::Straight, self.start_percent, self.delay, rate)
        &&& is_move(parts[1], rising(options.attack_curve), one, self.attack, rate)
        &&& is_move(parts[2], RampCurve::Straight, one, self.hold, rate)
        &&& is_move(parts[3], falling(options.decay_curve), level, self.decay, rate)
        &&& parts[4] == EnvelopePart::Hold(level)
        &&& is_move(parts[5], falling(options.release_curve), zero, self.release, rate)
        &&& parts[6] == EnvelopePart::Hold(zero)
    }

    /// The parameters of this envelope at a sample rate.
    pub fn to_envelope_params(&self, samplerate: u32, options: EnvelopeOptions) -> (params:
        EnvelopeParameters<V>)
        ensures
            params.wf(),
            self.describes(samplerate, options, params),
    {
        let rate = scalar::ratio(samplerate as i64, 1);
        let one = scalar::ratio(1, 1);
        let zero = scalar::ratio(0, 1);
        let attack_time: u32 = scalar::samples_at(self.attack, rate);
        let attack = match options.attack_curve {
            EnvelopeCurveType::Linear => EnvelopePart::lerp_convex(one, attack_time),
            EnvelopeCurveType::Exponential => EnvelopePart::lerp(one, attack_time),
        };
        let decay_time: u32 = scalar::samples_at(self.decay, rate);
        let decay = match options.decay_curve {
            EnvelopeCurveType::Exponential => EnvelopePart::lerp(self.sustain_percent, decay_time),
            EnvelopeCurveType::Linear => EnvelopePart::lerp_concave(
                self.sustain_percent,
                decay_time,
            ),
        };
        let release_time: u32 = scalar::samples_at(self.release, rate);
        let release = match options.release_curve {
            EnvelopeCurveType::Exponential => EnvelopePart::lerp(zero, release_time),
            EnvelopeCurveType::Linear => EnvelopePart::lerp_concave(zero, release_time),
        };
        let params = EnvelopeParameters {
            start: self.start_percent,
            parts: [
                EnvelopePart::lerp(self.start_percent, scalar::samples_at(self.delay, rate)),
                attack,
                EnvelopePart::lerp(one, scalar::samples_at(self.hold, rate)),
                decay,
                EnvelopePart::hold(self.sustain_percent),
                release,
                EnvelopePart::hold(zero),
            ],
        };
        assert(self.describes_with(rate, one, zero, options, params));
        params
    }
}

/// The envelope of a voice.
pub struct SIMDVoiceEnvelope<V: Scalar> {
    run: EnvelopeRun<V>,
}

impl<V: Scalar> SIMDVoiceEnvelope<V> {
    #[verifier::type_invariant]
    spec fn inv(self) -> bool {
        self.run.wf()
    }

    /// The envelope, and where it is.
    pub closed spec fn now(self) -> EnvelopeRun<V> {
        self.run
    }

    /// The start of an envelope, of which `width` samples are computed together.
    pub fn new(
        original_params: EnvelopeParameters<V>,
        params: EnvelopeParameters<V>,
        allow_release: bool,
        sample_rate: V,
        width: u32,
    ) -> (envelope: Self)
        requires
            original_params.wf(),
            params.wf(),
            width > 0,
        ensures
            envelope.now() == (EnvelopeRun {
                original_params,
                params,
                allow_release,
                state: params.entered(EnvelopeStage::Delay, params.start, width),
                sample_rate,
                killed: false,
                width,
            }),
    {
        let run = EnvelopeRun::new(original_params, params, allow_release, sample_rate, width);
        SIMDVoiceEnvelope { run }
    }

    /// The stage that the envelope is in.
    pub fn current_stage(&self) -> (stage: EnvelopeStage)
        ensures
            stage == self.now().state.current_stage,
    {
        self.run.state.current_stage
    }

    /// The amplitude at the present time.
    pub fn get_value_at_current_time(&self) -> (amp: V)
        ensures
            self.now().state.stage_data.is_amp(amp),
    {
        self.run.get_value_at_current_time()
    }
}

impl<V: Scalar> VoiceGeneratorBase for SIMDVoiceEnvelope<V> {
    type Control = VoiceControlData<V>;

    open spec fn has_ended(&self) -> bool {
        self.now().state.current_stage == EnvelopeStage::Finished
    }

    open spec fn releases(pre: Self, rel_type: ReleaseType, post: Self) -> bool {
        EnvelopeRun::releases(pre.now(), rel_type, post.now())
    }

    open spec fn follows(pre: Self, control: Self::Control, post: Self) -> bool {
        EnvelopeRun::follows(pre.now(), control.envelope, control.cc_envelope, post.now())
    }

    fn ended(&self) -> (ended: bool) {
        self.run.state.current_stage == EnvelopeStage::Finished
    }

    fn signal_release(&mut self, rel_type: ReleaseType) {
        proof {
            use_type_invariant(&*self);
        }
        let mut run = self.run;
        run.signal_release(rel_type);
        self.run = run;
    }

    fn process_controls(&mut self, control: &Self::Control) {
        proof {
            use_type_invariant(&*self);
        }
        let mut run = self.run;
        run.modify_envelope(control.envelope, control.cc_envelope);
        self.run = run;
    }
}

impl<V: Scalar> SIMDVoiceGenerator for SIMDVoiceEnvelope<V> {
    type Lane = V;

    open spec fn yields(pre: Self, values: Seq<V>, post: Self) -> bool {
        EnvelopeRun::yields(pre.now(), values, post.now())
    }

    fn next_sample(&mut self) -> (values: Vec<V>) {
        proof {
            use_type_invariant(&*self);
        }
        let mut run = self.run;
        let values = run.next_sample();
        self.run = run;
        values
    }
}

/// Taking samples never leads back to an earlier stage.
pub proof fn lemma_stages_advance<V: Scalar>(pre: EnvelopeRun<V>, values: Seq<V>, post: EnvelopeRun<V>)
    requires
        pre.wf(),
        EnvelopeRun::yields(pre, values, post),
    ensures
        pre.state.current_stage.number() <= post.state.current_stage.number(),
{
    let from = choose|from: VoiceEnvelopeState<V>| #[trigger]
        pre.settles(from) && pre.draws(from, values, post.state);
    if pre.state.stage_data.is_over() {
        lemma_goes_on(pre, pre.state, pre.state.current_stage.next(), from);
    }
    match from.stage_data {
        StageData::Constant(_) => {},
        StageData::Ramp { time, .. } => {
            if time.ending() {
                let trace = choose|trace: Seq<VoiceEnvelopeState<V>>| #[trigger]
                    pre.is_run(trace, values) && trace[0] == from && trace.last() == post.state;
                lemma_run_advances(pre, trace, values, trace.len() - 1);
            } else if pre.finishes(post.state) {
                let zero = choose|zero: V| #[trigger]
                    scalar::is_ratio(0, 1, zero) && post.state == pre.params.entered(
                        EnvelopeStage::Finished,
                        zero,
                        pre.width,
                    );
                lemma_entered_wf(pre.params, EnvelopeStage::Finished, zero, pre.width);
            }
        },
    }
}

/// Going to a stage leads to that stage or a later one.
proof fn lemma_goes_on<V: Scalar>(
    run: EnvelopeRun<V>,
    from: VoiceEnvelopeState<V>,
    stage: EnvelopeStage,
    state: VoiceEnvelopeState<V>,
)
    requires
        run.params.wf(),
        run.goes_to(from, stage, state),
    ensures
        stage.number() <= state.current_stage.number(),
{
    let amp = choose|amp: V| #[trigger]
        from.stage_data.is_amp(amp) && state == run.params.entered(stage, amp, run.width);
    lemma_entered_wf(run.params, stage, amp, run.width);
}

/// Samples taken one by one never lead back to an earlier stage.
proof fn lemma_run_advances<V: Scalar>(
    run: EnvelopeRun<V>,
    trace: Seq<VoiceEnvelopeState<V>>,
    values: Seq<V>,
    k: int,
)
    requires
        run.params.wf(),
        run.is_run(trace, values),
        0 <= k < trace.len(),
    ensures
        trace[0].current_stage.number() <= trace[k].current_stage.number(),
    decreases k,
{
    if k > 0 {
        lemma_run_advances(run, trace, values, k - 1);
        let from = trace[k - 1];
        assert(run.ticks(from, values[k - 1], trace[k - 1 + 1]));
        let later = VoiceEnvelopeState { stage_data: from.stage_data.later(1), ..from };
        if later.stage_data.is_over() {
            lemma_goes_on(run, later, later.current_stage.next(), trace[k]);
        }
    }
}

/// A voice that is killed goes to its release or past it, whether it allows a release or not, and
/// follows no control after that.
pub proof fn lemma_kill_releases<V: Scalar>(
    pre: EnvelopeRun<V>,
    post: EnvelopeRun<V>,
    envelope: EnvelopeControlData<V>,
    cc: EnvelopeCCControlData,
    later: EnvelopeRun<V>,
)
    requires
        pre.wf(),
        EnvelopeRun::releases(pre, ReleaseType::Kill, post),
        EnvelopeRun::follows(post, envelope, cc, later),
    ensures
        post.killed,
        EnvelopeStage::Release.number() <= post.state.current_stage.number(),
        later == post,
{
    let mid = choose|mid: EnvelopeRun<V>| #[trigger]
        EnvelopeRun::lets_go(pre, ReleaseType::Kill, mid, post);
    assert(mid.params.wf());
    lemma_goes_on(mid, mid.state, EnvelopeStage::Release, post.state);
}

/// An envelope whose last stage holds stays in it, at that value.
pub proof fn lemma_finished_stays<V: Scalar>(
    pre: EnvelopeRun<V>,
    value: V,
    values: Seq<V>,
    post: EnvelopeRun<V>,
)
    requires
        pre.state == (VoiceEnvelopeState {
            current_stage: EnvelopeStage::Finished,
            stage_data: StageData::Constant(value),
        }),
        EnvelopeRun::yields(pre, values, post),
    ensures
        post == pre,
        forall|i: int| 0 <= i < values.len() ==> #[trigger] values[i] == value,
{
}

/// A stage is passed over when it is a ramp that takes no time.
pub open spec fn takes_no_time<V>(part: EnvelopePart<V>) -> bool {
    match part {
        EnvelopePart::Lerp { duration, .. } => duration == 0,
        EnvelopePart::LerpConcave { duration, .. } => duration == 0,
        EnvelopePart::LerpConvex { duration, .. } => duration == 0,
        EnvelopePart::Hold(_) => false,
    }
}

/// The amplitude that a stage leads to.
pub open spec fn leads_to<V>(part: EnvelopePart<V>) -> V {
    match part {
        EnvelopePart::Lerp { target, .. } => target,
        EnvelopePart::LerpConcave { target, .. } => target,
        EnvelopePart::LerpConvex { target, .. } => target,
        EnvelopePart::Hold(value) => value,
    }
}

/// Whether `data` is the start of a stage at the amplitude `amp`: a ramp from there that has its whole
/// duration before it, or a constant.
pub open spec fn begins_at<V>(part: EnvelopePart<V>, amp: V, width: u32, data: StageData<V>) -> bool {
    match part {
        EnvelopePart::Lerp { target, duration } => data == (StageData::Ramp {
            curve: RampCurve::Straight,
            start: amp,
            target,
            time: StageTime { time: 0, end: duration, width },
        }),
        EnvelopePart::LerpConcave { target, duration } => data == (StageData::Ramp {
            curve: RampCurve::Concave,
            start: amp,
            target,
            time: StageTime { time: 0, end: duration, width },
        }),
        EnvelopePart::LerpConvex { target, duration } => data == (StageData::Ramp {
            curve: RampCurve::Convex,
            start: amp,
            target,
            time: StageTime { time: 0, end: duration, width },
        }),
        EnvelopePart::Hold(value) => data == StageData::Constant(value),
    }
}

/// Whether `state` is the first stage from `stage` on that is not passed over, begun at `amp`, or at
/// the target of the stage before it where that was passed over.
pub open spec fn is_entry<V>(
    params: EnvelopeParameters<V>,
    stage: EnvelopeStage,
    amp: V,
    width: u32,
    state: VoiceEnvelopeState<V>,
) -> bool {
    let first = stage.number();
    let last = state.current_stage.number();
    &&& first <= last
    &&& forall|i: int| first <= i < last ==> takes_no_time(#[trigger] params.parts@[i])
    &&& last < 6 ==> !takes_no_time(params.parts@[last])
    &&& begins_at(
        params.parts@[last],
        if last == first {
            amp
        } else {
            leads_to(params.parts@[last - 1])
        },
        width,
        state.stage_data,
    )
}

/// Whether `amp` lies on a ramp, `time` samples after its start.
pub open spec fn on_ramp_at<V: Scalar>(
    curve: RampCurve,
    start: V,
    target: V,
    time: int,
    end: u32,
    amp: V,
) -> bool {
    exists|now: V, all: V, factor: V|
        {
            &&& #[trigger] call_ensures(V::ratio, (time as i64, 1i64), now)
            &&& call_ensures(V::ratio, (end as i64, 1i64), all)
            &&& #[trigger] call_ensures(V::over, (now, all), factor)
            &&& match curve {
                RampCurve::Straight => lerpers::on_line(start, target, factor, amp),
                RampCurve::Concave => lerpers::on_early_curve(start, target, factor, amp),
                RampCurve::Convex => lerpers::on_late_curve(start, target, factor, amp),
            }
        }
}

/// Whether `amp` is the amplitude of an envelope that is at `data`.
pub open spec fn sounds_at<V: Scalar>(data: StageData<V>, amp: V) -> bool {
    match data {
        StageData::Ramp { curve, start, target, time } => on_ramp_at(
            curve,
            start,
            target,
            time.time as int,
            time.end,
            amp,
        ),
        StageData::Constant(constant) => amp == constant,
    }
}

/// Whether `state` is what entering `stage` leads to from the amplitude at `data`.
pub open spec fn enters_from<V: Scalar>(
    data: StageData<V>,
    params: EnvelopeParameters<V>,
    stage: EnvelopeStage,
    width: u32,
    state: VoiceEnvelopeState<V>,
) -> bool {
    exists|amp: V| #[trigger]
        sounds_at(data, amp) && is_entry(params, stage, amp, width, state)
}

/// The stages come in the order delay, attack, hold, decay, sustain, release, finished, and are
/// numbered in it.
pub proof fn lemma_stage_order(stage: EnvelopeStage, number: usize, next: EnvelopeStage)
    requires
        call_ensures(EnvelopeStage::as_usize, (&stage,), number),
        call_ensures(EnvelopeStage::next_stage, (&stage,), next),
    ensures
        match number {
            0 => stage == EnvelopeStage::Delay && next == EnvelopeStage::Attack,
            1 => stage == EnvelopeStage::Attack && next == EnvelopeStage::Hold,
            2 => stage == EnvelopeStage::Hold && next == EnvelopeStage::Decay,
            3 => stage == EnvelopeStage::Decay && next == EnvelopeStage::Sustain,
            4 => stage == EnvelopeStage::Sustain && next == EnvelopeStage::Release,
            5 => stage == EnvelopeStage::Release && next == EnvelopeStage::Finished,
            _ => number == 6 && stage == EnvelopeStage::Finished && next
                == EnvelopeStage::Finished,
        },
        stage.number() == number,
        stage.next() == next,
{
}

/// Entering a stage leads to the first stage from there on that takes time or holds, and goes on from
/// the amplitude at which it was entered.
pub proof fn lemma_enters_first_lasting_stage<V: Scalar>(
    params: EnvelopeParameters<V>,
    stage: EnvelopeStage,
    amp: V,
    width: u32,
    state: VoiceEnvelopeState<V>,
)
    requires
        params.wf(),
        call_ensures(
            EnvelopeParameters::<V>::get_stage_data,
            (&params, stage, amp, width),
            state,
        ),
    ensures
        is_entry(params, stage, amp, width, state),
{
    lemma_entered_is_entry(params, stage, amp, width);
}

proof fn lemma_entered_is_entry<V: Scalar>(
    params: EnvelopeParameters<V>,
    stage: EnvelopeStage,
    amp: V,
    width: u32,
)
    ensures
        is_entry(params, stage, amp, width, params.entered(stage, amp, width)),
    decreases 6 - stage.number(),
{
    let part = params.parts@[stage.number()];
    match part.ramp() {
        Some((curve, target, duration)) => {
            if duration == 0 && stage.number() < 6 {
                lemma_entered_is_entry(params, stage.next(), target, width);
            }
        },
        None => {},
    }
}

/// The amplitude of an envelope lies on the ramp of its stage, or is the constant of its stage.
pub proof fn lemma_present_amplitude<V: Scalar>(run: EnvelopeRun<V>, amp: V)
    requires
        call_ensures(EnvelopeRun::<V>::get_value_at_current_time, (&run,), amp),
    ensures
        sounds_at(run.state.stage_data, amp),
{
    lemma_sounds(run.state.stage_data, amp);
}

proof fn lemma_sounds<V: Scalar>(data: StageData<V>, amp: V)
    requires
        data.is_amp(amp),
    ensures
        sounds_at(data, amp),
{
    if let StageData::Ramp { curve, start, target, time } = data {
        lemma_on_ramp(curve, start, target, time.time as int, time.end, amp);
    }
}

proof fn lemma_on_ramp<V: Scalar>(
    curve: RampCurve,
    start: V,
    target: V,
    time: int,
    end: u32,
    amp: V,
)
    requires
        is_on_ramp(curve, start, target, time, end, amp),
    ensures
        on_ramp_at(curve, start, target, time, end, amp),
{
    let factor = choose|factor: V| #[trigger]
        stage_time::is_progress(time, end, factor) && lies_at(curve, start, target, factor, amp);
    let (now, all) = choose|now: V, all: V| #[trigger]
        stage_time::is_progress_by(time, end, factor, now, all);
    match curve {
        RampCurve::Straight => {
            let lerper = choose|lerper: SIMDLerper<V>| #[trigger]
                lerper.is_between(start, target) && lerper.lerps(factor, amp);
            lerpers::lemma_line(lerper, start, target, factor, amp);
        },
        RampCurve::Concave => {
            let lerper = choose|lerper: SIMDLerperConcave<V>| #[trigger]
                lerper.is_between(start, target) && lerper.lerps(factor, amp);
            lerpers::lemma_early(lerper, start, target, factor, amp);
        },
        RampCurve::Convex => {
            let lerper = choose|lerper: SIMDLerperConvex<V>| #[trigger]
                lerper.is_between(start, target) && lerper.lerps(factor, amp);
            lerpers::lemma_late(lerper, start, target, factor, amp);
        },
    }
    assert(call_ensures(V::ratio, (time as i64, 1i64), now));
    assert(call_ensures(V::over, (now, all), factor));
}

proof fn lemma_enters_from<V: Scalar>(
    run: EnvelopeRun<V>,
    from: VoiceEnvelopeState<V>,
    stage: EnvelopeStage,
    state: VoiceEnvelopeState<V>,
)
    requires
        run.goes_to(from, stage, state),
    ensures
        enters_from(from.stage_data, run.params, stage, run.width, state),
{
    let amp = choose|amp: V| #[trigger]
        from.stage_data.is_amp(amp) && state == run.params.entered(stage, amp, run.width);
    lemma_sounds(from.stage_data, amp);
    lemma_entered_is_entry(run.params, stage, amp, run.width);
}

/// Whether `samples` is the number of whole samples in a time in seconds, none below zero and no more
/// than can be counted.
pub open spec fn lasts<V: Scalar>(secs: V, rate: V, samples: u32) -> bool {
    exists|zero: V, positive: V, length: V, whole: u64|
        {
            &&& #[trigger] call_ensures(V::ratio, (0i64, 1i64), zero)
            &&& #[trigger] call_ensures(V::highest, (secs, zero), positive)
            &&& #[trigger] call_ensures(V::times, (positive, rate), length)
            &&& #[trigger] call_ensures(V::whole, (length,), whole)
            &&& samples == if whole > u32::MAX {
                u32::MAX as u64
            } else {
                whole
            }
        }
}

/// Whether `out` is `part` with another duration.
pub open spec fn is_stretched<V>(part: EnvelopePart<V>, duration: u32, out: EnvelopePart<V>) -> bool {
    match part {
        EnvelopePart::Lerp { target, .. } => out == (EnvelopePart::Lerp { target, duration }),
        EnvelopePart::LerpConcave { target, .. } => out == (EnvelopePart::LerpConcave {
            target,
            duration,
        }),
        EnvelopePart::LerpConvex { target, .. } => out == (EnvelopePart::LerpConvex {
            target,
            duration,
        }),
        EnvelopePart::Hold(value) => out == EnvelopePart::Hold(value),
    }
}

/// Whether `secs` is what a controller value makes of a number of samples. The middle is 64: up to
/// there the time is multiplied by `(value / 64)^5`, and from there up to 128 it grows by
/// `15 * ((value - 64) / 64)^3` seconds. It is at least `num / den` seconds.
pub open spec fn is_turned<V: Scalar>(
    value: u8,
    samples: u32,
    rate: V,
    num: i64,
    den: i64,
    secs: V,
) -> bool {
    exists|number: V, before: V, after: V, least: V|
        {
            &&& #[trigger] call_ensures(V::ratio, (samples as i64, 1i64), number)
            &&& #[trigger] call_ensures(V::over, (number, rate), before)
            &&& #[trigger] is_turned_secs(value, before, after)
            &&& call_ensures(V::ratio, (num, den), least)
            &&& #[trigger] call_ensures(V::highest, (after, least), secs)
        }
}

/// The same for a time in seconds, without the least time.
pub open spec fn is_turned_secs<V: Scalar>(value: u8, before: V, after: V) -> bool {
    if value <= 64 {
        exists|part: V, power: V|
            {
                &&& #[trigger] call_ensures(V::ratio, (value as i64, 64i64), part)
                &&& #[trigger] call_ensures(V::raised_to, (part, 5u32), power)
                &&& call_ensures(V::times, (power, before), after)
            }
    } else if value <= 128 {
        exists|part: V, power: V, fifteen: V, more: V|
            {
                &&& #[trigger] call_ensures(V::ratio, ((value - 64) as i64, 64i64), part)
                &&& #[trigger] call_ensures(V::raised_to, (part, 3u32), power)
                &&& call_ensures(V::ratio, (15i64, 1i64), fifteen)
                &&& #[trigger] call_ensures(V::times, (power, fifteen), more)
                &&& call_ensures(V::plus, (before, more), after)
            }
    } else {
        after == before
    }
}

/// Whether `out` is what the controls make of a stage that takes time. A time in seconds replaces its
/// duration; without one a controller value turns it; without either it stays. Its curve and its
/// target stay in any case, and so does a stage that holds.
pub open spec fn obeys_time<V: Scalar>(
    part: EnvelopePart<V>,
    secs: Option<V>,
    value: Option<u8>,
    num: i64,
    den: i64,
    rate: V,
    out: EnvelopePart<V>,
) -> bool {
    match (secs, value) {
        (None, None) => out == part,
        (Some(secs), _) => is_brought_to(part, secs, rate, out),
        (None, Some(value)) => exists|secs: V| #[trigger]
            is_turned(value, samples_of(part), rate, num, den, secs) && is_brought_to(
                part,
                secs,
                rate,
                out,
            ),
    }
}

/// The number of samples that a stage takes.
pub open spec fn samples_of<V>(part: EnvelopePart<V>) -> u32 {
    match part {
        EnvelopePart::Lerp { duration, .. } => duration,
        EnvelopePart::LerpConcave { duration, .. } => duration,
        EnvelopePart::LerpConvex { duration, .. } => duration,
        EnvelopePart::Hold(_) => 0,
    }
}

/// Whether `out` is `part` brought to a time in seconds, where it is one that takes time.
pub open spec fn is_brought_to<V: Scalar>(
    part: EnvelopePart<V>,
    secs: V,
    rate: V,
    out: EnvelopePart<V>,
) -> bool {
    &&& is_stretched(part, samples_of(out), out)
    &&& part is Hold || lasts(secs, rate, samples_of(out))
}

/// Whether `out` is what the controls make of the stage that holds. A level replaces it, held between
/// 0 and 1; without one a controller value does, of 127; without either it stays.
pub open spec fn obeys_level<V: Scalar>(
    part: EnvelopePart<V>,
    level: Option<V>,
    value: Option<u8>,
    out: EnvelopePart<V>,
) -> bool {
    match (level, value) {
        (None, None) => out == part,
        (Some(level), _) => out matches EnvelopePart::Hold(held) && is_between_0_and_1(level, held),
        (None, Some(value)) => out matches EnvelopePart::Hold(held) && exists|level: V|
            #[trigger] call_ensures(V::ratio, (value as i64, 127i64), level) && is_between_0_and_1(
                level,
                held,
            ),
    }
}

/// Whether `held` is `level`, held between 0 and 1.
pub open spec fn is_between_0_and_1<V: Scalar>(level: V, held: V) -> bool {
    exists|zero: V, one: V|
        {
            &&& call_ensures(V::ratio, (0i64, 1i64), zero)
            &&& call_ensures(V::ratio, (1i64, 1i64), one)
            &&& #[trigger] call_ensures(V::held, (level, zero, one), held)
        }
}

/// Whether `out` is what the controls make of an envelope: each of them changes its own stage, and
/// none the start and the last stage. The release lasts at least a fiftieth of a second where a
/// controller value sets it.
pub open spec fn obeys_controls<V: Scalar>(
    params: EnvelopeParameters<V>,
    envelope: EnvelopeControlData<V>,
    cc: EnvelopeCCControlData,
    rate: V,
    out: EnvelopeParameters<V>,
) -> bool {
    &&& out.start == params.start
    &&& obeys_time(params.parts@[0], envelope.delay, cc.delay, 0, 1, rate, out.parts@[0])
    &&& obeys_time(params.parts@[1], envelope.attack, cc.attack, 0, 1, rate, out.parts@[1])
    &&& obeys_time(params.parts@[2], envelope.hold, cc.hold, 0, 1, rate, out.parts@[2])
    &&& obeys_time(params.parts@[3], envelope.decay, cc.decay, 0, 1, rate, out.parts@[3])
    &&& obeys_level(
        params.parts@[4],
        envelope.sustain_percent,
        cc.sustain_percent,
        out.parts@[4],
    )
    &&& obeys_time(params.parts@[5], envelope.release, cc.release, 1, 50, rate, out.parts@[5])
    &&& out.parts@[6] == params.parts@[6]
}

/// The controls change each stage of an envelope on its own: the delay that of the delay, and so on.
pub proof fn lemma_controls_shape_stages<V: Scalar>(
    params: EnvelopeParameters<V>,
    envelope: EnvelopeControlData<V>,
    cc: EnvelopeCCControlData,
    rate: V,
    out: EnvelopeParameters<V>,
)
    requires
        call_ensures(
            EnvelopeRun::<V>::get_modified_envelope,
            (params, envelope, cc, rate),
            out,
        ),
    ensures
        obeys_controls(params, envelope, cc, rate, out),
{
    lemma_modified_obeys(params, envelope, cc, rate, out);
}

proof fn lemma_modified_obeys<V: Scalar>(
    params: EnvelopeParameters<V>,
    envelope: EnvelopeControlData<V>,
    cc: EnvelopeCCControlData,
    rate: V,
    out: EnvelopeParameters<V>,
)
    requires
        is_modified(params, envelope, cc, rate, out),
    ensures
        obeys_controls(params, envelope, cc, rate, out),
{
    let a = params.parts@;
    let b = out.parts@;
    lemma_timed_obeys(a[0], envelope.delay, cc.delay, 0, 1, rate, b[0]);
    lemma_timed_obeys(a[1], envelope.attack, cc.attack, 0, 1, rate, b[1]);
    lemma_timed_obeys(a[2], envelope.hold, cc.hold, 0, 1, rate, b[2]);
    lemma_timed_obeys(a[3], envelope.decay, cc.decay, 0, 1, rate, b[3]);
    lemma_levelled_obeys(a[4], envelope.sustain_percent, cc.sustain_percent, b[4]);
    lemma_timed_obeys(a[5], envelope.release, cc.release, 1, 50, rate, b[5]);
}

proof fn lemma_retimed_lasts<V: Scalar>(part: EnvelopePart<V>, secs: V, rate: V, out: EnvelopePart<V>)
    requires
        is_retimed(part, secs, rate, out),
    ensures
        is_brought_to(part, secs, rate, out),
{
    assert(samples_of(out) == out.duration());
    if part.ramp() is Some {
        let (zero, held) = choose|zero: V, held: V|
            {
                &&& scalar::is_ratio(0, 1, zero)
                &&& #[trigger] scalar::is_larger(secs, zero, held)
                &&& scalar::is_samples_at(held, rate, out.duration())
            };
        let (length, whole) = choose|length: V, whole: u64| #[trigger]
            scalar::is_samples_at_by(held, rate, out.duration(), length, whole);
        assert(call_ensures(V::ratio, (0i64, 1i64), zero));
        assert(call_ensures(V::highest, (secs, zero), held));
        assert(call_ensures(V::times, (held, rate), length));
        assert(call_ensures(V::whole, (length,), whole));
    }
}

proof fn lemma_timed_obeys<V: Scalar>(
    part: EnvelopePart<V>,
    secs: Option<V>,
    value: Option<u8>,
    num: i64,
    den: i64,
    rate: V,
    out: EnvelopePart<V>,
)
    requires
        is_timed(part, secs, value, num as int, den as int, rate, out),
    ensures
        obeys_time(part, secs, value, num, den, rate, out),
{
    match (secs, value) {
        (Some(secs), _) => {
            lemma_retimed_lasts(part, secs, rate, out);
        },
        (None, Some(value)) => {
            let secs = choose|secs: V| #[trigger]
                is_cc_time(part, value, num as int, den as int, rate, secs) && is_retimed(
                    part,
                    secs,
                    rate,
                    out,
                );
            lemma_retimed_lasts(part, secs, rate, out);
            let (before, curved, least) = choose|before: V, curved: V, least: V|
                {
                    &&& scalar::is_seconds_of(part.duration(), rate, before)
                    &&& #[trigger] is_curved(value, before, curved)
                    &&& scalar::is_ratio(num as int, den as int, least)
                    &&& #[trigger] scalar::is_larger(curved, least, secs)
                };
            lemma_curved_turns(value, before, curved);
            let number = choose|number: V|
                scalar::is_ratio(part.duration() as int, 1, number)
                    && #[trigger] scalar::is_quotient(number, rate, before);
            assert(call_ensures(V::ratio, (part.duration() as i64, 1i64), number));
            assert(call_ensures(V::over, (number, rate), before));
            assert(call_ensures(V::highest, (curved, least), secs));
            assert(samples_of(part) == part.duration());
            assert(is_turned(value, samples_of(part), rate, num, den, secs));
        },
        (None, None) => {},
    }
}

proof fn lemma_curved_turns<V: Scalar>(value: u8, before: V, after: V)
    requires
        is_curved(value, before, after),
    ensures
        is_turned_secs(value, before, after),
{
    if value <= 64 {
        let (part, power) = choose|part: V, power: V| #[trigger]
            is_shortened_by(value, before, after, part, power);
        assert(call_ensures(V::ratio, (value as i64, 64i64), part));
        assert(call_ensures(V::raised_to, (part, 5u32), power));
    } else if value <= 128 {
        let (part, power, fifteen, more) = choose|part: V, power: V, fifteen: V, more: V| #[trigger]
            is_lengthened_by(value, before, after, part, power, fifteen, more);
        assert(call_ensures(V::ratio, ((value - 64) as i64, 64i64), part));
        assert(call_ensures(V::raised_to, (part, 3u32), power));
        assert(call_ensures(V::times, (power, fifteen), more));
    }
}

proof fn lemma_levelled_obeys<V: Scalar>(
    part: EnvelopePart<V>,
    level: Option<V>,
    value: Option<u8>,
    out: EnvelopePart<V>,
)
    requires
        is_levelled(part, level, value, out),
    ensures
        obeys_level(part, level, value, out),
{
    match (level, value) {
        (Some(level), _) => {
            lemma_unit_held(level, out->Hold_0);
        },
        (None, Some(value)) => {
            let level = choose|level: V| #[trigger]
                scalar::is_ratio(value as int, 127, level) && scalar::is_unit(level, out->Hold_0);
            lemma_unit_held(level, out->Hold_0);
            assert(call_ensures(V::ratio, (value as i64, 127i64), level));
        },
        (None, None) => {},
    }
}

proof fn lemma_unit_held<V: Scalar>(level: V, held: V)
    requires
        scalar::is_unit(level, held),
    ensures
        is_between_0_and_1(level, held),
{
    let (zero, one) = choose|zero: V, one: V| #[trigger]
        scalar::is_unit_by(level, held, zero, one);
    assert(call_ensures(V::held, (level, zero, one), held));
}

/// Whether an envelope `pre` that follows the controls becomes `post`. It stays in its stage, and goes
/// on from its present amplitude with what the controls make of its original parameters; only where
/// they leave no time for that stage does it go on to the next one. A killed one ignores them.
pub open spec fn follows_in_place<V: Scalar>(
    pre: EnvelopeRun<V>,
    envelope: EnvelopeControlData<V>,
    cc: EnvelopeCCControlData,
    post: EnvelopeRun<V>,
) -> bool {
    &&& pre.killed ==> post == pre
    &&& pre.state.current_stage.number() <= post.state.current_stage.number()
    &&& !takes_no_time(post.params.parts@[pre.state.current_stage.number()])
        ==> post.state.current_stage == pre.state.current_stage
    &&& !pre.killed ==> {
        &&& post == EnvelopeRun { params: post.params, state: post.state, ..pre }
        &&& obeys_controls(pre.original_params, envelope, cc, pre.sample_rate, post.params)
        &&& enters_from(
            pre.state.stage_data,
            post.params,
            pre.state.current_stage,
            pre.width,
            post.state,
        )
    }
}

/// Following the controls never leads an envelope back to an earlier stage. It stays in exactly the
/// stage that it is in as long as that stage takes time or holds, and goes on from where it is.
pub proof fn lemma_controls_keep_stage<V: Scalar>(
    run: &mut EnvelopeRun<V>,
    envelope: EnvelopeControlData<V>,
    cc: EnvelopeCCControlData,
)
    requires
        old(run).wf(),
        call_ensures(EnvelopeRun::<V>::modify_envelope, (run, envelope, cc), ()),
    ensures
        follows_in_place(*old(run), envelope, cc, *final(run)),
{
    lemma_follows_in_place(*old(run), envelope, cc, *final(run));
}

proof fn lemma_follows_in_place<V: Scalar>(
    pre: EnvelopeRun<V>,
    envelope: EnvelopeControlData<V>,
    cc: EnvelopeCCControlData,
    post: EnvelopeRun<V>,
)
    requires
        EnvelopeRun::follows(pre, envelope, cc, post),
    ensures
        follows_in_place(pre, envelope, cc, post),
{
    if !pre.killed {
        lemma_modified_obeys(pre.original_params, envelope, cc, pre.sample_rate, post.params);
        lemma_enters_from(post, pre.state, pre.state.current_stage, post.state);
    }
}

/// Controls that set nothing leave an envelope with its original parameters.
pub proof fn lemma_no_control_no_change<V: Scalar>(
    run: &mut EnvelopeRun<V>,
    envelope: EnvelopeControlData<V>,
    cc: EnvelopeCCControlData,
)
    requires
        old(run).wf(),
        !old(run).killed,
        envelope == (EnvelopeControlData::<V> {
            delay: None,
            attack: None,
            hold: None,
            decay: None,
            sustain_percent: None,
            release: None,
        }),
        cc == (EnvelopeCCControlData {
            delay: None,
            attack: None,
            hold: None,
            decay: None,
            sustain_percent: None,
            release: None,
        }),
        call_ensures(EnvelopeRun::<V>::modify_envelope, (run, envelope, cc), ()),
    ensures
        final(run).params.start == old(run).original_params.start,
        final(run).params.parts@ == old(run).original_params.parts@,
{
    let a = old(run).original_params.parts@;
    let b = final(run).params.parts@;
    assert forall|i: int| 0 <= i < 7 implies #[trigger] b[i] == a[i] by {
        assert(i == 0 || i == 1 || i == 2 || i == 3 || i == 4 || i == 5 || i == 6);
    }
}

/// The same of the envelope of a voice. It is over exactly when it is in its last stage.
pub proof fn lemma_voice_envelope_follows<V: Scalar>(
    pre: SIMDVoiceEnvelope<V>,
    control: VoiceControlData<V>,
    post: SIMDVoiceEnvelope<V>,
)
    requires
        pre.now().wf(),
        SIMDVoiceEnvelope::follows(pre, control, post),
    ensures
        follows_in_place(pre.now(), control.envelope, control.cc_envelope, post.now()),
        pre.has_ended() == (pre.now().state.current_stage == EnvelopeStage::Finished),
{
    lemma_follows_in_place(pre.now(), control.envelope, control.cc_envelope, post.now());
}

/// Whether a release turns an envelope `pre` into `post`, by way of `mid`. The release stage is entered
/// from the present amplitude, whatever stage the envelope is in. One that does not allow a release
/// ignores it. A kill is never ignored: it makes the release a straight line to silence within a
/// thousandth of a second.
pub open spec fn releases_from_here<V: Scalar>(
    pre: EnvelopeRun<V>,
    rel_type: ReleaseType,
    mid: EnvelopeRun<V>,
    post: EnvelopeRun<V>,
) -> bool {
    &&& if rel_type == ReleaseType::Kill {
        &&& mid.killed
        &&& mid == EnvelopeRun { params: mid.params, state: mid.state, killed: true, ..pre }
        &&& mid.params.start == pre.params.start
        &&& forall|i: int|
            0 <= i < 7 && i != 5 ==> #[trigger] mid.params.parts@[i] == pre.params.parts@[i]
        &&& fades_at_once(pre.sample_rate, mid.params.parts@[5])
        &&& enters_from(
            pre.state.stage_data,
            mid.params,
            pre.state.current_stage,
            pre.width,
            mid.state,
        )
    } else {
        mid == pre
    }
    &&& post == EnvelopeRun { state: post.state, ..mid }
    &&& if pre.allow_release || pre.killed || rel_type == ReleaseType::Kill {
        enters_from(
            mid.state.stage_data,
            mid.params,
            EnvelopeStage::Release,
            pre.width,
            post.state,
        )
    } else {
        post == pre
    }
}

/// Whether a part is a straight line to silence within a thousandth of a second.
pub open spec fn fades_at_once<V: Scalar>(rate: V, part: EnvelopePart<V>) -> bool {
    exists|zero: V, moment: V, length: V, whole: u64|
        {
            &&& #[trigger] call_ensures(V::ratio, (0i64, 1i64), zero)
            &&& #[trigger] call_ensures(V::ratio, (1i64, 1000i64), moment)
            &&& #[trigger] call_ensures(V::times, (moment, rate), length)
            &&& #[trigger] call_ensures(V::whole, (length,), whole)
            &&& part == (EnvelopePart::Lerp {
                target: zero,
                duration: (if whole > u32::MAX {
                    u32::MAX as u64
                } else {
                    whole
                }) as u32,
            })
        }
}

/// A release leads to the release stage, or past it where that takes no time, from the present
/// amplitude. Only a voice that does not allow it stays where it is, and only if it is not killed.
pub proof fn lemma_release_starts_here<V: Scalar>(run: &mut EnvelopeRun<V>, rel_type: ReleaseType)
    requires
        old(run).wf(),
        call_ensures(EnvelopeRun::<V>::signal_release, (run, rel_type), ()),
    ensures
        exists|mid: EnvelopeRun<V>| #[trigger]
            releases_from_here(*old(run), rel_type, mid, *final(run)),
        rel_type == ReleaseType::Kill ==> final(run).killed,
        old(run).allow_release || old(run).killed || rel_type == ReleaseType::Kill
            ==> EnvelopeStage::Release.number() <= final(run).state.current_stage.number(),
        !old(run).allow_release && !old(run).killed && rel_type == ReleaseType::Standard
            ==> *final(run) == *old(run),
{
    lemma_releases_from_here(*old(run), rel_type, *final(run));
}

proof fn lemma_releases_from_here<V: Scalar>(
    pre: EnvelopeRun<V>,
    rel_type: ReleaseType,
    post: EnvelopeRun<V>,
)
    requires
        EnvelopeRun::releases(pre, rel_type, post),
    ensures
        exists|mid: EnvelopeRun<V>| #[trigger] releases_from_here(pre, rel_type, mid, post),
        rel_type == ReleaseType::Kill ==> post.killed,
        pre.allow_release || pre.killed || rel_type == ReleaseType::Kill
            ==> EnvelopeStage::Release.number() <= post.state.current_stage.number(),
        !pre.allow_release && !pre.killed && rel_type == ReleaseType::Standard ==> post == pre,
{
    let mid = choose|mid: EnvelopeRun<V>| #[trigger]
        EnvelopeRun::lets_go(pre, rel_type, mid, post);
    if rel_type == ReleaseType::Kill {
        lemma_enters_from(mid, pre.state, pre.state.current_stage, mid.state);
        let (zero, moment) = choose|zero: V, moment: V|
            {
                &&& #[trigger] scalar::is_ratio(0, 1, zero)
                &&& #[trigger] scalar::is_ratio(1, 1000, moment)
                &&& scalar::is_samples_at(moment, pre.sample_rate, mid.params.parts@[5].duration())
                &&& mid.params.parts@[5] == (EnvelopePart::Lerp {
                    target: zero,
                    duration: mid.params.parts@[5].duration(),
                })
            };
        let (length, whole) = choose|length: V, whole: u64| #[trigger]
            scalar::is_samples_at_by(
                moment,
                pre.sample_rate,
                mid.params.parts@[5].duration(),
                length,
                whole,
            );
        assert(call_ensures(V::ratio, (0i64, 1i64), zero));
        assert(call_ensures(V::ratio, (1i64, 1000i64), moment));
        assert(call_ensures(V::times, (moment, pre.sample_rate), length));
        assert(call_ensures(V::whole, (length,), whole));
        assert(fades_at_once(pre.sample_rate, mid.params.parts@[5]));
    }
    if mid.allow_release || mid.killed {
        lemma_enters_from(mid, mid.state, EnvelopeStage::Release, post.state);
    }
    assert(releases_from_here(pre, rel_type, mid, post));
}

/// The same of the envelope of a voice.
pub proof fn lemma_voice_envelope_releases<V: Scalar>(
    pre: SIMDVoiceEnvelope<V>,
    rel_type: ReleaseType,
    post: SIMDVoiceEnvelope<V>,
)
    requires
        pre.now().wf(),
        SIMDVoiceEnvelope::releases(pre, rel_type, post),
    ensures
        exists|mid: EnvelopeRun<V>| #[trigger]
            releases_from_here(pre.now(), rel_type, mid, post.now()),
{
    lemma_releases_from_here(pre.now(), rel_type, post.now());
}

/// Whether an envelope at `from` gives the sample `amp` and is at `to` one sample later: a ramp is one
/// sample further, and once it has come to its end the next stage is entered from there. A constant
/// stays.
pub open spec fn goes_one_on<V: Scalar>(
    params: EnvelopeParameters<V>,
    width: u32,
    from: VoiceEnvelopeState<V>,
    amp: V,
    to: VoiceEnvelopeState<V>,
) -> bool {
    &&& sounds_at(from.stage_data, amp)
    &&& match from.stage_data {
        StageData::Constant(_) => to == from,
        StageData::Ramp { curve, start, target, time } => {
            let later = StageData::Ramp {
                curve,
                start,
                target,
                time: StageTime { time: (time.time + 1) as u32, ..time },
            };
            if time.time + 1 < time.end {
                to == (VoiceEnvelopeState {
                    current_stage: from.current_stage,
                    stage_data: later,
                })
            } else {
                enters_from(later, params, from.current_stage.next(), width, to)
            }
        },
    }
}

/// Whether an envelope goes through `trace` and gives `values`, sample by sample.
pub open spec fn walks<V: Scalar>(
    params: EnvelopeParameters<V>,
    width: u32,
    trace: Seq<VoiceEnvelopeState<V>>,
    values: Seq<V>,
) -> bool {
    &&& trace.len() == values.len() + 1
    &&& forall|i: int|
        0 <= i < values.len() ==> goes_one_on(
            params,
            width,
            #[trigger] trace[i],
            values[i],
            trace[i + 1],
        )
}

/// Whether `value` is less than a 32768th in size.
pub open spec fn is_inaudible<V: Scalar>(value: V, answer: bool) -> bool {
    exists|size: V, limit: V, loud: bool|
        {
            &&& #[trigger] call_ensures(V::magnitude, (value,), size)
            &&& call_ensures(V::ratio, (1i64, 32768i64), limit)
            &&& #[trigger] call_ensures(V::at_most, (limit, size), loud)
            &&& answer == !loud
        }
}

/// Whether an envelope that is under way at `from` gives the batch `values` and is at `to` after it. A
/// constant repeats. A ramp that does not end within the batch goes on; if it is the release and
/// nothing of the batch can be heard, the envelope is over. A ramp that ends is taken sample by sample.
pub open spec fn plays_batch<V: Scalar>(
    params: EnvelopeParameters<V>,
    width: u32,
    from: VoiceEnvelopeState<V>,
    values: Seq<V>,
    to: VoiceEnvelopeState<V>,
) -> bool {
    &&& values.len() == width
    &&& match from.stage_data {
        StageData::Constant(constant) => {
            &&& to == from
            &&& forall|i: int| 0 <= i < values.len() ==> #[trigger] values[i] == constant
        },
        StageData::Ramp { curve, start, target, time } => if time.time + width <= time.end {
            let later = VoiceEnvelopeState {
                current_stage: from.current_stage,
                stage_data: StageData::Ramp {
                    curve,
                    start,
                    target,
                    time: StageTime { time: (time.time + width) as u32, ..time },
                },
            };
            &&& forall|i: int|
                0 <= i < values.len() ==> on_ramp_at(
                    curve,
                    start,
                    target,
                    time.time + i,
                    time.end,
                    #[trigger] values[i],
                )
            &&& {
                ||| to == later && (from.current_stage != EnvelopeStage::Release || exists|i: int|
                    0 <= i < values.len() && is_inaudible(#[trigger] values[i], false))
                ||| {
                    &&& from.current_stage == EnvelopeStage::Release
                    &&& to.current_stage == EnvelopeStage::Finished
                    &&& forall|i: int|
                        0 <= i < values.len() ==> is_inaudible(#[trigger] values[i], true)
                }
            }
        } else {
            exists|trace: Seq<VoiceEnvelopeState<V>>| #[trigger]
                walks(params, width, trace, values) && trace[0] == from && trace.last() == to
        },
    }
}

/// Whether `from` is where the next batch begins: in the next stage, entered from the present
/// amplitude, if the present one has come to its end, and else where the envelope is.
pub open spec fn is_under_way<V: Scalar>(run: EnvelopeRun<V>, from: VoiceEnvelopeState<V>) -> bool {
    match run.state.stage_data {
        StageData::Ramp { time, .. } => if time.time >= time.end {
            enters_from(
                run.state.stage_data,
                run.params,
                run.state.current_stage.next(),
                run.width,
                from,
            )
        } else {
            from == run.state
        },
        StageData::Constant(_) => from == run.state,
    }
}

/// Whether an envelope `pre` gives the batch `values` and becomes `post`.
pub open spec fn plays_on<V: Scalar>(
    pre: EnvelopeRun<V>,
    values: Seq<V>,
    post: EnvelopeRun<V>,
) -> bool {
    &&& post == EnvelopeRun { state: post.state, ..pre }
    &&& exists|from: VoiceEnvelopeState<V>| #[trigger]
        is_under_way(pre, from) && plays_batch(pre.params, pre.width, from, values, post.state)
}

/// An envelope runs through its stages in time: each sample lies on the ramp or the constant of its
/// stage, each ramp takes as many samples as it lasts, and then the next stage is entered from there.
pub proof fn lemma_envelope_plays_on<V: Scalar>(run: &mut EnvelopeRun<V>, values: Vec<V>)
    requires
        old(run).wf(),
        call_ensures(EnvelopeRun::<V>::next_sample, (run,), values),
    ensures
        plays_on(*old(run), values@, *final(run)),
{
    lemma_yields_plays_on(*old(run), values@, *final(run));
}

/// The same of the envelope of a voice.
pub proof fn lemma_voice_envelope_plays_on<V: Scalar>(
    pre: SIMDVoiceEnvelope<V>,
    values: Seq<V>,
    post: SIMDVoiceEnvelope<V>,
)
    requires
        pre.now().wf(),
        SIMDVoiceEnvelope::yields(pre, values, post),
    ensures
        plays_on(pre.now(), values, post.now()),
{
    lemma_yields_plays_on(pre.now(), values, post.now());
}

proof fn lemma_yields_plays_on<V: Scalar>(
    pre: EnvelopeRun<V>,
    values: Seq<V>,
    post: EnvelopeRun<V>,
)
    requires
        pre.wf(),
        EnvelopeRun::yields(pre, values, post),
    ensures
        plays_on(pre, values, post),
{
    let from = choose|from: VoiceEnvelopeState<V>| #[trigger]
        pre.settles(from) && pre.draws(from, values, post.state);
    if pre.state.stage_data.is_over() {
        lemma_enters_from(pre, pre.state, pre.state.current_stage.next(), from);
        let amp = choose|amp: V| #[trigger]
            pre.state.stage_data.is_amp(amp) && from == pre.params.entered(
                pre.state.current_stage.next(),
                amp,
                pre.width,
            );
        lemma_entered_wf(pre.params, pre.state.current_stage.next(), amp, pre.width);
    }
    assert(is_under_way(pre, from));
    assert(from.stage_data.wf(pre.width));
    if let StageData::Ramp { curve, start, target, time } = from.stage_data {
        if time.ending() {
            let trace = choose|trace: Seq<VoiceEnvelopeState<V>>| #[trigger]
                pre.is_run(trace, values) && trace[0] == from && trace.last() == post.state;
            assert forall|i: int| 0 <= i < values.len() implies goes_one_on(
                pre.params,
                pre.width,
                #[trigger] trace[i],
                values[i],
                trace[i + 1],
            ) by {
                assert(pre.ticks(trace[i], values[i], trace[i + 1]));
                lemma_sounds(trace[i].stage_data, values[i]);
                let later = VoiceEnvelopeState {
                    stage_data: trace[i].stage_data.later(1),
                    ..trace[i]
                };
                if later.stage_data.is_over() {
                    lemma_enters_from(pre, later, later.current_stage.next(), trace[i + 1]);
                }
                lemma_run_under_way(pre, trace, values, i);
            }
            assert(walks(pre.params, pre.width, trace, values));
        } else {
            assert forall|i: int| 0 <= i < values.len() implies on_ramp_at(
                curve,
                start,
                target,
                time.time + i,
                time.end,
                #[trigger] values[i],
            ) by {
                lemma_on_ramp(curve, start, target, time.lane(i), time.end, values[i]);
            }
            lemma_fades(pre, from, values, post.state);
        }
    }
    assert(plays_batch(pre.params, pre.width, from, values, post.state));
}

/// A walk through an envelope stays within its ramps.
proof fn lemma_run_under_way<V: Scalar>(
    run: EnvelopeRun<V>,
    trace: Seq<VoiceEnvelopeState<V>>,
    values: Seq<V>,
    k: int,
)
    requires
        run.params.wf(),
        run.is_run(trace, values),
        0 <= k < trace.len(),
        trace[0].stage_data.wf(run.width),
        !trace[0].stage_data.is_over(),
    ensures
        trace[k].stage_data.wf(run.width),
        !trace[k].stage_data.is_over(),
    decreases k,
{
    if k > 0 {
        lemma_run_under_way(run, trace, values, k - 1);
        let from = trace[k - 1];
        assert(run.ticks(from, values[k - 1], trace[k - 1 + 1]));
        let later = VoiceEnvelopeState { stage_data: from.stage_data.later(1), ..from };
        if later.stage_data.is_over() {
            let amp = choose|amp: V| #[trigger]
                later.stage_data.is_amp(amp) && trace[k] == run.params.entered(
                    later.current_stage.next(),
                    amp,
                    run.width,
                );
            lemma_entered_wf(run.params, later.current_stage.next(), amp, run.width);
        }
    }
}

/// What is not loud is inaudible.
proof fn lemma_inaudible<V: Scalar>(value: V, loud: bool)
    requires
        is_loud(value, loud),
    ensures
        is_inaudible(value, !loud),
{
    let (size, limit) = choose|size: V, limit: V| #[trigger] is_loud_by(value, loud, size, limit);
    assert(call_ensures(V::magnitude, (value,), size));
    assert(call_ensures(V::at_most, (limit, size), loud));
}

/// What a batch within a ramp leads to.
proof fn lemma_fades<V: Scalar>(
    run: EnvelopeRun<V>,
    from: VoiceEnvelopeState<V>,
    values: Seq<V>,
    state: VoiceEnvelopeState<V>,
)
    requires
        run.params.wf(),
        run.fades(
            (VoiceEnvelopeState {
                stage_data: from.stage_data.later(run.width as int),
                ..from
            }),
            values,
            state,
        ),
    ensures
        ({
            ||| state == (VoiceEnvelopeState {
                stage_data: from.stage_data.later(run.width as int),
                ..from
            }) && (from.current_stage != EnvelopeStage::Release || exists|i: int|
                0 <= i < values.len() && is_inaudible(#[trigger] values[i], false))
            ||| {
                &&& from.current_stage == EnvelopeStage::Release
                &&& state.current_stage == EnvelopeStage::Finished
                &&& forall|i: int|
                    0 <= i < values.len() ==> is_inaudible(#[trigger] values[i], true)
            }
        }),
{
    if from.current_stage == EnvelopeStage::Release {
        if exists|i: int| 0 <= i < values.len() && is_loud(#[trigger] values[i], true) && state == (
        VoiceEnvelopeState { stage_data: from.stage_data.later(run.width as int), ..from }) {
            let i = choose|i: int|
                0 <= i < values.len() && is_loud(#[trigger] values[i], true) && state == (
                VoiceEnvelopeState { stage_data: from.stage_data.later(run.width as int), ..from });
            lemma_inaudible(values[i], true);
        } else {
            assert(EnvelopeRun::<V>::all_inaudible(values) && run.finishes(state));
            let zero = choose|zero: V| #[trigger]
                scalar::is_ratio(0, 1, zero) && state == run.params.entered(
                    EnvelopeStage::Finished,
                    zero,
                    run.width,
                );
            lemma_entered_is_entry(run.params, EnvelopeStage::Finished, zero, run.width);
            assert forall|i: int| 0 <= i < values.len() implies is_inaudible(
                #[trigger] values[i],
                true,
            ) by {
                lemma_inaudible(values[i], false);
            }
        }
    }
}

/// A stage that holds is left only by a release: samples neither change it nor its value.
pub proof fn lemma_hold_stays<V: Scalar>(run: &mut EnvelopeRun<V>, value: V, values: Vec<V>)
    requires
        old(run).wf(),
        old(run).state.stage_data == StageData::Constant(value),
        call_ensures(EnvelopeRun::<V>::next_sample, (run,), values),
    ensures
        *final(run) == *old(run),
        values@.len() == old(run).width,
        forall|i: int| 0 <= i < values@.len() ==> #[trigger] values@[i] == value,
{
}

/// Whether a part leads to `target` in a number of seconds.
pub open spec fn leads_in<V: Scalar>(target: V, secs: V, rate: V, part: EnvelopePart<V>) -> bool {
    &&& !(part is Hold)
    &&& leads_to(part) == target
    &&& exists|length: V, whole: u64|
        {
            &&& #[trigger] call_ensures(V::times, (secs, rate), length)
            &&& #[trigger] call_ensures(V::whole, (length,), whole)
            &&& samples_of(part) == if whole > u32::MAX {
                u32::MAX as u64
            } else {
                whole
            }
        }
}

/// An envelope waits at its start, rises to full amplitude, stays there, falls to its sustain level and
/// stays there; released, it falls to silence. Each stage takes its own time in seconds. Straight
/// in decibels, a rise is late and a fall is early; straight in amplitude they are even.
pub proof fn lemma_descriptor_stages<V: Scalar>(
    descriptor: EnvelopeDescriptor<V>,
    samplerate: u32,
    options: EnvelopeOptions,
    params: EnvelopeParameters<V>,
)
    requires
        call_ensures(
            EnvelopeDescriptor::<V>::to_envelope_params,
            (&descriptor, samplerate, options),
            params,
        ),
    ensures
        params.start == descriptor.start_percent,
        exists|rate: V, one: V, zero: V|
            {
                &&& #[trigger] call_ensures(V::ratio, (samplerate as i64, 1i64), rate)
                &&& #[trigger] call_ensures(V::ratio, (1i64, 1i64), one)
                &&& #[trigger] call_ensures(V::ratio, (0i64, 1i64), zero)
                &&& leads_in(descriptor.start_percent, descriptor.delay, rate, params.parts@[0])
                &&& leads_in(one, descriptor.attack, rate, params.parts@[1])
                &&& leads_in(one, descriptor.hold, rate, params.parts@[2])
                &&& leads_in(descriptor.sustain_percent, descriptor.decay, rate, params.parts@[3])
                &&& params.parts@[4] == EnvelopePart::Hold(descriptor.sustain_percent)
                &&& leads_in(zero, descriptor.release, rate, params.parts@[5])
                &&& params.parts@[6] == EnvelopePart::Hold(zero)
            },
        params.parts@[0] is Lerp,
        params.parts@[2] is Lerp,
        match options.attack_curve {
            EnvelopeCurveType::Linear => params.parts@[1] is LerpConvex,
            EnvelopeCurveType::Exponential => params.parts@[1] is Lerp,
        },
        match options.decay_curve {
            EnvelopeCurveType::Linear => params.parts@[3] is LerpConcave,
            EnvelopeCurveType::Exponential => params.parts@[3] is Lerp,
        },
        match options.release_curve {
            EnvelopeCurveType::Linear => params.parts@[5] is LerpConcave,
            EnvelopeCurveType::Exponential => params.parts@[5] is Lerp,
        },
{
    let (rate, one, zero) = choose|rate: V, one: V, zero: V|
        {
            &&& #[trigger] scalar::is_ratio(samplerate as int, 1, rate)
            &&& #[trigger] scalar::is_ratio(1, 1, one)
            &&& #[trigger] scalar::is_ratio(0, 1, zero)
            &&& descriptor.describes_with(rate, one, zero, options, params)
        };
    let parts = params.parts@;
    lemma_leads_in(parts[0], RampCurve::Straight, descriptor.start_percent, descriptor.delay, rate);
    lemma_leads_in(parts[1], rising(options.attack_curve), one, descriptor.attack, rate);
    lemma_leads_in(parts[2], RampCurve::Straight, one, descriptor.hold, rate);
    lemma_leads_in(
        parts[3],
        falling(options.decay_curve),
        descriptor.sustain_percent,
        descriptor.decay,
        rate,
    );
    lemma_leads_in(parts[5], falling(options.release_curve), zero, descriptor.release, rate);
    assert(call_ensures(V::ratio, (samplerate as i64, 1i64), rate));
    assert(call_ensures(V::ratio, (1i64, 1i64), one));
    assert(call_ensures(V::ratio, (0i64, 1i64), zero));
}

proof fn lemma_leads_in<V: Scalar>(
    part: EnvelopePart<V>,
    curve: RampCurve,
    target: V,
    secs: V,
    rate: V,
)
    requires
        is_move(part, curve, target, secs, rate),
    ensures
        leads_in(target, secs, rate, part),
        match curve {
            RampCurve::Straight => part is Lerp,
            RampCurve::Concave => part is LerpConcave,
            RampCurve::Convex => part is LerpConvex,
        },
{
    let (length, whole) = choose|length: V, whole: u64| #[trigger]
        scalar::is_samples_at_by(secs, rate, part.duration(), length, whole);
    assert(call_ensures(V::times, (secs, rate), length));
    assert(call_ensures(V::whole, (length,), whole));
}

/// An envelope begins with its delay, or with the first stage after it that takes time, at the amplitude
/// that it starts from, and has not been killed.
pub proof fn lemma_envelope_begins<V: Scalar>(
    original_params: EnvelopeParameters<V>,
    params: EnvelopeParameters<V>,
    allow_release: bool,
    sample_rate: V,
    width: u32,
    run: EnvelopeRun<V>,
    envelope: SIMDVoiceEnvelope<V>,
    stage: EnvelopeStage,
)
    requires
        call_ensures(
            EnvelopeRun::<V>::new,
            (original_params, params, allow_release, sample_rate, width),
            run,
        ),
        call_ensures(
            SIMDVoiceEnvelope::<V>::new,
            (original_params, params, allow_release, sample_rate, width),
            envelope,
        ),
        call_ensures(SIMDVoiceEnvelope::<V>::current_stage, (&envelope,), stage),
    ensures
        is_entry(params, EnvelopeStage::Delay, params.start, width, run.state),
        run.original_params == original_params,
        run.params == params,
        run.allow_release == allow_release,
        run.sample_rate == sample_rate,
        run.width == width,
        !run.killed,
        envelope.now() == run,
        stage == run.state.current_stage,
{
    lemma_entered_is_entry(params, EnvelopeStage::Delay, params.start, width);
}

/// The amplitude of the envelope of a voice is the one of its stage.
pub proof fn lemma_voice_envelope_amplitude<V: Scalar>(envelope: SIMDVoiceEnvelope<V>, amp: V)
    requires
        call_ensures(SIMDVoiceEnvelope::<V>::get_value_at_current_time, (&envelope,), amp),
    ensures
        sounds_at(envelope.now().state.stage_data, amp),
{
    lemma_sounds(envelope.now().state.stage_data, amp);
}

/// A ramp leads to its target in the time that it is given, and a hold keeps its value; replacing one stage
/// leaves the others as they were.
pub proof fn lemma_parts<V: Scalar>(
    target: V,
    duration: u32,
    straight: EnvelopePart<V>,
    concave: EnvelopePart<V>,
    convex: EnvelopePart<V>,
    held: EnvelopePart<V>,
    params: &mut EnvelopeParameters<V>,
    part: usize,
    data: EnvelopePart<V>,
    read: EnvelopeParameters<V>,
    stage: EnvelopeStage,
    lasting: u32,
)
    requires
        call_ensures(EnvelopePart::<V>::lerp, (target, duration), straight),
        call_ensures(EnvelopePart::<V>::lerp_concave, (target, duration), concave),
        call_ensures(EnvelopePart::<V>::lerp_convex, (target, duration), convex),
        call_ensures(EnvelopePart::<V>::hold, (target,), held),
        call_ensures(EnvelopeParameters::<V>::modify_stage_data, (params, part, data), ()),
        part < 7,
        old(params).wf(),
        call_ensures(EnvelopeParameters::<V>::get_stage_duration, (&read, stage), lasting),
    ensures
        straight == (EnvelopePart::Lerp { target, duration }),
        concave == (EnvelopePart::LerpConcave { target, duration }),
        convex == (EnvelopePart::LerpConvex { target, duration }),
        held == EnvelopePart::Hold(target),
        final(params).parts@[part as int] == data,
        forall|i: int|
            0 <= i < 7 && i != part ==> #[trigger] final(params).parts@[i] == old(params).parts@[i],
        final(params).start == old(params).start,
        match read.parts@[stage.number()] {
            EnvelopePart::Lerp { duration, .. } => lasting == duration,
            EnvelopePart::LerpConcave { duration, .. } => lasting == duration,
            EnvelopePart::LerpConvex { duration, .. } => lasting == duration,
            EnvelopePart::Hold(_) => lasting == 0,
        },
{
}

} // verus!
