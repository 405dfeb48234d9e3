use std::sync::Arc;
use xsynth::channel::control::VoiceChannel;
use xsynth::channel::event::{
    ChannelAudioEvent, ChannelConfigEvent, ChannelEvent, ControlEvent, SynthEvent,
};
use xsynth::channel::key::{KeyData, KeyNoteEvent};
use xsynth::channel::voice_buffer::{ChannelInitOptions, VoiceBuffer};
use xsynth::effects::limiter::VolumeLimiter;
use xsynth::helpers::{
    all_pairs_same, are_arc_vecs_equal, db_to_amp, fast_zero_fill, prepapre_cache_vec,
    sum_buffers_to_target, sum_simd, RenderBufferPool,
};
use xsynth::offline::{all_quiet, next_chunk, setup_events, Chunk, OfflineProgress};
use xsynth::scalar::Scalar;
use xsynth::soundfonts::resample::{
    resample_fast, resample_i16, resample_vec, resample_vecs, SourcePosition,
};
use xsynth::soundfonts::sf2::sample::{Sf2Sample, FULL_SCALE_16, FULL_SCALE_24};
use xsynth::stream::{AudioStreamParams, ChannelCount};
use xsynth::voice::control::{ControlPick, SIMDVoiceControl};
use xsynth::voice::envelope::{
    EnvelopeDescriptor, EnvelopeOptions, EnvelopePart, EnvelopeRun, EnvelopeStage,
    SIMDVoiceEnvelope,
};
use xsynth::voice::lerpers::{SIMDLerper, SIMDLerperConcave, SIMDLerperConvex};
use xsynth::voice::sampler::{
    BufferSampler, LoopParams, PlayTime, SIMDLinearSampleGrabber, SIMDMonoVoiceSampler,
    SIMDSampleGrabber, SIMDStereoVoiceSampler, SampleReader, SampleReaderLoop,
    SampleReaderLoopSustain, SampleReaderNoLoop,
};
use xsynth::voice::simd_voice::{SIMDMonoVoice, SIMDStereoVoice, SIMDVoiceGenerator};
use xsynth::voice::stage_time::StageTime;
use xsynth::voice::{
    EnvelopeCCControlData, EnvelopeControlData, ReleaseType, Voice, VoiceControlData,
    VoiceGeneratorBase, VoiceSampleGenerator,
};

/// A single precision amplitude.
#[derive(Copy, Clone, Debug, PartialEq, PartialOrd, Default)]
struct F(f32);

impl Scalar for F {
    fn ratio(num: i64, den: i64) -> F {
        F((num as f64 / den as f64) as f32)
    }
    fn plus(self, other: F) -> F {
        F(self.0 + other.0)
    }
    fn minus(self, other: F) -> F {
        F(self.0 - other.0)
    }
    fn times(self, other: F) -> F {
        F(self.0 * other.0)
    }
    fn over(self, other: F) -> F {
        F(self.0 / other.0)
    }
    fn less(self, other: F) -> bool {
        self.0 < other.0
    }
    fn at_most(self, other: F) -> bool {
        self.0 <= other.0
    }
    fn same(self, other: F) -> bool {
        self.0 == other.0
    }
    fn lowest(self, other: F) -> F {
        F(self.0.min(other.0))
    }
    fn highest(self, other: F) -> F {
        F(self.0.max(other.0))
    }
    fn held(self, low: F, high: F) -> F {
        F(self.0.clamp(low.0, high.0))
    }
    fn magnitude(self) -> F {
        F(self.0.abs())
    }
    fn sign(self) -> F {
        F(self.0.signum())
    }
    fn fractional(self) -> F {
        F(self.0 % 1.0)
    }
    fn raised(self, exponent: F) -> F {
        F(self.0.powf(exponent.0))
    }
    fn raised_to(self, exponent: u32) -> F {
        F(self.0.powi(exponent as i32))
    }
    fn butterworth() -> F {
        F(0.70710678)
    }
    fn key_frequency(key: u8) -> F {
        F(440.0 * 2f32.powf((key as f32 - 69.0) / 12.0))
    }
    fn whole(self) -> u64 {
        self.0 as u64
    }
}

impl std::ops::Add for F {
    type Output = F;
    fn add(self, other: F) -> F {
        F(self.0 + other.0)
    }
}

/// The number of lanes.
const WIDTH: u32 = 8;

fn assert_close(a: &[F], b: &[f32], epsilon: f32) {
    assert_eq!(a.len(), b.len());
    for i in 0..a.len() {
        assert!((a[i].0 - b[i]).abs() < epsilon, "{} is not {}", a[i].0, b[i]);
    }
}

#[test]
fn test_simd_lerp() {
    let lerper = SIMDLerper::new(F(0.0), F(1.0));
    assert_eq!(lerper.lerp(F(0.0)), F(0.0));
    assert_eq!(lerper.lerp(F(0.5)), F(0.5));
    assert_eq!(lerper.lerp(F(1.0)), F(1.0));
    assert_eq!(lerper.lerp_simd(&vec![F(0.0); 8]), vec![F(0.0); 8]);
    assert_eq!(lerper.lerp_simd(&vec![F(0.5); 8]), vec![F(0.5); 8]);
    assert_eq!(lerper.lerp_simd(&vec![F(1.0); 8]), vec![F(1.0); 8]);
}

#[test]
fn curved_lerpers_start_and_end_where_they_should() {
    let concave = SIMDLerperConcave::new(F(1.0), F(0.25));
    assert_eq!(concave.lerp(F(0.0)), F(1.0));
    assert_eq!(concave.lerp(F(0.5)), F(0.75 / 256.0 + 0.25));
    assert_eq!(concave.lerp(F(1.0)), F(0.25));
    let convex = SIMDLerperConvex::new(F(0.0), F(1.0));
    assert_eq!(convex.lerp(F(0.0)), F(0.0));
    assert_eq!(convex.lerp(F(0.5)), F(1.0 / 256.0));
    assert_eq!(convex.lerp_simd(&vec![F(0.5), F(1.0)]), vec![F(1.0 / 256.0), F(1.0)]);
}

#[test]
fn test_stage_time() {
    let mut time = StageTime::new(5, 20, WIDTH);
    let mut time2 = StageTime::new(4, 20, WIDTH);
    assert_eq!(time.simd_array_start(), 5);
    assert!(!time.is_ending());

    let range = |from: u32| -> Vec<u32> { (from..from + WIDTH).collect() };
    let progress =
        |from: u32| -> Vec<f32> { range(from).iter().map(|v| *v as f32 * (1.0 / 20.0)).collect() };

    assert_eq!(time.raw_simd_array(), range(5));
    assert_close(&time.progress_simd_array::<F>(), &progress(5), 1e-6);

    let mut i = 5;
    while time.simd_array_start() + WIDTH <= 20 {
        assert_eq!(time.raw_simd_array(), range(i));
        assert_close(&time.progress_simd_array::<F>(), &progress(i), 1e-6);
        assert_eq!(time.simd_array_start(), i);
        assert!(!time.is_ending());

        assert!(!time.is_intersecting_end());

        time.increment();
        time2.increment();
        i += WIDTH;
    }
    assert_eq!(time.simd_array_start(), i);
    assert!(time.is_ending());
    assert!(time.is_intersecting_end());

    assert!(!time2.is_ending());
    time2.increment();
    assert!(time2.is_ending());
    assert!(!time2.is_intersecting_end());
}

fn lerp(from: f32, to: f32, fac: f32) -> f32 {
    from + (to - from) * fac
}

fn lerp_to_zero_curve(from: f32, fac: f32) -> f32 {
    let mult = (1. - fac).powi(8);
    mult * from
}

fn lerp_concave(from: f32, to: f32, fac: f32) -> f32 {
    let mult = (1. - fac).powi(8);
    (from - to) * mult + to
}

fn descriptor() -> EnvelopeDescriptor<F> {
    EnvelopeDescriptor {
        start_percent: F(0.5),
        delay: F(0.0),
        attack: F(15.0),
        hold: F(0.0),
        decay: F(17.0),
        sustain_percent: F(0.4),
        release: F(16.0),
    }
}

#[test]
fn test_envelope() {
    let mut vec: Vec<f32> = Vec::new();

    let params = descriptor().to_envelope_params(1, EnvelopeOptions::default());

    assert!(matches!(
        params.parts[EnvelopeStage::Decay.as_usize()],
        EnvelopePart::LerpConcave { target, duration } if target == F(0.4) && duration == 17
    ));

    let mut env = SIMDVoiceEnvelope::new(params, params, true, F(1.0), WIDTH);

    let mut i = 0;
    while i < 48 {
        vec.extend(env.next_sample().iter().map(|v| v.0));
        i += WIDTH;
    }
    env.signal_release(ReleaseType::Standard);
    assert_eq!(env.current_stage(), EnvelopeStage::Release);
    while i < 48 + 32 {
        vec.extend(env.next_sample().iter().map(|v| v.0));
        i += WIDTH;
    }

    let mut expected_vec: Vec<f32> = Vec::new();

    for i in 0..15 {
        expected_vec.push(lerp(0.5, 1.0, i as f32 / 15.0));
    }
    for i in 0..17 {
        expected_vec.push(lerp_concave(1.0, 0.4, i as f32 / 17.0));
    }
    for _ in 0..16 {
        expected_vec.push(0.4);
    }
    for i in 0..16 {
        expected_vec.push(lerp_to_zero_curve(0.4, i as f32 / 16.0));
    }
    for _ in 0..16 {
        expected_vec.push(0.0);
    }

    for v in vec.iter_mut().chain(expected_vec.iter_mut()) {
        // Rounding as cached values are sometimes off by tiny fractions
        *v = (*v * 10000.0).round() / 10000.0;
    }

    assert_eq!(vec, expected_vec);
}

#[test]
fn envelope_stages_follow_each_other() {
    let mut stage = EnvelopeStage::Delay;
    let mut numbers = vec![stage.as_usize()];
    for _ in 0..6 {
        stage = stage.next_stage();
        numbers.push(stage.as_usize());
    }
    assert_eq!(numbers, vec![0, 1, 2, 3, 4, 5, 6]);
    assert_eq!(EnvelopeStage::Finished.next_stage(), EnvelopeStage::Finished);
}

#[test]
fn killed_envelope_ends_without_release() {
    let params = descriptor().to_envelope_params(1000, EnvelopeOptions::default());
    let mut env = SIMDVoiceEnvelope::new(params, params, false, F(1000.0), WIDTH);
    env.next_sample();
    env.signal_release(ReleaseType::Standard);
    assert_ne!(env.current_stage(), EnvelopeStage::Release);
    env.signal_release(ReleaseType::Kill);
    assert_eq!(env.current_stage(), EnvelopeStage::Release);
    env.next_sample();
    assert!(env.ended());
    assert_eq!(env.next_sample(), vec![F(0.0); 8]);
}

#[test]
fn controls_change_the_envelope() {
    let params = descriptor().to_envelope_params(100, EnvelopeOptions::default());
    assert_eq!(params.get_stage_duration(EnvelopeStage::Attack), 1500);
    let mut envelope = EnvelopeControlData {
        delay: None,
        attack: Some(F(2.0)),
        hold: None,
        decay: None,
        sustain_percent: Some(F(3.0)),
        release: None,
    };
    let mut cc = EnvelopeCCControlData {
        delay: None,
        attack: Some(10),
        hold: None,
        decay: Some(128),
        sustain_percent: None,
        release: Some(0),
    };
    let out = EnvelopeRun::get_modified_envelope(params, envelope, cc, F(100.0));
    assert_eq!(out.get_stage_duration(EnvelopeStage::Attack), 200);
    assert_eq!(out.get_stage_duration(EnvelopeStage::Decay), 3200);
    assert_eq!(out.get_stage_duration(EnvelopeStage::Release), 2);
    assert!(matches!(out.parts[4], EnvelopePart::Hold(level) if level == F(1.0)));
    envelope.attack = None;
    cc.attack = Some(32);
    let out = EnvelopeRun::get_modified_envelope(params, envelope, cc, F(100.0));
    assert_eq!(out.get_stage_duration(EnvelopeStage::Attack), 46);
}

#[test]
fn test_simd_add() {
    let src = vec![1.0, 2.0, 3.0, 1.0, 1.0, 1.0, 1.0, 1.0, 1.0];
    let mut dst = vec![0.0, 1.0, 3.0, 1.0, 1.0, 1.0, 1.0, 1.0, 1.0];
    sum_simd(&src, &mut dst);
    assert_eq!(dst, vec![1.0, 3.0, 6.0, 2.0, 2.0, 2.0, 2.0, 2.0, 2.0]);
}

#[test]
fn buffers_are_added_up() {
    let mut target = vec![1, 2, 3];
    sum_buffers_to_target(&[vec![1, 1, 1], vec![10, 20, 30]], &mut target);
    assert_eq!(target, vec![12, 23, 34]);
}

#[test]
fn cached_buffers_are_reused() {
    let mut pool: RenderBufferPool<u32> = RenderBufferPool::new();
    pool.return_render_buffer(vec![7, 7, 7, 7]);
    assert_eq!(pool.get_render_buffer(2), vec![0, 0]);
    assert_eq!(pool.get_render_buffer(3), vec![0, 0, 0]);
    let mut vec = vec![5, 5];
    prepapre_cache_vec(&mut vec, 3, 1);
    assert_eq!(vec, vec![1, 1, 1]);
    fast_zero_fill(&mut vec, 2);
    assert_eq!(vec, vec![0, 0]);
}

#[test]
fn shared_items_are_compared_by_address() {
    let a = Arc::new(1);
    let b = Arc::new(1);
    assert!(are_arc_vecs_equal(&[a.clone(), b.clone()], &[a.clone(), b.clone()]));
    assert!(!are_arc_vecs_equal(&[a.clone(), b.clone()], &[b.clone(), a.clone()]));
    assert!(!are_arc_vecs_equal(&[a.clone()], &[a.clone(), b.clone()]));
    assert!(!all_pairs_same(1, 2, &[true]));
    assert!(all_pairs_same(2, 2, &[true, true]));
}

#[test]
fn decibels_become_amplitudes() {
    assert_eq!(db_to_amp(F(0.0)), F(1.0));
    assert!((db_to_amp(F(20.0)).0 - 10.0).abs() < 1e-5);
}

/// A voice that counts.
#[derive(Clone, Debug, PartialEq)]
struct Tone {
    vel: u8,
    released: bool,
    killed: bool,
    over: bool,
    class: Option<u8>,
    pitch: f32,
}

impl Tone {
    fn new(vel: u8) -> Tone {
        Tone { vel, released: false, killed: false, over: false, class: None, pitch: 1.0 }
    }
}

impl VoiceGeneratorBase for Tone {
    type Control = VoiceControlData<F>;
    fn ended(&self) -> bool {
        self.over
    }
    fn signal_release(&mut self, rel_type: ReleaseType) {
        self.released = true;
        if rel_type == ReleaseType::Kill {
            self.killed = true;
        }
    }
    fn process_controls(&mut self, control: &VoiceControlData<F>) {
        self.pitch = control.voice_pitch_multiplier.0;
    }
}

impl VoiceSampleGenerator for Tone {
    type Sample = f32;
    fn render_to(&mut self, buffer: &mut [f32]) {
        for s in buffer.iter_mut() {
            *s += self.vel as f32;
        }
        if self.released {
            self.over = true;
        }
    }
}

impl Voice for Tone {
    fn is_releasing(&self) -> bool {
        self.released
    }
    fn is_killed(&self) -> bool {
        self.killed
    }
    fn velocity(&self) -> u8 {
        self.vel
    }
    fn exclusive_class(&self) -> Option<u8> {
        self.class
    }
}

fn options(limit: Option<usize>, fade_out_killing: bool) -> ChannelInitOptions {
    ChannelInitOptions { fade_out_killing, max_voices_per_key: limit, global_voice_limit: None }
}

fn new_channel() -> VoiceChannel<F, Tone> {
    VoiceChannel::new(
        options(Some(4), false),
        AudioStreamParams::new(48_000, ChannelCount::Stereo),
    )
}

#[test]
fn coarse_tune_only_uses_data_entry_msb() {
    let mut channel = new_channel();

    channel.process_control_event(ControlEvent::Raw(0x65, 0));
    channel.process_control_event(ControlEvent::Raw(0x64, 2));
    channel.process_control_event(ControlEvent::Raw(0x26, 100));

    assert_eq!(channel.control_event_data.coarse_tune_value, F(0.0));

    channel.process_control_event(ControlEvent::Raw(0x06, 70));

    assert_eq!(channel.control_event_data.coarse_tune_value, F(6.0));
}

#[test]
fn reset_all_controllers_requires_zero_value() {
    let mut channel = new_channel();
    channel.process_control_event(ControlEvent::Raw(0x07, 32));
    channel.process_control_event(ControlEvent::Raw(0x79, 1));

    assert_eq!(channel.control_event_data.volume.end, F(32.0 / 128.0));

    channel.process_control_event(ControlEvent::Raw(0x79, 0));

    assert_eq!(channel.control_event_data.volume.end, F(1.0));
}

#[test]
fn raw_controllers_shape_the_envelope() {
    let mut channel = new_channel();
    channel.process_control_event(ControlEvent::Raw(70, 9));
    assert_eq!(channel.voice_control_data.cc_envelope.decay, None);
    channel.process_control_event(ControlEvent::Raw(75, 10));
    channel.process_control_event(ControlEvent::Raw(79, 11));
    channel.process_control_event(ControlEvent::Raw(94, 12));
    channel.process_control_event(ControlEvent::Raw(73, 13));
    channel.process_control_event(ControlEvent::Raw(72, 14));
    let shape = channel.voice_control_data.cc_envelope;
    assert_eq!(shape.decay, Some(10));
    assert_eq!(shape.sustain_percent, Some(11));
    assert_eq!(shape.delay, Some(12));
    assert_eq!(shape.attack, Some(13));
    assert_eq!(shape.release, Some(14));
}

#[test]
fn pitch_follows_bend_and_tune() {
    let mut channel = new_channel();
    channel.process_control_event(ControlEvent::PitchBendSensitivity(F(12.0)));
    channel.process_control_event(ControlEvent::PitchBendValue(F(1.0)));
    assert_eq!(channel.voice_control_data.voice_pitch_multiplier, F(2.0));
    channel.process_control_event(ControlEvent::CoarseTune(F(12.0)));
    assert_eq!(channel.voice_control_data.voice_pitch_multiplier, F(4.0));
    channel.process_control_event(ControlEvent::FineTune(F(-1200.0)));
    assert_eq!(channel.voice_control_data.voice_pitch_multiplier, F(2.0));
}

#[test]
fn raw_controllers_set_the_filters() {
    let mut channel = new_channel();
    assert!(!channel.control_event_data.is_lowpass_active());
    channel.process_control_event(ControlEvent::Raw(0x4A, 5));
    assert!(channel.control_event_data.is_lowpass_active());
    assert_eq!(channel.control_event_data.cutoff, F(440.0));
    channel.process_control_event(ControlEvent::Raw(0x4A, 63));
    let top = F::key_frequency(127).0;
    let stretched = ((top / 7000.0 - 1.0) * 2.36 + 1.0) * 7000.0;
    assert!((channel.control_event_data.cutoff.0 - stretched).abs() < 0.01);
    channel.process_control_event(ControlEvent::Raw(0x4A, 64));
    assert!(!channel.control_event_data.is_lowpass_active());
    channel.process_control_event(ControlEvent::Raw(0x47, 64));
    assert_eq!(channel.control_event_data.resonance, F::butterworth());
    assert!(!channel.control_event_data.is_highpass_active());
    channel.process_control_event(ControlEvent::HighPassCutoff(F(100.0)));
    assert!(channel.control_event_data.is_highpass_active());
}

#[test]
fn some_controllers_ask_for_more() {
    let mut channel = new_channel();
    assert!(channel.process_control_event(ControlEvent::Raw(0x01, 5)).is_none());
    assert!(matches!(
        channel.process_control_event(ControlEvent::Raw(0x78, 0)),
        Some(ChannelAudioEvent::AllNotesKilled)
    ));
    assert!(matches!(
        channel.process_control_event(ControlEvent::Raw(0x7B, 0)),
        Some(ChannelAudioEvent::AllNotesOff)
    ));
}

#[test]
fn resets_bring_back_the_start() {
    let mut channel = new_channel();
    channel.params.bank = 3;
    channel.params.preset = 4;
    channel.process_control_event(ControlEvent::Expression(F(0.25)));
    channel.reset_control();
    channel.reset_program();
    assert_eq!(channel.params.bank, 0);
    assert_eq!(channel.params.preset, 0);
    assert_eq!(channel.control_event_data.expression.end, F(1.0));
}

#[test]
fn values_move_in_steps() {
    let mut channel = new_channel();
    channel.process_control_event(ControlEvent::Volume(F(0.0)));
    let first = channel.control_event_data.volume.get_next();
    assert!(first.0 < 1.0 && first.0 > 0.99);
    for _ in 0..500 {
        channel.control_event_data.volume.get_next();
    }
    assert_eq!(channel.control_event_data.volume.get_next(), F(0.0));
}

#[test]
fn quietest_group_gives_way() {
    let mut counter: u64 = 0;
    let mut buffer: VoiceBuffer<Tone> = VoiceBuffer::new(options(Some(2), false));
    buffer.push_voices(vec![Tone::new(50)], &mut counter);
    buffer.push_voices(vec![Tone::new(20)], &mut counter);
    assert_eq!(counter, 2);
    buffer.push_voices(vec![Tone::new(30)], &mut counter);
    assert_eq!(counter, 2);
    assert_eq!(buffer.voice_count(), 2);
    let mut out = vec![0.0; 2];
    buffer.render_to(&mut out);
    assert_eq!(out, vec![80.0, 80.0]);
}

#[test]
fn damper_holds_released_voices() {
    let mut counter: u64 = 0;
    let mut buffer: VoiceBuffer<Tone> = VoiceBuffer::new(options(None, false));
    buffer.push_voices(vec![Tone::new(50)], &mut counter);
    buffer.set_damper(true);
    assert_eq!(buffer.release_next_voice(), None);
    let mut out = vec![0.0];
    buffer.render_to(&mut out);
    buffer.remove_ended_voices(&mut counter);
    assert_eq!(buffer.voice_count(), 1);
    buffer.set_damper(false);
    buffer.render_to(&mut out);
    buffer.remove_ended_voices(&mut counter);
    assert!(!buffer.has_voices());
    assert_eq!(counter, 0);
}

/// What still sounds of three groups after `releases` releases: with the damper held meanwhile, or not.
fn left_after(releases: usize, damper: bool) -> (f32, usize) {
    let mut counter: u64 = 0;
    let mut buffer: VoiceBuffer<Tone> = VoiceBuffer::new(options(None, false));
    buffer.push_voices(vec![Tone::new(100)], &mut counter);
    assert_eq!(buffer.release_next_voice(), Some(100));
    buffer.push_voices(vec![Tone::new(50), Tone::new(51)], &mut counter);
    buffer.push_voices(vec![Tone::new(20), Tone::new(21)], &mut counter);
    buffer.push_voices(vec![Tone::new(30), Tone::new(31)], &mut counter);
    let first = [Some(50), Some(20), Some(30), None];
    buffer.set_damper(damper);
    for i in 0..releases {
        let vel = buffer.release_next_voice();
        assert_eq!(vel, if damper { None } else { first[i.min(3)] });
    }
    buffer.set_damper(false);
    buffer.set_damper(false);
    let mut out = vec![0.0];
    buffer.render_to(&mut out);
    buffer.remove_ended_voices(&mut counter);
    let mut out = vec![0.0];
    buffer.render_to(&mut out);
    assert_eq!(counter as usize, buffer.voice_count());
    (out[0], buffer.voice_count())
}

#[test]
fn damper_delays_as_many_releases() {
    let left = [(203.0, 6), (102.0, 4), (61.0, 2), (0.0, 0), (0.0, 0)];
    for (releases, left) in left.into_iter().enumerate() {
        assert_eq!(left_after(releases, false), left);
        assert_eq!(left_after(releases, true), left);
    }
}

fn global(limit: usize) -> ChannelInitOptions {
    ChannelInitOptions {
        fade_out_killing: false,
        max_voices_per_key: None,
        global_voice_limit: Some(limit),
    }
}

#[test]
fn global_limit_cuts_a_batch() {
    let mut counter: u64 = 0;
    let mut buffer: VoiceBuffer<Tone> = VoiceBuffer::new(global(3));
    buffer.push_voices(vec![Tone::new(1), Tone::new(2)], &mut counter);
    assert_eq!(counter, 2);
    buffer.push_voices(vec![Tone::new(4), Tone::new(8), Tone::new(16)], &mut counter);
    assert_eq!(counter, 3);
    assert_eq!(buffer.voice_count(), 3);
    let mut out = vec![0.0];
    buffer.render_to(&mut out);
    assert_eq!(out, vec![7.0]);
    buffer.push_voices(vec![Tone::new(32)], &mut counter);
    assert_eq!(counter, 3);
}

#[test]
fn global_limit_counts_other_keys() {
    let mut counter: u64 = 0;
    let attack = |_key: u8, vel: u8| vec![Tone::new(vel), Tone::new(vel)];
    let release = |_key: u8, _vel: u8| Vec::new();
    let mut low: KeyData<Tone> = KeyData::new(60, global(3));
    let mut high: KeyData<Tone> = KeyData::new(72, global(3));
    low.send_event(KeyNoteEvent::On(100), &attack, &release, &mut counter);
    high.send_event(KeyNoteEvent::On(10), &attack, &release, &mut counter);
    assert_eq!(counter, 3);
    let mut out = vec![0.0];
    high.render_to(&mut out, &mut counter);
    assert_eq!(out, vec![10.0]);
    assert_eq!(counter, 3);
}

#[test]
fn key_plays_and_lets_go() {
    let mut counter: u64 = 0;
    let mut key: KeyData<Tone> = KeyData::new(60, options(Some(4), false));
    let attack = |_key: u8, vel: u8| vec![Tone::new(vel)];
    let release = |_key: u8, _vel: u8| Vec::new();
    key.send_event(KeyNoteEvent::On(100), &attack, &release, &mut counter);
    key.send_event(KeyNoteEvent::On(10), &attack, &release, &mut counter);
    assert_eq!(counter, 2);
    let mut out = vec![0.0; 3];
    key.render_to(&mut out, &mut counter);
    assert_eq!(out, vec![110.0; 3]);
    key.send_event(KeyNoteEvent::AllOff, &attack, &release, &mut counter);
    key.render_to(&mut out, &mut counter);
    assert!(!key.has_voices());
    assert_eq!(counter, 0);
    key.send_event(KeyNoteEvent::On(1), &attack, &release, &mut counter);
    key.send_event(KeyNoteEvent::AllKilled, &attack, &release, &mut counter);
    assert!(!key.has_voices());
    assert_eq!(counter, 0);
}

#[test]
fn release_voices_are_spawned() {
    let mut counter: u64 = 0;
    let mut key: KeyData<Tone> = KeyData::new(60, options(None, false));
    let attack = |_key: u8, vel: u8| vec![Tone::new(vel)];
    let release = |key: u8, vel: u8| vec![Tone::new(key - vel)];
    key.send_event(KeyNoteEvent::On(40), &attack, &release, &mut counter);
    key.send_event(KeyNoteEvent::Off, &attack, &release, &mut counter);
    assert_eq!(counter, 2);
    let mut out = vec![0.0];
    key.render_to(&mut out, &mut counter);
    assert_eq!(out, vec![60.0]);
    assert_eq!(counter, 1);
}

fn buffer(len: usize) -> BufferSampler<F> {
    BufferSampler::new(Arc::new((0..len).map(|i| F(i as f32)).collect()))
}

#[test]
fn readers_loop() {
    let params = LoopParams { offset: 1, start: 2, end: 4 };
    let mut once = SampleReaderNoLoop::new(buffer(5), params);
    assert_eq!(once.get(0), F(1.0));
    assert_eq!(once.get(4), F(0.0));
    assert!(once.is_past_end(4));
    assert!(!once.is_past_end(3));
    assert_eq!(once.get(3), F(4.0));
    assert!(once.is_past_end(u64::MAX));
    let mut looped = SampleReaderLoop::new(buffer(5), LoopParams { offset: 0, start: 2, end: 4 });
    let read: Vec<f32> = (0..9).map(|i| looped.get(i).0).collect();
    assert_eq!(read, vec![0.0, 1.0, 2.0, 3.0, 4.0, 2.0, 3.0, 2.0, 3.0]);
    assert!(!looped.is_past_end(1000));
    let mut sustained =
        SampleReaderLoopSustain::new(buffer(5), LoopParams { offset: 0, start: 2, end: 4 });
    assert!(!sustained.is_past_end(1000));
    sustained.get(3);
    sustained.signal_release();
    assert!(sustained.is_past_end(1000));
}

#[test]
fn sample_ends_where_its_data_ends() {
    let params = LoopParams { offset: 5, start: 0, end: 0 };
    let mut once = SampleReaderNoLoop::new(buffer(10), params);
    assert!(once.is_past_end(7));
    for pos in 0..5 {
        assert!(!once.is_past_end(pos));
        assert_eq!(once.get(pos), F(pos as f32 + 5.0));
    }
    assert!(once.is_past_end(5));
    let params = LoopParams { offset: 3, start: 2, end: 4 };
    let mut looped = SampleReaderLoop::new(buffer(5), params);
    let mut sustained = SampleReaderLoopSustain::new(buffer(5), params);
    let read: Vec<f32> = (0..5).map(|i| looped.get(i).0).collect();
    assert_eq!(read, vec![3.0, 4.0, 2.0, 3.0, 2.0]);
    let read: Vec<f32> = (0..5).map(|i| sustained.get(i).0).collect();
    assert_eq!(read, vec![3.0, 4.0, 2.0, 3.0, 2.0]);
    sustained.signal_release();
    assert!(!sustained.is_past_end(3));
    assert_eq!(sustained.get(3), F(2.0));
    assert!(sustained.is_past_end(4));
}

/// A position in samples.
#[derive(Copy, Clone)]
struct Moment(f64);

impl PlayTime<F> for Moment {
    fn start() -> Moment {
        Moment(0.0)
    }
    fn advanced(self, speed: F) -> Moment {
        Moment(self.0 + speed.0 as f64)
    }
    fn index(self) -> u32 {
        self.0 as u32
    }
    fn position(self) -> u64 {
        self.0 as u64
    }
    fn fraction(self) -> F {
        F((self.0 % 1.0) as f32)
    }
}

struct PitchOf;

impl ControlPick<F> for PitchOf {
    fn update(&self, control: &VoiceControlData<F>) -> F {
        control.voice_pitch_multiplier
    }
}

fn slow() -> VoiceControlData<F> {
    let mut control: VoiceControlData<F> = VoiceControlData::new_defaults();
    control.voice_pitch_multiplier = F(0.5);
    control
}

fn grabber(len: usize) -> SIMDLinearSampleGrabber<SampleReaderNoLoop<F>> {
    SIMDLinearSampleGrabber::new(SampleReaderNoLoop::new(
        buffer(len),
        LoopParams { offset: 0, start: 0, end: 0 },
    ))
}

#[test]
fn linear_grabber_interpolates() {
    let mut grabber = grabber(4);
    assert_eq!(
        grabber.get(&vec![0, 1, 2], &vec![F(0.5), F(0.25), F(0.0)]),
        vec![F(0.5), F(1.25), F(2.0)]
    );
}

#[test]
fn mono_voice_renders_a_slow_sample() {
    let control = slow();
    let pitch = SIMDVoiceControl::new(&control, PitchOf, 4);
    let sampler: SIMDMonoVoiceSampler<Moment, _, _> =
        SIMDMonoVoiceSampler::new::<F>(grabber(8), pitch);
    let mut voice = SIMDMonoVoice::new(sampler);
    let mut out = vec![F(100.0); 6];
    voice.render_to(&mut out);
    assert_eq!(
        out,
        vec![F(100.0), F(100.5), F(101.0), F(101.5), F(102.0), F(102.5)]
    );
    let mut more = vec![F(0.0); 3];
    voice.render_to(&mut more);
    assert_eq!(more, vec![F(3.0), F(3.5), F(4.0)]);
    assert!(!voice.ended());
}

#[test]
fn stereo_voice_interleaves() {
    let control = slow();
    let pitch = SIMDVoiceControl::new(&control, PitchOf, 4);
    let sampler: SIMDStereoVoiceSampler<Moment, _, _> =
        SIMDStereoVoiceSampler::new::<F>(grabber(8), grabber(3), pitch);
    let mut voice = SIMDStereoVoice::new(sampler);
    let mut out = vec![F(0.0); 10];
    voice.render_to(&mut out);
    let left: Vec<F> = out.iter().step_by(2).copied().collect();
    assert_eq!(left, vec![F(0.0), F(0.5), F(1.0), F(1.5), F(2.0)]);
    let right: Vec<F> = out.iter().skip(1).step_by(2).copied().collect();
    assert_eq!(right[..4], left[..4]);
}

#[test]
fn slow_speeds_still_move() {
    let mut control: VoiceControlData<F> = VoiceControlData::new_defaults();
    control.voice_pitch_multiplier = F(-1.0);
    let pitch = SIMDVoiceControl::new(&control, PitchOf, 4);
    let mut sampler: SIMDMonoVoiceSampler<Moment, _, _> =
        SIMDMonoVoiceSampler::new::<F>(grabber(8), pitch);
    assert_eq!(sampler.next_sample(), vec![F(0.0), F(1.0), F(2.0), F(3.0)]);
    control.voice_pitch_multiplier = F(0.0);
    sampler.process_controls(&control);
    sampler.next_sample();
    assert!((sampler.time.0 - 4.0004).abs() < 1e-6);
}

#[test]
fn limiter_holds_loud_audio() {
    let mut limiter: VolumeLimiter<F> = VolumeLimiter::new(2);
    let mut sample = vec![F(0.5), F(8.0), F(-0.5), F(-8.0)];
    limiter.limit(&mut sample);
    assert_eq!(sample[0], F(0.5));
    assert_eq!(sample[1], F(0.99));
    assert_eq!(sample[2], F(-0.5));
    assert_eq!(sample[3], F(-0.99));
}

#[test]
fn limiter_channels_are_apart() {
    let mut both: VolumeLimiter<F> = VolumeLimiter::new(2);
    let mut one: VolumeLimiter<F> = VolumeLimiter::new(1);
    let left: Vec<F> = (0..50).map(|i| F(i as f32 * 0.1)).collect();
    let mixed: Vec<F> = left.iter().flat_map(|v| vec![*v, F(3.0)]).collect();
    let alone = one.limit_iter(left);
    let together = both.limit_iter(mixed);
    let back: Vec<F> = together.iter().step_by(2).copied().collect();
    assert_eq!(alone, back);
}

/// A reading position.
#[derive(Copy, Clone, Debug, PartialEq)]
struct P(f64);

impl Scalar for P {
    fn ratio(num: i64, den: i64) -> P {
        P(num as f64 / den as f64)
    }
    fn plus(self, other: P) -> P {
        P(self.0 + other.0)
    }
    fn minus(self, other: P) -> P {
        P(self.0 - other.0)
    }
    fn times(self, other: P) -> P {
        P(self.0 * other.0)
    }
    fn over(self, other: P) -> P {
        P(self.0 / other.0)
    }
    fn less(self, other: P) -> bool {
        self.0 < other.0
    }
    fn at_most(self, other: P) -> bool {
        self.0 <= other.0
    }
    fn same(self, other: P) -> bool {
        self.0 == other.0
    }
    fn lowest(self, other: P) -> P {
        P(self.0.min(other.0))
    }
    fn highest(self, other: P) -> P {
        P(self.0.max(other.0))
    }
    fn held(self, low: P, high: P) -> P {
        P(self.0.clamp(low.0, high.0))
    }
    fn magnitude(self) -> P {
        P(self.0.abs())
    }
    fn sign(self) -> P {
        P(self.0.signum())
    }
    fn fractional(self) -> P {
        P(self.0 % 1.0)
    }
    fn raised(self, exponent: P) -> P {
        P(self.0.powf(exponent.0))
    }
    fn raised_to(self, exponent: u32) -> P {
        P(self.0.powi(exponent as i32))
    }
    fn butterworth() -> P {
        P(0.70710678)
    }
    fn key_frequency(key: u8) -> P {
        P(440.0 * 2f64.powf((key as f64 - 69.0) / 12.0))
    }
    fn whole(self) -> u64 {
        self.0 as u64
    }
}

impl SourcePosition<F> for P {
    fn step(from_rate: F, to_rate: F) -> P {
        P((from_rate.0 / to_rate.0) as f64)
    }
    fn beyond(self, index: u64) -> F {
        F((self.0 - index as f64) as f32)
    }
}

#[test]
fn resampling_interpolates() {
    let input = vec![F(0.0), F(1.0), F(4.0)];
    let doubled = resample_fast::<F, P>(&input, F(22_050.0), F(44_100.0));
    assert_eq!(*doubled, vec![F(0.0), F(0.5), F(1.0), F(2.5), F(4.0)]);
    let halved = resample_vec::<F, P>(input.clone(), F(2.0), F(1.0));
    assert_eq!(*halved, vec![F(0.0), F(4.0)]);
    let same = resample_fast::<F, P>(&input, F(5.0), F(5.0));
    assert_eq!(*same, input);
    let empty = resample_fast::<F, P>(&Vec::new(), F(5.0), F(6.0));
    assert!(empty.is_empty());
    let several = resample_vecs::<F, P>(vec![input.clone(), vec![F(3.0)]], F(1.0), F(2.0));
    assert_eq!(several.len(), 2);
    assert_eq!(*several[1], vec![F(3.0)]);
}

#[test]
fn resampling_scales_whole_numbers() {
    let out = resample_i16::<F, P>(&vec![0, 32_767, -32_767], F(1.0), F(1.0));
    assert_close(&out, &[0.0, 1.0, -1.0], 1e-6);
}

#[test]
fn samples_become_amplitudes() {
    let mut sample = Sf2Sample {
        data: vec![0, 32_767, -32_767],
        full_scale: FULL_SCALE_16,
        resample: false,
        link_type: 0,
        loop_start: 0,
        loop_end: 0,
        sample_rate: 22_050,
        origpitch: 60,
        pitchadj: 0,
    };
    assert_eq!(*sample.amplitudes::<F, P>(44_100), vec![F(0.0), F(1.0), F(-1.0)]);
    sample.resample = true;
    assert_close(
        &sample.amplitudes::<F, P>(44_100),
        &[0.0, 0.5, 1.0, 0.0, -1.0],
        1e-6,
    );
    sample.full_scale = FULL_SCALE_24;
    sample.data = vec![0x4000_0000];
    assert_close(&sample.amplitudes::<F, P>(44_100), &[0.5], 1e-6);
}

#[test]
fn long_stretches_are_rendered_in_chunks() {
    assert!(matches!(
        next_chunk(F(25.0), true),
        Chunk::Whole { time, rest } if time == F(10.0) && rest == F(15.0)
    ));
    assert!(matches!(next_chunk(F(10.0), true), Chunk::Last(time) if time == F(10.0)));
    assert!(matches!(next_chunk(F(0.0), true), Chunk::Last(_)));
    assert!(matches!(next_chunk(F(0.0), false), Chunk::Done));
}

#[test]
fn leftover_samples_are_kept() {
    let mut progress: OfflineProgress<F> =
        OfflineProgress::new(AudioStreamParams::new(10, ChannelCount::Stereo));
    assert_eq!(progress.batch_len(F(0.25)), Some(4));
    assert_eq!(progress.batch_len(F(0.25)), Some(6));
    progress.wrote(4);
    progress.wrote(6);
    assert_eq!(progress.frames_written(), 5);
    assert_eq!(progress.tail_len(), 20);
    assert_eq!(progress.format().channels, 2);
    assert_eq!(progress.format().sample_rate, 10);
    assert_eq!(progress.format().bits_per_sample, 32);
    assert_eq!(progress.get_params().sample_rate, 10);
    assert_eq!(progress.batch_len(F(f32::INFINITY)), None);
}

#[test]
fn rendering_ends_when_it_is_quiet() {
    assert!(all_quiet(&vec![F(0.0), F(-0.0001), F(0.00005)]));
    assert!(!all_quiet(&vec![F(0.0), F(-0.001)]));
    assert!(!all_quiet(&vec![F(f32::NAN)]));
}

#[test]
fn setup_gives_soundfonts_then_layers() {
    let events = setup_events::<F, u32>(7, Some(3));
    assert_eq!(events.len(), 2);
    assert!(matches!(
        events[0],
        SynthEvent::AllChannels(ChannelEvent::Config(ChannelConfigEvent::SetSoundfonts(7)))
    ));
    assert!(matches!(
        events[1],
        SynthEvent::AllChannels(ChannelEvent::Config(ChannelConfigEvent::SetLayerCount(Some(3))))
    ));
}
