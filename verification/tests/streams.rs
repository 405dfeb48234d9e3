use xsynth::buffered_renderer::{
    render_delay, BufferedRenderer, LoadQueue, RenderAction, RenderEvent, RenderLoop,
};
use xsynth::channel::event::{
    ChannelAudioEvent, ChannelConfigEvent, ChannelEvent, ControlEvent, SynthEvent,
};
use xsynth::channel::voice_buffer::ChannelInitOptions;
use xsynth::kdmapi::{after_step, first_step, kdmapi_version, GlobalState, InitAction, InitStep};
use xsynth::range::ByteRange;
use xsynth::realtime::config::{
    calculate_render_size, is_slow, RealtimeRenderMode, SynthFormat, ThreadCount, XSynthRealtimeConfig,
};
use xsynth::realtime::event_senders::{
    decode_u32, should_send_for_vel_and_nps, EventSender, Outgoing, RoughNpsTracker,
};
use xsynth::realtime::realtime_synth::{
    build_senders, initial_setup, total_voices, Backoff, RealtimeSynthStats,
    RealtimeSynthStatsReader, RenderCollector, RenderPerfShared,
};
use xsynth::scalar::Scalar;
use xsynth::stream::{AudioStreamParams, ChannelCount};

/// A single precision amplitude.
#[derive(Copy, Clone, Debug, PartialEq, PartialOrd, Default)]
struct F(f32);

impl Scalar for F {
    fn ratio(num: i64, den: i64) -> F {
        F((num as f64 / den as f64) as f32)
    }
    fn plus(self, other: F) -> F {
        F(self.0 + other.0)
    }
    fn minus(self, other: F) -> F {
        F(self.0 - other.0)
    }
    fn times(self, other: F) -> F {
        F(self.0 * other.0)
    }
    fn over(self, other: F) -> F {
        F(self.0 / other.0)
    }
    fn less(self, other: F) -> bool {
        self.0 < other.0
    }
    fn at_most(self, other: F) -> bool {
        self.0 <= other.0
    }
    fn same(self, other: F) -> bool {
        self.0 == other.0
    }
    fn lowest(self, other: F) -> F {
        F(self.0.min(other.0))
    }
    fn highest(self, other: F) -> F {
        F(self.0.max(other.0))
    }
    fn held(self, low: F, high: F) -> F {
        F(self.0.clamp(low.0, high.0))
    }
    fn magnitude(self) -> F {
        F(self.0.abs())
    }
    fn sign(self) -> F {
        F(self.0.signum())
    }
    fn fractional(self) -> F {
        F(self.0 % 1.0)
    }
    fn raised(self, exponent: F) -> F {
        F(self.0.powf(exponent.0))
    }
    fn raised_to(self, exponent: u32) -> F {
        F(self.0.powi(exponent as i32))
    }
    fn butterworth() -> F {
        F(0.70710678)
    }
    fn key_frequency(key: u8) -> F {
        F(440.0 * 2f32.powf((key as f32 - 69.0) / 12.0))
    }
    fn whole(self) -> u64 {
        self.0 as u64
    }
}

const MS: u64 = 1_000_000;

fn params() -> AudioStreamParams {
    AudioStreamParams::new(48_000, ChannelCount::Stereo)
}

#[test]
fn reads_join_buffers() {
    let mut renderer: BufferedRenderer<i32> = BufferedRenderer::new(params(), 4);
    let mut dest = vec![0; 5];
    renderer.count_rendered(8);
    let unused = renderer.read(&mut dest, vec![vec![1, 2, 3], vec![4, 5, 6], vec![7, 8]]);
    assert_eq!(dest, vec![1, 2, 3, 4, 5]);
    assert_eq!(unused, vec![vec![7, 8]]);
    let mut dest = vec![0; 2];
    let unused = renderer.read(&mut dest, unused);
    assert_eq!(dest, vec![6, 7]);
    assert!(unused.is_empty());
    let mut dest = vec![9; 3];
    renderer.read(&mut dest, Vec::new());
    assert_eq!(dest, vec![8, 0, 0]);
    let stats = renderer.get_buffer_stats();
    assert_eq!(stats.render_size(), 4);
    assert_eq!(renderer.stream_params(), params());
    renderer.set_render_size(7);
    assert_eq!(renderer.get_buffer_stats().render_size(), 7);
}

#[test]
fn reads_are_counted() {
    let mut renderer: BufferedRenderer<i32> = BufferedRenderer::new(params(), 4);
    let counters = |renderer: &BufferedRenderer<i32>| {
        let stats = renderer.get_buffer_stats();
        (stats.samples(), stats.last_request_samples(), stats.last_samples_after_read())
    };
    assert_eq!(counters(&renderer), (0, 0, 0));
    renderer.count_rendered(8);
    assert_eq!(counters(&renderer), (8, 0, 0));
    let unused = renderer.read(&mut [0; 5], vec![vec![1; 4], vec![2; 4]]);
    assert!(unused.is_empty());
    assert_eq!(counters(&renderer), (3, 5, 8));
    renderer.read(&mut [0; 2], Vec::new());
    assert_eq!(counters(&renderer), (1, 2, 3));
    renderer.read(&mut [0; 4], Vec::new());
    assert_eq!(counters(&renderer), (-3, 4, 1));
    renderer.count_rendered(4);
    assert_eq!(counters(&renderer), (1, 4, 1));
}

#[test]
fn slow_renders_are_warned_of() {
    assert!(is_slow(F(5.5), F(5.0)));
    assert!(!is_slow(F(5.0), F(5.0)));
    assert!(!is_slow(F(4.0), F(5.0)));
    assert!(!is_slow(F(4.0), F(0.0)));
    assert!(!is_slow(F(4.0), F(-1.0)));
}

#[test]
fn render_loop_waits_when_it_is_ahead() {
    let mut render_loop = RenderLoop::new(params());
    assert_eq!(render_delay(48, 48_000), 900_000);
    assert_eq!(render_loop.handle(RenderEvent::Size(48)), RenderAction::LoadLevels);
    assert_eq!(
        render_loop.handle(RenderEvent::Levels { samples: 111, last_requested: 100 }),
        RenderAction::Sleep { time: 90_000 }
    );
    assert_eq!(
        render_loop.handle(RenderEvent::Slept { killed: false }),
        RenderAction::LoadLevels
    );
    assert_eq!(
        render_loop.handle(RenderEvent::Levels { samples: 110, last_requested: 100 }),
        RenderAction::Render { len: 96 }
    );
    assert_eq!(
        render_loop.handle(RenderEvent::Sent { delivered: true }),
        RenderAction::Record { allowed: 900_000 }
    );
    assert_eq!(
        render_loop.handle(RenderEvent::Recorded { elapsed: 400_000 }),
        RenderAction::Sleep { time: 500_000 }
    );
    assert_eq!(
        render_loop.handle(RenderEvent::Slept { killed: false }),
        RenderAction::LoadSize
    );
    render_loop.handle(RenderEvent::Size(48));
    render_loop.handle(RenderEvent::Levels { samples: 1, last_requested: 0 });
    assert_eq!(
        render_loop.handle(RenderEvent::Slept { killed: true }),
        RenderAction::Stop
    );
}

#[test]
fn render_loop_stops_when_nobody_listens() {
    let mut render_loop = RenderLoop::new(params());
    render_loop.handle(RenderEvent::Size(48));
    render_loop.handle(RenderEvent::Levels { samples: 0, last_requested: 0 });
    assert_eq!(
        render_loop.handle(RenderEvent::Sent { delivered: false }),
        RenderAction::Stop
    );
}

#[test]
fn load_is_averaged_over_the_last_hundred() {
    let mut queue: LoadQueue<F> = LoadQueue::new();
    assert_eq!(queue.average_renderer_load(), F(0.0));
    assert_eq!(queue.last_renderer_load(), F(0.0));
    queue.record(F(1.0));
    queue.record(F(0.5));
    assert_eq!(queue.average_renderer_load(), F(0.75));
    assert_eq!(queue.last_renderer_load(), F(0.5));
    for _ in 0..100 {
        queue.record(F(0.25));
    }
    assert_eq!(queue.average_renderer_load(), F(0.25));
}

#[test]
fn notes_are_counted_within_a_second() {
    let mut tracker = RoughNpsTracker::new(0);
    for _ in 0..5 {
        tracker.add_note();
    }
    assert_eq!(tracker.calculate_nps(1), 333);
    tracker.check_time(30 * MS);
    tracker.add_note();
    assert_eq!(tracker.calculate_nps(40 * MS), 66);
    assert_eq!(tracker.calculate_nps(60 * MS), 6);
    assert_eq!(tracker.calculate_nps(3000 * MS), 0);
}

#[test]
fn loud_notes_are_kept_longer() {
    assert!(should_send_for_vel_and_nps(1, u64::MAX - 1, u64::MAX));
    assert!(should_send_for_vel_and_nps(1, 1000, 0));
    assert!(should_send_for_vel_and_nps(115, 900, 1000));
    assert!(!should_send_for_vel_and_nps(114, 900, 1000));
    assert!(!should_send_for_vel_and_nps(127, 1000, 1000));
}

fn sender(max_nps: u64) -> EventSender {
    EventSender::new(max_nps, RealtimeRenderMode::Threaded, ByteRange::new(0, 0), 0)
}

#[test]
fn ignored_notes_leave_nothing() {
    let mut sender = sender(u64::MAX);
    let on: ChannelAudioEvent<F> = ChannelAudioEvent::NoteOn { key: 60, vel: 0 };
    let off: ChannelAudioEvent<F> = ChannelAudioEvent::NoteOff { key: 60 };
    assert!(sender.send_audio::<F, u8>(0, on, 0).is_none());
    assert!(sender.send_audio::<F, u8>(0, off, 0).is_none());
    assert!(sender.send_audio::<F, u8>(0, off, 0).is_some());
    let on: ChannelAudioEvent<F> = ChannelAudioEvent::NoteOn { key: 60, vel: 1 };
    assert!(sender.send_audio::<F, u8>(0, on, 0).is_some());
}

#[test]
fn withheld_notes_balance() {
    let mut sender =
        EventSender::new(u64::MAX, RealtimeRenderMode::Threaded, ByteRange::new(0, 10), 0);
    // A start with its velocity, or an end, and whether something is sent.
    let history = [
        (60, Some(5), false),
        (60, Some(5), false),
        (60, Some(90), true),
        (61, None, true),
        (60, None, false),
        (61, Some(5), false),
        (60, None, false),
        (60, None, true),
        (60, None, true),
        (61, None, false),
        (61, None, true),
    ];
    for (key, vel, sends) in history {
        let event: ChannelAudioEvent<F> = match vel {
            Some(vel) => ChannelAudioEvent::NoteOn { key, vel },
            None => ChannelAudioEvent::NoteOff { key },
        };
        assert_eq!(sender.send_audio::<F, u8>(0, event, 0).is_some(), sends);
    }
    let on: ChannelAudioEvent<F> = ChannelAudioEvent::NoteOn { key: 60, vel: 5 };
    let off: ChannelAudioEvent<F> = ChannelAudioEvent::NoteOff { key: 60 };
    assert!(sender.send_audio::<F, u8>(0, on, 0).is_none());
    sender.set_ignore_range(ByteRange::new(0, 0));
    assert!(sender.send_audio::<F, u8>(0, on, 0).is_some());
    assert!(sender.send_audio::<F, u8>(0, off, 0).is_none());
    assert!(sender.send_audio::<F, u8>(0, off, 0).is_some());
}

#[test]
fn withheld_note_swallows_one_end() {
    let mut sender =
        EventSender::new(u64::MAX, RealtimeRenderMode::ChannelGroup, ByteRange::new(0, 10), 0);
    assert!(sender.send_note_on::<F, u8>(3, 60, 5, 0).is_none());
    assert!(sender.send_note_off::<F, u8>(3, 61).is_some());
    assert!(sender.send_note_off::<F, u8>(3, 60).is_none());
    assert!(matches!(
        sender.send_note_off::<F, u8>(3, 60),
        Some(Outgoing::ToSynth(SynthEvent::Channel(
            3,
            ChannelEvent::Audio(ChannelAudioEvent::NoteOff { key: 60 })
        )))
    ));
    assert!(matches!(
        sender.send_note_on::<F, u8>(3, 60, 90, 0),
        Some(Outgoing::ToSynth(SynthEvent::Channel(
            3,
            ChannelEvent::Audio(ChannelAudioEvent::NoteOn { key: 60, vel: 90 })
        )))
    ));
}

#[test]
fn duplicated_sender_starts_without_notes() {
    let mut first = sender(u64::MAX);
    let on: ChannelAudioEvent<F> = ChannelAudioEvent::NoteOn { key: 60, vel: 0 };
    let off: ChannelAudioEvent<F> = ChannelAudioEvent::NoteOff { key: 60 };
    first.send_audio::<F, u8>(0, on, 0);
    let mut second = first.duplicate(0);
    assert!(second.send_audio::<F, u8>(0, off, 0).is_some());
    first.forget_skipped();
    assert!(first.send_audio::<F, u8>(0, off, 0).is_some());
}

#[test]
fn raw_messages_are_decoded() {
    assert!(matches!(
        decode_u32::<F, u8>(0x0064_3C91),
        Some(SynthEvent::Channel(
            1,
            ChannelEvent::Audio(ChannelAudioEvent::NoteOn { key: 60, vel: 100 })
        ))
    ));
    assert!(matches!(
        decode_u32::<F, u8>(0x0000_3C82),
        Some(SynthEvent::Channel(2, ChannelEvent::Audio(ChannelAudioEvent::NoteOff { key: 60 })))
    ));
    assert!(matches!(
        decode_u32::<F, u8>(0x0000_05C3),
        Some(SynthEvent::Channel(3, ChannelEvent::Audio(ChannelAudioEvent::ProgramChange(5))))
    ));
    assert!(matches!(
        decode_u32::<F, u8>(0x0040_00E0),
        Some(SynthEvent::Channel(
            0,
            ChannelEvent::Audio(ChannelAudioEvent::Control(ControlEvent::PitchBendValue(F(v))))
        )) if v == 0.0
    ));
    assert!(decode_u32::<F, u8>(0x0000_0000).is_none());
}

#[test]
fn threaded_senders_get_their_own_channel() {
    let mut senders =
        build_senders(16, u64::MAX, RealtimeRenderMode::Threaded, ByteRange::new(0, 0), 0);
    let sent = senders.send_event_u32::<F, u8>(0x0064_3C91, 0);
    assert_eq!(sent.len(), 1);
    assert_eq!(sent[0].0, 1);
    assert!(matches!(
        sent[0].1,
        Outgoing::ToChannel(ChannelEvent::Audio(ChannelAudioEvent::NoteOn { key: 60, vel: 100 }))
    ));
    let all = senders.send_event::<F, u8>(
        SynthEvent::AllChannels(ChannelEvent::Config(ChannelConfigEvent::SetLayerCount(None))),
        0,
    );
    assert_eq!(all.len(), 16);
}

#[test]
fn duplicated_senders_keep_their_settings() {
    let mut senders =
        build_senders(2, u64::MAX, RealtimeRenderMode::Threaded, ByteRange::new(0, 10), 0);
    assert!(senders.send_event_u32::<F, u8>(0x0005_3C90, 0).is_empty());
    let mut copy = senders.duplicate(0);
    assert!(copy.send_event_u32::<F, u8>(0x0005_3C90, 0).is_empty());
    assert_eq!(copy.send_event_u32::<F, u8>(0x000B_3C91, 0).len(), 1);
    senders.set_ignore_range(ByteRange::new(0, 0));
    assert_eq!(senders.send_event_u32::<F, u8>(0x0005_3C90, 0).len(), 1);
    assert!(copy.send_event_u32::<F, u8>(0x0005_3C90, 0).is_empty());
}

#[test]
fn group_senders_send_once() {
    let mut senders =
        build_senders(16, u64::MAX, RealtimeRenderMode::ChannelGroup, ByteRange::new(0, 0), 0);
    let all = senders.send_event::<F, u8>(
        SynthEvent::AllChannels(ChannelEvent::Config(ChannelConfigEvent::SetLayerCount(None))),
        0,
    );
    assert_eq!(all.len(), 1);
    let reset = senders.reset_synth::<F, u8>(0);
    assert!(!reset.is_empty());
}

#[test]
fn configuration_has_defaults() {
    let options =
        ChannelInitOptions { fade_out_killing: false, max_voices_per_key: Some(4), global_voice_limit: None };
    let config: XSynthRealtimeConfig<F> = XSynthRealtimeConfig::with_channels(options);
    assert_eq!(config.render_window_ms, F(10.0));
    assert_eq!(config.format, SynthFormat::Midi);
    assert_eq!(config.max_nps, u64::MAX);
    assert_eq!(config.render_mode, RealtimeRenderMode::ChannelGroup);
    assert_eq!(SynthFormat::Midi.channel_count(), 16);
    assert_eq!(SynthFormat::Custom { channels: 3 }.channel_count(), 3);
    assert_eq!(ThreadCount::Off.for_channel_group(), ThreadCount::Auto);
    assert_eq!(ThreadCount::Manual(3).pool(), Some(Some(3)));
    assert_eq!(calculate_render_size(48_000, F(10.0)), 480);
}

#[test]
fn percussion_is_on_the_tenth_channel() {
    assert!(matches!(
        initial_setup::<u8>(SynthFormat::Midi),
        Some((9, ChannelConfigEvent::SetPercussionMode(true)))
    ));
    assert!(initial_setup::<u8>(SynthFormat::Custom { channels: 16 }).is_none());
    assert_eq!(total_voices(&vec![1, 2, 3]), 6);
}

#[test]
fn collector_adds_up_the_channels() {
    let mut collector: RenderCollector<i32> = RenderCollector::new(2);
    assert!(collector.is_complete());
    let buffers = collector.dispatch(3);
    assert_eq!(buffers, vec![vec![0; 3], vec![0; 3]]);
    assert!(!collector.is_complete());
    let mut out = vec![1, 1, 1];
    collector.collect(vec![1, 2, 3], &mut out);
    assert_eq!(collector.back_off(), Backoff::Yield);
    collector.collect(vec![10, 20, 30], &mut out);
    assert_eq!(out, vec![12, 23, 34]);
    assert!(collector.is_complete());
    for _ in 0..1024 {
        assert_eq!(collector.back_off(), Backoff::Yield);
    }
    assert_eq!(collector.back_off(), Backoff::Sleep { micros: 10 });
}

#[test]
fn performance_keeps_the_peak() {
    let mut perf = RenderPerfShared::new();
    perf.record(5_000, 2);
    perf.record(3_000, 1);
    let stats = perf.snapshot();
    assert_eq!(stats.last_render_us, 3);
    assert_eq!(stats.peak_render_us, 5);
    assert_eq!(stats.last_event_count, 1);
}

#[test]
fn stats_are_read() {
    let renderer: BufferedRenderer<i32> = BufferedRenderer::new(params(), 4);
    let mut stats = RealtimeSynthStats::new();
    assert_eq!(stats.voice_count, 0);
    stats.voice_count = 12;
    let reader = RealtimeSynthStatsReader::new(stats, renderer.get_buffer_stats());
    assert_eq!(reader.voice_count(), 12);
    assert_eq!(reader.buffer().samples(), 0);
}

#[test]
fn stream_starts_step_by_step() {
    let mut step = first_step();
    let mut taken = vec![step];
    let mut going = true;
    while going {
        match after_step(step, true) {
            InitAction::Go(next) => {
                step = next;
                taken.push(next);
            }
            InitAction::Fail { .. } => panic!("nothing failed"),
            InitAction::Done => going = false,
        }
    }
    assert_eq!(taken.len(), 10);
    assert_eq!(step, InitStep::Install);
    assert_eq!(kdmapi_version(), (4, 1, 0, 5));
}

#[test]
fn failed_start_says_why() {
    let complaints = vec![
        (InitStep::LoadSettings, "failed to load settings.json", false),
        (InitStep::LoadSoundfonts, "failed to load soundfonts.json", false),
        (InitStep::FindSettings, "failed to resolve settings.json path", false),
        (InitStep::FindSoundfonts, "failed to resolve soundfonts.json path", false),
        (InitStep::OpenSynth, "failed to open realtime synth", false),
        (InitStep::CreateWatcher, "failed to initialize file watcher", true),
        (InitStep::WatchSettings, "failed to watch settings.json", true),
        (InitStep::WatchSoundfonts, "failed to watch soundfonts.json", true),
    ];
    for (step, expected, stops) in complaints {
        match after_step(step, false) {
            InitAction::Fail { complaint, stop_stats } => {
                assert_eq!(complaint, expected);
                assert_eq!(stop_stats, stops);
            }
            _ => panic!("the failure was passed over"),
        }
    }
}

#[test]
fn stream_ends_once() {
    let mut state: GlobalState<u8> = GlobalState::new();
    assert_eq!(state.is_available(), 0);
    assert_eq!(state.terminate(), (0, None));
    assert_eq!(state.install(1), None);
    assert_eq!(state.install(2), Some(1));
    state.set_voice_count(9);
    assert_eq!(state.is_available(), 1);
    assert_eq!(state.synth_ref(), Some(&2));
    assert_eq!(state.get_voice_count(), 9);
    assert_eq!(state.terminate(), (1, Some(2)));
    assert_eq!(state.get_voice_count(), 0);
    assert_eq!(state.terminate(), (0, None));
}
