use xsynth::range::ByteRange;
use xsynth::soundfonts::sf2::modulator::{
    default_note_modulators, default_raw_envelope, keynum_to_timecents, Sf2NoteController,
    Sf2NoteCurve, Sf2NoteModDestination, Sf2NoteModulator, Sf2Region, AMOUNT_UNIT, CONCAVE_TABLE,
    CONVEX_TABLE, SOURCE_UNIT,
};
use xsynth::soundfonts::sf2::raw::{
    ControllerPalette, GeneralPalette, Generator, GeneratorAmount, GeneratorAmountRange,
    GeneratorType, Modulator, ModulatorSource, ModulatorTransform, SourceDirection,
    SourcePolarity, SourceType, Zone,
};
use xsynth::soundfonts::sf2::sample::{
    ChunkContents, SampleHeader, SampleLink, Sf2ParseError, Sf2Sample, FULL_SCALE_16,
    FULL_SCALE_24,
};
use xsynth::soundfonts::sf2::zone::Sf2Zone;
use xsynth::soundfonts::sfz::defines::apply_defines;
use xsynth::soundfonts::LoopMode;

fn source(
    palette: ControllerPalette,
    direction: SourceDirection,
    polarity: SourcePolarity,
    ty: SourceType,
) -> ModulatorSource {
    ModulatorSource { index: 0, controller_palette: palette, direction, polarity, ty }
}

fn velocity(direction: SourceDirection, ty: SourceType) -> ModulatorSource {
    source(
        ControllerPalette::General(GeneralPalette::NoteOnVelocity),
        direction,
        SourcePolarity::Unipolar,
        ty,
    )
}

fn no_controller() -> ModulatorSource {
    source(
        ControllerPalette::General(GeneralPalette::NoController),
        SourceDirection::Positive,
        SourcePolarity::Unipolar,
        SourceType::Linear,
    )
}

/// The value of a modulator as a plain number.
fn number(value: i128) -> f64 {
    value as f64 / AMOUNT_UNIT as f64
}

#[test]
fn parses_velocity_attack_modulator() {
    let modulator = Modulator {
        src: velocity(SourceDirection::Positive, SourceType::Linear),
        dest: GeneratorType::AttackVolEnv,
        amount: 2400,
        amt_src: no_controller(),
        transform: ModulatorTransform::Linear,
    };

    let parsed = Sf2NoteModulator::parse(&modulator).unwrap();
    let value = number(parsed.evaluate(0, 127));
    assert!((value - 2400.0).abs() < 0.001);
}

#[test]
fn parses_switch_secondary_source() {
    let modulator = Modulator {
        src: velocity(SourceDirection::Negative, SourceType::Linear),
        dest: GeneratorType::InitialFilterFc,
        amount: -2400,
        amt_src: velocity(SourceDirection::Negative, SourceType::Switch),
        transform: ModulatorTransform::Linear,
    };

    let parsed = Sf2NoteModulator::parse(&modulator).unwrap();
    assert_eq!(number(parsed.evaluate(60, 100)), 0.0);
    assert!(number(parsed.evaluate(60, 40)) < 0.0);
}

#[test]
fn concave_curve_matches_reference_table() {
    let modulator = Modulator {
        src: velocity(SourceDirection::Negative, SourceType::Concave),
        dest: GeneratorType::InitialAttenuation,
        amount: 960,
        amt_src: no_controller(),
        transform: ModulatorTransform::Linear,
    };

    let parsed = Sf2NoteModulator::parse(&modulator).unwrap();
    let value = number(parsed.evaluate(0, 64));
    let expected = 960.0 * (CONCAVE_TABLE[63] as f64 / 1_000_000_000.0);
    assert!((value - expected).abs() < 0.001);
}

#[test]
fn default_velocity_filter_is_suppressed_by_explicit_velocity_filter_mod() {
    let default = Sf2NoteModulator::default_velocity_to_filter_cutoff();
    let explicit = Sf2NoteModulator::parse(&Modulator {
        src: velocity(SourceDirection::Negative, SourceType::Linear),
        dest: GeneratorType::InitialFilterFc,
        amount: 0,
        amt_src: velocity(SourceDirection::Positive, SourceType::Switch),
        transform: ModulatorTransform::Linear,
    })
    .unwrap();

    assert!(explicit.suppresses_default(&default));
}

#[test]
fn keynum_to_hold_tracks_around_middle_c() {
    assert_eq!(keynum_to_timecents(50, 60), 0);
    assert_eq!(keynum_to_timecents(50, 36), 1200);
    assert_eq!(keynum_to_timecents(50, 84), -1200);
}

#[test]
fn apply_defines_replaces_multiple_variables() {
    let defines = vec![
        ("$BASE".to_owned(), "samples".to_owned()),
        ("$NAME".to_owned(), "kick.wav".to_owned()),
    ];

    let resolved = apply_defines(" $BASE/$NAME ", &defines);

    assert_eq!(resolved, "samples/kick.wav");
}

#[test]
fn defines_replace_every_occurrence() {
    let defines = vec![("$A".to_owned(), "x".to_owned())];
    assert_eq!(apply_defines("\u{3000}$A-$A-a\t", &defines), "x-x-a");
}

#[test]
fn undefined_variables_stay() {
    let defines = vec![("$OTHER".to_owned(), "x".to_owned())];
    assert_eq!(apply_defines("  $A/b  ", &defines), "$A/b");
}

#[test]
fn nameless_defines_stand_everywhere() {
    let defines = vec![(String::new(), "-".to_owned())];
    assert_eq!(apply_defines("ab", &defines), "-a-b-");
    assert_eq!(apply_defines("  ", &defines), "-");
}

#[test]
fn later_defines_see_earlier_replacements() {
    let defines = vec![
        ("$A".to_owned(), "$B".to_owned()),
        ("$B".to_owned(), "end".to_owned()),
    ];
    assert_eq!(apply_defines("$A", &defines), "end");
}

#[test]
fn other_controllers_are_not_parsed() {
    let modulator = Modulator {
        src: source(
            ControllerPalette::Midi(1),
            SourceDirection::Positive,
            SourcePolarity::Unipolar,
            SourceType::Linear,
        ),
        dest: GeneratorType::AttackVolEnv,
        amount: 2400,
        amt_src: no_controller(),
        transform: ModulatorTransform::Linear,
    };
    assert!(Sf2NoteModulator::parse(&modulator).is_none());
}

#[test]
fn default_modulators_come_first_attenuation_then_filter() {
    let defaults = default_note_modulators();
    assert_eq!(defaults[0].destination(), Sf2NoteModDestination::InitialAttenuation);
    assert_eq!(defaults[1].destination(), Sf2NoteModDestination::InitialFilterFc);
    assert_eq!(defaults[0].amount, 960);
    assert_eq!(defaults[1].amount, -2400);
    assert_eq!(defaults[0].src.controller, Sf2NoteController::Velocity);
    assert_eq!(defaults[0].src.curve, Sf2NoteCurve::Concave);
    assert!(!defaults[0].same_identity(&defaults[1]));
}

#[test]
fn convex_table_mirrors_concave_table() {
    let mut i = 0;
    while i < 128 {
        assert_eq!(CONVEX_TABLE[i], 1_000_000_000 - CONCAVE_TABLE[127 - i]);
        i += 1;
    }
}

#[test]
fn linear_source_is_a_fraction_of_127() {
    let modulator = Modulator {
        src: velocity(SourceDirection::Positive, SourceType::Linear),
        dest: GeneratorType::Pan,
        amount: 127,
        amt_src: no_controller(),
        transform: ModulatorTransform::Linear,
    };
    let parsed = Sf2NoteModulator::parse(&modulator).unwrap();
    assert_eq!(parsed.src.evaluate(0, 64), 64 * (SOURCE_UNIT / 127));
    assert_eq!(parsed.evaluate(0, 64), 64 * AMOUNT_UNIT);
}

fn plain_region() -> Sf2Region {
    Sf2Region {
        pan: 0,
        cutoff_cents: None,
        raw_envelope: default_raw_envelope(),
        keynum_to_vol_env_hold: 50,
        keynum_to_vol_env_decay: 0,
        note_modulators: Vec::new(),
    }
}

#[test]
fn plain_region_has_no_filter() {
    let params = plain_region().note_params(60, 100);
    assert_eq!(params.cutoff, None);
    assert_eq!(params.pan, 0);
    assert_eq!(params.attenuation_cb, 0);
    assert_eq!(params.tune_cents, 0);
    assert_eq!(params.envelope.hold_tc, Some(-12_000 * AMOUNT_UNIT));
}

#[test]
fn hold_follows_the_key() {
    let params = plain_region().note_params(36, 100);
    assert_eq!(params.envelope.hold_tc, Some(-10_800 * AMOUNT_UNIT));
    assert_eq!(params.envelope.decay_tc, Some(-12_000 * AMOUNT_UNIT));
}

#[test]
fn region_pan_is_held() {
    let mut region = plain_region();
    region.pan = 400;
    region.note_modulators = vec![Sf2NoteModulator::parse(&Modulator {
        src: velocity(SourceDirection::Positive, SourceType::Linear),
        dest: GeneratorType::Pan,
        amount: 254,
        amt_src: no_controller(),
        transform: ModulatorTransform::Linear,
    })
    .unwrap()];
    assert_eq!(region.note_params(60, 25).pan, 450);
    assert_eq!(region.note_params(60, 127).pan, 500);
}

#[test]
fn velocity_opens_the_filter() {
    let mut region = plain_region();
    region.cutoff_cents = Some(9_000);
    region.note_modulators = vec![Sf2NoteModulator::default_velocity_to_filter_cutoff()];
    let soft = region.note_params(60, 70).cutoff.unwrap();
    let loud = region.note_params(60, 127).cutoff.unwrap();
    assert!(soft < loud);
    assert_eq!(region.note_params(60, 10).cutoff, Some(loud));
    assert_eq!(loud, 9_000 * AMOUNT_UNIT);
}

fn generator(ty: GeneratorType, amount: GeneratorAmount) -> Generator {
    Generator { ty: Some(ty), amount }
}

#[test]
fn global_zone_is_inherited() {
    let zones = vec![
        Zone {
            mod_list: Vec::new(),
            gen_list: vec![
                generator(GeneratorType::Pan, GeneratorAmount::I16(-100)),
                generator(GeneratorType::CoarseTune, GeneratorAmount::I16(3)),
            ],
        },
        Zone {
            mod_list: Vec::new(),
            gen_list: vec![
                generator(
                    GeneratorType::KeyRange,
                    GeneratorAmount::Range(GeneratorAmountRange { low: 10, high: 20 }),
                ),
                generator(GeneratorType::CoarseTune, GeneratorAmount::I16(5)),
                generator(GeneratorType::SampleModes, GeneratorAmount::I16(3)),
                generator(GeneratorType::SampleID, GeneratorAmount::U16(7)),
            ],
        },
    ];
    let regions = Sf2Zone::parse(zones, true);
    assert_eq!(regions.len(), 1);
    assert_eq!(regions[0].index, Some(7));
    assert_eq!(regions[0].pan, Some(-100));
    assert_eq!(regions[0].coarse_tune, Some(5));
    assert_eq!(regions[0].keyrange, Some(ByteRange::new(10, 20)));
    assert_eq!(regions[0].loop_mode, Some(LoopMode::LoopSustain));
}

fn header(start: u32, end: u32, sample_rate: u32, sample_type: SampleLink) -> SampleHeader {
    SampleHeader {
        start,
        end,
        loop_start: start,
        loop_end: end,
        sample_rate,
        origpitch: 60,
        pitchadj: 0,
        sample_type,
    }
}

#[test]
fn sixteen_bit_samples_are_read() {
    let bytes = vec![0, 0, 1, 0, 255, 255, 0, 128];
    let samples = Sf2Sample::parse_sf2_samples(
        ChunkContents::Bytes(bytes),
        ChunkContents::Absent,
        vec![header(1, 4, 44_100, SampleLink::LeftSample)],
        44_100,
    )
    .unwrap();
    assert_eq!(samples.len(), 1);
    assert_eq!(samples[0].data, vec![1, -1, -32_768]);
    assert_eq!(samples[0].full_scale, FULL_SCALE_16);
    assert!(!samples[0].resample);
    assert_eq!(samples[0].link_type, -1);
}

#[test]
fn twenty_four_bit_samples_are_read() {
    let samples = Sf2Sample::parse_sf2_samples(
        ChunkContents::Bytes(vec![1, 0, 255, 127]),
        ChunkContents::Bytes(vec![2, 255]),
        vec![header(0, 2, 22_050, SampleLink::MonoSample)],
        44_100,
    )
    .unwrap();
    assert_eq!(samples[0].data, vec![0x0001_0200, 0x7FFF_FF00]);
    assert_eq!(samples[0].full_scale, FULL_SCALE_24);
    assert!(samples[0].resample);
}

#[test]
fn missing_sample_data_is_an_error() {
    let result = Sf2Sample::parse_sf2_samples(
        ChunkContents::Absent,
        ChunkContents::Absent,
        Vec::new(),
        44_100,
    );
    assert!(matches!(result, Err(Sf2ParseError::FailedToParseFile(_))));
}

#[test]
fn unreadable_sample_data_is_an_error() {
    let result = Sf2Sample::parse_sf2_samples(
        ChunkContents::Unreadable,
        ChunkContents::Absent,
        Vec::new(),
        44_100,
    );
    assert!(result.is_err());
}

fn parse_error(extra: ChunkContents, samples: usize) -> String {
    let result = Sf2Sample::parse_sf2_samples(
        ChunkContents::Bytes(vec![0; 2 * samples]),
        extra,
        vec![header(5, 1, 44_100, SampleLink::MonoSample)],
        44_100,
    );
    match result {
        Err(Sf2ParseError::FailedToParseFile(message)) => message,
        other => panic!("{other:?}"),
    }
}

#[test]
fn unusable_extra_data_is_an_error() {
    assert_eq!(parse_error(ChunkContents::Unreadable, 2), "Error reading extra sample contents");
    assert_eq!(parse_error(ChunkContents::Bytes(vec![0; 3]), 2), "Invalid sample length");
    assert_eq!(parse_error(ChunkContents::Bytes(Vec::new()), 1), "Invalid sample length");
}

#[test]
fn generator_numbers_are_known() {
    assert_eq!(GeneratorType::from_number(8), Some(GeneratorType::InitialFilterFc));
    assert_eq!(GeneratorType::from_number(58), Some(GeneratorType::OverridingRootKey));
    assert_eq!(GeneratorType::from_number(61), None);
    assert_eq!(GeneralPalette::from_number(2), GeneralPalette::NoteOnVelocity);
    assert_eq!(GeneralPalette::from_number(5), GeneralPalette::Unknown(5));
}
