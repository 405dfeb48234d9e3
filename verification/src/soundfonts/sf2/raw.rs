//! Generators and modulators as a soundfont file lists them.

use vstd::prelude::*;

verus! {

/// What a generator sets, in the order of the numbers that a file uses for them.
#[derive(Copy, Clone, Debug, PartialEq, Eq, Structural)]
pub enum GeneratorType {
    StartAddrsOffset,
    EndAddrsOffset,
    StartloopAddrsOffset,
    EndloopAddrsOffset,
    StartAddrsCoarseOffset,
    ModLfoToPitch,
    VibLfoToPitch,
    ModEnvToPitch,
    InitialFilterFc,
    InitialFilterQ,
    ModLfoToFilterFc,
    ModEnvToFilterFc,
    EndAddrsCoarseOffset,
    ModLfoToVolume,
    Unused1,
    ChorusEffectsSend,
    ReverbEffectsSend,
    Pan,
    Unused2,
    Unused3,
    Unused4,
    DelayModLFO,
    FreqModLFO,
    DelayVibLFO,
    FreqVibLFO,
    DelayModEnv,
    AttackModEnv,
    HoldModEnv,
    DecayModEnv,
    SustainModEnv,
    ReleaseModEnv,
    KeynumToModEnvHold,
    KeynumToModEnvDecay,
    DelayVolEnv,
    AttackVolEnv,
    HoldVolEnv,
    DecayVolEnv,
    SustainVolEnv,
    ReleaseVolEnv,
    KeynumToVolEnvHold,
    KeynumToVolEnvDecay,
    Instrument,
    Reserved1,
    KeyRange,
    VelRange,
    StartloopAddrsCoarseOffset,
    Keynum,
    Velocity,
    InitialAttenuation,
    Reserved2,
    EndloopAddrsCoarseOffset,
    CoarseTune,
    FineTune,
    SampleID,
    SampleModes,
    Reserved3,
    ScaleTuning,
    ExclusiveClass,
    OverridingRootKey,
    Unused5,
    EndOper,
}

impl GeneratorType {
    /// The number of the generator.
    pub open spec fn number(self) -> u16 {
        match self {
            GeneratorType::StartAddrsOffset => 0,
            GeneratorType::EndAddrsOffset => 1,
            GeneratorType::StartloopAddrsOffset => 2,
            GeneratorType::EndloopAddrsOffset => 3,
            GeneratorType::StartAddrsCoarseOffset => 4,
            GeneratorType::ModLfoToPitch => 5,
            GeneratorType::VibLfoToPitch => 6,
            GeneratorType::ModEnvToPitch => 7,
            GeneratorType::InitialFilterFc => 8,
            GeneratorType::InitialFilterQ => 9,
            GeneratorType::ModLfoToFilterFc => 10,
            GeneratorType::ModEnvToFilterFc => 11,
            GeneratorType::EndAddrsCoarseOffset => 12,
            GeneratorType::ModLfoToVolume => 13,
            GeneratorType::Unused1 => 14,
            GeneratorType::ChorusEffectsSend => 15,
            GeneratorType::ReverbEffectsSend => 16,
            GeneratorType::Pan => 17,
            GeneratorType::Unused2 => 18,
            GeneratorType::Unused3 => 19,
            GeneratorType::Unused4 => 20,
            GeneratorType::DelayModLFO => 21,
            GeneratorType::FreqModLFO => 22,
            GeneratorType::DelayVibLFO => 23,
            GeneratorType::FreqVibLFO => 24,
            GeneratorType::DelayModEnv => 25,
            GeneratorType::AttackModEnv => 26,
            GeneratorType::HoldModEnv => 27,
            GeneratorType::DecayModEnv => 28,
            GeneratorType::SustainModEnv => 29,
            GeneratorType::ReleaseModEnv => 30,
            GeneratorType::KeynumToModEnvHold => 31,
            GeneratorType::KeynumToModEnvDecay => 32,
            GeneratorType::DelayVolEnv => 33,
            GeneratorType::AttackVolEnv => 34,
            GeneratorType::HoldVolEnv => 35,
            GeneratorType::DecayVolEnv => 36,
            GeneratorType::SustainVolEnv => 37,
            GeneratorType::ReleaseVolEnv => 38,
            GeneratorType::KeynumToVolEnvHold => 39,
            GeneratorType::KeynumToVolEnvDecay => 40,
            GeneratorType::Instrument => 41,
            GeneratorType::Reserved1 => 42,
            GeneratorType::KeyRange => 43,
            GeneratorType::VelRange => 44,
            GeneratorType::StartloopAddrsCoarseOffset => 45,
            GeneratorType::Keynum => 46,
            GeneratorType::Velocity => 47,
            GeneratorType::InitialAttenuation => 48,
            GeneratorType::Reserved2 => 49,
            GeneratorType::EndloopAddrsCoarseOffset => 50,
            GeneratorType::CoarseTune => 51,
            GeneratorType::FineTune => 52,
            GeneratorType::SampleID => 53,
            GeneratorType::SampleModes => 54,
            GeneratorType::Reserved3 => 55,
            GeneratorType::ScaleTuning => 56,
            GeneratorType::ExclusiveClass => 57,
            GeneratorType::OverridingRootKey => 58,
            GeneratorType::Unused5 => 59,
            GeneratorType::EndOper => 60,
        }
    }

    /// The generator with the given number, if there is one.
    pub fn from_number(number: u16) -> (ty: Option<GeneratorType>)
        ensures
            ty is Some <==> number <= 60,
            ty matches Some(ty) ==> ty.number() == number,
    {
        let ty = match number {
            0 => GeneratorType::StartAddrsOffset,
            1 => GeneratorType::EndAddrsOffset,
            2 => GeneratorType::StartloopAddrsOffset,
            3 => GeneratorType::EndloopAddrsOffset,
            4 => GeneratorType::StartAddrsCoarseOffset,
            5 => GeneratorType::ModLfoToPitch,
            6 => GeneratorType::VibLfoToPitch,
            7 => GeneratorType::ModEnvToPitch,
            8 => GeneratorType::InitialFilterFc,
            9 => GeneratorType::InitialFilterQ,
            10 => GeneratorType::ModLfoToFilterFc,
            11 => GeneratorType::ModEnvToFilterFc,
            12 => GeneratorType::EndAddrsCoarseOffset,
            13 => GeneratorType::ModLfoToVolume,
            14 => GeneratorType::Unused1,
            15 => GeneratorType::ChorusEffectsSend,
            16 => GeneratorType::ReverbEffectsSend,
            17 => GeneratorType::Pan,
            18 => GeneratorType::Unused2,
            19 => GeneratorType::Unused3,
            20 => GeneratorType::Unused4,
            21 => GeneratorType::DelayModLFO,
            22 => GeneratorType::FreqModLFO,
            23 => GeneratorType::DelayVibLFO,
            24 => GeneratorType::FreqVibLFO,
            25 => GeneratorType::DelayModEnv,
            26 => GeneratorType::AttackModEnv,
            27 => GeneratorType::HoldModEnv,
            28 => GeneratorType::DecayModEnv,
            29 => GeneratorType::SustainModEnv,
            30 => GeneratorType::ReleaseModEnv,
            31 => GeneratorType::KeynumToModEnvHold,
            32 => GeneratorType::KeynumToModEnvDecay,
            33 => GeneratorType::DelayVolEnv,
            34 => GeneratorType::AttackVolEnv,
            35 => GeneratorType::HoldVolEnv,
            36 => GeneratorType::DecayVolEnv,
            37 => GeneratorType::SustainVolEnv,
            38 => GeneratorType::ReleaseVolEnv,
            39 => GeneratorType::KeynumToVolEnvHold,
            40 => GeneratorType::KeynumToVolEnvDecay,
            41 => GeneratorType::Instrument,
            42 => GeneratorType::Reserved1,
            43 => GeneratorType::KeyRange,
            44 => GeneratorType::VelRange,
            45 => GeneratorType::StartloopAddrsCoarseOffset,
            46 => GeneratorType::Keynum,
            47 => GeneratorType::Velocity,
            48 => GeneratorType::InitialAttenuation,
            49 => GeneratorType::Reserved2,
            50 => GeneratorType::EndloopAddrsCoarseOffset,
            51 => GeneratorType::CoarseTune,
            52 => GeneratorType::FineTune,
            53 => GeneratorType::SampleID,
            54 => GeneratorType::SampleModes,
            55 => GeneratorType::Reserved3,
            56 => GeneratorType::ScaleTuning,
            57 => GeneratorType::ExclusiveClass,
            58 => GeneratorType::OverridingRootKey,
            59 => GeneratorType::Unused5,
            60 => GeneratorType::EndOper,
            _ => {
                return None;
            },
        };
        Some(ty)
    }
}

/// A range of keys or velocities.
#[derive(Copy, Clone, Debug, PartialEq, Eq, Structural)]
pub struct GeneratorAmountRange {
    pub low: u8,
    pub high: u8,
}

/// The amount of a generator.
#[derive(Copy, Clone, Debug, PartialEq, Eq, Structural)]
pub enum GeneratorAmount {
    I16(i16),
    U16(u16),
    Range(GeneratorAmountRange),
}

impl GeneratorAmount {
    /// The amount, if it is a signed number.
    pub open spec fn signed(self) -> Option<i16> {
        match self {
            GeneratorAmount::I16(v) => Some(v),
            _ => None,
        }
    }

    /// The amount, if it is an unsigned number.
    pub open spec fn unsigned(self) -> Option<u16> {
        match self {
            GeneratorAmount::U16(v) => Some(v),
            _ => None,
        }
    }

    /// The amount, if it is a range.
    pub open spec fn range(self) -> Option<GeneratorAmountRange> {
        match self {
            GeneratorAmount::Range(r) => Some(r),
            _ => None,
        }
    }

    /// The amount, if it is a signed number.
    pub fn as_i16(&self) -> (amount: Option<i16>)
        ensures
            amount == self.signed(),
    {
        match self {
            GeneratorAmount::I16(v) => Some(*v),
            _ => None,
        }
    }

    /// The amount, if it is an unsigned number.
    pub fn as_u16(&self) -> (amount: Option<u16>)
        ensures
            amount == self.unsigned(),
    {
        match self {
            GeneratorAmount::U16(v) => Some(*v),
            _ => None,
        }
    }

    /// The amount, if it is a range.
    pub fn as_range(&self) -> (amount: Option<GeneratorAmountRange>)
        ensures
            amount == self.range(),
    {
        match self {
            GeneratorAmount::Range(r) => Some(*r),
            _ => None,
        }
    }
}

/// One generator of a zone. The type is None for a number that stands for no generator.
#[derive(Copy, Clone, Debug, PartialEq, Eq, Structural)]
pub struct Generator {
    pub ty: Option<GeneratorType>,
    pub amount: GeneratorAmount,
}

/// The controllers that are not MIDI continuous controllers.
#[derive(Copy, Clone, Debug, PartialEq, Eq, Structural)]
pub enum GeneralPalette {
    NoController,
    NoteOnVelocity,
    NoteOnKeyNumber,
    PolyPressure,
    ChannelPressure,
    PitchWheel,
    PitchWheelSensitivity,
    Link,
    Unknown(u8),
}

impl GeneralPalette {
    /// The number of the controller.
    pub open spec fn number(self) -> u8 {
        match self {
            GeneralPalette::NoController => 0,
            GeneralPalette::NoteOnVelocity => 2,
            GeneralPalette::NoteOnKeyNumber => 3,
            GeneralPalette::PolyPressure => 10,
            GeneralPalette::ChannelPressure => 13,
            GeneralPalette::PitchWheel => 14,
            GeneralPalette::PitchWheelSensitivity => 16,
            GeneralPalette::Link => 127,
            GeneralPalette::Unknown(number) => number,
        }
    }

    /// Whether a number has a meaning.
    pub open spec fn is_known(number: u8) -> bool {
        ||| number == 0
        ||| number == 2
        ||| number == 3
        ||| number == 10
        ||| number == 13
        ||| number == 14
        ||| number == 16
        ||| number == 127
    }

    /// The controller with the given number.
    pub fn from_number(number: u8) -> (palette: GeneralPalette)
        ensures
            palette.number() == number,
            palette is Unknown <==> !Self::is_known(number),
    {
        match number {
            0 => GeneralPalette::NoController,
            2 => GeneralPalette::NoteOnVelocity,
            3 => GeneralPalette::NoteOnKeyNumber,
            10 => GeneralPalette::PolyPressure,
            13 => GeneralPalette::ChannelPressure,
            14 => GeneralPalette::PitchWheel,
            16 => GeneralPalette::PitchWheelSensitivity,
            127 => GeneralPalette::Link,
            v => GeneralPalette::Unknown(v),
        }
    }
}

/// The controller that a modulator listens to.
#[derive(Copy, Clone, Debug, PartialEq, Eq, Structural)]
pub enum ControllerPalette {
    General(GeneralPalette),
    Midi(u8),
}

/// Whether a source grows or falls with its controller.
#[derive(Copy, Clone, Debug, PartialEq, Eq, Structural)]
pub enum SourceDirection {
    Positive,
    Negative,
}

/// Whether a source starts at 0 or at -1.
#[derive(Copy, Clone, Debug, PartialEq, Eq, Structural)]
pub enum SourcePolarity {
    Unipolar,
    Bipolar,
}

/// The curve that a source follows.
#[derive(Copy, Clone, Debug, PartialEq, Eq, Structural)]
pub enum SourceType {
    Linear,
    Concave,
    Convex,
    Switch,
    Unknown(u8),
}

/// Where a modulator takes its value from.
#[derive(Copy, Clone, Debug, PartialEq, Eq, Structural)]
pub struct ModulatorSource {
    pub index: u8,
    pub controller_palette: ControllerPalette,
    pub direction: SourceDirection,
    pub polarity: SourcePolarity,
    pub ty: SourceType,
}

/// What is done to the product of a modulator.
#[derive(Copy, Clone, Debug, PartialEq, Eq, Structural)]
pub enum ModulatorTransform {
    Linear,
    Absolute,
}

/// One modulator of a zone.
#[derive(Copy, Clone, Debug, PartialEq, Eq, Structural)]
pub struct Modulator {
    pub src: ModulatorSource,
    pub dest: GeneratorType,
    pub amount: i16,
    pub amt_src: ModulatorSource,
    pub transform: ModulatorTransform,
}

/// One zone of a preset or an instrument.
#[derive(Clone, Debug)]
pub struct Zone {
    pub mod_list: Vec<Modulator>,
    pub gen_list: Vec<Generator>,
}

/// The generator that a file means by each of its numbers.
pub open spec fn is_meant_by(number: u16, ty: GeneratorType) -> bool {
    match number {
        0 => ty is StartAddrsOffset,
        1 => ty is EndAddrsOffset,
        2 => ty is StartloopAddrsOffset,
        3 => ty is EndloopAddrsOffset,
        4 => ty is StartAddrsCoarseOffset,
        5 => ty is ModLfoToPitch,
        6 => ty is VibLfoToPitch,
        7 => ty is ModEnvToPitch,
        8 => ty is InitialFilterFc,
        9 => ty is InitialFilterQ,
        10 => ty is ModLfoToFilterFc,
        11 => ty is ModEnvToFilterFc,
        12 => ty is EndAddrsCoarseOffset,
        13 => ty is ModLfoToVolume,
        14 => ty is Unused1,
        15 => ty is ChorusEffectsSend,
        16 => ty is ReverbEffectsSend,
        17 => ty is Pan,
        18 => ty is Unused2,
        19 => ty is Unused3,
        20 => ty is Unused4,
        21 => ty is DelayModLFO,
        22 => ty is FreqModLFO,
        23 => ty is DelayVibLFO,
        24 => ty is FreqVibLFO,
        25 => ty is DelayModEnv,
        26 => ty is AttackModEnv,
        27 => ty is HoldModEnv,
        28 => ty is DecayModEnv,
        29 => ty is SustainModEnv,
        30 => ty is ReleaseModEnv,
        31 => ty is KeynumToModEnvHold,
        32 => ty is KeynumToModEnvDecay,
        33 => ty is DelayVolEnv,
        34 => ty is AttackVolEnv,
        35 => ty is HoldVolEnv,
        36 => ty is DecayVolEnv,
        37 => ty is SustainVolEnv,
        38 => ty is ReleaseVolEnv,
        39 => ty is KeynumToVolEnvHold,
        40 => ty is KeynumToVolEnvDecay,
        41 => ty is Instrument,
        42 => ty is Reserved1,
        43 => ty is KeyRange,
        44 => ty is VelRange,
        45 => ty is StartloopAddrsCoarseOffset,
        46 => ty is Keynum,
        47 => ty is Velocity,
        48 => ty is InitialAttenuation,
        49 => ty is Reserved2,
        50 => ty is EndloopAddrsCoarseOffset,
        51 => ty is CoarseTune,
        52 => ty is FineTune,
        53 => ty is SampleID,
        54 => ty is SampleModes,
        55 => ty is Reserved3,
        56 => ty is ScaleTuning,
        57 => ty is ExclusiveClass,
        58 => ty is OverridingRootKey,
        59 => ty is Unused5,
        60 => ty is EndOper,
        _ => false,
    }
}

/// A number up to 60 stands for one generator each, and every other for none.
pub proof fn lemma_generator_numbers(number: u16, ty: Option<GeneratorType>)
    requires
        call_ensures(GeneratorType::from_number, (number,), ty),
    ensures
        ty matches Some(ty) ==> is_meant_by(number, ty),
        ty is None <==> number > 60,
{
}

/// The controllers that are not MIDI controllers have the numbers 0, 2, 3, 10, 13, 14, 16 and 127.
pub proof fn lemma_controller_numbers(number: u8, palette: GeneralPalette)
    requires
        call_ensures(GeneralPalette::from_number, (number,), palette),
    ensures
        palette is NoController <==> number == 0,
        palette is NoteOnVelocity <==> number == 2,
        palette is NoteOnKeyNumber <==> number == 3,
        palette is PolyPressure <==> number == 10,
        palette is ChannelPressure <==> number == 13,
        palette is PitchWheel <==> number == 14,
        palette is PitchWheelSensitivity <==> number == 16,
        palette is Link <==> number == 127,
        palette matches GeneralPalette::Unknown(other) ==> other == number,
{
}

/// An amount is read as what it is, and as nothing else.
pub proof fn lemma_amounts(
    amount: GeneratorAmount,
    signed: Option<i16>,
    unsigned: Option<u16>,
    range: Option<GeneratorAmountRange>,
)
    requires
        call_ensures(GeneratorAmount::as_i16, (&amount,), signed),
        call_ensures(GeneratorAmount::as_u16, (&amount,), unsigned),
        call_ensures(GeneratorAmount::as_range, (&amount,), range),
    ensures
        match amount {
            GeneratorAmount::I16(number) => signed == Some(number) && unsigned is None && range
                is None,
            GeneratorAmount::U16(number) => signed is None && unsigned == Some(number) && range
                is None,
            GeneratorAmount::Range(ends) => signed is None && unsigned is None && range == Some(
                ends,
            ),
        },
{
}

} // verus!
