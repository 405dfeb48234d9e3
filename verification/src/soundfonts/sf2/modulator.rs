//! Note-on modulators.
//!
//! A modulator turns the key and the velocity of a note into a change of one of the parameters of
//! the note. A source maps a controller value from 0 to 127 onto a curve. Curve values, amounts and
//! their sums are kept exact: as integers that count fractions of one unit.

use vstd::prelude::*;
use soundfont::raw::default_modulators;
use crate::soundfonts::sf2::raw::{
    ControllerPalette, GeneralPalette, GeneratorType, Modulator, ModulatorSource,
    ModulatorTransform, SourceDirection, SourcePolarity, SourceType,
};

verus! {

/// The concave curve at each controller value, in billionths.
pub const CONCAVE_TABLE: [u32; 128] = [
    0, 1430490, 2872378, 4325848, 5791087, 7268288, 8757646, 10259365, 11773650, 13300714,
    14840775, 16394055, 17960784, 19541196, 21135532, 22744041, 24366976, 26004598, 27657176,
    29324986, 31008310, 32707440, 34422676, 36154326, 37902707, 39668145, 41450978, 43251550,
    45070219, 46907352, 48763328, 50638537, 52533382, 54448278, 56383655, 58339956, 60317637,
    62317171, 64339048, 66383770, 68451862, 70543862, 72660331, 74801848, 76969012, 79162445,
    81382793, 83630722, 85906929, 88212133, 90547082, 92912554, 95309357, 97738334, 100200359,
    102696344, 105227238, 107794034, 110397763, 113039503, 115720383, 118441577, 121204318,
    124009895, 126859655, 129755013, 132697452, 135688529, 138729879, 141823220, 144970361,
    148173206, 151433763, 154754150, 158136605, 161583491, 165097310, 168680715, 172336517,
    176067701, 179877443, 183769121, 187746336, 191812935, 195973027, 200231013, 204591610,
    209059887, 213641297, 218341718, 223167499, 228125508, 233223199, 238468668, 243870742,
    249439059, 255184178, 261117694, 267252385, 273602371, 280183315, 287012655, 294109880,
    301496866, 309198285, 317242100, 325660178, 334489052, 343770883, 353554673, 363897833,
    374868224, 386546859, 399031536, 412441820, 426926031, 442671265, 459918217, 478983838,
    500297389, 524460700, 552355196, 585347382, 625726554, 677784361, 751155719, 876584884,
    1000000000,
];

/// The convex curve at each controller value, in billionths.
pub const CONVEX_TABLE: [u32; 128] = [
    0, 123415116, 248844281, 322215639, 374273446, 414652618, 447644804, 475539300, 499702611,
    521016162, 540081783, 557328735, 573073969, 587558180, 600968464, 613453141, 625131776,
    636102167, 646445327, 656229117, 665510948, 674339822, 682757900, 690801715, 698503134,
    705890120, 712987345, 719816685, 726397629, 732747615, 738882306, 744815822, 750560941,
    756129258, 761531332, 766776801, 771874492, 776832501, 781658282, 786358703, 790940113,
    795408390, 799768987, 804026973, 808187065, 812253664, 816230879, 820122557, 823932299,
    827663483, 831319285, 834902690, 838416509, 841863395, 845245850, 848566237, 851826794,
    855029639, 858176780, 861270121, 864311471, 867302548, 870244987, 873140345, 875990105,
    878795682, 881558423, 884279617, 886960497, 889602237, 892205966, 894772762, 897303656,
    899799641, 902261666, 904690643, 907087446, 909452918, 911787867, 914093071, 916369278,
    918617207, 920837555, 923030988, 925198152, 927339669, 929456138, 931548138, 933616230,
    935660952, 937682829, 939682363, 941660044, 943616345, 945551722, 947466618, 949361463,
    951236672, 953092648, 954929781, 956748450, 958549022, 960331855, 962097293, 963845674,
    965577324, 967292560, 968991690, 970675014, 972342824, 973995402, 975633024, 977255959,
    978864468, 980458804, 982039216, 983605945, 985159225, 986699286, 988226350, 989740635,
    991242354, 992731712, 994208913, 995674152, 997127622, 998569510, 1000000000,
];

/// The number of fractions that the value of a source counts: 127 controller steps of a billion.
pub const SOURCE_UNIT: i128 = 127_000_000_000;

/// The number of fractions that an amount counts: the square of the unit of a source.
pub const AMOUNT_UNIT: i128 = 16_129_000_000_000_000_000_000;

/// A billion, in which the curve tables count.
pub const TABLE_UNIT: i128 = 1_000_000_000;

/// The time, in timecents, of an envelope stage that no generator sets.
pub const DEFAULT_VOL_ENV_TIMECENTS: i32 = -12_000;

/// The filter cutoff, in cents, that no generator sets.
pub const DEFAULT_FILTER_CUTOFF_CENTS: i128 = 13_500;

/// The parameter that a modulator changes.
#[derive(Copy, Clone, Debug, PartialEq, Eq, Structural)]
pub enum Sf2NoteModDestination {
    InitialAttenuation,
    InitialFilterFc,
    InitialFilterQ,
    Pan,
    DelayVolEnv,
    AttackVolEnv,
    HoldVolEnv,
    DecayVolEnv,
    SustainVolEnv,
    ReleaseVolEnv,
    FineTune,
    CoarseTune,
}

/// What a source listens to.
#[derive(Copy, Clone, Debug, PartialEq, Eq, Structural)]
pub enum Sf2NoteController {
    Velocity,
    KeyNumber,
}

/// Whether a source grows or falls with its controller.
#[derive(Copy, Clone, Debug, PartialEq, Eq, Structural)]
pub enum Sf2NoteDirection {
    Positive,
    Negative,
}

/// Whether a source starts at 0 or at -1.
#[derive(Copy, Clone, Debug, PartialEq, Eq, Structural)]
pub enum Sf2NotePolarity {
    Unipolar,
    Bipolar,
}

/// The curve that a source follows.
#[derive(Copy, Clone, Debug, PartialEq, Eq, Structural)]
pub enum Sf2NoteCurve {
    Linear,
    Concave,
    Convex,
    Switch,
}

/// What is done to the product of a modulator.
#[derive(Copy, Clone, Debug, PartialEq, Eq, Structural)]
pub enum Sf2NoteTransform {
    Linear,
    Absolute,
}

/// A source of a modulator.
#[derive(Copy, Clone, Debug, PartialEq, Eq, Structural)]
pub struct Sf2NoteModSource {
    pub controller: Sf2NoteController,
    pub direction: Sf2NoteDirection,
    pub polarity: Sf2NotePolarity,
    pub curve: Sf2NoteCurve,
}

/// A modulator whose value is fixed when a note starts.
#[derive(Copy, Clone, Debug, PartialEq, Eq, Structural)]
pub struct Sf2NoteModulator {
    pub src: Sf2NoteModSource,
    pub amount_src: Option<Sf2NoteModSource>,
    pub dest: Sf2NoteModDestination,
    pub amount: i16,
    pub transform: Sf2NoteTransform,
}

/// The larger of two integers.
pub open spec fn larger(a: int, b: int) -> int {
    if a >= b {
        a
    } else {
        b
    }
}

/// The smaller of two integers.
pub open spec fn smaller(a: int, b: int) -> int {
    if a <= b {
        a
    } else {
        b
    }
}

/// `value`, held between `low` and `high`.
pub open spec fn held(value: int, low: int, high: int) -> int {
    larger(low, smaller(value, high))
}

/// A curve at the position `x`, which is held to the table.
pub open spec fn on_curve(table: [u32; 128], x: int) -> int {
    table@[held(x, 0, 127)] * 127
}

/// A curve that is mirrored at its middle: from -1 at 0 to 1 at 127.
pub open spec fn on_mirrored_curve(table: [u32; 128], x: int) -> int {
    if x >= 64 {
        on_curve(table, 2 * x - 127)
    } else {
        -on_curve(table, 127 - 2 * x)
    }
}

impl Sf2NoteModSource {
    /// Where the controller stands, seen in the direction of the source.
    pub open spec fn position(self, key: u8, velocity: u8) -> int {
        let value = match self.controller {
            Sf2NoteController::Velocity => velocity as int,
            Sf2NoteController::KeyNumber => key as int,
        };
        match self.direction {
            Sf2NoteDirection::Positive => value,
            Sf2NoteDirection::Negative => 127 - value,
        }
    }

    /// The value of the source, in fractions of `SOURCE_UNIT`.
    pub open spec fn level(self, key: u8, velocity: u8) -> int {
        let x = self.position(key, velocity);
        match (self.curve, self.polarity) {
            (Sf2NoteCurve::Linear, Sf2NotePolarity::Unipolar) => x * TABLE_UNIT,
            (Sf2NoteCurve::Linear, Sf2NotePolarity::Bipolar) => (2 * x - 127) * TABLE_UNIT,
            (Sf2NoteCurve::Concave, Sf2NotePolarity::Unipolar) => on_curve(CONCAVE_TABLE, x),
            (Sf2NoteCurve::Concave, Sf2NotePolarity::Bipolar) => on_mirrored_curve(
                CONCAVE_TABLE,
                x,
            ),
            (Sf2NoteCurve::Convex, Sf2NotePolarity::Unipolar) => on_curve(CONVEX_TABLE, x),
            (Sf2NoteCurve::Convex, Sf2NotePolarity::Bipolar) => on_mirrored_curve(CONVEX_TABLE, x),
            (Sf2NoteCurve::Switch, Sf2NotePolarity::Unipolar) => if x >= 64 {
                SOURCE_UNIT as int
            } else {
                0
            },
            (Sf2NoteCurve::Switch, Sf2NotePolarity::Bipolar) => if x >= 64 {
                SOURCE_UNIT as int
            } else {
                -SOURCE_UNIT
            },
        }
    }

    /// The value of the source for a note, in fractions of `SOURCE_UNIT`.
    pub fn evaluate(&self, key: u8, velocity: u8) -> (level: i128)
        ensures
            level == self.level(key, velocity),
            -600_000_000_000 <= level <= 600_000_000_000,
    {
        let value: i128 = match self.controller {
            Sf2NoteController::Velocity => velocity as i128,
            Sf2NoteController::KeyNumber => key as i128,
        };
        match (self.curve, self.polarity, self.direction) {
            (Sf2NoteCurve::Linear, Sf2NotePolarity::Unipolar, Sf2NoteDirection::Positive) => {
                value * TABLE_UNIT
            },
            (Sf2NoteCurve::Linear, Sf2NotePolarity::Unipolar, Sf2NoteDirection::Negative) => {
                (127 - value) * TABLE_UNIT
            },
            (Sf2NoteCurve::Linear, Sf2NotePolarity::Bipolar, Sf2NoteDirection::Positive) => {
                (2 * value - 127) * TABLE_UNIT
            },
            (Sf2NoteCurve::Linear, Sf2NotePolarity::Bipolar, Sf2NoteDirection::Negative) => {
                (127 - 2 * value) * TABLE_UNIT
            },
            (Sf2NoteCurve::Concave, Sf2NotePolarity::Unipolar, Sf2NoteDirection::Positive) => {
                lookup_controller_curve(&CONCAVE_TABLE, value)
            },
            (Sf2NoteCurve::Concave, Sf2NotePolarity::Unipolar, Sf2NoteDirection::Negative) => {
                lookup_controller_curve(&CONCAVE_TABLE, 127 - value)
            },
            (Sf2NoteCurve::Concave, Sf2NotePolarity::Bipolar, Sf2NoteDirection::Positive) => {
                bipolar_lookup(&CONCAVE_TABLE, value)
            },
            (Sf2NoteCurve::Concave, Sf2NotePolarity::Bipolar, Sf2NoteDirection::Negative) => {
                -bipolar_lookup(&CONCAVE_TABLE, value)
            },
            (Sf2NoteCurve::Convex, Sf2NotePolarity::Unipolar, Sf2NoteDirection::Positive) => {
                lookup_controller_curve(&CONVEX_TABLE, value)
            },
            (Sf2NoteCurve::Convex, Sf2NotePolarity::Unipolar, Sf2NoteDirection::Negative) => {
                lookup_controller_curve(&CONVEX_TABLE, 127 - value)
            },
            (Sf2NoteCurve::Convex, Sf2NotePolarity::Bipolar, Sf2NoteDirection::Positive) => {
                bipolar_lookup(&CONVEX_TABLE, value)
            },
            (Sf2NoteCurve::Convex, Sf2NotePolarity::Bipolar, Sf2NoteDirection::Negative) => {
                -bipolar_lookup(&CONVEX_TABLE, value)
            },
            (Sf2NoteCurve::Switch, Sf2NotePolarity::Unipolar, Sf2NoteDirection::Positive) => {
                if value >= 64 {
                    SOURCE_UNIT
                } else {
                    0
                }
            },
            (Sf2NoteCurve::Switch, Sf2NotePolarity::Unipolar, Sf2NoteDirection::Negative) => {
                if value >= 64 {
                    0
                } else {
                    SOURCE_UNIT
                }
            },
            (Sf2NoteCurve::Switch, Sf2NotePolarity::Bipolar, Sf2NoteDirection::Positive) => {
                if value >= 64 {
                    SOURCE_UNIT
                } else {
                    -SOURCE_UNIT
                }
            },
            (Sf2NoteCurve::Switch, Sf2NotePolarity::Bipolar, Sf2NoteDirection::Negative) => {
                if value >= 64 {
                    -SOURCE_UNIT
                } else {
                    SOURCE_UNIT
                }
            },
        }
    }
}

/// Reads a curve at the position `x`.
fn lookup_controller_curve(table: &[u32; 128], x: i128) -> (level: i128)
    ensures
        level == on_curve(*table, x as int),
        0 <= level <= 600_000_000_000,
{
    let index: usize = if x < 0 {
        0
    } else if x > 127 {
        127
    } else {
        x as usize
    };
    table[index] as i128 * 127
}

/// Reads a mirrored curve at the position `x`.
fn bipolar_lookup(table: &[u32; 128], x: i128) -> (level: i128)
    requires
        0 <= x <= 255,
    ensures
        level == on_mirrored_curve(*table, x as int),
        -600_000_000_000 <= level <= 600_000_000_000,
{
    if x >= 64 {
        lookup_controller_curve(table, 2 * x - 127)
    } else {
        -lookup_controller_curve(table, 127 - 2 * x)
    }
}

impl Sf2NoteModSource {
    /// The source that a file describes, where it is one that is known when a note starts.
    pub open spec fn parsed(source: ModulatorSource) -> Option<Self> {
        let controller = match source.controller_palette {
            ControllerPalette::General(GeneralPalette::NoteOnVelocity) => Some(
                Sf2NoteController::Velocity,
            ),
            ControllerPalette::General(GeneralPalette::NoteOnKeyNumber) => Some(
                Sf2NoteController::KeyNumber,
            ),
            _ => None,
        };
        let curve = match source.ty {
            SourceType::Linear => Some(Sf2NoteCurve::Linear),
            SourceType::Concave => Some(Sf2NoteCurve::Concave),
            SourceType::Convex => Some(Sf2NoteCurve::Convex),
            SourceType::Switch => Some(Sf2NoteCurve::Switch),
            SourceType::Unknown(_) => None,
        };
        match (controller, curve) {
            (Some(controller), Some(curve)) => Some(
                Sf2NoteModSource {
                    controller,
                    direction: match source.direction {
                        SourceDirection::Positive => Sf2NoteDirection::Positive,
                        SourceDirection::Negative => Sf2NoteDirection::Negative,
                    },
                    polarity: match source.polarity {
                        SourcePolarity::Unipolar => Sf2NotePolarity::Unipolar,
                        SourcePolarity::Bipolar => Sf2NotePolarity::Bipolar,
                    },
                    curve,
                },
            ),
            _ => None,
        }
    }

    /// The source that a file describes.
    pub fn parse(source: ModulatorSource) -> (parsed: Option<Self>)
        ensures
            parsed == Self::parsed(source),
    {
        let controller = match source.controller_palette {
            ControllerPalette::General(GeneralPalette::NoteOnVelocity) => {
                Sf2NoteController::Velocity
            },
            ControllerPalette::General(GeneralPalette::NoteOnKeyNumber) => {
                Sf2NoteController::KeyNumber
            },
            _ => {
                return None;
            },
        };
        let direction = match source.direction {
            SourceDirection::Positive => Sf2NoteDirection::Positive,
            SourceDirection::Negative => Sf2NoteDirection::Negative,
        };
        let polarity = match source.polarity {
            SourcePolarity::Unipolar => Sf2NotePolarity::Unipolar,
            SourcePolarity::Bipolar => Sf2NotePolarity::Bipolar,
        };
        let curve = match source.ty {
            SourceType::Linear => Sf2NoteCurve::Linear,
            SourceType::Concave => Sf2NoteCurve::Concave,
            SourceType::Convex => Sf2NoteCurve::Convex,
            SourceType::Switch => Sf2NoteCurve::Switch,
            _ => {
                return None;
            },
        };
        Some(Sf2NoteModSource { controller, direction, polarity, curve })
    }

    /// Whether `modulator` says how its amount is scaled in a way that is known when a note starts,
    /// and the source that scales it, if any.
    pub open spec fn parsed_secondary(modulator: Modulator) -> Option<Option<Self>> {
        if modulator.amt_src.controller_palette == ControllerPalette::General(
            GeneralPalette::NoController,
        ) {
            Some(None)
        } else {
            match Self::parsed(modulator.amt_src) {
                Some(source) => Some(Some(source)),
                None => None,
            }
        }
    }

    fn parse_primary(modulator: &Modulator) -> (parsed: Option<Self>)
        ensures
            parsed == Self::parsed(modulator.src),
    {
        Self::parse(modulator.src)
    }

    fn parse_secondary(modulator: &Modulator) -> (parsed: Option<Option<Self>>)
        ensures
            parsed == Self::parsed_secondary(*modulator),
    {
        match modulator.amt_src.controller_palette {
            ControllerPalette::General(GeneralPalette::NoController) => Some(None),
            _ => match Self::parse(modulator.amt_src) {
                Some(source) => Some(Some(source)),
                None => None,
            },
        }
    }
}

/// The parameter that a generator stands for, where a modulator can change it.
pub open spec fn destination_of(ty: GeneratorType) -> Option<Sf2NoteModDestination> {
    match ty {
        GeneratorType::InitialAttenuation => Some(Sf2NoteModDestination::InitialAttenuation),
        GeneratorType::InitialFilterFc => Some(Sf2NoteModDestination::InitialFilterFc),
        GeneratorType::InitialFilterQ => Some(Sf2NoteModDestination::InitialFilterQ),
        GeneratorType::Pan => Some(Sf2NoteModDestination::Pan),
        GeneratorType::DelayVolEnv => Some(Sf2NoteModDestination::DelayVolEnv),
        GeneratorType::AttackVolEnv => Some(Sf2NoteModDestination::AttackVolEnv),
        GeneratorType::HoldVolEnv => Some(Sf2NoteModDestination::HoldVolEnv),
        GeneratorType::DecayVolEnv => Some(Sf2NoteModDestination::DecayVolEnv),
        GeneratorType::SustainVolEnv => Some(Sf2NoteModDestination::SustainVolEnv),
        GeneratorType::ReleaseVolEnv => Some(Sf2NoteModDestination::ReleaseVolEnv),
        GeneratorType::FineTune => Some(Sf2NoteModDestination::FineTune),
        GeneratorType::CoarseTune => Some(Sf2NoteModDestination::CoarseTune),
        _ => None,
    }
}

/// The absolute value of an integer.
pub open spec fn magnitude(a: int) -> int {
    if a < 0 {
        -a
    } else {
        a
    }
}

impl Sf2NoteModulator {
    /// The modulator that a file describes, where all of it is known when a note starts.
    pub open spec fn parsed(modulator: Modulator) -> Option<Self> {
        match (
            Sf2NoteModSource::parsed(modulator.src),
            Sf2NoteModSource::parsed_secondary(modulator),
            destination_of(modulator.dest),
        ) {
            (Some(src), Some(amount_src), Some(dest)) => Some(
                Sf2NoteModulator {
                    src,
                    amount_src,
                    dest,
                    amount: modulator.amount,
                    transform: match modulator.transform {
                        ModulatorTransform::Linear => Sf2NoteTransform::Linear,
                        ModulatorTransform::Absolute => Sf2NoteTransform::Absolute,
                    },
                },
            ),
            _ => None,
        }
    }

    /// What the modulator adds to its destination, in fractions of `AMOUNT_UNIT`.
    pub open spec fn value(self, key: u8, velocity: u8) -> int {
        let scale = match self.amount_src {
            Some(source) => source.level(key, velocity),
            None => SOURCE_UNIT as int,
        };
        let product = self.amount * self.src.level(key, velocity) * scale;
        match self.transform {
            Sf2NoteTransform::Linear => product,
            Sf2NoteTransform::Absolute => magnitude(product),
        }
    }

    /// Whether two modulators differ at most in their amounts.
    pub open spec fn same_but_amount(self, other: Self) -> bool {
        self == Sf2NoteModulator { amount: self.amount, ..other }
    }

    /// Whether a modulator maps the velocity to the attenuation or to the filter cutoff.
    pub open spec fn tracks_velocity(self, dest: Sf2NoteModDestination) -> bool {
        self.dest == dest && self.src.controller == Sf2NoteController::Velocity
    }

    /// Whether this modulator takes the place of the other: they differ at most in their amounts,
    /// or both map the velocity to the attenuation, or both to the filter cutoff.
    pub open spec fn suppresses(self, other: Self) -> bool {
        ||| self.same_but_amount(other)
        ||| self.tracks_velocity(Sf2NoteModDestination::InitialAttenuation)
            && other.tracks_velocity(Sf2NoteModDestination::InitialAttenuation)
        ||| self.tracks_velocity(Sf2NoteModDestination::InitialFilterFc)
            && other.tracks_velocity(Sf2NoteModDestination::InitialFilterFc)
    }

    /// The modulator of a zone.
    pub fn parse_zone(modulator: &Modulator) -> (parsed: Option<Self>)
        ensures
            parsed == Self::parsed(*modulator),
    {
        Self::parse(modulator)
    }

    /// The parameter that the modulator changes.
    pub fn destination(&self) -> (dest: Sf2NoteModDestination)
        ensures
            dest == self.dest,
    {
        self.dest
    }

    /// Whether two modulators differ at most in their amounts.
    pub fn same_identity(&self, other: &Self) -> (same: bool)
        ensures
            same == self.same_but_amount(*other),
    {
        let same_amount_src: bool = match (self.amount_src, other.amount_src) {
            (Some(a), Some(b)) => a == b,
            (None, None) => true,
            _ => false,
        };
        self.dest == other.dest && self.src == other.src && same_amount_src && self.transform
            == other.transform
    }

    /// Whether this modulator takes the place of the other.
    pub fn suppresses_default(&self, default: &Self) -> (suppresses: bool)
        ensures
            suppresses == self.suppresses(*default),
    {
        if self.same_identity(default) {
            return true;
        }
        match (self.dest, self.src.controller, default.dest, default.src.controller) {
            (
                Sf2NoteModDestination::InitialAttenuation,
                Sf2NoteController::Velocity,
                Sf2NoteModDestination::InitialAttenuation,
                Sf2NoteController::Velocity,
            ) => true,
            (
                Sf2NoteModDestination::InitialFilterFc,
                Sf2NoteController::Velocity,
                Sf2NoteModDestination::InitialFilterFc,
                Sf2NoteController::Velocity,
            ) => true,
            _ => false,
        }
    }

    /// The modulator that a file describes.
    pub fn parse(modulator: &Modulator) -> (parsed: Option<Self>)
        ensures
            parsed == Self::parsed(*modulator),
    {
        let src = match Sf2NoteModSource::parse_primary(modulator) {
            Some(src) => src,
            None => {
                return None;
            },
        };
        let amount_src = match Sf2NoteModSource::parse_secondary(modulator) {
            Some(amount_src) => amount_src,
            None => {
                return None;
            },
        };
        let dest = match modulator.dest {
            GeneratorType::InitialAttenuation => Sf2NoteModDestination::InitialAttenuation,
            GeneratorType::InitialFilterFc => Sf2NoteModDestination::InitialFilterFc,
            GeneratorType::InitialFilterQ => Sf2NoteModDestination::InitialFilterQ,
            GeneratorType::Pan => Sf2NoteModDestination::Pan,
            GeneratorType::DelayVolEnv => Sf2NoteModDestination::DelayVolEnv,
            GeneratorType::AttackVolEnv => Sf2NoteModDestination::AttackVolEnv,
            GeneratorType::HoldVolEnv => Sf2NoteModDestination::HoldVolEnv,
            GeneratorType::DecayVolEnv => Sf2NoteModDestination::DecayVolEnv,
            GeneratorType::SustainVolEnv => Sf2NoteModDestination::SustainVolEnv,
            GeneratorType::ReleaseVolEnv => Sf2NoteModDestination::ReleaseVolEnv,
            GeneratorType::FineTune => Sf2NoteModDestination::FineTune,
            GeneratorType::CoarseTune => Sf2NoteModDestination::CoarseTune,
            _ => {
                return None;
            },
        };
        let transform = match modulator.transform {
            ModulatorTransform::Linear => Sf2NoteTransform::Linear,
            ModulatorTransform::Absolute => Sf2NoteTransform::Absolute,
        };
        Some(Sf2NoteModulator { src, amount_src, dest, amount: modulator.amount, transform })
    }

    /// What the modulator adds to its destination for a note, in fractions of `AMOUNT_UNIT`.
    pub fn evaluate(&self, key: u8, velocity: u8) -> (value: i128)
        ensures
            value == self.value(key, velocity),
            -MOST_VALUE <= value <= MOST_VALUE,
    {
        let level: i128 = self.src.evaluate(key, velocity);
        let scale: i128 = match self.amount_src {
            Some(source) => source.evaluate(key, velocity),
            None => SOURCE_UNIT,
        };
        let amount: i128 = self.amount as i128;
        proof {
            lemma_product_bound(amount as int, level as int, 32_768, 600_000_000_000);
            lemma_product_bound(
                amount * level,
                scale as int,
                19_660_800_000_000_000,
                600_000_000_000,
            );
        }
        let value: i128 = amount * level * scale;
        match self.transform {
            Sf2NoteTransform::Linear => value,
            Sf2NoteTransform::Absolute => if value < 0 {
                -value
            } else {
                value
            },
        }
    }

    /// The modulator from velocity to attenuation that every instrument has.
    pub open spec fn velocity_to_attenuation() -> Self {
        Sf2NoteModulator {
            src: Sf2NoteModSource {
                controller: Sf2NoteController::Velocity,
                direction: Sf2NoteDirection::Negative,
                polarity: Sf2NotePolarity::Unipolar,
                curve: Sf2NoteCurve::Concave,
            },
            amount_src: None,
            dest: Sf2NoteModDestination::InitialAttenuation,
            amount: 960,
            transform: Sf2NoteTransform::Linear,
        }
    }

    /// The modulator from velocity to filter cutoff that every instrument has.
    pub open spec fn velocity_to_filter_cutoff() -> Self {
        Sf2NoteModulator {
            src: Sf2NoteModSource {
                controller: Sf2NoteController::Velocity,
                direction: Sf2NoteDirection::Negative,
                polarity: Sf2NotePolarity::Unipolar,
                curve: Sf2NoteCurve::Linear,
            },
            amount_src: Some(
                Sf2NoteModSource {
                    controller: Sf2NoteController::Velocity,
                    direction: Sf2NoteDirection::Positive,
                    polarity: Sf2NotePolarity::Unipolar,
                    curve: Sf2NoteCurve::Switch,
                },
            ),
            dest: Sf2NoteModDestination::InitialFilterFc,
            amount: -2400i16,
            transform: Sf2NoteTransform::Linear,
        }
    }

    /// The modulator from velocity to attenuation that every instrument has.
    pub fn default_velocity_to_attenuation() -> (modulator: Self)
        ensures
            modulator == Self::velocity_to_attenuation(),
    {
        let (dest, amount, controllers, flags) = default_attenuation_parts();
        let dest = match GeneratorType::from_number(dest) {
            Some(dest) => dest,
            None => GeneratorType::EndOper,
        };
        let src = ModulatorSource {
            index: controllers.0,
            controller_palette: ControllerPalette::General(
                GeneralPalette::from_number(controllers.0),
            ),
            direction: if flags.0 {
                SourceDirection::Negative
            } else {
                SourceDirection::Positive
            },
            polarity: if flags.1 {
                SourcePolarity::Bipolar
            } else {
                SourcePolarity::Unipolar
            },
            ty: if flags.2 {
                SourceType::Concave
            } else {
                SourceType::Linear
            },
        };
        let amt_src = ModulatorSource {
            index: controllers.1,
            controller_palette: ControllerPalette::General(
                GeneralPalette::from_number(controllers.1),
            ),
            direction: SourceDirection::Positive,
            polarity: SourcePolarity::Unipolar,
            ty: SourceType::Linear,
        };
        let transform = if flags.3 {
            ModulatorTransform::Absolute
        } else {
            ModulatorTransform::Linear
        };
        let parsed = Self::parse(&Modulator { src, dest, amount, amt_src, transform });
        parsed.unwrap()
    }

    /// The modulator from velocity to filter cutoff that every instrument has.
    pub fn default_velocity_to_filter_cutoff() -> (modulator: Self)
        ensures
            modulator == Self::velocity_to_filter_cutoff(),
    {
        Sf2NoteModulator {
            src: Sf2NoteModSource {
                controller: Sf2NoteController::Velocity,
                direction: Sf2NoteDirection::Negative,
                polarity: Sf2NotePolarity::Unipolar,
                curve: Sf2NoteCurve::Linear,
            },
            amount_src: Some(
                Sf2NoteModSource {
                    controller: Sf2NoteController::Velocity,
                    direction: Sf2NoteDirection::Positive,
                    polarity: Sf2NotePolarity::Unipolar,
                    curve: Sf2NoteCurve::Switch,
                },
            ),
            dest: Sf2NoteModDestination::InitialFilterFc,
            amount: -2400,
            transform: Sf2NoteTransform::Linear,
        }
    }
}

/// A bound on what one modulator adds: 32768 times the square of the bound on a source.
pub const MOST_VALUE: i128 = 11_796_480_000_000_000_000_000_000_000;

/// A product is bounded by the product of the bounds.
proof fn lemma_product_bound(a: int, b: int, most_a: int, most_b: int)
    by (nonlinear_arith)
    requires
        -most_a <= a <= most_a,
        -most_b <= b <= most_b,
    ensures
        -(most_a * most_b) <= a * b <= most_a * most_b,
{
}

/// `soundfont::raw::default_modulators::DEFAULT_VEL2ATT_MOD`: the number of the generator that it
/// changes, its amount, the numbers of the general controllers of its source and of its amount
/// source, and whether its source is negative, bipolar and concave and its transform absolute. It
/// changes the initial attenuation by 960 along a falling unipolar concave curve of the velocity.
#[verifier::external_body]
fn default_attenuation_parts() -> (parts: (u16, i16, (u8, u8), (bool, bool, bool, bool)))
    ensures
        parts == (48u16, 960i16, (2u8, 0u8), (true, false, true, false)),
{
    let modulator = &default_modulators::DEFAULT_VEL2ATT_MOD;
    let src = &modulator.src;
    let absolute = modulator.transform == soundfont::raw::ModulatorTransform::Absolute;
    (
        modulator.dest as u16,
        modulator.amount,
        (src.index, modulator.amt_src.index),
        (src.is_negative(), src.is_bipolar(), src.is_concave(), absolute),
    )
}

/// The two modulators that every instrument has.
pub open spec fn default_modulators_of_instruments() -> Seq<Sf2NoteModulator> {
    seq![
        Sf2NoteModulator::velocity_to_attenuation(),
        Sf2NoteModulator::velocity_to_filter_cutoff(),
    ]
}

/// The two modulators that every instrument has.
pub fn default_note_modulators() -> (modulators: [Sf2NoteModulator; 2])
    ensures
        modulators@ == default_modulators_of_instruments(),
{
    [
        Sf2NoteModulator::default_velocity_to_attenuation(),
        Sf2NoteModulator::default_velocity_to_filter_cutoff(),
    ]
}

/// What the modulators of a note add up to, each in fractions of `AMOUNT_UNIT`.
#[derive(Copy, Clone, Debug, PartialEq, Eq, Structural)]
pub struct Sf2NoteModulation {
    pub attenuation_cb: i128,
    pub cutoff_cents: i128,
    pub resonance_cb: i128,
    pub pan: i128,
    pub tune_cents: i128,
    pub delay_tc: i128,
    pub attack_tc: i128,
    pub hold_tc: i128,
    pub decay_tc: i128,
    pub sustain_cb: i128,
    pub release_tc: i128,
}

/// The sum of what the modulators of one destination add to it.
pub open spec fn total(
    modulators: Seq<Sf2NoteModulator>,
    dest: Sf2NoteModDestination,
    key: u8,
    velocity: u8,
) -> int
    decreases modulators.len(),
{
    if modulators.len() == 0 {
        0
    } else {
        let last = modulators.last();
        total(modulators.drop_last(), dest, key, velocity) + if last.dest == dest {
            last.value(key, velocity)
        } else {
            0
        }
    }
}

impl Sf2NoteModulation {
    /// Whether this is what the modulators add up to. A semitone of coarse tune is 100 cents.
    pub open spec fn adds_up(
        self,
        modulators: Seq<Sf2NoteModulator>,
        key: u8,
        velocity: u8,
    ) -> bool {
        &&& self.attenuation_cb == total(modulators, Sf2NoteModDestination::InitialAttenuation, key, velocity)
        &&& self.cutoff_cents == total(modulators, Sf2NoteModDestination::InitialFilterFc, key, velocity)
        &&& self.resonance_cb == total(modulators, Sf2NoteModDestination::InitialFilterQ, key, velocity)
        &&& self.pan == total(modulators, Sf2NoteModDestination::Pan, key, velocity)
        &&& self.delay_tc == total(modulators, Sf2NoteModDestination::DelayVolEnv, key, velocity)
        &&& self.attack_tc == total(modulators, Sf2NoteModDestination::AttackVolEnv, key, velocity)
        &&& self.hold_tc == total(modulators, Sf2NoteModDestination::HoldVolEnv, key, velocity)
        &&& self.decay_tc == total(modulators, Sf2NoteModDestination::DecayVolEnv, key, velocity)
        &&& self.sustain_cb == total(modulators, Sf2NoteModDestination::SustainVolEnv, key, velocity)
        &&& self.release_tc == total(modulators, Sf2NoteModDestination::ReleaseVolEnv, key, velocity)
        &&& self.tune_cents == total(modulators, Sf2NoteModDestination::FineTune, key, velocity)
            + 100 * total(modulators, Sf2NoteModDestination::CoarseTune, key, velocity)
    }
}

/// The envelope generators of a region: timecents, and centibels for the sustain level.
#[derive(Copy, Clone, Debug, PartialEq, Eq, Structural)]
pub struct Sf2RawEnvelope {
    pub delay_tc: i32,
    pub attack_tc: i32,
    pub hold_tc: i32,
    pub decay_tc: i32,
    pub sustain_cb: i32,
    pub release_tc: i32,
}

/// The envelope of a region that sets none.
pub fn default_raw_envelope() -> (envelope: Sf2RawEnvelope)
    ensures
        envelope == (Sf2RawEnvelope {
            delay_tc: DEFAULT_VOL_ENV_TIMECENTS,
            attack_tc: DEFAULT_VOL_ENV_TIMECENTS,
            hold_tc: DEFAULT_VOL_ENV_TIMECENTS,
            decay_tc: DEFAULT_VOL_ENV_TIMECENTS,
            sustain_cb: 0,
            release_tc: DEFAULT_VOL_ENV_TIMECENTS,
        }),
{
    Sf2RawEnvelope {
        delay_tc: DEFAULT_VOL_ENV_TIMECENTS,
        attack_tc: DEFAULT_VOL_ENV_TIMECENTS,
        hold_tc: DEFAULT_VOL_ENV_TIMECENTS,
        decay_tc: DEFAULT_VOL_ENV_TIMECENTS,
        sustain_cb: 0,
        release_tc: DEFAULT_VOL_ENV_TIMECENTS,
    }
}

/// What a region says about its notes.
pub struct Sf2Region {
    pub pan: i16,
    pub cutoff_cents: Option<i32>,
    pub raw_envelope: Sf2RawEnvelope,
    pub keynum_to_vol_env_hold: i16,
    pub keynum_to_vol_env_decay: i16,
    pub note_modulators: Vec<Sf2NoteModulator>,
}

/// The envelope of a note. Times are in timecents, None for no time at all; the sustain level is in
/// centibels below full. Each counts fractions of `AMOUNT_UNIT`.
#[derive(Copy, Clone, Debug, PartialEq, Eq, Structural)]
pub struct Sf2NoteEnvelope {
    pub delay_tc: Option<i128>,
    pub attack_tc: Option<i128>,
    pub hold_tc: Option<i128>,
    pub decay_tc: Option<i128>,
    pub sustain_cb: i128,
    pub release_tc: Option<i128>,
}

/// The parameters of a note. All but the pan count fractions of `AMOUNT_UNIT`.
#[derive(Copy, Clone, Debug, PartialEq, Eq, Structural)]
pub struct Sf2NoteParams {
    /// By how much the note is softer than its region, in centibels.
    pub attenuation_cb: i128,
    /// From -500 (left) to 500 (right).
    pub pan: i16,
    /// The filter cutoff in cents, if there is a filter.
    pub cutoff: Option<i128>,
    /// What is added to the resonance of the region, in centibels.
    pub resonance_cb: i128,
    /// What is added to the tuning of the region, in cents.
    pub tune_cents: i128,
    pub envelope: Sf2NoteEnvelope,
}

/// How many timecents an envelope stage is longer for a key, which is none for middle C.
pub fn keynum_to_timecents(amount: i16, key: u8) -> (timecents: i32)
    ensures
        timecents == (60 - key) * amount,
{
    let distance: i32 = 60 - key as i32;
    proof {
        lemma_product_bound(distance as int, amount as int, 195, 32_768);
    }
    distance * amount as i32
}

/// The time that a stage takes: none at all far enough below, and otherwise held to what a file may
/// say.
pub open spec fn stage_timecents(timecents: int) -> Option<int> {
    if timecents <= -32_768 * AMOUNT_UNIT {
        None
    } else {
        Some(held(timecents, -12_000 * AMOUNT_UNIT, 8_000 * AMOUNT_UNIT))
    }
}

/// Whether `found` is the time that a stage takes.
pub open spec fn is_stage(found: Option<i128>, timecents: int) -> bool {
    match found {
        Some(t) => stage_timecents(timecents) == Some(t as int),
        None => stage_timecents(timecents) is None,
    }
}

/// The nearest whole number, and of two the one farther from zero.
pub open spec fn rounded(value: int) -> int {
    if value >= 0 {
        (2 * value + AMOUNT_UNIT) / (2 * AMOUNT_UNIT as int)
    } else {
        -((-2 * value + AMOUNT_UNIT) / (2 * AMOUNT_UNIT as int))
    }
}

impl Sf2Region {
    /// The number of modulators is one that a soundfont can list.
    pub open spec fn wf(&self) -> bool {
        self.note_modulators@.len() <= 1_000_000
    }

    /// Whether `params` are the parameters of a note of this region, where its modulators add up to
    /// `modulation`.
    pub open spec fn plays_with(
        &self,
        modulation: Sf2NoteModulation,
        key: u8,
        params: Sf2NoteParams,
    ) -> bool {
        let env = self.raw_envelope;
        let found = params.envelope;
        &&& params.attenuation_cb == larger(modulation.attenuation_cb as int, 0)
        &&& params.pan == held(rounded(self.pan * AMOUNT_UNIT + modulation.pan), -500, 500)
        &&& match self.cutoff_cents {
            Some(cents) => params.cutoff == Some(
                held(
                    cents * AMOUNT_UNIT + modulation.cutoff_cents,
                    1_500 * AMOUNT_UNIT,
                    13_500 * AMOUNT_UNIT,
                ) as i128,
            ),
            None => params.cutoff == if modulation.cutoff_cents != 0 {
                Some((DEFAULT_FILTER_CUTOFF_CENTS * AMOUNT_UNIT) as i128)
            } else {
                None
            },
        }
        &&& params.resonance_cb == modulation.resonance_cb
        &&& params.tune_cents == modulation.tune_cents
        &&& is_stage(found.delay_tc, env.delay_tc * AMOUNT_UNIT + modulation.delay_tc)
        &&& is_stage(found.attack_tc, env.attack_tc * AMOUNT_UNIT + modulation.attack_tc)
        &&& is_stage(
            found.hold_tc,
            (env.hold_tc + (60 - key) * self.keynum_to_vol_env_hold) * AMOUNT_UNIT
                + modulation.hold_tc,
        )
        &&& is_stage(
            found.decay_tc,
            (env.decay_tc + (60 - key) * self.keynum_to_vol_env_decay) * AMOUNT_UNIT
                + modulation.decay_tc,
        )
        &&& found.sustain_cb == larger(env.sustain_cb * AMOUNT_UNIT + modulation.sustain_cb, 0)
        &&& is_stage(found.release_tc, env.release_tc * AMOUNT_UNIT + modulation.release_tc)
    }

    /// Whether `params` are the parameters of a note of this region.
    pub open spec fn plays(&self, key: u8, velocity: u8, params: Sf2NoteParams) -> bool {
        exists|modulation: Sf2NoteModulation| #[trigger]
            modulation.adds_up(self.note_modulators@, key, velocity) && self.plays_with(
                modulation,
                key,
                params,
            )
    }

    /// What the modulators of the region add up to for a note.
    pub fn note_modulation(&self, key: u8, velocity: u8) -> (out: Sf2NoteModulation)
        requires
            self.wf(),
        ensures
            out.adds_up(self.note_modulators@, key, velocity),
            out.is_bounded(),
    {
        let mut out = Sf2NoteModulation {
            attenuation_cb: 0,
            cutoff_cents: 0,
            resonance_cb: 0,
            pan: 0,
            tune_cents: 0,
            delay_tc: 0,
            attack_tc: 0,
            hold_tc: 0,
            decay_tc: 0,
            sustain_cb: 0,
            release_tc: 0,
        };
        let mut i: usize = 0;
        while i < self.note_modulators.len()
            invariant
                i <= self.note_modulators@.len() <= 1_000_000,
                out.attenuation_cb == total(
                    self.note_modulators@.take(i as int),
                    Sf2NoteModDestination::InitialAttenuation,
                    key,
                    velocity,
                ),
                -(i * MOST_VALUE) <= out.attenuation_cb <= i * MOST_VALUE,
                out.cutoff_cents == total(
                    self.note_modulators@.take(i as int),
                    Sf2NoteModDestination::InitialFilterFc,
                    key,
                    velocity,
                ),
                -(i * MOST_VALUE) <= out.cutoff_cents <= i * MOST_VALUE,
                out.resonance_cb == total(
                    self.note_modulators@.take(i as int),
                    Sf2NoteModDestination::InitialFilterQ,
                    key,
                    velocity,
                ),
                -(i * MOST_VALUE) <= out.resonance_cb <= i * MOST_VALUE,
                out.pan == total(
                    self.note_modulators@.take(i as int),
                    Sf2NoteModDestination::Pan,
                    key,
                    velocity,
                ),
                -(i * MOST_VALUE) <= out.pan <= i * MOST_VALUE,
                out.delay_tc == total(
                    self.note_modulators@.take(i as int),
                    Sf2NoteModDestination::DelayVolEnv,
                    key,
                    velocity,
                ),
                -(i * MOST_VALUE) <= out.delay_tc <= i * MOST_VALUE,
                out.attack_tc == total(
                    self.note_modulators@.take(i as int),
                    Sf2NoteModDestination::AttackVolEnv,
                    key,
                    velocity,
                ),
                -(i * MOST_VALUE) <= out.attack_tc <= i * MOST_VALUE,
                out.hold_tc == total(
                    self.note_modulators@.take(i as int),
                    Sf2NoteModDestination::HoldVolEnv,
                    key,
                    velocity,
                ),
                -(i * MOST_VALUE) <= out.hold_tc <= i * MOST_VALUE,
                out.decay_tc == total(
                    self.note_modulators@.take(i as int),
                    Sf2NoteModDestination::DecayVolEnv,
                    key,
                    velocity,
                ),
                -(i * MOST_VALUE) <= out.decay_tc <= i * MOST_VALUE,
                out.sustain_cb == total(
                    self.note_modulators@.take(i as int),
                    Sf2NoteModDestination::SustainVolEnv,
                    key,
                    velocity,
                ),
                -(i * MOST_VALUE) <= out.sustain_cb <= i * MOST_VALUE,
                out.release_tc == total(
                    self.note_modulators@.take(i as int),
                    Sf2NoteModDestination::ReleaseVolEnv,
                    key,
                    velocity,
                ),
                -(i * MOST_VALUE) <= out.release_tc <= i * MOST_VALUE,
                out.tune_cents == total(
                    self.note_modulators@.take(i as int),
                    Sf2NoteModDestination::FineTune,
                    key,
                    velocity,
                ) + 100 * total(
                    self.note_modulators@.take(i as int),
                    Sf2NoteModDestination::CoarseTune,
                    key,
                    velocity,
                ),
                -(i * 100 * MOST_VALUE) <= out.tune_cents <= i * 100 * MOST_VALUE,
            decreases self.note_modulators@.len() - i,
        {
            let modulator = &self.note_modulators[i];
            let amount: i128 = modulator.evaluate(key, velocity);
            proof {
                let now = self.note_modulators@.take(i as int);
                let next = self.note_modulators@.take(i + 1);
                assert(next.drop_last() =~= now);
                assert(next.last() == self.note_modulators@[i as int]);
            }
            match modulator.dest {
                Sf2NoteModDestination::InitialAttenuation => {
                    out.attenuation_cb += amount;
                },
                Sf2NoteModDestination::InitialFilterFc => {
                    out.cutoff_cents += amount;
                },
                Sf2NoteModDestination::InitialFilterQ => {
                    out.resonance_cb += amount;
                },
                Sf2NoteModDestination::Pan => {
                    out.pan += amount;
                },
                Sf2NoteModDestination::DelayVolEnv => {
                    out.delay_tc += amount;
                },
                Sf2NoteModDestination::AttackVolEnv => {
                    out.attack_tc += amount;
                },
                Sf2NoteModDestination::HoldVolEnv => {
                    out.hold_tc += amount;
                },
                Sf2NoteModDestination::DecayVolEnv => {
                    out.decay_tc += amount;
                },
                Sf2NoteModDestination::SustainVolEnv => {
                    out.sustain_cb += amount;
                },
                Sf2NoteModDestination::ReleaseVolEnv => {
                    out.release_tc += amount;
                },
                Sf2NoteModDestination::FineTune => {
                    out.tune_cents += amount;
                },
                Sf2NoteModDestination::CoarseTune => {
                    out.tune_cents += amount * 100;
                },
            }
            i += 1;
        }
        assert(self.note_modulators@.take(i as int) =~= self.note_modulators@);
        out
    }

    /// The parameters of a note of the region.
    pub fn note_params(&self, key: u8, velocity: u8) -> (params: Sf2NoteParams)
        requires
            self.wf(),
        ensures
            self.plays(key, velocity, params),
    {
        let modulation = self.note_modulation(key, velocity);
        self.note_params_with(&modulation, key)
    }

    /// The parameters of a note of the region, from what its modulators add up to.
    pub fn note_params_with(&self, modulation: &Sf2NoteModulation, key: u8) -> (params:
        Sf2NoteParams)
        requires
            modulation.is_bounded(),
        ensures
            self.plays_with(*modulation, key, params),
    {
        let hold_keytrack: i32 = keynum_to_timecents(self.keynum_to_vol_env_hold, key);
        let decay_keytrack: i32 = keynum_to_timecents(self.keynum_to_vol_env_decay, key);
        proof {
            lemma_product_bound(60 - key, self.keynum_to_vol_env_hold as int, 195, 32_768);
            lemma_product_bound(60 - key, self.keynum_to_vol_env_decay as int, 195, 32_768);
        }
        let cutoff: Option<i128> = match self.cutoff_cents {
            Some(cents) => Some(
                clamp(
                    cents as i128 * AMOUNT_UNIT + modulation.cutoff_cents,
                    1_500 * AMOUNT_UNIT,
                    13_500 * AMOUNT_UNIT,
                ),
            ),
            None => if modulation.cutoff_cents != 0 {
                Some(DEFAULT_FILTER_CUTOFF_CENTS * AMOUNT_UNIT)
            } else {
                None
            },
        };
        let env = self.raw_envelope;
        let envelope = Sf2NoteEnvelope {
            delay_tc: stage(env.delay_tc as i128 * AMOUNT_UNIT + modulation.delay_tc),
            attack_tc: stage(env.attack_tc as i128 * AMOUNT_UNIT + modulation.attack_tc),
            hold_tc: stage(
                (env.hold_tc as i128 + hold_keytrack as i128) * AMOUNT_UNIT + modulation.hold_tc,
            ),
            decay_tc: stage(
                (env.decay_tc as i128 + decay_keytrack as i128) * AMOUNT_UNIT
                    + modulation.decay_tc,
            ),
            sustain_cb: at_least_zero(
                env.sustain_cb as i128 * AMOUNT_UNIT + modulation.sustain_cb,
            ),
            release_tc: stage(env.release_tc as i128 * AMOUNT_UNIT + modulation.release_tc),
        };
        Sf2NoteParams {
            attenuation_cb: at_least_zero(modulation.attenuation_cb),
            pan: round_pan(self.pan as i128 * AMOUNT_UNIT + modulation.pan),
            cutoff,
            resonance_cb: modulation.resonance_cb,
            tune_cents: modulation.tune_cents,
            envelope,
        }
    }
}

/// A bound on what a million modulators add up to.
pub const MOST_TOTAL: i128 = 11_796_480_000_000_000_000_000_000_000_000_000;

impl Sf2NoteModulation {
    /// The sums leave room for what a region adds to them.
    pub open spec fn is_bounded(self) -> bool {
        &&& -MOST_TOTAL <= self.attenuation_cb <= MOST_TOTAL
        &&& -MOST_TOTAL <= self.cutoff_cents <= MOST_TOTAL
        &&& -MOST_TOTAL <= self.pan <= MOST_TOTAL
        &&& -MOST_TOTAL <= self.delay_tc <= MOST_TOTAL
        &&& -MOST_TOTAL <= self.attack_tc <= MOST_TOTAL
        &&& -MOST_TOTAL <= self.hold_tc <= MOST_TOTAL
        &&& -MOST_TOTAL <= self.decay_tc <= MOST_TOTAL
        &&& -MOST_TOTAL <= self.sustain_cb <= MOST_TOTAL
        &&& -MOST_TOTAL <= self.release_tc <= MOST_TOTAL
    }
}

/// Holds a value between two others.
fn clamp(value: i128, low: i128, high: i128) -> (held_value: i128)
    requires
        low <= high,
    ensures
        held_value == held(value as int, low as int, high as int),
{
    if value < low {
        low
    } else if value > high {
        high
    } else {
        value
    }
}

/// Holds a value at or above zero.
fn at_least_zero(value: i128) -> (held_value: i128)
    ensures
        held_value == larger(value as int, 0),
{
    if value < 0 {
        0
    } else {
        value
    }
}

/// The time that a stage takes.
fn stage(timecents: i128) -> (found: Option<i128>)
    ensures
        is_stage(found, timecents as int),
{
    if timecents <= -32_768 * AMOUNT_UNIT {
        None
    } else {
        Some(clamp(timecents, -12_000 * AMOUNT_UNIT, 8_000 * AMOUNT_UNIT))
    }
}

/// Rounds a pan position, and holds it to the ends of the scale.
fn round_pan(value: i128) -> (pan: i16)
    requires
        -20_000_000_000_000_000_000_000_000_000_000_000 <= value
            <= 20_000_000_000_000_000_000_000_000_000_000_000,
    ensures
        pan == held(rounded(value as int), -500, 500),
{
    let whole: i128 = if value >= 0 {
        (2 * value + AMOUNT_UNIT) / (2 * AMOUNT_UNIT)
    } else {
        -((-2 * value + AMOUNT_UNIT) / (2 * AMOUNT_UNIT))
    };
    clamp(whole, -500, 500) as i16
}

/// Every entry of the curve tables lies between 0 and 1.
proof fn lemma_tables_in_unit(i: int)
    requires
        0 <= i < 128,
    ensures
        CONCAVE_TABLE@[i] <= TABLE_UNIT,
        CONVEX_TABLE@[i] <= TABLE_UNIT,
{
}

/// The convex curve is the concave curve with its ends exchanged.
pub proof fn lemma_convex_mirrors_concave(i: int)
    requires
        0 <= i < 128,
    ensures
        CONVEX_TABLE@[i] + CONCAVE_TABLE@[127 - i] == TABLE_UNIT,
{
}

/// For every key and velocity that MIDI has, a source lies between -1 and 1, and a unipolar source
/// does not go below 0.
pub proof fn lemma_source_in_range(source: Sf2NoteModSource, key: u8, velocity: u8)
    requires
        key <= 127,
        velocity <= 127,
    ensures
        -SOURCE_UNIT <= source.level(key, velocity) <= SOURCE_UNIT,
        source.polarity is Unipolar ==> source.level(key, velocity) >= 0,
{
    let x = source.position(key, velocity);
    lemma_tables_in_unit(held(x, 0, 127));
    lemma_tables_in_unit(held(2 * x - 127, 0, 127));
    lemma_tables_in_unit(held(127 - 2 * x, 0, 127));
}

/// A bipolar source that falls is the negative of the one that grows.
pub proof fn lemma_bipolar_directions(source: Sf2NoteModSource, key: u8, velocity: u8)
    requires
        source.polarity is Bipolar,
    ensures
        (Sf2NoteModSource { direction: Sf2NoteDirection::Negative, ..source }).level(key, velocity)
            == -(Sf2NoteModSource { direction: Sf2NoteDirection::Positive, ..source }).level(
            key,
            velocity,
        ),
{
}

/// The concave curve rises all the way, from 0 to 1.
proof fn lemma_concave_rises(i: int, j: int)
    requires
        0 <= i < j < 128,
    ensures
        CONCAVE_TABLE@[0] == 0,
        CONCAVE_TABLE@[127] == TABLE_UNIT,
        CONCAVE_TABLE@[i] < CONCAVE_TABLE@[j],
    decreases j - i,
{
    if i + 1 < j {
        lemma_concave_rises(i, j - 1);
    }
    lemma_concave_step(j - 1);
}

/// The concave curve rises at each step.
proof fn lemma_concave_step(i: int)
    requires
        0 <= i < 127,
    ensures
        CONCAVE_TABLE@[i] < CONCAVE_TABLE@[i + 1],
{
}

/// The concave curve lies below a straight line.
proof fn lemma_concave_is_low(i: int)
    requires
        0 <= i < 128,
    ensures
        CONCAVE_TABLE@[i] * 127 <= i * TABLE_UNIT,
{
}

/// Softer strokes are softer notes. With the modulators that every instrument has, a note of a lower
/// velocity is attenuated by more; at the highest velocity it is not attenuated at all.
pub proof fn lemma_softer_strokes_are_softer(
    modulators: [Sf2NoteModulator; 2],
    region: Sf2Region,
    key: u8,
    soft: u8,
    loud: u8,
    soft_params: Sf2NoteParams,
    loud_params: Sf2NoteParams,
)
    requires
        call_ensures(default_note_modulators, (), modulators),
        region.note_modulators@ == modulators@,
        soft < loud <= 127,
        call_ensures(Sf2Region::note_params, (&region, key, soft), soft_params),
        call_ensures(Sf2Region::note_params, (&region, key, loud), loud_params),
    ensures
        soft_params.attenuation_cb > loud_params.attenuation_cb >= 0,
        loud == 127 ==> loud_params.attenuation_cb == 0,
        soft == 0 ==> soft_params.attenuation_cb == 960 * AMOUNT_UNIT,
{
    lemma_concave_rises(127 - loud, 127 - soft);
    lemma_default_attenuation(region, key, soft, soft_params);
    lemma_default_attenuation(region, key, loud, loud_params);
}

/// What the modulators of every instrument make of a velocity.
proof fn lemma_default_attenuation(
    region: Sf2Region,
    key: u8,
    velocity: u8,
    params: Sf2NoteParams,
)
    requires
        region.note_modulators@ == default_modulators_of_instruments(),
        velocity <= 127,
        region.plays(key, velocity, params),
    ensures
        params.attenuation_cb == 960 * (CONCAVE_TABLE@[127 - velocity] * 127) * SOURCE_UNIT,
{
    let modulators = region.note_modulators@;
    let a = modulators[0];
    assert(modulators.drop_last() =~= seq![a]);
    assert(modulators.drop_last().drop_last() =~= Seq::<Sf2NoteModulator>::empty());
    reveal_with_fuel(total, 3);
    assert(total(modulators, Sf2NoteModDestination::InitialAttenuation, key, velocity) == a.value(
        key,
        velocity,
    ));
    let level = CONCAVE_TABLE@[127 - velocity] * 127;
    assert(a.src.level(key, velocity) == level);
    assert(a.value(key, velocity) == 960 * level * SOURCE_UNIT);
}

/// Each modulator adds its value to the parameter that it changes, and to no other. A coarse tune counts
/// in semitones of 100 cents. Without modulators nothing is added.
pub proof fn lemma_modulators_add_up(
    fewer: Sf2Region,
    more: Sf2Region,
    modulator: Sf2NoteModulator,
    key: u8,
    velocity: u8,
    before: Sf2NoteModulation,
    value: i128,
    after: Sf2NoteModulation,
)
    requires
        more.note_modulators@ == fewer.note_modulators@.push(modulator),
        call_ensures(Sf2Region::note_modulation, (&fewer, key, velocity), before),
        call_ensures(Sf2NoteModulator::evaluate, (&modulator, key, velocity), value),
        call_ensures(Sf2Region::note_modulation, (&more, key, velocity), after),
    ensures
        fewer.note_modulators@.len() == 0 ==> before == (Sf2NoteModulation {
            attenuation_cb: 0,
            cutoff_cents: 0,
            resonance_cb: 0,
            pan: 0,
            tune_cents: 0,
            delay_tc: 0,
            attack_tc: 0,
            hold_tc: 0,
            decay_tc: 0,
            sustain_cb: 0,
            release_tc: 0,
        }),
        match modulator.dest {
            Sf2NoteModDestination::InitialAttenuation => after == (Sf2NoteModulation {
                attenuation_cb: (before.attenuation_cb + value) as i128,
                ..before
            }) && after.attenuation_cb == before.attenuation_cb + value,
            Sf2NoteModDestination::InitialFilterFc => after == (Sf2NoteModulation {
                cutoff_cents: (before.cutoff_cents + value) as i128,
                ..before
            }) && after.cutoff_cents == before.cutoff_cents + value,
            Sf2NoteModDestination::InitialFilterQ => after == (Sf2NoteModulation {
                resonance_cb: (before.resonance_cb + value) as i128,
                ..before
            }) && after.resonance_cb == before.resonance_cb + value,
            Sf2NoteModDestination::Pan => after == (Sf2NoteModulation {
                pan: (before.pan + value) as i128,
                ..before
            }) && after.pan == before.pan + value,
            Sf2NoteModDestination::DelayVolEnv => after == (Sf2NoteModulation {
                delay_tc: (before.delay_tc + value) as i128,
                ..before
            }) && after.delay_tc == before.delay_tc + value,
            Sf2NoteModDestination::AttackVolEnv => after == (Sf2NoteModulation {
                attack_tc: (before.attack_tc + value) as i128,
                ..before
            }) && after.attack_tc == before.attack_tc + value,
            Sf2NoteModDestination::HoldVolEnv => after == (Sf2NoteModulation {
                hold_tc: (before.hold_tc + value) as i128,
                ..before
            }) && after.hold_tc == before.hold_tc + value,
            Sf2NoteModDestination::DecayVolEnv => after == (Sf2NoteModulation {
                decay_tc: (before.decay_tc + value) as i128,
                ..before
            }) && after.decay_tc == before.decay_tc + value,
            Sf2NoteModDestination::SustainVolEnv => after == (Sf2NoteModulation {
                sustain_cb: (before.sustain_cb + value) as i128,
                ..before
            }) && after.sustain_cb == before.sustain_cb + value,
            Sf2NoteModDestination::ReleaseVolEnv => after == (Sf2NoteModulation {
                release_tc: (before.release_tc + value) as i128,
                ..before
            }) && after.release_tc == before.release_tc + value,
            Sf2NoteModDestination::FineTune => after == (Sf2NoteModulation {
                tune_cents: (before.tune_cents + value) as i128,
                ..before
            }) && after.tune_cents == before.tune_cents + value,
            Sf2NoteModDestination::CoarseTune => after == (Sf2NoteModulation {
                tune_cents: (before.tune_cents + 100 * value) as i128,
                ..before
            }) && after.tune_cents == before.tune_cents + 100 * value,
        },
{
    assert(more.note_modulators@.drop_last() =~= fewer.note_modulators@);
    assert(more.note_modulators@.last() == modulator);
}

/// Whether `time` is how long a stage of `timecents` takes. From -32768 timecents down it takes none;
/// else it is held between -12000 and 8000.
pub open spec fn is_held_time(timecents: int, time: Option<i128>) -> bool {
    let unit = AMOUNT_UNIT as int;
    if timecents <= -32_768 * unit {
        time is None
    } else if timecents < -12_000 * unit {
        time matches Some(t) && t == -12_000 * unit
    } else if timecents > 8_000 * unit {
        time matches Some(t) && t == 8_000 * unit
    } else {
        time matches Some(t) && t == timecents
    }
}

/// Whether the parameters of a note follow from what its modulators add up to.
pub open spec fn follows_sums(
    region: Sf2Region,
    key: u8,
    sums: Sf2NoteModulation,
    params: Sf2NoteParams,
) -> bool {
    &&& sums.attenuation_cb > 0 ==> params.attenuation_cb == sums.attenuation_cb
    &&& sums.attenuation_cb <= 0 ==> params.attenuation_cb == 0
    &&& params.resonance_cb == sums.resonance_cb
    &&& params.tune_cents == sums.tune_cents
    &&& ({
        let unit = AMOUNT_UNIT as int;
        let x = region.pan * unit + sums.pan;
        let error = 2 * (params.pan * unit - x);
        &&& -500 <= params.pan <= 500
        &&& 0 <= x <= 500 * unit ==> -unit < error <= unit
        &&& -500 * unit <= x < 0 ==> -unit <= error < unit
        &&& x > 500 * unit ==> params.pan == 500
        &&& x < -500 * unit ==> params.pan == -500
    })
    &&& ({
        let unit = AMOUNT_UNIT as int;
        match region.cutoff_cents {
            Some(cents) => {
                let x = cents * unit + sums.cutoff_cents;
                &&& params.cutoff is Some
                &&& params.cutoff->0 == if x < 1_500 * unit {
                    1_500 * unit
                } else if x > 13_500 * unit {
                    13_500 * unit
                } else {
                    x
                }
            },
            None => if sums.cutoff_cents == 0 {
                params.cutoff is None
            } else {
                params.cutoff matches Some(x) && x == 13_500 * unit
            },
        }
    })
    &&& ({
        let unit = AMOUNT_UNIT as int;
        let raw = region.raw_envelope;
        let env = params.envelope;
        let hold = raw.hold_tc + (60 - key) * region.keynum_to_vol_env_hold;
        let decay = raw.decay_tc + (60 - key) * region.keynum_to_vol_env_decay;
        let sustain = raw.sustain_cb * unit + sums.sustain_cb;
        &&& is_held_time(raw.delay_tc * unit + sums.delay_tc, env.delay_tc)
        &&& is_held_time(raw.attack_tc * unit + sums.attack_tc, env.attack_tc)
        &&& is_held_time(hold * unit + sums.hold_tc, env.hold_tc)
        &&& is_held_time(decay * unit + sums.decay_tc, env.decay_tc)
        &&& is_held_time(raw.release_tc * unit + sums.release_tc, env.release_tc)
        &&& env.sustain_cb == if sustain > 0 {
            sustain
        } else {
            0
        }
    })
}

/// The parameters of a note are those of its region, each changed by what the modulators add to it. The
/// attenuation is that sum, where it is above zero, and so is the attenuation of the sustain level with
/// that of the region. The pan is the nearest step between its ends, and the filter cutoff lies
/// between 1500 and 13500 cents; without one a note has a filter only where a modulator changes it.
/// The times of the envelope are held to what a file may say, and those of hold and decay change with
/// the distance of the key from middle C.
pub proof fn lemma_note_params(
    region: Sf2Region,
    key: u8,
    velocity: u8,
    sums: Sf2NoteModulation,
    params: Sf2NoteParams,
)
    requires
        call_ensures(Sf2Region::note_modulation, (&region, key, velocity), sums),
        call_ensures(Sf2Region::note_params, (&region, key, velocity), params),
    ensures
        follows_sums(region, key, sums, params),
{
    let modulation = choose|modulation: Sf2NoteModulation| #[trigger]
        modulation.adds_up(region.note_modulators@, key, velocity) && region.plays_with(
            modulation,
            key,
            params,
        );
    assert(modulation == sums);
    lemma_rounded(region.pan * AMOUNT_UNIT + sums.pan);
}

/// The same holds where what the modulators add up to is given.
pub proof fn lemma_note_params_with(
    region: Sf2Region,
    key: u8,
    sums: Sf2NoteModulation,
    params: Sf2NoteParams,
)
    requires
        call_ensures(Sf2Region::note_params_with, (&region, &sums, key), params),
    ensures
        follows_sums(region, key, sums, params),
{
    lemma_rounded(region.pan * AMOUNT_UNIT + sums.pan);
}

/// A rounded value is the nearest step, and of two the one farther from zero.
proof fn lemma_rounded(x: int)
    ensures
        x >= 0 ==> -AMOUNT_UNIT < 2 * (rounded(x) * AMOUNT_UNIT - x) <= AMOUNT_UNIT,
        x < 0 ==> -AMOUNT_UNIT <= 2 * (rounded(x) * AMOUNT_UNIT - x) < AMOUNT_UNIT,
{
}

/// Where the values of the modulators of the attenuation add up to a positive number of centibels, that
/// number is the attenuation of the note: of two notes the one with the larger sum is the softer one.
pub proof fn lemma_attenuation_orders_notes(
    region: Sf2Region,
    key: u8,
    velocity: u8,
    sums: Sf2NoteModulation,
    params: Sf2NoteParams,
    other: Sf2Region,
    other_key: u8,
    other_velocity: u8,
    other_sums: Sf2NoteModulation,
    other_params: Sf2NoteParams,
)
    requires
        call_ensures(Sf2Region::note_modulation, (&region, key, velocity), sums),
        call_ensures(Sf2Region::note_params, (&region, key, velocity), params),
        call_ensures(Sf2Region::note_modulation, (&other, other_key, other_velocity), other_sums),
        call_ensures(Sf2Region::note_params, (&other, other_key, other_velocity), other_params),
        sums.attenuation_cb > 0,
    ensures
        params.attenuation_cb == sums.attenuation_cb,
        other_sums.attenuation_cb > sums.attenuation_cb ==> other_params.attenuation_cb
            > params.attenuation_cb,
        other_sums.attenuation_cb < sums.attenuation_cb ==> other_params.attenuation_cb
            < params.attenuation_cb,
{
    lemma_note_params(region, key, velocity, sums, params);
    lemma_note_params(other, other_key, other_velocity, other_sums, other_params);
}

/// The hold and the decay of a note are unchanged at middle C, and change with the key in proportion:
/// with a positive amount they grow towards the low keys.
pub proof fn lemma_key_tracking(amount: i16, key: u8, timecents: i32, next: i32)
    requires
        key < u8::MAX,
        call_ensures(keynum_to_timecents, (amount, key), timecents),
        call_ensures(keynum_to_timecents, (amount, (key + 1) as u8), next),
    ensures
        key == 60 ==> timecents == 0,
        next == timecents - amount,
{
    assert((60 - (key + 1)) * amount == (60 - key) * amount - amount) by (nonlinear_arith);
    assert(key == 60 ==> (60 - key) * amount == 0) by (nonlinear_arith);
}

/// The source with another direction.
pub open spec fn in_direction(
    source: Sf2NoteModSource,
    direction: Sf2NoteDirection,
) -> Sf2NoteModSource {
    Sf2NoteModSource { direction, ..source }
}

/// A source listens to its own controller only, and reads the same curve for each: what a source of the
/// velocity gives for a velocity, the same source of the key gives for that key.
pub proof fn lemma_source_listens(
    source: Sf2NoteModSource,
    key: u8,
    velocity: u8,
    other: u8,
    level: i128,
    other_level: i128,
    swapped: i128,
)
    requires
        call_ensures(Sf2NoteModSource::evaluate, (&source, key, velocity), level),
        source.controller == Sf2NoteController::Velocity ==> call_ensures(
            Sf2NoteModSource::evaluate,
            (&source, other, velocity),
            other_level,
        ),
        source.controller == Sf2NoteController::KeyNumber ==> call_ensures(
            Sf2NoteModSource::evaluate,
            (&source, key, other),
            other_level,
        ),
        call_ensures(
            Sf2NoteModSource::evaluate,
            (
                &Sf2NoteModSource {
                    controller: if source.controller == Sf2NoteController::Velocity {
                        Sf2NoteController::KeyNumber
                    } else {
                        Sf2NoteController::Velocity
                    },
                    ..source
                },
                velocity,
                key,
            ),
            swapped,
        ),
    ensures
        other_level == level,
        swapped == level,
{
}

/// A source that falls is one that rises, seen from the other end.
pub proof fn lemma_source_directions(
    source: Sf2NoteModSource,
    key: u8,
    velocity: u8,
    falling: i128,
    rising: i128,
)
    requires
        key <= 127,
        velocity <= 127,
        call_ensures(
            Sf2NoteModSource::evaluate,
            (&in_direction(source, Sf2NoteDirection::Negative), key, velocity),
            falling,
        ),
        call_ensures(
            Sf2NoteModSource::evaluate,
            (
                &in_direction(source, Sf2NoteDirection::Positive),
                (127 - key) as u8,
                (127 - velocity) as u8,
            ),
            rising,
        ),
    ensures
        falling == rising,
{
}

/// A source that rises goes from its least value at 0 to 1 at 127: from 0 where it is unipolar, from -1
/// where it is bipolar. It never falls on the way, and a line and a unipolar curve rise at each step.
/// A line rises evenly, and a switch turns at 64.
pub proof fn lemma_source_rises(
    source: Sf2NoteModSource,
    low: u8,
    high: u8,
    low_level: i128,
    high_level: i128,
)
    requires
        source.direction == Sf2NoteDirection::Positive,
        low < high <= 127,
        call_ensures(Sf2NoteModSource::evaluate, (&source, low, low), low_level),
        call_ensures(Sf2NoteModSource::evaluate, (&source, high, high), high_level),
    ensures
        low_level <= high_level,
        source.curve == Sf2NoteCurve::Linear ==> low_level < high_level,
        source.polarity == Sf2NotePolarity::Unipolar && source.curve != Sf2NoteCurve::Switch
            ==> low_level < high_level,
        high == 127 ==> high_level == SOURCE_UNIT,
        low == 0 ==> low_level == match source.polarity {
            Sf2NotePolarity::Unipolar => 0,
            Sf2NotePolarity::Bipolar => -SOURCE_UNIT,
        },
        source.curve == Sf2NoteCurve::Linear ==> match source.polarity {
            Sf2NotePolarity::Unipolar => low_level == low * 1_000_000_000,
            Sf2NotePolarity::Bipolar => low_level == (2 * low - 127) * 1_000_000_000,
        },
        source.curve == Sf2NoteCurve::Switch && low < 64 ==> low_level != SOURCE_UNIT,
        source.curve == Sf2NoteCurve::Switch && high >= 64 ==> high_level == SOURCE_UNIT,
{
    let (a, b) = (low as int, high as int);
    lemma_concave_rises(a, b);
    lemma_concave_rises(127 - b, 127 - a);
    lemma_convex_mirrors_concave(a);
    lemma_convex_mirrors_concave(b);
    lemma_mirrored_rises(CONCAVE_TABLE, a, b);
    lemma_mirrored_rises(CONVEX_TABLE, a, b);
}

/// A mirrored curve rises.
proof fn lemma_mirrored_rises(table: [u32; 128], a: int, b: int)
    requires
        0 <= a < b <= 127,
        table == CONCAVE_TABLE || table == CONVEX_TABLE,
    ensures
        on_mirrored_curve(table, a) <= on_mirrored_curve(table, b),
        on_mirrored_curve(table, 0) == -SOURCE_UNIT,
        on_mirrored_curve(table, 127) == SOURCE_UNIT,
{
    if a >= 64 {
        lemma_concave_rises(2 * a - 127, 2 * b - 127);
        lemma_concave_rises(254 - 2 * b, 254 - 2 * a);
        lemma_convex_mirrors_concave(2 * a - 127);
        lemma_convex_mirrors_concave(2 * b - 127);
    } else if b < 64 {
        lemma_concave_rises(127 - 2 * b, 127 - 2 * a);
        lemma_concave_rises(2 * a, 2 * b);
        lemma_convex_mirrors_concave(127 - 2 * a);
        lemma_convex_mirrors_concave(127 - 2 * b);
    }
    lemma_concave_rises(0, 127);
    lemma_convex_mirrors_concave(127);
    lemma_convex_mirrors_concave(0);
}

/// A unipolar concave source lies below the line and a convex one above it; they are mirror images, and a
/// bipolar curve is the unipolar one on its upper half.
pub proof fn lemma_source_curves(
    controller: Sf2NoteController,
    value: u8,
    concave: i128,
    line: i128,
    convex: i128,
    opposite: i128,
)
    requires
        value <= 127,
        call_ensures(
            Sf2NoteModSource::evaluate,
            (&rising_source(controller, Sf2NoteCurve::Concave), value, value),
            concave,
        ),
        call_ensures(
            Sf2NoteModSource::evaluate,
            (&rising_source(controller, Sf2NoteCurve::Linear), value, value),
            line,
        ),
        call_ensures(
            Sf2NoteModSource::evaluate,
            (&rising_source(controller, Sf2NoteCurve::Convex), value, value),
            convex,
        ),
        call_ensures(
            Sf2NoteModSource::evaluate,
            (
                &rising_source(controller, Sf2NoteCurve::Concave),
                (127 - value) as u8,
                (127 - value) as u8,
            ),
            opposite,
        ),
    ensures
        concave <= line <= convex,
        convex == SOURCE_UNIT - opposite,
{
    lemma_concave_is_low(value as int);
    lemma_concave_is_low(127 - value);
    lemma_convex_mirrors_concave(value as int);
}

/// A unipolar source that rises along a curve.
pub open spec fn rising_source(
    controller: Sf2NoteController,
    curve: Sf2NoteCurve,
) -> Sf2NoteModSource {
    Sf2NoteModSource {
        controller,
        direction: Sf2NoteDirection::Positive,
        polarity: Sf2NotePolarity::Unipolar,
        curve,
    }
}

/// The value of a modulator is the product of its amount, its source and the source of its amount, which
/// counts as 1 where there is none. An absolute one drops the sign.
pub proof fn lemma_modulator_value(
    modulator: Sf2NoteModulator,
    key: u8,
    velocity: u8,
    level: i128,
    scale: i128,
    value: i128,
)
    requires
        call_ensures(Sf2NoteModSource::evaluate, (&modulator.src, key, velocity), level),
        match modulator.amount_src {
            Some(source) => call_ensures(
                Sf2NoteModSource::evaluate,
                (&source, key, velocity),
                scale,
            ),
            None => scale == SOURCE_UNIT,
        },
        call_ensures(Sf2NoteModulator::evaluate, (&modulator, key, velocity), value),
    ensures
        match modulator.transform {
            Sf2NoteTransform::Linear => value == modulator.amount * level * scale,
            Sf2NoteTransform::Absolute => value >= 0 && (value == modulator.amount * level * scale
                || value == -(modulator.amount * level * scale)),
        },
{
}

/// A modulator of a file is kept exactly when it depends on the key and the velocity alone, along a
/// known curve, and changes a known parameter. What is kept says what the file says.
pub proof fn lemma_parsed_modulator(modulator: Modulator, parsed: Option<Sf2NoteModulator>)
    requires
        call_ensures(Sf2NoteModulator::parse, (&modulator,), parsed),
    ensures
        parsed matches Some(m) ==> {
            &&& m.amount == modulator.amount
            &&& m.transform is Absolute <==> modulator.transform is Absolute
            &&& says(m.src, modulator.src)
            &&& match m.amount_src {
                None => modulator.amt_src.controller_palette == ControllerPalette::General(
                    GeneralPalette::NoController,
                ),
                Some(source) => says(source, modulator.amt_src),
            }
            &&& changes(m.dest, modulator.dest)
        },
        parsed is None ==> {
            ||| !is_known(modulator.src)
            ||| !is_known(modulator.amt_src) && modulator.amt_src.controller_palette
                != ControllerPalette::General(GeneralPalette::NoController)
            ||| forall|dest: Sf2NoteModDestination| !#[trigger] changes(dest, modulator.dest)
        },
        !is_known(modulator.src) ==> parsed is None,
{
    if parsed is None && is_known(modulator.src) && destination_of(modulator.dest) is Some {
        assert(changes(destination_of(modulator.dest)->0, modulator.dest));
    }
}

/// Whether a source of a file depends on the key or the velocity, along a known curve.
pub open spec fn is_known(source: ModulatorSource) -> bool {
    &&& source.controller_palette == ControllerPalette::General(GeneralPalette::NoteOnVelocity)
        || source.controller_palette == ControllerPalette::General(GeneralPalette::NoteOnKeyNumber)
    &&& !(source.ty is Unknown)
}

/// Whether a source says what the source of a file says.
pub open spec fn says(source: Sf2NoteModSource, file: ModulatorSource) -> bool {
    &&& match source.controller {
        Sf2NoteController::Velocity => file.controller_palette == ControllerPalette::General(
            GeneralPalette::NoteOnVelocity,
        ),
        Sf2NoteController::KeyNumber => file.controller_palette == ControllerPalette::General(
            GeneralPalette::NoteOnKeyNumber,
        ),
    }
    &&& match source.direction {
        Sf2NoteDirection::Positive => file.direction is Positive,
        Sf2NoteDirection::Negative => file.direction is Negative,
    }
    &&& match source.polarity {
        Sf2NotePolarity::Unipolar => file.polarity is Unipolar,
        Sf2NotePolarity::Bipolar => file.polarity is Bipolar,
    }
    &&& match source.curve {
        Sf2NoteCurve::Linear => file.ty is Linear,
        Sf2NoteCurve::Concave => file.ty is Concave,
        Sf2NoteCurve::Convex => file.ty is Convex,
        Sf2NoteCurve::Switch => file.ty is Switch,
    }
}

/// Whether a parameter is the one that a generator sets.
pub open spec fn changes(dest: Sf2NoteModDestination, ty: GeneratorType) -> bool {
    match dest {
        Sf2NoteModDestination::InitialAttenuation => ty is InitialAttenuation,
        Sf2NoteModDestination::InitialFilterFc => ty is InitialFilterFc,
        Sf2NoteModDestination::InitialFilterQ => ty is InitialFilterQ,
        Sf2NoteModDestination::Pan => ty is Pan,
        Sf2NoteModDestination::DelayVolEnv => ty is DelayVolEnv,
        Sf2NoteModDestination::AttackVolEnv => ty is AttackVolEnv,
        Sf2NoteModDestination::HoldVolEnv => ty is HoldVolEnv,
        Sf2NoteModDestination::DecayVolEnv => ty is DecayVolEnv,
        Sf2NoteModDestination::SustainVolEnv => ty is SustainVolEnv,
        Sf2NoteModDestination::ReleaseVolEnv => ty is ReleaseVolEnv,
        Sf2NoteModDestination::FineTune => ty is FineTune,
        Sf2NoteModDestination::CoarseTune => ty is CoarseTune,
    }
}

/// A modulator takes the place of every one that it differs from in the amount alone, and one from the
/// velocity to the attenuation or to the filter cutoff that of every other such one.
pub proof fn lemma_suppression(a: Sf2NoteModulator, b: Sf2NoteModulator, suppresses: bool)
    requires
        call_ensures(Sf2NoteModulator::suppresses_default, (&a, &b), suppresses),
    ensures
        suppresses <==> {
            ||| a.src == b.src && a.amount_src == b.amount_src && a.dest == b.dest && a.transform
                == b.transform
            ||| {
                &&& a.dest == b.dest
                &&& a.dest == Sf2NoteModDestination::InitialAttenuation || a.dest
                    == Sf2NoteModDestination::InitialFilterFc
                &&& a.src.controller == Sf2NoteController::Velocity
                &&& b.src.controller == Sf2NoteController::Velocity
            }
        },
{
}

/// From the middle of the velocities up, a harder stroke is a brighter note: the modulator that every
/// instrument has lowers the cutoff by less, down to nothing at the top. Below the middle it does nothing.
pub proof fn lemma_default_cutoff(
    modulator: Sf2NoteModulator,
    key: u8,
    velocity: u8,
    value: i128,
)
    requires
        call_ensures(Sf2NoteModulator::default_velocity_to_filter_cutoff, (), modulator),
        velocity <= 127,
        call_ensures(Sf2NoteModulator::evaluate, (&modulator, key, velocity), value),
    ensures
        modulator.dest == Sf2NoteModDestination::InitialFilterFc,
        velocity < 64 ==> value == 0,
        velocity >= 64 ==> value == -2400 * (127 - velocity) * 1_000_000_000 * SOURCE_UNIT,
{
}

/// A source of a file is kept exactly when it is the velocity or the key, along a known curve, and then
/// says what the file says.
pub proof fn lemma_parsed_source(source: ModulatorSource, parsed: Option<Sf2NoteModSource>)
    requires
        call_ensures(Sf2NoteModSource::parse, (source,), parsed),
    ensures
        parsed is Some <==> is_known(source),
        parsed matches Some(kept) ==> says(kept, source),
{
}

/// A zone reads its modulators as everything else does. Two modulators are of one identity just when they
/// differ at most in the amount.
pub proof fn lemma_modulator_identity(
    modulator: Modulator,
    parsed: Option<Sf2NoteModulator>,
    in_zone: Option<Sf2NoteModulator>,
    a: Sf2NoteModulator,
    b: Sf2NoteModulator,
    same: bool,
    dest: Sf2NoteModDestination,
)
    requires
        call_ensures(Sf2NoteModulator::parse, (&modulator,), parsed),
        call_ensures(Sf2NoteModulator::parse_zone, (&modulator,), in_zone),
        call_ensures(Sf2NoteModulator::same_identity, (&a, &b), same),
        call_ensures(Sf2NoteModulator::destination, (&a,), dest),
    ensures
        in_zone == parsed,
        same <==> a.src == b.src && a.amount_src == b.amount_src && a.dest == b.dest && a.transform
            == b.transform,
        dest == a.dest,
{
}

/// The modulator that every instrument has from the velocity to the attenuation: nothing at full velocity,
/// and 960 centibels at most, along the concave curve.
pub proof fn lemma_attenuation_by_default(
    modulator: Sf2NoteModulator,
    key: u8,
    velocity: u8,
    value: i128,
)
    requires
        call_ensures(Sf2NoteModulator::default_velocity_to_attenuation, (), modulator),
        velocity <= 127,
        call_ensures(Sf2NoteModulator::evaluate, (&modulator, key, velocity), value),
    ensures
        modulator.dest == Sf2NoteModDestination::InitialAttenuation,
        modulator.amount_src is None,
        value == 960 * (CONCAVE_TABLE@[127 - velocity] * 127) * SOURCE_UNIT,
{
    let level = CONCAVE_TABLE@[127 - velocity] * 127;
    assert(modulator.src.level(key, velocity) == level);
    assert(modulator.value(key, velocity) == 960 * level * SOURCE_UNIT);
}

/// A region that sets no envelope has stages of 2 to the power of minus ten seconds, and sustains at full
/// level.
pub proof fn lemma_unset_envelope(envelope: Sf2RawEnvelope)
    requires
        call_ensures(default_raw_envelope, (), envelope),
    ensures
        envelope.delay_tc == -10 * 1200,
        envelope.attack_tc == -10 * 1200,
        envelope.hold_tc == -10 * 1200,
        envelope.decay_tc == -10 * 1200,
        envelope.release_tc == -10 * 1200,
        envelope.sustain_cb == 0,
{
}

} // verus!
