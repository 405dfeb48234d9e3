//! The zones of presets and instruments.

use vstd::prelude::*;
use crate::range::ByteRange;
use crate::soundfonts::sf2::modulator;
use crate::soundfonts::sf2::modulator::{default_note_modulators, Sf2NoteModulator};
use crate::soundfonts::sf2::raw::{Generator, GeneratorAmount, GeneratorType, Modulator, Zone};
use crate::soundfonts::LoopMode;

verus! {

/// What a zone sets. What it leaves alone is None.
#[derive(Clone, Debug)]
pub struct Sf2Zone {
    pub index: Option<u16>,
    pub offset: Option<i16>,
    pub end_offset: Option<i16>,
    pub offset_coarse: Option<i16>,
    pub end_offset_coarse: Option<i16>,
    pub loop_start_offset: Option<i16>,
    pub loop_start_offset_coarse: Option<i16>,
    pub loop_end_offset: Option<i16>,
    pub loop_end_offset_coarse: Option<i16>,
    pub loop_mode: Option<LoopMode>,
    pub cutoff: Option<i16>,
    pub resonance: Option<i16>,
    pub pan: Option<i16>,
    pub env_delay: Option<i16>,
    pub env_attack: Option<i16>,
    pub env_hold: Option<i16>,
    pub env_decay: Option<i16>,
    pub env_sustain: Option<i16>,
    pub env_release: Option<i16>,
    pub keynum_to_vol_env_hold: Option<i16>,
    pub keynum_to_vol_env_decay: Option<i16>,
    pub velrange: Option<ByteRange>,
    pub keyrange: Option<ByteRange>,
    pub attenuation: Option<i16>,
    pub fine_tune: Option<i16>,
    pub coarse_tune: Option<i16>,
    pub root_override: Option<i16>,
    pub fixed_key: Option<u8>,
    pub fixed_velocity: Option<u8>,
    pub scale_tuning: Option<i16>,
    pub exclusive_class: Option<u8>,
    pub note_modulators: Vec<Sf2NoteModulator>,
}

impl Sf2Zone {
    /// A zone like this one that sets nothing but its modulators.
    pub open spec fn blank(self) -> Sf2Zone {
        Sf2Zone {
            index: None,
            offset: None,
            end_offset: None,
            offset_coarse: None,
            end_offset_coarse: None,
            loop_start_offset: None,
            loop_start_offset_coarse: None,
            loop_end_offset: None,
            loop_end_offset_coarse: None,
            loop_mode: None,
            cutoff: None,
            resonance: None,
            pan: None,
            env_delay: None,
            env_attack: None,
            env_hold: None,
            env_decay: None,
            env_sustain: None,
            env_release: None,
            keynum_to_vol_env_hold: None,
            keynum_to_vol_env_decay: None,
            velrange: None,
            keyrange: None,
            attenuation: None,
            fine_tune: None,
            coarse_tune: None,
            root_override: None,
            fixed_key: None,
            fixed_velocity: None,
            scale_tuning: None,
            exclusive_class: None,
            note_modulators: self.note_modulators,
        }
    }

    /// Whether two zones differ at most in their modulators.
    pub open spec fn like(self, other: Sf2Zone) -> bool {
        self == Sf2Zone { note_modulators: self.note_modulators, ..other }
    }

    /// A copy of the zone.
    fn duplicate(&self) -> (zone: Sf2Zone)
        ensures
            zone.like(*self),
            zone.note_modulators@ == self.note_modulators@,
    {
        let note_modulators = copy_modulators(&self.note_modulators);
        Sf2Zone {
            index: self.index,
            offset: self.offset,
            end_offset: self.end_offset,
            offset_coarse: self.offset_coarse,
            end_offset_coarse: self.end_offset_coarse,
            loop_start_offset: self.loop_start_offset,
            loop_start_offset_coarse: self.loop_start_offset_coarse,
            loop_end_offset: self.loop_end_offset,
            loop_end_offset_coarse: self.loop_end_offset_coarse,
            loop_mode: self.loop_mode,
            cutoff: self.cutoff,
            resonance: self.resonance,
            pan: self.pan,
            env_delay: self.env_delay,
            env_attack: self.env_attack,
            env_hold: self.env_hold,
            env_decay: self.env_decay,
            env_sustain: self.env_sustain,
            env_release: self.env_release,
            keynum_to_vol_env_hold: self.keynum_to_vol_env_hold,
            keynum_to_vol_env_decay: self.keynum_to_vol_env_decay,
            velrange: self.velrange,
            keyrange: self.keyrange,
            attenuation: self.attenuation,
            fine_tune: self.fine_tune,
            coarse_tune: self.coarse_tune,
            root_override: self.root_override,
            fixed_key: self.fixed_key,
            fixed_velocity: self.fixed_velocity,
            scale_tuning: self.scale_tuning,
            exclusive_class: self.exclusive_class,
            note_modulators,
        }
    }
}

impl Default for Sf2Zone {
    /// A zone that sets nothing.
    fn default() -> (zone: Self)
        ensures
            zone == zone.blank(),
            zone.note_modulators@.len() == 0,
    {
        Sf2Zone {
            index: None,
            offset: None,
            end_offset: None,
            offset_coarse: None,
            end_offset_coarse: None,
            loop_start_offset: None,
            loop_start_offset_coarse: None,
            loop_end_offset: None,
            loop_end_offset_coarse: None,
            loop_mode: None,
            cutoff: None,
            resonance: None,
            pan: None,
            env_delay: None,
            env_attack: None,
            env_hold: None,
            env_decay: None,
            env_sustain: None,
            env_release: None,
            keynum_to_vol_env_hold: None,
            keynum_to_vol_env_decay: None,
            velrange: None,
            keyrange: None,
            attenuation: None,
            fine_tune: None,
            coarse_tune: None,
            root_override: None,
            fixed_key: None,
            fixed_velocity: None,
            scale_tuning: None,
            exclusive_class: None,
            note_modulators: Vec::new(),
        }
    }
}

/// Copies a list of modulators.
fn copy_modulators(modulators: &Vec<Sf2NoteModulator>) -> (copy: Vec<Sf2NoteModulator>)
    ensures
        copy@ == modulators@,
{
    let mut copy: Vec<Sf2NoteModulator> = Vec::new();
    let mut i: usize = 0;
    while i < modulators.len()
        invariant
            i <= modulators@.len(),
            copy@ == modulators@.take(i as int),
        decreases modulators@.len() - i,
    {
        copy.push(modulators[i]);
        i += 1;
    }
    assert(modulators@.take(i as int) =~= modulators@);
    copy
}

/// The range of an amount.
pub open spec fn range_of(amount: GeneratorAmount) -> Option<ByteRange> {
    match amount.range() {
        Some(range) => Some(ByteRange { low: range.low, high: range.high }),
        None => None,
    }
}

/// The loop mode that an amount stands for.
pub open spec fn loop_mode_of(amount: GeneratorAmount) -> Option<LoopMode> {
    match amount.signed() {
        Some(1) => Some(LoopMode::LoopContinuous),
        Some(3) => Some(LoopMode::LoopSustain),
        Some(_) => Some(LoopMode::NoLoop),
        None => None,
    }
}

/// An amount, held between 0 and `most`.
pub open spec fn byte_of(amount: GeneratorAmount, most: int) -> Option<u8> {
    match amount.signed() {
        Some(v) => Some(
            if v < 0 {
                0
            } else if v > most {
                most as u8
            } else {
                v as u8
            },
        ),
        None => None,
    }
}

/// What a generator makes of a zone. One of an unknown type, or one that a zone does not use,
/// changes nothing.
pub open spec fn set_by(zone: Sf2Zone, gen: Generator) -> Sf2Zone {
    let amount = gen.amount;
    match gen.ty {
        None => zone,
        Some(ty) => match ty {
            GeneratorType::StartAddrsOffset => Sf2Zone { offset: amount.signed(), ..zone },
            GeneratorType::EndAddrsOffset => Sf2Zone { end_offset: amount.signed(), ..zone },
            GeneratorType::StartAddrsCoarseOffset => Sf2Zone { offset_coarse: amount.signed(), ..zone },
            GeneratorType::EndAddrsCoarseOffset => Sf2Zone { end_offset_coarse: amount.signed(), ..zone },
            GeneratorType::StartloopAddrsOffset => Sf2Zone { loop_start_offset: amount.signed(), ..zone },
            GeneratorType::StartloopAddrsCoarseOffset => Sf2Zone { loop_start_offset_coarse: amount.signed(), ..zone },
            GeneratorType::EndloopAddrsOffset => Sf2Zone { loop_end_offset: amount.signed(), ..zone },
            GeneratorType::EndloopAddrsCoarseOffset => Sf2Zone { loop_end_offset_coarse: amount.signed(), ..zone },
            GeneratorType::InitialFilterFc => Sf2Zone { cutoff: amount.signed(), ..zone },
            GeneratorType::InitialFilterQ => Sf2Zone { resonance: amount.signed(), ..zone },
            GeneratorType::Pan => Sf2Zone { pan: amount.signed(), ..zone },
            GeneratorType::DelayVolEnv => Sf2Zone { env_delay: amount.signed(), ..zone },
            GeneratorType::AttackVolEnv => Sf2Zone { env_attack: amount.signed(), ..zone },
            GeneratorType::HoldVolEnv => Sf2Zone { env_hold: amount.signed(), ..zone },
            GeneratorType::DecayVolEnv => Sf2Zone { env_decay: amount.signed(), ..zone },
            GeneratorType::SustainVolEnv => Sf2Zone { env_sustain: amount.signed(), ..zone },
            GeneratorType::ReleaseVolEnv => Sf2Zone { env_release: amount.signed(), ..zone },
            GeneratorType::KeynumToVolEnvHold => Sf2Zone { keynum_to_vol_env_hold: amount.signed(), ..zone },
            GeneratorType::KeynumToVolEnvDecay => Sf2Zone { keynum_to_vol_env_decay: amount.signed(), ..zone },
            GeneratorType::KeyRange => Sf2Zone { keyrange: range_of(amount), ..zone },
            GeneratorType::VelRange => Sf2Zone { velrange: range_of(amount), ..zone },
            GeneratorType::InitialAttenuation => Sf2Zone { attenuation: amount.signed(), ..zone },
            GeneratorType::CoarseTune => Sf2Zone { coarse_tune: amount.signed(), ..zone },
            GeneratorType::FineTune => Sf2Zone { fine_tune: amount.signed(), ..zone },
            GeneratorType::SampleID => Sf2Zone { index: amount.unsigned(), ..zone },
            GeneratorType::Instrument => Sf2Zone { index: amount.unsigned(), ..zone },
            GeneratorType::SampleModes => Sf2Zone { loop_mode: loop_mode_of(amount), ..zone },
            GeneratorType::Keynum => Sf2Zone { fixed_key: byte_of(amount, 127), ..zone },
            GeneratorType::Velocity => Sf2Zone { fixed_velocity: byte_of(amount, 127), ..zone },
            GeneratorType::ScaleTuning => Sf2Zone { scale_tuning: amount.signed(), ..zone },
            GeneratorType::ExclusiveClass => Sf2Zone { exclusive_class: byte_of(amount, 255), ..zone },
            GeneratorType::OverridingRootKey => Sf2Zone { root_override: amount.signed(), ..zone },
            _ => zone,
        },
    }
}

/// What a list of generators makes of a zone, one after another.
pub open spec fn shaped(zone: Sf2Zone, gens: Seq<Generator>) -> Sf2Zone
    decreases gens.len(),
{
    if gens.len() == 0 {
        zone
    } else {
        set_by(shaped(zone, gens.drop_last()), gens.last())
    }
}

/// What a modulator makes of a list of modulators: those that it takes the place of leave, and it
/// comes last.
pub open spec fn joined(
    modulators: Seq<Sf2NoteModulator>,
    modulator: Sf2NoteModulator,
) -> Seq<Sf2NoteModulator> {
    modulators.filter(|existing: Sf2NoteModulator| !modulator.suppresses(existing)).push(modulator)
}

/// What the modulators of a file make of a list of modulators, one after another. Those that are
/// not known when a note starts are passed over.
pub open spec fn modulated(
    modulators: Seq<Sf2NoteModulator>,
    list: Seq<Modulator>,
) -> Seq<Sf2NoteModulator>
    decreases list.len(),
{
    if list.len() == 0 {
        modulators
    } else {
        let before = modulated(modulators, list.drop_last());
        match Sf2NoteModulator::parsed(list.last()) {
            Some(modulator) => joined(before, modulator),
            None => before,
        }
    }
}

/// Reads a range.
fn read_range(amount: &GeneratorAmount) -> (range: Option<ByteRange>)
    ensures
        range == range_of(*amount),
{
    match amount.as_range() {
        Some(range) => Some(ByteRange::new(range.low, range.high)),
        None => None,
    }
}

/// Reads a loop mode.
fn read_loop_mode(amount: &GeneratorAmount) -> (mode: Option<LoopMode>)
    ensures
        mode == loop_mode_of(*amount),
{
    match amount.as_i16() {
        Some(v) => Some(
            match v {
                1 => LoopMode::LoopContinuous,
                3 => LoopMode::LoopSustain,
                _ => LoopMode::NoLoop,
            },
        ),
        None => None,
    }
}

/// Reads a number between 0 and `most`.
fn read_byte(amount: &GeneratorAmount, most: u8) -> (byte: Option<u8>)
    ensures
        byte == byte_of(*amount, most as int),
{
    match amount.as_i16() {
        Some(v) => Some(
            if v < 0 {
                0
            } else if v > most as i16 {
                most
            } else {
                v as u8
            },
        ),
        None => None,
    }
}

/// Applies one generator to a zone.
fn apply_generator(region: &mut Sf2Zone, gen: &Generator)
    ensures
        *final(region) == set_by(*old(region), *gen),
{
    let gen_ty = match gen.ty {
        Some(gen_ty) => gen_ty,
        None => {
            return ;
        },
    };
    match gen_ty {
        GeneratorType::StartAddrsOffset => {
            region.offset = gen.amount.as_i16();
        },
        GeneratorType::EndAddrsOffset => {
            region.end_offset = gen.amount.as_i16();
        },
        GeneratorType::StartAddrsCoarseOffset => {
            region.offset_coarse = gen.amount.as_i16();
        },
        GeneratorType::EndAddrsCoarseOffset => {
            region.end_offset_coarse = gen.amount.as_i16();
        },
        GeneratorType::StartloopAddrsOffset => {
            region.loop_start_offset = gen.amount.as_i16();
        },
        GeneratorType::StartloopAddrsCoarseOffset => {
            region.loop_start_offset_coarse = gen.amount.as_i16();
        },
        GeneratorType::EndloopAddrsOffset => {
            region.loop_end_offset = gen.amount.as_i16();
        },
        GeneratorType::EndloopAddrsCoarseOffset => {
            region.loop_end_offset_coarse = gen.amount.as_i16();
        },
        GeneratorType::InitialFilterFc => {
            region.cutoff = gen.amount.as_i16();
        },
        GeneratorType::InitialFilterQ => {
            region.resonance = gen.amount.as_i16();
        },
        GeneratorType::Pan => {
            region.pan = gen.amount.as_i16();
        },
        GeneratorType::DelayVolEnv => {
            region.env_delay = gen.amount.as_i16();
        },
        GeneratorType::AttackVolEnv => {
            region.env_attack = gen.amount.as_i16();
        },
        GeneratorType::HoldVolEnv => {
            region.env_hold = gen.amount.as_i16();
        },
        GeneratorType::DecayVolEnv => {
            region.env_decay = gen.amount.as_i16();
        },
        GeneratorType::SustainVolEnv => {
            region.env_sustain = gen.amount.as_i16();
        },
        GeneratorType::ReleaseVolEnv => {
            region.env_release = gen.amount.as_i16();
        },
        GeneratorType::KeynumToVolEnvHold => {
            region.keynum_to_vol_env_hold = gen.amount.as_i16();
        },
        GeneratorType::KeynumToVolEnvDecay => {
            region.keynum_to_vol_env_decay = gen.amount.as_i16();
        },
        GeneratorType::KeyRange => {
            region.keyrange = read_range(&gen.amount);
        },
        GeneratorType::VelRange => {
            region.velrange = read_range(&gen.amount);
        },
        GeneratorType::InitialAttenuation => {
            region.attenuation = gen.amount.as_i16();
        },
        GeneratorType::CoarseTune => {
            region.coarse_tune = gen.amount.as_i16();
        },
        GeneratorType::FineTune => {
            region.fine_tune = gen.amount.as_i16();
        },
        GeneratorType::SampleID => {
            region.index = gen.amount.as_u16();
        },
        GeneratorType::Instrument => {
            region.index = gen.amount.as_u16();
        },
        GeneratorType::SampleModes => {
            region.loop_mode = read_loop_mode(&gen.amount);
        },
        GeneratorType::Keynum => {
            region.fixed_key = read_byte(&gen.amount, 127);
        },
        GeneratorType::Velocity => {
            region.fixed_velocity = read_byte(&gen.amount, 127);
        },
        GeneratorType::ScaleTuning => {
            region.scale_tuning = gen.amount.as_i16();
        },
        GeneratorType::ExclusiveClass => {
            region.exclusive_class = read_byte(&gen.amount, 255);
        },
        GeneratorType::OverridingRootKey => {
            region.root_override = gen.amount.as_i16();
        },
        _ => {},
    }
}

/// Applies a list of generators to a zone.
fn apply_generators(region: &mut Sf2Zone, gens: &Vec<Generator>)
    ensures
        *final(region) == shaped(*old(region), gens@),
{
    let mut i: usize = 0;
    while i < gens.len()
        invariant
            i <= gens@.len(),
            *region == shaped(*old(region), gens@.take(i as int)),
        decreases gens@.len() - i,
    {
        apply_generator(region, &gens[i]);
        proof {
            let next = gens@.take(i + 1);
            assert(next.drop_last() =~= gens@.take(i as int));
        }
        i += 1;
    }
    assert(gens@.take(i as int) =~= gens@);
}

/// Adds a modulator to a list.
fn join_modulator(modulators: Vec<Sf2NoteModulator>, modulator: Sf2NoteModulator) -> (joint: Vec<
    Sf2NoteModulator,
>)
    ensures
        joint@ == joined(modulators@, modulator),
{
    let ghost stays = |existing: Sf2NoteModulator| !modulator.suppresses(existing);
    let mut joint: Vec<Sf2NoteModulator> = Vec::new();
    let mut i: usize = 0;
    while i < modulators.len()
        invariant
            i <= modulators@.len(),
            stays == (|existing: Sf2NoteModulator| !modulator.suppresses(existing)),
            joint@ == modulators@.take(i as int).filter(stays),
        decreases modulators@.len() - i,
    {
        proof {
            let next = modulators@.take(i + 1);
            assert(next.drop_last() =~= modulators@.take(i as int));
            reveal(Seq::filter);
        }
        if !modulator.suppresses_default(&modulators[i]) {
            joint.push(modulators[i]);
        }
        i += 1;
    }
    assert(modulators@.take(i as int) =~= modulators@);
    joint.push(modulator);
    joint
}

/// Adds the modulators of a file to a list.
fn apply_modulators(modulators: Vec<Sf2NoteModulator>, list: &Vec<Modulator>) -> (joint: Vec<
    Sf2NoteModulator,
>)
    ensures
        joint@ == modulated(modulators@, list@),
{
    let ghost first = modulators@;
    let mut joint = modulators;
    let mut i: usize = 0;
    while i < list.len()
        invariant
            i <= list@.len(),
            joint@ == modulated(first, list@.take(i as int)),
        decreases list@.len() - i,
    {
        proof {
            let next = list@.take(i + 1);
            assert(next.drop_last() =~= list@.take(i as int));
        }
        match Sf2NoteModulator::parse_zone(&list[i]) {
            Some(modulator) => {
                joint = join_modulator(joint, modulator);
            },
            None => {},
        }
        i += 1;
    }
    assert(list@.take(i as int) =~= list@);
    joint
}

/// The sample or instrument that a list of generators names: the last one.
pub open spec fn index_of(gens: Seq<Generator>) -> Option<u16>
    decreases gens.len(),
{
    if gens.len() == 0 {
        None
    } else if gens.last().ty == Some(GeneratorType::SampleID) || gens.last().ty == Some(
        GeneratorType::Instrument,
    ) {
        gens.last().amount.unsigned()
    } else {
        index_of(gens.drop_last())
    }
}

/// Whether the first zone is a global zone: one that names no sample or instrument. What it sets
/// holds for the zones that follow, unless they set it themselves.
pub open spec fn has_global(zones: Seq<Zone>) -> bool {
    zones.len() > 0 && index_of(zones[0].gen_list@) is None
}

/// The generators that every zone starts from, when `n` zones have been read.
pub open spec fn global_gens(zones: Seq<Zone>, n: int) -> Seq<Generator> {
    if n > 0 && has_global(zones) {
        zones[0].gen_list@
    } else {
        Seq::empty()
    }
}

/// The modulators that zones start from.
pub open spec fn first_modulators(instrument_level: bool) -> Seq<Sf2NoteModulator> {
    if instrument_level {
        modulator::default_modulators_of_instruments()
    } else {
        Seq::empty()
    }
}

/// The modulators that every zone starts from, when `n` zones have been read.
pub open spec fn global_mods(zones: Seq<Zone>, instrument_level: bool, n: int) -> Seq<
    Sf2NoteModulator,
> {
    if n > 0 && has_global(zones) {
        modulated(first_modulators(instrument_level), zones[0].mod_list@)
    } else {
        first_modulators(instrument_level)
    }
}

/// Whether `region` is what the zone `i` of a list makes.
pub open spec fn is_region(
    zones: Seq<Zone>,
    instrument_level: bool,
    i: int,
    region: Sf2Zone,
) -> bool {
    &&& region.like(shaped(region.blank(), global_gens(zones, i) + zones[i].gen_list@))
    &&& region.note_modulators@ == modulated(
        global_mods(zones, instrument_level, i),
        zones[i].mod_list@,
    )
}

/// The number of zones that make no region of their own, when `n` zones have been read.
pub open spec fn skipped(zones: Seq<Zone>, n: int) -> int {
    if n > 0 && has_global(zones) {
        1
    } else {
        0
    }
}

impl Sf2Zone {
    /// The regions that a list of zones makes. `instrument_level` tells the zones of an instrument,
    /// which start from the default modulators, from those of a preset.
    pub fn parse(zones: Vec<Zone>, instrument_level: bool) -> (regions: Vec<Self>)
        ensures
            regions@.len() == zones@.len() - skipped(zones@, zones@.len() as int),
            forall|j: int|
                0 <= j < regions@.len() ==> is_region(
                    zones@,
                    instrument_level,
                    j + skipped(zones@, zones@.len() as int),
                    #[trigger] regions@[j],
                ),
    {
        let mut regions: Vec<Sf2Zone> = Vec::new();
        let mut global_region = Sf2Zone::default();
        if instrument_level {
            let defaults = default_note_modulators();
            global_region.note_modulators.push(defaults[0]);
            global_region.note_modulators.push(defaults[1]);
        }
        proof {
            assert(global_region.note_modulators@ =~= first_modulators(instrument_level));
            assert forall|x: Sf2Zone| global_region.like(
                #[trigger] shaped(x.blank(), Seq::<Generator>::empty()),
            ) by {}
        }
        let mut i: usize = 0;
        while i < zones.len()
            invariant
                i <= zones@.len(),
                forall|x: Sf2Zone|
                    global_region.like(
                        #[trigger] shaped(x.blank(), global_gens(zones@, i as int)),
                    ),
                global_region.note_modulators@ == global_mods(zones@, instrument_level, i as int),
                regions@.len() == i - skipped(zones@, i as int),
                forall|j: int|
                    0 <= j < regions@.len() ==> is_region(
                        zones@,
                        instrument_level,
                        j + skipped(zones@, i as int),
                        #[trigger] regions@[j],
                    ),
            decreases zones@.len() - i,
        {
            let zone = &zones[i];
            let mut region = global_region.duplicate();
            let ghost start = region;
            apply_generators(&mut region, &zone.gen_list);
            let mut note_modulators: Vec<Sf2NoteModulator> = Vec::new();
            core::mem::swap(&mut note_modulators, &mut region.note_modulators);
            proof {
                lemma_shaped_keeps_modulators(start, zone.gen_list@);
            }
            region.note_modulators = apply_modulators(note_modulators, &zone.mod_list);
            proof {
                let gens = global_gens(zones@, i as int);
                assert forall|x: Sf2Zone| region.like(
                    #[trigger] shaped(x.blank(), gens + zone.gen_list@),
                ) by {
                    lemma_shaped_append(x.blank(), gens, zone.gen_list@);
                    lemma_shaped_like(start, shaped(x.blank(), gens), zone.gen_list@);
                }
                assert(is_region(zones@, instrument_level, i as int, region));
                if i == 0 {
                    assert(gens + zone.gen_list@ =~= zone.gen_list@);
                    lemma_index(region.blank(), zone.gen_list@);
                    assert(region.like(shaped(region.blank(), zone.gen_list@)));
                    assert(region.index == index_of(zone.gen_list@));
                }
            }
            if i == 0 && region.index.is_none() {
                global_region = region;
                proof {
                    assert forall|x: Sf2Zone| global_region.like(
                        #[trigger] shaped(x.blank(), global_gens(zones@, 1)),
                    ) by {
                        assert(global_gens(zones@, 0) + zone.gen_list@ =~= zone.gen_list@);
                        assert(global_region.like(
                            shaped(x.blank(), global_gens(zones@, 0) + zone.gen_list@),
                        ));
                    }
                }
            } else {
                regions.push(region);
            }
            i += 1;
        }
        regions
    }
}

/// Generators do not touch the modulators.
proof fn lemma_shaped_keeps_modulators(zone: Sf2Zone, gens: Seq<Generator>)
    ensures
        shaped(zone, gens).note_modulators == zone.note_modulators,
    decreases gens.len(),
{
    if gens.len() > 0 {
        lemma_shaped_keeps_modulators(zone, gens.drop_last());
    }
}

/// Generators make alike zones alike.
proof fn lemma_shaped_like(a: Sf2Zone, b: Sf2Zone, gens: Seq<Generator>)
    requires
        a.like(b),
    ensures
        shaped(a, gens).like(shaped(b, gens)),
    decreases gens.len(),
{
    if gens.len() > 0 {
        lemma_shaped_like(a, b, gens.drop_last());
    }
}

/// Two lists of generators can be applied one after the other.
proof fn lemma_shaped_append(zone: Sf2Zone, a: Seq<Generator>, b: Seq<Generator>)
    ensures
        shaped(zone, a + b) == shaped(shaped(zone, a), b),
    decreases b.len(),
{
    if b.len() == 0 {
        assert(a + b =~= a);
    } else {
        assert((a + b).drop_last() =~= a + b.drop_last());
        lemma_shaped_append(zone, a, b.drop_last());
    }
}

/// The index of a zone is the one that its generators name.
proof fn lemma_index(zone: Sf2Zone, gens: Seq<Generator>)
    requires
        zone.index is None,
    ensures
        shaped(zone, gens).index == index_of(gens),
    decreases gens.len(),
{
    if gens.len() > 0 {
        lemma_index(zone, gens.drop_last());
    }
}

/// No modulator of a list is one whose place a later one takes.
pub open spec fn none_superseded(modulators: Seq<Sf2NoteModulator>) -> bool {
    forall|i: int, j: int|
        0 <= i < j < modulators.len() ==> !(#[trigger] modulators[j]).suppresses(
            #[trigger] modulators[i],
        )
}

/// The modulators of a region never hold one whose place a later one takes: the last one that a
/// file gives counts, and an explicit one replaces a default.
pub proof fn lemma_modulators_not_superseded(
    modulators: Seq<Sf2NoteModulator>,
    list: Seq<Modulator>,
)
    requires
        none_superseded(modulators),
    ensures
        none_superseded(modulated(modulators, list)),
    decreases list.len(),
{
    if list.len() > 0 {
        lemma_modulators_not_superseded(modulators, list.drop_last());
        let before = modulated(modulators, list.drop_last());
        match Sf2NoteModulator::parsed(list.last()) {
            Some(modulator) => {
                let stays = |existing: Sf2NoteModulator| !modulator.suppresses(existing);
                lemma_filter_none_superseded(before, stays);
                let kept = before.filter(stays);
                assert forall|i: int| 0 <= i < kept.len() implies !modulator.suppresses(
                    #[trigger] kept[i],
                ) by {
                    before.lemma_filter_pred(stays, i);
                }
            },
            None => {},
        }
    }
}

/// Leaving modulators out makes none superseded.
proof fn lemma_filter_none_superseded(
    modulators: Seq<Sf2NoteModulator>,
    stays: spec_fn(Sf2NoteModulator) -> bool,
)
    requires
        none_superseded(modulators),
    ensures
        none_superseded(modulators.filter(stays)),
        forall|i: int|
            0 <= i < modulators.filter(stays).len() ==> modulators.contains(
                #[trigger] modulators.filter(stays)[i],
            ),
    decreases modulators.len(),
{
    reveal(Seq::filter);
    if modulators.len() > 0 {
        let fewer = modulators.drop_last();
        assert forall|i: int, j: int| 0 <= i < j < fewer.len() implies !(
        #[trigger] fewer[j]).suppresses(#[trigger] fewer[i]) by {
            assert(fewer[j] == modulators[j]);
            assert(fewer[i] == modulators[i]);
        }
        lemma_filter_none_superseded(fewer, stays);
        let kept = fewer.filter(stays);
        assert forall|i: int| 0 <= i < kept.len() implies !modulators.last().suppresses(
            #[trigger] kept[i],
        ) && modulators.contains(kept[i]) by {
            assert(fewer.contains(kept[i]));
            let k = fewer.index_of(kept[i]);
            assert(modulators[k] == kept[i]);
        }
        if stays(modulators.last()) {
            assert(modulators.contains(modulators[modulators.len() - 1]));
        }
    }
}

/// Every region of an instrument holds modulators of which none takes the place of an earlier one.
pub proof fn lemma_regions_not_superseded(
    zones: Seq<Zone>,
    instrument_level: bool,
    i: int,
    region: Sf2Zone,
)
    requires
        is_region(zones, instrument_level, i, region),
    ensures
        none_superseded(region.note_modulators@),
{
    let first = first_modulators(instrument_level);
    assert(none_superseded(first));
    if has_global(zones) {
        lemma_modulators_not_superseded(first, zones[0].mod_list@);
    }
    lemma_modulators_not_superseded(
        global_mods(zones, instrument_level, i),
        zones[i].mod_list@,
    );
}

/// The condition of being of one type.
pub open spec fn one(ty: GeneratorType) -> spec_fn(Option<GeneratorType>) -> bool {
    |of: Option<GeneratorType>| of == Some(ty)
}

/// The condition of naming a sample or an instrument.
pub open spec fn naming() -> spec_fn(Option<GeneratorType>) -> bool {
    |of: Option<GeneratorType>|
        of == Some(GeneratorType::SampleID) || of == Some(GeneratorType::Instrument)
}

/// Whether generator `i` is the last one whose type meets a condition.
pub open spec fn is_last(
    gens: Seq<Generator>,
    which: spec_fn(Option<GeneratorType>) -> bool,
    i: int,
) -> bool {
    &&& 0 <= i < gens.len()
    &&& which(gens[i].ty)
    &&& forall|j: int| i < j < gens.len() ==> !which((#[trigger] gens[j]).ty)
}

/// The amount of the last generator whose type meets a condition, if there is one.
pub open spec fn last_amount(
    gens: Seq<Generator>,
    which: spec_fn(Option<GeneratorType>) -> bool,
) -> Option<GeneratorAmount> {
    if exists|i: int| is_last(gens, which, i) {
        Some(gens[choose|i: int| is_last(gens, which, i)].amount)
    } else {
        None
    }
}

/// What one more generator makes of the last amount.
proof fn lemma_last_amount(gens: Seq<Generator>, which: spec_fn(Option<GeneratorType>) -> bool)
    requires
        gens.len() > 0,
    ensures
        which(gens.last().ty) ==> last_amount(gens, which) == Some(gens.last().amount),
        !which(gens.last().ty) ==> last_amount(gens, which) == last_amount(gens.drop_last(), which),
{
    let fewer = gens.drop_last();
    if which(gens.last().ty) {
        assert(is_last(gens, which, gens.len() - 1));
        let i = choose|i: int| is_last(gens, which, i);
        assert(i == gens.len() - 1);
    } else {
        assert forall|i: int| #[trigger] is_last(gens, which, i) implies is_last(
            fewer,
            which,
            i,
        ) by {
            assert(fewer[i] == gens[i]);
            assert forall|j: int| i < j < fewer.len() implies !which((#[trigger] fewer[j]).ty) by {
                assert(fewer[j] == gens[j]);
            }
        }
        assert forall|i: int| #[trigger] is_last(fewer, which, i) implies is_last(
            gens,
            which,
            i,
        ) by {
            assert(fewer[i] == gens[i]);
            assert forall|j: int| i < j < gens.len() implies !which((#[trigger] gens[j]).ty) by {
                if j < fewer.len() {
                    assert(fewer[j] == gens[j]);
                }
            }
        }
        if exists|i: int| is_last(gens, which, i) {
            let i = choose|i: int| is_last(gens, which, i);
            let k = choose|k: int| is_last(fewer, which, k);
            assert(is_last(fewer, which, i));
            assert(is_last(gens, which, k));
            if i < k {
                assert(!which(gens[k].ty));
            }
            if k < i {
                assert(!which(gens[i].ty));
            }
            assert(fewer[i] == gens[i]);
        }
    }
}

/// The signed number that a zone takes from an amount.
pub open spec fn number_in(amount: Option<GeneratorAmount>) -> Option<i16> {
    if let Some(GeneratorAmount::I16(number)) = amount {
        Some(number)
    } else {
        None
    }
}

/// The index that a zone takes from an amount.
pub open spec fn index_in(amount: Option<GeneratorAmount>) -> Option<u16> {
    if let Some(GeneratorAmount::U16(number)) = amount {
        Some(number)
    } else {
        None
    }
}

/// Whether a range holds just what lies between the ends that an amount gives.
pub open spec fn is_range_in(amount: Option<GeneratorAmount>, range: Option<ByteRange>) -> bool {
    if let Some(GeneratorAmount::Range(ends)) = amount {
        range matches Some(range) && forall|value: u8| #[trigger]
            range.has(value) <==> ends.low <= value && value <= ends.high
    } else {
        range is None
    }
}

/// Whether a byte is the number nearest to an amount among those from 0 to `most`.
pub open spec fn is_nearest(amount: Option<GeneratorAmount>, most: int, byte: Option<u8>) -> bool {
    if let Some(GeneratorAmount::I16(number)) = amount {
        byte matches Some(byte) && byte <= most && (0 <= number <= most ==> byte == number) && (
        number < 0 ==> byte == 0) && (number > most ==> byte == most)
    } else {
        byte is None
    }
}

/// Whether a loop mode is the one that an amount asks for: 1 for a loop without end, 3 for one until
/// the release, anything else for none.
pub open spec fn is_loop_in(amount: Option<GeneratorAmount>, mode: Option<LoopMode>) -> bool {
    if let Some(GeneratorAmount::I16(number)) = amount {
        &&& mode == Some(LoopMode::LoopContinuous) <==> number == 1
        &&& mode == Some(LoopMode::LoopSustain) <==> number == 3
        &&& mode == Some(LoopMode::NoLoop) <==> number != 1 && number != 3
    } else {
        mode is None
    }
}

/// Whether a zone cuts the sample as the last generators of the list say.
pub open spec fn cuts_by(zone: Sf2Zone, gens: Seq<Generator>) -> bool {
    &&& zone.offset == number_in(last_amount(gens, one(GeneratorType::StartAddrsOffset)))
    &&& zone.offset_coarse == number_in(
        last_amount(gens, one(GeneratorType::StartAddrsCoarseOffset)),
    )
    &&& zone.end_offset == number_in(last_amount(gens, one(GeneratorType::EndAddrsOffset)))
    &&& zone.end_offset_coarse == number_in(
        last_amount(gens, one(GeneratorType::EndAddrsCoarseOffset)),
    )
    &&& zone.loop_start_offset == number_in(
        last_amount(gens, one(GeneratorType::StartloopAddrsOffset)),
    )
    &&& zone.loop_start_offset_coarse == number_in(
        last_amount(gens, one(GeneratorType::StartloopAddrsCoarseOffset)),
    )
    &&& zone.loop_end_offset == number_in(
        last_amount(gens, one(GeneratorType::EndloopAddrsOffset)),
    )
    &&& zone.loop_end_offset_coarse == number_in(
        last_amount(gens, one(GeneratorType::EndloopAddrsCoarseOffset)),
    )
    &&& is_loop_in(last_amount(gens, one(GeneratorType::SampleModes)), zone.loop_mode)
    &&& zone.index == index_in(last_amount(gens, naming()))
}

/// Whether a zone shapes the volume as the last generators of the list say.
pub open spec fn shapes_by(zone: Sf2Zone, gens: Seq<Generator>) -> bool {
    &&& zone.env_delay == number_in(last_amount(gens, one(GeneratorType::DelayVolEnv)))
    &&& zone.env_attack == number_in(last_amount(gens, one(GeneratorType::AttackVolEnv)))
    &&& zone.env_hold == number_in(last_amount(gens, one(GeneratorType::HoldVolEnv)))
    &&& zone.env_decay == number_in(last_amount(gens, one(GeneratorType::DecayVolEnv)))
    &&& zone.env_sustain == number_in(last_amount(gens, one(GeneratorType::SustainVolEnv)))
    &&& zone.env_release == number_in(last_amount(gens, one(GeneratorType::ReleaseVolEnv)))
    &&& zone.keynum_to_vol_env_hold == number_in(
        last_amount(gens, one(GeneratorType::KeynumToVolEnvHold)),
    )
    &&& zone.keynum_to_vol_env_decay == number_in(
        last_amount(gens, one(GeneratorType::KeynumToVolEnvDecay)),
    )
    &&& zone.attenuation == number_in(last_amount(gens, one(GeneratorType::InitialAttenuation)))
    &&& zone.cutoff == number_in(last_amount(gens, one(GeneratorType::InitialFilterFc)))
    &&& zone.resonance == number_in(last_amount(gens, one(GeneratorType::InitialFilterQ)))
    &&& zone.pan == number_in(last_amount(gens, one(GeneratorType::Pan)))
}

/// Whether a zone picks and tunes notes as the last generators of the list say.
pub open spec fn tunes_by(zone: Sf2Zone, gens: Seq<Generator>) -> bool {
    &&& is_range_in(last_amount(gens, one(GeneratorType::KeyRange)), zone.keyrange)
    &&& is_range_in(last_amount(gens, one(GeneratorType::VelRange)), zone.velrange)
    &&& zone.fine_tune == number_in(last_amount(gens, one(GeneratorType::FineTune)))
    &&& zone.coarse_tune == number_in(last_amount(gens, one(GeneratorType::CoarseTune)))
    &&& zone.root_override == number_in(last_amount(gens, one(GeneratorType::OverridingRootKey)))
    &&& zone.scale_tuning == number_in(last_amount(gens, one(GeneratorType::ScaleTuning)))
    &&& is_nearest(last_amount(gens, one(GeneratorType::Keynum)), 127, zone.fixed_key)
    &&& is_nearest(last_amount(gens, one(GeneratorType::Velocity)), 127, zone.fixed_velocity)
    &&& is_nearest(last_amount(gens, one(GeneratorType::ExclusiveClass)), 255, zone.exclusive_class)
}

/// A list of generators cuts the sample by the last generator of each kind.
#[verifier::spinoff_prover]
#[verifier::rlimit(80)]
proof fn lemma_cuts_by(zone: Sf2Zone, gens: Seq<Generator>)
    requires
        zone == zone.blank(),
    ensures
        cuts_by(shaped(zone, gens), gens),
    decreases gens.len(),
{
    if gens.len() > 0 {
        lemma_cuts_by(zone, gens.drop_last());
        lemma_last_amount(gens, one(GeneratorType::StartAddrsOffset));
        lemma_last_amount(gens, one(GeneratorType::StartAddrsCoarseOffset));
        lemma_last_amount(gens, one(GeneratorType::EndAddrsOffset));
        lemma_last_amount(gens, one(GeneratorType::EndAddrsCoarseOffset));
        lemma_last_amount(gens, one(GeneratorType::StartloopAddrsOffset));
        lemma_last_amount(gens, one(GeneratorType::StartloopAddrsCoarseOffset));
        lemma_last_amount(gens, one(GeneratorType::EndloopAddrsOffset));
        lemma_last_amount(gens, one(GeneratorType::EndloopAddrsCoarseOffset));
        lemma_last_amount(gens, one(GeneratorType::SampleModes));
        lemma_last_amount(gens, naming());
    }
}

/// A list of generators shapes the volume by the last generator of each kind.
#[verifier::spinoff_prover]
#[verifier::rlimit(80)]
proof fn lemma_shapes_by(zone: Sf2Zone, gens: Seq<Generator>)
    requires
        zone == zone.blank(),
    ensures
        shapes_by(shaped(zone, gens), gens),
    decreases gens.len(),
{
    if gens.len() > 0 {
        lemma_shapes_by(zone, gens.drop_last());
        lemma_last_amount(gens, one(GeneratorType::DelayVolEnv));
        lemma_last_amount(gens, one(GeneratorType::AttackVolEnv));
        lemma_last_amount(gens, one(GeneratorType::HoldVolEnv));
        lemma_last_amount(gens, one(GeneratorType::DecayVolEnv));
        lemma_last_amount(gens, one(GeneratorType::SustainVolEnv));
        lemma_last_amount(gens, one(GeneratorType::ReleaseVolEnv));
        lemma_last_amount(gens, one(GeneratorType::KeynumToVolEnvHold));
        lemma_last_amount(gens, one(GeneratorType::KeynumToVolEnvDecay));
        lemma_last_amount(gens, one(GeneratorType::InitialAttenuation));
        lemma_last_amount(gens, one(GeneratorType::InitialFilterFc));
        lemma_last_amount(gens, one(GeneratorType::InitialFilterQ));
        lemma_last_amount(gens, one(GeneratorType::Pan));
    }
}

/// A list of generators picks and tunes notes by the last generator of each kind.
#[verifier::spinoff_prover]
#[verifier::rlimit(80)]
proof fn lemma_tunes_by(zone: Sf2Zone, gens: Seq<Generator>)
    requires
        zone == zone.blank(),
    ensures
        tunes_by(shaped(zone, gens), gens),
    decreases gens.len(),
{
    if gens.len() > 0 {
        lemma_tunes_by(zone, gens.drop_last());
        lemma_last_amount(gens, one(GeneratorType::KeyRange));
        lemma_last_amount(gens, one(GeneratorType::VelRange));
        lemma_last_amount(gens, one(GeneratorType::FineTune));
        lemma_last_amount(gens, one(GeneratorType::CoarseTune));
        lemma_last_amount(gens, one(GeneratorType::OverridingRootKey));
        lemma_last_amount(gens, one(GeneratorType::ScaleTuning));
        lemma_last_amount(gens, one(GeneratorType::Keynum));
        lemma_last_amount(gens, one(GeneratorType::Velocity));
        lemma_last_amount(gens, one(GeneratorType::ExclusiveClass));
    }
}

/// Whether the first zone names no sample and no instrument.
pub open spec fn leads(zones: Seq<Zone>) -> bool {
    zones.len() > 0 && index_in(last_amount(zones[0].gen_list@, naming())) is None
}

/// The generators that count for region `j`: those of its zone, behind those of the first zone where
/// that one holds for all.
pub open spec fn gens_of(zones: Seq<Zone>, j: int) -> Seq<Generator> {
    if leads(zones) {
        zones[0].gen_list@ + zones[j + 1].gen_list@
    } else {
        zones[j].gen_list@
    }
}

/// The modulators that count for region `j`.
pub open spec fn mods_of(zones: Seq<Zone>, j: int) -> Seq<Modulator> {
    if leads(zones) {
        zones[0].mod_list@ + zones[j + 1].mod_list@
    } else {
        zones[j].mod_list@
    }
}

/// Every zone makes a region, but for a first zone that names no sample and no instrument. A region
/// holds in each of its fields what the last generator of that kind gives, in its own zone or else in
/// such a first one; what no generator gives is left open.
pub proof fn lemma_zones_make_regions(
    zones: Vec<Zone>,
    instrument_level: bool,
    regions: Vec<Sf2Zone>,
)
    requires
        call_ensures(Sf2Zone::parse, (zones, instrument_level), regions),
    ensures
        regions@.len() == zones@.len() - (if leads(zones@) {
            1int
        } else {
            0
        }),
        forall|j: int|
            0 <= j < regions@.len() ==> {
                &&& cuts_by(#[trigger] regions@[j], gens_of(zones@, j))
                &&& shapes_by(regions@[j], gens_of(zones@, j))
                &&& tunes_by(regions@[j], gens_of(zones@, j))
            },
{
    let n = zones@.len() as int;
    if n > 0 {
        lemma_leads(zones@);
    }
    assert forall|j: int| 0 <= j < regions@.len() implies {
        &&& cuts_by(#[trigger] regions@[j], gens_of(zones@, j))
        &&& shapes_by(regions@[j], gens_of(zones@, j))
        &&& tunes_by(regions@[j], gens_of(zones@, j))
    } by {
        let region = regions@[j];
        let i = j + skipped(zones@, n);
        assert(is_region(zones@, instrument_level, i, region));
        let gens = global_gens(zones@, i) + zones@[i].gen_list@;
        assert(gens =~= gens_of(zones@, j));
        lemma_cuts_by(region.blank(), gens);
        lemma_shapes_by(region.blank(), gens);
        lemma_tunes_by(region.blank(), gens);
    }
}

/// What makes a first zone hold for all.
proof fn lemma_leads(zones: Seq<Zone>)
    requires
        zones.len() > 0,
    ensures
        leads(zones) == has_global(zones),
{
    let gens = zones[0].gen_list@;
    let zone: Sf2Zone = arbitrary();
    lemma_index(zone.blank(), gens);
    lemma_cuts_by(zone.blank(), gens);
}

/// Whether a modulator of a file takes the place of another.
pub open spec fn takes_place(later: Modulator, earlier: Sf2NoteModulator) -> bool {
    Sf2NoteModulator::parsed(later) is Some && Sf2NoteModulator::parsed(later)->0.suppresses(
        earlier,
    )
}

/// Whether a modulator of `list` that comes behind position `i` takes the place of `modulator`.
pub open spec fn is_replaced(list: Seq<Modulator>, i: int, modulator: Sf2NoteModulator) -> bool {
    exists|k: int|
        i < k < list.len() && takes_place(#[trigger] list[k], modulator)
}

/// Whether `held` is what comes of `list`, read behind `first`: nothing comes in that neither gives,
/// and nothing is lost but what something later takes the place of.
pub open spec fn keeps_latest(
    first: Seq<Sf2NoteModulator>,
    list: Seq<Modulator>,
    held: Seq<Sf2NoteModulator>,
) -> bool {
    &&& forall|x: Sf2NoteModulator| #[trigger]
        held.contains(x) ==> first.contains(x) || exists|i: int|
            0 <= i < list.len() && Sf2NoteModulator::parsed(#[trigger] list[i]) == Some(x)
    &&& forall|x: Sf2NoteModulator| #[trigger]
        first.contains(x) ==> held.contains(x) || is_replaced(list, -1, x)
    &&& forall|i: int, x: Sf2NoteModulator|
        0 <= i < list.len() && Sf2NoteModulator::parsed(#[trigger] list[i]) == Some(x)
            ==> #[trigger] held.contains(x) || is_replaced(list, i, x)
}

/// A region holds the modulators of its zone, and of a first zone that holds for all, and the default
/// ones if it is one of an instrument; of those that would count twice the latest stays.
pub proof fn lemma_regions_hold_modulators(
    zones: Vec<Zone>,
    instrument_level: bool,
    regions: Vec<Sf2Zone>,
)
    requires
        call_ensures(Sf2Zone::parse, (zones, instrument_level), regions),
    ensures
        forall|j: int|
            0 <= j < regions@.len() ==> keeps_latest(
                if instrument_level {
                    modulator::default_modulators_of_instruments()
                } else {
                    Seq::empty()
                },
                mods_of(zones@, j),
                (#[trigger] regions@[j]).note_modulators@,
            ),
{
    let n = zones@.len() as int;
    if n > 0 {
        lemma_leads(zones@);
    }
    let first = first_modulators(instrument_level);
    assert forall|j: int| 0 <= j < regions@.len() implies keeps_latest(
        first,
        mods_of(zones@, j),
        (#[trigger] regions@[j]).note_modulators@,
    ) by {
        let region = regions@[j];
        let i = j + skipped(zones@, n);
        assert(is_region(zones@, instrument_level, i, region));
        if leads(zones@) {
            lemma_modulated_append(first, zones@[0].mod_list@, zones@[i].mod_list@);
        }
        lemma_keeps_latest(first, mods_of(zones@, j));
    }
}

/// Two lists of modulators can be read one after the other.
proof fn lemma_modulated_append(first: Seq<Sf2NoteModulator>, a: Seq<Modulator>, b: Seq<Modulator>)
    ensures
        modulated(first, a + b) == modulated(modulated(first, a), b),
    decreases b.len(),
{
    if b.len() == 0 {
        assert(a + b =~= a);
    } else {
        assert((a + b).drop_last() =~= a + b.drop_last());
        lemma_modulated_append(first, a, b.drop_last());
    }
}

/// Reading a list keeps the latest modulators.
proof fn lemma_keeps_latest(first: Seq<Sf2NoteModulator>, list: Seq<Modulator>)
    ensures
        keeps_latest(first, list, modulated(first, list)),
    decreases list.len(),
{
    let held = modulated(first, list);
    if list.len() > 0 {
        let fewer = list.drop_last();
        let before = modulated(first, fewer);
        lemma_keeps_latest(first, fewer);
        let last = list.len() - 1;
        let newest = Sf2NoteModulator::parsed(list[last]);
        assert forall|x: Sf2NoteModulator| #[trigger] held.contains(x) implies before.contains(x)
            || newest == Some(x) by {
            if newest is Some {
                lemma_joined(before, newest->0, x);
            }
        }
        assert forall|x: Sf2NoteModulator| before.contains(x) implies #[trigger] held.contains(x)
            || newest is Some && newest->0.suppresses(x) by {
            if newest is Some {
                lemma_joined(before, newest->0, x);
            }
        }
        if newest is Some {
            lemma_joined(before, newest->0, newest->0);
        }
        assert forall|i: int, x: Sf2NoteModulator| -1 <= i < last && #[trigger] is_replaced(
            fewer,
            i,
            x,
        ) implies is_replaced(list, i, x) by {
            let k = choose|k: int|
                i < k < fewer.len() && takes_place(#[trigger] fewer[k], x);
            assert(list[k] == fewer[k]);
        }
        assert forall|x: Sf2NoteModulator| #[trigger] held.contains(x) implies first.contains(x)
            || exists|i: int|
            0 <= i < list.len() && Sf2NoteModulator::parsed(#[trigger] list[i]) == Some(x) by {
            if newest == Some(x) {
                assert(Sf2NoteModulator::parsed(list[last]) == Some(x));
            } else if !first.contains(x) {
                let i = choose|i: int|
                    0 <= i < fewer.len() && Sf2NoteModulator::parsed(#[trigger] fewer[i]) == Some(
                        x,
                    );
                assert(list[i] == fewer[i]);
            }
        }
        assert forall|x: Sf2NoteModulator| #[trigger] first.contains(x) implies held.contains(x)
            || is_replaced(list, -1, x) by {
            if before.contains(x) && !held.contains(x) {
                assert(takes_place(list[last], x));
            }
        }
        assert forall|i: int, x: Sf2NoteModulator|
            0 <= i < list.len() && Sf2NoteModulator::parsed(#[trigger] list[i]) == Some(x) implies
            #[trigger] held.contains(x) || is_replaced(list, i, x) by {
            if i < last {
                assert(fewer[i] == list[i]);
                assert(before.contains(x) || is_replaced(fewer, i, x));
                if before.contains(x) && !held.contains(x) {
                    assert(takes_place(list[last], x));
                }
            }
        }
    }
}

/// What a modulator that joins a list leaves of it.
proof fn lemma_joined(
    modulators: Seq<Sf2NoteModulator>,
    modulator: Sf2NoteModulator,
    x: Sf2NoteModulator,
)
    ensures
        joined(modulators, modulator).contains(x) <==> x == modulator || modulators.contains(x)
            && !modulator.suppresses(x),
{
    let stays = |existing: Sf2NoteModulator| !modulator.suppresses(existing);
    let kept = modulators.filter(stays);
    let all = joined(modulators, modulator);
    assert(all == kept.push(modulator));
    lemma_filter_contains(modulators, stays, x);
    if kept.contains(x) {
        let i = kept.index_of(x);
        assert(all[i] == x);
    }
    assert(all[kept.len() as int] == modulator);
    if all.contains(x) && x != modulator {
        let i = all.index_of(x);
        assert(kept[i] == x);
    }
}

/// What a condition picks.
proof fn lemma_filter_contains(
    s: Seq<Sf2NoteModulator>,
    p: spec_fn(Sf2NoteModulator) -> bool,
    x: Sf2NoteModulator,
)
    ensures
        s.filter(p).contains(x) <==> s.contains(x) && p(x),
{
    if s.contains(x) && p(x) {
        s.lemma_filter_contains(p, s.index_of(x));
    }
    if s.filter(p).contains(x) {
        s.lemma_filter_pred(p, s.filter(p).index_of(x));
        s.lemma_filter_contains_rev(p, x);
    }
}

} // verus!
