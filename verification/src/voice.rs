//! What a voice is, and what controls it.

use vstd::prelude::*;
use crate::scalar;
use crate::scalar::Scalar;

pub mod control;
pub mod envelope;
pub mod lerpers;
pub mod sampler;
pub mod simd_voice;
pub mod stage_time;

verus! {

/// Options to modify the envelope of a voice using high-precision values.
#[derive(Copy, Clone)]
pub struct EnvelopeControlData<V> {
    /// Controls the delay time in seconds.
    pub delay: Option<V>,
    /// Controls the attack time in seconds.
    pub attack: Option<V>,
    /// Controls the hold time in seconds.
    pub hold: Option<V>,
    /// Controls the decay time in seconds.
    pub decay: Option<V>,
    /// Controls the sustain level (0 = silent, 1 = max).
    pub sustain_percent: Option<V>,
    /// Controls the release time in seconds.
    pub release: Option<V>,
}

/// Options to modify the envelope of a voice using MIDI CC values (0-127).
/// These are relative to the original envelope duration.
#[derive(Copy, Clone)]
pub struct EnvelopeCCControlData {
    pub delay: Option<u8>,
    pub attack: Option<u8>,
    pub hold: Option<u8>,
    pub decay: Option<u8>,
    pub sustain_percent: Option<u8>,
    pub release: Option<u8>,
}

/// How a voice should be released.
#[derive(Copy, Clone, PartialEq, Eq, Structural)]
pub enum ReleaseType {
    /// Standard release. Uses the voice's envelope.
    Standard,
    /// Kills the voice with a fadeout of 1ms.
    Kill,
}

/// Options to control the parameters of a voice.
#[derive(Copy, Clone)]
pub struct VoiceControlData<V> {
    /// Pitch multiplier
    pub voice_pitch_multiplier: V,
    /// Envelope control (high-precision, seconds)
    pub envelope: EnvelopeControlData<V>,
    /// Envelope control via MIDI CC (0-127, relative to original duration)
    pub cc_envelope: EnvelopeCCControlData,
}

/// Envelope control that leaves every part of the envelope as it is.
pub open spec fn no_envelope_control<V>() -> EnvelopeControlData<V> {
    EnvelopeControlData {
        delay: None,
        attack: None,
        hold: None,
        decay: None,
        sustain_percent: None,
        release: None,
    }
}

/// Controller values that leave every part of the envelope as it is.
pub open spec fn no_cc_control() -> EnvelopeCCControlData {
    EnvelopeCCControlData {
        delay: None,
        attack: None,
        hold: None,
        decay: None,
        sustain_percent: None,
        release: None,
    }
}

impl<V: Scalar> VoiceControlData<V> {
    /// Whether these are the settings of an untouched channel.
    pub open spec fn is_default(self) -> bool {
        &&& scalar::is_ratio(1, 1, self.voice_pitch_multiplier)
        &&& self.envelope == no_envelope_control::<V>()
        &&& self.cc_envelope == no_cc_control()
    }

    /// Unchanged pitch, and an envelope that nothing modifies.
    pub fn new_defaults() -> (control: Self)
        ensures
            control.is_default(),
    {
        VoiceControlData {
            voice_pitch_multiplier: scalar::ratio(1, 1),
            envelope: EnvelopeControlData {
                delay: None,
                attack: None,
                hold: None,
                decay: None,
                sustain_percent: None,
                release: None,
            },
            cc_envelope: EnvelopeCCControlData {
                delay: None,
                attack: None,
                hold: None,
                decay: None,
                sustain_percent: None,
                release: None,
            },
        }
    }
}

/// What every part of a voice can do: tell whether it is over, be released, follow the controls.
///
/// An implementation says by its spec functions what each of these does to it.
pub trait VoiceGeneratorBase: Sized {
    /// The settings that the generator follows.
    type Control;

    /// Whether nothing more will come from the generator.
    closed spec fn has_ended(&self) -> bool {
        arbitrary()
    }

    /// Whether a release turns `pre` into `post`.
    closed spec fn releases(pre: Self, rel_type: ReleaseType, post: Self) -> bool {
        arbitrary()
    }

    /// Whether following `control` turns `pre` into `post`.
    closed spec fn follows(pre: Self, control: Self::Control, post: Self) -> bool {
        arbitrary()
    }

    fn ended(&self) -> (ended: bool)
        ensures
            ended == self.has_ended(),
    ;

    fn signal_release(&mut self, rel_type: ReleaseType)
        ensures
            Self::releases(*old(self), rel_type, *final(self)),
    ;

    fn process_controls(&mut self, control: &Self::Control)
        ensures
            Self::follows(*old(self), *control, *final(self)),
    ;
}

/// A part of a voice that adds its output to a buffer.
pub trait VoiceSampleGenerator: VoiceGeneratorBase {
    /// One sample of audio.
    type Sample;

    /// Whether rendering turns the generator `pre` into `post` and the buffer `before` into `after`.
    closed spec fn renders(
        pre: Self,
        before: Seq<Self::Sample>,
        post: Self,
        after: Seq<Self::Sample>,
    ) -> bool {
        arbitrary()
    }

    /// What rendering needs of the generator and the length of the buffer.
    closed spec fn can_render(&self, len: nat) -> bool {
        arbitrary()
    }

    fn render_to(&mut self, buffer: &mut [Self::Sample])
        requires
            old(self).can_render(old(buffer)@.len()),
        ensures
            final(buffer)@.len() == old(buffer)@.len(),
            Self::renders(*old(self), old(buffer)@, *final(self), final(buffer)@),
    ;
}

/// One sounding voice of a key.
pub trait Voice: VoiceSampleGenerator {
    /// Whether the voice has been released.
    closed spec fn releasing(&self) -> bool {
        arbitrary()
    }

    /// Whether the voice has been killed.
    closed spec fn killed(&self) -> bool {
        arbitrary()
    }

    /// The velocity of the note that started the voice.
    closed spec fn vel(&self) -> u8 {
        arbitrary()
    }

    /// The class of voices that end each other, if the voice belongs to one.
    closed spec fn class(&self) -> Option<u8> {
        arbitrary()
    }

    fn is_releasing(&self) -> (releasing: bool)
        ensures
            releasing == self.releasing(),
    ;

    fn is_killed(&self) -> (killed: bool)
        ensures
            killed == self.killed(),
    ;

    fn velocity(&self) -> (vel: u8)
        ensures
            vel == self.vel(),
    ;

    fn exclusive_class(&self) -> (class: Option<u8>)
        ensures
            class == self.class(),
    ;
}

/// Whether voices of a type show that they were released: one that was killed counts as killed, and
/// one that was released in the standard way no longer counts as sounding.
pub open spec fn release_is_seen<V: Voice>() -> bool {
    &&& forall|pre: V, post: V| #[trigger]
        V::releases(pre, ReleaseType::Kill, post) ==> post.killed()
    &&& forall|pre: V, post: V| #[trigger]
        V::releases(pre, ReleaseType::Standard, post) ==> post.releasing() || post.killed()
}

} // verus!
