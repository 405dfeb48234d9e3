//! The events of a channel.

use vstd::prelude::*;

verus! {

/// A change of one of the controls of a channel.
#[derive(Copy, Clone)]
pub enum ControlEvent<V> {
    /// A raw control change: the controller and its value.
    Raw(u8, u8),
    /// The pitch bend strength in semitones.
    PitchBendSensitivity(V),
    /// The pitch bend position, from -1 to 1.
    PitchBendValue(V),
    /// The pitch bend in semitones: strength times position.
    PitchBend(V),
    /// The fine tune in cents.
    FineTune(V),
    /// The coarse tune in semitones.
    CoarseTune(V),
    /// The volume, from 0 to 1.
    Volume(V),
    /// The pan, from 0 (left) to 1 (right).
    Pan(V),
    /// The expression, from 0 to 1.
    Expression(V),
    /// The low-pass cutoff frequency.
    Cutoff(V),
    /// The low-pass resonance.
    Resonance(V),
    /// The high-pass cutoff frequency.
    HighPassCutoff(V),
    /// The high-pass resonance.
    HighPassResonance(V),
    /// The delay of the envelope in seconds.
    DelayTime(V),
    /// The attack of the envelope in seconds.
    AttackTime(V),
    /// The hold of the envelope in seconds.
    HoldTime(V),
    /// The decay of the envelope in seconds.
    DecayTime(V),
    /// The sustain level of the envelope, from 0 to 1.
    SustainLevel(V),
    /// The release of the envelope in seconds.
    ReleaseTime(V),
    /// Whether the damper is held.
    Damper(bool),
}

/// An event that a channel plays.
#[derive(Copy, Clone)]
pub enum ChannelAudioEvent<V> {
    /// Starts a note.
    NoteOn { key: u8, vel: u8 },
    /// Ends a note.
    NoteOff { key: u8 },
    /// Ends all notes.
    AllNotesOff,
    /// Kills all notes.
    AllNotesKilled,
    /// Puts all controls back to where they start.
    ResetControl,
    /// Changes a control.
    Control(ControlEvent<V>),
    /// Selects a preset.
    ProgramChange(u8),
    /// Resets the whole channel.
    SystemReset,
}

/// A change to how a channel is set up. `F` is what stands for the soundfonts.
#[derive(Clone)]
pub enum ChannelConfigEvent<F> {
    /// Gives the channel its soundfonts.
    SetSoundfonts(F),
    /// Sets the maximum number of voices per key. None means no limit.
    SetLayerCount(Option<usize>),
    /// Makes the channel a percussion channel or a melodic one.
    SetPercussionMode(bool),
}

/// Anything that can be sent to a channel.
#[derive(Clone)]
pub enum ChannelEvent<V, F> {
    /// An event to play.
    Audio(ChannelAudioEvent<V>),
    /// A change of setup.
    Config(ChannelConfigEvent<F>),
}

/// Anything that can be sent to a synthesizer.
#[derive(Clone)]
pub enum SynthEvent<V, F> {
    /// An event for one channel.
    Channel(u32, ChannelEvent<V, F>),
    /// An event for every channel.
    AllChannels(ChannelEvent<V, F>),
}

} // verus!
