//! Soundfonts.

use vstd::prelude::*;

pub mod resample;
pub mod sf2;
pub mod sfz;

verus! {

/// How a sample repeats.
#[derive(Copy, Clone, Debug, PartialEq, Eq, Structural)]
pub enum LoopMode {
    /// The sample plays once, as long as its note.
    NoLoop,
    /// The sample plays to its end, however long its note.
    OneShot,
    /// The sample repeats until its note has died away.
    LoopContinuous,
    /// The sample repeats until its note is released.
    LoopSustain,
}

} // verus!
