//! The SoundFont 2 format.

pub mod modulator;
pub mod raw;
pub mod sample;
pub mod zone;
