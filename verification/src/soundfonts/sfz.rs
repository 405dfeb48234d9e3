//! The SFZ format.

pub mod defines;
