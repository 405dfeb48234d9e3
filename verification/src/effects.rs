//! The effects.

pub mod limiter;
