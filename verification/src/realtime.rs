//! Realtime playback.

pub mod config;
pub mod event_senders;
pub mod realtime_synth;
