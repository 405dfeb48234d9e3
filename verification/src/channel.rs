//! The voices of a channel.

pub mod control;
pub mod event;
pub mod key;
pub mod voice_buffer;
