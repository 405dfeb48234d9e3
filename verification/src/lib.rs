pub mod buffered_renderer;
pub mod channel;
pub mod effects;
pub mod fx_set;
pub mod helpers;
pub mod kdmapi;
pub mod offline;
pub mod range;
pub mod realtime;
pub mod scalar;
pub mod soundfonts;
pub mod stream;
pub mod tally;
pub mod voice;
