//! Verified core of a native music player: cache bookkeeping, download
//! throttling, seek and playback-clock decisions, and output-device naming.

pub mod audio;
pub mod cache;
pub mod intervals;
pub mod text;
pub mod player;
