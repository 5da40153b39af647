//! The player's control side: playback status, what is playing, progress
//! and buffering as the host sees them, and the decisions of the worker
//! that runs commands against the audio backend.

pub mod types;
pub mod worker;
