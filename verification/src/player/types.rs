//! Values exchanged between the host and the player worker.

use vstd::prelude::*;

use crate::audio::devices::OutputDeviceInfo;

verus! {

/// Whether anything plays.
#[derive(Clone, Copy, Debug, PartialEq, Eq, Structural)]
pub enum PlaybackStatus {
    Stopped,
    Playing,
    Paused,
}

/// The number a status is stored as.
pub open spec fn status_code(s: PlaybackStatus) -> u32 {
    match s {
        PlaybackStatus::Stopped => 0,
        PlaybackStatus::Playing => 1,
        PlaybackStatus::Paused => 2,
    }
}

/// The status a stored number stands for; unknown numbers mean stopped.
pub open spec fn status_of_code(v: u32) -> PlaybackStatus {
    if v == 1 {
        PlaybackStatus::Playing
    } else if v == 2 {
        PlaybackStatus::Paused
    } else {
        PlaybackStatus::Stopped
    }
}

impl PlaybackStatus {
    /// The number the status is stored as: stopped 0, playing 1, paused 2.
    pub fn as_u32(self) -> (res: u32)
        ensures
            res == status_code(self),
    {
        match self {
            PlaybackStatus::Stopped => 0,
            PlaybackStatus::Playing => 1,
            PlaybackStatus::Paused => 2,
        }
    }

    /// The status a stored number stands for (see `status_of_code`).
    pub fn from_u32(value: u32) -> (res: PlaybackStatus)
        ensures
            res == status_of_code(value),
    {
        if value == 1 {
            PlaybackStatus::Playing
        } else if value == 2 {
            PlaybackStatus::Paused
        } else {
            PlaybackStatus::Stopped
        }
    }
}

/// Law: storing a status and reading it back gives the same status.
pub proof fn law_status_round_trip(s: PlaybackStatus)
    ensures
        status_of_code(status_code(s)) == s,
{
}

/// A cached stream to play: where it comes from and where it is cached.
#[derive(Clone, Debug)]
pub struct CachedUrlPlaybackRequest {
    pub url: String,
    pub cache_path: String,
    pub metadata_path: String,
    pub duration_ms: Option<u64>,
    pub cache_ahead_secs: Option<u32>,
    pub max_cache_ahead_bytes: Option<u64>,
}

/// Options of a playback request.
#[derive(Clone, Copy, Debug, PartialEq, Eq, Structural)]
pub struct PlaybackOptions {
    /// Refuse to play when the output cannot take the source samples
    /// unchanged.
    pub strict_bit_perfect: bool,
}

/// What is played.
#[derive(Clone, Debug)]
pub enum PlaybackSource {
    File(String, PlaybackOptions),
    Url(String, PlaybackOptions),
    CachedUrl(CachedUrlPlaybackRequest, PlaybackOptions),
}

/// An output device as the host sees it.
#[derive(Clone, Debug)]
pub struct AudioDeviceInfo {
    pub id: String,
    pub name: String,
    pub is_default: bool,
    pub is_current: bool,
}

impl From<OutputDeviceInfo> for AudioDeviceInfo {
    fn from(value: OutputDeviceInfo) -> (res: AudioDeviceInfo) {
        AudioDeviceInfo { id: value.id, name: value.name, is_default: value.is_default, is_current: value.is_current }
    }
}

impl vstd::std_specs::convert::FromSpecImpl<OutputDeviceInfo> for AudioDeviceInfo {
    open spec fn obeys_from_spec() -> bool {
        true
    }

    open spec fn from_spec(value: OutputDeviceInfo) -> AudioDeviceInfo {
        AudioDeviceInfo { id: value.id, name: value.name, is_default: value.is_default, is_current: value.is_current }
    }
}

/// Milliseconds of a duration of `secs` seconds and `subsec_nanos`
/// nanoseconds, rounded down and capped at `u32::MAX`.
pub open spec fn spec_duration_to_millis(secs: u64, subsec_nanos: u32) -> u32 {
    let ms = secs * 1000 + subsec_nanos / 1_000_000;
    if ms <= u32::MAX {
        ms as u32
    } else {
        u32::MAX
    }
}

/// Milliseconds of a duration (see `spec_duration_to_millis`).
pub fn duration_to_millis(secs: u64, subsec_nanos: u32) -> (res: u32)
    ensures
        res == spec_duration_to_millis(secs, subsec_nanos),
{
    let ms: u128 = (secs as u128) * 1000 + (subsec_nanos / 1_000_000) as u128;
    if ms <= 0xffff_ffff {
        ms as u32
    } else {
        u32::MAX
    }
}

} // verus!
