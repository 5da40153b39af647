//! The cache settings and the file they are stored in.

use vstd::prelude::*;

use crate::cache::types::{spec_default_song_cache_ahead_secs, CacheSettingsData};

verus! {

/// `value` limited to `[low, high]`.
pub open spec fn clamp_u32(value: u32, low: u32, high: u32) -> u32 {
    if value < low {
        low
    } else if value > high {
        high
    } else {
        value
    }
}

/// The settings of the cache and the file they are stored in.
pub struct CacheSettingsStore {
    path: String,
    settings: CacheSettingsData,
}

impl CacheSettingsStore {
    pub closed spec fn settings_path(&self) -> Seq<char> {
        self.path@
    }

    pub closed spec fn max_size(&self) -> u64 {
        self.settings.max_size_bytes
    }

    pub closed spec fn ahead_secs(&self) -> u32 {
        self.settings.song_cache_ahead_secs
    }

    /// Settings read from `path`.
    pub fn from_settings(path: String, settings: CacheSettingsData) -> (res: CacheSettingsStore)
        ensures
            res.settings_path() == path@,
            res.max_size() == settings.max_size_bytes,
            res.ahead_secs() == settings.song_cache_ahead_secs,
    {
        CacheSettingsStore { path, settings }
    }

    /// The settings used when none are stored yet: the given size limit and
    /// the default read-ahead.
    pub fn with_fallback(path: String, fallback_max_size_bytes: u64) -> (res: CacheSettingsStore)
        ensures
            res.settings_path() == path@,
            res.max_size() == fallback_max_size_bytes,
            res.ahead_secs() == spec_default_song_cache_ahead_secs(),
    {
        let defaults = CacheSettingsData::default_settings();
        CacheSettingsStore {
            path,
            settings: CacheSettingsData {
                max_size_bytes: fallback_max_size_bytes,
                song_cache_ahead_secs: defaults.song_cache_ahead_secs,
            },
        }
    }

    pub fn path(&self) -> (res: &String)
        ensures
            res@ == self.settings_path(),
    {
        &self.path
    }

    /// The stored form of the settings.
    pub fn settings(&self) -> (res: &CacheSettingsData)
        ensures
            res.max_size_bytes == self.max_size(),
            res.song_cache_ahead_secs == self.ahead_secs(),
    {
        &self.settings
    }

    pub fn max_size_bytes(&self) -> (res: u64)
        ensures
            res == self.max_size(),
    {
        self.settings.max_size_bytes
    }

    pub fn set_max_size_bytes(&mut self, max_size_bytes: u64)
        ensures
            final(self).max_size() == max_size_bytes,
            final(self).ahead_secs() == old(self).ahead_secs(),
            final(self).settings_path() == old(self).settings_path(),
    {
        self.settings.max_size_bytes = max_size_bytes;
    }

    pub fn song_cache_ahead_secs(&self) -> (res: u32)
        ensures
            res == self.ahead_secs(),
    {
        self.settings.song_cache_ahead_secs
    }

    /// Sets the song read-ahead, limited to between 5 and 300 seconds.
    pub fn set_song_cache_ahead_secs(&mut self, song_cache_ahead_secs: u32)
        ensures
            final(self).ahead_secs() == clamp_u32(song_cache_ahead_secs, 5, 300),
            final(self).max_size() == old(self).max_size(),
            final(self).settings_path() == old(self).settings_path(),
    {
        let value = if song_cache_ahead_secs < 5 {
            5
        } else if song_cache_ahead_secs > 300 {
            300
        } else {
            song_cache_ahead_secs
        };
        self.settings.song_cache_ahead_secs = value;
    }
}

} // verus!
