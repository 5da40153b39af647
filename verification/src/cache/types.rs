//! Buckets, entries and statistics of the cache.

use vstd::prelude::*;

use crate::cache::error::{CacheError, CacheResult};
use crate::text::{
    ascii_lower, chars_of, concat, lower_chars, string_of, trim, trimmed,
};

verus! {

/// The kind of data an entry holds; each kind has its own directory.
#[derive(Clone, Copy, Debug, PartialEq, Eq, Hash, Structural)]
pub enum CacheBucket {
    Song,
    Entity,
    Cover,
    Lyric,
}

/// The name of a bucket, as used in keys and directory names.
pub open spec fn bucket_name(b: CacheBucket) -> Seq<char> {
    match b {
        CacheBucket::Song => "song"@,
        CacheBucket::Entity => "entity"@,
        CacheBucket::Cover => "cover"@,
        CacheBucket::Lyric => "lyric"@,
    }
}

/// The bucket that a name denotes, after trimming and ASCII lower-casing.
pub open spec fn bucket_for_name(name: Seq<char>) -> Option<CacheBucket> {
    let n = ascii_lower(trim(name));
    if n == "song"@ {
        Some(CacheBucket::Song)
    } else if n == "entity"@ {
        Some(CacheBucket::Entity)
    } else if n == "cover"@ {
        Some(CacheBucket::Cover)
    } else if n == "lyric"@ {
        Some(CacheBucket::Lyric)
    } else {
        None
    }
}

impl CacheBucket {
    /// Every bucket, in a fixed order.
    pub fn all() -> (res: [CacheBucket; 4])
        ensures
            res@ == seq![CacheBucket::Song, CacheBucket::Entity, CacheBucket::Cover, CacheBucket::Lyric],
    {
        [CacheBucket::Song, CacheBucket::Entity, CacheBucket::Cover, CacheBucket::Lyric]
    }

    pub fn as_str(self) -> (res: &'static str)
        ensures
            res@ == bucket_name(self),
    {
        match self {
            CacheBucket::Song => "song",
            CacheBucket::Entity => "entity",
            CacheBucket::Cover => "cover",
            CacheBucket::Lyric => "lyric",
        }
    }

    /// Reads a bucket name; surrounding white space and ASCII case are
    /// ignored.  An unknown name is an `InvalidBucket` error that carries the
    /// normalized name.
    pub fn parse(value: &str) -> (res: CacheResult<CacheBucket>)
        ensures
            bucket_for_name(value@) matches Some(b) ==> res == Ok::<CacheBucket, CacheError>(b),
            bucket_for_name(value@) is None ==> (res matches Err(CacheError::InvalidBucket(n))
                && n@ == ascii_lower(trim(value@))),
    {
        let t = trimmed(value);
        let n = lower_chars(&t);
        let song = chars_of("song");
        let entity = chars_of("entity");
        let cover = chars_of("cover");
        let lyric = chars_of("lyric");
        if crate::text::chars_eq(&n, &song) {
            Ok(CacheBucket::Song)
        } else if crate::text::chars_eq(&n, &entity) {
            Ok(CacheBucket::Entity)
        } else if crate::text::chars_eq(&n, &cover) {
            Ok(CacheBucket::Cover)
        } else if crate::text::chars_eq(&n, &lyric) {
            Ok(CacheBucket::Lyric)
        } else {
            Err(CacheError::InvalidBucket(string_of(&n)))
        }
    }
}

/// One cached item as the index records it.
#[derive(Clone, Debug)]
pub struct CacheEntry {
    pub bucket: CacheBucket,
    pub key: String,
    pub relative_path: String,
    pub size_bytes: u64,
    pub created_at: u64,
    pub accessed_at: u64,
    pub source_url: Option<String>,
    pub mime_type: Option<String>,
    pub song_id: Option<i64>,
    pub quality: Option<String>,
    pub content_length: Option<u64>,
    pub is_complete: bool,
    pub expires_at: Option<u64>,
}

impl CacheEntry {
    /// Whether the entry has expired at time `now` (seconds since the epoch).
    pub open spec fn expired_at(self, now: u64) -> bool {
        match self.expires_at {
            Some(t) => now >= t,
            None => false,
        }
    }

    pub fn is_expired_at(&self, now: u64) -> (res: bool)
        ensures
            res == self.expired_at(now),
    {
        match self.expires_at {
            Some(t) => now >= t,
            None => false,
        }
    }
}

/// Stored settings of the cache.
#[derive(Clone, Debug)]
pub struct CacheSettingsData {
    pub max_size_bytes: u64,
    pub song_cache_ahead_secs: u32,
}

pub open spec fn spec_default_song_cache_ahead_secs() -> u32 {
    30
}

pub fn default_song_cache_ahead_secs() -> (res: u32)
    ensures
        res == spec_default_song_cache_ahead_secs(),
{
    30
}

impl CacheSettingsData {
    /// 512 MiB of cache, 30 seconds of song read-ahead.
    pub fn default_settings() -> (res: CacheSettingsData)
        ensures
            res.max_size_bytes == 512 * 1024 * 1024,
            res.song_cache_ahead_secs == spec_default_song_cache_ahead_secs(),
    {
        CacheSettingsData {
            max_size_bytes: 512 * 1024 * 1024,
            song_cache_ahead_secs: default_song_cache_ahead_secs(),
        }
    }
}

/// Sizes and counts of the cache, per bucket.
#[derive(Clone, Debug)]
pub struct CacheStats {
    pub total_bytes: i64,
    pub max_size_bytes: i64,
    pub song_bytes: i64,
    pub song_entries: u32,
    pub entity_bytes: i64,
    pub entity_entries: u32,
    pub cover_bytes: i64,
    pub cover_entries: u32,
    pub lyric_bytes: i64,
    pub lyric_entries: u32,
}

/// A song source handed to the player: a file to play, or a URL to stream
/// while caching it.
#[derive(Clone, Debug)]
pub struct CachedSongSource {
    pub kind: String,
    pub value: String,
    pub cache_path: Option<String>,
    pub metadata_path: Option<String>,
    pub cache_ahead_secs: Option<u32>,
}

/// `value` clamped to the range of `i64`.
pub open spec fn clamp_i64(value: int) -> i64 {
    if value > i64::MAX {
        i64::MAX
    } else if value < i64::MIN {
        i64::MIN
    } else {
        value as i64
    }
}

pub fn as_i64(value: u64) -> (res: i64)
    ensures
        res == clamp_i64(value as int),
{
    if value > 0x7FFF_FFFF_FFFF_FFFF {
        i64::MAX
    } else {
        value as i64
    }
}

fn sat_add_i64(a: i64, b: i64) -> (res: i64)
    ensures
        res == clamp_i64(a + b),
{
    if b > 0 && a > i64::MAX - b {
        i64::MAX
    } else if b < 0 && a < i64::MIN - b {
        i64::MIN
    } else {
        a + b
    }
}

fn sat_add_u32(a: u32, b: u32) -> (res: u32)
    ensures
        res == (if a + b > u32::MAX {
            u32::MAX
        } else {
            (a + b) as u32
        }),
{
    if a > u32::MAX - b {
        u32::MAX
    } else {
        a + b
    }
}

pub open spec fn sat_u32(v: int) -> u32 {
    if v > u32::MAX {
        u32::MAX
    } else {
        v as u32
    }
}

/// The statistics after counting one more entry.
pub open spec fn stats_with_entry(s: CacheStats, e: CacheEntry) -> CacheStats {
    let size = clamp_i64(e.size_bytes as int);
    let s = CacheStats { total_bytes: clamp_i64(s.total_bytes + size), ..s };
    match e.bucket {
        CacheBucket::Song => CacheStats {
            song_bytes: clamp_i64(s.song_bytes + size),
            song_entries: sat_u32(s.song_entries + 1),
            ..s
        },
        CacheBucket::Entity => CacheStats {
            entity_bytes: clamp_i64(s.entity_bytes + size),
            entity_entries: sat_u32(s.entity_entries + 1),
            ..s
        },
        CacheBucket::Cover => CacheStats {
            cover_bytes: clamp_i64(s.cover_bytes + size),
            cover_entries: sat_u32(s.cover_entries + 1),
            ..s
        },
        CacheBucket::Lyric => CacheStats {
            lyric_bytes: clamp_i64(s.lyric_bytes + size),
            lyric_entries: sat_u32(s.lyric_entries + 1),
            ..s
        },
    }
}

/// The entry count that `s` records for bucket `b`.
pub open spec fn bucket_entries(s: CacheStats, b: CacheBucket) -> int {
    match b {
        CacheBucket::Song => s.song_entries as int,
        CacheBucket::Entity => s.entity_entries as int,
        CacheBucket::Cover => s.cover_entries as int,
        CacheBucket::Lyric => s.lyric_entries as int,
    }
}

/// The byte count that `s` records for bucket `b`.
pub open spec fn bucket_bytes(s: CacheStats, b: CacheBucket) -> int {
    match b {
        CacheBucket::Song => s.song_bytes as int,
        CacheBucket::Entity => s.entity_bytes as int,
        CacheBucket::Cover => s.cover_bytes as int,
        CacheBucket::Lyric => s.lyric_bytes as int,
    }
}

/// Law: counting an entry changes the counters of its own bucket only.
/// That bucket's entry count goes up by one and its bytes and the total
/// by the entry's size (both saturating); every other bucket's counters
/// and the size limit stay as they were.
pub proof fn law_entry_counts_in_its_bucket(s: CacheStats, e: CacheEntry, b: CacheBucket)
    ensures
        b != e.bucket ==> bucket_entries(stats_with_entry(s, e), b) == bucket_entries(s, b)
            && bucket_bytes(stats_with_entry(s, e), b) == bucket_bytes(s, b),
        bucket_entries(stats_with_entry(s, e), e.bucket) == if bucket_entries(s, e.bucket) < u32::MAX {
            bucket_entries(s, e.bucket) + 1
        } else {
            u32::MAX as int
        },
        bucket_bytes(stats_with_entry(s, e), e.bucket) == clamp_i64(
            bucket_bytes(s, e.bucket) + clamp_i64(e.size_bytes as int),
        ),
        stats_with_entry(s, e).total_bytes == clamp_i64(s.total_bytes + clamp_i64(e.size_bytes as int)),
        stats_with_entry(s, e).max_size_bytes == s.max_size_bytes,
{
}

/// Empty statistics under the given size limit.
pub open spec fn empty_stats(max_size_bytes: u64) -> CacheStats {
    CacheStats {
        total_bytes: 0,
        max_size_bytes: clamp_i64(max_size_bytes as int),
        song_bytes: 0,
        song_entries: 0,
        entity_bytes: 0,
        entity_entries: 0,
        cover_bytes: 0,
        cover_entries: 0,
        lyric_bytes: 0,
        lyric_entries: 0,
    }
}

impl CacheStats {
    pub fn with_max_size(max_size_bytes: u64) -> (res: CacheStats)
        ensures
            res == empty_stats(max_size_bytes),
    {
        CacheStats {
            total_bytes: 0,
            max_size_bytes: as_i64(max_size_bytes),
            song_bytes: 0,
            song_entries: 0,
            entity_bytes: 0,
            entity_entries: 0,
            cover_bytes: 0,
            cover_entries: 0,
            lyric_bytes: 0,
            lyric_entries: 0,
        }
    }

    /// Counts one entry: its size is added (saturating) to the total and to
    /// its bucket, and its bucket's count grows by one (saturating).
    pub fn add_entry(&mut self, entry: &CacheEntry)
        ensures
            *final(self) == stats_with_entry(*old(self), *entry),
    {
        let size = as_i64(entry.size_bytes);
        self.total_bytes = sat_add_i64(self.total_bytes, size);
        match entry.bucket {
            CacheBucket::Song => {
                self.song_bytes = sat_add_i64(self.song_bytes, size);
                self.song_entries = sat_add_u32(self.song_entries, 1);
            },
            CacheBucket::Entity => {
                self.entity_bytes = sat_add_i64(self.entity_bytes, size);
                self.entity_entries = sat_add_u32(self.entity_entries, 1);
            },
            CacheBucket::Cover => {
                self.cover_bytes = sat_add_i64(self.cover_bytes, size);
                self.cover_entries = sat_add_u32(self.cover_entries, 1);
            },
            CacheBucket::Lyric => {
                self.lyric_bytes = sat_add_i64(self.lyric_bytes, size);
                self.lyric_entries = sat_add_u32(self.lyric_entries, 1);
            },
        }
    }
}

/// The index key of an entry: the bucket name, a colon, and the trimmed key.
pub open spec fn spec_composite_key(bucket: CacheBucket, key: Seq<char>) -> Seq<char> {
    bucket_name(bucket) + ":"@ + trim(key)
}

/// The index key of `key` in `bucket`; a key that is empty after trimming
/// is refused.
pub fn composite_key(bucket: CacheBucket, key: &str) -> (res: CacheResult<String>)
    ensures
        trim(key@).len() == 0 <==> res == Err::<String, CacheError>(CacheError::EmptyKey),
        trim(key@).len() > 0 ==> res is Ok,
        res matches Ok(s) ==> s@ == spec_composite_key(bucket, key@),
{
    let normalized = trimmed(key);
    if normalized.len() == 0 {
        return Err(CacheError::EmptyKey);
    }
    let name = chars_of(bucket.as_str());
    let colon = chars_of(":");
    let head = concat(&name, &colon);
    Ok(string_of(&concat(&head, &normalized)))
}

/// Seconds since the Unix epoch by the system clock (`SystemTime::now`);
/// 0 if the clock is set before the epoch.  Nothing is promised of the
/// value: it is the time.
#[verifier::external_body]
pub fn now_unix_secs() -> u64 {
    match std::time::SystemTime::now().duration_since(std::time::UNIX_EPOCH) {
        Ok(elapsed) => elapsed.as_secs(),
        Err(_) => 0,
    }
}

} // verus!
