//! Decisions of the song cache: which cached entry serves a song in a
//! given quality, which entries of other qualities of the same song are
//! dropped, whether a cached file can be served, and how an entry is
//! brought in line with what is on disk.

use vstd::prelude::*;

use crate::cache::keys::{
    is_legacy_audio_key_for_song, legacy_audio_key_matches_quality, spec_is_legacy_audio_key_for_song,
    spec_legacy_audio_key_matches_quality,
};
use crate::cache::catalog::{keys_distinct, lemma_map_of, map_of, CacheCatalog};
use crate::cache::song::SongStreamCacheMeta;
use crate::cache::types::{CacheBucket, CacheEntry, CachedSongSource};
use crate::text::{chars_eq, chars_of};

verus! {

broadcast use vstd::string::group_string_axioms;

/// The entry records quality `q`.
pub open spec fn has_quality(e: CacheEntry, q: Seq<char>) -> bool {
    match e.quality {
        Some(s) => s@ == q,
        None => false,
    }
}

/// A song entry that serves song `song_id` in quality `q`: one recorded
/// for that song and quality, or an older-format entry whose key names the
/// song and the quality.
pub open spec fn serves_song_quality(e: CacheEntry, song_id: i64, q: Seq<char>) -> bool {
    &&& e.bucket == CacheBucket::Song
    &&& {
        ||| e.song_id == Some(song_id) && has_quality(e, q)
        ||| e.song_id is None && spec_is_legacy_audio_key_for_song(e.key@, song_id)
            && spec_legacy_audio_key_matches_quality(e.key@, q)
    }
}

/// A song entry of song `song_id` in another quality than `q`.
pub open spec fn is_other_quality(e: CacheEntry, song_id: i64, q: Seq<char>) -> bool {
    &&& e.bucket == CacheBucket::Song
    &&& {
        ||| e.song_id == Some(song_id) && !has_quality(e, q)
        ||| e.song_id is None && spec_is_legacy_audio_key_for_song(e.key@, song_id)
            && !spec_legacy_audio_key_matches_quality(e.key@, q)
    }
}

fn has_quality_exec(e: &CacheEntry, q: &str) -> (res: bool)
    ensures
        res == has_quality(*e, q@),
{
    match &e.quality {
        Some(s) => chars_eq(&chars_of(s.as_str()), &chars_of(q)),
        None => false,
    }
}

fn serves_song_quality_exec(e: &CacheEntry, song_id: i64, q: &str) -> (res: bool)
    ensures
        res == serves_song_quality(*e, song_id, q@),
{
    if e.bucket != CacheBucket::Song {
        return false;
    }
    if e.song_id == Some(song_id) && has_quality_exec(e, q) {
        return true;
    }
    e.song_id.is_none() && is_legacy_audio_key_for_song(e.key.as_str(), song_id)
        && legacy_audio_key_matches_quality(e.key.as_str(), q)
}

fn is_other_quality_exec(e: &CacheEntry, song_id: i64, q: &str) -> (res: bool)
    ensures
        res == is_other_quality(*e, song_id, q@),
{
    if e.bucket != CacheBucket::Song {
        return false;
    }
    if e.song_id == Some(song_id) && !has_quality_exec(e, q) {
        return true;
    }
    e.song_id.is_none() && is_legacy_audio_key_for_song(e.key.as_str(), song_id)
        && !legacy_audio_key_matches_quality(e.key.as_str(), q)
}

/// The first entry, in catalog order, that serves song `song_id` in the
/// normalized quality `quality`.
pub fn find_same_quality_entry(entries: &[(String, CacheEntry)], song_id: i64, quality: &str) -> (res: Option<usize>)
    ensures
        res matches Some(i) ==> i < entries@.len() && serves_song_quality(entries@[i as int].1, song_id, quality@)
            && forall|j: int| 0 <= j < i ==> !#[trigger] serves_song_quality(entries@[j].1, song_id, quality@),
        res is None ==> forall|j: int|
            0 <= j < entries@.len() ==> !#[trigger] serves_song_quality(entries@[j].1, song_id, quality@),
{
    let mut i: usize = 0;
    while i < entries.len()
        invariant
            i <= entries@.len(),
            forall|j: int| 0 <= j < i ==> !#[trigger] serves_song_quality(entries@[j].1, song_id, quality@),
        decreases entries@.len() - i,
    {
        if serves_song_quality_exec(&entries[i].1, song_id, quality) {
            return Some(i);
        }
        i = i + 1;
    }
    None
}

/// The composite keys of the entries of `s` that hold song `song_id` in
/// another quality than `q`, in order.
pub open spec fn other_quality_keys(s: Seq<(String, CacheEntry)>, song_id: i64, q: Seq<char>) -> Seq<Seq<char>>
    decreases s.len(),
{
    if s.len() == 0 {
        Seq::empty()
    } else {
        let r = other_quality_keys(s.drop_last(), song_id, q);
        if is_other_quality(s.last().1, song_id, q) {
            r.push(s.last().0@)
        } else {
            r
        }
    }
}

/// The composite keys of the entries that hold song `song_id` in another
/// quality than the normalized `quality`, in catalog order: they are
/// dropped when the song is prepared in `quality`.
pub fn variant_victims(entries: &[(String, CacheEntry)], song_id: i64, quality: &str) -> (res: Vec<String>)
    ensures
        res@.len() == other_quality_keys(entries@, song_id, quality@).len(),
        forall|i: int| 0 <= i < res@.len() ==> #[trigger] res@[i]@ == other_quality_keys(entries@, song_id, quality@)[i],
{
    let mut res: Vec<String> = Vec::new();
    let mut i: usize = 0;
    while i < entries.len()
        invariant
            i <= entries@.len(),
            res@.len() == other_quality_keys(entries@.take(i as int), song_id, quality@).len(),
            forall|k: int|
                0 <= k < res@.len() ==> #[trigger] res@[k]@ == other_quality_keys(
                    entries@.take(i as int),
                    song_id,
                    quality@,
                )[k],
        decreases entries@.len() - i,
    {
        assert(entries@.take(i + 1).drop_last() == entries@.take(i as int));
        assert(entries@.take(i + 1).last() == entries@[i as int]);
        if is_other_quality_exec(&entries[i].1, song_id, quality) {
            res.push(entries[i].0.clone());
        }
        i = i + 1;
    }
    assert(entries@.take(entries@.len() as int) == entries@);
    res
}

/// Entry `j` of `s` has key `k` and holds the song in another quality.
pub open spec fn other_quality_at(s: Seq<(String, CacheEntry)>, song_id: i64, q: Seq<char>, j: int, k: Seq<char>) -> bool {
    0 <= j < s.len() && s[j].0@ == k && is_other_quality(s[j].1, song_id, q)
}

/// Some entry of `s` has key `k` and holds the song in another quality.
pub open spec fn is_other_quality_key(s: Seq<(String, CacheEntry)>, song_id: i64, q: Seq<char>, k: Seq<char>) -> bool {
    exists|j: int| #[trigger] other_quality_at(s, song_id, q, j, k)
}

/// Where the keys of `other_quality_keys` come from: each is the key of an
/// other-quality entry, every such entry's key is among them, and with
/// distinct keys none repeats.
proof fn lemma_other_quality_keys(s: Seq<(String, CacheEntry)>, song_id: i64, q: Seq<char>)
    ensures
        forall|i: int| 0 <= i < other_quality_keys(s, song_id, q).len() ==> #[trigger] is_other_quality_key(
            s,
            song_id,
            q,
            other_quality_keys(s, song_id, q)[i],
        ),
        forall|j: int| 0 <= j < s.len() && is_other_quality(#[trigger] s[j].1, song_id, q)
            ==> other_quality_keys(s, song_id, q).contains(s[j].0@),
        keys_distinct(s) ==> forall|a: int, b: int| 0 <= a < b < other_quality_keys(s, song_id, q).len()
            ==> #[trigger] other_quality_keys(s, song_id, q)[a] != #[trigger] other_quality_keys(s, song_id, q)[b],
    decreases s.len(),
{
    if s.len() > 0 {
        let t = s.drop_last();
        lemma_other_quality_keys(t, song_id, q);
        let r = other_quality_keys(t, song_id, q);
        let o = other_quality_keys(s, song_id, q);
        let n = s.len() - 1;
        assert forall|i: int| 0 <= i < o.len() implies #[trigger] is_other_quality_key(s, song_id, q, o[i]) by {
            if i < r.len() {
                assert(o[i] == r[i]);
                assert(is_other_quality_key(t, song_id, q, r[i]));
                let j = choose|j: int| #[trigger] other_quality_at(t, song_id, q, j, r[i]);
                assert(s[j] == t[j]);
                assert(other_quality_at(s, song_id, q, j, o[i]));
            } else {
                assert(o[i] == s[n].0@);
                assert(other_quality_at(s, song_id, q, n, o[i]));
            }
        }
        assert forall|j: int| 0 <= j < s.len() && is_other_quality(#[trigger] s[j].1, song_id, q)
            implies o.contains(s[j].0@) by {
            if j < n {
                assert(t[j] == s[j]);
                assert(r.contains(t[j].0@));
                let i = choose|i: int| 0 <= i < r.len() && r[i] == t[j].0@;
                assert(o[i] == r[i]);
            } else {
                assert(o[o.len() - 1] == s[n].0@);
            }
        }
        if keys_distinct(s) {
            assert(keys_distinct(t)) by {
                assert forall|a: int, b: int| 0 <= a < b < t.len() implies #[trigger] t[a].0@ != #[trigger] t[b].0@ by {
                    assert(s[a].0@ != s[b].0@);
                }
            }
            assert forall|a: int, b: int| 0 <= a < b < o.len() implies #[trigger] o[a] != #[trigger] o[b] by {
                if b < r.len() {
                    assert(o[a] == r[a] && o[b] == r[b]);
                } else {
                    assert(o[a] == r[a]);
                    assert(is_other_quality_key(t, song_id, q, r[a]));
                    let j = choose|j: int| #[trigger] other_quality_at(t, song_id, q, j, r[a]);
                    assert(s[j] == t[j]);
                    assert(s[j].0@ != s[n].0@);
                }
            }
        }
    }
}

/// Drops from the index every entry that holds song `song_id` in another
/// quality than the normalized `quality`: the index afterwards is the one
/// before without the keys of `other_quality_keys`, so no such entry is
/// left and every other entry stays as it was.  Returns the dropped
/// entries in catalog order, for their files to be removed.
pub fn drop_song_variants(catalog: &mut CacheCatalog, song_id: i64, quality: &str) -> (removed: Vec<CacheEntry>)
    requires
        old(catalog).wf(),
    ensures
        final(catalog).wf(),
        final(catalog).index_path() == old(catalog).index_path(),
        final(catalog).entry_map() == old(catalog).entry_map().remove_keys(
            other_quality_keys(old(catalog).items(), song_id, quality@).to_set(),
        ),
        forall|k: Seq<char>| #[trigger] final(catalog).entry_map().contains_key(k) ==> !is_other_quality(
            final(catalog).entry_map()[k],
            song_id,
            quality@,
        ),
        forall|k: Seq<char>|
            old(catalog).entry_map().contains_key(k) && !is_other_quality(#[trigger] old(catalog).entry_map()[k], song_id, quality@)
                ==> final(catalog).entry_map().contains_key(k),
        removed@.len() == other_quality_keys(old(catalog).items(), song_id, quality@).len(),
        forall|i: int| 0 <= i < removed@.len() ==> #[trigger] removed@[i] == old(catalog).entry_map()[
            other_quality_keys(old(catalog).items(), song_id, quality@)[i]],
{
    let ghost s = catalog.items();
    let ghost m0 = catalog.entry_map();
    let ghost oq = other_quality_keys(s, song_id, quality@);
    let victims = variant_victims(catalog.entries(), song_id, quality);
    proof {
        lemma_other_quality_keys(s, song_id, quality@);
        assert forall|i: int| 0 <= i < oq.len() implies #[trigger] m0.contains_key(oq[i]) && is_other_quality(
            m0[oq[i]],
            song_id,
            quality@,
        ) by {
            assert(is_other_quality_key(s, song_id, quality@, oq[i]));
            let j = choose|j: int| #[trigger] other_quality_at(s, song_id, quality@, j, oq[i]);
            lemma_map_of(s, oq[i]);
            assert(s[j].0@ == oq[i]);
        }
        assert forall|k: Seq<char>| #[trigger] m0.contains_key(k) && is_other_quality(m0[k], song_id, quality@)
            implies oq.contains(k) by {
            lemma_map_of(s, k);
            let j = choose|j: int| 0 <= j < s.len() && #[trigger] s[j].0@ == k;
            assert(is_other_quality(s[j].1, song_id, quality@));
        }
    }
    let mut removed: Vec<CacheEntry> = Vec::new();
    let mut i: usize = 0;
    while i < victims.len()
        invariant
            i <= victims@.len(),
            victims@.len() == oq.len(),
            forall|j: int| 0 <= j < victims@.len() ==> #[trigger] victims@[j]@ == oq[j],
            forall|a: int, b: int| 0 <= a < b < oq.len() ==> #[trigger] oq[a] != #[trigger] oq[b],
            forall|j: int| 0 <= j < oq.len() ==> #[trigger] m0.contains_key(oq[j]),
            catalog.wf(),
            catalog.index_path() == old(catalog).index_path(),
            m0 == old(catalog).entry_map(),
            oq == other_quality_keys(old(catalog).items(), song_id, quality@),
            catalog.entry_map() == m0.remove_keys(oq.take(i as int).to_set()),
            removed@.len() == i,
            forall|j: int| 0 <= j < i ==> #[trigger] removed@[j] == m0[oq[j]],
        decreases victims@.len() - i,
    {
        let ghost before = catalog.entry_map();
        let ghost key = oq[i as int];
        proof {
            let t0 = oq.take(i as int);
            assert(!t0.to_set().contains(key)) by {
                if t0.contains(key) {
                    let a = choose|a: int| 0 <= a < t0.len() && t0[a] == key;
                    assert(oq[a] == oq[i as int]);
                }
            }
            assert(before.contains_key(key));
        }
        let r = catalog.remove_by_composite_key(victims[i].as_str());
        proof {
            let t0 = oq.take(i as int);
            let t1 = oq.take(i + 1);
            assert(t1.to_set() =~= t0.to_set().insert(key)) by {
                assert forall|k: Seq<char>| t1.contains(k) == t0.to_set().insert(key).contains(k) by {
                    if t1.contains(k) {
                        let a = choose|a: int| 0 <= a < t1.len() && t1[a] == k;
                        if a < i {
                            assert(t0[a] == k);
                        }
                    }
                    if t0.contains(k) {
                        let a = choose|a: int| 0 <= a < t0.len() && t0[a] == k;
                        assert(t1[a] == k);
                    }
                    if k == key {
                        assert(t1[i as int] == k);
                    }
                }
            }
            assert(catalog.entry_map() =~= m0.remove_keys(oq.take(i + 1).to_set()));
        }
        match r {
            Some(e) => {
                removed.push(e);
            },
            None => {
                proof {
                    assert(false);
                }
            },
        }
        i = i + 1;
    }
    proof {
        assert(oq.take(oq.len() as int) == oq);
        assert forall|k: Seq<char>| #[trigger] catalog.entry_map().contains_key(k) implies !is_other_quality(
            catalog.entry_map()[k],
            song_id,
            quality@,
        ) by {
            if is_other_quality(m0[k], song_id, quality@) {
                assert(oq.contains(k));
            }
        }
        assert forall|k: Seq<char>| m0.contains_key(k) && !is_other_quality(#[trigger] m0[k], song_id, quality@)
            implies catalog.entry_map().contains_key(k) by {
            if oq.to_set().contains(k) {
                let a = choose|a: int| 0 <= a < oq.len() && oq[a] == k;
            }
        }
    }
    removed
}

/// The size a cached song is taken to have: its recorded stream length,
/// else the size of its file (when that could be read), else its recorded
/// size.
pub open spec fn spec_cached_size(e: CacheEntry, file_size: Option<u64>) -> u64 {
    match e.content_length {
        Some(c) => c,
        None => match file_size {
            Some(f) => f,
            None => e.size_bytes,
        },
    }
}

/// The size a cached song is taken to have (see `spec_cached_size`).
pub fn cached_size(entry: &CacheEntry, file_size: Option<u64>) -> (res: u64)
    ensures
        res == spec_cached_size(*entry, file_size),
{
    match entry.content_length {
        Some(c) => c,
        None => match file_size {
            Some(f) => f,
            None => entry.size_bytes,
        },
    }
}

/// What to do with the cached entry that serves a requested song.
#[derive(Clone, Copy, Debug, PartialEq, Eq, Structural)]
pub enum ExistingSongAction {
    /// An older-format entry whose file exists: record it as a complete
    /// download of the song and serve the file.
    AdoptLegacyFile,
    /// A complete download whose file exists: serve the file.
    ServeFile,
    /// Anything else: drop the entry and its files.
    Discard,
}

/// What to do with the cached entry that serves a requested song, given
/// whether its file exists.
pub fn existing_song_action(entry: &CacheEntry, file_exists: bool) -> (res: ExistingSongAction)
    ensures
        entry.song_id is None && file_exists ==> res == ExistingSongAction::AdoptLegacyFile,
        !(entry.song_id is None && file_exists) && entry.is_complete && file_exists ==> res
            == ExistingSongAction::ServeFile,
        !file_exists || (entry.song_id is Some && !entry.is_complete) ==> res == ExistingSongAction::Discard,
{
    if entry.song_id.is_none() && file_exists {
        ExistingSongAction::AdoptLegacyFile
    } else if entry.is_complete && file_exists {
        ExistingSongAction::ServeFile
    } else {
        ExistingSongAction::Discard
    }
}

/// Whether a cached entry can be served at time `now`: it has not expired
/// and its file exists.
pub fn entry_servable(entry: &CacheEntry, now: u64, file_exists: bool) -> (res: bool)
    ensures
        res == (!entry.expired_at(now) && file_exists),
{
    !entry.is_expired_at(now) && file_exists
}

/// A source that plays the cached file at `path`.
pub fn file_source(path: String, cache_ahead_secs: u32) -> (res: CachedSongSource)
    ensures
        res.kind@ == "file"@,
        res.value == path,
        res.cache_path is None,
        res.metadata_path is None,
        res.cache_ahead_secs == Some(cache_ahead_secs),
{
    CachedSongSource {
        kind: "file".to_string(),
        value: path,
        cache_path: None,
        metadata_path: None,
        cache_ahead_secs: Some(cache_ahead_secs),
    }
}

/// A source that streams `url` while caching it at `cache_path`, with its
/// download metadata at `metadata_path`.
pub fn stream_source(url: String, cache_path: String, metadata_path: String, cache_ahead_secs: u32) -> (res: CachedSongSource)
    ensures
        res.kind@ == "url"@,
        res.value == url,
        res.cache_path == Some(cache_path),
        res.metadata_path == Some(metadata_path),
        res.cache_ahead_secs == Some(cache_ahead_secs),
{
    CachedSongSource {
        kind: "url".to_string(),
        value: url,
        cache_path: Some(cache_path),
        metadata_path: Some(metadata_path),
        cache_ahead_secs: Some(cache_ahead_secs),
    }
}

/// The source for a song without a URL: nothing to stream.
pub fn empty_source() -> (res: CachedSongSource)
    ensures
        res.kind@ == "url"@,
        res.value@ == Seq::<char>::empty(),
        res.cache_path is None,
        res.metadata_path is None,
        res.cache_ahead_secs is None,
{
    CachedSongSource { kind: "url".to_string(), value: String::new(), cache_path: None, metadata_path: None, cache_ahead_secs: None }
}

/// `o` holds a text equal to `t`.
pub open spec fn opt_text_is(o: Option<String>, t: Seq<char>) -> bool {
    match o {
        Some(v) => v@ == t,
        None => false,
    }
}

/// Brings a song entry in line with its download metadata: the downloaded
/// size, stream length, completion, source URL and quality are taken from
/// it.  Returns whether anything changed.
pub fn refresh_entry_from_meta(entry: &mut CacheEntry, downloaded_bytes: u64, meta: &SongStreamCacheMeta, is_complete: bool) -> (res: bool)
    ensures
        res == (old(entry).size_bytes != downloaded_bytes || old(entry).content_length != meta.content_length
            || old(entry).is_complete != is_complete || !opt_text_is(old(entry).source_url, meta.source_url@)
            || !opt_text_is(old(entry).quality, meta.quality@)),
        res ==> *final(entry) == (CacheEntry {
            size_bytes: downloaded_bytes,
            content_length: meta.content_length,
            is_complete,
            source_url: Some(meta.source_url),
            quality: Some(meta.quality),
            ..*old(entry)
        }),
        !res ==> *final(entry) == *old(entry),
{
    let same_url = match &entry.source_url {
        Some(u) => chars_eq(&chars_of(u.as_str()), &chars_of(meta.source_url.as_str())),
        None => false,
    };
    let same_quality = match &entry.quality {
        Some(q) => chars_eq(&chars_of(q.as_str()), &chars_of(meta.quality.as_str())),
        None => false,
    };
    if entry.size_bytes != downloaded_bytes || entry.content_length != meta.content_length
        || entry.is_complete != is_complete || !same_url || !same_quality {
        entry.size_bytes = downloaded_bytes;
        entry.content_length = meta.content_length;
        entry.is_complete = is_complete;
        entry.source_url = Some(meta.source_url.clone());
        entry.quality = Some(meta.quality.clone());
        true
    } else {
        false
    }
}

/// Brings a song entry in line with its download metadata read from disk:
/// its size becomes the bytes the metadata records as downloaded, its
/// completion whether the metadata shows the whole stream on disk, and its
/// length, source URL and quality those of the metadata.  Returns whether
/// anything changed.  The downloaded bytes must fit in a `u64`.
pub fn refresh_entry_from_song_meta(entry: &mut CacheEntry, meta: &SongStreamCacheMeta) -> (res: bool)
    requires
        meta.downloaded() <= u64::MAX,
    ensures
        res == (old(entry).size_bytes != meta.downloaded() || old(entry).content_length != meta.content_length
            || old(entry).is_complete != meta.fully_downloaded() || !opt_text_is(old(entry).source_url, meta.source_url@)
            || !opt_text_is(old(entry).quality, meta.quality@)),
        res ==> *final(entry) == (CacheEntry {
            size_bytes: meta.downloaded() as u64,
            content_length: meta.content_length,
            is_complete: meta.fully_downloaded(),
            source_url: Some(meta.source_url),
            quality: Some(meta.quality),
            ..*old(entry)
        }),
        !res ==> *final(entry) == *old(entry),
{
    let downloaded_bytes = meta.downloaded_bytes();
    let is_complete = meta.is_fully_downloaded();
    refresh_entry_from_meta(entry, downloaded_bytes, meta, is_complete)
}

/// Brings a song entry without download metadata in line with its file:
/// its size is the file's, its length unknown, and it is incomplete.
/// Returns whether anything changed.
pub fn refresh_entry_from_file_size(entry: &mut CacheEntry, size_bytes: u64) -> (res: bool)
    ensures
        res == (old(entry).size_bytes != size_bytes || old(entry).content_length is Some || old(entry).is_complete),
        res ==> *final(entry) == (CacheEntry {
            size_bytes,
            content_length: None,
            is_complete: false,
            ..*old(entry)
        }),
        !res ==> *final(entry) == *old(entry),
{
    if entry.size_bytes != size_bytes || entry.content_length.is_some() || entry.is_complete {
        entry.size_bytes = size_bytes;
        entry.content_length = None;
        entry.is_complete = false;
        true
    } else {
        false
    }
}

} // verus!
