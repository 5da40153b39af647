//! Preparing the source of a requested song: which cached entry serves it,
//! which entries and files go, and what is recorded for a new download.
//! The caller reads and writes the files between the steps.

use vstd::prelude::*;

use crate::cache::catalog::{copy_entry, copy_opt_string, is_upsert_outcome, keys_distinct, lemma_map_of, CacheCatalog, CacheEntryUpsert};
use crate::cache::error::{CacheError, CacheResult};
use crate::cache::keys::{infer_extension, song_stream_key, spec_infer_extension, spec_song_stream_key};
use crate::cache::song_plan::{
    cached_size, drop_song_variants, existing_song_action, find_same_quality_entry, has_quality, is_other_quality,
    other_quality_keys, serves_song_quality, spec_cached_size, ExistingSongAction,
};
use crate::cache::storage::{relative_path_of, CacheFileStore};
use crate::cache::types::{spec_composite_key, CacheBucket, CacheEntry};
use crate::text::{ascii_lower, chars_of, is_white_space, lower_chars, string_of, trim, trim_chars, trim_end, trim_start};

verus! {

/// A quality as the cache records it: trimmed and ASCII lower-cased.
pub open spec fn normalized_quality(quality: Seq<char>) -> Seq<char> {
    ascii_lower(trim(quality))
}

/// The first entry, in catalog order, that serves song `song_id` in quality `q`.
pub open spec fn first_serving(s: Seq<(String, CacheEntry)>, song_id: i64, q: Seq<char>) -> Option<CacheEntry>
    decreases s.len(),
{
    if s.len() == 0 {
        None
    } else {
        match first_serving(s.drop_last(), song_id, q) {
            Some(e) => Some(e),
            None => if serves_song_quality(s.last().1, song_id, q) {
                Some(s.last().1)
            } else {
                None
            },
        }
    }
}

/// No entry of `m` serves the song in quality `q`.
pub open spec fn none_serving(m: Map<Seq<char>, CacheEntry>, song_id: i64, q: Seq<char>) -> bool {
    forall|k: Seq<char>| #[trigger] m.contains_key(k) ==> !serves_song_quality(m[k], song_id, q)
}

/// At most one entry of `m` serves the song in quality `q`.
pub open spec fn at_most_one_serving(m: Map<Seq<char>, CacheEntry>, song_id: i64, q: Seq<char>) -> bool {
    forall|k1: Seq<char>, k2: Seq<char>|
        #[trigger] m.contains_key(k1) && #[trigger] m.contains_key(k2) && serves_song_quality(m[k1], song_id, q)
            && serves_song_quality(m[k2], song_id, q) ==> k1 == k2
}

/// The entry under `k` is the one entry of `m` that serves the song in
/// quality `q`, and it is recorded for that song and quality.
pub open spec fn only_serving(m: Map<Seq<char>, CacheEntry>, song_id: i64, q: Seq<char>, k: Seq<char>) -> bool {
    &&& m.contains_key(k)
    &&& m[k].bucket == CacheBucket::Song
    &&& m[k].song_id == Some(song_id)
    &&& has_quality(m[k], q)
    &&& forall|k2: Seq<char>| #[trigger] m.contains_key(k2) && serves_song_quality(m[k2], song_id, q) ==> k2 == k
}

/// No entry of `m` holds the song in another quality than `q`.
pub open spec fn no_other_quality(m: Map<Seq<char>, CacheEntry>, song_id: i64, q: Seq<char>) -> bool {
    forall|k: Seq<char>| #[trigger] m.contains_key(k) ==> !is_other_quality(m[k], song_id, q)
}

/// Every entry of `m` is stored under its own composite key, as upserts
/// store them.
pub open spec fn stored_under_own_keys(m: Map<Seq<char>, CacheEntry>) -> bool {
    forall|k: Seq<char>| #[trigger] m.contains_key(k) ==> k == spec_composite_key(m[k].bucket, m[k].key@)
}

/// The size check of an existing entry passes: no size is expected, or the
/// size the entry is taken to have (see `spec_cached_size`) is the expected one.
pub open spec fn size_matches(e: CacheEntry, expected_bytes: Option<u64>, file_size: Option<u64>) -> bool {
    match expected_bytes {
        Some(x) => spec_cached_size(e, file_size) == x,
        None => true,
    }
}

/// What preparing a song does with the entry that serves it.
#[derive(Clone, Debug)]
pub enum SongSourceAction {
    /// The URL is empty: nothing is played from the cache and nothing changes.
    Empty,
    /// The cached file at `relative_path` is played.
    ServeFile { relative_path: String },
    /// The older-format `entry` is kept as a complete download of
    /// `file_size` bytes (see `adopt_legacy_song`), and its file is played.
    AdoptFile { entry: CacheEntry, file_size: u64 },
    /// The URL is streamed while cached at `relative_path`, recorded under
    /// `cache_key` (see `record_song_stream`).
    Stream { cache_key: String, relative_path: String },
}

/// The outcome of `plan_song_source`.
#[derive(Debug)]
pub struct SongSourcePlan {
    /// The trimmed URL.
    pub url: String,
    /// The normalized quality.
    pub quality: String,
    /// The entries dropped from the index, whose files the caller removes.
    pub removed: Vec<CacheEntry>,
    /// What to play, or why the request failed.
    pub action: CacheResult<SongSourceAction>,
}

proof fn lemma_first_serving(s: Seq<(String, CacheEntry)>, song_id: i64, q: Seq<char>)
    ensures
        first_serving(s, song_id, q) is None <==> forall|j: int|
            0 <= j < s.len() ==> !#[trigger] serves_song_quality(s[j].1, song_id, q),
        forall|i: int|
            0 <= i < s.len() && serves_song_quality(s[i].1, song_id, q) && (forall|j: int|
                0 <= j < i ==> !#[trigger] serves_song_quality(s[j].1, song_id, q)) ==> first_serving(s, song_id, q)
                == Some(#[trigger] s[i].1),
        first_serving(s, song_id, q) matches Some(e) ==> exists|i: int|
            0 <= i < s.len() && #[trigger] s[i].1 == e && serves_song_quality(e, song_id, q),
    decreases s.len(),
{
    if s.len() > 0 {
        let t = s.drop_last();
        lemma_first_serving(t, song_id, q);
        let n = s.len() - 1;
        assert forall|i: int|
            0 <= i < s.len() && serves_song_quality(s[i].1, song_id, q) && (forall|j: int|
                0 <= j < i ==> !#[trigger] serves_song_quality(s[j].1, song_id, q)) implies first_serving(s, song_id, q)
            == Some(#[trigger] s[i].1) by {
            if i < n {
                assert(t[i] == s[i]);
                assert forall|j: int| 0 <= j < i implies !#[trigger] serves_song_quality(t[j].1, song_id, q) by {
                    assert(t[j] == s[j]);
                }
            } else {
                assert forall|j: int| 0 <= j < t.len() implies !#[trigger] serves_song_quality(t[j].1, song_id, q) by {
                    assert(t[j] == s[j]);
                }
            }
        }
        if first_serving(s, song_id, q) is None {
            assert forall|j: int| 0 <= j < s.len() implies !#[trigger] serves_song_quality(s[j].1, song_id, q) by {
                if j < n {
                    assert(t[j] == s[j]);
                }
            }
        } else {
            if forall|j: int| 0 <= j < s.len() ==> !#[trigger] serves_song_quality(s[j].1, song_id, q) {
                assert forall|j: int| 0 <= j < t.len() implies !#[trigger] serves_song_quality(t[j].1, song_id, q) by {
                    assert(t[j] == s[j]);
                }
                assert(!serves_song_quality(s[n].1, song_id, q));
            }
        }
        if let Some(e) = first_serving(s, song_id, q) {
            if let Some(e2) = first_serving(t, song_id, q) {
                let i = choose|i: int| 0 <= i < t.len() && #[trigger] t[i].1 == e2 && serves_song_quality(e2, song_id, q);
                assert(s[i] == t[i]);
            } else {
                assert(s[n].1 == e);
            }
        }
    }
}

proof fn lemma_trim_end_keeps_first(s: Seq<char>)
    requires
        s.len() > 0,
        !is_white_space(s[0]),
    ensures
        trim_end(s).len() > 0,
    decreases s.len(),
{
    if is_white_space(s.last()) {
        if s.len() > 1 {
            assert(s.drop_last()[0] == s[0]);
            lemma_trim_end_keeps_first(s.drop_last());
        }
    }
}

proof fn lemma_stream_key_not_blank(song_id: i64, q: Seq<char>)
    ensures
        trim(spec_song_stream_key(song_id, q)).len() > 0,
{
    let k = spec_song_stream_key(song_id, q);
    reveal_strlit("audio-stream:");
    assert(k[0] == 'a');
    assert(trim_start(k) == k);
    lemma_trim_end_keeps_first(k);
}

/// Under the law's hypotheses, the entry that serves the song is the first
/// serving one in catalog order, stored under its own composite key.
proof fn lemma_serving_key(s0: Seq<(String, CacheEntry)>, song_id: i64, q: Seq<char>)
    requires
        keys_distinct(s0),
        at_most_one_serving(crate::cache::catalog::map_of(s0), song_id, q),
        stored_under_own_keys(crate::cache::catalog::map_of(s0)),
    ensures
        first_serving(s0, song_id, q) is None ==> none_serving(crate::cache::catalog::map_of(s0), song_id, q),
        first_serving(s0, song_id, q) matches Some(e) ==> {
            let m0 = crate::cache::catalog::map_of(s0);
            let ke = spec_composite_key(e.bucket, e.key@);
            &&& m0.contains_key(ke)
            &&& m0[ke] == e
            &&& serves_song_quality(e, song_id, q)
            &&& forall|k: Seq<char>| #[trigger] m0.contains_key(k) && serves_song_quality(m0[k], song_id, q) ==> k == ke
        },
{
    let m0 = crate::cache::catalog::map_of(s0);
    lemma_first_serving(s0, song_id, q);
    if first_serving(s0, song_id, q) is None {
        assert forall|k: Seq<char>| #[trigger] m0.contains_key(k) implies !serves_song_quality(m0[k], song_id, q) by {
            lemma_map_of(s0, k);
            let j = choose|j: int| 0 <= j < s0.len() && #[trigger] s0[j].0@ == k;
            assert(m0[k] == s0[j].1);
        }
    } else {
        let e = first_serving(s0, song_id, q)->0;
        let i = choose|i: int| 0 <= i < s0.len() && #[trigger] s0[i].1 == e && serves_song_quality(e, song_id, q);
        lemma_map_of(s0, s0[i].0@);
        assert(m0.contains_key(s0[i].0@));
        assert(m0[s0[i].0@] == e);
    }
}

/// Decides how a requested song is played, as far as the index is
/// concerned.  With an empty URL nothing happens.  Otherwise the entries
/// of the song in other qualities are dropped; the first entry serving
/// the song in the normalized quality is kept when its size is the
/// expected one and then served (a complete download whose file exists,
/// touched at `now` under the song's stream key), adopted (an
/// older-format entry whose file exists) or dropped; a dropped or missing
/// entry means streaming into a new file.  `same_file_exists` and
/// `same_file_size` describe the file of that serving entry (the size is
/// `None` when it cannot be read).
pub fn plan_song_source(
    catalog: &mut CacheCatalog,
    store: &CacheFileStore,
    song_id: i64,
    quality: &str,
    url: &str,
    expected_bytes: Option<u64>,
    same_file_exists: bool,
    same_file_size: Option<u64>,
    now: u64,
) -> (plan: SongSourcePlan)
    requires
        old(catalog).wf(),
    ensures
        final(catalog).wf(),
        final(catalog).index_path() == old(catalog).index_path(),
        plan.url@ == trim(url@),
        plan.quality@ == normalized_quality(quality@),
        trim(url@).len() == 0 ==> plan.action == Ok::<SongSourceAction, CacheError>(SongSourceAction::Empty)
            && plan.removed@.len() == 0 && final(catalog).entry_map() == old(catalog).entry_map(),
        trim(url@).len() > 0 ==> ({
            let q = normalized_quality(quality@);
            let m0 = old(catalog).entry_map();
            let oq = other_quality_keys(old(catalog).items(), song_id, q);
            let m1 = m0.remove_keys(oq.to_set());
            let ck = spec_song_stream_key(song_id, q);
            let rp = relative_path_of(CacheBucket::Song, ck, spec_infer_extension(CacheBucket::Song, trim(url@), None));
            let streams = plan.action matches Ok(SongSourceAction::Stream { cache_key, relative_path }) && cache_key@
                == ck && relative_path@ == rp;
            &&& oq.len() <= plan.removed@.len() <= oq.len() + 1
            &&& forall|i: int| 0 <= i < oq.len() ==> #[trigger] plan.removed@[i] == m0[oq[i]]
            &&& no_other_quality(final(catalog).entry_map(), song_id, q)
            &&& match first_serving(old(catalog).items(), song_id, q) {
                None => streams && plan.removed@.len() == oq.len() && final(catalog).entry_map() == m1,
                Some(e) => {
                    let ke = spec_composite_key(e.bucket, e.key@);
                    if size_matches(e, expected_bytes, same_file_size) && e.song_id is None && same_file_exists {
                        &&& plan.action == Ok::<SongSourceAction, CacheError>(
                            SongSourceAction::AdoptFile {
                                entry: e,
                                file_size: match same_file_size {
                                    Some(z) => z,
                                    None => 0,
                                },
                            },
                        )
                        &&& plan.removed@.len() == oq.len()
                        &&& final(catalog).entry_map() == m1
                    } else if size_matches(e, expected_bytes, same_file_size) && e.is_complete && same_file_exists {
                        let kt = spec_composite_key(CacheBucket::Song, ck);
                        &&& plan.action matches Ok(SongSourceAction::ServeFile { relative_path }) && relative_path
                            == e.relative_path
                        &&& plan.removed@.len() == oq.len()
                        &&& final(catalog).entry_map() == if m1.contains_key(kt) {
                            m1.insert(kt, CacheEntry { accessed_at: now, ..m1[kt] })
                        } else {
                            m1
                        }
                    } else if trim(e.key@).len() == 0 {
                        &&& plan.action == Err::<SongSourceAction, CacheError>(CacheError::EmptyKey)
                        &&& plan.removed@.len() == oq.len()
                        &&& final(catalog).entry_map() == m1
                    } else {
                        &&& streams
                        &&& final(catalog).entry_map() == m1.remove(ke)
                        &&& plan.removed@.len() == oq.len() + if m1.contains_key(ke) {
                            1int
                        } else {
                            0int
                        }
                        &&& m1.contains_key(ke) ==> plan.removed@[oq.len() as int] == m1[ke]
                    }
                },
            }
        }),
        trim(url@).len() > 0 && at_most_one_serving(old(catalog).entry_map(), song_id, normalized_quality(quality@))
            && stored_under_own_keys(old(catalog).entry_map()) ==> {
            let q = normalized_quality(quality@);
            let fm = final(catalog).entry_map();
            &&& plan.action matches Ok(SongSourceAction::Stream { .. }) ==> none_serving(fm, song_id, q)
            &&& plan.action matches Ok(SongSourceAction::ServeFile { .. }) ==> exists|k: Seq<char>|
                #[trigger] only_serving(fm, song_id, q, k)
            &&& plan.action matches Ok(SongSourceAction::AdoptFile { entry, .. }) ==> {
                let ke = spec_composite_key(entry.bucket, entry.key@);
                &&& fm.contains_key(ke) && fm[ke] == entry
                &&& forall|k2: Seq<char>| #[trigger] fm.contains_key(k2) && serves_song_quality(fm[k2], song_id, q) ==> k2 == ke
            }
        },
{
    let url_chars = trim_chars(&chars_of(url));
    let url_n = string_of(&url_chars);
    let q = string_of(&lower_chars(&trim_chars(&chars_of(quality))));
    if url_chars.len() == 0 {
        return SongSourcePlan { url: url_n, quality: q, removed: Vec::new(), action: Ok(SongSourceAction::Empty) };
    }
    let ghost s0 = catalog.items();
    let ghost m0 = catalog.entry_map();
    let cache_key = song_stream_key(song_id, q.as_str());
    proof {
        lemma_first_serving(s0, song_id, q@);
        lemma_stream_key_not_blank(song_id, q@);
    }
    let found = match find_same_quality_entry(catalog.entries(), song_id, q.as_str()) {
        Some(i) => Some(copy_entry(&catalog.entries()[i].1)),
        None => None,
    };
    let mut removed = drop_song_variants(catalog, song_id, q.as_str());
    let ghost m1 = catalog.entry_map();
    let ghost oq = other_quality_keys(s0, song_id, q@);
    proof {
        assert(m1 =~= m0.remove_keys(oq.to_set()));
        if at_most_one_serving(m0, song_id, q@) && stored_under_own_keys(m0) {
            lemma_serving_key(s0, song_id, q@);
        }
    }
    let action = match found {
        None => None,
        Some(entry) => {
            let size_ok = match expected_bytes {
                Some(x) => cached_size(&entry, same_file_size) == x,
                None => true,
            };
            if !size_ok {
                Some(entry)
            } else {
                match existing_song_action(&entry, same_file_exists) {
                    ExistingSongAction::AdoptLegacyFile => {
                        let file_size = match same_file_size {
                            Some(z) => z,
                            None => 0,
                        };
                        proof {
                            if at_most_one_serving(m0, song_id, q@) && stored_under_own_keys(m0) {
                                let ke = spec_composite_key(entry.bucket, entry.key@);
                                assert(!is_other_quality(m0[ke], song_id, q@));
                                assert(m1.contains_key(ke));
                            }
                        }
                        return SongSourcePlan {
                            url: url_n,
                            quality: q,
                            removed,
                            action: Ok(SongSourceAction::AdoptFile { entry, file_size }),
                        };
                    },
                    ExistingSongAction::ServeFile => {
                        let relative_path = entry.relative_path.clone();
                        let _ = catalog.touch_at(CacheBucket::Song, cache_key.as_str(), now);
                        proof {
                            if at_most_one_serving(m0, song_id, q@) && stored_under_own_keys(m0) {
                                let ke = spec_composite_key(entry.bucket, entry.key@);
                                let fm = catalog.entry_map();
                                assert(!is_other_quality(m0[ke], song_id, q@));
                                assert(m1.contains_key(ke));
                                assert(fm.contains_key(ke));
                                assert(entry.song_id is Some);
                                assert forall|k2: Seq<char>| #[trigger] fm.contains_key(k2) && serves_song_quality(fm[k2], song_id, q@)
                                    implies k2 == ke by {
                                    assert(m1.contains_key(k2));
                                    assert(serves_song_quality(m1[k2], song_id, q@));
                                    assert(m0.contains_key(k2));
                                }
                                assert(only_serving(fm, song_id, q@, ke));
                            }
                        }
                        return SongSourcePlan {
                            url: url_n,
                            quality: q,
                            removed,
                            action: Ok(SongSourceAction::ServeFile { relative_path }),
                        };
                    },
                    ExistingSongAction::Discard => Some(entry),
                }
            }
        },
    };
    if let Some(entry) = action {
        match catalog.remove(entry.bucket, entry.key.as_str()) {
            Ok(Some(gone)) => removed.push(gone),
            Ok(None) => {},
            Err(e) => {
                return SongSourcePlan { url: url_n, quality: q, removed, action: Err(e) };
            },
        }
    }
    proof {
        if at_most_one_serving(m0, song_id, q@) && stored_under_own_keys(m0) {
            let fm = catalog.entry_map();
            assert forall|k: Seq<char>| #[trigger] fm.contains_key(k) implies !serves_song_quality(fm[k], song_id, q@) by {
                assert(m1.contains_key(k));
                assert(m0.contains_key(k));
            }
        }
    }
    let extension = infer_extension(CacheBucket::Song, url_n.as_str(), None);
    let relative_path = store.build_relative_path(CacheBucket::Song, cache_key.as_str(), extension.as_str());
    SongSourcePlan {
        url: url_n,
        quality: q,
        removed,
        action: Ok(SongSourceAction::Stream { cache_key, relative_path }),
    }
}

/// Records the download of a song that `plan_song_source` decided to
/// stream: an entry under `cache_key` for the file at `relative_path`,
/// holding nothing yet, incomplete, of the expected length, for the song
/// in `quality` from `url`, accessed at `now`.  When no entry served the
/// song and none held it in another quality, afterwards exactly one entry
/// serves it: the new one.
pub fn record_song_stream(
    catalog: &mut CacheCatalog,
    song_id: i64,
    quality: String,
    url: String,
    expected_bytes: Option<u64>,
    cache_key: &str,
    relative_path: String,
    now: u64,
) -> (res: CacheResult<Option<String>>)
    requires
        old(catalog).wf(),
    ensures
        final(catalog).wf(),
        final(catalog).index_path() == old(catalog).index_path(),
        trim(cache_key@).len() == 0 ==> res == Err::<Option<String>, CacheError>(CacheError::EmptyKey)
            && final(catalog).entry_map() == old(catalog).entry_map(),
        trim(cache_key@).len() > 0 ==> is_upsert_outcome(
            old(catalog).entry_map(),
            final(catalog).entry_map(),
            (CacheEntryUpsert {
                bucket: CacheBucket::Song,
                key: cache_key,
                relative_path,
                size_bytes: 0,
                source_url: Some(url),
                mime_type: None,
                song_id: Some(song_id),
                quality: Some(quality),
                content_length: expected_bytes,
                is_complete: false,
                ttl_secs: None,
            }),
            now,
            res,
        ),
        trim(cache_key@).len() > 0 && none_serving(old(catalog).entry_map(), song_id, quality@) && no_other_quality(
            old(catalog).entry_map(),
            song_id,
            quality@,
        ) ==> only_serving(
            final(catalog).entry_map(),
            song_id,
            quality@,
            spec_composite_key(CacheBucket::Song, cache_key@),
        ) && no_other_quality(final(catalog).entry_map(), song_id, quality@),
{
    let ghost q = quality;
    let request = CacheEntryUpsert {
        bucket: CacheBucket::Song,
        key: cache_key,
        relative_path,
        size_bytes: 0,
        source_url: Some(url),
        mime_type: None,
        song_id: Some(song_id),
        quality: Some(quality),
        content_length: expected_bytes,
        is_complete: false,
        ttl_secs: None,
    };
    let ghost m0 = catalog.entry_map();
    let res = catalog.upsert_at(request, now);
    proof {
        let fm = catalog.entry_map();
        let kt = spec_composite_key(CacheBucket::Song, cache_key@);
        if trim(cache_key@).len() > 0 && none_serving(m0, song_id, q@) && no_other_quality(m0, song_id, q@) {
            assert(fm.contains_key(kt));
            assert(has_quality(fm[kt], q@));
            assert forall|k2: Seq<char>| #[trigger] fm.contains_key(k2) && serves_song_quality(fm[k2], song_id, q@)
                implies k2 == kt by {
                if k2 != kt {
                    assert(m0.contains_key(k2));
                }
            }
            assert forall|k: Seq<char>| #[trigger] fm.contains_key(k) implies !is_other_quality(fm[k], song_id, q@) by {
                if k != kt {
                    assert(m0.contains_key(k));
                }
            }
        }
    }
    res
}

/// Keeps an older-format entry of a song as a complete download, after
/// its metadata was written: the entry of `legacy.key` is dropped and an
/// entry under `cache_key` takes its file, holding `file_size` bytes of a
/// stream of that length, complete, for the song in `quality` from `url`,
/// accessed at `now`.  When the older entry was the one serving the song
/// and none held it in another quality, afterwards exactly one entry serves
/// it: the new one.
pub fn adopt_legacy_song(
    catalog: &mut CacheCatalog,
    legacy: &CacheEntry,
    song_id: i64,
    quality: String,
    url: String,
    cache_key: &str,
    file_size: u64,
    now: u64,
) -> (res: CacheResult<Option<String>>)
    requires
        old(catalog).wf(),
    ensures
        final(catalog).wf(),
        final(catalog).index_path() == old(catalog).index_path(),
        trim(legacy.key@).len() == 0 ==> res == Err::<Option<String>, CacheError>(CacheError::EmptyKey)
            && final(catalog).entry_map() == old(catalog).entry_map(),
        trim(legacy.key@).len() > 0 ==> {
            let m1 = old(catalog).entry_map().remove(spec_composite_key(CacheBucket::Song, legacy.key@));
            &&& trim(cache_key@).len() == 0 ==> res == Err::<Option<String>, CacheError>(CacheError::EmptyKey)
                && final(catalog).entry_map() == m1
            &&& trim(cache_key@).len() > 0 ==> is_upsert_outcome(
                m1,
                final(catalog).entry_map(),
                (CacheEntryUpsert {
                    bucket: CacheBucket::Song,
                    key: cache_key,
                    relative_path: legacy.relative_path,
                    size_bytes: file_size,
                    source_url: Some(url),
                    mime_type: legacy.mime_type,
                    song_id: Some(song_id),
                    quality: Some(quality),
                    content_length: Some(file_size),
                    is_complete: true,
                    ttl_secs: None,
                }),
                now,
                res,
            )
        },
        ({
            let m0 = old(catalog).entry_map();
            let ke = spec_composite_key(CacheBucket::Song, legacy.key@);
            trim(legacy.key@).len() > 0 && trim(cache_key@).len() > 0 && (forall|k: Seq<char>|
                #[trigger] m0.contains_key(k) && serves_song_quality(m0[k], song_id, quality@) ==> k == ke)
                && no_other_quality(m0, song_id, quality@) ==> only_serving(
                final(catalog).entry_map(),
                song_id,
                quality@,
                spec_composite_key(CacheBucket::Song, cache_key@),
            ) && no_other_quality(final(catalog).entry_map(), song_id, quality@)
        }),
{
    let ghost q = quality;
    let ghost m0 = catalog.entry_map();
    match catalog.remove(CacheBucket::Song, legacy.key.as_str()) {
        Ok(_) => {},
        Err(e) => {
            return Err(e);
        },
    }
    let ghost m1 = catalog.entry_map();
    let request = CacheEntryUpsert {
        bucket: CacheBucket::Song,
        key: cache_key,
        relative_path: legacy.relative_path.clone(),
        size_bytes: file_size,
        source_url: Some(url),
        mime_type: copy_opt_string(&legacy.mime_type),
        song_id: Some(song_id),
        quality: Some(quality),
        content_length: Some(file_size),
        is_complete: true,
        ttl_secs: None,
    };
    let res = catalog.upsert_at(request, now);
    proof {
        let fm = catalog.entry_map();
        let kt = spec_composite_key(CacheBucket::Song, cache_key@);
        let ke = spec_composite_key(CacheBucket::Song, legacy.key@);
        if trim(legacy.key@).len() > 0 && trim(cache_key@).len() > 0 && (forall|k: Seq<char>|
            #[trigger] m0.contains_key(k) && serves_song_quality(m0[k], song_id, q@) ==> k == ke) && no_other_quality(
            m0,
            song_id,
            q@,
        ) {
            assert(fm.contains_key(kt));
            assert(has_quality(fm[kt], q@));
            assert forall|k2: Seq<char>| #[trigger] fm.contains_key(k2) && serves_song_quality(fm[k2], song_id, q@)
                implies k2 == kt by {
                if k2 != kt {
                    assert(m1.contains_key(k2));
                    assert(m0.contains_key(k2));
                }
            }
            assert forall|k: Seq<char>| #[trigger] fm.contains_key(k) implies !is_other_quality(fm[k], song_id, q@) by {
                if k != kt {
                    assert(m1.contains_key(k));
                    assert(m0.contains_key(k));
                }
            }
        }
    }
    res
}

} // verus!
