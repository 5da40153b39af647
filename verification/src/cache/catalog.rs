//! The index of cached entries, keyed by composite key.

use vstd::prelude::*;

use crate::cache::error::{CacheError, CacheResult};
use crate::cache::types::{
    bucket_bytes, bucket_entries, composite_key, empty_stats, now_unix_secs, spec_composite_key, stats_with_entry, CacheBucket,
    CacheEntry, CacheStats,
};
use crate::text::{chars_of, string_of, trim, trimmed};

verus! {

/// The entries of the index as stored: pairs of composite key and entry.
#[derive(Debug)]
pub struct CacheIndexData {
    pub entries: Vec<(String, CacheEntry)>,
}

/// The entry stored under `k`, the last one if `k` occurs more than once.
pub open spec fn lookup(s: Seq<(String, CacheEntry)>, k: Seq<char>) -> Option<CacheEntry>
    decreases s.len(),
{
    if s.len() == 0 {
        None
    } else if s.last().0@ == k {
        Some(s.last().1)
    } else {
        lookup(s.drop_last(), k)
    }
}

/// The entries as a map from composite key to entry.
pub open spec fn map_of(s: Seq<(String, CacheEntry)>) -> Map<Seq<char>, CacheEntry> {
    Map::new(|k: Seq<char>| lookup(s, k) is Some, |k: Seq<char>| lookup(s, k)->0)
}

/// No composite key occurs twice.
pub open spec fn keys_distinct(s: Seq<(String, CacheEntry)>) -> bool {
    forall|i: int, j: int| 0 <= i < j < s.len() ==> #[trigger] s[i].0@ != #[trigger] s[j].0@
}

/// Statistics over the entries, counted in order.
pub open spec fn stats_of(s: Seq<(String, CacheEntry)>, max_size_bytes: u64) -> CacheStats
    decreases s.len(),
{
    if s.len() == 0 {
        empty_stats(max_size_bytes)
    } else {
        stats_with_entry(stats_of(s.drop_last(), max_size_bytes), s.last().1)
    }
}

/// The number of entries of bucket `b` in `s`.
pub open spec fn count_in_bucket(s: Seq<(String, CacheEntry)>, b: CacheBucket) -> int
    decreases s.len(),
{
    if s.len() == 0 {
        0
    } else {
        count_in_bucket(s.drop_last(), b) + if s.last().1.bucket == b {
            1int
        } else {
            0int
        }
    }
}

/// The bytes of the entries of bucket `b` in `s`.
pub open spec fn bytes_in_bucket(s: Seq<(String, CacheEntry)>, b: CacheBucket) -> int
    decreases s.len(),
{
    if s.len() == 0 {
        0
    } else {
        bytes_in_bucket(s.drop_last(), b) + if s.last().1.bucket == b {
            s.last().1.size_bytes as int
        } else {
            0int
        }
    }
}

/// Law: the statistics count, per bucket, the entries of that bucket and
/// their bytes, as long as the numbers fit their counters.
pub proof fn law_stats_count_each_bucket(s: Seq<(String, CacheEntry)>, max_size_bytes: u64, b: CacheBucket)
    requires
        s.len() <= u32::MAX,
        bytes_in_bucket(s, b) <= i64::MAX,
    ensures
        bucket_entries(stats_of(s, max_size_bytes), b) == count_in_bucket(s, b),
        bucket_bytes(stats_of(s, max_size_bytes), b) == bytes_in_bucket(s, b),
    decreases s.len(),
{
    if s.len() > 0 {
        let t = s.drop_last();
        lemma_bucket_sums_nonneg(t, b);
        lemma_bucket_sums_nonneg(s, b);
        law_stats_count_each_bucket(t, max_size_bytes, b);
        crate::cache::types::law_entry_counts_in_its_bucket(stats_of(t, max_size_bytes), s.last().1, b);
    }
}

proof fn lemma_bucket_sums_nonneg(s: Seq<(String, CacheEntry)>, b: CacheBucket)
    ensures
        0 <= count_in_bucket(s, b) <= s.len(),
        0 <= bytes_in_bucket(s, b),
    decreases s.len(),
{
    if s.len() > 0 {
        lemma_bucket_sums_nonneg(s.drop_last(), b);
    }
}

proof fn lemma_lookup_index(s: Seq<(String, CacheEntry)>, i: int)
    requires
        keys_distinct(s),
        0 <= i < s.len(),
    ensures
        lookup(s, s[i].0@) == Some(s[i].1),
    decreases s.len(),
{
    if i < s.len() - 1 {
        assert(s[i].0@ != s[s.len() - 1].0@);
        assert(s.drop_last()[i] == s[i]);
        lemma_lookup_index(s.drop_last(), i);
    }
}

proof fn lemma_lookup_absent(s: Seq<(String, CacheEntry)>, k: Seq<char>)
    requires
        forall|i: int| 0 <= i < s.len() ==> #[trigger] s[i].0@ != k,
    ensures
        lookup(s, k) is None,
    decreases s.len(),
{
    if s.len() > 0 {
        assert(s[s.len() - 1].0@ != k);
        assert forall|i: int| 0 <= i < s.drop_last().len() implies #[trigger] s.drop_last()[i].0@ != k by {
            assert(s[i].0@ != k);
        }
        lemma_lookup_absent(s.drop_last(), k);
    }
}

/// `lookup` on a distinct-key sequence, by index.
pub(crate) proof fn lemma_map_of(s: Seq<(String, CacheEntry)>, k: Seq<char>)
    requires
        keys_distinct(s),
    ensures
        (exists|i: int| 0 <= i < s.len() && #[trigger] s[i].0@ == k) <==> map_of(s).contains_key(k),
        forall|i: int| 0 <= i < s.len() && #[trigger] s[i].0@ == k ==> map_of(s)[k] == s[i].1,
{
    if exists|i: int| 0 <= i < s.len() && #[trigger] s[i].0@ == k {
        let i = choose|i: int| 0 <= i < s.len() && #[trigger] s[i].0@ == k;
        lemma_lookup_index(s, i);
    } else {
        lemma_lookup_absent(s, k);
    }
    assert forall|i: int| 0 <= i < s.len() && #[trigger] s[i].0@ == k implies map_of(s)[k] == s[i].1 by {
        lemma_lookup_index(s, i);
    }
}

/// A pending insertion or replacement of an entry.
pub struct CacheEntryUpsert<'a> {
    pub bucket: CacheBucket,
    pub key: &'a str,
    pub relative_path: String,
    pub size_bytes: u64,
    pub source_url: Option<String>,
    pub mime_type: Option<String>,
    pub song_id: Option<i64>,
    pub quality: Option<String>,
    pub content_length: Option<u64>,
    pub is_complete: bool,
    pub ttl_secs: Option<u64>,
}

/// `e` is the entry that an upsert at time `now` stores, given the entry it
/// replaces: the creation time survives a replacement, the access time is
/// now, and a time-to-live makes the entry expire that many seconds from now.
pub open spec fn is_upserted_entry(
    e: CacheEntry,
    req: CacheEntryUpsert,
    previous: Option<CacheEntry>,
    now: u64,
) -> bool {
    &&& e.bucket == req.bucket
    &&& e.key@ == trim(req.key@)
    &&& e.relative_path == req.relative_path
    &&& e.size_bytes == req.size_bytes
    &&& e.created_at == match previous {
        Some(p) => p.created_at,
        None => now,
    }
    &&& e.accessed_at == now
    &&& e.source_url == req.source_url
    &&& e.mime_type == req.mime_type
    &&& e.song_id == req.song_id
    &&& e.quality == req.quality
    &&& e.content_length == req.content_length
    &&& e.is_complete == req.is_complete
    &&& e.expires_at == match req.ttl_secs {
        Some(t) => Some(
            if now + t > u64::MAX {
                u64::MAX
            } else {
                (now + t) as u64
            },
        ),
        None => None,
    }
}

/// What a touch of key `k` at time `now` does: a present entry gets `now` as
/// its access time and is returned; an absent key changes nothing.
pub open spec fn is_touch_outcome(
    before: Map<Seq<char>, CacheEntry>,
    after: Map<Seq<char>, CacheEntry>,
    k: Seq<char>,
    now: u64,
    res: CacheResult<Option<CacheEntry>>,
) -> bool {
    if before.contains_key(k) {
        let e = CacheEntry { accessed_at: now, ..before[k] };
        &&& res == Ok::<Option<CacheEntry>, CacheError>(Some(e))
        &&& after == before.insert(k, e)
    } else {
        &&& res == Ok::<Option<CacheEntry>, CacheError>(None)
        &&& after == before
    }
}

/// What an upsert of `req` at time `now` does to the index and answers.
pub open spec fn is_upsert_outcome(
    before: Map<Seq<char>, CacheEntry>,
    after: Map<Seq<char>, CacheEntry>,
    req: CacheEntryUpsert,
    now: u64,
    res: CacheResult<Option<String>>,
) -> bool {
    let k = spec_composite_key(req.bucket, req.key@);
    let previous = if before.contains_key(k) {
        Some(before[k])
    } else {
        None
    };
    &&& res == Ok::<Option<String>, CacheError>(
        match previous {
            Some(p) => Some(p.relative_path),
            None => None,
        },
    )
    &&& after.dom() == before.dom().insert(k)
    &&& forall|j: Seq<char>| j != k && #[trigger] before.contains_key(j) ==> after[j] == before[j]
    &&& is_upserted_entry(after[k], req, previous, now)
}

/// A copy of `e` with every field equal.
pub fn copy_entry(e: &CacheEntry) -> (res: CacheEntry)
    ensures
        res == *e,
{
    CacheEntry {
        bucket: e.bucket,
        key: e.key.clone(),
        relative_path: e.relative_path.clone(),
        size_bytes: e.size_bytes,
        created_at: e.created_at,
        accessed_at: e.accessed_at,
        source_url: copy_opt_string(&e.source_url),
        mime_type: copy_opt_string(&e.mime_type),
        song_id: e.song_id,
        quality: copy_opt_string(&e.quality),
        content_length: e.content_length,
        is_complete: e.is_complete,
        expires_at: e.expires_at,
    }
}

pub fn copy_opt_string(s: &Option<String>) -> (res: Option<String>)
    ensures
        res == *s,
{
    match s {
        Some(v) => Some(v.clone()),
        None => None,
    }
}

/// The index of cached entries, and the file it is stored in.
pub struct CacheCatalog {
    path: String,
    data: CacheIndexData,
}

impl CacheCatalog {
    /// The entries in storage order.
    pub closed spec fn items(&self) -> Seq<(String, CacheEntry)> {
        self.data.entries@
    }

    /// The index as a map from composite key to entry.
    pub open spec fn entry_map(&self) -> Map<Seq<char>, CacheEntry> {
        map_of(self.items())
    }

    /// No composite key occurs twice.
    pub open spec fn wf(&self) -> bool {
        keys_distinct(self.items())
    }

    pub closed spec fn index_path(&self) -> Seq<char> {
        self.path@
    }

    /// An index read from `path`.  Should a key occur twice, the later entry wins.
    pub fn from_index(path: String, data: CacheIndexData) -> (res: CacheCatalog)
        ensures
            res.wf(),
            res.entry_map() == map_of(data.entries@),
            res.index_path() == path@,
    {
        let mut entries: Vec<(String, CacheEntry)> = Vec::new();
        let source = data.entries;
        let mut i: usize = 0;
        while i < source.len()
            invariant
                i <= source@.len(),
                keys_distinct(entries@),
                map_of(entries@) == map_of(source@.take(i as int)),
            decreases source@.len() - i,
        {
            let key = source[i].0.clone();
            let entry = copy_entry(&source[i].1);
            let ghost before = entries@;
            let ghost prefix = source@.take(i + 1);
            assert(prefix.drop_last() == source@.take(i as int));
            assert(prefix.last() == source@[i as int]);
            let pos = find_key(&entries, &key);
            let ghost j: int = match pos {
                Some(p) => p as int,
                None => before.len() as int,
            };
            match pos {
                Some(p) => {
                    entries.set(p, (key, entry));
                },
                None => {
                    entries.push((key, entry));
                },
            }
            proof {
                if j == before.len() {
                    assert(entries@.drop_last() =~= before);
                }
                lemma_set_or_push(before, entries@, j, source@[i as int].0@, source@[i as int].1);
                assert forall|k: Seq<char>| #[trigger] map_of(prefix).contains_key(k) == map_of(before).insert(source@[i as int].0@, source@[i as int].1).contains_key(k) by {
                }
                assert(map_of(prefix) =~= map_of(before).insert(source@[i as int].0@, source@[i as int].1));
            }
            i = i + 1;
        }
        assert(source@.take(source@.len() as int) == source@);
        CacheCatalog { path, data: CacheIndexData { entries } }
    }

    /// The file the index is stored in.
    pub fn path(&self) -> (res: &String)
        ensures
            res@ == self.index_path(),
    {
        &self.path
    }

    /// The stored form of the index.
    pub fn data(&self) -> (res: &CacheIndexData)
        ensures
            res.entries@ == self.items(),
    {
        &self.data
    }

    /// The entries, each with its composite key.
    pub fn entries(&self) -> (res: &[(String, CacheEntry)])
        ensures
            res@ == self.items(),
    {
        self.data.entries.as_slice()
    }

    /// The entry stored under the composite key, to be changed in place.
    /// Changing it leaves the key and every other entry as they were.
    pub fn entry_mut(&mut self, key: &str) -> (res: Option<&mut CacheEntry>)
        requires
            old(self).wf(),
        ensures
            res is None <==> !old(self).entry_map().contains_key(key@),
            res is None ==> *final(self) == *old(self),
            res matches Some(e) ==> *e == old(self).entry_map()[key@],
            res matches Some(e) ==> final(self).entry_map() == old(self).entry_map().insert(key@, *final(e)),
            final(self).wf(),
            final(self).index_path() == old(self).index_path(),
    {
        let k = string_of(&chars_of(key));
        proof {
            lemma_map_of(self.data.entries@, key@);
        }
        match find_key(&self.data.entries, &k) {
            Some(j) => {
                let ghost before = self.data.entries@;
                proof {
                    lemma_lookup_index(before, j as int);
                    assert forall|e2: CacheEntry|
                        #![trigger before.update(j as int, (before[j as int].0, e2))]
                        keys_distinct(before.update(j as int, (before[j as int].0, e2)))
                        && map_of(before.update(j as int, (before[j as int].0, e2))) == map_of(before).insert(key@, e2) by {
                        let after = before.update(j as int, (before[j as int].0, e2));
                        lemma_set_or_push(before, after, j as int, key@, e2);
                    }
                }
                Some(&mut self.data.entries[j].1)
            },
            None => None,
        }
    }

    /// Removes every entry.
    pub fn clear(&mut self)
        requires
            old(self).wf(),
        ensures
            final(self).wf(),
            final(self).entry_map() == Map::<Seq<char>, CacheEntry>::empty(),
            final(self).index_path() == old(self).index_path(),
    {
        self.data.entries.clear();
        assert(map_of(self.data.entries@) =~= Map::<Seq<char>, CacheEntry>::empty());
    }

    /// Removes the entry stored under the composite key, and returns it.
    pub fn remove_by_composite_key(&mut self, key: &str) -> (res: Option<CacheEntry>)
        requires
            old(self).wf(),
        ensures
            final(self).wf(),
            res == (if old(self).entry_map().contains_key(key@) {
                Some(old(self).entry_map()[key@])
            } else {
                None
            }),
            final(self).entry_map() == old(self).entry_map().remove(key@),
            final(self).index_path() == old(self).index_path(),
    {
        let k = string_of(&chars_of(key));
        let ghost before = self.data.entries@;
        proof {
            lemma_map_of(before, key@);
        }
        match find_key(&self.data.entries, &k) {
            Some(j) => {
                let (_, entry) = self.data.entries.remove(j);
                proof {
                    lemma_remove_at(before, self.data.entries@, j as int);
                }
                Some(entry)
            },
            None => {
                assert(map_of(before).remove(key@) =~= map_of(before));
                None
            },
        }
    }

    /// Removes the entry of `key` in `bucket`.
    pub fn remove(&mut self, bucket: CacheBucket, key: &str) -> (res: CacheResult<Option<CacheEntry>>)
        requires
            old(self).wf(),
        ensures
            final(self).wf(),
            trim(key@).len() == 0 ==> res == Err::<Option<CacheEntry>, CacheError>(CacheError::EmptyKey)
                && *final(self) == *old(self),
            trim(key@).len() > 0 ==> {
                let k = spec_composite_key(bucket, key@);
                &&& res == Ok::<Option<CacheEntry>, CacheError>(
                    if old(self).entry_map().contains_key(k) {
                        Some(old(self).entry_map()[k])
                    } else {
                        None
                    },
                )
                &&& final(self).entry_map() == old(self).entry_map().remove(k)
            },
            final(self).index_path() == old(self).index_path(),
    {
        match composite_key(bucket, key) {
            Ok(composite) => Ok(self.remove_by_composite_key(composite.as_str())),
            Err(e) => Err(e),
        }
    }

    /// Marks the entry of `key` in `bucket` as accessed at time `now`, and
    /// returns it.
    pub fn touch_at(&mut self, bucket: CacheBucket, key: &str, now: u64) -> (res: CacheResult<Option<CacheEntry>>)
        requires
            old(self).wf(),
        ensures
            final(self).wf(),
            trim(key@).len() == 0 ==> res == Err::<Option<CacheEntry>, CacheError>(CacheError::EmptyKey)
                && *final(self) == *old(self),
            trim(key@).len() > 0 ==> is_touch_outcome(
                old(self).entry_map(),
                final(self).entry_map(),
                spec_composite_key(bucket, key@),
                now,
                res,
            ),
            final(self).index_path() == old(self).index_path(),
    {
        let composite = match composite_key(bucket, key) {
            Ok(c) => c,
            Err(e) => return Err(e),
        };
        let ghost before = self.data.entries@;
        proof {
            lemma_map_of(before, composite@);
        }
        match find_key(&self.data.entries, &composite) {
            Some(j) => {
                let mut entry = copy_entry(&self.data.entries[j].1);
                entry.accessed_at = now;
                let result = copy_entry(&entry);
                let stored_key = self.data.entries[j].0.clone();
                self.data.entries.set(j, (stored_key, entry));
                proof {
                    lemma_set_or_push(before, self.data.entries@, j as int, composite@, result);
                }
                Ok(Some(result))
            },
            None => Ok(None),
        }
    }

    /// Marks the entry of `key` in `bucket` as accessed now, and returns it.
    pub fn touch(&mut self, bucket: CacheBucket, key: &str) -> (res: CacheResult<Option<CacheEntry>>)
        requires
            old(self).wf(),
        ensures
            final(self).wf(),
            trim(key@).len() == 0 ==> res == Err::<Option<CacheEntry>, CacheError>(CacheError::EmptyKey)
                && *final(self) == *old(self),
            trim(key@).len() > 0 ==> exists|now: u64| #[trigger] is_touch_outcome(
                old(self).entry_map(),
                final(self).entry_map(),
                spec_composite_key(bucket, key@),
                now,
                res,
            ),
            final(self).index_path() == old(self).index_path(),
    {
        let now = now_unix_secs();
        self.touch_at(bucket, key, now)
    }

    /// Inserts or replaces the entry of `request.key` at time `now`, and
    /// returns the file path of the entry it replaced.
    pub fn upsert_at(&mut self, request: CacheEntryUpsert<'_>, now: u64) -> (res: CacheResult<Option<String>>)
        requires
            old(self).wf(),
        ensures
            final(self).wf(),
            trim(request.key@).len() == 0 ==> res == Err::<Option<String>, CacheError>(CacheError::EmptyKey)
                && *final(self) == *old(self),
            trim(request.key@).len() > 0 ==> is_upsert_outcome(
                old(self).entry_map(),
                final(self).entry_map(),
                request,
                now,
                res,
            ),
            final(self).index_path() == old(self).index_path(),
    {
        let composite = match composite_key(request.bucket, request.key) {
            Ok(c) => c,
            Err(e) => return Err(e),
        };
        let ghost before = self.data.entries@;
        proof {
            lemma_map_of(before, composite@);
        }
        let found = find_key(&self.data.entries, &composite);
        let (previous_path, created_at) = match found {
            Some(j) => (Some(self.data.entries[j].1.relative_path.clone()), self.data.entries[j].1.created_at),
            None => (None, now),
        };
        let expires_at = match request.ttl_secs {
            Some(t) => Some(now.saturating_add(t)),
            None => None,
        };
        let entry = CacheEntry {
            bucket: request.bucket,
            key: string_of(&trimmed(request.key)),
            relative_path: request.relative_path,
            size_bytes: request.size_bytes,
            created_at,
            accessed_at: now,
            source_url: request.source_url,
            mime_type: request.mime_type,
            song_id: request.song_id,
            quality: request.quality,
            content_length: request.content_length,
            is_complete: request.is_complete,
            expires_at,
        };
        let ghost stored = entry;
        let ghost j: int = match found {
            Some(p) => p as int,
            None => before.len() as int,
        };
        match found {
            Some(j) => {
                self.data.entries.set(j, (composite, entry));
            },
            None => {
                self.data.entries.push((composite, entry));
            },
        }
        proof {
            if j == before.len() {
                assert(self.data.entries@.drop_last() =~= before);
            }
            lemma_set_or_push(before, self.data.entries@, j, spec_composite_key(request.bucket, request.key@), stored);
        }
        Ok(previous_path)
    }

    /// Inserts or replaces the entry of `request.key` now; see
    /// [`CacheCatalog::upsert_at`].
    pub fn upsert(&mut self, request: CacheEntryUpsert<'_>) -> (res: CacheResult<Option<String>>)
        requires
            old(self).wf(),
        ensures
            final(self).wf(),
            trim(request.key@).len() == 0 ==> res == Err::<Option<String>, CacheError>(CacheError::EmptyKey)
                && *final(self) == *old(self),
            trim(request.key@).len() > 0 ==> exists|now: u64| #[trigger] is_upsert_outcome(
                old(self).entry_map(),
                final(self).entry_map(),
                request,
                now,
                res,
            ),
            final(self).index_path() == old(self).index_path(),
    {
        let now = now_unix_secs();
        self.upsert_at(request, now)
    }

    /// Statistics of the entries under the size limit `max_size_bytes`.
    pub fn stats(&self, max_size_bytes: u64) -> (res: CacheStats)
        ensures
            res == stats_of(self.items(), max_size_bytes),
    {
        let mut stats = CacheStats::with_max_size(max_size_bytes);
        let mut i: usize = 0;
        while i < self.data.entries.len()
            invariant
                i <= self.data.entries@.len(),
                stats == stats_of(self.data.entries@.take(i as int), max_size_bytes),
            decreases self.data.entries@.len() - i,
        {
            assert(self.data.entries@.take(i + 1).drop_last() == self.data.entries@.take(i as int));
            stats.add_entry(&self.data.entries[i].1);
            i = i + 1;
        }
        assert(self.data.entries@.take(self.data.entries@.len() as int) == self.data.entries@);
        stats
    }
}

/// Law: an entry written twice keeps the time it was first created.  After
/// an upsert of a new key and a second upsert of the same key, the index
/// holds one entry more than before, created at the first upsert, and the
/// second upsert answers with the path the first one stored.
pub proof fn law_second_upsert_keeps_creation(
    m0: Map<Seq<char>, CacheEntry>,
    m1: Map<Seq<char>, CacheEntry>,
    m2: Map<Seq<char>, CacheEntry>,
    r1: CacheEntryUpsert,
    r2: CacheEntryUpsert,
    now1: u64,
    now2: u64,
    res1: CacheResult<Option<String>>,
    res2: CacheResult<Option<String>>,
)
    requires
        spec_composite_key(r1.bucket, r1.key@) == spec_composite_key(r2.bucket, r2.key@),
        !m0.contains_key(spec_composite_key(r1.bucket, r1.key@)),
        is_upsert_outcome(m0, m1, r1, now1, res1),
        is_upsert_outcome(m1, m2, r2, now2, res2),
    ensures
        m2.dom() == m0.dom().insert(spec_composite_key(r1.bucket, r1.key@)),
        m2[spec_composite_key(r1.bucket, r1.key@)].created_at == now1,
        m2[spec_composite_key(r1.bucket, r1.key@)].accessed_at == now2,
        res2 == Ok::<Option<String>, CacheError>(Some(r1.relative_path)),
{
    let k = spec_composite_key(r1.bucket, r1.key@);
    assert(m1.dom().contains(k));
    assert(m2.dom() =~= m0.dom().insert(k));
}

/// Law: removing a key that an upsert just added gives back the index as
/// it was before the upsert.
pub proof fn law_remove_undoes_new_upsert(
    m0: Map<Seq<char>, CacheEntry>,
    m1: Map<Seq<char>, CacheEntry>,
    r: CacheEntryUpsert,
    now: u64,
    res: CacheResult<Option<String>>,
)
    requires
        !m0.contains_key(spec_composite_key(r.bucket, r.key@)),
        is_upsert_outcome(m0, m1, r, now, res),
    ensures
        m1.remove(spec_composite_key(r.bucket, r.key@)) == m0,
{
    let k = spec_composite_key(r.bucket, r.key@);
    assert(m1.remove(k) =~= m0);
}

/// The position of `key` among the entries.
fn find_key(entries: &Vec<(String, CacheEntry)>, key: &String) -> (res: Option<usize>)
    ensures
        res matches Some(j) ==> j < entries@.len() && entries@[j as int].0@ == key@,
        res is None ==> forall|i: int| 0 <= i < entries@.len() ==> #[trigger] entries@[i].0@ != key@,
{
    let mut i: usize = 0;
    while i < entries.len()
        invariant
            i <= entries@.len(),
            forall|j: int| 0 <= j < i ==> #[trigger] entries@[j].0@ != key@,
        decreases entries@.len() - i,
    {
        if entries[i].0 == *key {
            return Some(i);
        }
        i = i + 1;
    }
    None
}

/// Setting the entry of an existing key, or pushing a new key, inserts into the map.
proof fn lemma_set_or_push(before: Seq<(String, CacheEntry)>, after: Seq<(String, CacheEntry)>, j: int, k: Seq<char>, e: CacheEntry)
    requires
        keys_distinct(before),
        0 <= j <= before.len(),
        j < before.len() ==> before[j].0@ == k && after.len() == before.len() && after[j].0@ == k
            && after[j].1 == e && forall|i: int| 0 <= i < before.len() && i != j ==> #[trigger] after[i] == before[i],
        j == before.len() ==> (forall|i: int| 0 <= i < before.len() ==> #[trigger] before[i].0@ != k)
            && after.len() == before.len() + 1 && after.drop_last() == before && after.last().0@ == k
            && after.last().1 == e,
    ensures
        keys_distinct(after),
        map_of(after) == map_of(before).insert(k, e),
{
    if j < before.len() {
        assert forall|a: int, b: int| 0 <= a < b < after.len() implies #[trigger] after[a].0@ != #[trigger] after[b].0@ by {
            assert(before[a].0@ != before[b].0@);
        }
        assert forall|q: Seq<char>| #[trigger] map_of(after).contains_key(q) == map_of(before).insert(k, e).contains_key(q) by {
            lemma_map_of(after, q);
            lemma_map_of(before, q);
            if exists|i: int| 0 <= i < before.len() && #[trigger] before[i].0@ == q {
                let i = choose|i: int| 0 <= i < before.len() && #[trigger] before[i].0@ == q;
                if i == j {
                    assert(after[j].0@ == q);
                } else {
                    assert(after[i].0@ == q);
                }
            }
            if q == k {
                assert(after[j].0@ == q);
            }
            if exists|i: int| 0 <= i < after.len() && #[trigger] after[i].0@ == q {
                let i = choose|i: int| 0 <= i < after.len() && #[trigger] after[i].0@ == q;
                if i != j {
                    assert(before[i].0@ == q);
                }
            }
        }
        assert forall|q: Seq<char>| #[trigger] map_of(after).contains_key(q) implies map_of(after)[q] == map_of(before).insert(k, e)[q] by {
            lemma_map_of(after, q);
            lemma_map_of(before, q);
            let i = choose|i: int| 0 <= i < after.len() && #[trigger] after[i].0@ == q;
            if i != j {
                assert(after[i] == before[i]);
                assert(before[i].0@ == q);
                assert(before[i].0@ != before[j].0@);
            }
        }
        assert(map_of(after) =~= map_of(before).insert(k, e));
    } else {
        assert forall|a: int, b: int| 0 <= a < b < after.len() implies #[trigger] after[a].0@ != #[trigger] after[b].0@ by {
            if b < before.len() {
                assert(before[a].0@ != before[b].0@);
            } else {
                assert(after[a] == before[a]);
                assert(before[a].0@ != k);
            }
        }
        assert forall|q: Seq<char>| #[trigger] map_of(after).contains_key(q) == map_of(before).insert(k, e).contains_key(q) by {
            lemma_map_of(after, q);
            lemma_map_of(before, q);
            if exists|i: int| 0 <= i < before.len() && #[trigger] before[i].0@ == q {
                let i = choose|i: int| 0 <= i < before.len() && #[trigger] before[i].0@ == q;
                assert(after[i] == before[i]);
                assert(after[i].0@ == q);
            }
            if q == k {
                assert(after[after.len() - 1].0@ == q);
            }
            if exists|i: int| 0 <= i < after.len() && #[trigger] after[i].0@ == q {
                let i = choose|i: int| 0 <= i < after.len() && #[trigger] after[i].0@ == q;
                if i < before.len() {
                    assert(after[i] == before[i]);
                    assert(before[i].0@ == q);
                }
            }
        }
        assert forall|q: Seq<char>| #[trigger] map_of(after).contains_key(q) implies map_of(after)[q] == map_of(before).insert(k, e)[q] by {
            lemma_map_of(after, q);
            lemma_map_of(before, q);
            let i = choose|i: int| 0 <= i < after.len() && #[trigger] after[i].0@ == q;
            if i < before.len() {
                assert(after[i] == before[i]);
                assert(before[i].0@ == q);
                assert(before[i].0@ != k);
            }
        }
        assert(map_of(after) =~= map_of(before).insert(k, e));
    }
}

/// Removing the entry at position `j` removes its key from the map.
proof fn lemma_remove_at(before: Seq<(String, CacheEntry)>, after: Seq<(String, CacheEntry)>, j: int)
    requires
        keys_distinct(before),
        0 <= j < before.len(),
        after == before.remove(j),
    ensures
        keys_distinct(after),
        map_of(after) == map_of(before).remove(before[j].0@),
{
    let k = before[j].0@;
    assert forall|a: int, b: int| 0 <= a < b < after.len() implies #[trigger] after[a].0@ != #[trigger] after[b].0@ by {
        let a2 = if a < j { a } else { a + 1 };
        let b2 = if b < j { b } else { b + 1 };
        assert(after[a] == before[a2]);
        assert(after[b] == before[b2]);
        assert(before[a2].0@ != before[b2].0@);
    }
    assert forall|q: Seq<char>| #[trigger] map_of(after).contains_key(q) == map_of(before).remove(k).contains_key(q) by {
        lemma_map_of(after, q);
        lemma_map_of(before, q);
        if exists|i: int| 0 <= i < before.len() && #[trigger] before[i].0@ == q {
            let i = choose|i: int| 0 <= i < before.len() && #[trigger] before[i].0@ == q;
            if i < j {
                assert(after[i].0@ == q);
            } else if i > j {
                assert(after[i - 1].0@ == q);
            }
        }
        if exists|i: int| 0 <= i < after.len() && #[trigger] after[i].0@ == q {
            let i = choose|i: int| 0 <= i < after.len() && #[trigger] after[i].0@ == q;
            let i2 = if i < j { i } else { i + 1 };
            assert(before[i2].0@ == q);
            assert(before[i2].0@ != k);
        }
    }
    assert forall|q: Seq<char>| #[trigger] map_of(after).contains_key(q) implies map_of(after)[q] == map_of(before).remove(k)[q] by {
        lemma_map_of(after, q);
        lemma_map_of(before, q);
        let i = choose|i: int| 0 <= i < after.len() && #[trigger] after[i].0@ == q;
        let i2 = if i < j { i } else { i + 1 };
        assert(after[i] == before[i2]);
    }
    assert(map_of(after) =~= map_of(before).remove(k));
}

} // verus!
