//! Download progress of a streamed song: which byte ranges are on disk.

use vstd::prelude::*;

use crate::cache::types::now_unix_secs;
use crate::intervals::{
    all_nonempty, covers_point, covers_span, in_span, insert_written_range, normalized, separated, starts_sorted, total_len,
};
use crate::text::{string_of, trim, trimmed};

verus! {

/// A half-open byte range `[start, end)`.
#[derive(Clone, Copy, Debug, PartialEq, Eq, Structural)]
pub struct ByteRange {
    pub start: u64,
    pub end: u64,
}

impl ByteRange {
    /// A range holding at least one byte; `None` when `end <= start`.
    pub fn new(start: u64, end: u64) -> (res: Option<ByteRange>)
        ensures
            end <= start ==> res is None,
            start < end ==> res == Some(ByteRange { start, end }),
    {
        if end <= start {
            return None;
        }
        Some(ByteRange { start, end })
    }

    /// Converts a `start..end` range as it is, even when it is empty.
    pub fn from_range(value: std::ops::Range<u64>) -> (res: ByteRange)
        ensures
            res == (ByteRange { start: value.start, end: value.end }),
    {
        ByteRange { start: value.start, end: value.end }
    }

    /// Number of bytes; 0 for an empty or inverted range.
    pub fn len(&self) -> (res: u64)
        ensures
            res == (if self.start < self.end {
                self.end - self.start
            } else {
                0
            }),
    {
        self.end.saturating_sub(self.start)
    }
}

/// The ranges as `(start, end)` pairs.
pub open spec fn pairs(v: Seq<ByteRange>) -> Seq<(u64, u64)> {
    Seq::new(v.len(), |i: int| (v[i].start, v[i].end))
}

/// Download metadata of one cached song stream.
#[derive(Clone, Debug)]
pub struct SongStreamCacheMeta {
    pub song_id: i64,
    pub quality: String,
    pub source_url: String,
    pub content_length: Option<u64>,
    pub downloaded_ranges: Vec<ByteRange>,
    pub is_complete: bool,
    pub updated_at: u64,
}

fn to_pairs(v: &Vec<ByteRange>) -> (res: Vec<(u64, u64)>)
    ensures
        res@ == pairs(v@),
{
    let mut res: Vec<(u64, u64)> = Vec::new();
    let mut i: usize = 0;
    while i < v.len()
        invariant
            i <= v@.len(),
            res@ == pairs(v@).take(i as int),
        decreases v@.len() - i,
    {
        res.push((v[i].start, v[i].end));
        assert(pairs(v@).take(i + 1) == pairs(v@).take(i as int).push((v@[i as int].start, v@[i as int].end)));
        i = i + 1;
    }
    assert(pairs(v@).take(v@.len() as int) == pairs(v@));
    res
}

fn from_pairs(v: &Vec<(u64, u64)>) -> (res: Vec<ByteRange>)
    ensures
        pairs(res@) == v@,
{
    let mut res: Vec<ByteRange> = Vec::new();
    let mut i: usize = 0;
    while i < v.len()
        invariant
            i <= v@.len(),
            pairs(res@) == v@.take(i as int),
        decreases v@.len() - i,
    {
        let (start, end) = v[i];
        let ghost before = res@;
        res.push(ByteRange { start, end });
        assert(pairs(res@) == pairs(before).push((start, end)));
        assert(v@.take(i + 1) == v@.take(i as int).push(v@[i as int]));
        i = i + 1;
    }
    assert(v@.take(v@.len() as int) == v@);
    res
}

impl SongStreamCacheMeta {
    /// Bytes on disk: the sum of the range lengths.
    pub open spec fn downloaded(self) -> int {
        total_len(pairs(self.downloaded_ranges@))
    }

    /// Whether every byte of the stream is on disk: with a known length, one
    /// range from byte 0 that reaches the end; without one, the completion flag.
    pub open spec fn fully_downloaded(self) -> bool {
        match self.content_length {
            Some(len) => self.downloaded_ranges@.len() == 1 && self.downloaded_ranges@[0].start == 0
                && self.downloaded_ranges@[0].end >= len,
            None => self.is_complete,
        }
    }

    /// Fresh metadata: nothing downloaded, length unknown, not complete; the
    /// quality and URL are trimmed, and the time of the update is now.
    pub fn new(song_id: i64, quality: &str, source_url: &str) -> (res: SongStreamCacheMeta)
        ensures
            res.song_id == song_id,
            res.quality@ == trim(quality@),
            res.source_url@ == trim(source_url@),
            res.content_length is None,
            res.downloaded_ranges@.len() == 0,
            !res.is_complete,
    {
        SongStreamCacheMeta {
            song_id,
            quality: string_of(&trimmed(quality)),
            source_url: string_of(&trimmed(source_url)),
            content_length: None,
            downloaded_ranges: Vec::new(),
            is_complete: false,
            updated_at: now_unix_secs(),
        }
    }

    /// Records the stream length and stamps the time of the update.
    pub fn set_content_length(&mut self, content_length: Option<u64>)
        ensures
            final(self).content_length == content_length,
            final(self).song_id == old(self).song_id,
            final(self).quality == old(self).quality,
            final(self).source_url == old(self).source_url,
            final(self).downloaded_ranges@ == old(self).downloaded_ranges@,
            final(self).is_complete == old(self).is_complete,
    {
        self.content_length = content_length;
        self.updated_at = now_unix_secs();
    }

    /// Records that the bytes `[start, end)` are on disk.  The ranges are
    /// re-sorted and ranges that overlap or touch are joined; an empty range
    /// changes nothing.
    pub fn add_range(&mut self, range: std::ops::Range<u64>)
        ensures
            range.end <= range.start ==> *final(self) == *old(self),
            forall|x: int|
                #[trigger] covers_point(pairs(final(self).downloaded_ranges@), x) == (covers_point(
                    pairs(old(self).downloaded_ranges@),
                    x,
                ) || (range.start <= x && x < range.end)),
            range.start < range.end && all_nonempty(pairs(old(self).downloaded_ranges@))
                ==> normalized(pairs(final(self).downloaded_ranges@)),
            range.start < range.end ==> starts_sorted(pairs(final(self).downloaded_ranges@))
                && separated(pairs(final(self).downloaded_ranges@)),
            final(self).song_id == old(self).song_id,
            final(self).quality == old(self).quality,
            final(self).source_url == old(self).source_url,
            final(self).content_length == old(self).content_length,
            final(self).is_complete == old(self).is_complete,
    {
        if ByteRange::new(range.start, range.end).is_none() {
            return;
        }
        let mut ranges = to_pairs(&self.downloaded_ranges);
        insert_written_range(&mut ranges, range.start, range.end);
        self.downloaded_ranges = from_pairs(&ranges);
        self.updated_at = now_unix_secs();
    }

    /// Sum of the range lengths.
    pub fn downloaded_bytes(&self) -> (res: u64)
        requires
            self.downloaded() <= u64::MAX,
        ensures
            res == self.downloaded(),
    {
        let ghost p = pairs(self.downloaded_ranges@);
        let mut total: u64 = 0;
        let mut i: usize = 0;
        while i < self.downloaded_ranges.len()
            invariant
                i <= self.downloaded_ranges@.len(),
                p == pairs(self.downloaded_ranges@),
                total_len(p) <= u64::MAX,
                total == total_len(p.take(i as int)),
            decreases self.downloaded_ranges@.len() - i,
        {
            proof {
                lemma_total_len_prefix(p, i + 1);
                assert(p.take(i + 1).drop_last() == p.take(i as int));
            }
            total = total + self.downloaded_ranges[i].len();
            i = i + 1;
        }
        assert(p.take(p.len() as int) == p);
        total
    }

    /// Sum of the range lengths, or `None` when it does not fit in a `u64`.
    pub fn checked_downloaded_bytes(&self) -> (res: Option<u64>)
        ensures
            res is Some == (self.downloaded() <= u64::MAX),
            res matches Some(n) ==> n == self.downloaded(),
    {
        let ghost p = pairs(self.downloaded_ranges@);
        let mut total: u64 = 0;
        let mut i: usize = 0;
        while i < self.downloaded_ranges.len()
            invariant
                i <= self.downloaded_ranges@.len(),
                p == pairs(self.downloaded_ranges@),
                total == total_len(p.take(i as int)),
            decreases self.downloaded_ranges@.len() - i,
        {
            proof {
                assert(p.take(i + 1).drop_last() == p.take(i as int));
                lemma_total_len_prefix(p, i + 1);
            }
            match total.checked_add(self.downloaded_ranges[i].len()) {
                Some(t) => {
                    total = t;
                },
                None => {
                    return None;
                },
            }
            i = i + 1;
        }
        assert(p.take(p.len() as int) == p);
        Some(total)
    }

    /// Marks the download complete, unless a known length has not been
    /// reached yet, in which case nothing changes.
    pub fn mark_complete(&mut self)
        requires
            old(self).content_length is Some ==> old(self).downloaded() <= u64::MAX,
        ensures
            (old(self).content_length matches Some(len) && old(self).downloaded() < len)
                ==> *final(self) == *old(self),
            !(old(self).content_length matches Some(len) && old(self).downloaded() < len)
                ==> final(self).is_complete,
            final(self).song_id == old(self).song_id,
            final(self).quality == old(self).quality,
            final(self).source_url == old(self).source_url,
            final(self).content_length == old(self).content_length,
            final(self).downloaded_ranges@ == old(self).downloaded_ranges@,
    {
        if let Some(content_length) = self.content_length {
            if self.downloaded_bytes() < content_length {
                return;
            }
        }
        self.is_complete = true;
        self.updated_at = now_unix_secs();
    }

    /// Whether the whole stream is on disk.  With a known length this means
    /// one range that starts at 0 and reaches the length, so every byte of
    /// the stream is covered.
    pub fn is_fully_downloaded(&self) -> (res: bool)
        ensures
            res == self.fully_downloaded(),
            res && self.content_length is Some ==> covers_span(
                pairs(self.downloaded_ranges@),
                0,
                self.content_length->0 as int,
            ),
    {
        if let Some(content_length) = self.content_length {
            let res = self.downloaded_ranges.len() == 1 && self.downloaded_ranges[0].start == 0
                && self.downloaded_ranges[0].end >= content_length;
            proof {
                if res {
                    let p = pairs(self.downloaded_ranges@);
                    assert forall|x: int| 0 <= x < content_length implies #[trigger] covers_point(p, x) by {
                        assert(in_span(p[0], x));
                    }
                }
            }
            return res;
        }
        self.is_complete
    }
}

proof fn lemma_total_len_prefix(s: Seq<(u64, u64)>, k: int)
    requires
        0 <= k <= s.len(),
    ensures
        total_len(s.take(k)) <= total_len(s),
        total_len(s.take(k)) >= 0,
    decreases s.len(),
{
    if k == s.len() {
        assert(s.take(k) == s);
        lemma_total_len_nonneg(s);
    } else {
        lemma_total_len_prefix(s.drop_last(), k);
        assert(s.drop_last().take(k) == s.take(k));
    }
}

proof fn lemma_total_len_nonneg(s: Seq<(u64, u64)>)
    ensures
        total_len(s) >= 0,
    decreases s.len(),
{
    if s.len() > 0 {
        lemma_total_len_nonneg(s.drop_last());
    }
}

} // verus!
