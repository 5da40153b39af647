//! Tracks the download metadata of one cached song while it streams, and
//! decides when the metadata is worth writing to disk again.

use vstd::prelude::*;

use crate::cache::song::{pairs, SongStreamCacheMeta};
use crate::intervals::{covers_point, lemma_separated_total_len_bounded};

verus! {

/// The metadata is written again once this many more bytes are on disk.
pub const PERSIST_STEP_BYTES: u64 = 131072;

/// The metadata of a streaming song and the byte count last written to disk.
pub struct SongCacheTracker {
    pub meta: SongStreamCacheMeta,
    pub last_persisted_bytes: u64,
}

impl SongCacheTracker {
    /// The downloaded byte count fits in a `u64`.
    pub open spec fn wf(&self) -> bool {
        self.meta.downloaded() <= u64::MAX
    }

    /// Starts tracking `meta`, as read from disk.  Its downloaded byte count
    /// must fit in a `u64`.
    pub fn new(meta: SongStreamCacheMeta) -> (res: SongCacheTracker)
        requires
            meta.downloaded() <= u64::MAX,
        ensures
            res.wf(),
            res.meta == meta,
            res.last_persisted_bytes == meta.downloaded(),
    {
        let last = meta.downloaded_bytes();
        SongCacheTracker { meta, last_persisted_bytes: last }
    }

    /// Records the stream length.  Returns whether it changed, in which case
    /// the metadata must be written; an unchanged length changes nothing.
    pub fn set_content_length(&mut self, content_length: Option<u64>) -> (res: bool)
        requires
            old(self).wf(),
        ensures
            final(self).wf(),
            res == (old(self).meta.content_length != content_length),
            !res ==> *final(self) == *old(self),
            final(self).meta.content_length == content_length,
            final(self).meta.downloaded_ranges@ == old(self).meta.downloaded_ranges@,
            final(self).meta.is_complete == old(self).meta.is_complete,
            final(self).last_persisted_bytes == old(self).last_persisted_bytes,
    {
        if self.meta.content_length == content_length {
            return false;
        }
        self.meta.set_content_length(content_length);
        true
    }

    /// Records a progress report of the download: the stream length, the
    /// chunk now on disk, and whether the download is complete.  Returns
    /// whether the metadata must be written: on completion, once
    /// `PERSIST_STEP_BYTES` more bytes are on disk than were last written,
    /// and when the count went down.
    pub fn record_progress(&mut self, chunk: std::ops::Range<u64>, complete: bool, content_length: Option<u64>) -> (res: bool)
        requires
            old(self).wf(),
        ensures
            final(self).wf(),
            final(self).meta.content_length == content_length,
            final(self).last_persisted_bytes == old(self).last_persisted_bytes,
            res == (complete || final(self).meta.downloaded() - old(self).last_persisted_bytes
                >= PERSIST_STEP_BYTES || final(self).meta.downloaded() < old(self).meta.downloaded()),
            forall|x: int| #[trigger] covers_point(pairs(final(self).meta.downloaded_ranges@), x) == (covers_point(
                pairs(old(self).meta.downloaded_ranges@),
                x,
            ) || (chunk.start <= x && x < chunk.end)),
            chunk.end <= chunk.start ==> final(self).meta.downloaded_ranges@ == old(self).meta.downloaded_ranges@,
            final(self).meta.is_complete == (old(self).meta.is_complete || (complete && !(content_length matches Some(
                len,
            ) && final(self).meta.downloaded() < len))),
            final(self).meta.song_id == old(self).meta.song_id,
            final(self).meta.quality == old(self).meta.quality,
            final(self).meta.source_url == old(self).meta.source_url,
    {
        let previous_bytes = self.meta.downloaded_bytes();
        if self.meta.content_length != content_length {
            self.meta.set_content_length(content_length);
        }
        let nonempty = chunk.start < chunk.end;
        self.meta.add_range(chunk);
        proof {
            if nonempty {
                lemma_separated_total_len_bounded(pairs(self.meta.downloaded_ranges@));
            }
        }
        if complete {
            self.meta.mark_complete();
        }
        let downloaded_bytes = self.meta.downloaded_bytes();
        complete || downloaded_bytes.saturating_sub(self.last_persisted_bytes) >= PERSIST_STEP_BYTES
            || downloaded_bytes < previous_bytes
    }

    /// The metadata was written: remember how many bytes it recorded.
    pub fn mark_persisted(&mut self)
        requires
            old(self).wf(),
        ensures
            final(self).wf(),
            final(self).meta == old(self).meta,
            final(self).last_persisted_bytes == old(self).meta.downloaded(),
    {
        self.last_persisted_bytes = self.meta.downloaded_bytes();
    }
}

} // verus!
