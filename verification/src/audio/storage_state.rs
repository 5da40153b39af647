//! The state shared by the reader and the throttled writer of a streamed
//! cache file: where each side stands, which byte ranges are physically on
//! disk, and the write-ahead throttle with its seek escape budget.
//!
//! The writer may run at most `max_write_ahead_bytes` ahead of the throttle
//! anchor (the reader's position, or the writer's own position after a seek).
//! While the writer is throttled the download task cannot serve a seek
//! request, so a seek towards bytes that are not on disk arms an escape
//! budget: until the writer reaches the budget end it may write past the
//! throttle.  The budget clears itself once reached, and a writer seek clears
//! it too.

use vstd::prelude::*;

use crate::intervals::{
    covers_point, covers_span, insert_written_range, lemma_normalized_sorted, normalized,
    ranges_cover,
};

verus! {

/// Lower bound of the escape budget: enough to finish an in-flight chunk of
/// the HTTP body so that the download task returns to its event loop.
pub const MIN_ESCAPE_BUDGET_BYTES: u64 = 1048576;

/// `a + b`, or `u64::MAX` when that does not fit.
pub open spec fn sat_add(a: u64, b: u64) -> u64 {
    if a + b > u64::MAX {
        u64::MAX
    } else {
        (a + b) as u64
    }
}

/// The larger of two values.
pub open spec fn max_u64(a: u64, b: u64) -> u64 {
    if a >= b {
        a
    } else {
        b
    }
}

/// The smaller of two values.
pub open spec fn min_u64(a: u64, b: u64) -> u64 {
    if a <= b {
        a
    } else {
        b
    }
}

/// The escape budget that a blocking seek towards an uncached byte arms: it
/// reaches `budget` bytes past the writer, and never shrinks one already armed.
pub open spec fn armed_budget_end(prev: Option<u64>, writer: u64, budget: u64) -> u64 {
    let end = sat_add(writer, budget);
    match prev {
        Some(p) => max_u64(p, end),
        None => end,
    }
}

/// What a read of the cache file must do first.
#[derive(Clone, Copy, Debug, PartialEq, Eq, Structural)]
pub enum ReadGate {
    /// The reader stands at or past the known end: the read returns 0 bytes.
    EndOfStream,
    /// The length is unknown: read once, with no retry at a temporary end.
    Unbounded,
    /// The bytes to read lie behind the writer but are not on disk: wait for
    /// them to be filled in before reading.
    AwaitBackfill,
    /// Read now, retrying at a temporary end of the file.
    Read,
}

/// Where a seek of the readable source points.
#[derive(Clone, Copy, Debug, PartialEq, Eq, Structural)]
pub enum SeekOrigin {
    Start(u64),
    Current(i64),
    End(i64),
}

/// `base` moved by the signed `offset`, saturating at both ends of `u64`.
pub open spec fn offset_position(base: u64, offset: i64) -> u64 {
    let v = base + offset;
    if v < 0 {
        0
    } else if v > u64::MAX {
        u64::MAX
    } else {
        v as u64
    }
}

/// `base` moved by the signed `offset`, saturating at both ends of `u64`.
pub fn add_signed_saturating(base: u64, offset: i64) -> (res: u64)
    ensures
        res == offset_position(base, offset),
{
    if offset >= 0 {
        base.saturating_add(offset as u64)
    } else {
        let magnitude: u64 = ((-(offset + 1)) as u64) + 1;
        base.saturating_sub(magnitude)
    }
}

/// The byte position a seek targets, for the purpose of arming the escape
/// budget: `None` for a mere position query (`Current(0)`) and when the
/// position it is relative to is unknown.
pub open spec fn spec_seek_target(origin: SeekOrigin, current: Option<u64>, len: Option<u64>) -> Option<u64> {
    match origin {
        SeekOrigin::Start(p) => Some(p),
        SeekOrigin::Current(off) => if off == 0 {
            None
        } else {
            match current {
                Some(c) => Some(offset_position(c, off)),
                None => None,
            }
        },
        SeekOrigin::End(off) => match len {
            Some(l) => Some(offset_position(l, off)),
            None => None,
        },
    }
}

/// The byte position a seek targets (see `spec_seek_target`).
pub fn seek_target(origin: SeekOrigin, current: Option<u64>, len: Option<u64>) -> (res: Option<u64>)
    ensures
        res == spec_seek_target(origin, current, len),
{
    match origin {
        SeekOrigin::Start(p) => Some(p),
        SeekOrigin::Current(off) => {
            if off == 0 {
                None
            } else {
                match current {
                    Some(c) => Some(add_signed_saturating(c, off)),
                    None => None,
                }
            }
        },
        SeekOrigin::End(off) => match len {
            Some(l) => Some(add_signed_saturating(l, off)),
            None => None,
        },
    }
}

/// After an inner read returned no bytes: whether the reader only hit a
/// temporary end of the cache file and should read again.  That is the case
/// when the length is known and the position has not reached it.
pub fn retry_after_empty_read(len: Option<u64>, position: u64) -> (res: bool)
    ensures
        res == (match len {
            Some(l) => position < l,
            None => false,
        }),
{
    match len {
        Some(l) => position < l,
        None => false,
    }
}

/// The shared state of a streamed cache file.
#[derive(Debug)]
pub struct StorageReadState {
    pub reader_position: u64,
    pub writer_position: u64,
    pub throttle_anchor_position: u64,
    /// The byte ranges physically written, half-open, merged and sorted.
    pub written_ranges: Vec<(u64, u64)>,
    /// Size of the escape budget in bytes.
    pub budget_bytes: u64,
    /// While armed, the writer may pass the throttle until it reaches this
    /// position.
    pub seek_escape_budget_end: Option<u64>,
}

impl StorageReadState {
    /// The written ranges are in canonical form.
    pub open spec fn wf(&self) -> bool {
        normalized(self.written_ranges@)
    }

    /// Whether `[start, end)` is on disk.
    pub open spec fn on_disk(&self, start: int, end: int) -> bool {
        covers_span(self.written_ranges@, start, end)
    }

    /// The normal throttle limit: `max` bytes past the anchor.
    pub open spec fn throttle_limit(&self, max: u64) -> u64 {
        sat_add(self.throttle_anchor_position, max)
    }

    /// The write limit in force for a writer at `writer`, with the write-ahead
    /// bound `max` (`None`: unthrottled).  An armed escape budget widens the
    /// limit to its end until the writer reaches it.
    pub open spec fn limit_for(&self, max: Option<u64>, writer: u64) -> u64 {
        match max {
            None => u64::MAX,
            Some(m) => match self.seek_escape_budget_end {
                Some(b) => if writer >= b {
                    self.throttle_limit(m)
                } else {
                    max_u64(self.throttle_limit(m), b)
                },
                None => self.throttle_limit(m),
            },
        }
    }

    /// The escape budget after the write limit was asked for: it clears
    /// itself once the writer has reached its end.
    pub open spec fn escape_after_limit(&self, max: Option<u64>, writer: u64) -> Option<u64> {
        match max {
            None => self.seek_escape_budget_end,
            Some(_) => match self.seek_escape_budget_end {
                Some(b) => if writer >= b {
                    None
                } else {
                    Some(b)
                },
                None => None,
            },
        }
    }

    /// How many of `buf_len` bytes the writer at `writer` may write now.
    pub open spec fn writable(&self, max: Option<u64>, writer: u64, buf_len: usize) -> usize {
        match max {
            None => buf_len,
            Some(_) => {
                let limit = self.limit_for(max, writer);
                if writer >= limit {
                    0
                } else if buf_len <= limit - writer {
                    buf_len
                } else {
                    (limit - writer) as usize
                }
            },
        }
    }

    /// Everything but the escape budget is as in `other`.
    pub open spec fn same_but_escape(&self, other: &StorageReadState) -> bool {
        &&& self.reader_position == other.reader_position
        &&& self.writer_position == other.writer_position
        &&& self.throttle_anchor_position == other.throttle_anchor_position
        &&& self.written_ranges@ == other.written_ranges@
        &&& self.budget_bytes == other.budget_bytes
    }

    /// A fresh state: both sides at 0, nothing on disk, the minimal budget,
    /// no escape armed.
    pub fn new() -> (res: StorageReadState)
        ensures
            res.wf(),
            res.reader_position == 0,
            res.writer_position == 0,
            res.throttle_anchor_position == 0,
            res.written_ranges@ == Seq::<(u64, u64)>::empty(),
            res.budget_bytes == MIN_ESCAPE_BUDGET_BYTES,
            res.seek_escape_budget_end is None,
    {
        StorageReadState {
            reader_position: 0,
            writer_position: 0,
            throttle_anchor_position: 0,
            written_ranges: Vec::new(),
            budget_bytes: MIN_ESCAPE_BUDGET_BYTES,
            seek_escape_budget_end: None,
        }
    }

    /// Sizes the escape budget after the write-ahead bound: the bound itself,
    /// but never less than `MIN_ESCAPE_BUDGET_BYTES`.
    pub fn set_write_ahead_budget(&mut self, max_write_ahead_bytes: Option<u64>)
        ensures
            final(self).budget_bytes == (match max_write_ahead_bytes {
                Some(m) => max_u64(m, MIN_ESCAPE_BUDGET_BYTES),
                None => MIN_ESCAPE_BUDGET_BYTES,
            }),
            final(self).reader_position == old(self).reader_position,
            final(self).writer_position == old(self).writer_position,
            final(self).throttle_anchor_position == old(self).throttle_anchor_position,
            final(self).written_ranges@ == old(self).written_ranges@,
            final(self).seek_escape_budget_end == old(self).seek_escape_budget_end,
    {
        let m = match max_write_ahead_bytes {
            Some(m) => m,
            None => MIN_ESCAPE_BUDGET_BYTES,
        };
        self.budget_bytes = if m >= MIN_ESCAPE_BUDGET_BYTES {
            m
        } else {
            MIN_ESCAPE_BUDGET_BYTES
        };
    }

    /// Whether every byte of `[start, end)` is on disk.
    pub fn covers(&self, start: u64, end: u64) -> (res: bool)
        requires
            self.wf(),
        ensures
            res == self.on_disk(start as int, end as int),
    {
        proof {
            lemma_normalized_sorted(self.written_ranges@);
        }
        ranges_cover(self.written_ranges.as_slice(), start, end)
    }

    /// Arms the escape budget for a blocking seek towards `target`, when the
    /// byte at `target` is not on disk: the budget then reaches
    /// `budget_bytes` past the writer (saturating), and an armed budget only
    /// grows.  A target already on disk leaves the state unchanged.
    pub fn arm_seek_escape(&mut self, target: u64)
        requires
            old(self).wf(),
        ensures
            final(self).wf(),
            final(self).same_but_escape(old(self)),
            old(self).on_disk(target as int, sat_add(target, 1) as int)
                ==> final(self).seek_escape_budget_end == old(self).seek_escape_budget_end,
            !old(self).on_disk(target as int, sat_add(target, 1) as int)
                ==> final(self).seek_escape_budget_end == Some(armed_budget_end(
                    old(self).seek_escape_budget_end,
                    old(self).writer_position,
                    old(self).budget_bytes,
                )),
    {
        let needs_download = !self.covers(target, target.saturating_add(1));
        if needs_download {
            let end = self.writer_position.saturating_add(self.budget_bytes);
            let next = match self.seek_escape_budget_end {
                Some(prev) => if prev >= end {
                    prev
                } else {
                    end
                },
                None => end,
            };
            self.seek_escape_budget_end = Some(next);
        }
    }

    /// The position up to which a writer at `writer_position` may write, under
    /// the write-ahead bound `max_write_ahead_bytes` (`None`: no bound).
    /// Asking clears an escape budget that the writer has reached.
    pub fn allowed_write_until(&mut self, max_write_ahead_bytes: Option<u64>, writer_position: u64) -> (res: u64)
        requires
            old(self).wf(),
        ensures
            final(self).wf(),
            final(self).same_but_escape(old(self)),
            res == old(self).limit_for(max_write_ahead_bytes, writer_position),
            final(self).seek_escape_budget_end == old(self).escape_after_limit(
                max_write_ahead_bytes,
                writer_position,
            ),
    {
        let max = match max_write_ahead_bytes {
            None => {
                return u64::MAX;
            },
            Some(m) => m,
        };
        let normal = self.throttle_anchor_position.saturating_add(max);
        match self.seek_escape_budget_end {
            Some(budget_end) => {
                if writer_position >= budget_end {
                    self.seek_escape_budget_end = None;
                    normal
                } else if normal >= budget_end {
                    normal
                } else {
                    budget_end
                }
            },
            None => normal,
        }
    }

    /// How many of the `buf_len` bytes offered to the writer at
    /// `writer_position` it may write now: all of them when unthrottled,
    /// otherwise as many as fit below the write limit, and 0 at the limit.
    pub fn writable_len(&mut self, max_write_ahead_bytes: Option<u64>, writer_position: u64, buf_len: usize) -> (res: usize)
        requires
            old(self).wf(),
        ensures
            final(self).wf(),
            final(self).same_but_escape(old(self)),
            res == old(self).writable(max_write_ahead_bytes, writer_position, buf_len),
            final(self).seek_escape_budget_end == old(self).escape_after_limit(
                max_write_ahead_bytes,
                writer_position,
            ),
            res <= buf_len,
            max_write_ahead_bytes is Some ==> writer_position + res <= old(self).limit_for(
                max_write_ahead_bytes,
                writer_position,
            ) || res == 0,
    {
        if max_write_ahead_bytes.is_none() {
            return buf_len;
        }
        let allowed = self.allowed_write_until(max_write_ahead_bytes, writer_position);
        if writer_position >= allowed {
            return 0;
        }
        let remaining = allowed - writer_position;
        if (buf_len as u64) <= remaining {
            buf_len
        } else {
            remaining as usize
        }
    }

    /// The writer was moved to `position` by a seek of the download task:
    /// the escape has served its purpose and is cleared, and the throttle is
    /// anchored at the further of the reader and the new writer position.
    pub fn on_writer_seek(&mut self, position: u64)
        requires
            old(self).wf(),
        ensures
            final(self).wf(),
            final(self).seek_escape_budget_end is None,
            final(self).writer_position == position,
            final(self).throttle_anchor_position == max_u64(old(self).reader_position, position),
            final(self).reader_position == old(self).reader_position,
            final(self).written_ranges@ == old(self).written_ranges@,
            final(self).budget_bytes == old(self).budget_bytes,
            forall|m: u64, n: usize|
                old(self).reader_position <= position && position + m <= u64::MAX ==> (
                #[trigger] final(self).writable(Some(m), position, n) == if n <= m {
                    n
                } else {
                    m as usize
                }),
    {
        self.seek_escape_budget_end = None;
        self.writer_position = position;
        self.throttle_anchor_position = if self.reader_position >= position {
            self.reader_position
        } else {
            position
        };
    }

    /// The writer wrote `[start, end)`: the writer now stands at `end` and the
    /// range is on disk.  An empty range changes nothing.
    pub fn record_write(&mut self, start: u64, end: u64)
        requires
            old(self).wf(),
        ensures
            final(self).wf(),
            end <= start ==> final(self).written_ranges@ == old(self).written_ranges@
                && final(self).writer_position == old(self).writer_position,
            start < end ==> final(self).writer_position == end,
            final(self).on_disk(start as int, end as int),
            forall|a: int, b: int|
                old(self).on_disk(a, b) ==> #[trigger] final(self).on_disk(a, b),
            forall|x: int|
                #[trigger] covers_point(final(self).written_ranges@, x) == (covers_point(
                    old(self).written_ranges@,
                    x,
                ) || (start <= x && x < end)),
            final(self).reader_position == old(self).reader_position,
            final(self).throttle_anchor_position == old(self).throttle_anchor_position,
            final(self).budget_bytes == old(self).budget_bytes,
            final(self).seek_escape_budget_end == old(self).seek_escape_budget_end,
    {
        if end <= start {
            return;
        }
        self.writer_position = end;
        insert_written_range(&mut self.written_ranges, start, end);
    }

    /// The reader moved to `position` (by a read or a seek): the throttle is
    /// anchored there too.
    pub fn update_reader_position(&mut self, position: u64)
        requires
            old(self).wf(),
        ensures
            final(self).wf(),
            final(self).reader_position == position,
            final(self).throttle_anchor_position == position,
            final(self).writer_position == old(self).writer_position,
            final(self).written_ranges@ == old(self).written_ranges@,
            final(self).budget_bytes == old(self).budget_bytes,
            final(self).seek_escape_budget_end == old(self).seek_escape_budget_end,
    {
        self.reader_position = position;
        self.throttle_anchor_position = position;
    }

    /// The end of the bytes a read of `buf_len` bytes at the reader needs,
    /// capped at the length when it is known.
    pub open spec fn need_end(&self, len: Option<u64>, buf_len: usize) -> int {
        let want = self.reader_position + buf_len;
        match len {
            Some(l) => if want <= l {
                want
            } else {
                l as int
            },
            None => want,
        }
    }

    /// What a read of `buf_len` bytes (`buf_len > 0`) from a cache file of
    /// length `len` must do first.
    pub open spec fn spec_read_gate(&self, len: Option<u64>, buf_len: usize) -> ReadGate {
        match len {
            None => ReadGate::Unbounded,
            Some(l) => if self.reader_position >= l {
                ReadGate::EndOfStream
            } else if !self.on_disk(self.reader_position as int, self.need_end(len, buf_len))
                && self.reader_position < self.writer_position {
                ReadGate::AwaitBackfill
            } else {
                ReadGate::Read
            },
        }
    }

    /// What a read of `buf_len` bytes must do first: a hole behind the writer
    /// must be filled in before it is read, so that no unwritten bytes are
    /// handed out.
    pub fn read_gate(&self, len: Option<u64>, buf_len: usize) -> (res: ReadGate)
        requires
            self.wf(),
        ensures
            res == self.spec_read_gate(len, buf_len),
    {
        let l = match len {
            None => {
                return ReadGate::Unbounded;
            },
            Some(l) => l,
        };
        let pos = self.reader_position;
        if pos >= l {
            return ReadGate::EndOfStream;
        }
        let need_end = if (buf_len as u64) <= l - pos {
            pos + buf_len as u64
        } else {
            l
        };
        let covers = self.covers(pos, need_end);
        if !covers && pos < self.writer_position {
            ReadGate::AwaitBackfill
        } else {
            ReadGate::Read
        }
    }

    /// While waiting for a hole to be filled: whether the bytes that a read
    /// of `buf_len` bytes at the reader needs are now on disk.
    pub fn backfilled(&self, len: Option<u64>, buf_len: usize) -> (res: bool)
        requires
            self.wf(),
            self.reader_position + buf_len <= u64::MAX,
        ensures
            res == self.on_disk(self.reader_position as int, self.need_end(len, buf_len)),
    {
        let pos = self.reader_position;
        let want = pos + buf_len as u64;
        let need_end = match len {
            Some(l) => if want <= l {
                want
            } else {
                l
            },
            None => want,
        };
        self.covers(pos, need_end)
    }
}

} // verus!
