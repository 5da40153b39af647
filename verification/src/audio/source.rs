//! The readable source handed to the decoder, and the provider that sets up
//! a streamed cache file with its throttle.

use vstd::prelude::*;

use crate::audio::storage_state::{max_u64, StorageReadState, MIN_ESCAPE_BUDGET_BYTES};

verus! {

/// A readable, seekable stream of known or unknown length, optionally tied
/// to the shared state of a streamed cache file (`S` is the handle through
/// which that state is shared).
pub struct SeekableSource<R, S> {
    pub inner: R,
    pub len: Option<u64>,
    pub storage_state: Option<S>,
}

impl<R, S> SeekableSource<R, S> {
    /// A source over `inner` of length `len`, not tied to a cache file.
    pub fn new(inner: R, len: Option<u64>) -> (res: SeekableSource<R, S>)
        ensures
            res.inner == inner,
            res.len == len,
            res.storage_state is None,
    {
        SeekableSource { inner, len, storage_state: None }
    }

    /// The same source, tied to the shared state of its cache file.
    pub fn with_storage_state(self, storage_state: S) -> (res: SeekableSource<R, S>)
        ensures
            res.inner == self.inner,
            res.len == self.len,
            res.storage_state == Some(storage_state),
    {
        SeekableSource { inner: self.inner, len: self.len, storage_state: Some(storage_state) }
    }
}

/// A copy of the shared state of a cache file.
pub fn copy_state(s: &StorageReadState) -> (res: StorageReadState)
    ensures
        res.reader_position == s.reader_position,
        res.writer_position == s.writer_position,
        res.throttle_anchor_position == s.throttle_anchor_position,
        res.written_ranges@ == s.written_ranges@,
        res.budget_bytes == s.budget_bytes,
        res.seek_escape_budget_end == s.seek_escape_budget_end,
{
    let mut ranges: Vec<(u64, u64)> = Vec::new();
    let mut i: usize = 0;
    while i < s.written_ranges.len()
        invariant
            i <= s.written_ranges@.len(),
            ranges@ == s.written_ranges@.take(i as int),
        decreases s.written_ranges@.len() - i,
    {
        ranges.push(s.written_ranges[i]);
        i = i + 1;
        assert(ranges@ == s.written_ranges@.take(i as int));
    }
    assert(s.written_ranges@.take(i as int) == s.written_ranges@);
    StorageReadState {
        reader_position: s.reader_position,
        writer_position: s.writer_position,
        throttle_anchor_position: s.throttle_anchor_position,
        written_ranges: ranges,
        budget_bytes: s.budget_bytes,
        seek_escape_budget_end: s.seek_escape_budget_end,
    }
}

/// Sets up a streamed cache file at `path`: its write-ahead bound, the
/// callback told of each written range (`C`), and the state its reader and
/// writer will share.
pub struct PersistentFileStorageProvider<C> {
    pub path: String,
    pub max_write_ahead_bytes: Option<u64>,
    pub on_write: Option<C>,
    pub shared: StorageReadState,
}

impl<C> PersistentFileStorageProvider<C> {
    /// The state the reader and writer will start from.
    pub open spec fn state(&self) -> StorageReadState {
        self.shared
    }

    /// A provider for `path` with no write-ahead bound and no callback; the
    /// shared state is fresh.
    pub fn new(path: &str) -> (res: PersistentFileStorageProvider<C>)
        ensures
            res.path@ == path@,
            res.max_write_ahead_bytes is None,
            res.on_write is None,
            res.state().wf(),
            res.state().reader_position == 0,
            res.state().writer_position == 0,
            res.state().throttle_anchor_position == 0,
            res.state().written_ranges@ == Seq::<(u64, u64)>::empty(),
            res.state().budget_bytes == MIN_ESCAPE_BUDGET_BYTES,
            res.state().seek_escape_budget_end is None,
    {
        PersistentFileStorageProvider {
            path: path.to_string(),
            max_write_ahead_bytes: None,
            on_write: None,
            shared: StorageReadState::new(),
        }
    }

    /// The same provider with the write-ahead bound set; the escape budget
    /// is the bound, but at least `MIN_ESCAPE_BUDGET_BYTES`.
    pub fn max_write_ahead_bytes(self, max_write_ahead_bytes: Option<u64>) -> (res: PersistentFileStorageProvider<C>)
        requires
            self.state().wf(),
        ensures
            res.path == self.path,
            res.max_write_ahead_bytes == max_write_ahead_bytes,
            res.on_write == self.on_write,
            res.state().wf(),
            res.state().budget_bytes == (match max_write_ahead_bytes {
                Some(m) => max_u64(m, MIN_ESCAPE_BUDGET_BYTES),
                None => MIN_ESCAPE_BUDGET_BYTES,
            }),
            res.state().reader_position == self.state().reader_position,
            res.state().writer_position == self.state().writer_position,
            res.state().throttle_anchor_position == self.state().throttle_anchor_position,
            res.state().written_ranges@ == self.state().written_ranges@,
            res.state().seek_escape_budget_end == self.state().seek_escape_budget_end,
    {
        let mut shared = self.shared;
        shared.set_write_ahead_budget(max_write_ahead_bytes);
        PersistentFileStorageProvider {
            path: self.path,
            max_write_ahead_bytes,
            on_write: self.on_write,
            shared,
        }
    }

    /// The same provider with `on_write` to be told of each written range.
    pub fn on_write(self, on_write: C) -> (res: PersistentFileStorageProvider<C>)
        ensures
            res.path == self.path,
            res.max_write_ahead_bytes == self.max_write_ahead_bytes,
            res.on_write == Some(on_write),
            res.state() == self.state(),
    {
        PersistentFileStorageProvider {
            path: self.path,
            max_write_ahead_bytes: self.max_write_ahead_bytes,
            on_write: Some(on_write),
            shared: self.shared,
        }
    }

    /// The state the reader and writer of this file start from.
    pub fn shared_state(&self) -> (res: StorageReadState)
        ensures
            res.reader_position == self.state().reader_position,
            res.writer_position == self.state().writer_position,
            res.throttle_anchor_position == self.state().throttle_anchor_position,
            res.written_ranges@ == self.state().written_ranges@,
            res.budget_bytes == self.state().budget_bytes,
            res.seek_escape_budget_end == self.state().seek_escape_budget_end,
    {
        copy_state(&self.shared)
    }
}

} // verus!
