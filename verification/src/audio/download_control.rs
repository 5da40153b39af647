//! Control of a background song download that follows playback: the
//! playback position it should keep ahead of, cancellation, completion, and
//! a version that tells a waiting driver that something changed.

use vstd::prelude::*;

use crate::audio::seek::{playback_position_to_byte, spec_playback_position_to_byte};

verus! {

/// `v + 1`, wrapping to 0 after `u64::MAX`.
pub open spec fn next_version(v: u64) -> u64 {
    if v == u64::MAX {
        0
    } else {
        (v + 1) as u64
    }
}

/// The state of one background song download.
#[derive(Clone, Copy, Debug, PartialEq, Eq, Structural)]
pub struct SongCacheDownloadControl {
    pub playback_position_ms: u64,
    pub version: u64,
    pub cancelled: bool,
    pub finished: bool,
}

/// What the download driver does after it was woken.
#[derive(Clone, Copy, Debug, PartialEq, Eq, Structural)]
pub enum DriveStep {
    /// The download was cancelled: stop driving it.
    Stop,
    /// The position maps to no byte: wait for the next change.
    Wait,
    /// Seek the download to this byte, so that it keeps ahead of playback.
    SeekTo(u64),
}

fn bump(v: u64) -> (res: u64)
    ensures
        res == next_version(v),
{
    if v == u64::MAX {
        0
    } else {
        v + 1
    }
}

impl SongCacheDownloadControl {
    /// Whether a driver that last saw `version` has something new to see:
    /// the download was cancelled or the version moved on.
    pub open spec fn spec_changed_since(self, version: u64) -> bool {
        self.cancelled || self.version != version
    }

    /// A fresh control: position 0, version 0, neither cancelled nor
    /// finished.
    pub fn new() -> (res: SongCacheDownloadControl)
        ensures
            res == (SongCacheDownloadControl {
                playback_position_ms: 0,
                version: 0,
                cancelled: false,
                finished: false,
            }),
    {
        SongCacheDownloadControl { playback_position_ms: 0, version: 0, cancelled: false, finished: false }
    }

    /// Playback moved to `playback_position_ms`.  A cancelled download, or an
    /// unchanged position, is left alone; otherwise the position is stored
    /// and the version moves on.  Returns whether waiters must be woken.
    pub fn update_playback_position(&mut self, playback_position_ms: u64) -> (res: bool)
        ensures
            res == (!old(self).cancelled && old(self).playback_position_ms != playback_position_ms),
            !res ==> *final(self) == *old(self),
            res ==> *final(self) == (SongCacheDownloadControl {
                playback_position_ms,
                version: next_version(old(self).version),
                ..*old(self)
            }),
    {
        if self.cancelled || self.playback_position_ms == playback_position_ms {
            return false;
        }
        self.playback_position_ms = playback_position_ms;
        self.version = bump(self.version);
        true
    }

    /// Cancels the download; the version moves on so that waiters wake.
    pub fn cancel(&mut self)
        ensures
            *final(self) == (SongCacheDownloadControl {
                cancelled: true,
                version: next_version(old(self).version),
                ..*old(self)
            }),
    {
        self.cancelled = true;
        self.version = bump(self.version);
    }

    /// Wakes waiters without any other change.
    pub fn wake(&mut self)
        ensures
            *final(self) == (SongCacheDownloadControl {
                version: next_version(old(self).version),
                ..*old(self)
            }),
    {
        self.version = bump(self.version);
    }

    /// Marks the download finished; the version moves on.
    pub fn finish(&mut self)
        ensures
            *final(self) == (SongCacheDownloadControl {
                finished: true,
                version: next_version(old(self).version),
                ..*old(self)
            }),
    {
        self.finished = true;
        self.version = bump(self.version);
    }

    /// Whether the download was cancelled.
    pub fn is_cancelled(&self) -> (res: bool)
        ensures
            res == self.cancelled,
    {
        self.cancelled
    }

    /// Whether a canceller attached now must be run at once.
    pub fn cancels_on_attach(&self) -> (res: bool)
        ensures
            res == self.cancelled,
    {
        self.cancelled
    }

    /// Whether a driver that last saw `version` may stop waiting.
    pub fn changed_since(&self, version: u64) -> (res: bool)
        ensures
            res == self.spec_changed_since(version),
    {
        self.cancelled || self.version != version
    }

    /// What the driver does once woken, for a download of `content_length`
    /// bytes of a song of `duration_ms`: stop when cancelled, otherwise seek
    /// to the byte of the playback position, or wait when there is none.
    pub fn drive_step(&self, content_length: Option<u64>, duration_ms: Option<u64>) -> (res: DriveStep)
        ensures
            self.cancelled ==> res == DriveStep::Stop,
            !self.cancelled ==> res == (match spec_playback_position_to_byte(
                content_length,
                duration_ms,
                self.playback_position_ms,
            ) {
                Some(b) => DriveStep::SeekTo(b),
                None => DriveStep::Wait,
            }),
    {
        if self.cancelled {
            return DriveStep::Stop;
        }
        match playback_position_to_byte(content_length, duration_ms, self.playback_position_ms) {
            Some(b) => DriveStep::SeekTo(b),
            None => DriveStep::Wait,
        }
    }
}

/// Law: every change a waiter must see wakes it.  After a position update
/// that was taken, a cancel, a wake or a finish, a driver that last saw the
/// version from before no longer waits.
pub proof fn law_changes_wake_waiters(c: SongCacheDownloadControl, pos: u64)
    ensures
        (SongCacheDownloadControl { cancelled: true, version: next_version(c.version), ..c })
            .spec_changed_since(c.version),
        (SongCacheDownloadControl { version: next_version(c.version), ..c }).spec_changed_since(c.version),
        (SongCacheDownloadControl { finished: true, version: next_version(c.version), ..c })
            .spec_changed_since(c.version),
        (SongCacheDownloadControl { playback_position_ms: pos, version: next_version(c.version), ..c })
            .spec_changed_since(c.version),
{
}

/// Law: once cancelled, a download stays cancelled and its driver stops,
/// whatever position updates, wakes or finishes follow.
pub proof fn law_cancel_is_final(c: SongCacheDownloadControl)
    requires
        c.cancelled,
    ensures
        (SongCacheDownloadControl { version: next_version(c.version), ..c }).cancelled,
        (SongCacheDownloadControl { finished: true, version: next_version(c.version), ..c }).cancelled,
        c.spec_changed_since(c.version),
{
}

} // verus!
