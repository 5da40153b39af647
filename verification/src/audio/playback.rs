//! The playback clock and the state shared by the decoder and the output:
//! progress, the seek hand-over between control and decoder, trimming, and
//! the stop after a failed stream.  Times are nanoseconds on a monotonic
//! clock; durations are nanoseconds.

use vstd::prelude::*;

use crate::audio::seek::NO_TRIM_FRAME;

verus! {

/// Nanoseconds per second.
pub const NANOS_PER_SEC: u64 = 1_000_000_000;

/// The frames played at `sample_rate` during `duration_nanos`, rounded down
/// and capped at `u64::MAX`; 0 when the rate is 0.
pub open spec fn spec_duration_to_frames(duration_nanos: u64, sample_rate: u32) -> u64 {
    if sample_rate == 0 {
        0
    } else {
        let f = (duration_nanos * sample_rate) / (NANOS_PER_SEC as int);
        if f <= u64::MAX {
            f as u64
        } else {
            u64::MAX
        }
    }
}

/// The frames played at `sample_rate` during `duration_nanos` (see
/// `spec_duration_to_frames`).
pub fn duration_to_frames(duration_nanos: u64, sample_rate: u32) -> (res: u64)
    ensures
        res == spec_duration_to_frames(duration_nanos, sample_rate),
{
    if sample_rate == 0 {
        return 0;
    }
    let a: u128 = duration_nanos as u128;
    let b: u128 = sample_rate as u128;
    assert(a * b <= 0xffff_ffff_ffff_ffff * 0xffff_ffff) by (nonlinear_arith)
        requires
            a <= 0xffff_ffff_ffff_ffff,
            b <= 0xffff_ffff,
    ;
    let f = a * b / (NANOS_PER_SEC as u128);
    if f <= 0xffff_ffff_ffff_ffff {
        f as u64
    } else {
        u64::MAX
    }
}

/// Estimates the frame that is audible now from the last report of the
/// output: the frame audible at that report, advanced by the time since,
/// never past the last frame submitted to the device.
#[derive(Clone, Copy, Debug, PartialEq, Eq, Structural)]
pub struct PlaybackClock {
    pub audible_frame_at_update: u64,
    pub submitted_frame: u64,
    pub sample_rate: u32,
    pub updated_at: Option<u64>,
}

/// `a + b`, or `u64::MAX` when that does not fit.
pub open spec fn sat_add_u64(a: u64, b: u64) -> u64 {
    if a + b > u64::MAX {
        u64::MAX
    } else {
        (a + b) as u64
    }
}

impl PlaybackClock {
    /// The clock's estimate at time `now` (see `estimate`).
    pub open spec fn spec_estimate(self, now: u64) -> Option<u64> {
        match self.updated_at {
            None => None,
            Some(at) => if self.sample_rate == 0 {
                Some(self.submitted_frame)
            } else {
                let elapsed = if now >= at {
                    (now - at) as u64
                } else {
                    0
                };
                let advanced = sat_add_u64(
                    self.audible_frame_at_update,
                    spec_duration_to_frames(elapsed, self.sample_rate),
                );
                Some(
                    if advanced <= self.submitted_frame {
                        advanced
                    } else {
                        self.submitted_frame
                    },
                )
            },
        }
    }

    /// A clock with no report yet.
    pub fn new() -> (res: PlaybackClock)
        ensures
            res == (PlaybackClock {
                audible_frame_at_update: 0,
                submitted_frame: 0,
                sample_rate: 0,
                updated_at: None,
            }),
    {
        PlaybackClock { audible_frame_at_update: 0, submitted_frame: 0, sample_rate: 0, updated_at: None }
    }

    /// Restarts the clock at `frame`, with no report yet.
    pub fn reset_to(&mut self, frame: u64, sample_rate: u32)
        ensures
            *final(self) == (PlaybackClock {
                audible_frame_at_update: frame,
                submitted_frame: frame,
                sample_rate,
                updated_at: None,
            }),
    {
        self.audible_frame_at_update = frame;
        self.submitted_frame = frame;
        self.sample_rate = sample_rate;
        self.updated_at = None;
    }

    /// Records a report of the output taken at time `updated_at`.
    pub fn update(&mut self, audible_frame_at_update: u64, submitted_frame: u64, sample_rate: u32, updated_at: u64)
        ensures
            *final(self) == (PlaybackClock {
                audible_frame_at_update,
                submitted_frame,
                sample_rate,
                updated_at: Some(updated_at),
            }),
    {
        self.audible_frame_at_update = audible_frame_at_update;
        self.submitted_frame = submitted_frame;
        self.sample_rate = sample_rate;
        self.updated_at = Some(updated_at);
    }

    /// The frame audible at time `now`; `None` before the first report.  It
    /// never passes the last submitted frame.
    pub fn estimate(&self, now: u64) -> (res: Option<u64>)
        ensures
            res == self.spec_estimate(now),
            res matches Some(f) ==> f <= self.submitted_frame,
    {
        let at = match self.updated_at {
            None => {
                return None;
            },
            Some(at) => at,
        };
        if self.sample_rate == 0 {
            return Some(self.submitted_frame);
        }
        let elapsed = now.saturating_sub(at);
        let frames = duration_to_frames(elapsed, self.sample_rate);
        let advanced = self.audible_frame_at_update.saturating_add(frames);
        Some(
            if advanced <= self.submitted_frame {
                advanced
            } else {
                self.submitted_frame
            },
        )
    }
}

/// The state shared by the control side, the decoder and the output.
#[derive(Clone, Copy, Debug, PartialEq, Eq, Structural)]
pub struct PlaybackState {
    pub is_paused: bool,
    /// The frame progress is anchored at (the last one written to the output
    /// buffer, or a seek target).
    pub current_frame: u64,
    pub playback_clock: PlaybackClock,
    /// Decoded frames before this one are dropped; `NO_TRIM_FRAME`: none.
    pub trim_until_frame: u64,
    pub sample_rate: u32,
    /// A seek was asked for and has not been completed yet.
    pub has_seek_request: bool,
    /// The seek target not yet taken by the decoder, in nanoseconds.
    pub seek_request: Option<u64>,
    pub is_terminating: bool,
    pub discard_buffer: bool,
    pub is_discarding_buffer: bool,
    pub decoder_done: bool,
    pub is_finished: bool,
    pub buffered_frames: u64,
    pub waiting_for_seek: bool,
}

impl PlaybackState {
    /// The state right after `schedule_seek(target_nanos)`.
    pub open spec fn scheduled(self, target_nanos: u64) -> PlaybackState {
        let frame = spec_duration_to_frames(target_nanos, self.sample_rate);
        PlaybackState {
            discard_buffer: true,
            current_frame: frame,
            waiting_for_seek: true,
            has_seek_request: true,
            trim_until_frame: NO_TRIM_FRAME,
            playback_clock: PlaybackClock {
                audible_frame_at_update: frame,
                submitted_frame: frame,
                sample_rate: self.sample_rate,
                updated_at: None,
            },
            seek_request: Some(target_nanos),
            ..self
        }
    }

    /// The state right after a successful `commit_seek_completion_if_current`.
    pub open spec fn committed(self, anchor_frame: u64, trim_until_frame: Option<u64>) -> PlaybackState {
        PlaybackState {
            current_frame: anchor_frame,
            trim_until_frame: match trim_until_frame {
                Some(t) => t,
                None => NO_TRIM_FRAME,
            },
            has_seek_request: false,
            playback_clock: PlaybackClock {
                audible_frame_at_update: anchor_frame,
                submitted_frame: anchor_frame,
                sample_rate: self.sample_rate,
                updated_at: None,
            },
            ..self
        }
    }

    /// The state right after playback stops on a failed stream.
    pub open spec fn failed(self) -> PlaybackState {
        PlaybackState {
            discard_buffer: true,
            waiting_for_seek: false,
            has_seek_request: false,
            buffered_frames: 0,
            current_frame: 0,
            trim_until_frame: NO_TRIM_FRAME,
            playback_clock: PlaybackClock {
                audible_frame_at_update: 0,
                submitted_frame: 0,
                sample_rate: self.sample_rate,
                updated_at: None,
            },
            decoder_done: true,
            is_terminating: true,
            is_finished: true,
            ..self
        }
    }

    /// The progress reported at time `now`: the clock's estimate, or the
    /// anchor frame before the first report, never past the anchor frame.
    pub open spec fn spec_progress_frame(self, now: u64) -> u64 {
        let est = match self.playback_clock.spec_estimate(now) {
            Some(f) => f,
            None => self.current_frame,
        };
        if est <= self.current_frame {
            est
        } else {
            self.current_frame
        }
    }

    /// A state for a stream at `sample_rate`: playing from frame 0, nothing
    /// pending.
    pub fn new(sample_rate: u32) -> (res: PlaybackState)
        ensures
            res == (PlaybackState {
                is_paused: false,
                current_frame: 0,
                playback_clock: PlaybackClock {
                    audible_frame_at_update: 0,
                    submitted_frame: 0,
                    sample_rate: 0,
                    updated_at: None,
                },
                trim_until_frame: NO_TRIM_FRAME,
                sample_rate,
                has_seek_request: false,
                seek_request: None,
                is_terminating: false,
                discard_buffer: false,
                is_discarding_buffer: false,
                decoder_done: false,
                is_finished: false,
                buffered_frames: 0,
                waiting_for_seek: false,
            }),
    {
        PlaybackState {
            is_paused: false,
            current_frame: 0,
            playback_clock: PlaybackClock::new(),
            trim_until_frame: NO_TRIM_FRAME,
            sample_rate,
            has_seek_request: false,
            seek_request: None,
            is_terminating: false,
            discard_buffer: false,
            is_discarding_buffer: false,
            decoder_done: false,
            is_finished: false,
            buffered_frames: 0,
            waiting_for_seek: false,
        }
    }

    /// Asks for a seek to `target_nanos`: progress jumps to the target frame,
    /// the output buffer is to be discarded, any trim is dropped, and the
    /// target waits for the decoder.  A pending target is replaced.
    pub fn schedule_seek(&mut self, target_nanos: u64)
        ensures
            *final(self) == old(self).scheduled(target_nanos),
    {
        let target_frame = duration_to_frames(target_nanos, self.sample_rate);
        self.discard_buffer = true;
        self.current_frame = target_frame;
        self.waiting_for_seek = true;
        self.has_seek_request = true;
        self.trim_until_frame = NO_TRIM_FRAME;
        self.reset_playback_clock(target_frame);
        self.seek_request = Some(target_nanos);
    }

    /// The decoder takes the pending seek target, if any.  The seek stays
    /// marked as requested until it is committed.
    pub fn take_seek_request(&mut self) -> (res: Option<u64>)
        ensures
            res == old(self).seek_request,
            *final(self) == (PlaybackState { seek_request: None, ..*old(self) }),
    {
        let res = self.seek_request;
        self.seek_request = None;
        res
    }

    /// The decoder finished a seek: progress is anchored at `anchor_frame`
    /// and the trim target set, unless a newer seek is pending, in which case
    /// nothing changes and `false` is returned.
    pub fn commit_seek_completion_if_current(&mut self, anchor_frame: u64, trim_until_frame: Option<u64>) -> (res: bool)
        ensures
            res == (old(self).seek_request is None),
            res ==> *final(self) == old(self).committed(anchor_frame, trim_until_frame),
            !res ==> *final(self) == *old(self),
    {
        if self.seek_request.is_none() {
            self.current_frame = anchor_frame;
            self.trim_until_frame = match trim_until_frame {
                Some(t) => t,
                None => NO_TRIM_FRAME,
            };
            self.has_seek_request = false;
            self.reset_playback_clock(anchor_frame);
            true
        } else {
            false
        }
    }

    /// The output reports that the buffer starting at `buffer_start_frame`
    /// is being handed to the device with `output_latency_nanos` of latency,
    /// frames up to `submitted_frame` submitted, at time `now`.
    pub fn update_playback_clock_from_output(
        &mut self,
        buffer_start_frame: u64,
        submitted_frame: u64,
        output_latency_nanos: u64,
        now: u64,
    )
        ensures
            *final(self) == (PlaybackState {
                playback_clock: PlaybackClock {
                    audible_frame_at_update: if buffer_start_frame >= spec_duration_to_frames(
                        output_latency_nanos,
                        old(self).sample_rate,
                    ) {
                        (buffer_start_frame - spec_duration_to_frames(
                            output_latency_nanos,
                            old(self).sample_rate,
                        )) as u64
                    } else {
                        0
                    },
                    submitted_frame,
                    sample_rate: old(self).sample_rate,
                    updated_at: Some(now),
                },
                ..*old(self)
            }),
    {
        let latency_frames = duration_to_frames(output_latency_nanos, self.sample_rate);
        let audible = buffer_start_frame.saturating_sub(latency_frames);
        let sr = self.sample_rate;
        self.playback_clock.update(audible, submitted_frame, sr, now);
    }

    /// The progress frame at time `now`; never past the anchor frame.
    pub fn progress_frame(&self, now: u64) -> (res: u64)
        ensures
            res == self.spec_progress_frame(now),
            res <= self.current_frame,
    {
        let est = match self.playback_clock.estimate(now) {
            Some(f) => f,
            None => self.current_frame,
        };
        if est <= self.current_frame {
            est
        } else {
            self.current_frame
        }
    }

    /// Restarts the clock at `frame`.
    pub fn reset_playback_clock(&mut self, frame: u64)
        ensures
            *final(self) == (PlaybackState {
                playback_clock: PlaybackClock {
                    audible_frame_at_update: frame,
                    submitted_frame: frame,
                    sample_rate: old(self).sample_rate,
                    updated_at: None,
                },
                ..*old(self)
            }),
    {
        let sr = self.sample_rate;
        self.playback_clock.reset_to(frame, sr);
    }

    /// Drops the trim target.
    pub fn clear_trim(&mut self)
        ensures
            *final(self) == (PlaybackState { trim_until_frame: NO_TRIM_FRAME, ..*old(self) }),
    {
        self.trim_until_frame = NO_TRIM_FRAME;
    }

    /// Stops playback after the stream failed: the buffer is discarded, any
    /// seek is dropped, progress returns to 0, and the decoder, the player and
    /// playback are marked done.  Returns whether playback was not finished
    /// before, so that waiters are told exactly once.
    pub fn fail_after_stream_error(&mut self) -> (res: bool)
        ensures
            *final(self) == old(self).failed(),
            res == !old(self).is_finished,
    {
        self.discard_buffer = true;
        self.waiting_for_seek = false;
        self.has_seek_request = false;
        self.buffered_frames = 0;
        self.current_frame = 0;
        self.clear_trim();
        let sr = self.sample_rate;
        self.playback_clock.reset_to(0, sr);
        self.decoder_done = true;
        self.is_terminating = true;
        let was_finished = self.is_finished;
        self.is_finished = true;
        !was_finished
    }
}

/// What the decoder does with decoded samples waiting to be pushed.
#[derive(Clone, Copy, Debug, PartialEq, Eq, Structural)]
pub enum PushStep {
    /// Playback is ending: drop them.
    Stop,
    /// A seek was asked for: drop them, the decoder moves on.
    Abandon,
    /// Paused: the output takes nothing, wait and look again.
    Wait,
    /// Push what fits into the output buffer.
    Push,
}

impl PlaybackState {
    /// Whether the output must play silence now, and the waiting flag after
    /// this look: while waiting (after a seek, or when the buffer ran dry)
    /// playback resumes once a second of audio is buffered
    /// (`sample_rate * channels` samples) or the decoder is done; a dry
    /// buffer of a running decoder starts such a wait; paused output is
    /// silent.
    pub open spec fn spec_output_gate(self, buffered_samples: u64, channels: u64) -> (bool, bool) {
        let ready = buffered_samples >= self.sample_rate * channels || self.decoder_done;
        let waiting = self.waiting_for_seek || (buffered_samples == 0 && !self.decoder_done);
        if waiting && !ready {
            (true, true)
        } else {
            (self.is_paused, false)
        }
    }

    /// One look of the output at the buffer (see `spec_output_gate`):
    /// returns whether to play silence, and updates the waiting flag.
    pub fn output_gate(&mut self, buffered_samples: u64, channels: u64) -> (silent: bool)
        ensures
            silent == old(self).spec_output_gate(buffered_samples, channels).0,
            *final(self) == (PlaybackState {
                waiting_for_seek: old(self).spec_output_gate(buffered_samples, channels).1,
                ..*old(self)
            }),
    {
        let a: u128 = self.sample_rate as u128;
        let b: u128 = channels as u128;
        assert(a * b <= 0xffff_ffff * 0xffff_ffff_ffff_ffff) by (nonlinear_arith)
            requires
                a <= 0xffff_ffff,
                b <= 0xffff_ffff_ffff_ffff,
        ;
        let min_to_resume: u128 = a * b;
        let ready = (buffered_samples as u128) >= min_to_resume || self.decoder_done;
        let waiting = self.waiting_for_seek || (buffered_samples == 0 && !self.decoder_done);
        if waiting && !ready {
            self.waiting_for_seek = true;
            return true;
        }
        self.waiting_for_seek = false;
        self.is_paused
    }

    /// The output handed `samples_read` samples of `channels` channels to the
    /// device: progress advances by the whole frames among them (wrapping
    /// like an atomic counter).  When nothing was left and the decoder is
    /// done, playback finishes; returns whether it just did, so that waiters
    /// are told once.
    pub fn after_output(&mut self, samples_read: u64, channels: u64) -> (finished_now: bool)
        requires
            channels > 0,
        ensures
            samples_read > 0 ==> !finished_now && *final(self) == (PlaybackState {
                current_frame: ((old(self).current_frame + samples_read / channels) % 0x1_0000_0000_0000_0000) as u64,
                ..*old(self)
            }),
            samples_read == 0 ==> finished_now == (old(self).decoder_done && !old(self).is_finished),
            samples_read == 0 && finished_now ==> *final(self) == (PlaybackState { is_finished: true, ..*old(self) }),
            samples_read == 0 && !finished_now ==> *final(self) == *old(self),
    {
        if samples_read > 0 {
            let frames = samples_read / channels;
            self.current_frame = self.current_frame.wrapping_add(frames);
            return false;
        }
        if self.decoder_done && !self.is_finished {
            self.is_finished = true;
            return true;
        }
        false
    }

    /// Takes a pending request to discard the output buffer.
    pub fn take_discard_request(&mut self) -> (res: bool)
        ensures
            res == old(self).discard_buffer,
            *final(self) == (PlaybackState { discard_buffer: false, ..*old(self) }),
    {
        let res = self.discard_buffer;
        self.discard_buffer = false;
        res
    }

    /// What the decoder does with decoded samples (see `PushStep`).
    pub fn push_step(&self) -> (res: PushStep)
        ensures
            res == (if self.is_terminating {
                PushStep::Stop
            } else if self.has_seek_request {
                PushStep::Abandon
            } else if self.is_paused {
                PushStep::Wait
            } else {
                PushStep::Push
            }),
    {
        if self.is_terminating {
            PushStep::Stop
        } else if self.has_seek_request {
            PushStep::Abandon
        } else if self.is_paused {
            PushStep::Wait
        } else {
            PushStep::Push
        }
    }

    /// Whether the decoder must still wait before writing post-seek audio:
    /// the old audio is still to be discarded or being discarded, and
    /// playback is not ending.
    pub fn discard_pending(&self) -> (res: bool)
        ensures
            res == ((self.discard_buffer || self.is_discarding_buffer) && !self.is_terminating),
    {
        (self.discard_buffer || self.is_discarding_buffer) && !self.is_terminating
    }
}

/// Whether a decoded stream's signal can be played: a positive rate and at
/// least one channel.
pub fn valid_stream_spec(sample_rate: u32, channels: u16) -> (res: bool)
    ensures
        res == (sample_rate > 0 && channels > 0),
{
    sample_rate > 0 && channels > 0
}

/// The playing time of `frames` frames at `sample_rate`, in nanoseconds,
/// rounded down and capped at `u64::MAX`; 0 when the rate is 0.
pub open spec fn spec_frames_to_nanos(frames: u64, sample_rate: u32) -> u64 {
    if sample_rate == 0 {
        0
    } else {
        let n = (frames * NANOS_PER_SEC) / (sample_rate as int);
        if n <= u64::MAX {
            n as u64
        } else {
            u64::MAX
        }
    }
}

/// The playing time of `frames` frames (see `spec_frames_to_nanos`).
pub fn frames_to_nanos(frames: u64, sample_rate: u32) -> (res: u64)
    ensures
        res == spec_frames_to_nanos(frames, sample_rate),
{
    if sample_rate == 0 {
        return 0;
    }
    let a: u128 = frames as u128;
    assert(a * 1_000_000_000 <= 0xffff_ffff_ffff_ffff * 1_000_000_000) by (nonlinear_arith)
        requires
            a <= 0xffff_ffff_ffff_ffff,
    ;
    let n = a * 1_000_000_000 / (sample_rate as u128);
    if n <= 0xffff_ffff_ffff_ffff {
        n as u64
    } else {
        u64::MAX
    }
}

/// Where a newly started stream must seek to: the start position, unless
/// it is absent or zero, in which case playback starts at the beginning
/// and the first seconds are decoded ahead.
pub fn start_seek_target(start_nanos: Option<u64>) -> (res: Option<u64>)
    ensures
        res == (match start_nanos {
            Some(t) => if t > 0 {
                Some(t)
            } else {
                None
            },
            None => None,
        }),
{
    match start_nanos {
        Some(t) => if t > 0 {
            Some(t)
        } else {
            None
        },
        None => None,
    }
}

/// Law: a scheduled seek is handed to the decoder exactly once.  Right after
/// `schedule_seek(t)` the decoder takes `t`; a second take finds nothing,
/// while the seek stays marked as requested until it is committed.
pub proof fn law_scheduled_seek_taken_once(s: PlaybackState, t: u64)
    ensures
        s.scheduled(t).seek_request == Some(t),
        (PlaybackState { seek_request: None, ..s.scheduled(t) }).seek_request is None,
        (PlaybackState { seek_request: None, ..s.scheduled(t) }).has_seek_request,
{
}

/// Law: a seek completion never overwrites a newer seek.  When a target was
/// scheduled after the decoder took the previous one, committing the old
/// completion is refused and leaves the newer target's progress in place;
/// once that target is taken, its completion commits.
pub proof fn law_stale_completion_refused(s: PlaybackState, t: u64, anchor: u64, trim: Option<u64>)
    ensures
        s.scheduled(t).seek_request is Some,
        s.scheduled(t).current_frame == spec_duration_to_frames(t, s.sample_rate),
        (PlaybackState { seek_request: None, ..s.scheduled(t) }).committed(anchor, trim).current_frame
            == anchor,
        !(PlaybackState { seek_request: None, ..s.scheduled(t) }).committed(anchor, trim).has_seek_request,
{
}

/// Law: the reported progress never passes the frame progress is anchored
/// at, and the clock never passes the last submitted frame, whatever the
/// time.
pub proof fn law_progress_bounded(s: PlaybackState, now: u64)
    ensures
        s.spec_progress_frame(now) <= s.current_frame,
        s.playback_clock.spec_estimate(now) matches Some(f) ==> f <= s.playback_clock.submitted_frame,
{
}

} // verus!
