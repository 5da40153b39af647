//! Decisions of the player worker.  The worker runs commands against the
//! audio backend; what the host sees (status, progress, buffering) and
//! what is playing change here, as a function of the command and of what
//! the backend reported.

use vstd::prelude::*;

use crate::audio::devices::OutputDeviceInfo;
use crate::player::types::PlaybackStatus;
use crate::text::{string_of, trim, trim_chars, chars_of};

verus! {

/// What the host sees of the player, and what is playing (`S`).
#[derive(Clone, Debug)]
pub struct WorkerState<S> {
    pub status: PlaybackStatus,
    pub progress_ms: u32,
    pub buffering: bool,
    pub current_source: Option<S>,
}

/// How to carry playback over to another output device.
#[derive(Clone, Copy, Debug, PartialEq, Eq, Structural)]
pub struct SwitchPlan {
    /// Whether the current source is started again on the new device.
    pub restart_source: bool,
    /// Whether to start it at the current progress (else: nothing plays).
    pub resume_at_progress: bool,
    /// Whether the new device must be paused after starting.
    pub pause_after_start: bool,
}

impl<S: Clone> WorkerState<S> {
    /// The state after a reset: stopped at 0, not buffering.
    pub open spec fn is_reset_of(self, other: Self) -> bool {
        &&& self.status == PlaybackStatus::Stopped
        &&& self.progress_ms == 0
        &&& !self.buffering
        &&& self.current_source == other.current_source
    }

    /// A worker that has played nothing.
    pub fn new() -> (res: WorkerState<S>)
        ensures
            res.status == PlaybackStatus::Stopped,
            res.progress_ms == 0,
            !res.buffering,
            res.current_source is None,
    {
        WorkerState { status: PlaybackStatus::Stopped, progress_ms: 0, buffering: false, current_source: None }
    }

    /// Playback was paused.
    pub fn on_pause(&mut self)
        ensures
            final(self).status == PlaybackStatus::Paused,
            final(self).progress_ms == old(self).progress_ms,
            final(self).buffering == old(self).buffering,
            final(self).current_source == old(self).current_source,
    {
        self.status = PlaybackStatus::Paused;
    }

    /// Playback was resumed.
    pub fn on_resume(&mut self)
        ensures
            final(self).status == PlaybackStatus::Playing,
            final(self).progress_ms == old(self).progress_ms,
            final(self).buffering == old(self).buffering,
            final(self).current_source == old(self).current_source,
    {
        self.status = PlaybackStatus::Playing;
    }

    /// Playback was stopped: nothing plays, and the state is reset.
    pub fn on_stop(&mut self)
        ensures
            final(self).status == PlaybackStatus::Stopped,
            final(self).progress_ms == 0,
            !final(self).buffering,
            final(self).current_source is None,
    {
        self.current_source = None;
        self.status = PlaybackStatus::Stopped;
        self.progress_ms = 0;
        self.buffering = false;
    }

    /// A seek was sent to the backend: the player buffers until it lands.
    pub fn on_seek(&mut self)
        ensures
            final(self).buffering,
            final(self).status == old(self).status,
            final(self).progress_ms == old(self).progress_ms,
            final(self).current_source == old(self).current_source,
    {
        self.buffering = true;
    }

    /// A source is about to be started at `start_ms`: progress shows the
    /// start, and the player buffers.
    pub fn begin_play(&mut self, start_ms: u32)
        ensures
            final(self).progress_ms == start_ms,
            final(self).buffering,
            final(self).status == old(self).status,
            final(self).current_source == old(self).current_source,
    {
        self.progress_ms = start_ms;
        self.buffering = true;
    }

    /// The backend answered the start of `source`: on success it is what
    /// plays and the player is playing; on failure nothing plays and the
    /// state is reset.
    pub fn finish_play(&mut self, source: S, started: bool)
        ensures
            started ==> final(self).current_source == Some(source) && final(self).status
                == PlaybackStatus::Playing && final(self).progress_ms == old(self).progress_ms
                && final(self).buffering == old(self).buffering,
            !started ==> final(self).current_source is None && final(self).status
                == PlaybackStatus::Stopped && final(self).progress_ms == 0 && !final(self).buffering,
    {
        if started {
            self.current_source = Some(source);
            self.status = PlaybackStatus::Playing;
        } else {
            self.on_stop();
        }
    }

    /// A periodic look at the backend, which reports its progress, whether
    /// it buffers and whether it finished.  A stopped player is left alone.
    /// Otherwise progress and buffering follow the backend, and a playing
    /// player whose backend finished stops, with nothing playing.
    pub fn tick(&mut self, progress_ms: u32, backend_buffering: bool, backend_finished: bool)
        ensures
            old(self).status == PlaybackStatus::Stopped ==> final(self).status == old(self).status
                && final(self).progress_ms == old(self).progress_ms && final(self).buffering
                == old(self).buffering && final(self).current_source == old(self).current_source,
            old(self).status != PlaybackStatus::Stopped ==> final(self).progress_ms == progress_ms,
            old(self).status == PlaybackStatus::Playing && backend_finished ==> final(self).status
                == PlaybackStatus::Stopped && !final(self).buffering && final(self).current_source is None,
            old(self).status != PlaybackStatus::Stopped && !(old(self).status == PlaybackStatus::Playing
                && backend_finished) ==> final(self).status == old(self).status && final(self).buffering
                == backend_buffering && final(self).current_source == old(self).current_source,
    {
        if self.status == PlaybackStatus::Stopped {
            return;
        }
        self.progress_ms = progress_ms;
        self.buffering = backend_buffering;
        if self.status == PlaybackStatus::Playing && backend_finished {
            self.current_source = None;
            self.status = PlaybackStatus::Stopped;
            self.buffering = false;
        }
    }

    /// How to carry playback over to another device: the current source is
    /// started again, at the current progress unless stopped, and paused
    /// again when it was paused.
    pub fn switch_plan(&self) -> (res: SwitchPlan)
        ensures
            res.restart_source == self.current_source is Some,
            res.resume_at_progress == (self.status != PlaybackStatus::Stopped),
            res.pause_after_start == (self.status == PlaybackStatus::Paused),
    {
        SwitchPlan {
            restart_source: self.current_source.is_some(),
            resume_at_progress: self.status != PlaybackStatus::Stopped,
            pause_after_start: self.status == PlaybackStatus::Paused,
        }
    }

    /// The new device took over: progress shows where playback resumed, if
    /// it did, and buffering follows the new backend; status and source stay.
    pub fn finish_switch(&mut self, resumed_at_ms: Option<u32>, backend_buffering: bool)
        ensures
            final(self).progress_ms == (match resumed_at_ms {
                Some(p) => p,
                None => old(self).progress_ms,
            }),
            final(self).buffering == backend_buffering,
            final(self).status == old(self).status,
            final(self).current_source == old(self).current_source,
    {
        if let Some(p) = resumed_at_ms {
            self.progress_ms = p;
        }
        self.buffering = backend_buffering;
    }
}

/// A device name as the host gave it, trimmed; `None` for no name or a
/// blank one.
pub open spec fn spec_normalize_device_name(name: Option<Seq<char>>) -> Option<Seq<char>> {
    match name {
        Some(n) => if trim(n).len() == 0 {
            None
        } else {
            Some(trim(n))
        },
        None => None,
    }
}

/// A device name as the host gave it, trimmed (see
/// `spec_normalize_device_name`).
pub fn normalize_device_name(device_name: Option<String>) -> (res: Option<String>)
    ensures
        res is Some == spec_normalize_device_name(match device_name {
            Some(n) => Some(n@),
            None => None,
        }) is Some,
        res matches Some(r) ==> spec_normalize_device_name(match device_name {
            Some(n) => Some(n@),
            None => None,
        }) == Some(r@),
{
    match device_name {
        Some(name) => {
            let t = trim_chars(&chars_of(name.as_str()));
            if t.len() == 0 {
                None
            } else {
                Some(string_of(&t))
            }
        },
        None => None,
    }
}

/// `i` is the first device of `devs` marked current.
pub open spec fn first_current_at(devs: Seq<OutputDeviceInfo>, i: int) -> bool {
    0 <= i < devs.len() && devs[i].is_current && forall|j: int| 0 <= j < i ==> !devs[j].is_current
}

/// Whether the requested device already plays: the first current device
/// has the requested id or name, or, when no device is requested, it is
/// the default device; never when no device is current.
pub open spec fn spec_device_already_active(device_name: Option<Seq<char>>, devs: Seq<OutputDeviceInfo>) -> bool {
    if exists|i: int| first_current_at(devs, i) {
        let c = devs[choose|i: int| first_current_at(devs, i)];
        match device_name {
            Some(t) => c.id@ == t || c.name@ == t,
            None => c.is_default,
        }
    } else {
        false
    }
}

/// Whether the requested device already plays (see
/// `spec_device_already_active`).
pub fn is_requested_output_device_already_active(device_name: Option<&str>, devices: &Vec<OutputDeviceInfo>) -> (res: bool)
    ensures
        res == spec_device_already_active(
            match device_name {
                Some(n) => Some(n@),
                None => None,
            },
            devices@,
        ),
{
    let mut i: usize = 0;
    while i < devices.len()
        invariant
            i <= devices@.len(),
            forall|j: int| 0 <= j < i ==> !devices@[j].is_current,
        decreases devices@.len() - i,
    {
        if devices[i].is_current {
            proof {
                assert(first_current_at(devices@, i as int));
                let k = choose|k: int| first_current_at(devices@, k);
                assert(first_current_at(devices@, k));
                if k < i {
                    assert(!devices@[k].is_current);
                }
                if k > i {
                    assert(devices@[i as int].is_current);
                }
            }
            let c = &devices[i];
            return match device_name {
                Some(t) => {
                    let tc = chars_of(t);
                    crate::text::chars_eq(&chars_of(c.id.as_str()), &tc) || crate::text::chars_eq(&chars_of(c.name.as_str()), &tc)
                },
                None => c.is_default,
            };
        }
        i = i + 1;
    }
    false
}

} // verus!
