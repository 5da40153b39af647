//! Frame arithmetic of seeking and streaming: converting container
//! timestamps to sample frames, deciding where progress is anchored after a
//! seek and which decoded frames are trimmed, and sizing prefetch and
//! output buffers.

use vstd::prelude::*;

use crate::text::{chars_of, contains_chars, contains_sub};

verus! {

/// The trim target meaning "nothing to trim".
pub const NO_TRIM_FRAME: u64 = 0xffff_ffff_ffff_ffff;

/// Seconds of audio held by the output ring buffer.
pub const OUTPUT_BUFFER_SECONDS: u64 = 6;

/// Seconds of audio decoded before output starts.
pub const INITIAL_PREDECODE_SECONDS: u64 = 2;

/// A container time base: one tick lasts `numer / denom` seconds.
#[derive(Clone, Copy, Debug, PartialEq, Eq, Structural)]
pub struct TimeBase {
    pub numer: u32,
    pub denom: u32,
}

/// Where a seek of the demuxer landed: the track, and the requested and the
/// actual timestamp in that track's time base.
#[derive(Clone, Copy, Debug, PartialEq, Eq, Structural)]
pub struct SeekedTo {
    pub track_id: u32,
    pub required_ts: u64,
    pub actual_ts: u64,
}

/// Where progress stands after a seek, and up to which frame decoded audio
/// is dropped.
#[derive(Clone, Copy, Debug, PartialEq, Eq, Structural)]
pub struct SeekCompletionPlan {
    pub anchor_frame: u64,
    pub trim_until_frame: Option<u64>,
    pub actual_frame: Option<u64>,
}

/// How a decoded packet is cut against the trim target: frames skipped at
/// its start, frames kept after them, and whether the trim is now done.
#[derive(Clone, Copy, Debug, PartialEq, Eq, Structural)]
pub struct SeekPacketTrim {
    pub skip_frames: usize,
    pub keep_frames: usize,
    pub clear_trim: bool,
}

/// The sample frame of timestamp `ts`: `ts * numer * sample_rate / denom`,
/// rounded down; `None` without a usable time base or when it exceeds `u64`.
pub open spec fn spec_timestamp_to_frame(ts: u64, sample_rate: u32, time_base: Option<TimeBase>) -> Option<u64> {
    match time_base {
        None => None,
        Some(tb) => if tb.numer == 0 || tb.denom == 0 {
            None
        } else {
            let frames = (ts * tb.numer * sample_rate) / (tb.denom as int);
            if frames <= u64::MAX {
                Some(frames as u64)
            } else {
                None
            }
        },
    }
}

/// The sample frame of timestamp `ts` (see `spec_timestamp_to_frame`).
pub fn timestamp_to_frame(ts: u64, sample_rate: u32, time_base: Option<TimeBase>) -> (res: Option<u64>)
    ensures
        res == spec_timestamp_to_frame(ts, sample_rate, time_base),
{
    let tb = match time_base {
        None => {
            return None;
        },
        Some(tb) => tb,
    };
    if tb.numer == 0 || tb.denom == 0 {
        return None;
    }
    let a: u128 = ts as u128;
    let b: u128 = tb.numer as u128;
    let c: u128 = sample_rate as u128;
    assert(a * b <= 0xffff_ffff_ffff_ffff * 0xffff_ffff) by (nonlinear_arith)
        requires
            a <= 0xffff_ffff_ffff_ffff,
            b <= 0xffff_ffff,
    ;
    let ab = a * b;
    assert(ab * c <= 0xffff_ffff_ffff_ffff * 0xffff_ffff * 0xffff_ffff) by (nonlinear_arith)
        requires
            ab <= 0xffff_ffff_ffff_ffff * 0xffff_ffff,
            c <= 0xffff_ffff,
    ;
    let frames = ab * c / (tb.denom as u128);
    if frames <= 0xffff_ffff_ffff_ffff {
        Some(frames as u64)
    } else {
        None
    }
}

/// The frame a seek actually landed on, when it can be used for trimming:
/// the seek succeeded on the expected track, its timestamp maps to a frame,
/// and that frame is not past the requested one.
pub open spec fn spec_seek_actual_frame(
    seeked: Option<SeekedTo>,
    requested_frame: u64,
    sample_rate: u32,
    time_base: Option<TimeBase>,
    expected_track_id: u32,
) -> Option<u64> {
    match seeked {
        None => None,
        Some(s) => if s.track_id != expected_track_id {
            None
        } else {
            match spec_timestamp_to_frame(s.actual_ts, sample_rate, time_base) {
                None => None,
                Some(actual) => if actual <= requested_frame {
                    Some(actual)
                } else {
                    None
                },
            }
        },
    }
}

/// The usable landing frame of a seek (see `spec_seek_actual_frame`);
/// `seeked` is `None` when the seek failed.
pub fn seek_actual_frame(
    seeked: Option<SeekedTo>,
    requested_frame: u64,
    sample_rate: u32,
    time_base: Option<TimeBase>,
    expected_track_id: u32,
) -> (res: Option<u64>)
    ensures
        res == spec_seek_actual_frame(seeked, requested_frame, sample_rate, time_base, expected_track_id),
{
    match seeked {
        None => None,
        Some(s) => {
            if s.track_id != expected_track_id {
                return None;
            }
            match timestamp_to_frame(s.actual_ts, sample_rate, time_base) {
                None => None,
                Some(actual) => if actual <= requested_frame {
                    Some(actual)
                } else {
                    None
                },
            }
        },
    }
}

/// After a seek, progress is anchored at the requested frame; when the seek
/// landed before it, decoded audio up to the requested frame is trimmed.
pub fn seek_completion_plan(
    seeked: Option<SeekedTo>,
    requested_frame: u64,
    sample_rate: u32,
    time_base: Option<TimeBase>,
    expected_track_id: u32,
) -> (res: SeekCompletionPlan)
    ensures
        res.anchor_frame == requested_frame,
        res.actual_frame == spec_seek_actual_frame(
            seeked,
            requested_frame,
            sample_rate,
            time_base,
            expected_track_id,
        ),
        res.trim_until_frame == (match res.actual_frame {
            Some(a) => if a < requested_frame {
                Some(requested_frame)
            } else {
                None
            },
            None => None,
        }),
{
    let actual_frame = seek_actual_frame(seeked, requested_frame, sample_rate, time_base, expected_track_id);
    let trim_until_frame = match actual_frame {
        Some(a) => if a < requested_frame {
            Some(requested_frame)
        } else {
            None
        },
        None => None,
    };
    SeekCompletionPlan { anchor_frame: requested_frame, trim_until_frame, actual_frame }
}

/// How a decoded packet of `packet_frames` frames starting at
/// `packet_start_frame` is cut against `trim_until_frame`.
pub open spec fn spec_seek_packet_trim(
    packet_start_frame: Option<u64>,
    packet_frames: usize,
    trim_until_frame: u64,
) -> SeekPacketTrim {
    if trim_until_frame == NO_TRIM_FRAME {
        SeekPacketTrim { skip_frames: 0, keep_frames: packet_frames, clear_trim: false }
    } else {
        match packet_start_frame {
            None => SeekPacketTrim { skip_frames: packet_frames, keep_frames: 0, clear_trim: false },
            Some(start) => if start + packet_frames <= trim_until_frame {
                SeekPacketTrim { skip_frames: packet_frames, keep_frames: 0, clear_trim: false }
            } else {
                let skip: int = if trim_until_frame <= start {
                    0
                } else {
                    trim_until_frame - start
                };
                SeekPacketTrim {
                    skip_frames: skip as usize,
                    keep_frames: (packet_frames - skip) as usize,
                    clear_trim: true,
                }
            },
        }
    }
}

/// How a decoded packet is cut against the trim target: with no target all
/// of it is kept; a packet of unknown position, or one that ends at or
/// before the target, is dropped whole; otherwise the frames before the
/// target are skipped, the rest kept, and the trim is done.
pub fn seek_packet_trim(packet_start_frame: Option<u64>, packet_frames: usize, trim_until_frame: u64) -> (res: SeekPacketTrim)
    ensures
        res == spec_seek_packet_trim(packet_start_frame, packet_frames, trim_until_frame),
        res.skip_frames + res.keep_frames == packet_frames,
{
    if trim_until_frame == NO_TRIM_FRAME {
        return SeekPacketTrim { skip_frames: 0, keep_frames: packet_frames, clear_trim: false };
    }
    let start = match packet_start_frame {
        None => {
            return SeekPacketTrim { skip_frames: packet_frames, keep_frames: 0, clear_trim: false };
        },
        Some(s) => s,
    };
    let end = start.saturating_add(packet_frames as u64);
    if end <= trim_until_frame {
        return SeekPacketTrim { skip_frames: packet_frames, keep_frames: 0, clear_trim: false };
    }
    let skip = trim_until_frame.saturating_sub(start);
    let skip_frames: usize = if skip <= packet_frames as u64 {
        skip as usize
    } else {
        packet_frames
    };
    SeekPacketTrim {
        skip_frames,
        keep_frames: packet_frames - skip_frames,
        clear_trim: true,
    }
}

/// The marker of a streamed download that failed for good.
pub open spec fn stream_failure_text() -> Seq<char> {
    seq!['s', 't', 'r', 'e', 'a', 'm', ' ', 'f', 'a', 'i', 'l', 'e', 'd', ' ', 't', 'o', ' ', 'd', 'o', 'w', 'n', 'l', 'o', 'a', 'd']
}

/// Whether a read error ends playback: an error of the generic kind
/// (`is_other_kind`) whose message says the stream failed to download.
pub fn is_stream_download_failure(is_other_kind: bool, message: &str) -> (res: bool)
    ensures
        res == (is_other_kind && contains_sub(message@, stream_failure_text())),
{
    if !is_other_kind {
        return false;
    }
    let marker = "stream failed to download";
    proof {
        reveal_strlit("stream failed to download");
    }
    let m = chars_of(marker);
    assert(m@ == stream_failure_text());
    contains_chars(&chars_of(message), &m)
}

/// The byte of a stream of `content_length` bytes and `duration_ms`
/// milliseconds that playback position `playback_position_ms` corresponds
/// to, in proportion and at most the last byte; `None` without a length or
/// a positive duration.
pub open spec fn spec_playback_position_to_byte(
    content_length: Option<u64>,
    duration_ms: Option<u64>,
    playback_position_ms: u64,
) -> Option<u64> {
    match (content_length, duration_ms) {
        (Some(cl), Some(d)) => if d == 0 {
            None
        } else if cl == 0 {
            Some(0)
        } else {
            let p = (cl * playback_position_ms) / (d as int);
            Some(if p <= cl - 1 {
                p as u64
            } else {
                (cl - 1) as u64
            })
        },
        _ => None,
    }
}

/// The byte that a playback position corresponds to (see
/// `spec_playback_position_to_byte`).
pub fn playback_position_to_byte(content_length: Option<u64>, duration_ms: Option<u64>, playback_position_ms: u64) -> (res: Option<u64>)
    ensures
        res == spec_playback_position_to_byte(content_length, duration_ms, playback_position_ms),
{
    let cl = match content_length {
        Some(cl) => cl,
        None => {
            return None;
        },
    };
    let d = match duration_ms {
        Some(d) => d,
        None => {
            return None;
        },
    };
    if d == 0 {
        return None;
    }
    if cl == 0 {
        return Some(0);
    }
    let a: u128 = cl as u128;
    let b: u128 = playback_position_ms as u128;
    assert(a * b <= 0xffff_ffff_ffff_ffff * 0xffff_ffff_ffff_ffff) by (nonlinear_arith)
        requires
            a <= 0xffff_ffff_ffff_ffff,
            b <= 0xffff_ffff_ffff_ffff,
    ;
    let p = a * b / (d as u128);
    let last = (cl - 1) as u128;
    if p <= last {
        Some(p as u64)
    } else {
        Some(cl - 1)
    }
}

/// `v` clamped to `[lo, hi]`.
pub open spec fn clamp_int(v: int, lo: int, hi: int) -> int {
    if v < lo {
        lo
    } else if v > hi {
        hi
    } else {
        v
    }
}

/// `a * b`, or `u64::MAX` when that does not fit.
pub open spec fn sat_mul(a: u64, b: u64) -> u64 {
    if a * b > u64::MAX {
        u64::MAX
    } else {
        (a * b) as u64
    }
}

/// How many bytes to fetch ahead of playback: `cache_ahead_secs` (clamped
/// to 5..=300) seconds at the stream's byte rate, or at 256 KiB per second
/// when the rate is unknown, clamped to 256 KiB..=32 MiB.  The byte rate
/// is at least 1 and is truncated to 64 bits before use; the product with
/// the seconds saturates at `u64::MAX`.
pub open spec fn spec_estimate_prefetch_bytes(content_length: Option<u64>, duration_ms: Option<u64>, cache_ahead_secs: u32) -> u64 {
    let ahead = clamp_int(cache_ahead_secs as int, 5, 300) as u64;
    let estimated = match (content_length, duration_ms) {
        (Some(cl), Some(d)) => if d > 0 {
            let rate = (cl * 1000) / (d as int);
            let rate64 = (if rate >= 1 {
                rate
            } else {
                1
            }) as u64;
            sat_mul(rate64, ahead)
        } else {
            sat_mul(ahead, 262144)
        },
        _ => sat_mul(ahead, 262144),
    };
    clamp_int(estimated as int, 262144, 33554432) as u64
}

/// How many bytes to fetch ahead of playback (see
/// `spec_estimate_prefetch_bytes`).
pub fn estimate_prefetch_bytes(content_length: Option<u64>, duration_ms: Option<u64>, cache_ahead_secs: u32) -> (res: u64)
    ensures
        res == spec_estimate_prefetch_bytes(content_length, duration_ms, cache_ahead_secs),
        262144 <= res <= 33554432,
{
    let ahead32: u32 = if cache_ahead_secs < 5 {
        5
    } else if cache_ahead_secs > 300 {
        300
    } else {
        cache_ahead_secs
    };
    let ahead = ahead32 as u64;
    let min_prefetch: u64 = 262144;
    let max_prefetch: u64 = 33554432;
    let mut known_rate: Option<u64> = None;
    match (content_length, duration_ms) {
        (Some(cl), Some(d)) => {
            if d > 0 {
                let rate: u128 = (cl as u128) * 1000 / (d as u128);
                let rate1: u128 = if rate >= 1 {
                    rate
                } else {
                    1
                };
                known_rate = Some(rate1 as u64);
            }
        },
        _ => {},
    }
    let estimated = match known_rate {
        Some(r) => match r.checked_mul(ahead) {
            Some(v) => v,
            None => u64::MAX,
        },
        None => ahead * 262144,
    };
    if estimated < min_prefetch {
        min_prefetch
    } else if estimated > max_prefetch {
        max_prefetch
    } else {
        estimated
    }
}

/// Samples held by the output ring buffer: six seconds of all channels.
pub fn output_buffer_samples(sample_rate: u32, channels: u16) -> (res: usize)
    requires
        sample_rate * channels * OUTPUT_BUFFER_SECONDS <= usize::MAX,
    ensures
        res == sample_rate * channels * OUTPUT_BUFFER_SECONDS,
{
    let a = sample_rate as usize;
    let b = channels as usize;
    assert(a * b <= a * b * 6) by (nonlinear_arith);
    a * b * 6
}

/// Samples decoded before output starts: two seconds of all channels.
pub fn predecode_target_samples(sample_rate: u32, channels: u16) -> (res: usize)
    requires
        sample_rate * channels * INITIAL_PREDECODE_SECONDS <= usize::MAX,
    ensures
        res == sample_rate * channels * INITIAL_PREDECODE_SECONDS,
{
    let a = sample_rate as usize;
    let b = channels as usize;
    assert(a * b <= a * b * 2) by (nonlinear_arith);
    a * b * 2
}

} // verus!
