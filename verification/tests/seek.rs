use music_native::audio::http_range::{range_request_header, sanitize_range_end};
use music_native::audio::seek::{
    estimate_prefetch_bytes, is_stream_download_failure, output_buffer_samples, playback_position_to_byte,
    predecode_target_samples, seek_completion_plan, seek_packet_trim, timestamp_to_frame, SeekPacketTrim, SeekedTo,
    TimeBase, NO_TRIM_FRAME,
};
use std::time::Duration;

fn seeked_to(actual_ts: u64, requested_ts: u64, track_id: u32) -> SeekedTo {
    SeekedTo { track_id, required_ts: requested_ts, actual_ts }
}

#[test]
fn stream_download_failure_is_fatal() {
    let err = std::io::Error::new(std::io::ErrorKind::Other, "stream failed to download");

    assert!(is_stream_download_failure(err.kind() == std::io::ErrorKind::Other, &err.to_string()));
}

#[test]
fn other_read_errors_are_not_fatal() {
    let timeout = std::io::Error::new(std::io::ErrorKind::TimedOut, "stream failed to download");
    assert!(!is_stream_download_failure(timeout.kind() == std::io::ErrorKind::Other, &timeout.to_string()));
    let other = std::io::Error::new(std::io::ErrorKind::Other, "connection reset");
    assert!(!is_stream_download_failure(other.kind() == std::io::ErrorKind::Other, &other.to_string()));
}

#[test]
fn seek_completion_anchors_requested_and_trims_pre_target_audio() {
    let sr: u32 = 48_000;
    let time_base = TimeBase { numer: 1, denom: sr };
    let target = Duration::from_secs_f64(30.0);
    let requested_frame = (target.as_secs_f64() * sr as f64) as u64;
    let actual_frame = requested_frame - 1024;
    let seeked = Some(seeked_to(actual_frame, requested_frame, 0));

    let completion = seek_completion_plan(seeked, requested_frame, sr, Some(time_base), 0);
    assert_eq!(completion.anchor_frame, requested_frame);
    assert_eq!(completion.actual_frame, Some(actual_frame));
    assert_eq!(completion.trim_until_frame, Some(requested_frame));

    let trim = seek_packet_trim(Some(actual_frame), 2048, completion.trim_until_frame.unwrap());
    assert_eq!(trim, SeekPacketTrim { skip_frames: 1024, keep_frames: 1024, clear_trim: true });
}

#[test]
fn seek_completion_converts_container_timebase_before_trimming() {
    let sr: u32 = 48_000;
    let time_base = TimeBase { numer: 1, denom: 1_000 };
    let requested_frame = 30 * sr as u64;
    let actual_ts_ms = 29_500;
    let expected_actual_frame = 29_500 * sr as u64 / 1_000;
    let seeked = Some(seeked_to(actual_ts_ms, 30_000, 0));

    assert_eq!(actual_ts_ms, 29_500, "old direct-ts-as-frame anchor");
    assert_ne!(actual_ts_ms, expected_actual_frame, "test must prove timestamp units differ from sample frames");

    let completion = seek_completion_plan(seeked, requested_frame, sr, Some(time_base), 0);
    assert_eq!(completion.anchor_frame, requested_frame);
    assert_eq!(completion.actual_frame, Some(expected_actual_frame));
    assert_eq!(completion.trim_until_frame, Some(requested_frame));
}

#[test]
fn seek_completion_does_not_trim_when_actual_is_past_request() {
    let sr: u32 = 48_000;
    let time_base = TimeBase { numer: 1, denom: sr };
    let target = Duration::from_secs_f64(30.0);
    let requested_frame = (target.as_secs_f64() * sr as f64) as u64;
    let seeked = Some(seeked_to(requested_frame + 10_000, requested_frame, 0));

    let completion = seek_completion_plan(seeked, requested_frame, sr, Some(time_base), 0);
    assert_eq!(completion.anchor_frame, requested_frame);
    assert_eq!(completion.actual_frame, None);
    assert_eq!(completion.trim_until_frame, None);
}

#[test]
fn seek_completion_does_not_trim_on_seek_error() {
    let sr: u32 = 48_000;
    let time_base = TimeBase { numer: 1, denom: sr };
    let target = Duration::from_secs_f64(30.0);
    let requested_frame = (target.as_secs_f64() * sr as f64) as u64;

    let completion = seek_completion_plan(None, requested_frame, sr, Some(time_base), 0);
    assert_eq!(completion.anchor_frame, requested_frame);
    assert_eq!(completion.actual_frame, None);
    assert_eq!(completion.trim_until_frame, None);
}

#[test]
fn seek_completion_does_not_trim_when_timebase_is_missing() {
    let sr: u32 = 48_000;
    let requested_frame = 30 * sr as u64;
    let seeked = Some(seeked_to(requested_frame - 1024, requested_frame, 0));

    let completion = seek_completion_plan(seeked, requested_frame, sr, None, 0);
    assert_eq!(completion.anchor_frame, requested_frame);
    assert_eq!(completion.actual_frame, None);
    assert_eq!(completion.trim_until_frame, None);
}

#[test]
fn seek_completion_does_not_trim_when_seeked_track_does_not_match() {
    let sr: u32 = 48_000;
    let time_base = TimeBase { numer: 1, denom: sr };
    let requested_frame = 30 * sr as u64;
    let seeked = Some(seeked_to(requested_frame - 1024, requested_frame, 9));

    let completion = seek_completion_plan(seeked, requested_frame, sr, Some(time_base), 0);
    assert_eq!(completion.anchor_frame, requested_frame);
    assert_eq!(completion.actual_frame, None);
    assert_eq!(completion.trim_until_frame, None);
}

#[test]
fn seek_packet_trim_discards_packets_fully_before_target() {
    let trim = seek_packet_trim(Some(1_000), 100, 1_200);
    assert_eq!(trim, SeekPacketTrim { skip_frames: 100, keep_frames: 0, clear_trim: false });
}

#[test]
fn seek_packet_trim_keeps_only_frames_at_or_after_target() {
    let samples: Vec<i16> = (0..12).collect();
    let channels = 2;
    let trim = seek_packet_trim(Some(1_000), 6, 1_004);
    let skip_samples = trim.skip_frames * channels;

    assert_eq!(trim, SeekPacketTrim { skip_frames: 4, keep_frames: 2, clear_trim: true });
    assert_eq!(&samples[skip_samples..], &[8, 9, 10, 11]);
}

#[test]
fn seek_packet_trim_clears_when_first_packet_starts_after_target() {
    let trim = seek_packet_trim(Some(1_300), 100, 1_200);
    assert_eq!(trim, SeekPacketTrim { skip_frames: 0, keep_frames: 100, clear_trim: true });
}

#[test]
fn seek_packet_trim_drops_unknown_timestamp_until_a_mappable_packet_arrives() {
    let trim = seek_packet_trim(None, 100, 1_200);
    assert_eq!(trim, SeekPacketTrim { skip_frames: 100, keep_frames: 0, clear_trim: false });
}

#[test]
fn seek_packet_trim_keeps_everything_without_target() {
    let trim = seek_packet_trim(None, 64, NO_TRIM_FRAME);
    assert_eq!(trim, SeekPacketTrim { skip_frames: 0, keep_frames: 64, clear_trim: false });
}

#[test]
fn timestamps_map_to_frames_through_the_time_base() {
    assert_eq!(timestamp_to_frame(1_000, 48_000, Some(TimeBase { numer: 1, denom: 1_000 })), Some(48_000));
    assert_eq!(timestamp_to_frame(7, 44_100, Some(TimeBase { numer: 3, denom: 2 })), Some(463_050));
    assert_eq!(timestamp_to_frame(5, 48_000, Some(TimeBase { numer: 0, denom: 1 })), None);
    assert_eq!(timestamp_to_frame(5, 48_000, Some(TimeBase { numer: 1, denom: 0 })), None);
    assert_eq!(timestamp_to_frame(5, 48_000, None), None);
    assert_eq!(timestamp_to_frame(u64::MAX, u32::MAX, Some(TimeBase { numer: u32::MAX, denom: 1 })), None);
}

#[test]
fn playback_position_maps_proportionally_to_bytes() {
    assert_eq!(playback_position_to_byte(Some(1_000), Some(10_000), 2_500), Some(250));
    assert_eq!(playback_position_to_byte(Some(1_000), Some(10_000), 20_000), Some(999));
    assert_eq!(playback_position_to_byte(Some(0), Some(10_000), 5), Some(0));
    assert_eq!(playback_position_to_byte(Some(1_000), Some(0), 5), None);
    assert_eq!(playback_position_to_byte(None, Some(10), 5), None);
    assert_eq!(playback_position_to_byte(Some(10), None, 5), None);
}

#[test]
fn prefetch_is_estimated_from_the_byte_rate_and_clamped() {
    // 10 MB over 100 s is 100_000 B/s; 30 s ahead is 3_000_000 bytes.
    assert_eq!(estimate_prefetch_bytes(Some(10_000_000), Some(100_000), 30), 3_000_000);
    // Unknown rate: 256 KiB per second, seconds clamped to 5.
    assert_eq!(estimate_prefetch_bytes(None, None, 1), 5 * 262_144);
    // Tiny rate: clamped up to 256 KiB.
    assert_eq!(estimate_prefetch_bytes(Some(10), Some(100_000), 30), 262_144);
    // Huge rate: clamped down to 32 MiB; seconds clamped to 300.
    assert_eq!(estimate_prefetch_bytes(Some(u64::MAX / 1000), Some(1), 1_000), 33_554_432);
    // Zero duration counts as unknown.
    assert_eq!(estimate_prefetch_bytes(Some(1_000), Some(0), 10), 10 * 262_144);
}

#[test]
fn buffers_hold_whole_seconds_of_all_channels() {
    assert_eq!(output_buffer_samples(48_000, 2), 576_000);
    assert_eq!(predecode_target_samples(44_100, 2), 176_400);
}

#[test]
fn inverted_range_is_sent_open_ended() {
    assert_eq!(sanitize_range_end(100, Some(50)), None);
    assert_eq!(sanitize_range_end(100, Some(100)), Some(100));
    assert_eq!(range_request_header(100, Some(50)), "bytes=100-");
    assert_eq!(range_request_header(0, Some(1023)), "bytes=0-1023");
    assert_eq!(range_request_header(7, None), "bytes=7-");
}
