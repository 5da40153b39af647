use music_native::audio::playback::{duration_to_frames, valid_stream_spec, PlaybackClock, PlaybackState, PushStep};
use music_native::audio::seek::{seek_completion_plan, SeekedTo, TimeBase, NO_TRIM_FRAME};

const SEC: u64 = 1_000_000_000;
const MS: u64 = 1_000_000;

fn create_state(sample_rate: u32) -> PlaybackState {
    PlaybackState::new(sample_rate)
}

#[test]
fn playback_clock_never_reports_beyond_submitted_frame() {
    let mut clock = PlaybackClock::new();
    let now = 100 * SEC;
    clock.update(10_000, 10_500, 48_000, now - 10 * SEC);

    assert_eq!(clock.estimate(now), Some(10_500));
}

#[test]
fn scheduled_seek_sets_progress_anchor_and_flush_flags() {
    let mut state = create_state(48_000);
    let target = 2_500 * MS;

    state.schedule_seek(target);

    assert_eq!(state.seek_request, Some(target));
    assert!(state.discard_buffer);
    assert!(state.waiting_for_seek);
    assert!(state.has_seek_request);
    assert_eq!(state.current_frame, 120_000);
}

#[test]
fn taking_scheduled_seek_keeps_pending_write_gate() {
    let mut state = create_state(48_000);
    let target = 30 * SEC;

    state.schedule_seek(target);

    assert_eq!(state.take_seek_request(), Some(target));
    assert!(state.has_seek_request);
    assert_eq!(state.take_seek_request(), None);
}

#[test]
fn seek_completion_commits_only_when_no_new_seek_is_pending() {
    let mut state = create_state(48_000);

    state.schedule_seek(10 * SEC);
    assert_eq!(state.take_seek_request(), Some(10 * SEC));
    state.schedule_seek(20 * SEC);

    assert!(!state.commit_seek_completion_if_current(480_000, Some(500_000)));
    assert!(state.has_seek_request);
    assert_eq!(
        state.current_frame, 960_000,
        "newer scheduled seek target must not be overwritten by an older seek completion"
    );
    assert_eq!(state.trim_until_frame, NO_TRIM_FRAME);

    assert_eq!(state.take_seek_request(), Some(20 * SEC));
    assert!(state.commit_seek_completion_if_current(960_000, Some(960_000)));
    assert!(!state.has_seek_request);
    assert_eq!(state.current_frame, 960_000);
    assert_eq!(state.trim_until_frame, 960_000);
}

#[test]
fn playback_clock_reports_audible_frame_not_submitted_frame() {
    let mut state = create_state(48_000);
    state.current_frame = 1_000_000;
    let now = 5 * SEC;

    state.update_playback_clock_from_output(1_000_000, 1_001_024, 50 * MS, now);

    let progress = state.progress_frame(now);
    assert!(progress < 1_000_000, "progress must account for output latency; old logic would report submitted frame");
    assert!(progress >= 997_500 && progress <= 999_000, "expected around 997600 frames, got {progress}");
}

#[test]
fn stream_error_stops_playback_state() {
    let mut state = create_state(48_000);
    state.current_frame = 48_000;
    state.has_seek_request = true;
    state.seek_request = Some(SEC);
    state.buffered_frames = 12_000;
    state.waiting_for_seek = true;

    let notify = state.fail_after_stream_error();

    assert!(notify);
    assert!(state.discard_buffer);
    assert!(!state.waiting_for_seek);
    assert!(!state.has_seek_request);
    assert_eq!(state.buffered_frames, 0);
    assert_eq!(state.current_frame, 0);
    assert_eq!(state.trim_until_frame, NO_TRIM_FRAME);
    assert!(state.decoder_done);
    assert!(state.is_terminating);
    assert!(state.is_finished);
    assert!(!state.fail_after_stream_error(), "waiters are told only once");
}

#[test]
fn current_frame_anchors_to_requested_and_records_trim_after_seek_decision() {
    let sr: u32 = 48_000;
    let mut state = create_state(sr);
    let requested_frame = (30.0f64 * sr as f64) as u64;
    let actual_frame = requested_frame - 2048;
    let seeked = Some(SeekedTo { track_id: 0, required_ts: requested_frame, actual_ts: actual_frame });

    let completion = seek_completion_plan(seeked, requested_frame, sr, Some(TimeBase { numer: 1, denom: sr }), 0);
    assert!(state.commit_seek_completion_if_current(completion.anchor_frame, completion.trim_until_frame));

    assert_eq!(state.current_frame, requested_frame);
    assert_eq!(state.trim_until_frame, requested_frame);
    assert_eq!(completion.actual_frame, Some(actual_frame));
}

#[test]
fn clock_advances_with_time_until_submitted() {
    let mut clock = PlaybackClock::new();
    assert_eq!(clock.estimate(SEC), None);
    clock.update(1_000, 100_000, 48_000, SEC);
    assert_eq!(clock.estimate(SEC + 500 * MS), Some(25_000));
    assert_eq!(clock.estimate(0), Some(1_000));
    clock.reset_to(7, 48_000);
    assert_eq!(clock.estimate(10 * SEC), None);
    clock.update(5, 9, 0, 0);
    assert_eq!(clock.estimate(10 * SEC), Some(9));
}

#[test]
fn durations_convert_to_whole_frames() {
    assert_eq!(duration_to_frames(2_500 * MS, 48_000), 120_000);
    assert_eq!(duration_to_frames(SEC, 0), 0);
    assert_eq!(duration_to_frames(1, 44_100), 0);
    assert_eq!(duration_to_frames(u64::MAX, u32::MAX), u64::MAX);
}

#[test]
fn output_waits_for_a_second_of_audio_after_a_seek() {
    let mut state = create_state(48_000);
    state.schedule_seek(SEC);
    assert!(state.output_gate(1_000, 2), "buffering after a seek plays silence");
    assert!(state.waiting_for_seek);
    assert!(!state.output_gate(96_000, 2), "a second of stereo audio resumes playback");
    assert!(!state.waiting_for_seek);
    assert!(state.output_gate(0, 2), "a dry buffer starts a new wait");
    assert!(state.waiting_for_seek);
    state.decoder_done = true;
    assert!(!state.output_gate(0, 2), "a finished decoder ends the wait");
    state.is_paused = true;
    assert!(state.output_gate(10, 2), "paused output is silent");
}

#[test]
fn output_advances_progress_and_finishes_once() {
    let mut state = create_state(48_000);
    assert!(!state.after_output(1_024, 2));
    assert_eq!(state.current_frame, 512);
    assert!(!state.after_output(0, 2), "no finish while the decoder runs");
    state.decoder_done = true;
    assert!(state.after_output(0, 2));
    assert!(state.is_finished);
    assert!(!state.after_output(0, 2));
}

#[test]
fn decoder_push_follows_state() {
    let mut state = create_state(48_000);
    assert_eq!(state.push_step(), PushStep::Push);
    state.is_paused = true;
    assert_eq!(state.push_step(), PushStep::Wait);
    state.has_seek_request = true;
    assert_eq!(state.push_step(), PushStep::Abandon);
    state.is_terminating = true;
    assert_eq!(state.push_step(), PushStep::Stop);
    state.discard_buffer = true;
    assert!(!state.discard_pending());
    state.is_terminating = false;
    assert!(state.discard_pending());
    assert!(state.take_discard_request());
    assert!(!state.take_discard_request());
    assert!(valid_stream_spec(44_100, 2));
    assert!(!valid_stream_spec(0, 2));
    assert!(!valid_stream_spec(44_100, 0));
}
