use music_native::audio::devices::OutputDeviceInfo;
use music_native::player::types::{duration_to_millis, AudioDeviceInfo, PlaybackStatus};
use music_native::player::worker::{
    is_requested_output_device_already_active, normalize_device_name, WorkerState,
};

fn device(id: &str, name: &str, is_default: bool, is_current: bool) -> OutputDeviceInfo {
    OutputDeviceInfo { id: id.to_string(), name: name.to_string(), is_default, is_current }
}

#[test]
fn status_codes_round_trip() {
    for status in [PlaybackStatus::Stopped, PlaybackStatus::Playing, PlaybackStatus::Paused] {
        assert_eq!(PlaybackStatus::from_u32(status.as_u32()), status);
    }
    assert_eq!(PlaybackStatus::from_u32(77), PlaybackStatus::Stopped);
    assert_eq!(PlaybackStatus::Paused.as_u32(), 2);
}

#[test]
fn tick_marks_finished_playback_as_stopped() {
    let mut state: WorkerState<String> = WorkerState::new();
    state.begin_play(1_500);
    assert_eq!(state.progress_ms, 1_500);
    assert!(state.buffering);
    state.finish_play("song.flac".to_string(), true);
    assert_eq!(state.status, PlaybackStatus::Playing);
    state.tick(2_000, false, false);
    assert_eq!(state.progress_ms, 2_000);
    assert!(!state.buffering);
    state.tick(3_000, false, true);
    assert_eq!(state.status, PlaybackStatus::Stopped);
    assert!(state.current_source.is_none());
    state.tick(9_000, true, true);
    assert_eq!(state.progress_ms, 3_000, "a stopped player ignores ticks");
}

#[test]
fn failed_start_resets_the_player() {
    let mut state: WorkerState<String> = WorkerState::new();
    state.begin_play(500);
    state.finish_play("x".to_string(), false);
    assert_eq!(state.status, PlaybackStatus::Stopped);
    assert_eq!(state.progress_ms, 0);
    assert!(!state.buffering);
    assert!(state.current_source.is_none());
}

#[test]
fn pause_resume_seek_and_switch_plan() {
    let mut state: WorkerState<u32> = WorkerState::new();
    let plan = state.switch_plan();
    assert!(!plan.restart_source && !plan.resume_at_progress && !plan.pause_after_start);
    state.finish_play(7, true);
    state.on_pause();
    assert_eq!(state.status, PlaybackStatus::Paused);
    let plan = state.switch_plan();
    assert!(plan.restart_source && plan.resume_at_progress && plan.pause_after_start);
    state.finish_switch(Some(4_200), true);
    assert_eq!(state.progress_ms, 4_200);
    assert_eq!(state.status, PlaybackStatus::Paused);
    state.on_resume();
    state.on_seek();
    assert!(state.buffering);
    state.on_stop();
    assert_eq!(state.status, PlaybackStatus::Stopped);
    assert!(state.current_source.is_none());
}

#[test]
fn switching_to_the_already_active_device_is_a_noop() {
    let devices = vec![device("default", "System Default", true, false), device("hw:1,0", "USB DAC", false, true)];
    assert!(is_requested_output_device_already_active(Some("hw:1,0"), &devices));
    assert!(is_requested_output_device_already_active(Some("USB DAC"), &devices));
    assert!(!is_requested_output_device_already_active(Some("default"), &devices));
    assert!(!is_requested_output_device_already_active(None, &devices));
    let on_default = vec![device("default", "System Default", true, true)];
    assert!(is_requested_output_device_already_active(None, &on_default));
    assert!(!is_requested_output_device_already_active(Some("x"), &[].to_vec()));
}

#[test]
fn device_names_are_trimmed_and_blank_means_default() {
    assert_eq!(normalize_device_name(Some("  hw:1,0 ".to_string())).as_deref(), Some("hw:1,0"));
    assert_eq!(normalize_device_name(Some("   ".to_string())), None);
    assert_eq!(normalize_device_name(None), None);
}

#[test]
fn durations_become_capped_milliseconds() {
    assert_eq!(duration_to_millis(2, 500_000_000), 2_500);
    assert_eq!(duration_to_millis(0, 999_999), 0);
    assert_eq!(duration_to_millis(u64::MAX, 0), u32::MAX);
}

#[test]
fn output_devices_convert_for_the_host() {
    let info: AudioDeviceInfo = device("hw:0", "Speakers", true, false).into();
    assert_eq!(info.id, "hw:0");
    assert_eq!(info.name, "Speakers");
    assert!(info.is_default && !info.is_current);
}
