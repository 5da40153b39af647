use music_native::audio::source::{copy_state, PersistentFileStorageProvider, SeekableSource};
use music_native::audio::storage_state::{
    add_signed_saturating, retry_after_empty_read, seek_target, ReadGate, SeekOrigin, StorageReadState,
    MIN_ESCAPE_BUDGET_BYTES,
};
use music_native::intervals::{insert_written_range, ranges_cover};

/// The writer side as the cache file's writer runs it: it asks how much it
/// may write, writes that much and records it.
fn write(state: &mut StorageReadState, max: Option<u64>, position: &mut u64, len: usize) -> usize {
    let n = state.writable_len(max, *position, len);
    if n > 0 {
        state.record_write(*position, *position + n as u64);
        *position += n as u64;
    }
    n
}

#[test]
fn ranges_cover_and_insert_merge_adjacent_intervals() {
    let mut ranges = Vec::new();
    insert_written_range(&mut ranges, 0, 100);
    insert_written_range(&mut ranges, 100, 200);
    insert_written_range(&mut ranges, 300, 400);
    assert_eq!(ranges, vec![(0, 200), (300, 400)]);
    assert!(ranges_cover(&ranges, 0, 200));
    assert!(!ranges_cover(&ranges, 150, 250));
    assert!(ranges_cover(&ranges, 350, 400));
    assert!(!ranges_cover(&ranges, 200, 300));
}

#[test]
fn inserting_out_of_order_and_overlapping_ranges_merges_them() {
    let mut ranges = Vec::new();
    insert_written_range(&mut ranges, 50, 60);
    insert_written_range(&mut ranges, 10, 20);
    insert_written_range(&mut ranges, 15, 55);
    insert_written_range(&mut ranges, 70, 70);
    assert_eq!(ranges, vec![(10, 60)]);
    assert!(ranges_cover(&ranges, 5, 5));
}

#[test]
fn writer_seek_moves_throttle_anchor_to_avoid_forward_seek_deadlock() {
    let provider: PersistentFileStorageProvider<()> =
        PersistentFileStorageProvider::new("cache.bin").max_write_ahead_bytes(Some(4));
    let mut state = provider.shared_state();
    let max = provider.max_write_ahead_bytes;

    state.on_writer_seek(128);
    let mut position = 128;
    assert_eq!(write(&mut state, max, &mut position, 4), 4);
}

#[test]
fn writer_returns_zero_at_write_ahead_limit_instead_of_blocking_prefetch() {
    let provider: PersistentFileStorageProvider<()> =
        PersistentFileStorageProvider::new("cache.bin").max_write_ahead_bytes(Some(4));
    let mut state = provider.shared_state();
    let max = provider.max_write_ahead_bytes;
    let mut position = 0;

    assert_eq!(write(&mut state, max, &mut position, 4), 4);
    assert_eq!(write(&mut state, max, &mut position, 4), 0);
}

#[test]
fn armed_seek_escape_budget_bypasses_throttle_then_self_clears() {
    let provider: PersistentFileStorageProvider<()> =
        PersistentFileStorageProvider::new("cache.bin").max_write_ahead_bytes(Some(4));
    let mut state = provider.shared_state();
    let max = provider.max_write_ahead_bytes;
    state.budget_bytes = 8;
    let mut position = 0;

    assert_eq!(write(&mut state, max, &mut position, 4), 4);
    assert_eq!(write(&mut state, max, &mut position, 4), 0, "writer is throttled");

    state.seek_escape_budget_end = Some(state.writer_position + state.budget_bytes);
    assert_eq!(write(&mut state, max, &mut position, 4), 4);
    assert_eq!(write(&mut state, max, &mut position, 4), 4);

    assert_eq!(write(&mut state, max, &mut position, 4), 0, "throttle must resume once the escape budget is exhausted");
    assert!(state.seek_escape_budget_end.is_none(), "escape budget must self-clear after the budget end");
}

#[test]
fn writer_seek_disarms_escape_and_reanchors_throttle() {
    let provider: PersistentFileStorageProvider<()> =
        PersistentFileStorageProvider::new("cache.bin").max_write_ahead_bytes(Some(4));
    let mut state = provider.shared_state();
    let max = provider.max_write_ahead_bytes;

    state.seek_escape_budget_end = Some(200);
    state.on_writer_seek(64);
    assert!(state.seek_escape_budget_end.is_none());

    let mut position = 64;
    assert_eq!(write(&mut state, max, &mut position, 4), 4);
    assert_eq!(write(&mut state, max, &mut position, 4), 0, "throttle must re-engage relative to the new writer position");
}

#[test]
fn writer_records_physical_written_ranges() {
    let provider: PersistentFileStorageProvider<()> =
        PersistentFileStorageProvider::new("cache.bin").max_write_ahead_bytes(Some(16));
    let mut state = provider.shared_state();
    let max = provider.max_write_ahead_bytes;
    let mut position = 0;

    assert_eq!(write(&mut state, max, &mut position, 8), 8);
    state.on_writer_seek(32);
    position = 32;
    assert_eq!(write(&mut state, max, &mut position, 4), 4);

    assert!(state.covers(0, 8));
    assert!(state.covers(32, 36));
    assert!(!state.covers(8, 32));
    assert_eq!(state.writer_position, 36);
}

#[test]
fn querying_writer_position_does_not_advance_write_ahead_limit() {
    let provider: PersistentFileStorageProvider<()> =
        PersistentFileStorageProvider::new("cache.bin").max_write_ahead_bytes(Some(4));
    let mut state = provider.shared_state();
    let max = provider.max_write_ahead_bytes;
    let mut position = 0;

    assert_eq!(write(&mut state, max, &mut position, 4), 4);
    assert_eq!(seek_target(SeekOrigin::Current(0), Some(position), Some(256)), None);
    assert_eq!(write(&mut state, max, &mut position, 4), 0);
}

#[test]
fn blocking_seek_arms_escape_budget_from_writer_position() {
    let mut state = StorageReadState::new();
    state.writer_position = 10;
    state.budget_bytes = 8;

    state.arm_seek_escape(128);
    assert_eq!(state.seek_escape_budget_end, Some(18), "seek must arm the escape budget from the current writer position");

    state.writer_position = 4;
    state.arm_seek_escape(128);
    assert_eq!(state.seek_escape_budget_end, Some(18), "an armed budget never shrinks");

    let mut cached = StorageReadState::new();
    cached.record_write(100, 200);
    cached.arm_seek_escape(150);
    assert_eq!(cached.seek_escape_budget_end, None, "a cached target needs no escape");
}

#[test]
fn unthrottled_writer_takes_everything() {
    let mut state = StorageReadState::new();
    assert_eq!(state.allowed_write_until(None, 5), u64::MAX);
    assert_eq!(state.writable_len(None, 5, 1 << 20), 1 << 20);
}

#[test]
fn provider_budget_is_at_least_the_minimum() {
    let small: PersistentFileStorageProvider<()> =
        PersistentFileStorageProvider::new("a").max_write_ahead_bytes(Some(4));
    assert_eq!(small.shared_state().budget_bytes, MIN_ESCAPE_BUDGET_BYTES);
    let large: PersistentFileStorageProvider<()> =
        PersistentFileStorageProvider::new("a").max_write_ahead_bytes(Some(8 << 20));
    assert_eq!(large.shared_state().budget_bytes, 8 << 20);
    let with_callback = large.on_write(());
    assert!(with_callback.on_write.is_some());
    assert_eq!(with_callback.path, "a");
}

#[test]
fn read_gate_waits_for_holes_behind_the_writer() {
    let mut state = StorageReadState::new();
    state.record_write(0, 100);
    state.record_write(200, 300);
    state.update_reader_position(50);
    assert_eq!(state.read_gate(Some(400), 40), ReadGate::Read);
    assert_eq!(state.read_gate(None, 40), ReadGate::Unbounded);
    state.update_reader_position(120);
    assert_eq!(state.read_gate(Some(400), 10), ReadGate::AwaitBackfill, "hole behind the writer");
    assert!(!state.backfilled(Some(400), 10));
    state.record_write(100, 200);
    assert!(state.backfilled(Some(400), 10));
    state.update_reader_position(350);
    assert_eq!(state.read_gate(Some(400), 10), ReadGate::Read, "ahead of the writer the reader waits in the stream");
    state.update_reader_position(400);
    assert_eq!(state.read_gate(Some(400), 10), ReadGate::EndOfStream);
    let copy = copy_state(&state);
    assert_eq!(copy.written_ranges, state.written_ranges);
}

#[test]
fn seek_targets_and_temporary_end_retries() {
    assert_eq!(seek_target(SeekOrigin::Start(7), None, None), Some(7));
    assert_eq!(seek_target(SeekOrigin::Current(-3), Some(10), None), Some(7));
    assert_eq!(seek_target(SeekOrigin::Current(5), None, None), None);
    assert_eq!(seek_target(SeekOrigin::End(-6), None, Some(256)), Some(250));
    assert_eq!(seek_target(SeekOrigin::End(0), None, None), None);
    assert_eq!(add_signed_saturating(3, -10), 0);
    assert_eq!(add_signed_saturating(u64::MAX - 1, 10), u64::MAX);
    assert_eq!(add_signed_saturating(5, i64::MIN), 0);
    assert!(retry_after_empty_read(Some(6), 3));
    assert!(!retry_after_empty_read(Some(6), 6));
    assert!(!retry_after_empty_read(None, 0));
}

#[test]
fn seekable_source_keeps_its_parts() {
    let source: SeekableSource<Vec<u8>, u32> = SeekableSource::new(vec![1, 2, 3], Some(3));
    assert!(source.storage_state.is_none());
    let tied = source.with_storage_state(9);
    assert_eq!(tied.storage_state, Some(9));
    assert_eq!(tied.len, Some(3));
    assert_eq!(tied.inner, vec![1, 2, 3]);
}
