use music_native::audio::cache_tracker::SongCacheTracker;
use music_native::audio::download_control::{DriveStep, SongCacheDownloadControl};
use music_native::cache::catalog::{CacheCatalog, CacheEntryUpsert, CacheIndexData};
use music_native::cache::eviction::EvictionPlanner;
use music_native::cache::keys::{
    extension_from_url, extension_from_url_path, infer_extension, is_legacy_audio_key_for_song,
    legacy_audio_key_matches_quality, song_stream_key,
};
use music_native::cache::settings::CacheSettingsStore;
use music_native::cache::song::{ByteRange, SongStreamCacheMeta};
use music_native::cache::song_plan::{
    cached_size, existing_song_action, find_same_quality_entry, refresh_entry_from_file_size,
    drop_song_variants, refresh_entry_from_song_meta, variant_victims, ExistingSongAction,
};
use music_native::cache::song_source::{adopt_legacy_song, plan_song_source, record_song_stream, SongSourceAction, SongSourcePlan};
use music_native::cache::storage::CacheFileStore;
use music_native::cache::types::{composite_key, CacheBucket, CacheEntry, CacheStats};
use sha2::Digest;

fn entry(bucket: CacheBucket, key: &str, size: u64, accessed_at: u64) -> CacheEntry {
    CacheEntry {
        bucket,
        key: key.to_string(),
        relative_path: format!("{}/{}.bin", bucket.as_str(), key),
        size_bytes: size,
        created_at: accessed_at,
        accessed_at,
        source_url: None,
        mime_type: None,
        song_id: None,
        quality: None,
        content_length: None,
        is_complete: false,
        expires_at: None,
    }
}

fn upsert<'a>(bucket: CacheBucket, key: &'a str, path: &str, size: u64) -> CacheEntryUpsert<'a> {
    CacheEntryUpsert {
        bucket,
        key,
        relative_path: path.to_string(),
        size_bytes: size,
        source_url: None,
        mime_type: None,
        song_id: None,
        quality: None,
        content_length: None,
        is_complete: false,
        ttl_secs: None,
    }
}

#[test]
fn test_is_fully_downloaded_logic() {
    let mut meta = SongStreamCacheMeta::new(1, "lossless", "http://example.com/1.flac");
    meta.set_content_length(Some(1000));

    meta.add_range(0..500);
    meta.mark_complete();

    assert!(!meta.is_complete, "Should not mark complete if incomplete");
    assert!(!meta.is_fully_downloaded(), "Should not be fully downloaded if ranges are incomplete");

    meta.add_range(500..1000);
    assert!(meta.is_fully_downloaded(), "Should be fully downloaded now even if is_complete is false");

    meta.mark_complete();
    assert!(meta.is_complete);
}

#[test]
fn test_persistent_cache_resumption_and_no_truncation() {
    let mut meta = SongStreamCacheMeta::new(1, "lossless", "url");
    meta.set_content_length(Some(100));
    meta.add_range(0..50);

    let mut new_meta = meta.clone();
    assert_eq!(new_meta.downloaded_bytes(), 50);
    new_meta.add_range(50..100);
    new_meta.mark_complete();
    assert!(new_meta.is_complete);
    assert_eq!(new_meta.downloaded_bytes(), 100);
    assert_eq!(new_meta.downloaded_ranges.len(), 1);
}

#[test]
fn byte_ranges_and_download_metadata() {
    assert!(ByteRange::new(5, 5).is_none());
    assert_eq!(ByteRange::new(2, 9).unwrap().len(), 7);
    assert_eq!(ByteRange::from_range(9..2).len(), 0);
    let mut meta = SongStreamCacheMeta::new(7, "  HQ ", " http://x/y.mp3 ");
    assert_eq!(meta.quality, "HQ");
    assert_eq!(meta.source_url, "http://x/y.mp3");
    meta.add_range(10..20);
    meta.add_range(0..5);
    meta.add_range(5..10);
    assert_eq!(meta.downloaded_ranges.len(), 1);
    assert_eq!(meta.checked_downloaded_bytes(), Some(20));
    meta.mark_complete();
    assert!(meta.is_complete, "without a known length completion is taken as reported");
}

#[test]
fn song_keys_and_legacy_keys() {
    assert_eq!(song_stream_key(42, "  LossLess "), "audio-stream:42:lossless");
    assert_eq!(song_stream_key(-3, "hq"), "audio-stream:-3:hq");
    let legacy = r#"{"scope":"audio","songId":42,"quality":"lossless"}"#;
    assert!(is_legacy_audio_key_for_song(legacy, 42));
    assert!(!is_legacy_audio_key_for_song(legacy, 7));
    assert!(legacy_audio_key_matches_quality(legacy, " LOSSLESS "));
    assert!(!legacy_audio_key_matches_quality(legacy, "standard"));
}

#[test]
fn extensions_come_from_the_url_then_the_content_type() {
    assert_eq!(extension_from_url("https://cdn.example.com/a/b/song.FLAC?x=1").as_deref(), Some("flac"));
    assert_eq!(extension_from_url("https://cdn.example.com/a/track").as_deref(), Some("track"));
    assert_eq!(extension_from_url("https://cdn.example.com/a/b.toolong"), None);
    assert_eq!(extension_from_url("https://cdn.example.com/"), None);
    assert_eq!(extension_from_url("not a url"), None);
    assert_eq!(extension_from_url_path("/x/y.Mp3").as_deref(), Some("mp3"));
    assert_eq!(extension_from_url_path("relative.mp3"), None);
    assert_eq!(infer_extension(CacheBucket::Cover, "https://example.com/", Some("image/JPEG")), "jpg");
    assert_eq!(infer_extension(CacheBucket::Song, "https://example.com/", Some("audio/x-flac")), "flac");
    assert_eq!(infer_extension(CacheBucket::Song, "https://example.com/", None), "mp3");
    assert_eq!(infer_extension(CacheBucket::Lyric, "nope", Some("text/plain")), "json");
    assert_eq!(infer_extension(CacheBucket::Entity, "https://e.com/data.json", Some("image/png")), "json");
}

#[test]
fn catalog_upsert_touch_remove_and_entry_mut() {
    let mut catalog = CacheCatalog::from_index("index.json".to_string(), CacheIndexData { entries: Vec::new() });
    assert_eq!(catalog.upsert_at(upsert(CacheBucket::Entity, " a ", "entity/a.json", 10), 100).unwrap(), None);
    assert_eq!(
        catalog.upsert_at(upsert(CacheBucket::Entity, "a", "entity/a2.json", 12), 200).unwrap().as_deref(),
        Some("entity/a.json")
    );
    let touched = catalog.touch_at(CacheBucket::Entity, "a", 300).unwrap().unwrap();
    assert_eq!(touched.created_at, 100);
    assert_eq!(touched.accessed_at, 300);
    assert_eq!(touched.size_bytes, 12);
    {
        let e = catalog.entry_mut("entity:a").unwrap();
        e.size_bytes = 99;
    }
    assert!(catalog.entry_mut("entity:zzz").is_none());
    assert_eq!(catalog.stats(1_000).total_bytes, 99);
    assert!(catalog.upsert_at(upsert(CacheBucket::Song, "   ", "x", 1), 1).is_err());
    assert_eq!(catalog.remove(CacheBucket::Entity, "a").unwrap().unwrap().size_bytes, 99);
    assert!(catalog.remove(CacheBucket::Entity, "a").unwrap().is_none());
    assert_eq!(catalog.entries().len(), 0);
    assert_eq!(composite_key(CacheBucket::Lyric, " k ").unwrap(), "lyric:k");
}

#[test]
fn stats_count_per_bucket_and_saturate() {
    let mut stats = CacheStats::with_max_size(u64::MAX);
    assert_eq!(stats.max_size_bytes, i64::MAX);
    stats.add_entry(&entry(CacheBucket::Song, "s", 10, 0));
    stats.add_entry(&entry(CacheBucket::Cover, "c", u64::MAX, 0));
    assert_eq!(stats.song_bytes, 10);
    assert_eq!(stats.song_entries, 1);
    assert_eq!(stats.cover_bytes, i64::MAX);
    assert_eq!(stats.total_bytes, i64::MAX);
}

#[test]
fn eviction_takes_expired_then_least_recently_used_until_within_limit() {
    let mut expired = entry(CacheBucket::Cover, "old", 5, 50);
    expired.expires_at = Some(10);
    let entries = vec![
        ("entity:recent".to_string(), entry(CacheBucket::Entity, "recent", 40, 300)),
        ("entity:lru".to_string(), entry(CacheBucket::Entity, "lru", 30, 100)),
        ("cover:old".to_string(), expired),
        ("entity:mid".to_string(), entry(CacheBucket::Entity, "mid", 20, 200)),
    ];
    let victims = EvictionPlanner::select_victims_at(&entries, 95, 50, 1_000);
    assert_eq!(victims, vec!["cover:old".to_string(), "entity:lru".to_string(), "entity:mid".to_string()]);
    let within = EvictionPlanner::select_victims_at(&entries, 95, 100, 1_000);
    assert_eq!(within, vec!["cover:old".to_string()]);
}

#[test]
fn settings_clamp_read_ahead() {
    let mut store = CacheSettingsStore::with_fallback("settings.json".to_string(), 1234);
    assert_eq!(store.max_size_bytes(), 1234);
    assert_eq!(store.song_cache_ahead_secs(), 30);
    store.set_song_cache_ahead_secs(1);
    assert_eq!(store.song_cache_ahead_secs(), 5);
    store.set_song_cache_ahead_secs(1_000);
    assert_eq!(store.song_cache_ahead_secs(), 300);
    store.set_max_size_bytes(7);
    assert_eq!(store.max_size_bytes(), 7);
}

#[test]
fn file_store_paths_hash_the_key() {
    let store = CacheFileStore::at_root("/tmp/cache".to_string());
    assert_eq!(store.settings_path(), "/tmp/cache/settings.json");
    assert_eq!(store.index_path(), "/tmp/cache/index.json");
    assert_eq!(store.bucket_dir(CacheBucket::Lyric), "/tmp/cache/lyric");
    assert_eq!(store.song_meta_path("song/x.mp3"), "/tmp/cache/song/x.mp3.meta.json");
    let digest = sha2::Sha256::digest(b"song:abc");
    let hex: String = digest.iter().map(|b| format!("{b:02x}")).collect();
    assert_eq!(store.build_relative_path(CacheBucket::Song, "  abc ", " .mp3"), format!("song/{hex}.mp3"));
    assert_eq!(store.build_relative_path(CacheBucket::Song, "abc", "..."), format!("song/{hex}.bin"));
    assert!(store.is_inside_root("/tmp/cache/song/x"));
    assert!(!store.is_inside_root("/tmp/cachex/song"));
}

#[test]
fn tracker_persists_in_steps_and_on_completion() {
    let meta = SongStreamCacheMeta::new(1, "hq", "u");
    let mut tracker = SongCacheTracker::new(meta);
    assert!(tracker.set_content_length(Some(1 << 20)));
    assert!(!tracker.set_content_length(Some(1 << 20)));
    assert!(!tracker.record_progress(0..1_000, false, Some(1 << 20)));
    assert!(tracker.record_progress(1_000..200_000, false, Some(1 << 20)));
    tracker.mark_persisted();
    assert_eq!(tracker.last_persisted_bytes, 200_000);
    assert!(!tracker.record_progress(200_000..200_100, false, Some(1 << 20)));
    assert!(tracker.record_progress(200_100..200_200, true, Some(1 << 20)));
    assert!(!tracker.meta.is_complete, "a known length not reached keeps the download incomplete");
}

#[test]
fn download_control_versions_and_cancellation() {
    let mut control = SongCacheDownloadControl::new();
    assert!(!control.changed_since(0));
    assert!(control.update_playback_position(5_000));
    assert!(!control.update_playback_position(5_000));
    assert!(control.changed_since(0));
    assert_eq!(control.drive_step(Some(1_000), Some(10_000)), DriveStep::SeekTo(500));
    assert_eq!(control.drive_step(None, Some(10_000)), DriveStep::Wait);
    control.cancel();
    assert!(control.is_cancelled());
    assert!(control.cancels_on_attach());
    assert!(!control.update_playback_position(6_000));
    assert_eq!(control.drive_step(Some(1_000), Some(10_000)), DriveStep::Stop);
    control.finish();
    assert!(control.finished);
    let mut wrapping = SongCacheDownloadControl { version: u64::MAX, ..SongCacheDownloadControl::new() };
    wrapping.wake();
    assert_eq!(wrapping.version, 0);
}

#[test]
fn song_sources_pick_same_quality_and_drop_other_qualities() {
    let mut current = entry(CacheBucket::Song, "audio-stream:42:hq", 10, 1);
    current.song_id = Some(42);
    current.quality = Some("hq".to_string());
    let mut other = entry(CacheBucket::Song, "audio-stream:42:sq", 10, 1);
    other.song_id = Some(42);
    other.quality = Some("sq".to_string());
    let legacy_other = entry(CacheBucket::Song, r#"{"scope":"audio","songId":42,"quality":"lossless"}"#, 10, 1);
    let unrelated = entry(CacheBucket::Entity, "audio-stream:42:sq", 10, 1);
    let entries = vec![
        ("song:legacy".to_string(), legacy_other.clone()),
        ("song:sq".to_string(), other.clone()),
        ("entity:x".to_string(), unrelated),
        ("song:hq".to_string(), current.clone()),
    ];
    assert_eq!(find_same_quality_entry(&entries, 42, "hq"), Some(3));
    assert_eq!(find_same_quality_entry(&entries, 7, "hq"), None);
    assert_eq!(find_same_quality_entry(&entries, 42, "lossless"), Some(0));
    assert_eq!(variant_victims(&entries, 42, "hq"), vec!["song:legacy".to_string(), "song:sq".to_string()]);

    assert_eq!(cached_size(&current, Some(5)), 5);
    let mut with_length = current.clone();
    with_length.content_length = Some(77);
    assert_eq!(cached_size(&with_length, Some(5)), 77);
    assert_eq!(cached_size(&current, None), 10);

    assert_eq!(existing_song_action(&legacy_other, true), ExistingSongAction::AdoptLegacyFile);
    assert_eq!(existing_song_action(&current, true), ExistingSongAction::Discard);
    let mut done = current.clone();
    done.is_complete = true;
    assert_eq!(existing_song_action(&done, true), ExistingSongAction::ServeFile);
    assert_eq!(existing_song_action(&done, false), ExistingSongAction::Discard);

    assert!(refresh_entry_from_file_size(&mut done, 12));
    assert_eq!(done.size_bytes, 12);
    assert!(!done.is_complete);
    assert!(!refresh_entry_from_file_size(&mut done, 12));
}

#[test]
fn bucket_names_round_trip() {
    for bucket in CacheBucket::all() {
        assert_eq!(CacheBucket::parse(bucket.as_str()).unwrap(), bucket);
    }
    assert!(CacheBucket::parse(" Song ").is_ok());
    assert!(CacheBucket::parse("video").is_err());
}

#[test]
fn tracker_counts_stored_ranges_as_they_were_written() {
    let mut meta = SongStreamCacheMeta::new(2, "hq", "u");
    meta.downloaded_ranges = vec![ByteRange { start: 0, end: 100 }, ByteRange { start: 50, end: 150 }];
    let mut tracker = SongCacheTracker::new(meta);
    assert_eq!(tracker.last_persisted_bytes, 200);
    assert!(tracker.record_progress(150..160, false, None), "the merged count went down");
    assert_eq!(tracker.meta.downloaded_bytes(), 160);
    assert_eq!(tracker.meta.downloaded_ranges, vec![ByteRange { start: 0, end: 160 }]);
}

#[test]
fn song_entry_refreshed_from_its_metadata() {
    let mut meta = SongStreamCacheMeta::new(3, "lossless", "https://x/a.flac");
    meta.set_content_length(Some(100));
    meta.add_range(0..100);
    let mut e = entry(CacheBucket::Song, "3:lossless", 10, 1);
    assert!(refresh_entry_from_song_meta(&mut e, &meta));
    assert_eq!(e.size_bytes, 100);
    assert_eq!(e.content_length, Some(100));
    assert!(e.is_complete);
    assert_eq!(e.source_url.as_deref(), Some("https://x/a.flac"));
    assert_eq!(e.quality.as_deref(), Some("lossless"));
    assert!(!refresh_entry_from_song_meta(&mut e, &meta));
    meta.add_range(200..250);
    assert!(refresh_entry_from_song_meta(&mut e, &meta));
    assert_eq!(e.size_bytes, 150);
    assert!(!e.is_complete);
}

#[test]
fn enforcing_the_limit_leaves_the_kept_entries_within_it() {
    let entries = vec![
        ("song:a".to_string(), entry(CacheBucket::Song, "a", 100, 10)),
        ("song:b".to_string(), entry(CacheBucket::Song, "b", 200, 30)),
        ("song:c".to_string(), entry(CacheBucket::Song, "c", 300, 20)),
    ];
    let total: u64 = entries.iter().map(|(_, e)| e.size_bytes).sum();
    let victims = EvictionPlanner::select_victims_at(&entries, total, 350, 1_000);
    assert_eq!(victims, vec!["song:a".to_string(), "song:c".to_string()]);
    let kept: u64 = entries.iter().filter(|(k, _)| !victims.contains(k)).map(|(_, e)| e.size_bytes).sum();
    assert_eq!(kept, 200);
    assert!(kept <= 350);
    let everything = EvictionPlanner::select_victims_at(&entries, total, 1, 1_000);
    assert_eq!(everything.len(), entries.len());
}

#[test]
fn preparing_a_song_drops_its_other_qualities() {
    let mut hq = entry(CacheBucket::Song, "7:hq", 10, 1);
    hq.song_id = Some(7);
    hq.quality = Some("hq".to_string());
    let mut lossless = entry(CacheBucket::Song, "7:lossless", 20, 2);
    lossless.song_id = Some(7);
    lossless.quality = Some("lossless".to_string());
    let mut other_song = entry(CacheBucket::Song, "8:hq", 30, 3);
    other_song.song_id = Some(8);
    other_song.quality = Some("hq".to_string());
    let data = CacheIndexData {
        entries: vec![
            ("song:7:hq".to_string(), hq),
            ("song:7:lossless".to_string(), lossless),
            ("song:8:hq".to_string(), other_song),
            ("cover:x".to_string(), entry(CacheBucket::Cover, "x", 5, 4)),
        ],
    };
    let mut catalog = CacheCatalog::from_index("index.json".to_string(), data);
    let removed = drop_song_variants(&mut catalog, 7, "lossless");
    assert_eq!(removed.len(), 1);
    assert_eq!(removed[0].key, "7:hq");
    let keys: Vec<&str> = catalog.entries().iter().map(|(k, _)| k.as_str()).collect();
    assert_eq!(keys, vec!["song:7:lossless", "song:8:hq", "cover:x"]);
    assert!(drop_song_variants(&mut catalog, 7, "lossless").is_empty());
}

fn stream_of(plan: &SongSourcePlan) -> (String, String) {
    match &plan.action {
        Ok(SongSourceAction::Stream { cache_key, relative_path }) => (cache_key.clone(), relative_path.clone()),
        other => panic!("expected a stream, got {other:?}"),
    }
}

#[test]
fn plan_replaces_other_quality_for_same_song() {
    let store = CacheFileStore::at_root("/tmp/cache".to_string());
    let mut catalog = CacheCatalog::from_index("index.json".to_string(), CacheIndexData { entries: vec![] });
    let url = "https://example.com/song-lossless.flac";
    let first = plan_song_source(&mut catalog, &store, 2628631968, " Lossless ", url, Some(100), false, None, 10);
    assert_eq!(first.quality, "lossless");
    let (key, path) = stream_of(&first);
    assert_eq!(key, "audio-stream:2628631968:lossless");
    assert!(path.starts_with("song/") && path.ends_with(".flac"));
    record_song_stream(&mut catalog, 2628631968, first.quality.clone(), first.url.clone(), Some(100), &key, path.clone(), 10)
        .unwrap();

    let second = plan_song_source(
        &mut catalog,
        &store,
        2628631968,
        "jymaster",
        "https://example.com/song-jymaster.flac",
        Some(1000),
        false,
        None,
        20,
    );
    assert_eq!(second.removed.len(), 1);
    assert_eq!(second.removed[0].relative_path, path);
    let (key2, path2) = stream_of(&second);
    record_song_stream(&mut catalog, 2628631968, second.quality.clone(), second.url.clone(), Some(1000), &key2, path2, 20)
        .unwrap();
    let stats = catalog.stats(1 << 20);
    assert_eq!(stats.song_entries, 1);
    let (_, entry) = &catalog.entries()[0];
    assert_eq!(entry.quality.as_deref(), Some("jymaster"));
    assert_eq!(entry.content_length, Some(1000));
    assert!(!entry.is_complete);
}

#[test]
fn plan_replaces_same_quality_when_expected_size_changes() {
    let store = CacheFileStore::at_root("/tmp/cache".to_string());
    let mut catalog = CacheCatalog::from_index("index.json".to_string(), CacheIndexData { entries: vec![] });
    let first = plan_song_source(&mut catalog, &store, 7, "jymaster", "https://example.com/v1.flac", Some(100), false, None, 1);
    let (key, path) = stream_of(&first);
    record_song_stream(&mut catalog, 7, first.quality.clone(), first.url.clone(), Some(100), &key, path, 1).unwrap();

    let second = plan_song_source(&mut catalog, &store, 7, "jymaster", "https://example.com/v2.flac", Some(200), true, Some(100), 2);
    assert_eq!(second.removed.len(), 1);
    let (key2, path2) = stream_of(&second);
    record_song_stream(&mut catalog, 7, second.quality.clone(), second.url.clone(), Some(200), &key2, path2, 2).unwrap();
    let stats = catalog.stats(1 << 20);
    assert_eq!(stats.song_entries, 1);
    assert_eq!(stats.song_bytes, 0);
    let (_, entry) = &catalog.entries()[0];
    assert_eq!(entry.source_url.as_deref(), Some("https://example.com/v2.flac"));
    assert_eq!(entry.content_length, Some(200));
}

#[test]
fn plan_serves_complete_file_and_adopts_legacy_file() {
    let store = CacheFileStore::at_root("/tmp/cache".to_string());
    let mut catalog = CacheCatalog::from_index("index.json".to_string(), CacheIndexData { entries: vec![] });
    let first = plan_song_source(&mut catalog, &store, 7, "hq", "https://x/a.mp3", None, false, None, 1);
    let (key, path) = stream_of(&first);
    record_song_stream(&mut catalog, 7, first.quality.clone(), first.url.clone(), None, &key, path.clone(), 1).unwrap();
    catalog.entry_mut("song:audio-stream:7:hq").unwrap().is_complete = true;

    let served = plan_song_source(&mut catalog, &store, 7, "HQ", "https://x/a.mp3", None, true, Some(5), 9);
    assert!(served.removed.is_empty());
    match served.action {
        Ok(SongSourceAction::ServeFile { relative_path }) => assert_eq!(relative_path, path),
        other => panic!("expected the file, got {other:?}"),
    }
    assert_eq!(catalog.entries()[0].1.accessed_at, 9);

    let missing = plan_song_source(&mut catalog, &store, 7, "hq", "https://x/a.mp3", None, false, None, 10);
    assert_eq!(missing.removed.len(), 1);
    assert!(matches!(missing.action, Ok(SongSourceAction::Stream { .. })));
    assert_eq!(catalog.entries().len(), 0);

    let legacy_key = "{\"scope\":\"audio\",\"songId\":8,\"quality\":\"hq\"}";
    let mut legacy = entry(CacheBucket::Song, legacy_key, 40, 3);
    legacy.relative_path = "song/legacy.mp3".to_string();
    let mut catalog = CacheCatalog::from_index(
        "index.json".to_string(),
        CacheIndexData { entries: vec![(format!("song:{legacy_key}"), legacy)] },
    );
    let adopt = plan_song_source(&mut catalog, &store, 8, "hq", "https://x/b.mp3", None, true, Some(40), 11);
    let (entry, size) = match adopt.action {
        Ok(SongSourceAction::AdoptFile { entry, file_size }) => (entry, file_size),
        other => panic!("expected adoption, got {other:?}"),
    };
    assert_eq!(size, 40);
    adopt_legacy_song(&mut catalog, &entry, 8, adopt.quality.clone(), adopt.url.clone(), "audio-stream:8:hq", size, 11).unwrap();
    assert_eq!(catalog.entries().len(), 1);
    let (k, e) = &catalog.entries()[0];
    assert_eq!(k, "song:audio-stream:8:hq");
    assert_eq!(e.relative_path, "song/legacy.mp3");
    assert!(e.is_complete);
    assert_eq!(e.content_length, Some(40));

    let empty = plan_song_source(&mut catalog, &store, 8, "hq", "   ", None, true, None, 12);
    assert!(matches!(empty.action, Ok(SongSourceAction::Empty)));
}
