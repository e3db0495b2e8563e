//! Read and write caches, and the maps beneath them.
use vfs_storage_hub::cache::policy::CachePathPolicy;
use vfs_storage_hub::cache::read_cache::{data_path, meta_path, ReadCacheConfig, ReadCacheManager};
use vfs_storage_hub::cache::write_cache::{
    file_info_from_pending, index_chunk_count, listing_path, nanos_of_secs, needs_stat,
    normalize_entry_path, physical_to_logical_path, retry_delay_secs, Admission, BlobPlace,
    FlushEnd, FlushStart, PendingWriteState, WriteCacheConfig, WriteCacheManager,
};
use vfs_storage_hub::ledger::Ledger;
use vfs_storage_hub::pool::{source_after, ReadSource, VfsPool};
use vfs_storage_hub::types::VfsFileInfo;

fn read_config(capacity: u64) -> ReadCacheConfig {
    ReadCacheConfig {
        enabled: true,
        backend: "memory".to_string(),
        capacity_bytes: capacity,
        max_file_size_bytes: 100,
        ttl_secs: 60,
        cache_thumbnail_paths: false,
        skip_extensions: vec![" .TMP ".to_string()],
    }
}

fn write_config() -> WriteCacheConfig {
    WriteCacheConfig {
        enabled: true,
        backend: "memory".to_string(),
        capacity_bytes: 1000,
        max_file_size_bytes: 500,
        flush_interval_ms: 2000,
        flush_deadline_secs: 30,
        cache_thumbnail_paths: false,
        skip_extensions: vec!["iso".to_string()],
    }
}

#[test]
fn the_ledger_is_a_map() {
    let mut l: Ledger<u32> = Ledger::new();
    assert_eq!(l.len(), 0);
    l.insert("a", 1);
    l.insert("b", 2);
    l.insert("c", 3);
    l.insert("a", 4);
    assert_eq!(l.len(), 3);
    assert_eq!(l.get("a"), Some(&4));
    assert_eq!(l.get("x"), None);
    assert_eq!(l.remove("b"), Some(2));
    assert_eq!(l.remove("b"), None);
    assert!(!l.contains("b"));
    assert_eq!(l.get("c"), Some(&3));
    let mut keys = l.keys();
    keys.sort();
    assert_eq!(keys, vec!["a", "c"]);
    l.clear();
    assert_eq!(l.len(), 0);
    assert!(!l.contains("a"));
}

#[test]
fn the_policy_keeps_special_paths_out() {
    let p = CachePathPolicy::new(false, &vec![".ISO".to_string(), " mkv ".to_string()]);
    assert!(p.allows("/docs/a.txt"));
    assert!(!p.allows("/docs/a.iso"));
    assert!(!p.allows("/docs/a.MKV"));
    assert!(p.allows("/docs/iso"));
    assert!(!p.allows("/.virtual/tmp/x"));
    assert!(!p.allows("/.recycle_bin/x"));
    assert!(!p.allows("/.thumbs/x"));
    assert!(CachePathPolicy::new(true, &Vec::new()).allows("/.thumbs/x"));
}

#[test]
fn what_is_put_is_found_until_it_expires() {
    let mut c: ReadCacheManager<&str> = ReadCacheManager::new(&read_config(250));
    assert!(c.is_enabled() && c.is_in_memory());
    let (stored, _) = c.put("/a", 100, "A", 1000);
    assert!(stored);
    assert_eq!(c.get("/a", 1010), (true, None));
    assert_eq!(c.peek("/a"), Some(&"A"));
    assert_eq!(c.get("/b", 1010), (false, None));
    assert_eq!(c.get("/a", 1060), (false, Some("A")));
    assert_eq!(c.peek("/a"), None);
}

#[test]
fn the_least_recently_used_goes_first() {
    let mut c: ReadCacheManager<&str> = ReadCacheManager::new(&read_config(250));
    assert!(c.put("/a", 100, "A", 1000).0);
    assert!(c.put("/b", 100, "B", 1001).0);
    assert_eq!(c.get("/a", 1002), (true, None));
    let (stored, gone) = c.put("/c", 100, "C", 1003);
    assert!(stored);
    assert_eq!(gone, vec!["B"]);
    assert_eq!(c.accounted_bytes(), 200);
    assert_eq!(c.put("/c", 50, "C2", 1004), (true, vec!["C"]));
    assert_eq!(c.accounted_bytes(), 150);
    assert_eq!(c.peek("/a"), Some(&"A"));
    assert_eq!(c.peek("/c"), Some(&"C2"));
}

#[test]
fn what_does_not_fit_is_not_cached() {
    let mut c: ReadCacheManager<&str> = ReadCacheManager::new(&read_config(250));
    assert!(!c.should_cache("/a", 0));
    assert!(!c.should_cache("/a", 101));
    assert!(!c.should_cache("/a.tmp", 10));
    assert!(!c.should_cache("/.recycle_bin/a", 10));
    assert!(c.should_cache("/a", 100));
    assert!(!c.put("/a", 101, "A", 0).0);
    assert_eq!(c.remove("/a"), None);
    let mut off = read_config(250);
    off.enabled = false;
    let off: ReadCacheManager<&str> = ReadCacheManager::new(&off);
    assert!(!off.should_cache("/a", 10));
}

#[test]
fn expired_entries_are_swept() {
    let mut c: ReadCacheManager<&str> = ReadCacheManager::new(&read_config(250));
    c.put("/a", 100, "A", 1000);
    c.put("/b", 100, "B", 1030);
    assert_eq!(c.cleanup_expired_if_due(1031, false), Vec::<&str>::new());
    assert_eq!(c.cleanup_expired_if_due(1061, true), vec!["A"]);
    assert_eq!(c.accounted_bytes(), 100);
    assert_eq!(c.peek("/b"), Some(&"B"));
}

#[test]
fn kept_entries_come_back_unless_expired() {
    let mut c: ReadCacheManager<&str> = ReadCacheManager::new(&read_config(250));
    assert!(c.restore("/a", 100, 900, 1100, "A", 1000));
    assert!(!c.restore("/b", 100, 900, 999, "B", 1000));
    assert_eq!(c.peek("/a"), Some(&"A"));
    assert_eq!(c.peek("/b"), None);
    assert!(c.restore("/a", 50, 901, 1100, "A2", 1000));
    assert_eq!(c.peek("/a"), Some(&"A2"));
    assert_eq!(c.accounted_bytes(), 150);
    assert_eq!(c.remove("/a"), Some("A2"));
    assert_eq!(c.accounted_bytes(), 100);
    assert_eq!(c.put("/c", 100, "C", 1000), (true, vec![]));
    assert_eq!(c.put("/d", 100, "D", 1001), (true, vec!["C"]));
}

#[test]
fn nothing_fits_where_the_room_is_accounted_away() {
    let mut c: ReadCacheManager<&str> = ReadCacheManager::new(&read_config(250));
    assert!(c.restore("/a", 200, 900, 1100, "A", 1000));
    assert!(c.restore("/a", 10, 900, 1100, "A2", 1000));
    assert_eq!(c.put("/b", 60, "B", 1000), (false, vec!["A2"]));
    assert_eq!(c.peek("/a"), None);
    assert_eq!(c.put("/b", 50, "B", 1000), (true, vec![]));
}

#[test]
fn cache_files_are_named_by_digest() {
    assert_eq!(
        data_path("abc"),
        "ba7816bf8f01cfea414140de5dae2223b00361a396177a9cb410ff61f20015ad.bin"
    );
    assert_eq!(
        meta_path("abc"),
        "ba7816bf8f01cfea414140de5dae2223b00361a396177a9cb410ff61f20015ad.json"
    );
}

#[test]
fn a_write_is_pending_until_it_is_flushed() {
    let mut c: WriteCacheManager<&str> = WriteCacheManager::new(&write_config());
    let info = c.enqueue("u", "/d/a.txt", "u/d/a.txt", 10, "A", 1000).unwrap();
    assert_eq!(info.name, "a.txt");
    assert_eq!(info.size, 10);
    assert_eq!(info.modified, Some(1_000_000_000_000));
    assert_eq!(c.accounted_bytes(), 10);
    assert_eq!(c.pending_read("u/d/a.txt"), Some(&"A"));
    assert_eq!(c.pending_stat("u/d/a.txt").unwrap().path, "u/d/a.txt");
    assert!(c.is_dirty_path("u/d/a.txt"));
    assert!(c.is_dirty_dir("u/d"));
    assert!(!c.is_dirty_dir("u"));
    let children = c.pending_children("u/d");
    assert_eq!(children.len(), 1);
    assert_eq!(children[0].path, "u/d/a.txt");
    assert!(c.pending_children("u").is_empty());

    let start = c.begin_flush("u/d/a.txt", true, 1000);
    let generation = match start {
        FlushStart::Started { generation, size, .. } => {
            assert_eq!(size, 10);
            generation
        }
        other => panic!("{:?}", other),
    };
    assert_eq!(c.begin_flush("u/d/a.txt", true, 1000), FlushStart::Busy);
    assert_eq!(
        c.flush_succeeded("u/d/a.txt", generation, 4, 10, 1001),
        FlushEnd::Done { index: true, quota: true }
    );
    assert_eq!(c.pending_read("u/d/a.txt"), None);
    assert_eq!(c.accounted_bytes(), 0);
    assert_eq!(c.pending_quota_delta("u"), 6);
    assert_eq!(c.begin_flush("u/d/a.txt", true, 1002), FlushStart::Absent);
}

#[test]
fn a_newer_write_survives_the_flush_of_an_older_one() {
    let mut c: WriteCacheManager<&str> = WriteCacheManager::new(&write_config());
    c.enqueue("u", "/a", "u/a", 10, "old", 1000).unwrap();
    let generation = match c.begin_flush("u/a", true, 1000) {
        FlushStart::Started { generation, .. } => generation,
        other => panic!("{:?}", other),
    };
    c.enqueue("u", "/a", "u/a", 20, "new", 1001).unwrap();
    assert_eq!(c.flush_succeeded("u/a", generation, 0, 10, 1002), FlushEnd::Superseded);
    assert_eq!(c.pending_read("u/a"), Some(&"new"));
}

#[test]
fn failed_flushes_are_tried_again_later() {
    let mut c: WriteCacheManager<&str> = WriteCacheManager::new(&write_config());
    c.enqueue("u", "/a", "u/a", 10, "A", 1000).unwrap();
    assert!(matches!(c.begin_flush("u/a", true, 1000), FlushStart::Started { .. }));
    assert_eq!(c.flush_failed("u/a", "disk full", 1000, false, None), (false, None));
    assert_eq!(c.begin_flush("u/a", false, 1000), FlushStart::NotDue);
    assert!(!c.is_due_for_background_flush("u/a", 1000));
    let later = 1000 + retry_delay_secs(2000, 1, false);
    assert!(c.is_due_for_background_flush("u/a", later));
    assert_eq!(c.due_paths(later), vec!["u/a"]);
    assert!(matches!(c.begin_flush("u/a", false, later), FlushStart::Started { .. }));
}

#[test]
fn late_writes_are_kept_in_their_own_place() {
    let mut c: WriteCacheManager<&str> = WriteCacheManager::new(&write_config());
    c.enqueue("u", "/a", "u/a", 10, "in memory", 1000).unwrap();
    assert_eq!(c.write_place("u/a"), BlobPlace::Memory);
    assert_eq!(c.write_place("u/b"), BlobPlace::Memory);
    assert!(c.needs_spill("u/a"));
    assert!(matches!(c.begin_flush("u/a", true, 1031), FlushStart::Started { .. }));
    assert!(WriteCacheManager::<&str>::is_late(1030, 1031));
    assert_eq!(
        c.flush_failed("u/a", "down", 1031, true, Some("in a file")),
        (true, Some("in memory"))
    );
    assert_eq!(c.pending_read("u/a"), Some(&"in a file"));
    assert_eq!(c.accounted_bytes(), 0);
    assert!(!c.needs_spill("u/a"));
    let entry = c.pending_entry("u/a").unwrap();
    assert_eq!(entry.place, BlobPlace::AbnormalDir);
    assert_eq!(entry.state, PendingWriteState::Abnormal);
    assert!(matches!(c.begin_flush("u/a", true, 1040), FlushStart::Started { .. }));
    assert_eq!(c.flush_failed("u/a", "down", 1041, true, None), (false, None));
    assert_eq!(c.pending_read("u/a"), Some(&"in a file"));
    assert_eq!(c.write_place("u/a"), BlobPlace::AbnormalDir);
    c.enqueue("u", "/a", "u/a", 20, "overwritten", 1042).unwrap();
    assert_eq!(c.accounted_bytes(), 0);
    assert_eq!(c.pending_entry("u/a").unwrap().place, BlobPlace::AbnormalDir);
}

#[test]
fn a_late_write_that_cannot_be_moved_stays() {
    let mut c: WriteCacheManager<&str> = WriteCacheManager::new(&write_config());
    c.enqueue("u", "/a", "u/a", 10, "A", 1000).unwrap();
    assert!(matches!(c.begin_flush("u/a", true, 1031), FlushStart::Started { .. }));
    assert_eq!(c.flush_failed("u/a", "down", 1031, true, None), (false, None));
    let entry = c.pending_entry("u/a").unwrap();
    assert_eq!((entry.payload, entry.place), ("A", BlobPlace::Memory));
    assert_eq!(entry.state, PendingWriteState::Pending);
    assert_eq!(c.accounted_bytes(), 10);
    assert_eq!(c.flush_failed("u/b", "down", 1031, true, Some("B")), (false, None));
}

#[test]
fn restored_writes_are_added_to_the_account() {
    let mut config = write_config();
    config.backend = "local".to_string();
    let mut c: WriteCacheManager<&str> = WriteCacheManager::new(&config);
    c.restore("u", "/a", "u/a", 100, 900, 930, 3, false, "queued", 1000);
    assert_eq!(c.accounted_bytes(), 100);
    c.restore("u", "/a", "u/a", 100, 900, 930, 3, true, "late", 1000);
    assert_eq!(c.accounted_bytes(), 200);
    assert_eq!(c.pending_read("u/a"), Some(&"late"));
    assert_eq!(c.write_place("u/a"), BlobPlace::AbnormalDir);
    assert_eq!(c.write_place("u/b"), BlobPlace::QueueDir);
    assert!(matches!(c.begin_flush("u/a", true, 1000), FlushStart::Started { .. }));
    assert_eq!(
        c.flush_succeeded("u/a", 3, 100, 100, 1000),
        FlushEnd::Done { index: true, quota: false }
    );
    assert_eq!(c.accounted_bytes(), 100);
    let mut memory: WriteCacheManager<&str> = WriteCacheManager::new(&write_config());
    memory.restore("u", "/a", "u/a", 100, 900, 930, 3, true, "late", 1000);
    assert_eq!(memory.accounted_bytes(), 0);
}

#[test]
fn changes_of_use_add_up_by_user() {
    let mut c: WriteCacheManager<&str> = WriteCacheManager::new(&write_config());
    assert!(c.schedule_quota_sync("u", "/a", 5, 1000));
    assert!(c.schedule_quota_sync("u", "/b", -2, 1000));
    assert!(c.schedule_quota_sync("v", "/a", 7, 1000));
    assert!(!c.schedule_quota_sync("u", "/.thumbs/a", 9, 1000));
    assert!(!c.schedule_quota_sync("u", "/a", 0, 1000));
    assert_eq!(c.pending_quota_delta("u"), 3);
    assert_eq!(c.pending_quota_delta("v"), 7);
    assert!(c.schedule_quota_sync("u", "/a", -3, 1000));
    assert_eq!(c.pending_quota_delta("u"), 0);
}

#[test]
fn files_are_looked_for_in_the_newest_place_first() {
    assert_eq!(source_after(None, true, true), ReadSource::Pending);
    assert_eq!(source_after(None, false, true), ReadSource::Cached);
    assert_eq!(source_after(None, false, false), ReadSource::Storage);
    assert_eq!(source_after(Some(ReadSource::Pending), true, true), ReadSource::Cached);
    assert_eq!(source_after(Some(ReadSource::Pending), true, false), ReadSource::Storage);
    assert_eq!(source_after(Some(ReadSource::Cached), true, true), ReadSource::Storage);
}

#[test]
fn writes_are_admitted_by_size_path_and_room() {
    let mut c: WriteCacheManager<&str> = WriteCacheManager::new(&write_config());
    assert_eq!(c.max_file_size_bytes(), 500);
    assert_eq!(c.admission("/a", "u/a", 501), Admission::Bypass);
    assert_eq!(c.admission("/a.iso", "u/a.iso", 10), Admission::Bypass);
    assert_eq!(c.admission("/a", "u/a", 500), Admission::Fresh);
    c.enqueue("u", "/a", "u/a", 500, "A", 0).unwrap();
    c.enqueue("u", "/b", "u/b", 400, "B", 0).unwrap();
    assert_eq!(c.admission("/c", "u/c", 200), Admission::Bypass);
    assert!(c.enqueue("u", "/c", "u/c", 200, "C", 0).is_none());
    assert_eq!(c.admission("/a", "u/a", 450), Admission::Replace);
    assert!(c.can_take("u/c", 100));
    assert!(!c.can_take("u/c", 101));
}

#[test]
fn index_and_quota_work_follows_a_flush() {
    let mut c: WriteCacheManager<&str> = WriteCacheManager::new(&write_config());
    c.enqueue("u", "/d/a", "u/d/a", 10, "A", 1000).unwrap();
    let generation = match c.begin_flush("u/d/a", true, 1000) {
        FlushStart::Started { generation, .. } => generation,
        other => panic!("{:?}", other),
    };
    c.flush_succeeded("u/d/a", generation, 0, 10, 1000);
    let far = 1_000_000;
    let (key, task) = c.take_due_index_task(far).unwrap();
    assert_eq!(task.user_id, "u");
    assert_eq!(task.logical_parent_path, "/d");
    assert_eq!(task.physical_parent_path, "u/d");
    c.index_sync_done(&key, "u/d");
    assert!(!c.is_dirty_dir("u/d"));
    let (user, quota) = c.take_due_quota_task(far).unwrap();
    assert_eq!(user, "u");
    assert_eq!(quota.delta, 10);
    assert_eq!(c.pending_quota_delta("u"), 0);
    c.quota_sync_failed("u", quota, far);
    assert_eq!(c.pending_quota_delta("u"), 10);
}

#[test]
fn retry_delays_grow_to_their_bounds() {
    assert!(retry_delay_secs(1000, 0, false) >= 1);
    assert!(retry_delay_secs(1000, 3, false) >= retry_delay_secs(1000, 0, false));
    assert!(retry_delay_secs(1000, 1000, false) <= retry_delay_secs(1000, 1000, true));
}

#[test]
fn times_have_the_calendars_bounds() {
    for secs in [
        0i64,
        -1,
        1_700_000_000,
        -8334601228800,
        -8334601228801,
        8210266876799,
        8210266876800,
        i64::MIN,
        i64::MAX,
    ] {
        assert_eq!(
            nanos_of_secs(secs),
            chrono::DateTime::<chrono::Utc>::from_timestamp(secs, 0)
                .map(|t| t.timestamp() as i128 * 1_000_000_000),
            "{}",
            secs
        );
    }
}

#[test]
fn paths_of_entries_are_tidied() {
    assert_eq!(normalize_entry_path("a/b/"), "a/b");
    assert_eq!(normalize_entry_path("/"), "/");
    assert_eq!(normalize_entry_path("a//"), "a/");
    assert_eq!(listing_path("a"), "a/");
    assert_eq!(listing_path("a/"), "a/");
    assert_eq!(listing_path(""), "");
    assert_eq!(physical_to_logical_path("u", "u/a/b").as_deref(), Some("/a/b"));
    assert_eq!(physical_to_logical_path("u", "u").as_deref(), Some("/"));
    assert_eq!(physical_to_logical_path("u", "v/a"), None);
    let info = file_info_from_pending("u/x/y.bin", 3, 5);
    assert_eq!((info.name.as_str(), info.size, info.is_dir), ("y.bin", 3, false));
    assert!(needs_stat(false, false, 9));
    assert!(needs_stat(true, true, 0));
    assert!(!needs_stat(true, true, 1));
    assert_eq!(index_chunk_count(0, 10), 0);
    assert_eq!(index_chunk_count(11, 10), 2);
}

#[test]
fn a_pool_reads_the_newest_first() {
    let read: ReadCacheManager<&str> = ReadCacheManager::new(&read_config(250));
    let write: WriteCacheManager<&str> = WriteCacheManager::new(&write_config());
    let mut pool = VfsPool::new("p".to_string(), true, Some(read), Some(write));
    assert!(pool.is_write_cache_enabled());
    assert_eq!(pool.write_cache_max_file_size(), Some(500));
    assert_eq!(pool.read_source("u/a", 10), (ReadSource::Storage, None));
    if let Some(c) = pool.read_cache.as_mut() {
        c.put("u/a", 5, "cached", 0);
    }
    assert_eq!(pool.read_source("u/a", 10), (ReadSource::Cached, None));
    if let Some(c) = pool.write_cache.as_mut() {
        c.enqueue("u", "/a", "u/a", 5, "pending", 0);
    }
    assert_eq!(pool.read_source("u/a", 10), (ReadSource::Pending, None));
    assert!(pool.is_dirty_path("u/a"));
    assert!(pool.is_dirty_dir("u"));
    assert_eq!(pool.pending_stat("u/a").unwrap().size, 5);
    assert_eq!(pool.pending_quota_delta("u"), 0);
    assert_eq!(pool.invalidate_read_cache("u/a"), Some("cached"));
    assert_eq!(pool.invalidate_read_cache("u/a"), None);
    if let Some(c) = pool.read_cache.as_mut() {
        c.put("u/b", 5, "old", 0);
    }
    assert_eq!(pool.read_source("u/b", 60), (ReadSource::Storage, Some("old")));
    assert_eq!(pool.read_source("u/b", 60), (ReadSource::Storage, None));
    let bare: VfsPool<(), ()> = VfsPool::new("q".to_string(), false, None, None);
    assert!(!bare.is_write_cache_enabled());
    assert_eq!(bare.write_cache_max_file_size(), None);
    assert!(!bare.is_dirty_path("u/a"));
}

#[test]
fn index_rows_are_made_of_a_users_entries() {
    let c: WriteCacheManager<&str> = WriteCacheManager::new(&write_config());
    let entry = |path: &str| {
        VfsFileInfo::plain(String::new(), path.to_string(), false, 1, None)
    };
    let rows = c.index_rows("u", &vec![entry("u/a"), entry("v/b"), entry("u/.thumbs/c")]);
    assert_eq!(rows.len(), 1);
    assert_eq!(rows[0].0, "/a");
}
