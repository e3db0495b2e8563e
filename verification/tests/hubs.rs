//! The hub, its pools and connectors, upkeep, and the backends of phones.
use vfs_storage_hub::android_saf;
use vfs_storage_hub::android_saf::{
    AndroidSafBuilder, DocRow, DocWalk, RenameStep, WalkKind, WalkStep, WriteTarget,
    ANDROID_SAF_MIME_DIR,
};
use vfs_storage_hub::connector::{adapt_options, select_driver, DriverKind, Platform};
use vfs_storage_hub::error::{StorageErrorKind, StorageFault, VfsError};
use vfs_storage_hub::hub::{
    base_dir, check_connectors, is_multipart_expired, is_orphaned, may_be_orphaned, multipart_dir,
    multipart_key, parse_role_id, settings_error, upload_expired, PoolConfig, RolePolicy,
    VfsStorageHub,
};
use vfs_storage_hub::ios_scoped_fs;
use vfs_storage_hub::ios_scoped_fs::{EntryKind, IosScopedFsBuilder, ResolvedBookmark};
use vfs_storage_hub::maintenance::sync_guard::SyncGuardManager;
use vfs_storage_hub::maintenance::{ExpiredItem, VfsMaintenanceService};
use vfs_storage_hub::maintenance_mode::{
    clear_all_maintenance, enter_user_maintenance, exit_user_maintenance, get_all_locked_users,
    is_maintenance_mode, is_user_under_maintenance, release_user_maintenance, LockedUsers,
};
use vfs_storage_hub::metrics::VfsMetrics;
use vfs_storage_hub::pool::{
    after_primary, after_primary_exists, clamp_read_range, dir_path, listed_entry_info,
    metadata_from_info, remove_tree_plan, should_refresh_entry_metadata, slice_bytes,
    stream_temp_path, to_vfs_file_info, tree_list_path, Fallback,
};
use vfs_storage_hub::settings::{KnownSettings, SearchStep, SettingsSearch};
use vfs_storage_hub::types::VfsFileInfo;

fn internal<T>(r: Result<T, VfsError>) -> String {
    match r {
        Err(VfsError::Internal(m)) => m,
        Err(other) => panic!("{:?}", other),
        Ok(_) => panic!("accepted"),
    }
}

fn pool(name: &str, primary: &str, backup: Option<&str>) -> PoolConfig {
    PoolConfig {
        name: name.to_string(),
        primary_connector: primary.to_string(),
        backup_connector: backup.map(str::to_string),
    }
}

fn policy(role: &str, pool: &str, quota: i64) -> RolePolicy {
    RolePolicy {
        role_id: Some(role.to_string()),
        pool_name: Some(pool.to_string()),
        default_quota: quota,
    }
}

fn names(list: &[&str]) -> Vec<String> {
    list.iter().map(|s| s.to_string()).collect()
}

#[test]
fn users_are_routed_to_pools() {
    let hub = VfsStorageHub::new(
        &names(&["c1", "c2"]),
        &vec![pool("a", "c1", Some("c2")), pool("b", "c2", Some("  ")), pool("a", "c2", None)],
        vec![policy("1", "gone", 5), policy("1", "b", 6), policy("2", "a", 7)],
        Some("a".to_string()),
    )
    .unwrap();
    assert_eq!(hub.get_pool("a").unwrap().primary, "c2");
    assert!(hub.get_pool("b").unwrap().backup.is_none());
    assert!(!hub.has_pool("gone"));
    assert_eq!(hub.route_by_role("1").unwrap(), "b");
    assert_eq!(hub.route_by_role("2").unwrap(), "a");
    assert_eq!(hub.route_by_role("9").unwrap(), "a");
    assert_eq!(hub.route_for_user(Some("a"), "1").unwrap(), "a");
    assert_eq!(hub.route_for_user(Some("gone"), "1").unwrap(), "b");
    assert_eq!(hub.route_for_user(None, "1").unwrap(), "b");
    assert_eq!(hub.default_quota("1", None), 5);
    assert_eq!(hub.default_quota("1", Some(99)), 99);
    assert_eq!(hub.default_quota("9", None), 0);
    let plain =
        VfsStorageHub::new(&names(&["c"]), &vec![pool("only", "c", None)], Vec::new(), None).unwrap();
    assert_eq!(plain.route_by_role("x").unwrap(), "only");
}

#[test]
fn new_users_get_the_settings_of_their_role() {
    let hub = VfsStorageHub::new(
        &names(&["c"]),
        &vec![pool("a", "c", None), pool("b", "c", None)],
        vec![policy("1", "b", 6), policy("guest", "b", 7)],
        Some("a".to_string()),
    )
    .unwrap();
    let made = |role: &str, quota| {
        let row = hub.new_user_settings("u", role, quota).unwrap();
        (row.pool_name, row.base_dir, row.quota)
    };
    let row = |pool: &str, quota: i64| (pool.to_string(), "/users/u".to_string(), quota);
    assert_eq!(made("1", Some(99)), row("b", 99));
    assert_eq!(made("1", None), row("b", 6));
    assert_eq!(made("guest", Some(99)), row("b", 7));
    assert_eq!(made("9", None), row("a", 0));
}

#[test]
fn settings_are_looked_for_before_they_are_made() {
    let hub =
        VfsStorageHub::new(&names(&["c"]), &vec![pool("a", "c", None)], Vec::new(), None).unwrap();
    let mut known: KnownSettings<&str> = KnownSettings::new();
    assert_eq!(known.get("u"), None);
    let mut search = SettingsSearch::start(false, "u", "4");
    assert!(matches!(search.next(&hub), Ok(SearchStep::ReadRow)));
    search.row_read(false);
    assert!(matches!(search.next(&hub), Ok(SearchStep::ReadRoleQuota(4))));
    search.role_quota_read(Some(12));
    match search.next(&hub) {
        Ok(SearchStep::Create(row)) => {
            assert_eq!((row.pool_name.as_str(), row.quota), ("a", 12));
            assert_eq!(row.base_dir, "/users/u");
        }
        other => panic!("{:?}", other),
    }
    search.created();
    assert!(matches!(search.next(&hub), Ok(SearchStep::Nothing)));
    known.remember("u", "row");
    assert_eq!(known.get("u"), Some(&"row"));
    assert_eq!(known.get("v"), None);
    let again = SettingsSearch::start(known.get("u").is_some(), "u", "4");
    assert!(matches!(again.next(&hub), Ok(SearchStep::Nothing)));
    let mut found = SettingsSearch::start(false, "v", "4");
    found.row_read(true);
    assert!(matches!(found.next(&hub), Ok(SearchStep::Nothing)));
    let mut unnumbered = SettingsSearch::start(false, "v", "guest");
    unnumbered.row_read(false);
    assert!(matches!(unnumbered.next(&hub), Ok(SearchStep::Create(_))));
}

#[test]
fn a_hub_needs_connectors_and_pools() {
    let new = |c: &[&str], p: Vec<PoolConfig>| {
        internal(VfsStorageHub::new(&names(c), &p, Vec::new(), None))
    };
    assert_eq!(
        new(&[], Vec::new()),
        "No connectors configured (vfs_storage_hub.connectors is empty)"
    );
    assert_eq!(new(&["c"], Vec::new()), "No pools configured (vfs_storage_hub.pools is empty)");
    assert_eq!(new(&["c"], vec![pool("a", "x", None)]), "Primary connector x not found");
    assert_eq!(new(&["c"], vec![pool("a", "c", Some("y"))]), "Backup connector y not found");
    assert!(check_connectors(1).is_ok());
    assert_eq!(base_dir("u"), "/users/u");
    assert_eq!(
        internal::<()>(Err(settings_error("e"))),
        "Failed to create default user settings: e"
    );
}

#[test]
fn role_numbers_are_read_as_the_standard_library_does() {
    for s in ["0", "7", "-7", "+7", "32767", "32768", "-32768", "-32769", "", "-", "+", "a", "1a",
        "007", " 7", "99999999999999999999", "--1", "٣"]
    {
        assert_eq!(parse_role_id(s), s.parse::<i16>().ok(), "{:?}", s);
    }
}

#[test]
fn old_uploads_expire() {
    let t = chrono::DateTime::parse_from_rfc3339("2024-01-01T00:00:00Z").unwrap().timestamp();
    let expired = |at: Option<&str>, now: i64| is_multipart_expired(at, (now, 0), 3600);
    assert!(!expired(Some("2024-01-01T00:00:00Z"), t + 3600));
    assert!(expired(Some("2024-01-01T00:00:00Z"), t + 3601));
    assert!(expired(Some("2024-01-01T02:00:00+02:00"), t + 3601));
    assert!(!expired(Some("2024-01-01"), t + 999_999));
    assert!(!expired(None, t + 999_999));
    assert!(!upload_expired(Some((100, 500_000_000)), (111, 400_000_000), 10));
    assert!(upload_expired(Some((100, 500_000_000)), (111, 500_000_000), 10));
    assert_eq!(multipart_key("id"), "s3:multipart:id");
    assert_eq!(multipart_dir("id"), "/.virtual/tmp/.multipart/id");
    let sec = 1_000_000_000i128;
    assert!(may_be_orphaned(true, Some(0), 11 * sec, 10));
    assert!(!may_be_orphaned(true, Some(0), 11 * sec - 1, 10));
    assert!(!may_be_orphaned(false, Some(0), 99 * sec, 10));
    assert!(!may_be_orphaned(true, None, 99 * sec, 10));
    assert!(is_orphaned(true, Some(false)));
    assert!(!is_orphaned(true, Some(true)));
    assert!(!is_orphaned(true, None));
}

#[test]
fn ages_are_those_of_the_calendar_crate() {
    for (a, b) in [
        ("2024-01-01T10:59:60Z", "2024-01-01T11:00:00Z"),
        ("2024-01-01T23:59:60.5Z", "2024-01-02T00:00:10Z"),
        ("2024-01-01T00:00:00.9Z", "2024-01-01T00:00:02.1Z"),
        ("2024-01-02T00:00:00Z", "2024-01-01T00:00:00.5Z"),
    ] {
        let then = chrono::DateTime::parse_from_rfc3339(a).unwrap();
        let now = chrono::DateTime::parse_from_rfc3339(b).unwrap();
        let age = (now - then).num_seconds();
        let at = (now.timestamp(), now.timestamp_subsec_nanos());
        for limit in [0u64, 1, 9, 10, 11, u64::MAX] {
            assert_eq!(
                is_multipart_expired(Some(a), at, limit),
                age > limit as i64,
                "{} {} {}",
                a,
                b,
                limit
            );
        }
    }
}

#[test]
fn drivers_are_chosen_by_name_and_system() {
    assert_eq!(select_driver("s3", Platform::Other).unwrap(), DriverKind::Service);
    assert_eq!(select_driver("android_saf", Platform::Android).unwrap(), DriverKind::AndroidSaf);
    assert_eq!(select_driver("ios_scoped_fs", Platform::Ios).unwrap(), DriverKind::IosScopedFs);
    assert_eq!(
        internal(select_driver("android_saf", Platform::Other)),
        "android_saf connector is supported only on Android"
    );
    assert_eq!(
        internal(select_driver("ios_scoped_fs", Platform::Android)),
        "ios_scoped_fs connector is supported only on iOS"
    );
}

#[test]
fn older_key_names_give_way() {
    let options = |list: &[(&str, &str)]| -> Vec<(String, String)> {
        list.iter().map(|(k, v)| (k.to_string(), v.to_string())).collect()
    };
    let get = |driver: &str, list: &[(&str, &str)], key: &str| {
        adapt_options(driver, &options(list), Some("/r".to_string())).get(key).cloned()
    };
    let list = [("access_key", "old"), ("secret_key", "s"), ("bucket", "b")];
    assert_eq!(get("s3", &list, "access_key_id").as_deref(), Some("old"));
    assert_eq!(get("s3", &list, "secret_access_key").as_deref(), Some("s"));
    assert_eq!(get("s3", &list, "access_key"), None);
    assert_eq!(get("s3", &list, "secret_key"), None);
    assert_eq!(get("s3", &list, "bucket").as_deref(), Some("b"));
    assert_eq!(get("s3", &list, "root").as_deref(), Some("/r"));
    assert_eq!(
        get("s3", &[("access_key", "old"), ("access_key_id", "new")], "access_key_id").as_deref(),
        Some("new")
    );
    assert_eq!(get("fs", &list, "access_key").as_deref(), Some("old"));
    assert_eq!(get("fs", &list, "access_key_id"), None);
}

#[test]
fn pools_tell_of_their_entries() {
    let info = listed_entry_info("u/d/sub/", true, 0, None);
    assert_eq!((info.path.as_str(), info.name.as_str()), ("u/d/sub", "sub"));
    assert_eq!(to_vfs_file_info("u/a.txt", false, 3, Some(4)).name, "a.txt");
    assert!(should_refresh_entry_metadata(None));
    assert_eq!(slice_bytes(b"abcdef", 2, 99), b"cdef");
    assert!(slice_bytes(b"abc", 2, 1).is_empty());
    assert_eq!(clamp_read_range(2, 99, 6), (2, 6));
    assert_eq!(clamp_read_range(9, 99, 6), (6, 6));
    assert_eq!(clamp_read_range(4, 2, 6), (4, 4));
    assert_eq!(dir_path("a"), "a/");
    assert_eq!(dir_path("a/"), "a/");
    assert_eq!(dir_path(""), "/");
    assert_eq!(stream_temp_path("a"), "a.tmp");
    let meta = metadata_from_info(to_vfs_file_info("p", false, 3, Some(4)));
    assert_eq!((meta.path.as_str(), meta.size, meta.etag), ("p", 3, None));
    assert_eq!(after_primary(true, false), Fallback::Keep);
    assert_eq!(after_primary(false, true), Fallback::Backup);
    assert_eq!(after_primary(false, false), Fallback::Fail);
    assert_eq!(after_primary_exists(Some(false), true), Fallback::Backup);
    assert_eq!(after_primary_exists(Some(false), false), Fallback::Keep);
    assert_eq!(after_primary_exists(Some(true), true), Fallback::Keep);
    assert_eq!(after_primary_exists(None, false), Fallback::Fail);
}

#[test]
fn a_tree_is_removed_from_its_leaves() {
    let e = |path: &str, dir: bool| to_vfs_file_info(path, dir, 0, None);
    let entries: Vec<VfsFileInfo> = vec![
        e("u/d", true),
        e("u/d/s", true),
        e("u/d/s/deep.txt", false),
        e("u/d/a", false),
        e("u/d/", true),
    ];
    assert_eq!(
        remove_tree_plan("u/d/", &entries),
        vec!["u/d/s/deep.txt", "u/d/a", "u/d/s/"]
    );
    assert_eq!(tree_list_path("u/d"), "u/d/");
    assert_eq!(tree_list_path("/"), "/");
}

#[test]
fn users_are_put_under_maintenance() {
    let mut locked = LockedUsers::new();
    assert!(!is_maintenance_mode(&locked));
    let guard = enter_user_maintenance(&mut locked, "a");
    let _other = enter_user_maintenance(&mut locked, "b");
    assert!(is_user_under_maintenance(&locked, "a"));
    assert!(!is_user_under_maintenance(&locked, "c"));
    let mut all = get_all_locked_users(&locked);
    all.sort();
    assert_eq!(all, vec!["a", "b"]);
    release_user_maintenance(&mut locked, guard);
    assert!(!is_user_under_maintenance(&locked, "a"));
    assert!(is_maintenance_mode(&locked));
    exit_user_maintenance(&mut locked, "b");
    assert!(!is_maintenance_mode(&locked));
    let _g = enter_user_maintenance(&mut locked, "z");
    clear_all_maintenance(&mut locked);
    assert!(get_all_locked_users(&locked).is_empty());
}

#[test]
fn upkeep_is_portioned() {
    assert_eq!(VfsMaintenanceService::maintenance_batch_size("low_memory"), 64);
    assert_eq!(VfsMaintenanceService::maintenance_batch_size("x"), 128);
    assert!(!VfsMaintenanceService::is_trash_cleanup_on(0));
    let item = |u: &str, p: &str| ExpiredItem { user_id: u.to_string(), path: p.to_string() };
    let groups = VfsMaintenanceService::group_by_user(vec![
        item("a", "/1"),
        item("b", "/2"),
        item("a", "/3"),
    ]);
    assert_eq!(groups.get("a"), Some(&names(&["/1", "/3"])));
    assert_eq!(groups.get("b"), Some(&names(&["/2"])));
    assert_eq!(groups.len(), 2);
    assert_eq!(VfsMaintenanceService::sync_lock_key("u"), "vfs:sync_lock:u");
    assert!(VfsMaintenanceService::may_start_sync(None));
    assert!(!VfsMaintenanceService::may_start_sync(Some(true)));
    assert_eq!(VfsMaintenanceService::sync_path(None), "/");
    assert_eq!(VfsMaintenanceService::sync_path(Some("/a")), "/a");
}

#[test]
fn one_path_has_one_guard() {
    let mut m: SyncGuardManager<u32> = SyncGuardManager::new();
    assert_eq!(*m.get_guard("u", "/a", 1), 1);
    assert_eq!(*m.get_guard("u", "/a", 2), 1);
    assert_eq!(*m.get_guard("u", "/b", 3), 3);
    assert_eq!(*m.get_guard("v", "/a", 4), 4);
    m.prune(|g: &u32| *g != 1);
    assert_eq!(*m.get_guard("u", "/a", 5), 5);
    assert_eq!(*m.get_guard("u", "/b", 6), 3);
    assert_eq!(*m.get_guard("v", "/a", 7), 4);
}

#[test]
fn counters_count_and_wrap() {
    let zero = VfsMetrics::default().snapshot();
    assert_eq!((zero.read_cache_hits, zero.index_sync_rows, zero.quota_sync_failed), (0, 0, 0));
    let mut m = VfsMetrics::default();
    m.record_read_cache_hit();
    m.record_read_cache_put(u64::MAX);
    m.record_read_cache_put(2);
    m.record_index_sync_completed(3, 4);
    m.record_quota_sync_failed();
    let s = m.snapshot();
    assert_eq!((s.read_cache_hits, s.read_cache_puts, s.read_cache_put_bytes), (1, 2, 1));
    assert_eq!((s.index_sync_completed, s.index_sync_rows, s.index_sync_chunks), (1, 3, 4));
    assert_eq!((s.quota_sync_failed, s.quota_sync_success), (1, 0));
}

fn row(id: &str, name: &str, dir: bool) -> DocRow {
    let mime = if dir { ANDROID_SAF_MIME_DIR } else { "text/plain" };
    DocRow { id: id.to_string(), name: name.to_string(), mime: mime.to_string() }
}

#[test]
fn documents_are_walked_to() {
    let mut w = DocWalk::new(WalkKind::Existing, "root", " /a//b/ ");
    assert_eq!(w.pending(), Some(("root", "a")));
    assert!(matches!(
        w.enter(Some(&vec![row("x", "z", true), row("1", "a", true), row("2", "a", true)])),
        WalkStep::Entered
    ));
    assert_eq!(w.pending(), Some(("1", "b")));
    match w.enter(Some(&Vec::new())) {
        WalkStep::Failed(e) => {
            assert_eq!(e.kind, StorageErrorKind::NotFound);
            assert_eq!(e.message, "Path component not found");
        }
        other => panic!("{:?}", other),
    }
    match w.enter(None) {
        WalkStep::Failed(e) => assert_eq!(e.message, "ContentResolver.query returned null cursor"),
        other => panic!("{:?}", other),
    }
    assert!(matches!(w.enter(Some(&vec![row("3", "b", false)])), WalkStep::Entered));
    assert_eq!(w.pending(), None);
    assert_eq!(w.current(), "3");
    assert_eq!(DocWalk::new(WalkKind::Existing, "root", "/").pending(), None);
}

#[test]
fn missing_directories_are_created_or_told() {
    let mut w = DocWalk::new(WalkKind::CreateDirectory, "root", "a/b");
    assert!(matches!(w.enter(Some(&Vec::new())), WalkStep::Create));
    w.created("new");
    assert_eq!(w.pending(), Some(("new", "b")));
    match w.enter(Some(&vec![row("f", "b", false)])) {
        WalkStep::Failed(e) => {
            assert_eq!(e.kind, StorageErrorKind::NotADirectory);
            assert_eq!(e.message, "Path component is not a directory");
        }
        other => panic!("{:?}", other),
    }
    let mut d = DocWalk::new(WalkKind::Directory, "root", "a");
    match d.enter(Some(&Vec::new())) {
        WalkStep::Failed(e) => assert_eq!(e.message, "Directory not found"),
        other => panic!("{:?}", other),
    }
}

#[test]
fn android_answers_are_understood() {
    let uri = |s: &str| AndroidSafBuilder::default().root(s).into_tree_uri();
    assert_eq!(uri(" content://x ").unwrap(), "content://x");
    assert_eq!(uri(" ").unwrap_err().message, "android_saf root (tree uri) is not specified");
    assert_eq!(
        uri("file://x").unwrap_err().message,
        "android_saf root must be a SAF tree uri (content://...)"
    );
    let kind = |ex: &str| android_saf::system_fault("list", Some(ex)).kind;
    assert_eq!(kind("java.lang.SecurityException: x"), StorageErrorKind::PermissionDenied);
    assert_eq!(kind("no PERMISSION"), StorageErrorKind::PermissionDenied);
    assert_eq!(kind("java.io.FileNotFoundException"), StorageErrorKind::NotFound);
    assert_eq!(kind("UnsupportedOperationException"), StorageErrorKind::Unsupported);
    assert_eq!(kind("boom"), StorageErrorKind::Unexpected);
    assert_eq!(
        android_saf::system_fault("list", Some("boom")).message,
        "android_saf jni error during list: boom"
    );
    assert_eq!(
        android_saf::system_fault("list", None).message,
        "android_saf jni error during list"
    );
    assert_eq!(android_saf::normalize_path(" /a/b/ "), ("a/b".to_string(), true));
    assert_eq!(
        android_saf::split_parent_child("/a/b/c"),
        ("a/b".to_string(), "c".to_string())
    );
    assert_eq!(android_saf::split_parent_child("c/"), (String::new(), "c".to_string()));
    let stat = android_saf::doc_stat(ANDROID_SAF_MIME_DIR, None, Some(0));
    assert_eq!((stat.is_dir, stat.size, stat.modified_ms), (true, 0, None));
    let stat = android_saf::doc_stat("a/b", Some(7), Some(9));
    assert_eq!((stat.is_dir, stat.size, stat.modified_ms), (false, 7, Some(9)));
    assert_eq!(android_saf::entry_path("/d/", "n", true), "d/n/");
    assert_eq!(android_saf::entry_path("/", "n", false), "n");
    assert!(android_saf::check_write(false, 1).is_ok());
    assert_eq!(
        android_saf::check_write(true, 1).unwrap_err().message,
        "android_saf doesn't support append writes"
    );
    assert_eq!(
        android_saf::check_write(false, 2).unwrap_err().message,
        "android_saf doesn't support concurrent writes"
    );
}

#[test]
fn android_files_are_opened_deleted_and_renamed() {
    let missing = || StorageFault::new(StorageErrorKind::NotFound, "x");
    let broken = || StorageFault::new(StorageErrorKind::Unexpected, "x");
    assert!(matches!(
        android_saf::write_target(Ok("1".to_string()), false),
        Ok(WriteTarget::Existing(_))
    ));
    assert_eq!(
        android_saf::write_target(Ok("1".to_string()), true).unwrap_err().kind,
        StorageErrorKind::ConditionNotMatch
    );
    assert!(matches!(android_saf::write_target(Err(missing()), true), Ok(WriteTarget::Create)));
    assert!(android_saf::write_target(Err(broken()), true).is_err());
    assert_eq!(android_saf::check_write_path("/").unwrap_err().message, "Invalid path for write");
    assert_eq!(android_saf::check_write_path("/a/b").unwrap().1, "b");
    assert_eq!(
        android_saf::delete_target(Ok("root".to_string()), "root").unwrap_err().message,
        "Refusing to delete SAF tree root"
    );
    assert_eq!(android_saf::delete_target(Err(missing()), "root").unwrap(), None);
    assert!(android_saf::delete_target(Err(broken()), "root").is_err());
    assert_eq!(
        android_saf::delete_target(Ok("1".to_string()), "root").unwrap().as_deref(),
        Some("1")
    );
    assert_eq!(
        android_saf::delete_outcome(false).unwrap_err().message,
        "DocumentsContract.deleteDocument returned false"
    );
    assert!(android_saf::list_outcome(Err(missing())).unwrap().is_empty());
    assert!(android_saf::list_outcome(Err(broken())).is_err());
    assert_eq!(android_saf::check_rename("/a", "/").unwrap_err().message, "Invalid rename path");
    assert!(android_saf::check_rename("/a", "/b").is_ok());
    assert_eq!(android_saf::rename_start(false, false), RenameStep::MoveDocument);
    assert_eq!(android_saf::rename_start(true, false), RenameStep::RenameDocument);
    assert_eq!(android_saf::rename_start(true, true), RenameStep::Done);
    let next = android_saf::rename_next;
    assert_eq!(next(RenameStep::MoveDocument, false, true), RenameStep::CopyAndDelete);
    assert_eq!(next(RenameStep::MoveDocument, true, false), RenameStep::RenameDocument);
    assert_eq!(next(RenameStep::RenameDocument, false, false), RenameStep::CopyAndDelete);
    assert_eq!(next(RenameStep::RenameDocument, true, false), RenameStep::Done);
}

#[test]
fn bookmarks_are_decoded() {
    let b = |s: &str| IosScopedFsBuilder::default().root(s).into_bookmark();
    assert_eq!(b(" bookmark_b64: aGVsbG8= ").unwrap(), b"hello");
    assert_eq!(b("bookmark_b64:+/+/").unwrap(), vec![0xfb, 0xff, 0xbf]);
    assert_eq!(b("bookmark_b64:AA==").unwrap(), vec![0]);
    assert!(b("bookmark_b64:").unwrap().is_empty());
    for bad in ["aGVsbG8", "aGVsbG9=", "AB==", "A===", "====", "a-b_", "aGVs\nbG8=", "aGVsbG8=aGVs"] {
        assert_eq!(
            b(&format!("bookmark_b64:{}", bad)).unwrap_err().message,
            "failed to decode iOS bookmark base64",
            "{}",
            bad
        );
    }
    assert_eq!(
        b("aGVsbG8=").unwrap_err().message,
        "ios_scoped_fs root must start with 'bookmark_b64:'"
    );
    assert_eq!(b("  ").unwrap_err().message, "ios_scoped_fs root is not specified");
}

#[test]
fn ios_answers_are_understood() {
    let good = ResolvedBookmark {
        resolved: true,
        is_stale: false,
        access_started: true,
        path_is_absolute: Some(true),
    };
    assert!(ios_scoped_fs::check_resolved(good).is_ok());
    let told = |b: ResolvedBookmark| ios_scoped_fs::check_resolved(b).unwrap_err().message;
    assert_eq!(
        told(ResolvedBookmark { resolved: false, ..good }),
        "failed to resolve security-scoped bookmark"
    );
    assert_eq!(
        told(ResolvedBookmark { is_stale: true, ..good }),
        "security-scoped bookmark is stale; user must re-pick the directory"
    );
    assert_eq!(
        told(ResolvedBookmark { access_started: false, ..good }),
        "startAccessingSecurityScopedResource returned false"
    );
    assert_eq!(
        told(ResolvedBookmark { path_is_absolute: None, ..good }),
        "failed to get file path from NSURL"
    );
    assert_eq!(
        told(ResolvedBookmark { path_is_absolute: Some(false), ..good }),
        "resolved root path is not absolute"
    );
    assert_eq!(ios_scoped_fs::relative_path("/a/b/").as_deref(), Some("a/b"));
    assert_eq!(ios_scoped_fs::relative_path("/"), None);
    assert_eq!(ios_scoped_fs::entry_path("d/", "n", true), "d/n/");
    assert_eq!(ios_scoped_fs::entry_path("", "n", false), "n");
    assert_eq!(ios_scoped_fs::entry_kind(true, true), EntryKind::Dir);
    assert_eq!(ios_scoped_fs::entry_kind(false, true), EntryKind::File);
    assert_eq!(ios_scoped_fs::entry_kind(false, false), EntryKind::Unknown);
    assert_eq!(ios_scoped_fs::next_read_len(5, 5), 0);
    assert_eq!(ios_scoped_fs::next_read_len(0, 5), 5);
    assert_eq!(ios_scoped_fs::next_read_len(1, usize::MAX), 2 * 1024 * 1024);
    assert_eq!(
        ios_scoped_fs::check_write(true, 1).unwrap_err().message,
        "ios_scoped_fs doesn't support append writes"
    );
    assert_eq!(
        ios_scoped_fs::check_write(false, 3).unwrap_err().message,
        "ios_scoped_fs doesn't support concurrent writes"
    );
}

#[test]
fn errors_tell_themselves() {
    assert_eq!(VfsError::QuotaExceeded.message(), "Storage quota exceeded");
    assert_eq!(VfsError::NotFound("/a".to_string()).message(), "Path not found: /a");
    assert_eq!(
        VfsError::MaintenanceMode.message(),
        "System maintenance in progress (WAL recovery), please try again later"
    );
    let e = VfsError::from_storage(StorageErrorKind::NotFound, "gone".to_string());
    assert!(matches!(e, VfsError::NotFound(_)));
    assert!(e.is_not_found_error());
    assert!(!VfsError::QuotaExceeded.is_not_found_error());
    assert!(matches!(
        VfsError::QuotaExceeded.clone(),
        VfsError::Internal(ref m) if m == "Storage quota exceeded"
    ));
}

#[test]
fn a_guard_in_use_is_kept_for_its_path() {
    let mut m: SyncGuardManager<u32> = SyncGuardManager::new();
    assert_eq!(*m.get_guard("u", "/a", 1), 1);
    assert_eq!(*m.get_guard("u", "/b", 2), 2);
    m.prune(|g: &u32| *g == 1);
    assert_eq!(*m.get_guard("v", "/a", 3), 3);
    assert_eq!(*m.get_guard("u", "/a", 4), 1);
    m.prune(|g: &u32| *g == 1);
    assert_eq!(*m.get_guard("u", "/a", 5), 1);
    assert_eq!(*m.get_guard("u", "/b", 6), 6);
    m.prune(|_: &u32| false);
    assert_eq!(*m.get_guard("u", "/a", 7), 7);
}

#[test]
fn counters_show_how_often_each_event_was_recorded() {
    let mut m = VfsMetrics::default();
    m.record_write_cache_flush_success();
    m.record_write_cache_flush_failure();
    m.record_write_cache_flush_success();
    m.record_read_cache_put(u64::MAX);
    m.record_read_cache_put(3);
    m.record_index_sync_completed(5, 1);
    m.record_index_sync_skipped_debounce();
    m.record_index_sync_completed(7, 2);
    m.record_index_sync_skipped_inflight();
    m.record_index_sync_failed();
    let s = m.snapshot();
    assert_eq!((s.write_cache_flush_success, s.write_cache_flush_failures), (2, 1));
    assert_eq!((s.read_cache_puts, s.read_cache_put_bytes), (2, 2));
    assert_eq!((s.index_sync_completed, s.index_sync_rows, s.index_sync_chunks), (2, 12, 3));
    assert_eq!((s.index_sync_skipped_debounce, s.index_sync_skipped_inflight), (1, 1));
    assert_eq!((s.index_sync_failed, s.read_cache_hits, s.quota_sync_success), (1, 0, 0));
    assert_eq!(m.snapshot(), s);
}

#[test]
fn a_directory_whose_name_ends_in_a_space_is_found() {
    let (parent, name) = android_saf::split_parent_child("a /b");
    assert_eq!((parent.as_str(), name.as_str()), ("a ", "b"));
    let way = format!("{}/", parent);
    let walk = DocWalk::new(WalkKind::Directory, "root", &way);
    assert_eq!(walk.pending(), Some(("root", "a ")));
}
