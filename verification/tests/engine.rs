//! Operations on a user's scope: admission, settlement, quota, protected areas.
use vfs_storage_hub::cache::write_cache::{WriteCacheConfig, WriteCacheManager};
use vfs_storage_hub::error::VfsError;
use vfs_storage_hub::protected::{ProtectedMode, ProtectedPathPlan, ProtectedPrng};
use vfs_storage_hub::scoped::admission::{
    start_batch_delete, start_change, start_restore, start_transfer, start_trash, start_write, start_write_at,
    start_write_stream, ScopedTransfer, WriteRoute,
};
use vfs_storage_hub::scoped::engine::{
    check_content_transfer, check_protected_delete, check_protected_read,
    check_trash_paths, copy_context, favorites_page_size, is_indexed, list_source, move_context,
    needs_unwrapped_key, page_source, protected_delete_delta, protected_info, protected_size,
    resolve_protected_plan, should_skip_wal_for_path, should_skip_wal_for_write,
    single_path_context, stat_info, stat_source, stream_fits_cache, stream_source,
    temp_entry_info, trash_path, trashed_info, ListSource, PageSource, ProtectedConfig,
    ProtectedSettings, StatSource,
};
use vfs_storage_hub::scoped::flow::{
    fail_reason_text, journal_action, journal_error_text, next_effects, prune_error_text, Effect,
    FailReason, OpKind, Placement, Step,
};
use vfs_storage_hub::scoped::quota::{
    check_quota, get_quota, reclaimed_size, replace_delta, sat_add, sat_sub, write_at_delta,
    StorageSettings, StreamQuota,
};
use vfs_storage_hub::types::VfsFileInfo;

fn plan(root: &str) -> ProtectedPathPlan {
    ProtectedPathPlan {
        root: root.to_string(),
        mode: ProtectedMode::Obfuscate,
        key_slot_id: "slot".to_string(),
        block_size: 64,
        prng: ProtectedPrng::Pcg,
        encrypt_key: None,
        workers: 1,
    }
}

fn cache() -> WriteCacheManager<()> {
    WriteCacheManager::new(&WriteCacheConfig {
        enabled: true,
        backend: "memory".to_string(),
        capacity_bytes: 1000,
        max_file_size_bytes: 100,
        flush_interval_ms: 1000,
        flush_deadline_secs: 10,
        cache_thumbnail_paths: true,
        skip_extensions: Vec::new(),
    })
}

fn internal<T: std::fmt::Debug>(r: Result<T, VfsError>) -> String {
    match r {
        Err(VfsError::Internal(m)) => m,
        other => panic!("{:?}", other),
    }
}

#[test]
fn writes_take_their_route() {
    let c = cache();
    let route = |path: &str, plan: Option<&ProtectedPathPlan>, size: u64| {
        start_write(path, false, plan, Some(&c), size).unwrap()
    };
    assert_eq!(route("a", None, 10), ("/a".to_string(), WriteRoute::Cache));
    assert_eq!(route("/a", None, 101).1, WriteRoute::Direct);
    assert_eq!(route("/.thumbs/a", None, 10).1, WriteRoute::Direct);
    assert_eq!(route("/.virtual/tmp/a", None, 10).1, WriteRoute::Direct);
    assert_eq!(route("/.recycle_bin/a", None, 10).1, WriteRoute::Direct);
    assert_eq!(route("/d/._refresh_here_.txt", None, 10).1, WriteRoute::Refresh);
    let whole = plan("/");
    let vault = plan("/vault");
    assert_eq!(route("/d/._refresh_here_.txt", Some(&whole), 10).1, WriteRoute::Protected);
    assert_eq!(route("/vault/a", Some(&vault), 10).1, WriteRoute::Protected);
    assert_eq!(route("/vault", Some(&vault), 10).1, WriteRoute::Protected);
    assert_eq!(route("/vault2/a", Some(&vault), 10).1, WriteRoute::Cache);
    assert_eq!(
        start_write::<()>("/a", false, None, None, 10).unwrap().1,
        WriteRoute::Direct
    );
    assert_eq!(
        start_write_stream("/a", false, None, Some(&c)).unwrap().1,
        WriteRoute::Cache
    );
}

#[test]
fn maintenance_comes_before_everything() {
    assert!(matches!(
        start_write::<()>("/../x", true, None, None, 1),
        Err(VfsError::MaintenanceMode)
    ));
    assert!(matches!(start_write_at("/a", true, None), Err(VfsError::MaintenanceMode)));
    assert!(matches!(start_change("/a", true, None), Err(VfsError::MaintenanceMode)));
    assert!(matches!(
        start_transfer("/a", "/b", true, None),
        Err(VfsError::MaintenanceMode)
    ));
    assert!(matches!(
        start_trash("/a", true, None, None),
        Err(VfsError::MaintenanceMode)
    ));
    assert!(matches!(
        start_restore("/a", true, None, None),
        Err(VfsError::MaintenanceMode)
    ));
}

#[test]
fn writing_at_an_offset_is_not_for_temporary_files() {
    assert_eq!(internal(start_write_at("/.virtual/tmp/a", false, None)), "Not supported for temp");
    assert_eq!(start_write_at("/a", false, None).unwrap().1, WriteRoute::Direct);
    assert_eq!(
        start_write_at("/a", false, Some(&plan("/"))).unwrap().1,
        WriteRoute::Protected
    );
    assert_eq!(
        start_write_at("/a/._refresh_here_.txt", false, None).unwrap().1,
        WriteRoute::Refresh
    );
}

#[test]
fn transfers_cross_the_protected_area_by_content() {
    let vault = plan("/vault");
    let kind = |a: &str, b: &str| start_transfer(a, b, false, Some(&vault)).unwrap().kind;
    assert_eq!(kind("/vault/a", "/vault/b"), ScopedTransfer::ProtectedDomain);
    assert_eq!(kind("/vault/a", "/b"), ScopedTransfer::ThroughContent);
    assert_eq!(kind("/a", "/vault/b"), ScopedTransfer::ThroughContent);
    assert_eq!(kind("/a", "/b"), ScopedTransfer::Plain);
    assert!(internal(start_transfer("/a", "/../b", false, None)).contains("dot segment"));
    assert_eq!(
        internal(check_content_transfer(true, true)),
        "Protected directory move is not implemented yet"
    );
    assert_eq!(
        internal(check_content_transfer(true, false)),
        "Protected directory copy is not implemented yet"
    );
    assert!(check_content_transfer(false, true).is_ok());
    assert!(start_change("/vault/x", false, Some(&vault)).unwrap().1);
    assert!(!start_change("/x", false, Some(&vault)).unwrap().1);
}

#[test]
fn the_recycle_bin_takes_and_gives_back() {
    let t = trash_path(1700000000, "a.txt");
    assert_eq!(t, "/.recycle_bin/1700000000_a.txt");
    assert_eq!(start_trash("/a.txt", false, None, None).unwrap(), ("/a.txt".to_string(), false));
    assert_eq!(
        internal(start_trash(&t, false, None, None)),
        "Path is already inside recycle bin"
    );
    assert_eq!(
        internal(start_trash("/vault/a", false, Some("/vault"), None)),
        "Recycle bin is disabled for protected subdirectory storage"
    );
    let back = start_restore(&t, false, Some("/a.txt".to_string()), None).unwrap();
    assert_eq!((back.target.as_str(), back.by_index), ("/a.txt", false));
    assert_eq!(
        internal(start_restore("/a.txt", false, Some("/b".to_string()), None)),
        "Path is not inside recycle bin"
    );
    assert_eq!(
        internal(start_restore(&t, false, None, None)),
        "Not in trash or original path lost"
    );
    let whole = plan("/");
    assert!(start_trash("/a.txt", false, Some("/"), Some(&whole)).unwrap().1);
    assert!(!start_trash("/.thumbs/a", false, Some("/"), Some(&whole)).unwrap().1);
    assert!(start_restore(&t, false, Some("/a.txt".to_string()), Some(&whole)).unwrap().by_index);
    assert_eq!(
        internal(check_trash_paths("/.virtual/tmp/a", "/b")),
        "Recycle bin operations do not support temp paths"
    );
    assert!(check_trash_paths("/a", "/b").is_ok());
    let info = VfsFileInfo::plain("a".into(), "/a".into(), false, 4, None);
    let gone = trashed_info(info, t.clone(), "/a".to_string(), 7);
    assert_eq!(gone.path, t);
    assert_eq!(gone.original_path.as_deref(), Some("/a"));
    assert_eq!(gone.trashed_at, Some(7));
    assert_eq!(gone.size, 4);
}

#[test]
fn batches_of_deletions_are_admitted_as_a_whole() {
    let paths = |list: &[&str]| list.iter().map(|s| s.to_string()).collect::<Vec<_>>();
    assert!(start_batch_delete(&paths(&["/a", "/vault2/b"]), false, Some("/vault"), true).is_ok());
    assert!(start_batch_delete(&paths(&["/a"]), false, Some("/"), true).is_ok());
    assert_eq!(
        internal(start_batch_delete(&paths(&["/a", "/vault/b"]), false, Some("/vault"), false)),
        "Recycle bin is disabled for protected subdirectory storage"
    );
    assert!(internal(start_batch_delete(&paths(&["/a//b"]), false, None, false)).contains("empty"));
    assert_eq!(
        internal(start_batch_delete(&paths(&["/a"]), false, None, false)),
        "Task handler not configured"
    );
    assert!(matches!(
        start_batch_delete(&paths(&["/a//b"]), true, None, false),
        Err(VfsError::MaintenanceMode)
    ));
}

#[test]
fn small_and_special_writes_skip_the_log() {
    assert!(should_skip_wal_for_write("/a", 9, false, 10));
    assert!(!should_skip_wal_for_write("/a", 10, false, 10));
    assert!(should_skip_wal_for_write("/.thumbs/a", 99, false, 10));
    assert!(should_skip_wal_for_write("/.virtual/tmp/a", 99, true, 10));
    assert!(!should_skip_wal_for_write("/.virtual/tmp/a", 99, false, 10));
    assert!(should_skip_wal_for_path("/.thumbs_cache/a", false));
    assert!(should_skip_wal_for_path("/.virtual/tmp/a", true));
    assert!(!should_skip_wal_for_path("/a", true));
}

#[test]
fn a_write_is_marked_indexed_and_completed() {
    let ctx = single_path_context(OpKind::Write, "/a", 5, false);
    assert_eq!(ctx.placement, Placement::Pool);
    assert_eq!(
        next_effects(ctx, Step::Physical, false, true),
        vec![Effect::MarkPhysicalDone, Effect::SyncIndex]
    );
    assert_eq!(
        next_effects(ctx, Step::Index, false, true),
        vec![
            Effect::CompleteWal,
            Effect::UpdateQuota(5),
            Effect::JournalSuccess,
            Effect::ReturnOk
        ]
    );
    assert_eq!(
        next_effects(ctx, Step::Index, false, false),
        vec![Effect::FailWal(FailReason::MetadataSync), Effect::ReturnError]
    );
    assert_eq!(
        next_effects(ctx, Step::Physical, false, false),
        vec![
            Effect::FailWal(FailReason::Operation),
            Effect::JournalFailure(FailReason::Operation),
            Effect::ReturnError
        ]
    );
    let thumb = single_path_context(OpKind::Write, "/.thumbs/a", 5, false);
    assert!(!next_effects(thumb, Step::Index, false, true).contains(&Effect::UpdateQuota(5)));
    let kept = single_path_context(OpKind::ProtectedWrite, "/.thumbs/a", 5, false);
    assert!(next_effects(kept, Step::Index, false, true).contains(&Effect::UpdateQuota(5)));
}

#[test]
fn a_stale_deletion_prunes_the_index() {
    let ctx = single_path_context(OpKind::Delete, "/.recycle_bin/a", -5, true);
    assert_eq!(next_effects(ctx, Step::Physical, false, false), vec![Effect::PruneIndex]);
    assert_eq!(
        next_effects(ctx, Step::Prune, false, true),
        vec![
            Effect::MarkPhysicalDone,
            Effect::CompleteWal,
            Effect::InvalidateListings,
            Effect::JournalSuccess,
            Effect::ReturnOk
        ]
    );
    assert_eq!(
        next_effects(ctx, Step::Prune, false, false),
        vec![
            Effect::FailWal(FailReason::PruneFailed),
            Effect::JournalFailure(FailReason::PruneFailed),
            Effect::ReturnPruneError
        ]
    );
}

#[test]
fn a_move_keeps_its_entry_open_where_the_index_failed() {
    let ctx = move_context("/a", "/b");
    assert_eq!(
        next_effects(ctx, Step::Index, false, false),
        vec![Effect::FailWal(FailReason::MetadataSync), Effect::Probe]
    );
    assert_eq!(
        next_effects(ctx, Step::Probe, false, true),
        vec![Effect::JournalSuccess, Effect::ReturnOk]
    );
    assert_eq!(
        next_effects(ctx, Step::Probe, true, true),
        vec![Effect::CompleteWal, Effect::JournalSuccess, Effect::ReturnOk]
    );
    assert_eq!(move_context("/.virtual/tmp/a", "/b").placement, Placement::Across);
    assert_eq!(move_context("/.virtual/tmp/a", "/.virtual/tmp/b").placement, Placement::Temp);
    assert!(move_context("/.thumbs/a", "/b").uncounted);
    let copy = copy_context("/.thumbs/a", "/b", 9);
    assert!(!copy.uncounted);
    assert_eq!(copy.quota_delta, 9);
    assert_eq!(
        next_effects(copy_context("/a", "/b", 0), Step::Index, false, true),
        vec![
            Effect::CompleteWal,
            Effect::UpdateQuota(0),
            Effect::JournalSuccess,
            Effect::ReturnOk
        ]
    );
}

#[test]
fn every_operation_ends_with_a_return() {
    let ops = [
        OpKind::Write,
        OpKind::WriteAt,
        OpKind::WriteStream,
        OpKind::CreateDir,
        OpKind::Delete,
        OpKind::Move,
        OpKind::Copy,
        OpKind::MoveToTrash,
        OpKind::RestoreTrash,
        OpKind::ProtectedWrite,
        OpKind::ProtectedDelete,
        OpKind::ProtectedTrash,
        OpKind::ProtectedRestore,
    ];
    for op in ops {
        for index_ok in [true, false] {
            let ctx = single_path_context(op, "/a", 1, false);
            let mut seen = next_effects(ctx, Step::Physical, false, true);
            if seen.last() == Some(&Effect::SyncIndex) {
                seen.extend(next_effects(ctx, Step::Index, false, index_ok));
            }
            if seen.last() == Some(&Effect::Probe) {
                seen.extend(next_effects(ctx, Step::Probe, index_ok, true));
            }
            assert!(
                matches!(seen.last(), Some(Effect::ReturnOk) | Some(Effect::ReturnError)),
                "{:?}",
                op
            );
            let completed = seen.contains(&Effect::CompleteWal);
            let failed = seen.iter().any(|e| matches!(e, Effect::FailWal(_)));
            assert!(!(completed && failed), "{:?}", op);
        }
    }
}

#[test]
fn failures_have_their_texts() {
    assert_eq!(journal_action(OpKind::CreateDir), "MKDIR");
    assert_eq!(journal_action(OpKind::ProtectedRestore), "RESTORE_TRASH");
    assert_eq!(
        fail_reason_text(OpKind::Move, FailReason::MetadataSync, "/a", Some("/b"), "", "E", ""),
        "MOVE metadata sync failed for /a -> /b: E"
    );
    assert_eq!(
        fail_reason_text(OpKind::Delete, FailReason::DeleteFailed, "/a", None, "u/a", "E", ""),
        "DELETE failed for /a (physical_path=u/a): E"
    );
    assert_eq!(
        fail_reason_text(OpKind::Delete, FailReason::PruneFailed, "/a", None, "u/a", "E", "I"),
        "DELETE stale recycle entry cleanup failed for /a (physical_path=u/a): original_err=E, index_err=I"
    );
    assert_eq!(
        fail_reason_text(OpKind::Write, FailReason::Operation, "/a", None, "", "E", ""),
        "E"
    );
    assert_eq!(
        journal_error_text(FailReason::DeleteFailed, "u/a", "E", ""),
        "physical_path=u/a err=E"
    );
    assert_eq!(
        journal_error_text(FailReason::PruneFailed, "u/a", "E", "I"),
        "physical_path=u/a original_err=E index_cleanup_err=I"
    );
    assert_eq!(
        prune_error_text("/a", "I"),
        "Delete failed for /a and stale recycle entry cleanup also failed: I"
    );
}

#[test]
fn the_quota_is_kept() {
    let s = |quota: i64, used: i64| {
        Some(StorageSettings { storage_quota: quota, storage_used: used })
    };
    assert!(check_quota(s(100, 90), 0, 10).is_ok());
    assert!(matches!(check_quota(s(100, 90), 0, 11), Err(VfsError::QuotaExceeded)));
    assert!(matches!(check_quota(s(100, 90), 5, 6), Err(VfsError::QuotaExceeded)));
    assert!(check_quota(s(0, i64::MAX), 0, i64::MAX).is_ok());
    assert!(check_quota(None, 0, i64::MAX).is_ok());
    assert_eq!(get_quota(s(100, 90), -100), (0, Some(100)));
    assert_eq!(get_quota(s(0, 7), 1), (8, None));
    assert_eq!(get_quota(None, 1), (0, None));
    assert_eq!(sat_add(i64::MAX, 1), i64::MAX);
    assert_eq!(sat_sub(i64::MIN, 1), i64::MIN);
    assert_eq!(replace_delta(10, 4), 6);
    assert_eq!(replace_delta(4, 10), -6);
    assert_eq!(write_at_delta(5, 10, 8), 7);
    assert_eq!(write_at_delta(0, 3, 8), 0);
    assert_eq!(write_at_delta(u64::MAX - 10, 10, u64::MAX - 5), 5);
    assert_eq!(reclaimed_size(&vec![(false, 3), (true, 100), (false, 4)]), 7);
}

#[test]
fn a_stream_is_stopped_at_the_quota() {
    let settings = Some(StorageSettings { storage_quota: 100, storage_used: 50 });
    let mut q = StreamQuota::start(false, settings, 0, 20);
    assert!(q.account(60).is_ok());
    assert!(q.account(10).is_ok());
    assert!(matches!(q.account(1), Err(VfsError::QuotaExceeded)));
    let mut free = StreamQuota::start(true, settings, 0, 0);
    assert!(free.account(1000).is_ok());
}

fn settings(mode: Option<&str>, slot: Option<&str>, key: Option<&str>) -> ProtectedSettings {
    ProtectedSettings {
        root: Some(" / ".to_string()),
        mode: mode.map(str::to_string),
        key_slot_id: slot.map(str::to_string),
        wrapped_key: key.map(str::to_string),
    }
}

fn config(mode: &str) -> ProtectedConfig {
    ProtectedConfig {
        global_mode: mode.to_string(),
        prng: "pcg".to_string(),
        block_size_kib: 4,
        workers: 2,
        encryption_authorized: true,
    }
}

#[test]
fn a_protected_area_is_set_up() {
    let p = resolve_protected_plan(
        &settings(Some(" Obfuscate "), Some(" s "), None),
        &config("OBFUSCATE"),
        None,
    )
    .unwrap()
    .unwrap();
    assert_eq!(p.root, "/");
    assert_eq!(p.key_slot_id, "s");
    assert_eq!(p.block_size, 4096);
    assert_eq!(p.workers, 2);
    assert_eq!(p.encrypt_key, None);
    let encrypted = settings(Some("encrypt"), Some("s"), Some("wrapped"));
    assert!(needs_unwrapped_key(&encrypted));
    let p = resolve_protected_plan(
        &encrypted,
        &config("encrypt"),
        Some(Ok(format!(" {} ", "0a".repeat(32)))),
    )
    .unwrap()
    .unwrap();
    assert_eq!(p.encrypt_key, Some([10u8; 32]));
    let none = ProtectedSettings { root: None, mode: None, key_slot_id: None, wrapped_key: None };
    assert!(resolve_protected_plan(&none, &config("encrypt"), None).unwrap().is_none());
    assert!(!needs_unwrapped_key(&none));
}

#[test]
fn a_wrong_protected_area_is_told() {
    let fails = |s: ProtectedSettings, c: ProtectedConfig, k: Option<Result<String, String>>| {
        internal(resolve_protected_plan(&s, &c, k))
    };
    assert_eq!(fails(settings(None, None, None), config("encrypt"), None), "Protected mode is missing");
    assert_eq!(
        fails(settings(Some("encrypt"), Some(" "), None), config("encrypt"), None),
        "Protected key slot is missing"
    );
    assert_eq!(
        fails(settings(Some("rot13"), Some("s"), None), config("encrypt"), None),
        "Unsupported protected mode: rot13"
    );
    let mut unlicensed = config("encrypt");
    unlicensed.encryption_authorized = false;
    assert_eq!(
        fails(settings(Some("encrypt"), Some("s"), None), unlicensed, None),
        "Storage encryption is disabled. Valid license and 'enabled' flag required."
    );
    assert_eq!(
        fails(settings(Some("encrypt"), Some("s"), None), config("obfuscate"), None),
        "Protected storage is temporarily unavailable because global mode does not match"
    );
    let mut dice = config("encrypt");
    dice.prng = "dice".to_string();
    assert_eq!(
        fails(settings(Some("encrypt"), Some("s"), None), dice, None),
        "Unsupported protected storage PRNG: dice"
    );
    assert_eq!(
        fails(settings(Some("encrypt"), Some("s"), None), config("encrypt"), None),
        "Protected wrapped key is missing"
    );
    let with_key = || settings(Some("encrypt"), Some("s"), Some("k"));
    assert_eq!(
        fails(with_key(), config("encrypt"), Some(Err("bad tag".to_string()))),
        "bad tag"
    );
    assert_eq!(
        fails(with_key(), config("encrypt"), Some(Ok("xx".to_string()))),
        "Decode protected wrapped key failed: Invalid character 'x' at position 0"
    );
    assert_eq!(
        fails(with_key(), config("encrypt"), Some(Ok("00".to_string()))),
        "Protected wrapped key size is invalid"
    );
}

#[test]
fn protected_files_are_checked() {
    assert_eq!(check_protected_read(false, Some("k".to_string())).unwrap(), "k");
    assert_eq!(
        internal(check_protected_read(true, Some("k".to_string()))),
        "Protected directories cannot be read as files"
    );
    assert_eq!(
        internal(check_protected_read(false, None)),
        "Protected file backend key is missing"
    );
    assert_eq!(internal(check_protected_delete(true, 1)), "Protected directory is not empty");
    assert!(check_protected_delete(true, 0).is_ok());
    assert!(check_protected_delete(false, 3).is_ok());
    assert_eq!(protected_size(Some(-4)), 0);
    assert_eq!(protected_size(Some(4)), 4);
    assert_eq!(protected_size(None), 0);
    assert_eq!(protected_delete_delta(false, 9), -9);
    assert_eq!(protected_delete_delta(true, 9), 0);
    assert_eq!(protected_delete_delta(false, -9), 0);
    let info = protected_info("/v/a.txt", false, 3, 9, 2);
    assert_eq!((info.name.as_str(), info.favorite_color, info.modified), ("a.txt", 2, Some(9)));
    assert_eq!(protected_info("/", true, 0, 9, 0).name, "");
    assert!(!is_indexed("/.protected/x", true));
    assert!(!is_indexed("/.thumbs/x", false));
    assert!(is_indexed("/.thumbs/x", true));
    assert!(is_indexed("/x", false));
}

#[test]
fn reads_come_from_the_newest_source() {
    assert_eq!(stat_source(true, true, true, true), StatSource::Temp);
    assert_eq!(stat_source(false, true, false, true), StatSource::Pending);
    assert_eq!(stat_source(false, false, true, true), StatSource::Storage);
    assert_eq!(stat_source(false, false, false, true), StatSource::Index);
    assert_eq!(stat_source(false, false, false, false), StatSource::Storage);
    assert_eq!(list_source(false, 1), ListSource::Index);
    assert_eq!(list_source(false, 0), ListSource::Storage);
    assert_eq!(list_source(true, 1), ListSource::Storage);
    assert_eq!(page_source(1, false, true, Some(5)), PageSource::Listing);
    assert_eq!(page_source(0, false, true, Some(5)), PageSource::Fresh);
    assert_eq!(page_source(0, false, false, Some(5)), PageSource::Index);
    assert_eq!(page_source(0, false, false, Some(0)), PageSource::Listing);
    assert_eq!(page_source(0, false, false, None), PageSource::Listing);
    assert_eq!(stream_source(true, 0, false, false), PageSource::Listing);
    assert_eq!(stream_source(false, 0, false, true), PageSource::Fresh);
    assert_eq!(stream_source(false, 0, false, false), PageSource::Index);
    assert_eq!(stat_info("/a/b", true, 0, None).name, "b");
    let e = temp_entry_info("/.virtual/tmp/", "x", false, 1, 2);
    assert_eq!(e.path, "/.virtual/tmp/x");
    assert_eq!(favorites_page_size("low_memory"), 64);
    assert_eq!(favorites_page_size("throughput"), 512);
    assert_eq!(favorites_page_size("balanced"), 128);
    assert!(stream_fits_cache(3, 7, 10));
    assert!(!stream_fits_cache(3, 8, 10));
    assert!(!stream_fits_cache(usize::MAX, usize::MAX, 10));
}
