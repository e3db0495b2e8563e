//! Mounted storages and their synchronisation.
use vfs_storage_hub::error::VfsError;
use vfs_storage_hub::mounted::route::{
    check_mount_root, check_mounted_favorite, is_path_within, join_logical_path,
    normalize_dir_path, recursive_size, transfer_route, validate_path, MountOperation, MountPoint,
    MountTable, TransferRoute,
};
use vfs_storage_hub::mounted::sync::{
    check_sync_setup, collect_tree, conflict_error, debug_tree_entries, missing_source_error,
    next_sync_at, path_depth, relative_path, sync_bidirectional_keep, sync_job, sync_report,
    sync_timeout_error, sync_timeout_secs, sync_unidirectional, PairAction, RemoteMountSyncMode, SyncJob,
};
use vfs_storage_hub::mounted::transfer::{
    needed_parent, ChildEntry, CopyStep, DeleteStep, TreeCopy, TreeDelete,
};
use vfs_storage_hub::types::VfsFileInfo;

fn mount(id: &str, dir: &str) -> MountPoint {
    MountPoint {
        id: id.to_string(),
        mount_dir: dir.to_string(),
        last_sync_at: None,
        updated_at: 77,
    }
}

fn table() -> MountTable {
    MountTable::new(vec![mount("a", "/m"), mount("b", "/m/deep"), mount("c", "/x/y")])
}

fn entry(path: &str, is_dir: bool, modified: i128) -> VfsFileInfo {
    let name = path.rsplit('/').next().unwrap_or("").to_string();
    VfsFileInfo::plain(name, path.to_string(), is_dir, 1, Some(modified))
}

fn text(e: VfsError) -> String {
    match e {
        VfsError::Internal(m) | VfsError::PermissionDenied(m) | VfsError::NotFound(m) => m,
        other => panic!("{:?}", other),
    }
}

#[test]
fn the_longest_mount_wins() {
    let t = table();
    assert_eq!(t.len(), 3);
    let (i, remote) = t.resolve_runtime("/m/deep/f").unwrap();
    assert_eq!((t.mount(i).id.as_str(), remote.as_str()), ("b", "/f"));
    let (i, remote) = t.resolve_runtime("/m/other/").unwrap();
    assert_eq!((t.mount(i).id.as_str(), remote.as_str()), ("a", "/other"));
    let (i, remote) = t.resolve_runtime("m").unwrap();
    assert_eq!((t.mount(i).id.as_str(), remote.as_str()), ("a", "/"));
    assert!(t.resolve_runtime("/mm").is_none());
    assert!(t.contains_mounted_path("/x/y/z"));
    assert!(!t.contains_mounted_path("/x"));
    assert!(t.any_mounted(&vec!["/q".to_string(), "/m/a".to_string()]));
    assert!(!t.any_mounted(&vec!["/q".to_string()]));
}

#[test]
fn paths_go_to_the_mount_and_back() {
    let t = table();
    for path in ["/m/a/b", "/m/deep/z", "/x/y/q"] {
        let (i, remote) = t.resolve_runtime(path).unwrap();
        assert_eq!(t.mount(i).map_runtime_path(&remote), path);
    }
    let m = mount("a", "/m");
    assert_eq!(m.map_runtime_path("/"), "/m");
    assert_eq!(m.map_runtime_path(""), "/m");
    assert_eq!(m.map_runtime_path("//a"), "/m/a");
    let info = m.map_remote_info(&entry("/f", false, 5));
    assert_eq!((info.path.as_str(), info.name.as_str()), ("/m/f", "f"));
    let root = m.map_remote_info(&entry("/", true, 5));
    assert_eq!((root.path.as_str(), root.name.as_str()), ("/m", "m"));
    let own = m.mount_root_info();
    assert_eq!((own.name.as_str(), own.is_dir, own.modified), ("m", true, Some(77)));
}

#[test]
fn endpoints_are_resolved_and_checked() {
    let t = table();
    let e = t.resolve_endpoint("/m").unwrap();
    assert!(e.is_mount_root);
    let base = t.resolve_endpoint("a\\b").unwrap();
    assert_eq!((base.mount, base.path.as_str()), (None, "/a/b"));
    assert_eq!(
        text(t.resolve_endpoint("/a/../b").unwrap_err()),
        "Security violation: parent path segments are not allowed"
    );
    assert_eq!(
        text(validate_path("/a\tb").unwrap_err()),
        "Security violation: control characters in path"
    );
    let f = |p: &str| t.resolve_endpoint(p).unwrap();
    assert_eq!(transfer_route(&f("/a"), &f("/b")), TransferRoute::Base);
    assert_eq!(transfer_route(&f("/m"), &f("/b")), TransferRoute::Refused);
    assert_eq!(transfer_route(&f("/a"), &f("/m/b")), TransferRoute::Across);
    assert!(matches!(transfer_route(&f("/m/a"), &f("/m/b")), TransferRoute::WithinMount(_)));
    assert_eq!(transfer_route(&f("/m/a"), &f("/x/y/b")), TransferRoute::Across);
}

#[test]
fn mount_roots_are_left_alone() {
    let refused = |op| text(check_mount_root(op, true).unwrap_err());
    assert_eq!(refused(MountOperation::Read), "Cannot read a mount root directory");
    assert_eq!(refused(MountOperation::Stream), "Cannot stream a mount root directory");
    assert_eq!(refused(MountOperation::Write), "Cannot overwrite a mount root");
    assert_eq!(refused(MountOperation::WriteStream), "Cannot write a mount root");
    assert_eq!(
        refused(MountOperation::Delete),
        "Use mount management to remove a mounted directory"
    );
    assert_eq!(
        refused(MountOperation::MoveOrCopy),
        "Moving or copying a mount root is not supported"
    );
    assert!(check_mount_root(MountOperation::CreateDir, true).is_err());
    assert!(check_mount_root(MountOperation::Read, false).is_ok());
    assert!(check_mounted_favorite(0).is_ok());
    assert_eq!(
        text(check_mounted_favorite(3).unwrap_err()),
        "Favorites for mounted remote files are not supported yet"
    );
}

#[test]
fn listings_show_the_mounts() {
    let t = table();
    let merged = t.merge_local_listing("/", vec![entry("/z", false, 0), entry("/a", false, 0)]);
    let paths: Vec<&str> = merged.iter().map(|e| e.path.as_str()).collect();
    assert_eq!(paths, vec!["/a", "/m", "/z"]);
    assert_eq!(t.merge_local_listing("/x", Vec::new())[0].path, "/x/y");
    assert_eq!(t.direct_mount_children("/").len(), 1);
    assert_eq!(t.descendant_mounts("/m").len(), 2);
    let mut all = vec![entry("/m0", false, 0)];
    let i = t.descendant_mounts("/x")[0];
    t.append_mount(&mut all, i, &vec![entry("/r", false, 0)]);
    let paths: Vec<&str> = all.iter().map(|e| e.path.as_str()).collect();
    assert_eq!(paths, vec!["/m0", "/x/y", "/x/y/r"]);
    assert_eq!(t.map_all(i, &vec![entry("/q", false, 0)])[0].path, "/x/y/q");
    assert_eq!(recursive_size(&vec![entry("/a", false, 0), entry("/d", true, 0)]), 1);
}

#[test]
fn logical_paths_are_joined() {
    assert_eq!(join_logical_path("/", "a"), "/a");
    assert_eq!(join_logical_path("/a/", "/b"), "/a/b");
    assert_eq!(join_logical_path("/a", ""), "/a");
    assert_eq!(normalize_dir_path("a/b//"), "/a/b");
    assert_eq!(normalize_dir_path("/"), "/");
    assert!(is_path_within("/a/b", "/a"));
    assert!(is_path_within("/a", "/a"));
    assert!(!is_path_within("/ab", "/a"));
    assert_eq!(path_depth("/a//b/"), 2);
    assert_eq!(relative_path("/r", "/r/a/b"), "a/b");
}

#[test]
fn a_mirror_copies_what_is_newer_and_deletes_extras() {
    let source = collect_tree(
        "/s",
        &vec![
            entry("/s/d", true, 0),
            entry("/s/d/e", true, 0),
            entry("/s/d/new", false, 20),
            entry("/s/same", false, 10),
        ],
    );
    let dst = collect_tree(
        "/t",
        &vec![
            entry("/t/d", true, 0),
            entry("/t/d/new", false, 10),
            entry("/t/same", false, 10),
            entry("/t/extra", true, 0),
            entry("/t/extra/f", false, 0),
        ],
    );
    let plan = sync_unidirectional(&source, &dst, "/t", true);
    assert_eq!(plan.directories, vec!["d", "d/e"]);
    let copied: Vec<&str> = plan.copies.iter().map(|c| c.to.as_str()).collect();
    assert_eq!(copied, vec!["/t/d/new"]);
    assert_eq!(plan.copies[0].from, "/s/d/new");
    assert_eq!(plan.extras, vec!["extra/f", "extra"]);
    assert!(sync_unidirectional(&source, &dst, "/t", false).extras.is_empty());
}

#[test]
fn both_ways_keep_the_newer_and_stop_at_conflicts() {
    let left = collect_tree(
        "/l",
        &vec![entry("/l/a", false, 2), entry("/l/b", false, 1), entry("/l/d", true, 0)],
    );
    let right = collect_tree(
        "/r",
        &vec![entry("/r/a", false, 1), entry("/r/b", false, 2), entry("/r/c", false, 1)],
    );
    let plan = sync_bidirectional_keep(&left, &right);
    assert!(plan.conflict.is_none());
    let action = |p: &str| plan.steps.iter().find(|s| s.0 == p).map(|s| s.1);
    assert_eq!(action("a"), Some(PairAction::CopyToRight));
    assert_eq!(action("b"), Some(PairAction::CopyToLeft));
    assert_eq!(action("c"), Some(PairAction::CopyToLeft));
    assert_eq!(action("d"), Some(PairAction::CreateOnRight));
    let clash = collect_tree("/r", &vec![entry("/r/d", false, 1)]);
    assert_eq!(sync_bidirectional_keep(&left, &clash).conflict.as_deref(), Some("d"));
    assert!(text(conflict_error("d")).contains("d"));
    assert_eq!(text(missing_source_error("/s")), "Source directory '/s' does not exist");
}

#[test]
fn trees_are_told_line_by_line() {
    let tree = collect_tree("/r", &vec![entry("/r/b", false, 0), entry("/r/a", true, 0)]);
    assert_eq!(debug_tree_entries(&tree), vec!["a => /r/a [dir]", "b => /r/b [file]"]);
}

#[test]
fn synchronisations_are_set_up() {
    let mode = RemoteMountSyncMode::PeerToMountMirror;
    assert_eq!(sync_job(mode), SyncJob::ToMount { mirror: true });
    assert_eq!(sync_job(RemoteMountSyncMode::MountToPeerKeep), SyncJob::ToPeer { mirror: false });
    assert_eq!(sync_job(RemoteMountSyncMode::BidirectionalKeep), SyncJob::Both);
    assert_eq!(check_sync_setup(Some("/p"), Some(mode), 1).unwrap(), ("/p", mode));
    assert_eq!(
        text(check_sync_setup(None, Some(mode), 1).unwrap_err()),
        "Mount sync peer directory is missing"
    );
    assert_eq!(
        text(check_sync_setup(Some("/p"), None, -9).unwrap_err()),
        "Unsupported sync mode: -9"
    );
    assert_eq!(sync_timeout_secs(-5), 1);
    assert_eq!(sync_timeout_secs(60), 60);
    assert_eq!(text(sync_timeout_error(60)), "Mount sync timed out after 60 seconds");
    assert_eq!(next_sync_at(0, 5), 300_000_000_000);
    assert_eq!(next_sync_at(0, 0), 60_000_000_000);
    let fine = sync_report(None, 0, 5);
    assert_eq!((fine.status, fine.error, fine.next_sync_at), ("success", None, 300_000_000_000));
    let error = VfsError::NotFound("/x".to_string());
    let failed = sync_report(Some(&error), 0, 1);
    assert_eq!(failed.status, "failed");
    assert_eq!(failed.error, Some(error.message()));
    assert_eq!(failed.next_sync_at, 60_000_000_000);
}

fn children(dir: &str) -> Vec<ChildEntry> {
    let names: &[&str] = match dir {
        "/s" => &["d", "f"],
        "/s/d" => &["g"],
        _ => &[],
    };
    names
        .iter()
        .map(|n| ChildEntry { name: n.to_string(), path: format!("{}/{}", dir, n) })
        .collect()
}

fn is_dir(path: &str) -> bool {
    path == "/s" || path == "/s/d"
}

#[test]
fn a_tree_is_copied_entry_by_entry() {
    let mut log = Vec::new();
    let mut copy = TreeCopy::new("/s", "/t");
    loop {
        match copy.next() {
            CopyStep::Inspect { src } => {
                let dir = is_dir(src);
                copy.inspected(dir);
            }
            CopyStep::CreateDir { dst } => {
                log.push(format!("mkdir {}", dst));
                copy.created();
            }
            CopyStep::List { src } => {
                let found = children(src);
                copy.listed(&found);
            }
            CopyStep::CopyFile { src, dst } => {
                log.push(format!("copy {} {}", src, dst));
                copy.copied();
            }
            CopyStep::Done => break,
        }
    }
    assert_eq!(
        log,
        vec!["mkdir /t", "mkdir /t/d", "copy /s/d/g /t/d/g", "copy /s/f /t/f"]
    );
}

#[test]
fn a_tree_is_deleted_from_its_leaves() {
    let mut log = Vec::new();
    let mut deletion = TreeDelete::new("/s");
    loop {
        match deletion.next() {
            DeleteStep::Inspect { path } => {
                let dir = is_dir(path);
                deletion.inspected(dir);
            }
            DeleteStep::List { path } => {
                let found = children(path);
                deletion.listed(&found);
            }
            DeleteStep::Delete { path } => {
                log.push(path.to_string());
                deletion.deleted();
            }
            DeleteStep::Done => break,
        }
    }
    assert_eq!(log, vec!["/s/d/g", "/s/d", "/s/f", "/s"]);
}

#[test]
fn parents_are_needed_below_the_root() {
    assert_eq!(needed_parent("/a/b").as_deref(), Some("/a"));
    assert_eq!(needed_parent("/a"), None);
}
