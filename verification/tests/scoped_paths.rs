//! Paths of a user's scope.
use vfs_storage_hub::error::{IoErrorKind, StorageErrorKind, VfsError};
use vfs_storage_hub::scoped::path::{
    file_name_from_path, get_relative_path, is_hidden_storage_path, is_protected_blob_path,
    is_recycle_bin_path, is_refresh_trigger, is_temp_path, is_thumbnail_cache_path,
    logical_path_of, physical_path_of,
};
use vfs_storage_hub::scoped::ScopedVfsStorageEngine;

fn refused(path: &str) -> String {
    match ScopedVfsStorageEngine::validate_file_operation_impl(path) {
        Err(VfsError::Internal(m)) => m,
        other => panic!("{:?}", other),
    }
}

#[test]
fn path_allows_double_dot_in_filename() {
    assert!(ScopedVfsStorageEngine::validate_file_operation_impl("/foo..bar.txt").is_ok());
}

#[test]
fn path_rejects_parent_traversal_segment() {
    assert!(
        ScopedVfsStorageEngine::validate_file_operation_impl("/documents/../etc/passwd").is_err()
    );
}

#[test]
fn path_rejects_current_dir_segment() {
    assert!(ScopedVfsStorageEngine::validate_file_operation_impl("/documents/./file.txt").is_err());
}

#[test]
fn path_rejects_double_slash() {
    assert!(ScopedVfsStorageEngine::validate_file_operation_impl("/a//b/c").is_err());
}

#[test]
fn path_rejects_percent_encoded_parent_traversal() {
    assert!(ScopedVfsStorageEngine::validate_file_operation_impl("/a/%2e%2e/b").is_err());
}

#[test]
fn stale_recycle_index_prunes_not_found_errors() {
    assert!(ScopedVfsStorageEngine::should_prune_stale_recycle_index(
        "/.recycle_bin/test.sock",
        &VfsError::NotFound("missing".to_string()),
    ));
    assert!(!ScopedVfsStorageEngine::should_prune_stale_recycle_index(
        "/normal/test.sock",
        &VfsError::NotFound("missing".to_string()),
    ));
}

#[test]
fn stale_recycle_index_prunes_invalid_input_io_errors() {
    assert!(ScopedVfsStorageEngine::should_prune_stale_recycle_index(
        "/.recycle_bin/test.sock",
        &VfsError::Io(IoErrorKind::InvalidInput, "invalid input parameter".to_string()),
    ));
}

#[test]
fn other_errors_do_not_prune() {
    let prunes = |e: VfsError| {
        ScopedVfsStorageEngine::should_prune_stale_recycle_index("/.recycle_bin/x", &e)
    };
    assert!(prunes(VfsError::OpenDal(StorageErrorKind::NotFound, String::new())));
    assert!(prunes(VfsError::OpenDal(StorageErrorKind::Unexpected, String::new())));
    assert!(!prunes(VfsError::OpenDal(StorageErrorKind::PermissionDenied, String::new())));
    assert!(prunes(VfsError::Io(IoErrorKind::NotFound, String::new())));
    assert!(!prunes(VfsError::Io(IoErrorKind::Other, String::new())));
    for text in [
        "File NOT FOUND",
        "no such file or directory",
        "Invalid argument (os error 22)",
        "unsupported file type",
        "Unexpected end",
    ] {
        assert!(prunes(VfsError::Internal(text.to_string())), "{}", text);
    }
    assert!(!prunes(VfsError::Internal("disk full".to_string())));
    assert!(!prunes(VfsError::QuotaExceeded));
    assert!(!prunes(VfsError::MaintenanceMode));
}

#[test]
fn each_refusal_has_its_text() {
    assert_eq!(refused("/a\nb"), "Security violation: control characters in path");
    assert_eq!(refused("/a//b"), "Security violation: empty path segment in '/a//b'");
    assert_eq!(refused("/a/../b"), "Security violation: dot segment detected in '/a/../b'");
    assert_eq!(refused("a\\..\\b"), "Security violation: dot segment detected in '/a/../b'");
    assert_eq!(refused("/a/%ff"), "Security violation: invalid percent encoding in path");
    assert_eq!(
        refused("/a/%2e%2e/b"),
        "Security violation: dot segment detected in '/a/../b'"
    );
    assert_eq!(refused("//"), "Security violation: empty path segment in '//'");
}

#[test]
fn accepted_paths_are_normalised() {
    let ok = |p: &str| ScopedVfsStorageEngine::validate_file_operation_impl(p).unwrap();
    assert_eq!(ok("a/b"), "/a/b");
    assert_eq!(ok("/a\\b"), "/a/b");
    assert_eq!(ok("/"), "/");
    assert_eq!(ok(""), "/");
    assert_eq!(ok("/a/"), "/a/");
    assert_eq!(ok("/100%25"), "/100%25");
    assert_eq!(ok("/50%"), "/50%");
    assert_eq!(ok("/.hidden/..."), "/.hidden/...");
    assert_eq!(ok(&ok("x\\y")), "/x/y");
}

#[test]
fn percent_signs_are_decoded_once_for_the_check() {
    assert!(ScopedVfsStorageEngine::validate_file_operation_impl("/a%2f%2fb").is_err());
    assert!(ScopedVfsStorageEngine::validate_file_operation_impl("/a%2fb").is_ok());
    assert!(ScopedVfsStorageEngine::validate_file_operation_impl("/%252e%252e").is_ok());
}

#[test]
fn paths_are_classified() {
    assert!(is_temp_path("/.virtual/tmp/x"));
    assert!(!is_temp_path("/virtual/tmp/x"));
    assert!(is_thumbnail_cache_path("/.thumbs"));
    assert!(is_thumbnail_cache_path("/.thumbs/"));
    assert!(is_thumbnail_cache_path("/a/.thumbs/x"));
    assert!(!is_thumbnail_cache_path("/a/.thumbs"));
    assert!(is_thumbnail_cache_path("/.thumbs_cache"));
    assert!(is_thumbnail_cache_path("/.thumbs_cache/a"));
    assert!(!is_thumbnail_cache_path("/a/.thumbs_cache/a"));
    assert!(is_protected_blob_path("/.protected"));
    assert!(is_protected_blob_path("/.protected/a"));
    assert!(!is_protected_blob_path("/.protected2"));
    assert!(is_hidden_storage_path("/.protected/a"));
    assert!(is_hidden_storage_path("/.thumbs/a"));
    assert!(!is_hidden_storage_path("/a"));
    assert!(is_recycle_bin_path("/.recycle_bin/a"));
    assert!(!is_recycle_bin_path("/.recycle_bin"));
    assert!(is_refresh_trigger("/a/._refresh_here_.txt"));
    assert!(!is_refresh_trigger("._refresh_here_.txt"));
}

#[test]
fn physical_paths_stay_with_the_user_and_lead_back() {
    let engine = ScopedVfsStorageEngine::new("u1");
    assert_eq!(engine.get_physical_path("/docs/a.txt").unwrap(), "u1/docs/a.txt");
    assert_eq!(physical_path_of("u1", "docs/a.txt").unwrap(), "u1/docs/a.txt");
    assert_eq!(physical_path_of("u1", "/").unwrap(), "u1/");
    assert!(physical_path_of("u1", "/../u2/x").is_err());
    assert_eq!(logical_path_of("u1", "u1/docs/a.txt"), "/docs/a.txt");
    assert_eq!(logical_path_of("u1", "u1\\docs\\a.txt"), "/docs/a.txt");
    assert_eq!(logical_path_of("u1", "u1/docs/"), "/docs");
    assert_eq!(logical_path_of("u1", "u1"), "/");
    assert_eq!(logical_path_of("u1", "u1/"), "/");
    assert_eq!(logical_path_of("u1", "."), "/");
    assert_eq!(logical_path_of("u1", "./"), "/");
    assert_eq!(logical_path_of("u1", "data/u1/docs/a"), "/docs/a");
    assert_eq!(logical_path_of("u1", "/other/x/"), "/other/x");
}

#[test]
fn parts_of_paths_are_found() {
    assert_eq!(get_relative_path("/.virtual/tmp/a/b", "/.virtual/tmp"), "a/b");
    assert_eq!(get_relative_path("/x/y", "/.virtual/tmp"), "x/y");
    assert_eq!(file_name_from_path("/a/b"), "b");
    assert_eq!(file_name_from_path("b"), "b");
    assert_eq!(file_name_from_path("/a/"), "");
}
