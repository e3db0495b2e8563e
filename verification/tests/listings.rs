//! Listings: order, filters, pages, children.
use std::cmp::Ordering;
use vfs_storage_hub::listing::{
    filter_entries, order_entries, paginate, paginate_unchecked, paginate_with_sort,
    paginate_with_sort_in_memory, search_page, sort_by_name, KeywordScope, ListingKind, SortKey,
    SortOrder,
};
use vfs_storage_hub::scoped::listing::{
    execute_sync_decision, file_info_from_index, file_info_from_row, merge_pending,
    reported_chunks, select_children, sync_chunks, sync_key, translate_all, IndexRow, SyncDecision,
};
use vfs_storage_hub::types::{VfsBatchResult, VfsFileInfo, VfsPaginationParams};

fn file(name: &str, size: u64) -> VfsFileInfo {
    VfsFileInfo::plain(name.to_string(), format!("/d/{}", name), false, size, Some(size as i128))
}

fn dir(name: &str) -> VfsFileInfo {
    VfsFileInfo::plain(name.to_string(), format!("/d/{}", name), true, 0, None)
}

fn names(v: &[VfsFileInfo]) -> Vec<&str> {
    v.iter().map(|e| e.name.as_str()).collect()
}

fn params<'a>(page: i64, size: i64, sort: &'a str, order: &'a str) -> VfsPaginationParams<'a> {
    VfsPaginationParams {
        page,
        page_size: size,
        sort_by: Some(sort),
        order: Some(order),
        keyword: None,
    }
}

#[test]
fn directories_lead_and_fields_decide() {
    let all = || vec![file("b", 1), file("a", 3), dir("z"), file("c", 2), dir("y")];
    let (v, total) = paginate_with_sort_in_memory(all(), params(1, 10, "name", "asc"));
    assert_eq!(total, 5);
    assert_eq!(names(&v), vec!["y", "z", "a", "b", "c"]);
    let (v, _) = paginate_with_sort_in_memory(all(), params(1, 10, "size", "desc"));
    assert_eq!(names(&v), vec!["z", "y", "a", "c", "b"]);
    let (v, _) = paginate_with_sort_in_memory(all(), params(1, 10, "modified", "asc"));
    assert_eq!(names(&v), vec!["z", "y", "b", "c", "a"]);
    let (v, total) = paginate_with_sort_in_memory(all(), params(2, 2, "name", "asc"));
    assert_eq!((names(&v), total), (vec!["a", "b"], 5));
    let (v, _) = paginate_with_sort_in_memory(all(), params(-3, 2, "name", "asc"));
    assert_eq!(names(&v), vec!["y", "z"]);
    let (v, _) = paginate_with_sort_in_memory(all(), params(9, 2, "name", "asc"));
    assert!(v.is_empty());
    let (v, _) = paginate_with_sort_in_memory(all(), params(1, -2, "name", "asc"));
    assert!(v.is_empty());
}

#[test]
fn keywords_ignore_case_beyond_ascii() {
    let mut p = params(1, 10, "name", "asc");
    p.keyword = Some("ÄB");
    let all = vec![file("xäbx", 1), file("ab", 2), file("XÄBX", 3)];
    let (v, total) = paginate_with_sort_in_memory(all, p);
    assert_eq!(total, 2);
    assert_eq!(names(&v), vec!["XÄBX", "xäbx"]);
    let mut p = params(1, 10, "name", "asc");
    p.keyword = Some("");
    assert_eq!(paginate_with_sort_in_memory(vec![file("a", 1)], p).1, 1);
}

#[test]
fn entries_are_compared() {
    let by = |key, descending| SortOrder { key, descending, directories_first: false };
    let (a, b) = (file("a", 2), file("b", 1));
    assert_eq!(order_entries(by(SortKey::Name, false), &a, &b), Ordering::Less);
    assert_eq!(order_entries(by(SortKey::Name, true), &a, &b), Ordering::Greater);
    assert_eq!(order_entries(by(SortKey::Size, false), &a, &b), Ordering::Greater);
    assert_eq!(order_entries(by(SortKey::Size, false), &a, &a), Ordering::Equal);
    let first = SortOrder { key: SortKey::Name, descending: true, directories_first: true };
    assert_eq!(order_entries(first, &dir("a"), &file("z", 0)), Ordering::Less);
}

#[test]
fn pages_follow_each_other() {
    let all: Vec<VfsFileInfo> = (0..7).map(|i| file(&format!("f{}", i), i)).collect();
    let mut seen = Vec::new();
    for page in 1..=4 {
        let (v, total) = paginate(&all, page, 2);
        assert_eq!(total, 7);
        seen.extend(v.into_iter().map(|e| e.name));
    }
    assert_eq!(seen, (0..7).map(|i| format!("f{}", i)).collect::<Vec<_>>());
    assert_eq!(paginate_unchecked(&all, 2, 3).0.len(), 3);
}

#[test]
fn filters_look_where_they_should() {
    let mut trashed = file("x", 1);
    trashed.original_path = Some("/Old/Name".to_string());
    let all = || vec![trashed.clone(), file("name", 2)];
    let got = |scope, k| names(&filter_entries(scope, Some(k), all())).len();
    assert_eq!(got(KeywordScope::Name, "name"), 1);
    assert_eq!(got(KeywordScope::NameOrPath, "/d/"), 2);
    assert_eq!(got(KeywordScope::NameOrPathOrOriginal, "old/"), 1);
    assert_eq!(filter_entries(KeywordScope::Name, None, all()).len(), 2);
    assert_eq!(search_page(&all(), "NAME", 1, 10).1, 1);
}

#[test]
fn each_listing_has_its_default_order() {
    let p = VfsPaginationParams {
        page: 1,
        page_size: 10,
        sort_by: None,
        order: None,
        keyword: None,
    };
    let two = || vec![file("b", 1), file("a", 2)];
    let (v, _) = paginate_with_sort(ListingKind::Files, two(), p);
    assert_eq!(names(&v), vec!["b", "a"]);
    let mut sorted = p;
    sorted.sort_by = Some("colour");
    let (v, _) = paginate_with_sort(ListingKind::Favorites, two(), sorted);
    assert_eq!(names(&v), vec!["a", "b"]);
    sorted.order = Some("desc");
    let mut old = file("z", 1);
    old.trashed_at = Some(1);
    let mut new = file("a", 1);
    new.trashed_at = Some(2);
    let (v, total) = paginate_with_sort(ListingKind::RecycleBin, vec![old, new], sorted);
    assert_eq!((names(&v), total), (vec!["a", "z"], 2));
    sorted.page = -1;
    sorted.page_size = 1;
    assert!(paginate_with_sort(ListingKind::Files, two(), sorted).0.is_empty());
}

fn at(path: &str, is_dir: bool) -> VfsFileInfo {
    let name = path.rsplit('/').next().unwrap_or("").to_string();
    VfsFileInfo::plain(name, path.to_string(), is_dir, 0, None)
}

#[test]
fn only_direct_children_are_listed() {
    let entries = vec![
        at("/d", true),
        at("/d/", true),
        at("/d/a", false),
        at("/d/sub", true),
        at("/d/sub/b", false),
        at("/e", false),
        at("/.thumbs/x", false),
        at("/.protected", true),
    ];
    let paths = |dir: &str, hide: bool| {
        select_children(dir, hide, &entries).into_iter().map(|e| e.path).collect::<Vec<_>>()
    };
    assert_eq!(paths("/d/", true), vec!["/d/a", "/d/sub"]);
    assert_eq!(paths("/d", false), vec!["/d/a", "/d/sub"]);
    assert_eq!(paths("/", true), vec!["/d", "/e"]);
    assert_eq!(paths("/", false), vec!["/d", "/e", "/.protected"]);
}

#[test]
fn pending_writes_are_shown_over_the_listing() {
    let mut newer = file("b", 99);
    newer.path = "/d/b".to_string();
    let merged = merge_pending(vec![file("c", 1), file("b", 2)], &vec![newer, file("a", 5)]);
    assert_eq!(names(&merged), vec!["a", "b", "c"]);
    assert_eq!(merged[1].size, 99);
    let untouched = merge_pending(vec![file("c", 1), file("b", 2)], &Vec::new());
    assert_eq!(names(&untouched), vec!["c", "b"]);
}

#[test]
fn index_rows_become_entries() {
    let row = IndexRow {
        name: "a".to_string(),
        path: "/a".to_string(),
        is_dir: false,
        size: -1,
        file_updated_at: Some(3),
        favorite_color: 2,
        file_trashed_at: None,
        original_path: Some("/o".to_string()),
        backend_key: None,
    };
    assert_eq!(file_info_from_index(&row).size, 0);
    assert_eq!(file_info_from_row(&row).size, u64::MAX);
    assert_eq!(file_info_from_row(&row).favorite_color, 2);
    let all = translate_all("u", &vec![at("u/x/y", false), at("u", true)]);
    assert_eq!(all[0].path, "/x/y");
    assert_eq!(all[1].path, "/");
}

#[test]
fn the_index_is_synchronised_as_configured() {
    assert_eq!(execute_sync_decision(0, None, false, 10), SyncDecision::Off);
    assert_eq!(execute_sync_decision(2, Some(10), true, 10), SyncDecision::Blocking);
    assert_eq!(execute_sync_decision(1, Some(8), false, 10), SyncDecision::Debounced);
    assert_eq!(execute_sync_decision(1, Some(7), true, 10), SyncDecision::InFlight);
    assert_eq!(execute_sync_decision(1, Some(7), false, 10), SyncDecision::Background);
    assert_eq!(execute_sync_decision(1, None, false, 10), SyncDecision::Background);
    assert_eq!(sync_key("u", "/a"), "u\n/a");
    assert_eq!(sync_chunks(5, 2), vec![(0, 2), (2, 4), (4, 5)]);
    assert_eq!(sync_chunks(4, 2), vec![(0, 2), (2, 4), (4, 4)]);
    assert_eq!(sync_chunks(0, 0), vec![(0, 0)]);
    assert_eq!(reported_chunks(5, 3), 3);
    assert_eq!(reported_chunks(0, 1), 0);
}

#[test]
fn batch_results_are_filed() {
    let mut r = VfsBatchResult::default();
    r.record("/a".to_string(), None);
    r.record("/b".to_string(), Some("no".to_string()));
    assert_eq!(r.success, vec!["/a"]);
    assert_eq!((r.failed[0].path.as_str(), r.failed[0].error.as_str()), ("/b", "no"));
}

#[test]
fn entries_are_put_in_the_order_of_their_names() {
    let mut entries = vec![file("b", 1), file("a", 2), file("b", 3), file("B", 4)];
    sort_by_name(&mut entries);
    let seen: Vec<(&str, u64)> = entries.iter().map(|e| (e.name.as_str(), e.size)).collect();
    assert_eq!(seen, vec![("B", 4), ("a", 2), ("b", 1), ("b", 3)]);
}
