//! Synchronisation of a directory with a mounted storage: what to create, copy and
//! delete.
use crate::error::VfsError;
use crate::ledger::Ledger;
use crate::listing::time_before;
use crate::mounted::route::{join_logical_path, joined};
use crate::order::{sort_texts, sorted_distinct, stable_order, texts_ordered};
use crate::text::{
    concat2, concat3, concat4, decimal_int, decimal_int_text, has_prefix, split, split_char,
    strip_prefix, text_before, text_before_total, text_eq, trim_end_char, trim_end_matches,
    trim_start_char, trim_start_matches, views,
};
use crate::types::{TimeNanos, VfsFileInfo};
use vstd::prelude::*;

verus! {

/// How a mount is kept in step with its peer directory.
#[derive(Debug, Clone, Copy, PartialEq, Eq, Structural)]
pub enum RemoteMountSyncMode {
    PeerToMountKeep,
    PeerToMountMirror,
    MountToPeerKeep,
    MountToPeerMirror,
    BidirectionalKeep,
}

/// One run of a synchronisation.
#[derive(Debug, Clone, Copy, PartialEq, Eq, Structural)]
pub enum SyncJob {
    /// From the peer directory to the mount; extras are deleted where it mirrors.
    ToMount { mirror: bool },
    /// From the mount to the peer directory; extras are deleted where it mirrors.
    ToPeer { mirror: bool },
    /// Both ways, nothing is deleted.
    Both,
}

/// The run that a mode asks for.
pub open spec fn job_of(mode: RemoteMountSyncMode) -> SyncJob {
    match mode {
        RemoteMountSyncMode::PeerToMountKeep => SyncJob::ToMount { mirror: false },
        RemoteMountSyncMode::PeerToMountMirror => SyncJob::ToMount { mirror: true },
        RemoteMountSyncMode::MountToPeerKeep => SyncJob::ToPeer { mirror: false },
        RemoteMountSyncMode::MountToPeerMirror => SyncJob::ToPeer { mirror: true },
        RemoteMountSyncMode::BidirectionalKeep => SyncJob::Both,
    }
}

pub fn sync_job(mode: RemoteMountSyncMode) -> (res: SyncJob)
    ensures
        res == job_of(mode),
{
    match mode {
        RemoteMountSyncMode::PeerToMountKeep => SyncJob::ToMount { mirror: false },
        RemoteMountSyncMode::PeerToMountMirror => SyncJob::ToMount { mirror: true },
        RemoteMountSyncMode::MountToPeerKeep => SyncJob::ToPeer { mirror: false },
        RemoteMountSyncMode::MountToPeerMirror => SyncJob::ToPeer { mirror: true },
        RemoteMountSyncMode::BidirectionalKeep => SyncJob::Both,
    }
}

/// The peer directory and mode of a mount, where both are set up. `raw_mode` is what
/// the mode was read from.
pub fn check_sync_setup<'a>(
    peer_dir: Option<&'a str>,
    mode: Option<RemoteMountSyncMode>,
    raw_mode: i16,
) -> (res: Result<(&'a str, RemoteMountSyncMode), VfsError>)
    ensures
        match res {
            Ok((dir, m)) => peer_dir == Some(dir) && mode == Some(m),
            Err(e) => if peer_dir is None {
                e.is_internal("Mount sync peer directory is missing"@)
            } else {
                mode is None && e.is_internal(
                    "Unsupported sync mode: "@ + decimal_int(raw_mode as int),
                )
            },
        },
{
    match peer_dir {
        None => Err(VfsError::internal("Mount sync peer directory is missing")),
        Some(dir) => match mode {
            Some(m) => Ok((dir, m)),
            None => Err(
                VfsError::Internal(
                    concat2(
                        "Unsupported sync mode: ",
                        decimal_int_text(raw_mode as i64).as_str(),
                    ),
                ),
            ),
        },
    }
}

/// Seconds after which a synchronisation is given up: at least one.
pub open spec fn given_up_after(effective_timeout_secs: i64) -> int {
    if effective_timeout_secs < 1 {
        1
    } else {
        effective_timeout_secs as int
    }
}

pub fn sync_timeout_secs(effective_timeout_secs: i64) -> (res: u64)
    ensures
        res == given_up_after(effective_timeout_secs),
{
    if effective_timeout_secs < 1 {
        1
    } else {
        effective_timeout_secs as u64
    }
}

pub fn sync_timeout_error(effective_timeout_secs: i64) -> (res: VfsError)
    ensures
        res.is_internal(
            "Mount sync timed out after "@ + decimal_int(effective_timeout_secs as int)
                + " seconds"@,
        ),
{
    VfsError::Internal(
        concat3(
            "Mount sync timed out after ",
            decimal_int_text(effective_timeout_secs).as_str(),
            " seconds",
        ),
    )
}

/// The time of the next run: the interval, at least a minute, from now.
pub open spec fn next_run(now: TimeNanos, interval_minutes: i64) -> int {
    now + (if interval_minutes < 1 {
        1
    } else {
        interval_minutes as int
    }) * 60_000_000_000
}

pub fn next_sync_at(now: TimeNanos, interval_minutes: i64) -> (res: TimeNanos)
    requires
        -8334601228800_000_000_000 <= now <= 8210266876799_999_999_999,
    ensures
        res == next_run(now, interval_minutes),
{
    let minutes: i128 = if interval_minutes < 1 {
        1
    } else {
        interval_minutes as i128
    };
    now + minutes * 60_000_000_000
}

/// What is written down of a run that ended.
#[derive(Debug)]
pub struct SyncReport {
    pub status: &'static str,
    pub error: Option<String>,
    pub next_sync_at: TimeNanos,
}

/// The report on a run: its status, what went wrong, and when the next one is due.
pub fn sync_report(failure: Option<&VfsError>, now: TimeNanos, interval_minutes: i64) -> (res:
    SyncReport)
    requires
        -8334601228800_000_000_000 <= now <= 8210266876799_999_999_999,
    ensures
        res.next_sync_at == next_run(now, interval_minutes),
        match failure {
            None => res.status@ == "success"@ && res.error is None,
            Some(e) => res.status@ == "failed"@ && res.error is Some && res.error->0@ == e.text(),
        },
{
    let next: TimeNanos = next_sync_at(now, interval_minutes);
    match failure {
        None => SyncReport { status: "success", error: None, next_sync_at: next },
        Some(e) => SyncReport { status: "failed", error: Some(e.message()), next_sync_at: next },
    }
}

// ---------------------------------------------------------------- paths
/// Number of non-empty pieces.
pub open spec fn count_segments(pieces: Seq<Seq<char>>) -> nat
    decreases pieces.len(),
{
    if pieces.len() == 0 {
        0
    } else {
        count_segments(pieces.drop_last()) + if pieces.last().len() > 0 {
            1nat
        } else {
            0
        }
    }
}

/// Number of directories and file names in a path.
pub open spec fn depth(path: Seq<char>) -> nat {
    count_segments(split_char(path, '/'))
}

proof fn count_is_bounded(pieces: Seq<Seq<char>>)
    ensures
        count_segments(pieces) <= pieces.len(),
    decreases pieces.len(),
{
    if pieces.len() > 0 {
        count_is_bounded(pieces.drop_last());
    }
}

pub fn path_depth(path: &str) -> (res: usize)
    ensures
        res as nat == depth(path@),
{
    let pieces: Vec<String> = split(path, '/');
    let mut n: usize = 0;
    let mut i: usize = 0;
    assert(views(pieces@).take(0) =~= Seq::<Seq<char>>::empty());
    while i < pieces.len()
        invariant
            i <= pieces@.len(),
            views(pieces@) == split_char(path@, '/'),
            n as nat == count_segments(views(pieces@).take(i as int)),
            n <= i,
        decreases pieces@.len() - i,
    {
        assert(views(pieces@).take(i + 1).drop_last() =~= views(pieces@).take(i as int));
        assert(views(pieces@).take(i + 1).last() == pieces@[i as int]@);
        if !pieces[i].as_str().is_empty() {
            n += 1;
        }
        i += 1;
    }
    assert(views(pieces@).take(i as int) =~= views(pieces@));
    n
}

/// `path` relative to `root`.
pub open spec fn relative(root: Seq<char>, path: Seq<char>) -> Seq<char> {
    if root == "/"@ || !has_prefix(path, root) {
        trim_start_char(path, '/')
    } else {
        trim_start_char(path.skip(root.len() as int), '/')
    }
}

pub fn relative_path(root: &str, path: &str) -> (res: String)
    ensures
        res@ == relative(root@, path@),
{
    if text_eq(root, "/") {
        trim_start_matches(path, '/').to_owned()
    } else {
        match strip_prefix(path, root) {
            Some(rest) => trim_start_matches(rest, '/').to_owned(),
            None => trim_start_matches(path, '/').to_owned(),
        }
    }
}

// ---------------------------------------------------------------- trees
/// The entries below `root`, by their paths relative to it; of several with the same
/// path the last counts.
pub open spec fn tree_of(root: Seq<char>, entries: Seq<VfsFileInfo>) -> Map<Seq<char>, VfsFileInfo>
    decreases entries.len(),
{
    if entries.len() == 0 {
        Map::empty()
    } else {
        tree_of(root, entries.drop_last()).insert(
            relative(root, entries.last().path@),
            entries.last(),
        )
    }
}

pub fn collect_tree(root: &str, entries: &Vec<VfsFileInfo>) -> (res: Ledger<VfsFileInfo>)
    ensures
        res.wf(),
        res@ == tree_of(root@, entries@),
{
    let mut tree: Ledger<VfsFileInfo> = Ledger::new();
    let mut i: usize = 0;
    assert(entries@.take(0) =~= Seq::<VfsFileInfo>::empty());
    while i < entries.len()
        invariant
            i <= entries@.len(),
            tree.wf(),
            tree@ == tree_of(root@, entries@.take(i as int)),
        decreases entries@.len() - i,
    {
        assert(entries@.take(i + 1).drop_last() =~= entries@.take(i as int));
        let key: String = relative_path(root, entries[i].path.as_str());
        tree.insert(key.as_str(), entries[i].clone());
        i += 1;
    }
    assert(entries@.take(i as int) =~= entries@);
    tree
}

/// Line that tells of an entry of a tree.
pub open spec fn tree_line(key: Seq<char>, info: VfsFileInfo) -> Seq<char> {
    key + " => "@ + info.path@ + (if info.is_dir {
        " [dir]"@
    } else {
        " [file]"@
    })
}

/// The lines that tell of a tree, in the order of `keys`.
pub open spec fn tree_lines(keys: Seq<Seq<char>>, tree: Map<Seq<char>, VfsFileInfo>) -> Seq<
    Seq<char>,
> {
    keys.map_values(|k: Seq<char>| tree_line(k, tree[k]))
}

/// One line for each entry of a tree, sorted.
pub fn debug_tree_entries(tree: &Ledger<VfsFileInfo>) -> (res: Vec<String>)
    requires
        tree.wf(),
    ensures
        texts_ordered(views(res@)),
        views(res@).to_multiset() == tree_lines(tree.order(), tree@).to_multiset(),
{
    let mut lines: Vec<String> = Vec::new();
    let n: usize = tree.len();
    let mut i: usize = 0;
    while i < n
        invariant
            i <= n,
            n == tree.order().len(),
            tree.wf(),
            lines@.len() == i,
            forall|k: int|
                0 <= k < i ==> (#[trigger] lines@[k])@ == tree_line(
                    tree.order()[k],
                    tree@[tree.order()[k]],
                ),
        decreases n - i,
    {
        let (key, info) = tree.entry(i);
        let kind: &str = if info.is_dir {
            " [dir]"
        } else {
            " [file]"
        };
        lines.push(concat4(key, " => ", info.path.as_str(), kind));
        i += 1;
    }
    assert(views(lines@) =~= tree_lines(tree.order(), tree@));
    sort_texts(&mut lines);
    lines
}

/// The texts by their depth, shallow ones first or deep ones first.
fn by_depth(list: Vec<String>, deep_first: bool) -> (res: Vec<String>)
    requires
        views(list@).no_duplicates(),
    ensures
        views(res@).no_duplicates(),
        forall|t: Seq<char>| #[trigger] views(res@).contains(t) <==> views(list@).contains(t),
        forall|i: int, j: int|
            0 <= i < j < res@.len() ==> if deep_first {
                depth((#[trigger] res@[i])@) >= depth((#[trigger] res@[j])@)
            } else {
                depth(res@[i]@) <= depth(res@[j]@)
            },
{
    let n: usize = list.len();
    let mut keys: Vec<u64> = Vec::new();
    let mut i: usize = 0;
    while i < n
        invariant
            i <= n == list@.len(),
            keys@.len() == i,
            forall|k: int|
                0 <= k < i ==> depth((#[trigger] list@[k])@) <= u64::MAX && keys@[k] == if deep_first {
                    (u64::MAX - depth(list@[k]@)) as u64
                } else {
                    depth(list@[k]@) as u64
                },
        decreases n - i,
    {
        let d: usize = path_depth(list[i].as_str());
        if deep_first {
            keys.push(u64::MAX - d as u64);
        } else {
            keys.push(d as u64);
        }
        i += 1;
    }
    let order: Vec<usize> = stable_order(&keys);
    let mut out: Vec<String> = Vec::new();
    let mut j: usize = 0;
    while j < n
        invariant
            j <= n,
            n == list@.len(),
            order@.len() == n,
            forall|k: int| 0 <= k < n ==> (#[trigger] order@[k]) < n,
            out@.len() == j,
            forall|k: int| 0 <= k < j ==> (#[trigger] out@[k])@ == list@[order@[k] as int]@,
        decreases n - j,
    {
        let at: usize = order[j];
        out.push(list[at].clone());
        j += 1;
    }
    proof {
        let a = views(list@);
        let b = views(out@);
        assert forall|t: Seq<char>| #[trigger] b.contains(t) <==> a.contains(t) by {
            if b.contains(t) {
                let k = choose|k: int| 0 <= k < b.len() && b[k] == t;
                assert(out@[k]@ == t);
                assert(a[order@[k] as int] == t);
            }
            if a.contains(t) {
                let k = choose|k: int| 0 <= k < a.len() && a[k] == t;
                assert(k < n);
                let at = k as usize;
                assert(order@.contains(at));
                let m = choose|m: int| 0 <= m < order@.len() && order@[m] == at;
                assert(out@[m]@ == t);
                assert(b[m] == t);
            }
        }
        assert forall|x: int, y: int| 0 <= x < b.len() && 0 <= y < b.len() && x != y implies b[x]
            != b[y] by {
            assert(out@[x]@ == a[order@[x] as int]);
            assert(out@[y]@ == a[order@[y] as int]);
            if x < y {
                assert(order@[x] != order@[y]);
            } else {
                assert(order@[y] != order@[x]);
            }
        }
        assert forall|x: int, y: int| 0 <= x < y < out@.len() implies if deep_first {
            depth((#[trigger] out@[x])@) >= depth((#[trigger] out@[y])@)
        } else {
            depth(out@[x]@) <= depth(out@[y]@)
        } by {
            let p = order@[x] as int;
            let q = order@[y] as int;
            assert(keys@[p] <= keys@[q]);
            assert(depth(list@[p]@) <= u64::MAX && depth(list@[q]@) <= u64::MAX);
        }
    }
    out
}

// ---------------------------------------------------------------- one way
/// A file has to be copied: the other side has none, has a directory in its place,
/// an older file or one of another size.
pub open spec fn is_outdated(src: VfsFileInfo, dst: Option<VfsFileInfo>) -> bool {
    match dst {
        None => true,
        Some(d) => d.is_dir || time_before(d.modified, src.modified) || src.size != d.size,
    }
}

pub open spec fn lookup(m: Map<Seq<char>, VfsFileInfo>, k: Seq<char>) -> Option<VfsFileInfo> {
    if m.contains_key(k) {
        Some(m[k])
    } else {
        None
    }
}

fn should_copy(src: &VfsFileInfo, dst: Option<&VfsFileInfo>) -> (res: bool)
    ensures
        res == is_outdated(
            *src,
            match dst {
                Some(d) => Some(*d),
                None => None,
            },
        ),
{
    match dst {
        None => true,
        Some(d) => d.is_dir || is_older(d.modified, src.modified) || src.size != d.size,
    }
}

fn is_older(a: Option<TimeNanos>, b: Option<TimeNanos>) -> (res: bool)
    ensures
        res == time_before(a, b),
{
    match (a, b) {
        (Some(x), Some(y)) => x < y,
        (None, Some(_)) => true,
        _ => false,
    }
}

/// A key of the destination tree stands for the root itself, or lies no deeper.
pub open spec fn is_root_like(dst_root: Seq<char>, key: Seq<char>) -> bool {
    let root = trim_end_char(dst_root, '/');
    let path = trim_end_char(joined(dst_root, key), '/');
    ||| key.len() == 0
    ||| key == "."@
    ||| key == "./"@
    ||| path == root
    ||| path == root + "/."@
    ||| depth(path) <= depth(root)
}

/// The destination has something there that the source has not.
pub open spec fn is_extra(
    source: Map<Seq<char>, VfsFileInfo>,
    dst: Map<Seq<char>, VfsFileInfo>,
    dst_root: Seq<char>,
    key: Seq<char>,
) -> bool {
    dst.contains_key(key) && !source.contains_key(key) && !is_root_like(dst_root, key)
}

/// A file to copy.
#[derive(Debug)]
pub struct FileCopy {
    pub relative: String,
    pub from: String,
    pub to: String,
}

/// What makes the destination follow the source, in this order.
#[derive(Debug)]
pub struct MirrorPlan {
    /// Directories to create, by their relative paths.
    pub directories: Vec<String>,
    pub copies: Vec<FileCopy>,
    /// Paths to delete, by their relative paths.
    pub extras: Vec<String>,
}

pub open spec fn copied(copies: Seq<FileCopy>) -> Seq<Seq<char>> {
    copies.map_values(|c: FileCopy| c.relative@)
}

/// The keys of a tree that satisfy a condition: directories, or outdated files.
fn select_directories(tree: &Ledger<VfsFileInfo>) -> (res: Vec<String>)
    requires
        tree.wf(),
    ensures
        views(res@).no_duplicates(),
        forall|k: Seq<char>| #[trigger]
            views(res@).contains(k) <==> tree@.contains_key(k) && tree@[k].is_dir,
{
    let n: usize = tree.len();
    let ghost keys = tree.order();
    proof {
        tree.order_lists_keys();
    }
    let mut out: Vec<String> = Vec::new();
    let mut i: usize = 0;
    while i < n
        invariant
            tree.wf(),
            keys == tree.order(),
            keys.no_duplicates(),
            n == keys.len(),
            i <= n,
            views(out@).no_duplicates(),
            forall|k: Seq<char>| #[trigger]
                views(out@).contains(k) <==> keys.take(i as int).contains(k) && tree@[k].is_dir,
        decreases n - i,
    {
        let (key, info) = tree.entry(i);
        let ghost prior = views(out@);
        if info.is_dir {
            out.push(key.to_owned());
            assert(views(out@) =~= prior.push(keys[i as int]));
        }
        proof {
            step_selection(keys, i as int, prior, views(out@), info.is_dir);
        }
        i += 1;
    }
    assert(keys.take(n as int) =~= keys);
    out
}

/// Going on by one key: what was selected before, and the key where it is wanted.
proof fn step_selection(
    keys: Seq<Seq<char>>,
    i: int,
    prior: Seq<Seq<char>>,
    next: Seq<Seq<char>>,
    wanted: bool,
)
    requires
        0 <= i < keys.len(),
        keys.no_duplicates(),
        prior.no_duplicates(),
        forall|k: Seq<char>| #[trigger] prior.contains(k) ==> keys.take(i).contains(k),
        next == if wanted {
            prior.push(keys[i])
        } else {
            prior
        },
    ensures
        next.no_duplicates(),
        forall|k: Seq<char>| #[trigger]
            next.contains(k) <==> prior.contains(k) || (wanted && k == keys[i]),
        forall|k: Seq<char>| #[trigger]
            keys.take(i + 1).contains(k) <==> keys.take(i).contains(k) || k == keys[i],
{
    assert(keys.take(i + 1) =~= keys.take(i).push(keys[i]));
    assert forall|k: Seq<char>| #[trigger] keys.take(i + 1).contains(k) <==> keys.take(i).contains(
        k,
    ) || k == keys[i] by {
        if keys.take(i).contains(k) {
            let m = choose|m: int| 0 <= m < i && keys.take(i)[m] == k;
            assert(keys.take(i + 1)[m] == k);
        }
        if k == keys[i] {
            assert(keys.take(i + 1)[i] == k);
        }
    }
    if wanted {
        assert(!prior.contains(keys[i])) by {
            if prior.contains(keys[i]) {
                assert(keys.take(i).contains(keys[i]));
                let m = choose|m: int| 0 <= m < i && keys.take(i)[m] == keys[i];
                assert(keys[m] == keys[i]);
            }
        }
        assert forall|k: Seq<char>| #[trigger] next.contains(k) <==> prior.contains(k) || k
            == keys[i] by {
            if prior.contains(k) {
                let m = choose|m: int| 0 <= m < prior.len() && prior[m] == k;
                assert(next[m] == k);
            }
            if k == keys[i] {
                assert(next[prior.len() as int] == k);
            }
        }
    }
}

fn select_outdated(source: &Ledger<VfsFileInfo>, dst: &Ledger<VfsFileInfo>) -> (res: Vec<String>)
    requires
        source.wf(),
        dst.wf(),
    ensures
        views(res@).no_duplicates(),
        forall|k: Seq<char>| #[trigger]
            views(res@).contains(k) <==> source@.contains_key(k) && !source@[k].is_dir
                && is_outdated(source@[k], lookup(dst@, k)),
{
    let n: usize = source.len();
    let ghost keys = source.order();
    proof {
        source.order_lists_keys();
    }
    let mut out: Vec<String> = Vec::new();
    let mut i: usize = 0;
    while i < n
        invariant
            source.wf(),
            dst.wf(),
            keys == source.order(),
            keys.no_duplicates(),
            n == keys.len(),
            i <= n,
            views(out@).no_duplicates(),
            forall|k: Seq<char>| #[trigger]
                views(out@).contains(k) <==> keys.take(i as int).contains(k) && !source@[k].is_dir
                    && is_outdated(source@[k], lookup(dst@, k)),
        decreases n - i,
    {
        let (key, info) = source.entry(i);
        let wanted: bool = !info.is_dir && should_copy(info, dst.get(key));
        let ghost prior = views(out@);
        if wanted {
            out.push(key.to_owned());
            assert(views(out@) =~= prior.push(keys[i as int]));
        }
        proof {
            step_selection(keys, i as int, prior, views(out@), wanted);
        }
        i += 1;
    }
    assert(keys.take(n as int) =~= keys);
    out
}

fn root_like(dst_root: &str, key: &str) -> (res: bool)
    ensures
        res == is_root_like(dst_root@, key@),
{
    if key.is_empty() || text_eq(key, ".") || text_eq(key, "./") {
        return true;
    }
    let root = trim_end_matches(dst_root, '/');
    let path: String = join_logical_path(dst_root, key);
    let bare = trim_end_matches(path.as_str(), '/');
    let dotted: String = concat2(root, "/.");
    text_eq(bare, root) || text_eq(bare, dotted.as_str()) || path_depth(bare) <= path_depth(root)
}

fn select_extras(source: &Ledger<VfsFileInfo>, dst: &Ledger<VfsFileInfo>, dst_root: &str) -> (res:
    Vec<String>)
    requires
        source.wf(),
        dst.wf(),
    ensures
        views(res@).no_duplicates(),
        forall|k: Seq<char>| #[trigger]
            views(res@).contains(k) <==> is_extra(source@, dst@, dst_root@, k),
{
    let n: usize = dst.len();
    let ghost keys = dst.order();
    proof {
        dst.order_lists_keys();
    }
    let mut out: Vec<String> = Vec::new();
    let mut i: usize = 0;
    while i < n
        invariant
            source.wf(),
            dst.wf(),
            keys == dst.order(),
            keys.no_duplicates(),
            n == keys.len(),
            i <= n,
            forall|j: int| 0 <= j < n ==> dst@.contains_key(#[trigger] keys[j]),
            views(out@).no_duplicates(),
            forall|k: Seq<char>| #[trigger]
                views(out@).contains(k) <==> keys.take(i as int).contains(k) && is_extra(
                    source@,
                    dst@,
                    dst_root@,
                    k,
                ),
        decreases n - i,
    {
        let (key, _) = dst.entry(i);
        let wanted: bool = !source.contains(key) && !root_like(dst_root, key);
        let ghost prior = views(out@);
        if wanted {
            out.push(key.to_owned());
            assert(views(out@) =~= prior.push(keys[i as int]));
        }
        proof {
            step_selection(keys, i as int, prior, views(out@), wanted);
        }
        i += 1;
    }
    assert(keys.take(n as int) =~= keys);
    out
}

/// `plan` makes the tree `dst` at `dst_root` follow the tree `source`: every
/// directory of the source is created and every outdated file copied, shallow ones
/// first; where asked for, every extra is deleted, deep ones first.
pub open spec fn follows(
    plan: MirrorPlan,
    source: Map<Seq<char>, VfsFileInfo>,
    dst: Map<Seq<char>, VfsFileInfo>,
    dst_root: Seq<char>,
    delete_extras: bool,
) -> bool {
    &&& views(plan.directories@).no_duplicates()
    &&& forall|k: Seq<char>| #[trigger]
        views(plan.directories@).contains(k) <==> source.contains_key(k) && source[k].is_dir
    &&& forall|i: int, j: int|
        0 <= i < j < plan.directories@.len() ==> depth((#[trigger] plan.directories@[i])@) <= depth(
            (#[trigger] plan.directories@[j])@,
        )
    &&& copied(plan.copies@).no_duplicates()
    &&& forall|k: Seq<char>| #[trigger]
        copied(plan.copies@).contains(k) <==> source.contains_key(k) && !source[k].is_dir
            && is_outdated(source[k], lookup(dst, k))
    &&& forall|i: int, j: int|
        0 <= i < j < plan.copies@.len() ==> depth((#[trigger] plan.copies@[i]).relative@) <= depth(
            (#[trigger] plan.copies@[j]).relative@,
        )
    &&& forall|i: int|
        0 <= i < plan.copies@.len() ==> {
            let c = #[trigger] plan.copies@[i];
            c.from@ == source[c.relative@].path@ && c.to@ == joined(dst_root, c.relative@)
        }
    &&& views(plan.extras@).no_duplicates()
    &&& forall|k: Seq<char>| #[trigger]
        views(plan.extras@).contains(k) <==> delete_extras && is_extra(source, dst, dst_root, k)
    &&& forall|i: int, j: int|
        0 <= i < j < plan.extras@.len() ==> depth((#[trigger] plan.extras@[i])@) >= depth(
            (#[trigger] plan.extras@[j])@,
        )
}

/// What makes one tree follow another.
pub fn sync_unidirectional(
    source: &Ledger<VfsFileInfo>,
    dst: &Ledger<VfsFileInfo>,
    dst_root: &str,
    delete_extras: bool,
) -> (res: MirrorPlan)
    requires
        source.wf(),
        dst.wf(),
    ensures
        follows(res, source@, dst@, dst_root@, delete_extras),
{
    let directories: Vec<String> = by_depth(select_directories(source), false);
    let files: Vec<String> = by_depth(select_outdated(source, dst), false);
    let mut copies: Vec<FileCopy> = Vec::new();
    let mut i: usize = 0;
    while i < files.len()
        invariant
            i <= files@.len(),
            source.wf(),
            forall|k: Seq<char>| #[trigger]
                views(files@).contains(k) ==> source@.contains_key(k),
            copies@.len() == i,
            forall|k: int|
                0 <= k < i ==> {
                    let c = #[trigger] copies@[k];
                    &&& c.relative@ == files@[k]@
                    &&& c.from@ == source@[c.relative@].path@
                    &&& c.to@ == joined(dst_root@, c.relative@)
                },
        decreases files@.len() - i,
    {
        assert(views(files@)[i as int] == files@[i as int]@);
        assert(views(files@).contains(files@[i as int]@));
        match source.get(files[i].as_str()) {
            Some(info) => {
                let to: String = join_logical_path(dst_root, files[i].as_str());
                copies.push(
                    FileCopy { relative: files[i].clone(), from: info.path.clone(), to },
                );
            },
            None => {
                assert(false);
            },
        }
        i += 1;
    }
    let extras: Vec<String> = if delete_extras {
        by_depth(select_extras(source, dst, dst_root), true)
    } else {
        Vec::new()
    };
    proof {
        assert(copied(copies@) =~= views(files@));
        if !delete_extras {
            assert(views(extras@) =~= Seq::<Seq<char>>::empty());
        }
    }
    MirrorPlan { directories, copies, extras }
}

/// A one-way synchronisation never deletes what the source has, leaves no file of
/// the source outdated, and a mirroring one leaves nothing else below the root.
pub proof fn mirror_is_complete(
    plan: MirrorPlan,
    source: Map<Seq<char>, VfsFileInfo>,
    dst: Map<Seq<char>, VfsFileInfo>,
    dst_root: Seq<char>,
    delete_extras: bool,
    key: Seq<char>,
)
    requires
        follows(plan, source, dst, dst_root, delete_extras),
    ensures
        source.contains_key(key) ==> !views(plan.extras@).contains(key),
        source.contains_key(key) && source[key].is_dir ==> views(plan.directories@).contains(key),
        source.contains_key(key) && !source[key].is_dir && !copied(plan.copies@).contains(key) ==> {
            &&& dst.contains_key(key)
            &&& !dst[key].is_dir
            &&& dst[key].size == source[key].size
            &&& !time_before(dst[key].modified, source[key].modified)
        },
        delete_extras && dst.contains_key(key) && !source.contains_key(key)
            && !views(plan.extras@).contains(key) ==> is_root_like(dst_root, key),
        !delete_extras ==> !views(plan.extras@).contains(key),
{
}

// ---------------------------------------------------------------- both ways
/// What keeps a path the same on both sides.
#[derive(Debug, Clone, Copy, PartialEq, Eq, Structural)]
pub enum PairAction {
    Nothing,
    CreateOnLeft,
    CreateOnRight,
    CopyToLeft,
    CopyToRight,
    /// A file on one side, a directory on the other.
    Conflict,
}

/// The newer file wins; of files of the same time and different size, the left one.
pub open spec fn pair_action(left: Option<VfsFileInfo>, right: Option<VfsFileInfo>) -> PairAction {
    match (left, right) {
        (None, None) => PairAction::Nothing,
        (Some(l), None) => if l.is_dir {
            PairAction::CreateOnRight
        } else {
            PairAction::CopyToRight
        },
        (None, Some(r)) => if r.is_dir {
            PairAction::CreateOnLeft
        } else {
            PairAction::CopyToLeft
        },
        (Some(l), Some(r)) => if l.is_dir && r.is_dir {
            PairAction::Nothing
        } else if l.is_dir || r.is_dir {
            PairAction::Conflict
        } else if time_before(r.modified, l.modified) {
            PairAction::CopyToRight
        } else if time_before(l.modified, r.modified) {
            PairAction::CopyToLeft
        } else if l.size != r.size {
            PairAction::CopyToRight
        } else {
            PairAction::Nothing
        },
    }
}

pub open spec fn opt_info(info: Option<&VfsFileInfo>) -> Option<VfsFileInfo> {
    match info {
        Some(i) => Some(*i),
        None => None,
    }
}

fn decide_pair(left: Option<&VfsFileInfo>, right: Option<&VfsFileInfo>) -> (res: PairAction)
    ensures
        res == pair_action(opt_info(left), opt_info(right)),
{
    match (left, right) {
        (None, None) => PairAction::Nothing,
        (Some(l), None) => if l.is_dir {
            PairAction::CreateOnRight
        } else {
            PairAction::CopyToRight
        },
        (None, Some(r)) => if r.is_dir {
            PairAction::CreateOnLeft
        } else {
            PairAction::CopyToLeft
        },
        (Some(l), Some(r)) => if l.is_dir && r.is_dir {
            PairAction::Nothing
        } else if l.is_dir || r.is_dir {
            PairAction::Conflict
        } else if is_older(r.modified, l.modified) {
            PairAction::CopyToRight
        } else if is_older(l.modified, r.modified) {
            PairAction::CopyToLeft
        } else if l.size != r.size {
            PairAction::CopyToRight
        } else {
            PairAction::Nothing
        },
    }
}

/// The steps of a two-way synchronisation, up to the first conflict.
#[derive(Debug)]
pub struct PairPlan {
    pub steps: Vec<(String, PairAction)>,
    pub conflict: Option<String>,
}

pub open spec fn step_paths(steps: Seq<(String, PairAction)>) -> Seq<Seq<char>> {
    steps.map_values(|s: (String, PairAction)| s.0@)
}

/// `plan` goes through the paths of both trees in order, up to the first conflict.
pub open spec fn reconciles(
    plan: PairPlan,
    left: Map<Seq<char>, VfsFileInfo>,
    right: Map<Seq<char>, VfsFileInfo>,
) -> bool {
    &&& forall|i: int, j: int|
        0 <= i < j < plan.steps@.len() ==> text_before(
            (#[trigger] plan.steps@[i]).0@,
            (#[trigger] plan.steps@[j]).0@,
        )
    &&& forall|i: int|
        0 <= i < plan.steps@.len() ==> {
            let s = #[trigger] plan.steps@[i];
            &&& left.contains_key(s.0@) || right.contains_key(s.0@)
            &&& s.1 == pair_action(lookup(left, s.0@), lookup(right, s.0@))
            &&& s.1 != PairAction::Conflict
        }
    &&& match plan.conflict {
        None => forall|k: Seq<char>|
            left.contains_key(k) || right.contains_key(k) ==> #[trigger] step_paths(
                plan.steps@,
            ).contains(k),
        Some(c) => {
            &&& pair_action(lookup(left, c@), lookup(right, c@)) == PairAction::Conflict
            &&& forall|i: int|
                0 <= i < plan.steps@.len() ==> text_before((#[trigger] plan.steps@[i]).0@, c@)
            &&& forall|k: Seq<char>|
                (left.contains_key(k) || right.contains_key(k)) && text_before(k, c@)
                    ==> #[trigger] step_paths(plan.steps@).contains(k)
        },
    }
}

fn push_all(out: &mut Vec<String>, more: Vec<String>)
    ensures
        views(final(out)@) == views(old(out)@) + views(more@),
{
    let ghost before = views(out@);
    let mut i: usize = 0;
    assert(views(more@).take(0) =~= Seq::<Seq<char>>::empty());
    assert(before + Seq::<Seq<char>>::empty() =~= before);
    while i < more.len()
        invariant
            i <= more@.len(),
            views(out@) == before + views(more@).take(i as int),
        decreases more@.len() - i,
    {
        let ghost prior = views(out@);
        out.push(more[i].clone());
        assert(views(out@) =~= prior.push(more@[i as int]@));
        assert(views(more@).take(i + 1) =~= views(more@).take(i as int).push(more@[i as int]@));
        i += 1;
    }
    assert(views(more@).take(i as int) =~= views(more@));
}

/// What keeps two trees in step, without deleting anything.
pub fn sync_bidirectional_keep(left: &Ledger<VfsFileInfo>, right: &Ledger<VfsFileInfo>) -> (res:
    PairPlan)
    requires
        left.wf(),
        right.wf(),
    ensures
        reconciles(res, left@, right@),
{
    let mut all: Vec<String> = left.keys();
    let more: Vec<String> = right.keys();
    let ghost lk = left.order();
    let ghost rk = right.order();
    proof {
        left.order_lists_keys();
        right.order_lists_keys();
    }
    push_all(&mut all, more);
    let ghost union = views(all@);
    proof {
        assert forall|k: Seq<char>| #[trigger] union.contains(k) <==> left@.contains_key(k)
            || right@.contains_key(k) by {
            if union.contains(k) {
                let m = choose|m: int| 0 <= m < union.len() && union[m] == k;
                if m < lk.len() {
                    assert(lk[m] == k);
                } else {
                    assert(rk[m - lk.len()] == k);
                }
            }
            if left@.contains_key(k) {
                assert(lk.contains(k));
                let m = choose|m: int| 0 <= m < lk.len() && lk[m] == k;
                assert(union[m] == k);
            }
            if right@.contains_key(k) {
                assert(rk.contains(k));
                let m = choose|m: int| 0 <= m < rk.len() && rk[m] == k;
                assert(union[lk.len() + m] == k);
            }
        }
    }
    let paths: Vec<String> = sorted_distinct(all);
    let ghost sorted = views(paths@);
    let mut steps: Vec<(String, PairAction)> = Vec::new();
    let mut i: usize = 0;
    while i < paths.len()
        invariant
            left.wf(),
            right.wf(),
            i <= paths@.len(),
            sorted == views(paths@),
            forall|k: Seq<char>| #[trigger]
                sorted.contains(k) <==> left@.contains_key(k) || right@.contains_key(k),
            forall|a: int, b: int|
                0 <= a < b < sorted.len() ==> text_before(#[trigger] sorted[a], #[trigger] sorted[b]),
            steps@.len() == i,
            forall|k: int|
                0 <= k < i ==> {
                    let s = #[trigger] steps@[k];
                    &&& s.0@ == sorted[k]
                    &&& s.1 == pair_action(lookup(left@, s.0@), lookup(right@, s.0@))
                    &&& s.1 != PairAction::Conflict
                },
        decreases paths@.len() - i,
    {
        let path = paths[i].as_str();
        assert(sorted[i as int] == path@);
        assert(sorted.contains(path@));
        let action: PairAction = decide_pair(left.get(path), right.get(path));
        assert(action == pair_action(lookup(left@, path@), lookup(right@, path@)));
        if action == PairAction::Conflict {
            let conflict: String = path.to_owned();
            let plan: PairPlan = PairPlan { steps, conflict: Some(conflict) };
            proof {
                assert forall|k: Seq<char>|
                    (left@.contains_key(k) || right@.contains_key(k)) && text_before(
                        k,
                        conflict@,
                    ) implies #[trigger] step_paths(plan.steps@).contains(k) by {
                    assert(sorted.contains(k));
                    let m = choose|m: int| 0 <= m < sorted.len() && sorted[m] == k;
                    if m >= i {
                        text_before_total(sorted[i as int], sorted[m]);
                        if m > i {
                            assert(text_before(sorted[i as int], sorted[m]));
                        }
                    }
                    assert(step_paths(plan.steps@)[m] == k);
                }
                steps_are_sorted(plan.steps@, sorted);
                assert forall|k: int| 0 <= k < plan.steps@.len() implies left@.contains_key(
                    (#[trigger] plan.steps@[k]).0@,
                ) || right@.contains_key(plan.steps@[k].0@) by {
                    assert(sorted.contains(sorted[k]));
                }
            }
            return plan;
        }
        steps.push((path.to_owned(), action));
        i += 1;
    }
    let plan: PairPlan = PairPlan { steps, conflict: None };
    proof {
        assert forall|k: Seq<char>|
            left@.contains_key(k) || right@.contains_key(k) implies #[trigger] step_paths(
            plan.steps@,
        ).contains(k) by {
            assert(sorted.contains(k));
            let m = choose|m: int| 0 <= m < sorted.len() && sorted[m] == k;
            assert(step_paths(plan.steps@)[m] == k);
        }
        steps_are_sorted(plan.steps@, sorted);
        assert forall|i: int| 0 <= i < plan.steps@.len() implies left@.contains_key(
            (#[trigger] plan.steps@[i]).0@,
        ) || right@.contains_key(plan.steps@[i].0@) by {
            assert(sorted.contains(sorted[i]));
        }
    }
    plan
}

proof fn steps_are_sorted(steps: Seq<(String, PairAction)>, sorted: Seq<Seq<char>>)
    requires
        steps.len() <= sorted.len(),
        forall|k: int| 0 <= k < steps.len() ==> (#[trigger] steps[k]).0@ == sorted[k],
        forall|a: int, b: int|
            0 <= a < b < sorted.len() ==> text_before(#[trigger] sorted[a], #[trigger] sorted[b]),
    ensures
        forall|i: int, j: int|
            0 <= i < j < steps.len() ==> text_before(
                (#[trigger] steps[i]).0@,
                (#[trigger] steps[j]).0@,
            ),
{
    assert forall|i: int, j: int| 0 <= i < j < steps.len() implies text_before(
        (#[trigger] steps[i]).0@,
        (#[trigger] steps[j]).0@,
    ) by {
        assert(steps[i].0@ == sorted[i]);
        assert(steps[j].0@ == sorted[j]);
    }
}

/// What a two-way synchronisation reports of a conflict.
pub fn conflict_error(relative: &str) -> (res: VfsError)
    ensures
        res.is_internal(
            "Path '"@ + relative@
                + "' conflicts between file and directory across sync targets"@,
        ),
{
    VfsError::Internal(
        concat3(
            "Path '",
            relative,
            "' conflicts between file and directory across sync targets",
        ),
    )
}

/// What a one-way synchronisation reports of a source that is not there.
pub fn missing_source_error(src_root: &str) -> (res: VfsError)
    ensures
        res matches VfsError::NotFound(m) && m@ == "Source directory '"@ + src_root@
            + "' does not exist"@,
{
    VfsError::NotFound(concat3("Source directory '", src_root, "' does not exist"))
}

/// A side of a pair after its action: what was missing or lost is as on the other
/// side.
pub open spec fn after_pair(left: Option<VfsFileInfo>, right: Option<VfsFileInfo>) -> (
    Option<VfsFileInfo>,
    Option<VfsFileInfo>,
) {
    match pair_action(left, right) {
        PairAction::CreateOnRight | PairAction::CopyToRight => (left, left),
        PairAction::CreateOnLeft | PairAction::CopyToLeft => (right, right),
        _ => (left, right),
    }
}

/// Nothing is lost that is not older, or of the same time on the right: after a
/// two-way synchronisation both sides have the path, of the same kind and size, and
/// a file is never replaced by an older one.
pub proof fn reconciling_keeps_the_newer(left: Option<VfsFileInfo>, right: Option<VfsFileInfo>)
    requires
        pair_action(left, right) != PairAction::Conflict,
        left is Some || right is Some,
    ensures
        ({
            let (l, r) = after_pair(left, right);
            &&& l is Some && r is Some
            &&& l->0.is_dir == r->0.is_dir
            &&& !l->0.is_dir ==> l->0.size == r->0.size
            &&& left is Some ==> !time_before(l->0.modified, left->0.modified) || l->0.is_dir
            &&& right is Some ==> !time_before(r->0.modified, right->0.modified) || r->0.is_dir
        }),
{
}

// ---------------------------------------------------------------- laws
/// `a` is earlier than `b`; what has no time is the earliest.
pub open spec fn earlier(a: Option<TimeNanos>, b: Option<TimeNanos>) -> bool {
    b is Some && (a is None || a->0 < b->0)
}

/// A one-way synchronisation copies exactly the files that need it: those that the
/// destination has not, has a directory in the place of, has of another size, or has
/// of the same size with an earlier time. What the destination has newer, of the same
/// size, is left alone.
pub proof fn only_what_is_needed_is_copied(
    plan: MirrorPlan,
    source: Map<Seq<char>, VfsFileInfo>,
    dst: Map<Seq<char>, VfsFileInfo>,
    dst_root: Seq<char>,
    delete_extras: bool,
    k: Seq<char>,
)
    requires
        follows(plan, source, dst, dst_root, delete_extras),
    ensures
        copied(plan.copies@).contains(k) ==> source.contains_key(k) && !source[k].is_dir,
        copied(plan.copies@).contains(k) && dst.contains_key(k) && !dst[k].is_dir && dst[k].size
            == source[k].size ==> earlier(dst[k].modified, source[k].modified),
        source.contains_key(k) && !source[k].is_dir && !copied(plan.copies@).contains(k)
            ==> dst.contains_key(k) && !dst[k].is_dir && dst[k].size == source[k].size && !earlier(
            dst[k].modified,
            source[k].modified,
        ),
        views(plan.directories@).contains(k) <==> source.contains_key(k) && source[k].is_dir,
{
}

/// A copied file goes to its own place below the destination, and comes from where the
/// source has it.
pub proof fn copies_go_to_their_own_place(
    plan: MirrorPlan,
    source: Map<Seq<char>, VfsFileInfo>,
    dst: Map<Seq<char>, VfsFileInfo>,
    dst_root: Seq<char>,
    delete_extras: bool,
    i: int,
)
    requires
        follows(plan, source, dst, dst_root, delete_extras),
        0 <= i < plan.copies@.len(),
        dst_root.len() > 0,
        plan.copies@[i].relative@.len() > 0,
        plan.copies@[i].relative@[0] != '/',
    ensures
        ({
            let c = plan.copies@[i];
            &&& source.contains_key(c.relative@)
            &&& c.from@ == source[c.relative@].path@
            &&& dst_root == seq!['/'] ==> c.to@ == seq!['/'] + c.relative@
            &&& dst_root.last() != '/' ==> c.to@ == dst_root + seq!['/'] + c.relative@
        }),
{
    reveal_strlit("/");
    let c = plan.copies@[i];
    assert(copied(plan.copies@)[i] == c.relative@);
    assert(copied(plan.copies@).contains(c.relative@));
    assert("/"@ =~= seq!['/']);
}

proof fn segments_add_up(a: Seq<Seq<char>>, b: Seq<Seq<char>>)
    ensures
        count_segments(a + b) == count_segments(a) + count_segments(b),
    decreases b.len(),
{
    if b.len() > 0 {
        segments_add_up(a, b.drop_last());
        assert((a + b).drop_last() =~= a + b.drop_last());
    } else {
        assert(a + b =~= a);
    }
}

proof fn something_is_deep(s: Seq<char>, i: int)
    requires
        0 <= i < s.len(),
        s[i] != '/',
    ensures
        depth(s) >= 1,
    decreases s.len(),
{
    let t = s.drop_last();
    let head = split_char(t, '/');
    if s.last() == '/' {
        something_is_deep(t, i);
        assert(split_char(s, '/').drop_last() =~= head);
    } else {
        assert(split_char(s, '/').last().len() > 0);
    }
}

/// A path lies as deep as the directory that it is in and the path within that
/// directory together; a path that names something lies deeper than the root.
pub proof fn depths_add_up(dir: Seq<char>, rest: Seq<char>)
    ensures
        depth(dir.push('/') + rest) == depth(dir) + depth(rest),
        rest.len() > 0 && rest[0] != '/' ==> depth(rest) >= 1,
        rest.len() > 0 && !rest.contains('/') ==> depth(rest) == 1,
{
    crate::text::split_at_a_separator(dir, rest, '/');
    segments_add_up(split_char(dir, '/'), split_char(rest, '/'));
    if rest.len() > 0 && rest[0] != '/' {
        something_is_deep(rest, 0);
    }
    if rest.len() > 0 && !rest.contains('/') {
        crate::text::split_without_separator(rest, '/');
        assert(seq![rest].drop_last() =~= Seq::<Seq<char>>::empty());
        assert(count_segments(seq![rest].drop_last()) == 0);
    }
}

/// A directory is created before what is in it, and what is in a directory is deleted
/// before the directory.
pub proof fn parents_first_and_last(
    plan: MirrorPlan,
    source: Map<Seq<char>, VfsFileInfo>,
    dst: Map<Seq<char>, VfsFileInfo>,
    dst_root: Seq<char>,
    delete_extras: bool,
    rest: Seq<char>,
    i: int,
    j: int,
)
    requires
        follows(plan, source, dst, dst_root, delete_extras),
        rest.len() > 0,
        rest[0] != '/',
    ensures
        0 <= i < plan.directories@.len() && 0 <= j < plan.directories@.len()
            && plan.directories@[j]@ == plan.directories@[i]@.push('/') + rest ==> i < j,
        0 <= i < plan.extras@.len() && 0 <= j < plan.extras@.len() && plan.extras@[j]@
            == plan.extras@[i]@.push('/') + rest ==> j < i,
{
    if 0 <= i < plan.directories@.len() {
        depths_add_up(plan.directories@[i]@, rest);
    }
    if 0 <= i < plan.extras@.len() {
        depths_add_up(plan.extras@[i]@, rest);
    }
}

proof fn ordinary_is_not_root_like(dst_root: Seq<char>, k: Seq<char>)
    requires
        k.len() > 0,
        k[0] != '/',
        k.last() != '/',
        k != seq!['.'],
    ensures
        !is_root_like(dst_root, k),
{
    reveal_strlit("/");
    reveal_strlit("/.");
    reveal_strlit(".");
    reveal_strlit("./");
    let root = trim_end_char(dst_root, '/');
    crate::text::trimming_cuts_the_char(dst_root, '/');
    if dst_root == "/"@ {
        assert(dst_root.drop_last() =~= Seq::<char>::empty());
        assert(root =~= Seq::<char>::empty());
    }
    assert(trim_start_char(k, '/') == k);
    let path = root.push('/') + k;
    assert(joined(dst_root, k) =~= path);
    assert(path.last() == k.last());
    assert(trim_end_char(path, '/') == path);
    depths_add_up(root, k);
    assert(path.len() > root.len());
    if path == root + "/."@ {
        assert(k.len() == 1);
        assert(path.last() == '.');
        assert(k =~= seq!['.']);
    }
    assert("."@ =~= seq!['.']);
    if k == "./"@ {
        assert(k.last() == '/');
    }
}

/// A mirroring synchronisation deletes exactly what the destination has and the source
/// has not; a keeping one deletes nothing, and none deletes the root itself.
pub proof fn only_extras_are_deleted(
    plan: MirrorPlan,
    source: Map<Seq<char>, VfsFileInfo>,
    dst: Map<Seq<char>, VfsFileInfo>,
    dst_root: Seq<char>,
    delete_extras: bool,
    k: Seq<char>,
)
    requires
        follows(plan, source, dst, dst_root, delete_extras),
    ensures
        views(plan.extras@).contains(k) ==> delete_extras && dst.contains_key(k)
            && !source.contains_key(k) && k.len() > 0,
        delete_extras && dst.contains_key(k) && !source.contains_key(k) && k.len() > 0 && k[0] != '/'
            && k.last() != '/' && k != seq!['.'] ==> views(plan.extras@).contains(k),
{
    if k.len() > 0 && k[0] != '/' && k.last() != '/' && k != seq!['.'] {
        ordinary_is_not_root_like(dst_root, k);
    }
}

/// What lies below a root is known by the rest of its path.
pub proof fn relative_paths_go_on_behind_the_root(root: Seq<char>, rest: Seq<char>)
    requires
        rest.len() > 0,
        rest[0] != '/',
    ensures
        root != seq!['/'] ==> relative(root, root.push('/') + rest) == rest,
        relative(seq!['/'], seq!['/'] + rest) == rest,
{
    reveal_strlit("/");
    assert("/"@ =~= seq!['/']);
    let path = root.push('/') + rest;
    assert(path.take(root.len() as int) =~= root);
    let tail = path.skip(root.len() as int);
    assert(tail =~= seq!['/'] + rest);
    let whole = seq!['/'] + rest;
    assert(whole.drop_first() =~= rest);
    assert(trim_start_char(rest, '/') == rest);
    assert(trim_start_char(whole, '/') == rest);
}

/// A tree holds every entry under its relative path, and nothing else; where two
/// entries have the same path, the later one.
pub proof fn a_tree_holds_its_entries(root: Seq<char>, entries: Seq<VfsFileInfo>, i: int)
    requires
        0 <= i < entries.len(),
    ensures
        tree_of(root, entries).contains_key(relative(root, entries[i].path@)),
        (forall|j: int|
            i < j < entries.len() ==> relative(root, (#[trigger] entries[j]).path@) != relative(
                root,
                entries[i].path@,
            )) ==> tree_of(root, entries)[relative(root, entries[i].path@)] == entries[i],
        forall|k: Seq<char>| #[trigger]
            tree_of(root, entries).contains_key(k) ==> entries.contains(
                tree_of(root, entries)[k],
            ) && relative(root, tree_of(root, entries)[k].path@) == k,
    decreases entries.len(),
{
    let t = entries.drop_last();
    if i < entries.len() - 1 {
        a_tree_holds_its_entries(root, t, i);
        assert(t[i] == entries[i]);
        if forall|j: int|
            i < j < entries.len() ==> relative(root, (#[trigger] entries[j]).path@) != relative(
                root,
                entries[i].path@,
            ) {
            assert forall|j: int| i < j < t.len() implies relative(root, (#[trigger] t[j]).path@)
                != relative(root, t[i].path@) by {
                assert(t[j] == entries[j]);
            }
            assert(entries[entries.len() - 1] == entries.last());
        }
    } else if t.len() > 0 {
        a_tree_holds_its_entries(root, t, 0);
    }
    assert forall|k: Seq<char>| #[trigger] tree_of(root, entries).contains_key(k) implies entries.contains(
        tree_of(root, entries)[k],
    ) && relative(root, tree_of(root, entries)[k].path@) == k by {
        if k == relative(root, entries.last().path@) {
            assert(entries[entries.len() - 1] == entries.last());
        } else {
            assert(tree_of(root, t).contains_key(k));
            let e = tree_of(root, t)[k];
            assert(t.contains(e));
            let m = choose|m: int| 0 <= m < t.len() && t[m] == e;
            assert(entries[m] == e);
        }
    }
}

/// What a two-way synchronisation does with a path. A directory is created where it is
/// missing, a file copied where it is missing or older; of two files of the same time
/// and different size the right one is replaced; two that are alike, and two
/// directories, are left alone; and a file against a directory is a conflict.
pub proof fn a_pair_is_settled_by_its_files(left: Option<VfsFileInfo>, right: Option<VfsFileInfo>)
    ensures
        ({
            let action = pair_action(left, right);
            let both = left is Some && right is Some;
            let two_files = both && !left->0.is_dir && !right->0.is_dir;
            let left_newer = earlier(right->0.modified, left->0.modified);
            let right_newer = earlier(left->0.modified, right->0.modified);
            &&& action == PairAction::Conflict <==> both && left->0.is_dir != right->0.is_dir
            &&& action == PairAction::CreateOnRight <==> left is Some && left->0.is_dir && right is None
            &&& action == PairAction::CreateOnLeft <==> right is Some && right->0.is_dir && left is None
            &&& action == PairAction::CopyToRight <==> (left is Some && !left->0.is_dir
                && right is None) || (two_files && (left_newer || (!right_newer && left->0.size
                != right->0.size)))
            &&& action == PairAction::CopyToLeft <==> (right is Some && !right->0.is_dir
                && left is None) || (two_files && right_newer)
        }),
{
}

/// A two-way synchronisation without a conflict deals with every path of either side,
/// each once; with one, with every path that comes before the conflict, and none
/// behind it.
pub proof fn every_path_is_settled(
    plan: PairPlan,
    left: Map<Seq<char>, VfsFileInfo>,
    right: Map<Seq<char>, VfsFileInfo>,
    k: Seq<char>,
)
    requires
        reconciles(plan, left, right),
        left.contains_key(k) || right.contains_key(k),
    ensures
        plan.conflict is None || text_before(k, plan.conflict->0@) ==> exists|i: int|
            0 <= i < plan.steps@.len() && (#[trigger] plan.steps@[i]).0@ == k,
        plan.conflict matches Some(c) ==> left.contains_key(c@) && right.contains_key(c@)
            && left[c@].is_dir != right[c@].is_dir && forall|i: int|
            0 <= i < plan.steps@.len() ==> (#[trigger] plan.steps@[i]).0@ != c@,
        plan.conflict is None && left.contains_key(k) && right.contains_key(k) ==> left[k].is_dir
            == right[k].is_dir,
{
    if plan.conflict is None || text_before(k, plan.conflict->0@) {
        assert(step_paths(plan.steps@).contains(k));
        let i = choose|i: int| 0 <= i < plan.steps@.len() && step_paths(plan.steps@)[i] == k;
        assert(plan.steps@[i].0@ == k);
    }
    if plan.conflict is Some {
        let c = plan.conflict->0;
        text_before_total(c@, c@);
    }
}

/// The next run comes after the interval, and never sooner than a minute from now.
pub proof fn runs_are_at_least_a_minute_apart(now: TimeNanos, interval_minutes: i64)
    ensures
        next_run(now, interval_minutes) - now >= 60_000_000_000,
        interval_minutes >= 1 ==> next_run(now, interval_minutes) - now == interval_minutes
            * 60_000_000_000,
        interval_minutes < 1 ==> next_run(now, interval_minutes) - now == 60_000_000_000,
{
}

/// Files go the way that the mode says; only a mirroring mode deletes; and where both
/// ways are asked for, nothing is deleted.
pub proof fn modes_say_where_files_go(mode: RemoteMountSyncMode)
    ensures
        ({
            let job = job_of(mode);
            let to_mount = mode == RemoteMountSyncMode::PeerToMountKeep || mode
                == RemoteMountSyncMode::PeerToMountMirror;
            let mirrors = mode == RemoteMountSyncMode::PeerToMountMirror || mode
                == RemoteMountSyncMode::MountToPeerMirror;
            &&& job is Both <==> mode == RemoteMountSyncMode::BidirectionalKeep
            &&& job is ToMount <==> to_mount
            &&& job matches SyncJob::ToMount { mirror } ==> mirror == mirrors
            &&& job matches SyncJob::ToPeer { mirror } ==> mirror == mirrors
        }),
{
}

/// A synchronisation is given up after the time that is set, and never before a second.
pub proof fn a_run_has_its_time(secs: i64)
    ensures
        given_up_after(secs) >= 1,
        given_up_after(secs) >= secs,
        secs >= 1 ==> given_up_after(secs) == secs,
        secs < 1 ==> given_up_after(secs) == 1,
{
}

/// What stands for the root of the destination, or lies no deeper than it, is known as
/// such, and nothing that lies deeper is unless it names the root.
pub proof fn the_root_is_known(dst_root: Seq<char>, key: Seq<char>)
    ensures
        key.len() == 0 ==> is_root_like(dst_root, key),
        depth(trim_end_char(joined(dst_root, key), '/')) == depth(trim_end_char(dst_root, '/'))
            ==> is_root_like(dst_root, key),
        is_root_like(dst_root, key) && key.len() > 2 && depth(
            trim_end_char(joined(dst_root, key), '/'),
        ) > depth(trim_end_char(dst_root, '/')) ==> trim_end_char(joined(dst_root, key), '/')
            == trim_end_char(dst_root, '/') || trim_end_char(joined(dst_root, key), '/')
            == trim_end_char(dst_root, '/') + seq!['/', '.'],
{
    reveal_strlit(".");
    reveal_strlit("./");
    reveal_strlit("/.");
    assert("/."@ =~= seq!['/', '.']);
}

/// A path that does not lie below a root is told from the root of all.
pub proof fn paths_elsewhere_are_told_whole(root: Seq<char>, path: Seq<char>)
    requires
        !has_prefix(path, root) || root == seq!['/'],
        path.len() > 1,
        path[0] == '/',
        path[1] != '/',
    ensures
        relative(root, path) == path.skip(1),
{
    reveal_strlit("/");
    assert("/"@ =~= seq!['/']);
    assert(path.drop_first() =~= path.skip(1));
    assert(trim_start_char(path.drop_first(), '/') == path.drop_first());
}

} // verus!
