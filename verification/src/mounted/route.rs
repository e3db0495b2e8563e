//! Which storage a path belongs to.
use crate::error::VfsError;
use crate::listing::{by_name, sort_by_name, sorted_entries};
use crate::order::{is_stable_order, stable_order};
use crate::pathname::{parent_of, parent_spec};
use crate::scoped::path::{has_control, rooted};
use crate::scoped::quota::clamp_i64;
use crate::text::{
    after_last, chars_of, concat2, concat3, contains_text, has_infix, has_prefix, is_control,
    is_control_char, replace_char, replaced_char, starts_with_char, strip_prefix, text_after_last,
    text_eq, trim_end_char, trim_end_matches, trim_start_char, trim_start_matches,
};
use crate::types::{clone_text, TimeNanos, VfsFileInfo};
use vstd::prelude::*;
use vstd::utf8::encode_utf8;

verus! {

// ---------------------------------------------------------------- paths
pub fn normalize_logical_path(path: &str) -> (res: String)
    ensures
        res@ == rooted(path@),
{
    if starts_with_char(path, '/') {
        path.to_owned()
    } else {
        concat2("/", path)
    }
}

/// A directory as it is compared: rooted, without trailing slashes.
pub open spec fn dir_form(path: Seq<char>) -> Seq<char> {
    if path == "/"@ {
        "/"@
    } else {
        trim_end_char(rooted(path), '/')
    }
}

pub fn normalize_dir_path(path: &str) -> (res: String)
    ensures
        res@ == dir_form(path@),
{
    if text_eq(path, "/") {
        "/".to_owned()
    } else {
        trim_end_matches(normalize_logical_path(path).as_str(), '/').to_owned()
    }
}

/// `path` goes on behind `dir` with a slash.
pub open spec fn below(path: Seq<char>, dir: Seq<char>) -> bool {
    has_prefix(path, dir) && path.len() > dir.len() && path[dir.len() as int] == '/'
}

/// `path` is `dir` or lies below it.
pub open spec fn within(path: Seq<char>, dir: Seq<char>) -> bool {
    path == dir || below(path, dir)
}

pub fn is_path_within(path: &str, dir: &str) -> (res: bool)
    ensures
        res == within(path@, dir@),
{
    if text_eq(path, dir) {
        return true;
    }
    match strip_prefix(path, dir) {
        Some(rest) => starts_with_char(rest, '/'),
        None => false,
    }
}

/// `child` put below `base`.
pub open spec fn joined(base: Seq<char>, child: Seq<char>) -> Seq<char> {
    if child.len() == 0 {
        base
    } else if base == "/"@ {
        "/"@ + trim_start_char(child, '/')
    } else {
        trim_end_char(base, '/') + "/"@ + trim_start_char(child, '/')
    }
}

pub fn join_logical_path(base: &str, child: &str) -> (res: String)
    ensures
        res@ == joined(base@, child@),
{
    if child.is_empty() {
        return base.to_owned();
    }
    if text_eq(base, "/") {
        concat2("/", trim_start_matches(child, '/'))
    } else {
        concat3(trim_end_matches(base, '/'), "/", trim_start_matches(child, '/'))
    }
}

/// A path into a tree with mounts may be operated on.
pub open spec fn is_mountable_path(path: Seq<char>) -> bool {
    !has_control(path) && !has_infix(replaced_char(rooted(path), '\\', '/'), ".."@)
}

/// Check a path and return the form to operate on.
pub fn validate_path(path: &str) -> (res: Result<String, VfsError>)
    ensures
        match res {
            Ok(p) => is_mountable_path(path@) && p@ == replaced_char(rooted(path@), '\\', '/'),
            Err(e) => if has_control(path@) {
                e.is_internal("Security violation: control characters in path"@)
            } else {
                !is_mountable_path(path@) && e.is_internal(
                    "Security violation: parent path segments are not allowed"@,
                )
            },
        },
{
    let chars: Vec<char> = chars_of(path);
    let mut i: usize = 0;
    while i < chars.len()
        invariant
            i <= chars@.len(),
            chars@ == path@,
            forall|j: int| 0 <= j < i ==> !is_control_char(#[trigger] path@[j]),
        decreases chars@.len() - i,
    {
        if is_control(chars[i]) {
            assert(is_control_char(path@[i as int]));
            return Err(VfsError::internal("Security violation: control characters in path"));
        }
        i += 1;
    }
    let normalized: String = replace_char(normalize_logical_path(path).as_str(), '\\', '/');
    if contains_text(normalized.as_str(), "..") {
        return Err(
            VfsError::internal("Security violation: parent path segments are not allowed"),
        );
    }
    Ok(normalized)
}

// ---------------------------------------------------------------- mounts
/// A remote storage and the directory it appears at.
#[derive(Debug)]
pub struct MountPoint {
    pub id: String,
    pub mount_dir: String,
    pub last_sync_at: Option<TimeNanos>,
    pub updated_at: TimeNanos,
}

impl Clone for MountPoint {
    fn clone(&self) -> (res: MountPoint)
        ensures
            res == *self,
    {
        MountPoint {
            id: self.id.clone(),
            mount_dir: self.mount_dir.clone(),
            last_sync_at: self.last_sync_at,
            updated_at: self.updated_at,
        }
    }
}

impl MountPoint {
    /// The mount holds `path`, which is in directory form.
    pub open spec fn covers(self, path: Seq<char>) -> bool {
        within(path, self.mount_dir@)
    }

    /// Path on the remote storage of a path that the mount holds.
    pub open spec fn remote_path(self, path: Seq<char>) -> Seq<char> {
        if path == self.mount_dir@ {
            "/"@
        } else {
            path.skip(self.mount_dir@.len() as int)
        }
    }

    /// Path in the user's tree of a path on the remote storage.
    pub open spec fn local_path(self, remote: Seq<char>) -> Seq<char> {
        if remote == "/"@ || remote.len() == 0 {
            self.mount_dir@
        } else {
            joined(self.mount_dir@, trim_start_char(remote, '/'))
        }
    }

    /// Length of the mount's directory in bytes.
    pub open spec fn dir_len(self) -> nat {
        encode_utf8(self.mount_dir@).len()
    }

    pub fn map_runtime_path(&self, remote_path: &str) -> (res: String)
        ensures
            res@ == self.local_path(remote_path@),
    {
        if text_eq(remote_path, "/") || remote_path.is_empty() {
            self.mount_dir.clone()
        } else {
            join_logical_path(self.mount_dir.as_str(), trim_start_matches(remote_path, '/'))
        }
    }

    /// `res` is what is told in the user's tree of what `info` tells of the remote
    /// storage.
    pub open spec fn is_mapped(self, info: VfsFileInfo, res: VfsFileInfo) -> bool {
        let path = self.local_path(info.path@);
        &&& res.path@ == path
        &&& res.name@ == if path == self.mount_dir@ {
            after_last(path, '/')
        } else {
            info.name@
        }
        &&& res.is_dir == info.is_dir
        &&& res.size == info.size
        &&& res.modified == info.modified
        &&& res.favorite_color == info.favorite_color
        &&& res.has_active_share == info.has_active_share
        &&& res.has_active_direct == info.has_active_direct
        &&& res.trashed_at == info.trashed_at
        &&& res.original_path == info.original_path
    }

    pub fn map_remote_info(&self, info: &VfsFileInfo) -> (res: VfsFileInfo)
        ensures
            self.is_mapped(*info, res),
    {
        let path: String = self.map_runtime_path(info.path.as_str());
        let name: String = if text_eq(path.as_str(), self.mount_dir.as_str()) {
            text_after_last(path.as_str(), '/').to_owned()
        } else {
            info.name.clone()
        };
        VfsFileInfo {
            name,
            path,
            is_dir: info.is_dir,
            size: info.size,
            modified: info.modified,
            favorite_color: info.favorite_color,
            has_active_share: info.has_active_share,
            has_active_direct: info.has_active_direct,
            trashed_at: info.trashed_at,
            original_path: clone_text(&info.original_path),
        }
    }

    /// `info` is what is told of the mount itself.
    pub open spec fn is_root_info(self, info: VfsFileInfo) -> bool {
        info.is_plain(
            after_last(self.mount_dir@, '/'),
            self.mount_dir@,
            true,
            0,
            Some(
                match self.last_sync_at {
                    Some(t) => t,
                    None => self.updated_at,
                },
            ),
        )
    }

    pub fn mount_root_info(&self) -> (res: VfsFileInfo)
        ensures
            self.is_root_info(res),
    {
        let modified: TimeNanos = match self.last_sync_at {
            Some(t) => t,
            None => self.updated_at,
        };
        VfsFileInfo::plain(
            text_after_last(self.mount_dir.as_str(), '/').to_owned(),
            self.mount_dir.clone(),
            true,
            0,
            Some(modified),
        )
    }
}

/// Mapping a path of the tree to the remote storage and back gives the path.
///
/// The mount's directory must be in directory form and not be the root, and the path
/// below it must not go on with a second slash.
pub proof fn mount_path_roundtrip(mount: MountPoint, path: Seq<char>)
    requires
        mount.covers(path),
        mount.mount_dir@ != "/"@,
        mount.mount_dir@.len() > 0,
        mount.mount_dir@.last() != '/',
        path.len() > mount.mount_dir@.len() ==> path.len() > mount.mount_dir@.len() + 1
            && path[mount.mount_dir@.len() as int + 1] != '/',
    ensures
        mount.local_path(mount.remote_path(path)) == path,
{
    let dir = mount.mount_dir@;
    if path != dir {
        let rest = path.skip(dir.len() as int);
        reveal_strlit("/");
        assert(rest.len() >= 2);
        assert(rest[0] == '/');
        let tail = rest.drop_first();
        assert(tail[0] == path[dir.len() as int + 1]);
        assert(trim_start_char(rest, '/') == trim_start_char(tail, '/'));
        assert(trim_start_char(tail, '/') == tail);
        assert(trim_start_char(trim_start_char(rest, '/'), '/') == tail);
        assert(trim_end_char(dir, '/') == dir);
        assert(path.take(dir.len() as int) == dir);
        assert(dir + "/"@ + tail =~= path);
    }
}

/// The mounts of a user's tree, the longest directory first.
pub struct MountTable {
    mounts: Vec<MountPoint>,
}

/// Where a path leads.
#[derive(Debug)]
pub struct Endpoint {
    /// Number of the mount, or `None` for the user's own storage.
    pub mount: Option<usize>,
    /// Path on that storage.
    pub path: String,
    pub is_mount_root: bool,
}

pub open spec fn length_keys(mounts: Seq<MountPoint>) -> Seq<u64> {
    mounts.map_values(|m: MountPoint| (u64::MAX - m.dir_len()) as u64)
}

impl MountTable {
    pub closed spec fn view(self) -> Seq<MountPoint> {
        self.mounts@
    }

    /// No mount comes before one with a longer directory.
    pub open spec fn wf(self) -> bool {
        forall|i: int, j: int|
            0 <= i < j < self@.len() ==> (#[trigger] self@[i]).dir_len() >= (
            #[trigger] self@[j]).dir_len()
    }

    /// The mount with number `i` is the first that holds `path`.
    pub open spec fn first_cover(self, path: Seq<char>, i: int) -> bool {
        &&& 0 <= i < self@.len()
        &&& self@[i].covers(path)
        &&& forall|j: int| 0 <= j < i ==> !(#[trigger] self@[j]).covers(path)
    }

    pub open spec fn uncovered(self, path: Seq<char>) -> bool {
        forall|j: int| 0 <= j < self@.len() ==> !(#[trigger] self@[j]).covers(path)
    }

    pub fn new(mounts: Vec<MountPoint>) -> (res: MountTable)
        ensures
            res.wf(),
            exists|order: Seq<usize>| #[trigger]
                is_stable_order(length_keys(mounts@), order) && res@.len() == order.len() && (
                forall|i: int|
                    0 <= i < order.len() ==> #[trigger] res@[i] == mounts@[order[i] as int]),
    {
        let mut keys: Vec<u64> = Vec::new();
        let n: usize = mounts.len();
        let mut i: usize = 0;
        while i < n
            invariant
                i <= n == mounts@.len(),
                keys@.len() == i,
                forall|k: int|
                    0 <= k < i ==> #[trigger] keys@[k] == (u64::MAX - mounts@[k].dir_len()) as u64,
                forall|k: int| 0 <= k < i ==> (#[trigger] mounts@[k]).dir_len() <= u64::MAX,
            decreases n - i,
        {
            let len: usize = mounts[i].mount_dir.as_str().as_bytes().len();
            keys.push(u64::MAX - len as u64);
            i += 1;
        }
        assert(keys@ =~= length_keys(mounts@));
        let order: Vec<usize> = stable_order(&keys);
        let mut out: Vec<MountPoint> = Vec::new();
        let mut j: usize = 0;
        while j < n
            invariant
                j <= n,
                n == mounts@.len(),
                order@.len() == n,
                forall|k: int| 0 <= k < n ==> (#[trigger] order@[k]) < n,
                out@.len() == j,
                forall|k: int| 0 <= k < j ==> #[trigger] out@[k] == mounts@[order@[k] as int],
            decreases n - j,
        {
            let at: usize = order[j];
            out.push(mounts[at].clone());
            j += 1;
        }
        let res: MountTable = MountTable { mounts: out };
        proof {
            assert forall|a: int, b: int| 0 <= a < b < res@.len() implies (
            #[trigger] res@[a]).dir_len() >= (#[trigger] res@[b]).dir_len() by {
                let x = order@[a] as int;
                let y = order@[b] as int;
                assert(keys@[x] <= keys@[y]);
            }
            assert(is_stable_order(length_keys(mounts@), order@));
        }
        res
    }

    pub fn len(&self) -> (res: usize)
        ensures
            res == self@.len(),
    {
        self.mounts.len()
    }

    pub fn mount(&self, i: usize) -> (res: &MountPoint)
        requires
            i < self@.len(),
        ensures
            *res == self@[i as int],
    {
        &self.mounts[i]
    }

    /// The mount that holds a path, and the path on its storage.
    pub fn resolve_runtime(&self, path: &str) -> (res: Option<(usize, String)>)
        ensures
            match res {
                Some((i, remote)) => self.first_cover(dir_form(path@), i as int) && remote@
                    == self@[i as int].remote_path(dir_form(path@)),
                None => self.uncovered(dir_form(path@)),
            },
    {
        let normalized: String = normalize_dir_path(path);
        let mut i: usize = 0;
        while i < self.mounts.len()
            invariant
                i <= self.mounts@.len(),
                normalized@ == dir_form(path@),
                forall|j: int| 0 <= j < i ==> !(#[trigger] self@[j]).covers(normalized@),
            decreases self.mounts@.len() - i,
        {
            let dir = self.mounts[i].mount_dir.as_str();
            if text_eq(normalized.as_str(), dir) {
                return Some((i, "/".to_owned()));
            }
            match strip_prefix(normalized.as_str(), dir) {
                Some(rest) => {
                    if starts_with_char(rest, '/') {
                        return Some((i, normalize_logical_path(rest)));
                    }
                },
                None => {},
            }
            i += 1;
        }
        None
    }

    pub fn contains_mounted_path(&self, path: &str) -> (res: bool)
        ensures
            res == !self.uncovered(dir_form(path@)),
    {
        match self.resolve_runtime(path) {
            Some(_) => true,
            None => false,
        }
    }

    /// One of the paths lies on a mount.
    pub fn any_mounted(&self, paths: &Vec<String>) -> (res: bool)
        ensures
            res == exists|i: int|
                0 <= i < paths@.len() && !self.uncovered(dir_form((#[trigger] paths@[i])@)),
    {
        let mut i: usize = 0;
        while i < paths.len()
            invariant
                i <= paths@.len(),
                forall|k: int|
                    0 <= k < i ==> self.uncovered(dir_form((#[trigger] paths@[k])@)),
            decreases paths@.len() - i,
        {
            if self.contains_mounted_path(paths[i].as_str()) {
                return true;
            }
            i += 1;
        }
        false
    }

    /// `e` is where the path `p` leads.
    pub open spec fn is_endpoint(self, p: Seq<char>, e: Endpoint) -> bool {
        match e.mount {
            Some(i) => {
                &&& self.first_cover(dir_form(p), i as int)
                &&& e.path@ == self@[i as int].remote_path(dir_form(p))
                &&& e.is_mount_root == (e.path@ == "/"@)
            },
            None => self.uncovered(dir_form(p)) && e.path@ == p && !e.is_mount_root,
        }
    }

    /// Where a path leads.
    pub fn resolve_endpoint(&self, path: &str) -> (res: Result<Endpoint, VfsError>)
        ensures
            match res {
                Ok(e) => is_mountable_path(path@) && self.is_endpoint(
                    replaced_char(rooted(path@), '\\', '/'),
                    e,
                ),
                Err(e) => if has_control(path@) {
                    e.is_internal("Security violation: control characters in path"@)
                } else {
                    !is_mountable_path(path@) && e.is_internal(
                        "Security violation: parent path segments are not allowed"@,
                    )
                },
            },
    {
        let normalized: String = match validate_path(path) {
            Ok(p) => p,
            Err(e) => return Err(e),
        };
        match self.resolve_runtime(normalized.as_str()) {
            Some((i, remote)) => {
                let root: bool = text_eq(remote.as_str(), "/");
                Ok(Endpoint { mount: Some(i), path: remote, is_mount_root: root })
            },
            None => Ok(Endpoint { mount: None, path: normalized, is_mount_root: false }),
        }
    }

    /// The mount appears directly in the directory.
    pub open spec fn is_child_mount(mount: MountPoint, dir: Seq<char>) -> bool {
        mount.mount_dir@ != "/"@ && dir_form(
            match parent_spec(mount.mount_dir@) {
                Some(p) => p,
                None => "/"@,
            },
        ) == dir_form(dir)
    }

    /// What is told of the mounts directly in a directory.
    pub fn direct_mount_children(&self, parent_path: &str) -> (res: Vec<usize>)
        ensures
            forall|i: usize| #[trigger]
                res@.contains(i) <==> i < self@.len() && MountTable::is_child_mount(
                    self@[i as int],
                    parent_path@,
                ),
            forall|a: int, b: int| 0 <= a < b < res@.len() ==> #[trigger] res@[a] < #[trigger] res@[b],
    {
        let normalized: String = normalize_dir_path(parent_path);
        let mut out: Vec<usize> = Vec::new();
        let mut i: usize = 0;
        while i < self.mounts.len()
            invariant
                i <= self.mounts@.len(),
                normalized@ == dir_form(parent_path@),
                forall|k: usize| #[trigger]
                    out@.contains(k) <==> k < i && MountTable::is_child_mount(
                        self@[k as int],
                        parent_path@,
                    ),
                forall|a: int, b: int|
                    0 <= a < b < out@.len() ==> #[trigger] out@[a] < #[trigger] out@[b],
                forall|a: int| 0 <= a < out@.len() ==> #[trigger] out@[a] < i,
            decreases self.mounts@.len() - i,
        {
            let dir = self.mounts[i].mount_dir.as_str();
            let mut child: bool = false;
            if !text_eq(dir, "/") {
                let parent: String = match parent_of(dir) {
                    Some(p) => p,
                    None => "/".to_owned(),
                };
                child = text_eq(
                    normalize_dir_path(parent.as_str()).as_str(),
                    normalized.as_str(),
                );
            }
            let ghost prior = out@;
            if child {
                out.push(i);
                assert(out@[out@.len() - 1] == i);
            }
            proof {
                assert forall|k: usize| #[trigger] out@.contains(k) <==> k < i + 1
                    && MountTable::is_child_mount(self@[k as int], parent_path@) by {
                    if out@.contains(k) {
                        let m = choose|m: int| 0 <= m < out@.len() && out@[m] == k;
                        if m < prior.len() {
                            assert(prior[m] == k);
                            assert(prior.contains(k));
                        }
                    }
                    if k < i && MountTable::is_child_mount(self@[k as int], parent_path@) {
                        assert(prior.contains(k));
                        let m = choose|m: int| 0 <= m < prior.len() && prior[m] == k;
                        assert(out@[m] == k);
                    }
                }
            }
            i += 1;
        }
        out
    }

    /// The mounts in or below a directory.
    pub fn descendant_mounts(&self, root_path: &str) -> (res: Vec<usize>)
        ensures
            forall|i: usize| #[trigger]
                res@.contains(i) <==> i < self@.len() && within(
                    self@[i as int].mount_dir@,
                    dir_form(root_path@),
                ),
            forall|a: int, b: int| 0 <= a < b < res@.len() ==> #[trigger] res@[a] < #[trigger] res@[b],
    {
        let normalized: String = normalize_dir_path(root_path);
        let mut out: Vec<usize> = Vec::new();
        let mut i: usize = 0;
        while i < self.mounts.len()
            invariant
                i <= self.mounts@.len(),
                normalized@ == dir_form(root_path@),
                forall|k: usize| #[trigger]
                    out@.contains(k) <==> k < i && within(
                        self@[k as int].mount_dir@,
                        dir_form(root_path@),
                    ),
                forall|a: int, b: int|
                    0 <= a < b < out@.len() ==> #[trigger] out@[a] < #[trigger] out@[b],
                forall|a: int| 0 <= a < out@.len() ==> #[trigger] out@[a] < i,
            decreases self.mounts@.len() - i,
        {
            let ghost prior = out@;
            if is_path_within(self.mounts[i].mount_dir.as_str(), normalized.as_str()) {
                out.push(i);
                assert(out@[out@.len() - 1] == i);
            }
            proof {
                assert forall|k: usize| #[trigger] out@.contains(k) <==> k < i + 1 && within(
                    self@[k as int].mount_dir@,
                    dir_form(root_path@),
                ) by {
                    if out@.contains(k) {
                        let m = choose|m: int| 0 <= m < out@.len() && out@[m] == k;
                        if m < prior.len() {
                            assert(prior[m] == k);
                            assert(prior.contains(k));
                        }
                    }
                    if k < i && within(self@[k as int].mount_dir@, dir_form(root_path@)) {
                        assert(prior.contains(k));
                        let m = choose|m: int| 0 <= m < prior.len() && prior[m] == k;
                        assert(out@[m] == k);
                    }
                }
            }
            i += 1;
        }
        out
    }

    /// `shown` tells of the mounts at `at`, one by one.
    pub open spec fn tells_of(self, at: Seq<usize>, shown: Seq<VfsFileInfo>) -> bool {
        &&& shown.len() == at.len()
        &&& forall|i: int|
            0 <= i < at.len() ==> (#[trigger] at[i]) < self@.len()
                && self@[at[i] as int].is_root_info(shown[i])
    }

    /// `at` lists the mounts that appear in the directory, in order.
    pub open spec fn lists_children(self, path: Seq<char>, at: Seq<usize>) -> bool {
        &&& forall|k: usize| #[trigger]
            at.contains(k) <==> k < self@.len() && MountTable::is_child_mount(self@[k as int], path)
        &&& forall|a: int, b: int| 0 <= a < b < at.len() ==> #[trigger] at[a] < #[trigger] at[b]
    }

    /// `res` is a directory's listing with the mounts that appear in it, by name.
    pub open spec fn is_merged_listing(
        self,
        path: Seq<char>,
        entries: Seq<VfsFileInfo>,
        res: Seq<VfsFileInfo>,
    ) -> bool {
        exists|at: Seq<usize>, shown: Seq<VfsFileInfo>|
            {
                &&& self.lists_children(path, at)
                &&& #[trigger] self.tells_of(at, shown)
                &&& res == sorted_entries(by_name(), entries + shown)
            }
    }

    /// A directory's listing with the mounts that appear in it, by name.
    pub fn merge_local_listing(&self, path: &str, entries: Vec<VfsFileInfo>) -> (res: Vec<
        VfsFileInfo,
    >)
        ensures
            self.is_merged_listing(path@, entries@, res@),
    {
        let children: Vec<usize> = self.direct_mount_children(path);
        let mut all: Vec<VfsFileInfo> = entries;
        let ghost mut shown: Seq<VfsFileInfo> = Seq::empty();
        let mut i: usize = 0;
        assert(all@ =~= entries@ + shown);
        assert(self.lists_children(path@, children@));
        while i < children.len()
            invariant
                i <= children@.len(),
                all@ == entries@ + shown,
                shown.len() == i,
                self.lists_children(path@, children@),
                forall|m: int|
                    0 <= m < i ==> (#[trigger] children@[m]) < self@.len()
                        && self@[children@[m] as int].is_root_info(shown[m]),
            decreases children@.len() - i,
        {
            let k: usize = children[i];
            assert(children@.contains(k));
            let info: VfsFileInfo = self.mounts[k].mount_root_info();
            all.push(info);
            proof {
                shown = shown.push(info);
                assert(all@ =~= entries@ + shown);
            }
            i += 1;
        }
        assert(self.tells_of(children@, shown));
        sort_by_name(&mut all);
        all
    }

    /// Add a mount and everything on its storage to a listing of a whole tree.
    pub fn append_mount(&self, entries: &mut Vec<VfsFileInfo>, i: usize, remote: &Vec<VfsFileInfo>)
        requires
            i < self@.len(),
        ensures
            ({
                let n = old(entries)@.len() as int;
                &&& final(entries)@.len() == n + 1 + remote@.len()
                &&& final(entries)@.take(n) == old(entries)@
                &&& self@[i as int].is_root_info(final(entries)@[n])
                &&& forall|k: int|
                    0 <= k < remote@.len() ==> self@[i as int].is_mapped(
                        #[trigger] remote@[k],
                        final(entries)@[n + 1 + k],
                    )
            }),
    {
        let ghost before = entries@;
        entries.push(self.mounts[i].mount_root_info());
        let mut k: usize = 0;
        assert(entries@.take(before.len() as int) =~= before);
        while k < remote.len()
            invariant
                k <= remote@.len(),
                i < self@.len(),
                entries@.len() == before.len() + 1 + k,
                entries@.take(before.len() as int) == before,
                self@[i as int].is_root_info(entries@[before.len() as int]),
                forall|m: int|
                    0 <= m < k ==> self@[i as int].is_mapped(
                        #[trigger] remote@[m],
                        entries@[before.len() + 1 + m],
                    ),
            decreases remote@.len() - k,
        {
            let info: VfsFileInfo = self.mounts[i].map_remote_info(&remote[k]);
            let ghost prior = entries@;
            entries.push(info);
            assert(entries@.take(before.len() as int) =~= prior.take(before.len() as int));
            k += 1;
        }
    }

    /// What a mount's storage lists, as it appears in the user's tree.
    pub fn map_all(&self, i: usize, remote: &Vec<VfsFileInfo>) -> (res: Vec<VfsFileInfo>)
        requires
            i < self@.len(),
        ensures
            res@.len() == remote@.len(),
            forall|k: int|
                0 <= k < remote@.len() ==> self@[i as int].is_mapped(#[trigger] remote@[k], res@[k]),
    {
        let mut out: Vec<VfsFileInfo> = Vec::new();
        let mut k: usize = 0;
        while k < remote.len()
            invariant
                k <= remote@.len(),
                i < self@.len(),
                out@.len() == k,
                forall|m: int|
                    0 <= m < k ==> self@[i as int].is_mapped(#[trigger] remote@[m], out@[m]),
            decreases remote@.len() - k,
        {
            out.push(self.mounts[i].map_remote_info(&remote[k]));
            k += 1;
        }
        out
    }
}

/// Of all mounts that hold a path, the one it is resolved to has the longest
/// directory.
pub proof fn longest_mount_wins(table: MountTable, path: Seq<char>, i: int, j: int)
    requires
        table.wf(),
        table.first_cover(path, i),
        0 <= j < table@.len(),
        table@[j].covers(path),
    ensures
        table@[j].dir_len() <= table@[i].dir_len(),
{
    assert(j >= i);
}

// ---------------------------------------------------------------- operations on mounts
/// What is done to an endpoint.
#[derive(Debug, Clone, Copy, PartialEq, Eq, Structural)]
pub enum MountOperation {
    Read,
    Stream,
    Write,
    WriteStream,
    Delete,
    CreateDir,
    MoveOrCopy,
}

pub open spec fn root_refusal(op: MountOperation, e: VfsError) -> bool {
    match op {
        MountOperation::Read => e.is_internal("Cannot read a mount root directory"@),
        MountOperation::Stream => e.is_internal("Cannot stream a mount root directory"@),
        MountOperation::Write => e matches VfsError::PermissionDenied(m) && m@
            == "Cannot overwrite a mount root"@,
        MountOperation::WriteStream => e matches VfsError::PermissionDenied(m) && m@
            == "Cannot write a mount root"@,
        MountOperation::Delete => e matches VfsError::PermissionDenied(m) && m@
            == "Use mount management to remove a mounted directory"@,
        MountOperation::CreateDir => e matches VfsError::PermissionDenied(m) && m@
            == "Mount root already exists"@,
        MountOperation::MoveOrCopy => e matches VfsError::PermissionDenied(m) && m@
            == "Moving or copying a mount root is not supported"@,
    }
}

/// The root of a mount is neither read, written, removed nor moved as a file.
pub fn check_mount_root(op: MountOperation, is_mount_root: bool) -> (res: Result<(), VfsError>)
    ensures
        match res {
            Ok(()) => !is_mount_root,
            Err(e) => is_mount_root && root_refusal(op, e),
        },
{
    if !is_mount_root {
        return Ok(());
    }
    Err(
        match op {
            MountOperation::Read => VfsError::internal("Cannot read a mount root directory"),
            MountOperation::Stream => VfsError::internal("Cannot stream a mount root directory"),
            MountOperation::Write => VfsError::PermissionDenied(
                "Cannot overwrite a mount root".to_owned(),
            ),
            MountOperation::WriteStream => VfsError::PermissionDenied(
                "Cannot write a mount root".to_owned(),
            ),
            MountOperation::Delete => VfsError::PermissionDenied(
                "Use mount management to remove a mounted directory".to_owned(),
            ),
            MountOperation::CreateDir => VfsError::PermissionDenied(
                "Mount root already exists".to_owned(),
            ),
            MountOperation::MoveOrCopy => VfsError::PermissionDenied(
                "Moving or copying a mount root is not supported".to_owned(),
            ),
        },
    )
}

/// How a file gets from one endpoint to another.
#[derive(Debug, Clone, Copy, PartialEq, Eq, Structural)]
pub enum TransferRoute {
    /// By the user's own storage.
    Base,
    /// By the storage of the one mount that holds both.
    WithinMount(usize),
    /// Byte by byte from one storage to the other.
    Across,
    /// Not at all: one of them is a mount's root.
    Refused,
}

pub open spec fn transfer(src: Endpoint, dst: Endpoint) -> TransferRoute {
    if src.mount is None && dst.mount is None {
        TransferRoute::Base
    } else if src.is_mount_root || dst.is_mount_root {
        TransferRoute::Refused
    } else if src.mount == dst.mount {
        TransferRoute::WithinMount(src.mount->0)
    } else {
        TransferRoute::Across
    }
}

/// How a file gets from one endpoint to another.
pub fn transfer_route(src: &Endpoint, dst: &Endpoint) -> (res: TransferRoute)
    ensures
        res == transfer(*src, *dst),
{
    match (src.mount, dst.mount) {
        (None, None) => TransferRoute::Base,
        (a, b) => {
            if src.is_mount_root || dst.is_mount_root {
                return TransferRoute::Refused;
            }
            match (a, b) {
                (Some(i), Some(j)) => if i == j {
                    TransferRoute::WithinMount(i)
                } else {
                    TransferRoute::Across
                },
                _ => TransferRoute::Across,
            }
        },
    }
}

/// A colour mark on a mounted file: only taking it off is possible.
pub fn check_mounted_favorite(color: i32) -> (res: Result<(), VfsError>)
    ensures
        match res {
            Ok(()) => color == 0,
            Err(e) => color != 0 && e.is_internal(
                "Favorites for mounted remote files are not supported yet"@,
            ),
        },
{
    if color == 0 {
        Ok(())
    } else {
        Err(VfsError::internal("Favorites for mounted remote files are not supported yet"))
    }
}

/// Sum of the sizes of the files among `entries`, at most the largest number.
pub open spec fn files_total(entries: Seq<VfsFileInfo>) -> int
    decreases entries.len(),
{
    if entries.len() == 0 {
        0
    } else {
        let head = files_total(entries.drop_last());
        if entries.last().is_dir {
            head
        } else {
            clamp_i64(head + (entries.last().size as i64))
        }
    }
}

pub fn recursive_size(entries: &Vec<VfsFileInfo>) -> (res: i64)
    ensures
        res == files_total(entries@),
{
    let mut total: i64 = 0;
    let mut i: usize = 0;
    assert(entries@.take(0) =~= Seq::<VfsFileInfo>::empty());
    while i < entries.len()
        invariant
            i <= entries@.len(),
            total == files_total(entries@.take(i as int)),
        decreases entries@.len() - i,
    {
        assert(entries@.take(i + 1).drop_last() =~= entries@.take(i as int));
        if !entries[i].is_dir {
            total = crate::scoped::quota::sat_add(total, entries[i].size as i64);
        }
        i += 1;
    }
    assert(entries@.take(i as int) =~= entries@);
    total
}

// ---------------------------------------------------------------- laws
/// What lies below a directory goes on behind it with a slash, and nothing else does:
/// a name that only begins like the directory's is not below it.
pub proof fn below_is_behind_a_slash(dir: Seq<char>, path: Seq<char>, rest: Seq<char>)
    ensures
        below(dir.push('/') + rest, dir),
        within(dir.push('/') + rest, dir),
        within(dir, dir),
        below(path, dir) ==> path == dir.push('/') + path.skip(dir.len() as int + 1),
        within(path, dir) ==> path == dir || path == dir.push('/') + path.skip(dir.len() as int + 1),
{
    assert((dir.push('/') + rest).take(dir.len() as int) =~= dir);
    if below(path, dir) {
        assert(path.take(dir.len() as int) == dir);
        assert(path =~= dir.push('/') + path.skip(dir.len() as int + 1));
    }
}

/// A path that is put below another goes on behind it with one slash.
pub proof fn joining_puts_one_slash(base: Seq<char>, child: Seq<char>)
    requires
        base.len() > 0,
        child.len() > 0,
        child[0] != '/',
    ensures
        base == seq!['/'] ==> joined(base, child) == seq!['/'] + child,
        base.last() != '/' ==> joined(base, child) == base.push('/') + child,
        base.last() != '/' ==> joined(base, seq!['/'] + child) == base.push('/') + child,
        joined(base, Seq::empty()) == base,
{
    reveal_strlit("/");
    assert("/"@ =~= seq!['/']);
    let slashed = seq!['/'] + child;
    assert(slashed.drop_first() =~= child);
    assert(trim_start_char(child, '/') == child);
    assert(trim_start_char(slashed, '/') == child);
    assert(base.last() != '/' ==> base + "/"@ =~= base.push('/'));
}

/// A directory is compared without the slash at its end, and with one at its start.
pub proof fn directories_are_compared_without_a_slash_at_the_end(path: Seq<char>)
    requires
        path.len() > 0,
        path.last() != '/',
    ensures
        path[0] == '/' ==> dir_form(path) == path && dir_form(path.push('/')) == path,
        path[0] != '/' ==> dir_form(path) == seq!['/'] + path,
        dir_form(seq!['/']) == seq!['/'],
{
    reveal_strlit("/");
    assert("/"@ =~= seq!['/']);
    let p = path.push('/');
    assert(p.drop_last() =~= path);
    assert(p.last() == '/');
    assert(trim_end_char(path, '/') == path);
    assert(p.len() > 1);
    let r = seq!['/'] + path;
    assert(r.last() == path.last());
    assert(trim_end_char(r, '/') == r);
}

/// A mount holds its directory and what lies below it. The directory is the root of
/// the mount's storage, and what lies below it is found there under the rest of its
/// path; and back.
pub proof fn mounts_hold_what_lies_below_them(mount: MountPoint, rest: Seq<char>)
    requires
        mount.mount_dir@.len() > 0,
        mount.mount_dir@.last() != '/',
        rest.len() > 0,
        rest[0] != '/',
    ensures
        mount.covers(mount.mount_dir@),
        mount.remote_path(mount.mount_dir@) == seq!['/'],
        mount.local_path(seq!['/']) == mount.mount_dir@,
        mount.covers(mount.mount_dir@.push('/') + rest),
        mount.remote_path(mount.mount_dir@.push('/') + rest) == seq!['/'] + rest,
        mount.local_path(seq!['/'] + rest) == mount.mount_dir@.push('/') + rest,
        !mount.covers(mount.mount_dir@ + rest),
{
    reveal_strlit("/");
    assert("/"@ =~= seq!['/']);
    let dir = mount.mount_dir@;
    let path = dir.push('/') + rest;
    below_is_behind_a_slash(dir, path, rest);
    assert(path.skip(dir.len() as int) =~= seq!['/'] + rest);
    assert(path.len() != dir.len());
    let slashed = seq!['/'] + rest;
    assert(slashed.drop_first() =~= rest);
    assert(trim_start_char(rest, '/') == rest);
    assert(trim_start_char(slashed, '/') == rest);
    joining_puts_one_slash(dir, rest);
    assert(slashed.len() > 1);
    let beside = dir + rest;
    assert(beside.len() > dir.len());
    assert(beside[dir.len() as int] == rest[0]);
}

/// A file on a mount is told of as it is: only its path is another, and the name where
/// it is the mount itself.
pub proof fn mounted_files_are_told_of_as_they_are(
    mount: MountPoint,
    info: VfsFileInfo,
    res: VfsFileInfo,
)
    requires
        mount.is_mapped(info, res),
    ensures
        res.is_dir == info.is_dir,
        res.size == info.size,
        res.modified == info.modified,
        res.favorite_color == info.favorite_color,
        res.has_active_share == info.has_active_share,
        res.has_active_direct == info.has_active_direct,
        res.trashed_at == info.trashed_at,
        res.original_path == info.original_path,
        res.path@ != mount.mount_dir@ ==> res.name@ == info.name@,
        has_prefix(res.path@, trim_end_char(mount.mount_dir@, '/')),
{
    let d = mount.mount_dir@;
    let t = trim_end_char(d, '/');
    crate::text::trimming_cuts_the_char(d, '/');
    let p = res.path@;
    reveal_strlit("/");
    if d == "/"@ {
        assert(d.drop_last() =~= Seq::<char>::empty());
        assert(t =~= Seq::<char>::empty());
    }
    assert(p.take(t.len() as int) =~= t);
}

/// The entry of a mount itself is an empty directory of the mount's name, at the
/// mount's place.
pub proof fn a_mount_appears_as_a_directory(mount: MountPoint, info: VfsFileInfo)
    requires
        mount.is_root_info(info),
    ensures
        info.is_dir,
        info.size == 0,
        info.path@ == mount.mount_dir@,
        !info.name@.contains('/'),
        crate::text::has_suffix(mount.mount_dir@, info.name@),
        mount.last_sync_at is Some ==> info.modified == mount.last_sync_at,
        mount.last_sync_at is None ==> info.modified == Some(mount.updated_at),
{
    let d = mount.mount_dir@;
    crate::text::last_pos_bounds(d, '/');
    let at = crate::text::last_pos(d, '/') + 1;
    assert forall|i: int| 0 <= i < info.name@.len() implies info.name@[i] != '/' by {
        assert(info.name@[i] == d[at + i]);
    }
    assert(d.skip(d.len() - info.name@.len()) =~= info.name@);
}

/// A mount appears in the directory that its own directory lies in, and in no other.
pub proof fn mounts_appear_in_their_parent(mount: MountPoint, dir: Seq<char>, other: Seq<char>, name: Seq<char>)
    requires
        dir.len() > 1,
        dir[0] == '/',
        dir.last() != '/',
        dir.last() != '.',
        name.len() > 0,
        !name.contains('/'),
        name != seq!['.'],
        mount.mount_dir@ == dir + seq!['/'] + name,
    ensures
        MountTable::is_child_mount(mount, dir),
        MountTable::is_child_mount(mount, other) ==> dir_form(other) == dir,
{
    reveal_strlit("/");
    reveal_strlit(".");
    assert("."@ =~= seq!['.']);
    crate::pathname::parent_of_child(dir, name);
    directories_are_compared_without_a_slash_at_the_end(dir);
    assert(mount.mount_dir@.len() > 1);
}

/// Files go from one place to another by the storage that holds both; from one storage
/// to another byte by byte; and a mount itself is not moved or copied.
pub proof fn transfers_go_by_the_storage_that_holds_both(src: Endpoint, dst: Endpoint)
    ensures
        transfer(src, dst) == TransferRoute::Base <==> src.mount is None && dst.mount is None,
        transfer(src, dst) is WithinMount ==> src.mount is Some && src.mount == dst.mount && transfer(
            src,
            dst,
        )->WithinMount_0 == src.mount->0 && !src.is_mount_root && !dst.is_mount_root,
        transfer(src, dst) == TransferRoute::Across <==> src.mount != dst.mount
            && !src.is_mount_root && !dst.is_mount_root,
        transfer(src, dst) == TransferRoute::Refused <==> (src.mount is Some || dst.mount is Some)
            && (src.is_mount_root || dst.is_mount_root),
{
}

/// A path with two dots in a row, or with a control character, is not operated on; any
/// other is.
pub proof fn paths_with_two_dots_are_refused(path: Seq<char>)
    ensures
        is_mountable_path(path) <==> {
            &&& forall|i: int|
                0 <= i < path.len() ==> (#[trigger] path[i]) as int >= 0x20 && !(0x7f
                    <= path[i] as int <= 0x9f)
            &&& forall|i: int|
                0 <= i < path.len() - 1 ==> !(#[trigger] path[i] == '.' && path[i + 1] == '.')
        },
{
    reveal_strlit("..");
    reveal_strlit("/");
    let r = rooted(path);
    let p = replaced_char(r, '\\', '/');
    let off: int = r.len() - path.len();
    assert forall|i: int| 0 <= i < path.len() implies r[off + i] == path[i] by {}
    if has_infix(p, ".."@) {
        let j = choose|j: int|
            0 <= j && j + ".."@.len() <= p.len() && #[trigger] p.subrange(j, j + ".."@.len())
                == ".."@;
        assert(p.subrange(j, j + 2)[0] == '.' && p.subrange(j, j + 2)[1] == '.');
        assert(p[j] == '.' && p[j + 1] == '.');
        assert(r[j] == '.' && r[j + 1] == '.');
        assert(j >= off);
        assert(path[j - off] == '.' && path[j - off + 1] == '.');
    } else {
        assert forall|i: int| 0 <= i < path.len() - 1 implies !(#[trigger] path[i] == '.' && path[i
            + 1] == '.') by {
            if path[i] == '.' && path[i + 1] == '.' {
                assert(r[off + i] == '.' && r[off + (i + 1)] == '.');
                assert(p.subrange(off + i, off + i + ".."@.len()) =~= ".."@);
            }
        }
    }
    if has_control(path) {
        let i = choose|i: int| 0 <= i < path.len() && is_control_char(#[trigger] path[i]);
        assert(is_control_char(path[i]));
    } else {
        assert forall|i: int| 0 <= i < path.len() implies (#[trigger] path[i]) as int >= 0x20 && !(
        0x7f <= path[i] as int <= 0x9f) by {
            assert(!is_control_char(path[i]));
        }
    }
}

/// The size of a tree grows by the size of every file, and by nothing for a directory.
pub proof fn sizes_add_up(entries: Seq<VfsFileInfo>, e: VfsFileInfo)
    requires
        e.size <= i64::MAX,
        0 <= files_total(entries),
        files_total(entries) + e.size <= i64::MAX,
    ensures
        files_total(Seq::empty()) == 0,
        e.is_dir ==> files_total(entries.push(e)) == files_total(entries),
        !e.is_dir ==> files_total(entries.push(e)) == files_total(entries) + e.size,
{
    assert(entries.push(e).drop_last() =~= entries);
}

/// A path leads to the mount that holds it, to the mount's root exactly where it is the
/// mount's directory; and where no mount holds it, it stays as it is.
pub proof fn a_path_leads_to_the_mount_that_holds_it(
    table: MountTable,
    p: Seq<char>,
    e: Endpoint,
    j: int,
)
    requires
        table.is_endpoint(p, e),
        0 <= j < table@.len(),
    ensures
        e.mount is None ==> e.path@ == p && !within(dir_form(p), table@[j].mount_dir@),
        e.mount matches Some(i) ==> i < table@.len() && within(
            dir_form(p),
            table@[i as int].mount_dir@,
        ) && (j < i ==> !within(dir_form(p), table@[j].mount_dir@)) && (dir_form(p)
            == table@[i as int].mount_dir@ ==> e.is_mount_root && e.path@ == seq!['/']) && (
        e.is_mount_root ==> dir_form(p) == table@[i as int].mount_dir@ || dir_form(p)
            == table@[i as int].mount_dir@.push('/')) && (dir_form(p)
            != table@[i as int].mount_dir@ ==> table@[i as int].mount_dir@ + e.path@ == dir_form(
            p,
        )),
{
    reveal_strlit("/");
    assert("/"@ =~= seq!['/']);
    if let Some(i) = e.mount {
        let d = table@[i as int].mount_dir@;
        let q = dir_form(p);
        if q != d {
            assert(q.take(d.len() as int) == d);
            assert(q =~= d + q.skip(d.len() as int));
            if e.is_mount_root {
                assert(q =~= d.push('/'));
            }
        }
    }
}

/// A directory's listing with its mounts shows what it showed before and every mount that
/// lies in it, and nothing else.
pub proof fn listings_show_their_mounts(
    table: MountTable,
    path: Seq<char>,
    entries: Seq<VfsFileInfo>,
    res: Seq<VfsFileInfo>,
    e: VfsFileInfo,
    k: usize,
)
    requires
        table.is_merged_listing(path, entries, res),
    ensures
        entries.contains(e) ==> res.contains(e),
        k < table@.len() && MountTable::is_child_mount(table@[k as int], path) ==> exists|i: int|
            0 <= i < res.len() && table@[k as int].is_root_info(#[trigger] res[i]),
        res.contains(e) && !entries.contains(e) ==> exists|m: int|
            0 <= m < table@.len() && MountTable::is_child_mount(#[trigger] table@[m], path)
                && table@[m].is_root_info(e),
{
    broadcast use vstd::seq_lib::group_to_multiset_ensures;

    let (at, shown) = choose|at: Seq<usize>, shown: Seq<VfsFileInfo>|
        {
            &&& table.lists_children(path, at)
            &&& #[trigger] table.tells_of(at, shown)
            &&& res == sorted_entries(by_name(), entries + shown)
        };
    let all = entries + shown;
    crate::listing::sorting_orders_a_permutation(by_name(), all);
    assert forall|x: VfsFileInfo| all.contains(x) <==> res.contains(x) by {
        assert(all.contains(x) <==> all.to_multiset().count(x) > 0);
        assert(res.contains(x) <==> res.to_multiset().count(x) > 0);
    }
    if entries.contains(e) {
        let i = entries.index_of(e);
        assert(all[i] == e);
        assert(all.contains(e));
    }
    if k < table@.len() && MountTable::is_child_mount(table@[k as int], path) {
        assert(at.contains(k));
        let a = at.index_of(k);
        assert(at[a] == k);
        assert(table@[at[a] as int].is_root_info(shown[a]));
        assert(all[entries.len() + a] == shown[a]);
        assert(all.contains(shown[a]));
        assert(res.contains(shown[a]));
        let i = res.index_of(shown[a]);
        assert(res[i] == shown[a]);
    }
    if res.contains(e) && !entries.contains(e) {
        assert(all.contains(e));
        let i = all.index_of(e);
        assert(all[i] == e);
        if i < entries.len() {
            assert(entries[i] == e);
        }
        let a = i - entries.len();
        assert(shown[a] == e);
        let k2 = at[a];
        assert(at.contains(k2));
        assert(MountTable::is_child_mount(table@[k2 as int], path));
    }
}

} // verus!
