//! A storage pool: a primary storage, perhaps a backup, and the caches before them.
use crate::cache::read_cache::{ReadCacheEntry, ReadCacheManager};
use crate::cache::write_cache::{
    entry_path, normalize_entry_path, pending_name, pending_of, time_of_secs, WriteCacheManager,
};
use crate::error::VfsError;
use crate::mounted::route::below;
use crate::order::{is_stable_order, stable_order};
use crate::protected::payload::{clamped, slice_logical_range};
use crate::text::{
    after_last, concat2, ends_with_char, text_after_last, text_eq, trim_end_char,
    trim_end_matches,
};
use crate::types::{TimeNanos, VfsFileInfo, VfsMetadata};
use vstd::prelude::*;
use vstd::utf8::encode_utf8;

verus! {

// ---------------------------------------------------------------- entries
/// What is told of a stored file.
pub fn to_vfs_file_info(path: &str, is_dir: bool, size: u64, modified: Option<TimeNanos>) -> (res:
    VfsFileInfo)
    ensures
        res.is_plain(after_last(path@, '/'), path@, is_dir, size, modified),
{
    VfsFileInfo::plain(text_after_last(path, '/').to_owned(), path.to_owned(), is_dir, size, modified)
}

/// What is told of a listed entry, from the time and size that the listing gave or
/// that were asked for again.
pub fn listed_entry_info(raw_path: &str, is_dir: bool, size: u64, modified: Option<TimeNanos>) -> (res:
    VfsFileInfo)
    ensures
        res.is_plain(
            after_last(entry_path(raw_path@), '/'),
            entry_path(raw_path@),
            is_dir,
            size,
            modified,
        ),
{
    let path: String = normalize_entry_path(raw_path);
    to_vfs_file_info(path.as_str(), is_dir, size, modified)
}

/// A listed entry is asked for again where its time is missing.
pub fn should_refresh_entry_metadata(modified: Option<TimeNanos>) -> (res: bool)
    ensures
        res == (modified is None),
{
    modified.is_none()
}

/// The bytes of `data` from `start` up to `end`, as far as there are any.
pub fn slice_bytes(data: &[u8], start: u64, end: u64) -> (res: Vec<u8>)
    ensures
        res@ == clamped(data@, start, end),
{
    slice_logical_range(data, start, end)
}

/// A range cut to a file's size; never one that ends before it starts.
pub open spec fn read_range(start: u64, end: u64, size: u64) -> (u64, u64) {
    let from = if start < size {
        start
    } else {
        size
    };
    let to = if end < size {
        if end < from {
            from
        } else {
            end
        }
    } else {
        size
    };
    (from, to)
}

pub fn clamp_read_range(start: u64, end: u64, size: u64) -> (res: (u64, u64))
    ensures
        res == read_range(start, end, size),
        res.0 <= res.1 <= size,
{
    let s: u64 = if start < size {
        start
    } else {
        size
    };
    let e: u64 = if end < size {
        end
    } else {
        size
    };
    if e < s {
        (s, s)
    } else {
        (s, e)
    }
}

/// What a range read of the storage gives is what a range of the whole file is.
pub proof fn clamped_range_reads_the_slice(data: Seq<u8>, start: u64, end: u64, range: (u64, u64))
    requires
        data.len() <= u64::MAX,
        range.0 == if start < data.len() {
            start as int
        } else {
            data.len() as int
        },
        range.1 == if end < data.len() {
            if end < range.0 {
                range.0 as int
            } else {
                end as int
            }
        } else {
            data.len() as int
        },
    ensures
        data.subrange(range.0 as int, range.1 as int) == clamped(data, start, end),
{
}

/// Path of a directory as the storage wants it.
pub open spec fn dir_form(path: Seq<char>) -> Seq<char> {
    if path.len() > 0 && path.last() == '/' {
        path
    } else {
        path + "/"@
    }
}

pub fn dir_path(path: &str) -> (res: String)
    ensures
        res@ == dir_form(path@),
{
    if ends_with_char(path, '/') {
        path.to_owned()
    } else {
        concat2(path, "/")
    }
}

/// Where a stream is gathered before it takes its file's place.
pub fn stream_temp_path(path: &str) -> (res: String)
    ensures
        res@ == path@ + ".tmp"@,
{
    concat2(path, ".tmp")
}

/// What is told in detail of a file.
pub fn metadata_from_info(info: VfsFileInfo) -> (res: VfsMetadata)
    ensures
        res == (VfsMetadata {
            path: info.path,
            is_dir: info.is_dir,
            size: info.size,
            modified: info.modified,
            content_type: None,
            etag: None,
        }),
{
    VfsMetadata {
        path: info.path,
        is_dir: info.is_dir,
        size: info.size,
        modified: info.modified,
        content_type: None,
        etag: None,
    }
}

// ---------------------------------------------------------------- fallback
/// What follows the primary storage's answer.
#[derive(Debug, Clone, Copy, PartialEq, Eq, Structural)]
pub enum Fallback {
    /// The answer stands.
    Keep,
    /// The backup is asked.
    Backup,
    /// The error is returned.
    Fail,
}

/// An error of the primary storage is covered by the backup, where there is one.
pub open spec fn covered(ok: bool, has_backup: bool) -> Fallback {
    if ok {
        Fallback::Keep
    } else if has_backup {
        Fallback::Backup
    } else {
        Fallback::Fail
    }
}

pub fn after_primary(ok: bool, has_backup: bool) -> (res: Fallback)
    ensures
        res == covered(ok, has_backup),
{
    if ok {
        Fallback::Keep
    } else if has_backup {
        Fallback::Backup
    } else {
        Fallback::Fail
    }
}

/// Whether a file exists: the backup is also asked where the primary storage does
/// not have it. `found` is the primary storage's answer, where it gave one.
pub open spec fn looked_for(found: Option<bool>, has_backup: bool) -> Fallback {
    match found {
        Some(true) => Fallback::Keep,
        Some(false) => if has_backup {
            Fallback::Backup
        } else {
            Fallback::Keep
        },
        None => if has_backup {
            Fallback::Backup
        } else {
            Fallback::Fail
        },
    }
}

pub fn after_primary_exists(found: Option<bool>, has_backup: bool) -> (res: Fallback)
    ensures
        res == looked_for(found, has_backup),
{
    match found {
        Some(f) => if f || !has_backup {
            Fallback::Keep
        } else {
            Fallback::Backup
        },
        None => if has_backup {
            Fallback::Backup
        } else {
            Fallback::Fail
        },
    }
}

// ---------------------------------------------------------------- removing a tree
/// Path under which a directory's tree is listed, and removed at last.
pub open spec fn tree_root(path: Seq<char>) -> Seq<char> {
    let p = entry_path(path);
    if p == "/"@ {
        "/"@
    } else {
        trim_end_char(p, '/') + "/"@
    }
}

pub fn tree_list_path(path: &str) -> (res: String)
    ensures
        res@ == tree_root(path@),
{
    let normalized: String = normalize_entry_path(path);
    if text_eq(normalized.as_str(), "/") {
        "/".to_owned()
    } else {
        concat2(trim_end_matches(normalized.as_str(), '/'), "/")
    }
}

/// The entries of the tree without its root.
pub open spec fn below_root(path: Seq<char>, entries: Seq<VfsFileInfo>) -> Seq<VfsFileInfo> {
    entries.filter(|e: VfsFileInfo| entry_path(e.path@) != entry_path(path))
}

/// Path under which an entry is removed: a directory's ends with a slash.
pub open spec fn removal_path(e: VfsFileInfo) -> Seq<char> {
    if e.is_dir && !(e.path@.len() > 0 && e.path@.last() == '/') {
        e.path@ + "/"@
    } else {
        e.path@
    }
}

pub open spec fn path_sizes(entries: Seq<VfsFileInfo>) -> Seq<u64> {
    entries.map_values(|e: VfsFileInfo| encode_utf8(e.path@).len() as u64)
}

/// `removed` lists what has to be removed before the root: the entries in `order` of
/// their paths' lengths, the longest first.
pub open spec fn removes_in_order(
    entries: Seq<VfsFileInfo>,
    order: Seq<usize>,
    removed: Seq<String>,
) -> bool {
    &&& is_stable_order(path_sizes(entries), order)
    &&& removed.len() == order.len()
    &&& forall|i: int|
        0 <= i < removed.len() ==> (#[trigger] removed[i])@ == removal_path(
            entries[order[order.len() - 1 - i] as int],
        )
}

/// What has to be removed, in order, before the root of the tree at `path`; `entries`
/// is the tree's listing.
pub fn remove_tree_plan(path: &str, entries: &Vec<VfsFileInfo>) -> (res: Vec<String>)
    ensures
        exists|order: Seq<usize>| #[trigger]
            removes_in_order(below_root(path@, entries@), order, res@),
{
    let root: String = normalize_entry_path(path);
    let ghost keep = |e: VfsFileInfo| entry_path(e.path@) != entry_path(path@);
    let mut paths: Vec<String> = Vec::new();
    let mut sizes: Vec<u64> = Vec::new();
    let ghost mut kept: Seq<VfsFileInfo> = Seq::empty();
    let mut i: usize = 0;
    proof {
        reveal(Seq::filter);
        assert(entries@.take(0) =~= Seq::<VfsFileInfo>::empty());
    }
    while i < entries.len()
        invariant
            i <= entries@.len(),
            root@ == entry_path(path@),
            keep == (|e: VfsFileInfo| entry_path(e.path@) != entry_path(path@)),
            kept == entries@.take(i as int).filter(keep),
            paths@.len() == kept.len(),
            sizes@.len() == kept.len(),
            forall|k: int| 0 <= k < kept.len() ==> (#[trigger] paths@[k])@ == removal_path(kept[k]),
            forall|k: int|
                0 <= k < kept.len() ==> #[trigger] sizes@[k] == encode_utf8(
                    kept[k].path@,
                ).len() as u64,
        decreases entries@.len() - i,
    {
        proof {
            reveal(Seq::filter);
            assert(entries@.take(i + 1).drop_last() =~= entries@.take(i as int));
        }
        let e: &VfsFileInfo = &entries[i];
        let own: String = normalize_entry_path(e.path.as_str());
        if !text_eq(own.as_str(), root.as_str()) {
            let size: usize = e.path.as_str().as_bytes().len();
            let target: String = if e.is_dir && !ends_with_char(e.path.as_str(), '/') {
                concat2(e.path.as_str(), "/")
            } else {
                e.path.as_str().to_owned()
            };
            paths.push(target);
            sizes.push(size as u64);
            proof {
                kept = kept.push(*e);
            }
        }
        i += 1;
    }
    assert(entries@.take(i as int) =~= entries@);
    assert(sizes@ =~= path_sizes(kept));
    let order: Vec<usize> = stable_order(&sizes);
    let mut out: Vec<String> = Vec::new();
    let n: usize = order.len();
    let mut j: usize = 0;
    while j < n
        invariant
            j <= n,
            n == order@.len(),
            n == kept.len(),
            paths@.len() == n,
            forall|k: int| 0 <= k < n ==> (#[trigger] order@[k]) < n,
            forall|k: int| 0 <= k < n ==> (#[trigger] paths@[k])@ == removal_path(kept[k]),
            out@.len() == j,
            forall|k: int|
                0 <= k < j ==> (#[trigger] out@[k])@ == removal_path(
                    kept[order@[order@.len() - 1 - k] as int],
                ),
        decreases n - j,
    {
        let at: usize = order[n - 1 - j];
        out.push(paths[at].as_str().to_owned());
        j += 1;
    }
    assert(removes_in_order(below_root(path@, entries@), order@, out@));
    out
}

proof fn utf8_len_adds(a: Seq<char>, b: Seq<char>)
    ensures
        encode_utf8(a + b).len() == encode_utf8(a).len() + encode_utf8(b).len(),
    decreases a.len(),
{
    if a.len() == 0 {
        assert(a + b =~= b);
    } else {
        assert((a + b).drop_first() =~= a.drop_first() + b);
        utf8_len_adds(a.drop_first(), b);
    }
}

/// Nothing is removed before what lies below it.
pub proof fn children_are_removed_first(
    entries: Seq<VfsFileInfo>,
    order: Seq<usize>,
    removed: Seq<String>,
    i: int,
    j: int,
)
    requires
        removes_in_order(entries, order, removed),
        forall|k: int|
            0 <= k < entries.len() ==> encode_utf8((#[trigger] entries[k]).path@).len() <= u64::MAX,
        0 <= i < j < removed.len(),
    ensures
        !below(
            entries[order[order.len() - 1 - j] as int].path@,
            entries[order[order.len() - 1 - i] as int].path@,
        ),
{
    let a = order[order.len() - 1 - i] as int;
    let b = order[order.len() - 1 - j] as int;
    let pa = entries[a].path@;
    let pb = entries[b].path@;
    assert(path_sizes(entries)[b] <= path_sizes(entries)[a]);
    if below(pb, pa) {
        let tail = pb.skip(pa.len() as int);
        assert(pb =~= pa + tail) by {
            assert(pb.take(pa.len() as int) == pa);
        }
        utf8_len_adds(pa, tail);
        assert(tail.len() > 0);
        assert(encode_utf8(tail).len() > 0);
    }
}

// ---------------------------------------------------------------- the pool
/// Where the bytes of a file are read from.
#[derive(Debug, Clone, Copy, PartialEq, Eq, Structural)]
pub enum ReadSource {
    /// A write that has not reached the storage.
    Pending,
    /// The read cache.
    Cached,
    Storage,
}

/// Where to look for a file after it was `missed` somewhere, or to begin with: a
/// pending write is the newest, then comes the read cache, then the storage.
pub open spec fn next_source(
    missed: Option<ReadSource>,
    has_write_cache: bool,
    has_read_cache: bool,
) -> ReadSource {
    if missed is None && has_write_cache {
        ReadSource::Pending
    } else if (missed is None || missed == Some(ReadSource::Pending)) && has_read_cache {
        ReadSource::Cached
    } else {
        ReadSource::Storage
    }
}

pub fn source_after(missed: Option<ReadSource>, has_write_cache: bool, has_read_cache: bool) -> (res:
    ReadSource)
    ensures
        res == next_source(missed, has_write_cache, has_read_cache),
{
    match missed {
        None => if has_write_cache {
            ReadSource::Pending
        } else if has_read_cache {
            ReadSource::Cached
        } else {
            ReadSource::Storage
        },
        Some(ReadSource::Pending) => if has_read_cache {
            ReadSource::Cached
        } else {
            ReadSource::Storage
        },
        _ => ReadSource::Storage,
    }
}

/// The caches of a pool, and whether it has a backup.
pub struct VfsPool<R, W> {
    pub name: String,
    pub has_backup: bool,
    pub read_cache: Option<ReadCacheManager<R>>,
    pub write_cache: Option<WriteCacheManager<W>>,
}

impl<R, W> VfsPool<R, W> {
    pub open spec fn wf(self) -> bool {
        &&& self.read_cache matches Some(c) ==> c.wf()
        &&& self.write_cache matches Some(c) ==> c.wf()
    }

    /// A write to the path has not reached the storage.
    pub open spec fn is_pending(self, path: Seq<char>) -> bool {
        self.write_cache is Some && self.write_cache->0@.contains_key(path)
    }

    /// The read cache can answer for the path at the time `now`.
    pub open spec fn is_cached(self, path: Seq<char>, now: i64) -> bool {
        &&& self.read_cache is Some
        &&& self.read_cache->0.on()
        &&& self.read_cache->0.rules().admits(path)
        &&& self.read_cache->0@.contains_key(path)
        &&& self.read_cache->0@[path].expires_at > now
    }

    /// Where the path is read from at the time `now`.
    pub open spec fn source_of(self, path: Seq<char>, now: i64) -> ReadSource {
        if self.is_pending(path) {
            ReadSource::Pending
        } else if self.is_cached(path, now) {
            ReadSource::Cached
        } else {
            ReadSource::Storage
        }
    }

    pub fn new(
        name: String,
        has_backup: bool,
        read_cache: Option<ReadCacheManager<R>>,
        write_cache: Option<WriteCacheManager<W>>,
    ) -> (res: VfsPool<R, W>)
        requires
            read_cache matches Some(c) ==> c.wf(),
            write_cache matches Some(c) ==> c.wf(),
        ensures
            res.wf(),
            res.name == name,
            res.has_backup == has_backup,
            res.read_cache == read_cache,
            res.write_cache == write_cache,
    {
        VfsPool { name, has_backup, read_cache, write_cache }
    }

    pub fn is_write_cache_enabled(&self) -> (res: bool)
        ensures
            res == (self.write_cache is Some && self.write_cache->0.on()),
    {
        match &self.write_cache {
            Some(c) => c.is_enabled(),
            None => false,
        }
    }

    pub fn write_cache_max_file_size(&self) -> (res: Option<u64>)
        ensures
            res == match self.write_cache {
                Some(c) => Some(c.max_size()),
                None => None,
            },
    {
        match &self.write_cache {
            Some(c) => Some(c.max_file_size_bytes()),
            None => None,
        }
    }

    /// What is told of a file whose write is pending.
    pub fn pending_stat(&self, physical_path: &str) -> (res: Option<VfsFileInfo>)
        requires
            self.wf(),
        ensures
            match res {
                Some(info) => self.is_pending(physical_path@) && info.is_plain(
                    pending_name(physical_path@),
                    physical_path@,
                    false,
                    self.write_cache->0@[physical_path@].size,
                    time_of_secs(self.write_cache->0@[physical_path@].modified_at),
                ),
                None => !self.is_pending(physical_path@),
            },
    {
        match &self.write_cache {
            Some(c) => c.pending_stat(physical_path),
            None => None,
        }
    }

    pub fn is_dirty_path(&self, physical_path: &str) -> (res: bool)
        requires
            self.wf(),
        ensures
            res == (self.write_cache is Some && self.write_cache->0.dirty().contains(
                physical_path@,
            )),
    {
        match &self.write_cache {
            Some(c) => c.is_dirty_path(physical_path),
            None => false,
        }
    }

    pub fn is_dirty_dir(&self, parent_physical_path: &str) -> (res: bool)
        requires
            self.wf(),
        ensures
            res == (self.write_cache is Some && self.write_cache->0.dirty_directories().contains(
                parent_physical_path@,
            )),
    {
        match &self.write_cache {
            Some(c) => c.is_dirty_dir(parent_physical_path),
            None => false,
        }
    }

    /// Change of a user's bytes in use that has not been recorded yet.
    pub fn pending_quota_delta(&self, user_id: &str) -> (res: i64)
        requires
            self.wf(),
        ensures
            res == match self.write_cache {
                Some(c) => pending_of(c.quota_tasks(), user_id@),
                None => 0,
            },
    {
        match &self.write_cache {
            Some(c) => c.pending_quota_delta(user_id),
            None => 0,
        }
    }

    /// Where the file is read from at the time `now`: a pending write is the newest,
    /// then comes the read cache, then the storage. A hit marks the cached entry as
    /// used; an expired entry is taken out of the cache and handed back.
    pub fn read_source(&mut self, path: &str, now: i64) -> (res: (ReadSource, Option<R>))
        requires
            old(self).wf(),
        ensures
            final(self).wf(),
            final(self).write_cache == old(self).write_cache,
            final(self).name == old(self).name,
            final(self).has_backup == old(self).has_backup,
            res.0 == old(self).source_of(path@, now),
            res.0 == ReadSource::Pending ==> final(self).read_cache == old(self).read_cache
                && res.1 is None,
            res.0 == ReadSource::Cached ==> {
                &&& res.1 is None
                &&& final(self).read_cache is Some
                &&& final(self).read_cache->0@ == old(self).read_cache->0@.insert(
                    path@,
                    (ReadCacheEntry {
                        last_accessed_at: now,
                        ..old(self).read_cache->0@[path@]
                    }),
                )
            },
            res.0 == ReadSource::Storage ==> match old(self).read_cache {
                Some(c) => {
                    &&& final(self).read_cache is Some
                    &&& if c.on() && c.rules().admits(path@) && c@.contains_key(path@) {
                        &&& final(self).read_cache->0@ == c@.remove(path@)
                        &&& res.1 == Some(c@[path@].payload)
                    } else {
                        final(self).read_cache->0@ == c@ && res.1 is None
                    }
                },
                None => final(self).read_cache is None && res.1 is None,
            },
            old(self).read_cache matches Some(c) ==> final(self).read_cache is Some
                && final(self).read_cache->0.same_setup(c) && final(self).read_cache->0.excess()
                == c.excess(),
    {
        let pending: bool = match &self.write_cache {
            Some(c) => c.pending_read(path).is_some(),
            None => false,
        };
        if pending {
            return (ReadSource::Pending, None);
        }
        match &mut self.read_cache {
            Some(c) => {
                let (hit, gone) = c.get(path, now);
                if hit {
                    (ReadSource::Cached, None)
                } else {
                    (ReadSource::Storage, gone)
                }
            },
            None => (ReadSource::Storage, None),
        }
    }

    /// Forget what the read cache holds of the path; what it held.
    pub fn invalidate_read_cache(&mut self, path: &str) -> (res: Option<R>)
        requires
            old(self).wf(),
        ensures
            final(self).wf(),
            final(self).write_cache == old(self).write_cache,
            final(self).name == old(self).name,
            final(self).has_backup == old(self).has_backup,
            match old(self).read_cache {
                Some(c) => final(self).read_cache is Some && final(self).read_cache->0@
                    == c@.remove(path@) && final(self).read_cache->0.same_setup(c)
                    && final(self).read_cache->0.excess() == c.excess() && match res {
                    Some(p) => c@.contains_key(path@) && p == c@[path@].payload,
                    None => !c@.contains_key(path@),
                },
                None => final(self).read_cache is None && res is None,
            },
    {
        match &mut self.read_cache {
            Some(c) => c.remove(path),
            None => None,
        }
    }

    /// What was invalidated is not read from the read cache.
    pub proof fn invalidated_is_not_cached(before: Self, after: Self, path: Seq<char>, now: i64)
        requires
            before.read_cache matches Some(c) ==> after.read_cache is Some
                && after.read_cache->0@ == c@.remove(path),
            before.read_cache is None ==> after.read_cache is None,
        ensures
            !after.is_cached(path, now),
    {
    }

    /// The pool does not write at an offset.
    pub fn write_at_error() -> (res: VfsError)
        ensures
            res.is_internal("Write at not supported in Pool"@),
    {
        VfsError::internal("Write at not supported in Pool")
    }
}

// ---------------------------------------------------------------- laws
/// A byte lies in the range that is read exactly where it lies both in the file and in
/// the range that was asked for.
pub proof fn what_is_read_was_asked_for(start: u64, end: u64, size: u64, p: u64)
    ensures
        ({
            let (from, to) = read_range(start, end, size);
            &&& from <= to <= size
            &&& from <= p < to <==> start <= p < end && p < size
        }),
{
}

/// The path of a directory ends with a slash, which is put there only where there is
/// none.
pub proof fn directories_end_with_a_slash(path: Seq<char>)
    ensures
        dir_form(path).last() == '/',
        dir_form(path) == path || dir_form(path) == path + seq!['/'],
        dir_form(dir_form(path)) == dir_form(path),
        path.len() > 0 && path.last() == '/' ==> dir_form(path) == path,
{
    reveal_strlit("/");
    assert("/"@ =~= seq!['/']);
}

/// The backup is asked exactly where the primary storage failed, or does not have what
/// is looked for, and there is one; an error is reported only where neither helps.
pub proof fn the_backup_covers_the_primary(ok: bool, found: Option<bool>, has_backup: bool)
    ensures
        covered(ok, has_backup) == Fallback::Backup <==> !ok && has_backup,
        covered(ok, has_backup) == Fallback::Keep <==> ok,
        looked_for(found, has_backup) == Fallback::Backup <==> found != Some(true) && has_backup,
        looked_for(found, has_backup) == Fallback::Fail <==> found is None && !has_backup,
{
}

/// Pending writes are looked at first, then the read cache and then the storage, each
/// once and the caches only where they are there.
pub proof fn the_newest_is_looked_at_first(has_write_cache: bool, has_read_cache: bool)
    ensures
        next_source(None, true, has_read_cache) == ReadSource::Pending,
        next_source(None, false, has_read_cache) == next_source(
            Some(ReadSource::Pending),
            has_write_cache,
            has_read_cache,
        ),
        next_source(Some(ReadSource::Pending), has_write_cache, true) == ReadSource::Cached,
        next_source(Some(ReadSource::Pending), has_write_cache, false) == ReadSource::Storage,
        next_source(Some(ReadSource::Cached), has_write_cache, has_read_cache)
            == ReadSource::Storage,
{
}

/// A file is not read from the storage, nor from the read cache, while a write to it is
/// pending, and what has expired is not read from the read cache.
pub proof fn what_is_newer_is_read<R, W>(pool: VfsPool<R, W>, path: Seq<char>, now: i64)
    ensures
        pool.write_cache is Some && pool.write_cache->0@.contains_key(path) ==> pool.source_of(
            path,
            now,
        ) == ReadSource::Pending,
        pool.source_of(path, now) == ReadSource::Pending ==> pool.write_cache is Some
            && pool.write_cache->0@.contains_key(path),
        pool.source_of(path, now) == ReadSource::Cached ==> pool.read_cache is Some
            && pool.read_cache->0@.contains_key(path) && now < pool.read_cache->0@[path].expires_at,
        pool.source_of(path, now) == ReadSource::Storage && pool.read_cache is Some
            && pool.read_cache->0.on() && pool.read_cache->0.rules().admits(path)
            && pool.read_cache->0@.contains_key(path) ==> pool.read_cache->0@[path].expires_at
            <= now,
{
}

/// The tree of a directory is listed under the directory's path with one slash behind
/// it, whether or not it was named with one.
pub proof fn trees_are_listed_behind_a_slash(path: Seq<char>)
    requires
        path.len() > 0,
        path.last() != '/',
    ensures
        tree_root(path) == path + seq!['/'],
        tree_root(path + seq!['/']) == path + seq!['/'],
        tree_root(seq!['/']) == seq!['/'],
{
    reveal_strlit("/");
    assert("/"@ =~= seq!['/']);
    let q = path + seq!['/'];
    assert(q.len() > 1);
    assert(q.last() == '/');
    assert(q.drop_last() =~= path);
    assert(path != "/"@);
    assert(trim_end_char(path, '/') == path);
}

/// A tree is removed whole, but for its root, and nothing else is: what is removed are
/// the paths of the entries, with a slash behind those of directories.
pub proof fn whole_trees_are_removed(
    path: Seq<char>,
    entries: Seq<VfsFileInfo>,
    order: Seq<usize>,
    removed: Seq<String>,
    k: int,
    i: int,
)
    requires
        entries.len() <= usize::MAX,
        removes_in_order(below_root(path, entries), order, removed),
        0 <= k < entries.len(),
        0 <= i < removed.len(),
    ensures
        entry_path(entries[k].path@) != entry_path(path) ==> exists|j: int|
            0 <= j < removed.len() && (#[trigger] removed[j])@ == entries[k].path@ + if entries[k].is_dir
                && !(entries[k].path@.len() > 0 && entries[k].path@.last() == '/') {
                seq!['/']
            } else {
                Seq::<char>::empty()
            },
        exists|m: int|
            0 <= m < entries.len() && entry_path((#[trigger] entries[m]).path@) != entry_path(path)
                && entry_path(removed[i]@) == entry_path(
                if entries[m].is_dir {
                    dir_form(entries[m].path@)
                } else {
                    entries[m].path@
                },
            ),
{
    reveal_strlit("/");
    assert("/"@ =~= seq!['/']);
    let keep = |e: VfsFileInfo| entry_path(e.path@) != entry_path(path);
    let kept = below_root(path, entries);
    entries.lemma_filter_len(keep);
    if entry_path(entries[k].path@) != entry_path(path) {
        let e = entries[k];
        entries.lemma_filter_contains(keep, k);
        assert(kept.contains(e));
        let at = kept.index_of(e);
        assert(kept[at] == e && 0 <= at < kept.len());
        assert(path_sizes(kept).len() == kept.len());
        assert(exists|n: int| #![auto] 0 <= n < order.len() && order[n] as int == at) by {
            assert(order.contains(at as usize));
        }
        let n = choose|n: int| #![auto] 0 <= n < order.len() && order[n] as int == at;
        let j = order.len() - 1 - n;
        assert(removed[j]@ == removal_path(kept[order[order.len() - 1 - j] as int]));
        assert(e.path@ + Seq::<char>::empty() =~= e.path@);
    }
    let at = order[order.len() - 1 - i] as int;
    assert(at < kept.len());
    assert(removed[i]@ == removal_path(kept[at]));
    entries.lemma_filter_pred(keep, at);
    entries.lemma_filter_contains_rev(keep, kept[at]);
    let m = entries.index_of(kept[at]);
    assert(entries[m] == kept[at]);
}

} // verus!
