//! What a directory of a user's scope lists.
use crate::listing::{by_name, goes_before, sort_by_name, sorted_entries};
use crate::scoped::path::{
    hidden_storage_path, is_hidden_storage_path, is_thumbnail_cache_path, logical_form,
    logical_path_of, temp_logical_form, thumbnail_cache_path, LOGICAL_TEMP_PREFIX,
};
use crate::scoped::quota::{clamp_i64, sat_sub};
use crate::text::{
    before_last, concat2, last_pos, rsplit_once, text_before, text_eq, trim_end_char, trim_end_matches,
};
use crate::types::{clone_text, TimeNanos, VfsFileInfo};
use vstd::prelude::*;

verus! {

// ---------------------------------------------------------------- translation
/// `res` is `info` with another path.
pub open spec fn with_path(info: VfsFileInfo, res: VfsFileInfo, path: Seq<char>) -> bool {
    &&& res.path@ == path
    &&& res.name == info.name
    &&& res.is_dir == info.is_dir
    &&& res.size == info.size
    &&& res.modified == info.modified
    &&& res.favorite_color == info.favorite_color
    &&& res.has_active_share == info.has_active_share
    &&& res.has_active_direct == info.has_active_direct
    &&& res.trashed_at == info.trashed_at
    &&& res.original_path == info.original_path
}

/// What is told of a stored file, with its logical path.
pub fn translate_file_info(user_id: &str, info: VfsFileInfo, is_temp: bool) -> (res: VfsFileInfo)
    ensures
        with_path(
            info,
            res,
            if is_temp {
                temp_logical_form(info.path@)
            } else {
                logical_form(user_id@, info.path@)
            },
        ),
{
    let path: String = if is_temp {
        concat2(LOGICAL_TEMP_PREFIX, info.path.as_str())
    } else {
        logical_path_of(user_id, info.path.as_str())
    };
    VfsFileInfo {
        name: info.name,
        path,
        is_dir: info.is_dir,
        size: info.size,
        modified: info.modified,
        favorite_color: info.favorite_color,
        has_active_share: info.has_active_share,
        has_active_direct: info.has_active_direct,
        trashed_at: info.trashed_at,
        original_path: info.original_path,
    }
}

/// What is told of stored files, with their logical paths.
pub fn translate_all(user_id: &str, entries: &Vec<VfsFileInfo>) -> (res: Vec<VfsFileInfo>)
    ensures
        res@.len() == entries@.len(),
        forall|i: int|
            0 <= i < res@.len() ==> with_path(
                entries@[i],
                #[trigger] res@[i],
                logical_form(user_id@, entries@[i].path@),
            ),
{
    let mut out: Vec<VfsFileInfo> = Vec::new();
    let mut i: usize = 0;
    while i < entries.len()
        invariant
            i <= entries@.len(),
            out@.len() == i,
            forall|k: int|
                0 <= k < i ==> with_path(
                    entries@[k],
                    #[trigger] out@[k],
                    logical_form(user_id@, entries@[k].path@),
                ),
        decreases entries@.len() - i,
    {
        out.push(translate_file_info(user_id, entries[i].clone(), false));
        i += 1;
    }
    out
}

/// A row of the index.
#[derive(Debug)]
pub struct IndexRow {
    pub name: String,
    pub path: String,
    pub is_dir: bool,
    pub size: i64,
    pub file_updated_at: Option<TimeNanos>,
    pub favorite_color: i32,
    pub file_trashed_at: Option<TimeNanos>,
    pub original_path: Option<String>,
    pub backend_key: Option<String>,
}

/// What is told of a file by its index row. A negative size counts as zero.
pub fn file_info_from_index(row: &IndexRow) -> (res: VfsFileInfo)
    ensures
        res.name@ == row.name@,
        res.path@ == row.path@,
        res.is_dir == row.is_dir,
        res.size == if row.size < 0 {
            0
        } else {
            row.size as int
        },
        res.modified == row.file_updated_at,
        res.favorite_color == row.favorite_color,
        res.has_active_share is None,
        res.has_active_direct is None,
        res.trashed_at == row.file_trashed_at,
        res.original_path == row.original_path,
{
    let size: u64 = if row.size < 0 {
        0
    } else {
        row.size as u64
    };
    VfsFileInfo {
        name: row.name.clone(),
        path: row.path.clone(),
        is_dir: row.is_dir,
        size,
        modified: row.file_updated_at,
        favorite_color: row.favorite_color,
        has_active_share: None,
        has_active_direct: None,
        trashed_at: row.file_trashed_at,
        original_path: clone_text(&row.original_path),
    }
}

/// What is told of a file by its index row, its size taken over bit by bit.
pub fn file_info_from_row(row: &IndexRow) -> (res: VfsFileInfo)
    ensures
        res.name@ == row.name@,
        res.path@ == row.path@,
        res.is_dir == row.is_dir,
        res.size == row.size as u64,
        res.modified == row.file_updated_at,
        res.favorite_color == row.favorite_color,
        res.has_active_share is None,
        res.has_active_direct is None,
        res.trashed_at == row.file_trashed_at,
        res.original_path == row.original_path,
{
    VfsFileInfo {
        name: row.name.clone(),
        path: row.path.clone(),
        is_dir: row.is_dir,
        size: #[verifier::truncate]
        (row.size as u64),
        modified: row.file_updated_at,
        favorite_color: row.favorite_color,
        has_active_share: None,
        has_active_direct: None,
        trashed_at: row.file_trashed_at,
        original_path: clone_text(&row.original_path),
    }
}

// ---------------------------------------------------------------- children
/// A directory's path as children are compared with it.
pub open spec fn dir_path_form(normalized: Seq<char>) -> Seq<char> {
    if normalized == "/"@ {
        "/"@
    } else {
        trim_end_char(normalized, '/')
    }
}

/// Directory of a path: the root for a path with one slash at its start.
pub open spec fn directory_of(path: Seq<char>) -> Seq<char> {
    if before_last(path, '/').len() == 0 {
        "/"@
    } else {
        before_last(path, '/')
    }
}

/// `path` lies directly in the directory `dir`.
pub open spec fn is_direct_child(dir: Seq<char>, path: Seq<char>) -> bool {
    &&& path != dir
    &&& dir == "/"@ || path != dir + "/"@
    &&& last_pos(path, '/') >= 0
    &&& directory_of(path) == dir
}

/// The entry is listed in the directory. Protected blobs are hidden where asked for,
/// thumbnails always.
pub open spec fn is_listed(normalized: Seq<char>, hide_blobs: bool, e: VfsFileInfo) -> bool {
    &&& if hide_blobs {
        !hidden_storage_path(e.path@)
    } else {
        !thumbnail_cache_path(e.path@)
    }
    &&& is_direct_child(dir_path_form(normalized), e.path@)
}

fn listed(dir: &str, hide_blobs: bool, e: &VfsFileInfo, Ghost(normalized): Ghost<Seq<char>>) -> (res:
    bool)
    requires
        dir@ == dir_path_form(normalized),
    ensures
        res == is_listed(normalized, hide_blobs, *e),
{
    let path = e.path.as_str();
    let hidden: bool = if hide_blobs {
        is_hidden_storage_path(path)
    } else {
        is_thumbnail_cache_path(path)
    };
    if hidden || text_eq(path, dir) {
        return false;
    }
    let with_slash: String = concat2(dir, "/");
    if !text_eq(dir, "/") && text_eq(path, with_slash.as_str()) {
        return false;
    }
    match rsplit_once(path, '/') {
        Some((p, _)) => if p.is_empty() {
            text_eq("/", dir)
        } else {
            text_eq(p, dir)
        },
        None => false,
    }
}

/// The entries that a directory lists, in order.
pub fn select_children(normalized: &str, hide_blobs: bool, entries: &Vec<VfsFileInfo>) -> (res: Vec<
    VfsFileInfo,
>)
    ensures
        res@ == entries@.filter(|e: VfsFileInfo| is_listed(normalized@, hide_blobs, e)),
{
    let dir: String = if text_eq(normalized, "/") {
        "/".to_owned()
    } else {
        trim_end_matches(normalized, '/').to_owned()
    };
    let ghost keep = |e: VfsFileInfo| is_listed(normalized@, hide_blobs, e);
    let mut out: Vec<VfsFileInfo> = Vec::new();
    let mut i: usize = 0;
    proof {
        reveal(Seq::filter);
        assert(entries@.take(0) =~= Seq::<VfsFileInfo>::empty());
    }
    while i < entries.len()
        invariant
            i <= entries@.len(),
            dir@ == dir_path_form(normalized@),
            keep == (|e: VfsFileInfo| is_listed(normalized@, hide_blobs, e)),
            out@ == entries@.take(i as int).filter(keep),
        decreases entries@.len() - i,
    {
        proof {
            reveal(Seq::filter);
            assert(entries@.take(i + 1).drop_last() =~= entries@.take(i as int));
        }
        if listed(dir.as_str(), hide_blobs, &entries[i], Ghost(normalized@)) {
            out.push(entries[i].clone());
        }
        i += 1;
    }
    assert(entries@.take(i as int) =~= entries@);
    out
}

// ---------------------------------------------------------------- pending writes
/// Position of the entry with the path, or -1.
pub open spec fn at_path(s: Seq<VfsFileInfo>, path: Seq<char>) -> int
    decreases s.len(),
{
    if s.len() == 0 {
        -1
    } else if s.last().path@ == path {
        s.len() - 1
    } else {
        at_path(s.drop_last(), path)
    }
}

/// `s` with `e` in place of the entry with the same path, or at the end.
pub open spec fn put_entry(s: Seq<VfsFileInfo>, e: VfsFileInfo) -> Seq<VfsFileInfo> {
    if at_path(s, e.path@) < 0 {
        s.push(e)
    } else {
        s.update(at_path(s, e.path@), e)
    }
}

pub open spec fn put_entries(s: Seq<VfsFileInfo>, more: Seq<VfsFileInfo>) -> Seq<VfsFileInfo>
    decreases more.len(),
{
    if more.len() == 0 {
        s
    } else {
        put_entry(put_entries(s, more.drop_last()), more.last())
    }
}

proof fn at_path_bounds(s: Seq<VfsFileInfo>, path: Seq<char>)
    ensures
        -1 <= at_path(s, path) < s.len(),
        at_path(s, path) >= 0 ==> s[at_path(s, path)].path@ == path,
        at_path(s, path) < 0 ==> forall|i: int|
            0 <= i < s.len() ==> (#[trigger] s[i]).path@ != path,
        forall|i: int| at_path(s, path) < i < s.len() ==> (#[trigger] s[i]).path@ != path,
    decreases s.len(),
{
    if s.len() > 0 && s.last().path@ != path {
        at_path_bounds(s.drop_last(), path);
        assert forall|i: int| at_path(s, path) < i < s.len() implies (
        #[trigger] s[i]).path@ != path by {
            if i < s.len() - 1 {
                assert(s.drop_last()[i] == s[i]);
            }
        }
    }
}

fn find_path(s: &Vec<VfsFileInfo>, path: &str) -> (res: Option<usize>)
    ensures
        match res {
            Some(i) => at_path(s@, path@) == i,
            None => at_path(s@, path@) == -1,
        },
{
    let mut i: usize = s.len();
    assert(s@.take(i as int) =~= s@);
    while i > 0
        invariant
            i <= s@.len(),
            at_path(s@, path@) == at_path(s@.take(i as int), path@),
        decreases i,
    {
        if text_eq(s[i - 1].path.as_str(), path) {
            return Some(i - 1);
        }
        assert(s@.take(i as int).drop_last() =~= s@.take(i - 1));
        i -= 1;
    }
    None
}

fn put_all(into: Vec<VfsFileInfo>, more: &Vec<VfsFileInfo>) -> (res: Vec<VfsFileInfo>)
    ensures
        res@ == put_entries(into@, more@),
{
    let ghost start = into@;
    let mut out: Vec<VfsFileInfo> = into;
    let mut i: usize = 0;
    assert(more@.take(0) =~= Seq::<VfsFileInfo>::empty());
    while i < more.len()
        invariant
            i <= more@.len(),
            out@ == put_entries(start, more@.take(i as int)),
        decreases more@.len() - i,
    {
        assert(more@.take(i + 1).drop_last() =~= more@.take(i as int));
        proof {
            at_path_bounds(out@, more@[i as int].path@);
        }
        match find_path(&out, more[i].path.as_str()) {
            Some(at) => out.set(at, more[i].clone()),
            None => out.push(more[i].clone()),
        }
        i += 1;
    }
    assert(more@.take(i as int) =~= more@);
    out
}

/// A listing with the pending writes of its directory: where there are any, each
/// path occurs once, a pending write taking the place of what is stored, and the
/// entries come by name.
pub open spec fn merged(results: Seq<VfsFileInfo>, pending: Seq<VfsFileInfo>) -> Seq<VfsFileInfo> {
    if pending.len() == 0 {
        results
    } else {
        sorted_entries(
            by_name(),
            put_entries(put_entries(Seq::empty(), results), pending),
        )
    }
}

pub fn merge_pending(results: Vec<VfsFileInfo>, pending: &Vec<VfsFileInfo>) -> (res: Vec<
    VfsFileInfo,
>)
    ensures
        res@ == merged(results@, pending@),
{
    if pending.len() == 0 {
        return results;
    }
    let base: Vec<VfsFileInfo> = put_all(Vec::new(), &results);
    let mut all: Vec<VfsFileInfo> = put_all(base, pending);
    sort_by_name(&mut all);
    all
}

pub open spec fn distinct_paths(s: Seq<VfsFileInfo>) -> bool {
    forall|i: int, j: int|
        0 <= i < j < s.len() ==> (#[trigger] s[i]).path@ != (#[trigger] s[j]).path@
}

proof fn put_entries_facts(s: Seq<VfsFileInfo>, more: Seq<VfsFileInfo>)
    requires
        distinct_paths(s),
    ensures
        distinct_paths(put_entries(s, more)),
        forall|k: int|
            0 <= k < more.len() ==> at_path(put_entries(s, more), (#[trigger] more[k]).path@) >= 0,
        forall|i: int|
            0 <= i < put_entries(s, more).len() ==> more.contains(
                #[trigger] put_entries(s, more)[i],
            ) || (s.contains(put_entries(s, more)[i]) && at_path(
                more,
                put_entries(s, more)[i].path@,
            ) < 0),
    decreases more.len(),
{
    if more.len() > 0 {
        let head = more.drop_last();
        let e = more.last();
        let t = put_entries(s, head);
        let r = put_entries(s, more);
        put_entries_facts(s, head);
        at_path_bounds(t, e.path@);
        assert forall|k: int| 0 <= k < more.len() implies at_path(
            r,
            (#[trigger] more[k]).path@,
        ) >= 0 by {
            at_path_bounds(r, more[k].path@);
            if k < head.len() {
                assert(head[k] == more[k]);
                at_path_bounds(t, head[k].path@);
                let p = at_path(t, head[k].path@);
                assert(r[p].path@ == more[k].path@);
            } else if at_path(t, e.path@) >= 0 {
                assert(r[at_path(t, e.path@)] == e);
            } else {
                assert(r[t.len() as int] == e);
            }
        }
        assert forall|i: int| 0 <= i < r.len() implies more.contains(#[trigger] r[i]) || (
        s.contains(r[i]) && at_path(more, r[i].path@) < 0) by {
            if r[i] == e {
                assert(more[more.len() - 1] == e);
            } else {
                assert(r[i] == t[i]);
                if head.contains(t[i]) {
                    let k = choose|k: int| 0 <= k < head.len() && head[k] == t[i];
                    assert(more[k] == r[i]);
                } else {
                    assert(t[i].path@ != e.path@) by {
                        if t[i].path@ == e.path@ {
                            let p = at_path(t, e.path@);
                            if p != i {
                                if p < i {
                                    assert(t[p].path@ != t[i].path@);
                                } else {
                                    assert(t[i].path@ != t[p].path@);
                                }
                            }
                        }
                    }
                    assert(at_path(more, r[i].path@) == at_path(head, r[i].path@));
                }
            }
        }
    }
}

/// A merged listing names each path once, shows every pending write, and shows what
/// is stored only for paths without one.
pub proof fn pending_writes_win(results: Seq<VfsFileInfo>, pending: Seq<VfsFileInfo>)
    requires
        pending.len() > 0,
    ensures
        distinct_paths(put_entries(put_entries(Seq::empty(), results), pending)),
        merged(results, pending).to_multiset() == put_entries(
            put_entries(Seq::empty(), results),
            pending,
        ).to_multiset(),
        forall|k: int|
            0 <= k < pending.len() ==> at_path(
                put_entries(put_entries(Seq::empty(), results), pending),
                (#[trigger] pending[k]).path@,
            ) >= 0,
        forall|i: int|
            0 <= i < put_entries(put_entries(Seq::empty(), results), pending).len()
                ==> pending.contains(
                #[trigger] put_entries(put_entries(Seq::empty(), results), pending)[i],
            ) || at_path(
                pending,
                put_entries(put_entries(Seq::empty(), results), pending)[i].path@,
            ) < 0,
{
    let base = put_entries(Seq::empty(), results);
    put_entries_facts(Seq::empty(), results);
    put_entries_facts(base, pending);
    crate::listing::sorting_orders_a_permutation(by_name(), put_entries(base, pending));
}

// ---------------------------------------------------------------- index synchronisation
/// Seconds within which a directory is not brought up to date twice.
pub const INDEX_SYNC_DEBOUNCE_SECS: i64 = 3;

/// What a listing does about an index that may be behind.
#[derive(Debug, Clone, Copy, PartialEq, Eq, Structural)]
pub enum SyncDecision {
    /// Nothing: the mode says so.
    Off,
    /// Nothing: it was done a moment ago.
    Debounced,
    /// Nothing: it is being done.
    InFlight,
    /// Start it and go on.
    Background,
    /// Do it and use the result.
    Blocking,
}

/// What a listing does: in mode one the index is brought up to date in the
/// background unless that was done within the last seconds or is under way, in mode
/// two before the listing goes on, else not at all.
pub open spec fn sync_decision(
    mode: i64,
    last_done: Option<i64>,
    in_flight: bool,
    now: i64,
) -> SyncDecision {
    if mode == 1 {
        if last_done is Some && clamp_i64(now - last_done->0) < INDEX_SYNC_DEBOUNCE_SECS {
            SyncDecision::Debounced
        } else if in_flight {
            SyncDecision::InFlight
        } else {
            SyncDecision::Background
        }
    } else if mode == 2 {
        SyncDecision::Blocking
    } else {
        SyncDecision::Off
    }
}

pub fn execute_sync_decision(mode: i64, last_done: Option<i64>, in_flight: bool, now: i64) -> (res:
    SyncDecision)
    ensures
        res == sync_decision(mode, last_done, in_flight, now),
{
    if mode == 1 {
        match last_done {
            Some(last) => {
                if sat_sub(now, last) < INDEX_SYNC_DEBOUNCE_SECS {
                    return SyncDecision::Debounced;
                }
            },
            None => {},
        }
        if in_flight {
            SyncDecision::InFlight
        } else {
            SyncDecision::Background
        }
    } else if mode == 2 {
        SyncDecision::Blocking
    } else {
        SyncDecision::Off
    }
}

/// Key under which the synchronisation of a directory is known.
pub fn sync_key(user_id: &str, normalized_path: &str) -> (res: String)
    ensures
        res@ == user_id@ + "\n"@ + normalized_path@,
{
    crate::text::concat3(user_id, "\n", normalized_path)
}

/// The bounds of the chunks in which the rows of a directory are written to the
/// index: chunks of the given size, at least one row each, and a last one that is
/// smaller, or empty.
pub fn sync_chunks(rows: usize, chunk_size: usize) -> (res: Vec<(usize, usize)>)
    ensures
        forms_chunks(res@, rows as int, if chunk_size == 0 {
            1
        } else {
            chunk_size as int
        }),
{
    let w: usize = if chunk_size == 0 {
        1
    } else {
        chunk_size
    };
    let mut out: Vec<(usize, usize)> = Vec::new();
    let mut from: usize = 0;
    assert(0 * w == 0) by (nonlinear_arith);
    while rows - from >= w
        invariant
            w >= 1,
            from <= rows,
            out@.len() * w == from,
            forall|i: int| 0 <= i < out@.len() ==> is_chunk(#[trigger] out@[i], i, w as int),
        decreases rows - from,
    {
        let ghost n = out@.len();
        let ghost prior = out@;
        out.push((from, from + w));
        from = from + w;
        assert((n + 1) * w == n * w + w) by (nonlinear_arith);
        assert forall|i: int| 0 <= i < out@.len() implies is_chunk(
            #[trigger] out@[i],
            i,
            w as int,
        ) by {
            if i < n {
                assert(is_chunk(prior[i], i, w as int));
            }
        }
    }
    let ghost n = out@.len();
    assert((n + 1) * w == n * w + w) by (nonlinear_arith);
    out.push((from, rows));
    out
}

/// The full chunk with number `i`.
pub open spec fn is_chunk(bounds: (usize, usize), i: int, width: int) -> bool {
    bounds.0 == i * width && bounds.1 == (i + 1) * width
}

/// `chunks` cuts `rows` rows into chunks of `width` rows and a last one with fewer.
pub open spec fn forms_chunks(chunks: Seq<(usize, usize)>, rows: int, width: int) -> bool {
    &&& chunks.len() > 0
    &&& forall|i: int| 0 <= i < chunks.len() - 1 ==> is_chunk(#[trigger] chunks[i], i, width)
    &&& chunks.last().0 == (chunks.len() - 1) * width
    &&& chunks.last().1 == rows
    &&& rows - chunks.last().0 < width
    &&& chunks.last().0 <= rows
}

/// Number of chunks that is reported: none where there are no rows.
pub fn reported_chunks(rows: u64, chunks: u64) -> (res: u64)
    requires
        chunks > 0,
    ensures
        res == if rows > 0 {
            chunks as int
        } else {
            chunks - 1
        },
{
    if rows > 0 {
        chunks
    } else {
        chunks - 1
    }
}

// ---------------------------------------------------------------- laws
/// What lies in a directory is what its path and one name behind a slash lead to: not
/// the directory itself, and nothing that lies deeper.
pub proof fn children_are_one_name_below(dir: Seq<char>, name: Seq<char>, deeper: Seq<char>)
    requires
        dir.len() > 0,
        dir.last() != '/',
        name.len() > 0,
        !name.contains('/'),
        deeper.len() > 0,
        !deeper.contains('/'),
    ensures
        is_direct_child(dir, dir + seq!['/'] + name),
        is_direct_child(seq!['/'], seq!['/'] + name),
        !is_direct_child(dir, dir + seq!['/'] + name + seq!['/'] + deeper),
        !is_direct_child(seq!['/'], seq!['/'] + name + seq!['/'] + deeper),
        !is_direct_child(dir, dir),
        !is_direct_child(dir, dir + seq!['/']),
        dir_path_form(dir) == dir,
        dir_path_form(dir + seq!['/']) == dir,
        dir_path_form(seq!['/']) == seq!['/'],
{
    reveal_strlit("/");
    assert("/"@ =~= seq!['/']);
    let empty = Seq::<char>::empty();
    last_slash(dir, name);
    last_slash(empty, name);
    last_slash(dir + seq!['/'] + name, deeper);
    last_slash(seq!['/'] + name, deeper);
    assert(empty + seq!['/'] + name =~= seq!['/'] + name);
    let low = dir + seq!['/'] + name;
    assert(low.len() > dir.len() + 1);
    assert((seq!['/'] + name).len() > 1);
    let d = dir + seq!['/'];
    assert(d.drop_last() =~= dir);
    assert(d.last() == '/');
    assert(trim_end_char(dir, '/') == dir);
    assert(trim_end_char(d, '/') == dir);
    assert(d.len() > 1);
}

proof fn last_slash(before: Seq<char>, name: Seq<char>)
    requires
        !name.contains('/'),
    ensures
        last_pos(before + seq!['/'] + name, '/') == before.len(),
        before_last(before + seq!['/'] + name, '/') == before,
{
    let s = before + seq!['/'] + name;
    let at = before.len() as int;
    assert(s[at] == '/');
    assert forall|i: int| at < i < s.len() implies s[i] != '/' by {
        assert(s[i] == name[i - at - 1]);
        assert(name.contains(name[i - at - 1]));
    }
    crate::text::last_pos_bounds(s, '/');
    assert(s.take(at) =~= before);
}

/// A directory lists what lies in it, but no thumbnails, and no protected blobs where
/// they are to be hidden.
pub proof fn a_directory_lists_its_children(
    normalized: Seq<char>,
    hide_blobs: bool,
    e: VfsFileInfo,
)
    ensures
        is_listed(normalized, hide_blobs, e) ==> is_direct_child(
            dir_path_form(normalized),
            e.path@,
        ) && !thumbnail_cache_path(e.path@),
        is_listed(normalized, true, e) ==> !hidden_storage_path(e.path@),
        is_direct_child(dir_path_form(normalized), e.path@) && !hidden_storage_path(e.path@)
            ==> is_listed(normalized, hide_blobs, e),
        is_direct_child(dir_path_form(normalized), e.path@) && !thumbnail_cache_path(e.path@)
            ==> is_listed(normalized, false, e),
{
}

/// A listing with pending writes shows every path that is stored or pending once: where
/// a write is pending it shows one of the pending writes, and else what is stored, all
/// by name; and without pending writes it is as it was.
pub proof fn a_merged_listing_shows_everything(
    results: Seq<VfsFileInfo>,
    pending: Seq<VfsFileInfo>,
    k: int,
    m: int,
    n: int,
)
    requires
        0 <= m < merged(results, pending).len(),
    ensures
        pending.len() > 0 && m < n < merged(results, pending).len() ==> !text_before(
            merged(results, pending)[n].name@,
            merged(results, pending)[m].name@,
        ),
        merged(results, Seq::empty()) == results,
        0 <= k < results.len() ==> exists|i: int|
            0 <= i < merged(results, pending).len() && (#[trigger] merged(
                results,
                pending,
            )[i]).path@ == results[k].path@,
        0 <= k < pending.len() ==> exists|i: int|
            0 <= i < merged(results, pending).len() && (#[trigger] merged(
                results,
                pending,
            )[i]).path@ == pending[k].path@,
        pending.contains(merged(results, pending)[m]) || (results.contains(
            merged(results, pending)[m],
        ) && forall|i: int|
            0 <= i < pending.len() ==> (#[trigger] pending[i]).path@ != merged(
                results,
                pending,
            )[m].path@),
{
    let all = merged(results, pending);
    if pending.len() == 0 {
        if 0 <= k < results.len() {
            assert(all[k].path@ == results[k].path@);
        }
        assert(results.contains(all[m]));
    } else {
        let base = put_entries(Seq::empty(), results);
        let put = put_entries(base, pending);
        put_entries_facts(Seq::empty(), results);
        put_entries_facts(base, pending);
        put_entries_keeps(base, pending);
        crate::listing::sorting_orders_a_permutation(by_name(), put);
        same_members(all, put);
        if m < n < all.len() {
            assert(!goes_before(by_name(), all[n], all[m]));
        }
        if 0 <= k < results.len() {
            at_path_bounds(base, results[k].path@);
            let a = at_path(base, results[k].path@);
            assert(base[a].path@ == results[k].path@);
            assert(at_path(put, base[a].path@) >= 0);
            shown_in_both(all, put, results[k].path@);
        }
        if 0 <= k < pending.len() {
            assert(at_path(put, pending[k].path@) >= 0);
            shown_in_both(all, put, pending[k].path@);
        }
        assert(all.contains(all[m]));
        assert(put.contains(all[m]));
        let at = put.index_of(all[m]);
        assert(put[at] == all[m]);
        at_path_bounds(pending, all[m].path@);
        if !pending.contains(all[m]) {
            assert(base.contains(all[m]));
            let b = base.index_of(all[m]);
            assert(base[b] == all[m]);
            assert(results.contains(base[b]));
        }
    }
}

proof fn shown_in_both(all: Seq<VfsFileInfo>, put: Seq<VfsFileInfo>, path: Seq<char>)
    requires
        at_path(put, path) >= 0,
        forall|e: VfsFileInfo| all.contains(e) <==> put.contains(e),
    ensures
        exists|i: int| 0 <= i < all.len() && (#[trigger] all[i]).path@ == path,
{
    at_path_bounds(put, path);
    let e = put[at_path(put, path)];
    assert(put.contains(e));
    assert(all.contains(e));
    assert(all[all.index_of(e)] == e);
}

proof fn same_members(a: Seq<VfsFileInfo>, b: Seq<VfsFileInfo>)
    requires
        a.to_multiset() == b.to_multiset(),
    ensures
        forall|e: VfsFileInfo| a.contains(e) <==> b.contains(e),
{
    broadcast use vstd::seq_lib::group_to_multiset_ensures;

    assert forall|e: VfsFileInfo| a.contains(e) <==> b.contains(e) by {
        assert(a.contains(e) <==> a.to_multiset().count(e) > 0);
        assert(b.contains(e) <==> b.to_multiset().count(e) > 0);
    }
}

/// Every path that is there stays.
proof fn put_entries_keeps(s: Seq<VfsFileInfo>, more: Seq<VfsFileInfo>)
    ensures
        forall|i: int|
            0 <= i < s.len() ==> at_path(put_entries(s, more), (#[trigger] s[i]).path@) >= 0,
    decreases more.len(),
{
    assert forall|i: int| 0 <= i < s.len() implies at_path(
        put_entries(s, more),
        (#[trigger] s[i]).path@,
    ) >= 0 by {
        let path = s[i].path@;
        at_path_bounds(s, path);
        if more.len() > 0 {
            let part = put_entries(s, more.drop_last());
            put_entries_keeps(s, more.drop_last());
            assert(at_path(part, path) >= 0);
            at_path_bounds(part, path);
            at_path_bounds(part, more.last().path@);
            let whole = put_entries(s, more);
            at_path_bounds(whole, path);
            assert(whole[at_path(part, path)].path@ == path);
        }
    }
}

/// The index is never brought up to date where that is switched off, always before a
/// listing goes on where that is asked for, and else in the background: never twice at
/// a time, and never within three seconds of the last time.
pub proof fn the_index_is_brought_up_to_date_now_and_again(
    mode: i64,
    last_done: Option<i64>,
    in_flight: bool,
    now: i64,
)
    requires
        last_done matches Some(t) ==> i64::MIN <= now - t <= i64::MAX,
    ensures
        ({
            let decision = sync_decision(mode, last_done, in_flight, now);
            &&& decision is Off <==> mode != 1 && mode != 2
            &&& decision is Blocking <==> mode == 2
            &&& decision is Background <==> mode == 1 && !in_flight && (last_done is None || now
                - last_done->0 >= 3)
            &&& decision is InFlight ==> in_flight
        }),
{
}

/// The chunks follow upon one another from the first row to the last; no one is larger
/// than it may be, and all but the last are as large as they may be.
pub proof fn chunks_cover_the_rows(chunks: Seq<(usize, usize)>, rows: int, width: int, i: int)
    requires
        width > 0,
        forms_chunks(chunks, rows, width),
        0 <= i < chunks.len(),
    ensures
        chunks[0].0 == 0,
        chunks.last().1 == rows,
        i + 1 < chunks.len() ==> chunks[i].1 == chunks[i + 1].0 && chunks[i].1 - chunks[i].0
            == width,
        0 <= chunks[i].1 - chunks[i].0 <= width,
{
    assert(0 * width == 0);
    assert((i + 1) * width == i * width + width) by (nonlinear_arith);
    if i + 1 < chunks.len() {
        assert(is_chunk(chunks[i], i, width));
        if i + 2 < chunks.len() {
            assert(is_chunk(chunks[i + 1], i + 1, width));
        }
    }
    if chunks.len() > 1 {
        assert(is_chunk(chunks[0], 0, width));
    }
}

} // verus!
