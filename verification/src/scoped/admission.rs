//! The start of an operation on a user's scope: who is refused, and which way the
//! others go.
use crate::cache::write_cache::WriteCacheManager;
use crate::error::VfsError;
use crate::protected::ProtectedPathPlan;
use crate::scoped::engine::{
    bypasses_write_cache, in_protected_area, in_protected_subdir, is_protected_subdir_path,
    matches_path, restore_target, restores_in_index,
    should_use_write_cache, trashes_in_index, ScopedVfsStorageEngine,
};
use crate::scoped::path::{
    hidden_storage_path, invalid_path_error, is_recycle_bin_path, is_refresh_trigger, is_temp_path,
    is_valid_path, normal_form, recycle_bin_path, temp_path, validate_file_operation_impl,
};
use crate::text::has_suffix;
use vstd::prelude::*;

verus! {

/// `e` tells why a change of the path is refused: maintenance comes before the path.
pub open spec fn refusal(path: Seq<char>, under_maintenance: bool, e: VfsError) -> bool {
    if under_maintenance {
        e == VfsError::MaintenanceMode
    } else {
        !is_valid_path(path) && invalid_path_error(path, e)
    }
}

/// A change of the path may start, on the form that is returned.
pub fn admit_change(path: &str, under_maintenance: bool) -> (res: Result<String, VfsError>)
    ensures
        match res {
            Ok(p) => !under_maintenance && is_valid_path(path@) && p@ == normal_form(path@),
            Err(e) => refusal(path@, under_maintenance, e),
        },
{
    match ScopedVfsStorageEngine::check_maintenance(under_maintenance) {
        Ok(()) => validate_file_operation_impl(path),
        Err(e) => Err(e),
    }
}

/// The user's protected area holds the path.
pub open spec fn is_protected(plan: Option<&ProtectedPathPlan>, path: Seq<char>) -> bool {
    plan is Some && in_protected_area(plan->0.root@, path)
}

fn protects(plan: Option<&ProtectedPathPlan>, path: &str) -> (res: bool)
    ensures
        res == is_protected(plan, path@),
{
    match plan {
        Some(p) => matches_path(p, path),
        None => false,
    }
}

/// The path asks for a refresh of its directory.
pub open spec fn asks_for_refresh(path: Seq<char>) -> bool {
    has_suffix(path, "/._refresh_here_.txt"@)
}

// ---------------------------------------------------------------- writing
/// Where a write goes.
#[derive(Debug, Clone, Copy, PartialEq, Eq, Structural)]
pub enum WriteRoute {
    /// To the protected area.
    Protected,
    /// Nowhere: it asks for a refresh.
    Refresh,
    /// To the write cache; to the storage where the cache does not take it.
    Cache,
    /// To the storage.
    Direct,
}

/// The way of a write of `size` bytes to the path.
pub open spec fn route_of<P>(
    plan: Option<&ProtectedPathPlan>,
    cache: Option<&WriteCacheManager<P>>,
    path: Seq<char>,
    size: u64,
) -> WriteRoute {
    if is_protected(plan, path) {
        WriteRoute::Protected
    } else if asks_for_refresh(path) {
        WriteRoute::Refresh
    } else if !bypasses_write_cache(path) && cache is Some && cache->0.accepts(path, size) {
        WriteRoute::Cache
    } else {
        WriteRoute::Direct
    }
}

/// Start a write of `size` bytes.
pub fn start_write<P>(
    path: &str,
    under_maintenance: bool,
    plan: Option<&ProtectedPathPlan>,
    cache: Option<&WriteCacheManager<P>>,
    size: u64,
) -> (res: Result<(String, WriteRoute), VfsError>)
    ensures
        match res {
            Ok((p, route)) => !under_maintenance && is_valid_path(path@) && p@ == normal_form(path@)
                && route == route_of(plan, cache, p@, size),
            Err(e) => refusal(path@, under_maintenance, e),
        },
{
    let p: String = match admit_change(path, under_maintenance) {
        Ok(p) => p,
        Err(e) => return Err(e),
    };
    let route: WriteRoute = if protects(plan, p.as_str()) {
        WriteRoute::Protected
    } else if is_refresh_trigger(p.as_str()) {
        WriteRoute::Refresh
    } else if should_use_write_cache(cache, p.as_str(), size) {
        WriteRoute::Cache
    } else {
        WriteRoute::Direct
    };
    Ok((p, route))
}

/// Start a write of a stream, whose size is not known: it is gathered for the cache
/// where a single byte would go there.
pub fn start_write_stream<P>(
    path: &str,
    under_maintenance: bool,
    plan: Option<&ProtectedPathPlan>,
    cache: Option<&WriteCacheManager<P>>,
) -> (res: Result<(String, WriteRoute), VfsError>)
    ensures
        match res {
            Ok((p, route)) => !under_maintenance && is_valid_path(path@) && p@ == normal_form(path@)
                && route == route_of(plan, cache, p@, 1),
            Err(e) => refusal(path@, under_maintenance, e),
        },
{
    start_write(path, under_maintenance, plan, cache, 1)
}

/// Start a write at an offset: it does not go through the cache, and is not for
/// temporary files.
pub fn start_write_at(path: &str, under_maintenance: bool, plan: Option<&ProtectedPathPlan>) -> (res:
    Result<(String, WriteRoute), VfsError>)
    ensures
        match res {
            Ok((p, route)) => {
                &&& !under_maintenance
                &&& is_valid_path(path@)
                &&& p@ == normal_form(path@)
                &&& route == if is_protected(plan, p@) {
                    WriteRoute::Protected
                } else if asks_for_refresh(p@) {
                    WriteRoute::Refresh
                } else {
                    WriteRoute::Direct
                }
                &&& route == WriteRoute::Direct ==> !temp_path(p@)
            },
            Err(e) => {
                ||| refusal(path@, under_maintenance, e)
                ||| {
                    &&& !under_maintenance
                    &&& is_valid_path(path@)
                    &&& !is_protected(plan, normal_form(path@))
                    &&& !asks_for_refresh(normal_form(path@))
                    &&& temp_path(normal_form(path@))
                    &&& e.is_internal("Not supported for temp"@)
                }
            },
        },
{
    let p: String = match admit_change(path, under_maintenance) {
        Ok(p) => p,
        Err(e) => return Err(e),
    };
    if protects(plan, p.as_str()) {
        return Ok((p, WriteRoute::Protected));
    }
    if is_refresh_trigger(p.as_str()) {
        return Ok((p, WriteRoute::Refresh));
    }
    if is_temp_path(p.as_str()) {
        return Err(VfsError::internal("Not supported for temp"));
    }
    Ok((p, WriteRoute::Direct))
}

/// Start a deletion, or the creation of a directory; whether it is the protected
/// area's.
pub fn start_change(path: &str, under_maintenance: bool, plan: Option<&ProtectedPathPlan>) -> (res:
    Result<(String, bool), VfsError>)
    ensures
        match res {
            Ok((p, in_area)) => !under_maintenance && is_valid_path(path@) && p@ == normal_form(
                path@,
            ) && in_area == is_protected(plan, p@),
            Err(e) => refusal(path@, under_maintenance, e),
        },
{
    let p: String = match admit_change(path, under_maintenance) {
        Ok(p) => p,
        Err(e) => return Err(e),
    };
    let in_area: bool = protects(plan, p.as_str());
    Ok((p, in_area))
}

// ---------------------------------------------------------------- moving and copying
/// How a file is moved or copied.
#[derive(Debug, Clone, Copy, PartialEq, Eq, Structural)]
pub enum ScopedTransfer {
    /// Within the protected area.
    ProtectedDomain,
    /// By reading and writing, as one side is protected.
    ThroughContent,
    Plain,
}

pub open spec fn transfer_of(plan: Option<&ProtectedPathPlan>, src: Seq<char>, dst: Seq<char>) -> ScopedTransfer {
    if is_protected(plan, src) && is_protected(plan, dst) {
        ScopedTransfer::ProtectedDomain
    } else if is_protected(plan, src) || is_protected(plan, dst) {
        ScopedTransfer::ThroughContent
    } else {
        ScopedTransfer::Plain
    }
}

/// A move or copy as it may start.
#[derive(Debug)]
pub struct TransferStart {
    pub src: String,
    pub dst: String,
    pub kind: ScopedTransfer,
}

/// Start a move or a copy. The source is checked before the destination.
pub fn start_transfer(
    src: &str,
    dst: &str,
    under_maintenance: bool,
    plan: Option<&ProtectedPathPlan>,
) -> (res: Result<TransferStart, VfsError>)
    ensures
        match res {
            Ok(t) => {
                &&& !under_maintenance
                &&& is_valid_path(src@) && t.src@ == normal_form(src@)
                &&& is_valid_path(dst@) && t.dst@ == normal_form(dst@)
                &&& t.kind == transfer_of(plan, t.src@, t.dst@)
            },
            Err(e) => {
                ||| refusal(src@, under_maintenance, e)
                ||| !under_maintenance && is_valid_path(src@) && refusal(dst@, false, e)
            },
        },
{
    let s: String = match admit_change(src, under_maintenance) {
        Ok(p) => p,
        Err(e) => return Err(e),
    };
    let d: String = match admit_change(dst, under_maintenance) {
        Ok(p) => p,
        Err(e) => return Err(e),
    };
    let a: bool = protects(plan, s.as_str());
    let b: bool = protects(plan, d.as_str());
    let kind: ScopedTransfer = if a && b {
        ScopedTransfer::ProtectedDomain
    } else if a || b {
        ScopedTransfer::ThroughContent
    } else {
        ScopedTransfer::Plain
    };
    Ok(TransferStart { src: s, dst: d, kind })
}

// ---------------------------------------------------------------- recycle bin
fn covering_root<'a>(plan: Option<&'a ProtectedPathPlan>, path: &str) -> (res: Option<&'a str>)
    ensures
        match res {
            Some(root) => is_protected(plan, path@) && root@ == plan->0.root@,
            None => !is_protected(plan, path@),
        },
{
    match plan {
        Some(p) => if matches_path(p, path) {
            Some(p.root.as_str())
        } else {
            None
        },
        None => None,
    }
}

/// Under a protected area that is the whole scope, the recycle bin is kept in the
/// index alone.
pub open spec fn whole_scope_is_protected(plan: Option<&ProtectedPathPlan>, path: Seq<char>) -> bool {
    is_protected(plan, path) && plan->0.root@ == "/"@
}

/// Start to move something to the recycle bin; whether the index alone does it.
/// `root` is the root of the user's protected area, where there is one.
pub fn start_trash(
    path: &str,
    under_maintenance: bool,
    root: Option<&str>,
    plan: Option<&ProtectedPathPlan>,
) -> (res: Result<(String, bool), VfsError>)
    ensures
        match res {
            Ok((p, by_index)) => {
                &&& !under_maintenance
                &&& is_valid_path(path@) && p@ == normal_form(path@)
                &&& !in_protected_subdir(root, p@)
                &&& !recycle_bin_path(p@)
                &&& by_index == (whole_scope_is_protected(plan, p@) && !hidden_storage_path(p@))
            },
            Err(e) => {
                ||| refusal(path@, under_maintenance, e)
                ||| !under_maintenance && is_valid_path(path@) && in_protected_subdir(
                    root,
                    normal_form(path@),
                ) && e.is_internal("Recycle bin is disabled for protected subdirectory storage"@)
                ||| !under_maintenance && is_valid_path(path@) && !in_protected_subdir(
                    root,
                    normal_form(path@),
                ) && recycle_bin_path(normal_form(path@)) && e.is_internal(
                    "Path is already inside recycle bin"@,
                )
            },
        },
{
    let p: String = match admit_change(path, under_maintenance) {
        Ok(p) => p,
        Err(e) => return Err(e),
    };
    if is_protected_subdir_path(root, p.as_str()) {
        return Err(
            VfsError::internal("Recycle bin is disabled for protected subdirectory storage"),
        );
    }
    if is_recycle_bin_path(p.as_str()) {
        return Err(VfsError::internal("Path is already inside recycle bin"));
    }
    let by_index: bool = trashes_in_index(covering_root(plan, p.as_str()), p.as_str());
    Ok((p, by_index))
}

/// The path cannot be deleted with others: it is not valid, or has no recycle bin.
pub open spec fn bars_batch_delete(path: Seq<char>, root: Option<&str>) -> bool {
    !is_valid_path(path) || in_protected_subdir(root, normal_form(path))
}

/// `e` tells why a path cannot be deleted with others.
pub open spec fn batch_delete_bar(path: Seq<char>, root: Option<&str>, e: VfsError) -> bool {
    if is_valid_path(path) {
        in_protected_subdir(root, normal_form(path)) && e.is_internal(
            "Recycle bin is disabled for protected subdirectory storage"@,
        )
    } else {
        invalid_path_error(path, e)
    }
}

/// A batch of deletions may be submitted: every path can be deleted, and there is
/// someone to keep track of the task.
pub fn start_batch_delete(
    paths: &Vec<String>,
    under_maintenance: bool,
    root: Option<&str>,
    has_task_handler: bool,
) -> (res: Result<(), VfsError>)
    ensures
        match res {
            Ok(()) => {
                &&& !under_maintenance
                &&& has_task_handler
                &&& forall|i: int|
                    0 <= i < paths@.len() ==> !bars_batch_delete((#[trigger] paths@[i])@, root)
            },
            Err(e) => {
                ||| under_maintenance && e == VfsError::MaintenanceMode
                ||| !under_maintenance && exists|i: int|
                    {
                        &&& 0 <= i < paths@.len()
                        &&& bars_batch_delete((#[trigger] paths@[i])@, root)
                        &&& batch_delete_bar(paths@[i]@, root, e)
                        &&& forall|j: int|
                            0 <= j < i ==> !bars_batch_delete((#[trigger] paths@[j])@, root)
                    }
                ||| !under_maintenance && !has_task_handler && (forall|i: int|
                    0 <= i < paths@.len() ==> !bars_batch_delete((#[trigger] paths@[i])@, root))
                    && e.is_internal("Task handler not configured"@)
            },
        },
{
    match ScopedVfsStorageEngine::check_maintenance(under_maintenance) {
        Ok(()) => {},
        Err(e) => return Err(e),
    }
    let mut i: usize = 0;
    while i < paths.len()
        invariant
            i <= paths@.len(),
            !under_maintenance,
            forall|j: int| 0 <= j < i ==> !bars_batch_delete((#[trigger] paths@[j])@, root),
        decreases paths@.len() - i,
    {
        let p: String = match validate_file_operation_impl(paths[i].as_str()) {
            Ok(p) => p,
            Err(e) => {
                assert(bars_batch_delete(paths@[i as int]@, root));
                return Err(e);
            },
        };
        if is_protected_subdir_path(root, p.as_str()) {
            assert(bars_batch_delete(paths@[i as int]@, root));
            return Err(
                VfsError::internal("Recycle bin is disabled for protected subdirectory storage"),
            );
        }
        i += 1;
    }
    if !has_task_handler {
        return Err(VfsError::internal("Task handler not configured"));
    }
    Ok(())
}

/// Where something in the recycle bin goes back to.
#[derive(Debug)]
pub struct RestoreStart {
    pub trash_path: String,
    pub target: String,
    /// The index alone moves it.
    pub by_index: bool,
}

/// Start to take something out of the recycle bin, to where it came from.
/// `original_path` is what the index says of that, where it says something.
pub fn start_restore(
    path: &str,
    under_maintenance: bool,
    original_path: Option<String>,
    plan: Option<&ProtectedPathPlan>,
) -> (res: Result<RestoreStart, VfsError>)
    ensures
        match res {
            Ok(r) => {
                &&& !under_maintenance
                &&& is_valid_path(path@) && r.trash_path@ == normal_form(path@)
                &&& recycle_bin_path(r.trash_path@)
                &&& original_path == Some(r.target)
                &&& r.by_index == whole_scope_is_protected(plan, r.target@)
            },
            Err(e) => {
                ||| refusal(path@, under_maintenance, e)
                ||| !under_maintenance && is_valid_path(path@) && !recycle_bin_path(
                    normal_form(path@),
                ) && e.is_internal("Path is not inside recycle bin"@)
                ||| !under_maintenance && is_valid_path(path@) && recycle_bin_path(
                    normal_form(path@),
                ) && original_path is None && e.is_internal("Not in trash or original path lost"@)
            },
        },
{
    let p: String = match admit_change(path, under_maintenance) {
        Ok(p) => p,
        Err(e) => return Err(e),
    };
    let target: String = match restore_target(p.as_str(), original_path) {
        Ok(t) => t,
        Err(e) => return Err(e),
    };
    let by_index: bool = restores_in_index(covering_root(plan, target.as_str()));
    Ok(RestoreStart { trash_path: p, target, by_index })
}

// ---------------------------------------------------------------- laws
/// Where a write goes: whatever lies in the protected area goes there and nowhere else;
/// a request for a refresh writes nothing; the cache gets what it accepts; the storage
/// the rest. Without a protected area and a cache, every write goes to the storage.
pub proof fn writes_go_where_they_belong<P>(
    plan: Option<&ProtectedPathPlan>,
    cache: Option<&WriteCacheManager<P>>,
    path: Seq<char>,
    size: u64,
)
    ensures
        ({
            let route = route_of(plan, cache, path, size);
            let protected = plan is Some && in_protected_area(plan->0.root@, path);
            &&& route == WriteRoute::Protected <==> protected
            &&& route == WriteRoute::Refresh <==> !protected && crate::text::has_suffix(
                path,
                "/._refresh_here_.txt"@,
            )
            &&& route == WriteRoute::Cache ==> !protected && cache is Some && cache->0.accepts(
                path,
                size,
            )
            &&& cache is Some && cache->0.accepts(path, size) && !bypasses_write_cache(path)
                && !protected && route != WriteRoute::Refresh ==> route == WriteRoute::Cache
            &&& cache is None && plan is None && route != WriteRoute::Refresh ==> route
                == WriteRoute::Direct
        }),
{
}

/// How a file gets from one place to another: by the index alone where both lie in the
/// protected area; through its content where one does, so that it is decoded or
/// encoded; and else by the storage.
pub proof fn transfers_keep_files_protected(
    plan: Option<&ProtectedPathPlan>,
    src: Seq<char>,
    dst: Seq<char>,
)
    ensures
        ({
            let from = plan is Some && in_protected_area(plan->0.root@, src);
            let to = plan is Some && in_protected_area(plan->0.root@, dst);
            let kind = transfer_of(plan, src, dst);
            &&& kind == ScopedTransfer::Plain <==> !from && !to
            &&& kind == ScopedTransfer::ThroughContent <==> from != to
            &&& kind == ScopedTransfer::ProtectedDomain <==> from && to
        }),
{
}

/// A change is refused exactly under maintenance and for paths that may not be operated
/// on; maintenance is told of first.
pub proof fn refusals_have_a_reason(path: Seq<char>, under_maintenance: bool, e: VfsError)
    requires
        refusal(path, under_maintenance, e),
    ensures
        e == VfsError::MaintenanceMode <==> under_maintenance,
        under_maintenance || !is_valid_path(path),
{
}

/// A path is not deleted with others exactly where it is not valid or lies in a
/// protected part of the scope, which has no recycle bin.
pub proof fn protected_parts_have_no_recycle_bin(path: Seq<char>, root: &str, rest: Seq<char>)
    requires
        root@.len() > 0,
        root@.last() != '/',
        is_valid_path(path),
    ensures
        !bars_batch_delete(path, None),
        normal_form(path) == root@ || normal_form(path) == root@.push('/') + rest
            ==> bars_batch_delete(path, Some(root)),
        bars_batch_delete(path, Some(root)) ==> normal_form(path) == root@ || normal_form(path)
            == root@.push('/') + normal_form(path).skip(root@.len() as int + 1),
{
    crate::scoped::engine::a_part_of_the_scope_is_protected(root, normal_form(path), rest);
}

/// A path that is not valid is not deleted with others.
pub proof fn invalid_paths_are_not_deleted(path: Seq<char>, root: Option<&str>)
    requires
        !is_valid_path(path),
    ensures
        bars_batch_delete(path, root),
{
}

/// The whole scope is protected exactly where the plan's root is the scope's root, and
/// then every path is.
pub proof fn the_whole_scope_is_protected_by_its_root(
    plan: &ProtectedPathPlan,
    path: Seq<char>,
)
    ensures
        whole_scope_is_protected(Some(plan), path) <==> plan.root@ == seq!['/'],
        plan.root@ == seq!['/'] ==> is_protected(Some(plan), path),
        !whole_scope_is_protected(None, path),
{
    reveal_strlit("/");
    assert("/"@ =~= seq!['/']);
    crate::scoped::engine::protected_areas_hold_what_lies_below(seq!['a'], path, path);
}

} // verus!
