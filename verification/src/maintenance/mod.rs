//! Upkeep: what is cleaned up, in which portions, and for whom.
use crate::ledger::Ledger;
use crate::scoped::engine::page_of_profile;
use crate::text::concat2;
use vstd::prelude::*;

pub mod sync_guard;

verus! {

/// Upkeep of the storage.
#[derive(Debug, Clone, Copy, PartialEq, Eq, Structural)]
pub struct VfsMaintenanceService;

/// Something in the recycle bin that has been there for too long.
#[derive(Debug)]
pub struct ExpiredItem {
    pub user_id: String,
    pub path: String,
}

/// The paths of a user's items among the first `n`, in order.
pub open spec fn paths_of(items: Seq<ExpiredItem>, user_id: Seq<char>, n: int) -> Seq<String>
    decreases n,
{
    if n <= 0 {
        Seq::empty()
    } else if items[n - 1].user_id@ == user_id {
        paths_of(items, user_id, n - 1).push(items[n - 1].path)
    } else {
        paths_of(items, user_id, n - 1)
    }
}

/// `groups` holds, for each user with items, the paths of them in order.
pub open spec fn groups_items(
    items: Seq<ExpiredItem>,
    n: int,
    groups: Map<Seq<char>, Vec<String>>,
) -> bool {
    &&& forall|u: Seq<char>| #[trigger]
        groups.contains_key(u) <==> paths_of(items, u, n).len() > 0
    &&& forall|u: Seq<char>| #[trigger]
        groups.contains_key(u) ==> groups[u]@ == paths_of(items, u, n)
}

impl VfsMaintenanceService {
    /// Items taken up at a time.
    pub fn maintenance_batch_size(hardware_profile: &str) -> (res: u64)
        ensures
            res == page_of_profile(hardware_profile@),
    {
        crate::scoped::engine::favorites_page_size(hardware_profile)
    }

    /// The recycle bin is emptied of old items unless they are kept for ever.
    pub fn is_trash_cleanup_on(retention_days: u32) -> (res: bool)
        ensures
            res == (retention_days != 0),
    {
        retention_days != 0
    }

    /// The items by user.
    pub fn group_by_user(items: Vec<ExpiredItem>) -> (res: Ledger<Vec<String>>)
        ensures
            res.wf(),
            groups_items(items@, items@.len() as int, res@),
    {
        let mut groups: Ledger<Vec<String>> = Ledger::new();
        let mut i: usize = 0;
        while i < items.len()
            invariant
                i <= items@.len(),
                groups.wf(),
                groups_items(items@, i as int, groups@),
            decreases items@.len() - i,
        {
            let ghost before = groups@;
            let user = items[i].user_id.as_str();
            let mut paths: Vec<String> = match groups.remove(user) {
                Some(paths) => paths,
                None => Vec::new(),
            };
            paths.push(items[i].path.clone());
            groups.insert(user, paths);
            proof {
                let u0 = items@[i as int].user_id@;
                assert(groups@ == before.remove(u0).insert(u0, paths));
                assert(paths@ =~= paths_of(items@, u0, i + 1)) by {
                    if !before.contains_key(u0) {
                        assert(paths_of(items@, u0, i as int) =~= Seq::empty());
                    }
                }
                assert forall|u: Seq<char>| #[trigger] groups@.contains_key(u) <==> paths_of(
                    items@,
                    u,
                    i + 1,
                ).len() > 0 by {
                    assert(before.contains_key(u) <==> paths_of(items@, u, i as int).len() > 0);
                }
                assert forall|u: Seq<char>| #[trigger]
                    groups@.contains_key(u) implies groups@[u]@ == paths_of(items@, u, i + 1) by {
                    if u != u0 {
                        assert(before.contains_key(u));
                    }
                }
            }
            i += 1;
        }
        groups
    }

    /// Key of the lock under which a user's index is brought up to date.
    pub fn sync_lock_key(user_id: &str) -> (res: String)
        ensures
            res@ == "vfs:sync_lock:"@ + user_id@,
    {
        concat2("vfs:sync_lock:", user_id)
    }

    /// A synchronisation starts unless the lock is known to be held.
    pub open spec fn sync_may_start(locked: Option<bool>) -> bool {
        locked != Some(true)
    }

    pub fn may_start_sync(locked: Option<bool>) -> (res: bool)
        ensures
            res == Self::sync_may_start(locked),
    {
        match locked {
            Some(l) => !l,
            None => true,
        }
    }

    /// Where a synchronisation starts: the whole scope unless a path is given.
    pub fn sync_path<'a>(path_hint: Option<&'a str>) -> (res: &'a str)
        ensures
            res@ == match path_hint {
                Some(p) => p@,
                None => "/"@,
            },
    {
        match path_hint {
            Some(p) => p,
            None => "/",
        }
    }
}

/// Nothing is lost or doubled by grouping: a path is grouped under a user exactly
/// where an item says so.
pub proof fn grouping_keeps_items(
    items: Seq<ExpiredItem>,
    groups: Map<Seq<char>, Vec<String>>,
    user_id: Seq<char>,
    path: String,
)
    requires
        groups_items(items, items.len() as int, groups),
    ensures
        (groups.contains_key(user_id) && groups[user_id]@.contains(path)) <==> exists|i: int|
            0 <= i < items.len() && (#[trigger] items[i]).user_id@ == user_id && items[i].path
                == path,
{
    paths_of_members(items, user_id, path, items.len() as int);
    let all = paths_of(items, user_id, items.len() as int);
    if groups.contains_key(user_id) {
        assert(groups[user_id]@ == all);
    } else {
        assert(all.len() == 0);
    }
}

proof fn paths_of_members(items: Seq<ExpiredItem>, user_id: Seq<char>, path: String, n: int)
    requires
        0 <= n <= items.len(),
    ensures
        paths_of(items, user_id, n).contains(path) <==> exists|i: int|
            0 <= i < n && (#[trigger] items[i]).user_id@ == user_id && items[i].path == path,
    decreases n,
{
    if n > 0 {
        paths_of_members(items, user_id, path, n - 1);
        let before = paths_of(items, user_id, n - 1);
        let now = paths_of(items, user_id, n);
        if items[n - 1].user_id@ == user_id {
            assert(now == before.push(items[n - 1].path));
            if now.contains(path) {
                let k = choose|k: int| 0 <= k < now.len() && now[k] == path;
                if k < before.len() {
                    assert(before[k] == path);
                    assert(before.contains(path));
                }
            }
            if before.contains(path) {
                let k = choose|k: int| 0 <= k < before.len() && before[k] == path;
                assert(now[k] == path);
            }
            if items[n - 1].path == path {
                assert(now[before.len() as int] == path);
            }
        }
    }
}

/// A synchronisation waits only for a lock that is known to be held.
pub proof fn only_a_held_lock_stops(held: bool)
    ensures
        VfsMaintenanceService::sync_may_start(Some(held)) <==> !held,
        VfsMaintenanceService::sync_may_start(None),
{
}

} // verus!
