//! Users whose files are being recovered, and are not to be written meanwhile.
use crate::ledger::Ledger;
use crate::text::views;
use vstd::prelude::*;

verus! {

/// The users under maintenance.
pub struct LockedUsers {
    users: Ledger<()>,
}

/// Tells that a user was put under maintenance, and who has to be taken out again.
#[derive(Debug)]
pub struct UserMaintenanceGuard {
    user_id: String,
}

impl UserMaintenanceGuard {
    pub closed spec fn user(self) -> Seq<char> {
        self.user_id@
    }
}

impl LockedUsers {
    pub closed spec fn view(self) -> Set<Seq<char>> {
        self.users@.dom()
    }

    pub closed spec fn wf(self) -> bool {
        self.users.wf()
    }

    pub fn new() -> (res: LockedUsers)
        ensures
            res.wf(),
            res@ == Set::<Seq<char>>::empty(),
    {
        let res: LockedUsers = LockedUsers { users: Ledger::new() };
        assert(res@ =~= Set::<Seq<char>>::empty());
        res
    }
}

/// The users under maintenance after a user was put there.
pub open spec fn entered(users: Set<Seq<char>>, user_id: Seq<char>) -> Set<Seq<char>> {
    users.insert(user_id)
}

/// The users under maintenance after a user was taken out.
pub open spec fn left(users: Set<Seq<char>>, user_id: Seq<char>) -> Set<Seq<char>> {
    users.remove(user_id)
}

/// Put a user under maintenance.
pub fn enter_user_maintenance(locked: &mut LockedUsers, user_id: &str) -> (res: UserMaintenanceGuard)
    requires
        old(locked).wf(),
    ensures
        final(locked).wf(),
        final(locked)@ == entered(old(locked)@, user_id@),
        res.user() == user_id@,
{
    let ghost before = locked@;
    locked.users.insert(user_id, ());
    assert(locked@ =~= before.insert(user_id@));
    UserMaintenanceGuard { user_id: user_id.to_owned() }
}

/// Take the user out of maintenance that the guard was made for.
pub fn release_user_maintenance(locked: &mut LockedUsers, guard: UserMaintenanceGuard)
    requires
        old(locked).wf(),
    ensures
        final(locked).wf(),
        final(locked)@ == left(old(locked)@, guard.user()),
{
    exit_user_maintenance(locked, guard.user_id.as_str());
}

/// Take a user out of maintenance.
pub fn exit_user_maintenance(locked: &mut LockedUsers, user_id: &str)
    requires
        old(locked).wf(),
    ensures
        final(locked).wf(),
        final(locked)@ == left(old(locked)@, user_id@),
{
    let ghost before = locked@;
    let _ = locked.users.remove(user_id);
    assert(locked@ =~= before.remove(user_id@));
}

/// Take every user out of maintenance.
pub fn clear_all_maintenance(locked: &mut LockedUsers)
    ensures
        final(locked).wf(),
        final(locked)@ == Set::<Seq<char>>::empty(),
{
    locked.users.clear();
    assert(locked@ =~= Set::<Seq<char>>::empty());
}

/// Whether a user is under maintenance.
pub fn is_user_under_maintenance(locked: &LockedUsers, user_id: &str) -> (res: bool)
    requires
        locked.wf(),
    ensures
        res == locked@.contains(user_id@),
{
    locked.users.contains(user_id)
}

/// All users under maintenance, each once.
pub fn get_all_locked_users(locked: &LockedUsers) -> (res: Vec<String>)
    requires
        locked.wf(),
    ensures
        views(res@).no_duplicates(),
        forall|u: Seq<char>| #[trigger] views(res@).contains(u) <==> locked@.contains(u),
{
    let res: Vec<String> = locked.users.keys();
    proof {
        locked.users.order_lists_keys();
        let keys = views(res@);
        assert forall|u: Seq<char>| #[trigger] keys.contains(u) implies locked@.contains(u) by {
            let i = choose|i: int| 0 <= i < keys.len() && keys[i] == u;
            assert(locked.users.order()[i] == u);
        }
        assert forall|u: Seq<char>| locked@.contains(u) implies #[trigger] keys.contains(u) by {
            assert(locked.users@.contains_key(u));
        }
    }
    res
}

/// Whether any user is under maintenance.
pub fn is_maintenance_mode(locked: &LockedUsers) -> (res: bool)
    requires
        locked.wf(),
    ensures
        res == (exists|u: Seq<char>| locked@.contains(u)),
{
    proof {
        locked.users.order_lists_keys();
    }
    let n: usize = locked.users.len();
    proof {
        if n > 0 {
            assert(locked@.contains(locked.users.order()[0]));
        } else {
            assert forall|u: Seq<char>| !locked@.contains(u) by {
                if locked@.contains(u) {
                    assert(locked.users@.contains_key(u));
                }
            }
        }
    }
    n > 0
}

/// A user who is put under maintenance is there until taken out, and no other user is
/// touched by either.
pub proof fn maintenance_lasts_until_it_is_left(
    users: Set<Seq<char>>,
    user_id: Seq<char>,
    other: Seq<char>,
)
    ensures
        entered(users, user_id).contains(user_id),
        !left(users, user_id).contains(user_id),
        other != user_id ==> (entered(users, user_id).contains(other) <==> users.contains(other)),
        other != user_id ==> (left(users, user_id).contains(other) <==> users.contains(other)),
        !users.contains(user_id) ==> left(entered(users, user_id), user_id) == users,
{
    if !users.contains(user_id) {
        assert(left(entered(users, user_id), user_id) =~= users);
    }
}

} // verus!
