//! One guard per directory of a user, so that it is brought up to date once at a time.
use crate::ledger::Ledger;
use vstd::prelude::*;

verus! {

/// The guards by user and path.
pub struct SyncGuardManager<G> {
    guards: Ledger<Ledger<G>>,
}

impl<G> SyncGuardManager<G> {
    pub closed spec fn wf(self) -> bool {
        &&& self.guards.wf()
        &&& forall|u: Seq<char>| #[trigger]
            self.guards@.contains_key(u) ==> self.guards@[u].wf()
    }

    /// The guard of each user and path.
    pub closed spec fn view(self) -> Map<(Seq<char>, Seq<char>), G> {
        Map::new(
            |k: (Seq<char>, Seq<char>)|
                self.guards@.contains_key(k.0) && self.guards@[k.0]@.contains_key(k.1),
            |k: (Seq<char>, Seq<char>)| self.guards@[k.0]@[k.1],
        )
    }

    pub fn new() -> (res: SyncGuardManager<G>)
        ensures
            res.wf(),
            res@ == Map::<(Seq<char>, Seq<char>), G>::empty(),
    {
        let res: SyncGuardManager<G> = SyncGuardManager { guards: Ledger::new() };
        assert(res@ =~= Map::<(Seq<char>, Seq<char>), G>::empty());
        res
    }

    /// The guard of a path; `fresh` becomes it where there was none.
    pub fn get_guard(&mut self, user_id: &str, path: &str, fresh: G) -> (res: &G)
        requires
            old(self).wf(),
        ensures
            final(self).wf(),
            final(self)@ == with_guard(old(self)@, (user_id@, path@), fresh),
            *res == final(self)@[(user_id@, path@)],
    {
        let known: bool = match self.guards.get(user_id) {
            Some(inner) => inner.contains(path),
            None => false,
        };
        if !known {
            let ghost before = *self;
            let mut inner: Ledger<G> = match self.guards.remove(user_id) {
                Some(inner) => inner,
                None => Ledger::new(),
            };
            inner.insert(path, fresh);
            self.guards.insert(user_id, inner);
            assert(self@ =~= before@.insert((user_id@, path@), fresh));
        }
        self.guards.get(user_id).unwrap().get(path).unwrap()
    }

    /// Forget the guards that nobody uses; `in_use` tells which are used.
    pub fn prune<F: Fn(&G) -> bool>(&mut self, in_use: F)
        requires
            old(self).wf(),
            forall|g: &G| call_requires(in_use, (g,)),
        ensures
            final(self).wf(),
            is_pruned(
                old(self)@,
                final(self)@,
                Set::new(|g: G| call_ensures(in_use, (&g,), true)),
                Set::new(|g: G| call_ensures(in_use, (&g,), false)),
            ),
    {
        let users: Vec<String> = self.guards.keys();
        let ghost before = *self;
        proof {
            self.guards.order_lists_keys();
        }
        let ghost order = self.guards.order();
        let mut kept: Ledger<Ledger<G>> = Ledger::new();
        let mut i: usize = 0;
        while i < users.len()
            invariant
                i <= users@.len(),
                crate::text::views(users@) == order,
                order == before.guards.order(),
                order.no_duplicates(),
                before.wf(),
                self.guards.wf(),
                kept.wf(),
                forall|g: &G| call_requires(in_use, (g,)),
                forall|j: int|
                    i <= j < order.len() ==> self.guards@.contains_key(#[trigger] order[j])
                        && self.guards@[order[j]] == before.guards@[order[j]],
                forall|j: int|
                    0 <= j < order.len() ==> before.guards@.contains_key(#[trigger] order[j]),
                forall|u: Seq<char>| #[trigger]
                    kept@.contains_key(u) ==> kept@[u].wf() && before.guards@.contains_key(u)
                        && exists|j: int| 0 <= j < i && #[trigger] order[j] == u,
                forall|u: Seq<char>, p: Seq<char>|
                    kept@.contains_key(u) && #[trigger] kept@[u]@.contains_key(p)
                        ==> before.guards@[u]@.contains_key(p) && kept@[u]@[p]
                        == before.guards@[u]@[p] && call_ensures(in_use, (&kept@[u]@[p],), true),
                forall|j: int, p: Seq<char>|
                    #![trigger order[j], before.guards@[order[j]]@.contains_key(p)]
                    0 <= j < i && before.guards@[order[j]]@.contains_key(p) && !(
                    kept@.contains_key(order[j]) && kept@[order[j]]@.contains_key(p))
                        ==> call_ensures(in_use, (&before.guards@[order[j]]@[p],), false),
            decreases users@.len() - i,
        {
            let user = users[i].as_str();
            assert(user@ == order[i as int]);
            assert(self.guards@.contains_key(user@));
            let inner: Ledger<G> = match self.guards.remove(user) {
                Some(inner) => inner,
                None => Ledger::new(),
            };
            let ghost kept0 = kept@;
            assert(inner == before.guards@[user@]);
            let inner = prune_inner(inner, &in_use);
            assert(!kept@.contains_key(user@)) by {
                if kept@.contains_key(user@) {
                    let j = choose|j: int| 0 <= j < i && #[trigger] order[j] == user@;
                }
            }
            if inner.len() > 0 {
                kept.insert(user, inner);
            } else {
                proof {
                    inner.order_lists_keys();
                    assert forall|p: Seq<char>| !inner@.contains_key(p) by {
                        if inner@.contains_key(p) {
                            assert(inner.order().contains(p));
                        }
                    }
                }
            }
            proof {
                assert forall|j: int, p: Seq<char>|
                    #![trigger order[j], before.guards@[order[j]]@.contains_key(p)]
                    0 <= j < i + 1 && before.guards@[order[j]]@.contains_key(p) && !(
                    kept@.contains_key(order[j]) && kept@[order[j]]@.contains_key(
                        p,
                    )) implies call_ensures(in_use, (&before.guards@[order[j]]@[p],), false) by {
                    if j < i {
                        assert(order[j] != user@);
                    }
                }
                assert forall|u: Seq<char>| #[trigger] kept@.contains_key(u) implies kept@[u].wf()
                    && before.guards@.contains_key(u) && exists|j: int|
                    0 <= j < i + 1 && #[trigger] order[j] == u by {
                    if kept0.contains_key(u) {
                        let j = choose|j: int| 0 <= j < i && #[trigger] order[j] == u;
                        assert(order[j] == u);
                    } else {
                        assert(order[i as int] == u);
                    }
                }
            }
            i += 1;
        }
        self.guards = kept;
        proof {
            assert forall|k: (Seq<char>, Seq<char>)| #[trigger]
                before@.contains_key(k) && !self@.contains_key(k) implies call_ensures(
                in_use,
                (&before@[k],),
                false,
            ) by {
                assert(before.guards@.contains_key(k.0));
                assert(order.contains(k.0));
                let j = choose|j: int| 0 <= j < order.len() && order[j] == k.0;
                assert(before.guards@[order[j]]@.contains_key(k.1));
            }
            assert forall|k: (Seq<char>, Seq<char>)| #[trigger]
                self@.contains_key(k) implies before@.contains_key(k) && self@[k] == before@[k]
                && call_ensures(in_use, (&self@[k],), true) by {
                assert(kept@.contains_key(k.0));
                assert(kept@[k.0]@.contains_key(k.1));
            }
        }
    }
}

/// What follows a call of `get_guard` for `key`.
pub open spec fn with_guard<G>(
    m: Map<(Seq<char>, Seq<char>), G>,
    key: (Seq<char>, Seq<char>),
    fresh: G,
) -> Map<(Seq<char>, Seq<char>), G> {
    if m.contains_key(key) {
        m
    } else {
        m.insert(key, fresh)
    }
}

/// `after` follows a call of `prune` that may find the guards of `used` in use, and
/// those of `unused` out of use.
pub open spec fn is_pruned<G>(
    before: Map<(Seq<char>, Seq<char>), G>,
    after: Map<(Seq<char>, Seq<char>), G>,
    used: Set<G>,
    unused: Set<G>,
) -> bool {
    &&& forall|k: (Seq<char>, Seq<char>)| #[trigger]
        after.contains_key(k) ==> before.contains_key(k) && after[k] == before[k]
            && used.contains(after[k])
    &&& forall|k: (Seq<char>, Seq<char>)|
        #![trigger before.contains_key(k)]
        #![trigger after.contains_key(k)]
        before.contains_key(k) && !after.contains_key(k) ==> unused.contains(before[k])
}

/// A call on the guards.
#[verifier::reject_recursive_types(G)]
pub enum GuardCall<G> {
    /// `get_guard` for a user and a path.
    Get { key: (Seq<char>, Seq<char>), fresh: G },
    /// `prune`, with what it may find in use and out of use.
    Prune { used: Set<G>, unused: Set<G> },
}

/// `after` follows the call.
pub open spec fn follows<G>(
    before: Map<(Seq<char>, Seq<char>), G>,
    call: GuardCall<G>,
    after: Map<(Seq<char>, Seq<char>), G>,
) -> bool {
    match call {
        GuardCall::Get { key, fresh } => after == with_guard(before, key, fresh),
        GuardCall::Prune { used, unused } => is_pruned(before, after, used, unused),
    }
}

/// The guards go through `states`, one call after the other.
pub open spec fn is_course<G>(
    states: Seq<Map<(Seq<char>, Seq<char>), G>>,
    calls: Seq<GuardCall<G>>,
) -> bool {
    &&& states.len() == calls.len() + 1
    &&& forall|i: int|
        0 <= i < calls.len() ==> follows(states[i], #[trigger] calls[i], states[i + 1])
}

/// No call from number `from` up to number `to` finds the guard out of use.
pub open spec fn stays_in_use<G>(calls: Seq<GuardCall<G>>, from: int, to: int, guard: G) -> bool {
    forall|i: int|
        from <= i < to ==> match #[trigger] calls[i] {
            GuardCall::Prune { unused, .. } => !unused.contains(guard),
            GuardCall::Get { .. } => true,
        }
}

/// Every call of `get_guard` brings a guard of its own.
pub open spec fn fresh_guards_differ<G>(calls: Seq<GuardCall<G>>) -> bool {
    forall|i: int, j: int|
        0 <= i < j < calls.len() ==> match (#[trigger] calls[i], #[trigger] calls[j]) {
            (GuardCall::Get { fresh: a, .. }, GuardCall::Get { fresh: b, .. }) => a != b,
            _ => true,
        }
}

/// Whatever guards are asked for and forgotten meanwhile, a guard that is in use stays
/// the guard of its user and path.
pub proof fn guard_in_use_stays<G>(
    states: Seq<Map<(Seq<char>, Seq<char>), G>>,
    calls: Seq<GuardCall<G>>,
    key: (Seq<char>, Seq<char>),
    from: int,
    to: int,
)
    requires
        is_course(states, calls),
        0 <= from <= to <= calls.len(),
        states[from].contains_key(key),
        stays_in_use(calls, from, to, states[from][key]),
    ensures
        states[to].contains_key(key),
        states[to][key] == states[from][key],
    decreases to - from,
{
    if from < to {
        guard_in_use_stays(states, calls, key, from, to - 1);
        let last = calls[to - 1];
        assert(follows(states[to - 1], last, states[to - 1 + 1]));
    }
}

/// Every guard was brought by a call of `get_guard` for its own user and path.
proof fn guard_was_brought<G>(
    states: Seq<Map<(Seq<char>, Seq<char>), G>>,
    calls: Seq<GuardCall<G>>,
    key: (Seq<char>, Seq<char>),
    to: int,
) -> (i: int)
    requires
        is_course(states, calls),
        states[0] == Map::<(Seq<char>, Seq<char>), G>::empty(),
        0 <= to <= calls.len(),
        states[to].contains_key(key),
    ensures
        0 <= i < to,
        calls[i] == (GuardCall::Get { key, fresh: states[to][key] }),
    decreases to,
{
    let last = calls[to - 1];
    assert(follows(states[to - 1], last, states[to - 1 + 1]));
    match last {
        GuardCall::Get { key: k, fresh } if k == key && !states[to - 1].contains_key(key) => to - 1,
        _ => guard_was_brought(states, calls, key, to - 1),
    }
}

/// Two users or paths never have the same guard, at whatever moments they had it.
pub proof fn guards_are_not_shared<G>(
    states: Seq<Map<(Seq<char>, Seq<char>), G>>,
    calls: Seq<GuardCall<G>>,
    a: (Seq<char>, Seq<char>),
    at: int,
    b: (Seq<char>, Seq<char>),
    bt: int,
)
    requires
        is_course(states, calls),
        states[0] == Map::<(Seq<char>, Seq<char>), G>::empty(),
        fresh_guards_differ(calls),
        0 <= at <= calls.len(),
        0 <= bt <= calls.len(),
        states[at].contains_key(a),
        states[bt].contains_key(b),
        a != b,
    ensures
        states[at][a] != states[bt][b],
{
    let i = guard_was_brought(states, calls, a, at);
    let j = guard_was_brought(states, calls, b, bt);
    if i < j {
        assert(calls[i] != calls[j]);
    } else {
        assert(calls[j] != calls[i] || i == j);
    }
}

/// One guard per user and path: whoever asks while a guard is in use gets that guard
/// exactly where the user and the path are the same.
pub proof fn one_guard_per_path<G>(
    states: Seq<Map<(Seq<char>, Seq<char>), G>>,
    calls: Seq<GuardCall<G>>,
    first: int,
    second: int,
    a: (Seq<char>, Seq<char>),
    b: (Seq<char>, Seq<char>),
)
    requires
        is_course(states, calls),
        states[0] == Map::<(Seq<char>, Seq<char>), G>::empty(),
        fresh_guards_differ(calls),
        0 <= first < second < calls.len(),
        calls[first] matches GuardCall::Get { key, .. } && key == a,
        calls[second] matches GuardCall::Get { key, .. } && key == b,
        stays_in_use(calls, first + 1, second, states[first + 1][a]),
    ensures
        states[first + 1].contains_key(a),
        states[second + 1].contains_key(b),
        states[first + 1][a] == states[second + 1][b] <==> a == b,
{
    assert(follows(states[first], calls[first], states[first + 1]));
    assert(follows(states[second], calls[second], states[second + 1]));
    if a == b {
        guard_in_use_stays(states, calls, a, first + 1, second);
    } else {
        guards_are_not_shared(states, calls, a, first + 1, b, second + 1);
    }
}

fn prune_inner<G, F: Fn(&G) -> bool>(all: Ledger<G>, in_use: &F) -> (res: Ledger<G>)
    requires
        all.wf(),
        forall|g: &G| call_requires(*in_use, (g,)),
    ensures
        res.wf(),
        forall|p: Seq<char>| #[trigger]
            res@.contains_key(p) ==> all@.contains_key(p) && res@[p] == all@[p] && call_ensures(
                *in_use,
                (&all@[p],),
                true,
            ),
        forall|p: Seq<char>| #[trigger]
            all@.contains_key(p) && !res@.contains_key(p) ==> call_ensures(
                *in_use,
                (&all@[p],),
                false,
            ),
{
    let paths: Vec<String> = all.keys();
    let ghost order = all.order();
    proof {
        all.order_lists_keys();
    }
    let ghost before = all@;
    let mut rest: Ledger<G> = all;
    let mut i: usize = 0;
    while i < paths.len()
        invariant
            i <= paths@.len(),
            crate::text::views(paths@) == order,
            order.no_duplicates(),
            rest.wf(),
            forall|g: &G| call_requires(*in_use, (g,)),
            forall|j: int| i <= j < order.len() ==> rest@.contains_key(#[trigger] order[j]),
            forall|p: Seq<char>| #[trigger]
                rest@.contains_key(p) ==> before.contains_key(p) && rest@[p] == before[p],
            forall|j: int|
                0 <= j < i && rest@.contains_key(#[trigger] order[j]) ==> call_ensures(
                    *in_use,
                    (&before[order[j]],),
                    true,
                ),
            forall|p: Seq<char>| #[trigger]
                before.contains_key(p) && !rest@.contains_key(p) ==> call_ensures(
                    *in_use,
                    (&before[p],),
                    false,
                ),
        decreases paths@.len() - i,
    {
        let path = paths[i].as_str();
        assert(path@ == order[i as int]);
        assert(rest@.contains_key(path@));
        let used: bool = match rest.get(path) {
            Some(g) => in_use(g),
            None => true,
        };
        if !used {
            let _ = rest.remove(path);
        }
        i += 1;
    }
    proof {
        assert forall|p: Seq<char>| #[trigger] rest@.contains_key(p) implies call_ensures(
            *in_use,
            (&before[p],),
            true,
        ) by {
            assert(before.contains_key(p));
            assert(order.contains(p));
        }
    }
    rest
}

} // verus!
