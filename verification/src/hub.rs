//! The storage hub: which pools there are, who uses which, and which uploads were
//! left behind.
use crate::error::VfsError;
use crate::ledger::Ledger;
use crate::text::{chars_of, concat2, concat3, text_eq, trim, trimmed, views};
use crate::types::TimeNanos;
use vstd::prelude::*;

verus! {

/// A pool as it is configured.
#[derive(Debug)]
pub struct PoolConfig {
    pub name: String,
    pub primary_connector: String,
    pub backup_connector: Option<String>,
}

/// What is configured for a role.
#[derive(Debug)]
pub struct RolePolicy {
    pub role_id: Option<String>,
    pub pool_name: Option<String>,
    pub default_quota: i64,
}

/// The connectors of a pool.
#[derive(Debug)]
pub struct PoolPlan {
    pub primary: String,
    pub backup: Option<String>,
}

/// The settings that a new user gets.
#[derive(Debug)]
pub struct NewUserSettings {
    pub pool_name: String,
    pub base_dir: String,
    pub quota: i64,
}

/// The pools and the rules by which users come to them.
pub struct VfsStorageHub {
    pools: Ledger<PoolPlan>,
    policies: Vec<RolePolicy>,
    default_pool: Option<String>,
}

// ---------------------------------------------------------------- set-up
/// A hub without connectors is refused before any is built.
pub fn check_connectors(count: usize) -> (res: Result<(), VfsError>)
    ensures
        match res {
            Ok(()) => count > 0,
            Err(e) => count == 0 && e.is_internal(
                "No connectors configured (vfs_storage_hub.connectors is empty)"@,
            ),
        },
{
    if count == 0 {
        Err(VfsError::internal("No connectors configured (vfs_storage_hub.connectors is empty)"))
    } else {
        Ok(())
    }
}

/// The backup connector that a pool names: none where the name is blank.
pub open spec fn backup_of(pool: PoolConfig) -> Option<String> {
    match pool.backup_connector {
        Some(b) => if trimmed(b@).len() == 0 {
            None
        } else {
            Some(b)
        },
        None => None,
    }
}

/// What is wrong with a pool's connectors, where something is.
pub open spec fn pool_problem(connectors: Seq<String>, pool: PoolConfig) -> Option<Seq<char>> {
    if !views(connectors).contains(pool.primary_connector@) {
        Some("Primary connector "@ + pool.primary_connector@ + " not found"@)
    } else if backup_of(pool) is Some && !views(connectors).contains(backup_of(pool)->0@) {
        Some("Backup connector "@ + backup_of(pool)->0@ + " not found"@)
    } else {
        None
    }
}

pub open spec fn is_plan_of(pool: PoolConfig, plan: PoolPlan) -> bool {
    &&& plan.primary@ == pool.primary_connector@
    &&& match backup_of(pool) {
        Some(b) => plan.backup is Some && plan.backup->0@ == b@,
        None => plan.backup is None,
    }
}

/// Position of the last of the first `n` pools that has the name, or -1.
pub open spec fn last_named(pools: Seq<PoolConfig>, name: Seq<char>, n: int) -> int
    decreases n,
{
    if n <= 0 {
        -1
    } else if pools[n - 1].name@ == name {
        n - 1
    } else {
        last_named(pools, name, n - 1)
    }
}

proof fn last_named_is_in_range(pools: Seq<PoolConfig>, name: Seq<char>, n: int)
    requires
        0 <= n <= pools.len(),
    ensures
        -1 <= last_named(pools, name, n) < n || (n == 0 && last_named(pools, name, n) == -1),
    decreases n,
{
    if n > 0 {
        last_named_is_in_range(pools, name, n - 1);
    }
}

fn plan_pool(connectors: &Vec<String>, pool: &PoolConfig) -> (res: Result<PoolPlan, VfsError>)
    ensures
        match res {
            Ok(plan) => pool_problem(connectors@, *pool) is None && is_plan_of(*pool, plan),
            Err(e) => pool_problem(connectors@, *pool) is Some && e.is_internal(
                pool_problem(connectors@, *pool)->0,
            ),
        },
{
    let primary = pool.primary_connector.as_str();
    if !listed(connectors, primary) {
        return Err(VfsError::Internal(concat3("Primary connector ", primary, " not found")));
    }
    let backup: Option<String> = match &pool.backup_connector {
        Some(b) => if trim(b.as_str()).is_empty() {
            None
        } else if !listed(connectors, b.as_str()) {
            return Err(VfsError::Internal(concat3("Backup connector ", b.as_str(), " not found")));
        } else {
            Some(b.as_str().to_owned())
        },
        None => None,
    };
    Ok(PoolPlan { primary: primary.to_owned(), backup })
}

fn listed(list: &Vec<String>, text: &str) -> (res: bool)
    ensures
        res == views(list@).contains(text@),
{
    match crate::text::position_of(list, text) {
        Some(i) => {
            assert(views(list@)[i as int] == text@);
            true
        },
        None => {
            assert(!views(list@).contains(text@)) by {
                if views(list@).contains(text@) {
                    let i = choose|i: int| 0 <= i < views(list@).len() && views(list@)[i] == text@;
                    assert(list@[i]@ == text@);
                }
            }
            false
        },
    }
}

// ---------------------------------------------------------------- routes
/// The policy at `i` sends the role to a pool that exists.
pub open spec fn policy_routes(
    policies: Seq<RolePolicy>,
    pools: Map<Seq<char>, PoolPlan>,
    role_id: Seq<char>,
    i: int,
) -> bool {
    &&& 0 <= i < policies.len()
    &&& policies[i].role_id is Some
    &&& policies[i].role_id->0@ == role_id
    &&& policies[i].pool_name is Some
    &&& pools.contains_key(policies[i].pool_name->0@)
}

impl VfsStorageHub {
    /// The pools by name.
    pub closed spec fn view(self) -> Map<Seq<char>, PoolPlan> {
        self.pools@
    }

    pub closed spec fn rules(self) -> Seq<RolePolicy> {
        self.policies@
    }

    pub closed spec fn fallback(self) -> Option<String> {
        self.default_pool
    }

    pub closed spec fn wf(self) -> bool {
        self.pools.wf()
    }

    /// Every pool is made of connectors that exist. Of pools of one name the last
    /// stands.
    pub fn new(
        connectors: &Vec<String>,
        pools: &Vec<PoolConfig>,
        policies: Vec<RolePolicy>,
        default_pool: Option<String>,
    ) -> (res: Result<VfsStorageHub, VfsError>)
        ensures
            match res {
                Ok(hub) => {
                    &&& hub.wf()
                    &&& connectors@.len() > 0
                    &&& pools@.len() > 0
                    &&& forall|i: int|
                        0 <= i < pools@.len() ==> pool_problem(
                            connectors@,
                            #[trigger] pools@[i],
                        ) is None
                    &&& forall|name: Seq<char>| #[trigger]
                        hub@.contains_key(name) <==> last_named(pools@, name, pools@.len() as int)
                            >= 0
                    &&& forall|name: Seq<char>| #[trigger]
                        hub@.contains_key(name) ==> is_plan_of(
                            pools@[last_named(pools@, name, pools@.len() as int)],
                            hub@[name],
                        )
                    &&& hub.rules() == policies@
                    &&& hub.fallback() == default_pool
                },
                Err(e) => if connectors@.len() == 0 {
                    e.is_internal(
                        "No connectors configured (vfs_storage_hub.connectors is empty)"@,
                    )
                } else if pools@.len() == 0 {
                    e.is_internal("No pools configured (vfs_storage_hub.pools is empty)"@)
                } else {
                    exists|i: int|
                        {
                            &&& 0 <= i < pools@.len()
                            &&& pool_problem(connectors@, #[trigger] pools@[i]) is Some
                            &&& e.is_internal(pool_problem(connectors@, pools@[i])->0)
                            &&& forall|j: int|
                                0 <= j < i ==> pool_problem(
                                    connectors@,
                                    #[trigger] pools@[j],
                                ) is None
                        }
                },
            },
    {
        match check_connectors(connectors.len()) {
            Ok(()) => {},
            Err(e) => return Err(e),
        }
        if pools.len() == 0 {
            return Err(VfsError::internal("No pools configured (vfs_storage_hub.pools is empty)"));
        }
        let mut made: Ledger<PoolPlan> = Ledger::new();
        let mut i: usize = 0;
        while i < pools.len()
            invariant
                i <= pools@.len(),
                made.wf(),
                connectors@.len() > 0,
                forall|j: int|
                    0 <= j < i ==> pool_problem(connectors@, #[trigger] pools@[j]) is None,
                forall|name: Seq<char>| #[trigger]
                    made@.contains_key(name) <==> last_named(pools@, name, i as int) >= 0,
                forall|name: Seq<char>| #[trigger]
                    made@.contains_key(name) ==> is_plan_of(
                        pools@[last_named(pools@, name, i as int)],
                        made@[name],
                    ),
            decreases pools@.len() - i,
        {
            match plan_pool(connectors, &pools[i]) {
                Ok(plan) => {
                    made.insert(pools[i].name.as_str(), plan);
                },
                Err(e) => return Err(e),
            }
            i += 1;
        }
        Ok(VfsStorageHub { pools: made, policies, default_pool })
    }

    /// Whether there is a pool of this name.
    pub fn has_pool(&self, pool_name: &str) -> (res: bool)
        requires
            self.wf(),
        ensures
            res == self@.contains_key(pool_name@),
    {
        self.pools.contains(pool_name)
    }

    /// The connectors of the pool, where it exists.
    pub fn get_pool(&self, pool_name: &str) -> (res: Option<&PoolPlan>)
        requires
            self.wf(),
        ensures
            match res {
                Some(plan) => self@.contains_key(pool_name@) && *plan == self@[pool_name@],
                None => !self@.contains_key(pool_name@),
            },
    {
        self.pools.get(pool_name)
    }

    /// `name` is where the role's users are sent: the pool of the first policy for
    /// the role whose pool exists, else the default pool, else some pool.
    pub open spec fn is_role_route(self, role_id: Seq<char>, name: Seq<char>) -> bool {
        &&& self@.contains_key(name)
        &&& if exists|i: int| policy_routes(self.rules(), self@, role_id, i) {
            exists|i: int|
                {
                    &&& policy_routes(self.rules(), self@, role_id, i)
                    &&& name == self.rules()[i].pool_name->0@
                    &&& forall|j: int| 0 <= j < i ==> !policy_routes(self.rules(), self@, role_id, j)
                }
        } else if self.fallback() is Some && trimmed(self.fallback()->0@).len() > 0
            && self@.contains_key(self.fallback()->0@) {
            name == self.fallback()->0@
        } else {
            true
        }
    }

    pub fn route_by_role(&self, role_id: &str) -> (res: Result<String, VfsError>)
        requires
            self.wf(),
        ensures
            match res {
                Ok(name) => self.is_role_route(role_id@, name@),
                Err(e) => self@.dom().is_empty() && e.is_internal(
                    "No pools configured or initialized"@,
                ),
            },
    {
        let mut i: usize = 0;
        while i < self.policies.len()
            invariant
                i <= self.policies@.len(),
                self.wf(),
                forall|j: int|
                    0 <= j < i ==> !policy_routes(self.rules(), self@, role_id@, j),
            decreases self.policies@.len() - i,
        {
            let policy = &self.policies[i];
            match (&policy.role_id, &policy.pool_name) {
                (Some(role), Some(pool)) => {
                    if text_eq(role.as_str(), role_id) && self.pools.contains(pool.as_str()) {
                        assert(policy_routes(self.rules(), self@, role_id@, i as int));
                        return Ok(pool.as_str().to_owned());
                    }
                },
                _ => {},
            }
            i += 1;
        }
        match &self.default_pool {
            Some(pool) => {
                if !trim(pool.as_str()).is_empty() && self.pools.contains(pool.as_str()) {
                    return Ok(pool.as_str().to_owned());
                }
            },
            None => {},
        }
        proof {
            self.pools.order_lists_keys();
        }
        if self.pools.len() == 0 {
            assert(self@.dom() =~= Set::empty());
            return Err(VfsError::internal("No pools configured or initialized"));
        }
        let (name, _) = self.pools.entry(0);
        Ok(name.to_owned())
    }

    /// A user stays on the pool that the user's settings name, where it exists; else
    /// the role decides.
    pub fn route_for_user(&self, user_pool: Option<&str>, role_id: &str) -> (res: Result<
        String,
        VfsError,
    >)
        requires
            self.wf(),
        ensures
            match res {
                Ok(name) => if user_pool is Some && self@.contains_key(user_pool->0@) {
                    name@ == user_pool->0@
                } else {
                    self.is_role_route(role_id@, name@)
                },
                Err(e) => self@.dom().is_empty() && e.is_internal(
                    "No pools configured or initialized"@,
                ),
            },
    {
        match user_pool {
            Some(pool) => {
                if self.pools.contains(pool) {
                    return Ok(pool.to_owned());
                }
            },
            None => {},
        }
        self.route_by_role(role_id)
    }

    /// The bytes that a new user of the role may use: what the role has, else what
    /// the first policy for the role says, else nothing.
    pub open spec fn quota_for(self, role_id: Seq<char>, role_quota: Option<i64>, quota: i64) -> bool {
        match role_quota {
            Some(q) => quota == q,
            None => {
                ||| exists|i: int|
                    {
                        &&& 0 <= i < self.rules().len()
                        &&& names_role(#[trigger] self.rules()[i], role_id)
                        &&& quota == self.rules()[i].default_quota
                        &&& forall|j: int|
                            0 <= j < i ==> !names_role(#[trigger] self.rules()[j], role_id)
                    }
                ||| quota == 0 && forall|j: int|
                    0 <= j < self.rules().len() ==> !names_role(#[trigger] self.rules()[j], role_id)
            },
        }
    }

    pub fn default_quota(&self, role_id: &str, role_quota: Option<i64>) -> (res: i64)
        ensures
            self.quota_for(role_id@, role_quota, res),
    {
        match role_quota {
            Some(q) => return q,
            None => {},
        }
        let mut i: usize = 0;
        while i < self.policies.len()
            invariant
                i <= self.policies@.len(),
                role_quota is None,
                forall|j: int| 0 <= j < i ==> !names_role(#[trigger] self.rules()[j], role_id@),
            decreases self.policies@.len() - i,
        {
            let matches_role: bool = match &self.policies[i].role_id {
                Some(role) => text_eq(role.as_str(), role_id),
                None => false,
            };
            if matches_role {
                assert(names_role(self.rules()[i as int], role_id@));
                return self.policies[i].default_quota;
            }
            i += 1;
        }
        0
    }

    /// `row` is what a user without settings gets: the pool that the role is sent to,
    /// a directory of the user's own, and the quota of the role. `role_quota` is what
    /// is recorded of the role, which counts only for a role that is a number.
    pub open spec fn is_for_new_user(
        self,
        user_id: Seq<char>,
        role_id: Seq<char>,
        role_quota: Option<i64>,
        row: NewUserSettings,
    ) -> bool {
        &&& self.is_role_route(role_id, row.pool_name@)
        &&& row.base_dir@ == "/users/"@ + user_id
        &&& self.quota_for(
            role_id,
            if role_number(role_id) is Some {
                role_quota
            } else {
                None
            },
            row.quota,
        )
    }

    /// The settings of a user who has none yet.
    pub fn new_user_settings(
        &self,
        user_id: &str,
        role_id: &str,
        role_quota: Option<i64>,
    ) -> (res: Result<NewUserSettings, VfsError>)
        requires
            self.wf(),
        ensures
            match res {
                Ok(row) => self.is_for_new_user(user_id@, role_id@, role_quota, row),
                Err(e) => self@.dom().is_empty() && e.is_internal(
                    "No pools configured or initialized"@,
                ),
            },
    {
        let recorded: Option<i64> = match parse_role_id(role_id) {
            Some(_) => role_quota,
            None => None,
        };
        let quota: i64 = self.default_quota(role_id, recorded);
        match self.route_by_role(role_id) {
            Ok(pool_name) => Ok(NewUserSettings { pool_name, base_dir: base_dir(user_id), quota }),
            Err(e) => Err(e),
        }
    }
}

pub open spec fn names_role(policy: RolePolicy, role_id: Seq<char>) -> bool {
    policy.role_id is Some && policy.role_id->0@ == role_id
}

/// Directory of a user on the pool.
pub fn base_dir(user_id: &str) -> (res: String)
    ensures
        res@ == "/users/"@ + user_id@,
{
    concat2("/users/", user_id)
}

pub fn settings_error(cause: &str) -> (res: VfsError)
    ensures
        res.is_internal("Failed to create default user settings: "@ + cause@),
{
    VfsError::Internal(concat2("Failed to create default user settings: ", cause))
}

// ---------------------------------------------------------------- role numbers
pub open spec fn is_digit(c: char) -> bool {
    '0' <= c <= '9'
}

pub open spec fn all_digits(s: Seq<char>) -> bool {
    forall|i: int| 0 <= i < s.len() ==> is_digit(#[trigger] s[i])
}

/// The number that decimal digits write.
pub open spec fn digits_value(s: Seq<char>) -> nat
    decreases s.len(),
{
    if s.len() == 0 {
        0
    } else {
        digits_value(s.drop_last()) * 10 + (s.last() as int - '0' as int) as nat
    }
}

/// The number that a text writes: digits, perhaps with a sign before them.
pub open spec fn parsed_int(s: Seq<char>) -> Option<int> {
    let signed = s.len() > 0 && (s[0] == '-' || s[0] == '+');
    let digits = if signed {
        s.skip(1)
    } else {
        s
    };
    if digits.len() == 0 || !all_digits(digits) {
        None
    } else if signed && s[0] == '-' {
        Some(-(digits_value(digits) as int))
    } else {
        Some(digits_value(digits) as int)
    }
}

proof fn digits_value_grows(s: Seq<char>, n: int)
    requires
        0 <= n <= s.len(),
        all_digits(s),
    ensures
        digits_value(s.take(n)) <= digits_value(s),
    decreases s.len() - n,
{
    if n == s.len() {
        assert(s.take(n) =~= s);
    } else {
        let t = s.take(n + 1);
        assert(t.drop_last() =~= s.take(n));
        digits_value_grows(s, n + 1);
    }
}

/// A role's number, where the role is a number that fits.
pub open spec fn role_number(role_id: Seq<char>) -> Option<i16> {
    match parsed_int(role_id) {
        Some(n) => if i16::MIN <= n <= i16::MAX {
            Some(n as i16)
        } else {
            None
        },
        None => None,
    }
}

pub fn parse_role_id(role_id: &str) -> (res: Option<i16>)
    ensures
        res == role_number(role_id@),
{
    let chars: Vec<char> = chars_of(role_id);
    let n: usize = chars.len();
    let signed: bool = n > 0 && (chars[0] == '-' || chars[0] == '+');
    let negative: bool = signed && chars[0] == '-';
    let start: usize = if signed {
        1
    } else {
        0
    };
    let ghost digits = if signed {
        chars@.skip(1)
    } else {
        chars@
    };
    assert(digits =~= chars@.skip(start as int));
    if start == n {
        return None;
    }
    let mut value: i32 = 0;
    let mut i: usize = start;
    while i < n
        invariant
            start <= i <= n == chars@.len(),
            chars@ == role_id@,
            signed == (role_id@.len() > 0 && (role_id@[0] == '-' || role_id@[0] == '+')),
            digits == if signed {
                role_id@.skip(1)
            } else {
                role_id@
            },
            start == (if signed {
                1int
            } else {
                0int
            }),
            all_digits(digits.take(i - start)),
            value == digits_value(digits.take(i - start)),
            value <= 32768,
        decreases n - i,
    {
        let c: char = chars[i];
        let ghost seen = digits.take(i + 1 - start);
        assert(seen.drop_last() =~= digits.take(i - start));
        assert(seen.last() == c);
        if c < '0' || c > '9' {
            assert(!all_digits(digits)) by {
                assert(digits[i - start] == c);
            }
            proof {
                only_digits_parse(role_id@, digits, signed);
            }
            return None;
        }
        value = value * 10 + (c as i32 - '0' as i32);
        assert(all_digits(seen)) by {
            assert forall|k: int| 0 <= k < seen.len() implies is_digit(#[trigger] seen[k]) by {
                if k < seen.len() - 1 {
                    assert(seen.drop_last()[k] == seen[k]);
                }
            }
        }
        if value > 32768 {
            proof {
                if all_digits(digits) {
                    digits_value_grows(digits, i + 1 - start);
                }
            }
            return None;
        }
        i += 1;
    }
    assert(digits.take(n - start) =~= digits);
    if negative {
        Some((0 - value) as i16)
    } else if value == 32768 {
        None
    } else {
        Some(value as i16)
    }
}

proof fn only_digits_parse(s: Seq<char>, digits: Seq<char>, signed: bool)
    requires
        signed == (s.len() > 0 && (s[0] == '-' || s[0] == '+')),
        digits == if signed {
            s.skip(1)
        } else {
            s
        },
        !all_digits(digits),
    ensures
        parsed_int(s) is None,
{
}

// ---------------------------------------------------------------- uploads left behind
/// Moment that an RFC 3339 text names: seconds since the epoch and nanoseconds,
/// where the text names one. A leap second has a thousand million nanoseconds or more.
pub uninterp spec fn rfc3339_instant(text: Seq<char>) -> Option<(i64, u32)>;

/// `chrono::DateTime::parse_from_rfc3339` gives the moment that the text names, or an
/// error; `timestamp` and `timestamp_subsec_nanos` tell that moment in UTC. The
/// grammar of the text is not stated.
#[verifier::external_body]
fn parse_rfc3339(text: &str) -> (res: Option<(i64, u32)>)
    ensures
        res == rfc3339_instant(text@),
{
    match chrono::DateTime::parse_from_rfc3339(text) {
        Ok(t) => Some((t.timestamp(), t.timestamp_subsec_nanos())),
        Err(_) => None,
    }
}

/// Nanoseconds from `then` to `now`, a leap second between them counted where it lies
/// before the time of day of the later moment.
pub open spec fn elapsed_nanos(now: (i64, u32), then: (i64, u32)) -> int {
    let a = now.0 as int % 86400;
    let b = then.0 as int % 86400;
    let leap = if a > b && then.1 >= 1_000_000_000 {
        1int
    } else if a < b && now.1 >= 1_000_000_000 {
        -1int
    } else {
        0int
    };
    (now.0 - then.0 + leap) * 1_000_000_000 + now.1 - then.1
}

/// Whole seconds of a number of nanoseconds, without the fraction.
pub open spec fn whole_secs(nanos: int) -> int {
    if nanos >= 0 {
        nanos / 1_000_000_000
    } else {
        -((-nanos) / 1_000_000_000)
    }
}

fn trunc_secs(nanos: i128) -> (res: i128)
    requires
        nanos > i128::MIN,
    ensures
        res == whole_secs(nanos as int),
{
    if nanos >= 0 {
        nanos / 1_000_000_000
    } else {
        -((-nanos) / 1_000_000_000)
    }
}

/// An upload that was begun at `created`, where that is known, is older than allowed.
pub open spec fn is_expired_upload(
    created: Option<(i64, u32)>,
    now: (i64, u32),
    max_age_secs: u64,
) -> bool {
    created is Some && whole_secs(elapsed_nanos(now, created->0)) > max_age_secs as i64
}

/// Whether an upload that was begun at `created` is older than allowed.
pub fn upload_expired(created: Option<(i64, u32)>, now: (i64, u32), max_age_secs: u64) -> (res: bool)
    ensures
        res == is_expired_upload(created, now, max_age_secs),
{
    let then: (i64, u32) = match created {
        Some(t) => t,
        None => return false,
    };
    let a: i128 = day_secs(now.0);
    let b: i128 = day_secs(then.0);
    let leap: i128 = if a > b && then.1 >= 1_000_000_000 {
        1
    } else if a < b && now.1 >= 1_000_000_000 {
        -1
    } else {
        0
    };
    let secs: i128 = now.0 as i128 - then.0 as i128 + leap;
    let nanos: i128 = secs * 1_000_000_000 + now.1 as i128 - then.1 as i128;
    let limit: i64 = #[verifier::truncate] (max_age_secs as i64);
    trunc_secs(nanos) > limit as i128
}

fn day_secs(secs: i64) -> (res: i128)
    ensures
        res == secs as int % 86400,
{
    let wide: i128 = secs as i128;
    if wide >= 0 {
        wide % 86400
    } else {
        let r: i128 = (-wide) % 86400;
        if r == 0 {
            0
        } else {
            86400 - r
        }
    }
}

/// Whether an upload whose record says that it was begun at `created_at` is older
/// than allowed; one without a readable time never is.
pub fn is_multipart_expired(created_at: Option<&str>, now: (i64, u32), max_age_secs: u64) -> (res:
    bool)
    ensures
        res == match created_at {
            Some(text) => is_expired_upload(rfc3339_instant(text@), now, max_age_secs),
            None => false,
        },
{
    match created_at {
        Some(text) => upload_expired(parse_rfc3339(text), now, max_age_secs),
        None => false,
    }
}

/// Key under which an upload is recorded.
pub fn multipart_key(upload_id: &str) -> (res: String)
    ensures
        res@ == "s3:multipart:"@ + upload_id@,
{
    concat2("s3:multipart:", upload_id)
}

/// Directory of a user's uploads in parts.
pub fn multipart_root() -> (res: String)
    ensures
        res@ == "/.virtual/tmp"@ + "/.multipart"@,
{
    concat2(crate::scoped::path::LOGICAL_TEMP_PREFIX, "/.multipart")
}

/// Path of the parts of an upload.
pub fn multipart_dir(upload_id: &str) -> (res: String)
    ensures
        res@ == "/.virtual/tmp"@ + "/.multipart"@ + "/"@ + upload_id@,
{
    concat3(multipart_root().as_str(), "/", upload_id)
}

/// A directory of parts may have been left behind: it has not been changed for longer
/// than the grace period.
pub open spec fn looks_left(
    is_dir: bool,
    modified: Option<TimeNanos>,
    now: TimeNanos,
    grace_secs: u64,
) -> bool {
    is_dir && modified is Some && whole_secs(now - modified->0) > grace_secs as i64
}

pub fn may_be_orphaned(is_dir: bool, modified: Option<TimeNanos>, now: TimeNanos, grace_secs: u64) -> (res:
    bool)
    requires
        modified matches Some(m) ==> i128::MIN < now - m <= i128::MAX,
    ensures
        res == looks_left(is_dir, modified, now, grace_secs),
{
    if !is_dir {
        return false;
    }
    match modified {
        Some(m) => {
            let limit: i64 = #[verifier::truncate] (grace_secs as i64);
            trunc_secs(now - m) > limit as i128
        },
        None => false,
    }
}

/// It was left behind where no record of it exists; a record that could not be looked
/// for counts as there.
pub open spec fn is_left(may_be: bool, recorded: Option<bool>) -> bool {
    may_be && recorded == Some(false)
}

pub fn is_orphaned(may_be: bool, recorded: Option<bool>) -> (res: bool)
    ensures
        res == is_left(may_be, recorded),
{
    match recorded {
        Some(r) => may_be && !r,
        None => false,
    }
}

// ---------------------------------------------------------------- laws
/// A pool is in order exactly where its primary connector exists and so does its backup
/// connector, unless none is named; the primary connector is complained of first.
pub proof fn pools_need_their_connectors(connectors: Seq<String>, pool: PoolConfig)
    ensures
        ({
            let known = views(connectors);
            let backed = pool.backup_connector is Some && trimmed(
                pool.backup_connector->0@,
            ).len() > 0;
            let problem = pool_problem(connectors, pool);
            &&& problem is None <==> known.contains(pool.primary_connector@) && (backed
                ==> known.contains(pool.backup_connector->0@))
            &&& !known.contains(pool.primary_connector@) ==> problem == Some(
                "Primary connector "@ + pool.primary_connector@ + " not found"@,
            )
            &&& problem is Some && known.contains(pool.primary_connector@) ==> problem == Some(
                "Backup connector "@ + pool.backup_connector->0@ + " not found"@,
            )
        }),
{
}

/// A pool is made of the connectors that it names.
pub proof fn pools_are_made_of_their_connectors(pool: PoolConfig, plan: PoolPlan)
    requires
        is_plan_of(pool, plan),
    ensures
        plan.primary@ == pool.primary_connector@,
        plan.backup is Some ==> pool.backup_connector is Some && plan.backup->0@
            == pool.backup_connector->0@,
        plan.backup is None && pool.backup_connector is Some ==> trimmed(
            pool.backup_connector->0@,
        ).len() == 0,
{
}

/// Of pools of one name the last one stands.
pub proof fn the_last_pool_of_a_name_stands(
    pools: Seq<PoolConfig>,
    name: Seq<char>,
    n: int,
    i: int,
)
    requires
        0 <= i < n <= pools.len(),
        pools[i].name@ == name,
    ensures
        i <= last_named(pools, name, n) < n,
        pools[last_named(pools, name, n)].name@ == name,
    decreases n,
{
    if pools[n - 1].name@ != name {
        the_last_pool_of_a_name_stands(pools, name, n - 1, i);
    }
}

/// A name that no pool has is not found.
pub proof fn unknown_pools_are_not_found(pools: Seq<PoolConfig>, name: Seq<char>, n: int)
    requires
        n <= pools.len(),
        forall|i: int| 0 <= i < n ==> (#[trigger] pools[i]).name@ != name,
    ensures
        last_named(pools, name, n) == -1,
    decreases n,
{
    if n > 0 {
        unknown_pools_are_not_found(pools, name, n - 1);
    }
}

/// A role goes to the pool of the first policy that names the role and a pool that
/// exists; where there is none, to the default pool, where that exists.
pub proof fn roles_go_where_their_policy_says(
    hub: VfsStorageHub,
    role_id: Seq<char>,
    name: Seq<char>,
    i: int,
)
    requires
        hub.is_role_route(role_id, name),
    ensures
        hub@.contains_key(name),
        policy_routes(hub.rules(), hub@, role_id, i) <==> {
            &&& 0 <= i < hub.rules().len()
            &&& hub.rules()[i].role_id is Some
            &&& hub.rules()[i].role_id->0@ == role_id
            &&& hub.rules()[i].pool_name is Some
            &&& hub@.contains_key(hub.rules()[i].pool_name->0@)
        },
        policy_routes(hub.rules(), hub@, role_id, i) && (forall|j: int|
            0 <= j < i ==> !policy_routes(hub.rules(), hub@, role_id, j)) ==> name
            == hub.rules()[i].pool_name->0@,
        (forall|j: int| !policy_routes(hub.rules(), hub@, role_id, j)) && hub.fallback() is Some
            && trimmed(hub.fallback()->0@).len() > 0 && hub@.contains_key(hub.fallback()->0@) ==> name
            == hub.fallback()->0@,
{
}

/// A new user may use what is recorded of the role; else what the first policy for the
/// role says; else nothing.
pub proof fn the_role_decides_the_quota(
    hub: VfsStorageHub,
    role_id: Seq<char>,
    role_quota: Option<i64>,
    quota: i64,
    i: int,
)
    requires
        hub.quota_for(role_id, role_quota, quota),
    ensures
        role_quota is Some ==> quota == role_quota->0,
        role_quota is None && 0 <= i < hub.rules().len() && names_role(hub.rules()[i], role_id)
            && (forall|j: int| 0 <= j < i ==> !names_role(#[trigger] hub.rules()[j], role_id))
            ==> quota == hub.rules()[i].default_quota,
        role_quota is None && (forall|j: int|
            0 <= j < hub.rules().len() ==> !names_role(#[trigger] hub.rules()[j], role_id)) ==> quota
            == 0,
        0 <= i < hub.rules().len() ==> (names_role(hub.rules()[i], role_id)
            <==> hub.rules()[i].role_id is Some && hub.rules()[i].role_id->0@ == role_id),
{
}

/// Digits write a number in base ten, the highest first.
pub proof fn digits_write_numbers_in_base_ten(s: Seq<char>, d: char)
    requires
        '0' <= d <= '9',
    ensures
        digits_value(s.push(d)) == 10 * digits_value(s) + (d as int - 48),
        digits_value(Seq::empty()) == 0,
        digits_value(seq![d]) == d as int - 48,
{
    assert(s.push(d).drop_last() =~= s);
    assert(seq![d].drop_last() =~= Seq::<char>::empty());
}

/// A role is a number where it is written in digits, perhaps with a sign before them,
/// and the number is not too large.
pub proof fn roles_may_be_numbers(digits: Seq<char>)
    requires
        digits.len() > 0,
        forall|i: int| 0 <= i < digits.len() ==> '0' <= #[trigger] digits[i] <= '9',
    ensures
        ({
            let n = digits_value(digits);
            &&& n <= 32767 ==> role_number(digits) == Some(n as i16) && role_number(
                seq!['+'] + digits,
            ) == Some(n as i16)
            &&& n > 32767 ==> role_number(digits) is None
            &&& n <= 32768 ==> role_number(seq!['-'] + digits) == Some((-n) as i16)
            &&& n > 32768 ==> role_number(seq!['-'] + digits) is None
            &&& role_number(digits.push(' ')) is None
            &&& role_number(Seq::empty()) is None
        }),
{
    assert('0' <= digits[0] <= '9');
    assert(all_digits(digits));
    assert((seq!['+'] + digits).skip(1) =~= digits);
    assert((seq!['-'] + digits).skip(1) =~= digits);
    let spaced = digits.push(' ');
    assert(spaced[0] == digits[0]);
    assert(!is_digit(spaced[digits.len() as int]));
}

/// An upload is too old once it has lasted a whole second longer than it may.
pub proof fn uploads_expire_after_their_time(
    created: (i64, u32),
    now: (i64, u32),
    max_age_secs: u64,
)
    requires
        created.1 < 1_000_000_000,
        now.1 < 1_000_000_000,
        max_age_secs <= i64::MAX,
    ensures
        is_expired_upload(Some(created), now, max_age_secs) <==> (now.0 - created.0)
            * 1_000_000_000 + now.1 - created.1 >= (max_age_secs + 1) * 1_000_000_000,
        !is_expired_upload(None, now, max_age_secs),
{
}

/// Only a directory that has not been touched for longer than the grace period, and
/// that is known not to be recorded, counts as left behind.
pub proof fn what_is_recorded_is_not_left_behind(
    is_dir: bool,
    modified: Option<TimeNanos>,
    now: TimeNanos,
    grace_secs: u64,
    recorded: Option<bool>,
)
    requires
        grace_secs <= i64::MAX,
    ensures
        is_left(looks_left(is_dir, modified, now, grace_secs), recorded) <==> {
            &&& is_dir
            &&& modified is Some
            &&& now - modified->0 >= (grace_secs + 1) * 1_000_000_000
            &&& recorded == Some(false)
        },
{
}

/// A new user gets a directory of the user's own, the pool of the role, and the quota of
/// the role; what is recorded of a role counts only where the role is a number.
pub proof fn new_users_get_what_their_role_gives(
    hub: VfsStorageHub,
    user_id: Seq<char>,
    role_id: Seq<char>,
    role_quota: Option<i64>,
    row: NewUserSettings,
)
    requires
        hub.is_for_new_user(user_id, role_id, role_quota, row),
    ensures
        row.base_dir@ == "/users/"@ + user_id,
        hub.is_role_route(role_id, row.pool_name@),
        role_number(role_id) is Some && role_quota is Some ==> row.quota == role_quota->0,
        role_number(role_id) is None || role_quota is None ==> hub.quota_for(
            role_id,
            None,
            row.quota,
        ),
{
}

} // verus!
