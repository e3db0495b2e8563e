//! Bounded read cache: admission, expiry and eviction of the least recently used.
use crate::cache::policy::CachePathPolicy;
use crate::ledger::Ledger;
use crate::protected::digest::{hex_encode, hex_text, sha256, sha256_digest};
use crate::scoped::quota::{clamp_i64, sat_sub};
use crate::text::{concat2, text_eq};
use crate::weights::{sum_insert, sum_of_empty, sum_remove, weight_sum};
use vstd::prelude::*;
use vstd::utf8::encode_utf8;

verus! {

/// A cached item: its size and times, and what is cached.
pub struct ReadCacheEntry<P> {
    pub size: u64,
    pub last_accessed_at: i64,
    pub expires_at: i64,
    pub payload: P,
}

pub open spec fn entry_sizes<P>(m: Map<Seq<char>, ReadCacheEntry<P>>) -> Map<Seq<char>, nat> {
    m.map_values(|e: ReadCacheEntry<P>| e.size as nat)
}

/// Bytes that the entries take.
pub open spec fn bytes_of<P>(m: Map<Seq<char>, ReadCacheEntry<P>>) -> nat {
    weight_sum(entry_sizes(m))
}

/// How the cache is set up.
pub struct ReadCacheConfig {
    pub enabled: bool,
    /// Where payloads are kept: `memory`, or else files in a directory.
    pub backend: String,
    pub capacity_bytes: u64,
    pub max_file_size_bytes: u64,
    pub ttl_secs: u64,
    pub cache_thumbnail_paths: bool,
    pub skip_extensions: Vec<String>,
}

/// The cache.
pub struct ReadCacheManager<P> {
    enabled: bool,
    in_memory: bool,
    capacity_bytes: u64,
    max_file_size_bytes: u64,
    ttl_secs: u64,
    cleanup_interval_secs: u64,
    policy: CachePathPolicy,
    entries: Ledger<ReadCacheEntry<P>>,
    accounted_bytes: u64,
    last_cleanup_ts: i64,
}

/// A quarter of the lifetime, at least one second and at most a minute.
pub open spec fn cleanup_interval(ttl_secs: u64) -> int {
    let q = ttl_secs as int / 4;
    if q < 1 {
        1
    } else if q > 60 {
        60
    } else {
        q
    }
}

/// What is left of `m` when everything that has expired is taken out.
pub open spec fn unexpired<P>(m: Map<Seq<char>, ReadCacheEntry<P>>, now: i64) -> Map<
    Seq<char>,
    ReadCacheEntry<P>,
> {
    m.restrict(Set::new(|k: Seq<char>| m.contains_key(k) && m[k].expires_at > now))
}

/// `kept` comes out of `base` by dropping least recently used entries, no more of
/// them than it takes for `required` bytes to fit into `capacity`.
pub open spec fn evicted_to_fit<P>(
    base: Map<Seq<char>, ReadCacheEntry<P>>,
    kept: Map<Seq<char>, ReadCacheEntry<P>>,
    required: nat,
    capacity: nat,
) -> bool {
    &&& kept.submap_of(base)
    &&& bytes_of(kept) + required <= capacity
    &&& forall|a: Seq<char>, b: Seq<char>|
        base.contains_key(a) && !kept.contains_key(a) && kept.contains_key(b)
            ==> #[trigger] base[a].last_accessed_at <= #[trigger] base[b].last_accessed_at
    &&& kept.dom() != base.dom() ==> exists|a: Seq<char>|
        {
            &&& base.contains_key(a) && !kept.contains_key(a)
            &&& bytes_of(kept) + (#[trigger] base[a]).size + required > capacity
            &&& forall|c: Seq<char>|
                base.contains_key(c) && !kept.contains_key(c)
                    ==> (#[trigger] base[c]).last_accessed_at <= base[a].last_accessed_at
        }
}

/// `keys` are the keys that `before` has and `after` has not, each once, and `gone` is
/// what `before` holds under them.
pub open spec fn lists_taken<P>(
    before: Map<Seq<char>, ReadCacheEntry<P>>,
    after: Map<Seq<char>, ReadCacheEntry<P>>,
    keys: Seq<Seq<char>>,
    gone: Seq<P>,
) -> bool {
    &&& keys.no_duplicates()
    &&& keys.len() == gone.len()
    &&& forall|i: int|
        0 <= i < keys.len() ==> before.contains_key(#[trigger] keys[i]) && !after.contains_key(
            keys[i],
        ) && gone[i] == before[keys[i]].payload
    &&& forall|k: Seq<char>| #[trigger]
        before.contains_key(k) && !after.contains_key(k) ==> keys.contains(k)
}

/// `gone` is all that `before` holds under keys that `after` has not, each item once.
pub open spec fn hands_back<P>(
    before: Map<Seq<char>, ReadCacheEntry<P>>,
    after: Map<Seq<char>, ReadCacheEntry<P>>,
    gone: Seq<P>,
) -> bool {
    exists|keys: Seq<Seq<char>>| lists_taken(before, after, keys, gone)
}

/// Taking out one more key hands back one more item.
proof fn one_more_taken<P>(
    before: Map<Seq<char>, ReadCacheEntry<P>>,
    after: Map<Seq<char>, ReadCacheEntry<P>>,
    gone: Seq<P>,
    key: Seq<char>,
)
    requires
        hands_back(before, after, gone),
        before.contains_key(key),
        after.contains_key(key),
    ensures
        hands_back(before, after.remove(key), gone.push(before[key].payload)),
{
    let keys = choose|keys: Seq<Seq<char>>| lists_taken(before, after, keys, gone);
    let more = keys.push(key);
    let rest = after.remove(key);
    assert forall|k: Seq<char>| #[trigger]
        before.contains_key(k) && !rest.contains_key(k) implies more.contains(k) by {
        if k == key {
            assert(more[keys.len() as int] == k);
        } else {
            assert(keys.contains(k));
            let i = choose|i: int| 0 <= i < keys.len() && keys[i] == k;
            assert(more[i] == k);
        }
    }
    assert(lists_taken(before, rest, more, gone.push(before[key].payload)));
}

/// What two steps hand back is what both together take out.
proof fn taken_in_two_steps<P>(
    before: Map<Seq<char>, ReadCacheEntry<P>>,
    middle: Map<Seq<char>, ReadCacheEntry<P>>,
    after: Map<Seq<char>, ReadCacheEntry<P>>,
    first: Seq<P>,
    second: Seq<P>,
)
    requires
        hands_back(before, middle, first),
        hands_back(middle, after, second),
        middle.submap_of(before),
        after.submap_of(middle),
    ensures
        hands_back(before, after, first + second),
{
    let a = choose|keys: Seq<Seq<char>>| lists_taken(before, middle, keys, first);
    let b = choose|keys: Seq<Seq<char>>| lists_taken(middle, after, keys, second);
    let all = a + b;
    let gone = first + second;
    assert forall|i: int| 0 <= i < all.len() implies before.contains_key(#[trigger] all[i])
        && !after.contains_key(all[i]) && gone[i] == before[all[i]].payload by {
        if i < a.len() {
            assert(all[i] == a[i]);
            if after.contains_key(a[i]) {
                assert(middle.contains_key(a[i]));
            }
        } else {
            assert(all[i] == b[i - a.len()]);
            assert(middle.contains_key(all[i]));
        }
    }
    assert forall|k: Seq<char>| #[trigger]
        before.contains_key(k) && !after.contains_key(k) implies all.contains(k) by {
        if middle.contains_key(k) {
            assert(b.contains(k));
            let i = choose|i: int| 0 <= i < b.len() && b[i] == k;
            assert(all[a.len() + i] == k);
        } else {
            assert(a.contains(k));
            let i = choose|i: int| 0 <= i < a.len() && a[i] == k;
            assert(all[i] == k);
        }
    }
    assert(all.no_duplicates()) by {
        assert forall|i: int, j: int|
            0 <= i < all.len() && 0 <= j < all.len() && i != j implies all[i] != all[j] by {
            if i < a.len() && j >= a.len() {
                assert(!middle.contains_key(a[i]) && middle.contains_key(b[j - a.len()]));
            } else if i >= a.len() && j < a.len() {
                assert(!middle.contains_key(a[j]) && middle.contains_key(b[i - a.len()]));
            }
        }
    }
    assert(lists_taken(before, after, all, gone));
}

/// Where nothing is taken out, nothing is handed back.
proof fn nothing_taken<P>(m: Map<Seq<char>, ReadCacheEntry<P>>)
    ensures
        hands_back(m, m, Seq::<P>::empty()),
{
    assert(lists_taken(m, m, Seq::<Seq<char>>::empty(), Seq::<P>::empty()));
}

impl<P> ReadCacheManager<P> {
    pub closed spec fn on(self) -> bool {
        self.enabled
    }

    pub closed spec fn keeps_in_memory(self) -> bool {
        self.in_memory
    }

    pub closed spec fn capacity(self) -> u64 {
        self.capacity_bytes
    }

    pub closed spec fn max_size(self) -> u64 {
        self.max_file_size_bytes
    }

    pub closed spec fn ttl(self) -> u64 {
        self.ttl_secs
    }

    pub closed spec fn rules(self) -> CachePathPolicy {
        self.policy
    }

    pub closed spec fn last_cleanup(self) -> i64 {
        self.last_cleanup_ts
    }

    pub closed spec fn interval(self) -> int {
        self.cleanup_interval_secs as int
    }

    /// What is cached, by key.
    pub closed spec fn view(self) -> Map<Seq<char>, ReadCacheEntry<P>> {
        self.entries@
    }

    pub closed spec fn accounted(self) -> u64 {
        self.accounted_bytes
    }

    /// Bytes that are accounted for beyond those of the entries: an item that is taken
    /// up in place of another is added to it.
    pub open spec fn excess(self) -> int {
        self.accounted() - bytes_of(self@)
    }

    /// Bytes that entries can take.
    pub open spec fn room(self) -> int {
        self.capacity() - self.excess()
    }

    /// The bytes accounted for are at least those of the entries.
    pub closed spec fn wf(self) -> bool {
        &&& self.entries.wf()
        &&& self.entries@.dom().finite()
        &&& self.accounted_bytes as nat >= bytes_of(self.entries@)
        &&& self.cleanup_interval_secs == cleanup_interval(self.ttl_secs)
    }

    /// Only finitely much is cached, and it is accounted for.
    pub proof fn entries_are_finite(self)
        requires
            self.wf(),
        ensures
            self@.dom().finite(),
            self.excess() >= 0,
    {
    }

    /// Everything but the entries, the accounting and the time of the last cleanup is
    /// as in `other`.
    pub open spec fn same_setup(self, other: ReadCacheManager<P>) -> bool {
        &&& self.on() == other.on()
        &&& self.keeps_in_memory() == other.keeps_in_memory()
        &&& self.capacity() == other.capacity()
        &&& self.max_size() == other.max_size()
        &&& self.ttl() == other.ttl()
        &&& self.rules() == other.rules()
        &&& self.interval() == other.interval()
    }

    /// An item of this size may be cached under this path.
    pub open spec fn accepts(self, path: Seq<char>, size: u64) -> bool {
        &&& self.on()
        &&& self.rules().admits(path)
        &&& 0 < size <= self.max_size()
        &&& size <= self.capacity()
    }

    pub fn new(config: &ReadCacheConfig) -> (res: ReadCacheManager<P>)
        ensures
            res.wf(),
            res@ == Map::<Seq<char>, ReadCacheEntry<P>>::empty(),
            res.accounted() == 0,
            res.excess() == 0,
            res.on() == config.enabled,
            res.keeps_in_memory() == (config.backend@ == "memory"@),
            res.capacity() == config.capacity_bytes,
            res.max_size() == config.max_file_size_bytes,
            res.ttl() == config.ttl_secs,
            res.interval() == cleanup_interval(config.ttl_secs),
            res.last_cleanup() == 0,
            res.rules().thumbnails_allowed() == config.cache_thumbnail_paths,
            forall|ext: Seq<char>| #[trigger]
                res.rules().skips(ext) <==> exists|i: int|
                    0 <= i < config.skip_extensions@.len()
                        && crate::cache::policy::normal_extension(
                        (#[trigger] config.skip_extensions@[i])@,
                    ) == ext,
    {
        let quarter: u64 = config.ttl_secs / 4;
        let interval: u64 = if quarter < 1 {
            1
        } else if quarter > 60 {
            60
        } else {
            quarter
        };
        let entries: Ledger<ReadCacheEntry<P>> = Ledger::new();
        proof {
            assert(entry_sizes(entries@).dom() =~= Set::<Seq<char>>::empty());
            sum_of_empty(entry_sizes(entries@));
        }
        ReadCacheManager {
            enabled: config.enabled,
            in_memory: text_eq(config.backend.as_str(), "memory"),
            capacity_bytes: config.capacity_bytes,
            max_file_size_bytes: config.max_file_size_bytes,
            ttl_secs: config.ttl_secs,
            cleanup_interval_secs: interval,
            policy: CachePathPolicy::new(config.cache_thumbnail_paths, &config.skip_extensions),
            entries,
            accounted_bytes: 0,
            last_cleanup_ts: 0,
        }
    }

    pub fn is_enabled(&self) -> (res: bool)
        ensures
            res == self.on(),
    {
        self.enabled
    }

    /// Bytes of the cache's capacity that are taken.
    pub fn accounted_bytes(&self) -> (res: u64)
        ensures
            res == self.accounted(),
    {
        self.accounted_bytes
    }

    pub fn is_in_memory(&self) -> (res: bool)
        ensures
            res == self.keeps_in_memory(),
    {
        self.in_memory
    }

    pub fn should_cache(&self, path: &str, size: u64) -> (res: bool)
        ensures
            res == self.accepts(path@, size),
    {
        self.enabled && self.policy.allows(path) && size > 0 && size <= self.max_file_size_bytes
            && size <= self.capacity_bytes
    }

    /// What is cached under the key, whether expired or not.
    pub fn peek(&self, key: &str) -> (res: Option<&P>)
        requires
            self.wf(),
        ensures
            match res {
                Some(p) => self@.contains_key(key@) && *p == self@[key@].payload,
                None => !self@.contains_key(key@),
            },
    {
        match self.entries.get(key) {
            Some(e) => Some(&e.payload),
            None => None,
        }
    }

    /// Take the key out of the cache; what was cached, where there was something.
    pub fn remove(&mut self, key: &str) -> (res: Option<P>)
        requires
            old(self).wf(),
        ensures
            final(self).wf(),
            final(self).same_setup(*old(self)),
            final(self).last_cleanup() == old(self).last_cleanup(),
            final(self)@ == old(self)@.remove(key@),
            final(self).excess() == old(self).excess(),
            match res {
                Some(p) => old(self)@.contains_key(key@) && p == old(self)@[key@].payload,
                None => !old(self)@.contains_key(key@),
            },
    {
        let ghost before = self.entries@;
        match self.entries.remove(key) {
            Some(e) => {
                proof {
                    sizes_remove(before, key@);
                }
                self.accounted_bytes = self.accounted_bytes - e.size;
                Some(e.payload)
            },
            None => {
                assert(before.remove(key@) =~= before);
                None
            },
        }
    }

    /// Look a key up at the time `now`. A hit marks the entry as used; an expired
    /// entry is taken out and handed back.
    pub fn get(&mut self, key: &str, now: i64) -> (res: (bool, Option<P>))
        requires
            old(self).wf(),
        ensures
            final(self).wf(),
            final(self).same_setup(*old(self)),
            final(self).last_cleanup() == old(self).last_cleanup(),
            final(self).excess() == old(self).excess(),
            ({
                let usable = old(self).on() && old(self).rules().admits(key@) && old(
                    self,
                )@.contains_key(key@);
                let entry = old(self)@[key@];
                if !usable {
                    res == (false, None::<P>) && final(self)@ == old(self)@
                } else if entry.expires_at <= now {
                    res == (false, Some(entry.payload)) && final(self)@ == old(self)@.remove(key@)
                } else {
                    res == (true, None::<P>) && final(self)@ == old(self)@.insert(
                        key@,
                        (ReadCacheEntry { last_accessed_at: now, ..entry }),
                    )
                }
            }),
    {
        if !self.enabled || !self.policy.allows(key) {
            return (false, None);
        }
        let expired: bool = match self.entries.get(key) {
            Some(e) => e.expires_at <= now,
            None => return (false, None),
        };
        if expired {
            let gone: Option<P> = self.remove(key);
            return (false, gone);
        }
        let ghost before = self.entries@;
        match self.entries.remove(key) {
            Some(e) => {
                let touched: ReadCacheEntry<P> = ReadCacheEntry {
                    size: e.size,
                    last_accessed_at: now,
                    expires_at: e.expires_at,
                    payload: e.payload,
                };
                self.entries.insert(key, touched);
                proof {
                    sizes_remove(before, key@);
                    sizes_insert(before.remove(key@), key@, touched);
                    assert(before.remove(key@).insert(key@, touched) =~= before.insert(
                        key@,
                        touched,
                    ));
                }
                (true, None)
            },
            None => (false, None),
        }
    }

    /// Take out everything that has expired, where forced or due, and hand it back.
    pub fn cleanup_expired_if_due(&mut self, now: i64, force: bool) -> (res: Vec<P>)
        requires
            old(self).wf(),
        ensures
            final(self).wf(),
            final(self).same_setup(*old(self)),
            final(self).excess() == old(self).excess(),
            hands_back(old(self)@, final(self)@, res@),
            ({
                let due = force || clamp_i64(now - old(self).last_cleanup()) >= old(
                    self,
                ).interval();
                if due {
                    final(self)@ == unexpired(old(self)@, now) && final(self).last_cleanup() == now
                } else {
                    final(self)@ == old(self)@ && final(self).last_cleanup() == old(
                        self,
                    ).last_cleanup() && res@.len() == 0
                }
            }),
    {
        let mut gone: Vec<P> = Vec::new();
        proof {
            nothing_taken(self@);
        }
        if !force && sat_sub(now, self.last_cleanup_ts) < self.cleanup_interval_secs as i64 {
            return gone;
        }
        self.last_cleanup_ts = now;
        let keys: Vec<String> = self.entries.keys();
        let ghost before = self.entries@;
        let ghost this = *self;
        proof {
            self.entries.order_lists_keys();
        }
        let mut i: usize = 0;
        while i < keys.len()
            invariant
                i <= keys@.len(),
                self.wf(),
                self.same_setup(this),
                self.last_cleanup() == now,
                self.excess() == this.excess(),
                hands_back(before, self@, gone@),
                forall|k: Seq<char>| #[trigger]
                    before.contains_key(k) ==> crate::text::views(keys@).contains(k),
                forall|k: Seq<char>| #[trigger]
                    self@.contains_key(k) ==> before.contains_key(k) && self@[k] == before[k],
                forall|k: Seq<char>| #[trigger]
                    before.contains_key(k) && before[k].expires_at > now ==> self@.contains_key(k),
                forall|j: int|
                    0 <= j < i ==> (before[#[trigger] keys@[j]@].expires_at <= now
                        ==> !self@.contains_key(keys@[j]@)),
            decreases keys@.len() - i,
        {
            let ghost prior = self@;
            let expired: bool = match self.entries.get(keys[i].as_str()) {
                Some(e) => e.expires_at <= now,
                None => false,
            };
            if expired {
                proof {
                    one_more_taken(before, prior, gone@, keys@[i as int]@);
                }
                match self.remove(keys[i].as_str()) {
                    Some(p) => gone.push(p),
                    None => {},
                }
            }
            proof {
                assert(self@ == prior || self@ == prior.remove(keys@[i as int]@));
                assert forall|k: Seq<char>| #[trigger] self@.contains_key(k) implies before.contains_key(
                    k,
                ) && self@[k] == before[k] by {
                    assert(prior.contains_key(k));
                    assert(prior[k] == self@[k]);
                }
            }
            i += 1;
        }
        proof {
            assert forall|k: Seq<char>| #[trigger] self@.contains_key(k) implies unexpired(
                before,
                now,
            ).contains_key(k) by {
                assert(before.contains_key(k));
                let all = crate::text::views(keys@);
                let j = choose|j: int| 0 <= j < all.len() && all[j] == k;
                assert(keys@[j]@ == k);
            }
            assert(self@ =~= unexpired(before, now));
        }
        gone
    }

    /// Key of an entry that was used least recently.
    fn oldest_key(&self) -> (res: Option<String>)
        requires
            self.wf(),
        ensures
            match res {
                Some(k) => self@.contains_key(k@) && forall|b: Seq<char>| #[trigger]
                    self@.contains_key(b) ==> self@[k@].last_accessed_at
                        <= self@[b].last_accessed_at,
                None => self@.dom() == Set::<Seq<char>>::empty(),
            },
    {
        let n: usize = self.entries.len();
        proof {
            self.entries.order_lists_keys();
        }
        if n == 0 {
            assert(self@.dom() =~= Set::<Seq<char>>::empty());
            return None;
        }
        let mut best: usize = 0;
        let mut i: usize = 1;
        while i < n
            invariant
                self.wf(),
                n == self.entries.order().len(),
                best < i <= n,
                forall|j: int|
                    0 <= j < n ==> self.entries@.contains_key(#[trigger] self.entries.order()[j]),
                forall|j: int|
                    0 <= j < i ==> self.entries@[self.entries.order()[best as int]].last_accessed_at
                        <= self.entries@[#[trigger] self.entries.order()[j]].last_accessed_at,
            decreases n - i,
        {
            let (_, a) = self.entries.entry(best);
            let (_, b) = self.entries.entry(i);
            if b.last_accessed_at < a.last_accessed_at {
                best = i;
            }
            i += 1;
        }
        let (key, _) = self.entries.entry(best);
        proof {
            assert forall|b: Seq<char>| #[trigger] self@.contains_key(b) implies self@[key@].last_accessed_at
                <= self@[b].last_accessed_at by {
                assert(self.entries.order().contains(b));
                let j = choose|j: int|
                    0 <= j < self.entries.order().len() && self.entries.order()[j] == b;
                assert(self.entries.order()[j] == b);
            }
        }
        Some(key.to_owned())
    }

    /// Make room for `required` bytes: what has expired goes first, then what was
    /// used least recently, until they fit.
    pub fn ensure_capacity(&mut self, required: u64, now: i64) -> (res: (bool, Vec<P>))
        requires
            old(self).wf(),
        ensures
            final(self).wf(),
            final(self).same_setup(*old(self)),
            final(self).last_cleanup() == now,
            final(self).excess() == old(self).excess(),
            res.0 == (required <= old(self).room()),
            hands_back(old(self)@, final(self)@, res.1@),
            if required <= old(self).room() {
                evicted_to_fit(
                    unexpired(old(self)@, now),
                    final(self)@,
                    required as nat,
                    old(self).room() as nat,
                )
            } else {
                final(self)@ == Map::<Seq<char>, ReadCacheEntry<P>>::empty()
            },
    {
        let mut gone: Vec<P> = self.cleanup_expired_if_due(now, true);
        let ghost whole = old(self)@;
        let ghost base = self@;
        let ghost this = *self;
        let ghost mut last: Option<Seq<char>> = None;
        let mut fits: bool = false;
        loop
            invariant_except_break
                !fits,
            invariant
                self.wf(),
                self.same_setup(this),
                self.last_cleanup() == now,
                self.excess() == this.excess(),
                base.submap_of(whole),
                hands_back(whole, self@, gone@),
                forall|k: Seq<char>| #[trigger]
                    self@.contains_key(k) ==> base.contains_key(k) && self@[k] == base[k],
                base.dom().finite(),
                forall|a: Seq<char>, b: Seq<char>|
                    base.contains_key(a) && !self@.contains_key(a) && self@.contains_key(b)
                        ==> #[trigger] base[a].last_accessed_at
                        <= #[trigger] base[b].last_accessed_at,
                self@.dom() != base.dom() ==> last is Some,
                last matches Some(a) ==> {
                    &&& base.contains_key(a) && !self@.contains_key(a)
                    &&& bytes_of(self@) + base[a].size + required > self.room()
                    &&& forall|c: Seq<char>|
                        base.contains_key(c) && !self@.contains_key(c)
                            ==> (#[trigger] base[c]).last_accessed_at <= base[a].last_accessed_at
                },
            ensures
                self.wf(),
                self.same_setup(this),
                self.last_cleanup() == now,
                self.excess() == this.excess(),
                hands_back(whole, self@, gone@),
                required <= self.room() ==> fits && evicted_to_fit(
                    base,
                    self@,
                    required as nat,
                    self.room() as nat,
                ),
                required > self.room() ==> !fits && self@.dom() == Set::<Seq<char>>::empty(),
            decreases self.entries@.len(),
        {
            if self.accounted_bytes <= self.capacity_bytes && required <= self.capacity_bytes
                - self.accounted_bytes {
                assert(evicted_to_fit(base, self@, required as nat, self.room() as nat)) by {
                    if self@.dom() != base.dom() {
                        let a = last->0;
                        assert(bytes_of(self@) + base[a].size + required > self.room());
                    }
                }
                fits = true;
                break ;
            }
            match self.oldest_key() {
                Some(key) => {
                    let ghost before = self@;
                    proof {
                        assert(before.contains_key(key@));
                        assert(base.dom().contains(key@) && before[key@] == base[key@]);
                        assert(whole.dom().contains(key@));
                        assert(whole[key@] == base[key@]);
                        one_more_taken(whole, before, gone@, key@);
                    }
                    match self.remove(key.as_str()) {
                        Some(p) => gone.push(p),
                        None => {},
                    }
                    proof {
                        sizes_remove(before, key@);
                        last = Some(key@);
                        assert(before.remove(key@).dom() =~= before.dom().remove(key@));
                        assert(self@ == before.remove(key@));
                        assert forall|k: Seq<char>| #[trigger] self@.contains_key(k) implies base.contains_key(
                            k,
                        ) && self@[k] == base[k] by {
                            assert(before.contains_key(k));
                        }
                        assert forall|a: Seq<char>, b: Seq<char>|
                            base.contains_key(a) && !self@.contains_key(a) && self@.contains_key(
                                b,
                            ) implies #[trigger] base[a].last_accessed_at
                            <= #[trigger] base[b].last_accessed_at by {
                            assert(before.contains_key(b));
                            if a == key@ {
                                assert(before[a] == base[a]);
                                assert(before[b] == base[b]);
                            }
                        }
                        assert forall|c: Seq<char>|
                            base.contains_key(c) && !self@.contains_key(c) implies (
                        #[trigger] base[c]).last_accessed_at <= base[key@].last_accessed_at by {
                            if c != key@ {
                                assert(!before.contains_key(c));
                                assert(before.contains_key(key@));
                            }
                        }
                    }
                },
                None => {
                    proof {
                        assert(entry_sizes(self@).dom() =~= Set::<Seq<char>>::empty());
                        sum_of_empty(entry_sizes(self@));
                    }
                    break ;
                },
            }
        }
        proof {
            if !fits {
                assert(self@ =~= Map::<Seq<char>, ReadCacheEntry<P>>::empty());
            }
        }
        (fits, gone)
    }

    /// Prepare the cache for an item: an earlier one under the same key goes, then
    /// room is made. Tells whether the item may be stored, and hands back what was
    /// taken out.
    pub fn make_room(&mut self, key: &str, size: u64, now: i64) -> (res: (bool, Vec<P>))
        requires
            old(self).wf(),
        ensures
            final(self).wf(),
            final(self).same_setup(*old(self)),
            final(self).excess() == old(self).excess(),
            res.0 == (old(self).accepts(key@, size) && size <= old(self).room()),
            hands_back(old(self)@, final(self)@, res.1@),
            final(self).last_cleanup() == if old(self).accepts(key@, size) {
                now
            } else {
                old(self).last_cleanup()
            },
            if res.0 {
                &&& !final(self)@.contains_key(key@)
                &&& evicted_to_fit(
                    unexpired(old(self)@.remove(key@), now),
                    final(self)@,
                    size as nat,
                    old(self).room() as nat,
                )
            } else if old(self).accepts(key@, size) {
                final(self)@ == Map::<Seq<char>, ReadCacheEntry<P>>::empty()
            } else {
                final(self)@ == old(self)@ && res.1@.len() == 0
            },
    {
        proof {
            nothing_taken(self@);
        }
        if !self.should_cache(key, size) {
            return (false, Vec::new());
        }
        let ghost start = self@;
        let mut gone: Vec<P> = Vec::new();
        proof {
            if start.contains_key(key@) {
                one_more_taken(start, start, gone@, key@);
            } else {
                assert(start.remove(key@) =~= start);
            }
        }
        match self.remove(key) {
            Some(p) => gone.push(p),
            None => {},
        }
        let ghost bare = self@;
        let ghost first = gone@;
        let mut expired: Vec<P> = self.cleanup_expired_if_due(now, false);
        assert(unexpired(self@, now) =~= unexpired(bare, now));
        let ghost swept = self@;
        proof {
            taken_in_two_steps(start, bare, swept, first, expired@);
        }
        gone.append(&mut expired);
        let ghost second = gone@;
        let (room, mut evicted): (bool, Vec<P>) = self.ensure_capacity(size, now);
        proof {
            let left = unexpired(swept, now);
            assert(left.submap_of(swept));
            assert forall|k: Seq<char>| #[trigger] self@.dom().contains(k) implies swept.dom().contains(
                k,
            ) && self@[k] == swept[k] by {
                assert(left.dom().contains(k));
            }
            taken_in_two_steps(start, swept, self@, second, evicted@);
        }
        gone.append(&mut evicted);
        assert(!self@.contains_key(key@)) by {
            if self@.contains_key(key@) {
                assert(unexpired(bare, now).contains_key(key@));
            }
        }
        (room, gone)
    }

    /// Store an item for which room was made.
    pub fn store(&mut self, key: &str, size: u64, payload: P, now: i64)
        requires
            old(self).wf(),
            !old(self)@.contains_key(key@),
            old(self).accounted() + size <= old(self).capacity(),
            old(self).ttl() <= i64::MAX,
            now + old(self).ttl() <= i64::MAX,
        ensures
            final(self).wf(),
            final(self).same_setup(*old(self)),
            final(self).last_cleanup() == old(self).last_cleanup(),
            final(self)@ == old(self)@.insert(
                key@,
                (ReadCacheEntry {
                    size,
                    last_accessed_at: now,
                    expires_at: (now + old(self).ttl()) as i64,
                    payload,
                }),
            ),
            final(self).excess() == old(self).excess(),
            final(self).accounted() <= final(self).capacity(),
    {
        let ghost before = self.entries@;
        let expires_at: i64 = now + self.ttl_secs as i64;
        let entry: ReadCacheEntry<P> = ReadCacheEntry {
            size,
            last_accessed_at: now,
            expires_at,
            payload,
        };
        self.entries.insert(key, entry);
        self.accounted_bytes = self.accounted_bytes + size;
        proof {
            sizes_insert(before, key@, entry);
        }
    }

    /// Cache an item where it is accepted. Tells whether it was, and hands back what
    /// was taken out.
    pub fn put(&mut self, key: &str, size: u64, payload: P, now: i64) -> (res: (bool, Vec<P>))
        requires
            old(self).wf(),
            old(self).ttl() <= i64::MAX,
            now + old(self).ttl() <= i64::MAX,
        ensures
            final(self).wf(),
            final(self).same_setup(*old(self)),
            final(self).excess() == old(self).excess(),
            res.0 == (old(self).accepts(key@, size) && size <= old(self).room()),
            final(self).last_cleanup() == if old(self).accepts(key@, size) {
                now
            } else {
                old(self).last_cleanup()
            },
            if res.0 {
                &&& hands_back(old(self)@, final(self)@.remove(key@), res.1@)
                &&& final(self).accounted() <= final(self).capacity()
                &&& final(self)@.contains_key(key@)
                &&& final(self)@[key@] == (ReadCacheEntry {
                    size,
                    last_accessed_at: now,
                    expires_at: (now + old(self).ttl()) as i64,
                    payload,
                })
                &&& evicted_to_fit(
                    unexpired(old(self)@.remove(key@), now),
                    final(self)@.remove(key@),
                    size as nat,
                    old(self).room() as nat,
                )
            } else if old(self).accepts(key@, size) {
                &&& hands_back(old(self)@, final(self)@, res.1@)
                &&& final(self)@ == Map::<Seq<char>, ReadCacheEntry<P>>::empty()
            } else {
                final(self)@ == old(self)@ && res.1@.len() == 0
            },
    {
        let (room, gone): (bool, Vec<P>) = self.make_room(key, size, now);
        if room {
            let ghost kept = self@;
            self.store(key, size, payload, now);
            assert(self@.remove(key@) =~= kept);
        }
        (room, gone)
    }

    /// Take up an item that an earlier run left behind, unless it has expired. Its bytes
    /// are accounted for beside those of an item that it takes the place of.
    pub fn restore(
        &mut self,
        key: &str,
        size: u64,
        created_at: i64,
        expires_at: i64,
        payload: P,
        now: i64,
    ) -> (res: bool)
        requires
            old(self).wf(),
            old(self).accounted() + size <= u64::MAX,
        ensures
            final(self).wf(),
            final(self).same_setup(*old(self)),
            res == (old(self).on() && expires_at > now),
            final(self).last_cleanup() == old(self).last_cleanup(),
            final(self)@ == if old(self).on() && expires_at > now {
                old(self)@.insert(
                    key@,
                    (ReadCacheEntry { size, last_accessed_at: created_at, expires_at, payload }),
                )
            } else {
                old(self)@
            },
            final(self).accounted() == old(self).accounted() + if res {
                size as int
            } else {
                0
            },
            final(self).excess() == old(self).excess() + if res && old(self)@.contains_key(key@) {
                old(self)@[key@].size as int
            } else {
                0
            },
    {
        if !self.enabled || expires_at <= now {
            return false;
        }
        let ghost before = self@;
        let entry: ReadCacheEntry<P> = ReadCacheEntry {
            size,
            last_accessed_at: created_at,
            expires_at,
            payload,
        };
        self.entries.insert(key, entry);
        self.accounted_bytes = self.accounted_bytes + size;
        proof {
            let bare = before.remove(key@);
            if before.contains_key(key@) {
                sizes_remove(before, key@);
            } else {
                assert(bare =~= before);
            }
            sizes_insert(bare, key@, entry);
            assert(self@ =~= bare.insert(key@, entry));
        }
        true
    }
}

proof fn sizes_remove<P>(m: Map<Seq<char>, ReadCacheEntry<P>>, k: Seq<char>)
    requires
        m.dom().finite(),
        m.contains_key(k),
    ensures
        m.remove(k).dom().finite(),
        bytes_of(m) == bytes_of(m.remove(k)) + m[k].size,
{
    assert(entry_sizes(m).dom() =~= m.dom());
    sum_remove(entry_sizes(m), k);
    assert(entry_sizes(m.remove(k)) =~= entry_sizes(m).remove(k));
    assert(m.remove(k).dom() =~= m.dom().remove(k));
}

proof fn sizes_insert<P>(m: Map<Seq<char>, ReadCacheEntry<P>>, k: Seq<char>, e: ReadCacheEntry<P>)
    requires
        m.dom().finite(),
        !m.contains_key(k),
    ensures
        m.insert(k, e).dom().finite(),
        bytes_of(m.insert(k, e)) == bytes_of(m) + e.size,
{
    assert(entry_sizes(m).dom() =~= m.dom());
    sum_insert(entry_sizes(m), k, e.size as nat);
    assert(entry_sizes(m.insert(k, e)) =~= entry_sizes(m).insert(k, e.size as nat));
    assert(m.insert(k, e).dom() =~= m.dom().insert(k));
}

/// A part of the entries has no more bytes than all.
proof fn part_is_smaller<P>(
    part: Map<Seq<char>, ReadCacheEntry<P>>,
    all: Map<Seq<char>, ReadCacheEntry<P>>,
)
    requires
        all.dom().finite(),
        part.submap_of(all),
    ensures
        bytes_of(part) <= bytes_of(all),
    decreases all.dom().len(),
{
    if part.dom() =~= all.dom() {
        assert(part =~= all);
    } else {
        let k = choose|k: Seq<char>| all.dom().contains(k) && !part.dom().contains(k);
        let rest = all.remove(k);
        sizes_remove(all, k);
        assert(rest.dom() =~= all.dom().remove(k));
        assert(part.submap_of(rest));
        part_is_smaller(part, rest);
    }
}

/// Where everything that is cached fits beside `required` more bytes, nothing is
/// evicted.
pub proof fn nothing_is_evicted_where_all_fits<P>(
    base: Map<Seq<char>, ReadCacheEntry<P>>,
    kept: Map<Seq<char>, ReadCacheEntry<P>>,
    required: nat,
    capacity: nat,
)
    requires
        base.dom().finite(),
        evicted_to_fit(base, kept, required, capacity),
        bytes_of(base) + required <= capacity,
    ensures
        kept == base,
{
    if kept.dom() != base.dom() {
        let a = choose|a: Seq<char>|
            {
                &&& base.contains_key(a) && !kept.contains_key(a)
                &&& bytes_of(kept) + (#[trigger] base[a]).size + required > capacity
                &&& forall|c: Seq<char>|
                    base.contains_key(c) && !kept.contains_key(c)
                        ==> (#[trigger] base[c]).last_accessed_at <= base[a].last_accessed_at
            };
        let more = kept.insert(a, base[a]);
        assert(kept.dom().subset_of(base.dom()));
        vstd::set_lib::lemma_set_subset_finite(base.dom(), kept.dom());
        sizes_insert(kept, a, base[a]);
        assert(more.submap_of(base));
        part_is_smaller(more, base);
    } else {
        assert(kept =~= base);
    }
}

/// A read right after an accepted write is a hit, and finds what was written: where
/// the lifetime is positive and the path is cacheable.
pub proof fn put_then_get_hits<P>(before: ReadCacheManager<P>, after: ReadCacheManager<P>, key: Seq<char>, size: u64, payload: P, now: i64)
    requires
        before.accepts(key, size),
        after.same_setup(before),
        before.ttl() > 0,
        now + before.ttl() <= i64::MAX,
        after@.contains_key(key),
        after@[key] == (ReadCacheEntry {
            size,
            last_accessed_at: now,
            expires_at: (now + before.ttl()) as i64,
            payload,
        }),
    ensures
        after.on(),
        after.rules().admits(key),
        after@[key].expires_at > now,
        after@[key].payload == payload,
{
}

/// Name of the file that holds what is cached under a key.
pub open spec fn data_file_name(key: Seq<char>) -> Seq<char> {
    hex_text(sha256(encode_utf8(key))) + ".bin"@
}

pub open spec fn meta_file_name(key: Seq<char>) -> Seq<char> {
    hex_text(sha256(encode_utf8(key))) + ".json"@
}

fn cache_hash(key: &str) -> (res: String)
    ensures
        res@ == hex_text(sha256(encode_utf8(key@))),
{
    let digest: [u8; 32] = sha256_digest(key.as_bytes());
    hex_encode(digest.as_slice())
}

/// Name of the file that holds what is cached under a key.
pub fn data_path(key: &str) -> (res: String)
    ensures
        res@ == data_file_name(key@),
{
    concat2(cache_hash(key).as_str(), ".bin")
}

/// Name of the file that describes what is cached under a key.
pub fn meta_path(key: &str) -> (res: String)
    ensures
        res@ == meta_file_name(key@),
{
    concat2(cache_hash(key).as_str(), ".json")
}

/// An item is accepted exactly where the cache is on, the path may be cached, and the
/// item is neither empty nor larger than a file may be or the cache is.
pub proof fn what_is_accepted<P>(cache: ReadCacheManager<P>, path: Seq<char>, size: u64)
    ensures
        cache.accepts(path, size) <==> cache.on() && cache.rules().admits(path) && size > 0 && size
            <= cache.max_size() && size <= cache.capacity(),
{
}

/// What has expired goes, and nothing else does or changes.
pub proof fn only_what_has_expired_goes<P>(
    m: Map<Seq<char>, ReadCacheEntry<P>>,
    now: i64,
    k: Seq<char>,
)
    ensures
        unexpired(m, now).contains_key(k) <==> m.contains_key(k) && now < m[k].expires_at,
        unexpired(m, now).contains_key(k) ==> unexpired(m, now)[k] == m[k],
{
}

/// What makes room are the least recently used entries: none that stays was used
/// before one that goes, what stays is as it was, and what is to come fits beside it.
pub proof fn the_least_recently_used_go<P>(
    base: Map<Seq<char>, ReadCacheEntry<P>>,
    kept: Map<Seq<char>, ReadCacheEntry<P>>,
    required: nat,
    capacity: nat,
    gone: Seq<char>,
    stays: Seq<char>,
)
    requires
        evicted_to_fit(base, kept, required, capacity),
        base.contains_key(gone),
        !kept.contains_key(gone),
    ensures
        bytes_of(kept) + required <= capacity,
        kept.contains_key(stays) ==> base.contains_key(stays) && kept[stays] == base[stays]
            && base[gone].last_accessed_at <= base[stays].last_accessed_at,
{
    if kept.contains_key(stays) {
        assert(kept.dom().contains(stays));
        assert(base.dom().contains(stays));
        assert(kept[stays] == base[stays]);
        assert(base[gone].last_accessed_at <= base[stays].last_accessed_at);
    }
}

/// The cache is tidied up four times in the life of an entry, but not more often than
/// every second and not less often than every minute.
pub proof fn the_cache_is_tidied_up_in_time(ttl_secs: u64)
    ensures
        1 <= cleanup_interval(ttl_secs) <= 60,
        4 <= ttl_secs <= 240 ==> 4 * cleanup_interval(ttl_secs) <= ttl_secs < 4 * (cleanup_interval(
            ttl_secs,
        ) + 1),
        ttl_secs < 4 ==> cleanup_interval(ttl_secs) == 1,
        ttl_secs > 240 ==> cleanup_interval(ttl_secs) == 60,
{
}

/// What leaves the cache is handed back: one item for each key that is gone, and each
/// item is what was held under such a key.
pub proof fn what_leaves_is_handed_back<P>(
    before: Map<Seq<char>, ReadCacheEntry<P>>,
    after: Map<Seq<char>, ReadCacheEntry<P>>,
    gone: Seq<P>,
    k: Seq<char>,
    i: int,
)
    requires
        hands_back(before, after, gone),
    ensures
        before.contains_key(k) && !after.contains_key(k) ==> gone.contains(before[k].payload),
        0 <= i < gone.len() ==> exists|key: Seq<char>| #[trigger]
            before.contains_key(key) && !after.contains_key(key) && gone[i] == before[key].payload,
        (forall|key: Seq<char>| #[trigger] before.contains_key(key) ==> after.contains_key(key))
            ==> gone.len() == 0,
{
    let keys = choose|keys: Seq<Seq<char>>| lists_taken(before, after, keys, gone);
    if before.contains_key(k) && !after.contains_key(k) {
        assert(keys.contains(k));
        let at = keys.index_of(k);
        assert(keys[at] == k);
        assert(gone[at] == before[k].payload);
    }
    if 0 <= i < gone.len() {
        assert(before.contains_key(keys[i]));
    }
    if gone.len() > 0 {
        assert(before.contains_key(keys[0]) && !after.contains_key(keys[0]));
    }
}

/// The settings of the cache stay as they are.
pub proof fn the_settings_stay<P>(before: ReadCacheManager<P>, after: ReadCacheManager<P>)
    requires
        after.same_setup(before),
    ensures
        after.on() == before.on(),
        after.keeps_in_memory() == before.keeps_in_memory(),
        after.capacity() == before.capacity(),
        after.max_size() == before.max_size(),
        after.ttl() == before.ttl(),
        after.rules() == before.rules(),
        after.interval() == before.interval(),
{
}

} // verus!
