//! Write-back cache: admission and accounting of pending writes, their flushing and
//! retrying, and the index and quota work that follows.
use crate::cache::policy::CachePathPolicy;
use crate::ledger::Ledger;
use crate::pathname::{file_name_of, file_name_spec, parent_dir_spec, parent_path};
use crate::text::{
    concat2, concat3, contains_text, has_infix, has_prefix, strip_prefix, text_eq, trim_end_char,
    trim_end_matches, trim_start_char, trim_start_matches, views,
};
use crate::types::{TimeNanos, VfsFileInfo};
use crate::weights::{sum_insert, sum_of_empty, sum_remove, weight_sum};
use vstd::prelude::*;

verus! {

#[derive(Debug, Clone, Copy, PartialEq, Eq, Structural)]
pub enum PendingWriteState {
    Pending,
    Flushing,
    Abnormal,
}

/// Where the bytes of a pending write are kept.
#[derive(Debug, Clone, Copy, PartialEq, Eq, Structural)]
pub enum BlobPlace {
    Memory,
    QueueDir,
    AbnormalDir,
}

/// A write that has not reached the storage yet.
pub struct PendingWrite<P> {
    pub user_id: String,
    pub logical_path: String,
    pub size: u64,
    pub modified_at: i64,
    pub deadline_at: i64,
    pub next_retry_at: i64,
    pub generation: u64,
    pub retry_count: u32,
    pub state: PendingWriteState,
    pub abnormal_logged: bool,
    pub last_error: Option<String>,
    pub place: BlobPlace,
    pub payload: P,
}

/// The index of a directory has to follow its files.
#[derive(Debug)]
pub struct DirectoryIndexSyncTask {
    pub user_id: String,
    pub logical_parent_path: String,
    pub physical_parent_path: String,
    pub next_sync_at: i64,
    pub retry_count: u32,
}

/// A user's bytes in use have to follow the user's files.
#[derive(Debug, Clone, Copy, PartialEq, Eq, Structural)]
pub struct UserQuotaSyncTask {
    pub delta: i64,
    pub next_sync_at: i64,
    pub retry_count: u32,
}

/// How the cache is set up.
pub struct WriteCacheConfig {
    pub enabled: bool,
    /// Where payloads are kept: `memory`, or else files in a directory.
    pub backend: String,
    pub capacity_bytes: u64,
    pub max_file_size_bytes: u64,
    pub flush_interval_ms: u64,
    pub flush_deadline_secs: u64,
    pub cache_thumbnail_paths: bool,
    pub skip_extensions: Vec<String>,
}

/// The cache.
pub struct WriteCacheManager<P> {
    enabled: bool,
    in_memory: bool,
    capacity_bytes: u64,
    max_file_size_bytes: u64,
    flush_interval_ms: u64,
    flush_deadline_secs: u64,
    policy: CachePathPolicy,
    accounted_bytes: u64,
    entries: Ledger<PendingWrite<P>>,
    dirty_paths: Ledger<()>,
    dirty_dirs: Ledger<()>,
    index_sync_dirs: Ledger<DirectoryIndexSyncTask>,
    quota_sync_users: Ledger<UserQuotaSyncTask>,
}

// ---------------------------------------------------------------- times and paths
/// The seconds since the epoch that a calendar date can be given to.
pub open spec fn is_calendar_time(secs: i64) -> bool {
    -8334601228800 <= secs <= 8210266876799
}

/// `chrono::DateTime::from_timestamp` gives a date to the seconds from the first of
/// January of the year -262143 to the end of the year 262142.
#[verifier::external_body]
fn has_calendar_time(secs: i64) -> (res: bool)
    ensures
        res == is_calendar_time(secs),
{
    chrono::DateTime::<chrono::Utc>::from_timestamp(secs, 0).is_some()
}

/// The time `secs` seconds after the epoch, where a date can be given to it.
pub open spec fn time_of_secs(secs: i64) -> Option<TimeNanos> {
    if is_calendar_time(secs) {
        Some((secs * 1_000_000_000) as i128)
    } else {
        None
    }
}

pub fn nanos_of_secs(secs: i64) -> (res: Option<TimeNanos>)
    ensures
        res == time_of_secs(secs),
{
    if has_calendar_time(secs) {
        Some(secs as i128 * 1_000_000_000)
    } else {
        None
    }
}

pub open spec fn pending_name(path: Seq<char>) -> Seq<char> {
    match file_name_spec(path) {
        Some(name) => name,
        None => path,
    }
}

/// What is told of a file whose write is pending.
pub fn file_info_from_pending(path: &str, size: u64, modified_at: i64) -> (res: VfsFileInfo)
    ensures
        res.is_plain(pending_name(path@), path@, false, size, time_of_secs(modified_at)),
{
    let name: String = match file_name_of(path) {
        Some(name) => name,
        None => path.to_owned(),
    };
    VfsFileInfo::plain(name, path.to_owned(), false, size, nanos_of_secs(modified_at))
}

/// A path without one trailing slash; the root stays.
pub open spec fn entry_path(path: Seq<char>) -> Seq<char> {
    if path != "/"@ && path.len() > 0 && path.last() == '/' {
        path.drop_last()
    } else {
        path
    }
}

pub fn normalize_entry_path(path: &str) -> (res: String)
    ensures
        res@ == entry_path(path@),
{
    if !text_eq(path, "/") && crate::text::ends_with_char(path, '/') {
        let chars: Vec<char> = crate::text::chars_of(path);
        let n: usize = chars.len();
        let s: String = crate::text::string_of(&chars, 0, n - 1);
        assert(s@ =~= path@.drop_last());
        s
    } else {
        path.to_owned()
    }
}

/// The user's path of what is stored at `physical`, where it is the user's.
pub open spec fn user_path(user_id: Seq<char>, physical: Seq<char>) -> Option<Seq<char>> {
    let prefix = user_id + "/"@;
    if physical == user_id {
        Some("/"@)
    } else if has_prefix(physical, prefix) {
        Some(
            trim_end_char(
                "/"@ + trim_start_char(physical.skip(prefix.len() as int), '/'),
                '/',
            ),
        )
    } else {
        None
    }
}

pub fn physical_to_logical_path(user_id: &str, physical_path: &str) -> (res: Option<String>)
    ensures
        match res {
            Some(p) => user_path(user_id@, physical_path@) == Some(p@),
            None => user_path(user_id@, physical_path@) is None,
        },
{
    if text_eq(physical_path, user_id) {
        return Some("/".to_owned());
    }
    let prefix: String = concat2(user_id, "/");
    match strip_prefix(physical_path, prefix.as_str()) {
        Some(rest) => {
            let rooted: String = concat2("/", trim_start_matches(rest, '/'));
            Some(trim_end_matches(rooted.as_str(), '/').to_owned())
        },
        None => None,
    }
}

/// Path to list a directory under: with a trailing slash, unless it is empty.
pub open spec fn listing_form(path: Seq<char>) -> Seq<char> {
    if path.len() > 0 && path.last() != '/' {
        path + "/"@
    } else {
        path
    }
}

pub fn listing_path(physical_parent_path: &str) -> (res: String)
    ensures
        res@ == listing_form(physical_parent_path@),
{
    if !physical_parent_path.is_empty() && !crate::text::ends_with_char(
        physical_parent_path,
        '/',
    ) {
        concat2(physical_parent_path, "/")
    } else {
        physical_parent_path.to_owned()
    }
}

/// A listed entry has to be asked for again: its time is missing, or its size is
/// doubtful.
pub open spec fn is_doubtful(has_modified: bool, is_file: bool, size: u64) -> bool {
    !has_modified || (is_file && size == 0)
}

pub fn needs_stat(has_modified: bool, is_file: bool, size: u64) -> (res: bool)
    ensures
        res == is_doubtful(has_modified, is_file, size),
{
    !has_modified || (is_file && size == 0)
}

// ---------------------------------------------------------------- retry delay
/// Seconds between retries: the flush interval, doubled with each retry up to
/// sixty-four times, within bounds that are wider once the deadline has passed.
pub open spec fn retry_delay(flush_interval_ms: u64, retry_count: u32, abnormal: bool) -> int {
    let base = if flush_interval_ms < 2000 {
        1
    } else {
        flush_interval_ms as int / 1000
    };
    let steps = if retry_count <= 1 {
        0
    } else if retry_count > 7 {
        6
    } else {
        retry_count - 1
    };
    let delay = base * vstd::arithmetic::power2::pow2(steps as nat);
    let low = if abnormal {
        5
    } else {
        1
    };
    let high = if abnormal {
        300
    } else {
        60
    };
    if delay < low {
        low
    } else if delay > high {
        high
    } else {
        delay
    }
}

/// Retries wait between a second and a minute, or between five seconds and five
/// minutes once the deadline has passed, and never less than the retry before.
pub proof fn retry_delay_bounds(flush_interval_ms: u64, retry_count: u32, abnormal: bool)
    ensures
        abnormal ==> 5 <= retry_delay(flush_interval_ms, retry_count, abnormal) <= 300,
        !abnormal ==> 1 <= retry_delay(flush_interval_ms, retry_count, abnormal) <= 60,
        retry_count < u32::MAX ==> retry_delay(flush_interval_ms, retry_count, abnormal)
            <= retry_delay(flush_interval_ms, (retry_count + 1) as u32, abnormal),
{
    if 1 <= retry_count < 7 {
        vstd::arithmetic::power2::lemma_pow2_unfold(retry_count as nat);
        vstd::arithmetic::power2::lemma_pow2_pos((retry_count - 1) as nat);
        let base = if flush_interval_ms < 2000 {
            1
        } else {
            flush_interval_ms as int / 1000
        };
        let p = vstd::arithmetic::power2::pow2((retry_count - 1) as nat);
        assert(base * (2 * p) >= base * p) by (nonlinear_arith)
            requires
                base >= 1,
                p >= 0,
        ;
    }
}

fn power_of_two(steps: u32) -> (res: i64)
    requires
        steps <= 6,
    ensures
        res == vstd::arithmetic::power2::pow2(steps as nat),
{
    proof {
        vstd::arithmetic::power2::lemma2_to64();
    }
    match steps {
        0 => 1,
        1 => 2,
        2 => 4,
        3 => 8,
        4 => 16,
        5 => 32,
        _ => 64,
    }
}

/// The wait before retry number `retry_count`.
pub fn retry_delay_secs(flush_interval_ms: u64, retry_count: u32, abnormal_logged: bool) -> (res:
    i64)
    ensures
        res == retry_delay(flush_interval_ms, retry_count, abnormal_logged),
{
    let base: i64 = if flush_interval_ms < 2000 {
        1
    } else {
        (flush_interval_ms / 1000) as i64
    };
    let steps: u32 = if retry_count <= 1 {
        0
    } else if retry_count > 7 {
        6
    } else {
        retry_count - 1
    };
    let factor: i64 = power_of_two(steps);
    proof {
        vstd::arithmetic::power2::lemma2_to64();
        assert(base * factor <= base * 64) by (nonlinear_arith)
            requires
                0 < factor <= 64,
                base >= 1,
        ;
        assert(base * factor >= base) by (nonlinear_arith)
            requires
                factor >= 1,
                base >= 1,
        ;
    }
    let delay: i64 = base * factor;
    if abnormal_logged {
        if delay < 5 {
            5
        } else if delay > 300 {
            300
        } else {
            delay
        }
    } else {
        if delay > 60 {
            60
        } else {
            delay
        }
    }
}

// ---------------------------------------------------------------- accounting
/// Bytes that a pending write takes of the cache's capacity: those in the place that
/// the cache is made for.
pub open spec fn accounted_of<P>(in_memory: bool, e: PendingWrite<P>) -> nat {
    if in_memory == (e.place == BlobPlace::Memory) {
        e.size as nat
    } else {
        0
    }
}

pub open spec fn accounts<P>(in_memory: bool, m: Map<Seq<char>, PendingWrite<P>>) -> Map<
    Seq<char>,
    nat,
> {
    m.map_values(|e: PendingWrite<P>| accounted_of(in_memory, e))
}

/// Bytes that the pending writes take of the cache's capacity.
pub open spec fn bytes_taken<P>(in_memory: bool, m: Map<Seq<char>, PendingWrite<P>>) -> nat {
    weight_sum(accounts(in_memory, m))
}

proof fn taken_remove<P>(in_memory: bool, m: Map<Seq<char>, PendingWrite<P>>, k: Seq<char>)
    requires
        m.dom().finite(),
        m.contains_key(k),
    ensures
        m.remove(k).dom().finite(),
        bytes_taken(in_memory, m) == bytes_taken(in_memory, m.remove(k)) + accounted_of(
            in_memory,
            m[k],
        ),
{
    assert(accounts(in_memory, m).dom() =~= m.dom());
    sum_remove(accounts(in_memory, m), k);
    assert(accounts(in_memory, m.remove(k)) =~= accounts(in_memory, m).remove(k));
    assert(m.remove(k).dom() =~= m.dom().remove(k));
}

proof fn taken_insert<P>(
    in_memory: bool,
    m: Map<Seq<char>, PendingWrite<P>>,
    k: Seq<char>,
    e: PendingWrite<P>,
)
    requires
        m.dom().finite(),
        !m.contains_key(k),
    ensures
        m.insert(k, e).dom().finite(),
        bytes_taken(in_memory, m.insert(k, e)) == bytes_taken(in_memory, m) + accounted_of(
            in_memory,
            e,
        ),
{
    assert(accounts(in_memory, m).dom() =~= m.dom());
    sum_insert(accounts(in_memory, m), k, accounted_of(in_memory, e));
    assert(accounts(in_memory, m.insert(k, e)) =~= accounts(in_memory, m).insert(
        k,
        accounted_of(in_memory, e),
    ));
    assert(m.insert(k, e).dom() =~= m.dom().insert(k));
}

/// Replacing an entry exchanges its bytes.
proof fn taken_replace<P>(
    in_memory: bool,
    m: Map<Seq<char>, PendingWrite<P>>,
    k: Seq<char>,
    e: PendingWrite<P>,
)
    requires
        m.dom().finite(),
        m.contains_key(k),
    ensures
        m.insert(k, e).dom().finite(),
        bytes_taken(in_memory, m) >= accounted_of(in_memory, m[k]),
        bytes_taken(in_memory, m.insert(k, e)) == bytes_taken(in_memory, m) - accounted_of(
            in_memory,
            m[k],
        ) + accounted_of(in_memory, e),
{
    taken_remove(in_memory, m, k);
    taken_insert(in_memory, m.remove(k), k, e);
    assert(m.remove(k).insert(k, e) =~= m.insert(k, e));
}

// ---------------------------------------------------------------- decisions
/// What becomes of a write that is offered to the cache.
#[derive(Debug, Clone, Copy, PartialEq, Eq, Structural)]
pub enum Admission {
    /// It goes to the storage directly.
    Bypass,
    /// It takes the place of a pending write of the same file.
    Replace,
    /// It becomes a new pending write.
    Fresh,
}

/// What a flush finds.
#[derive(Debug, Clone, Copy, PartialEq, Eq, Structural)]
pub enum FlushStart {
    /// Nothing is pending.
    Absent,
    /// Another flush of the same write is under way.
    Busy,
    /// It is not time yet.
    NotDue,
    /// The write is to be carried out.
    Started { generation: u64, size: u64, modified_at: i64, deadline_at: i64 },
}

/// What a successful write of a flush led to.
#[derive(Debug, Clone, Copy, PartialEq, Eq, Structural)]
pub enum FlushEnd {
    /// Nothing is pending any more.
    Gone,
    /// The file was written again meanwhile: the newer bytes stay pending.
    Superseded,
    /// The write has reached the storage. Tells whether the index of its directory and
    /// the user's bytes in use are to follow.
    Done { index: bool, quota: bool },
}

/// The cache's place for new pending writes.
pub open spec fn home_place(in_memory: bool) -> BlobPlace {
    if in_memory {
        BlobPlace::Memory
    } else {
        BlobPlace::QueueDir
    }
}

/// Where the bytes go when a pending write in `place` is replaced: files are
/// overwritten where they are.
pub open spec fn replaced_place(in_memory: bool, place: BlobPlace) -> BlobPlace {
    if place == BlobPlace::Memory {
        home_place(in_memory)
    } else {
        place
    }
}

pub open spec fn resting_state(abnormal_logged: bool) -> PendingWriteState {
    if abnormal_logged {
        PendingWriteState::Abnormal
    } else {
        PendingWriteState::Pending
    }
}

pub open spec fn next_count(n: u32) -> u32 {
    if n == u32::MAX {
        n
    } else {
        (n + 1) as u32
    }
}

/// `e` is a new pending write.
pub open spec fn is_fresh<P>(
    e: PendingWrite<P>,
    in_memory: bool,
    user_id: Seq<char>,
    logical_path: Seq<char>,
    size: u64,
    now: i64,
    deadline_at: int,
    payload: P,
) -> bool {
    &&& e.user_id@ == user_id
    &&& e.logical_path@ == logical_path
    &&& e.size == size
    &&& e.modified_at == now
    &&& e.deadline_at == deadline_at
    &&& e.next_retry_at == now
    &&& e.generation == 1
    &&& e.retry_count == 0
    &&& e.state == PendingWriteState::Pending
    &&& !e.abnormal_logged
    &&& e.last_error is None
    &&& e.place == home_place(in_memory)
    &&& e.payload == payload
}

/// `e` is the pending write `o` with new bytes.
pub open spec fn is_replacement<P>(
    e: PendingWrite<P>,
    o: PendingWrite<P>,
    in_memory: bool,
    size: u64,
    now: i64,
    deadline_at: int,
    payload: P,
) -> bool {
    &&& e.user_id == o.user_id
    &&& e.logical_path == o.logical_path
    &&& e.size == size
    &&& e.modified_at == now
    &&& e.deadline_at == deadline_at
    &&& e.next_retry_at == now
    &&& e.generation == if o.generation == u64::MAX {
        u64::MAX
    } else {
        (o.generation + 1) as u64
    }
    &&& e.retry_count == o.retry_count
    &&& e.state == resting_state(o.abnormal_logged)
    &&& e.abnormal_logged == o.abnormal_logged
    &&& e.last_error is None
    &&& e.place == replaced_place(in_memory, o.place)
    &&& e.payload == payload
}

/// A failed flush moves the bytes of `o`: it was late, they are not yet in the
/// directory for late writes, and were put there.
pub open spec fn moves_bytes<P>(o: PendingWrite<P>, late: bool, spilled: Option<P>) -> bool {
    late && o.place != BlobPlace::AbnormalDir && spilled is Some
}

/// The failure of a flush of `o` is the one to report as late: the bytes are in the
/// directory for late writes, and it was not reported before.
pub open spec fn is_reported<P>(o: PendingWrite<P>, late: bool, spilled: Option<P>) -> bool {
    late && (o.place == BlobPlace::AbnormalDir || spilled is Some) && !o.abnormal_logged
}

/// `e` is `o` after a failed flush; `spilled` holds the bytes as they were put into
/// the directory for late writes, where they were.
pub open spec fn is_after_failure<P>(
    e: PendingWrite<P>,
    o: PendingWrite<P>,
    flush_interval_ms: u64,
    error: Seq<char>,
    now: i64,
    late: bool,
    spilled: Option<P>,
) -> bool {
    let count = next_count(o.retry_count);
    let logged = o.abnormal_logged || is_reported(o, late, spilled);
    &&& e.user_id == o.user_id
    &&& e.logical_path == o.logical_path
    &&& e.size == o.size
    &&& e.modified_at == o.modified_at
    &&& e.deadline_at == o.deadline_at
    &&& e.generation == o.generation
    &&& e.retry_count == count
    &&& e.last_error is Some && e.last_error->0@ == error
    &&& e.next_retry_at == now + retry_delay(flush_interval_ms, count, logged)
    &&& e.abnormal_logged == logged
    &&& e.state == resting_state(logged)
    &&& if moves_bytes(o, late, spilled) {
        e.place == BlobPlace::AbnormalDir && e.payload == spilled->0
    } else {
        e.place == o.place && e.payload == o.payload
    }
}

/// Key of a directory's index task.
pub open spec fn index_key(user_id: Seq<char>, logical_parent: Seq<char>) -> Seq<char> {
    user_id + "\n"@ + logical_parent
}

/// `task` brings the index of the file's directory up to date one second from now.
pub open spec fn is_index_task(
    task: DirectoryIndexSyncTask,
    user_id: Seq<char>,
    logical_path: Seq<char>,
    physical_path: Seq<char>,
    now: i64,
) -> bool {
    &&& task.user_id@ == user_id
    &&& task.logical_parent_path@ == parent_dir_spec(logical_path)
    &&& task.physical_parent_path@ == parent_dir_spec(physical_path)
    &&& task.next_sync_at == now + 1
    &&& task.retry_count == 0
}

/// Files below thumbnail directories do not count.
pub open spec fn counts_for_quota(logical_path: Seq<char>) -> bool {
    !has_infix(logical_path, "/.thumbs"@)
}

/// The quota tasks after `delta` more bytes of a user are reported.
pub open spec fn with_quota_delta(
    m: Map<Seq<char>, UserQuotaSyncTask>,
    user_id: Seq<char>,
    logical_path: Seq<char>,
    delta: int,
    now: i64,
) -> Map<Seq<char>, UserQuotaSyncTask> {
    let sum = if m.contains_key(user_id) {
        m[user_id].delta + delta
    } else {
        delta
    };
    if delta == 0 || !counts_for_quota(logical_path) {
        m
    } else if sum == 0 {
        m.remove(user_id)
    } else {
        m.insert(
            user_id,
            UserQuotaSyncTask {
                delta: sum as i64,
                next_sync_at: (now + 1) as i64,
                retry_count: 0,
            },
        )
    }
}

/// The times that the cache computes stay in range.
pub open spec fn clock_in_range(now: i64, flush_deadline_secs: u64) -> bool {
    now + 300 <= i64::MAX && now + flush_deadline_secs <= i64::MAX && flush_deadline_secs
        <= i64::MAX
}

impl<P> WriteCacheManager<P> {
    pub closed spec fn on(self) -> bool {
        self.enabled
    }

    pub closed spec fn keeps_in_memory(self) -> bool {
        self.in_memory
    }

    pub closed spec fn capacity(self) -> u64 {
        self.capacity_bytes
    }

    pub closed spec fn max_size(self) -> u64 {
        self.max_file_size_bytes
    }

    pub closed spec fn interval_ms(self) -> u64 {
        self.flush_interval_ms
    }

    pub closed spec fn deadline_secs(self) -> u64 {
        self.flush_deadline_secs
    }

    pub closed spec fn rules(self) -> CachePathPolicy {
        self.policy
    }

    /// The pending writes, by physical path.
    pub closed spec fn view(self) -> Map<Seq<char>, PendingWrite<P>> {
        self.entries@
    }

    pub closed spec fn dirty(self) -> Set<Seq<char>> {
        self.dirty_paths@.dom()
    }

    pub closed spec fn dirty_directories(self) -> Set<Seq<char>> {
        self.dirty_dirs@.dom()
    }

    pub closed spec fn index_tasks(self) -> Map<Seq<char>, DirectoryIndexSyncTask> {
        self.index_sync_dirs@
    }

    pub closed spec fn quota_tasks(self) -> Map<Seq<char>, UserQuotaSyncTask> {
        self.quota_sync_users@
    }

    pub closed spec fn accounted(self) -> u64 {
        self.accounted_bytes
    }

    /// Bytes that are accounted for beyond those that the pending writes take: a write
    /// that is taken up in place of another is added to it.
    pub open spec fn excess(self) -> int {
        self.accounted() - bytes_taken(self.keeps_in_memory(), self@)
    }

    /// The bytes accounted for are at least those that the pending writes take, and a
    /// cache of files keeps none of them in memory.
    pub closed spec fn wf(self) -> bool {
        &&& self.entries.wf()
        &&& self.dirty_paths.wf()
        &&& self.dirty_dirs.wf()
        &&& self.index_sync_dirs.wf()
        &&& self.quota_sync_users.wf()
        &&& self.entries@.dom().finite()
        &&& self.accounted_bytes as nat >= bytes_taken(self.in_memory, self.entries@)
        &&& !self.in_memory ==> forall|k: Seq<char>| #[trigger]
            self.entries@.contains_key(k) ==> self.entries@[k].place != BlobPlace::Memory
    }

    /// The pending writes are finitely many, and their bytes are accounted for.
    pub proof fn pending_bytes_are_accounted(self)
        requires
            self.wf(),
        ensures
            self@.dom().finite(),
            self.excess() >= 0,
    {
    }

    pub open spec fn same_setup(self, other: WriteCacheManager<P>) -> bool {
        &&& self.on() == other.on()
        &&& self.keeps_in_memory() == other.keeps_in_memory()
        &&& self.capacity() == other.capacity()
        &&& self.max_size() == other.max_size()
        &&& self.interval_ms() == other.interval_ms()
        &&& self.deadline_secs() == other.deadline_secs()
        &&& self.rules() == other.rules()
    }

    pub open spec fn same_marks(self, other: WriteCacheManager<P>) -> bool {
        &&& self.dirty() == other.dirty()
        &&& self.dirty_directories() == other.dirty_directories()
    }

    pub open spec fn same_tasks(self, other: WriteCacheManager<P>) -> bool {
        &&& self.index_tasks() == other.index_tasks()
        &&& self.quota_tasks() == other.quota_tasks()
    }

    /// A write of this size may be cached under this logical path.
    pub open spec fn accepts(self, logical_path: Seq<char>, size: u64) -> bool {
        &&& self.on()
        &&& self.rules().admits(logical_path)
        &&& 0 < size <= self.max_size()
        &&& size <= self.capacity()
    }

    /// The write fits when it takes the place of a pending one of the same file.
    pub open spec fn fits(self, physical_path: Seq<char>, size: u64) -> bool {
        let existing = if self@.contains_key(physical_path) {
            accounted_of(self.keeps_in_memory(), self@[physical_path])
        } else {
            0
        };
        self.accounted() - existing + size <= self.capacity()
    }

    pub open spec fn admission_of(
        self,
        logical_path: Seq<char>,
        physical_path: Seq<char>,
        size: u64,
    ) -> Admission {
        if !self.accepts(logical_path, size) || !self.fits(physical_path, size) {
            Admission::Bypass
        } else if self@.contains_key(physical_path) {
            Admission::Replace
        } else {
            Admission::Fresh
        }
    }

    pub fn new(config: &WriteCacheConfig) -> (res: WriteCacheManager<P>)
        ensures
            res.wf(),
            res@ == Map::<Seq<char>, PendingWrite<P>>::empty(),
            res.dirty() == Set::<Seq<char>>::empty(),
            res.dirty_directories() == Set::<Seq<char>>::empty(),
            res.index_tasks() == Map::<Seq<char>, DirectoryIndexSyncTask>::empty(),
            res.quota_tasks() == Map::<Seq<char>, UserQuotaSyncTask>::empty(),
            res.accounted() == 0,
            res.excess() == 0,
            res.on() == config.enabled,
            res.keeps_in_memory() == (config.backend@ == "memory"@),
            res.capacity() == config.capacity_bytes,
            res.max_size() == config.max_file_size_bytes,
            res.interval_ms() == config.flush_interval_ms,
            res.deadline_secs() == config.flush_deadline_secs,
            res.rules().thumbnails_allowed() == config.cache_thumbnail_paths,
            forall|ext: Seq<char>| #[trigger]
                res.rules().skips(ext) <==> exists|i: int|
                    0 <= i < config.skip_extensions@.len()
                        && crate::cache::policy::normal_extension(
                        (#[trigger] config.skip_extensions@[i])@,
                    ) == ext,
    {
        let entries: Ledger<PendingWrite<P>> = Ledger::new();
        let dirty_paths: Ledger<()> = Ledger::new();
        let dirty_dirs: Ledger<()> = Ledger::new();
        let in_memory: bool = text_eq(config.backend.as_str(), "memory");
        proof {
            assert(accounts(in_memory, entries@).dom() =~= Set::<Seq<char>>::empty());
            sum_of_empty(accounts(in_memory, entries@));
            assert(dirty_paths@.dom() =~= Set::<Seq<char>>::empty());
            assert(dirty_dirs@.dom() =~= Set::<Seq<char>>::empty());
        }
        WriteCacheManager {
            enabled: config.enabled,
            in_memory,
            capacity_bytes: config.capacity_bytes,
            max_file_size_bytes: config.max_file_size_bytes,
            flush_interval_ms: config.flush_interval_ms,
            flush_deadline_secs: config.flush_deadline_secs,
            policy: CachePathPolicy::new(config.cache_thumbnail_paths, &config.skip_extensions),
            accounted_bytes: 0,
            entries,
            dirty_paths,
            dirty_dirs,
            index_sync_dirs: Ledger::new(),
            quota_sync_users: Ledger::new(),
        }
    }

    pub fn is_enabled(&self) -> (res: bool)
        ensures
            res == self.on(),
    {
        self.enabled
    }

    pub fn is_in_memory(&self) -> (res: bool)
        ensures
            res == self.keeps_in_memory(),
    {
        self.in_memory
    }

    /// Bytes of the cache's capacity that are taken.
    pub fn accounted_bytes(&self) -> (res: u64)
        ensures
            res == self.accounted(),
    {
        self.accounted_bytes
    }

    pub fn max_file_size_bytes(&self) -> (res: u64)
        ensures
            res == self.max_size(),
    {
        self.max_file_size_bytes
    }

    pub fn should_cache(&self, logical_path: &str, size: u64) -> (res: bool)
        ensures
            res == self.accepts(logical_path@, size),
    {
        self.enabled && self.policy.allows(logical_path) && size > 0 && size
            <= self.max_file_size_bytes && size <= self.capacity_bytes
    }

    fn accounted_bytes_for(&self, e: &PendingWrite<P>) -> (res: u64)
        ensures
            res as nat == accounted_of(self.keeps_in_memory(), *e),
    {
        if self.in_memory == (e.place == BlobPlace::Memory) {
            e.size
        } else {
            0
        }
    }

    pub fn can_take(&self, physical_path: &str, new_size: u64) -> (res: bool)
        requires
            self.wf(),
        ensures
            res == self.fits(physical_path@, new_size),
    {
        let existing: u64 = match self.entries.get(physical_path) {
            Some(e) => {
                proof {
                    taken_remove(self.in_memory, self.entries@, physical_path@);
                }
                self.accounted_bytes_for(e)
            },
            None => 0,
        };
        let rest: u64 = self.accounted_bytes - existing;
        rest <= self.capacity_bytes && new_size <= self.capacity_bytes - rest
    }

    /// What becomes of a write that is offered to the cache.
    pub fn admission(&self, logical_path: &str, physical_path: &str, size: u64) -> (res: Admission)
        requires
            self.wf(),
        ensures
            res == self.admission_of(logical_path@, physical_path@, size),
    {
        if !self.should_cache(logical_path, size) || !self.can_take(physical_path, size) {
            Admission::Bypass
        } else if self.entries.contains(physical_path) {
            Admission::Replace
        } else {
            Admission::Fresh
        }
    }

    /// Where the bytes of a write have to be when it is offered to the cache: files are
    /// overwritten where they are.
    pub open spec fn place_of(self, physical_path: Seq<char>) -> BlobPlace {
        if self@.contains_key(physical_path) {
            replaced_place(self.keeps_in_memory(), self@[physical_path].place)
        } else {
            home_place(self.keeps_in_memory())
        }
    }

    pub fn write_place(&self, physical_path: &str) -> (res: BlobPlace)
        requires
            self.wf(),
        ensures
            res == self.place_of(physical_path@),
    {
        let place: BlobPlace = match self.entries.get(physical_path) {
            Some(e) => e.place,
            None => BlobPlace::Memory,
        };
        if place != BlobPlace::Memory {
            place
        } else if self.in_memory {
            BlobPlace::Memory
        } else {
            BlobPlace::QueueDir
        }
    }

    /// `after` is the cache after a write was offered to it, and `res` what is told of
    /// the file where it was taken.
    pub open spec fn enqueues(
        self,
        after: WriteCacheManager<P>,
        user_id: Seq<char>,
        logical_path: Seq<char>,
        physical_path: Seq<char>,
        size: u64,
        payload: P,
        now: i64,
        res: Option<VfsFileInfo>,
    ) -> bool {
        let admission = self.admission_of(logical_path, physical_path, size);
        &&& after.same_setup(self)
        &&& after.quota_tasks() == self.quota_tasks()
        &&& after.excess() == self.excess()
        &&& match res {
            None => {
                &&& admission == Admission::Bypass
                &&& after@ == self@
                &&& after.same_marks(self)
                &&& after.same_tasks(self)
            },
            Some(info) => {
                let key = index_key(user_id, parent_dir_spec(logical_path));
                let deadline = now + self.deadline_secs();
                let e = after@[physical_path];
                let task = after.index_tasks()[key];
                &&& admission != Admission::Bypass
                &&& info.is_plain(
                    pending_name(physical_path),
                    physical_path,
                    false,
                    size,
                    time_of_secs(now),
                )
                &&& after@ == self@.insert(physical_path, e)
                &&& if self@.contains_key(physical_path) {
                    is_replacement(
                        e,
                        self@[physical_path],
                        self.keeps_in_memory(),
                        size,
                        now,
                        deadline,
                        payload,
                    )
                } else {
                    is_fresh(
                        e,
                        self.keeps_in_memory(),
                        user_id,
                        logical_path,
                        size,
                        now,
                        deadline,
                        payload,
                    )
                }
                &&& after.accounted() <= after.capacity()
                &&& after.dirty() == self.dirty().insert(physical_path)
                &&& after.dirty_directories() == self.dirty_directories().insert(
                    parent_dir_spec(physical_path),
                )
                &&& after.index_tasks() == self.index_tasks().insert(key, task)
                &&& is_index_task(task, user_id, logical_path, physical_path, now)
            },
        }
    }

    /// Offer a write to the cache. Where it is taken, what is told of the file.
    pub fn enqueue(
        &mut self,
        user_id: &str,
        logical_path: &str,
        physical_path: &str,
        size: u64,
        payload: P,
        now: i64,
    ) -> (res: Option<VfsFileInfo>)
        requires
            old(self).wf(),
            clock_in_range(now, old(self).deadline_secs()),
        ensures
            final(self).wf(),
            old(self).enqueues(
                *final(self),
                user_id@,
                logical_path@,
                physical_path@,
                size,
                payload,
                now,
                res,
            ),
    {
        let ghost start = *self;
        let admission: Admission = self.admission(logical_path, physical_path, size);
        if admission == Admission::Bypass {
            return None;
        }
        let deadline_at: i64 = now + self.flush_deadline_secs as i64;
        let ghost before = self.entries@;
        match self.entries.remove(physical_path) {
            Some(o) => {
                let previous: u64 = self.accounted_bytes_for(&o);
                let generation: u64 = if o.generation == u64::MAX {
                    u64::MAX
                } else {
                    o.generation + 1
                };
                let place: BlobPlace = if o.place == BlobPlace::Memory {
                    if self.in_memory {
                        BlobPlace::Memory
                    } else {
                        BlobPlace::QueueDir
                    }
                } else {
                    o.place
                };
                let state: PendingWriteState = if o.abnormal_logged {
                    PendingWriteState::Abnormal
                } else {
                    PendingWriteState::Pending
                };
                let e: PendingWrite<P> = PendingWrite {
                    user_id: o.user_id,
                    logical_path: o.logical_path,
                    size,
                    modified_at: now,
                    deadline_at,
                    next_retry_at: now,
                    generation,
                    retry_count: o.retry_count,
                    state,
                    abnormal_logged: o.abnormal_logged,
                    last_error: None,
                    place,
                    payload,
                };
                proof {
                    taken_replace(self.in_memory, before, physical_path@, e);
                    assert(before.remove(physical_path@).insert(physical_path@, e) =~= before.insert(
                        physical_path@,
                        e,
                    ));
                }
                let current: u64 = self.accounted_bytes_for(&e);
                self.accounted_bytes = self.accounted_bytes - previous + current;
                self.entries.insert(physical_path, e);
            },
            None => {
                let place: BlobPlace = if self.in_memory {
                    BlobPlace::Memory
                } else {
                    BlobPlace::QueueDir
                };
                let e: PendingWrite<P> = PendingWrite {
                    user_id: user_id.to_owned(),
                    logical_path: logical_path.to_owned(),
                    size,
                    modified_at: now,
                    deadline_at,
                    next_retry_at: now,
                    generation: 1,
                    retry_count: 0,
                    state: PendingWriteState::Pending,
                    abnormal_logged: false,
                    last_error: None,
                    place,
                    payload,
                };
                proof {
                    assert(before.remove(physical_path@) =~= before);
                    taken_insert(self.in_memory, before, physical_path@, e);
                }
                let current: u64 = self.accounted_bytes_for(&e);
                self.accounted_bytes = self.accounted_bytes + current;
                self.entries.insert(physical_path, e);
            },
        }
        self.mark_dirty(logical_path, physical_path, user_id, now);
        Some(file_info_from_pending(physical_path, size, now))
    }

    /// Note that a file and its directory are newer than their index.
    fn mark_dirty(&mut self, logical_path: &str, physical_path: &str, user_id: &str, now: i64)
        requires
            old(self).wf(),
            now < i64::MAX,
        ensures
            final(self).wf(),
            final(self).same_setup(*old(self)),
            final(self)@ == old(self)@,
            final(self).accounted() == old(self).accounted(),
            final(self).quota_tasks() == old(self).quota_tasks(),
            final(self).dirty() == old(self).dirty().insert(physical_path@),
            final(self).dirty_directories() == old(self).dirty_directories().insert(
                parent_dir_spec(physical_path@),
            ),
            ({
                let key = index_key(user_id@, parent_dir_spec(logical_path@));
                &&& final(self).index_tasks() == old(self).index_tasks().insert(
                    key,
                    final(self).index_tasks()[key],
                )
                &&& is_index_task(
                    final(self).index_tasks()[key],
                    user_id@,
                    logical_path@,
                    physical_path@,
                    now,
                )
            }),
    {
        let ghost start = *self;
        self.dirty_paths.insert(physical_path, ());
        let physical_parent: String = parent_path(physical_path);
        let logical_parent: String = parent_path(logical_path);
        self.dirty_dirs.insert(physical_parent.as_str(), ());
        let key: String = concat3(user_id, "\n", logical_parent.as_str());
        let task: DirectoryIndexSyncTask = DirectoryIndexSyncTask {
            user_id: user_id.to_owned(),
            logical_parent_path: logical_parent,
            physical_parent_path: physical_parent,
            next_sync_at: now + 1,
            retry_count: 0,
        };
        self.index_sync_dirs.insert(key.as_str(), task);
        proof {
            assert(self.dirty() =~= start.dirty().insert(physical_path@));
            assert(self.dirty_directories() =~= start.dirty_directories().insert(
                parent_dir_spec(physical_path@),
            ));
            assert(self.index_tasks() =~= start.index_tasks().insert(
                index_key(user_id@, parent_dir_spec(logical_path@)),
                task,
            ));
        }
    }

    /// Take up a pending write that an earlier run left behind. Its bytes are accounted
    /// for beside those of a write that it takes the place of.
    pub fn restore(
        &mut self,
        user_id: &str,
        logical_path: &str,
        physical_path: &str,
        size: u64,
        modified_at: i64,
        deadline_at: i64,
        generation: u64,
        abnormal: bool,
        payload: P,
        now: i64,
    )
        requires
            old(self).wf(),
            now < i64::MAX,
            old(self).accounted() + size <= u64::MAX,
        ensures
            final(self).wf(),
            final(self).same_setup(*old(self)),
            final(self).quota_tasks() == old(self).quota_tasks(),
            ({
                let e = final(self)@[physical_path@];
                &&& final(self)@ == old(self)@.insert(physical_path@, e)
                &&& e.user_id@ == user_id@
                &&& e.logical_path@ == logical_path@
                &&& e.size == size
                &&& e.modified_at == modified_at
                &&& e.deadline_at == deadline_at
                &&& e.next_retry_at == now
                &&& e.generation == generation
                &&& e.retry_count == 0
                &&& e.state == resting_state(abnormal)
                &&& e.abnormal_logged == abnormal
                &&& e.last_error is None
                &&& e.place == if abnormal {
                    BlobPlace::AbnormalDir
                } else {
                    BlobPlace::QueueDir
                }
                &&& e.payload == payload
                &&& final(self).accounted() == old(self).accounted() + accounted_of(
                    old(self).keeps_in_memory(),
                    e,
                )
            }),
            final(self).excess() == old(self).excess() + if old(self)@.contains_key(
                physical_path@,
            ) {
                accounted_of(old(self).keeps_in_memory(), old(self)@[physical_path@])
            } else {
                0
            },
            final(self).dirty() == old(self).dirty().insert(physical_path@),
            final(self).dirty_directories() == old(self).dirty_directories().insert(
                parent_dir_spec(physical_path@),
            ),
            ({
                let key = index_key(user_id@, parent_dir_spec(logical_path@));
                let task = final(self).index_tasks()[key];
                &&& final(self).index_tasks() == old(self).index_tasks().insert(key, task)
                &&& is_index_task(task, user_id@, logical_path@, physical_path@, now)
            }),
    {
        let ghost start = *self;
        let ghost before = self.entries@;
        let place: BlobPlace = if abnormal {
            BlobPlace::AbnormalDir
        } else {
            BlobPlace::QueueDir
        };
        let state: PendingWriteState = if abnormal {
            PendingWriteState::Abnormal
        } else {
            PendingWriteState::Pending
        };
        let e: PendingWrite<P> = PendingWrite {
            user_id: user_id.to_owned(),
            logical_path: logical_path.to_owned(),
            size,
            modified_at,
            deadline_at,
            next_retry_at: now,
            generation,
            retry_count: 0,
            state,
            abnormal_logged: abnormal,
            last_error: None,
            place,
            payload,
        };
        proof {
            if before.contains_key(physical_path@) {
                taken_replace(self.in_memory, before, physical_path@, e);
            } else {
                taken_insert(self.in_memory, before, physical_path@, e);
            }
        }
        let current: u64 = self.accounted_bytes_for(&e);
        self.accounted_bytes = self.accounted_bytes + current;
        self.entries.insert(physical_path, e);
        self.mark_dirty(logical_path, physical_path, user_id, now);
    }

    /// What is told of a file whose write is pending.
    pub fn pending_stat(&self, physical_path: &str) -> (res: Option<VfsFileInfo>)
        requires
            self.wf(),
        ensures
            match res {
                Some(info) => self@.contains_key(physical_path@) && info.is_plain(
                    pending_name(physical_path@),
                    physical_path@,
                    false,
                    self@[physical_path@].size,
                    time_of_secs(self@[physical_path@].modified_at),
                ),
                None => !self@.contains_key(physical_path@),
            },
    {
        match self.entries.get(physical_path) {
            Some(e) => Some(file_info_from_pending(physical_path, e.size, e.modified_at)),
            None => None,
        }
    }

    /// All that is known of a pending write.
    pub fn pending_entry(&self, physical_path: &str) -> (res: Option<&PendingWrite<P>>)
        requires
            self.wf(),
        ensures
            match res {
                Some(e) => self@.contains_key(physical_path@) && *e == self@[physical_path@],
                None => !self@.contains_key(physical_path@),
            },
    {
        self.entries.get(physical_path)
    }

    /// The bytes of a pending write.
    pub fn pending_read(&self, physical_path: &str) -> (res: Option<&P>)
        requires
            self.wf(),
        ensures
            match res {
                Some(p) => self@.contains_key(physical_path@) && *p == self@[physical_path@].payload,
                None => !self@.contains_key(physical_path@),
            },
    {
        match self.entries.get(physical_path) {
            Some(e) => Some(&e.payload),
            None => None,
        }
    }

    /// What is told of the files of a directory whose writes are pending.
    pub fn pending_children(&self, parent_physical_path: &str) -> (res: Vec<VfsFileInfo>)
        requires
            self.wf(),
        ensures
            forall|i: int|
                0 <= i < res@.len() ==> {
                    let p = (#[trigger] res@[i]).path@;
                    &&& self@.contains_key(p)
                    &&& parent_dir_spec(p) == parent_physical_path@
                    &&& res@[i].is_plain(
                        pending_name(p),
                        p,
                        false,
                        self@[p].size,
                        time_of_secs(self@[p].modified_at),
                    )
                },
            forall|p: Seq<char>|
                self@.contains_key(p) && #[trigger] parent_dir_spec(p) == parent_physical_path@
                    ==> exists|i: int| 0 <= i < res@.len() && (#[trigger] res@[i]).path@ == p,
            forall|i: int, j: int|
                0 <= i < j < res@.len() ==> (#[trigger] res@[i]).path@ != (
                #[trigger] res@[j]).path@,
    {
        let n: usize = self.entries.len();
        let ghost keys = self.entries.order();
        proof {
            self.entries.order_lists_keys();
        }
        let mut out: Vec<VfsFileInfo> = Vec::new();
        let ghost mut from: Seq<int> = Seq::empty();
        let mut i: usize = 0;
        while i < n
            invariant
                self.wf(),
                keys == self.entries.order(),
                keys.no_duplicates(),
                n == keys.len(),
                i <= n,
                from.len() == out@.len(),
                forall|j: int|
                    0 <= j < out@.len() ==> {
                        let p = (#[trigger] out@[j]).path@;
                        &&& self@.contains_key(p)
                        &&& parent_dir_spec(p) == parent_physical_path@
                        &&& out@[j].is_plain(
                            pending_name(p),
                            p,
                            false,
                            self@[p].size,
                            time_of_secs(self@[p].modified_at),
                        )
                        &&& keys[from[j]] == p
                    },
                forall|j: int| 0 <= j < from.len() ==> 0 <= #[trigger] from[j] < i,
                forall|j: int, k: int|
                    0 <= j < k < out@.len() ==> #[trigger] from[j] < #[trigger] from[k],
                forall|k: int|
                    0 <= k < i && parent_dir_spec(#[trigger] keys[k]) == parent_physical_path@
                        ==> exists|j: int|
                        0 <= j < out@.len() && (#[trigger] out@[j]).path@ == keys[k],
            decreases n - i,
        {
            let (path, e) = self.entries.entry(i);
            let parent: String = parent_path(path);
            let ghost prior = out@;
            if text_eq(parent.as_str(), parent_physical_path) {
                out.push(file_info_from_pending(path, e.size, e.modified_at));
                proof {
                    from = from.push(i as int);
                    assert(out@[out@.len() - 1].path@ == keys[i as int]);
                }
            }
            proof {
                assert forall|k: int|
                    0 <= k < i + 1 && parent_dir_spec(#[trigger] keys[k])
                        == parent_physical_path@ implies exists|j: int|
                    0 <= j < out@.len() && (#[trigger] out@[j]).path@ == keys[k] by {
                    if k < i {
                        let j = choose|j: int|
                            0 <= j < prior.len() && (#[trigger] prior[j]).path@ == keys[k];
                        assert(out@[j].path@ == keys[k]);
                    }
                }
            }
            i += 1;
        }
        proof {
            assert forall|p: Seq<char>|
                self@.contains_key(p) && #[trigger] parent_dir_spec(p)
                    == parent_physical_path@ implies exists|i: int|
                0 <= i < out@.len() && (#[trigger] out@[i]).path@ == p by {
                assert(keys.contains(p));
                let k = choose|k: int| 0 <= k < keys.len() && keys[k] == p;
                assert(parent_dir_spec(keys[k]) == parent_physical_path@);
            }
            assert forall|i: int, j: int| 0 <= i < j < out@.len() implies (
            #[trigger] out@[i]).path@ != (#[trigger] out@[j]).path@ by {
                assert(from[i] < from[j]);
            }
        }
        out
    }

    pub fn is_dirty_path(&self, physical_path: &str) -> (res: bool)
        requires
            self.wf(),
        ensures
            res == self.dirty().contains(physical_path@),
    {
        self.dirty_paths.contains(physical_path)
    }

    pub fn is_dirty_dir(&self, parent_physical_path: &str) -> (res: bool)
        requires
            self.wf(),
        ensures
            res == self.dirty_directories().contains(parent_physical_path@),
    {
        self.dirty_dirs.contains(parent_physical_path)
    }

    /// Change of a user's bytes in use that has not been recorded yet.
    pub fn pending_quota_delta(&self, user_id: &str) -> (res: i64)
        requires
            self.wf(),
        ensures
            res == pending_of(self.quota_tasks(), user_id@),
    {
        match self.quota_sync_users.get(user_id) {
            Some(task) => task.delta,
            None => 0,
        }
    }

    // ------------------------------------------------------------ flushing
    /// The write is due for a flush in the background.
    pub open spec fn is_due(self, physical_path: Seq<char>, now: i64) -> bool {
        self@.contains_key(physical_path) && self@[physical_path].state
            != PendingWriteState::Flushing && self@[physical_path].next_retry_at <= now
    }

    pub fn is_due_for_background_flush(&self, physical_path: &str, now: i64) -> (res: bool)
        requires
            self.wf(),
        ensures
            res == self.is_due(physical_path@, now),
    {
        match self.entries.get(physical_path) {
            Some(e) => e.state != PendingWriteState::Flushing && e.next_retry_at <= now,
            None => false,
        }
    }

    /// Physical paths of the writes that are due for a flush in the background.
    pub fn due_paths(&self, now: i64) -> (res: Vec<String>)
        requires
            self.wf(),
        ensures
            forall|p: Seq<char>| #[trigger] views(res@).contains(p) <==> self.is_due(p, now),
            views(res@).no_duplicates(),
    {
        let keys: Vec<String> = self.entries.keys();
        let mut out: Vec<String> = Vec::new();
        let mut i: usize = 0;
        proof {
            self.entries.order_lists_keys();
        }
        while i < keys.len()
            invariant
                self.wf(),
                i <= keys@.len(),
                views(keys@).no_duplicates(),
                views(out@).no_duplicates(),
                forall|j: int| 0 <= j < out@.len() ==> self.is_due((#[trigger] out@[j])@, now),
                forall|j: int|
                    0 <= j < out@.len() ==> views(keys@).take(i as int).contains(
                        (#[trigger] out@[j])@,
                    ),
                forall|k: int|
                    0 <= k < i && self.is_due((#[trigger] keys@[k])@, now) ==> views(
                        out@,
                    ).contains(keys@[k]@),
            decreases keys@.len() - i,
        {
            let ghost prior = out@;
            if self.is_due_for_background_flush(keys[i].as_str(), now) {
                out.push(keys[i].clone());
                assert(views(out@)[out@.len() - 1] == keys@[i as int]@);
                assert(views(out@) =~= views(prior).push(views(keys@)[i as int]));
                assert(!views(prior).contains(views(keys@)[i as int])) by {
                    if views(prior).contains(views(keys@)[i as int]) {
                        let j = choose|j: int|
                            0 <= j < views(prior).len() && views(prior)[j] == views(keys@)[i as int];
                        assert(views(keys@).take(i as int).contains(prior[j]@));
                    }
                }
            }
            proof {
                let seen = views(keys@).take(i + 1);
                assert forall|j: int| 0 <= j < out@.len() implies seen.contains(
                    (#[trigger] out@[j])@,
                ) by {
                    if j < prior.len() {
                        assert(views(keys@).take(i as int).contains(prior[j]@));
                        let k = choose|k: int|
                            0 <= k < i && views(keys@).take(i as int)[k] == prior[j]@;
                        assert(seen[k] == prior[j]@);
                    } else {
                        assert(seen[i as int] == out@[j]@);
                    }
                }
                assert forall|k: int|
                    0 <= k < i + 1 && self.is_due((#[trigger] keys@[k])@, now) implies views(
                    out@,
                ).contains(keys@[k]@) by {
                    if k < i {
                        let j = choose|j: int|
                            0 <= j < views(prior).len() && views(prior)[j] == keys@[k]@;
                        assert(views(out@)[j] == keys@[k]@);
                    }
                }
            }
            i += 1;
        }
        proof {
            assert forall|p: Seq<char>| #[trigger] views(out@).contains(p) <==> self.is_due(
                p,
                now,
            ) by {
                if views(out@).contains(p) {
                    let j = choose|j: int| 0 <= j < views(out@).len() && views(out@)[j] == p;
                    assert(out@[j]@ == p);
                }
                if self.is_due(p, now) {
                    assert(views(keys@).contains(p));
                    let k = choose|k: int| 0 <= k < views(keys@).len() && views(keys@)[k] == p;
                    assert(keys@[k]@ == p);
                }
            }
        }
        out
    }

    pub open spec fn flush_start(self, physical_path: Seq<char>, force: bool, now: i64) -> FlushStart {
        let e = self@[physical_path];
        if !self@.contains_key(physical_path) {
            FlushStart::Absent
        } else if e.state == PendingWriteState::Flushing {
            FlushStart::Busy
        } else if !force && e.next_retry_at > now {
            FlushStart::NotDue
        } else {
            FlushStart::Started {
                generation: e.generation,
                size: e.size,
                modified_at: e.modified_at,
                deadline_at: e.deadline_at,
            }
        }
    }

    /// The pending writes after a flush was begun with this result.
    pub open spec fn flushing(self, physical_path: Seq<char>, start: FlushStart) -> Map<
        Seq<char>,
        PendingWrite<P>,
    > {
        if start is Started {
            self@.insert(
                physical_path,
                PendingWrite { state: PendingWriteState::Flushing, ..self@[physical_path] },
            )
        } else {
            self@
        }
    }

    /// Begin a flush; a forced one does not wait for the write's next turn.
    pub fn begin_flush(&mut self, physical_path: &str, force: bool, now: i64) -> (res: FlushStart)
        requires
            old(self).wf(),
        ensures
            final(self).wf(),
            final(self).same_setup(*old(self)),
            final(self).same_marks(*old(self)),
            final(self).same_tasks(*old(self)),
            final(self).accounted() == old(self).accounted(),
            final(self).excess() == old(self).excess(),
            res == old(self).flush_start(physical_path@, force, now),
            final(self)@ == old(self).flushing(physical_path@, res),
    {
        let start: FlushStart = match self.entries.get(physical_path) {
            Some(e) => {
                if e.state == PendingWriteState::Flushing {
                    FlushStart::Busy
                } else if !force && e.next_retry_at > now {
                    FlushStart::NotDue
                } else {
                    FlushStart::Started {
                        generation: e.generation,
                        size: e.size,
                        modified_at: e.modified_at,
                        deadline_at: e.deadline_at,
                    }
                }
            },
            None => FlushStart::Absent,
        };
        match start {
            FlushStart::Started { .. } => {},
            _ => return start,
        }
        let ghost before = self.entries@;
        match self.entries.remove(physical_path) {
            Some(mut e) => {
                e.state = PendingWriteState::Flushing;
                proof {
                    taken_replace(self.in_memory, before, physical_path@, e);
                    assert(before.remove(physical_path@).insert(physical_path@, e) =~= before.insert(
                        physical_path@,
                        e,
                    ));
                }
                self.entries.insert(physical_path, e);
            },
            None => {},
        }
        start
    }

    /// A flush whose deadline this was is late.
    pub open spec fn late_at(deadline_at: i64, now: i64) -> bool {
        now > deadline_at
    }

    pub fn is_late(deadline_at: i64, now: i64) -> (res: bool)
        ensures
            res == Self::late_at(deadline_at, now),
    {
        now > deadline_at
    }

    /// The bytes of a late write have to be moved to the directory for late writes;
    /// false where they are there already, or nothing is pending.
    pub open spec fn spills(self, physical_path: Seq<char>) -> bool {
        self@.contains_key(physical_path) && self@[physical_path].place != BlobPlace::AbnormalDir
    }

    pub fn needs_spill(&self, physical_path: &str) -> (res: bool)
        requires
            self.wf(),
        ensures
            res == self.spills(physical_path@),
    {
        match self.entries.get(physical_path) {
            Some(e) => e.place != BlobPlace::AbnormalDir,
            None => false,
        }
    }

    /// `after` is the cache after a flush failed, and `res` tells whether this is the
    /// failure to report as late, and what the bytes were kept in before.
    pub open spec fn fails(
        self,
        after: WriteCacheManager<P>,
        physical_path: Seq<char>,
        error: Seq<char>,
        now: i64,
        late: bool,
        spilled: Option<P>,
        res: (bool, Option<P>),
    ) -> bool {
        &&& after.same_setup(self)
        &&& after.same_marks(self)
        &&& after.same_tasks(self)
        &&& after.excess() == self.excess()
        &&& if self@.contains_key(physical_path) {
            let e = after@[physical_path];
            let o = self@[physical_path];
            &&& after@ == self@.insert(physical_path, e)
            &&& is_after_failure(e, o, self.interval_ms(), error, now, late, spilled)
            &&& res.0 == is_reported(o, late, spilled)
            &&& res.1 == if moves_bytes(o, late, spilled) {
                Some(o.payload)
            } else {
                None
            }
        } else {
            after@ == self@ && !res.0 && res.1 is None
        }
    }

    /// A flush failed. `late` tells whether the deadline has passed, and `spilled`
    /// holds the bytes as they were put into the directory for late writes, where they
    /// were. Tells whether this is the failure to report as late, and hands back what
    /// the bytes were kept in before.
    pub fn flush_failed(
        &mut self,
        physical_path: &str,
        error: &str,
        now: i64,
        late: bool,
        spilled: Option<P>,
    ) -> (res: (bool, Option<P>))
        requires
            old(self).wf(),
            now + 300 <= i64::MAX,
        ensures
            final(self).wf(),
            old(self).fails(*final(self), physical_path@, error@, now, late, spilled, res),
    {
        let ghost before = self.entries@;
        match self.entries.remove(physical_path) {
            Some(o) => {
                let previous: u64 = self.accounted_bytes_for(&o);
                let count: u32 = if o.retry_count == u32::MAX {
                    u32::MAX
                } else {
                    o.retry_count + 1
                };
                let away: bool = o.place == BlobPlace::AbnormalDir;
                let reported: bool = late && (away || spilled.is_some()) && !o.abnormal_logged;
                let logged: bool = o.abnormal_logged || reported;
                proof {
                    retry_delay_bounds(self.flush_interval_ms, count, logged);
                }
                let delay: i64 = retry_delay_secs(self.flush_interval_ms, count, logged);
                let (place, payload, replaced): (BlobPlace, P, Option<P>) = match spilled {
                    Some(bytes) if late && !away => (
                        BlobPlace::AbnormalDir,
                        bytes,
                        Some(o.payload),
                    ),
                    _ => (o.place, o.payload, None),
                };
                let state: PendingWriteState = if logged {
                    PendingWriteState::Abnormal
                } else {
                    PendingWriteState::Pending
                };
                let e: PendingWrite<P> = PendingWrite {
                    user_id: o.user_id,
                    logical_path: o.logical_path,
                    size: o.size,
                    modified_at: o.modified_at,
                    deadline_at: o.deadline_at,
                    next_retry_at: now + delay,
                    generation: o.generation,
                    retry_count: count,
                    state,
                    abnormal_logged: logged,
                    last_error: Some(error.to_owned()),
                    place,
                    payload,
                };
                proof {
                    taken_replace(self.in_memory, before, physical_path@, e);
                    assert(before.remove(physical_path@).insert(physical_path@, e) =~= before.insert(
                        physical_path@,
                        e,
                    ));
                }
                let current: u64 = self.accounted_bytes_for(&e);
                let rest: u64 = self.accounted_bytes - previous;
                assert(current <= previous);
                self.accounted_bytes = rest + current;
                self.entries.insert(physical_path, e);
                (reported, replaced)
            },
            None => {
                assert(before.remove(physical_path@) =~= before);
                (false, None)
            },
        }
    }

    /// `after` is the cache after the write of a flush reached the storage, with the
    /// result `res`.
    pub open spec fn ends(
        self,
        after: WriteCacheManager<P>,
        physical_path: Seq<char>,
        generation: u64,
        previous_size: i64,
        new_size: i64,
        now: i64,
        res: FlushEnd,
    ) -> bool {
        let o = self@[physical_path];
        &&& after.same_setup(self)
        &&& after.same_marks(self)
        &&& after.excess() == self.excess()
        &&& match res {
            FlushEnd::Gone => {
                &&& !self@.contains_key(physical_path)
                &&& after@ == self@
                &&& after.same_tasks(self)
            },
            FlushEnd::Superseded => {
                &&& self@.contains_key(physical_path)
                &&& o.generation != generation
                &&& after@ == self@.insert(
                    physical_path,
                    PendingWrite { state: PendingWriteState::Pending, next_retry_at: now, ..o },
                )
                &&& after.same_tasks(self)
            },
            FlushEnd::Done { index, quota } => {
                let key = index_key(o.user_id@, parent_dir_spec(o.logical_path@));
                &&& self@.contains_key(physical_path)
                &&& o.generation == generation
                &&& index == self.rules().admits(o.logical_path@)
                &&& quota == (new_size != previous_size && counts_for_quota(o.logical_path@))
                &&& after@ == self@.remove(physical_path)
                &&& after.quota_tasks() == with_quota_delta(
                    self.quota_tasks(),
                    o.user_id@,
                    o.logical_path@,
                    new_size - previous_size,
                    now,
                )
                &&& if index {
                    let task = after.index_tasks()[key];
                    &&& after.index_tasks() == self.index_tasks().insert(key, task)
                    &&& task.next_sync_at == now + 1
                    &&& task.retry_count == 0
                    &&& if self.index_tasks().contains_key(key) {
                        let was = self.index_tasks()[key];
                        &&& task.user_id == was.user_id
                        &&& task.logical_parent_path == was.logical_parent_path
                        &&& task.physical_parent_path == was.physical_parent_path
                    } else {
                        is_index_task(task, o.user_id@, o.logical_path@, physical_path, now)
                    }
                } else {
                    after.index_tasks() == self.index_tasks()
                }
            },
        }
    }

    /// The write of a flush reached the storage, where the file had `previous_size`
    /// bytes before and has `new_size` now. Where the file was not written again
    /// since the flush began, nothing is pending any more, and the index and the
    /// user's bytes in use are to follow.
    pub fn flush_succeeded(
        &mut self,
        physical_path: &str,
        generation: u64,
        previous_size: i64,
        new_size: i64,
        now: i64,
    ) -> (res: FlushEnd)
        requires
            old(self).wf(),
            now < i64::MAX,
            i64::MIN <= new_size - previous_size <= i64::MAX,
            old(self)@.contains_key(physical_path@) ==> ({
                let user = old(self)@[physical_path@].user_id@;
                old(self).quota_tasks().contains_key(user) ==> i64::MIN
                    <= old(self).quota_tasks()[user].delta + (new_size - previous_size) <= i64::MAX
            }),
        ensures
            final(self).wf(),
            old(self).ends(
                *final(self),
                physical_path@,
                generation,
                previous_size,
                new_size,
                now,
                res,
            ),
    {
        let ghost start = *self;
        let ghost before = self.entries@;
        match self.entries.remove(physical_path) {
            None => {
                assert(before.remove(physical_path@) =~= before);
                FlushEnd::Gone
            },
            Some(mut o) => {
                if o.generation != generation {
                    o.state = PendingWriteState::Pending;
                    o.next_retry_at = now;
                    proof {
                        taken_replace(self.in_memory, before, physical_path@, o);
                        assert(before.remove(physical_path@).insert(physical_path@, o)
                            =~= before.insert(physical_path@, o));
                    }
                    self.entries.insert(physical_path, o);
                    return FlushEnd::Superseded;
                }
                proof {
                    taken_remove(self.in_memory, before, physical_path@);
                }
                self.accounted_bytes = self.accounted_bytes - self.accounted_bytes_for(&o);
                let index: bool = self.schedule_index_sync(
                    o.user_id.as_str(),
                    o.logical_path.as_str(),
                    physical_path,
                    now,
                );
                let quota: bool = self.schedule_quota_sync(
                    o.user_id.as_str(),
                    o.logical_path.as_str(),
                    new_size - previous_size,
                    now,
                );
                FlushEnd::Done { index, quota }
            },
        }
    }

    fn schedule_index_sync(
        &mut self,
        user_id: &str,
        logical_path: &str,
        physical_path: &str,
        now: i64,
    ) -> (res: bool)
        requires
            old(self).wf(),
            now < i64::MAX,
        ensures
            final(self).wf(),
            final(self).same_setup(*old(self)),
            final(self).same_marks(*old(self)),
            final(self)@ == old(self)@,
            final(self).accounted() == old(self).accounted(),
            final(self).quota_tasks() == old(self).quota_tasks(),
            res == old(self).rules().admits(logical_path@),
            ({
                let key = index_key(user_id@, parent_dir_spec(logical_path@));
                if res {
                    let task = final(self).index_tasks()[key];
                    &&& final(self).index_tasks() == old(self).index_tasks().insert(key, task)
                    &&& task.next_sync_at == now + 1
                    &&& task.retry_count == 0
                    &&& if old(self).index_tasks().contains_key(key) {
                        let was = old(self).index_tasks()[key];
                        &&& task.user_id == was.user_id
                        &&& task.logical_parent_path == was.logical_parent_path
                        &&& task.physical_parent_path == was.physical_parent_path
                    } else {
                        is_index_task(task, user_id@, logical_path@, physical_path@, now)
                    }
                } else {
                    final(self).index_tasks() == old(self).index_tasks()
                }
            }),
    {
        if !self.policy.allows(logical_path) {
            return false;
        }
        let ghost before = self.index_sync_dirs@;
        let logical_parent: String = parent_path(logical_path);
        let key: String = concat3(user_id, "\n", logical_parent.as_str());
        let task: DirectoryIndexSyncTask = match self.index_sync_dirs.remove(key.as_str()) {
            Some(was) => DirectoryIndexSyncTask {
                user_id: was.user_id,
                logical_parent_path: was.logical_parent_path,
                physical_parent_path: was.physical_parent_path,
                next_sync_at: now + 1,
                retry_count: 0,
            },
            None => DirectoryIndexSyncTask {
                user_id: user_id.to_owned(),
                logical_parent_path: logical_parent,
                physical_parent_path: parent_path(physical_path),
                next_sync_at: now + 1,
                retry_count: 0,
            },
        };
        self.index_sync_dirs.insert(key.as_str(), task);
        assert(self.index_sync_dirs@ =~= before.insert(key@, task));
        true
    }

    /// The bytes that a user has in use have changed by `delta`, which is still to be
    /// recorded: it is added to what is pending for that user, unless the file does not
    /// count. Tells whether there was something to add.
    pub fn schedule_quota_sync(
        &mut self,
        user_id: &str,
        logical_path: &str,
        delta: i64,
        now: i64,
    ) -> (res: bool)
        requires
            old(self).wf(),
            now < i64::MAX,
            old(self).quota_tasks().contains_key(user_id@) ==> i64::MIN
                <= old(self).quota_tasks()[user_id@].delta + delta <= i64::MAX,
        ensures
            final(self).wf(),
            final(self).same_setup(*old(self)),
            final(self).same_marks(*old(self)),
            final(self)@ == old(self)@,
            final(self).accounted() == old(self).accounted(),
            final(self).index_tasks() == old(self).index_tasks(),
            final(self).quota_tasks() == with_quota_delta(
                old(self).quota_tasks(),
                user_id@,
                logical_path@,
                delta as int,
                now,
            ),
            res == (delta != 0 && counts_for_quota(logical_path@)),
            pending_of(final(self).quota_tasks(), user_id@) == pending_of(
                old(self).quota_tasks(),
                user_id@,
            ) + if counts_for_quota(logical_path@) {
                delta as int
            } else {
                0
            },
            forall|other: Seq<char>|
                other != user_id@ ==> #[trigger] pending_of(final(self).quota_tasks(), other)
                    == pending_of(old(self).quota_tasks(), other),
    {
        if delta == 0 || contains_text(logical_path, "/.thumbs") {
            return false;
        }
        let ghost before = self.quota_sync_users@;
        let sum: i64 = match self.quota_sync_users.get(user_id) {
            Some(task) => task.delta + delta,
            None => delta,
        };
        if sum == 0 {
            let _ = self.quota_sync_users.remove(user_id);
        } else {
            self.quota_sync_users.insert(
                user_id,
                UserQuotaSyncTask { delta: sum, next_sync_at: now + 1, retry_count: 0 },
            );
        }
        true
    }

    // ------------------------------------------------------------ index and quota work
    /// A directory whose index task is due, taken off the list.
    pub fn take_due_index_task(&mut self, now: i64) -> (res: Option<(
        String,
        DirectoryIndexSyncTask,
    )>)
        requires
            old(self).wf(),
        ensures
            final(self).wf(),
            final(self).same_setup(*old(self)),
            final(self).same_marks(*old(self)),
            final(self)@ == old(self)@,
            final(self).accounted() == old(self).accounted(),
            final(self).quota_tasks() == old(self).quota_tasks(),
            match res {
                Some((key, task)) => {
                    &&& old(self).index_tasks().contains_key(key@)
                    &&& task == old(self).index_tasks()[key@]
                    &&& task.next_sync_at <= now
                    &&& final(self).index_tasks() == old(self).index_tasks().remove(key@)
                },
                None => {
                    &&& final(self).index_tasks() == old(self).index_tasks()
                    &&& forall|k: Seq<char>| #[trigger]
                        old(self).index_tasks().contains_key(k) ==> old(
                            self,
                        ).index_tasks()[k].next_sync_at > now
                },
            },
    {
        let n: usize = self.index_sync_dirs.len();
        let ghost keys = self.index_sync_dirs.order();
        proof {
            self.index_sync_dirs.order_lists_keys();
        }
        let mut i: usize = 0;
        while i < n
            invariant
                self.wf(),
                *self == *old(self),
                keys == self.index_sync_dirs.order(),
                n == keys.len(),
                i <= n,
                forall|j: int|
                    0 <= j < i ==> self.index_sync_dirs@[#[trigger] keys[j]].next_sync_at > now,
            decreases n - i,
        {
            let (key, task) = self.index_sync_dirs.entry(i);
            if task.next_sync_at <= now {
                let key: String = key.to_owned();
                match self.index_sync_dirs.remove(key.as_str()) {
                    Some(task) => return Some((key, task)),
                    None => return None,
                }
            }
            i += 1;
        }
        proof {
            assert forall|k: Seq<char>| #[trigger]
                self.index_tasks().contains_key(k) implies self.index_tasks()[k].next_sync_at
                > now by {
                assert(keys.contains(k));
                let j = choose|j: int| 0 <= j < keys.len() && keys[j] == k;
                assert(keys[j] == k);
            }
        }
        None
    }

    /// The index of a directory could not be brought up to date: it is tried again
    /// later, unless it was put on the list meanwhile.
    pub fn index_sync_failed(&mut self, key: &str, task: DirectoryIndexSyncTask, now: i64)
        requires
            old(self).wf(),
            now + 300 <= i64::MAX,
        ensures
            final(self).wf(),
            final(self).same_setup(*old(self)),
            final(self).same_marks(*old(self)),
            final(self)@ == old(self)@,
            final(self).accounted() == old(self).accounted(),
            final(self).quota_tasks() == old(self).quota_tasks(),
            final(self).index_tasks() == if old(self).index_tasks().contains_key(key@) {
                old(self).index_tasks()
            } else {
                old(self).index_tasks().insert(
                    key@,
                    (DirectoryIndexSyncTask {
                        next_sync_at: (now + retry_delay(
                            old(self).interval_ms(),
                            next_count(task.retry_count),
                            false,
                        )) as i64,
                        retry_count: next_count(task.retry_count),
                        ..task
                    }),
                )
            },
    {
        if self.index_sync_dirs.contains(key) {
            return;
        }
        let count: u32 = if task.retry_count == u32::MAX {
            u32::MAX
        } else {
            task.retry_count + 1
        };
        proof {
            retry_delay_bounds(self.flush_interval_ms, count, false);
        }
        let delay: i64 = retry_delay_secs(self.flush_interval_ms, count, false);
        let again: DirectoryIndexSyncTask = DirectoryIndexSyncTask {
            user_id: task.user_id,
            logical_parent_path: task.logical_parent_path,
            physical_parent_path: task.physical_parent_path,
            next_sync_at: now + delay,
            retry_count: count,
        };
        self.index_sync_dirs.insert(key, again);
    }

    /// The index of a directory is up to date: its files are no longer newer, unless
    /// the directory was put on the list meanwhile.
    pub fn index_sync_done(&mut self, key: &str, physical_parent_path: &str)
        requires
            old(self).wf(),
        ensures
            final(self).wf(),
            final(self).same_setup(*old(self)),
            final(self).same_tasks(*old(self)),
            final(self)@ == old(self)@,
            final(self).accounted() == old(self).accounted(),
            if old(self).index_tasks().contains_key(key@) {
                final(self).same_marks(*old(self))
            } else {
                &&& final(self).dirty_directories() == old(self).dirty_directories().remove(
                    physical_parent_path@,
                )
                &&& forall|p: Seq<char>| #[trigger]
                    final(self).dirty().contains(p) <==> old(self).dirty().contains(p)
                        && parent_dir_spec(p) != physical_parent_path@
            },
    {
        if self.index_sync_dirs.contains(key) {
            return;
        }
        self.clear_dirty_markers(physical_parent_path);
    }

    fn clear_dirty_markers(&mut self, physical_parent_path: &str)
        requires
            old(self).wf(),
        ensures
            final(self).wf(),
            final(self).same_setup(*old(self)),
            final(self).same_tasks(*old(self)),
            final(self)@ == old(self)@,
            final(self).accounted() == old(self).accounted(),
            final(self).dirty_directories() == old(self).dirty_directories().remove(
                physical_parent_path@,
            ),
            forall|p: Seq<char>| #[trigger]
                final(self).dirty().contains(p) <==> old(self).dirty().contains(p)
                    && parent_dir_spec(p) != physical_parent_path@,
    {
        let ghost start = *self;
        let _ = self.dirty_dirs.remove(physical_parent_path);
        assert(self.dirty_dirs@.dom() =~= start.dirty_dirs@.dom().remove(physical_parent_path@));
        let keys: Vec<String> = self.dirty_paths.keys();
        proof {
            self.dirty_paths.order_lists_keys();
        }
        let ghost all = self.dirty_paths@.dom();
        let mut i: usize = 0;
        while i < keys.len()
            invariant
                self.wf(),
                self.same_setup(start),
                self.same_tasks(start),
                self@ == start@,
                self.accounted() == start.accounted(),
                self.dirty_directories() == start.dirty_directories().remove(physical_parent_path@),
                i <= keys@.len(),
                forall|p: Seq<char>| #[trigger] all.contains(p) ==> views(keys@).contains(p),
                forall|p: Seq<char>| #[trigger]
                    self.dirty_paths@.dom().contains(p) ==> all.contains(p),
                forall|p: Seq<char>| #[trigger]
                    all.contains(p) && parent_dir_spec(p) != physical_parent_path@
                        ==> self.dirty_paths@.dom().contains(p),
                forall|j: int|
                    0 <= j < i && parent_dir_spec((#[trigger] keys@[j])@) == physical_parent_path@
                        ==> !self.dirty_paths@.dom().contains(keys@[j]@),
            decreases keys@.len() - i,
        {
            let parent: String = parent_path(keys[i].as_str());
            let ghost prior = self.dirty_paths@;
            if text_eq(parent.as_str(), physical_parent_path) {
                let _ = self.dirty_paths.remove(keys[i].as_str());
                assert(self.dirty_paths@.dom() =~= prior.dom().remove(keys@[i as int]@));
            }
            i += 1;
        }
        proof {
            assert forall|p: Seq<char>| #[trigger]
                self.dirty().contains(p) implies start.dirty().contains(p) && parent_dir_spec(p)
                != physical_parent_path@ by {
                assert(views(keys@).contains(p));
                let j = choose|j: int| 0 <= j < views(keys@).len() && views(keys@)[j] == p;
                assert(keys@[j]@ == p);
            }
        }
    }

    /// A user whose quota task is due, taken off the list.
    pub fn take_due_quota_task(&mut self, now: i64) -> (res: Option<(String, UserQuotaSyncTask)>)
        requires
            old(self).wf(),
        ensures
            final(self).wf(),
            final(self).same_setup(*old(self)),
            final(self).same_marks(*old(self)),
            final(self)@ == old(self)@,
            final(self).accounted() == old(self).accounted(),
            final(self).index_tasks() == old(self).index_tasks(),
            match res {
                Some((user, task)) => {
                    &&& old(self).quota_tasks().contains_key(user@)
                    &&& task == old(self).quota_tasks()[user@]
                    &&& task.next_sync_at <= now
                    &&& final(self).quota_tasks() == old(self).quota_tasks().remove(user@)
                },
                None => {
                    &&& final(self).quota_tasks() == old(self).quota_tasks()
                    &&& forall|k: Seq<char>| #[trigger]
                        old(self).quota_tasks().contains_key(k) ==> old(
                            self,
                        ).quota_tasks()[k].next_sync_at > now
                },
            },
    {
        let n: usize = self.quota_sync_users.len();
        let ghost keys = self.quota_sync_users.order();
        proof {
            self.quota_sync_users.order_lists_keys();
        }
        let mut i: usize = 0;
        while i < n
            invariant
                self.wf(),
                *self == *old(self),
                keys == self.quota_sync_users.order(),
                n == keys.len(),
                i <= n,
                forall|j: int|
                    0 <= j < i ==> self.quota_sync_users@[#[trigger] keys[j]].next_sync_at > now,
            decreases n - i,
        {
            let (key, task) = self.quota_sync_users.entry(i);
            if task.next_sync_at <= now {
                let key: String = key.to_owned();
                match self.quota_sync_users.remove(key.as_str()) {
                    Some(task) => return Some((key, task)),
                    None => return None,
                }
            }
            i += 1;
        }
        proof {
            assert forall|k: Seq<char>| #[trigger]
                self.quota_tasks().contains_key(k) implies self.quota_tasks()[k].next_sync_at
                > now by {
                assert(keys.contains(k));
                let j = choose|j: int| 0 <= j < keys.len() && keys[j] == k;
                assert(keys[j] == k);
            }
        }
        None
    }

    /// A user's bytes in use could not be recorded: the change is kept, added to what
    /// came up meanwhile, and tried again later.
    pub fn quota_sync_failed(&mut self, user_id: &str, task: UserQuotaSyncTask, now: i64)
        requires
            old(self).wf(),
            now + 300 <= i64::MAX,
            old(self).quota_tasks().contains_key(user_id@) ==> i64::MIN
                <= old(self).quota_tasks()[user_id@].delta + task.delta <= i64::MAX,
        ensures
            final(self).wf(),
            final(self).same_setup(*old(self)),
            final(self).same_marks(*old(self)),
            final(self)@ == old(self)@,
            final(self).accounted() == old(self).accounted(),
            final(self).index_tasks() == old(self).index_tasks(),
            ({
                let has = old(self).quota_tasks().contains_key(user_id@);
                let current = old(self).quota_tasks()[user_id@];
                let count = next_count(
                    if has {
                        current.retry_count
                    } else {
                        task.retry_count
                    },
                );
                final(self).quota_tasks() == old(self).quota_tasks().insert(
                    user_id@,
                    (UserQuotaSyncTask {
                        delta: if has {
                            (current.delta + task.delta) as i64
                        } else {
                            task.delta
                        },
                        next_sync_at: (now + retry_delay(
                            old(self).interval_ms(),
                            count,
                            false,
                        )) as i64,
                        retry_count: count,
                    }),
                )
            }),
    {
        let (delta, base): (i64, u32) = match self.quota_sync_users.get(user_id) {
            Some(current) => (current.delta + task.delta, current.retry_count),
            None => (task.delta, task.retry_count),
        };
        let count: u32 = if base == u32::MAX {
            u32::MAX
        } else {
            base + 1
        };
        proof {
            retry_delay_bounds(self.flush_interval_ms, count, false);
        }
        let delay: i64 = retry_delay_secs(self.flush_interval_ms, count, false);
        self.quota_sync_users.insert(
            user_id,
            UserQuotaSyncTask { delta, next_sync_at: now + delay, retry_count: count },
        );
    }

    /// The entries of a directory that its index has to list, with their logical
    /// paths: those of the user that may be cached.
    pub fn index_rows(&self, user_id: &str, entries: &Vec<VfsFileInfo>) -> (res: Vec<(
        String,
        VfsFileInfo,
    )>)
        ensures
            res@.map_values(|r: (String, VfsFileInfo)| r.1) == entries@.filter(
                |e: VfsFileInfo| self.indexes(user_id@, e.path@),
            ),
            forall|i: int|
                0 <= i < res@.len() ==> user_path(user_id@, (#[trigger] res@[i]).1.path@) == Some(
                    res@[i].0@,
                ),
    {
        let ghost keep = |e: VfsFileInfo| self.indexes(user_id@, e.path@);
        let ghost second = |r: (String, VfsFileInfo)| r.1;
        let mut out: Vec<(String, VfsFileInfo)> = Vec::new();
        let mut i: usize = 0;
        proof {
            reveal(Seq::filter);
            assert(entries@.take(0) =~= Seq::<VfsFileInfo>::empty());
            assert(out@.map_values(second) =~= Seq::<VfsFileInfo>::empty());
        }
        while i < entries.len()
            invariant
                i <= entries@.len(),
                keep == (|e: VfsFileInfo| self.indexes(user_id@, e.path@)),
                second == (|r: (String, VfsFileInfo)| r.1),
                out@.map_values(second) == entries@.take(i as int).filter(keep),
                forall|j: int|
                    0 <= j < out@.len() ==> user_path(user_id@, (#[trigger] out@[j]).1.path@)
                        == Some(out@[j].0@),
            decreases entries@.len() - i,
        {
            proof {
                reveal(Seq::filter);
                assert(entries@.take(i + 1).drop_last() =~= entries@.take(i as int));
            }
            let ghost prior = out@;
            match physical_to_logical_path(user_id, entries[i].path.as_str()) {
                Some(logical) => {
                    if self.policy.allows(logical.as_str()) {
                        out.push((logical, entries[i].clone()));
                        assert(out@.map_values(second) =~= prior.map_values(second).push(
                            entries@[i as int],
                        ));
                    }
                },
                None => {},
            }
            i += 1;
        }
        assert(entries@.take(i as int) =~= entries@);
        out
    }

    /// The index lists what is stored at `physical` for the user.
    pub open spec fn indexes(self, user_id: Seq<char>, physical: Seq<char>) -> bool {
        user_path(user_id, physical) matches Some(p) && self.rules().admits(p)
    }
}

/// Number of chunks in which `rows` rows are written.
pub open spec fn row_chunks(rows: u64, chunk_size: u64) -> int {
    (rows + (if chunk_size == 0 {
        1
    } else {
        chunk_size as int
    }) - 1) / (if chunk_size == 0 {
        1
    } else {
        chunk_size as int
    })
}

pub fn index_chunk_count(rows: u64, chunk_size: u64) -> (res: u64)
    ensures
        res == row_chunks(rows, chunk_size),
{
    let w: u64 = if chunk_size == 0 {
        1
    } else {
        chunk_size
    };
    if rows == 0 {
        assert((w - 1) as int / w as int == 0) by (nonlinear_arith)
            requires
                w > 0,
        ;
        0
    } else {
        proof {
            vstd::arithmetic::div_mod::lemma_div_plus_one(rows - 1, w as int);
            assert((rows - 1) / w as int <= rows - 1) by (nonlinear_arith)
                requires
                    w >= 1,
                    rows >= 1,
            ;
        }
        (rows - 1) / w + 1
    }
}

// ---------------------------------------------------------------- laws
/// A write is passed by exactly where it may not be cached or does not fit beside the
/// other pending writes, and then nothing changes. Any other is taken: it is told of,
/// its bytes are pending, its file is newer than the index, and no other pending write
/// is touched.
pub proof fn a_write_is_passed_by_or_held<P>(
    before: WriteCacheManager<P>,
    after: WriteCacheManager<P>,
    user_id: Seq<char>,
    logical_path: Seq<char>,
    physical_path: Seq<char>,
    size: u64,
    payload: P,
    now: i64,
    res: Option<VfsFileInfo>,
)
    requires
        before.wf(),
        before.enqueues(
            after,
            user_id,
            logical_path,
            physical_path,
            size,
            payload,
            now,
            res,
        ),
    ensures
        res is None <==> !before.accepts(logical_path, size) || bytes_taken(
            before.keeps_in_memory(),
            before@.remove(physical_path),
        ) + before.excess() + size > before.capacity(),
        match res {
            None => after@ == before@ && after.same_marks(before) && after.same_tasks(before),
            Some(info) => {
                let e = after@[physical_path];
                &&& info.path@ == physical_path
                &&& info.size == size
                &&& !info.is_dir
                &&& after@.contains_key(physical_path)
                &&& e.payload == payload
                &&& e.size == size
                &&& e.modified_at == now
                &&& e.state != PendingWriteState::Flushing
                &&& e.next_retry_at <= now
                &&& e.place == before.place_of(physical_path)
                &&& after.dirty().contains(physical_path)
                &&& after@.remove(physical_path) == before@.remove(physical_path)
            },
        },
{
    if before@.contains_key(physical_path) {
        taken_remove(before.keeps_in_memory(), before@, physical_path);
    } else {
        assert(before@.remove(physical_path) =~= before@);
    }
    if res is Some {
        assert(after@.remove(physical_path) =~= before@.remove(physical_path));
    }
}

/// A failed flush loses nothing: the write stays pending with the bytes that it had,
/// and waits for its next turn. `bytes` tells what a payload holds; what was put into
/// the directory for late writes holds what the flush found.
pub proof fn a_failed_flush_keeps_the_bytes<P>(
    bytes: spec_fn(P) -> Seq<u8>,
    before: WriteCacheManager<P>,
    started: WriteCacheManager<P>,
    after: WriteCacheManager<P>,
    physical_path: Seq<char>,
    force: bool,
    begun_at: i64,
    error: Seq<char>,
    now: i64,
    late: bool,
    spilled: Option<P>,
    res: (bool, Option<P>),
)
    requires
        before.flush_start(physical_path, force, begun_at) is Started,
        started@ == before.flushing(
            physical_path,
            before.flush_start(physical_path, force, begun_at),
        ),
        started.fails(after, physical_path, error, now, late, spilled, res),
        spilled matches Some(p) ==> bytes(p) == bytes(before@[physical_path].payload),
    ensures
        after@.contains_key(physical_path),
        bytes(after@[physical_path].payload) == bytes(before@[physical_path].payload),
        after@[physical_path].size == before@[physical_path].size,
        after@[physical_path].generation == before@[physical_path].generation,
        after@[physical_path].state != PendingWriteState::Flushing,
        after@.remove(physical_path) == before@.remove(physical_path),
{
    assert(after@.remove(physical_path) =~= before@.remove(physical_path));
}

/// A write that comes in while its file is being flushed is not lost: the flush ends
/// as superseded, and the newer bytes stay pending.
pub proof fn newer_write_survives_flush<P>(
    before: WriteCacheManager<P>,
    started: WriteCacheManager<P>,
    newer: WriteCacheManager<P>,
    after: WriteCacheManager<P>,
    user_id: Seq<char>,
    logical_path: Seq<char>,
    physical_path: Seq<char>,
    size: u64,
    payload: P,
    written_at: i64,
    info: VfsFileInfo,
    start: FlushStart,
    previous_size: i64,
    new_size: i64,
    now: i64,
    end: FlushEnd,
)
    requires
        before@.contains_key(physical_path),
        before@[physical_path].generation < u64::MAX,
        start is Started,
        started@ == before.flushing(physical_path, start),
        started.enqueues(
            newer,
            user_id,
            logical_path,
            physical_path,
            size,
            payload,
            written_at,
            Some(info),
        ),
        newer.ends(
            after,
            physical_path,
            before@[physical_path].generation,
            previous_size,
            new_size,
            now,
            end,
        ),
    ensures
        end == FlushEnd::Superseded,
        after@.contains_key(physical_path),
        after@[physical_path].payload == payload,
        after@[physical_path].size == size,
        after@[physical_path].state == PendingWriteState::Pending,
        after.same_tasks(newer),
{
}

/// A flush whose file was not written again meanwhile leaves nothing pending of it,
/// and everything else as it was.
pub proof fn a_finished_flush_leaves_nothing<P>(
    before: WriteCacheManager<P>,
    started: WriteCacheManager<P>,
    after: WriteCacheManager<P>,
    physical_path: Seq<char>,
    start: FlushStart,
    previous_size: i64,
    new_size: i64,
    now: i64,
    end: FlushEnd,
)
    requires
        before@.contains_key(physical_path),
        start is Started,
        started@ == before.flushing(physical_path, start),
        started.ends(
            after,
            physical_path,
            before@[physical_path].generation,
            previous_size,
            new_size,
            now,
            end,
        ),
    ensures
        end is Done,
        !after@.contains_key(physical_path),
        after@ == before@.remove(physical_path),
{
    assert(after@ =~= before@.remove(physical_path));
}

/// No write that was taken is ever lost, whatever becomes of its flush. The flush of a
/// pending write is begun; `newer` holds the write of the same file that was taken
/// before the flush came to its end, where there was one; and the bytes reach the
/// storage (`stored`) or do not. Where they do not, what was pending stays pending.
/// Where they do, a newer write stays pending, and without one nothing does. `bytes`
/// tells what a payload holds; what was put into the directory for late writes holds
/// what is pending.
pub proof fn no_write_is_lost<P>(
    bytes: spec_fn(P) -> Seq<u8>,
    before: WriteCacheManager<P>,
    started: WriteCacheManager<P>,
    meanwhile: WriteCacheManager<P>,
    after: WriteCacheManager<P>,
    physical_path: Seq<char>,
    begun_at: i64,
    newer: Option<(Seq<char>, Seq<char>, u64, P, i64, VfsFileInfo)>,
    stored: bool,
    previous_size: i64,
    new_size: i64,
    now: i64,
    end: FlushEnd,
    error: Seq<char>,
    late: bool,
    spilled: Option<P>,
    res: (bool, Option<P>),
)
    requires
        before@.contains_key(physical_path),
        before@[physical_path].state != PendingWriteState::Flushing,
        started@ == before.flushing(
            physical_path,
            before.flush_start(physical_path, true, begun_at),
        ),
        match newer {
            Some((user_id, logical_path, size, payload, written_at, info)) => {
                &&& before@[physical_path].generation < u64::MAX
                &&& started.enqueues(
                    meanwhile,
                    user_id,
                    logical_path,
                    physical_path,
                    size,
                    payload,
                    written_at,
                    Some(info),
                )
            },
            None => meanwhile == started,
        },
        stored ==> meanwhile.ends(
            after,
            physical_path,
            before@[physical_path].generation,
            previous_size,
            new_size,
            now,
            end,
        ),
        !stored ==> {
            &&& meanwhile.fails(after, physical_path, error, now, late, spilled, res)
            &&& spilled matches Some(p) ==> bytes(p) == bytes(meanwhile@[physical_path].payload)
        },
    ensures
        after@.contains_key(physical_path) <==> !stored || newer is Some,
        stored ==> (newer matches Some(n) ==> after@[physical_path].payload == n.3),
        !stored ==> bytes(after@[physical_path].payload) == bytes(
            match newer {
                Some(n) => n.3,
                None => before@[physical_path].payload,
            },
        ),
        after@.remove(physical_path) == before@.remove(physical_path),
{
    assert(after@.remove(physical_path) =~= before@.remove(physical_path));
}

/// The changes of bytes in use that are reported add up: after a change is taken
/// over, the pending sum of that user has grown by it, unless the file does not count,
/// and no other has moved.
pub proof fn quota_changes_add_up(
    m: Map<Seq<char>, UserQuotaSyncTask>,
    user_id: Seq<char>,
    logical_path: Seq<char>,
    delta: int,
    now: i64,
    other: Seq<char>,
)
    requires
        m.contains_key(user_id) ==> i64::MIN <= m[user_id].delta + delta <= i64::MAX,
        i64::MIN <= delta <= i64::MAX,
    ensures
        ({
            let n = with_quota_delta(m, user_id, logical_path, delta, now);
            &&& pending_of(n, user_id) == pending_of(m, user_id) + if counts_for_quota(logical_path) {
                delta
            } else {
                0
            }
            &&& other != user_id ==> pending_of(n, other) == pending_of(m, other)
        }),
{
}

pub open spec fn pending_of(m: Map<Seq<char>, UserQuotaSyncTask>, user_id: Seq<char>) -> int {
    if m.contains_key(user_id) {
        m[user_id].delta as int
    } else {
        0
    }
}

/// A write is accepted exactly where the cache is on, the path may be cached, and the
/// write is neither empty nor larger than a file may be or the cache is.
pub proof fn what_is_accepted<P>(cache: WriteCacheManager<P>, logical_path: Seq<char>, size: u64)
    ensures
        cache.accepts(logical_path, size) <==> cache.on() && cache.rules().admits(logical_path)
            && size > 0 && size <= cache.max_size() && size <= cache.capacity(),
{
}

/// A flush starts where a write is pending and not being flushed: at once where it is
/// forced, and else when its turn has come; and it takes along what is pending. What is
/// due in the background is what a flush would start for.
pub proof fn flushes_start_when_it_is_time<P>(
    cache: WriteCacheManager<P>,
    physical_path: Seq<char>,
    force: bool,
    now: i64,
)
    ensures
        ({
            let start = cache.flush_start(physical_path, force, now);
            let e = cache@[physical_path];
            let pending = cache@.contains_key(physical_path) && e.state
                != PendingWriteState::Flushing;
            &&& start is Started <==> pending && (force || e.next_retry_at <= now)
            &&& start matches FlushStart::Started { generation, size, modified_at, deadline_at }
                ==> generation == e.generation && size == e.size && modified_at == e.modified_at
                && deadline_at == e.deadline_at
            &&& start is Absent <==> !cache@.contains_key(physical_path)
            &&& cache.is_due(physical_path, now) <==> cache.flush_start(
                physical_path,
                false,
                now,
            ) is Started
        }),
{
}

/// What a flush wrote is accounted for: the user's pending use grows by what the file
/// grew on the storage, unless the file does not count, and that of no other user.
pub proof fn a_finished_flush_is_accounted<P>(
    before: WriteCacheManager<P>,
    after: WriteCacheManager<P>,
    physical_path: Seq<char>,
    generation: u64,
    previous_size: i64,
    new_size: i64,
    now: i64,
    end: FlushEnd,
    other: Seq<char>,
)
    requires
        before.ends(after, physical_path, generation, previous_size, new_size, now, end),
        end is Done,
        i64::MIN <= new_size - previous_size <= i64::MAX,
        i64::MIN <= pending_of(before.quota_tasks(), before@[physical_path].user_id@) + (new_size
            - previous_size) <= i64::MAX,
    ensures
        ({
            let o = before@[physical_path];
            &&& pending_of(after.quota_tasks(), o.user_id@) == pending_of(
                before.quota_tasks(),
                o.user_id@,
            ) + if has_infix(o.logical_path@, "/.thumbs"@) {
                0
            } else {
                new_size - previous_size
            }
            &&& other != o.user_id@ ==> pending_of(after.quota_tasks(), other) == pending_of(
                before.quota_tasks(),
                other,
            )
            &&& before.rules().admits(o.logical_path@) ==> after.index_tasks().contains_key(
                o.user_id@ + seq!['\n'] + parent_dir_spec(o.logical_path@),
            )
        }),
{
    reveal_strlit("\n");
    assert("\n"@ =~= seq!['\n']);
}

/// A flush that failed is tried again: after a while, with the error kept, the count of
/// its tries one higher, and its bytes still those of the same write. The failure is
/// reported as late once, and only after the deadline.
pub proof fn a_failed_flush_is_tried_again<P>(
    e: PendingWrite<P>,
    o: PendingWrite<P>,
    flush_interval_ms: u64,
    error: Seq<char>,
    now: i64,
    late: bool,
    spilled: Option<P>,
)
    requires
        is_after_failure(e, o, flush_interval_ms, error, now, late, spilled),
    ensures
        now < e.next_retry_at <= now + 300,
        !e.abnormal_logged ==> e.next_retry_at <= now + 60,
        e.last_error is Some && e.last_error->0@ == error,
        o.retry_count < u32::MAX ==> e.retry_count == o.retry_count + 1,
        e.generation == o.generation,
        e.size == o.size,
        e.deadline_at == o.deadline_at,
        e.user_id == o.user_id,
        e.logical_path == o.logical_path,
        e.state == PendingWriteState::Abnormal <==> e.abnormal_logged,
        e.state != PendingWriteState::Flushing,
        o.abnormal_logged ==> e.abnormal_logged,
        e.abnormal_logged && !o.abnormal_logged ==> late,
        !late ==> e.payload == o.payload && e.place == o.place,
        spilled is None ==> e.payload == o.payload && e.place == o.place,
        is_reported(o, late, spilled) <==> e.abnormal_logged && !o.abnormal_logged,
        late && spilled is Some ==> e.abnormal_logged,
{
    retry_delay_bounds(flush_interval_ms, e.retry_count, e.abnormal_logged);
}

/// The first retry waits as long as a flush takes its turn, each further one twice as
/// long as the one before, until the bounds are reached; from the seventh on the wait
/// stays.
pub proof fn waits_are_doubled(flush_interval_ms: u64, retry_count: u32, abnormal: bool)
    requires
        1 <= retry_count < u32::MAX,
    ensures
        ({
            let high = if abnormal {
                300int
            } else {
                60
            };
            let first = retry_delay(flush_interval_ms, 1, false);
            let wait = retry_delay(flush_interval_ms, retry_count, abnormal);
            let next = retry_delay(flush_interval_ms, (retry_count + 1) as u32, abnormal);
            &&& flush_interval_ms < 2000 ==> first == 1
            &&& 2000 <= flush_interval_ms < 61000 ==> first == flush_interval_ms as int / 1000
            &&& retry_count >= 7 ==> next == wait
            &&& retry_count < 7 && wait < high && !(abnormal && wait == 5) ==> next == if 2 * wait
                > high {
                high
            } else {
                2 * wait
            }
        }),
{
    vstd::arithmetic::power2::lemma2_to64();
    let base = if flush_interval_ms < 2000 {
        1
    } else {
        flush_interval_ms as int / 1000
    };
    assert(vstd::arithmetic::power2::pow2(0) == 1);
    assert(base * 1 == base);
    if retry_count < 7 {
        let p = vstd::arithmetic::power2::pow2((retry_count - 1) as nat) as int;
        vstd::arithmetic::power2::lemma_pow2_unfold(retry_count as nat);
        vstd::arithmetic::power2::lemma_pow2_pos((retry_count - 1) as nat);
        assert(vstd::arithmetic::power2::pow2(retry_count as nat) == 2 * p);
        assert(base * (2 * p) == 2 * (base * p)) by (nonlinear_arith);
        assert(base * p >= 1) by (nonlinear_arith)
            requires
                base >= 1,
                p >= 1,
        ;
    }
}

/// A write that is taken has until its deadline, and is newer than what it replaces:
/// its generation is higher, so that a flush of the older bytes does not count for it.
pub proof fn a_taken_write_is_newer<P>(
    before: WriteCacheManager<P>,
    after: WriteCacheManager<P>,
    user_id: Seq<char>,
    logical_path: Seq<char>,
    physical_path: Seq<char>,
    size: u64,
    payload: P,
    now: i64,
    info: VfsFileInfo,
)
    requires
        before.enqueues(
            after,
            user_id,
            logical_path,
            physical_path,
            size,
            payload,
            now,
            Some(info),
        ),
    ensures
        ({
            let e = after@[physical_path];
            &&& e.deadline_at == now + before.deadline_secs()
            &&& e.next_retry_at == now
            &&& e.last_error is None
            &&& !before@.contains_key(physical_path) ==> e.user_id@ == user_id && e.logical_path@
                == logical_path && e.retry_count == 0 && !e.abnormal_logged
            &&& before@.contains_key(physical_path) && before@[physical_path].generation < u64::MAX
                ==> e.generation > before@[physical_path].generation
            &&& after.accounted() <= after.capacity()
            &&& after.dirty_directories().contains(parent_dir_spec(physical_path))
            &&& after.quota_tasks() == before.quota_tasks()
        }),
{
}

/// A stored path is a user's where it lies below the user's directory: its logical path
/// is then the rest of it. What lies elsewhere is not the user's.
pub proof fn stored_paths_are_the_users(user_id: Seq<char>, rest: Seq<char>, other: Seq<char>)
    requires
        rest.len() > 0,
        rest[0] != '/',
        rest.last() != '/',
    ensures
        user_path(user_id, user_id + seq!['/'] + rest) == Some(seq!['/'] + rest),
        user_path(user_id, user_id) == Some(seq!['/']),
        other != user_id && !has_prefix(other, user_id + seq!['/']) ==> user_path(user_id, other) is None,
{
    reveal_strlit("/");
    assert("/"@ =~= seq!['/']);
    let p = user_id + seq!['/'] + rest;
    assert(p.take((user_id + seq!['/']).len() as int) =~= user_id + seq!['/']);
    assert(p.skip((user_id + seq!['/']).len() as int) =~= rest);
    assert(trim_start_char(rest, '/') == rest);
    let l = seq!['/'] + rest;
    assert(l.last() == rest.last());
    assert(trim_end_char(l, '/') == l);
    assert(p.len() > user_id.len());
}

/// Two directories never share an index task.
pub proof fn index_tasks_are_not_shared(a: Seq<char>, b: Seq<char>, p: Seq<char>, q: Seq<char>)
    requires
        !a.contains('\n'),
        !b.contains('\n'),
        index_key(a, p) == index_key(b, q),
    ensures
        a == b,
        p == q,
{
    reveal_strlit("\n");
    let x = index_key(a, p);
    let y = index_key(b, q);
    assert(x[a.len() as int] == '\n');
    assert(y[b.len() as int] == '\n');
    if a.len() < b.len() {
        assert(y[a.len() as int] == b[a.len() as int]);
        assert(b.contains('\n'));
    }
    if b.len() < a.len() {
        assert(x[b.len() as int] == a[b.len() as int]);
        assert(a.contains('\n'));
    }
    assert(x.take(a.len() as int) =~= a);
    assert(y.take(a.len() as int) =~= b);
    assert(x.skip(a.len() as int + 1) =~= p);
    assert(y.skip(a.len() as int + 1) =~= q);
}

/// A write is taken exactly where it is accepted and fits beside what is pending; what it
/// replaces makes room for it. A taken write is the one that is pending from then on, and
/// no other changes.
pub proof fn writes_are_taken_where_they_fit<P>(
    before: WriteCacheManager<P>,
    after: WriteCacheManager<P>,
    user_id: Seq<char>,
    logical_path: Seq<char>,
    physical_path: Seq<char>,
    size: u64,
    payload: P,
    now: i64,
    res: Option<VfsFileInfo>,
    other: Seq<char>,
)
    requires
        before.enqueues(after, user_id, logical_path, physical_path, size, payload, now, res),
    ensures
        res is Some ==> before.accepts(logical_path, size),
        before.accepts(logical_path, size) && before.accounted() + size <= before.capacity()
            ==> res is Some,
        !before@.contains_key(physical_path) && before.accounted() + size > before.capacity()
            ==> res is None,
        res is Some ==> after@.contains_key(physical_path) && after@[physical_path].payload
            == payload && after@[physical_path].size == size && after@[physical_path].modified_at
            == now,
        res is Some ==> res->0.path@ == physical_path && res->0.size == size && !res->0.is_dir,
        other != physical_path || res is None ==> after@.contains_key(other)
            == before@.contains_key(other) && after@[other] == before@[other],
        res is Some ==> after.dirty().contains(physical_path),
{
}

/// Seconds since the epoch are told in nanoseconds, as far as the calendar goes.
pub proof fn times_are_told_in_nanoseconds(secs: i64)
    ensures
        -8334601228800 <= secs <= 8210266876799 ==> time_of_secs(secs) == Some(
            (secs * 1_000_000_000) as i128,
        ),
        secs < -8334601228800 || secs > 8210266876799 ==> time_of_secs(secs) is None,
{
}

/// A pending write counts for the cache where its bytes lie where the cache keeps them.
pub proof fn bytes_count_where_they_lie<P>(e: PendingWrite<P>)
    ensures
        accounted_of(true, e) == if e.place == BlobPlace::Memory {
            e.size as nat
        } else {
            0
        },
        accounted_of(false, e) == if e.place == BlobPlace::Memory {
            0
        } else {
            e.size as nat
        },
{
}

/// A directory is listed under a path that ends with a slash.
pub proof fn directories_are_listed_behind_a_slash(path: Seq<char>)
    requires
        path.len() > 0,
    ensures
        listing_form(path).last() == '/',
        path.last() == '/' ==> listing_form(path) == path,
        path.last() != '/' ==> listing_form(path) == path.push('/'),
        listing_form(Seq::empty()).len() == 0,
{
    reveal_strlit("/");
    assert(path + "/"@ =~= path.push('/'));
}

/// The rows fill all chunks but the last, and no chunk is empty.
pub proof fn chunks_hold_all_rows(rows: u64, chunk_size: u64)
    requires
        chunk_size > 0,
    ensures
        rows > 0 ==> (row_chunks(rows, chunk_size) - 1) * chunk_size < rows <= row_chunks(
            rows,
            chunk_size,
        ) * chunk_size,
        row_chunks(0, chunk_size) == 0,
        row_chunks(rows, 0) == rows,
{
    let w = chunk_size as int;
    let n = row_chunks(rows, chunk_size);
    vstd::arithmetic::div_mod::lemma_fundamental_div_mod(rows + w - 1, w);
    vstd::arithmetic::div_mod::lemma_mod_bound(rows + w - 1, w);
    assert(w * n == n * w) by (nonlinear_arith);
    assert((n - 1) * w == n * w - w) by (nonlinear_arith);
    vstd::arithmetic::div_mod::lemma_basic_div(w - 1, w);
}

/// A flush is late once its deadline has passed, a write is moved out of the way while
/// it is not there yet, and an entry is asked for again where its time is missing or its
/// size may be.
pub proof fn what_is_late_or_doubtful<P>(
    cache: WriteCacheManager<P>,
    physical_path: Seq<char>,
    deadline_at: i64,
    now: i64,
    size: u64,
)
    ensures
        WriteCacheManager::<P>::late_at(deadline_at, now) <==> deadline_at < now,
        cache.spills(physical_path) ==> cache@.contains_key(physical_path),
        cache@.contains_key(physical_path) ==> (cache.spills(physical_path) <==> !(
        cache@[physical_path].place is AbnormalDir)),
        is_doubtful(false, true, size) && is_doubtful(false, false, size),
        is_doubtful(true, true, size) <==> size == 0,
        !is_doubtful(true, false, size),
{
}

/// A write that is offered is passed by exactly where it is not accepted or does not
/// fit, and else takes the place of the pending write of the same file, where there is
/// one.
pub proof fn a_write_is_passed_by_or_taken<P>(
    cache: WriteCacheManager<P>,
    logical_path: Seq<char>,
    physical_path: Seq<char>,
    size: u64,
)
    ensures
        ({
            let a = cache.admission_of(logical_path, physical_path, size);
            &&& a is Replace ==> cache@.contains_key(physical_path)
            &&& a is Fresh ==> !cache@.contains_key(physical_path)
            &&& a is Bypass <==> !cache.accepts(logical_path, size) || !cache.fits(
                physical_path,
                size,
            )
            &&& !cache@.contains_key(physical_path) ==> (cache.fits(physical_path, size)
                <==> cache.accounted() + size <= cache.capacity())
            &&& cache@.contains_key(physical_path) && cache@[physical_path].place
                == BlobPlace::Memory && cache.keeps_in_memory() ==> (cache.fits(physical_path, size)
                <==> cache.accounted() - cache@[physical_path].size + size <= cache.capacity())
        }),
{
}

/// An entry is known without the slash at its end; the root keeps its own.
pub proof fn entries_are_known_without_a_slash(path: Seq<char>)
    requires
        path.len() > 0,
    ensures
        entry_path(path.push('/')) == path,
        path.last() != '/' ==> entry_path(path) == path,
        entry_path(seq!['/']) == seq!['/'],
        entry_path(Seq::empty()) == Seq::<char>::empty(),
{
    reveal_strlit("/");
    assert("/"@ =~= seq!['/']);
    assert(path.push('/').drop_last() =~= path);
    assert(path.push('/').len() > 1);
}

/// A new write is kept where the cache keeps them; one that replaces another takes the
/// file of that one where it has one.
pub proof fn bytes_are_kept_where_the_cache_keeps_them<P>(
    before: WriteCacheManager<P>,
    after: WriteCacheManager<P>,
    user_id: Seq<char>,
    logical_path: Seq<char>,
    physical_path: Seq<char>,
    size: u64,
    payload: P,
    now: i64,
    info: VfsFileInfo,
)
    requires
        before.enqueues(after, user_id, logical_path, physical_path, size, payload, now, Some(info)),
    ensures
        ({
            let place = after@[physical_path].place;
            let in_file = before@.contains_key(physical_path) && before@[physical_path].place
                != BlobPlace::Memory;
            &&& in_file ==> place == before@[physical_path].place
            &&& !in_file && before.keeps_in_memory() ==> place == BlobPlace::Memory
            &&& !in_file && !before.keeps_in_memory() ==> place == BlobPlace::QueueDir
        }),
        ({
            let task = after.index_tasks()[user_id + seq!['\n'] + parent_dir_spec(logical_path)];
            &&& task.user_id@ == user_id
            &&& task.logical_parent_path@ == parent_dir_spec(logical_path)
            &&& task.physical_parent_path@ == parent_dir_spec(physical_path)
            &&& task.next_sync_at == now + 1
            &&& task.retry_count == 0
        }),
{
    reveal_strlit("\n");
    assert("\n"@ =~= seq!['\n']);
}

/// What is to be recorded of a user's use is recorded a second later, as often as it
/// takes.
pub proof fn changes_are_recorded_soon(
    m: Map<Seq<char>, UserQuotaSyncTask>,
    user_id: Seq<char>,
    logical_path: Seq<char>,
    delta: int,
    now: i64,
)
    requires
        now < i64::MAX,
        delta != 0,
        !has_infix(logical_path, "/.thumbs"@),
    ensures
        ({
            let after = with_quota_delta(m, user_id, logical_path, delta, now);
            &&& after.contains_key(user_id) ==> after[user_id].next_sync_at == now + 1
                && after[user_id].retry_count == 0
            &&& !m.contains_key(user_id) ==> after.contains_key(user_id)
            &&& m.contains_key(user_id) ==> (after.contains_key(user_id) <==> m[user_id].delta
                + delta != 0)
        }),
{
}

/// A flush that starts marks its own write and no other, and one that does not start
/// changes nothing.
pub proof fn a_flush_marks_its_own_write<P>(
    cache: WriteCacheManager<P>,
    physical_path: Seq<char>,
    start: FlushStart,
    other: Seq<char>,
)
    ensures
        start is Started ==> cache.flushing(physical_path, start)[physical_path].state
            == PendingWriteState::Flushing,
        start is Started ==> cache.flushing(physical_path, start)[physical_path].generation
            == cache@[physical_path].generation,
        !(start is Started) ==> cache.flushing(physical_path, start) == cache@,
        other != physical_path && cache@.contains_key(other) ==> cache.flushing(
            physical_path,
            start,
        ).contains_key(other) && cache.flushing(physical_path, start)[other] == cache@[other],
{
}

/// Once a write has reached the storage, the index follows where it lists the file and
/// the use where the size has changed and counts; a write that was replaced meanwhile
/// stays, and nothing else of the cache changes.
pub proof fn what_follows_a_flush<P>(
    before: WriteCacheManager<P>,
    after: WriteCacheManager<P>,
    physical_path: Seq<char>,
    generation: u64,
    previous_size: i64,
    new_size: i64,
    now: i64,
    end: FlushEnd,
    other: Seq<char>,
)
    requires
        before.ends(after, physical_path, generation, previous_size, new_size, now, end),
    ensures
        end matches FlushEnd::Done { index, quota } ==> (index <==> before.rules().admits(
            before@[physical_path].logical_path@,
        )) && (quota <==> new_size != previous_size && !has_infix(
            before@[physical_path].logical_path@,
            "/.thumbs"@,
        )),
        end is Done <==> before@.contains_key(physical_path)
            && before@[physical_path].generation == generation,
        end is Gone <==> !before@.contains_key(physical_path),
        end is Done ==> !after@.contains_key(physical_path),
        end is Superseded ==> after@.contains_key(physical_path) && after@[physical_path].payload
            == before@[physical_path].payload && after@[physical_path].state
            == PendingWriteState::Pending && after@[physical_path].next_retry_at == now,
        !(end is Done) ==> after.index_tasks() == before.index_tasks() && after.quota_tasks()
            == before.quota_tasks(),
        other != physical_path ==> after@.contains_key(other) == before@.contains_key(other),
        other != physical_path && before@.contains_key(other) ==> after@[other] == before@[other],
        after.dirty() == before.dirty(),
        after.dirty_directories() == before.dirty_directories(),
{
}

/// A flush that failed changes its own write alone, and the settings stay.
pub proof fn a_failure_touches_its_own_write<P>(
    before: WriteCacheManager<P>,
    after: WriteCacheManager<P>,
    physical_path: Seq<char>,
    error: Seq<char>,
    now: i64,
    late: bool,
    spilled: Option<P>,
    res: (bool, Option<P>),
    other: Seq<char>,
)
    requires
        before.fails(after, physical_path, error, now, late, spilled, res),
    ensures
        after@.contains_key(other) == before@.contains_key(other),
        other != physical_path && before@.contains_key(other) ==> after@[other] == before@[other],
        after.dirty() == before.dirty(),
        after.dirty_directories() == before.dirty_directories(),
        after.index_tasks() == before.index_tasks(),
        after.quota_tasks() == before.quota_tasks(),
        after.on() == before.on(),
        after.keeps_in_memory() == before.keeps_in_memory(),
        after.capacity() == before.capacity(),
        after.max_size() == before.max_size(),
        after.interval_ms() == before.interval_ms(),
        after.deadline_secs() == before.deadline_secs(),
        after.rules() == before.rules(),
        res.1 is Some <==> late && spilled is Some && before@.contains_key(physical_path)
            && before@[physical_path].place != BlobPlace::AbnormalDir,
        res.1 is Some ==> res.1->0 == before@[physical_path].payload,
        !before@.contains_key(physical_path) ==> !res.0,
{
}

} // verus!
