//! Storage quota of a user.
use crate::error::VfsError;
use vstd::prelude::*;

verus! {

/// `n`, brought into the range of a 64-bit signed integer.
pub open spec fn clamp_i64(n: int) -> int {
    if n > i64::MAX {
        i64::MAX as int
    } else if n < i64::MIN {
        i64::MIN as int
    } else {
        n
    }
}

pub fn sat_add(a: i64, b: i64) -> (res: i64)
    ensures
        res as int == clamp_i64(a + b),
{
    match a.checked_add(b) {
        Some(sum) => sum,
        None => if b > 0 {
            i64::MAX
        } else {
            i64::MIN
        },
    }
}

pub fn sat_sub(a: i64, b: i64) -> (res: i64)
    ensures
        res as int == clamp_i64(a - b),
{
    match a.checked_sub(b) {
        Some(d) => d,
        None => if b > 0 {
            i64::MIN
        } else {
            i64::MAX
        },
    }
}

/// What is recorded of a user's storage: the limit, zero or less standing for no
/// limit, and the bytes in use.
#[derive(Debug, Clone, Copy, PartialEq, Eq, Structural)]
pub struct StorageSettings {
    pub storage_quota: i64,
    pub storage_used: i64,
}

/// Use that is in store when `additional` bytes are added to what is recorded and
/// what is pending.
pub open spec fn projected_use(used: i64, pending: i64, additional: i64) -> int {
    clamp_i64(clamp_i64(used + pending) + additional)
}

/// The limit forbids `additional` more bytes.
pub open spec fn over_quota(
    settings: Option<StorageSettings>,
    pending: i64,
    additional: i64,
) -> bool {
    settings matches Some(s) && s.storage_quota > 0 && projected_use(
        s.storage_used,
        pending,
        additional,
    ) > s.storage_quota
}

/// Refuse `additional` more bytes where the limit forbids them.
pub fn check_quota(
    settings: Option<StorageSettings>,
    pending_delta: i64,
    additional_size: i64,
) -> (res: Result<(), VfsError>)
    ensures
        match res {
            Ok(()) => !over_quota(settings, pending_delta, additional_size),
            Err(e) => over_quota(settings, pending_delta, additional_size) && e
                == VfsError::QuotaExceeded,
        },
{
    match settings {
        Some(s) => {
            if s.storage_quota > 0 {
                let projected: i64 = sat_add(
                    sat_add(s.storage_used, pending_delta),
                    additional_size,
                );
                if projected > s.storage_quota {
                    return Err(VfsError::QuotaExceeded);
                }
            }
            Ok(())
        },
        None => Ok(()),
    }
}

/// Bytes in use and the limit, where there is one.
pub fn get_quota(settings: Option<StorageSettings>, pending_delta: i64) -> (res: (u64, Option<u64>))
    ensures
        match settings {
            Some(s) => {
                let used = clamp_i64(s.storage_used + pending_delta);
                &&& res.0 == if used > 0 {
                    used
                } else {
                    0
                }
                &&& match res.1 {
                    Some(limit) => s.storage_quota > 0 && limit == s.storage_quota,
                    None => s.storage_quota <= 0,
                }
            },
            None => res == (0u64, None::<u64>),
        },
{
    match settings {
        Some(s) => {
            let quota: Option<u64> = if s.storage_quota > 0 {
                Some(s.storage_quota as u64)
            } else {
                None
            };
            let used: i64 = sat_add(s.storage_used, pending_delta);
            let shown: u64 = if used > 0 {
                used as u64
            } else {
                0
            };
            (shown, quota)
        },
        None => (0, None),
    }
}

/// No limit recorded, or a limit of zero, admits everything.
pub proof fn no_limit_admits_all(settings: Option<StorageSettings>, pending: i64, additional: i64)
    requires
        settings matches Some(s) ==> s.storage_quota <= 0,
    ensures
        !over_quota(settings, pending, additional),
{
}

/// What the check admits leaves the recorded and pending use within the limit.
pub proof fn admitted_stays_within_limit(
    settings: StorageSettings,
    pending: i64,
    additional: i64,
)
    requires
        settings.storage_quota > 0,
        !over_quota(Some(settings), pending, additional),
        i64::MIN <= settings.storage_used + pending <= i64::MAX,
        additional >= 0,
    ensures
        settings.storage_used + pending + additional <= settings.storage_quota || (
        settings.storage_quota == i64::MAX),
{
}

/// By how much a file grows when it is replaced by `new_len` bytes.
pub fn replace_delta(new_len: u64, current_size: i64) -> (res: i64)
    requires
        new_len <= i64::MAX,
        new_len - current_size <= i64::MAX,
    ensures
        res == new_len - current_size,
{
    new_len as i64 - current_size
}

/// By how much a file of `current_size` bytes grows when `len` bytes are written at
/// `offset`.
pub open spec fn growth(offset: u64, len: u64, current_size: u64) -> int {
    if offset + len > current_size {
        offset + len - current_size
    } else {
        0
    }
}

pub fn write_at_delta(offset: u64, len: u64, current_size: u64) -> (res: i64)
    requires
        offset + len <= u64::MAX,
    ensures
        res == growth(offset, len, current_size) as i64,
{
    let new_end: u64 = offset + len;
    if new_end > current_size {
        (new_end - current_size) as i64
    } else {
        0
    }
}

/// Bytes that deleting these files frees: directories count nothing.
pub open spec fn reclaimed(entries: Seq<(bool, u64)>) -> int
    decreases entries.len(),
{
    if entries.len() == 0 {
        0
    } else {
        reclaimed(entries.drop_last()) + if entries.last().0 {
            0
        } else {
            entries.last().1 as int
        }
    }
}

pub proof fn reclaimed_monotone(entries: Seq<(bool, u64)>, k: int)
    requires
        0 <= k <= entries.len(),
    ensures
        0 <= reclaimed(entries.take(k)) <= reclaimed(entries),
    decreases entries.len(),
{
    if k < entries.len() {
        reclaimed_monotone(entries.drop_last(), k);
        assert(entries.drop_last().take(k) =~= entries.take(k));
    } else {
        assert(entries.take(k) =~= entries);
        if entries.len() > 0 {
            reclaimed_monotone(entries.drop_last(), 0);
            assert(entries.drop_last().take(0) =~= Seq::<(bool, u64)>::empty());
        }
    }
}

/// Sum of the file sizes among `entries`, each given as whether it is a directory
/// and its size.
pub fn reclaimed_size(entries: &Vec<(bool, u64)>) -> (res: i64)
    requires
        reclaimed(entries@) <= i64::MAX,
    ensures
        res == reclaimed(entries@),
{
    let mut total: i64 = 0;
    let mut i: usize = 0;
    assert(entries@.take(0) =~= Seq::<(bool, u64)>::empty());
    while i < entries.len()
        invariant
            i <= entries@.len(),
            reclaimed(entries@) <= i64::MAX,
            total == reclaimed(entries@.take(i as int)),
        decreases entries@.len() - i,
    {
        proof {
            assert(entries@.take(i + 1).drop_last() =~= entries@.take(i as int));
            reclaimed_monotone(entries@, i + 1);
            reclaimed_monotone(entries@, i as int);
        }
        let (is_dir, size): (bool, u64) = entries[i];
        if !is_dir {
            total = total + size as i64;
        }
        i += 1;
    }
    assert(entries@.take(i as int) =~= entries@);
    total
}

/// Running check of a stream against the quota.
#[derive(Debug, Clone, Copy)]
pub struct StreamQuota {
    /// Recorded and pending use, and the limit, where one applies.
    pub projection: Option<(i64, i64)>,
    /// Size of the file that the stream replaces.
    pub initial_size: i64,
    /// Bytes of the stream so far.
    pub total_written: u64,
}

impl StreamQuota {
    /// The stream's growth over the old file passes the limit at `total` bytes.
    pub open spec fn exceeded_at(self, total: int) -> bool {
        self.projection matches Some((used, limit)) && total - self.initial_size > 0 && clamp_i64(
            used + (total - self.initial_size),
        ) > limit
    }

    /// A thumbnail's stream is not checked; nor is one without a limit.
    pub fn start(
        skip_quota: bool,
        settings: Option<StorageSettings>,
        pending_delta: i64,
        initial_size: i64,
    ) -> (res: StreamQuota)
        ensures
            res.initial_size == initial_size,
            res.total_written == 0,
            match res.projection {
                Some((used, limit)) => {
                    &&& !skip_quota
                    &&& settings matches Some(s)
                    &&& s.storage_quota > 0
                    &&& used == clamp_i64(s.storage_used + pending_delta)
                    &&& limit == s.storage_quota
                },
                None => skip_quota || settings is None || settings->0.storage_quota <= 0,
            },
    {
        let projection: Option<(i64, i64)> = if skip_quota {
            None
        } else {
            match settings {
                Some(s) => if s.storage_quota > 0 {
                    Some((sat_add(s.storage_used, pending_delta), s.storage_quota))
                } else {
                    None
                },
                None => None,
            }
        };
        StreamQuota { projection, initial_size, total_written: 0 }
    }

    /// Account for a chunk before it is written.
    pub fn account(&mut self, chunk_len: u64) -> (res: Result<(), VfsError>)
        requires
            old(self).total_written + chunk_len <= i64::MAX,
            old(self).total_written + chunk_len - old(self).initial_size <= i64::MAX,
        ensures
            final(self).projection == old(self).projection,
            final(self).initial_size == old(self).initial_size,
            final(self).total_written == old(self).total_written + chunk_len,
            match res {
                Ok(()) => !old(self).exceeded_at(old(self).total_written + chunk_len),
                Err(e) => old(self).exceeded_at(old(self).total_written + chunk_len) && e
                    == VfsError::QuotaExceeded,
            },
    {
        self.total_written = self.total_written + chunk_len;
        let diff: i64 = self.total_written as i64 - self.initial_size;
        match self.projection {
            Some((used, limit)) => {
                if diff > 0 && sat_add(used, diff) > limit {
                    return Err(VfsError::QuotaExceeded);
                }
            },
            None => {},
        }
        Ok(())
    }
}

/// A stream whose last chunk was admitted stays within the limit as a whole,
/// however it was cut into chunks.
pub proof fn admitted_stream_stays_within_limit(
    check: StreamQuota,
    used: i64,
    limit: i64,
    total: int,
)
    requires
        check.projection == Some((used, limit)),
        !check.exceeded_at(total),
        total > check.initial_size,
        limit < i64::MAX,
    ensures
        used + (total - check.initial_size) <= limit,
{
}

// ---------------------------------------------------------------- laws
/// A number in range stays as it is; one out of range becomes the nearest in range.
pub proof fn clamping_takes_the_nearest(n: int, m: int)
    requires
        -0x8000_0000_0000_0000 <= m <= 0x7fff_ffff_ffff_ffff,
    ensures
        -0x8000_0000_0000_0000 <= clamp_i64(n) <= 0x7fff_ffff_ffff_ffff,
        -0x8000_0000_0000_0000 <= n <= 0x7fff_ffff_ffff_ffff ==> clamp_i64(n) == n,
        n <= m ==> clamp_i64(n) <= m,
        m <= n ==> m <= clamp_i64(n),
{
}

/// More bytes are refused exactly where there is a limit and the recorded use, the
/// pending use and they together are above it.
pub proof fn the_limit_decides(settings: StorageSettings, pending: i64, additional: i64)
    requires
        i64::MIN <= settings.storage_used + pending <= i64::MAX,
        i64::MIN <= settings.storage_used + pending + additional <= i64::MAX,
    ensures
        over_quota(Some(settings), pending, additional) <==> settings.storage_quota > 0
            && settings.storage_used + pending + additional > settings.storage_quota,
        !over_quota(None, pending, additional),
{
}

/// A stream is refused exactly where it has a limit and makes the file grow beyond it:
/// only what it adds to the file that it replaces counts.
pub proof fn the_limit_decides_on_streams(check: StreamQuota, total: int)
    requires
        check.projection matches Some((used, limit)) ==> i64::MIN <= used + (total
            - check.initial_size) <= i64::MAX,
    ensures
        check.projection is None ==> !check.exceeded_at(total),
        check.projection matches Some((used, limit)) ==> (check.exceeded_at(total) <==> total
            > check.initial_size && used + (total - check.initial_size) > limit),
{
}

/// A write into a file leaves it as long as it was, or as far as the write reaches.
pub proof fn a_write_grows_the_file_to_its_end(offset: u64, len: u64, current_size: u64)
    ensures
        growth(offset, len, current_size) >= 0,
        current_size + growth(offset, len, current_size) >= offset + len,
        current_size + growth(offset, len, current_size) == current_size || current_size + growth(
            offset,
            len,
            current_size,
        ) == offset + len,
{
}

/// What is freed adds up: every file by its size, a directory by nothing.
pub proof fn what_is_freed_adds_up(a: Seq<(bool, u64)>, is_dir: bool, size: u64)
    ensures
        reclaimed(Seq::empty()) == 0,
        !is_dir ==> reclaimed(a.push((is_dir, size))) == reclaimed(a) + size,
        is_dir ==> reclaimed(a.push((is_dir, size))) == reclaimed(a),
{
    assert(a.push((is_dir, size)).drop_last() =~= a);
}

} // verus!
