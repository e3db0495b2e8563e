//! Counters of what the storage did.
use vstd::prelude::*;

verus! {

/// The counters at one moment.
#[derive(Debug, Clone, Copy, PartialEq, Eq, Structural)]
pub struct VfsMetricsSnapshot {
    pub read_cache_hits: u64,
    pub read_cache_misses: u64,
    pub read_cache_puts: u64,
    pub read_cache_put_bytes: u64,
    pub write_cache_enqueues: u64,
    pub write_cache_bypasses: u64,
    pub write_cache_pending_reads: u64,
    pub write_cache_flush_success: u64,
    pub write_cache_flush_failures: u64,
    pub write_cache_abnormal_spills: u64,
    pub index_sync_spawned: u64,
    pub index_sync_skipped_debounce: u64,
    pub index_sync_skipped_inflight: u64,
    pub index_sync_completed: u64,
    pub index_sync_failed: u64,
    pub index_sync_rows: u64,
    pub index_sync_chunks: u64,
    pub quota_sync_scheduled: u64,
    pub quota_sync_success: u64,
    pub quota_sync_failed: u64,
}

/// The counters. Each starts at zero, and starts again there when it runs over.
#[derive(Debug)]
pub struct VfsMetrics {
    counts: VfsMetricsSnapshot,
}

/// A counter that was `n`, after `by` more.
pub open spec fn counted(n: u64, by: u64) -> u64 {
    if n + by <= u64::MAX {
        (n + by) as u64
    } else {
        (n + by - u64::MAX - 1) as u64
    }
}

fn inc(n: u64, by: u64) -> (res: u64)
    ensures
        res == counted(n, by),
{
    if by <= u64::MAX - n {
        n + by
    } else {
        by - (u64::MAX - n) - 1
    }
}

/// What is counted, by the function that records it.
pub enum VfsEvent {
    ReadCacheHit,
    ReadCacheMiss,
    ReadCachePut { bytes: u64 },
    WriteCacheEnqueue,
    WriteCacheBypass,
    WriteCachePendingRead,
    WriteCacheFlushSuccess,
    WriteCacheFlushFailure,
    WriteCacheAbnormalSpill,
    IndexSyncSpawned,
    IndexSyncSkippedDebounce,
    IndexSyncSkippedInflight,
    IndexSyncCompleted { rows: u64, chunks: u64 },
    IndexSyncFailed,
    QuotaSyncScheduled,
    QuotaSyncSuccess,
    QuotaSyncFailed,
}

/// The counters before anything was recorded.
pub open spec fn at_zero() -> VfsMetricsSnapshot {
    VfsMetricsSnapshot {
        read_cache_hits: 0,
        read_cache_misses: 0,
        read_cache_puts: 0,
        read_cache_put_bytes: 0,
        write_cache_enqueues: 0,
        write_cache_bypasses: 0,
        write_cache_pending_reads: 0,
        write_cache_flush_success: 0,
        write_cache_flush_failures: 0,
        write_cache_abnormal_spills: 0,
        index_sync_spawned: 0,
        index_sync_skipped_debounce: 0,
        index_sync_skipped_inflight: 0,
        index_sync_completed: 0,
        index_sync_failed: 0,
        index_sync_rows: 0,
        index_sync_chunks: 0,
        quota_sync_scheduled: 0,
        quota_sync_success: 0,
        quota_sync_failed: 0,
    }
}

/// The counters after one more event: each event moves its own.
pub open spec fn recorded(s: VfsMetricsSnapshot, event: VfsEvent) -> VfsMetricsSnapshot {
    match event {
        VfsEvent::ReadCacheHit => VfsMetricsSnapshot {
            read_cache_hits: counted(s.read_cache_hits, 1),
            ..s
        },
        VfsEvent::ReadCacheMiss => VfsMetricsSnapshot {
            read_cache_misses: counted(s.read_cache_misses, 1),
            ..s
        },
        VfsEvent::ReadCachePut { bytes } => VfsMetricsSnapshot {
            read_cache_puts: counted(s.read_cache_puts, 1),
            read_cache_put_bytes: counted(s.read_cache_put_bytes, bytes),
            ..s
        },
        VfsEvent::WriteCacheEnqueue => VfsMetricsSnapshot {
            write_cache_enqueues: counted(s.write_cache_enqueues, 1),
            ..s
        },
        VfsEvent::WriteCacheBypass => VfsMetricsSnapshot {
            write_cache_bypasses: counted(s.write_cache_bypasses, 1),
            ..s
        },
        VfsEvent::WriteCachePendingRead => VfsMetricsSnapshot {
            write_cache_pending_reads: counted(s.write_cache_pending_reads, 1),
            ..s
        },
        VfsEvent::WriteCacheFlushSuccess => VfsMetricsSnapshot {
            write_cache_flush_success: counted(s.write_cache_flush_success, 1),
            ..s
        },
        VfsEvent::WriteCacheFlushFailure => VfsMetricsSnapshot {
            write_cache_flush_failures: counted(s.write_cache_flush_failures, 1),
            ..s
        },
        VfsEvent::WriteCacheAbnormalSpill => VfsMetricsSnapshot {
            write_cache_abnormal_spills: counted(s.write_cache_abnormal_spills, 1),
            ..s
        },
        VfsEvent::IndexSyncSpawned => VfsMetricsSnapshot {
            index_sync_spawned: counted(s.index_sync_spawned, 1),
            ..s
        },
        VfsEvent::IndexSyncSkippedDebounce => VfsMetricsSnapshot {
            index_sync_skipped_debounce: counted(s.index_sync_skipped_debounce, 1),
            ..s
        },
        VfsEvent::IndexSyncSkippedInflight => VfsMetricsSnapshot {
            index_sync_skipped_inflight: counted(s.index_sync_skipped_inflight, 1),
            ..s
        },
        VfsEvent::IndexSyncCompleted { rows, chunks } => VfsMetricsSnapshot {
            index_sync_completed: counted(s.index_sync_completed, 1),
            index_sync_rows: counted(s.index_sync_rows, rows),
            index_sync_chunks: counted(s.index_sync_chunks, chunks),
            ..s
        },
        VfsEvent::IndexSyncFailed => VfsMetricsSnapshot {
            index_sync_failed: counted(s.index_sync_failed, 1),
            ..s
        },
        VfsEvent::QuotaSyncScheduled => VfsMetricsSnapshot {
            quota_sync_scheduled: counted(s.quota_sync_scheduled, 1),
            ..s
        },
        VfsEvent::QuotaSyncSuccess => VfsMetricsSnapshot {
            quota_sync_success: counted(s.quota_sync_success, 1),
            ..s
        },
        VfsEvent::QuotaSyncFailed => VfsMetricsSnapshot {
            quota_sync_failed: counted(s.quota_sync_failed, 1),
            ..s
        },
    }
}

impl Default for VfsMetrics {
    fn default() -> (res: VfsMetrics)
        ensures
            res@ == at_zero(),
    {
        VfsMetrics {
            counts: VfsMetricsSnapshot {
                read_cache_hits: 0,
                read_cache_misses: 0,
                read_cache_puts: 0,
                read_cache_put_bytes: 0,
                write_cache_enqueues: 0,
                write_cache_bypasses: 0,
                write_cache_pending_reads: 0,
                write_cache_flush_success: 0,
                write_cache_flush_failures: 0,
                write_cache_abnormal_spills: 0,
                index_sync_spawned: 0,
                index_sync_skipped_debounce: 0,
                index_sync_skipped_inflight: 0,
                index_sync_completed: 0,
                index_sync_failed: 0,
                index_sync_rows: 0,
                index_sync_chunks: 0,
                quota_sync_scheduled: 0,
                quota_sync_success: 0,
                quota_sync_failed: 0,
            },
        }
    }
}

impl VfsMetrics {
    /// What the counters show.
    pub closed spec fn view(self) -> VfsMetricsSnapshot {
        self.counts
    }

    pub fn record_read_cache_hit(&mut self)
        ensures
            final(self)@ == recorded(old(self)@, VfsEvent::ReadCacheHit),
    {
        self.counts.read_cache_hits = inc(self.counts.read_cache_hits, 1);
    }

    pub fn record_read_cache_miss(&mut self)
        ensures
            final(self)@ == recorded(old(self)@, VfsEvent::ReadCacheMiss),
    {
        self.counts.read_cache_misses = inc(self.counts.read_cache_misses, 1);
    }

    pub fn record_read_cache_put(&mut self, bytes: u64)
        ensures
            final(self)@ == recorded(old(self)@, VfsEvent::ReadCachePut { bytes }),
    {
        self.counts.read_cache_puts = inc(self.counts.read_cache_puts, 1);
        self.counts.read_cache_put_bytes = inc(self.counts.read_cache_put_bytes, bytes);
    }

    pub fn record_write_cache_enqueue(&mut self)
        ensures
            final(self)@ == recorded(old(self)@, VfsEvent::WriteCacheEnqueue),
    {
        self.counts.write_cache_enqueues = inc(self.counts.write_cache_enqueues, 1);
    }

    pub fn record_write_cache_bypass(&mut self)
        ensures
            final(self)@ == recorded(old(self)@, VfsEvent::WriteCacheBypass),
    {
        self.counts.write_cache_bypasses = inc(self.counts.write_cache_bypasses, 1);
    }

    pub fn record_write_cache_pending_read(&mut self)
        ensures
            final(self)@ == recorded(old(self)@, VfsEvent::WriteCachePendingRead),
    {
        self.counts.write_cache_pending_reads = inc(self.counts.write_cache_pending_reads, 1);
    }

    pub fn record_write_cache_flush_success(&mut self)
        ensures
            final(self)@ == recorded(old(self)@, VfsEvent::WriteCacheFlushSuccess),
    {
        self.counts.write_cache_flush_success = inc(self.counts.write_cache_flush_success, 1);
    }

    pub fn record_write_cache_flush_failure(&mut self)
        ensures
            final(self)@ == recorded(old(self)@, VfsEvent::WriteCacheFlushFailure),
    {
        self.counts.write_cache_flush_failures = inc(self.counts.write_cache_flush_failures, 1);
    }

    pub fn record_write_cache_abnormal_spill(&mut self)
        ensures
            final(self)@ == recorded(old(self)@, VfsEvent::WriteCacheAbnormalSpill),
    {
        self.counts.write_cache_abnormal_spills = inc(self.counts.write_cache_abnormal_spills, 1);
    }

    pub fn record_index_sync_spawned(&mut self)
        ensures
            final(self)@ == recorded(old(self)@, VfsEvent::IndexSyncSpawned),
    {
        self.counts.index_sync_spawned = inc(self.counts.index_sync_spawned, 1);
    }

    pub fn record_index_sync_skipped_debounce(&mut self)
        ensures
            final(self)@ == recorded(old(self)@, VfsEvent::IndexSyncSkippedDebounce),
    {
        self.counts.index_sync_skipped_debounce = inc(self.counts.index_sync_skipped_debounce, 1);
    }

    pub fn record_index_sync_skipped_inflight(&mut self)
        ensures
            final(self)@ == recorded(old(self)@, VfsEvent::IndexSyncSkippedInflight),
    {
        self.counts.index_sync_skipped_inflight = inc(self.counts.index_sync_skipped_inflight, 1);
    }

    pub fn record_index_sync_completed(&mut self, rows: u64, chunks: u64)
        ensures
            final(self)@ == recorded(old(self)@, VfsEvent::IndexSyncCompleted { rows, chunks }),
    {
        self.counts.index_sync_completed = inc(self.counts.index_sync_completed, 1);
        self.counts.index_sync_rows = inc(self.counts.index_sync_rows, rows);
        self.counts.index_sync_chunks = inc(self.counts.index_sync_chunks, chunks);
    }

    pub fn record_index_sync_failed(&mut self)
        ensures
            final(self)@ == recorded(old(self)@, VfsEvent::IndexSyncFailed),
    {
        self.counts.index_sync_failed = inc(self.counts.index_sync_failed, 1);
    }

    pub fn record_quota_sync_scheduled(&mut self)
        ensures
            final(self)@ == recorded(old(self)@, VfsEvent::QuotaSyncScheduled),
    {
        self.counts.quota_sync_scheduled = inc(self.counts.quota_sync_scheduled, 1);
    }

    pub fn record_quota_sync_success(&mut self)
        ensures
            final(self)@ == recorded(old(self)@, VfsEvent::QuotaSyncSuccess),
    {
        self.counts.quota_sync_success = inc(self.counts.quota_sync_success, 1);
    }

    pub fn record_quota_sync_failed(&mut self)
        ensures
            final(self)@ == recorded(old(self)@, VfsEvent::QuotaSyncFailed),
    {
        self.counts.quota_sync_failed = inc(self.counts.quota_sync_failed, 1);
    }

    pub fn snapshot(&self) -> (res: VfsMetricsSnapshot)
        ensures
            res == self@,
    {
        self.counts
    }
}

/// The bytes that were put into the read cache by the event.
pub open spec fn bytes_of(event: VfsEvent) -> nat {
    match event {
        VfsEvent::ReadCachePut { bytes } => bytes as nat,
        _ => 0,
    }
}

/// The rows that the event brought to the index.
pub open spec fn rows_of(event: VfsEvent) -> nat {
    match event {
        VfsEvent::IndexSyncCompleted { rows, .. } => rows as nat,
        _ => 0,
    }
}

/// The chunks in which the event brought them.
pub open spec fn chunks_of(event: VfsEvent) -> nat {
    match event {
        VfsEvent::IndexSyncCompleted { chunks, .. } => chunks as nat,
        _ => 0,
    }
}

/// The counters after all these events, from zero.
pub open spec fn after_events(events: Seq<VfsEvent>) -> VfsMetricsSnapshot
    decreases events.len(),
{
    if events.len() == 0 {
        at_zero()
    } else {
        recorded(after_events(events.drop_last()), events.last())
    }
}

/// The sum of what `amount` gives for each event.
pub open spec fn sum_of(events: Seq<VfsEvent>, amount: spec_fn(VfsEvent) -> nat) -> nat
    decreases events.len(),
{
    if events.len() == 0 {
        0
    } else {
        sum_of(events.drop_last(), amount) + amount(events.last())
    }
}

/// How many of the events are such.
pub open spec fn number_of(events: Seq<VfsEvent>, such: spec_fn(VfsEvent) -> bool) -> nat {
    sum_of(
        events,
        |e: VfsEvent|
            if such(e) {
                1nat
            } else {
                0
            },
    )
}

/// A counter shows `n` where it starts again at zero when it runs over.
pub open spec fn shows(counter: u64, n: nat) -> bool {
    counter == n % 0x1_0000_0000_0000_0000
}

/// A counter that each event moves by its amount shows the sum of the amounts.
proof fn amounts_add_up(
    events: Seq<VfsEvent>,
    counter: spec_fn(VfsMetricsSnapshot) -> u64,
    amount: spec_fn(VfsEvent) -> nat,
)
    requires
        counter(at_zero()) == 0,
        forall|e: VfsEvent| #[trigger] amount(e) <= u64::MAX,
        forall|s: VfsMetricsSnapshot, e: VfsEvent|
            counter(#[trigger] recorded(s, e)) == counted(counter(s), amount(e) as u64),
    ensures
        shows(counter(after_events(events)), sum_of(events, amount)),
    decreases events.len(),
{
    if events.len() > 0 {
        amounts_add_up(events.drop_last(), counter, amount);
        assert(amount(events.last()) <= u64::MAX);
    }
}

/// A counter that each such event moves by one shows their number.
proof fn events_are_counted(
    events: Seq<VfsEvent>,
    counter: spec_fn(VfsMetricsSnapshot) -> u64,
    such: spec_fn(VfsEvent) -> bool,
)
    requires
        counter(at_zero()) == 0,
        forall|s: VfsMetricsSnapshot, e: VfsEvent|
            counter(#[trigger] recorded(s, e)) == if such(e) {
                counted(counter(s), 1)
            } else {
                counter(s)
            },
    ensures
        shows(counter(after_events(events)), number_of(events, such)),
{
    amounts_add_up(
        events,
        counter,
        |e: VfsEvent|
            if such(e) {
                1nat
            } else {
                0
            },
    );
}

/// Each counter of events shows how often its own event was recorded, and no other;
/// each counter of amounts shows the sum of the amounts that came with its event.
pub proof fn counters_show_what_was_recorded(events: Seq<VfsEvent>)
    ensures
        ({
            let s = after_events(events);
            &&& shows(
                s.read_cache_hits,
                number_of(events, |e: VfsEvent| e is ReadCacheHit),
            )
            &&& shows(
                s.read_cache_misses,
                number_of(events, |e: VfsEvent| e is ReadCacheMiss),
            )
            &&& shows(
                s.read_cache_puts,
                number_of(events, |e: VfsEvent| e is ReadCachePut),
            )
            &&& shows(
                s.read_cache_put_bytes,
                sum_of(events, |e: VfsEvent| bytes_of(e)),
            )
            &&& shows(
                s.write_cache_enqueues,
                number_of(events, |e: VfsEvent| e is WriteCacheEnqueue),
            )
            &&& shows(
                s.write_cache_bypasses,
                number_of(events, |e: VfsEvent| e is WriteCacheBypass),
            )
            &&& shows(
                s.write_cache_pending_reads,
                number_of(events, |e: VfsEvent| e is WriteCachePendingRead),
            )
            &&& shows(
                s.write_cache_flush_success,
                number_of(events, |e: VfsEvent| e is WriteCacheFlushSuccess),
            )
            &&& shows(
                s.write_cache_flush_failures,
                number_of(events, |e: VfsEvent| e is WriteCacheFlushFailure),
            )
            &&& shows(
                s.write_cache_abnormal_spills,
                number_of(events, |e: VfsEvent| e is WriteCacheAbnormalSpill),
            )
            &&& shows(
                s.index_sync_spawned,
                number_of(events, |e: VfsEvent| e is IndexSyncSpawned),
            )
            &&& shows(
                s.index_sync_skipped_debounce,
                number_of(events, |e: VfsEvent| e is IndexSyncSkippedDebounce),
            )
            &&& shows(
                s.index_sync_skipped_inflight,
                number_of(events, |e: VfsEvent| e is IndexSyncSkippedInflight),
            )
            &&& shows(
                s.index_sync_completed,
                number_of(events, |e: VfsEvent| e is IndexSyncCompleted),
            )
            &&& shows(
                s.index_sync_failed,
                number_of(events, |e: VfsEvent| e is IndexSyncFailed),
            )
            &&& shows(
                s.index_sync_rows,
                sum_of(events, |e: VfsEvent| rows_of(e)),
            )
            &&& shows(
                s.index_sync_chunks,
                sum_of(events, |e: VfsEvent| chunks_of(e)),
            )
            &&& shows(
                s.quota_sync_scheduled,
                number_of(events, |e: VfsEvent| e is QuotaSyncScheduled),
            )
            &&& shows(
                s.quota_sync_success,
                number_of(events, |e: VfsEvent| e is QuotaSyncSuccess),
            )
            &&& shows(
                s.quota_sync_failed,
                number_of(events, |e: VfsEvent| e is QuotaSyncFailed),
            )
        }),
{
    events_are_counted(
        events,
        |s: VfsMetricsSnapshot| s.read_cache_hits,
        |e: VfsEvent| e is ReadCacheHit,
    );
    events_are_counted(
        events,
        |s: VfsMetricsSnapshot| s.read_cache_misses,
        |e: VfsEvent| e is ReadCacheMiss,
    );
    events_are_counted(
        events,
        |s: VfsMetricsSnapshot| s.read_cache_puts,
        |e: VfsEvent| e is ReadCachePut,
    );
    amounts_add_up(
        events,
        |s: VfsMetricsSnapshot| s.read_cache_put_bytes,
        |e: VfsEvent| bytes_of(e),
    );
    events_are_counted(
        events,
        |s: VfsMetricsSnapshot| s.write_cache_enqueues,
        |e: VfsEvent| e is WriteCacheEnqueue,
    );
    events_are_counted(
        events,
        |s: VfsMetricsSnapshot| s.write_cache_bypasses,
        |e: VfsEvent| e is WriteCacheBypass,
    );
    events_are_counted(
        events,
        |s: VfsMetricsSnapshot| s.write_cache_pending_reads,
        |e: VfsEvent| e is WriteCachePendingRead,
    );
    events_are_counted(
        events,
        |s: VfsMetricsSnapshot| s.write_cache_flush_success,
        |e: VfsEvent| e is WriteCacheFlushSuccess,
    );
    events_are_counted(
        events,
        |s: VfsMetricsSnapshot| s.write_cache_flush_failures,
        |e: VfsEvent| e is WriteCacheFlushFailure,
    );
    events_are_counted(
        events,
        |s: VfsMetricsSnapshot| s.write_cache_abnormal_spills,
        |e: VfsEvent| e is WriteCacheAbnormalSpill,
    );
    events_are_counted(
        events,
        |s: VfsMetricsSnapshot| s.index_sync_spawned,
        |e: VfsEvent| e is IndexSyncSpawned,
    );
    events_are_counted(
        events,
        |s: VfsMetricsSnapshot| s.index_sync_skipped_debounce,
        |e: VfsEvent| e is IndexSyncSkippedDebounce,
    );
    events_are_counted(
        events,
        |s: VfsMetricsSnapshot| s.index_sync_skipped_inflight,
        |e: VfsEvent| e is IndexSyncSkippedInflight,
    );
    events_are_counted(
        events,
        |s: VfsMetricsSnapshot| s.index_sync_completed,
        |e: VfsEvent| e is IndexSyncCompleted,
    );
    events_are_counted(
        events,
        |s: VfsMetricsSnapshot| s.index_sync_failed,
        |e: VfsEvent| e is IndexSyncFailed,
    );
    amounts_add_up(
        events,
        |s: VfsMetricsSnapshot| s.index_sync_rows,
        |e: VfsEvent| rows_of(e),
    );
    amounts_add_up(
        events,
        |s: VfsMetricsSnapshot| s.index_sync_chunks,
        |e: VfsEvent| chunks_of(e),
    );
    events_are_counted(
        events,
        |s: VfsMetricsSnapshot| s.quota_sync_scheduled,
        |e: VfsEvent| e is QuotaSyncScheduled,
    );
    events_are_counted(
        events,
        |s: VfsMetricsSnapshot| s.quota_sync_success,
        |e: VfsEvent| e is QuotaSyncSuccess,
    );
    events_are_counted(
        events,
        |s: VfsMetricsSnapshot| s.quota_sync_failed,
        |e: VfsEvent| e is QuotaSyncFailed,
    );
}

} // verus!
