//! What follows each step of a journaled operation.
//!
//! An operation is logged, carried out on the storage, reflected in the index and
//! then settled. After each step the caller reports whether it succeeded, and gets
//! the effects to perform next, in order. An effect that has an outcome of its own
//! (`SyncIndex`, `PruneIndex`, `Probe`) comes last in its list.
use crate::text::{concat2, concat3, concat4, concat5};
use vstd::prelude::*;

verus! {

#[derive(Debug, Clone, Copy, PartialEq, Eq, Structural)]
pub enum OpKind {
    Write,
    WriteAt,
    WriteStream,
    CreateDir,
    Delete,
    Move,
    Copy,
    MoveToTrash,
    RestoreTrash,
    ProtectedWrite,
    ProtectedDelete,
    /// Moving into the recycle bin by index alone.
    ProtectedTrash,
    /// Moving out of the recycle bin by index alone.
    ProtectedRestore,
}

/// Where an operation works.
#[derive(Debug, Clone, Copy, PartialEq, Eq, Structural)]
pub enum Placement {
    /// On the storage pool.
    Pool,
    /// On temporary files.
    Temp,
    /// From one to the other.
    Across,
}

/// What an operation is about, as far as its settlement depends on it.
#[derive(Debug, Clone, Copy, PartialEq, Eq, Structural)]
pub struct FlowContext {
    pub op: OpKind,
    pub placement: Placement,
    /// The path is not counted: no quota, no index.
    pub uncounted: bool,
    /// Change of the bytes in use.
    pub quota_delta: i64,
    /// A failed deletion is of a stale recycle bin entry.
    pub stale: bool,
}

/// The step whose outcome is reported.
#[derive(Debug, Clone, Copy, PartialEq, Eq, Structural)]
pub enum Step {
    Physical,
    Index,
    /// Removal of a stale index entry.
    Prune,
    /// Reading back what is at the destination.
    Probe,
}

#[derive(Debug, Clone, Copy, PartialEq, Eq, Structural)]
pub enum FailReason {
    /// The error itself.
    Operation,
    MetadataSync,
    DeleteFailed,
    PruneFailed,
}

#[derive(Debug, Clone, Copy, PartialEq, Eq, Structural)]
pub enum Effect {
    MarkPhysicalDone,
    CompleteWal,
    FailWal(FailReason),
    UpdateQuota(i64),
    JournalSuccess,
    JournalFailure(FailReason),
    InvalidateListings,
    InvalidateAll,
    SyncIndex,
    PruneIndex,
    Probe,
    ReturnOk,
    /// Return the reported error.
    ReturnError,
    /// Return an error that tells of both failures.
    ReturnPruneError,
}

/// The change of the bytes in use, where there is one to record. A copy is recorded
/// even where it has no bytes.
pub open spec fn quota_effect(ctx: FlowContext) -> Seq<Effect> {
    if ctx.uncounted || (ctx.quota_delta == 0 && ctx.op != OpKind::Copy) {
        Seq::empty()
    } else {
        seq![Effect::UpdateQuota(ctx.quota_delta)]
    }
}

/// The error is written to the log and the journal, and returned.
pub open spec fn failure() -> Seq<Effect> {
    seq![
        Effect::FailWal(FailReason::Operation),
        Effect::JournalFailure(FailReason::Operation),
        Effect::ReturnError,
    ]
}

/// The log entry is completed, the use recorded, the journal written.
pub open spec fn success(ctx: FlowContext) -> Seq<Effect> {
    seq![Effect::CompleteWal] + quota_effect(ctx) + seq![Effect::JournalSuccess, Effect::ReturnOk]
}

/// The index could not follow: the log entry fails and the error is returned.
pub open spec fn index_failure() -> Seq<Effect> {
    seq![Effect::FailWal(FailReason::MetadataSync), Effect::ReturnError]
}

pub open spec fn after_physical(ctx: FlowContext, ok: bool) -> Seq<Effect> {
    let mark = seq![Effect::MarkPhysicalDone];
    match ctx.op {
        OpKind::Write => match ctx.placement {
            Placement::Pool => if ok {
                mark + seq![Effect::SyncIndex]
            } else {
                failure()
            },
            _ => if ok {
                mark + seq![Effect::Probe]
            } else {
                seq![Effect::ReturnError]
            },
        },
        OpKind::WriteAt => if ok {
            mark + quota_effect(ctx) + seq![Effect::JournalSuccess, Effect::SyncIndex]
        } else {
            failure()
        },
        OpKind::WriteStream => if ok {
            mark + quota_effect(ctx) + seq![Effect::SyncIndex]
        } else {
            seq![Effect::FailWal(FailReason::Operation), Effect::ReturnError]
        },
        OpKind::CreateDir => match ctx.placement {
            Placement::Pool => if ok {
                mark + seq![Effect::JournalSuccess, Effect::InvalidateListings, Effect::SyncIndex]
            } else {
                failure()
            },
            _ => if ok {
                mark + seq![Effect::CompleteWal, Effect::ReturnOk]
            } else {
                seq![Effect::ReturnError]
            },
        },
        OpKind::Delete => match ctx.placement {
            Placement::Pool => if !ok {
                if ctx.stale {
                    seq![Effect::PruneIndex]
                } else {
                    seq![
                        Effect::FailWal(FailReason::DeleteFailed),
                        Effect::JournalFailure(FailReason::DeleteFailed),
                        Effect::ReturnError,
                    ]
                }
            } else if ctx.uncounted {
                mark + seq![
                    Effect::CompleteWal,
                    Effect::InvalidateListings,
                    Effect::JournalSuccess,
                    Effect::ReturnOk,
                ]
            } else {
                mark + seq![Effect::SyncIndex]
            },
            _ => if ok {
                mark + seq![Effect::CompleteWal, Effect::ReturnOk]
            } else {
                seq![Effect::ReturnError]
            },
        },
        OpKind::Move => match ctx.placement {
            Placement::Pool => if !ok {
                failure()
            } else if ctx.uncounted {
                mark + seq![Effect::InvalidateAll, Effect::Probe]
            } else {
                mark + seq![Effect::InvalidateAll, Effect::SyncIndex]
            },
            Placement::Temp => if ok {
                mark + seq![Effect::Probe]
            } else {
                seq![Effect::ReturnError]
            },
            Placement::Across => if ok {
                seq![Effect::CompleteWal, Effect::JournalSuccess, Effect::ReturnOk]
            } else {
                seq![Effect::ReturnError]
            },
        },
        OpKind::Copy => match ctx.placement {
            Placement::Pool => if ok {
                mark + seq![Effect::SyncIndex]
            } else {
                failure()
            },
            Placement::Temp => if ok {
                mark + seq![Effect::Probe]
            } else {
                seq![Effect::ReturnError]
            },
            Placement::Across => if ok {
                success(ctx)
            } else {
                failure()
            },
        },
        OpKind::MoveToTrash | OpKind::RestoreTrash => if ok {
            mark + seq![Effect::SyncIndex]
        } else {
            failure()
        },
        OpKind::ProtectedTrash | OpKind::ProtectedRestore => mark + seq![Effect::SyncIndex],
        OpKind::ProtectedWrite => if ok {
            mark + seq![Effect::SyncIndex]
        } else {
            failure()
        },
        OpKind::ProtectedDelete => if ok {
            mark + seq![Effect::SyncIndex]
        } else {
            seq![Effect::ReturnError]
        },
    }
}

pub open spec fn after_index(ctx: FlowContext, ok: bool) -> Seq<Effect> {
    match ctx.op {
        OpKind::Write | OpKind::Copy => if ok {
            success(ctx)
        } else {
            index_failure()
        },
        OpKind::WriteAt | OpKind::WriteStream | OpKind::CreateDir => if ok {
            seq![Effect::CompleteWal, Effect::ReturnOk]
        } else {
            index_failure()
        },
        OpKind::Delete => {
            let settled = seq![Effect::InvalidateListings] + quota_effect(ctx) + seq![
                Effect::JournalSuccess,
                Effect::ReturnOk,
            ];
            if ok {
                seq![Effect::CompleteWal] + settled
            } else {
                seq![Effect::FailWal(FailReason::MetadataSync)] + settled
            }
        },
        OpKind::Move => if ok {
            seq![Effect::Probe]
        } else {
            seq![Effect::FailWal(FailReason::MetadataSync), Effect::Probe]
        },
        OpKind::MoveToTrash | OpKind::RestoreTrash => if ok {
            seq![Effect::CompleteWal, Effect::JournalSuccess, Effect::ReturnOk]
        } else {
            index_failure()
        },
        OpKind::ProtectedTrash | OpKind::ProtectedRestore => if ok {
            seq![Effect::CompleteWal, Effect::JournalSuccess, Effect::ReturnOk]
        } else {
            seq![Effect::ReturnError]
        },
        OpKind::ProtectedWrite => if ok {
            success(ctx)
        } else {
            seq![Effect::ReturnError]
        },
        OpKind::ProtectedDelete => if ok {
            seq![Effect::CompleteWal] + quota_effect(ctx) + seq![
                Effect::InvalidateAll,
                Effect::JournalSuccess,
                Effect::ReturnOk,
            ]
        } else {
            seq![Effect::ReturnError]
        },
    }
}

/// After reading back the destination; `indexed` tells whether the index followed,
/// or had not to.
pub open spec fn after_probe(ctx: FlowContext, indexed: bool, ok: bool) -> Seq<Effect> {
    match ctx.op {
        OpKind::Move => if !ok {
            failure()
        } else if indexed {
            seq![Effect::CompleteWal, Effect::JournalSuccess, Effect::ReturnOk]
        } else {
            seq![Effect::JournalSuccess, Effect::ReturnOk]
        },
        _ => if ok {
            success(ctx)
        } else {
            failure()
        },
    }
}

pub open spec fn after_prune(ok: bool) -> Seq<Effect> {
    if ok {
        seq![
            Effect::MarkPhysicalDone,
            Effect::CompleteWal,
            Effect::InvalidateListings,
            Effect::JournalSuccess,
            Effect::ReturnOk,
        ]
    } else {
        seq![
            Effect::FailWal(FailReason::PruneFailed),
            Effect::JournalFailure(FailReason::PruneFailed),
            Effect::ReturnPruneError,
        ]
    }
}

pub open spec fn effects_after(ctx: FlowContext, step: Step, indexed: bool, ok: bool) -> Seq<
    Effect,
> {
    match step {
        Step::Physical => after_physical(ctx, ok),
        Step::Index => after_index(ctx, ok),
        Step::Probe => after_probe(ctx, indexed, ok),
        Step::Prune => after_prune(ok),
    }
}

fn push_quota(out: &mut Vec<Effect>, ctx: FlowContext)
    ensures
        final(out)@ == old(out)@ + quota_effect(ctx),
{
    let ghost before = out@;
    if !ctx.uncounted && (ctx.quota_delta != 0 || ctx.op == OpKind::Copy) {
        out.push(Effect::UpdateQuota(ctx.quota_delta));
    }
    assert(out@ =~= before + quota_effect(ctx));
}

fn failure_effects() -> (res: Vec<Effect>)
    ensures
        res@ == failure(),
{
    vec![
        Effect::FailWal(FailReason::Operation),
        Effect::JournalFailure(FailReason::Operation),
        Effect::ReturnError,
    ]
}

fn success_effects(ctx: FlowContext) -> (res: Vec<Effect>)
    ensures
        res@ == success(ctx),
{
    let mut out: Vec<Effect> = vec![Effect::CompleteWal];
    push_quota(&mut out, ctx);
    out.push(Effect::JournalSuccess);
    out.push(Effect::ReturnOk);
    assert(out@ =~= success(ctx));
    out
}

fn physical_effects(ctx: FlowContext, ok: bool) -> (res: Vec<Effect>)
    ensures
        res@ == after_physical(ctx, ok),
{
    let reject_plain: bool = match ctx.op {
        OpKind::Write | OpKind::CreateDir | OpKind::Delete => ctx.placement != Placement::Pool,
        OpKind::Move => ctx.placement != Placement::Pool,
        OpKind::Copy => ctx.placement == Placement::Temp,
        OpKind::ProtectedDelete => true,
        _ => false,
    };
    if !ok && ctx.op != OpKind::ProtectedTrash && ctx.op != OpKind::ProtectedRestore {
        if reject_plain {
            return vec![Effect::ReturnError];
        }
        if ctx.op == OpKind::WriteStream {
            return vec![Effect::FailWal(FailReason::Operation), Effect::ReturnError];
        }
        if ctx.op == OpKind::Delete {
            if ctx.stale {
                return vec![Effect::PruneIndex];
            }
            return vec![
                Effect::FailWal(FailReason::DeleteFailed),
                Effect::JournalFailure(FailReason::DeleteFailed),
                Effect::ReturnError,
            ];
        }
        return failure_effects();
    }
    if ctx.placement == Placement::Across {
        if ctx.op == OpKind::Move {
            return vec![Effect::CompleteWal, Effect::JournalSuccess, Effect::ReturnOk];
        }
        if ctx.op == OpKind::Copy {
            return success_effects(ctx);
        }
    }
    let mut out: Vec<Effect> = vec![Effect::MarkPhysicalDone];
    match ctx.op {
        OpKind::Write => {
            if ctx.placement == Placement::Pool {
                out.push(Effect::SyncIndex);
            } else {
                out.push(Effect::Probe);
            }
        },
        OpKind::WriteAt => {
            push_quota(&mut out, ctx);
            out.push(Effect::JournalSuccess);
            out.push(Effect::SyncIndex);
        },
        OpKind::WriteStream => {
            push_quota(&mut out, ctx);
            out.push(Effect::SyncIndex);
        },
        OpKind::CreateDir => {
            if ctx.placement == Placement::Pool {
                out.push(Effect::JournalSuccess);
                out.push(Effect::InvalidateListings);
                out.push(Effect::SyncIndex);
            } else {
                out.push(Effect::CompleteWal);
                out.push(Effect::ReturnOk);
            }
        },
        OpKind::Delete => {
            if ctx.placement != Placement::Pool {
                out.push(Effect::CompleteWal);
                out.push(Effect::ReturnOk);
            } else if ctx.uncounted {
                out.push(Effect::CompleteWal);
                out.push(Effect::InvalidateListings);
                out.push(Effect::JournalSuccess);
                out.push(Effect::ReturnOk);
            } else {
                out.push(Effect::SyncIndex);
            }
        },
        OpKind::Move => {
            if ctx.placement == Placement::Pool {
                out.push(Effect::InvalidateAll);
            }
            if ctx.placement == Placement::Pool && !ctx.uncounted {
                out.push(Effect::SyncIndex);
            } else {
                out.push(Effect::Probe);
            }
        },
        OpKind::Copy => {
            if ctx.placement == Placement::Pool {
                out.push(Effect::SyncIndex);
            } else {
                out.push(Effect::Probe);
            }
        },
        _ => out.push(Effect::SyncIndex),
    }
    assert(out@ =~= after_physical(ctx, ok));
    out
}

fn index_effects(ctx: FlowContext, ok: bool) -> (res: Vec<Effect>)
    ensures
        res@ == after_index(ctx, ok),
{
    match ctx.op {
        OpKind::Write | OpKind::Copy => if ok {
            success_effects(ctx)
        } else {
            vec![Effect::FailWal(FailReason::MetadataSync), Effect::ReturnError]
        },
        OpKind::WriteAt | OpKind::WriteStream | OpKind::CreateDir => if ok {
            vec![Effect::CompleteWal, Effect::ReturnOk]
        } else {
            vec![Effect::FailWal(FailReason::MetadataSync), Effect::ReturnError]
        },
        OpKind::Delete => {
            let mut out: Vec<Effect> = Vec::new();
            if ok {
                out.push(Effect::CompleteWal);
            } else {
                out.push(Effect::FailWal(FailReason::MetadataSync));
            }
            out.push(Effect::InvalidateListings);
            push_quota(&mut out, ctx);
            out.push(Effect::JournalSuccess);
            out.push(Effect::ReturnOk);
            assert(out@ =~= after_index(ctx, ok));
            out
        },
        OpKind::Move => if ok {
            vec![Effect::Probe]
        } else {
            vec![Effect::FailWal(FailReason::MetadataSync), Effect::Probe]
        },
        OpKind::MoveToTrash | OpKind::RestoreTrash => if ok {
            vec![Effect::CompleteWal, Effect::JournalSuccess, Effect::ReturnOk]
        } else {
            vec![Effect::FailWal(FailReason::MetadataSync), Effect::ReturnError]
        },
        OpKind::ProtectedTrash | OpKind::ProtectedRestore => if ok {
            vec![Effect::CompleteWal, Effect::JournalSuccess, Effect::ReturnOk]
        } else {
            vec![Effect::ReturnError]
        },
        OpKind::ProtectedWrite => if ok {
            success_effects(ctx)
        } else {
            vec![Effect::ReturnError]
        },
        OpKind::ProtectedDelete => {
            if ok {
                let mut out: Vec<Effect> = vec![Effect::CompleteWal];
                push_quota(&mut out, ctx);
                out.push(Effect::InvalidateAll);
                out.push(Effect::JournalSuccess);
                out.push(Effect::ReturnOk);
                assert(out@ =~= after_index(ctx, ok));
                out
            } else {
                vec![Effect::ReturnError]
            }
        },
    }
}

/// The effects to perform after `step`, in order. `indexed` matters after a probe
/// only: whether the index followed the move, or had not to.
pub fn next_effects(ctx: FlowContext, step: Step, indexed: bool, ok: bool) -> (res: Vec<Effect>)
    ensures
        res@ == effects_after(ctx, step, indexed, ok),
{
    match step {
        Step::Physical => physical_effects(ctx, ok),
        Step::Index => index_effects(ctx, ok),
        Step::Probe => match ctx.op {
            OpKind::Move => if !ok {
                failure_effects()
            } else if indexed {
                vec![Effect::CompleteWal, Effect::JournalSuccess, Effect::ReturnOk]
            } else {
                vec![Effect::JournalSuccess, Effect::ReturnOk]
            },
            _ => if ok {
                success_effects(ctx)
            } else {
                failure_effects()
            },
        },
        Step::Prune => if ok {
            vec![
                Effect::MarkPhysicalDone,
                Effect::CompleteWal,
                Effect::InvalidateListings,
                Effect::JournalSuccess,
                Effect::ReturnOk,
            ]
        } else {
            vec![
                Effect::FailWal(FailReason::PruneFailed),
                Effect::JournalFailure(FailReason::PruneFailed),
                Effect::ReturnPruneError,
            ]
        },
    }
}

// ---------------------------------------------------------------- whole runs
/// The outcomes of the steps of one run, each meant where the step is reached.
pub struct Outcomes {
    pub physical: bool,
    pub index: bool,
    pub prune: bool,
    pub probe: bool,
}

/// All effects of a run, in order.
pub open spec fn run(ctx: FlowContext, o: Outcomes) -> Seq<Effect> {
    let first = effects_after(ctx, Step::Physical, true, o.physical);
    match first.last() {
        Effect::SyncIndex => {
            let second = effects_after(ctx, Step::Index, true, o.index);
            if second.last() == Effect::Probe {
                first + second + effects_after(ctx, Step::Probe, o.index, o.probe)
            } else {
                first + second
            }
        },
        Effect::PruneIndex => first + effects_after(ctx, Step::Prune, true, o.prune),
        Effect::Probe => first + effects_after(ctx, Step::Probe, true, o.probe),
        _ => first,
    }
}

pub open spec fn is_return(e: Effect) -> bool {
    e == Effect::ReturnOk || e == Effect::ReturnError || e == Effect::ReturnPruneError
}

pub open spec fn is_fail(e: Effect) -> bool {
    e is FailWal
}

/// The step that changed the storage, or showed that nothing was left there, succeeded.
pub open spec fn storage_settled(ctx: FlowContext, o: Outcomes) -> bool {
    o.physical || ctx.op == OpKind::ProtectedTrash || ctx.op == OpKind::ProtectedRestore || (ctx.op == OpKind::Delete && ctx.placement
        == Placement::Pool && ctx.stale && o.prune)
}

/// What every run must satisfy.
pub open spec fn is_sound_run(ctx: FlowContext, o: Outcomes, s: Seq<Effect>) -> bool {
    &&& s.len() > 0
    &&& is_return(s.last())
    &&& forall|i: int| 0 <= i < s.len() - 1 ==> !is_return(#[trigger] s[i])
    &&& forall|i: int|
        0 <= i < s.len() && #[trigger] s[i] == Effect::CompleteWal ==> storage_settled(ctx, o) && (
        ctx.placement == Placement::Across || s[0] == Effect::MarkPhysicalDone || s[1]
            == Effect::MarkPhysicalDone)
    &&& forall|i: int, j: int|
        0 <= i < s.len() && 0 <= j < s.len() && #[trigger] s[i] == Effect::CompleteWal ==> !is_fail(
            #[trigger] s[j],
        )
    &&& forall|i: int|
        0 <= i < s.len() && #[trigger] s[i] == Effect::MarkPhysicalDone ==> storage_settled(ctx, o)
    &&& forall|i: int|
        0 <= i < s.len() ==> ((#[trigger] s[i]) matches Effect::UpdateQuota(delta) ==> delta
            == ctx.quota_delta && !ctx.uncounted && o.physical)
    &&& ctx.placement == Placement::Pool && !storage_settled(ctx, o) && ctx.op
        != OpKind::ProtectedDelete ==> is_fail(s[0]) || is_fail(s[1])
}

proof fn sound_write(ctx: FlowContext, o: Outcomes)
    requires
        ctx.op == OpKind::Write,
    ensures
        is_sound_run(ctx, o, run(ctx, o)),
{
}

proof fn sound_write_at(ctx: FlowContext, o: Outcomes)
    requires
        ctx.op == OpKind::WriteAt,
    ensures
        is_sound_run(ctx, o, run(ctx, o)),
{
}

proof fn sound_write_stream(ctx: FlowContext, o: Outcomes)
    requires
        ctx.op == OpKind::WriteStream,
    ensures
        is_sound_run(ctx, o, run(ctx, o)),
{
}

proof fn sound_create_dir(ctx: FlowContext, o: Outcomes)
    requires
        ctx.op == OpKind::CreateDir,
    ensures
        is_sound_run(ctx, o, run(ctx, o)),
{
}

proof fn sound_delete(ctx: FlowContext, o: Outcomes)
    requires
        ctx.op == OpKind::Delete,
    ensures
        is_sound_run(ctx, o, run(ctx, o)),
{
}

proof fn sound_move(ctx: FlowContext, o: Outcomes)
    requires
        ctx.op == OpKind::Move,
    ensures
        is_sound_run(ctx, o, run(ctx, o)),
{
}

proof fn sound_copy(ctx: FlowContext, o: Outcomes)
    requires
        ctx.op == OpKind::Copy,
    ensures
        is_sound_run(ctx, o, run(ctx, o)),
{
}

proof fn sound_move_to_trash(ctx: FlowContext, o: Outcomes)
    requires
        ctx.op == OpKind::MoveToTrash,
    ensures
        is_sound_run(ctx, o, run(ctx, o)),
{
}

proof fn sound_restore_trash(ctx: FlowContext, o: Outcomes)
    requires
        ctx.op == OpKind::RestoreTrash,
    ensures
        is_sound_run(ctx, o, run(ctx, o)),
{
}

proof fn sound_protected_write(ctx: FlowContext, o: Outcomes)
    requires
        ctx.op == OpKind::ProtectedWrite,
    ensures
        is_sound_run(ctx, o, run(ctx, o)),
{
}

proof fn sound_protected_delete(ctx: FlowContext, o: Outcomes)
    requires
        ctx.op == OpKind::ProtectedDelete,
    ensures
        is_sound_run(ctx, o, run(ctx, o)),
{
}

proof fn sound_protected_trash(ctx: FlowContext, o: Outcomes)
    requires
        ctx.op == OpKind::ProtectedTrash || ctx.op == OpKind::ProtectedRestore,
    ensures
        is_sound_run(ctx, o, run(ctx, o)),
{
}

/// Every run ends with its only return; completes its log entry only where the
/// storage was changed as asked and was marked so before (a move or copy across
/// placements is settled by its parts); never both completes and fails it; and
/// changes the bytes in use only by the operation's delta, after the storage was
/// changed, and never for an uncounted path. A run on the storage pool that did not
/// change it fails its log entry, save that of a protected deletion, which stays open.
pub proof fn every_run_is_sound(ctx: FlowContext, o: Outcomes)
    ensures
        is_sound_run(ctx, o, run(ctx, o)),
{
    match ctx.op {
        OpKind::Write => sound_write(ctx, o),
        OpKind::WriteAt => sound_write_at(ctx, o),
        OpKind::WriteStream => sound_write_stream(ctx, o),
        OpKind::CreateDir => sound_create_dir(ctx, o),
        OpKind::Delete => sound_delete(ctx, o),
        OpKind::Move => sound_move(ctx, o),
        OpKind::Copy => sound_copy(ctx, o),
        OpKind::MoveToTrash => sound_move_to_trash(ctx, o),
        OpKind::RestoreTrash => sound_restore_trash(ctx, o),
        OpKind::ProtectedWrite => sound_protected_write(ctx, o),
        OpKind::ProtectedDelete => sound_protected_delete(ctx, o),
        OpKind::ProtectedTrash | OpKind::ProtectedRestore => sound_protected_trash(ctx, o),
    }
}

/// The steps of a run that count came out well: the storage was changed, the index
/// followed, and the destination could be read back where that is asked for.
pub open spec fn comes_out_well(ctx: FlowContext, o: Outcomes) -> bool {
    match ctx.op {
        OpKind::Write => o.physical && (if ctx.placement == Placement::Pool {
            o.index
        } else {
            o.probe
        }),
        OpKind::WriteAt | OpKind::WriteStream => o.physical && o.index,
        OpKind::CreateDir => o.physical && (ctx.placement == Placement::Pool ==> o.index),
        // A deleted file is gone, whatever the index says of it; a stale entry of the
        // recycle bin is gone once its index entry is.
        OpKind::Delete => o.physical || (ctx.placement == Placement::Pool && ctx.stale && o.prune),
        OpKind::Move => o.physical && (ctx.placement == Placement::Across || o.probe),
        OpKind::Copy => o.physical && match ctx.placement {
            Placement::Pool => o.index,
            Placement::Temp => o.probe,
            Placement::Across => true,
        },
        OpKind::MoveToTrash | OpKind::RestoreTrash => o.physical && o.index,
        OpKind::ProtectedWrite | OpKind::ProtectedDelete => o.physical && o.index,
        OpKind::ProtectedTrash | OpKind::ProtectedRestore => o.index,
    }
}

/// The operation changes the bytes that a user has in use. Moving a file within the
/// scope, also into the recycle bin and out of it, does not.
pub open spec fn changes_use(op: OpKind) -> bool {
    op == OpKind::Write || op == OpKind::WriteAt || op == OpKind::WriteStream || op
        == OpKind::Delete || op == OpKind::Copy || op == OpKind::ProtectedWrite || op
        == OpKind::ProtectedDelete
}

/// What the effects of a run have to be, over its outcomes.
pub open spec fn is_settled_run(ctx: FlowContext, o: Outcomes, s: Seq<Effect>) -> bool {
    let pool = ctx.placement == Placement::Pool;
    let moves_or_copies = ctx.op == OpKind::Move || ctx.op == OpKind::Copy;
    let protected_index = ctx.op == OpKind::ProtectedTrash || ctx.op == OpKind::ProtectedRestore;
    let reached = o.physical || protected_index;
    let indexed = pool || !(ctx.op == OpKind::Write || ctx.op == OpKind::CreateDir || ctx.op
        == OpKind::Delete || moves_or_copies);
    let syncs = reached && indexed && !(ctx.uncounted && (ctx.op == OpKind::Delete || ctx.op
        == OpKind::Move));
    // nothing is done twice
    &&& s.no_duplicates()
    // what is returned
    &&& s.last() == Effect::ReturnOk <==> comes_out_well(ctx, o)
    // the index follows the storage
    &&& s.contains(Effect::SyncIndex) <==> syncs
    // the bytes in use
    &&& s.contains(Effect::UpdateQuota(ctx.quota_delta)) <==> {
        &&& changes_use(ctx.op)
        &&& !ctx.uncounted
        &&& ctx.quota_delta != 0 || ctx.op == OpKind::Copy
        &&& o.physical
        &&& comes_out_well(ctx, o) || ctx.op == OpKind::WriteAt || ctx.op == OpKind::WriteStream
        &&& ctx.op == OpKind::Delete ==> pool
    }
    // the log
    &&& s.contains(Effect::MarkPhysicalDone) <==> (reached && !(ctx.placement == Placement::Across
        && moves_or_copies)) || (ctx.op == OpKind::Delete && pool && ctx.stale && !o.physical
        && o.prune)
    &&& s.contains(Effect::CompleteWal) <==> comes_out_well(ctx, o) && (syncs ==> o.index)
    &&& s.contains(Effect::FailWal(FailReason::MetadataSync)) <==> syncs && !o.index
        && !protected_index && ctx.op != OpKind::ProtectedWrite && ctx.op
        != OpKind::ProtectedDelete
    // the journal
    &&& s.contains(Effect::JournalSuccess) <==> {
        ||| ctx.op == OpKind::WriteAt && o.physical
        ||| ctx.op == OpKind::CreateDir && pool && o.physical
        ||| ctx.op != OpKind::WriteStream && ctx.op != OpKind::CreateDir && (ctx.op
            == OpKind::Delete ==> pool) && comes_out_well(ctx, o)
    }
    // what was listed is listed anew
    &&& comes_out_well(ctx, o) && pool && (ctx.op == OpKind::Delete || ctx.op == OpKind::CreateDir)
        ==> s.contains(Effect::InvalidateListings)
    &&& o.physical && pool && ctx.op == OpKind::Move ==> s.contains(Effect::InvalidateAll)
    &&& comes_out_well(ctx, o) && ctx.op == OpKind::ProtectedDelete ==> s.contains(
        Effect::InvalidateAll,
    )
    // the storage was not changed
    &&& pool && !reached && ctx.op != OpKind::ProtectedDelete && ctx.op != OpKind::Delete
        ==> s.contains(Effect::FailWal(FailReason::Operation))
    &&& pool && !o.physical && ctx.op == OpKind::Delete && !ctx.stale ==> s.contains(
        Effect::FailWal(FailReason::DeleteFailed),
    ) && s.contains(Effect::JournalFailure(FailReason::DeleteFailed))
    &&& pool && !o.physical && ctx.op == OpKind::Delete && ctx.stale ==> s.contains(
        Effect::PruneIndex,
    ) && (o.prune || s.last() == Effect::ReturnPruneError)
}

/// A short sequence holds an effect exactly where one of its places does.
proof fn holds_somewhere(s: Seq<Effect>, e: Effect)
    requires
        s.len() <= 8,
    ensures
        s.contains(e) <==> {
            ||| s.len() > 0 && s[0] == e
            ||| s.len() > 1 && s[1] == e
            ||| s.len() > 2 && s[2] == e
            ||| s.len() > 3 && s[3] == e
            ||| s.len() > 4 && s[4] == e
            ||| s.len() > 5 && s[5] == e
            ||| s.len() > 6 && s[6] == e
            ||| s.len() > 7 && s[7] == e
        },
{
    if s.contains(e) {
        let i = choose|i: int| 0 <= i < s.len() && s[i] == e;
        assert(i == 0 || i == 1 || i == 2 || i == 3 || i == 4 || i == 5 || i == 6 || i == 7);
    }
}

#[verifier::spinoff_prover]
#[verifier::rlimit(40)]
proof fn settled_write(ctx: FlowContext, o: Outcomes)
    requires
        ctx.op == OpKind::Write,
    ensures
        is_settled_run(ctx, o, run(ctx, o)),
{
    let s = run(ctx, o);
    assert(s.len() <= 8);
    holds_somewhere(s, Effect::SyncIndex);
    holds_somewhere(s, Effect::UpdateQuota(ctx.quota_delta));
    holds_somewhere(s, Effect::MarkPhysicalDone);
    holds_somewhere(s, Effect::CompleteWal);
    holds_somewhere(s, Effect::FailWal(FailReason::MetadataSync));
    holds_somewhere(s, Effect::JournalSuccess);
    holds_somewhere(s, Effect::InvalidateListings);
    holds_somewhere(s, Effect::InvalidateAll);
    holds_somewhere(s, Effect::FailWal(FailReason::Operation));
    holds_somewhere(s, Effect::FailWal(FailReason::DeleteFailed));
    holds_somewhere(s, Effect::JournalFailure(FailReason::DeleteFailed));
    holds_somewhere(s, Effect::PruneIndex);
}

#[verifier::spinoff_prover]
#[verifier::rlimit(40)]
proof fn settled_write_at(ctx: FlowContext, o: Outcomes)
    requires
        ctx.op == OpKind::WriteAt,
    ensures
        is_settled_run(ctx, o, run(ctx, o)),
{
    let s = run(ctx, o);
    assert(s.len() <= 8);
    holds_somewhere(s, Effect::SyncIndex);
    holds_somewhere(s, Effect::UpdateQuota(ctx.quota_delta));
    holds_somewhere(s, Effect::MarkPhysicalDone);
    holds_somewhere(s, Effect::CompleteWal);
    holds_somewhere(s, Effect::FailWal(FailReason::MetadataSync));
    holds_somewhere(s, Effect::JournalSuccess);
    holds_somewhere(s, Effect::InvalidateListings);
    holds_somewhere(s, Effect::InvalidateAll);
    holds_somewhere(s, Effect::FailWal(FailReason::Operation));
    holds_somewhere(s, Effect::FailWal(FailReason::DeleteFailed));
    holds_somewhere(s, Effect::JournalFailure(FailReason::DeleteFailed));
    holds_somewhere(s, Effect::PruneIndex);
}

#[verifier::spinoff_prover]
#[verifier::rlimit(40)]
proof fn settled_write_stream(ctx: FlowContext, o: Outcomes)
    requires
        ctx.op == OpKind::WriteStream,
    ensures
        is_settled_run(ctx, o, run(ctx, o)),
{
    let s = run(ctx, o);
    assert(s.len() <= 8);
    holds_somewhere(s, Effect::SyncIndex);
    holds_somewhere(s, Effect::UpdateQuota(ctx.quota_delta));
    holds_somewhere(s, Effect::MarkPhysicalDone);
    holds_somewhere(s, Effect::CompleteWal);
    holds_somewhere(s, Effect::FailWal(FailReason::MetadataSync));
    holds_somewhere(s, Effect::JournalSuccess);
    holds_somewhere(s, Effect::InvalidateListings);
    holds_somewhere(s, Effect::InvalidateAll);
    holds_somewhere(s, Effect::FailWal(FailReason::Operation));
    holds_somewhere(s, Effect::FailWal(FailReason::DeleteFailed));
    holds_somewhere(s, Effect::JournalFailure(FailReason::DeleteFailed));
    holds_somewhere(s, Effect::PruneIndex);
}

#[verifier::spinoff_prover]
#[verifier::rlimit(40)]
proof fn settled_create_dir(ctx: FlowContext, o: Outcomes)
    requires
        ctx.op == OpKind::CreateDir,
    ensures
        is_settled_run(ctx, o, run(ctx, o)),
{
    let s = run(ctx, o);
    assert(s.len() <= 8);
    holds_somewhere(s, Effect::SyncIndex);
    holds_somewhere(s, Effect::UpdateQuota(ctx.quota_delta));
    holds_somewhere(s, Effect::MarkPhysicalDone);
    holds_somewhere(s, Effect::CompleteWal);
    holds_somewhere(s, Effect::FailWal(FailReason::MetadataSync));
    holds_somewhere(s, Effect::JournalSuccess);
    holds_somewhere(s, Effect::InvalidateListings);
    holds_somewhere(s, Effect::InvalidateAll);
    holds_somewhere(s, Effect::FailWal(FailReason::Operation));
    holds_somewhere(s, Effect::FailWal(FailReason::DeleteFailed));
    holds_somewhere(s, Effect::JournalFailure(FailReason::DeleteFailed));
    holds_somewhere(s, Effect::PruneIndex);
}

#[verifier::spinoff_prover]
#[verifier::rlimit(40)]
proof fn settled_delete(ctx: FlowContext, o: Outcomes)
    requires
        ctx.op == OpKind::Delete,
    ensures
        is_settled_run(ctx, o, run(ctx, o)),
{
    let s = run(ctx, o);
    assert(s.len() <= 8);
    holds_somewhere(s, Effect::SyncIndex);
    holds_somewhere(s, Effect::UpdateQuota(ctx.quota_delta));
    holds_somewhere(s, Effect::MarkPhysicalDone);
    holds_somewhere(s, Effect::CompleteWal);
    holds_somewhere(s, Effect::FailWal(FailReason::MetadataSync));
    holds_somewhere(s, Effect::JournalSuccess);
    holds_somewhere(s, Effect::InvalidateListings);
    holds_somewhere(s, Effect::InvalidateAll);
    holds_somewhere(s, Effect::FailWal(FailReason::Operation));
    holds_somewhere(s, Effect::FailWal(FailReason::DeleteFailed));
    holds_somewhere(s, Effect::JournalFailure(FailReason::DeleteFailed));
    holds_somewhere(s, Effect::PruneIndex);
}

#[verifier::spinoff_prover]
#[verifier::rlimit(40)]
proof fn settled_move(ctx: FlowContext, o: Outcomes)
    requires
        ctx.op == OpKind::Move,
    ensures
        is_settled_run(ctx, o, run(ctx, o)),
{
    let s = run(ctx, o);
    assert(s.len() <= 8);
    holds_somewhere(s, Effect::SyncIndex);
    holds_somewhere(s, Effect::UpdateQuota(ctx.quota_delta));
    holds_somewhere(s, Effect::MarkPhysicalDone);
    holds_somewhere(s, Effect::CompleteWal);
    holds_somewhere(s, Effect::FailWal(FailReason::MetadataSync));
    holds_somewhere(s, Effect::JournalSuccess);
    holds_somewhere(s, Effect::InvalidateListings);
    holds_somewhere(s, Effect::InvalidateAll);
    holds_somewhere(s, Effect::FailWal(FailReason::Operation));
    holds_somewhere(s, Effect::FailWal(FailReason::DeleteFailed));
    holds_somewhere(s, Effect::JournalFailure(FailReason::DeleteFailed));
    holds_somewhere(s, Effect::PruneIndex);
}

#[verifier::spinoff_prover]
#[verifier::rlimit(40)]
proof fn settled_copy(ctx: FlowContext, o: Outcomes)
    requires
        ctx.op == OpKind::Copy,
    ensures
        is_settled_run(ctx, o, run(ctx, o)),
{
    let s = run(ctx, o);
    assert(s.len() <= 8);
    holds_somewhere(s, Effect::SyncIndex);
    holds_somewhere(s, Effect::UpdateQuota(ctx.quota_delta));
    holds_somewhere(s, Effect::MarkPhysicalDone);
    holds_somewhere(s, Effect::CompleteWal);
    holds_somewhere(s, Effect::FailWal(FailReason::MetadataSync));
    holds_somewhere(s, Effect::JournalSuccess);
    holds_somewhere(s, Effect::InvalidateListings);
    holds_somewhere(s, Effect::InvalidateAll);
    holds_somewhere(s, Effect::FailWal(FailReason::Operation));
    holds_somewhere(s, Effect::FailWal(FailReason::DeleteFailed));
    holds_somewhere(s, Effect::JournalFailure(FailReason::DeleteFailed));
    holds_somewhere(s, Effect::PruneIndex);
}

#[verifier::spinoff_prover]
#[verifier::rlimit(40)]
proof fn settled_move_to_trash(ctx: FlowContext, o: Outcomes)
    requires
        ctx.op == OpKind::MoveToTrash,
    ensures
        is_settled_run(ctx, o, run(ctx, o)),
{
    let s = run(ctx, o);
    assert(s.len() <= 8);
    holds_somewhere(s, Effect::SyncIndex);
    holds_somewhere(s, Effect::UpdateQuota(ctx.quota_delta));
    holds_somewhere(s, Effect::MarkPhysicalDone);
    holds_somewhere(s, Effect::CompleteWal);
    holds_somewhere(s, Effect::FailWal(FailReason::MetadataSync));
    holds_somewhere(s, Effect::JournalSuccess);
    holds_somewhere(s, Effect::InvalidateListings);
    holds_somewhere(s, Effect::InvalidateAll);
    holds_somewhere(s, Effect::FailWal(FailReason::Operation));
    holds_somewhere(s, Effect::FailWal(FailReason::DeleteFailed));
    holds_somewhere(s, Effect::JournalFailure(FailReason::DeleteFailed));
    holds_somewhere(s, Effect::PruneIndex);
}

#[verifier::spinoff_prover]
#[verifier::rlimit(40)]
proof fn settled_restore_trash(ctx: FlowContext, o: Outcomes)
    requires
        ctx.op == OpKind::RestoreTrash,
    ensures
        is_settled_run(ctx, o, run(ctx, o)),
{
    let s = run(ctx, o);
    assert(s.len() <= 8);
    holds_somewhere(s, Effect::SyncIndex);
    holds_somewhere(s, Effect::UpdateQuota(ctx.quota_delta));
    holds_somewhere(s, Effect::MarkPhysicalDone);
    holds_somewhere(s, Effect::CompleteWal);
    holds_somewhere(s, Effect::FailWal(FailReason::MetadataSync));
    holds_somewhere(s, Effect::JournalSuccess);
    holds_somewhere(s, Effect::InvalidateListings);
    holds_somewhere(s, Effect::InvalidateAll);
    holds_somewhere(s, Effect::FailWal(FailReason::Operation));
    holds_somewhere(s, Effect::FailWal(FailReason::DeleteFailed));
    holds_somewhere(s, Effect::JournalFailure(FailReason::DeleteFailed));
    holds_somewhere(s, Effect::PruneIndex);
}

#[verifier::spinoff_prover]
#[verifier::rlimit(40)]
proof fn settled_protected_write(ctx: FlowContext, o: Outcomes)
    requires
        ctx.op == OpKind::ProtectedWrite,
    ensures
        is_settled_run(ctx, o, run(ctx, o)),
{
    let s = run(ctx, o);
    assert(s.len() <= 8);
    holds_somewhere(s, Effect::SyncIndex);
    holds_somewhere(s, Effect::UpdateQuota(ctx.quota_delta));
    holds_somewhere(s, Effect::MarkPhysicalDone);
    holds_somewhere(s, Effect::CompleteWal);
    holds_somewhere(s, Effect::FailWal(FailReason::MetadataSync));
    holds_somewhere(s, Effect::JournalSuccess);
    holds_somewhere(s, Effect::InvalidateListings);
    holds_somewhere(s, Effect::InvalidateAll);
    holds_somewhere(s, Effect::FailWal(FailReason::Operation));
    holds_somewhere(s, Effect::FailWal(FailReason::DeleteFailed));
    holds_somewhere(s, Effect::JournalFailure(FailReason::DeleteFailed));
    holds_somewhere(s, Effect::PruneIndex);
}

#[verifier::spinoff_prover]
#[verifier::rlimit(40)]
proof fn settled_protected_delete(ctx: FlowContext, o: Outcomes)
    requires
        ctx.op == OpKind::ProtectedDelete,
    ensures
        is_settled_run(ctx, o, run(ctx, o)),
{
    let s = run(ctx, o);
    assert(s.len() <= 8);
    holds_somewhere(s, Effect::SyncIndex);
    holds_somewhere(s, Effect::UpdateQuota(ctx.quota_delta));
    holds_somewhere(s, Effect::MarkPhysicalDone);
    holds_somewhere(s, Effect::CompleteWal);
    holds_somewhere(s, Effect::FailWal(FailReason::MetadataSync));
    holds_somewhere(s, Effect::JournalSuccess);
    holds_somewhere(s, Effect::InvalidateListings);
    holds_somewhere(s, Effect::InvalidateAll);
    holds_somewhere(s, Effect::FailWal(FailReason::Operation));
    holds_somewhere(s, Effect::FailWal(FailReason::DeleteFailed));
    holds_somewhere(s, Effect::JournalFailure(FailReason::DeleteFailed));
    holds_somewhere(s, Effect::PruneIndex);
}

#[verifier::spinoff_prover]
#[verifier::rlimit(40)]
proof fn settled_protected_trash(ctx: FlowContext, o: Outcomes)
    requires
        ctx.op == OpKind::ProtectedTrash,
    ensures
        is_settled_run(ctx, o, run(ctx, o)),
{
    let s = run(ctx, o);
    assert(s.len() <= 8);
    holds_somewhere(s, Effect::SyncIndex);
    holds_somewhere(s, Effect::UpdateQuota(ctx.quota_delta));
    holds_somewhere(s, Effect::MarkPhysicalDone);
    holds_somewhere(s, Effect::CompleteWal);
    holds_somewhere(s, Effect::FailWal(FailReason::MetadataSync));
    holds_somewhere(s, Effect::JournalSuccess);
    holds_somewhere(s, Effect::InvalidateListings);
    holds_somewhere(s, Effect::InvalidateAll);
    holds_somewhere(s, Effect::FailWal(FailReason::Operation));
    holds_somewhere(s, Effect::FailWal(FailReason::DeleteFailed));
    holds_somewhere(s, Effect::JournalFailure(FailReason::DeleteFailed));
    holds_somewhere(s, Effect::PruneIndex);
}

#[verifier::spinoff_prover]
#[verifier::rlimit(40)]
proof fn settled_protected_restore(ctx: FlowContext, o: Outcomes)
    requires
        ctx.op == OpKind::ProtectedRestore,
    ensures
        is_settled_run(ctx, o, run(ctx, o)),
{
    let s = run(ctx, o);
    assert(s.len() <= 8);
    holds_somewhere(s, Effect::SyncIndex);
    holds_somewhere(s, Effect::UpdateQuota(ctx.quota_delta));
    holds_somewhere(s, Effect::MarkPhysicalDone);
    holds_somewhere(s, Effect::CompleteWal);
    holds_somewhere(s, Effect::FailWal(FailReason::MetadataSync));
    holds_somewhere(s, Effect::JournalSuccess);
    holds_somewhere(s, Effect::InvalidateListings);
    holds_somewhere(s, Effect::InvalidateAll);
    holds_somewhere(s, Effect::FailWal(FailReason::Operation));
    holds_somewhere(s, Effect::FailWal(FailReason::DeleteFailed));
    holds_somewhere(s, Effect::JournalFailure(FailReason::DeleteFailed));
    holds_somewhere(s, Effect::PruneIndex);
}

/// Log, index, quota and journal are kept in step with what happened. Nothing is done
/// twice; success is returned exactly where the steps that count came out well; the
/// index is brought up to date after every change of the storage that it lists; the
/// bytes in use change by what the operation changed them by, once, where the path
/// counts and the storage was changed; the log entry is completed exactly where all
/// came out well, and says where the index did not follow; and the journal tells of
/// every change of the storage pool that is journaled.
pub proof fn every_run_is_settled(ctx: FlowContext, o: Outcomes)
    ensures
        is_settled_run(ctx, o, run(ctx, o)),
{
    match ctx.op {
        OpKind::Write => settled_write(ctx, o),
        OpKind::WriteAt => settled_write_at(ctx, o),
        OpKind::WriteStream => settled_write_stream(ctx, o),
        OpKind::CreateDir => settled_create_dir(ctx, o),
        OpKind::Delete => settled_delete(ctx, o),
        OpKind::Move => settled_move(ctx, o),
        OpKind::Copy => settled_copy(ctx, o),
        OpKind::MoveToTrash => settled_move_to_trash(ctx, o),
        OpKind::RestoreTrash => settled_restore_trash(ctx, o),
        OpKind::ProtectedWrite => settled_protected_write(ctx, o),
        OpKind::ProtectedDelete => settled_protected_delete(ctx, o),
        OpKind::ProtectedTrash => settled_protected_trash(ctx, o),
        OpKind::ProtectedRestore => settled_protected_restore(ctx, o),
    }
}

/// Where both effects occur, `a` comes before `b`.
pub open spec fn comes_before(s: Seq<Effect>, a: Effect, b: Effect) -> bool {
    forall|i: int, j: int|
        0 <= i < s.len() && 0 <= j < s.len() && #[trigger] s[i] == a && #[trigger] s[j] == b ==> i
            < j
}

/// The effects come in their order.
pub open spec fn is_ordered_run(s: Seq<Effect>) -> bool {
    &&& comes_before(s, Effect::MarkPhysicalDone, Effect::SyncIndex)
    &&& comes_before(s, Effect::SyncIndex, Effect::Probe)
    &&& comes_before(s, Effect::SyncIndex, Effect::CompleteWal)
    &&& comes_before(s, Effect::Probe, Effect::CompleteWal)
    &&& comes_before(s, Effect::PruneIndex, Effect::CompleteWal)
}

#[verifier::spinoff_prover]
#[verifier::rlimit(40)]
proof fn ordered_write(ctx: FlowContext, o: Outcomes)
    requires
        ctx.op == OpKind::Write,
    ensures
        is_ordered_run(run(ctx, o)),
{
}

#[verifier::spinoff_prover]
#[verifier::rlimit(40)]
proof fn ordered_write_at(ctx: FlowContext, o: Outcomes)
    requires
        ctx.op == OpKind::WriteAt,
    ensures
        is_ordered_run(run(ctx, o)),
{
}

#[verifier::spinoff_prover]
#[verifier::rlimit(40)]
proof fn ordered_write_stream(ctx: FlowContext, o: Outcomes)
    requires
        ctx.op == OpKind::WriteStream,
    ensures
        is_ordered_run(run(ctx, o)),
{
}

#[verifier::spinoff_prover]
#[verifier::rlimit(40)]
proof fn ordered_create_dir(ctx: FlowContext, o: Outcomes)
    requires
        ctx.op == OpKind::CreateDir,
    ensures
        is_ordered_run(run(ctx, o)),
{
}

#[verifier::spinoff_prover]
#[verifier::rlimit(40)]
proof fn ordered_delete(ctx: FlowContext, o: Outcomes)
    requires
        ctx.op == OpKind::Delete,
    ensures
        is_ordered_run(run(ctx, o)),
{
}

#[verifier::spinoff_prover]
#[verifier::rlimit(40)]
proof fn ordered_move(ctx: FlowContext, o: Outcomes)
    requires
        ctx.op == OpKind::Move,
    ensures
        is_ordered_run(run(ctx, o)),
{
}

#[verifier::spinoff_prover]
#[verifier::rlimit(40)]
proof fn ordered_copy(ctx: FlowContext, o: Outcomes)
    requires
        ctx.op == OpKind::Copy,
    ensures
        is_ordered_run(run(ctx, o)),
{
}

#[verifier::spinoff_prover]
#[verifier::rlimit(40)]
proof fn ordered_move_to_trash(ctx: FlowContext, o: Outcomes)
    requires
        ctx.op == OpKind::MoveToTrash,
    ensures
        is_ordered_run(run(ctx, o)),
{
}

#[verifier::spinoff_prover]
#[verifier::rlimit(40)]
proof fn ordered_restore_trash(ctx: FlowContext, o: Outcomes)
    requires
        ctx.op == OpKind::RestoreTrash,
    ensures
        is_ordered_run(run(ctx, o)),
{
}

#[verifier::spinoff_prover]
#[verifier::rlimit(40)]
proof fn ordered_protected_write(ctx: FlowContext, o: Outcomes)
    requires
        ctx.op == OpKind::ProtectedWrite,
    ensures
        is_ordered_run(run(ctx, o)),
{
}

#[verifier::spinoff_prover]
#[verifier::rlimit(40)]
proof fn ordered_protected_delete(ctx: FlowContext, o: Outcomes)
    requires
        ctx.op == OpKind::ProtectedDelete,
    ensures
        is_ordered_run(run(ctx, o)),
{
}

#[verifier::spinoff_prover]
#[verifier::rlimit(40)]
proof fn ordered_protected_trash(ctx: FlowContext, o: Outcomes)
    requires
        ctx.op == OpKind::ProtectedTrash,
    ensures
        is_ordered_run(run(ctx, o)),
{
}

#[verifier::spinoff_prover]
#[verifier::rlimit(40)]
proof fn ordered_protected_restore(ctx: FlowContext, o: Outcomes)
    requires
        ctx.op == OpKind::ProtectedRestore,
    ensures
        is_ordered_run(run(ctx, o)),
{
}

/// The index follows once the change of the storage is noted, and the log entry is
/// completed once the index has followed, or the stale entry was taken out of it, and
/// the destination was read back.
pub proof fn effects_come_in_order(ctx: FlowContext, o: Outcomes)
    ensures
        is_ordered_run(run(ctx, o)),
{
    match ctx.op {
        OpKind::Write => ordered_write(ctx, o),
        OpKind::WriteAt => ordered_write_at(ctx, o),
        OpKind::WriteStream => ordered_write_stream(ctx, o),
        OpKind::CreateDir => ordered_create_dir(ctx, o),
        OpKind::Delete => ordered_delete(ctx, o),
        OpKind::Move => ordered_move(ctx, o),
        OpKind::Copy => ordered_copy(ctx, o),
        OpKind::MoveToTrash => ordered_move_to_trash(ctx, o),
        OpKind::RestoreTrash => ordered_restore_trash(ctx, o),
        OpKind::ProtectedWrite => ordered_protected_write(ctx, o),
        OpKind::ProtectedDelete => ordered_protected_delete(ctx, o),
        OpKind::ProtectedTrash => ordered_protected_trash(ctx, o),
        OpKind::ProtectedRestore => ordered_protected_restore(ctx, o),
    }
}

// ---------------------------------------------------------------- texts
pub open spec fn op_label(op: OpKind) -> Seq<char> {
    match op {
        OpKind::Write => "WRITE"@,
        OpKind::WriteAt => "WRITE_AT"@,
        OpKind::WriteStream => "WRITE_STREAM"@,
        OpKind::CreateDir => "CREATE_DIR"@,
        OpKind::Delete => "DELETE"@,
        OpKind::Move => "MOVE"@,
        OpKind::Copy => "COPY"@,
        OpKind::MoveToTrash => "MOVE_TO_TRASH"@,
        OpKind::RestoreTrash => "RESTORE_TRASH"@,
        OpKind::ProtectedWrite => "PROTECTED_WRITE"@,
        OpKind::ProtectedDelete => "PROTECTED_DELETE"@,
        OpKind::ProtectedTrash => "MOVE_TO_TRASH"@,
        OpKind::ProtectedRestore => "RESTORE_TRASH"@,
    }
}

fn label_of(op: OpKind) -> (res: &'static str)
    ensures
        res@ == op_label(op),
{
    match op {
        OpKind::Write => "WRITE",
        OpKind::WriteAt => "WRITE_AT",
        OpKind::WriteStream => "WRITE_STREAM",
        OpKind::CreateDir => "CREATE_DIR",
        OpKind::Delete => "DELETE",
        OpKind::Move => "MOVE",
        OpKind::Copy => "COPY",
        OpKind::MoveToTrash => "MOVE_TO_TRASH",
        OpKind::RestoreTrash => "RESTORE_TRASH",
        OpKind::ProtectedWrite => "PROTECTED_WRITE",
        OpKind::ProtectedDelete => "PROTECTED_DELETE",
        OpKind::ProtectedTrash => "MOVE_TO_TRASH",
        OpKind::ProtectedRestore => "RESTORE_TRASH",
    }
}

/// Name under which an operation is journaled.
pub fn journal_action(op: OpKind) -> (res: &'static str)
    ensures
        res@ == if op == OpKind::CreateDir {
            "MKDIR"@
        } else {
            op_label(op)
        },
{
    match op {
        OpKind::CreateDir => "MKDIR",
        _ => label_of(op),
    }
}

/// What the operation worked on: one path, or two with an arrow between them.
pub open spec fn subject(src: Seq<char>, dst: Option<Seq<char>>) -> Seq<char> {
    match dst {
        Some(d) => src + " -> "@ + d,
        None => src,
    }
}

pub open spec fn fail_text(
    op: OpKind,
    reason: FailReason,
    src: Seq<char>,
    dst: Option<Seq<char>>,
    physical: Seq<char>,
    err: Seq<char>,
    index_err: Seq<char>,
) -> Seq<char> {
    match reason {
        FailReason::Operation => err,
        FailReason::MetadataSync => op_label(op) + " metadata sync failed for "@ + subject(src, dst)
            + ": "@ + err,
        FailReason::DeleteFailed => "DELETE failed for "@ + src + " (physical_path="@ + physical
            + ("): "@ + err),
        FailReason::PruneFailed => "DELETE stale recycle entry cleanup failed for "@ + src
            + " (physical_path="@ + physical + ("): original_err="@ + err + ", index_err="@
            + index_err),
    }
}

pub open spec fn opt_view(text: Option<&str>) -> Option<Seq<char>> {
    match text {
        Some(t) => Some(t@),
        None => None,
    }
}

/// What the log entry of a failed operation says.
pub fn fail_reason_text(
    op: OpKind,
    reason: FailReason,
    src: &str,
    dst: Option<&str>,
    physical: &str,
    err: &str,
    index_err: &str,
) -> (res: String)
    ensures
        res@ == fail_text(op, reason, src@, opt_view(dst), physical@, err@, index_err@),
{
    match reason {
        FailReason::Operation => err.to_owned(),
        FailReason::MetadataSync => {
            let what: String = match dst {
                Some(d) => concat3(src, " -> ", d),
                None => src.to_owned(),
            };
            concat5(label_of(op), " metadata sync failed for ", what.as_str(), ": ", err)
        },
        FailReason::DeleteFailed => {
            let tail: String = concat2("): ", err);
            concat5("DELETE failed for ", src, " (physical_path=", physical, tail.as_str())
        },
        FailReason::PruneFailed => {
            let tail: String = concat4("): original_err=", err, ", index_err=", index_err);
            concat5(
                "DELETE stale recycle entry cleanup failed for ",
                src,
                " (physical_path=",
                physical,
                tail.as_str(),
            )
        },
    }
}

pub open spec fn journal_error(
    reason: FailReason,
    physical: Seq<char>,
    err: Seq<char>,
    index_err: Seq<char>,
) -> Seq<char> {
    match reason {
        FailReason::DeleteFailed => "physical_path="@ + physical + " err="@ + err,
        FailReason::PruneFailed => "physical_path="@ + physical + " original_err="@ + err
            + (" index_cleanup_err="@ + index_err),
        _ => err,
    }
}

/// What the journal says of a failed operation.
pub fn journal_error_text(reason: FailReason, physical: &str, err: &str, index_err: &str) -> (res:
    String)
    ensures
        res@ == journal_error(reason, physical@, err@, index_err@),
{
    match reason {
        FailReason::DeleteFailed => concat4("physical_path=", physical, " err=", err),
        FailReason::PruneFailed => {
            let tail: String = concat2(" index_cleanup_err=", index_err);
            concat5("physical_path=", physical, " original_err=", err, tail.as_str())
        },
        _ => err.to_owned(),
    }
}

/// What is returned where neither the file nor its stale index entry could be removed.
pub fn prune_error_text(path: &str, index_err: &str) -> (res: String)
    ensures
        res@ == "Delete failed for "@ + path@
            + " and stale recycle entry cleanup also failed: "@ + index_err@,
{
    concat4(
        "Delete failed for ",
        path,
        " and stale recycle entry cleanup also failed: ",
        index_err,
    )
}

} // verus!
