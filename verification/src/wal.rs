//! Write-ahead log: states of an entry, and how an interrupted operation is recovered.
use crate::cache::write_cache::is_calendar_time;
use crate::scoped::engine::{in_protected_area, is_in_protected_area};
use crate::text::{
    ascii_lower, concat2, concat3, concat4, concat5, contains_text, decimal_int, decimal_int_text,
    has_infix, position_of, text_eq, to_ascii_lowercase, trim, trim_start_char, trim_start_matches,
    trimmed, views,
};
use crate::types::TimeNanos;
use vstd::prelude::*;

verus! {

// ---------------------------------------------------------------- status
#[derive(Debug, Clone, Copy, PartialEq, Eq, Structural)]
pub enum WalStatus {
    Pending,
    Recovering,
    PhysicalDone,
    MetadataDone,
    Completed,
    Failed,
}

impl WalStatus {
    pub open spec fn name(self) -> Seq<char> {
        match self {
            WalStatus::Pending => "pending"@,
            WalStatus::Recovering => "recovering"@,
            WalStatus::PhysicalDone => "physical_done"@,
            WalStatus::MetadataDone => "metadata_done"@,
            WalStatus::Completed => "completed"@,
            WalStatus::Failed => "failed"@,
        }
    }

    /// The status that a text names, ignoring surrounding space and ASCII case;
    /// `Pending` for every other text.
    pub open spec fn named(raw: Seq<char>) -> WalStatus {
        let t = ascii_lower(trimmed(raw));
        if t == "recovering"@ {
            WalStatus::Recovering
        } else if t == "physical_done"@ {
            WalStatus::PhysicalDone
        } else if t == "metadata_done"@ {
            WalStatus::MetadataDone
        } else if t == "completed"@ {
            WalStatus::Completed
        } else if t == "failed"@ {
            WalStatus::Failed
        } else {
            WalStatus::Pending
        }
    }

    pub fn as_str(self) -> (res: &'static str)
        ensures
            res@ == self.name(),
    {
        match self {
            WalStatus::Pending => "pending",
            WalStatus::Recovering => "recovering",
            WalStatus::PhysicalDone => "physical_done",
            WalStatus::MetadataDone => "metadata_done",
            WalStatus::Completed => "completed",
            WalStatus::Failed => "failed",
        }
    }

    pub fn parse(raw: &str) -> (res: WalStatus)
        ensures
            res == WalStatus::named(raw@),
    {
        let t: String = to_ascii_lowercase(trim(raw));
        if text_eq(t.as_str(), "recovering") {
            WalStatus::Recovering
        } else if text_eq(t.as_str(), "physical_done") {
            WalStatus::PhysicalDone
        } else if text_eq(t.as_str(), "metadata_done") {
            WalStatus::MetadataDone
        } else if text_eq(t.as_str(), "completed") {
            WalStatus::Completed
        } else if text_eq(t.as_str(), "failed") {
            WalStatus::Failed
        } else {
            WalStatus::Pending
        }
    }

    pub open spec fn active(self) -> bool {
        self != WalStatus::Completed
    }

    pub open spec fn physical_done(self) -> bool {
        self == WalStatus::PhysicalDone || self == WalStatus::MetadataDone || self
            == WalStatus::Completed
    }

    pub open spec fn metadata_done(self) -> bool {
        self == WalStatus::MetadataDone || self == WalStatus::Completed
    }

    pub fn is_active(self) -> (res: bool)
        ensures
            res == self.active(),
    {
        self != WalStatus::Completed
    }

    pub fn has_physical_done(self) -> (res: bool)
        ensures
            res == self.physical_done(),
    {
        self == WalStatus::PhysicalDone || self == WalStatus::MetadataDone || self
            == WalStatus::Completed
    }

    pub fn has_metadata_done(self) -> (res: bool)
        ensures
            res == self.metadata_done(),
    {
        self == WalStatus::MetadataDone || self == WalStatus::Completed
    }
}

/// The name of a status is read back as the status.
pub proof fn status_name_roundtrip(status: WalStatus)
    ensures
        WalStatus::named(status.name()) == status,
{
    reveal_strlit("pending");
    reveal_strlit("recovering");
    reveal_strlit("physical_done");
    reveal_strlit("metadata_done");
    reveal_strlit("completed");
    reveal_strlit("failed");
    let n = status.name();
    assert(trimmed(n) == n);
    assert(ascii_lower(n) =~= n);
    assert("pending"@[0] == 'p' && "recovering"@[0] == 'r' && "physical_done"@[0] == 'p'
        && "metadata_done"@[0] == 'm' && "completed"@[0] == 'c' && "failed"@[0] == 'f');
    assert("pending"@.len() == 7 && "physical_done"@.len() == 13);
}

/// What is written to an entry when its status changes.
#[derive(Debug)]
pub struct StatusUpdate {
    pub status: WalStatus,
    pub failure_reason: Option<String>,
    /// The time of completion is set.
    pub completed: bool,
}

/// The change to `status`, with a reason where one is given; the time of completion
/// is kept for completed entries only.
pub open spec fn is_change_to(
    status: WalStatus,
    failure_reason: Option<&str>,
    res: StatusUpdate,
) -> bool {
    &&& res.status == status
    &&& res.completed == (status == WalStatus::Completed)
    &&& match failure_reason {
        Some(r) => res.failure_reason is Some && res.failure_reason->0@ == r@,
        None => res.failure_reason is None,
    }
}

pub fn transition_operation(status: WalStatus, failure_reason: Option<&str>) -> (res: StatusUpdate)
    ensures
        is_change_to(status, failure_reason, res),
{
    let reason: Option<String> = match failure_reason {
        Some(r) => Some(r.to_owned()),
        None => None,
    };
    StatusUpdate { status, failure_reason: reason, completed: status == WalStatus::Completed }
}

// ---------------------------------------------------------------- operations
/// Where a protected write keeps its bytes.
#[derive(Debug)]
pub struct WalProtectedWriteMeta {
    pub backend_key: String,
    pub physical_size: i64,
    pub protected_meta: String,
}

/// A logged operation.
#[derive(Debug)]
pub enum WalOperation {
    Write { path: String, size: u64, protected: Option<WalProtectedWriteMeta> },
    Delete { path: String },
    Move { src: String, dst: String },
    Rename { old_path: String, new_path: String },
    MoveToTrash { path: String, trash_path: String },
    CreateDir { path: String },
    RestoreTrash { trash_path: String, original_path: String },
}

impl WalOperation {
    pub open spec fn label(self) -> Seq<char> {
        match self {
            WalOperation::Write { .. } => "WRITE"@,
            WalOperation::Delete { .. } => "DELETE"@,
            WalOperation::Move { .. } => "MOVE"@,
            WalOperation::Rename { .. } => "RENAME"@,
            WalOperation::MoveToTrash { .. } => "MOVE_TO_TRASH"@,
            WalOperation::CreateDir { .. } => "CREATE_DIR"@,
            WalOperation::RestoreTrash { .. } => "RESTORE_TRASH"@,
        }
    }

    pub fn as_str(&self) -> (res: &'static str)
        ensures
            res@ == self.label(),
    {
        match self {
            WalOperation::Write { .. } => "WRITE",
            WalOperation::Delete { .. } => "DELETE",
            WalOperation::Move { .. } => "MOVE",
            WalOperation::Rename { .. } => "RENAME",
            WalOperation::MoveToTrash { .. } => "MOVE_TO_TRASH",
            WalOperation::CreateDir { .. } => "CREATE_DIR",
            WalOperation::RestoreTrash { .. } => "RESTORE_TRASH",
        }
    }
}

// ---------------------------------------------------------------- recovery
/// What an interrupted operation was, as far as its recovery depends on it.
#[derive(Debug, Clone, Copy, PartialEq, Eq, Structural)]
pub enum RecoveryCase {
    /// A write to an ordinary path. Observed are the target and its temporary file.
    Write,
    /// A write to a protected path; `located` tells whether the entry says where its
    /// bytes are.
    ProtectedWrite { located: bool },
    /// Observed is the path.
    Delete,
    /// Observed are source and destination; `protected` where both lie in one
    /// protected area, where only the index moves.
    Move { protected: bool },
    /// Observed is the path.
    CreateDir,
    /// Observed are the path and its place in the recycle bin.
    MoveToTrash { protected: bool },
    /// Observed are the place in the recycle bin and the original path.
    RestoreTrash { protected: bool },
}

/// What is found when recovery starts.
#[derive(Debug, Clone, Copy, PartialEq, Eq, Structural)]
pub struct Observed {
    pub first_exists: bool,
    pub second_exists: bool,
    /// The index lists the path.
    pub indexed: bool,
    /// The bytes of a protected write are where the entry says.
    pub blob_exists: bool,
}

/// A recovery that cannot go on by itself.
#[derive(Debug, Clone, Copy, PartialEq, Eq, Structural)]
pub enum RecoveryFailure {
    /// Neither of the two places holds the file.
    BothMissing,
    /// Both places hold a file.
    BothExist,
    /// The bytes are written, but the index is missing and the entry does not help.
    IndexMissing,
    /// Neither index nor entry tell where the bytes are.
    LocatorMissing,
}

/// A step of a recovery, to be carried out in order.
#[derive(Debug, Clone, Copy, PartialEq, Eq, Structural)]
pub enum RecoveryStep {
    RemoveTemp,
    /// List the path in the index as it is found.
    SyncIndex,
    /// Take the path out of the index.
    DropIndex,
    /// List the protected file whose bytes were found.
    RestoreProtectedIndex,
    /// Delete the path, index and all.
    DeletePath,
    /// Create the directory, index and all.
    CreatePath,
    MovePhysical,
    MoveIndex,
    TrashIndex,
    RestoreIndex,
    Fail(RecoveryFailure),
}

/// The root protects the path.
pub open spec fn root_covers(root: Option<&str>, path: Seq<char>) -> bool {
    root is Some && in_protected_area(root->0@, path)
}

/// What the recovery of an operation depends on, where `root` is the root of the
/// user's protected area. The recycle bin is kept in the index alone only where the
/// whole scope is protected.
pub open spec fn case_of(op: WalOperation, root: Option<&str>) -> RecoveryCase {
    match op {
        WalOperation::Write { path, size, protected } => if root_covers(root, path@) {
            RecoveryCase::ProtectedWrite { located: protected is Some }
        } else {
            RecoveryCase::Write
        },
        WalOperation::Delete { path } => RecoveryCase::Delete,
        WalOperation::Move { src, dst } => RecoveryCase::Move {
            protected: root_covers(root, src@) && root_covers(root, dst@),
        },
        WalOperation::Rename { old_path, new_path } => RecoveryCase::Move {
            protected: root_covers(root, old_path@) && root_covers(root, new_path@),
        },
        WalOperation::CreateDir { path } => RecoveryCase::CreateDir,
        WalOperation::MoveToTrash { path, trash_path } => RecoveryCase::MoveToTrash {
            protected: root_covers(root, path@) && root->0@ == "/"@,
        },
        WalOperation::RestoreTrash { trash_path, original_path } => RecoveryCase::RestoreTrash {
            protected: root_covers(root, original_path@) && root->0@ == "/"@,
        },
    }
}

fn covers(root: Option<&str>, path: &str) -> (res: bool)
    ensures
        res == root_covers(root, path@),
{
    match root {
        Some(r) => is_in_protected_area(r, path),
        None => false,
    }
}

fn covers_as_whole(root: Option<&str>, path: &str) -> (res: bool)
    ensures
        res == (root_covers(root, path@) && root->0@ == "/"@),
{
    match root {
        Some(r) => is_in_protected_area(r, path) && text_eq(r, "/"),
        None => false,
    }
}

/// What the recovery of an operation depends on.
pub fn recovery_case(op: &WalOperation, root: Option<&str>) -> (res: RecoveryCase)
    ensures
        res == case_of(*op, root),
{
    match op {
        WalOperation::Write { path, size: _, protected } => if covers(root, path.as_str()) {
            RecoveryCase::ProtectedWrite { located: protected.is_some() }
        } else {
            RecoveryCase::Write
        },
        WalOperation::Delete { .. } => RecoveryCase::Delete,
        WalOperation::Move { src, dst } => RecoveryCase::Move {
            protected: covers(root, src.as_str()) && covers(root, dst.as_str()),
        },
        WalOperation::Rename { old_path, new_path } => RecoveryCase::Move {
            protected: covers(root, old_path.as_str()) && covers(root, new_path.as_str()),
        },
        WalOperation::CreateDir { .. } => RecoveryCase::CreateDir,
        WalOperation::MoveToTrash { path, trash_path: _ } => RecoveryCase::MoveToTrash {
            protected: covers_as_whole(root, path.as_str()),
        },
        WalOperation::RestoreTrash { trash_path: _, original_path } => RecoveryCase::RestoreTrash {
            protected: covers_as_whole(root, original_path.as_str()),
        },
    }
}

/// The two places that are looked at when an operation is recovered: for a write the
/// second is that of its temporary file, for a deletion and a new directory there is
/// none.
pub open spec fn places_of(op: WalOperation) -> (Seq<char>, Option<Seq<char>>) {
    match op {
        WalOperation::Write { path, size, protected } => (path@, Some(path@ + ".tmp"@)),
        WalOperation::Delete { path } => (path@, None),
        WalOperation::CreateDir { path } => (path@, None),
        WalOperation::Move { src, dst } => (src@, Some(dst@)),
        WalOperation::Rename { old_path, new_path } => (old_path@, Some(new_path@)),
        WalOperation::MoveToTrash { path, trash_path } => (path@, Some(trash_path@)),
        WalOperation::RestoreTrash { trash_path, original_path } => (
            trash_path@,
            Some(original_path@),
        ),
    }
}

pub fn recovery_places(op: &WalOperation) -> (res: (String, Option<String>))
    ensures
        (res.0@, opt_text(res.1)) == places_of(*op),
{
    match op {
        WalOperation::Write { path, size: _, protected: _ } => (
            path.clone(),
            Some(concat2(path.as_str(), ".tmp")),
        ),
        WalOperation::Delete { path } => (path.clone(), None),
        WalOperation::CreateDir { path } => (path.clone(), None),
        WalOperation::Move { src, dst } => (src.clone(), Some(dst.clone())),
        WalOperation::Rename { old_path, new_path } => (old_path.clone(), Some(new_path.clone())),
        WalOperation::MoveToTrash { path, trash_path } => (path.clone(), Some(trash_path.clone())),
        WalOperation::RestoreTrash { trash_path, original_path } => (
            trash_path.clone(),
            Some(original_path.clone()),
        ),
    }
}

/// One of two places must hold the file: what to do where the first does, and where
/// the second does.
pub open spec fn by_places(
    o: Observed,
    at_first: Seq<RecoveryStep>,
    at_second: Seq<RecoveryStep>,
) -> Seq<RecoveryStep> {
    if o.first_exists && !o.second_exists {
        at_first
    } else if !o.first_exists && o.second_exists {
        at_second
    } else if o.first_exists {
        seq![RecoveryStep::Fail(RecoveryFailure::BothExist)]
    } else {
        seq![RecoveryStep::Fail(RecoveryFailure::BothMissing)]
    }
}

/// The steps that recover an operation of which `status` was reached.
pub open spec fn recovery(case: RecoveryCase, status: WalStatus, o: Observed) -> Seq<RecoveryStep> {
    if status.metadata_done() {
        Seq::empty()
    } else {
        match case {
            RecoveryCase::Write => {
                let tidy = if o.second_exists && !status.physical_done() {
                    seq![RecoveryStep::RemoveTemp]
                } else {
                    Seq::empty()
                };
                if o.first_exists {
                    tidy + seq![RecoveryStep::SyncIndex]
                } else {
                    tidy + seq![RecoveryStep::DropIndex]
                }
            },
            RecoveryCase::ProtectedWrite { located } => if o.indexed {
                Seq::empty()
            } else if located && o.blob_exists {
                seq![RecoveryStep::RestoreProtectedIndex]
            } else if status.physical_done() {
                seq![RecoveryStep::Fail(RecoveryFailure::IndexMissing)]
            } else {
                seq![RecoveryStep::Fail(RecoveryFailure::LocatorMissing)]
            },
            RecoveryCase::Delete => if !status.physical_done() && o.first_exists {
                seq![RecoveryStep::DeletePath]
            } else {
                seq![RecoveryStep::DropIndex]
            },
            RecoveryCase::CreateDir => if !status.physical_done() && !o.first_exists {
                seq![RecoveryStep::CreatePath]
            } else {
                seq![RecoveryStep::SyncIndex]
            },
            RecoveryCase::Move { protected } => if protected {
                by_places(o, seq![RecoveryStep::MoveIndex], Seq::empty())
            } else if status.physical_done() {
                seq![RecoveryStep::MoveIndex]
            } else {
                by_places(
                    o,
                    seq![RecoveryStep::MovePhysical, RecoveryStep::MoveIndex],
                    seq![RecoveryStep::MoveIndex],
                )
            },
            RecoveryCase::MoveToTrash { protected } => if protected {
                by_places(o, seq![RecoveryStep::TrashIndex], Seq::empty())
            } else if status.physical_done() {
                seq![RecoveryStep::TrashIndex]
            } else {
                by_places(
                    o,
                    seq![RecoveryStep::MovePhysical, RecoveryStep::TrashIndex],
                    seq![RecoveryStep::TrashIndex],
                )
            },
            RecoveryCase::RestoreTrash { protected } => if protected {
                by_places(o, seq![RecoveryStep::RestoreIndex], Seq::empty())
            } else if status.physical_done() {
                seq![RecoveryStep::RestoreIndex]
            } else {
                by_places(
                    o,
                    seq![RecoveryStep::MovePhysical, RecoveryStep::RestoreIndex],
                    seq![RecoveryStep::RestoreIndex],
                )
            },
        }
    }
}

fn place_steps(o: Observed, at_first: Vec<RecoveryStep>, at_second: Vec<RecoveryStep>) -> (res: Vec<
    RecoveryStep,
>)
    ensures
        res@ == by_places(o, at_first@, at_second@),
{
    if o.first_exists && !o.second_exists {
        at_first
    } else if !o.first_exists && o.second_exists {
        at_second
    } else if o.first_exists {
        vec![RecoveryStep::Fail(RecoveryFailure::BothExist)]
    } else {
        vec![RecoveryStep::Fail(RecoveryFailure::BothMissing)]
    }
}

/// The steps of `recover_write`, for ordinary and protected paths.
fn recover_write(case: RecoveryCase, status: WalStatus, o: Observed) -> (res: Vec<RecoveryStep>)
    requires
        case is Write || case is ProtectedWrite,
    ensures
        res@ == recovery(case, status, o),
{
    let mut out: Vec<RecoveryStep> = Vec::new();
    if status.has_metadata_done() {
        return out;
    }
    match case {
        RecoveryCase::ProtectedWrite { located } => {
            if o.indexed {
            } else if located && o.blob_exists {
                out.push(RecoveryStep::RestoreProtectedIndex);
            } else if status.has_physical_done() {
                out.push(RecoveryStep::Fail(RecoveryFailure::IndexMissing));
            } else {
                out.push(RecoveryStep::Fail(RecoveryFailure::LocatorMissing));
            }
        },
        _ => {
            if o.second_exists && !status.has_physical_done() {
                out.push(RecoveryStep::RemoveTemp);
            }
            if o.first_exists {
                out.push(RecoveryStep::SyncIndex);
            } else {
                out.push(RecoveryStep::DropIndex);
            }
        },
    }
    assert(out@ =~= recovery(case, status, o));
    out
}

/// The steps that recover an operation of which `status` was reached.
pub fn plan_recovery(case: RecoveryCase, status: WalStatus, o: Observed) -> (res: Vec<RecoveryStep>)
    ensures
        res@ == recovery(case, status, o),
{
    if status.has_metadata_done() {
        return Vec::new();
    }
    let done: bool = status.has_physical_done();
    match case {
        RecoveryCase::Write => recover_write(case, status, o),
        RecoveryCase::ProtectedWrite { .. } => recover_write(case, status, o),
        RecoveryCase::Delete => if !done && o.first_exists {
            vec![RecoveryStep::DeletePath]
        } else {
            vec![RecoveryStep::DropIndex]
        },
        RecoveryCase::CreateDir => if !done && !o.first_exists {
            vec![RecoveryStep::CreatePath]
        } else {
            vec![RecoveryStep::SyncIndex]
        },
        RecoveryCase::Move { protected } => if protected {
            place_steps(o, vec![RecoveryStep::MoveIndex], Vec::new())
        } else if done {
            vec![RecoveryStep::MoveIndex]
        } else {
            place_steps(
                o,
                vec![RecoveryStep::MovePhysical, RecoveryStep::MoveIndex],
                vec![RecoveryStep::MoveIndex],
            )
        },
        RecoveryCase::MoveToTrash { protected } => if protected {
            place_steps(o, vec![RecoveryStep::TrashIndex], Vec::new())
        } else if done {
            vec![RecoveryStep::TrashIndex]
        } else {
            place_steps(
                o,
                vec![RecoveryStep::MovePhysical, RecoveryStep::TrashIndex],
                vec![RecoveryStep::TrashIndex],
            )
        },
        RecoveryCase::RestoreTrash { protected } => if protected {
            place_steps(o, vec![RecoveryStep::RestoreIndex], Vec::new())
        } else if done {
            vec![RecoveryStep::RestoreIndex]
        } else {
            place_steps(
                o,
                vec![RecoveryStep::MovePhysical, RecoveryStep::RestoreIndex],
                vec![RecoveryStep::RestoreIndex],
            )
        },
    }
}

/// Recovery depends on what is found on the storage.
pub open spec fn depends_on_storage(case: RecoveryCase, status: WalStatus) -> bool {
    exists|a: Observed, b: Observed|
        #[trigger] recovery(case, status, a) != #[trigger] recovery(case, status, b)
}

/// Recovery has to look at the storage before it can be planned.
pub fn needs_observation(case: RecoveryCase, status: WalStatus) -> (res: bool)
    ensures
        res == depends_on_storage(case, status),
{
    proof {
        let a = Observed {
            first_exists: true,
            second_exists: true,
            indexed: true,
            blob_exists: true,
        };
        let b = Observed {
            first_exists: false,
            second_exists: false,
            indexed: false,
            blob_exists: false,
        };
        let x = recovery(case, status, a);
        let y = recovery(case, status, b);
        if x.len() > 0 && y.len() > 0 && x.last() != y.last() {
            assert(x != y);
        }
    }
    if status.has_metadata_done() {
        return false;
    }
    match case {
        RecoveryCase::Write | RecoveryCase::ProtectedWrite { .. } => true,
        RecoveryCase::Delete | RecoveryCase::CreateDir => !status.has_physical_done(),
        RecoveryCase::Move { protected } | RecoveryCase::MoveToTrash { protected }
        | RecoveryCase::RestoreTrash { protected } => protected || !status.has_physical_done(),
    }
}

// ---------------------------------------------------------------- laws of recovery
/// How the index stands to the storage.
#[derive(PartialEq, Eq, Structural)]
pub enum IndexState {
    Absent,
    Stale,
    Current,
}

/// Storage and index, as far as a recovery touches them.
pub struct World {
    pub first: bool,
    pub second: bool,
    pub blob: bool,
    pub index: IndexState,
}

pub open spec fn observe(w: World) -> Observed {
    Observed {
        first_exists: w.first,
        second_exists: w.second,
        indexed: w.index != IndexState::Absent,
        blob_exists: w.blob,
    }
}

/// The case moves index entries only, which are what its places are found by.
pub open spec fn index_only(case: RecoveryCase) -> bool {
    match case {
        RecoveryCase::Move { protected } => protected,
        RecoveryCase::MoveToTrash { protected } => protected,
        RecoveryCase::RestoreTrash { protected } => protected,
        _ => false,
    }
}

/// The world after a step.
pub open spec fn after_step(case: RecoveryCase, w: World, step: RecoveryStep) -> World {
    match step {
        RecoveryStep::RemoveTemp => World { second: false, ..w },
        RecoveryStep::SyncIndex | RecoveryStep::RestoreProtectedIndex => World {
            index: IndexState::Current,
            ..w
        },
        RecoveryStep::DropIndex => World { index: IndexState::Absent, ..w },
        RecoveryStep::DeletePath => World { first: false, index: IndexState::Absent, ..w },
        RecoveryStep::CreatePath => World { first: true, index: IndexState::Current, ..w },
        RecoveryStep::MovePhysical => World { first: false, second: true, ..w },
        RecoveryStep::MoveIndex | RecoveryStep::TrashIndex | RecoveryStep::RestoreIndex => if index_only(
            case,
        ) {
            World { first: false, second: true, index: IndexState::Current, ..w }
        } else {
            World { index: IndexState::Current, ..w }
        },
        RecoveryStep::Fail(_) => w,
    }
}

pub open spec fn after_steps(case: RecoveryCase, w: World, steps: Seq<RecoveryStep>) -> World
    decreases steps.len(),
{
    if steps.len() == 0 {
        w
    } else {
        after_step(case, after_steps(case, w, steps.drop_last()), steps.last())
    }
}

/// The recovery gives up.
pub open spec fn gives_up(steps: Seq<RecoveryStep>) -> bool {
    exists|i: int| 0 <= i < steps.len() && (#[trigger] steps[i]) is Fail
}

/// The world that one recovery leaves behind.
pub open spec fn recovered(case: RecoveryCase, status: WalStatus, w: World) -> World {
    after_steps(case, w, recovery(case, status, observe(w)))
}

/// A recovery that does not give up changes nothing when it is run once more, and
/// does not give up then either.
pub proof fn recovery_is_idempotent(case: RecoveryCase, status: WalStatus, w: World)
    requires
        !gives_up(recovery(case, status, observe(w))),
    ensures
        !gives_up(recovery(case, status, observe(recovered(case, status, w)))),
        recovered(case, status, recovered(case, status, w)) == recovered(case, status, w),
{
    reveal_with_fuel(after_steps, 4);
    let s = recovery(case, status, observe(w));
    let v = recovered(case, status, w);
    let t = recovery(case, status, observe(v));
    if s.len() > 0 && s[0] is Fail {
        assert(gives_up(s));
    }
    steps_are_short(case, status, observe(w));
    steps_are_short(case, status, observe(v));
    unroll(case, w, s);
    unroll(case, v, t);
}

proof fn steps_are_short(case: RecoveryCase, status: WalStatus, o: Observed)
    ensures
        recovery(case, status, o).len() <= 2,
        recovery(case, status, o).len() == 2 ==> !(recovery(case, status, o)[0] is Fail)
            && !(recovery(case, status, o)[1] is Fail),
{
}

proof fn unroll(case: RecoveryCase, w: World, s: Seq<RecoveryStep>)
    requires
        s.len() <= 2,
    ensures
        s.len() == 0 ==> after_steps(case, w, s) == w,
        s.len() == 1 ==> after_steps(case, w, s) == after_step(case, w, s[0]),
        s.len() == 2 ==> after_steps(case, w, s) == after_step(
            case,
            after_step(case, w, s[0]),
            s[1],
        ),
{
    reveal_with_fuel(after_steps, 4);
    if s.len() > 0 {
        assert(s.drop_last().len() == s.len() - 1);
        if s.len() == 2 {
            assert(s.drop_last()[0] == s[0]);
            assert(s.drop_last().drop_last().len() == 0);
        }
    }
}

/// An entry whose index work was done is recovered by doing nothing, and recovery
/// never touches the bytes of a file that has reached its place.
pub proof fn recovery_spares_what_is_done(case: RecoveryCase, status: WalStatus, o: Observed)
    ensures
        status.metadata_done() ==> recovery(case, status, o).len() == 0,
        status.physical_done() ==> forall|i: int|
            0 <= i < recovery(case, status, o).len() ==> {
                let s = #[trigger] recovery(case, status, o)[i];
                s != RecoveryStep::DeletePath && s != RecoveryStep::CreatePath && s
                    != RecoveryStep::MovePhysical && s != RecoveryStep::RemoveTemp
            },
{
}

/// The operation brings a file from the first place to the second.
pub open spec fn moves_a_file(case: RecoveryCase) -> bool {
    case is Move || case is MoveToTrash || case is RestoreTrash
}

/// A recovery that does not give up completes what was begun. A file that was on its
/// way is at its destination and nowhere else, and the index knows it there; what was
/// to be deleted is gone from storage and index; a directory that was to be created
/// is there, in the index too; and of a write that did not come to its end no
/// temporary file is left, and the index lists exactly what is there. Bytes that had
/// reached their place before are not touched.
pub proof fn recovery_completes_the_operation(case: RecoveryCase, status: WalStatus, w: World)
    requires
        !status.metadata_done(),
        !gives_up(recovery(case, status, observe(w))),
    ensures
        ({
            let v = recovered(case, status, w);
            let before = status == WalStatus::Pending || status == WalStatus::Recovering || status
                == WalStatus::Failed;
            &&& v.blob == w.blob
            &&& moves_a_file(case) && (before || index_only(case)) ==> v.second && !v.first
            &&& moves_a_file(case) && !index_only(case) ==> v.index == IndexState::Current
            &&& moves_a_file(case) && !before && !index_only(case) ==> v.first == w.first
                && v.second == w.second
            &&& case is Delete ==> v.index == IndexState::Absent && v.second == w.second && v.first
                == (!before && w.first)
            &&& case is CreateDir ==> v.index == IndexState::Current && v.second == w.second
                && v.first == (before || w.first)
            &&& case is Write ==> v.first == w.first && v.second == (!before && w.second) && v.index
                == if w.first {
                IndexState::Current
            } else {
                IndexState::Absent
            }
            &&& case is ProtectedWrite ==> v.first == w.first && v.second == w.second && v.index
                == if w.index == IndexState::Absent {
                IndexState::Current
            } else {
                w.index
            }
        }),
{
    let s = recovery(case, status, observe(w));
    if s.len() > 0 && s[0] is Fail {
        assert(gives_up(s));
    }
    steps_are_short(case, status, observe(w));
    unroll(case, w, s);
}

/// Which recoveries give up: those of a file that is on its way and found at both
/// places or at neither, as long as its bytes count, and those of a protected write of
/// which neither the index nor the entry tells where the bytes are. One that gives up
/// says so and does nothing else.
pub proof fn recovery_gives_up_only_in_doubt(case: RecoveryCase, status: WalStatus, o: Observed)
    ensures
        ({
            let s = recovery(case, status, o);
            let before = status == WalStatus::Pending || status == WalStatus::Recovering || status
                == WalStatus::Failed;
            let open = status != WalStatus::MetadataDone && status != WalStatus::Completed;
            &&& gives_up(s) ==> s.len() == 1
            &&& moves_a_file(case) ==> (gives_up(s) <==> open && (before || index_only(case))
                && o.first_exists == o.second_exists)
            &&& moves_a_file(case) && gives_up(s) ==> s[0] == RecoveryStep::Fail(
                if o.first_exists {
                    RecoveryFailure::BothExist
                } else {
                    RecoveryFailure::BothMissing
                },
            )
            &&& case matches RecoveryCase::ProtectedWrite { located } ==> (gives_up(s) <==> open
                && !o.indexed && !(located && o.blob_exists))
            &&& case is ProtectedWrite && gives_up(s) ==> s[0] == RecoveryStep::Fail(
                if status == WalStatus::PhysicalDone {
                    RecoveryFailure::IndexMissing
                } else {
                    RecoveryFailure::LocatorMissing
                },
            )
            &&& case is Write || case is Delete || case is CreateDir ==> !gives_up(s)
        }),
{
    let s = recovery(case, status, o);
    steps_are_short(case, status, o);
    if s.len() > 0 && s[0] is Fail {
        assert(gives_up(s));
    }
}

/// Every operation is recovered by its own means: an entry is moved, put into the
/// recycle bin or taken out of it in the index according to what was begun, only after
/// its bytes are at the second place; nothing but a deletion deletes a file, and
/// nothing but the creation of a directory creates one.
pub proof fn recovery_keeps_to_the_operation(
    case: RecoveryCase,
    status: WalStatus,
    w: World,
    i: int,
)
    requires
        0 <= i < recovery(case, status, observe(w)).len(),
    ensures
        ({
            let s = recovery(case, status, observe(w));
            let step = s[i];
            &&& step == RecoveryStep::MoveIndex ==> case is Move
            &&& step == RecoveryStep::TrashIndex ==> case is MoveToTrash
            &&& step == RecoveryStep::RestoreIndex ==> case is RestoreTrash
            &&& step == RecoveryStep::MovePhysical ==> moves_a_file(case) && !index_only(case)
            &&& step == RecoveryStep::DeletePath ==> case is Delete
            &&& step == RecoveryStep::CreatePath ==> case is CreateDir
            &&& step == RecoveryStep::RemoveTemp ==> case is Write
            &&& step == RecoveryStep::RestoreProtectedIndex ==> case is ProtectedWrite && w.blob
            &&& step == RecoveryStep::SyncIndex ==> case is Write || case is CreateDir
            &&& step == RecoveryStep::DropIndex ==> case is Write || case is Delete
            &&& moves_a_file(case) && !index_only(case) && status != WalStatus::PhysicalDone
                && step != RecoveryStep::MovePhysical && !(step is Fail) ==> after_steps(
                case,
                w,
                s.take(i),
            ).second
        }),
{
    let s = recovery(case, status, observe(w));
    steps_are_short(case, status, observe(w));
    unroll(case, w, s.take(i));
}

/// The states of an entry come one after the other: what is completed needs no
/// recovery, bytes are in place once they were moved, and the index follows them.
pub proof fn statuses_come_in_order(status: WalStatus)
    ensures
        status.active() <==> status != WalStatus::Completed,
        status.metadata_done() ==> status.physical_done(),
        status.physical_done() <==> status == WalStatus::PhysicalDone || status
            == WalStatus::MetadataDone || status == WalStatus::Completed,
        status.metadata_done() <==> status == WalStatus::MetadataDone || status
            == WalStatus::Completed,
{
}

/// What was begun decides how it is recovered, and which places are looked at: a file
/// on its way is looked for where it was and where it was to go; a move into the
/// recycle bin and the way back look at the same two places, the other way round; and
/// renaming is moving. Without a protected area the bytes are looked at, always.
pub proof fn operations_are_recovered_as_what_they_were(
    op: WalOperation,
    root: Option<&str>,
    path: String,
    other: String,
)
    ensures
        op is Write <==> case_of(op, root) is Write || case_of(op, root) is ProtectedWrite,
        op is Delete <==> case_of(op, root) is Delete,
        op is CreateDir <==> case_of(op, root) is CreateDir,
        op is Move || op is Rename <==> case_of(op, root) is Move,
        op is MoveToTrash <==> case_of(op, root) is MoveToTrash,
        op is RestoreTrash <==> case_of(op, root) is RestoreTrash,
        root is None ==> !index_only(case_of(op, root)) && !(case_of(op, root) is ProtectedWrite),
        case_of(op, root) matches RecoveryCase::ProtectedWrite { located } ==> located
            == (op->Write_protected is Some),
        places_of(WalOperation::Move { src: path, dst: other }) == (path@, Some(other@)),
        places_of(WalOperation::Rename { old_path: path, new_path: other }) == places_of(
            WalOperation::Move { src: path, dst: other },
        ),
        places_of(WalOperation::MoveToTrash { path, trash_path: other }) == (path@, Some(other@)),
        places_of(WalOperation::RestoreTrash { trash_path: other, original_path: path }) == (
            other@,
            Some(path@),
        ),
        places_of(WalOperation::Delete { path }) == (path@, None::<Seq<char>>),
        places_of(WalOperation::CreateDir { path }) == (path@, None::<Seq<char>>),
        op matches WalOperation::Write { path: p, size, protected } ==> places_of(op) == (
            p@,
            Some(p@ + seq!['.', 't', 'm', 'p']),
        ),
{
    reveal_strlit(".tmp");
    assert(".tmp"@ =~= seq!['.', 't', 'm', 'p']);
}

/// Only where both ends of a move lie in the protected area the index alone moves it;
/// the recycle bin is kept in the index alone only where all of the scope is protected.
pub proof fn the_index_alone_moves_protected_files(op: WalOperation, root: &str)
    ensures
        op matches WalOperation::Move { src, dst } ==> (index_only(case_of(op, Some(root)))
            <==> in_protected_area(root@, src@) && in_protected_area(root@, dst@)),
        op matches WalOperation::Rename { old_path, new_path } ==> (index_only(
            case_of(op, Some(root)),
        ) <==> in_protected_area(root@, old_path@) && in_protected_area(root@, new_path@)),
        op matches WalOperation::Write { path, size, protected } ==> (case_of(
            op,
            Some(root),
        ) is ProtectedWrite <==> in_protected_area(root@, path@)),
        op is MoveToTrash || op is RestoreTrash ==> (index_only(case_of(op, Some(root)))
            <==> root@ == seq!['/']),
{
    reveal_strlit("/");
    assert("/"@ =~= seq!['/']);
    let none: Seq<char> = Seq::empty();
    let name: Seq<char> = seq!['a'];
    match op {
        WalOperation::MoveToTrash { path, trash_path } => {
            crate::scoped::engine::protected_areas_hold_what_lies_below(name, path@, none);
        },
        WalOperation::RestoreTrash { trash_path, original_path } => {
            crate::scoped::engine::protected_areas_hold_what_lies_below(name, original_path@, none);
        },
        _ => {},
    }
}

// ---------------------------------------------------------------- texts
pub open spec fn place_failure_text(
    label: Seq<char>,
    protected: bool,
    first_word: Seq<char>,
    second_word: Seq<char>,
    first: Seq<char>,
    second: Seq<char>,
    missing: bool,
) -> Seq<char> {
    (if protected {
        "PROTECTED "@
    } else {
        ""@
    }) + label + " recovery ambiguous: both "@ + (first_word + "'"@ + first + "' and "@ + (
    second_word + "'"@ + second)) + if missing {
        "' are missing"@
    } else {
        "' exist"@
    }
}

/// What is reported of a file that is in neither of its two places, or in both. The
/// words name the places, each with a space behind it, or are empty.
fn place_failure(
    label: &str,
    protected: bool,
    first_word: &str,
    second_word: &str,
    first: &str,
    second: &str,
    missing: bool,
) -> (res: String)
    ensures
        res@ == place_failure_text(
            label@,
            protected,
            first_word@,
            second_word@,
            first@,
            second@,
            missing,
        ),
{
    let lead = if protected {
        "PROTECTED "
    } else {
        ""
    };
    let end = if missing {
        "' are missing"
    } else {
        "' exist"
    };
    let b: String = concat3(second_word, "'", second);
    let places: String = concat5(first_word, "'", first, "' and ", b.as_str());
    concat5(lead, label, " recovery ambiguous: both ", places.as_str(), end)
}

/// What the operation and its two places are called in a report.
pub open spec fn words_of(op: WalOperation) -> (Seq<char>, Seq<char>, Seq<char>) {
    match op {
        WalOperation::MoveToTrash { .. } => ("MOVE_TO_TRASH"@, "source "@, "trash "@),
        WalOperation::RestoreTrash { .. } => ("RESTORE_TRASH"@, ""@, ""@),
        _ => ("MOVE"@, "source "@, "destination "@),
    }
}

pub open spec fn failure_text(op: WalOperation, case: RecoveryCase, failure: RecoveryFailure) -> Seq<
    char,
> {
    let words = words_of(op);
    let places = places_of(op);
    let second = match places.1 {
        Some(p) => p,
        None => ""@,
    };
    match failure {
        RecoveryFailure::BothMissing => place_failure_text(
            words.0,
            index_only(case),
            words.1,
            words.2,
            places.0,
            second,
            true,
        ),
        RecoveryFailure::BothExist => place_failure_text(
            words.0,
            index_only(case),
            words.1,
            words.2,
            places.0,
            second,
            false,
        ),
        RecoveryFailure::IndexMissing =>
            "Protected write recovery requires manual backend_key repair because index metadata is missing"@,
        RecoveryFailure::LocatorMissing =>
            "Protected write recovery requires manual backend_key repair because WAL does not store blob locator"@,
    }
}

/// What is reported of an operation that cannot be recovered by itself.
pub fn recovery_failure_text(op: &WalOperation, case: RecoveryCase, failure: RecoveryFailure) -> (res:
    String)
    ensures
        res@ == failure_text(*op, case, failure),
{
    let (label, first_word, second_word): (&str, &str, &str) = match op {
        WalOperation::MoveToTrash { .. } => ("MOVE_TO_TRASH", "source ", "trash "),
        WalOperation::RestoreTrash { .. } => ("RESTORE_TRASH", "", ""),
        _ => ("MOVE", "source ", "destination "),
    };
    let protected: bool = match case {
        RecoveryCase::Move { protected } => protected,
        RecoveryCase::MoveToTrash { protected } => protected,
        RecoveryCase::RestoreTrash { protected } => protected,
        _ => false,
    };
    let (first, second) = recovery_places(op);
    let second: String = match second {
        Some(p) => p,
        None => "".to_owned(),
    };
    match failure {
        RecoveryFailure::BothMissing => place_failure(
            label,
            protected,
            first_word,
            second_word,
            first.as_str(),
            second.as_str(),
            true,
        ),
        RecoveryFailure::BothExist => place_failure(
            label,
            protected,
            first_word,
            second_word,
            first.as_str(),
            second.as_str(),
            false,
        ),
        other => protected_failure(other).to_owned(),
    }
}

/// What is reported of a protected write whose bytes cannot be found.
fn protected_failure(failure: RecoveryFailure) -> (res: &'static str)
    ensures
        res@ == if failure == RecoveryFailure::IndexMissing {
            "Protected write recovery requires manual backend_key repair because index metadata is missing"@
        } else {
            "Protected write recovery requires manual backend_key repair because WAL does not store blob locator"@
        },
{
    match failure {
        RecoveryFailure::IndexMissing =>
            "Protected write recovery requires manual backend_key repair because index metadata is missing",
        _ =>
            "Protected write recovery requires manual backend_key repair because WAL does not store blob locator",
    }
}

/// Physical path of a user's path.
pub fn to_physical_user_path(user_id: &str, logical_path: &str) -> (res: String)
    ensures
        res@ == user_id@ + "/"@ + trim_start_char(logical_path@, '/'),
{
    concat3(user_id, "/", trim_start_matches(logical_path, '/'))
}

/// The reason kept with an entry that an administrator has settled.
pub open spec fn handled_reason(existing: Option<Seq<char>>, note: Option<Seq<char>>) -> Seq<char> {
    let remark = match note {
        Some(n) => if trimmed(n).len() > 0 {
            "ADMIN_MARKED_HANDLED: "@ + trimmed(n)
        } else {
            "ADMIN_MARKED_HANDLED"@
        },
        None => "ADMIN_MARKED_HANDLED"@,
    };
    match existing {
        Some(e) => if e.len() > 0 {
            e + "\n"@ + remark
        } else {
            remark
        },
        None => remark,
    }
}

pub fn handled_failure_reason(existing: Option<&str>, note: Option<&str>) -> (res: String)
    ensures
        res@ == handled_reason(
            match existing {
                Some(e) => Some(e@),
                None => None,
            },
            match note {
                Some(n) => Some(n@),
                None => None,
            },
        ),
{
    let remark: String = match note {
        Some(n) => {
            let t = trim(n);
            if t.is_empty() {
                "ADMIN_MARKED_HANDLED".to_owned()
            } else {
                concat2("ADMIN_MARKED_HANDLED: ", t)
            }
        },
        None => "ADMIN_MARKED_HANDLED".to_owned(),
    };
    match existing {
        Some(e) => {
            if e.is_empty() {
                remark
            } else {
                concat3(e, "\n", remark.as_str())
            }
        },
        None => remark,
    }
}

/// A database error says that the column is already there.
pub open spec fn says_duplicate_column(message: Seq<char>, column: Seq<char>) -> bool {
    let m = ascii_lower(message);
    has_infix(m, "duplicate column"@) || (has_infix(m, "already exists"@) && has_infix(
        m,
        ascii_lower(column),
    ))
}

pub fn is_duplicate_column_error(message: &str, column_name: &str) -> (res: bool)
    ensures
        res == says_duplicate_column(message@, column_name@),
{
    let m: String = to_ascii_lowercase(message);
    contains_text(m.as_str(), "duplicate column") || (contains_text(m.as_str(), "already exists")
        && contains_text(m.as_str(), to_ascii_lowercase(column_name).as_str()))
}

/// An entry may be replayed: it exists, and is not completed. `status` is what it
/// reached, where it exists.
pub fn check_replay(log_id: i64, status: Option<WalStatus>) -> (res: Result<(), String>)
    ensures
        match res {
            Ok(()) => status is Some && status->0.active(),
            Err(e) => match status {
                None => e@ == "WAL log "@ + decimal_int(log_id as int) + " not found"@,
                Some(s) => !s.active() && e@ == "WAL log "@ + decimal_int(log_id as int)
                    + " is already completed and cannot be replayed"@,
            },
        },
{
    match status {
        None => Err(concat3("WAL log ", decimal_int_text(log_id).as_str(), " not found")),
        Some(s) => if s.is_active() {
            Ok(())
        } else {
            Err(
                concat3(
                    "WAL log ",
                    decimal_int_text(log_id).as_str(),
                    " is already completed and cannot be replayed",
                ),
            )
        },
    }
}

// ---------------------------------------------------------------- queries
/// Which log entries are asked for.
#[derive(Debug, Clone, Copy)]
pub struct WalQueryFilters<'a> {
    pub scope: Option<&'a str>,
    pub status: Option<&'a str>,
    pub user_id: Option<&'a str>,
    pub operation_type: Option<&'a str>,
    pub updated_from: Option<TimeNanos>,
    pub updated_to: Option<TimeNanos>,
}

impl<'a> Default for WalQueryFilters<'a> {
    fn default() -> (res: WalQueryFilters<'a>)
        ensures
            res.scope is None,
            res.status is None,
            res.user_id is None,
            res.operation_type is None,
            res.updated_from is None,
            res.updated_to is None,
    {
        WalQueryFilters {
            scope: None,
            status: None,
            user_id: None,
            operation_type: None,
            updated_from: None,
            updated_to: None,
        }
    }
}

/// Which states of entries are asked for.
#[derive(Debug)]
pub enum StatusCondition {
    Any,
    /// Completed entries.
    History,
    /// Failed and recovering entries.
    Issues,
    Exactly(String),
}

/// The conditions that an entry has to meet, all of them.
#[derive(Debug)]
pub struct WalCondition {
    pub user_id: Option<String>,
    pub operation_type: Option<String>,
    pub updated_from: Option<TimeNanos>,
    pub updated_to: Option<TimeNanos>,
    pub status: StatusCondition,
}

/// The text, where it is not blank.
pub open spec fn non_blank(text: Option<&str>) -> Option<Seq<char>> {
    match text {
        Some(t) => if trimmed(t@).len() > 0 {
            Some(trimmed(t@))
        } else {
            None
        },
        None => None,
    }
}

pub open spec fn status_text(status: Option<&str>) -> Seq<char> {
    ascii_lower(
        trimmed(
            match status {
                Some(s) => s@,
                None => "all"@,
            },
        ),
    )
}

pub open spec fn scope_text(scope: Option<&str>) -> Seq<char> {
    ascii_lower(
        trimmed(
            match scope {
                Some(s) => s@,
                None => "issues"@,
            },
        ),
    )
}

pub open spec fn opt_text(text: Option<String>) -> Option<Seq<char>> {
    match text {
        Some(t) => Some(t@),
        None => None,
    }
}

/// The conditions of a query: blank texts ask for nothing, neither does the type
/// `all`; a status decides by itself, and the scope only where there is none.
pub fn build_filtered_condition(filters: WalQueryFilters<'_>) -> (res: WalCondition)
    ensures
        opt_text(res.user_id) == non_blank(filters.user_id),
        opt_text(res.operation_type) == match non_blank(filters.operation_type) {
            Some(t) => if ascii_lower(t) == "all"@ {
                None
            } else {
                Some(t)
            },
            None => None,
        },
        res.updated_from == filters.updated_from,
        res.updated_to == filters.updated_to,
        ({
            let status = status_text(filters.status);
            let scope = scope_text(filters.scope);
            if status.len() == 0 || status == "all"@ {
                if scope == "history"@ {
                    res.status is History
                } else if scope == "all"@ {
                    res.status is Any
                } else {
                    res.status is Issues
                }
            } else {
                res.status matches StatusCondition::Exactly(s) && s@ == status
            }
        }),
{
    let user_id: Option<String> = keep_non_blank(filters.user_id);
    let operation_type: Option<String> = match keep_non_blank(filters.operation_type) {
        Some(t) => if text_eq(to_ascii_lowercase(t.as_str()).as_str(), "all") {
            None
        } else {
            Some(t)
        },
        None => None,
    };
    let status: String = to_ascii_lowercase(
        trim(
            match filters.status {
                Some(s) => s,
                None => "all",
            },
        ),
    );
    let scope: String = to_ascii_lowercase(
        trim(
            match filters.scope {
                Some(s) => s,
                None => "issues",
            },
        ),
    );
    let condition: StatusCondition = if status.as_str().is_empty() || text_eq(
        status.as_str(),
        "all",
    ) {
        if text_eq(scope.as_str(), "history") {
            StatusCondition::History
        } else if text_eq(scope.as_str(), "all") {
            StatusCondition::Any
        } else {
            StatusCondition::Issues
        }
    } else {
        StatusCondition::Exactly(status)
    };
    WalCondition {
        user_id,
        operation_type,
        updated_from: filters.updated_from,
        updated_to: filters.updated_to,
        status: condition,
    }
}

fn keep_non_blank(text: Option<&str>) -> (res: Option<String>)
    ensures
        opt_text(res) == non_blank(text),
{
    match text {
        Some(t) => {
            let trimmed_text = trim(t);
            if trimmed_text.is_empty() {
                None
            } else {
                Some(trimmed_text.to_owned())
            }
        },
        None => None,
    }
}

/// Page number and size of a query: both at least one.
pub open spec fn page_asked_for(page: u64, page_size: u64) -> (u64, u64) {
    (
        if page == 0 {
            1
        } else {
            page
        },
        if page_size == 0 {
            1
        } else {
            page_size
        },
    )
}

pub fn issue_page(page: u64, page_size: u64) -> (res: (u64, u64))
    ensures
        res == page_asked_for(page, page_size),
{
    let p: u64 = if page == 0 {
        1
    } else {
        page
    };
    let s: u64 = if page_size == 0 {
        1
    } else {
        page_size
    };
    (p, s)
}

// ---------------------------------------------------------------- records
/// A moment: seconds since the epoch, and nanoseconds.
#[derive(Debug, Clone, Copy, PartialEq, Eq, Structural)]
pub struct Moment {
    pub secs: i64,
    pub nanos: u32,
}

impl Moment {
    /// The moment has a date and a time of day. A leap second has a thousand million
    /// nanoseconds or more, and ends a minute.
    pub open spec fn has_date(self) -> bool {
        &&& is_calendar_time(self.secs)
        &&& self.nanos < 1_000_000_000 || self.nanos < 2_000_000_000 && self.secs as int % 60 == 59
    }
}

/// The RFC 3339 text of a moment in UTC.
pub uninterp spec fn rfc3339_text(secs: i64, nanos: u32) -> Seq<char>;

/// `chrono::DateTime::from_timestamp` gives a date to the moments that have one, and
/// `to_rfc3339` writes it in UTC. How it is written is not stated.
#[verifier::external_body]
fn format_rfc3339(moment: Moment) -> (res: Option<String>)
    ensures
        match res {
            Some(text) => moment.has_date() && text@ == rfc3339_text(moment.secs, moment.nanos),
            None => !moment.has_date(),
        },
{
    chrono::DateTime::<chrono::Utc>::from_timestamp(moment.secs, moment.nanos)
        .map(|time| time.to_rfc3339())
}

/// An entry of the log as it is stored.
#[derive(Debug, Clone)]
pub struct WalRow {
    pub id: i64,
    pub user_id: String,
    pub operation_type: String,
    pub operation_data: String,
    pub status: String,
    pub failure_reason: Option<String>,
    pub created_at: Moment,
    pub updated_at: Moment,
    pub completed_at: Option<Moment>,
}

/// An entry of the log as it is shown.
#[derive(Debug, Clone)]
pub struct WalIssueRecord {
    pub id: i64,
    pub user_id: String,
    pub operation_type: String,
    pub operation_data: String,
    pub status: String,
    pub failure_reason: Option<String>,
    pub created_at: String,
    pub updated_at: String,
    pub completed_at: Option<String>,
}

impl WalRow {
    pub open spec fn has_dates(self) -> bool {
        &&& self.created_at.has_date()
        &&& self.updated_at.has_date()
        &&& self.completed_at matches Some(m) ==> m.has_date()
    }

    /// `record` shows this entry.
    pub open spec fn is_shown_by(self, record: WalIssueRecord) -> bool {
        &&& record.id == self.id
        &&& record.user_id == self.user_id
        &&& record.operation_type == self.operation_type
        &&& record.operation_data == self.operation_data
        &&& record.status == self.status
        &&& record.failure_reason == self.failure_reason
        &&& record.created_at@ == rfc3339_text(self.created_at.secs, self.created_at.nanos)
        &&& record.updated_at@ == rfc3339_text(self.updated_at.secs, self.updated_at.nanos)
        &&& match self.completed_at {
            Some(m) => record.completed_at is Some && record.completed_at->0@ == rfc3339_text(
                m.secs,
                m.nanos,
            ),
            None => record.completed_at is None,
        }
    }
}

/// The entry as it is shown: with its times as texts, where they have dates.
pub fn map_issue_record(row: WalRow) -> (res: Option<WalIssueRecord>)
    ensures
        match res {
            Some(record) => row.has_dates() && row.is_shown_by(record),
            None => !row.has_dates(),
        },
{
    let created_at: String = match format_rfc3339(row.created_at) {
        Some(text) => text,
        None => return None,
    };
    let updated_at: String = match format_rfc3339(row.updated_at) {
        Some(text) => text,
        None => return None,
    };
    let completed_at: Option<String> = match row.completed_at {
        Some(moment) => match format_rfc3339(moment) {
            Some(text) => Some(text),
            None => return None,
        },
        None => None,
    };
    Some(
        WalIssueRecord {
            id: row.id,
            user_id: row.user_id,
            operation_type: row.operation_type,
            operation_data: row.operation_data,
            status: row.status,
            failure_reason: row.failure_reason,
            created_at,
            updated_at,
            completed_at,
        },
    )
}

// ---------------------------------------------------------------- recovery of all entries
/// What becomes of an entry once its recovery was tried.
#[derive(Debug)]
pub enum RecoveredEntry {
    /// The entry is deleted: nothing is left to recover.
    Delete,
    /// The entry stays, with this change.
    Keep(StatusUpdate),
}

/// A recovered entry is deleted; one whose recovery failed stays as failed, with the
/// failure's text.
pub fn after_recovery(error: Option<&str>) -> (res: RecoveredEntry)
    ensures
        match error {
            None => res is Delete,
            Some(e) => res matches RecoveredEntry::Keep(update) && update.status
                == WalStatus::Failed && !update.completed && update.failure_reason is Some
                && update.failure_reason->0@ == e@,
        },
{
    match error {
        None => RecoveredEntry::Delete,
        Some(e) => RecoveredEntry::Keep(transition_operation(WalStatus::Failed, Some(e))),
    }
}

/// Result of a recovery of all entries.
#[derive(Debug)]
pub struct WalRecoveryResult {
    pub recovered: usize,
    pub failed: usize,
    pub errors: Vec<String>,
}

impl WalRecoveryResult {
    /// Every failure has its text.
    pub open spec fn wf(self) -> bool {
        self.failed == self.errors@.len()
    }

    pub fn new() -> (res: WalRecoveryResult)
        ensures
            res.recovered == 0,
            res.failed == 0,
            res.errors@.len() == 0,
            res.wf(),
    {
        WalRecoveryResult { recovered: 0, failed: 0, errors: Vec::new() }
    }

    /// Count the outcome of one entry: `None` for success, else the failure's text.
    pub fn record(&mut self, id: i64, error: Option<&str>)
        requires
            old(self).wf(),
            old(self).recovered + old(self).failed < usize::MAX,
        ensures
            final(self).wf(),
            match error {
                None => final(self).recovered == old(self).recovered + 1 && final(self).failed
                    == old(self).failed && final(self).errors == old(self).errors,
                Some(e) => final(self).recovered == old(self).recovered && final(self).failed
                    == old(self).failed + 1 && final(self).errors@ == old(self).errors@.push(
                    final(self).errors@.last(),
                ) && final(self).errors@.last()@ == "Log "@ + decimal_int(id as int) + ": "@ + e@,
            },
    {
        match error {
            None => {
                self.recovered = self.recovered + 1;
            },
            Some(e) => {
                self.failed = self.failed + 1;
                let text: String = concat4("Log ", decimal_int_text(id).as_str(), ": ", e);
                self.errors.push(text);
            },
        }
    }
}

/// The users whose entries are to be recovered, each once.
pub fn affected_users(user_ids: &Vec<String>) -> (res: Vec<String>)
    ensures
        forall|u: Seq<char>| #[trigger] views(res@).contains(u) <==> views(user_ids@).contains(u),
        views(res@).no_duplicates(),
{
    let mut out: Vec<String> = Vec::new();
    let mut i: usize = 0;
    while i < user_ids.len()
        invariant
            i <= user_ids@.len(),
            views(out@).no_duplicates(),
            forall|k: int| 0 <= k < i ==> views(out@).contains((#[trigger] user_ids@[k])@),
            forall|j: int|
                0 <= j < out@.len() ==> views(user_ids@).contains((#[trigger] out@[j])@),
        decreases user_ids@.len() - i,
    {
        let ghost prior = out@;
        if position_of(&out, user_ids[i].as_str()).is_none() {
            out.push(user_ids[i].clone());
            proof {
                assert(views(out@) =~= views(prior).push(user_ids@[i as int]@));
                assert(views(user_ids@)[i as int] == user_ids@[i as int]@);
                assert(views(out@)[out@.len() - 1] == user_ids@[i as int]@);
            }
        }
        proof {
            assert forall|k: int| 0 <= k < i + 1 implies views(out@).contains(
                (#[trigger] user_ids@[k])@,
            ) by {
                if k < i {
                    let j = choose|j: int|
                        0 <= j < views(prior).len() && views(prior)[j] == user_ids@[k]@;
                    assert(views(out@)[j] == user_ids@[k]@);
                }
            }
        }
        i += 1;
    }
    proof {
        assert forall|u: Seq<char>| #[trigger] views(out@).contains(u) <==> views(
            user_ids@,
        ).contains(u) by {
            if views(out@).contains(u) {
                let j = choose|j: int| 0 <= j < views(out@).len() && views(out@)[j] == u;
                assert(out@[j]@ == u);
            }
            if views(user_ids@).contains(u) {
                let k = choose|k: int| 0 <= k < views(user_ids@).len() && views(user_ids@)[k] == u;
                assert(user_ids@[k]@ == u);
            }
        }
    }
    out
}

/// Each operation has a label of its own.
pub proof fn labels_tell_operations_apart(a: WalOperation, b: WalOperation)
    requires
        a.label() == b.label(),
    ensures
        a is Write <==> b is Write,
        a is Delete <==> b is Delete,
        a is Move <==> b is Move,
        a is Rename <==> b is Rename,
        a is MoveToTrash <==> b is MoveToTrash,
        a is CreateDir <==> b is CreateDir,
        a is RestoreTrash <==> b is RestoreTrash,
{
    reveal_strlit("WRITE");
    reveal_strlit("DELETE");
    reveal_strlit("MOVE");
    reveal_strlit("RENAME");
    reveal_strlit("MOVE_TO_TRASH");
    reveal_strlit("CREATE_DIR");
    reveal_strlit("RESTORE_TRASH");
    let x = a.label();
    let y = b.label();
    assert(x.len() == y.len());
    assert(x[0] == y[0]);
}

/// What an administrator settles keeps the reason that it had, and the remark comes
/// behind it.
pub proof fn a_remark_keeps_the_reason(existing: Seq<char>, note: Seq<char>)
    requires
        existing.len() > 0,
        trimmed(note).len() > 0,
    ensures
        handled_reason(Some(existing), Some(note)) == existing + seq!['\n']
            + "ADMIN_MARKED_HANDLED: "@ + trimmed(note),
        handled_reason(None, Some(note)) == "ADMIN_MARKED_HANDLED: "@ + trimmed(note),
        handled_reason(Some(existing), None) == existing + seq!['\n'] + "ADMIN_MARKED_HANDLED"@,
        handled_reason(None, None) == "ADMIN_MARKED_HANDLED"@,
        handled_reason(Some(Seq::empty()), None) == "ADMIN_MARKED_HANDLED"@,
{
    reveal_strlit("\n");
    assert("\n"@ =~= seq!['\n']);
    let remark = "ADMIN_MARKED_HANDLED: "@ + trimmed(note);
    assert(existing + seq!['\n'] + remark =~= existing + seq!['\n'] + "ADMIN_MARKED_HANDLED: "@
        + trimmed(note));
}

/// An error of the database counts as harmless only where it says that something is
/// there already.
pub proof fn only_what_is_there_already_is_harmless(message: Seq<char>, column: Seq<char>)
    ensures
        has_infix(ascii_lower(message), "duplicate column"@) ==> says_duplicate_column(
            message,
            column,
        ),
        says_duplicate_column(message, column) ==> has_infix(
            ascii_lower(message),
            "duplicate column"@,
        ) || has_infix(ascii_lower(message), "already exists"@),
        says_duplicate_column(message, column) && !has_infix(
            ascii_lower(message),
            "duplicate column"@,
        ) ==> has_infix(ascii_lower(message), ascii_lower(column)),
        has_infix(ascii_lower(message), "already exists"@) && has_infix(
            ascii_lower(message),
            ascii_lower(column),
        ) ==> says_duplicate_column(message, column),
{
}

/// Only a completed entry gets a time of completion, and a reason is kept as it was
/// given.
pub proof fn only_completed_entries_have_an_end(
    status: WalStatus,
    reason: &str,
    plain: StatusUpdate,
    explained: StatusUpdate,
)
    requires
        is_change_to(status, None, plain),
        is_change_to(status, Some(reason), explained),
    ensures
        plain.status == status && explained.status == status,
        plain.completed <==> status == WalStatus::Completed,
        explained.completed <==> status == WalStatus::Completed,
        plain.failure_reason is None,
        explained.failure_reason is Some && explained.failure_reason->0@ == reason@,
{
}

/// Pages are counted from one and hold one entry at least.
pub proof fn pages_count_from_one(page: u64, page_size: u64)
    ensures
        ({
            let (p, n) = page_asked_for(page, page_size);
            &&& p >= 1 && n >= 1
            &&& page >= 1 ==> p == page
            &&& page_size >= 1 ==> n == page_size
            &&& p <= page + 1 && n <= page_size + 1
        }),
{
}

/// A remark that is blank is none.
pub proof fn blank_remarks_are_none(note: Seq<char>)
    requires
        trimmed(note).len() == 0,
    ensures
        handled_reason(None, Some(note)) == "ADMIN_MARKED_HANDLED"@,
{
}

/// A text that is asked for counts without the space around it, and a blank one not at
/// all.
pub proof fn blank_texts_do_not_count(text: &str)
    ensures
        non_blank(Some(text)) is Some <==> trimmed(text@).len() > 0,
        non_blank(Some(text)) is Some ==> non_blank(Some(text))->0 == trimmed(text@),
        non_blank(None) is None,
{
}

/// A report of two places that both hold the file, or both do not, names both places and
/// says which it is.
pub proof fn reports_name_both_places(
    label: Seq<char>,
    first_word: Seq<char>,
    second_word: Seq<char>,
    first: Seq<char>,
    second: Seq<char>,
)
    ensures
        place_failure_text(label, false, first_word, second_word, first, second, true) == label
            + " recovery ambiguous: both "@ + first_word + "'"@ + first + "' and "@ + second_word
            + "'"@ + second + "' are missing"@,
        place_failure_text(label, false, first_word, second_word, first, second, false) == label
            + " recovery ambiguous: both "@ + first_word + "'"@ + first + "' and "@ + second_word
            + "'"@ + second + "' exist"@,
        place_failure_text(label, true, first_word, second_word, first, second, true)
            == "PROTECTED "@ + place_failure_text(
            label,
            false,
            first_word,
            second_word,
            first,
            second,
            true,
        ),
{
    reveal_strlit("");
    assert(""@ + label =~= label);
    let places = first_word + "'"@ + first + "' and "@ + (second_word + "'"@ + second);
    let head = label + " recovery ambiguous: both "@;
    assert(head + places + "' are missing"@ =~= label + " recovery ambiguous: both "@ + first_word
        + "'"@ + first + "' and "@ + second_word + "'"@ + second + "' are missing"@);
    assert(head + places + "' exist"@ =~= label + " recovery ambiguous: both "@ + first_word + "'"@
        + first + "' and "@ + second_word + "'"@ + second + "' exist"@);
    assert("PROTECTED "@ + label + " recovery ambiguous: both "@ + places + "' are missing"@
        =~= "PROTECTED "@ + (head + places + "' are missing"@));
}

/// What failed is told: that both places hold the file only where they do.
pub proof fn reports_say_what_was_found(op: WalOperation, case: RecoveryCase)
    ensures
        ({
            let words = words_of(op);
            let places = places_of(op);
            let second = match places.1 {
                Some(p) => p,
                None => Seq::<char>::empty(),
            };
            &&& failure_text(op, case, RecoveryFailure::BothExist) == place_failure_text(
                words.0,
                index_only(case),
                words.1,
                words.2,
                places.0,
                second,
                false,
            )
            &&& failure_text(op, case, RecoveryFailure::BothMissing) == place_failure_text(
                words.0,
                index_only(case),
                words.1,
                words.2,
                places.0,
                second,
                true,
            )
        }),
{
    reveal_strlit("");
    assert(""@ =~= Seq::<char>::empty());
}

/// A record shows an entry as it is, its times written out.
pub proof fn records_show_entries_as_they_are(row: WalRow, record: WalIssueRecord)
    requires
        row.is_shown_by(record),
    ensures
        record.id == row.id,
        record.user_id == row.user_id,
        record.operation_type == row.operation_type,
        record.operation_data == row.operation_data,
        record.status == row.status,
        record.failure_reason == row.failure_reason,
        record.created_at@ == rfc3339_text(row.created_at.secs, row.created_at.nanos),
        record.updated_at@ == rfc3339_text(row.updated_at.secs, row.updated_at.nanos),
        record.completed_at is Some <==> row.completed_at is Some,
        row.completed_at matches Some(m) ==> record.completed_at->0@ == rfc3339_text(
            m.secs,
            m.nanos,
        ),
{
}

} // verus!
