//! The write-ahead log and its recovery.
use vfs_storage_hub::wal::{
    affected_users, after_recovery, build_filtered_condition, check_replay,
    handled_failure_reason, is_duplicate_column_error, issue_page, map_issue_record,
    needs_observation, plan_recovery, recovery_case, recovery_failure_text, recovery_places,
    to_physical_user_path, transition_operation, Moment, Observed, RecoveredEntry, RecoveryCase,
    RecoveryFailure, RecoveryStep, StatusCondition, WalOperation, WalProtectedWriteMeta,
    WalQueryFilters, WalRecoveryResult, WalRow, WalStatus,
};

fn seen(first: bool, second: bool) -> Observed {
    Observed { first_exists: first, second_exists: second, indexed: false, blob_exists: false }
}

#[test]
fn statuses_have_names() {
    for s in [
        WalStatus::Pending,
        WalStatus::Recovering,
        WalStatus::PhysicalDone,
        WalStatus::MetadataDone,
        WalStatus::Completed,
        WalStatus::Failed,
    ] {
        assert_eq!(WalStatus::parse(s.as_str()), s);
    }
    assert_eq!(WalStatus::parse(" COMPLETED "), WalStatus::Completed);
    assert_eq!(WalStatus::parse("?"), WalStatus::Pending);
    assert!(WalStatus::Failed.is_active());
    assert!(!WalStatus::Completed.is_active());
    assert!(WalStatus::MetadataDone.has_physical_done());
    assert!(!WalStatus::PhysicalDone.has_metadata_done());
}

#[test]
fn transitions_note_reason_and_completion() {
    let t = transition_operation(WalStatus::Failed, Some("disk"));
    assert_eq!((t.failure_reason.as_deref(), t.completed), (Some("disk"), false));
    assert!(transition_operation(WalStatus::Completed, None).completed);
}

#[test]
fn writes_are_recovered_by_what_is_found() {
    let plan = |s, o| plan_recovery(RecoveryCase::Write, s, o);
    assert_eq!(
        plan(WalStatus::Pending, seen(true, true)),
        vec![RecoveryStep::RemoveTemp, RecoveryStep::SyncIndex]
    );
    assert_eq!(
        plan(WalStatus::Pending, seen(false, true)),
        vec![RecoveryStep::RemoveTemp, RecoveryStep::DropIndex]
    );
    assert_eq!(plan(WalStatus::PhysicalDone, seen(true, true)), vec![RecoveryStep::SyncIndex]);
    assert!(plan(WalStatus::MetadataDone, seen(true, true)).is_empty());
}

#[test]
fn protected_writes_need_their_bytes() {
    let plan = |located, s, indexed, blob| {
        plan_recovery(
            RecoveryCase::ProtectedWrite { located },
            s,
            Observed { first_exists: false, second_exists: false, indexed, blob_exists: blob },
        )
    };
    assert!(plan(true, WalStatus::Pending, true, true).is_empty());
    assert_eq!(
        plan(true, WalStatus::Pending, false, true),
        vec![RecoveryStep::RestoreProtectedIndex]
    );
    assert_eq!(
        plan(false, WalStatus::PhysicalDone, false, false),
        vec![RecoveryStep::Fail(RecoveryFailure::IndexMissing)]
    );
    assert_eq!(
        plan(false, WalStatus::Pending, false, false),
        vec![RecoveryStep::Fail(RecoveryFailure::LocatorMissing)]
    );
    let op = WalOperation::Write { path: "/v/a".to_string(), size: 1, protected: None };
    let told =
        |f| recovery_failure_text(&op, RecoveryCase::ProtectedWrite { located: false }, f);
    assert_eq!(
        told(RecoveryFailure::IndexMissing),
        "Protected write recovery requires manual backend_key repair because index metadata is missing"
    );
    assert_eq!(
        told(RecoveryFailure::LocatorMissing),
        "Protected write recovery requires manual backend_key repair because WAL does not store blob locator"
    );
}

#[test]
fn moves_are_recovered_by_where_the_file_is() {
    let plan = |s, o| plan_recovery(RecoveryCase::Move { protected: false }, s, o);
    assert_eq!(
        plan(WalStatus::Pending, seen(true, false)),
        vec![RecoveryStep::MovePhysical, RecoveryStep::MoveIndex]
    );
    assert_eq!(plan(WalStatus::Pending, seen(false, true)), vec![RecoveryStep::MoveIndex]);
    assert_eq!(
        plan(WalStatus::Pending, seen(true, true)),
        vec![RecoveryStep::Fail(RecoveryFailure::BothExist)]
    );
    assert_eq!(
        plan(WalStatus::Pending, seen(false, false)),
        vec![RecoveryStep::Fail(RecoveryFailure::BothMissing)]
    );
    let trash = plan_recovery(
        RecoveryCase::MoveToTrash { protected: false },
        WalStatus::Pending,
        seen(true, false),
    );
    assert_eq!(trash, vec![RecoveryStep::MovePhysical, RecoveryStep::TrashIndex]);
    let restore = plan_recovery(
        RecoveryCase::RestoreTrash { protected: true },
        WalStatus::Pending,
        seen(true, false),
    );
    assert_eq!(restore, vec![RecoveryStep::RestoreIndex]);
    let op = WalOperation::Move { src: "/a".to_string(), dst: "/b".to_string() };
    let told = |protected, failure| {
        recovery_failure_text(&op, RecoveryCase::Move { protected }, failure)
    };
    assert_eq!(
        told(false, RecoveryFailure::BothMissing),
        "MOVE recovery ambiguous: both source '/a' and destination '/b' are missing"
    );
    assert_eq!(
        told(true, RecoveryFailure::BothExist),
        "PROTECTED MOVE recovery ambiguous: both source '/a' and destination '/b' exist"
    );
    let op = WalOperation::MoveToTrash { path: "/a".to_string(), trash_path: "/t".to_string() };
    assert_eq!(
        recovery_failure_text(
            &op,
            RecoveryCase::MoveToTrash { protected: false },
            RecoveryFailure::BothExist
        ),
        "MOVE_TO_TRASH recovery ambiguous: both source '/a' and trash '/t' exist"
    );
    let op =
        WalOperation::RestoreTrash { trash_path: "/t".to_string(), original_path: "/a".to_string() };
    assert_eq!(
        recovery_failure_text(
            &op,
            RecoveryCase::RestoreTrash { protected: true },
            RecoveryFailure::BothMissing
        ),
        "PROTECTED RESTORE_TRASH recovery ambiguous: both '/t' and '/a' are missing"
    );
}

#[test]
fn deletions_and_directories_are_finished() {
    assert_eq!(
        plan_recovery(RecoveryCase::Delete, WalStatus::Pending, seen(true, false)),
        vec![RecoveryStep::DeletePath]
    );
    assert_eq!(
        plan_recovery(RecoveryCase::Delete, WalStatus::PhysicalDone, seen(true, false)),
        vec![RecoveryStep::DropIndex]
    );
    assert_eq!(
        plan_recovery(RecoveryCase::CreateDir, WalStatus::Pending, seen(false, false)),
        vec![RecoveryStep::CreatePath]
    );
    assert_eq!(
        plan_recovery(RecoveryCase::CreateDir, WalStatus::Pending, seen(true, false)),
        vec![RecoveryStep::SyncIndex]
    );
    assert!(needs_observation(RecoveryCase::Delete, WalStatus::Pending));
}

#[test]
fn operations_are_told_apart_for_recovery() {
    let write = WalOperation::Write {
        path: "/v/a".to_string(),
        size: 1,
        protected: Some(WalProtectedWriteMeta {
            backend_key: "k".to_string(),
            physical_size: 1,
            protected_meta: "{}".to_string(),
        }),
    };
    assert_eq!(write.as_str(), "WRITE");
    assert_eq!(recovery_case(&write, Some("/v")), RecoveryCase::ProtectedWrite { located: true });
    assert_eq!(recovery_case(&write, Some("/w")), RecoveryCase::Write);
    assert_eq!(recovery_case(&write, None), RecoveryCase::Write);
    let (path, temp) = recovery_places(&write);
    assert_eq!((path.as_str(), temp.as_deref()), ("/v/a", Some("/v/a.tmp")));
    let rename = WalOperation::Rename { old_path: "/v/a".to_string(), new_path: "/v/b".to_string() };
    assert_eq!(recovery_case(&rename, Some("/v")), RecoveryCase::Move { protected: true });
    let trash = WalOperation::MoveToTrash {
        path: "/v/a".to_string(),
        trash_path: "/.recycle_bin/1_a".to_string(),
    };
    assert_eq!(recovery_case(&trash, Some("/v")), RecoveryCase::MoveToTrash { protected: false });
    assert_eq!(recovery_case(&trash, Some("/")), RecoveryCase::MoveToTrash { protected: true });
    let restore = WalOperation::RestoreTrash {
        trash_path: "/.recycle_bin/1_a".to_string(),
        original_path: "/a".to_string(),
    };
    assert_eq!(restore.as_str(), "RESTORE_TRASH");
    assert_eq!(recovery_case(&restore, Some("/")), RecoveryCase::RestoreTrash { protected: true });
    let delete = WalOperation::Delete { path: "/a".to_string() };
    assert_eq!(recovery_places(&delete).1, None);
    assert_eq!(to_physical_user_path("u", "//a/b"), "u/a/b");
}

#[test]
fn queries_are_narrowed() {
    let mut f = WalQueryFilters::default();
    assert!(matches!(build_filtered_condition(f).status, StatusCondition::Issues));
    f.scope = Some(" History ");
    assert!(matches!(build_filtered_condition(f).status, StatusCondition::History));
    f.scope = Some("all");
    assert!(matches!(build_filtered_condition(f).status, StatusCondition::Any));
    f.status = Some("FAILED");
    f.user_id = Some(" ");
    f.operation_type = Some("All");
    let c = build_filtered_condition(f);
    assert!(matches!(c.status, StatusCondition::Exactly(ref s) if s == "failed"));
    assert_eq!((c.user_id, c.operation_type), (None, None));
    assert_eq!(issue_page(0, 0), (1, 1));
    assert_eq!(issue_page(2, 50), (2, 50));
}

#[test]
fn only_open_entries_are_replayed() {
    assert!(check_replay(3, Some(WalStatus::Failed)).is_ok());
    assert_eq!(check_replay(3, None).unwrap_err(), "WAL log 3 not found");
    assert_eq!(
        check_replay(-3, Some(WalStatus::Completed)).unwrap_err(),
        "WAL log -3 is already completed and cannot be replayed"
    );
}

#[test]
fn outcomes_are_counted() {
    let mut r = WalRecoveryResult::new();
    r.record(1, None);
    r.record(-7, Some("no"));
    assert_eq!((r.recovered, r.failed), (1, 1));
    assert_eq!(r.errors, vec!["Log -7: no"]);
    let users: Vec<String> = ["a", "b", "a"].iter().map(|s| s.to_string()).collect();
    let mut once = affected_users(&users);
    once.sort();
    assert_eq!(once, vec!["a", "b"]);
    assert_eq!(handled_failure_reason(None, None), "ADMIN_MARKED_HANDLED");
    assert_eq!(
        handled_failure_reason(Some("old"), Some(" done ")),
        "old\nADMIN_MARKED_HANDLED: done"
    );
    assert!(is_duplicate_column_error("ERROR: Duplicate column name 'x'", "y"));
    assert!(is_duplicate_column_error("column \"Status\" already exists", "STATUS"));
    assert!(!is_duplicate_column_error("table already exists", "status"));
}

#[test]
fn a_recovered_entry_is_deleted() {
    assert!(matches!(after_recovery(None), RecoveredEntry::Delete));
    match after_recovery(Some("no source")) {
        RecoveredEntry::Keep(update) => {
            assert_eq!(update.status, WalStatus::Failed);
            assert_eq!(update.failure_reason.as_deref(), Some("no source"));
            assert!(!update.completed);
        }
        other => panic!("{:?}", other),
    }
}

#[test]
fn entries_are_shown_with_their_times_as_texts() {
    let moment = |secs, nanos| Moment { secs, nanos };
    let row = WalRow {
        id: 7,
        user_id: "u".to_string(),
        operation_type: "WRITE".to_string(),
        operation_data: "{}".to_string(),
        status: "failed".to_string(),
        failure_reason: Some("disk".to_string()),
        created_at: moment(1704067200, 0),
        updated_at: moment(1704067201, 500_000_000),
        completed_at: None,
    };
    let shown = map_issue_record(row.clone()).unwrap();
    assert_eq!((shown.id, shown.user_id.as_str()), (7, "u"));
    assert_eq!((shown.operation_type.as_str(), shown.operation_data.as_str()), ("WRITE", "{}"));
    assert_eq!((shown.status.as_str(), shown.failure_reason.as_deref()), ("failed", Some("disk")));
    assert_eq!(shown.created_at, "2024-01-01T00:00:00+00:00");
    assert_eq!(shown.updated_at, "2024-01-01T00:00:01.500+00:00");
    assert_eq!(shown.completed_at, None);
    let leap = WalRow { completed_at: Some(moment(1483228799, 1_000_000_000)), ..row.clone() };
    assert_eq!(
        map_issue_record(leap).unwrap().completed_at.as_deref(),
        Some("2016-12-31T23:59:60+00:00")
    );
    let bounds = WalRow {
        created_at: moment(-8334601228800, 0),
        updated_at: moment(8210266876799, 999_999_999),
        ..row.clone()
    };
    assert!(map_issue_record(bounds).is_some());
    for bad in [
        moment(-8334601228801, 0),
        moment(8210266876800, 0),
        moment(0, 1_000_000_000),
        moment(59, 2_000_000_000),
    ] {
        assert!(map_issue_record(WalRow { updated_at: bad, ..row.clone() }).is_none());
        assert!(map_issue_record(WalRow { completed_at: Some(bad), ..row.clone() }).is_none());
    }
}
