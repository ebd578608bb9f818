use harnx_runtime::execution::{
    admission_seq, cancel_wait_is_over, cancelled_owner_evidence, find_legacy_owner,
    last_admission, pending_execution, pending_prompt_is_covered, pending_prompts, prompt_owner,
    reconcile_admissions, record_owner_stopped, resolve_owned_prompt, still_running,
    terminal_cancellation_covers, unknown_owner_message, validate_cancel_ownership, Admission,
    CancelDisposition, CancelOwnershipError, ExecutionContext, LegacyFenceError, Operation,
    OperationKind, OperationRef, OperationState, OwnedPromptError, Owner, OwnershipError,
    PendingExecution, RecoveryHistory,
};
use harnx_runtime::execution_fence::{
    admit_action, boundary_question, check, recovery_action, start_action, CommitReceipt,
    FenceError, GateAction, WorkBoundary,
};
use harnx_runtime::local_orchestrator::SessionActivationRoute;
use harnx_runtime::mutations::MutationError;
use harnx_runtime::nats_admin::{lease_to_delete, KeyState, SessionDeleteResult};
use harnx_runtime::nats_attachments::{
    attachment_object_name, classify_part, content_type, externalized_part, finish_sync,
    hydrate_step, needs_store, object_store_stream_name, owned_objects, parse_data_url,
    raised_replicas, reference_step, session_object_prefix, verify_digest, DataUrlError,
    HydrateStep, PartKind, ReferenceStep,
};
use harnx_runtime::nats_lease::{
    duration_of, execution_is_revoked, kv_subject, lost_cas_message, revoke_step, AcquireStep, Acquisition,
    LeaseConfigError, LeaseCreated, LeaseInTheWay, LeaseRecord, NatsLeaseConfig, NatsSessionLease,
    RevokeStep, StopEvidence,
};
use harnx_runtime::nats_metrics::{
    active_session_finished, active_session_started, fenced_write_rejected,
    interrupt_error_synthesized, lease_acquired, lease_lost, reset_for_test, resume_detected,
    snapshot, NatsMetricsSnapshot,
};
use harnx_runtime::nats_session::{
    activation, cancel_step, cancel_timeout_message, control_activation, edit_entry,
    history_generation, inconsistent_message, metadata_created, metadata_found,
    metadata_inspected, no_winner_message, prompt_entry, republish_pending_activation,
    retraction_entry, thin_client_activation, thin_client_result, AgentSource, CancelStep,
    DurableTextEnqueue, MetadataStep,
};
use harnx_runtime::nats_session_index::{session_index_key, SESSION_INDEX_BUCKET};
use harnx_runtime::nats_session_log::{
    caught_up, entries_only, is_valid_stream_name_char, read_bounds, replay_start,
    sanitize_stream_name_char, stream_name_for_session, subject_for_session,
};
use harnx_runtime::projection::{
    cancel_coverage_id, cancellation_action, check_compared, check_output, cursor_action,
    cursor_commit_id, cursor_step,
    project_entry, projected_cancel, projection_id, projection_range, projection_target,
    projector_name, recovered_cancel,
    CommittedAction, CursorStep, OutputError, OutputKind, ProjectEntry, ProjectionSnapshot,
    ProjectionTarget, RecoveredCancel,
};
use harnx_runtime::session_log::{
    MessageContent, MessageContentPart, MessageRole, Replacement, SessionLogEntry,
};
use harnx_runtime::turn::NatsTurnResult;

fn prompt(id: Option<&str>) -> SessionLogEntry {
    SessionLogEntry::Message {
        id: id.map(String::from),
        role: MessageRole::User,
        content: MessageContent::Text("ask".to_string()),
        fence_token: None,
    }
}

fn cancel(fence_token: u64) -> SessionLogEntry {
    SessionLogEntry::Cancel { fence_token, cancellation_id: None, requested_by: None }
}

fn broken() -> SessionLogEntry {
    SessionLogEntry::EditEntries {
        from: 1,
        to: 1,
        replacements: vec![Replacement::Malformed("?".to_string())],
    }
}

fn reference(execution: &str) -> OperationRef {
    OperationRef { session_id: "s".to_string(), execution_id: execution.to_string() }
}

fn owner(fence: u64) -> Owner {
    Owner { worker_id: "w".to_string(), fence }
}

fn operation(execution: &str, state: OperationState, admissions: &[(&str, Option<u64>)]) -> Operation {
    Operation {
        reference: reference(execution),
        state,
        cancel_recorded: false,
        admissions: admissions
            .iter()
            .map(|(id, seq)| Admission { id: id.to_string(), seq: *seq })
            .collect(),
        owner: Some(owner(4)),
        owner_stopped: false,
        covered_through: 0,
        gate_registered: false,
    }
}

fn record(execution: &str, admissions: &[(&str, Option<u64>)], fences: &[u64]) -> RecoveryHistory {
    RecoveryHistory {
        reference: reference(execution),
        admissions: admissions
            .iter()
            .map(|(id, seq)| Admission { id: id.to_string(), seq: *seq })
            .collect(),
        owner_fences: fences.to_vec(),
        kind: Some(OperationKind::Session),
        gate_registered: true,
    }
}

#[test]
fn spans_are_written_as_the_standard_library_writes_them() {
    for ms in [0, 1, 10, 999, 1000, 1001, 1010, 1100, 1234, 30_000, 60_500, 3_600_000, u64::MAX] {
        assert_eq!(duration_of(ms), format!("{:?}", std::time::Duration::from_millis(ms)));
    }
    assert_eq!(duration_of(1_050), "1.05s");
}

#[test]
fn session_index_key_format_matches_bucket_layout() {
    assert_eq!(SESSION_INDEX_BUCKET, "harnx_sessions");
    assert_eq!(session_index_key("abc123"), "sessions/abc123/meta");
}

#[test]
fn streams_have_valid_names() {
    assert_eq!(subject_for_session("abc"), "sessions.abc.log");
    assert_eq!(stream_name_for_session("Incremental.1-a"), "SESSION_INCREMENTAL_1-A");
    assert_eq!(stream_name_for_session("aBc-9"), stream_name_for_session("AbC-9"));
    assert_eq!(sanitize_stream_name_char('é'), '_');
    assert!(is_valid_stream_name_char('-'));
    assert!(!is_valid_stream_name_char('.'));
}

#[test]
fn a_log_is_read_in_its_bounds() {
    assert_eq!(replay_start(0), Some(1));
    assert_eq!(replay_start(u64::MAX), None);
    assert_eq!(read_bounds(2, 5, 9, 4), Some((5, 9)));
    assert_eq!(read_bounds(0, 0, 3, 3), Some((1, 3)));
    assert_eq!(read_bounds(10, 1, 9, 9), None);
    assert_eq!(read_bounds(1, 1, 9, 0), None);
    assert!(caught_up(5, 5, false));
    assert!(!caught_up(4, 5, false));
    assert!(caught_up(4, 5, true));
    let only = entries_only(vec![(7, prompt(None)), (8, cancel(1))]);
    assert!(matches!(only[1], SessionLogEntry::Cancel { .. }));
}

#[test]
fn a_lease_configuration_is_checked() {
    let good = NatsLeaseConfig::default();
    assert_eq!(good.validate(), Ok(()));
    assert_eq!(good.key_for_session("abc"), "sessions/abc/lock");
    let with = |change: fn(&mut NatsLeaseConfig)| {
        let mut config = NatsLeaseConfig::default();
        change(&mut config);
        config.validate().unwrap_err()
    };
    assert_eq!(with(|c| c.ttl_ms = 0), LeaseConfigError::ZeroTtl);
    assert_eq!(with(|c| c.renew_interval_ms = 0), LeaseConfigError::ZeroRenewInterval);
    assert_eq!(with(|c| c.replicas = 0), LeaseConfigError::ZeroReplicas);
    assert_eq!(with(|c| c.tombstone_ttl_ms = 0), LeaseConfigError::ZeroTombstoneTtl);
    let late = with(|c| c.renew_interval_ms = 30_000);
    assert_eq!(
        late,
        LeaseConfigError::RenewNotBelowTtl { renew_interval_ms: 30_000, ttl_ms: 30_000 }
    );
    assert_eq!(
        late.message(),
        "NATS lease renew interval (30s) must be smaller than TTL (30s)"
    );
    assert_eq!(
        LeaseConfigError::RenewNotBelowTtl { renew_interval_ms: 1_500, ttl_ms: 2 }.message(),
        "NATS lease renew interval (1.5s) must be smaller than TTL (2ms)"
    );
    assert_eq!(LeaseConfigError::ZeroTtl.message(), "NATS lease TTL must be > 0");
    assert_eq!(
        LeaseConfigError::ZeroRenewInterval.message(),
        "NATS lease renew interval must be > 0"
    );
    assert_eq!(
        LeaseConfigError::ZeroReplicas.message(),
        "NATS lease replica count must be >= 1"
    );
    assert_eq!(
        LeaseConfigError::ZeroTombstoneTtl.message(),
        "NATS lease tombstone TTL must be > 0"
    );
}

#[test]
fn a_lease_is_acquired_in_steps() {
    let mut a = Acquisition::First;
    assert_eq!(a.created(LeaseCreated::Revision(7), true), AcquireStep::Held(7));

    let mut a = Acquisition::First;
    assert_eq!(a.created(LeaseCreated::Conflict, false), AcquireStep::Refused);

    let mut a = Acquisition::First;
    assert_eq!(a.created(LeaseCreated::Conflict, true), AcquireStep::Revoke);
    assert_eq!(a.revoked(false), AcquireStep::Refused);

    let mut a = Acquisition::First;
    assert_eq!(a.created(LeaseCreated::Conflict, true), AcquireStep::Revoke);
    assert_eq!(a.revoked(true), AcquireStep::Retry);
    assert_eq!(a.created(LeaseCreated::Conflict, true), AcquireStep::Refused);
}

#[test]
fn only_the_lease_of_a_stopped_execution_is_taken_away() {
    assert!(matches!(revoke_step(LeaseInTheWay::Gone), RevokeStep::Gone));
    assert!(matches!(
        revoke_step(LeaseInTheWay::Held { execution_id: None }),
        RevokeStep::Keep
    ));
    assert!(matches!(
        revoke_step(LeaseInTheWay::Held { execution_id: Some("e".to_string()) }),
        RevokeStep::Ask { execution_id } if execution_id == "e"
    ));
    let evidence = |accepted_stop, recorded, gate_registered, cancellation| {
        execution_is_revoked(StopEvidence {
            accepted_stop,
            recorded,
            gate_registered,
            cancellation,
        })
    };
    assert!(evidence(true, false, false, false));
    assert!(evidence(false, true, false, true));
    assert!(!evidence(false, true, true, true));
    assert!(!evidence(false, true, false, false));
    assert!(!evidence(false, false, false, true));
}

#[test]
fn a_held_lease_is_fenced_and_released_once() {
    let mut lease = NatsSessionLease::new("w".to_string(), 3, Some("e-1".to_string()), 30_500, 9);
    assert!(lease.is_held());
    assert_eq!((lease.fence_token(), lease.generation()), (9, 3));
    assert_eq!(lease.worker_id(), "w");
    assert_eq!(lease.ttl_header(), "30");
    lease.renewed(12);
    let renewal = lease.renewal_record("later".to_string());
    assert_eq!((renewal.worker_id.as_str(), renewal.generation), ("w", 3));
    assert_eq!(renewal.execution_id.as_deref(), Some("e-1"));
    assert_eq!(renewal.acquired_at, "later");
    assert_eq!(lease.release(), Some(12));
    assert_eq!(lease.release(), None);
    assert!(!lease.mark_lost());
    let mut lost = NatsSessionLease::new("w".to_string(), 3, None, 1, 9);
    assert!(lost.mark_lost());
    assert_eq!(lost.release(), None);
    assert_eq!(lost.renewal_record("now".to_string()).execution_id, None);
    assert_eq!(kv_subject("b", "k"), "$KV.b.k");
    assert_eq!(lost_cas_message("k"), "Lost lease CAS for key 'k'");
    let record = LeaseRecord::new("w".to_string(), 1, "now".to_string());
    assert_eq!(record.acquired_at, "now");
    assert!(record.execution_id.is_none());
}

#[test]
fn counters_count() {
    let mut m = NatsMetricsSnapshot::default();
    active_session_finished(&mut m);
    assert_eq!(m.active_sessions_per_worker, 0);
    active_session_started(&mut m);
    active_session_started(&mut m);
    active_session_finished(&mut m);
    lease_acquired(&mut m);
    lease_lost(&mut m);
    fenced_write_rejected(&mut m);
    resume_detected(&mut m);
    interrupt_error_synthesized(&mut m);
    let seen = snapshot(&m);
    assert_eq!(
        seen,
        NatsMetricsSnapshot {
            active_sessions_per_worker: 1,
            lease_acquisitions: 1,
            lease_losses: 1,
            fenced_writes_rejected: 1,
            resumes: 1,
            interrupt_errors_synthesized: 1,
        }
    );
    reset_for_test(&mut m);
    assert_eq!(m, NatsMetricsSnapshot::default());
}

#[test]
fn deletion_reports_what_it_removed() {
    assert!(!SessionDeleteResult { stream_deleted: false, lease_deleted: false }.removed_anything());
    assert!(SessionDeleteResult { stream_deleted: false, lease_deleted: true }.removed_anything());
    assert!(lease_to_delete(KeyState::Put));
    for state in [KeyState::NoBucket, KeyState::Absent, KeyState::Deleted] {
        assert!(!lease_to_delete(state));
    }
}

#[test]
fn attachments_are_told_apart() {
    assert_eq!(
        parse_data_url("data:image/png;base64,AAAA"),
        Ok(("image/png".to_string(), "AAAA".to_string()))
    );
    assert_eq!(parse_data_url("http://x"), Err(DataUrlError::NoData));
    assert_eq!(parse_data_url("data:image/png,AAAA"), Err(DataUrlError::NotEncoded));
    assert_eq!(DataUrlError::NoData.message(), "attachment must be a data: URI");
    assert_eq!(
        DataUrlError::NotEncoded.message(),
        "attachment data URI must contain ;base64,"
    );
    let image = |url: &str| MessageContentPart::ImageUrl { url: url.to_string() };
    assert_eq!(classify_part(&image("data:x")), PartKind::Inline);
    assert_eq!(classify_part(&image("cid:x")), PartKind::Reference);
    assert_eq!(classify_part(&image("https://x")), PartKind::Plain);
    let text = MessageContentPart::Text { text: "data:".to_string() };
    assert_eq!(classify_part(&text), PartKind::Plain);
    assert!(matches!(
        externalized_part(image("data:x"), "cid:1".to_string()),
        MessageContentPart::ImageUrl { url } if url == "cid:1"
    ));
    assert!(matches!(
        externalized_part(image("https://x"), "cid:1".to_string()),
        MessageContentPart::ImageUrl { url } if url == "https://x"
    ));
    assert!(!needs_store(&MessageContent::Text("cid:".to_string())));
    assert!(needs_store(&MessageContent::Array {
        text: String::new(),
        parts: vec![text, image("cid:x")],
    }));
}

#[test]
fn attachments_are_stored_where_they_belong() {
    assert_eq!(object_store_stream_name(), "OBJ_harnx_attachments");
    assert_eq!(session_object_prefix("aa"), "aa/");
    assert_eq!(attachment_object_name("aa", "bb"), "aa/bb");
    assert_eq!(
        owned_objects(
            vec!["aa/1".to_string(), "ab/2".to_string(), "aa/3".to_string(), "aa".to_string()],
            "aa"
        ),
        vec!["aa/1".to_string(), "aa/3".to_string()]
    );
    assert_eq!(reference_step(true, false), ReferenceStep::Keep);
    assert_eq!(reference_step(false, true), ReferenceStep::Upload);
    assert_eq!(reference_step(false, false), ReferenceStep::NoSource);
    assert_eq!(hydrate_step(false, true), HydrateStep::Download);
    assert_eq!(hydrate_step(true, true), HydrateStep::Nothing);
    assert_eq!(hydrate_step(true, false), HydrateStep::Upload);
    assert_eq!(content_type(None), "application/octet-stream");
    assert_eq!(content_type(Some("image/png".to_string())), "image/png");
    assert_eq!(verify_digest("s", "cid:1", "cid:1"), Ok(()));
    assert_eq!(
        verify_digest("s", "cid:1", "cid:2"),
        Err("attachment digest mismatch for session 's': expected cid:1, got cid:2".to_string())
    );
    assert_eq!(raised_replicas(3, 1), Some(3));
    assert_eq!(raised_replicas(1, 3), None);
    assert_eq!(finish_sync(Ok(1), Err("late".to_string())), Err("late".to_string()));
    assert_eq!(
        finish_sync::<u8>(Err("first".to_string()), Err("late".to_string())),
        Err("first".to_string())
    );
    assert_eq!(finish_sync(Ok(1), Ok(())), Ok(1));
}

#[test]
fn a_commit_is_projected_once() {
    let snapshot = ProjectionSnapshot {
        tail: 6,
        committed: vec![("a".to_string(), 3), ("b".to_string(), 4), ("a".to_string(), 5)],
    };
    assert_eq!(snapshot.sequence("a"), Some(5));
    assert_eq!(project_entry(&snapshot, "b", Some(1)), ProjectEntry::Compare { seq: 4 });
    assert_eq!(project_entry(&snapshot, "c", Some(6)), ProjectEntry::Append { tail: 6 });
    assert_eq!(project_entry(&snapshot, "c", Some(5)), ProjectEntry::TailMoved);
    assert_eq!(project_entry(&snapshot, "c", None), ProjectEntry::Append { tail: 6 });
    assert_eq!(projection_range(None, 2), Some((1, 2)));
    assert_eq!(projection_range(Some(2), 2), None);
    assert_eq!(projection_range(Some(1), 4), Some((2, 4)));
    let at = |sequence| Some(receipt(sequence));
    assert_eq!(cursor_step(true, &None, &at(1)), CursorStep::Done);
    assert_eq!(cursor_step(false, &at(1), &at(1)), CursorStep::Fail);
    assert_eq!(cursor_step(false, &None, &None), CursorStep::Fail);
    assert_eq!(cursor_step(false, &at(1), &at(2)), CursorStep::Again);
    assert_eq!(cursor_step(false, &None, &at(2)), CursorStep::Again);
}

#[test]
fn decisions_go_where_they_belong() {
    let transcript = CommittedAction::CommitOutput { kind: OutputKind::Transcript };
    assert_eq!(projection_target("s", "s", transcript), ProjectionTarget::Transcript);
    assert_eq!(projection_target("t", "s", transcript), ProjectionTarget::Nothing);
    assert_eq!(
        projection_target(
            "s",
            "s",
            CommittedAction::CommitOutput { kind: OutputKind::SessionMetadata }
        ),
        ProjectionTarget::Metadata
    );
    assert_eq!(
        projection_target(
            "s",
            "s",
            CommittedAction::RecordCancellation { through_seq: 8, fence_token: 2 }
        ),
        ProjectionTarget::Cancel { fence_token: 2, expected_tail: 8 }
    );
    assert_eq!(
        projection_target("s", "s", CommittedAction::Other),
        ProjectionTarget::Nothing
    );
    assert_eq!(check_output("s", "s", &prompt(None)), Ok(()));
    assert_eq!(check_output("t", "s", &prompt(None)), Err(OutputError::SessionMismatch));
    assert_eq!(check_output("s", "s", &cancel(1)), Err(OutputError::CancelIsControl));
    assert_eq!(
        OutputError::SessionMismatch.message(),
        "transcript generation session mismatch"
    );
    assert_eq!(OutputError::CancelIsControl.message(), "Cancel is control, not output");
    assert_eq!(projection_id("c"), "gate-c");
    assert_eq!(check_compared(true), Ok(()));
    assert_eq!(check_compared(false), Err(OutputError::ContentDiffers));
    assert_eq!(
        OutputError::ContentDiffers.message(),
        "projection commit ID has different transcript content"
    );
    assert!(matches!(
        projected_cancel(8),
        SessionLogEntry::Cancel { fence_token: 8, cancellation_id: None, requested_by: None }
    ));
    assert_eq!(projector_name("d"), "transcript-d");
    assert_eq!(cursor_commit_id("transcript-d", "c-1"), "transcript-d-c-1");
    assert_eq!(cancel_coverage_id(12, 3), "cancel-coverage-12-3");
    let moved = cursor_action(&receipt(4), "transcript-d", &Some(receipt(2)));
    assert_eq!(moved.id, "transcript-d-c-4");
    assert!(matches!(
        moved.kind,
        GateAction::ProjectCommitted { commit, projector, expected_cursor: Some(from) }
            if commit.same(&receipt(4)) && projector == "transcript-d" && from.sequence == 2
    ));
    let cancelled = cancellation_action(12, 3);
    assert_eq!(cancelled.id, "cancel-coverage-12-3");
    assert!(matches!(
        cancelled.kind,
        GateAction::RecordCancellation { through_seq: 12, fence_token: 3 }
    ));
}

#[test]
fn a_stop_that_is_missing_is_written_down() {
    let log = vec![(4, prompt(None))];
    assert_eq!(recovered_cancel(0, true, &log), RecoveredCancel::Append { through_seq: 4 });
    assert_eq!(recovered_cancel(0, false, &log), RecoveredCancel::Done);
    assert_eq!(recovered_cancel(32, true, &log), RecoveredCancel::Busy);
    assert_eq!(recovered_cancel(0, true, &[(5, cancel(1))]), RecoveredCancel::Done);
}

#[test]
fn a_cancellation_answers_what_it_admitted() {
    let mut op = operation("e", OperationState::Cancelled, &[("a", Some(3)), ("b", None)]);
    assert_eq!(last_admission(&op), 3);
    assert!(!terminal_cancellation_covers(&None, 3));
    op.cancel_recorded = true;
    let some = Some(op);
    assert!(terminal_cancellation_covers(&some, 3));
    assert!(!terminal_cancellation_covers(&some, 4));
    let log = vec![(3, prompt(Some("a")))];
    assert_eq!(pending_prompt_is_covered(&log, &some, 3), Ok(true));
    assert_eq!(pending_prompt_is_covered(&log, &None, 3), Ok(false));
    assert_eq!(
        pending_prompt_is_covered(&[(2, broken())], &None, 3),
        Err(MutationError::MalformedReplacement(2))
    );
    assert!(matches!(pending_execution(&log, &some), Ok(PendingExecution::Covered)));
    assert!(matches!(pending_execution(&[], &None), Ok(PendingExecution::NoPrompt)));
    assert!(matches!(
        pending_execution(&log, &None),
        Ok(PendingExecution::FindOwner { seq: 3, message_id: Some(id) }) if id == "a"
    ));
}

#[test]
fn an_execution_goes_on_only_as_itself() {
    let running = || operation("e", OperationState::Running, &[]);
    let ended = || operation("e", OperationState::Finished, &[]);
    assert!(still_running(Some(running())).is_some());
    assert!(still_running(Some(ended())).is_none());
    let own = reference("e");
    let other = reference("f");
    assert!(resolve_owned_prompt(true, &own, Some(running()), None).unwrap().is_some());
    assert!(resolve_owned_prompt(true, &other, Some(running()), None).unwrap().is_none());
    assert!(resolve_owned_prompt(true, &own, Some(ended()), None).unwrap().is_none());
    assert!(resolve_owned_prompt(false, &own, None, Some(running())).unwrap().is_some());
    assert!(resolve_owned_prompt(false, &own, None, Some(ended())).unwrap().is_none());
    assert!(matches!(
        resolve_owned_prompt(false, &own, None, None),
        Err(OwnedPromptError::Retired)
    ));
}

#[test]
fn admissions_are_committed_from_the_log() {
    let op = operation("e", OperationState::Running, &[("a", None), ("b", Some(2))]);
    let log = vec![(1, prompt(Some("a"))), (2, prompt(Some("b"))), (3, prompt(Some("c")))];
    assert_eq!(reconcile_admissions(&op, &log), vec![("a".to_string(), 1)]);
}

#[test]
fn a_stopped_owner_is_seen_in_the_log() {
    let mut op = operation("e", OperationState::Cancelling, &[]);
    let log = vec![(5, cancel(4)), (6, cancel(3))];
    assert_eq!(cancelled_owner_evidence(&op, &log), Some(5));
    assert!(!record_owner_stopped(&mut op, &Some(owner(9)), 5));
    assert!(!op.owner_stopped);
    assert!(record_owner_stopped(&mut op, &Some(owner(4)), 5));
    assert!(op.owner_stopped && op.cancel_recorded);
    assert_eq!(op.covered_through, 5);
    op.gate_registered = true;
    assert_eq!(cancelled_owner_evidence(&op, &log), None);
    assert!(cancel_wait_is_over(CancelDisposition::Cancelled, false));
    assert!(!cancel_wait_is_over(CancelDisposition::Requested, false));
    assert!(cancel_wait_is_over(CancelDisposition::Requested, true));
}

#[test]
fn a_prompt_has_one_owner() {
    let history = vec![record("e", &[("a", Some(3))], &[1]), record("f", &[("b", None)], &[2])];
    let a = "a".to_string();
    let b = "b".to_string();
    assert_eq!(prompt_owner(&history, Some(&a), 3), Ok(Some(0)));
    assert_eq!(prompt_owner(&history, Some(&b), 9), Ok(Some(1)));
    assert_eq!(prompt_owner(&history, None, 3), Ok(Some(0)));
    assert_eq!(prompt_owner(&history, None, 4), Ok(None));
    assert_eq!(prompt_owner(&history, Some(&a), 4), Err(OwnershipError::SequenceChanged));
    assert_eq!(prompt_owner(&history, Some(&b), 3), Err(OwnershipError::Ambiguous));
    assert_eq!(
        OwnershipError::SequenceChanged.message(),
        "prompt admission sequence changed"
    );
    assert_eq!(OwnershipError::Ambiguous.message(), "ambiguous prompt generation history");
    assert_eq!(find_legacy_owner(&history, 2), Ok(1));
    assert_eq!(find_legacy_owner(&history, 5), Err(LegacyFenceError::Unknown));
    let twice = vec![record("e", &[], &[1]), record("f", &[], &[1])];
    assert_eq!(find_legacy_owner(&twice, 1), Err(LegacyFenceError::Ambiguous));
    let mut of_a_tool = twice;
    of_a_tool[0].kind = Some(OperationKind::Tool);
    assert_eq!(find_legacy_owner(&of_a_tool, 1), Ok(1));
    of_a_tool[1].kind = None;
    assert_eq!(find_legacy_owner(&of_a_tool, 1), Err(LegacyFenceError::Unknown));
    let admitted = record("e", &[("a", Some(3)), ("b", None), ("c", Some(5))], &[]).admissions;
    assert_eq!(admission_seq(&admitted, &"b".to_string()), Some(None));
    assert_eq!(admission_seq(&admitted, &"c".to_string()), Some(Some(5)));
    assert_eq!(admission_seq(&admitted, &"d".to_string()), None);
    assert_eq!(
        unknown_owner_message("s", 4),
        "unknown pending prompt generation; automatic adoption refused: session=s seq=4"
    );
}

#[test]
fn a_cancellation_is_not_written_over_foreign_prompts() {
    let history = vec![record("e", &[("a", Some(1))], &[]), record("f", &[("b", Some(2))], &[])];
    let own = reference("e");
    let mine = vec![(1, prompt(Some("a")))];
    assert_eq!(pending_prompts(&mine).unwrap().len(), 1);
    assert_eq!(validate_cancel_ownership(&history, &own, &mine), Ok(()));
    let both = vec![(1, prompt(Some("a"))), (2, prompt(Some("b")))];
    assert_eq!(
        validate_cancel_ownership(&history, &own, &both),
        Err(CancelOwnershipError::Foreign)
    );
    assert_eq!(
        validate_cancel_ownership(&history, &own, &[(9, prompt(None))]),
        Err(CancelOwnershipError::Unknown)
    );
    assert_eq!(
        validate_cancel_ownership(&history, &own, &[(9, prompt(Some("a")))]),
        Err(CancelOwnershipError::Ownership(OwnershipError::SequenceChanged))
    );
    assert_eq!(
        validate_cancel_ownership(&history, &own, &[(9, broken())]),
        Err(CancelOwnershipError::Log(MutationError::MalformedReplacement(9)))
    );
}

fn receipt(sequence: u64) -> CommitReceipt {
    CommitReceipt { commit_id: format!("c-{sequence}"), gate_root: "root".to_string(), sequence }
}

#[test]
fn work_is_fenced() {
    assert_eq!(check(false, Some(Ok(())), false), Ok(()));
    assert_eq!(check(false, None, false), Ok(()));
    assert_eq!(check(true, Some(Err("no".to_string())), false), Err(FenceError::Interrupted));
    assert_eq!(
        check(false, Some(Err("no".to_string())), true),
        Err(FenceError::Refused("no".to_string()))
    );
    assert_eq!(check(false, Some(Ok(())), true), Err(FenceError::Interrupted));
    assert_eq!(FenceError::Interrupted.message(), "interrupted by user");
    assert_eq!(FenceError::Refused("no".to_string()).message(), "no");
    let question = admit_action("tool-output");
    assert!(matches!(question.kind, GateAction::AdmitWork { boundary } if boundary == "tool-output"));
    let start = start_action("s", &owner(4), receipt(2));
    match start.kind {
        GateAction::StartWork { operation, kind, owner: of, committed_input } => {
            assert_eq!(operation.session_id, "s");
            assert_eq!(operation.execution_id, start.id);
            assert_eq!(kind, OperationKind::Tool);
            assert_eq!(of.worker_id, owner(4).worker_id);
            assert_eq!(of.fence, 4);
            assert!(committed_input.same(&receipt(2)));
        }
        other => panic!("{other:?}"),
    }
    let original = ExecutionContext {
        generation: OperationRef { session_id: "s".to_string(), execution_id: "e".to_string() },
        gate_root: "root".to_string(),
        owner: owner(3),
    };
    let recovery = recovery_action(original);
    assert_eq!(recovery.id.len(), 36);
    assert!(matches!(
        recovery.kind,
        GateAction::AdmitRecovery { original } if original.generation.execution_id == "e"
            && original.gate_root == "root" && original.owner.fence == 3
    ));
    assert_eq!(boundary_question(WorkBoundary::Start), None);
    assert_eq!(boundary_question(WorkBoundary::Accept), Some("tool-output"));
}

#[test]
fn metadata_is_made_once() {
    let named = AgentSource::Named("a".to_string());
    let inline = AgentSource::Inline("a".to_string());
    assert!(!named.is_same(&inline));
    assert_eq!(metadata_found(Some(&named), &named), MetadataStep::Reserve);
    assert_eq!(metadata_found(Some(&inline), &named), MetadataStep::Mismatch);
    assert_eq!(metadata_found(None, &named), MetadataStep::Inspect);
    assert_eq!(metadata_inspected(&[]), MetadataStep::Create);
    assert_eq!(metadata_inspected(&[(1, prompt(None))]), MetadataStep::Inconsistent);
    assert_eq!(metadata_created(true, None, &named), MetadataStep::Done);
    assert_eq!(metadata_created(false, Some(&named), &named), MetadataStep::Reserve);
    assert_eq!(metadata_created(false, Some(&inline), &named), MetadataStep::Mismatch);
    assert_eq!(
        inconsistent_message("s"),
        "session 's' has transcript entries but no canonical metadata; legacy or inconsistent sessions are not supported"
    );
    assert_eq!(
        no_winner_message("s"),
        "session metadata creation race for 's' had no winner"
    );
}

#[test]
fn prompts_are_written_and_changed() {
    let (entry, id) = prompt_entry(MessageContent::Text("hi".to_string()));
    assert!(matches!(
        &entry,
        SessionLogEntry::Message { id: Some(own), role: MessageRole::User, fence_token: None, .. }
            if *own == id
    ));
    assert!(matches!(
        retraction_entry(4),
        Some(SessionLogEntry::EditEntries { from: 4, to: 4, replacements }) if replacements.is_empty()
    ));
    match edit_entry(4, "new".to_string()) {
        Some(SessionLogEntry::EditEntries { from: 4, to: 4, replacements }) => {
            assert!(matches!(
                replacements.as_slice(),
                [Replacement::Entry(SessionLogEntry::Message {
                    content: MessageContent::Text(text),
                    ..
                })] if text == "new"
            ));
        }
        other => panic!("{other:?}"),
    }
    let queued = DurableTextEnqueue::new(9, Some("offline".to_string()));
    assert_eq!(queued.user_msg_seq(), 9);
    assert_eq!(queued.activation_error().map(String::as_str), Some("offline"));
    assert_eq!(queued.into_activation_result(), Err("offline".to_string()));
    assert_eq!(DurableTextEnqueue::new(9, None).into_activation_result(), Ok(9));
}

#[test]
fn workers_are_woken_along_the_route() {
    let shared = SessionActivationRoute::ClusterShared;
    let targeted = SessionActivationRoute::WorkerTargeted {
        session_scope: "local".to_string(),
        worker_id: "w".to_string(),
    };
    let a = activation(&shared, "s", 4, Some("ask"));
    assert_eq!((a.requested_seq, a.worker_id, a.agent), (None, None, None));
    assert_eq!(a.tool_confirmation_subject.as_deref(), Some("ask"));
    let b = activation(&targeted, "s", 4, None);
    assert_eq!((b.requested_seq, b.worker_id.as_deref()), (Some(4), Some("w")));
    let c = control_activation(&shared, "s", 6);
    assert_eq!((c.requested_seq, c.worker_id, c.agent), (Some(6), None, None));
    let thin = thin_client_activation("s", "pkg/agent");
    assert_eq!((thin.session_id.as_str(), thin.agent.as_deref()), ("s", Some("pkg/agent")));
    assert_eq!((thin.requested_seq, thin.worker_id), (None, None));
    assert_eq!(thin.tool_confirmation_subject, None);
    assert_eq!(republish_pending_activation(&[(3, prompt(None))]), Ok(Some(3)));
    assert_eq!(
        republish_pending_activation(&[(3, prompt(None)), (4, cancel(1))]),
        Ok(Some(4))
    );
    assert_eq!(republish_pending_activation(&[]), Ok(None));
}

#[test]
fn a_cancelled_turn_is_waited_for() {
    let waiting = vec![(1, prompt(None))];
    let done = vec![(1, prompt(None)), (2, cancel(1))];
    assert_eq!(cancel_step(true, None, 1, false), Ok(CancelStep::Cancelled));
    assert_eq!(cancel_step(false, None, 1, false), Ok(CancelStep::Retry));
    assert_eq!(cancel_step(false, Some(&waiting), 1, true), Ok(CancelStep::TimedOut));
    assert_eq!(cancel_step(false, Some(&done), 1, true), Ok(CancelStep::Cancelled));
    assert_eq!(
        cancel_timeout_message("s"),
        "timed out waiting for worker to durably cancel session 's'"
    );
    let history = vec![record("e", &[("a", Some(1))], &[])];
    assert!(matches!(
        history_generation(&[(1, prompt(Some("a")))], &history),
        Ok(Some(0))
    ));
    assert!(matches!(history_generation(&[], &history), Ok(None)));
    assert!(history_generation(&[(1, broken())], &history).is_err());
}

#[test]
fn a_thin_client_passes_the_result_on() {
    let result = thin_client_result(NatsTurnResult {
        response: Some("r".to_string()),
        session_id: "s".to_string(),
        was_cancelled: true,
        error: Some("e".to_string()),
        user_msg_seq: 3,
        user_msg_id: "m".to_string(),
    });
    assert_eq!(result.response.as_deref(), Some("r"));
    assert_eq!(result.error.as_deref(), Some("e"));
    assert!(result.was_cancelled);
    assert_eq!((result.user_msg_seq, result.user_msg_id.as_str()), (3, "m"));
}
