use harnx_runtime::config::compaction::{compaction_agent_name, summarizer};
use harnx_runtime::config::session::{Model, Session};
use harnx_runtime::config::variables::VariableError;
use harnx_runtime::config::Config;
use harnx_runtime::execution::{
    cancel_aborts, owner_stop_proved, Admission, CancelOwnershipError, ExecutionContext,
    LegacyFenceError, OperationKind, OperationRef, Owner, OwnershipError, RecoveryHistory,
};
use harnx_runtime::execution_fence::committed_output;
use harnx_runtime::mutations::MutationError;
use harnx_runtime::nats_hook_provider::{
    continue_outcome, pending_after_outcome, pending_after_reply, HookMode, HookReply,
};
use harnx_runtime::nats_local_server::{
    missing_binary_message, server_binary, unusable_binary_message, ServerBinary,
};
use harnx_runtime::nats_session_log::host_sequences;
use harnx_runtime::projection::{
    check_cancellation, check_projected, check_root, projection_id, OutputError, OutputKind,
};
use harnx_runtime::recovery::{
    authority_source, check_commit_proof, check_legacy_fence, journal_authority, journal_key,
    recover_prompt, take_lookup, AuthorityError, AuthoritySource, JournalRecord, RecoveryError,
};
use harnx_runtime::session_log::{SessionLogEntry, ToolCall};

fn call(id: Option<&str>, name: &str) -> ToolCall {
    ToolCall {
        name: name.to_string(),
        arguments: serde_json::Value::Null,
        id: id.map(String::from),
        thought_signature: None,
    }
}

fn round(fence_token: Option<u64>) -> SessionLogEntry {
    SessionLogEntry::ToolCalls {
        text: String::new(),
        thought: None,
        calls: vec![call(Some("a"), "read")],
        fence_token,
    }
}

fn cancel() -> SessionLogEntry {
    SessionLogEntry::Cancel { fence_token: 1, cancellation_id: None, requested_by: None }
}

fn generation(execution: &str) -> ExecutionContext {
    ExecutionContext {
        generation: OperationRef {
            session_id: "s".to_string(),
            execution_id: execution.to_string(),
        },
        gate_root: "root".to_string(),
        owner: Owner { worker_id: "w".to_string(), fence: 4 },
    }
}

fn journal(tool: &str, execution: Option<&str>) -> Option<JournalRecord> {
    Some(JournalRecord { tool_name: tool.to_string(), consumer: execution.map(generation) })
}

#[test]
fn a_tool_round_is_traced_to_where_it_was_recorded() {
    let id = projection_id("c1");
    assert_eq!(
        authority_source(&round(Some(3)), true, true, Some(&id)),
        Ok(AuthoritySource::Commit { id: "c1".to_string() })
    );
    assert_eq!(
        authority_source(&round(Some(3)), true, true, Some("other")),
        Ok(AuthoritySource::LegacyFence { fence: 3 })
    );
    assert_eq!(
        authority_source(&round(None), true, true, None),
        Ok(AuthoritySource::Journal)
    );
    assert_eq!(
        authority_source(&cancel(), true, true, None),
        Err(AuthorityError::NotToolRound)
    );
    assert_eq!(
        authority_source(&round(None), false, false, None),
        Err(AuthorityError::Modified)
    );
    assert_eq!(
        authority_source(&round(None), true, false, None),
        Err(AuthorityError::UnknownGate)
    );
}

#[test]
fn a_commit_proves_only_its_own_entry() {
    assert_eq!(check_commit_proof(true, true, "s", "s"), Ok(()));
    assert_eq!(check_commit_proof(false, true, "s", "s"), Err(AuthorityError::NoProof));
    assert_eq!(check_commit_proof(true, false, "s", "s"), Err(AuthorityError::ProofMismatch));
    assert_eq!(check_commit_proof(true, true, "t", "s"), Err(AuthorityError::SessionMismatch));
    assert_eq!(check_legacy_fence(false, 2, 3), Ok(()));
    assert_eq!(check_legacy_fence(false, 3, 3), Err(AuthorityError::UnknownPredecessor));
    assert_eq!(check_legacy_fence(true, 2, 3), Err(AuthorityError::Interrupted));
}

#[test]
fn the_calls_of_a_round_agree_on_their_execution() {
    let first = call(Some("a"), "read");
    let second = call(Some("b"), "write");
    assert_eq!(journal_key(&first).unwrap(), "a");
    let known = take_lookup(None, &first, journal("read", Some("e"))).unwrap();
    let known = take_lookup(known, &second, journal("write", Some("e"))).unwrap();
    assert_eq!(journal_authority(known).unwrap().generation.execution_id, "e");

    let known = take_lookup(None, &first, journal("read", Some("e"))).unwrap();
    assert_eq!(
        take_lookup(known, &second, journal("write", Some("f"))).unwrap_err(),
        AuthorityError::Ambiguous
    );
    assert_eq!(
        take_lookup(None, &first, journal("write", Some("e"))).unwrap_err(),
        AuthorityError::ToolChanged
    );
    assert_eq!(
        take_lookup(None, &first, journal("read", None)).unwrap_err(),
        AuthorityError::NoConsumer
    );
    assert_eq!(
        take_lookup(None, &first, None).unwrap_err(),
        AuthorityError::UnknownGeneration
    );
    assert_eq!(
        journal_key(&call(None, "read")).unwrap_err(),
        AuthorityError::UnknownGeneration
    );
    assert_eq!(journal_authority(None).unwrap_err(), AuthorityError::UnknownGeneration);
}

#[test]
fn what_is_told_of_a_round_without_authority() {
    for (error, message) in [
        (AuthorityError::NotToolRound, "recovery source is not a tool round"),
        (AuthorityError::Modified, "modified tool round has unknown recovery authority"),
        (AuthorityError::UnknownGate, "unknown recovery gate"),
        (AuthorityError::NoProof, "recovery entry has no transcript proof"),
        (AuthorityError::ProofMismatch, "recovery transcript proof mismatch"),
        (AuthorityError::SessionMismatch, "recovery transcript session mismatch"),
        (AuthorityError::Interrupted, "interrupted by user"),
        (AuthorityError::UnknownPredecessor, "unknown legacy predecessor fence"),
        (AuthorityError::UnknownGeneration, "unknown legacy tool-call generation"),
        (AuthorityError::ToolChanged, "recovery tool identity changed"),
        (AuthorityError::NoConsumer, "unknown journal generation"),
        (AuthorityError::Ambiguous, "ambiguous tool-round generation"),
    ] {
        assert_eq!(error.message(), message);
    }
}

#[test]
fn a_prompt_goes_back_to_its_execution() {
    let history = vec![RecoveryHistory {
        reference: OperationRef { session_id: "s".to_string(), execution_id: "e".to_string() },
        admissions: vec![
            Admission { id: "a".to_string(), seq: None },
            Admission { id: "b".to_string(), seq: Some(4) },
        ],
        owner_fences: vec![],
        kind: Some(OperationKind::Session),
        gate_registered: true,
    }];
    let a = "a".to_string();
    let b = "b".to_string();
    let c = "c".to_string();
    let found = recover_prompt(&history, Some(&a), 3).unwrap();
    assert_eq!((found.owner, found.commit.as_deref()), (0, Some("a")));
    let found = recover_prompt(&history, Some(&b), 4).unwrap();
    assert_eq!((found.owner, found.commit), (0, None));
    assert_eq!(
        recover_prompt(&history, Some(&b), 5).unwrap_err(),
        RecoveryError::Ownership(OwnershipError::SequenceChanged)
    );
    assert_eq!(recover_prompt(&history, Some(&c), 9).unwrap_err(), RecoveryError::Unknown);
    assert_eq!(recover_prompt(&history, None, 4).unwrap().commit, None);
}

#[test]
fn a_stop_is_recorded_only_on_proof() {
    assert_eq!(owner_stop_proved(Some(5), true, false), Some(5));
    assert_eq!(owner_stop_proved(Some(5), false, false), None);
    assert_eq!(owner_stop_proved(Some(5), true, true), None);
    assert_eq!(owner_stop_proved(None, true, false), None);
}

#[test]
fn what_is_told_of_ownership() {
    let log = CancelOwnershipError::Log(MutationError::MalformedReplacement(3));
    assert_eq!(log.message(), None);
    assert_eq!(
        CancelOwnershipError::Unknown.message().as_deref(),
        Some("unknown cancellation prompt history")
    );
    assert_eq!(
        CancelOwnershipError::Foreign.message().as_deref(),
        Some("cannot project old cancellation over another generation")
    );
    assert_eq!(
        CancelOwnershipError::Ownership(OwnershipError::Ambiguous).message().as_deref(),
        Some("ambiguous prompt generation history")
    );
    assert_eq!(LegacyFenceError::Unknown.message(), "unknown legacy worker fence");
    assert_eq!(LegacyFenceError::Ambiguous.message(), "ambiguous legacy worker fence");
}

#[test]
fn projections_stay_within_their_session() {
    assert_eq!(check_cancellation("s", "s"), Ok(()));
    assert_eq!(check_cancellation("t", "s"), Err(OutputError::CancelSessionMismatch));
    assert_eq!(check_projected(&round(None)), Ok(()));
    assert_eq!(check_projected(&cancel()), Err(OutputError::CancelNeedsControl));
    assert_eq!(check_root("r", "r"), Ok(()));
    assert_eq!(check_root("q", "r"), Err(OutputError::RootMismatch));
    assert_eq!(
        OutputError::CancelSessionMismatch.message(),
        "cancel generation session mismatch"
    );
    assert_eq!(
        OutputError::CancelNeedsControl.message(),
        "Cancel requires control projection"
    );
    assert_eq!(OutputError::RootMismatch.message(), "projector gate mismatch");
    let output = committed_output(OutputKind::Transcript, serde_json::Value::Bool(true));
    assert_eq!(output.kind, OutputKind::Transcript);
    assert_eq!(output.payload, serde_json::Value::Bool(true));
    assert_eq!(output.id.len(), 36);
}

#[test]
fn rows_keep_their_sequence_numbers() {
    let rows = host_sequences(vec![(3, cancel()), (7, round(None))]).unwrap();
    let seqs: Vec<usize> = rows.iter().map(|row| row.0).collect();
    assert_eq!(seqs, vec![3, 7]);
}

#[test]
fn hooks_of_a_call_add_their_notes_together() {
    let mut outcome = continue_outcome(None);
    outcome.result.additional_context = Some("context".to_string());
    let waiting = || Some("existing".to_string());
    let both = Some("existing\ncontext");
    assert_eq!(
        pending_after_outcome(HookMode::PreTool, waiting(), &outcome).as_deref(),
        both
    );
    assert_eq!(
        pending_after_outcome(HookMode::Blocking, waiting(), &outcome).as_deref(),
        Some("existing")
    );
    let reply = HookReply::Answered(outcome);
    assert_eq!(
        pending_after_reply(HookMode::PreTool, waiting(), &reply).as_deref(),
        Some("existing")
    );
    for mode in [HookMode::Blocking, HookMode::BestEffort] {
        assert_eq!(pending_after_reply(mode, waiting(), &reply).as_deref(), both);
        assert_eq!(
            pending_after_reply(mode, waiting(), &HookReply::Unavailable).as_deref(),
            Some("existing")
        );
    }
}

#[test]
fn the_program_of_the_broker_is_found_in_order() {
    assert_eq!(server_binary(Some((true, true)), true), ServerBinary::Configured);
    assert_eq!(server_binary(Some((true, false)), true), ServerBinary::ConfiguredUnusable);
    assert_eq!(server_binary(Some((false, true)), true), ServerBinary::ConfiguredUnusable);
    assert_eq!(server_binary(None, true), ServerBinary::SearchPath);
    assert_eq!(server_binary(None, false), ServerBinary::NotFound);
    assert_eq!(
        unusable_binary_message("/x"),
        "NATS_SERVER_BIN points to a missing or non-executable file: /x"
    );
    assert_eq!(
        missing_binary_message("gone"),
        "nats-server binary not found; set NATS_SERVER_BIN to its path or install nats-server on PATH: gone"
    );
}

#[test]
fn a_summary_is_written_by_the_configured_agent() {
    assert_eq!(compaction_agent_name(None, Some("pkg")), None);
    let (name, _) = compaction_agent_name(Some("writer"), None).unwrap();
    assert_eq!(name, "writer");
    assert_eq!(summarizer(Some(Ok("own")), Ok(()), "default"), "own");
    assert_eq!(summarizer(Some(Ok("own")), Err("unset".to_string()), "default"), "default");
    assert_eq!(summarizer(Some(Err("broken".to_string())), Ok(()), "default"), "default");
    assert_eq!(summarizer(None, Ok(()), "default"), "default");
}

#[test]
fn an_editor_starts_from_the_value() {
    let mut config = Config::new();
    assert_eq!(config.variable_to_edit("k"), Err(VariableError::NoSession));
    let mut session = Session::new("s", Model::new("m"));
    session.agent_variables.push(("k".to_string(), "v".to_string()));
    config.session = Some(session);
    assert_eq!(config.variable_to_edit("k"), Ok("v".to_string()));
    assert_eq!(config.variable_to_edit("other"), Ok(String::new()));
}

#[test]
fn an_old_child_cannot_abort_the_frontend() {
    assert!(cancel_aborts(false, None));
    assert!(!cancel_aborts(true, None));
    assert!(cancel_aborts(true, Some(true)));
    assert!(!cancel_aborts(true, Some(false)));
}
