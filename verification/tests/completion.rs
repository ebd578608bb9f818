use harnx_runtime::completion::{
    extract_final_response, extract_turn_error, extract_turn_outcome, find_last_prompt,
    has_durable_assistant_response, is_turn_completion_visible, pending_turn, requested_seq_status,
    RequestedSeqStatus,
};
use harnx_runtime::events::{AgentEvent, TurnEvent};
use harnx_runtime::nats_client_session::is_turn_complete;
use harnx_runtime::poller::{reconcile_subagent_progress, CompletionPoller};
use harnx_runtime::session_log::{
    rows_of, MessageContent, MessageRole, Replacement, SessionLogEntry, SubAgentProgress,
    SubAgentProgressStatus, ToolOutput,
};
use harnx_runtime::session_reconstruct::{
    find_last_terminator, prompt_interrupted_at, reconstruct_turn_status, TurnStatus,
};
use harnx_runtime::watchdog::{LeaseReading, SessionLeaseWatchdog};

fn message(role: MessageRole, text: &str) -> SessionLogEntry {
    SessionLogEntry::Message {
        id: None,
        role,
        content: MessageContent::Text(text.to_string()),
        fence_token: None,
    }
}

fn test_entries(entries: &[(u64, MessageRole, &str)]) -> Vec<(u64, SessionLogEntry)> {
    entries
        .iter()
        .map(|(seq, role, text)| (*seq, message(*role, text)))
        .collect()
}

fn cancel() -> SessionLogEntry {
    SessionLogEntry::Cancel { fence_token: 7, cancellation_id: None, requested_by: None }
}

fn error(text: &str) -> SessionLogEntry {
    SessionLogEntry::Error { message: text.to_string(), fence_token: 7 }
}

#[test]
fn assistant_message_is_not_a_durable_turn_end() {
    let entries = test_entries(&[
        (1, MessageRole::User, "question"),
        (2, MessageRole::Assistant, "intermediate stop-hook response"),
    ]);
    assert!(
        !is_turn_completion_visible(&entries, None, 1, false),
        "an assistant row may still be followed by stop-hook or pending-context work"
    );
    assert!(
        is_turn_completion_visible(&entries, None, 1, true),
        "older workers use the parent turn advisory as a compatibility fallback"
    );

    let mut durably_ended = entries;
    durably_ended.push((3, SessionLogEntry::TurnEnd { through_seq: 1, fence_token: 7 }));
    assert!(is_turn_completion_visible(&durably_ended, None, 1, false));
}

#[test]
fn turn_end_does_not_complete_a_later_queued_user() {
    let entries = vec![
        (1, message(MessageRole::User, "first")),
        (2, message(MessageRole::User, "queued")),
        (3, SessionLogEntry::TurnEnd { through_seq: 1, fence_token: 7 }),
    ];
    assert!(!is_turn_completion_visible(&entries, None, 2, false));
    assert_eq!(pending_turn(&entries).unwrap(), Some(2));
}

#[test]
fn durable_error_and_cancel_are_terminal_without_an_advisory() {
    let mut failed = test_entries(&[(1, MessageRole::User, "question")]);
    failed.push((2, error("worker failed")));
    assert_eq!(requested_seq_status(&failed, 1).unwrap(), RequestedSeqStatus::Covered);

    let mut cancelled = test_entries(&[(1, MessageRole::User, "question")]);
    cancelled.push((2, cancel()));
    assert_eq!(requested_seq_status(&cancelled, 1).unwrap(), RequestedSeqStatus::Covered);
}

#[test]
fn retracted_request_is_covered_only_when_no_replacement_or_pending_work_remains() {
    let mut retracted = test_entries(&[(1, MessageRole::User, "withdrawn")]);
    retracted.push((
        2,
        SessionLogEntry::EditEntries { from: 1, to: 1, replacements: vec![] },
    ));
    assert_eq!(requested_seq_status(&retracted, 1).unwrap(), RequestedSeqStatus::Covered);

    let mut replaced = test_entries(&[(1, MessageRole::User, "original")]);
    replaced.push((
        2,
        SessionLogEntry::EditEntries {
            from: 1,
            to: 1,
            replacements: vec![Replacement::Entry(message(MessageRole::User, "replacement"))],
        },
    ));
    assert_eq!(requested_seq_status(&replaced, 1).unwrap(), RequestedSeqStatus::Pending);
}

#[test]
fn partial_assistant_does_not_complete_before_durable_error() {
    let mut entries = vec![
        (1, message(MessageRole::User, "prompt")),
        (
            2,
            SessionLogEntry::Message {
                id: None,
                role: MessageRole::Assistant,
                content: MessageContent::Text(String::new()),
                fence_token: Some(1),
            },
        ),
    ];
    assert!(!is_turn_completion_visible(&entries, None, 1, false));
    entries.push((
        3,
        SessionLogEntry::Error { message: "terminal model failure".to_string(), fence_token: 1 },
    ));
    assert!(is_turn_completion_visible(&entries, None, 1, false));
    assert_eq!(
        extract_turn_error(&entries, 1).as_deref(),
        Some("terminal model failure")
    );
}

fn turns() -> Vec<(u64, SessionLogEntry)> {
    test_entries(&[
        (1, MessageRole::User, "old prompt"),
        (2, MessageRole::Assistant, "old"),
        (3, MessageRole::User, "new prompt"),
        (4, MessageRole::Assistant, "new"),
    ])
}

#[test]
fn nats_client_session_test_extract_final_response_ignores_stale_prior_turn_reply() {
    assert_eq!(extract_final_response(&turns(), 3), Some("new".to_string()));
    assert!(has_durable_assistant_response(&turns(), 3));
}

#[test]
fn nats_session_test_extract_final_response_ignores_stale_prior_turn_reply() {
    let (response, failure) = extract_turn_outcome(&turns(), 3);
    assert_eq!(response, Some("new".to_string()));
    assert_eq!(failure, None);
}

#[test]
fn nats_client_session_test_extract_final_response_returns_none_without_new_assistant_reply() {
    let entries = test_entries(&[
        (1, MessageRole::User, "old prompt"),
        (2, MessageRole::Assistant, "old"),
        (3, MessageRole::User, "new prompt"),
    ]);
    assert_eq!(extract_final_response(&entries, 3), None);
}

#[test]
fn nats_session_test_extract_final_response_returns_none_without_new_assistant_reply() {
    let entries = test_entries(&[
        (1, MessageRole::User, "old prompt"),
        (2, MessageRole::Assistant, "old"),
        (3, MessageRole::User, "new prompt"),
    ]);
    assert_eq!(extract_turn_outcome(&entries, 3), (None, None));
    assert!(!has_durable_assistant_response(&entries, 3));
}

fn report(invocation: &str, status: SubAgentProgressStatus) -> SubAgentProgress {
    SubAgentProgress {
        invocation_id: invocation.to_string(),
        agent: "athena".to_string(),
        session_id: "child".to_string(),
        status,
        elapsed_ms: 123,
        tool_call_count: 3,
    }
}

fn result_with(report: SubAgentProgress) -> SessionLogEntry {
    SessionLogEntry::ToolResults {
        results: vec![ToolOutput {
            id: Some("call".to_string()),
            name: "session_prompt".to_string(),
            output: serde_json::from_str(r#"{"response": "done"}"#).unwrap(),
            markdown: None,
            content: vec![],
            switch_agent: None,
            sub_agent_progress: Some(report),
        }],
    }
}

#[test]
fn durable_child_completion_repairs_a_lost_event_once_without_ending_parent_turn() {
    let entries = vec![(3, result_with(report("invocation", SubAgentProgressStatus::Done)))];
    let mut sink: Vec<AgentEvent> = Vec::new();
    let mut emitted: Vec<String> = Vec::new();
    reconcile_subagent_progress(&entries, 3, &mut sink, &mut emitted);
    assert!(sink.is_empty(), "old turns must be excluded");
    for _ in 0..2 {
        reconcile_subagent_progress(&entries, 1, &mut sink, &mut emitted);
    }
    assert!(
        matches!(sink.as_slice(), [AgentEvent::Turn(TurnEvent::SubAgentProgress(snapshot))] if snapshot.invocation_id == "invocation" && snapshot.status == SubAgentProgressStatus::Done)
    );
}

#[test]
fn a_running_child_is_not_reported() {
    let entries = vec![
        (3, result_with(report("a", SubAgentProgressStatus::Running))),
        (4, result_with(report("b", SubAgentProgressStatus::Failed))),
    ];
    let mut sink: Vec<AgentEvent> = Vec::new();
    let mut emitted: Vec<String> = Vec::new();
    reconcile_subagent_progress(&entries, 1, &mut sink, &mut emitted);
    assert_eq!(emitted, vec!["b".to_string()]);
    assert_eq!(sink.len(), 1);
}

#[test]
fn a_poller_gives_up_after_three_failures_in_a_row() {
    let mut poller = CompletionPoller::new(
        "stalled-child".to_string(),
        test_entries(&[(4, MessageRole::User, "x")]),
    );
    assert_eq!(poller.cursor(), 4);
    assert_eq!(poller.failed(), None);
    assert_eq!(poller.failed(), None);
    poller.read(test_entries(&[(5, MessageRole::Assistant, "y")]));
    assert_eq!(poller.cursor(), 5);
    assert_eq!(poller.snapshot().len(), 2);
    assert_eq!(poller.failed(), None);
    assert_eq!(poller.failed(), None);
    let message = poller.failed().unwrap();
    assert!(message.contains("stalled-child"), "{message}");
    assert!(message.contains("after 3 attempts"), "{message}");
    assert!(message.contains("may still be running"), "{message}");
}

#[test]
fn a_thin_client_sees_the_end_of_its_own_turn() {
    let mut entries = test_entries(&[(1, MessageRole::User, "ask")]);
    assert!(!is_turn_complete(&entries, 1));
    entries.push((2, cancel()));
    assert!(is_turn_complete(&entries, 1));

    let failed = vec![(1, message(MessageRole::User, "ask")), (2, error("broken"))];
    assert!(is_turn_complete(&failed, 1));
    // Nothing waits for a worker, so no later turn is open either.
    assert!(is_turn_complete(&failed, 2));
}

#[test]
fn a_thin_client_does_not_wait_for_a_prompt_that_was_taken_back() {
    let retraction = SessionLogEntry::EditEntries { from: 1, to: 1, replacements: Vec::new() };
    let entries = vec![(1, message(MessageRole::User, "ask")), (2, retraction)];
    assert!(is_turn_complete(&entries, 1));

    // An edit that cannot be read decides nothing.
    let garbled = SessionLogEntry::EditEntries {
        from: 1,
        to: 1,
        replacements: vec![Replacement::Malformed("{".to_string())],
    };
    let entries = vec![(1, message(MessageRole::User, "ask")), (2, garbled)];
    assert!(!is_turn_complete(&entries, 1));
}

#[test]
fn an_answer_with_open_tool_calls_ends_no_turn() {
    let calls = || SessionLogEntry::ToolCalls {
        text: String::new(),
        thought: None,
        calls: Vec::new(),
        fence_token: None,
    };
    let mut entries = test_entries(&[(1, MessageRole::User, "ask"), (2, MessageRole::Assistant, "wait")]);
    assert!(is_turn_complete(&entries, 1));
    entries.push((3, calls()));
    assert!(!is_turn_complete(&entries, 1));
    entries.push((4, SessionLogEntry::ToolResults { results: Vec::new() }));
    assert!(!is_turn_complete(&entries, 1));
    entries.push((5, message(MessageRole::Assistant, "done")));
    assert!(is_turn_complete(&entries, 1));

    // The calls of a later turn take nothing from an earlier answer.
    entries.push((6, message(MessageRole::User, "more")));
    entries.push((7, calls()));
    assert!(is_turn_complete(&entries, 1));
    assert!(!is_turn_complete(&entries, 6));
}

#[test]
fn the_state_of_a_turn_is_read_off_the_log() {
    let mut entries = test_entries(&[(1, MessageRole::User, "ask")]);
    assert_eq!(reconstruct_turn_status(&rows_of(&entries)), TurnStatus::InFlight);
    assert_eq!(find_last_prompt(&rows_of(&entries)), Some(1));
    assert_eq!(find_last_terminator(&entries), None);
    entries.push((2, cancel()));
    assert_eq!(
        reconstruct_turn_status(&rows_of(&entries)),
        TurnStatus::Interrupted { cancel_seq: 2 }
    );
    assert_eq!(find_last_terminator(&entries), Some(1));
    assert_eq!(prompt_interrupted_at(&entries, 1), Some(2));
    assert_eq!(prompt_interrupted_at(&entries, 2), None);
    entries.push((3, SessionLogEntry::TurnEnd { through_seq: 1, fence_token: 7 }));
    assert_eq!(reconstruct_turn_status(&rows_of(&entries)), TurnStatus::Idle);
    assert_eq!(pending_turn(&entries).unwrap(), None);
    assert_eq!(reconstruct_turn_status(&[]), TurnStatus::Idle);

    // The end of a turn leaves what was queued behind it.
    let mut queued = test_entries(&[(1, MessageRole::User, "one"), (2, MessageRole::User, "two")]);
    queued.push((3, SessionLogEntry::TurnEnd { through_seq: 1, fence_token: 7 }));
    assert_eq!(reconstruct_turn_status(&rows_of(&queued)), TurnStatus::InFlight);
    assert!(!is_turn_complete(&queued, 2));
    queued.push((4, SessionLogEntry::TurnEnd { through_seq: 2, fence_token: 7 }));
    assert_eq!(reconstruct_turn_status(&rows_of(&queued)), TurnStatus::Idle);
    assert!(is_turn_complete(&queued, 2));
}

#[test]
fn a_session_is_orphaned_only_after_a_lease_and_two_misses() {
    let mut dog = SessionLeaseWatchdog::new(0);
    for reading in [LeaseReading::NoBucket, LeaseReading::Free, LeaseReading::Unreadable] {
        assert_eq!(dog.observe(reading), None);
    }
    assert_eq!(dog.observe(LeaseReading::Held), None);
    assert_eq!(dog.observe(LeaseReading::Free), None);
    assert_eq!(dog.observe(LeaseReading::Held), None);
    assert_eq!(dog.observe(LeaseReading::Free), None);
    assert!(dog.observe(LeaseReading::Free).is_some());
}

#[test]
fn the_watchdog_looks_at_intervals() {
    let mut dog = SessionLeaseWatchdog::new(0);
    assert!(!dog.due(0));
    let next = dog.next_check_ms;
    assert!(!dog.due(next - 1));
    assert!(dog.due(next));
    assert_eq!(dog.next_check_ms, 2 * next);
}
