use harnx_runtime::hitl::{already_decided, ApprovalRequest};
use harnx_runtime::mutations::MutationError;
use harnx_runtime::session_log::{
    MessageContent, MessageRole, Replacement, SessionLogEntry, ToolCall,
};

const CALL: &str = "reused-call";

fn calls(id: &str) -> SessionLogEntry {
    SessionLogEntry::ToolCalls {
        text: "await approval".to_string(),
        thought: None,
        calls: vec![ToolCall {
            name: "read".to_string(),
            arguments: serde_json::from_str("{}").unwrap(),
            id: Some(id.to_string()),
            thought_signature: None,
        }],
        fence_token: Some(1),
    }
}

fn request() -> SessionLogEntry {
    SessionLogEntry::HitlApprovalRequested {
        tool_call_id: CALL.to_string(),
        summary: "approve read".to_string(),
        fence_token: 1,
    }
}

fn decision(approved: bool) -> SessionLogEntry {
    SessionLogEntry::HitlApprovalDecision {
        tool_call_id: CALL.to_string(),
        approved,
        note: None,
        fence_token: 1,
    }
}

fn results() -> SessionLogEntry {
    SessionLogEntry::ToolResults { results: vec![] }
}

fn cancel() -> SessionLogEntry {
    SessionLogEntry::Cancel { fence_token: 1, cancellation_id: None, requested_by: None }
}

fn pending() -> Vec<(u64, SessionLogEntry)> {
    vec![(1, calls(CALL)), (2, request())]
}

fn original() -> ApprovalRequest<'static> {
    ApprovalRequest { tool_call_id: CALL, tool_round_seq: 1, request_seq: 2 }
}

#[test]
fn nats_tool_confirmation_matches_approval_and_denial_after_completion() {
    for approved in [false, true] {
        let mut entries = pending();
        assert_eq!(original().outcome(&entries, approved).unwrap(), None);
        entries.extend([(3, decision(approved)), (4, results())]);
        assert!(already_decided(&entries, CALL, approved).unwrap());
        assert!(!already_decided(&entries, CALL, !approved).unwrap());
        assert_eq!(original().outcome(&entries, approved).unwrap(), Some(true));
        assert_eq!(original().outcome(&entries, !approved).unwrap(), Some(false));
    }
}

#[test]
fn nats_tool_confirmation_reused_id_requires_its_own_request_decision() {
    let mut entries = pending();
    entries.extend([(3, decision(true)), (4, results()), (5, calls(CALL))]);
    assert!(
        !already_decided(&entries, CALL, true).unwrap(),
        "old round is not this round"
    );
    entries.push((6, request()));
    assert!(!already_decided(&entries, CALL, true).unwrap());
    // A retry for the old round recovers its decision, not the new request.
    assert_eq!(original().outcome(&entries, true).unwrap(), Some(true));
    entries.extend([(7, decision(false)), (8, results())]);
    assert!(!already_decided(&entries, CALL, true).unwrap());
    assert!(already_decided(&entries, CALL, false).unwrap());
}

#[test]
fn nats_tool_confirmation_replacement_request_cannot_satisfy_original() {
    let mut entries = pending();
    entries.extend([(3, request()), (4, decision(true))]);
    assert_eq!(original().outcome(&entries, true).unwrap(), Some(false));
    assert!(already_decided(&entries, CALL, true).unwrap());
}

#[test]
fn nats_tool_confirmation_late_decision_outside_round_is_not_evidence() {
    for boundary in [results(), calls("different-call"), cancel()] {
        let mut entries = pending();
        entries.extend([(3, boundary), (4, decision(true))]);
        assert!(!already_decided(&entries, CALL, true).unwrap());
        assert_eq!(original().outcome(&entries, true).unwrap(), Some(false));
    }
}

#[test]
fn nats_tool_confirmation_cancel_without_decision_is_not_success() {
    let mut entries = pending();
    entries.push((3, cancel()));
    assert_eq!(original().outcome(&entries, true).unwrap(), Some(false));
    assert!(!already_decided(&entries, CALL, true).unwrap());
}

#[test]
fn nats_tool_confirmation_decision_requires_a_preceding_request_and_matching_id() {
    let entries = vec![(1, calls(CALL)), (2, decision(true)), (3, request())];
    assert!(!already_decided(&entries, CALL, true).unwrap());
    let entries = vec![(1, calls("different-call")), (2, request()), (3, decision(true))];
    assert!(!already_decided(&entries, CALL, true).unwrap());
}

#[test]
fn nats_tool_confirmation_removed_request_or_decision_is_not_recovered() {
    for mutation in [
        SessionLogEntry::Rewind { after_seq: 2 },
        SessionLogEntry::EditEntries { from: 3, to: 3, replacements: vec![] },
        SessionLogEntry::EditEntries { from: 2, to: 2, replacements: vec![] },
    ] {
        let mut entries = pending();
        entries.extend([(3, decision(true)), (4, results()), (5, mutation)]);
        assert!(!already_decided(&entries, CALL, true).unwrap());
    }
}

#[test]
fn nats_tool_confirmation_retry_does_not_adopt_replacement_round_after_rewind() {
    let user = SessionLogEntry::Message {
        id: None,
        role: MessageRole::User,
        content: MessageContent::Text("prompt".to_string()),
        fence_token: None,
    };
    let entries = vec![
        (1, user),
        (2, calls(CALL)),
        (3, request()),
        (4, SessionLogEntry::Rewind { after_seq: 1 }),
        (5, calls(CALL)),
        (6, request()),
        (7, decision(true)),
    ];
    let original = ApprovalRequest { tool_call_id: CALL, tool_round_seq: 2, request_seq: 3 };
    assert_eq!(original.outcome(&entries, true).unwrap(), Some(false));
    assert!(already_decided(&entries, CALL, true).unwrap());
}

#[test]
fn an_unreadable_edit_is_passed_on() {
    let mut entries = pending();
    entries.push((
        3,
        SessionLogEntry::EditEntries {
            from: 1,
            to: 1,
            replacements: vec![Replacement::Malformed("{".to_string())],
        },
    ));
    assert!(matches!(
        already_decided(&entries, CALL, true),
        Err(MutationError::MalformedReplacement(3))
    ));
    assert!(matches!(
        original().outcome(&entries, true),
        Err(MutationError::MalformedReplacement(3))
    ));
}
