use harnx_runtime::compaction_request::{
    decide_compact_submit, CompactSubmit, CompactionRequest, CompactionStep, CompactionSubmission,
};
use harnx_runtime::interrupt::{
    decide, requester_label, FencedAppend, InterruptOutcome, InterruptRequest, InterruptStep,
    InterruptWatch, Interruption, WatchStep,
};
use harnx_runtime::session_log::{
    CompactOutcome, MessageContent, MessageRole, SessionLogEntry, UnchangedReason,
};

fn message(role: MessageRole, text: &str) -> SessionLogEntry {
    SessionLogEntry::Message {
        id: None,
        role,
        content: MessageContent::Text(text.to_string()),
        fence_token: None,
    }
}

fn user(text: &str) -> SessionLogEntry {
    message(MessageRole::User, text)
}

fn assistant(text: &str) -> SessionLogEntry {
    message(MessageRole::Assistant, text)
}

fn turn_end(through_seq: u64) -> SessionLogEntry {
    SessionLogEntry::TurnEnd { through_seq, fence_token: 1 }
}

fn cancel(id: &str) -> SessionLogEntry {
    SessionLogEntry::cancel_request(id.to_string(), "test".to_string())
}

fn tool_results() -> SessionLogEntry {
    SessionLogEntry::ToolResults { results: Vec::new() }
}

fn compact_request(id: &str) -> SessionLogEntry {
    SessionLogEntry::compact_request(id.to_string(), Some("test".to_string()))
}

fn compact_result(id: &str, outcome: CompactOutcome) -> SessionLogEntry {
    SessionLogEntry::compact_result(id.to_string(), outcome)
}

fn numbered(entries: Vec<SessionLogEntry>) -> Vec<(u64, SessionLogEntry)> {
    entries
        .into_iter()
        .enumerate()
        .map(|(i, e)| (i as u64 + 1, e))
        .collect()
}

fn interrupt(id: &str) -> InterruptRequest {
    InterruptRequest {
        session_id: "s".to_string(),
        cluster: "local".to_string(),
        cancellation_id: id.to_string(),
        requested_by: "test".to_string(),
        reason: "test".to_string(),
    }
}

fn compaction(id: &str) -> CompactionRequest {
    CompactionRequest {
        session_id: "s".to_string(),
        cluster: "local".to_string(),
        replicas: 1,
        compaction_id: id.to_string(),
        requested_by: Some("test".to_string()),
    }
}

#[test]
fn decide_from_the_tail_window() {
    assert_eq!(decide(&[]), Some(InterruptOutcome::Idle));
    assert_eq!(decide(&numbered(vec![turn_end(1)])), Some(InterruptOutcome::Idle));
    assert_eq!(
        decide(&numbered(vec![cancel("c1")])),
        Some(InterruptOutcome::AlreadyInterrupted { cancel_seq: 1 })
    );
    assert_eq!(decide(&numbered(vec![tool_results()])), None);
    assert_eq!(decide(&numbered(vec![assistant("partial")])), None);
    assert_eq!(
        decide(&numbered(vec![tool_results(), turn_end(1)])),
        Some(InterruptOutcome::Idle)
    );
    assert_eq!(decide(&numbered(vec![tool_results(), turn_end(1), user("next")])), None);
    assert_eq!(
        decide(&numbered(vec![tool_results(), cancel("c1")])),
        Some(InterruptOutcome::AlreadyInterrupted { cancel_seq: 2 })
    );
    assert_eq!(
        decide(&numbered(vec![SessionLogEntry::Compress { prompt: "summary".to_string() }])),
        None
    );
}

#[test]
fn an_interrupt_is_appended_once() {
    let mut first = Interruption::start(interrupt("c1"), numbered(vec![user("go")]));
    let entry = match first.next() {
        InterruptStep::Append { tail, entry } => {
            assert_eq!(tail, 1);
            entry
        }
        other => panic!("{other:?}"),
    };
    assert!(matches!(
        &entry,
        SessionLogEntry::Cancel { fence_token: 0, cancellation_id: Some(id), requested_by: Some(by) }
            if id == "c1" && by == "test"
    ));
    let accepted = first.appended(FencedAppend::Appended(2)).unwrap();
    assert_eq!(accepted.cancel_seq, 2);
    assert_eq!(accepted.cancellation_id, "c1");

    let again = Interruption::start(interrupt("c2"), vec![(1, user("go")), (2, entry)]);
    assert!(matches!(
        again.next(),
        InterruptStep::Done(InterruptOutcome::AlreadyInterrupted { cancel_seq: 2 })
    ));
}

#[test]
fn an_interrupt_that_lost_its_answer_is_found_in_the_log() {
    let mut request = Interruption::start(interrupt("c1"), numbered(vec![user("go")]));
    let found = request.appended(FencedAppend::Conflict { entries: vec![(2, cancel("c1"))] });
    assert_eq!(found.unwrap().cancel_seq, 2);
}

#[test]
fn a_moving_log_ends_an_interrupt() {
    let mut request = Interruption::start(interrupt("c1"), numbered(vec![user("go")]));
    let mut rounds = 0;
    while let InterruptStep::Append { tail, .. } = request.next() {
        assert_eq!(tail, rounds + 1);
        rounds += 1;
        let moved = FencedAppend::Conflict { entries: vec![(rounds + 1, user("more"))] };
        assert!(request.appended(moved).is_none());
    }
    assert_eq!(rounds, 16);
    assert!(matches!(request.next(), InterruptStep::Exhausted));
    assert_eq!(
        harnx_runtime::interrupt::exhausted_message(),
        "session log tail kept moving; interrupt not appended after 16 attempts"
    );
}

#[test]
fn idle_sessions_are_left_alone() {
    let request = Interruption::start(interrupt("c1"), numbered(vec![user("hi"), turn_end(1)]));
    match request.next() {
        InterruptStep::Done(outcome) => {
            assert_eq!(outcome, InterruptOutcome::Idle);
            assert_eq!(outcome.cancel_seq(), None);
        }
        other => panic!("{other:?}"),
    }
    assert_eq!(InterruptOutcome::Accepted { cancel_seq: 3 }.cancel_seq(), Some(3));
}

#[test]
fn the_watch_forgives_failures_that_pass() {
    let mut watch = InterruptWatch::new();
    for _ in 0..3 {
        assert_eq!(watch.failed(), WatchStep::Wait);
    }
    assert_eq!(watch.read(&[(7, cancel("c1"))], 1), WatchStep::Interrupted(7));

    let mut watch = InterruptWatch::new();
    for _ in 0..4 {
        assert_eq!(watch.failed(), WatchStep::Wait);
    }
    assert_eq!(watch.failed(), WatchStep::GiveUp);
    assert_eq!(watch.read(&[(7, user("next"))], 1), WatchStep::Wait);
    assert_eq!(watch.consecutive_failures, 0);
}

#[test]
fn a_requester_is_named_by_what_it_is() {
    let invocation = Some("inv".to_string());
    let parent = Some("par".to_string());
    assert_eq!(requester_label(&invocation, &parent, "client-1"), "parent:par");
    assert_eq!(requester_label(&invocation, &None, "client-1"), "parent:");
    assert_eq!(requester_label(&None, &parent, "client-1"), "client:client-1");
}

#[test]
fn decide_empty_entries_returns_none() {
    let entries: Vec<(u64, SessionLogEntry)> = vec![];
    assert!(decide_compact_submit(&entries).is_none());
}

#[test]
fn decide_pending_request_returns_already_in_flight() {
    let entries = vec![(1u64, compact_request("comp-1"))];
    assert_eq!(
        decide_compact_submit(&entries),
        Some(CompactSubmit::AlreadyInFlight { compaction_id: "comp-1".to_string() })
    );
}

#[test]
fn decide_compacted_result_returns_nothing_to_do() {
    let entries = vec![(2u64, compact_result("comp-1", CompactOutcome::Compacted))];
    assert_eq!(
        decide_compact_submit(&entries),
        Some(CompactSubmit::NothingToDo { outcome: CompactOutcome::Compacted })
    );
}

#[test]
fn decide_unchanged_result_returns_nothing_to_do() {
    let entries = vec![(
        2u64,
        compact_result("comp-1", CompactOutcome::Unchanged(UnchangedReason::NoUserMessages)),
    )];
    assert_eq!(
        decide_compact_submit(&entries),
        Some(CompactSubmit::NothingToDo {
            outcome: CompactOutcome::Unchanged(UnchangedReason::NoUserMessages)
        })
    );
}

#[test]
fn decide_failed_result_returns_none() {
    let entries =
        vec![(2u64, compact_result("comp-1", CompactOutcome::Failed("error".to_string())))];
    assert!(decide_compact_submit(&entries).is_none());
}

#[test]
fn decide_user_message_returns_none() {
    let entries = vec![(1u64, user("hello"))];
    assert!(decide_compact_submit(&entries).is_none());
}

#[test]
fn decide_unit_tests_cover_all_cases() {
    let entries: Vec<(u64, SessionLogEntry)> = vec![];
    assert!(decide_compact_submit(&entries).is_none());

    let entries = vec![(1u64, compact_request("comp-1"))];
    assert!(matches!(
        decide_compact_submit(&entries),
        Some(CompactSubmit::AlreadyInFlight { .. })
    ));

    let entries = vec![(1u64, compact_result("comp-1", CompactOutcome::Compacted))];
    assert!(matches!(
        decide_compact_submit(&entries),
        Some(CompactSubmit::NothingToDo { .. })
    ));

    let entries = vec![(
        1u64,
        compact_result("comp-1", CompactOutcome::Unchanged(UnchangedReason::NoUserMessages)),
    )];
    assert!(matches!(
        decide_compact_submit(&entries),
        Some(CompactSubmit::NothingToDo { .. })
    ));

    let entries =
        vec![(1u64, compact_result("comp-1", CompactOutcome::Failed("error".to_string())))];
    assert!(decide_compact_submit(&entries).is_none());

    let entries = vec![(1u64, user("hello"))];
    assert!(decide_compact_submit(&entries).is_none());

    let entries = vec![(1u64, SessionLogEntry::Compress { prompt: "summary".to_string() })];
    assert!(decide_compact_submit(&entries).is_none());
}

#[test]
fn a_compaction_is_submitted_once() {
    let mut first = CompactionSubmission::start(compaction("comp-1"), numbered(vec![user("x")]));
    match first.next() {
        CompactionStep::Append { tail, entry } => {
            assert_eq!(tail, 1);
            assert!(matches!(
                entry,
                SessionLogEntry::CompactRequest { compaction_id, .. } if compaction_id == "comp-1"
            ));
        }
        other => panic!("{other:?}"),
    }
    let (submit, accepted) = first.appended(FencedAppend::Appended(2)).unwrap();
    assert_eq!(submit, CompactSubmit::Submitted { compaction_id: "comp-1".to_string() });
    assert_eq!(accepted.unwrap().request_seq, 2);

    let pending = numbered(vec![user("x"), compact_request("comp-existing")]);
    let second = CompactionSubmission::start(compaction("comp-new"), pending);
    match second.next() {
        CompactionStep::Done(submit) => assert_eq!(
            submit,
            CompactSubmit::AlreadyInFlight { compaction_id: "comp-existing".to_string() }
        ),
        other => panic!("{other:?}"),
    }
}

#[test]
fn a_moving_log_ends_a_compaction_request() {
    let mut request = CompactionSubmission::start(compaction("comp-1"), numbered(vec![user("x")]));
    let mut rounds = 0;
    while let CompactionStep::Append { .. } = request.next() {
        rounds += 1;
        let moved = FencedAppend::Conflict { entries: vec![(rounds + 1, user("more"))] };
        assert!(request.appended(moved).is_none());
    }
    assert_eq!(rounds, 16);
    assert!(matches!(request.next(), CompactionStep::Exhausted));
    assert_eq!(
        harnx_runtime::compaction_request::exhausted_message(),
        "session log tail kept moving; compaction request not appended after 16 attempts"
    );
}
