use harnx_runtime::compaction_request::CompactSubmit;
use harnx_runtime::config::compaction::{
    append_recovery_note, classify_compaction_error, covered_by, handle_compaction_result,
    local_compaction_event, submit_event, CompactionClaim, CompactionError, Covered, ErrorText,
};
use harnx_runtime::config::session::{
    Agent, ExecutionContextObservation, Message, Model, Session, SessionContent, ToolResult,
};
use harnx_runtime::config::session_ops::{
    listed_session_to_meta, new_session, ListError, ListedSession, SessionActivity, SessionError,
    SessionMetadata,
};
use harnx_runtime::config::session_ops_core::{
    adjust_range_for_tool_pairs, compute_delete_range, compute_rewind_point,
    validate_not_deleting_protected, RangeError,
};
use harnx_runtime::config::session_persistence::{
    append_event, require_authoritative_appends, session_overrides, Append,
    PendingExecutionContextPersistence,
};
use harnx_runtime::config::session_tool_results::{
    accept_tool_result_replacements, finish_tool_results, pending_results_entry,
    prepare_tool_results, ToolResultsError,
};
use harnx_runtime::config::tool_images::{pending_urls, put_references, stored_images_entry};
use harnx_runtime::config::tool_servers::{
    default_true, take_tool_server, HookEntry, HooksConfig, ToolServerConfig,
};
use harnx_runtime::config::variables::{gather_variables, truncate_middle, VariableError};
use harnx_runtime::config::{Config, LastMessage};
use harnx_runtime::events::{AgentEvent, SessionEvent};
use harnx_runtime::nats_session::{AgentSource, SessionInitializer};
use harnx_runtime::session_log::{
    CompactOutcome, MessageContent, MessageContentPart, MessageRole, SessionLogEntry, ToolCall,
    UnchangedReason,
};

fn said(role: MessageRole, text: &str) -> SessionLogEntry {
    SessionLogEntry::Message {
        id: None,
        role,
        content: MessageContent::Text(text.into()),
        fence_token: None,
    }
}

fn user(text: &str) -> SessionLogEntry {
    said(MessageRole::User, text)
}

fn assistant(text: &str) -> SessionLogEntry {
    said(MessageRole::Assistant, text)
}

fn header() -> SessionLogEntry {
    SessionLogEntry::Header { model_id: String::new(), agent_name: None, session_id: None }
}

fn compress() -> SessionLogEntry {
    SessionLogEntry::Compress { prompt: "summary".into() }
}

fn calls() -> SessionLogEntry {
    SessionLogEntry::ToolCalls {
        text: String::new(),
        thought: None,
        calls: vec![],
        fence_token: None,
    }
}

fn results() -> SessionLogEntry {
    SessionLogEntry::ToolResults { results: vec![] }
}

#[test]
fn validate_not_deleting_protected_rejects_header() {
    let entries = vec![header(), user("u")];
    let err = validate_not_deleting_protected(&entries, 0).expect_err("header protected");
    assert_eq!(
        err.message(),
        "Cannot edit or delete the session header (sequence 0)"
    );
}

#[test]
fn validate_not_deleting_protected_rejects_compress_boundary() {
    let entries = vec![user("old"), compress(), user("new")];
    let err = validate_not_deleting_protected(&entries, 1).expect_err("compress protected");
    assert_eq!(
        err.message(),
        "Cannot delete protected session history at or before most-recent boundary"
    );
}

#[test]
fn validate_not_deleting_protected_rejects_pre_boundary_history() {
    let entries = vec![user("old"), assistant("older"), compress(), user("new")];
    let err = validate_not_deleting_protected(&entries, 0).expect_err("pre-boundary protected");
    assert_eq!(
        err.message(),
        "Cannot delete protected session history at or before most-recent boundary"
    );
}

#[test]
fn validate_not_deleting_protected_allows_post_boundary_turn() {
    let entries = vec![user("old"), compress(), user("new"), assistant("reply")];
    validate_not_deleting_protected(&entries, 2).unwrap();
}

#[test]
fn adjust_range_expands_tool_calls_to_include_results() {
    let docs = vec![Some(header()), Some(calls()), Some(results())];
    assert_eq!(adjust_range_for_tool_pairs(1, 1, &docs).unwrap(), (1, 2));
}

#[test]
fn compute_rewind_point_rejects_boundary_or_earlier() {
    let entries = vec![user("old"), compress(), user("new")];
    let err = compute_rewind_point(1, entries.len(), &entries).expect_err("boundary protected");
    assert_eq!(
        err.message(),
        "Cannot rewind to or before most-recent boundary"
    );
}

#[test]
fn a_range_that_starts_at_results_is_refused() {
    let docs = vec![Some(header()), Some(calls()), Some(results())];
    let err = adjust_range_for_tool_pairs(2, 2, &docs).unwrap_err();
    assert_eq!(
        err.message(),
        "Sequence 2 is a tool-results entry; its paired tool-calls entry (1) would be outside the range. Expand your range to include it."
    );
    let unreadable = vec![Some(header()), Some(calls()), None];
    assert_eq!(adjust_range_for_tool_pairs(1, 1, &unreadable).unwrap(), (1, 1));
    assert_eq!(adjust_range_for_tool_pairs(9, 9, &unreadable).unwrap(), (9, 9));
}

#[test]
fn delete_range_is_checked_in_order() {
    let entries = vec![header(), user("u"), calls(), results(), assistant("a")];
    let docs = vec![
        Some(header()),
        Some(user("u")),
        Some(calls()),
        Some(results()),
        Some(assistant("a")),
    ];
    assert_eq!(compute_delete_range(1, 2, &entries, &docs), Ok((1, 3)));
    assert_eq!(compute_delete_range(0, 2, &entries, &docs), Err(RangeError::Header));
    assert_eq!(compute_delete_range(1, 5, &entries, &docs), Err(RangeError::OutOfRange));
    assert_eq!(compute_delete_range(4, 1, &entries, &docs), Err(RangeError::OutOfRange));
    assert_eq!(
        compute_delete_range(3, 4, &entries, &docs),
        Err(RangeError::OrphanedResults { seq: 3 })
    );
    assert_eq!(RangeError::OutOfRange.message(), "Sequence numbers out of range");
}

#[test]
fn rewinding_does_not_part_a_round() {
    let entries = vec![header(), user("u"), calls(), results(), assistant("a")];
    assert_eq!(compute_rewind_point(1, 5, &entries), Ok(1));
    assert_eq!(compute_rewind_point(3, 5, &entries), Ok(3));
    let err = compute_rewind_point(2, 5, &entries).unwrap_err();
    assert_eq!(
        err.message(),
        "Sequence 2 is a tool-calls entry paired with tool-results at 3; rewinding here would orphan the tool calls. Use 3 to keep the pair or 1 to exclude it."
    );
    let err = compute_rewind_point(5, 5, &entries).unwrap_err();
    assert_eq!(
        err.message(),
        "Sequence number 5 is out of range (log has 5 entries)"
    );
}

#[test]
fn test_new_session_has_session_id() {
    let config = Config::new();
    let session = new_session(&config, "metadata-check");
    assert!(session.session_id.is_some());
}

#[test]
fn empty_session_after_persisted_clear_clears_named_session_with_messages() {
    let mut config = Config::new();
    let mut session = new_session(&config, "handoff-target");
    session.messages.push(Message::new(MessageRole::System, "You are agent A.".to_string()));
    session.messages.push(Message::new(MessageRole::User, "Hello from old session".to_string()));
    session
        .messages
        .push(Message::new(MessageRole::Assistant, "Response from agent A".to_string()));
    assert!(!session.is_empty());
    config.session = Some(session);

    config.empty_session_after_persisted_clear().unwrap();

    let session = config.session.as_ref().unwrap();
    assert!(
        session.is_empty(),
        "session should be empty after empty_session"
    );
}

#[test]
fn empty_session_keeps_messages_when_clear_cannot_be_persisted() {
    let mut config = Config::new();
    let mut session = new_session(&config, "handoff-target");
    session.messages.push(Message::new(MessageRole::User, "keep me".to_string()));
    config.session = Some(session);

    assert!(config.empty_session(Some("no log".to_string())).is_err());
    assert!(!config.session.as_ref().unwrap().is_empty());
}

fn last_message(with_agent: bool) -> LastMessage {
    LastMessage {
        input: "q".to_string(),
        with_agent,
        output: "a".to_string(),
        continuous: true,
    }
}

#[test]
fn a_session_is_opened_under_its_name() {
    let mut config = Config::new();
    assert_eq!(
        config.use_session(None, false, None).unwrap_err().message(),
        "new session IDs must be reserved asynchronously in NATS"
    );
    assert_eq!(config.session_info().unwrap_err(), SessionError::NoSession);
    config.last_message = Some(last_message(false));
    assert!(config.offers_last_message());
    config.use_session(Some("one"), true, None).unwrap();
    let session = config.session_info().unwrap();
    assert_eq!(session.id, "one");
    assert_eq!(session.messages.len(), 2);
    assert_eq!(session.messages[0].content.to_text(), "q");
    assert_eq!(session.messages[1].content.to_text(), "a");
    assert!(config.last_message.as_ref().unwrap().continuous);
    config.use_session(Some("two"), false, None).unwrap();
    assert!(config.session_info().unwrap().is_empty());
    assert!(!config.last_message.as_ref().unwrap().continuous);
    assert!(!config.offers_last_message());
}

#[test]
fn a_session_that_cannot_be_set_up_leaves_the_old_one() {
    let mut config = Config::new();
    config.use_session(Some("one"), false, None).unwrap();
    let err = config
        .use_session(Some("two"), false, Some("agent variables are required".to_string()))
        .unwrap_err();
    assert_eq!(err.message(), "agent variables are required");
    assert_eq!(config.session_info().unwrap().id, "one");
}

#[test]
fn leaving_a_session_ends_the_conversation() {
    let mut config = Config::new();
    config.last_message = Some(last_message(false));
    config.exit_session().unwrap();
    assert!(config.last_message.as_ref().unwrap().continuous);
    config.use_session(Some("one"), false, None).unwrap();
    config.exit_session().unwrap();
    assert!(config.session.is_none());
    assert!(!config.last_message.as_ref().unwrap().continuous);
}

#[test]
fn an_emptied_session_follows_its_agent() {
    let mut config = Config::new();
    config.use_session(Some("one"), false, None).unwrap();
    let mut agent = Agent::new("atlas", Model::new("m"));
    agent.variables = vec![("k".to_string(), "v".to_string())];
    config.agent = Some(agent);
    config
        .session
        .as_mut()
        .unwrap()
        .messages
        .push(Message::new(MessageRole::User, "x".to_string()));
    config.empty_session(None).unwrap();
    let session = config.session.as_ref().unwrap();
    assert!(session.is_empty());
    assert_eq!(session.agent_name.as_deref(), Some("atlas"));
    assert_eq!(session.agent_variables, vec![("k".to_string(), "v".to_string())]);
    config.session = None;
    assert_eq!(config.empty_session(None), Err(SessionError::NoSession));
    assert_eq!(
        config.empty_session_after_persisted_clear(),
        Err(SessionError::NoSession)
    );
}

#[test]
fn a_reset_session_starts_anew_under_its_name() {
    let mut config = Config::new();
    let mut agent = Agent::new("atlas", Model::new("m"));
    agent.variables = vec![("k".to_string(), "v".to_string())];
    config.agent = Some(agent);
    config.use_session(Some("one"), false, None).unwrap();
    config
        .session
        .as_mut()
        .unwrap()
        .messages
        .push(Message::new(MessageRole::User, "x".to_string()));
    config.reset_session_after_persisted_clear(None).unwrap();
    let session = config.session.as_ref().unwrap();
    assert_eq!(session.id, "one");
    assert!(session.is_empty());
    assert!(config.agent.as_ref().unwrap().variables.is_empty());
    let failed = config.reset_session_after_persisted_clear(Some("no".to_string()));
    assert_eq!(failed, Err(SessionError::Variables("no".to_string())));
    assert!(config.session.is_none());
    assert_eq!(config.reset_session_after_persisted_clear(None), Ok(()));
}

#[test]
fn hooks_of_the_frontend_are_kept() {
    let mut config = Config::new();
    config.set_tui_editor_hooks(Some(1), Some(2));
    config.set_tui_confirm_tool_use(Some(3));
    assert_eq!(config.tui_before_editor, Some(1));
    assert_eq!(config.tui_after_editor, Some(2));
    assert_eq!(config.tui_confirm_tool_use, Some(3));
    config.set_tui_editor_hooks(None, None);
    assert_eq!(config.tui_before_editor, None);
}

#[test]
fn canonical_metadata_maps_to_session_meta() {
    let record = ListedSession {
        metadata: SessionMetadata {
            session_id: "test-session-123".to_string(),
            agent_name: Some("hephaestus".to_string()),
            title: Some("Canonical title".to_string()),
            created_at: 5,
            contexts: None,
        },
        metadata_revision: 7,
        activity: Some(SessionActivity {
            first_activation_at: None,
            last_activity_at: 1_719_531_234_000,
        }),
    };

    let meta = listed_session_to_meta(record);

    assert_eq!(meta.id, "test-session-123");
    assert_eq!(meta.session_id.as_deref(), Some("test-session-123"));
    assert_eq!(meta.agent_name.as_deref(), Some("hephaestus"));
    assert_eq!(meta.title.as_deref(), Some("Canonical title"));
    assert!(meta.modified.is_some());
    let modified = meta.modified.unwrap();
    assert_eq!(modified / 1000, 1_719_531_234);
    assert!(meta.contexts.is_empty());
}

#[test]
fn a_session_that_was_never_used_was_changed_when_it_was_made() {
    let record = ListedSession {
        metadata: SessionMetadata {
            session_id: "s".to_string(),
            agent_name: None,
            title: None,
            created_at: 5,
            contexts: Some(vec!["/workspace".to_string()]),
        },
        metadata_revision: 1,
        activity: None,
    };
    let meta = listed_session_to_meta(record);
    assert_eq!(meta.modified, Some(5));
    assert_eq!(meta.contexts, vec!["/workspace"]);
}

#[test]
fn errors_of_listing_name_the_cluster() {
    assert_eq!(
        ListError::TimedOut.message("prod", "b"),
        "Timed out listing sessions from NATS cluster 'prod' after 10s"
    );
    assert_eq!(
        ListError::NotInitialized.message("prod", "b"),
        "Session discovery is not available yet because canonical metadata for cluster 'prod' has not been initialized; try again shortly"
    );
    assert_eq!(
        ListError::NoAccess.message("prod", "b"),
        "Failed to access session metadata bucket 'b' for cluster 'prod'"
    );
    assert!(ListError::NotConnected.message("prod", "b").contains("'prod'"));
    assert!(ListError::NotListed.message("prod", "b").contains("'prod'"));
}

fn config_with_variables(variables: &[(&str, &str)]) -> Config {
    let mut config = Config::new();
    config.agent = Some(Agent::new("atlas", Model::new("m")));
    config.use_session(Some("one"), false, None).unwrap();
    config.session.as_mut().unwrap().agent_variables = variables
        .iter()
        .map(|(name, value)| (name.to_string(), value.to_string()))
        .collect();
    config
}

#[test]
fn each_variable_has_one_value() {
    let pairs = |list: &[(&str, &str)]| -> Vec<(String, String)> {
        list.iter().map(|(name, value)| (name.to_string(), value.to_string())).collect()
    };
    let given = pairs(&[("a", "1"), ("b", "2"), ("a", "3")]);
    assert_eq!(gather_variables(&given), pairs(&[("a", "3"), ("b", "2")]));
    let initializer = SessionInitializer::new(AgentSource::Named("x".to_string()), &given);
    assert_eq!(initializer.variables, pairs(&[("a", "3"), ("b", "2")]));
    assert_eq!(initializer.agent, AgentSource::Named("x".to_string()));
    assert!(gather_variables(&[]).is_empty());
}

#[test]
fn variables_are_listed_read_and_set() {
    let mut config = config_with_variables(&[]);
    assert_eq!(config.list_variables().unwrap(), "No session variables");
    config.set_variable("a", "1", None, None).unwrap();
    config.set_variable("b", "2", None, None).unwrap();
    config.set_variable("a", "3", None, None).unwrap();
    assert_eq!(config.list_variables().unwrap(), "a = 3\nb = 2");
    assert_eq!(config.get_variable("a").unwrap(), "3");
    assert_eq!(config.get_variable("b").unwrap(), "2");
    assert_eq!(
        config.get_variable("c").unwrap_err().message(),
        "Variable 'c' not set"
    );
    assert_eq!(
        config.agent.as_ref().unwrap().variables,
        config.session.as_ref().unwrap().agent_variables
    );
}

#[test]
fn variables_need_a_session_and_an_agent() {
    let mut config = Config::new();
    assert_eq!(config.list_variables().unwrap_err().message(), "No active session");
    assert_eq!(config.get_variable("a"), Err(VariableError::NoSession));
    assert_eq!(config.set_variable("a", "1", None, None), Err(VariableError::NoSession));
    config.use_session(Some("one"), false, None).unwrap();
    assert_eq!(
        config.set_variable("a", "1", None, None).unwrap_err().message(),
        "No active agent"
    );
    let mut config = config_with_variables(&[]);
    assert_eq!(
        config.set_variable("a", "1", Some("busy".to_string()), None),
        Err(VariableError::Locked("busy".to_string()))
    );
    assert!(config.get_variable("a").is_err());
    assert_eq!(
        config.set_variable("a", "1", None, Some("disk".to_string())),
        Err(VariableError::NotSaved("disk".to_string()))
    );
    assert_eq!(config.get_variable("a").unwrap(), "1");
}

#[test]
fn long_values_are_cut_in_the_middle() {
    assert_eq!(truncate_middle("abcdef", 6), "abcdef");
    assert_eq!(truncate_middle("abcdefg", 4), "ab…fg");
    let config = config_with_variables(&[("v", &"x".repeat(300))]);
    assert_eq!(
        config.list_variables().unwrap(),
        format!("v = {}…{}", "x".repeat(100), "x".repeat(100))
    );
}

#[test]
fn compaction_is_claimed_once() {
    let mut config = Config::new();
    assert_eq!(config.claim_local_compaction(), CompactionClaim::NoSession);
    assert!(!config.is_compacting_session());
    config.use_session(Some("one"), false, None).unwrap();
    assert_eq!(config.claim_local_compaction(), CompactionClaim::Claimed);
    assert!(config.is_compacting_session());
    assert_eq!(config.claim_local_compaction(), CompactionClaim::AlreadyCompacting);
    config.clear_compacting("two");
    assert!(config.is_compacting_session());
    config.clear_compacting("one");
    assert!(!config.is_compacting_session());
}

#[test]
fn maintenance_starts_what_is_due() {
    let mut config = Config::new();
    let idle = config.run_post_turn_maintenance(true);
    assert!(idle.compaction.is_none() && idle.title.is_none());
    config.compress_threshold = 10;
    config.use_session(Some("one"), false, None).unwrap();
    {
        let session = config.session.as_mut().unwrap();
        session.tokens = 11;
        session.messages.push(Message::new(MessageRole::User, "x".to_string()));
    }
    let due = config.run_post_turn_maintenance(true);
    let start = due.compaction.unwrap();
    assert_eq!(start.session_id, "one");
    assert_eq!(start.messages, 1);
    assert!(!start.overlapping);
    assert_eq!(due.title.as_deref(), Some("one"));
    let again = config.run_post_turn_maintenance(true);
    assert!(again.compaction.unwrap().overlapping);
    assert!(again.title.is_none());
}

#[test]
fn a_compaction_covers_the_first_messages() {
    let mut messages = vec![
        Message::new(MessageRole::User, "a".to_string()),
        Message::new(MessageRole::Assistant, "b".to_string()),
        Message::new(MessageRole::User, "c".to_string()),
    ];
    messages[0].log_seq = Some(7);
    messages[1].log_seq = Some(4);
    assert_eq!(
        covered_by(&messages, 2),
        Covered { from: Some(4), to: Some(7), count: 2 }
    );
    assert_eq!(covered_by(&messages[2..], 1), Covered { from: None, to: None, count: 1 });
    let mut config = Config::new();
    assert_eq!(config.ensure_compactable(), Err(CompactionError::NoSession));
    config.use_session(Some("one"), false, None).unwrap();
    assert_eq!(
        config.ensure_compactable().unwrap_err().message(),
        "No need to compact since there are no messages in the session"
    );
    config.session.as_mut().unwrap().messages = messages;
    assert_eq!(config.ensure_compactable(), Ok(()));
    assert_eq!(
        config.build_compaction_transcript(0),
        Err(CompactionError::NothingToCompact)
    );
    let (covered, id) = config.build_compaction_transcript(2).unwrap();
    assert_eq!(id, "one");
    assert!(!config.apply_compaction_summary("two", "sum".to_string(), 2));
    assert!(!config.apply_compaction_summary("two", "sum".to_string(), 99));
    assert_eq!(config.session.as_ref().unwrap().messages.len(), 3);
    assert!(config.is_active_session("one"));
    let note = append_recovery_note("sum", covered);
    assert!(config.apply_compaction_summary("one", note, 2));
    let session = config.session.as_ref().unwrap();
    assert_eq!(session.messages.len(), 2);
    assert!(session.messages[0].content.to_text().starts_with("sum\n\n[Earlier conversation: 2 message(s) (log entries 4–7) were summarized above."));
    assert_eq!(session.messages[1].content.to_text(), "c");
}

#[test]
fn a_summary_replaces_what_is_left_of_a_session() {
    let mut config = Config::new();
    config.use_session(Some("one"), false, None).unwrap();
    config.session.as_mut().unwrap().messages = vec![Message::new(MessageRole::User, "a".into())];
    assert!(config.apply_compaction_summary("one", "sum".to_string(), 99));
    let session = config.session.as_ref().unwrap();
    assert_eq!(session.messages.len(), 1);
    assert_eq!(session.messages[0].content.to_text(), "sum");
    assert!(matches!(session.messages[0].role, MessageRole::System));
}

#[test]
fn recovery_note_leaves_an_unknown_range_out() {
    assert_eq!(
        append_recovery_note("S", Covered { from: None, to: Some(3), count: 5 }),
        "S\n\n[Earlier conversation: 5 message(s) were summarized above. The full pre-compaction transcript remains in this session's log; use the `harnx_agent_session_history_read` tool to search it by entry index, type, tool name, or text.]"
    );
}

#[test]
fn compaction_errors_are_sorted() {
    assert_eq!(
        classify_compaction_error("outer: No need to compact since there are no messages"),
        CompactOutcome::Unchanged(UnchangedReason::NoUserMessages)
    );
    assert_eq!(
        classify_compaction_error("Nothing to compact"),
        CompactOutcome::Unchanged(UnchangedReason::NothingEligible)
    );
    assert_eq!(
        classify_compaction_error("boom"),
        CompactOutcome::Failed("boom".to_string())
    );
}

fn error(brief: &str, full: &str) -> ErrorText {
    ErrorText { brief: brief.to_string(), full: full.to_string() }
}

#[test]
fn compaction_results_become_events() {
    assert!(matches!(
        local_compaction_event(Ok(())),
        AgentEvent::Session(SessionEvent::CompactingCompleted {
            outcome: CompactOutcome::Compacted,
            ..
        })
    ));
    assert!(matches!(
        local_compaction_event(Err(error("outer", "outer: Nothing to compact"))),
        AgentEvent::Session(SessionEvent::CompactingCompleted {
            outcome: CompactOutcome::Unchanged(UnchangedReason::NothingEligible),
            ..
        })
    ));
    match local_compaction_event(Err(error("outer", "outer: boom"))) {
        AgentEvent::Session(SessionEvent::CompactingFailed { error, .. }) => {
            assert_eq!(error, "outer");
        }
        other => panic!("unexpected event: {other:?}"),
    }
    match handle_compaction_result(Err(error("outer", "outer: boom"))) {
        AgentEvent::Session(SessionEvent::CompactingFailed { error, .. }) => {
            assert!(error.contains("outer"));
            assert!(error.contains("boom"));
        }
        other => panic!("unexpected event: {other:?}"),
    }
    assert!(matches!(
        handle_compaction_result(Ok(())),
        AgentEvent::Session(SessionEvent::CompactingCompleted { .. })
    ));
}

#[test]
fn submitted_requests_are_reported_once() {
    let submitted = submit_event(Ok(CompactSubmit::Submitted { compaction_id: "c".to_string() }));
    assert!(submitted.is_none());
    let texts: Vec<String> = [
        CompactSubmit::AlreadyInFlight { compaction_id: "c".to_string() },
        CompactSubmit::NothingToDo { outcome: CompactOutcome::Compacted },
        CompactSubmit::NothingToDo {
            outcome: CompactOutcome::Unchanged(UnchangedReason::NoUserMessages),
        },
        CompactSubmit::NothingToDo {
            outcome: CompactOutcome::Unchanged(UnchangedReason::AlreadyCompacted),
        },
    ]
    .into_iter()
    .map(|submit| match submit_event(Ok(submit)) {
        Some(AgentEvent::Session(SessionEvent::Generic { text })) => text,
        other => panic!("unexpected event: {other:?}"),
    })
    .collect();
    assert_eq!(
        texts,
        [
            "Compaction already in progress",
            "Nothing to compact",
            "No user messages to compact",
            "Session already compacted",
        ]
    );
    assert!(matches!(
        submit_event(Err("no route".to_string())),
        Some(AgentEvent::Session(SessionEvent::CompactingFailed { error, .. })) if error == "no route"
    ));
}

#[test]
fn sessions_of_a_cluster_are_compacted_there() {
    let mut config = Config::new();
    assert!(!config.is_nats_session());
    config.nats_servers.push("local".to_string());
    assert!(config.is_nats_session());
    config.nats_servers.clear();
    config.remote_agent = Some("atlas@prod".to_string());
    assert!(config.is_nats_session());
}

fn result(id: Option<&str>, output: &str, context: Option<&str>) -> ToolResult {
    ToolResult {
        call: ToolCall {
            name: "fs_read".to_string(),
            arguments: serde_json::Value::Null,
            id: id.map(str::to_string),
            thought_signature: None,
        },
        output: serde_json::Value::String(output.to_string()),
        markdown: None,
        content: vec![MessageContentPart::Text { text: output.to_string() }],
        switch_agent: None,
        execution_context: context.map(|call_id| ExecutionContextObservation {
            root: "/workspace".to_string(),
            path: "/workspace/README.md".to_string(),
            call_id: Some(call_id.to_string()),
        }),
        sub_agent_progress: None,
    }
}

fn outputs(results: &[ToolResult]) -> Vec<&str> {
    results.iter().map(|result| result.output.as_str().unwrap()).collect()
}

#[test]
fn only_results_that_calls_take_tell_where_tools_ran() {
    let (filled, seen) = accept_tool_result_replacements(
        vec![result(Some("call-1"), "", None)],
        &[
            result(Some("call-1"), "first", Some("duplicate-discarded")),
            result(Some("unmatched"), "other", Some("unmatched-discarded")),
            result(Some("call-1"), "last", Some("accepted")),
        ],
    );
    assert_eq!(outputs(&filled), ["last"]);
    assert_eq!(seen.len(), 1);
    assert_eq!(seen[0].call_id.as_deref(), Some("accepted"));
}

#[test]
fn calls_without_a_result_of_their_own_take_the_next_one() {
    let (filled, _) = accept_tool_result_replacements(
        vec![
            result(Some("a"), "-", None),
            result(None, "-", None),
            result(Some("a"), "-", None),
            result(Some("x"), "-", None),
        ],
        &[
            result(None, "p1", None),
            result(Some("a"), "A", None),
            result(None, "p2", None),
        ],
    );
    assert_eq!(outputs(&filled), ["A", "p1", "p2", "-"]);
    assert!(matches!(
        &filled[0].content[..],
        [MessageContentPart::Text { text }] if text == "A"
    ));
}

fn session_with_round(pending: Vec<ToolResult>) -> Session {
    let mut session = Session::new("s", Model::new("m"));
    session.messages.push(Message::new(MessageRole::User, "go".to_string()));
    session.messages.push(Message {
        role: MessageRole::Tool,
        content: SessionContent::ToolCalls { text: "reading".to_string(), tool_results: pending },
        log_seq: Some(3),
    });
    session
}

#[test]
fn results_fill_the_last_round_and_go_to_the_log() {
    let mut session = session_with_round(vec![result(Some("call-1"), "", None)]);
    let seen =
        prepare_tool_results(&mut session, &[result(Some("call-1"), "ok", Some("call-1"))]).unwrap();
    match pending_results_entry(&session).unwrap() {
        SessionLogEntry::ToolResults { results } => {
            assert_eq!(results.len(), 1);
            assert_eq!(results[0].id.as_deref(), Some("call-1"));
            assert_eq!(results[0].output.as_str(), Some("ok"));
        }
        other => panic!("unexpected entry: {other:?}"),
    }
    let pending =
        finish_tool_results(&mut session, &Append::At(9), &None, true, seen, 123).unwrap();
    assert_eq!((session.log_entry_count, session.tokens), (9, 123));
    assert!(!session.dirty);
    assert_eq!(pending.to_persist(true).unwrap().len(), 1);
}

#[test]
fn images_leave_the_round_before_it_goes_to_the_log() {
    let image = |url: &str| MessageContentPart::ImageUrl { url: url.to_string() };
    let mut session = session_with_round(vec![
        result(Some("a"), "", None),
        result(Some("b"), "", None),
    ]);
    let mut first = result(Some("a"), "A", None);
    first.content.push(image("data:image/png;base64,AAAA"));
    first.content.push(image("https://host/x.png"));
    let mut second = result(Some("b"), "B", None);
    second.content = vec![image("data:image/png;base64,BBBB"), image("data:image/png;base64,AAAA")];
    prepare_tool_results(&mut session, &[first, second]).unwrap();
    assert_eq!(
        pending_urls(&session),
        ["data:image/png;base64,AAAA", "data:image/png;base64,BBBB", "data:image/png;base64,AAAA"]
    );
    let references = [
        ("data:image/png;base64,AAAA".to_string(), "cid:a".to_string()),
        ("data:image/png;base64,BBBB".to_string(), "cid:b".to_string()),
    ];
    put_references(&mut session, &references);
    assert!(pending_urls(&session).is_empty());
    let SessionLogEntry::ToolResults { results } = pending_results_entry(&session).unwrap() else {
        panic!("no results");
    };
    assert!(matches!(
        &results[0].content[..],
        [
            MessageContentPart::Text { text },
            MessageContentPart::ImageUrl { url: stored },
            MessageContentPart::ImageUrl { url: other },
        ] if text == "A" && stored == "cid:a" && other == "https://host/x.png"
    ));
    assert!(matches!(
        &results[1].content[..],
        [MessageContentPart::ImageUrl { url: b }, MessageContentPart::ImageUrl { url: a }]
            if b == "cid:b" && a == "cid:a"
    ));
    assert_eq!(session.messages[1].log_seq, Some(3));
}

#[test]
fn images_without_a_reference_stay() {
    let mut session = session_with_round(vec![result(Some("a"), "", None)]);
    let mut with_image = result(Some("a"), "A", None);
    with_image.content = vec![MessageContentPart::ImageUrl { url: "data:x".to_string() }];
    prepare_tool_results(&mut session, &[with_image]).unwrap();
    put_references(&mut session, &[("data:y".to_string(), "cid:y".to_string())]);
    assert_eq!(pending_urls(&session), ["data:x"]);
    let mut empty = Session::new("s", Model::new("m"));
    put_references(&mut empty, &[]);
    assert!(pending_urls(&empty).is_empty());
    assert_eq!(
        pending_results_entry(&empty).unwrap_err().message(),
        "add_tool_results called on empty session"
    );
    assert!(stored_images_entry(vec![]).is_none());
    let files = vec![("cid:y".to_string(), "y.png".to_string())];
    assert!(matches!(
        stored_images_entry(files),
        Some(SessionLogEntry::DataUrls { urls }) if urls[0].1 == "y.png"
    ));
}

#[test]
fn a_list_of_images_follows_the_results() {
    let mut session = session_with_round(vec![]);
    let listed = Some(Append::At(10));
    let pending =
        finish_tool_results(&mut session, &Append::At(9), &listed, true, vec![], 7).unwrap();
    assert_eq!((session.log_entry_count, session.tokens, session.dirty), (10, 7, false));
    assert!(pending.to_persist(true).is_none());
    let lost = Some(Append::Failed("down".to_string()));
    let err = finish_tool_results(&mut session, &Append::At(11), &lost, true, vec![], 8);
    assert_eq!(err.unwrap_err().message(), "failed to durably persist tool results");
    assert_eq!((session.log_entry_count, session.tokens, session.dirty), (11, 7, true));
}

#[test]
fn results_that_are_lost_end_an_authoritative_session() {
    let mut session = session_with_round(vec![result(Some("c"), "", None)]);
    let failed = Append::Failed("down".to_string());
    let err = finish_tool_results(&mut session, &failed, &None, true, vec![], 5).unwrap_err();
    assert_eq!(err.message(), "failed to durably persist tool results");
    assert!(session.dirty);
    assert_eq!(session.tokens, 0);
    let mut session = session_with_round(vec![]);
    let unlisted = Some(Append::NoLog);
    let pending =
        finish_tool_results(&mut session, &Append::At(1), &unlisted, false, vec![], 5).unwrap();
    assert_eq!(session.tokens, 5);
    assert!(session.dirty);
    assert!(pending.to_persist(true).is_none());
}

#[test]
fn results_need_a_round_that_waits_for_them() {
    let mut session = Session::new("s", Model::new("m"));
    assert_eq!(
        prepare_tool_results(&mut session, &[]).unwrap_err().message(),
        "add_tool_results called on empty session"
    );
    session.messages.push(Message::new(MessageRole::Tool, "x".to_string()));
    assert_eq!(
        prepare_tool_results(&mut session, &[]).unwrap_err().message(),
        "add_tool_results called but the last session message is not a pending tool-call turn"
    );
    let mut session = session_with_round(vec![]);
    session.messages[1].role = MessageRole::Assistant;
    assert!(matches!(
        prepare_tool_results(&mut session, &[]),
        Err(ToolResultsError::NotATool)
    ));
    assert_eq!(
        ToolResultsError::NotATool.message(),
        "add_tool_results called but the last session message is not role=Tool"
    );
}

#[test]
fn answers_of_the_log_count() {
    let mut session = Session::new("s", Model::new("m"));
    assert!(append_event(&mut session, &Append::At(4)));
    assert_eq!(session.log_entry_count, 4);
    assert!(!append_event(&mut session, &Append::NoLog));
    assert_eq!(session.log_entry_count, 4);
    assert!(require_authoritative_appends(false, false, "x").is_ok());
    assert!(require_authoritative_appends(true, true, "x").is_ok());
    assert_eq!(
        require_authoritative_appends(false, true, "assistant message"),
        Err("failed to durably persist assistant message".to_string())
    );
    let none = PendingExecutionContextPersistence::none("s");
    assert!(none.to_persist(true).is_none());
}

#[test]
fn overrides_come_from_the_log_or_from_memory() {
    let mut session = Session::new("s", Model::new("a:b"));
    session.use_tools = Some(vec!["fs_*".to_string()]);
    session.compress_threshold = Some(3);
    let built = session_overrides(&session, Ok(None)).unwrap();
    assert_eq!(built.model.as_deref(), Some("a:b"));
    assert_eq!(built.use_tools, Some(vec!["fs_*".to_string()]));
    assert_eq!(built.compress_threshold, Some(3));
    let mut stored = session_overrides(&session, Ok(None)).unwrap();
    stored.model = None;
    assert_eq!(session_overrides(&session, Ok(Some(stored))).unwrap().model, None);
    assert_eq!(
        session_overrides(&session, Err("down".to_string())).unwrap_err(),
        "down"
    );
}

#[test]
fn tool_servers_are_named_by_their_files() {
    assert!(default_true());
    let mut servers = Vec::new();
    take_tool_server(
        &mut servers,
        Some("time"),
        ToolServerConfig::minimal("harnx-time-server".to_string()),
    );
    take_tool_server(&mut servers, Some(""), ToolServerConfig::minimal("x".to_string()));
    take_tool_server(&mut servers, None, ToolServerConfig::minimal("y".to_string()));
    assert_eq!(servers.len(), 1);
    assert_eq!(servers[0].name, "time");
    assert_eq!(servers[0].command, "harnx-time-server");
    assert!(servers[0].enabled);
    let mut with_hooks = ToolServerConfig::minimal("h".to_string());
    with_hooks.hooks = Some(HooksConfig {
        max_resume: Some(3),
        entries: vec![HookEntry {
            command: "c".to_string(),
            status_message: Some("Checking time tool".to_string()),
            async_hook: None,
        }],
    });
    take_tool_server(&mut servers, Some("hooked"), with_hooks);
    assert_eq!(servers[1].hooks.as_ref().unwrap().entries.len(), 1);
}
