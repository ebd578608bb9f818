use harnx_runtime::events::{
    AgentEvent, CompletionTokenUsage, ContentBlock, ModelEvent, NoticeEvent, SessionEvent,
    ToolEvent, ToolKind, TurnEvent, UserEvent,
};
use harnx_runtime::mutations::{apply_log_mutations, MutationError};
use harnx_runtime::nats_event_sink::{
    events_subject, last_durable_seq, should_render, AdvisoryEnvelope, AfterSeq, LiveEventState,
};
use harnx_runtime::replay::{
    emit_all_logical_seqs_for_window, flush_pending_advisories, logical_indices_for_entry,
    numbering_window, render_log_entry, replay_rows, should_skip_replay_entry, AdvisoryFlush,
    Numbering,
};
use harnx_runtime::session_log::{
    rows_of, MessageContent, MessageRole, Replacement, Row, SessionLogEntry, ToolCall, ToolOutput,
};
use harnx_runtime::window::{active_context_window, headed_context_window};
use std::collections::{HashSet, VecDeque};

fn json(text: &str) -> serde_json::Value {
    serde_json::from_str(text).unwrap()
}

fn message_with_id(id: Option<&str>, role: MessageRole, text: &str) -> SessionLogEntry {
    SessionLogEntry::Message {
        id: id.map(String::from),
        role,
        content: MessageContent::Text(text.to_string()),
        fence_token: None,
    }
}

fn message(role: MessageRole, text: &str) -> SessionLogEntry {
    message_with_id(None, role, text)
}

fn header(agent: &str) -> SessionLogEntry {
    SessionLogEntry::Header {
        model_id: "test-model".to_string(),
        agent_name: Some(agent.to_string()),
        session_id: Some("session".to_string()),
    }
}

fn test_entries(entries: &[(u64, MessageRole, &str)]) -> Vec<(u64, SessionLogEntry)> {
    entries
        .iter()
        .map(|(seq, role, text)| (*seq, message(*role, text)))
        .collect()
}

fn user_event(text: &str) -> AgentEvent {
    AgentEvent::User(UserEvent::Message { content: text.to_string() })
}

fn final_event(text: &str) -> AgentEvent {
    AgentEvent::Model(ModelEvent::Final {
        output: text.to_string(),
        usage: CompletionTokenUsage::default(),
    })
}

fn seq_event(seq: usize) -> AgentEvent {
    AgentEvent::Session(SessionEvent::LogSeqAssigned { seq })
}

fn shown(events: &[AgentEvent]) -> String {
    format!("{events:?}")
}

fn assigned(events: &[AgentEvent]) -> Vec<usize> {
    events
        .iter()
        .filter_map(|event| match event {
            AgentEvent::Session(SessionEvent::LogSeqAssigned { seq }) => Some(*seq),
            _ => None,
        })
        .collect()
}

fn rendered(events: &[AgentEvent]) -> Vec<String> {
    events
        .iter()
        .filter_map(|event| match event {
            AgentEvent::User(UserEvent::Message { content }) => Some(content.clone()),
            AgentEvent::Model(ModelEvent::Final { output, .. }) => Some(output.clone()),
            _ => None,
        })
        .collect()
}

fn replay(numbering: Numbering, rows: &[Row], skipped: Option<u64>) -> Vec<AgentEvent> {
    let window = numbering_window(numbering, rows);
    let mut sink = Vec::new();
    replay_rows(numbering, rows, &window, skipped, &mut sink);
    sink
}

fn assert_replay(entries: &[(u64, SessionLogEntry)], expected: Vec<AgentEvent>) {
    let rows = rows_of(entries);
    let sink = replay(Numbering::Transcript, &rows, None);
    assert_eq!(shown(&sink), shown(&expected));
}

fn exhausted() -> VecDeque<AdvisoryEnvelope> {
    VecDeque::from(vec![AdvisoryEnvelope::new(
        7,
        AgentEvent::Notice(NoticeEvent::Warning("exhausted retries".to_string())),
    )])
}

fn check_final_flush(numbering: Numbering) {
    let (live, reader) = LiveEventState::new();
    let mut sink: Vec<AgentEvent> = Vec::new();
    let mut pending = exhausted();
    let mut emitted: HashSet<usize> = HashSet::new();

    // Nothing to number against yet: wait for a later flush.
    flush_pending_advisories(
        numbering,
        &mut pending,
        None,
        &mut sink,
        &mut emitted,
        AdvisoryFlush::Live,
        &live,
        reader,
        0,
    );
    assert_eq!(pending.len(), 1, "live flush must retain, not drop");
    assert_eq!(sink.len(), 0, "live flush must not emit yet");

    // No later flush exists, so it goes out without a number.
    flush_pending_advisories(
        numbering,
        &mut pending,
        None,
        &mut sink,
        &mut emitted,
        AdvisoryFlush::Final,
        &live,
        reader,
        0,
    );
    assert!(pending.is_empty(), "final flush must drain the queue");
    assert_eq!(sink.len(), 1, "final flush must emit the notice, not discard it");
}

#[test]
fn nats_client_session_final_flush_emits_advisories_when_the_log_cannot_be_reconstructed() {
    check_final_flush(Numbering::Headed);
}

#[test]
fn nats_session_final_flush_emits_advisories_when_the_log_cannot_be_reconstructed() {
    check_final_flush(Numbering::Transcript);
}

fn check_render_message(numbering: Numbering) {
    let mut sink: Vec<AgentEvent> = Vec::new();
    let empty: Vec<Row> = vec![];
    let window = numbering_window(numbering, &empty);

    let entry = message(MessageRole::Assistant, "Hello");
    render_log_entry(numbering, &entry, 0, &window, &mut sink);
    assert_eq!(sink.len(), 1);

    let entry = message(MessageRole::User, "Hi");
    render_log_entry(numbering, &entry, 0, &window, &mut sink);
    assert_eq!(sink.len(), 2);
    assert_eq!(shown(&sink), shown(&[final_event("Hello"), user_event("Hi")]));
}

#[test]
fn nats_client_session_test_render_message_entry() {
    check_render_message(Numbering::Headed);
}

#[test]
fn nats_session_test_render_message_entry() {
    check_render_message(Numbering::Transcript);
}

#[test]
fn nats_client_session_test_replay_history_skips_last_user_message_only() {
    let history = test_entries(&[
        (1, MessageRole::User, "first user"),
        (2, MessageRole::Assistant, "assistant"),
        (3, MessageRole::User, "current user"),
    ]);
    let rows = rows_of(&history);
    let sink = replay(Numbering::Headed, &rows, Some(3));

    assert_eq!(sink.len(), 2);
    let rendered_messages = rendered(&sink);
    assert_eq!(rendered_messages, vec!["first user", "assistant"]);
    assert!(!rendered_messages.iter().any(|msg| msg == "current user"));
    let replayed_seqs = assigned(&sink);
    assert!(
        replayed_seqs.is_empty(),
        "a log without a header has no numbers yet, got {replayed_seqs:?}"
    );
}

#[test]
fn nats_session_test_replay_history_skips_last_user_message_only() {
    let history = test_entries(&[
        (1, MessageRole::User, "first user"),
        (2, MessageRole::Assistant, "assistant"),
        (3, MessageRole::User, "current user"),
    ]);
    let rows = rows_of(&history);
    let sink = replay(Numbering::Transcript, &rows, Some(3));

    assert_eq!(sink.len(), 4);
    let rendered_messages = rendered(&sink);
    assert_eq!(rendered_messages, vec!["first user", "assistant"]);
    assert!(!rendered_messages.iter().any(|msg| msg == "current user"));
    assert_eq!(assigned(&sink), vec![0, 1]);
}

#[test]
fn test_replay_with_header_boundary_emits_row_seqs() {
    let mut history = vec![(
        1u64,
        SessionLogEntry::Header {
            model_id: "m".to_string(),
            agent_name: Some("a".to_string()),
            session_id: Some("s".to_string()),
        },
    )];
    history.extend(test_entries(&[
        (2, MessageRole::User, "first user"),
        (3, MessageRole::Assistant, "assistant"),
        (4, MessageRole::User, "current user"),
    ]));
    let rows = rows_of(&history);
    let sink = replay(Numbering::Headed, &rows, Some(4));
    assert_eq!(assigned(&sink), vec![1, 2]);
}

#[test]
fn test_replay_without_compaction_emits_row_seqs() {
    let history = test_entries(&[
        (1, MessageRole::User, "first user"),
        (2, MessageRole::Assistant, "assistant"),
        (3, MessageRole::User, "current user"),
    ]);
    let rows = rows_of(&history);
    let sink = replay(Numbering::Transcript, &rows, Some(3));
    assert_eq!(assigned(&sink), vec![0, 1]);
}

#[test]
fn nats_client_session_test_emit_all_logical_seqs_numbers_every_renderable_window_row() {
    let history = vec![
        (3, header("test-agent")),
        (3, message_with_id(Some("legacy-user"), MessageRole::User, "legacy")),
        (3, message_with_id(Some("live-user"), MessageRole::User, "live user")),
        (4, message_with_id(Some("assistant"), MessageRole::Assistant, "reply")),
    ];
    let rows = rows_of(&history);
    let mut sink = Vec::new();
    let mut emitted = HashSet::new();
    emit_all_logical_seqs_for_window(Numbering::Headed, Some(&rows), &mut sink, &mut emitted);
    assert_eq!(assigned(&sink), vec![1, 2, 3]);
}

#[test]
fn nats_session_test_emit_all_logical_seqs_numbers_every_renderable_window_row() {
    let history = vec![
        (3, message_with_id(Some("legacy-user"), MessageRole::User, "legacy")),
        (3, message_with_id(Some("live-user"), MessageRole::User, "live user")),
        (4, message_with_id(Some("assistant"), MessageRole::Assistant, "reply")),
    ];
    let rows = rows_of(&history);
    let mut sink = Vec::new();
    let mut emitted = HashSet::new();
    emit_all_logical_seqs_for_window(Numbering::Transcript, Some(&rows), &mut sink, &mut emitted);
    assert_eq!(assigned(&sink), vec![0, 1, 2]);

    // A second pass gives no number twice.
    emit_all_logical_seqs_for_window(Numbering::Transcript, Some(&rows), &mut sink, &mut emitted);
    assert_eq!(assigned(&sink), vec![0, 1, 2]);
    emit_all_logical_seqs_for_window(Numbering::Transcript, None, &mut sink, &mut emitted);
    assert_eq!(assigned(&sink), vec![0, 1, 2]);
}

#[test]
fn nats_client_session_test_logical_indices_for_entry_user_fans_out_shared_seq() {
    let history = vec![
        (50, header("test-agent")),
        (51, message_with_id(Some("u1"), MessageRole::User, "u1")),
        (51, message_with_id(Some("u2"), MessageRole::User, "u2")),
        (51, message_with_id(Some("a1"), MessageRole::Assistant, "a1")),
    ];
    let rows = rows_of(&history);
    let window = headed_context_window(&rows);
    let user_indices = logical_indices_for_entry(Numbering::Headed, 51, &history[1].1, &window);
    let assistant_indices =
        logical_indices_for_entry(Numbering::Headed, 51, &history[3].1, &window);
    assert_eq!(user_indices, vec![1, 2, 3]);
    assert_eq!(assistant_indices, vec![3]);
}

#[test]
fn nats_session_test_logical_indices_for_entry_user_fans_out_shared_seq() {
    let history = vec![
        (51, message_with_id(Some("u1"), MessageRole::User, "u1")),
        (51, message_with_id(Some("u2"), MessageRole::User, "u2")),
        (51, message_with_id(Some("a1"), MessageRole::Assistant, "a1")),
    ];
    let rows = rows_of(&history);
    let window = active_context_window(&rows);
    let user_indices = logical_indices_for_entry(Numbering::Transcript, 51, &history[0].1, &window);
    let assistant_indices =
        logical_indices_for_entry(Numbering::Transcript, 51, &history[2].1, &window);
    assert_eq!(user_indices, vec![0, 1]);
    assert_eq!(assistant_indices, vec![2]);
}

fn check_render_tool_results(numbering: Numbering) {
    let mut sink: Vec<AgentEvent> = Vec::new();
    let entry = SessionLogEntry::ToolResults {
        results: vec![ToolOutput {
            id: Some("test".to_string()),
            name: "echo".to_string(),
            output: json(r#"{"result": "ok"}"#),
            markdown: Some("rendered summary".to_string()),
            content: vec![],
            switch_agent: None,
            sub_agent_progress: None,
        }],
    };
    let empty: Vec<Row> = vec![];
    let window = numbering_window(numbering, &empty);
    render_log_entry(numbering, &entry, 0, &window, &mut sink);
    assert_eq!(sink.len(), 1);
    match &sink[0] {
        AgentEvent::Tool(ToolEvent::Completed { markdown, output, .. }) => {
            assert_eq!(markdown.as_deref(), Some("rendered summary"));
            assert_eq!(*output, json(r#"{"result": "ok"}"#));
        }
        other => panic!("expected Completed event, got {other:?}"),
    }
}

#[test]
fn nats_client_session_test_render_tool_results_entry() {
    check_render_tool_results(Numbering::Headed);
}

#[test]
fn nats_session_test_render_tool_results_entry() {
    check_render_tool_results(Numbering::Transcript);
}

#[test]
fn replay_emits_messages_and_tool_events_in_order() {
    let entries = vec![
        (10, message(MessageRole::User, "read README.md")),
        (
            42,
            SessionLogEntry::ToolCalls {
                text: "reading file".to_string(),
                thought: Some("not part of the existing text mapping".to_string()),
                calls: vec![ToolCall {
                    name: "read".to_string(),
                    arguments: json(r#"{"path": "README.md"}"#),
                    id: Some("read-call".to_string()),
                    thought_signature: None,
                }],
                fence_token: Some(7),
            },
        ),
        (
            43,
            SessionLogEntry::ToolResults {
                results: vec![ToolOutput {
                    id: Some("read-call".to_string()),
                    name: "read".to_string(),
                    output: json(r##"{"text": "# Harnx\n"}"##),
                    markdown: Some("# Harnx".to_string()),
                    content: vec![],
                    switch_agent: None,
                    sub_agent_progress: None,
                }],
            },
        ),
        (99, message(MessageRole::Assistant, "done")),
    ];

    assert_replay(
        &entries,
        vec![
            user_event("read README.md"),
            seq_event(0),
            AgentEvent::Tool(ToolEvent::Started {
                id: "read-call".to_string(),
                name: "read".to_string(),
                kind: ToolKind::Other,
                markdown: None,
                input: json(r#"{"path": "README.md"}"#),
                locations: vec![],
            }),
            AgentEvent::Model(ModelEvent::MessageChunk {
                blocks: vec![ContentBlock::Text("reading file".to_string())],
            }),
            seq_event(1),
            AgentEvent::Tool(ToolEvent::Completed {
                id: "read-call".to_string(),
                output: json(r##"{"text": "# Harnx\n"}"##),
                markdown: Some("# Harnx".to_string()),
            }),
            final_event("done"),
            seq_event(3),
        ],
    );
}

#[test]
fn replay_control_entries_emit_nothing() {
    let entries: Vec<(u64, SessionLogEntry)> = vec![
        SessionLogEntry::TurnEnd { through_seq: 1, fence_token: 7 },
        SessionLogEntry::SubAgentStarted {
            agent: "child-agent".to_string(),
            session_id: "child-session".to_string(),
            invocation_id: None,
            tool_call_id: None,
        },
        SessionLogEntry::HandoffCommitted {
            target_agent: "next-agent".to_string(),
            target_session_id: "next-session".to_string(),
            handoff_tool_call_id: None,
        },
        SessionLogEntry::HitlApprovalRequested {
            tool_call_id: "read-call".to_string(),
            summary: "approve read".to_string(),
            fence_token: 7,
        },
        SessionLogEntry::HitlApprovalDecision {
            tool_call_id: "read-call".to_string(),
            approved: true,
            note: None,
            fence_token: 7,
        },
        SessionLogEntry::DataUrls { urls: vec![] },
        SessionLogEntry::Compress { prompt: "summary".to_string() },
        SessionLogEntry::Clear,
        SessionLogEntry::EditEntries { from: 1, to: 1, replacements: vec![] },
        SessionLogEntry::Rewind { after_seq: 1 },
        SessionLogEntry::Unknown,
    ]
    .into_iter()
    .enumerate()
    .map(|(seq, entry)| (seq as u64, entry))
    .collect();

    assert_replay(&entries, vec![]);
}

#[test]
fn replay_empty_entries_emit_nothing() {
    assert_replay(&[], vec![]);
}

#[test]
fn replay_keeps_cancellation_and_error_notices() {
    let entries = vec![
        (
            5,
            SessionLogEntry::Cancel { fence_token: 7, cancellation_id: None, requested_by: None },
        ),
        (
            6,
            SessionLogEntry::Error { message: "worker failed".to_string(), fence_token: 7 },
        ),
    ];
    assert_replay(
        &entries,
        vec![
            AgentEvent::Notice(NoticeEvent::Warning("Session cancelled".to_string())),
            AgentEvent::Notice(NoticeEvent::Error("worker failed".to_string())),
        ],
    );
}

#[test]
fn replay_keeps_precompaction_text_but_numbers_only_active_window() {
    let entries = vec![
        (10, message(MessageRole::User, "old prompt")),
        (20, message(MessageRole::Assistant, "old reply")),
        (30, SessionLogEntry::Compress { prompt: "summary".to_string() }),
        (40, message(MessageRole::User, "new prompt")),
        (50, message(MessageRole::Assistant, "new reply")),
    ];
    assert_replay(
        &entries,
        vec![
            user_event("old prompt"),
            final_event("old reply"),
            user_event("new prompt"),
            seq_event(0),
            final_event("new reply"),
            seq_event(1),
        ],
    );
}

#[test]
fn replay_effective_entries_keeps_replacement_order_and_shared_physical_sequences() {
    let entries = vec![
        (1, message(MessageRole::User, "original prompt")),
        (2, message(MessageRole::Assistant, "retained reply")),
        (
            8,
            SessionLogEntry::EditEntries {
                from: 1,
                to: 1,
                replacements: vec![
                    Replacement::Entry(message(MessageRole::User, "replacement prompt")),
                    Replacement::Entry(message(MessageRole::Assistant, "replacement reply")),
                ],
            },
        ),
    ];
    let effective = apply_log_mutations(&entries).unwrap();
    assert_eq!(effective.iter().map(|(seq, _)| *seq).collect::<Vec<_>>(), vec![8, 8, 2]);
    let sink = replay(Numbering::Transcript, &effective, None);
    assert_eq!(
        shown(&sink),
        shown(&[
            user_event("replacement prompt"),
            seq_event(0),
            final_event("replacement reply"),
            seq_event(1),
            final_event("retained reply"),
            seq_event(2),
        ])
    );
}

#[test]
fn should_render_dedup_rule() {
    assert!(should_render(15, 10), "newer advisory must render");
    assert!(
        should_render(10, 10),
        "live advisory following the client's last durable seq must render"
    );
    assert!(!should_render(5, 10), "stale advisory must not render");

    let env = AdvisoryEnvelope::new(15, AgentEvent::Notice(NoticeEvent::Info("test".to_string())));
    assert_eq!(env.after_seq, 15);
}

#[test]
fn frontend_drops_live_events_below_cancel_seq() {
    let (mut state, reader) = LiveEventState::new();
    let env = |after_seq| AdvisoryEnvelope::new(after_seq, AgentEvent::Turn(TurnEvent::Started));
    assert!(state.should_render(reader, &env(41), 40));
    state.accept_interrupt(42);
    assert!(!state.should_render(reader, &env(41), 40));
    // The fence drops what the interrupt overtook, not the output of the interruption itself.
    assert!(state.should_render(reader, &env(42), 40));
    assert!(state.should_render(reader, &env(43), 40));
}

#[test]
fn fork_keeps_the_cancel_fence_but_is_a_new_attachment() {
    let (mut state, first) = LiveEventState::new();
    state.accept_interrupt(10);
    let forked = state.fork();
    assert!(!forked.same_attachment(&first));
    assert!(!state.should_render(
        forked,
        &AdvisoryEnvelope::new(9, AgentEvent::Turn(TurnEvent::Started)),
        0
    ));
}

#[test]
fn a_replaced_reader_is_silent_and_the_fence_never_sinks() {
    let (mut state, first) = LiveEventState::new();
    let second = state.fork();
    let env = |after_seq| AdvisoryEnvelope::new(after_seq, AgentEvent::Turn(TurnEvent::Started));
    state.retire(first);
    assert!(!state.should_render(first, &env(50), 0));
    assert!(state.should_render(second, &env(50), 0));
    state.accept_interrupt(60);
    state.accept_interrupt(10);
    assert!(!state.should_render(second, &env(59), 0));
    assert!(state.should_render(second, &env(60), 0));
    assert!(!state.should_render(second, &env(60), 61));
}

#[test]
fn final_flush_drops_events_at_or_before_the_cancel_sequence_before_any_decoration() {
    let (mut live, reader) = LiveEventState::new();
    let queued = || -> VecDeque<AdvisoryEnvelope> {
        vec![
            final_event("old"),
            AgentEvent::Tool(ToolEvent::Completed {
                id: "call".to_string(),
                output: serde_json::Value::String("old".to_string()),
                markdown: None,
            }),
            AgentEvent::Tool(ToolEvent::Progress {
                id: "call".to_string(),
                text: "old".to_string(),
            }),
            AgentEvent::Turn(TurnEvent::Ended),
        ]
        .into_iter()
        .map(|event| AdvisoryEnvelope::new(5, event))
        .collect()
    };
    let mut sink: Vec<AgentEvent> = Vec::new();
    let mut seqs: HashSet<usize> = HashSet::new();
    live.accept_interrupt(10);
    for mode in [AdvisoryFlush::Live, AdvisoryFlush::Final] {
        let mut pending = queued();
        flush_pending_advisories(
            Numbering::Transcript,
            &mut pending,
            None,
            &mut sink,
            &mut seqs,
            mode,
            &live,
            reader,
            0,
        );
        assert!(pending.is_empty());
        assert!(sink.is_empty());
        assert!(seqs.is_empty(), "stale event must not assign a current transcript seq");
    }
}

#[test]
fn historical_replay_still_renders_committed_old_output() {
    let history =
        vec![(1, message_with_id(Some("old"), MessageRole::Assistant, "committed before stop"))];
    let rows = rows_of(&history);
    let sink = replay(Numbering::Transcript, &rows, None);
    assert!(sink.iter().any(|event| matches!(event,
        AgentEvent::Model(ModelEvent::Final { output, .. }) if output == "committed before stop")));
}

#[test]
fn a_live_advisory_is_numbered_before_it_is_shown() {
    let (live, reader) = LiveEventState::new();
    let history = test_entries(&[
        (1, MessageRole::User, "ask"),
        (2, MessageRole::Assistant, "answer"),
    ]);
    let rows = rows_of(&history);
    let mut sink: Vec<AgentEvent> = Vec::new();
    let mut emitted: HashSet<usize> = HashSet::new();
    let mut pending = VecDeque::from(vec![AdvisoryEnvelope::new(
        2,
        AgentEvent::Notice(NoticeEvent::Info("working".to_string())),
    )]);
    flush_pending_advisories(
        Numbering::Transcript,
        &mut pending,
        Some(&rows),
        &mut sink,
        &mut emitted,
        AdvisoryFlush::Live,
        &live,
        reader,
        1,
    );
    assert!(pending.is_empty());
    assert_eq!(assigned(&sink), vec![1]);
    assert_eq!(
        shown(&sink[sink.len() - 1..]),
        shown(&[AgentEvent::Notice(NoticeEvent::Info("working".to_string()))])
    );
}

#[test]
fn a_numbered_flush_delivers_everything_once_and_in_order() {
    let (live, reader) = LiveEventState::new();
    let history =
        test_entries(&[(1, MessageRole::User, "ask"), (2, MessageRole::Assistant, "answer")]);
    let rows = rows_of(&history);
    let info = |text: &str| AgentEvent::Notice(NoticeEvent::Info(text.to_string()));
    let mut sink: Vec<AgentEvent> = Vec::new();
    let mut emitted: HashSet<usize> = HashSet::new();
    let mut pending = VecDeque::from(vec![
        AdvisoryEnvelope::new(1, info("a")),
        AdvisoryEnvelope::new(1, info("b")),
        AdvisoryEnvelope::new(
            2,
            AgentEvent::Session(SessionEvent::LogSeqAssigned { seq: 99 }),
        ),
        AdvisoryEnvelope::new(2, info("c")),
        AdvisoryEnvelope::new(2, info("a")),
    ]);
    flush_pending_advisories(
        Numbering::Transcript,
        &mut pending,
        Some(&rows),
        &mut sink,
        &mut emitted,
        AdvisoryFlush::Live,
        &live,
        reader,
        1,
    );
    assert_eq!(assigned(&sink), vec![0, 1]);
    let said: Vec<AgentEvent> = sink
        .into_iter()
        .filter(|event| {
            !matches!(event, AgentEvent::Session(SessionEvent::LogSeqAssigned { .. }))
        })
        .collect();
    assert_eq!(shown(&said), shown(&[info("a"), info("b"), info("c"), info("a")]));
}

#[test]
fn events_have_their_subject_and_their_place() {
    assert_eq!(events_subject("abc"), "sessions.abc.events");
    let mut after = AfterSeq { seq: 3 };
    after.note_durable_seq(9);
    after.note_durable_seq(4);
    assert_eq!(after, AfterSeq { seq: 9 });
    assert_eq!(last_durable_seq(&[]), 0);
    assert_eq!(last_durable_seq(&test_entries(&[(4, MessageRole::User, "x")])), 4);
    assert!(should_skip_replay_entry(3, 3));
    assert!(!should_skip_replay_entry(2, 3));
}

#[test]
fn edits_and_rewinds_change_what_counts() {
    let entries = vec![
        (1, message(MessageRole::User, "one")),
        (2, message(MessageRole::Assistant, "two")),
        (3, message(MessageRole::User, "three")),
        (4, SessionLogEntry::Rewind { after_seq: 2 }),
        (5, message(MessageRole::User, "five")),
    ];
    let seqs: Vec<u64> = apply_log_mutations(&entries).unwrap().iter().map(|r| r.0).collect();
    assert_eq!(seqs, vec![1, 2, 5]);

    let plain = test_entries(&[(1, MessageRole::User, "one"), (2, MessageRole::User, "two")]);
    let seqs: Vec<u64> = apply_log_mutations(&plain).unwrap().iter().map(|r| r.0).collect();
    assert_eq!(seqs, vec![1, 2]);

    let broken = vec![
        (1, message(MessageRole::User, "one")),
        (
            7,
            SessionLogEntry::EditEntries {
                from: 1,
                to: 1,
                replacements: vec![Replacement::Malformed("?".to_string())],
            },
        ),
    ];
    assert!(matches!(
        apply_log_mutations(&broken),
        Err(MutationError::MalformedReplacement(7))
    ));
}
