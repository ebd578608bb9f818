use harnx_runtime::events::{AgentEvent, ModelEvent, NoticeEvent, SessionEvent, TurnEvent};
use harnx_runtime::nats_event_sink::AdvisoryEnvelope;
use harnx_runtime::replay::Numbering;
use harnx_runtime::session_log::{MessageContent, MessageRole, SessionLogEntry};
use harnx_runtime::turn::{FinalReload, TurnDriver};

fn message(role: MessageRole, text: &str) -> SessionLogEntry {
    SessionLogEntry::Message {
        id: None,
        role,
        content: MessageContent::Text(text.to_string()),
        fence_token: None,
    }
}

fn answered() -> Vec<(u64, SessionLogEntry)> {
    vec![
        (1, message(MessageRole::User, "ask")),
        (2, message(MessageRole::Assistant, "answer")),
        (3, SessionLogEntry::TurnEnd { through_seq: 1, fence_token: 1 }),
    ]
}

fn driver() -> TurnDriver {
    TurnDriver::new(Numbering::Transcript, "s".to_string(), 1, "m".to_string(), 1)
}

fn assigned(events: &[AgentEvent]) -> Vec<usize> {
    events
        .iter()
        .filter_map(|event| match event {
            AgentEvent::Session(SessionEvent::LogSeqAssigned { seq }) => Some(*seq),
            _ => None,
        })
        .collect()
}

#[test]
fn a_turn_ends_with_the_log() {
    let mut sink = Vec::new();
    let mut turn = driver();
    turn.reload(vec![(1, message(MessageRole::User, "ask"))], &mut sink);
    assert!(!turn.is_complete());
    turn.advise(AdvisoryEnvelope::new(1, AgentEvent::Turn(TurnEvent::Started)), &mut sink);
    turn.reload(answered(), &mut sink);
    assert!(turn.is_complete());
    let result = turn.finish(None, false, &mut sink).unwrap();
    assert_eq!(result.response.as_deref(), Some("answer"));
    assert_eq!(result.error, None);
    assert!(!result.was_cancelled);
    assert_eq!((result.user_msg_seq, result.user_msg_id.as_str()), (1, "m"));
    assert_eq!(assigned(&sink), vec![0, 1]);
}

#[test]
fn a_failure_is_reported_once() {
    let failed = || {
        vec![
            (1, message(MessageRole::User, "ask")),
            (2, SessionLogEntry::Error { message: "broken".to_string(), fence_token: 1 }),
        ]
    };
    let errors = |sink: &[AgentEvent]| {
        sink.iter()
            .filter(|e| matches!(e, AgentEvent::Notice(NoticeEvent::Error(_))))
            .count()
    };

    let mut sink = Vec::new();
    let result = driver()
        .finish(Some(FinalReload::Loaded(failed())), true, &mut sink)
        .unwrap();
    assert_eq!(result.error.as_deref(), Some("broken"));
    assert!(result.was_cancelled);
    assert_eq!(errors(&sink), 1);

    let mut sink = Vec::new();
    let mut told = driver();
    let event = AgentEvent::Model(ModelEvent::Error("broken".to_string()));
    told.advise(AdvisoryEnvelope::new(1, event), &mut sink);
    let result = told
        .finish(Some(FinalReload::Loaded(failed())), false, &mut sink)
        .unwrap();
    assert_eq!(result.error.as_deref(), Some("broken"));
    assert_eq!(errors(&sink), 0);
}

#[test]
fn what_was_received_is_shown_though_the_log_is_out_of_reach() {
    let mut sink = Vec::new();
    let mut turn = driver();
    let notice = AgentEvent::Notice(NoticeEvent::Warning("exhausted retries".to_string()));
    turn.advise(AdvisoryEnvelope::new(1, notice), &mut sink);
    assert!(sink.is_empty());
    let result = turn.finish(Some(FinalReload::Failed("offline".to_string())), false, &mut sink);
    assert_eq!(result.unwrap_err(), "offline");
    assert_eq!(sink.len(), 1);
}

#[test]
fn an_interrupt_drops_what_it_overtook() {
    let mut sink = Vec::new();
    let mut turn = driver();
    let notice = |text: &str| AgentEvent::Notice(NoticeEvent::Info(text.to_string()));
    turn.advise(AdvisoryEnvelope::new(2, notice("old")), &mut sink);
    turn.accept_interrupt(5);
    turn.cancel();
    let result = turn
        .finish(Some(FinalReload::Loaded(answered())), false, &mut sink)
        .unwrap();
    assert!(result.was_cancelled);
    assert!(!sink.iter().any(|e| matches!(e, AgentEvent::Notice(_))));
}

#[test]
fn an_orphaned_turn_says_why() {
    let mut sink = Vec::new();
    let mut turn = TurnDriver::new(Numbering::Headed, "s".to_string(), 1, "m".to_string(), 1);
    turn.orphan("worker is gone".to_string());
    assert!(turn.is_complete());
    let result = turn.finish(None, false, &mut sink).unwrap();
    assert_eq!(result.error.as_deref(), Some("worker is gone"));
}

#[test]
fn an_answer_outlives_its_worker() {
    let mut sink = Vec::new();
    let mut turn = driver();
    let log = vec![
        (1, message(MessageRole::User, "ask")),
        (2, message(MessageRole::Assistant, "answer")),
    ];
    turn.reload(log, &mut sink);
    assert!(!turn.is_complete());
    turn.orphan("worker is gone".to_string());
    let result = turn.finish(None, false, &mut sink).unwrap();
    assert_eq!(result.response.as_deref(), Some("answer"));
    assert_eq!(result.error, None);
}
