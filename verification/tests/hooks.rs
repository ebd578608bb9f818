use harnx_runtime::nats_hook_provider::{
    append_pending_context, continue_outcome, decision_notice, hook_session_id, hook_subject,
    hook_timeout_secs, is_registration_key, is_text_before, matching_hooks, session_of_member,
    take_registration, unavailable_notice, unavailable_outcome, unserializable_notice,
    with_pre_tool_input, DiscoveredHook, FailPolicy, HookChain, HookEvent, HookMode, HookOutcome,
    HookReply, HookRequestError, HookResult, HookResultControl, HookSpec,
};

fn json(text: &str) -> serde_json::Value {
    serde_json::from_str(text).unwrap()
}

fn spec(event: &str, matcher: Option<&str>, priority: i32) -> HookSpec {
    HookSpec {
        event: event.to_string(),
        matcher: matcher.map(str::to_string),
        priority,
        timeout_secs: None,
        fail_policy: FailPolicy::Closed,
    }
}

fn hook(server: &str, event: &str, matcher: Option<&str>, priority: i32) -> DiscoveredHook {
    DiscoveredHook { server: server.to_string(), spec: spec(event, matcher, priority) }
}

/// Which matchers accept a tool, for the few expressions that these tests use.
fn accepted(hooks: &[DiscoveredHook], tool: &str) -> Vec<bool> {
    hooks
        .iter()
        .map(|hook| match &hook.spec.matcher {
            Some(m) => m.trim_start_matches('^').trim_end_matches('$') == tool,
            None => true,
        })
        .collect()
}

fn with_context(context: &str, message: &str) -> HookResult {
    HookResult {
        additional_context: Some(context.to_string()),
        system_message: Some(message.to_string()),
        ..HookResult::empty()
    }
}

fn goes_on(result: HookResult) -> HookReply {
    HookReply::Answered(HookOutcome { control: HookResultControl::Continue, result })
}

fn blocks(reason: &str) -> HookReply {
    HookReply::Answered(HookOutcome {
        control: HookResultControl::Block { reason: reason.to_string() },
        result: HookResult::empty(),
    })
}

fn mutates(text: &str) -> HookReply {
    HookReply::Answered(continue_outcome(Some(json(text))))
}

fn non_tool_events() -> Vec<HookEvent> {
    vec![
        HookEvent::SessionStart { source: "cli".to_string(), model: "model".to_string() },
        HookEvent::SessionEnd { reason: "exit".to_string() },
        HookEvent::UserPromptSubmit { prompt: "hello".to_string() },
        HookEvent::Stop {
            stop_hook_active: true,
            last_assistant_message: Some("done".to_string()),
        },
        HookEvent::StopFailure {
            error: "failed".to_string(),
            error_type: "api_error".to_string(),
        },
        HookEvent::InstructionsLoaded {
            file_path: "/tmp/PROJECT.md".to_string(),
            memory_type: "Project".to_string(),
            load_reason: "session_start".to_string(),
        },
        HookEvent::CwdChanged {
            old_cwd: "/tmp/old".to_string(),
            new_cwd: "/tmp/new".to_string(),
        },
    ]
}

#[test]
fn matcher_filter_selects_event_and_bare_tool_name() {
    let hooks = vec![
        hook("exact", "PreToolUse", Some("^exec$"), 0),
        hook("prefixed", "PreToolUse", Some("^mcp__exec$"), 0),
        hook("other-event", "PostToolUse", Some("^exec$"), 0),
        hook("all-tools", "PreToolUse", None, 0),
    ];
    let flags = accepted(&hooks, "exec");
    let selected = matching_hooks(&hooks, "PreToolUse", Some(&flags));
    let servers: Vec<_> = selected.iter().map(|hook| hook.server.as_str()).collect();
    assert_eq!(servers, ["all-tools", "exact"]);

    let non_tool_hooks = vec![
        hook("unmatched", "SessionStart", Some("cli"), 0),
        hook("matched", "SessionStart", None, 0),
    ];
    let selected = matching_hooks(&non_tool_hooks, "SessionStart", None);
    assert_eq!(selected.len(), 1);
    assert_eq!(selected[0].server, "matched");
}

#[test]
fn priority_sort_uses_server_then_registry_order_as_tiebreakers() {
    let hooks = vec![
        hook("zeta", "PreToolUse", None, 10),
        hook("alpha", "PreToolUse", None, 10),
        hook("alpha", "PreToolUse", None, 10),
        hook("later", "PreToolUse", None, 20),
        hook("first", "PreToolUse", None, -1),
    ];
    let flags = accepted(&hooks, "exec");
    let selected = matching_hooks(&hooks, "PreToolUse", Some(&flags));
    let positions: Vec<_> = selected
        .iter()
        .map(|hook| (hook.server.as_str(), hook.spec.priority))
        .collect();
    assert_eq!(
        positions,
        [("first", -1), ("alpha", 10), ("alpha", 10), ("zeta", 10), ("later", 20)]
    );
    assert!(std::ptr::eq(selected[1], &hooks[1]));
    assert!(std::ptr::eq(selected[2], &hooks[2]));
}

/// Asks the hooks of an event in turn, with these replies, as long as the chain goes on: what it
/// came to, how many were asked, and the inputs that they were asked about.
fn ask_in_turn(
    hooks: &[DiscoveredHook],
    mut event: HookEvent,
    replies: Vec<HookReply>,
) -> (HookOutcome, usize, Vec<serde_json::Value>) {
    let flags = event.matcher_text().map(|text| accepted(hooks, text));
    let mut chain = HookChain::new(event.mode());
    let mut replies = replies.into_iter();
    let mut calls = 0;
    let mut inputs = Vec::new();
    for hook in matching_hooks(hooks, event.event_name(), flags.as_deref()) {
        calls += 1;
        if let HookEvent::PreToolUse { tool_input, .. } = &event {
            inputs.push(tool_input.clone());
        }
        let reply = replies.next().expect("a hook was asked that has no reply");
        if let Some(outcome) = chain.reply(&hook.server, hook.spec.fail_policy, reply) {
            return (outcome, calls, inputs);
        }
        if let Some(input) = chain.input() {
            event = with_pre_tool_input(event, input.clone());
        }
    }
    (chain.finish(), calls, inputs)
}

#[test]
fn pre_chain_applies_mutation_before_block_and_short_circuits() {
    let hooks = vec![
        hook("one", "PreToolUse", None, 0),
        hook("two", "PreToolUse", None, 1),
        hook("three", "PreToolUse", None, 2),
    ];
    let event = HookEvent::PreToolUse {
        tool_name: "exec".to_string(),
        tool_input: json(r#"{"step": 0}"#),
        tool_use_id: "call".to_string(),
    };
    let (outcome, calls, inputs) =
        ask_in_turn(&hooks, event, vec![mutates(r#"{"step": 1}"#), blocks("denied")]);
    assert!(matches!(outcome.control, HookResultControl::Block { reason } if reason == "denied"));
    assert_eq!(calls, 2);
    assert_eq!(inputs, [json(r#"{"step": 0}"#), json(r#"{"step": 1}"#)]);
}

#[test]
fn pre_chain_returns_last_of_composed_mutations() {
    let hooks = vec![hook("one", "PreToolUse", None, 0), hook("two", "PreToolUse", None, 1)];
    let event = HookEvent::PreToolUse {
        tool_name: "exec".to_string(),
        tool_input: json(r#"{"step": "initial"}"#),
        tool_use_id: "call".to_string(),
    };
    let replies = vec![mutates(r#"{"step": "a"}"#), mutates(r#"{"step": "b"}"#)];
    let (outcome, _, inputs) = ask_in_turn(&hooks, event, replies);
    assert_eq!(outcome.result.mutated_tool_input, Some(json(r#"{"step": "b"}"#)));
    assert_eq!(inputs, [json(r#"{"step": "initial"}"#), json(r#"{"step": "a"}"#)]);
}

#[test]
fn every_non_tool_event_dispatches_to_its_nats_subject() {
    for event in non_tool_events() {
        let event_name = event.event_name().to_string();
        let hooks = vec![hook("server", &event_name, None, 0)];
        assert!(event.matcher_text().is_none());
        let replies = vec![HookReply::Answered(continue_outcome(None))];
        let (outcome, calls, _) = ask_in_turn(&hooks, event, replies);
        assert!(matches!(outcome.control, HookResultControl::Continue));
        assert_eq!(calls, 1, "{event_name}");
        let subject = hook_subject("test", "server", &event_name);
        assert!(subject.ends_with(&format!(".hook.server.{event_name}")));
    }
    assert_eq!(
        hook_subject("test", "lifecycle", "SessionEnd"),
        "harnx.v1.test.hook.lifecycle.SessionEnd"
    );
}

#[test]
fn blocking_event_block_short_circuits_later_hooks() {
    let hooks = vec![
        hook("one", "UserPromptSubmit", None, 0),
        hook("two", "UserPromptSubmit", None, 1),
    ];
    let event = HookEvent::UserPromptSubmit { prompt: "hello".to_string() };
    let (outcome, calls, _) = ask_in_turn(&hooks, event, vec![blocks("denied")]);
    assert!(matches!(outcome.control, HookResultControl::Block { .. }));
    assert_eq!(calls, 1);
}

#[test]
fn blocking_event_preserves_context_channels_and_appends_both_to_pending() {
    let mut chain = HookChain::new(HookMode::Blocking);
    assert!(chain
        .reply("server", FailPolicy::Closed, goes_on(with_context("context", "system")))
        .is_none());
    let outcome = chain.finish();
    assert_eq!(outcome.result.additional_context.as_deref(), Some("context"));
    assert_eq!(outcome.result.system_message.as_deref(), Some("system"));
    let pending = append_pending_context(
        Some("existing".to_string()),
        &outcome.result.additional_context,
        &outcome.result.system_message,
    );
    assert_eq!(pending.as_deref(), Some("existing\ncontext\nsystem"));
}

#[test]
fn dispatch_event_queues_aggregated_pre_tool_context_for_next_turn() {
    let mut chain = HookChain::new(HookMode::PreTool);
    let mut first = with_context("context-one", "system-one");
    first.mutated_tool_input = Some(json(r#"{"step": 1}"#));
    first.resume = Some(true);
    let mut second = with_context("context-two", "system-two");
    second.mutated_tool_input = Some(json(r#"{"step": 2}"#));
    assert!(chain.reply("first", FailPolicy::Closed, goes_on(first)).is_none());
    assert_eq!(chain.input(), Some(&json(r#"{"step": 1}"#)));
    assert!(chain.reply("second", FailPolicy::Closed, goes_on(second)).is_none());
    let outcome = chain.finish();
    assert_eq!(
        outcome.result.additional_context.as_deref(),
        Some("context-one\ncontext-two")
    );
    assert_eq!(
        outcome.result.system_message.as_deref(),
        Some("system-one\nsystem-two")
    );
    assert_eq!(outcome.result.mutated_tool_input, Some(json(r#"{"step": 2}"#)));
    assert_eq!(outcome.result.resume, Some(true));
    let pending = append_pending_context(
        Some("existing".to_string()),
        &outcome.result.additional_context,
        &outcome.result.system_message,
    );
    assert_eq!(
        pending.as_deref(),
        Some("existing\ncontext-one\ncontext-two\nsystem-one\nsystem-two")
    );
}

#[test]
fn pre_tool_ask_survives_nats_dispatch_for_approval_flow() {
    let mut chain = HookChain::new(HookMode::PreTool);
    let ask = HookReply::Answered(HookOutcome {
        control: HookResultControl::Ask { reason: Some("approval needed".to_string()) },
        result: HookResult::empty(),
    });
    let outcome = chain.reply("approval", FailPolicy::Closed, ask).unwrap();
    assert!(matches!(
        outcome.control,
        HookResultControl::Ask { reason } if reason.as_deref() == Some("approval needed")
    ));
}

#[test]
fn an_unreachable_hook_blocks_only_where_it_fails_closed() {
    let mut chain = HookChain::new(HookMode::PreTool);
    assert!(chain.reply("open", FailPolicy::Open, HookReply::Unavailable).is_none());
    let outcome = chain.reply("closed", FailPolicy::Closed, HookReply::Unavailable).unwrap();
    assert!(matches!(
        outcome.control,
        HookResultControl::Block { reason } if reason == "closed hook unavailable"
    ));
    assert!(chain.reply("open", FailPolicy::Open, HookReply::Unserializable).is_some());
    assert!(matches!(
        unavailable_outcome("s", FailPolicy::Open).control,
        HookResultControl::Continue
    ));
}

#[test]
fn events_other_than_a_coming_call_keep_their_input() {
    let mut chain = HookChain::new(HookMode::Blocking);
    assert!(chain.reply("one", FailPolicy::Closed, mutates("1")).is_none());
    assert!(chain.input().is_none());
    assert!(chain.finish().result.mutated_tool_input.is_none());

    let event = with_pre_tool_input(
        HookEvent::PreToolUse {
            tool_name: "exec".to_string(),
            tool_input: json("0"),
            tool_use_id: "tool-1".to_string(),
        },
        json("1"),
    );
    assert!(matches!(&event, HookEvent::PreToolUse { tool_input, .. } if *tool_input == json("1")));
    assert_eq!(event.matcher_text(), Some("exec"));
    assert_eq!(event.mode(), HookMode::PreTool);
    let other =
        with_pre_tool_input(HookEvent::SessionEnd { reason: "exit".to_string() }, json("1"));
    assert!(matches!(other, HookEvent::SessionEnd { .. }));
}

#[test]
fn empty_notes_add_nothing_to_what_waits() {
    assert_eq!(append_pending_context(None, &None, &None), None);
    assert_eq!(
        append_pending_context(None, &None, &Some("note".to_string())).as_deref(),
        Some("note")
    );
    assert_eq!(
        append_pending_context(Some("kept".to_string()), &Some(String::new()), &None).as_deref(),
        Some("kept")
    );
}

#[test]
fn a_hook_request_says_whose_it_is() {
    let payload = br#"{"session_id": "s-1", "cwd": "/tmp"}"#;
    assert_eq!(hook_session_id(false, payload), Ok("s-1".to_string()));
    assert_eq!(hook_session_id(true, payload), Err(HookRequestError::Interrupted));
    assert_eq!(
        hook_session_id(false, br#"{"cwd": "/tmp"}"#),
        Err(HookRequestError::MissingSession)
    );
    assert_eq!(
        hook_session_id(false, br#"{"session_id": 7}"#),
        Err(HookRequestError::MissingSession)
    );
    let malformed = hook_session_id(false, b"not json").unwrap_err();
    assert_eq!(malformed.message(), "expected ident at line 1 column 2");
    assert_eq!(hook_session_id(true, b"not json"), Err(HookRequestError::Interrupted));
    assert_eq!(session_of_member(false, Ok(Some("x".to_string()))), Ok("x".to_string()));
    assert_eq!(session_of_member(false, Ok(None)), Err(HookRequestError::MissingSession));
    assert_eq!(
        session_of_member(false, Err("bad".to_string())),
        Err(HookRequestError::Malformed("bad".to_string()))
    );
    assert_eq!(HookRequestError::Interrupted.message(), "hook invocation interrupted");
    assert_eq!(
        HookRequestError::MissingSession.message(),
        "hook payload missing session_id"
    );
}

#[test]
fn servers_register_under_their_own_key() {
    assert!(is_registration_key("inst.server", "inst"));
    assert!(!is_registration_key("instance.server", "inst"));
    let mut found = Vec::new();
    take_registration(&mut found, "inst.a", "inst.b", "a", vec![spec("Stop", None, 0)]);
    assert!(found.is_empty());
    take_registration(
        &mut found,
        "inst.a",
        "inst.a",
        "a",
        vec![spec("Stop", None, 0), spec("SessionEnd", None, 1)],
    );
    assert_eq!(found, vec![hook("a", "Stop", None, 0), hook("a", "SessionEnd", None, 1)]);
}

#[test]
fn notices_and_time_limits_of_hooks() {
    assert_eq!(
        unavailable_notice("srv", FailPolicy::Closed, "timeout"),
        "srv hook unavailable (fail-closed): timeout"
    );
    assert_eq!(
        unavailable_notice("srv", FailPolicy::Open, "timeout"),
        "srv hook unavailable (fail-open): timeout"
    );
    assert_eq!(
        unserializable_notice("srv", "bad"),
        "srv hook request could not be serialized: bad"
    );
    assert_eq!(
        decision_notice("srv", "Stop", &HookResultControl::Continue, "Continue"),
        None
    );
    let block = HookResultControl::Block { reason: "no".to_string() };
    assert_eq!(
        decision_notice("srv", "PostToolUse", &block, "Block").as_deref(),
        Some("srv hook returned Block during best-effort PostToolUse dispatch")
    );
    let mut limited = spec("Stop", None, 0);
    let default = hook_timeout_secs(&limited);
    limited.timeout_secs = Some(default + 1);
    assert_eq!(hook_timeout_secs(&limited), default + 1);
    assert!(is_text_before("alpha", "beta"));
    assert!(is_text_before("alpha", "alphabet"));
    assert!(!is_text_before("alpha", "alpha"));
}
