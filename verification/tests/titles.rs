use harnx_runtime::config::session::{Message, Model, Session, SessionContent};
use harnx_runtime::config::session_ops_title::{
    build_title_transcript, first_line, handle_title_result, labeled_section, post_process_title,
    require_title_agent, resolve_package_relative_name, resolve_title_agent_name,
    strip_surrounding_quotes, strip_title_label, title_agent_lookup_name, truncate_chars,
    TitleAgentResolution, TitleError, MAX_TITLE_CHARS, MAX_TRANSCRIPT_CHARS,
};
use harnx_runtime::config::settings::SettingError;
use harnx_runtime::config::Config;
use harnx_runtime::events::{AgentEvent, SessionEvent};
use harnx_runtime::session_log::{MessageContent, MessageContentPart, MessageRole};

fn user(text: &str) -> Message {
    Message::new(MessageRole::User, text.to_string())
}

fn assistant(text: &str) -> Message {
    Message::new(MessageRole::Assistant, text.to_string())
}

fn session_with(messages: Vec<Message>) -> Session {
    let mut session = Session::new("s", Model::new("m"));
    session.messages = messages;
    session
}

#[test]
fn global_title_agent_resolves_top_level_even_inside_a_package_agent() {
    let (name, resolved) = resolve_title_agent_name(None, Some("title-agent"), Some("pantheon"))
        .expect("global title agent should resolve");
    assert_eq!(name, "title-agent");
    assert_eq!(resolved, "title-agent", "global name must stay top-level");
}

#[test]
fn agent_frontmatter_title_agent_resolves_package_relative() {
    let (name, resolved) = resolve_title_agent_name(Some("peer"), None, Some("pkg"))
        .expect("frontmatter title agent should resolve");
    assert_eq!(name, "peer");
    assert_eq!(resolved, "pkg/peer");
}

#[test]
fn agent_frontmatter_takes_precedence_over_global() {
    let (name, resolved) =
        resolve_title_agent_name(Some("peer"), Some("title-agent"), Some("pkg")).unwrap();
    assert_eq!(name, "peer");
    assert_eq!(resolved, "pkg/peer");
}

#[test]
fn explicitly_qualified_global_title_agent_is_preserved() {
    let (name, resolved) =
        resolve_title_agent_name(None, Some("otherpkg/foo"), Some("pkg")).unwrap();
    assert_eq!(name, "otherpkg/foo");
    assert_eq!(resolved, "otherpkg/foo");
}

#[test]
fn leading_slash_global_title_agent_escapes_to_top_level() {
    let (name, resolved) = resolve_title_agent_name(None, Some("/foo"), Some("pkg")).unwrap();
    assert_eq!(name, "/foo");
    assert_eq!(resolved, "foo");
}

#[test]
fn no_title_agent_configured_returns_none() {
    assert!(resolve_title_agent_name(None, None, Some("pkg")).is_none());
    assert!(resolve_title_agent_name(None, None, None).is_none());
}

#[test]
fn top_level_active_agent_keeps_global_name_bare() {
    let (name, resolved) = resolve_title_agent_name(None, Some("title-agent"), None).unwrap();
    assert_eq!(name, "title-agent");
    assert_eq!(resolved, "title-agent");
}

#[test]
fn lookup_name_falls_back_to_bare_when_package_agent_file_missing() {
    assert_eq!(
        title_agent_lookup_name("title-agent", "pantheon/title-agent", false),
        "title-agent"
    );
}

#[test]
fn lookup_name_strips_leading_slash_when_falling_back() {
    assert_eq!(title_agent_lookup_name("/foo", "foo", false), "foo");
    assert_eq!(title_agent_lookup_name("/foo", "foo", true), "foo");
}

#[test]
fn lookup_name_keeps_package_name_when_package_agent_file_exists() {
    assert_eq!(
        title_agent_lookup_name("title-agent", "pantheon/title-agent", true),
        "pantheon/title-agent"
    );
}

#[test]
fn lookup_name_uses_resolved_when_no_package_prefix_applied() {
    assert_eq!(
        title_agent_lookup_name("title-agent", "title-agent", false),
        "title-agent"
    );
    assert_eq!(
        title_agent_lookup_name("title-agent", "title-agent", true),
        "title-agent"
    );
}

#[test]
fn transcript_single_exchange_has_first_user_and_assistant() {
    let session = session_with(vec![
        user("How do I fix async lifetimes?"),
        assistant("Use owned data."),
    ]);
    let t = build_title_transcript(&session);
    assert!(t.contains("How do I fix async lifetimes?"));
    assert!(t.contains("Use owned data."));
    assert!(!t.contains("Latest user message:"));
}

#[test]
fn transcript_multi_exchange_includes_first_and_last_user() {
    let session = session_with(vec![
        user("first question about postgres"),
        assistant("answer one"),
        user("later question about pooling"),
        assistant("answer two"),
    ]);
    let t = build_title_transcript(&session);
    assert!(t.contains("first question about postgres"));
    assert!(t.contains("later question about pooling"));
    assert!(t.contains("answer two"));
    assert!(!t.contains("answer one"));
}

#[test]
fn transcript_empty_session_is_empty() {
    let session = session_with(vec![]);
    assert!(build_title_transcript(&session).trim().is_empty());
}

#[test]
fn post_process_strips_quotes_prefix_and_extra_lines() {
    assert_eq!(
        post_process_title("  Debugging async errors  "),
        "Debugging async errors"
    );
    assert_eq!(
        post_process_title("\"Setting up Postgres\""),
        "Setting up Postgres"
    );
    assert_eq!(post_process_title("'Planning a trip'"), "Planning a trip");
    assert_eq!(
        post_process_title("Title: Fix the parser"),
        "Fix the parser"
    );
    assert_eq!(
        post_process_title("Rust ownership refactor\n\nHere is why..."),
        "Rust ownership refactor"
    );
}

#[test]
fn post_process_strips_trailing_punctuation_and_markdown() {
    assert_eq!(
        post_process_title("Fixing the login bug."),
        "Fixing the login bug"
    );
    assert_eq!(post_process_title("Configuring CI!"), "Configuring CI");
    assert_eq!(post_process_title("**Bold title**"), "Bold title");
    assert_eq!(post_process_title("`code title`"), "code title");
}

#[test]
fn resolution_not_configured_when_no_title_agent_set() {
    let resolution = resolve_title_agent_name(None, None, None);
    assert!(
        resolution.is_none(),
        "expected None when no title agent configured"
    );
}

#[test]
fn resolution_not_found_message_includes_agent_name() {
    let resolution: TitleAgentResolution<()> = TitleAgentResolution::NotFound {
        name: "missing-title-agent".to_string(),
    };
    let msg = resolution.into_result().expect_err("should be error for NotFound");
    assert!(
        msg.contains("not found"),
        "error message should contain 'not found': {msg}"
    );
    assert!(
        msg.contains("missing-title-agent"),
        "error message should contain agent name: {msg}"
    );
}

#[test]
fn resolution_load_error_surfaces_underlying_error() {
    let resolution: TitleAgentResolution<()> = TitleAgentResolution::LoadError {
        name: "malformed-title-agent".to_string(),
        source: "parse error: invalid frontmatter".to_string(),
    };
    let msg = resolution.into_result().expect_err("should be error for LoadError");
    assert!(
        msg.contains("malformed-title-agent"),
        "error should contain agent name: {msg}"
    );
    assert!(
        msg.contains("parse error"),
        "error should contain underlying error: {msg}"
    );
}

#[test]
fn resolution_not_configured_is_ok_none() {
    let resolution: TitleAgentResolution<()> = TitleAgentResolution::NotConfigured;
    let result = resolution.into_result();
    assert!(result.is_ok(), "NotConfigured should resolve to Ok(None)");
    assert!(
        result.unwrap().is_none(),
        "NotConfigured should resolve to Ok(None)"
    );
}

#[test]
fn background_titling_only_skips_when_not_configured() {
    let not_configured: TitleAgentResolution<()> = TitleAgentResolution::NotConfigured;
    assert!(not_configured.skips());
    let not_found: TitleAgentResolution<()> = TitleAgentResolution::NotFound {
        name: "title-agent".to_string(),
    };
    assert!(!not_found.skips());
    let broken: TitleAgentResolution<()> = TitleAgentResolution::LoadError {
        name: "title-agent".to_string(),
        source: "bad yaml".to_string(),
    };
    assert!(!broken.skips());
}

#[test]
fn post_process_caps_length() {
    let long = "word ".repeat(200);
    let out = post_process_title(&long);
    assert!(out.chars().count() <= MAX_TITLE_CHARS + 1); // +1 for the ellipsis
}

#[test]
fn title_of_exactly_the_limit_is_kept_whole() {
    let exact = "x".repeat(200);
    assert_eq!(post_process_title(&exact), exact);
    let longer = "x".repeat(201);
    assert_eq!(post_process_title(&longer), format!("{}…", "x".repeat(200)));
}

#[test]
fn transcript_has_a_fixed_form() {
    let session = session_with(vec![
        user(" one "),
        assistant("a"),
        user("two"),
        assistant("b"),
        assistant("   "),
        assistant("c"),
    ]);
    assert_eq!(
        build_title_transcript(&session),
        "First user message:\none\n\nLatest user message:\ntwo\n\nLatest assistant response:\nb\n\nc"
    );
}

#[test]
fn transcript_is_cut_in_its_parts_and_as_a_whole() {
    let session = session_with(vec![
        user(&"a".repeat(5000)),
        user(&"b".repeat(5000)),
        assistant(&"c".repeat(5000)),
    ]);
    let t = build_title_transcript(&session);
    assert_eq!(t.chars().count(), MAX_TRANSCRIPT_CHARS + 1);
    assert!(t.starts_with(&format!("First user message:\n{}…\n\n", "a".repeat(4000))));
    assert!(t.ends_with('…'));
}

#[test]
fn parts_of_a_message_count_with_their_words() {
    let mut message = user("");
    message.content = SessionContent::Said(MessageContent::Array {
        text: "what is this".to_string(),
        parts: vec![
            MessageContentPart::Text { text: "what is this".to_string() },
            MessageContentPart::ImageUrl { url: "cid:1".to_string() },
        ],
    });
    let session = session_with(vec![message]);
    assert_eq!(
        build_title_transcript(&session),
        "First user message:\nwhat is this"
    );
}

#[test]
fn pieces_of_a_title_are_cleaned_one_by_one() {
    assert_eq!(truncate_chars("  abc  ", 2), "ab…");
    assert_eq!(truncate_chars("  ab  ", 2), "ab");
    assert_eq!(labeled_section("L", "  "), None);
    assert_eq!(labeled_section("L", " x "), Some("L:\nx".to_string()));
    assert_eq!(first_line("\r\n  \n two \nthree"), "two");
    assert_eq!(first_line(""), "");
    assert_eq!(strip_title_label("TITLE: a"), "a");
    assert_eq!(strip_title_label("title:b"), "b");
    assert_eq!(strip_title_label("tItLe: Fix the parser"), "Fix the parser");
    assert_eq!(strip_title_label("Titles: b"), "Titles: b");
    assert_eq!(strip_title_label("Title"), "Title");
    assert_eq!(strip_surrounding_quotes("\"a'"), "\"a'");
    assert_eq!(strip_surrounding_quotes("\""), "\"");
    assert_eq!(strip_surrounding_quotes("''"), "");
    assert_eq!(post_process_title("\n Title: '**Fix it!**' \nrest"), "Fix it");
}

#[test]
fn a_title_is_plain_at_both_ends() {
    assert_eq!(post_process_title("Done. ."), "Done");
    assert_eq!(post_process_title("Done !? ...,;: "), "Done");
    assert_eq!(post_process_title("**Fix**."), "Fix");
    assert_eq!(post_process_title("**\"Fix it\"**"), "Fix it");
    assert_eq!(post_process_title("\"Fix it.\"!"), "Fix it");
    assert_eq!(post_process_title("* _Fix_ *"), "Fix");
    assert_eq!(post_process_title("TiTlE: 'Fix v1.2'"), "Fix v1.2");
    assert_eq!(post_process_title("..."), "");
}

#[test]
fn names_resolve_inside_a_package() {
    assert_eq!(resolve_package_relative_name("a", Some("p")), "p/a");
    assert_eq!(resolve_package_relative_name("/a", Some("p")), "a");
    assert_eq!(resolve_package_relative_name("q/a", Some("p")), "q/a");
    assert_eq!(resolve_package_relative_name("a", None), "a");
}

#[test]
fn loading_tells_what_is_missing_from_what_is_broken() {
    let found = TitleAgentResolution::of_load("t".to_string(), Ok(7), Ok(()), true);
    assert!(matches!(found, TitleAgentResolution::Found(7)));
    let variables: TitleAgentResolution<i32> =
        TitleAgentResolution::of_load("t".to_string(), Ok(7), Err("v".to_string()), true);
    assert_eq!(
        variables.into_result().unwrap_err(),
        "title agent 't' failed to load: v"
    );
    let missing: TitleAgentResolution<i32> =
        TitleAgentResolution::of_load("t".to_string(), Err("e".to_string()), Ok(()), false);
    assert_eq!(missing.into_result().unwrap_err(), "title agent 't' not found");
    let broken: TitleAgentResolution<i32> =
        TitleAgentResolution::of_load("t".to_string(), Err("e".to_string()), Ok(()), true);
    assert!(matches!(broken, TitleAgentResolution::LoadError { .. }));
}

#[test]
fn a_title_that_was_asked_for_needs_an_agent() {
    let none: TitleAgentResolution<i32> = TitleAgentResolution::NotConfigured;
    assert_eq!(require_title_agent(none), Err(TitleError::NotConfigured));
    assert_eq!(
        TitleError::NotConfigured.message(),
        "no title agent configured"
    );
    assert_eq!(require_title_agent(TitleAgentResolution::Found(3)), Ok(3));
}

#[test]
fn outcome_of_titling_becomes_an_event() {
    match handle_title_result(Ok(Some("T".to_string()))) {
        Some(AgentEvent::Session(SessionEvent::TitleUpdated(title))) => assert_eq!(title, "T"),
        other => panic!("unexpected event: {other:?}"),
    }
    assert!(handle_title_result(Ok(None)).is_none());
    match handle_title_result(Err("Failed to call chat-completions api: Miss 'api_key'".to_string()))
    {
        Some(AgentEvent::Session(SessionEvent::TitleGenerationFailed(error))) => {
            assert_eq!(error, "Failed to call chat-completions api: Miss 'api_key'");
        }
        other => panic!("unexpected event: {other:?}"),
    }
}

fn config_with(messages: Vec<Message>) -> Config {
    let mut config = Config::new();
    config.session = Some(session_with(messages));
    config
}

#[test]
fn titling_is_claimed_once_and_given_back() {
    let mut config = config_with(vec![user("hi")]);
    assert!(config.claim_titling());
    assert!(!config.claim_titling());
    config.clear_titling(Some("other"));
    assert!(config.session.as_ref().unwrap().titling);
    config.clear_titling(Some("s"));
    assert!(!config.session.as_ref().unwrap().titling);
    assert_eq!(config.maybe_generate_title(true), Some("s".to_string()));
    config.clear_titling(None);
    assert_eq!(config.maybe_generate_title(false), None);
    assert!(!config.session.as_ref().unwrap().titling);
}

#[test]
fn generated_title_is_recorded_for_the_session_that_asked() {
    let mut config = config_with(vec![user("hi"), assistant("hello")]);
    config.session.as_mut().unwrap().tokens = 12;
    let request = config.title_request().unwrap().unwrap();
    assert_eq!(request.session_id, "s");
    assert_eq!(request.tokens, 12);
    assert_eq!(config.accept_title("\"A title\"", "gone", 12, None), Ok(None));
    assert_eq!(config.accept_title("  ", "s", 12, None), Ok(None));
    let refused = config.accept_title("A", "s", 12, Some("down".to_string()));
    assert_eq!(
        refused,
        Err(TitleError::NotRecorded(SettingError::TitleNotPersisted("down".to_string())))
    );
    assert!(config.session.as_ref().unwrap().title.is_none());
    assert_eq!(
        config.accept_title("\"A title\"", "s", 12, None),
        Ok(Some("A title".to_string()))
    );
    let session = config.session.as_ref().unwrap();
    assert_eq!(session.title(), Some("A title"));
    assert_eq!(session.title_last_updated_tokens(), 12);
    assert!(!session.need_generate_title(5));
}

#[test]
fn nothing_is_asked_of_a_silent_session() {
    let mut config = config_with(vec![]);
    assert!(config.title_request().unwrap().is_none());
    config.session = None;
    assert!(matches!(config.title_request(), Err(TitleError::NoSession)));
}
