use harnx_runtime::config::session::{Agent, Model};
use harnx_runtime::config::session_ops::new_session;
use harnx_runtime::config::settings::{
    parse_bool, parse_command, parse_isize, parse_usize, parse_value, Setting, SettingError,
    UpdateOutside,
};
use harnx_runtime::config::tools::{
    expand_selector, selector_could_match_server, selector_matches, split_tool_selectors,
    ToolDeclaration, SESSION_HISTORY_TOOL,
};
use harnx_runtime::config::{Config, Rag};
use harnx_runtime::events::{AgentEvent, SessionEvent};

fn fine() -> UpdateOutside {
    UpdateOutside { persist_error: None, model_error: None, rag_error: None }
}

fn make_tool_decl(name: &str) -> ToolDeclaration {
    ToolDeclaration {
        name: name.to_string(),
        description: "desc".to_string(),
        parameters: None,
    }
}

fn config_with_tools(names: &[&str]) -> Config {
    let mut config = Config::new();
    config.tools = names.iter().map(|name| make_tool_decl(name)).collect();
    config
}

fn config_with_session() -> Config {
    let mut config = Config::new();
    let session = new_session(&config, "title-test");
    config.session = Some(session);
    config
}

fn names(tools: &[ToolDeclaration]) -> Vec<&str> {
    tools.iter().map(|tool| tool.name.as_str()).collect()
}

#[test]
fn set_title_multiword_updates_session_and_freezes_regeneration() {
    let mut config = config_with_session();
    let event = config
        .update("title My Custom Session Title", false, &fine())
        .unwrap();
    assert!(matches!(
        event,
        Some(AgentEvent::Session(SessionEvent::TitleUpdated(title))) if title == "My Custom Session Title"
    ));
    let session = config.session.as_ref().unwrap();
    assert_eq!(session.title(), Some("My Custom Session Title"));
    assert_eq!(session.title_last_updated_tokens(), usize::MAX);
    assert!(!session.need_generate_title(50_000));
}

#[test]
fn set_title_empty_value_is_rejected() {
    let mut config = config_with_session();
    assert!(config.update("title   ", false, &fine()).is_err());
    assert_eq!(
        config.update("title", false, &fine()).unwrap_err().message(),
        "Usage: .set title <text>"
    );
}

#[test]
fn title_needs_a_session_and_its_log() {
    let mut config = Config::new();
    assert_eq!(
        config.update("title x", false, &fine()).unwrap_err().message(),
        "No active session to set a title on"
    );
    let mut config = config_with_session();
    let outside = UpdateOutside { persist_error: Some("down".to_string()), ..fine() };
    assert_eq!(
        config.update("title x", false, &outside).unwrap_err().message(),
        "failed to durably persist session title: down"
    );
    assert!(config.session.as_ref().unwrap().title.is_none());
}

#[test]
fn a_key_that_only_starts_like_title_is_another_key() {
    let mut config = config_with_session();
    assert_eq!(
        config.update("titles x", false, &fine()).unwrap_err(),
        SettingError::UnknownKey("titles".to_string())
    );
}

#[test]
fn commands_need_a_key_and_a_value() {
    let mut config = Config::new();
    for data in ["", "stream", "stream true false"] {
        let error = config.update(data, false, &fine()).unwrap_err();
        assert_eq!(
            error.message(),
            "Usage: .set <key> <value>. If value is null, unset key."
        );
    }
    assert_eq!(
        config.update("colour red", false, &fine()).unwrap_err().message(),
        "Unknown key 'colour'"
    );
    assert_eq!(
        config.update("stream yes", false, &fine()).unwrap_err().message(),
        "Invalid value"
    );
}

#[test]
fn switches_change_the_program() {
    let mut config = Config::new();
    for (key, read) in [
        ("dry_run", (|c: &Config| c.dry_run) as fn(&Config) -> bool),
        ("show_sequence_numbers", |c| c.show_sequence_numbers),
        ("show_timestamps", |c| c.show_timestamps),
        ("tool_use", |c| c.tool_use),
        ("stream", |c| c.stream),
        ("save", |c| c.save),
        ("highlight", |c| c.highlight),
    ] {
        config.update(&format!("{key} false"), false, &fine()).unwrap();
        assert!(!read(&config), "{key}");
        config.update(&format!(" {key}  true "), false, &fine()).unwrap();
        assert!(read(&config), "{key}");
    }
}

#[test]
fn values_go_to_the_session_then_the_agent_then_the_program() {
    let mut config = Config::new();
    config.update("temperature 0.5", true, &fine()).unwrap();
    assert_eq!(config.temperature.as_deref(), Some("0.5"));
    config.agent = Some(Agent::new("a", Model::new("am")));
    config.update("temperature 0.7", true, &fine()).unwrap();
    assert_eq!(config.temperature.as_deref(), Some("0.5"));
    assert_eq!(config.agent.as_ref().unwrap().temperature.as_deref(), Some("0.7"));
    let session = new_session(&config, "s");
    config.session = Some(session);
    config.update("temperature null", false, &fine()).unwrap();
    config.update("top_p 0.1", true, &fine()).unwrap();
    config.update("compaction_agent c", false, &fine()).unwrap();
    config.update("model_fallbacks x,,y", false, &fine()).unwrap();
    config.update("use_tools fs_{a,b},exec", false, &fine()).unwrap();
    config.update("max_output_tokens 100", false, &fine()).unwrap();
    config.update("compress_threshold 9", false, &fine()).unwrap();
    let session = config.session.as_ref().unwrap();
    assert_eq!(session.temperature, None);
    assert_eq!(session.top_p.as_deref(), Some("0.1"));
    assert_eq!(session.compaction_agent.as_deref(), Some("c"));
    assert_eq!(session.model_fallbacks, vec!["x", "y"]);
    assert_eq!(
        session.use_tools.as_ref().unwrap(),
        &vec!["fs_{a,b}".to_string(), "exec".to_string()]
    );
    assert_eq!(session.model.max_output_tokens, Some(100));
    assert!(session.model.require_max_tokens);
    assert_eq!(session.compress_threshold, Some(9));
    assert_eq!(config.compress_threshold, 0);
    assert_eq!(config.agent.as_ref().unwrap().top_p, None);
}

#[test]
fn a_session_setting_is_written_down_before_it_counts() {
    let mut config = config_with_session();
    let outside = UpdateOutside { persist_error: Some("down".to_string()), ..fine() };
    assert_eq!(
        config.update("compress_threshold 9", false, &outside).unwrap_err(),
        SettingError::NotPersisted("down".to_string())
    );
    assert_eq!(config.session.as_ref().unwrap().compress_threshold, None);
    config.update("stream false", false, &outside).unwrap();
    assert!(!config.stream);
    config.session = None;
    config.update("compress_threshold 9", false, &outside).unwrap();
    assert_eq!(config.compress_threshold, 9);
    config.update("compress_threshold null", false, &outside).unwrap();
    assert_eq!(config.compress_threshold, 0);
}

#[test]
fn numbers_are_checked() {
    let mut config = Config::new();
    assert_eq!(
        config.update("temperature warm", false, &fine()).unwrap_err(),
        SettingError::InvalidValue
    );
    assert_eq!(
        config.update("max_output_tokens x", false, &fine()).unwrap_err(),
        SettingError::InvalidValue
    );
    config.update("max_output_tokens -1", false, &fine()).unwrap();
    assert_eq!(config.model.max_output_tokens, Some(-1));
    assert_eq!(parse_usize("+7"), Some(7));
    assert_eq!(parse_usize("-7"), None);
    assert_eq!(parse_usize("99999999999999999999999"), None);
    assert_eq!(parse_isize("-7"), Some(-7));
    assert_eq!(parse_isize(""), None);
    assert_eq!(parse_bool("true"), Some(true));
    assert_eq!(parse_bool("True"), None);
    assert_eq!(parse_value("null", Some(1)), Some(None));
    assert_eq!(parse_value("1", Some(1)), Some(Some(1)));
    assert_eq!(parse_value("x", None::<u8>), None);
}

#[test]
fn documents_take_their_settings_themselves() {
    let mut config = Config::new();
    config.update("rag_top_k 4", false, &fine()).unwrap();
    config.update("rag_reranker_model r", false, &fine()).unwrap();
    assert_eq!(config.rag_top_k, 4);
    assert_eq!(config.rag_reranker_model.as_deref(), Some("r"));
    config.rag = Some(Rag { reranker_model: None, top_k: 1 });
    config.update("rag_top_k 6", false, &fine()).unwrap();
    config.update("rag_reranker_model q", false, &fine()).unwrap();
    assert_eq!(config.rag.as_ref().unwrap().top_k, 6);
    assert_eq!(config.rag.as_ref().unwrap().reranker_model.as_deref(), Some("q"));
    assert_eq!(config.rag_top_k, 4);
    let unknown = UpdateOutside { model_error: Some("no such model".to_string()), ..fine() };
    assert_eq!(
        config.update("rag_reranker_model z", false, &unknown).unwrap_err(),
        SettingError::UnknownModel("no such model".to_string())
    );
    config.update("rag_reranker_model null", false, &unknown).unwrap();
    assert_eq!(config.rag.as_ref().unwrap().reranker_model, None);
    let broken = UpdateOutside { rag_error: Some("locked".to_string()), ..fine() };
    assert_eq!(
        config.update("rag_top_k 8", false, &broken).unwrap_err(),
        SettingError::RagNotUpdated("locked".to_string())
    );
    assert_eq!(config.rag.as_ref().unwrap().top_k, 6);
}

#[test]
fn wrap_is_no_auto_or_a_column() {
    let mut config = Config::new();
    config.set_wrap("80").unwrap();
    assert_eq!(config.wrap.as_deref(), Some("80"));
    config.set_wrap("auto").unwrap();
    assert_eq!(config.wrap.as_deref(), Some("auto"));
    assert_eq!(config.set_wrap("65536"), Err("Invalid wrap value".to_string()));
    assert_eq!(config.wrap.as_deref(), Some("auto"));
    config.set_wrap("no").unwrap();
    assert_eq!(config.wrap, None);
}

#[test]
fn model_goes_where_it_is_used() {
    let mut config = config_with_session();
    assert_eq!(
        config.set_model(Err("unknown".to_string()), None),
        Err(SettingError::UnknownModel("unknown".to_string()))
    );
    assert_eq!(
        config.set_model(Ok(Model::new("a:b")), Some("down".to_string())),
        Err(SettingError::NotPersisted("down".to_string()))
    );
    config.set_model(Ok(Model::new("a:b")), None).unwrap();
    assert_eq!(config.session.as_ref().unwrap().model.id, "a:b");
    assert_eq!(config.model.id, "");
    config.session = None;
    config.set_model(Ok(Model::new("c")), Some("ignored".to_string())).unwrap();
    assert_eq!(config.model.id, "c");
}

#[test]
fn overrides_are_those_that_a_session_keeps() {
    let kept = parse_command("use_tools null", false).unwrap();
    assert!(kept.is_override());
    assert!(matches!(kept, Setting::UseTools(None)));
    let not_kept = parse_command("save true", false).unwrap();
    assert!(!not_kept.is_override());
}

#[test]
fn braces_offer_alternatives() {
    assert_eq!(expand_selector("fs_{read_file,write_file}"), ["fs_read_file", "fs_write_file"]);
    assert_eq!(expand_selector("a_{b_{c,d},e}"), ["a_b_c", "a_b_d", "a_e"]);
    assert_eq!(expand_selector("{a,b}{c,d}"), ["ac", "ad", "bc", "bd"]);
    assert_eq!(expand_selector("open_{a,b"), ["open_{a,b"]);
    assert_eq!(expand_selector("none"), ["none"]);
    assert!(selector_matches("fs_{read*,write_file}", "fs_read_file"));
    assert!(!selector_matches("fs_{read_file,write_file}", "fs_delete"));

    let mut config = Config::new();
    config.tools = ["fs_read_file", "fs_write_file", "fs_delete", "bash_exec"]
        .iter()
        .map(|name| make_tool_decl(name))
        .collect();
    let found =
        config.tool_declarations_for_use_tools(Some("fs_{read_file,write_file}, bash_exec"));
    assert_eq!(names(&found), ["fs_read_file", "fs_write_file", "bash_exec"]);
    assert!(found.iter().all(|tool| tool.description == "desc"));
}

#[test]
fn test_split_tool_selectors_simple() {
    assert_eq!(split_tool_selectors("a,b,c"), vec!["a", "b", "c"]);
}

#[test]
fn test_split_tool_selectors_braces() {
    assert_eq!(
        split_tool_selectors("fs_{read_file,write_file},bash_exec"),
        vec!["fs_{read_file,write_file}", "bash_exec"]
    );
}

#[test]
fn test_split_tool_selectors_single() {
    assert_eq!(split_tool_selectors("*"), vec!["*"]);
}

#[test]
fn test_split_tool_selectors_nested_braces() {
    assert_eq!(
        split_tool_selectors("a_{b_{c,d},e},f"),
        vec!["a_{b_{c,d},e}", "f"]
    );
}

#[test]
fn test_split_tool_selectors_empty() {
    assert_eq!(split_tool_selectors(""), vec![""]);
}

#[test]
fn selector_could_match_server_sanitizes_remote_ref_selector_forward() {
    for selector in ["metis@local", "metis__at__local", "metis__at__local_*"] {
        assert!(
            selector_could_match_server(selector, "metis__at__local"),
            "selector should match forward-sanitized remote server: {selector}"
        );
    }
    assert!(!selector_could_match_server(
        "atlas@local",
        "metis__at__local"
    ));
}

#[test]
fn selector_reaches_a_server_through_its_tools() {
    assert!(selector_could_match_server("fs_read", "fs"));
    assert!(selector_could_match_server("*", "fs"));
    assert!(selector_could_match_server("f*_read", "fs"));
    assert!(!selector_could_match_server("fsx", "fs"));
    assert!(selector_matches("f*d", "fs_read"));
    assert!(!selector_matches("f*d", "fs_write"));
    assert!(selector_matches("", ""));
    assert!(!selector_matches("", "a"));
    assert!(selector_could_match_server("{git,fs}_{read,w*}", "fs"));
    assert!(selector_could_match_server("{git,fs}", "fs"));
    assert!(!selector_could_match_server("{git,svn}_read", "fs"));
}

#[test]
fn session_history_tool_declaration_is_gated_by_use_tools() {
    let config = Config::new();
    let history_name = SESSION_HISTORY_TOOL;

    let selected = config.tool_declarations_for_use_tools(Some(history_name));
    assert!(
        selected.iter().any(|d| d.name == history_name),
        "explicitly selecting the tool should include its declaration"
    );

    let unrelated = config.tool_declarations_for_use_tools(Some("some_unrelated_tool"));
    assert!(
        !unrelated.iter().any(|d| d.name == history_name),
        "an unrelated selector must not include the session-history declaration"
    );

    let wildcard = config.tool_declarations_for_use_tools(Some("*"));
    assert!(
        wildcard.iter().any(|d| d.name == history_name),
        "a wildcard selector should include the session-history declaration"
    );
}

#[test]
fn expand_use_tools_wildcard_returns_concrete_names() {
    let config = config_with_tools(&["alpha_tool", "beta_tool"]);
    let expanded = config.expand_use_tools(Some(&["*".to_string()]));
    assert_eq!(expanded, vec!["alpha_tool", "beta_tool", SESSION_HISTORY_TOOL]);
}

#[test]
fn expand_use_tools_empty_is_graceful() {
    let config = Config::new();
    let expanded = config.expand_use_tools(None);
    assert!(expanded.is_empty());
}

#[test]
fn expand_use_tools_explicit_selector_returns_only_that_tool() {
    let config = config_with_tools(&["fs_read", "fs_write", "bash_exec", "fetch_fetch_markdown"]);
    let expanded = config.expand_use_tools(Some(&["fs_read".to_string()]));
    assert_eq!(expanded, vec!["fs_read"]);
}

#[test]
fn expand_use_tools_wildcard_returns_all_tools() {
    let config = config_with_tools(&["alpha_tool", "beta_tool"]);
    let expanded = config.expand_use_tools(Some(&["*".to_string()]));
    assert!(expanded.contains(&"alpha_tool".to_string()));
    assert!(expanded.contains(&"beta_tool".to_string()));
    assert!(expanded.contains(&SESSION_HISTORY_TOOL.to_string()));
}

#[test]
fn expand_use_tools_empty_list_returns_empty() {
    let config = config_with_tools(&["fs_read"]);
    let expanded = config.expand_use_tools(Some(&[]));
    assert!(expanded.is_empty());
}

#[test]
fn expand_use_tools_multiple_explicit_selectors_returns_only_those() {
    let config = config_with_tools(&["fs_read", "fs_write", "bash_exec"]);
    let expanded =
        config.expand_use_tools(Some(&["fs_read".to_string(), "bash_exec".to_string()]));
    assert_eq!(expanded.len(), 2);
    assert!(expanded.contains(&"fs_read".to_string()));
    assert!(expanded.contains(&"bash_exec".to_string()));
}

#[test]
fn select_tools_respects_use_tools_whitelist() {
    let mut config = config_with_tools(&["fs_read", "fs_write", "bash_exec"]);
    config.agent = Some(Agent::new("test agent", Model::new("m")));
    let mut agent = Agent::new("test", Model::new("m"));
    agent.use_tools = Some(vec!["fs_read".to_string()]);
    let result = config.select_tools(&agent);
    assert_eq!(
        names(&result.unwrap_or_default()),
        vec!["fs_read"],
        "select_tools should honour use_tools and not leak fs_write or bash_exec"
    );
}

#[test]
fn select_tools_merges_cached_nats_declarations() {
    let mut config = Config::new();
    config.nats_tool_declarations.push(make_tool_decl("fs_read"));
    let mut agent = Agent::new("test", Model::new("m"));
    agent.use_tools = Some(vec!["fs_read".to_string()]);
    let declarations = config.select_tools(&agent).expect("cached NATS tool selected");
    assert_eq!(names(&declarations), vec!["fs_read"]);
}

#[test]
fn select_tools_returns_none_without_use_tools() {
    let config = config_with_tools(&["fs_read"]);
    let agent = Agent::new("no tools", Model::new("m"));
    assert!(
        config.select_tools(&agent).is_none(),
        "select_tools should return None when use_tools is unset"
    );
}

#[test]
fn no_tools_are_offered_where_tools_are_off() {
    let mut config = config_with_tools(&["fs_read"]);
    config.tool_use = false;
    let mut agent = Agent::new("a", Model::new("m"));
    agent.use_tools = Some(vec!["*".to_string()]);
    assert!(config.select_tools(&agent).is_none());
    config.tool_use = true;
    agent.use_tools = Some(vec!["other".to_string()]);
    assert!(config.select_tools(&agent).is_none());
}
