use harnx_runtime::ids::{random_id, random_token, time_ordered_id};
use harnx_runtime::local_orchestrator::{
    accept_readiness, activation_route_for_cluster, crash_message, ensure_worker,
    needs_local_worker, not_found_message, output_tail_start, override_message,
    render_output_tail, validate_worker_id, worker_arguments, worker_binary, worker_wait_notice,
    EnsureWorker, LocalWorkerRoute, Readiness, ReadinessWait, SessionActivationRoute, WaitStep,
    WorkerBinary, WorkerReadiness, LOCAL_CLUSTER_KEY,
};
use harnx_runtime::nats_local_server::{
    accept_join, ensure_server, is_executable, joiner_is_current, owner_timeout_message,
    owns_metadata, parse_major_minor, parse_reported_port, port_of_url, port_report_name,
    port_step, port_timeout_message, ready_step, ready_timeout_message, server_config,
    spawn_again, spawn_message, too_old_message, url_of_port, verify_version, EnsureServer,
    LocalBrokerStatus, ServerMetadata, StartupStep, VersionError,
};

#[test]
fn local_routes_are_nats_safe_and_unique() {
    let first = LocalWorkerRoute::new();
    let second = LocalWorkerRoute::new();
    assert!(validate_worker_id(first.worker_id()), "first worker id");
    assert!(validate_worker_id(second.worker_id()), "second worker id");
    assert_ne!(first, second);
    assert_eq!(first, first.copy());
}

#[test]
fn slow_start_notice_identifies_worker_pid() {
    let notice = worker_wait_notice(15_000, 42, "/tmp/worker.log");
    assert!(notice.contains("worker pid 42"), "unexpected notice: {notice}");
    assert!(notice.contains("(15s)"), "unexpected notice: {notice}");
}

#[test]
fn remote_clusters_use_shared_activation_without_starting_a_worker() {
    assert!(!needs_local_worker("prod"));
    assert_eq!(
        activation_route_for_cluster("prod", None),
        Some(SessionActivationRoute::ClusterShared)
    );
    assert!(needs_local_worker(LOCAL_CLUSTER_KEY));
    let route = LocalWorkerRoute::new();
    assert_eq!(
        activation_route_for_cluster(LOCAL_CLUSTER_KEY, Some(&route)),
        Some(route.activation_route())
    );
    assert_eq!(
        activation_route_for_cluster("prod", Some(&route)),
        Some(SessionActivationRoute::ClusterShared)
    );
    assert_eq!(activation_route_for_cluster(LOCAL_CLUSTER_KEY, None), None);
    assert!(matches!(
        route.activation_route(),
        SessionActivationRoute::WorkerTargeted { session_scope, worker_id }
            if session_scope == route.session_scope() && worker_id == route.worker_id()
    ));
}

#[test]
fn worker_names_stay_within_one_part_of_a_subject() {
    assert!(validate_worker_id("local-1_A"));
    for id in ["", "a.b", "a b", "a>", "a*", "é"] {
        assert!(!validate_worker_id(id), "{id}");
    }
}

#[test]
fn the_worker_program_is_found_in_order() {
    assert_eq!(worker_binary(Some(true), true, true), WorkerBinary::Override);
    assert_eq!(worker_binary(Some(false), true, true), WorkerBinary::OverrideIsNoFile);
    assert_eq!(worker_binary(None, true, true), WorkerBinary::Sibling);
    assert_eq!(worker_binary(None, false, true), WorkerBinary::SearchPath);
    assert_eq!(worker_binary(None, false, false), WorkerBinary::NotFound);
    assert_eq!(
        override_message("HARNX_WORKER_BIN", "/nonexistent/harnx-worker"),
        "HARNX_WORKER_BIN points at /nonexistent/harnx-worker, which is not a file"
    );
    assert_eq!(
        not_found_message("harnx-worker", "/bin/harnx", "HARNX_WORKER_BIN"),
        "worker binary 'harnx-worker' not found next to /bin/harnx or on PATH; install it or set HARNX_WORKER_BIN"
    );
    assert_eq!(
        worker_arguments("w1"),
        ["--session-scope", "local", "--worker-id", "w1", "--manage-servers"]
    );
}

#[test]
fn only_the_expected_worker_is_ready() {
    let route = LocalWorkerRoute::new();
    let record = |scope: &str, id: &str, pid: u32| WorkerReadiness {
        session_scope: scope.to_string(),
        worker_id: id.to_string(),
        pid,
        build: "b".to_string(),
    };
    let own = route.worker_id();
    assert_eq!(accept_readiness(&route, &record("local", own, 7), 7), Readiness::Ready);
    assert_eq!(accept_readiness(&route, &record("local", own, 8), 7), Readiness::Stale);
    assert_eq!(accept_readiness(&route, &record("local", "x", 7), 7), Readiness::WrongRoute);
    assert_eq!(accept_readiness(&route, &record("y", own, 7), 7), Readiness::WrongRoute);
}

#[test]
fn a_worker_is_restarted_only_where_it_must() {
    assert_eq!(ensure_worker(false, true, true), EnsureWorker::Keep);
    assert_eq!(ensure_worker(false, true, false), EnsureWorker::Restart);
    assert_eq!(ensure_worker(true, true, true), EnsureWorker::Restart);
    assert_eq!(ensure_worker(true, false, false), EnsureWorker::Start);
}

#[test]
fn the_third_crash_ends_the_wait() {
    let mut wait = ReadinessWait::new();
    assert_eq!(wait.step(true), WaitStep::Wait);
    for _ in 0..2 {
        wait.exited();
        assert_eq!(wait.step(false), WaitStep::Respawn);
    }
    wait.exited();
    assert_eq!(wait.step(false), WaitStep::GiveUp { crashes: 3 });
    assert_eq!(
        crash_message(3, "tail"),
        "local worker exited 3 times without becoming ready:\ntail"
    );
}

#[test]
fn the_wait_slows_down_and_speaks_up() {
    let mut wait = ReadinessWait::new();
    let mut polls = Vec::new();
    for _ in 0..5 {
        polls.push(wait.poll_ms);
        assert!(!wait.round(4_999));
    }
    assert_eq!(polls, vec![50, 100, 200, 400, 500]);
    assert!(wait.round(5_000));
    assert!(!wait.round(14_999));
    assert!(wait.round(15_000));
}

#[test]
fn the_end_of_the_output_is_shown() {
    assert_eq!(output_tail_start(5_000), 904);
    assert_eq!(output_tail_start(100), 0);
    assert_eq!(render_output_tail("/log", " \n"), "(no output in /log)");
    assert_eq!(
        render_output_tail("/log", "  failed\n\n"),
        "--- tail of /log ---\n  failed"
    );
}

#[test]
fn ports_report_uses_launched_executable_name() {
    assert_eq!(
        port_report_name(Some("custom-nats-server.exe"), 42),
        "custom-nats-server.exe_42.ports"
    );
    assert_eq!(port_report_name(None, 7), "nats-server_7.ports");
}

#[test]
fn parses_supported_nats_version_output() {
    assert_eq!(parse_major_minor("nats-server: v2.11.6"), Some((2, 11)));
    assert_eq!(parse_major_minor("nats-server version 3.0.0"), Some((3, 0)));
}

#[test]
fn rejects_unparseable_version_output() {
    assert_eq!(parse_major_minor("nats-server unknown"), None);
}

#[test]
fn old_servers_are_refused() {
    assert_eq!(verify_version("nats-server: v2.11.0"), Ok(()));
    assert_eq!(verify_version("nats-server: v3.0.0"), Ok(()));
    assert_eq!(verify_version("nats-server: v2.10.9"), Err(VersionError::TooOld));
    assert_eq!(verify_version("nats-server: v1.99.0"), Err(VersionError::TooOld));
    assert_eq!(verify_version("nats-server"), Err(VersionError::Unreadable));
    assert_eq!(
        too_old_message("/bin/nats-server", " nats-server: v2.10.9\n"),
        "nats-server version 2.11 or newer is required; /bin/nats-server reports nats-server: v2.10.9"
    );
}

#[test]
fn the_port_is_read_from_the_report() {
    assert_eq!(
        parse_reported_port(r#"{"nats":["nats://127.0.0.1:4222","nats://[::1]:4222"]}"#),
        Some(4222)
    );
    assert_eq!(parse_reported_port(r#"{"nats":[]}"#), None);
    assert_eq!(parse_reported_port(r#"{"nats":["nats://127.0.0.1:70000"]}"#), None);
    assert_eq!(parse_reported_port("{"), None);
    assert_eq!(port_of_url(&url_of_port(4222)), Some(4222));
    assert_eq!(url_of_port(65535), "nats://127.0.0.1:65535");
    assert_eq!(port_of_url("nats"), None);
}

#[test]
fn the_configuration_quotes_what_it_is_given() {
    assert_eq!(
        server_config("/run/\"p\"", "/store", "secret"),
        "host: \"127.0.0.1\"\nport: -1\nports_file_dir: \"/run/\\\"p\\\"\"\njetstream { store_dir: \"/store\" }\nauthorization { token: \"secret\" }\n"
    );
}

#[test]
fn every_character_of_a_path_is_quoted() {
    let config = server_config("\\\u{8}\t\n\u{c}\r\u{1}\u{1f}\u{7f}/é", "/store", "t");
    assert!(
        config.contains("ports_file_dir: \"\\\\\\b\\t\\n\\f\\r\\u0001\\u001f\u{7f}/é\"\n"),
        "{config}"
    );
}

fn metadata(port: u16, nonce: &str, token: &str) -> ServerMetadata {
    ServerMetadata { port, nonce: nonce.to_string(), token: token.to_string() }
}

#[test]
fn a_broker_is_joined_only_while_its_data_stay() {
    let m = metadata(4222, "n", "t");
    assert!(accept_join(&m, Some(&metadata(4222, "n", "t"))));
    assert!(!accept_join(&m, Some(&metadata(4223, "n", "t"))));
    assert!(!accept_join(&m, None));
    assert!(!accept_join(&metadata(1, "", "t"), Some(&metadata(1, "", "t"))));

    let url = m.url();
    assert!(joiner_is_current(&url, "t", "n", Some(&m), Some(false)));
    assert!(!joiner_is_current(&url, "t", "n", Some(&m), Some(true)));
    assert!(!joiner_is_current(&url, "t", "n", Some(&m), None));
    assert!(!joiner_is_current(&url, "other", "n", Some(&m), Some(false)));
    assert!(!joiner_is_current(&url, "t", "n", None, Some(false)));

    assert!(owns_metadata(Some(&m), "n"));
    assert!(!owns_metadata(Some(&m), "x"));
    assert!(!owns_metadata(None, "n"));
}

#[test]
fn a_broker_starts_in_steps() {
    assert_eq!(ensure_server(true, false, 9, 5), EnsureServer::Start);
    assert_eq!(ensure_server(false, true, 9, 5), EnsureServer::Join);
    assert_eq!(ensure_server(false, false, 5, 5), EnsureServer::TimedOut);
    assert_eq!(ensure_server(false, false, 4, 5), EnsureServer::Wait);
    assert_eq!(port_step(true, true, 9, 5), StartupStep::Ready);
    assert_eq!(port_step(false, true, 0, 5), StartupStep::Exited);
    assert_eq!(ready_step(true, true, 0, 5), StartupStep::Exited);
    assert_eq!(ready_step(false, true, 9, 5), StartupStep::Ready);
    assert_eq!(ready_step(false, false, 9, 5), StartupStep::TimedOut);
    assert_eq!(ready_step(false, false, 1, 5), StartupStep::Wait);
    assert!(spawn_again(4));
    assert!(!spawn_again(5));
    assert!(is_executable(0o755));
    assert!(is_executable(0o010));
    assert!(!is_executable(0o644));
}

#[test]
fn what_is_told_of_a_broker() {
    assert_eq!(
        owner_timeout_message(),
        "shared local NATS owner did not publish valid ports.json within 15s"
    );
    assert_eq!(
        port_timeout_message(),
        "shared local NATS did not report its port within 15s"
    );
    assert_eq!(
        ready_timeout_message("nats://x:1", 3),
        "NATS server at nats://x:1 did not become ready within 15s after 3 attempts"
    );
    assert_eq!(
        spawn_message(),
        "failed to start shared local NATS server after 5 attempts"
    );
    let status = LocalBrokerStatus::snapshot("nats://x:1", "t", "n", true);
    assert!(status.is_owner());
    assert_eq!(status.url, "nats://x:1");
}

#[test]
fn identifiers_have_their_form() {
    for (id, version) in [(random_id(), '4'), (time_ordered_id(), '7')] {
        let chars: Vec<char> = id.chars().collect();
        assert_eq!(chars.len(), 36);
        for (i, c) in chars.iter().enumerate() {
            if [8, 13, 18, 23].contains(&i) {
                assert_eq!(*c, '-');
            } else {
                assert!(c.is_ascii_hexdigit() && !c.is_ascii_uppercase());
            }
        }
        assert_eq!(chars[14], version);
    }
    let token = random_token();
    assert_eq!(token.len(), 32);
    assert!(token.chars().all(|c| c.is_ascii_hexdigit()));
    assert_eq!(token.chars().nth(12), Some('4'));
    assert_ne!(random_token(), token);
}
