//! Running the assistant and the broker.
use llm_box::commands::{
    allowed_line, change_line, ensure_session_exists, missing_session_message, pending_line,
    preferred_ui_session,
};
use llm_box::config::{AppConfig, Environment};
use llm_box::containers::{
    attaches_now, broker_container_name, broker_failure, broker_progress, build_base_image,
    build_broker_run_plan, build_copilot_image, build_copilot_run_plan, build_repo_overlay_image,
    container_is_running, container_state_args, detect_runtime, endpoint_body,
    endpoint_request_head, ensure_copilot_image, ensure_runtime_ready, entrypoint_is_copilot,
    image_entrypoint_is_copilot, image_supports_broker, init_repo_overlay_dockerfile,
    remove_network_args, repo_overlay_dockerfile, repo_overlay_image_name,
    runtime_host_loopback_alias, stop_container_args, BrokerProgress, EndpointError,
    EntrypointError, OverlayError, SessionNetwork, TtyMode, BROKER_LISTEN_PORT, INIT_IMAGE_TEMPLATE,
    REPO_OVERLAY_DOCKERFILE,
};
use llm_box::egress::{parse_target_spec, EgressError, BROKER_INTERNAL_HOST};
use llm_box::pending::{AllowedItem, PendingItem};
use llm_box::runtime::{
    bootstrap_login_args, bootstrap_login_target, classify_copilot_invocation, config_dir_arg,
    effective_container_config_dir, exit_code_of, inject_default_config_dir, login_host_arg,
    managed_auth_marker_path, managed_host_path_for_container_path, persist_auth_marker, run_copilot,
    run_copilot_bootstrap, should_bootstrap_auth, workspace_home_for, AuthState, ConfigDirArg,
    CopilotInvocationMode, CopilotRun, DEFAULT_COPILOT_CONFIG_DIR,
};
use llm_box::session::{workspace_key, SessionContext, SessionStamp};
use llm_box::webui::SessionIdError;

fn texts(list: &[&str]) -> Vec<String> {
    list.iter().map(|item| item.to_string()).collect()
}

fn config() -> AppConfig {
    let env = Environment {
        home: Some("/root".to_string()),
        llm_box_home: Some("/root".to_string()),
        llm_box_image: None,
        llm_box_shared_copilot_skills_dir: None,
    };
    AppConfig::detect(&env, "/repo".to_string(), None).unwrap()
}

fn session(args: &[&str]) -> SessionContext {
    SessionContext::new_session(
        &config(),
        "/root/workspace".to_string(),
        &b"/root/workspace".to_vec(),
        SessionStamp { epoch_nanos: 1, pid: 2, counter: 3 },
        &texts(args),
        9,
    )
    .unwrap()
}

fn network(runtime: &str) -> SessionNetwork {
    SessionNetwork {
        runtime: runtime.to_string(),
        internal_name: "llm-box-internal-test".to_string(),
        external_name: "llm-box-external-test".to_string(),
    }
}

#[test]
fn repo_overlay_dockerfile_is_detected() {
    assert_eq!(
        repo_overlay_dockerfile("/root/workspace", true, true).unwrap(),
        Some("/root/workspace/.llm-box/Dockerfile".to_string())
    );
    assert_eq!(repo_overlay_dockerfile("/root/workspace", false, false), Ok(None));
    let error = repo_overlay_dockerfile("/root/workspace", true, false).unwrap_err();
    assert_eq!(error.message("/p"), "repo overlay path exists but is not a file: /p");
}

#[test]
fn repo_overlay_image_name_is_workspace_specific() {
    let image_a = repo_overlay_image_name(&b"/root/workspace-a".to_vec());
    let image_b = repo_overlay_image_name(&b"/root/workspace-b".to_vec());
    assert!(image_a.starts_with("llm-box-workspace-"));
    assert!(image_b.starts_with("llm-box-workspace-"));
    assert_ne!(image_a, image_b);
}

#[test]
fn init_repo_overlay_dockerfile_writes_template() {
    let (path, contents) = init_repo_overlay_dockerfile("/root", false).unwrap();
    assert_eq!(path, format!("/root/{REPO_OVERLAY_DOCKERFILE}"));
    assert_eq!(contents, INIT_IMAGE_TEMPLATE);
    assert_eq!(
        INIT_IMAGE_TEMPLATE,
        r#"ARG LLM_BOX_BASE_IMAGE
FROM ${LLM_BOX_BASE_IMAGE}

USER root
# RUN apt-get update \
#   && apt-get install -y --no-install-recommends gh \
#   && rm -rf /var/lib/apt/lists/*
USER copilot
"#
    );
}

#[test]
fn init_repo_overlay_dockerfile_does_not_overwrite_existing_file() {
    let error = init_repo_overlay_dockerfile("/root", true).unwrap_err();
    assert_eq!(error, OverlayError::AlreadyExists);
    assert!(error.message("/root/x").contains("repo overlay Dockerfile already exists"));
}

#[test]
fn copilot_run_plan_captures_security_relevant_runtime_args() {
    let session = session(&["--resume"]);
    let invocation =
        texts(&["--config-dir", DEFAULT_COPILOT_CONFIG_DIR, "--resume", "session-123"]);
    let passthrough_env = vec![
        ("COPILOT_GITHUB_TOKEN".to_string(), "copilot-token".to_string()),
        ("GH_TOKEN".to_string(), "gh-token".to_string()),
        ("GITHUB_TOKEN".to_string(), "github-token".to_string()),
    ];
    let plan = build_copilot_run_plan(
        "test-image:latest",
        &session,
        &network("podman"),
        "501",
        "20",
        TtyMode::Interactive,
        &invocation,
        &passthrough_env,
        Some("/root/shared-skills"),
    );
    assert_eq!(
        plan.args,
        vec![
            "run".to_string(),
            "-it".to_string(),
            "--rm".to_string(),
            "--user".to_string(),
            "501:20".to_string(),
            "--workdir".to_string(),
            "/workspace".to_string(),
            "--network".to_string(),
            "llm-box-internal-test".to_string(),
            "--cap-drop=ALL".to_string(),
            "--security-opt=no-new-privileges".to_string(),
            "-e".to_string(),
            "HOME=/home/copilot".to_string(),
            "-e".to_string(),
            format!("LLM_BOX_SESSION_ID={}", session.session_id()),
            "-e".to_string(),
            "COPILOT_GITHUB_TOKEN=copilot-token".to_string(),
            "-e".to_string(),
            "GH_TOKEN=gh-token".to_string(),
            "-e".to_string(),
            "GITHUB_TOKEN=github-token".to_string(),
            "-e".to_string(),
            format!("HTTP_PROXY=http://{BROKER_INTERNAL_HOST}:{BROKER_LISTEN_PORT}"),
            "-e".to_string(),
            format!("HTTPS_PROXY=http://{BROKER_INTERNAL_HOST}:{BROKER_LISTEN_PORT}"),
            "-e".to_string(),
            format!("ALL_PROXY=http://{BROKER_INTERNAL_HOST}:{BROKER_LISTEN_PORT}"),
            "-e".to_string(),
            format!("http_proxy=http://{BROKER_INTERNAL_HOST}:{BROKER_LISTEN_PORT}"),
            "-e".to_string(),
            format!("https_proxy=http://{BROKER_INTERNAL_HOST}:{BROKER_LISTEN_PORT}"),
            "-e".to_string(),
            format!("all_proxy=http://{BROKER_INTERNAL_HOST}:{BROKER_LISTEN_PORT}"),
            "-e".to_string(),
            format!("NO_PROXY=localhost,127.0.0.1,{BROKER_INTERNAL_HOST}"),
            "-e".to_string(),
            format!("no_proxy=localhost,127.0.0.1,{BROKER_INTERNAL_HOST}"),
            "-v".to_string(),
            format!("{}:/home/copilot", session.workspace_home()),
            "-v".to_string(),
            "/root/shared-skills:/home/copilot/.copilot/skills:ro".to_string(),
            "-v".to_string(),
            format!("{}:/workspace", session.workspace()),
            "test-image:latest".to_string(),
            "--config-dir".to_string(),
            DEFAULT_COPILOT_CONFIG_DIR.to_string(),
            "--resume".to_string(),
            "session-123".to_string(),
        ]
    );
}

#[test]
fn classify_copilot_invocation_distinguishes_bootstrap_modes() {
    assert_eq!(classify_copilot_invocation(&texts(&[])), CopilotInvocationMode::AutoSession);
    assert_eq!(
        classify_copilot_invocation(&texts(&["login"])),
        CopilotInvocationMode::ExplicitLogin
    );
    assert_eq!(
        classify_copilot_invocation(&texts(&["login", "--help"])),
        CopilotInvocationMode::SkipBootstrap
    );
    assert_eq!(
        classify_copilot_invocation(&texts(&["--version"])),
        CopilotInvocationMode::SkipBootstrap
    );
    assert_eq!(
        classify_copilot_invocation(&texts(&["mcp"])),
        CopilotInvocationMode::SkipBootstrap
    );
}

#[test]
fn inject_default_config_dir_only_when_missing() {
    assert_eq!(
        inject_default_config_dir(&texts(&["--resume", "abc"])),
        texts(&["--config-dir", DEFAULT_COPILOT_CONFIG_DIR, "--resume", "abc"])
    );
    assert_eq!(
        inject_default_config_dir(&texts(&["--config-dir", "/workspace/custom", "--resume"])),
        texts(&["--config-dir", "/workspace/custom", "--resume"])
    );
}

#[test]
fn bootstrap_login_args_reuse_effective_config_dir() {
    assert_eq!(
        bootstrap_login_args(&texts(&[])),
        texts(&["login", "--config-dir", DEFAULT_COPILOT_CONFIG_DIR])
    );
    assert_eq!(
        bootstrap_login_args(&texts(&["--config-dir", "/workspace/copilot-config", "--resume"])),
        texts(&["login", "--config-dir", "/workspace/copilot-config"])
    );
}

#[test]
fn managed_host_paths_cover_home_and_workspace_mounts() {
    let config = config();
    let workspace = "/root/workspace";
    let bytes = workspace.as_bytes().to_vec();
    let find = |path: &str| managed_host_path_for_container_path(&config, workspace, &bytes, path);
    assert_eq!(
        find(DEFAULT_COPILOT_CONFIG_DIR).unwrap(),
        format!("{}/.copilot", workspace_home_for(&config, &bytes))
    );
    assert_eq!(find("/workspace/.copilot").unwrap(), "/root/workspace/.copilot");
    assert_eq!(find("relative-config").unwrap(), "/root/workspace/relative-config");
    assert!(find("/tmp/copilot").is_none());
    assert_eq!(find("/workspace").unwrap(), "/root/workspace");
    assert_eq!(find("/home/copilot").unwrap(), workspace_home_for(&config, &bytes));
}

#[test]
fn broker_run_plan_captures_session_mounts_and_broker_files() {
    let session = session(&[]);
    let plan = build_broker_run_plan(
        "docker",
        "test-image:latest",
        &session,
        &network("docker"),
        "host.docker.internal",
        true,
    );
    assert_eq!(
        plan.args,
        vec![
            "run".to_string(),
            "--rm".to_string(),
            "--name".to_string(),
            format!("llm-box-broker-{}", session.session_id()),
            "--network".to_string(),
            "llm-box-internal-test".to_string(),
            "--network-alias".to_string(),
            BROKER_INTERNAL_HOST.to_string(),
            "-v".to_string(),
            format!("{}:/llm-box/session", session.session_dir()),
            "--entrypoint".to_string(),
            "llm-box".to_string(),
            "--add-host=host.docker.internal:host-gateway".to_string(),
            "test-image:latest".to_string(),
            "__broker".to_string(),
            "--listen-host".to_string(),
            "0.0.0.0".to_string(),
            "--listen-port".to_string(),
            BROKER_LISTEN_PORT.to_string(),
            "--allowed-targets-file".to_string(),
            "/llm-box/session/allowed-targets.txt".to_string(),
            "--pending-events-file".to_string(),
            "/llm-box/session/pending-events.jsonl".to_string(),
            "--connectors-file".to_string(),
            "/llm-box/session/connectors.json".to_string(),
            "--broker-ready-file".to_string(),
            "/llm-box/session/broker-ready.json".to_string(),
            "--host-loopback-alias".to_string(),
            "host.docker.internal".to_string(),
        ]
    );
    let plain =
        build_broker_run_plan("podman", "i", &session, &network("podman"), "alias", true);
    assert!(!plain.args.iter().any(|arg| arg.starts_with("--add-host")));
}

#[test]
fn options_are_read_from_both_forms() {
    assert_eq!(config_dir_arg(&texts(&["--config-dir=/a", "--config-dir", "/b"])), ConfigDirArg::Present("/a".to_string()));
    assert_eq!(config_dir_arg(&texts(&["x", "--config-dir"])), ConfigDirArg::MissingValue);
    assert_eq!(config_dir_arg(&texts(&["x"])), ConfigDirArg::Absent);
    assert_eq!(effective_container_config_dir(&texts(&["--config-dir"])), None);
    assert_eq!(bootstrap_login_args(&texts(&["--config-dir"])), texts(&["login"]));
    assert_eq!(inject_default_config_dir(&texts(&["--config-dir"])), texts(&["--config-dir"]));
    assert_eq!(login_host_arg(&texts(&["login", "--host", "ghe.example"])), Some("ghe.example".to_string()));
    assert_eq!(login_host_arg(&texts(&["--host=a", "--host=b"])), Some("a".to_string()));
    assert_eq!(login_host_arg(&texts(&["--host"])), None);
    assert_eq!(bootstrap_login_target(&texts(&[])), Ok("https://github.com:443".to_string()));
    assert_eq!(
        bootstrap_login_target(&texts(&["--host", "https://GHE.example/x"])),
        Ok("https://ghe.example:443".to_string())
    );
    assert_eq!(
        bootstrap_login_target(&texts(&["--host", "bad host"])),
        Err(EgressError::InvalidHostname)
    );
}

#[test]
fn the_record_of_a_login_is_kept_where_both_sides_see_it() {
    let config = config();
    let bytes = b"/w".to_vec();
    let find = |args: &[&str]| managed_auth_marker_path(&config, "/w", &bytes, &texts(args));
    assert_eq!(
        find(&[]),
        Some(format!(
            "/root/workspaces/{}/home/.copilot/llm-box-authenticated.json",
            workspace_key(&bytes)
        ))
    );
    assert_eq!(find(&["--config-dir=/etc"]), None);
    assert_eq!(find(&["--config-dir"]), None);
    assert_eq!(persist_auth_marker(12), "12\n");
}

fn auth(can_manage_auth: bool, marker_exists: bool, has_token: bool) -> AuthState {
    AuthState { can_manage_auth, has_marker_path: true, marker_exists, has_token }
}

#[test]
fn logins_come_before_sessions_where_they_are_needed() {
    assert!(should_bootstrap_auth(auth(true, false, false)));
    assert!(!should_bootstrap_auth(auth(true, true, false)));
    assert!(!should_bootstrap_auth(auth(true, false, true)));
    match run_copilot(&texts(&["--resume"]), auth(true, false, false)) {
        CopilotRun::LoginThenSession { login_args, session_args } => {
            assert_eq!(login_args, texts(&["login", "--config-dir", DEFAULT_COPILOT_CONFIG_DIR]));
            assert_eq!(
                session_args,
                texts(&["--config-dir", DEFAULT_COPILOT_CONFIG_DIR, "--resume"])
            );
        }
        other => panic!("{other:?}"),
    }
    match run_copilot(&texts(&["login"]), auth(true, true, true)) {
        CopilotRun::Login { args } => {
            assert_eq!(args, texts(&["--config-dir", DEFAULT_COPILOT_CONFIG_DIR, "login"]));
        }
        other => panic!("{other:?}"),
    }
    match run_copilot(&texts(&["login"]), auth(false, false, false)) {
        CopilotRun::Session { session_args } => assert_eq!(session_args, texts(&["login"])),
        other => panic!("{other:?}"),
    }
    match run_copilot(&texts(&["help"]), auth(true, false, false)) {
        CopilotRun::Session { session_args } => assert_eq!(session_args.len(), 3),
        other => panic!("{other:?}"),
    }
}

#[test]
fn logins_are_recorded_where_they_succeed() {
    let ended = run_copilot_bootstrap(0, false);
    assert_eq!((ended.persist_marker, ended.exit), (true, Some(0)));
    let goes_on = run_copilot_bootstrap(0, true);
    assert_eq!((goes_on.persist_marker, goes_on.exit), (true, None));
    let failed = run_copilot_bootstrap(3, true);
    assert_eq!((failed.persist_marker, failed.exit), (false, Some(3)));
    assert_eq!(exit_code_of(Some(4), false), 4);
    assert_eq!(exit_code_of(None, true), 0);
    assert_eq!(exit_code_of(None, false), 1);
}

#[test]
fn images_are_built_where_they_are_missing() {
    let config = config();
    let bytes = b"/w".to_vec();
    let plan = ensure_copilot_image(&config, &bytes, true, true, None);
    assert_eq!((plan.build_base, plan.image_name.as_str()), (false, "llm-box"));
    let plan = ensure_copilot_image(&config, &bytes, true, false, Some("/w/D".to_string()));
    assert!(plan.build_base);
    assert_eq!(plan.image_name, repo_overlay_image_name(&bytes));
    assert_eq!(plan.overlay, Some("/w/D".to_string()));
    assert!(build_copilot_image(&config, &bytes, None).build_base);
    assert_eq!(build_base_image(&config), texts(&["build", "-t", "llm-box", "/repo"]));
    assert_eq!(
        build_repo_overlay_image(&config, "/w", "/w/D", "name"),
        texts(&[
            "build",
            "-t",
            "name",
            "-f",
            "/w/D",
            "--build-arg",
            "LLM_BOX_BASE_IMAGE=llm-box",
            "/w",
        ])
    );
    assert!(image_supports_broker(true, " 1\n"));
    assert!(!image_supports_broker(false, "1"));
    assert!(!image_supports_broker(true, "<no value>"));
}

#[test]
fn entry_points_are_read_as_json() {
    assert_eq!(image_entrypoint_is_copilot(true, b"[\"copilot\"]\n".to_vec()), Ok(true));
    assert_eq!(image_entrypoint_is_copilot(true, b"[\"copilot\", \"-x\"]".to_vec()), Ok(false));
    assert_eq!(image_entrypoint_is_copilot(true, b"[\"sh\"]".to_vec()), Ok(false));
    assert_eq!(image_entrypoint_is_copilot(true, b"null\n".to_vec()), Ok(false));
    assert_eq!(
        image_entrypoint_is_copilot(true, b"copilot".to_vec()),
        Err(EntrypointError::NotAnEntrypoint)
    );
    assert_eq!(
        image_entrypoint_is_copilot(true, vec![0xff]),
        Err(EntrypointError::NotUtf8)
    );
    assert_eq!(
        image_entrypoint_is_copilot(false, Vec::new()),
        Err(EntrypointError::InspectFailed)
    );
    assert!(entrypoint_is_copilot(&Some(texts(&["copilot"]))));
    assert!(!entrypoint_is_copilot(&None));
}

#[test]
fn runtimes_are_found_and_asked() {
    assert_eq!(detect_runtime(Some("nerdctl".to_string()), true, true), Some("nerdctl".to_string()));
    assert_eq!(detect_runtime(None, true, true), Some("docker".to_string()));
    assert_eq!(detect_runtime(None, false, true), Some("podman".to_string()));
    assert_eq!(detect_runtime(None, false, false), None);
    let stopped = "Podman is installed but not running. Run `podman machine start` and retry.";
    assert_eq!(ensure_runtime_ready("podman", true, "", "Cannot connect to Podman"), stopped);
    assert_eq!(ensure_runtime_ready("podman", false, "", "Cannot connect to Podman\n"), "Cannot connect to Podman");
    assert_eq!(ensure_runtime_ready("docker", true, "a ", " b "), "a  b");
    assert_eq!(runtime_host_loopback_alias("podman", None), "host.containers.internal");
    assert_eq!(runtime_host_loopback_alias("docker", None), "host.docker.internal");
    assert_eq!(runtime_host_loopback_alias("docker", Some("x")), "x");
}

#[test]
fn brokers_are_waited_for() {
    assert_eq!(broker_progress(Some(BROKER_LISTEN_PORT), true, true), BrokerProgress::Ready);
    assert_eq!(broker_progress(Some(1), true, true), BrokerProgress::TimedOut);
    assert_eq!(broker_progress(None, false, true), BrokerProgress::Exited);
    assert_eq!(broker_progress(None, false, false), BrokerProgress::Wait);
    assert!(attaches_now(false, true));
    assert!(!attaches_now(true, true));
    assert!(!attaches_now(false, false));
    assert_eq!(broker_failure(true, "/l"), "egress broker failed to become ready; see /l");
    assert_eq!(broker_failure(false, "/l"), "egress broker exited before becoming ready; see /l");
    assert!(container_is_running(true, "true\n"));
    assert!(!container_is_running(true, "false\n"));
    assert!(!container_is_running(false, "true\n"));
    assert_eq!(broker_container_name("abc"), "llm-box-broker-abc");
    assert_eq!(container_state_args("c"), texts(&["inspect", "--format", "{{.State.Running}}", "c"]));
    assert_eq!(stop_container_args("c"), texts(&["stop", "--time", "1", "c"]));
}

#[test]
fn networks_are_named_after_the_session() {
    let network = SessionNetwork::named("docker", "abc");
    assert_eq!(network.internal_name(), "llm-box-internal-abc");
    assert_eq!(network.external_name(), "llm-box-external-abc");
    assert_eq!(
        network.create_internal_args(),
        texts(&["network", "create", "--internal", "llm-box-internal-abc"])
    );
    assert_eq!(network.create_external_args(), texts(&["network", "create", "llm-box-external-abc"]));
    assert_eq!(
        network.connect_args("c"),
        texts(&["network", "connect", "llm-box-external-abc", "c"])
    );
    assert_eq!(remove_network_args("n"), texts(&["network", "rm", "n"]));
    assert_eq!(TtyMode::of(true, true), TtyMode::Interactive);
    assert_eq!(TtyMode::of(true, false).runtime_args(), ["-i"]);
}

#[test]
fn connectors_are_asked_for_over_http() {
    assert_eq!(
        endpoint_request_head(7),
        "POST /__endpoint HTTP/1.1\r\nHost: llm-box-broker\r\nContent-Type: application/json\r\nContent-Length: 7\r\nConnection: close\r\n\r\n"
    );
    assert_eq!(endpoint_body(b"HTTP/1.1 200 OK\r\n\r\n{}".to_vec()), Ok("{}".to_string()));
    assert_eq!(
        endpoint_body(b"HTTP/1.1 403 No\r\n\r\n{}".to_vec()),
        Err(EndpointError::RequestFailed)
    );
    assert_eq!(endpoint_body(b"HTTP/1.1 200".to_vec()), Err(EndpointError::InvalidResponse));
    assert_eq!(endpoint_body(vec![0xff]), Err(EndpointError::NotUtf8));
}

#[test]
fn commands_print_one_line_for_each_destination() {
    let target = parse_target_spec("ssh://a.example").unwrap();
    let item = AllowedItem::from_target(&target, Some("e:1".to_string()));
    assert_eq!(allowed_line(&item), "ssh://a.example:22\te:1");
    assert_eq!(allowed_line(&AllowedItem::from_target(&target, None)), "ssh://a.example:22");
    let item = PendingItem::from_target(&target, None, "7".to_string(), 7);
    assert_eq!(pending_line(&item), "ssh://a.example:22\t7");
    let item = PendingItem::from_target(&target, Some("e:1".to_string()), "7".to_string(), 7);
    assert_eq!(pending_line(&item), "ssh://a.example:22\te:1\t7");
    assert_eq!(change_line("denied", "t", None), "denied t");
    assert_eq!(change_line("allowed", "t", Some("e:1")), "allowed t\te:1");
}

#[test]
fn sessions_to_show_are_there() {
    assert_eq!(ensure_session_exists("abc", true), Ok(()));
    assert_eq!(ensure_session_exists("abc", false), Err(SessionIdError::Unknown));
    assert_eq!(ensure_session_exists("a/b", true), Err(SessionIdError::Invalid));
    assert_eq!(missing_session_message(SessionIdError::Invalid, "a/b"), "invalid session `a/b`");
    assert_eq!(missing_session_message(SessionIdError::Unknown, "a"), "unknown session `a`");
    assert_eq!(
        preferred_ui_session(Some("abc".to_string()), true, None),
        Ok(Some("abc".to_string()))
    );
    assert_eq!(
        preferred_ui_session(Some("abc".to_string()), false, None),
        Err(SessionIdError::Unknown)
    );
    assert_eq!(
        preferred_ui_session(None, false, Some("l".to_string())),
        Ok(Some("l".to_string()))
    );
}
