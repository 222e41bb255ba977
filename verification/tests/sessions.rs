//! Sessions: what they may reach, what they tried to reach, and what was decided.
use llm_box::broker::{BrokerState, TunnelTable};
use llm_box::config::{
    detect_repo_root, detect_shared_copilot_skills_dir, shared_copilot_skills_path, AppConfig,
    ConfigError, Environment, FoundPath, RootCandidate,
};
use llm_box::connectors::ConnectorMapping;
use llm_box::dismissals::put_entry;
use llm_box::egress::{parse_kind, parse_target_spec, EgressError, EgressKind};
use llm_box::locks::{
    acquire_file_lock, lock_metadata, try_remove_stale_lock, unstamped_lock, LockAction, LockCheck,
    LockError, LockTry,
};
use llm_box::paths::{join, lock_path_for, resolve_path, single_name, temp_file_name};
use llm_box::pending::{LogRecord, PendingError, PendingLog, PendingLogEntry};
use llm_box::session::{
    generate_session_id, latest_session_dir, latest_session_id, workspace_home_dir, workspace_key,
    SessionContext, SessionStamp,
};
use llm_box::store::{
    steps_for, Decision, SessionMeta, SessionStore, StoreError, StoreFile, Stored,
    DEFAULT_ALLOWED_TARGETS,
};

fn environment(home: &str) -> Environment {
    Environment {
        home: Some(home.to_string()),
        llm_box_home: Some(home.to_string()),
        llm_box_image: None,
        llm_box_shared_copilot_skills_dir: None,
    }
}

fn config(root: &str) -> AppConfig {
    AppConfig::detect(&environment(root), "/repo".to_string(), None).unwrap()
}

fn stamp(counter: u64) -> SessionStamp {
    SessionStamp { epoch_nanos: 7, pid: 8, counter }
}

fn new_session(config: &AppConfig, workspace: &str) -> SessionContext {
    SessionContext::new_session(
        config,
        workspace.to_string(),
        &workspace.as_bytes().to_vec(),
        stamp(1),
        &Vec::new(),
        1,
    )
    .unwrap()
}

fn entry_in(line: &str) -> Option<PendingLogEntry> {
    let value = serde_json::from_str::<serde_json::Value>(line).ok()?;
    Some(PendingLogEntry {
        event_epoch_nanos: value["event_epoch_nanos"].as_str()?.to_string(),
        kind: parse_kind(value["kind"].as_str()?).ok()?,
        host: value["host"].as_str()?.to_string(),
        port: value["port"].as_u64()? as u16,
    })
}

fn read_log(contents: &str) -> PendingLog {
    let mut log = PendingLog::split(contents);
    for record in &mut log.records {
        record.entry = entry_in(&record.line);
    }
    log
}

fn append_pending_event(store: &mut SessionStore, target: &str, epoch: u64) {
    let target = parse_target_spec(target).unwrap();
    let entry = PendingLogEntry::blocked(&target, epoch);
    let mut log = store.pending.take().unwrap();
    log.records.push(LogRecord { line: "{}".to_string(), entry: Some(entry) });
    log.complete = true;
    store.pending = Some(log);
}

fn pending_targets(session: &SessionContext) -> Vec<String> {
    session.pending_items().unwrap().into_iter().map(|item| item.target).collect()
}

fn store_fixture(pending: &str, dismissed: &str) -> SessionStore {
    let mut store = SessionStore::from_dir("/tmp/root/session".to_string());
    store.allowed = Some("https://api.github.com:443\n".to_string());
    store.pending = Some(read_log(pending));
    store.dismissed = Some(dismissed.to_string());
    store.write_session_meta(&SessionMeta {
        session_id: "session-1".to_string(),
        workspace: "/tmp/workspace".to_string(),
        provider: "copilot".to_string(),
        last_started_epoch: 1,
        last_invocation: Vec::new(),
    });
    store
}

#[test]
fn user_defaults_round_trip_normalizes_and_dedups() {
    let mut config = config("/root");
    config.add_user_default_target("https://Defaults.Example:443/path").unwrap();
    config.add_user_default_target("https://defaults.example").unwrap();
    assert_eq!(config.user_default_targets().unwrap(), vec!["https://defaults.example:443"]);
    config.remove_user_default_target("https://defaults.example").unwrap();
    assert!(config.user_default_targets().unwrap().is_empty());
}

#[test]
fn user_defaults_are_refused_as_they_stand() {
    let mut config = config("/root");
    assert_eq!(
        config.add_user_default_target("tcp://no.port"),
        Err(EgressError::PortRequired)
    );
    assert_eq!(config.user_defaults, None);
    config.user_defaults = Some("a.example\nftp://b.example\n".to_string());
    assert_eq!(config.user_default_targets(), Err(EgressError::UnsupportedKind));
    assert_eq!(
        config.remove_user_default_target("a.example"),
        Err(EgressError::UnsupportedKind)
    );
}

#[test]
fn detect_shared_copilot_skills_dir_returns_none_when_missing() {
    assert!(detect_shared_copilot_skills_dir(None).unwrap().is_none());
}

#[test]
fn configuration_follows_the_environment() {
    let mut env = environment("/home/me");
    env.llm_box_home = None;
    let config = AppConfig::detect(&env, "/repo".to_string(), Some("/skills".to_string())).unwrap();
    assert_eq!(config.sessions_root(), "/home/me/.llm-box/sessions");
    assert_eq!(config.workspaces_root(), "/home/me/.llm-box/workspaces");
    assert_eq!(config.ui_ready_file(), "/home/me/.llm-box/ui-ready.json");
    assert_eq!(config.ui_activity_file(), "/home/me/.llm-box/ui-activity");
    assert_eq!(
        config.user_default_targets_file(),
        "/home/me/.llm-box/default-allowed-targets.txt"
    );
    assert_eq!(config.image_name(), "llm-box");
    assert_eq!(config.repo_root(), "/repo");
    assert_eq!(config.shared_copilot_skills_dir(), Some("/skills"));
    assert_eq!(
        shared_copilot_skills_path(&env),
        Some("/home/me/.copilot/skills".to_string())
    );
    env.llm_box_shared_copilot_skills_dir = Some("/elsewhere".to_string());
    assert_eq!(shared_copilot_skills_path(&env), Some("/elsewhere".to_string()));
    env.home = None;
    assert_eq!(
        AppConfig::detect(&env, "/repo".to_string(), None).err(),
        Some(ConfigError::HomeNotSet)
    );
}

#[test]
fn directories_are_picked_by_what_they_hold() {
    let candidate = |path: &str, has_dockerfile: bool, has_manifest: bool| RootCandidate {
        path: path.to_string(),
        has_dockerfile,
        has_manifest,
    };
    let list = vec![
        candidate("/a", true, false),
        candidate("/b", true, true),
        candidate("/c", true, true),
    ];
    assert_eq!(detect_repo_root(&list), Ok("/b".to_string()));
    assert_eq!(
        detect_repo_root(&vec![candidate("/a", false, true)]),
        Err(ConfigError::RepoRootNotFound)
    );
    let found = |is_dir: bool| Some(FoundPath { canonical: "/s".to_string(), is_dir });
    assert_eq!(detect_shared_copilot_skills_dir(found(true)), Ok(Some("/s".to_string())));
    assert_eq!(
        detect_shared_copilot_skills_dir(found(false)),
        Err(ConfigError::SkillsNotADirectory)
    );
}

#[test]
fn workspace_key_is_stable() {
    let path = b"/tmp/example".to_vec();
    assert_eq!(workspace_key(&path), workspace_key(&path));
}

#[test]
fn workspace_key_is_the_digest_of_the_path() {
    assert_eq!(
        workspace_key(&b"abc".to_vec()),
        "ba7816bf8f01cfea414140de5dae2223b00361a396177a9cb410ff61f20015ad"
    );
    assert_eq!(
        workspace_key(&Vec::new()),
        "e3b0c44298fc1c149afbf4c8996fb92427ae41e4649b934ca495991b7852b855"
    );
}

#[test]
fn session_names_are_the_start_of_a_digest() {
    let named = generate_session_id(
        &b"a".to_vec(),
        SessionStamp { epoch_nanos: 1, pid: 2, counter: 3 },
    );
    assert_eq!(named, workspace_key(&b"a123".to_vec())[..16].to_string());
    assert_ne!(
        generate_session_id(&b"a".to_vec(), stamp(1)),
        generate_session_id(&b"a".to_vec(), stamp(2))
    );
}

#[test]
fn started_sessions_have_names_of_directory_entries() {
    for counter in 0..50 {
        let id = generate_session_id(&b"/tmp/example".to_vec(), stamp(counter));
        assert_eq!(id.len(), 16);
        assert!(single_name(&id));
    }
}

#[test]
fn workspaces_have_homes_of_their_own() {
    assert_ne!(
        workspace_home_dir("/root", &b"/a".to_vec()),
        workspace_home_dir("/root", &b"/b".to_vec())
    );
}

#[test]
fn the_broker_follows_the_decisions() {
    let mut session = new_session(&config("/root"), "/root/workspace");
    let target = parse_target_spec("ssh://git.example").unwrap();
    let broker = |session: &SessionContext| BrokerState {
        allowed: session.store.allowed.clone(),
        host_loopback_alias: None,
        active_connectors: Vec::new(),
    };
    let mut tunnels = TunnelTable::new();
    assert_eq!(broker(&session).is_allowed_target(&target), Ok(false));
    session.allow_target("ssh://git.example", 5).unwrap();
    assert_eq!(broker(&session).is_allowed_target(&target), Ok(true));
    let id = tunnels.register_tunnel("ssh://git.example:22");
    assert!(tunnels
        .close_disallowed_tunnels(&broker(&session).allowed_keys().unwrap())
        .is_empty());
    let mut listening = broker(&session);
    let table = session.store.connector_mappings().unwrap();
    assert_eq!(listening.new_connectors(&table).len(), 1);
    session.deny_target("ssh://git.example", 6).unwrap();
    assert_eq!(broker(&session).is_allowed_target(&target), Ok(false));
    assert_eq!(
        tunnels.close_disallowed_tunnels(&broker(&session).allowed_keys().unwrap()),
        vec![id]
    );
    let table = session.store.connector_mappings().unwrap();
    let retired = listening.retire_connectors(&table);
    assert_eq!(retired.len(), 1);
    assert_eq!(retired[0].target.host, "git.example");
}

#[test]
fn latest_session_names_are_trimmed() {
    assert_eq!(latest_session_id(Some(" abc\n")), Some("abc".to_string()));
    assert_eq!(latest_session_id(None), None);
    assert_eq!(latest_session_dir("/root", "abc\n"), "/root/sessions/abc");
    assert_eq!(
        workspace_home_dir("/root", &b"abc".to_vec()),
        format!("/root/workspaces/{}/home", workspace_key(&b"abc".to_vec()))
    );
}

#[test]
fn new_sessions_include_user_defaults() {
    let mut config = config("/root");
    config.add_user_default_target("https://seeded.example").unwrap();
    let session = new_session(&config, "/root/workspace-a");
    let allowed = session.allowed_target_specs().unwrap();
    assert!(allowed.contains(&"https://seeded.example:443".to_string()));
    assert!(allowed.contains(&"https://api.github.com:443".to_string()));
    assert!(allowed.contains(&"https://api.business.githubcopilot.com:443".to_string()));
    assert!(allowed.contains(&"https://telemetry.business.githubcopilot.com:443".to_string()));
    assert_eq!(allowed.len(), 4);
}

#[test]
fn built_in_default_allowlist_is_minimal() {
    assert_eq!(
        &DEFAULT_ALLOWED_TARGETS,
        &[
            "https://api.github.com:443",
            "https://api.business.githubcopilot.com:443",
            "https://telemetry.business.githubcopilot.com:443",
        ]
    );
}

#[test]
fn existing_sessions_are_not_backfilled_by_new_user_defaults() {
    let mut config = config("/root");
    let session = new_session(&config, "/root/workspace-b");
    assert!(!session
        .allowed_target_specs()
        .unwrap()
        .contains(&"https://later.example:443".to_string()));
    config.add_user_default_target("https://later.example").unwrap();
    let id = session.session_id().to_string();
    let reopened = SessionContext::from_session_id(
        &config,
        "/root/workspace-b".to_string(),
        &b"/root/workspace-b".to_vec(),
        id,
        session.store,
    )
    .unwrap();
    assert!(!reopened
        .allowed_target_specs()
        .unwrap()
        .contains(&"https://later.example:443".to_string()));
}

#[test]
fn sessions_know_their_places() {
    let session = new_session(&config("/root"), "/w");
    let key = workspace_key(&b"/w".to_vec());
    let id = session.session_id().to_string();
    assert_eq!(session.workspace(), "/w");
    assert_eq!(session.workspace_home(), format!("/root/workspaces/{key}/home"));
    assert_eq!(session.session_dir(), format!("/root/sessions/{id}"));
    assert_eq!(session.broker_log_file(), format!("/root/sessions/{id}/broker.log"));
    assert_eq!(session.broker_ready_file(), format!("/root/sessions/{id}/broker-ready.json"));
    assert_eq!(session.latest_session_file(), format!("/root/workspaces/{key}/latest-session"));
    assert_eq!(
        session.directories(),
        vec![
            format!("/root/workspaces/{key}"),
            format!("/root/workspaces/{key}/home/.copilot"),
            format!("/root/workspaces/{key}/home/.local/state"),
            format!("/root/sessions/{id}"),
        ]
    );
    let store = session.store();
    assert_eq!(store.allowed_targets_file(), format!("/root/sessions/{id}/allowed-targets.txt"));
    assert_eq!(store.pending_events_file(), format!("/root/sessions/{id}/pending-events.jsonl"));
    assert_eq!(store.connectors_file(), format!("/root/sessions/{id}/connectors.json"));
    assert_eq!(store.active_process_file(), format!("/root/sessions/{id}/active-process.json"));
    assert_eq!(store.dismissed.as_deref(), Some("{}\n"));
    assert_eq!(store.session_meta().unwrap().provider, "copilot");
}

#[test]
fn session_store_reports_pending_line_numbers() {
    let store = store_fixture(
        "{\"event_epoch_nanos\":\"1\",\"kind\":\"https\",\"host\":\"ok.example\",\"port\":443}\nnot-json\n",
        "{}\n",
    );
    let error = store.pending_items().unwrap_err();
    assert!(error
        .message(store.session_dir())
        .contains("failed to parse pending log line 2"));
}

#[test]
fn session_store_ignores_incomplete_trailing_pending_record() {
    let store = store_fixture(
        "{\"event_epoch_nanos\":\"1\",\"kind\":\"https\",\"host\":\"ok.example\",\"port\":443}\n{\"event_epoch_nanos\":\"2\",\"kind\":\"https\",\"host\":\"half",
        "{}\n",
    );
    let pending = store.pending_items().unwrap();
    assert_eq!(pending.len(), 1);
    assert_eq!(pending[0].target, "https://ok.example:443");
}

#[test]
fn session_store_reports_invalid_dismissed_state() {
    let store = store_fixture("", "{not-json}\n");
    let error = store.load_state().unwrap_err();
    assert!(error.message(store.session_dir()).contains("dismissed.json"));
    assert_eq!(
        error.message("/d"),
        "failed to parse /d/dismissed.json"
    );
}

#[test]
fn missing_and_malformed_files_are_reported_in_order() {
    let mut store = SessionStore::from_dir("/d".to_string());
    let read = |file| Err::<(), StoreError>(StoreError::ReadFailed(file));
    let parse = |file| Err::<(), StoreError>(StoreError::ParseFailed(file));
    assert_eq!(store.load_state().map(|_| ()), read(StoreFile::SessionMeta));
    store.meta = Stored::Malformed;
    assert_eq!(store.load_state().map(|_| ()), parse(StoreFile::SessionMeta));
    assert_eq!(store.pending_items().map(|_| ()), read(StoreFile::AllowedTargets));
    store.allowed = Some("https://[::1\n".to_string());
    assert_eq!(
        store.pending_items().map(|_| ()),
        Err(StoreError::Target(EgressError::InvalidBracketedHost))
    );
    store.allowed = Some(String::new());
    assert_eq!(store.pending_items().map(|_| ()), read(StoreFile::Dismissed));
    store.dismissed = Some("{}\n".to_string());
    store.connectors = Stored::Malformed;
    assert_eq!(store.pending_items().map(|_| ()), parse(StoreFile::Connectors));
    assert_eq!(store.allowed_items().map(|_| ()), parse(StoreFile::Connectors));
    store.connectors = Stored::Missing;
    assert_eq!(store.pending_items().map(|_| ()), read(StoreFile::PendingEvents));
    assert_eq!(
        StoreError::ReadFailed(StoreFile::PendingEvents).message("/d"),
        "failed to read /d/pending-events.jsonl"
    );
    assert_eq!(StoreError::Target(EgressError::InvalidPort).message("/d"), "invalid port");
}

#[test]
fn concurrent_allow_updates_preserve_all_hosts() {
    let mut session = new_session(&config("/root"), "/root/workspace");
    let targets = [
        "https://one.example",
        "https://two.example",
        "https://three.example",
        "https://four.example",
        "https://five.example",
    ];
    let mut plans = Vec::new();
    for target in targets {
        plans.push(steps_for(Decision::Allow, target).unwrap());
    }
    let longest = plans.iter().map(|plan| plan.len()).max().unwrap();
    for step in 0..longest {
        for plan in &plans {
            session.store.apply_step(&plan[step], 5).unwrap();
        }
    }
    let allowed = session.allowed_target_specs().unwrap();
    for target in targets {
        assert!(allowed.contains(&format!("{target}:443")));
    }
}

#[test]
fn connector_endpoint_is_stable_for_target() {
    let mut session = new_session(&config("/root"), "/root/workspace-connector");
    let first = session.connector_endpoint("tcp://db.example.internal:5432").unwrap();
    let second = session.connector_endpoint("tcp://db.example.internal:5432").unwrap();
    assert_eq!(first.listen_port, second.listen_port);
    let mappings = session.store().connector_mappings().unwrap();
    assert_eq!(mappings.len(), 1);
    assert_eq!(mappings[0].target.host, "db.example.internal");
}

#[test]
fn session_store_state_machine_requires_new_block_after_allow_or_dismiss() {
    let mut session = new_session(&config("/root"), "/root/workspace");
    let target = "https://pending.example";
    append_pending_event(&mut session.store, target, 11);
    assert_eq!(pending_targets(&session), vec!["https://pending.example:443"]);

    session.allow_target(target, 20).unwrap();
    assert!(pending_targets(&session).is_empty());
    assert!(session
        .allowed_target_specs()
        .unwrap()
        .contains(&"https://pending.example:443".to_string()));

    session.deny_target(target, 30).unwrap();
    assert!(pending_targets(&session).is_empty());
    assert!(!session
        .allowed_target_specs()
        .unwrap()
        .contains(&"https://pending.example:443".to_string()));

    append_pending_event(&mut session.store, target, 31);
    assert_eq!(pending_targets(&session), vec!["https://pending.example:443"]);

    session.dismiss_target(target, 40).unwrap();
    assert!(pending_targets(&session).is_empty());

    append_pending_event(&mut session.store, target, 41);
    assert_eq!(pending_targets(&session), vec!["https://pending.example:443"]);
}

#[test]
fn active_session_tracks_live_wrapper_process() {
    let mut session = new_session(&config("/root"), "/root/workspace");
    session.mark_active(77, 5);
    assert_eq!(session.store.active_pid(), Ok(Some(77)));
    assert!(session.store.is_active_session(true).unwrap());
    session.store.active = Stored::Missing;
    assert_eq!(session.store.active_pid(), Ok(None));
    assert!(!session.store.is_active_session(true).unwrap());
}

#[test]
fn active_session_ignores_stale_process_markers() {
    let mut store = SessionStore::from_dir("/root/session".to_string());
    store.mark_active(999_999, 5);
    assert!(!store.is_active_session(false).unwrap());
    assert!(matches!(store.active, Stored::Missing));
}

#[test]
fn active_session_reports_invalid_process_markers() {
    let mut store = SessionStore::from_dir("/root/session".to_string());
    store.active = Stored::Malformed;
    let error = store.is_active_session(true).unwrap_err();
    assert!(error.message(store.session_dir()).contains("failed to parse"));
    assert_eq!(store.active_pid(), Err(error));
    assert!(matches!(store.active, Stored::Malformed));
}

#[test]
fn deny_target_removes_connector_mapping() {
    let mut session = new_session(&config("/root"), "/root/workspace");
    session.connector_endpoint("tcp://db.example.internal:5432").unwrap();
    assert_eq!(session.store().connector_mappings().unwrap().len(), 1);
    session.deny_target("tcp://db.example.internal:5432", 9).unwrap();
    assert!(session.store().connector_mappings().unwrap().is_empty());
}

#[test]
fn deny_target_hides_prior_pending_event_until_new_attempt() {
    let mut session = new_session(&config("/root"), "/root/workspace");
    let target = "tcp://db.example.internal:5432";
    session.store.pending = Some(PendingLog {
        records: vec![LogRecord {
            line: "{}".to_string(),
            entry: Some(PendingLogEntry {
                event_epoch_nanos: "1".to_string(),
                kind: EgressKind::Tcp,
                host: "db.example.internal".to_string(),
                port: 5432,
            }),
        }],
        complete: true,
    });
    session.allow_target(target, 10).unwrap();
    assert!(session.pending_items().unwrap().is_empty());
    session.deny_target(target, 20).unwrap();
    assert!(session.pending_items().unwrap().is_empty());
    append_pending_event(&mut session.store, target, 30);
    assert_eq!(pending_targets(&session), vec!["tcp://db.example.internal:5432".to_string()]);
}

#[test]
fn decisions_leave_other_targets_alone() {
    let mut session = new_session(&config("/root"), "/root/workspace");
    append_pending_event(&mut session.store, "https://a.example", 11);
    append_pending_event(&mut session.store, "https://b.example", 12);
    append_pending_event(&mut session.store, "ssh://c.example", 12);
    assert_eq!(
        pending_targets(&session),
        vec!["https://b.example:443", "ssh://c.example:22", "https://a.example:443"]
    );
    session.allow_target("b.example", 13).unwrap();
    assert_eq!(pending_targets(&session), vec!["ssh://c.example:22", "https://a.example:443"]);
    session.allow_target("ssh://c.example", 14).unwrap();
    let items = session.allowed_items().unwrap();
    let connector = items.iter().find(|item| item.host == "c.example").unwrap();
    assert_eq!(connector.connector_endpoint.as_deref(), Some("llm-box-broker:46000"));
    assert_eq!(connector.kind, EgressKind::Ssh);
    assert_eq!(
        session.store.connector_endpoint_map().unwrap(),
        vec![("ssh://c.example:22".to_string(), "llm-box-broker:46000".to_string())]
    );
}

#[test]
fn decisions_are_refused_without_a_trace() {
    let mut session = new_session(&config("/root"), "/root/workspace");
    assert_eq!(
        session.allow_target("tcp://db.example", 1),
        Err(StoreError::Target(EgressError::PortRequired))
    );
    assert_eq!(
        session.connector_endpoint("https://a.example").err(),
        Some(StoreError::Target(EgressError::NotAConnector))
    );
    session.store.dismissed = None;
    assert_eq!(
        session.allow_target("a.example", 1),
        Err(StoreError::ReadFailed(StoreFile::Dismissed))
    );
    assert!(session
        .allowed_target_specs()
        .unwrap()
        .contains(&"https://a.example:443".to_string()));
}

#[test]
fn entries_are_put_in_their_place() {
    let mut entries: Vec<(String, u64)> = Vec::new();
    for (key, now) in [("m", 1), ("z", 2), ("a", 3), ("m", 4), ("z", 5), ("b", 6)] {
        put_entry(&mut entries, key, now);
    }
    let expected: Vec<(String, u64)> = [("a", 3), ("b", 6), ("m", 4), ("z", 5)]
        .iter()
        .map(|(key, now)| (key.to_string(), *now))
        .collect();
    assert_eq!(entries, expected);
}

#[test]
fn a_second_decision_replaces_the_first() {
    let mut session = new_session(&config("/root"), "/root/workspace");
    append_pending_event(&mut session.store, "https://a.example", 15);
    session.dismiss_target("a.example", 10).unwrap();
    assert_eq!(pending_targets(&session), vec!["https://a.example:443"]);
    session.dismiss_target("a.example", 20).unwrap();
    assert!(pending_targets(&session).is_empty());
    assert_eq!(
        session.store.dismissed.as_deref(),
        Some("{\n  \"https://a.example:443\": 20\n}\n")
    );
}

#[test]
fn refused_connectors_leave_the_files_as_they_are() {
    let text = "{ \"b\": 2,\"a\":1 }";
    let mut store = store_fixture("", text);
    assert!(store.ensure_connector_endpoint("https://a.example").is_err());
    assert!(store.ensure_connector_endpoint("tcp://a.example").is_err());
    assert_eq!(store.dismissed.as_deref(), Some(text));
    assert!(matches!(store.connectors, Stored::Missing));
    assert!(store.ensure_connector_endpoint("tcp://a.example:1").is_ok());
    assert_eq!(store.dismissed.as_deref(), Some(text));
}

#[test]
fn steps_tell_whether_their_file_is_written() {
    let mut session = new_session(&config("/root"), "/root/workspace");
    let steps = steps_for(Decision::Deny, "tcp://a.example:1").unwrap();
    let written: Vec<bool> =
        steps.iter().map(|step| session.store.apply_step(step, 1).unwrap()).collect();
    assert_eq!(written, vec![true, false, true]);
    session.allow_target("tcp://a.example:1", 2).unwrap();
    let written: Vec<bool> =
        steps.iter().map(|step| session.store.apply_step(step, 3).unwrap()).collect();
    assert_eq!(written, vec![true, true, true]);
}

#[test]
fn dismissals_are_kept_as_json() {
    let mut store = store_fixture("", "{\"b\": 2, \"a\": 1}\n");
    store.acknowledge_target("https://a.example:443", 7).unwrap();
    assert_eq!(
        store.dismissed.as_deref(),
        Some("{\n  \"a\": 1,\n  \"b\": 2,\n  \"https://a.example:443\": 7\n}\n")
    );
    store.acknowledge_target("a", 9).unwrap();
    let entries = store.dismissed_map().unwrap();
    assert_eq!(entries[0], ("a".to_string(), 9));
    store.dismissed = Some("{\"a\": -1}".to_string());
    assert_eq!(
        store.dismissed_map(),
        Err(StoreError::ParseFailed(StoreFile::Dismissed))
    );
}

#[test]
fn the_latest_attempt_for_a_target_counts() {
    let line = |epoch: &str, host: &str| {
        format!(
            "{{\"event_epoch_nanos\":\"{epoch}\",\"kind\":\"https\",\"host\":\"{host}\",\"port\":443}}\n"
        )
    };
    let log = format!("{}\n  \n{}{}", line("9", "a.example"), line("5", "A.example"), line("x", "b.example"));
    let store = store_fixture(&log, "{\"https://a.example:443\": 5}\n");
    assert!(store.pending_items().unwrap().is_empty());
    let store = store_fixture(&log, "{\"https://a.example:443\": 4}\n");
    let items = store.pending_items().unwrap();
    assert_eq!(items.len(), 1);
    assert_eq!(items[0].epoch, 5);
    assert_eq!(items[0].last_seen_epoch_nanos, "5");
}

#[test]
fn logs_name_what_is_wrong_with_them() {
    let bad_host =
        "{\"event_epoch_nanos\":\"1\",\"kind\":\"https\",\"host\":\"bad host\",\"port\":443}\n";
    let store = store_fixture(bad_host, "{}\n");
    assert_eq!(
        store.pending_items().err(),
        Some(StoreError::Target(EgressError::InvalidHostname))
    );
    let log = PendingLog::split("a\r\nb");
    assert_eq!(log.records.len(), 2);
    assert_eq!(log.records[0].line, "a");
    assert!(!log.complete);
    assert!(PendingLog::split("a\n").complete);
    assert_eq!(PendingError::Malformed(3), PendingError::Malformed(3));
}

#[test]
fn setting_up_fills_in_what_is_missing() {
    let config = config("/root");
    let mut store = SessionStore::from_dir("/d".to_string());
    store.allowed = Some("https://only.example:443\n".to_string());
    store.connectors = Stored::Held(vec![ConnectorMapping {
        target: parse_target_spec("tcp://db.example:1").unwrap(),
        listen_port: 46007,
    }]);
    store.initialize(&config).unwrap();
    assert_eq!(store.allowed_target_specs().unwrap(), vec!["https://only.example:443"]);
    assert_eq!(store.connector_mappings().unwrap()[0].listen_port, 46007);
    assert_eq!(store.dismissed_map().unwrap().len(), 0);
    assert_eq!(store.pending_items().unwrap().len(), 0);
    let mut broken = self::config("/root");
    broken.user_defaults = Some("ftp://x\n".to_string());
    let mut store = SessionStore::from_dir("/d".to_string());
    assert_eq!(
        store.initialize(&broken),
        Err(StoreError::Target(EgressError::UnsupportedKind))
    );
    assert_eq!(store.allowed, None);
}

#[test]
fn write_atomic_uses_unique_temp_files() {
    let mut names = Vec::new();
    for pid in [1u32, 11, 111] {
        for counter in [1u64, 11, 111] {
            names.push(temp_file_name(Some("state.txt"), pid, counter));
        }
    }
    assert_eq!(names[0], ".state.txt.1.1.tmp");
    let count = names.len();
    names.sort();
    names.dedup();
    assert_eq!(names.len(), count);
    for name in names {
        assert!(name.starts_with(".state.txt.") && name.ends_with(".tmp"));
    }
    assert_eq!(temp_file_name(None, 1, 2), ".llm-box-state.1.2.tmp");
}

#[test]
fn acquire_file_lock_recovers_stale_lock_file() {
    assert_eq!(
        lock_path_for(Some("/root"), Some("allowed-targets.txt")),
        "/root/.allowed-targets.txt.lock"
    );
    assert_eq!(lock_path_for(None, None), "./.llm-box-state.lock");
    assert_eq!(try_remove_stale_lock("999999\n0\n", 1_000), Ok(LockCheck::Stale));
    assert_eq!(
        acquire_file_lock(LockTry::Taken { stale_removed: true, waited_millis: 5_000 }),
        Ok(LockAction::TryAgain)
    );
    assert_eq!(acquire_file_lock(LockTry::Created), Ok(LockAction::Proceed));
    assert!(lock_metadata(123, 9).starts_with("123\n"));
}

#[test]
fn acquire_file_lock_reports_invalid_lock_metadata() {
    let error = try_remove_stale_lock("999999\nnot-a-timestamp\n", 1_000).unwrap_err();
    assert!(error.message("/root/.x.lock").contains("invalid lock timestamp"));
}

#[test]
fn locks_are_held_until_they_are_old() {
    let contents = lock_metadata(42, 100);
    assert_eq!(contents, "42\n100\n");
    assert_eq!(try_remove_stale_lock(&contents, 50), Ok(LockCheck::Held));
    assert_eq!(try_remove_stale_lock(&contents, 129), Ok(LockCheck::Held));
    assert_eq!(try_remove_stale_lock(&contents, 130), Ok(LockCheck::Stale));
    assert_eq!(try_remove_stale_lock("42\n", 130), Ok(LockCheck::Unstamped));
    assert_eq!(unstamped_lock(29), Ok(()));
    assert_eq!(unstamped_lock(30), Err(LockError::MissingTimestamp));
    let waited = |waited_millis| LockTry::Taken { stale_removed: false, waited_millis };
    assert_eq!(acquire_file_lock(waited(1_999)), Ok(LockAction::WaitAndTryAgain));
    assert_eq!(acquire_file_lock(waited(2_000)), Err(LockError::TimedOut));
    assert_eq!(LockError::TimedOut.message("/l"), "timed out waiting for lock /l");
    assert_eq!(
        LockError::MissingTimestamp.message("/l"),
        "failed to parse /l; missing lock timestamp"
    );
}

#[test]
fn paths_are_those_of_the_standard_library() {
    for base in ["", "/", "/a", "a", "a/"] {
        for rel in ["", "b", "/b", "b/c", "."] {
            let expected = std::path::Path::new(base).join(rel);
            assert_eq!(join(base, rel), expected.to_str().unwrap());
        }
    }
    for id in ["", ".", "..", "a", "a/", "a/.", "a/b", "/a", "./a", "a//", ".a", "../escape"] {
        let mut components = std::path::Path::new(id).components();
        let expected = matches!(
            (components.next(), components.next()),
            (Some(std::path::Component::Normal(_)), None)
        );
        assert_eq!(single_name(id), expected, "{id}");
    }
    assert_eq!(resolve_path("/srv", "//a/b.html"), Some("/srv/a/b.html".to_string()));
    assert_eq!(resolve_path("/srv", "/"), Some("/srv/index.html".to_string()));
    assert_eq!(resolve_path("/srv", "/a/../../x"), None);
}
