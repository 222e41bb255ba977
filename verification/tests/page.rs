//! The approvals page.
use llm_box::config::{AppConfig, Environment};
use llm_box::egress::{EgressError, EgressKind};
use llm_box::pending::{LogRecord, PendingLog, PendingLogEntry};
use llm_box::store::{Decision, SessionMeta, SessionStore, StoreError, StoreFile, Stored};
use llm_box::ui::{
    health_body, hub_args, hub_notice, hub_step, open_browser, ui_recently_active, wants_hub,
    ApprovalsHub, Desktop, HubNotice, HubStep, HEALTH_REQUEST,
};
use llm_box::webui::{
    failure_for, hub_entry, load_hub_state, mark_ui_activity, parse_mutation_body, scan_request,
    session_dir_for_id, session_meta_path, text_response, ui_action, ui_health, validate_session_id,
    FoundSession, HeadReader, HubSession, MutationError, SessionIdError, UiAction, UiFailure,
    UiHealth, UiTrouble,
    UI_HUB_PROTOCOL_VERSION,
};

fn texts(list: &[&str]) -> Vec<String> {
    list.iter().map(|item| item.to_string()).collect()
}

fn fixture(id: &str, started: u64, active: bool, allowed: &str, pending: &[&str]) -> SessionStore {
    let mut store = SessionStore::from_dir(format!("/sessions/{id}"));
    store.write_session_meta(&SessionMeta {
        session_id: id.to_string(),
        workspace: format!("/tmp/{id}"),
        provider: "copilot".to_string(),
        last_started_epoch: started,
        last_invocation: texts(&["--resume"]),
    });
    store.allowed = Some(allowed.to_string());
    store.connectors = Stored::Held(Vec::new());
    let mut records = Vec::new();
    for epoch in pending {
        records.push(LogRecord {
            line: "{}".to_string(),
            entry: Some(PendingLogEntry {
                event_epoch_nanos: epoch.to_string(),
                kind: EgressKind::Https,
                host: format!("pending{epoch}.example"),
                port: 443,
            }),
        });
    }
    store.pending = Some(PendingLog { records, complete: true });
    store.dismissed = Some("{}\n".to_string());
    if active {
        store.mark_active(7, 1);
    }
    store
}

fn found(store: SessionStore) -> FoundSession {
    FoundSession { store, has_meta: true, running: true }
}

fn shown(stores: Vec<SessionStore>) -> Vec<HubSession> {
    let mut list: Vec<FoundSession> = stores.into_iter().map(found).collect();
    load_hub_state(&mut list).0.sessions
}

#[test]
fn hub_state_loads_multiple_sessions() {
    let sessions = shown(vec![
        fixture("session-b", 20, true, "", &[]),
        fixture("session-a", 10, true, "https://allowed.example:443\n", &["5"]),
    ]);
    assert_eq!(sessions.len(), 2);
    assert_eq!(sessions[0].session.session_id, "session-a");
    assert_eq!(sessions[0].pending_count, 1);
    assert_eq!(sessions[0].allowed.len(), 1);
    assert_eq!(sessions[1].session.session_id, "session-b");
}

#[test]
fn hub_state_skips_broken_sessions() {
    let mut broken = fixture("session-broken", 10, true, "", &[]);
    broken.meta = Stored::Malformed;
    assert_eq!(
        hub_entry(&mut broken, true).err(),
        Some(StoreError::ParseFailed(StoreFile::SessionMeta))
    );
    let sessions = shown(vec![
        fixture("session-valid", 10, true, "https://allowed.example:443\n", &[]),
        broken,
    ]);
    assert_eq!(sessions.len(), 1);
    assert_eq!(sessions[0].session.session_id, "session-valid");
}

#[test]
fn hub_state_excludes_inactive_sessions() {
    let sessions = shown(vec![
        fixture("session-active", 20, true, "", &[]),
        fixture("session-inactive", 10, false, "", &[]),
    ]);
    assert_eq!(sessions.len(), 1);
    assert_eq!(sessions[0].session.session_id, "session-active");
}

#[test]
fn the_page_leaves_out_what_it_cannot_show() {
    let mut broken = fixture("broken", 10, true, "", &[]);
    broken.dismissed = Some("{not-json}".to_string());
    let mut unknown = fixture("unknown", 10, true, "", &[]);
    unknown.active = Stored::Malformed;
    let mut list = vec![
        found(broken),
        found(unknown),
        FoundSession {
            store: fixture("ended", 10, true, "", &[]),
            has_meta: true,
            running: false,
        },
        FoundSession {
            store: fixture("no-meta", 10, true, "", &[]),
            has_meta: false,
            running: false,
        },
        found(fixture("good", 10, true, "", &[])),
    ];
    let (state, errors) = load_hub_state(&mut list);
    assert_eq!(state.sessions.len(), 1);
    assert_eq!(state.sessions[0].session.session_id, "good");
    assert_eq!(
        errors,
        vec![
            Some(StoreError::ParseFailed(StoreFile::Dismissed)),
            Some(StoreError::ParseFailed(StoreFile::ActiveProcess)),
            None,
            None,
            None,
        ]
    );
    assert!(matches!(list[2].store.active, Stored::Missing));
    assert!(matches!(list[3].store.active, Stored::Held(_)));
    assert!(matches!(list[4].store.active, Stored::Held(_)));
    assert!(load_hub_state(&mut Vec::new()).0.sessions.is_empty());
}

#[test]
fn records_of_processes_that_ended_are_removed() {
    let mut store = fixture("a", 1, true, "", &[]);
    assert!(hub_entry(&mut store, false).unwrap().is_none());
    assert!(matches!(store.active, Stored::Missing));
    store.active = Stored::Malformed;
    assert_eq!(
        hub_entry(&mut store, true).err(),
        Some(StoreError::ParseFailed(StoreFile::ActiveProcess))
    );
}

#[test]
fn sessions_are_ordered_by_what_they_wait_for() {
    let sessions = shown(vec![
        fixture("d", 1, true, "", &[]),
        fixture("c", 1, true, "", &[]),
        fixture("e", 9, true, "", &[]),
        fixture("b", 1, true, "", &["7"]),
        fixture("a", 1, true, "", &["3", "7"]),
        fixture("f", 1, true, "", &["8"]),
    ]);
    let order: Vec<&str> =
        sessions.iter().map(|entry| entry.session.session_id.as_str()).collect();
    assert_eq!(order, vec!["f", "a", "b", "e", "c", "d"]);
    assert_eq!(sessions[1].last_pending_epoch_nanos, 7);
    assert_eq!(sessions[1].pending_count, 2);
}

#[test]
fn session_dir_for_id_rejects_nested_paths() {
    let error = session_dir_for_id("/root/sessions", "../escape", true).unwrap_err();
    assert!(error.message("../escape").contains("invalid session id"));
}

#[test]
fn sessions_are_found_by_name() {
    assert_eq!(
        session_dir_for_id("/s", "abc", true),
        Ok("/s/abc".to_string())
    );
    assert_eq!(session_dir_for_id("/s", "abc", false), Err(SessionIdError::Unknown));
    assert_eq!(SessionIdError::Unknown.message("abc"), "unknown session `abc`");
    assert_eq!(session_meta_path("/s", "abc"), Ok("/s/abc/session-meta.json".to_string()));
    assert_eq!(session_meta_path("/s", ".."), Err(SessionIdError::Invalid));
    assert_eq!(validate_session_id("abc"), Ok("abc"));
    assert_eq!(validate_session_id(""), Err(SessionIdError::Invalid));
}

#[test]
fn decisions_are_checked_before_they_are_made() {
    let body = parse_mutation_body("abc", "A.example").unwrap();
    assert_eq!((body.session_id.as_str(), body.target.as_str()), ("abc", "https://a.example:443"));
    assert_eq!(
        parse_mutation_body("a/b", "").err(),
        Some(MutationError::Session(SessionIdError::Invalid))
    );
    assert_eq!(
        parse_mutation_body("abc", "").err(),
        Some(MutationError::Target(EgressError::InvalidDestination))
    );
}

#[test]
fn requests_to_the_page_are_read_to_the_end_of_the_head() {
    let reader = scan_request(&texts(&[
        "POST /api/allow?x=1 HTTP/1.1\r\n",
        "bare\r\n",
        "Content-Length: 5\r\n",
        "content-length: 7\r\n",
        "\r\n",
        "rest",
    ]))
    .unwrap();
    assert!(reader.done);
    assert_eq!((reader.method.as_str(), reader.route()), ("POST", "/api/allow"));
    assert_eq!(reader.body_length(), Ok(7));
    assert!(reader.marks_activity());
    let health = scan_request(&texts(&["GET /api/health?x HTTP/1.1\r\n"])).unwrap();
    assert!(!health.marks_activity());
    let blank = scan_request(&texts(&["\r\n"])).unwrap();
    assert_eq!((blank.method.as_str(), blank.target.as_str()), ("", "/"));
}

#[test]
fn requests_to_the_page_are_refused_with_a_status() {
    let refused = |lines: &[&str]| scan_request(&texts(lines)).map(|_| ());
    assert_eq!(refused(&[""]), Err(UiFailure::InvalidRequest));
    let long = format!("GET /{}\r\n", "a".repeat(9000));
    assert_eq!(refused(&[long.as_str()]), Err(UiFailure::RequestLineTooLong));
    assert_eq!(refused(&["GET /\r\n", ""]), Err(UiFailure::InvalidRequest));
    let long = format!("A: {}\r\n", "a".repeat(9000));
    assert_eq!(refused(&["GET /\r\n", long.as_str()]), Err(UiFailure::HeadersTooLarge));
    let wide = format!("A: {}\r\n", "a".repeat(8000));
    let mut lines = vec!["GET /\r\n"];
    for _ in 0..5 {
        lines.push(wide.as_str());
    }
    assert_eq!(refused(&lines), Err(UiFailure::HeadersTooLarge));
    let mut reader = HeadReader::new();
    reader.feed("POST /\r\n").unwrap();
    reader.feed("Content-Length: 4097\r\n").unwrap();
    assert_eq!(reader.body_length(), Err(UiFailure::PayloadTooLarge));
    let statuses: Vec<u16> = [
        UiFailure::InvalidRequest,
        UiFailure::RequestLineTooLong,
        UiFailure::HeadersTooLarge,
        UiFailure::PayloadTooLarge,
        UiFailure::NotFound,
        UiFailure::InvalidDestination,
        UiFailure::UnknownSession,
        UiFailure::InternalError,
        UiFailure::MethodNotAllowed,
    ]
    .iter()
    .map(|failure| failure.reply().status)
    .collect();
    assert_eq!(statuses, vec![400, 431, 431, 413, 404, 400, 404, 500, 405]);
    assert_eq!(
        text_response(UiFailure::UnknownSession.reply()),
        "HTTP/1.1 404 Not Found\r\nContent-Type: text/plain; charset=utf-8\r\nContent-Length: 16\r\nConnection: close\r\n\r\nunknown session\n"
    );
}

#[test]
fn handle_ui_request_returns_http_500_on_internal_failure() {
    let reader = scan_request(&texts(&[
        "GET /api/state HTTP/1.1\r\n",
        "Host: 127.0.0.1\r\n",
        "Connection: close\r\n",
        "\r\n",
    ]))
    .unwrap();
    assert_eq!(ui_action(&reader.method, reader.route()), UiAction::State);
    let response = text_response(failure_for(UiTrouble::Failed).reply());
    assert!(response.starts_with("HTTP/1.1 500 Internal Server Error"));
    assert!(response.contains("internal error"));
}

#[test]
fn troubles_are_answered_with_a_failure() {
    assert_eq!(failure_for(UiTrouble::MalformedBody), UiFailure::InvalidDestination);
    assert_eq!(
        failure_for(UiTrouble::Mutation(MutationError::Session(SessionIdError::Invalid))),
        UiFailure::InvalidDestination
    );
    assert_eq!(
        failure_for(UiTrouble::Session(SessionIdError::Unknown)),
        UiFailure::UnknownSession
    );
    assert_eq!(failure_for(UiTrouble::Failed), UiFailure::InternalError);
}

#[test]
fn requests_to_the_page_are_routed_by_method_and_path() {
    assert_eq!(ui_action("GET", "/"), UiAction::Page);
    assert_eq!(ui_action("GET", "/api/health"), UiAction::Health);
    assert_eq!(ui_action("POST", "/api/allow"), UiAction::Decide(Decision::Allow));
    assert_eq!(ui_action("POST", "/api/deny"), UiAction::Decide(Decision::Deny));
    assert_eq!(ui_action("POST", "/api/dismiss"), UiAction::Decide(Decision::Dismiss));
    assert_eq!(ui_action("GET", "/api/allow"), UiAction::NotFound);
    assert_eq!(ui_action("get", "/"), UiAction::NotFound);
}

#[test]
fn ui_recently_active_is_true_for_fresh_heartbeat() {
    assert!(ui_recently_active(Some(&mark_ui_activity(1_000)), 1_000));
}

#[test]
fn ui_recently_active_is_false_for_stale_heartbeat() {
    assert!(!ui_recently_active(Some(&mark_ui_activity(1_000 - 60)), 1_000));
}

#[test]
fn use_of_the_page_counts_for_five_seconds() {
    assert_eq!(mark_ui_activity(1_000), "1000\n");
    assert!(ui_recently_active(Some("1000\n"), 1_005));
    assert!(!ui_recently_active(Some("1000\n"), 1_006));
    assert!(ui_recently_active(Some("1000\n"), 5));
    assert!(!ui_recently_active(Some("x"), 5));
    assert!(!ui_recently_active(None, 5));
}

fn health_matches(response: &[u8]) -> bool {
    let Some(body) = health_body(response.to_vec()) else {
        return false;
    };
    let Ok(value) = serde_json::from_str::<serde_json::Value>(&body) else {
        return false;
    };
    let (Some(status), Some(version)) =
        (value["status"].as_str(), value["protocol_version"].as_u64())
    else {
        return false;
    };
    UiHealth { status: status.to_string(), protocol_version: version as u32 }.is_current()
}

#[test]
fn ui_health_matches_current_protocol() {
    let response = format!(
        "HTTP/1.1 200 OK\r\nContent-Type: application/json\r\nConnection: close\r\n\r\n{{\"status\":\"ok\",\"protocol_version\":{}}}",
        UI_HUB_PROTOCOL_VERSION
    );
    assert!(health_matches(response.as_bytes()));
}

#[test]
fn ui_health_rejects_legacy_text_response() {
    let response = "HTTP/1.1 200 OK\r\nContent-Type: text/plain\r\nConnection: close\r\n\r\nok\n";
    assert!(!health_matches(response.as_bytes()));
}

#[test]
fn health_is_read_from_good_responses_only() {
    assert_eq!(health_body(b"HTTP/1.1 200 OK\r\n\r\nx\r\n\r\ny".to_vec()), Some("x\r\n\r\ny".to_string()));
    assert_eq!(health_body(b"HTTP/1.1 500 No\r\n\r\nx".to_vec()), None);
    assert_eq!(health_body(b"HTTP/1.1 200 OK\r\n".to_vec()), None);
    assert_eq!(health_body(vec![0xff, 0xfe]), None);
    assert!(ui_health().is_current());
    assert!(!UiHealth { status: "ok".to_string(), protocol_version: 1 }.is_current());
    assert!(HEALTH_REQUEST.starts_with("GET /api/health HTTP/1.1\r\n"));
}

#[test]
fn the_page_is_opened_where_it_is_wanted() {
    let hub = ApprovalsHub::at_port(8123, true);
    assert_eq!(hub.url(None), "http://127.0.0.1:8123/");
    assert_eq!(hub.url(Some("abc")), "http://127.0.0.1:8123/?session=abc");
    assert!(wants_hub(true, true, false));
    assert!(!wants_hub(true, false, false));
    assert!(!wants_hub(true, true, true));
    assert_eq!(hub_notice(true, true, true), HubNotice::OpenBrowser);
    assert_eq!(hub_notice(false, false, true), HubNotice::OpenBrowser);
    assert_eq!(hub_notice(false, true, true), HubNotice::PointToSession);
    assert_eq!(hub_notice(false, true, false), HubNotice::Nothing);
    assert_eq!(hub_step(Some(1), true, true), HubStep::Ready(1));
    assert_eq!(hub_step(None, true, true), HubStep::TimedOut);
    assert_eq!(hub_step(None, false, true), HubStep::Exited);
    assert_eq!(hub_step(None, false, false), HubStep::Wait);
    assert_eq!(open_browser(Desktop::Other, "u"), texts(&["xdg-open", "u"]));
    assert_eq!(open_browser(Desktop::MacOs, "u"), texts(&["open", "u"]));
    assert_eq!(open_browser(Desktop::Windows, "u"), texts(&["cmd", "/C", "start", "", "u"]));
    let env = Environment {
        home: Some("/h".to_string()),
        llm_box_home: None,
        llm_box_image: None,
        llm_box_shared_copilot_skills_dir: None,
    };
    let config = AppConfig::detect(&env, "/repo".to_string(), None).unwrap();
    assert_eq!(
        hub_args(&config),
        texts(&[
            "__ui-hub",
            "--listen-host",
            "127.0.0.1",
            "--listen-port",
            "0",
            "--sessions-root",
            "/h/.llm-box/sessions",
            "--ready-file",
            "/h/.llm-box/ui-ready.json",
            "--activity-file",
            "/h/.llm-box/ui-activity",
        ])
    );
}
