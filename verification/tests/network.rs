//! The broker, the web proxy and the server of files.
use llm_box::broker::{
    bad_request_response, format_host_header, is_loopback_host, parse_connect_target,
    parse_http_target, route_request, split_once_or, BrokerRoute, BrokerState, TunnelTable, Verdict,
};
use llm_box::connectors::ConnectorMapping;
use llm_box::egress::{parse_target_spec, EgressError, EgressKind, EgressTarget};
use llm_box::http::{
    body_length, error_response, header_value, hop_by_hop_headers, read_request, upstream_head,
    RequestError, RequestHead, RequestReader,
};
use llm_box::proxy;
use llm_box::proxy::ProxyState;
use llm_box::static_files::{file_response_head, static_step, write_response, StaticStep};
use llm_box::store::{SessionStore, Stored};
use llm_box::webui::UiFailure;

fn fields(list: &[(&str, &str)]) -> Vec<(String, String)> {
    list.iter().map(|(name, value)| (name.to_string(), value.to_string())).collect()
}

fn texts(list: &[&str]) -> Vec<String> {
    list.iter().map(|item| item.to_string()).collect()
}

fn broker(allowed: Option<&str>, alias: Option<&str>) -> BrokerState {
    BrokerState {
        allowed: allowed.map(|text| text.to_string()),
        host_loopback_alias: alias.map(|text| text.to_string()),
        active_connectors: Vec::new(),
    }
}

#[test]
fn broker_close_disallowed_tunnels_shuts_down_registered_streams() {
    let state = broker(Some("https://allowed.example:443\n"), None);
    let mut tunnels = TunnelTable::new();
    let tunnel_id = tunnels.register_tunnel("https://denied.example:443");
    let kept = tunnels.register_tunnel("https://allowed.example:443");
    assert_eq!((tunnel_id, kept), (1, 2));
    let closed = tunnels.close_disallowed_tunnels(&state.allowed_keys().unwrap());
    assert_eq!(closed, vec![tunnel_id]);
    tunnels.unregister_tunnel("https://denied.example:443", tunnel_id);
    assert_eq!(tunnels.open.len(), 1);
    tunnels.unregister_tunnel("https://allowed.example:443", kept);
    assert!(tunnels.open.is_empty());
    assert_eq!(tunnels.next_id, 3);
}

#[test]
fn read_request_rejects_invalid_header_line() {
    let lines = texts(&["GET / HTTP/1.1\r\n", "invalid-header\r\n", "\r\n"]);
    let error = read_request(&lines, true).unwrap_err();
    assert!(error.message().contains("invalid header line"));
}

#[test]
fn parse_connect_target_rejects_invalid_port() {
    let error = parse_connect_target("example.com:not-a-port").unwrap_err();
    assert!(error.message().contains("invalid CONNECT port"));
}

#[test]
fn loopback_detection_matches_supported_hosts() {
    assert!(is_loopback_host("localhost"));
    assert!(is_loopback_host("127.0.0.1"));
    assert!(is_loopback_host("::1"));
    assert!(!is_loopback_host("example.com"));
}

#[test]
fn ensure_connector_for_target_reuses_mapping() {
    let mut store = SessionStore::from_dir("/d".to_string());
    store.connectors = Stored::Held(Vec::new());
    let target = EgressTarget::new(EgressKind::Tcp, "db.example", 5432).unwrap();
    let first = store.ensure_connector_for_target(&target).unwrap();
    let second = store.ensure_connector_for_target(&target).unwrap();
    assert_eq!(first.listen_port, second.listen_port);
    assert_eq!(
        first.endpoint(),
        llm_box::connectors::connector_endpoint(first.listen_port)
    );
}

#[test]
fn proxy_close_disallowed_tunnels_shuts_down_registered_streams() {
    let mut state = ProxyState {
        allowed: Some("allowed.example\n".to_string()),
        tunnels: TunnelTable::new(),
    };
    let tunnel_id = state.register_tunnel("denied.example").unwrap();
    let hosts = state.allowed_hosts().unwrap();
    assert_eq!(state.close_disallowed_tunnels(&hosts), vec![tunnel_id]);
    state.unregister_tunnel("denied.example", tunnel_id).unwrap();
    assert!(state.tunnels.open.is_empty());
}

#[test]
fn proxy_tunnels_go_by_the_normalized_host() {
    let mut state = ProxyState { allowed: None, tunnels: TunnelTable::new() };
    let first = state.register_tunnel("Host.Example").unwrap();
    let second = state.register_tunnel("host.example").unwrap();
    assert_eq!(state.tunnels.open[0].key, "host.example");
    state.unregister_tunnel("HOST.example", first).unwrap();
    assert_eq!(state.tunnels.next_id, 3);
    assert_eq!(state.close_disallowed_tunnels(&Vec::new()), vec![second]);
    assert_eq!(state.tunnels.next_id, 3);
    assert_eq!(state.register_tunnel("host.example"), Ok(3));
}

#[test]
fn proxy_goes_by_hosts() {
    let mut state = ProxyState {
        allowed: Some(" Allowed.example:443 \n\nhttps://b.example/x\n".to_string()),
        tunnels: TunnelTable::new(),
    };
    assert_eq!(state.is_allowed("ALLOWED.example"), Ok(true));
    assert_eq!(state.is_allowed("b.example:80"), Ok(true));
    assert_eq!(state.is_allowed("c.example"), Ok(false));
    assert_eq!(state.is_allowed("bad host"), Err(EgressError::InvalidHostname));
    assert_eq!(state.register_tunnel("bad host"), Err(EgressError::InvalidHostname));
    assert_eq!(state.register_tunnel("b.example"), Ok(2));
    let entry = state.log_blocked("C.example", Some(443), 17).unwrap();
    assert_eq!((entry.timestamp.as_str(), entry.host.as_str(), entry.port), ("17", "c.example", Some(443)));
    state.allowed = None;
    assert_eq!(state.is_allowed("b.example"), Ok(false));
    state.allowed = Some("bad host\n".to_string());
    assert_eq!(state.allowed_hosts(), Err(EgressError::InvalidHostname));
}

#[test]
fn proxy_reads_its_own_targets() {
    assert_eq!(
        proxy::parse_connect_target("A.example:8443"),
        Ok(("a.example".to_string(), 8443))
    );
    assert_eq!(proxy::parse_connect_target("a.example"), Ok(("a.example".to_string(), 443)));
    assert_eq!(
        proxy::parse_connect_target("bad host:x"),
        Err(EgressError::InvalidHostname)
    );
    assert_eq!(
        proxy::parse_connect_target("a.example:x"),
        Err(EgressError::InvalidConnectPort)
    );
    assert_eq!(proxy::split_host_port("a.example", 0), Ok(("a.example".to_string(), 0)));
    assert_eq!(proxy::split_host_port("[::1]:7", 0), Ok(("::1".to_string(), 7)));
    let (host, port, path, header) =
        proxy::parse_http_target("http://a.example:81/x", &Vec::new()).unwrap();
    assert_eq!((host.as_str(), port, path.as_str(), header.as_str()), ("a.example", 81, "/x", "a.example:81"));
}

#[test]
fn connect_targets_are_https_targets() {
    assert_eq!(parse_connect_target("A.example:8443").unwrap().to_text(), "https://a.example:8443");
    assert_eq!(parse_connect_target("a.example").unwrap().to_text(), "https://a.example:443");
    assert_eq!(parse_connect_target("a.example:0").unwrap().port, 443);
    assert_eq!(parse_connect_target("bad host:443"), Err(EgressError::InvalidHostname));
}

#[test]
fn plain_targets_come_from_the_url_or_the_header() {
    let (target, path, host) = parse_http_target("http://A.example:8080/p?q", &Vec::new()).unwrap();
    assert_eq!(target.to_text(), "http://a.example:8080");
    assert_eq!((path.as_str(), host.as_str()), ("/p?q", "A.example:8080"));
    let (_, path, _) = parse_http_target("http://a.example", &Vec::new()).unwrap();
    assert_eq!(path, "/");
    let headers = fields(&[("X", "y"), ("HOST", "b.example:81")]);
    let (target, path, host) = parse_http_target("/p", &headers).unwrap();
    assert_eq!(target.to_text(), "http://b.example:81");
    assert_eq!((path.as_str(), host.as_str()), ("/p", "b.example:81"));
    let (_, path, host) = parse_http_target("", &fields(&[("host", "c.example:80")])).unwrap();
    assert_eq!((path.as_str(), host.as_str()), ("/", "c.example"));
    assert_eq!(parse_http_target("/p", &Vec::new()).err(), Some(EgressError::InvalidHostname));
    assert_eq!(format_host_header("a", 80, 80), "a");
    assert_eq!(format_host_header("a", 81, 80), "a:81");
    assert_eq!(split_once_or("a/b/c", '/', ("x", "y")), ("a", "b/c"));
    assert_eq!(split_once_or("abc", '/', ("x", "y")), ("x", "y"));
}

fn head(method: &str, target: &str) -> RequestHead {
    RequestHead {
        method: method.to_string(),
        target: target.to_string(),
        version: "HTTP/1.1".to_string(),
        headers: Vec::new(),
    }
}

#[test]
fn requests_are_routed_by_method_and_target() {
    assert_eq!(route_request(&head("post", "/__endpoint")), BrokerRoute::ConnectorControl);
    assert_eq!(route_request(&head("POST", "/__endpoint/")), BrokerRoute::Plain);
    assert_eq!(route_request(&head("Connect", "a:1")), BrokerRoute::Connect);
    assert_eq!(route_request(&head("GET", "/__endpoint")), BrokerRoute::Plain);
}

#[test]
fn only_approved_targets_are_connected_to() {
    let state = broker(Some("https://a.example\nhttp://localhost:80\n"), Some("host.internal"));
    match state.judge(&parse_target_spec("https://a.example").unwrap()).unwrap() {
        Verdict::Connect { host, port } => assert_eq!((host.as_str(), port), ("a.example", 443)),
        other => panic!("{other:?}"),
    }
    match state.judge(&parse_target_spec("http://localhost").unwrap()).unwrap() {
        Verdict::Connect { host, port } => assert_eq!((host.as_str(), port), ("host.internal", 80)),
        other => panic!("{other:?}"),
    }
    match state.judge(&parse_target_spec("https://a.example:444").unwrap()).unwrap() {
        Verdict::Block { reply } => assert_eq!(
            reply,
            "HTTP/1.1 403 Forbidden\r\nContent-Type: text/plain; charset=utf-8\r\nContent-Length: 38\r\nConnection: close\r\n\r\nhttps://a.example:444 is not approved\n"
        ),
        other => panic!("{other:?}"),
    }
    assert_eq!(broker(None, None).is_allowed_target(&parse_target_spec("a.example").unwrap()), Ok(false));
    assert_eq!(
        broker(Some("ftp://x"), None).is_allowed_target(&parse_target_spec("a.example").unwrap()),
        Err(EgressError::UnsupportedKind)
    );
    assert_eq!(broker(None, None).upstream_host("localhost"), "localhost");
    assert!(bad_request_response().starts_with("HTTP/1.1 400 Bad Request\r\n"));
    assert!(bad_request_response().ends_with("\r\n\r\ninvalid broker request\n"));
}

#[test]
fn connectors_are_listened_on_once() {
    let mapping = |text: &str, listen_port: u16| ConnectorMapping {
        target: parse_target_spec(text).unwrap(),
        listen_port,
    };
    let mut state = broker(None, None);
    assert!(state.mark_connector_port_active(&mapping("tcp://b.example:1", 46001)));
    assert!(!state.mark_connector_port_active(&mapping("tcp://x.example:1", 46001)));
    let list = vec![
        mapping("tcp://a.example:1", 46000),
        mapping("tcp://b.example:1", 46001),
        mapping("tcp://c.example:1", 46000),
    ];
    let fresh = state.new_connectors(&list);
    assert_eq!(fresh.len(), 1);
    assert_eq!(fresh[0].target.host, "a.example");
    assert!(state.new_connectors(&list).is_empty());
    let ports: Vec<u16> =
        state.active_connectors.iter().map(|active| active.listen_port).collect();
    assert_eq!(ports, vec![46001, 46000]);
}

#[test]
fn connectors_that_are_gone_are_listened_on_no_longer() {
    let mapping = |text: &str, listen_port: u16| ConnectorMapping {
        target: parse_target_spec(text).unwrap(),
        listen_port,
    };
    let mut state = broker(None, None);
    let before =
        vec![mapping("tcp://a.example:1", 46000), mapping("tcp://b.example:1", 46001)];
    assert_eq!(state.new_connectors(&before).len(), 2);
    let after = vec![mapping("tcp://b.example:1", 46001), mapping("tcp://c.example:1", 46000)];
    let retired = state.retire_connectors(&after);
    assert_eq!(retired.len(), 1);
    assert_eq!(retired[0].target.host, "a.example");
    let fresh = state.new_connectors(&after);
    assert_eq!(fresh.len(), 1);
    assert_eq!(fresh[0].target.host, "c.example");
    assert!(state.retire_connectors(&after).is_empty());
    assert_eq!(state.retire_connectors(&Vec::new()).len(), 2);
    assert!(state.active_connectors.is_empty());
}

#[test]
fn header_fields_are_found_in_any_case() {
    let headers = fields(&[("Host", "a"), ("host", "b"), ("X", "c")]);
    assert_eq!(header_value(&headers, "HOST"), Some("a"));
    assert_eq!(header_value(&headers, "y"), None);
}

#[test]
fn fields_for_one_connection_are_not_passed_on() {
    let headers = fields(&[
        ("Host", "a.example"),
        ("Connection", "close, X-Secret , ,Keep-Alive"),
        ("x-secret", "1"),
        ("TE", "trailers"),
        ("Proxy-Authorization", "Basic"),
        ("Accept", "*/*"),
    ]);
    let names = hop_by_hop_headers(&headers);
    for name in ["connection", "upgrade", "close", "x-secret", "keep-alive"] {
        assert!(names.contains(&name.to_string()), "{name}");
    }
    assert!(!names.contains(&String::new()));
    assert!(!names.contains(&"accept".to_string()));
    assert_eq!(
        upstream_head("GET", "/p", "HTTP/1.1", &headers, "b.example:81"),
        "GET /p HTTP/1.1\r\nAccept: */*\r\nHost: b.example:81\r\nConnection: close\r\n\r\n"
    );
}

#[test]
fn requests_are_read_line_by_line() {
    let mut reader = RequestReader::new(true);
    reader.feed("POST /x\r\n").unwrap();
    reader.feed("Content-Length:  12 \r\n").unwrap();
    assert!(!reader.done);
    reader.feed("\r\n").unwrap();
    assert!(reader.done);
    let head = reader.head.unwrap();
    assert_eq!((head.method.as_str(), head.target.as_str(), head.version.as_str()), ("POST", "/x", "HTTP/1.1"));
    assert_eq!(head.headers, fields(&[("Content-Length", "12")]));
    assert_eq!(body_length(&head, true), Ok(12));
}

#[test]
fn every_request_error_comes_with_its_message() {
    let read = |lines: &[&str]| read_request(&texts(lines), true).map(|_| ());
    assert_eq!(read(&[" \r\n"]), Err(RequestError::EmptyRequestLine));
    assert_eq!(read(&["GET\r\n"]), Err(RequestError::MissingTarget));
    let long = format!("GET /{}\r\n", "a".repeat(9000));
    assert_eq!(read(&[long.as_str()]), Err(RequestError::RequestLineTooLong));
    assert_eq!(read(&["GET / HTTP/1.0\r\n", ""]), Err(RequestError::UnexpectedEnd));
    let long = format!("A: {}\r\n", "a".repeat(9000));
    assert_eq!(read(&["GET /\r\n", long.as_str()]), Err(RequestError::HeaderLineTooLong));
    let wide = format!("A: {}\r\n", "a".repeat(8000));
    let mut lines = vec!["GET /\r\n"];
    for _ in 0..9 {
        lines.push(wide.as_str());
    }
    assert_eq!(read(&lines), Err(RequestError::HeadersTooLarge));
    assert_eq!(read(&["GET /\r\n", "bare\r\n"]), Err(RequestError::InvalidHeaderLine));
    let mut big = head("POST", "/");
    big.headers = fields(&[("content-length", "1048577")]);
    assert_eq!(body_length(&big, true), Err(RequestError::BodyTooLarge));
    assert_eq!(body_length(&big, false), Ok(1048577));
    big.headers = fields(&[("content-length", "x")]);
    assert_eq!(body_length(&big, true), Ok(0));
    assert_eq!(RequestError::EmptyRequestLine.message(), "empty request line");
    assert_eq!(RequestError::RequestLineTooLong.message(), "request line too long");
    assert_eq!(RequestError::MissingTarget.message(), "missing request target");
    assert_eq!(RequestError::UnexpectedEnd.message(), "unexpected end of headers");
    assert_eq!(RequestError::HeaderLineTooLong.message(), "header line too long");
    assert_eq!(RequestError::HeadersTooLarge.message(), "headers too large");
    assert_eq!(RequestError::BodyTooLarge.message(), "request body too large");
}

#[test]
fn readers_without_limits_take_the_end_for_the_end_of_the_head() {
    let reader = read_request(&texts(&["GET / HTTP/1.0\r\n", "A: b\r\n", ""]), false).unwrap();
    assert!(reader.done);
    assert_eq!(reader.head.unwrap().headers.len(), 1);
}

#[test]
fn responses_carry_their_length_in_bytes() {
    assert_eq!(
        error_response(400, "Bad Request", "\u{e4}"),
        "HTTP/1.1 400 Bad Request\r\nContent-Type: text/plain; charset=utf-8\r\nContent-Length: 3\r\nConnection: close\r\n\r\n\u{e4}\n"
    );
}

#[test]
fn files_are_served_below_the_directory_only() {
    match static_step("/srv", "GET", "/a.html") {
        StaticStep::Serve { path, with_body } => assert_eq!((path.as_str(), with_body), ("/srv/a.html", true)),
        other => panic!("{other:?}"),
    }
    match static_step("/srv", "HEAD", "/") {
        StaticStep::Serve { path, with_body } => assert_eq!((path.as_str(), with_body), ("/srv/index.html", false)),
        other => panic!("{other:?}"),
    }
    assert!(matches!(static_step("/srv", "GET", "/../x"), StaticStep::Drop));
    assert!(matches!(
        static_step("/srv", "POST", "/"),
        StaticStep::Refuse(UiFailure::MethodNotAllowed)
    ));
    assert_eq!(
        write_response(UiFailure::MethodNotAllowed),
        "HTTP/1.1 405 Method Not Allowed\r\nContent-Length: 19\r\nConnection: close\r\n\r\nmethod not allowed\n"
    );
    assert_eq!(
        file_response_head(5),
        "HTTP/1.1 200 OK\r\nContent-Length: 5\r\nConnection: close\r\n\r\n"
    );
}
