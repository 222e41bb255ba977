//! Destinations: reading them, writing them, keeping sets of them.
use llm_box::connectors::{
    connector_endpoint, endpoint_for, ensure_connector_mapping, remove_connector_mapping,
    sort_and_dedup_connector_mappings, ConnectorMapping, CONNECTOR_PORT_END, CONNECTOR_PORT_START,
};
use llm_box::egress::{
    host_for_uri, normalize_host, parse_kind, parse_target_spec, split_host_port, trim_authority,
    validate_normalized_host, EgressError, EgressKind, EgressTarget, BROKER_INTERNAL_HOST,
};
use llm_box::number::{decimal_of, hex_of, read_number, read_port};
use llm_box::order::text_is_before;
use llm_box::pieces::{line_list, split_all, word_list};
use llm_box::target_set::{
    contains_target, insert_target, parse_allowed_targets, remove_target, serialize_target_set,
};
use llm_box::text::{
    contains, end_trimmed, equals, equals_ignore_case, split_at_first, split_at_last, split_at_str,
    start_trimmed, to_lower, trimmed, utf8_len, white_space, without_prefix, CharClass,
};
use llm_box::text_set::{insert_text, remove_text, sorted_texts, write_lines};

fn target(text: &str) -> EgressTarget {
    parse_target_spec(text).unwrap()
}

fn texts(list: &[&str]) -> Vec<String> {
    list.iter().map(|item| item.to_string()).collect()
}

#[test]
fn parse_https_target_defaults_port() {
    let target = parse_target_spec("https://Objects.GitHubusercontent.com/foo").unwrap();
    assert_eq!(target.to_text(), "https://objects.githubusercontent.com:443");
}

#[test]
fn parse_target_without_scheme_defaults_to_https() {
    let target = parse_target_spec("github.com").unwrap();
    assert_eq!(target.to_text(), "https://github.com:443");
}

#[test]
fn parse_tcp_target_requires_port() {
    assert!(parse_target_spec("tcp://db.example").is_err());
}

#[test]
fn connector_endpoint_uses_broker_host() {
    assert_eq!(connector_endpoint(46001), "llm-box-broker:46001");
}

#[test]
fn normalize_host_strips_scheme_path_and_port() {
    assert_eq!(
        normalize_host("https://Objects.GitHubusercontent.com:443/foo").unwrap(),
        "objects.githubusercontent.com"
    );
}

#[test]
fn normalize_host_handles_plain_host() {
    assert_eq!(normalize_host("github.com").unwrap(), "github.com");
}

#[test]
fn normalize_host_preserves_ipv6_literals() {
    assert_eq!(normalize_host("2001:db8::1").unwrap(), "2001:db8::1");
    assert_eq!(normalize_host("[2001:db8::1]:443").unwrap(), "2001:db8::1");
}

#[test]
fn normalize_host_rejects_unsafe_characters() {
    assert!(normalize_host("bad host").is_err());
    assert!(normalize_host("bad'host").is_err());
}

#[test]
fn letter_case_does_not_matter_for_hosts() {
    for value in ["github.com", " https://User@Git.Example.:443/x ", "[2001:DB8::1]", "bad host", " "] {
        assert_eq!(normalize_host(&value.to_ascii_uppercase()), normalize_host(value));
        assert_eq!(normalize_host(&value.to_ascii_lowercase()), normalize_host(value));
    }
    assert_eq!(normalize_host(" \t"), Err(EgressError::InvalidHostname));
}

#[test]
fn every_destination_error_comes_with_its_message() {
    assert_eq!(parse_target_spec("  "), Err(EgressError::InvalidDestination));
    assert_eq!(parse_target_spec("https://"), Err(EgressError::InvalidHostname));
    assert_eq!(parse_target_spec("https://[::1"), Err(EgressError::InvalidBracketedHost));
    assert_eq!(parse_target_spec("https://a.example:x"), Err(EgressError::InvalidPort));
    assert_eq!(parse_target_spec("tcp://db.example"), Err(EgressError::PortRequired));
    assert_eq!(
        parse_target_spec("tcp://db.example:0"),
        Err(EgressError::PortRequiredFor(EgressKind::Tcp))
    );
    assert_eq!(parse_target_spec("ftp://a.example"), Err(EgressError::UnsupportedKind));
    assert_eq!(EgressError::InvalidDestination.message(), "invalid destination");
    assert_eq!(EgressError::InvalidHostname.message(), "invalid hostname");
    assert_eq!(EgressError::InvalidBracketedHost.message(), "invalid bracketed host");
    assert_eq!(EgressError::InvalidPort.message(), "invalid port");
    assert_eq!(EgressError::InvalidConnectPort.message(), "invalid CONNECT port");
    assert_eq!(EgressError::PortRequired.message(), "port is required");
    assert_eq!(
        EgressError::PortRequiredFor(EgressKind::Mcp).message(),
        "port is required for mcp"
    );
    assert_eq!(EgressError::UnsupportedKind.message(), "unsupported destination kind");
    assert_eq!(
        EgressError::NotAConnector.message(),
        "destination does not use a broker connector"
    );
    assert_eq!(EgressError::NoConnectorPorts.message(), "no connector ports available");
}

#[test]
fn kinds_have_names_ports_and_connectors() {
    assert_eq!(parse_kind("HTTPS"), Ok(EgressKind::Https));
    assert_eq!(parse_kind("gopher"), Err(EgressError::UnsupportedKind));
    assert_eq!(EgressKind::Http.default_port(), 80);
    assert_eq!(EgressKind::Ssh.default_port(), 22);
    assert_eq!(EgressKind::Tcp.default_port(), 0);
    assert!(EgressKind::Mcp.uses_connector());
    assert!(!EgressKind::Https.uses_connector());
    assert_eq!(EgressKind::Ssh.as_str(), "ssh");
}

#[test]
fn destinations_keep_what_was_asked_for() {
    assert_eq!(target("ssh://Git.Example").to_text(), "ssh://git.example:22");
    assert_eq!(target("http://a.example/x?y#z").to_text(), "http://a.example:80");
    assert_eq!(target("a.example:8443").to_text(), "https://a.example:8443");
    assert_eq!(target("https://[2001:db8::1]").to_text(), "https://[2001:db8::1]:443");
    assert_eq!(target("https://a.example:+443").to_text(), "https://a.example:443");
    assert_eq!(target("https://user@a.example.:443").to_text(), "https://a.example:443");
}

#[test]
fn a_host_that_reads_as_a_host_and_a_port_is_not_canonical() {
    let made = EgressTarget::new(EgressKind::Https, "[1234:5678]", 443).unwrap();
    assert_eq!(made.to_text(), "https://[1234:5678]:443");
    assert!(!made.same(&target(&made.to_text())));
}

#[test]
fn canonical_text_names_the_same_target() {
    for text in [
        "https://API.GitHub.com",
        "tcp://db.example.internal:5432",
        "[2001:db8::1]:8443",
        "mcp://tools.example:9000/path",
    ] {
        let first = target(text);
        assert!(first.same(&target(&first.to_text())));
    }
}

#[test]
fn parts_of_a_destination_are_split_off() {
    assert_eq!(trim_authority("a.example:1/b?c#d"), "a.example:1");
    assert_eq!(trim_authority("a.example#d/e"), "a.example");
    assert_eq!(host_for_uri("::1"), "[::1]");
    assert_eq!(host_for_uri("a.example"), "a.example");
    assert_eq!(split_host_port(" a.example ", 80), Ok(("a.example".to_string(), 80)));
    assert_eq!(split_host_port("[::1]:8080", 80), Ok(("::1".to_string(), 8080)));
    assert_eq!(split_host_port("::1", 80), Ok(("::1".to_string(), 80)));
    assert_eq!(split_host_port("a.example", 0), Err(EgressError::PortRequired));
    assert!(validate_normalized_host("a-b.example").is_ok());
    assert!(validate_normalized_host("fe80::1").is_ok());
    assert!(validate_normalized_host("UPPER").is_err());
    assert!(validate_normalized_host("a b").is_err());
    assert!(validate_normalized_host("g::1").is_err());
}

#[test]
fn files_of_targets_are_sorted_and_read_back() {
    let mut list =
        parse_allowed_targets(" tcp://b.example:1\n\nhttps://Z.example\nz.example:443\r\n")
            .unwrap();
    assert_eq!(serialize_target_set(&list), "https://z.example:443\ntcp://b.example:1\n");
    insert_target(&mut list, target("http://c.example"));
    insert_target(&mut list, target("http://c.example"));
    assert_eq!(
        serialize_target_set(&list),
        "http://c.example:80\nhttps://z.example:443\ntcp://b.example:1\n"
    );
    remove_target(&mut list, &target("z.example"));
    remove_target(&mut list, &target("not.there"));
    assert!(!contains_target(&list, &target("z.example")));
    let text = serialize_target_set(&list);
    assert_eq!(serialize_target_set(&parse_allowed_targets(&text).unwrap()), text);
    assert_eq!(parse_allowed_targets("a.example\nftp://x\n"), Err(EgressError::UnsupportedKind));
}

fn mapping(text: &str, listen_port: u16) -> ConnectorMapping {
    ConnectorMapping { target: target(text), listen_port }
}

#[test]
fn connectors_get_the_lowest_free_port_and_keep_it() {
    let mut list: Vec<ConnectorMapping> = Vec::new();
    let first = ensure_connector_mapping(&mut list, &target("tcp://a.example:1")).unwrap();
    let second = ensure_connector_mapping(&mut list, &target("ssh://b.example")).unwrap();
    let again = ensure_connector_mapping(&mut list, &target("tcp://a.example:1")).unwrap();
    assert_eq!(first.listen_port, CONNECTOR_PORT_START);
    assert_eq!(second.listen_port, CONNECTOR_PORT_START + 1);
    assert_eq!(again.listen_port, first.listen_port);
    assert_eq!(again.endpoint(), format!("{}:{}", BROKER_INTERNAL_HOST, CONNECTOR_PORT_START));
    assert_eq!(
        endpoint_for(&list, "ssh://b.example:22"),
        Some(second.endpoint())
    );
    assert_eq!(endpoint_for(&list, "ssh://c.example:22"), None);
    assert!(remove_connector_mapping(&mut list, &target("tcp://a.example:1")));
    assert!(!remove_connector_mapping(&mut list, &target("tcp://a.example:1")));
    assert_eq!(list.len(), 1);
    let third = ensure_connector_mapping(&mut list, &target("mcp://c.example:9")).unwrap();
    assert_eq!(third.listen_port, CONNECTOR_PORT_START);
}

#[test]
fn connectors_are_refused_where_none_is_needed_or_left() {
    let mut list: Vec<ConnectorMapping> = Vec::new();
    assert_eq!(
        ensure_connector_mapping(&mut list, &target("https://a.example")).err(),
        Some(EgressError::NotAConnector)
    );
    let mut port = CONNECTOR_PORT_START;
    while port <= CONNECTOR_PORT_END {
        list.push(mapping(&format!("tcp://h{port}.example:1"), port));
        port += 1;
    }
    assert_eq!(
        ensure_connector_mapping(&mut list, &target("tcp://one.more:1")).err(),
        Some(EgressError::NoConnectorPorts)
    );
}

#[test]
fn repeated_connectors_keep_the_lowest_port() {
    let mut list = vec![
        mapping("tcp://b.example:1", 46005),
        mapping("tcp://a.example:1", 46009),
        mapping("tcp://b.example:1", 46002),
    ];
    sort_and_dedup_connector_mappings(&mut list);
    assert_eq!(list.len(), 2);
    assert_eq!(list[0].target.host, "a.example");
    assert_eq!(list[1].listen_port, 46002);
}

#[test]
fn white_space_is_that_of_the_standard_library() {
    let mut code: u32 = 0;
    while code <= 0x10ffff {
        if let Some(c) = char::from_u32(code) {
            assert_eq!(white_space(c), c.is_whitespace(), "{code:x}");
        }
        code += 1;
    }
}

#[test]
fn text_functions_agree_with_the_standard_library() {
    for s in ["", "a", " a b\t", "a:b:c", "\u{2003}x\u{85}", "Ab\u{df}C", "x\r\n", "://", "a://b://c"] {
        assert_eq!(trimmed(s), s.trim());
        assert_eq!(to_lower(s), s.to_ascii_lowercase());
        assert_eq!(split_at_first(s, ':'), s.split_once(':'));
        assert_eq!(split_at_last(s, ':'), s.rsplit_once(':'));
        assert_eq!(split_at_str(s, "://"), s.split_once("://"));
        assert_eq!(without_prefix(s, "a"), s.strip_prefix("a"));
        assert_eq!(start_trimmed(s, CharClass::One('a')), s.trim_start_matches('a'));
        assert_eq!(end_trimmed(s, CharClass::LineBreak), s.trim_end_matches(['\r', '\n']));
        assert_eq!(contains(s, ':'), s.contains(':'));
        assert_eq!(utf8_len(s), s.len());
        assert_eq!(word_list(s), texts(&s.split_whitespace().collect::<Vec<_>>()));
        assert_eq!(split_all(s, ':'), texts(&s.split(':').collect::<Vec<_>>()));
        assert!(equals(s, s));
        assert!(equals_ignore_case(s, &s.to_ascii_uppercase()));
    }
    for s in ["", "\n", "a", "a\n", "a\r\nb", "a\n\nb\r", "\r\n"] {
        assert_eq!(line_list(s), texts(&s.lines().collect::<Vec<_>>()));
    }
}

#[test]
fn numbers_agree_with_the_standard_library() {
    for s in ["", "0", "00", "+1", "-1", "+", "18446744073709551615", "18446744073709551616", "1x"] {
        assert_eq!(read_number(s, u64::MAX), s.parse::<u64>().ok());
        assert_eq!(read_port(s), s.parse::<u16>().ok());
    }
    assert_eq!(read_port("65535"), Some(65535));
    assert_eq!(read_port("65536"), None);
    assert_eq!(decimal_of(0), "0");
    assert_eq!(decimal_of(u64::MAX), u64::MAX.to_string());
    assert_eq!(hex_of(&vec![0, 1, 15, 16, 171, 255]), "00010f10abff");
}

#[test]
fn text_order_is_that_of_the_standard_library() {
    let list = ["", "a", "A", "ab", "b", "\u{df}", "z", "\u{ffff}", "\u{10000}"];
    for a in list {
        for b in list {
            assert_eq!(text_is_before(a, b), a < b);
        }
    }
}

#[test]
fn sets_of_texts_are_sorted_without_repeats() {
    let list = sorted_texts(texts(&["b", "a", "b"]));
    assert_eq!(list, texts(&["a", "b"]));
    let list = insert_text(list, "aa".to_string());
    assert_eq!(list, texts(&["a", "aa", "b"]));
    let list = remove_text(list, &"a".to_string());
    assert_eq!(write_lines(&list), "aa\nb\n");
}
