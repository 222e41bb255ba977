//! Outbound destinations: their kinds, their canonical form, and how they are read from text.
use crate::canonical;
use crate::number;
use crate::text;
use crate::text::CharClass;
use vstd::prelude::*;
use vstd::string::*;

verus! {

broadcast use vstd::string::group_string_axioms;

/// The name under which the agent container reaches the broker.
pub const BROKER_INTERNAL_HOST: &'static str = "llm-box-broker";

/// What a destination or a connector request is refused for.
#[derive(Debug, Clone, Copy, PartialEq, Eq, Structural)]
pub enum EgressError {
    /// The destination is empty.
    InvalidDestination,
    /// The host is empty or holds a character that a host cannot hold.
    InvalidHostname,
    /// A host starts with `[` and no `]` follows.
    InvalidBracketedHost,
    /// The port is not a number from 0 to 65535.
    InvalidPort,
    /// The port of a CONNECT request is not a number from 0 to 65535.
    InvalidConnectPort,
    /// No port is given and the kind has no default.
    PortRequired,
    /// A target of this kind needs a port other than 0.
    PortRequiredFor(EgressKind),
    /// The scheme names no kind.
    UnsupportedKind,
    /// The destination is reached through the web proxy, not through a connector.
    NotAConnector,
    /// Every connector port is taken.
    NoConnectorPorts,
}

/// The wording of an error.
pub open spec fn error_text(e: EgressError) -> Seq<char> {
    match e {
        EgressError::InvalidDestination => "invalid destination"@,
        EgressError::InvalidHostname => "invalid hostname"@,
        EgressError::InvalidBracketedHost => "invalid bracketed host"@,
        EgressError::InvalidPort => "invalid port"@,
        EgressError::InvalidConnectPort => "invalid CONNECT port"@,
        EgressError::PortRequired => "port is required"@,
        EgressError::PortRequiredFor(kind) => "port is required for "@ + kind_text(kind),
        EgressError::UnsupportedKind => "unsupported destination kind"@,
        EgressError::NotAConnector => "destination does not use a broker connector"@,
        EgressError::NoConnectorPorts => "no connector ports available"@,
    }
}

impl EgressError {
    /// The error as a sentence.
    pub fn message(&self) -> (r: String)
        ensures
            r@ == error_text(*self),
    {
        match self {
            EgressError::InvalidDestination => "invalid destination".to_string(),
            EgressError::InvalidHostname => "invalid hostname".to_string(),
            EgressError::InvalidBracketedHost => "invalid bracketed host".to_string(),
            EgressError::InvalidPort => "invalid port".to_string(),
            EgressError::InvalidConnectPort => "invalid CONNECT port".to_string(),
            EgressError::PortRequired => "port is required".to_string(),
            EgressError::PortRequiredFor(kind) => {
                "port is required for ".to_string().concat(kind.as_str())
            },
            EgressError::UnsupportedKind => "unsupported destination kind".to_string(),
            EgressError::NotAConnector => "destination does not use a broker connector".to_string(),
            EgressError::NoConnectorPorts => "no connector ports available".to_string(),
        }
    }
}

// ---------------------------------------------------------------------------
// Kinds
// ---------------------------------------------------------------------------

/// The protocol of a destination.
#[derive(Debug, Clone, Copy, PartialEq, Eq, Hash, Structural)]
pub enum EgressKind {
    Http,
    Https,
    Tcp,
    Ssh,
    Mcp,
}

/// The port that a kind stands for where none is given; 0 where it has none.
pub open spec fn default_port_of(kind: EgressKind) -> u16 {
    match kind {
        EgressKind::Http => 80,
        EgressKind::Https => 443,
        EgressKind::Tcp => 0,
        EgressKind::Ssh => 22,
        EgressKind::Mcp => 0,
    }
}

/// Whether destinations of a kind are reached through a broker connector.
pub open spec fn is_connector_kind(kind: EgressKind) -> bool {
    kind == EgressKind::Tcp || kind == EgressKind::Ssh || kind == EgressKind::Mcp
}

/// The scheme of a kind.
pub open spec fn kind_text(kind: EgressKind) -> Seq<char> {
    match kind {
        EgressKind::Http => "http"@,
        EgressKind::Https => "https"@,
        EgressKind::Tcp => "tcp"@,
        EgressKind::Ssh => "ssh"@,
        EgressKind::Mcp => "mcp"@,
    }
}

/// The place of a kind in the order of targets.
pub open spec fn kind_rank(kind: EgressKind) -> int {
    match kind {
        EgressKind::Http => 0,
        EgressKind::Https => 1,
        EgressKind::Tcp => 2,
        EgressKind::Ssh => 3,
        EgressKind::Mcp => 4,
    }
}

impl EgressKind {
    /// The port that the kind stands for where none is given; 0 where it has none.
    pub fn default_port(self) -> (r: u16)
        ensures
            r == default_port_of(self),
    {
        match self {
            EgressKind::Http => 80,
            EgressKind::Https => 443,
            EgressKind::Tcp => 0,
            EgressKind::Ssh => 22,
            EgressKind::Mcp => 0,
        }
    }

    /// Whether destinations of the kind are reached through a broker connector.
    pub fn uses_connector(self) -> (r: bool)
        ensures
            r == is_connector_kind(self),
            r == (self == EgressKind::Tcp || self == EgressKind::Ssh || self == EgressKind::Mcp),
    {
        match self {
            EgressKind::Tcp | EgressKind::Ssh | EgressKind::Mcp => true,
            EgressKind::Http | EgressKind::Https => false,
        }
    }

    /// The scheme of the kind.
    pub fn as_str(self) -> (r: &'static str)
        ensures
            r@ == kind_text(self),
    {
        match self {
            EgressKind::Http => "http",
            EgressKind::Https => "https",
            EgressKind::Tcp => "tcp",
            EgressKind::Ssh => "ssh",
            EgressKind::Mcp => "mcp",
        }
    }

    /// The place of the kind in the order of targets.
    pub fn rank(self) -> (r: u8)
        ensures
            r == kind_rank(self),
    {
        match self {
            EgressKind::Http => 0,
            EgressKind::Https => 1,
            EgressKind::Tcp => 2,
            EgressKind::Ssh => 3,
            EgressKind::Mcp => 4,
        }
    }
}

/// The kind that a scheme names, whatever the case of its letters.
pub open spec fn kind_named(value: Seq<char>) -> Result<EgressKind, EgressError> {
    let name = text::lower(text::trim(value));
    if name == "http"@ {
        Ok(EgressKind::Http)
    } else if name == "https"@ {
        Ok(EgressKind::Https)
    } else if name == "tcp"@ {
        Ok(EgressKind::Tcp)
    } else if name == "ssh"@ {
        Ok(EgressKind::Ssh)
    } else if name == "mcp"@ {
        Ok(EgressKind::Mcp)
    } else {
        Err(EgressError::UnsupportedKind)
    }
}

/// Reads a scheme.
pub fn parse_kind(value: &str) -> (r: Result<EgressKind, EgressError>)
    ensures
        r == kind_named(value@),
{
    let name = text::to_lower(text::trimmed(value));
    if text::equals(&name, "http") {
        Ok(EgressKind::Http)
    } else if text::equals(&name, "https") {
        Ok(EgressKind::Https)
    } else if text::equals(&name, "tcp") {
        Ok(EgressKind::Tcp)
    } else if text::equals(&name, "ssh") {
        Ok(EgressKind::Ssh)
    } else if text::equals(&name, "mcp") {
        Ok(EgressKind::Mcp)
    } else {
        Err(EgressError::UnsupportedKind)
    }
}

// ---------------------------------------------------------------------------
// Hosts
// ---------------------------------------------------------------------------

/// Whether `c` can stand in a host without colons.
pub open spec fn is_name_char(c: char) -> bool {
    text::is_lower(c) || text::is_digit(c) || c == '.' || c == '-'
}

/// Whether `c` can stand in a host with colons.
pub open spec fn is_address_char(c: char) -> bool {
    text::is_hex_digit(c) || c == ':' || c == '.'
}

/// Whether `host` is made of the characters that a host can hold.
pub open spec fn is_valid_host(host: Seq<char>) -> bool {
    if host.contains(':') {
        forall|i: int| 0 <= i < host.len() ==> is_address_char(#[trigger] host[i])
    } else {
        forall|i: int| 0 <= i < host.len() ==> is_name_char(#[trigger] host[i])
    }
}

/// What follows the first `://`; all of `s` where there is none.
pub open spec fn after_scheme(s: Seq<char>) -> Seq<char> {
    match text::split_once_seq(s, "://"@) {
        Some((_, rest)) => rest,
        None => s,
    }
}

/// What follows the last `@`; all of `s` where there is none.
pub open spec fn after_user_info(s: Seq<char>) -> Seq<char> {
    match text::rsplit_once(s, '@') {
        Some((_, rest)) => rest,
        None => s,
    }
}

/// `s` up to the first `/`, `?` or `#`.
pub open spec fn authority_of(s: Seq<char>) -> Seq<char> {
    text::head_of(text::head_of(text::head_of(s, '/'), '?'), '#')
}

/// Whether `s` holds exactly one colon and after it one or more digits only.
pub open spec fn ends_in_port(s: Seq<char>) -> bool {
    &&& text::find(s, ':') >= 0
    &&& text::find(s, ':') == text::rfind(s, ':')
    &&& text::find(s, ':') + 1 < s.len()
    &&& number::all_digits(s.skip(text::find(s, ':') + 1))
}

/// The host part of an authority: what a pair of brackets encloses, or all but the port.
/// `None` where a bracket is not closed.
pub open spec fn host_part(authority: Seq<char>) -> Option<Seq<char>> {
    if authority.len() > 0 && authority[0] == '[' {
        match text::split_once(authority.drop_first(), ']') {
            Some((host, _)) => Some(host),
            None => None,
        }
    } else if ends_in_port(authority) {
        Some(authority.take(text::find(authority, ':')))
    } else {
        Some(authority)
    }
}

/// The canonical host that `value` names: in lower case, without scheme, user, path, port, brackets
/// or dots at either end.
pub open spec fn normalized_host(value: Seq<char>) -> Result<Seq<char>, EgressError> {
    let lowered = text::lower(text::trim(value));
    match host_part(authority_of(after_user_info(after_scheme(lowered)))) {
        Some(part) => {
            let host = text::trim_of(part, CharClass::One('.'));
            if host.len() > 0 && is_valid_host(host) {
                Ok(host)
            } else {
                Err(EgressError::InvalidHostname)
            }
        },
        None => Err(EgressError::InvalidHostname),
    }
}

/// What a text result holds.
pub open spec fn text_result(r: Result<String, EgressError>) -> Result<Seq<char>, EgressError> {
    match r {
        Ok(s) => Ok(s@),
        Err(e) => Err(e),
    }
}

fn name_char(c: char) -> (r: bool)
    ensures
        r == is_name_char(c),
{
    ('a' <= c && c <= 'z') || ('0' <= c && c <= '9') || c == '.' || c == '-'
}

fn address_char(c: char) -> (r: bool)
    ensures
        r == is_address_char(c),
{
    ('0' <= c && c <= '9') || ('a' <= c && c <= 'f') || ('A' <= c && c <= 'F') || c == ':' || c
        == '.'
}

/// Checks the characters of a host.
pub fn validate_normalized_host(value: &str) -> (r: Result<(), EgressError>)
    ensures
        r == (if is_valid_host(value@) {
            Ok::<(), EgressError>(())
        } else {
            Err(EgressError::InvalidHostname)
        }),
{
    let chars = text::chars_of(value);
    let address = text::contains(value, ':');
    let mut i: usize = 0;
    while i < chars.len()
        invariant
            chars@ == value@,
            address == value@.contains(':'),
            i <= chars.len(),
            address ==> forall|j: int| 0 <= j < i ==> is_address_char(#[trigger] value@[j]),
            !address ==> forall|j: int| 0 <= j < i ==> is_name_char(#[trigger] value@[j]),
        decreases chars.len() - i,
    {
        let fits = if address {
            address_char(chars[i])
        } else {
            name_char(chars[i])
        };
        if !fits {
            assert(value@[i as int] == chars@[i as int]);
            return Err(EgressError::InvalidHostname);
        }
        i = i + 1;
    }
    Ok(())
}

/// Cuts an authority off at the first `/`, `?` or `#`.
pub fn trim_authority(value: &str) -> (r: &str)
    ensures
        r@ == authority_of(value@),
        r@.is_prefix_of(value@),
        !r@.contains('/') && !r@.contains('?') && !r@.contains('#'),
        r@.len() < value@.len() ==> value@[r@.len() as int] == '/' || value@[r@.len() as int] == '?'
            || value@[r@.len() as int] == '#',
{
    proof {
        canonical::authority_is_the_longest_prefix(value@);
    }
    text::before_first(text::before_first(text::before_first(value, '/'), '?'), '#')
}

fn host_part_of(authority: &str) -> (r: Option<&str>)
    ensures
        match r {
            Some(part) => host_part(authority@) == Some(part@),
            None => host_part(authority@) is None,
        },
{
    proof {
        reveal_strlit("[");
        assert("["@ =~= seq!['[']);
    }
    match text::without_prefix(authority, "[") {
        Some(rest) => {
            assert(authority@[0] == '[') by {
                assert("["@[0] == '[');
            }
            assert(rest@ == authority@.drop_first());
            match text::split_at_first(rest, ']') {
                Some((host, _)) => Some(host),
                None => None,
            }
        },
        None => {
            assert(!(authority@.len() > 0 && authority@[0] == '[')) by {
                if authority@.len() > 0 && authority@[0] == '[' {
                    assert("["@.is_prefix_of(authority@));
                }
            }
            proof {
                text::find_is_first(authority@, ':');
                text::rfind_is_last(authority@, ':');
            }
            match text::split_at_first(authority, ':') {
                Some((host, port)) => {
                    // One colon exactly: there is none in what follows the first.
                    if !text::contains(port, ':') && !port.is_empty() && text::all_in(
                        port,
                        CharClass::Digit,
                    ) {
                        proof {
                            let i = text::find(authority@, ':');
                            let k = text::rfind(authority@, ':');
                            if k > i {
                                assert(port@[k - i - 1] == ':');
                            }
                            assert(number::all_digits(port@));
                        }
                        Some(host)
                    } else {
                        proof {
                            let i = text::find(authority@, ':');
                            if ends_in_port(authority@) {
                                assert forall|j: int| 0 <= j < port@.len() implies text::is_digit(
                                    #[trigger] port@[j],
                                ) by {}
                                assert(!port@.contains(':'));
                            }
                        }
                        Some(authority)
                    }
                },
                None => Some(authority),
            }
        },
    }
}

/// Reduces a host, or a URL, to its canonical host.
pub fn normalize_host(value: &str) -> (r: Result<String, EgressError>)
    ensures
        text_result(r) == normalized_host(value@),
{
    let lowered = text::to_lower(text::trimmed(value));
    let rest: &str = match text::split_at_str(lowered.as_str(), "://") {
        Some((_, rest)) => rest,
        None => lowered.as_str(),
    };
    let rest: &str = match text::split_at_last(rest, '@') {
        Some((_, rest)) => rest,
        None => rest,
    };
    match host_part_of(trim_authority(rest)) {
        Some(part) => {
            let host = text::trimmed_of(part, CharClass::One('.'));
            if host.is_empty() {
                return Err(EgressError::InvalidHostname);
            }
            match validate_normalized_host(host) {
                Ok(()) => Ok(host.to_string()),
                Err(e) => Err(e),
            }
        },
        None => Err(EgressError::InvalidHostname),
    }
}

// ---------------------------------------------------------------------------
// Hosts with ports
// ---------------------------------------------------------------------------

/// The port that `s` denotes.
pub open spec fn port_named(s: Seq<char>) -> Result<u16, EgressError> {
    match number::parse_up_to(s, u16::MAX as nat) {
        Some(n) => Ok(n as u16),
        None => Err(EgressError::InvalidPort),
    }
}

/// The host and the port that `value` names, where `default_port` stands for a missing port and 0
/// for no default.
pub open spec fn host_and_port(value: Seq<char>, default_port: u16) -> Result<
    (Seq<char>, u16),
    EgressError,
> {
    let trimmed = text::trim(value);
    if trimmed.len() > 0 && trimmed[0] == '[' {
        match text::split_once(trimmed.drop_first(), ']') {
            None => Err(EgressError::InvalidBracketedHost),
            Some((host, rest)) => {
                let port = if rest.len() > 0 && rest[0] == ':' {
                    port_named(rest.drop_first())
                } else {
                    Ok(default_port)
                };
                match port {
                    Err(e) => Err(e),
                    Ok(port) => with_port(normalized_host(host), port),
                }
            },
        }
    } else {
        match text::rsplit_once(trimmed, ':') {
            Some((host, port)) if !host.contains(':') => match normalized_host(host) {
                Err(e) => Err(e),
                Ok(host) => match port_named(port) {
                    Err(e) => Err(e),
                    Ok(port) => Ok((host, port)),
                },
            },
            _ => if default_port == 0 {
                Err(EgressError::PortRequired)
            } else {
                with_port(normalized_host(trimmed), default_port)
            },
        }
    }
}

/// A host with its port.
pub open spec fn with_port(host: Result<Seq<char>, EgressError>, port: u16) -> Result<
    (Seq<char>, u16),
    EgressError,
> {
    match host {
        Ok(host) => Ok((host, port)),
        Err(e) => Err(e),
    }
}

/// What a host and port result holds.
pub open spec fn host_port_result(r: Result<(String, u16), EgressError>) -> Result<
    (Seq<char>, u16),
    EgressError,
> {
    match r {
        Ok((host, port)) => Ok((host@, port)),
        Err(e) => Err(e),
    }
}

/// Reads a host with an optional port.
pub fn split_host_port(value: &str, default_port: u16) -> (r: Result<(String, u16), EgressError>)
    ensures
        host_port_result(r) == host_and_port(value@, default_port),
{
    let trimmed = text::trimmed(value);
    proof {
        reveal_strlit("[");
        reveal_strlit(":");
        assert("["@ =~= seq!['[']);
        assert(":"@ =~= seq![':']);
        assert("["@.is_prefix_of(trimmed@) == (trimmed@.len() > 0 && trimmed@[0] == '[')) by {
            assert("["@[0] == '[');
        }
    }
    if let Some(stripped) = text::without_prefix(trimmed, "[") {
        assert(stripped@ == trimmed@.drop_first());
        return match text::split_at_first(stripped, ']') {
            None => Err(EgressError::InvalidBracketedHost),
            Some((host, rest)) => {
                assert(":"@.is_prefix_of(rest@) == (rest@.len() > 0 && rest@[0] == ':')) by {
                    assert(":"@[0] == ':');
                }
                let port: u16 = match text::without_prefix(rest, ":") {
                    Some(port) => {
                        assert(port@ == rest@.drop_first());
                        match number::read_port(port) {
                            Some(port) => port,
                            None => return Err(EgressError::InvalidPort),
                        }
                    },
                    None => default_port,
                };
                match normalize_host(host) {
                    Ok(host) => Ok((host, port)),
                    Err(e) => Err(e),
                }
            },
        };
    }
    if let Some((host, port)) = text::split_at_last(trimmed, ':') {
        if !text::contains(host, ':') {
            return match normalize_host(host) {
                Err(e) => Err(e),
                Ok(host) => match number::read_port(port) {
                    Some(port) => Ok((host, port)),
                    None => Err(EgressError::InvalidPort),
                },
            };
        }
    }
    if default_port == 0 {
        return Err(EgressError::PortRequired);
    }
    match normalize_host(trimmed) {
        Ok(host) => Ok((host, default_port)),
        Err(e) => Err(e),
    }
}

// ---------------------------------------------------------------------------
// Targets
// ---------------------------------------------------------------------------

/// What an [`EgressTarget`] denotes.
#[verifier::ext_equal]
pub struct Target {
    pub kind: EgressKind,
    pub host: Seq<char>,
    pub port: u16,
}

/// A destination: protocol, host and port.
#[derive(Debug, PartialEq, Eq, Hash)]
pub struct EgressTarget {
    pub kind: EgressKind,
    pub host: String,
    pub port: u16,
}

impl View for EgressTarget {
    type V = Target;

    open spec fn view(&self) -> Target {
        Target { kind: self.kind, host: self.host@, port: self.port }
    }
}

impl Clone for EgressTarget {
    fn clone(&self) -> (r: Self)
        ensures
            r@ == self@,
    {
        EgressTarget { kind: self.kind, host: self.host.clone(), port: self.port }
    }
}

/// The target of a kind, host and port, where port 0 stands for the default port of the kind.
pub open spec fn new_target(kind: EgressKind, host: Seq<char>, port: u16) -> Result<
    Target,
    EgressError,
> {
    match normalized_host(host) {
        Err(e) => Err(e),
        Ok(host) => {
            if port != 0 {
                Ok(Target { kind, host, port })
            } else if default_port_of(kind) != 0 {
                Ok(Target { kind, host, port: default_port_of(kind) })
            } else {
                Err(EgressError::PortRequiredFor(kind))
            }
        },
    }
}

/// A host as it stands in a URI: in brackets where it holds a colon.
pub open spec fn uri_host(host: Seq<char>) -> Seq<char> {
    if host.contains(':') && host[0] != '[' {
        seq!['['] + host + seq![']']
    } else {
        host
    }
}

/// The canonical text of a target, `scheme://host:port`.
pub open spec fn target_text(t: Target) -> Seq<char> {
    kind_text(t.kind) + "://"@ + uri_host(t.host) + ":"@ + number::decimal(t.port as nat)
}

/// What a target result holds.
pub open spec fn target_result(r: Result<EgressTarget, EgressError>) -> Result<
    Target,
    EgressError,
> {
    match r {
        Ok(t) => Ok(t@),
        Err(e) => Err(e),
    }
}

impl EgressTarget {
    /// Makes a target from a host in any form that [`normalize_host`] takes.
    pub fn new(kind: EgressKind, host: &str, port: u16) -> (r: Result<Self, EgressError>)
        ensures
            target_result(r) == new_target(kind, host@, port),
    {
        match normalize_host(host) {
            Err(e) => Err(e),
            Ok(host) => {
                if port == 0 && kind.default_port() == 0 {
                    return Err(EgressError::PortRequiredFor(kind));
                }
                let port: u16 = if port == 0 {
                    kind.default_port()
                } else {
                    port
                };
                Ok(EgressTarget { kind, host, port })
            },
        }
    }

    /// Whether the target is reached through a broker connector.
    pub fn uses_connector(&self) -> (r: bool)
        ensures
            r == is_connector_kind(self@.kind),
    {
        self.kind.uses_connector()
    }

    /// The canonical text of the target.
    pub fn to_text(&self) -> (r: String)
        ensures
            r@ == target_text(self@),
    {
        let mut s = self.kind.as_str().to_string();
        s.append("://");
        s.append(host_for_uri(self.host.as_str()).as_str());
        s.append(":");
        s.append(number::decimal_of(self.port as u64).as_str());
        s
    }

    /// Tests two targets for equality.
    pub fn same(&self, other: &Self) -> (r: bool)
        ensures
            r == (self@ == other@),
    {
        self.kind == other.kind && self.host == other.host && self.port == other.port
    }
}

/// Puts a host with a colon in brackets.
pub fn host_for_uri(host: &str) -> (r: String)
    ensures
        r@ == uri_host(host@),
{
    let chars = text::chars_of(host);
    if text::contains(host, ':') && chars[0] != '[' {
        let mut s = String::new();
        s.push('[');
        s.append(host);
        s.push(']');
        assert(s@ =~= seq!['['] + host@ + seq![']']);
        s
    } else {
        host.to_string()
    }
}

/// The target that a destination names. A destination without a scheme is an `https` one.
#[verifier::opaque]
pub open spec fn target_named(value: Seq<char>) -> Result<Target, EgressError> {
    let trimmed = text::trim(value);
    if trimmed.len() == 0 {
        Err(EgressError::InvalidDestination)
    } else {
        match text::split_once_seq(trimmed, "://"@) {
            Some((scheme, rest)) => match kind_named(scheme) {
                Err(e) => Err(e),
                Ok(kind) => target_at(kind, host_and_port(authority_of(rest), default_port_of(kind))),
            },
            None => target_at(EgressKind::Https, host_and_port(trimmed, 443)),
        }
    }
}

/// The target of a kind at a host and port.
pub open spec fn target_at(
    kind: EgressKind,
    place: Result<(Seq<char>, u16), EgressError>,
) -> Result<Target, EgressError> {
    match place {
        Ok((host, port)) => new_target(kind, host, port),
        Err(e) => Err(e),
    }
}

/// Reads a destination.
pub fn parse_target_spec(value: &str) -> (r: Result<EgressTarget, EgressError>)
    ensures
        target_result(r) == target_named(value@),
{
    reveal(target_named);
    let value = text::trimmed(value);
    if value.is_empty() {
        return Err(EgressError::InvalidDestination);
    }
    if let Some((scheme, rest)) = text::split_at_str(value, "://") {
        let kind = match parse_kind(scheme) {
            Ok(kind) => kind,
            Err(e) => return Err(e),
        };
        return match split_host_port(trim_authority(rest), kind.default_port()) {
            Ok((host, port)) => EgressTarget::new(kind, host.as_str(), port),
            Err(e) => Err(e),
        };
    }
    match split_host_port(value, EgressKind::Https.default_port()) {
        Ok((host, port)) => EgressTarget::new(EgressKind::Https, host.as_str(), port),
        Err(e) => Err(e),
    }
}

// ---------------------------------------------------------------------------
// Wording
// ---------------------------------------------------------------------------

/// An error says what is wrong with the destination.
pub proof fn errors_say_what_is_wrong(e: EgressError)
    ensures
        e == EgressError::InvalidDestination ==> error_text(e) == "invalid destination"@,
        e == EgressError::InvalidHostname ==> error_text(e) == "invalid hostname"@,
        e == EgressError::InvalidBracketedHost ==> error_text(e) == "invalid bracketed host"@,
        e == EgressError::InvalidPort ==> error_text(e) == "invalid port"@,
        e == EgressError::InvalidConnectPort ==> error_text(e) == "invalid CONNECT port"@,
        e == EgressError::PortRequired ==> error_text(e) == "port is required"@,
        e == EgressError::PortRequiredFor(EgressKind::Tcp) ==> error_text(e)
            == "port is required for tcp"@,
        e == EgressError::PortRequiredFor(EgressKind::Mcp) ==> error_text(e)
            == "port is required for mcp"@,
        e == EgressError::UnsupportedKind ==> error_text(e) == "unsupported destination kind"@,
        e == EgressError::NotAConnector ==> error_text(e)
            == "destination does not use a broker connector"@,
        e == EgressError::NoConnectorPorts ==> error_text(e) == "no connector ports available"@,
{
    reveal_strlit("port is required for ");
    reveal_strlit("tcp");
    reveal_strlit("mcp");
    reveal_strlit("port is required for tcp");
    reveal_strlit("port is required for mcp");
    assert("port is required for "@ + "tcp"@ =~= "port is required for tcp"@);
    assert("port is required for "@ + "mcp"@ =~= "port is required for mcp"@);
}

} // verus!
