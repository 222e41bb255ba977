//! The broker: which requests reach the network, and which are blocked and logged.
use crate::connectors;
use crate::connectors::{ConnectorMapping, Mapping};
use crate::egress;
use crate::egress::{EgressError, EgressKind, EgressTarget, Target};
use crate::http;
use crate::http::{Field, RequestHead};
use crate::number;
use crate::pieces;
use crate::target_set;
use crate::text;
use vstd::prelude::*;
use vstd::string::*;

verus! {

broadcast use vstd::string::group_string_axioms;

// ---------------------------------------------------------------------------
// Requests
// ---------------------------------------------------------------------------

/// The target of a CONNECT request.
pub open spec fn connect_target(target: Seq<char>) -> Result<Target, EgressError> {
    match text::rsplit_once(target, ':') {
        Some((host, port)) => match number::parse_up_to(port, u16::MAX as nat) {
            Some(port) => egress::new_target(EgressKind::Https, host, port as u16),
            None => Err(EgressError::InvalidConnectPort),
        },
        None => egress::new_target(EgressKind::Https, target, 443),
    }
}

/// Reads the target of a CONNECT request.
pub fn parse_connect_target(target: &str) -> (r: Result<EgressTarget, EgressError>)
    ensures
        egress::target_result(r) == connect_target(target@),
{
    match text::split_at_last(target, ':') {
        Some((host, port)) => match number::read_port(port) {
            Some(port) => EgressTarget::new(EgressKind::Https, host, port),
            None => Err(EgressError::InvalidConnectPort),
        },
        None => EgressTarget::new(EgressKind::Https, target, 443),
    }
}

/// Where a plain request goes: host and port, the path to ask for there, and the host to name.
pub struct Place {
    pub host: Seq<char>,
    pub port: u16,
    pub path: Seq<char>,
    pub host_header: Seq<char>,
}

/// The host to name: without the port where it is the default.
pub open spec fn host_header_text(host: Seq<char>, port: u16, default_port: u16) -> Seq<char> {
    if port == default_port {
        host
    } else {
        host + ":"@ + number::decimal(port as nat)
    }
}

/// What `value` is split into at the first `c`, or else `default`.
pub open spec fn split_or(value: Seq<char>, c: char, default: (Seq<char>, Seq<char>)) -> (
    Seq<char>,
    Seq<char>,
) {
    match text::split_once(value, c) {
        Some(parts) => parts,
        None => default,
    }
}

/// Where a plain request goes. The target is an `http` URL, or else a path at the host that the
/// header names.
pub open spec fn http_place(target: Seq<char>, fields: Seq<Field>) -> Result<Place, EgressError> {
    match text::strip_prefix(target, "http://"@) {
        Some(rest) => {
            let (authority, remainder) = split_or(rest, '/', (rest, Seq::empty()));
            match egress::host_and_port(authority, 80) {
                Err(e) => Err(e),
                Ok((host, port)) => Ok(
                    Place {
                        host,
                        port,
                        path: "/"@ + remainder,
                        host_header: if authority.len() == 0 {
                            host_header_text(host, port, 80)
                        } else {
                            authority
                        },
                    },
                ),
            }
        },
        None => {
            let named = match http::field_named(fields, "host"@) {
                Some(value) => value,
                None => Seq::empty(),
            };
            match egress::host_and_port(named, 80) {
                Err(e) => Err(e),
                Ok((host, port)) => Ok(
                    Place {
                        host,
                        port,
                        path: if target.len() == 0 {
                            "/"@
                        } else {
                            target
                        },
                        host_header: host_header_text(host, port, 80),
                    },
                ),
            }
        },
    }
}

/// Writes the host to name.
pub fn format_host_header(host: &str, port: u16, default_port: u16) -> (r: String)
    ensures
        r@ == host_header_text(host@, port, default_port),
{
    let mut s = host.to_string();
    if port != default_port {
        s.append(":");
        s.append(number::decimal_of(port as u64).as_str());
    }
    s
}

/// Splits at the first `needle`, or gives `default`.
pub fn split_once_or<'a>(value: &'a str, needle: char, default: (&'a str, &'a str)) -> (r: (
    &'a str,
    &'a str,
))
    ensures
        (r.0@, r.1@) == split_or(value@, needle, (default.0@, default.1@)),
{
    match text::split_at_first(value, needle) {
        Some(parts) => parts,
        None => default,
    }
}

/// What a place result holds.
pub open spec fn place_result(r: Result<(String, u16, String, String), EgressError>) -> Result<
    Place,
    EgressError,
> {
    match r {
        Ok((host, port, path, host_header)) => Ok(
            Place { host: host@, port, path: path@, host_header: host_header@ },
        ),
        Err(e) => Err(e),
    }
}

/// Finds where a plain request goes.
pub fn find_http_place(target: &str, headers: &Vec<(String, String)>) -> (r: Result<
    (String, u16, String, String),
    EgressError,
>)
    ensures
        place_result(r) == http_place(target@, http::fields_of(headers@)),
{
    match text::without_prefix(target, "http://") {
        Some(rest) => {
            let (authority, remainder) = split_once_or(rest, '/', (rest, ""));
            proof {
                reveal_strlit("");
                assert(""@ =~= Seq::<char>::empty());
            }
            match egress::split_host_port(authority, 80) {
                Err(e) => Err(e),
                Ok((host, port)) => {
                    let mut path = "/".to_string();
                    path.append(remainder);
                    let host_header = if authority.is_empty() {
                        format_host_header(host.as_str(), port, 80)
                    } else {
                        authority.to_string()
                    };
                    Ok((host, port, path, host_header))
                },
            }
        },
        None => {
            let named: &str = match http::header_value(headers, "host") {
                Some(value) => value,
                None => "",
            };
            proof {
                reveal_strlit("");
                assert(""@ =~= Seq::<char>::empty());
            }
            match egress::split_host_port(named, 80) {
                Err(e) => Err(e),
                Ok((host, port)) => {
                    let path = if target.is_empty() {
                        "/".to_string()
                    } else {
                        target.to_string()
                    };
                    let host_header = format_host_header(host.as_str(), port, 80);
                    Ok((host, port, path, host_header))
                },
            }
        },
    }
}

/// The target of a plain request, the path to ask for there, and the host to name.
pub open spec fn http_target(target: Seq<char>, fields: Seq<Field>) -> Result<
    (Target, Seq<char>, Seq<char>),
    EgressError,
> {
    match http_place(target, fields) {
        Err(e) => Err(e),
        Ok(place) => match egress::new_target(EgressKind::Http, place.host, place.port) {
            Err(e) => Err(e),
            Ok(t) => Ok((t, place.path, place.host_header)),
        },
    }
}

/// Reads the target of a plain request, the path to ask for there, and the host to name.
pub fn parse_http_target(target: &str, headers: &Vec<(String, String)>) -> (r: Result<
    (EgressTarget, String, String),
    EgressError,
>)
    ensures
        match r {
            Ok((t, path, host_header)) => http_target(target@, http::fields_of(headers@)) == Ok::<
                (Target, Seq<char>, Seq<char>),
                EgressError,
            >((t@, path@, host_header@)),
            Err(e) => http_target(target@, http::fields_of(headers@)) == Err::<
                (Target, Seq<char>, Seq<char>),
                EgressError,
            >(e),
        },
{
    match find_http_place(target, headers) {
        Err(e) => Err(e),
        Ok((host, port, path, host_header)) => match EgressTarget::new(
            EgressKind::Http,
            host.as_str(),
            port,
        ) {
            Err(e) => Err(e),
            Ok(t) => Ok((t, path, host_header)),
        },
    }
}

/// Whether a host is this machine.
pub open spec fn is_loopback(host: Seq<char>) -> bool {
    host == "localhost"@ || host == "127.0.0.1"@ || host == "::1"@
}

/// Tests whether a host is this machine.
pub fn is_loopback_host(host: &str) -> (r: bool)
    ensures
        r == is_loopback(host@),
{
    text::equals(host, "localhost") || text::equals(host, "127.0.0.1") || text::equals(host, "::1")
}

/// What a request asks the broker for.
#[derive(Debug, Clone, Copy, PartialEq, Eq, Structural)]
pub enum BrokerRoute {
    /// A connector for a destination.
    ConnectorControl,
    /// A tunnel.
    Connect,
    /// A request to pass on.
    Plain,
}

/// What a request with this method and target asks for.
pub open spec fn route_of(method: Seq<char>, target: Seq<char>) -> BrokerRoute {
    if text::lower(method) == text::lower("POST"@) && target == "/__endpoint"@ {
        BrokerRoute::ConnectorControl
    } else if text::lower(method) == text::lower("CONNECT"@) {
        BrokerRoute::Connect
    } else {
        BrokerRoute::Plain
    }
}

/// Finds what a request asks for.
pub fn route_request(head: &RequestHead) -> (r: BrokerRoute)
    ensures
        r == route_of(head@.method, head@.target),
{
    if text::equals_ignore_case(head.method.as_str(), "POST") && text::equals(
        head.target.as_str(),
        "/__endpoint",
    ) {
        BrokerRoute::ConnectorControl
    } else if text::equals_ignore_case(head.method.as_str(), "CONNECT") {
        BrokerRoute::Connect
    } else {
        BrokerRoute::Plain
    }
}

/// The answer to a CONNECT request that is let through.
pub const CONNECT_ESTABLISHED: &'static str =
    "HTTP/1.1 200 Connection Established\r\nConnection: close\r\n\r\n";

/// The answer to a request for a target that is not approved.
pub open spec fn forbidden_text(key: Seq<char>) -> Seq<char> {
    http::error_response_text(403, "Forbidden"@, key + " is not approved"@)
}

/// Writes the answer to a request for a target that is not approved.
pub fn forbidden_response(key: &str) -> (r: String)
    ensures
        r@ == forbidden_text(key@),
{
    let mut message = key.to_string();
    message.append(" is not approved");
    http::error_response(403, "Forbidden", message.as_str())
}

/// Writes the answer to a request that cannot be read.
pub fn bad_request_response() -> (r: String)
    ensures
        r@ == http::error_response_text(400, "Bad Request"@, "invalid broker request"@),
{
    http::error_response(400, "Bad Request", "invalid broker request")
}

// ---------------------------------------------------------------------------
// Tunnels
// ---------------------------------------------------------------------------

/// An open tunnel to the target with text `key`.
#[derive(Debug)]
pub struct Tunnel {
    pub key: String,
    pub id: u64,
}

/// What the tunnels of a list denote: the text of the target, and the number.
pub open spec fn tunnels_of(v: Seq<Tunnel>) -> Seq<(Seq<char>, u64)> {
    Seq::new(v.len(), |i: int| (v[i].key@, v[i].id))
}

/// The open tunnels.
#[derive(Debug)]
pub struct TunnelTable {
    pub open: Vec<Tunnel>,
    pub next_id: u64,
}

impl TunnelTable {
    /// No open tunnels.
    pub fn new() -> (r: TunnelTable)
        ensures
            tunnels_of(r.open@) == Seq::<(Seq<char>, u64)>::empty(),
            r.next_id == 1,
    {
        let open: Vec<Tunnel> = Vec::new();
        assert(tunnels_of(open@) =~= Seq::<(Seq<char>, u64)>::empty());
        TunnelTable { open, next_id: 1 }
    }

    /// Adds a tunnel and gives it a number.
    pub fn register_tunnel(&mut self, key: &str) -> (r: u64)
        ensures
            r == old(self).next_id,
            final(self).next_id == old(self).next_id.wrapping_add(1),
            tunnels_of(final(self).open@) == tunnels_of(old(self).open@).push((key@, r)),
    {
        let id: u64 = self.next_id;
        self.next_id = id.wrapping_add(1);
        let ghost before = self.open@;
        self.open.push(Tunnel { key: key.to_string(), id });
        assert(tunnels_of(self.open@) =~= tunnels_of(before).push((key@, id)));
        id
    }

    /// Removes a tunnel. A tunnel that is not there is left out in silence.
    pub fn unregister_tunnel(&mut self, key: &str, id: u64)
        ensures
            final(self).next_id == old(self).next_id,
            tunnels_of(final(self).open@) == tunnels_of(old(self).open@).filter(
                |t: (Seq<char>, u64)| t != (key@, id),
            ),
    {
        let ghost from = tunnels_of(self.open@);
        let ghost keep = |t: (Seq<char>, u64)| t != (key@, id);
        let mut kept: Vec<Tunnel> = Vec::new();
        let mut i: usize = 0;
        proof {
            reveal(Seq::filter);
            assert(from.take(0) =~= Seq::<(Seq<char>, u64)>::empty());
            assert(tunnels_of(kept@) =~= from.take(0).filter(keep));
        }
        while i < self.open.len()
            invariant
                i <= self.open.len(),
                self.next_id == old(self).next_id,
                from == tunnels_of(self.open@),
                keep == (|t: (Seq<char>, u64)| t != (key@, id)),
                tunnels_of(kept@) == from.take(i as int).filter(keep),
            decreases self.open.len() - i,
        {
            proof {
                reveal(Seq::filter);
                assert(from.take(i + 1).drop_last() =~= from.take(i as int));
                assert(from.take(i + 1).last() == from[i as int]);
            }
            let ghost earlier = tunnels_of(kept@);
            if !(text::equals(self.open[i].key.as_str(), key) && self.open[i].id == id) {
                kept.push(Tunnel { key: self.open[i].key.clone(), id: self.open[i].id });
                assert(tunnels_of(kept@) =~= earlier.push(from[i as int]));
            }
            i = i + 1;
        }
        assert(from.take(i as int) =~= from);
        self.open = kept;
    }

    /// Removes the tunnels to targets that are not approved, and lists their numbers.
    pub fn close_disallowed_tunnels(&mut self, allowed_keys: &Vec<String>) -> (r: Vec<u64>)
        ensures
            final(self).next_id == old(self).next_id,
            tunnels_of(final(self).open@) == tunnels_of(old(self).open@).filter(
                |t: (Seq<char>, u64)| pieces::texts(allowed_keys@).contains(t.0),
            ),
            r@ == tunnels_of(old(self).open@).filter(
                |t: (Seq<char>, u64)| !pieces::texts(allowed_keys@).contains(t.0),
            ).map_values(|t: (Seq<char>, u64)| t.1),
    {
        let ghost from = tunnels_of(self.open@);
        let ghost keep = |t: (Seq<char>, u64)| pieces::texts(allowed_keys@).contains(t.0);
        let ghost drop = |t: (Seq<char>, u64)| !pieces::texts(allowed_keys@).contains(t.0);
        let ghost number = |t: (Seq<char>, u64)| t.1;
        let mut kept: Vec<Tunnel> = Vec::new();
        let mut closed: Vec<u64> = Vec::new();
        let mut i: usize = 0;
        proof {
            reveal(Seq::filter);
            assert(from.take(0) =~= Seq::<(Seq<char>, u64)>::empty());
            assert(tunnels_of(kept@) =~= from.take(0).filter(keep));
            assert(closed@ =~= from.take(0).filter(drop).map_values(number));
        }
        while i < self.open.len()
            invariant
                i <= self.open.len(),
                self.next_id == old(self).next_id,
                from == tunnels_of(self.open@),
                keep == (|t: (Seq<char>, u64)| pieces::texts(allowed_keys@).contains(t.0)),
                drop == (|t: (Seq<char>, u64)| !pieces::texts(allowed_keys@).contains(t.0)),
                number == (|t: (Seq<char>, u64)| t.1),
                tunnels_of(kept@) == from.take(i as int).filter(keep),
                closed@ == from.take(i as int).filter(drop).map_values(number),
            decreases self.open.len() - i,
        {
            proof {
                reveal(Seq::filter);
                assert(from.take(i + 1).drop_last() =~= from.take(i as int));
                assert(from.take(i + 1).last() == from[i as int]);
            }
            let ghost earlier = tunnels_of(kept@);
            let ghost dropped = from.take(i as int).filter(drop);
            if pieces::holds_text(allowed_keys, &self.open[i].key) {
                kept.push(Tunnel { key: self.open[i].key.clone(), id: self.open[i].id });
                assert(tunnels_of(kept@) =~= earlier.push(from[i as int]));
            } else {
                closed.push(self.open[i].id);
                assert(closed@ =~= dropped.push(from[i as int]).map_values(number));
            }
            i = i + 1;
        }
        assert(from.take(i as int) =~= from);
        self.open = kept;
        closed
    }
}

/// Once the tunnels to targets that are not approved are closed, every open tunnel is to an
/// approved target, and no tunnel to an approved target was closed.
pub proof fn open_tunnels_are_approved(
    before: Seq<(Seq<char>, u64)>,
    allowed: Seq<Seq<char>>,
    t: (Seq<char>, u64),
)
    ensures
        before.filter(|t: (Seq<char>, u64)| allowed.contains(t.0)).contains(t) <==> (
        before.contains(t) && allowed.contains(t.0)),
{
    let keep = |t: (Seq<char>, u64)| allowed.contains(t.0);
    let after = before.filter(keep);
    if after.contains(t) {
        let i = choose|i: int| 0 <= i < after.len() && after[i] == t;
        before.lemma_filter_pred(keep, i);
        before.lemma_filter_contains_rev(keep, t);
    }
    if before.contains(t) && allowed.contains(t.0) {
        let i = choose|i: int| 0 <= i < before.len() && before[i] == t;
        before.lemma_filter_contains(keep, i);
    }
}

// ---------------------------------------------------------------------------
// The state
// ---------------------------------------------------------------------------

/// What the broker goes by.
#[derive(Debug)]
pub struct BrokerState {
    /// The contents of the file of approved destinations, where there is one.
    pub allowed: Option<String>,
    /// The name under which the container reaches the machine that it runs on.
    pub host_loopback_alias: Option<String>,
    /// The connectors that are listened on.
    pub active_connectors: Vec<ConnectorMapping>,
}

/// The targets that the broker lets through; there are none without a file.
pub open spec fn broker_targets(allowed: Option<Seq<char>>) -> Result<Set<Target>, EgressError> {
    match allowed {
        None => Ok(Set::empty()),
        Some(contents) => target_set::target_set_of(contents),
    }
}

/// What the broker does with a request for a target.
#[derive(Debug)]
pub enum Verdict {
    /// Connect to this host and port.
    Connect { host: String, port: u16 },
    /// Log the attempt, and answer with this text.
    Block { reply: String },
}

/// The host to connect to.
pub open spec fn upstream_host_of(host: Seq<char>, alias: Option<Seq<char>>) -> Seq<char> {
    match alias {
        Some(alias) => if is_loopback(host) {
            alias
        } else {
            host
        },
        None => host,
    }
}

impl BrokerState {
    /// Reads the targets that the broker lets through.
    pub fn allowed_targets(&self) -> (r: Result<Vec<EgressTarget>, EgressError>)
        ensures
            match r {
                Ok(list) => broker_targets(connectors::opt_text(self.allowed)) matches Ok(set)
                    && target_set::lists(target_set::targets(list@), set),
                Err(e) => broker_targets(connectors::opt_text(self.allowed)) == Err::<
                    Set<Target>,
                    EgressError,
                >(e),
            },
    {
        match &self.allowed {
            None => {
                let list: Vec<EgressTarget> = Vec::new();
                assert(target_set::targets(list@).to_set() =~= Set::<Target>::empty());
                Ok(list)
            },
            Some(contents) => target_set::parse_allowed_targets(contents.as_str()),
        }
    }

    /// Lists the texts of the targets that the broker lets through.
    pub fn allowed_keys(&self) -> (r: Result<Vec<String>, EgressError>)
        ensures
            match r {
                Ok(list) => broker_targets(connectors::opt_text(self.allowed)) matches Ok(set)
                    && pieces::texts(list@).to_set() == target_set::target_texts(set),
                Err(e) => broker_targets(connectors::opt_text(self.allowed)) == Err::<
                    Set<Target>,
                    EgressError,
                >(e),
            },
    {
        match self.allowed_targets() {
            Ok(targets) => {
                proof {
                    target_set::texts_of_list(target_set::targets(targets@));
                }
                Ok(target_set::target_text_list(&targets))
            },
            Err(e) => Err(e),
        }
    }

    /// Tests whether the broker lets a target through.
    pub fn is_allowed_target(&self, target: &EgressTarget) -> (r: Result<bool, EgressError>)
        ensures
            match broker_targets(connectors::opt_text(self.allowed)) {
                Ok(set) => r == Ok::<bool, EgressError>(set.contains(target@)),
                Err(e) => r == Err::<bool, EgressError>(e),
            },
    {
        match self.allowed_targets() {
            Ok(list) => {
                let found = target_set::contains_target(&list, target);
                proof {
                    let set = broker_targets(connectors::opt_text(self.allowed))->Ok_0;
                    assert(target_set::targets(list@).to_set().contains(target@) <==> set.contains(
                        target@,
                    ));
                }
                Ok(found)
            },
            Err(e) => Err(e),
        }
    }

    /// Finds the host to connect to: a host that is this machine is reached by its alias.
    pub fn upstream_host(&self, host: &str) -> (r: String)
        ensures
            r@ == upstream_host_of(host@, connectors::opt_text(self.host_loopback_alias)),
    {
        match &self.host_loopback_alias {
            Some(alias) => if is_loopback_host(host) {
                alias.clone()
            } else {
                host.to_string()
            },
            None => host.to_string(),
        }
    }

    /// Decides about a request for a target: it is let through exactly where it is approved.
    pub fn judge(&self, target: &EgressTarget) -> (r: Result<Verdict, EgressError>)
        ensures
            match broker_targets(connectors::opt_text(self.allowed)) {
                Err(e) => r == Err::<Verdict, EgressError>(e),
                Ok(set) => match r {
                    Ok(Verdict::Connect { host, port }) => set.contains(target@) && host@
                        == upstream_host_of(
                        target@.host,
                        connectors::opt_text(self.host_loopback_alias),
                    ) && port == target@.port,
                    Ok(Verdict::Block { reply }) => !set.contains(target@) && reply@
                        == forbidden_text(egress::target_text(target@)),
                    Err(_) => false,
                },
            },
    {
        match self.is_allowed_target(target) {
            Err(e) => Err(e),
            Ok(true) => Ok(
                Verdict::Connect {
                    host: self.upstream_host(target.host.as_str()),
                    port: target.port,
                },
            ),
            Ok(false) => Ok(
                Verdict::Block { reply: forbidden_response(target.to_text().as_str()) },
            ),
        }
    }

    /// Records that a connector is listened on, unless its port is listened on already. The result
    /// tells which of the two it was.
    pub fn mark_connector_port_active(&mut self, mapping: &ConnectorMapping) -> (r: bool)
        ensures
            r == !connectors::uses_port(
                connectors::mappings_of(old(self).active_connectors@),
                mapping@.listen_port,
            ),
            connectors::mappings_of(final(self).active_connectors@) == (if r {
                connectors::mappings_of(old(self).active_connectors@).push(mapping@)
            } else {
                connectors::mappings_of(old(self).active_connectors@)
            }),
            final(self).allowed == old(self).allowed,
            final(self).host_loopback_alias == old(self).host_loopback_alias,
    {
        let ghost active = connectors::mappings_of(self.active_connectors@);
        let mut i: usize = 0;
        while i < self.active_connectors.len()
            invariant
                *self == *old(self),
                active == connectors::mappings_of(self.active_connectors@),
                i <= self.active_connectors.len(),
                forall|k: int| 0 <= k < i ==> (#[trigger] active[k]).listen_port
                    != mapping.listen_port,
            decreases self.active_connectors.len() - i,
        {
            if self.active_connectors[i].listen_port == mapping.listen_port {
                assert(active[i as int].listen_port == mapping@.listen_port);
                return false;
            }
            i = i + 1;
        }
        self.active_connectors.push(mapping.clone());
        assert(connectors::mappings_of(self.active_connectors@) =~= active.push(mapping@));
        true
    }

    /// Lists the connectors that are to be listened on no longer: those that the table of
    /// connectors does not hold any more.
    pub fn retire_connectors(&mut self, mappings: &Vec<ConnectorMapping>) -> (r: Vec<
        ConnectorMapping,
    >)
        ensures
            connectors::mappings_of(r@) == connectors::mappings_of(
                old(self).active_connectors@,
            ).filter(|m: Mapping| !connectors::mappings_of(mappings@).contains(m)),
            connectors::mappings_of(final(self).active_connectors@) == kept_connectors(
                connectors::mappings_of(old(self).active_connectors@),
                connectors::mappings_of(mappings@),
            ),
            final(self).allowed == old(self).allowed,
            final(self).host_loopback_alias == old(self).host_loopback_alias,
    {
        let ghost table = connectors::mappings_of(mappings@);
        let ghost from = connectors::mappings_of(self.active_connectors@);
        let ghost keep = |m: Mapping| table.contains(m);
        let ghost drop = |m: Mapping| !table.contains(m);
        let mut kept: Vec<ConnectorMapping> = Vec::new();
        let mut retired: Vec<ConnectorMapping> = Vec::new();
        let mut i: usize = 0;
        proof {
            reveal(Seq::filter);
            assert(from.take(0) =~= Seq::<Mapping>::empty());
            assert(connectors::mappings_of(kept@) =~= from.take(0).filter(keep));
            assert(connectors::mappings_of(retired@) =~= from.take(0).filter(drop));
        }
        while i < self.active_connectors.len()
            invariant
                *self == *old(self),
                i <= self.active_connectors.len(),
                table == connectors::mappings_of(mappings@),
                from == connectors::mappings_of(self.active_connectors@),
                keep == (|m: Mapping| table.contains(m)),
                drop == (|m: Mapping| !table.contains(m)),
                connectors::mappings_of(kept@) == from.take(i as int).filter(keep),
                connectors::mappings_of(retired@) == from.take(i as int).filter(drop),
            decreases self.active_connectors.len() - i,
        {
            proof {
                reveal(Seq::filter);
                assert(from.take(i + 1).drop_last() =~= from.take(i as int));
                assert(from.take(i + 1).last() == from[i as int]);
            }
            let ghost kept_before = connectors::mappings_of(kept@);
            let ghost retired_before = connectors::mappings_of(retired@);
            let mapping = self.active_connectors[i].clone();
            if holds_connector(mappings, &mapping) {
                kept.push(mapping);
                assert(connectors::mappings_of(kept@) =~= kept_before.push(from[i as int]));
            } else {
                retired.push(mapping);
                assert(connectors::mappings_of(retired@) =~= retired_before.push(from[i as int]));
            }
            i = i + 1;
        }
        assert(from.take(i as int) =~= from);
        self.active_connectors = kept;
        retired
    }

    /// Lists the connectors that are to be listened on from now on: the first one for each port
    /// that is not listened on.
    pub fn new_connectors(&mut self, mappings: &Vec<ConnectorMapping>) -> (r: Vec<ConnectorMapping>)
        ensures
            connectors::mappings_of(r@) == fresh_connectors(
                connectors::mappings_of(old(self).active_connectors@),
                connectors::mappings_of(mappings@),
            ),
            connectors::mappings_of(final(self).active_connectors@) == connectors::mappings_of(
                old(self).active_connectors@,
            ) + connectors::mappings_of(r@),
            final(self).allowed == old(self).allowed,
            final(self).host_loopback_alias == old(self).host_loopback_alias,
    {
        let ghost all = connectors::mappings_of(mappings@);
        let ghost start = connectors::mappings_of(self.active_connectors@);
        let mut fresh: Vec<ConnectorMapping> = Vec::new();
        let mut i: usize = 0;
        proof {
            assert(all.skip(0) =~= all);
            assert(connectors::mappings_of(fresh@) =~= Seq::<Mapping>::empty());
            assert(start =~= start + connectors::mappings_of(fresh@));
            assert(fresh_connectors(start, all) =~= connectors::mappings_of(fresh@)
                + fresh_connectors(start, all.skip(0)));
        }
        while i < mappings.len()
            invariant
                i <= mappings.len(),
                all == connectors::mappings_of(mappings@),
                self.allowed == old(self).allowed,
                self.host_loopback_alias == old(self).host_loopback_alias,
                connectors::mappings_of(self.active_connectors@) == start
                    + connectors::mappings_of(fresh@),
                fresh_connectors(start, all) == connectors::mappings_of(fresh@) + fresh_connectors(
                    connectors::mappings_of(self.active_connectors@),
                    all.skip(i as int),
                ),
            decreases mappings.len() - i,
        {
            let ghost before = connectors::mappings_of(fresh@);
            let ghost active = connectors::mappings_of(self.active_connectors@);
            let ghost m = all[i as int];
            proof {
                assert(all.skip(i as int)[0] == m);
                assert(all.skip(i as int).drop_first() =~= all.skip(i + 1));
            }
            if self.mark_connector_port_active(&mappings[i]) {
                fresh.push(mappings[i].clone());
                proof {
                    let after = connectors::mappings_of(fresh@);
                    assert(after =~= before.push(m));
                    assert(active.push(m) =~= start + after);
                    assert(fresh_connectors(active, all.skip(i as int)) =~= seq![m]
                        + fresh_connectors(active.push(m), all.skip(i + 1)));
                    assert(fresh_connectors(start, all) =~= after + fresh_connectors(
                        active.push(m),
                        all.skip(i + 1),
                    ));
                }
            }
            i = i + 1;
        }
        assert(all.skip(i as int) =~= Seq::<Mapping>::empty());
        assert(fresh_connectors(start, all) =~= connectors::mappings_of(fresh@));
        fresh
    }
}

/// Tests whether a connector is in a table.
fn holds_connector(mappings: &Vec<ConnectorMapping>, mapping: &ConnectorMapping) -> (r: bool)
    ensures
        r == connectors::mappings_of(mappings@).contains(mapping@),
{
    let ghost table = connectors::mappings_of(mappings@);
    let mut i: usize = 0;
    while i < mappings.len()
        invariant
            i <= mappings.len(),
            table == connectors::mappings_of(mappings@),
            forall|k: int| 0 <= k < i ==> #[trigger] table[k] != mapping@,
        decreases mappings.len() - i,
    {
        if mappings[i].listen_port == mapping.listen_port && mappings[i].target.same(
            &mapping.target,
        ) {
            assert(table[i as int] =~= mapping@);
            return true;
        }
        i = i + 1;
    }
    false
}

/// The connectors that stay listened on: those that the table still holds.
pub open spec fn kept_connectors(active: Seq<Mapping>, table: Seq<Mapping>) -> Seq<Mapping> {
    active.filter(|m: Mapping| table.contains(m))
}

/// The first connector of the table for each port that is not listened on.
pub open spec fn fresh_connectors(active: Seq<Mapping>, table: Seq<Mapping>) -> Seq<Mapping>
    decreases table.len(),
{
    if table.len() == 0 {
        Seq::empty()
    } else if connectors::uses_port(active, table[0].listen_port) {
        fresh_connectors(active, table.drop_first())
    } else {
        seq![table[0]] + fresh_connectors(active.push(table[0]), table.drop_first())
    }
}

/// The connectors that are listened on once those that the table does not hold are retired and
/// the others of the table are started.
pub open spec fn reconciled(active: Seq<Mapping>, table: Seq<Mapping>) -> Seq<Mapping> {
    kept_connectors(active, table) + fresh_connectors(kept_connectors(active, table), table)
}

/// A connector that is started is in the table, and afterwards every port of the table is listened
/// on.
proof fn fresh_are_listed(active: Seq<Mapping>, table: Seq<Mapping>, m: Mapping)
    ensures
        fresh_connectors(active, table).contains(m) ==> table.contains(m),
        table.contains(m) ==> connectors::uses_port(
            active + fresh_connectors(active, table),
            m.listen_port,
        ),
    decreases table.len(),
{
    if table.len() > 0 {
        let first = table[0];
        let rest = table.drop_first();
        let fresh = fresh_connectors(active, table);
        assert(table =~= seq![first] + rest);
        if connectors::uses_port(active, first.listen_port) {
            fresh_are_listed(active, rest, m);
            let i = choose|i: int|
                0 <= i < active.len() && (#[trigger] active[i]).listen_port == first.listen_port;
            assert((active + fresh)[i].listen_port == first.listen_port);
        } else {
            fresh_are_listed(active.push(first), rest, m);
            assert(active + fresh =~= active.push(first) + fresh_connectors(
                active.push(first),
                rest,
            ));
            assert((active + fresh)[active.len() as int] == first);
        }
        if fresh.contains(m) && m != first {
            assert(rest.contains(m));
        }
        if rest.contains(m) {
            let k = choose|k: int| 0 <= k < rest.len() && rest[k] == m;
            assert(table[k + 1] == m);
        }
        if table.contains(m) && m != first {
            let k = choose|k: int| 0 <= k < table.len() && table[k] == m;
            assert(rest[k - 1] == m);
        }
    }
}

/// The connectors that are listened on follow the table: each of them is in it, each of its ports
/// is listened on, and where no port is assigned twice they are just those of the table.
pub proof fn listeners_follow_the_table(active: Seq<Mapping>, table: Seq<Mapping>, m: Mapping)
    ensures
        reconciled(active, table).contains(m) ==> table.contains(m),
        table.contains(m) ==> connectors::uses_port(reconciled(active, table), m.listen_port),
        connectors::has_distinct_ports(table) && table.contains(m) ==> reconciled(
            active,
            table,
        ).contains(m),
{
    let keep = |m: Mapping| table.contains(m);
    let kept = kept_connectors(active, table);
    let after = reconciled(active, table);
    fresh_are_listed(kept, table, m);
    if after.contains(m) {
        let i = choose|i: int| 0 <= i < after.len() && after[i] == m;
        if i < kept.len() {
            assert(kept[i] == m);
            active.lemma_filter_pred(keep, i);
        } else {
            assert(fresh_connectors(kept, table)[i - kept.len()] == m);
        }
    }
    if connectors::has_distinct_ports(table) && table.contains(m) {
        let i = choose|i: int|
            0 <= i < after.len() && (#[trigger] after[i]).listen_port == m.listen_port;
        let x = after[i];
        fresh_are_listed(kept, table, x);
        if i < kept.len() {
            assert(kept[i] == x);
            active.lemma_filter_pred(keep, i);
        } else {
            assert(fresh_connectors(kept, table)[i - kept.len()] == x);
        }
        let a = choose|a: int| 0 <= a < table.len() && table[a] == x;
        let b = choose|b: int| 0 <= b < table.len() && table[b] == m;
        assert(a == b) by {
            if a < b {
                assert(table[a].listen_port != table[b].listen_port);
            } else if b < a {
                assert(table[b].listen_port != table[a].listen_port);
            }
        }
    }
}

} // verus!
