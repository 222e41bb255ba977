//! What the scheme of a destination stands for: its port, and whether a connector leads to it.
use crate::approvals;
use crate::canonical;
use crate::connectors;
use crate::connectors::Mapping;
use crate::decisions;
use crate::egress;
use crate::egress::{EgressError, EgressKind, Target};
use crate::number;
use crate::store;
use crate::store::{Decision, Step, Store, StoreError};
use crate::text;
use crate::text::CharClass;
use vstd::prelude::*;
use vstd::string::*;

verus! {

broadcast use vstd::string::group_string_axioms;

// ---------------------------------------------------------------------------
// Connectors
// ---------------------------------------------------------------------------

/// Whether a target is reached through the web proxy.
pub open spec fn is_web(t: Target) -> bool {
    t.kind == EgressKind::Http || t.kind == EgressKind::Https
}

/// Whether a target is reached through a connector.
pub open spec fn is_direct(t: Target) -> bool {
    t.kind == EgressKind::Tcp || t.kind == EgressKind::Ssh || t.kind == EgressKind::Mcp
}

/// A connector request for an `http` or `https` target is refused, and leaves the connectors as
/// they are.
pub proof fn web_target_is_refused_a_connector(m: Store, from: Seq<Mapping>, t: Target)
    requires
        is_web(t),
    ensures
        connectors::ensured(from, t) == Err::<Mapping, EgressError>(EgressError::NotAConnector),
        connectors::after_ensure(from, t) == from,
        store::mappings_in(m) is Ok ==> store::after_connector(m, t) == Err::<Store, StoreError>(
            StoreError::Target(EgressError::NotAConnector),
        ),
{
}

/// Approving or rejecting an `http` or `https` target succeeds on every session that can be read
/// and leaves the connectors as they are.
pub proof fn web_target_needs_no_connector(m: Store, target: Seq<char>, t: Target, now: u64)
    requires
        decisions::is_readable(m),
        egress::target_named(target) == Ok::<Target, EgressError>(t),
        is_web(t),
    ensures
        store::decided(m, Decision::Allow, target, now).1 is Ok,
        store::decided(m, Decision::Allow, target, now).0.connectors == m.connectors,
        store::decided(m, Decision::Deny, target, now).1 is Ok,
        store::decided(m, Decision::Deny, target, now).0.connectors == m.connectors,
{
    decisions::allowed_target_may_be_reached(m, target, t, now);
    decisions::denied_target_may_not_be_reached(m, target, t, now);
}

/// A connector request for a `tcp`, `ssh` or `mcp` target is granted, unless every one of the
/// connector ports is in use: it is answered with the connector that the target has, or else with
/// the lowest free port.
pub proof fn direct_target_is_granted_a_connector(table: Seq<Mapping>, t: Target)
    requires
        connectors::is_table(table),
        is_direct(t),
    ensures
        match connectors::ensured(table, t) {
            Ok(m) => {
                &&& m.target == t
                &&& connectors::after_ensure(table, t).contains(m)
                &&& connectors::has_target(table, t) ==> table.contains(m)
                &&& !connectors::has_target(table, t) ==> 46000 <= m.listen_port <= 55999
                    && !connectors::uses_port(table, m.listen_port) && forall|p: u16|
                    46000 <= p < m.listen_port ==> #[trigger] connectors::uses_port(table, p)
            },
            Err(e) => {
                &&& e == EgressError::NoConnectorPorts
                &&& !connectors::has_target(table, t)
                &&& forall|p: u16|
                    46000 <= p <= 55999 ==> #[trigger] connectors::uses_port(table, p)
            },
        },
{
    connectors::table_of_fixed(table);
    if connectors::has_target(table, t) {
        let i = choose|i: int| 0 <= i < table.len() && (#[trigger] table[i]).target == t;
        connectors::port_in_table(table, i);
        assert(connectors::ensured(table, t)->Ok_0 =~= table[i]);
    } else {
        lowest_port_is_taken(table, 46000);
    }
    if connectors::ensured(table, t) is Ok {
        connectors::granted_connector_is_stable(
            table,
            t,
            connectors::ensured(table, t)->Ok_0,
        );
    }
}

/// The port that is found is the first that is free.
proof fn lowest_port_is_taken(table: Seq<Mapping>, from: int)
    requires
        46000 <= from <= 56000,
    ensures
        match connectors::free_port_from(table, from) {
            Some(port) => from <= port <= 55999 && !connectors::uses_port(table, port)
                && forall|p: u16| from <= p < port ==> #[trigger] connectors::uses_port(table, p),
            None => forall|p: u16|
                from <= p <= 55999 ==> #[trigger] connectors::uses_port(table, p),
        },
    decreases 56000 - from,
{
    if from <= 55999 && connectors::uses_port(table, from as u16) {
        lowest_port_is_taken(table, from + 1);
    }
}

/// Approving a `tcp`, `ssh` or `mcp` target gives it a connector, and just one; rejecting it takes
/// the connector away.
pub proof fn direct_target_has_a_connector_while_approved(
    m: Store,
    target: Seq<char>,
    t: Target,
    now: u64,
)
    requires
        decisions::is_readable(m),
        egress::target_named(target) == Ok::<Target, EgressError>(t),
        is_direct(t),
    ensures
        store::decided(m, Decision::Allow, target, now).1 is Ok ==> approvals::has_one_connector(
            store::decided(m, Decision::Allow, target, now).0,
            t,
        ),
        store::decided(m, Decision::Allow, target, now).1 is Ok <==> connectors::ensured(
            store::mappings_in(m)->Ok_0,
            t,
        ) is Ok,
        store::decided(m, Decision::Deny, target, now).1 is Ok,
        store::mappings_in(store::decided(m, Decision::Deny, target, now).0) is Ok,
        !connectors::has_target(
            store::mappings_in(store::decided(m, Decision::Deny, target, now).0)->Ok_0,
            t,
        ),
{
    decisions::denied_target_may_not_be_reached(m, target, t, now);
    if connectors::ensured(store::mappings_in(m)->Ok_0, t) is Ok {
        decisions::allowed_target_may_be_reached(m, target, t, now);
    } else {
        let steps = store::allow_steps_of(t);
        assert(steps[0] == Step::EnsureConnector(t));
        assert(store::after_step(m, steps[0], now) is Err);
    }
    if store::decided(m, Decision::Allow, target, now).1 is Ok {
        let calls = seq![(target, now)];
        assert(calls[0] == (target, now));
        reveal_with_fuel(approvals::after_approvals, 2);
        approvals::approvals_add_up(m, calls);
        assert(approvals::names_target(calls, t));
        assert(approvals::has_one_connector(approvals::after_approvals(m, calls).0, t));
    }
}

/// Of several mappings for a target the one with the lowest port counts, and no target that has a
/// mapping goes without one.
pub proof fn lowest_mapping_counts(from: Seq<Mapping>, k: int)
    requires
        0 <= k < from.len(),
    ensures
        exists|i: int|
            0 <= i < connectors::table_of(from).len() && (#[trigger] connectors::table_of(
                from,
            )[i]).target == from[k].target && connectors::table_of(from)[i].listen_port
                <= from[k].listen_port && from.contains(connectors::table_of(from)[i]),
{
    connectors::table_exists(from);
    let table = connectors::table_of(from);
    assert(connectors::has_target(table, from[k].target));
    let i = choose|i: int| 0 <= i < table.len() && (#[trigger] table[i]).target == from[k].target;
    assert(from.contains(table[i]));
}

/// The address of a connector is the name of the broker and the port. It is found by the text of
/// its target, and where no mapping has that text there is none.
pub proof fn connector_address_is_found(table: Seq<Mapping>, i: int, key: Seq<char>)
    requires
        0 <= i < table.len(),
        forall|j: int|
            0 <= j < table.len() && j != i ==> egress::target_text((#[trigger] table[j]).target)
                != egress::target_text(table[i].target),
    ensures
        connectors::endpoint_named(table, egress::target_text(table[i].target)) == Some(
            "llm-box-broker:"@ + number::decimal(table[i].listen_port as nat),
        ),
        connectors::endpoint_named(table, key) is None <==> forall|j: int|
            0 <= j < table.len() ==> egress::target_text((#[trigger] table[j]).target) != key,
{
    address_of(table, i);
    address_is_missing(table, key);
    reveal_strlit("llm-box-broker");
    reveal_strlit("llm-box-broker:");
    reveal_strlit(":");
    assert("llm-box-broker"@ + ":"@ =~= "llm-box-broker:"@);
}

proof fn address_of(table: Seq<Mapping>, i: int)
    requires
        0 <= i < table.len(),
        forall|j: int|
            0 <= j < table.len() && j != i ==> egress::target_text((#[trigger] table[j]).target)
                != egress::target_text(table[i].target),
    ensures
        connectors::endpoint_named(table, egress::target_text(table[i].target)) == Some(
            "llm-box-broker"@ + ":"@ + number::decimal(table[i].listen_port as nat),
        ),
    decreases table.len(),
{
    if i < table.len() - 1 {
        let front = table.drop_last();
        assert(front[i] == table[i]);
        assert forall|j: int| 0 <= j < front.len() && j != i implies egress::target_text(
            (#[trigger] front[j]).target,
        ) != egress::target_text(front[i].target) by {
            assert(front[j] == table[j]);
        }
        address_of(front, i);
        assert(table[table.len() - 1] == table.last());
    }
}

proof fn address_is_missing(table: Seq<Mapping>, key: Seq<char>)
    ensures
        connectors::endpoint_named(table, key) is None <==> forall|j: int|
            0 <= j < table.len() ==> egress::target_text((#[trigger] table[j]).target) != key,
    decreases table.len(),
{
    if table.len() > 0 {
        let front = table.drop_last();
        address_is_missing(front, key);
        assert(table[table.len() - 1] == table.last());
        if forall|j: int|
            0 <= j < front.len() ==> egress::target_text((#[trigger] front[j]).target) != key {
            assert forall|j: int| 0 <= j < table.len() - 1 implies egress::target_text(
                (#[trigger] table[j]).target,
            ) != key by {
                assert(front[j] == table[j]);
            }
        } else {
            let j = choose|j: int|
                0 <= j < front.len() && egress::target_text((#[trigger] front[j]).target) == key;
            assert(table[j] == front[j]);
        }
    }
}

// ---------------------------------------------------------------------------
// Hosts
// ---------------------------------------------------------------------------

/// Whether `host` is made of lower-case letters, digits, dots and hyphens, at least one of them, and
/// neither starts nor ends with a dot.
pub open spec fn is_plain_host(host: Seq<char>) -> bool {
    &&& host.len() > 0
    &&& host[0] != '.'
    &&& host[host.len() - 1] != '.'
    &&& forall|i: int|
        0 <= i < host.len() ==> 'a' <= #[trigger] host[i] <= 'z' || '0' <= host[i] <= '9'
            || host[i] == '.' || host[i] == '-'
}

/// Whether `host` is made of lower-case hexadecimal digits, dots and colons, has two colons at
/// least, and neither starts nor ends with a dot.
pub open spec fn is_address_host(host: Seq<char>) -> bool {
    &&& host.len() > 0
    &&& host[0] != '.'
    &&& host[host.len() - 1] != '.'
    &&& exists|i: int, j: int|
        0 <= i < j < host.len() && #[trigger] host[i] == ':' && #[trigger] host[j] == ':'
    &&& forall|i: int|
        0 <= i < host.len() ==> 'a' <= #[trigger] host[i] <= 'f' || '0' <= host[i] <= '9'
            || host[i] == '.' || host[i] == ':'
}

/// A plain host and an address are canonical.
pub proof fn written_host_is_canonical(host: Seq<char>)
    requires
        is_plain_host(host) || is_address_host(host),
    ensures
        canonical::is_canonical_host(host),
        is_plain_host(host) ==> !host.contains(':'),
        is_address_host(host) ==> host.contains(':'),
{
    text::find_is_first(host, ':');
    text::rfind_is_last(host, ':');
}

/// A name made of letters, digits, dots and hyphens is a host as it is, and so is an address made
/// of hexadecimal digits, dots and colons. No text names any other host, but for one with a single
/// colon.
pub proof fn names_and_addresses_are_hosts(host: Seq<char>, value: Seq<char>)
    ensures
        is_plain_host(host) || is_address_host(host) ==> egress::normalized_host(host) == Ok::<
            Seq<char>,
            EgressError,
        >(host),
        egress::normalized_host(value) == Ok::<Seq<char>, EgressError>(host) ==> is_plain_host(host)
            || (host.contains(':') && host.len() > 0 && host[0] != '.' && host[host.len() - 1]
            != '.' && forall|i: int|
            0 <= i < host.len() ==> 'a' <= #[trigger] host[i] <= 'f' || '0' <= host[i] <= '9'
                || host[i] == '.' || host[i] == ':'),
{
    if is_plain_host(host) || is_address_host(host) {
        written_host_is_canonical(host);
        canonical::canonical_host_is_fixed(host);
    }
    if egress::normalized_host(value) == Ok::<Seq<char>, EgressError>(host) {
        canonical::normalized_shape(value, host);
    }
}

// ---------------------------------------------------------------------------
// Schemes
// ---------------------------------------------------------------------------

/// The canonical text of a target is its scheme, `://`, its host, in brackets where it holds a
/// colon, a colon and its port.
pub proof fn canonical_text_is_written_out(host: Seq<char>, port: u16)
    requires
        host.len() > 0,
        host[0] != '[',
    ensures
        ({
            let place = (if host.contains(':') {
                seq!['['] + host + seq![']']
            } else {
                host
            }) + seq![':'] + number::decimal(port as nat);
            &&& egress::target_text(Target { kind: EgressKind::Http, host, port }) == "http://"@
                + place
            &&& egress::target_text(Target { kind: EgressKind::Https, host, port }) == "https://"@
                + place
            &&& egress::target_text(Target { kind: EgressKind::Tcp, host, port }) == "tcp://"@
                + place
            &&& egress::target_text(Target { kind: EgressKind::Ssh, host, port }) == "ssh://"@
                + place
            &&& egress::target_text(Target { kind: EgressKind::Mcp, host, port }) == "mcp://"@
                + place
        }),
{
    reveal_strlit("://");
    reveal_strlit(":");
    reveal_strlit("http");
    reveal_strlit("https");
    reveal_strlit("tcp");
    reveal_strlit("ssh");
    reveal_strlit("mcp");
    reveal_strlit("http://");
    reveal_strlit("https://");
    reveal_strlit("tcp://");
    reveal_strlit("ssh://");
    reveal_strlit("mcp://");
    let place = egress::uri_host(host) + seq![':'] + number::decimal(port as nat);
    assert(":"@ =~= seq![':']);
    assert(egress::target_text(Target { kind: EgressKind::Http, host, port }) =~= "http://"@
        + place);
    assert(egress::target_text(Target { kind: EgressKind::Https, host, port }) =~= "https://"@
        + place);
    assert(egress::target_text(Target { kind: EgressKind::Tcp, host, port }) =~= "tcp://"@ + place);
    assert(egress::target_text(Target { kind: EgressKind::Ssh, host, port }) =~= "ssh://"@ + place);
    assert(egress::target_text(Target { kind: EgressKind::Mcp, host, port }) =~= "mcp://"@ + place);
}

/// A host without a port, behind a scheme or alone.
pub proof fn bare_host(host: Seq<char>, default_port: u16)
    requires
        is_plain_host(host),
    ensures
        egress::authority_of(host) == host,
        egress::host_and_port(host, default_port) == (if default_port == 0 {
            Err::<(Seq<char>, u16), EgressError>(EgressError::PortRequired)
        } else {
            Ok((host, default_port))
        }),
        text::trim(host) == host,
{
    written_host_is_canonical(host);
    canonical::canonical_host_is_fixed(host);
    canonical::trim_unchanged(host, CharClass::WhiteSpace);
    text::rfind_is_last(host, ':');
    canonical::authority_is_the_longest_prefix(host);
    let a = egress::authority_of(host);
    assert(a =~= host);
}

/// A scheme made of lower-case letters, and what follows it.
proof fn split_scheme(scheme: Seq<char>, rest: Seq<char>)
    requires
        scheme.len() > 0,
        forall|i: int| 0 <= i < scheme.len() ==> 'a' <= #[trigger] scheme[i] <= 'z',
    ensures
        text::split_once_seq(scheme + "://"@ + rest, "://"@) == Some((scheme, rest)),
{
    let s = scheme + "://"@ + rest;
    let n = scheme.len() as int;
    reveal_strlit("://");
    text::find_seq_is_first(s, "://"@);
    assert(s.subrange(n, n + 3) =~= "://"@);
    assert(text::occurs_at(s, "://"@, n));
    let i = text::find_seq(s, "://"@);
    if i < n {
        assert(s.subrange(i, i + 3)[0] == "://"@[0]);
        assert(s[i] == scheme[i]);
    }
    assert(s.take(n) =~= scheme);
    assert(s.skip(n + 3) =~= rest);
}

/// A host behind a scheme, without a port.
proof fn host_behind_scheme(scheme: Seq<char>, host: Seq<char>, kind: EgressKind)
    requires
        is_plain_host(host),
        scheme == egress::kind_text(kind),
    ensures
        egress::target_named(scheme + "://"@ + host) == (if egress::default_port_of(kind) == 0 {
            Err::<Target, EgressError>(EgressError::PortRequired)
        } else {
            Ok(Target { kind, host, port: egress::default_port_of(kind) })
        }),
{
    reveal(egress::target_named);
    reveal_strlit("://");
    let s = scheme + "://"@ + host;
    let port = egress::default_port_of(kind);
    canonical::kind_text_shape(kind);
    assert(s[0] == scheme[0] && s.last() == host.last());
    canonical::trim_unchanged(s, CharClass::WhiteSpace);
    split_scheme(scheme, host);
    bare_host(host, port);
    written_host_is_canonical(host);
    canonical::canonical_host_is_fixed(host);
}

/// A host without a port behind `http://`, `https://` or `ssh://` is reached at port 80, 443 or 22.
/// Behind `tcp://` and `mcp://` a port is required. A host alone is an `https` one.
pub proof fn scheme_stands_for_a_port(host: Seq<char>)
    requires
        is_plain_host(host),
    ensures
        egress::target_named("http://"@ + host) == Ok::<Target, EgressError>(
            Target { kind: EgressKind::Http, host, port: 80 },
        ),
        egress::target_named("https://"@ + host) == Ok::<Target, EgressError>(
            Target { kind: EgressKind::Https, host, port: 443 },
        ),
        egress::target_named("ssh://"@ + host) == Ok::<Target, EgressError>(
            Target { kind: EgressKind::Ssh, host, port: 22 },
        ),
        egress::target_named("tcp://"@ + host) == Err::<Target, EgressError>(
            EgressError::PortRequired,
        ),
        egress::target_named("mcp://"@ + host) == Err::<Target, EgressError>(
            EgressError::PortRequired,
        ),
        egress::target_named(host) == Ok::<Target, EgressError>(
            Target { kind: EgressKind::Https, host, port: 443 },
        ),
{
    reveal_strlit("http");
    reveal_strlit("https");
    reveal_strlit("tcp");
    reveal_strlit("ssh");
    reveal_strlit("mcp");
    reveal_strlit("://");
    reveal_strlit("http://");
    reveal_strlit("https://");
    reveal_strlit("tcp://");
    reveal_strlit("ssh://");
    reveal_strlit("mcp://");
    assert("http"@ + "://"@ =~= "http://"@);
    assert("https"@ + "://"@ =~= "https://"@);
    assert("tcp"@ + "://"@ =~= "tcp://"@);
    assert("ssh"@ + "://"@ =~= "ssh://"@);
    assert("mcp"@ + "://"@ =~= "mcp://"@);
    host_behind_scheme("http"@, host, EgressKind::Http);
    host_behind_scheme("https"@, host, EgressKind::Https);
    host_behind_scheme("tcp"@, host, EgressKind::Tcp);
    host_behind_scheme("ssh"@, host, EgressKind::Ssh);
    host_behind_scheme("mcp"@, host, EgressKind::Mcp);
    reveal(egress::target_named);
    bare_host(host, 443);
    text::find_seq_is_first(host, "://"@);
    if text::find_seq(host, "://"@) >= 0 {
        let i = text::find_seq(host, "://"@);
        assert(host.subrange(i, i + 3)[0] == "://"@[0]);
    }
    written_host_is_canonical(host);
    canonical::canonical_host_is_fixed(host);
}

/// A host with a port, alone or behind a scheme, is reached at that port; alone it is an `https`
/// one.
pub proof fn written_port_counts(host: Seq<char>, port: u16)
    requires
        is_plain_host(host),
        port != 0,
    ensures
        ({
            let place = host + seq![':'] + number::decimal(port as nat);
            &&& egress::target_named("http://"@ + place) == Ok::<Target, EgressError>(
                Target { kind: EgressKind::Http, host, port },
            )
            &&& egress::target_named("https://"@ + place) == Ok::<Target, EgressError>(
                Target { kind: EgressKind::Https, host, port },
            )
            &&& egress::target_named("tcp://"@ + place) == Ok::<Target, EgressError>(
                Target { kind: EgressKind::Tcp, host, port },
            )
            &&& egress::target_named("ssh://"@ + place) == Ok::<Target, EgressError>(
                Target { kind: EgressKind::Ssh, host, port },
            )
            &&& egress::target_named("mcp://"@ + place) == Ok::<Target, EgressError>(
                Target { kind: EgressKind::Mcp, host, port },
            )
            &&& egress::target_named(place) == Ok::<Target, EgressError>(
                Target { kind: EgressKind::Https, host, port },
            )
        }),
{
    written_host_is_canonical(host);
    canonical_text_is_written_out(host, port);
    canonical::target_text_round_trip(Target { kind: EgressKind::Http, host, port });
    canonical::target_text_round_trip(Target { kind: EgressKind::Https, host, port });
    canonical::target_text_round_trip(Target { kind: EgressKind::Tcp, host, port });
    canonical::target_text_round_trip(Target { kind: EgressKind::Ssh, host, port });
    canonical::target_text_round_trip(Target { kind: EgressKind::Mcp, host, port });
    place_alone(host, port);
}

/// A host with a port alone.
proof fn place_alone(host: Seq<char>, port: u16)
    requires
        is_plain_host(host),
        port != 0,
    ensures
        egress::target_named(host + seq![':'] + number::decimal(port as nat)) == Ok::<
            Target,
            EgressError,
        >(Target { kind: EgressKind::Https, host, port }),
{
    reveal(egress::target_named);
    let d = number::decimal(port as nat);
    let place = host + seq![':'] + d;
    let m = host.len() as int;
    number::decimal_is_digits(port as nat);
    number::number_round_trip(port as nat);
    assert(text::is_digit(d[d.len() - 1]));
    assert(place[0] == host[0] && place.last() == d.last());
    canonical::trim_unchanged(place, CharClass::WhiteSpace);
    reveal_strlit("://");
    text::find_seq_is_first(place, "://"@);
    if text::find_seq(place, "://"@) >= 0 {
        let i = text::find_seq(place, "://"@);
        assert(place.subrange(i, i + 3)[0] == "://"@[0]);
        assert(place.subrange(i, i + 3)[1] == "://"@[1]);
        assert(place[i + 1] == '/');
        if i + 1 > m {
            assert(place[i + 1] == d[i - m]);
        } else if i + 1 < m {
            assert(place[i + 1] == host[i + 1]);
        }
    }
    text::rfind_is_last(place, ':');
    assert(place[m] == ':');
    let r = text::rfind(place, ':');
    if r > m {
        assert(place[r] == d[r - m - 1]);
    }
    assert(place.take(m) =~= host);
    assert(place.skip(m + 1) =~= d);
    written_host_is_canonical(host);
    canonical::canonical_host_is_fixed(host);
}

/// Port 0 stands for the port of the kind: 80, 443 or 22; there is none for `tcp` and `mcp`.
pub proof fn port_zero_stands_for_the_default(host: Seq<char>)
    requires
        is_plain_host(host),
    ensures
        egress::new_target(EgressKind::Http, host, 0) == Ok::<Target, EgressError>(
            Target { kind: EgressKind::Http, host, port: 80 },
        ),
        egress::new_target(EgressKind::Https, host, 0) == Ok::<Target, EgressError>(
            Target { kind: EgressKind::Https, host, port: 443 },
        ),
        egress::new_target(EgressKind::Ssh, host, 0) == Ok::<Target, EgressError>(
            Target { kind: EgressKind::Ssh, host, port: 22 },
        ),
        egress::new_target(EgressKind::Tcp, host, 0) == Err::<Target, EgressError>(
            EgressError::PortRequiredFor(EgressKind::Tcp),
        ),
        egress::new_target(EgressKind::Mcp, host, 0) == Err::<Target, EgressError>(
            EgressError::PortRequiredFor(EgressKind::Mcp),
        ),
{
    written_host_is_canonical(host);
    canonical::canonical_host_is_fixed(host);
}

/// A text behind a scheme that names no kind is refused, whatever it is.
pub proof fn unknown_scheme_is_refused(scheme: Seq<char>, rest: Seq<char>)
    requires
        scheme.len() > 0,
        forall|i: int| 0 <= i < scheme.len() ==> 'a' <= #[trigger] scheme[i] <= 'z',
        scheme != "http"@,
        scheme != "https"@,
        scheme != "tcp"@,
        scheme != "ssh"@,
        scheme != "mcp"@,
    ensures
        egress::target_named(scheme + "://"@ + rest) == Err::<Target, EgressError>(
            EgressError::UnsupportedKind,
        ),
{
    reveal(egress::target_named);
    reveal_strlit("://");
    let s = scheme + "://"@ + rest;
    let front = scheme + seq![':', '/'];
    let back = seq!['/'] + rest;
    assert(s =~= front + back);
    assert(s[0] == scheme[0]);
    assert(text::trim_start_of(s, CharClass::WhiteSpace) == s);
    canonical::trim_end_behind(front, back, CharClass::WhiteSpace);
    canonical::trim_end_keeps_start(back, CharClass::WhiteSpace);
    let kept = text::trim_end_of(back, CharClass::WhiteSpace);
    let t = text::trim(s);
    assert(t =~= scheme + "://"@ + kept.drop_first());
    split_scheme(scheme, kept.drop_first());
    canonical::trim_unchanged(scheme, CharClass::WhiteSpace);
    assert(text::lower(scheme) =~= scheme);
}

/// A text of white space names nothing, and white space round a text does not matter.
pub proof fn white_space_round_a_destination_is_ignored(
    before: Seq<char>,
    value: Seq<char>,
    after: Seq<char>,
)
    requires
        forall|i: int|
            0 <= i < before.len() ==> #[trigger] before[i] == ' ' || before[i] == '\t' || before[i]
                == '\r' || before[i] == '\n',
        forall|i: int|
            0 <= i < after.len() ==> #[trigger] after[i] == ' ' || after[i] == '\t' || after[i]
                == '\r' || after[i] == '\n',
    ensures
        egress::target_named(before) == Err::<Target, EgressError>(EgressError::InvalidDestination),
        egress::target_named(before + value + after) == egress::target_named(value),
{
    reveal(egress::target_named);
    space_is_trimmed(before, value, after);
    let none = Seq::<char>::empty();
    space_is_trimmed(before, none, none);
    assert(before + none + none =~= before);
}

/// White space at either end is trimmed.
pub proof fn space_is_trimmed(before: Seq<char>, value: Seq<char>, after: Seq<char>)
    requires
        forall|i: int| 0 <= i < before.len() ==> text::is_white_space(#[trigger] before[i]),
        forall|i: int| 0 <= i < after.len() ==> text::is_white_space(#[trigger] after[i]),
    ensures
        text::trim(before + value + after) == text::trim(value),
    decreases before.len() + after.len(),
{
    let s = before + value + after;
    let space = CharClass::WhiteSpace;
    if before.len() > 0 {
        assert(s[0] == before[0]);
        assert(s.drop_first() =~= before.drop_first() + value + after);
        space_is_trimmed(before.drop_first(), value, after);
    } else if after.len() > 0 {
        let inner = value + after.drop_last();
        assert(s =~= inner.push(after.last()));
        assert(before + value + after.drop_last() =~= inner);
        space_is_trimmed(before, value, after.drop_last());
        space_at_end(inner, after.last());
    } else {
        assert(s =~= value);
    }
}

/// One space at the end is trimmed.
proof fn space_at_end(s: Seq<char>, c: char)
    requires
        text::is_white_space(c),
    ensures
        text::trim(s.push(c)) == text::trim(s),
    decreases s.len(),
{
    let space = CharClass::WhiteSpace;
    let t = s.push(c);
    if s.len() == 0 {
        assert(t.drop_first() =~= s);
        assert(text::trim_start_of(t, space) == text::trim_start_of(s, space));
    } else if text::is_white_space(s[0]) {
        assert(t[0] == s[0]);
        assert(t.drop_first() =~= s.drop_first().push(c));
        space_at_end(s.drop_first(), c);
    } else {
        assert(t[0] == s[0]);
        assert(text::trim_start_of(t, space) == t);
        assert(t.last() == c);
        assert(t.drop_last() =~= s);
    }
}

// ---------------------------------------------------------------------------
// Places
// ---------------------------------------------------------------------------

/// A host or an address goes through the reading of a host unchanged.
proof fn written_host_is_read(host: Seq<char>)
    requires
        is_plain_host(host) || is_address_host(host),
    ensures
        egress::normalized_host(host) == Ok::<Seq<char>, EgressError>(host),
        text::trim(host) == host,
        forall|i: int|
            0 <= i < host.len() ==> #[trigger] host[i] != '[' && host[i] != ']' && host[i] != '/'
                && host[i] != '@',
{
    written_host_is_canonical(host);
    canonical::canonical_host_is_fixed(host);
    canonical::trim_unchanged(host, CharClass::WhiteSpace);
}

/// An address in brackets is read with the port behind them, or with the default where there is
/// none. Brackets that are not closed are refused. An address without brackets is read with the
/// default port, where there is one.
pub proof fn address_is_read_in_brackets(host: Seq<char>, port: u16, default_port: u16)
    requires
        is_address_host(host),
        port != 0,
    ensures
        egress::host_and_port(seq!['['] + host + seq![']'], default_port) == Ok::<
            (Seq<char>, u16),
            EgressError,
        >((host, default_port)),
        egress::host_and_port(
            seq!['['] + host + seq![']', ':'] + number::decimal(port as nat),
            default_port,
        ) == Ok::<(Seq<char>, u16), EgressError>((host, port)),
        egress::host_and_port(seq!['['] + host, default_port) == Err::<
            (Seq<char>, u16),
            EgressError,
        >(EgressError::InvalidBracketedHost),
        default_port != 0 ==> egress::host_and_port(host, default_port) == Ok::<
            (Seq<char>, u16),
            EgressError,
        >((host, default_port)),
        default_port == 0 ==> egress::host_and_port(host, default_port) == Err::<
            (Seq<char>, u16),
            EgressError,
        >(EgressError::PortRequired),
{
    written_host_is_read(host);
    written_host_is_canonical(host);
    let t = Target { kind: EgressKind::Tcp, host, port };
    canonical::place_round_trip(t, default_port);
    assert(canonical::place_text(t) =~= seq!['['] + host + seq![']', ':'] + number::decimal(
        port as nat,
    ));
    let closed = seq!['['] + host + seq![']'];
    assert(closed[0] == '[' && closed.last() == ']');
    canonical::trim_unchanged(closed, CharClass::WhiteSpace);
    let inner = closed.drop_first();
    assert(inner =~= host + seq![']']);
    assert(!host.contains(']'));
    text::text_is_split_at_a_character(host, Seq::<char>::empty(), ']');
    assert(host + seq![']'] + Seq::<char>::empty() =~= inner);
    let open = seq!['['] + host;
    assert(open[0] == '[' && open.last() == host.last());
    canonical::trim_unchanged(open, CharClass::WhiteSpace);
    assert(open.drop_first() =~= host);
    text::rfind_is_last(host, ':');
    let r = text::rfind(host, ':');
    let (i, j) = choose|i: int, j: int|
        0 <= i < j < host.len() && #[trigger] host[i] == ':' && #[trigger] host[j] == ':';
    assert(r >= j);
    assert(host.take(r)[i] == ':');
    assert(host.take(r).contains(':'));
}

/// A port that is no number is refused.
pub proof fn bad_port_is_refused(host: Seq<char>, bad: Seq<char>, default_port: u16)
    requires
        is_plain_host(host),
        forall|i: int| 0 <= i < bad.len() ==> #[trigger] bad[i] != ':',
        bad.len() > 0 ==> !text::is_white_space(bad[bad.len() - 1]),
        bad.len() == 0 || exists|i: int|
            0 <= i < bad.len() && !('0' <= #[trigger] bad[i] <= '9') && bad[i] != '+',
    ensures
        egress::host_and_port(host + seq![':'] + bad, default_port) == Err::<
            (Seq<char>, u16),
            EgressError,
        >(EgressError::InvalidPort),
{
    written_host_is_read(host);
    written_host_is_canonical(host);
    let s = host + seq![':'] + bad;
    assert(s[0] == host[0]);
    if bad.len() > 0 {
        assert(s.last() == bad[bad.len() - 1]);
    } else {
        assert(s.last() == ':');
    }
    canonical::trim_unchanged(s, CharClass::WhiteSpace);
    assert(!bad.contains(':'));
    text::text_is_split_at_a_character(host, bad, ':');
    number::numbers_are_read_from_digits(0, bad, u16::MAX as nat);
}

/// What stands round a host does not matter to its name: a user before it, a port of digits or dots
/// behind it, dots before it, and in a URL a path, whatever it holds but for an at sign.
pub proof fn what_surrounds_a_host_is_dropped(
    host: Seq<char>,
    user: Seq<char>,
    port: nat,
    path: Seq<char>,
)
    requires
        is_plain_host(host),
        forall|i: int|
            0 <= i < user.len() ==> #[trigger] user[i] != '/' && !text::is_white_space(user[i]),
        !path.contains('@'),
    ensures
        egress::normalized_host(user + seq!['@'] + host) == Ok::<Seq<char>, EgressError>(host),
        egress::normalized_host(host + seq![':'] + number::decimal(port)) == Ok::<
            Seq<char>,
            EgressError,
        >(host),
        egress::normalized_host(seq!['.'] + host + seq!['.']) == Ok::<Seq<char>, EgressError>(host),
        egress::normalized_host("https://"@ + host + "/"@ + path) == Ok::<Seq<char>, EgressError>(
            host,
        ),
{
    user_is_dropped(host, user);
    port_is_dropped(host, port);
    dots_are_dropped(host);
    path_is_dropped(host, path);
}

/// A text without a slash has no scheme.
proof fn no_scheme(s: Seq<char>)
    requires
        forall|i: int| 0 <= i < s.len() ==> #[trigger] s[i] != '/',
    ensures
        egress::after_scheme(s) == s,
{
    reveal_strlit("://");
    text::find_seq_is_first(s, "://"@);
    if text::find_seq(s, "://"@) >= 0 {
        let i = text::find_seq(s, "://"@);
        assert(s.subrange(i, i + 3)[1] == "://"@[1]);
        assert(s[i + 1] == '/');
    }
}

/// A host alone is what is left of an authority of a host.
proof fn host_is_left(host: Seq<char>)
    requires
        is_plain_host(host),
    ensures
        egress::authority_of(host) == host,
        egress::host_part(host) == Some(host),
        text::trim_of(host, CharClass::One('.')) == host,
        egress::is_valid_host(host),
        text::lower(host) == host,
        egress::after_user_info(host) == host,
{
    bare_host(host, 80);
    written_host_is_canonical(host);
    text::find_is_first(host, ':');
    text::rfind_is_last(host, '@');
    canonical::trim_unchanged(host, CharClass::One('.'));
    assert(text::lower(host) =~= host);
}

proof fn user_is_dropped(host: Seq<char>, user: Seq<char>)
    requires
        is_plain_host(host),
        forall|i: int|
            0 <= i < user.len() ==> #[trigger] user[i] != '/' && !text::is_white_space(user[i]),
    ensures
        egress::normalized_host(user + seq!['@'] + host) == Ok::<Seq<char>, EgressError>(host),
{
    host_is_left(host);
    let s = user + seq!['@'] + host;
    if user.len() > 0 {
        assert(s[0] == user[0]);
    }
    assert(s.last() == host.last());
    canonical::trim_unchanged(s, CharClass::WhiteSpace);
    let low = text::lower(user) + seq!['@'] + host;
    assert(text::lower(s) =~= low) by {
        assert forall|i: int| 0 <= i < s.len() implies text::lower(s)[i] == low[i] by {
            if i > user.len() {
                assert(s[i] == host[i - user.len() - 1]);
                assert(text::lower(host)[i - user.len() - 1] == host[i - user.len() - 1]);
            }
        }
    }
    assert forall|i: int| 0 <= i < low.len() implies #[trigger] low[i] != '/' by {
        if i < user.len() {
            assert(low[i] == text::lower_char(user[i]));
        } else if i > user.len() {
            assert(low[i] == host[i - user.len() - 1]);
        }
    }
    no_scheme(low);
    assert(!host.contains('@'));
    text::text_is_split_at_a_character(text::lower(user), host, '@');
}

proof fn port_is_dropped(host: Seq<char>, port: nat)
    requires
        is_plain_host(host),
    ensures
        egress::normalized_host(host + seq![':'] + number::decimal(port)) == Ok::<
            Seq<char>,
            EgressError,
        >(host),
{
    host_is_left(host);
    written_host_is_canonical(host);
    let d = number::decimal(port);
    let s = host + seq![':'] + d;
    let n = host.len() as int;
    number::decimal_is_digits(port);
    assert(text::is_digit(d[d.len() - 1]));
    assert(s[0] == host[0] && s.last() == d.last());
    canonical::trim_unchanged(s, CharClass::WhiteSpace);
    assert forall|i: int| 0 <= i < s.len() implies #[trigger] s[i] != '/' && s[i] != '@' && s[i]
        != '?' && s[i] != '#' && !('A' <= s[i] <= 'Z') by {
        if i < n {
            assert(s[i] == host[i]);
        } else if i > n {
            assert(s[i] == d[i - n - 1]);
            assert(text::is_digit(d[i - n - 1]));
        }
    }
    assert(text::lower(s) =~= s);
    no_scheme(s);
    text::rfind_is_last(s, '@');
    canonical::authority_is_the_longest_prefix(s);
    assert(egress::authority_of(s) =~= s);
    assert(!d.contains(':')) by {
        if d.contains(':') {
            let i = choose|i: int| 0 <= i < d.len() && d[i] == ':';
            assert(text::is_digit(d[i]));
        }
    }
    text::text_is_split_at_a_character(host, d, ':');
    text::find_is_first(s, ':');
    text::rfind_is_last(s, ':');
    assert(s[n] == ':');
    assert(text::find(s, ':') == n) by {
        let f = text::find(s, ':');
        if f < n {
            assert(s[f] == host[f]);
        }
    }
    assert(text::rfind(s, ':') == n) by {
        let r = text::rfind(s, ':');
        if r > n {
            assert(s[r] == d[r - n - 1]);
            assert(text::is_digit(d[r - n - 1]));
        }
    }
    assert(s.skip(n + 1) =~= d);
    assert(s.take(n) =~= host);
    assert(egress::ends_in_port(s));
    assert(s[0] != '[');
}

proof fn dots_are_dropped(host: Seq<char>)
    requires
        is_plain_host(host),
    ensures
        egress::normalized_host(seq!['.'] + host + seq!['.']) == Ok::<Seq<char>, EgressError>(host),
{
    host_is_left(host);
    written_host_is_canonical(host);
    let s = seq!['.'] + host + seq!['.'];
    assert(s[0] == '.' && s.last() == '.');
    canonical::trim_unchanged(s, CharClass::WhiteSpace);
    assert forall|i: int| 0 <= i < s.len() implies #[trigger] s[i] != '/' && s[i] != '@' && s[i]
        != '?' && s[i] != '#' && s[i] != ':' && !('A' <= s[i] <= 'Z') by {
        if 0 < i <= host.len() {
            assert(s[i] == host[i - 1]);
        }
    }
    assert(text::lower(s) =~= s);
    no_scheme(s);
    text::rfind_is_last(s, '@');
    canonical::authority_is_the_longest_prefix(s);
    assert(egress::authority_of(s) =~= s);
    text::find_is_first(s, ':');
    let dot = CharClass::One('.');
    let t = host + seq!['.'];
    assert(s.drop_first() =~= t);
    assert(t[0] == host[0]);
    assert(text::trim_start_of(t, dot) == t);
    assert(text::trim_start_of(s, dot) == t);
    assert(t.last() == '.');
    assert(t.drop_last() =~= host);
    assert(text::trim_end_of(t, dot) == text::trim_end_of(host, dot));
}

proof fn path_is_dropped(host: Seq<char>, path: Seq<char>)
    requires
        is_plain_host(host),
        !path.contains('@'),
    ensures
        egress::normalized_host("https://"@ + host + "/"@ + path) == Ok::<Seq<char>, EgressError>(
            host,
        ),
{
    host_is_left(host);
    reveal_strlit("https://");
    reveal_strlit("/");
    reveal_strlit("://");
    let space = CharClass::WhiteSpace;
    let front = "https://"@ + host;
    let back = "/"@ + path;
    let s = "https://"@ + host + "/"@ + path;
    assert(s =~= front + back);
    assert(s[0] == 'h');
    assert(text::trim_start_of(s, space) == s);
    canonical::trim_end_behind(front, back, space);
    canonical::trim_end_keeps_start(back, space);
    canonical::trim_end_shape(back, space);
    let kept = text::trim_end_of(back, space);
    let low = text::lower(kept);
    assert(low[0] == '/');
    let scheme = seq!['h', 't', 't', 'p', 's'];
    let rest = host + low;
    assert(text::lower(front + kept) =~= scheme + "://"@ + rest) by {
        let x = text::lower(front + kept);
        let y = scheme + "://"@ + rest;
        assert forall|i: int| 0 <= i < x.len() implies x[i] == y[i] by {
            if 8 <= i < 8 + host.len() {
                assert((front + kept)[i] == host[i - 8]);
                assert(text::lower(host)[i - 8] == host[i - 8]);
            }
        }
    }
    split_scheme(scheme, rest);
    assert(!rest.contains('@')) by {
        if rest.contains('@') {
            let i = choose|i: int| 0 <= i < rest.len() && rest[i] == '@';
            if i >= host.len() {
                let k = i - host.len();
                assert(low[k] == text::lower_char(kept[k]));
                assert(kept[k] == back[k]);
                if k > 0 {
                    assert(back[k] == path[k - 1]);
                    assert(path.contains('@'));
                }
            }
        }
    }
    text::rfind_is_last(rest, '@');
    canonical::authority_is_the_longest_prefix(rest);
    let a = egress::authority_of(rest);
    let m = host.len() as int;
    assert(rest[m] == low[0]);
    if a.len() > m {
        assert(a[m] == rest[m]);
    }
    if a.len() < m {
        assert(rest[a.len() as int] == host[a.len() as int]);
    }
    assert(a =~= host);
}

/// The case of letters does not matter in a scheme.
pub proof fn scheme_case_does_not_matter(a: Seq<char>, b: Seq<char>)
    requires
        text::lower(a) == text::lower(b),
    ensures
        egress::kind_named(a) == egress::kind_named(b),
{
    canonical::trim_ignores_case(a, b);
}

/// A path needs a scheme before the host: behind a host and a port alone it makes the port one that
/// cannot be read.
pub proof fn path_needs_a_scheme(host: Seq<char>, port: nat, path: Seq<char>)
    requires
        is_plain_host(host),
        !path.contains(':'),
        path.len() > 0 ==> !text::is_white_space(path[path.len() - 1]),
    ensures
        egress::target_named(host + seq![':'] + number::decimal(port) + seq!['/'] + path) == Err::<
            Target,
            EgressError,
        >(EgressError::InvalidPort),
{
    reveal(egress::target_named);
    let d = number::decimal(port);
    let bad = d + seq!['/'] + path;
    let s = host + seq![':'] + bad;
    assert(host + seq![':'] + d + seq!['/'] + path =~= s);
    number::decimal_is_digits(port);
    let n = host.len() as int;
    assert forall|i: int| 0 <= i < bad.len() implies #[trigger] bad[i] != ':' by {
        if i < d.len() {
            assert(bad[i] == d[i]);
            assert(text::is_digit(d[i]));
        } else if i > d.len() {
            assert(bad[i] == path[i - d.len() - 1]);
        }
    }
    assert(bad[d.len() as int] == '/');
    if path.len() > 0 {
        assert(bad.last() == path[path.len() - 1]);
    } else {
        assert(bad.last() == '/');
    }
    bad_port_is_refused(host, bad, 443);
    assert(s[0] == host[0] && s.last() == bad.last());
    canonical::trim_unchanged(s, CharClass::WhiteSpace);
    reveal_strlit("://");
    text::find_seq_is_first(s, "://"@);
    if text::find_seq(s, "://"@) >= 0 {
        let i = text::find_seq(s, "://"@);
        assert(s.subrange(i, i + 3)[0] == "://"@[0]);
        assert(s.subrange(i, i + 3)[1] == "://"@[1]);
        assert(s[i] == ':' && s[i + 1] == '/');
        if i < n {
            assert(s[i] == host[i]);
        } else if i == n {
            assert(s[n + 1] == d[0]);
            assert(text::is_digit(d[0]));
        } else {
            assert(s[i] == bad[i - n - 1]);
        }
    }
}

/// A connector request goes by the table of the mappings, in whatever order they are and however
/// often, and one that is refused for want of a port leaves the table.
pub proof fn connector_request_goes_by_the_table(from: Seq<Mapping>, t: Target)
    requires
        is_direct(t),
    ensures
        connectors::is_table(connectors::table_of(from)),
        connectors::ensured(from, t) == connectors::ensured(connectors::table_of(from), t),
        connectors::after_ensure(from, t) == connectors::after_ensure(
            connectors::table_of(from),
            t,
        ),
        connectors::ensured(from, t) is Err ==> connectors::after_ensure(from, t)
            == connectors::table_of(from),
{
    connectors::table_exists(from);
    connectors::table_of_fixed(connectors::table_of(from));
}

/// Where no port is left for a connector the target is not approved: the approval fails, and nothing
/// changes.
pub proof fn target_without_a_port_is_not_approved(m: Store, target: Seq<char>, t: Target, now: u64)
    requires
        store::mappings_in(m) is Ok,
        egress::target_named(target) == Ok::<Target, EgressError>(t),
        is_direct(t),
        connectors::ensured(store::mappings_in(m)->Ok_0, t) is Err,
    ensures
        store::decided(m, Decision::Allow, target, now) == (
            m,
            Err::<(), StoreError>(StoreError::Target(EgressError::NoConnectorPorts)),
        ),
{
    let steps = store::allow_steps_of(t);
    assert(steps[0] == Step::EnsureConnector(t));
    assert(store::after_step(m, steps[0], now) is Err);
}

/// A host without colons is valid where it is made of lower-case letters, digits, dots and hyphens,
/// one with colons where it is made of hexadecimal digits, dots and colons.
pub proof fn valid_hosts_are_made_of(host: Seq<char>)
    ensures
        !host.contains(':') ==> (egress::is_valid_host(host) <==> forall|i: int|
            0 <= i < host.len() ==> 'a' <= #[trigger] host[i] <= 'z' || '0' <= host[i] <= '9'
                || host[i] == '.' || host[i] == '-'),
        host.contains(':') ==> (egress::is_valid_host(host) <==> forall|i: int|
            0 <= i < host.len() ==> 'a' <= #[trigger] host[i] <= 'f' || 'A' <= host[i] <= 'F' || '0'
                <= host[i] <= '9' || host[i] == '.' || host[i] == ':'),
{
    if egress::is_valid_host(host) {
        if host.contains(':') {
            assert forall|i: int| 0 <= i < host.len() implies 'a' <= #[trigger] host[i] <= 'f'
                || 'A' <= host[i] <= 'F' || '0' <= host[i] <= '9' || host[i] == '.' || host[i]
                == ':' by {
                assert(egress::is_address_char(host[i]));
            }
        } else {
            assert forall|i: int| 0 <= i < host.len() implies 'a' <= #[trigger] host[i] <= 'z'
                || '0' <= host[i] <= '9' || host[i] == '.' || host[i] == '-' by {
                assert(egress::is_name_char(host[i]));
            }
        }
    }
}

/// The address of a connector is the name of the broker and the port.
pub proof fn connector_is_at_the_broker(port: u16)
    ensures
        connectors::endpoint_text(port) == "llm-box-broker:"@ + number::decimal(port as nat),
{
    reveal_strlit("llm-box-broker");
    reveal_strlit("llm-box-broker:");
    reveal_strlit(":");
    assert("llm-box-broker"@ + ":"@ =~= "llm-box-broker:"@);
}

} // verus!
