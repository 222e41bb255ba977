//! What the broker makes of requests: where they go, and what is passed on.
use crate::broker;
use crate::broker::{BrokerRoute, Place};
use crate::canonical;
use crate::egress;
use crate::egress::{EgressError, EgressKind, Target};
use crate::http;
use crate::http::{Field, Head, Reading, RequestError};
use crate::kinds;
use crate::number;
use crate::pieces;
use crate::proxy;
use crate::text;
use crate::text::CharClass;
use vstd::prelude::*;
use vstd::string::*;

verus! {

broadcast use vstd::string::group_string_axioms;

// ---------------------------------------------------------------------------
// Header fields
// ---------------------------------------------------------------------------

/// Whether no field has a name, in which the case of letters does not matter.
pub open spec fn no_field_named(fields: Seq<Field>, name: Seq<char>) -> bool {
    forall|i: int|
        0 <= i < fields.len() ==> text::lower((#[trigger] fields[i]).0) != text::lower(name)
}

/// The first field with a name decides, whatever the case of its letters; without one there is no
/// value.
pub proof fn first_field_decides(front: Seq<Field>, f: Field, rest: Seq<Field>, name: Seq<char>)
    requires
        no_field_named(front, name),
    ensures
        http::field_named(front, name) == None::<Seq<char>>,
        text::lower(f.0) == text::lower(name) ==> http::field_named(front + seq![f] + rest, name)
            == Some(f.1),
    decreases front.len(),
{
    let all = front + seq![f] + rest;
    if front.len() == 0 {
        assert(all[0] == f);
    } else {
        let tail = front.drop_first();
        assert forall|i: int| 0 <= i < tail.len() implies text::lower((#[trigger] tail[i]).0)
            != text::lower(name) by {
            assert(tail[i] == front[i + 1]);
        }
        first_field_decides(tail, f, rest, name);
        assert(all[0] == front[0]);
        assert(text::lower(front[0].0) != text::lower(name));
        assert(all.drop_first() =~= tail + seq![f] + rest);
    }
}

// ---------------------------------------------------------------------------
// Plain requests
// ---------------------------------------------------------------------------

/// A request for an `http` URL is split into what stands before the first slash and what follows.
proof fn url_is_split(authority: Seq<char>, remainder: Seq<char>)
    requires
        forall|i: int| 0 <= i < authority.len() ==> #[trigger] authority[i] != '/',
    ensures
        ({
            let with_path = "http://"@ + authority + "/"@ + remainder;
            let bare = "http://"@ + authority;
            &&& text::strip_prefix(with_path, "http://"@) == Some(authority + "/"@ + remainder)
            &&& text::split_once(authority + "/"@ + remainder, '/') == Some((authority, remainder))
            &&& text::strip_prefix(bare, "http://"@) == Some(authority)
            &&& text::split_once(authority, '/') == None::<(Seq<char>, Seq<char>)>
        }),
{
    reveal_strlit("http://");
    reveal_strlit("/");
    let with_path = "http://"@ + authority + "/"@ + remainder;
    let bare = "http://"@ + authority;
    let inner = authority + "/"@ + remainder;
    let n = authority.len() as int;
    assert(with_path.subrange(0, 7) =~= "http://"@);
    assert("http://"@.is_prefix_of(with_path));
    assert(with_path.skip(7) =~= inner);
    assert(bare.subrange(0, 7) =~= "http://"@);
    assert("http://"@.is_prefix_of(bare));
    assert(bare.skip(7) =~= authority);
    assert(inner[n] == '/');
    assert forall|j: int| 0 <= j < n implies inner[j] != '/' by {
        assert(inner[j] == authority[j]);
    }
    text::find_from_first(inner, '/', n);
    assert(inner.take(n) =~= authority);
    assert(inner.skip(n + 1) =~= remainder);
    text::find_is_first(authority, '/');
}

/// Where a request is for an `http` URL the path that is asked for is all of the URL behind the
/// authority: the scheme, the authority and the path together are the URL. Without a path it is the
/// root. The host that is named is the authority as it stands, and no header has a say.
pub proof fn path_is_passed_on_in_full(
    authority: Seq<char>,
    remainder: Seq<char>,
    fields: Seq<Field>,
    others: Seq<Field>,
)
    requires
        forall|i: int| 0 <= i < authority.len() ==> #[trigger] authority[i] != '/',
    ensures
        ({
            let url = "http://"@ + authority + "/"@ + remainder;
            let bare = "http://"@ + authority;
            &&& broker::http_place(url, fields) matches Ok(place) ==> {
                &&& place.path == "/"@ + remainder
                &&& "http://"@ + authority + place.path == url
                &&& authority.len() > 0 ==> place.host_header == authority
            }
            &&& broker::http_place(bare, fields) matches Ok(place) ==> {
                &&& place.path == "/"@
                &&& authority.len() > 0 ==> place.host_header == authority
            }
            &&& broker::http_target(url, fields) matches Ok((t, path, host)) ==> {
                &&& t.kind == EgressKind::Http
                &&& path == "/"@ + remainder
                &&& "http://"@ + authority + path == url
                &&& authority.len() > 0 ==> host == authority
            }
            &&& broker::http_place(url, fields) == broker::http_place(url, others)
            &&& broker::http_target(url, fields) == broker::http_target(url, others)
        }),
{
    url_is_split(authority, remainder);
    let url = "http://"@ + authority + "/"@ + remainder;
    reveal_strlit("/");
    assert("http://"@ + authority + ("/"@ + remainder) =~= url);
    assert("/"@ + Seq::<char>::empty() =~= "/"@);
}

/// A plain host with a port, as it stands before a path or in a header.
proof fn place_with_port(host: Seq<char>, port: u16)
    requires
        kinds::is_plain_host(host),
        port != 0,
    ensures
        ({
            let authority = host + seq![':'] + number::decimal(port as nat);
            &&& egress::host_and_port(authority, 80) == Ok::<(Seq<char>, u16), EgressError>(
                (host, port),
            )
            &&& forall|i: int| 0 <= i < authority.len() ==> #[trigger] authority[i] != '/'
        }),
{
    let t = Target { kind: EgressKind::Http, host, port };
    let authority = host + seq![':'] + number::decimal(port as nat);
    kinds::written_host_is_canonical(host);
    canonical::place_round_trip(t, 80);
    assert(canonical::place_text(t) =~= authority);
    canonical::authority_is_the_longest_prefix(authority);
}

/// A request for a URL goes to the host of the URL, at its port or else at port 80, and asks for
/// the path of the URL.
pub proof fn url_request_goes_to_its_host(
    host: Seq<char>,
    port: u16,
    remainder: Seq<char>,
    fields: Seq<Field>,
)
    requires
        kinds::is_plain_host(host),
        port != 0,
    ensures
        ({
            let place = host + seq![':'] + number::decimal(port as nat);
            let path = "/"@ + remainder;
            &&& broker::http_target("http://"@ + host + "/"@ + remainder, fields) == Ok::<
                (Target, Seq<char>, Seq<char>),
                EgressError,
            >((Target { kind: EgressKind::Http, host, port: 80 }, path, host))
            &&& broker::http_target("http://"@ + host, fields) == Ok::<
                (Target, Seq<char>, Seq<char>),
                EgressError,
            >((Target { kind: EgressKind::Http, host, port: 80 }, "/"@, host))
            &&& broker::http_target("http://"@ + place + "/"@ + remainder, fields) == Ok::<
                (Target, Seq<char>, Seq<char>),
                EgressError,
            >((Target { kind: EgressKind::Http, host, port }, path, place))
            &&& broker::http_place("http://"@ + host + "/"@ + remainder, fields) == Ok::<
                Place,
                EgressError,
            >((Place { host, port: 80, path, host_header: host }))
            &&& broker::http_place("http://"@ + place + "/"@ + remainder, fields) == Ok::<
                Place,
                EgressError,
            >((Place { host, port, path, host_header: place }))
        }),
{
    let place = host + seq![':'] + number::decimal(port as nat);
    kinds::written_host_is_canonical(host);
    canonical::canonical_host_is_fixed(host);
    kinds::bare_host(host, 80);
    place_with_port(host, port);
    assert forall|i: int| 0 <= i < host.len() implies #[trigger] host[i] != '/' by {}
    url_is_split(host, remainder);
    url_is_split(place, remainder);
    reveal_strlit("/");
    assert("/"@ + Seq::<char>::empty() =~= "/"@);
}

/// A request for a path goes to the host that the first host field names, at its port or else at
/// port 80, and asks for that path, or for the root where it is empty. The host is named without
/// the port where that is 80.
pub proof fn path_request_goes_to_the_named_host(
    target: Seq<char>,
    front: Seq<Field>,
    name: Seq<char>,
    rest: Seq<Field>,
    host: Seq<char>,
    port: u16,
)
    requires
        !"http://"@.is_prefix_of(target),
        no_field_named(front, "host"@),
        text::lower(name) == "host"@,
        kinds::is_plain_host(host),
        port != 0,
    ensures
        ({
            let place = host + seq![':'] + number::decimal(port as nat);
            let path = if target.len() == 0 {
                "/"@
            } else {
                target
            };
            &&& broker::http_place(target, front + seq![(name, host)] + rest) == Ok::<
                Place,
                EgressError,
            >((Place { host, port: 80, path, host_header: host }))
            &&& broker::http_place(target, front + seq![(name, place)] + rest) == Ok::<
                Place,
                EgressError,
            >(
                (Place {
                    host,
                    port,
                    path,
                    host_header: if port == 80 {
                        host
                    } else {
                        place
                    },
                }),
            )
            &&& broker::http_target(target, front + seq![(name, place)] + rest) matches Ok(found)
                && found.0 == Target { kind: EgressKind::Http, host, port } && found.1 == path
        }),
{
    let place = host + seq![':'] + number::decimal(port as nat);
    kinds::written_host_is_canonical(host);
    canonical::canonical_host_is_fixed(host);
    kinds::bare_host(host, 80);
    place_with_port(host, port);
    reveal_strlit("host");
    assert(text::lower("host"@) =~= "host"@);
    first_field_decides(front, (name, host), rest, "host"@);
    first_field_decides(front, (name, place), rest, "host"@);
    reveal_strlit(":");
    assert(":"@ =~= seq![':']);
}

// ---------------------------------------------------------------------------
// Tunnels
// ---------------------------------------------------------------------------

/// Whether a text is no port: it is empty, or holds a character that is neither a digit nor a plus
/// sign.
pub open spec fn is_no_port(s: Seq<char>) -> bool {
    s.len() == 0 || exists|i: int|
        0 <= i < s.len() && !('0' <= #[trigger] s[i] <= '9') && s[i] != '+'
}

/// A CONNECT request names a host and a port, 443 where there is none, as an `https` target. A port
/// that is no number is refused.
pub proof fn connect_request_names_a_place(host: Seq<char>, port: u16, bad: Seq<char>)
    requires
        kinds::is_plain_host(host),
        port != 0,
        is_no_port(bad),
        forall|i: int| 0 <= i < bad.len() ==> #[trigger] bad[i] != ':',
    ensures
        ({
            let place = host + seq![':'] + number::decimal(port as nat);
            &&& broker::connect_target(place) == Ok::<Target, EgressError>(
                Target { kind: EgressKind::Https, host, port },
            )
            &&& broker::connect_target(host) == Ok::<Target, EgressError>(
                Target { kind: EgressKind::Https, host, port: 443 },
            )
            &&& broker::connect_target(host + seq![':'] + bad) == Err::<Target, EgressError>(
                EgressError::InvalidConnectPort,
            )
            &&& proxy::connect_place(place) == Ok::<(Seq<char>, u16), EgressError>((host, port))
            &&& proxy::connect_place(host) == Ok::<(Seq<char>, u16), EgressError>((host, 443))
            &&& proxy::connect_place(host + seq![':'] + bad) == Err::<
                (Seq<char>, u16),
                EgressError,
            >(EgressError::InvalidConnectPort)
        }),
{
    let d = number::decimal(port as nat);
    let place = host + seq![':'] + d;
    kinds::written_host_is_canonical(host);
    canonical::canonical_host_is_fixed(host);
    number::decimal_is_digits(port as nat);
    number::number_round_trip(port as nat);
    assert forall|i: int| 0 <= i < d.len() implies #[trigger] d[i] != ':' by {
        assert(text::is_digit(d[i]));
    }
    split_at_colon(host, d);
    split_at_colon(host, bad);
    text::rfind_is_last(host, ':');
    assert(number::parse_number(bad) is None) by {
        if bad.len() > 0 {
            let i = choose|i: int|
                0 <= i < bad.len() && !('0' <= #[trigger] bad[i] <= '9') && bad[i] != '+';
            if bad[0] == '+' {
                assert(bad.drop_first()[i - 1] == bad[i]);
            } else {
                assert(!text::is_digit(bad[i]));
            }
        }
    }
}

/// The last colon is the one before a text without colons.
proof fn split_at_colon(host: Seq<char>, port: Seq<char>)
    requires
        forall|i: int| 0 <= i < port.len() ==> #[trigger] port[i] != ':',
    ensures
        text::rsplit_once(host + seq![':'] + port, ':') == Some((host, port)),
{
    let s = host + seq![':'] + port;
    let n = host.len() as int;
    assert(s[n] == ':');
    text::rfind_is_last(s, ':');
    let r = text::rfind(s, ':');
    if r > n {
        assert(s[r] == port[r - n - 1]);
    }
    assert(s.take(n) =~= host);
    assert(s.skip(n + 1) =~= port);
}

/// A `POST` request for `/__endpoint` asks for a connector, any other `CONNECT` request for a
/// tunnel, and all else is passed on. The case of letters does not matter in the method, but does in
/// the target.
pub proof fn request_is_routed(method: Seq<char>, target: Seq<char>)
    ensures
        broker::route_of(method, target) == BrokerRoute::ConnectorControl <==> text::lower(method)
            == "post"@ && target == "/__endpoint"@,
        broker::route_of(method, target) == BrokerRoute::Connect <==> text::lower(method)
            == "connect"@,
        text::lower(method) != "connect"@ && (text::lower(method) != "post"@ || target
            != "/__endpoint"@) ==> broker::route_of(method, target) == BrokerRoute::Plain,
{
    reveal_strlit("POST");
    reveal_strlit("post");
    reveal_strlit("CONNECT");
    reveal_strlit("connect");
    assert(text::lower("POST"@) =~= "post"@);
    assert(text::lower("CONNECT"@) =~= "connect"@);
    assert("post"@.len() == 4 && "connect"@.len() == 7);
}

/// `localhost`, `127.0.0.1` and `::1` are reached by the name under which the container reaches the
/// machine, where there is one. Every other host is reached as it is.
pub proof fn only_this_machine_has_another_name(host: Seq<char>, alias: Seq<char>)
    ensures
        broker::upstream_host_of(host, None) == host,
        host != "localhost"@ && host != "127.0.0.1"@ && host != "::1"@
            ==> broker::upstream_host_of(host, Some(alias)) == host,
        host == "localhost"@ || host == "127.0.0.1"@ || host == "::1"@
            ==> broker::upstream_host_of(host, Some(alias)) == alias,
{
}

// ---------------------------------------------------------------------------
// What is passed on
// ---------------------------------------------------------------------------

/// The names between the commas of a value are the name before the first comma and those of the
/// rest, without white space round them and in lower case.
pub proof fn tokens_stand_between_commas(head: Seq<char>, rest: Seq<char>, name: Seq<char>)
    requires
        forall|i: int| 0 <= i < head.len() ==> #[trigger] head[i] != ',',
    ensures
        http::is_token_of(head, name) <==> name.len() > 0 && name == text::lower(text::trim(head)),
        http::is_token_of(head + seq![','] + rest, name) <==> name.len() > 0 && (name
            == text::lower(text::trim(head)) || http::is_token_of(rest, name)),
{
    pieces::pieces_stand_between_separators(head, rest, ',');
    let one = pieces::split(head, ',');
    assert(one[0] == head);
    let all = pieces::split(head + seq![','] + rest, ',');
    let others = pieces::split(rest, ',');
    assert(all[0] == head);
    assert forall|i: int| 0 <= i < others.len() implies #[trigger] others[i] == all[i + 1] by {}
    if http::is_token_of(head + seq![','] + rest, name) {
        let i = choose|i: int|
            0 <= i < all.len() && name == text::lower(text::trim(#[trigger] all[i]));
        if i > 0 {
            assert(others[i - 1] == all[i]);
        }
    }
    if http::is_token_of(rest, name) {
        let i = choose|i: int|
            0 <= i < others.len() && name == text::lower(text::trim(#[trigger] others[i]));
        assert(all[i + 1] == others[i]);
    }
}

/// Whether a name, in lower case, is one of those of fields that concern one connection only.
pub open spec fn concerns_one_connection(name: Seq<char>) -> bool {
    name == "connection"@ || name == "keep-alive"@ || name == "proxy-authenticate"@ || name
        == "proxy-authorization"@ || name == "proxy-connection"@ || name == "te"@ || name
        == "trailer"@ || name == "transfer-encoding"@ || name == "upgrade"@
}

/// A field of a request is passed on unless its name is `host`, one of those that concern one
/// connection only, or named by the first connection field; nothing else is passed on.
pub proof fn fields_are_passed_on(fields: Seq<Field>, f: Field)
    ensures
        http::forwarded(fields).contains(f) <==> {
            &&& fields.contains(f)
            &&& text::lower(f.0) != "host"@
            &&& !concerns_one_connection(text::lower(f.0))
            &&& http::field_named(fields, "connection"@) matches Some(value)
                ==> !http::is_token_of(value, text::lower(f.0))
        },
{
    let name = text::lower(f.0);
    assert(http::is_listed(name) <==> concerns_one_connection(name)) by {
        let list = http::HOP_BY_HOP_HEADERS@;
        assert(list[0]@ == "connection"@ && list[1]@ == "keep-alive"@ && list[2]@
            == "proxy-authenticate"@ && list[3]@ == "proxy-authorization"@ && list[4]@
            == "proxy-connection"@ && list[5]@ == "te"@ && list[6]@ == "trailer"@ && list[7]@
            == "transfer-encoding"@ && list[8]@ == "upgrade"@);
        assert(list.len() == 9);
    }
    if http::forwarded(fields).contains(f) {
        http::hop_by_hop_fields_stay_behind(fields, f);
    } else if fields.contains(f) && name != "host"@ && !http::is_hop_by_hop(fields, name) {
        http::other_fields_are_passed_on(fields, f);
    }
}

/// One more field with another name leaves the value of a field as it is.
proof fn other_field_has_no_say(fields: Seq<Field>, f: Field, name: Seq<char>)
    requires
        text::lower(f.0) != text::lower(name),
    ensures
        http::field_named(fields.push(f), name) == http::field_named(fields, name),
    decreases fields.len(),
{
    let all = fields.push(f);
    if fields.len() == 0 {
        assert(all[0] == f);
        assert(all.drop_first() =~= fields);
    } else {
        assert(all[0] == fields[0]);
        assert(all.drop_first() =~= fields.drop_first().push(f));
        other_field_has_no_say(fields.drop_first(), f, name);
    }
}

/// Fields are passed on in order and as often as they stand there: one more field behind others is
/// passed on behind what is passed on of those, unless it concerns one connection only or names the
/// host. Of no fields none is passed on.
pub proof fn fields_are_passed_on_in_order(fields: Seq<Field>, f: Field)
    requires
        text::lower(f.0) != "connection"@,
    ensures
        http::forwarded(Seq::<Field>::empty()) == Seq::<Field>::empty(),
        http::forwarded(fields.push(f)) == (if text::lower(f.0) == "host"@
            || concerns_one_connection(text::lower(f.0)) || (http::field_named(
            fields,
            "connection"@,
        ) is Some && http::is_token_of(
            http::field_named(fields, "connection"@)->Some_0,
            text::lower(f.0),
        )) {
            http::forwarded(fields)
        } else {
            http::forwarded(fields).push(f)
        }),
{
    let all = fields.push(f);
    reveal_strlit("connection");
    assert(text::lower("connection"@) =~= "connection"@);
    other_field_has_no_say(fields, f, "connection"@);
    let keep = |g: Field| http::is_forwarded(fields, g);
    let keep_all = |g: Field| http::is_forwarded(all, g);
    assert forall|g: Field| #[trigger] keep(g) == keep_all(g) by {
        assert(http::is_hop_by_hop(all, text::lower(g.0)) == http::is_hop_by_hop(
            fields,
            text::lower(g.0),
        ));
    }
    assert(keep =~= keep_all);
    reveal(Seq::filter);
    assert(all.drop_last() =~= fields);
    assert(all.last() == f);
    fields_are_passed_on(all, f);
    assert(all[fields.len() as int] == f);
    assert(http::forwarded(Seq::<Field>::empty()) =~= Seq::<Field>::empty());
    let passed = http::is_forwarded(all, f);
    assert(passed ==> http::forwarded(all) =~= http::forwarded(fields).push(f));
    if passed {
        assert(http::forwarded(all)[http::forwarded(fields).len() as int] == f);
        assert(http::forwarded(all).contains(f));
    } else if http::forwarded(all).contains(f) {
        http::hop_by_hop_fields_stay_behind(all, f);
    }
}

/// Fields stand in a message one behind the other, each with a colon and a space between its name
/// and its value and a line break at its end.
pub proof fn fields_are_written_line_by_line(front: Seq<Field>, f: Field, rest: Seq<Field>)
    ensures
        http::fields_text(Seq::<Field>::empty()) == Seq::<char>::empty(),
        http::fields_text(front + seq![f] + rest) == http::fields_text(front) + (f.0 + ": "@ + f.1
            + "\r\n"@) + http::fields_text(rest),
    decreases rest.len(),
{
    let all = front + seq![f] + rest;
    if rest.len() == 0 {
        assert(all =~= front.push(f));
        assert(all.drop_last() =~= front);
        assert(http::fields_text(all) =~= http::fields_text(front) + (f.0 + ": "@ + f.1
            + "\r\n"@) + http::fields_text(rest));
    } else {
        let inner = rest.drop_last();
        fields_are_written_line_by_line(front, f, inner);
        assert(all.drop_last() =~= front + seq![f] + inner);
        assert(all.last() == rest.last());
        assert(http::fields_text(all) =~= http::fields_text(front) + (f.0 + ": "@ + f.1
            + "\r\n"@) + http::fields_text(rest));
    }
}

/// The head that is passed on starts with the method, the path and the version, and ends with the
/// host and the end of the connection; between them stand the fields that are passed on.
pub proof fn head_is_passed_on(
    method: Seq<char>,
    path: Seq<char>,
    version: Seq<char>,
    fields: Seq<Field>,
    host: Seq<char>,
)
    ensures
        ({
            let all = http::upstream_text(method, path, version, fields, host);
            let front = method + " "@ + path + " "@ + version + "\r\n"@;
            let back = "Host: "@ + host + "\r\nConnection: close\r\n\r\n"@;
            let lines = http::fields_text(http::forwarded(fields));
            &&& all.len() == front.len() + lines.len() + back.len()
            &&& all.take(front.len() as int) == front
            &&& all.subrange(front.len() as int, (front.len() + lines.len()) as int) == lines
            &&& all.skip((front.len() + lines.len()) as int) == back
        }),
{
    let all = http::upstream_text(method, path, version, fields, host);
    let front = method + " "@ + path + " "@ + version + "\r\n"@;
    let back = "Host: "@ + host + "\r\nConnection: close\r\n\r\n"@;
    let lines = http::fields_text(http::forwarded(fields));
    assert(all =~= front + lines + back);
    assert(all.take(front.len() as int) =~= front);
    assert(all.subrange(front.len() as int, (front.len() + lines.len()) as int) =~= lines);
    assert(all.skip((front.len() + lines.len()) as int) =~= back);
}

// ---------------------------------------------------------------------------
// Reading
// ---------------------------------------------------------------------------

/// Whether a text is one word: not empty, and without white space.
pub open spec fn is_word(s: Seq<char>) -> bool {
    s.len() > 0 && forall|i: int| 0 <= i < s.len() ==> !text::is_white_space(#[trigger] s[i])
}

/// Whether a text neither starts nor ends with white space.
pub open spec fn is_trimmed(s: Seq<char>) -> bool {
    s.len() == 0 || (!text::is_white_space(s[0]) && !text::is_white_space(s[s.len() - 1]))
}

/// The characters that end a line are cut off.
pub proof fn line_end_is_cut(s: Seq<char>)
    requires
        s.len() == 0 || (s[s.len() - 1] != '\r' && s[s.len() - 1] != '\n'),
    ensures
        http::line_body(s + "\r\n"@) == s,
{
    reveal_strlit("\r\n");
    let line = s + "\r\n"@;
    let class = CharClass::LineBreak;
    assert(line.last() == '\n');
    assert(line.drop_last().last() == '\r');
    assert(line.drop_last().drop_last() =~= s);
    assert(text::trim_end_of(line.drop_last(), class) == text::trim_end_of(s, class));
}

/// The words of a text of three words, and of two.
pub proof fn words_are_separated(first: Seq<char>, second: Seq<char>, third: Seq<char>)
    requires
        is_word(first),
        is_word(second),
        is_word(third),
    ensures
        pieces::words(first + " "@ + second) == seq![first, second],
        pieces::words(first + " "@ + second + " "@ + third) == seq![first, second, third],
{
    reveal_strlit(" ");
    assert(" "@ =~= seq![' ']);
    let none = Seq::<char>::empty();
    pieces::words_stand_between_white_space(third, ' ', none);
    pieces::words_stand_between_white_space(second, ' ', third);
    pieces::words_stand_between_white_space(first, ' ', second);
    pieces::words_stand_between_white_space(first, ' ', second + seq![' '] + third);
    assert(first + " "@ + second + " "@ + third =~= first + seq![' '] + (second + seq![' ']
        + third));
    assert(pieces::words(first + " "@ + second) =~= seq![first, second]);
    assert(pieces::words(first + " "@ + second + " "@ + third) =~= seq![first, second, third]);
}

/// A request line holds the method, the target and the version, which is `HTTP/1.1` where it is
/// left out. Where lines are limited one of more than 8192 bytes is refused.
pub proof fn request_line_is_read(
    method: Seq<char>,
    target: Seq<char>,
    version: Seq<char>,
    limited: bool,
)
    requires
        is_word(method),
        is_word(target),
        is_word(version),
    ensures
        ({
            let line = method + " "@ + target + " "@ + version + "\r\n"@;
            let short = method + " "@ + target + "\r\n"@;
            &&& !limited || http::byte_len(line) <= 8192 ==> http::started_head(line, limited)
                == Ok::<Head, RequestError>(
                (Head { method, target, version, fields: Seq::empty() }),
            )
            &&& !limited || http::byte_len(short) <= 8192 ==> http::started_head(short, limited)
                == Ok::<Head, RequestError>(
                (Head { method, target, version: "HTTP/1.1"@, fields: Seq::empty() }),
            )
            &&& limited && http::byte_len(line) > 8192 ==> http::started_head(line, limited)
                == Err::<Head, RequestError>(RequestError::RequestLineTooLong)
        }),
{
    let full = method + " "@ + target + " "@ + version;
    let part = method + " "@ + target;
    words_are_separated(method, target, version);
    assert(full.last() == version.last());
    assert(part.last() == target.last());
    assert(!text::is_white_space(version[version.len() - 1]));
    assert(!text::is_white_space(target[target.len() - 1]));
    line_end_is_cut(full);
    line_end_is_cut(part);
    let line = full + "\r\n"@;
    let short = part + "\r\n"@;
    assert(line =~= method + " "@ + target + " "@ + version + "\r\n"@);
    assert(line[0] == method[0] && short[0] == method[0]);
    let space = CharClass::WhiteSpace;
    assert(text::trim_start_of(line, space) == line);
    assert(text::trim_start_of(short, space) == short);
    canonical::trim_end_keeps_start(line, space);
    canonical::trim_end_keeps_start(short, space);
}

/// A header line holds a name, a colon and a value, which may itself hold colons, and adds them as
/// a field behind the others. Where lines are limited one of more than 8192 bytes is refused, and so
/// is one with which all are more than 65536 bytes.
pub proof fn header_line_is_read(
    head: Head,
    header_bytes: nat,
    name: Seq<char>,
    value: Seq<char>,
    limited: bool,
)
    requires
        name.len() > 0,
        is_trimmed(name),
        is_trimmed(value),
        forall|i: int| 0 <= i < name.len() ==> #[trigger] name[i] != ':',
    ensures
        ({
            let line = name + ": "@ + value + "\r\n"@;
            let fits = http::byte_len(line) <= 8192 && header_bytes + http::byte_len(line) <= 65536;
            &&& !limited || fits ==> http::extended_head(head, header_bytes, line, limited) == Ok::<
                (Head, bool),
                RequestError,
            >((Head { fields: head.fields.push((name, value)), ..head }, false))
            &&& limited && http::byte_len(line) > 8192 ==> http::extended_head(
                head,
                header_bytes,
                line,
                limited,
            ) == Err::<(Head, bool), RequestError>(RequestError::HeaderLineTooLong)
            &&& limited && http::byte_len(line) <= 8192 && header_bytes + http::byte_len(line)
                > 65536 ==> http::extended_head(head, header_bytes, line, limited) == Err::<
                (Head, bool),
                RequestError,
            >(RequestError::HeadersTooLarge)
        }),
{
    let body = name + ": "@ + value;
    reveal_strlit(": ");
    let n = name.len() as int;
    assert(body[n] == ':' && body[n + 1] == ' ');
    if value.len() > 0 {
        assert(body.last() == value[value.len() - 1]);
    } else {
        assert(body.last() == ' ');
    }
    line_end_is_cut(body);
    assert forall|j: int| 0 <= j < n implies body[j] != ':' by {
        assert(body[j] == name[j]);
    }
    text::find_from_first(body, ':', n);
    assert(body.take(n) =~= name);
    assert(body.skip(n + 1) =~= seq![' '] + value);
    canonical::trim_unchanged(name, CharClass::WhiteSpace);
    canonical::trim_unchanged(value, CharClass::WhiteSpace);
    let after = seq![' '] + value;
    assert(after[0] == ' ');
    assert(after.drop_first() =~= value);
    assert(text::trim(after) == text::trim(value));
    assert(body + "\r\n"@ =~= name + ": "@ + value + "\r\n"@);
}

/// A blank line ends the head. A line without a colon is refused. Where lines are limited the end of
/// the input is refused before the head has ended; else it ends the head.
pub proof fn head_ends_at_a_blank_line(head: Head, header_bytes: nat, line: Seq<char>)
    requires
        header_bytes + 2 <= 65536,
        line.len() > 0,
        forall|i: int|
            0 <= i < line.len() ==> #[trigger] line[i] != ':' && line[i] != '\r' && line[i] != '\n',
    ensures
        http::extended_head(head, header_bytes, "\r\n"@, true) == Ok::<(Head, bool), RequestError>(
            (head, true),
        ),
        http::extended_head(head, header_bytes, "\r\n"@, false) == Ok::<(Head, bool), RequestError>(
            (head, true),
        ),
        http::extended_head(head, header_bytes, Seq::<char>::empty(), true) == Err::<
            (Head, bool),
            RequestError,
        >(RequestError::UnexpectedEnd),
        http::extended_head(head, header_bytes, Seq::<char>::empty(), false) == Ok::<
            (Head, bool),
            RequestError,
        >((head, true)),
        http::extended_head(head, header_bytes, line + "\r\n"@, false) == Err::<
            (Head, bool),
            RequestError,
        >(RequestError::InvalidHeaderLine),
{
    reveal_strlit("\r\n");
    vstd::utf8::is_ascii_chars_encode_utf8("\r\n"@);
    let none = Seq::<char>::empty();
    line_end_is_cut(none);
    assert(none + "\r\n"@ =~= "\r\n"@);
    line_end_is_cut(line);
    text::find_is_first(line, ':');
}

/// Lines are read one after the other, and none behind the end of the head: what is read of lines
/// is what is read of the first ones and then of the rest.
pub proof fn lines_are_read_in_turn(r: Reading, first: Seq<Seq<char>>, rest: Seq<Seq<char>>)
    ensures
        http::after_lines(r, first + rest) == (match http::after_lines(r, first) {
            Ok(next) => http::after_lines(next, rest),
            Err(e) => Err(e),
        }),
        r.done ==> http::after_lines(r, rest) == Ok::<Reading, RequestError>(r),
        r.head is Some && r.done ==> forall|line: Seq<char>| #[trigger]
            http::after_line(r, line) == Ok::<Reading, RequestError>(r),
    decreases first.len(),
{
    if first.len() == 0 {
        assert(first + rest =~= rest);
    } else if !r.done {
        assert((first + rest)[0] == first[0]);
        assert((first + rest).drop_first() =~= first.drop_first() + rest);
        match http::after_line(r, first[0]) {
            Ok(next) => lines_are_read_in_turn(next, first.drop_first(), rest),
            Err(_) => {},
        }
    }
}

/// The length of a body is the number that the first field for it holds, and 0 where there is none.
pub proof fn body_length_is_read(front: Seq<Field>, name: Seq<char>, rest: Seq<Field>, length: nat)
    requires
        no_field_named(front, "content-length"@),
        text::lower(name) == "content-length"@,
        length <= usize::MAX,
    ensures
        http::content_length(front) == 0,
        http::content_length(front + seq![(name, number::decimal(length))] + rest) == length,
{
    reveal_strlit("content-length");
    assert(text::lower("content-length"@) =~= "content-length"@);
    first_field_decides(front, (name, number::decimal(length)), rest, "content-length"@);
    number::number_round_trip(length);
}

// ---------------------------------------------------------------------------
// Answers
// ---------------------------------------------------------------------------

/// A refusal says its status and reason, that it is plain text, how many bytes its body has, and
/// that the connection ends; the body is the message on a line.
pub proof fn refusal_is_written_out(status: u16, reason: Seq<char>, message: Seq<char>)
    ensures
        http::error_response_text(status, reason, message) == "HTTP/1.1 "@ + number::decimal(
            status as nat,
        ) + " "@ + reason + "\r\nContent-Type: text/plain; charset=utf-8\r\nContent-Length: "@
            + number::decimal(vstd::utf8::encode_utf8(message.push('\n')).len())
            + "\r\nConnection: close\r\n\r\n"@ + message.push('\n'),
{
    reveal_strlit("\r\n");
    reveal_strlit("Content-Type: ");
    reveal_strlit("text/plain; charset=utf-8");
    reveal_strlit("Content-Length: ");
    reveal_strlit("\r\nContent-Type: text/plain; charset=utf-8\r\nContent-Length: ");
    assert("\r\n"@ + "Content-Type: "@ + "text/plain; charset=utf-8"@ + "\r\n"@
        + "Content-Length: "@
        =~= "\r\nContent-Type: text/plain; charset=utf-8\r\nContent-Length: "@);
    let body = message.push('\n');
    let front = "HTTP/1.1 "@ + number::decimal(status as nat) + " "@ + reason;
    let middle = "\r\n"@ + "Content-Type: "@ + "text/plain; charset=utf-8"@ + "\r\n"@
        + "Content-Length: "@;
    let back = number::decimal(http::byte_len(body)) + "\r\nConnection: close\r\n\r\n"@ + body;
    assert(http::error_response_text(status, reason, message) =~= front + middle + back);
}

/// A request for a target that is not approved is answered with 403 and the text of the target.
pub proof fn unapproved_target_is_named_in_the_answer(key: Seq<char>)
    ensures
        broker::forbidden_text(key) == http::error_response_text(
            403,
            "Forbidden"@,
            key + " is not approved"@,
        ),
        "HTTP/1.1 403 Forbidden\r\n"@.is_prefix_of(broker::forbidden_text(key)),
{
    refusal_is_written_out(403, "Forbidden"@, key + " is not approved"@);
    let all = broker::forbidden_text(key);
    reveal_strlit("HTTP/1.1 ");
    reveal_strlit(" ");
    reveal_strlit("Forbidden");
    reveal_strlit("HTTP/1.1 403 Forbidden\r\n");
    reveal_strlit("\r\nContent-Type: text/plain; charset=utf-8\r\nContent-Length: ");
    reveal_with_fuel(number::decimal, 4);
    assert(number::decimal(403) =~= seq!['4', '0', '3']);
    assert(all.subrange(0, 24) =~= "HTTP/1.1 403 Forbidden\r\n"@);
}

/// A request line without a target is refused, and so is one of white space alone.
pub proof fn short_request_line_is_refused(method: Seq<char>)
    requires
        is_word(method),
    ensures
        http::started_head(method + "\r\n"@, false) == Err::<Head, RequestError>(
            RequestError::MissingTarget,
        ),
        http::started_head("\r\n"@, false) == Err::<Head, RequestError>(
            RequestError::EmptyRequestLine,
        ),
        http::started_head("\r\n"@, true) == Err::<Head, RequestError>(
            RequestError::EmptyRequestLine,
        ),
        http::started_head(Seq::<char>::empty(), true) == Err::<Head, RequestError>(
            RequestError::EmptyRequestLine,
        ),
{
    reveal_strlit("\r\n");
    let line = method + "\r\n"@;
    assert(!text::is_white_space(method[method.len() - 1]));
    line_end_is_cut(method);
    pieces::words_stand_between_white_space(method, ' ', method);
    assert(line[0] == method[0]);
    assert(text::trim_start_of(line, CharClass::WhiteSpace) == line);
    canonical::trim_end_keeps_start(line, CharClass::WhiteSpace);
    let none = Seq::<char>::empty();
    kinds::space_is_trimmed("\r\n"@, none, none);
    assert("\r\n"@ + none + none =~= "\r\n"@);
    assert(text::trim(none) =~= none);
}

/// A length that is no number counts as none.
pub proof fn unreadable_length_counts_as_none(
    front: Seq<Field>,
    name: Seq<char>,
    rest: Seq<Field>,
    value: Seq<char>,
)
    requires
        no_field_named(front, "content-length"@),
        text::lower(name) == "content-length"@,
        is_no_port(value),
    ensures
        http::content_length(front + seq![(name, value)] + rest) == 0,
{
    reveal_strlit("content-length");
    assert(text::lower("content-length"@) =~= "content-length"@);
    first_field_decides(front, (name, value), rest, "content-length"@);
    number::numbers_are_read_from_digits(0, value, usize::MAX as nat);
}

/// A host is named with its port, unless that is the default.
pub proof fn default_port_is_not_named(host: Seq<char>, port: u16, default_port: u16)
    ensures
        broker::host_header_text(host, port, port) == host,
        port != default_port ==> broker::host_header_text(host, port, default_port) == host + seq![
            ':',
        ] + number::decimal(port as nat),
{
    reveal_strlit(":");
    assert(":"@ =~= seq![':']);
}

/// A reader starts with nothing read.
pub proof fn reading_starts_empty(limited: bool)
    ensures
        http::new_reading(limited).head is None,
        http::new_reading(limited).limited == limited,
        http::new_reading(limited).header_bytes == 0,
        !http::new_reading(limited).done,
{
}

} // verus!
