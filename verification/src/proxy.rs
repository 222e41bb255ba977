//! The web proxy: a proxy that goes by approved hosts alone, whatever the port.
use crate::broker;
use crate::broker::TunnelTable;
use crate::connectors;
use crate::egress;
use crate::egress::EgressError;
use crate::http;
use crate::number;
use crate::pieces;
use crate::text;
use vstd::prelude::*;
use vstd::string::*;

verus! {

broadcast use vstd::string::group_string_axioms;

/// The host and port of a CONNECT request.
pub open spec fn connect_place(target: Seq<char>) -> Result<(Seq<char>, u16), EgressError> {
    match text::rsplit_once(target, ':') {
        Some((host, port)) => match egress::normalized_host(host) {
            Err(e) => Err(e),
            Ok(host) => match number::parse_up_to(port, u16::MAX as nat) {
                Some(port) => Ok((host, port as u16)),
                None => Err(EgressError::InvalidConnectPort),
            },
        },
        None => egress::with_port(egress::normalized_host(target), 443),
    }
}

/// Reads the host and port of a CONNECT request.
pub fn parse_connect_target(target: &str) -> (r: Result<(String, u16), EgressError>)
    ensures
        egress::host_port_result(r) == connect_place(target@),
{
    match text::split_at_last(target, ':') {
        Some((host, port)) => match egress::normalize_host(host) {
            Err(e) => Err(e),
            Ok(host) => match number::read_port(port) {
                Some(port) => Ok((host, port)),
                None => Err(EgressError::InvalidConnectPort),
            },
        },
        None => match egress::normalize_host(target) {
            Err(e) => Err(e),
            Ok(host) => Ok((host, 443)),
        },
    }
}

/// The host and the port that `value` names, where `default_port` stands for a missing port.
pub open spec fn host_and_default_port(value: Seq<char>, default_port: u16) -> Result<
    (Seq<char>, u16),
    EgressError,
> {
    match egress::host_and_port(value, default_port) {
        Err(EgressError::PortRequired) => egress::with_port(
            egress::normalized_host(text::trim(value)),
            default_port,
        ),
        r => r,
    }
}

/// Reads a host with an optional port.
pub fn split_host_port(value: &str, default_port: u16) -> (r: Result<(String, u16), EgressError>)
    ensures
        egress::host_port_result(r) == host_and_default_port(value@, default_port),
{
    match egress::split_host_port(value, default_port) {
        Err(EgressError::PortRequired) => match egress::normalize_host(text::trimmed(value)) {
            Ok(host) => Ok((host, default_port)),
            Err(e) => Err(e),
        },
        r => r,
    }
}

/// Finds where a plain request goes.
pub fn parse_http_target(target: &str, headers: &Vec<(String, String)>) -> (r: Result<
    (String, u16, String, String),
    EgressError,
>)
    ensures
        broker::place_result(r) == broker::http_place(target@, http::fields_of(headers@)),
{
    broker::find_http_place(target, headers)
}

/// The hosts that lines of text name, one on each line that is not blank. The first line that names
/// none decides the error.
pub open spec fn hosts_on_lines(lines: Seq<Seq<char>>) -> Result<Seq<Seq<char>>, EgressError>
    decreases lines.len(),
{
    if lines.len() == 0 {
        Ok(Seq::empty())
    } else {
        match hosts_on_lines(lines.drop_last()) {
            Err(e) => Err(e),
            Ok(earlier) => if text::trim(lines.last()).len() == 0 {
                Ok(earlier)
            } else {
                match egress::normalized_host(lines.last()) {
                    Err(e) => Err(e),
                    Ok(host) => Ok(earlier.push(host)),
                }
            },
        }
    }
}

/// The hosts that the proxy lets through; there are none without a file.
pub open spec fn approved_hosts(contents: Option<Seq<char>>) -> Result<
    Seq<Seq<char>>,
    EgressError,
> {
    match contents {
        None => Ok(Seq::empty()),
        Some(contents) => hosts_on_lines(pieces::lines(contents)),
    }
}

/// An error on a line is the error of every longer list of lines.
proof fn first_error_decides(lines: Seq<Seq<char>>, n: int)
    requires
        0 <= n <= lines.len(),
        hosts_on_lines(lines.take(n)) is Err,
    ensures
        hosts_on_lines(lines) == hosts_on_lines(lines.take(n)),
    decreases lines.len() - n,
{
    if n == lines.len() {
        assert(lines.take(n) =~= lines);
    } else {
        assert(lines.take(n + 1).drop_last() =~= lines.take(n));
        first_error_decides(lines, n + 1);
    }
}

/// A blocked attempt, as the log of the proxy holds it.
#[derive(Debug)]
pub struct HostLogEntry {
    pub timestamp: String,
    pub host: String,
    pub port: Option<u16>,
}

/// What the proxy goes by.
#[derive(Debug)]
pub struct ProxyState {
    /// The contents of the file of approved hosts, where there is one.
    pub allowed: Option<String>,
    pub tunnels: TunnelTable,
}

impl ProxyState {
    /// Reads the approved hosts.
    pub fn allowed_hosts(&self) -> (r: Result<Vec<String>, EgressError>)
        ensures
            match r {
                Ok(list) => approved_hosts(connectors::opt_text(self.allowed)) == Ok::<
                    Seq<Seq<char>>,
                    EgressError,
                >(pieces::texts(list@)),
                Err(e) => approved_hosts(connectors::opt_text(self.allowed)) == Err::<
                    Seq<Seq<char>>,
                    EgressError,
                >(e),
            },
    {
        let mut hosts: Vec<String> = Vec::new();
        assert(pieces::texts(hosts@) =~= Seq::<Seq<char>>::empty());
        let contents = match &self.allowed {
            None => return Ok(hosts),
            Some(contents) => contents,
        };
        let list = pieces::line_list(contents.as_str());
        let ghost ls = pieces::lines(contents@);
        let mut i: usize = 0;
        assert(ls.take(0) =~= Seq::<Seq<char>>::empty());
        while i < list.len()
            invariant
                pieces::texts(list@) == ls,
                ls == pieces::lines(contents@),
                approved_hosts(connectors::opt_text(self.allowed)) == hosts_on_lines(ls),
                i <= list.len(),
                hosts_on_lines(ls.take(i as int)) == Ok::<Seq<Seq<char>>, EgressError>(
                    pieces::texts(hosts@),
                ),
            decreases list.len() - i,
        {
            proof {
                assert(ls[i as int] == list@[i as int]@);
                assert(ls.take(i + 1).drop_last() =~= ls.take(i as int));
                assert(ls.take(i + 1).last() == ls[i as int]);
            }
            if !text::trimmed(list[i].as_str()).is_empty() {
                match egress::normalize_host(list[i].as_str()) {
                    Ok(host) => {
                        let ghost before = hosts@;
                        hosts.push(host);
                        proof {
                            pieces::texts_push(before, host);
                        }
                    },
                    Err(e) => {
                        proof {
                            first_error_decides(ls, i + 1);
                        }
                        return Err(e);
                    },
                }
            }
            i = i + 1;
        }
        assert(ls.take(i as int) =~= ls);
        Ok(hosts)
    }

    /// Tests whether the proxy lets requests for a host through.
    pub fn is_allowed(&self, host: &str) -> (r: Result<bool, EgressError>)
        ensures
            r == (match approved_hosts(connectors::opt_text(self.allowed)) {
                Err(e) => Err(e),
                Ok(hosts) => match egress::normalized_host(host@) {
                    Err(e) => Err(e),
                    Ok(host) => Ok::<bool, EgressError>(hosts.contains(host)),
                },
            }),
    {
        let hosts = match self.allowed_hosts() {
            Ok(hosts) => hosts,
            Err(e) => return Err(e),
        };
        match egress::normalize_host(host) {
            Err(e) => Err(e),
            Ok(host) => Ok(pieces::holds_text(&hosts, &host)),
        }
    }

    /// Makes the log entry for a request that was blocked.
    pub fn log_blocked(&self, host: &str, port: Option<u16>, now_secs: u64) -> (r: Result<
        HostLogEntry,
        EgressError,
    >)
        ensures
            match egress::normalized_host(host@) {
                Err(e) => r == Err::<HostLogEntry, EgressError>(e),
                Ok(name) => r is Ok && r->Ok_0.host@ == name && r->Ok_0.port == port
                    && r->Ok_0.timestamp@ == number::decimal(now_secs as nat),
            },
    {
        match egress::normalize_host(host) {
            Err(e) => Err(e),
            Ok(host) => Ok(HostLogEntry { timestamp: number::decimal_of(now_secs), host, port }),
        }
    }

    /// Adds a tunnel and gives it a number. A number is used up even where the host is refused.
    pub fn register_tunnel(&mut self, host: &str) -> (r: Result<u64, EgressError>)
        ensures
            final(self).allowed == old(self).allowed,
            final(self).tunnels.next_id == old(self).tunnels.next_id.wrapping_add(1),
            match egress::normalized_host(host@) {
                Err(e) => r == Err::<u64, EgressError>(e) && final(self).tunnels.open == old(
                    self,
                ).tunnels.open,
                Ok(name) => r == Ok::<u64, EgressError>(old(self).tunnels.next_id)
                    && broker::tunnels_of(final(self).tunnels.open@) == broker::tunnels_of(
                    old(self).tunnels.open@,
                ).push((name, old(self).tunnels.next_id)),
            },
    {
        match egress::normalize_host(host) {
            Err(e) => {
                self.tunnels.next_id = self.tunnels.next_id.wrapping_add(1);
                Err(e)
            },
            Ok(name) => Ok(self.tunnels.register_tunnel(name.as_str())),
        }
    }

    /// Removes a tunnel.
    pub fn unregister_tunnel(&mut self, host: &str, id: u64) -> (r: Result<(), EgressError>)
        ensures
            final(self).allowed == old(self).allowed,
            final(self).tunnels.next_id == old(self).tunnels.next_id,
            match egress::normalized_host(host@) {
                Err(e) => r == Err::<(), EgressError>(e) && final(self).tunnels == old(
                    self,
                ).tunnels,
                Ok(name) => r == Ok::<(), EgressError>(()) && broker::tunnels_of(
                    final(self).tunnels.open@,
                ) == broker::tunnels_of(old(self).tunnels.open@).filter(
                    |t: (Seq<char>, u64)| t != (name, id),
                ),
            },
    {
        match egress::normalize_host(host) {
            Err(e) => Err(e),
            Ok(name) => {
                self.tunnels.unregister_tunnel(name.as_str(), id);
                Ok(())
            },
        }
    }

    /// Removes the tunnels to hosts that are not approved, and lists their numbers.
    pub fn close_disallowed_tunnels(&mut self, allowed_hosts: &Vec<String>) -> (r: Vec<u64>)
        ensures
            final(self).allowed == old(self).allowed,
            final(self).tunnels.next_id == old(self).tunnels.next_id,
            broker::tunnels_of(final(self).tunnels.open@) == broker::tunnels_of(
                old(self).tunnels.open@,
            ).filter(|t: (Seq<char>, u64)| pieces::texts(allowed_hosts@).contains(t.0)),
            r@ == broker::tunnels_of(old(self).tunnels.open@).filter(
                |t: (Seq<char>, u64)| !pieces::texts(allowed_hosts@).contains(t.0),
            ).map_values(|t: (Seq<char>, u64)| t.1),
    {
        self.tunnels.close_disallowed_tunnels(allowed_hosts)
    }
}

// ---------------------------------------------------------------------------
// Laws
// ---------------------------------------------------------------------------

/// The lines of a file of hosts name its hosts: a host is approved just where a line that is not
/// blank names it, and the file cannot be read just where such a line names none. Without a file no
/// host is approved.
pub proof fn lines_name_the_hosts(contents: Seq<char>, host: Seq<char>)
    ensures
        approved_hosts(None) == Ok::<Seq<Seq<char>>, EgressError>(Seq::empty()),
        ({
            let lines = pieces::lines(contents);
            &&& approved_hosts(Some(contents)) is Err <==> exists|i: int|
                0 <= i < lines.len() && text::trim(#[trigger] lines[i]).len() > 0
                    && egress::normalized_host(lines[i]) is Err
            &&& approved_hosts(Some(contents)) matches Ok(hosts) ==> (hosts.contains(host)
                <==> exists|i: int|
                0 <= i < lines.len() && text::trim(#[trigger] lines[i]).len() > 0
                    && egress::normalized_host(lines[i]) == Ok::<Seq<char>, EgressError>(host))
        }),
{
    lines_name(pieces::lines(contents), host);
}

proof fn lines_name(lines: Seq<Seq<char>>, host: Seq<char>)
    ensures
        hosts_on_lines(lines) is Err <==> exists|i: int|
            0 <= i < lines.len() && text::trim(#[trigger] lines[i]).len() > 0
                && egress::normalized_host(lines[i]) is Err,
        hosts_on_lines(lines) matches Ok(hosts) ==> (hosts.contains(host) <==> exists|i: int|
            0 <= i < lines.len() && text::trim(#[trigger] lines[i]).len() > 0
                && egress::normalized_host(lines[i]) == Ok::<Seq<char>, EgressError>(host)),
    decreases lines.len(),
{
    if lines.len() > 0 {
        let front = lines.drop_last();
        let last = lines.last();
        let n = lines.len() - 1;
        lines_name(front, host);
        assert(lines[n] == last);
        assert forall|i: int| 0 <= i < front.len() implies #[trigger] front[i] == lines[i] by {}
        if hosts_on_lines(front) is Err {
            let i = choose|i: int|
                0 <= i < front.len() && text::trim(#[trigger] front[i]).len() > 0
                    && egress::normalized_host(front[i]) is Err;
            assert(lines[i] == front[i]);
        } else {
            let earlier = hosts_on_lines(front)->Ok_0;
            if text::trim(last).len() > 0 && egress::normalized_host(last) is Ok {
                let h = egress::normalized_host(last)->Ok_0;
                let hosts = earlier.push(h);
                assert(hosts[earlier.len() as int] == h);
                if earlier.contains(host) {
                    let k = choose|k: int| 0 <= k < earlier.len() && earlier[k] == host;
                    assert(hosts[k] == host);
                }
                if hosts.contains(host) && host != h {
                    let k = choose|k: int| 0 <= k < hosts.len() && hosts[k] == host;
                    assert(earlier[k] == host);
                }
            }
            if earlier.contains(host) {
                let i = choose|i: int|
                    0 <= i < front.len() && text::trim(#[trigger] front[i]).len() > 0
                        && egress::normalized_host(front[i]) == Ok::<Seq<char>, EgressError>(host);
                assert(lines[i] == front[i]);
            }
            if exists|i: int|
                0 <= i < lines.len() && text::trim(#[trigger] lines[i]).len() > 0
                    && egress::normalized_host(lines[i]) == Ok::<Seq<char>, EgressError>(host) {
                let i = choose|i: int|
                    0 <= i < lines.len() && text::trim(#[trigger] lines[i]).len() > 0
                        && egress::normalized_host(lines[i]) == Ok::<Seq<char>, EgressError>(host);
                if i < n {
                    assert(front[i] == lines[i]);
                }
            }
            if exists|i: int|
                0 <= i < lines.len() && text::trim(#[trigger] lines[i]).len() > 0
                    && egress::normalized_host(lines[i]) is Err {
                let i = choose|i: int|
                    0 <= i < lines.len() && text::trim(#[trigger] lines[i]).len() > 0
                        && egress::normalized_host(lines[i]) is Err;
                if i < n {
                    assert(front[i] == lines[i]);
                }
            }
        }
    }
}

/// A host with a port is reached at that port, and one without at the default, also where the
/// default is 0.
pub proof fn missing_port_is_the_default(host: Seq<char>, port: u16, default_port: u16)
    requires
        crate::kinds::is_plain_host(host),
        port != 0,
    ensures
        host_and_default_port(host, default_port) == Ok::<(Seq<char>, u16), EgressError>(
            (host, default_port),
        ),
        host_and_default_port(host + seq![':'] + number::decimal(port as nat), default_port)
            == Ok::<(Seq<char>, u16), EgressError>((host, port)),
{
    crate::kinds::bare_host(host, default_port);
    crate::kinds::written_host_is_canonical(host);
    crate::canonical::canonical_host_is_fixed(host);
    let t = egress::Target { kind: egress::EgressKind::Http, host, port };
    crate::canonical::place_round_trip(t, default_port);
    assert(crate::canonical::place_text(t) =~= host + seq![':'] + number::decimal(port as nat));
}

} // verus!
