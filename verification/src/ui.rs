//! Starting the approvals page and finding out whether it runs.
use crate::config::AppConfig;
use crate::connectors;
use crate::number;
use crate::outside;
use crate::paths;
use crate::pieces;
use crate::text;
use crate::text::CharClass;
use crate::webui;
use vstd::prelude::*;
use vstd::string::*;

verus! {

broadcast use vstd::string::group_string_axioms;

/// How long the page counts as in use, in seconds.
pub const UI_ACTIVITY_FRESH_FOR_SECS: u64 = 5;

/// The request that asks the server of the page after its health.
pub const HEALTH_REQUEST: &'static str =
    "GET /api/health HTTP/1.1\r\nHost: 127.0.0.1\r\nConnection: close\r\n\r\n";

/// The approvals page.
#[derive(Debug)]
pub struct ApprovalsHub {
    pub base_url: String,
    pub started_now: bool,
}

/// The address of a page that is served on a port.
pub open spec fn base_url_of(port: u16) -> Seq<char> {
    "http://127.0.0.1:"@ + number::decimal(port as nat) + "/"@
}

/// The address at which the page shows a session first.
pub open spec fn focused_url(base: Seq<char>, session: Option<Seq<char>>) -> Seq<char> {
    match session {
        Some(id) => base + "?session="@ + id,
        None => base,
    }
}

impl ApprovalsHub {
    /// The page that is served on a port.
    pub fn at_port(port: u16, started_now: bool) -> (r: ApprovalsHub)
        ensures
            r.base_url@ == base_url_of(port),
            r.started_now == started_now,
    {
        let mut base_url = "http://127.0.0.1:".to_string();
        base_url.append(number::decimal_of(port as u64).as_str());
        base_url.append("/");
        ApprovalsHub { base_url, started_now }
    }

    /// The address at which the page shows a session first.
    pub fn url(&self, focus_session: Option<&str>) -> (r: String)
        ensures
            r@ == focused_url(self.base_url@, text::opt_str(focus_session)),
    {
        let mut s = self.base_url.clone();
        match focus_session {
            Some(id) => {
                s.append("?session=");
                s.append(id);
            },
            None => {},
        }
        s
    }
}

/// Decides whether the page is wanted: only from a terminal, and not where browsers are switched
/// off.
pub fn wants_hub(stdin_is_terminal: bool, stdout_is_terminal: bool, no_browser: bool) -> (r: bool)
    ensures
        r == (stdin_is_terminal && stdout_is_terminal && !no_browser),
{
    stdin_is_terminal && stdout_is_terminal && !no_browser
}

/// What to do once the page is there.
#[derive(Debug, Clone, Copy, PartialEq, Eq, Structural)]
pub enum HubNotice {
    OpenBrowser,
    PointToSession,
    Nothing,
}

/// Decides what to do once the page is there: a browser is opened unless the page is in use.
pub fn hub_notice(started_now: bool, recently_active: bool, has_focus: bool) -> (r: HubNotice)
    ensures
        r == (if started_now || !recently_active {
            HubNotice::OpenBrowser
        } else if has_focus {
            HubNotice::PointToSession
        } else {
            HubNotice::Nothing
        }),
{
    if started_now || !recently_active {
        HubNotice::OpenBrowser
    } else if has_focus {
        HubNotice::PointToSession
    } else {
        HubNotice::Nothing
    }
}

/// What to do while the server of the page starts.
#[derive(Debug, Clone, Copy, PartialEq, Eq, Structural)]
pub enum HubStep {
    /// The server answers on this port.
    Ready(u16),
    /// Stop the server and give up.
    TimedOut,
    /// The server has ended.
    Exited,
    Wait,
}

/// Decides what to do while the server of the page starts.
pub fn hub_step(answering: Option<u16>, past_deadline: bool, exited: bool) -> (r: HubStep)
    ensures
        r == (match answering {
            Some(port) => HubStep::Ready(port),
            None => if past_deadline {
                HubStep::TimedOut
            } else if exited {
                HubStep::Exited
            } else {
                HubStep::Wait
            },
        }),
{
    match answering {
        Some(port) => HubStep::Ready(port),
        None => if past_deadline {
            HubStep::TimedOut
        } else if exited {
            HubStep::Exited
        } else {
            HubStep::Wait
        },
    }
}

/// The arguments with which the server of the page is started.
pub open spec fn hub_args_of(config_root: Seq<char>) -> Seq<Seq<char>> {
    seq![
        "__ui-hub"@,
        "--listen-host"@,
        "127.0.0.1"@,
        "--listen-port"@,
        "0"@,
        "--sessions-root"@,
        paths::joined(config_root, "sessions"@),
        "--ready-file"@,
        paths::joined(config_root, "ui-ready.json"@),
        "--activity-file"@,
        paths::joined(config_root, "ui-activity"@),
    ]
}

/// Lists the arguments with which the server of the page is started.
pub fn hub_args(config: &AppConfig) -> (r: Vec<String>)
    ensures
        pieces::texts(r@) == hub_args_of(config.config_root@),
{
    let mut args: Vec<String> = Vec::new();
    args.push("__ui-hub".to_string());
    args.push("--listen-host".to_string());
    args.push("127.0.0.1".to_string());
    args.push("--listen-port".to_string());
    args.push("0".to_string());
    args.push("--sessions-root".to_string());
    args.push(config.sessions_root());
    args.push("--ready-file".to_string());
    args.push(config.ui_ready_file());
    args.push("--activity-file".to_string());
    args.push(config.ui_activity_file());
    assert(pieces::texts(args@) =~= hub_args_of(config.config_root@));
    args
}

/// The body of a response with status 200 to the question after the health; `None` where the
/// response is another or cannot be read.
pub open spec fn health_body_of(response: Seq<char>) -> Option<Seq<char>> {
    match text::split_once_seq(response, "\r\n\r\n"@) {
        Some((head, body)) => match text::strip_prefix(head, "HTTP/1.1 200"@) {
            Some(_) => Some(body),
            None => None,
        },
        None => None,
    }
}

/// Finds the body of a response with status 200 in its text.
pub fn health_body_in(response: &str) -> (r: Option<String>)
    ensures
        connectors::opt_text(r) == health_body_of(response@),
{
    match text::split_at_str(response, "\r\n\r\n") {
        Some((head, body)) => match text::without_prefix(head, "HTTP/1.1 200") {
            Some(_) => Some(body.to_string()),
            None => None,
        },
        None => None,
    }
}

/// Finds the body of a response with status 200; a response that is not UTF-8 has none.
pub fn health_body(response: Vec<u8>) -> (r: Option<String>)
    ensures
        connectors::opt_text(r) == (if vstd::utf8::valid_utf8(response@) {
            health_body_of(vstd::utf8::decode_utf8(response@))
        } else {
            None
        }),
{
    match outside::decode_utf8(response) {
        None => None,
        Some(s) => {
            proof {
                vstd::utf8::encode_utf8_decode_utf8(s@);
            }
            health_body_in(s.as_str())
        },
    }
}

/// Whether the page was used within the last seconds. A time in the future counts as now.
pub open spec fn is_recently_active(raw: Option<Seq<char>>, now: u64) -> bool {
    match raw {
        Some(raw) => match number::parse_up_to(text::trim(raw), u64::MAX as nat) {
            Some(last_seen) => now <= last_seen + UI_ACTIVITY_FRESH_FOR_SECS,
            None => false,
        },
        None => false,
    }
}

/// Tests whether the page was used within the last seconds, by the file that says when it was.
pub fn ui_recently_active(raw: Option<&str>, now: u64) -> (r: bool)
    ensures
        r == is_recently_active(text::opt_str(raw), now),
{
    match raw {
        Some(raw) => match number::read_number(text::trimmed(raw), u64::MAX) {
            Some(last_seen) => now <= last_seen || now - last_seen <= UI_ACTIVITY_FRESH_FOR_SECS,
            None => false,
        },
        None => false,
    }
}

/// Use of the page that is recorded counts as recent for as long as it should, and no longer.
pub proof fn recorded_use_is_recent_for_a_while(epoch: u64, now: u64)
    ensures
        is_recently_active(Some(webui::activity_text_of(epoch)), now) <==> now <= epoch
            + UI_ACTIVITY_FRESH_FOR_SECS,
{
    let d = number::decimal(epoch as nat);
    let s = webui::activity_text_of(epoch);
    number::decimal_is_digits(epoch as nat);
    assert(text::is_digit(d[0]) && text::is_digit(d[d.len() - 1]));
    assert(s[0] == d[0]);
    assert(!text::is_white_space(s[0]));
    assert(text::trim_start_of(s, CharClass::WhiteSpace) == s);
    assert(s.last() == '\n');
    assert(s.drop_last() =~= d);
    assert(text::trim_end_of(d, CharClass::WhiteSpace) == d);
    number::number_round_trip(epoch as nat);
}

/// The system that a browser is opened on.
#[derive(Debug, Clone, Copy, PartialEq, Eq, Structural)]
pub enum Desktop {
    MacOs,
    Windows,
    Other,
}

/// The command that opens a page in a browser.
pub open spec fn browser_command_of(desktop: Desktop, url: Seq<char>) -> Seq<Seq<char>> {
    match desktop {
        Desktop::MacOs => seq!["open"@, url],
        Desktop::Windows => seq!["cmd"@, "/C"@, "start"@, ""@, url],
        Desktop::Other => seq!["xdg-open"@, url],
    }
}

/// Lists the command that opens a page in a browser, with its arguments.
pub fn open_browser(desktop: Desktop, url: &str) -> (r: Vec<String>)
    ensures
        pieces::texts(r@) == browser_command_of(desktop, url@),
{
    let mut command: Vec<String> = Vec::new();
    match desktop {
        Desktop::MacOs => command.push("open".to_string()),
        Desktop::Windows => {
            command.push("cmd".to_string());
            command.push("/C".to_string());
            command.push("start".to_string());
            command.push("".to_string());
        },
        Desktop::Other => command.push("xdg-open".to_string()),
    }
    command.push(url.to_string());
    assert(pieces::texts(command@) =~= browser_command_of(desktop, url@));
    command
}

} // verus!
