//! The approvals page: how its requests are read and answered, and which sessions it shows.
use crate::egress;
use crate::egress::EgressError;
use crate::http;
use crate::number;
use crate::order;
use crate::order::Ordered;
use crate::paths;
use crate::pending;
use crate::pending::{AllowedItem, Pending, PendingItem};
use crate::pieces;
use crate::store;
use crate::store::{Decision, Meta, SessionMeta, SessionState, SessionStore, Store, StoreError, Stored};
use crate::text;
use crate::text::CharClass;
use vstd::prelude::*;
use vstd::string::*;

verus! {

broadcast use vstd::string::group_string_axioms;

/// The most bytes of a request line.
pub const UI_MAX_REQUEST_LINE_BYTES: usize = 8192;

/// The most bytes of a header line.
pub const UI_MAX_HEADER_LINE_BYTES: usize = 8192;

/// The most bytes of all header lines.
pub const UI_MAX_HEADER_BYTES: usize = 32768;

/// The most bytes of a body.
pub const UI_MAX_REQUEST_BODY_BYTES: usize = 4096;

/// The version of what the page and its server say to each other.
pub const UI_HUB_PROTOCOL_VERSION: u32 = 2;

// ---------------------------------------------------------------------------
// Requests
// ---------------------------------------------------------------------------

/// What a request is refused for.
#[derive(Debug, Clone, Copy, PartialEq, Eq, Structural)]
pub enum UiFailure {
    InvalidRequest,
    RequestLineTooLong,
    HeadersTooLarge,
    PayloadTooLarge,
    NotFound,
    InvalidDestination,
    UnknownSession,
    InternalError,
    MethodNotAllowed,
}

/// An answer in plain text.
#[derive(Debug, Clone, Copy)]
pub struct UiReply {
    pub status: u16,
    pub reason: &'static str,
    pub body: &'static str,
}

/// The status of the answer to a request that is refused.
pub open spec fn failure_status(f: UiFailure) -> u16 {
    match f {
        UiFailure::InvalidRequest => 400,
        UiFailure::RequestLineTooLong => 431,
        UiFailure::HeadersTooLarge => 431,
        UiFailure::PayloadTooLarge => 413,
        UiFailure::NotFound => 404,
        UiFailure::InvalidDestination => 400,
        UiFailure::UnknownSession => 404,
        UiFailure::InternalError => 500,
        UiFailure::MethodNotAllowed => 405,
    }
}

/// The reason that goes with a status.
pub open spec fn status_reason(status: u16) -> Seq<char> {
    if status == 400 {
        "Bad Request"@
    } else if status == 431 {
        "Request Header Fields Too Large"@
    } else if status == 413 {
        "Payload Too Large"@
    } else if status == 404 {
        "Not Found"@
    } else if status == 405 {
        "Method Not Allowed"@
    } else {
        "Internal Server Error"@
    }
}

/// The body of the answer to a request that is refused.
pub open spec fn failure_body(f: UiFailure) -> Seq<char> {
    match f {
        UiFailure::InvalidRequest => "invalid request\n"@,
        UiFailure::RequestLineTooLong => "request line too long\n"@,
        UiFailure::HeadersTooLarge => "headers too large\n"@,
        UiFailure::PayloadTooLarge => "payload too large\n"@,
        UiFailure::NotFound => "not found\n"@,
        UiFailure::InvalidDestination => "invalid destination\n"@,
        UiFailure::UnknownSession => "unknown session\n"@,
        UiFailure::InternalError => "internal error\n"@,
        UiFailure::MethodNotAllowed => "method not allowed\n"@,
    }
}

impl UiFailure {
    /// The answer to a request that is refused.
    pub fn reply(self) -> (r: UiReply)
        ensures
            r.status == failure_status(self),
            r.reason@ == status_reason(r.status),
            r.body@ == failure_body(self),
    {
        match self {
            UiFailure::InvalidRequest => UiReply {
                status: 400,
                reason: "Bad Request",
                body: "invalid request\n",
            },
            UiFailure::RequestLineTooLong => UiReply {
                status: 431,
                reason: "Request Header Fields Too Large",
                body: "request line too long\n",
            },
            UiFailure::HeadersTooLarge => UiReply {
                status: 431,
                reason: "Request Header Fields Too Large",
                body: "headers too large\n",
            },
            UiFailure::PayloadTooLarge => UiReply {
                status: 413,
                reason: "Payload Too Large",
                body: "payload too large\n",
            },
            UiFailure::NotFound => UiReply {
                status: 404,
                reason: "Not Found",
                body: "not found\n",
            },
            UiFailure::InvalidDestination => UiReply {
                status: 400,
                reason: "Bad Request",
                body: "invalid destination\n",
            },
            UiFailure::UnknownSession => UiReply {
                status: 404,
                reason: "Not Found",
                body: "unknown session\n",
            },
            UiFailure::InternalError => UiReply {
                status: 500,
                reason: "Internal Server Error",
                body: "internal error\n",
            },
            UiFailure::MethodNotAllowed => UiReply {
                status: 405,
                reason: "Method Not Allowed",
                body: "method not allowed\n",
            },
        }
    }
}

/// The text of an answer in plain text.
pub open spec fn text_response_text(status: u16, reason: Seq<char>, body: Seq<char>) -> Seq<char> {
    http::response_text(
        status,
        reason,
        Some("text/plain; charset=utf-8"@),
        http::byte_len(body),
    ) + body
}

/// Writes an answer in plain text.
pub fn text_response(reply: UiReply) -> (r: String)
    ensures
        r@ == text_response_text(reply.status, reply.reason@, reply.body@),
{
    let mut s = http::response_head(
        reply.status,
        reply.reason,
        Some("text/plain; charset=utf-8"),
        text::utf8_len(reply.body),
    );
    s.append(reply.body);
    s
}

/// How far the head of a request has been read.
#[verifier::ext_equal]
pub struct Scan {
    pub started: bool,
    pub done: bool,
    pub method: Seq<char>,
    pub target: Seq<char>,
    pub content_length: nat,
    pub header_bytes: nat,
}

/// Reads the head of a request, one line at a time.
#[derive(Debug)]
pub struct HeadReader {
    pub started: bool,
    pub done: bool,
    pub method: String,
    pub target: String,
    pub content_length: usize,
    pub header_bytes: usize,
}

impl View for HeadReader {
    type V = Scan;

    open spec fn view(&self) -> Scan {
        Scan {
            started: self.started,
            done: self.done,
            method: self.method@,
            target: self.target@,
            content_length: self.content_length as nat,
            header_bytes: self.header_bytes as nat,
        }
    }
}

/// A scan that has read nothing.
pub open spec fn new_scan() -> Scan {
    Scan {
        started: false,
        done: false,
        method: Seq::empty(),
        target: Seq::empty(),
        content_length: 0,
        header_bytes: 0,
    }
}

/// The scan after a request line. A method that is missing is empty, a target that is missing is
/// the root.
pub open spec fn after_request_line(s: Scan, line: Seq<char>) -> Result<Scan, UiFailure> {
    let words = pieces::words(http::line_body(line));
    if line.len() == 0 {
        Err(UiFailure::InvalidRequest)
    } else if http::byte_len(line) > UI_MAX_REQUEST_LINE_BYTES {
        Err(UiFailure::RequestLineTooLong)
    } else {
        Ok(
            Scan {
                started: true,
                method: if words.len() > 0 {
                    words[0]
                } else {
                    Seq::empty()
                },
                target: if words.len() > 1 {
                    words[1]
                } else {
                    "/"@
                },
                ..s
            },
        )
    }
}

/// The length of the body after one more header line: the last line that gives one decides, and one
/// that cannot be read is 0.
pub open spec fn updated_length(length: nat, body: Seq<char>) -> nat {
    match text::split_once(body, ':') {
        Some((name, value)) => if text::lower(name) == text::lower("content-length"@) {
            match number::parse_up_to(text::trim(value), usize::MAX as nat) {
                Some(n) => n,
                None => 0,
            }
        } else {
            length
        },
        None => length,
    }
}

/// The scan after a header line.
pub open spec fn after_header_line(s: Scan, line: Seq<char>) -> Result<Scan, UiFailure> {
    let body = http::line_body(line);
    if line.len() == 0 {
        Err(UiFailure::InvalidRequest)
    } else if http::byte_len(line) > UI_MAX_HEADER_LINE_BYTES || s.header_bytes + http::byte_len(
        line,
    ) > UI_MAX_HEADER_BYTES {
        Err(UiFailure::HeadersTooLarge)
    } else if body.len() == 0 {
        Ok(Scan { done: true, header_bytes: s.header_bytes + http::byte_len(line), ..s })
    } else {
        Ok(
            Scan {
                content_length: updated_length(s.content_length, body),
                header_bytes: s.header_bytes + http::byte_len(line),
                ..s
            },
        )
    }
}

/// The scan after one more line, where an empty line is the end of the input. A scan that is done
/// takes no more lines.
pub open spec fn after_scan_line(s: Scan, line: Seq<char>) -> Result<Scan, UiFailure> {
    if !s.started {
        after_request_line(s, line)
    } else if s.done {
        Ok(s)
    } else {
        after_header_line(s, line)
    }
}

/// The scan after lines, of which those behind the end of the head are not read.
pub open spec fn after_scan_lines(s: Scan, lines: Seq<Seq<char>>) -> Result<Scan, UiFailure>
    decreases lines.len(),
{
    if lines.len() == 0 || s.done {
        Ok(s)
    } else {
        match after_scan_line(s, lines[0]) {
            Err(e) => Err(e),
            Ok(next) => after_scan_lines(next, lines.drop_first()),
        }
    }
}

impl HeadReader {
    /// A reader that has read nothing.
    pub fn new() -> (r: HeadReader)
        ensures
            r@ == new_scan(),
    {
        HeadReader {
            started: false,
            done: false,
            method: String::new(),
            target: String::new(),
            content_length: 0,
            header_bytes: 0,
        }
    }

    /// Reads the request line.
    fn feed_request_line(&mut self, line: &str) -> (r: Result<(), UiFailure>)
        ensures
            match after_request_line(old(self)@, line@) {
                Ok(next) => r is Ok && final(self)@ == next,
                Err(e) => r == Err::<(), UiFailure>(e) && *final(self) == *old(self),
            },
    {
        if text::chars_of(line).len() == 0 {
            return Err(UiFailure::InvalidRequest);
        }
        if text::utf8_len(line) > UI_MAX_REQUEST_LINE_BYTES {
            return Err(UiFailure::RequestLineTooLong);
        }
        let words = pieces::word_list(text::end_trimmed(line, CharClass::LineBreak));
        let ghost all = pieces::texts(words@);
        assert(words@.len() > 0 ==> all[0] == words@[0]@);
        assert(words@.len() > 1 ==> all[1] == words@[1]@);
        self.started = true;
        self.method = if words.len() > 0 {
            words[0].clone()
        } else {
            String::new()
        };
        self.target = if words.len() > 1 {
            words[1].clone()
        } else {
            "/".to_string()
        };
        Ok(())
    }

    /// Reads a header line.
    fn feed_header_line(&mut self, line: &str) -> (r: Result<(), UiFailure>)
        ensures
            match after_header_line(old(self)@, line@) {
                Ok(next) => r is Ok && final(self)@ == next,
                Err(e) => r == Err::<(), UiFailure>(e) && *final(self) == *old(self),
            },
    {
        if text::chars_of(line).len() == 0 {
            return Err(UiFailure::InvalidRequest);
        }
        let n: usize = text::utf8_len(line);
        if n > UI_MAX_HEADER_LINE_BYTES || self.header_bytes > UI_MAX_HEADER_BYTES - n {
            return Err(UiFailure::HeadersTooLarge);
        }
        self.header_bytes = self.header_bytes + n;
        let body = text::end_trimmed(line, CharClass::LineBreak);
        if body.is_empty() {
            self.done = true;
            return Ok(());
        }
        match text::split_at_first(body, ':') {
            Some((name, value)) => {
                if text::equals_ignore_case(name, "content-length") {
                    self.content_length = match number::read_number(
                        text::trimmed(value),
                        usize::MAX as u64,
                    ) {
                        Some(length) => length as usize,
                        None => 0,
                    };
                }
            },
            None => {},
        }
        Ok(())
    }

    /// Reads one more line. Where the line is refused, nothing changes.
    pub fn feed(&mut self, line: &str) -> (r: Result<(), UiFailure>)
        ensures
            match after_scan_line(old(self)@, line@) {
                Ok(next) => r is Ok && final(self)@ == next,
                Err(e) => r == Err::<(), UiFailure>(e) && *final(self) == *old(self),
            },
    {
        if !self.started {
            self.feed_request_line(line)
        } else if self.done {
            Ok(())
        } else {
            self.feed_header_line(line)
        }
    }

    /// The length of the body that follows the head of a request to the page.
    pub fn body_length(&self) -> (r: Result<usize, UiFailure>)
        ensures
            r == (if self@.content_length > UI_MAX_REQUEST_BODY_BYTES {
                Err::<usize, UiFailure>(UiFailure::PayloadTooLarge)
            } else {
                Ok(self.content_length)
            }),
            r is Err <==> self@.content_length > 4096,
    {
        if self.content_length > UI_MAX_REQUEST_BODY_BYTES {
            Err(UiFailure::PayloadTooLarge)
        } else {
            Ok(self.content_length)
        }
    }

    /// The path that is asked for, without the query.
    pub fn route(&self) -> (r: &str)
        ensures
            r@ == text::head_of(self@.target, '?'),
    {
        text::before_first(self.target.as_str(), '?')
    }

    /// Whether the request counts as use of the page: all but the questions after its health do.
    pub fn marks_activity(&self) -> (r: bool)
        ensures
            r == (text::head_of(self@.target, '?') != "/api/health"@),
    {
        !text::equals(self.route(), "/api/health")
    }
}

/// Reads the head of a request from lines.
pub fn scan_request(lines: &Vec<String>) -> (r: Result<HeadReader, UiFailure>)
    ensures
        match r {
            Ok(reader) => after_scan_lines(new_scan(), pieces::texts(lines@)) == Ok::<
                Scan,
                UiFailure,
            >(reader@),
            Err(e) => after_scan_lines(new_scan(), pieces::texts(lines@)) == Err::<Scan, UiFailure>(
                e,
            ),
        },
{
    let mut reader = HeadReader::new();
    let ghost all = pieces::texts(lines@);
    let mut i: usize = 0;
    assert(all.skip(0) =~= all);
    while i < lines.len() && !reader.done
        invariant
            i <= lines.len(),
            all == pieces::texts(lines@),
            after_scan_lines(reader@, all.skip(i as int)) == after_scan_lines(new_scan(), all),
        decreases lines.len() - i,
    {
        proof {
            assert(all.skip(i as int)[0] == lines@[i as int]@);
            assert(all.skip(i as int).drop_first() =~= all.skip(i + 1));
        }
        match reader.feed(lines[i].as_str()) {
            Ok(()) => {},
            Err(e) => return Err(e),
        }
        i = i + 1;
    }
    Ok(reader)
}

/// What a request asks the page for.
#[derive(Debug, Clone, Copy, PartialEq, Eq, Structural)]
pub enum UiAction {
    Page,
    Health,
    State,
    Decide(Decision),
    NotFound,
}

/// What a request with this method and path asks for.
pub open spec fn action_of(method: Seq<char>, route: Seq<char>) -> UiAction {
    if method == "GET"@ && route == "/"@ {
        UiAction::Page
    } else if method == "GET"@ && route == "/api/health"@ {
        UiAction::Health
    } else if method == "GET"@ && route == "/api/state"@ {
        UiAction::State
    } else if method == "POST"@ && route == "/api/allow"@ {
        UiAction::Decide(Decision::Allow)
    } else if method == "POST"@ && route == "/api/deny"@ {
        UiAction::Decide(Decision::Deny)
    } else if method == "POST"@ && route == "/api/dismiss"@ {
        UiAction::Decide(Decision::Dismiss)
    } else {
        UiAction::NotFound
    }
}

/// Finds what a request asks for.
pub fn ui_action(method: &str, route: &str) -> (r: UiAction)
    ensures
        r == action_of(method@, route@),
{
    let get = text::equals(method, "GET");
    let post = text::equals(method, "POST");
    if get && text::equals(route, "/") {
        UiAction::Page
    } else if get && text::equals(route, "/api/health") {
        UiAction::Health
    } else if get && text::equals(route, "/api/state") {
        UiAction::State
    } else if post && text::equals(route, "/api/allow") {
        UiAction::Decide(Decision::Allow)
    } else if post && text::equals(route, "/api/deny") {
        UiAction::Decide(Decision::Deny)
    } else if post && text::equals(route, "/api/dismiss") {
        UiAction::Decide(Decision::Dismiss)
    } else {
        UiAction::NotFound
    }
}

// ---------------------------------------------------------------------------
// Decisions
// ---------------------------------------------------------------------------

/// What a session is refused for.
#[derive(Debug, Clone, Copy, PartialEq, Eq, Structural)]
pub enum SessionIdError {
    /// The name is not that of one directory entry.
    Invalid,
    /// There is no such session.
    Unknown,
}

/// The message for an error about the session `id`.
pub open spec fn session_id_error_text(e: SessionIdError, id: Seq<char>) -> Seq<char> {
    match e {
        SessionIdError::Invalid => "invalid session id"@,
        SessionIdError::Unknown => "unknown session `"@ + id + "`"@,
    }
}

impl SessionIdError {
    /// The message for the error.
    pub fn message(&self, id: &str) -> (r: String)
        ensures
            r@ == session_id_error_text(*self, id@),
    {
        match self {
            SessionIdError::Invalid => "invalid session id".to_string(),
            SessionIdError::Unknown => {
                let mut s = "unknown session `".to_string();
                s.append(id);
                s.append("`");
                s
            },
        }
    }
}

/// Checks the name of a session.
pub fn validate_session_id(session_id: &str) -> (r: Result<&str, SessionIdError>)
    ensures
        r == (if paths::is_single_name(session_id@) {
            Ok::<&str, SessionIdError>(session_id)
        } else {
            Err(SessionIdError::Invalid)
        }),
{
    if paths::single_name(session_id) {
        Ok(session_id)
    } else {
        Err(SessionIdError::Invalid)
    }
}

/// Finds the file that tells whether a session is there.
pub fn session_meta_path(sessions_root: &str, session_id: &str) -> (r: Result<
    String,
    SessionIdError,
>)
    ensures
        if paths::is_single_name(session_id@) {
            r is Ok && r->Ok_0@ == paths::joined(
                paths::joined(sessions_root@, session_id@),
                "session-meta.json"@,
            )
        } else {
            r == Err::<String, SessionIdError>(SessionIdError::Invalid)
        },
{
    match validate_session_id(session_id) {
        Ok(id) => Ok(paths::join(paths::join(sessions_root, id).as_str(), "session-meta.json")),
        Err(e) => Err(e),
    }
}

/// Finds the directory of a session, where `has_meta` tells whether its file is there.
pub fn session_dir_for_id(sessions_root: &str, session_id: &str, has_meta: bool) -> (r: Result<
    String,
    SessionIdError,
>)
    ensures
        if !paths::is_single_name(session_id@) {
            r == Err::<String, SessionIdError>(SessionIdError::Invalid)
        } else if !has_meta {
            r == Err::<String, SessionIdError>(SessionIdError::Unknown)
        } else {
            r is Ok && r->Ok_0@ == paths::joined(sessions_root@, session_id@)
        },
{
    match validate_session_id(session_id) {
        Err(e) => Err(e),
        Ok(id) => if has_meta {
            Ok(paths::join(sessions_root, id))
        } else {
            Err(SessionIdError::Unknown)
        },
    }
}

/// The session and the destination of a decision.
#[derive(Debug)]
pub struct MutationBody {
    pub session_id: String,
    pub target: String,
}

/// What a decision is refused for.
#[derive(Debug, Clone, Copy, PartialEq, Eq, Structural)]
pub enum MutationError {
    Session(SessionIdError),
    Target(EgressError),
}

/// Checks the session and the destination of a decision, and puts the destination in canonical
/// form.
pub fn parse_mutation_body(session_id: &str, target: &str) -> (r: Result<
    MutationBody,
    MutationError,
>)
    ensures
        if !paths::is_single_name(session_id@) {
            r == Err::<MutationBody, MutationError>(MutationError::Session(SessionIdError::Invalid))
        } else {
            match egress::target_named(target@) {
                Err(e) => r == Err::<MutationBody, MutationError>(MutationError::Target(e)),
                Ok(t) => r is Ok && r->Ok_0.session_id@ == session_id@ && r->Ok_0.target@
                    == egress::target_text(t),
            }
        },
{
    let id = match validate_session_id(session_id) {
        Ok(id) => id,
        Err(e) => return Err(MutationError::Session(e)),
    };
    match egress::parse_target_spec(target) {
        Ok(t) => Ok(MutationBody { session_id: id.to_string(), target: t.to_text() }),
        Err(e) => Err(MutationError::Target(e)),
    }
}

/// What a request to the page comes to nothing for.
#[derive(Debug, Clone, Copy, PartialEq, Eq, Structural)]
pub enum UiTrouble {
    /// The body is not that of a decision.
    MalformedBody,
    /// The body names no session or no destination.
    Mutation(MutationError),
    /// There is no such session.
    Session(SessionIdError),
    /// A file or the connection failed, or the session cannot be read.
    Failed,
}

/// The failure that a request is answered with.
pub open spec fn failure_of(trouble: UiTrouble) -> UiFailure {
    match trouble {
        UiTrouble::MalformedBody => UiFailure::InvalidDestination,
        UiTrouble::Mutation(_) => UiFailure::InvalidDestination,
        UiTrouble::Session(_) => UiFailure::UnknownSession,
        UiTrouble::Failed => UiFailure::InternalError,
    }
}

/// Chooses the failure that a request is answered with.
pub fn failure_for(trouble: UiTrouble) -> (r: UiFailure)
    ensures
        r == failure_of(trouble),
{
    match trouble {
        UiTrouble::MalformedBody => UiFailure::InvalidDestination,
        UiTrouble::Mutation(_) => UiFailure::InvalidDestination,
        UiTrouble::Session(_) => UiFailure::UnknownSession,
        UiTrouble::Failed => UiFailure::InternalError,
    }
}

// ---------------------------------------------------------------------------
// Sessions
// ---------------------------------------------------------------------------

/// A session as the page shows it.
#[derive(Debug)]
pub struct HubSession {
    pub session: SessionMeta,
    pub pending: Vec<PendingItem>,
    pub allowed: Vec<AllowedItem>,
    pub pending_count: usize,
    pub last_pending_epoch_nanos: u64,
}

/// The sessions that the page shows.
#[derive(Debug)]
pub struct HubState {
    pub sessions: Vec<HubSession>,
}

/// The time of the latest blocked attempt of a list; 0 where there is none.
pub open spec fn latest_epoch(items: Seq<Pending>) -> u64
    decreases items.len(),
{
    if items.len() == 0 {
        0
    } else {
        let earlier = latest_epoch(items.drop_last());
        if items.last().epoch > earlier {
            items.last().epoch
        } else {
            earlier
        }
    }
}

/// Counts up what the page shows of a session.
pub fn hub_session(state: SessionState) -> (r: HubSession)
    ensures
        r.session == state.session,
        r.pending == state.pending,
        r.allowed == state.allowed,
        r.pending_count == state.pending@.len(),
        r.last_pending_epoch_nanos == latest_epoch(pending::pendings(state.pending@)),
{
    let mut latest: u64 = 0;
    let mut i: usize = 0;
    let ghost all = pending::pendings(state.pending@);
    assert(all.take(0) =~= Seq::<Pending>::empty());
    while i < state.pending.len()
        invariant
            i <= state.pending.len(),
            all == pending::pendings(state.pending@),
            latest == latest_epoch(all.take(i as int)),
        decreases state.pending.len() - i,
    {
        proof {
            assert(all.take(i + 1).drop_last() =~= all.take(i as int));
            assert(all.take(i + 1).last() == state.pending@[i as int]@);
        }
        if state.pending[i].epoch > latest {
            latest = state.pending[i].epoch;
        }
        i = i + 1;
    }
    assert(all.take(i as int) =~= all);
    HubSession {
        pending_count: state.pending.len(),
        last_pending_epoch_nanos: latest,
        session: state.session,
        pending: state.pending,
        allowed: state.allowed,
    }
}

/// What a session is left out with an error for.
pub open spec fn hub_error(m: Store, running: bool) -> Option<StoreError> {
    match m.active {
        Stored::Missing => None,
        Stored::Malformed => Some(StoreError::ParseFailed(store::StoreFile::ActiveProcess)),
        Stored::Held(_) => if running {
            store::state_error(m)
        } else {
            None
        },
    }
}

/// Whether a session is shown.
pub open spec fn is_on_hub(m: Store, running: bool) -> bool {
    m.active is Held && running && store::state_error(m) is None
}

/// Whether `shown` is the session as the page shows it.
pub open spec fn shows_session(m: Store, shown: HubSession) -> bool {
    &&& store::meta_in(m) == Ok::<Meta, StoreError>(shown.session@)
    &&& store::is_pending_list(m, pending::pendings(shown.pending@))
    &&& store::is_allowed_list(m, store::alloweds(shown.allowed@))
    &&& shown.pending_count == shown.pending@.len()
    &&& shown.last_pending_epoch_nanos == latest_epoch(pending::pendings(shown.pending@))
}

/// Reads a session for the page, where `running` tells whether its process runs: `None` where it
/// is not active, an error where it cannot be read. The record of a process that does not run is
/// removed.
pub fn hub_entry(session: &mut SessionStore, running: bool) -> (r: Result<
    Option<HubSession>,
    StoreError,
>)
    ensures
        match r {
            Err(e) => hub_error(old(session)@, running) == Some(e),
            Ok(None) => hub_error(old(session)@, running) is None && !is_on_hub(
                old(session)@,
                running,
            ),
            Ok(Some(shown)) => is_on_hub(old(session)@, running) && shows_session(
                old(session)@,
                shown,
            ),
        },
        final(session)@ == store::after_activity_test(old(session)@, running),
{
    match session.is_active_session(running) {
        Err(e) => Err(e),
        Ok(false) => Ok(None),
        Ok(true) => match session.load_state() {
            Ok(state) => Ok(Some(hub_session(state))),
            Err(e) => Err(e),
        },
    }
}

/// The order of sessions: the latest blocked attempt first, then the most blocked destinations,
/// then the latest start, then the name.
pub open spec fn session_before(a: HubSession, b: HubSession) -> bool {
    if a.last_pending_epoch_nanos != b.last_pending_epoch_nanos {
        a.last_pending_epoch_nanos > b.last_pending_epoch_nanos
    } else if a.pending_count != b.pending_count {
        a.pending_count > b.pending_count
    } else if a.session.last_started_epoch != b.session.last_started_epoch {
        a.session.last_started_epoch > b.session.last_started_epoch
    } else {
        order::text_before(a.session.session_id@, b.session.session_id@)
    }
}

impl Ordered for HubSession {
    open spec fn before(&self, other: &Self) -> bool {
        session_before(*self, *other)
    }

    proof fn before_irreflexive(a: &Self) {
        order::text_before_irreflexive(a.session.session_id@);
    }

    proof fn before_transitive(a: &Self, b: &Self, c: &Self) {
        let x = a.session.session_id@;
        let y = b.session.session_id@;
        let z = c.session.session_id@;
        if order::text_before(x, y) && order::text_before(y, z) {
            order::text_before_transitive(x, y, z);
        }
    }

    proof fn before_splits(a: &Self, b: &Self, c: &Self) {
        let x = a.session.session_id@;
        let y = b.session.session_id@;
        let z = c.session.session_id@;
        order::text_before_total(x, y);
        if order::text_before(y, x) && order::text_before(x, z) {
            order::text_before_transitive(y, x, z);
        }
    }

    fn is_before(&self, other: &Self) -> (r: bool) {
        if self.last_pending_epoch_nanos != other.last_pending_epoch_nanos {
            self.last_pending_epoch_nanos > other.last_pending_epoch_nanos
        } else if self.pending_count != other.pending_count {
            self.pending_count > other.pending_count
        } else if self.session.last_started_epoch != other.session.last_started_epoch {
            self.session.last_started_epoch > other.session.last_started_epoch
        } else {
            order::text_is_before(
                self.session.session_id.as_str(),
                other.session.session_id.as_str(),
            )
        }
    }
}

/// A directory among the sessions.
#[derive(Debug)]
pub struct FoundSession {
    pub store: SessionStore,
    /// Whether there is a file about the session.
    pub has_meta: bool,
    /// Whether the recorded process runs.
    pub running: bool,
}

/// What a [`FoundSession`] denotes.
#[verifier::ext_equal]
pub struct Found {
    pub store: Store,
    pub has_meta: bool,
    pub running: bool,
}

impl View for FoundSession {
    type V = Found;

    open spec fn view(&self) -> Found {
        Found { store: self.store@, has_meta: self.has_meta, running: self.running }
    }
}

/// What the directories of a list denote.
pub open spec fn founds(v: Seq<FoundSession>) -> Seq<Found> {
    Seq::new(v.len(), |i: int| v[i]@)
}

/// Whether a directory is a session that the page shows: one with a file about it that is active
/// and can be read.
pub open spec fn is_listed(f: Found) -> bool {
    f.has_meta && is_on_hub(f.store, f.running)
}

/// What a directory is left out with an error for. One without a file about a session is none.
pub open spec fn left_out(f: Found) -> Option<StoreError> {
    if f.has_meta {
        hub_error(f.store, f.running)
    } else {
        None
    }
}

/// A directory after it was looked at: the record of a process that does not run is removed.
pub open spec fn looked_at(f: Found) -> Found {
    if f.has_meta {
        Found { store: store::after_activity_test(f.store, f.running), ..f }
    } else {
        f
    }
}

/// The sessions that the page shows, in the order in which they were found.
pub open spec fn listed(found: Seq<Found>) -> Seq<Found> {
    found.filter(|f: Found| is_listed(f))
}

/// Whether `shown` shows the sessions of `found`, one by one.
pub open spec fn shows_each(shown: Seq<HubSession>, found: Seq<Found>) -> bool {
    &&& shown.len() == found.len()
    &&& forall|i: int| 0 <= i < found.len() ==> shows_session((#[trigger] found[i]).store, shown[i])
}

/// Whether `sessions` is what the page shows where `found` was found: the active sessions that can
/// be read and no others, in order.
pub open spec fn is_hub_state(sessions: Seq<HubSession>, found: Seq<Found>) -> bool {
    exists|shown: Seq<HubSession>| #[trigger]
        shows_each(shown, listed(found)) && order::is_stable_sort(shown, sessions)
}

/// Collects the sessions that the page shows. Those that are not active or cannot be read are left
/// out; beside the sessions stands, for each directory, the error that it is left out with.
pub fn load_hub_state(found: &mut Vec<FoundSession>) -> (r: (HubState, Vec<Option<StoreError>>))
    ensures
        is_hub_state(r.0.sessions@, founds(old(found)@)),
        r.1@ == founds(old(found)@).map_values(|f: Found| left_out(f)),
        founds(final(found)@) == founds(old(found)@).map_values(|f: Found| looked_at(f)),
{
    let ghost from = founds(found@);
    let ghost keep = |f: Found| is_listed(f);
    let mut shown: Vec<HubSession> = Vec::new();
    let mut errors: Vec<Option<StoreError>> = Vec::new();
    let mut i: usize = 0;
    proof {
        reveal(Seq::filter);
        assert(from.take(0) =~= Seq::<Found>::empty());
        assert(shows_each(shown@, from.take(0).filter(keep)));
    }
    while i < found.len()
        invariant
            i <= found.len(),
            found@.len() == from.len(),
            keep == (|f: Found| is_listed(f)),
            forall|k: int| 0 <= k < i ==> (#[trigger] found@[k])@ == looked_at(from[k]),
            forall|k: int| i <= k < from.len() ==> (#[trigger] found@[k])@ == from[k],
            errors@.len() == i,
            forall|k: int| 0 <= k < i ==> #[trigger] errors@[k] == left_out(from[k]),
            shows_each(shown@, from.take(i as int).filter(keep)),
        decreases found.len() - i,
    {
        let ghost f = from[i as int];
        let ghost before = from.take(i as int).filter(keep);
        let ghost shown_before = shown@;
        proof {
            reveal(Seq::filter);
            assert(found@[i as int]@ == f);
            assert(from.take(i + 1).drop_last() =~= from.take(i as int));
            assert(from.take(i + 1).last() == f);
        }
        if found[i].has_meta {
            let running = found[i].running;
            match hub_entry(&mut found[i].store, running) {
                Err(e) => {
                    errors.push(Some(e));
                },
                Ok(None) => {
                    errors.push(None);
                },
                Ok(Some(session)) => {
                    shown.push(session);
                    errors.push(None);
                    assert(from.take(i + 1).filter(keep) =~= before.push(f));
                },
            }
        } else {
            errors.push(None);
        }
        i = i + 1;
    }
    proof {
        assert(from.take(i as int) =~= from);
        assert(errors@ =~= from.map_values(|f: Found| left_out(f)));
        assert(founds(found@) =~= from.map_values(|f: Found| looked_at(f)));
        assert(shows_each(shown@, listed(from)));
    }
    (HubState { sessions: order::sort(shown) }, errors)
}

/// Every session that the page shows is active and can be read, and every session that is active
/// and can be read is shown.
pub proof fn active_sessions_are_shown(sessions: Seq<HubSession>, found: Seq<Found>)
    requires
        is_hub_state(sessions, found),
    ensures
        forall|shown: HubSession| #[trigger]
            sessions.contains(shown) ==> exists|f: Found| #[trigger]
                found.contains(f) && is_listed(f) && shows_session(f.store, shown),
        forall|f: Found| #[trigger]
            found.contains(f) && is_listed(f) ==> exists|shown: HubSession| #[trigger]
                sessions.contains(shown) && shows_session(f.store, shown),
        sessions.len() == listed(found).len(),
{
    let keep = |f: Found| is_listed(f);
    let list = listed(found);
    let each = choose|each: Seq<HubSession>| #[trigger]
        shows_each(each, list) && order::is_stable_sort(each, sessions);
    order::stable_sort_keeps_elements(each, sessions);
    assert forall|shown: HubSession| #[trigger] sessions.contains(shown) implies exists|f: Found|
        #[trigger] found.contains(f) && is_listed(f) && shows_session(f.store, shown) by {
        assert(each.contains(shown));
        let i = choose|i: int| 0 <= i < each.len() && each[i] == shown;
        assert(shows_session(list[i].store, shown));
        found.lemma_filter_pred(keep, i);
        assert(list.contains(list[i]));
        found.lemma_filter_contains_rev(keep, list[i]);
        assert(found.contains(list[i]));
    }
    assert forall|f: Found| #[trigger] found.contains(f) && is_listed(f) implies exists|
        shown: HubSession,
    | #[trigger] sessions.contains(shown) && shows_session(f.store, shown) by {
        let k = choose|k: int| 0 <= k < found.len() && found[k] == f;
        found.lemma_filter_contains(keep, k);
        let i = choose|i: int| 0 <= i < list.len() && list[i] == f;
        assert(shows_session(list[i].store, each[i]));
        assert(each.contains(each[i]));
        assert(sessions.contains(each[i]));
    }
}

// ---------------------------------------------------------------------------
// Health
// ---------------------------------------------------------------------------

/// What the server of the page says of itself.
#[derive(Debug)]
pub struct UiHealth {
    pub status: String,
    pub protocol_version: u32,
}

/// What the server of the page says of itself.
pub fn ui_health() -> (r: UiHealth)
    ensures
        r.status@ == "ok"@,
        r.protocol_version == UI_HUB_PROTOCOL_VERSION,
        r.protocol_version == 2,
{
    UiHealth { status: "ok".to_string(), protocol_version: UI_HUB_PROTOCOL_VERSION }
}

/// Whether a server that says this of itself can be used.
pub open spec fn is_current(status: Seq<char>, protocol_version: u32) -> bool {
    status == "ok"@ && protocol_version == UI_HUB_PROTOCOL_VERSION
}

impl UiHealth {
    /// Tests whether the server can be used.
    pub fn is_current(&self) -> (r: bool)
        ensures
            r == is_current(self.status@, self.protocol_version),
    {
        text::equals(self.status.as_str(), "ok") && self.protocol_version
            == UI_HUB_PROTOCOL_VERSION
    }
}

/// The contents of the file that says when the page was last used.
pub open spec fn activity_text_of(epoch: u64) -> Seq<char> {
    number::decimal(epoch as nat) + seq!['\n']
}

/// Writes the contents of the file that says when the page was last used.
pub fn mark_ui_activity(epoch: u64) -> (r: String)
    ensures
        r@ == activity_text_of(epoch),
{
    let mut s = number::decimal_of(epoch);
    s.push('\n');
    assert(s@ =~= activity_text_of(epoch));
    s
}

} // verus!
