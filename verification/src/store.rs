//! The state of a session: what it may reach, what it tried to reach, and what was decided.
use crate::canonical;
use crate::config::AppConfig;
use crate::connectors;
use crate::connectors::{ConnectorMapping, Mapping};
use crate::dismissals;
use crate::egress;
use crate::egress::{EgressError, EgressKind, EgressTarget, Target};
use crate::number;
use crate::outside;
use crate::paths;
use crate::pending;
use crate::pending::{Allowed, AllowedItem, Event, Log, Pending, PendingError, PendingItem, PendingLog};
use crate::pieces;
use crate::target_set;
use crate::text;
use vstd::prelude::*;
use vstd::string::*;

verus! {

broadcast use vstd::string::group_string_axioms;

/// The destinations that every new session may reach.
pub const DEFAULT_ALLOWED_TARGETS: [&'static str; 3] = [
    "https://api.github.com:443",
    "https://api.business.githubcopilot.com:443",
    "https://telemetry.business.githubcopilot.com:443",
];

// ---------------------------------------------------------------------------
// Files and errors
// ---------------------------------------------------------------------------

/// A file of a session.
#[derive(Debug, Clone, Copy, PartialEq, Eq, Structural)]
pub enum StoreFile {
    AllowedTargets,
    Connectors,
    PendingEvents,
    Dismissed,
    SessionMeta,
    ActiveProcess,
}

/// The name of a file of a session.
pub open spec fn file_name(file: StoreFile) -> Seq<char> {
    match file {
        StoreFile::AllowedTargets => "allowed-targets.txt"@,
        StoreFile::Connectors => "connectors.json"@,
        StoreFile::PendingEvents => "pending-events.jsonl"@,
        StoreFile::Dismissed => "dismissed.json"@,
        StoreFile::SessionMeta => "session-meta.json"@,
        StoreFile::ActiveProcess => "active-process.json"@,
    }
}

impl StoreFile {
    /// The name of the file.
    pub fn name(self) -> (r: &'static str)
        ensures
            r@ == file_name(self),
    {
        match self {
            StoreFile::AllowedTargets => "allowed-targets.txt",
            StoreFile::Connectors => "connectors.json",
            StoreFile::PendingEvents => "pending-events.jsonl",
            StoreFile::Dismissed => "dismissed.json",
            StoreFile::SessionMeta => "session-meta.json",
            StoreFile::ActiveProcess => "active-process.json",
        }
    }
}

/// What an operation on a session is refused for.
#[derive(Debug, Clone, Copy, PartialEq, Eq, Structural)]
pub enum StoreError {
    /// The file is not there.
    ReadFailed(StoreFile),
    /// The file does not hold what it should.
    ParseFailed(StoreFile),
    /// This line of the log, counted from 1, holds no entry.
    PendingLine(usize),
    /// A destination cannot be read or served.
    Target(EgressError),
}

/// The message for an error, where the session is in directory `dir`.
pub open spec fn store_error_text(e: StoreError, dir: Seq<char>) -> Seq<char> {
    match e {
        StoreError::ReadFailed(file) => "failed to read "@ + paths::joined(dir, file_name(file)),
        StoreError::ParseFailed(file) => "failed to parse "@ + paths::joined(dir, file_name(file)),
        StoreError::PendingLine(line) => "failed to parse pending log line "@ + number::decimal(
            line as nat,
        ) + " in "@ + paths::joined(dir, file_name(StoreFile::PendingEvents)),
        StoreError::Target(e) => egress::error_text(e),
    }
}

impl StoreError {
    /// The message for the error.
    pub fn message(&self, session_dir: &str) -> (r: String)
        ensures
            r@ == store_error_text(*self, session_dir@),
    {
        match self {
            StoreError::ReadFailed(file) => {
                let mut s = "failed to read ".to_string();
                s.append(paths::join(session_dir, file.name()).as_str());
                s
            },
            StoreError::ParseFailed(file) => {
                let mut s = "failed to parse ".to_string();
                s.append(paths::join(session_dir, file.name()).as_str());
                s
            },
            StoreError::PendingLine(line) => {
                let mut s = "failed to parse pending log line ".to_string();
                s.append(number::decimal_of(*line as u64).as_str());
                s.append(" in ");
                s.append(paths::join(session_dir, StoreFile::PendingEvents.name()).as_str());
                s
            },
            StoreError::Target(e) => e.message(),
        }
    }
}

/// What a file holds.
#[derive(Debug)]
pub enum Stored<T> {
    /// There is no file.
    Missing,
    /// The file does not hold what it should.
    Malformed,
    Held(T),
}

// ---------------------------------------------------------------------------
// The state
// ---------------------------------------------------------------------------

/// What is known of a session.
#[derive(Debug)]
pub struct SessionMeta {
    pub session_id: String,
    pub workspace: String,
    pub provider: String,
    pub last_started_epoch: u64,
    pub last_invocation: Vec<String>,
}

/// What a [`SessionMeta`] denotes.
#[verifier::ext_equal]
pub struct Meta {
    pub session_id: Seq<char>,
    pub workspace: Seq<char>,
    pub provider: Seq<char>,
    pub last_started_epoch: u64,
    pub last_invocation: Seq<Seq<char>>,
}

impl View for SessionMeta {
    type V = Meta;

    open spec fn view(&self) -> Meta {
        Meta {
            session_id: self.session_id@,
            workspace: self.workspace@,
            provider: self.provider@,
            last_started_epoch: self.last_started_epoch,
            last_invocation: pieces::texts(self.last_invocation@),
        }
    }
}

/// Copies a list of texts.
pub fn clone_texts(v: &Vec<String>) -> (r: Vec<String>)
    ensures
        pieces::texts(r@) == pieces::texts(v@),
{
    let mut r: Vec<String> = Vec::new();
    let mut i: usize = 0;
    while i < v.len()
        invariant
            i <= v.len(),
            r@.len() == i,
            forall|k: int| 0 <= k < i ==> (#[trigger] r@[k])@ == v@[k]@,
        decreases v.len() - i,
    {
        r.push(v[i].clone());
        i = i + 1;
    }
    assert(pieces::texts(r@) =~= pieces::texts(v@));
    r
}

impl Clone for SessionMeta {
    fn clone(&self) -> (r: Self)
        ensures
            r@ == self@,
    {
        SessionMeta {
            session_id: self.session_id.clone(),
            workspace: self.workspace.clone(),
            provider: self.provider.clone(),
            last_started_epoch: self.last_started_epoch,
            last_invocation: clone_texts(&self.last_invocation),
        }
    }
}

/// The process that runs a session.
#[derive(Debug, Clone, Copy, PartialEq, Eq, Structural)]
pub struct ActiveProcessInfo {
    pub pid: u32,
    pub started_epoch: u64,
}

/// The files of a session.
#[derive(Debug)]
pub struct SessionStore {
    pub session_dir: String,
    pub allowed: Option<String>,
    pub connectors: Stored<Vec<ConnectorMapping>>,
    pub pending: Option<PendingLog>,
    pub dismissed: Option<String>,
    pub meta: Stored<SessionMeta>,
    pub active: Stored<ActiveProcessInfo>,
}

/// What a file of dismissals denotes: its text, and the dismissals that the text holds as JSON,
/// `None` where it holds none.
#[verifier::ext_equal]
pub struct Dismissals {
    pub text: Seq<char>,
    pub held: Option<Map<Seq<char>, u64>>,
}

/// What a text denotes as a file of dismissals.
pub open spec fn dismissals_in(text: Seq<char>) -> Dismissals {
    Dismissals { text, held: outside::number_map_in(text) }
}

/// The file that holds dismissals: their pretty-printed JSON and a line feed.
pub open spec fn dismissals_file(map: Map<Seq<char>, u64>) -> Dismissals {
    Dismissals { text: outside::number_map_json(map) + seq!['\n'], held: Some(map) }
}

/// What a [`SessionStore`] denotes.
#[verifier::ext_equal]
pub struct Store {
    pub session_dir: Seq<char>,
    pub allowed: Option<Seq<char>>,
    pub connectors: Stored<Seq<Mapping>>,
    pub pending: Option<Log>,
    pub dismissed: Option<Dismissals>,
    pub meta: Stored<Meta>,
    pub active: Stored<ActiveProcessInfo>,
}

/// What the mappings of a connector file denote.
pub open spec fn stored_mappings(c: Stored<Vec<ConnectorMapping>>) -> Stored<Seq<Mapping>> {
    match c {
        Stored::Missing => Stored::Missing,
        Stored::Malformed => Stored::Malformed,
        Stored::Held(v) => Stored::Held(connectors::mappings_of(v@)),
    }
}

/// What a file about the session denotes.
pub open spec fn stored_meta(m: Stored<SessionMeta>) -> Stored<Meta> {
    match m {
        Stored::Missing => Stored::Missing,
        Stored::Malformed => Stored::Malformed,
        Stored::Held(m) => Stored::Held(m@),
    }
}

impl View for SessionStore {
    type V = Store;

    open spec fn view(&self) -> Store {
        Store {
            session_dir: self.session_dir@,
            allowed: connectors::opt_text(self.allowed),
            connectors: stored_mappings(self.connectors),
            pending: match self.pending {
                Some(log) => Some(log@),
                None => None,
            },
            dismissed: match self.dismissed {
                Some(json) => Some(dismissals_in(json@)),
                None => None,
            },
            meta: stored_meta(self.meta),
            active: self.active,
        }
    }
}

/// A session as it is shown.
#[derive(Debug)]
pub struct SessionState {
    pub session: SessionMeta,
    pub pending: Vec<PendingItem>,
    pub allowed: Vec<AllowedItem>,
}

// ---------------------------------------------------------------------------
// Reading the state
// ---------------------------------------------------------------------------

/// The targets that the session may reach.
pub open spec fn allowed_in(m: Store) -> Result<Set<Target>, StoreError> {
    match m.allowed {
        None => Err(StoreError::ReadFailed(StoreFile::AllowedTargets)),
        Some(contents) => match target_set::target_set_of(contents) {
            Ok(set) => Ok(set),
            Err(e) => Err(StoreError::Target(e)),
        },
    }
}

/// The connectors of the session; there are none without a file.
pub open spec fn mappings_in(m: Store) -> Result<Seq<Mapping>, StoreError> {
    match m.connectors {
        Stored::Missing => Ok(Seq::empty()),
        Stored::Malformed => Err(StoreError::ParseFailed(StoreFile::Connectors)),
        Stored::Held(s) => Ok(connectors::table_of(s)),
    }
}

/// The dismissals of the session.
pub open spec fn dismissed_in(m: Store) -> Result<Map<Seq<char>, u64>, StoreError> {
    match m.dismissed {
        None => Err(StoreError::ReadFailed(StoreFile::Dismissed)),
        Some(file) => match file.held {
            None => Err(StoreError::ParseFailed(StoreFile::Dismissed)),
            Some(map) => Ok(map),
        },
    }
}

/// The blocked attempts of the session.
pub open spec fn events_in(m: Store) -> Result<Seq<Event>, StoreError> {
    match m.pending {
        None => Err(StoreError::ReadFailed(StoreFile::PendingEvents)),
        Some(log) => match pending::events_of(log) {
            Ok(events) => Ok(events),
            Err(PendingError::Malformed(line)) => Err(StoreError::PendingLine(line)),
            Err(PendingError::Target(e)) => Err(StoreError::Target(e)),
        },
    }
}

/// What is known of the session.
pub open spec fn meta_in(m: Store) -> Result<Meta, StoreError> {
    match m.meta {
        Stored::Missing => Err(StoreError::ReadFailed(StoreFile::SessionMeta)),
        Stored::Malformed => Err(StoreError::ParseFailed(StoreFile::SessionMeta)),
        Stored::Held(meta) => Ok(meta),
    }
}

/// The target of an item.
pub open spec fn item_target(item: Allowed) -> Target {
    Target { kind: item.kind, host: item.host, port: item.port }
}

/// What the items of a list denote.
pub open spec fn alloweds(v: Seq<AllowedItem>) -> Seq<Allowed> {
    Seq::new(v.len(), |i: int| v[i]@)
}

/// The targets of a list of items.
pub open spec fn item_targets(items: Seq<Allowed>) -> Seq<Target> {
    Seq::new(items.len(), |i: int| item_target(items[i]))
}

/// Whether `items` shows the targets of `set` in order, each of them with its connector.
pub open spec fn shows_allowed(
    items: Seq<Allowed>,
    set: Set<Target>,
    mappings: Seq<Mapping>,
) -> bool {
    &&& target_set::lists(item_targets(items), set)
    &&& forall|i: int|
        0 <= i < items.len() ==> #[trigger] items[i] == pending::allowed_item(
            item_target(items[i]),
            connectors::endpoint_named(mappings, egress::target_text(item_target(items[i]))),
        )
}

/// What the list of approved destinations is refused for.
pub open spec fn allowed_error(m: Store) -> Option<StoreError> {
    match mappings_in(m) {
        Err(e) => Some(e),
        Ok(_) => match allowed_in(m) {
            Err(e) => Some(e),
            Ok(_) => None,
        },
    }
}

/// Whether `items` is the list of approved destinations.
pub open spec fn is_allowed_list(m: Store, items: Seq<Allowed>) -> bool {
    &&& allowed_error(m) is None
    &&& shows_allowed(items, allowed_in(m)->Ok_0, mappings_in(m)->Ok_0)
}

/// What the list of blocked destinations is refused for.
pub open spec fn pending_error(m: Store) -> Option<StoreError> {
    match allowed_in(m) {
        Err(e) => Some(e),
        Ok(_) => match dismissed_in(m) {
            Err(e) => Some(e),
            Ok(_) => match mappings_in(m) {
                Err(e) => Some(e),
                Ok(_) => match events_in(m) {
                    Err(e) => Some(e),
                    Ok(_) => None,
                },
            },
        },
    }
}

/// Whether `items` is the list of blocked destinations that ask for a decision.
pub open spec fn is_pending_list(m: Store, items: Seq<Pending>) -> bool {
    &&& pending_error(m) is None
    &&& pending::shows(
        items,
        events_in(m)->Ok_0,
        target_set::target_texts(allowed_in(m)->Ok_0),
        dismissed_in(m)->Ok_0,
        mappings_in(m)->Ok_0,
    )
}

/// What a session is not shown for.
pub open spec fn state_error(m: Store) -> Option<StoreError> {
    match meta_in(m) {
        Err(e) => Some(e),
        Ok(_) => match pending_error(m) {
            Some(e) => Some(e),
            None => allowed_error(m),
        },
    }
}

impl SessionStore {
    /// The store of a directory in which there are no files.
    pub fn from_dir(session_dir: String) -> (r: SessionStore)
        ensures
            r@ == (Store {
                session_dir: session_dir@,
                allowed: None,
                connectors: Stored::Missing,
                pending: None,
                dismissed: None,
                meta: Stored::Missing,
                active: Stored::Missing,
            }),
    {
        SessionStore {
            session_dir,
            allowed: None,
            connectors: Stored::Missing,
            pending: None,
            dismissed: None,
            meta: Stored::Missing,
            active: Stored::Missing,
        }
    }

    /// The directory of the session.
    pub fn session_dir(&self) -> (r: &str)
        ensures
            r@ == self@.session_dir,
    {
        self.session_dir.as_str()
    }

    /// The path of a file of the session.
    pub fn file(&self, file: StoreFile) -> (r: String)
        ensures
            r@ == paths::joined(self@.session_dir, file_name(file)),
    {
        paths::join(self.session_dir.as_str(), file.name())
    }

    /// The file of approved destinations.
    pub fn allowed_targets_file(&self) -> (r: String)
        ensures
            r@ == paths::joined(self@.session_dir, "allowed-targets.txt"@),
    {
        self.file(StoreFile::AllowedTargets)
    }

    /// The log of blocked attempts.
    pub fn pending_events_file(&self) -> (r: String)
        ensures
            r@ == paths::joined(self@.session_dir, "pending-events.jsonl"@),
    {
        self.file(StoreFile::PendingEvents)
    }

    /// The file of connectors.
    pub fn connectors_file(&self) -> (r: String)
        ensures
            r@ == paths::joined(self@.session_dir, "connectors.json"@),
    {
        self.file(StoreFile::Connectors)
    }

    /// The file that names the process of the session.
    pub fn active_process_file(&self) -> (r: String)
        ensures
            r@ == paths::joined(self@.session_dir, "active-process.json"@),
    {
        self.file(StoreFile::ActiveProcess)
    }

    /// Reads the approved targets, in order and each of them once.
    pub fn allowed_targets(&self) -> (r: Result<Vec<EgressTarget>, StoreError>)
        ensures
            match r {
                Ok(list) => allowed_in(self@) matches Ok(set) && target_set::lists(
                    target_set::targets(list@),
                    set,
                ),
                Err(e) => allowed_in(self@) == Err::<Set<Target>, StoreError>(e),
            },
    {
        match &self.allowed {
            None => Err(StoreError::ReadFailed(StoreFile::AllowedTargets)),
            Some(contents) => match target_set::parse_allowed_targets(contents.as_str()) {
                Ok(list) => Ok(list),
                Err(e) => Err(StoreError::Target(e)),
            },
        }
    }

    /// Reads the connectors, in order and one for each target.
    pub fn connector_mappings(&self) -> (r: Result<Vec<ConnectorMapping>, StoreError>)
        ensures
            match r {
                Ok(list) => mappings_in(self@) == Ok::<Seq<Mapping>, StoreError>(
                    connectors::mappings_of(list@),
                ),
                Err(e) => mappings_in(self@) == Err::<Seq<Mapping>, StoreError>(e),
            },
    {
        match &self.connectors {
            Stored::Missing => {
                let list: Vec<ConnectorMapping> = Vec::new();
                assert(connectors::mappings_of(list@) =~= Seq::<Mapping>::empty());
                Ok(list)
            },
            Stored::Malformed => Err(StoreError::ParseFailed(StoreFile::Connectors)),
            Stored::Held(held) => {
                let mut list = connectors::clone_mappings(held);
                connectors::sort_and_dedup_connector_mappings(&mut list);
                Ok(list)
            },
        }
    }

    /// Reads the addresses of the connectors, each with the text of its target.
    pub fn connector_endpoint_map(&self) -> (r: Result<Vec<(String, String)>, StoreError>)
        ensures
            match r {
                Ok(list) => mappings_in(self@) matches Ok(s) && list@.len() == s.len() && forall|
                    i: int,
                |
                    0 <= i < s.len() ==> (#[trigger] list@[i]).0@ == egress::target_text(
                        s[i].target,
                    ) && list@[i].1@ == connectors::endpoint_text(s[i].listen_port),
                Err(e) => mappings_in(self@) == Err::<Seq<Mapping>, StoreError>(e),
            },
    {
        let mappings = match self.connector_mappings() {
            Ok(mappings) => mappings,
            Err(e) => return Err(e),
        };
        let mut list: Vec<(String, String)> = Vec::new();
        let mut i: usize = 0;
        while i < mappings.len()
            invariant
                i <= mappings.len(),
                list@.len() == i,
                forall|k: int|
                    0 <= k < i ==> (#[trigger] list@[k]).0@ == egress::target_text(
                        mappings@[k]@.target,
                    ) && list@[k].1@ == connectors::endpoint_text(mappings@[k]@.listen_port),
            decreases mappings.len() - i,
        {
            list.push((mappings[i].target.to_text(), mappings[i].endpoint()));
            i = i + 1;
        }
        Ok(list)
    }

    /// Reads the dismissals, in the order of their texts.
    pub fn dismissed_map(&self) -> (r: Result<Vec<(String, u64)>, StoreError>)
        ensures
            match r {
                Ok(entries) => dismissed_in(self@) == Ok::<Map<Seq<char>, u64>, StoreError>(
                    outside::entry_map(entries@),
                ) && outside::in_key_order(entries@),
                Err(e) => dismissed_in(self@) == Err::<Map<Seq<char>, u64>, StoreError>(e),
            },
    {
        match &self.dismissed {
            None => Err(StoreError::ReadFailed(StoreFile::Dismissed)),
            Some(json) => match outside::read_number_map(json.as_str()) {
                Ok(entries) => Ok(entries),
                Err(_) => Err(StoreError::ParseFailed(StoreFile::Dismissed)),
            },
        }
    }

    /// Reads what is known of the session.
    pub fn session_meta(&self) -> (r: Result<SessionMeta, StoreError>)
        ensures
            match r {
                Ok(meta) => meta_in(self@) == Ok::<Meta, StoreError>(meta@),
                Err(e) => meta_in(self@) == Err::<Meta, StoreError>(e),
            },
    {
        match &self.meta {
            Stored::Missing => Err(StoreError::ReadFailed(StoreFile::SessionMeta)),
            Stored::Malformed => Err(StoreError::ParseFailed(StoreFile::SessionMeta)),
            Stored::Held(meta) => Ok(meta.clone()),
        }
    }

    /// Lists the texts of the approved targets, in the order of the targets.
    pub fn allowed_target_specs(&self) -> (r: Result<Vec<String>, StoreError>)
        ensures
            match r {
                Ok(list) => allowed_in(self@) matches Ok(set) && exists|ts: Seq<Target>| #[trigger]
                    target_set::lists(ts, set) && pieces::texts(list@) == ts.map_values(
                        |t: Target| egress::target_text(t),
                    ),
                Err(e) => allowed_in(self@) == Err::<Set<Target>, StoreError>(e),
            },
    {
        match self.allowed_targets() {
            Ok(targets) => Ok(target_set::target_text_list(&targets)),
            Err(e) => Err(e),
        }
    }

    /// Lists the approved destinations.
    pub fn allowed_items(&self) -> (r: Result<Vec<AllowedItem>, StoreError>)
        ensures
            match r {
                Ok(items) => is_allowed_list(self@, alloweds(items@)),
                Err(e) => allowed_error(self@) == Some(e),
            },
    {
        let mappings = match self.connector_mappings() {
            Ok(mappings) => mappings,
            Err(e) => return Err(e),
        };
        let targets = match self.allowed_targets() {
            Ok(targets) => targets,
            Err(e) => return Err(e),
        };
        let ghost ms = connectors::mappings_of(mappings@);
        let mut items: Vec<AllowedItem> = Vec::new();
        let mut i: usize = 0;
        while i < targets.len()
            invariant
                i <= targets.len(),
                ms == connectors::mappings_of(mappings@),
                items@.len() == i,
                forall|k: int|
                    0 <= k < i ==> (#[trigger] items@[k])@ == pending::allowed_item(
                        targets@[k]@,
                        connectors::endpoint_named(ms, egress::target_text(targets@[k]@)),
                    ),
            decreases targets.len() - i,
        {
            let key = targets[i].to_text();
            items.push(
                AllowedItem::from_target(
                    &targets[i],
                    connectors::endpoint_for(&mappings, key.as_str()),
                ),
            );
            i = i + 1;
        }
        proof {
            let list = alloweds(items@);
            assert forall|k: int| 0 <= k < list.len() implies item_target(#[trigger] list[k])
                == targets@[k]@ by {
                assert(list[k] == items@[k]@);
                assert(item_target(list[k]) =~= targets@[k]@);
            }
            assert(item_targets(list) =~= target_set::targets(targets@));
        }
        Ok(items)
    }

    /// Lists the blocked destinations that ask for a decision.
    pub fn pending_items(&self) -> (r: Result<Vec<PendingItem>, StoreError>)
        ensures
            match r {
                Ok(items) => is_pending_list(self@, pending::pendings(items@)),
                Err(e) => pending_error(self@) == Some(e),
            },
    {
        let targets = match self.allowed_targets() {
            Ok(targets) => targets,
            Err(e) => return Err(e),
        };
        let dismissed = match self.dismissed_map() {
            Ok(dismissed) => dismissed,
            Err(e) => return Err(e),
        };
        let mappings = match self.connector_mappings() {
            Ok(mappings) => mappings,
            Err(e) => return Err(e),
        };
        let log = match &self.pending {
            Some(log) => log,
            None => return Err(StoreError::ReadFailed(StoreFile::PendingEvents)),
        };
        let allowed = target_set::target_text_list(&targets);
        proof {
            target_set::texts_of_list(target_set::targets(targets@));
        }
        match pending::open_items(log, &allowed, &dismissed, &mappings) {
            Ok(items) => Ok(items),
            Err(PendingError::Malformed(line)) => Err(StoreError::PendingLine(line)),
            Err(PendingError::Target(e)) => Err(StoreError::Target(e)),
        }
    }

    /// Reads the session as it is shown.
    pub fn load_state(&self) -> (r: Result<SessionState, StoreError>)
        ensures
            match r {
                Ok(state) => state_error(self@) is None && meta_in(self@) == Ok::<Meta, StoreError>(
                    state.session@,
                ) && is_pending_list(self@, pending::pendings(state.pending@)) && is_allowed_list(
                    self@,
                    alloweds(state.allowed@),
                ),
                Err(e) => state_error(self@) == Some(e),
            },
    {
        let session = match self.session_meta() {
            Ok(session) => session,
            Err(e) => return Err(e),
        };
        let pending = match self.pending_items() {
            Ok(pending) => pending,
            Err(e) => return Err(e),
        };
        match self.allowed_items() {
            Ok(allowed) => Ok(SessionState { session, pending, allowed }),
            Err(e) => Err(e),
        }
    }
}

// ---------------------------------------------------------------------------
// Changing the state
// ---------------------------------------------------------------------------

/// The list of a set of targets in order.
pub open spec fn target_list(set: Set<Target>) -> Seq<Target> {
    choose|s: Seq<Target>| target_set::lists(s, set)
}

/// The file that holds a set of targets.
pub open spec fn target_file(set: Set<Target>) -> Seq<char> {
    target_set::target_lines(target_list(set))
}

/// A list of a set in order is the list of the set.
pub proof fn target_list_is(s: Seq<Target>, set: Set<Target>)
    requires
        target_set::lists(s, set),
    ensures
        target_list(set) == s,
{
    target_set::list_is_unique(s, target_list(set), set);
}

/// What is done to the approved targets.
#[derive(Debug, Clone, Copy, PartialEq, Eq, Structural)]
pub enum TargetChange {
    Insert,
    Remove,
}

/// A set of targets after a change.
pub open spec fn changed(set: Set<Target>, change: TargetChange, t: Target) -> Set<Target> {
    match change {
        TargetChange::Insert => set.insert(t),
        TargetChange::Remove => set.remove(t),
    }
}

/// One change to one file of a session.
#[derive(Debug)]
pub enum StoreStep {
    EnsureConnector(EgressTarget),
    RemoveConnector(EgressTarget),
    ChangeAllowed(TargetChange, EgressTarget),
    Acknowledge(String),
}

/// What a [`StoreStep`] denotes.
pub enum Step {
    EnsureConnector(Target),
    RemoveConnector(Target),
    ChangeAllowed(TargetChange, Target),
    Acknowledge(Seq<char>),
}

impl View for StoreStep {
    type V = Step;

    open spec fn view(&self) -> Step {
        match self {
            StoreStep::EnsureConnector(t) => Step::EnsureConnector(t@),
            StoreStep::RemoveConnector(t) => Step::RemoveConnector(t@),
            StoreStep::ChangeAllowed(change, t) => Step::ChangeAllowed(*change, t@),
            StoreStep::Acknowledge(key) => Step::Acknowledge(key@),
        }
    }
}

impl StoreStep {
    /// The file that the step reads and writes.
    pub fn file(&self) -> (r: StoreFile)
        ensures
            r == (match self@ {
                Step::EnsureConnector(_) => StoreFile::Connectors,
                Step::RemoveConnector(_) => StoreFile::Connectors,
                Step::ChangeAllowed(_, _) => StoreFile::AllowedTargets,
                Step::Acknowledge(_) => StoreFile::Dismissed,
            }),
    {
        match self {
            StoreStep::EnsureConnector(_) => StoreFile::Connectors,
            StoreStep::RemoveConnector(_) => StoreFile::Connectors,
            StoreStep::ChangeAllowed(_, _) => StoreFile::AllowedTargets,
            StoreStep::Acknowledge(_) => StoreFile::Dismissed,
        }
    }
}

/// The state after a connector was assigned to a target.
pub open spec fn after_connector(m: Store, t: Target) -> Result<Store, StoreError> {
    match mappings_in(m) {
        Err(e) => Err(e),
        Ok(s) => match connectors::ensured(s, t) {
            Err(e) => Err(StoreError::Target(e)),
            Ok(_) => Ok(Store { connectors: Stored::Held(connectors::after_ensure(s, t)), ..m }),
        },
    }
}

/// Whether there is a connector to take away for a target.
pub open spec fn has_connector(m: Store, t: Target) -> bool {
    match mappings_in(m) {
        Err(_) => false,
        Ok(s) => connectors::table_of(connectors::without_target(s, t)).len() != s.len(),
    }
}

/// The state after the connector of a target was taken away. Nothing is written where there was
/// none.
pub open spec fn after_removal(m: Store, t: Target) -> Result<Store, StoreError> {
    match mappings_in(m) {
        Err(e) => Err(e),
        Ok(s) => {
            let kept = connectors::table_of(connectors::without_target(s, t));
            if has_connector(m, t) {
                Ok(Store { connectors: Stored::Held(kept), ..m })
            } else {
                Ok(m)
            }
        },
    }
}

/// The state after the approved targets were changed.
pub open spec fn after_change(m: Store, change: TargetChange, t: Target) -> Result<
    Store,
    StoreError,
> {
    match allowed_in(m) {
        Err(e) => Err(e),
        Ok(set) => Ok(Store { allowed: Some(target_file(changed(set, change, t))), ..m }),
    }
}

/// The state after the attempts up to `now` to reach the target with text `key` were dismissed.
pub open spec fn after_acknowledge(m: Store, key: Seq<char>, now: u64) -> Result<
    Store,
    StoreError,
> {
    match dismissed_in(m) {
        Err(e) => Err(e),
        Ok(map) => Ok(Store { dismissed: Some(dismissals_file(map.insert(key, now))), ..m }),
    }
}

/// The state after a step.
pub open spec fn after_step(m: Store, step: Step, now: u64) -> Result<Store, StoreError> {
    match step {
        Step::EnsureConnector(t) => after_connector(m, t),
        Step::RemoveConnector(t) => after_removal(m, t),
        Step::ChangeAllowed(change, t) => after_change(m, change, t),
        Step::Acknowledge(key) => after_acknowledge(m, key, now),
    }
}

/// Whether a step writes its file: only the removal of a connector that is not there does not.
pub open spec fn writes_file(m: Store, step: Step) -> bool {
    match step {
        Step::RemoveConnector(t) => has_connector(m, t),
        _ => true,
    }
}

/// The state after steps, of which the first that fails is the last that is tried.
pub open spec fn after_steps(m: Store, steps: Seq<Step>, now: u64) -> (
    Store,
    Result<(), StoreError>,
)
    decreases steps.len(),
{
    if steps.len() == 0 {
        (m, Ok(()))
    } else {
        match after_step(m, steps[0], now) {
            Err(e) => (m, Err(e)),
            Ok(next) => after_steps(next, steps.drop_first(), now),
        }
    }
}

/// What the steps of a list denote.
pub open spec fn steps_of(v: Seq<StoreStep>) -> Seq<Step> {
    Seq::new(v.len(), |i: int| v[i]@)
}

/// The steps that approve a target.
pub open spec fn allow_steps_of(t: Target) -> Seq<Step> {
    let rest = seq![
        Step::ChangeAllowed(TargetChange::Insert, t),
        Step::Acknowledge(egress::target_text(t)),
    ];
    if egress::is_connector_kind(t.kind) {
        seq![Step::EnsureConnector(t)] + rest
    } else {
        rest
    }
}

/// The steps that reject a target.
pub open spec fn deny_steps_of(t: Target) -> Seq<Step> {
    let remove = seq![Step::ChangeAllowed(TargetChange::Remove, t)];
    let acknowledge = seq![Step::Acknowledge(egress::target_text(t))];
    if egress::is_connector_kind(t.kind) {
        remove + seq![Step::RemoveConnector(t)] + acknowledge
    } else {
        remove + acknowledge
    }
}

/// The steps that dismiss the attempts to reach a target.
pub open spec fn dismiss_steps_of(t: Target) -> Seq<Step> {
    seq![Step::Acknowledge(egress::target_text(t))]
}

/// What is decided about a destination.
#[derive(Debug, Clone, Copy, PartialEq, Eq, Structural)]
pub enum Decision {
    Allow,
    Deny,
    Dismiss,
}

/// The steps of a decision about a target.
pub open spec fn decision_steps(decision: Decision, t: Target) -> Seq<Step> {
    match decision {
        Decision::Allow => allow_steps_of(t),
        Decision::Deny => deny_steps_of(t),
        Decision::Dismiss => dismiss_steps_of(t),
    }
}

/// Lists the steps of a decision about a destination.
pub fn steps_for(decision: Decision, target: &str) -> (r: Result<Vec<StoreStep>, StoreError>)
    ensures
        match egress::target_named(target@) {
            Err(e) => r == Err::<Vec<StoreStep>, StoreError>(StoreError::Target(e)),
            Ok(t) => r is Ok && steps_of(r->Ok_0@) == decision_steps(decision, t),
        },
{
    let target = match egress::parse_target_spec(target) {
        Ok(target) => target,
        Err(e) => return Err(StoreError::Target(e)),
    };
    let mut steps: Vec<StoreStep> = Vec::new();
    match decision {
        Decision::Allow => {
            if target.uses_connector() {
                steps.push(StoreStep::EnsureConnector(target.clone()));
            }
            steps.push(StoreStep::ChangeAllowed(TargetChange::Insert, target.clone()));
        },
        Decision::Deny => {
            steps.push(StoreStep::ChangeAllowed(TargetChange::Remove, target.clone()));
            if target.uses_connector() {
                steps.push(StoreStep::RemoveConnector(target.clone()));
            }
        },
        Decision::Dismiss => {},
    }
    steps.push(StoreStep::Acknowledge(target.to_text()));
    assert(steps_of(steps@) =~= decision_steps(decision, target@));
    Ok(steps)
}

/// The state after a decision about a destination.
pub open spec fn decided(m: Store, decision: Decision, target: Seq<char>, now: u64) -> (
    Store,
    Result<(), StoreError>,
) {
    match egress::target_named(target) {
        Err(e) => (m, Err(StoreError::Target(e))),
        Ok(t) => after_steps(m, decision_steps(decision, t), now),
    }
}

/// The result of a change that leaves no value.
pub open spec fn unit_result(r: Result<Store, StoreError>) -> Result<(), StoreError> {
    match r {
        Ok(_) => Ok(()),
        Err(e) => Err(e),
    }
}

/// The state after a change that leaves it as it is where it fails.
pub open spec fn state_result(m: Store, r: Result<Store, StoreError>) -> Store {
    match r {
        Ok(next) => next,
        Err(_) => m,
    }
}

/// The state after a process was recorded as running the session.
pub open spec fn marked_active(m: Store, pid: u32, started_epoch: u64) -> Store {
    Store { active: Stored::Held(ActiveProcessInfo { pid, started_epoch }), ..m }
}

/// The state without a record of a process.
pub open spec fn unmarked(m: Store) -> Store {
    Store { active: Stored::Missing, ..m }
}

/// Whether the session is active, where `running` tells whether the recorded process runs.
pub open spec fn activity_in(m: Store, running: bool) -> Result<bool, StoreError> {
    match m.active {
        Stored::Missing => Ok(false),
        Stored::Malformed => Err(StoreError::ParseFailed(StoreFile::ActiveProcess)),
        Stored::Held(_) => Ok(running),
    }
}

/// The state after it was tested whether the session is active: the record of a process that does
/// not run is removed.
pub open spec fn after_activity_test(m: Store, running: bool) -> Store {
    if m.active is Held && !running {
        unmarked(m)
    } else {
        m
    }
}

/// A session is active from when its process is recorded for as long as the process runs, until
/// the record is removed. A record of a process that ended goes with the next test.
pub proof fn session_is_active_while_marked(m: Store, pid: u32, started_epoch: u64, running: bool)
    ensures
        activity_in(marked_active(m, pid, started_epoch), true) == Ok::<bool, StoreError>(true),
        after_activity_test(marked_active(m, pid, started_epoch), true) == marked_active(
            m,
            pid,
            started_epoch,
        ),
        activity_in(unmarked(marked_active(m, pid, started_epoch)), running) == Ok::<
            bool,
            StoreError,
        >(false),
        activity_in(marked_active(m, pid, started_epoch), false) == Ok::<bool, StoreError>(false),
        after_activity_test(marked_active(m, pid, started_epoch), false) == unmarked(m),
{
}

impl SessionStore {
    /// Changes the approved targets.
    pub fn update_allowed_targets(&mut self, change: TargetChange, target: &EgressTarget) -> (r:
        Result<(), StoreError>)
        ensures
            r == unit_result(after_change(old(self)@, change, target@)),
            final(self)@ == state_result(old(self)@, after_change(old(self)@, change, target@)),
    {
        let mut targets = match self.allowed_targets() {
            Ok(targets) => targets,
            Err(e) => return Err(e),
        };
        let ghost set = allowed_in(self@)->Ok_0;
        match change {
            TargetChange::Insert => {
                target_set::insert_target(&mut targets, target.clone());
            },
            TargetChange::Remove => {
                target_set::remove_target(&mut targets, target);
            },
        }
        proof {
            target_list_is(target_set::targets(targets@), changed(set, change, target@));
        }
        self.allowed = Some(target_set::serialize_target_set(&targets));
        Ok(())
    }

    /// Dismisses the attempts up to `now` to reach the target with text `target`. The file then
    /// holds the pretty-printed JSON of the dismissals and a line feed.
    pub fn acknowledge_target(&mut self, target: &str, now: u64) -> (r: Result<(), StoreError>)
        ensures
            r == unit_result(after_acknowledge(old(self)@, target@, now)),
            final(self)@ == state_result(old(self)@, after_acknowledge(old(self)@, target@, now)),
    {
        let mut entries = match self.dismissed_map() {
            Ok(entries) => entries,
            Err(e) => return Err(e),
        };
        dismissals::put_entry(&mut entries, target, now);
        match outside::write_number_map(&entries) {
            Ok(json) => {
                let mut json = json;
                let ghost text = json@;
                json.push('\n');
                assert(json@ =~= text + seq!['\n']);
                self.dismissed = Some(json);
                Ok(())
            },
            Err(_) => Err(StoreError::ParseFailed(StoreFile::Dismissed)),
        }
    }

    /// Finds the connector of a target, or assigns one.
    pub fn ensure_connector_for_target(&mut self, target: &EgressTarget) -> (r: Result<
        ConnectorMapping,
        StoreError,
    >)
        ensures
            match r {
                Ok(mapping) => after_connector(old(self)@, target@) is Ok && connectors::ensured(
                    mappings_in(old(self)@)->Ok_0,
                    target@,
                ) == Ok::<Mapping, EgressError>(mapping@),
                Err(e) => after_connector(old(self)@, target@) == Err::<Store, StoreError>(e),
            },
            final(self)@ == state_result(old(self)@, after_connector(old(self)@, target@)),
    {
        let mut mappings = match self.connector_mappings() {
            Ok(mappings) => mappings,
            Err(e) => return Err(e),
        };
        match connectors::ensure_connector_mapping(&mut mappings, target) {
            Ok(mapping) => {
                self.connectors = Stored::Held(mappings);
                Ok(mapping)
            },
            Err(e) => Err(StoreError::Target(e)),
        }
    }

    /// Takes away the connector of a target, and tells whether there was one.
    fn drop_connector(&mut self, target: &EgressTarget) -> (r: Result<bool, StoreError>)
        ensures
            match after_removal(old(self)@, target@) {
                Ok(_) => r == Ok::<bool, StoreError>(has_connector(old(self)@, target@)),
                Err(e) => r == Err::<bool, StoreError>(e),
            },
            final(self)@ == state_result(old(self)@, after_removal(old(self)@, target@)),
    {
        let mut mappings = match self.connector_mappings() {
            Ok(mappings) => mappings,
            Err(e) => return Err(e),
        };
        if connectors::remove_connector_mapping(&mut mappings, target) {
            self.connectors = Stored::Held(mappings);
            Ok(true)
        } else {
            Ok(false)
        }
    }

    /// Takes away the connector of a target.
    pub fn remove_connector_for_target(&mut self, target: &EgressTarget) -> (r: Result<
        (),
        StoreError,
    >)
        ensures
            r == unit_result(after_removal(old(self)@, target@)),
            final(self)@ == state_result(old(self)@, after_removal(old(self)@, target@)),
    {
        match self.drop_connector(target) {
            Ok(_) => Ok(()),
            Err(e) => Err(e),
        }
    }

    /// Finds the connector of a destination, or assigns one.
    pub fn ensure_connector_endpoint(&mut self, target: &str) -> (r: Result<
        ConnectorMapping,
        StoreError,
    >)
        ensures
            match egress::target_named(target@) {
                Err(e) => r == Err::<ConnectorMapping, StoreError>(StoreError::Target(e))
                    && final(self)@ == old(self)@,
                Ok(t) => {
                    &&& final(self)@ == state_result(old(self)@, after_connector(old(self)@, t))
                    &&& match r {
                        Ok(mapping) => after_connector(old(self)@, t) is Ok && connectors::ensured(
                            mappings_in(old(self)@)->Ok_0,
                            t,
                        ) == Ok::<Mapping, EgressError>(mapping@),
                        Err(e) => after_connector(old(self)@, t) == Err::<Store, StoreError>(e),
                    }
                },
            },
    {
        match egress::parse_target_spec(target) {
            Ok(target) => self.ensure_connector_for_target(&target),
            Err(e) => Err(StoreError::Target(e)),
        }
    }

    /// Takes one step, and tells whether the file of the step is to be written.
    pub fn apply_step(&mut self, step: &StoreStep, now: u64) -> (r: Result<bool, StoreError>)
        ensures
            match after_step(old(self)@, step@, now) {
                Ok(_) => r == Ok::<bool, StoreError>(writes_file(old(self)@, step@)),
                Err(e) => r == Err::<bool, StoreError>(e),
            },
            final(self)@ == state_result(old(self)@, after_step(old(self)@, step@, now)),
    {
        match step {
            StoreStep::EnsureConnector(target) => match self.ensure_connector_for_target(target) {
                Ok(_) => Ok(true),
                Err(e) => Err(e),
            },
            StoreStep::RemoveConnector(target) => self.drop_connector(target),
            StoreStep::ChangeAllowed(change, target) => match self.update_allowed_targets(
                *change,
                target,
            ) {
                Ok(()) => Ok(true),
                Err(e) => Err(e),
            },
            StoreStep::Acknowledge(key) => match self.acknowledge_target(key.as_str(), now) {
                Ok(()) => Ok(true),
                Err(e) => Err(e),
            },
        }
    }

    /// Decides about a destination.
    pub fn decide(&mut self, decision: Decision, target: &str, now: u64) -> (r: Result<
        (),
        StoreError,
    >)
        ensures
            (final(self)@, r) == decided(old(self)@, decision, target@, now),
    {
        let steps = match steps_for(decision, target) {
            Ok(steps) => steps,
            Err(e) => return Err(e),
        };
        let ghost all = steps_of(steps@);
        let mut i: usize = 0;
        assert(all.skip(0) =~= all);
        while i < steps.len()
            invariant
                i <= steps.len(),
                all == steps_of(steps@),
                after_steps(self@, all.skip(i as int), now) == after_steps(old(self)@, all, now),
                decided(old(self)@, decision, target@, now) == after_steps(old(self)@, all, now),
            decreases steps.len() - i,
        {
            proof {
                assert(all.skip(i as int)[0] == steps@[i as int]@);
                assert(all.skip(i as int).drop_first() =~= all.skip(i + 1));
            }
            match self.apply_step(&steps[i], now) {
                Ok(_) => {},
                Err(e) => return Err(e),
            }
            i = i + 1;
        }
        assert(all.skip(i as int) =~= Seq::<Step>::empty());
        Ok(())
    }

    /// Approves a destination.
    pub fn allow_target(&mut self, target: &str, now: u64) -> (r: Result<(), StoreError>)
        ensures
            (final(self)@, r) == decided(old(self)@, Decision::Allow, target@, now),
    {
        self.decide(Decision::Allow, target, now)
    }

    /// Rejects a destination.
    pub fn deny_target(&mut self, target: &str, now: u64) -> (r: Result<(), StoreError>)
        ensures
            (final(self)@, r) == decided(old(self)@, Decision::Deny, target@, now),
    {
        self.decide(Decision::Deny, target, now)
    }

    /// Dismisses the attempts up to `now` to reach a destination.
    pub fn dismiss_target(&mut self, target: &str, now: u64) -> (r: Result<(), StoreError>)
        ensures
            (final(self)@, r) == decided(old(self)@, Decision::Dismiss, target@, now),
    {
        self.decide(Decision::Dismiss, target, now)
    }

    /// Records what is known of the session.
    pub fn write_session_meta(&mut self, payload: &SessionMeta)
        ensures
            final(self)@ == (Store { meta: Stored::Held(payload@), ..old(self)@ }),
    {
        self.meta = Stored::Held(payload.clone());
    }

    /// Records the process that runs the session.
    pub fn mark_active(&mut self, pid: u32, started_epoch: u64)
        ensures
            final(self)@ == marked_active(old(self)@, pid, started_epoch),
    {
        self.active = Stored::Held(ActiveProcessInfo { pid, started_epoch });
    }

    /// The process that is recorded as running the session.
    pub fn active_pid(&self) -> (r: Result<Option<u32>, StoreError>)
        ensures
            r == (match self@.active {
                Stored::Missing => Ok(None),
                Stored::Malformed => Err(StoreError::ParseFailed(StoreFile::ActiveProcess)),
                Stored::Held(info) => Ok::<Option<u32>, StoreError>(Some(info.pid)),
            }),
    {
        match &self.active {
            Stored::Missing => Ok(None),
            Stored::Malformed => Err(StoreError::ParseFailed(StoreFile::ActiveProcess)),
            Stored::Held(info) => Ok(Some(info.pid)),
        }
    }

    /// Tests whether the session is active, where `running` tells whether the recorded process
    /// runs. The record of a process that does not run is removed; one that cannot be read stays.
    pub fn is_active_session(&mut self, running: bool) -> (r: Result<bool, StoreError>)
        ensures
            r == activity_in(old(self)@, running),
            final(self)@ == after_activity_test(old(self)@, running),
    {
        match &self.active {
            Stored::Missing => Ok(false),
            Stored::Malformed => Err(StoreError::ParseFailed(StoreFile::ActiveProcess)),
            Stored::Held(_) => {
                if !running {
                    self.active = Stored::Missing;
                }
                Ok(running)
            },
        }
    }
}

// ---------------------------------------------------------------------------
// A new session
// ---------------------------------------------------------------------------

/// An `https` target at the default port.
pub open spec fn https_target(host: Seq<char>) -> Target {
    Target { kind: EgressKind::Https, host, port: 443 }
}

/// The targets that every new session may reach.
pub open spec fn default_targets() -> Seq<Target> {
    seq![
        https_target("api.github.com"@),
        https_target("api.business.githubcopilot.com"@),
        https_target("telemetry.business.githubcopilot.com"@),
    ]
}

/// The targets that a new session may reach, where `user` is the file of user defaults.
pub open spec fn initial_targets(user: Option<Seq<char>>) -> Result<Set<Target>, EgressError> {
    match user {
        None => Ok(default_targets().to_set()),
        Some(contents) => match target_set::target_set_of(contents) {
            Ok(set) => Ok(default_targets().to_set().union(set)),
            Err(e) => Err(e),
        },
    }
}

/// The state with each missing file filled in, the approved targets with `contents`.
pub open spec fn filled(m: Store, contents: Seq<char>) -> Store {
    Store {
        allowed: match m.allowed {
            None => Some(contents),
            Some(held) => Some(held),
        },
        connectors: match m.connectors {
            Stored::Missing => Stored::Held(Seq::empty()),
            held => held,
        },
        pending: match m.pending {
            None => Some(Log { lines: Seq::empty(), complete: false }),
            Some(held) => Some(held),
        },
        dismissed: match m.dismissed {
            None => Some(Dismissals { text: "{}\n"@, held: Some(Map::empty()) }),
            Some(held) => Some(held),
        },
        ..m
    }
}

/// The state after a session was set up.
pub open spec fn initialized(m: Store, user: Option<Seq<char>>) -> Result<Store, StoreError> {
    match (m.allowed, initial_targets(user)) {
        (Some(held), _) => Ok(filled(m, held)),
        (None, Ok(set)) => Ok(filled(m, target_file(set))),
        (None, Err(e)) => Err(StoreError::Target(e)),
    }
}

/// The text of an `https` target whose host is made of lower-case letters and dots.
proof fn plain_target(host: Seq<char>, t: Seq<char>)
    requires
        host.len() > 0,
        forall|i: int| 0 <= i < host.len() ==> text::is_lower(#[trigger] host[i]) || host[i] == '.',
        host[0] != '.',
        host.last() != '.',
        t == "https://"@ + host + ":443"@,
    ensures
        egress::target_named(t) == Ok::<Target, EgressError>(https_target(host)),
{
    let target = https_target(host);
    reveal_strlit("https");
    reveal_strlit("https://");
    reveal_strlit("://");
    reveal_strlit(":");
    reveal_strlit(":443");
    assert(!host.contains(':'));
    assert(!egress::ends_in_port(host)) by {
        text::rfind_is_last(host, ':');
    }
    assert(canonical::is_canonical(target));
    reveal_with_fuel(number::decimal, 3);
    assert(number::decimal(443) =~= seq!['4', '4', '3']);
    assert(egress::target_text(target) =~= t);
    canonical::target_text_round_trip(target);
}

/// The built-in destinations name the default targets.
pub proof fn built_in_defaults()
    ensures
        egress::target_named(DEFAULT_ALLOWED_TARGETS[0]@) == Ok::<Target, EgressError>(
            https_target("api.github.com"@),
        ),
        egress::target_named(DEFAULT_ALLOWED_TARGETS[1]@) == Ok::<Target, EgressError>(
            https_target("api.business.githubcopilot.com"@),
        ),
        egress::target_named(DEFAULT_ALLOWED_TARGETS[2]@) == Ok::<Target, EgressError>(
            https_target("telemetry.business.githubcopilot.com"@),
        ),
{
    github_default();
    business_default();
    telemetry_default();
}

proof fn github_default()
    ensures
        egress::target_named("https://api.github.com:443"@) == Ok::<Target, EgressError>(
            https_target("api.github.com"@),
        ),
{
    reveal_strlit("https://");
    reveal_strlit(":443");
    reveal_strlit("api.github.com");
    reveal_strlit("https://api.github.com:443");
    assert("https://api.github.com:443"@ =~= "https://"@ + "api.github.com"@ + ":443"@);
    plain_target("api.github.com"@, "https://api.github.com:443"@);
}

proof fn business_default()
    ensures
        egress::target_named("https://api.business.githubcopilot.com:443"@) == Ok::<
            Target,
            EgressError,
        >(https_target("api.business.githubcopilot.com"@)),
{
    reveal_strlit("https://");
    reveal_strlit(":443");
    reveal_strlit("api.business.githubcopilot.com");
    reveal_strlit("https://api.business.githubcopilot.com:443");
    assert("https://api.business.githubcopilot.com:443"@ =~= "https://"@
        + "api.business.githubcopilot.com"@ + ":443"@);
    plain_target("api.business.githubcopilot.com"@, "https://api.business.githubcopilot.com:443"@);
}

proof fn telemetry_default()
    ensures
        egress::target_named("https://telemetry.business.githubcopilot.com:443"@) == Ok::<
            Target,
            EgressError,
        >(https_target("telemetry.business.githubcopilot.com"@)),
{
    reveal_strlit("https://");
    reveal_strlit(":443");
    reveal_strlit("telemetry.business.githubcopilot.com");
    reveal_strlit("https://telemetry.business.githubcopilot.com:443");
    assert("https://telemetry.business.githubcopilot.com:443"@ =~= "https://"@
        + "telemetry.business.githubcopilot.com"@ + ":443"@);
    plain_target(
        "telemetry.business.githubcopilot.com"@,
        "https://telemetry.business.githubcopilot.com:443"@,
    );
}

/// Adds the target of a built-in destination.
fn push_default(list: &mut Vec<EgressTarget>, text: &str) -> (r: Result<(), EgressError>)
    ensures
        match egress::target_named(text@) {
            Ok(t) => r is Ok && target_set::targets(final(list)@) == target_set::targets(
                old(list)@,
            ).push(t),
            Err(e) => r == Err::<(), EgressError>(e) && final(list)@ == old(list)@,
        },
{
    match egress::parse_target_spec(text) {
        Ok(target) => {
            let ghost before = list@;
            list.push(target);
            assert(target_set::targets(list@) =~= target_set::targets(before).push(target@));
            Ok(())
        },
        Err(e) => Err(e),
    }
}

/// Lists the default targets.
fn default_target_list() -> (r: Result<Vec<EgressTarget>, EgressError>)
    ensures
        r is Ok,
        target_set::targets(r->Ok_0@) == default_targets(),
{
    proof {
        built_in_defaults();
    }
    let mut list: Vec<EgressTarget> = Vec::new();
    assert(target_set::targets(list@) =~= Seq::<Target>::empty());
    if let Err(e) = push_default(&mut list, DEFAULT_ALLOWED_TARGETS[0]) {
        return Err(e);
    }
    if let Err(e) = push_default(&mut list, DEFAULT_ALLOWED_TARGETS[1]) {
        return Err(e);
    }
    if let Err(e) = push_default(&mut list, DEFAULT_ALLOWED_TARGETS[2]) {
        return Err(e);
    }
    assert(target_set::targets(list@) =~= default_targets());
    Ok(list)
}

/// Collects the targets that a new session may reach.
fn initial_target_list(user: &Option<String>) -> (r: Result<Vec<EgressTarget>, EgressError>)
    ensures
        match r {
            Ok(list) => initial_targets(connectors::opt_text(*user)) matches Ok(set)
                && target_set::lists(target_set::targets(list@), set),
            Err(e) => initial_targets(connectors::opt_text(*user)) == Err::<
                Set<Target>,
                EgressError,
            >(e),
        },
{
    let mut list = match default_target_list() {
        Ok(list) => list,
        Err(e) => return Err(e),
    };
    match user {
        None => {},
        Some(contents) => {
            let mut more = match target_set::parse_allowed_targets(contents.as_str()) {
                Ok(more) => more,
                Err(e) => return Err(e),
            };
            let ghost a = target_set::targets(list@);
            let ghost b = target_set::targets(more@);
            list.append(&mut more);
            proof {
                let c = target_set::targets(list@);
                assert(c =~= a + b);
                assert forall|x: Target| c.contains(x) <==> a.contains(x) || b.contains(x) by {
                    if a.contains(x) {
                        let k = choose|k: int| 0 <= k < a.len() && a[k] == x;
                        assert(c[k] == x);
                    }
                    if b.contains(x) {
                        let k = choose|k: int| 0 <= k < b.len() && b[k] == x;
                        assert(c[a.len() + k] == x);
                    }
                }
                assert(c.to_set() =~= a.to_set().union(b.to_set()));
            }
        },
    }
    Ok(target_set::sorted_targets(list))
}

impl SessionStore {
    /// Sets up the session: each file that is missing is made, and those that are there stay as
    /// they are. A new session may reach the built-in destinations and the user defaults.
    pub fn initialize(&mut self, config: &AppConfig) -> (r: Result<(), StoreError>)
        ensures
            r == unit_result(initialized(old(self)@, connectors::opt_text(config.user_defaults))),
            final(self)@ == state_result(
                old(self)@,
                initialized(old(self)@, connectors::opt_text(config.user_defaults)),
            ),
    {
        if self.allowed.is_none() {
            let targets = match initial_target_list(&config.user_defaults) {
                Ok(targets) => targets,
                Err(e) => return Err(StoreError::Target(e)),
            };
            proof {
                target_list_is(
                    target_set::targets(targets@),
                    initial_targets(connectors::opt_text(config.user_defaults))->Ok_0,
                );
            }
            self.allowed = Some(target_set::serialize_target_set(&targets));
        }
        if let Stored::Missing = self.connectors {
            let none: Vec<ConnectorMapping> = Vec::new();
            assert(connectors::mappings_of(none@) =~= Seq::<Mapping>::empty());
            self.connectors = Stored::Held(none);
        }
        if self.pending.is_none() {
            let log = PendingLog { records: Vec::new(), complete: false };
            assert(log@.lines =~= Seq::<pending::Line>::empty());
            self.pending = Some(log);
        }
        if self.dismissed.is_none() {
            let none = "{}\n".to_string();
            let read_back = outside::read_number_map(none.as_str());
            assert(outside::number_map_in(none@) == Some(Map::<Seq<char>, u64>::empty()));
            self.dismissed = Some(none);
        }
        Ok(())
    }
}

// ---------------------------------------------------------------------------
// Laws
// ---------------------------------------------------------------------------

/// Every file of a session has a name of its own.
pub proof fn files_have_their_names(a: StoreFile, b: StoreFile)
    ensures
        file_name(StoreFile::AllowedTargets) == "allowed-targets.txt"@,
        file_name(StoreFile::Connectors) == "connectors.json"@,
        file_name(StoreFile::PendingEvents) == "pending-events.jsonl"@,
        file_name(StoreFile::Dismissed) == "dismissed.json"@,
        file_name(StoreFile::SessionMeta) == "session-meta.json"@,
        file_name(StoreFile::ActiveProcess) == "active-process.json"@,
        file_name(a) == file_name(b) ==> a == b,
{
    reveal_strlit("allowed-targets.txt");
    reveal_strlit("connectors.json");
    reveal_strlit("pending-events.jsonl");
    reveal_strlit("dismissed.json");
    reveal_strlit("session-meta.json");
    reveal_strlit("active-process.json");
    assert("allowed-targets.txt"@[1] == 'l' && "active-process.json"@[1] == 'c');
    assert("connectors.json"@[0] == 'c' && "pending-events.jsonl"@[0] == 'p'
        && "dismissed.json"@[0] == 'd' && "session-meta.json"@[0] == 's');
}

/// Each step changes one file and leaves the others as they are: a step for a connector the
/// connectors, a change to the approved targets those, and a dismissal the dismissals. A step that
/// fails changes nothing, and neither does one that does not write its file.
pub proof fn step_changes_one_file(m: Store, step: Step, now: u64)
    ensures
        after_step(m, step, now) matches Ok(next) ==> {
            &&& next.session_dir == m.session_dir && next.pending == m.pending && next.meta
                == m.meta && next.active == m.active
            &&& step is EnsureConnector || step is RemoveConnector ==> next.allowed == m.allowed
                && next.dismissed == m.dismissed
            &&& step is ChangeAllowed ==> next.connectors == m.connectors && next.dismissed
                == m.dismissed
            &&& step is Acknowledge ==> next.connectors == m.connectors && next.allowed == m.allowed
            &&& !writes_file(m, step) ==> next == m
        },
        step is ChangeAllowed || step is Acknowledge || step is EnsureConnector ==> writes_file(
            m,
            step,
        ),
{
}

/// Steps are taken one after the other until one fails: what steps come to is what the first ones
/// come to and, where they succeed, the rest.
pub proof fn steps_are_taken_in_turn(m: Store, first: Seq<Step>, rest: Seq<Step>, now: u64)
    ensures
        after_steps(m, first + rest, now) == (match after_steps(m, first, now) {
            (next, Ok(())) => after_steps(next, rest, now),
            (next, Err(e)) => (next, Err(e)),
        }),
    decreases first.len(),
{
    if first.len() == 0 {
        assert(first + rest =~= rest);
    } else {
        assert((first + rest)[0] == first[0]);
        assert((first + rest).drop_first() =~= first.drop_first() + rest);
        match after_step(m, first[0], now) {
            Err(_) => {},
            Ok(next) => steps_are_taken_in_turn(next, first.drop_first(), rest, now),
        }
    }
}

/// A session is shown just where all of its files can be read; else it is refused with the error of
/// the first that cannot: what is known of it, then its approved targets, its dismissals, its
/// connectors and its log.
pub proof fn first_unreadable_file_decides(m: Store)
    ensures
        state_error(m) is None <==> meta_in(m) is Ok && allowed_in(m) is Ok && dismissed_in(m) is Ok
            && mappings_in(m) is Ok && events_in(m) is Ok,
        meta_in(m) matches Err(e) ==> state_error(m) == Some(e),
        meta_in(m) is Ok && allowed_in(m) is Err ==> state_error(m) == Some(allowed_in(m)->Err_0),
        meta_in(m) is Ok && allowed_in(m) is Ok && dismissed_in(m) is Err ==> state_error(m)
            == Some(dismissed_in(m)->Err_0),
        meta_in(m) is Ok && allowed_in(m) is Ok && dismissed_in(m) is Ok && mappings_in(m) is Err
            ==> state_error(m) == Some(mappings_in(m)->Err_0),
        meta_in(m) is Ok && allowed_in(m) is Ok && dismissed_in(m) is Ok && mappings_in(m) is Ok
            && events_in(m) is Err ==> state_error(m) == Some(events_in(m)->Err_0),
        allowed_error(m) is None <==> mappings_in(m) is Ok && allowed_in(m) is Ok,
        pending_error(m) is None <==> allowed_in(m) is Ok && dismissed_in(m) is Ok && mappings_in(
            m,
        ) is Ok && events_in(m) is Ok,
{
}

/// A file that is missing is told from one that does not hold what it should; without a file of
/// connectors there are none.
pub proof fn missing_files_are_told_from_unreadable_ones(m: Store)
    ensures
        m.allowed is None ==> allowed_in(m) == Err::<Set<Target>, StoreError>(
            StoreError::ReadFailed(StoreFile::AllowedTargets),
        ),
        m.dismissed is None ==> dismissed_in(m) == Err::<Map<Seq<char>, u64>, StoreError>(
            StoreError::ReadFailed(StoreFile::Dismissed),
        ),
        m.dismissed is Some && m.dismissed->Some_0.held is None ==> dismissed_in(m) == Err::<
            Map<Seq<char>, u64>,
            StoreError,
        >(StoreError::ParseFailed(StoreFile::Dismissed)),
        m.pending is None ==> events_in(m) == Err::<Seq<Event>, StoreError>(
            StoreError::ReadFailed(StoreFile::PendingEvents),
        ),
        m.meta is Missing ==> meta_in(m) == Err::<Meta, StoreError>(
            StoreError::ReadFailed(StoreFile::SessionMeta),
        ),
        m.meta is Malformed ==> meta_in(m) == Err::<Meta, StoreError>(
            StoreError::ParseFailed(StoreFile::SessionMeta),
        ),
        m.connectors is Missing ==> mappings_in(m) == Ok::<Seq<Mapping>, StoreError>(Seq::empty()),
        m.connectors is Malformed ==> mappings_in(m) == Err::<Seq<Mapping>, StoreError>(
            StoreError::ParseFailed(StoreFile::Connectors),
        ),
{
}

/// An error about a file says what failed and names the file in the directory of the session; one
/// about the log names the line too.
pub proof fn errors_name_the_file(file: StoreFile, line: usize, dir: Seq<char>)
    ensures
        store_error_text(StoreError::ReadFailed(file), dir) == "failed to read "@ + paths::joined(
            dir,
            file_name(file),
        ),
        store_error_text(StoreError::ParseFailed(file), dir) == "failed to parse "@ + paths::joined(
            dir,
            file_name(file),
        ),
        store_error_text(StoreError::PendingLine(line), dir) == "failed to parse pending log line "@
            + number::decimal(line as nat) + " in "@ + paths::joined(dir, "pending-events.jsonl"@),
{
}

} // verus!
