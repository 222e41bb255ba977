//! Sessions: how they are named, where they live, and what is done with one.
use crate::config::AppConfig;
use crate::connectors;
use crate::connectors::{ConnectorMapping, Mapping};
use crate::egress;
use crate::egress::EgressError;
use crate::number;
use crate::outside;
use crate::paths;
use crate::pending;
use crate::pending::{AllowedItem, PendingItem};
use crate::pieces;
use crate::store;
use crate::store::{
    Decision, Meta, SessionMeta, SessionStore, Store, StoreError, Stored,
};
use crate::target_set;
use crate::text;
use vstd::prelude::*;
use vstd::string::*;

verus! {

broadcast use vstd::string::group_string_axioms;

/// The name of the assistant that sessions run.
pub const COPILOT_PROVIDER: &'static str = "copilot";

/// The name of the file that names the latest session of a workspace.
pub const LATEST_SESSION_FILE: &'static str = "latest-session";

// ---------------------------------------------------------------------------
// Names
// ---------------------------------------------------------------------------

/// The name of the directory of a workspace: the SHA-256 digest of its path in hexadecimal.
pub open spec fn workspace_name(workspace: Seq<u8>) -> Seq<char> {
    number::hex(outside::sha256(workspace))
}

/// Names the directory of a workspace.
pub fn workspace_key(workspace: &Vec<u8>) -> (r: String)
    ensures
        r@ == workspace_name(workspace@),
{
    digest_name(&outside::sha256_of(workspace))
}

/// Writes a digest as a name.
pub fn digest_name(digest: &Vec<u8>) -> (r: String)
    ensures
        r@ == number::hex(digest@),
{
    number::hex_of(digest)
}

/// What tells sessions of a workspace apart.
#[derive(Debug, Clone, Copy)]
pub struct SessionStamp {
    pub epoch_nanos: u64,
    pub pid: u32,
    pub counter: u64,
}

/// The message whose digest names a session.
pub open spec fn session_message(workspace: Seq<u8>, stamp: SessionStamp) -> Seq<u8> {
    workspace + vstd::utf8::encode_utf8(number::decimal(stamp.epoch_nanos as nat))
        + vstd::utf8::encode_utf8(number::decimal(stamp.pid as nat)) + vstd::utf8::encode_utf8(
        number::decimal(stamp.counter as nat),
    )
}

/// The name of a session: the first sixteen hexadecimal digits of the digest.
pub open spec fn session_name(digest: Seq<u8>) -> Seq<char> {
    number::hex(digest).take(16)
}

/// Adds the UTF-8 bytes of a text.
fn append_text(bytes: &mut Vec<u8>, s: &str)
    ensures
        final(bytes)@ == old(bytes)@ + vstd::utf8::encode_utf8(s@),
{
    let ghost before = bytes@;
    let more = s.as_bytes();
    bytes.extend_from_slice(more);
    assert(bytes@ =~= before + more@);
}

/// Names a session.
pub fn generate_session_id(workspace: &Vec<u8>, stamp: SessionStamp) -> (r: String)
    ensures
        r@ == session_name(outside::sha256(session_message(workspace@, stamp))),
{
    let mut message: Vec<u8> = Vec::new();
    message.extend_from_slice(workspace.as_slice());
    assert(message@ =~= workspace@);
    append_text(&mut message, number::decimal_of(stamp.epoch_nanos).as_str());
    append_text(&mut message, number::decimal_of(stamp.pid as u64).as_str());
    append_text(&mut message, number::decimal_of(stamp.counter).as_str());
    short_name(&outside::sha256_of(&message))
}

/// Writes the first sixteen hexadecimal digits of a digest.
pub fn short_name(digest: &Vec<u8>) -> (r: String)
    requires
        digest@.len() >= 8,
    ensures
        r@ == session_name(digest@),
{
    let name = number::hex_of(digest);
    let chars = text::chars_of(name.as_str());
    let r = text::string_of(&chars, 0, 16);
    assert(r@ =~= session_name(digest@));
    r
}

/// The home directory of a workspace.
pub fn workspace_home_path(workspace_dir: &str) -> (r: String)
    ensures
        r@ == paths::joined(workspace_dir@, "home"@),
{
    paths::join(workspace_dir, "home")
}

/// Reads the name of the latest session of a workspace; `None` where there is none.
pub fn latest_session_id(contents: Option<&str>) -> (r: Option<String>)
    ensures
        connectors::opt_text(r) == (match contents {
            Some(s) => Some(text::trim(s@)),
            None => None,
        }),
{
    match contents {
        Some(s) => Some(text::trimmed(s).to_string()),
        None => None,
    }
}

/// Finds the directory of the latest session of a workspace, by the contents of the file that names
/// it.
pub fn latest_session_dir(root: &str, contents: &str) -> (r: String)
    ensures
        r@ == paths::joined(paths::joined(root@, "sessions"@), text::trim(contents@)),
{
    paths::join(paths::join(root, "sessions").as_str(), text::trimmed(contents))
}

/// Finds the home directory of a workspace below a root.
pub fn workspace_home_dir(root: &str, workspace: &Vec<u8>) -> (r: String)
    ensures
        r@ == paths::joined(
            paths::joined(paths::joined(root@, "workspaces"@), workspace_name(workspace@)),
            "home"@,
        ),
{
    let workspaces = paths::join(root, "workspaces");
    let dir = paths::join(workspaces.as_str(), workspace_key(workspace).as_str());
    workspace_home_path(dir.as_str())
}

// ---------------------------------------------------------------------------
// Sessions
// ---------------------------------------------------------------------------

/// A session.
#[derive(Debug)]
pub struct SessionContext {
    pub session_id: String,
    pub workspace: String,
    pub workspace_dir: String,
    pub store: SessionStore,
}

/// What a [`SessionContext`] denotes.
#[verifier::ext_equal]
pub struct Session {
    pub session_id: Seq<char>,
    pub workspace: Seq<char>,
    pub workspace_dir: Seq<char>,
    pub store: Store,
}

impl View for SessionContext {
    type V = Session;

    open spec fn view(&self) -> Session {
        Session {
            session_id: self.session_id@,
            workspace: self.workspace@,
            workspace_dir: self.workspace_dir@,
            store: self.store@,
        }
    }
}

/// The directory of a session.
pub open spec fn session_dir_of(config: AppConfig, id: Seq<char>) -> Seq<char> {
    paths::joined(paths::joined(config.config_root@, "sessions"@), id)
}

/// The directory of a workspace.
pub open spec fn workspace_dir_of(config: AppConfig, workspace: Seq<u8>) -> Seq<char> {
    paths::joined(paths::joined(config.config_root@, "workspaces"@), workspace_name(workspace))
}

/// The home directory of a workspace.
pub open spec fn home_of(config: AppConfig, workspace: Seq<u8>) -> Seq<char> {
    paths::joined(workspace_dir_of(config, workspace), "home"@)
}

/// A session without files.
pub open spec fn empty_session(
    config: AppConfig,
    workspace: Seq<char>,
    workspace_dir: Seq<char>,
    id: Seq<char>,
) -> Session {
    Session {
        session_id: id,
        workspace,
        workspace_dir,
        store: Store {
            session_dir: session_dir_of(config, id),
            allowed: None,
            connectors: Stored::Missing,
            pending: None,
            dismissed: None,
            meta: Stored::Missing,
            active: Stored::Missing,
        },
    }
}

/// What is known of a session that is started with `args`.
pub open spec fn started_meta(s: Session, args: Seq<Seq<char>>, started_epoch: u64) -> Meta {
    Meta {
        session_id: s.session_id,
        workspace: s.workspace,
        provider: COPILOT_PROVIDER@,
        last_started_epoch: started_epoch,
        last_invocation: args,
    }
}

/// Finds the directory of a workspace.
pub fn workspace_dir_for(config: &AppConfig, workspace: &Vec<u8>) -> (r: String)
    ensures
        r@ == workspace_dir_of(*config, workspace@),
{
    paths::join(config.workspaces_root().as_str(), workspace_key(workspace).as_str())
}

impl SessionContext {
    /// A session without files.
    pub fn from_parts(
        config: &AppConfig,
        workspace: String,
        workspace_dir: String,
        session_id: String,
    ) -> (r: SessionContext)
        ensures
            r@ == empty_session(*config, workspace@, workspace_dir@, session_id@),
    {
        let session_dir = paths::join(config.sessions_root().as_str(), session_id.as_str());
        SessionContext {
            session_id,
            workspace,
            workspace_dir,
            store: SessionStore::from_dir(session_dir),
        }
    }

    /// Starts a session: its files are set up, and what it was started with is recorded.
    pub fn new_session(
        config: &AppConfig,
        workspace: String,
        workspace_bytes: &Vec<u8>,
        stamp: SessionStamp,
        args: &Vec<String>,
        started_epoch: u64,
    ) -> (r: Result<SessionContext, StoreError>)
        ensures
            ({
                let id = session_name(outside::sha256(session_message(workspace_bytes@, stamp)));
                let empty = empty_session(
                    *config,
                    workspace@,
                    workspace_dir_of(*config, workspace_bytes@),
                    id,
                );
                let user = connectors::opt_text(config.user_defaults);
                match store::initialized(empty.store, user) {
                    Err(e) => r == Err::<SessionContext, StoreError>(e),
                    Ok(set_up) => r is Ok && r->Ok_0@ == (Session {
                        store: Store {
                            meta: Stored::Held(
                                started_meta(empty, pieces::texts(args@), started_epoch),
                            ),
                            ..set_up
                        },
                        ..empty
                    }),
                }
            }),
    {
        let workspace_dir = workspace_dir_for(config, workspace_bytes);
        let session_id = generate_session_id(workspace_bytes, stamp);
        let mut session = SessionContext::from_parts(config, workspace, workspace_dir, session_id);
        match session.store.initialize(config) {
            Ok(()) => {},
            Err(e) => return Err(e),
        }
        session.save_session_meta(args, started_epoch);
        Ok(session)
    }

    /// Opens a session whose files are in `store`: each file that is missing is made.
    pub fn from_session_id(
        config: &AppConfig,
        workspace: String,
        workspace_bytes: &Vec<u8>,
        session_id: String,
        store: SessionStore,
    ) -> (r: Result<SessionContext, StoreError>)
        ensures
            match store::initialized(store@, connectors::opt_text(config.user_defaults)) {
                Err(e) => r == Err::<SessionContext, StoreError>(e),
                Ok(set_up) => r is Ok && r->Ok_0@ == (Session {
                    session_id: session_id@,
                    workspace: workspace@,
                    workspace_dir: workspace_dir_of(*config, workspace_bytes@),
                    store: set_up,
                }),
            },
    {
        let workspace_dir = workspace_dir_for(config, workspace_bytes);
        let mut session = SessionContext { session_id, workspace, workspace_dir, store };
        match session.store.initialize(config) {
            Ok(()) => Ok(session),
            Err(e) => Err(e),
        }
    }

    /// The directories that a session needs.
    pub fn directories(&self) -> (r: Vec<String>)
        ensures
            pieces::texts(r@) == seq![
                self@.workspace_dir,
                paths::joined(paths::joined(self@.workspace_dir, "home"@), ".copilot"@),
                paths::joined(paths::joined(self@.workspace_dir, "home"@), ".local/state"@),
                self@.store.session_dir,
            ],
    {
        let home = self.workspace_home();
        let mut list: Vec<String> = Vec::new();
        list.push(self.workspace_dir.clone());
        list.push(paths::join(home.as_str(), ".copilot"));
        list.push(paths::join(home.as_str(), ".local/state"));
        list.push(self.store.session_dir.clone());
        assert(pieces::texts(list@) =~= seq![
            self@.workspace_dir,
            paths::joined(paths::joined(self@.workspace_dir, "home"@), ".copilot"@),
            paths::joined(paths::joined(self@.workspace_dir, "home"@), ".local/state"@),
            self@.store.session_dir,
        ]);
        list
    }

    /// The name of the session.
    pub fn session_id(&self) -> (r: &str)
        ensures
            r@ == self@.session_id,
    {
        self.session_id.as_str()
    }

    /// The workspace of the session.
    pub fn workspace(&self) -> (r: &str)
        ensures
            r@ == self@.workspace,
    {
        self.workspace.as_str()
    }

    /// The home directory of the workspace.
    pub fn workspace_home(&self) -> (r: String)
        ensures
            r@ == paths::joined(self@.workspace_dir, "home"@),
    {
        workspace_home_path(self.workspace_dir.as_str())
    }

    /// The file that names the latest session of the workspace.
    pub fn latest_session_file(&self) -> (r: String)
        ensures
            r@ == paths::joined(self@.workspace_dir, LATEST_SESSION_FILE@),
    {
        paths::join(self.workspace_dir.as_str(), LATEST_SESSION_FILE)
    }

    /// The directory of the session.
    pub fn session_dir(&self) -> (r: &str)
        ensures
            r@ == self@.store.session_dir,
    {
        self.store.session_dir()
    }

    /// The log of the broker.
    pub fn broker_log_file(&self) -> (r: String)
        ensures
            r@ == paths::joined(self@.store.session_dir, "broker.log"@),
    {
        paths::join(self.store.session_dir.as_str(), "broker.log")
    }

    /// The file that says that the broker is ready.
    pub fn broker_ready_file(&self) -> (r: String)
        ensures
            r@ == paths::joined(self@.store.session_dir, "broker-ready.json"@),
    {
        paths::join(self.store.session_dir.as_str(), "broker-ready.json")
    }

    /// The files of the session.
    pub fn store(&self) -> (r: &SessionStore)
        ensures
            *r == self.store,
    {
        &self.store
    }

    /// Lists the texts of the approved targets, in the order of the targets.
    pub fn allowed_target_specs(&self) -> (r: Result<Vec<String>, StoreError>)
        ensures
            match r {
                Ok(list) => store::allowed_in(self@.store) matches Ok(set) && exists|
                    ts: Seq<egress::Target>,
                | #[trigger]
                    target_set::lists(ts, set) && pieces::texts(list@) == ts.map_values(
                        |t: egress::Target| egress::target_text(t),
                    ),
                Err(e) => store::allowed_in(self@.store) == Err::<Set<egress::Target>, StoreError>(
                    e,
                ),
            },
    {
        self.store.allowed_target_specs()
    }

    /// Lists the approved destinations.
    pub fn allowed_items(&self) -> (r: Result<Vec<AllowedItem>, StoreError>)
        ensures
            match r {
                Ok(items) => store::is_allowed_list(self@.store, store::alloweds(items@)),
                Err(e) => store::allowed_error(self@.store) == Some(e),
            },
    {
        self.store.allowed_items()
    }

    /// Lists the blocked destinations that ask for a decision.
    pub fn pending_items(&self) -> (r: Result<Vec<PendingItem>, StoreError>)
        ensures
            match r {
                Ok(items) => store::is_pending_list(self@.store, pending::pendings(items@)),
                Err(e) => store::pending_error(self@.store) == Some(e),
            },
    {
        self.store.pending_items()
    }

    /// Approves a destination.
    pub fn allow_target(&mut self, target: &str, now: u64) -> (r: Result<(), StoreError>)
        ensures
            (final(self)@.store, r) == store::decided(
                old(self)@.store,
                Decision::Allow,
                target@,
                now,
            ),
            final(self)@ == (Session { store: final(self)@.store, ..old(self)@ }),
    {
        self.store.allow_target(target, now)
    }

    /// Rejects a destination.
    pub fn deny_target(&mut self, target: &str, now: u64) -> (r: Result<(), StoreError>)
        ensures
            (final(self)@.store, r) == store::decided(
                old(self)@.store,
                Decision::Deny,
                target@,
                now,
            ),
            final(self)@ == (Session { store: final(self)@.store, ..old(self)@ }),
    {
        self.store.deny_target(target, now)
    }

    /// Dismisses the attempts up to `now` to reach a destination.
    pub fn dismiss_target(&mut self, target: &str, now: u64) -> (r: Result<(), StoreError>)
        ensures
            (final(self)@.store, r) == store::decided(
                old(self)@.store,
                Decision::Dismiss,
                target@,
                now,
            ),
            final(self)@ == (Session { store: final(self)@.store, ..old(self)@ }),
    {
        self.store.dismiss_target(target, now)
    }

    /// Finds the connector of a destination, or assigns one.
    pub fn connector_endpoint(&mut self, target: &str) -> (r: Result<ConnectorMapping, StoreError>)
        ensures
            match egress::target_named(target@) {
                Err(e) => r == Err::<ConnectorMapping, StoreError>(StoreError::Target(e))
                    && final(self)@ == old(self)@,
                Ok(t) => {
                    &&& final(self)@ == (Session {
                        store: store::state_result(
                            old(self)@.store,
                            store::after_connector(old(self)@.store, t),
                        ),
                        ..old(self)@
                    })
                    &&& match r {
                        Ok(mapping) => store::after_connector(old(self)@.store, t) is Ok
                            && connectors::ensured(
                            store::mappings_in(old(self)@.store)->Ok_0,
                            t,
                        ) == Ok::<Mapping, EgressError>(mapping@),
                        Err(e) => store::after_connector(old(self)@.store, t) == Err::<
                            Store,
                            StoreError,
                        >(e),
                    }
                },
            },
    {
        self.store.ensure_connector_endpoint(target)
    }

    /// Records the process that runs the session.
    pub fn mark_active(&mut self, pid: u32, started_epoch: u64)
        ensures
            final(self)@ == (Session {
                store: store::marked_active(old(self)@.store, pid, started_epoch),
                ..old(self)@
            }),
    {
        self.store.mark_active(pid, started_epoch);
    }

    /// Records what the session was started with.
    pub fn save_session_meta(&mut self, args: &Vec<String>, started_epoch: u64)
        ensures
            final(self)@ == (Session {
                store: Store {
                    meta: Stored::Held(
                        started_meta(old(self)@, pieces::texts(args@), started_epoch),
                    ),
                    ..old(self)@.store
                },
                ..old(self)@
            }),
    {
        let meta = SessionMeta {
            session_id: self.session_id.clone(),
            workspace: self.workspace.clone(),
            provider: COPILOT_PROVIDER.to_string(),
            last_started_epoch: started_epoch,
            last_invocation: store::clone_texts(args),
        };
        self.store.write_session_meta(&meta);
    }
}

// ---------------------------------------------------------------------------
// Names
// ---------------------------------------------------------------------------

/// Every session that is started has the name of one directory entry, so that it can be asked for
/// by its name.
pub proof fn started_sessions_can_be_named(digest: Seq<u8>)
    requires
        digest.len() >= 8,
    ensures
        session_name(digest).len() == 16,
        paths::is_single_name(session_name(digest)),
{
    let name = session_name(digest);
    number::hex_is_digits(digest);
    assert forall|i: int| 0 <= i < name.len() implies #[trigger] name[i] != '/' && name[i]
        != '.' by {
        assert(name[i] == number::hex(digest)[i]);
    }
    text::find_is_first(name, '/');
    assert(text::split_once(name, '/') is None);
    assert(pieces::split(name, '/') =~= seq![name]);
    reveal_strlit(".");
    reveal_strlit("..");
    assert(name[0] != '.');
}

/// Workspaces whose paths have different digests have different home directories.
pub proof fn homes_are_kept_apart(config: AppConfig, a: Seq<u8>, b: Seq<u8>)
    requires
        outside::sha256(a) != outside::sha256(b),
    ensures
        home_of(config, a) != home_of(config, b),
{
    let (ka, kb) = (workspace_name(a), workspace_name(b));
    reveal_strlit("workspaces");
    reveal_strlit("home");
    let base = paths::joined(config.config_root@, "workspaces"@);
    assert(base.last() == 's');
    let front = base + seq!['/'];
    number::hex_is_digits(outside::sha256(a));
    number::hex_is_digits(outside::sha256(b));
    assert(!paths::is_rooted(ka) && !paths::is_rooted(kb));
    assert(workspace_dir_of(config, a) =~= front + ka);
    assert(workspace_dir_of(config, b) =~= front + kb);
    if home_of(config, a) == home_of(config, b) {
        home_text(front, ka);
        home_text(front, kb);
        assert((front + ka + "/home"@).len() == front.len() + ka.len() + 5);
        assert((front + kb + "/home"@).len() == front.len() + kb.len() + 5);
        assert((front + "home"@).len() == front.len() + 4);
        if ka.len() > 0 && kb.len() > 0 {
            assert(ka.len() == kb.len());
            assert forall|i: int| 0 <= i < ka.len() implies ka[i] == kb[i] by {
                assert((front + ka + "/home"@)[front.len() + i] == ka[i]);
                assert((front + kb + "/home"@)[front.len() + i] == kb[i]);
            }
            assert(ka =~= kb);
        } else {
            assert(ka =~= kb);
        }
        number::hex_identifies(outside::sha256(a), outside::sha256(b));
    }
}

/// The text of a home directory.
proof fn home_text(front: Seq<char>, key: Seq<char>)
    requires
        front.len() > 0,
        front.last() == '/',
        key.len() > 0 ==> key.last() != '/',
    ensures
        key.len() == 0 ==> paths::joined(front + key, "home"@) == front + "home"@,
        key.len() > 0 ==> paths::joined(front + key, "home"@) == front + key + "/home"@,
        "/home"@.len() == 5,
        "home"@.len() == 4,
{
    reveal_strlit("home");
    reveal_strlit("/home");
    if key.len() == 0 {
        assert(front + key =~= front);
    } else {
        assert((front + key).last() == key.last());
        assert(front + key + seq!['/'] + "home"@ =~= front + key + "/home"@);
    }
}

/// The files of a session stand in a directory of its own below `sessions`, and those of a workspace
/// in one below `workspaces` that has its digest for a name; the home directory is `home` in it.
pub proof fn sessions_and_workspaces_are_kept_below_the_root(
    config: AppConfig,
    id: Seq<char>,
    workspace: Seq<u8>,
)
    requires
        config.config_root@.len() > 0,
        config.config_root@[config.config_root@.len() - 1] != '/',
        id.len() > 0,
        id[0] != '/',
        outside::sha256(workspace).len() > 0,
    ensures
        session_dir_of(config, id) == config.config_root@ + "/sessions/"@ + id,
        workspace_dir_of(config, workspace) == config.config_root@ + "/workspaces/"@ + number::hex(
            outside::sha256(workspace),
        ),
        home_of(config, workspace) == config.config_root@ + "/workspaces/"@ + number::hex(
            outside::sha256(workspace),
        ) + "/home"@,
{
    let root = config.config_root@;
    let key = number::hex(outside::sha256(workspace));
    number::hex_is_digits(outside::sha256(workspace));
    reveal_strlit("sessions");
    reveal_strlit("/sessions/");
    reveal_strlit("workspaces");
    reveal_strlit("/workspaces/");
    reveal_strlit("home");
    reveal_strlit("/home");
    assert("/sessions/"@ =~= seq!['/'] + "sessions"@ + seq!['/']);
    assert("/workspaces/"@ =~= seq!['/'] + "workspaces"@ + seq!['/']);
    assert("/home"@ =~= seq!['/'] + "home"@);
    let sessions = paths::joined(root, "sessions"@);
    assert(sessions.last() == 's');
    assert(session_dir_of(config, id) =~= root + "/sessions/"@ + id);
    let workspaces = paths::joined(root, "workspaces"@);
    assert(workspaces.last() == 's');
    let dir = workspace_dir_of(config, workspace);
    assert(dir =~= root + "/workspaces/"@ + key);
    assert(dir.last() == key.last());
    assert(home_of(config, workspace) =~= root + "/workspaces/"@ + key + "/home"@);
}

/// A session is named by the first sixteen digits of the digest, and what tells sessions apart goes
/// into the digest behind the workspace: the time, the process and the count, one after the other.
pub proof fn session_is_named_by_its_digest(
    digest: Seq<u8>,
    workspace: Seq<u8>,
    stamp: SessionStamp,
    i: int,
)
    requires
        digest.len() >= 8,
        0 <= i < 8,
    ensures
        session_name(digest).len() == 16,
        session_name(digest)[2 * i] == "0123456789abcdef"@[digest[i] as int / 16],
        session_name(digest)[2 * i + 1] == "0123456789abcdef"@[digest[i] as int % 16],
        ({
            let time = number::decimal(stamp.epoch_nanos as nat);
            let process = number::decimal(stamp.pid as nat);
            let count = number::decimal(stamp.counter as nat);
            let message = session_message(workspace, stamp);
            let written = time + process + count;
            &&& message.len() == workspace.len() + written.len()
            &&& message.take(workspace.len() as int) == workspace
            &&& forall|k: int|
                0 <= k < written.len() ==> message[workspace.len() + k] == #[trigger] written[k]
                    as u8
        }),
{
    number::bytes_are_written_in_order(digest, i);
    let name = number::hex(digest);
    assert(session_name(digest)[2 * i] == name[2 * i]);
    assert(session_name(digest)[2 * i + 1] == name[2 * i + 1]);
    let time = number::decimal(stamp.epoch_nanos as nat);
    let process = number::decimal(stamp.pid as nat);
    let count = number::decimal(stamp.counter as nat);
    let message = session_message(workspace, stamp);
    let written = time + process + count;
    digits_are_bytes(stamp.epoch_nanos as nat);
    digits_are_bytes(stamp.pid as nat);
    digits_are_bytes(stamp.counter as nat);
    assert(message.take(workspace.len() as int) =~= workspace);
    assert forall|k: int| 0 <= k < written.len() implies message[workspace.len() + k]
        == #[trigger] written[k] as u8 by {
        if k < time.len() {
            assert(written[k] == time[k]);
        } else if k < time.len() + process.len() {
            assert(written[k] == process[k - time.len()]);
        } else {
            assert(written[k] == count[k - time.len() - process.len()]);
        }
    }
}

/// Digits are one byte each.
proof fn digits_are_bytes(n: nat)
    ensures
        vstd::utf8::encode_utf8(number::decimal(n)).len() == number::decimal(n).len(),
        forall|i: int|
            0 <= i < number::decimal(n).len() ==> vstd::utf8::encode_utf8(number::decimal(n))[i]
                == #[trigger] number::decimal(n)[i] as u8,
{
    let d = number::decimal(n);
    number::decimal_is_digits(n);
    assert(vstd::utf8::is_ascii_chars(d)) by {
        assert forall|i: int| 0 <= i < d.len() implies '\0' <= #[trigger] d[i] <= '\u{7f}' by {
            assert(text::is_digit(d[i]));
        }
    }
    vstd::utf8::is_ascii_chars_encode_utf8(d);
}

/// What is recorded of a session that is started is the session itself: its name, its workspace, the
/// assistant, the time and the arguments as they were given.
pub proof fn started_session_is_recorded(s: Session, args: Seq<Seq<char>>, started_epoch: u64)
    ensures
        ({
            let meta = started_meta(s, args, started_epoch);
            &&& meta.session_id == s.session_id
            &&& meta.workspace == s.workspace
            &&& meta.provider == "copilot"@
            &&& meta.last_started_epoch == started_epoch
            &&& meta.last_invocation == args
        }),
{
}

/// A session that is opened has its name, its workspace and a directory of its own, and none of its
/// files.
pub proof fn opened_session_has_no_files(
    config: AppConfig,
    workspace: Seq<char>,
    workspace_dir: Seq<char>,
    id: Seq<char>,
)
    ensures
        ({
            let s = empty_session(config, workspace, workspace_dir, id);
            &&& s.session_id == id && s.workspace == workspace && s.workspace_dir == workspace_dir
            &&& s.store.session_dir == session_dir_of(config, id)
            &&& s.store.allowed is None && s.store.pending is None && s.store.dismissed is None
            &&& s.store.connectors is Missing && s.store.meta is Missing && s.store.active is Missing
        }),
{
}

} // verus!
