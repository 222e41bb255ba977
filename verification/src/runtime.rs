//! Running the assistant: what its arguments ask for, and when it logs in first.
use crate::config::AppConfig;
use crate::connectors;
use crate::egress;
use crate::egress::EgressError;
use crate::number;
use crate::paths;
use crate::pieces;
use crate::session;
use crate::store;
use crate::text;
use vstd::prelude::*;
use vstd::string::*;

verus! {

broadcast use vstd::string::group_string_axioms;

/// The directory in the container in which the assistant keeps its configuration.
pub const DEFAULT_COPILOT_CONFIG_DIR: &'static str = "/home/copilot/.copilot";

/// The file that records that the assistant is logged in.
pub const AUTH_MARKER_FILE: &'static str = "llm-box-authenticated.json";

/// The destination that a login reaches.
pub const DEFAULT_LOGIN_TARGET: &'static str = "https://github.com:443";

/// The variables of the environment that hold a token of the provider.
pub const PROVIDER_TOKEN_KEYS: [&'static str; 3] = [
    "COPILOT_GITHUB_TOKEN",
    "GH_TOKEN",
    "GITHUB_TOKEN",
];

// ---------------------------------------------------------------------------
// Arguments
// ---------------------------------------------------------------------------

/// How the assistant is started.
#[derive(Debug, Clone, Copy, PartialEq, Eq, Structural)]
pub enum CopilotInvocationMode {
    /// In a session, with a login before it where one is needed.
    AutoSession,
    /// To log in.
    ExplicitLogin,
    /// In a session, without a login.
    SkipBootstrap,
}

/// Whether an argument asks for help.
pub open spec fn asks_for_help(arg: Seq<char>) -> bool {
    arg == "-h"@ || arg == "--help"@
}

/// Whether a first argument names a command that needs no login.
pub open spec fn needs_no_login(arg: Seq<char>) -> bool {
    arg == "help"@ || arg == "init"@ || arg == "mcp"@ || arg == "plugin"@ || arg == "update"@ || arg
        == "version"@ || arg == "-v"@ || arg == "--version"@
}

/// How these arguments start the assistant.
pub open spec fn invocation_mode(args: Seq<Seq<char>>) -> CopilotInvocationMode {
    if exists|i: int| 0 <= i < args.len() && asks_for_help(#[trigger] args[i]) {
        CopilotInvocationMode::SkipBootstrap
    } else if args.len() == 0 {
        CopilotInvocationMode::AutoSession
    } else if args[0] == "login"@ {
        CopilotInvocationMode::ExplicitLogin
    } else if needs_no_login(args[0]) {
        CopilotInvocationMode::SkipBootstrap
    } else {
        CopilotInvocationMode::AutoSession
    }
}

/// Finds how arguments start the assistant.
pub fn classify_copilot_invocation(args: &Vec<String>) -> (r: CopilotInvocationMode)
    ensures
        r == invocation_mode(pieces::texts(args@)),
{
    let ghost all = pieces::texts(args@);
    let mut i: usize = 0;
    while i < args.len()
        invariant
            i <= args.len(),
            all == pieces::texts(args@),
            forall|k: int| 0 <= k < i ==> !asks_for_help(#[trigger] all[k]),
        decreases args.len() - i,
    {
        assert(all[i as int] == args@[i as int]@);
        if text::equals(args[i].as_str(), "-h") || text::equals(args[i].as_str(), "--help") {
            return CopilotInvocationMode::SkipBootstrap;
        }
        i = i + 1;
    }
    if args.len() == 0 {
        return CopilotInvocationMode::AutoSession;
    }
    let first = args[0].as_str();
    assert(all[0] == first@);
    if text::equals(first, "login") {
        CopilotInvocationMode::ExplicitLogin
    } else if text::equals(first, "help") || text::equals(first, "init") || text::equals(
        first,
        "mcp",
    ) || text::equals(first, "plugin") || text::equals(first, "update") || text::equals(
        first,
        "version",
    ) || text::equals(first, "-v") || text::equals(first, "--version") {
        CopilotInvocationMode::SkipBootstrap
    } else {
        CopilotInvocationMode::AutoSession
    }
}

/// What arguments say of the configuration directory.
#[derive(Debug, PartialEq, Eq)]
pub enum ConfigDirArg {
    Absent,
    Present(String),
    /// The option is the last argument.
    MissingValue,
}

/// What arguments say of an option with a value.
pub enum OptionArg {
    Absent,
    Present(Seq<char>),
    MissingValue,
}

impl View for ConfigDirArg {
    type V = OptionArg;

    open spec fn view(&self) -> OptionArg {
        match self {
            ConfigDirArg::Absent => OptionArg::Absent,
            ConfigDirArg::Present(value) => OptionArg::Present(value@),
            ConfigDirArg::MissingValue => OptionArg::MissingValue,
        }
    }
}

/// What arguments say of an option: its first occurrence decides, and its value stands behind
/// `prefix` or is the next argument behind `name`.
pub open spec fn option_in(args: Seq<Seq<char>>, prefix: Seq<char>, name: Seq<char>) -> OptionArg
    decreases args.len(),
{
    if args.len() == 0 {
        OptionArg::Absent
    } else {
        match text::strip_prefix(args[0], prefix) {
            Some(value) => OptionArg::Present(value),
            None => if args[0] == name {
                if args.len() > 1 {
                    OptionArg::Present(args[1])
                } else {
                    OptionArg::MissingValue
                }
            } else {
                option_in(args.drop_first(), prefix, name)
            },
        }
    }
}

/// Finds what arguments say of an option.
fn option_arg(args: &Vec<String>, prefix: &str, name: &str) -> (r: ConfigDirArg)
    ensures
        r@ == option_in(pieces::texts(args@), prefix@, name@),
{
    let ghost all = pieces::texts(args@);
    let mut i: usize = 0;
    assert(all.skip(0) =~= all);
    while i < args.len()
        invariant
            i <= args.len(),
            all == pieces::texts(args@),
            option_in(all, prefix@, name@) == option_in(all.skip(i as int), prefix@, name@),
        decreases args.len() - i,
    {
        proof {
            let rest = all.skip(i as int);
            assert(rest[0] == args@[i as int]@);
            assert(rest.len() > 1 ==> rest[1] == args@[i + 1]@);
            assert(rest.drop_first() =~= all.skip(i + 1));
        }
        if let Some(value) = text::without_prefix(args[i].as_str(), prefix) {
            return ConfigDirArg::Present(value.to_string());
        }
        if text::equals(args[i].as_str(), name) {
            return if i + 1 < args.len() {
                ConfigDirArg::Present(args[i + 1].clone())
            } else {
                ConfigDirArg::MissingValue
            };
        }
        i = i + 1;
    }
    ConfigDirArg::Absent
}

/// What arguments say of the configuration directory.
pub open spec fn config_dir_of(args: Seq<Seq<char>>) -> OptionArg {
    option_in(args, "--config-dir="@, "--config-dir"@)
}

/// Finds what arguments say of the configuration directory.
pub fn config_dir_arg(args: &Vec<String>) -> (r: ConfigDirArg)
    ensures
        r@ == config_dir_of(pieces::texts(args@)),
{
    option_arg(args, "--config-dir=", "--config-dir")
}

/// The configuration directory that the assistant uses; `None` where the option has no value.
pub open spec fn effective_dir(args: Seq<Seq<char>>) -> Option<Seq<char>> {
    match config_dir_of(args) {
        OptionArg::Absent => Some(DEFAULT_COPILOT_CONFIG_DIR@),
        OptionArg::Present(path) => Some(path),
        OptionArg::MissingValue => None,
    }
}

/// Finds the configuration directory that the assistant uses.
pub fn effective_container_config_dir(args: &Vec<String>) -> (r: Option<String>)
    ensures
        connectors::opt_text(r) == effective_dir(pieces::texts(args@)),
{
    match config_dir_arg(args) {
        ConfigDirArg::Absent => Some(DEFAULT_COPILOT_CONFIG_DIR.to_string()),
        ConfigDirArg::Present(path) => Some(path),
        ConfigDirArg::MissingValue => None,
    }
}

/// Arguments with the default configuration directory in front, where they say nothing of it.
pub open spec fn with_config_dir(args: Seq<Seq<char>>) -> Seq<Seq<char>> {
    match config_dir_of(args) {
        OptionArg::Absent => seq!["--config-dir"@, DEFAULT_COPILOT_CONFIG_DIR@] + args,
        _ => args,
    }
}

/// Puts the default configuration directory in front of arguments that say nothing of it.
pub fn inject_default_config_dir(args: &Vec<String>) -> (r: Vec<String>)
    ensures
        pieces::texts(r@) == with_config_dir(pieces::texts(args@)),
{
    match config_dir_arg(args) {
        ConfigDirArg::Absent => {
            let mut all: Vec<String> = Vec::new();
            all.push("--config-dir".to_string());
            all.push(DEFAULT_COPILOT_CONFIG_DIR.to_string());
            let mut rest = store::clone_texts(args);
            let ghost tail = pieces::texts(rest@);
            all.append(&mut rest);
            assert(pieces::texts(all@) =~= seq!["--config-dir"@, DEFAULT_COPILOT_CONFIG_DIR@]
                + tail);
            all
        },
        _ => store::clone_texts(args),
    }
}

/// Arguments that have the default put in front of them say the same of the configuration
/// directory as before: the one that is used stays the same.
pub proof fn injection_keeps_the_directory(args: Seq<Seq<char>>)
    ensures
        effective_dir(with_config_dir(args)) == effective_dir(args),
        with_config_dir(with_config_dir(args)) == with_config_dir(args),
{
    if config_dir_of(args) is Absent {
        let all = with_config_dir(args);
        reveal_strlit("--config-dir");
        reveal_strlit("--config-dir=");
        assert(all[0] == "--config-dir"@);
        assert(all[1] == DEFAULT_COPILOT_CONFIG_DIR@);
        assert(text::strip_prefix(all[0], "--config-dir="@) is None);
    }
}

/// The arguments of the login that comes before a session.
pub open spec fn login_args(args: Seq<Seq<char>>) -> Seq<Seq<char>> {
    match effective_dir(args) {
        Some(dir) => seq!["login"@, "--config-dir"@, dir],
        None => seq!["login"@],
    }
}

/// Lists the arguments of the login that comes before a session.
pub fn bootstrap_login_args(invocation_args: &Vec<String>) -> (r: Vec<String>)
    ensures
        pieces::texts(r@) == login_args(pieces::texts(invocation_args@)),
{
    let mut args: Vec<String> = Vec::new();
    args.push("login".to_string());
    match effective_container_config_dir(invocation_args) {
        Some(dir) => {
            args.push("--config-dir".to_string());
            args.push(dir);
        },
        None => {},
    }
    assert(pieces::texts(args@) =~= login_args(pieces::texts(invocation_args@)));
    args
}

/// The host that arguments name to log in to.
pub open spec fn login_host_of(args: Seq<Seq<char>>) -> Option<Seq<char>> {
    match option_in(args, "--host="@, "--host"@) {
        OptionArg::Present(host) => Some(host),
        _ => None,
    }
}

/// Finds the host that arguments name to log in to.
pub fn login_host_arg(args: &Vec<String>) -> (r: Option<String>)
    ensures
        connectors::opt_text(r) == login_host_of(pieces::texts(args@)),
{
    match option_arg(args, "--host=", "--host") {
        ConfigDirArg::Present(host) => Some(host),
        _ => None,
    }
}

/// The canonical text of the destination that a login reaches.
pub fn bootstrap_login_target(args: &Vec<String>) -> (r: Result<String, EgressError>)
    ensures
        ({
            let named = match login_host_of(pieces::texts(args@)) {
                Some(host) => host,
                None => DEFAULT_LOGIN_TARGET@,
            };
            match egress::target_named(named) {
                Ok(t) => r is Ok && r->Ok_0@ == egress::target_text(t),
                Err(e) => r == Err::<String, EgressError>(e),
            }
        }),
{
    let named = match login_host_arg(args) {
        Some(host) => host,
        None => DEFAULT_LOGIN_TARGET.to_string(),
    };
    match egress::parse_target_spec(named.as_str()) {
        Ok(t) => Ok(t.to_text()),
        Err(e) => Err(e),
    }
}

// ---------------------------------------------------------------------------
// Paths
// ---------------------------------------------------------------------------

/// Finds the home directory of a workspace.
pub fn workspace_home_for(config: &AppConfig, workspace: &Vec<u8>) -> (r: String)
    ensures
        r@ == session::home_of(*config, workspace@),
{
    session::workspace_home_path(session::workspace_dir_for(config, workspace).as_str())
}

/// Where a path of the container is on the machine; `None` where it is on neither of the two
/// directories that both see.
pub open spec fn host_path(home: Seq<char>, workspace: Seq<char>, path: Seq<char>) -> Option<
    Seq<char>,
> {
    if !paths::is_rooted(path) {
        Some(paths::joined(workspace, path))
    } else if path == "/home/copilot"@ {
        Some(home)
    } else {
        match text::strip_prefix(path, "/home/copilot/"@) {
            Some(rest) => Some(paths::joined(home, rest)),
            None => if path == "/workspace"@ {
                Some(workspace)
            } else {
                match text::strip_prefix(path, "/workspace/"@) {
                    Some(rest) => Some(paths::joined(workspace, rest)),
                    None => None,
                }
            },
        }
    }
}

/// Finds where a path of the container is on the machine.
pub fn managed_host_path_for_container_path(
    config: &AppConfig,
    workspace: &str,
    workspace_bytes: &Vec<u8>,
    container_path: &str,
) -> (r: Option<String>)
    ensures
        connectors::opt_text(r) == host_path(
            session::home_of(*config, workspace_bytes@),
            workspace@,
            container_path@,
        ),
{
    if !paths::starts_at_root(container_path) {
        return Some(paths::join(workspace, container_path));
    }
    let home = workspace_home_for(config, workspace_bytes);
    if text::equals(container_path, "/home/copilot") {
        return Some(home);
    }
    if let Some(rest) = text::without_prefix(container_path, "/home/copilot/") {
        return Some(paths::join(home.as_str(), rest));
    }
    if text::equals(container_path, "/workspace") {
        return Some(workspace.to_string());
    }
    match text::without_prefix(container_path, "/workspace/") {
        Some(rest) => Some(paths::join(workspace, rest)),
        None => None,
    }
}

/// The file that records that the assistant is logged in; `None` where it cannot be kept.
pub open spec fn marker_path(
    config: AppConfig,
    workspace: Seq<char>,
    workspace_bytes: Seq<u8>,
    args: Seq<Seq<char>>,
) -> Option<Seq<char>> {
    match effective_dir(args) {
        None => None,
        Some(dir) => match host_path(session::home_of(config, workspace_bytes), workspace, dir) {
            None => None,
            Some(path) => Some(paths::joined(path, AUTH_MARKER_FILE@)),
        },
    }
}

/// Finds the file that records that the assistant is logged in.
pub fn managed_auth_marker_path(
    config: &AppConfig,
    workspace: &str,
    workspace_bytes: &Vec<u8>,
    invocation_args: &Vec<String>,
) -> (r: Option<String>)
    ensures
        connectors::opt_text(r) == marker_path(
            *config,
            workspace@,
            workspace_bytes@,
            pieces::texts(invocation_args@),
        ),
{
    match effective_container_config_dir(invocation_args) {
        None => None,
        Some(dir) => match managed_host_path_for_container_path(
            config,
            workspace,
            workspace_bytes,
            dir.as_str(),
        ) {
            None => None,
            Some(path) => Some(paths::join(path.as_str(), AUTH_MARKER_FILE)),
        },
    }
}

/// Writes the contents of the file that records that the assistant is logged in.
pub fn persist_auth_marker(epoch: u64) -> (r: String)
    ensures
        r@ == number::decimal(epoch as nat) + seq!['\n'],
{
    let mut s = number::decimal_of(epoch);
    s.push('\n');
    assert(s@ =~= number::decimal(epoch as nat) + seq!['\n']);
    s
}

// ---------------------------------------------------------------------------
// The run
// ---------------------------------------------------------------------------

/// What is known before the assistant runs.
#[derive(Debug, Clone, Copy)]
pub struct AuthState {
    /// The image starts the assistant itself, so that its login can be managed.
    pub can_manage_auth: bool,
    /// There is a place for the record of the login.
    pub has_marker_path: bool,
    /// The record of the login is there.
    pub marker_exists: bool,
    /// The environment holds a token of the provider.
    pub has_token: bool,
}

/// Whether a login comes before a session: there is a place to record it, and neither a token nor
/// a record.
pub open spec fn bootstraps(auth: AuthState) -> bool {
    auth.has_marker_path && !auth.has_token && !auth.marker_exists
}

/// Decides whether a login comes before a session.
pub fn should_bootstrap_auth(auth: AuthState) -> (r: bool)
    ensures
        r == bootstraps(auth),
{
    auth.has_marker_path && !auth.has_token && !auth.marker_exists
}

/// The steps of a run.
#[derive(Debug)]
pub enum CopilotRun {
    /// Log in with these arguments, and end.
    Login { args: Vec<String> },
    /// Log in, then run a session.
    LoginThenSession { login_args: Vec<String>, session_args: Vec<String> },
    /// Run a session.
    Session { session_args: Vec<String> },
}

/// What a [`CopilotRun`] denotes.
pub enum Run {
    Login { args: Seq<Seq<char>> },
    LoginThenSession { login_args: Seq<Seq<char>>, session_args: Seq<Seq<char>> },
    Session { session_args: Seq<Seq<char>> },
}

impl View for CopilotRun {
    type V = Run;

    open spec fn view(&self) -> Run {
        match self {
            CopilotRun::Login { args } => Run::Login { args: pieces::texts(args@) },
            CopilotRun::LoginThenSession { login_args, session_args } => Run::LoginThenSession {
                login_args: pieces::texts(login_args@),
                session_args: pieces::texts(session_args@),
            },
            CopilotRun::Session { session_args } => Run::Session {
                session_args: pieces::texts(session_args@),
            },
        }
    }
}

/// The steps of a run with these arguments.
pub open spec fn run_of(args: Seq<Seq<char>>, auth: AuthState) -> Run {
    if !auth.can_manage_auth {
        Run::Session { session_args: args }
    } else {
        let session_args = with_config_dir(args);
        match invocation_mode(args) {
            CopilotInvocationMode::ExplicitLogin => Run::Login { args: session_args },
            CopilotInvocationMode::AutoSession => if bootstraps(auth) {
                Run::LoginThenSession { login_args: login_args(session_args), session_args }
            } else {
                Run::Session { session_args }
            },
            CopilotInvocationMode::SkipBootstrap => Run::Session { session_args },
        }
    }
}

/// Decides on the steps of a run.
pub fn run_copilot(args: &Vec<String>, auth: AuthState) -> (r: CopilotRun)
    ensures
        r@ == run_of(pieces::texts(args@), auth),
{
    if !auth.can_manage_auth {
        return CopilotRun::Session { session_args: store::clone_texts(args) };
    }
    let session_args = inject_default_config_dir(args);
    match classify_copilot_invocation(args) {
        CopilotInvocationMode::ExplicitLogin => CopilotRun::Login { args: session_args },
        CopilotInvocationMode::AutoSession => {
            if should_bootstrap_auth(auth) {
                let login_args = bootstrap_login_args(&session_args);
                CopilotRun::LoginThenSession { login_args, session_args }
            } else {
                CopilotRun::Session { session_args }
            }
        },
        CopilotInvocationMode::SkipBootstrap => CopilotRun::Session { session_args },
    }
}

/// What to do after a login.
#[derive(Debug, Clone, Copy, PartialEq, Eq, Structural)]
pub struct LoginOutcome {
    /// Record that the assistant is logged in.
    pub persist_marker: bool,
    /// End with this exit code; `None` where the session comes next.
    pub exit: Option<i32>,
}

/// Decides what to do after a login that ended with an exit code: only one that succeeded is
/// recorded, and only behind one that succeeded a session comes.
pub fn run_copilot_bootstrap(exit_code: i32, session_follows: bool) -> (r: LoginOutcome)
    ensures
        r.persist_marker == (exit_code == 0),
        r.exit == (if session_follows && exit_code == 0 {
            None::<i32>
        } else {
            Some(exit_code)
        }),
{
    LoginOutcome {
        persist_marker: exit_code == 0,
        exit: if session_follows && exit_code == 0 {
            None
        } else {
            Some(exit_code)
        },
    }
}

/// The exit code of a process; one that was ended from outside counts as failed unless it reports
/// success.
pub fn exit_code_of(code: Option<i32>, success: bool) -> (r: i32)
    ensures
        r == (match code {
            Some(code) => code,
            None => if success {
                0
            } else {
                1
            },
        }),
{
    match code {
        Some(code) => code,
        None => if success {
            0
        } else {
            1
        },
    }
}

// ---------------------------------------------------------------------------
// Laws
// ---------------------------------------------------------------------------

/// Whether an argument names a configuration directory: `--config-dir`, or a text that starts with
/// `--config-dir=`.
pub open spec fn names_dir(arg: Seq<char>) -> bool {
    arg == "--config-dir"@ || "--config-dir="@.is_prefix_of(arg)
}

/// Whether one of the arguments names a configuration directory.
pub open spec fn some_names_dir(args: Seq<Seq<char>>) -> bool {
    exists|i: int| 0 <= i < args.len() && names_dir(#[trigger] args[i])
}

/// Whether one of the arguments is `-h` or `--help`.
pub open spec fn some_is_help(args: Seq<Seq<char>>) -> bool {
    exists|i: int| 0 <= i < args.len() && (#[trigger] args[i] == "-h"@ || args[i] == "--help"@)
}

/// Whether no argument is the option `name` or starts with `prefix`.
pub open spec fn is_free_of(args: Seq<Seq<char>>, prefix: Seq<char>, name: Seq<char>) -> bool {
    forall|i: int|
        0 <= i < args.len() ==> #[trigger] args[i] != name && !prefix.is_prefix_of(args[i])
}

/// Arguments that do not have an option say nothing of it, and leave what the later ones say.
proof fn option_skips(
    front: Seq<Seq<char>>,
    rest: Seq<Seq<char>>,
    prefix: Seq<char>,
    name: Seq<char>,
)
    requires
        is_free_of(front, prefix, name),
    ensures
        option_in(front + rest, prefix, name) == option_in(rest, prefix, name),
    decreases front.len(),
{
    if front.len() == 0 {
        assert(front + rest =~= rest);
    } else {
        let all = front + rest;
        assert(all[0] == front[0]);
        assert forall|i: int| 0 <= i < front.drop_first().len() implies #[trigger]
            front.drop_first()[i] != name && !prefix.is_prefix_of(front.drop_first()[i]) by {
            assert(front.drop_first()[i] == front[i + 1]);
        }
        option_skips(front.drop_first(), rest, prefix, name);
        assert(all.drop_first() =~= front.drop_first() + rest);
    }
}

/// The first argument that has an option decides what arguments say of it: its value stands behind
/// the prefix, or is the next argument behind the name; without a next argument it is missing.
/// Arguments of which none has the option say nothing of it.
pub proof fn first_option_decides(
    front: Seq<Seq<char>>,
    value: Seq<char>,
    rest: Seq<Seq<char>>,
    prefix: Seq<char>,
    name: Seq<char>,
)
    requires
        is_free_of(front, prefix, name),
        !prefix.is_prefix_of(name),
    ensures
        option_in(front, prefix, name) == OptionArg::Absent,
        option_in(front + seq![prefix + value] + rest, prefix, name) == OptionArg::Present(value),
        option_in(front + seq![name, value] + rest, prefix, name) == OptionArg::Present(value),
        option_in(front + seq![name], prefix, name) == OptionArg::MissingValue,
{
    let none = Seq::<Seq<char>>::empty();
    option_skips(front, none, prefix, name);
    assert(front + none =~= front);
    let joined = seq![prefix + value] + rest;
    option_skips(front, joined, prefix, name);
    assert(front + seq![prefix + value] + rest =~= front + joined);
    assert(joined[0] == prefix + value);
    assert((prefix + value).skip(prefix.len() as int) =~= value);
    assert((prefix + value).subrange(0, prefix.len() as int) =~= prefix);
    assert(prefix.is_prefix_of(prefix + value));
    let apart = seq![name, value] + rest;
    option_skips(front, apart, prefix, name);
    assert(front + seq![name, value] + rest =~= front + apart);
    assert(apart[0] == name && apart[1] == value);
    option_skips(front, seq![name], prefix, name);
}

/// The configuration directory is the one that the first `--config-dir` names, and
/// `/home/copilot/.copilot` where there is none. The host of a login is the one that the first
/// `--host` names.
pub proof fn first_directory_and_host_decide(
    front: Seq<Seq<char>>,
    value: Seq<char>,
    rest: Seq<Seq<char>>,
)
    ensures
        !some_names_dir(front) ==> {
            &&& effective_dir(front) == Some("/home/copilot/.copilot"@)
            &&& effective_dir(front + seq!["--config-dir="@ + value] + rest) == Some(value)
            &&& effective_dir(front + seq!["--config-dir"@, value] + rest) == Some(value)
            &&& effective_dir(front + seq!["--config-dir"@]) == None::<Seq<char>>
        },
        is_free_of(front, "--host="@, "--host"@) ==> {
            &&& login_host_of(front) == None::<Seq<char>>
            &&& login_host_of(front + seq!["--host="@ + value] + rest) == Some(value)
            &&& login_host_of(front + seq!["--host"@, value] + rest) == Some(value)
            &&& login_host_of(front + seq!["--host"@]) == None::<Seq<char>>
        },
{
    reveal_strlit("--config-dir");
    reveal_strlit("--config-dir=");
    reveal_strlit("--host");
    reveal_strlit("--host=");
    if !some_names_dir(front) {
        assert forall|i: int| 0 <= i < front.len() implies #[trigger] front[i] != "--config-dir"@
            && !"--config-dir="@.is_prefix_of(front[i]) by {
            assert(!names_dir(front[i]));
        }
        first_option_decides(front, value, rest, "--config-dir="@, "--config-dir"@);
    }
    if is_free_of(front, "--host="@, "--host"@) {
        first_option_decides(front, value, rest, "--host="@, "--host"@);
    }
}

/// Arguments name a configuration directory just where one of them does.
proof fn absent_dir(args: Seq<Seq<char>>)
    ensures
        config_dir_of(args) is Absent <==> !some_names_dir(args),
    decreases args.len(),
{
    if args.len() > 0 {
        let rest = args.drop_first();
        absent_dir(rest);
        if some_names_dir(rest) {
            let i = choose|i: int| 0 <= i < rest.len() && names_dir(#[trigger] rest[i]);
            assert(args[i + 1] == rest[i]);
        }
        if some_names_dir(args) && !names_dir(args[0]) {
            let i = choose|i: int| 0 <= i < args.len() && names_dir(#[trigger] args[i]);
            assert(rest[i - 1] == args[i]);
        }
    }
}

/// What a run puts in front of the arguments of the user: the default configuration directory,
/// where the login is managed and they name none.
pub open spec fn put_in_front(args: Seq<Seq<char>>, auth: AuthState) -> Seq<Seq<char>> {
    if auth.can_manage_auth && !some_names_dir(args) {
        seq!["--config-dir"@, "/home/copilot/.copilot"@]
    } else {
        Seq::empty()
    }
}

/// Whatever the state of the login, what is run ends in the arguments of the user, unchanged and in
/// order, and nothing stands before them but the default configuration directory, where the login
/// is managed and they name none.
pub proof fn arguments_are_handed_on(args: Seq<Seq<char>>, auth: AuthState)
    ensures
        match run_of(args, auth) {
            Run::Session { session_args } => session_args == put_in_front(args, auth) + args,
            Run::LoginThenSession { session_args, .. } => session_args == put_in_front(args, auth)
                + args,
            Run::Login { args: all } => all == put_in_front(args, auth) + args,
        },
{
    absent_dir(args);
    assert(Seq::<Seq<char>>::empty() + args =~= args);
}

/// What a run does. Where there is a token or a record of a login, or no place for a record, it
/// never logs in by itself; without `login` as the first argument it is a session. It logs in first
/// just where the login is managed, there is a place for its record and neither a record nor a
/// token, and the arguments neither ask for help nor start with a command that needs no login.
pub proof fn login_comes_first_where_it_is_needed(args: Seq<Seq<char>>, auth: AuthState)
    ensures
        !auth.can_manage_auth ==> run_of(args, auth) is Session,
        some_is_help(args) ==> run_of(args, auth) is Session,
        args.len() == 0 || args[0] != "login"@ ==> !(run_of(args, auth) is Login),
        (auth.has_token || auth.marker_exists || !auth.has_marker_path) && (args.len() == 0
            || args[0] != "login"@) ==> run_of(args, auth) is Session,
        args.len() > 0 && args[0] == "login"@ && auth.can_manage_auth && !some_is_help(args)
            ==> run_of(args, auth) is Login,
        args.len() > 0 && (args[0] == "help"@ || args[0] == "init"@ || args[0] == "mcp"@ || args[0]
            == "plugin"@ || args[0] == "update"@ || args[0] == "version"@ || args[0] == "-v"@
            || args[0] == "--version"@) ==> run_of(args, auth) is Session,
        run_of(args, auth) is LoginThenSession <==> {
            &&& auth.can_manage_auth && auth.has_marker_path && !auth.has_token
                && !auth.marker_exists
            &&& !some_is_help(args)
            &&& args.len() > 0 ==> args[0] != "login"@ && args[0] != "help"@ && args[0] != "init"@
                && args[0] != "mcp"@ && args[0] != "plugin"@ && args[0] != "update"@ && args[0]
                != "version"@ && args[0] != "-v"@ && args[0] != "--version"@
        },
{
    reveal_strlit("login");
    reveal_strlit("help");
    reveal_strlit("init");
    reveal_strlit("mcp");
    reveal_strlit("plugin");
    reveal_strlit("update");
    reveal_strlit("version");
    reveal_strlit("-v");
    reveal_strlit("--version");
    let help = exists|i: int| 0 <= i < args.len() && asks_for_help(#[trigger] args[i]);
    assert(help == some_is_help(args)) by {
        if help {
            let i = choose|i: int| 0 <= i < args.len() && asks_for_help(#[trigger] args[i]);
            assert(args[i] == "-h"@ || args[i] == "--help"@);
        }
        if some_is_help(args) {
            let i = choose|i: int|
                0 <= i < args.len() && (#[trigger] args[i] == "-h"@ || args[i] == "--help"@);
            assert(asks_for_help(args[i]));
        }
    }
    assert("login"@[0] == 'l' && "help"@[0] == 'h' && "init"@[0] == 'i' && "mcp"@[0] == 'm'
        && "plugin"@[0] == 'p' && "update"@[0] == 'u' && "version"@[0] == 'v' && "-v"@[0] == '-'
        && "--version"@[0] == '-');
}

/// A login that comes before a session is started with `login` and the configuration directory that
/// the session uses, so that the session finds what the login has recorded.
pub proof fn login_is_for_the_session(args: Seq<Seq<char>>, auth: AuthState)
    ensures
        run_of(args, auth) matches Run::LoginThenSession { login_args, session_args } ==> {
            &&& login_args.len() > 0 && login_args[0] == "login"@
            &&& match effective_dir(session_args) {
                Some(dir) => login_args.len() == 3 && login_args[1] == "--config-dir"@
                    && login_args[2] == dir,
                None => login_args.len() == 1,
            }
            &&& effective_dir(session_args) == effective_dir(args)
            &&& !some_names_dir(args) ==> login_args == seq![
                "login"@,
                "--config-dir"@,
                "/home/copilot/.copilot"@,
            ]
        },
{
    injection_keeps_the_directory(args);
    absent_dir(args);
}

/// A path below the home directory or the workspace of the container is at the same place below the
/// one of the machine. A path that does not start with a slash is one below the workspace, and any
/// other is nowhere on the machine.
pub proof fn container_paths_are_found(home: Seq<char>, workspace: Seq<char>, rest: Seq<char>)
    ensures
        host_path(home, workspace, "/home/copilot"@) == Some(home),
        host_path(home, workspace, "/home/copilot/"@ + rest) == Some(paths::joined(home, rest)),
        host_path(home, workspace, "/workspace"@) == Some(workspace),
        host_path(home, workspace, "/workspace/"@ + rest) == Some(paths::joined(workspace, rest)),
        rest.len() == 0 || rest[0] != '/' ==> host_path(home, workspace, rest) == Some(
            paths::joined(workspace, rest),
        ),
        rest.len() > 0 && rest[0] == '/' && rest != "/home/copilot"@ && rest != "/workspace"@
            && !"/home/copilot/"@.is_prefix_of(rest) && !"/workspace/"@.is_prefix_of(rest)
            ==> host_path(home, workspace, rest) == None::<Seq<char>>,
{
    reveal_strlit("/home/copilot");
    reveal_strlit("/home/copilot/");
    reveal_strlit("/workspace");
    reveal_strlit("/workspace/");
    let a = "/home/copilot/"@ + rest;
    let b = "/workspace/"@ + rest;
    assert(a[0] == '/' && a[1] == 'h' && b[0] == '/' && b[1] == 'w');
    assert(a[13] == '/' && a.len() > 13);
    assert(a.skip(14) =~= rest && b.skip(11) =~= rest);
    assert(a.subrange(0, 14) =~= "/home/copilot/"@);
    assert(b.subrange(0, 11) =~= "/workspace/"@);
    assert("/home/copilot/"@.is_prefix_of(a));
    assert("/workspace/"@.is_prefix_of(b));
    assert(!"/home/copilot/"@.is_prefix_of(b));
    assert("/workspace"@[1] == 'w' && "/home/copilot"@[1] == 'h');
    assert(!"/home/copilot/"@.is_prefix_of("/workspace"@));
}

/// The record of a login stands in the configuration directory: below the home directory of the
/// workspace where the arguments name none, and nowhere where they name one without a value.
pub proof fn login_is_recorded_in_the_directory(
    config: AppConfig,
    workspace: Seq<char>,
    bytes: Seq<u8>,
    args: Seq<Seq<char>>,
    rest: Seq<Seq<char>>,
    dir: Seq<char>,
)
    requires
        !some_names_dir(args),
    ensures
        ({
            let home = session::home_of(config, bytes);
            let file = "llm-box-authenticated.json"@;
            &&& marker_path(config, workspace, bytes, args) == Some(
                paths::joined(paths::joined(home, ".copilot"@), file),
            )
            &&& marker_path(
                config,
                workspace,
                bytes,
                args + seq!["--config-dir"@, "/home/copilot/"@ + dir] + rest,
            ) == Some(paths::joined(paths::joined(home, dir), file))
            &&& marker_path(
                config,
                workspace,
                bytes,
                args + seq!["--config-dir"@, "/workspace/"@ + dir] + rest,
            ) == Some(paths::joined(paths::joined(workspace, dir), file))
            &&& marker_path(config, workspace, bytes, args + seq!["--config-dir"@]) == None::<
                Seq<char>,
            >
        }),
{
    let home = session::home_of(config, bytes);
    first_directory_and_host_decide(args, "/home/copilot/"@ + dir, rest);
    first_directory_and_host_decide(args, "/workspace/"@ + dir, rest);
    container_paths_are_found(home, workspace, dir);
    container_paths_are_found(home, workspace, ".copilot"@);
    reveal_strlit("/home/copilot/");
    reveal_strlit(".copilot");
    reveal_strlit("/home/copilot/.copilot");
    assert("/home/copilot/"@ + ".copilot"@ =~= "/home/copilot/.copilot"@);
}

/// A login reaches `github.com` over `https` where the arguments name no host.
pub proof fn login_reaches_the_service()
    ensures
        egress::target_named(DEFAULT_LOGIN_TARGET@) == Ok::<egress::Target, EgressError>(
            (egress::Target {
                kind: egress::EgressKind::Https,
                host: "github.com"@,
                port: 443,
            }),
        ),
{
    reveal_strlit("https://github.com:443");
    reveal_strlit("https://");
    reveal_strlit("github.com");
    let host = "github.com"@;
    assert(crate::kinds::is_plain_host(host));
    crate::kinds::written_port_counts(host, 443);
    reveal_with_fuel(number::decimal, 4);
    assert(number::decimal(443) =~= seq!['4', '4', '3']);
    assert("https://github.com:443"@ =~= "https://"@ + (host + seq![':'] + number::decimal(443)));
}

/// Only a login that succeeded is recorded, and only behind one that succeeded a session comes; the
/// exit code of any other is that of the run.
pub proof fn failed_login_ends_the_run(exit_code: i32, session_follows: bool, after: LoginOutcome)
    requires
        call_ensures(run_copilot_bootstrap, (exit_code, session_follows), after),
    ensures
        exit_code != 0 ==> !after.persist_marker && after.exit == Some(exit_code),
        exit_code == 0 ==> after.persist_marker,
        exit_code == 0 && session_follows ==> after.exit == None::<i32>,
        exit_code == 0 && !session_follows ==> after.exit == Some(0i32),
{
}

} // verus!
