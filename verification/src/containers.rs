//! Containers: how the assistant and the broker are run, and on which images and networks.
use crate::config::AppConfig;
use crate::connectors;
use crate::egress::BROKER_INTERNAL_HOST;
use crate::http;
use crate::http::Field;
use crate::number;
use crate::outside;
use crate::paths;
use crate::pieces;
use crate::session;
use crate::session::{Session, SessionContext};
use crate::store;
use crate::text;
use vstd::prelude::*;
use vstd::string::*;

verus! {

broadcast use vstd::string::group_string_axioms;

/// The port that the broker listens on.
pub const BROKER_LISTEN_PORT: u16 = 3128;

/// The Dockerfile that extends the image for one workspace.
pub const REPO_OVERLAY_DOCKERFILE: &'static str = ".llm-box/Dockerfile";

/// What such a Dockerfile starts out as.
pub const INIT_IMAGE_TEMPLATE: &'static str =
    "ARG LLM_BOX_BASE_IMAGE\nFROM ${LLM_BOX_BASE_IMAGE}\n\nUSER root\n# RUN apt-get update \\\n#   && apt-get install -y --no-install-recommends gh \\\n#   && rm -rf /var/lib/apt/lists/*\nUSER copilot\n";

// ---------------------------------------------------------------------------
// Lists of arguments
// ---------------------------------------------------------------------------

/// Adds an argument.
fn push_arg(args: &mut Vec<String>, arg: &str)
    ensures
        pieces::texts(final(args)@) == pieces::texts(old(args)@).push(arg@),
{
    let ghost before = args@;
    let arg = arg.to_string();
    args.push(arg);
    proof {
        pieces::texts_push(before, arg);
    }
}

/// Makes a list of arguments.
fn arg_list(args: &[&str]) -> (r: Vec<String>)
    ensures
        pieces::texts(r@).len() == args@.len(),
        forall|i: int| 0 <= i < args@.len() ==> #[trigger] pieces::texts(r@)[i] == args@[i]@,
{
    let mut list: Vec<String> = Vec::new();
    let mut i: usize = 0;
    while i < args.len()
        invariant
            i <= args.len(),
            list@.len() == i,
            forall|k: int| 0 <= k < i ==> (#[trigger] list@[k])@ == args@[k]@,
        decreases args.len() - i,
    {
        list.push(args[i].to_string());
        i = i + 1;
    }
    list
}

/// Three texts, one behind the other.
fn concat3(a: &str, b: &str, c: &str) -> (r: String)
    ensures
        r@ == a@ + b@ + c@,
{
    let mut s = a.to_string();
    s.append(b);
    s.append(c);
    s
}

/// Adds an option and its value.
fn push_option(args: &mut Vec<String>, option: &str, value: &str)
    ensures
        pieces::texts(final(args)@) == pieces::texts(old(args)@) + seq![option@, value@],
{
    let ghost before = pieces::texts(args@);
    push_arg(args, option);
    push_arg(args, value);
    assert(pieces::texts(args@) =~= before + seq![option@, value@]);
}

/// Variables of the environment as arguments.
pub open spec fn env_args(env: Seq<Field>) -> Seq<Seq<char>>
    decreases env.len(),
{
    if env.len() == 0 {
        Seq::empty()
    } else {
        env_args(env.drop_last()) + seq!["-e"@, env.last().0 + "="@ + env.last().1]
    }
}

/// Adds variables of the environment.
fn push_env(args: &mut Vec<String>, env: &Vec<(String, String)>)
    ensures
        pieces::texts(final(args)@) == pieces::texts(old(args)@) + env_args(
            http::fields_of(env@),
        ),
{
    let ghost start = pieces::texts(args@);
    let ghost all = http::fields_of(env@);
    let mut i: usize = 0;
    proof {
        assert(all.take(0) =~= Seq::<Field>::empty());
        assert(start + env_args(all.take(0)) =~= start);
    }
    while i < env.len()
        invariant
            i <= env.len(),
            all == http::fields_of(env@),
            pieces::texts(args@) == start + env_args(all.take(i as int)),
        decreases env.len() - i,
    {
        proof {
            assert(all.take(i + 1).drop_last() =~= all.take(i as int));
            assert(all.take(i + 1).last() == all[i as int]);
        }
        let setting = concat3(env[i].0.as_str(), "=", env[i].1.as_str());
        push_option(args, "-e", setting.as_str());
        assert(pieces::texts(args@) =~= start + env_args(all.take(i + 1)));
        i = i + 1;
    }
    assert(all.take(i as int) =~= all);
}

// ---------------------------------------------------------------------------
// The container of the assistant
// ---------------------------------------------------------------------------

/// Whether the assistant runs on a terminal.
#[derive(Debug, Clone, Copy, PartialEq, Eq, Structural)]
pub enum TtyMode {
    Interactive,
    StdinOnly,
}

/// The argument that connects the terminal.
pub open spec fn tty_arg(mode: TtyMode) -> Seq<char> {
    match mode {
        TtyMode::Interactive => "-it"@,
        TtyMode::StdinOnly => "-i"@,
    }
}

impl TtyMode {
    /// The mode where input and output are, or are not, terminals.
    pub fn of(stdin_is_terminal: bool, stdout_is_terminal: bool) -> (r: TtyMode)
        ensures
            r == (if stdin_is_terminal && stdout_is_terminal {
                TtyMode::Interactive
            } else {
                TtyMode::StdinOnly
            }),
    {
        if stdin_is_terminal && stdout_is_terminal {
            TtyMode::Interactive
        } else {
            TtyMode::StdinOnly
        }
    }

    /// The arguments that connect the terminal.
    pub fn runtime_args(self) -> (r: [&'static str; 1])
        ensures
            r@[0]@ == tty_arg(self),
    {
        match self {
            TtyMode::Interactive => ["-it"],
            TtyMode::StdinOnly => ["-i"],
        }
    }
}

/// The networks of a session.
#[derive(Debug)]
pub struct SessionNetwork {
    pub runtime: String,
    pub internal_name: String,
    pub external_name: String,
}

impl SessionNetwork {
    /// Names the networks of a session.
    pub fn named(runtime: &str, session_id: &str) -> (r: SessionNetwork)
        ensures
            r.runtime@ == runtime@,
            r.internal_name@ == "llm-box-internal-"@ + session_id@,
            r.external_name@ == "llm-box-external-"@ + session_id@,
    {
        let mut internal_name = "llm-box-internal-".to_string();
        internal_name.append(session_id);
        let mut external_name = "llm-box-external-".to_string();
        external_name.append(session_id);
        SessionNetwork { runtime: runtime.to_string(), internal_name, external_name }
    }

    /// The network that has no way out.
    pub fn internal_name(&self) -> (r: &str)
        ensures
            r@ == self.internal_name@,
    {
        self.internal_name.as_str()
    }

    /// The network that leads out, which only the broker joins.
    pub fn external_name(&self) -> (r: &str)
        ensures
            r@ == self.external_name@,
    {
        self.external_name.as_str()
    }

    /// The arguments that make the network that has no way out.
    pub fn create_internal_args(&self) -> (r: Vec<String>)
        ensures
            pieces::texts(r@) == seq![
                "network"@,
                "create"@,
                "--internal"@,
                self.internal_name@,
            ],
    {
        let r = arg_list(&["network", "create", "--internal", self.internal_name.as_str()]);
        assert(pieces::texts(r@) =~= seq![
            "network"@,
            "create"@,
            "--internal"@,
            self.internal_name@,
        ]);
        r
    }

    /// The arguments that make the network that leads out.
    pub fn create_external_args(&self) -> (r: Vec<String>)
        ensures
            pieces::texts(r@) == seq!["network"@, "create"@, self.external_name@],
    {
        let r = arg_list(&["network", "create", self.external_name.as_str()]);
        assert(pieces::texts(r@) =~= seq!["network"@, "create"@, self.external_name@]);
        r
    }

    /// The arguments that let a container join the network that leads out.
    pub fn connect_args(&self, container_name: &str) -> (r: Vec<String>)
        ensures
            pieces::texts(r@) == seq![
                "network"@,
                "connect"@,
                self.external_name@,
                container_name@,
            ],
    {
        let r = arg_list(&["network", "connect", self.external_name.as_str(), container_name]);
        assert(pieces::texts(r@) =~= seq![
            "network"@,
            "connect"@,
            self.external_name@,
            container_name@,
        ]);
        r
    }
}

/// The arguments that remove a network.
pub fn remove_network_args(name: &str) -> (r: Vec<String>)
    ensures
        pieces::texts(r@) == seq!["network"@, "rm"@, name@],
{
    let r = arg_list(&["network", "rm", name]);
    assert(pieces::texts(r@) =~= seq!["network"@, "rm"@, name@]);
    r
}

/// The arguments that run a container.
#[derive(Debug, PartialEq, Eq)]
pub struct ContainerRunPlan {
    pub args: Vec<String>,
}

/// The address of the broker, as the assistant sees it.
pub open spec fn proxy_url() -> Seq<char> {
    "http://"@ + BROKER_INTERNAL_HOST@ + ":"@ + number::decimal(BROKER_LISTEN_PORT as nat)
}

/// The hosts that the assistant reaches without the broker's help.
pub open spec fn no_proxy_list() -> Seq<char> {
    "localhost,127.0.0.1,"@ + BROKER_INTERNAL_HOST@
}

/// The variables that every session has: its home, its name, those that are passed on, and those
/// that lead all traffic to the broker.
pub open spec fn session_env(session_id: Seq<char>, passthrough: Seq<Field>) -> Seq<Field> {
    seq![("HOME"@, "/home/copilot"@), ("LLM_BOX_SESSION_ID"@, session_id)] + passthrough + seq![
        ("HTTP_PROXY"@, proxy_url()),
        ("HTTPS_PROXY"@, proxy_url()),
        ("ALL_PROXY"@, proxy_url()),
        ("http_proxy"@, proxy_url()),
        ("https_proxy"@, proxy_url()),
        ("all_proxy"@, proxy_url()),
        ("NO_PROXY"@, no_proxy_list()),
        ("no_proxy"@, no_proxy_list()),
    ]
}

/// Adds a variable.
fn push_var(env: &mut Vec<(String, String)>, name: &str, value: &str)
    ensures
        http::fields_of(final(env)@) == http::fields_of(old(env)@).push((name@, value@)),
{
    let ghost before = http::fields_of(env@);
    env.push((name.to_string(), value.to_string()));
    assert(http::fields_of(env@) =~= before.push((name@, value@)));
}

/// Lists the variables of a session.
fn session_env_list(session_id: &str, passthrough: &Vec<(String, String)>) -> (r: Vec<
    (String, String),
>)
    ensures
        http::fields_of(r@) == session_env(session_id@, http::fields_of(passthrough@)),
{
    let mut env: Vec<(String, String)> = Vec::new();
    assert(http::fields_of(env@) =~= Seq::<Field>::empty());
    push_var(&mut env, "HOME", "/home/copilot");
    push_var(&mut env, "LLM_BOX_SESSION_ID", session_id);
    let ghost first = http::fields_of(env@);
    let ghost more = http::fields_of(passthrough@);
    let mut i: usize = 0;
    assert(first =~= first + more.take(0));
    while i < passthrough.len()
        invariant
            i <= passthrough.len(),
            more == http::fields_of(passthrough@),
            http::fields_of(env@) == first + more.take(i as int),
        decreases passthrough.len() - i,
    {
        push_var(&mut env, passthrough[i].0.as_str(), passthrough[i].1.as_str());
        assert(http::fields_of(env@) =~= first + more.take(i + 1));
        i = i + 1;
    }
    assert(more.take(i as int) =~= more);
    let mut url = concat3("http://", BROKER_INTERNAL_HOST, ":");
    url.append(number::decimal_of(BROKER_LISTEN_PORT as u64).as_str());
    let url = url;
    let mut direct = "localhost,127.0.0.1,".to_string();
    direct.append(BROKER_INTERNAL_HOST);
    let direct = direct;
    push_var(&mut env, "HTTP_PROXY", url.as_str());
    push_var(&mut env, "HTTPS_PROXY", url.as_str());
    push_var(&mut env, "ALL_PROXY", url.as_str());
    push_var(&mut env, "http_proxy", url.as_str());
    push_var(&mut env, "https_proxy", url.as_str());
    push_var(&mut env, "all_proxy", url.as_str());
    push_var(&mut env, "NO_PROXY", direct.as_str());
    push_var(&mut env, "no_proxy", direct.as_str());
    assert(http::fields_of(env@) =~= session_env(session_id@, http::fields_of(passthrough@)));
    env
}

/// The directories that the assistant sees: its home, the shared skills, which it cannot change,
/// and the workspace.
pub open spec fn mount_args(s: Session, skills: Option<Seq<char>>) -> Seq<Seq<char>> {
    seq!["-v"@, paths::joined(s.workspace_dir, "home"@) + ":/home/copilot"@] + (match skills {
        Some(dir) => seq!["-v"@, dir + ":/home/copilot/.copilot/skills:ro"@],
        None => Seq::empty(),
    }) + seq!["-v"@, s.workspace + ":/workspace"@]
}

/// The arguments that run the assistant in a session.
pub open spec fn copilot_args(
    image: Seq<char>,
    s: Session,
    network: Seq<char>,
    uid: Seq<char>,
    gid: Seq<char>,
    mode: TtyMode,
    invocation: Seq<Seq<char>>,
    passthrough: Seq<Field>,
    skills: Option<Seq<char>>,
) -> Seq<Seq<char>> {
    seq![
        "run"@,
        tty_arg(mode),
        "--rm"@,
        "--user"@,
        uid + ":"@ + gid,
        "--workdir"@,
        "/workspace"@,
        "--network"@,
        network,
        "--cap-drop=ALL"@,
        "--security-opt=no-new-privileges"@,
    ] + env_args(session_env(s.session_id, passthrough)) + mount_args(s, skills) + seq![image]
        + invocation
}

/// Lists the arguments that run the assistant in a session.
pub fn build_copilot_run_plan(
    image_name: &str,
    session: &SessionContext,
    network: &SessionNetwork,
    uid: &str,
    gid: &str,
    tty_mode: TtyMode,
    invocation_args: &Vec<String>,
    passthrough_env: &Vec<(String, String)>,
    shared_skills_dir: Option<&str>,
) -> (r: ContainerRunPlan)
    ensures
        pieces::texts(r.args@) == copilot_args(
            image_name@,
            session@,
            network.internal_name@,
            uid@,
            gid@,
            tty_mode,
            pieces::texts(invocation_args@),
            http::fields_of(passthrough_env@),
            text::opt_str(shared_skills_dir),
        ),
{
    let tty = tty_mode.runtime_args();
    let user = concat3(uid, ":", gid);
    let mut args = arg_list(
        &[
            "run",
            tty[0],
            "--rm",
            "--user",
            user.as_str(),
            "--workdir",
            "/workspace",
            "--network",
            network.internal_name(),
            "--cap-drop=ALL",
            "--security-opt=no-new-privileges",
        ],
    );
    let ghost start = seq![
        "run"@,
        tty_arg(tty_mode),
        "--rm"@,
        "--user"@,
        uid@ + ":"@ + gid@,
        "--workdir"@,
        "/workspace"@,
        "--network"@,
        network.internal_name@,
        "--cap-drop=ALL"@,
        "--security-opt=no-new-privileges"@,
    ];
    assert(pieces::texts(args@) =~= start);
    let env = session_env_list(session.session_id(), passthrough_env);
    push_env(&mut args, &env);
    let ghost with_env = start + env_args(http::fields_of(env@));
    push_mounts(&mut args, session, shared_skills_dir);
    let ghost with_mounts = pieces::texts(args@);
    push_arg(&mut args, image_name);
    let mut rest = store::clone_texts(invocation_args);
    let ghost tail = pieces::texts(rest@);
    let ghost before = pieces::texts(args@);
    args.append(&mut rest);
    proof {
        assert(pieces::texts(args@) =~= before + tail);
        assert(before =~= with_mounts + seq![image_name@]);
    }
    ContainerRunPlan { args }
}

/// Adds the directories that the assistant sees.
fn push_mounts(args: &mut Vec<String>, session: &SessionContext, skills: Option<&str>)
    ensures
        pieces::texts(final(args)@) == pieces::texts(old(args)@) + mount_args(
            session@,
            text::opt_str(skills),
        ),
{
    let ghost start = pieces::texts(args@);
    let mut home = session.workspace_home();
    home.append(":/home/copilot");
    push_option(args, "-v", home.as_str());
    match skills {
        Some(dir) => {
            let mut mount = dir.to_string();
            mount.append(":/home/copilot/.copilot/skills:ro");
            push_option(args, "-v", mount.as_str());
        },
        None => {},
    }
    let mut workspace = session.workspace().to_string();
    workspace.append(":/workspace");
    push_option(args, "-v", workspace.as_str());
    assert(pieces::texts(args@) =~= start + mount_args(session@, text::opt_str(skills)));
}

// ---------------------------------------------------------------------------
// The container of the broker
// ---------------------------------------------------------------------------

/// The name of the container of the broker.
pub open spec fn broker_name(session_id: Seq<char>) -> Seq<char> {
    "llm-box-broker-"@ + session_id
}

/// Names the container of the broker.
pub fn broker_container_name(session_id: &str) -> (r: String)
    ensures
        r@ == broker_name(session_id@),
{
    let mut s = "llm-box-broker-".to_string();
    s.append(session_id);
    s
}

/// The arguments that run the broker of a session.
pub open spec fn broker_args(
    runtime: Seq<char>,
    image: Seq<char>,
    s: Session,
    network: Seq<char>,
    alias: Seq<char>,
    add_host_gateway_alias: bool,
) -> Seq<Seq<char>> {
    seq![
        "run"@,
        "--rm"@,
        "--name"@,
        broker_name(s.session_id),
        "--network"@,
        network,
        "--network-alias"@,
        BROKER_INTERNAL_HOST@,
        "-v"@,
        s.store.session_dir + ":/llm-box/session"@,
        "--entrypoint"@,
        "llm-box"@,
    ] + (if runtime == "docker"@ && add_host_gateway_alias {
        seq!["--add-host=host.docker.internal:host-gateway"@]
    } else {
        Seq::empty()
    }) + seq![
        image,
        "__broker"@,
        "--listen-host"@,
        "0.0.0.0"@,
        "--listen-port"@,
        number::decimal(BROKER_LISTEN_PORT as nat),
        "--allowed-targets-file"@,
        "/llm-box/session/allowed-targets.txt"@,
        "--pending-events-file"@,
        "/llm-box/session/pending-events.jsonl"@,
        "--connectors-file"@,
        "/llm-box/session/connectors.json"@,
        "--broker-ready-file"@,
        "/llm-box/session/broker-ready.json"@,
        "--host-loopback-alias"@,
        alias,
    ]
}

/// Lists the arguments that run the broker of a session.
pub fn build_broker_run_plan(
    runtime: &str,
    image_name: &str,
    session: &SessionContext,
    network: &SessionNetwork,
    loopback_alias: &str,
    add_host_gateway_alias: bool,
) -> (r: ContainerRunPlan)
    ensures
        pieces::texts(r.args@) == broker_args(
            runtime@,
            image_name@,
            session@,
            network.internal_name@,
            loopback_alias@,
            add_host_gateway_alias,
        ),
{
    let name = broker_container_name(session.session_id());
    let mut mount = session.session_dir().to_string();
    mount.append(":/llm-box/session");
    let port = number::decimal_of(BROKER_LISTEN_PORT as u64);
    let mut args = arg_list(
        &[
            "run",
            "--rm",
            "--name",
            name.as_str(),
            "--network",
            network.internal_name(),
            "--network-alias",
            BROKER_INTERNAL_HOST,
            "-v",
            mount.as_str(),
            "--entrypoint",
            "llm-box",
        ],
    );
    if text::equals(runtime, "docker") && add_host_gateway_alias {
        push_arg(&mut args, "--add-host=host.docker.internal:host-gateway");
    }
    let mut rest = arg_list(
        &[
            image_name,
            "__broker",
            "--listen-host",
            "0.0.0.0",
            "--listen-port",
            port.as_str(),
            "--allowed-targets-file",
            "/llm-box/session/allowed-targets.txt",
            "--pending-events-file",
            "/llm-box/session/pending-events.jsonl",
            "--connectors-file",
            "/llm-box/session/connectors.json",
            "--broker-ready-file",
            "/llm-box/session/broker-ready.json",
            "--host-loopback-alias",
            loopback_alias,
        ],
    );
    let ghost first = pieces::texts(args@);
    let ghost second = pieces::texts(rest@);
    args.append(&mut rest);
    proof {
        assert(pieces::texts(args@) =~= first + second);
        assert(pieces::texts(args@) =~= broker_args(
            runtime@,
            image_name@,
            session@,
            network.internal_name@,
            loopback_alias@,
            add_host_gateway_alias,
        ));
    }
    ContainerRunPlan { args }
}

/// How far the broker is while it starts.
#[derive(Debug, Clone, Copy, PartialEq, Eq, Structural)]
pub enum BrokerProgress {
    Ready,
    /// Stop the container and give up.
    TimedOut,
    /// The container has ended.
    Exited,
    Wait,
}

/// Decides whether the container of the broker joins the network that leads out: once, and as soon
/// as it runs.
pub fn attaches_now(external_connected: bool, container_running: bool) -> (r: bool)
    ensures
        r == (!external_connected && container_running),
{
    !external_connected && container_running
}

/// Decides how far the broker is, where `ready_port` is the port that it says it listens on.
pub fn broker_progress(ready_port: Option<u16>, past_deadline: bool, exited: bool) -> (r:
    BrokerProgress)
    ensures
        r == (if ready_port == Some(BROKER_LISTEN_PORT) {
            BrokerProgress::Ready
        } else if past_deadline {
            BrokerProgress::TimedOut
        } else if exited {
            BrokerProgress::Exited
        } else {
            BrokerProgress::Wait
        }),
        r == BrokerProgress::Ready <==> ready_port == Some(3128u16),
{
    match ready_port {
        Some(port) => {
            if port == BROKER_LISTEN_PORT {
                return BrokerProgress::Ready;
            }
        },
        None => {},
    }
    if past_deadline {
        BrokerProgress::TimedOut
    } else if exited {
        BrokerProgress::Exited
    } else {
        BrokerProgress::Wait
    }
}

/// The message for a broker that did not start.
pub fn broker_failure(timed_out: bool, log_file: &str) -> (r: String)
    ensures
        r@ == (if timed_out {
            "egress broker failed to become ready; see "@
        } else {
            "egress broker exited before becoming ready; see "@
        }) + log_file@,
{
    let mut s = if timed_out {
        "egress broker failed to become ready; see ".to_string()
    } else {
        "egress broker exited before becoming ready; see ".to_string()
    };
    s.append(log_file);
    s
}

/// The name under which a container reaches the machine.
pub open spec fn loopback_alias_of(runtime: Seq<char>, named: Option<Seq<char>>) -> Seq<char> {
    match named {
        Some(alias) => alias,
        None => if runtime == "podman"@ {
            "host.containers.internal"@
        } else {
            "host.docker.internal"@
        },
    }
}

/// Finds the name under which a container reaches the machine.
pub fn runtime_host_loopback_alias(runtime: &str, named: Option<&str>) -> (r: String)
    ensures
        r@ == loopback_alias_of(runtime@, text::opt_str(named)),
{
    match named {
        Some(alias) => alias.to_string(),
        None => if text::equals(runtime, "podman") {
            "host.containers.internal".to_string()
        } else {
            "host.docker.internal".to_string()
        },
    }
}

/// Decides, by what the runtime said of it, whether a container runs.
pub fn container_is_running(success: bool, stdout: &str) -> (r: bool)
    ensures
        r == (success && text::trim(stdout@) == "true"@),
{
    success && text::equals(text::trimmed(stdout), "true")
}

/// The arguments that ask whether a container runs.
pub fn container_state_args(container_name: &str) -> (r: Vec<String>)
    ensures
        pieces::texts(r@) == seq![
            "inspect"@,
            "--format"@,
            "{{.State.Running}}"@,
            container_name@,
        ],
{
    let r = arg_list(&["inspect", "--format", "{{.State.Running}}", container_name]);
    assert(pieces::texts(r@) =~= seq![
        "inspect"@,
        "--format"@,
        "{{.State.Running}}"@,
        container_name@,
    ]);
    r
}

/// The arguments that stop a container.
pub fn stop_container_args(container_name: &str) -> (r: Vec<String>)
    ensures
        pieces::texts(r@) == seq!["stop"@, "--time"@, "1"@, container_name@],
{
    let r = arg_list(&["stop", "--time", "1", container_name]);
    assert(pieces::texts(r@) =~= seq!["stop"@, "--time"@, "1"@, container_name@]);
    r
}

// ---------------------------------------------------------------------------
// Images
// ---------------------------------------------------------------------------

/// Whether the Dockerfile of a workspace can be used.
#[derive(Debug, Clone, Copy, PartialEq, Eq, Structural)]
pub enum OverlayError {
    /// It is there, but is no file.
    NotAFile,
    /// It is there, and would be overwritten.
    AlreadyExists,
}

/// The message for an error about the Dockerfile at `path`.
pub open spec fn overlay_error_text(e: OverlayError, path: Seq<char>) -> Seq<char> {
    match e {
        OverlayError::NotAFile => "repo overlay path exists but is not a file: "@ + path,
        OverlayError::AlreadyExists => "repo overlay Dockerfile already exists: "@ + path,
    }
}

impl OverlayError {
    /// The message for the error.
    pub fn message(&self, path: &str) -> (r: String)
        ensures
            r@ == overlay_error_text(*self, path@),
    {
        let mut s = match self {
            OverlayError::NotAFile => "repo overlay path exists but is not a file: ".to_string(),
            OverlayError::AlreadyExists => "repo overlay Dockerfile already exists: ".to_string(),
        };
        s.append(path);
        s
    }
}

/// The Dockerfile of a workspace.
pub fn overlay_path(workspace: &str) -> (r: String)
    ensures
        r@ == paths::joined(workspace@, REPO_OVERLAY_DOCKERFILE@),
{
    paths::join(workspace, REPO_OVERLAY_DOCKERFILE)
}

/// Finds the Dockerfile of a workspace; `None` where it has none.
pub fn repo_overlay_dockerfile(workspace: &str, is_there: bool, is_file: bool) -> (r: Result<
    Option<String>,
    OverlayError,
>)
    ensures
        if !is_there {
            r == Ok::<Option<String>, OverlayError>(None)
        } else if !is_file {
            r == Err::<Option<String>, OverlayError>(OverlayError::NotAFile)
        } else {
            r is Ok && connectors::opt_text(r->Ok_0) == Some(
                paths::joined(workspace@, REPO_OVERLAY_DOCKERFILE@),
            )
        },
{
    if !is_there {
        Ok(None)
    } else if !is_file {
        Err(OverlayError::NotAFile)
    } else {
        Ok(Some(overlay_path(workspace)))
    }
}

/// Decides what to write to the Dockerfile of a workspace: a template where there is none, and
/// nothing over one that is there.
pub fn init_repo_overlay_dockerfile(workspace: &str, is_there: bool) -> (r: Result<
    (String, &'static str),
    OverlayError,
>)
    ensures
        if is_there {
            r == Err::<(String, &'static str), OverlayError>(OverlayError::AlreadyExists)
        } else {
            r matches Ok((path, contents)) && path@ == paths::joined(
                workspace@,
                REPO_OVERLAY_DOCKERFILE@,
            ) && contents@ == INIT_IMAGE_TEMPLATE@
        },
{
    if is_there {
        Err(OverlayError::AlreadyExists)
    } else {
        Ok((overlay_path(workspace), INIT_IMAGE_TEMPLATE))
    }
}

/// The name of the image of a workspace.
pub open spec fn overlay_image(workspace: Seq<u8>) -> Seq<char> {
    "llm-box-workspace-"@ + session::workspace_name(workspace)
}

/// Names the image of a workspace.
pub fn repo_overlay_image_name(workspace: &Vec<u8>) -> (r: String)
    ensures
        r@ == overlay_image(workspace@),
{
    let mut s = "llm-box-workspace-".to_string();
    s.append(session::workspace_key(workspace).as_str());
    s
}

/// The images that are built, and the one that is used.
#[derive(Debug)]
pub struct ImagePlan {
    pub build_base: bool,
    /// The Dockerfile that the image of the workspace is built from.
    pub overlay: Option<String>,
    pub image_name: String,
}

/// The image that is used.
pub open spec fn image_used(config: AppConfig, workspace: Seq<u8>, has_overlay: bool) -> Seq<char> {
    if has_overlay {
        overlay_image(workspace)
    } else {
        config.image_name@
    }
}

/// Plans the images of a run: the base image is built where it is missing or too old, and the image
/// of the workspace always.
pub fn ensure_copilot_image(
    config: &AppConfig,
    workspace: &Vec<u8>,
    image_exists: bool,
    supports_broker: bool,
    overlay: Option<String>,
) -> (r: ImagePlan)
    ensures
        r.build_base == (!image_exists || !supports_broker),
        r.overlay == overlay,
        r.image_name@ == image_used(*config, workspace@, overlay is Some),
{
    let image_name = match &overlay {
        Some(_) => repo_overlay_image_name(workspace),
        None => config.image_name().to_string(),
    };
    ImagePlan { build_base: !image_exists || !supports_broker, overlay, image_name }
}

/// Plans the images of a build: all of them are built.
pub fn build_copilot_image(config: &AppConfig, workspace: &Vec<u8>, overlay: Option<String>) -> (r:
    ImagePlan)
    ensures
        r.build_base,
        r.overlay == overlay,
        r.image_name@ == image_used(*config, workspace@, overlay is Some),
{
    ensure_copilot_image(config, workspace, false, false, overlay)
}

/// The arguments that build the base image.
pub fn build_base_image(config: &AppConfig) -> (r: Vec<String>)
    ensures
        pieces::texts(r@) == seq!["build"@, "-t"@, config.image_name@, config.repo_root@],
{
    let r = arg_list(&["build", "-t", config.image_name(), config.repo_root()]);
    assert(pieces::texts(r@) =~= seq!["build"@, "-t"@, config.image_name@, config.repo_root@]);
    r
}

/// The arguments that build the image of a workspace.
pub open spec fn overlay_build_args(
    base: Seq<char>,
    workspace: Seq<char>,
    dockerfile: Seq<char>,
    image: Seq<char>,
) -> Seq<Seq<char>> {
    seq![
        "build"@,
        "-t"@,
        image,
        "-f"@,
        dockerfile,
        "--build-arg"@,
        "LLM_BOX_BASE_IMAGE="@ + base,
        workspace,
    ]
}

/// Lists the arguments that build the image of a workspace.
pub fn build_repo_overlay_image(
    config: &AppConfig,
    workspace: &str,
    dockerfile: &str,
    image_name: &str,
) -> (r: Vec<String>)
    ensures
        pieces::texts(r@) == overlay_build_args(
            config.image_name@,
            workspace@,
            dockerfile@,
            image_name@,
        ),
{
    let mut base = "LLM_BOX_BASE_IMAGE=".to_string();
    base.append(config.image_name());
    let r = arg_list(
        &[
            "build",
            "-t",
            image_name,
            "-f",
            dockerfile,
            "--build-arg",
            base.as_str(),
            workspace,
        ],
    );
    assert(pieces::texts(r@) =~= overlay_build_args(
        config.image_name@,
        workspace@,
        dockerfile@,
        image_name@,
    ));
    r
}

/// Decides, by the label of an image, whether it can run the broker.
pub fn image_supports_broker(success: bool, label: &str) -> (r: bool)
    ensures
        r == (success && text::trim(label@) == "1"@),
{
    success && text::equals(text::trimmed(label), "1")
}

/// Whether an entry point is the assistant alone.
pub open spec fn is_copilot_entrypoint(words: Option<Seq<Seq<char>>>) -> bool {
    match words {
        Some(words) => words.len() == 1 && words[0] == "copilot"@,
        None => false,
    }
}

/// Decides whether an entry point is the assistant alone.
pub fn entrypoint_is_copilot(words: &Option<Vec<String>>) -> (r: bool)
    ensures
        r == is_copilot_entrypoint(
            match words {
                Some(words) => Some(pieces::texts(words@)),
                None => None,
            },
        ),
{
    match words {
        Some(words) => {
            assert(words@.len() == 1 ==> pieces::texts(words@)[0] == words@[0]@);
            words.len() == 1 && text::equals(words[0].as_str(), "copilot")
        },
        None => false,
    }
}

/// What the answer about an entry point is refused for.
#[derive(Debug, Clone, Copy, PartialEq, Eq, Structural)]
pub enum EntrypointError {
    InspectFailed,
    NotUtf8,
    NotAnEntrypoint,
}

/// Decides, by what the runtime said of it, whether the entry point of an image is the assistant
/// alone.
pub fn image_entrypoint_is_copilot(success: bool, stdout: Vec<u8>) -> (r: Result<
    bool,
    EntrypointError,
>)
    ensures
        r == (if !success {
            Err(EntrypointError::InspectFailed)
        } else if !vstd::utf8::valid_utf8(stdout@) {
            Err(EntrypointError::NotUtf8)
        } else {
            match outside::word_list_in(text::trim(vstd::utf8::decode_utf8(stdout@))) {
                None => Err(EntrypointError::NotAnEntrypoint),
                Some(words) => Ok::<bool, EntrypointError>(is_copilot_entrypoint(words)),
            }
        }),
{
    if !success {
        return Err(EntrypointError::InspectFailed);
    }
    match outside::decode_utf8(stdout) {
        None => Err(EntrypointError::NotUtf8),
        Some(raw) => {
            proof {
                vstd::utf8::encode_utf8_decode_utf8(raw@);
            }
            match outside::read_word_list(text::trimmed(raw.as_str())) {
                Ok(words) => Ok(entrypoint_is_copilot(&words)),
                Err(_) => Err(EntrypointError::NotAnEntrypoint),
            }
        },
    }
}

// ---------------------------------------------------------------------------
// The runtime
// ---------------------------------------------------------------------------

/// Picks the container runtime: the one that is named, else the first that is there; `None` where
/// there is none.
pub fn detect_runtime(named: Option<String>, has_docker: bool, has_podman: bool) -> (r: Option<
    String,
>)
    ensures
        match named {
            Some(name) => r == Some(name),
            None => connectors::opt_text(r) == (if has_docker {
                Some("docker"@)
            } else if has_podman {
                Some("podman"@)
            } else {
                None
            }),
        },
{
    match named {
        Some(name) => Some(name),
        None => if has_docker {
            Some("docker".to_string())
        } else if has_podman {
            Some("podman".to_string())
        } else {
            None
        },
    }
}

/// Whether `s` holds `part`, where the case of ASCII letters in `s` does not matter.
pub open spec fn mentions(s: Seq<char>, part: Seq<char>) -> bool {
    text::split_once_seq(text::lower(s), part) is Some
}

/// Whether the runtime says that its machine has not been started.
pub open spec fn is_stopped_podman(runtime: Seq<char>, on_macos: bool, output: Seq<char>) -> bool {
    runtime == "podman"@ && on_macos && mentions(output, "podman"@) && (mentions(
        output,
        "cannot connect"@,
    ) || mentions(output, "unable to connect to podman socket"@) || mentions(
        output,
        "podman machine"@,
    ))
}

/// The message for a runtime that is not ready, by what it printed.
pub fn ensure_runtime_ready(runtime: &str, on_macos: bool, stdout: &str, stderr: &str) -> (r:
    String)
    ensures
        r@ == (if is_stopped_podman(runtime@, on_macos, stdout@ + stderr@) {
            "Podman is installed but not running. Run `podman machine start` and retry."@
        } else {
            text::trim(stdout@ + stderr@)
        }),
{
    let mut combined = stdout.to_string();
    combined.append(stderr);
    let lower = text::to_lower(combined.as_str());
    if text::equals(runtime, "podman") && on_macos && text::split_at_str(
        lower.as_str(),
        "podman",
    ).is_some() && (text::split_at_str(lower.as_str(), "cannot connect").is_some()
        || text::split_at_str(lower.as_str(), "unable to connect to podman socket").is_some()
        || text::split_at_str(lower.as_str(), "podman machine").is_some()) {
        "Podman is installed but not running. Run `podman machine start` and retry.".to_string()
    } else {
        text::trimmed(combined.as_str()).to_string()
    }
}

// ---------------------------------------------------------------------------
// Asking the broker for a connector
// ---------------------------------------------------------------------------

/// The head of the request for a connector, with a body of this length.
pub open spec fn endpoint_request_text(length: nat) -> Seq<char> {
    "POST /__endpoint HTTP/1.1\r\nHost: "@ + BROKER_INTERNAL_HOST@
        + "\r\nContent-Type: application/json\r\nContent-Length: "@ + number::decimal(length)
        + "\r\nConnection: close\r\n\r\n"@
}

/// Writes the head of the request for a connector.
pub fn endpoint_request_head(length: usize) -> (r: String)
    ensures
        r@ == endpoint_request_text(length as nat),
{
    let mut s = "POST /__endpoint HTTP/1.1\r\nHost: ".to_string();
    s.append(BROKER_INTERNAL_HOST);
    s.append("\r\nContent-Type: application/json\r\nContent-Length: ");
    s.append(number::decimal_of(length as u64).as_str());
    s.append("\r\nConnection: close\r\n\r\n");
    s
}

/// What the answer of the broker is refused for.
#[derive(Debug, Clone, Copy, PartialEq, Eq, Structural)]
pub enum EndpointError {
    NotUtf8,
    InvalidResponse,
    RequestFailed,
}

/// The body of the answer to a request for a connector.
pub open spec fn endpoint_body_of(response: Seq<char>) -> Result<Seq<char>, EndpointError> {
    match text::split_once_seq(response, "\r\n\r\n"@) {
        None => Err(EndpointError::InvalidResponse),
        Some((head, body)) => match text::strip_prefix(head, "HTTP/1.1 200"@) {
            Some(_) => Ok(body),
            None => Err(EndpointError::RequestFailed),
        },
    }
}

/// Finds the body of the answer to a request for a connector.
pub fn endpoint_body(response: Vec<u8>) -> (r: Result<String, EndpointError>)
    ensures
        ({
            let found = if vstd::utf8::valid_utf8(response@) {
                endpoint_body_of(vstd::utf8::decode_utf8(response@))
            } else {
                Err(EndpointError::NotUtf8)
            };
            match r {
                Ok(body) => found == Ok::<Seq<char>, EndpointError>(body@),
                Err(e) => found == Err::<Seq<char>, EndpointError>(e),
            }
        }),
{
    match outside::decode_utf8(response) {
        None => Err(EndpointError::NotUtf8),
        Some(s) => {
            proof {
                vstd::utf8::encode_utf8_decode_utf8(s@);
            }
            match text::split_at_str(s.as_str(), "\r\n\r\n") {
                None => Err(EndpointError::InvalidResponse),
                Some((head, body)) => match text::without_prefix(head, "HTTP/1.1 200") {
                    Some(_) => Ok(body.to_string()),
                    None => Err(EndpointError::RequestFailed),
                },
            }
        },
    }
}

// ---------------------------------------------------------------------------
// Laws
// ---------------------------------------------------------------------------

/// Whether an option and its value stand next to each other among the first `end` arguments.
pub open spec fn has_option(
    args: Seq<Seq<char>>,
    end: int,
    option: Seq<char>,
    value: Seq<char>,
) -> bool {
    exists|i: int| 0 <= i && i + 1 < end && #[trigger] args[i] == option && args[i + 1] == value
}

/// Whether an option and its value stand at an index.
spec fn is_pair_at(args: Seq<Seq<char>>, i: int, option: Seq<char>, value: Seq<char>) -> bool {
    args[i] == option && args[i + 1] == value
}

/// A variable with its value.
spec fn setting(f: Field) -> Seq<char> {
    f.0 + "="@ + f.1
}

/// Variables as arguments are pairs: `-e`, and the name and the value with an equals sign between.
proof fn env_args_shape(env: Seq<Field>)
    ensures
        env_args(env).len() == 2 * env.len(),
        forall|k: int|
            0 <= k < env.len() ==> is_pair_at(
                env_args(env),
                2 * k,
                "-e"@,
                setting(#[trigger] env[k]),
            ),
    decreases env.len(),
{
    if env.len() > 0 {
        let front = env.drop_last();
        env_args_shape(front);
        let last = seq!["-e"@, env.last().0 + "="@ + env.last().1];
        let all = env_args(env);
        assert(all == env_args(front) + last);
        assert forall|k: int| 0 <= k < env.len() implies is_pair_at(
            all,
            2 * k,
            "-e"@,
            setting(#[trigger] env[k]),
        ) by {
            if k < front.len() {
                assert(front[k] == env[k]);
                assert(is_pair_at(env_args(front), 2 * k, "-e"@, setting(front[k])));
                assert(all[2 * k] == env_args(front)[2 * k]);
                assert(all[2 * k + 1] == env_args(front)[2 * k + 1]);
            } else {
                assert(all[2 * k] == last[0]);
                assert(all[2 * k + 1] == last[1]);
            }
        }
    }
}

/// Where the parts of the arguments that run the assistant stand.
proof fn copilot_args_shape(
    image: Seq<char>,
    s: Session,
    network: Seq<char>,
    uid: Seq<char>,
    gid: Seq<char>,
    mode: TtyMode,
    invocation: Seq<Seq<char>>,
    passthrough: Seq<Field>,
    skills: Option<Seq<char>>,
)
    ensures
        ({
            let args = copilot_args(
                image,
                s,
                network,
                uid,
                gid,
                mode,
                invocation,
                passthrough,
                skills,
            );
            let env = session_env(s.session_id, passthrough);
            let mounts = mount_args(s, skills);
            let n = 11 + 2 * env.len() as int + mounts.len() as int;
            &&& args.len() == n + 1 + invocation.len()
            &&& args[0] == "run"@
            &&& args[1] == tty_arg(mode)
            &&& args[2] == "--rm"@
            &&& args[3] == "--user"@
            &&& args[4] == uid + ":"@ + gid
            &&& args[5] == "--workdir"@
            &&& args[6] == "/workspace"@
            &&& args[7] == "--network"@
            &&& args[8] == network
            &&& args[9] == "--cap-drop=ALL"@
            &&& args[10] == "--security-opt=no-new-privileges"@
            &&& forall|k: int|
                0 <= k < env.len() ==> is_pair_at(
                    args,
                    11 + 2 * k,
                    "-e"@,
                    setting(#[trigger] env[k]),
                )
            &&& forall|k: int|
                0 <= k < mounts.len() ==> args[11 + 2 * env.len() + k] == #[trigger] mounts[k]
            &&& args[n] == image
            &&& args.skip(n + 1) == invocation
        }),
{
    let args = copilot_args(image, s, network, uid, gid, mode, invocation, passthrough, skills);
    let env = session_env(s.session_id, passthrough);
    let e = env_args(env);
    let mounts = mount_args(s, skills);
    let first = seq![
        "run"@,
        tty_arg(mode),
        "--rm"@,
        "--user"@,
        uid + ":"@ + gid,
        "--workdir"@,
        "/workspace"@,
        "--network"@,
        network,
        "--cap-drop=ALL"@,
        "--security-opt=no-new-privileges"@,
    ];
    env_args_shape(env);
    assert(args == first + e + mounts + seq![image] + invocation);
    let n = 11 + 2 * env.len() as int + mounts.len() as int;
    assert forall|k: int| 0 <= k < env.len() implies is_pair_at(
        args,
        11 + 2 * k,
        "-e"@,
        setting(#[trigger] env[k]),
    ) by {
        assert(is_pair_at(e, 2 * k, "-e"@, setting(env[k])));
        assert(args[11 + 2 * k] == e[2 * k]);
        assert(args[11 + 2 * k + 1] == e[2 * k + 1]);
    }
    assert forall|k: int| 0 <= k < mounts.len() implies args[11 + 2 * env.len() + k]
        == #[trigger] mounts[k] by {}
    assert(args.skip(n + 1) =~= invocation);
}

/// The arguments that run the assistant end in the image and what the assistant is started with.
/// Before them, whether or not skills are shared, stand the mount of the home directory and the
/// mount of the workspace. The mount of the skills stands there where skills are given, and they
/// cannot be changed through it. There is no other mount.
pub proof fn session_directories_are_mounted(
    image: Seq<char>,
    s: Session,
    network: Seq<char>,
    uid: Seq<char>,
    gid: Seq<char>,
    mode: TtyMode,
    invocation: Seq<Seq<char>>,
    passthrough: Seq<Field>,
    skills: Option<Seq<char>>,
)
    ensures
        ({
            let args = copilot_args(
                image,
                s,
                network,
                uid,
                gid,
                mode,
                invocation,
                passthrough,
                skills,
            );
            let end = args.len() - invocation.len() - 1;
            let home = paths::joined(s.workspace_dir, "home"@) + ":/home/copilot"@;
            let workspace = s.workspace + ":/workspace"@;
            &&& end > 0
            &&& args[end] == image
            &&& args.skip(end + 1) == invocation
            &&& has_option(args, end, "-v"@, home)
            &&& has_option(args, end, "-v"@, workspace)
            &&& skills matches Some(dir) ==> has_option(
                args,
                end,
                "-v"@,
                dir + ":/home/copilot/.copilot/skills:ro"@,
            )
            &&& forall|i: int|
                #![trigger args[i]]
                0 < i && i + 1 < end && args[i] == "-v"@ && args[i - 1] != "--network"@ ==> {
                    ||| args[i + 1] == home
                    ||| args[i + 1] == workspace
                    ||| skills is Some && args[i + 1] == skills->Some_0
                        + ":/home/copilot/.copilot/skills:ro"@
                }
        }),
{
    let args = copilot_args(image, s, network, uid, gid, mode, invocation, passthrough, skills);
    let env = session_env(s.session_id, passthrough);
    let mounts = mount_args(s, skills);
    let home = paths::joined(s.workspace_dir, "home"@) + ":/home/copilot"@;
    let workspace = s.workspace + ":/workspace"@;
    copilot_args_shape(image, s, network, uid, gid, mode, invocation, passthrough, skills);
    let end = args.len() - invocation.len() - 1;
    let m = 11 + 2 * env.len() as int;
    assert(end == m + mounts.len());
    assert(mounts[0] == "-v"@ && mounts[1] == home);
    assert(args[m] == mounts[0] && args[m + 1] == mounts[1]);
    if skills is Some {
        let shared = skills->Some_0 + ":/home/copilot/.copilot/skills:ro"@;
        assert(mounts.len() == 6);
        assert(mounts[2] == "-v"@ && mounts[3] == shared);
        assert(mounts[4] == "-v"@ && mounts[5] == workspace);
        assert(args[m + 2] == mounts[2] && args[m + 3] == mounts[3]);
        assert(args[m + 4] == mounts[4] && args[m + 5] == mounts[5]);
    } else {
        assert(mounts.len() == 4);
        assert(mounts[2] == "-v"@ && mounts[3] == workspace);
        assert(args[m + 2] == mounts[2] && args[m + 3] == mounts[3]);
    }
    assert forall|i: int|
        #![trigger args[i]]
        0 < i && i + 1 < end && args[i] == "-v"@ && args[i - 1] != "--network"@ implies {
        ||| args[i + 1] == home
        ||| args[i + 1] == workspace
        ||| skills is Some && args[i + 1] == skills->Some_0 + ":/home/copilot/.copilot/skills:ro"@
    } by {
        only_mounts_follow_the_option(
            image,
            s,
            network,
            uid,
            gid,
            mode,
            invocation,
            passthrough,
            skills,
            i,
        );
    }
}

/// Behind each `-v` that is no network stands a mount.
proof fn only_mounts_follow_the_option(
    image: Seq<char>,
    s: Session,
    network: Seq<char>,
    uid: Seq<char>,
    gid: Seq<char>,
    mode: TtyMode,
    invocation: Seq<Seq<char>>,
    passthrough: Seq<Field>,
    skills: Option<Seq<char>>,
    i: int,
)
    requires
        ({
            let args = copilot_args(
                image,
                s,
                network,
                uid,
                gid,
                mode,
                invocation,
                passthrough,
                skills,
            );
            &&& 0 < i
            &&& i + 1 < args.len() - invocation.len() - 1
            &&& args[i] == "-v"@
            &&& args[i - 1] != "--network"@
        }),
    ensures
        ({
            let args = copilot_args(
                image,
                s,
                network,
                uid,
                gid,
                mode,
                invocation,
                passthrough,
                skills,
            );
            ||| args[i + 1] == paths::joined(s.workspace_dir, "home"@) + ":/home/copilot"@
            ||| args[i + 1] == s.workspace + ":/workspace"@
            ||| skills is Some && args[i + 1] == skills->Some_0
                + ":/home/copilot/.copilot/skills:ro"@
        }),
{
    let args = copilot_args(image, s, network, uid, gid, mode, invocation, passthrough, skills);
    let env = session_env(s.session_id, passthrough);
    let mounts = mount_args(s, skills);
    copilot_args_shape(image, s, network, uid, gid, mode, invocation, passthrough, skills);
    let m = 11 + 2 * env.len() as int;
    reveal_strlit("-v");
    reveal_strlit("-e");
    reveal_strlit("-i");
    reveal_strlit("-it");
    reveal_strlit("--rm");
    reveal_strlit("--user");
    reveal_strlit("--workdir");
    reveal_strlit("/workspace");
    reveal_strlit("--network");
    reveal_strlit("--cap-drop=ALL");
    reveal_strlit("--security-opt=no-new-privileges");
    reveal_strlit("=");
    reveal_strlit(":");
    assert("-v"@.len() == 2 && "-v"@[0] == '-' && "-v"@[1] == 'v');
    if i < 11 {
        assert("-i"@[1] == 'i' && "-it"@.len() == 3);
        if i == 4 {
            let j = uid.len() as int;
            assert(args[4][j] == ':');
            assert(j == 0 || j == 1);
        }
        assert("/workspace"@.len() > 2);
    } else if i < m {
        let k = (i - 11) / 2;
        assert(0 <= k < env.len());
        assert(is_pair_at(args, 11 + 2 * k, "-e"@, setting(env[k])));
        if i == 11 + 2 * k {
            assert("-e"@[1] == 'e');
        } else {
            assert(i == 11 + 2 * k + 1);
            let j = env[k].0.len() as int;
            assert(args[i][j] == '=');
        }
    } else {
        let k = i - m;
        assert(args[m + k] == mounts[k] && args[m + k + 1] == mounts[k + 1]);
        reveal_strlit(":/home/copilot");
        reveal_strlit(":/home/copilot/.copilot/skills:ro");
        reveal_strlit(":/workspace");
        assert(mounts[1].len() > 2 && mounts[3].len() > 2);
        assert(mounts.len() == 6 ==> mounts[5].len() > 2);
    }
}

/// The assistant runs without privileges and is removed when it ends, as the user who started it,
/// in the workspace, on the given network; it is connected to a terminal just where there is one.
pub proof fn assistant_runs_confined(
    image: Seq<char>,
    s: Session,
    network: Seq<char>,
    uid: Seq<char>,
    gid: Seq<char>,
    mode: TtyMode,
    invocation: Seq<Seq<char>>,
    passthrough: Seq<Field>,
    skills: Option<Seq<char>>,
)
    ensures
        ({
            let args = copilot_args(
                image,
                s,
                network,
                uid,
                gid,
                mode,
                invocation,
                passthrough,
                skills,
            );
            let end = args.len() - invocation.len() - 1;
            let before = args.take(end);
            &&& args[0] == "run"@
            &&& before.contains("--rm"@)
            &&& before.contains("--cap-drop=ALL"@)
            &&& before.contains("--security-opt=no-new-privileges"@)
            &&& has_option(args, end, "--user"@, uid + ":"@ + gid)
            &&& has_option(args, end, "--workdir"@, "/workspace"@)
            &&& has_option(args, end, "--network"@, network)
            &&& mode == TtyMode::Interactive ==> args[1] == "-it"@
            &&& mode == TtyMode::StdinOnly ==> args[1] == "-i"@
        }),
{
    let args = copilot_args(image, s, network, uid, gid, mode, invocation, passthrough, skills);
    copilot_args_shape(image, s, network, uid, gid, mode, invocation, passthrough, skills);
    let end = args.len() - invocation.len() - 1;
    let before = args.take(end);
    assert(before[2] == "--rm"@);
    assert(before[9] == "--cap-drop=ALL"@);
    assert(before[10] == "--security-opt=no-new-privileges"@);
    assert(args[3] == "--user"@ && args[5] == "--workdir"@ && args[7] == "--network"@);
}

/// The address of the broker in full.
proof fn proxy_address()
    ensures
        proxy_url() == "http://llm-box-broker:3128"@,
        no_proxy_list() == "localhost,127.0.0.1,llm-box-broker"@,
{
    reveal_strlit("http://");
    reveal_strlit("llm-box-broker");
    reveal_strlit(":");
    reveal_strlit("http://llm-box-broker:3128");
    reveal_strlit("localhost,127.0.0.1,");
    reveal_strlit("localhost,127.0.0.1,llm-box-broker");
    reveal_with_fuel(number::decimal, 5);
    assert(number::decimal(3128) =~= seq!['3', '1', '2', '8']);
    assert(proxy_url() =~= "http://llm-box-broker:3128"@);
    assert(no_proxy_list() =~= "localhost,127.0.0.1,llm-box-broker"@);
}

/// Every variable by which programs find a proxy leads to the broker, and only this machine and the
/// broker itself are reached without it. The home directory is the one that is mounted, and all
/// that is passed on is there too.
pub proof fn traffic_is_led_to_the_broker(
    image: Seq<char>,
    s: Session,
    network: Seq<char>,
    uid: Seq<char>,
    gid: Seq<char>,
    mode: TtyMode,
    invocation: Seq<Seq<char>>,
    passthrough: Seq<Field>,
    skills: Option<Seq<char>>,
)
    ensures
        ({
            let args = copilot_args(
                image,
                s,
                network,
                uid,
                gid,
                mode,
                invocation,
                passthrough,
                skills,
            );
            let end = args.len() - invocation.len() - 1;
            let url = "http://llm-box-broker:3128"@;
            let direct = "localhost,127.0.0.1,llm-box-broker"@;
            &&& has_option(args, end, "-e"@, "HTTP_PROXY"@ + "="@ + url)
            &&& has_option(args, end, "-e"@, "HTTPS_PROXY"@ + "="@ + url)
            &&& has_option(args, end, "-e"@, "ALL_PROXY"@ + "="@ + url)
            &&& has_option(args, end, "-e"@, "http_proxy"@ + "="@ + url)
            &&& has_option(args, end, "-e"@, "https_proxy"@ + "="@ + url)
            &&& has_option(args, end, "-e"@, "all_proxy"@ + "="@ + url)
            &&& has_option(args, end, "-e"@, "NO_PROXY"@ + "="@ + direct)
            &&& has_option(args, end, "-e"@, "no_proxy"@ + "="@ + direct)
            &&& has_option(args, end, "-e"@, "HOME"@ + "="@ + "/home/copilot"@)
            &&& has_option(args, end, "-e"@, "LLM_BOX_SESSION_ID"@ + "="@ + s.session_id)
            &&& forall|k: int|
                0 <= k < passthrough.len() ==> has_option(
                    args,
                    end,
                    "-e"@,
                    (#[trigger] passthrough[k]).0 + "="@ + passthrough[k].1,
                )
        }),
{
    let args = copilot_args(image, s, network, uid, gid, mode, invocation, passthrough, skills);
    let env = session_env(s.session_id, passthrough);
    let n = passthrough.len() as int;
    copilot_args_shape(image, s, network, uid, gid, mode, invocation, passthrough, skills);
    proxy_address();
    let end = args.len() - invocation.len() - 1;
    let url = "http://llm-box-broker:3128"@;
    let direct = "localhost,127.0.0.1,llm-box-broker"@;
    assert(env.len() == n + 10);
    assert(env[0] == ("HOME"@, "/home/copilot"@));
    assert(env[1] == ("LLM_BOX_SESSION_ID"@, s.session_id));
    assert(env[n + 2] == ("HTTP_PROXY"@, url));
    assert(env[n + 3] == ("HTTPS_PROXY"@, url));
    assert(env[n + 4] == ("ALL_PROXY"@, url));
    assert(env[n + 5] == ("http_proxy"@, url));
    assert(env[n + 6] == ("https_proxy"@, url));
    assert(env[n + 7] == ("all_proxy"@, url));
    assert(env[n + 8] == ("NO_PROXY"@, direct));
    assert(env[n + 9] == ("no_proxy"@, direct));
    assert forall|k: int| 0 <= k < env.len() implies has_option(
        args,
        end,
        "-e"@,
        (#[trigger] env[k]).0 + "="@ + env[k].1,
    ) by {
        assert(is_pair_at(args, 11 + 2 * k, "-e"@, setting(env[k])));
        assert(args[11 + 2 * k] == "-e"@);
    }
    assert forall|k: int| 0 <= k < n implies has_option(
        args,
        end,
        "-e"@,
        (#[trigger] passthrough[k]).0 + "="@ + passthrough[k].1,
    ) by {
        assert(env[k + 2] == passthrough[k]);
    }
}

/// Whether an option and its value stand next to each other from one index up to another.
pub open spec fn has_option_between(
    args: Seq<Seq<char>>,
    from: int,
    end: int,
    option: Seq<char>,
    value: Seq<char>,
) -> bool {
    exists|i: int|
        from <= i && i + 1 < end && #[trigger] args[i] == option && args[i + 1] == value
}

/// What is passed on cannot lead traffic round the broker: the variables that lead to it come behind
/// all that is passed on, so that they decide.
pub proof fn passed_on_variables_come_first(
    image: Seq<char>,
    s: Session,
    network: Seq<char>,
    uid: Seq<char>,
    gid: Seq<char>,
    mode: TtyMode,
    invocation: Seq<Seq<char>>,
    passthrough: Seq<Field>,
    skills: Option<Seq<char>>,
)
    ensures
        ({
            let args = copilot_args(
                image,
                s,
                network,
                uid,
                gid,
                mode,
                invocation,
                passthrough,
                skills,
            );
            let end = args.len() - invocation.len() - 1;
            let middle = 15 + 2 * passthrough.len() as int;
            let url = "http://llm-box-broker:3128"@;
            let direct = "localhost,127.0.0.1,llm-box-broker"@;
            &&& forall|k: int|
                0 <= k < passthrough.len() ==> has_option_between(
                    args,
                    0,
                    middle,
                    "-e"@,
                    (#[trigger] passthrough[k]).0 + "="@ + passthrough[k].1,
                )
            &&& has_option_between(args, middle, end, "-e"@, "HTTP_PROXY"@ + "="@ + url)
            &&& has_option_between(args, middle, end, "-e"@, "HTTPS_PROXY"@ + "="@ + url)
            &&& has_option_between(args, middle, end, "-e"@, "ALL_PROXY"@ + "="@ + url)
            &&& has_option_between(args, middle, end, "-e"@, "http_proxy"@ + "="@ + url)
            &&& has_option_between(args, middle, end, "-e"@, "https_proxy"@ + "="@ + url)
            &&& has_option_between(args, middle, end, "-e"@, "all_proxy"@ + "="@ + url)
            &&& has_option_between(args, middle, end, "-e"@, "NO_PROXY"@ + "="@ + direct)
            &&& has_option_between(args, middle, end, "-e"@, "no_proxy"@ + "="@ + direct)
        }),
{
    let args = copilot_args(image, s, network, uid, gid, mode, invocation, passthrough, skills);
    let env = session_env(s.session_id, passthrough);
    let n = passthrough.len() as int;
    copilot_args_shape(image, s, network, uid, gid, mode, invocation, passthrough, skills);
    proxy_address();
    let end = args.len() - invocation.len() - 1;
    let middle = 15 + 2 * n;
    let url = "http://llm-box-broker:3128"@;
    let direct = "localhost,127.0.0.1,llm-box-broker"@;
    assert(env.len() == n + 10);
    assert forall|k: int| 0 <= k < n implies has_option_between(
        args,
        0,
        middle,
        "-e"@,
        (#[trigger] passthrough[k]).0 + "="@ + passthrough[k].1,
    ) by {
        assert(env[k + 2] == passthrough[k]);
        assert(is_pair_at(args, 11 + 2 * (k + 2), "-e"@, setting(env[k + 2])));
        assert(args[11 + 2 * (k + 2)] == "-e"@);
    }
    assert forall|k: int| n + 2 <= k < env.len() implies has_option_between(
        args,
        middle,
        end,
        "-e"@,
        (#[trigger] env[k]).0 + "="@ + env[k].1,
    ) by {
        assert(is_pair_at(args, 11 + 2 * k, "-e"@, setting(env[k])));
        assert(args[11 + 2 * k] == "-e"@);
    }
    assert(env[n + 2] == ("HTTP_PROXY"@, url));
    assert(env[n + 3] == ("HTTPS_PROXY"@, url));
    assert(env[n + 4] == ("ALL_PROXY"@, url));
    assert(env[n + 5] == ("http_proxy"@, url));
    assert(env[n + 6] == ("https_proxy"@, url));
    assert(env[n + 7] == ("all_proxy"@, url));
    assert(env[n + 8] == ("NO_PROXY"@, direct));
    assert(env[n + 9] == ("no_proxy"@, direct));
}

/// The broker runs on the network of the session under the name, and listens on the port, that the
/// assistant is given as its proxy. The directory of the session is mounted, and the files that the
/// broker is given are those of the session in it.
pub proof fn broker_serves_the_session(
    runtime: Seq<char>,
    image: Seq<char>,
    s: Session,
    network: Seq<char>,
    alias: Seq<char>,
    add_host_gateway_alias: bool,
)
    ensures
        ({
            let args = broker_args(runtime, image, s, network, alias, add_host_gateway_alias);
            let n = args.len() as int;
            let end = n - 16;
            let at = "/llm-box/session/"@;
            &&& args[0] == "run"@
            &&& args.take(end).contains("--rm"@)
            &&& args[end] == image
            &&& args[end + 1] == "__broker"@
            &&& has_option(args, end, "--name"@, "llm-box-broker-"@ + s.session_id)
            &&& has_option(args, end, "--network"@, network)
            &&& has_option(args, end, "--network-alias"@, "llm-box-broker"@)
            &&& has_option(args, end, "-v"@, s.store.session_dir + ":/llm-box/session"@)
            &&& has_option(args, end, "--entrypoint"@, "llm-box"@)
            &&& has_option_between(args, end, n, "--listen-host"@, "0.0.0.0"@)
            &&& has_option_between(args, end, n, "--listen-port"@, "3128"@)
            &&& has_option_between(args, end, n, "--allowed-targets-file"@, at + "allowed-targets.txt"@)
            &&& has_option_between(args, end, n, "--pending-events-file"@, at + "pending-events.jsonl"@)
            &&& has_option_between(args, end, n, "--connectors-file"@, at + "connectors.json"@)
            &&& has_option_between(args, end, n, "--broker-ready-file"@, at + "broker-ready.json"@)
            &&& has_option_between(args, end, n, "--host-loopback-alias"@, alias)
            &&& runtime == "docker"@ && add_host_gateway_alias ==> n == 29 && args.take(end).contains(
                "--add-host=host.docker.internal:host-gateway"@,
            )
            &&& !(runtime == "docker"@ && add_host_gateway_alias) ==> n == 28
            &&& "llm-box-broker"@ == BROKER_INTERNAL_HOST@
        }),
{
    let args = broker_args(runtime, image, s, network, alias, add_host_gateway_alias);
    let n = args.len() as int;
    let at = "/llm-box/session/"@;
    reveal_with_fuel(number::decimal, 5);
    reveal_strlit("3128");
    assert(number::decimal(3128) =~= "3128"@);
    reveal_strlit("/llm-box/session/");
    reveal_strlit("allowed-targets.txt");
    reveal_strlit("/llm-box/session/allowed-targets.txt");
    assert(at + "allowed-targets.txt"@ =~= "/llm-box/session/allowed-targets.txt"@);
    reveal_strlit("pending-events.jsonl");
    reveal_strlit("/llm-box/session/pending-events.jsonl");
    assert(at + "pending-events.jsonl"@ =~= "/llm-box/session/pending-events.jsonl"@);
    reveal_strlit("connectors.json");
    reveal_strlit("/llm-box/session/connectors.json");
    assert(at + "connectors.json"@ =~= "/llm-box/session/connectors.json"@);
    reveal_strlit("broker-ready.json");
    reveal_strlit("/llm-box/session/broker-ready.json");
    assert(at + "broker-ready.json"@ =~= "/llm-box/session/broker-ready.json"@);
    let front = args.take(n - 16);
    assert(front[1] == "--rm"@);
    assert(args[2] == "--name"@ && args[4] == "--network"@ && args[6] == "--network-alias"@
        && args[8] == "-v"@ && args[10] == "--entrypoint"@);
    let k: int = if runtime == "docker"@ && add_host_gateway_alias {
        13
    } else {
        12
    };
    assert(k == n - 16);
    assert(k == 12 || front[12] == "--add-host=host.docker.internal:host-gateway"@);
    assert(args[k] == image && args[k + 1] == "__broker"@);
    assert(args[k + 2] == "--listen-host"@ && args[k + 4] == "--listen-port"@);
    assert(args[k + 6] == "--allowed-targets-file"@ && args[k + 8] == "--pending-events-file"@);
    assert(args[k + 10] == "--connectors-file"@ && args[k + 12] == "--broker-ready-file"@);
    assert(args[k + 14] == "--host-loopback-alias"@);
}

/// The image of a workspace is built from its Dockerfile, in the workspace, on top of the base
/// image, and gets the name that is asked for.
pub proof fn workspace_image_extends_the_base(
    base: Seq<char>,
    workspace: Seq<char>,
    dockerfile: Seq<char>,
    image: Seq<char>,
)
    ensures
        ({
            let args = overlay_build_args(base, workspace, dockerfile, image);
            let n = args.len() as int;
            &&& n == 8
            &&& args[0] == "build"@
            &&& has_option(args, n, "-t"@, image)
            &&& has_option(args, n, "-f"@, dockerfile)
            &&& has_option(args, n, "--build-arg"@, "LLM_BOX_BASE_IMAGE="@ + base)
            &&& args[n - 1] == workspace
        }),
{
    let args = overlay_build_args(base, workspace, dockerfile, image);
    assert(args[1] == "-t"@ && args[3] == "-f"@ && args[5] == "--build-arg"@);
}

/// Without a Dockerfile of its own a workspace uses the base image; with one it uses an image whose
/// name holds the digest of the workspace.
pub proof fn workspace_has_its_own_image(config: AppConfig, workspace: Seq<u8>)
    ensures
        image_used(config, workspace, false) == config.image_name@,
        image_used(config, workspace, true) == "llm-box-workspace-"@ + number::hex(
            outside::sha256(workspace),
        ),
{
}

/// A container reaches the machine by the name that is given, or else by the one of its runtime.
pub proof fn machine_has_a_name_for_each_runtime(runtime: Seq<char>, named: Seq<char>)
    ensures
        loopback_alias_of(runtime, Some(named)) == named,
        loopback_alias_of("podman"@, None) == "host.containers.internal"@,
        runtime != "podman"@ ==> loopback_alias_of(runtime, None) == "host.docker.internal"@,
{
}

/// Only an entry point of the one word `copilot` is the assistant alone.
pub proof fn assistant_alone_is_one_word(words: Seq<Seq<char>>)
    ensures
        is_copilot_entrypoint(Some(words)) <==> words == seq!["copilot"@],
        !is_copilot_entrypoint(None),
{
    if words.len() == 1 && words[0] == "copilot"@ {
        assert(words =~= seq!["copilot"@]);
    }
}

/// The request for a connector is a `POST` request for `/__endpoint` that says how long its body is.
pub proof fn connector_request_is_written_out(length: nat)
    ensures
        endpoint_request_text(length)
            == "POST /__endpoint HTTP/1.1\r\nHost: llm-box-broker\r\nContent-Type: application/json\r\nContent-Length: "@
            + number::decimal(length) + "\r\nConnection: close\r\n\r\n"@,
{
    reveal_strlit("POST /__endpoint HTTP/1.1\r\nHost: ");
    reveal_strlit("llm-box-broker");
    reveal_strlit("\r\nContent-Type: application/json\r\nContent-Length: ");
    reveal_strlit(
        "POST /__endpoint HTTP/1.1\r\nHost: llm-box-broker\r\nContent-Type: application/json\r\nContent-Length: ",
    );
    assert("POST /__endpoint HTTP/1.1\r\nHost: "@ + "llm-box-broker"@
        + "\r\nContent-Type: application/json\r\nContent-Length: "@
        =~= "POST /__endpoint HTTP/1.1\r\nHost: llm-box-broker\r\nContent-Type: application/json\r\nContent-Length: "@);
}

/// A text mentions a part just where the part stands in it somewhere, whatever the case of letters
/// in the text.
pub proof fn mentioned_part_stands_somewhere(
    before: Seq<char>,
    written: Seq<char>,
    after: Seq<char>,
    part: Seq<char>,
)
    requires
        text::lower(written) == part,
    ensures
        mentions(before + written + after, part),
        !mentions(before, part) ==> forall|i: int|
            0 <= i <= before.len() ==> !#[trigger] text::occurs_at(text::lower(before), part, i),
{
    let s = text::lower(before + written + after);
    let n = before.len() as int;
    assert(s.subrange(n, n + part.len()) =~= part);
    assert(text::occurs_at(s, part, n));
    text::find_seq_is_first(s, part);
    text::find_seq_is_first(text::lower(before), part);
}

/// Only of `podman`, and only on a Mac, is it said that its machine has not been started.
pub proof fn only_podman_on_a_mac_is_started_by_hand(
    runtime: Seq<char>,
    on_macos: bool,
    output: Seq<char>,
)
    ensures
        is_stopped_podman(runtime, on_macos, output) ==> runtime == "podman"@ && on_macos
            && mentions(output, "podman"@),
        mentions(output, "podman"@) && mentions(output, "cannot connect"@) ==> is_stopped_podman(
            "podman"@,
            true,
            output,
        ),
        mentions(output, "podman"@) && mentions(output, "unable to connect to podman socket"@)
            ==> is_stopped_podman("podman"@, true, output),
        mentions(output, "podman"@) && mentions(output, "podman machine"@) ==> is_stopped_podman(
            "podman"@,
            true,
            output,
        ),
        !mentions(output, "cannot connect"@) && !mentions(
            output,
            "unable to connect to podman socket"@,
        ) && !mentions(output, "podman machine"@) ==> !is_stopped_podman(runtime, on_macos, output),
{
}

} // verus!
