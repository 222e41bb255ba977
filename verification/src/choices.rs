//! What the program chooses at its turning points: each law speaks of every value that a function
//! may return under its contract.
use crate::broker::{BrokerState, Verdict};
use crate::commands;
use crate::config;
use crate::config::{AppConfig, ConfigError, Environment, FoundPath, RootCandidate};
use crate::containers;
use crate::containers::{BrokerProgress, ImagePlan, OverlayError, SessionNetwork, TtyMode};
use crate::egress;
use crate::egress::{EgressError, EgressTarget};
use crate::locks;
use crate::locks::{LockAction, LockError, LockTry};
use crate::number;
use crate::paths;
use crate::pieces;
use crate::proxy::ProxyState;
use crate::runtime;
use crate::static_files;
use crate::static_files::StaticStep;
use crate::text;
use crate::ui;
use crate::ui::{HubNotice, HubStep};
use crate::webui;
use crate::webui::{HeadReader, MutationBody, MutationError, SessionIdError, UiFailure};
use vstd::prelude::*;
use vstd::string::*;

verus! {

broadcast use vstd::string::group_string_axioms;

// ---------------------------------------------------------------------------
// Running the assistant
// ---------------------------------------------------------------------------

/// A process that gave an exit code ends with it; one that was ended from outside fails unless it
/// reports success.
pub proof fn exit_code_is_passed_on(code: Option<i32>, success: bool, r: i32)
    requires
        call_ensures(runtime::exit_code_of, (code, success), r),
    ensures
        code matches Some(c) ==> r == c,
        code is None && success ==> r == 0,
        code is None && !success ==> r == 1,
{
}

/// The assistant is connected to a terminal only where both its input and its output are one.
pub proof fn terminal_needs_both_ends(input: bool, output: bool, r: TtyMode)
    requires
        call_ensures(TtyMode::of, (input, output), r),
    ensures
        r == TtyMode::Interactive <==> input && output,
{
}

/// The runtime that is named is taken, whatever is there; else `docker` where it is there, else
/// `podman`; without any there is none.
pub proof fn named_runtime_is_taken(
    named: Option<String>,
    has_docker: bool,
    has_podman: bool,
    r: Option<String>,
)
    requires
        call_ensures(containers::detect_runtime, (named, has_docker, has_podman), r),
    ensures
        named is Some ==> r == named,
        named is None && has_docker ==> r is Some && r->Some_0@ == "docker"@,
        named is None && !has_docker && has_podman ==> r is Some && r->Some_0@ == "podman"@,
        named is None && !has_docker && !has_podman ==> r is None,
{
    assert(crate::connectors::opt_text(r) is Some <==> r is Some);
}

/// The broker is ready once it says that it listens on its port, however late; before that it is
/// given up at the deadline, and where it has ended it is not waited for.
pub proof fn broker_is_waited_for(
    port: Option<u16>,
    past_deadline: bool,
    exited: bool,
    r: BrokerProgress,
)
    requires
        call_ensures(containers::broker_progress, (port, past_deadline, exited), r),
    ensures
        r == BrokerProgress::Ready <==> port == Some(3128u16),
        port != Some(3128u16) && past_deadline ==> r == BrokerProgress::TimedOut,
        port != Some(3128u16) && !past_deadline && exited ==> r == BrokerProgress::Exited,
        port != Some(3128u16) && !past_deadline && !exited ==> r == BrokerProgress::Wait,
{
}

/// The broker joins the network that leads out as soon as it runs, and only once.
pub proof fn broker_joins_once(connected: bool, running: bool, r: bool)
    requires
        call_ensures(containers::attaches_now, (connected, running), r),
    ensures
        r ==> running && !connected,
        running && !connected ==> r,
{
}

/// The two networks of a session have different names, and the one of the assistant is made without
/// a way out.
pub proof fn networks_are_kept_apart(
    runtime: &str,
    id: &str,
    network: SessionNetwork,
    made: Vec<String>,
    led_out: Vec<String>,
)
    requires
        call_ensures(SessionNetwork::named, (runtime, id), network),
        call_ensures(SessionNetwork::create_internal_args, (&network,), made),
        call_ensures(SessionNetwork::create_external_args, (&network,), led_out),
    ensures
        network.internal_name@ != network.external_name@,
        pieces::texts(made@).contains("--internal"@),
        pieces::texts(made@).contains(network.internal_name@),
        pieces::texts(led_out@).contains(network.external_name@),
        id@.len() > 0 ==> !pieces::texts(led_out@).contains("--internal"@),
{
    reveal_strlit("llm-box-internal-");
    reveal_strlit("llm-box-external-");
    reveal_strlit("--internal");
    reveal_strlit("network");
    reveal_strlit("create");
    assert(network.internal_name@[8] == 'i' && network.external_name@[8] == 'e');
    assert(pieces::texts(made@)[2] == "--internal"@);
    assert(pieces::texts(made@)[3] == network.internal_name@);
    let out = pieces::texts(led_out@);
    assert(out[2] == network.external_name@);
    assert(out[0].len() == 7 && out[1].len() == 6 && "--internal"@.len() == 10);
    assert(out[2].len() >= 17);
}

/// The base image is built where it is missing or too old and only there; the image of a workspace
/// with a Dockerfile of its own is always built.
pub proof fn images_are_built_where_needed(
    config: &AppConfig,
    workspace: &Vec<u8>,
    exists_: bool,
    current: bool,
    overlay: Option<String>,
    r: ImagePlan,
)
    requires
        call_ensures(
            containers::ensure_copilot_image,
            (config, workspace, exists_, current, overlay),
            r,
        ),
    ensures
        r.build_base <==> !(exists_ && current),
        r.overlay == overlay,
        overlay is None ==> r.image_name@ == config.image_name@,
        overlay is Some ==> r.image_name@ == "llm-box-workspace-"@ + number::hex(
            crate::outside::sha256(workspace@),
        ),
{
}

/// A build builds the base image in any case.
pub proof fn build_builds_everything(
    config: &AppConfig,
    workspace: &Vec<u8>,
    overlay: Option<String>,
    r: ImagePlan,
)
    requires
        call_ensures(containers::build_copilot_image, (config, workspace, overlay), r),
    ensures
        r.build_base,
        r.overlay == overlay,
        overlay is None ==> r.image_name@ == config.image_name@,
{
}

/// The Dockerfile of a workspace is `.llm-box/Dockerfile` in it. It is used where it is a file, and
/// what is there but is no file is an error; it is never overwritten.
pub proof fn dockerfile_of_a_workspace(
    workspace: &str,
    there: bool,
    file: bool,
    found: Result<Option<String>, OverlayError>,
    made: Result<(String, &'static str), OverlayError>,
)
    requires
        call_ensures(containers::repo_overlay_dockerfile, (workspace, there, file), found),
        call_ensures(containers::init_repo_overlay_dockerfile, (workspace, there), made),
    ensures
        ({
            let path = paths::joined(workspace@, ".llm-box/Dockerfile"@);
            &&& !there ==> found == Ok::<Option<String>, OverlayError>(None)
            &&& there && !file ==> found == Err::<Option<String>, OverlayError>(
                OverlayError::NotAFile,
            )
            &&& there && file ==> found is Ok && found->Ok_0 is Some && found->Ok_0->Some_0@ == path
            &&& there ==> made == Err::<(String, &'static str), OverlayError>(
                OverlayError::AlreadyExists,
            )
            &&& !there ==> made is Ok && made->Ok_0.0@ == path
        }),
{
    if there && file {
        assert(crate::connectors::opt_text(found->Ok_0) is Some);
    }
}

// ---------------------------------------------------------------------------
// The approvals page
// ---------------------------------------------------------------------------

/// The page is wanted from a terminal only, and not where browsers are switched off.
pub proof fn page_is_wanted_from_a_terminal(input: bool, output: bool, off: bool, r: bool)
    requires
        call_ensures(ui::wants_hub, (input, output, off), r),
    ensures
        r <==> input && output && !off,
{
}

/// A browser is opened for a page that was just started or is not in use; one in use is left alone,
/// and only pointed to where a session is asked for.
pub proof fn browser_is_opened_once(started: bool, active: bool, focus: bool, r: HubNotice)
    requires
        call_ensures(ui::hub_notice, (started, active, focus), r),
    ensures
        r == HubNotice::OpenBrowser <==> started || !active,
        r == HubNotice::PointToSession <==> !started && active && focus,
        r == HubNotice::Nothing <==> !started && active && !focus,
{
}

/// The server of the page is ready once it answers, however late; before that it is given up at the
/// deadline, and where it has ended it is not waited for.
pub proof fn page_server_is_waited_for(
    answering: Option<u16>,
    past_deadline: bool,
    exited: bool,
    r: HubStep,
)
    requires
        call_ensures(ui::hub_step, (answering, past_deadline, exited), r),
    ensures
        answering matches Some(port) ==> r == HubStep::Ready(port),
        answering is None && past_deadline ==> r == HubStep::TimedOut,
        answering is None && !past_deadline && exited ==> r == HubStep::Exited,
        answering is None && !past_deadline && !exited ==> r == HubStep::Wait,
{
}

/// The query of a request plays no part in what is asked for, and every request but one after the
/// health counts as use of the page.
pub proof fn query_is_cut_off(
    reader: &HeadReader,
    path: Seq<char>,
    query: Seq<char>,
    r: &str,
    used: bool,
)
    requires
        call_ensures(HeadReader::route, (reader,), r),
        call_ensures(HeadReader::marks_activity, (reader,), used),
        !path.contains('?'),
        reader@.target == path + seq!['?'] + query || reader@.target == path,
    ensures
        r@ == path,
        used <==> path != "/api/health"@,
{
    text::text_is_split_at_a_character(path, query, '?');
}

/// A decision is refused where its session cannot be the name of one; else where its destination
/// cannot be read; what is left names the session as it stands and the destination in canonical
/// form.
pub proof fn decision_is_checked(
    id: &str,
    target: &str,
    r: Result<MutationBody, MutationError>,
)
    requires
        call_ensures(webui::parse_mutation_body, (id, target), r),
    ensures
        !paths::is_single_name(id@) ==> r == Err::<MutationBody, MutationError>(
            MutationError::Session(SessionIdError::Invalid),
        ),
        paths::is_single_name(id@) && egress::target_named(target@) is Err ==> r == Err::<
            MutationBody,
            MutationError,
        >(MutationError::Target(egress::target_named(target@)->Err_0)),
        paths::is_single_name(id@) && egress::target_named(target@) is Ok ==> r is Ok
            && r->Ok_0.session_id@ == id@ && egress::target_named(r->Ok_0.target@)
            == egress::target_named(target@),
{
    if paths::is_single_name(id@) && egress::target_named(target@) is Ok {
        crate::canonical::canonicalization_is_idempotent(
            target@,
            egress::target_named(target@)->Ok_0,
        );
    }
}

/// A session is found in its own directory, where its name is one and there is a file about it.
pub proof fn session_is_found_by_its_name(
    root: &str,
    id: &str,
    has_meta: bool,
    r: Result<String, SessionIdError>,
)
    requires
        call_ensures(webui::session_dir_for_id, (root, id, has_meta), r),
    ensures
        r is Ok <==> paths::is_single_name(id@) && has_meta,
        r matches Ok(dir) ==> dir@ == paths::joined(root@, id@),
        r == Err::<String, SessionIdError>(SessionIdError::Invalid) <==> !paths::is_single_name(
            id@,
        ),
{
}

/// The session that is named is shown first where it is there, and refused where it is not; without
/// one the latest is.
pub proof fn named_session_is_shown_first(
    named: Option<String>,
    has_meta: bool,
    latest: Option<String>,
    r: Result<Option<String>, SessionIdError>,
)
    requires
        call_ensures(commands::preferred_ui_session, (named, has_meta, latest), r),
    ensures
        named is None ==> r == Ok::<Option<String>, SessionIdError>(latest),
        named matches Some(id) ==> (r is Ok <==> paths::is_single_name(id@) && has_meta),
        named is Some && r is Ok ==> r == Ok::<Option<String>, SessionIdError>(named),
{
}

/// Files are sent for `GET` and `HEAD` requests only, and for the second without their body.
pub proof fn files_are_sent_for_two_methods(
    directory: &str,
    method: &str,
    path: &str,
    r: StaticStep,
)
    requires
        call_ensures(static_files::static_step, (directory, method, path), r),
    ensures
        r is Refuse <==> method@ != "GET"@ && method@ != "HEAD"@,
        r matches StaticStep::Refuse(failure) ==> failure == UiFailure::MethodNotAllowed,
        r matches StaticStep::Serve { path: file, with_body } ==> paths::resolved(
            directory@,
            path@,
        ) == Some(file@) && (with_body <==> method@ == "GET"@),
        r is Drop ==> paths::resolved(directory@, path@) is None,
{
    reveal_strlit("GET");
    reveal_strlit("HEAD");
    assert("GET"@.len() == 3 && "HEAD"@.len() == 4);
}

// ---------------------------------------------------------------------------
// Locks and configuration
// ---------------------------------------------------------------------------

/// A lock is taken where its file was made, tried again at once where a stale one was removed, and
/// waited for up to two seconds.
pub proof fn lock_is_waited_for(tried: LockTry, r: Result<LockAction, LockError>)
    requires
        call_ensures(locks::acquire_file_lock, (tried,), r),
    ensures
        r == Ok::<LockAction, LockError>(LockAction::Proceed) <==> tried is Created,
        tried matches LockTry::Taken { stale_removed, waited_millis } ==> {
            &&& stale_removed ==> r == Ok::<LockAction, LockError>(LockAction::TryAgain)
            &&& !stale_removed && waited_millis < 2000 ==> r == Ok::<LockAction, LockError>(
                LockAction::WaitAndTryAgain,
            )
            &&& !stale_removed && waited_millis >= 2000 ==> r == Err::<LockAction, LockError>(
                LockError::TimedOut,
            )
        },
{
}

/// A directory is the root of the repository where it holds both a Dockerfile and a manifest.
pub proof fn repository_has_two_files(c: RootCandidate)
    ensures
        config::is_repo_root(c) <==> c.has_dockerfile && c.has_manifest,
{
}

/// Shared skills are used where they are a directory, are an error where they are something else,
/// and are left out where they are not there.
pub proof fn skills_are_a_directory(
    found: Option<FoundPath>,
    r: Result<Option<String>, ConfigError>,
)
    requires
        call_ensures(config::detect_shared_copilot_skills_dir, (found,), r),
    ensures
        found is None ==> r == Ok::<Option<String>, ConfigError>(None),
        found matches Some(f) ==> (r is Err <==> !f.is_dir),
        found matches Some(f) ==> f.is_dir ==> r == Ok::<Option<String>, ConfigError>(
            Some(f.canonical),
        ),
{
}

/// What the environment says decides; without it files are kept in `.llm-box` below the home
/// directory and the image is `llm-box`. There is no configuration without a home directory.
pub proof fn environment_decides(
    env: &Environment,
    repo_root: String,
    skills: Option<String>,
    r: Result<AppConfig, ConfigError>,
)
    requires
        call_ensures(AppConfig::detect, (env, repo_root, skills), r),
    ensures
        r is Ok <==> env.home is Some,
        r matches Ok(config) ==> {
            &&& config.repo_root@ == repo_root@
            &&& config.shared_copilot_skills_dir == skills
            &&& env.llm_box_home matches Some(path) ==> config.config_root@ == path@
            &&& env.llm_box_home is None ==> config.config_root@ == paths::joined(
                env.home->Some_0@,
                ".llm-box"@,
            )
            &&& env.llm_box_image matches Some(name) ==> config.image_name@ == name@
            &&& env.llm_box_image is None ==> config.image_name@ == "llm-box"@
        },
{
}

// ---------------------------------------------------------------------------
// The network
// ---------------------------------------------------------------------------

/// The broker connects to a target just where it is approved, at its own port, and else answers that
/// it is not.
pub proof fn broker_connects_to_approved_targets(
    state: &BrokerState,
    target: &EgressTarget,
    r: Result<Verdict, EgressError>,
)
    requires
        call_ensures(BrokerState::judge, (state, target), r),
        state.allowed is Some,
        crate::target_set::target_set_of(state.allowed->Some_0@) is Ok,
    ensures
        ({
            let approved = crate::target_set::target_set_of(
                state.allowed->Some_0@,
            )->Ok_0.contains(target@);
            &&& r matches Ok(Verdict::Connect { host, port }) ==> approved && port == target.port
            &&& r matches Ok(Verdict::Block { reply }) ==> !approved
            &&& r is Ok
            &&& target.host@ != "localhost"@ && target.host@ != "127.0.0.1"@ && target.host@
                != "::1"@ ==> (r matches Ok(Verdict::Connect { host, port }) ==> host@
                == target.host@)
        }),
{
}

/// The proxy lets a host through just where its file names it, in whatever form.
pub proof fn proxy_lets_named_hosts_through(
    state: &ProxyState,
    host: &str,
    r: Result<bool, EgressError>,
)
    requires
        call_ensures(ProxyState::is_allowed, (state, host), r),
        egress::normalized_host(host@) is Ok,
        state.allowed is Some,
    ensures
        ({
            let name = egress::normalized_host(host@)->Ok_0;
            let lines = pieces::lines(state.allowed->Some_0@);
            r matches Ok(through) ==> (through <==> exists|i: int|
                0 <= i < lines.len() && text::trim(#[trigger] lines[i]).len() > 0
                    && egress::normalized_host(lines[i]) == Ok::<Seq<char>, EgressError>(name))
        }),
{
    crate::proxy::lines_name_the_hosts(
        state.allowed->Some_0@,
        egress::normalized_host(host@)->Ok_0,
    );
}

} // verus!
