//! Where the program keeps its state, and the destinations that every new session may reach.
use crate::canonical;
use crate::connectors;
use crate::egress;
use crate::egress::{EgressError, Target};
use crate::paths;
use crate::pieces;
use crate::target_set;
use crate::text;
use crate::text_set;
use vstd::prelude::*;
use vstd::string::*;

verus! {

broadcast use vstd::string::group_string_axioms;

/// The configuration of the program.
#[derive(Debug)]
pub struct AppConfig {
    pub repo_root: String,
    pub config_root: String,
    pub shared_copilot_skills_dir: Option<String>,
    pub image_name: String,
    /// The contents of the file of user defaults, where there is one.
    pub user_defaults: Option<String>,
}

/// What the environment says of the configuration.
#[derive(Debug)]
pub struct Environment {
    pub home: Option<String>,
    pub llm_box_home: Option<String>,
    pub llm_box_image: Option<String>,
    pub llm_box_shared_copilot_skills_dir: Option<String>,
}

/// What the configuration is refused for.
#[derive(Debug, Clone, Copy, PartialEq, Eq, Structural)]
pub enum ConfigError {
    HomeNotSet,
    RepoRootNotFound,
    SkillsNotADirectory,
}

/// A directory that may be the root of the repository.
#[derive(Debug)]
pub struct RootCandidate {
    pub path: String,
    pub has_dockerfile: bool,
    pub has_manifest: bool,
}

/// Whether a directory holds what the root of the repository holds.
pub open spec fn is_repo_root(c: RootCandidate) -> bool {
    c.has_dockerfile && c.has_manifest
}

/// Picks the first directory that holds both a Dockerfile and a manifest.
pub fn detect_repo_root(candidates: &Vec<RootCandidate>) -> (r: Result<String, ConfigError>)
    ensures
        match r {
            Ok(path) => exists|i: int|
                0 <= i < candidates@.len() && is_repo_root(#[trigger] candidates@[i]) && path@
                    == candidates@[i].path@ && forall|j: int|
                    0 <= j < i ==> !is_repo_root(#[trigger] candidates@[j]),
            Err(e) => e == ConfigError::RepoRootNotFound && forall|j: int|
                0 <= j < candidates@.len() ==> !is_repo_root(#[trigger] candidates@[j]),
        },
{
    let mut i: usize = 0;
    while i < candidates.len()
        invariant
            i <= candidates.len(),
            forall|j: int| 0 <= j < i ==> !is_repo_root(#[trigger] candidates@[j]),
        decreases candidates.len() - i,
    {
        if candidates[i].has_dockerfile && candidates[i].has_manifest {
            assert(is_repo_root(candidates@[i as int]));
            return Ok(candidates[i].path.clone());
        }
        i = i + 1;
    }
    Err(ConfigError::RepoRootNotFound)
}

/// The directory of shared skills that the environment names, `.copilot/skills` below the home
/// directory where it names none.
pub open spec fn skills_path(env: Environment) -> Option<Seq<char>> {
    match env.llm_box_shared_copilot_skills_dir {
        Some(path) => Some(path@),
        None => match env.home {
            Some(home) => Some(paths::joined(paths::joined(home@, ".copilot"@), "skills"@)),
            None => None,
        },
    }
}

/// Names the directory of shared skills; there is none without a home directory.
pub fn shared_copilot_skills_path(env: &Environment) -> (r: Option<String>)
    ensures
        connectors::opt_text(r) == skills_path(*env),
{
    match &env.llm_box_shared_copilot_skills_dir {
        Some(path) => Some(path.clone()),
        None => match &env.home {
            Some(home) => Some(
                paths::join(paths::join(home.as_str(), ".copilot").as_str(), "skills"),
            ),
            None => None,
        },
    }
}

/// A path that was looked up.
#[derive(Debug)]
pub struct FoundPath {
    pub canonical: String,
    pub is_dir: bool,
}

/// Decides whether the shared skills can be used: `None` where the path does not exist, an error
/// where it is no directory.
pub fn detect_shared_copilot_skills_dir(found: Option<FoundPath>) -> (r: Result<
    Option<String>,
    ConfigError,
>)
    ensures
        match found {
            None => r == Ok::<Option<String>, ConfigError>(None),
            Some(f) => if f.is_dir {
                r == Ok::<Option<String>, ConfigError>(Some(f.canonical))
            } else {
                r == Err::<Option<String>, ConfigError>(ConfigError::SkillsNotADirectory)
            },
        },
{
    match found {
        None => Ok(None),
        Some(f) => if f.is_dir {
            Ok(Some(f.canonical))
        } else {
            Err(ConfigError::SkillsNotADirectory)
        },
    }
}

/// The texts of the targets that the file of user defaults names; there are none without a file.
pub open spec fn default_texts(contents: Option<Seq<char>>) -> Result<
    Set<Seq<char>>,
    EgressError,
> {
    match contents {
        None => Ok(Set::empty()),
        Some(c) => match target_set::target_set_of(c) {
            Ok(set) => Ok(target_set::target_texts(set)),
            Err(e) => Err(e),
        },
    }
}

impl AppConfig {
    /// Sets up the configuration from the environment, the root of the repository and the
    /// directory of shared skills.
    pub fn detect(
        env: &Environment,
        repo_root: String,
        shared_copilot_skills_dir: Option<String>,
    ) -> (r: Result<AppConfig, ConfigError>)
        ensures
            match r {
                Ok(config) => {
                    &&& env.home is Some
                    &&& config.repo_root@ == repo_root@
                    &&& config.shared_copilot_skills_dir == shared_copilot_skills_dir
                    &&& config.config_root@ == match env.llm_box_home {
                        Some(path) => path@,
                        None => paths::joined(env.home->Some_0@, ".llm-box"@),
                    }
                    &&& config.image_name@ == match env.llm_box_image {
                        Some(name) => name@,
                        None => "llm-box"@,
                    }
                    &&& config.user_defaults is None
                },
                Err(e) => e == ConfigError::HomeNotSet && env.home is None,
            },
    {
        match &env.home {
            None => Err(ConfigError::HomeNotSet),
            Some(home) => Ok(
                AppConfig {
                    repo_root,
                    config_root: match &env.llm_box_home {
                        Some(path) => path.clone(),
                        None => paths::join(home.as_str(), ".llm-box"),
                    },
                    shared_copilot_skills_dir,
                    image_name: match &env.llm_box_image {
                        Some(name) => name.clone(),
                        None => "llm-box".to_string(),
                    },
                    user_defaults: None,
                },
            ),
        }
    }

    /// The root of the repository.
    pub fn repo_root(&self) -> (r: &str)
        ensures
            r@ == self.repo_root@,
    {
        self.repo_root.as_str()
    }

    /// The directory of the workspaces.
    pub fn workspaces_root(&self) -> (r: String)
        ensures
            r@ == paths::joined(self.config_root@, "workspaces"@),
    {
        paths::join(self.config_root.as_str(), "workspaces")
    }

    /// The directory of the sessions.
    pub fn sessions_root(&self) -> (r: String)
        ensures
            r@ == paths::joined(self.config_root@, "sessions"@),
    {
        paths::join(self.config_root.as_str(), "sessions")
    }

    /// The file that says where the approvals page is served.
    pub fn ui_ready_file(&self) -> (r: String)
        ensures
            r@ == paths::joined(self.config_root@, "ui-ready.json"@),
    {
        paths::join(self.config_root.as_str(), "ui-ready.json")
    }

    /// The file that says when the approvals page was last used.
    pub fn ui_activity_file(&self) -> (r: String)
        ensures
            r@ == paths::joined(self.config_root@, "ui-activity"@),
    {
        paths::join(self.config_root.as_str(), "ui-activity")
    }

    /// The file of user defaults.
    pub fn user_default_targets_file(&self) -> (r: String)
        ensures
            r@ == paths::joined(self.config_root@, "default-allowed-targets.txt"@),
    {
        paths::join(self.config_root.as_str(), "default-allowed-targets.txt")
    }

    /// The directory of shared skills.
    pub fn shared_copilot_skills_dir(&self) -> (r: Option<&str>)
        ensures
            text::opt_str(r) == connectors::opt_text(self.shared_copilot_skills_dir),
    {
        match &self.shared_copilot_skills_dir {
            Some(path) => Some(path.as_str()),
            None => None,
        }
    }

    /// The name of the container image.
    pub fn image_name(&self) -> (r: &str)
        ensures
            r@ == self.image_name@,
    {
        self.image_name.as_str()
    }

    /// Lists the user defaults in order, each of them once.
    pub fn user_default_targets(&self) -> (r: Result<Vec<String>, EgressError>)
        ensures
            match r {
                Ok(list) => default_texts(connectors::opt_text(self.user_defaults)) matches Ok(set)
                    && text_set::lists_texts(pieces::texts(list@), set),
                Err(e) => default_texts(connectors::opt_text(self.user_defaults)) == Err::<
                    Set<Seq<char>>,
                    EgressError,
                >(e),
            },
    {
        match &self.user_defaults {
            None => {
                let list: Vec<String> = Vec::new();
                assert(pieces::texts(list@).to_set() =~= Set::<Seq<char>>::empty());
                Ok(list)
            },
            Some(contents) => match target_set::parse_allowed_targets(contents.as_str()) {
                Err(e) => Err(e),
                Ok(targets) => {
                    let list = target_set::target_text_list(&targets);
                    proof {
                        target_set::texts_of_list(target_set::targets(targets@));
                    }
                    Ok(text_set::sorted_texts(list))
                },
            },
        }
    }

    /// Adds a destination to the user defaults. Where the file or the destination cannot be read,
    /// nothing changes.
    pub fn add_user_default_target(&mut self, target: &str) -> (r: Result<(), EgressError>)
        ensures
            r == (match default_texts(connectors::opt_text(old(self).user_defaults)) {
                Err(e) => Err(e),
                Ok(_) => match egress::target_named(target@) {
                    Err(e) => Err(e),
                    Ok(_) => Ok::<(), EgressError>(()),
                },
            }),
            r is Err ==> *final(self) == *old(self),
            r is Ok ==> same_place_as(*final(self), *old(self)) && final(self).user_defaults is Some
                && text_set::holds_texts(
                final(self).user_defaults->Some_0@,
                default_texts(connectors::opt_text(old(self).user_defaults))->Ok_0.insert(
                    egress::target_text(egress::target_named(target@)->Ok_0),
                ),
            ),
    {
        let list = match self.user_default_targets() {
            Ok(list) => list,
            Err(e) => return Err(e),
        };
        let target = match egress::parse_target_spec(target) {
            Ok(target) => target,
            Err(e) => return Err(e),
        };
        let after = text_set::insert_text(list, target.to_text());
        self.user_defaults = Some(text_set::write_lines(&after));
        assert(text_set::lists_texts(
            pieces::texts(after@),
            default_texts(connectors::opt_text(old(self).user_defaults))->Ok_0.insert(
                egress::target_text(target@),
            ),
        ));
        Ok(())
    }

    /// Removes a destination from the user defaults. Where the file or the destination cannot be
    /// read, nothing changes.
    pub fn remove_user_default_target(&mut self, target: &str) -> (r: Result<(), EgressError>)
        ensures
            r == (match default_texts(connectors::opt_text(old(self).user_defaults)) {
                Err(e) => Err(e),
                Ok(_) => match egress::target_named(target@) {
                    Err(e) => Err(e),
                    Ok(_) => Ok::<(), EgressError>(()),
                },
            }),
            r is Err ==> *final(self) == *old(self),
            r is Ok ==> same_place_as(*final(self), *old(self)) && final(self).user_defaults is Some
                && text_set::holds_texts(
                final(self).user_defaults->Some_0@,
                default_texts(connectors::opt_text(old(self).user_defaults))->Ok_0.remove(
                    egress::target_text(egress::target_named(target@)->Ok_0),
                ),
            ),
    {
        let list = match self.user_default_targets() {
            Ok(list) => list,
            Err(e) => return Err(e),
        };
        let target = match egress::parse_target_spec(target) {
            Ok(target) => target,
            Err(e) => return Err(e),
        };
        let after = text_set::remove_text(list, &target.to_text());
        self.user_defaults = Some(text_set::write_lines(&after));
        assert(text_set::lists_texts(
            pieces::texts(after@),
            default_texts(connectors::opt_text(old(self).user_defaults))->Ok_0.remove(
                egress::target_text(target@),
            ),
        ));
        Ok(())
    }
}

/// Whether two configurations differ at most in the user defaults.
pub open spec fn same_place_as(a: AppConfig, b: AppConfig) -> bool {
    &&& a.repo_root == b.repo_root
    &&& a.config_root == b.config_root
    &&& a.shared_copilot_skills_dir == b.shared_copilot_skills_dir
    &&& a.image_name == b.image_name
}

// ---------------------------------------------------------------------------
// Laws
// ---------------------------------------------------------------------------

/// A text list of canonical targets is the list of those targets, one on each line.
proof fn text_lines_of_targets(s: Seq<Seq<char>>, ts: Seq<Target>)
    requires
        s.len() == ts.len(),
        forall|i: int| 0 <= i < s.len() ==> #[trigger] s[i] == egress::target_text(ts[i]),
    ensures
        text_set::text_lines(s) == target_set::target_lines(ts),
    decreases s.len(),
{
    if s.len() > 0 {
        text_lines_of_targets(s.drop_last(), ts.drop_last());
    }
}

/// Reading back a file of user defaults that holds the texts of canonical targets gives those
/// texts.
pub proof fn user_defaults_round_trip(contents: Seq<char>, set: Set<Target>)
    requires
        text_set::holds_texts(contents, target_set::target_texts(set)),
        forall|t: Target| #[trigger] set.contains(t) ==> canonical::is_canonical(t),
    ensures
        default_texts(Some(contents)) == Ok::<Set<Seq<char>>, EgressError>(target_set::target_texts(set)),
{
    let s = choose|s: Seq<Seq<char>>| #[trigger]
        text_set::lists_texts(s, target_set::target_texts(set)) && contents == text_set::text_lines(s);
    let f = |t: Target| egress::target_text(t);
    let ts = Seq::new(s.len(), |i: int| choose|t: Target| set.contains(t) && s[i] == f(t));
    assert forall|i: int| 0 <= i < s.len() implies set.contains(#[trigger] ts[i]) && s[i]
        == egress::target_text(ts[i]) by {
        assert(s.to_set().contains(s[i]));
        let t = target_set::target_with_text(set, s[i]);
        assert(set.contains(t) && s[i] == f(t));
    }
    text_lines_of_targets(s, ts);
    target_set::target_file_round_trip(ts);
    target_set::texts_of_list(ts);
    assert(ts.map_values(f) =~= s);
}

/// The targets that the file of user defaults names are canonical.
proof fn defaults_are_canonical(contents: Option<Seq<char>>) -> (set: Set<Target>)
    requires
        default_texts(contents) is Ok,
    ensures
        default_texts(contents) == Ok::<Set<Seq<char>>, EgressError>(target_set::target_texts(set)),
        forall|t: Target| #[trigger] set.contains(t) ==> canonical::is_canonical(t),
{
    reveal(target_set::target_set_of);
    match contents {
        None => {
            let none = Set::<Target>::empty();
            assert(target_set::target_texts(none) =~= Set::<Seq<char>>::empty());
            none
        },
        Some(c) => {
            let ts = target_set::targets_on_lines(pieces::lines(c))->Ok_0;
            target_set::file_targets_are_canonical(pieces::lines(c), ts);
            assert forall|t: Target| #[trigger] ts.to_set().contains(t) implies
                canonical::is_canonical(t) by {
                let i = choose|i: int| 0 <= i < ts.len() && ts[i] == t;
                assert(canonical::is_canonical(ts[i]));
            }
            ts.to_set()
        },
    }
}

/// A destination that was added to the user defaults is there, in canonical form, and all others
/// are as before.
pub proof fn added_default_is_kept(before: Option<Seq<char>>, target: Seq<char>, after: Seq<char>)
    requires
        default_texts(before) is Ok,
        egress::target_named(target) is Ok,
        text_set::holds_texts(
            after,
            default_texts(before)->Ok_0.insert(
                egress::target_text(egress::target_named(target)->Ok_0),
            ),
        ),
    ensures
        default_texts(Some(after)) == Ok::<Set<Seq<char>>, EgressError>(
            default_texts(before)->Ok_0.insert(
                egress::target_text(egress::target_named(target)->Ok_0),
            ),
        ),
{
    let set = defaults_are_canonical(before);
    let t = egress::target_named(target)->Ok_0;
    canonical::parsed_target_is_canonical(target, t);
    let f = |t: Target| egress::target_text(t);
    let wider = set.insert(t);
    assert forall|x: Seq<char>|
        target_set::target_texts(wider).contains(x) <==> target_set::target_texts(set).insert(f(t)).contains(x) by {
        if target_set::target_texts(wider).contains(x) {
            let u = target_set::target_with_text(wider, x);
            if u != t {
                assert(set.contains(u) && x == f(u));
            }
        }
        if target_set::target_texts(set).contains(x) {
            let u = target_set::target_with_text(set, x);
            assert(wider.contains(u) && x == f(u));
        }
        if x == f(t) {
            assert(wider.contains(t) && x == f(t));
        }
    }
    assert(target_set::target_texts(wider) =~= target_set::target_texts(set).insert(f(t)));
    user_defaults_round_trip(after, wider);
}

/// A destination that was removed from the user defaults is no longer there, and all others are as
/// before.
pub proof fn removed_default_is_gone(before: Option<Seq<char>>, target: Seq<char>, after: Seq<char>)
    requires
        default_texts(before) is Ok,
        egress::target_named(target) is Ok,
        text_set::holds_texts(
            after,
            default_texts(before)->Ok_0.remove(
                egress::target_text(egress::target_named(target)->Ok_0),
            ),
        ),
    ensures
        default_texts(Some(after)) == Ok::<Set<Seq<char>>, EgressError>(
            default_texts(before)->Ok_0.remove(
                egress::target_text(egress::target_named(target)->Ok_0),
            ),
        ),
{
    let set = defaults_are_canonical(before);
    let t = egress::target_named(target)->Ok_0;
    canonical::parsed_target_is_canonical(target, t);
    let f = |t: Target| egress::target_text(t);
    let narrower = set.remove(t);
    assert forall|x: Seq<char>|
        target_set::target_texts(narrower).contains(x) <==> target_set::target_texts(set).remove(f(t)).contains(x) by {
        if target_set::target_texts(narrower).contains(x) {
            let u = target_set::target_with_text(narrower, x);
            assert(set.contains(u) && x == f(u));
            if x == f(t) {
                canonical::canonical_text_identifies(u, t);
            }
        }
        if target_set::target_texts(set).remove(f(t)).contains(x) {
            let u = target_set::target_with_text(set, x);
            assert(narrower.contains(u) && x == f(u));
        }
    }
    assert(target_set::target_texts(narrower) =~= target_set::target_texts(set).remove(f(t)));
    user_defaults_round_trip(after, narrower);
}

/// The shared skills are where the environment says, or else in `.copilot/skills` below the home
/// directory; without either there are none.
pub proof fn skills_are_found(env: Environment)
    ensures
        env.llm_box_shared_copilot_skills_dir matches Some(path) ==> skills_path(env) == Some(
            path@,
        ),
        env.llm_box_shared_copilot_skills_dir is None && env.home is None ==> skills_path(env)
            == None::<Seq<char>>,
        env.llm_box_shared_copilot_skills_dir is None && env.home is Some
            && env.home->Some_0@.len() > 0 && env.home->Some_0@[env.home->Some_0@.len() - 1] != '/'
            ==> skills_path(env) == Some(env.home->Some_0@ + "/.copilot/skills"@),
{
    reveal_strlit(".copilot");
    reveal_strlit("skills");
    reveal_strlit("/.copilot/skills");
    if env.home is Some {
        let home = env.home->Some_0@;
        if home.len() > 0 && home[home.len() - 1] != '/' {
            let dir = paths::joined(home, ".copilot"@);
            assert(dir =~= home + seq!['/'] + ".copilot"@);
            assert(dir.last() == 't');
            assert(paths::joined(dir, "skills"@) =~= home + "/.copilot/skills"@);
        }
    }
}

} // verus!
