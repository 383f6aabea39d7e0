//! The server configuration file: its sections, their defaults, when a
//! section counts as unset, how Agent Skills repositories are registered in
//! it, and how a project configuration is laid over the global one.
//! Reading and writing the YAML file is the caller's.
use vstd::prelude::*;
use crate::paths::PathsConfig;
use crate::policy::PolicyConfig;
use crate::sandbox::{SandboxBackend, SandboxConfig, SandboxView};
use crate::sync::AgentSkillsRepoConfig;
use crate::text::{str_eq, vec_str_eq, views};
use crate::upstream::UpstreamConfig;

verus! {

/// Settings of the MCP server itself.
#[derive(Debug)]
pub struct ServerConfig {
    pub bind: String,
    pub transport: String,
    pub log_level: String,
}

/// Default bind address.
pub fn default_bind() -> (r: String)
    ensures
        r@ == "127.0.0.1:8000"@,
{
    String::from_str("127.0.0.1:8000")
}

/// Default transport.
pub fn default_transport() -> (r: String)
    ensures
        r@ == "stdio"@,
{
    String::from_str("stdio")
}

/// Default log level.
pub fn default_log_level() -> (r: String)
    ensures
        r@ == "info"@,
{
    String::from_str("info")
}

impl Default for ServerConfig {
    fn default() -> (r: ServerConfig)
        ensures
            server_is_default(r),
    {
        ServerConfig { bind: default_bind(), transport: default_transport(), log_level: default_log_level() }
    }
}

/// Whether the global configuration is laid under the project one.
#[derive(Debug, Clone, Copy, PartialEq, Eq, Structural)]
pub struct UseGlobalSettings {
    pub enabled: bool,
}

impl Default for UseGlobalSettings {
    fn default() -> (r: UseGlobalSettings)
        ensures
            !r.enabled,
    {
        UseGlobalSettings { enabled: false }
    }
}

/// The configuration file.
#[derive(Debug)]
pub struct Config {
    pub server: ServerConfig,
    pub policy: PolicyConfig,
    pub upstreams: Vec<UpstreamConfig>,
    pub paths: PathsConfig,
    pub sandbox: SandboxConfig,
    pub use_global: UseGlobalSettings,
    /// Agent Skills repositories to sync.
    pub agent_skills_repos: Vec<AgentSkillsRepoConfig>,
}

// ---------------------------------------------------------------------------
// Defaults
// ---------------------------------------------------------------------------

/// Whether the server section holds its default values.
pub open spec fn server_is_default(c: ServerConfig) -> bool {
    &&& c.bind@ == "127.0.0.1:8000"@
    &&& c.transport@ == "stdio"@
    &&& c.log_level@ == "info"@
}

/// Whether the policy section holds the values of `PolicyConfig::default()`.
pub open spec fn policy_is_default(c: PolicyConfig) -> bool {
    &&& c.default_risk@ == "unknown"@
    &&& views(c.require_consent_for@) == seq!["writes"@, "destructive"@, "admin"@]
    &&& c.trusted_servers@.len() == 0
    &&& c.deny_tags@.len() == 0
    &&& c.max_calls_per_skill == 30
    &&& c.max_exec_ms == 120000
    &&& views(c.allow_patterns@) == seq!["*"@]
    &&& c.deny_patterns@.len() == 0
}

/// Whether the sandbox section holds the default values in every setting
/// but the Docker one.
pub open spec fn sandbox_is_default(c: SandboxView) -> bool {
    &&& c.backend == SandboxBackend::Timeout
    &&& c.timeout_ms == 30000
    &&& c.allow_read.len() == 0
    &&& c.allow_write.len() == 0
    &&& !c.allow_network
    &&& c.max_memory_bytes == 536870912
    &&& c.max_cpu_seconds == 30
}

/// Whether the configuration holds nothing but defaults.
pub open spec fn config_is_empty(c: Config) -> bool {
    &&& c.upstreams@.len() == 0
    &&& c.agent_skills_repos@.len() == 0
    &&& server_is_default(c.server)
    &&& policy_is_default(c.policy)
    &&& c.paths.is_none()
    &&& sandbox_is_default(c.sandbox@)
    &&& !c.use_global.enabled
}

/// Whether the server section holds its default values.
pub fn is_default_server_config(cfg: &ServerConfig) -> (r: bool)
    ensures
        r == server_is_default(*cfg),
{
    let b = default_bind();
    let t = default_transport();
    let l = default_log_level();
    str_eq(cfg.bind.as_str(), b.as_str()) && str_eq(cfg.transport.as_str(), t.as_str())
        && str_eq(cfg.log_level.as_str(), l.as_str())
}

/// Whether the policy section holds the default values.
pub fn is_default_policy_config(cfg: &PolicyConfig) -> (r: bool)
    ensures
        r == policy_is_default(*cfg),
{
    let d = PolicyConfig::default();
    str_eq(cfg.default_risk.as_str(), d.default_risk.as_str())
        && vec_str_eq(&cfg.require_consent_for, &d.require_consent_for)
        && cfg.trusted_servers.len() == 0
        && cfg.deny_tags.len() == 0
        && cfg.max_calls_per_skill == d.max_calls_per_skill
        && cfg.max_exec_ms == d.max_exec_ms
        && vec_str_eq(&cfg.allow_patterns, &d.allow_patterns)
        && cfg.deny_patterns.len() == 0
}

/// Whether no path is overridden.
pub fn is_default_paths_config(cfg: &PathsConfig) -> (r: bool)
    ensures
        r == cfg.is_none(),
{
    cfg.data_dir.is_none() && cfg.config_dir.is_none() && cfg.cache_dir.is_none()
        && cfg.database_path.is_none() && cfg.skills_root.is_none() && cfg.logs_dir.is_none()
}

/// Whether the sandbox section holds the default values (its Docker
/// settings aside).
pub fn is_default_sandbox_config(cfg: &SandboxConfig) -> (r: bool)
    ensures
        r == sandbox_is_default(cfg@),
{
    cfg.backend == SandboxBackend::Timeout && cfg.timeout_ms == 30000 && cfg.allow_read.len() == 0
        && cfg.allow_write.len() == 0 && !cfg.allow_network && cfg.max_memory_bytes == 536870912
        && cfg.max_cpu_seconds == 30
}

/// Whether the global configuration is not used.
pub fn is_default_use_global(cfg: &UseGlobalSettings) -> (r: bool)
    ensures
        r == !cfg.enabled,
{
    !cfg.enabled
}

impl Config {
    /// Whether the configuration holds nothing but defaults.
    pub fn is_empty(&self) -> (r: bool)
        ensures
            r == config_is_empty(*self),
    {
        self.upstreams.len() == 0 && self.agent_skills_repos.len() == 0 && is_default_server_config(
            &self.server,
        ) && is_default_policy_config(&self.policy) && is_default_paths_config(&self.paths)
            && is_default_sandbox_config(&self.sandbox) && is_default_use_global(&self.use_global)
    }
}

impl Default for Config {
    fn default() -> (r: Config)
        ensures
            config_is_empty(r),
    {
        let r = Config {
            server: ServerConfig::default(),
            policy: PolicyConfig::default(),
            upstreams: Vec::new(),
            paths: PathsConfig::none(),
            sandbox: SandboxConfig::default(),
            use_global: UseGlobalSettings::default(),
            agent_skills_repos: Vec::new(),
        };
        assert(views(r.policy.trusted_servers@).len() == 0);
        r
    }
}

// ---------------------------------------------------------------------------
// Repositories
// ---------------------------------------------------------------------------

/// The repositories named in a list of repository settings.
pub open spec fn repo_names(s: Seq<AgentSkillsRepoConfig>) -> Seq<Seq<char>> {
    s.map_values(|c: AgentSkillsRepoConfig| c.repo@)
}

/// The position of the first setting of repository `repo`.
pub open spec fn repo_position(s: Seq<AgentSkillsRepoConfig>, repo: Seq<char>) -> Option<int> {
    if exists|i: int| 0 <= i < s.len() && (#[trigger] s[i]).repo@ == repo {
        Some(choose|i: int| 0 <= i < s.len() && (#[trigger] s[i]).repo@ == repo
            && forall|j: int| 0 <= j < i ==> (#[trigger] s[j]).repo@ != repo)
    } else {
        None
    }
}

/// The repository names after registering `repo`: unchanged when it is
/// already there, else with `repo` appended.
pub open spec fn names_after_add(names: Seq<Seq<char>>, repo: Seq<char>) -> Seq<Seq<char>> {
    if names.contains(repo) { names } else { names.push(repo) }
}

/// Whether no name occurs twice.
pub open spec fn distinct_names(names: Seq<Seq<char>>) -> bool {
    forall|i: int, j: int| 0 <= i < j < names.len() ==> names[i] != names[j]
}

/// The position of the first setting of `repo`, if any.
fn find_repo(repos: &Vec<AgentSkillsRepoConfig>, repo: &str) -> (r: Option<usize>)
    ensures
        match r {
            Some(i) => i < repos@.len() && repos@[i as int].repo@ == repo@ && forall|j: int|
                0 <= j < i ==> (#[trigger] repos@[j]).repo@ != repo@,
            None => forall|j: int| 0 <= j < repos@.len() ==> (#[trigger] repos@[j]).repo@ != repo@,
        },
{
    let mut i: usize = 0;
    while i < repos.len()
        invariant
            i <= repos.len(),
            forall|j: int| 0 <= j < i ==> (#[trigger] repos@[j]).repo@ != repo@,
        decreases repos.len() - i,
    {
        if str_eq(repos[i].repo.as_str(), repo) {
            return Some(i);
        }
        i = i + 1;
    }
    None
}

/// The first position of a repository is the one `find_repo` finds.
proof fn lemma_repo_position(s: Seq<AgentSkillsRepoConfig>, repo: Seq<char>, i: int)
    requires
        0 <= i < s.len(),
        s[i].repo@ == repo,
        forall|j: int| 0 <= j < i ==> (#[trigger] s[j]).repo@ != repo,
    ensures
        repo_position(s, repo) == Some(i),
{
    let k = choose|k: int| 0 <= k < s.len() && (#[trigger] s[k]).repo@ == repo
        && forall|j: int| 0 <= j < k ==> (#[trigger] s[j]).repo@ != repo;
    assert(0 <= k < s.len() && s[k].repo@ == repo && forall|j: int| 0 <= j < k ==> (#[trigger] s[j]).repo@ != repo);
    if k < i {
        assert(s[k].repo@ != repo);
    }
    if i < k {
        assert(s[i].repo@ != repo);
    }
}

/// Registers an Agent Skills repository: a repository already there gets
/// the given reference and skill list (each only when given), a new one is
/// appended with them and no alias.
pub fn add_repo_to_config(config: &mut Config, repo: &str, git_ref: Option<&str>, skills: Vec<String>)
    ensures
        final(config).server == old(config).server,
        final(config).policy == old(config).policy,
        final(config).upstreams == old(config).upstreams,
        final(config).paths == old(config).paths,
        final(config).sandbox == old(config).sandbox,
        final(config).use_global == old(config).use_global,
        repo_names(final(config).agent_skills_repos@) == names_after_add(
            repo_names(old(config).agent_skills_repos@),
            repo@,
        ),
        match repo_position(old(config).agent_skills_repos@, repo@) {
            Some(i) => {
                &&& final(config).agent_skills_repos@.len() == old(config).agent_skills_repos@.len()
                &&& forall|j: int|
                    0 <= j < final(config).agent_skills_repos@.len() && j != i
                        ==> #[trigger] final(config).agent_skills_repos@[j]
                        == old(config).agent_skills_repos@[j]
                &&& final(config).agent_skills_repos@[i].repo == old(config).agent_skills_repos@[i].repo
                &&& final(config).agent_skills_repos@[i].alias == old(config).agent_skills_repos@[i].alias
                &&& match git_ref {
                    Some(g) => final(config).agent_skills_repos@[i].git_ref matches Some(x) && x@ == g@,
                    None => final(config).agent_skills_repos@[i].git_ref
                        == old(config).agent_skills_repos@[i].git_ref,
                }
                &&& if skills@.len() > 0 {
                    final(config).agent_skills_repos@[i].skills == Some(skills)
                } else {
                    final(config).agent_skills_repos@[i].skills == old(config).agent_skills_repos@[i].skills
                }
            },
            None => {
                let n = old(config).agent_skills_repos@.len();
                &&& final(config).agent_skills_repos@.len() == n + 1
                &&& final(config).agent_skills_repos@.take(n as int) == old(config).agent_skills_repos@
                &&& final(config).agent_skills_repos@[n as int].repo@ == repo@
                &&& match git_ref {
                    Some(g) => final(config).agent_skills_repos@[n as int].git_ref matches Some(x) && x@ == g@,
                    None => final(config).agent_skills_repos@[n as int].git_ref is None,
                }
                &&& if skills@.len() > 0 {
                    final(config).agent_skills_repos@[n as int].skills == Some(skills)
                } else {
                    final(config).agent_skills_repos@[n as int].skills is None
                }
                &&& final(config).agent_skills_repos@[n as int].alias is None
            },
        },
{
    let ghost old_repos = config.agent_skills_repos@;
    let found = find_repo(&config.agent_skills_repos, repo);
    match found {
        Some(idx) => {
            proof {
                lemma_repo_position(old_repos, repo@, idx as int);
            }
            let mut entry = config.agent_skills_repos.remove(idx);
            match git_ref {
                Some(g) => {
                    entry.git_ref = Some(String::from_str(g));
                },
                None => {},
            }
            if skills.len() > 0 {
                entry.skills = Some(skills);
            }
            let ghost e = entry;
            config.agent_skills_repos.insert(idx, entry);
            proof {
                assert(config.agent_skills_repos@ == old_repos.remove(idx as int).insert(idx as int, e));
                assert forall|j: int| 0 <= j < config.agent_skills_repos@.len() && j != idx implies
                    #[trigger] config.agent_skills_repos@[j] == old_repos[j] by {}
                assert(repo_names(config.agent_skills_repos@) =~= repo_names(old_repos));
                assert(repo_names(old_repos)[idx as int] == repo@);
                assert(repo_names(old_repos).contains(repo@));
            }
        },
        None => {
            let entry = AgentSkillsRepoConfig {
                repo: String::from_str(repo),
                git_ref: match git_ref {
                    Some(g) => Some(String::from_str(g)),
                    None => None,
                },
                skills: if skills.len() == 0 { None } else { Some(skills) },
                alias: None,
            };
            config.agent_skills_repos.push(entry);
            proof {
                assert(repo_position(old_repos, repo@) is None);
                assert(config.agent_skills_repos@.take(old_repos.len() as int) =~= old_repos);
                assert(repo_names(config.agent_skills_repos@) =~= repo_names(old_repos).push(repo@));
                assert(!repo_names(old_repos).contains(repo@)) by {
                    if repo_names(old_repos).contains(repo@) {
                        let k = choose|k: int| 0 <= k < repo_names(old_repos).len() && repo_names(old_repos)[k] == repo@;
                        assert(old_repos[k].repo@ == repo@);
                    }
                }
            }
        },
    }
}

/// Registering a repository never lists a repository twice.
pub proof fn law_add_repo_keeps_names_distinct(names: Seq<Seq<char>>, repo: Seq<char>)
    requires
        distinct_names(names),
    ensures
        distinct_names(names_after_add(names, repo)),
{
    if !names.contains(repo) {
        let n = names.push(repo);
        assert forall|i: int, j: int| 0 <= i < j < n.len() implies n[i] != n[j] by {
            if j == names.len() {
                assert(names[i] == n[i]);
            }
        }
    }
}

/// Registering the same repository again changes no repository name.
pub proof fn law_add_repo_twice(names: Seq<Seq<char>>, repo: Seq<char>)
    ensures
        names_after_add(names_after_add(names, repo), repo) == names_after_add(names, repo),
        names_after_add(names, repo).contains(repo),
{
    if !names.contains(repo) {
        assert(names.push(repo)[names.len() as int] == repo);
    }
}

// ---------------------------------------------------------------------------
// Layering
// ---------------------------------------------------------------------------

/// Lays `overlay` over `base`: upstreams are appended; the paths, sandbox,
/// policy and server sections of the overlay replace those of the base
/// where they are not the defaults; the overlay decides whether the global
/// configuration is used; the base keeps its repositories.
pub fn merge_config(base: &mut Config, overlay: Config)
    ensures
        final(base).upstreams@ == old(base).upstreams@ + overlay.upstreams@,
        final(base).paths == (if !overlay.paths.is_none() { overlay.paths } else { old(base).paths }),
        final(base).sandbox == (if !sandbox_is_default(overlay.sandbox@) {
            overlay.sandbox
        } else {
            old(base).sandbox
        }),
        final(base).policy == (if !policy_is_default(overlay.policy) {
            overlay.policy
        } else {
            old(base).policy
        }),
        final(base).server == (if !server_is_default(overlay.server) {
            overlay.server
        } else {
            old(base).server
        }),
        final(base).use_global == overlay.use_global,
        final(base).agent_skills_repos == old(base).agent_skills_repos,
{
    let Config { server, policy, upstreams, paths, sandbox, use_global, agent_skills_repos: _ } = overlay;
    let mut upstreams = upstreams;
    base.upstreams.append(&mut upstreams);
    if !is_default_paths_config(&paths) {
        base.paths = paths;
    }
    if !is_default_sandbox_config(&sandbox) {
        base.sandbox = sandbox;
    }
    if !is_default_policy_config(&policy) {
        base.policy = policy;
    }
    if !is_default_server_config(&server) {
        base.server = server;
    }
    base.use_global = use_global;
}

/// Laying a configuration of defaults over another keeps every section of
/// the base: what `merge_config` gives each section is the base's.
pub proof fn law_default_overlay_keeps_base(base: Config, overlay: Config)
    requires
        config_is_empty(overlay),
    ensures
        base.upstreams@ + overlay.upstreams@ == base.upstreams@,
        (if !overlay.paths.is_none() { overlay.paths } else { base.paths }) == base.paths,
        (if !sandbox_is_default(overlay.sandbox@) { overlay.sandbox } else { base.sandbox })
            == base.sandbox,
        (if !policy_is_default(overlay.policy) { overlay.policy } else { base.policy }) == base.policy,
        (if !server_is_default(overlay.server) { overlay.server } else { base.server }) == base.server,
{
    assert(base.upstreams@ + overlay.upstreams@ =~= base.upstreams@);
}

// ---------------------------------------------------------------------------
// The active file
// ---------------------------------------------------------------------------

/// The configuration file in use.
#[derive(Debug)]
pub struct ConfigChoice {
    pub path: String,
    /// Whether it is the project's file (which may lay itself over the
    /// global one).
    pub is_project: bool,
}

/// The configuration file in use: the one given explicitly, else the
/// global one when asked for, else the project's when one was found, else
/// the global one.
pub fn choose_config(explicit: Option<String>, global: bool, project: Option<String>, global_path: String) -> (r:
    ConfigChoice)
    ensures
        match explicit {
            Some(p) => r.path == p && !r.is_project,
            None => if global {
                r.path == global_path && !r.is_project
            } else {
                match project {
                    Some(p) => r.path == p && r.is_project,
                    None => r.path == global_path && !r.is_project,
                }
            },
        },
{
    match explicit {
        Some(p) => ConfigChoice { path: p, is_project: false },
        None => if global {
            ConfigChoice { path: global_path, is_project: false }
        } else {
            match project {
                Some(p) => ConfigChoice { path: p, is_project: true },
                None => ConfigChoice { path: global_path, is_project: false },
            }
        },
    }
}

/// Whether the global configuration is laid under the loaded one: only a
/// project's file that asks for it.
pub fn overlays_global(choice: &ConfigChoice, loaded: &Config) -> (r: bool)
    ensures
        r == (choice.is_project && loaded.use_global.enabled),
{
    choice.is_project && loaded.use_global.enabled
}

} // verus!
