use skillsrs::config::{
    add_repo_to_config, default_bind, default_log_level, default_transport, is_default_paths_config,
    is_default_policy_config, is_default_sandbox_config, is_default_server_config, merge_config, Config,
    ServerConfig, UseGlobalSettings,
};
use skillsrs::paths::PathsConfig;
use skillsrs::policy::PolicyConfig;
use skillsrs::sandbox::{SandboxBackend, SandboxConfig};
use skillsrs::upstream::{Transport, UpstreamConfig};

fn upstream(alias: &str) -> UpstreamConfig {
    UpstreamConfig {
        alias: alias.to_string(),
        transport: Transport::Stdio,
        command: Some(vec!["echo".to_string()]),
        url: None,
        auth: None,
        repo: None,
        git_ref: None,
        skills: None,
        roots: None,
        tags: vec![],
        sandbox_config: None,
    }
}

#[test]
fn default_config_is_empty() {
    let c = Config::default();
    assert!(c.is_empty());
    assert_eq!(default_bind(), "127.0.0.1:8000");
    assert_eq!(default_transport(), "stdio");
    assert_eq!(default_log_level(), "info");
    assert!(is_default_server_config(&ServerConfig::default()));
    assert!(is_default_policy_config(&PolicyConfig::default()));
    assert!(is_default_paths_config(&PathsConfig::none()));
    assert!(is_default_sandbox_config(&SandboxConfig::default()));
}

#[test]
fn non_default_sections_are_detected() {
    let mut c = Config::default();
    c.server.log_level = "debug".to_string();
    assert!(!c.is_empty());
    assert!(!is_default_server_config(&c.server));

    let p = PolicyConfig { max_calls_per_skill: 5, ..Default::default() };
    assert!(!is_default_policy_config(&p));

    let s = SandboxConfig { backend: SandboxBackend::Docker, ..Default::default() };
    assert!(!is_default_sandbox_config(&s));

    let paths = PathsConfig { logs_dir: Some("/tmp/logs".to_string()), ..PathsConfig::none() };
    assert!(!is_default_paths_config(&paths));

    let mut c = Config::default();
    c.use_global = UseGlobalSettings { enabled: true };
    assert!(!c.is_empty());
}

#[test]
fn add_repo_appends_then_updates() {
    let mut c = Config::default();
    add_repo_to_config(&mut c, "owner/repo", None, vec![]);
    assert_eq!(c.agent_skills_repos.len(), 1);
    assert_eq!(c.agent_skills_repos[0].repo, "owner/repo");
    assert!(c.agent_skills_repos[0].git_ref.is_none());
    assert!(c.agent_skills_repos[0].skills.is_none());
    assert!(c.agent_skills_repos[0].alias.is_none());

    add_repo_to_config(&mut c, "owner/repo", Some("main"), vec!["pdf".to_string()]);
    assert_eq!(c.agent_skills_repos.len(), 1);
    assert_eq!(c.agent_skills_repos[0].git_ref.as_deref(), Some("main"));
    assert_eq!(c.agent_skills_repos[0].skills, Some(vec!["pdf".to_string()]));

    add_repo_to_config(&mut c, "owner/repo", None, vec![]);
    assert_eq!(c.agent_skills_repos[0].git_ref.as_deref(), Some("main"));
    assert_eq!(c.agent_skills_repos[0].skills, Some(vec!["pdf".to_string()]));

    add_repo_to_config(&mut c, "other/repo", Some("v1"), vec!["a".to_string(), "b".to_string()]);
    assert_eq!(c.agent_skills_repos.len(), 2);
    assert_eq!(c.agent_skills_repos[1].repo, "other/repo");
    assert_eq!(c.agent_skills_repos[1].git_ref.as_deref(), Some("v1"));
}

#[test]
fn merge_appends_upstreams_and_keeps_unset_sections() {
    let mut base = Config::default();
    base.upstreams.push(upstream("a"));
    base.server.bind = "0.0.0.0:9000".to_string();
    base.policy.max_exec_ms = 5;
    add_repo_to_config(&mut base, "owner/repo", None, vec![]);

    let mut overlay = Config::default();
    overlay.upstreams.push(upstream("b"));
    overlay.use_global = UseGlobalSettings { enabled: true };
    merge_config(&mut base, overlay);

    assert_eq!(base.upstreams.len(), 2);
    assert_eq!(base.upstreams[0].alias, "a");
    assert_eq!(base.upstreams[1].alias, "b");
    assert_eq!(base.server.bind, "0.0.0.0:9000");
    assert_eq!(base.policy.max_exec_ms, 5);
    assert!(base.use_global.enabled);
    assert_eq!(base.agent_skills_repos.len(), 1);
}

#[test]
fn merge_replaces_set_sections() {
    let mut base = Config::default();
    base.paths.data_dir = Some("/base".to_string());
    base.paths.logs_dir = Some("/base/logs".to_string());
    base.use_global = UseGlobalSettings { enabled: true };

    let mut overlay = Config::default();
    overlay.paths.skills_root = Some("/skills".to_string());
    overlay.sandbox.timeout_ms = 1000;
    overlay.policy.deny_tags = vec!["x".to_string()];
    overlay.server.transport = "http".to_string();
    merge_config(&mut base, overlay);

    assert_eq!(base.paths.skills_root.as_deref(), Some("/skills"));
    assert!(base.paths.data_dir.is_none());
    assert_eq!(base.sandbox.timeout_ms, 1000);
    assert_eq!(base.policy.deny_tags, vec!["x".to_string()]);
    assert_eq!(base.server.transport, "http");
    assert!(!base.use_global.enabled);
}
