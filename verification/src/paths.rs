//! Where skills.rs keeps its data: skills, database, configuration, cache
//! and logs, from the platform's conventions, a custom root, or overrides.
use vstd::prelude::*;
use crate::text::concat2;

verus! {

/// `base` joined with a relative component, as `PathBuf::join` does on
/// Unix: a separator is added unless `base` is empty or ends with one.
pub open spec fn path_join(base: Seq<char>, comp: Seq<char>) -> Seq<char> {
    if base.len() == 0 {
        comp
    } else if base.last() == '/' {
        base + comp
    } else {
        base + "/"@ + comp
    }
}

/// Joins a relative component onto a path.
pub fn join_path(base: &str, comp: &str) -> (r: String)
    ensures
        r@ == path_join(base@, comp@),
{
    let b = crate::text::chars_of(base);
    if b.len() == 0 {
        String::from_str(comp)
    } else if b[b.len() - 1] == '/' {
        concat2(base, comp)
    } else {
        crate::text::concat3(base, "/", comp)
    }
}

#[verifier::external_type_specification]
#[verifier::external_body]
pub struct ExProjectDirs(directories::ProjectDirs);

/// The platform's directories for an application
/// (`directories::ProjectDirs::from`); they depend on the platform and the
/// environment, so nothing is stated of them.
#[verifier::external_body]
fn project_dirs_from(qualifier: &str, organization: &str, application: &str) -> (r: Option<directories::ProjectDirs>) {
    directories::ProjectDirs::from(qualifier, organization, application)
}

/// `ProjectDirs::data_dir`, as text.
#[verifier::external_body]
fn project_data_dir(p: &directories::ProjectDirs) -> (r: String) {
    p.data_dir().to_string_lossy().into_owned()
}

/// `ProjectDirs::config_dir`, as text.
#[verifier::external_body]
fn project_config_dir(p: &directories::ProjectDirs) -> (r: String) {
    p.config_dir().to_string_lossy().into_owned()
}

/// `ProjectDirs::cache_dir`, as text.
#[verifier::external_body]
fn project_cache_dir(p: &directories::ProjectDirs) -> (r: String) {
    p.cache_dir().to_string_lossy().into_owned()
}

/// The parent of a path (`Path::parent`).
pub uninterp spec fn path_parent(p: Seq<char>) -> Option<Seq<char>>;

/// Calls `std::path::Path::parent` on the path text.
#[verifier::external_body]
pub(crate) fn parent_of(p: &str) -> (r: Option<String>)
    ensures
        match r {
            Some(s) => path_parent(p@) == Some(s@),
            None => path_parent(p@) is None,
        },
{
    std::path::Path::new(p).parent().map(|q| q.to_string_lossy().into_owned())
}

/// Errors of path discovery.
#[derive(Debug)]
pub enum PathsError {
    /// The platform's directories could not be determined.
    SystemDirectories(String),
}

/// System paths for skills.rs.
#[derive(Debug)]
pub struct SkillsPaths {
    /// Root data directory.
    pub data_dir: String,
    /// Configuration directory.
    pub config_dir: String,
    /// Cache directory.
    pub cache_dir: String,
    /// Database file.
    pub database_path: String,
    /// Skills root directory.
    pub skills_root: String,
    /// Logs directory.
    pub logs_dir: String,
}

impl SkillsPaths {
    /// Whether the database, skills and logs sit in the data directory.
    pub open spec fn derived_from_data(&self) -> bool {
        &&& self.database_path@ == path_join(self.data_dir@, "skills.db"@)
        &&& self.skills_root@ == path_join(self.data_dir@, "skills"@)
        &&& self.logs_dir@ == path_join(self.data_dir@, "logs"@)
    }

    /// The platform's paths (`~/.local/share/skills` and the like on
    /// Linux), with the database, skills and logs in the data directory.
    pub fn new() -> (r: Result<SkillsPaths, PathsError>)
        ensures
            r matches Ok(p) ==> p.derived_from_data(),
            r matches Err(e) ==> (e matches PathsError::SystemDirectories(m) && m@
                == "Failed to determine system directories"@),
    {
        match project_dirs_from("rs", "labiium", "skills") {
            Some(dirs) => {
                let data_dir = project_data_dir(&dirs);
                let config_dir = project_config_dir(&dirs);
                let cache_dir = project_cache_dir(&dirs);
                let database_path = join_path(data_dir.as_str(), "skills.db");
                let skills_root = join_path(data_dir.as_str(), "skills");
                let logs_dir = join_path(data_dir.as_str(), "logs");
                Ok(SkillsPaths { data_dir, config_dir, cache_dir, database_path, skills_root, logs_dir })
            },
            None => Err(PathsError::SystemDirectories(String::from_str("Failed to determine system directories"))),
        }
    }

    /// All paths under a custom root.
    pub fn with_root(root: &str) -> (r: SkillsPaths)
        ensures
            r.data_dir@ == root@,
            r.config_dir@ == path_join(root@, "config"@),
            r.cache_dir@ == path_join(root@, "cache"@),
            r.database_path@ == path_join(root@, "skills.db"@),
            r.skills_root@ == path_join(root@, "skills"@),
            r.logs_dir@ == path_join(root@, "logs"@),
    {
        SkillsPaths {
            data_dir: String::from_str(root),
            config_dir: join_path(root, "config"),
            cache_dir: join_path(root, "cache"),
            database_path: join_path(root, "skills.db"),
            skills_root: join_path(root, "skills"),
            logs_dir: join_path(root, "logs"),
        }
    }

    /// The default configuration file.
    pub fn default_config_file(&self) -> (r: String)
        ensures
            r@ == path_join(self.config_dir@, "config.yaml"@),
    {
        join_path(self.config_dir.as_str(), "config.yaml")
    }

    /// The directory of the database file; the database path must have a
    /// parent.
    pub fn database_dir(&self) -> (r: String)
        requires
            path_parent(self.database_path@) is Some,
        ensures
            Some(r@) == path_parent(self.database_path@),
    {
        match parent_of(self.database_path.as_str()) {
            Some(p) => p,
            None => vstd::pervasive::unreached(),
        }
    }

    /// The directory of the database file, if its path has a parent.
    pub fn try_database_dir(&self) -> (r: Option<String>)
        ensures
            match r {
                Some(d) => path_parent(self.database_path@) == Some(d@),
                None => path_parent(self.database_path@) is None,
            },
    {
        match parent_of(self.database_path.as_str()) {
            Some(_) => Some(self.database_dir()),
            None => None,
        }
    }

    /// The paths, for display.
    pub fn display(&self) -> (r: String)
        ensures
            r@ == "Skills paths:\n  Data directory:    "@ + self.data_dir@
                + "\n  Config directory:  "@ + self.config_dir@
                + "\n  Cache directory:   "@ + self.cache_dir@
                + "\n  Database:          "@ + self.database_path@
                + "\n  Skills root:       "@ + self.skills_root@
                + "\n  Logs directory:    "@ + self.logs_dir@,
    {
        let mut s = String::from_str("Skills paths:\n  Data directory:    ");
        s.append(self.data_dir.as_str());
        s.append("\n  Config directory:  ");
        s.append(self.config_dir.as_str());
        s.append("\n  Cache directory:   ");
        s.append(self.cache_dir.as_str());
        s.append("\n  Database:          ");
        s.append(self.database_path.as_str());
        s.append("\n  Skills root:       ");
        s.append(self.skills_root.as_str());
        s.append("\n  Logs directory:    ");
        s.append(self.logs_dir.as_str());
        s
    }
}

/// Overrides of the system paths.
#[derive(Debug)]
pub struct PathsConfig {
    pub data_dir: Option<String>,
    pub config_dir: Option<String>,
    pub cache_dir: Option<String>,
    pub database_path: Option<String>,
    pub skills_root: Option<String>,
    pub logs_dir: Option<String>,
}

/// The overriding text if given, else the default.
pub open spec fn overridden(o: Option<String>, d: String) -> Seq<char> {
    match o {
        Some(s) => s@,
        None => d@,
    }
}

fn pick(o: &Option<String>, d: String) -> (r: String)
    ensures
        r@ == overridden(*o, d),
{
    match o {
        Some(s) => s.clone(),
        None => d,
    }
}

impl PathsConfig {
    /// No overrides (`Default`).
    pub fn none() -> (r: PathsConfig)
        ensures
            r.data_dir is None,
            r.config_dir is None,
            r.cache_dir is None,
            r.database_path is None,
            r.skills_root is None,
            r.logs_dir is None,
    {
        PathsConfig {
            data_dir: None,
            config_dir: None,
            cache_dir: None,
            database_path: None,
            skills_root: None,
            logs_dir: None,
        }
    }

    /// Whether no path is overridden.
    pub open spec fn is_none(&self) -> bool {
        &&& self.data_dir is None
        &&& self.config_dir is None
        &&& self.cache_dir is None
        &&& self.database_path is None
        &&& self.skills_root is None
        &&& self.logs_dir is None
    }

    /// The paths with each given override in place of the default.
    pub fn apply_to(&self, paths: SkillsPaths) -> (r: SkillsPaths)
        ensures
            r.data_dir@ == overridden(self.data_dir, paths.data_dir),
            r.config_dir@ == overridden(self.config_dir, paths.config_dir),
            r.cache_dir@ == overridden(self.cache_dir, paths.cache_dir),
            r.database_path@ == overridden(self.database_path, paths.database_path),
            r.skills_root@ == overridden(self.skills_root, paths.skills_root),
            r.logs_dir@ == overridden(self.logs_dir, paths.logs_dir),
    {
        SkillsPaths {
            data_dir: pick(&self.data_dir, paths.data_dir),
            config_dir: pick(&self.config_dir, paths.config_dir),
            cache_dir: pick(&self.cache_dir, paths.cache_dir),
            database_path: pick(&self.database_path, paths.database_path),
            skills_root: pick(&self.skills_root, paths.skills_root),
            logs_dir: pick(&self.logs_dir, paths.logs_dir),
        }
    }
}

/// Applying no overrides leaves every path as it was.
pub proof fn law_no_overrides_keep_paths(c: PathsConfig, p: SkillsPaths)
    requires
        c.is_none(),
    ensures
        overridden(c.data_dir, p.data_dir) == p.data_dir@,
        overridden(c.config_dir, p.config_dir) == p.config_dir@,
        overridden(c.cache_dir, p.cache_dir) == p.cache_dir@,
        overridden(c.database_path, p.database_path) == p.database_path@,
        overridden(c.skills_root, p.skills_root) == p.skills_root@,
        overridden(c.logs_dir, p.logs_dir) == p.logs_dir@,
{
}

/// Overrides applied one after another: a later one wins where it is
/// given, an earlier one where only it is, the default elsewhere (so CLI
/// arguments beat environment variables, which beat the configuration).
pub proof fn law_later_override_wins(first: Option<String>, second: Option<String>, default: String, between: String)
    requires
        between@ == overridden(first, default),
    ensures
        overridden(second, between) == (match second {
            Some(s) => s@,
            None => match first {
                Some(f) => f@,
                None => default@,
            },
        }),
{
}

} // verus!
