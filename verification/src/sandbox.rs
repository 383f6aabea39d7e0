//! Sandbox configuration: backends, presets, per-server and per-tool
//! overrides, and how they resolve into the configuration a tool runs with.
use vstd::prelude::*;
use crate::text::{copy_strings, views};

verus! {

/// Sandboxing backend.
#[derive(Debug, Clone, Copy, PartialEq, Eq, Structural)]
pub enum SandboxBackend {
    /// No sandboxing (development only).
    Unsandboxed,
    /// Basic timeout enforcement only.
    Timeout,
    /// Restricted environment (limited filesystem and network).
    Restricted,
    /// Bubblewrap (Linux container).
    Bubblewrap,
    /// Docker container.
    Docker,
    /// WebAssembly runtime.
    Wasm,
}

/// The configured name of a backend.
pub open spec fn backend_name(b: SandboxBackend) -> Seq<char> {
    match b {
        SandboxBackend::Unsandboxed => "none"@,
        SandboxBackend::Timeout => "timeout"@,
        SandboxBackend::Restricted => "restricted"@,
        SandboxBackend::Bubblewrap => "bubblewrap"@,
        SandboxBackend::Docker => "docker"@,
        SandboxBackend::Wasm => "wasm"@,
    }
}

impl SandboxBackend {
    /// The backend's configured name.
    pub fn name(&self) -> (r: String)
        ensures
            r@ == backend_name(*self),
    {
        let s = match self {
            SandboxBackend::Unsandboxed => "none",
            SandboxBackend::Timeout => "timeout",
            SandboxBackend::Restricted => "restricted",
            SandboxBackend::Bubblewrap => "bubblewrap",
            SandboxBackend::Docker => "docker",
            SandboxBackend::Wasm => "wasm",
        };
        String::from_str(s)
    }
}

impl Default for SandboxBackend {
    fn default() -> (r: SandboxBackend)
        ensures
            r == SandboxBackend::Timeout,
    {
        SandboxBackend::Timeout
    }
}

/// Predefined sandbox configurations.
#[derive(Debug, Clone, Copy, PartialEq, Eq, Structural)]
pub enum SandboxPreset {
    /// The global defaults (standard).
    Default,
    /// Minimal sandboxing, maximum convenience.
    Development,
    /// Balanced security.
    Standard,
    /// Bubblewrap with minimal permissions.
    Strict,
    /// Docker containers.
    Isolated,
    /// Network access for API and web tools.
    Network,
    /// Controlled filesystem access.
    Filesystem,
    /// WebAssembly execution.
    Wasm,
}

// ---------------------------------------------------------------------------
// Docker settings
// ---------------------------------------------------------------------------

/// A Docker mount.
#[derive(Debug)]
pub struct DockerMount {
    /// Source path on the host.
    pub source: String,
    /// Target path in the container.
    pub target: String,
    pub read_only: bool,
}

/// Docker container configuration.
#[derive(Debug)]
pub struct DockerConfig {
    pub image: String,
    /// Memory limit in bytes (0 = unlimited).
    pub memory_limit: i64,
    /// CPU quota in thousandths of a CPU (1000 = one CPU).
    pub cpu_millis: u64,
    /// Environment variables for the container, by name; no name occurs
    /// twice (see `keys_distinct`).
    pub env_vars: Vec<(String, String)>,
    /// Working directory inside the container.
    pub working_dir: String,
    pub auto_remove: bool,
    /// `"none"`, `"bridge"`, `"host"` or a network name.
    pub network_mode: String,
    pub entrypoint: Option<Vec<String>>,
    pub mounts: Vec<DockerMount>,
}

/// The model of a Docker configuration.
pub struct DockerView {
    pub image: Seq<char>,
    pub memory_limit: i64,
    pub cpu_millis: u64,
    pub env_vars: Seq<(Seq<char>, Seq<char>)>,
    pub working_dir: Seq<char>,
    pub auto_remove: bool,
    pub network_mode: Seq<char>,
    pub entrypoint: Option<Seq<Seq<char>>>,
    pub mounts: Seq<(Seq<char>, Seq<char>, bool)>,
}

/// The views of string pairs.
pub open spec fn pair_views(v: Seq<(String, String)>) -> Seq<(Seq<char>, Seq<char>)> {
    v.map_values(|p: (String, String)| (p.0@, p.1@))
}

/// The views of mounts.
pub open spec fn mount_views(v: Seq<DockerMount>) -> Seq<(Seq<char>, Seq<char>, bool)> {
    v.map_values(|m: DockerMount| (m.source@, m.target@, m.read_only))
}

impl View for DockerConfig {
    type V = DockerView;

    open spec fn view(&self) -> DockerView {
        DockerView {
            image: self.image@,
            memory_limit: self.memory_limit,
            cpu_millis: self.cpu_millis,
            env_vars: pair_views(self.env_vars@),
            working_dir: self.working_dir@,
            auto_remove: self.auto_remove,
            network_mode: self.network_mode@,
            entrypoint: match self.entrypoint {
                Some(e) => Some(views(e@)),
                None => None,
            },
            mounts: mount_views(self.mounts@),
        }
    }
}

/// A copy of string pairs.
pub fn copy_pairs(v: &Vec<(String, String)>) -> (r: Vec<(String, String)>)
    ensures
        pair_views(r@) == pair_views(v@),
{
    let mut out: Vec<(String, String)> = Vec::new();
    let mut i: usize = 0;
    while i < v.len()
        invariant
            i <= v.len(),
            pair_views(out@) == pair_views(v@).take(i as int),
        decreases v.len() - i,
    {
        let ghost before = out@;
        out.push((v[i].0.clone(), v[i].1.clone()));
        assert(pair_views(out@) =~= pair_views(before).push((v@[i as int].0@, v@[i as int].1@)));
        assert(pair_views(v@).take(i as int + 1) =~= pair_views(v@).take(i as int).push(
            (v@[i as int].0@, v@[i as int].1@),
        ));
        i = i + 1;
    }
    assert(pair_views(v@).take(v.len() as int) =~= pair_views(v@));
    out
}

fn copy_mounts(v: &Vec<DockerMount>) -> (r: Vec<DockerMount>)
    ensures
        mount_views(r@) == mount_views(v@),
{
    let mut out: Vec<DockerMount> = Vec::new();
    let mut i: usize = 0;
    while i < v.len()
        invariant
            i <= v.len(),
            mount_views(out@) == mount_views(v@).take(i as int),
        decreases v.len() - i,
    {
        let m = &v[i];
        let ghost before = out@;
        out.push(DockerMount { source: m.source.clone(), target: m.target.clone(), read_only: m.read_only });
        assert(mount_views(out@) =~= mount_views(before).push((m.source@, m.target@, m.read_only)));
        assert(mount_views(v@).take(i as int + 1) =~= mount_views(v@).take(i as int).push(
            (m.source@, m.target@, m.read_only),
        ));
        i = i + 1;
    }
    assert(mount_views(v@).take(v.len() as int) =~= mount_views(v@));
    out
}

/// Whether Docker containers are removed after execution by default.
pub fn default_auto_remove() -> (r: bool)
    ensures
        r,
{
    true
}

/// The default Docker network mode.
pub fn default_network_mode() -> (r: String)
    ensures
        r@ == "none"@,
{
    String::from_str("none")
}

/// The default Docker settings.
pub open spec fn default_docker() -> DockerView {
    DockerView {
        image: "alpine:latest"@,
        memory_limit: 268435456,
        cpu_millis: 1000,
        env_vars: Seq::empty(),
        working_dir: "/workspace"@,
        auto_remove: true,
        network_mode: "none"@,
        entrypoint: None,
        mounts: Seq::empty(),
    }
}

impl DockerConfig {
    /// A copy of the settings.
    pub fn copy(&self) -> (r: DockerConfig)
        ensures
            r@ == self@,
    {
        DockerConfig {
            image: self.image.clone(),
            memory_limit: self.memory_limit,
            cpu_millis: self.cpu_millis,
            env_vars: copy_pairs(&self.env_vars),
            working_dir: self.working_dir.clone(),
            auto_remove: self.auto_remove,
            network_mode: self.network_mode.clone(),
            entrypoint: match &self.entrypoint {
                Some(e) => Some(copy_strings(e)),
                None => None,
            },
            mounts: copy_mounts(&self.mounts),
        }
    }

    /// Default settings with the given network mode and memory limit.
    fn with_network_memory(network_mode: &str, memory_limit: i64) -> (r: DockerConfig)
        ensures
            r@ == (DockerView { network_mode: network_mode@, memory_limit, ..default_docker() }),
    {
        let r = DockerConfig {
            image: String::from_str("alpine:latest"),
            memory_limit,
            cpu_millis: 1000,
            env_vars: Vec::new(),
            working_dir: String::from_str("/workspace"),
            auto_remove: default_auto_remove(),
            network_mode: String::from_str(network_mode),
            entrypoint: None,
            mounts: Vec::new(),
        };
        assert(pair_views(r.env_vars@) =~= Seq::<(Seq<char>, Seq<char>)>::empty());
        assert(mount_views(r.mounts@) =~= Seq::<(Seq<char>, Seq<char>, bool)>::empty());
        r
    }
}

impl Default for DockerConfig {
    fn default() -> (r: DockerConfig)
        ensures
            r@ == default_docker(),
    {
        DockerConfig::with_network_memory("none", 256 * 1024 * 1024)
    }
}

impl Clone for DockerConfig {
    fn clone(&self) -> (r: DockerConfig)
        ensures
            r@ == self@,
    {
        self.copy()
    }
}

// ---------------------------------------------------------------------------
// Sandbox configuration
// ---------------------------------------------------------------------------

/// Sandbox configuration.
#[derive(Debug)]
pub struct SandboxConfig {
    pub backend: SandboxBackend,
    /// Maximum execution time in milliseconds.
    pub timeout_ms: u64,
    /// Allowed read paths.
    pub allow_read: Vec<String>,
    /// Allowed write paths.
    pub allow_write: Vec<String>,
    pub allow_network: bool,
    /// Maximum memory in bytes (0 = unlimited).
    pub max_memory_bytes: u64,
    /// Maximum CPU time in seconds (0 = unlimited).
    pub max_cpu_seconds: u64,
    /// Docker settings (used by the Docker backend).
    pub docker: DockerConfig,
}

/// The model of a sandbox configuration.
pub struct SandboxView {
    pub backend: SandboxBackend,
    pub timeout_ms: u64,
    pub allow_read: Seq<Seq<char>>,
    pub allow_write: Seq<Seq<char>>,
    pub allow_network: bool,
    pub max_memory_bytes: u64,
    pub max_cpu_seconds: u64,
    pub docker: DockerView,
}

impl View for SandboxConfig {
    type V = SandboxView;

    open spec fn view(&self) -> SandboxView {
        SandboxView {
            backend: self.backend,
            timeout_ms: self.timeout_ms,
            allow_read: views(self.allow_read@),
            allow_write: views(self.allow_write@),
            allow_network: self.allow_network,
            max_memory_bytes: self.max_memory_bytes,
            max_cpu_seconds: self.max_cpu_seconds,
            docker: self.docker@,
        }
    }
}

/// A configuration with no read or write paths.
pub open spec fn closed_config(
    backend: SandboxBackend,
    timeout_ms: u64,
    allow_network: bool,
    max_memory_bytes: u64,
    max_cpu_seconds: u64,
    docker: DockerView,
) -> SandboxView {
    SandboxView {
        backend,
        timeout_ms,
        allow_read: Seq::empty(),
        allow_write: Seq::empty(),
        allow_network,
        max_memory_bytes,
        max_cpu_seconds,
        docker,
    }
}

/// The default configuration (also the standard one).
pub open spec fn default_config() -> SandboxView {
    closed_config(SandboxBackend::Timeout, 30000, false, 536870912, 30, default_docker())
}

/// The configuration a preset stands for (the filesystem preset with no
/// paths).
pub open spec fn preset_config(p: SandboxPreset) -> SandboxView {
    match p {
        SandboxPreset::Default | SandboxPreset::Standard => default_config(),
        SandboxPreset::Development => closed_config(
            SandboxBackend::Timeout,
            60000,
            true,
            1073741824,
            60,
            DockerView { network_mode: "bridge"@, memory_limit: 1073741824, ..default_docker() },
        ),
        SandboxPreset::Strict => closed_config(
            SandboxBackend::Bubblewrap,
            10000,
            false,
            268435456,
            10,
            default_docker(),
        ),
        SandboxPreset::Isolated => closed_config(
            SandboxBackend::Docker,
            10000,
            false,
            268435456,
            10,
            DockerView { cpu_millis: 500, ..default_docker() },
        ),
        SandboxPreset::Network => closed_config(
            SandboxBackend::Restricted,
            30000,
            true,
            536870912,
            30,
            DockerView { network_mode: "bridge"@, ..default_docker() },
        ),
        SandboxPreset::Filesystem => closed_config(
            SandboxBackend::Restricted,
            30000,
            false,
            536870912,
            30,
            default_docker(),
        ),
        SandboxPreset::Wasm => closed_config(
            SandboxBackend::Wasm,
            30000,
            false,
            268435456,
            30,
            default_docker(),
        ),
    }
}

impl SandboxConfig {
    fn closed(
        backend: SandboxBackend,
        timeout_ms: u64,
        allow_network: bool,
        max_memory_bytes: u64,
        max_cpu_seconds: u64,
        docker: DockerConfig,
    ) -> (r: SandboxConfig)
        ensures
            r@ == closed_config(backend, timeout_ms, allow_network, max_memory_bytes, max_cpu_seconds, docker@),
    {
        let r = SandboxConfig {
            backend,
            timeout_ms,
            allow_read: Vec::new(),
            allow_write: Vec::new(),
            allow_network,
            max_memory_bytes,
            max_cpu_seconds,
            docker,
        };
        assert(views(r.allow_read@) =~= Seq::<Seq<char>>::empty());
        assert(views(r.allow_write@) =~= Seq::<Seq<char>>::empty());
        r
    }

    /// A copy of the configuration.
    pub fn copy(&self) -> (r: SandboxConfig)
        ensures
            r@ == self@,
    {
        SandboxConfig {
            backend: self.backend,
            timeout_ms: self.timeout_ms,
            allow_read: copy_strings(&self.allow_read),
            allow_write: copy_strings(&self.allow_write),
            allow_network: self.allow_network,
            max_memory_bytes: self.max_memory_bytes,
            max_cpu_seconds: self.max_cpu_seconds,
            docker: self.docker.copy(),
        }
    }

    /// Timeout protection only; network allowed.  For trusted development
    /// environments.
    pub fn development() -> (r: SandboxConfig)
        ensures
            r@ == preset_config(SandboxPreset::Development),
    {
        SandboxConfig::closed(
            SandboxBackend::Timeout,
            60000,
            true,
            1024 * 1024 * 1024,
            60,
            DockerConfig::with_network_memory("bridge", 1024 * 1024 * 1024),
        )
    }

    /// Balanced security: the default configuration.
    pub fn standard() -> (r: SandboxConfig)
        ensures
            r@ == default_config(),
    {
        SandboxConfig::default()
    }

    /// Bubblewrap with no filesystem or network access.
    pub fn strict() -> (r: SandboxConfig)
        ensures
            r@ == preset_config(SandboxPreset::Strict),
    {
        SandboxConfig::closed(SandboxBackend::Bubblewrap, 10000, false, 256 * 1024 * 1024, 10, DockerConfig::default())
    }

    /// Docker with half a CPU and no network.
    pub fn isolated() -> (r: SandboxConfig)
        ensures
            r@ == preset_config(SandboxPreset::Isolated),
    {
        let mut docker = DockerConfig::default();
        docker.cpu_millis = 500;
        SandboxConfig::closed(SandboxBackend::Docker, 10000, false, 256 * 1024 * 1024, 10, docker)
    }

    /// Restricted backend with network access.
    pub fn network() -> (r: SandboxConfig)
        ensures
            r@ == preset_config(SandboxPreset::Network),
    {
        SandboxConfig::closed(
            SandboxBackend::Restricted,
            30000,
            true,
            512 * 1024 * 1024,
            30,
            DockerConfig::with_network_memory("bridge", 256 * 1024 * 1024),
        )
    }

    /// Restricted backend with the given read and write paths.
    pub fn filesystem(read_paths: Vec<String>, write_paths: Vec<String>) -> (r: SandboxConfig)
        ensures
            r@ == (SandboxView {
                allow_read: views(read_paths@),
                allow_write: views(write_paths@),
                ..preset_config(SandboxPreset::Filesystem)
            }),
    {
        SandboxConfig {
            backend: SandboxBackend::Restricted,
            timeout_ms: 30000,
            allow_read: read_paths,
            allow_write: write_paths,
            allow_network: false,
            max_memory_bytes: 512 * 1024 * 1024,
            max_cpu_seconds: 30,
            docker: DockerConfig::default(),
        }
    }

    /// The WebAssembly runtime with 256 MB of memory.
    pub fn wasm_optimized() -> (r: SandboxConfig)
        ensures
            r@ == preset_config(SandboxPreset::Wasm),
    {
        SandboxConfig::closed(SandboxBackend::Wasm, 30000, false, 256 * 1024 * 1024, 30, DockerConfig::default())
    }
}

impl Default for SandboxConfig {
    fn default() -> (r: SandboxConfig)
        ensures
            r@ == default_config(),
    {
        SandboxConfig::closed(SandboxBackend::Timeout, 30000, false, 512 * 1024 * 1024, 30, DockerConfig::default())
    }
}

impl Clone for SandboxConfig {
    fn clone(&self) -> (r: SandboxConfig)
        ensures
            r@ == self@,
    {
        self.copy()
    }
}

impl SandboxPreset {
    /// The full configuration of the preset.
    pub fn to_config(&self) -> (r: SandboxConfig)
        ensures
            r@ == preset_config(*self),
    {
        match self {
            SandboxPreset::Default => SandboxConfig::default(),
            SandboxPreset::Development => SandboxConfig::development(),
            SandboxPreset::Standard => SandboxConfig::standard(),
            SandboxPreset::Strict => SandboxConfig::strict(),
            SandboxPreset::Isolated => SandboxConfig::isolated(),
            SandboxPreset::Network => SandboxConfig::network(),
            SandboxPreset::Filesystem => {
                let r = SandboxConfig::filesystem(Vec::new(), Vec::new());
                assert(views(Seq::<String>::empty()) =~= Seq::<Seq<char>>::empty());
                r
            },
            SandboxPreset::Wasm => SandboxConfig::wasm_optimized(),
        }
    }
}

// ---------------------------------------------------------------------------
// Overrides
// ---------------------------------------------------------------------------

/// Per-server or per-tool changes to a sandbox configuration.  A preset,
/// when given, replaces the configuration it is applied to; each given
/// field then replaces the preset's or the base's; the paths are appended.
#[derive(Debug)]
pub struct SandboxConfigOverride {
    pub preset: Option<SandboxPreset>,
    pub backend: Option<SandboxBackend>,
    pub timeout_ms: Option<u64>,
    pub allow_network: Option<bool>,
    pub max_memory_bytes: Option<u64>,
    pub max_cpu_seconds: Option<u64>,
    /// Read paths appended to those of the preset or base.
    pub allow_read: Vec<String>,
    /// Write paths appended to those of the preset or base.
    pub allow_write: Vec<String>,
}

/// The model of an override.
pub struct OverrideView {
    pub preset: Option<SandboxPreset>,
    pub backend: Option<SandboxBackend>,
    pub timeout_ms: Option<u64>,
    pub allow_network: Option<bool>,
    pub max_memory_bytes: Option<u64>,
    pub max_cpu_seconds: Option<u64>,
    pub allow_read: Seq<Seq<char>>,
    pub allow_write: Seq<Seq<char>>,
}

impl View for SandboxConfigOverride {
    type V = OverrideView;

    open spec fn view(&self) -> OverrideView {
        OverrideView {
            preset: self.preset,
            backend: self.backend,
            timeout_ms: self.timeout_ms,
            allow_network: self.allow_network,
            max_memory_bytes: self.max_memory_bytes,
            max_cpu_seconds: self.max_cpu_seconds,
            allow_read: views(self.allow_read@),
            allow_write: views(self.allow_write@),
        }
    }
}

/// `o` when given, else `d`.
pub open spec fn or_else<T>(o: Option<T>, d: T) -> T {
    match o {
        Some(v) => v,
        None => d,
    }
}

/// The configuration an override resolves to on a base.
pub open spec fn resolve_config(o: OverrideView, base: SandboxView) -> SandboxView {
    let start = match o.preset {
        Some(p) => preset_config(p),
        None => base,
    };
    SandboxView {
        backend: or_else(o.backend, start.backend),
        timeout_ms: or_else(o.timeout_ms, start.timeout_ms),
        allow_read: start.allow_read + o.allow_read,
        allow_write: start.allow_write + o.allow_write,
        allow_network: or_else(o.allow_network, start.allow_network),
        max_memory_bytes: or_else(o.max_memory_bytes, start.max_memory_bytes),
        max_cpu_seconds: or_else(o.max_cpu_seconds, start.max_cpu_seconds),
        docker: start.docker,
    }
}

/// The configuration for a tool: the base, then the server override, then
/// the tool override.
pub open spec fn tool_config(
    base: SandboxView,
    tool: Option<OverrideView>,
    server: Option<OverrideView>,
) -> SandboxView {
    let after_server = match server {
        Some(s) => resolve_config(s, base),
        None => base,
    };
    match tool {
        Some(t) => resolve_config(t, after_server),
        None => after_server,
    }
}

fn append_strings(a: Vec<String>, b: &Vec<String>) -> (r: Vec<String>)
    ensures
        views(r@) == views(a@) + views(b@),
{
    let mut out = a;
    let ghost start = views(out@);
    let mut i: usize = 0;
    while i < b.len()
        invariant
            i <= b.len(),
            views(out@) == start + views(b@).take(i as int),
        decreases b.len() - i,
    {
        let ghost before = out@;
        out.push(b[i].clone());
        proof { crate::text::lemma_views_push(before, out@.last()); }
        assert(views(b@).take(i as int + 1) =~= views(b@).take(i as int).push(b@[i as int]@));
        assert(start + views(b@).take(i as int + 1) =~= (start + views(b@).take(i as int)).push(b@[i as int]@));
        i = i + 1;
    }
    assert(views(b@).take(b.len() as int) =~= views(b@));
    out
}

impl SandboxConfigOverride {
    /// An override that changes nothing (`Default`).
    pub fn empty() -> (r: SandboxConfigOverride)
        ensures
            r@ == (OverrideView {
                preset: None,
                backend: None,
                timeout_ms: None,
                allow_network: None,
                max_memory_bytes: None,
                max_cpu_seconds: None,
                allow_read: Seq::empty(),
                allow_write: Seq::empty(),
            }),
    {
        let r = SandboxConfigOverride {
            preset: None,
            backend: None,
            timeout_ms: None,
            allow_network: None,
            max_memory_bytes: None,
            max_cpu_seconds: None,
            allow_read: Vec::new(),
            allow_write: Vec::new(),
        };
        assert(views(r.allow_read@) =~= Seq::<Seq<char>>::empty());
        assert(views(r.allow_write@) =~= Seq::<Seq<char>>::empty());
        r
    }

    /// An override that only selects a preset.
    pub fn from_preset(preset: SandboxPreset) -> (r: SandboxConfigOverride)
        ensures
            r@ == (OverrideView { preset: Some(preset), ..SandboxConfigOverride::empty_view() }),
    {
        let mut r = SandboxConfigOverride::empty();
        r.preset = Some(preset);
        r
    }

    /// The model of the override that changes nothing.
    pub open spec fn empty_view() -> OverrideView {
        OverrideView {
            preset: None,
            backend: None,
            timeout_ms: None,
            allow_network: None,
            max_memory_bytes: None,
            max_cpu_seconds: None,
            allow_read: Seq::empty(),
            allow_write: Seq::empty(),
        }
    }

    /// Resolves the override on a base configuration.
    pub fn resolve(&self, base_config: &SandboxConfig) -> (r: SandboxConfig)
        ensures
            r@ == resolve_config(self@, base_config@),
    {
        let mut config = match self.preset {
            Some(p) => p.to_config(),
            None => base_config.copy(),
        };
        match self.backend {
            Some(b) => config.backend = b,
            None => {},
        }
        match self.timeout_ms {
            Some(t) => config.timeout_ms = t,
            None => {},
        }
        match self.allow_network {
            Some(n) => config.allow_network = n,
            None => {},
        }
        match self.max_memory_bytes {
            Some(m) => config.max_memory_bytes = m,
            None => {},
        }
        match self.max_cpu_seconds {
            Some(c) => config.max_cpu_seconds = c,
            None => {},
        }
        let read = append_strings(config.allow_read, &self.allow_read);
        let write = append_strings(config.allow_write, &self.allow_write);
        SandboxConfig {
            backend: config.backend,
            timeout_ms: config.timeout_ms,
            allow_read: read,
            allow_write: write,
            allow_network: config.allow_network,
            max_memory_bytes: config.max_memory_bytes,
            max_cpu_seconds: config.max_cpu_seconds,
            docker: config.docker,
        }
    }
}

impl Default for SandboxConfigOverride {
    fn default() -> (r: SandboxConfigOverride)
        ensures
            r@ == SandboxConfigOverride::empty_view(),
    {
        SandboxConfigOverride::empty()
    }
}

impl SandboxConfig {
    /// This configuration with the override applied.
    pub fn with_override(&self, override_config: &SandboxConfigOverride) -> (r: SandboxConfig)
        ensures
            r@ == resolve_config(override_config@, self@),
    {
        override_config.resolve(self)
    }

    /// The configuration for a tool: this one, then the server override,
    /// then the tool override, which takes precedence.
    pub fn for_tool(
        &self,
        tool_override: Option<&SandboxConfigOverride>,
        server_override: Option<&SandboxConfigOverride>,
    ) -> (r: SandboxConfig)
        ensures
            r@ == tool_config(
                self@,
                match tool_override {
                    Some(t) => Some(t@),
                    None => None,
                },
                match server_override {
                    Some(s) => Some(s@),
                    None => None,
                },
            ),
    {
        let mut config = self.copy();
        match server_override {
            Some(s) => {
                config = s.resolve(&config);
            },
            None => {},
        }
        match tool_override {
            Some(t) => {
                config = t.resolve(&config);
            },
            None => {},
        }
        config
    }
}

// ---------------------------------------------------------------------------
// Laws
// ---------------------------------------------------------------------------

/// An override that changes nothing resolves to its base.
pub proof fn law_empty_override_identity(base: SandboxView)
    ensures
        resolve_config(SandboxConfigOverride::empty_view(), base) == base,
{
    assert(base.allow_read + Seq::<Seq<char>>::empty() =~= base.allow_read);
    assert(base.allow_write + Seq::<Seq<char>>::empty() =~= base.allow_write);
}

/// Without overrides, a tool runs with the base configuration.
pub proof fn law_no_override_is_base(base: SandboxView)
    ensures
        tool_config(base, None, None) == base,
{
}

/// A field that the tool override sets wins over the server's and the
/// base's; one that only the server override sets wins over the base's.
pub proof fn law_tool_takes_precedence(base: SandboxView, tool: OverrideView, server: OverrideView)
    requires
        tool.preset is None,
    ensures
        tool.timeout_ms matches Some(t) ==> tool_config(base, Some(tool), Some(server)).timeout_ms == t,
        tool.timeout_ms is None ==> (server.timeout_ms matches Some(s) ==> tool_config(base, Some(tool), Some(server)).timeout_ms == s),
        tool.backend matches Some(b) ==> tool_config(base, Some(tool), Some(server)).backend == b,
        tool.backend is None ==> (server.backend matches Some(b) ==> tool_config(base, Some(tool), Some(server)).backend == b),
        tool.allow_network matches Some(n) ==> tool_config(base, Some(tool), Some(server)).allow_network == n,
        tool.max_memory_bytes matches Some(m) ==> tool_config(base, Some(tool), Some(server)).max_memory_bytes == m,
        tool.max_cpu_seconds matches Some(c) ==> tool_config(base, Some(tool), Some(server)).max_cpu_seconds == c,
{
}

/// Without presets, the paths of a tool's configuration are the base's,
/// then the server's, then the tool's.
pub proof fn law_paths_accumulate(base: SandboxView, tool: OverrideView, server: OverrideView)
    requires
        tool.preset is None,
        server.preset is None,
    ensures
        tool_config(base, Some(tool), Some(server)).allow_read == base.allow_read + server.allow_read + tool.allow_read,
        tool_config(base, Some(tool), Some(server)).allow_write == base.allow_write + server.allow_write + tool.allow_write,
{
}

/// A preset in the tool override discards the base and the server
/// override: only the preset and the tool's own fields remain.
pub proof fn law_tool_preset_resets(base: SandboxView, tool: OverrideView, server: Option<OverrideView>)
    requires
        tool.preset is Some,
    ensures
        tool_config(base, Some(tool), server) == resolve_config(tool, base),
{
}

} // verus!
