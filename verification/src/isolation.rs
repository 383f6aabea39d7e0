//! What a sandboxed run is made of: the bubblewrap command line, the
//! environment and resource limits of the restricted backend, the Docker
//! container settings, the input of a WebAssembly run, and the results that
//! a run reports.  The processes themselves are started by the caller.
use vstd::prelude::*;
use crate::sandbox::{SandboxConfig, pair_views};
use crate::text::{concat2, str_eq, views, lemma_views_push};

verus! {

// ---------------------------------------------------------------------------
// Results and errors
// ---------------------------------------------------------------------------

/// The outcome of a sandboxed run.
#[derive(Debug)]
pub struct SandboxResult {
    pub stdout: String,
    pub stderr: String,
    pub exit_code: Option<i32>,
    pub duration_ms: u64,
    pub timed_out: bool,
}

impl SandboxResult {
    /// The result of a run stopped at its timeout.
    pub fn timed_out_after(timeout_ms: u64, message: &str) -> (r: SandboxResult)
        ensures
            r.stdout@.len() == 0,
            r.stderr@ == message@,
            r.exit_code is None,
            r.duration_ms == timeout_ms,
            r.timed_out,
    {
        SandboxResult {
            stdout: String::new(),
            stderr: String::from_str(message),
            exit_code: None,
            duration_ms: timeout_ms,
            timed_out: true,
        }
    }
}

/// The result of a process stopped at its timeout.
pub fn process_timeout_result(timeout_ms: u64) -> (r: SandboxResult)
    ensures
        r.stdout@.len() == 0,
        r.stderr@ == "Execution timed out"@,
        r.exit_code is None,
        r.duration_ms == timeout_ms,
        r.timed_out,
{
    SandboxResult::timed_out_after(timeout_ms, "Execution timed out")
}

/// The result of a WebAssembly run stopped at its timeout.
pub fn wasm_timeout_result(timeout_ms: u64) -> (r: SandboxResult)
    ensures
        r.stdout@.len() == 0,
        r.stderr@ == "WASM execution timed out"@,
        r.exit_code is None,
        r.duration_ms == timeout_ms,
        r.timed_out,
{
    SandboxResult::timed_out_after(timeout_ms, "WASM execution timed out")
}

/// The result of a WebAssembly run that used up its fuel: it counts as
/// timed out after the configured timeout.
pub fn wasm_out_of_fuel_result(timeout_ms: u64) -> (r: SandboxResult)
    ensures
        r.stdout@.len() == 0,
        r.stderr@ == "Execution ran out of fuel (CPU limit exceeded)"@,
        r.exit_code is None,
        r.duration_ms == timeout_ms,
        r.timed_out,
{
    SandboxResult::timed_out_after(timeout_ms, "Execution ran out of fuel (CPU limit exceeded)")
}

/// The fuel units a second of CPU time is worth.
pub const FUEL_PER_CPU_SECOND: u64 = 10_000_000_000u64;

/// The fuel a WebAssembly run is given: none (no fuel metering) without a
/// CPU limit, else the limit in seconds times the fuel of a second.
pub fn wasm_fuel_limit(max_cpu_seconds: u64) -> (r: Option<u64>)
    requires
        max_cpu_seconds * FUEL_PER_CPU_SECOND <= u64::MAX,
    ensures
        max_cpu_seconds == 0 ==> r is None,
        max_cpu_seconds > 0 ==> r == Some((max_cpu_seconds * FUEL_PER_CPU_SECOND) as u64),
{
    if max_cpu_seconds > 0 {
        Some(max_cpu_seconds * FUEL_PER_CPU_SECOND)
    } else {
        None
    }
}

/// Errors of sandboxed execution.
#[derive(Debug)]
pub enum SandboxError {
    ExecutionFailed(String),
    Timeout(u64),
    NotAvailable(String),
    Io(String),
    InvalidConfig(String),
}

impl SandboxError {
    /// The error's message (`Display`).
    pub fn message(&self) -> (r: String)
        ensures
            self matches SandboxError::ExecutionFailed(m) ==> r@ == "Sandbox execution failed: "@ + m@,
            self matches SandboxError::Timeout(t) ==> r@ == "Timeout exceeded: "@ + crate::text::decimal(
                t as nat,
            ) + "ms"@,
            self matches SandboxError::NotAvailable(m) ==> r@ == "Sandbox not available: "@ + m@,
            self matches SandboxError::Io(m) ==> r@ == "IO error: "@ + m@,
            self matches SandboxError::InvalidConfig(m) ==> r@ == "Invalid configuration: "@ + m@,
    {
        match self {
            SandboxError::ExecutionFailed(m) => concat2("Sandbox execution failed: ", m.as_str()),
            SandboxError::Timeout(t) => {
                let mut s = String::from_str("Timeout exceeded: ");
                let n = crate::text::u64_to_string(*t);
                s.append(n.as_str());
                s.append("ms");
                s
            },
            SandboxError::NotAvailable(m) => concat2("Sandbox not available: ", m.as_str()),
            SandboxError::Io(m) => concat2("IO error: ", m.as_str()),
            SandboxError::InvalidConfig(m) => concat2("Invalid configuration: ", m.as_str()),
        }
    }
}

// ---------------------------------------------------------------------------
// Bubblewrap
// ---------------------------------------------------------------------------

/// `flag p p` for each path that exists, in order.
pub open spec fn bind_args(flag: Seq<char>, paths: Seq<Seq<char>>, exists: Seq<bool>) -> Seq<Seq<char>>
    decreases paths.len(),
{
    if paths.len() == 0 {
        Seq::empty()
    } else {
        let rest = bind_args(flag, paths.drop_last(), exists);
        if exists[paths.len() - 1] {
            rest + seq![flag, paths.last(), paths.last()]
        } else {
            rest
        }
    }
}

/// `--setenv key value` for each variable, in order.
pub open spec fn setenv_args(env: Seq<(Seq<char>, Seq<char>)>) -> Seq<Seq<char>>
    decreases env.len(),
{
    if env.len() == 0 {
        Seq::empty()
    } else {
        setenv_args(env.drop_last()) + seq!["--setenv"@, env.last().0, env.last().1]
    }
}

/// The fixed isolation arguments of bubblewrap: a private namespace for
/// everything, the system directories read-only, fresh `/tmp` and `/var`,
/// `/proc` and `/dev`.
pub open spec fn bwrap_prelude() -> Seq<Seq<char>> {
    seq![
        "--unshare-all"@, "--share-net"@, "--die-with-parent"@,
        "--ro-bind"@, "/usr"@, "/usr"@, "--ro-bind"@, "/lib"@, "/lib"@,
        "--ro-bind"@, "/lib64"@, "/lib64"@, "--ro-bind"@, "/bin"@, "/bin"@,
        "--ro-bind"@, "/sbin"@, "/sbin"@,
        "--tmpfs"@, "/tmp"@, "--tmpfs"@, "/var"@, "--proc"@, "/proc"@, "--dev"@, "/dev"@
    ]
}

/// The arguments of `bwrap` for a run: the isolation prelude, the working
/// directory bound read-write, the allowed read paths bound read-only and
/// the write paths read-write (those that exist), the network namespace
/// dropped unless the network is allowed, the working directory, the
/// environment, and then the program and its arguments.
pub open spec fn bwrap_args(
    config: crate::sandbox::SandboxView,
    program: Seq<char>,
    args: Seq<Seq<char>>,
    working_dir: Seq<char>,
    env: Seq<(Seq<char>, Seq<char>)>,
    read_exists: Seq<bool>,
    write_exists: Seq<bool>,
) -> Seq<Seq<char>> {
    bwrap_prelude() + seq!["--bind"@, working_dir, working_dir]
        + bind_args("--ro-bind"@, config.allow_read, read_exists)
        + bind_args("--bind"@, config.allow_write, write_exists)
        + (if !config.allow_network { seq!["--unshare-net"@] } else { Seq::empty() })
        + seq!["--chdir"@, working_dir]
        + setenv_args(env) + seq![program] + args
}

fn push_str(v: &mut Vec<String>, s: &str)
    ensures
        views(final(v)@) == views(old(v)@).push(s@),
{
    let ghost before = v@;
    v.push(String::from_str(s));
    proof { lemma_views_push(before, v@.last()); }
}

fn push_bind_args(out: &mut Vec<String>, flag: &str, paths: &Vec<String>, exists: &Vec<bool>)
    requires
        exists@.len() == paths@.len(),
    ensures
        views(final(out)@) == views(old(out)@) + bind_args(flag@, views(paths@), exists@),
{
    let ghost start = views(out@);
    let mut i: usize = 0;
    assert(views(paths@).take(0) =~= Seq::<Seq<char>>::empty());
    assert(start + bind_args(flag@, Seq::empty(), exists@) =~= start);
    while i < paths.len()
        invariant
            i <= paths.len(),
            exists@.len() == paths@.len(),
            views(out@) == start + bind_args(flag@, views(paths@).take(i as int), exists@),
        decreases paths.len() - i,
    {
        let ghost t = views(paths@).take(i as int + 1);
        assert(t.drop_last() =~= views(paths@).take(i as int));
        assert(t.last() == paths@[i as int]@);
        if exists[i] {
            push_str(out, flag);
            push_str(out, paths[i].as_str());
            push_str(out, paths[i].as_str());
            assert(views(out@) =~= start + bind_args(flag@, t, exists@));
        }
        i = i + 1;
    }
    assert(views(paths@).take(paths.len() as int) =~= views(paths@));
}

/// The `bwrap` arguments for running `program` with `args` in
/// `working_dir`; `read_exists` and `write_exists` tell which allowed paths
/// exist.
pub fn bubblewrap_args(
    config: &SandboxConfig,
    program: &str,
    args: &Vec<String>,
    working_dir: &str,
    env_vars: &Vec<(String, String)>,
    read_exists: &Vec<bool>,
    write_exists: &Vec<bool>,
) -> (r: Vec<String>)
    requires
        read_exists@.len() == config.allow_read@.len(),
        write_exists@.len() == config.allow_write@.len(),
    ensures
        views(r@) == bwrap_args(
            config@,
            program@,
            views(args@),
            working_dir@,
            pair_views(env_vars@),
            read_exists@,
            write_exists@,
        ),
{
    let mut out: Vec<String> = Vec::new();
    let fixed = [
        "--unshare-all", "--share-net", "--die-with-parent",
        "--ro-bind", "/usr", "/usr", "--ro-bind", "/lib", "/lib",
        "--ro-bind", "/lib64", "/lib64", "--ro-bind", "/bin", "/bin",
        "--ro-bind", "/sbin", "/sbin",
        "--tmpfs", "/tmp", "--tmpfs", "/var", "--proc", "/proc", "--dev", "/dev",
    ];
    let mut k: usize = 0;
    while k < 26
        invariant
            k <= 26,
            fixed@.len() == 26,
            views(out@) == fixed@.take(k as int).map_values(|s: &str| s@),
        decreases 26 - k,
    {
        let ghost before = views(out@);
        push_str(&mut out, fixed[k]);
        assert(fixed@.take(k as int + 1).map_values(|s: &str| s@) =~= before.push(fixed@[k as int]@));
        k = k + 1;
    }
    assert(fixed@.take(26).map_values(|s: &str| s@) =~= bwrap_prelude());
    push_str(&mut out, "--bind");
    push_str(&mut out, working_dir);
    push_str(&mut out, working_dir);
    push_bind_args(&mut out, "--ro-bind", &config.allow_read, read_exists);
    push_bind_args(&mut out, "--bind", &config.allow_write, write_exists);
    if !config.allow_network {
        push_str(&mut out, "--unshare-net");
    }
    push_str(&mut out, "--chdir");
    push_str(&mut out, working_dir);
    let ghost before_env = views(out@);
    let mut i: usize = 0;
    while i < env_vars.len()
        invariant
            i <= env_vars.len(),
            views(out@) == before_env + setenv_args(pair_views(env_vars@).take(i as int)),
        decreases env_vars.len() - i,
    {
        let ghost t = pair_views(env_vars@).take(i as int + 1);
        assert(t.drop_last() =~= pair_views(env_vars@).take(i as int));
        assert(t.last() == (env_vars@[i as int].0@, env_vars@[i as int].1@));
        push_str(&mut out, "--setenv");
        push_str(&mut out, env_vars[i].0.as_str());
        push_str(&mut out, env_vars[i].1.as_str());
        assert(views(out@) =~= before_env + setenv_args(t));
        i = i + 1;
    }
    assert(pair_views(env_vars@).take(env_vars.len() as int) =~= pair_views(env_vars@));
    push_str(&mut out, program);
    let ghost before_args = views(out@);
    let mut j: usize = 0;
    while j < args.len()
        invariant
            j <= args.len(),
            views(out@) == before_args + views(args@).take(j as int),
        decreases args.len() - j,
    {
        push_str(&mut out, args[j].as_str());
        assert(views(args@).take(j as int + 1) =~= views(args@).take(j as int).push(args@[j as int]@));
        assert(before_args + views(args@).take(j as int + 1) =~= (before_args + views(args@).take(j as int)).push(args@[j as int]@));
        j = j + 1;
    }
    assert(views(args@).take(args.len() as int) =~= views(args@));
    out
}

// ---------------------------------------------------------------------------
// Restricted backend
// ---------------------------------------------------------------------------

/// The proxy variables that point network access nowhere.
pub open spec fn proxy_block() -> Seq<(Seq<char>, Seq<char>)> {
    seq![
        ("HTTP_PROXY"@, "http://127.0.0.1:0"@),
        ("HTTPS_PROXY"@, "http://127.0.0.1:0"@),
        ("ALL_PROXY"@, "http://127.0.0.1:0"@)
    ]
}

/// The environment of a restricted run, in the order it is set (a later
/// setting of a name wins): `PATH` when the caller has one, the requested
/// variables, and the proxy block unless the network is allowed.
pub open spec fn restricted_env_spec(
    env: Seq<(Seq<char>, Seq<char>)>,
    path: Option<Seq<char>>,
    allow_network: bool,
) -> Seq<(Seq<char>, Seq<char>)> {
    (match path {
        Some(p) => seq![("PATH"@, p)],
        None => Seq::empty(),
    }) + env + (if allow_network { Seq::empty() } else { proxy_block() })
}

fn push_pair(v: &mut Vec<(String, String)>, k: &str, val: &str)
    ensures
        pair_views(final(v)@) == pair_views(old(v)@).push((k@, val@)),
{
    let ghost before = v@;
    v.push((String::from_str(k), String::from_str(val)));
    assert(pair_views(v@) =~= pair_views(before).push((k@, val@)));
}

/// The environment of a restricted run, given the caller's `PATH`.
pub fn restricted_env(config: &SandboxConfig, env_vars: &Vec<(String, String)>, path: Option<&str>) -> (r: Vec<(String, String)>)
    ensures
        pair_views(r@) == restricted_env_spec(
            pair_views(env_vars@),
            match path {
                Some(p) => Some(p@),
                None => None,
            },
            config.allow_network,
        ),
{
    let mut out: Vec<(String, String)> = Vec::new();
    match path {
        Some(p) => push_pair(&mut out, "PATH", p),
        None => {},
    }
    let ghost start = pair_views(out@);
    let mut i: usize = 0;
    while i < env_vars.len()
        invariant
            i <= env_vars.len(),
            pair_views(out@) == start + pair_views(env_vars@).take(i as int),
        decreases env_vars.len() - i,
    {
        push_pair(&mut out, env_vars[i].0.as_str(), env_vars[i].1.as_str());
        assert(pair_views(env_vars@).take(i as int + 1) =~= pair_views(env_vars@).take(i as int).push(
            (env_vars@[i as int].0@, env_vars@[i as int].1@),
        ));
        assert(start + pair_views(env_vars@).take(i as int + 1) =~= (start + pair_views(env_vars@).take(
            i as int,
        )).push((env_vars@[i as int].0@, env_vars@[i as int].1@)));
        i = i + 1;
    }
    assert(pair_views(env_vars@).take(env_vars.len() as int) =~= pair_views(env_vars@));
    if !config.allow_network {
        let ghost before = pair_views(out@);
        push_pair(&mut out, "HTTP_PROXY", "http://127.0.0.1:0");
        push_pair(&mut out, "HTTPS_PROXY", "http://127.0.0.1:0");
        push_pair(&mut out, "ALL_PROXY", "http://127.0.0.1:0");
        assert(pair_views(out@) =~= before + proxy_block());
    } else {
        assert(pair_views(out@) =~= pair_views(out@) + Seq::<(Seq<char>, Seq<char>)>::empty());
    }
    out
}

/// A resource limit set on a restricted run.
#[derive(Debug, Clone, Copy, PartialEq, Eq, Structural)]
pub enum ResourceLimit {
    /// CPU time in seconds.
    CpuSeconds(u64),
    /// Address space in bytes.
    AddressSpaceBytes(u64),
    /// Open file descriptors.
    OpenFiles(u64),
}

/// The limits of a restricted run: CPU time and memory when they are set
/// (non-zero), and always 64 open files.
pub open spec fn limits_spec(cpu: u64, mem: u64) -> Seq<ResourceLimit> {
    (if cpu > 0 { seq![ResourceLimit::CpuSeconds(cpu)] } else { Seq::empty() })
        + (if mem > 0 { seq![ResourceLimit::AddressSpaceBytes(mem)] } else { Seq::empty() })
        + seq![ResourceLimit::OpenFiles(64)]
}

/// A restricted run is limited in CPU time exactly when a CPU limit is
/// set, in address space exactly when a memory limit is set, and always to
/// 64 open files; each limit carries the configured value.
pub proof fn law_limits_follow_config(cpu: u64, mem: u64)
    ensures
        cpu > 0 ==> limits_spec(cpu, mem).contains(ResourceLimit::CpuSeconds(cpu)),
        mem > 0 ==> limits_spec(cpu, mem).contains(ResourceLimit::AddressSpaceBytes(mem)),
        limits_spec(cpu, mem).contains(ResourceLimit::OpenFiles(64)),
        forall|i: int| 0 <= i < limits_spec(cpu, mem).len() ==> match #[trigger] limits_spec(cpu, mem)[i] {
            ResourceLimit::CpuSeconds(c) => cpu > 0 && c == cpu,
            ResourceLimit::AddressSpaceBytes(m) => mem > 0 && m == mem,
            ResourceLimit::OpenFiles(n) => n == 64,
        },
{
    let l = limits_spec(cpu, mem);
    if cpu > 0 {
        assert(l[0] == ResourceLimit::CpuSeconds(cpu));
        if mem > 0 {
            assert(l[1] == ResourceLimit::AddressSpaceBytes(mem));
        }
    } else if mem > 0 {
        assert(l[0] == ResourceLimit::AddressSpaceBytes(mem));
    }
    assert(l[l.len() - 1] == ResourceLimit::OpenFiles(64));
}

/// The resource limits of a restricted run.
pub fn resource_limits(config: &SandboxConfig) -> (r: Vec<ResourceLimit>)
    ensures
        r@ == limits_spec(config.max_cpu_seconds, config.max_memory_bytes),
{
    let mut out: Vec<ResourceLimit> = Vec::new();
    if config.max_cpu_seconds > 0 {
        out.push(ResourceLimit::CpuSeconds(config.max_cpu_seconds));
    }
    if config.max_memory_bytes > 0 {
        out.push(ResourceLimit::AddressSpaceBytes(config.max_memory_bytes));
    }
    out.push(ResourceLimit::OpenFiles(64));
    assert(out@ =~= limits_spec(config.max_cpu_seconds, config.max_memory_bytes));
    out
}

// ---------------------------------------------------------------------------
// WebAssembly
// ---------------------------------------------------------------------------

/// Input and output of a WebAssembly function, as JSON texts.
#[derive(Debug)]
pub struct WasmIo {
    /// Input JSON.
    pub input: String,
    /// Output JSON.
    pub output: Option<String>,
    /// Error message, if any.
    pub error: Option<String>,
}

/// Where the input of a WebAssembly run comes from.
#[derive(Debug)]
pub enum WasmInput {
    /// The value of `SKILL_ARGS_JSON`.
    Inline(String),
    /// The file named by `SKILL_ARGS_FILE` (`"{}"` if it cannot be read).
    File(String),
    /// Neither variable is set: the input is `"{}"`.
    Empty,
}

/// The value of the first variable named `key`.
pub open spec fn env_lookup(env: Seq<(Seq<char>, Seq<char>)>, key: Seq<char>) -> Option<Seq<char>>
    decreases env.len(),
{
    if env.len() == 0 {
        None
    } else if env[0].0 == key {
        Some(env[0].1)
    } else {
        env_lookup(env.drop_first(), key)
    }
}

fn env_find(env: &Vec<(String, String)>, key: &str) -> (r: Option<String>)
    ensures
        match r {
            Some(v) => env_lookup(pair_views(env@), key@) == Some(v@),
            None => env_lookup(pair_views(env@), key@) is None,
        },
{
    let ghost e = pair_views(env@);
    assert(e.skip(0) =~= e);
    let mut i: usize = 0;
    while i < env.len()
        invariant
            i <= env.len(),
            e == pair_views(env@),
            env_lookup(e, key@) == env_lookup(e.skip(i as int), key@),
        decreases env.len() - i,
    {
        assert(e.skip(i as int)[0] == (env@[i as int].0@, env@[i as int].1@));
        assert(e.skip(i as int).drop_first() =~= e.skip(i as int + 1));
        if str_eq(env[i].0.as_str(), key) {
            return Some(env[i].1.clone());
        }
        i = i + 1;
    }
    assert(e.skip(i as int) =~= Seq::<(Seq<char>, Seq<char>)>::empty());
    None
}

/// Where a WebAssembly run takes its input from: `SKILL_ARGS_JSON` first,
/// then the file named by `SKILL_ARGS_FILE`.
pub fn wasm_input(env_vars: &Vec<(String, String)>) -> (r: WasmInput)
    ensures
        match env_lookup(pair_views(env_vars@), "SKILL_ARGS_JSON"@) {
            Some(v) => r matches WasmInput::Inline(s) && s@ == v,
            None => match env_lookup(pair_views(env_vars@), "SKILL_ARGS_FILE"@) {
                Some(p) => r matches WasmInput::File(s) && s@ == p,
                None => r is Empty,
            },
        },
{
    match env_find(env_vars, "SKILL_ARGS_JSON") {
        Some(v) => WasmInput::Inline(v),
        None => match env_find(env_vars, "SKILL_ARGS_FILE") {
            Some(p) => WasmInput::File(p),
            None => WasmInput::Empty,
        },
    }
}

/// Information about a WebAssembly module.
#[derive(Debug)]
pub struct WasmModuleInfo {
    /// Imported names.
    pub imports: Vec<String>,
    /// Exported names.
    pub exports: Vec<String>,
    /// Whether the required `run` export is present.
    pub has_run_export: bool,
    /// Whether the required `memory` export is present.
    pub has_memory_export: bool,
}

impl WasmModuleInfo {
    /// The information of a module with the given import and export names.
    pub fn from_names(imports: Vec<String>, exports: Vec<String>) -> (r: WasmModuleInfo)
        ensures
            r.imports@ == imports@,
            r.exports@ == exports@,
            r.has_run_export == views(exports@).contains("run"@),
            r.has_memory_export == views(exports@).contains("memory"@),
    {
        let run = crate::text::vec_has_str(&exports, "run");
        let memory = crate::text::vec_has_str(&exports, "memory");
        proof {
            crate::text::lemma_has_str_views(exports@, "run"@);
            crate::text::lemma_has_str_views(exports@, "memory"@);
        }
        WasmModuleInfo { imports, exports, has_run_export: run, has_memory_export: memory }
    }
}

// ---------------------------------------------------------------------------
// Docker
// ---------------------------------------------------------------------------

#[verifier::external_type_specification]
#[verifier::external_body]
pub struct ExSerdeJsonError(serde_json::Error);

/// The JSON text `serde_json::to_string` gives for an array of strings.
pub uninterp spec fn json_strings_text(items: Seq<Seq<char>>) -> Seq<char>;

/// Serializes an array of strings with `serde_json::to_string`.  Its
/// documentation names two ways to fail, a `Serialize` impl that fails and
/// a map with non-string keys; neither can happen for a list of strings,
/// so the call succeeds.
#[verifier::external_body]
fn strings_to_json(items: &Vec<String>) -> (r: Result<String, serde_json::Error>)
    ensures
        r is Ok,
        r matches Ok(t) ==> t@ == json_strings_text(views(items@)),
{
    serde_json::to_string(items)
}

/// The message of a JSON error (`Display for serde_json::Error`).  Nothing
/// is stated of the text.
#[verifier::external_body]
pub(crate) fn json_error_text(e: &serde_json::Error) -> (r: String) {
    e.to_string()
}

/// The last component of a path (`Path::file_name`).
pub uninterp spec fn file_name_of(path: Seq<char>) -> Option<Seq<char>>;

/// Calls `std::path::Path::file_name` on the path text.
#[verifier::external_body]
pub(crate) fn path_file_name(path: &str) -> (r: Option<String>)
    ensures
        match r {
            Some(n) => file_name_of(path@) == Some(n@),
            None => file_name_of(path@) is None,
        },
{
    std::path::Path::new(path).file_name().map(|n| n.to_string_lossy().into_owned())
}

/// A mount of the container.
#[derive(Debug)]
pub struct DockerMountPlan {
    pub target: String,
    pub source: String,
    pub read_only: bool,
}

/// The settings of the container a Docker run creates.
#[derive(Debug)]
pub struct DockerPlan {
    pub image: String,
    pub cmd: Vec<String>,
    pub working_dir: String,
    /// `NAME=VALUE` entries.
    pub env: Option<Vec<String>>,
    pub mounts: Option<Vec<DockerMountPlan>>,
    pub network_mode: String,
    pub nano_cpus: Option<i64>,
    pub memory: Option<i64>,
    pub auto_remove: bool,
    pub entrypoint: Option<Vec<String>>,
}

/// `m` with `k` set to `v`: the first entry named `k` is replaced, or the
/// entry is appended.
pub open spec fn env_set(m: Seq<(Seq<char>, Seq<char>)>, k: Seq<char>, v: Seq<char>) -> Seq<(Seq<char>, Seq<char>)>
    decreases m.len(),
{
    if m.len() == 0 {
        seq![(k, v)]
    } else if m[0].0 == k {
        m.update(0, (k, v))
    } else {
        seq![m[0]] + env_set(m.drop_first(), k, v)
    }
}

/// `m` with each of `env` set in order.
pub open spec fn env_set_all(m: Seq<(Seq<char>, Seq<char>)>, env: Seq<(Seq<char>, Seq<char>)>) -> Seq<(Seq<char>, Seq<char>)>
    decreases env.len(),
{
    if env.len() == 0 {
        m
    } else {
        env_set(env_set_all(m, env.drop_last()), env.last().0, env.last().1)
    }
}

/// Whether no name occurs twice among the entries.
pub open spec fn keys_distinct(m: Seq<(Seq<char>, Seq<char>)>) -> bool {
    forall|i: int, j: int| 0 <= i < j < m.len() ==> #[trigger] m[i].0 != #[trigger] m[j].0
}

/// Setting a variable keeps the names of the entries distinct.
pub proof fn law_env_set_keeps_keys_distinct(m: Seq<(Seq<char>, Seq<char>)>, k: Seq<char>, v: Seq<char>)
    requires
        keys_distinct(m),
    ensures
        keys_distinct(env_set(m, k, v)),
        forall|i: int| 0 <= i < env_set(m, k, v).len() ==> #[trigger] env_set(m, k, v)[i].0 == k || exists|j: int|
            0 <= j < m.len() && m[j].0 == env_set(m, k, v)[i].0,
    decreases m.len(),
{
    if m.len() > 0 && m[0].0 != k {
        let rest = m.drop_first();
        assert(keys_distinct(rest)) by {
            assert forall|i: int, j: int| 0 <= i < j < rest.len() implies #[trigger] rest[i].0 != #[trigger] rest[j].0 by {
                assert(rest[i] == m[i + 1] && rest[j] == m[j + 1]);
            }
        }
        law_env_set_keeps_keys_distinct(rest, k, v);
        let e = env_set(rest, k, v);
        let r = seq![m[0]] + e;
        assert forall|i: int| 0 <= i < r.len() implies #[trigger] r[i].0 == k || exists|j: int|
            0 <= j < m.len() && m[j].0 == r[i].0 by {
            if i > 0 {
                assert(r[i] == e[i - 1]);
                if e[i - 1].0 != k {
                    let j = choose|j: int| 0 <= j < rest.len() && rest[j].0 == e[i - 1].0;
                    assert(m[j + 1] == rest[j]);
                }
            }
        }
        assert forall|i: int, j: int| 0 <= i < j < r.len() implies #[trigger] r[i].0 != #[trigger] r[j].0 by {
            if i == 0 {
                assert(r[j] == e[j - 1]);
                if e[j - 1].0 != k {
                    let q = choose|q: int| 0 <= q < rest.len() && rest[q].0 == e[j - 1].0;
                    assert(m[q + 1] == rest[q]);
                }
            } else {
                assert(r[i] == e[i - 1] && r[j] == e[j - 1]);
            }
        }
    } else if m.len() > 0 {
        let r = m.update(0, (k, v));
        assert forall|i: int, j: int| 0 <= i < j < r.len() implies #[trigger] r[i].0 != #[trigger] r[j].0 by {
            if i == 0 {
                assert(r[j] == m[j]);
            } else {
                assert(r[i] == m[i] && r[j] == m[j]);
            }
        }
        assert forall|i: int| 0 <= i < r.len() implies #[trigger] r[i].0 == k || exists|j: int|
            0 <= j < m.len() && m[j].0 == r[i].0 by {
            if i > 0 {
                assert(r[i] == m[i]);
            }
        }
    }
}

/// Setting variables one after another keeps the names distinct.
pub proof fn law_env_set_all_keeps_keys_distinct(m: Seq<(Seq<char>, Seq<char>)>, env: Seq<(Seq<char>, Seq<char>)>)
    requires
        keys_distinct(m),
    ensures
        keys_distinct(env_set_all(m, env)),
    decreases env.len(),
{
    if env.len() > 0 {
        law_env_set_all_keeps_keys_distinct(m, env.drop_last());
        law_env_set_keeps_keys_distinct(env_set_all(m, env.drop_last()), env.last().0, env.last().1);
    }
}

/// `NAME=VALUE` for each entry.
pub open spec fn env_lines(m: Seq<(Seq<char>, Seq<char>)>) -> Seq<Seq<char>> {
    m.map_values(|p: (Seq<char>, Seq<char>)| p.0 + "="@ + p.1)
}

/// The mounts of the paths that exist: the path bound under the container's
/// working directory by its file name.
pub open spec fn path_mounts(wd: Seq<char>, paths: Seq<Seq<char>>, exists: Seq<bool>, read_only: bool) -> Seq<(Seq<char>, Seq<char>, bool)>
    decreases paths.len(),
{
    if paths.len() == 0 {
        Seq::empty()
    } else {
        let rest = path_mounts(wd, paths.drop_last(), exists, read_only);
        if exists[paths.len() - 1] {
            let name = match file_name_of(paths.last()) {
                Some(n) => n,
                None => Seq::empty(),
            };
            rest.push((wd + "/"@ + name, paths.last(), read_only))
        } else {
            rest
        }
    }
}

/// The views of planned mounts, as (target, source, read-only).
pub open spec fn plan_mount_views(v: Seq<DockerMountPlan>) -> Seq<(Seq<char>, Seq<char>, bool)> {
    v.map_values(|m: DockerMountPlan| (m.target@, m.source@, m.read_only))
}

/// The CPU quota in nanoseconds of CPU per second, saturating.
pub open spec fn nano_cpus_of(cpu_millis: u64) -> i64 {
    if cpu_millis * 1_000_000 > i64::MAX { i64::MAX } else { (cpu_millis * 1_000_000) as i64 }
}

fn env_set_exec(m: &mut Vec<(String, String)>, k: &str, v: &str)
    ensures
        pair_views(final(m)@) == env_set(pair_views(old(m)@), k@, v@),
{
    let ghost orig = pair_views(m@);
    let mut i: usize = 0;
    while i < m.len()
        invariant
            i <= m.len(),
            pair_views(m@) == orig,
            orig == pair_views(old(m)@),
            forall|j: int| 0 <= j < i ==> orig[j].0 != k@,
        decreases m.len() - i,
    {
        if str_eq(m[i].0.as_str(), k) {
            proof { lemma_env_set_at(orig, k@, v@, i as int); }
            let ghost before = m@;
            m.set(i, (String::from_str(k), String::from_str(v)));
            assert(pair_views(m@) =~= pair_views(before).update(i as int, (k@, v@)));
            assert(pair_views(m@) == env_set(orig, k@, v@));
            return;
        }
        i = i + 1;
    }
    proof { lemma_env_set_absent(orig, k@, v@); }
    push_pair(m, k, v);
}

proof fn lemma_env_set_at(m: Seq<(Seq<char>, Seq<char>)>, k: Seq<char>, v: Seq<char>, i: int)
    requires
        0 <= i < m.len(),
        m[i].0 == k,
        forall|j: int| 0 <= j < i ==> m[j].0 != k,
    ensures
        env_set(m, k, v) == m.update(i, (k, v)),
    decreases m.len(),
{
    if i > 0 {
        lemma_env_set_at(m.drop_first(), k, v, i - 1);
        assert(seq![m[0]] + m.drop_first().update(i - 1, (k, v)) =~= m.update(i, (k, v)));
    }
}

proof fn lemma_env_set_absent(m: Seq<(Seq<char>, Seq<char>)>, k: Seq<char>, v: Seq<char>)
    requires
        forall|j: int| 0 <= j < m.len() ==> m[j].0 != k,
    ensures
        env_set(m, k, v) == m.push((k, v)),
    decreases m.len(),
{
    if m.len() > 0 {
        lemma_env_set_absent(m.drop_first(), k, v);
        assert(seq![m[0]] + m.drop_first().push((k, v)) =~= m.push((k, v)));
    }
}

fn push_path_mounts(
    out: &mut Vec<DockerMountPlan>,
    wd: &str,
    paths: &Vec<String>,
    exists: &Vec<bool>,
    read_only: bool,
)
    requires
        exists@.len() == paths@.len(),
    ensures
        plan_mount_views(final(out)@) == plan_mount_views(old(out)@) + path_mounts(wd@, views(paths@), exists@, read_only),
{
    let ghost start = plan_mount_views(out@);
    let mut i: usize = 0;
    assert(start + path_mounts(wd@, views(paths@).take(0), exists@, read_only) =~= start);
    while i < paths.len()
        invariant
            i <= paths.len(),
            exists@.len() == paths@.len(),
            plan_mount_views(out@) == start + path_mounts(wd@, views(paths@).take(i as int), exists@, read_only),
        decreases paths.len() - i,
    {
        let ghost t = views(paths@).take(i as int + 1);
        assert(t.drop_last() =~= views(paths@).take(i as int));
        assert(t.last() == paths@[i as int]@);
        if exists[i] {
            let name = match path_file_name(paths[i].as_str()) {
                Some(n) => n,
                None => String::new(),
            };
            let mut target = String::from_str(wd);
            target.append("/");
            target.append(name.as_str());
            let ghost before = out@;
            out.push(DockerMountPlan { target, source: paths[i].clone(), read_only });
            assert(plan_mount_views(out@) =~= plan_mount_views(before).push(
                (target@, paths@[i as int]@, read_only),
            ));
        }
        i = i + 1;
    }
    assert(views(paths@).take(paths.len() as int) =~= views(paths@));
}

/// The settings of the container for running `program` (through `sh -c`)
/// with `args`; the command line travels as JSON in `SKILL_CMD_JSON`.
/// `read_exists` and `write_exists` tell which allowed paths exist.  The
/// plan is always made.
pub fn docker_plan(
    config: &SandboxConfig,
    program: &str,
    args: &Vec<String>,
    working_dir: &str,
    env_vars: &Vec<(String, String)>,
    read_exists: &Vec<bool>,
    write_exists: &Vec<bool>,
) -> (r: Result<DockerPlan, SandboxError>)
    requires
        read_exists@.len() == config.allow_read@.len(),
        write_exists@.len() == config.allow_write@.len(),
        keys_distinct(config.docker@.env_vars),
    ensures
        match r {
            Ok(plan) => {
                let d = config.docker@;
                let cmd_parts = seq![program@] + views(args@);
                &&& plan.image@ == d.image
                &&& views(plan.cmd@) == seq!["sh"@, "-c"@, program@]
                &&& plan.working_dir@ == d.working_dir
                &&& (plan.env matches Some(e) && views(e@) == env_lines(
                    env_set(env_set_all(d.env_vars, pair_views(env_vars@)), "SKILL_CMD_JSON"@, json_strings_text(cmd_parts)),
                ))
                &&& keys_distinct(
                    env_set(env_set_all(d.env_vars, pair_views(env_vars@)), "SKILL_CMD_JSON"@, json_strings_text(cmd_parts)),
                )
                &&& (plan.mounts matches Some(m) && plan_mount_views(m@) == seq![(d.working_dir, working_dir@, false)]
                    + path_mounts(d.working_dir, config@.allow_read, read_exists@, true)
                    + path_mounts(d.working_dir, config@.allow_write, write_exists@, false)
                    + d.mounts.map_values(|m: (Seq<char>, Seq<char>, bool)| (m.1, m.0, m.2)))
                &&& plan.network_mode@ == (if config.allow_network { d.network_mode } else { "none"@ })
                &&& plan.nano_cpus == (if d.cpu_millis > 0 { Some(nano_cpus_of(d.cpu_millis)) } else { None })
                &&& plan.memory == (if d.memory_limit > 0 { Some(d.memory_limit) } else { None })
                &&& plan.auto_remove == d.auto_remove
                &&& match plan.entrypoint {
                    Some(e) => d.entrypoint == Some(views(e@)),
                    None => d.entrypoint is None,
                }
            },
            Err(_) => false,
        },
{
    // The command line, as JSON
    let mut cmd_parts: Vec<String> = Vec::new();
    cmd_parts.push(String::from_str(program));
    let ghost first = cmd_parts@;
    let mut i: usize = 0;
    while i < args.len()
        invariant
            i <= args.len(),
            views(cmd_parts@) == seq![program@] + views(args@).take(i as int),
        decreases args.len() - i,
    {
        let ghost before = cmd_parts@;
        cmd_parts.push(args[i].clone());
        proof { lemma_views_push(before, cmd_parts@.last()); }
        assert(seq![program@] + views(args@).take(i as int + 1) =~= (seq![program@] + views(args@).take(i as int)).push(args@[i as int]@));
        i = i + 1;
    }
    assert(views(args@).take(args.len() as int) =~= views(args@));
    let cmd_json = match strings_to_json(&cmd_parts) {
        Ok(t) => t,
        Err(_) => vstd::pervasive::unreached(),
    };
    // The environment
    let mut env = crate::sandbox::copy_pairs(&config.docker.env_vars);
    let ghost start = pair_views(env@);
    let mut j: usize = 0;
    while j < env_vars.len()
        invariant
            j <= env_vars.len(),
            start == config.docker@.env_vars,
            pair_views(env@) == env_set_all(start, pair_views(env_vars@).take(j as int)),
        decreases env_vars.len() - j,
    {
        let ghost t = pair_views(env_vars@).take(j as int + 1);
        assert(t.drop_last() =~= pair_views(env_vars@).take(j as int));
        assert(t.last() == (env_vars@[j as int].0@, env_vars@[j as int].1@));
        env_set_exec(&mut env, env_vars[j].0.as_str(), env_vars[j].1.as_str());
        j = j + 1;
    }
    assert(pair_views(env_vars@).take(env_vars.len() as int) =~= pair_views(env_vars@));
    env_set_exec(&mut env, "SKILL_CMD_JSON", cmd_json.as_str());
    let ghost env_final = pair_views(env@);
    let mut lines: Vec<String> = Vec::new();
    let mut k: usize = 0;
    while k < env.len()
        invariant
            k <= env.len(),
            env_final == pair_views(env@),
            views(lines@) == env_lines(env_final).take(k as int),
        decreases env.len() - k,
    {
        let mut line = env[k].0.clone();
        line.append("=");
        line.append(env[k].1.as_str());
        let ghost before = lines@;
        lines.push(line);
        proof { lemma_views_push(before, lines@.last()); }
        assert(env_lines(env_final).take(k as int + 1) =~= env_lines(env_final).take(k as int).push(
            env_final[k as int].0 + "="@ + env_final[k as int].1,
        ));
        k = k + 1;
    }
    assert(env_lines(env_final).take(env.len() as int) =~= env_lines(env_final));
    // The mounts
    let mut mounts: Vec<DockerMountPlan> = Vec::new();
    mounts.push(DockerMountPlan {
        target: config.docker.working_dir.clone(),
        source: String::from_str(working_dir),
        read_only: false,
    });
    assert(plan_mount_views(mounts@) =~= seq![(config.docker@.working_dir, working_dir@, false)]);
    push_path_mounts(&mut mounts, config.docker.working_dir.as_str(), &config.allow_read, read_exists, true);
    push_path_mounts(&mut mounts, config.docker.working_dir.as_str(), &config.allow_write, write_exists, false);
    let ghost before_custom = plan_mount_views(mounts@);
    let custom = &config.docker.mounts;
    let ghost cv = config.docker@.mounts.map_values(|m: (Seq<char>, Seq<char>, bool)| (m.1, m.0, m.2));
    let mut c: usize = 0;
    while c < custom.len()
        invariant
            c <= custom.len(),
            cv == crate::sandbox::mount_views(custom@).map_values(|m: (Seq<char>, Seq<char>, bool)| (m.1, m.0, m.2)),
            plan_mount_views(mounts@) == before_custom + cv.take(c as int),
        decreases custom.len() - c,
    {
        let m = &custom[c];
        let ghost before = mounts@;
        mounts.push(DockerMountPlan { target: m.target.clone(), source: m.source.clone(), read_only: m.read_only });
        assert(plan_mount_views(mounts@) =~= plan_mount_views(before).push((m.target@, m.source@, m.read_only)));
        assert(cv.take(c as int + 1) =~= cv.take(c as int).push((m.target@, m.source@, m.read_only)));
        assert(before_custom + cv.take(c as int + 1) =~= (before_custom + cv.take(c as int)).push(
            (m.target@, m.source@, m.read_only),
        ));
        c = c + 1;
    }
    assert(cv.take(custom.len() as int) =~= cv);
    // The rest of the settings
    let network_mode = if config.allow_network {
        config.docker.network_mode.clone()
    } else {
        String::from_str("none")
    };
    let millis = config.docker.cpu_millis;
    let nano_cpus = if millis > 0 {
        if millis > 9_223_372_036_854 {
            Some(i64::MAX)
        } else {
            Some((millis * 1_000_000) as i64)
        }
    } else {
        None
    };
    let memory = if config.docker.memory_limit > 0 { Some(config.docker.memory_limit) } else { None };
    proof {
        law_env_set_all_keeps_keys_distinct(config.docker@.env_vars, pair_views(env_vars@));
        law_env_set_keeps_keys_distinct(
            env_set_all(config.docker@.env_vars, pair_views(env_vars@)),
            "SKILL_CMD_JSON"@,
            cmd_json@,
        );
    }
    let mut cmd: Vec<String> = Vec::new();
    push_str(&mut cmd, "sh");
    push_str(&mut cmd, "-c");
    push_str(&mut cmd, program);
    assert(views(cmd@) =~= seq!["sh"@, "-c"@, program@]);
    Ok(DockerPlan {
        image: config.docker.image.clone(),
        cmd,
        working_dir: config.docker.working_dir.clone(),
        env: Some(lines),
        mounts: Some(mounts),
        network_mode,
        nano_cpus,
        memory,
        auto_remove: config.docker.auto_remove,
        entrypoint: match &config.docker.entrypoint {
            Some(e) => Some(crate::text::copy_strings(e)),
            None => None,
        },
    })
}

} // verus!
