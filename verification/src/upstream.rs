//! Upstream MCP servers: their configuration, the JSON-RPC messages sent to
//! them, how their replies are read, and the registry records of the tools
//! they offer.  Processes and HTTP requests are the caller's.
use vstd::prelude::*;
use vstd::string::StringSliceAdditionalSpecFns;
use crate::callables::{
    CallableId, CallableKind, CallableRecord, CostHints, RiskTier, SchemaDigest, ToolDefinition,
    tool_id_text,
};
use crate::json::{Json, JsonValue, json_copy};
use crate::text::{chars_of, concat2, string_of, sub_chars, views, lemma_views_push};

verus! {

/// Errors of upstream servers.
#[derive(Debug)]
pub enum UpstreamError {
    ConnectionFailed(String),
    RequestFailed(String),
    ProtocolError(String),
    ServerNotFound(String),
    Timeout(String),
}

impl UpstreamError {
    /// The error's message (`Display`).
    pub fn message(&self) -> (r: String)
        ensures
            self matches UpstreamError::ConnectionFailed(m) ==> r@ == "Connection failed: "@ + m@,
            self matches UpstreamError::RequestFailed(m) ==> r@ == "Request failed: "@ + m@,
            self matches UpstreamError::ProtocolError(m) ==> r@ == "Protocol error: "@ + m@,
            self matches UpstreamError::ServerNotFound(m) ==> r@ == "Server not found: "@ + m@,
            self matches UpstreamError::Timeout(m) ==> r@ == "Timeout: "@ + m@,
    {
        match self {
            UpstreamError::ConnectionFailed(m) => concat2("Connection failed: ", m.as_str()),
            UpstreamError::RequestFailed(m) => concat2("Request failed: ", m.as_str()),
            UpstreamError::ProtocolError(m) => concat2("Protocol error: ", m.as_str()),
            UpstreamError::ServerNotFound(m) => concat2("Server not found: ", m.as_str()),
            UpstreamError::Timeout(m) => concat2("Timeout: ", m.as_str()),
        }
    }
}

/// How an upstream server is reached.
#[derive(Debug, Clone, Copy, PartialEq, Eq, Structural)]
pub enum Transport {
    Stdio,
    Http,
    HttpSse,
    /// Agent Skills from a Git repository.
    AgentSkillsRepo,
    /// Agent Skills from the local filesystem.
    AgentSkillsFs,
}

/// Authentication of an HTTP upstream.
#[derive(Debug)]
pub struct AuthConfig {
    pub auth_type: String,
    /// Environment variable holding the token.
    pub env: Option<String>,
    pub token: Option<String>,
}

/// An upstream server of the configuration.
#[derive(Debug)]
pub struct UpstreamConfig {
    pub alias: String,
    pub transport: Transport,
    /// Command line of a stdio server.
    pub command: Option<Vec<String>>,
    /// URL of an HTTP server.
    pub url: Option<String>,
    pub auth: Option<AuthConfig>,
    /// Git repository of Agent Skills.
    pub repo: Option<String>,
    pub git_ref: Option<String>,
    pub skills: Option<Vec<String>>,
    /// Filesystem roots of Agent Skills.
    pub roots: Option<Vec<String>>,
    pub tags: Vec<String>,
    /// Sandbox settings of the server's tools.
    pub sandbox_config: Option<crate::sandbox::SandboxConfigOverride>,
}

/// The state of an upstream connection.
#[derive(Debug, Clone, Copy, PartialEq, Eq, Structural)]
pub enum ConnectionState {
    Disconnected,
    Connecting,
    Connected,
    Degraded,
    Failed,
}

// ---------------------------------------------------------------------------
// Connecting
// ---------------------------------------------------------------------------

/// The program and arguments a stdio server is started with.
pub fn stdio_command(config: &UpstreamConfig) -> (r: Result<(String, Vec<String>), UpstreamError>)
    ensures
        match config.command {
            None => r matches Err(UpstreamError::ConnectionFailed(m)) && m@ == "No command specified"@,
            Some(c) => if c@.len() == 0 {
                r matches Err(UpstreamError::ConnectionFailed(m)) && m@ == "Command list is empty"@
            } else {
                r matches Ok(p) && p.0@ == c@[0]@ && views(p.1@) == views(c@).skip(1)
            },
        },
{
    let command = match &config.command {
        Some(c) => c,
        None => {
            return Err(UpstreamError::ConnectionFailed(String::from_str("No command specified")));
        },
    };
    if command.len() == 0 {
        return Err(UpstreamError::ConnectionFailed(String::from_str("Command list is empty")));
    }
    let mut args: Vec<String> = Vec::new();
    let mut i: usize = 1;
    while i < command.len()
        invariant
            1 <= i <= command.len(),
            views(args@) == views(command@).skip(1).take(i - 1),
        decreases command.len() - i,
    {
        let ghost before = args@;
        args.push(command[i].clone());
        proof { lemma_views_push(before, args@.last()); }
        assert(views(command@).skip(1).take(i as int) =~= views(command@).skip(1).take(i - 1).push(command@[i as int]@));
        i = i + 1;
    }
    assert(views(command@).skip(1).take(command.len() - 1) =~= views(command@).skip(1));
    Ok((command[0].clone(), args))
}

/// The URL an HTTP server is reached at, if configured.
pub fn http_url(config: &UpstreamConfig, missing: &str) -> (r: Result<String, UpstreamError>)
    ensures
        match config.url {
            Some(u) => r matches Ok(x) && x@ == u@,
            None => r matches Err(UpstreamError::ConnectionFailed(m)) && m@ == missing@,
        },
{
    match &config.url {
        Some(u) => Ok(u.clone()),
        None => Err(UpstreamError::ConnectionFailed(String::from_str(missing))),
    }
}

/// `s` without trailing `/`.
pub open spec fn trim_end_slashes(s: Seq<char>) -> Seq<char>
    decreases s.len(),
{
    if s.len() > 0 && s.last() == '/' { trim_end_slashes(s.drop_last()) } else { s }
}

/// The endpoint of an HTTP request: the server URL without trailing
/// slashes, then the path.
pub fn http_endpoint(url: &str, path: &str) -> (r: String)
    ensures
        r@ == trim_end_slashes(url@) + path@,
{
    let c = chars_of(url);
    let mut n: usize = c.len();
    assert(c@.take(n as int) =~= url@);
    while n > 0 && c[n - 1] == '/'
        invariant
            n <= c.len(),
            c@ == url@,
            trim_end_slashes(c@.take(n as int)) == trim_end_slashes(url@),
        decreases n,
    {
        assert(c@.take(n as int).drop_last() =~= c@.take(n as int - 1));
        n = n - 1;
    }
    let base = sub_chars(c.as_slice(), 0, n);
    assert(base@ == trim_end_slashes(url@));
    let b = string_of(base.as_slice());
    concat2(b.as_str(), path)
}

/// Where the bearer token of an HTTP request comes from.
#[derive(Debug)]
pub enum BearerSource {
    /// The configured token.
    Token(String),
    /// The environment variable of that name, if it is set.
    Env(String),
    /// No authentication.
    NoAuth,
}

/// The bearer token source of a server: its token, else its environment
/// variable.
pub fn bearer_source(config: &UpstreamConfig) -> (r: BearerSource)
    ensures
        match config.auth {
            Some(a) => match a.token {
                Some(t) => r matches BearerSource::Token(x) && x@ == t@,
                None => match a.env {
                    Some(e) => r matches BearerSource::Env(x) && x@ == e@,
                    None => r is NoAuth,
                },
            },
            None => r is NoAuth,
        },
{
    match &config.auth {
        Some(a) => match &a.token {
            Some(t) => BearerSource::Token(t.clone()),
            None => match &a.env {
                Some(e) => BearerSource::Env(e.clone()),
                None => BearerSource::NoAuth,
            },
        },
        None => BearerSource::NoAuth,
    }
}

/// Whether a transport can call tools.
pub fn check_callable_transport(t: Transport) -> (r: Result<(), UpstreamError>)
    ensures
        (t == Transport::AgentSkillsRepo || t == Transport::AgentSkillsFs) ==> (r matches Err(
            UpstreamError::RequestFailed(m),
        ) && m@ == "Agent Skills transport does not support tool calls"@),
        !(t == Transport::AgentSkillsRepo || t == Transport::AgentSkillsFs) ==> r is Ok,
{
    match t {
        Transport::AgentSkillsRepo | Transport::AgentSkillsFs => Err(UpstreamError::RequestFailed(
            String::from_str("Agent Skills transport does not support tool calls"),
        )),
        _ => Ok(()),
    }
}

// ---------------------------------------------------------------------------
// Messages
// ---------------------------------------------------------------------------

/// A JSON-RPC request to an upstream server.
#[derive(Debug)]
pub struct McpRequest {
    pub jsonrpc: String,
    pub id: JsonValue,
    pub method: String,
    pub params: Option<JsonValue>,
}

/// A JSON-RPC reply of an upstream server.
#[derive(Debug)]
pub struct McpResponse {
    pub jsonrpc: String,
    pub id: JsonValue,
    pub result: Option<JsonValue>,
    pub error: Option<JsonValue>,
}

/// An object from its members.
fn object(m: Vec<(String, JsonValue)>) -> (r: JsonValue)
    ensures
        r@ == Json::Object(crate::json::member_views(m@)),
{
    proof { crate::json::lemma_object_view(m); }
    JsonValue::Object(m)
}

/// The parameters of the `initialize` request.
pub open spec fn initialize_params() -> Json {
    Json::Object(seq![
        ("capabilities"@, Json::Object(seq![("tools"@, Json::Object(Seq::empty()))])),
        ("clientInfo"@, Json::Object(seq![("name"@, Json::Str("skills.rs"@)), ("version"@, Json::Str("0.1.0"@))])),
        ("protocolVersion"@, Json::Str("2024-11-05"@))
    ])
}

/// The `initialize` request (id 1).
pub fn initialize_request() -> (r: McpRequest)
    ensures
        r.jsonrpc@ == "2.0"@,
        r.id@ == Json::Number("1"@),
        r.method@ == "initialize"@,
        r.params matches Some(p) && p@ == initialize_params(),
{
    let tools = object(Vec::new());
    assert(crate::json::member_views(Seq::<(String, JsonValue)>::empty()) =~= Seq::<(Seq<char>, Json)>::empty());
    assert(tools@ == Json::Object(Seq::empty()));
    let mut caps: Vec<(String, JsonValue)> = Vec::new();
    caps.push((String::from_str("tools"), tools));
    let caps_v = object(caps);
    assert(crate::json::member_views(caps@) =~= seq![("tools"@, Json::Object(Seq::empty()))]);
    let ghost cv = caps_v@;
    assert(cv == Json::Object(seq![("tools"@, Json::Object(Seq::empty()))]));
    let mut info: Vec<(String, JsonValue)> = Vec::new();
    info.push((String::from_str("name"), JsonValue::Str(String::from_str("skills.rs"))));
    info.push((String::from_str("version"), JsonValue::Str(String::from_str("0.1.0"))));
    let info_v = object(info);
    assert(crate::json::member_views(info@) =~= seq![("name"@, Json::Str("skills.rs"@)), ("version"@, Json::Str("0.1.0"@))]);
    let ghost fv = info_v@;
    assert(fv == Json::Object(seq![("name"@, Json::Str("skills.rs"@)), ("version"@, Json::Str("0.1.0"@))]));
    let mut p: Vec<(String, JsonValue)> = Vec::new();
    p.push((String::from_str("capabilities"), caps_v));
    p.push((String::from_str("clientInfo"), info_v));
    p.push((String::from_str("protocolVersion"), JsonValue::Str(String::from_str("2024-11-05"))));
    let params = object(p);
    assert(crate::json::member_views(p@) =~= seq![("capabilities"@, cv), ("clientInfo"@, fv), ("protocolVersion"@, Json::Str("2024-11-05"@))]);
    assert(params@ == initialize_params());
    McpRequest {
        jsonrpc: String::from_str("2.0"),
        id: JsonValue::Number(String::from_str("1")),
        method: String::from_str("initialize"),
        params: Some(params),
    }
}

/// The `notifications/initialized` notification.
pub fn initialized_notification() -> (r: McpRequest)
    ensures
        r.jsonrpc@ == "2.0"@,
        r.id@ == Json::Null,
        r.method@ == "notifications/initialized"@,
        r.params is None,
{
    McpRequest {
        jsonrpc: String::from_str("2.0"),
        id: JsonValue::Null,
        method: String::from_str("notifications/initialized"),
        params: None,
    }
}

/// A `tools/list` request with the given identifier.
pub fn tools_list_request(id: String) -> (r: McpRequest)
    ensures
        r.jsonrpc@ == "2.0"@,
        r.id@ == Json::Str(id@),
        r.method@ == "tools/list"@,
        r.params is None,
{
    McpRequest { jsonrpc: String::from_str("2.0"), id: JsonValue::Str(id), method: String::from_str("tools/list"), params: None }
}

/// The parameters of a `tools/call` request (members in key order).
pub open spec fn call_params(tool_name: Seq<char>, arguments: Json) -> Json {
    Json::Object(seq![("arguments"@, arguments), ("name"@, Json::Str(tool_name))])
}

/// A `tools/call` request with the given identifier.
pub fn tools_call_request(id: String, tool_name: &str, arguments: JsonValue) -> (r: McpRequest)
    ensures
        r.jsonrpc@ == "2.0"@,
        r.id@ == Json::Str(id@),
        r.method@ == "tools/call"@,
        r.params matches Some(p) && p@ == call_params(tool_name@, arguments@),
{
    let ghost av = arguments@;
    let mut p: Vec<(String, JsonValue)> = Vec::new();
    p.push((String::from_str("arguments"), arguments));
    p.push((String::from_str("name"), JsonValue::Str(String::from_str(tool_name))));
    let params = object(p);
    assert(crate::json::member_views(p@) =~= seq![("arguments"@, av), ("name"@, Json::Str(tool_name@))]);
    McpRequest {
        jsonrpc: String::from_str("2.0"),
        id: JsonValue::Str(id),
        method: String::from_str("tools/call"),
        params: Some(params),
    }
}

/// What a stdio reply answers: its error (as its JSON text `error_text`,
/// as `serde_json` writes it) as a failed request, else its result; a reply
/// with neither is a protocol error.
pub fn reply_outcome(reply: McpResponse, error_text: String) -> (r: Result<JsonValue, UpstreamError>)
    requires
        reply.error matches Some(e) ==> error_text@ == crate::canonical::json_text(e@),
    ensures
        reply.error matches Some(e) ==> (r matches Err(UpstreamError::RequestFailed(m)) && m@ == crate::canonical::json_text(e@)),
        reply.error is None ==> match reply.result {
            Some(v) => r == Ok::<JsonValue, UpstreamError>(v),
            None => r matches Err(UpstreamError::ProtocolError(m)) && m@ == "Response has no result or error"@,
        },
{
    match reply.error {
        Some(_) => Err(UpstreamError::RequestFailed(error_text)),
        None => match reply.result {
            Some(v) => Ok(v),
            None => Err(UpstreamError::ProtocolError(String::from_str("Response has no result or error"))),
        },
    }
}

/// What an HTTP reply answers: a server error (as its JSON text
/// `error_text`, as `serde_json` writes it), or its result; a reply without
/// either is a protocol error.
pub fn http_reply_outcome(reply: McpResponse, error_text: String) -> (r: Result<JsonValue, UpstreamError>)
    requires
        reply.error matches Some(e) ==> error_text@ == crate::canonical::json_text(e@),
    ensures
        reply.error matches Some(e) ==> (r matches Err(UpstreamError::RequestFailed(m)) && m@ == "Server error: "@ + crate::canonical::json_text(e@)),
        reply.error is None ==> match reply.result {
            Some(v) => r == Ok::<JsonValue, UpstreamError>(v),
            None => r matches Err(UpstreamError::ProtocolError(m)) && m@ == "No result in response"@,
        },
{
    match reply.error {
        Some(_) => Err(UpstreamError::RequestFailed(concat2("Server error: ", error_text.as_str()))),
        None => match reply.result {
            Some(v) => Ok(v),
            None => Err(UpstreamError::ProtocolError(String::from_str("No result in response"))),
        },
    }
}

// ---------------------------------------------------------------------------
// Tools
// ---------------------------------------------------------------------------

/// The tool a `tools/list` item describes: its name, its description and
/// its input schema (`{"type": "object"}` when absent).
pub open spec fn tool_of(item: Json) -> Option<(Seq<char>, Option<Seq<char>>, Json)> {
    match item.get_str("name"@) {
        None => None,
        Some(n) => Some((
            n,
            item.get_str("description"@),
            match item.get("inputSchema"@) {
                Some(s) => s,
                None => crate::storage::object_type_schema(),
            },
        )),
    }
}

/// The first item of a tool list without a name.
pub open spec fn first_unnamed(items: Seq<Json>) -> bool {
    exists|i: int| 0 <= i < items.len() && tool_of(#[trigger] items[i]) is None
}

/// Whether `t` is the tool the item describes.
pub open spec fn is_tool_of(t: ToolDefinition, item: Json) -> bool {
    tool_of(item) matches Some(d) && t.name@ == d.0 && crate::search::opt_view(t.description) == d.1
        && t.input_schema@ == d.2
}

/// The tools of a `tools/list` result: every item must have a name.
pub fn parse_tool_list(result: &JsonValue) -> (r: Result<Vec<ToolDefinition>, UpstreamError>)
    ensures
        match result@.get_array("tools"@) {
            None => r matches Err(UpstreamError::ProtocolError(m)) && m@ == "Invalid tools/list response"@,
            Some(items) => if first_unnamed(items) {
                r matches Err(UpstreamError::ProtocolError(m)) && m@ == "Tool missing name"@
            } else {
                r matches Ok(tools) && tools@.len() == items.len() && forall|i: int|
                    0 <= i < items.len() ==> is_tool_of(#[trigger] tools@[i], items[i])
            },
        },
{
    let items = match result.get("tools") {
        Some(t) => match t.as_array() {
            Some(a) => a,
            None => {
                return Err(UpstreamError::ProtocolError(String::from_str("Invalid tools/list response")));
            },
        },
        None => {
            return Err(UpstreamError::ProtocolError(String::from_str("Invalid tools/list response")));
        },
    };
    let ghost iv = crate::json::json_views(items@);
    let mut tools: Vec<ToolDefinition> = Vec::new();
    let mut i: usize = 0;
    while i < items.len()
        invariant
            i <= items.len(),
            iv == crate::json::json_views(items@),
            result@.get_array("tools"@) == Some(iv),
            tools@.len() == i,
            forall|j: int| 0 <= j < i ==> tool_of(#[trigger] iv[j]) is Some,
            forall|j: int| 0 <= j < i ==> is_tool_of(#[trigger] tools@[j], iv[j]),
        decreases items.len() - i,
    {
        let item = &items[i];
        assert(iv[i as int] == item@);
        let name = match item.get_str("name") {
            Some(n) => n,
            None => {
                assert(tool_of(iv[i as int]) is None);
                return Err(UpstreamError::ProtocolError(String::from_str("Tool missing name")));
            },
        };
        let description = item.get_str("description");
        let input_schema = match item.get("inputSchema") {
            Some(s) => json_copy(s),
            None => crate::storage::object_type_schema_exec(),
        };
        tools.push(ToolDefinition { name, description, input_schema });
        i = i + 1;
    }
    assert(!first_unnamed(iv));
    Ok(tools)
}

/// Whether `r` is the registry record of the tool `t` of server `alias`,
/// seen at `now_ms`, with the digest of its input schema.
pub open spec fn is_tool_record(r: CallableRecord, alias: Seq<char>, t: ToolDefinition, digest: Seq<char>, now_ms: i64) -> bool {
    &&& r.id@ == tool_id_text(alias, t.name@, digest)
    &&& r.kind == CallableKind::Tool
    &&& r.fq_name@ == alias + "."@ + t.name@
    &&& r.name@ == t.name@
    &&& (r.title matches Some(x) && x@ == t.name@)
    &&& crate::search::opt_view(r.description) == crate::search::opt_view(t.description)
    &&& views(r.tags@) == seq![alias]
    &&& r.input_schema@ == t.input_schema@
    &&& r.output_schema is None
    &&& r.schema_digest@ == digest
    &&& (r.server_alias matches Some(s) && s@ == alias)
    &&& (r.upstream_tool_name matches Some(n) && n@ == t.name@)
    &&& r.skill_version is None
    &&& r.uses@.len() == 0
    &&& r.skill_directory is None
    &&& r.bundled_tools@.len() == 0
    &&& r.additional_files@.len() == 0
    &&& r.cost_hints == CostHints { expected_calls: None, estimated_duration_ms: None, network_required: false, filesystem_access: false }
    &&& r.risk_tier == RiskTier::Unknown
    &&& r.last_seen_ms == now_ms
}

/// The registry record of an upstream tool; `canonical_schema` is the
/// canonical JSON text of its input schema, whose BLAKE3 digest the record
/// carries.
pub fn tool_record(alias: &str, tool: &ToolDefinition, canonical_schema: &str, now_ms: i64) -> (r: CallableRecord)
    ensures
        is_tool_record(r, alias@, *tool, crate::callables::blake3_hex(canonical_schema.spec_bytes()), now_ms),
{
    let digest = SchemaDigest::from_canonical_text(canonical_schema);
    let id = CallableId::tool(alias, tool.name.as_str(), digest.as_str());
    let mut tags: Vec<String> = Vec::new();
    tags.push(String::from_str(alias));
    assert(views(tags@) =~= seq![alias@]);
    CallableRecord {
        id,
        kind: CallableKind::Tool,
        fq_name: crate::text::concat3(alias, ".", tool.name.as_str()),
        name: tool.name.clone(),
        title: Some(tool.name.clone()),
        description: match &tool.description {
            Some(d) => Some(d.clone()),
            None => None,
        },
        tags,
        input_schema: json_copy(&tool.input_schema),
        output_schema: None,
        schema_digest: digest,
        server_alias: Some(String::from_str(alias)),
        upstream_tool_name: Some(tool.name.clone()),
        skill_version: None,
        uses: Vec::new(),
        skill_directory: None,
        bundled_tools: Vec::new(),
        additional_files: Vec::new(),
        cost_hints: CostHints::none(),
        risk_tier: RiskTier::Unknown,
        last_seen_ms: now_ms,
    }
}

/// The record of an upstream tool identifies it: its identifier names the
/// tool kind, the server alias and the tool name, when neither holds
/// `"::"` nor ends with `':'`.
pub proof fn law_tool_record_identifies_tool(
    r: CallableRecord,
    alias: Seq<char>,
    t: ToolDefinition,
    digest: Seq<char>,
    now_ms: i64,
)
    requires
        is_tool_record(r, alias, t, digest, now_ms),
        crate::callables::splits_cleanly(alias),
        crate::callables::splits_cleanly(t.name@),
    ensures
        crate::callables::id_kind(r.id@) == Some(CallableKind::Tool),
        crate::callables::id_server_alias(r.id@) == Some(alias),
        crate::callables::id_tool_name(r.id@) == Some(t.name@),
{
    crate::callables::law_tool_id_round_trip(alias, t.name@, digest);
}

} // verus!
