use skillsrs::callables::{CallableKind, RiskTier, SchemaDigest, ToolDefinition};
use skillsrs::persistence::{record_from_columns, timestamp_column};
use skillsrs::isolation::docker_plan;
use skillsrs::json::JsonValue;
use skillsrs::persistence::{
    duration_column, execution_record_from_columns, is_error_column, kind_column, parse_kind_column,
    prune_cutoff, stats_from_counts, PersistenceError,
};
use skillsrs::sandbox::SandboxConfig;
use skillsrs::upstream::{
    bearer_source, check_callable_transport, http_endpoint, http_reply_outcome, initialize_request,
    http_url, initialized_notification, parse_tool_list, reply_outcome, stdio_command, tool_record,
    tools_call_request, tools_list_request, AuthConfig, BearerSource,
    McpResponse, Transport, UpstreamConfig, UpstreamError,
};

fn s(x: &str) -> String {
    x.to_string()
}

fn obj(members: Vec<(&str, JsonValue)>) -> JsonValue {
    JsonValue::Object(members.into_iter().map(|(k, v)| (k.to_string(), v)).collect())
}

fn config(command: Option<Vec<&str>>) -> UpstreamConfig {
    UpstreamConfig {
        alias: s("srv"),
        transport: Transport::Stdio,
        command: command.map(|c| c.into_iter().map(s).collect()),
        url: None,
        auth: None,
        repo: None,
        git_ref: None,
        skills: None,
        roots: None,
        tags: vec![],
        sandbox_config: None,
    }
}

#[test]
fn stdio_command_splits_program_and_arguments() {
    let (prog, args) = stdio_command(&config(Some(vec!["python", "server.py", "-v"]))).unwrap();
    assert_eq!(prog, "python");
    assert_eq!(args, vec![s("server.py"), s("-v")]);

    match stdio_command(&config(None)) {
        Err(UpstreamError::ConnectionFailed(m)) => assert_eq!(m, "No command specified"),
        _ => panic!("expected a connection error"),
    }
    match stdio_command(&config(Some(vec![]))) {
        Err(e) => assert_eq!(e.message(), "Connection failed: Command list is empty"),
        _ => panic!("expected a connection error"),
    }
}

#[test]
fn http_endpoint_trims_trailing_slashes() {
    assert_eq!(http_endpoint("http://host:8080/", "/mcp"), "http://host:8080/mcp");
    assert_eq!(http_endpoint("http://host//", "/tools"), "http://host/tools");
    assert_eq!(http_endpoint("http://host", "/x"), "http://host/x");
}

#[test]
fn bearer_token_wins_over_environment() {
    let mut c = config(None);
    c.auth = Some(AuthConfig { auth_type: s("bearer"), env: Some(s("TOKEN_VAR")), token: Some(s("t0k")) });
    assert!(matches!(bearer_source(&c), BearerSource::Token(t) if t == "t0k"));
    c.auth = Some(AuthConfig { auth_type: s("bearer"), env: Some(s("TOKEN_VAR")), token: None });
    assert!(matches!(bearer_source(&c), BearerSource::Env(v) if v == "TOKEN_VAR"));
    c.auth = None;
    assert!(matches!(bearer_source(&c), BearerSource::NoAuth));
}

#[test]
fn agent_skills_transports_cannot_call_tools() {
    let e = check_callable_transport(Transport::AgentSkillsRepo).unwrap_err();
    assert_eq!(e.message(), "Request failed: Agent Skills transport does not support tool calls");
    assert!(check_callable_transport(Transport::Http).is_ok());
}

#[test]
fn requests_have_their_method() {
    let init = initialize_request();
    assert_eq!(init.method, "initialize");
    assert_eq!(init.jsonrpc, "2.0");
    assert!(matches!(init.id, JsonValue::Number(ref n) if n == "1"));
    let call = tools_call_request(s("7"), "echo", obj(vec![("x", JsonValue::Bool(true))]));
    assert_eq!(call.method, "tools/call");
    match call.params {
        Some(JsonValue::Object(m)) => {
            assert_eq!(m[0].0, "arguments");
            assert_eq!(m[1].0, "name");
            assert!(matches!(m[1].1, JsonValue::Str(ref n) if n == "echo"));
        }
        _ => panic!("expected parameters"),
    }
}

#[test]
fn reply_outcomes() {
    let ok = McpResponse { jsonrpc: s("2.0"), id: JsonValue::Null, result: Some(JsonValue::Bool(true)), error: None };
    assert!(matches!(reply_outcome(ok, s("")), Ok(JsonValue::Bool(true))));
    let err = McpResponse {
        jsonrpc: s("2.0"),
        id: JsonValue::Null,
        result: None,
        error: Some(obj(vec![("code", JsonValue::Number(s("-1")))])),
    };
    assert_eq!(reply_outcome(err, s("{\"code\":-1}")).unwrap_err().message(), "Request failed: {\"code\":-1}");
    let empty = McpResponse { jsonrpc: s("2.0"), id: JsonValue::Null, result: None, error: None };
    assert_eq!(
        reply_outcome(empty, s("")).unwrap_err().message(),
        "Protocol error: Response has no result or error"
    );
    let err = McpResponse { jsonrpc: s("2.0"), id: JsonValue::Null, result: None, error: Some(JsonValue::Null) };
    assert_eq!(http_reply_outcome(err, s("null")).unwrap_err().message(), "Request failed: Server error: null");
}

#[test]
fn tool_list_parsing() {
    let result = obj(vec![(
        "tools",
        JsonValue::Array(vec![
            obj(vec![("name", JsonValue::Str(s("a"))), ("description", JsonValue::Str(s("first")))]),
            obj(vec![
                ("name", JsonValue::Str(s("b"))),
                ("inputSchema", obj(vec![("type", JsonValue::Str(s("object"))), ("required", JsonValue::Array(vec![]))])),
            ]),
        ]),
    )]);
    let tools = parse_tool_list(&result).unwrap();
    assert_eq!(tools.len(), 2);
    assert_eq!(tools[0].name, "a");
    assert_eq!(tools[0].description.as_deref(), Some("first"));
    match &tools[0].input_schema {
        JsonValue::Object(m) => assert_eq!(m.len(), 1),
        _ => panic!("expected the default schema"),
    }
    assert!(tools[1].description.is_none());

    let unnamed = obj(vec![("tools", JsonValue::Array(vec![obj(vec![])]))]);
    assert_eq!(parse_tool_list(&unnamed).unwrap_err().message(), "Protocol error: Tool missing name");
    assert_eq!(
        parse_tool_list(&obj(vec![])).unwrap_err().message(),
        "Protocol error: Invalid tools/list response"
    );
}

#[test]
fn tool_record_of_upstream_tool() {
    let tool = ToolDefinition { name: s("echo"), description: Some(s("Echo")), input_schema: obj(vec![]) };
    let r = tool_record("srv", &tool, "{}", 42);
    let d = SchemaDigest::from_canonical_text("{}");
    assert_eq!(r.id.as_str(), format!("tool:srv:srv::echo::sd:{}", &d.as_str()[..8]));
    assert_eq!(r.fq_name, "srv.echo");
    assert_eq!(r.kind, CallableKind::Tool);
    assert_eq!(r.tags, vec![s("srv")]);
    assert_eq!(r.schema_digest, d);
    assert_eq!(r.last_seen_ms, 42);
}

#[test]
fn kind_column_round_trip() {
    assert_eq!(kind_column(CallableKind::Tool), "Tool");
    assert_eq!(kind_column(CallableKind::Skill), "Skill");
    assert_eq!(parse_kind_column("Tool").unwrap(), CallableKind::Tool);
    assert_eq!(parse_kind_column("Skill").unwrap(), CallableKind::Skill);
    let e = parse_kind_column("tool").unwrap_err();
    assert!(matches!(e, PersistenceError::InvalidData(_)));
    assert_eq!(e.message(), "Invalid data: Invalid kind: tool");
}

#[test]
fn execution_columns() {
    assert_eq!(is_error_column(true), 1);
    assert_eq!(is_error_column(false), 0);
    assert_eq!(duration_column(Some(1500)), Some(1500));
    let r = execution_record_from_columns(
        3,
        s("exec-1"),
        s("tool:x"),
        JsonValue::Null,
        None,
        2,
        Some(250),
        100,
        Some(101),
        None,
    )
    .unwrap();
    assert!(r.is_error);
    assert_eq!(r.completed_at, Some(101));
    assert_eq!(r.duration_ms, Some(250));
    assert_eq!(r.started_at, 100);
    let stats = stats_from_counts(5, 3, 2, 9);
    assert_eq!(stats.total_callables, 5);
    assert_eq!(stats.total_tools, 3);
    assert_eq!(stats.total_skills, 2);
    assert_eq!(stats.total_executions, 9);
    assert_eq!(prune_cutoff(1_000_000, 2), 1_000_000 - 2 * 86400);
}

#[test]
fn docker_mounts_use_file_names() {
    let config = SandboxConfig {
        allow_read: vec![s("/data/input"), s("/missing")],
        allow_write: vec![s("/out/results")],
        allow_network: false,
        ..Default::default()
    };
    let plan = docker_plan(
        &config,
        "python",
        &vec![s("run.py")],
        "/host/work",
        &vec![],
        &vec![true, false],
        &vec![true],
    )
    .unwrap();
    let mounts = plan.mounts.unwrap();
    assert_eq!(mounts.len(), 3);
    assert_eq!(mounts[1].target, "/workspace/input");
    assert_eq!(mounts[1].source, "/data/input");
    assert!(mounts[1].read_only);
    assert_eq!(mounts[2].target, "/workspace/results");
    assert!(!mounts[2].read_only);
    assert_eq!(plan.network_mode, "none");
    let env = plan.env.unwrap();
    assert!(env.contains(&s("SKILL_CMD_JSON=[\"python\",\"run.py\"]")));
}

fn columns(kind: &str, risk: &str, last_seen: i64) -> skillsrs::persistence::CallableColumns {
    skillsrs::persistence::CallableColumns {
        id: s("tool:srv:srv::a::sd:01234567"),
        kind: s(kind),
        fq_name: s("srv.a"),
        name: s("a"),
        title: None,
        description: None,
        tags: vec![s("t")],
        input_schema: obj(vec![]),
        output_schema: None,
        schema_digest: s("0123456789"),
        server_alias: Some(s("srv")),
        upstream_tool_name: Some(s("a")),
        skill_version: None,
        uses: vec![s("skill:x@1")],
        skill_directory: None,
        bundled_tools: vec![],
        additional_files: vec![],
        cost_hints: skillsrs::callables::CostHints::none(),
        risk_tier: s(risk),
        last_seen,
    }
}

#[test]
fn record_from_row_columns() {
    let r = record_from_columns(columns("Tool", "writes", 1700)).unwrap();
    assert_eq!(r.kind, CallableKind::Tool);
    assert_eq!(r.risk_tier, RiskTier::Writes);
    assert_eq!(r.last_seen_ms, 1_700_000);
    assert_eq!(r.uses[0].as_str(), "skill:x@1");
    assert_eq!(timestamp_column(r.last_seen_ms), 1700);
    assert_eq!(timestamp_column(-1500), -2);
    assert_eq!(timestamp_column(1999), 1);

    let e = record_from_columns(columns("Widget", "writes", 0)).unwrap_err();
    assert_eq!(e.message(), "Invalid data: Invalid kind: Widget");
    let e = record_from_columns(columns("Skill", "risky", 0)).unwrap_err();
    assert_eq!(e.message(), "Invalid data: Invalid risk tier: risky");
    let e = record_from_columns(columns("Skill", "admin", i64::MAX / 10)).unwrap_err();
    assert_eq!(e.message(), "Invalid data: Invalid timestamp");
}

#[test]
fn record_times_span_the_calendar() {
    let earliest = record_from_columns(columns("Tool", "read_only", -8_334_601_228_800)).unwrap();
    assert_eq!(earliest.last_seen_ms, -8_334_601_228_800_000);
    let latest = record_from_columns(columns("Tool", "read_only", 8_210_266_876_799)).unwrap();
    assert_eq!(latest.last_seen_ms, 8_210_266_876_799_000);
    let e = record_from_columns(columns("Tool", "read_only", 8_210_266_876_800)).unwrap_err();
    assert_eq!(e.message(), "Invalid data: Invalid timestamp");
    let e = record_from_columns(columns("Tool", "read_only", -8_334_601_228_801)).unwrap_err();
    assert_eq!(e.message(), "Invalid data: Invalid timestamp");
}

#[test]
fn execution_times_out_of_the_calendar() {
    let r = execution_record_from_columns(
        1,
        s("exec-2"),
        s("tool:x"),
        JsonValue::Null,
        None,
        0,
        None,
        100,
        Some(i64::MAX),
        None,
    )
    .unwrap();
    assert!(!r.is_error);
    assert_eq!(r.completed_at, None);
    let e = execution_record_from_columns(
        1,
        s("exec-3"),
        s("tool:x"),
        JsonValue::Null,
        None,
        0,
        None,
        i64::MIN,
        None,
        None,
    )
    .unwrap_err();
    assert_eq!(e.message(), "Invalid data: Invalid timestamp");
}

#[test]
fn protocol_messages_and_urls() {
    let list = tools_list_request(s("7"));
    assert_eq!(list.jsonrpc, "2.0");
    assert_eq!(list.method, "tools/list");
    assert!(matches!(list.id, JsonValue::Str(ref x) if x == "7"));
    assert!(list.params.is_none());
    let note = initialized_notification();
    assert_eq!(note.method, "notifications/initialized");
    assert!(matches!(note.id, JsonValue::Null));
    let mut http = config(None);
    http.url = Some(s("http://localhost:9000/mcp"));
    assert_eq!(http_url(&http, "No URL specified").unwrap(), "http://localhost:9000/mcp");
    assert!(matches!(http_url(&config(None), "No URL specified"), Err(UpstreamError::ConnectionFailed(m)) if m == "No URL specified"));
}
