use skillsrs::isolation::{resource_limits, restricted_env, wasm_input, ResourceLimit, WasmInput};
use skillsrs::json::JsonValue;
use skillsrs::mcp::{check_response_size, exec_gate, join_strings, search_query, skill_name_from_id, SearchInput};
use skillsrs::policy::{AuthorizationResult, PolicyConfig, PolicyEngine, PolicyError};
use skillsrs::runtime::validate_arguments;
use skillsrs::sandbox::SandboxConfig;
use skillsrs::search::{detect_intent, parse_usize_text, QueryIntent};

fn s(x: &str) -> String {
    x.to_string()
}

fn obj(members: Vec<(&str, JsonValue)>) -> JsonValue {
    JsonValue::Object(members.into_iter().map(|(k, v)| (k.to_string(), v)).collect())
}

fn input(limit: usize) -> SearchInput {
    SearchInput {
        q: s("q"),
        kind: s("any"),
        mode: s("literal"),
        limit,
        filters: None,
        include_options: None,
        cursor: None,
    }
}

#[test]
fn search_limits_are_clamped() {
    assert_eq!(search_query(input(0)).limit, 1);
    assert_eq!(search_query(input(7)).limit, 7);
    assert_eq!(search_query(input(500)).limit, 50);
}

#[test]
fn response_size_limit() {
    assert!(check_response_size(10, 10).is_ok());
    assert_eq!(check_response_size(11, 10).unwrap_err(), "Response exceeds maxBytes limit: 11 > 10");
}

#[test]
fn exec_gate_outcomes() {
    let allow = AuthorizationResult::allow();
    assert_eq!(exec_gate("srv.t", &allow, false).unwrap(), None);
    assert_eq!(exec_gate("srv.t", &allow, true).unwrap(), Some(s("Dry run: would execute srv.t")));
    let deny = AuthorizationResult::deny(s("nope"));
    assert_eq!(exec_gate("srv.t", &deny, false).unwrap_err(), "Execution denied: nope");
}

#[test]
fn text_helpers() {
    assert_eq!(join_strings(&vec![s("a"), s("b"), s("c")], ", "), "a, b, c");
    assert_eq!(join_strings(&vec![], ", "), "");
    assert_eq!(skill_name_from_id("skill:web@1.0.0"), "web");
    assert_eq!(skill_name_from_id("plain-name"), "plain-name");
    assert_eq!(parse_usize_text("42"), Some(42));
    assert_eq!(parse_usize_text("4x"), None);
    assert_eq!(parse_usize_text(""), None);
}

#[test]
fn query_intents() {
    assert!(matches!(detect_intent("path to the file bytes"), QueryIntent::ApiBased));
    assert!(matches!(detect_intent("hello"), QueryIntent::Neutral));
}

#[test]
fn policy_timeouts_and_trust() {
    let engine = PolicyEngine::new(PolicyConfig {
        max_exec_ms: 1000,
        trusted_servers: vec![s("good")],
        ..Default::default()
    })
    .unwrap();
    assert_eq!(engine.check_timeout(None).unwrap(), 1000);
    assert_eq!(engine.check_timeout(Some(500)).unwrap(), 500);
    match engine.check_timeout(Some(1500)) {
        Err(PolicyError::LimitExceeded(m)) => assert_eq!(m, "Requested timeout 1500ms exceeds maximum 1000ms"),
        _ => panic!("expected a limit error"),
    }
    assert!(engine.is_server_trusted("good"));
    assert!(!engine.is_server_trusted("bad"));
    assert_eq!(engine.max_calls_per_skill(), 30);
}

#[test]
fn restricted_runs() {
    let config = SandboxConfig { max_cpu_seconds: 0, max_memory_bytes: 1024, ..Default::default() };
    assert_eq!(
        resource_limits(&config),
        vec![ResourceLimit::AddressSpaceBytes(1024), ResourceLimit::OpenFiles(64)]
    );
    let env = restricted_env(&config, &vec![(s("A"), s("1"))], Some("/bin"));
    assert_eq!(env[0], (s("PATH"), s("/bin")));
    assert_eq!(env[1], (s("A"), s("1")));
    assert_eq!(env[2], (s("HTTP_PROXY"), s("http://127.0.0.1:0")));
    assert_eq!(env.len(), 5);
    let open = SandboxConfig { allow_network: true, ..Default::default() };
    assert_eq!(restricted_env(&open, &vec![], None).len(), 0);
}

#[test]
fn argument_validation() {
    let schema = obj(vec![
        ("type", JsonValue::Str(s("object"))),
        ("required", JsonValue::Array(vec![JsonValue::Str(s("path"))])),
    ]);
    assert!(validate_arguments(&schema, &obj(vec![("path", JsonValue::Str(s("/x")))])).is_ok());
    assert_eq!(
        validate_arguments(&schema, &obj(vec![])).unwrap_err().message(),
        "Validation failed: Missing required argument: path"
    );
    assert_eq!(
        validate_arguments(&schema, &JsonValue::Null).unwrap_err().message(),
        "Validation failed: Arguments must be an object"
    );
}

fn texts(result: &skillsrs::callables::ToolResult) -> Vec<String> {
    result
        .content
        .iter()
        .map(|c| match c {
            skillsrs::callables::ToolResultContent::Text { text } => text.clone(),
            other => panic!("not a text content: {:?}", other),
        })
        .collect()
}

#[test]
fn upstream_reply_contents_are_kept_in_order() {
    let reply = obj(vec![
        (
            "content",
            JsonValue::Array(vec![
                obj(vec![("type", JsonValue::Str(s("text"))), ("text", JsonValue::Str(s("hello")))]),
                obj(vec![("type", JsonValue::Str(s("video")))]),
                obj(vec![("type", JsonValue::Str(s("image"))), ("data", JsonValue::Str(s("AAAA")))]),
                obj(vec![("type", JsonValue::Str(s("resource"))), ("uri", JsonValue::Str(s("file:///x")))]),
            ]),
        ),
        ("isError", JsonValue::Bool(true)),
    ]);
    let text = s("{\"content\":[{\"text\":\"hello\",\"type\":\"text\"},{\"type\":\"video\"},{\"data\":\"AAAA\",\"type\":\"image\"},{\"type\":\"resource\",\"uri\":\"file:///x\"}],\"isError\":true}");
    let r = skillsrs::runtime::tool_result_from_reply(reply, text);
    assert!(r.is_error);
    assert_eq!(r.content.len(), 3);
    match &r.content[1] {
        skillsrs::callables::ToolResultContent::Image { data, mime_type } => {
            assert_eq!(data, "AAAA");
            assert_eq!(mime_type, "image/png");
        }
        other => panic!("expected an image: {:?}", other),
    }
    match &r.content[2] {
        skillsrs::callables::ToolResultContent::Resource { resource } => {
            assert_eq!(resource.uri, "file:///x");
            assert_eq!(resource.mime_type, None);
        }
        other => panic!("expected a resource: {:?}", other),
    }
    assert!(r.structured_content.is_some());
}

#[test]
fn upstream_reply_without_contents() {
    let r = skillsrs::runtime::tool_result_from_reply(obj(vec![("value", JsonValue::Null)]), s("{\"value\":null}"));
    assert_eq!(texts(&r), vec![s("{\"value\":null}")]);
    assert!(!r.is_error);
    let empty = skillsrs::runtime::tool_result_from_reply(obj(vec![("content", JsonValue::Array(vec![]))]), s("{\"content\":[]}"));
    assert_eq!(texts(&empty), vec![s("Tool returned no content")]);
    assert!(empty.is_error);
}

#[test]
fn bundled_results_describe_the_run() {
    let ok = skillsrs::runtime::bundled_result(s("out"), s("warn"), Some(0), false, None);
    assert_eq!(texts(&ok), vec![s("out")]);
    assert!(!ok.is_error);
    let failed = skillsrs::runtime::bundled_result(s(""), s("boom"), Some(2), false, None);
    assert_eq!(texts(&failed), vec![s("Error: boom")]);
    assert!(failed.is_error);
    let silent = skillsrs::runtime::bundled_result(s(""), s(""), Some(0), false, None);
    assert_eq!(texts(&silent), vec![s("Command completed successfully with no output")]);
    let crashed = skillsrs::runtime::bundled_result(s(""), s(""), Some(-1), false, None);
    assert_eq!(texts(&crashed), vec![s("Command failed with exit code: Some(-1)")]);
    let killed = skillsrs::runtime::bundled_result(s("partial"), s("late"), None, true, None);
    assert_eq!(texts(&killed), vec![s("partial"), s("Error: late"), s("Execution timed out")]);
    assert!(killed.is_error);
}

#[test]
fn bundled_runs_use_the_script_directory() {
    let tool = skillsrs::callables::BundledTool {
        name: s("extract"),
        description: s("Extract"),
        command: vec![s("python3"), s("/skills/pdf/scripts/extract.py"), s("--fast")],
        schema: JsonValue::Null,
    };
    let base = SandboxConfig::default();
    let args = obj(vec![("x", JsonValue::Number(s("1")))]);
    let run = skillsrs::runtime::bundled_run(&tool, &args, &base, Some(5000), s("/tmp/args.json"), "/cwd", "/tmp")
        .unwrap();
    assert_eq!(run.program, "python3");
    assert_eq!(run.args, vec![s("/skills/pdf/scripts/extract.py"), s("--fast")]);
    assert_eq!(run.working_dir, "/skills/pdf/scripts");
    assert_eq!(
        run.env_vars,
        vec![(s("SKILL_ARGS_FILE"), s("/tmp/args.json")), (s("SKILL_ARGS_JSON"), s("{\n  \"x\": 1\n}"))]
    );
    assert_eq!(run.sandbox.timeout_ms, 5000);
    assert_eq!(run.sandbox.allow_read.last(), Some(&s("/skills/pdf/scripts")));
    assert_eq!(run.sandbox.allow_write.last(), Some(&s("/tmp")));
    let bare = skillsrs::callables::BundledTool { name: s("t"), description: s(""), command: vec![s("ls")], schema: JsonValue::Null };
    let none = obj(vec![]);
    let run = skillsrs::runtime::bundled_run(&bare, &none, &base, None, s("/a"), "/cwd", "/tmp").unwrap();
    assert_eq!(run.working_dir, "/cwd");
    assert_eq!(run.sandbox.timeout_ms, base.timeout_ms);
    let empty = skillsrs::callables::BundledTool { name: s("t"), description: s(""), command: vec![], schema: JsonValue::Null };
    assert_eq!(run.env_vars[1].1, "{}");
    match skillsrs::runtime::bundled_run(&empty, &none, &base, None, s("/a"), "/cwd", "/tmp") {
        Err(skillsrs::runtime::RuntimeError::BundledToolError(m)) => assert_eq!(m, "Empty command"),
        other => panic!("expected an empty command: {:?}", other.is_ok()),
    }
    let unreadable = obj(vec![("x", JsonValue::Number(s("1.2.3")))]);
    match skillsrs::runtime::bundled_run(&bare, &unreadable, &base, None, s("/a"), "/cwd", "/tmp") {
        Err(skillsrs::runtime::RuntimeError::BundledToolError(m)) => {
            assert!(m.starts_with("Failed to serialize arguments: "))
        }
        other => panic!("expected a serialization failure: {:?}", other.is_ok()),
    }
}

#[test]
fn traces_are_attached_to_structured_content() {
    let base = skillsrs::callables::ToolResult {
        content: vec![],
        structured_content: Some(obj(vec![("a", JsonValue::Null), ("trace", JsonValue::Null)])),
        is_error: false,
    };
    let r = skillsrs::runtime::attach_trace(base, JsonValue::Bool(true));
    match r.structured_content {
        Some(JsonValue::Object(m)) => {
            assert_eq!(m.len(), 2);
            assert_eq!(m[1].0, "trace");
            assert!(matches!(m[1].1, JsonValue::Bool(true)));
        }
        other => panic!("expected an object: {:?}", other),
    }
    let none = skillsrs::callables::ToolResult { content: vec![], structured_content: None, is_error: true };
    let r = skillsrs::runtime::attach_trace(none, JsonValue::Bool(false));
    match r.structured_content {
        Some(JsonValue::Object(m)) => {
            assert_eq!(m.len(), 1);
            assert_eq!(m[0].0, "trace");
        }
        other => panic!("expected an object: {:?}", other),
    }
    assert!(r.is_error);
}

#[test]
fn bubblewrap_command_line() {
    let mut config = SandboxConfig::default();
    config.allow_read = vec![s("/data"), s("/missing")];
    config.allow_write = vec![s("/out")];
    config.allow_network = false;
    let args = skillsrs::isolation::bubblewrap_args(
        &config,
        "python3",
        &vec![s("run.py"), s("--x")],
        "/work",
        &vec![(s("K"), s("V"))],
        &vec![true, false],
        &vec![true],
    );
    let expected: Vec<&str> = vec![
        "--unshare-all", "--share-net", "--die-with-parent",
        "--ro-bind", "/usr", "/usr", "--ro-bind", "/lib", "/lib", "--ro-bind", "/lib64", "/lib64",
        "--ro-bind", "/bin", "/bin", "--ro-bind", "/sbin", "/sbin",
        "--tmpfs", "/tmp", "--tmpfs", "/var", "--proc", "/proc", "--dev", "/dev",
        "--bind", "/work", "/work",
        "--ro-bind", "/data", "/data",
        "--bind", "/out", "/out",
        "--unshare-net",
        "--chdir", "/work",
        "--setenv", "K", "V",
        "python3", "run.py", "--x",
    ];
    assert_eq!(args, expected.into_iter().map(s).collect::<Vec<String>>());
    config.allow_network = true;
    let open = skillsrs::isolation::bubblewrap_args(&config, "sh", &vec![], "/w", &vec![], &vec![false, false], &vec![false]);
    assert!(!open.contains(&s("--unshare-net")));
    assert_eq!(open.last(), Some(&s("sh")));
}

#[test]
fn wasm_input_prefers_inline_arguments() {
    let both = vec![(s("SKILL_ARGS_FILE"), s("/tmp/a.json")), (s("SKILL_ARGS_JSON"), s("{\"a\":1}"))];
    assert!(matches!(wasm_input(&both), WasmInput::Inline(v) if v == "{\"a\":1}"));
    let file = vec![(s("OTHER"), s("x")), (s("SKILL_ARGS_FILE"), s("/tmp/a.json"))];
    assert!(matches!(wasm_input(&file), WasmInput::File(p) if p == "/tmp/a.json"));
    assert!(matches!(wasm_input(&vec![]), WasmInput::Empty));
}
