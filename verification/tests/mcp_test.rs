use skillsrs::callables::{
    BundledTool, CallableId, CallableKind, CallableRecord, CostHints, ResourceContent, RiskTier, SchemaDigest,
    ToolResult, ToolResultContent,
};
use skillsrs::json::JsonValue;
use skillsrs::mcp::{
    call_contents, consent_level_of, content_output, deleted_output, plan_manage, result_text, schema_output,
    stored_output, CallContent, ConsentArgs, ManageInput, ManageOperation, ManageRequest, SchemaInput,
};
use skillsrs::policy::{ConsentLevel, PolicyEngine};
use skillsrs::runtime::{runtime_error_from_sandbox, skill_info_result, tool_target, RuntimeError};
use skillsrs::isolation::SandboxError;
use skillsrs::storage::SkillContent;

fn s(x: &str) -> String {
    x.to_string()
}

fn obj(members: Vec<(&str, JsonValue)>) -> JsonValue {
    JsonValue::Object(members.into_iter().map(|(k, v)| (k.to_string(), v)).collect())
}

fn manage(operation: ManageOperation) -> ManageInput {
    ManageInput {
        operation,
        skill_id: None,
        name: None,
        version: None,
        description: None,
        skill_md: None,
        uses_tools: None,
        bundled_files: None,
        tags: None,
        filename: None,
    }
}

fn record_with_schema(schema: JsonValue) -> CallableRecord {
    CallableRecord {
        id: CallableId::from(s("tool:fs:read_file")),
        kind: CallableKind::Tool,
        fq_name: s("fs.read_file"),
        name: s("read_file"),
        title: None,
        description: None,
        tags: vec![],
        input_schema: schema,
        output_schema: Some(obj(vec![("type", JsonValue::Str(s("string")))])),
        schema_digest: SchemaDigest::from_text("0123456789abcdef"),
        server_alias: Some(s("fs")),
        upstream_tool_name: Some(s("read_file")),
        skill_version: None,
        uses: vec![],
        skill_directory: None,
        bundled_tools: vec![],
        additional_files: vec![],
        cost_hints: CostHints::none(),
        risk_tier: RiskTier::ReadOnly,
        last_seen_ms: 0,
    }
}

fn schema_input(format: &str, pointer: Option<&str>, include_output: bool) -> SchemaInput {
    SchemaInput {
        id: s("tool:fs:read_file"),
        format: s(format),
        include_output_schema: include_output,
        max_bytes: 50_000,
        json_pointer: pointer.map(s),
    }
}

#[test]
fn manage_reports_the_first_missing_field() {
    let mut input = manage(ManageOperation::Create);
    input.name = Some(s("pdf"));
    assert_eq!(plan_manage(input).unwrap_err(), "description is required for create operation");
    assert_eq!(plan_manage(manage(ManageOperation::Get)).unwrap_err(), "skill_id is required for get operation");
    assert_eq!(plan_manage(manage(ManageOperation::Update)).unwrap_err(), "skill_id is required for update operation");
    assert_eq!(plan_manage(manage(ManageOperation::Delete)).unwrap_err(), "skill_id is required for delete operation");
}

#[test]
fn manage_create_fills_defaults() {
    let mut input = manage(ManageOperation::Create);
    input.name = Some(s("pdf"));
    input.description = Some(s("PDF tools"));
    input.skill_md = Some(s("# PDF"));
    input.bundled_files = Some(vec![(s("extract.py"), s("print(1)"))]);
    match plan_manage(input).unwrap() {
        ManageRequest::Create(request) => {
            assert_eq!(request.name, "pdf");
            assert_eq!(request.version, "1.0.0");
            assert_eq!(request.description, "PDF tools");
            assert_eq!(request.skill_md_content, "# PDF");
            assert!(request.uses_tools.is_empty());
            assert_eq!(request.scripts, vec![(s("extract.py"), s("print(1)"))]);
            assert!(request.references.is_empty());
            assert!(request.assets.is_empty());
            assert!(request.tags.is_empty());
        }
        other => panic!("expected a creation: {:?}", other),
    }
}

#[test]
fn manage_get_reads_the_skill_name_from_the_identifier() {
    let mut input = manage(ManageOperation::Get);
    input.skill_id = Some(s("skill:pdf@2.0.0"));
    input.filename = Some(s("references/guide.md"));
    match plan_manage(input).unwrap() {
        ManageRequest::Get { skill_id, skill_name, filename } => {
            assert_eq!(skill_id, "skill:pdf@2.0.0");
            assert_eq!(skill_name, "pdf");
            assert_eq!(filename, Some(s("references/guide.md")));
        }
        other => panic!("expected a get: {:?}", other),
    }
    let mut input = manage(ManageOperation::Delete);
    input.skill_id = Some(s("pdf"));
    match plan_manage(input).unwrap() {
        ManageRequest::Delete { skill_id, skill_name } => {
            assert_eq!(skill_id, "pdf");
            assert_eq!(skill_name, "pdf");
        }
        other => panic!("expected a deletion: {:?}", other),
    }
}

#[test]
fn content_answer_lists_the_metadata() {
    let content = SkillContent {
        skill_md: s("# PDF"),
        additional_files: vec![s("references/guide.md")],
        bundled_tools: vec![BundledTool {
            name: s("extract"),
            description: s(""),
            command: vec![s("python3")],
            schema: JsonValue::Null,
        }],
        uses_tools: vec![s("fs/read"), s("fs/write")],
    };
    let out = content_output(s("pdf"), s("pdf"), &content);
    assert_eq!(out.operation, "get");
    assert_eq!(
        out.message,
        "# Skill: pdf\n\n# PDF\n\n---\n\n## Metadata\n\n- Uses tools: fs/read, fs/write\n- Bundled tools: extract\n- Additional files: references/guide.md\n"
    );
    match out.data {
        Some(JsonValue::Object(m)) => {
            let keys: Vec<&str> = m.iter().map(|(k, _)| k.as_str()).collect();
            assert_eq!(keys, vec!["additional_files", "bundled_tools", "uses_tools"]);
        }
        other => panic!("expected an object: {:?}", other),
    }
}

#[test]
fn schema_answer_follows_the_format_and_pointer() {
    let schema = obj(vec![
        ("type", JsonValue::Str(s("object"))),
        ("properties", obj(vec![("path", obj(vec![("type", JsonValue::Str(s("string")))]))])),
    ]);
    let rec = record_with_schema(schema);
    let out = schema_output(&rec, &schema_input("json_schema", Some("/properties/path"), true), Some(JsonValue::Null))
        .unwrap();
    assert_eq!(out.callable.kind, "tool");
    assert_eq!(out.callable.fq_name, "fs.read_file");
    assert_eq!(out.schema_digest, "0123456789abcdef");
    match out.input_schema {
        Some(JsonValue::Object(m)) => {
            assert_eq!(m.len(), 1);
            assert_eq!(m[0].0, "type");
        }
        other => panic!("expected the subtree: {:?}", other),
    }
    assert!(out.output_schema.is_some());
    assert!(out.signature.is_none());
    let err = schema_output(&rec, &schema_input("both", Some("/nope"), false), None).unwrap_err();
    assert_eq!(err, "Invalid JSON pointer: /nope");
    let sig = schema_output(&rec, &schema_input("signature", Some("/nope"), true), Some(JsonValue::Bool(true)))
        .unwrap();
    assert!(sig.input_schema.is_none());
    assert!(sig.output_schema.is_none());
    assert!(matches!(sig.signature, Some(JsonValue::Bool(true))));
}

#[test]
fn protocol_contents_name_resources_without_text() {
    let result = ToolResult {
        content: vec![
            ToolResultContent::Text { text: s("hi") },
            ToolResultContent::Resource {
                resource: ResourceContent { uri: s("file:///a"), mime_type: Some(s("text/plain")), text: None, blob: None },
            },
            ToolResultContent::Resource {
                resource: ResourceContent { uri: s("file:///b"), mime_type: None, text: Some(s("body")), blob: None },
            },
        ],
        structured_content: None,
        is_error: false,
    };
    let out = call_contents(&result);
    assert_eq!(out.len(), 3);
    assert!(matches!(&out[0], CallContent::Text(t) if t == "hi"));
    assert!(matches!(&out[1], CallContent::Text(t) if t == "Resource: file:///a (text/plain)"));
    assert!(matches!(&out[2], CallContent::Text(t) if t == "body"));
}

#[test]
fn consent_levels_from_exec_arguments() {
    let level = |l: Option<&str>| Some(ConsentArgs { level: l.map(s), token: None });
    assert_eq!(consent_level_of(&level(Some("user_confirmed"))), ConsentLevel::UserConfirmed);
    assert_eq!(consent_level_of(&level(Some("admin_confirmed"))), ConsentLevel::AdminConfirmed);
    assert_eq!(consent_level_of(&level(Some("yes please"))), ConsentLevel::NoConsent);
    assert_eq!(consent_level_of(&level(None)), ConsentLevel::NoConsent);
    assert_eq!(consent_level_of(&None), ConsentLevel::NoConsent);
}

#[test]
fn exec_answers_join_text_contents() {
    let result = ToolResult {
        content: vec![
            ToolResultContent::Text { text: s("line one") },
            ToolResultContent::Image { data: s("AAAA"), mime_type: s("image/png") },
            ToolResultContent::Text { text: s("line two") },
        ],
        structured_content: None,
        is_error: false,
    };
    assert_eq!(result_text(&result), "line one\nline two");
}

#[test]
fn manage_answers() {
    let created = stored_output(true, "skill:pdf@1.0.0", s("pdf"));
    assert_eq!(created.operation, "create");
    assert_eq!(created.message, "Skill created successfully");
    assert_eq!(created.skill_id, Some(s("skill:pdf@1.0.0")));
    let updated = stored_output(false, "skill:pdf@1.0.1", s("pdf"));
    assert_eq!(updated.operation, "update");
    assert_eq!(updated.message, "Skill updated successfully");
    let deleted = deleted_output(s("pdf"), s("pdf"));
    assert_eq!(deleted.operation, "delete");
    assert_eq!(deleted.message, "Skill pdf deleted successfully");
}

#[test]
fn runtime_routes_and_skill_information() {
    let rec = record_with_schema(JsonValue::Null);
    let (server, tool) = tool_target(&rec).unwrap();
    assert_eq!(server, "fs");
    assert_eq!(tool, "read_file");
    let mut orphan = record_with_schema(JsonValue::Null);
    orphan.server_alias = None;
    assert!(matches!(tool_target(&orphan), Err(RuntimeError::Internal(m)) if m == "Tool missing server alias"));
    orphan.server_alias = Some(s("fs"));
    orphan.upstream_tool_name = None;
    assert!(matches!(tool_target(&orphan), Err(RuntimeError::Internal(m)) if m == "Tool missing upstream name"));

    let mut skill = record_with_schema(JsonValue::Null);
    skill.kind = CallableKind::Skill;
    skill.fq_name = s("skill.pdf");
    skill.name = s("pdf");
    skill.skill_version = Some(s("1.0.0"));
    skill.uses = vec![CallableId::from(s("tool:fs:read_file"))];
    let info = skill_info_result(&skill);
    assert!(!info.is_error);
    match &info.content[0] {
        ToolResultContent::Text { text } => {
            assert_eq!(text, "Skill skill.pdf provides instructions for agent. Load SKILL.md for details.")
        }
        other => panic!("expected text: {:?}", other),
    }
    match info.structured_content {
        Some(JsonValue::Object(m)) => {
            let keys: Vec<&str> = m.iter().map(|(k, _)| k.as_str()).collect();
            assert_eq!(keys, vec!["additional_files", "bundled_tools", "message", "skill", "uses_tools", "version"]);
        }
        other => panic!("expected an object: {:?}", other),
    }
}

#[test]
fn sandbox_errors_become_runtime_errors() {
    assert!(matches!(runtime_error_from_sandbox(SandboxError::Timeout(500)), RuntimeError::Timeout(500)));
    assert!(matches!(runtime_error_from_sandbox(SandboxError::Io(s("disk"))), RuntimeError::Io(m) if m == "disk"));
    assert!(matches!(
        runtime_error_from_sandbox(SandboxError::ExecutionFailed(s("bad"))),
        RuntimeError::BundledToolError(_)
    ));
}

#[test]
fn permissive_policy_trusts_everything() {
    let engine = PolicyEngine::new_permissive();
    assert!(engine.is_server_trusted("any-server"));
    assert_eq!(engine.max_calls_per_skill(), 100);
    let mut rec = record_with_schema(JsonValue::Null);
    rec.risk_tier = RiskTier::Admin;
    let answer = engine.authorize(&rec, &JsonValue::Null, ConsentLevel::NoConsent).unwrap();
    assert!(answer.allowed);
}

#[test]
fn consent_levels_parse_ignoring_case() {
    assert_eq!("USER_CONFIRMED".parse::<ConsentLevel>(), Ok(ConsentLevel::UserConfirmed));
    assert_eq!("admin_confirmed".parse::<ConsentLevel>(), Ok(ConsentLevel::AdminConfirmed));
    assert_eq!("maybe".parse::<ConsentLevel>(), Ok(ConsentLevel::NoConsent));
}
