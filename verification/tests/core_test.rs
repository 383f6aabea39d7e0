use skillsrs::callables::{
    CoreError, CallableId, CallableKind, CallableRecord, CostHints, RiskTier, SchemaDigest,
};
use skillsrs::canonical::{canonicalize_json, sort_value};
use skillsrs::json::JsonValue;
use skillsrs::mcp::{bundled_files_schema, json_value_schema, json_value_vec_schema, non_negative_int_schema};
use skillsrs::policy::{ConsentLevel, PolicyConfig, PolicyEngine};

fn s(x: &str) -> String {
    x.to_string()
}

fn obj(members: Vec<(&str, JsonValue)>) -> JsonValue {
    JsonValue::Object(members.into_iter().map(|(k, v)| (k.to_string(), v)).collect())
}

fn object_schema() -> JsonValue {
    obj(vec![("type", JsonValue::Str(s("object")))])
}

fn create_test_tool_record(name: &str, server: &str) -> CallableRecord {
    let schema = object_schema();
    let digest = SchemaDigest::from_schema(&schema).unwrap();
    let id = CallableId::tool(server, name, digest.as_str());
    CallableRecord {
        id,
        kind: CallableKind::Tool,
        fq_name: format!("{}.{}", server, name),
        name: name.to_string(),
        title: Some(name.to_string()),
        description: Some(s("A test tool")),
        tags: vec![s("test")],
        input_schema: schema,
        output_schema: None,
        schema_digest: digest,
        server_alias: Some(server.to_string()),
        upstream_tool_name: Some(name.to_string()),
        skill_version: None,
        uses: vec![],
        skill_directory: None,
        bundled_tools: vec![],
        additional_files: vec![],
        cost_hints: CostHints::none(),
        risk_tier: RiskTier::ReadOnly,
        last_seen_ms: 0,
    }
}

#[test]
fn test_callable_id_parsing() {
    let tool_id = CallableId::tool("test-server", "test-tool", "abc123");
    assert_eq!(tool_id.kind().unwrap(), CallableKind::Tool);
    assert_eq!(tool_id.server_alias(), Some("test-server".to_string()));
    assert_eq!(tool_id.tool_name(), Some("test-tool".to_string()));

    let skill_id = CallableId::skill("my-skill", "1.0.0");
    assert_eq!(skill_id.kind().unwrap(), CallableKind::Skill);
    assert_eq!(skill_id.skill_name(), Some("my-skill".to_string()));
}

#[test]
fn test_risk_tier_ordering() {
    assert!(RiskTier::ReadOnly < RiskTier::Writes);
    assert!(RiskTier::Writes < RiskTier::Destructive);
    assert!(RiskTier::Destructive < RiskTier::Admin);
    assert!(RiskTier::Admin < RiskTier::Unknown);
}

#[test]
fn test_risk_tier_requires_consent() {
    assert!(!RiskTier::ReadOnly.requires_consent());
    assert!(RiskTier::Writes.requires_consent());
    assert!(RiskTier::Destructive.requires_consent());
    assert!(RiskTier::Admin.requires_consent());
    assert!(!RiskTier::Unknown.requires_consent());
}

#[test]
fn test_risk_tier_from_str() {
    assert_eq!("read_only".parse::<RiskTier>().unwrap(), RiskTier::ReadOnly);
    assert_eq!("writes".parse::<RiskTier>().unwrap(), RiskTier::Writes);
    assert_eq!("destructive".parse::<RiskTier>().unwrap(), RiskTier::Destructive);
    assert_eq!("admin".parse::<RiskTier>().unwrap(), RiskTier::Admin);
    assert_eq!("unknown".parse::<RiskTier>().unwrap(), RiskTier::Unknown);
    assert!("invalid".parse::<RiskTier>().is_err());
}

#[test]
fn test_schema_digest() {
    let schema = obj(vec![
        ("type", JsonValue::Str(s("object"))),
        (
            "properties",
            obj(vec![("name", obj(vec![("type", JsonValue::Str(s("string")))]))]),
        ),
    ]);
    let digest = SchemaDigest::from_schema(&schema).unwrap();
    assert_eq!(digest.short().len(), 8);
    assert!(digest.as_str().len() > 8);
}

#[test]
fn test_policy_engine_allow_readonly() {
    let engine = PolicyEngine::new(PolicyConfig::default()).unwrap();
    let record = create_test_tool_record("readonly-tool", "server1");
    let result = engine.authorize(&record, &obj(vec![]), ConsentLevel::NoConsent).unwrap();
    assert!(result.allowed);
}

#[test]
fn test_policy_engine_deny_by_tag() {
    let config = PolicyConfig { deny_tags: vec![s("dangerous")], ..Default::default() };
    let engine = PolicyEngine::new(config).unwrap();
    let mut record = create_test_tool_record("dangerous-tool", "server1");
    record.tags = vec![s("dangerous")];
    let result = engine.authorize(&record, &obj(vec![]), ConsentLevel::NoConsent).unwrap();
    assert!(!result.allowed);
    assert!(result.reason.contains("denied tag"));
}

#[test]
fn test_policy_engine_require_consent_for_writes() {
    let engine = PolicyEngine::new(PolicyConfig::default()).unwrap();
    let mut record = create_test_tool_record("write-tool", "server1");
    record.risk_tier = RiskTier::Writes;

    let result = engine.authorize(&record, &obj(vec![]), ConsentLevel::NoConsent).unwrap();
    assert!(!result.allowed);
    assert!(result.required_consent.is_some());

    let result = engine.authorize(&record, &obj(vec![]), ConsentLevel::UserConfirmed).unwrap();
    assert!(result.allowed);
}

#[test]
fn tool_id_text_and_digest_prefix() {
    let id = CallableId::tool("srv", "t", "0123456789abcdef");
    assert_eq!(id.as_str(), "tool:srv:srv::t::sd:01234567");
    let skill = CallableId::skill("web", "2.1.0");
    assert_eq!(skill.as_str(), "skill:web@2.1.0");
    assert!(CallableId::from(s("nonsense")).kind().is_err());
}

#[test]
fn risk_tier_names_round_trip() {
    for t in [RiskTier::ReadOnly, RiskTier::Writes, RiskTier::Destructive, RiskTier::Admin, RiskTier::Unknown] {
        assert_eq!(t.name().parse::<RiskTier>().unwrap(), t);
    }
    assert_eq!("READ_ONLY".parse::<RiskTier>().unwrap(), RiskTier::ReadOnly);
}

#[test]
fn canonical_text_sorts_keys_at_every_depth() {
    let v = obj(vec![
        ("b", JsonValue::Number(s("1"))),
        ("a", obj(vec![("y", JsonValue::Bool(true)), ("x", JsonValue::Null)])),
        ("c", JsonValue::Array(vec![obj(vec![("z", JsonValue::Str(s("q"))), ("k", JsonValue::Number(s("2")))])])),
    ]);
    let text = canonicalize_json(&v).unwrap();
    assert_eq!(text, r#"{"a":{"x":null,"y":true},"b":1,"c":[{"k":2,"z":"q"}]}"#);
    match sort_value(&v) {
        JsonValue::Object(m) => {
            let keys: Vec<&str> = m.iter().map(|(k, _)| k.as_str()).collect();
            assert_eq!(keys, vec!["a", "b", "c"]);
        }
        _ => panic!("expected an object"),
    }
}

#[test]
fn reordered_schema_has_the_same_digest() {
    let a = obj(vec![("type", JsonValue::Str(s("object"))), ("required", JsonValue::Array(vec![]))]);
    let b = obj(vec![("required", JsonValue::Array(vec![])), ("type", JsonValue::Str(s("object")))]);
    let da = SchemaDigest::from_schema(&a).unwrap();
    let db = SchemaDigest::from_schema(&b).unwrap();
    assert_eq!(da, db);
    let other = SchemaDigest::from_schema(&object_schema()).unwrap();
    assert_ne!(da, other);
}

#[test]
fn digest_is_blake3_of_canonical_text() {
    let d = SchemaDigest::from_schema(&object_schema()).unwrap();
    let expected = SchemaDigest::from_canonical_text(r#"{"type":"object"}"#);
    assert_eq!(d, expected);
    assert_eq!(d.as_str().len(), 64);
    assert_eq!(d.short(), d.as_str()[..8].to_string());
}

#[test]
fn canonical_text_of_invalid_number_is_an_error() {
    let v = JsonValue::Number(s("not-a-number"));
    assert!(canonicalize_json(&v).is_err());
}

#[test]
fn field_schemas_have_their_canonical_text() {
    assert_eq!(canonicalize_json(&json_value_schema()).unwrap(), "{}");
    assert_eq!(canonicalize_json(&json_value_vec_schema()).unwrap(), r#"{"items":{},"type":"array"}"#);
    assert_eq!(canonicalize_json(&non_negative_int_schema()).unwrap(), r#"{"minimum":0,"type":"integer"}"#);
    assert_eq!(
        canonicalize_json(&bundled_files_schema()).unwrap(),
        r#"{"anyOf":[{"items":{"items":{"type":"string"},"maxItems":2,"minItems":2,"type":"array"},"type":"array"},{"type":"null"}]}"#
    );
}

#[test]
fn core_error_messages() {
    assert_eq!(CoreError::InvalidRiskTier(s("x")).message(), "Invalid risk tier: x");
    assert_eq!(CoreError::InvalidCallableId(s("y")).message(), "Invalid callable ID format: y");
    assert_eq!(CoreError::SerializationError(s("z")).message(), "Serialization error: z");
}

#[test]
fn tool_ids_keep_single_colons_in_their_parts() {
    let id = CallableId::tool("a:b", ":x", "0123456789");
    assert_eq!(id.as_str(), "tool:srv:a:b:::x::sd:01234567");
    assert_eq!(id.server_alias(), Some(s("a:b")));
    assert_eq!(id.tool_name(), Some(s(":x")));
    let bad = CallableId::tool("a:", "x", "0123456789");
    assert_eq!(bad.server_alias(), Some(s("a")));
}

#[test]
fn canonical_text_fails_only_on_unreadable_numbers() {
    let bad = obj(vec![("n", JsonValue::Number(s("not-a-number")))]);
    assert!(canonicalize_json(&bad).is_err());
    assert!(SchemaDigest::from_schema(&bad).is_err());
    let good = obj(vec![("n", JsonValue::Number(s("12")))]);
    assert_eq!(canonicalize_json(&good).unwrap(), "{\"n\":12}");
    let d = SchemaDigest::from_schema(&good).unwrap();
    assert_eq!(d.short().len(), 8);
    assert!(d.as_str().starts_with(&d.short()));
}

#[test]
fn repeated_keys_are_found_at_any_depth() {
    use_keys(obj(vec![("a", JsonValue::Null), ("b", JsonValue::Null)]), true);
    use_keys(obj(vec![("a", JsonValue::Null), ("a", JsonValue::Null)]), false);
    use_keys(JsonValue::Array(vec![obj(vec![("x", obj(vec![("k", JsonValue::Null), ("k", JsonValue::Null)]))])]), false);
    use_keys(JsonValue::Array(vec![JsonValue::Null, obj(vec![("k", JsonValue::Null)])]), true);
}

fn use_keys(v: JsonValue, expected: bool) {
    assert_eq!(skillsrs::canonical::has_unique_keys(&v), expected);
}
