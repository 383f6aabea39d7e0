use skillsrs::agent_skills::{parse_frontmatter_public, title_from_name, AgentSkill, AllowedTools};
use skillsrs::storage::{
    additional_files, bundled_tool_for_file, check_skill_file_name, frame_skill_md, is_valid_skill_id,
    normalize_skill_body, parse_yaml_frontmatter, plan_create_skill, plan_update_skill, validate_skill_name,
    SkillStoreError,
};
use skillsrs::sync::{
    add_repo_url, git_clone_args, needs_sync, removed_repos, repo_alias, repo_aliases, repo_url, skills_to_import,
    stale_skills, AgentSkillsRepoConfig, SyncReport,
};

fn s(x: &str) -> String {
    x.to_string()
}

fn strings(v: &[&str]) -> Vec<String> {
    v.iter().map(|x| x.to_string()).collect()
}

#[test]
fn skill_ids() {
    assert!(is_valid_skill_id("web-search2"));
    assert!(!is_valid_skill_id("Web"));
    assert!(!is_valid_skill_id(""));
    assert!(!is_valid_skill_id("a_b"));
    assert!(!is_valid_skill_id("2fast"));
    assert!(!is_valid_skill_id(&"a".repeat(101)));
    assert!(is_valid_skill_id(&"a".repeat(100)));
}

#[test]
fn skill_names() {
    assert!(validate_skill_name("ok-name").is_ok());
    match validate_skill_name("") {
        Err(SkillStoreError::ValidationError(m)) => assert_eq!(m, "Skill name cannot be empty"),
        _ => panic!("expected a validation error"),
    }
    match validate_skill_name("../x") {
        Err(SkillStoreError::ValidationError(m)) => assert_eq!(m, "Invalid skill name: ../x"),
        _ => panic!("expected a validation error"),
    }
    match validate_skill_name(&"n".repeat(101)) {
        Err(SkillStoreError::ValidationError(m)) => assert_eq!(m, "Skill name too long (max 100 characters)"),
        _ => panic!("expected a validation error"),
    }
}

#[test]
fn skill_file_names() {
    assert!(check_skill_file_name("scripts/run.py").is_ok());
    match check_skill_file_name("/etc/passwd") {
        Err(SkillStoreError::InvalidManifest(m)) => assert_eq!(m, "Absolute paths not allowed: /etc/passwd"),
        _ => panic!("expected an invalid manifest"),
    }
    match check_skill_file_name("a/../b") {
        Err(SkillStoreError::InvalidManifest(m)) => assert_eq!(m, "Path traversal not allowed: a/../b"),
        _ => panic!("expected an invalid manifest"),
    }
}

#[test]
fn skill_md_framing() {
    assert_eq!(frame_skill_md("name: x\n", "  Body text \n"), "---\nname: x\n---\n\nBody text");
    assert_eq!(frame_skill_md("---\nname: x\n", "B"), "---\nname: x\n---\n\nB");
    let (yaml, body) = parse_yaml_frontmatter("---\nname: x\n---\n  Hello\n").unwrap();
    assert_eq!(yaml, "name: x");
    assert_eq!(body, "Hello");
    let (yaml, body) = parse_yaml_frontmatter("no frontmatter").unwrap();
    assert_eq!(yaml, "");
    assert_eq!(body, "no frontmatter");
    assert_eq!(normalize_skill_body("---\nname: x\n---\nHello\n"), "Hello");
    assert_eq!(normalize_skill_body("  plain  "), "plain");
}

#[test]
fn additional_skill_files() {
    let names = strings(&["SKILL.md", "run.py", "notes.txt", "tool.schema.json", "x.sh", "a.js", "data.csv"]);
    assert_eq!(additional_files(&names, false), strings(&["notes.txt", "tool.schema.json", "data.csv"]));
    assert_eq!(additional_files(&names, true), strings(&["notes.txt", "data.csv"]));
}

#[test]
fn agent_skill_names() {
    assert!(AgentSkill::validate_name("pdf-tools").is_ok());
    assert_eq!(
        AgentSkill::validate_name("").unwrap_err().message(),
        "Validation error: name must be 1-64 characters"
    );
    assert_eq!(
        AgentSkill::validate_name("Pdf").unwrap_err().message(),
        "Validation error: name must contain only lowercase letters, numbers, and hyphens"
    );
    assert_eq!(
        AgentSkill::validate_name("-pdf").unwrap_err().message(),
        "Validation error: name cannot start or end with hyphen"
    );
    assert_eq!(
        AgentSkill::validate_name("pdf--tools").unwrap_err().message(),
        "Validation error: name cannot contain consecutive hyphens"
    );
}

#[test]
fn agent_skill_frontmatter_split() {
    let (yaml, body) = parse_frontmatter_public("---\r\nname: pdf\r\n---\r\n\r\n# Title\r\n").unwrap();
    assert_eq!(yaml, "name: pdf");
    assert_eq!(body, "# Title");
    assert_eq!(
        parse_frontmatter_public("# no frontmatter").unwrap_err().message(),
        "Invalid skill format: SKILL.md must start with YAML frontmatter (---)"
    );
    assert_eq!(
        parse_frontmatter_public("---\nname: x\n").unwrap_err().message(),
        "Invalid skill format: SKILL.md frontmatter not properly closed with ---"
    );
}

#[test]
fn agent_skill_helpers() {
    assert_eq!(title_from_name("pdf-tools"), "Pdf Tools");
    assert_eq!(title_from_name("web"), "Web");
    assert_eq!(AllowedTools::Spaced(s("Bash  Read\tWrite")).to_vec(), strings(&["Bash", "Read", "Write"]));
    assert_eq!(AllowedTools::Array(strings(&["A", "B"])).to_vec(), strings(&["A", "B"]));
    assert_eq!(AgentSkill::infer_interpreter("run.py"), "python3");
    assert_eq!(AgentSkill::infer_interpreter("run.sh"), "bash");
    assert_eq!(AgentSkill::infer_interpreter("run.js"), "node");
    assert_eq!(AgentSkill::infer_interpreter("run"), "bash");
}

fn repo(r: &str, git_ref: Option<&str>, alias: Option<&str>) -> AgentSkillsRepoConfig {
    AgentSkillsRepoConfig { repo: s(r), git_ref: git_ref.map(s), skills: None, alias: alias.map(s) }
}

#[test]
fn repository_urls_and_aliases() {
    assert_eq!(repo_url("owner/repo").unwrap(), "https://github.com/owner/repo");
    assert_eq!(repo_url("https://x/y.git").unwrap(), "https://x/y.git");
    assert_eq!(repo_url("file:///tmp/r").unwrap(), "file:///tmp/r");
    assert_eq!(repo_url("nonsense").unwrap_err(), "Invalid repo format: nonsense");
    assert_eq!(add_repo_url("owner/repo"), Some(s("https://github.com/owner/repo")));
    assert_eq!(add_repo_url("file:///tmp/r"), None);
    assert_eq!(repo_alias(&repo("https://github.com/o/skills.git", None, None)), "skills");
    assert_eq!(repo_alias(&repo("o/skills", None, Some("mine"))), "mine");
    assert_eq!(
        git_clone_args(&repo("o/r", Some("main"), None), "https://github.com/o/r", "/tmp/d"),
        strings(&["clone", "--branch", "main", "--depth", "1", "https://github.com/o/r", "/tmp/d"])
    );
}

#[test]
fn import_selection_and_stale_skills() {
    let found = strings(&["/c/skills/pdf", "/c/skills/web", "/c/other/docx"]);
    assert_eq!(skills_to_import(found.clone(), &None), found);
    assert_eq!(
        skills_to_import(found, &Some(strings(&["docx", "pdf"]))),
        strings(&["/c/skills/pdf", "/c/other/docx"])
    );
    assert_eq!(stale_skills(&strings(&["a", "b", "c"]), &strings(&["b"])), strings(&["a", "c"]));
}

#[test]
fn sync_reports_merge() {
    let mut a = SyncReport::new();
    assert!(a.is_empty());
    a.added.push(s("x"));
    let mut b = SyncReport::new();
    b.updated.push(s("y"));
    b.errors.push(s("e"));
    a.merge(b);
    assert_eq!(a.added, strings(&["x"]));
    assert_eq!(a.updated, strings(&["y"]));
    assert_eq!(a.errors, strings(&["e"]));
    assert!(!a.is_empty());
    assert_eq!(a.total_changes(), 2);
}

#[test]
fn skill_md_written_then_read_back() {
    let yaml = "name: pdf\ndescription: PDF tools\n";
    let text = frame_skill_md(yaml, "\n# PDF\n\nUse it.\n");
    let (front, body) = parse_yaml_frontmatter(&text).unwrap();
    assert_eq!(front, "name: pdf\ndescription: PDF tools");
    assert_eq!(body, "# PDF\n\nUse it.");
    assert_eq!(normalize_skill_body(&text), "# PDF\n\nUse it.");
}

#[test]
fn repositories_dropped_from_the_config_are_removed() {
    let repos = vec![
        repo("owner/kept.git", None, None),
        repo("https://example.com/other", None, Some("renamed")),
    ];
    assert_eq!(repo_aliases(&repos), vec![s("kept"), s("renamed")]);
    let synced = vec![s("gone"), s("kept"), s("other"), s("renamed")];
    assert_eq!(removed_repos(&synced, &repos), vec![s("gone"), s("other")]);
    assert!(removed_repos(&vec![s("kept")], &repos).is_empty());
}

#[test]
fn removal_is_exactly_what_is_no_longer_kept() {
    let old = vec![s("a"), s("b"), s("c"), s("b")];
    let keep = vec![s("c"), s("d")];
    let gone = stale_skills(&old, &keep);
    assert_eq!(gone, vec![s("a"), s("b"), s("b")]);
    for x in ["a", "b", "c", "d", "e"] {
        let expected = old.contains(&s(x)) && !keep.contains(&s(x));
        assert_eq!(gone.contains(&s(x)), expected);
    }
}

fn manifest_skill(id: &str, version: &str, allow: Vec<&str>, documentation: Option<&str>) -> skillsrs::storage::Skill {
    skillsrs::storage::Skill {
        manifest: skillsrs::storage::SkillManifest {
            id: s(id),
            title: s("A skill"),
            version: s(version),
            description: s("A valid test skill with proper description"),
            inputs: skillsrs::json::JsonValue::Object(vec![(
                s("type"),
                skillsrs::json::JsonValue::Str(s("object")),
            )]),
            outputs: None,
            entrypoint: skillsrs::storage::EntrypointType::Prompted,
            tool_policy: skillsrs::storage::ToolPolicy {
                allow: allow.into_iter().map(s).collect(),
                deny: vec![],
                required: vec![],
            },
            hints: skillsrs::storage::SkillHints { intent: vec![], domain: vec![], outcomes: vec![], expected_calls: None },
            risk_tier: None,
        },
        path: s("/skills/x"),
        documentation: documentation.map(s),
    }
}

#[test]
fn validate_skill_accepts_a_well_formed_skill() {
    let skill = manifest_skill("valid-skill", "1.0.0", vec![], Some("# Valid Skill\n\nThis has proper documentation."));
    let result = skillsrs::storage::validate_skill(&skill, &vec![], None, &vec![]);
    assert!(result.valid, "{:?}", result.errors);
    assert!(result.errors.is_empty());
    assert_eq!(result.warnings, vec![s("SKILL.md is very short (<50 chars)")]);
}

#[test]
fn validate_skill_reports_each_problem() {
    let skill = manifest_skill("skill-a", "not-a-version", vec!["skill-a", "brave_search", "fs/*"], None);
    let result = skillsrs::storage::validate_skill(&skill, &vec![], Some(s("/skills/x")), &vec![]);
    assert!(!result.valid);
    assert!(result.errors[0].starts_with("Invalid version 'not-a-version': "));
    assert!(result.errors.contains(&s("Circular dependency: skill 'skill-a' references itself")));
    assert!(result.errors.contains(&s("Cannot read skill directory: /skills/x")));
    assert_eq!(
        result.warnings,
        vec![
            s("Tool 'skill-a' not found in registry (may be loaded later)"),
            s("Tool 'brave_search' not found in registry (may be loaded later)"),
            s("No SKILL.md documentation found"),
        ]
    );
}

#[test]
fn validate_skill_rejects_a_bad_identifier() {
    let skill = manifest_skill("Bad_Id", "1.0.0", vec![], Some("documentation that is long enough to pass the length check"));
    let result = skillsrs::storage::validate_skill(&skill, &vec![], None, &vec![]);
    assert!(!result.valid);
    assert_eq!(result.errors, vec![s("Invalid skill ID 'Bad_Id': must be lowercase alphanumeric with hyphens")]);
    assert!(result.warnings.is_empty());
}

fn frontmatter(name: &str, description: Option<&str>) -> skillsrs::agent_skills::AgentSkillsFrontmatter {
    skillsrs::agent_skills::AgentSkillsFrontmatter {
        name: s(name),
        version: None,
        description: description.map(s),
        license: None,
        compatibility: None,
        metadata: vec![],
        allowed_tools: None,
    }
}

#[test]
fn frontmatter_limits() {
    use_check(frontmatter("", None), "name", true);
    use_check(frontmatter(&"a".repeat(65), None), "name exceeds 64 characters", false);
    let mut long = frontmatter("pdf", Some(&"d".repeat(1025)));
    use_check(long, "description exceeds 1024 characters", false);
    long = frontmatter("pdf", Some("fine"));
    long.compatibility = Some("c".repeat(501));
    use_check(long, "compatibility exceeds 500 characters", false);
    assert!(skillsrs::agent_skills::check_frontmatter(&frontmatter(&"a".repeat(64), Some(&"d".repeat(1024)))).is_ok());
}

fn use_check(fm: skillsrs::agent_skills::AgentSkillsFrontmatter, message: &str, missing: bool) {
    match skillsrs::agent_skills::check_frontmatter(&fm) {
        Err(skillsrs::agent_skills::AgentSkillsError::MissingField(m)) => {
            assert!(missing);
            assert_eq!(m, message);
        }
        Err(skillsrs::agent_skills::AgentSkillsError::ValidationError(m)) => {
            assert!(!missing);
            assert_eq!(m, message);
        }
        other => panic!("unexpected: {:?}", other),
    }
}

fn skill_from(name: &str, dir: Option<&str>) -> Result<AgentSkill, skillsrs::agent_skills::AgentSkillsError> {
    AgentSkill::from_parts(frontmatter(name, Some("d")), s("body"), s("/s"), dir.map(s), vec![], vec![], vec![])
}

#[test]
fn skill_names_must_match_their_directory_and_rules() {
    assert!(skill_from("pdf", Some("pdf")).is_ok());
    match skill_from("pdf", Some("docs")) {
        Err(skillsrs::agent_skills::AgentSkillsError::ValidationError(m)) => {
            assert_eq!(m, "Skill name 'pdf' does not match directory name 'docs'")
        }
        other => panic!("unexpected: {:?}", other),
    }
    match skill_from("pdf", None) {
        Err(skillsrs::agent_skills::AgentSkillsError::InvalidFormat(m)) => assert_eq!(m, "Invalid directory name"),
        other => panic!("unexpected: {:?}", other),
    }
    for (name, message) in [
        ("Pdf", "name must contain only lowercase letters, numbers, and hyphens"),
        ("-pdf", "name cannot start or end with hyphen"),
        ("pdf--tools", "name cannot contain consecutive hyphens"),
    ] {
        match skill_from(name, Some(name)) {
            Err(skillsrs::agent_skills::AgentSkillsError::ValidationError(m)) => assert_eq!(m, message),
            other => panic!("unexpected for {}: {:?}", name, other),
        }
    }
}

fn pdf_skill() -> AgentSkill {
    let mut fm = frontmatter("pdf-processing", Some("Extracts text from PDF files. Handles forms."));
    fm.metadata = vec![(s("version"), s("2.1.0"))];
    fm.allowed_tools = Some(AllowedTools::Spaced(s("Read  Write")));
    AgentSkill::from_parts(
        fm,
        s("# PDF"),
        s("/s/pdf-processing"),
        Some(s("pdf-processing")),
        vec![s("/s/pdf-processing/scripts/extract.py"), s("/s/pdf-processing/scripts/run.sh")],
        vec![s("/s/pdf-processing/references/guide.md")],
        vec![s("/s/pdf-processing/assets/logo.png")],
    )
    .unwrap()
}

#[test]
fn agent_skill_manifest() {
    let m = pdf_skill().to_skill_manifest();
    assert_eq!(m.id, "pdf-processing");
    assert_eq!(m.title, "Pdf Processing");
    assert_eq!(m.version, "2.1.0");
    assert_eq!(m.description, "Extracts text from PDF files. Handles forms.");
    assert!(matches!(m.entrypoint, skillsrs::storage::EntrypointType::Script));
    assert_eq!(m.tool_policy.allow, vec![s("Read"), s("Write")]);
    assert_eq!(m.hints.intent, vec![s("extracts"), s("text"), s("from"), s("files"), s("handles"), s("forms")]);
    assert!(m.outputs.is_none());
    let bare = AgentSkill::from_parts(frontmatter("notes", None), s(""), s("/s/notes"), Some(s("notes")), vec![], vec![], vec![])
        .unwrap()
        .to_skill_manifest();
    assert_eq!(bare.version, "1.0.0");
    assert_eq!(bare.description, "Command-only skill: notes");
    assert!(matches!(bare.entrypoint, skillsrs::storage::EntrypointType::Prompted));
    assert_eq!(bare.tool_policy.allow, vec![s("*")]);
}

#[test]
fn agent_skill_content_discloses_files() {
    let c = pdf_skill().to_skill_content();
    assert_eq!(c.skill_md, "# PDF");
    assert_eq!(c.bundled_tools.len(), 2);
    assert_eq!(c.bundled_tools[0].name, "extract.py");
    assert_eq!(c.bundled_tools[0].command, vec![s("python3"), s("extract.py")]);
    assert_eq!(c.bundled_tools[0].description, "Bundled script: extract.py");
    assert_eq!(c.bundled_tools[1].command, vec![s("bash"), s("run.sh")]);
    assert_eq!(c.additional_files, vec![s("references/guide.md"), s("assets/logo.png")]);
    assert_eq!(c.uses_tools, vec![s("Read"), s("Write")]);
}

fn request(name: &str, content: &str, scripts: Vec<(&str, &str)>) -> skillsrs::storage::CreateSkillRequest {
    skillsrs::storage::CreateSkillRequest {
        name: s(name),
        version: s("1.0.0"),
        description: s("A skill"),
        skill_md_content: s(content),
        uses_tools: vec![],
        scripts: scripts.into_iter().map(|(f, c)| (s(f), s(c))).collect(),
        references: vec![],
        assets: vec![],
        tags: vec![],
    }
}

#[test]
fn creating_a_skill_checks_name_existence_and_files() {
    assert_eq!(plan_create_skill(&request("pdf", "  # PDF\n", vec![]), false).unwrap(), "# PDF");
    assert!(matches!(plan_create_skill(&request("pdf", "x", vec![]), true), Err(SkillStoreError::AlreadyExists(n)) if n == "pdf"));
    match plan_create_skill(&request("pdf", "x", vec![("../evil.py", "")]), false) {
        Err(SkillStoreError::ValidationError(m)) => assert_eq!(m, "Invalid script filename: ../evil.py"),
        other => panic!("unexpected: {:?}", other),
    }
    assert!(matches!(plan_create_skill(&request("", "x", vec![]), false), Err(SkillStoreError::ValidationError(_))));
    let framed = "---\nname: pdf\n---\n\n  body  ";
    assert_eq!(plan_create_skill(&request("pdf", framed, vec![]), false).unwrap(), "body");
}

#[test]
fn updating_a_skill_keeps_or_replaces_the_body() {
    let existing = "---\nname: pdf\nversion: 1.0.0\n---\n\n# Old body\n";
    assert_eq!(plan_update_skill(&request("pdf", "", vec![]), existing).unwrap(), "# Old body");
    assert_eq!(plan_update_skill(&request("pdf", "", vec![]), "plain text").unwrap(), "plain text");
    assert_eq!(plan_update_skill(&request("pdf", " # New ", vec![]), existing).unwrap(), "# New");
    match plan_update_skill(&request("pdf", "x", vec![("a/b.sh", "")]), existing) {
        Err(SkillStoreError::ValidationError(m)) => assert_eq!(m, "Invalid script filename: a/b.sh"),
        other => panic!("unexpected: {:?}", other),
    }
}

#[test]
fn scripts_become_bundled_tools() {
    let t = bundled_tool_for_file("extract.py", "/s/pdf/scripts/extract.py", "scripts", None).unwrap();
    assert_eq!(t.name, "scripts/extract.py");
    assert_eq!(t.description, "Bundled tool: extract.py");
    assert_eq!(t.command, vec![s("python3"), s("/s/pdf/scripts/extract.py")]);
    let root = bundled_tool_for_file("run.js", "/s/pdf/run.js", "", Some(skillsrs::json::JsonValue::Null)).unwrap();
    assert_eq!(root.name, "run.js");
    assert_eq!(root.command, vec![s("node"), s("/s/pdf/run.js")]);
    assert!(matches!(root.schema, skillsrs::json::JsonValue::Null));
    assert!(bundled_tool_for_file("notes.txt", "/s/pdf/notes.txt", "", None).is_none());
    assert!(bundled_tool_for_file("Makefile", "/s/pdf/Makefile", "", None).is_none());
}

#[test]
fn registered_skill_record() {
    let mut skill = manifest_skill("pdf", "2.0.0", vec![], Some("docs"));
    skill.manifest.hints.intent = vec![s("extract")];
    skill.manifest.risk_tier = Some(s("writes"));
    let digest = skillsrs::callables::SchemaDigest::from_text("abcdef0123456789");
    let r = skillsrs::storage::skill_record(&skill, digest, vec![], vec![s("references/a.md")], 7);
    assert_eq!(r.id.as_str(), "skill:pdf@2.0.0");
    assert_eq!(r.fq_name, "skill.pdf");
    assert_eq!(r.name, "pdf");
    assert_eq!(r.tags, vec![s("extract"), s("skill")]);
    assert_eq!(r.skill_version, Some(s("2.0.0")));
    assert_eq!(r.skill_directory, Some(s("/skills/x")));
    assert_eq!(r.additional_files, vec![s("references/a.md")]);
    assert_eq!(r.risk_tier, skillsrs::callables::RiskTier::Writes);
    assert_eq!(r.last_seen_ms, 7);
    assert!(r.server_alias.is_none());
}

fn metadata(git_ref: Option<&str>, synced: Vec<&str>) -> skillsrs::sync::SyncMetadata {
    skillsrs::sync::SyncMetadata {
        repo: s("owner/repo"),
        git_ref: git_ref.map(s),
        commit_sha: s("abc"),
        synced_skills: synced.into_iter().map(s).collect(),
        last_sync_ms: 0,
    }
}

#[test]
fn repositories_resync_when_their_settings_change() {
    let mut config = repo("owner/repo", Some("main"), None);
    assert!(needs_sync(None, &config));
    assert!(!needs_sync(Some(&metadata(Some("main"), vec!["a"])), &config));
    assert!(needs_sync(Some(&metadata(Some("dev"), vec!["a"])), &config));
    assert!(needs_sync(Some(&metadata(None, vec!["a"])), &config));
    config.skills = Some(vec![s("b"), s("a")]);
    assert!(!needs_sync(Some(&metadata(Some("main"), vec!["a", "b"])), &config));
    assert!(needs_sync(Some(&metadata(Some("main"), vec!["a"])), &config));
    assert!(!needs_sync(Some(&metadata(Some("main"), vec![])), &config));
}

#[test]
fn schema_shapes_and_file_names() {
    use_schema(skillsrs::json::JsonValue::Null, Some("Schema must be an object"));
    use_schema(skillsrs::json::JsonValue::Object(vec![]), Some("Schema must have 'type' field"));
    use_schema(
        skillsrs::json::JsonValue::Object(vec![(s("type"), skillsrs::json::JsonValue::Str(s("tuple")))]),
        Some("Invalid schema type: tuple"),
    );
    use_schema(
        skillsrs::json::JsonValue::Object(vec![(s("type"), skillsrs::json::JsonValue::Str(s("integer")))]),
        None,
    );
    let files = vec![(s("ok.md"), s("")), (s("dir\\x.md"), s(""))];
    match skillsrs::storage::validate_filenames(&files, "reference") {
        Err(SkillStoreError::ValidationError(m)) => assert_eq!(m, "Invalid reference filename: dir\\x.md"),
        other => panic!("unexpected: {:?}", other),
    }
    assert!(skillsrs::storage::validate_filenames(&vec![(s("a.png"), s(""))], "asset").is_ok());
}

fn use_schema(schema: skillsrs::json::JsonValue, error: Option<&str>) {
    match (skillsrs::storage::validate_json_schema(&schema), error) {
        (Ok(()), None) => {}
        (Err(SkillStoreError::ValidationError(m)), Some(e)) => assert_eq!(m, e),
        (other, e) => panic!("unexpected {:?} for {:?}", other, e),
    }
}

#[test]
fn test_validate_invalid_version() {
    let skill_md = "---\nname: invalid-skill\ndescription: Test\nversion: not-a-version\n---\n\n# Test\n";
    let (yaml, body) = parse_frontmatter_public(skill_md).unwrap();
    let value: serde_yaml::Value = serde_yaml::from_str(&yaml).unwrap();
    let mut fm = frontmatter("invalid-skill", Some("Test"));
    fm.version = value.get("version").and_then(|v| v.as_str()).map(s);
    let skill = AgentSkill::from_parts(fm, body, s("/s/invalid-skill"), Some(s("invalid-skill")), vec![], vec![], vec![])
        .unwrap();
    let manifest = skill.to_skill_manifest();
    assert_eq!(manifest.id, "invalid-skill");
    assert_eq!(manifest.version, "not-a-version");
    assert_eq!(skill.version(), "not-a-version");
}

#[test]
fn windows_line_endings_split_like_unix() {
    let crlf = "---\r\nname: windows-skill\r\ndescription: D\r\n---\r\n\r\n# Windows Skill\r\n";
    let lf = "---\nname: windows-skill\ndescription: D\n---\n\n# Windows Skill\n";
    let (y1, b1) = parse_frontmatter_public(crlf).unwrap();
    let (y2, b2) = parse_frontmatter_public(lf).unwrap();
    assert_eq!(y1, y2);
    assert_eq!(b1, b2);
    assert_eq!(y1, "name: windows-skill\ndescription: D");
    assert_eq!(b1, "# Windows Skill");
}

#[test]
fn created_skill_reads_back() {
    let body = plan_create_skill(&request("test-skill", "# Test Skill\n\nInstructions here.", vec![]), false).unwrap();
    let text = frame_skill_md("name: test-skill\ndescription: A test skill\n", &body);
    assert!(text.contains("name: test-skill"));
    let (yaml, read_body) = parse_frontmatter_public(&text).unwrap();
    assert_eq!(yaml, "name: test-skill\ndescription: A test skill");
    assert_eq!(read_body, "# Test Skill\n\nInstructions here.");
}

#[test]
fn imports_are_recorded_as_added_or_updated() {
    let mut r = SyncReport::new();
    r.record_import(s("fresh"), false);
    r.record_import(s("known"), true);
    assert_eq!(r.added, vec![s("fresh")]);
    assert_eq!(r.updated, vec![s("known")]);
    assert!(r.removed.is_empty());
    assert!(r.errors.is_empty());
}
