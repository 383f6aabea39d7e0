use skillsrs::callables::{CallableId, CallableKind, CallableRecord, CostHints, RiskTier, SchemaDigest};
use skillsrs::dependencies::detect_circular_dependencies;
use skillsrs::index::{tokenize_record, InMemoryIndex, SearchEngine};
use skillsrs::json::JsonValue;
use skillsrs::search::{
    apply_filters, extract_input_keys, glob_to_regex, grep_callables, list_callables, score_fuzzy, score_literal, score_regex, tokenize, QueryIntent, SearchFilters,
    SearchQuery,
};

fn record(id: &str, name: &str, desc: Option<&str>, tags: Vec<&str>) -> CallableRecord {
    CallableRecord {
        id: CallableId::from(id.to_string()),
        kind: CallableKind::Tool,
        fq_name: format!("srv.{}", name),
        name: name.to_string(),
        title: None,
        description: desc.map(|d| d.to_string()),
        tags: tags.into_iter().map(|t| t.to_string()).collect(),
        input_schema: JsonValue::Object(vec![]),
        output_schema: None,
        schema_digest: SchemaDigest::from_text("0123456789abcdef"),
        server_alias: Some("srv".to_string()),
        upstream_tool_name: Some(name.to_string()),
        skill_version: None,
        uses: vec![],
        skill_directory: None,
        bundled_tools: vec![],
        additional_files: vec![],
        cost_hints: CostHints::none(),
        risk_tier: RiskTier::ReadOnly,
        last_seen_ms: 0,
    }
}

fn sorted(mut v: Vec<String>) -> Vec<String> {
    v.sort();
    v
}

#[test]
fn record_tokens_cover_every_field_once() {
    let r = record("tool:a", "read_file", Some("Reads a File"), vec!["FS", "io"]);
    let toks = sorted(tokenize_record(&r));
    let expected: Vec<String> = vec!["a", "file", "fs", "io", "read", "reads", "srv"]
        .into_iter()
        .map(|s| s.to_string())
        .collect();
    assert_eq!(toks, expected);
}

#[test]
fn index_counts_distinct_records() {
    let mut idx = InMemoryIndex::new();
    assert_eq!(idx.len(), 0);
    idx.add_record(&record("tool:a", "alpha", None, vec![]));
    idx.add_record(&record("tool:b", "beta", None, vec![]));
    idx.add_record(&record("tool:a", "alpha", Some("again"), vec![]));
    assert_eq!(idx.len(), 2);
    idx.remove_record(&CallableId::from("tool:a".to_string()));
    assert_eq!(idx.len(), 1);
    idx.remove_record(&CallableId::from("tool:zzz".to_string()));
    assert_eq!(idx.len(), 1);
    idx.clear();
    assert_eq!(idx.len(), 0);
}

#[test]
fn engine_rebuild_update_remove() {
    let mut engine = SearchEngine::new();
    let records = vec![
        record("tool:a", "alpha", None, vec![]),
        record("tool:b", "beta", None, vec![]),
        record("tool:c", "gamma", None, vec![]),
    ];
    engine.rebuild(&records);
    assert_eq!(engine.len(), 3);
    engine.update_record(&record("tool:d", "delta", None, vec![]));
    assert_eq!(engine.len(), 4);
    engine.remove_record(&CallableId::from("tool:b".to_string()));
    assert_eq!(engine.len(), 3);
    engine.rebuild(&vec![]);
    assert_eq!(engine.len(), 0);
}

#[test]
fn engine_search_finds_by_name() {
    let engine = SearchEngine::new();
    let all = vec![
        record("tool:a", "read_file", Some("Read a file"), vec![]),
        record("tool:b", "send_mail", Some("Send an email"), vec![]),
    ];
    let query = SearchQuery {
        q: "read".to_string(),
        kind: "any".to_string(),
        mode: "literal".to_string(),
        limit: 10,
        filters: None,
        cursor: None,
    };
    let res = engine.search(&query, all).unwrap();
    assert_eq!(res.total_matches, 1);
    assert_eq!(res.matches[0].name, "read_file");
    assert!(res.next_cursor.is_none());
}

fn graph(entries: Vec<(&str, Vec<&str>)>) -> Vec<(String, Vec<String>)> {
    entries
        .into_iter()
        .map(|(k, v)| (k.to_string(), v.into_iter().map(|x| x.to_string()).collect()))
        .collect()
}

#[test]
fn no_dependencies_no_cycle() {
    let g = graph(vec![("a", vec![])]);
    assert!(detect_circular_dependencies("a", &g).is_empty());
    assert!(detect_circular_dependencies("unknown", &g).is_empty());
}

#[test]
fn chain_without_cycle() {
    let g = graph(vec![("a", vec!["b"]), ("b", vec!["c"]), ("c", vec![])]);
    assert!(detect_circular_dependencies("a", &g).is_empty());
}

#[test]
fn self_dependency_is_a_cycle() {
    let g = graph(vec![("a", vec!["a"])]);
    assert_eq!(detect_circular_dependencies("a", &g), vec!["a".to_string()]);
}

#[test]
fn cycle_reports_path_from_repeated_skill() {
    let g = graph(vec![("a", vec!["b"]), ("b", vec!["c"]), ("c", vec!["b"])]);
    assert_eq!(
        detect_circular_dependencies("a", &g),
        vec!["b".to_string(), "c".to_string()]
    );
}

#[test]
fn shared_dependency_is_no_cycle() {
    // a uses b and c, both use d: d is reached twice, but on no cycle.
    let g = graph(vec![("a", vec!["b", "c"]), ("b", vec!["d"]), ("c", vec!["d"]), ("d", vec![])]);
    assert!(detect_circular_dependencies("a", &g).is_empty());
}

#[test]
fn cycle_behind_a_shared_dependency_is_found() {
    let g = graph(vec![("a", vec!["b", "c"]), ("b", vec!["d"]), ("c", vec!["d"]), ("d", vec!["a"])]);
    assert_eq!(
        detect_circular_dependencies("a", &g),
        vec!["a".to_string(), "c".to_string(), "d".to_string()]
    );
}

#[test]
fn cycle_at_the_end_of_a_long_chain_is_found() {
    // The cycle lies as deep as the entries allow.
    let g = graph(vec![("a", vec!["b"]), ("b", vec!["c"]), ("c", vec!["d"]), ("d", vec!["e"]), ("e", vec!["d"])]);
    assert_eq!(detect_circular_dependencies("a", &g), vec!["d".to_string(), "e".to_string()]);
    let closed = graph(vec![("a", vec!["b"]), ("b", vec!["c"]), ("c", vec!["d"]), ("d", vec!["e"]), ("e", vec!["a"])]);
    assert_eq!(detect_circular_dependencies("c", &closed).len(), 5);
}

#[test]
fn search_pages_are_ranked_by_descending_score() {
    let engine = SearchEngine::new();
    let all = vec![
        record("tool:a", "list_files", Some("lists files"), vec![]),
        record("tool:b", "files", Some("files"), vec![]),
        record("tool:c", "other", Some("mentions files here"), vec![]),
    ];
    let query = SearchQuery {
        q: "files".to_string(),
        kind: "any".to_string(),
        mode: "fuzzy".to_string(),
        limit: 2,
        filters: None,
        cursor: None,
    };
    let res = engine.search(&query, all).unwrap();
    assert_eq!(res.total_matches, 3);
    assert_eq!(res.matches.len(), 2);
    assert!(res.matches[0].score >= res.matches[1].score);
    assert_eq!(res.next_cursor, Some("2".to_string()));
}

#[test]
fn next_cursor_continues_the_ranking() {
    let engine = SearchEngine::new();
    let all = || {
        vec![
            record("tool:a", "list_files", Some("lists files"), vec![]),
            record("tool:b", "files", Some("files"), vec![]),
            record("tool:c", "other", Some("mentions files here"), vec![]),
        ]
    };
    let whole = SearchQuery {
        q: "files".to_string(),
        kind: "any".to_string(),
        mode: "fuzzy".to_string(),
        limit: 3,
        filters: None,
        cursor: None,
    };
    let full = engine.search(&whole, all()).unwrap();
    let first_query = SearchQuery {
        q: "files".to_string(),
        kind: "any".to_string(),
        mode: "fuzzy".to_string(),
        limit: 1,
        filters: None,
        cursor: None,
    };
    let first = engine.search(&first_query, all()).unwrap();
    assert_eq!(first.next_cursor, Some("1".to_string()));
    let second_query = SearchQuery {
        q: "files".to_string(),
        kind: "any".to_string(),
        mode: "fuzzy".to_string(),
        limit: 1,
        filters: None,
        cursor: first.next_cursor.clone(),
    };
    let second = engine.search(&second_query, all()).unwrap();
    assert_eq!(first.matches.len(), 1);
    assert_eq!(second.matches.len(), 1);
    assert_eq!(first.matches[0].id, full.matches[0].id);
    assert_eq!(second.matches[0].id, full.matches[1].id);
    assert_eq!(second.next_cursor, Some("2".to_string()));
}

#[test]
fn tokenize_lowercases_and_splits_on_non_alphanumerics() {
    assert_eq!(tokenize("Read_File, from DISK!"), vec!["read", "file", "from", "disk"]);
    assert!(tokenize("-- ").is_empty());
    assert_eq!(tokenize("Ünïcode Größe"), vec!["ünïcode", "größe"]);
}

#[test]
fn literal_scores_weigh_fields_and_intent() {
    let rec = record("tool:srv:read_file", "read_file", Some("Read a file from disk"), vec!["files"]);
    assert_eq!(score_literal("read file", &rec, QueryIntent::Neutral), 6200);
    assert_eq!(score_literal("read read file", &rec, QueryIntent::Neutral), 6200);
    assert_eq!(score_literal("read file", &rec, QueryIntent::ApiBased), 8060);
    assert_eq!(score_literal("read file", &rec, QueryIntent::OutcomeBased), 6200);
    assert_eq!(score_literal("READ_FILE", &rec, QueryIntent::Neutral), 16200);
    let mut risky = record("tool:srv:read_file", "read_file", Some("Read a file from disk"), vec!["files"]);
    risky.risk_tier = RiskTier::Destructive;
    assert_eq!(score_literal("read file", &risky, QueryIntent::Neutral), 4340);
    assert_eq!(score_literal("delete file", &risky, QueryIntent::Neutral), 3700);
}

#[test]
fn fuzzy_and_regex_scores() {
    let mut rec = record("tool:srv:read_file", "read_file", Some("Reads a FILE"), vec![]);
    rec.title = Some("Read File".to_string());
    assert_eq!(score_fuzzy("FILE", &rec), 8000);
    assert_eq!(score_fuzzy("zzz", &rec), 0);
    assert_eq!(score_regex("^read_", &rec).unwrap(), 5000);
    assert_eq!(score_regex("file", &rec).unwrap(), 9000);
    assert!(score_regex("(", &rec).is_err());
}

#[test]
fn filters_keep_matching_records() {
    let mut a = record("tool:one:a", "a", None, vec!["fs", "read"]);
    a.input_schema = JsonValue::Object(vec![(
        "properties".to_string(),
        JsonValue::Object(vec![("path".to_string(), JsonValue::Null), ("mode".to_string(), JsonValue::Null)]),
    )]);
    let mut b = record("tool:two:b", "b", None, vec!["net"]);
    b.server_alias = Some("two".to_string());
    assert_eq!(extract_input_keys(&a.input_schema), vec!["path".to_string(), "mode".to_string()]);
    let by_server = SearchFilters { server: Some("two".to_string()), tags: None, requires: None, capability: None };
    let kept = apply_filters(vec![record("tool:one:a", "a", None, vec![]), b], &by_server);
    assert_eq!(kept.len(), 1);
    assert_eq!(kept[0].name, "b");
    let by_tags = SearchFilters {
        server: None,
        tags: Some(vec!["read".to_string(), "write".to_string()]),
        requires: Some(vec!["path".to_string()]),
        capability: Some(vec![]),
    };
    let kept = apply_filters(vec![a, record("tool:srv:c", "c", None, vec!["read"])], &by_tags);
    assert_eq!(kept.len(), 1);
    assert_eq!(kept[0].name, "a");
}

#[test]
fn unknown_modes_score_as_literal() {
    let engine = SearchEngine::new();
    let all = || {
        let mut v = Vec::new();
        for i in 1..=5 {
            let mut r = record(&format!("skill:skill-{}@1.0.0", i), &format!("skill-{}", i), Some(&format!("Test skill number {}", i)), vec![]);
            r.kind = CallableKind::Skill;
            v.push(r);
        }
        v
    };
    let query = |mode: &str| SearchQuery {
        q: "skill".to_string(),
        kind: "skills".to_string(),
        mode: mode.to_string(),
        limit: 10,
        filters: None,
        cursor: None,
    };
    let best = engine.search(&query("best"), all()).unwrap();
    assert_eq!(best.matches.len(), 5);
    let literal = engine.search(&query("literal"), all()).unwrap();
    assert_eq!(best.matches.len(), literal.matches.len());
    for (a, b) in best.matches.iter().zip(literal.matches.iter()) {
        assert_eq!(a.id, b.id);
        assert_eq!(a.score, b.score);
    }
}

#[test]
fn grep_matches_glob_ignoring_case() {
    assert_eq!(glob_to_regex("*File*"), "(?i).*File.*");
    let all = || {
        vec![
            record("tool:fs:read_file", "read_file", None, vec![]),
            record("tool:fs:list_dir", "list_dir", None, vec![]),
            record("tool:web:fetch", "FETCH_FILE", None, vec![]),
        ]
    };
    let found = grep_callables("*file*", all()).unwrap();
    let names: Vec<&str> = found.iter().map(|r| r.name.as_str()).collect();
    assert_eq!(names, vec!["read_file", "FETCH_FILE"]);
    let by_full_name = grep_callables("srv.list*", all()).unwrap();
    assert_eq!(by_full_name.len(), 1);
    assert!(grep_callables("(", all()).is_err());
}

#[test]
fn list_filters_by_server() {
    let mut other = record("tool:web:fetch", "fetch", None, vec![]);
    other.server_alias = Some("web".to_string());
    let mut local = record("skill:pdf@1", "pdf", None, vec![]);
    local.server_alias = None;
    let all = vec![record("tool:srv:a", "a", None, vec![]), other, local];
    let web = list_callables(all, Some("web"));
    assert_eq!(web.len(), 1);
    assert_eq!(web[0].name, "fetch");
    let everything = list_callables(vec![record("tool:srv:a", "a", None, vec![]), record("tool:srv:b", "b", None, vec![])], None);
    assert_eq!(everything.len(), 2);
}
