//! The four MCP tools (`search`, `schema`, `exec`, `manage`): their inputs
//! and outputs, and the decisions they make between the registry, the
//! policy engine, the runtime and the skill store.  The protocol itself is
//! served by the caller.
use vstd::prelude::*;
use crate::callables::{CallableRecord, ToolResult, ToolResultContent, kind_name};
use crate::json::{Json, JsonValue};
use crate::policy::{AuthorizationResult, ConsentLevel};
use crate::search::{SearchFilters, SearchQuery};
use crate::storage::{CreateSkillRequest, SkillContent};
use crate::text::{
    chars_of, concat2, starts_with, str_eq, string_of, sub_chars, seq_starts_with, views,
    lemma_views_push,
};

verus! {

// ---------------------------------------------------------------------------
// search
// ---------------------------------------------------------------------------

/// Which optional fields a search result includes.
#[derive(Debug)]
pub struct IncludeOptions {
    pub signature: Option<bool>,
    pub schema_digest: Option<bool>,
    pub uses: Option<bool>,
}

/// Input of `search`.
#[derive(Debug)]
pub struct SearchInput {
    pub q: String,
    /// `"any"`, `"tools"` or `"skills"`.
    pub kind: String,
    /// `"literal"`, `"regex"` or `"fuzzy"`.
    pub mode: String,
    /// Maximum results (clamped to 1..=50).
    pub limit: usize,
    pub filters: Option<SearchFilters>,
    /// Optional fields to return with each match.
    pub include_options: Option<IncludeOptions>,
    pub cursor: Option<String>,
}

/// Registry statistics reported with search results.
#[derive(Debug)]
pub struct SearchStats {
    pub total_callables: usize,
    pub total_tools: usize,
    pub total_skills: usize,
    pub searched_servers: usize,
    pub stale_servers: Vec<String>,
}

/// The default kind of a search.
pub fn default_kind() -> (r: String)
    ensures
        r@ == "any"@,
{
    String::from_str("any")
}

/// The default matching mode of a search.
pub fn default_mode() -> (r: String)
    ensures
        r@ == "literal"@,
{
    String::from_str("literal")
}

/// The default number of search results.
pub fn default_limit() -> (r: usize)
    ensures
        r == 10,
{
    10
}

/// `n` clamped to `lo..=hi`.
pub open spec fn clamp(n: nat, lo: nat, hi: nat) -> nat {
    if n < lo { lo } else if n > hi { hi } else { n }
}

/// The search query of a `search` call: the input's fields, the limit
/// clamped to 1..=50.
pub fn search_query(input: SearchInput) -> (r: SearchQuery)
    ensures
        r.q == input.q,
        r.kind == input.kind,
        r.mode == input.mode,
        r.limit == clamp(input.limit as nat, 1, 50),
        r.filters == input.filters,
        r.cursor == input.cursor,
{
    let limit = if input.limit < 1 { 1 } else if input.limit > 50 { 50 } else { input.limit };
    SearchQuery {
        q: input.q,
        kind: input.kind,
        mode: input.mode,
        limit,
        filters: input.filters,
        cursor: input.cursor,
    }
}

// ---------------------------------------------------------------------------
// schema
// ---------------------------------------------------------------------------

/// Input of `schema`.
#[derive(Debug)]
pub struct SchemaInput {
    pub id: String,
    /// `"json_schema"`, `"signature"` or `"both"`.
    pub format: String,
    pub include_output_schema: bool,
    /// Maximum response size in bytes.
    pub max_bytes: usize,
    /// JSON Pointer to a schema subtree.
    pub json_pointer: Option<String>,
}

/// The description of a callable in a `schema` answer.
#[derive(Debug)]
pub struct CallableInfo {
    pub id: String,
    pub kind: String,
    pub name: String,
    pub fq_name: String,
    pub server: Option<String>,
    pub version: Option<String>,
}

/// The default format of a `schema` answer.
pub fn default_format() -> (r: String)
    ensures
        r@ == "both"@,
{
    String::from_str("both")
}

/// The default of boolean options that are on unless turned off.
pub fn default_true() -> (r: bool)
    ensures
        r,
{
    true
}

/// The default size limit of a `schema` answer, in bytes.
pub fn default_max_bytes() -> (r: usize)
    ensures
        r == 50000,
{
    50000
}

/// The description of a callable.
pub fn callable_info(record: &CallableRecord) -> (r: CallableInfo)
    ensures
        r.id@ == record.id@,
        r.kind@ == kind_name(record.kind),
        r.name@ == record.name@,
        r.fq_name@ == record.fq_name@,
        crate::search::opt_view(r.server) == crate::search::opt_view(record.server_alias),
        crate::search::opt_view(r.version) == crate::search::opt_view(record.skill_version),
{
    CallableInfo {
        id: String::from_str(record.id.as_str()),
        kind: record.kind.name(),
        name: record.name.clone(),
        fq_name: record.fq_name.clone(),
        server: match &record.server_alias {
            Some(s) => Some(s.clone()),
            None => None,
        },
        version: match &record.skill_version {
            Some(v) => Some(v.clone()),
            None => None,
        },
    }
}

/// Whether a format asks for the JSON schema.
pub open spec fn wants_schema(format: Seq<char>) -> bool {
    format == "json_schema"@ || format == "both"@
}

/// Whether a format asks for the signature.
pub open spec fn wants_signature(format: Seq<char>) -> bool {
    format == "signature"@ || format == "both"@
}

/// Whether a `schema` answer asks for the JSON schema.
pub fn format_wants_schema(format: &str) -> (r: bool)
    ensures
        r == wants_schema(format@),
{
    str_eq(format, "json_schema") || str_eq(format, "both")
}

/// Whether a `schema` answer asks for the signature.
pub fn format_wants_signature(format: &str) -> (r: bool)
    ensures
        r == wants_signature(format@),
{
    str_eq(format, "signature") || str_eq(format, "both")
}

/// `s` with every occurrence of `pat` replaced by `rep`, left to right
/// (`str::replace`).
pub open spec fn replace_all(s: Seq<char>, pat: Seq<char>, rep: Seq<char>) -> Seq<char>
    decreases s.len(),
{
    if pat.len() == 0 || s.len() < pat.len() {
        s
    } else if s.take(pat.len() as int) == pat {
        rep + replace_all(s.skip(pat.len() as int), pat, rep)
    } else {
        seq![s[0]] + replace_all(s.skip(1), pat, rep)
    }
}

fn replace_all_exec(s: &[char], pat: &[char], rep: &[char]) -> (r: Vec<char>)
    requires
        pat.len() > 0,
    ensures
        r@ == replace_all(s@, pat@, rep@),
{
    let mut out: Vec<char> = Vec::new();
    let mut i: usize = 0;
    assert(s@.skip(0) =~= s@);
    assert(out@ + replace_all(s@, pat@, rep@) =~= replace_all(s@, pat@, rep@));
    while i < s.len()
        invariant
            i <= s.len(),
            pat.len() > 0,
            out@ + replace_all(s@.skip(i as int), pat@, rep@) == replace_all(s@, pat@, rep@),
        decreases s.len() - i,
    {
        let ghost rest = s@.skip(i as int);
        if pat.len() <= s.len() - i && crate::text::seq_occurs_at(s, pat, i) {
            assert(rest.take(pat@.len() as int) =~= pat@);
            assert(rest.skip(pat@.len() as int) =~= s@.skip(i + pat.len()));
            let mut k: usize = 0;
            let ghost before = out@;
            while k < rep.len()
                invariant
                    k <= rep.len(),
                    out@ == before + rep@.take(k as int),
                decreases rep.len() - k,
            {
                out.push(rep[k]);
                assert(rep@.take(k as int + 1) =~= rep@.take(k as int).push(rep@[k as int]));
                k = k + 1;
            }
            assert(rep@.take(rep.len() as int) =~= rep@);
            assert(out@ + replace_all(s@.skip(i + pat.len()), pat@, rep@) =~= before + (rep@ + replace_all(
                s@.skip(i + pat.len()),
                pat@,
                rep@,
            )));
            i = i + pat.len();
        } else {
            proof {
                if rest.len() >= pat@.len() {
                    assert(rest.take(pat@.len() as int) != pat@) by {
                        if rest.take(pat@.len() as int) == pat@ {
                            assert(s@.subrange(i as int, i + pat.len()) =~= rest.take(pat@.len() as int));
                        }
                    }
                }
            }
            assert(rest.skip(1) =~= s@.skip(i + 1));
            let ghost before = out@;
            out.push(s[i]);
            assert(out@ + replace_all(s@.skip(i + 1), pat@, rep@) =~= before + (seq![rest[0]] + replace_all(
                rest.skip(1),
                pat@,
                rep@,
            )));
            i = i + 1;
        }
    }
    assert(s@.skip(s.len() as int) =~= Seq::<char>::empty());
    assert(out@ + Seq::<char>::empty() =~= out@);
    out
}

/// A reference token of a JSON Pointer: `~1` read as `/`, then `~0` as `~`.
pub open spec fn unescape_token(t: Seq<char>) -> Seq<char> {
    replace_all(replace_all(t, "~1"@, "/"@), "~0"@, "~"@)
}

/// The array index a pointer token denotes: decimal digits, no sign, no
/// leading zero (but `"0"` itself).
pub open spec fn token_index(t: Seq<char>) -> Option<nat> {
    if (t.len() > 0 && t[0] == '+') || (t.len() > 0 && t[0] == '0' && t.len() != 1) {
        None
    } else {
        crate::search::parse_usize(t)
    }
}

/// The value a sequence of pointer tokens leads to.
pub open spec fn pointer_walk(v: Json, tokens: Seq<Seq<char>>) -> Option<Json>
    decreases tokens.len(),
{
    if tokens.len() == 0 {
        Some(v)
    } else {
        match v {
            Json::Object(m) => match crate::json::members_get(m, tokens[0]) {
                Some(x) => pointer_walk(x, tokens.drop_first()),
                None => None,
            },
            Json::Array(a) => match token_index(tokens[0]) {
                Some(i) => if i < a.len() { pointer_walk(a[i as int], tokens.drop_first()) } else { None },
                None => None,
            },
            _ => None,
        }
    }
}

/// The value a JSON Pointer designates (`serde_json::Value::pointer`).
pub open spec fn json_pointer(v: Json, p: Seq<char>) -> Option<Json> {
    if p.len() == 0 {
        Some(v)
    } else if p[0] != '/' {
        None
    } else {
        pointer_walk(v, crate::agent_skills::split_on(p, '/').drop_first().map_values(|t: Seq<char>| unescape_token(t)))
    }
}

fn token_index_exec(t: &str) -> (r: Option<usize>)
    ensures
        match r {
            Some(i) => token_index(t@) == Some(i as nat),
            None => token_index(t@) is None,
        },
{
    let c = chars_of(t);
    if c.len() > 0 && (c[0] == '+' || (c[0] == '0' && c.len() != 1)) {
        return None;
    }
    crate::search::parse_usize_text(t)
}

fn walk<'a>(v: &'a JsonValue, tokens: &Vec<String>, i: usize) -> (r: Option<&'a JsonValue>)
    requires
        i <= tokens.len(),
    ensures
        match r {
            Some(x) => pointer_walk(v@, views(tokens@).skip(i as int)) == Some(x@),
            None => pointer_walk(v@, views(tokens@).skip(i as int)) is None,
        },
    decreases tokens.len() - i,
{
    let ghost ts = views(tokens@).skip(i as int);
    if i == tokens.len() {
        assert(ts =~= Seq::<Seq<char>>::empty());
        return Some(v);
    }
    assert(ts[0] == tokens@[i as int]@);
    assert(ts.drop_first() =~= views(tokens@).skip(i as int + 1));
    match v {
        JsonValue::Object(m) => {
            proof { crate::json::lemma_object_view(*m); }
            match v.get(tokens[i].as_str()) {
                Some(x) => walk(x, tokens, i + 1),
                None => None,
            }
        },
        JsonValue::Array(a) => {
            proof { crate::json::lemma_array_view(*a); }
            match token_index_exec(tokens[i].as_str()) {
                Some(k) => {
                    if k < a.len() {
                        walk(&a[k], tokens, i + 1)
                    } else {
                        None
                    }
                },
                None => None,
            }
        },
        _ => None,
    }
}

/// Resolves a JSON Pointer in a value, as `serde_json::Value::pointer`
/// does.
pub fn resolve_pointer(v: &JsonValue, pointer: &str) -> (r: Option<JsonValue>)
    ensures
        match r {
            Some(x) => json_pointer(v@, pointer@) == Some(x@),
            None => json_pointer(v@, pointer@) is None,
        },
{
    let p = chars_of(pointer);
    if p.len() == 0 {
        return Some(crate::json::json_copy(v));
    }
    if p[0] != '/' {
        return None;
    }
    let pieces = crate::agent_skills::split_on_char(pointer, '/');
    let ghost pv = views(pieces@);
    let t1 = chars_of("~1");
    let s1 = chars_of("/");
    let t0 = chars_of("~0");
    let s0 = chars_of("~");
    proof {
        reveal_strlit("~1");
        reveal_strlit("~0");
    }
    let mut tokens: Vec<String> = Vec::new();
    let mut i: usize = 1;
    proof { crate::agent_skills::lemma_split_on_nonempty_pub(pointer@, '/'); }
    while i < pieces.len()
        invariant
            1 <= i <= pieces.len(),
            pv == views(pieces@),
            t1@ == "~1"@, s1@ == "/"@, t0@ == "~0"@, s0@ == "~"@,
            t1@.len() == 2, t0@.len() == 2,
            views(tokens@) == pv.drop_first().take(i - 1).map_values(|t: Seq<char>| unescape_token(t)),
        decreases pieces.len() - i,
    {
        let pc = chars_of(pieces[i].as_str());
        let a = replace_all_exec(pc.as_slice(), t1.as_slice(), s1.as_slice());
        let b = replace_all_exec(a.as_slice(), t0.as_slice(), s0.as_slice());
        let ghost before = tokens@;
        tokens.push(string_of(b.as_slice()));
        proof { lemma_views_push(before, tokens@.last()); }
        assert(pv.drop_first().take(i as int).map_values(|t: Seq<char>| unescape_token(t)) =~= pv.drop_first().take(
            i - 1,
        ).map_values(|t: Seq<char>| unescape_token(t)).push(unescape_token(pv[i as int])));
        i = i + 1;
    }
    assert(pv.drop_first().take(pieces.len() - 1) =~= pv.drop_first());
    assert(views(tokens@).skip(0) =~= views(tokens@));
    match walk(v, &tokens, 0) {
        Some(x) => Some(crate::json::json_copy(x)),
        None => None,
    }
}

/// The answer of `schema`.
#[derive(Debug)]
pub struct SchemaOutput {
    pub callable: CallableInfo,
    pub schema_digest: String,
    pub input_schema: Option<JsonValue>,
    pub output_schema: Option<JsonValue>,
    pub signature: Option<JsonValue>,
}

/// The view of an optional JSON value.
pub open spec fn opt_json(o: Option<JsonValue>) -> Option<Json> {
    match o {
        Some(v) => Some(v@),
        None => None,
    }
}

/// The answer of `schema` for a record: the callable's description and
/// digest; the input schema (or the subtree the pointer designates) and,
/// when asked, the output schema for the `json_schema` and `both` formats;
/// the signature (`signature`, serialized by the caller) for the
/// `signature` and `both` formats.  A pointer that designates nothing is
/// refused.
pub fn schema_output(record: &CallableRecord, input: &SchemaInput, signature: Option<JsonValue>) -> (r: Result<SchemaOutput, String>)
    ensures
        ({
            let ptr_fail = wants_schema(input.format@) && match input.json_pointer {
                Some(p) => json_pointer(record.input_schema@, p@) is None,
                None => false,
            };
            if ptr_fail {
                r matches Err(m) && m@ == "Invalid JSON pointer: "@ + input.json_pointer->0@
            } else {
                r matches Ok(o) && {
                    &&& o.callable.id@ == record.id@
                    &&& o.callable.kind@ == kind_name(record.kind)
                    &&& o.callable.name@ == record.name@
                    &&& o.callable.fq_name@ == record.fq_name@
                    &&& o.schema_digest@ == record.schema_digest@
                    &&& opt_json(o.input_schema) == (if wants_schema(input.format@) {
                        match input.json_pointer {
                            Some(p) => json_pointer(record.input_schema@, p@),
                            None => Some(record.input_schema@),
                        }
                    } else {
                        None
                    })
                    &&& opt_json(o.output_schema) == (if wants_schema(input.format@) && input.include_output_schema {
                        opt_json(record.output_schema)
                    } else {
                        None
                    })
                    &&& o.signature == (if wants_signature(input.format@) { signature } else { None })
                }
            }
        }),
{
    let callable = callable_info(record);
    let digest = String::from_str(record.schema_digest.as_str());
    let mut input_schema: Option<JsonValue> = None;
    let mut output_schema: Option<JsonValue> = None;
    if format_wants_schema(input.format.as_str()) {
        let schema = match &input.json_pointer {
            Some(p) => match resolve_pointer(&record.input_schema, p.as_str()) {
                Some(x) => x,
                None => {
                    return Err(concat2("Invalid JSON pointer: ", p.as_str()));
                },
            },
            None => crate::json::json_copy(&record.input_schema),
        };
        input_schema = Some(schema);
        if input.include_output_schema {
            output_schema = match &record.output_schema {
                Some(o) => Some(crate::json::json_copy(o)),
                None => None,
            };
        }
    }
    let sig = if format_wants_signature(input.format.as_str()) { signature } else { None };
    Ok(SchemaOutput { callable, schema_digest: digest, input_schema, output_schema, signature: sig })
}

/// Refuses an answer of `len` bytes above the `max` limit.
pub fn check_response_size(len: usize, max: usize) -> (r: Result<(), String>)
    ensures
        len > max ==> (r matches Err(m) && m@ == "Response exceeds maxBytes limit: "@ + crate::text::decimal(
            len as nat,
        ) + " > "@ + crate::text::decimal(max as nat)),
        len <= max ==> r is Ok,
{
    if len > max {
        let mut m = String::from_str("Response exceeds maxBytes limit: ");
        let a = crate::text::usize_to_string(len);
        m.append(a.as_str());
        m.append(" > ");
        let b = crate::text::usize_to_string(max);
        m.append(b.as_str());
        Err(m)
    } else {
        Ok(())
    }
}

// ---------------------------------------------------------------------------
// exec
// ---------------------------------------------------------------------------

/// Consent information of an `exec` call.
#[derive(Debug)]
pub struct ConsentArgs {
    pub level: Option<String>,
    pub token: Option<String>,
}

/// Trace options of an `exec` call.
#[derive(Debug)]
pub struct TraceArgs {
    pub include_route: bool,
    pub include_timing: bool,
    pub include_steps: bool,
}

/// Input of `exec`.
#[derive(Debug)]
pub struct ExecInput {
    pub id: String,
    pub arguments: JsonValue,
    /// Validate without executing.
    pub dry_run: bool,
    pub timeout_ms: Option<u64>,
    pub consent: Option<ConsentArgs>,
    pub trace: Option<TraceArgs>,
}

/// The consent an `exec` call gives: the exact level names, anything else
/// (or nothing) meaning no consent.
pub open spec fn consent_of(c: Option<ConsentArgs>) -> ConsentLevel {
    match c {
        Some(a) => match a.level {
            Some(l) => if l@ == "user_confirmed"@ {
                ConsentLevel::UserConfirmed
            } else if l@ == "admin_confirmed"@ {
                ConsentLevel::AdminConfirmed
            } else {
                ConsentLevel::NoConsent
            },
            None => ConsentLevel::NoConsent,
        },
        None => ConsentLevel::NoConsent,
    }
}

/// The consent an `exec` call gives.
pub fn consent_level_of(c: &Option<ConsentArgs>) -> (r: ConsentLevel)
    ensures
        r == consent_of(*c),
{
    match c {
        Some(a) => match &a.level {
            Some(l) => {
                if str_eq(l.as_str(), "user_confirmed") {
                    ConsentLevel::UserConfirmed
                } else if str_eq(l.as_str(), "admin_confirmed") {
                    ConsentLevel::AdminConfirmed
                } else {
                    ConsentLevel::NoConsent
                }
            },
            None => ConsentLevel::NoConsent,
        },
        None => ConsentLevel::NoConsent,
    }
}

/// Whether an `exec` call asks for a trace.
pub fn trace_requested(t: &Option<TraceArgs>) -> (r: bool)
    ensures
        r == match *t {
            Some(a) => a.include_route || a.include_timing || a.include_steps,
            None => false,
        },
{
    match t {
        Some(a) => a.include_route || a.include_timing || a.include_steps,
        None => false,
    }
}

/// What `exec` does after the policy check: a denial ends the call with
/// its reason; a dry run ends it with a note; otherwise (`None`) the
/// callable runs.
pub fn exec_gate(fq_name: &str, auth: &AuthorizationResult, dry_run: bool) -> (r: Result<Option<String>, String>)
    ensures
        !auth.allowed ==> (r matches Err(m) && m@ == "Execution denied: "@ + auth.reason@),
        auth.allowed && dry_run ==> (r matches Ok(Some(m)) && m@ == "Dry run: would execute "@ + fq_name@),
        auth.allowed && !dry_run ==> r matches Ok(None),
{
    if !auth.allowed {
        return Err(concat2("Execution denied: ", auth.reason.as_str()));
    }
    if dry_run {
        return Ok(Some(concat2("Dry run: would execute ", fq_name)));
    }
    Ok(None)
}

/// The texts of the text contents, in order.
pub open spec fn result_texts(c: Seq<ToolResultContent>) -> Seq<Seq<char>>
    decreases c.len(),
{
    if c.len() == 0 {
        Seq::empty()
    } else {
        let r = result_texts(c.drop_last());
        match c.last() {
            ToolResultContent::Text { text } => r.push(text@),
            _ => r,
        }
    }
}

/// The texts joined with `sep`.
pub open spec fn join(ws: Seq<Seq<char>>, sep: Seq<char>) -> Seq<char>
    decreases ws.len(),
{
    if ws.len() == 0 {
        Seq::empty()
    } else if ws.len() == 1 {
        ws[0]
    } else {
        join(ws.drop_last(), sep) + sep + ws.last()
    }
}

/// Joins strings with a separator.
pub fn join_strings(v: &Vec<String>, sep: &str) -> (r: String)
    ensures
        r@ == join(views(v@), sep@),
{
    let ghost vs = views(v@);
    let mut out = String::new();
    let mut i: usize = 0;
    assert(vs.take(0) =~= Seq::<Seq<char>>::empty());
    while i < v.len()
        invariant
            i <= v.len(),
            vs == views(v@),
            out@ == join(vs.take(i as int), sep@),
        decreases v.len() - i,
    {
        if i > 0 {
            out.append(sep);
        }
        out.append(v[i].as_str());
        assert(vs.take(i as int + 1).drop_last() =~= vs.take(i as int));
        assert(i == 0 ==> vs.take(1) =~= seq![vs[0]]);
        i = i + 1;
    }
    assert(vs.take(v.len() as int) =~= vs);
    out
}

/// The answer text of `exec`: the result's texts, one per line.
pub fn result_text(result: &ToolResult) -> (r: String)
    ensures
        r@ == join(result_texts(result.content@), "\n"@),
{
    let mut texts: Vec<String> = Vec::new();
    let mut i: usize = 0;
    while i < result.content.len()
        invariant
            i <= result.content.len(),
            views(texts@) == result_texts(result.content@.take(i as int)),
        decreases result.content.len() - i,
    {
        assert(result.content@.take(i as int + 1).drop_last() =~= result.content@.take(i as int));
        match &result.content[i] {
            ToolResultContent::Text { text } => {
                let ghost before = texts@;
                texts.push(text.clone());
                proof { lemma_views_push(before, texts@.last()); }
            },
            _ => {},
        }
        i = i + 1;
    }
    assert(result.content@.take(result.content.len() as int) =~= result.content@);
    join_strings(&texts, "\n")
}

/// A content of a protocol answer.
#[derive(Debug)]
pub enum CallContent {
    Text(String),
    Image { data: String, mime_type: String },
}

/// The protocol content of a result content: resources become their text,
/// or a line naming them.
pub open spec fn call_content_ok(c: ToolResultContent, out: CallContent) -> bool {
    match c {
        ToolResultContent::Text { text } => out matches CallContent::Text(t) && t@ == text@,
        ToolResultContent::Image { data, mime_type } => out matches CallContent::Image { data: d, mime_type: m } && d@
            == data@ && m@ == mime_type@,
        ToolResultContent::Resource { resource } => out matches CallContent::Text(t) && t@ == match resource.text {
            Some(x) => x@,
            None => "Resource: "@ + resource.uri@ + " ("@ + match resource.mime_type {
                Some(m) => m@,
                None => Seq::empty(),
            } + ")"@,
        },
    }
}

/// The protocol contents of a result.
pub fn call_contents(result: &ToolResult) -> (r: Vec<CallContent>)
    ensures
        r@.len() == result.content@.len(),
        forall|i: int| 0 <= i < r@.len() ==> call_content_ok(result.content@[i], #[trigger] r@[i]),
{
    let mut out: Vec<CallContent> = Vec::new();
    let mut i: usize = 0;
    while i < result.content.len()
        invariant
            i <= result.content.len(),
            out@.len() == i,
            forall|j: int| 0 <= j < i ==> call_content_ok(result.content@[j], #[trigger] out@[j]),
        decreases result.content.len() - i,
    {
        let c = match &result.content[i] {
            ToolResultContent::Text { text } => CallContent::Text(text.clone()),
            ToolResultContent::Image { data, mime_type } => CallContent::Image { data: data.clone(), mime_type: mime_type.clone() },
            ToolResultContent::Resource { resource } => match &resource.text {
                Some(t) => CallContent::Text(t.clone()),
                None => {
                    let mut s = String::from_str("Resource: ");
                    s.append(resource.uri.as_str());
                    s.append(" (");
                    match &resource.mime_type {
                        Some(m) => s.append(m.as_str()),
                        None => {},
                    }
                    s.append(")");
                    CallContent::Text(s)
                },
            },
        };
        out.push(c);
        i = i + 1;
    }
    out
}

// ---------------------------------------------------------------------------
// manage
// ---------------------------------------------------------------------------

/// Skill management operations.
#[derive(Debug, Clone, Copy, PartialEq, Eq, Structural)]
pub enum ManageOperation {
    Create,
    Get,
    Update,
    Delete,
}

/// Input of `manage`.
#[derive(Debug)]
pub struct ManageInput {
    pub operation: ManageOperation,
    pub skill_id: Option<String>,
    pub name: Option<String>,
    pub version: Option<String>,
    pub description: Option<String>,
    pub skill_md: Option<String>,
    pub uses_tools: Option<Vec<String>>,
    /// Bundled files as (file name, content).
    pub bundled_files: Option<Vec<(String, String)>>,
    pub tags: Option<Vec<String>>,
    /// A file to load when getting content.
    pub filename: Option<String>,
}

/// The answer of `manage`.
#[derive(Debug)]
pub struct ManageOutput {
    pub operation: String,
    pub skill_id: Option<String>,
    pub name: Option<String>,
    pub message: String,
    pub data: Option<JsonValue>,
}

/// Input for creating a skill.
#[derive(Debug)]
pub struct CreateSkillInput {
    pub name: String,
    pub version: Option<String>,
    pub description: String,
    pub skill_md: String,
    pub uses_tools: Option<Vec<String>>,
    pub bundled_files: Option<Vec<(String, String)>>,
    pub tags: Option<Vec<String>>,
}

/// Output of creating a skill.
#[derive(Debug)]
pub struct CreateSkillOutput {
    pub id: String,
    pub name: String,
    pub message: String,
}

/// Input for getting skill content.
#[derive(Debug)]
pub struct GetContentInput {
    pub skill_id: String,
    pub filename: Option<String>,
}

/// Input for updating a skill.
#[derive(Debug)]
pub struct UpdateSkillInput {
    pub skill_id: String,
    pub name: String,
    pub version: Option<String>,
    pub description: String,
    pub skill_md: String,
    pub uses_tools: Option<Vec<String>>,
    pub bundled_files: Option<Vec<(String, String)>>,
    pub tags: Option<Vec<String>>,
}

/// Input for deleting a skill.
#[derive(Debug)]
pub struct DeleteSkillInput {
    pub skill_id: String,
}

/// The skill name a skill identifier refers to: the part between `skill:`
/// and the first `@` of a callable identifier, or the identifier itself.
pub open spec fn skill_name_of(id: Seq<char>) -> Seq<char> {
    if starts_with(id, "skill:"@) {
        crate::agent_skills::split_on(id.skip(6), '@')[0]
    } else {
        id
    }
}

/// The skill name a skill identifier refers to.
pub fn skill_name_from_id(skill_id: &str) -> (r: String)
    ensures
        r@ == skill_name_of(skill_id@),
{
    proof { reveal_strlit("skill:"); }
    let c = chars_of(skill_id);
    if seq_starts_with(c.as_slice(), chars_of("skill:").as_slice()) {
        let rest = sub_chars(c.as_slice(), 6, c.len());
        assert(rest@ =~= skill_id@.skip(6));
        let rs = string_of(rest.as_slice());
        let pieces = crate::agent_skills::split_on_char(rs.as_str(), '@');
        proof { crate::agent_skills::lemma_split_on_nonempty_pub(rs@, '@'); }
        pieces[0].clone()
    } else {
        String::from_str(skill_id)
    }
}

/// A `manage` call with its required fields present.
#[derive(Debug)]
pub enum ManageRequest {
    Create(CreateSkillRequest),
    Get { skill_id: String, skill_name: String, filename: Option<String> },
    Update { skill_id: String, skill_name: String, request: CreateSkillRequest },
    Delete { skill_id: String, skill_name: String },
}

fn or_empty(o: Option<Vec<String>>) -> (r: Vec<String>)
    ensures
        r@ == match o {
            Some(v) => v@,
            None => Seq::empty(),
        },
{
    match o {
        Some(v) => v,
        None => Vec::new(),
    }
}

/// The first required field an operation lacks.
pub open spec fn missing_field(input: ManageInput) -> Option<Seq<char>> {
    match input.operation {
        ManageOperation::Create => if input.name is None {
            Some("name is required for create operation"@)
        } else if input.description is None {
            Some("description is required for create operation"@)
        } else if input.skill_md is None {
            Some("skill_md is required for create operation"@)
        } else {
            None
        },
        ManageOperation::Get => if input.skill_id is None {
            Some("skill_id is required for get operation"@)
        } else {
            None
        },
        ManageOperation::Update => if input.skill_id is None {
            Some("skill_id is required for update operation"@)
        } else if input.name is None {
            Some("name is required for update operation"@)
        } else if input.description is None {
            Some("description is required for update operation"@)
        } else if input.skill_md is None {
            Some("skill_md is required for update operation"@)
        } else {
            None
        },
        ManageOperation::Delete => if input.skill_id is None {
            Some("skill_id is required for delete operation"@)
        } else {
            None
        },
    }
}

/// Whether a creation request carries the input's fields (version
/// `"1.0.0"` by default, absent lists empty, bundled files as scripts).
pub open spec fn request_from(input: ManageInput, r: CreateSkillRequest) -> bool {
    &&& r.name == input.name->0
    &&& r.version@ == match input.version {
        Some(v) => v@,
        None => "1.0.0"@,
    }
    &&& r.description == input.description->0
    &&& r.skill_md_content == input.skill_md->0
    &&& r.uses_tools@ == match input.uses_tools {
        Some(v) => v@,
        None => Seq::empty(),
    }
    &&& r.scripts@ == match input.bundled_files {
        Some(v) => v@,
        None => Seq::empty(),
    }
    &&& r.references@.len() == 0
    &&& r.assets@.len() == 0
    &&& r.tags@ == match input.tags {
        Some(v) => v@,
        None => Seq::empty(),
    }
}

/// Checks a `manage` call's required fields and gathers its request.
pub fn plan_manage(input: ManageInput) -> (r: Result<ManageRequest, String>)
    ensures
        match missing_field(input) {
            Some(m) => r matches Err(x) && x@ == m,
            None => r matches Ok(req) && match input.operation {
                ManageOperation::Create => req matches ManageRequest::Create(c) && request_from(input, c),
                ManageOperation::Get => req matches ManageRequest::Get { skill_id, skill_name, filename } && skill_id
                    == input.skill_id->0 && skill_name@ == skill_name_of(skill_id@) && filename == input.filename,
                ManageOperation::Update => req matches ManageRequest::Update { skill_id, skill_name, request } && skill_id
                    == input.skill_id->0 && skill_name@ == skill_name_of(skill_id@) && request_from(input, request),
                ManageOperation::Delete => req matches ManageRequest::Delete { skill_id, skill_name } && skill_id
                    == input.skill_id->0 && skill_name@ == skill_name_of(skill_id@),
            },
        },
{
    let ghost orig = input;
    let ManageInput {
        operation,
        skill_id,
        name,
        version,
        description,
        skill_md,
        uses_tools,
        bundled_files,
        tags,
        filename,
    } = input;
    match operation {
        ManageOperation::Get | ManageOperation::Delete => {
            let id = match skill_id {
                Some(s) => s,
                None => {
                    return Err(String::from_str(
                        if operation == ManageOperation::Get {
                            "skill_id is required for get operation"
                        } else {
                            "skill_id is required for delete operation"
                        },
                    ));
                },
            };
            let skill_name = skill_name_from_id(id.as_str());
            if operation == ManageOperation::Get {
                Ok(ManageRequest::Get { skill_id: id, skill_name, filename })
            } else {
                Ok(ManageRequest::Delete { skill_id: id, skill_name })
            }
        },
        ManageOperation::Create | ManageOperation::Update => {
            let create = operation == ManageOperation::Create;
            let id = if create {
                None
            } else {
                match skill_id {
                    Some(s) => Some(s),
                    None => {
                        return Err(String::from_str("skill_id is required for update operation"));
                    },
                }
            };
            let name = match name {
                Some(n) => n,
                None => {
                    return Err(String::from_str(
                        if create {
                            "name is required for create operation"
                        } else {
                            "name is required for update operation"
                        },
                    ));
                },
            };
            let description = match description {
                Some(d) => d,
                None => {
                    return Err(String::from_str(
                        if create {
                            "description is required for create operation"
                        } else {
                            "description is required for update operation"
                        },
                    ));
                },
            };
            let skill_md = match skill_md {
                Some(m) => m,
                None => {
                    return Err(String::from_str(
                        if create {
                            "skill_md is required for create operation"
                        } else {
                            "skill_md is required for update operation"
                        },
                    ));
                },
            };
            let version = match version {
                Some(v) => v,
                None => String::from_str("1.0.0"),
            };
            let scripts: Vec<(String, String)> = match bundled_files {
                Some(b) => b,
                None => Vec::new(),
            };
            let request = CreateSkillRequest {
                name,
                version,
                description,
                skill_md_content: skill_md,
                uses_tools: or_empty(uses_tools),
                scripts,
                references: Vec::new(),
                assets: Vec::new(),
                tags: or_empty(tags),
            };
            match id {
                None => Ok(ManageRequest::Create(request)),
                Some(i) => {
                    let skill_name = skill_name_from_id(i.as_str());
                    Ok(ManageRequest::Update { skill_id: i, skill_name, request })
                },
            }
        },
    }
}

/// The answer to a successful creation or update.
pub fn stored_output(created: bool, id: &str, name: String) -> (r: ManageOutput)
    ensures
        r.operation@ == (if created { "create"@ } else { "update"@ }),
        r.skill_id matches Some(s) && s@ == id@,
        r.name == Some(name),
        r.message@ == (if created { "Skill created successfully"@ } else { "Skill updated successfully"@ }),
        r.data is None,
{
    ManageOutput {
        operation: String::from_str(if created { "create" } else { "update" }),
        skill_id: Some(String::from_str(id)),
        name: Some(name),
        message: String::from_str(if created { "Skill created successfully" } else { "Skill updated successfully" }),
        data: None,
    }
}

/// The answer to a deletion.
pub fn deleted_output(skill_id: String, skill_name: String) -> (r: ManageOutput)
    ensures
        r.operation@ == "delete"@,
        r.skill_id matches Some(s) && s@ == skill_id@,
        r.name == Some(skill_name),
        r.message@ == "Skill "@ + skill_id@ + " deleted successfully"@,
        r.data is None,
{
    let message = crate::text::concat3("Skill ", skill_id.as_str(), " deleted successfully");
    ManageOutput {
        operation: String::from_str("delete"),
        skill_id: Some(skill_id),
        name: Some(skill_name),
        message,
        data: None,
    }
}

/// The answer to a request for one file of a skill.
pub fn file_output(skill_id: String, skill_name: String, content: String) -> (r: ManageOutput)
    ensures
        r.operation@ == "get"@,
        r.skill_id == Some(skill_id),
        r.name == Some(skill_name),
        r.message == content,
        r.data is None,
{
    ManageOutput { operation: String::from_str("get"), skill_id: Some(skill_id), name: Some(skill_name), message: content, data: None }
}

/// The names of bundled tools.
pub open spec fn tool_names(t: Seq<crate::callables::BundledTool>) -> Seq<Seq<char>> {
    t.map_values(|b: crate::callables::BundledTool| b.name@)
}

/// The message describing a skill's content.
pub open spec fn content_message(skill_id: Seq<char>, c: SkillContent) -> Seq<char> {
    "# Skill: "@ + skill_id + "\n\n"@ + c.skill_md@ + "\n\n---\n\n"@ + "## Metadata\n\n"@
        + "- Uses tools: "@ + join(views(c.uses_tools@), ", "@) + "\n"@
        + "- Bundled tools: "@ + join(tool_names(c.bundled_tools@), ", "@) + "\n"@
        + "- Additional files: "@ + join(views(c.additional_files@), ", "@) + "\n"@
}

/// The data describing a skill's content (members in key order).
pub open spec fn content_data(c: SkillContent) -> Json {
    Json::Object(seq![
        ("additional_files"@, Json::Array(crate::runtime::json_texts(views(c.additional_files@)))),
        ("bundled_tools"@, Json::Array(crate::runtime::json_texts(tool_names(c.bundled_tools@)))),
        ("uses_tools"@, Json::Array(crate::runtime::json_texts(views(c.uses_tools@))))
    ])
}

fn strings_json(v: &Vec<String>) -> (r: JsonValue)
    ensures
        r@ == Json::Array(crate::runtime::json_texts(views(v@))),
{
    let ghost vs = views(v@);
    let mut items: Vec<JsonValue> = Vec::new();
    let mut i: usize = 0;
    while i < v.len()
        invariant
            i <= v.len(),
            vs == views(v@),
            crate::json::json_views(items@) == crate::runtime::json_texts(vs.take(i as int)),
        decreases v.len() - i,
    {
        let ghost before = items@;
        items.push(JsonValue::Str(v[i].clone()));
        assert(crate::json::json_views(items@) =~= crate::json::json_views(before).push(Json::Str(v@[i as int]@)));
        assert(crate::runtime::json_texts(vs.take(i as int + 1)) =~= crate::runtime::json_texts(vs.take(i as int)).push(
            Json::Str(vs[i as int]),
        ));
        i = i + 1;
    }
    assert(vs.take(v.len() as int) =~= vs);
    proof { crate::json::lemma_array_view(items); }
    JsonValue::Array(items)
}

/// The answer to a request for a skill's content.
pub fn content_output(skill_id: String, skill_name: String, content: &SkillContent) -> (r: ManageOutput)
    ensures
        r.operation@ == "get"@,
        r.skill_id matches Some(s) && s@ == skill_id@,
        r.name matches Some(n) && n@ == skill_name@,
        r.message@ == content_message(skill_id@, *content),
        r.data matches Some(d) && d@ == content_data(*content),
{
    let mut names: Vec<String> = Vec::new();
    let mut i: usize = 0;
    while i < content.bundled_tools.len()
        invariant
            i <= content.bundled_tools.len(),
            views(names@) == tool_names(content.bundled_tools@).take(i as int),
        decreases content.bundled_tools.len() - i,
    {
        let ghost before = names@;
        names.push(content.bundled_tools[i].name.clone());
        proof { lemma_views_push(before, names@.last()); }
        assert(tool_names(content.bundled_tools@).take(i as int + 1) =~= tool_names(content.bundled_tools@).take(
            i as int,
        ).push(content.bundled_tools@[i as int].name@));
        i = i + 1;
    }
    assert(tool_names(content.bundled_tools@).take(content.bundled_tools.len() as int) =~= tool_names(
        content.bundled_tools@,
    ));
    let mut m = String::from_str("# Skill: ");
    m.append(skill_id.as_str());
    m.append("\n\n");
    m.append(content.skill_md.as_str());
    m.append("\n\n---\n\n");
    m.append("## Metadata\n\n");
    m.append("- Uses tools: ");
    m.append(join_strings(&content.uses_tools, ", ").as_str());
    m.append("\n");
    m.append("- Bundled tools: ");
    m.append(join_strings(&names, ", ").as_str());
    m.append("\n");
    m.append("- Additional files: ");
    m.append(join_strings(&content.additional_files, ", ").as_str());
    m.append("\n");
    let mut d: Vec<(String, JsonValue)> = Vec::new();
    d.push((String::from_str("additional_files"), strings_json(&content.additional_files)));
    d.push((String::from_str("bundled_tools"), strings_json(&names)));
    d.push((String::from_str("uses_tools"), strings_json(&content.uses_tools)));
    proof { crate::json::lemma_object_view(d); }
    assert(crate::json::member_views(d@) =~= match content_data(*content) {
        Json::Object(ms) => ms,
        _ => Seq::empty(),
    });
    ManageOutput {
        operation: String::from_str("get"),
        skill_id: Some(skill_id),
        name: Some(skill_name),
        message: m,
        data: Some(JsonValue::Object(d)),
    }
}

/// The instructions the server gives its clients.
pub fn server_instructions() -> (r: String)
    ensures
        r@ == "Unified MCP server that aggregates upstream MCP tools and Skills into a unified registry. Exposes exactly 4 tools: search (discovery), schema (parameters), exec (execution), and manage (skill lifecycle). Usage: (1) search to find callables, (2) schema to get parameters, (3) exec to execute, (4) manage to create/update/delete skills."@,
{
    String::from_str("Unified MCP server that aggregates upstream MCP tools and Skills into a unified registry. Exposes exactly 4 tools: search (discovery), schema (parameters), exec (execution), and manage (skill lifecycle). Usage: (1) search to find callables, (2) schema to get parameters, (3) exec to execute, (4) manage to create/update/delete skills.")
}

// ---------------------------------------------------------------------------
// Input schemas of tool fields
// ---------------------------------------------------------------------------

/// A JSON object from its members.
fn members_object(m: Vec<(String, JsonValue)>) -> (r: JsonValue)
    ensures
        r@ == Json::Object(crate::json::member_views(m@)),
{
    proof {
        crate::json::lemma_object_view(m);
    }
    JsonValue::Object(m)
}

/// `{"type": t}`.
fn type_schema(t: &str) -> (r: JsonValue)
    ensures
        r@ == Json::Object(seq![("type"@, Json::Str(t@))]),
{
    let mut m: Vec<(String, JsonValue)> = Vec::new();
    m.push((String::from_str("type"), JsonValue::Str(String::from_str(t))));
    let r = members_object(m);
    assert(crate::json::member_views(m@) =~= seq![("type"@, Json::Str(t@))]);
    r
}

/// The schema of a field holding any JSON value: `{}`.
pub fn json_value_schema() -> (r: JsonValue)
    ensures
        r@ == Json::Object(Seq::empty()),
{
    let r = members_object(Vec::new());
    assert(crate::json::member_views(Seq::<(String, JsonValue)>::empty()) =~= Seq::<(Seq<char>, Json)>::empty());
    r
}

/// The schema of a field holding a list of JSON values.
pub fn json_value_vec_schema() -> (r: JsonValue)
    ensures
        r@ == Json::Object(seq![("items"@, Json::Object(Seq::empty())), ("type"@, Json::Str("array"@))]),
{
    let items = json_value_schema();
    let ghost iv = items@;
    let mut m: Vec<(String, JsonValue)> = Vec::new();
    m.push((String::from_str("items"), items));
    m.push((String::from_str("type"), JsonValue::Str(String::from_str("array"))));
    let r = members_object(m);
    assert(crate::json::member_views(m@) =~= seq![("items"@, iv), ("type"@, Json::Str("array"@))]);
    r
}

/// The schema of a field holding a non-negative integer.
pub fn non_negative_int_schema() -> (r: JsonValue)
    ensures
        r@ == Json::Object(seq![("minimum"@, Json::Number("0"@)), ("type"@, Json::Str("integer"@))]),
{
    let mut m: Vec<(String, JsonValue)> = Vec::new();
    m.push((String::from_str("minimum"), JsonValue::Number(String::from_str("0"))));
    m.push((String::from_str("type"), JsonValue::Str(String::from_str("integer"))));
    let r = members_object(m);
    assert(crate::json::member_views(m@) =~= seq![("minimum"@, Json::Number("0"@)), ("type"@, Json::Str("integer"@))]);
    r
}

/// The schema of `bundled_files`: a list of `[file name, content]` pairs,
/// or null.
pub open spec fn bundled_files_schema_json() -> Json {
    Json::Object(
        seq![("anyOf"@, Json::Array(seq![
            Json::Object(seq![
                ("items"@, Json::Object(seq![
                    ("items"@, Json::Object(seq![("type"@, Json::Str("string"@))])),
                    ("maxItems"@, Json::Number("2"@)),
                    ("minItems"@, Json::Number("2"@)),
                    ("type"@, Json::Str("array"@))
                ])),
                ("type"@, Json::Str("array"@))
            ]),
            Json::Object(seq![("type"@, Json::Str("null"@))])
        ]))],
    )
}

/// The schema of `bundled_files`.
pub fn bundled_files_schema() -> (r: JsonValue)
    ensures
        r@ == bundled_files_schema_json(),
{
    let strings = type_schema("string");
    let ghost sv = strings@;
    let mut pair: Vec<(String, JsonValue)> = Vec::new();
    pair.push((String::from_str("items"), strings));
    pair.push((String::from_str("maxItems"), JsonValue::Number(String::from_str("2"))));
    pair.push((String::from_str("minItems"), JsonValue::Number(String::from_str("2"))));
    pair.push((String::from_str("type"), JsonValue::Str(String::from_str("array"))));
    let pair_schema = members_object(pair);
    assert(crate::json::member_views(pair@) =~= seq![
        ("items"@, sv),
        ("maxItems"@, Json::Number("2"@)),
        ("minItems"@, Json::Number("2"@)),
        ("type"@, Json::Str("array"@))
    ]);
    let ghost pv = pair_schema@;
    let mut list: Vec<(String, JsonValue)> = Vec::new();
    list.push((String::from_str("items"), pair_schema));
    list.push((String::from_str("type"), JsonValue::Str(String::from_str("array"))));
    let list_schema = members_object(list);
    assert(crate::json::member_views(list@) =~= seq![("items"@, pv), ("type"@, Json::Str("array"@))]);
    let ghost lv = list_schema@;
    let null_schema = type_schema("null");
    let ghost nv = null_schema@;
    let mut alternatives: Vec<JsonValue> = Vec::new();
    alternatives.push(list_schema);
    alternatives.push(null_schema);
    proof {
        crate::json::lemma_array_view(alternatives);
        assert(crate::json::json_views(alternatives@) =~= seq![lv, nv]);
    }
    let ghost av = Json::Array(seq![lv, nv]);
    let mut m: Vec<(String, JsonValue)> = Vec::new();
    m.push((String::from_str("anyOf"), JsonValue::Array(alternatives)));
    let r = members_object(m);
    assert(crate::json::member_views(m@) =~= seq![("anyOf"@, av)]);
    r
}

} // verus!
