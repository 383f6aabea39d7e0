//! Executing callables: argument checks, the result of an upstream tool
//! call, skills without bundled tools, bundled scripts in the sandbox, and
//! execution traces.  Calls to upstream servers and processes are the
//! caller's.
use vstd::prelude::*;
use crate::callables::{
    BundledTool, CallableId, CallableRecord, ResourceContent, ToolResult, ToolResultContent,
};
use crate::canonical::{numbers_read, pretty_json_text, pretty_json_text_of};
use crate::isolation::SandboxError;
use crate::json::{Json, JsonValue};
use crate::sandbox::SandboxConfig;
use crate::text::{concat2, str_eq, views, lemma_views_push};

verus! {

/// Errors of execution.
#[derive(Debug)]
pub enum RuntimeError {
    CallableNotFound(String),
    ExecutionFailed(String),
    ValidationFailed(String),
    Timeout(u64),
    UpstreamError(String),
    Internal(String),
    BundledToolError(String),
    Io(String),
}

impl RuntimeError {
    /// The error's message (`Display`).
    pub fn message(&self) -> (r: String)
        ensures
            self matches RuntimeError::CallableNotFound(m) ==> r@ == "Callable not found: "@ + m@,
            self matches RuntimeError::ExecutionFailed(m) ==> r@ == "Execution failed: "@ + m@,
            self matches RuntimeError::ValidationFailed(m) ==> r@ == "Validation failed: "@ + m@,
            self matches RuntimeError::Timeout(t) ==> r@ == "Timeout exceeded: "@ + crate::text::decimal(t as nat) + "ms"@,
            self matches RuntimeError::UpstreamError(m) ==> r@ == "Upstream error: "@ + m@,
            self matches RuntimeError::Internal(m) ==> r@ == "Internal error: "@ + m@,
            self matches RuntimeError::BundledToolError(m) ==> r@ == "Bundled tool execution failed: "@ + m@,
            self matches RuntimeError::Io(m) ==> r@ == "IO error: "@ + m@,
    {
        match self {
            RuntimeError::CallableNotFound(m) => concat2("Callable not found: ", m.as_str()),
            RuntimeError::ExecutionFailed(m) => concat2("Execution failed: ", m.as_str()),
            RuntimeError::ValidationFailed(m) => concat2("Validation failed: ", m.as_str()),
            RuntimeError::Timeout(t) => {
                let mut s = String::from_str("Timeout exceeded: ");
                let n = crate::text::u64_to_string(*t);
                s.append(n.as_str());
                s.append("ms");
                s
            },
            RuntimeError::UpstreamError(m) => concat2("Upstream error: ", m.as_str()),
            RuntimeError::Internal(m) => concat2("Internal error: ", m.as_str()),
            RuntimeError::BundledToolError(m) => concat2("Bundled tool execution failed: ", m.as_str()),
            RuntimeError::Io(m) => concat2("IO error: ", m.as_str()),
        }
    }
}

/// A request to execute a callable.
#[derive(Debug)]
pub struct ExecContext {
    pub callable_id: CallableId,
    pub arguments: JsonValue,
    pub timeout_ms: Option<u64>,
    pub trace_enabled: bool,
}

// ---------------------------------------------------------------------------
// Traces
// ---------------------------------------------------------------------------

/// One step of an execution trace.
#[derive(Debug)]
pub struct TraceStep {
    pub step_index: usize,
    pub callable_id: String,
    /// Start, in milliseconds since the Unix epoch.
    pub started_ms: i64,
    pub completed_ms: Option<i64>,
    pub duration_ms: Option<u64>,
    pub success: bool,
    pub error: Option<String>,
}

/// An execution trace.
#[derive(Debug)]
pub struct ExecutionTrace {
    pub execution_id: String,
    /// Start, in milliseconds since the Unix epoch.
    pub started_ms: i64,
    pub completed_ms: Option<i64>,
    pub total_duration_ms: Option<u64>,
    pub steps: Vec<TraceStep>,
}

/// The milliseconds from `start` to `end`, or 0 if `end` is earlier.
pub open spec fn elapsed(start: i64, end: i64) -> nat {
    if end >= start { (end - start) as nat } else { 0 }
}

fn elapsed_exec(start: i64, end: i64) -> (r: u64)
    ensures
        r == elapsed(start, end),
{
    if end >= start {
        let d: i128 = end as i128 - start as i128;
        d as u64
    } else {
        0
    }
}

impl ExecutionTrace {
    /// A trace with the given identifier, started now.
    pub fn new(execution_id: String, now_ms: i64) -> (r: ExecutionTrace)
        ensures
            r.execution_id == execution_id,
            r.started_ms == now_ms,
            r.completed_ms is None,
            r.total_duration_ms is None,
            r.steps@.len() == 0,
    {
        ExecutionTrace {
            execution_id,
            started_ms: now_ms,
            completed_ms: None,
            total_duration_ms: None,
            steps: Vec::new(),
        }
    }

    /// Marks the trace completed now.
    pub fn complete(&mut self, now_ms: i64)
        ensures
            final(self).completed_ms == Some(now_ms),
            final(self).total_duration_ms == Some(elapsed(old(self).started_ms, now_ms) as u64),
            final(self).started_ms == old(self).started_ms,
            final(self).execution_id == old(self).execution_id,
            final(self).steps == old(self).steps,
    {
        self.completed_ms = Some(now_ms);
        self.total_duration_ms = Some(elapsed_exec(self.started_ms, now_ms));
    }

    /// Records a completed step of the given callable.
    pub fn record_step(&mut self, callable_id: &CallableId, started_ms: i64, completed_ms: i64, success: bool)
        ensures
            final(self).steps@.len() == old(self).steps@.len() + 1,
            final(self).steps@.drop_last() == old(self).steps@,
            ({
                let s = final(self).steps@.last();
                &&& s.step_index == old(self).steps@.len()
                &&& s.callable_id@ == callable_id@
                &&& s.started_ms == started_ms
                &&& s.completed_ms == Some(completed_ms)
                &&& s.duration_ms == Some(elapsed(started_ms, completed_ms) as u64)
                &&& s.success == success
                &&& s.error is None
            }),
            final(self).started_ms == old(self).started_ms,
            final(self).completed_ms == old(self).completed_ms,
            final(self).execution_id == old(self).execution_id,
    {
        let index = self.steps.len();
        let step = TraceStep {
            step_index: index,
            callable_id: String::from_str(callable_id.as_str()),
            started_ms,
            completed_ms: Some(completed_ms),
            duration_ms: Some(elapsed_exec(started_ms, completed_ms)),
            success,
            error: None,
        };
        self.steps.push(step);
        assert(self.steps@.drop_last() =~= old(self).steps@);
    }
}

// ---------------------------------------------------------------------------
// Arguments
// ---------------------------------------------------------------------------

/// The first required name that the arguments object lacks.
pub open spec fn first_missing(required: Seq<Json>, args: Json) -> Option<Seq<char>>
    decreases required.len(),
{
    if required.len() == 0 {
        None
    } else {
        match required[0].as_str() {
            Some(r) => if args.get(r) is None { Some(r) } else { first_missing(required.drop_first(), args) },
            None => first_missing(required.drop_first(), args),
        }
    }
}

/// The reason arguments fail a schema's `required` list, if they do: they
/// must be an object holding every required (textual) name.
pub open spec fn arguments_error(schema: Json, args: Json) -> Option<Seq<char>> {
    match schema.get_array("required"@) {
        None => None,
        Some(req) => if !(args is Object) {
            Some("Arguments must be an object"@)
        } else {
            match first_missing(req, args) {
                Some(r) => Some("Missing required argument: "@ + r),
                None => None,
            }
        },
    }
}

/// Whether the arguments hold the name a `required` item gives (an item
/// that is not text names nothing).
pub open spec fn holds_name(args: Json, item: Json) -> bool {
    match item.as_str() {
        Some(r) => args.get(r) is Some,
        None => true,
    }
}

proof fn lemma_first_missing_none(required: Seq<Json>, args: Json)
    requires
        forall|k: int| 0 <= k < required.len() ==> holds_name(args, #[trigger] required[k]),
    ensures
        first_missing(required, args) is None,
    decreases required.len(),
{
    if required.len() > 0 {
        let rest = required.drop_first();
        assert forall|k: int| 0 <= k < rest.len() implies holds_name(args, #[trigger] rest[k]) by {
            assert(rest[k] == required[k + 1]);
        }
        lemma_first_missing_none(rest, args);
        assert(required[0] == required[0]);
    }
}

proof fn lemma_first_missing_some(required: Seq<Json>, args: Json, i: int, name: Seq<char>)
    requires
        0 <= i < required.len(),
        required[i].as_str() == Some(name),
        args.get(name) is None,
        forall|k: int| 0 <= k < i ==> holds_name(args, #[trigger] required[k]),
    ensures
        first_missing(required, args) == Some(name),
    decreases i,
{
    if i > 0 {
        let rest = required.drop_first();
        assert(rest[i - 1] == required[i]);
        assert forall|k: int| 0 <= k < i - 1 implies holds_name(args, #[trigger] rest[k]) by {
            assert(rest[k] == required[k + 1]);
        }
        lemma_first_missing_some(rest, args, i - 1, name);
        assert(required[0] == required[0]);
    }
}

/// Arguments given as an object pass a schema's `required` list exactly
/// when they hold every textual name it lists; otherwise the failure names
/// the first listed name they lack.
pub proof fn law_arguments_need_every_required_name(schema: Json, args: Json, req: Seq<Json>)
    requires
        args is Object,
        schema.get_array("required"@) == Some(req),
    ensures
        arguments_error(schema, args) is None <==> forall|k: int| 0 <= k < req.len()
            ==> holds_name(args, #[trigger] req[k]),
        forall|i: int|
            0 <= i < req.len() && !holds_name(args, #[trigger] req[i])
                && (forall|k: int| 0 <= k < i ==> holds_name(args, #[trigger] req[k]))
                ==> arguments_error(schema, args) == Some("Missing required argument: "@ + req[i].as_str()->0),
{
    if forall|k: int| 0 <= k < req.len() ==> holds_name(args, #[trigger] req[k]) {
        lemma_first_missing_none(req, args);
    } else {
        let k = choose|k: int| 0 <= k < req.len() && !(holds_name(args, #[trigger] req[k]));
        assert(req[k].as_str() is Some);
        assert(arguments_error(schema, args) is Some) by {
            // the first lacking name comes no later than k
            lemma_some_missing(req, args, k);
        }
    }
    assert forall|i: int|
        0 <= i < req.len() && !holds_name(args, #[trigger] req[i])
            && (forall|k: int| 0 <= k < i ==> holds_name(args, #[trigger] req[k]))
        implies arguments_error(schema, args) == Some("Missing required argument: "@ + req[i].as_str()->0) by {
        lemma_first_missing_some(req, args, i, req[i].as_str()->0);
    }
}

/// Without a `required` array every argument value passes; with one,
/// arguments that are not an object fail as such.
pub proof fn law_arguments_outside_required(schema: Json, args: Json)
    ensures
        schema.get_array("required"@) is None ==> arguments_error(schema, args) is None,
        schema.get_array("required"@) is Some && !(args is Object) ==> arguments_error(schema, args)
            == Some("Arguments must be an object"@),
{
}

proof fn lemma_some_missing(required: Seq<Json>, args: Json, k: int)
    requires
        0 <= k < required.len(),
        required[k].as_str() matches Some(r) && args.get(r) is None,
    ensures
        first_missing(required, args) is Some,
    decreases k,
{
    if k > 0 {
        let rest = required.drop_first();
        assert(rest[k - 1] == required[k]);
        lemma_some_missing(rest, args, k - 1);
        assert(required[0] == required[0]);
    }
}

/// Checks the arguments against the schema's required names.
pub fn validate_arguments(schema: &JsonValue, arguments: &JsonValue) -> (r: Result<(), RuntimeError>)
    ensures
        match arguments_error(schema@, arguments@) {
            Some(m) => r matches Err(RuntimeError::ValidationFailed(x)) && x@ == m,
            None => r is Ok,
        },
{
    let required = match schema.get("required") {
        Some(v) => match v.as_array() {
            Some(a) => a,
            None => {
                return Ok(());
            },
        },
        None => {
            return Ok(());
        },
    };
    if !arguments.is_object() {
        return Err(RuntimeError::ValidationFailed(String::from_str("Arguments must be an object")));
    }
    let ghost req = crate::json::json_views(required@);
    assert(req.skip(0) =~= req);
    let mut i: usize = 0;
    while i < required.len()
        invariant
            i <= required.len(),
            req == crate::json::json_views(required@),
            schema@.get_array("required"@) == Some(req),
            arguments@ is Object,
            first_missing(req, arguments@) == first_missing(req.skip(i as int), arguments@),
        decreases required.len() - i,
    {
        assert(req.skip(i as int)[0] == required@[i as int]@);
        assert(req.skip(i as int).drop_first() =~= req.skip(i as int + 1));
        match required[i].as_str() {
            Some(name) => {
                if arguments.get(name.as_str()).is_none() {
                    return Err(RuntimeError::ValidationFailed(concat2("Missing required argument: ", name.as_str())));
                }
            },
            None => {},
        }
        i = i + 1;
    }
    assert(req.skip(i as int) =~= Seq::<Json>::empty());
    Ok(())
}

// ---------------------------------------------------------------------------
// Upstream tool results
// ---------------------------------------------------------------------------

/// The model of a result content.
pub enum ContentView {
    Text(Seq<char>),
    Image(Seq<char>, Seq<char>),
    Resource(Seq<char>, Option<Seq<char>>, Option<Seq<char>>, Option<Seq<char>>),
}

/// The view of an optional string.
pub open spec fn ov(o: Option<String>) -> Option<Seq<char>> {
    match o {
        Some(s) => Some(s@),
        None => None,
    }
}

/// The model of a result content.
pub open spec fn content_view(c: ToolResultContent) -> ContentView {
    match c {
        ToolResultContent::Text { text } => ContentView::Text(text@),
        ToolResultContent::Image { data, mime_type } => ContentView::Image(data@, mime_type@),
        ToolResultContent::Resource { resource } => ContentView::Resource(
            resource.uri@,
            ov(resource.mime_type),
            ov(resource.text),
            ov(resource.blob),
        ),
    }
}

/// The models of result contents.
pub open spec fn content_views(v: Seq<ToolResultContent>) -> Seq<ContentView> {
    v.map_values(|c: ToolResultContent| content_view(c))
}

/// `o`, or `d` when absent.
pub open spec fn text_or(o: Option<Seq<char>>, d: Seq<char>) -> Seq<char> {
    match o {
        Some(s) => s,
        None => d,
    }
}

/// The content an MCP content item stands for, if its type is known.
pub open spec fn content_from_item(item: Json) -> Option<ContentView> {
    match item.get_str("type"@) {
        Some(t) => if t == "text"@ {
            Some(ContentView::Text(text_or(item.get_str("text"@), Seq::empty())))
        } else if t == "image"@ {
            Some(ContentView::Image(text_or(item.get_str("data"@), Seq::empty()), text_or(item.get_str("mimeType"@), "image/png"@)))
        } else if t == "resource"@ {
            Some(ContentView::Resource(
                text_or(item.get_str("uri"@), Seq::empty()),
                item.get_str("mimeType"@),
                item.get_str("text"@),
                item.get_str("blob"@),
            ))
        } else {
            None
        },
        None => None,
    }
}

/// The contents of the known items, in order.
pub open spec fn contents_from(items: Seq<Json>) -> Seq<ContentView>
    decreases items.len(),
{
    if items.len() == 0 {
        Seq::empty()
    } else {
        let r = contents_from(items.drop_last());
        match content_from_item(items.last()) {
            Some(c) => r.push(c),
            None => r,
        }
    }
}

/// The contents of an upstream `tools/call` reply: its known content items,
/// or the whole reply as text (`text`) when it has no content array.
pub open spec fn reply_contents(reply: Json, text: Seq<char>) -> Seq<ContentView> {
    match reply.get_array("content"@) {
        Some(items) => contents_from(items),
        None => seq![ContentView::Text(text)],
    }
}

/// Whether an upstream reply flags an error.
pub open spec fn reply_is_error(reply: Json) -> bool {
    match reply.get_bool("isError"@) {
        Some(b) => b,
        None => false,
    }
}

fn str_or(o: Option<String>, d: &str) -> (r: String)
    ensures
        r@ == text_or(ov(o), d@),
{
    match o {
        Some(s) => s,
        None => String::from_str(d),
    }
}

fn content_of_item(item: &JsonValue) -> (r: Option<ToolResultContent>)
    ensures
        match r {
            Some(c) => content_from_item(item@) == Some(content_view(c)),
            None => content_from_item(item@) is None,
        },
{
    proof {
        reveal_strlit("");
        reveal_strlit("text");
        reveal_strlit("image");
        reveal_strlit("resource");
    }
    let t = match item.get_str("type") {
        Some(t) => t,
        None => {
            return None;
        },
    };
    assert(item@.get_str("type"@) == Some(t@));
    if str_eq(t.as_str(), "text") {
        let x = str_or(item.get_str("text"), "");
        assert(x@ == text_or(item@.get_str("text"@), Seq::empty()));
        let c = ToolResultContent::Text { text: x };
        assert(content_view(c) == ContentView::Text(x@));
        assert(t@ == "text"@);
        assert(content_from_item(item@) == Some(content_view(c)));
        Some(c)
    } else if str_eq(t.as_str(), "image") {
        let d = str_or(item.get_str("data"), "");
        let m = str_or(item.get_str("mimeType"), "image/png");
        let c = ToolResultContent::Image { data: d, mime_type: m };
        assert(t@ != "text"@);
        assert(t@ == "image"@);
        assert(item@.get_str("type"@) == Some("image"@));
        assert(d@ == text_or(item@.get_str("data"@), Seq::empty()));
        assert(m@ == text_or(item@.get_str("mimeType"@), "image/png"@));
        assert(content_view(c) == ContentView::Image(d@, m@));
        assert(content_from_item(item@) == Some(content_view(c)));
        Some(c)
    } else if str_eq(t.as_str(), "resource") {
        let uri = str_or(item.get_str("uri"), "");
        let mime_type = item.get_str("mimeType");
        let text = item.get_str("text");
        let blob = item.get_str("blob");
        let c = ToolResultContent::Resource { resource: ResourceContent { uri, mime_type, text, blob } };
        assert(t@ != "text"@ && t@ != "image"@);
        assert(t@ == "resource"@);
        assert(uri@ == text_or(item@.get_str("uri"@), Seq::empty()));
        assert(ov(mime_type) == item@.get_str("mimeType"@));
        assert(ov(text) == item@.get_str("text"@));
        assert(ov(blob) == item@.get_str("blob"@));
        assert(content_from_item(item@) == Some(content_view(c)));
        Some(c)
    } else {
        assert(t@ != "text"@ && t@ != "image"@ && t@ != "resource"@);
        None
    }
}

/// The result of an upstream tool call: its contents and error flag, the
/// reply itself as structured content; a reply with no known content that
/// is not flagged as an error becomes an error saying so.  `reply_text` is
/// the reply's JSON text, as `serde_json` writes it.
pub fn tool_result_from_reply(reply: JsonValue, reply_text: String) -> (r: ToolResult)
    requires
        reply_text@ == crate::canonical::json_text(reply@),
    ensures
        ({
            let cs = reply_contents(reply@, reply_text@);
            if cs.len() == 0 && !reply_is_error(reply@) {
                &&& content_views(r.content@) == seq![ContentView::Text("Tool returned no content"@)]
                &&& r.is_error
            } else {
                &&& content_views(r.content@) == cs
                &&& r.is_error == reply_is_error(reply@)
            }
        }),
        r.structured_content matches Some(s) && s@ == reply@,
{
    let is_error = match reply.get_bool("isError") {
        Some(b) => b,
        None => false,
    };
    let mut content: Vec<ToolResultContent> = Vec::new();
    match reply.get("content") {
        Some(cv) => match cv.as_array() {
            Some(items) => {
                let ghost iv = crate::json::json_views(items@);
                let mut i: usize = 0;
                while i < items.len()
                    invariant
                        i <= items.len(),
                        iv == crate::json::json_views(items@),
                        content_views(content@) == contents_from(iv.take(i as int)),
                    decreases items.len() - i,
                {
                    let ghost t = iv.take(i as int + 1);
                    assert(t.drop_last() =~= iv.take(i as int));
                    assert(t.last() == items@[i as int]@);
                    match content_of_item(&items[i]) {
                        Some(c) => {
                            let ghost before = content@;
                            content.push(c);
                            assert(content_views(content@) =~= content_views(before).push(content_view(content@.last())));
                        },
                        None => {},
                    }
                    i = i + 1;
                }
                assert(iv.take(items.len() as int) =~= iv);
            },
            None => {
                content.push(ToolResultContent::Text { text: reply_text });
                assert(content_views(content@) =~= seq![ContentView::Text(reply_text@)]);
            },
        },
        None => {
            content.push(ToolResultContent::Text { text: reply_text });
            assert(content_views(content@) =~= seq![ContentView::Text(reply_text@)]);
        },
    }
    if content.len() == 0 && !is_error {
        let mut c: Vec<ToolResultContent> = Vec::new();
        c.push(ToolResultContent::Text { text: String::from_str("Tool returned no content") });
        assert(content_views(c@) =~= seq![ContentView::Text("Tool returned no content"@)]);
        return ToolResult { content: c, structured_content: Some(reply), is_error: true };
    }
    ToolResult { content, structured_content: Some(reply), is_error }
}

/// The server and the upstream tool name a tool record is called through.
pub fn tool_target(record: &CallableRecord) -> (r: Result<(String, String), RuntimeError>)
    ensures
        match (record.server_alias, record.upstream_tool_name) {
            (Some(s), Some(t)) => r matches Ok(p) && p.0@ == s@ && p.1@ == t@,
            (None, _) => r matches Err(RuntimeError::Internal(m)) && m@ == "Tool missing server alias"@,
            (Some(_), None) => r matches Err(RuntimeError::Internal(m)) && m@ == "Tool missing upstream name"@,
        },
{
    let server = match &record.server_alias {
        Some(s) => s.clone(),
        None => {
            return Err(RuntimeError::Internal(String::from_str("Tool missing server alias")));
        },
    };
    let tool = match &record.upstream_tool_name {
        Some(t) => t.clone(),
        None => {
            return Err(RuntimeError::Internal(String::from_str("Tool missing upstream name")));
        },
    };
    Ok((server, tool))
}

// ---------------------------------------------------------------------------
// Skills
// ---------------------------------------------------------------------------

/// JSON strings of the given texts.
pub open spec fn json_texts(v: Seq<Seq<char>>) -> Seq<Json> {
    v.map_values(|t: Seq<char>| Json::Str(t))
}

/// The structured content that describes a skill without bundled tools.
pub open spec fn skill_info_json(rec: CallableRecord) -> Json {
    Json::Object(seq![
        ("additional_files"@, Json::Array(json_texts(views(rec.additional_files@)))),
        ("bundled_tools"@, Json::Array(json_texts(rec.bundled_tools@.map_values(|t: BundledTool| t.name@)))),
        ("message"@, Json::Str("Load SKILL.md to see instructions"@)),
        ("skill"@, Json::Str(rec.name@)),
        ("uses_tools"@, Json::Array(json_texts(crate::search::id_views(rec.uses@)))),
        ("version"@, match rec.skill_version {
            Some(v) => Json::Str(v@),
            None => Json::Null,
        })
    ])
}

fn json_string_array(v: Vec<String>) -> (r: JsonValue)
    ensures
        r@ == Json::Array(json_texts(views(v@))),
{
    let ghost vs = views(v@);
    let mut items: Vec<JsonValue> = Vec::new();
    let mut i: usize = 0;
    while i < v.len()
        invariant
            i <= v.len(),
            vs == views(v@),
            crate::json::json_views(items@) == json_texts(vs.take(i as int)),
        decreases v.len() - i,
    {
        let ghost before = items@;
        items.push(JsonValue::Str(v[i].clone()));
        assert(crate::json::json_views(items@) =~= crate::json::json_views(before).push(Json::Str(v@[i as int]@)));
        assert(json_texts(vs.take(i as int + 1)) =~= json_texts(vs.take(i as int)).push(Json::Str(vs[i as int])));
        i = i + 1;
    }
    assert(vs.take(v.len() as int) =~= vs);
    proof { crate::json::lemma_array_view(items); }
    JsonValue::Array(items)
}

/// The result of executing a skill without bundled tools: a pointer to its
/// SKILL.md and a description of the skill.
pub fn skill_info_result(record: &CallableRecord) -> (r: ToolResult)
    ensures
        content_views(r.content@) == seq![ContentView::Text(
            "Skill "@ + record.fq_name@ + " provides instructions for agent. Load SKILL.md for details."@,
        )],
        r.structured_content matches Some(s) && s@ == skill_info_json(*record),
        !r.is_error,
{
    let mut text = String::from_str("Skill ");
    text.append(record.fq_name.as_str());
    text.append(" provides instructions for agent. Load SKILL.md for details.");
    let mut tool_names: Vec<String> = Vec::new();
    let mut i: usize = 0;
    while i < record.bundled_tools.len()
        invariant
            i <= record.bundled_tools.len(),
            views(tool_names@) == record.bundled_tools@.map_values(|t: BundledTool| t.name@).take(i as int),
        decreases record.bundled_tools.len() - i,
    {
        let ghost before = tool_names@;
        tool_names.push(record.bundled_tools[i].name.clone());
        proof { lemma_views_push(before, tool_names@.last()); }
        assert(record.bundled_tools@.map_values(|t: BundledTool| t.name@).take(i as int + 1)
            =~= record.bundled_tools@.map_values(|t: BundledTool| t.name@).take(i as int).push(
            record.bundled_tools@[i as int].name@,
        ));
        i = i + 1;
    }
    assert(record.bundled_tools@.map_values(|t: BundledTool| t.name@).take(record.bundled_tools.len() as int)
        =~= record.bundled_tools@.map_values(|t: BundledTool| t.name@));
    let mut ids: Vec<String> = Vec::new();
    let mut k: usize = 0;
    while k < record.uses.len()
        invariant
            k <= record.uses.len(),
            views(ids@) == crate::search::id_views(record.uses@).take(k as int),
        decreases record.uses.len() - k,
    {
        let ghost before = ids@;
        ids.push(String::from_str(record.uses[k].as_str()));
        proof { lemma_views_push(before, ids@.last()); }
        assert(crate::search::id_views(record.uses@).take(k as int + 1) =~= crate::search::id_views(record.uses@).take(
            k as int,
        ).push(record.uses@[k as int]@));
        k = k + 1;
    }
    assert(crate::search::id_views(record.uses@).take(record.uses.len() as int) =~= crate::search::id_views(record.uses@));
    let mut m: Vec<(String, JsonValue)> = Vec::new();
    m.push((String::from_str("additional_files"), json_string_array(crate::text::copy_strings(&record.additional_files))));
    m.push((String::from_str("bundled_tools"), json_string_array(tool_names)));
    m.push((String::from_str("message"), JsonValue::Str(String::from_str("Load SKILL.md to see instructions"))));
    m.push((String::from_str("skill"), JsonValue::Str(record.name.clone())));
    m.push((String::from_str("uses_tools"), json_string_array(ids)));
    let version = match &record.skill_version {
        Some(v) => JsonValue::Str(v.clone()),
        None => JsonValue::Null,
    };
    m.push((String::from_str("version"), version));
    proof { crate::json::lemma_object_view(m); }
    assert(crate::json::member_views(m@) =~= match skill_info_json(*record) {
        Json::Object(ms) => ms,
        _ => Seq::empty(),
    });
    let mut content: Vec<ToolResultContent> = Vec::new();
    content.push(ToolResultContent::Text { text });
    assert(content_views(content@) =~= seq![ContentView::Text(
        "Skill "@ + record.fq_name@ + " provides instructions for agent. Load SKILL.md for details."@,
    )]);
    ToolResult { content, structured_content: Some(JsonValue::Object(m)), is_error: false }
}

// ---------------------------------------------------------------------------
// Bundled tools
// ---------------------------------------------------------------------------

/// How a bundled tool is run in the sandbox.
#[derive(Debug)]
pub struct BundledRun {
    pub program: String,
    pub args: Vec<String>,
    pub working_dir: String,
    pub env_vars: Vec<(String, String)>,
    pub sandbox: SandboxConfig,
}

/// The working directory of a bundled tool: the directory of its script
/// (its first argument), `"."` when that has no parent, or the caller's
/// current directory when there are no arguments.
pub open spec fn bundled_working_dir(args: Seq<Seq<char>>, current_dir: Seq<char>) -> Seq<char> {
    if args.len() > 0 {
        match crate::paths::path_parent(args[0]) {
            Some(p) => p,
            None => "."@,
        }
    } else {
        current_dir
    }
}

/// How to run a bundled tool: its command's first word with the rest as
/// arguments, in its working directory, with the arguments' pretty JSON
/// text in `SKILL_ARGS_JSON` and the file that holds it (`args_file`) in
/// `SKILL_ARGS_FILE`, in the base sandbox with the given timeout, the
/// working directory readable and the temporary directory writable.  The
/// arguments fail to serialize exactly when some number's text does not
/// read.
pub fn bundled_run(
    tool: &BundledTool,
    arguments: &JsonValue,
    base: &SandboxConfig,
    timeout_ms: Option<u64>,
    args_file: String,
    current_dir: &str,
    temp_dir: &str,
) -> (r: Result<BundledRun, RuntimeError>)
    ensures
        tool.command@.len() == 0 ==> (r matches Err(RuntimeError::BundledToolError(m)) && m@ == "Empty command"@),
        tool.command@.len() > 0 && !numbers_read(arguments@) ==> (r matches Err(RuntimeError::BundledToolError(m))
            && exists|e: Seq<char>| m@ == "Failed to serialize arguments: "@ + e),
        tool.command@.len() > 0 && numbers_read(arguments@) ==> (r matches Ok(run) && {
            let args_json = pretty_json_text(arguments@);
            let args = views(tool.command@).skip(1);
            let wd = bundled_working_dir(args, current_dir@);
            &&& run.program@ == tool.command@[0]@
            &&& views(run.args@) == args
            &&& run.working_dir@ == wd
            &&& crate::sandbox::pair_views(run.env_vars@) == seq![("SKILL_ARGS_FILE"@, args_file@), ("SKILL_ARGS_JSON"@, args_json)]
            &&& run.sandbox@ == (crate::sandbox::SandboxView {
                timeout_ms: match timeout_ms {
                    Some(t) => t,
                    None => base@.timeout_ms,
                },
                allow_read: base@.allow_read.push(wd),
                allow_write: base@.allow_write.push(temp_dir@),
                ..base@
            })
        }),
{
    if tool.command.len() == 0 {
        return Err(RuntimeError::BundledToolError(String::from_str("Empty command")));
    }
    let args_json = match pretty_json_text_of(arguments) {
        Ok(t) => t,
        Err(e) => {
            let text = crate::isolation::json_error_text(&e);
            let m = concat2("Failed to serialize arguments: ", text.as_str());
            assert(m@ == "Failed to serialize arguments: "@ + text@);
            return Err(RuntimeError::BundledToolError(m));
        },
    };
    let program = tool.command[0].clone();
    let mut args: Vec<String> = Vec::new();
    let mut i: usize = 1;
    while i < tool.command.len()
        invariant
            1 <= i <= tool.command.len(),
            views(args@) == views(tool.command@).skip(1).take(i - 1),
        decreases tool.command.len() - i,
    {
        let ghost before = args@;
        args.push(tool.command[i].clone());
        proof { lemma_views_push(before, args@.last()); }
        assert(views(tool.command@).skip(1).take(i as int) =~= views(tool.command@).skip(1).take(i - 1).push(
            tool.command@[i as int]@,
        ));
        i = i + 1;
    }
    assert(views(tool.command@).skip(1).take(tool.command.len() - 1) =~= views(tool.command@).skip(1));
    let working_dir = if args.len() > 0 {
        match crate::paths::parent_of(args[0].as_str()) {
            Some(p) => p,
            None => String::from_str("."),
        }
    } else {
        String::from_str(current_dir)
    };
    let mut env_vars: Vec<(String, String)> = Vec::new();
    env_vars.push((String::from_str("SKILL_ARGS_FILE"), args_file));
    env_vars.push((String::from_str("SKILL_ARGS_JSON"), args_json));
    let mut sandbox = base.copy();
    match timeout_ms {
        Some(t) => sandbox.timeout_ms = t,
        None => {},
    }
    let ghost r0 = sandbox.allow_read@;
    sandbox.allow_read.push(working_dir.clone());
    proof { lemma_views_push(r0, sandbox.allow_read@.last()); }
    let ghost w0 = sandbox.allow_write@;
    sandbox.allow_write.push(String::from_str(temp_dir));
    proof { lemma_views_push(w0, sandbox.allow_write@.last()); }
    assert(crate::sandbox::pair_views(env_vars@) =~= seq![(env_vars@[0].0@, env_vars@[0].1@), (env_vars@[1].0@, env_vars@[1].1@)]);
    Ok(BundledRun { program, args, working_dir, env_vars, sandbox })
}

/// Decimal rendering of a signed integer.
pub open spec fn signed_decimal(i: int) -> Seq<char> {
    if i < 0 { "-"@ + crate::text::decimal((-i) as nat) } else { crate::text::decimal(i as nat) }
}

/// `Option<i32>` as `{:?}` renders it.
pub open spec fn exit_code_text(c: Option<i32>) -> Seq<char> {
    match c {
        Some(v) => "Some("@ + signed_decimal(v as int) + ")"@,
        None => "None"@,
    }
}

fn exit_code_text_exec(c: Option<i32>) -> (r: String)
    ensures
        r@ == exit_code_text(c),
{
    match c {
        Some(v) => {
            let mut s = String::from_str("Some(");
            if v < 0 {
                s.append("-");
                let m: u64 = (-(v as i64)) as u64;
                let d = crate::text::u64_to_string(m);
                s.append(d.as_str());
            } else {
                let d = crate::text::u64_to_string(v as u64);
                s.append(d.as_str());
            }
            s.append(")");
            s
        },
        None => String::from_str("None"),
    }
}

/// Whether a run of a bundled tool succeeded: exit code 0, not timed out.
pub open spec fn run_succeeded(exit_code: Option<i32>, timed_out: bool) -> bool {
    exit_code == Some(0i32) && !timed_out
}

/// The contents of a bundled tool's result: its output, its error output
/// when it failed, a timeout note, or else a note on the exit.
pub open spec fn run_contents(stdout: Seq<char>, stderr: Seq<char>, exit_code: Option<i32>, timed_out: bool) -> Seq<ContentView> {
    let ok = run_succeeded(exit_code, timed_out);
    let c = (if stdout.len() > 0 { seq![ContentView::Text(stdout)] } else { Seq::empty() })
        + (if stderr.len() > 0 && !ok { seq![ContentView::Text("Error: "@ + stderr)] } else { Seq::empty() })
        + (if timed_out { seq![ContentView::Text("Execution timed out"@)] } else { Seq::empty() });
    if c.len() > 0 {
        c
    } else if ok {
        seq![ContentView::Text("Command completed successfully with no output"@)]
    } else {
        seq![ContentView::Text("Command failed with exit code: "@ + exit_code_text(exit_code))]
    }
}

/// The result of a bundled tool run; `structured` is its output parsed as
/// JSON, when it parses.
pub fn bundled_result(
    stdout: String,
    stderr: String,
    exit_code: Option<i32>,
    timed_out: bool,
    structured: Option<JsonValue>,
) -> (r: ToolResult)
    ensures
        content_views(r.content@) == run_contents(stdout@, stderr@, exit_code, timed_out),
        r.structured_content == structured,
        r.is_error == !run_succeeded(exit_code, timed_out),
{
    let success = match exit_code {
        Some(c) => c == 0,
        None => false,
    } && !timed_out;
    let mut content: Vec<ToolResultContent> = Vec::new();
    let ghost so = stdout@;
    let ghost se = stderr@;
    if !stdout.as_str().is_empty() {
        content.push(ToolResultContent::Text { text: stdout });
    }
    let ghost c1 = content_views(content@);
    assert(c1 =~= (if so.len() > 0 { seq![ContentView::Text(so)] } else { Seq::<ContentView>::empty() }));
    if !stderr.as_str().is_empty() && !success {
        content.push(ToolResultContent::Text { text: concat2("Error: ", stderr.as_str()) });
    }
    let ghost c2 = content_views(content@);
    assert(c2 =~= c1 + (if se.len() > 0 && !success { seq![ContentView::Text("Error: "@ + se)] } else { Seq::<ContentView>::empty() }));
    if timed_out {
        content.push(ToolResultContent::Text { text: String::from_str("Execution timed out") });
    }
    assert(content_views(content@) =~= c2 + (if timed_out { seq![ContentView::Text("Execution timed out"@)] } else { Seq::<ContentView>::empty() }));
    if content.len() == 0 {
        let text = if success {
            String::from_str("Command completed successfully with no output")
        } else {
            concat2("Command failed with exit code: ", exit_code_text_exec(exit_code).as_str())
        };
        content.push(ToolResultContent::Text { text });
        assert(content_views(content@) =~= seq![ContentView::Text(content@[0]->Text_text@)]);
    }
    ToolResult { content, structured_content: structured, is_error: !success }
}

/// The execution error a sandbox error becomes.
pub fn runtime_error_from_sandbox(e: SandboxError) -> (r: RuntimeError)
    ensures
        match e {
            SandboxError::Timeout(ms) => r == RuntimeError::Timeout(ms),
            SandboxError::Io(m) => r matches RuntimeError::Io(x) && x@ == m@,
            _ => r is BundledToolError,
        },
{
    match e {
        SandboxError::Timeout(ms) => RuntimeError::Timeout(ms),
        SandboxError::Io(m) => RuntimeError::Io(m),
        other => RuntimeError::BundledToolError(other.message()),
    }
}

// ---------------------------------------------------------------------------
// Traces in results
// ---------------------------------------------------------------------------

/// `m` with `key` set to `v`: the first member named `key` is replaced, or
/// the member is appended.
pub open spec fn member_set(m: Seq<(Seq<char>, Json)>, key: Seq<char>, v: Json) -> Seq<(Seq<char>, Json)>
    decreases m.len(),
{
    if m.len() == 0 {
        seq![(key, v)]
    } else if m[0].0 == key {
        m.update(0, (key, v))
    } else {
        seq![m[0]] + member_set(m.drop_first(), key, v)
    }
}

/// The structured content with a trace attached: set as `trace` in an
/// object, left alone in any other value, or a new object holding it.
pub open spec fn with_trace(s: Option<Json>, trace: Json) -> Option<Json> {
    match s {
        Some(Json::Object(m)) => Some(Json::Object(member_set(m, "trace"@, trace))),
        Some(other) => Some(other),
        None => Some(Json::Object(seq![("trace"@, trace)])),
    }
}

proof fn lemma_member_set_at(m: Seq<(Seq<char>, Json)>, key: Seq<char>, v: Json, i: int)
    requires
        0 <= i < m.len(),
        m[i].0 == key,
        forall|j: int| 0 <= j < i ==> m[j].0 != key,
    ensures
        member_set(m, key, v) == m.update(i, (key, v)),
    decreases m.len(),
{
    if i > 0 {
        lemma_member_set_at(m.drop_first(), key, v, i - 1);
        assert(seq![m[0]] + m.drop_first().update(i - 1, (key, v)) =~= m.update(i, (key, v)));
    }
}

proof fn lemma_member_set_absent(m: Seq<(Seq<char>, Json)>, key: Seq<char>, v: Json)
    requires
        forall|j: int| 0 <= j < m.len() ==> m[j].0 != key,
    ensures
        member_set(m, key, v) == m.push((key, v)),
    decreases m.len(),
{
    if m.len() > 0 {
        lemma_member_set_absent(m.drop_first(), key, v);
        assert(seq![m[0]] + m.drop_first().push((key, v)) =~= m.push((key, v)));
    }
}

fn set_member(m: &mut Vec<(String, JsonValue)>, key: &str, v: JsonValue)
    ensures
        crate::json::member_views(final(m)@) == member_set(crate::json::member_views(old(m)@), key@, v@),
{
    let ghost orig = crate::json::member_views(m@);
    let mut i: usize = 0;
    while i < m.len()
        invariant
            i <= m.len(),
            crate::json::member_views(m@) == orig,
            orig == crate::json::member_views(old(m)@),
            forall|j: int| 0 <= j < i ==> orig[j].0 != key@,
        decreases m.len() - i,
    {
        assert(orig[i as int] == (m@[i as int].0@, m@[i as int].1@));
        if str_eq(m[i].0.as_str(), key) {
            proof { lemma_member_set_at(orig, key@, v@, i as int); }
            let ghost vv = v@;
            let ghost before = m@;
            m.set(i, (String::from_str(key), v));
            assert(crate::json::member_views(m@) =~= crate::json::member_views(before).update(i as int, (key@, vv)));
            return;
        }
        i = i + 1;
    }
    proof { lemma_member_set_absent(orig, key@, v@); }
    let ghost vv = v@;
    let ghost before = m@;
    m.push((String::from_str(key), v));
    assert(crate::json::member_views(m@) =~= crate::json::member_views(before).push((key@, vv)));
}

/// Attaches an execution trace (as JSON) to a result's structured content.
pub fn attach_trace(result: ToolResult, trace: JsonValue) -> (r: ToolResult)
    ensures
        r.content@ == result.content@,
        r.is_error == result.is_error,
        match r.structured_content {
            Some(s) => with_trace(match result.structured_content {
                Some(x) => Some(x@),
                None => None,
            }, trace@) == Some(s@),
            None => false,
        },
{
    let ToolResult { content, structured_content, is_error } = result;
    let ghost tv = trace@;
    let structured = match structured_content {
        Some(JsonValue::Object(mut m)) => {
            proof { crate::json::lemma_object_view(m); }
            set_member(&mut m, "trace", trace);
            proof { crate::json::lemma_object_view(m); }
            JsonValue::Object(m)
        },
        Some(other) => other,
        None => {
            let mut m: Vec<(String, JsonValue)> = Vec::new();
            m.push((String::from_str("trace"), trace));
            proof { crate::json::lemma_object_view(m); }
            assert(crate::json::member_views(m@) =~= seq![("trace"@, tv)]);
            JsonValue::Object(m)
        },
    };
    ToolResult { content, structured_content: Some(structured), is_error }
}

// ---------------------------------------------------------------------------
// Runtime and workflows
// ---------------------------------------------------------------------------

/// The executor's settings: the sandbox bundled tools run in.
#[derive(Debug)]
pub struct Runtime {
    pub sandbox_config: SandboxConfig,
}

impl Runtime {
    /// A runtime with the default sandbox.
    pub fn new() -> (r: Runtime)
        ensures
            r.sandbox_config@ == crate::sandbox::default_config(),
    {
        Runtime { sandbox_config: SandboxConfig::default() }
    }

    /// A runtime with the given sandbox.
    pub fn with_sandbox_config(sandbox_config: SandboxConfig) -> (r: Runtime)
        ensures
            r.sandbox_config == sandbox_config,
    {
        Runtime { sandbox_config }
    }
}

/// The workflow interpreter (workflows are not interpreted yet).
#[derive(Debug)]
pub struct WorkflowEngine {}

impl WorkflowEngine {
    pub fn new() -> (r: WorkflowEngine) {
        WorkflowEngine {}
    }

    /// Runs a workflow: every workflow currently reports success without
    /// running anything.
    pub fn execute(&self, _workflow: &JsonValue, _arguments: &JsonValue) -> (r: Result<ToolResult, RuntimeError>)
        ensures
            r matches Ok(t) && content_views(t.content@) == seq![ContentView::Text("Workflow executed (placeholder)"@)]
                && t.structured_content is None && !t.is_error,
    {
        let mut content: Vec<ToolResultContent> = Vec::new();
        content.push(ToolResultContent::Text { text: String::from_str("Workflow executed (placeholder)") });
        assert(content_views(content@) =~= seq![ContentView::Text("Workflow executed (placeholder)"@)]);
        Ok(ToolResult { content, structured_content: None, is_error: false })
    }
}

} // verus!
