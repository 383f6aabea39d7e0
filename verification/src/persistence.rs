//! The registry's database rows: how a callable's kind is stored, the
//! execution history records, the statistics of the database and the cutoff
//! of history pruning.  The SQL queries themselves are the caller's.
use vstd::prelude::*;
use crate::callables::{
    BundledTool, CallableId, CallableKind, CallableRecord, CostHints, SchemaDigest, parse_risk, parse_risk_tier,
};
use crate::json::JsonValue;
use crate::text::{concat2, str_eq};

verus! {

/// Errors of the persistence layer.
#[derive(Debug)]
pub enum PersistenceError {
    /// A database error, as reported by the database driver.
    Database(String),
    /// A JSON column that could not be read or written.
    Serialization(String),
    NotFound(String),
    InvalidData(String),
}

impl PersistenceError {
    /// The error's message (`Display`).
    pub fn message(&self) -> (r: String)
        ensures
            self matches PersistenceError::Database(m) ==> r@ == "Database error: "@ + m@,
            self matches PersistenceError::Serialization(m) ==> r@ == "Serialization error: "@ + m@,
            self matches PersistenceError::NotFound(m) ==> r@ == "Not found: "@ + m@,
            self matches PersistenceError::InvalidData(m) ==> r@ == "Invalid data: "@ + m@,
    {
        match self {
            PersistenceError::Database(m) => concat2("Database error: ", m.as_str()),
            PersistenceError::Serialization(m) => concat2("Serialization error: ", m.as_str()),
            PersistenceError::NotFound(m) => concat2("Not found: ", m.as_str()),
            PersistenceError::InvalidData(m) => concat2("Invalid data: ", m.as_str()),
        }
    }
}

/// How a kind is stored in the `kind` column.
pub open spec fn kind_column_text(k: CallableKind) -> Seq<char> {
    match k {
        CallableKind::Tool => "Tool"@,
        CallableKind::Skill => "Skill"@,
    }
}

/// The `kind` column of a callable of kind `kind`.
pub fn kind_column(kind: CallableKind) -> (r: String)
    ensures
        r@ == kind_column_text(kind),
{
    match kind {
        CallableKind::Tool => String::from_str("Tool"),
        CallableKind::Skill => String::from_str("Skill"),
    }
}

/// The kind a `kind` column holds; any other text is invalid data.
pub fn parse_kind_column(s: &str) -> (r: Result<CallableKind, PersistenceError>)
    ensures
        s@ == "Tool"@ ==> r == Ok::<CallableKind, PersistenceError>(CallableKind::Tool),
        s@ == "Skill"@ ==> r == Ok::<CallableKind, PersistenceError>(CallableKind::Skill),
        s@ != "Tool"@ && s@ != "Skill"@ ==> (r matches Err(PersistenceError::InvalidData(m))
            && m@ == "Invalid kind: "@ + s@),
        r matches Ok(k) ==> kind_column_text(k) == s@,
{
    proof {
        reveal_strlit("Tool");
        reveal_strlit("Skill");
        assert("Tool"@.len() != "Skill"@.len());
    }
    if str_eq(s, "Tool") {
        Ok(CallableKind::Tool)
    } else if str_eq(s, "Skill") {
        Ok(CallableKind::Skill)
    } else {
        Err(PersistenceError::InvalidData(concat2("Invalid kind: ", s)))
    }
}

/// Reading back the `kind` column gives the kind that was stored.
pub proof fn law_kind_column_round_trip(k: CallableKind)
    ensures
        kind_column_text(k) == "Tool"@ <==> k == CallableKind::Tool,
        kind_column_text(k) == "Skill"@ <==> k == CallableKind::Skill,
{
    reveal_strlit("Tool");
    reveal_strlit("Skill");
    assert("Tool"@.len() != "Skill"@.len());
}

/// An execution of a callable, as the history table holds it; times are
/// seconds since the Unix epoch.
#[derive(Debug)]
pub struct ExecutionRecord {
    pub id: i64,
    pub execution_id: String,
    pub callable_id: String,
    pub arguments: JsonValue,
    pub result: Option<JsonValue>,
    pub is_error: bool,
    pub duration_ms: Option<u64>,
    pub started_at: i64,
    pub completed_at: Option<i64>,
    pub trace: Option<JsonValue>,
}

/// The `is_error` column of an execution.
pub fn is_error_column(is_error: bool) -> (r: i32)
    ensures
        r == (if is_error { 1i32 } else { 0i32 }),
{
    if is_error { 1 } else { 0 }
}

/// The `duration_ms` column of an execution (a duration is stored as a
/// signed 64-bit integer, bit for bit).
pub fn duration_column(duration_ms: Option<u64>) -> (r: Option<i64>)
    ensures
        match duration_ms {
            Some(d) => r == Some(d as i64),
            None => r is None,
        },
{
    match duration_ms {
        Some(d) => Some(d as i64),
        None => None,
    }
}

/// The earliest time a record can carry, -262143-01-01T00:00:00 UTC, in
/// seconds since the Unix epoch: the first day of the proleptic Gregorian
/// calendar that records are dated in.
pub const MIN_TIMESTAMP: i64 = -8334601228800i64;

/// The latest time a record can carry, +262142-12-31T23:59:59 UTC, in
/// seconds since the Unix epoch.
pub const MAX_TIMESTAMP: i64 = 8210266876799i64;

/// Whether a time in seconds is one a record can carry.
pub open spec fn timestamp_in_range(secs: int) -> bool {
    MIN_TIMESTAMP <= secs <= MAX_TIMESTAMP
}

/// An execution record from the columns of its row: its start must be a
/// time a record can carry; an end that is not one is dropped.
pub fn execution_record_from_columns(
    id: i64,
    execution_id: String,
    callable_id: String,
    arguments: JsonValue,
    result: Option<JsonValue>,
    is_error: i32,
    duration_ms: Option<i64>,
    started_at: i64,
    completed_at: Option<i64>,
    trace: Option<JsonValue>,
) -> (r: Result<ExecutionRecord, PersistenceError>)
    ensures
        !timestamp_in_range(started_at as int) ==> (r matches Err(PersistenceError::InvalidData(m)) && m@
            == "Invalid timestamp"@),
        r is Ok <==> timestamp_in_range(started_at as int),
        r matches Ok(rec) ==> {
            &&& rec.id == id
            &&& rec.execution_id == execution_id
            &&& rec.callable_id == callable_id
            &&& rec.arguments == arguments
            &&& rec.result == result
            &&& rec.is_error == (is_error != 0)
            &&& match duration_ms {
                Some(d) => rec.duration_ms == Some(d as u64),
                None => rec.duration_ms is None,
            }
            &&& rec.started_at == started_at
            &&& rec.completed_at == match completed_at {
                Some(t) => if timestamp_in_range(t as int) { Some(t) } else { None },
                None => None,
            }
            &&& rec.trace == trace
        },
{
    if started_at < MIN_TIMESTAMP || started_at > MAX_TIMESTAMP {
        return Err(PersistenceError::InvalidData(String::from_str("Invalid timestamp")));
    }
    let completed_at = match completed_at {
        Some(t) => if MIN_TIMESTAMP <= t && t <= MAX_TIMESTAMP { Some(t) } else { None },
        None => None,
    };
    Ok(ExecutionRecord {
        id,
        execution_id,
        callable_id,
        arguments,
        result,
        is_error: is_error != 0,
        duration_ms: match duration_ms {
            Some(d) => Some(d as u64),
            None => None,
        },
        started_at,
        completed_at,
        trace,
    })
}

/// A duration survives being stored and read back.
pub proof fn law_duration_round_trip(d: u64)
    ensures
        (d as i64) as u64 == d,
{
    assert((d as i64) as u64 == d) by (bit_vector);
}

/// Counts of the database's contents.
#[derive(Debug, Clone, Copy, PartialEq, Eq, Structural)]
pub struct PersistenceStats {
    pub total_callables: usize,
    pub total_tools: usize,
    pub total_skills: usize,
    pub total_executions: usize,
}

/// The statistics from the row counts the database reports.
pub fn stats_from_counts(callables: i64, tools: i64, skills: i64, executions: i64) -> (r: PersistenceStats)
    requires
        0 <= callables <= usize::MAX,
        0 <= tools <= usize::MAX,
        0 <= skills <= usize::MAX,
        0 <= executions <= usize::MAX,
    ensures
        r.total_callables == callables,
        r.total_tools == tools,
        r.total_skills == skills,
        r.total_executions == executions,
{
    PersistenceStats {
        total_callables: callables as usize,
        total_tools: tools as usize,
        total_skills: skills as usize,
        total_executions: executions as usize,
    }
}

/// The start time before which history is pruned: `older_than_days` days
/// before `now` (both in seconds).
pub fn prune_cutoff(now: i64, older_than_days: i64) -> (r: i64)
    requires
        i64::MIN <= older_than_days * 86400 <= i64::MAX,
        i64::MIN <= now - older_than_days * 86400 <= i64::MAX,
    ensures
        r == now - older_than_days * 86400,
{
    now - older_than_days * 86400
}

/// The `last_seen` column of a record: its time in whole seconds (rounded
/// down).
pub fn timestamp_column(last_seen_ms: i64) -> (r: i64)
    ensures
        r == last_seen_ms / 1000,
{
    let q = last_seen_ms / 1000;
    let rem = last_seen_ms % 1000;
    if rem < 0 {
        q - 1
    } else {
        q
    }
}

/// The columns of a `callables` row, their JSON texts decoded.
#[derive(Debug)]
pub struct CallableColumns {
    pub id: String,
    pub kind: String,
    pub fq_name: String,
    pub name: String,
    pub title: Option<String>,
    pub description: Option<String>,
    pub tags: Vec<String>,
    pub input_schema: JsonValue,
    pub output_schema: Option<JsonValue>,
    pub schema_digest: String,
    pub server_alias: Option<String>,
    pub upstream_tool_name: Option<String>,
    pub skill_version: Option<String>,
    pub uses: Vec<String>,
    pub skill_directory: Option<String>,
    pub bundled_tools: Vec<BundledTool>,
    pub additional_files: Vec<String>,
    pub cost_hints: CostHints,
    pub risk_tier: String,
    /// Seconds since the Unix epoch.
    pub last_seen: i64,
}

/// The identifiers a `uses_tools` column lists.
fn ids_of(uses: Vec<String>) -> (r: Vec<CallableId>)
    ensures
        r@.len() == uses@.len(),
        forall|i: int| 0 <= i < uses@.len() ==> (#[trigger] r@[i])@ == uses@[i]@,
{
    let mut out: Vec<CallableId> = Vec::new();
    let mut i: usize = 0;
    while i < uses.len()
        invariant
            i <= uses.len(),
            out@.len() == i,
            forall|k: int| 0 <= k < i ==> (#[trigger] out@[k])@ == uses@[k]@,
        decreases uses.len() - i,
    {
        out.push(CallableId::from_text(uses[i].as_str()));
        i = i + 1;
    }
    out
}

/// The record a `callables` row holds: its kind must be `Tool` or `Skill`,
/// its risk tier a known tier, and its time (in seconds) a time a record
/// can carry.
pub fn record_from_columns(c: CallableColumns) -> (r: Result<CallableRecord, PersistenceError>)
    ensures
        s_kind_invalid(c.kind@) ==> (r matches Err(PersistenceError::InvalidData(m)) && m@ == "Invalid kind: "@
            + c.kind@),
        !s_kind_invalid(c.kind@) && parse_risk(c.risk_tier@) is None ==> (r matches Err(
            PersistenceError::InvalidData(m),
        ) && m@ == "Invalid risk tier: "@ + c.risk_tier@),
        !s_kind_invalid(c.kind@) && parse_risk(c.risk_tier@) is Some && !timestamp_in_range(c.last_seen as int)
            ==> (r matches Err(PersistenceError::InvalidData(m)) && m@ == "Invalid timestamp"@),
        r matches Ok(rec) ==> {
            &&& kind_column_text(rec.kind) == c.kind@
            &&& rec.id@ == c.id@
            &&& rec.fq_name == c.fq_name
            &&& rec.name == c.name
            &&& rec.title == c.title
            &&& rec.description == c.description
            &&& rec.tags == c.tags
            &&& rec.input_schema == c.input_schema
            &&& rec.output_schema == c.output_schema
            &&& rec.schema_digest@ == c.schema_digest@
            &&& rec.server_alias == c.server_alias
            &&& rec.upstream_tool_name == c.upstream_tool_name
            &&& rec.skill_version == c.skill_version
            &&& rec.uses@.len() == c.uses@.len()
            &&& (forall|i: int| 0 <= i < c.uses@.len() ==> (#[trigger] rec.uses@[i])@ == c.uses@[i]@)
            &&& rec.skill_directory == c.skill_directory
            &&& rec.bundled_tools == c.bundled_tools
            &&& rec.additional_files == c.additional_files
            &&& rec.cost_hints == c.cost_hints
            &&& parse_risk(c.risk_tier@) == Some(rec.risk_tier)
            &&& rec.last_seen_ms == c.last_seen * 1000
        },
        r is Ok <==> (!s_kind_invalid(c.kind@) && parse_risk(c.risk_tier@) is Some && timestamp_in_range(
            c.last_seen as int,
        )),
{
    let kind = match parse_kind_column(c.kind.as_str()) {
        Ok(k) => k,
        Err(e) => {
            return Err(e);
        },
    };
    let risk_tier = match parse_risk_tier(c.risk_tier.as_str()) {
        Ok(t) => t,
        Err(e) => {
            return Err(PersistenceError::InvalidData(e.message()));
        },
    };
    if c.last_seen < MIN_TIMESTAMP || c.last_seen > MAX_TIMESTAMP {
        return Err(PersistenceError::InvalidData(String::from_str("Invalid timestamp")));
    }
    let last_seen_ms = c.last_seen * 1000;
    Ok(CallableRecord {
        id: CallableId::from_text(c.id.as_str()),
        kind,
        fq_name: c.fq_name,
        name: c.name,
        title: c.title,
        description: c.description,
        tags: c.tags,
        input_schema: c.input_schema,
        output_schema: c.output_schema,
        schema_digest: SchemaDigest::from_text(c.schema_digest.as_str()),
        server_alias: c.server_alias,
        upstream_tool_name: c.upstream_tool_name,
        skill_version: c.skill_version,
        uses: ids_of(c.uses),
        skill_directory: c.skill_directory,
        bundled_tools: c.bundled_tools,
        additional_files: c.additional_files,
        cost_hints: c.cost_hints,
        risk_tier,
        last_seen_ms,
    })
}

/// Whether a `kind` column holds neither `Tool` nor `Skill`.
pub open spec fn s_kind_invalid(s: Seq<char>) -> bool {
    s != "Tool"@ && s != "Skill"@
}

} // verus!
