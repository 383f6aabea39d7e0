//! Skill store logic: skill manifests and contents, validation of names,
//! files, schemas and whole skills, the SKILL.md frame, and the callable
//! record a skill is registered under.  Reading and writing the skill
//! directories is the caller's.
use vstd::prelude::*;
use vstd::string::StringSliceAdditionalSpecFns;
use crate::callables::{
    BundledTool, CallableId, CallableKind, CallableRecord, CostHints, RiskTier, SchemaDigest,
    parse_risk, parse_risk_tier, skill_id_text,
};
use crate::json::{Json, JsonValue};
use crate::text::{
    byte_len, char_is_whitespace, chars_of, concat2, contains_sub, decimal, ends_with, first_occurrence, seq_contains,
    seq_ends_with, seq_find, seq_has_char, seq_starts_with, starts_with, str_eq, sub_chars,
    string_of, trim, trim_chars, trim_str, u64_to_string, vec_has_str, views, lemma_has_str_views,
    lemma_views_push,
};

verus! {

/// Byte length of a string slice (`str::len`).
pub(crate) fn str_bytes(s: &str) -> (r: usize)
    ensures
        r == byte_len(s@),
{
    proof { assert(s.spec_bytes() == vstd::utf8::encode_utf8(s@)); }
    s.as_bytes().len()
}

// ---------------------------------------------------------------------------
// Errors
// ---------------------------------------------------------------------------

/// Errors of the skill store.
#[derive(Debug)]
pub enum SkillStoreError {
    Io(String),
    Parse(String),
    InvalidManifest(String),
    NotFound(String),
    FileNotFound(String),
    AlreadyExists(String),
    ValidationError(String),
    CircularDependency(String),
    MissingDependency(String),
    AgentSkills(crate::agent_skills::AgentSkillsError),
}

impl SkillStoreError {
    /// The error's message (`Display`).
    pub fn message(&self) -> (r: String)
        ensures
            self matches SkillStoreError::Io(m) ==> r@ == "IO error: "@ + m@,
            self matches SkillStoreError::Parse(m) ==> r@ == "Parse error: "@ + m@,
            self matches SkillStoreError::InvalidManifest(m) ==> r@ == "Invalid skill manifest: "@ + m@,
            self matches SkillStoreError::NotFound(m) ==> r@ == "Skill not found: "@ + m@,
            self matches SkillStoreError::FileNotFound(m) ==> r@ == "File not found: "@ + m@,
            self matches SkillStoreError::AlreadyExists(m) ==> r@ == "Skill already exists: "@ + m@,
            self matches SkillStoreError::ValidationError(m) ==> r@ == "Validation error: "@ + m@,
            self matches SkillStoreError::CircularDependency(m) ==> r@ == "Circular dependency detected: "@ + m@,
            self matches SkillStoreError::MissingDependency(m) ==> r@ == "Missing dependency: "@ + m@,
    {
        match self {
            SkillStoreError::Io(m) => concat2("IO error: ", m.as_str()),
            SkillStoreError::Parse(m) => concat2("Parse error: ", m.as_str()),
            SkillStoreError::InvalidManifest(m) => concat2("Invalid skill manifest: ", m.as_str()),
            SkillStoreError::NotFound(m) => concat2("Skill not found: ", m.as_str()),
            SkillStoreError::FileNotFound(m) => concat2("File not found: ", m.as_str()),
            SkillStoreError::AlreadyExists(m) => concat2("Skill already exists: ", m.as_str()),
            SkillStoreError::ValidationError(m) => concat2("Validation error: ", m.as_str()),
            SkillStoreError::CircularDependency(m) => concat2("Circular dependency detected: ", m.as_str()),
            SkillStoreError::MissingDependency(m) => concat2("Missing dependency: ", m.as_str()),
            SkillStoreError::AgentSkills(e) => {
                let inner = e.message();
                concat2("Agent Skills error: ", inner.as_str())
            },
        }
    }
}

// ---------------------------------------------------------------------------
// Skills
// ---------------------------------------------------------------------------

/// How a skill runs.
#[derive(Debug, Clone, Copy, PartialEq, Eq, Structural)]
pub enum EntrypointType {
    Workflow,
    Script,
    Prompted,
}

/// Which tools a skill may use.
#[derive(Debug)]
pub struct ToolPolicy {
    /// Allowed tools (patterns, tags or identifiers).
    pub allow: Vec<String>,
    pub deny: Vec<String>,
    /// Required capabilities.
    pub required: Vec<String>,
}

/// Hints for indexing and ranking.
#[derive(Debug)]
pub struct SkillHints {
    pub intent: Vec<String>,
    pub domain: Vec<String>,
    pub outcomes: Vec<String>,
    pub expected_calls: Option<u32>,
}

/// A skill manifest (from the SKILL.md frontmatter).
#[derive(Debug)]
pub struct SkillManifest {
    /// Unique skill identifier (slug).
    pub id: String,
    pub title: String,
    /// Semantic version.
    pub version: String,
    pub description: String,
    /// Input schema (JSON Schema).
    pub inputs: JsonValue,
    pub outputs: Option<JsonValue>,
    pub entrypoint: EntrypointType,
    pub tool_policy: ToolPolicy,
    pub hints: SkillHints,
    /// Risk tier override.
    pub risk_tier: Option<String>,
}

/// A skill loaded from its directory.
#[derive(Debug)]
pub struct Skill {
    pub manifest: SkillManifest,
    pub path: String,
    pub documentation: Option<String>,
}

/// What a skill discloses on demand.
#[derive(Debug)]
pub struct SkillContent {
    pub skill_md: String,
    pub additional_files: Vec<String>,
    pub bundled_tools: Vec<BundledTool>,
    pub uses_tools: Vec<String>,
}

/// A request to create or update a skill.
#[derive(Debug)]
pub struct CreateSkillRequest {
    pub name: String,
    pub version: String,
    pub description: String,
    pub skill_md_content: String,
    pub uses_tools: Vec<String>,
    /// Scripts for `scripts/`, as (file name, content).
    pub scripts: Vec<(String, String)>,
    /// Reference files for `references/`.
    pub references: Vec<(String, String)>,
    /// Asset files for `assets/`.
    pub assets: Vec<(String, String)>,
    pub tags: Vec<String>,
}

// ---------------------------------------------------------------------------
// Validation results
// ---------------------------------------------------------------------------

/// The outcome of validating a skill: valid exactly when no error was
/// found.
#[derive(Debug)]
pub struct ValidationResult {
    pub valid: bool,
    pub errors: Vec<String>,
    pub warnings: Vec<String>,
}

impl ValidationResult {
    /// A result with no errors and no warnings.
    pub fn success() -> (r: ValidationResult)
        ensures
            r.valid,
            r.errors@.len() == 0,
            r.warnings@.len() == 0,
    {
        ValidationResult { valid: true, errors: Vec::new(), warnings: Vec::new() }
    }

    /// A result with one error.
    pub fn with_error(error: String) -> (r: ValidationResult)
        ensures
            !r.valid,
            views(r.errors@) == seq![error@],
            r.warnings@.len() == 0,
    {
        let mut errors = Vec::new();
        errors.push(error);
        let r = ValidationResult { valid: false, errors, warnings: Vec::new() };
        assert(views(r.errors@) =~= seq![r.errors@[0]@]);
        r
    }

    /// Records an error; the result is then invalid.
    pub fn add_error(&mut self, error: String)
        ensures
            !final(self).valid,
            views(final(self).errors@) == views(old(self).errors@).push(error@),
            final(self).warnings@ == old(self).warnings@,
    {
        let ghost before = self.errors@;
        self.errors.push(error);
        proof { lemma_views_push(before, self.errors@.last()); }
        self.valid = false;
    }

    /// Records a warning; validity is unchanged.
    pub fn add_warning(&mut self, warning: String)
        ensures
            final(self).valid == old(self).valid,
            views(final(self).warnings@) == views(old(self).warnings@).push(warning@),
            final(self).errors@ == old(self).errors@,
    {
        let ghost before = self.warnings@;
        self.warnings.push(warning);
        proof { lemma_views_push(before, self.warnings@.last()); }
    }
}

/// Adding an error makes any result invalid, and adding warnings never
/// does: a result built from `success` by these calls is valid exactly
/// when it holds no error.
pub proof fn law_valid_iff_no_errors(r: ValidationResult)
    requires
        r.valid == (r.errors@.len() == 0),
    ensures
        r.valid <==> r.errors@.len() == 0,
{
}

// ---------------------------------------------------------------------------
// Names and files
// ---------------------------------------------------------------------------

/// Whether `c` is an ASCII lowercase letter.
pub open spec fn is_lower(c: char) -> bool {
    'a' <= c <= 'z'
}

/// Whether `c` may appear in a skill identifier.
pub open spec fn is_slug_char(c: char) -> bool {
    is_lower(c) || ('0' <= c <= '9') || c == '-'
}

/// Whether every character may appear in a skill identifier.
pub open spec fn all_slug_chars(s: Seq<char>) -> bool {
    forall|i: int| 0 <= i < s.len() ==> is_slug_char(#[trigger] s[i])
}

/// Whether a text is a valid skill identifier: 1 to 100 bytes, starting
/// with a lowercase letter, made of lowercase letters, digits and hyphens.
pub open spec fn valid_skill_id(id: Seq<char>) -> bool {
    &&& id.len() > 0
    &&& byte_len(id) <= 100
    &&& is_lower(id[0])
    &&& all_slug_chars(id)
}

fn all_slug_chars_exec(s: &[char]) -> (r: bool)
    ensures
        r == all_slug_chars(s@),
{
    let mut i: usize = 0;
    while i < s.len()
        invariant
            i <= s.len(),
            forall|j: int| 0 <= j < i ==> is_slug_char(#[trigger] s@[j]),
        decreases s.len() - i,
    {
        let c = s[i];
        if !(('a' <= c && c <= 'z') || ('0' <= c && c <= '9') || c == '-') {
            assert(!is_slug_char(s@[i as int]));
            return false;
        }
        i = i + 1;
    }
    true
}

/// Whether a text is a valid skill identifier.
pub fn is_valid_skill_id(id: &str) -> (r: bool)
    ensures
        r == valid_skill_id(id@),
{
    let n = str_bytes(id);
    let c = chars_of(id);
    if c.len() == 0 || n > 100 {
        return false;
    }
    let first = c[0];
    if !('a' <= first && first <= 'z') {
        return false;
    }
    all_slug_chars_exec(c.as_slice())
}

/// The error a skill name is refused with, if any.
pub open spec fn skill_name_error(name: Seq<char>) -> Option<Seq<char>> {
    if name.len() == 0 {
        Some("Skill name cannot be empty"@)
    } else if name.contains('/') || name.contains('\\') || contains_sub(name, ".."@) {
        Some("Invalid skill name: "@ + name)
    } else if byte_len(name) > 100 {
        Some("Skill name too long (max 100 characters)"@)
    } else {
        None
    }
}

/// Checks a skill name for creation: not empty, no path separators or
/// `..`, at most 100 bytes.
pub fn validate_skill_name(name: &str) -> (r: Result<(), SkillStoreError>)
    ensures
        match skill_name_error(name@) {
            Some(m) => r matches Err(SkillStoreError::ValidationError(x)) && x@ == m,
            None => r is Ok,
        },
{
    let c = chars_of(name);
    if c.len() == 0 {
        return Err(SkillStoreError::ValidationError(String::from_str("Skill name cannot be empty")));
    }
    let dots = chars_of("..");
    if seq_has_char(c.as_slice(), '/') || seq_has_char(c.as_slice(), '\\') || seq_contains(c.as_slice(), dots.as_slice()) {
        return Err(SkillStoreError::ValidationError(concat2("Invalid skill name: ", name)));
    }
    if str_bytes(name) > 100 {
        return Err(SkillStoreError::ValidationError(String::from_str("Skill name too long (max 100 characters)")));
    }
    Ok(())
}

/// Whether a file name could leave its directory.
pub open spec fn unsafe_file_name(f: Seq<char>) -> bool {
    contains_sub(f, ".."@) || f.contains('/') || f.contains('\\')
}

/// The first file whose name could leave its directory.
pub open spec fn first_unsafe_file(files: Seq<(Seq<char>, Seq<char>)>) -> Option<Seq<char>>
    decreases files.len(),
{
    if files.len() == 0 {
        None
    } else if unsafe_file_name(files[0].0) {
        Some(files[0].0)
    } else {
        first_unsafe_file(files.drop_first())
    }
}

/// Checks that no file name holds `..`, `/` or `\`.
pub fn validate_filenames(files: &Vec<(String, String)>, kind: &str) -> (r: Result<(), SkillStoreError>)
    ensures
        match first_unsafe_file(crate::sandbox::pair_views(files@)) {
            Some(f) => r matches Err(SkillStoreError::ValidationError(x)) && x@ == "Invalid "@ + kind@
                + " filename: "@ + f,
            None => r is Ok,
        },
{
    let ghost fs = crate::sandbox::pair_views(files@);
    assert(fs.skip(0) =~= fs);
    let dots = chars_of("..");
    let mut i: usize = 0;
    while i < files.len()
        invariant
            i <= files.len(),
            fs == crate::sandbox::pair_views(files@),
            dots@ == ".."@,
            first_unsafe_file(fs) == first_unsafe_file(fs.skip(i as int)),
        decreases files.len() - i,
    {
        assert(fs.skip(i as int)[0] == (files@[i as int].0@, files@[i as int].1@));
        assert(fs.skip(i as int).drop_first() =~= fs.skip(i as int + 1));
        let f = chars_of(files[i].0.as_str());
        if seq_contains(f.as_slice(), dots.as_slice()) || seq_has_char(f.as_slice(), '/') || seq_has_char(f.as_slice(), '\\') {
            let mut m = String::from_str("Invalid ");
            m.append(kind);
            m.append(" filename: ");
            m.append(files[i].0.as_str());
            return Err(SkillStoreError::ValidationError(m));
        }
        i = i + 1;
    }
    assert(fs.skip(i as int) =~= Seq::<(Seq<char>, Seq<char>)>::empty());
    Ok(())
}

/// The error a requested skill file name is refused with, if any.
pub open spec fn skill_file_error(f: Seq<char>) -> Option<Seq<char>> {
    if starts_with(f, "/"@) || starts_with(f, "\\"@) {
        Some("Absolute paths not allowed: "@ + f)
    } else if contains_sub(f, ".."@) {
        Some("Path traversal not allowed: "@ + f)
    } else {
        None
    }
}

/// Checks a file name requested from a skill: not absolute, no `..`.
pub fn check_skill_file_name(filename: &str) -> (r: Result<(), SkillStoreError>)
    ensures
        match skill_file_error(filename@) {
            Some(m) => r matches Err(SkillStoreError::InvalidManifest(x)) && x@ == m,
            None => r is Ok,
        },
{
    let f = chars_of(filename);
    let slash = chars_of("/");
    let back = chars_of("\\");
    let dots = chars_of("..");
    if seq_starts_with(f.as_slice(), slash.as_slice()) || seq_starts_with(f.as_slice(), back.as_slice()) {
        return Err(SkillStoreError::InvalidManifest(concat2("Absolute paths not allowed: ", filename)));
    }
    if seq_contains(f.as_slice(), dots.as_slice()) {
        return Err(SkillStoreError::InvalidManifest(concat2("Path traversal not allowed: ", filename)));
    }
    Ok(())
}

// ---------------------------------------------------------------------------
// SKILL.md
// ---------------------------------------------------------------------------

/// The frontmatter and the body of a SKILL.md text, as the store reads
/// them for updates: without an opening `---` line or a closing `\n---\n`
/// there is no frontmatter and the body is the whole text.
pub open spec fn yaml_frontmatter_split(c: Seq<char>) -> (Seq<char>, Seq<char>) {
    if !starts_with(c, "---\n"@) {
        (Seq::empty(), c)
    } else {
        let after = c.skip(4);
        match first_occurrence(after, "\n---\n"@) {
            None => (Seq::empty(), c),
            Some(e) => {
                let start = 4 + e + 5;
                (after.take(e), if start < c.len() { trim(c.skip(start)) } else { Seq::empty() })
            },
        }
    }
}

/// Splits a SKILL.md text into its frontmatter and its trimmed body.
pub fn parse_yaml_frontmatter(content: &str) -> (r: Result<(String, String), SkillStoreError>)
    ensures
        r matches Ok(p) && p.0@ == yaml_frontmatter_split(content@).0 && p.1@ == yaml_frontmatter_split(content@).1,
{
    proof {
        reveal_strlit("---\n");
        reveal_strlit("\n---\n");
    }
    let c = chars_of(content);
    let open = chars_of("---\n");
    if !seq_starts_with(c.as_slice(), open.as_slice()) {
        return Ok((String::new(), String::from_str(content)));
    }
    let after = sub_chars(c.as_slice(), 4, c.len());
    assert(after@ =~= content@.skip(4));
    let close = chars_of("\n---\n");
    match seq_find(after.as_slice(), close.as_slice()) {
        None => Ok((String::new(), String::from_str(content))),
        Some(e) => {
            let fm = sub_chars(after.as_slice(), 0, e);
            assert(fm@ =~= after@.take(e as int));
            let start = 4 + e + 5;
            let body = if start < c.len() {
                let rest = sub_chars(c.as_slice(), start, c.len());
                assert(rest@ =~= content@.skip(start as int));
                let t = trim_chars(rest.as_slice());
                string_of(t.as_slice())
            } else {
                String::new()
            };
            Ok((string_of(fm.as_slice()), body))
        },
    }
}

/// The body a SKILL.md text contributes: with a frontmatter, the body
/// after it; otherwise the trimmed text.
pub open spec fn normalized_body(c: Seq<char>) -> Seq<char> {
    if starts_with(c, "---\n"@) {
        yaml_frontmatter_split(c).1
    } else {
        trim(c)
    }
}

/// The body of a SKILL.md text.
pub fn normalize_skill_body(content: &str) -> (r: String)
    ensures
        r@ == normalized_body(content@),
{
    proof { reveal_strlit("---\n"); }
    let c = chars_of(content);
    let open = chars_of("---\n");
    if seq_starts_with(c.as_slice(), open.as_slice()) {
        match parse_yaml_frontmatter(content) {
            Ok((_, body)) => {
                return body;
            },
            Err(_) => {},
        }
    }
    trim_str(content)
}

/// `s` without a leading `"---\n"`.
pub open spec fn strip_document_start(s: Seq<char>) -> Seq<char> {
    if starts_with(s, "---\n"@) { s.skip(4) } else { s }
}

/// The SKILL.md text of a serialized frontmatter and a body.
pub open spec fn skill_md_text(yaml: Seq<char>, body: Seq<char>) -> Seq<char> {
    "---\n"@ + strip_document_start(yaml) + "---\n\n"@ + trim(body)
}

/// Frames a serialized YAML frontmatter and a body into a SKILL.md text.
pub fn frame_skill_md(yaml: &str, body_content: &str) -> (r: String)
    ensures
        r@ == skill_md_text(yaml@, body_content@),
{
    proof { reveal_strlit("---\n"); }
    let y = chars_of(yaml);
    let open = chars_of("---\n");
    let front = if seq_starts_with(y.as_slice(), open.as_slice()) {
        let rest = sub_chars(y.as_slice(), 4, y.len());
        assert(rest@ =~= yaml@.skip(4));
        string_of(rest.as_slice())
    } else {
        String::from_str(yaml)
    };
    let body = trim_str(body_content);
    let mut s = String::from_str("---\n");
    s.append(front.as_str());
    s.append("---\n\n");
    s.append(body.as_str());
    s
}

/// The first problem among a request's file names: scripts, then
/// references, then assets.
pub open spec fn request_files_error(r: CreateSkillRequest) -> Option<Seq<char>> {
    match first_unsafe_file(crate::sandbox::pair_views(r.scripts@)) {
        Some(f) => Some("Invalid script filename: "@ + f),
        None => match first_unsafe_file(crate::sandbox::pair_views(r.references@)) {
            Some(f) => Some("Invalid reference filename: "@ + f),
            None => match first_unsafe_file(crate::sandbox::pair_views(r.assets@)) {
                Some(f) => Some("Invalid asset filename: "@ + f),
                None => None,
            },
        },
    }
}

/// Checks the file names of a request, in order.
fn check_request_files(request: &CreateSkillRequest) -> (r: Result<(), SkillStoreError>)
    ensures
        match request_files_error(*request) {
            Some(m) => r matches Err(SkillStoreError::ValidationError(x)) && x@ == m,
            None => r is Ok,
        },
{
    proof {
        reveal_strlit("Invalid ");
        reveal_strlit(" filename: ");
        reveal_strlit("script");
        reveal_strlit("reference");
        reveal_strlit("asset");
        reveal_strlit("Invalid script filename: ");
        reveal_strlit("Invalid reference filename: ");
        reveal_strlit("Invalid asset filename: ");
        assert("Invalid "@ + "script"@ + " filename: "@ =~= "Invalid script filename: "@);
        assert("Invalid "@ + "reference"@ + " filename: "@ =~= "Invalid reference filename: "@);
        assert("Invalid "@ + "asset"@ + " filename: "@ =~= "Invalid asset filename: "@);
    }
    match validate_filenames(&request.scripts, "script") {
        Err(e) => {
            return Err(e);
        },
        Ok(()) => {},
    }
    match validate_filenames(&request.references, "reference") {
        Err(e) => {
            return Err(e);
        },
        Ok(()) => {},
    }
    validate_filenames(&request.assets, "asset")
}

/// What creating a skill decides before anything is written: the name
/// must be valid and not taken (`exists` tells whether its directory is
/// there), every file name safe; the answer is the SKILL.md body.
pub fn plan_create_skill(request: &CreateSkillRequest, exists: bool) -> (r: Result<String, SkillStoreError>)
    ensures
        match skill_name_error(request.name@) {
            Some(m) => r matches Err(SkillStoreError::ValidationError(x)) && x@ == m,
            None => if exists {
                r matches Err(SkillStoreError::AlreadyExists(x)) && x@ == request.name@
            } else {
                match request_files_error(*request) {
                    Some(m) => r matches Err(SkillStoreError::ValidationError(x)) && x@ == m,
                    None => r matches Ok(b) && b@ == normalized_body(request.skill_md_content@),
                }
            },
        },
{
    match validate_skill_name(request.name.as_str()) {
        Err(e) => {
            return Err(e);
        },
        Ok(()) => {},
    }
    if exists {
        return Err(SkillStoreError::AlreadyExists(request.name.clone()));
    }
    match check_request_files(request) {
        Err(e) => {
            return Err(e);
        },
        Ok(()) => {},
    }
    Ok(normalize_skill_body(request.skill_md_content.as_str()))
}

/// The body of an existing SKILL.md: after its frontmatter when it has
/// one, else the whole text.
pub open spec fn existing_body(c: Seq<char>) -> Seq<char> {
    if starts_with(c, "---\n"@) {
        yaml_frontmatter_split(c).1
    } else {
        c
    }
}

/// What updating a skill decides before anything is written (`existing`
/// is the current SKILL.md, empty when there is none): the new content,
/// normalized, when the request has some, else the existing body; every
/// file name must be safe.
pub fn plan_update_skill(request: &CreateSkillRequest, existing: &str) -> (r: Result<String, SkillStoreError>)
    ensures
        match request_files_error(*request) {
            Some(m) => r matches Err(SkillStoreError::ValidationError(x)) && x@ == m,
            None => r matches Ok(b) && b@ == (if request.skill_md_content@.len() == 0 {
                existing_body(existing@)
            } else {
                normalized_body(request.skill_md_content@)
            }),
        },
{
    proof { reveal_strlit("---\n"); }
    let body = if request.skill_md_content.as_str().is_empty() {
        let c = chars_of(existing);
        if seq_starts_with(c.as_slice(), chars_of("---\n").as_slice()) {
            match parse_yaml_frontmatter(existing) {
                Ok((_, b)) => b,
                Err(_) => String::from_str(existing),
            }
        } else {
            String::from_str(existing)
        }
    } else {
        normalize_skill_body(request.skill_md_content.as_str())
    };
    match check_request_files(request) {
        Err(e) => {
            return Err(e);
        },
        Ok(()) => {},
    }
    Ok(body)
}

/// An update without new content keeps the body a created skill was
/// written with.
pub proof fn law_update_keeps_body(yaml: Seq<char>, body: Seq<char>)
    requires
        strip_document_start(yaml).len() > 0,
        strip_document_start(yaml).last() == '\n',
        !contains_sub(strip_document_start(yaml), "\n---\n"@),
    ensures
        existing_body(skill_md_text(yaml, body)) == trim(body),
{
    reveal_strlit("---\n");
    law_skill_md_round_trip(yaml, body);
    let c = skill_md_text(yaml, body);
    assert(c.subrange(0, 4) =~= "---\n"@);
}

/// In a YAML text ending with a line break and holding no `---` line,
/// followed by a `---` line, that line is where `"\n---\n"` first occurs.
#[verifier::rlimit(50)]
proof fn lemma_frame_separator(y: Seq<char>, tail: Seq<char>)
    requires
        y.len() > 0,
        y.last() == '\n',
        !contains_sub(y, "\n---\n"@),
        tail.len() >= 4,
        tail.subrange(0, 4) == "---\n"@,
    ensures
        first_occurrence(y + tail, "\n---\n"@) == Some(y.len() - 1),
{
    reveal_strlit("---\n");
    reveal_strlit("\n---\n");
    let p = "\n---\n"@;
    let n = y.len() as int;
    let after = y + tail;
    assert(p =~= seq!['\n', '-', '-', '-', '\n']);
    assert("---\n"@ =~= seq!['-', '-', '-', '\n']);
    assert(tail[0] == tail.subrange(0, 4)[0]);
    assert(tail[1] == tail.subrange(0, 4)[1]);
    assert(tail[2] == tail.subrange(0, 4)[2]);
    assert(tail[3] == tail.subrange(0, 4)[3]);
    assert(after[n - 1] == y[n - 1]);
    assert(after[n] == tail[0] && after[n + 1] == tail[1] && after[n + 2] == tail[2] && after[n + 3] == tail[3]);
    assert(after.subrange(n - 1, n + 4) =~= p);
    assert forall|j: int| 0 <= j < n - 1 implies !crate::text::occurs_at(after, p, j) by {
        lemma_no_separator_before(y, tail, j);
    }
    crate::callables::lemma_first_occurrence_at(after, p, n - 1);
}

/// In the same text, `"\n---\n"` starts at no position before the last
/// line break of the YAML.
proof fn lemma_no_separator_before(y: Seq<char>, tail: Seq<char>, j: int)
    requires
        y.len() > 0,
        y.last() == '\n',
        !contains_sub(y, "\n---\n"@),
        0 <= j < y.len() - 1,
    ensures
        !crate::text::occurs_at(y + tail, "\n---\n"@, j),
{
    reveal_strlit("\n---\n");
    let p = "\n---\n"@;
    let n = y.len() as int;
    let after = y + tail;
    assert(p =~= seq!['\n', '-', '-', '-', '\n']);
    if crate::text::occurs_at(after, p, j) {
        if j + 5 <= n {
            assert(y.subrange(j, j + 5) =~= after.subrange(j, j + 5));
            assert(crate::text::occurs_at(y, p, j));
        } else {
            let k = n - 1 - j;
            assert(1 <= k < 4);
            assert(after.subrange(j, j + 5)[k] == after[n - 1]);
            assert(after[n - 1] == y[n - 1]);
            assert(p[k] == '-');
        }
    }
}

/// A skill created from a request reads back, when its SKILL.md is loaded
/// and split, as the YAML it was framed with (without its final line
/// break) and the body creation decided, trimmed as it was written; when
/// the YAML ends with a line break, has no `---` line, and the text holds
/// no CRLF.
pub proof fn law_created_skill_reads_back(yaml: Seq<char>, content: Seq<char>)
    requires
        strip_document_start(yaml).len() > 0,
        strip_document_start(yaml).last() == '\n',
        !contains_sub(strip_document_start(yaml), "\n---\n"@),
        crate::agent_skills::no_crlf(skill_md_text(yaml, normalized_body(content))),
    ensures
        crate::agent_skills::frontmatter_split(skill_md_text(yaml, normalized_body(content))) == Ok::<
            (Seq<char>, Seq<char>),
            Seq<char>,
        >((strip_document_start(yaml).drop_last(), trim(normalized_body(content)))),
{
    reveal_strlit("---\n");
    reveal_strlit("---\n\n");
    let b = normalized_body(content);
    let t = skill_md_text(yaml, b);
    crate::agent_skills::lemma_no_crlf_unchanged(t);
    law_skill_md_round_trip(yaml, b);
    let tail = "---\n\n"@ + trim(b);
    assert(tail.subrange(0, 4) =~= "---\n"@);
    assert(t.skip(4) =~= strip_document_start(yaml) + tail);
    lemma_frame_separator(strip_document_start(yaml), tail);
    assert(t.subrange(0, 4) =~= "---\n"@);
    assert(t.len() > trim(b).len());
    assert(t =~= "---\n"@ + strip_document_start(yaml) + "---\n\n"@ + trim(b));
}

/// A SKILL.md framed from a YAML text and a body reads back as that YAML
/// (without its final line break) and the trimmed body, when the YAML ends
/// with a line break and has no `---` line.
pub proof fn law_skill_md_round_trip(yaml: Seq<char>, body: Seq<char>)
    requires
        strip_document_start(yaml).len() > 0,
        strip_document_start(yaml).last() == '\n',
        !contains_sub(strip_document_start(yaml), "\n---\n"@),
    ensures
        yaml_frontmatter_split(skill_md_text(yaml, body)) == (strip_document_start(yaml).drop_last(), trim(body)),
        normalized_body(skill_md_text(yaml, body)) == trim(body),
{
    reveal_strlit("---\n");
    reveal_strlit("---\n\n");
    reveal_strlit("\n---\n");
    let y = strip_document_start(yaml);
    let tb = trim(body);
    let c = skill_md_text(yaml, body);
    let p = "\n---\n"@;
    let n = y.len() as int;
    assert(c =~= "---\n"@ + y + "---\n\n"@ + tb);
    assert(c.subrange(0, 4) =~= "---\n"@);
    let after = c.skip(4);
    assert(after =~= y + "---\n\n"@ + tb);
    assert(after.subrange(n - 1, n + 4) =~= p);
    assert forall|j: int| 0 <= j < n - 1 implies !crate::text::occurs_at(after, p, j) by {
        if crate::text::occurs_at(after, p, j) {
            if j + 5 <= n {
                assert(y.subrange(j, j + 5) =~= after.subrange(j, j + 5));
                assert(crate::text::occurs_at(y, p, j));
            } else {
                assert(after.subrange(j, j + 5)[n - 1 - j] == after[n - 1]);
                assert(after[n - 1] == '\n');
            }
        }
    }
    crate::callables::lemma_first_occurrence_at(after, p, n - 1);
    assert(after.take(n - 1) =~= y.drop_last());
    let start = 4 + (n - 1) + 5;
    assert(c.skip(start) =~= seq!['\n'] + tb);
    assert(char_is_whitespace('\n'));
    crate::text::lemma_trim_ws_then_trimmed('\n', body);
}

// ---------------------------------------------------------------------------
// JSON schemas
// ---------------------------------------------------------------------------

/// The schema types JSON Schema knows.
pub open spec fn known_schema_type(t: Seq<char>) -> bool {
    t == "object"@ || t == "array"@ || t == "string"@ || t == "number"@ || t == "integer"@
        || t == "boolean"@ || t == "null"@
}

/// The error a schema is refused with, if any: it must be an object with a
/// `type` member, and a textual type must be a known one.
pub open spec fn schema_error(s: Json) -> Option<Seq<char>> {
    if !(s is Object) {
        Some("Schema must be an object"@)
    } else if s.get("type"@) is None {
        Some("Schema must have 'type' field"@)
    } else {
        match s.get_str("type"@) {
            Some(t) => if known_schema_type(t) { None } else { Some("Invalid schema type: "@ + t) },
            None => None,
        }
    }
}

/// Checks the basic shape of a JSON Schema.
pub fn validate_json_schema(schema: &JsonValue) -> (r: Result<(), SkillStoreError>)
    ensures
        match schema_error(schema@) {
            Some(m) => r matches Err(SkillStoreError::ValidationError(x)) && x@ == m,
            None => r is Ok,
        },
{
    if !schema.is_object() {
        return Err(SkillStoreError::ValidationError(String::from_str("Schema must be an object")));
    }
    match schema.get("type") {
        None => Err(SkillStoreError::ValidationError(String::from_str("Schema must have 'type' field"))),
        Some(t) => match t.as_str() {
            Some(ts) => {
                let s = ts.as_str();
                if str_eq(s, "object") || str_eq(s, "array") || str_eq(s, "string") || str_eq(s, "number")
                    || str_eq(s, "integer") || str_eq(s, "boolean") || str_eq(s, "null") {
                    Ok(())
                } else {
                    Err(SkillStoreError::ValidationError(concat2("Invalid schema type: ", s)))
                }
            },
            None => Ok(()),
        },
    }
}

// ---------------------------------------------------------------------------
// Validating skills
// ---------------------------------------------------------------------------

/// The error text of `semver::Version::parse` on a version text, if it
/// fails.
pub uninterp spec fn semver_error(v: Seq<char>) -> Option<Seq<char>>;

/// Parses a version with `semver::Version::parse`; the result is the
/// error's message when it fails.
#[verifier::external_body]
fn check_semver(v: &str) -> (r: Option<String>)
    ensures
        match r {
            Some(e) => semver_error(v@) == Some(e@),
            None => semver_error(v@) is None,
        },
{
    match semver::Version::parse(v) {
        Ok(_) => None,
        Err(e) => Some(e.to_string()),
    }
}

/// Whether a registry record goes by the name, qualified name or
/// identifier `t`.
pub open spec fn in_registry(regs: Seq<CallableRecord>, t: Seq<char>) -> bool {
    exists|i: int| 0 <= i < regs.len() && (regs[i].name@ == t || regs[i].fq_name@ == t || regs[i].id@ == t)
}

/// The warnings for allowed tools that are neither patterns nor known to
/// the registry.
pub open spec fn missing_tool_warnings(allow: Seq<Seq<char>>, regs: Seq<CallableRecord>) -> Seq<Seq<char>>
    decreases allow.len(),
{
    if allow.len() == 0 {
        Seq::empty()
    } else {
        let rest = missing_tool_warnings(allow.drop_last(), regs);
        let t = allow.last();
        if t != "*"@ && !t.contains('*') && !in_registry(regs, t) {
            rest.push("Tool '"@ + t + "' not found in registry (may be loaded later)"@)
        } else {
            rest
        }
    }
}

/// The errors of a skill, in the order they are checked; `dir_error` and
/// `script_errors` are the rendered paths the skill directory scan could
/// not read.
pub open spec fn skill_errors(skill: Skill, dir_error: Option<Seq<char>>, script_errors: Seq<Seq<char>>) -> Seq<Seq<char>> {
    let m = skill.manifest;
    let id = m.id@;
    (if !valid_skill_id(id) {
        seq!["Invalid skill ID '"@ + id + "': must be lowercase alphanumeric with hyphens"@]
    } else {
        Seq::empty()
    }) + (match semver_error(m.version@) {
        Some(t) => seq!["Invalid version '"@ + m.version@ + "': "@ + t],
        None => Seq::empty(),
    }) + (if m.description@.len() == 0 {
        seq!["Description cannot be empty"@]
    } else {
        Seq::empty()
    }) + (match schema_error(m.inputs@) {
        Some(x) => seq!["Invalid input schema: "@ + "Validation error: "@ + x],
        None => Seq::empty(),
    }) + (match m.outputs {
        Some(o) => match schema_error(o@) {
            Some(x) => seq!["Invalid output schema: "@ + "Validation error: "@ + x],
            None => Seq::empty(),
        },
        None => Seq::empty(),
    }) + (if views(m.tool_policy.allow@).contains(id) {
        seq!["Circular dependency: skill '"@ + id + "' references itself"@]
    } else {
        Seq::empty()
    }) + (match m.risk_tier {
        Some(t) => if parse_risk(t@) is None { seq!["Invalid risk tier: "@ + t@] } else { Seq::empty() },
        None => Seq::empty(),
    }) + (match dir_error {
        Some(d) => seq!["Cannot read skill directory: "@ + d],
        None => Seq::empty(),
    }) + script_errors.map_values(|e: Seq<char>| "Cannot read bundled script: "@ + e)
}

/// The warnings of a skill, in the order they are checked.
pub open spec fn skill_warnings(skill: Skill, regs: Seq<CallableRecord>) -> Seq<Seq<char>> {
    let m = skill.manifest;
    (if m.description@.len() > 0 && byte_len(m.description@) > 500 {
        seq!["Description is very long (>500 chars)"@]
    } else {
        Seq::empty()
    }) + missing_tool_warnings(views(m.tool_policy.allow@), regs) + (match m.hints.expected_calls {
        Some(c) => if c == 0 {
            seq!["Expected calls is 0"@]
        } else if c > 100 {
            seq!["Expected calls is very high: "@ + decimal(c as nat)]
        } else {
            Seq::empty()
        },
        None => Seq::empty(),
    }) + (match skill.documentation {
        None => seq!["No SKILL.md documentation found"@],
        Some(d) => if trim(d@).len() == 0 {
            seq!["SKILL.md is empty"@]
        } else if byte_len(d@) < 50 {
            seq!["SKILL.md is very short (<50 chars)"@]
        } else {
            Seq::empty()
        },
    })
}

fn registry_has(regs: &Vec<CallableRecord>, t: &str) -> (r: bool)
    ensures
        r == in_registry(regs@, t@),
{
    let mut i: usize = 0;
    while i < regs.len()
        invariant
            i <= regs.len(),
            forall|j: int| 0 <= j < i ==> !(regs@[j].name@ == t@ || regs@[j].fq_name@ == t@ || regs@[j].id@ == t@),
        decreases regs.len() - i,
    {
        let r = &regs[i];
        if str_eq(r.name.as_str(), t) || str_eq(r.fq_name.as_str(), t) || str_eq(r.id.as_str(), t) {
            return true;
        }
        i = i + 1;
    }
    false
}

fn push_all(v: &mut Vec<String>, items: Vec<String>)
    ensures
        views(final(v)@) == views(old(v)@) + views(items@),
{
    let ghost start = views(v@);
    let mut i: usize = 0;
    while i < items.len()
        invariant
            i <= items.len(),
            views(v@) == start + views(items@).take(i as int),
        decreases items.len() - i,
    {
        let ghost before = v@;
        v.push(items[i].clone());
        proof { lemma_views_push(before, v@.last()); }
        assert(views(items@).take(i as int + 1) =~= views(items@).take(i as int).push(items@[i as int]@));
        assert(start + views(items@).take(i as int + 1) =~= (start + views(items@).take(i as int)).push(items@[i as int]@));
        i = i + 1;
    }
    assert(views(items@).take(items.len() as int) =~= views(items@));
}

fn one(s: String) -> (r: Vec<String>)
    ensures
        views(r@) == seq![s@],
{
    let mut v = Vec::new();
    v.push(s);
    assert(views(v@) =~= seq![v@[0]@]);
    v
}

fn none_strings() -> (r: Vec<String>)
    ensures
        views(r@) == Seq::<Seq<char>>::empty(),
{
    let v: Vec<String> = Vec::new();
    assert(views(v@) =~= Seq::<Seq<char>>::empty());
    v
}

fn id_errors(skill: &Skill) -> (r: Vec<String>)
    ensures
        views(r@) == (if !valid_skill_id(skill.manifest.id@) {
            seq!["Invalid skill ID '"@ + skill.manifest.id@ + "': must be lowercase alphanumeric with hyphens"@]
        } else {
            Seq::empty()
        }),
{
    if !is_valid_skill_id(skill.manifest.id.as_str()) {
        let mut m = String::from_str("Invalid skill ID '");
        m.append(skill.manifest.id.as_str());
        m.append("': must be lowercase alphanumeric with hyphens");
        one(m)
    } else {
        none_strings()
    }
}

fn schema_errors(label: &str, schema: &JsonValue) -> (r: Vec<String>)
    ensures
        views(r@) == match schema_error(schema@) {
            Some(x) => seq![label@ + "Validation error: "@ + x],
            None => Seq::empty(),
        },
{
    match validate_json_schema(schema) {
        Err(SkillStoreError::ValidationError(x)) => {
            let mut m = String::from_str(label);
            m.append("Validation error: ");
            m.append(x.as_str());
            one(m)
        },
        _ => none_strings(),
    }
}

fn tool_warnings(allow: &Vec<String>, regs: &Vec<CallableRecord>) -> (r: Vec<String>)
    ensures
        views(r@) == missing_tool_warnings(views(allow@), regs@),
{
    let ghost a = views(allow@);
    let mut out: Vec<String> = Vec::new();
    let mut i: usize = 0;
    while i < allow.len()
        invariant
            i <= allow.len(),
            a == views(allow@),
            views(out@) == missing_tool_warnings(a.take(i as int), regs@),
        decreases allow.len() - i,
    {
        let ghost t = a.take(i as int + 1);
        assert(t.drop_last() =~= a.take(i as int));
        assert(t.last() == allow@[i as int]@);
        let tool = allow[i].as_str();
        let tc = chars_of(tool);
        if !str_eq(tool, "*") && !seq_has_char(tc.as_slice(), '*') && !registry_has(regs, tool) {
            let mut m = String::from_str("Tool '");
            m.append(tool);
            m.append("' not found in registry (may be loaded later)");
            let ghost before = out@;
            out.push(m);
            proof { lemma_views_push(before, out@.last()); }
        }
        i = i + 1;
    }
    assert(a.take(allow.len() as int) =~= a);
    out
}

/// Validates a skill against the registry's records.  `dir_error` is the
/// rendered path of a skill directory that could not be read, and
/// `script_errors` the rendered names of bundled scripts that could not be
/// read; both come from the caller's scan of the directory.
#[verifier::rlimit(60)]
pub fn validate_skill(
    skill: &Skill,
    registry: &Vec<CallableRecord>,
    dir_error: Option<String>,
    script_errors: &Vec<String>,
) -> (r: ValidationResult)
    ensures
        views(r.errors@) == skill_errors(
            *skill,
            match dir_error {
                Some(d) => Some(d@),
                None => None,
            },
            views(script_errors@),
        ),
        views(r.warnings@) == skill_warnings(*skill, registry@),
        r.valid == (r.errors@.len() == 0),
{
    let m = &skill.manifest;
    let mut errors: Vec<String> = Vec::new();
    let mut warnings: Vec<String> = Vec::new();
    assert(views(errors@) =~= Seq::<Seq<char>>::empty());
    assert(views(warnings@) =~= Seq::<Seq<char>>::empty());
    // Identifier
    push_all(&mut errors, id_errors(skill));
    // Version
    let version_errors = match check_semver(m.version.as_str()) {
        Some(t) => {
            let mut x = String::from_str("Invalid version '");
            x.append(m.version.as_str());
            x.append("': ");
            x.append(t.as_str());
            one(x)
        },
        None => none_strings(),
    };
    push_all(&mut errors, version_errors);
    // Description
    if m.description.as_str().is_empty() {
        push_all(&mut errors, one(String::from_str("Description cannot be empty")));
        push_all(&mut warnings, none_strings());
    } else if str_bytes(m.description.as_str()) > 500 {
        push_all(&mut errors, none_strings());
        push_all(&mut warnings, one(String::from_str("Description is very long (>500 chars)")));
    } else {
        push_all(&mut errors, none_strings());
        push_all(&mut warnings, none_strings());
    }
    // Schemas
    push_all(&mut errors, schema_errors("Invalid input schema: ", &m.inputs));
    match &m.outputs {
        Some(o) => push_all(&mut errors, schema_errors("Invalid output schema: ", o)),
        None => push_all(&mut errors, none_strings()),
    }
    // Tool dependencies
    push_all(&mut warnings, tool_warnings(&m.tool_policy.allow, registry));
    let self_ref = vec_has_str(&m.tool_policy.allow, m.id.as_str());
    proof { lemma_has_str_views(m.tool_policy.allow@, m.id@); }
    if self_ref {
        let mut x = String::from_str("Circular dependency: skill '");
        x.append(m.id.as_str());
        x.append("' references itself");
        push_all(&mut errors, one(x));
    } else {
        push_all(&mut errors, none_strings());
    }
    // Risk tier
    match &m.risk_tier {
        Some(t) => match parse_risk_tier(t.as_str()) {
            Err(_) => push_all(&mut errors, one(concat2("Invalid risk tier: ", t.as_str()))),
            Ok(_) => push_all(&mut errors, none_strings()),
        },
        None => push_all(&mut errors, none_strings()),
    }
    // Hints
    match m.hints.expected_calls {
        Some(c) => {
            if c == 0 {
                push_all(&mut warnings, one(String::from_str("Expected calls is 0")));
            } else if c > 100 {
                let n = u64_to_string(c as u64);
                push_all(&mut warnings, one(concat2("Expected calls is very high: ", n.as_str())));
            } else {
                push_all(&mut warnings, none_strings());
            }
        },
        None => push_all(&mut warnings, none_strings()),
    }
    // Documentation
    match &skill.documentation {
        None => push_all(&mut warnings, one(String::from_str("No SKILL.md documentation found"))),
        Some(d) => {
            let t = trim_str(d.as_str());
            if t.as_str().is_empty() {
                push_all(&mut warnings, one(String::from_str("SKILL.md is empty")));
            } else if str_bytes(d.as_str()) < 50 {
                push_all(&mut warnings, one(String::from_str("SKILL.md is very short (<50 chars)")));
            } else {
                push_all(&mut warnings, none_strings());
            }
        },
    }
    // Directory scan
    match &dir_error {
        Some(d) => push_all(&mut errors, one(concat2("Cannot read skill directory: ", d.as_str()))),
        None => push_all(&mut errors, none_strings()),
    }
    let ghost before_scripts = views(errors@);
    let mut k: usize = 0;
    while k < script_errors.len()
        invariant
            k <= script_errors.len(),
            views(errors@) == before_scripts + views(script_errors@).take(k as int).map_values(
                |e: Seq<char>| "Cannot read bundled script: "@ + e,
            ),
        decreases script_errors.len() - k,
    {
        let x = concat2("Cannot read bundled script: ", script_errors[k].as_str());
        let ghost before = errors@;
        errors.push(x);
        proof { lemma_views_push(before, errors@.last()); }
        assert(views(script_errors@).take(k as int + 1).map_values(|e: Seq<char>| "Cannot read bundled script: "@ + e)
            =~= views(script_errors@).take(k as int).map_values(|e: Seq<char>| "Cannot read bundled script: "@ + e).push(
            "Cannot read bundled script: "@ + script_errors@[k as int]@,
        ));
        k = k + 1;
    }
    assert(views(script_errors@).take(script_errors.len() as int) =~= views(script_errors@));
    let valid = errors.len() == 0;
    ValidationResult { valid, errors, warnings }
}

// ---------------------------------------------------------------------------
// Registering skills
// ---------------------------------------------------------------------------

/// The extension of a path (`Path::extension`).
pub uninterp spec fn extension_of(path: Seq<char>) -> Option<Seq<char>>;

/// Calls `std::path::Path::extension` on the path text.
#[verifier::external_body]
fn path_extension(path: &str) -> (r: Option<String>)
    ensures
        match r {
            Some(e) => extension_of(path@) == Some(e@),
            None => extension_of(path@) is None,
        },
{
    std::path::Path::new(path).extension().map(|e| e.to_string_lossy().into_owned())
}

/// The interpreter of a script extension, if it is one.
pub open spec fn script_interpreter(ext: Option<Seq<char>>) -> Option<Seq<char>> {
    match ext {
        Some(e) => if e == "py"@ {
            Some("python3"@)
        } else if e == "sh"@ {
            Some("bash"@)
        } else if e == "js"@ {
            Some("node"@)
        } else {
            None
        },
        None => None,
    }
}

/// The minimal object schema `{"type": "object"}`.
pub open spec fn object_type_schema() -> Json {
    Json::Object(seq![("type"@, Json::Str("object"@))])
}

pub(crate) fn object_type_schema_exec() -> (r: JsonValue)
    ensures
        r@ == object_type_schema(),
{
    let mut m: Vec<(String, JsonValue)> = Vec::new();
    m.push((String::from_str("type"), JsonValue::Str(String::from_str("object"))));
    proof { crate::json::lemma_object_view(m); }
    assert(crate::json::member_views(m@) =~= seq![("type"@, Json::Str("object"@))]);
    JsonValue::Object(m)
}

/// The bundled tool of a script file found in a skill directory: `name` is
/// its file name, `path` its full path, `prefix` the subdirectory it was
/// found in (empty at the root), and `schema` the content of its
/// `.schema.json` companion when that was read and parsed.  Files that are
/// not Python, shell or JavaScript give no tool.
pub fn bundled_tool_for_file(name: &str, path: &str, prefix: &str, schema: Option<JsonValue>) -> (r: Option<BundledTool>)
    ensures
        match script_interpreter(extension_of(path@)) {
            None => r is None,
            Some(interp) => r matches Some(t) && t.name@ == (if prefix@.len() == 0 {
                name@
            } else {
                prefix@ + "/"@ + name@
            }) && t.description@ == "Bundled tool: "@ + name@ && views(t.command@) == seq![interp, path@]
                && t.schema@ == match schema {
                Some(s) => s@,
                None => object_type_schema(),
            },
        },
{
    proof {
        reveal_strlit("py");
        reveal_strlit("sh");
        reveal_strlit("js");
    }
    let interp = match path_extension(path) {
        Some(e) => {
            if str_eq(e.as_str(), "py") {
                String::from_str("python3")
            } else if str_eq(e.as_str(), "sh") {
                String::from_str("bash")
            } else if str_eq(e.as_str(), "js") {
                String::from_str("node")
            } else {
                return None;
            }
        },
        None => {
            return None;
        },
    };
    let mut command: Vec<String> = Vec::new();
    command.push(interp);
    command.push(String::from_str(path));
    assert(views(command@) =~= seq![command@[0]@, path@]);
    let tool_name = if prefix.is_empty() {
        String::from_str(name)
    } else {
        crate::text::concat3(prefix, "/", name)
    };
    let schema = match schema {
        Some(s) => s,
        None => object_type_schema_exec(),
    };
    Some(BundledTool { name: tool_name, description: concat2("Bundled tool: ", name), command, schema })
}

/// Whether a file in a skill's root is disclosed as an additional file
/// (not SKILL.md, not a script); `schema_files` also excludes schema
/// companions.
pub open spec fn is_additional_file(name: Seq<char>, schema_files: bool) -> bool {
    &&& name != "SKILL.md"@
    &&& !ends_with(name, ".py"@)
    &&& !ends_with(name, ".sh"@)
    &&& !ends_with(name, ".js"@)
    &&& !(schema_files && ends_with(name, ".schema.json"@))
}

/// The names of `names` that are additional files, in order.
pub open spec fn additional_files_of(names: Seq<Seq<char>>, schema_files: bool) -> Seq<Seq<char>>
    decreases names.len(),
{
    if names.len() == 0 {
        Seq::empty()
    } else {
        let r = additional_files_of(names.drop_last(), schema_files);
        if is_additional_file(names.last(), schema_files) { r.push(names.last()) } else { r }
    }
}

/// The additional files among the file names of a skill's root; with
/// `schema_files`, `.schema.json` companions are excluded too.
pub fn additional_files(names: &Vec<String>, schema_files: bool) -> (r: Vec<String>)
    ensures
        views(r@) == additional_files_of(views(names@), schema_files),
{
    let ghost ns = views(names@);
    let mut out: Vec<String> = Vec::new();
    let mut i: usize = 0;
    while i < names.len()
        invariant
            i <= names.len(),
            ns == views(names@),
            views(out@) == additional_files_of(ns.take(i as int), schema_files),
        decreases names.len() - i,
    {
        let ghost t = ns.take(i as int + 1);
        assert(t.drop_last() =~= ns.take(i as int));
        assert(t.last() == names@[i as int]@);
        let n = names[i].as_str();
        let c = chars_of(n);
        let keep = !str_eq(n, "SKILL.md") && !seq_ends_with(c.as_slice(), chars_of(".py").as_slice())
            && !seq_ends_with(c.as_slice(), chars_of(".sh").as_slice())
            && !seq_ends_with(c.as_slice(), chars_of(".js").as_slice())
            && !(schema_files && seq_ends_with(c.as_slice(), chars_of(".schema.json").as_slice()));
        if keep {
            let ghost before = out@;
            out.push(names[i].clone());
            proof { lemma_views_push(before, out@.last()); }
        }
        i = i + 1;
    }
    assert(ns.take(names.len() as int) =~= ns);
    out
}

/// The tags of a registered skill: its intent, domain and outcome hints,
/// then `"skill"`.
pub open spec fn skill_tags(h: SkillHints) -> Seq<Seq<char>> {
    views(h.intent@) + views(h.domain@) + views(h.outcomes@) + seq!["skill"@]
}

/// The registry record of a skill, given the digest of its input schema,
/// its bundled tools and additional files, and the time it was seen.
pub fn skill_record(
    skill: &Skill,
    digest: SchemaDigest,
    bundled_tools: Vec<BundledTool>,
    additional_files: Vec<String>,
    last_seen_ms: i64,
) -> (r: CallableRecord)
    ensures
        r.id@ == skill_id_text(skill.manifest.id@, skill.manifest.version@),
        r.kind == CallableKind::Skill,
        r.fq_name@ == "skill."@ + skill.manifest.id@,
        r.name@ == skill.manifest.id@,
        r.title matches Some(t) && t@ == skill.manifest.title@,
        r.description matches Some(d) && d@ == skill.manifest.description@,
        views(r.tags@) == skill_tags(skill.manifest.hints),
        r.input_schema@ == skill.manifest.inputs@,
        match r.output_schema {
            Some(o) => skill.manifest.outputs matches Some(p) && o@ == p@,
            None => skill.manifest.outputs is None,
        },
        r.schema_digest == digest,
        r.server_alias is None,
        r.upstream_tool_name is None,
        r.skill_version matches Some(v) && v@ == skill.manifest.version@,
        r.uses@.len() == 0,
        r.skill_directory matches Some(p) && p@ == skill.path@,
        r.bundled_tools == bundled_tools,
        r.additional_files == additional_files,
        r.cost_hints.expected_calls == skill.manifest.hints.expected_calls,
        r.cost_hints.estimated_duration_ms is None,
        !r.cost_hints.network_required,
        !r.cost_hints.filesystem_access,
        r.risk_tier == match skill.manifest.risk_tier {
            Some(t) => match parse_risk(t@) {
                Some(k) => k,
                None => RiskTier::Unknown,
            },
            None => RiskTier::Unknown,
        },
        r.last_seen_ms == last_seen_ms,
{
    let m = &skill.manifest;
    let risk_tier = match &m.risk_tier {
        Some(t) => match parse_risk_tier(t.as_str()) {
            Ok(k) => k,
            Err(_) => RiskTier::Unknown,
        },
        None => RiskTier::Unknown,
    };
    let mut tags: Vec<String> = Vec::new();
    assert(views(tags@) =~= Seq::<Seq<char>>::empty());
    push_all(&mut tags, crate::text::copy_strings(&m.hints.intent));
    push_all(&mut tags, crate::text::copy_strings(&m.hints.domain));
    push_all(&mut tags, crate::text::copy_strings(&m.hints.outcomes));
    push_all(&mut tags, one(String::from_str("skill")));
    assert(Seq::<Seq<char>>::empty() + views(m.hints.intent@) =~= views(m.hints.intent@));
    CallableRecord {
        id: CallableId::skill(m.id.as_str(), m.version.as_str()),
        kind: CallableKind::Skill,
        fq_name: concat2("skill.", m.id.as_str()),
        name: m.id.clone(),
        title: Some(m.title.clone()),
        description: Some(m.description.clone()),
        tags,
        input_schema: crate::json::json_copy(&m.inputs),
        output_schema: match &m.outputs {
            Some(o) => Some(crate::json::json_copy(o)),
            None => None,
        },
        schema_digest: digest,
        server_alias: None,
        upstream_tool_name: None,
        skill_version: Some(m.version.clone()),
        uses: Vec::new(),
        skill_directory: Some(skill.path.clone()),
        bundled_tools,
        additional_files,
        cost_hints: CostHints {
            expected_calls: m.hints.expected_calls,
            estimated_duration_ms: None,
            network_required: false,
            filesystem_access: false,
        },
        risk_tier,
        last_seen_ms,
    }
}

} // verus!
