//! The Agent Skills format (SKILL.md with a YAML frontmatter, optional
//! `scripts/`, `references/` and `assets/` directories): splitting and
//! checking the frontmatter, skill names, and the conversion to the
//! store's manifest and disclosed content.
use vstd::prelude::*;
use crate::callables::BundledTool;
use crate::json::{Json, JsonValue};
use crate::text::{
    byte_len, chars_of, concat2, contains_sub, ends_with, first_occurrence, replace_crlf,
    replace_crlf_chars, seq_contains, seq_ends_with, seq_find, seq_starts_with, split_str,
    split_whitespace, starts_with, str_eq, string_of, sub_chars, trim, trim_chars, views,
    lemma_views_push, copy_strings,
};
use crate::storage::str_bytes;

verus! {

/// Errors of the Agent Skills format.
#[derive(Debug)]
pub enum AgentSkillsError {
    Io(String),
    YamlParse(String),
    InvalidFormat(String),
    MissingField(String),
    ValidationError(String),
}

impl AgentSkillsError {
    /// The error's message (`Display`).
    pub fn message(&self) -> (r: String)
        ensures
            self matches AgentSkillsError::Io(m) ==> r@ == "IO error: "@ + m@,
            self matches AgentSkillsError::YamlParse(m) ==> r@ == "YAML parse error: "@ + m@,
            self matches AgentSkillsError::InvalidFormat(m) ==> r@ == "Invalid skill format: "@ + m@,
            self matches AgentSkillsError::MissingField(m) ==> r@ == "Missing required field: "@ + m@,
            self matches AgentSkillsError::ValidationError(m) ==> r@ == "Validation error: "@ + m@,
    {
        match self {
            AgentSkillsError::Io(m) => concat2("IO error: ", m.as_str()),
            AgentSkillsError::YamlParse(m) => concat2("YAML parse error: ", m.as_str()),
            AgentSkillsError::InvalidFormat(m) => concat2("Invalid skill format: ", m.as_str()),
            AgentSkillsError::MissingField(m) => concat2("Missing required field: ", m.as_str()),
            AgentSkillsError::ValidationError(m) => concat2("Validation error: ", m.as_str()),
        }
    }
}

// ---------------------------------------------------------------------------
// Frontmatter
// ---------------------------------------------------------------------------

/// The pre-approved tools of a skill: a space-separated text or a list.
#[derive(Debug)]
pub enum AllowedTools {
    /// `"Bash Read Write"`.
    Spaced(String),
    /// `["Bash", "Read", "Write"]`.
    Array(Vec<String>),
}

/// The tools a field lists.
pub open spec fn allowed_list(a: AllowedTools) -> Seq<Seq<char>> {
    match a {
        AllowedTools::Spaced(s) => split_whitespace(s@),
        AllowedTools::Array(v) => views(v@),
    }
}

impl AllowedTools {
    /// The listed tools, whatever the form.
    pub fn to_vec(&self) -> (r: Vec<String>)
        ensures
            views(r@) == allowed_list(*self),
    {
        match self {
            AllowedTools::Spaced(s) => split_str(s.as_str(), true),
            AllowedTools::Array(a) => copy_strings(a),
        }
    }
}

/// The YAML frontmatter of a SKILL.md.
#[derive(Debug)]
pub struct AgentSkillsFrontmatter {
    /// Skill name (must match the directory name).
    pub name: String,
    /// The top-level `version` key, kept as written.
    pub version: Option<String>,
    /// Description (at most 1024 bytes).
    pub description: Option<String>,
    pub license: Option<String>,
    /// Compatibility notes (at most 500 bytes).
    pub compatibility: Option<String>,
    /// Additional metadata, by key.
    pub metadata: Vec<(String, String)>,
    /// Pre-approved tools.
    pub allowed_tools: Option<AllowedTools>,
}

/// The YAML text and the trimmed body of a SKILL.md, line endings
/// normalized to `\n`; or the reason the text has no proper frontmatter.
pub open spec fn frontmatter_split(content: Seq<char>) -> Result<(Seq<char>, Seq<char>), Seq<char>> {
    let n = replace_crlf(content);
    if !starts_with(n, "---\n"@) {
        Err("SKILL.md must start with YAML frontmatter (---)"@)
    } else {
        match first_occurrence(n.skip(4), "\n---\n"@) {
            None => Err("SKILL.md frontmatter not properly closed with ---"@),
            Some(e) => Ok((n.skip(4).take(e), trim(n.skip(4 + e + 5)))),
        }
    }
}

/// Splits a SKILL.md into its YAML frontmatter text and its trimmed body.
/// Decoding the YAML is left to the caller; `check_frontmatter` then checks
/// the decoded fields.
pub fn parse_frontmatter_public(content: &str) -> (r: Result<(String, String), AgentSkillsError>)
    ensures
        match frontmatter_split(content@) {
            Ok(p) => r matches Ok(q) && q.0@ == p.0 && q.1@ == p.1,
            Err(m) => r matches Err(AgentSkillsError::InvalidFormat(x)) && x@ == m,
        },
{
    proof {
        reveal_strlit("---\n");
        reveal_strlit("\n---\n");
    }
    let raw = chars_of(content);
    let n = replace_crlf_chars(raw.as_slice());
    let open = chars_of("---\n");
    if !seq_starts_with(n.as_slice(), open.as_slice()) {
        return Err(AgentSkillsError::InvalidFormat(String::from_str("SKILL.md must start with YAML frontmatter (---)")));
    }
    let after = sub_chars(n.as_slice(), 4, n.len());
    assert(after@ =~= n@.skip(4));
    let close = chars_of("\n---\n");
    match seq_find(after.as_slice(), close.as_slice()) {
        None => Err(AgentSkillsError::InvalidFormat(String::from_str("SKILL.md frontmatter not properly closed with ---"))),
        Some(e) => {
            let yaml = sub_chars(after.as_slice(), 0, e);
            assert(yaml@ =~= n@.skip(4).take(e as int));
            let rest = sub_chars(n.as_slice(), 4 + e + 5, n.len());
            assert(rest@ =~= n@.skip(4 + e + 5));
            let body = trim_chars(rest.as_slice());
            Ok((string_of(yaml.as_slice()), string_of(body.as_slice())))
        },
    }
}

/// `s` with each line feed written as a carriage return and a line feed.
pub open spec fn to_crlf(s: Seq<char>) -> Seq<char>
    decreases s.len(),
{
    if s.len() == 0 {
        s
    } else if s[0] == '\n' {
        seq!['\r', '\n'] + to_crlf(s.subrange(1, s.len() as int))
    } else {
        seq![s[0]] + to_crlf(s.subrange(1, s.len() as int))
    }
}

/// Whether `s` holds no carriage return directly followed by a line feed.
pub open spec fn no_crlf(s: Seq<char>) -> bool {
    forall|i: int| 0 <= i < s.len() - 1 ==> !(#[trigger] s[i] == '\r' && s[i + 1] == '\n')
}

proof fn lemma_crlf_normalizes(s: Seq<char>)
    requires
        no_crlf(s),
    ensures
        replace_crlf(to_crlf(s)) == replace_crlf(s),
    decreases s.len(),
{
    if s.len() > 0 {
        let rest = s.subrange(1, s.len() as int);
        assert(no_crlf(rest)) by {
            assert forall|i: int| 0 <= i < rest.len() - 1 implies !(#[trigger] rest[i] == '\r' && rest[i + 1] == '\n') by {
                assert(rest[i] == s[i + 1] && rest[i + 1] == s[i + 2]);
            }
        }
        lemma_crlf_normalizes(rest);
        let t = to_crlf(rest);
        if s[0] == '\n' {
            let u = seq!['\r', '\n'] + t;
            assert(u.subrange(2, u.len() as int) =~= t);
        } else {
            let u = seq![s[0]] + t;
            assert(u.subrange(1, u.len() as int) =~= t);
            if s[0] == '\r' && s.len() >= 2 {
                assert(s[1] != '\n');
                assert(rest[0] == s[1]);
                assert(t[0] == s[1]);
            }
        }
    }
}

/// A text without CRLF is its own normalization.
pub proof fn lemma_no_crlf_unchanged(s: Seq<char>)
    requires
        no_crlf(s),
    ensures
        replace_crlf(s) == s,
    decreases s.len(),
{
    if s.len() > 0 {
        let rest = s.subrange(1, s.len() as int);
        assert(no_crlf(rest)) by {
            assert forall|i: int| 0 <= i < rest.len() - 1 implies !(#[trigger] rest[i] == '\r' && rest[i + 1] == '\n') by {
                assert(rest[i] == s[i + 1] && rest[i + 1] == s[i + 2]);
            }
        }
        lemma_no_crlf_unchanged(rest);
        if s.len() >= 2 && s[0] == '\r' {
            assert(s[1] != '\n');
        }
        assert(seq![s[0]] + rest =~= s);
    }
}

/// Writing a SKILL.md with CRLF line endings changes nothing of how it
/// splits into frontmatter and body, provided it held no CRLF already.
pub proof fn law_crlf_frontmatter_same(s: Seq<char>)
    requires
        no_crlf(s),
    ensures
        frontmatter_split(to_crlf(s)) == frontmatter_split(s),
{
    lemma_crlf_normalizes(s);
}

/// The error a decoded frontmatter is refused with, as (is the name
/// missing, message).
pub open spec fn frontmatter_error(fm: AgentSkillsFrontmatter) -> Option<(bool, Seq<char>)> {
    if fm.name@.len() == 0 {
        Some((true, "name"@))
    } else if byte_len(fm.name@) > 64 {
        Some((false, "name exceeds 64 characters"@))
    } else if fm.description matches Some(d) && byte_len(d@) > 1024 {
        Some((false, "description exceeds 1024 characters"@))
    } else if fm.compatibility matches Some(c) && byte_len(c@) > 500 {
        Some((false, "compatibility exceeds 500 characters"@))
    } else {
        None
    }
}

/// Checks the decoded frontmatter: a name is required, and the name,
/// description and compatibility have byte limits of 64, 1024 and 500.
pub fn check_frontmatter(fm: &AgentSkillsFrontmatter) -> (r: Result<(), AgentSkillsError>)
    ensures
        match frontmatter_error(*fm) {
            Some((true, m)) => r matches Err(AgentSkillsError::MissingField(x)) && x@ == m,
            Some((false, m)) => r matches Err(AgentSkillsError::ValidationError(x)) && x@ == m,
            None => r is Ok,
        },
{
    if fm.name.as_str().is_empty() {
        return Err(AgentSkillsError::MissingField(String::from_str("name")));
    }
    if str_bytes(fm.name.as_str()) > 64 {
        return Err(AgentSkillsError::ValidationError(String::from_str("name exceeds 64 characters")));
    }
    match &fm.description {
        Some(d) => {
            if str_bytes(d.as_str()) > 1024 {
                return Err(AgentSkillsError::ValidationError(String::from_str("description exceeds 1024 characters")));
            }
        },
        None => {},
    }
    match &fm.compatibility {
        Some(c) => {
            if str_bytes(c.as_str()) > 500 {
                return Err(AgentSkillsError::ValidationError(String::from_str("compatibility exceeds 500 characters")));
            }
        },
        None => {},
    }
    Ok(())
}

// ---------------------------------------------------------------------------
// Names
// ---------------------------------------------------------------------------

/// Whether every character is a lowercase ASCII letter, a digit or `-`.
pub open spec fn all_name_chars(s: Seq<char>) -> bool {
    forall|i: int| 0 <= i < s.len() ==> crate::storage::is_slug_char(#[trigger] s[i])
}

/// The reason a skill name breaks the naming rules, if it does.
pub open spec fn name_error(name: Seq<char>) -> Option<Seq<char>> {
    if name.len() == 0 || byte_len(name) > 64 {
        Some("name must be 1-64 characters"@)
    } else if !all_name_chars(name) {
        Some("name must contain only lowercase letters, numbers, and hyphens"@)
    } else if name[0] == '-' || name.last() == '-' {
        Some("name cannot start or end with hyphen"@)
    } else if contains_sub(name, "--"@) {
        Some("name cannot contain consecutive hyphens"@)
    } else {
        None
    }
}

fn all_name_chars_exec(s: &[char]) -> (r: bool)
    ensures
        r == all_name_chars(s@),
{
    let mut i: usize = 0;
    while i < s.len()
        invariant
            i <= s.len(),
            forall|j: int| 0 <= j < i ==> crate::storage::is_slug_char(#[trigger] s@[j]),
        decreases s.len() - i,
    {
        let c = s[i];
        if !(('a' <= c && c <= 'z') || ('0' <= c && c <= '9') || c == '-') {
            assert(!crate::storage::is_slug_char(s@[i as int]));
            return false;
        }
        i = i + 1;
    }
    true
}

/// Result of a skill name check.
pub open spec fn name_check(name: Seq<char>, r: Result<(), AgentSkillsError>) -> bool {
    match name_error(name) {
        Some(m) => r matches Err(AgentSkillsError::ValidationError(x)) && x@ == m,
        None => r is Ok,
    }
}

/// A name that validation accepts is 1 to 64 bytes of lowercase letters,
/// digits and hyphens, neither starts nor ends with a hyphen, and holds no
/// two hyphens in a row.
pub proof fn law_accepted_name_shape(name: Seq<char>, r: Result<(), AgentSkillsError>)
    requires
        name_check(name, r),
        r is Ok,
    ensures
        0 < name.len(),
        byte_len(name) <= 64,
        forall|i: int| 0 <= i < name.len() ==> crate::storage::is_slug_char(#[trigger] name[i]),
        name[0] != '-',
        name[name.len() - 1] != '-',
        forall|i: int| 0 <= i < name.len() - 1 ==> !(#[trigger] name[i] == '-' && name[i + 1] == '-'),
{
    reveal_strlit("--");
    assert forall|i: int| 0 <= i < name.len() - 1 implies !(#[trigger] name[i] == '-' && name[i + 1] == '-') by {
        if name[i] == '-' && name[i + 1] == '-' {
            assert(name.subrange(i, i + 2) =~= "--"@);
            assert(crate::text::occurs_at(name, "--"@, i));
        }
    }
}

/// A name ending with a hyphen is refused with the message saying so, once
/// it passes the length and character rules.
pub proof fn law_trailing_hyphen_rejected(name: Seq<char>, r: Result<(), AgentSkillsError>)
    requires
        name_check(name, r),
        name.len() > 0,
        name[name.len() - 1] == '-',
    ensures
        r is Err,
        byte_len(name) <= 64 && all_name_chars(name) ==> (r matches Err(AgentSkillsError::ValidationError(m))
            && m@ == "name cannot start or end with hyphen"@),
{
}

// ---------------------------------------------------------------------------
// Skills
// ---------------------------------------------------------------------------

/// The version of a skill: its top-level `version` key as written, else
/// its `version` metadata, else `"1.0.0"`.
pub open spec fn skill_version(fm: AgentSkillsFrontmatter) -> Seq<char> {
    match fm.version {
        Some(v) => v@,
        None => match meta_get(crate::sandbox::pair_views(fm.metadata@), "version"@) {
            Some(v) => v,
            None => "1.0.0"@,
        },
    }
}

/// A parsed Agent Skill.
#[derive(Debug)]
pub struct AgentSkill {
    pub frontmatter: AgentSkillsFrontmatter,
    /// The SKILL.md body.
    pub content: String,
    pub path: String,
    /// Files of `scripts/`.
    pub scripts: Vec<String>,
    /// Files of `references/`.
    pub references: Vec<String>,
    /// Files of `assets/`.
    pub assets: Vec<String>,
}

/// The value stored under `key` in the metadata (first entry).
pub open spec fn meta_get(m: Seq<(Seq<char>, Seq<char>)>, key: Seq<char>) -> Option<Seq<char>>
    decreases m.len(),
{
    if m.len() == 0 {
        None
    } else if m[0].0 == key {
        Some(m[0].1)
    } else {
        meta_get(m.drop_first(), key)
    }
}

fn meta_find(m: &Vec<(String, String)>, key: &str) -> (r: Option<String>)
    ensures
        match r {
            Some(v) => meta_get(crate::sandbox::pair_views(m@), key@) == Some(v@),
            None => meta_get(crate::sandbox::pair_views(m@), key@) is None,
        },
{
    let ghost e = crate::sandbox::pair_views(m@);
    assert(e.skip(0) =~= e);
    let mut i: usize = 0;
    while i < m.len()
        invariant
            i <= m.len(),
            e == crate::sandbox::pair_views(m@),
            meta_get(e, key@) == meta_get(e.skip(i as int), key@),
        decreases m.len() - i,
    {
        assert(e.skip(i as int)[0] == (m@[i as int].0@, m@[i as int].1@));
        assert(e.skip(i as int).drop_first() =~= e.skip(i as int + 1));
        if str_eq(m[i].0.as_str(), key) {
            return Some(m[i].1.clone());
        }
        i = i + 1;
    }
    assert(e.skip(i as int) =~= Seq::<(Seq<char>, Seq<char>)>::empty());
    None
}

/// The interpreter a script file runs with, by its extension.
pub open spec fn interpreter_for(filename: Seq<char>) -> Seq<char> {
    if ends_with(filename, ".py"@) {
        "python3"@
    } else if ends_with(filename, ".sh"@) {
        "bash"@
    } else if ends_with(filename, ".js"@) {
        "node"@
    } else {
        "bash"@
    }
}

impl AgentSkill {
    /// Checks a skill name against the naming rules: 1 to 64 bytes of
    /// lowercase letters, digits and hyphens, no hyphen at either end, no
    /// two hyphens in a row.
    pub fn validate_name(name: &str) -> (r: Result<(), AgentSkillsError>)
        ensures
            name_check(name@, r),
    {
        let c = chars_of(name);
        if c.len() == 0 || str_bytes(name) > 64 {
            return Err(AgentSkillsError::ValidationError(String::from_str("name must be 1-64 characters")));
        }
        if !all_name_chars_exec(c.as_slice()) {
            return Err(AgentSkillsError::ValidationError(String::from_str(
                "name must contain only lowercase letters, numbers, and hyphens",
            )));
        }
        if c[0] == '-' || c[c.len() - 1] == '-' {
            return Err(AgentSkillsError::ValidationError(String::from_str("name cannot start or end with hyphen")));
        }
        let dd = chars_of("--");
        if seq_contains(c.as_slice(), dd.as_slice()) {
            return Err(AgentSkillsError::ValidationError(String::from_str("name cannot contain consecutive hyphens")));
        }
        Ok(())
    }

    /// Builds a skill from its checked frontmatter, its body, its directory
    /// and the files found in `scripts/`, `references/` and `assets/`.  The
    /// frontmatter name must equal the directory name (`dir_name` is `None`
    /// when the directory has no usable name) and follow the naming rules.
    pub fn from_parts(
        frontmatter: AgentSkillsFrontmatter,
        content: String,
        path: String,
        dir_name: Option<String>,
        scripts: Vec<String>,
        references: Vec<String>,
        assets: Vec<String>,
    ) -> (r: Result<AgentSkill, AgentSkillsError>)
        ensures
            match dir_name {
                None => r matches Err(AgentSkillsError::InvalidFormat(x)) && x@ == "Invalid directory name"@,
                Some(d) => if frontmatter.name@ != d@ {
                    r matches Err(AgentSkillsError::ValidationError(x)) && x@ == "Skill name '"@
                        + frontmatter.name@ + "' does not match directory name '"@ + d@ + "'"@
                } else {
                    match name_error(frontmatter.name@) {
                        Some(m) => r matches Err(AgentSkillsError::ValidationError(x)) && x@ == m,
                        None => r matches Ok(s) && s.frontmatter == frontmatter && s.content == content
                            && s.path == path && s.scripts == scripts && s.references == references
                            && s.assets == assets,
                    }
                },
            },
    {
        let d = match dir_name {
            Some(d) => d,
            None => {
                return Err(AgentSkillsError::InvalidFormat(String::from_str("Invalid directory name")));
            },
        };
        if !str_eq(frontmatter.name.as_str(), d.as_str()) {
            let mut m = String::from_str("Skill name '");
            m.append(frontmatter.name.as_str());
            m.append("' does not match directory name '");
            m.append(d.as_str());
            m.append("'");
            return Err(AgentSkillsError::ValidationError(m));
        }
        match AgentSkill::validate_name(frontmatter.name.as_str()) {
            Err(e) => Err(e),
            Ok(()) => Ok(AgentSkill { frontmatter, content, path, scripts, references, assets }),
        }
    }

    /// The pre-approved tools (none when the field is absent).
    pub fn parse_allowed_tools(&self) -> (r: Vec<String>)
        ensures
            views(r@) == match self.frontmatter.allowed_tools {
                Some(a) => allowed_list(a),
                None => Seq::empty(),
            },
    {
        match &self.frontmatter.allowed_tools {
            Some(a) => a.to_vec(),
            None => {
                let v: Vec<String> = Vec::new();
                assert(views(v@) =~= Seq::<Seq<char>>::empty());
                v
            },
        }
    }

    /// The top-level `version` key as written, else the `version`
    /// metadata, else `"1.0.0"`.
    pub fn version(&self) -> (r: String)
        ensures
            r@ == skill_version(self.frontmatter),
    {
        match &self.frontmatter.version {
            Some(v) => v.clone(),
            None => match meta_find(&self.frontmatter.metadata, "version") {
                Some(v) => v,
                None => String::from_str("1.0.0"),
            },
        }
    }

    /// The `author` metadata.
    pub fn author(&self) -> (r: Option<String>)
        ensures
            match r {
                Some(a) => meta_get(crate::sandbox::pair_views(self.frontmatter.metadata@), "author"@) == Some(a@),
                None => meta_get(crate::sandbox::pair_views(self.frontmatter.metadata@), "author"@) is None,
            },
    {
        meta_find(&self.frontmatter.metadata, "author")
    }

    pub fn has_scripts(&self) -> (r: bool)
        ensures
            r == (self.scripts@.len() > 0),
    {
        self.scripts.len() > 0
    }

    pub fn has_references(&self) -> (r: bool)
        ensures
            r == (self.references@.len() > 0),
    {
        self.references.len() > 0
    }

    pub fn has_assets(&self) -> (r: bool)
        ensures
            r == (self.assets@.len() > 0),
    {
        self.assets.len() > 0
    }

    /// The interpreter of a script file: `python3` for `.py`, `node` for
    /// `.js`, `bash` otherwise.
    pub fn infer_interpreter(filename: &str) -> (r: String)
        ensures
            r@ == interpreter_for(filename@),
    {
        let f = chars_of(filename);
        if seq_ends_with(f.as_slice(), chars_of(".py").as_slice()) {
            String::from_str("python3")
        } else if seq_ends_with(f.as_slice(), chars_of(".sh").as_slice()) {
            String::from_str("bash")
        } else if seq_ends_with(f.as_slice(), chars_of(".js").as_slice()) {
            String::from_str("node")
        } else {
            String::from_str("bash")
        }
    }
}

// ---------------------------------------------------------------------------
// Conversion to the store's formats
// ---------------------------------------------------------------------------

/// The uppercase mapping of a character (`char::to_uppercase`).
pub uninterp spec fn char_upper(c: char) -> Seq<char>;

/// Calls `char::to_uppercase`; the result is the named mapping.
#[verifier::external_body]
fn upper_char(c: char) -> (r: String)
    ensures
        r@ == char_upper(c),
{
    c.to_uppercase().collect()
}

/// The pieces of `s` between occurrences of `c`, empty pieces kept
/// (`str::split`).
pub open spec fn split_on(s: Seq<char>, c: char) -> Seq<Seq<char>>
    decreases s.len(),
{
    if s.len() == 0 {
        seq![Seq::empty()]
    } else {
        let p = split_on(s.drop_last(), c);
        if s.last() == c {
            p.push(Seq::empty())
        } else {
            p.update(p.len() - 1, p.last().push(s.last()))
        }
    }
}

/// `str::split` yields at least one piece.
pub proof fn lemma_split_on_nonempty_pub(s: Seq<char>, c: char)
    ensures
        split_on(s, c).len() > 0,
{
    lemma_split_on_nonempty(s, c);
}

proof fn lemma_split_on_nonempty(s: Seq<char>, c: char)
    ensures
        split_on(s, c).len() > 0,
    decreases s.len(),
{
    if s.len() > 0 {
        lemma_split_on_nonempty(s.drop_last(), c);
    }
}

/// A word with its first character in uppercase.
pub open spec fn capitalize(w: Seq<char>) -> Seq<char> {
    if w.len() == 0 { Seq::empty() } else { char_upper(w[0]) + w.skip(1) }
}

/// The words joined with single spaces, each capitalized.
pub open spec fn join_capitalized(ws: Seq<Seq<char>>) -> Seq<char>
    decreases ws.len(),
{
    if ws.len() == 0 {
        Seq::empty()
    } else if ws.len() == 1 {
        capitalize(ws[0])
    } else {
        join_capitalized(ws.drop_last()) + " "@ + capitalize(ws.last())
    }
}

/// The title of a skill name: its hyphen-separated words capitalized and
/// joined with spaces.
pub open spec fn title_of(name: Seq<char>) -> Seq<char> {
    join_capitalized(split_on(name, '-'))
}

fn capitalize_exec(w: &[char]) -> (r: String)
    ensures
        r@ == capitalize(w@),
{
    if w.len() == 0 {
        String::new()
    } else {
        let mut s = upper_char(w[0]);
        let rest = sub_chars(w, 1, w.len());
        assert(rest@ =~= w@.skip(1));
        let t = string_of(rest.as_slice());
        s.append(t.as_str());
        s
    }
}

/// Splits a text at every occurrence of `c`, keeping empty pieces
/// (`str::split`).
pub fn split_on_char(text: &str, c: char) -> (r: Vec<String>)
    ensures
        views(r@) == split_on(text@, c),
{
    let chars = chars_of(text);
    let mut pieces: Vec<Vec<char>> = Vec::new();
    let mut cur: Vec<char> = Vec::new();
    let mut i: usize = 0;
    assert(chars@.take(0) =~= Seq::<char>::empty());
    while i < chars.len()
        invariant
            i <= chars.len(),
            pieces@.map_values(|w: Vec<char>| w@).push(cur@) == split_on(chars@.take(i as int), c),
        decreases chars.len() - i,
    {
        let ch = chars[i];
        let ghost t = chars@.take(i as int + 1);
        assert(t.drop_last() =~= chars@.take(i as int));
        assert(t.last() == ch);
        let ghost old_pieces = pieces@.map_values(|w: Vec<char>| w@);
        let ghost old_cur = cur@;
        if ch == c {
            let w = cur;
            pieces.push(w);
            cur = Vec::new();
            assert(pieces@.map_values(|w: Vec<char>| w@).push(cur@) =~= old_pieces.push(old_cur).push(Seq::empty()));
        } else {
            cur.push(ch);
            assert(pieces@.map_values(|w: Vec<char>| w@).push(cur@) =~= old_pieces.push(old_cur).update(
                old_pieces.len() as int,
                old_cur.push(ch),
            ));
        }
        i = i + 1;
    }
    assert(chars@.take(chars.len() as int) =~= chars@);
    pieces.push(cur);
    let ghost ws = pieces@.map_values(|w: Vec<char>| w@);
    let mut out: Vec<String> = Vec::new();
    let mut k: usize = 0;
    while k < pieces.len()
        invariant
            k <= pieces.len(),
            ws == pieces@.map_values(|w: Vec<char>| w@),
            views(out@) == ws.take(k as int),
        decreases pieces.len() - k,
    {
        let ghost before = out@;
        out.push(string_of(pieces[k].as_slice()));
        proof { lemma_views_push(before, out@.last()); }
        assert(ws.take(k as int + 1) =~= ws.take(k as int).push(ws[k as int]));
        k = k + 1;
    }
    assert(ws.take(pieces.len() as int) =~= ws);
    out
}

/// The title of a skill name.
pub fn title_from_name(name: &str) -> (r: String)
    ensures
        r@ == title_of(name@),
{
    let pieces = split_on_char(name, '-');
    let ghost ws = views(pieces@);
    proof { lemma_split_on_nonempty(name@, '-'); }
    let first = chars_of(pieces[0].as_str());
    let mut out = capitalize_exec(first.as_slice());
    assert(ws.take(1) =~= seq![ws[0]]);
    let mut k: usize = 1;
    while k < pieces.len()
        invariant
            1 <= k <= pieces.len(),
            ws == views(pieces@),
            out@ == join_capitalized(ws.take(k as int)),
        decreases pieces.len() - k,
    {
        out.append(" ");
        let wc = chars_of(pieces[k].as_str());
        let w = capitalize_exec(wc.as_slice());
        out.append(w.as_str());
        assert(ws.take(k as int + 1).drop_last() =~= ws.take(k as int));
        k = k + 1;
    }
    assert(ws.take(pieces.len() as int) =~= ws);
    out
}

/// `s` without trailing dots.
pub open spec fn trim_end_dots(s: Seq<char>) -> Seq<char>
    decreases s.len(),
{
    if s.len() > 0 && s.last() == '.' { trim_end_dots(s.drop_last()) } else { s }
}

/// The words longer than 3 bytes, in order.
pub open spec fn long_words(ws: Seq<Seq<char>>) -> Seq<Seq<char>>
    decreases ws.len(),
{
    if ws.len() == 0 {
        Seq::empty()
    } else {
        let r = long_words(ws.drop_last());
        if byte_len(ws.last()) > 3 { r.push(ws.last()) } else { r }
    }
}

/// The intent hints of a description: its first ten words longer than
/// three bytes, lowercased, without trailing dots.
pub open spec fn hint_words(desc: Seq<char>) -> Seq<Seq<char>> {
    let l = long_words(split_whitespace(desc));
    let first = if l.len() <= 10 { l } else { l.take(10) };
    first.map_values(|w: Seq<char>| trim_end_dots(crate::text::lowercase(w)))
}

fn trim_end_dots_exec(s: &[char]) -> (r: Vec<char>)
    ensures
        r@ == trim_end_dots(s@),
{
    let mut n: usize = s.len();
    assert(s@.take(n as int) =~= s@);
    while n > 0 && s[n - 1] == '.'
        invariant
            n <= s.len(),
            trim_end_dots(s@.take(n as int)) == trim_end_dots(s@),
        decreases n,
    {
        assert(s@.take(n as int).drop_last() =~= s@.take(n as int - 1));
        n = n - 1;
    }
    assert(trim_end_dots(s@.take(n as int)) == s@.take(n as int));
    sub_chars(s, 0, n)
}

fn hint_words_exec(desc: &str) -> (r: Vec<String>)
    ensures
        views(r@) == hint_words(desc@),
{
    let words = split_str(desc, true);
    let ghost ws = views(words@);
    let mut long: Vec<String> = Vec::new();
    let mut i: usize = 0;
    while i < words.len()
        invariant
            i <= words.len(),
            ws == views(words@),
            views(long@) == long_words(ws.take(i as int)),
        decreases words.len() - i,
    {
        let ghost t = ws.take(i as int + 1);
        assert(t.drop_last() =~= ws.take(i as int));
        assert(t.last() == words@[i as int]@);
        if str_bytes(words[i].as_str()) > 3 {
            let ghost before = long@;
            long.push(words[i].clone());
            proof { lemma_views_push(before, long@.last()); }
        }
        i = i + 1;
    }
    assert(ws.take(words.len() as int) =~= ws);
    let ghost l = views(long@);
    let ghost first = if l.len() <= 10 { l } else { l.take(10) };
    let count: usize = if long.len() <= 10 { long.len() } else { 10 };
    let mut out: Vec<String> = Vec::new();
    let mut k: usize = 0;
    while k < count
        invariant
            k <= count,
            count <= long@.len(),
            l == views(long@),
            first == (if l.len() <= 10 { l } else { l.take(10) }),
            first.len() == count,
            views(out@) == first.take(k as int).map_values(|w: Seq<char>| trim_end_dots(crate::text::lowercase(w))),
        decreases count - k,
    {
        let lw = crate::text::to_lowercase(long[k].as_str());
        let lc = chars_of(lw.as_str());
        let t = trim_end_dots_exec(lc.as_slice());
        let ghost before = out@;
        out.push(string_of(t.as_slice()));
        proof { lemma_views_push(before, out@.last()); }
        assert(first[k as int] == long@[k as int]@);
        assert(first.take(k as int + 1).map_values(|w: Seq<char>| trim_end_dots(crate::text::lowercase(w)))
            =~= first.take(k as int).map_values(|w: Seq<char>| trim_end_dots(crate::text::lowercase(w))).push(
            trim_end_dots(crate::text::lowercase(first[k as int])),
        ));
        k = k + 1;
    }
    assert(first.take(count as int) =~= first);
    out
}

/// The input schema of an Agent Skill: an open object, with the
/// description when there is one (members in key order).
pub open spec fn open_schema(desc: Option<Seq<char>>) -> Json {
    Json::Object(
        seq![("additionalProperties"@, Json::Bool(true))] + (match desc {
            Some(d) => seq![("description"@, Json::Str(d))],
            None => Seq::empty(),
        }) + seq![("properties"@, Json::Object(Seq::empty())), ("type"@, Json::Str("object"@))],
    )
}

/// Builds the open object schema.
pub fn open_object_schema(description: Option<&str>) -> (r: JsonValue)
    ensures
        r@ == open_schema(match description {
            Some(d) => Some(d@),
            None => None,
        }),
{
    let mut m: Vec<(String, JsonValue)> = Vec::new();
    m.push((String::from_str("additionalProperties"), JsonValue::Bool(true)));
    match description {
        Some(d) => m.push((String::from_str("description"), JsonValue::Str(String::from_str(d)))),
        None => {},
    }
    let props: Vec<(String, JsonValue)> = Vec::new();
    proof { crate::json::lemma_object_view(props); }
    assert(crate::json::member_views(props@) =~= Seq::<(Seq<char>, Json)>::empty());
    m.push((String::from_str("properties"), JsonValue::Object(props)));
    m.push((String::from_str("type"), JsonValue::Str(String::from_str("object"))));
    proof { crate::json::lemma_object_view(m); }
    let r = JsonValue::Object(m);
    assert(crate::json::member_views(m@) =~= (seq![("additionalProperties"@, Json::Bool(true))] + (match description {
        Some(d) => seq![("description"@, Json::Str(d@))],
        None => Seq::empty(),
    }) + seq![("properties"@, Json::Object(Seq::empty())), ("type"@, Json::Str("object"@))]));
    r
}

/// The description of a skill: its own, or a note naming it as a
/// command-only skill.
pub open spec fn skill_description(fm: AgentSkillsFrontmatter) -> Seq<char> {
    match fm.description {
        Some(d) => d@,
        None => "Command-only skill: "@ + fm.name@,
    }
}

/// The names of the files among `paths` that have one, in order.
pub open spec fn present_names(paths: Seq<Seq<char>>) -> Seq<Seq<char>>
    decreases paths.len(),
{
    if paths.len() == 0 {
        Seq::empty()
    } else {
        let r = present_names(paths.drop_last());
        match crate::isolation::file_name_of(paths.last()) {
            Some(n) => r.push(n),
            None => r,
        }
    }
}

/// `prefix` before each name.
pub open spec fn prefixed(prefix: Seq<char>, names: Seq<Seq<char>>) -> Seq<Seq<char>> {
    names.map_values(|n: Seq<char>| prefix + n)
}

/// Whether `t` is the bundled tool of the script file `f`.
pub open spec fn is_script_tool(t: BundledTool, f: Seq<char>) -> bool {
    &&& t.name@ == f
    &&& t.description@ == "Bundled script: "@ + f
    &&& views(t.command@) == seq![interpreter_for(f), f]
    &&& t.schema@ == open_schema(None)
}

fn file_names(paths: &Vec<String>) -> (r: Vec<String>)
    ensures
        views(r@) == present_names(views(paths@)),
{
    let ghost ps = views(paths@);
    let mut out: Vec<String> = Vec::new();
    let mut i: usize = 0;
    while i < paths.len()
        invariant
            i <= paths.len(),
            ps == views(paths@),
            views(out@) == present_names(ps.take(i as int)),
        decreases paths.len() - i,
    {
        let ghost t = ps.take(i as int + 1);
        assert(t.drop_last() =~= ps.take(i as int));
        assert(t.last() == paths@[i as int]@);
        match crate::isolation::path_file_name(paths[i].as_str()) {
            Some(n) => {
                let ghost before = out@;
                out.push(n);
                proof { lemma_views_push(before, out@.last()); }
            },
            None => {},
        }
        i = i + 1;
    }
    assert(ps.take(paths.len() as int) =~= ps);
    out
}

fn push_prefixed(out: &mut Vec<String>, prefix: &str, names: &Vec<String>)
    ensures
        views(final(out)@) == views(old(out)@) + prefixed(prefix@, views(names@)),
{
    let ghost start = views(out@);
    let mut i: usize = 0;
    while i < names.len()
        invariant
            i <= names.len(),
            views(out@) == start + prefixed(prefix@, views(names@)).take(i as int),
        decreases names.len() - i,
    {
        let ghost before = out@;
        out.push(concat2(prefix, names[i].as_str()));
        proof { lemma_views_push(before, out@.last()); }
        assert(prefixed(prefix@, views(names@)).take(i as int + 1) =~= prefixed(prefix@, views(names@)).take(
            i as int,
        ).push(prefix@ + names@[i as int]@));
        assert(start + prefixed(prefix@, views(names@)).take(i as int + 1) =~= (start + prefixed(
            prefix@,
            views(names@),
        ).take(i as int)).push(prefix@ + names@[i as int]@));
        i = i + 1;
    }
    assert(prefixed(prefix@, views(names@)).take(names.len() as int) =~= prefixed(prefix@, views(names@)));
}

impl AgentSkill {
    /// The store's manifest of this skill: the name as identifier, its
    /// title, version and description, an open input schema, a script
    /// entrypoint when there are scripts, the pre-approved tools (or `"*"`)
    /// as allowed tools, and the description's leading words as intent
    /// hints.
    pub fn to_skill_manifest(&self) -> (m: crate::storage::SkillManifest)
        ensures
            m.id@ == self.frontmatter.name@,
            m.title@ == title_of(self.frontmatter.name@),
            m.version@ == skill_version(self.frontmatter),
            m.description@ == skill_description(self.frontmatter),
            m.inputs@ == open_schema(Some(skill_description(self.frontmatter))),
            m.outputs is None,
            m.entrypoint == (if self.scripts@.len() > 0 {
                crate::storage::EntrypointType::Script
            } else {
                crate::storage::EntrypointType::Prompted
            }),
            views(m.tool_policy.allow@) == ({
                let a = match self.frontmatter.allowed_tools {
                    Some(a) => allowed_list(a),
                    None => Seq::empty(),
                };
                if a.len() == 0 { seq!["*"@] } else { a }
            }),
            m.tool_policy.deny@.len() == 0,
            m.tool_policy.required@.len() == 0,
            views(m.hints.intent@) == hint_words(skill_description(self.frontmatter)),
            m.hints.domain@.len() == 0,
            m.hints.outcomes@.len() == 0,
            m.hints.expected_calls is None,
            m.risk_tier is None,
    {
        let entrypoint = if self.has_scripts() {
            crate::storage::EntrypointType::Script
        } else {
            crate::storage::EntrypointType::Prompted
        };
        let allowed = self.parse_allowed_tools();
        let allow = if allowed.len() == 0 {
            let mut v: Vec<String> = Vec::new();
            v.push(String::from_str("*"));
            assert(views(v@) =~= seq!["*"@]);
            v
        } else {
            allowed
        };
        let description = match &self.frontmatter.description {
            Some(d) => d.clone(),
            None => concat2("Command-only skill: ", self.frontmatter.name.as_str()),
        };
        let intent = hint_words_exec(description.as_str());
        let inputs = open_object_schema(Some(description.as_str()));
        crate::storage::SkillManifest {
            id: self.frontmatter.name.clone(),
            title: title_from_name(self.frontmatter.name.as_str()),
            version: self.version(),
            description,
            inputs,
            outputs: None,
            entrypoint,
            tool_policy: crate::storage::ToolPolicy { allow, deny: Vec::new(), required: Vec::new() },
            hints: crate::storage::SkillHints {
                intent,
                domain: Vec::new(),
                outcomes: Vec::new(),
                expected_calls: None,
            },
            risk_tier: None,
        }
    }

    /// What the skill discloses: its body, its scripts as bundled tools,
    /// its references and assets as additional files, and its pre-approved
    /// tools.
    pub fn to_skill_content(&self) -> (c: crate::storage::SkillContent)
        ensures
            c.skill_md@ == self.content@,
            c.bundled_tools@.len() == present_names(views(self.scripts@)).len(),
            forall|i: int| 0 <= i < c.bundled_tools@.len() ==> is_script_tool(
                #[trigger] c.bundled_tools@[i],
                present_names(views(self.scripts@))[i],
            ),
            views(c.additional_files@) == prefixed("references/"@, present_names(views(self.references@)))
                + prefixed("assets/"@, present_names(views(self.assets@))),
            views(c.uses_tools@) == match self.frontmatter.allowed_tools {
                Some(a) => allowed_list(a),
                None => Seq::empty(),
            },
    {
        let names = file_names(&self.scripts);
        let ghost ns = views(names@);
        let mut tools: Vec<BundledTool> = Vec::new();
        let mut i: usize = 0;
        while i < names.len()
            invariant
                i <= names.len(),
                ns == views(names@),
                tools@.len() == i,
                forall|j: int| 0 <= j < i ==> is_script_tool(#[trigger] tools@[j], ns[j]),
            decreases names.len() - i,
        {
            let f = names[i].as_str();
            let mut command: Vec<String> = Vec::new();
            command.push(AgentSkill::infer_interpreter(f));
            command.push(String::from_str(f));
            assert(views(command@) =~= seq![interpreter_for(f@), f@]);
            let t = BundledTool {
                name: String::from_str(f),
                description: concat2("Bundled script: ", f),
                command,
                schema: open_object_schema(None),
            };
            tools.push(t);
            i = i + 1;
        }
        let mut files: Vec<String> = Vec::new();
        assert(views(files@) =~= Seq::<Seq<char>>::empty());
        let refs = file_names(&self.references);
        push_prefixed(&mut files, "references/", &refs);
        let assets = file_names(&self.assets);
        push_prefixed(&mut files, "assets/", &assets);
        assert(Seq::<Seq<char>>::empty() + prefixed("references/"@, views(refs@)) =~= prefixed(
            "references/"@,
            views(refs@),
        ));
        crate::storage::SkillContent {
            skill_md: self.content.clone(),
            additional_files: files,
            bundled_tools: tools,
            uses_tools: self.parse_allowed_tools(),
        }
    }
}

} // verus!
