//! Core types: callable identifiers and records, risk tiers, schema digests,
//! tool results and distilled signatures.
use vstd::prelude::*;
use vstd::string::StringSliceAdditionalSpecFns;
use crate::json::{Json, JsonValue, json_copy, json_views};
use crate::text::{
    chars_of, concat2, contains_sub, first_occurrence, occurs_at, lowercase, seq_find, seq_starts_with, starts_with,
    string_of, sub_chars, to_lowercase, views, lemma_views_push,
};

verus! {

/// Errors of the core types.
#[derive(Debug)]
pub enum CoreError {
    InvalidCallableId(String),
    CanonicalizeError(String),
    InvalidRiskTier(String),
    SerializationError(String),
}

impl CoreError {
    /// The error's message (`Display`).
    pub fn message(&self) -> (r: String)
        ensures
            self matches CoreError::InvalidCallableId(m) ==> r@ == "Invalid callable ID format: "@ + m@,
            self matches CoreError::CanonicalizeError(m) ==> r@ == "Schema canonicalization failed: "@ + m@,
            self matches CoreError::InvalidRiskTier(m) ==> r@ == "Invalid risk tier: "@ + m@,
            self matches CoreError::SerializationError(m) ==> r@ == "Serialization error: "@ + m@,
    {
        match self {
            CoreError::InvalidCallableId(m) => concat2("Invalid callable ID format: ", m.as_str()),
            CoreError::CanonicalizeError(m) => concat2("Schema canonicalization failed: ", m.as_str()),
            CoreError::InvalidRiskTier(m) => concat2("Invalid risk tier: ", m.as_str()),
            CoreError::SerializationError(m) => concat2("Serialization error: ", m.as_str()),
        }
    }
}

// ---------------------------------------------------------------------------
// Risk tiers
// ---------------------------------------------------------------------------

/// Risk tier classification for callables.  The declaration order is the
/// order of risk; `Unknown` ranks last.
#[derive(Debug, Clone, Copy, PartialEq, Eq, Structural, PartialOrd, Ord, Hash)]
pub enum RiskTier {
    /// Read-only operations
    ReadOnly,
    /// Operations that write data
    Writes,
    /// Operations that can destroy data
    Destructive,
    /// Administrative operations
    Admin,
    /// Unknown risk level (default for untrusted sources)
    Unknown,
}

/// Position of a tier in the risk order.
pub open spec fn risk_rank(t: RiskTier) -> nat {
    match t {
        RiskTier::ReadOnly => 0,
        RiskTier::Writes => 1,
        RiskTier::Destructive => 2,
        RiskTier::Admin => 3,
        RiskTier::Unknown => 4,
    }
}

/// The textual name of a tier, as displayed.
pub open spec fn risk_name(t: RiskTier) -> Seq<char> {
    match t {
        RiskTier::ReadOnly => "read_only"@,
        RiskTier::Writes => "writes"@,
        RiskTier::Destructive => "destructive"@,
        RiskTier::Admin => "admin"@,
        RiskTier::Unknown => "unknown"@,
    }
}

/// The tier a (lowercased) name denotes, if any.
pub open spec fn risk_from_lower(s: Seq<char>) -> Option<RiskTier> {
    if s == "read_only"@ || s == "readonly"@ {
        Some(RiskTier::ReadOnly)
    } else if s == "writes"@ || s == "write"@ {
        Some(RiskTier::Writes)
    } else if s == "destructive"@ {
        Some(RiskTier::Destructive)
    } else if s == "admin"@ {
        Some(RiskTier::Admin)
    } else if s == "unknown"@ {
        Some(RiskTier::Unknown)
    } else {
        None
    }
}

/// The tier that `RiskTier::from_str` yields for `s`, if any.
pub open spec fn parse_risk(s: Seq<char>) -> Option<RiskTier> {
    risk_from_lower(lowercase(s))
}

impl RiskTier {
    /// Whether executing a callable of this tier needs explicit consent.
    pub open spec fn spec_requires_consent(self) -> bool {
        self is Writes || self is Destructive || self is Admin
    }

    pub fn requires_consent(&self) -> (r: bool)
        ensures
            r == self.spec_requires_consent(),
    {
        match self {
            RiskTier::Writes | RiskTier::Destructive | RiskTier::Admin => true,
            _ => false,
        }
    }

    /// Position of the tier in the risk order.
    pub fn rank(&self) -> (r: u8)
        ensures
            r == risk_rank(*self),
    {
        match self {
            RiskTier::ReadOnly => 0,
            RiskTier::Writes => 1,
            RiskTier::Destructive => 2,
            RiskTier::Admin => 3,
            RiskTier::Unknown => 4,
        }
    }

    /// The tier's name (`Display`).
    pub fn name(&self) -> (r: String)
        ensures
            r@ == risk_name(*self),
    {
        let s = match self {
            RiskTier::ReadOnly => "read_only",
            RiskTier::Writes => "writes",
            RiskTier::Destructive => "destructive",
            RiskTier::Admin => "admin",
            RiskTier::Unknown => "unknown",
        };
        String::from_str(s)
    }

    /// The default tier (`Unknown`).
    pub fn default_tier() -> (r: RiskTier)
        ensures
            r == RiskTier::Unknown,
    {
        RiskTier::Unknown
    }
}

/// Whether the characters `s` equal the literal `lit`.
pub fn chars_are(s: &[char], lit: &str) -> (r: bool)
    ensures
        r == (s@ == lit@),
{
    let l = chars_of(lit);
    crate::text::seq_eq(s, l.as_slice())
}

/// Parses a risk tier name, ignoring case (`RiskTier::from_str`).
pub fn parse_risk_tier(s: &str) -> (r: Result<RiskTier, CoreError>)
    ensures
        match r {
            Ok(t) => parse_risk(s@) == Some(t),
            Err(e) => parse_risk(s@) is None && (e matches CoreError::InvalidRiskTier(m) && m@ == s@),
        },
{
    let lower = to_lowercase(s);
    let l = chars_of(lower.as_str());
    let ls = l.as_slice();
    if chars_are(ls, "read_only") || chars_are(ls, "readonly") {
        Ok(RiskTier::ReadOnly)
    } else if chars_are(ls, "writes") || chars_are(ls, "write") {
        Ok(RiskTier::Writes)
    } else if chars_are(ls, "destructive") {
        Ok(RiskTier::Destructive)
    } else if chars_are(ls, "admin") {
        Ok(RiskTier::Admin)
    } else if chars_are(ls, "unknown") {
        Ok(RiskTier::Unknown)
    } else {
        Err(CoreError::InvalidRiskTier(String::from_str(s)))
    }
}

impl std::str::FromStr for RiskTier {
    type Err = CoreError;

    fn from_str(s: &str) -> (r: Result<RiskTier, CoreError>)
        ensures
            match parse_risk(s@) {
                Some(t) => r == Ok::<RiskTier, CoreError>(t),
                None => r matches Err(CoreError::InvalidRiskTier(x)) && x@ == s@,
            },
    {
        parse_risk_tier(s)
    }
}

// ---------------------------------------------------------------------------
// Callable kinds and identifiers
// ---------------------------------------------------------------------------

/// Kind of callable (tool or skill).
#[derive(Debug, Clone, Copy, PartialEq, Eq, Structural, Hash)]
pub enum CallableKind {
    Tool,
    Skill,
}

/// The displayed name of a kind.
pub open spec fn kind_name(k: CallableKind) -> Seq<char> {
    match k {
        CallableKind::Tool => "tool"@,
        CallableKind::Skill => "skill"@,
    }
}

impl CallableKind {
    /// The kind's name (`Display`).
    pub fn name(&self) -> (r: String)
        ensures
            r@ == kind_name(*self),
    {
        match self {
            CallableKind::Tool => String::from_str("tool"),
            CallableKind::Skill => String::from_str("skill"),
        }
    }
}

/// The part of `s` before the first occurrence of `p` (all of `s` if none):
/// the first item of `s.split(p)`.
pub open spec fn before_first(s: Seq<char>, p: Seq<char>) -> Seq<char> {
    match first_occurrence(s, p) {
        Some(i) => s.take(i),
        None => s,
    }
}

/// The part of `s` after the first occurrence of `p`, if `p` occurs.
pub open spec fn after_first(s: Seq<char>, p: Seq<char>) -> Option<Seq<char>> {
    match first_occurrence(s, p) {
        Some(i) => Some(s.skip(i + p.len())),
        None => None,
    }
}

/// The second item of `s.split(p)`, if there is one.
pub open spec fn second_piece(s: Seq<char>, p: Seq<char>) -> Option<Seq<char>> {
    match after_first(s, p) {
        Some(rest) => Some(before_first(rest, p)),
        None => None,
    }
}

/// Splits `s` at the first occurrence of `p`.
pub fn split_once(s: &[char], p: &[char]) -> (r: (Vec<char>, Option<Vec<char>>))
    requires
        p.len() > 0,
    ensures
        r.0@ == before_first(s@, p@),
        match r.1 {
            Some(rest) => after_first(s@, p@) == Some(rest@),
            None => after_first(s@, p@) is None,
        },
{
    match seq_find(s, p) {
        Some(i) => {
            assert(occurs_at(s@, p@, i as int));
            assert(i + p.len() <= s.len());
            let head = sub_chars(s, 0, i);
            let tail = sub_chars(s, i + p.len(), s.len());
            assert(head@ =~= s@.take(i as int));
            assert(tail@ =~= s@.skip(i + p@.len()));
            (head, Some(tail))
        },
        None => {
            let head = sub_chars(s, 0, s.len());
            assert(head@ =~= s@);
            (head, None)
        },
    }
}

/// The prefix of a digest that `&digest[..8.min(digest.len())]` selects.
pub open spec fn digest8(d: Seq<char>) -> Seq<char> {
    let b = vstd::utf8::encode_utf8(d);
    vstd::utf8::decode_utf8(b.subrange(0, if b.len() < 8 { b.len() as int } else { 8 }))
}

/// Whether `&digest[..8.min(digest.len())]` is defined (does not panic).
pub open spec fn digest8_ok(d: Seq<char>) -> bool {
    let b = vstd::utf8::encode_utf8(d);
    vstd::utf8::is_char_boundary(b, if b.len() < 8 { b.len() as int } else { 8 })
}

/// `&s[..8.min(s.len())]`, copied.
pub fn prefix8(s: &str) -> (r: String)
    requires
        digest8_ok(s@),
    ensures
        r@ == digest8(s@),
{
    let bytes = s.as_bytes();
    let n: usize = if bytes.len() < 8 { bytes.len() } else { 8 };
    assert(s.spec_bytes() == vstd::utf8::encode_utf8(s@));
    let (a, _b) = s.split_at(n);
    proof {
        vstd::utf8::encode_utf8_decode_utf8(a@);
    }
    a.to_owned()
}

/// Text of a tool identifier.
pub open spec fn tool_id_text(alias: Seq<char>, name: Seq<char>, digest: Seq<char>) -> Seq<char> {
    "tool:srv:"@ + alias + "::"@ + name + "::sd:"@ + digest8(digest)
}

/// Text of a skill identifier.
pub open spec fn skill_id_text(skill: Seq<char>, version: Seq<char>) -> Seq<char> {
    "skill:"@ + skill + "@"@ + version
}

/// The kind an identifier text names, if its prefix is known.
pub open spec fn id_kind(id: Seq<char>) -> Option<CallableKind> {
    if starts_with(id, "tool:"@) {
        Some(CallableKind::Tool)
    } else if starts_with(id, "skill:"@) {
        Some(CallableKind::Skill)
    } else {
        None
    }
}

/// The server alias of a tool identifier text.
pub open spec fn id_server_alias(id: Seq<char>) -> Option<Seq<char>> {
    if starts_with(id, "tool:srv:"@) {
        Some(before_first(id.skip(9), "::"@))
    } else {
        None
    }
}

/// The tool name of a tool identifier text.
pub open spec fn id_tool_name(id: Seq<char>) -> Option<Seq<char>> {
    if starts_with(id, "tool:srv:"@) {
        second_piece(id.skip(9), "::"@)
    } else {
        None
    }
}

/// The skill name of a skill identifier text.
pub open spec fn id_skill_name(id: Seq<char>) -> Option<Seq<char>> {
    if starts_with(id, "skill:"@) {
        Some(before_first(id.skip(6), "@"@))
    } else {
        None
    }
}

/// The first occurrence of `p` is at `i` when `p` occurs there and nowhere
/// before.
pub proof fn lemma_first_occurrence_at(s: Seq<char>, p: Seq<char>, i: int)
    requires
        occurs_at(s, p, i),
        forall|j: int| 0 <= j < i ==> !occurs_at(s, p, j),
    ensures
        first_occurrence(s, p) == Some(i),
{
    assert(contains_sub(s, p));
    let k = choose|k: int| occurs_at(s, p, k) && forall|j: int| 0 <= j < k ==> !occurs_at(s, p, j);
    if k < i {
        assert(!occurs_at(s, p, k));
    }
    if k > i {
        assert(!occurs_at(s, p, i));
    }
}

/// In `a + "::" + rest`, with no `':'` in `a`, the first `"::"` follows `a`.
/// Whether a part of an identifier is read back whole when `"::"` follows
/// it: it holds no `"::"` and does not end with `':'`.
pub open spec fn splits_cleanly(a: Seq<char>) -> bool {
    &&& !contains_sub(a, "::"@)
    &&& !(a.len() > 0 && a.last() == ':')
}

proof fn lemma_no_separator_inside(a: Seq<char>, rest: Seq<char>, j: int)
    requires
        splits_cleanly(a),
        0 <= j < a.len(),
    ensures
        !occurs_at(a + "::"@ + rest, "::"@, j),
{
    reveal_strlit("::");
    let s = a + "::"@ + rest;
    let p = "::"@;
    if occurs_at(s, p, j) {
        assert(s.subrange(j, j + 2)[0] == ':');
        assert(s.subrange(j, j + 2)[1] == ':');
        assert(s[j] == a[j]);
        if j + 1 < a.len() {
            assert(s[j + 1] == a[j + 1]);
            assert(a.subrange(j, j + 2) =~= p);
            assert(occurs_at(a, p, j));
            assert(contains_sub(a, p));
        } else {
            assert(a.last() == a[j]);
        }
    }
}

proof fn lemma_split_after_colonless(a: Seq<char>, rest: Seq<char>)
    requires
        splits_cleanly(a),
    ensures
        before_first(a + "::"@ + rest, "::"@) == a,
        after_first(a + "::"@ + rest, "::"@) == Some(rest),
{
    reveal_strlit("::");
    let s = a + "::"@ + rest;
    let p = "::"@;
    assert(s.subrange(a.len() as int, a.len() as int + 2) =~= p);
    assert forall|j: int| 0 <= j < a.len() implies !occurs_at(s, p, j) by {
        lemma_no_separator_inside(a, rest, j);
    }
    lemma_first_occurrence_at(s, p, a.len() as int);
    assert(s.take(a.len() as int) =~= a);
    assert(s.skip(a.len() as int + 2) =~= rest);
}

/// The parts of a tool identifier text with digest prefix `d8`.
proof fn lemma_tool_text_parts(alias: Seq<char>, name: Seq<char>, d8: Seq<char>)
    requires
        splits_cleanly(alias),
        splits_cleanly(name),
    ensures
        starts_with("tool:srv:"@ + alias + "::"@ + name + "::sd:"@ + d8, "tool:"@),
        starts_with("tool:srv:"@ + alias + "::"@ + name + "::sd:"@ + d8, "tool:srv:"@),
        before_first(("tool:srv:"@ + alias + "::"@ + name + "::sd:"@ + d8).skip(9), "::"@) == alias,
        second_piece(("tool:srv:"@ + alias + "::"@ + name + "::sd:"@ + d8).skip(9), "::"@) == Some(name),
{
    reveal_strlit("tool:srv:");
    reveal_strlit("tool:");
    reveal_strlit("::sd:");
    reveal_strlit("::");
    reveal_strlit("sd:");
    let t = "tool:srv:"@ + alias + "::"@ + name + "::sd:"@ + d8;
    let tail = name + "::"@ + ("sd:"@ + d8);
    assert(t.subrange(0, 5) =~= "tool:"@);
    assert(t.subrange(0, 9) =~= "tool:srv:"@);
    assert(t.skip(9) =~= alias + "::"@ + tail);
    lemma_split_after_colonless(alias, tail);
    lemma_split_after_colonless(name, "sd:"@ + d8);
}

/// A tool identifier names the tool kind, and gives back the server alias
/// and tool name it was made from, when neither holds `"::"` nor ends with
/// `':'`.
pub proof fn law_tool_id_round_trip(alias: Seq<char>, name: Seq<char>, digest: Seq<char>)
    requires
        splits_cleanly(alias),
        splits_cleanly(name),
    ensures
        id_kind(tool_id_text(alias, name, digest)) == Some(CallableKind::Tool),
        id_server_alias(tool_id_text(alias, name, digest)) == Some(alias),
        id_tool_name(tool_id_text(alias, name, digest)) == Some(name),
{
    lemma_tool_text_parts(alias, name, digest8(digest));
}

/// A skill identifier names the skill kind, and gives back the skill it
/// was made from, when that holds no `'@'`.
pub proof fn law_skill_id_round_trip(skill: Seq<char>, version: Seq<char>)
    requires
        !skill.contains('@'),
    ensures
        id_kind(skill_id_text(skill, version)) == Some(CallableKind::Skill),
        id_skill_name(skill_id_text(skill, version)) == Some(skill),
{
    reveal_strlit("skill:");
    reveal_strlit("tool:");
    reveal_strlit("@");
    let t = skill_id_text(skill, version);
    let p = "@"@;
    assert(t.subrange(0, 6) =~= "skill:"@);
    assert(t[0] == 's');
    assert(!starts_with(t, "tool:"@)) by {
        if starts_with(t, "tool:"@) {
            assert(t.subrange(0, 5)[0] == 't');
        }
    }
    let r = t.skip(6);
    assert(r =~= skill + p + version);
    assert(r.subrange(skill.len() as int, skill.len() as int + 1) =~= p);
    assert forall|j: int| 0 <= j < skill.len() implies !occurs_at(r, p, j) by {
        if occurs_at(r, p, j) {
            assert(r.subrange(j, j + 1)[0] == '@');
            assert(r[j] == skill[j]);
            assert(skill.contains('@'));
        }
    }
    lemma_first_occurrence_at(r, p, skill.len() as int);
    assert(r.take(skill.len() as int) =~= skill);
}

/// Stable identifier for a callable (tool or skill).
///
/// Format:
/// - Tools: `tool:srv:<alias>::<name>::sd:<digest8>`
/// - Skills: `skill:<skill_id>@<version>`
#[derive(Debug, Clone, PartialEq, Eq, Hash)]
pub struct CallableId(pub String);

impl View for CallableId {
    type V = Seq<char>;

    open spec fn view(&self) -> Seq<char> {
        self.0@
    }
}

impl CallableId {
    /// Creates a tool identifier.
    pub fn tool(server_alias: &str, tool_name: &str, schema_digest: &str) -> (r: CallableId)
        requires
            digest8_ok(schema_digest@),
        ensures
            r@ == tool_id_text(server_alias@, tool_name@, schema_digest@),
    {
        let d = prefix8(schema_digest);
        let mut s = String::from_str("tool:srv:");
        s.append(server_alias);
        s.append("::");
        s.append(tool_name);
        s.append("::sd:");
        s.append(d.as_str());
        CallableId(s)
    }

    /// Creates a skill identifier.
    pub fn skill(skill_id: &str, version: &str) -> (r: CallableId)
        ensures
            r@ == skill_id_text(skill_id@, version@),
    {
        let mut s = String::from_str("skill:");
        s.append(skill_id);
        s.append("@");
        s.append(version);
        CallableId(s)
    }

    /// The kind the identifier names.
    pub fn kind(&self) -> (r: Result<CallableKind, CoreError>)
        ensures
            match r {
                Ok(k) => id_kind(self@) == Some(k),
                Err(e) => id_kind(self@) is None && (e matches CoreError::InvalidCallableId(m)
                    && m@ == self@),
            },
    {
        let c = chars_of(self.0.as_str());
        let t = chars_of("tool:");
        let k = chars_of("skill:");
        if seq_starts_with(c.as_slice(), t.as_slice()) {
            Ok(CallableKind::Tool)
        } else if seq_starts_with(c.as_slice(), k.as_slice()) {
            Ok(CallableKind::Skill)
        } else {
            Err(CoreError::InvalidCallableId(self.0.clone()))
        }
    }

    /// The server alias of a tool identifier.
    pub fn server_alias(&self) -> (r: Option<String>)
        ensures
            match r {
                Some(a) => id_server_alias(self@) == Some(a@),
                None => id_server_alias(self@) is None,
            },
    {
        let c = chars_of(self.0.as_str());
        proof {
            reveal_strlit("tool:srv:");
            reveal_strlit("::");
        }
        let pre = chars_of("tool:srv:");
        if !seq_starts_with(c.as_slice(), pre.as_slice()) {
            return None;
        }
        let rest = sub_chars(c.as_slice(), 9, c.len());
        assert(rest@ =~= self@.skip(9));
        let sep = chars_of("::");
        let (head, _tail) = split_once(rest.as_slice(), sep.as_slice());
        Some(string_of(head.as_slice()))
    }

    /// The tool name of a tool identifier.
    pub fn tool_name(&self) -> (r: Option<String>)
        ensures
            match r {
                Some(a) => id_tool_name(self@) == Some(a@),
                None => id_tool_name(self@) is None,
            },
    {
        let c = chars_of(self.0.as_str());
        proof {
            reveal_strlit("tool:srv:");
            reveal_strlit("::");
        }
        let pre = chars_of("tool:srv:");
        if !seq_starts_with(c.as_slice(), pre.as_slice()) {
            return None;
        }
        let rest = sub_chars(c.as_slice(), 9, c.len());
        assert(rest@ =~= self@.skip(9));
        let sep = chars_of("::");
        let (_head, tail) = split_once(rest.as_slice(), sep.as_slice());
        match tail {
            Some(t) => {
                let (name, _more) = split_once(t.as_slice(), sep.as_slice());
                Some(string_of(name.as_slice()))
            },
            None => None,
        }
    }

    /// The skill name of a skill identifier.
    pub fn skill_name(&self) -> (r: Option<String>)
        ensures
            match r {
                Some(a) => id_skill_name(self@) == Some(a@),
                None => id_skill_name(self@) is None,
            },
    {
        let c = chars_of(self.0.as_str());
        proof {
            reveal_strlit("skill:");
            reveal_strlit("@");
        }
        let pre = chars_of("skill:");
        if !seq_starts_with(c.as_slice(), pre.as_slice()) {
            return None;
        }
        let rest = sub_chars(c.as_slice(), 6, c.len());
        assert(rest@ =~= self@.skip(6));
        let sep = chars_of("@");
        let (head, _tail) = split_once(rest.as_slice(), sep.as_slice());
        Some(string_of(head.as_slice()))
    }

    pub fn as_str(&self) -> (r: &str)
        ensures
            r@ == self@,
    {
        self.0.as_str()
    }

    /// An identifier holding exactly the given text.
    pub fn from_text(s: &str) -> (r: CallableId)
        ensures
            r@ == s@,
    {
        CallableId(String::from_str(s))
    }

    /// A copy of the identifier.
    pub fn copy(&self) -> (r: CallableId)
        ensures
            r@ == self@,
    {
        CallableId(self.0.clone())
    }
}

impl From<String> for CallableId {
    fn from(s: String) -> CallableId {
        CallableId(s)
    }
}

impl vstd::std_specs::convert::FromSpecImpl<String> for CallableId {
    open spec fn obeys_from_spec() -> bool {
        true
    }

    open spec fn from_spec(v: String) -> CallableId {
        CallableId(v)
    }
}


// ---------------------------------------------------------------------------
// Schema digests
// ---------------------------------------------------------------------------

/// BLAKE3 hash of `data`, in lowercase hexadecimal (`blake3::hash(..).to_hex()`).
pub uninterp spec fn blake3_hex(data: Seq<u8>) -> Seq<char>;

/// Whether `c` is a lowercase hexadecimal digit.
pub open spec fn is_lower_hex(c: char) -> bool {
    ('0' <= c && c <= '9') || ('a' <= c && c <= 'f')
}

/// Calls `blake3::hash` on the bytes of `text` and renders the hash with
/// `Hash::to_hex`.  The result is the named hash; as `to_hex` shows, it is
/// 64 lowercase hexadecimal characters.
#[verifier::external_body]
fn blake3_hex_of(text: &str) -> (r: String)
    ensures
        r@ == blake3_hex(text.spec_bytes()),
        r@.len() == 64,
        forall|i: int| 0 <= i < r@.len() ==> is_lower_hex(#[trigger] r@[i]),
{
    blake3::hash(text.as_bytes()).to_hex().to_string()
}

/// Schema digest using BLAKE3.
#[derive(Debug, Clone, PartialEq, Eq)]
pub struct SchemaDigest(pub String);

impl View for SchemaDigest {
    type V = Seq<char>;

    open spec fn view(&self) -> Seq<char> {
        self.0@
    }
}

/// ASCII characters encode as themselves, so every position is a boundary.
proof fn lemma_ascii_prefix8(s: Seq<char>)
    requires
        forall|i: int| 0 <= i < s.len() ==> is_lower_hex(#[trigger] s[i]),
    ensures
        digest8_ok(s),
        s.len() >= 8 ==> digest8(s) == s.take(8),
{
    lemma_ascii_boundary_all(s);
}

/// For a string of ASCII characters, byte positions are character positions.
proof fn lemma_ascii_boundary_all(s: Seq<char>)
    requires
        forall|i: int| 0 <= i < s.len() ==> is_lower_hex(#[trigger] s[i]),
    ensures
        digest8_ok(s),
        s.len() >= 8 ==> digest8(s) == s.take(8),
    decreases s.len(),
{
    broadcast use vstd::utf8::is_ascii_chars_encode_utf8;
    assert(vstd::utf8::is_ascii_chars(s)) by {
        assert forall|i: int| 0 <= i < s.len() implies (#[trigger] s[i]) as u32 <= 0x7F by {
            assert(is_lower_hex(s[i]));
        }
    }
    lemma_ascii_boundary_at(s, if s.len() < 8 { s.len() as int } else { 8 });
    if s.len() >= 8 {
        let b = vstd::utf8::encode_utf8(s);
        let t = s.take(8);
        assert(vstd::utf8::is_ascii_chars(t));
        assert(vstd::utf8::encode_utf8(t) =~= b.subrange(0, 8));
        vstd::utf8::encode_utf8_decode_utf8(t);
    }
}

proof fn lemma_ascii_boundary_at(s: Seq<char>, k: int)
    requires
        vstd::utf8::is_ascii_chars(s),
        0 <= k <= s.len(),
    ensures
        vstd::utf8::is_char_boundary(vstd::utf8::encode_utf8(s), k),
    decreases s.len(),
{
    broadcast use vstd::utf8::is_ascii_chars_encode_utf8;
    broadcast use vstd::utf8::encode_utf8_valid_utf8;
    let b = vstd::utf8::encode_utf8(s);
    if k > 0 {
        let t = s.drop_first();
        assert(vstd::utf8::is_ascii_chars(t));
        lemma_ascii_boundary_at(t, k - 1);
        vstd::utf8::encode_utf8_first_scalar(s);
        assert(vstd::utf8::pop_first_scalar(b) == vstd::utf8::encode_utf8(t));
        assert(vstd::utf8::length_of_first_scalar(b) == 1);
    }
}

impl SchemaDigest {
    /// The digest of a schema: the BLAKE3 hash of its canonical JSON text.
    pub fn from_schema(schema: &JsonValue) -> (r: Result<SchemaDigest, CoreError>)
        requires
            crate::canonical::unique_keys(schema@),
        ensures
            r matches Ok(d) ==> exists|c: Json|
                crate::canonical::is_canonical(c, schema@) && d@ == blake3_hex(
                    vstd::utf8::encode_utf8(crate::canonical::json_text(c)),
                ),
            r matches Ok(d) ==> digest8_ok(d@) && digest8(d@) == d@.take(8),
            r matches Ok(d) ==> d@.len() == 64 && forall|i: int| 0 <= i < 64 ==> is_lower_hex(#[trigger] d@[i]),
            forall|c: Json| crate::canonical::is_canonical(c, schema@) ==> (r is Ok
                <==> crate::canonical::numbers_read(c)),
            r matches Err(e) ==> e is SerializationError,
    {
        match crate::canonical::canonicalize_json(schema) {
            Ok(t) => Ok(SchemaDigest::from_canonical_text(t.as_str())),
            Err(e) => Err(e),
        }
    }

    /// Digest of the canonical JSON text of a schema.
    pub fn from_canonical_text(text: &str) -> (r: SchemaDigest)
        ensures
            r@ == blake3_hex(text.spec_bytes()),
            r@.len() == 64,
            forall|i: int| 0 <= i < 64 ==> is_lower_hex(#[trigger] r@[i]),
            digest8_ok(r@),
            digest8(r@) == r@.take(8),
    {
        let h = blake3_hex_of(text);
        proof {
            lemma_ascii_prefix8(h@);
        }
        SchemaDigest(h)
    }

    pub fn as_str(&self) -> (r: &str)
        ensures
            r@ == self@,
    {
        self.0.as_str()
    }

    /// The first 8 bytes of the digest.
    pub fn short(&self) -> (r: String)
        requires
            digest8_ok(self@),
        ensures
            r@ == digest8(self@),
    {
        prefix8(self.0.as_str())
    }

    /// A digest holding exactly the given text.
    pub fn from_text(s: &str) -> (r: SchemaDigest)
        ensures
            r@ == s@,
    {
        SchemaDigest(String::from_str(s))
    }
}

impl From<String> for SchemaDigest {
    fn from(s: String) -> SchemaDigest {
        SchemaDigest(s)
    }
}

impl vstd::std_specs::convert::FromSpecImpl<String> for SchemaDigest {
    open spec fn obeys_from_spec() -> bool {
        true
    }

    open spec fn from_spec(v: String) -> SchemaDigest {
        SchemaDigest(v)
    }
}


// ---------------------------------------------------------------------------
// Records
// ---------------------------------------------------------------------------

/// Cost hints for a callable.
#[derive(Debug, Clone, Copy, PartialEq, Eq, Structural)]
pub struct CostHints {
    pub expected_calls: Option<u32>,
    pub estimated_duration_ms: Option<u32>,
    pub network_required: bool,
    pub filesystem_access: bool,
}

impl CostHints {
    /// Hints with nothing known (`Default`).
    pub fn none() -> (r: CostHints)
        ensures
            r.expected_calls is None,
            r.estimated_duration_ms is None,
            !r.network_required,
            !r.filesystem_access,
    {
        CostHints {
            expected_calls: None,
            estimated_duration_ms: None,
            network_required: false,
            filesystem_access: false,
        }
    }
}

/// Bundled tool within a skill.
#[derive(Debug)]
pub struct BundledTool {
    pub name: String,
    pub description: String,
    pub command: Vec<String>,
    pub schema: JsonValue,
}

impl BundledTool {
    /// A copy of the tool.
    pub fn copy(&self) -> (r: BundledTool)
        ensures
            r.name@ == self.name@,
            r.description@ == self.description@,
            r.command@ == self.command@,
            r.schema@ == self.schema@,
    {
        BundledTool {
            name: self.name.clone(),
            description: self.description.clone(),
            command: self.command.clone(),
            schema: json_copy(&self.schema),
        }
    }
}

/// Main registry record for a callable (tool or skill).
#[derive(Debug)]
pub struct CallableRecord {
    pub id: CallableId,
    pub kind: CallableKind,
    pub fq_name: String,
    pub name: String,
    pub title: Option<String>,
    pub description: Option<String>,
    pub tags: Vec<String>,
    pub input_schema: JsonValue,
    pub output_schema: Option<JsonValue>,
    pub schema_digest: SchemaDigest,
    // Tool-specific fields
    pub server_alias: Option<String>,
    pub upstream_tool_name: Option<String>,
    // Skill-specific fields
    pub skill_version: Option<String>,
    pub uses: Vec<CallableId>,
    pub skill_directory: Option<String>,
    pub bundled_tools: Vec<BundledTool>,
    pub additional_files: Vec<String>,
    // Metadata
    pub cost_hints: CostHints,
    pub risk_tier: RiskTier,
    /// When the callable was last seen, in milliseconds since the Unix epoch.
    pub last_seen_ms: i64,
}

impl CallableRecord {
    pub fn is_tool(&self) -> (r: bool)
        ensures
            r == (self.kind == CallableKind::Tool),
    {
        self.kind == CallableKind::Tool
    }

    pub fn is_skill(&self) -> (r: bool)
        ensures
            r == (self.kind == CallableKind::Skill),
    {
        self.kind == CallableKind::Skill
    }
}

// ---------------------------------------------------------------------------
// Tool results
// ---------------------------------------------------------------------------

/// A resource returned by a tool.
#[derive(Debug)]
pub struct ResourceContent {
    pub uri: String,
    pub mime_type: Option<String>,
    pub text: Option<String>,
    pub blob: Option<String>,
}

/// MCP tool result content.
#[derive(Debug)]
pub enum ToolResultContent {
    Text { text: String },
    Image { data: String, mime_type: String },
    Resource { resource: ResourceContent },
}

/// MCP tool result.
#[derive(Debug)]
pub struct ToolResult {
    pub content: Vec<ToolResultContent>,
    pub structured_content: Option<JsonValue>,
    pub is_error: bool,
}

/// Whether `c` is the text content `t`.
pub open spec fn is_text(c: ToolResultContent, t: Seq<char>) -> bool {
    c matches ToolResultContent::Text { text } && text@ == t
}

impl ToolResult {
    /// A successful result holding one text.
    pub fn success(text: String) -> (r: ToolResult)
        ensures
            r.content@.len() == 1,
            is_text(r.content@[0], text@),
            r.structured_content is None,
            !r.is_error,
    {
        let mut content = Vec::new();
        content.push(ToolResultContent::Text { text });
        ToolResult { content, structured_content: None, is_error: false }
    }

    /// An error result holding one text.
    pub fn error(message: String) -> (r: ToolResult)
        ensures
            r.content@.len() == 1,
            is_text(r.content@[0], message@),
            r.structured_content is None,
            r.is_error,
    {
        let mut content = Vec::new();
        content.push(ToolResultContent::Text { text: message });
        ToolResult { content, structured_content: None, is_error: true }
    }

    /// The result with its structured content set to `data`.
    pub fn with_structured(self, data: JsonValue) -> (r: ToolResult)
        ensures
            r.content@ == self.content@,
            r.is_error == self.is_error,
            r.structured_content == Some(data),
    {
        let mut s = self;
        s.structured_content = Some(data);
        s
    }
}

/// MCP tool definition (upstream).
#[derive(Debug)]
pub struct ToolDefinition {
    pub name: String,
    pub description: Option<String>,
    pub input_schema: JsonValue,
}

// ---------------------------------------------------------------------------
// Distilled signatures
// ---------------------------------------------------------------------------

/// Distilled signature for a callable (human-readable schema summary).
#[derive(Debug)]
pub struct CallableSignature {
    pub required: Vec<String>,
    pub optional: Vec<String>,
    /// Constraint text per property, in property order.
    pub constraints: Vec<(String, String)>,
    pub examples: Vec<JsonValue>,
}

/// The strings among the JSON values `a`, in order.
pub open spec fn json_strings(a: Seq<Json>) -> Seq<Seq<char>>
    decreases a.len(),
{
    if a.len() == 0 {
        Seq::empty()
    } else {
        let rest = json_strings(a.drop_last());
        match a.last().as_str() {
            Some(s) => rest.push(s),
            None => rest,
        }
    }
}

/// The required property names of a schema.
pub open spec fn sig_required(schema: Json) -> Seq<Seq<char>> {
    match schema.get_array("required"@) {
        Some(a) => json_strings(a),
        None => Seq::empty(),
    }
}

/// The properties of a schema, in order.
pub open spec fn sig_properties(schema: Json) -> Seq<(Seq<char>, Json)> {
    match schema.get("properties"@) {
        Some(Json::Object(m)) => m,
        _ => Seq::empty(),
    }
}

/// The names among the first `n` properties that are not in `req`, in order.
pub open spec fn sig_optional_upto(props: Seq<(Seq<char>, Json)>, req: Seq<Seq<char>>, n: int) -> Seq<Seq<char>>
    decreases n,
{
    if n <= 0 {
        Seq::empty()
    } else {
        let rest = sig_optional_upto(props, req, n - 1);
        if req.contains(props[n - 1].0) {
            rest
        } else {
            rest.push(props[n - 1].0)
        }
    }
}

/// The optional property names (properties that are not required), in order.
pub open spec fn sig_optional(schema: Json) -> Seq<Seq<char>> {
    sig_optional_upto(sig_properties(schema), sig_required(schema), sig_properties(schema).len() as int)
}

/// The constraint text of a property: its type and description, joined
/// with `"; "`.
pub open spec fn constraint_text(prop: Json) -> Option<Seq<char>> {
    match prop {
        Json::Object(_) => {
            let t = prop.get_str("type"@);
            let d = prop.get_str("description"@);
            match (t, d) {
                (Some(t), Some(d)) => Some(t + "; "@ + d),
                (Some(t), None) => Some(t),
                (None, Some(d)) => Some(d),
                (None, None) => None,
            }
        },
        _ => None,
    }
}

/// The constraints of the first `n` properties, in order.
pub open spec fn sig_constraints_upto(props: Seq<(Seq<char>, Json)>, n: int) -> Seq<(Seq<char>, Seq<char>)>
    decreases n,
{
    if n <= 0 {
        Seq::empty()
    } else {
        let rest = sig_constraints_upto(props, n - 1);
        match constraint_text(props[n - 1].1) {
            Some(c) => rest.push((props[n - 1].0, c)),
            None => rest,
        }
    }
}

/// The constraints of a schema's properties, in property order.
pub open spec fn sig_constraints(schema: Json) -> Seq<(Seq<char>, Seq<char>)> {
    sig_constraints_upto(sig_properties(schema), sig_properties(schema).len() as int)
}

/// The examples of a schema.
pub open spec fn sig_examples(schema: Json) -> Seq<Json> {
    match schema.get_array("examples"@) {
        Some(a) => a,
        None => Seq::empty(),
    }
}

/// The views of constraint pairs.
pub open spec fn pair_views(v: Seq<(String, String)>) -> Seq<(Seq<char>, Seq<char>)> {
    v.map_values(|p: (String, String)| (p.0@, p.1@))
}

/// The strings among `a`, copied.
fn collect_strings(a: &Vec<JsonValue>) -> (r: Vec<String>)
    ensures
        views(r@) == json_strings(json_views(a@)),
{
    let ghost ja = json_views(a@);
    let mut out: Vec<String> = Vec::new();
    let mut i: usize = 0;
    while i < a.len()
        invariant
            i <= a.len(),
            ja == json_views(a@),
            views(out@) == json_strings(ja.take(i as int)),
        decreases a.len() - i,
    {
        let ghost t = ja.take(i as int + 1);
        assert(t.drop_last() =~= ja.take(i as int));
        assert(t.last() == a@[i as int]@);
        match a[i].as_str() {
            Some(s) => {
                proof { lemma_views_push(out@, *s); }
                out.push(s.clone());
            },
            None => {},
        }
        i = i + 1;
    }
    assert(ja.take(a.len() as int) =~= ja);
    out
}

/// The members of a JSON object as a slice, if the value is one.
fn object_members(v: &JsonValue) -> (r: Option<&Vec<(String, JsonValue)>>)
    ensures
        match r {
            Some(m) => v@ == Json::Object(crate::json::member_views(m@)),
            None => !(v@ is Object),
        },
{
    match v {
        JsonValue::Object(m) => {
            proof { crate::json::lemma_object_view(*m); }
            Some(m)
        },
        _ => None,
    }
}

impl CallableSignature {
    /// Distills a signature from a JSON Schema.
    pub fn from_schema(schema: &JsonValue) -> (r: CallableSignature)
        ensures
            views(r.required@) == (if schema@ is Object { sig_required(schema@) } else { Seq::empty() }),
            views(r.optional@) == (if schema@ is Object { sig_optional(schema@) } else { Seq::empty() }),
            pair_views(r.constraints@) == (if schema@ is Object { sig_constraints(schema@) } else { Seq::empty() }),
            json_views(r.examples@) == (if schema@ is Object { sig_examples(schema@) } else { Seq::empty() }),
    {
        let mut sig = CallableSignature {
            required: Vec::new(),
            optional: Vec::new(),
            constraints: Vec::new(),
            examples: Vec::new(),
        };
        if !schema.is_object() {
            assert(views(sig.required@) =~= Seq::<Seq<char>>::empty());
            assert(views(sig.optional@) =~= Seq::<Seq<char>>::empty());
            assert(pair_views(sig.constraints@) =~= Seq::<(Seq<char>, Seq<char>)>::empty());
            assert(json_views(sig.examples@) =~= Seq::<Json>::empty());
            return sig;
        }
        // Required fields
        match schema.get("required") {
            Some(req) => match req.as_array() {
                Some(a) => {
                    sig.required = collect_strings(a);
                },
                None => {
                    assert(views(sig.required@) =~= Seq::<Seq<char>>::empty());
                },
            },
            None => {
                assert(views(sig.required@) =~= Seq::<Seq<char>>::empty());
            },
        }
        assert(views(sig.required@) == sig_required(schema@));
        // Properties
        let ghost props = sig_properties(schema@);
        let ghost req = sig_required(schema@);
        match schema.get("properties") {
            Some(pv) => match object_members(pv) {
                Some(m) => {
                    let ghost mv = crate::json::member_views(m@);
                    assert(props == mv);
                    let mut i: usize = 0;
                    while i < m.len()
                        invariant
                            i <= m.len(),
                            props == mv,
                            mv == crate::json::member_views(m@),
                            views(sig.required@) == req,
                            views(sig.optional@) == sig_optional_upto(props, req, i as int),
                            pair_views(sig.constraints@) == sig_constraints_upto(props, i as int),
                            sig.examples@.len() == 0,
                        decreases m.len() - i,
                    {
                        let key = &m[i].0;
                        let prop = &m[i].1;
                        assert(props[i as int] == (key@, prop@));
                        let is_required = crate::text::vec_has_str(&sig.required, key.as_str());
                        proof {
                            assert(is_required == req.contains(key@)) by {
                                if is_required {
                                    let j = choose|j: int| 0 <= j < sig.required@.len() && sig.required@[j]@ == key@;
                                    assert(req[j] == key@);
                                } else if req.contains(key@) {
                                    let j = choose|j: int| 0 <= j < req.len() && req[j] == key@;
                                    assert(sig.required@[j]@ == key@);
                                }
                            }
                        }
                        if !is_required {
                            proof { lemma_views_push(sig.optional@, *key); }
                            sig.optional.push(key.clone());
                        }
                        // Constraints
                        let c = constraint_of(prop);
                        match c {
                            Some(text) => {
                                let ghost old_c = sig.constraints@;
                                sig.constraints.push((key.clone(), text));
                                assert(pair_views(sig.constraints@) =~= pair_views(old_c).push((key@, constraint_text(prop@)->0)));
                            },
                            None => {},
                        }
                        i = i + 1;
                    }
                    assert(props.take(m.len() as int) =~= props);
                },
                None => {
                    assert(props =~= Seq::<(Seq<char>, Json)>::empty());
                    assert(views(sig.optional@) =~= Seq::<Seq<char>>::empty());
                    assert(pair_views(sig.constraints@) =~= Seq::<(Seq<char>, Seq<char>)>::empty());
                },
            },
            None => {
                assert(props =~= Seq::<(Seq<char>, Json)>::empty());
                assert(views(sig.optional@) =~= Seq::<Seq<char>>::empty());
                assert(pair_views(sig.constraints@) =~= Seq::<(Seq<char>, Seq<char>)>::empty());
            },
        }
        // Examples
        match schema.get("examples") {
            Some(ev) => match ev.as_array() {
                Some(a) => {
                    sig.examples = copy_json_vec(a);
                },
                None => {
                    assert(json_views(sig.examples@) =~= Seq::<Json>::empty());
                },
            },
            None => {
                assert(json_views(sig.examples@) =~= Seq::<Json>::empty());
            },
        }
        sig
    }
}

/// The constraint text of one property.
fn constraint_of(prop: &JsonValue) -> (r: Option<String>)
    ensures
        match r {
            Some(t) => constraint_text(prop@) == Some(t@),
            None => constraint_text(prop@) is None,
        },
{
    if !prop.is_object() {
        return None;
    }
    let t = prop.get_str("type");
    let d = prop.get_str("description");
    match (t, d) {
        (Some(t), Some(d)) => {
            let mut s = t;
            s.append("; ");
            s.append(d.as_str());
            Some(s)
        },
        (Some(t), None) => Some(t),
        (None, Some(d)) => Some(d),
        (None, None) => None,
    }
}

/// A deep copy of a vector of JSON values.
pub fn copy_json_vec(a: &Vec<JsonValue>) -> (r: Vec<JsonValue>)
    ensures
        json_views(r@) == json_views(a@),
{
    let mut out: Vec<JsonValue> = Vec::new();
    let mut i: usize = 0;
    while i < a.len()
        invariant
            i <= a.len(),
            out@.len() == i,
            json_views(out@) == json_views(a@).take(i as int),
        decreases a.len() - i,
    {
        let c = json_copy(&a[i]);
        let ghost old = out@;
        out.push(c);
        assert(json_views(out@) =~= json_views(a@).take(i as int + 1)) by {
            assert forall|j: int| 0 <= j < i + 1 implies json_views(out@)[j] == json_views(a@)[j] by {
                if j < i {
                    assert(out@[j] == old[j]);
                    assert(json_views(old)[j] == json_views(a@).take(i as int)[j]);
                }
            }
        }
        i = i + 1;
    }
    assert(json_views(a@).take(a.len() as int) =~= json_views(a@));
    out
}

} // verus!
