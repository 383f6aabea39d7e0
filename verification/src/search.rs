//! Search over callables: tokenizing, query intent, field-weighted scoring
//! in three modes (literal, regex, fuzzy), filters, ranking and pagination.
//!
//! Scores are exact integers in hundredths of a point: the literal mode's
//! boost of 1.3 and penalty of 0.7 are factors of 13 and 7 tenths, so a
//! literal score is its base points times the two factors (each 10, 13 or
//! 7); the other modes score their base points times 100.
use vstd::prelude::*;
use crate::callables::{CallableKind, CallableRecord, risk_rank};
use crate::json::{Json, JsonValue};
use crate::text::{
    chars_of, contains_sub, lowercase, non_alnum_sep, seq_contains, split_str, split_words,
    to_lowercase, vec_has_str, views, lemma_has_str_views, lemma_views_push, str_eq, decimal,
};

verus! {

// ---------------------------------------------------------------------------
// Tokens
// ---------------------------------------------------------------------------

/// The tokens of a text: its lowercase form split at every character that is
/// not alphanumeric, empty pieces dropped.
pub open spec fn tokens_of(s: Seq<char>) -> Seq<Seq<char>> {
    split_words(lowercase(s), non_alnum_sep())
}

/// Tokenizes a text (lowercase, split on non-alphanumeric characters).
pub fn tokenize(text: &str) -> (r: Vec<String>)
    ensures
        views(r@) == tokens_of(text@),
{
    let lower = to_lowercase(text);
    split_str(lower.as_str(), false)
}

/// `s` without repeated items, each kept at its first occurrence.
pub open spec fn dedup(s: Seq<Seq<char>>) -> Seq<Seq<char>>
    decreases s.len(),
{
    if s.len() == 0 {
        Seq::empty()
    } else {
        let r = dedup(s.drop_last());
        if r.contains(s.last()) {
            r
        } else {
            r.push(s.last())
        }
    }
}

/// The distinct strings of `v`, in order of first occurrence.
fn dedup_strings(v: Vec<String>) -> (r: Vec<String>)
    ensures
        views(r@) == dedup(views(v@)),
{
    let ghost vs = views(v@);
    let mut out: Vec<String> = Vec::new();
    let mut i: usize = 0;
    while i < v.len()
        invariant
            i <= v.len(),
            vs == views(v@),
            views(out@) == dedup(vs.take(i as int)),
        decreases v.len() - i,
    {
        let ghost t = vs.take(i as int + 1);
        assert(t.drop_last() =~= vs.take(i as int));
        assert(t.last() == v@[i as int]@);
        let seen = vec_has_str(&out, v[i].as_str());
        proof { lemma_has_str_views(out@, v@[i as int]@); }
        if !seen {
            proof { lemma_views_push(out@, v@[i as int]); }
            out.push(v[i].clone());
        }
        i = i + 1;
    }
    assert(vs.take(v.len() as int) =~= vs);
    out
}

/// How many items of `qt` the sequence `toks` holds.
pub open spec fn count_members(qt: Seq<Seq<char>>, toks: Seq<Seq<char>>) -> nat
    decreases qt.len(),
{
    if qt.len() == 0 {
        0
    } else {
        count_members(qt.drop_last(), toks) + if toks.contains(qt.last()) { 1nat } else { 0nat }
    }
}

/// Whether the lowercase form of some word of `words` contains `t`.
pub open spec fn any_lower_contains(words: Seq<Seq<char>>, t: Seq<char>) -> bool
    decreases words.len(),
{
    words.len() > 0 && (any_lower_contains(words.drop_last(), t) || contains_sub(
        lowercase(words.last()),
        t,
    ))
}

/// How many items of `qt` some word of `words` contains, ignoring case.
pub open spec fn count_substr_hits(qt: Seq<Seq<char>>, words: Seq<Seq<char>>) -> nat
    decreases qt.len(),
{
    if qt.len() == 0 {
        0
    } else {
        count_substr_hits(qt.drop_last(), words) + if any_lower_contains(words, qt.last()) {
            1nat
        } else {
            0nat
        }
    }
}

fn count_members_exec(qt: &Vec<String>, toks: &Vec<String>) -> (r: usize)
    ensures
        r == count_members(views(qt@), views(toks@)),
        r <= qt@.len(),
{
    let ghost q = views(qt@);
    let mut n: usize = 0;
    let mut i: usize = 0;
    while i < qt.len()
        invariant
            i <= qt.len(),
            q == views(qt@),
            n <= i,
            n == count_members(q.take(i as int), views(toks@)),
        decreases qt.len() - i,
    {
        let ghost t = q.take(i as int + 1);
        assert(t.drop_last() =~= q.take(i as int));
        assert(t.last() == qt@[i as int]@);
        let hit = vec_has_str(toks, qt[i].as_str());
        proof { lemma_has_str_views(toks@, qt@[i as int]@); }
        if hit {
            n = n + 1;
        }
        i = i + 1;
    }
    assert(q.take(qt.len() as int) =~= q);
    n
}

fn any_lower_contains_exec(words: &Vec<String>, t: &str) -> (r: bool)
    ensures
        r == any_lower_contains(views(words@), t@),
{
    let ghost w = views(words@);
    let tc = chars_of(t);
    let mut found = false;
    let mut i: usize = 0;
    while i < words.len()
        invariant
            i <= words.len(),
            w == views(words@),
            tc@ == t@,
            found == any_lower_contains(w.take(i as int), t@),
        decreases words.len() - i,
    {
        let ghost s = w.take(i as int + 1);
        assert(s.drop_last() =~= w.take(i as int));
        assert(s.last() == words@[i as int]@);
        let lw = to_lowercase(words[i].as_str());
        let lc = chars_of(lw.as_str());
        let hit = seq_contains(lc.as_slice(), tc.as_slice());
        found = found || hit;
        i = i + 1;
    }
    assert(w.take(words.len() as int) =~= w);
    found
}

fn count_substr_hits_exec(qt: &Vec<String>, words: &Vec<String>) -> (r: usize)
    ensures
        r == count_substr_hits(views(qt@), views(words@)),
        r <= qt@.len(),
{
    let ghost q = views(qt@);
    let mut n: usize = 0;
    let mut i: usize = 0;
    while i < qt.len()
        invariant
            i <= qt.len(),
            q == views(qt@),
            n <= i,
            n == count_substr_hits(q.take(i as int), views(words@)),
        decreases qt.len() - i,
    {
        let ghost t = q.take(i as int + 1);
        assert(t.drop_last() =~= q.take(i as int));
        assert(t.last() == qt@[i as int]@);
        if any_lower_contains_exec(words, qt[i].as_str()) {
            n = n + 1;
        }
        i = i + 1;
    }
    assert(q.take(qt.len() as int) =~= q);
    n
}

// ---------------------------------------------------------------------------
// Query intent
// ---------------------------------------------------------------------------

/// What a query asks for: an outcome (favouring skills), an API (favouring
/// tools), or neither.
#[derive(Debug, Clone, Copy, PartialEq, Eq, Structural)]
pub enum QueryIntent {
    OutcomeBased,
    ApiBased,
    Neutral,
}

/// 1 when `l` contains `k`, else 0.
pub open spec fn hit(l: Seq<char>, k: Seq<char>) -> nat {
    if contains_sub(l, k) { 1 } else { 0 }
}

/// How many outcome keywords the lowercase query contains.
pub open spec fn outcome_hits(l: Seq<char>) -> nat {
    hit(l, "calibrate"@) + hit(l, "characterize"@) + hit(l, "measure"@) + hit(l, "generate"@)
        + hit(l, "report"@) + hit(l, "analyze"@) + hit(l, "plot"@) + hit(l, "sweep"@) + hit(l, "tune"@)
        + hit(l, "optimize"@) + hit(l, "workflow"@) + hit(l, "procedure"@) + hit(l, "sop"@)
        + hit(l, "end-to-end"@) + hit(l, "test"@) + hit(l, "verify"@)
}

/// How many API keywords the lowercase query contains.
pub open spec fn api_hits(l: Seq<char>) -> nat {
    hit(l, "path"@) + hit(l, "cursor"@) + hit(l, "bytes"@) + hit(l, "json"@) + hit(l, "schema"@)
        + hit(l, "id"@) + hit(l, "regex"@) + hit(l, "pattern"@) + hit(l, "list"@) + hit(l, "get"@)
        + hit(l, "read"@) + hit(l, "write"@)
}

/// The intent of a query: the kind of keyword it holds more of.
pub open spec fn intent_of(q: Seq<char>) -> QueryIntent {
    let l = lowercase(q);
    if outcome_hits(l) > api_hits(l) {
        QueryIntent::OutcomeBased
    } else if api_hits(l) > outcome_hits(l) {
        QueryIntent::ApiBased
    } else {
        QueryIntent::Neutral
    }
}

fn hit_exec(l: &[char], k: &str) -> (r: usize)
    ensures
        r == hit(l@, k@),
{
    let kc = chars_of(k);
    if seq_contains(l, kc.as_slice()) { 1 } else { 0 }
}

/// Detects the intent of a query from its keywords.
pub fn detect_intent(query: &str) -> (r: QueryIntent)
    ensures
        r == intent_of(query@),
{
    let lower = to_lowercase(query);
    let lc = chars_of(lower.as_str());
    let l = lc.as_slice();
    let outcome = hit_exec(l, "calibrate") + hit_exec(l, "characterize") + hit_exec(l, "measure")
        + hit_exec(l, "generate") + hit_exec(l, "report") + hit_exec(l, "analyze") + hit_exec(l, "plot")
        + hit_exec(l, "sweep") + hit_exec(l, "tune") + hit_exec(l, "optimize") + hit_exec(l, "workflow")
        + hit_exec(l, "procedure") + hit_exec(l, "sop") + hit_exec(l, "end-to-end") + hit_exec(l, "test")
        + hit_exec(l, "verify");
    let api = hit_exec(l, "path") + hit_exec(l, "cursor") + hit_exec(l, "bytes") + hit_exec(l, "json")
        + hit_exec(l, "schema") + hit_exec(l, "id") + hit_exec(l, "regex") + hit_exec(l, "pattern")
        + hit_exec(l, "list") + hit_exec(l, "get") + hit_exec(l, "read") + hit_exec(l, "write");
    if outcome > api {
        QueryIntent::OutcomeBased
    } else if api > outcome {
        QueryIntent::ApiBased
    } else {
        QueryIntent::Neutral
    }
}

// ---------------------------------------------------------------------------
// Scores
// ---------------------------------------------------------------------------

/// The top-level property names of an input schema.
pub open spec fn input_keys(schema: Json) -> Seq<Seq<char>> {
    match schema.get("properties"@) {
        Some(p) => p.keys(),
        None => Seq::empty(),
    }
}

/// Extracts the top-level input keys of a JSON schema.
pub fn extract_input_keys(schema: &JsonValue) -> (r: Vec<String>)
    ensures
        views(r@) == input_keys(schema@),
{
    match schema.get("properties") {
        Some(p) => p.keys(),
        None => {
            let v: Vec<String> = Vec::new();
            assert(views(v@) =~= Seq::<Seq<char>>::empty());
            v
        },
    }
}

/// Whether the lowercase query names a destructive action.
pub open spec fn destructive_hint(l: Seq<char>) -> bool {
    contains_sub(l, "delete"@) || contains_sub(l, "remove"@) || contains_sub(l, "destroy"@)
        || contains_sub(l, "drop"@) || contains_sub(l, "clear"@)
}

/// Base points of the literal mode.
pub open spec fn literal_base(q: Seq<char>, rec: CallableRecord) -> nat {
    let qt = dedup(tokens_of(q));
    let lq = lowercase(q);
    (if lowercase(rec.name@) == lq { 100nat } else { 0nat })
        + (if lowercase(rec.fq_name@) == lq { 90nat } else { 0nat })
        + 20 * count_members(qt, tokens_of(rec.name@))
        + (match rec.title {
            Some(t) => 10 * count_members(qt, tokens_of(t@)),
            None => 0,
        })
        + (match rec.description {
            Some(d) => 5 * count_members(qt, tokens_of(d@)),
            None => 0,
        })
        + 8 * count_substr_hits(qt, input_keys(rec.input_schema@))
        + 12 * count_substr_hits(qt, views(rec.tags@))
}

/// The intent boost, in tenths.
pub open spec fn intent_boost(intent: QueryIntent, kind: CallableKind) -> nat {
    match intent {
        QueryIntent::OutcomeBased => if kind == CallableKind::Skill { 13nat } else { 10nat },
        QueryIntent::ApiBased => if kind == CallableKind::Tool { 13nat } else { 10nat },
        QueryIntent::Neutral => 10,
    }
}

/// The risk penalty, in tenths: tiers from `Destructive` on are scored at
/// 0.7 unless the query names a destructive action.
pub open spec fn risk_penalty(q: Seq<char>, rec: CallableRecord) -> nat {
    if risk_rank(rec.risk_tier) >= 2 && !destructive_hint(lowercase(q)) { 7 } else { 10 }
}

/// The literal-mode score, in hundredths.
pub open spec fn literal_score(q: Seq<char>, rec: CallableRecord, intent: QueryIntent) -> nat {
    literal_base(q, rec) * intent_boost(intent, rec.kind) * risk_penalty(q, rec)
}

fn literal_base_exec(query: &str, record: &CallableRecord) -> (r: u128)
    ensures
        r == literal_base(query@, *record),
        r <= 190 + 55 * 0x1_0000_0000_0000_0000,
{
    let qt = dedup_strings(tokenize(query));
    let lq = to_lowercase(query);
    let ln = to_lowercase(record.name.as_str());
    let lf = to_lowercase(record.fq_name.as_str());
    let mut base: u128 = 0;
    if str_eq(ln.as_str(), lq.as_str()) {
        base = base + 100;
    }
    if str_eq(lf.as_str(), lq.as_str()) {
        base = base + 90;
    }
    let name_tokens = tokenize(record.name.as_str());
    let n = count_members_exec(&qt, &name_tokens);
    base = base + 20 * (n as u128);
    match &record.title {
        Some(t) => {
            let tt = tokenize(t.as_str());
            let c = count_members_exec(&qt, &tt);
            base = base + 10 * (c as u128);
        },
        None => {},
    }
    match &record.description {
        Some(d) => {
            let dt = tokenize(d.as_str());
            let c = count_members_exec(&qt, &dt);
            base = base + 5 * (c as u128);
        },
        None => {},
    }
    let keys = extract_input_keys(&record.input_schema);
    let k = count_substr_hits_exec(&qt, &keys);
    base = base + 8 * (k as u128);
    let g = count_substr_hits_exec(&qt, &record.tags);
    base = base + 12 * (g as u128);
    base
}

fn destructive_hint_exec(query: &str) -> (r: bool)
    ensures
        r == destructive_hint(lowercase(query@)),
{
    let lq = to_lowercase(query);
    let lqc = chars_of(lq.as_str());
    let l = lqc.as_slice();
    seq_contains(l, chars_of("delete").as_slice()) || seq_contains(l, chars_of("remove").as_slice())
        || seq_contains(l, chars_of("destroy").as_slice()) || seq_contains(l, chars_of("drop").as_slice())
        || seq_contains(l, chars_of("clear").as_slice())
}

/// Scores a record by literal token matching.
pub fn score_literal(query: &str, record: &CallableRecord, intent: QueryIntent) -> (r: u128)
    ensures
        r == literal_score(query@, *record, intent),
{
    let base = literal_base_exec(query, record);
    let boost: u128 = match intent {
        QueryIntent::OutcomeBased => if record.kind == CallableKind::Skill { 13 } else { 10 },
        QueryIntent::ApiBased => if record.kind == CallableKind::Tool { 13 } else { 10 },
        QueryIntent::Neutral => 10,
    };
    let hint = destructive_hint_exec(query);
    let penalty: u128 = if record.risk_tier.rank() >= 2 && !hint { 7 } else { 10 };
    let scaled = base * boost;
    assert(scaled <= (190 + 55 * 0x1_0000_0000_0000_0000) * 13) by (nonlinear_arith)
        requires
            scaled == base * boost,
            base <= 190 + 55 * 0x1_0000_0000_0000_0000,
            boost <= 13,
    ;
    assert(scaled * penalty <= (190 + 55 * 0x1_0000_0000_0000_0000) * 130) by (nonlinear_arith)
        requires
            scaled <= (190 + 55 * 0x1_0000_0000_0000_0000) * 13,
            penalty <= 10,
    ;
    scaled * penalty
}

// ---------------------------------------------------------------------------
// Regular expressions (`regex::Regex`)
// ---------------------------------------------------------------------------

#[verifier::external_type_specification]
#[verifier::external_body]
pub struct ExRegex(regex::Regex);

#[verifier::external_type_specification]
#[verifier::external_body]
pub struct ExRegexError(regex::Error);

/// Whether `regex::Regex::new` accepts the pattern.
pub uninterp spec fn regex_valid(pattern: Seq<char>) -> bool;

/// Whether the compiled pattern matches somewhere in the text
/// (`regex::Regex::is_match`).
pub uninterp spec fn regex_matches(pattern: Seq<char>, text: Seq<char>) -> bool;

/// A compiled regular expression with the pattern it was compiled from.
/// Only `compile_regex` builds one.
pub struct CompiledRegex {
    text: String,
    re: regex::Regex,
}

impl CompiledRegex {
    /// The pattern the expression was compiled from.
    pub closed spec fn source(&self) -> Seq<char> {
        self.text@
    }
}

/// Compiles a pattern with `regex::Regex::new`; it succeeds exactly when
/// `regex_valid` holds of the pattern.
#[verifier::external_body]
fn compile_regex(p: &str) -> (r: Result<CompiledRegex, regex::Error>)
    ensures
        r is Ok <==> regex_valid(p@),
        r matches Ok(c) ==> c.source() == p@,
{
    match regex::Regex::new(p) {
        Ok(re) => Ok(CompiledRegex { text: p.to_string(), re }),
        Err(e) => Err(e),
    }
}

/// Whether the expression matches somewhere in `text` (`Regex::is_match`).
#[verifier::external_body]
fn regex_is_match(c: &CompiledRegex, text: &str) -> (r: bool)
    ensures
        r == regex_matches(c.source(), text@),
{
    c.re.is_match(text)
}

/// The message of a regex compilation error (`Display for regex::Error`).
/// Nothing is stated of the text.
#[verifier::external_body]
fn regex_error_text(e: &regex::Error) -> (r: String) {
    e.to_string()
}

/// Errors of the search engine.
#[derive(Debug)]
pub enum IndexError {
    InvalidQuery(String),
    RegexError(regex::Error),
    Internal(String),
}

impl IndexError {
    /// The error's message (`Display`).
    pub fn message(&self) -> (r: String)
        ensures
            self matches IndexError::InvalidQuery(m) ==> r@ == "Invalid query: "@ + m@,
            self matches IndexError::Internal(m) ==> r@ == "Index error: "@ + m@,
    {
        match self {
            IndexError::InvalidQuery(m) => crate::text::concat2("Invalid query: ", m.as_str()),
            IndexError::Internal(m) => crate::text::concat2("Index error: ", m.as_str()),
            IndexError::RegexError(e) => {
                let t = regex_error_text(e);
                crate::text::concat2("Regex compilation failed: ", t.as_str())
            },
        }
    }
}

// ---------------------------------------------------------------------------
// Listing and grep
// ---------------------------------------------------------------------------

/// `p` with each `*` written as `.*`.
pub open spec fn stars_to_regex(p: Seq<char>) -> Seq<char>
    decreases p.len(),
{
    if p.len() == 0 {
        Seq::empty()
    } else if p.last() == '*' {
        stars_to_regex(p.drop_last()) + ".*"@
    } else {
        stars_to_regex(p.drop_last()).push(p.last())
    }
}

/// The case-insensitive regular expression of a glob: `(?i)` and the glob
/// with each `*` written as `.*`.
pub open spec fn glob_regex(p: Seq<char>) -> Seq<char> {
    "(?i)"@ + stars_to_regex(p)
}

/// The regular expression a glob pattern stands for.
pub fn glob_to_regex(pattern: &str) -> (r: String)
    ensures
        r@ == glob_regex(pattern@),
{
    proof {
        reveal_strlit(".*");
        reveal_strlit("(?i)");
    }
    let c = chars_of(pattern);
    let mut out = String::from_str("(?i)");
    let mut i: usize = 0;
    while i < c.len()
        invariant
            i <= c.len(),
            c@ == pattern@,
            out@ == "(?i)"@ + stars_to_regex(c@.take(i as int)),
        decreases c.len() - i,
    {
        let ghost t = c@.take(i as int + 1);
        assert(t.drop_last() =~= c@.take(i as int));
        assert(t.last() == c@[i as int]);
        if c[i] == '*' {
            out.append(".*");
            assert(out@ =~= "(?i)"@ + stars_to_regex(t));
        } else {
            crate::text::push_char(&mut out, c[i]);
            assert(out@ =~= "(?i)"@ + stars_to_regex(t));
        }
        i = i + 1;
    }
    assert(c@.take(c.len() as int) =~= pattern@);
    out
}

/// The callables whose name or full name the expression `re` matches, in
/// order.
pub open spec fn grep_matches(s: Seq<CallableRecord>, re: Seq<char>) -> Seq<CallableRecord>
    decreases s.len(),
{
    if s.len() == 0 {
        Seq::empty()
    } else {
        let r = grep_matches(s.drop_last(), re);
        if regex_matches(re, s.last().name@) || regex_matches(re, s.last().fq_name@) {
            r.push(s.last())
        } else {
            r
        }
    }
}

/// The callables whose name or full name matches a glob pattern, ignoring
/// case (`*` stands for any text, anywhere in the name); an error when the
/// pattern's regular expression does not compile.
pub fn grep_callables(pattern: &str, callables: Vec<CallableRecord>) -> (r: Result<Vec<CallableRecord>, IndexError>)
    ensures
        r is Ok <==> regex_valid(glob_regex(pattern@)),
        r matches Ok(v) ==> v@ == grep_matches(callables@, glob_regex(pattern@)),
        r matches Err(e) ==> e is RegexError,
{
    let text = glob_to_regex(pattern);
    let re = match compile_regex(text.as_str()) {
        Ok(c) => c,
        Err(e) => {
            return Err(IndexError::RegexError(e));
        },
    };
    let ghost orig = callables@;
    let ghost src = re.source();
    let mut rest = callables;
    let mut out: Vec<CallableRecord> = Vec::new();
    let ghost mut i: int = 0;
    assert(orig.skip(0) =~= orig);
    while rest.len() > 0
        invariant
            0 <= i <= orig.len(),
            rest@ == orig.skip(i),
            src == re.source(),
            out@ == grep_matches(orig.take(i), src),
        decreases rest.len(),
    {
        let x = rest.remove(0);
        proof {
            assert(x == orig[i]);
            assert(orig.take(i + 1).drop_last() =~= orig.take(i));
            assert(orig.take(i + 1).last() == orig[i]);
        }
        let keep = regex_is_match(&re, x.name.as_str()) || regex_is_match(&re, x.fq_name.as_str());
        if keep {
            out.push(x);
        }
        proof {
            assert(rest@ =~= orig.skip(i + 1));
            i = i + 1;
        }
    }
    assert(orig.take(i) =~= orig);
    Ok(out)
}

/// The callables of a server (all of them without one), in order.
pub open spec fn list_matches(s: Seq<CallableRecord>, server: Option<Seq<char>>) -> Seq<CallableRecord>
    decreases s.len(),
{
    if s.len() == 0 {
        Seq::empty()
    } else {
        let r = list_matches(s.drop_last(), server);
        let keep = match server {
            Some(srv) => opt_view(s.last().server_alias) == Some(srv),
            None => true,
        };
        if keep { r.push(s.last()) } else { r }
    }
}

/// The callables to list: those whose server alias is `server`, or all of
/// them when no server is named.
pub fn list_callables(callables: Vec<CallableRecord>, server: Option<&str>) -> (r: Vec<CallableRecord>)
    ensures
        r@ == list_matches(
            callables@,
            match server {
                Some(s) => Some(s@),
                None => None,
            },
        ),
{
    let ghost sv = match server {
        Some(s) => Some(s@),
        None => None::<Seq<char>>,
    };
    let ghost orig = callables@;
    let mut rest = callables;
    let mut out: Vec<CallableRecord> = Vec::new();
    let ghost mut i: int = 0;
    assert(orig.skip(0) =~= orig);
    while rest.len() > 0
        invariant
            0 <= i <= orig.len(),
            rest@ == orig.skip(i),
            sv == match server {
                Some(s) => Some(s@),
                None => None::<Seq<char>>,
            },
            out@ == list_matches(orig.take(i), sv),
        decreases rest.len(),
    {
        let x = rest.remove(0);
        proof {
            assert(x == orig[i]);
            assert(orig.take(i + 1).drop_last() =~= orig.take(i));
            assert(orig.take(i + 1).last() == orig[i]);
        }
        let keep = match server {
            Some(srv) => match &x.server_alias {
                Some(a) => str_eq(a.as_str(), srv),
                None => false,
            },
            None => true,
        };
        if keep {
            out.push(x);
        }
        proof {
            assert(rest@ =~= orig.skip(i + 1));
            i = i + 1;
        }
    }
    assert(orig.take(i) =~= orig);
    out
}

/// 1 when `b`, else 0.
pub open spec fn ind(b: bool) -> nat {
    if b { 1 } else { 0 }
}

/// Whether the optional field holds a text for which `p` holds.
pub open spec fn opt_field_matches(f: Option<String>, p: spec_fn(Seq<char>) -> bool) -> bool {
    match f {
        Some(t) => p(t@),
        None => false,
    }
}

/// The regex-mode score, in hundredths.
pub open spec fn regex_score(pattern: Seq<char>, rec: CallableRecord) -> nat {
    100 * (50 * ind(regex_matches(pattern, rec.name@)) + 40 * ind(regex_matches(pattern, rec.fq_name@))
        + 20 * ind(opt_field_matches(rec.title, |t: Seq<char>| regex_matches(pattern, t)))
        + 10 * ind(opt_field_matches(rec.description, |t: Seq<char>| regex_matches(pattern, t))))
}

fn opt_regex_match(re: &CompiledRegex, f: &Option<String>) -> (r: bool)
    ensures
        r == opt_field_matches(*f, |t: Seq<char>| regex_matches(re.source(), t)),
{
    match f {
        Some(t) => regex_is_match(re, t.as_str()),
        None => false,
    }
}

fn score_regex_compiled(re: &CompiledRegex, record: &CallableRecord) -> (r: u128)
    ensures
        r == regex_score(re.source(), *record),
{
    let mut score: u128 = 0;
    if regex_is_match(re, record.name.as_str()) {
        score = score + 50;
    }
    if regex_is_match(re, record.fq_name.as_str()) {
        score = score + 40;
    }
    if opt_regex_match(re, &record.title) {
        score = score + 20;
    }
    if opt_regex_match(re, &record.description) {
        score = score + 10;
    }
    100 * score
}

/// Scores a record by regular-expression matching; an invalid pattern is an
/// error.
pub fn score_regex(pattern: &str, record: &CallableRecord) -> (r: Result<u128, IndexError>)
    ensures
        match r {
            Ok(s) => regex_valid(pattern@) && s == regex_score(pattern@, *record),
            Err(e) => !regex_valid(pattern@) && e is RegexError,
        },
{
    match compile_regex(pattern) {
        Ok(re) => Ok(score_regex_compiled(&re, record)),
        Err(e) => Err(IndexError::RegexError(e)),
    }
}

/// The fuzzy-mode score, in hundredths: case-insensitive substring hits.
pub open spec fn fuzzy_score(q: Seq<char>, rec: CallableRecord) -> nat {
    let lq = lowercase(q);
    100 * (30 * ind(contains_sub(lowercase(rec.name@), lq)) + 25 * ind(contains_sub(lowercase(rec.fq_name@), lq))
        + 15 * ind(opt_field_matches(rec.title, |t: Seq<char>| contains_sub(lowercase(t), lq)))
        + 10 * ind(opt_field_matches(rec.description, |t: Seq<char>| contains_sub(lowercase(t), lq))))
}

fn lower_contains(text: &str, lq: &[char]) -> (r: bool)
    ensures
        r == contains_sub(lowercase(text@), lq@),
{
    let l = to_lowercase(text);
    let lc = chars_of(l.as_str());
    seq_contains(lc.as_slice(), lq)
}

fn opt_lower_contains(f: &Option<String>, lq: &[char]) -> (r: bool)
    ensures
        r == opt_field_matches(*f, |t: Seq<char>| contains_sub(lowercase(t), lq@)),
{
    match f {
        Some(t) => lower_contains(t.as_str(), lq),
        None => false,
    }
}

/// Scores a record by case-insensitive substring matching.
pub fn score_fuzzy(query: &str, record: &CallableRecord) -> (r: u128)
    ensures
        r == fuzzy_score(query@, *record),
{
    let lqs = to_lowercase(query);
    let lqv = chars_of(lqs.as_str());
    let lq = lqv.as_slice();
    let mut score: u128 = 0;
    if lower_contains(record.name.as_str(), lq) {
        score = score + 30;
    }
    if lower_contains(record.fq_name.as_str(), lq) {
        score = score + 25;
    }
    if opt_lower_contains(&record.title, lq) {
        score = score + 15;
    }
    if opt_lower_contains(&record.description, lq) {
        score = score + 10;
    }
    100 * score
}

// ---------------------------------------------------------------------------
// Filters
// ---------------------------------------------------------------------------

/// Search filters.
#[derive(Debug)]
pub struct SearchFilters {
    pub server: Option<String>,
    pub tags: Option<Vec<String>>,
    pub requires: Option<Vec<String>>,
    pub capability: Option<Vec<String>>,
}

impl SearchFilters {
    /// Filters that keep everything (`Default`).
    pub fn none() -> (r: SearchFilters)
        ensures
            r.server is None,
            r.tags is None,
            r.requires is None,
            r.capability is None,
    {
        SearchFilters { server: None, tags: None, requires: None, capability: None }
    }
}

/// Whether some item of `xs` is in `ys`.
pub open spec fn any_listed(xs: Seq<Seq<char>>, ys: Seq<Seq<char>>) -> bool
    decreases xs.len(),
{
    xs.len() > 0 && (any_listed(xs.drop_last(), ys) || ys.contains(xs.last()))
}

/// Whether every item of `xs` is in `ys`.
pub open spec fn all_listed(xs: Seq<Seq<char>>, ys: Seq<Seq<char>>) -> bool
    decreases xs.len(),
{
    xs.len() == 0 || (all_listed(xs.drop_last(), ys) && ys.contains(xs.last()))
}

/// Whether a record passes the filters: the server filter asks for that
/// server; the tag and capability filters ask for one of their tags; the
/// requires filter asks for all of its input keys.  An absent or empty
/// list filters nothing.
pub open spec fn passes_filters(rec: CallableRecord, f: SearchFilters) -> bool {
    &&& match f.server {
        Some(s) => rec.server_alias matches Some(a) && a@ == s@,
        None => true,
    }
    &&& match f.tags {
        Some(ts) => ts@.len() == 0 || any_listed(views(ts@), views(rec.tags@)),
        None => true,
    }
    &&& match f.requires {
        Some(rs) => rs@.len() == 0 || all_listed(views(rs@), input_keys(rec.input_schema@)),
        None => true,
    }
    &&& match f.capability {
        Some(cs) => cs@.len() == 0 || any_listed(views(cs@), views(rec.tags@)),
        None => true,
    }
}

/// The records of `s` that pass the filters, in order.
pub open spec fn keep_passing(s: Seq<CallableRecord>, f: SearchFilters) -> Seq<CallableRecord>
    decreases s.len(),
{
    if s.len() == 0 {
        Seq::empty()
    } else {
        let r = keep_passing(s.drop_last(), f);
        if passes_filters(s.last(), f) { r.push(s.last()) } else { r }
    }
}

fn any_listed_exec(xs: &Vec<String>, ys: &Vec<String>) -> (r: bool)
    ensures
        r == any_listed(views(xs@), views(ys@)),
{
    let ghost x = views(xs@);
    let mut found = false;
    let mut i: usize = 0;
    while i < xs.len()
        invariant
            i <= xs.len(),
            x == views(xs@),
            found == any_listed(x.take(i as int), views(ys@)),
        decreases xs.len() - i,
    {
        let ghost t = x.take(i as int + 1);
        assert(t.drop_last() =~= x.take(i as int));
        assert(t.last() == xs@[i as int]@);
        let h = vec_has_str(ys, xs[i].as_str());
        proof { lemma_has_str_views(ys@, xs@[i as int]@); }
        found = found || h;
        i = i + 1;
    }
    assert(x.take(xs.len() as int) =~= x);
    found
}

fn all_listed_exec(xs: &Vec<String>, ys: &Vec<String>) -> (r: bool)
    ensures
        r == all_listed(views(xs@), views(ys@)),
{
    let ghost x = views(xs@);
    let mut all = true;
    let mut i: usize = 0;
    while i < xs.len()
        invariant
            i <= xs.len(),
            x == views(xs@),
            all == all_listed(x.take(i as int), views(ys@)),
        decreases xs.len() - i,
    {
        let ghost t = x.take(i as int + 1);
        assert(t.drop_last() =~= x.take(i as int));
        assert(t.last() == xs@[i as int]@);
        let h = vec_has_str(ys, xs[i].as_str());
        proof { lemma_has_str_views(ys@, xs@[i as int]@); }
        all = all && h;
        i = i + 1;
    }
    assert(x.take(xs.len() as int) =~= x);
    all
}

/// Whether a record passes the filters.
pub fn passes(rec: &CallableRecord, f: &SearchFilters) -> (r: bool)
    ensures
        r == passes_filters(*rec, *f),
{
    let server_ok = match &f.server {
        Some(s) => match &rec.server_alias {
            Some(a) => str_eq(a.as_str(), s.as_str()),
            None => false,
        },
        None => true,
    };
    let tags_ok = match &f.tags {
        Some(ts) => ts.len() == 0 || any_listed_exec(ts, &rec.tags),
        None => true,
    };
    let requires_ok = match &f.requires {
        Some(rs) => {
            if rs.len() == 0 {
                true
            } else {
                let keys = extract_input_keys(&rec.input_schema);
                all_listed_exec(rs, &keys)
            }
        },
        None => true,
    };
    let capability_ok = match &f.capability {
        Some(cs) => cs.len() == 0 || any_listed_exec(cs, &rec.tags),
        None => true,
    };
    server_ok && tags_ok && requires_ok && capability_ok
}

/// Keeps the candidates that pass the filters, in order.
pub fn apply_filters(candidates: Vec<CallableRecord>, filters: &SearchFilters) -> (r: Vec<CallableRecord>)
    ensures
        r@ == keep_passing(candidates@, *filters),
{
    let ghost orig = candidates@;
    let mut rest = candidates;
    let mut out: Vec<CallableRecord> = Vec::new();
    let ghost mut i: int = 0;
    assert(orig.skip(0) =~= orig);
    while rest.len() > 0
        invariant
            0 <= i <= orig.len(),
            rest@ == orig.skip(i),
            out@ == keep_passing(orig.take(i), *filters),
        decreases rest.len(),
    {
        let rec = rest.remove(0);
        proof {
            assert(rec == orig[i]);
            let t = orig.take(i + 1);
            assert(t.drop_last() =~= orig.take(i));
            assert(t.last() == orig[i]);
        }
        if passes(&rec, filters) {
            out.push(rec);
        }
        proof {
            assert(rest@ =~= orig.skip(i + 1));
            i = i + 1;
        }
    }
    assert(orig.take(i) =~= orig);
    out
}

proof fn lemma_all_listed_members(xs: Seq<Seq<char>>, ys: Seq<Seq<char>>)
    ensures
        all_listed(xs, ys) <==> forall|i: int| 0 <= i < xs.len() ==> ys.contains(#[trigger] xs[i]),
    decreases xs.len(),
{
    if xs.len() > 0 {
        lemma_all_listed_members(xs.drop_last(), ys);
        if forall|i: int| 0 <= i < xs.len() ==> ys.contains(#[trigger] xs[i]) {
            assert forall|i: int| 0 <= i < xs.drop_last().len() implies ys.contains(#[trigger] xs.drop_last()[i]) by {
                assert(xs.drop_last()[i] == xs[i]);
            }
            assert(ys.contains(xs[xs.len() - 1]));
        }
        if all_listed(xs, ys) {
            assert forall|i: int| 0 <= i < xs.len() implies ys.contains(#[trigger] xs[i]) by {
                if i < xs.len() - 1 {
                    assert(xs.drop_last()[i] == xs[i]);
                }
            }
        }
    }
}

proof fn lemma_any_listed_members(xs: Seq<Seq<char>>, ys: Seq<Seq<char>>)
    ensures
        any_listed(xs, ys) <==> exists|i: int| 0 <= i < xs.len() && ys.contains(#[trigger] xs[i]),
    decreases xs.len(),
{
    if xs.len() > 0 {
        lemma_any_listed_members(xs.drop_last(), ys);
        if exists|i: int| 0 <= i < xs.len() && ys.contains(#[trigger] xs[i]) {
            let i = choose|i: int| 0 <= i < xs.len() && ys.contains(#[trigger] xs[i]);
            if i < xs.len() - 1 {
                assert(xs.drop_last()[i] == xs[i]);
            }
        }
        if any_listed(xs.drop_last(), ys) {
            let i = choose|i: int| 0 <= i < xs.drop_last().len() && ys.contains(#[trigger] xs.drop_last()[i]);
            assert(xs[i] == xs.drop_last()[i]);
        }
        if ys.contains(xs.last()) {
            assert(ys.contains(xs[xs.len() - 1]));
        }
    }
}

/// A record passes the filters exactly when: it comes from the server the
/// server filter names; it carries one of the tags of a non-empty tag
/// filter, and one of those of a non-empty capability filter; and its
/// input schema has every key a `requires` filter lists.
pub proof fn law_filters_meaning(rec: CallableRecord, f: SearchFilters)
    ensures
        passes_filters(rec, f) <==> {
            &&& (f.server is Some ==> (rec.server_alias is Some && rec.server_alias->0@ == f.server->0@))
            &&& (f.tags is Some && f.tags->0@.len() > 0 ==> exists|i: int, j: int|
                0 <= i < f.tags->0@.len() && 0 <= j < rec.tags@.len() && #[trigger] f.tags->0@[i]@
                    == #[trigger] rec.tags@[j]@)
            &&& (f.requires is Some ==> forall|i: int| 0 <= i < f.requires->0@.len()
                ==> input_keys(rec.input_schema@).contains(#[trigger] f.requires->0@[i]@))
            &&& (f.capability is Some && f.capability->0@.len() > 0 ==> exists|i: int, j: int|
                0 <= i < f.capability->0@.len() && 0 <= j < rec.tags@.len() && #[trigger] f.capability->0@[i]@
                    == #[trigger] rec.tags@[j]@)
        },
{
    let tv = views(rec.tags@);
    assert forall|j: int| 0 <= j < rec.tags@.len() implies tv[j] == #[trigger] rec.tags@[j]@ by {}
    match f.tags {
        Some(ts) => {
            lemma_any_listed_members(views(ts@), tv);
            if exists|i: int| 0 <= i < views(ts@).len() && tv.contains(#[trigger] views(ts@)[i]) {
                let i = choose|i: int| 0 <= i < views(ts@).len() && tv.contains(#[trigger] views(ts@)[i]);
                let j = choose|j: int| 0 <= j < tv.len() && tv[j] == views(ts@)[i];
                assert(ts@[i]@ == rec.tags@[j]@);
            }
            if exists|i: int, j: int| 0 <= i < ts@.len() && 0 <= j < rec.tags@.len() && #[trigger] ts@[i]@
                == #[trigger] rec.tags@[j]@ {
                let (i, j) = choose|i: int, j: int| 0 <= i < ts@.len() && 0 <= j < rec.tags@.len() && #[trigger] ts@[i]@
                    == #[trigger] rec.tags@[j]@;
                assert(tv[j] == views(ts@)[i]);
                assert(tv.contains(views(ts@)[i]));
            }
        },
        None => {},
    }
    match f.capability {
        Some(ts) => {
            lemma_any_listed_members(views(ts@), tv);
            if exists|i: int| 0 <= i < views(ts@).len() && tv.contains(#[trigger] views(ts@)[i]) {
                let i = choose|i: int| 0 <= i < views(ts@).len() && tv.contains(#[trigger] views(ts@)[i]);
                let j = choose|j: int| 0 <= j < tv.len() && tv[j] == views(ts@)[i];
                assert(ts@[i]@ == rec.tags@[j]@);
            }
            if exists|i: int, j: int| 0 <= i < ts@.len() && 0 <= j < rec.tags@.len() && #[trigger] ts@[i]@
                == #[trigger] rec.tags@[j]@ {
                let (i, j) = choose|i: int, j: int| 0 <= i < ts@.len() && 0 <= j < rec.tags@.len() && #[trigger] ts@[i]@
                    == #[trigger] rec.tags@[j]@;
                assert(tv[j] == views(ts@)[i]);
                assert(tv.contains(views(ts@)[i]));
            }
        },
        None => {},
    }
    match f.requires {
        Some(rs) => {
            lemma_all_listed_members(views(rs@), input_keys(rec.input_schema@));
            assert forall|i: int| 0 <= i < rs@.len() implies views(rs@)[i] == #[trigger] rs@[i]@ by {}
        },
        None => {},
    }
}

/// A non-empty `requires` filter keeps exactly the records whose input
/// schema has every listed key among its top-level property names (the
/// other filters aside): a record lacking one of the keys never passes.
pub proof fn law_requires_filter_needs_every_key(rec: CallableRecord, f: SearchFilters)
    requires
        f.requires matches Some(rs) && rs@.len() > 0,
    ensures
        passes_filters(rec, f) ==> forall|i: int| 0 <= i < f.requires->0@.len()
            ==> input_keys(rec.input_schema@).contains(#[trigger] f.requires->0@[i]@),
        (exists|i: int| 0 <= i < f.requires->0@.len()
            && !input_keys(rec.input_schema@).contains(#[trigger] f.requires->0@[i]@)) ==> !passes_filters(rec, f),
{
    let rs = f.requires->0;
    lemma_all_listed_members(views(rs@), input_keys(rec.input_schema@));
    assert forall|i: int| 0 <= i < rs@.len() implies views(rs@)[i] == #[trigger] rs@[i]@ by {}
}

/// Every record that filtering keeps has, under a non-empty `requires`
/// filter, each listed key among its schema's top-level property names.
pub proof fn law_filtered_records_have_required_keys(s: Seq<CallableRecord>, f: SearchFilters)
    requires
        f.requires matches Some(rs) && rs@.len() > 0,
    ensures
        forall|j: int, i: int| 0 <= j < keep_passing(s, f).len() && 0 <= i < f.requires->0@.len()
            ==> input_keys(#[trigger] keep_passing(s, f)[j].input_schema@).contains(#[trigger] f.requires->0@[i]@),
    decreases s.len(),
{
    if s.len() > 0 {
        law_filtered_records_have_required_keys(s.drop_last(), f);
        law_requires_filter_needs_every_key(s.last(), f);
        let r = keep_passing(s.drop_last(), f);
        if passes_filters(s.last(), f) {
            assert forall|j: int, i: int| 0 <= j < keep_passing(s, f).len() && 0 <= i < f.requires->0@.len()
                implies input_keys(#[trigger] keep_passing(s, f)[j].input_schema@).contains(#[trigger] f.requires->0@[i]@) by {
                if j < r.len() {
                    assert(keep_passing(s, f)[j] == r[j]);
                } else {
                    assert(keep_passing(s, f)[j] == s.last());
                }
            }
        }
    }
}

/// The records of `s` of the given kind, in order.
pub open spec fn keep_kind(s: Seq<CallableRecord>, k: CallableKind) -> Seq<CallableRecord>
    decreases s.len(),
{
    if s.len() == 0 {
        Seq::empty()
    } else {
        let r = keep_kind(s.drop_last(), k);
        if s.last().kind == k { r.push(s.last()) } else { r }
    }
}

fn retain_kind(candidates: Vec<CallableRecord>, k: CallableKind) -> (r: Vec<CallableRecord>)
    ensures
        r@ == keep_kind(candidates@, k),
{
    let ghost orig = candidates@;
    let mut rest = candidates;
    let mut out: Vec<CallableRecord> = Vec::new();
    let ghost mut i: int = 0;
    assert(orig.skip(0) =~= orig);
    while rest.len() > 0
        invariant
            0 <= i <= orig.len(),
            rest@ == orig.skip(i),
            out@ == keep_kind(orig.take(i), k),
        decreases rest.len(),
    {
        let rec = rest.remove(0);
        proof {
            assert(rec == orig[i]);
            let t = orig.take(i + 1);
            assert(t.drop_last() =~= orig.take(i));
            assert(t.last() == orig[i]);
        }
        if rec.kind == k {
            out.push(rec);
        }
        proof {
            assert(rest@ =~= orig.skip(i + 1));
            i = i + 1;
        }
    }
    assert(orig.take(i) =~= orig);
    out
}

// ---------------------------------------------------------------------------
// Ranking
// ---------------------------------------------------------------------------

/// The score a query gives a record in a mode; `None` when, in regex
/// mode, the pattern does not compile.  A mode other than `regex` and
/// `fuzzy` scores as the default `literal` mode.
pub open spec fn mode_score(q: Seq<char>, mode: Seq<char>, rec: CallableRecord) -> Option<nat> {
    if mode == "regex"@ {
        if regex_valid(q) { Some(regex_score(q, rec)) } else { None }
    } else if mode == "fuzzy"@ {
        Some(fuzzy_score(q, rec))
    } else {
        Some(literal_score(q, rec, intent_of(q)))
    }
}

/// The records with a positive score, paired with it, in order.
pub open spec fn scored(s: Seq<CallableRecord>, q: Seq<char>, mode: Seq<char>) -> Seq<(CallableRecord, nat)>
    decreases s.len(),
{
    if s.len() == 0 {
        Seq::empty()
    } else {
        let r = scored(s.drop_last(), q, mode);
        match mode_score(q, mode, s.last()) {
            Some(sc) => if sc > 0 { r.push((s.last(), sc)) } else { r },
            None => r,
        }
    }
}

/// Inserts `x` into a sequence ranked by descending score, after every
/// entry whose score is at least its own.
pub open spec fn insert_desc(s: Seq<(CallableRecord, nat)>, x: (CallableRecord, nat)) -> Seq<(CallableRecord, nat)>
    decreases s.len(),
{
    if s.len() == 0 {
        seq![x]
    } else if s.last().1 >= x.1 {
        s.push(x)
    } else {
        insert_desc(s.drop_last(), x).push(s.last())
    }
}

/// The stable ranking of `s` by descending score: entries with equal
/// scores keep their order.
pub open spec fn sort_desc(s: Seq<(CallableRecord, nat)>) -> Seq<(CallableRecord, nat)>
    decreases s.len(),
{
    if s.len() == 0 {
        Seq::empty()
    } else {
        insert_desc(sort_desc(s.drop_last()), s.last())
    }
}

/// The view of scored entries.
pub open spec fn entries(v: Seq<(CallableRecord, u128)>) -> Seq<(CallableRecord, nat)> {
    v.map_values(|p: (CallableRecord, u128)| (p.0, p.1 as nat))
}

proof fn lemma_insert_desc_at(s: Seq<(CallableRecord, nat)>, x: (CallableRecord, nat), j: int)
    requires
        0 <= j <= s.len(),
        forall|k: int| j <= k < s.len() ==> s[k].1 < x.1,
        j == 0 || s[j - 1].1 >= x.1,
    ensures
        insert_desc(s, x) == s.insert(j, x),
    decreases s.len(),
{
    if s.len() == 0 {
        assert(s.insert(j, x) =~= seq![x]);
    } else if j == s.len() {
        assert(s.insert(j, x) =~= s.push(x));
    } else {
        lemma_insert_desc_at(s.drop_last(), x, j);
        assert(s.drop_last().insert(j, x).push(s.last()) =~= s.insert(j, x));
    }
}

/// Ranks entries by descending score, keeping the order of equal scores.
fn rank_entries(v: Vec<(CallableRecord, u128)>) -> (r: Vec<(CallableRecord, u128)>)
    ensures
        entries(r@) == sort_desc(entries(v@)),
{
    let ghost orig = v@;
    let mut rest = v;
    let mut out: Vec<(CallableRecord, u128)> = Vec::new();
    let ghost mut i: int = 0;
    assert(orig.skip(0) =~= orig);
    assert(entries(out@) =~= sort_desc(entries(orig.take(0))));
    while rest.len() > 0
        invariant
            0 <= i <= orig.len(),
            rest@ == orig.skip(i),
            entries(out@) == sort_desc(entries(orig.take(i))),
        decreases rest.len(),
    {
        let x = rest.remove(0);
        let ghost ex = (x.0, x.1 as nat);
        let mut j: usize = out.len();
        while j > 0 && out[j - 1].1 < x.1
            invariant
                j <= out.len(),
                forall|k: int| j <= k < out@.len() ==> out@[k].1 < x.1,
            decreases j,
        {
            j = j - 1;
        }
        proof {
            assert(x == orig[i]);
            let t = entries(orig.take(i + 1));
            assert(t.drop_last() =~= entries(orig.take(i)));
            assert(t.last() == ex);
            let e = entries(out@);
            assert forall|k: int| j <= k < e.len() implies e[k].1 < ex.1 by {}
            lemma_insert_desc_at(e, ex, j as int);
        }
        let ghost before = out@;
        out.insert(j, x);
        proof {
            assert(entries(out@) =~= entries(before).insert(j as int, ex));
            assert(rest@ =~= orig.skip(i + 1));
            i = i + 1;
        }
    }
    assert(orig.take(i) =~= orig);
    out
}

// ---------------------------------------------------------------------------
// Cursors
// ---------------------------------------------------------------------------

/// The value of a digit character.
pub open spec fn digit_value(c: char) -> nat {
    (c as u32 - '0' as u32) as nat
}

/// Whether every character is an ASCII digit.
pub open spec fn all_digits(s: Seq<char>) -> bool {
    forall|i: int| 0 <= i < s.len() ==> '0' <= #[trigger] s[i] <= '9'
}

/// The number the digits spell.
pub open spec fn digits_value(s: Seq<char>) -> nat
    decreases s.len(),
{
    if s.len() == 0 {
        0
    } else {
        digits_value(s.drop_last()) * 10 + digit_value(s.last())
    }
}

/// `usize::from_str`: an optional `+`, then one or more digits whose value
/// fits in `usize`.
pub open spec fn parse_usize(s: Seq<char>) -> Option<nat> {
    let d = if s.len() > 0 && s[0] == '+' { s.drop_first() } else { s };
    if d.len() > 0 && all_digits(d) && digits_value(d) <= usize::MAX {
        Some(digits_value(d))
    } else {
        None
    }
}

proof fn lemma_digits_value_mono(s: Seq<char>, i: int)
    requires
        0 <= i <= s.len(),
        all_digits(s),
    ensures
        digits_value(s.take(i)) <= digits_value(s),
    decreases s.len() - i,
{
    if i < s.len() {
        lemma_digits_value_mono(s, i + 1);
        assert(s.take(i + 1).drop_last() =~= s.take(i));
        assert('0' <= s[i] <= '9');
    } else {
        assert(s.take(i) =~= s);
    }
}

/// Parses an unsigned decimal number (`usize::from_str`).
pub fn parse_usize_text(s: &str) -> (r: Option<usize>)
    ensures
        match r {
            Some(n) => parse_usize(s@) == Some(n as nat),
            None => parse_usize(s@) is None,
        },
{
    let cv = chars_of(s);
    let c = cv.as_slice();
    let start: usize = if c.len() > 0 && c[0] == '+' { 1 } else { 0 };
    let ghost d = if s@.len() > 0 && s@[0] == '+' { s@.drop_first() } else { s@ };
    assert(d =~= c@.skip(start as int));
    if start >= c.len() {
        return None;
    }
    let mut value: usize = 0;
    let mut i: usize = start;
    while i < c.len()
        invariant
            start <= i <= c.len(),
            c@ == s@,
            d == (if s@.len() > 0 && s@[0] == '+' { s@.drop_first() } else { s@ }),
            d == c@.skip(start as int),
            all_digits(d.take(i - start)),
            value == digits_value(d.take(i - start)),
        decreases c.len() - i,
    {
        let ch = c[i];
        let ghost t = d.take(i - start + 1);
        assert(t.drop_last() =~= d.take(i - start));
        assert(t.last() == ch);
        if ch < '0' || ch > '9' {
            assert(!all_digits(d)) by {
                assert(d[i - start] == ch);
            }
            return None;
        }
        let dv = (ch as u32 - '0' as u32) as usize;
        proof {
            if all_digits(d) {
                lemma_digits_value_mono(d, i - start + 1);
            }
        }
        match value.checked_mul(10) {
            Some(m) => match m.checked_add(dv) {
                Some(v) => {
                    value = v;
                },
                None => {
                    return None;
                },
            },
            None => {
                return None;
            },
        }
        i = i + 1;
    }
    assert(d.take(i - start) =~= d);
    Some(value)
}

// ---------------------------------------------------------------------------
// Queries and results
// ---------------------------------------------------------------------------

/// A search query.
#[derive(Debug)]
pub struct SearchQuery {
    pub q: String,
    /// `"any"`, `"tools"` or `"skills"`.
    pub kind: String,
    /// `"literal"`, `"regex"` or `"fuzzy"`; any other mode scores as
    /// `"literal"`.
    pub mode: String,
    pub limit: usize,
    pub filters: Option<SearchFilters>,
    pub cursor: Option<String>,
}

/// One match of a search.
#[derive(Debug)]
pub struct SearchMatch {
    pub id: String,
    pub kind: String,
    pub name: String,
    pub fq_name: String,
    pub server: Option<String>,
    pub description_snippet: String,
    pub inputs: Vec<String>,
    /// The score, in hundredths of a point.
    pub score: u128,
    pub signature_short: Option<String>,
    pub schema_digest: Option<String>,
    pub uses: Option<Vec<String>>,
}

/// The results of a search.
#[derive(Debug)]
pub struct SearchResults {
    pub matches: Vec<SearchMatch>,
    pub total_matches: usize,
    pub next_cursor: Option<String>,
}

/// The view of an optional string.
pub open spec fn opt_view(o: Option<String>) -> Option<Seq<char>> {
    match o {
        Some(s) => Some(s@),
        None => None,
    }
}

/// The texts of identifiers.
pub open spec fn id_views(ids: Seq<crate::callables::CallableId>) -> Seq<Seq<char>> {
    ids.map_values(|c: crate::callables::CallableId| c@)
}

/// The first 200 characters of the description, or else of the title.
pub open spec fn snippet(rec: CallableRecord) -> Seq<char> {
    let t = match rec.description {
        Some(d) => d@,
        None => match rec.title {
            Some(t) => t@,
            None => Seq::empty(),
        },
    };
    if t.len() <= 200 { t } else { t.take(200) }
}

/// Whether `m` describes the record with the given score.
pub open spec fn describes(m: SearchMatch, rec: CallableRecord, score: nat) -> bool {
    &&& m.id@ == rec.id@
    &&& m.kind@ == crate::callables::kind_name(rec.kind)
    &&& m.name@ == rec.name@
    &&& m.fq_name@ == rec.fq_name@
    &&& opt_view(m.server) == opt_view(rec.server_alias)
    &&& m.description_snippet@ == snippet(rec)
    &&& views(m.inputs@) == input_keys(rec.input_schema@)
    &&& m.score == score
    &&& m.signature_short is None
    &&& (m.schema_digest matches Some(d) && d@ == crate::callables::digest8(rec.schema_digest@))
    &&& if rec.kind == CallableKind::Skill {
        m.uses matches Some(u) && views(u@) == id_views(rec.uses@)
    } else {
        m.uses is None
    }
}

/// The kind a query's kind text selects: `Some(None)` for every kind,
/// `None` for an unknown text.
pub open spec fn kind_selection(kind: Seq<char>) -> Option<Option<CallableKind>> {
    if kind == "any"@ {
        Some(None)
    } else if kind == "tools"@ {
        Some(Some(CallableKind::Tool))
    } else if kind == "skills"@ {
        Some(Some(CallableKind::Skill))
    } else {
        None
    }
}

/// The message of the error a query is refused with, if it is refused.
pub open spec fn query_error(query: SearchQuery) -> Option<Seq<char>> {
    if query.q@.len() == 0 {
        Some("Query cannot be empty"@)
    } else if kind_selection(query.kind@) is None {
        Some("Invalid kind: "@ + query.kind@)
    } else {
        None
    }
}

/// The candidates that the kind and the filters keep.
pub open spec fn selected(query: SearchQuery, cands: Seq<CallableRecord>) -> Seq<CallableRecord> {
    let by_kind = match kind_selection(query.kind@) {
        Some(Some(k)) => keep_kind(cands, k),
        _ => cands,
    };
    match query.filters {
        Some(f) => keep_passing(by_kind, f),
        None => by_kind,
    }
}

/// Every candidate with a positive score, ranked.
pub open spec fn ranked(query: SearchQuery, cands: Seq<CallableRecord>) -> Seq<(CallableRecord, nat)> {
    sort_desc(scored(selected(query, cands), query.q@, query.mode@))
}

/// The offset a cursor gives: its number, or 0 when absent or unparsable.
pub open spec fn cursor_offset(c: Option<String>) -> nat {
    match c {
        Some(t) => match parse_usize(t@) {
            Some(n) => n,
            None => 0,
        },
        None => 0,
    }
}

/// The ranked entries from the cursor on, at most `limit` of them.
pub open spec fn result_page(query: SearchQuery, cands: Seq<CallableRecord>) -> Seq<(CallableRecord, nat)> {
    let r = ranked(query, cands);
    let off = if cursor_offset(query.cursor) <= r.len() { cursor_offset(query.cursor) } else { r.len() };
    let rest = r.skip(off as int);
    if query.limit <= rest.len() { rest.take(query.limit as int) } else { rest }
}

/// Whether scores never increase along the entries.
pub open spec fn descending(s: Seq<(CallableRecord, nat)>) -> bool {
    forall|i: int, j: int| 0 <= i < j < s.len() ==> #[trigger] s[i].1 >= #[trigger] s[j].1
}

proof fn lemma_insert_desc_sorted(s: Seq<(CallableRecord, nat)>, x: (CallableRecord, nat), b: nat)
    requires
        descending(s),
        forall|k: int| 0 <= k < s.len() ==> #[trigger] s[k].1 >= b,
        x.1 >= b,
    ensures
        descending(insert_desc(s, x)),
        insert_desc(s, x).len() == s.len() + 1,
        forall|k: int| 0 <= k < insert_desc(s, x).len() ==> #[trigger] insert_desc(s, x)[k].1 >= b,
    decreases s.len(),
{
    if s.len() == 0 {
    } else if s.last().1 >= x.1 {
        let r = s.push(x);
        assert forall|i: int, j: int| 0 <= i < j < r.len() implies #[trigger] r[i].1 >= #[trigger] r[j].1 by {
            if j == s.len() {
                assert(s[i].1 >= s[s.len() - 1].1);
            }
        }
    } else {
        let d = s.drop_last();
        let l = s.last();
        assert(descending(d)) by {
            assert forall|i: int, j: int| 0 <= i < j < d.len() implies #[trigger] d[i].1 >= #[trigger] d[j].1 by {
                assert(d[i] == s[i] && d[j] == s[j]);
            }
        }
        assert forall|k: int| 0 <= k < d.len() implies #[trigger] d[k].1 >= l.1 by {
            assert(d[k] == s[k]);
        }
        lemma_insert_desc_sorted(d, x, l.1);
        let ins = insert_desc(d, x);
        let r = ins.push(l);
        assert forall|i: int, j: int| 0 <= i < j < r.len() implies #[trigger] r[i].1 >= #[trigger] r[j].1 by {
            if j == ins.len() {
                assert(ins[i].1 >= l.1);
            } else {
                assert(r[i] == ins[i] && r[j] == ins[j]);
            }
        }
        assert forall|k: int| 0 <= k < r.len() implies #[trigger] r[k].1 >= b by {
            if k < ins.len() {
                assert(r[k] == ins[k]);
            }
        }
    }
}

proof fn lemma_sort_desc_sorted(s: Seq<(CallableRecord, nat)>)
    ensures
        descending(sort_desc(s)),
        sort_desc(s).len() == s.len(),
    decreases s.len(),
{
    if s.len() > 0 {
        lemma_sort_desc_sorted(s.drop_last());
        lemma_insert_desc_sorted(sort_desc(s.drop_last()), s.last(), 0);
    }
}

/// A search ranks its matches by descending score, and a page holds at
/// most `limit` of them, in that order.
pub proof fn law_search_page_descending(query: SearchQuery, cands: Seq<CallableRecord>)
    ensures
        descending(ranked(query, cands)),
        descending(result_page(query, cands)),
        result_page(query, cands).len() <= query.limit,
{
    lemma_sort_desc_sorted(scored(selected(query, cands), query.q@, query.mode@));
    let r = ranked(query, cands);
    let off = if cursor_offset(query.cursor) <= r.len() { cursor_offset(query.cursor) } else { r.len() };
    let rest = r.skip(off as int);
    let page = result_page(query, cands);
    assert forall|i: int, j: int| 0 <= i < j < page.len() implies #[trigger] page[i].1 >= #[trigger] page[j].1 by {
        assert(page[i] == r[off + i] && page[j] == r[off + j]);
    }
}

proof fn lemma_decimal_digits(n: nat)
    ensures
        decimal(n).len() > 0,
        all_digits(decimal(n)),
        digits_value(decimal(n)) == n,
    decreases n,
{
    if n < 10 {
        assert(digits_value(decimal(n)) == digits_value(decimal(n).drop_last()) * 10 + digit_value(decimal(n).last()));
        assert(decimal(n).drop_last() =~= Seq::<char>::empty());
    } else {
        lemma_decimal_digits(n / 10);
        let d = decimal(n);
        assert(d.drop_last() =~= decimal(n / 10));
        assert forall|i: int| 0 <= i < d.len() implies '0' <= #[trigger] d[i] <= '9' by {
            if i < d.len() - 1 {
                assert(d[i] == decimal(n / 10)[i]);
            }
        }
    }
}

/// The cursor text a search hands back reads as the offset it stands for.
pub proof fn law_cursor_round_trip(n: nat)
    requires
        n <= usize::MAX,
    ensures
        parse_usize(decimal(n)) == Some(n),
{
    lemma_decimal_digits(n);
    assert('0' <= decimal(n)[0] <= '9');
}

/// Following the next cursor continues the ranking: the page a query
/// returns and the page at the cursor it hands back are, together, the
/// ranked matches from the query's offset on, without gap or overlap.
pub proof fn law_next_page_continues(query: SearchQuery, cands: Seq<CallableRecord>, cursor: String)
    requires
        cursor_offset(query.cursor) + query.limit < ranked(query, cands).len(),
        cursor_offset(query.cursor) + query.limit <= usize::MAX,
        cursor@ == decimal(cursor_offset(query.cursor) + query.limit as nat),
    ensures
        ({
            let next = (SearchQuery {
                q: query.q,
                kind: query.kind,
                mode: query.mode,
                limit: query.limit,
                filters: query.filters,
                cursor: Some(cursor),
            });
            let r = ranked(query, cands);
            let off = cursor_offset(query.cursor) as int;
            let end = if off + 2 * query.limit <= r.len() { off + 2 * query.limit } else { r.len() as int };
            &&& ranked(next, cands) == r
            &&& result_page(query, cands) + result_page(next, cands) == r.subrange(off, end)
        }),
{
    let next = (SearchQuery {
        q: query.q,
        kind: query.kind,
        mode: query.mode,
        limit: query.limit,
        filters: query.filters,
        cursor: Some(cursor),
    });
    let n: nat = cursor_offset(query.cursor) + query.limit as nat;
    law_cursor_round_trip(n);
    assert(cursor_offset(next.cursor) == n);
    let r = ranked(query, cands);
    assert(ranked(next, cands) == r);
    let off = cursor_offset(query.cursor) as int;
    let end = if off + 2 * query.limit <= r.len() { off + 2 * query.limit } else { r.len() as int };
    assert(result_page(query, cands) =~= r.subrange(off, off + query.limit));
    assert(result_page(next, cands) =~= r.subrange(n as int, end));
    assert(result_page(query, cands) + result_page(next, cands) =~= r.subrange(off, end));
}

fn copy_opt_string(o: &Option<String>) -> (r: Option<String>)
    ensures
        opt_view(r) == opt_view(*o),
{
    match o {
        Some(s) => Some(s.clone()),
        None => None,
    }
}

fn id_strings(ids: &Vec<crate::callables::CallableId>) -> (r: Vec<String>)
    ensures
        views(r@) == id_views(ids@),
{
    let mut out: Vec<String> = Vec::new();
    let mut i: usize = 0;
    while i < ids.len()
        invariant
            i <= ids.len(),
            views(out@) == id_views(ids@).take(i as int),
        decreases ids.len() - i,
    {
        let ghost old_out = out@;
        out.push(ids[i].0.clone());
        proof { lemma_views_push(old_out, out@.last()); }
        assert(id_views(ids@).take(i as int + 1) =~= id_views(ids@).take(i as int).push(ids@[i as int]@));
        i = i + 1;
    }
    assert(id_views(ids@).take(ids.len() as int) =~= id_views(ids@));
    out
}

fn snippet_of(rec: &CallableRecord) -> (r: String)
    ensures
        r@ == snippet(*rec),
{
    let text: Vec<char> = match &rec.description {
        Some(d) => chars_of(d.as_str()),
        None => match &rec.title {
            Some(t) => chars_of(t.as_str()),
            None => Vec::new(),
        },
    };
    if text.len() <= 200 {
        crate::text::string_of(text.as_slice())
    } else {
        crate::text::sub_string(text.as_slice(), 0, 200)
    }
}

fn describe(rec: CallableRecord, score: u128) -> (m: SearchMatch)
    requires
        crate::callables::digest8_ok(rec.schema_digest@),
    ensures
        describes(m, rec, score as nat),
{
    let inputs = extract_input_keys(&rec.input_schema);
    let description_snippet = snippet_of(&rec);
    let digest = rec.schema_digest.short();
    let uses = if rec.kind == CallableKind::Skill { Some(id_strings(&rec.uses)) } else { None };
    SearchMatch {
        id: rec.id.0.clone(),
        kind: rec.kind.name(),
        name: rec.name.clone(),
        fq_name: rec.fq_name.clone(),
        server: copy_opt_string(&rec.server_alias),
        description_snippet,
        inputs,
        score,
        signature_short: None,
        schema_digest: Some(digest),
        uses,
    }
}

/// The score of one record in the query's mode (`None`: the record is not
/// scored).
fn score_in_mode(
    query: &SearchQuery,
    intent: QueryIntent,
    re: &Option<CompiledRegex>,
    rec: &CallableRecord,
) -> (r: Option<u128>)
    requires
        intent == intent_of(query.q@),
        query.mode@ == "regex"@ ==> match re {
            Some(c) => c.source() == query.q@ && regex_valid(query.q@),
            None => !regex_valid(query.q@),
        },
    ensures
        match r {
            Some(s) => mode_score(query.q@, query.mode@, *rec) == Some(s as nat),
            None => mode_score(query.q@, query.mode@, *rec) is None,
        },
{
    proof {
        reveal_strlit("regex");
        reveal_strlit("fuzzy");
    }
    if str_eq(query.mode.as_str(), "regex") {
        match re {
            Some(c) => Some(score_regex_compiled(c, rec)),
            None => None,
        }
    } else if str_eq(query.mode.as_str(), "fuzzy") {
        Some(score_fuzzy(query.q.as_str(), rec))
    } else {
        Some(score_literal(query.q.as_str(), rec, intent))
    }
}

/// Whether the schema digests of the records on the result page can be
/// shortened to their first eight bytes.
pub open spec fn page_digests_ok(query: SearchQuery, candidates: Seq<CallableRecord>) -> bool {
    forall|i: int| 0 <= i < result_page(query, candidates).len()
        ==> crate::callables::digest8_ok(#[trigger] result_page(query, candidates)[i].0.schema_digest@)
}

/// Whether `r` answers the search: the query's error, or the total number
/// of ranked matches, the page of matches the cursor and the limit select,
/// and the cursor of the next page if there is one.
pub open spec fn search_answer(
    query: SearchQuery,
    candidates: Seq<CallableRecord>,
    r: Result<SearchResults, IndexError>,
) -> bool {
    match r {
        Err(e) => (query_error(query) matches Some(m) && (e matches IndexError::InvalidQuery(x) && x@ == m)),
        Ok(res) => {
            let ranks = ranked(query, candidates);
            let page = result_page(query, candidates);
            let next: nat = cursor_offset(query.cursor) + query.limit as nat;
            &&& query_error(query) is None
            &&& res.total_matches == ranks.len()
            &&& res.matches@.len() == page.len()
            &&& forall|i: int| 0 <= i < page.len() ==> describes(#[trigger] res.matches@[i], page[i].0, page[i].1)
            &&& match res.next_cursor {
                Some(c) => next < ranks.len() && c@ == crate::text::decimal(next),
                None => next >= ranks.len(),
            }
        },
    }
}

/// Searches the candidate records: selects by kind and filters, scores in
/// the query's mode, ranks by descending score (ties keep the candidates'
/// order) and returns the page the cursor and the limit select.
pub fn search_records(query: &SearchQuery, candidates: Vec<CallableRecord>) -> (r: Result<SearchResults, IndexError>)
    requires
        page_digests_ok(*query, candidates@),
    ensures
        search_answer(*query, candidates@, r),
{
    proof {
        reveal_strlit("any");
        reveal_strlit("tools");
        reveal_strlit("skills");
    }
    if query.q.as_str().is_empty() {
        return Err(IndexError::InvalidQuery(String::from_str("Query cannot be empty")));
    }
    let intent = detect_intent(query.q.as_str());
    let by_kind = if str_eq(query.kind.as_str(), "any") {
        candidates
    } else if str_eq(query.kind.as_str(), "tools") {
        retain_kind(candidates, CallableKind::Tool)
    } else if str_eq(query.kind.as_str(), "skills") {
        retain_kind(candidates, CallableKind::Skill)
    } else {
        return Err(IndexError::InvalidQuery(crate::text::concat2("Invalid kind: ", query.kind.as_str())));
    };
    let chosen = match &query.filters {
        Some(f) => apply_filters(by_kind, f),
        None => by_kind,
    };
    assert(chosen@ == selected(*query, candidates@));
    // Scores
    let re: Option<CompiledRegex> = if str_eq(query.mode.as_str(), "regex") {
        match compile_regex(query.q.as_str()) {
            Ok(c) => Some(c),
            Err(_) => None,
        }
    } else {
        None
    };
    let ghost orig = chosen@;
    let mut rest = chosen;
    let mut entries_v: Vec<(CallableRecord, u128)> = Vec::new();
    let ghost mut i: int = 0;
    assert(orig.skip(0) =~= orig);
    assert(entries(entries_v@) =~= scored(orig.take(0), query.q@, query.mode@));
    while rest.len() > 0
        invariant
            0 <= i <= orig.len(),
            rest@ == orig.skip(i),
            intent == intent_of(query.q@),
            query.mode@ == "regex"@ ==> match re {
                Some(c) => c.source() == query.q@ && regex_valid(query.q@),
                None => !regex_valid(query.q@),
            },
            entries(entries_v@) == scored(orig.take(i), query.q@, query.mode@),
        decreases rest.len(),
    {
        let rec = rest.remove(0);
        proof {
            assert(rec == orig[i]);
            let t = orig.take(i + 1);
            assert(t.drop_last() =~= orig.take(i));
            assert(t.last() == orig[i]);
        }
        let sc = score_in_mode(query, intent, &re, &rec);
        let ghost before = entries_v@;
        match sc {
            Some(v) => {
                if v > 0 {
                    entries_v.push((rec, v));
                    assert(entries(entries_v@) =~= entries(before).push((orig[i], v as nat)));
                }
            },
            None => {},
        }
        proof {
            assert(rest@ =~= orig.skip(i + 1));
            i = i + 1;
        }
    }
    assert(orig.take(i) =~= orig);
    let mut ranked_v = rank_entries(entries_v);
    let total = ranked_v.len();
    let offset: usize = match &query.cursor {
        Some(c) => match parse_usize_text(c.as_str()) {
            Some(n) => n,
            None => 0,
        },
        None => 0,
    };
    let ghost rv = ranked_v@;
    let ghost rk = entries(rv);
    let mut page_v = if offset <= ranked_v.len() {
        ranked_v.split_off(offset)
    } else {
        Vec::new()
    };
    let ghost off: int = if offset as nat <= rk.len() { offset as int } else { rk.len() as int };
    assert(entries(page_v@) =~= rk.skip(off));
    let ghost sub = page_v@;
    page_v.truncate(query.limit);
    let ghost pg = result_page(*query, candidates@);
    assert(entries(page_v@) =~= pg) by {
        if query.limit <= sub.len() {
            assert(entries(page_v@) =~= entries(sub).take(query.limit as int));
        }
    }
    let mut matches: Vec<SearchMatch> = Vec::new();
    let ghost pv = page_v@;
    let ghost mut j: int = 0;
    assert(pv.skip(0) =~= pv);
    while page_v.len() > 0
        invariant
            0 <= j <= pv.len(),
            page_v@ == pv.skip(j),
            entries(pv) == pg,
            pg == result_page(*query, candidates@),
            forall|k: int| 0 <= k < pg.len()
                ==> crate::callables::digest8_ok(#[trigger] pg[k].0.schema_digest@),
            matches@.len() == j,
            forall|k: int| 0 <= k < j ==> describes(#[trigger] matches@[k], pg[k].0, pg[k].1),
        decreases page_v.len(),
    {
        let entry = page_v.remove(0);
        proof {
            assert(entry == pv[j]);
            assert(entries(pv)[j] == (pv[j].0, pv[j].1 as nat));
            assert(crate::callables::digest8_ok(pg[j].0.schema_digest@));
        }
        let (rec, sc) = entry;
        let m = describe(rec, sc);
        matches.push(m);
        proof {
            assert(page_v@ =~= pv.skip(j + 1));
            j = j + 1;
        }
    }
    let next_cursor = match offset.checked_add(query.limit) {
        Some(n) => if n < total { Some(crate::text::usize_to_string(n)) } else { None },
        None => None,
    };
    Ok(SearchResults { matches, total_matches: total, next_cursor })
}

} // verus!
