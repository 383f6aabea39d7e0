//! Policy engine: decides whether a callable may run.
//!
//! A request is checked, in this order, against the denied tags, the deny
//! patterns, the allow patterns, the trusted servers and the consent that
//! the callable's risk tier requires.  The first check that fails decides
//! the answer and its reason.
use vstd::prelude::*;
use crate::callables::{
    CallableRecord, RiskTier, parse_risk, parse_risk_tier, risk_name, chars_are,
};
use crate::json::JsonValue;
use crate::text::{
    chars_of, concat2, decimal, lowercase, to_lowercase, u64_to_string, vec_has_str, views,
    lemma_has_str_views,
};

verus! {

// ---------------------------------------------------------------------------
// Glob patterns (`glob::Pattern`)
// ---------------------------------------------------------------------------

#[verifier::external_type_specification]
#[verifier::external_body]
pub struct ExGlobPattern(glob::Pattern);

/// Whether `glob::Pattern::new` accepts the pattern text.
pub uninterp spec fn glob_valid(pattern: Seq<char>) -> bool;

/// Whether the compiled pattern matches the text with the default options
/// (`glob::Pattern::matches`).
pub uninterp spec fn glob_matches(pattern: Seq<char>, text: Seq<char>) -> bool;

/// A compiled glob together with the text it was compiled from.  Only
/// `compile_glob` builds one.
pub struct CompiledGlob {
    text: String,
    pattern: glob::Pattern,
}

impl CompiledGlob {
    /// The text the pattern was compiled from.
    pub closed spec fn source(&self) -> Seq<char> {
        self.text@
    }
}

/// Compiles a pattern with `glob::Pattern::new`.  The result exists exactly
/// when `glob_valid` holds of the text; `"*"` is a single any-sequence token
/// and always compiles.
#[verifier::external_body]
fn compile_glob(p: &str) -> (r: Option<CompiledGlob>)
    ensures
        r is Some <==> glob_valid(p@),
        r matches Some(g) ==> g.source() == p@,
        p@ == "*"@ ==> r is Some,
{
    match glob::Pattern::new(p) {
        Ok(pattern) => Some(CompiledGlob { text: p.to_string(), pattern }),
        Err(_) => None,
    }
}

/// Matches a text against a compiled glob (`glob::Pattern::matches`).  The
/// pattern `"*"` matches every text.
#[verifier::external_body]
fn glob_match(g: &CompiledGlob, text: &str) -> (r: bool)
    ensures
        r == glob_matches(g.source(), text@),
        g.source() == "*"@ ==> r,
{
    g.pattern.matches(text)
}

/// The texts of compiled globs.
pub open spec fn glob_sources(v: Seq<CompiledGlob>) -> Seq<Seq<char>> {
    v.map_values(|g: CompiledGlob| g.source())
}

/// The patterns of `pats` that compile, in order.
pub open spec fn valid_globs(pats: Seq<Seq<char>>) -> Seq<Seq<char>>
    decreases pats.len(),
{
    if pats.len() == 0 {
        Seq::empty()
    } else {
        let rest = valid_globs(pats.drop_last());
        if glob_valid(pats.last()) {
            rest.push(pats.last())
        } else {
            rest
        }
    }
}

/// The first pattern of `pats` that matches `name`.
pub open spec fn first_matching_glob(pats: Seq<Seq<char>>, name: Seq<char>) -> Option<Seq<char>>
    decreases pats.len(),
{
    if pats.len() == 0 {
        None
    } else if glob_matches(pats[0], name) {
        Some(pats[0])
    } else {
        first_matching_glob(pats.drop_first(), name)
    }
}

// ---------------------------------------------------------------------------
// Consent levels
// ---------------------------------------------------------------------------

/// Consent level for execution, in increasing order.
#[derive(Debug, Clone, Copy, PartialEq, Eq, Structural, PartialOrd, Ord, Hash)]
pub enum ConsentLevel {
    NoConsent,
    UserConfirmed,
    AdminConfirmed,
}

/// Position of a consent level in its order.
pub open spec fn consent_rank(c: ConsentLevel) -> nat {
    match c {
        ConsentLevel::NoConsent => 0,
        ConsentLevel::UserConfirmed => 1,
        ConsentLevel::AdminConfirmed => 2,
    }
}

/// The displayed name of a consent level.
pub open spec fn consent_name(c: ConsentLevel) -> Seq<char> {
    match c {
        ConsentLevel::NoConsent => "none"@,
        ConsentLevel::UserConfirmed => "user_confirmed"@,
        ConsentLevel::AdminConfirmed => "admin_confirmed"@,
    }
}

/// The consent level a name denotes; any other name means `None`.
pub open spec fn parse_consent(s: Seq<char>) -> ConsentLevel {
    let l = lowercase(s);
    if l == "user_confirmed"@ {
        ConsentLevel::UserConfirmed
    } else if l == "admin_confirmed"@ {
        ConsentLevel::AdminConfirmed
    } else {
        ConsentLevel::NoConsent
    }
}

impl ConsentLevel {
    /// Parses a consent level, ignoring case; unknown names give `None`.
    pub fn parse(s: &str) -> (r: ConsentLevel)
        ensures
            r == parse_consent(s@),
    {
        let lower = to_lowercase(s);
        let l = chars_of(lower.as_str());
        if chars_are(l.as_slice(), "user_confirmed") {
            ConsentLevel::UserConfirmed
        } else if chars_are(l.as_slice(), "admin_confirmed") {
            ConsentLevel::AdminConfirmed
        } else {
            ConsentLevel::NoConsent
        }
    }

    /// The level's name (`Display`).
    pub fn name(&self) -> (r: String)
        ensures
            r@ == consent_name(*self),
    {
        let s = match self {
            ConsentLevel::NoConsent => "none",
            ConsentLevel::UserConfirmed => "user_confirmed",
            ConsentLevel::AdminConfirmed => "admin_confirmed",
        };
        String::from_str(s)
    }

    /// Position of the level in its order.
    pub fn rank(&self) -> (r: u8)
        ensures
            r == consent_rank(*self),
    {
        match self {
            ConsentLevel::NoConsent => 0,
            ConsentLevel::UserConfirmed => 1,
            ConsentLevel::AdminConfirmed => 2,
        }
    }
}

impl std::str::FromStr for ConsentLevel {
    type Err = ();

    fn from_str(s: &str) -> (r: Result<ConsentLevel, ()>)
        ensures
            r == Ok::<ConsentLevel, ()>(parse_consent(s@)),
    {
        Ok(ConsentLevel::parse(s))
    }
}

/// The consent a risk tier asks for.
pub open spec fn required_consent(t: RiskTier) -> ConsentLevel {
    match t {
        RiskTier::Admin => ConsentLevel::AdminConfirmed,
        RiskTier::Destructive => ConsentLevel::UserConfirmed,
        RiskTier::Writes => ConsentLevel::UserConfirmed,
        _ => ConsentLevel::NoConsent,
    }
}

fn required_consent_of(t: RiskTier) -> (r: ConsentLevel)
    ensures
        r == required_consent(t),
{
    match t {
        RiskTier::Admin => ConsentLevel::AdminConfirmed,
        RiskTier::Destructive => ConsentLevel::UserConfirmed,
        RiskTier::Writes => ConsentLevel::UserConfirmed,
        _ => ConsentLevel::NoConsent,
    }
}

// ---------------------------------------------------------------------------
// Configuration
// ---------------------------------------------------------------------------

/// Errors of the policy engine.
#[derive(Debug)]
pub enum PolicyError {
    Denied(String),
    InsufficientConsent { required: String, provided: String },
    ConfigError(String),
    LimitExceeded(String),
}

impl PolicyError {
    /// The error's message (`Display`).
    pub fn message(&self) -> (r: String)
        ensures
            self matches PolicyError::Denied(m) ==> r@ == "Authorization denied: "@ + m@,
            self matches PolicyError::ConfigError(m) ==> r@ == "Policy configuration error: "@ + m@,
            self matches PolicyError::LimitExceeded(m) ==> r@ == "Resource limit exceeded: "@ + m@,
            self matches PolicyError::InsufficientConsent { required, provided } ==> r@
                == "Insufficient consent level: required "@ + required@ + ", provided "@ + provided@,
    {
        match self {
            PolicyError::Denied(m) => concat2("Authorization denied: ", m.as_str()),
            PolicyError::ConfigError(m) => concat2("Policy configuration error: ", m.as_str()),
            PolicyError::LimitExceeded(m) => concat2("Resource limit exceeded: ", m.as_str()),
            PolicyError::InsufficientConsent { required, provided } => {
                let mut s = String::from_str("Insufficient consent level: required ");
                s.append(required.as_str());
                s.append(", provided ");
                s.append(provided.as_str());
                s
            },
        }
    }
}

/// Policy configuration.
#[derive(Debug)]
pub struct PolicyConfig {
    /// Default risk tier for unknown callables.
    pub default_risk: String,
    /// Risk tiers that require consent.
    pub require_consent_for: Vec<String>,
    /// Trusted server aliases.
    pub trusted_servers: Vec<String>,
    /// Denied tags (callables with these tags are blocked).
    pub deny_tags: Vec<String>,
    /// Maximum calls per skill execution.
    pub max_calls_per_skill: usize,
    /// Maximum execution time in milliseconds.
    pub max_exec_ms: u64,
    /// Allow patterns (glob-style).
    pub allow_patterns: Vec<String>,
    /// Deny patterns (glob-style).
    pub deny_patterns: Vec<String>,
}

/// Default risk tier name of a configuration.
pub fn default_risk() -> (r: String)
    ensures
        r@ == "unknown"@,
{
    String::from_str("unknown")
}

/// Default maximum number of calls per skill.
pub fn default_max_calls() -> (r: usize)
    ensures
        r == 30,
{
    30
}

/// Default maximum execution time in milliseconds.
pub fn default_max_exec_ms() -> (r: u64)
    ensures
        r == 120000,
{
    120000
}

fn string_vec1(a: &str) -> (r: Vec<String>)
    ensures
        views(r@) == seq![a@],
{
    let mut v = Vec::new();
    v.push(String::from_str(a));
    assert(views(v@) =~= seq![a@]);
    v
}

impl Default for PolicyConfig {
    fn default() -> (r: PolicyConfig)
        ensures
            r.default_risk@ == "unknown"@,
            views(r.require_consent_for@) == seq!["writes"@, "destructive"@, "admin"@],
            r.trusted_servers@.len() == 0,
            r.deny_tags@.len() == 0,
            r.max_calls_per_skill == 30,
            r.max_exec_ms == 120000,
            views(r.allow_patterns@) == seq!["*"@],
            r.deny_patterns@.len() == 0,
    {
        let mut consent = Vec::new();
        consent.push(String::from_str("writes"));
        consent.push(String::from_str("destructive"));
        consent.push(String::from_str("admin"));
        assert(views(consent@) =~= seq!["writes"@, "destructive"@, "admin"@]);
        PolicyConfig {
            default_risk: default_risk(),
            require_consent_for: consent,
            trusted_servers: Vec::new(),
            deny_tags: Vec::new(),
            max_calls_per_skill: default_max_calls(),
            max_exec_ms: default_max_exec_ms(),
            allow_patterns: string_vec1("*"),
            deny_patterns: Vec::new(),
        }
    }
}

// ---------------------------------------------------------------------------
// Authorization results
// ---------------------------------------------------------------------------

/// The answer to an authorization request.
#[derive(Debug)]
pub struct AuthorizationResult {
    pub allowed: bool,
    pub reason: String,
    pub required_consent: Option<ConsentLevel>,
}

impl AuthorizationResult {
    pub fn allow() -> (r: AuthorizationResult)
        ensures
            r.allowed,
            r.reason@ == "Authorized"@,
            r.required_consent is None,
    {
        AuthorizationResult {
            allowed: true,
            reason: String::from_str("Authorized"),
            required_consent: None,
        }
    }

    pub fn deny(reason: String) -> (r: AuthorizationResult)
        ensures
            !r.allowed,
            r.reason@ == reason@,
            r.required_consent is None,
    {
        AuthorizationResult { allowed: false, reason, required_consent: None }
    }

    pub fn deny_with_consent(reason: String, required: ConsentLevel) -> (r: AuthorizationResult)
        ensures
            !r.allowed,
            r.reason@ == reason@,
            r.required_consent == Some(required),
    {
        AuthorizationResult { allowed: false, reason, required_consent: Some(required) }
    }
}

// ---------------------------------------------------------------------------
// The decision
// ---------------------------------------------------------------------------

/// The risk tiers that the configured names denote (names that do not
/// parse are skipped).
pub open spec fn consent_tiers(names: Seq<Seq<char>>) -> Seq<RiskTier>
    decreases names.len(),
{
    if names.len() == 0 {
        Seq::empty()
    } else {
        let rest = consent_tiers(names.drop_last());
        match parse_risk(names.last()) {
            Some(t) => rest.push(t),
            None => rest,
        }
    }
}

/// The first of `tags` that `deny` holds.
pub open spec fn first_denied_tag(tags: Seq<Seq<char>>, deny: Seq<Seq<char>>) -> Option<Seq<char>>
    decreases tags.len(),
{
    if tags.len() == 0 {
        None
    } else if deny.contains(tags[0]) {
        Some(tags[0])
    } else {
        first_denied_tag(tags.drop_first(), deny)
    }
}

/// The outcome of an authorization request: whether it is allowed, the
/// reason, and the consent level that a denial asks for.
pub open spec fn authorization(
    cfg: PolicyConfig,
    callable: CallableRecord,
    consent: ConsentLevel,
) -> (bool, Seq<char>, Option<ConsentLevel>) {
    let name = callable.fq_name@;
    let allow = valid_globs(views(cfg.allow_patterns@));
    let deny = valid_globs(views(cfg.deny_patterns@));
    let trusted = views(cfg.trusted_servers@);
    let tier = callable.risk_tier;
    let needed = required_consent(tier);
    match first_denied_tag(views(callable.tags@), views(cfg.deny_tags@)) {
        Some(tag) => (false, "Callable has denied tag: "@ + tag, None),
        None => match first_matching_glob(deny, name) {
            Some(p) => (false, "Callable matches deny pattern: "@ + p, None),
            None => if allow.len() > 0 && first_matching_glob(allow, name) is None {
                (false, "Callable not in allowlist"@, None)
            } else {
                match callable.server_alias {
                    Some(s) if trusted.len() > 0 && !trusted.contains(s@) && !trusted.contains("*"@) =>
                        (false, "Server not in trusted list: "@ + s@, None),
                    _ => if consent_tiers(views(cfg.require_consent_for@)).contains(tier)
                        && consent_rank(consent) < consent_rank(needed) {
                        (
                            false,
                            "Risk tier "@ + risk_name(tier) + " requires consent level "@
                                + consent_name(needed),
                            Some(needed),
                        )
                    } else {
                        (true, "Authorized"@, None)
                    },
                }
            },
        },
    }
}

/// The policy engine.
pub struct PolicyEngine {
    config: PolicyConfig,
    consent_required_tiers: Vec<RiskTier>,
    allow_patterns: Vec<CompiledGlob>,
    deny_patterns: Vec<CompiledGlob>,
}

impl PolicyEngine {
    /// The configuration the engine was built from.
    pub closed spec fn policy(&self) -> PolicyConfig {
        self.config
    }

    #[verifier::type_invariant]
    spec fn well_formed(self) -> bool {
        &&& self.consent_required_tiers@ == consent_tiers(views(self.config.require_consent_for@))
        &&& glob_sources(self.allow_patterns@) == valid_globs(views(self.config.allow_patterns@))
        &&& glob_sources(self.deny_patterns@) == valid_globs(views(self.config.deny_patterns@))
    }

    /// Builds an engine from a configuration.  Consent tiers that do not
    /// parse and patterns that do not compile are skipped.
    pub fn new(config: PolicyConfig) -> (r: Result<PolicyEngine, PolicyError>)
        ensures
            r matches Ok(e) && e.policy() == config,
    {
        let tiers = parse_tiers(&config.require_consent_for);
        let allow = compile_globs(&config.allow_patterns);
        let deny = compile_globs(&config.deny_patterns);
        Ok(PolicyEngine {
            config,
            consent_required_tiers: tiers,
            allow_patterns: allow,
            deny_patterns: deny,
        })
    }

    /// An engine that trusts every server, asks no consent and allows every
    /// name.
    pub fn new_permissive() -> (r: PolicyEngine)
        ensures
            r.policy().default_risk@ == "read_only"@,
            r.policy().require_consent_for@.len() == 0,
            views(r.policy().trusted_servers@) == seq!["*"@],
            r.policy().deny_tags@.len() == 0,
            r.policy().max_calls_per_skill == 100,
            r.policy().max_exec_ms == 300000,
            views(r.policy().allow_patterns@) == seq!["*"@],
            r.policy().deny_patterns@.len() == 0,
    {
        let config = PolicyConfig {
            default_risk: String::from_str("read_only"),
            require_consent_for: Vec::new(),
            trusted_servers: string_vec1("*"),
            deny_tags: Vec::new(),
            max_calls_per_skill: 100,
            max_exec_ms: 300000,
            allow_patterns: string_vec1("*"),
            deny_patterns: Vec::new(),
        };
        match PolicyEngine::new(config) {
            Ok(e) => e,
            Err(_) => vstd::pervasive::unreached(),
        }
    }

    /// Decides whether `callable` may run with the given consent.
    pub fn authorize(
        &self,
        callable: &CallableRecord,
        _arguments: &JsonValue,
        consent: ConsentLevel,
    ) -> (r: Result<AuthorizationResult, PolicyError>)
        ensures
            r matches Ok(a) && {
                let d = authorization(self.policy(), *callable, consent);
                a.allowed == d.0 && a.reason@ == d.1 && a.required_consent == d.2
            },
    {
        proof { use_type_invariant(self); }
        let ghost tags = views(callable.tags@);
        let ghost deny_tags = views(self.config.deny_tags@);
        // Denied tags
        assert(tags.skip(0) =~= tags);
        let mut i: usize = 0;
        while i < callable.tags.len()
            invariant
                i <= callable.tags.len(),
                tags == views(callable.tags@),
                deny_tags == views(self.config.deny_tags@),
                first_denied_tag(tags, deny_tags) == first_denied_tag(tags.skip(i as int), deny_tags),
            decreases callable.tags.len() - i,
        {
            let tag = &callable.tags[i];
            assert(tags.skip(i as int)[0] == tag@);
            assert(tags.skip(i as int).drop_first() =~= tags.skip(i as int + 1));
            let denied = vec_has_str(&self.config.deny_tags, tag.as_str());
            proof { lemma_has_str_views(self.config.deny_tags@, tag@); }
            if denied {
                return Ok(AuthorizationResult::deny(concat2("Callable has denied tag: ", tag.as_str())));
            }
            i = i + 1;
        }
        assert(tags.skip(i as int) =~= Seq::<Seq<char>>::empty());
        // Deny patterns
        let name = callable.fq_name.as_str();
        let found = first_match(&self.deny_patterns, name);
        match found {
            Some(k) => {
                let p = &self.deny_patterns[k];
                return Ok(AuthorizationResult::deny(concat2("Callable matches deny pattern: ", p.text.as_str())));
            },
            None => {},
        }
        // Allow patterns
        if self.allow_patterns.len() > 0 {
            let matched = first_match(&self.allow_patterns, name);
            if matched.is_none() {
                return Ok(AuthorizationResult::deny(String::from_str("Callable not in allowlist")));
            }
        }
        // Server trust
        match &callable.server_alias {
            Some(server) => {
                let trusted = &self.config.trusted_servers;
                let has_server = vec_has_str(trusted, server.as_str());
                let has_any = vec_has_str(trusted, "*");
                proof {
                    lemma_has_str_views(trusted@, server@);
                    lemma_has_str_views(trusted@, "*"@);
                }
                if trusted.len() > 0 && !has_server && !has_any {
                    return Ok(AuthorizationResult::deny(concat2("Server not in trusted list: ", server.as_str())));
                }
            },
            None => {},
        }
        // Risk tier and consent
        let tier = callable.risk_tier;
        if tier_listed(&self.consent_required_tiers, tier) {
            let needed = required_consent_of(tier);
            if consent.rank() < needed.rank() {
                let mut reason = String::from_str("Risk tier ");
                let tn = tier.name();
                reason.append(tn.as_str());
                reason.append(" requires consent level ");
                let cn = needed.name();
                reason.append(cn.as_str());
                return Ok(AuthorizationResult::deny_with_consent(reason, needed));
            }
        }
        Ok(AuthorizationResult::allow())
    }

    /// The timeout to use: the requested one, or the maximum when none is
    /// given; a request above the maximum is an error.
    pub fn check_timeout(&self, requested_ms: Option<u64>) -> (r: Result<u64, PolicyError>)
        ensures
            ({
                let max = self.policy().max_exec_ms;
                let t = match requested_ms {
                    Some(t) => t,
                    None => max,
                };
                &&& (t <= max ==> r == Ok::<u64, PolicyError>(t))
                &&& (t > max ==> (r matches Err(PolicyError::LimitExceeded(m)) && m@ == "Requested timeout "@
                    + decimal(t as nat) + "ms exceeds maximum "@ + decimal(max as nat) + "ms"@))
            }),
    {
        let max = self.config.max_exec_ms;
        let timeout = match requested_ms {
            Some(t) => t,
            None => max,
        };
        if timeout > max {
            let mut m = String::from_str("Requested timeout ");
            let a = u64_to_string(timeout);
            m.append(a.as_str());
            m.append("ms exceeds maximum ");
            let b = u64_to_string(max);
            m.append(b.as_str());
            m.append("ms");
            return Err(PolicyError::LimitExceeded(m));
        }
        Ok(timeout)
    }

    /// The maximum number of calls per skill execution.
    pub fn max_calls_per_skill(&self) -> (r: usize)
        ensures
            r == self.policy().max_calls_per_skill,
    {
        self.config.max_calls_per_skill
    }

    /// Whether a server is trusted: listed by name, or `"*"` is listed.
    pub fn is_server_trusted(&self, server: &str) -> (r: bool)
        ensures
            r == (views(self.policy().trusted_servers@).contains(server@)
                || views(self.policy().trusted_servers@).contains("*"@)),
    {
        let a = vec_has_str(&self.config.trusted_servers, server);
        let b = vec_has_str(&self.config.trusted_servers, "*");
        proof {
            lemma_has_str_views(self.config.trusted_servers@, server@);
            lemma_has_str_views(self.config.trusted_servers@, "*"@);
        }
        a || b
    }
}

/// Whether `tiers` lists `t`.
fn tier_listed(tiers: &Vec<RiskTier>, t: RiskTier) -> (r: bool)
    ensures
        r == tiers@.contains(t),
{
    let mut i: usize = 0;
    while i < tiers.len()
        invariant
            i <= tiers.len(),
            forall|j: int| 0 <= j < i ==> tiers@[j] != t,
        decreases tiers.len() - i,
    {
        if tiers[i] == t {
            return true;
        }
        i = i + 1;
    }
    false
}

/// The tiers that the names denote, in order.
fn parse_tiers(names: &Vec<String>) -> (r: Vec<RiskTier>)
    ensures
        r@ == consent_tiers(views(names@)),
{
    let mut out: Vec<RiskTier> = Vec::new();
    let mut i: usize = 0;
    while i < names.len()
        invariant
            i <= names.len(),
            out@ == consent_tiers(views(names@).take(i as int)),
        decreases names.len() - i,
    {
        let ghost t = views(names@).take(i as int + 1);
        assert(t.drop_last() =~= views(names@).take(i as int));
        assert(t.last() == names@[i as int]@);
        match parse_risk_tier(names[i].as_str()) {
            Ok(tier) => out.push(tier),
            Err(_) => {},
        }
        i = i + 1;
    }
    assert(views(names@).take(names.len() as int) =~= views(names@));
    out
}

/// The patterns that compile, compiled, in order.
fn compile_globs(pats: &Vec<String>) -> (r: Vec<CompiledGlob>)
    ensures
        glob_sources(r@) == valid_globs(views(pats@)),
{
    let mut out: Vec<CompiledGlob> = Vec::new();
    let mut i: usize = 0;
    while i < pats.len()
        invariant
            i <= pats.len(),
            glob_sources(out@) == valid_globs(views(pats@).take(i as int)),
        decreases pats.len() - i,
    {
        let ghost t = views(pats@).take(i as int + 1);
        assert(t.drop_last() =~= views(pats@).take(i as int));
        assert(t.last() == pats@[i as int]@);
        match compile_glob(pats[i].as_str()) {
            Some(g) => {
                let ghost old_out = out@;
                out.push(g);
                assert(glob_sources(out@) =~= glob_sources(old_out).push(pats@[i as int]@));
            },
            None => {},
        }
        i = i + 1;
    }
    assert(views(pats@).take(pats.len() as int) =~= views(pats@));
    out
}

/// The position of the first glob that matches `name`.
fn first_match(globs: &Vec<CompiledGlob>, name: &str) -> (r: Option<usize>)
    ensures
        match r {
            Some(k) => k < globs@.len() && first_matching_glob(glob_sources(globs@), name@)
                == Some(globs@[k as int].source()),
            None => first_matching_glob(glob_sources(globs@), name@) is None,
        },
{
    let ghost src = glob_sources(globs@);
    assert(src.skip(0) =~= src);
    let mut i: usize = 0;
    while i < globs.len()
        invariant
            i <= globs.len(),
            src == glob_sources(globs@),
            first_matching_glob(src, name@) == first_matching_glob(src.skip(i as int), name@),
        decreases globs.len() - i,
    {
        assert(src.skip(i as int)[0] == globs@[i as int].source());
        assert(src.skip(i as int).drop_first() =~= src.skip(i as int + 1));
        if glob_match(&globs[i], name) {
            return Some(i);
        }
        i = i + 1;
    }
    assert(src.skip(i as int) =~= Seq::<Seq<char>>::empty());
    None
}

// ---------------------------------------------------------------------------
// Laws
// ---------------------------------------------------------------------------

/// A tag list that holds a denied tag has a first denied tag.
proof fn lemma_first_denied_tag_some(tags: Seq<Seq<char>>, deny: Seq<Seq<char>>, i: int)
    requires
        0 <= i < tags.len(),
        deny.contains(tags[i]),
    ensures
        first_denied_tag(tags, deny) is Some,
    decreases tags.len(),
{
    if !deny.contains(tags[0]) {
        assert(tags.drop_first()[i - 1] == tags[i]);
        lemma_first_denied_tag_some(tags.drop_first(), deny, i - 1);
    }
}

proof fn lemma_first_matching_concat(a: Seq<Seq<char>>, b: Seq<Seq<char>>, name: Seq<char>)
    ensures
        first_matching_glob(a + b, name) == (if first_matching_glob(a, name) is Some {
            first_matching_glob(a, name)
        } else {
            first_matching_glob(b, name)
        }),
    decreases a.len(),
{
    if a.len() == 0 {
        assert(a + b =~= b);
    } else {
        assert((a + b)[0] == a[0]);
        assert((a + b).drop_first() =~= a.drop_first() + b);
        lemma_first_matching_concat(a.drop_first(), b, name);
    }
}

proof fn lemma_valid_globs_concat(a: Seq<Seq<char>>, b: Seq<Seq<char>>)
    ensures
        valid_globs(a + b) == valid_globs(a) + valid_globs(b),
    decreases b.len(),
{
    if b.len() == 0 {
        assert(a + b =~= a);
        assert(valid_globs(a) + valid_globs(b) =~= valid_globs(a));
    } else {
        assert((a + b).drop_last() =~= a + b.drop_last());
        assert((a + b).last() == b.last());
        lemma_valid_globs_concat(a, b.drop_last());
        if glob_valid(b.last()) {
            assert(valid_globs(a) + valid_globs(b.drop_last()).push(b.last()) =~= (valid_globs(a) + valid_globs(
                b.drop_last(),
            )).push(b.last()));
        }
    }
}

proof fn lemma_no_valid_match(pats: Seq<Seq<char>>, name: Seq<char>)
    requires
        forall|j: int| 0 <= j < pats.len() ==> !(glob_valid(#[trigger] pats[j]) && glob_matches(pats[j], name)),
    ensures
        first_matching_glob(valid_globs(pats), name) is None,
    decreases pats.len(),
{
    if pats.len() > 0 {
        let d = pats.drop_last();
        assert forall|j: int| 0 <= j < d.len() implies !(glob_valid(#[trigger] d[j]) && glob_matches(d[j], name)) by {
            assert(d[j] == pats[j]);
        }
        lemma_no_valid_match(d, name);
        if glob_valid(pats.last()) {
            assert(!glob_matches(pats[pats.len() - 1], name));
            lemma_first_matching_concat(valid_globs(d), seq![pats.last()], name);
            assert(valid_globs(d).push(pats.last()) =~= valid_globs(d) + seq![pats.last()]);
            assert(seq![pats.last()].drop_first() =~= Seq::<Seq<char>>::empty());
            assert(first_matching_glob(Seq::<Seq<char>>::empty(), name) is None);
            assert(first_matching_glob(seq![pats.last()], name) is None);
            assert(valid_globs(pats) == valid_globs(d).push(pats.last()));
        } else {
            assert(valid_globs(pats) == valid_globs(d));
        }
    }
}

/// The first of `pats` that compiles and matches `name` is the first
/// compiled pattern that matches it.
proof fn lemma_first_valid_match(pats: Seq<Seq<char>>, name: Seq<char>, i: int)
    requires
        0 <= i < pats.len(),
        glob_valid(pats[i]),
        glob_matches(pats[i], name),
        forall|j: int| 0 <= j < i ==> !(glob_valid(#[trigger] pats[j]) && glob_matches(pats[j], name)),
    ensures
        first_matching_glob(valid_globs(pats), name) == Some(pats[i]),
{
    let a = pats.take(i);
    let p = seq![pats[i]];
    let c = pats.skip(i + 1);
    assert(pats =~= a + (p + c));
    lemma_valid_globs_concat(a, p + c);
    lemma_valid_globs_concat(p, c);
    assert(p.drop_last() =~= Seq::<Seq<char>>::empty());
    assert(valid_globs(p.drop_last()) == Seq::<Seq<char>>::empty());
    assert(p.last() == pats[i]);
    assert(valid_globs(p) =~= p);
    assert forall|j: int| 0 <= j < a.len() implies !(glob_valid(#[trigger] a[j]) && glob_matches(a[j], name)) by {
        assert(a[j] == pats[j]);
    }
    lemma_no_valid_match(a, name);
    lemma_first_matching_concat(valid_globs(a), p + valid_globs(c), name);
    assert((p + valid_globs(c))[0] == pats[i]);
}

/// With no denied tag on the callable, a deny pattern that compiles and
/// matches the callable's full name refuses it, naming the first such
/// pattern, whatever the consent.
pub proof fn law_deny_pattern_blocks(cfg: PolicyConfig, callable: CallableRecord, consent: ConsentLevel, i: int)
    requires
        forall|k: int| 0 <= k < callable.tags@.len() ==> !views(cfg.deny_tags@).contains(#[trigger] callable.tags@[k]@),
        0 <= i < cfg.deny_patterns@.len(),
        glob_valid(cfg.deny_patterns@[i]@),
        glob_matches(cfg.deny_patterns@[i]@, callable.fq_name@),
        forall|j: int| 0 <= j < i ==> !(glob_valid(#[trigger] cfg.deny_patterns@[j]@) && glob_matches(
            cfg.deny_patterns@[j]@,
            callable.fq_name@,
        )),
    ensures
        !authorization(cfg, callable, consent).0,
        authorization(cfg, callable, consent).1 == "Callable matches deny pattern: "@ + cfg.deny_patterns@[i]@,
        authorization(cfg, callable, consent).2 is None,
{
    let tags = views(callable.tags@);
    let deny_tags = views(cfg.deny_tags@);
    assert forall|k: int| 0 <= k < tags.len() implies !deny_tags.contains(#[trigger] tags[k]) by {
        assert(tags[k] == callable.tags@[k]@);
    }
    lemma_no_denied_tag_among(tags, deny_tags);
    let pats = views(cfg.deny_patterns@);
    assert forall|j: int| 0 <= j < i implies !(glob_valid(#[trigger] pats[j]) && glob_matches(pats[j], callable.fq_name@)) by {
        assert(pats[j] == cfg.deny_patterns@[j]@);
    }
    lemma_first_valid_match(pats, callable.fq_name@, i);
}

proof fn lemma_no_match_means_none_valid_matches(pats: Seq<Seq<char>>, name: Seq<char>)
    requires
        first_matching_glob(valid_globs(pats), name) is None,
    ensures
        forall|j: int| 0 <= j < pats.len() ==> !(glob_valid(#[trigger] pats[j]) && glob_matches(pats[j], name)),
    decreases pats.len(),
{
    if pats.len() > 0 {
        let d = pats.drop_last();
        if glob_valid(pats.last()) {
            assert(valid_globs(pats) == valid_globs(d).push(pats.last()));
            assert(valid_globs(d).push(pats.last()) =~= valid_globs(d) + seq![pats.last()]);
            lemma_first_matching_concat(valid_globs(d), seq![pats.last()], name);
            assert(seq![pats.last()][0] == pats.last());
        } else {
            assert(valid_globs(pats) == valid_globs(d));
        }
        lemma_no_match_means_none_valid_matches(d, name);
        assert forall|j: int| 0 <= j < pats.len() implies !(glob_valid(#[trigger] pats[j]) && glob_matches(pats[j], name)) by {
            if j < d.len() {
                assert(d[j] == pats[j]);
            }
        }
    }
}

proof fn lemma_match_found(s: Seq<Seq<char>>, name: Seq<char>)
    requires
        first_matching_glob(s, name) is Some,
    ensures
        s.contains(first_matching_glob(s, name)->0),
        glob_matches(first_matching_glob(s, name)->0, name),
    decreases s.len(),
{
    if !glob_matches(s[0], name) {
        lemma_match_found(s.drop_first(), name);
        let p = first_matching_glob(s, name)->0;
        let k = choose|k: int| 0 <= k < s.drop_first().len() && s.drop_first()[k] == p;
        assert(s[k + 1] == p);
    } else {
        assert(s[0] == first_matching_glob(s, name)->0);
    }
}

proof fn lemma_valid_globs_members(pats: Seq<Seq<char>>)
    ensures
        forall|k: int| 0 <= k < valid_globs(pats).len() ==> exists|j: int| 0 <= j < pats.len() && pats[j]
            == #[trigger] valid_globs(pats)[k] && glob_valid(pats[j]),
        valid_globs(pats).len() > 0 <==> exists|j: int| 0 <= j < pats.len() && glob_valid(#[trigger] pats[j]),
    decreases pats.len(),
{
    if pats.len() > 0 {
        let d = pats.drop_last();
        lemma_valid_globs_members(d);
        let v = valid_globs(pats);
        assert forall|k: int| 0 <= k < v.len() implies exists|j: int| 0 <= j < pats.len() && pats[j]
            == #[trigger] v[k] && glob_valid(pats[j]) by {
            if k < valid_globs(d).len() {
                assert(v[k] == valid_globs(d)[k]);
                let j = choose|j: int| 0 <= j < d.len() && d[j] == valid_globs(d)[k] && glob_valid(d[j]);
                assert(pats[j] == d[j]);
            } else {
                assert(v[k] == pats[pats.len() - 1]);
            }
        }
        if exists|j: int| 0 <= j < pats.len() && glob_valid(#[trigger] pats[j]) {
            let j = choose|j: int| 0 <= j < pats.len() && glob_valid(#[trigger] pats[j]);
            if j < d.len() {
                assert(d[j] == pats[j]);
            }
        }
        if exists|j: int| 0 <= j < d.len() && glob_valid(#[trigger] d[j]) {
            let j = choose|j: int| 0 <= j < d.len() && glob_valid(#[trigger] d[j]);
            assert(pats[j] == d[j]);
        }
    }
}

proof fn lemma_no_denied_tag_means(tags: Seq<Seq<char>>, deny: Seq<Seq<char>>)
    requires
        first_denied_tag(tags, deny) is None,
    ensures
        forall|k: int| 0 <= k < tags.len() ==> !deny.contains(#[trigger] tags[k]),
    decreases tags.len(),
{
    if tags.len() > 0 {
        lemma_no_denied_tag_means(tags.drop_first(), deny);
        assert forall|k: int| 0 <= k < tags.len() implies !deny.contains(#[trigger] tags[k]) by {
            if k > 0 {
                assert(tags.drop_first()[k - 1] == tags[k]);
            }
        }
    }
}

/// An authorized callable carries no denied tag, no compiling deny pattern
/// matches its full name, and, when some allow pattern compiles, one that
/// compiles matches its full name.
pub proof fn law_authorized_passes_every_rule(cfg: PolicyConfig, callable: CallableRecord, consent: ConsentLevel)
    requires
        authorization(cfg, callable, consent).0,
    ensures
        forall|k: int| 0 <= k < callable.tags@.len() ==> !views(cfg.deny_tags@).contains(#[trigger] callable.tags@[k]@),
        forall|j: int| 0 <= j < cfg.deny_patterns@.len() ==> !(glob_valid(#[trigger] cfg.deny_patterns@[j]@)
            && glob_matches(cfg.deny_patterns@[j]@, callable.fq_name@)),
        (exists|j: int| 0 <= j < cfg.allow_patterns@.len() && glob_valid(#[trigger] cfg.allow_patterns@[j]@))
            ==> exists|j: int| 0 <= j < cfg.allow_patterns@.len() && glob_valid(#[trigger] cfg.allow_patterns@[j]@)
            && glob_matches(cfg.allow_patterns@[j]@, callable.fq_name@),
{
    let tags = views(callable.tags@);
    lemma_no_denied_tag_means(tags, views(cfg.deny_tags@));
    assert forall|k: int| 0 <= k < callable.tags@.len() implies !views(cfg.deny_tags@).contains(#[trigger] callable.tags@[k]@) by {
        assert(tags[k] == callable.tags@[k]@);
    }
    let deny = views(cfg.deny_patterns@);
    lemma_no_match_means_none_valid_matches(deny, callable.fq_name@);
    assert forall|j: int| 0 <= j < cfg.deny_patterns@.len() implies !(glob_valid(#[trigger] cfg.deny_patterns@[j]@)
        && glob_matches(cfg.deny_patterns@[j]@, callable.fq_name@)) by {
        assert(deny[j] == cfg.deny_patterns@[j]@);
    }
    let allow = views(cfg.allow_patterns@);
    lemma_valid_globs_members(allow);
    if exists|j: int| 0 <= j < cfg.allow_patterns@.len() && glob_valid(#[trigger] cfg.allow_patterns@[j]@) {
        let j0 = choose|j: int| 0 <= j < cfg.allow_patterns@.len() && glob_valid(#[trigger] cfg.allow_patterns@[j]@);
        assert(allow[j0] == cfg.allow_patterns@[j0]@);
        assert(glob_valid(allow[j0]));
        let v = valid_globs(allow);
        lemma_match_found(v, callable.fq_name@);
        let p = first_matching_glob(v, callable.fq_name@)->0;
        let k = choose|k: int| 0 <= k < v.len() && v[k] == p;
        let j = choose|j: int| 0 <= j < allow.len() && allow[j] == #[trigger] v[k] && glob_valid(allow[j]);
        assert(allow[j] == cfg.allow_patterns@[j]@);
    }
}

proof fn lemma_no_denied_tag_among(tags: Seq<Seq<char>>, deny: Seq<Seq<char>>)
    requires
        forall|k: int| 0 <= k < tags.len() ==> !deny.contains(#[trigger] tags[k]),
    ensures
        first_denied_tag(tags, deny) is None,
    decreases tags.len(),
{
    if tags.len() > 0 {
        assert(!deny.contains(tags[0]));
        assert forall|k: int| 0 <= k < tags.drop_first().len() implies !deny.contains(#[trigger] tags.drop_first()[k]) by {
            assert(tags.drop_first()[k] == tags[k + 1]);
        }
        lemma_no_denied_tag_among(tags.drop_first(), deny);
    }
}

/// A callable that carries a denied tag is never authorized, whatever the
/// consent.
pub proof fn law_denied_tag_blocks(cfg: PolicyConfig, callable: CallableRecord, consent: ConsentLevel, i: int)
    requires
        0 <= i < callable.tags@.len(),
        views(cfg.deny_tags@).contains(callable.tags@[i]@),
    ensures
        !authorization(cfg, callable, consent).0,
{
    assert(views(callable.tags@)[i] == callable.tags@[i]@);
    lemma_first_denied_tag_some(views(callable.tags@), views(cfg.deny_tags@), i);
}

/// More consent never turns an authorization into a denial.
pub proof fn law_consent_monotone(cfg: PolicyConfig, callable: CallableRecord, low: ConsentLevel, high: ConsentLevel)
    requires
        consent_rank(low) <= consent_rank(high),
        authorization(cfg, callable, low).0,
    ensures
        authorization(cfg, callable, high).0,
{
}

/// An authorization carries the reason `"Authorized"` and asks for no
/// consent; a denial that asks for consent asks for the level its tier
/// needs, which is more than the consent given.
pub proof fn law_answer_shape(cfg: PolicyConfig, callable: CallableRecord, consent: ConsentLevel)
    ensures
        authorization(cfg, callable, consent).0 ==> authorization(cfg, callable, consent).1 == "Authorized"@
            && authorization(cfg, callable, consent).2 is None,
        authorization(cfg, callable, consent).2 matches Some(c) ==> c == required_consent(callable.risk_tier)
            && consent_rank(consent) < consent_rank(c),
{
}

/// A read-only or unknown-tier callable is never denied for want of consent.
pub proof fn law_low_tiers_need_no_consent(cfg: PolicyConfig, callable: CallableRecord, consent: ConsentLevel)
    requires
        callable.risk_tier == RiskTier::ReadOnly || callable.risk_tier == RiskTier::Unknown,
    ensures
        authorization(cfg, callable, consent).2 is None,
        authorization(cfg, callable, consent).0 == authorization(cfg, callable, ConsentLevel::AdminConfirmed).0,
{
}

/// With the permissive configuration (every server trusted, no consent, the
/// single allow pattern `"*"`), every callable is authorized, provided `"*"`
/// compiles and matches its name, as `glob` documents.
pub proof fn law_permissive_allows_all(cfg: PolicyConfig, callable: CallableRecord, consent: ConsentLevel)
    requires
        cfg.require_consent_for@.len() == 0,
        views(cfg.trusted_servers@) == seq!["*"@],
        cfg.deny_tags@.len() == 0,
        views(cfg.allow_patterns@) == seq!["*"@],
        cfg.deny_patterns@.len() == 0,
        glob_valid("*"@),
        glob_matches("*"@, callable.fq_name@),
    ensures
        authorization(cfg, callable, consent).0,
{
    let tags = views(callable.tags@);
    let deny = views(cfg.deny_tags@);
    assert(deny.len() == 0);
    lemma_no_denied_tag(tags, deny);
    let allow = views(cfg.allow_patterns@);
    assert(allow.drop_last() =~= Seq::<Seq<char>>::empty());
    assert(valid_globs(allow.drop_last()) == Seq::<Seq<char>>::empty());
    assert(allow.last() == "*"@);
    assert(valid_globs(allow) =~= seq!["*"@]);
    assert(views(cfg.deny_patterns@) =~= Seq::<Seq<char>>::empty());
    assert(views(cfg.require_consent_for@) =~= Seq::<Seq<char>>::empty());
    assert(views(cfg.trusted_servers@).contains("*"@)) by {
        assert(views(cfg.trusted_servers@)[0] == "*"@);
    }
}

/// No tag is denied by an empty deny list.
proof fn lemma_no_denied_tag(tags: Seq<Seq<char>>, deny: Seq<Seq<char>>)
    requires
        deny.len() == 0,
    ensures
        first_denied_tag(tags, deny) is None,
    decreases tags.len(),
{
    if tags.len() > 0 {
        lemma_no_denied_tag(tags.drop_first(), deny);
    }
}

} // verus!
