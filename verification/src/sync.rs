//! Synchronization of Agent Skills from repositories declared in the
//! configuration: aliases and clone URLs of repositories, when a repository
//! needs a new sync, which skills to import and which to remove, and the
//! report of a sync.  Cloning and copying are the caller's.
use vstd::prelude::*;
use crate::text::{
    chars_of, concat2, ends_with, seq_has_char, seq_starts_with, starts_with, str_eq,
    string_of, sub_chars, vec_has_str, views, lemma_has_str_views, lemma_views_push,
};

verus! {

/// An Agent Skills repository of the configuration.
#[derive(Debug)]
pub struct AgentSkillsRepoConfig {
    /// Repository URL or GitHub shorthand (`owner/repo`).
    pub repo: String,
    /// Branch, tag or commit.
    pub git_ref: Option<String>,
    /// The skills to import (all when absent).
    pub skills: Option<Vec<String>>,
    /// Alias for tracking (derived from the repository when absent).
    pub alias: Option<String>,
}

/// What was synced from a repository.
#[derive(Debug)]
pub struct SyncMetadata {
    pub repo: String,
    pub git_ref: Option<String>,
    pub commit_sha: String,
    pub synced_skills: Vec<String>,
    /// Time of the sync, in milliseconds since the Unix epoch.
    pub last_sync_ms: i64,
}

// ---------------------------------------------------------------------------
// Repositories
// ---------------------------------------------------------------------------

/// The last piece of `s` after a `/` (all of `s` when there is none).
pub open spec fn last_segment(s: Seq<char>) -> Seq<char>
    decreases s.len(),
{
    if s.len() == 0 {
        s
    } else if s.last() == '/' {
        Seq::empty()
    } else {
        last_segment(s.drop_last()).push(s.last())
    }
}

/// `s` without any number of trailing `".git"`.
pub open spec fn trim_git_suffix(s: Seq<char>) -> Seq<char>
    decreases s.len(),
{
    if ends_with(s, ".git"@) && s.len() >= 4 {
        trim_git_suffix(s.take(s.len() - 4))
    } else {
        s
    }
}

/// The alias a repository is tracked under: the configured one, or the
/// last path segment of the repository without `.git`.
pub open spec fn alias_of(c: AgentSkillsRepoConfig) -> Seq<char> {
    match c.alias {
        Some(a) => a@,
        None => trim_git_suffix(last_segment(c.repo@)),
    }
}

fn last_segment_exec(s: &[char]) -> (r: Vec<char>)
    ensures
        r@ == last_segment(s@),
{
    let mut start: usize = 0;
    let mut i: usize = 0;
    assert(s@.take(0) =~= Seq::<char>::empty());
    while i < s.len()
        invariant
            start <= i <= s.len(),
            s@.subrange(start as int, i as int) == last_segment(s@.take(i as int)),
        decreases s.len() - i,
    {
        let ghost t = s@.take(i as int + 1);
        assert(t.drop_last() =~= s@.take(i as int));
        assert(t.last() == s@[i as int]);
        if s[i] == '/' {
            start = i + 1;
            assert(s@.subrange(start as int, i as int + 1) =~= Seq::<char>::empty());
        } else {
            assert(s@.subrange(start as int, i as int + 1) =~= s@.subrange(start as int, i as int).push(s@[i as int]));
        }
        i = i + 1;
    }
    assert(s@.take(s.len() as int) =~= s@);
    sub_chars(s, start, s.len())
}

fn trim_git_suffix_exec(s: &[char]) -> (r: Vec<char>)
    ensures
        r@ == trim_git_suffix(s@),
{
    let suffix = chars_of(".git");
    let mut n: usize = s.len();
    assert(s@.take(n as int) =~= s@);
    loop
        invariant
            n <= s.len(),
            suffix@ == ".git"@,
            trim_git_suffix(s@.take(n as int)) == trim_git_suffix(s@),
        decreases n,
    {
        let cur = sub_chars(s, 0, n);
        assert(cur@ =~= s@.take(n as int));
        if n >= 4 && crate::text::seq_ends_with(cur.as_slice(), suffix.as_slice()) {
            assert(s@.take(n as int).take(n - 4) =~= s@.take(n - 4));
            n = n - 4;
        } else {
            return cur;
        }
    }
}

/// The alias a repository is tracked under.
pub fn repo_alias(config: &AgentSkillsRepoConfig) -> (r: String)
    ensures
        r@ == alias_of(*config),
{
    match &config.alias {
        Some(a) => a.clone(),
        None => {
            let c = chars_of(config.repo.as_str());
            let seg = last_segment_exec(c.as_slice());
            let t = trim_git_suffix_exec(seg.as_slice());
            string_of(t.as_slice())
        },
    }
}

/// The URL a repository is cloned from: a `http://`, `https://` or
/// `file://` URL as it is, an `owner/repo` shorthand on GitHub; anything
/// else is refused.
pub open spec fn repo_url_of(repo: Seq<char>) -> Result<Seq<char>, Seq<char>> {
    if starts_with(repo, "http://"@) || starts_with(repo, "https://"@) || starts_with(repo, "file://"@) {
        Ok(repo)
    } else if repo.contains('/') && !repo.contains(':') {
        Ok("https://github.com/"@ + repo)
    } else {
        Err("Invalid repo format: "@ + repo)
    }
}

/// The URL a repository is cloned from, or the message of its refusal.
pub fn repo_url(repo: &str) -> (r: Result<String, String>)
    ensures
        match repo_url_of(repo@) {
            Ok(u) => r matches Ok(x) && x@ == u,
            Err(m) => r matches Err(x) && x@ == m,
        },
{
    let c = chars_of(repo);
    if seq_starts_with(c.as_slice(), chars_of("http://").as_slice())
        || seq_starts_with(c.as_slice(), chars_of("https://").as_slice())
        || seq_starts_with(c.as_slice(), chars_of("file://").as_slice()) {
        Ok(String::from_str(repo))
    } else if seq_has_char(c.as_slice(), '/') && !seq_has_char(c.as_slice(), ':') {
        Ok(concat2("https://github.com/", repo))
    } else {
        Err(concat2("Invalid repo format: ", repo))
    }
}

/// The URL the `add` command clones a repository from: a `http://` or
/// `https://` URL as it is, an `owner/repo` shorthand on GitHub; anything
/// else is refused.
pub open spec fn add_url_of(repo: Seq<char>) -> Option<Seq<char>> {
    if starts_with(repo, "http://"@) || starts_with(repo, "https://"@) {
        Some(repo)
    } else if repo.contains('/') && !repo.contains(':') {
        Some("https://github.com/"@ + repo)
    } else {
        None
    }
}

/// The URL the `add` command clones a repository from, if the repository
/// is given in a form it takes.
pub fn add_repo_url(repo: &str) -> (r: Option<String>)
    ensures
        match add_url_of(repo@) {
            Some(u) => r matches Some(x) && x@ == u,
            None => r is None,
        },
{
    let c = chars_of(repo);
    if seq_starts_with(c.as_slice(), chars_of("http://").as_slice())
        || seq_starts_with(c.as_slice(), chars_of("https://").as_slice()) {
        Some(String::from_str(repo))
    } else if seq_has_char(c.as_slice(), '/') && !seq_has_char(c.as_slice(), ':') {
        Some(concat2("https://github.com/", repo))
    } else {
        None
    }
}

/// The arguments of `git` for a shallow clone of `url` into `dest`.
pub open spec fn clone_args(git_ref: Option<Seq<char>>, url: Seq<char>, dest: Seq<char>) -> Seq<Seq<char>> {
    seq!["clone"@] + (match git_ref {
        Some(r) => seq!["--branch"@, r],
        None => Seq::empty(),
    }) + seq!["--depth"@, "1"@, url, dest]
}

/// The arguments of `git` for cloning a repository.
pub fn git_clone_args(config: &AgentSkillsRepoConfig, url: &str, dest: &str) -> (r: Vec<String>)
    ensures
        views(r@) == clone_args(
            match config.git_ref {
                Some(g) => Some(g@),
                None => None,
            },
            url@,
            dest@,
        ),
{
    let mut v: Vec<String> = Vec::new();
    v.push(String::from_str("clone"));
    match &config.git_ref {
        Some(g) => {
            v.push(String::from_str("--branch"));
            v.push(g.clone());
        },
        None => {},
    }
    v.push(String::from_str("--depth"));
    v.push(String::from_str("1"));
    v.push(String::from_str(url));
    v.push(String::from_str(dest));
    assert(views(v@) =~= clone_args(
        match config.git_ref {
            Some(g) => Some(g@),
            None => None,
        },
        url@,
        dest@,
    ));
    v
}

// ---------------------------------------------------------------------------
// Sync decisions
// ---------------------------------------------------------------------------

/// Whether two lists hold the same set of names.
pub open spec fn same_names(a: Seq<Seq<char>>, b: Seq<Seq<char>>) -> bool {
    (forall|i: int| 0 <= i < a.len() ==> b.contains(#[trigger] a[i])) && (forall|i: int|
        0 <= i < b.len() ==> a.contains(#[trigger] b[i]))
}

/// Whether a repository needs a sync: it was never synced, its ref
/// changed, or its skill filter names other skills than were synced.
pub open spec fn needs_sync_spec(meta: Option<SyncMetadata>, config: AgentSkillsRepoConfig) -> bool {
    match meta {
        None => true,
        Some(m) => {
            let ref_changed = match (m.git_ref, config.git_ref) {
                (Some(a), Some(b)) => a@ != b@,
                (None, None) => false,
                _ => true,
            };
            ref_changed || match config.skills {
                Some(cs) => m.synced_skills@.len() > 0 && !same_names(views(m.synced_skills@), views(cs@)),
                None => false,
            }
        },
    }
}

/// A repository synced at its configured reference, with the skills its
/// filter names (or with no filter), needs no new sync.
pub proof fn law_synced_repo_is_fresh(meta: SyncMetadata, config: AgentSkillsRepoConfig)
    requires
        crate::search::opt_view(meta.git_ref) == crate::search::opt_view(config.git_ref),
        match config.skills {
            Some(cs) => same_names(views(meta.synced_skills@), views(cs@)),
            None => true,
        },
    ensures
        !needs_sync_spec(Some(meta), config),
{
}

/// A repository never synced needs a sync.
pub proof fn law_unsynced_repo_needs_sync(config: AgentSkillsRepoConfig)
    ensures
        needs_sync_spec(None, config),
{
}

fn all_listed(a: &Vec<String>, b: &Vec<String>) -> (r: bool)
    ensures
        r == (forall|i: int| 0 <= i < views(a@).len() ==> views(b@).contains(#[trigger] views(a@)[i])),
{
    let mut i: usize = 0;
    while i < a.len()
        invariant
            i <= a.len(),
            forall|j: int| 0 <= j < i ==> views(b@).contains(#[trigger] views(a@)[j]),
        decreases a.len() - i,
    {
        let h = vec_has_str(b, a[i].as_str());
        proof { lemma_has_str_views(b@, a@[i as int]@); }
        if !h {
            assert(views(a@)[i as int] == a@[i as int]@);
            return false;
        }
        assert(views(a@)[i as int] == a@[i as int]@);
        i = i + 1;
    }
    true
}

fn opt_eq(a: &Option<String>, b: &Option<String>) -> (r: bool)
    ensures
        r == match (*a, *b) {
            (Some(x), Some(y)) => x@ == y@,
            (None, None) => true,
            _ => false,
        },
{
    match (a, b) {
        (Some(x), Some(y)) => str_eq(x.as_str(), y.as_str()),
        (None, None) => true,
        _ => false,
    }
}

/// Whether a repository needs a sync, given what was synced from it.
pub fn needs_sync(meta: Option<&SyncMetadata>, config: &AgentSkillsRepoConfig) -> (r: bool)
    ensures
        r == needs_sync_spec(
            match meta {
                Some(m) => Some(*m),
                None => None,
            },
            *config,
        ),
{
    match meta {
        None => true,
        Some(m) => {
            if !opt_eq(&m.git_ref, &config.git_ref) {
                return true;
            }
            match &config.skills {
                Some(cs) => {
                    if m.synced_skills.len() == 0 {
                        false
                    } else {
                        let a = all_listed(&m.synced_skills, cs);
                        let b = all_listed(cs, &m.synced_skills);
                        !(a && b)
                    }
                },
                None => false,
            }
        },
    }
}

/// The discovered skill directories to import: all of them, or those whose
/// directory name the filter lists.
pub open spec fn import_selection(paths: Seq<Seq<char>>, filter: Option<Seq<Seq<char>>>) -> Seq<Seq<char>>
    decreases paths.len(),
{
    match filter {
        None => paths,
        Some(f) => if paths.len() == 0 {
            Seq::empty()
        } else {
            let r = import_selection(paths.drop_last(), filter);
            match crate::isolation::file_name_of(paths.last()) {
                Some(n) => if f.contains(n) { r.push(paths.last()) } else { r },
                None => r,
            }
        },
    }
}

/// Selects the discovered skill directories to import.
pub fn skills_to_import(discovered: Vec<String>, filter: &Option<Vec<String>>) -> (r: Vec<String>)
    ensures
        views(r@) == import_selection(
            views(discovered@),
            match *filter {
                Some(f) => Some(views(f@)),
                None => None,
            },
        ),
{
    match filter {
        None => discovered,
        Some(f) => {
            let ghost ps = views(discovered@);
            let ghost fo = Some(views(f@));
            let mut out: Vec<String> = Vec::new();
            let mut i: usize = 0;
            while i < discovered.len()
                invariant
                    i <= discovered.len(),
                    ps == views(discovered@),
                    fo == Some(views(f@)),
                    views(out@) == import_selection(ps.take(i as int), fo),
                decreases discovered.len() - i,
            {
                let ghost t = ps.take(i as int + 1);
                assert(t.drop_last() =~= ps.take(i as int));
                assert(t.last() == discovered@[i as int]@);
                match crate::isolation::path_file_name(discovered[i].as_str()) {
                    Some(n) => {
                        let listed = vec_has_str(f, n.as_str());
                        proof { lemma_has_str_views(f@, n@); }
                        if listed {
                            let ghost before = out@;
                            out.push(discovered[i].clone());
                            proof { lemma_views_push(before, out@.last()); }
                        }
                    },
                    None => {},
                }
                i = i + 1;
            }
            assert(ps.take(discovered.len() as int) =~= ps);
            out
        },
    }
}

/// The previously synced skills that the new import no longer holds.
pub open spec fn stale_skills_spec(old: Seq<Seq<char>>, import_names: Seq<Seq<char>>) -> Seq<Seq<char>>
    decreases old.len(),
{
    if old.len() == 0 {
        Seq::empty()
    } else {
        let r = stale_skills_spec(old.drop_last(), import_names);
        if import_names.contains(old.last()) { r } else { r.push(old.last()) }
    }
}

/// The previously synced skills that are no longer imported, in order.
pub fn stale_skills(old: &Vec<String>, import_names: &Vec<String>) -> (r: Vec<String>)
    ensures
        views(r@) == stale_skills_spec(views(old@), views(import_names@)),
{
    let ghost os = views(old@);
    let mut out: Vec<String> = Vec::new();
    let mut i: usize = 0;
    while i < old.len()
        invariant
            i <= old.len(),
            os == views(old@),
            views(out@) == stale_skills_spec(os.take(i as int), views(import_names@)),
        decreases old.len() - i,
    {
        let ghost t = os.take(i as int + 1);
        assert(t.drop_last() =~= os.take(i as int));
        assert(t.last() == old@[i as int]@);
        let kept = vec_has_str(import_names, old[i].as_str());
        proof { lemma_has_str_views(import_names@, old@[i as int]@); }
        if !kept {
            let ghost before = out@;
            out.push(old[i].clone());
            proof { lemma_views_push(before, out@.last()); }
        }
        i = i + 1;
    }
    assert(os.take(old.len() as int) =~= os);
    out
}

/// What a sync removes is exactly what was there before and is no longer
/// kept: a name is in `stale_skills_spec(old, keep)` if and only if `old`
/// holds it and `keep` does not.
pub proof fn law_removed_exactly_unkept(old: Seq<Seq<char>>, keep: Seq<Seq<char>>, x: Seq<char>)
    ensures
        stale_skills_spec(old, keep).contains(x) <==> (old.contains(x) && !keep.contains(x)),
    decreases old.len(),
{
    if old.len() > 0 {
        law_removed_exactly_unkept(old.drop_last(), keep, x);
        let r = stale_skills_spec(old.drop_last(), keep);
        if old.contains(x) && !keep.contains(x) {
            let i = choose|i: int| 0 <= i < old.len() && old[i] == x;
            if i < old.len() - 1 {
                assert(old.drop_last()[i] == x);
            }
        }
        if stale_skills_spec(old, keep).contains(x) && !r.contains(x) {
            assert(old.last() == x);
            assert(old[old.len() - 1] == x);
        }
        if old.drop_last().contains(x) {
            let j = choose|j: int| 0 <= j < old.drop_last().len() && old.drop_last()[j] == x;
            assert(old[j] == x);
        }
        if !keep.contains(old.last()) {
            assert(r.push(old.last())[r.len() as int] == old.last());
            if r.contains(x) {
                let k = choose|k: int| 0 <= k < r.len() && r[k] == x;
                assert(r.push(old.last())[k] == x);
            }
        }
    }
}

/// The aliases of the configured repositories, in order.
pub open spec fn aliases_of(repos: Seq<AgentSkillsRepoConfig>) -> Seq<Seq<char>> {
    repos.map_values(|c: AgentSkillsRepoConfig| alias_of(c))
}

/// The aliases of the configured repositories.
pub fn repo_aliases(repos: &Vec<AgentSkillsRepoConfig>) -> (r: Vec<String>)
    ensures
        views(r@) == aliases_of(repos@),
{
    let mut out: Vec<String> = Vec::new();
    let mut i: usize = 0;
    while i < repos.len()
        invariant
            i <= repos.len(),
            views(out@) == aliases_of(repos@).take(i as int),
        decreases repos.len() - i,
    {
        let ghost before = out@;
        out.push(repo_alias(&repos[i]));
        proof { lemma_views_push(before, out@.last()); }
        assert(aliases_of(repos@).take(i as int + 1) =~= aliases_of(repos@).take(i as int).push(
            alias_of(repos@[i as int]),
        ));
        i = i + 1;
    }
    assert(aliases_of(repos@).take(repos.len() as int) =~= aliases_of(repos@));
    out
}

/// The repositories synced before that the configuration no longer lists,
/// in order: their skills are removed.
pub fn removed_repos(synced: &Vec<String>, repos: &Vec<AgentSkillsRepoConfig>) -> (r: Vec<String>)
    ensures
        views(r@) == stale_skills_spec(views(synced@), aliases_of(repos@)),
{
    let aliases = repo_aliases(repos);
    stale_skills(synced, &aliases)
}

// ---------------------------------------------------------------------------
// Reports
// ---------------------------------------------------------------------------

/// The report of a sync.
#[derive(Debug)]
pub struct SyncReport {
    pub added: Vec<String>,
    pub updated: Vec<String>,
    pub removed: Vec<String>,
    pub errors: Vec<String>,
}

/// The number of changes a report records.
pub open spec fn changes(r: SyncReport) -> nat {
    r.added@.len() + r.updated@.len() + r.removed@.len()
}

/// Whether a report records nothing.
pub open spec fn report_empty(r: SyncReport) -> bool {
    r.added@.len() == 0 && r.updated@.len() == 0 && r.removed@.len() == 0 && r.errors@.len() == 0
}

fn extend(v: &mut Vec<String>, other: Vec<String>)
    ensures
        final(v)@ == old(v)@ + other@,
{
    let ghost start = v@;
    let mut rest = other;
    let ghost o = rest@;
    let ghost mut i: int = 0;
    assert(o.skip(0) =~= o);
    while rest.len() > 0
        invariant
            0 <= i <= o.len(),
            rest@ == o.skip(i),
            v@ == start + o.take(i),
        decreases rest.len(),
    {
        let x = rest.remove(0);
        proof {
            assert(x == o[i]);
        }
        v.push(x);
        proof {
            assert(o.take(i + 1) =~= o.take(i).push(o[i]));
            assert(rest@ =~= o.skip(i + 1));
            i = i + 1;
        }
    }
    assert(o.take(i) =~= o);
}

impl SyncReport {
    /// An empty report (`Default`).
    pub fn new() -> (r: SyncReport)
        ensures
            report_empty(r),
    {
        SyncReport { added: Vec::new(), updated: Vec::new(), removed: Vec::new(), errors: Vec::new() }
    }

    /// Appends another report's entries to this one's.
    pub fn merge(&mut self, other: SyncReport)
        ensures
            final(self).added@ == old(self).added@ + other.added@,
            final(self).updated@ == old(self).updated@ + other.updated@,
            final(self).removed@ == old(self).removed@ + other.removed@,
            final(self).errors@ == old(self).errors@ + other.errors@,
    {
        extend(&mut self.added, other.added);
        extend(&mut self.updated, other.updated);
        extend(&mut self.removed, other.removed);
        extend(&mut self.errors, other.errors);
    }

    /// Records an imported skill: updated when its directory was already
    /// there (and replaced), added otherwise.
    pub fn record_import(&mut self, name: String, existed: bool)
        ensures
            existed ==> final(self).updated@ == old(self).updated@.push(name)
                && final(self).added@ == old(self).added@,
            !existed ==> final(self).added@ == old(self).added@.push(name)
                && final(self).updated@ == old(self).updated@,
            final(self).removed@ == old(self).removed@,
            final(self).errors@ == old(self).errors@,
    {
        if existed {
            self.updated.push(name);
        } else {
            self.added.push(name);
        }
    }

    /// Whether the report records nothing.
    pub fn is_empty(&self) -> (r: bool)
        ensures
            r == report_empty(*self),
    {
        self.added.len() == 0 && self.updated.len() == 0 && self.removed.len() == 0 && self.errors.len() == 0
    }

    /// The number of skills added, updated or removed.
    pub fn total_changes(&self) -> (r: usize)
        requires
            changes(*self) <= usize::MAX,
        ensures
            r == changes(*self),
    {
        self.added.len() + self.updated.len() + self.removed.len()
    }
}

impl Default for SyncReport {
    fn default() -> (r: SyncReport)
        ensures
            report_empty(r),
    {
        SyncReport::new()
    }
}

/// Merging adds the changes of both reports, and the result is empty
/// exactly when both were.
pub proof fn law_merge_adds(a: SyncReport, b: SyncReport, m: SyncReport)
    requires
        m.added@ == a.added@ + b.added@,
        m.updated@ == a.updated@ + b.updated@,
        m.removed@ == a.removed@ + b.removed@,
        m.errors@ == a.errors@ + b.errors@,
    ensures
        changes(m) == changes(a) + changes(b),
        report_empty(m) <==> (report_empty(a) && report_empty(b)),
{
}

} // verus!
