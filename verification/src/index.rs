//! The inverted token index of the search engine: each token with the
//! callables that have it, and each callable with its tokens.
use vstd::prelude::*;
use crate::callables::{CallableId, CallableRecord};
use crate::search::{
    IndexError, SearchQuery, SearchResults, page_digests_ok, search_answer, search_records, tokenize, tokens_of,
};
use crate::text::{lemma_has_str_views, lowercase, str_eq, to_lowercase, vec_has_str, views};

verus! {

// ---------------------------------------------------------------------------
// Association lists
// ---------------------------------------------------------------------------

/// The keys of an association list of strings to string sets.
pub open spec fn assoc_keys(v: Seq<(String, Vec<String>)>) -> Seq<Seq<char>> {
    v.map_values(|p: (String, Vec<String>)| p.0@)
}

/// The set an entry associates with its key.
pub open spec fn entry_set(p: (String, Vec<String>)) -> Set<Seq<char>> {
    views(p.1@).to_set()
}

/// The set associated with `k`: that of the last entry with key `k`.
pub open spec fn assoc_get(v: Seq<(String, Vec<String>)>, k: Seq<char>) -> Set<Seq<char>>
    decreases v.len(),
{
    if v.len() == 0 {
        Set::empty()
    } else if v.last().0@ == k {
        entry_set(v.last())
    } else {
        assoc_get(v.drop_last(), k)
    }
}

/// The map an association list (with distinct keys) stands for.
pub open spec fn assoc_map(v: Seq<(String, Vec<String>)>) -> Map<Seq<char>, Set<Seq<char>>> {
    Map::new(|k: Seq<char>| assoc_keys(v).contains(k), |k: Seq<char>| assoc_get(v, k))
}

/// The entry at a position gives the map's value at its key.
proof fn lemma_assoc_at(v: Seq<(String, Vec<String>)>, i: int)
    requires
        0 <= i < v.len(),
        assoc_keys(v).no_duplicates(),
    ensures
        assoc_map(v).dom().contains(v[i].0@),
        assoc_map(v)[v[i].0@] == entry_set(v[i]),
    decreases v.len(),
{
    let k = v[i].0@;
    assert(assoc_keys(v)[i] == k);
    if i < v.len() - 1 {
        let w = v.drop_last();
        assert(assoc_keys(w) =~= assoc_keys(v).drop_last());
        assert(assoc_keys(v)[v.len() - 1] != assoc_keys(v)[i]);
        lemma_assoc_at(w, i);
        assert(w[i] == v[i]);
    }
}

/// A key of the map is the key of some entry.
proof fn lemma_assoc_key(v: Seq<(String, Vec<String>)>, k: Seq<char>) -> (i: int)
    requires
        assoc_map(v).dom().contains(k),
    ensures
        0 <= i < v.len(),
        v[i].0@ == k,
{
    let i = choose|i: int| 0 <= i < assoc_keys(v).len() && assoc_keys(v)[i] == k;
    i
}

/// Replacing the entry at a position, under the same key.
proof fn lemma_assoc_update(v: Seq<(String, Vec<String>)>, i: int, p: (String, Vec<String>))
    requires
        0 <= i < v.len(),
        assoc_keys(v).no_duplicates(),
        p.0@ == v[i].0@,
    ensures
        assoc_keys(v.update(i, p)).no_duplicates(),
        assoc_map(v.update(i, p)) == assoc_map(v).insert(p.0@, entry_set(p)),
{
    let w = v.update(i, p);
    assert(assoc_keys(w) =~= assoc_keys(v));
    lemma_assoc_at(w, i);
    assert forall|k: Seq<char>| #[trigger] assoc_map(w).dom().contains(k) && k != p.0@ implies assoc_map(w)[k]
        == assoc_map(v)[k] by {
        let j = lemma_assoc_key(w, k);
        lemma_assoc_at(w, j);
        lemma_assoc_at(v, j);
    }
    assert(assoc_map(w) =~= assoc_map(v).insert(p.0@, entry_set(p)));
}

/// Appending an entry under a new key.
proof fn lemma_assoc_push(v: Seq<(String, Vec<String>)>, p: (String, Vec<String>))
    requires
        assoc_keys(v).no_duplicates(),
        !assoc_keys(v).contains(p.0@),
    ensures
        assoc_keys(v.push(p)).no_duplicates(),
        assoc_map(v.push(p)) == assoc_map(v).insert(p.0@, entry_set(p)),
{
    let w = v.push(p);
    assert(assoc_keys(w) =~= assoc_keys(v).push(p.0@));
    assert forall|a: int, b: int| 0 <= a < assoc_keys(w).len() && 0 <= b < assoc_keys(w).len() && a != b
        implies assoc_keys(w)[a] != assoc_keys(w)[b] by {
        if a == v.len() {
            assert(assoc_keys(v)[b] == assoc_keys(w)[b]);
        }
        if b == v.len() {
            assert(assoc_keys(v)[a] == assoc_keys(w)[a]);
        }
    }
    lemma_assoc_at(w, v.len() as int);
    assert forall|k: Seq<char>| #[trigger] assoc_map(w).dom().contains(k) && k != p.0@ implies assoc_map(v).dom().contains(k)
        && assoc_map(w)[k] == assoc_map(v)[k] by {
        let j = lemma_assoc_key(w, k);
        assert(j < v.len());
        lemma_assoc_at(w, j);
        lemma_assoc_at(v, j);
    }
    assert forall|k: Seq<char>| #[trigger] assoc_map(v).dom().contains(k) implies assoc_map(w).dom().contains(k) by {
        let j = lemma_assoc_key(v, k);
        lemma_assoc_at(w, j);
    }
    assert(assoc_map(w) =~= assoc_map(v).insert(p.0@, entry_set(p)));
}

/// Removing the entry at a position.
proof fn lemma_assoc_remove(v: Seq<(String, Vec<String>)>, i: int)
    requires
        0 <= i < v.len(),
        assoc_keys(v).no_duplicates(),
    ensures
        assoc_keys(v.remove(i)).no_duplicates(),
        assoc_map(v.remove(i)) == assoc_map(v).remove(v[i].0@),
{
    let w = v.remove(i);
    let k0 = v[i].0@;
    assert(assoc_keys(w) =~= assoc_keys(v).remove(i));
    assert forall|a: int, b: int| 0 <= a < assoc_keys(w).len() && 0 <= b < assoc_keys(w).len() && a != b
        implies assoc_keys(w)[a] != assoc_keys(w)[b] by {
        let a2 = if a < i { a } else { a + 1 };
        let b2 = if b < i { b } else { b + 1 };
        assert(assoc_keys(w)[a] == assoc_keys(v)[a2]);
        assert(assoc_keys(w)[b] == assoc_keys(v)[b2]);
    }
    assert forall|k: Seq<char>| #[trigger] assoc_map(w).dom().contains(k) implies k != k0 && assoc_map(v).dom().contains(k)
        && assoc_map(w)[k] == assoc_map(v)[k] by {
        let j = lemma_assoc_key(w, k);
        let j2 = if j < i { j } else { j + 1 };
        assert(w[j] == v[j2]);
        assert(assoc_keys(v)[j2] != assoc_keys(v)[i]);
        lemma_assoc_at(w, j);
        lemma_assoc_at(v, j2);
    }
    assert forall|k: Seq<char>| #[trigger] assoc_map(v).dom().contains(k) && k != k0 implies assoc_map(w).dom().contains(k) by {
        let j = lemma_assoc_key(v, k);
        assert(j != i);
        let j2 = if j < i { j } else { j - 1 };
        assert(w[j2] == v[j]);
        lemma_assoc_at(w, j2);
    }
    assert(assoc_map(w) =~= assoc_map(v).remove(k0));
}

/// The position of the entry with key `k`, if any.
fn find_key(v: &Vec<(String, Vec<String>)>, k: &str) -> (r: Option<usize>)
    ensures
        match r {
            Some(i) => i < v@.len() && v@[i as int].0@ == k@,
            None => !assoc_keys(v@).contains(k@),
        },
{
    let mut i: usize = 0;
    while i < v.len()
        invariant
            i <= v.len(),
            forall|j: int| 0 <= j < i ==> (#[trigger] v@[j]).0@ != k@,
        decreases v.len() - i,
    {
        if str_eq(v[i].0.as_str(), k) {
            return Some(i);
        }
        i = i + 1;
    }
    proof {
        if assoc_keys(v@).contains(k@) {
            let j = choose|j: int| 0 <= j < assoc_keys(v@).len() && assoc_keys(v@)[j] == k@;
            assert(v@[j].0@ == k@);
        }
    }
    None
}

/// Adds `x` to a string set.
fn insert_value(vals: &mut Vec<String>, x: &str)
    ensures
        views(final(vals)@).to_set() == views(old(vals)@).to_set().insert(x@),
{
    let ghost before = views(vals@);
    proof {
        lemma_has_str_views(vals@, x@);
    }
    if !vec_has_str(vals, x) {
        vals.push(String::from_str(x));
        assert(views(vals@) =~= before.push(x@));
        proof {
            before.lemma_push_to_set_commute(x@);
        }
    } else {
        assert(before.to_set() =~= before.to_set().insert(x@));
    }
}

/// A string set without `x`.
fn remove_value(vals: &Vec<String>, x: &str) -> (r: Vec<String>)
    ensures
        views(r@).to_set() == views(vals@).to_set().remove(x@),
{
    let ghost vs = views(vals@);
    let mut out: Vec<String> = Vec::new();
    let mut i: usize = 0;
    while i < vals.len()
        invariant
            i <= vals.len(),
            vs == views(vals@),
            forall|y: Seq<char>| views(out@).contains(y) <==> (vs.take(i as int).contains(y) && y != x@),
        decreases vals.len() - i,
    {
        let ghost before = views(out@);
        let keep = !str_eq(vals[i].as_str(), x);
        assert(vs[i as int] == vals@[i as int]@);
        if keep {
            out.push(vals[i].clone());
        }
        proof {
            let t0 = vs.take(i as int);
            let t1 = vs.take(i as int + 1);
            assert(t1 =~= t0.push(vs[i as int]));
            if keep {
                assert(views(out@) =~= before.push(vs[i as int]));
            } else {
                assert(views(out@) =~= before);
            }
            assert forall|y: Seq<char>| views(out@).contains(y) implies (t1.contains(y) && y != x@) by {
                let m = choose|m: int| 0 <= m < views(out@).len() && views(out@)[m] == y;
                if m < before.len() {
                    assert(before[m] == y);
                    assert(before.contains(y));
                    let j = choose|j: int| 0 <= j < t0.len() && t0[j] == y;
                    assert(t1[j] == y);
                } else {
                    assert(y == vs[i as int]);
                    assert(t1[i as int] == y);
                }
            }
            assert forall|y: Seq<char>| t1.contains(y) && y != x@ implies views(out@).contains(y) by {
                let j = choose|j: int| 0 <= j < t1.len() && t1[j] == y;
                if j < i {
                    assert(t0[j] == y);
                    assert(t0.contains(y));
                    assert(before.contains(y));
                    let m = choose|m: int| 0 <= m < before.len() && before[m] == y;
                    assert(views(out@)[m] == y);
                } else {
                    assert(y == vs[i as int]);
                    assert(keep);
                    assert(views(out@)[views(out@).len() - 1] == y);
                }
            }
        }
        i = i + 1;
    }
    assert(vs.take(vals.len() as int) =~= vs);
    assert(views(out@).to_set() =~= vs.to_set().remove(x@));
    out
}

// ---------------------------------------------------------------------------
// Tokens of a record
// ---------------------------------------------------------------------------

/// The tokens of an optional text.
pub open spec fn opt_tokens(o: Option<String>) -> Set<Seq<char>> {
    match o {
        Some(s) => tokens_of(s@).to_set(),
        None => Set::empty(),
    }
}

/// The lowercase forms of the tags.
pub open spec fn tag_tokens(tags: Seq<String>) -> Set<Seq<char>> {
    tags.map_values(|t: String| lowercase(t@)).to_set()
}

/// The tokens a record is indexed under: those of its name, qualified
/// name, title and description, and its tags in lowercase.
pub open spec fn record_tokens(r: CallableRecord) -> Set<Seq<char>> {
    tokens_of(r.name@).to_set() + tokens_of(r.fq_name@).to_set() + opt_tokens(r.title) + opt_tokens(
        r.description,
    ) + tag_tokens(r.tags@)
}

/// Adds every string of `items` to the string set `out`.
fn insert_all(out: &mut Vec<String>, items: &Vec<String>)
    ensures
        views(final(out)@).to_set() == views(old(out)@).to_set() + views(items@).to_set(),
{
    let ghost start = views(out@).to_set();
    let ghost iv = views(items@);
    let mut j: usize = 0;
    assert(iv.take(0).to_set() =~= Set::<Seq<char>>::empty());
    assert(start + Set::<Seq<char>>::empty() =~= start);
    while j < items.len()
        invariant
            j <= items.len(),
            iv == views(items@),
            views(out@).to_set() == start + iv.take(j as int).to_set(),
        decreases items.len() - j,
    {
        insert_value(out, items[j].as_str());
        proof {
            assert(iv.take(j as int + 1) =~= iv.take(j as int).push(iv[j as int]));
            iv.take(j as int).lemma_push_to_set_commute(iv[j as int]);
            assert(start + iv.take(j as int + 1).to_set() =~= (start + iv.take(j as int).to_set()).insert(
                iv[j as int],
            ));
        }
        j = j + 1;
    }
    assert(iv.take(items.len() as int) =~= iv);
}

/// Adds the tokens of an optional text to `out`.
fn insert_opt_tokens(out: &mut Vec<String>, o: &Option<String>)
    ensures
        views(final(out)@).to_set() == views(old(out)@).to_set() + opt_tokens(*o),
{
    match o {
        Some(s) => {
            let t = tokenize(s.as_str());
            insert_all(out, &t);
        },
        None => {
            assert(views(out@).to_set() + Set::<Seq<char>>::empty() =~= views(out@).to_set());
        },
    }
}

/// The tokens a record is indexed under, each once.
pub fn tokenize_record(record: &CallableRecord) -> (r: Vec<String>)
    ensures
        views(r@).to_set() == record_tokens(*record),
{
    let mut out: Vec<String> = Vec::new();
    assert(views(out@).to_set() =~= Set::<Seq<char>>::empty());
    let name = tokenize(record.name.as_str());
    insert_all(&mut out, &name);
    let fq = tokenize(record.fq_name.as_str());
    insert_all(&mut out, &fq);
    insert_opt_tokens(&mut out, &record.title);
    insert_opt_tokens(&mut out, &record.description);
    let ghost before_tags = views(out@).to_set();
    let ghost tv = record.tags@.map_values(|t: String| lowercase(t@));
    let mut j: usize = 0;
    assert(tv.take(0).to_set() =~= Set::<Seq<char>>::empty());
    assert(before_tags + Set::<Seq<char>>::empty() =~= before_tags);
    while j < record.tags.len()
        invariant
            j <= record.tags.len(),
            tv == record.tags@.map_values(|t: String| lowercase(t@)),
            views(out@).to_set() == before_tags + tv.take(j as int).to_set(),
        decreases record.tags.len() - j,
    {
        let low = to_lowercase(record.tags[j].as_str());
        insert_value(&mut out, low.as_str());
        proof {
            assert(tv[j as int] == low@);
            assert(tv.take(j as int + 1) =~= tv.take(j as int).push(tv[j as int]));
            tv.take(j as int).lemma_push_to_set_commute(tv[j as int]);
            assert(before_tags + tv.take(j as int + 1).to_set() =~= (before_tags + tv.take(j as int).to_set()).insert(
                tv[j as int],
            ));
        }
        j = j + 1;
    }
    assert(tv.take(record.tags.len() as int) =~= tv);
    assert(views(out@).to_set() =~= record_tokens(*record));
    out
}

// ---------------------------------------------------------------------------
// The index
// ---------------------------------------------------------------------------

/// An inverted index of callables by token.
#[derive(Debug)]
pub struct InMemoryIndex {
    /// Each token with the identifiers of the callables indexed under it.
    tokens: Vec<(String, Vec<String>)>,
    /// Each indexed identifier with its tokens.
    reverse: Vec<(String, Vec<String>)>,
}

/// The model of an index: token to identifiers, identifier to tokens.
pub struct IndexView {
    pub tokens: Map<Seq<char>, Set<Seq<char>>>,
    pub reverse: Map<Seq<char>, Set<Seq<char>>>,
}

impl View for InMemoryIndex {
    type V = IndexView;

    closed spec fn view(&self) -> IndexView {
        IndexView { tokens: assoc_map(self.tokens@), reverse: assoc_map(self.reverse@) }
    }
}

/// The empty index.
pub open spec fn empty_view() -> IndexView {
    IndexView { tokens: Map::empty(), reverse: Map::empty() }
}

/// `m` with `id` added under every token of `ts`.
pub open spec fn with_id(m: Map<Seq<char>, Set<Seq<char>>>, id: Seq<char>, ts: Set<Seq<char>>) -> Map<
    Seq<char>,
    Set<Seq<char>>,
> {
    Map::new(
        |t: Seq<char>| m.dom().contains(t) || ts.contains(t),
        |t: Seq<char>|
            if ts.contains(t) {
                (if m.dom().contains(t) { m[t] } else { Set::empty() }).insert(id)
            } else {
                m[t]
            },
    )
}

/// `m` with `id` taken out from under every token of `ts`.
pub open spec fn without_id(m: Map<Seq<char>, Set<Seq<char>>>, id: Seq<char>, ts: Set<Seq<char>>) -> Map<
    Seq<char>,
    Set<Seq<char>>,
> {
    Map::new(|t: Seq<char>| m.dom().contains(t), |t: Seq<char>| if ts.contains(t) { m[t].remove(id) } else { m[t] })
}

/// The index after indexing `id` under the tokens `ts`: its former tokens
/// are replaced in the reverse map, the token map only grows.
pub open spec fn added(v: IndexView, id: Seq<char>, ts: Set<Seq<char>>) -> IndexView {
    IndexView { tokens: with_id(v.tokens, id, ts), reverse: v.reverse.insert(id, ts) }
}

/// The index after removing `id`: it leaves the reverse map and the tokens
/// it was last indexed under.
pub open spec fn removed(v: IndexView, id: Seq<char>) -> IndexView {
    if v.reverse.dom().contains(id) {
        IndexView { tokens: without_id(v.tokens, id, v.reverse[id]), reverse: v.reverse.remove(id) }
    } else {
        v
    }
}

/// Every identifier is found under each of its tokens.
pub open spec fn consistent(v: IndexView) -> bool {
    forall|id: Seq<char>, t: Seq<char>|
        v.reverse.dom().contains(id) && #[trigger] v.reverse[id].contains(t) ==> v.tokens.dom().contains(t)
            && v.tokens[t].contains(id)
}

proof fn lemma_with_id_empty(m: Map<Seq<char>, Set<Seq<char>>>, id: Seq<char>)
    ensures
        with_id(m, id, Set::empty()) == m,
{
    assert(with_id(m, id, Set::empty()) =~= m);
}

proof fn lemma_with_id_step(m: Map<Seq<char>, Set<Seq<char>>>, id: Seq<char>, ts: Set<Seq<char>>, t: Seq<char>)
    ensures
        with_id(m, id, ts.insert(t)) == with_id(m, id, ts).insert(
            t,
            (if with_id(m, id, ts).dom().contains(t) { with_id(m, id, ts)[t] } else { Set::empty() }).insert(id),
        ),
{
    let a = with_id(m, id, ts.insert(t));
    let b = with_id(m, id, ts);
    let base = if m.dom().contains(t) { m[t] } else { Set::<Seq<char>>::empty() };
    if ts.contains(t) {
        assert(b[t] == base.insert(id));
        assert(base.insert(id).insert(id) =~= base.insert(id));
    } else {
        if m.dom().contains(t) {
            assert(b[t] == m[t]);
        }
    }
    assert(a =~= b.insert(t, (if b.dom().contains(t) { b[t] } else { Set::empty() }).insert(id)));
}

proof fn lemma_without_id_empty(m: Map<Seq<char>, Set<Seq<char>>>, id: Seq<char>)
    ensures
        without_id(m, id, Set::empty()) == m,
{
    assert(without_id(m, id, Set::empty()) =~= m);
}

proof fn lemma_without_id_step(m: Map<Seq<char>, Set<Seq<char>>>, id: Seq<char>, ts: Set<Seq<char>>, t: Seq<char>)
    ensures
        without_id(m, id, ts.insert(t)) == (if without_id(m, id, ts).dom().contains(t) {
            without_id(m, id, ts).insert(t, without_id(m, id, ts)[t].remove(id))
        } else {
            without_id(m, id, ts)
        }),
{
    let a = without_id(m, id, ts.insert(t));
    let b = without_id(m, id, ts);
    if m.dom().contains(t) {
        if ts.contains(t) {
            assert(m[t].remove(id).remove(id) =~= m[t].remove(id));
        }
        assert(a =~= b.insert(t, b[t].remove(id)));
    } else {
        assert(a =~= b);
    }
}

/// Adds `id` under the token `t`.
fn add_token(tokens: &mut Vec<(String, Vec<String>)>, t: &str, id: &str)
    requires
        assoc_keys(old(tokens)@).no_duplicates(),
    ensures
        assoc_keys(final(tokens)@).no_duplicates(),
        assoc_map(final(tokens)@) == assoc_map(old(tokens)@).insert(
            t@,
            (if assoc_map(old(tokens)@).dom().contains(t@) {
                assoc_map(old(tokens)@)[t@]
            } else {
                Set::empty()
            }).insert(id@),
        ),
{
    let ghost v = tokens@;
    match find_key(tokens, t) {
        Some(i) => {
            proof {
                lemma_assoc_at(v, i as int);
            }
            let (k, mut vals) = tokens.remove(i);
            insert_value(&mut vals, id);
            let ghost p = (k, vals);
            tokens.insert(i, (k, vals));
            proof {
                assert(tokens@ =~= v.update(i as int, p));
                lemma_assoc_update(v, i as int, p);
            }
        },
        None => {
            let mut vals: Vec<String> = Vec::new();
            vals.push(String::from_str(id));
            let p = (String::from_str(t), vals);
            proof {
                assert(views(p.1@) =~= seq![id@]);
                assert(views(p.1@)[0] == id@);
                assert forall|y: Seq<char>| entry_set(p).contains(y) <==> y == id@ by {
                    if entry_set(p).contains(y) {
                        let k = choose|k: int| 0 <= k < views(p.1@).len() && views(p.1@)[k] == y;
                        assert(k == 0);
                    }
                }
                assert(entry_set(p) =~= Set::<Seq<char>>::empty().insert(id@));
                lemma_assoc_push(v, p);
            }
            tokens.push(p);
        },
    }
}

/// Takes `id` out from under the token `t`, if `t` is there.
fn remove_token_id(tokens: &mut Vec<(String, Vec<String>)>, t: &str, id: &str)
    requires
        assoc_keys(old(tokens)@).no_duplicates(),
    ensures
        assoc_keys(final(tokens)@).no_duplicates(),
        assoc_map(final(tokens)@) == (if assoc_map(old(tokens)@).dom().contains(t@) {
            assoc_map(old(tokens)@).insert(t@, assoc_map(old(tokens)@)[t@].remove(id@))
        } else {
            assoc_map(old(tokens)@)
        }),
{
    let ghost v = tokens@;
    match find_key(tokens, t) {
        Some(i) => {
            proof {
                lemma_assoc_at(v, i as int);
            }
            let (k, vals) = tokens.remove(i);
            let rest = remove_value(&vals, id);
            let ghost p = (k, rest);
            tokens.insert(i, (k, rest));
            proof {
                assert(tokens@ =~= v.update(i as int, p));
                lemma_assoc_update(v, i as int, p);
            }
        },
        None => {
            assert(!assoc_map(v).dom().contains(t@));
        },
    }
}

/// Associates `ts` with `id`, replacing what was associated with it.
fn set_entry(rev: &mut Vec<(String, Vec<String>)>, id: &str, ts: Vec<String>)
    requires
        assoc_keys(old(rev)@).no_duplicates(),
    ensures
        assoc_keys(final(rev)@).no_duplicates(),
        assoc_map(final(rev)@) == assoc_map(old(rev)@).insert(id@, views(ts@).to_set()),
{
    let ghost v = rev@;
    let p = (String::from_str(id), ts);
    match find_key(rev, id) {
        Some(i) => {
            let _old_entry = rev.remove(i);
            let ghost q = p;
            rev.insert(i, p);
            proof {
                assert(rev@ =~= v.update(i as int, q));
                lemma_assoc_update(v, i as int, q);
            }
        },
        None => {
            proof {
                lemma_assoc_push(v, p);
            }
            rev.push(p);
        },
    }
}

impl InMemoryIndex {
    /// Both association lists have distinct keys.
    pub closed spec fn wf(&self) -> bool {
        &&& assoc_keys(self.tokens@).no_duplicates()
        &&& assoc_keys(self.reverse@).no_duplicates()
    }

    /// An empty index.
    pub fn new() -> (r: InMemoryIndex)
        ensures
            r.wf(),
            r@ == empty_view(),
    {
        let r = InMemoryIndex { tokens: Vec::new(), reverse: Vec::new() };
        assert(assoc_map(r.tokens@) =~= Map::<Seq<char>, Set<Seq<char>>>::empty());
        assert(assoc_map(r.reverse@) =~= Map::<Seq<char>, Set<Seq<char>>>::empty());
        r
    }

    /// Indexes a record under its tokens.
    pub fn add_record(&mut self, record: &CallableRecord)
        requires
            old(self).wf(),
        ensures
            final(self).wf(),
            final(self)@ == added(old(self)@, record.id@, record_tokens(*record)),
    {
        let ghost m0 = assoc_map(self.tokens@);
        let id = record.id.as_str();
        let toks = tokenize_record(record);
        let ghost tv = views(toks@);
        let mut j: usize = 0;
        proof {
            lemma_with_id_empty(m0, id@);
            assert(tv.take(0).to_set() =~= Set::<Seq<char>>::empty());
        }
        while j < toks.len()
            invariant
                j <= toks.len(),
                tv == views(toks@),
                assoc_keys(self.tokens@).no_duplicates(),
                assoc_keys(self.reverse@).no_duplicates(),
                assoc_map(self.reverse@) == old(self)@.reverse,
                m0 == old(self)@.tokens,
                assoc_map(self.tokens@) == with_id(m0, id@, tv.take(j as int).to_set()),
            decreases toks.len() - j,
        {
            add_token(&mut self.tokens, toks[j].as_str(), id);
            proof {
                assert(tv.take(j as int + 1) =~= tv.take(j as int).push(tv[j as int]));
                tv.take(j as int).lemma_push_to_set_commute(tv[j as int]);
                lemma_with_id_step(m0, id@, tv.take(j as int).to_set(), tv[j as int]);
            }
            j = j + 1;
        }
        assert(tv.take(toks.len() as int) =~= tv);
        set_entry(&mut self.reverse, id, toks);
    }

    /// Removes a callable from the index: from the reverse map and from
    /// under the tokens it was indexed under.
    pub fn remove_record(&mut self, id: &CallableId)
        requires
            old(self).wf(),
        ensures
            final(self).wf(),
            final(self)@ == removed(old(self)@, id@),
    {
        let ghost v = self.reverse@;
        let ghost m0 = assoc_map(self.tokens@);
        match find_key(&self.reverse, id.as_str()) {
            Some(i) => {
                proof {
                    lemma_assoc_at(v, i as int);
                    lemma_assoc_remove(v, i as int);
                }
                let (_k, toks) = self.reverse.remove(i);
                let ghost tv = views(toks@);
                assert(tv.to_set() == old(self)@.reverse[id@]);
                let mut j: usize = 0;
                proof {
                    lemma_without_id_empty(m0, id@);
                    assert(tv.take(0).to_set() =~= Set::<Seq<char>>::empty());
                }
                while j < toks.len()
                    invariant
                        j <= toks.len(),
                        tv == views(toks@),
                        assoc_keys(self.tokens@).no_duplicates(),
                        assoc_keys(self.reverse@).no_duplicates(),
                        m0 == old(self)@.tokens,
                        old(self)@.reverse.dom().contains(id@),
                        tv.to_set() == old(self)@.reverse[id@],
                        assoc_map(self.reverse@) == old(self)@.reverse.remove(id@),
                        assoc_map(self.tokens@) == without_id(m0, id@, tv.take(j as int).to_set()),
                    decreases toks.len() - j,
                {
                    remove_token_id(&mut self.tokens, toks[j].as_str(), id.as_str());
                    proof {
                        assert(tv.take(j as int + 1) =~= tv.take(j as int).push(tv[j as int]));
                        tv.take(j as int).lemma_push_to_set_commute(tv[j as int]);
                        lemma_without_id_step(m0, id@, tv.take(j as int).to_set(), tv[j as int]);
                    }
                    j = j + 1;
                }
                assert(tv.take(toks.len() as int) =~= tv);
            },
            None => {
                assert(!assoc_map(v).dom().contains(id@));
            },
        }
    }

    /// Empties the index.
    pub fn clear(&mut self)
        ensures
            final(self).wf(),
            final(self)@ == empty_view(),
    {
        self.tokens = Vec::new();
        self.reverse = Vec::new();
        assert(assoc_map(self.tokens@) =~= Map::<Seq<char>, Set<Seq<char>>>::empty());
        assert(assoc_map(self.reverse@) =~= Map::<Seq<char>, Set<Seq<char>>>::empty());
    }

    /// The number of indexed callables.
    pub fn len(&self) -> (r: usize)
        requires
            self.wf(),
        ensures
            r == self@.reverse.dom().len(),
            self@.reverse.dom().finite(),
    {
        proof {
            let ks = assoc_keys(self.reverse@);
            assert(self@.reverse.dom() =~= ks.to_set());
            ks.unique_seq_to_set();
        }
        self.reverse.len()
    }
}

// ---------------------------------------------------------------------------
// Laws of the index
// ---------------------------------------------------------------------------

/// Indexing a callable keeps every identifier findable under its tokens.
pub proof fn law_add_keeps_consistent(v: IndexView, id: Seq<char>, ts: Set<Seq<char>>)
    requires
        consistent(v),
    ensures
        consistent(added(v, id, ts)),
{
    let a = added(v, id, ts);
    assert forall|x: Seq<char>, t: Seq<char>|
        a.reverse.dom().contains(x) && #[trigger] a.reverse[x].contains(t) implies a.tokens.dom().contains(t)
        && a.tokens[t].contains(x) by {
        if x != id {
            assert(v.reverse[x].contains(t));
            assert(v.tokens[t].contains(x));
        }
    }
}

/// Removing a callable keeps every other identifier findable under its
/// tokens.
pub proof fn law_remove_keeps_consistent(v: IndexView, id: Seq<char>)
    requires
        consistent(v),
    ensures
        consistent(removed(v, id)),
{
    let r = removed(v, id);
    assert forall|x: Seq<char>, t: Seq<char>|
        r.reverse.dom().contains(x) && #[trigger] r.reverse[x].contains(t) implies r.tokens.dom().contains(t)
        && r.tokens[t].contains(x) by {
        assert(v.reverse[x].contains(t));
        assert(v.tokens[t].contains(x));
    }
}

/// Removing a callable just indexed takes it out of the reverse map and
/// from under every token it was indexed under.
pub proof fn law_remove_after_add(v: IndexView, id: Seq<char>, ts: Set<Seq<char>>)
    ensures
        removed(added(v, id, ts), id).reverse == v.reverse.remove(id),
        forall|t: Seq<char>| #[trigger] ts.contains(t) ==> removed(added(v, id, ts), id).tokens.dom().contains(t)
            && !removed(added(v, id, ts), id).tokens[t].contains(id),
{
    assert(v.reverse.insert(id, ts).remove(id) =~= v.reverse.remove(id));
}

/// The empty index is consistent.
pub proof fn law_empty_consistent()
    ensures
        consistent(empty_view()),
{
}

// ---------------------------------------------------------------------------
// The search engine
// ---------------------------------------------------------------------------

/// The index of a list of records, indexed in order.
pub open spec fn indexed(records: Seq<CallableRecord>) -> IndexView
    decreases records.len(),
{
    if records.len() == 0 {
        empty_view()
    } else {
        added(indexed(records.drop_last()), records.last().id@, record_tokens(records.last()))
    }
}

/// The search engine: the token index of the registered callables, and
/// search over them.
#[derive(Debug)]
pub struct SearchEngine {
    index: InMemoryIndex,
}

impl View for SearchEngine {
    type V = IndexView;

    closed spec fn view(&self) -> IndexView {
        self.index@
    }
}

impl SearchEngine {
    /// The engine's index is well formed.
    pub closed spec fn wf(&self) -> bool {
        self.index.wf()
    }

    /// An engine with an empty index.
    pub fn new() -> (r: SearchEngine)
        ensures
            r.wf(),
            r@ == empty_view(),
    {
        SearchEngine { index: InMemoryIndex::new() }
    }

    /// Rebuilds the index from all registered records.
    pub fn rebuild(&mut self, records: &Vec<CallableRecord>)
        requires
            old(self).wf(),
        ensures
            final(self).wf(),
            final(self)@ == indexed(records@),
    {
        self.index.clear();
        let mut i: usize = 0;
        while i < records.len()
            invariant
                i <= records.len(),
                self.index.wf(),
                self.index@ == indexed(records@.take(i as int)),
            decreases records.len() - i,
        {
            self.index.add_record(&records[i]);
            proof {
                let t = records@.take(i as int + 1);
                assert(t.drop_last() =~= records@.take(i as int));
                assert(t.last() == records@[i as int]);
            }
            i = i + 1;
        }
        assert(records@.take(records.len() as int) =~= records@);
    }

    /// Indexes one record anew.
    pub fn update_record(&mut self, record: &CallableRecord)
        requires
            old(self).wf(),
        ensures
            final(self).wf(),
            final(self)@ == added(old(self)@, record.id@, record_tokens(*record)),
    {
        self.index.add_record(record);
    }

    /// Removes one record from the index.
    pub fn remove_record(&mut self, id: &CallableId)
        requires
            old(self).wf(),
        ensures
            final(self).wf(),
            final(self)@ == removed(old(self)@, id@),
    {
        self.index.remove_record(id);
    }

    /// The number of indexed records.
    pub fn len(&self) -> (r: usize)
        requires
            self.wf(),
        ensures
            r == self@.reverse.dom().len(),
    {
        self.index.len()
    }

    /// Searches the registered records (`all`, in registry order).
    pub fn search(&self, query: &SearchQuery, all: Vec<CallableRecord>) -> (r: Result<SearchResults, IndexError>)
        requires
            page_digests_ok(*query, all@),
        ensures
            search_answer(*query, all@, r),
    {
        search_records(query, all)
    }
}

/// A rebuilt index finds every record under each of its tokens.
pub proof fn law_indexed_consistent(records: Seq<CallableRecord>)
    ensures
        consistent(indexed(records)),
    decreases records.len(),
{
    if records.len() > 0 {
        law_indexed_consistent(records.drop_last());
        law_add_keeps_consistent(indexed(records.drop_last()), records.last().id@, record_tokens(records.last()));
    }
}

} // verus!
