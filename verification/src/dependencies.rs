//! Circular dependencies between skills: a depth-first walk over the skills
//! each skill uses, which reports a cycle when it reaches a skill that is
//! on its current path.  Reading the skills (what each one uses) is the
//! caller's.
use vstd::prelude::*;
use crate::text::{str_eq, views, copy_strings, vec_has_str, lemma_has_str_views};

verus! {

/// The model of a dependency list: each skill with the skills it uses.
pub open spec fn graph_view(g: Seq<(String, Vec<String>)>) -> Seq<(Seq<char>, Seq<Seq<char>>)> {
    g.map_values(|p: (String, Vec<String>)| (p.0@, views(p.1@)))
}

/// The skills `id` uses: those of its first entry; none without one.
pub open spec fn deps_of(graph: Seq<(Seq<char>, Seq<Seq<char>>)>, id: Seq<char>) -> Seq<Seq<char>>
    decreases graph.len(),
{
    if graph.len() == 0 {
        Seq::empty()
    } else if graph[0].0 == id {
        graph[0].1
    } else {
        deps_of(graph.drop_first(), id)
    }
}

/// The first position of `x` in `s`; -1 if `x` is not there.
pub open spec fn first_index(s: Seq<Seq<char>>, x: Seq<char>) -> int
    decreases s.len(),
{
    if s.len() == 0 {
        -1
    } else if s[0] == x {
        0
    } else {
        let r = first_index(s.drop_first(), x);
        if r < 0 { -1 } else { r + 1 }
    }
}

/// The depth-first search from `x`, given the current path and the skills
/// already fully explored (`done`): the cycle found (empty if none) and
/// the explored skills afterwards.  A skill on the current path closes a
/// cycle, made of the path from that skill on; an explored skill is not
/// searched again; otherwise the skills it uses are searched, the last
/// listed first.  `fuel` bounds the depth.
pub open spec fn dfs(
    graph: Seq<(Seq<char>, Seq<Seq<char>>)>,
    x: Seq<char>,
    path: Seq<Seq<char>>,
    done: Seq<Seq<char>>,
    fuel: nat,
) -> (Seq<Seq<char>>, Seq<Seq<char>>)
    decreases fuel, 1nat, 0nat,
{
    if first_index(path, x) >= 0 {
        (path.skip(first_index(path, x)), done)
    } else if done.contains(x) {
        (Seq::empty(), done)
    } else {
        let r = dfs_list(graph, deps_of(graph, x), path.push(x), done, fuel);
        if r.0.len() > 0 {
            r
        } else {
            (Seq::empty(), r.1.push(x))
        }
    }
}

/// The depth-first search over the skills `ds`, the last first, stopping at
/// the first cycle found.
pub open spec fn dfs_list(
    graph: Seq<(Seq<char>, Seq<Seq<char>>)>,
    ds: Seq<Seq<char>>,
    path: Seq<Seq<char>>,
    done: Seq<Seq<char>>,
    fuel: nat,
) -> (Seq<Seq<char>>, Seq<Seq<char>>)
    decreases fuel, 0nat, ds.len(),
{
    if ds.len() == 0 || fuel == 0 {
        (Seq::empty(), done)
    } else {
        let r = dfs(graph, ds.last(), path, done, (fuel - 1) as nat);
        if r.0.len() > 0 {
            r
        } else {
            dfs_list(graph, ds.drop_last(), path, r.1, fuel)
        }
    }
}

/// What the search from `skill_id` reports: the skills of a cycle, or
/// none.  A path that uses no skill twice has at most one skill per entry,
/// so the number of entries bounds the depth.
pub open spec fn circular_dependencies(graph: Seq<(Seq<char>, Seq<Seq<char>>)>, skill_id: Seq<char>) -> Seq<Seq<char>> {
    dfs(graph, skill_id, Seq::empty(), Seq::empty(), graph.len()).0
}

/// Whether each skill of `p` uses the next one.
pub open spec fn is_chain(graph: Seq<(Seq<char>, Seq<Seq<char>>)>, p: Seq<Seq<char>>) -> bool {
    forall|i: int| 0 <= i < p.len() - 1 ==> deps_of(graph, #[trigger] p[i]).contains(p[i + 1])
}

/// Whether `c` is a cycle: each skill uses the next, and the last the
/// first.
pub open spec fn is_cycle(graph: Seq<(Seq<char>, Seq<Seq<char>>)>, c: Seq<Seq<char>>) -> bool {
    &&& c.len() > 0
    &&& is_chain(graph, c)
    &&& deps_of(graph, c.last()).contains(c[0])
}

/// Whether a chain of uses leads from `a` to `b` (a skill reaches itself).
pub open spec fn reaches(graph: Seq<(Seq<char>, Seq<Seq<char>>)>, a: Seq<char>, b: Seq<char>) -> bool {
    exists|w: Seq<Seq<char>>| w.len() > 0 && w[0] == a && w.last() == b && #[trigger] is_chain(graph, w)
}

/// Whether some cycle can be reached from `skill_id`.
pub open spec fn cycle_reachable(graph: Seq<(Seq<char>, Seq<Seq<char>>)>, skill_id: Seq<char>) -> bool {
    exists|c: Seq<Seq<char>>| #[trigger] is_cycle(graph, c) && reaches(graph, skill_id, c[0])
}

proof fn lemma_first_index(s: Seq<Seq<char>>, x: Seq<char>, i: int)
    requires
        0 <= i <= s.len(),
        forall|j: int| 0 <= j < i ==> s[j] != x,
    ensures
        i < s.len() && s[i] == x ==> first_index(s, x) == i,
        i == s.len() ==> first_index(s, x) == -1,
    decreases i,
{
    if i > 0 {
        lemma_first_index(s.drop_first(), x, i - 1);
    } else if s.len() > 0 {
    }
}

proof fn lemma_first_index_absent(s: Seq<Seq<char>>, x: Seq<char>)
    requires
        first_index(s, x) == -1,
    ensures
        !s.contains(x),
    decreases s.len(),
{
    if s.len() > 0 {
        lemma_first_index_absent(s.drop_first(), x);
        if s.contains(x) {
            let k = choose|k: int| 0 <= k < s.len() && s[k] == x;
            assert(s.drop_first()[k - 1] == x);
        }
    }
}

proof fn lemma_first_index_found(s: Seq<Seq<char>>, x: Seq<char>)
    requires
        first_index(s, x) >= 0,
    ensures
        first_index(s, x) < s.len(),
        s[first_index(s, x)] == x,
    decreases s.len(),
{
    if s.len() > 0 && s[0] != x {
        lemma_first_index_found(s.drop_first(), x);
    }
}

proof fn lemma_dfs_sound(
    graph: Seq<(Seq<char>, Seq<Seq<char>>)>,
    root: Seq<char>,
    x: Seq<char>,
    path: Seq<Seq<char>>,
    done: Seq<Seq<char>>,
    fuel: nat,
)
    requires
        is_chain(graph, path),
        path.len() > 0 ==> deps_of(graph, path.last()).contains(x),
        path.len() > 0 ==> path[0] == root,
        path.len() == 0 ==> x == root,
    ensures
        dfs(graph, x, path, done, fuel).0.len() > 0 ==> is_cycle(graph, dfs(graph, x, path, done, fuel).0),
        dfs(graph, x, path, done, fuel).0.len() > 0 ==> reaches(graph, root, dfs(graph, x, path, done, fuel).0[0]),
    decreases fuel, 1nat, 0nat,
{
    if first_index(path, x) >= 0 {
        lemma_first_index_found(path, x);
        let i = first_index(path, x);
        let c = path.skip(i);
        assert forall|k: int| 0 <= k < c.len() - 1 implies deps_of(graph, #[trigger] c[k]).contains(c[k + 1]) by {
            assert(c[k] == path[i + k] && c[k + 1] == path[i + k + 1]);
        }
        assert(c.last() == path.last());
        assert(c[0] == x);
        let w = path.take(i + 1);
        assert forall|k: int| 0 <= k < w.len() - 1 implies deps_of(graph, #[trigger] w[k]).contains(w[k + 1]) by {
            assert(w[k] == path[k] && w[k + 1] == path[k + 1]);
        }
        assert(is_chain(graph, w));
        assert(w[0] == root && w.last() == x);
    } else if done.contains(x) {
    } else {
        let p2 = path.push(x);
        assert forall|k: int| 0 <= k < p2.len() - 1 implies deps_of(graph, #[trigger] p2[k]).contains(p2[k + 1]) by {
            if k < path.len() - 1 {
                assert(p2[k] == path[k] && p2[k + 1] == path[k + 1]);
            } else {
                assert(p2[k] == path.last());
            }
        }
        assert(p2[0] == root);
        lemma_list_sound(graph, root, deps_of(graph, x), p2, done, fuel);
    }
}

proof fn lemma_list_sound(
    graph: Seq<(Seq<char>, Seq<Seq<char>>)>,
    root: Seq<char>,
    ds: Seq<Seq<char>>,
    path: Seq<Seq<char>>,
    done: Seq<Seq<char>>,
    fuel: nat,
)
    requires
        is_chain(graph, path),
        path.len() > 0,
        path[0] == root,
        forall|k: int| 0 <= k < ds.len() ==> deps_of(graph, path.last()).contains(#[trigger] ds[k]),
    ensures
        dfs_list(graph, ds, path, done, fuel).0.len() > 0 ==> is_cycle(graph, dfs_list(graph, ds, path, done, fuel).0),
        dfs_list(graph, ds, path, done, fuel).0.len() > 0 ==> reaches(graph, root, dfs_list(graph, ds, path, done, fuel).0[0]),
    decreases fuel, 0nat, ds.len(),
{
    if ds.len() == 0 || fuel == 0 {
    } else {
        assert(deps_of(graph, path.last()).contains(ds[ds.len() - 1]));
        lemma_dfs_sound(graph, root, ds.last(), path, done, (fuel - 1) as nat);
        let r = dfs(graph, ds.last(), path, done, (fuel - 1) as nat);
        assert forall|k: int| 0 <= k < ds.drop_last().len() implies deps_of(graph, path.last()).contains(
            #[trigger] ds.drop_last()[k],
        ) by {
            assert(ds.drop_last()[k] == ds[k]);
        }
        lemma_list_sound(graph, root, ds.drop_last(), path, r.1, fuel);
    }
}

/// Whatever the search reports is a real cycle: each of its skills uses
/// the next, and the last uses the first.
pub proof fn law_reported_cycle_is_real(graph: Seq<(Seq<char>, Seq<Seq<char>>)>, skill_id: Seq<char>)
    ensures
        circular_dependencies(graph, skill_id).len() > 0 ==> is_cycle(graph, circular_dependencies(graph, skill_id)),
{
    lemma_dfs_sound(graph, skill_id, skill_id, Seq::empty(), Seq::empty(), graph.len());
}

/// Whether each explored skill comes after all the skills it uses.
spec fn uses_explored_first(graph: Seq<(Seq<char>, Seq<Seq<char>>)>, done: Seq<Seq<char>>) -> bool {
    forall|k: int, d: Seq<char>|
        0 <= k < done.len() && #[trigger] deps_of(graph, done[k]).contains(d) ==> done.take(k).contains(d)
}

/// Whether `b` starts with `a`.
spec fn extends(a: Seq<Seq<char>>, b: Seq<Seq<char>>) -> bool {
    a.len() <= b.len() && forall|i: int| 0 <= i < a.len() ==> b[i] == a[i]
}

/// The skills that have an entry.
spec fn entry_names(graph: Seq<(Seq<char>, Seq<Seq<char>>)>) -> Seq<Seq<char>> {
    graph.map_values(|e: (Seq<char>, Seq<Seq<char>>)| e.0)
}

proof fn lemma_deps_have_entry(graph: Seq<(Seq<char>, Seq<Seq<char>>)>, id: Seq<char>)
    requires
        deps_of(graph, id).len() > 0,
    ensures
        entry_names(graph).contains(id),
    decreases graph.len(),
{
    if graph[0].0 == id {
        assert(entry_names(graph)[0] == id);
    } else {
        lemma_deps_have_entry(graph.drop_first(), id);
        let k = choose|k: int| 0 <= k < entry_names(graph.drop_first()).len() && entry_names(graph.drop_first())[k] == id;
        assert(entry_names(graph)[k + 1] == graph.drop_first()[k].0);
    }
}

/// Distinct skills that each use some skill are at most as many as the
/// entries.
proof fn lemma_using_skills_fit(graph: Seq<(Seq<char>, Seq<Seq<char>>)>, p: Seq<Seq<char>>)
    requires
        p.no_duplicates(),
        forall|i: int| 0 <= i < p.len() ==> deps_of(graph, #[trigger] p[i]).len() > 0,
    ensures
        p.len() <= graph.len(),
{
    let names = entry_names(graph);
    assert forall|x: Seq<char>| p.to_set().contains(x) implies names.to_set().contains(x) by {
        let i = choose|i: int| 0 <= i < p.len() && p[i] == x;
        lemma_deps_have_entry(graph, p[i]);
    }
    p.unique_seq_to_set();
    names.lemma_cardinality_of_set();
    vstd::seq_lib::seq_to_set_is_finite(names);
    vstd::set_lib::lemma_len_subset(p.to_set(), names.to_set());
}

proof fn lemma_first_index_at_most(s: Seq<Seq<char>>, x: Seq<char>, m: int)
    requires
        0 <= m < s.len(),
        s[m] == x,
    ensures
        0 <= first_index(s, x) <= m,
    decreases m,
{
    if s[0] != x {
        lemma_first_index_at_most(s.drop_first(), x, m - 1);
    }
}

/// In an explored list where each skill comes after what it uses, a skill
/// used by an explored one is explored, and first appears earlier.
proof fn lemma_used_explored_earlier(
    graph: Seq<(Seq<char>, Seq<Seq<char>>)>,
    done: Seq<Seq<char>>,
    y: Seq<char>,
    z: Seq<char>,
)
    requires
        uses_explored_first(graph, done),
        done.contains(y),
        deps_of(graph, y).contains(z),
    ensures
        done.contains(z),
        0 <= first_index(done, z) < first_index(done, y),
{
    let k0 = choose|k: int| 0 <= k < done.len() && done[k] == y;
    lemma_first_index_at_most(done, y, k0);
    lemma_first_index_found(done, y);
    let k = first_index(done, y);
    assert(deps_of(graph, done[k]).contains(z));
    let m = choose|m: int| 0 <= m < done.take(k).len() && done.take(k)[m] == z;
    assert(done[m] == z);
    lemma_first_index_at_most(done, z, m);
}

proof fn lemma_chain_explored(
    graph: Seq<(Seq<char>, Seq<Seq<char>>)>,
    done: Seq<Seq<char>>,
    w: Seq<Seq<char>>,
    i: int,
)
    requires
        uses_explored_first(graph, done),
        is_chain(graph, w),
        0 <= i < w.len(),
        done.contains(w[0]),
    ensures
        done.contains(w[i]),
    decreases i,
{
    if i > 0 {
        lemma_chain_explored(graph, done, w, i - 1);
        assert(deps_of(graph, w[i - 1]).contains(w[i]));
        lemma_used_explored_earlier(graph, done, w[i - 1], w[i]);
    }
}

proof fn lemma_cycle_positions_drop(
    graph: Seq<(Seq<char>, Seq<Seq<char>>)>,
    done: Seq<Seq<char>>,
    c: Seq<Seq<char>>,
    i: int,
)
    requires
        uses_explored_first(graph, done),
        is_cycle(graph, c),
        done.contains(c[0]),
        0 <= i < c.len(),
    ensures
        done.contains(c[i]),
        first_index(done, c[i]) <= first_index(done, c[0]) - i,
    decreases i,
{
    if i > 0 {
        lemma_cycle_positions_drop(graph, done, c, i - 1);
        assert(deps_of(graph, c[i - 1]).contains(c[i]));
        lemma_used_explored_earlier(graph, done, c[i - 1], c[i]);
    }
}

/// No cycle lies among skills explored each after what it uses.
proof fn lemma_no_explored_cycle(graph: Seq<(Seq<char>, Seq<Seq<char>>)>, done: Seq<Seq<char>>, c: Seq<Seq<char>>)
    requires
        uses_explored_first(graph, done),
        is_cycle(graph, c),
    ensures
        !done.contains(c[0]),
{
    if done.contains(c[0]) {
        let l = c.len() - 1;
        lemma_cycle_positions_drop(graph, done, c, l);
        lemma_used_explored_earlier(graph, done, c[l], c[0]);
    }
}

proof fn lemma_dfs_complete(
    graph: Seq<(Seq<char>, Seq<Seq<char>>)>,
    x: Seq<char>,
    path: Seq<Seq<char>>,
    done: Seq<Seq<char>>,
    fuel: nat,
)
    requires
        uses_explored_first(graph, done),
        path.no_duplicates(),
        forall|i: int| 0 <= i < path.len() ==> deps_of(graph, #[trigger] path[i]).len() > 0,
        fuel + path.len() == graph.len(),
    ensures
        dfs(graph, x, path, done, fuel).0.len() == 0 ==> {
            let d2 = dfs(graph, x, path, done, fuel).1;
            &&& uses_explored_first(graph, d2)
            &&& extends(done, d2)
            &&& d2.contains(x)
        },
    decreases fuel, 1nat, 0nat,
{
    if first_index(path, x) >= 0 {
        lemma_first_index_found(path, x);
    } else if done.contains(x) {
    } else {
        lemma_first_index_absent(path, x);
        let p2 = path.push(x);
        assert forall|i: int, j: int| 0 <= i < p2.len() && 0 <= j < p2.len() && i != j implies p2[i] != p2[j] by {
            if i < path.len() && j < path.len() {
                assert(p2[i] == path[i] && p2[j] == path[j]);
            } else if i < path.len() {
                assert(p2[i] == path[i]);
            } else {
                assert(p2[j] == path[j]);
            }
        }
        assert forall|i: int| 0 <= i < p2.len() - 1 implies deps_of(graph, #[trigger] p2[i]).len() > 0 by {
            assert(p2[i] == path[i]);
        }
        lemma_list_complete(graph, deps_of(graph, x), p2, done, fuel);
        let r = dfs_list(graph, deps_of(graph, x), p2, done, fuel);
        if r.0.len() == 0 {
            let d2 = r.1.push(x);
            assert forall|k: int, d: Seq<char>|
                0 <= k < d2.len() && #[trigger] deps_of(graph, d2[k]).contains(d) implies d2.take(k).contains(d) by {
                if k < r.1.len() {
                    assert(d2[k] == r.1[k]);
                    assert(d2.take(k) =~= r.1.take(k));
                    assert(deps_of(graph, r.1[k]).contains(d));
                } else {
                    assert(d2[k] == x);
                    assert(d2.take(k) =~= r.1);
                    let j = choose|j: int| 0 <= j < deps_of(graph, x).len() && deps_of(graph, x)[j] == d;
                    assert(r.1.contains(deps_of(graph, x)[j]));
                }
            }
            assert(d2[r.1.len() as int] == x);
        }
    }
}

proof fn lemma_list_complete(
    graph: Seq<(Seq<char>, Seq<Seq<char>>)>,
    ds: Seq<Seq<char>>,
    path: Seq<Seq<char>>,
    done: Seq<Seq<char>>,
    fuel: nat,
)
    requires
        uses_explored_first(graph, done),
        path.no_duplicates(),
        path.len() > 0,
        forall|i: int| 0 <= i < path.len() - 1 ==> deps_of(graph, #[trigger] path[i]).len() > 0,
        ds.len() > 0 ==> deps_of(graph, path.last()).len() > 0,
        fuel + path.len() == graph.len() + 1,
    ensures
        dfs_list(graph, ds, path, done, fuel).0.len() == 0 ==> {
            let d2 = dfs_list(graph, ds, path, done, fuel).1;
            &&& uses_explored_first(graph, d2)
            &&& extends(done, d2)
            &&& forall|k: int| 0 <= k < ds.len() ==> d2.contains(#[trigger] ds[k])
        },
    decreases fuel, 0nat, ds.len(),
{
    if ds.len() == 0 {
    } else {
        assert forall|i: int| 0 <= i < path.len() implies deps_of(graph, #[trigger] path[i]).len() > 0 by {
            if i == path.len() - 1 {
                assert(path[i] == path.last());
            }
        }
        if fuel == 0 {
            lemma_using_skills_fit(graph, path);
        } else {
            lemma_dfs_complete(graph, ds.last(), path, done, (fuel - 1) as nat);
            let r1 = dfs(graph, ds.last(), path, done, (fuel - 1) as nat);
            if r1.0.len() == 0 {
                lemma_list_complete(graph, ds.drop_last(), path, r1.1, fuel);
                let r2 = dfs_list(graph, ds.drop_last(), path, r1.1, fuel);
                if r2.0.len() == 0 {
                    assert forall|k: int| 0 <= k < ds.len() implies r2.1.contains(#[trigger] ds[k]) by {
                        if k < ds.len() - 1 {
                            assert(ds.drop_last()[k] == ds[k]);
                        } else {
                            let m = choose|m: int| 0 <= m < r1.1.len() && r1.1[m] == ds.last();
                            assert(r2.1[m] == r1.1[m]);
                        }
                    }
                }
            }
        }
    }
}

/// A cycle that can be reached from the skill is reported: when a chain
/// of uses leads from the skill to a skill on a cycle, the search finds a
/// cycle.
pub proof fn law_reachable_cycle_is_reported(
    graph: Seq<(Seq<char>, Seq<Seq<char>>)>,
    skill_id: Seq<char>,
    walk: Seq<Seq<char>>,
    cycle: Seq<Seq<char>>,
)
    requires
        walk.len() > 0,
        walk[0] == skill_id,
        is_chain(graph, walk),
        is_cycle(graph, cycle),
        walk.last() == cycle[0],
    ensures
        circular_dependencies(graph, skill_id).len() > 0,
{
    lemma_dfs_complete(graph, skill_id, Seq::empty(), Seq::empty(), graph.len());
    let r = dfs(graph, skill_id, Seq::empty(), Seq::empty(), graph.len());
    if r.0.len() == 0 {
        lemma_chain_explored(graph, r.1, walk, walk.len() - 1);
        lemma_no_explored_cycle(graph, r.1, cycle);
    }
}

/// The search reports a cycle exactly when a cycle can be reached from the
/// skill.
pub proof fn law_cycle_reported_iff_reachable(graph: Seq<(Seq<char>, Seq<Seq<char>>)>, skill_id: Seq<char>)
    ensures
        circular_dependencies(graph, skill_id).len() > 0 <==> cycle_reachable(graph, skill_id),
{
    lemma_dfs_sound(graph, skill_id, skill_id, Seq::empty(), Seq::empty(), graph.len());
    let found = circular_dependencies(graph, skill_id);
    if found.len() > 0 {
        assert(is_cycle(graph, found));
    }
    if cycle_reachable(graph, skill_id) {
        let c = choose|c: Seq<Seq<char>>| #[trigger] is_cycle(graph, c) && reaches(graph, skill_id, c[0]);
        let w = choose|w: Seq<Seq<char>>| w.len() > 0 && w[0] == skill_id && w.last() == c[0] && #[trigger] is_chain(graph, w);
        law_reachable_cycle_is_reported(graph, skill_id, w, c);
    }
}

/// The skills the entry of `id` lists (a copy); none without an entry.
fn deps_lookup(g: &Vec<(String, Vec<String>)>, id: &str) -> (r: Vec<String>)
    ensures
        views(r@) == deps_of(graph_view(g@), id@),
{
    let ghost gv = graph_view(g@);
    let mut i: usize = 0;
    assert(gv.skip(0) =~= gv);
    while i < g.len()
        invariant
            i <= g.len(),
            gv == graph_view(g@),
            deps_of(gv, id@) == deps_of(gv.skip(i as int), id@),
        decreases g.len() - i,
    {
        proof {
            assert(gv.skip(i as int)[0] == gv[i as int]);
            assert(gv.skip(i as int).drop_first() =~= gv.skip(i as int + 1));
        }
        if str_eq(g[i].0.as_str(), id) {
            let r = copy_strings(&g[i].1);
            return r;
        }
        i = i + 1;
    }
    assert(gv.skip(i as int).len() == 0);
    Vec::new()
}

/// The first position of `x` in `path`.
fn find_in_path(path: &Vec<String>, x: &str) -> (r: Option<usize>)
    ensures
        match r {
            Some(i) => i < path@.len() && first_index(views(path@), x@) == i,
            None => first_index(views(path@), x@) == -1,
        },
{
    let ghost pv = views(path@);
    let mut i: usize = 0;
    while i < path.len()
        invariant
            i <= path.len(),
            pv == views(path@),
            forall|j: int| 0 <= j < i ==> pv[j] != x@,
        decreases path.len() - i,
    {
        if str_eq(path[i].as_str(), x) {
            proof {
                lemma_first_index(pv, x@, i as int);
            }
            return Some(i);
        }
        i = i + 1;
    }
    proof {
        lemma_first_index(pv, x@, i as int);
    }
    None
}

fn copy_from(path: &Vec<String>, pos: usize) -> (r: Vec<String>)
    requires
        pos <= path.len(),
    ensures
        views(r@) == views(path@).skip(pos as int),
{
    let ghost pv = views(path@);
    let mut out: Vec<String> = Vec::new();
    let mut k: usize = pos;
    while k < path.len()
        invariant
            pos <= k <= path.len(),
            pv == views(path@),
            views(out@) == pv.subrange(pos as int, k as int),
        decreases path.len() - k,
    {
        out.push(path[k].clone());
        proof {
            assert(pv.subrange(pos as int, k as int + 1) =~= pv.subrange(pos as int, k as int).push(pv[k as int]));
            assert(views(out@) =~= pv.subrange(pos as int, k as int).push(pv[k as int]));
        }
        k = k + 1;
    }
    assert(pv.subrange(pos as int, pv.len() as int) =~= pv.skip(pos as int));
    out
}

fn search_from(
    deps: &Vec<(String, Vec<String>)>,
    x: &str,
    path: &mut Vec<String>,
    done: &mut Vec<String>,
    fuel: usize,
) -> (r: Vec<String>)
    ensures
        views(r@) == dfs(graph_view(deps@), x@, views(old(path)@), views(old(done)@), fuel as nat).0,
        views(final(done)@) == dfs(graph_view(deps@), x@, views(old(path)@), views(old(done)@), fuel as nat).1,
        views(final(path)@) == views(old(path)@),
    decreases fuel,
{
    let ghost g = graph_view(deps@);
    let ghost p0 = views(path@);
    let ghost d0 = views(done@);
    match find_in_path(path, x) {
        Some(pos) => {
            return copy_from(path, pos);
        },
        None => {},
    }
    let seen = vec_has_str(done, x);
    proof { lemma_has_str_views(done@, x@); }
    if seen {
        return Vec::new();
    }
    let ds = deps_lookup(deps, x);
    let ghost dsv = views(ds@);
    path.push(String::from_str(x));
    let ghost pp = views(path@);
    assert(pp =~= p0.push(x@));
    if fuel == 0 {
        let ghost before = path@;
        path.pop();
        assert(views(path@) =~= views(before).drop_last());
        let ghost db = done@;
        done.push(String::from_str(x));
        assert(views(done@) =~= views(db).push(x@));
        return Vec::new();
    }
    let mut j: usize = ds.len();
    assert(dsv.take(j as int) =~= dsv);
    while j > 0
        invariant
            j <= ds.len(),
            fuel > 0,
            g == graph_view(deps@),
            dsv == views(ds@),
            views(path@) == pp,
            p0 == views(old(path)@),
            d0 == views(old(done)@),
            pp == p0.push(x@),
            dfs_list(g, dsv, pp, d0, fuel as nat) == dfs_list(g, dsv.take(j as int), pp, views(done@), fuel as nat),
            dfs(g, x@, p0, d0, fuel as nat) == (if dfs_list(g, dsv, pp, d0, fuel as nat).0.len() > 0 {
                dfs_list(g, dsv, pp, d0, fuel as nat)
            } else {
                (Seq::<Seq<char>>::empty(), dfs_list(g, dsv, pp, d0, fuel as nat).1.push(x@))
            }),
        decreases j,
    {
        let ghost t = dsv.take(j as int);
        let ghost dc = views(done@);
        assert(t.last() == dsv[j - 1]);
        assert(t.drop_last() =~= dsv.take(j - 1));
        let c = search_from(deps, ds[j - 1].as_str(), path, done, fuel - 1);
        proof {
            let r = dfs(g, dsv[j - 1], pp, dc, (fuel - 1) as nat);
            assert(views(c@) == r.0);
            assert(views(done@) == r.1);
            assert(dfs_list(g, t, pp, dc, fuel as nat) == (if r.0.len() > 0 {
                r
            } else {
                dfs_list(g, t.drop_last(), pp, r.1, fuel as nat)
            }));
            assert(views(c@).len() == c@.len());
            assert(views(path@).len() == path@.len());
        }
        if c.len() > 0 {
            let ghost before = path@;
            path.pop();
            assert(views(path@) =~= views(before).drop_last());
            return c;
        }
        j = j - 1;
    }
    let ghost before = path@;
    path.pop();
    assert(views(path@) =~= views(before).drop_last());
    let ghost db = done@;
    done.push(String::from_str(x));
    assert(views(done@) =~= views(db).push(x@));
    Vec::new()
}

/// Searches the skills `skill_id` uses, depth first (`deps` lists each
/// skill with the skills it uses), and returns the first cycle found: the
/// skills of the current path from the one reached again.  Empty when the
/// search closes no cycle.  A cycle is reported exactly when one can be
/// reached from the skill, and what is reported is a cycle.
pub fn detect_circular_dependencies(skill_id: &str, deps: &Vec<(String, Vec<String>)>) -> (r: Vec<String>)
    ensures
        views(r@) == circular_dependencies(graph_view(deps@), skill_id@),
        r@.len() > 0 <==> cycle_reachable(graph_view(deps@), skill_id@),
        r@.len() > 0 ==> is_cycle(graph_view(deps@), views(r@)),
{
    proof {
        law_cycle_reported_iff_reachable(graph_view(deps@), skill_id@);
        law_reported_cycle_is_real(graph_view(deps@), skill_id@);
    }
    let mut path: Vec<String> = Vec::new();
    let mut done: Vec<String> = Vec::new();
    assert(views(path@) =~= Seq::<Seq<char>>::empty());
    assert(views(done@) =~= Seq::<Seq<char>>::empty());
    assert(graph_view(deps@).len() == deps.len());
    search_from(deps, skill_id, &mut path, &mut done, deps.len())
}

/// A skill that uses no skill has no circular dependency.
pub proof fn law_no_dependencies_no_cycle(graph: Seq<(Seq<char>, Seq<Seq<char>>)>, skill_id: Seq<char>)
    requires
        deps_of(graph, skill_id).len() == 0,
    ensures
        circular_dependencies(graph, skill_id).len() == 0,
{
    assert(first_index(Seq::<Seq<char>>::empty(), skill_id) == -1);
}

proof fn lemma_deps_need_entry(graph: Seq<(Seq<char>, Seq<Seq<char>>)>, id: Seq<char>)
    requires
        deps_of(graph, id).len() > 0,
    ensures
        graph.len() > 0,
{
}

/// A skill whose last listed dependency is itself is reported as a cycle
/// of that one skill.
pub proof fn law_self_dependency_reported(graph: Seq<(Seq<char>, Seq<Seq<char>>)>, skill_id: Seq<char>)
    requires
        deps_of(graph, skill_id).len() > 0,
        deps_of(graph, skill_id).last() == skill_id,
    ensures
        circular_dependencies(graph, skill_id) == seq![skill_id],
{
    lemma_deps_need_entry(graph, skill_id);
    let p1 = Seq::<Seq<char>>::empty().push(skill_id);
    assert(first_index(Seq::<Seq<char>>::empty(), skill_id) == -1);
    assert(p1[0] == skill_id);
    assert(first_index(p1, skill_id) == 0);
    assert(p1.skip(0) =~= seq![skill_id]);
    let ds = deps_of(graph, skill_id);
    let f = graph.len();
    assert(dfs(graph, skill_id, p1, Seq::empty(), (f - 1) as nat).0 == seq![skill_id]);
    assert(dfs_list(graph, ds, p1, Seq::empty(), f).0 == seq![skill_id]);
}

} // verus!
