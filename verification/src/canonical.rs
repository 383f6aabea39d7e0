//! The canonical form of a JSON value, whose text a schema digest hashes:
//! every object's members sorted by key, at every depth.
use vstd::prelude::*;
use crate::json::{Json, JsonValue, json_views, member_views, lemma_array_view, lemma_object_view};
use crate::callables::CoreError;
use crate::text::{chars_of, str_eq};

verus! {

// ---------------------------------------------------------------------------
// Key order
// ---------------------------------------------------------------------------

/// The order of object keys: lexicographic by code point (the order of
/// their UTF-8 bytes).
pub open spec fn key_lt(a: Seq<char>, b: Seq<char>) -> bool
    decreases a.len(),
{
    if a.len() == 0 {
        b.len() > 0
    } else if b.len() == 0 {
        false
    } else if a[0] != b[0] {
        (a[0] as int) < (b[0] as int)
    } else {
        key_lt(a.drop_first(), b.drop_first())
    }
}

/// No key precedes itself.
pub proof fn lemma_key_lt_irreflexive(a: Seq<char>)
    ensures
        !key_lt(a, a),
    decreases a.len(),
{
    if a.len() > 0 {
        lemma_key_lt_irreflexive(a.drop_first());
    }
}

/// Of two different keys, one precedes the other.
pub proof fn lemma_key_lt_total(a: Seq<char>, b: Seq<char>)
    requires
        a != b,
    ensures
        key_lt(a, b) || key_lt(b, a),
    decreases a.len(),
{
    if a.len() > 0 && b.len() > 0 && a[0] == b[0] {
        if a.drop_first() == b.drop_first() {
            assert(a =~= seq![a[0]] + a.drop_first());
            assert(b =~= seq![b[0]] + b.drop_first());
        }
        lemma_key_lt_total(a.drop_first(), b.drop_first());
    } else if a.len() > 0 && b.len() > 0 {
        assert(a[0] as int != b[0] as int);
    } else if a.len() == 0 && b.len() == 0 {
        assert(a =~= b);
    }
}

/// The order of keys is transitive.
pub proof fn lemma_key_lt_transitive(a: Seq<char>, b: Seq<char>, c: Seq<char>)
    requires
        key_lt(a, b),
        key_lt(b, c),
    ensures
        key_lt(a, c),
    decreases a.len(),
{
    if a.len() > 0 && b.len() > 0 && c.len() > 0 && a[0] == b[0] && b[0] == c[0] {
        lemma_key_lt_transitive(a.drop_first(), b.drop_first(), c.drop_first());
    }
}

/// A key precedes another, and not the other way round.
proof fn lemma_key_lt_asymmetric(a: Seq<char>, b: Seq<char>)
    requires
        key_lt(a, b),
    ensures
        !key_lt(b, a),
{
    if key_lt(b, a) {
        lemma_key_lt_transitive(a, b, a);
        lemma_key_lt_irreflexive(a);
    }
}

/// The code point of a character.
fn char_code(c: char) -> (r: u32)
    ensures
        r == c as int,
{
    c as u32
}

/// Whether `a` precedes `b` in the key order.
fn chars_lt(a: &[char], b: &[char]) -> (r: bool)
    ensures
        r == key_lt(a@, b@),
{
    let mut i: usize = 0;
    assert(a@.skip(0) =~= a@);
    assert(b@.skip(0) =~= b@);
    while i < a.len() && i < b.len()
        invariant
            i <= a.len(),
            i <= b.len(),
            a@.take(i as int) == b@.take(i as int),
            key_lt(a@, b@) == key_lt(a@.skip(i as int), b@.skip(i as int)),
        decreases a.len() - i,
    {
        let x = a[i];
        let y = b[i];
        if x != y {
            proof {
                assert(a@.skip(i as int)[0] == x);
                assert(b@.skip(i as int)[0] == y);
            }
            return char_code(x) < char_code(y);
        }
        proof {
            assert(a@.skip(i as int).drop_first() =~= a@.skip(i as int + 1));
            assert(b@.skip(i as int).drop_first() =~= b@.skip(i as int + 1));
            assert(a@.take(i as int + 1) =~= a@.take(i as int).push(x));
            assert(b@.take(i as int + 1) =~= b@.take(i as int).push(y));
        }
        i = i + 1;
    }
    proof {
        if i == a.len() {
            assert(a@.skip(i as int).len() == 0);
        } else {
            assert(b@.skip(i as int).len() == 0);
        }
    }
    i == a.len() && i < b.len()
}

/// Whether the key `a` precedes the key `b`.
pub fn key_precedes(a: &str, b: &str) -> (r: bool)
    ensures
        r == key_lt(a@, b@),
{
    let av = chars_of(a);
    let bv = chars_of(b);
    chars_lt(av.as_slice(), bv.as_slice())
}

// ---------------------------------------------------------------------------
// Canonical form
// ---------------------------------------------------------------------------

/// The keys of a member sequence.
pub open spec fn member_keys(m: Seq<(Seq<char>, Json)>) -> Seq<Seq<char>> {
    m.map_values(|p: (Seq<char>, Json)| p.0)
}

/// Whether the members are in strictly increasing key order.
pub open spec fn keys_sorted(m: Seq<(Seq<char>, Json)>) -> bool {
    forall|i: int, j: int| 0 <= i < j < m.len() ==> key_lt(#[trigger] m[i].0, #[trigger] m[j].0)
}

/// Whether no object of `v`, at any depth, has a key twice.
pub open spec fn unique_keys(v: Json) -> bool
    decreases v,
{
    match v {
        Json::Array(a) => all_unique_keys(a),
        Json::Object(m) => member_keys(m).no_duplicates() && forall|i: int|
            0 <= i < m.len() ==> unique_keys(#[trigger] m[i].1),
        _ => true,
    }
}

/// Whether no object of the items, at any depth, has a key twice.
pub open spec fn all_unique_keys(a: Seq<Json>) -> bool
    decreases a,
{
    if a.len() == 0 {
        true
    } else {
        unique_keys(a.last()) && all_unique_keys(a.drop_last())
    }
}

/// Whether `r` is the canonical form of `v`: the same value with the
/// members of every object sorted by key.
pub open spec fn is_canonical(r: Json, v: Json) -> bool
    decreases v,
{
    match v {
        Json::Array(a) => match r {
            Json::Array(b) => all_canonical(b, a),
            _ => false,
        },
        Json::Object(m) => match r {
            Json::Object(rm) => rm.len() == m.len() && keys_sorted(rm) && members_canonical(rm, m),
            _ => false,
        },
        _ => r == v,
    }
}

/// The position of the last member of `rm` with key `k`; -1 if none has.
pub open spec fn key_position(rm: Seq<(Seq<char>, Json)>, k: Seq<char>) -> int
    decreases rm.len(),
{
    if rm.len() == 0 {
        -1
    } else if rm.last().0 == k {
        rm.len() - 1
    } else {
        key_position(rm.drop_last(), k)
    }
}

/// Whether `rm` has, for each member of `m`, a member with its key whose
/// value is the canonical form of its value.
pub open spec fn members_canonical(rm: Seq<(Seq<char>, Json)>, m: Seq<(Seq<char>, Json)>) -> bool
    decreases m,
{
    if m.len() == 0 {
        true
    } else {
        let j = key_position(rm, m.last().0);
        0 <= j < rm.len() && is_canonical(rm[j].1, m.last().1) && members_canonical(rm, m.drop_last())
    }
}

/// In a sorted member list, the position of a key is where it stands.
proof fn lemma_key_position(rm: Seq<(Seq<char>, Json)>, q: int)
    requires
        keys_sorted(rm),
        0 <= q < rm.len(),
    ensures
        key_position(rm, rm[q].0) == q,
    decreases rm.len(),
{
    if q < rm.len() - 1 {
        assert(key_lt(rm[q].0, rm[rm.len() - 1].0));
        lemma_key_lt_irreflexive(rm[q].0);
        let w = rm.drop_last();
        assert(keys_sorted(w)) by {
            assert forall|a: int, b: int| 0 <= a < b < w.len() implies key_lt(#[trigger] w[a].0, #[trigger] w[b].0) by {
                assert(w[a] == rm[a] && w[b] == rm[b]);
            }
        }
        lemma_key_position(w, q);
        assert(w[q] == rm[q]);
    }
}

/// A sorted member list holding, for each member, its canonical member is
/// canonical member by member.
proof fn lemma_members_canonical(
    rm: Seq<(Seq<char>, Json)>,
    m: Seq<(Seq<char>, Json)>,
    canon: Seq<(Seq<char>, Json)>,
    n: int,
)
    requires
        keys_sorted(rm),
        0 <= n <= m.len(),
        canon.len() == m.len(),
        forall|p: int| 0 <= p < m.len() ==> (#[trigger] canon[p]).0 == m[p].0 && is_canonical(canon[p].1, m[p].1),
        forall|p: int| 0 <= p < canon.len() ==> rm.contains(#[trigger] canon[p]),
    ensures
        members_canonical(rm, m.take(n)),
    decreases n,
{
    if n > 0 {
        let t = m.take(n);
        assert(t.drop_last() =~= m.take(n - 1));
        lemma_members_canonical(rm, m, canon, n - 1);
        assert(t.last() == m[n - 1]);
        assert(rm.contains(canon[n - 1]));
        let q = choose|q: int| 0 <= q < rm.len() && rm[q] == canon[n - 1];
        lemma_key_position(rm, q);
    }
}

/// Whether each item of `b` is the canonical form of the item of `a` at
/// its position.
pub open spec fn all_canonical(b: Seq<Json>, a: Seq<Json>) -> bool
    decreases a,
{
    if a.len() == 0 {
        b.len() == 0
    } else {
        b.len() == a.len() && is_canonical(b.last(), a.last()) && all_canonical(b.drop_last(), a.drop_last())
    }
}

/// The items of a sequence all have unique keys.
proof fn lemma_all_unique_keys(a: Seq<Json>, i: int)
    requires
        all_unique_keys(a),
        0 <= i < a.len(),
    ensures
        unique_keys(a[i]),
    decreases a.len(),
{
    if i < a.len() - 1 {
        lemma_all_unique_keys(a.drop_last(), i);
    }
}

/// Inserts a member with a new key at its place in key order.
fn insert_member(out: &mut Vec<(String, JsonValue)>, k: String, c: JsonValue)
    requires
        keys_sorted(member_views(old(out)@)),
        !member_keys(member_views(old(out)@)).contains(k@),
    ensures
        keys_sorted(member_views(final(out)@)),
        final(out)@.len() == old(out)@.len() + 1,
        forall|y: (Seq<char>, Json)|
            #![trigger member_views(final(out)@).contains(y)]
            member_views(final(out)@).contains(y) <==> (member_views(old(out)@).contains(y) || y == (k@, c@)),
{
    let ghost old_m = member_views(out@);
    let mut j: usize = 0;
    while j < out.len() && !key_precedes(k.as_str(), out[j].0.as_str())
        invariant
            j <= out.len(),
            out@.len() == old_m.len(),
            old_m == member_views(out@),
            !member_keys(old_m).contains(k@),
            forall|q: int| 0 <= q < j ==> key_lt(#[trigger] old_m[q].0, k@),
        decreases out.len() - j,
    {
        proof {
            assert(member_keys(old_m)[j as int] == old_m[j as int].0);
            assert(old_m[j as int].0 != k@);
            lemma_key_lt_total(old_m[j as int].0, k@);
        }
        j = j + 1;
    }
    let ghost x = (k@, c@);
    out.insert(j, (k, c));
    let ghost new_m = member_views(out@);
    proof {
        assert(new_m =~= old_m.insert(j as int, x));
        assert forall|a: int, b: int| 0 <= a < b < new_m.len() implies key_lt(#[trigger] new_m[a].0, #[trigger] new_m[b].0) by {
            if b < j {
                assert(new_m[a] == old_m[a] && new_m[b] == old_m[b]);
            } else if b == j {
                assert(new_m[a] == old_m[a]);
            } else if a == j {
                assert(new_m[b] == old_m[b - 1]);
                if b - 1 > j {
                    lemma_key_lt_transitive(k@, old_m[j as int].0, old_m[b - 1].0);
                }
            } else if a < j {
                assert(new_m[a] == old_m[a] && new_m[b] == old_m[b - 1]);
            } else {
                assert(new_m[a] == old_m[a - 1] && new_m[b] == old_m[b - 1]);
            }
        }
        assert forall|y: (Seq<char>, Json)| #![trigger new_m.contains(y)] new_m.contains(y) <==> (old_m.contains(y) || y == x) by {
            if new_m.contains(y) {
                let q = choose|q: int| 0 <= q < new_m.len() && new_m[q] == y;
                if q < j {
                    assert(old_m[q] == y);
                } else if q > j {
                    assert(old_m[q - 1] == y);
                }
            }
            if old_m.contains(y) {
                let q = choose|q: int| 0 <= q < old_m.len() && old_m[q] == y;
                if q < j {
                    assert(new_m[q] == y);
                } else {
                    assert(new_m[q + 1] == y);
                }
            }
            if y == x {
                assert(new_m[j as int] == y);
            }
        }
    }
}

/// Whether no object of the value, at any depth, has a key twice.
pub fn has_unique_keys(v: &JsonValue) -> (r: bool)
    ensures
        r == unique_keys(v@),
    decreases v,
{
    match v {
        JsonValue::Array(items) => {
            proof {
                lemma_array_view(*items);
            }
            let ghost iv = json_views(items@);
            let mut i: usize = 0;
            assert(iv.take(0) =~= Seq::<Json>::empty());
            while i < items.len()
                invariant
                    *v == JsonValue::Array(*items),
                    v@ == Json::Array(iv),
                    iv == json_views(items@),
                    i <= items.len(),
                    all_unique_keys(iv.take(i as int)),
                decreases items.len() - i,
            {
                proof {
                    broadcast use vstd::std_specs::vec::axiom_vec_decreases_to_view;
                    broadcast use vstd::seq::axiom_seq_index_decreases;
                    assert(decreases_to!(*v => v->Array_0));
                    assert(decreases_to!(v->Array_0 => v->Array_0@));
                    assert(decreases_to!(v->Array_0@ => v->Array_0@[i as int]));
                    assert(iv[i as int] == items@[i as int]@);
                }
                let ok = has_unique_keys(&items[i]);
                proof {
                    let a = iv.take(i as int + 1);
                    assert(a.drop_last() =~= iv.take(i as int));
                    assert(a.last() == iv[i as int]);
                }
                if !ok {
                    proof {
                        assert(!all_unique_keys(iv.take(i as int + 1)));
                        lemma_unique_prefix(iv, i as int + 1);
                    }
                    return false;
                }
                i = i + 1;
            }
            assert(iv.take(items.len() as int) =~= iv);
            true
        },
        JsonValue::Object(members) => {
            proof {
                lemma_object_view(*members);
            }
            let ghost mv = member_views(members@);
            let ghost ks = member_keys(mv);
            let mut i: usize = 0;
            while i < members.len()
                invariant
                    *v == JsonValue::Object(*members),
                    v@ == Json::Object(mv),
                    mv == member_views(members@),
                    ks == member_keys(mv),
                    i <= members.len(),
                    forall|a: int, b: int| 0 <= a < b < i ==> ks[a] != ks[b],
                    forall|p: int| 0 <= p < i ==> unique_keys(#[trigger] mv[p].1),
                decreases members.len() - i,
            {
                proof {
                    broadcast use vstd::std_specs::vec::axiom_vec_decreases_to_view;
                    broadcast use vstd::seq::axiom_seq_index_decreases;
                    assert(decreases_to!(*v => v->Object_0));
                    assert(decreases_to!(v->Object_0 => v->Object_0@));
                    assert(decreases_to!(v->Object_0@ => v->Object_0@[i as int]));
                    assert(decreases_to!(v->Object_0@[i as int] => v->Object_0@[i as int].1));
                    assert(mv[i as int] == (members@[i as int].0@, members@[i as int].1@));
                    assert(ks[i as int] == members@[i as int].0@);
                }
                let mut j: usize = 0;
                while j < i
                    invariant
                        j <= i < members.len(),
                        *v == JsonValue::Object(*members),
                        v@ == Json::Object(mv),
                        mv == member_views(members@),
                        ks == member_keys(mv),
                        forall|a: int| 0 <= a < j ==> ks[a] != ks[i as int],
                    decreases i - j,
                {
                    assert(ks[j as int] == members@[j as int].0@);
                    assert(ks[i as int] == members@[i as int].0@);
                    if str_eq(members[j].0.as_str(), members[i].0.as_str()) {
                        proof {
                            assert(ks[j as int] == ks[i as int]);
                            assert(!ks.no_duplicates());
                            assert(!unique_keys(v@));
                        }
                        return false;
                    }
                    j = j + 1;
                }
                let ok = has_unique_keys(&members[i].1);
                if !ok {
                    proof {
                        assert(!unique_keys(mv[i as int].1));
                    }
                    return false;
                }
                i = i + 1;
            }
            proof {
                assert(ks.no_duplicates());
            }
            true
        },
        _ => true,
    }
}

proof fn lemma_unique_prefix(a: Seq<Json>, n: int)
    requires
        0 <= n <= a.len(),
        !all_unique_keys(a.take(n)),
    ensures
        !all_unique_keys(a),
    decreases a.len(),
{
    if n < a.len() {
        assert(a.drop_last().take(n) =~= a.take(n));
        lemma_unique_prefix(a.drop_last(), n);
    } else {
        assert(a.take(n) =~= a);
    }
}

/// The canonical form of a JSON value: the members of every object sorted
/// by key.
pub fn sort_value(v: &JsonValue) -> (r: JsonValue)
    requires
        unique_keys(v@),
    ensures
        is_canonical(r@, v@),
    decreases v,
{
    match v {
        JsonValue::Array(items) => {
            proof {
                lemma_array_view(*items);
            }
            let ghost iv = json_views(items@);
            let mut out: Vec<JsonValue> = Vec::new();
            let mut i: usize = 0;
            assert(json_views(out@) =~= Seq::<Json>::empty());
            assert(iv.take(0) =~= Seq::<Json>::empty());
            while i < items.len()
                invariant
                    *v == JsonValue::Array(*items),
                    v@ == Json::Array(iv),
                    iv == json_views(items@),
                    all_unique_keys(iv),
                    i <= items.len(),
                    out@.len() == i,
                    all_canonical(json_views(out@), iv.take(i as int)),
                decreases items.len() - i,
            {
                proof {
                    broadcast use vstd::std_specs::vec::axiom_vec_decreases_to_view;
                    broadcast use vstd::seq::axiom_seq_index_decreases;
                    assert(decreases_to!(*v => v->Array_0));
                    assert(decreases_to!(v->Array_0 => v->Array_0@));
                    assert(decreases_to!(v->Array_0@ => v->Array_0@[i as int]));
                    assert(iv[i as int] == items@[i as int]@);
                    lemma_all_unique_keys(iv, i as int);
                }
                let c = sort_value(&items[i]);
                let ghost before = json_views(out@);
                out.push(c);
                proof {
                    let b = json_views(out@);
                    let a = iv.take(i as int + 1);
                    assert(b.drop_last() =~= before);
                    assert(a.drop_last() =~= iv.take(i as int));
                    assert(b.last() == c@);
                    assert(a.last() == iv[i as int]);
                }
                i = i + 1;
            }
            proof {
                lemma_array_view(out);
                assert(iv.take(items.len() as int) =~= iv);
            }
            JsonValue::Array(out)
        },
        JsonValue::Object(members) => {
            proof {
                lemma_object_view(*members);
            }
            let ghost mv = member_views(members@);
            let ghost mut canon: Seq<(Seq<char>, Json)> = Seq::empty();
            let mut out: Vec<(String, JsonValue)> = Vec::new();
            let mut i: usize = 0;
            assert(member_views(out@) =~= Seq::<(Seq<char>, Json)>::empty());
            while i < members.len()
                invariant
                    *v == JsonValue::Object(*members),
                    v@ == Json::Object(mv),
                    mv == member_views(members@),
                    unique_keys(v@),
                    i <= members.len(),
                    out@.len() == i,
                    canon.len() == i,
                    keys_sorted(member_views(out@)),
                    forall|p: int| 0 <= p < i ==> (#[trigger] canon[p]).0 == mv[p].0 && is_canonical(canon[p].1, mv[p].1),
                    forall|y: (Seq<char>, Json)| #![trigger member_views(out@).contains(y)]
                        member_views(out@).contains(y) <==> canon.contains(y),
                decreases members.len() - i,
            {
                proof {
                    broadcast use vstd::std_specs::vec::axiom_vec_decreases_to_view;
                    broadcast use vstd::seq::axiom_seq_index_decreases;
                    assert(decreases_to!(*v => v->Object_0));
                    assert(decreases_to!(v->Object_0 => v->Object_0@));
                    assert(decreases_to!(v->Object_0@ => v->Object_0@[i as int]));
                    assert(decreases_to!(v->Object_0@[i as int] => v->Object_0@[i as int].1));
                    assert(mv[i as int] == (members@[i as int].0@, members@[i as int].1@));
                    assert(unique_keys(mv[i as int].1));
                }
                let k = members[i].0.clone();
                let c = sort_value(&members[i].1);
                proof {
                    if member_keys(member_views(out@)).contains(k@) {
                        let q = choose|q: int| 0 <= q < member_keys(member_views(out@)).len()
                            && member_keys(member_views(out@))[q] == k@;
                        let y = member_views(out@)[q];
                        assert(member_views(out@).contains(y));
                        let p = choose|p: int| 0 <= p < canon.len() && canon[p] == y;
                        assert(canon[p].0 == mv[p].0);
                        assert(member_keys(mv)[p] == mv[p].0);
                        assert(member_keys(mv)[i as int] == mv[i as int].0);
                    }
                }
                let ghost x = (k@, c@);
                insert_member(&mut out, k, c);
                proof {
                    let old_canon = canon;
                    canon = canon.push(x);
                    assert forall|y: (Seq<char>, Json)| #![trigger member_views(out@).contains(y)]
                        member_views(out@).contains(y) <==> canon.contains(y) by {
                        if old_canon.contains(y) {
                            let p = choose|p: int| 0 <= p < old_canon.len() && old_canon[p] == y;
                            assert(canon[p] == y);
                        }
                        if canon.contains(y) && y != x {
                            let p = choose|p: int| 0 <= p < canon.len() && canon[p] == y;
                            assert(old_canon[p] == y);
                        }
                        if y == x {
                            assert(canon[i as int] == y);
                        }
                    }
                }
                i = i + 1;
            }
            proof {
                lemma_object_view(out);
                let rm = member_views(out@);
                assert forall|p: int| 0 <= p < canon.len() implies rm.contains(#[trigger] canon[p]) by {
                    assert(canon.contains(canon[p]));
                }
                lemma_members_canonical(rm, mv, canon, mv.len() as int);
                assert(mv.take(mv.len() as int) =~= mv);
            }
            JsonValue::Object(out)
        },
        JsonValue::Null => JsonValue::Null,
        JsonValue::Bool(b) => JsonValue::Bool(*b),
        JsonValue::Number(n) => JsonValue::Number(n.clone()),
        JsonValue::Str(t) => JsonValue::Str(t.clone()),
    }
}

// ---------------------------------------------------------------------------
// Laws of the canonical form
// ---------------------------------------------------------------------------

/// What `members_canonical` says of each member.
proof fn lemma_members_canonical_at(rm: Seq<(Seq<char>, Json)>, m: Seq<(Seq<char>, Json)>, p: int)
    requires
        members_canonical(rm, m),
        0 <= p < m.len(),
    ensures
        0 <= key_position(rm, m[p].0) < rm.len(),
        is_canonical(rm[key_position(rm, m[p].0)].1, m[p].1),
    decreases m.len(),
{
    if p < m.len() - 1 {
        lemma_members_canonical_at(rm, m.drop_last(), p);
    }
}

/// `key_position` is -1 or a position of a member with the key.
proof fn lemma_key_position_found(rm: Seq<(Seq<char>, Json)>, k: Seq<char>)
    ensures
        -1 <= key_position(rm, k) < rm.len(),
        0 <= key_position(rm, k) ==> rm[key_position(rm, k)].0 == k,
    decreases rm.len(),
{
    if rm.len() > 0 && rm.last().0 != k {
        lemma_key_position_found(rm.drop_last(), k);
    }
}

/// A sorted member list has no key twice.
proof fn lemma_sorted_distinct(rm: Seq<(Seq<char>, Json)>, a: int, b: int)
    requires
        keys_sorted(rm),
        0 <= a < rm.len(),
        0 <= b < rm.len(),
        a != b,
    ensures
        rm[a].0 != rm[b].0,
{
    if a < b {
        assert(key_lt(rm[a].0, rm[b].0));
    } else {
        assert(key_lt(rm[b].0, rm[a].0));
    }
    lemma_key_lt_irreflexive(rm[a].0);
}

/// The keys of a canonical object are the keys of the object.
proof fn lemma_canonical_keys(rm: Seq<(Seq<char>, Json)>, m: Seq<(Seq<char>, Json)>, q: int) -> (p: int)
    requires
        rm.len() == m.len(),
        keys_sorted(rm),
        members_canonical(rm, m),
        member_keys(m).no_duplicates(),
        0 <= q < rm.len(),
    ensures
        0 <= p < m.len(),
        key_position(rm, m[p].0) == q,
{
    // The positions of the members' keys are distinct, so they cover every
    // position of `rm`.
    let pos = Seq::new(m.len(), |p: int| key_position(rm, m[p].0));
    assert forall|a: int, b: int| 0 <= a < pos.len() && 0 <= b < pos.len() && a != b implies pos[a] != pos[b] by {
        lemma_members_canonical_at(rm, m, a);
        lemma_members_canonical_at(rm, m, b);
        lemma_key_position_found(rm, m[a].0);
        lemma_key_position_found(rm, m[b].0);
        assert(member_keys(m)[a] != member_keys(m)[b]);
    }
    assert forall|a: int| 0 <= a < pos.len() implies 0 <= #[trigger] pos[a] < rm.len() by {
        lemma_members_canonical_at(rm, m, a);
    }
    lemma_injective_covers(pos, rm.len() as int, q);
    let p = choose|p: int| 0 <= p < pos.len() && pos[p] == q;
    p
}

/// `n` distinct positions below `n` cover every position below `n`.
proof fn lemma_injective_covers(pos: Seq<int>, n: int, q: int)
    requires
        pos.len() == n,
        0 <= q < n,
        pos.no_duplicates(),
        forall|a: int| 0 <= a < pos.len() ==> 0 <= #[trigger] pos[a] < n,
    ensures
        pos.contains(q),
{
    let s = pos.to_set();
    let full = Set::new(|x: int| 0 <= x < n);
    assert(s.subset_of(full));
    pos.unique_seq_to_set();
    assert(full =~= vstd::set_lib::set_int_range(0, n));
    vstd::set_lib::lemma_int_range(0, n);
    vstd::set_lib::lemma_subset_equality(s, full);
    assert(full.contains(q));
}

/// Whether some member of `r` has the key `k`.
pub open spec fn has_key(r: Seq<(Seq<char>, Json)>, k: Seq<char>) -> bool {
    exists|b: int| 0 <= b < r.len() && (#[trigger] r[b]).0 == k
}

/// Whether every key of `r1` is a key of `r2`.
pub open spec fn keys_within(r1: Seq<(Seq<char>, Json)>, r2: Seq<(Seq<char>, Json)>) -> bool {
    forall|a: int| 0 <= a < r1.len() ==> has_key(r2, #[trigger] r1[a].0)
}

/// The tail of a sorted member list is sorted.
proof fn lemma_sorted_tail(r: Seq<(Seq<char>, Json)>)
    requires
        keys_sorted(r),
        r.len() > 0,
    ensures
        keys_sorted(r.drop_first()),
{
    let t = r.drop_first();
    assert forall|a: int, b: int| 0 <= a < b < t.len() implies key_lt(#[trigger] t[a].0, #[trigger] t[b].0) by {
        assert(t[a] == r[a + 1] && t[b] == r[b + 1]);
    }
}

/// Sorted member lists with the same keys start with the same key.
proof fn lemma_sorted_same_first(r1: Seq<(Seq<char>, Json)>, r2: Seq<(Seq<char>, Json)>)
    requires
        r1.len() > 0,
        r2.len() > 0,
        keys_sorted(r1),
        keys_sorted(r2),
        keys_within(r1, r2),
        keys_within(r2, r1),
    ensures
        r1[0].0 == r2[0].0,
{
    assert(has_key(r2, r1[0].0));
    assert(has_key(r1, r2[0].0));
    let b0 = choose|b: int| 0 <= b < r2.len() && (#[trigger] r2[b]).0 == r1[0].0;
    let a0 = choose|a: int| 0 <= a < r1.len() && (#[trigger] r1[a]).0 == r2[0].0;
    if b0 != 0 {
        assert(key_lt(r2[0].0, r2[b0].0));
        if a0 != 0 {
            assert(key_lt(r1[0].0, r1[a0].0));
            lemma_key_lt_asymmetric(r1[0].0, r2[0].0);
        } else {
            lemma_key_lt_irreflexive(r1[0].0);
        }
    }
}

/// Dropping the same first key from sorted lists keeps their keys within
/// each other.
proof fn lemma_tail_keys_within(r1: Seq<(Seq<char>, Json)>, r2: Seq<(Seq<char>, Json)>)
    requires
        r1.len() > 0,
        r2.len() > 0,
        keys_sorted(r1),
        keys_sorted(r2),
        keys_within(r1, r2),
        r1[0].0 == r2[0].0,
    ensures
        keys_within(r1.drop_first(), r2.drop_first()),
{
    let t1 = r1.drop_first();
    let t2 = r2.drop_first();
    assert forall|a: int| 0 <= a < t1.len() implies has_key(t2, #[trigger] t1[a].0) by {
        assert(t1[a] == r1[a + 1]);
        assert(has_key(r2, r1[a + 1].0));
        let b = choose|b: int| 0 <= b < r2.len() && (#[trigger] r2[b]).0 == r1[a + 1].0;
        if b == 0 {
            lemma_sorted_distinct(r1, 0, a + 1);
        }
        let w = b - 1;
        assert(t2[w] == r2[b]);
        assert(0 <= w < t2.len() && t2[w].0 == t1[a].0);
    }
}

/// Two sorted member lists with the same keys have them in the same order.
proof fn lemma_sorted_same_keys(r1: Seq<(Seq<char>, Json)>, r2: Seq<(Seq<char>, Json)>)
    requires
        r1.len() == r2.len(),
        keys_sorted(r1),
        keys_sorted(r2),
        keys_within(r1, r2),
        keys_within(r2, r1),
    ensures
        forall|i: int| 0 <= i < r1.len() ==> (#[trigger] r1[i]).0 == r2[i].0,
    decreases r1.len(),
{
    if r1.len() > 0 {
        lemma_sorted_same_first(r1, r2);
        lemma_sorted_tail(r1);
        lemma_sorted_tail(r2);
        lemma_tail_keys_within(r1, r2);
        lemma_tail_keys_within(r2, r1);
        let t1 = r1.drop_first();
        let t2 = r2.drop_first();
        lemma_sorted_same_keys(t1, t2);
        assert forall|i: int| 0 <= i < r1.len() implies (#[trigger] r1[i]).0 == r2[i].0 by {
            if i > 0 {
                assert(t1[i - 1] == r1[i] && t2[i - 1] == r2[i]);
            }
        }
    }
}

/// The keys of one canonical form of an object are keys of another.
proof fn lemma_canonical_keys_within(rm1: Seq<(Seq<char>, Json)>, rm2: Seq<(Seq<char>, Json)>, m: Seq<(Seq<char>, Json)>)
    requires
        rm1.len() == m.len(),
        rm2.len() == m.len(),
        keys_sorted(rm1),
        members_canonical(rm1, m),
        members_canonical(rm2, m),
        member_keys(m).no_duplicates(),
    ensures
        keys_within(rm1, rm2),
{
    assert forall|a: int| 0 <= a < rm1.len() implies has_key(rm2, #[trigger] rm1[a].0) by {
        let p = lemma_canonical_keys(rm1, m, a);
        lemma_members_canonical_at(rm2, m, p);
        lemma_key_position_found(rm1, m[p].0);
        lemma_key_position_found(rm2, m[p].0);
        let b = key_position(rm2, m[p].0);
        assert(rm2[b].0 == rm1[a].0);
    }
}

/// A value has a single canonical form.
pub proof fn law_canonical_form_unique(r1: Json, r2: Json, v: Json)
    requires
        unique_keys(v),
        is_canonical(r1, v),
        is_canonical(r2, v),
    ensures
        r1 == r2,
    decreases v, 2int,
{
    match v {
        Json::Array(a) => {
            lemma_all_canonical_unique(r1->Array_0, r2->Array_0, a);
        },
        Json::Object(m) => {
            lemma_members_canonical_unique(r1->Object_0, r2->Object_0, m);
        },
        _ => {},
    }
}

/// Canonical member lists of the same members are equal.
proof fn lemma_members_canonical_unique(rm1: Seq<(Seq<char>, Json)>, rm2: Seq<(Seq<char>, Json)>, m: Seq<(Seq<char>, Json)>)
    requires
        member_keys(m).no_duplicates(),
        forall|i: int| 0 <= i < m.len() ==> unique_keys(#[trigger] m[i].1),
        rm1.len() == m.len(),
        rm2.len() == m.len(),
        keys_sorted(rm1),
        keys_sorted(rm2),
        members_canonical(rm1, m),
        members_canonical(rm2, m),
    ensures
        rm1 == rm2,
    decreases m, 1int,
{
    lemma_canonical_keys_within(rm1, rm2, m);
    lemma_canonical_keys_within(rm2, rm1, m);
    lemma_sorted_same_keys(rm1, rm2);
    assert forall|i: int| 0 <= i < rm1.len() implies #[trigger] rm1[i] == rm2[i] by {
        lemma_member_equal(rm1, rm2, m, i);
    }
    assert(rm1 =~= rm2);
}

/// Canonical member lists with the same keys in the same order agree at
/// each position.
proof fn lemma_member_equal(rm1: Seq<(Seq<char>, Json)>, rm2: Seq<(Seq<char>, Json)>, m: Seq<(Seq<char>, Json)>, i: int)
    requires
        member_keys(m).no_duplicates(),
        forall|p: int| 0 <= p < m.len() ==> unique_keys(#[trigger] m[p].1),
        rm1.len() == m.len(),
        rm2.len() == m.len(),
        keys_sorted(rm1),
        keys_sorted(rm2),
        members_canonical(rm1, m),
        members_canonical(rm2, m),
        forall|q: int| 0 <= q < rm1.len() ==> (#[trigger] rm1[q]).0 == rm2[q].0,
        0 <= i < rm1.len(),
    ensures
        rm1[i] == rm2[i],
    decreases m, 0int,
{
    let p = lemma_canonical_keys(rm1, m, i);
    lemma_key_position_found(rm1, m[p].0);
    assert(rm1[i].0 == rm2[i].0);
    lemma_key_position(rm2, i);
    lemma_members_canonical_at(rm1, m, p);
    lemma_members_canonical_at(rm2, m, p);
    assert(key_position(rm2, m[p].0) == i);
    broadcast use vstd::seq::axiom_seq_index_decreases;
    assert(decreases_to!(m => m[p]));
    law_canonical_form_unique(rm1[i].1, rm2[i].1, m[p].1);
}

/// Canonical forms of the items of a sequence are unique.
proof fn lemma_all_canonical_unique(b1: Seq<Json>, b2: Seq<Json>, a: Seq<Json>)
    requires
        all_unique_keys(a),
        all_canonical(b1, a),
        all_canonical(b2, a),
    ensures
        b1 == b2,
    decreases a, 1int,
{
    if a.len() > 0 {
        lemma_all_canonical_unique(b1.drop_last(), b2.drop_last(), a.drop_last());
        law_canonical_form_unique(b1.last(), b2.last(), a.last());
        assert(b1 =~= b1.drop_last().push(b1.last()));
        assert(b2 =~= b2.drop_last().push(b2.last()));
    } else {
        assert(b1 =~= b2);
    }
}

/// Reordering the members of an object does not change its canonical
/// form: what is canonical for one order is canonical for the other.
pub proof fn law_member_order_irrelevant(r: Json, m1: Seq<(Seq<char>, Json)>, m2: Seq<(Seq<char>, Json)>)
    requires
        is_canonical(r, Json::Object(m1)),
        m1.len() == m2.len(),
        forall|p: int| 0 <= p < m2.len() ==> m1.contains(#[trigger] m2[p]),
    ensures
        is_canonical(r, Json::Object(m2)),
{
    let rm = r->Object_0;
    let canon = Seq::new(m2.len(), |p: int| rm[key_position(rm, m2[p].0)]);
    assert forall|p: int| 0 <= p < m2.len() implies (#[trigger] canon[p]).0 == m2[p].0 && is_canonical(
        canon[p].1,
        m2[p].1,
    ) by {
        let q = choose|q: int| 0 <= q < m1.len() && m1[q] == m2[p];
        lemma_members_canonical_at(rm, m1, q);
        lemma_key_position_found(rm, m1[q].0);
    }
    assert forall|p: int| 0 <= p < canon.len() implies rm.contains(#[trigger] canon[p]) by {
        let q = choose|q: int| 0 <= q < m1.len() && m1[q] == m2[p];
        lemma_members_canonical_at(rm, m1, q);
        assert(rm[key_position(rm, m2[p].0)] == canon[p]);
    }
    lemma_members_canonical(rm, m2, canon, m2.len() as int);
    assert(m2.take(m2.len() as int) =~= m2);
}

/// An object and a reordering of its members have the same canonical form,
/// hence the same canonical text and the same schema digest.
pub proof fn law_reordered_same_canonical_form(
    c1: Json,
    c2: Json,
    m1: Seq<(Seq<char>, Json)>,
    m2: Seq<(Seq<char>, Json)>,
)
    requires
        unique_keys(Json::Object(m2)),
        is_canonical(c1, Json::Object(m1)),
        is_canonical(c2, Json::Object(m2)),
        m1.len() == m2.len(),
        forall|p: int| 0 <= p < m2.len() ==> m1.contains(#[trigger] m2[p]),
    ensures
        c1 == c2,
{
    law_member_order_irrelevant(c1, m1, m2);
    law_canonical_form_unique(c1, c2, Json::Object(m2));
}

// ---------------------------------------------------------------------------
// Canonical text
// ---------------------------------------------------------------------------

#[verifier::external_type_specification]
#[verifier::external_body]
pub struct ExSerdeJsonValue(serde_json::Value);

/// The text `serde_json::to_string` gives for the `serde_json::Value` a
/// JSON value stands for.
pub uninterp spec fn json_text(v: Json) -> Seq<char>;

/// Whether `serde_json::from_str` reads the text as a JSON value.
pub uninterp spec fn number_text_reads(t: Seq<char>) -> bool;

/// Whether every number of the value, at any depth, has a text that
/// `serde_json` reads.
pub open spec fn numbers_read(v: Json) -> bool
    decreases v,
{
    match v {
        Json::Number(t) => number_text_reads(t),
        Json::Array(a) => all_numbers_read(a),
        Json::Object(m) => forall|i: int| 0 <= i < m.len() ==> numbers_read(#[trigger] m[i].1),
        _ => true,
    }
}

/// Whether every number of the items, at any depth, has a text that
/// `serde_json` reads.
pub open spec fn all_numbers_read(a: Seq<Json>) -> bool
    decreases a,
{
    if a.len() == 0 {
        true
    } else {
        numbers_read(a.last()) && all_numbers_read(a.drop_last())
    }
}

/// Builds the `serde_json::Value` of a JSON value, a number from its text
/// with `serde_json::from_str`: it fails exactly when some number's text
/// does not read.  Nothing is stated of the value built.
#[verifier::external_body]
fn to_serde_value(v: &JsonValue) -> (r: Result<serde_json::Value, serde_json::Error>)
    ensures
        r is Ok <==> numbers_read(v@),
        v@ matches Json::Number(t) ==> (r is Ok <==> number_text_reads(t)),
{
    Ok(match v {
        JsonValue::Null => serde_json::Value::Null,
        JsonValue::Bool(b) => serde_json::Value::Bool(*b),
        JsonValue::Number(n) => serde_json::from_str(n.as_str())?,
        JsonValue::Str(s) => serde_json::Value::String(s.clone()),
        JsonValue::Array(a) => serde_json::Value::Array(a.iter().map(to_serde_value).collect::<Result<_, _>>()?),
        JsonValue::Object(m) => serde_json::Value::Object(
            m.iter().map(|(k, x)| Ok((k.clone(), to_serde_value(x)?))).collect::<Result<_, serde_json::Error>>()?,
        ),
    })
}

/// Serializes a JSON value with `serde_json::to_string`.  Writing a
/// `serde_json::Value` cannot fail (its `Serialize` impl does not fail and
/// its map keys are strings, the two failures the documentation names), so
/// the call fails exactly when building the value does; the text is the
/// named text of the value.
#[verifier::external_body]
fn json_text_of(v: &JsonValue) -> (r: Result<String, serde_json::Error>)
    ensures
        r is Ok <==> numbers_read(v@),
        r matches Ok(t) ==> t@ == json_text(v@),
{
    serde_json::to_string(&to_serde_value(v)?)
}

/// The text `serde_json::to_string_pretty` gives for the `serde_json::Value`
/// a JSON value stands for.
pub uninterp spec fn pretty_json_text(v: Json) -> Seq<char>;

/// Serializes a JSON value with `serde_json::to_string_pretty`.  As with
/// `serde_json::to_string`, writing a `serde_json::Value` cannot fail, so
/// the call fails exactly when building the value does; the text is the
/// named pretty text of the value.
#[verifier::external_body]
pub(crate) fn pretty_json_text_of(v: &JsonValue) -> (r: Result<String, serde_json::Error>)
    ensures
        r is Ok <==> numbers_read(v@),
        r matches Ok(t) ==> t@ == pretty_json_text(v@),
{
    serde_json::to_string_pretty(&to_serde_value(v)?)
}

/// The canonical JSON text of a value, for stable hashing: the text of its
/// canonical form.  It succeeds exactly when `serde_json` reads every number
/// of the canonical form; a failure is a serialization error.
pub fn canonicalize_json(value: &JsonValue) -> (r: Result<String, CoreError>)
    requires
        unique_keys(value@),
    ensures
        r matches Ok(t) ==> exists|c: Json| is_canonical(c, value@) && t@ == json_text(c),
        forall|c: Json| is_canonical(c, value@) ==> (r is Ok <==> numbers_read(c)),
        r matches Err(e) ==> e is SerializationError,
{
    let sorted = sort_value(value);
    proof {
        assert forall|c: Json| is_canonical(c, value@) implies c == sorted@ by {
            law_canonical_form_unique(c, sorted@, value@);
        }
    }
    match json_text_of(&sorted) {
        Ok(t) => Ok(t),
        Err(e) => Err(CoreError::SerializationError(crate::isolation::json_error_text(&e))),
    }
}

} // verus!
