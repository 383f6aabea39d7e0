//! A plain JSON value, as the registry, the schemas and the upstream replies
//! carry it.  Numbers keep their textual form; an object keeps its members in
//! order.
use vstd::prelude::*;
use crate::text::{str_eq, views};

verus! {

/// The mathematical model of a JSON document.
pub enum Json {
    Null,
    Bool(bool),
    Number(Seq<char>),
    Str(Seq<char>),
    Array(Seq<Json>),
    Object(Seq<(Seq<char>, Json)>),
}

/// A JSON document.
#[derive(Debug)]
pub enum JsonValue {
    Null,
    Bool(bool),
    /// A number, in its JSON textual form.
    Number(String),
    Str(String),
    Array(Vec<JsonValue>),
    /// Members in order; keys are unique.
    Object(Vec<(String, JsonValue)>),
}


/// The model of a JSON value.
pub open spec fn json_view(v: JsonValue) -> Json
    decreases v,
{
    match v {
        JsonValue::Null => Json::Null,
        JsonValue::Bool(b) => Json::Bool(b),
        JsonValue::Number(n) => Json::Number(n@),
        JsonValue::Str(s) => Json::Str(s@),
        JsonValue::Array(items) => Json::Array(
            Seq::new(
                items@.len(),
                |i: int|
                    if 0 <= i < items@.len() {
                        json_view(items@[i])
                    } else {
                        Json::Null
                    },
            ),
        ),
        JsonValue::Object(m) => Json::Object(
            Seq::new(
                m@.len(),
                |i: int|
                    if 0 <= i < m@.len() {
                        (m@[i].0@, json_view(m@[i].1))
                    } else {
                        (Seq::empty(), Json::Null)
                    },
            ),
        ),
    }
}

impl View for JsonValue {
    type V = Json;

    open spec fn view(&self) -> Json {
        json_view(*self)
    }
}

/// The models of a sequence of JSON values.
pub open spec fn json_views(s: Seq<JsonValue>) -> Seq<Json> {
    Seq::new(s.len(), |i: int| s[i]@)
}

/// The models of a sequence of members.
pub open spec fn member_views(s: Seq<(String, JsonValue)>) -> Seq<(Seq<char>, Json)> {
    Seq::new(s.len(), |i: int| (s[i].0@, s[i].1@))
}

/// The view of an array value is the array of its items' views.
pub proof fn lemma_array_view(items: Vec<JsonValue>)
    ensures
        JsonValue::Array(items)@ == Json::Array(json_views(items@)),
{
    let v = json_view(JsonValue::Array(items));
    let b = v->Array_0;
    assert(b.len() == items@.len());
    assert forall|i: int| 0 <= i < b.len() implies b[i] == json_views(items@)[i] by {}
    assert(b =~= json_views(items@));
}

/// The view of an object value is the object of its members' views.
pub proof fn lemma_object_view(m: Vec<(String, JsonValue)>)
    ensures
        JsonValue::Object(m)@ == Json::Object(member_views(m@)),
{
    let v = json_view(JsonValue::Object(m));
    let b = v->Object_0;
    assert(b.len() == m@.len());
    assert forall|i: int| 0 <= i < b.len() implies b[i] == member_views(m@)[i] by {}
    assert(b =~= member_views(m@));
}

/// A deep copy of a JSON value.
pub fn json_copy(v: &JsonValue) -> (r: JsonValue)
    ensures
        r@ == v@,
    decreases v,
{
    match v {
        JsonValue::Null => JsonValue::Null,
        JsonValue::Bool(b) => JsonValue::Bool(*b),
        JsonValue::Number(n) => JsonValue::Number(n.clone()),
        JsonValue::Str(s) => JsonValue::Str(s.clone()),
        JsonValue::Array(items) => {
            let mut out: Vec<JsonValue> = Vec::new();
            let mut i: usize = 0;
            while i < items.len()
                invariant
                    *v == JsonValue::Array(*items),
                    i <= items.len(),
                    out@.len() == i,
                    json_views(out@) == json_views(items@).take(i as int),
                decreases items.len() - i,
            {
                proof {
                    broadcast use vstd::std_specs::vec::axiom_vec_decreases_to_view;
                    broadcast use vstd::seq::axiom_seq_index_decreases;
                    assert(decreases_to!(*v => v->Array_0));
                    assert(decreases_to!(v->Array_0 => v->Array_0@));
                    assert(decreases_to!(v->Array_0@ => v->Array_0@[i as int]));
                }
                let c = json_copy(&items[i]);
                let ghost old_out = out@;
                out.push(c);
                assert forall|j: int| 0 <= j < i + 1 implies json_views(out@)[j] == json_views(items@)[j] by {
                    if j < i {
                        assert(out@[j] == old_out[j]);
                        assert(json_views(old_out)[j] == json_views(items@).take(i as int)[j]);
                    }
                }
                i = i + 1;
                assert(json_views(out@) =~= json_views(items@).take(i as int));
            }
            assert(json_views(items@).take(items.len() as int) =~= json_views(items@));
            proof {
                lemma_array_view(out);
                lemma_array_view(*items);
            }
            JsonValue::Array(out)
        },
        JsonValue::Object(members) => {
            let mut out: Vec<(String, JsonValue)> = Vec::new();
            let mut i: usize = 0;
            while i < members.len()
                invariant
                    *v == JsonValue::Object(*members),
                    i <= members.len(),
                    out@.len() == i,
                    member_views(out@) == member_views(members@).take(i as int),
                decreases members.len() - i,
            {
                proof {
                    broadcast use vstd::std_specs::vec::axiom_vec_decreases_to_view;
                    broadcast use vstd::seq::axiom_seq_index_decreases;
                    assert(decreases_to!(*v => v->Object_0));
                    assert(decreases_to!(v->Object_0 => v->Object_0@));
                    assert(decreases_to!(v->Object_0@ => v->Object_0@[i as int]));
                    assert(decreases_to!(v->Object_0@[i as int] => v->Object_0@[i as int].1));
                }
                let k = members[i].0.clone();
                let c = json_copy(&members[i].1);
                let ghost old_out = out@;
                out.push((k, c));
                assert forall|j: int| 0 <= j < i + 1 implies member_views(out@)[j] == member_views(members@)[j] by {
                    if j < i {
                        assert(out@[j] == old_out[j]);
                        assert(member_views(old_out)[j] == member_views(members@).take(i as int)[j]);
                    }
                }
                i = i + 1;
                assert(member_views(out@) =~= member_views(members@).take(i as int));
            }
            assert(member_views(members@).take(members.len() as int) =~= member_views(members@));
            proof {
                lemma_object_view(out);
                lemma_object_view(*members);
            }
            JsonValue::Object(out)
        },
    }
}

impl Clone for JsonValue {
    fn clone(&self) -> (r: Self)
        ensures
            r@ == self@,
    {
        json_copy(self)
    }
}

/// The value stored under `key` in the members `m` (first match).
pub open spec fn members_get(m: Seq<(Seq<char>, Json)>, key: Seq<char>) -> Option<Json>
    decreases m.len(),
{
    if m.len() == 0 {
        None
    } else if m[0].0 == key {
        Some(m[0].1)
    } else {
        members_get(m.drop_first(), key)
    }
}

impl Json {
    /// `value.get(key)` of an object; `None` for any other value.
    pub open spec fn get(self, key: Seq<char>) -> Option<Json> {
        match self {
            Json::Object(m) => members_get(m, key),
            _ => None,
        }
    }

    pub open spec fn as_str(self) -> Option<Seq<char>> {
        match self {
            Json::Str(s) => Some(s),
            _ => None,
        }
    }

    pub open spec fn as_bool(self) -> Option<bool> {
        match self {
            Json::Bool(b) => Some(b),
            _ => None,
        }
    }

    pub open spec fn as_array(self) -> Option<Seq<Json>> {
        match self {
            Json::Array(a) => Some(a),
            _ => None,
        }
    }

    /// The keys of an object in order; empty for any other value.
    pub open spec fn keys(self) -> Seq<Seq<char>> {
        match self {
            Json::Object(m) => m.map_values(|p: (Seq<char>, Json)| p.0),
            _ => Seq::empty(),
        }
    }

    /// `value.get(key).and_then(|v| v.as_str())`.
    pub open spec fn get_str(self, key: Seq<char>) -> Option<Seq<char>> {
        match self.get(key) {
            Some(v) => v.as_str(),
            None => None,
        }
    }

    /// `value.get(key).and_then(|v| v.as_array())`.
    pub open spec fn get_array(self, key: Seq<char>) -> Option<Seq<Json>> {
        match self.get(key) {
            Some(v) => v.as_array(),
            None => None,
        }
    }

    /// `value.get(key).and_then(|v| v.as_bool())`.
    pub open spec fn get_bool(self, key: Seq<char>) -> Option<bool> {
        match self.get(key) {
            Some(v) => v.as_bool(),
            None => None,
        }
    }
}

impl JsonValue {
    pub fn is_object(&self) -> (r: bool)
        ensures
            r == (self@ is Object),
    {
        match self {
            JsonValue::Object(_) => true,
            _ => false,
        }
    }

    /// Looks `key` up in an object.
    pub fn get(&self, key: &str) -> (r: Option<&JsonValue>)
        ensures
            match r {
                Some(v) => self@.get(key@) == Some(v@),
                None => self@.get(key@) is None,
            },
    {
        match self {
            JsonValue::Object(m) => {
                proof { lemma_object_view(*m); }
                let ghost mv = member_views(m@);
                let mut i: usize = 0;
                assert(mv.skip(0) =~= mv);
                while i < m.len()
                    invariant
                        i <= m.len(),
                        mv == member_views(m@),
                        self@.get(key@) == members_get(mv, key@),
                        members_get(mv, key@) == members_get(mv.skip(i as int), key@),
                    decreases m.len() - i,
                {
                    let ghost rest = mv.skip(i as int);
                    assert(rest[0] == mv[i as int]);
                    assert(rest.drop_first() =~= mv.skip(i + 1));
                    if str_eq(m[i].0.as_str(), key) {
                        return Some(&m[i].1);
                    }
                    i = i + 1;
                }
                None
            },
            _ => None,
        }
    }

    pub fn as_str(&self) -> (r: Option<&String>)
        ensures
            match r {
                Some(s) => self@.as_str() == Some(s@),
                None => self@.as_str() is None,
            },
    {
        match self {
            JsonValue::Str(s) => Some(s),
            _ => None,
        }
    }

    pub fn as_bool(&self) -> (r: Option<bool>)
        ensures
            r == self@.as_bool(),
    {
        match self {
            JsonValue::Bool(b) => Some(*b),
            _ => None,
        }
    }

    pub fn as_array(&self) -> (r: Option<&Vec<JsonValue>>)
        ensures
            match r {
                Some(a) => self@.as_array() == Some(json_views(a@)),
                None => self@.as_array() is None,
            },
    {
        match self {
            JsonValue::Array(a) => {
                proof { lemma_array_view(*a); }
                Some(a)
            },
            _ => None,
        }
    }

    /// `value.get(key).and_then(|v| v.as_str())`, copied out.
    pub fn get_str(&self, key: &str) -> (r: Option<String>)
        ensures
            match r {
                Some(s) => self@.get_str(key@) == Some(s@),
                None => self@.get_str(key@) is None,
            },
    {
        match self.get(key) {
            Some(v) => match v.as_str() {
                Some(s) => Some(s.clone()),
                None => None,
            },
            None => None,
        }
    }

    /// `value.get(key).and_then(|v| v.as_bool())`.
    pub fn get_bool(&self, key: &str) -> (r: Option<bool>)
        ensures
            r == self@.get_bool(key@),
    {
        match self.get(key) {
            Some(v) => v.as_bool(),
            None => None,
        }
    }

    /// The keys of an object, in order; empty for any other value.
    pub fn keys(&self) -> (r: Vec<String>)
        ensures
            views(r@) == self@.keys(),
    {
        match self {
            JsonValue::Object(m) => {
                proof { lemma_object_view(*m); }
                let ghost ks = member_views(m@).map_values(|p: (Seq<char>, Json)| p.0);
                let mut out: Vec<String> = Vec::new();
                let mut i: usize = 0;
                while i < m.len()
                    invariant
                        i <= m.len(),
                        ks == member_views(m@).map_values(|p: (Seq<char>, Json)| p.0),
                        out@.len() == i,
                        views(out@) == ks.take(i as int),
                    decreases m.len() - i,
                {
                    let k = m[i].0.clone();
                    let ghost old_out = out@;
                    out.push(k);
                    assert forall|j: int| 0 <= j < i + 1 implies views(out@)[j] == ks[j] by {
                        if j < i {
                            assert(out@[j] == old_out[j]);
                            assert(views(old_out)[j] == ks.take(i as int)[j]);
                        }
                    }
                    i = i + 1;
                    assert(views(out@) =~= ks.take(i as int));
                }
                assert(ks.take(m.len() as int) =~= ks);
                out
            },
            _ => {
                let out: Vec<String> = Vec::new();
                assert(views(out@) =~= Seq::<Seq<char>>::empty());
                out
            },
        }
    }
}

/// A JSON string.
pub fn json_str(s: &str) -> (r: JsonValue)
    ensures
        r@ == Json::Str(s@),
{
    JsonValue::Str(String::from_str(s))
}

} // verus!
