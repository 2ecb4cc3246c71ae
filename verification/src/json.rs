//! A JSON value held as plain data, and the operations the recovery needs
//! on it.
//!
//! Parsing is serde_json's; what the library does with a parsed value is
//! stated here over [`JsonV`], the value's mathematical view.

use vstd::prelude::*;
use crate::text::{chars_of, string_is};

verus! {

broadcast use vstd::std_specs::vec::group_vec_axioms;

/// A JSON value. Object members are kept in order with unique keys; a number
/// is held as the text serde_json writes for it.
#[derive(Debug)]
pub enum Json {
    Null,
    Bool(bool),
    Number(String),
    Str(String),
    Array(Vec<Json>),
    Object(Vec<(String, Json)>),
}

/// The view of a [`Json`]: the same tree, with text as `Seq<char>`.
pub enum JsonV {
    Null,
    Bool(bool),
    Number(Seq<char>),
    Str(Seq<char>),
    Array(Seq<JsonV>),
    Object(Seq<(Seq<char>, JsonV)>),
}

pub open spec fn jview(j: Json) -> JsonV
    decreases j,
{
    match j {
        Json::Null => JsonV::Null,
        Json::Bool(b) => JsonV::Bool(b),
        Json::Number(n) => JsonV::Number(n@),
        Json::Str(s) => JsonV::Str(s@),
        Json::Array(v) => JsonV::Array(
            Seq::new(
                v.len() as nat,
                |i: int|
                    if 0 <= i < v.len() {
                        jview(v[i])
                    } else {
                        JsonV::Null
                    },
            ),
        ),
        Json::Object(p) => JsonV::Object(
            Seq::new(
                p.len() as nat,
                |i: int|
                    if 0 <= i < p.len() {
                        (p[i].0@, jview(p[i].1))
                    } else {
                        (Seq::empty(), JsonV::Null)
                    },
            ),
        ),
    }
}

impl View for Json {
    type V = JsonV;

    open spec fn view(&self) -> JsonV {
        jview(*self)
    }
}


#[verifier::external_type_specification]
#[verifier::external_body]
pub struct ExValue(serde_json::Value);

/// The view of a member list.
pub open spec fn pairs_view(p: Seq<(String, Json)>) -> Seq<(Seq<char>, JsonV)> {
    Seq::new(p.len() as nat, |i: int| (p[i].0@, jview(p[i].1)))
}

/// The view of an element list.
pub open spec fn elems_view(v: Seq<Json>) -> Seq<JsonV> {
    Seq::new(v.len() as nat, |i: int| jview(v[i]))
}

pub proof fn lemma_object_view(p: Vec<(String, Json)>)
    ensures
        jview(Json::Object(p)) == JsonV::Object(pairs_view(p@)),
{
    if let JsonV::Object(q) = jview(Json::Object(p)) {
        assert(q =~= pairs_view(p@));
    }
}

pub proof fn lemma_array_view(v: Vec<Json>)
    ensures
        jview(Json::Array(v)) == JsonV::Array(elems_view(v@)),
{
    if let JsonV::Array(q) = jview(Json::Array(v)) {
        assert(q =~= elems_view(v@));
    }
}

/// What serde_json parses `text` to, as a value's view, or `None` where it
/// rejects the text.
pub uninterp spec fn json_parse(text: Seq<char>) -> Option<JsonV>;

pub open spec fn opt_view(o: Option<Json>) -> Option<JsonV> {
    match o {
        Some(j) => Some(jview(j)),
        None => None,
    }
}

/// `serde_json::from_str::<serde_json::Value>` on the text `text`.
///
/// Claims only that the outcome is a fixed function, [`json_parse`], of the
/// text: the same text always parses to the same value, or always fails.
/// Nothing is claimed about which texts parse or what they parse to.
#[verifier::external_body]
pub(crate) fn parse_json(text: &[char]) -> (r: Option<Json>)
    ensures
        opt_view(r) == json_parse(text@),
{
    let text: String = text.iter().collect();
    serde_json::from_str::<serde_json::Value>(&text).ok().map(Json::from_serde)
}

impl Json {
    /// The same value as a [`Json`], one node for one node; a number keeps
    /// the text serde_json writes for it.
    #[verifier::external_body]
    fn from_serde(v: serde_json::Value) -> Json {
        match v {
            serde_json::Value::Null => Json::Null,
            serde_json::Value::Bool(b) => Json::Bool(b),
            serde_json::Value::Number(n) => Json::Number(n.to_string()),
            serde_json::Value::String(s) => Json::Str(s),
            serde_json::Value::Array(a) => Json::Array(a.into_iter().map(Json::from_serde).collect()),
            serde_json::Value::Object(m) => Json::Object(
                m.into_iter().map(|(k, v)| (k, Json::from_serde(v))).collect(),
            ),
        }
    }
}

/// A deep copy of `j`.
pub fn json_clone(j: &Json) -> (r: Json)
    ensures
        r@ == j@,
    decreases j,
{
    match j {
        Json::Null => Json::Null,
        Json::Bool(b) => Json::Bool(*b),
        Json::Number(n) => Json::Number(n.clone()),
        Json::Str(s) => Json::Str(s.clone()),
        Json::Array(v) => {
            let mut w: Vec<Json> = Vec::new();
            let mut i: usize = 0;
            while i < v.len()
                invariant
                    *j == Json::Array(*v),
                    i <= v@.len(),
                    w@.len() == i,
                    forall|k: int| 0 <= k < i ==> jview(#[trigger] w@[k]) == jview(v@[k]),
                decreases v.len() - i,
            {
                proof {
                    assert(decreases_to!(*j => (*j)->Array_0));
                    assert(decreases_to!(*v => v[i as int]));
                    assert(decreases_to!(*j => v[i as int]));
                }
                let c = json_clone(&v[i]);
                w.push(c);
                i = i + 1;
            }
            proof {
                lemma_array_view(*v);
                lemma_array_view(w);
                assert(elems_view(w@) =~= elems_view(v@));
            }
            Json::Array(w)
        },
        Json::Object(p) => {
            let mut w: Vec<(String, Json)> = Vec::new();
            let mut i: usize = 0;
            while i < p.len()
                invariant
                    *j == Json::Object(*p),
                    i <= p@.len(),
                    w@.len() == i,
                    forall|k: int|
                        0 <= k < i ==> (#[trigger] w@[k]).0@ == p@[k].0@ && jview(w@[k].1) == jview(
                            p@[k].1,
                        ),
                decreases p.len() - i,
            {
                proof {
                    assert(decreases_to!(*j => (*j)->Object_0));
                    assert(decreases_to!(*p => p[i as int]));
                    assert(decreases_to!(p[i as int] => p[i as int].1));
                    assert(decreases_to!(*j => p[i as int].1));
                }
                let c = json_clone(&p[i].1);
                w.push((p[i].0.clone(), c));
                i = i + 1;
            }
            proof {
                lemma_object_view(*p);
                lemma_object_view(w);
                assert(pairs_view(w@) =~= pairs_view(p@));
            }
            Json::Object(w)
        },
    }
}


/// The index of the first member keyed `key`, searching from `i`.
pub open spec fn key_index_from(p: Seq<(Seq<char>, JsonV)>, key: Seq<char>, i: int) -> Option<int>
    decreases p.len() - i,
{
    if i < 0 || i >= p.len() {
        None
    } else if p[i].0 == key {
        Some(i)
    } else {
        key_index_from(p, key, i + 1)
    }
}

pub open spec fn key_index(p: Seq<(Seq<char>, JsonV)>, key: Seq<char>) -> Option<int> {
    key_index_from(p, key, 0)
}

pub proof fn lemma_key_index_from(p: Seq<(Seq<char>, JsonV)>, key: Seq<char>, i: int)
    requires
        0 <= i,
    ensures
        key_index_from(p, key, i) matches Some(k) ==> i <= k < p.len() && p[k].0 == key
            && forall|m: int| i <= m < k ==> p[m].0 != key,
        key_index_from(p, key, i) is None ==> forall|m: int| i <= m < p.len() ==> p[m].0 != key,
    decreases p.len() - i,
{
    if i < p.len() && p[i].0 != key {
        lemma_key_index_from(p, key, i + 1);
    }
}

/// The value of the member keyed `key`.
pub open spec fn obj_get(p: Seq<(Seq<char>, JsonV)>, key: Seq<char>) -> Option<JsonV> {
    match key_index(p, key) {
        Some(i) => Some(p[i].1),
        None => None,
    }
}

/// `p` with `key` set to `v`: replaced in place when present, appended when not.
pub open spec fn obj_insert(p: Seq<(Seq<char>, JsonV)>, key: Seq<char>, v: JsonV) -> Seq<
    (Seq<char>, JsonV),
> {
    match key_index(p, key) {
        Some(i) => p.update(i, (key, v)),
        None => p.push((key, v)),
    }
}

/// `p` with `key` set to `v` only when absent.
pub open spec fn obj_or_insert(p: Seq<(Seq<char>, JsonV)>, key: Seq<char>, v: JsonV) -> Seq<
    (Seq<char>, JsonV),
> {
    match key_index(p, key) {
        Some(_) => p,
        None => p.push((key, v)),
    }
}

/// The member `key` of `j` when `j` is an object.
pub open spec fn get_member(j: JsonV, key: Seq<char>) -> Option<JsonV> {
    match j {
        JsonV::Object(p) => obj_get(p, key),
        _ => None,
    }
}

pub open spec fn opt_ref_view(o: Option<&Json>) -> Option<JsonV> {
    match o {
        Some(j) => Some(jview(*j)),
        None => None,
    }
}

/// The index of the member keyed `key` in `p`.
pub fn key_position(p: &Vec<(String, Json)>, key: &[char]) -> (r: Option<usize>)
    ensures
        r matches Some(i) ==> i < p@.len() && key_index(pairs_view(p@), key@) == Some(i as int),
        r is None ==> key_index(pairs_view(p@), key@) is None,
{
    let ghost pv = pairs_view(p@);
    proof {
        lemma_key_index_from(pv, key@, 0);
    }
    let mut i: usize = 0;
    while i < p.len()
        invariant
            i <= p@.len(),
            pv == pairs_view(p@),
            key_index(pv, key@) == key_index_from(pv, key@, i as int),
        decreases p.len() - i,
    {
        if string_is(&p[i].0, key) {
            return Some(i);
        }
        i = i + 1;
    }
    None
}

/// The member `key` of `j`, when `j` is an object carrying one.
pub fn member<'a>(j: &'a Json, key: &[char]) -> (r: Option<&'a Json>)
    ensures
        opt_ref_view(r) == get_member(jview(*j), key@),
{
    match j {
        Json::Object(p) => {
            proof {
                lemma_object_view(*p);
            }
            match key_position(p, key) {
                Some(i) => {
                    assert(pairs_view(p@)[i as int].1 == jview(p@[i as int].1));
                    Some(&p[i].1)
                },
                None => None,
            }
        },
        _ => None,
    }
}

/// Sets `key` to `v` in the member list `p`.
pub fn insert_member(p: &mut Vec<(String, Json)>, key: String, v: Json)
    ensures
        pairs_view(final(p)@) == obj_insert(pairs_view(old(p)@), key@, jview(v)),
{
    let kc = chars_of(key.as_str());
    match key_position(p, &kc) {
        Some(i) => {
            let ghost v0 = jview(v);
            let ghost k0 = key@;
            p.set(i, (key, v));
            assert(pairs_view(p@) =~= pairs_view(old(p)@).update(i as int, (k0, v0)));
        },
        None => {
            p.push((key, v));
            assert(pairs_view(p@) =~= pairs_view(old(p)@).push((kc@, jview(v))));
        },
    }
}

/// Sets `key` to `v` in the member list `p` unless `key` is already there.
pub fn or_insert_member(p: &mut Vec<(String, Json)>, key: String, v: Json)
    ensures
        pairs_view(final(p)@) == obj_or_insert(pairs_view(old(p)@), key@, jview(v)),
{
    let kc = chars_of(key.as_str());
    match key_position(p, &kc) {
        Some(_) => {},
        None => {
            p.push((key, v));
            assert(pairs_view(p@) =~= pairs_view(old(p)@).push((kc@, jview(v))));
        },
    }
}

} // verus!
