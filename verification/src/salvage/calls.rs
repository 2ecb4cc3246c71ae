//! Reading one parsed JSON value as a call to a known tool.

use vstd::prelude::*;
use crate::json::{
    Json, JsonV, get_member, json_clone, json_parse, jview, key_position, lemma_object_view,
    member, obj_get, opt_ref_view, pairs_view, parse_json, key_index,
};
use crate::salvage::words::{
    w_args, w_args_chars, w_arguments, w_arguments_chars, w_call, w_call_chars, w_function, w_function_chars, w_function_name, w_function_name_chars, w_id, w_id_chars, w_index, w_index_chars, w_input, w_input_chars, w_name, w_name_chars, w_parameters, w_parameters_chars, w_params, w_params_chars, w_tool, w_tool_chars, w_tool_name, w_tool_name_chars, w_type, w_type_chars,
};
use crate::text::{chars_of, push_range, string_is, string_of, trim, trim_range};

verus! {

/// The keys a tool's name may sit under; consulted once the object is
/// known to be meant as a call.
pub open spec fn name_keys() -> Seq<Seq<char>> {
    seq![w_name(), w_call(), w_tool(), w_tool_name(), w_function_name()]
}

/// The keys whose presence alone marks an object as a request to run the
/// tool it names.
pub open spec fn call_name_keys() -> Seq<Seq<char>> {
    seq![w_call(), w_tool(), w_tool_name(), w_function_name()]
}

/// Keys that may carry the arguments, in priority order.
pub open spec fn arg_keys() -> Seq<Seq<char>> {
    seq![w_arguments(), w_args(), w_parameters(), w_params(), w_input()]
}

/// Keys allowed beside the name on a no-argument call.
pub open spec fn bare_call_allowed_keys() -> Seq<Seq<char>> {
    seq![w_id(), w_type(), w_index()]
}

pub open spec fn seqs_view(v: Seq<Vec<char>>) -> Seq<Seq<char>> {
    Seq::new(v.len(), |k: int| v[k]@)
}

pub open spec fn strings_view(v: Seq<String>) -> Seq<Seq<char>> {
    Seq::new(v.len(), |k: int| v[k]@)
}

fn name_keys_exec() -> (r: Vec<Vec<char>>)
    ensures
        seqs_view(r@) == name_keys(),
{
    let r = vec![w_name_chars(), w_call_chars(), w_tool_chars(), w_tool_name_chars(), w_function_name_chars()];
    assert(seqs_view(r@) =~= name_keys());
    r
}

fn call_name_keys_exec() -> (r: Vec<Vec<char>>)
    ensures
        seqs_view(r@) == call_name_keys(),
{
    let r = vec![w_call_chars(), w_tool_chars(), w_tool_name_chars(), w_function_name_chars()];
    assert(seqs_view(r@) =~= call_name_keys());
    r
}

fn arg_keys_exec() -> (r: Vec<Vec<char>>)
    ensures
        seqs_view(r@) == arg_keys(),
{
    let r = vec![w_arguments_chars(), w_args_chars(), w_parameters_chars(), w_params_chars(), w_input_chars()];
    assert(seqs_view(r@) =~= arg_keys());
    r
}

fn bare_call_allowed_keys_exec() -> (r: Vec<Vec<char>>)
    ensures
        seqs_view(r@) == bare_call_allowed_keys(),
{
    let r = vec![w_id_chars(), w_type_chars(), w_index_chars()];
    assert(seqs_view(r@) =~= bare_call_allowed_keys());
    r
}

/// The first of `keys`, from the `k`th on, whose member is a string; that
/// string trimmed, when it is not blank.
pub open spec fn first_str_go(p: Seq<(Seq<char>, JsonV)>, keys: Seq<Seq<char>>, k: int) -> Option<
    Seq<char>,
>
    decreases keys.len() - k,
{
    if k < 0 || k >= keys.len() {
        None
    } else {
        match obj_get(p, keys[k]) {
            Some(JsonV::Str(s)) => if trim(s).len() > 0 {
                Some(trim(s))
            } else {
                None
            },
            _ => first_str_go(p, keys, k + 1),
        }
    }
}

pub open spec fn first_str_spec(p: Seq<(Seq<char>, JsonV)>, keys: Seq<Seq<char>>) -> Option<Seq<char>> {
    first_str_go(p, keys, 0)
}

/// The first present key of `keys` whose value is a string, trimmed, when
/// that is not blank.
pub fn first_str(p: &Vec<(String, Json)>, keys: &Vec<Vec<char>>) -> (r: Option<Vec<char>>)
    ensures
        match r {
            Some(v) => first_str_spec(pairs_view(p@), seqs_view(keys@)) == Some(v@),
            None => first_str_spec(pairs_view(p@), seqs_view(keys@)) is None,
        },
{
    let ghost pv = pairs_view(p@);
    let ghost ks = seqs_view(keys@);
    let mut k: usize = 0;
    while k < keys.len()
        invariant
            k <= keys@.len(),
            pv == pairs_view(p@),
            ks == seqs_view(keys@),
            first_str_spec(pv, ks) == first_str_go(pv, ks, k as int),
        decreases keys.len() - k,
    {
        assert(keys@[k as int]@ == ks[k as int]);
        match key_position(p, keys[k].as_slice()) {
            Some(i) => {
                match &p[i].1 {
                    Json::Str(s) => {
                        let c = chars_of(s.as_str());
                        let (a, b) = trim_range(c.as_slice(), 0, c.len());
                        assert(c@.subrange(0, c@.len() as int) =~= c@);
                        if a == b {
                            return None;
                        }
                        let mut out: Vec<char> = Vec::new();
                        push_range(&mut out, c.as_slice(), a, b);
                        assert(out@ =~= c@.subrange(a as int, b as int));
                        return Some(out);
                    },
                    _ => {},
                }
            },
            None => {},
        }
        k = k + 1;
    }
    None
}

/// What an object's argument key resolved to.
pub enum ArgumentsV {
    /// No argument key is present.
    Missing,
    /// An argument key is there, but its value is not (and does not parse
    /// to) an object.
    Unusable,
    /// A key is present and resolved to this object.
    Object(JsonV),
}

pub enum Arguments {
    Missing,
    Unusable,
    Object(Json),
}

pub open spec fn arguments_view(a: Arguments) -> ArgumentsV {
    match a {
        Arguments::Missing => ArgumentsV::Missing,
        Arguments::Unusable => ArgumentsV::Unusable,
        Arguments::Object(j) => ArgumentsV::Object(jview(j)),
    }
}

/// The value of the first of `keys`, from the `k`th on, that is present.
pub open spec fn first_present(p: Seq<(Seq<char>, JsonV)>, keys: Seq<Seq<char>>, k: int) -> Option<JsonV>
    decreases keys.len() - k,
{
    if k < 0 || k >= keys.len() {
        None
    } else {
        match obj_get(p, keys[k]) {
            Some(v) => Some(v),
            None => first_present(p, keys, k + 1),
        }
    }
}

/// The first present argument key, resolved; a stringified object counts as
/// the object.
pub open spec fn resolve_args_spec(p: Seq<(Seq<char>, JsonV)>) -> ArgumentsV {
    match first_present(p, arg_keys(), 0) {
        None => ArgumentsV::Missing,
        Some(JsonV::Object(q)) => ArgumentsV::Object(JsonV::Object(q)),
        Some(JsonV::Str(text)) => match json_parse(text) {
            Some(JsonV::Object(q)) => ArgumentsV::Object(JsonV::Object(q)),
            _ => ArgumentsV::Unusable,
        },
        Some(_) => ArgumentsV::Unusable,
    }
}

/// Resolve the first present argument key, tolerating the stringified form
/// providers put on the wire.
pub fn resolve_args(p: &Vec<(String, Json)>) -> (r: Arguments)
    ensures
        arguments_view(r) == resolve_args_spec(pairs_view(p@)),
{
    let keys = arg_keys_exec();
    let ghost pv = pairs_view(p@);
    let ghost ks = seqs_view(keys@);
    let mut k: usize = 0;
    while k < keys.len()
        invariant
            k <= keys@.len(),
            pv == pairs_view(p@),
            ks == seqs_view(keys@),
            ks == arg_keys(),
            first_present(pv, ks, 0) == first_present(pv, ks, k as int),
        decreases keys.len() - k,
    {
        assert(keys@[k as int]@ == ks[k as int]);
        match key_position(p, keys[k].as_slice()) {
            Some(i) => {
                let raw = &p[i].1;
                assert(first_present(pv, ks, 0) == Some(jview(*raw)));
                match raw {
                    Json::Object(_) => {
                        return Arguments::Object(json_clone(raw));
                    },
                    Json::Str(text) => {
                        let c = chars_of(text.as_str());
                        match parse_json(c.as_slice()) {
                            Some(v) => match v {
                                Json::Object(_) => {
                                    return Arguments::Object(v);
                                },
                                _ => {
                                    return Arguments::Unusable;
                                },
                            },
                            None => {
                                return Arguments::Unusable;
                            },
                        }
                    },
                    _ => {
                        return Arguments::Unusable;
                    },
                }
            },
            None => {},
        }
        k = k + 1;
    }
    Arguments::Missing
}

fn in_keys(keys: &Vec<Vec<char>>, key: &[char]) -> (r: bool)
    ensures
        r == seqs_view(keys@).contains(key@),
{
    let ghost ks = seqs_view(keys@);
    let mut k: usize = 0;
    while k < keys.len()
        invariant
            k <= keys@.len(),
            ks == seqs_view(keys@),
            forall|q: int| 0 <= q < k ==> ks[q] != key@,
        decreases keys.len() - k,
    {
        if crate::text::chars_eq(keys[k].as_slice(), key) {
            assert(ks[k as int] == key@);
            return true;
        }
        k = k + 1;
    }
    false
}

/// Whether every member of `p` is a name key or an incidental key that a
/// model stamps on a no-argument call.
pub open spec fn is_bare_call_spec(p: Seq<(Seq<char>, JsonV)>) -> bool {
    forall|i: int|
        0 <= i < p.len() ==> name_keys().contains(#[trigger] p[i].0) || bare_call_allowed_keys().contains(
            p[i].0,
        )
}

pub fn is_bare_call(p: &Vec<(String, Json)>) -> (r: bool)
    ensures
        r == is_bare_call_spec(pairs_view(p@)),
{
    let nk = name_keys_exec();
    let ak = bare_call_allowed_keys_exec();
    let ghost pv = pairs_view(p@);
    let mut i: usize = 0;
    while i < p.len()
        invariant
            i <= p@.len(),
            pv == pairs_view(p@),
            seqs_view(nk@) == name_keys(),
            seqs_view(ak@) == bare_call_allowed_keys(),
            forall|q: int|
                0 <= q < i ==> name_keys().contains(#[trigger] pv[q].0) || bare_call_allowed_keys().contains(
                    pv[q].0,
                ),
        decreases p.len() - i,
    {
        let c = chars_of(p[i].0.as_str());
        if !(in_keys(&nk, c.as_slice()) || in_keys(&ak, c.as_slice())) {
            assert(!(name_keys().contains(pv[i as int].0) || bare_call_allowed_keys().contains(pv[i as int].0)));
            return false;
        }
        i = i + 1;
    }
    true
}

/// A parsed value read as a call to one of `known`: the resolved name and
/// arguments, or `None` for anything that is not unambiguously a call.
///
/// A `function`-keyed object is read directly and may carry no arguments. A
/// bare object must name a known tool, and either name it with a call-family
/// key or stand behind a marker (`marked`); its arguments must resolve to an
/// object, or be absent on an object that carries nothing but the name and
/// incidental keys.
pub open spec fn as_known_call_spec(v: JsonV, known: Seq<Seq<char>>, marked: bool) -> Option<
    (Seq<char>, JsonV),
> {
    match get_member(v, w_function()) {
        Some(JsonV::Object(fp)) => match first_str_spec(fp, name_keys()) {
            None => None,
            Some(name) => if !known.contains(name) {
                None
            } else {
                match resolve_args_spec(fp) {
                    ArgumentsV::Object(a) => Some((name, a)),
                    ArgumentsV::Missing => Some((name, JsonV::Object(Seq::empty()))),
                    ArgumentsV::Unusable => None,
                }
            },
        },
        _ => match v {
            JsonV::Object(p) => match first_str_spec(p, name_keys()) {
                None => None,
                Some(name) => if !known.contains(name) {
                    None
                } else if first_str_spec(p, call_name_keys()) is None && !marked {
                    None
                } else {
                    match resolve_args_spec(p) {
                        ArgumentsV::Object(a) => Some((name, a)),
                        ArgumentsV::Missing => if is_bare_call_spec(p) {
                            Some((name, JsonV::Object(Seq::empty())))
                        } else {
                            None
                        },
                        ArgumentsV::Unusable => None,
                    }
                },
            },
            _ => None,
        },
    }
}

pub fn known_contains(known: &[String], name: &[char]) -> (r: bool)
    ensures
        r == strings_view(known@).contains(name@),
{
    let ghost ks = strings_view(known@);
    let mut k: usize = 0;
    while k < known.len()
        invariant
            k <= known@.len(),
            ks == strings_view(known@),
            forall|q: int| 0 <= q < k ==> ks[q] != name@,
        decreases known.len() - k,
    {
        if string_is(&known[k], name) {
            assert(ks[k as int] == name@);
            return true;
        }
        k = k + 1;
    }
    false
}

pub open spec fn call_view(c: Option<(Vec<char>, Json)>) -> Option<(Seq<char>, JsonV)> {
    match c {
        Some((n, a)) => Some((n@, jview(a))),
        None => None,
    }
}

/// Read a parsed value as a call to one of `known`, when it is one.
pub fn as_known_call(v: &Json, known: &Vec<String>, marked: bool) -> (r: Option<(Vec<char>, Json)>)
    ensures
        call_view(r) == as_known_call_spec(jview(*v), strings_view(known@), marked),
        r matches Some((n, a)) ==> strings_view(known@).contains(n@) && jview(a) is Object,
{
    let nk = name_keys_exec();
    let fw = w_function_chars();
    let ghost ks = strings_view(known@);
    match member(v, fw.as_slice()) {
        Some(f) => match f {
            Json::Object(fp) => {
                proof {
                    lemma_object_view(*fp);
                }
                let name = match first_str(fp, &nk) {
                    None => return None,
                    Some(name) => name,
                };
                if !known_contains(known, name.as_slice()) {
                    return None;
                }
                return match resolve_args(fp) {
                    Arguments::Object(a) => Some((name, a)),
                    Arguments::Missing => {
                        let ev: Vec<(String, Json)> = Vec::new();
                        proof {
                            lemma_object_view(ev);
                            assert(pairs_view(ev@) =~= Seq::empty());
                        }
                        let e = Json::Object(ev);
                        Some((name, e))
                    },
                    Arguments::Unusable => None,
                };
            },
            _ => {},
        },
        None => {},
    }
    match v {
        Json::Object(p) => {
            proof {
                lemma_object_view(*p);
            }
            let name = match first_str(p, &nk) {
                None => return None,
                Some(name) => name,
            };
            if !known_contains(known, name.as_slice()) {
                return None;
            }
            let ck = call_name_keys_exec();
            let says = match first_str(p, &ck) {
                Some(_) => true,
                None => false,
            };
            if !says && !marked {
                return None;
            }
            match resolve_args(p) {
                Arguments::Object(a) => Some((name, a)),
                Arguments::Missing => {
                    if is_bare_call(p) {
                        let ev: Vec<(String, Json)> = Vec::new();
                        proof {
                            lemma_object_view(ev);
                            assert(pairs_view(ev@) =~= Seq::empty());
                        }
                        let e = Json::Object(ev);
                        Some((name, e))
                    } else {
                        None
                    }
                },
                Arguments::Unusable => None,
            }
        },
        _ => None,
    }
}

} // verus!
