//! The recoveries under consideration in a reply: JSON objects that read as
//! calls, `<invoke>` markup calls, and elements named after a tool.

use vstd::prelude::*;
use crate::json::{
    Json, JsonV, insert_member, json_clone, json_parse, jview, key_index, key_position, lemma_object_view,
    obj_get, obj_insert, obj_or_insert, opt_ref_view, or_insert_member, pairs_view, parse_json,
};
use crate::salvage::attrs::{
    attr, attr_args_spec, attr_spec, attrs_as_arguments, children_as_arguments, children_spec,
    parameter_value, parameter_value_spec,
};
use crate::salvage::calls::{
    as_known_call, as_known_call_spec, call_view, known_contains, strings_view,
};
use crate::salvage::marker::{marker_start_in, marker_start_of};
use crate::salvage::schema::{declared_type, schema_declared_type};
use crate::salvage::spans::{object_spans_in, object_spans};
use crate::salvage::tags::{find_tag_in, find_tag_spec, tag_ok, tag_view, Tag};
use crate::salvage::words::{
    w_invoke, w_invoke_chars, w_name, w_name_chars, w_parameter, w_parameter_chars,
};
use crate::order::{chars_seqs, sort_names, sorted_names};
use crate::salvage::offsets::{byte_at, byte_table, fits};
use crate::text::{back_ws, chars_of, is_ws, push_all, push_range, string_of, ws_start};

verus! {

broadcast use vstd::std_specs::vec::group_vec_axioms;

/// One recovery under consideration: the characters `start..end` it would
/// remove, and the call they would become.
pub struct Candidate {
    pub start: usize,
    pub end: usize,
    pub name: Vec<char>,
    pub arguments: Json,
}

/// A candidate as plain values: `(start, end, name, arguments)`.
pub type CandV = (int, int, Seq<char>, JsonV);

pub open spec fn cand_view(c: Candidate) -> CandV {
    (c.start as int, c.end as int, c.name@, jview(c.arguments))
}

pub open spec fn cands_view(v: Seq<Candidate>) -> Seq<CandV> {
    Seq::new(v.len(), |k: int| cand_view(v[k]))
}

/// Every candidate lies within a text of length `len`, start before end.
pub open spec fn cands_within(c: Seq<CandV>, len: int) -> bool {
    forall|k: int| 0 <= k < c.len() ==> 0 <= (#[trigger] c[k]).0 <= c[k].1 <= len
}

// ---------------------------------------------------------------- <parameter>

/// The `<parameter name="…">…</parameter>` children of a call body `b`,
/// from `from` on, added to `acc`; `None` once one is left unclosed.
pub open spec fn tag_args_go(
    b: Seq<char>,
    schema: Option<JsonV>,
    from: int,
    acc: Seq<(Seq<char>, JsonV)>,
) -> Option<Seq<(Seq<char>, JsonV)>>
    decreases b.len() - from,
{
    match find_tag_spec(b, from, w_parameter(), false) {
        None => Some(acc),
        Some(open) => match find_tag_spec(b, open.1, w_parameter(), true) {
            None => None,
            Some(close) => {
                let acc2 = match attr_spec(b, open.2, open.3, w_name()) {
                    None => acc,
                    Some(n) => obj_insert(
                        acc,
                        n,
                        parameter_value_spec(b, open.1, close.0, open.2, open.3, declared_type(schema, n)),
                    ),
                };
                if from < close.1 <= b.len() {
                    tag_args_go(b, schema, close.1, acc2)
                } else {
                    Some(acc2)
                }
            },
        },
    }
}

/// A call body's parameters as its arguments object, or `None` when one of
/// them is left unclosed.
pub open spec fn tag_args(b: Seq<char>, schema: Option<JsonV>) -> Option<Seq<(Seq<char>, JsonV)>> {
    tag_args_go(b, schema, 0, Seq::empty())
}

pub open spec fn opt_pairs_view(r: Option<Vec<(String, Json)>>) -> Option<Seq<(Seq<char>, JsonV)>> {
    match r {
        Some(p) => Some(pairs_view(p@)),
        None => None,
    }
}

/// The arguments a markup call's body `b` spells out as `<parameter>`
/// elements; `None` when one of them never closes. `schema`, the tool's
/// argument schema when there is one, decides how each body is typed.
pub fn tag_call_arguments(b: &[char], schema: Option<&Json>) -> (r: Option<Vec<(String, Json)>>)
    ensures
        opt_pairs_view(r) == tag_args(b@, opt_ref_view(schema)),
{
    let pw = w_parameter_chars();
    let nw = w_name_chars();
    let ghost sv = opt_ref_view(schema);
    let mut args: Vec<(String, Json)> = Vec::new();
    assert(pairs_view(args@) =~= Seq::<(Seq<char>, JsonV)>::empty());
    let mut from: usize = 0;
    loop
        invariant
            from <= b@.len(),
            pw@ == w_parameter(),
            nw@ == w_name(),
            sv == opt_ref_view(schema),
            tag_args(b@, sv) == tag_args_go(b@, sv, from as int, pairs_view(args@)),
        decreases b@.len() - from,
    {
        let open = match find_tag_in(b, from, pw.as_slice(), false) {
            None => return Some(args),
            Some(g) => g,
        };
        let close = match find_tag_in(b, open.after, pw.as_slice(), true) {
            None => return None,
            Some(g) => g,
        };
        match attr(b, open.attrs_lo, open.attrs_hi, nw.as_slice()) {
            None => {},
            Some(n) => {
                let dt = schema_declared_type(schema, n.as_slice());
                let v = match &dt {
                    Some(d) => parameter_value(
                        b,
                        open.after,
                        close.start,
                        open.attrs_lo,
                        open.attrs_hi,
                        Some(d),
                    ),
                    None => parameter_value(
                        b,
                        open.after,
                        close.start,
                        open.attrs_lo,
                        open.attrs_hi,
                        None,
                    ),
                };
                insert_member(&mut args, string_of(n.as_slice()), v);
            },
        }
        from = close.after;
    }
}

// ------------------------------------------------------------------- <invoke>

/// The `<invoke name="…">…</invoke>` calls to a tool in `known`, from `from`
/// on, appended to `acc`.
pub open spec fn tag_calls_go(
    t: Seq<char>,
    known: Seq<Seq<char>>,
    schemas: Seq<(Seq<char>, JsonV)>,
    from: int,
    acc: Seq<CandV>,
) -> Seq<CandV>
    decreases t.len() - from,
{
    match find_tag_spec(t, from, w_invoke(), false) {
        None => acc,
        Some(open) => match find_tag_spec(t, open.1, w_invoke(), true) {
            None => acc,
            Some(close) => {
                let acc2 = match attr_spec(t, open.2, open.3, w_name()) {
                    Some(n) => if known.contains(n) {
                        match tag_args(t.subrange(open.1, close.0), obj_get(schemas, n)) {
                            Some(a) => acc.push((open.0, close.1, n, JsonV::Object(a))),
                            None => acc,
                        }
                    } else {
                        acc
                    },
                    None => acc,
                };
                if from < close.1 <= t.len() {
                    tag_calls_go(t, known, schemas, close.1, acc2)
                } else {
                    acc2
                }
            },
        },
    }
}

/// The markup calls `<invoke name="…">…</invoke>` in `t`, plain or with a
/// dialect's marker, that name a tool of `known`, in order.
pub open spec fn tag_calls(t: Seq<char>, known: Seq<Seq<char>>, schemas: Seq<(Seq<char>, JsonV)>) -> Seq<
    CandV,
> {
    tag_calls_go(t, known, schemas, 0, Seq::empty())
}

/// The schema `schemas` holds for `name`.
fn schema_of<'a>(schemas: &'a Vec<(String, Json)>, name: &[char]) -> (r: Option<&'a Json>)
    ensures
        opt_ref_view(r) == obj_get(pairs_view(schemas@), name@),
{
    match key_position(schemas, name) {
        Some(i) => {
            assert(pairs_view(schemas@)[i as int].1 == jview(schemas@[i as int].1));
            Some(&schemas[i].1)
        },
        None => None,
    }
}

fn copy_range(t: &[char], lo: usize, hi: usize) -> (r: Vec<char>)
    requires
        lo <= hi <= t@.len(),
    ensures
        r@ == t@.subrange(lo as int, hi as int),
{
    let mut r: Vec<char> = Vec::new();
    push_range(&mut r, t, lo, hi);
    assert(r@ =~= t@.subrange(lo as int, hi as int));
    r
}

/// Every `<invoke name="…">…</invoke>` call to a tool in `known` in `t`.
pub fn tag_candidates_in(t: &[char], known: &Vec<String>, schemas: &Vec<(String, Json)>) -> (r: Vec<
    Candidate,
>)
    ensures
        cands_view(r@) == tag_calls(t@, strings_view(known@), pairs_view(schemas@)),
        cands_within(cands_view(r@), t@.len() as int),
{
    let iw = w_invoke_chars();
    let nw = w_name_chars();
    let ghost ks = strings_view(known@);
    let ghost ss = pairs_view(schemas@);
    let mut found: Vec<Candidate> = Vec::new();
    assert(cands_view(found@) =~= Seq::<CandV>::empty());
    let mut from: usize = 0;
    loop
        invariant
            from <= t@.len(),
            iw@ == w_invoke(),
            nw@ == w_name(),
            ks == strings_view(known@),
            ss == pairs_view(schemas@),
            tag_calls(t@, ks, ss) == tag_calls_go(t@, ks, ss, from as int, cands_view(found@)),
            cands_within(cands_view(found@), t@.len() as int),
        decreases t@.len() - from,
    {
        let open = match find_tag_in(t, from, iw.as_slice(), false) {
            None => return found,
            Some(g) => g,
        };
        let close = match find_tag_in(t, open.after, iw.as_slice(), true) {
            None => return found,
            Some(g) => g,
        };
        match attr(t, open.attrs_lo, open.attrs_hi, nw.as_slice()) {
            None => {},
            Some(n) => {
                if known_contains(known, n.as_slice()) {
                    let body = copy_range(t, open.after, close.start);
                    let schema = schema_of(schemas, n.as_slice());
                    match tag_call_arguments(body.as_slice(), schema) {
                        Some(a) => {
                            proof {
                                lemma_object_view(a);
                            }
                            let ghost before = cands_view(found@);
                            let c = Candidate {
                                start: open.start,
                                end: close.after,
                                name: n,
                                arguments: Json::Object(a),
                            };
                            let ghost cv = cand_view(c);
                            found.push(c);
                            assert(cands_view(found@) =~= before.push(cv));
                        },
                        None => {},
                    }
                }
            },
        }
        from = close.after;
    }
}

// ------------------------------------------------------- <tool_name …/> elements

/// Whether the attribute run `lo..hi`, right-trimmed, ends in `/`.
pub open spec fn self_closing(t: Seq<char>, lo: int, hi: int) -> bool {
    let e = ws_start(t, lo, hi);
    e > lo && t[e - 1] == '/'
}

/// `p` with each member of `q`, from `k` on, added where its key is absent.
pub open spec fn merge_missing(p: Seq<(Seq<char>, JsonV)>, q: Seq<(Seq<char>, JsonV)>, k: int) -> Seq<
    (Seq<char>, JsonV),
>
    decreases q.len() - k,
{
    if k < 0 || k >= q.len() {
        p
    } else {
        merge_missing(obj_or_insert(p, q[k].0, q[k].1), q, k + 1)
    }
}

/// An element's arguments: its attributes `alo..ahi`, then the `key=value`
/// pairs of its body `blo..bhi`, then the body's child elements, each
/// spelling adding only keys the earlier ones lack.
pub open spec fn element_args(t: Seq<char>, alo: int, ahi: int, blo: int, bhi: int) -> Seq<
    (Seq<char>, JsonV),
> {
    merge_missing(
        merge_missing(attr_args_spec(t, alo, ahi), attr_args_spec(t, blo, bhi), 0),
        children_spec(t, blo, bhi),
        0,
    )
}

/// The elements named `name` that are calls, from `from` on, appended to
/// `acc`.
pub open spec fn elements_go(t: Seq<char>, name: Seq<char>, from: int, acc: Seq<CandV>) -> Seq<CandV>
    decreases t.len() - from,
{
    match find_tag_spec(t, from, name, false) {
        None => acc,
        Some(open) => {
            let acc2 = if self_closing(t, open.2, open.3) {
                acc.push(
                    (open.0, open.1, name, JsonV::Object(element_args(t, open.2, open.3, open.1, open.1))),
                )
            } else {
                match find_tag_spec(t, open.1, name, true) {
                    None => acc,
                    Some(close) => acc.push(
                        (
                            open.0,
                            close.1,
                            name,
                            JsonV::Object(element_args(t, open.2, open.3, open.1, close.0)),
                        ),
                    ),
                }
            };
            if from < open.1 <= t.len() {
                elements_go(t, name, open.1, acc2)
            } else {
                acc2
            }
        },
    }
}

/// The element calls for each name of `known` from the `q`-th on, in order.
pub open spec fn elements_all(t: Seq<char>, known: Seq<Seq<char>>, q: int, acc: Seq<CandV>) -> Seq<CandV>
    decreases known.len() - q,
{
    if q < 0 || q >= known.len() {
        acc
    } else {
        elements_all(t, known, q + 1, elements_go(t, known[q], 0, acc))
    }
}

/// Every `<tool_name …/>` (or `<tool_name …>…</tool_name>`) call in `t`,
/// where the element itself is the tool.
pub open spec fn element_calls(t: Seq<char>, known: Seq<Seq<char>>) -> Seq<CandV> {
    elements_all(t, known, 0, Seq::empty())
}

fn merge_missing_exec(p: &mut Vec<(String, Json)>, q: &Vec<(String, Json)>)
    ensures
        pairs_view(final(p)@) == merge_missing(pairs_view(old(p)@), pairs_view(q@), 0),
{
    let ghost qv = pairs_view(q@);
    let mut k: usize = 0;
    while k < q.len()
        invariant
            k <= q@.len(),
            qv == pairs_view(q@),
            merge_missing(pairs_view(old(p)@), qv, 0) == merge_missing(pairs_view(p@), qv, k as int),
        decreases q.len() - k,
    {
        let key = q[k].0.clone();
        let v = json_clone(&q[k].1);
        or_insert_member(p, key, v);
        k = k + 1;
    }
}

/// An element's arguments, read from its attributes and its body.
fn element_arguments(t: &[char], alo: usize, ahi: usize, blo: usize, bhi: usize) -> (r: Vec<
    (String, Json),
>)
    requires
        alo <= ahi <= t@.len(),
        blo <= bhi <= t@.len(),
    ensures
        pairs_view(r@) == element_args(t@, alo as int, ahi as int, blo as int, bhi as int),
{
    let mut args = attrs_as_arguments(t, alo, ahi);
    let from_body = attrs_as_arguments(t, blo, bhi);
    merge_missing_exec(&mut args, &from_body);
    let children = children_as_arguments(t, blo, bhi);
    merge_missing_exec(&mut args, &children);
    args
}

fn ends_in_slash(t: &[char], lo: usize, hi: usize) -> (r: bool)
    requires
        lo <= hi <= t@.len(),
    ensures
        r == self_closing(t@, lo as int, hi as int),
{
    let e = back_ws(t, lo, hi);
    e > lo && t[e - 1] == '/'
}

fn push_candidate(found: &mut Vec<Candidate>, c: Candidate)
    ensures
        cands_view(final(found)@) == cands_view(old(found)@).push(cand_view(c)),
{
    let ghost cv = cand_view(c);
    found.push(c);
    assert(cands_view(found@) =~= cands_view(old(found)@).push(cv));
}

/// The elements named `name` in `t` that are calls, appended to `found`.
fn element_candidates_of(t: &[char], name: &[char], found: &mut Vec<Candidate>)
    requires
        cands_within(cands_view(old(found)@), t@.len() as int),
    ensures
        cands_view(final(found)@) == elements_go(t@, name@, 0, cands_view(old(found)@)),
        cands_within(cands_view(final(found)@), t@.len() as int),
{
    let mut from: usize = 0;
    loop
        invariant
            from <= t@.len(),
            elements_go(t@, name@, 0, cands_view(old(found)@)) == elements_go(
                t@,
                name@,
                from as int,
                cands_view(found@),
            ),
            cands_within(cands_view(found@), t@.len() as int),
        decreases t@.len() - from,
    {
        let open = match find_tag_in(t, from, name, false) {
            None => return,
            Some(g) => g,
        };
        if ends_in_slash(t, open.attrs_lo, open.attrs_hi) {
            let a = element_arguments(t, open.attrs_lo, open.attrs_hi, open.after, open.after);
            proof {
                lemma_object_view(a);
            }
            let nm = copy_range(name, 0, name.len());
            assert(name@.subrange(0, name@.len() as int) =~= name@);
            push_candidate(
                found,
                Candidate { start: open.start, end: open.after, name: nm, arguments: Json::Object(a) },
            );
        } else {
            match find_tag_in(t, open.after, name, true) {
                None => {},
                Some(close) => {
                    let a = element_arguments(
                        t,
                        open.attrs_lo,
                        open.attrs_hi,
                        open.after,
                        close.start,
                    );
                    proof {
                        lemma_object_view(a);
                    }
                    let nm = copy_range(name, 0, name.len());
                    assert(name@.subrange(0, name@.len() as int) =~= name@);
                    push_candidate(
                        found,
                        Candidate {
                            start: open.start,
                            end: close.after,
                            name: nm,
                            arguments: Json::Object(a),
                        },
                    );
                },
            }
        }
        from = open.after;
    }
}

/// Every element call in `t` to one of the tools `names`, name by name.
pub fn element_candidates_in(t: &[char], names: &Vec<Vec<char>>) -> (r: Vec<Candidate>)
    ensures
        cands_view(r@) == element_calls(t@, chars_seqs(names@)),
        cands_within(cands_view(r@), t@.len() as int),
{
    let ghost ks = chars_seqs(names@);
    let mut found: Vec<Candidate> = Vec::new();
    assert(cands_view(found@) =~= Seq::<CandV>::empty());
    let mut q: usize = 0;
    while q < names.len()
        invariant
            q <= names@.len(),
            ks == chars_seqs(names@),
            element_calls(t@, ks) == elements_all(t@, ks, q as int, cands_view(found@)),
            cands_within(cands_view(found@), t@.len() as int),
        decreases names.len() - q,
    {
        element_candidates_of(t, names[q].as_slice(), &mut found);
        q = q + 1;
    }
    found
}

// -------------------------------------------------------------- JSON objects

/// The JSON-object calls among `spans`, from the `k`-th on, appended to
/// `acc`: each span that parses and is a call to one of `known`, its start
/// moved back over a marker in front of it.
pub open spec fn json_cands_go(
    t: Seq<char>,
    spans: Seq<(int, int)>,
    known: Seq<Seq<char>>,
    k: int,
    acc: Seq<CandV>,
) -> Seq<CandV>
    decreases spans.len() - k,
{
    if k < 0 || k >= spans.len() {
        acc
    } else {
        let s = spans[k].0;
        let e = spans[k].1;
        let acc2 = match json_parse(t.subrange(s, e)) {
            None => acc,
            Some(v) => {
                let cut = marker_start_of(t, s);
                match as_known_call_spec(v, known, cut != s) {
                    Some(c) => acc.push((cut, e, c.0, c.1)),
                    None => acc,
                }
            },
        };
        json_cands_go(t, spans, known, k + 1, acc2)
    }
}

/// The outermost JSON objects in `t` that are calls to one of `known`.
pub open spec fn json_calls(t: Seq<char>, known: Seq<Seq<char>>) -> Seq<CandV> {
    json_cands_go(t, object_spans(t), known, 0, Seq::empty())
}

/// Every JSON-object call in `t` to a tool in `known`.
pub fn json_candidates(t: &[char], known: &Vec<String>) -> (r: Vec<Candidate>)
    ensures
        cands_view(r@) == json_calls(t@, strings_view(known@)),
        cands_within(cands_view(r@), t@.len() as int),
{
    let spans = object_spans_in(t);
    let ghost sp = object_spans(t@);
    let ghost ks = strings_view(known@);
    let mut found: Vec<Candidate> = Vec::new();
    assert(cands_view(found@) =~= Seq::<CandV>::empty());
    let mut k: usize = 0;
    while k < spans.len()
        invariant
            k <= spans@.len() == sp.len(),
            sp == object_spans(t@),
            ks == strings_view(known@),
            forall|q: int|
                0 <= q < spans@.len() ==> (#[trigger] spans@[q]).0 as int == sp[q].0 && spans@[q].1 as int
                    == sp[q].1,
            crate::salvage::spans::spans_within(sp, t@.len() as int),
            json_calls(t@, ks) == json_cands_go(t@, sp, ks, k as int, cands_view(found@)),
            cands_within(cands_view(found@), t@.len() as int),
        decreases spans.len() - k,
    {
        let (s, e) = spans[k];
        proof {
            assert(spans@[k as int].0 as int == sp[k as int].0);
        }
        let piece = copy_range(t, s, e);
        match parse_json(piece.as_slice()) {
            None => {},
            Some(v) => {
                let cut = marker_start_in(t, s);
                match as_known_call(&v, known, cut != s) {
                    Some((n, a)) => {
                        push_candidate(&mut found, Candidate { start: cut, end: e, name: n, arguments: a });
                    },
                    None => {},
                }
            },
        }
        k = k + 1;
    }
    found
}

/// Candidates over `s` with their character spans given as byte offsets.
pub open spec fn cands_bytes(s: Seq<char>, cs: Seq<CandV>) -> Seq<CandV> {
    Seq::new(cs.len(), |k: int| (byte_at(s, cs[k].0), byte_at(s, cs[k].1), cs[k].2, cs[k].3))
}

fn cands_to_bytes(t: &[char], table: &Vec<usize>, cs: &Vec<Candidate>) -> (r: Vec<Candidate>)
    requires
        table@.len() == t@.len() + 1,
        forall|i: int| 0 <= i <= t@.len() ==> #[trigger] table@[i] == byte_at(t@, i),
        cands_within(cands_view(cs@), t@.len() as int),
    ensures
        cands_view(r@) == cands_bytes(t@, cands_view(cs@)),
{
    let ghost cv = cands_view(cs@);
    let mut r: Vec<Candidate> = Vec::new();
    let mut k: usize = 0;
    assert(cands_view(r@) =~= cands_bytes(t@, cv).take(0));
    while k < cs.len()
        invariant
            k <= cs@.len(),
            cv == cands_view(cs@),
            table@.len() == t@.len() + 1,
            forall|i: int| 0 <= i <= t@.len() ==> #[trigger] table@[i] == byte_at(t@, i),
            cands_within(cv, t@.len() as int),
            cands_view(r@) == cands_bytes(t@, cv).take(k as int),
        decreases cs.len() - k,
    {
        let c = &cs[k];
        proof {
            assert(cv[k as int] == cand_view(*c));
        }
        let mut name: Vec<char> = Vec::new();
        push_all(&mut name, c.name.as_slice());
        let d = Candidate { start: table[c.start], end: table[c.end], name, arguments: json_clone(&c.arguments) };
        let ghost before = cands_view(r@);
        r.push(d);
        assert(cands_view(r@) =~= before.push(cand_view(d)));
        assert(cands_bytes(t@, cv).take(k + 1) =~= cands_bytes(t@, cv).take(k as int).push(cand_view(d)));
        k = k + 1;
    }
    assert(cands_bytes(t@, cv).take(k as int) =~= cands_bytes(t@, cv));
    r
}

/// Every `<invoke name="…">…</invoke>` call to one of `known` in `text`,
/// left to right, with byte spans.
pub fn tag_call_candidates(text: &str, known: &Vec<String>, schemas: &Vec<(String, Json)>) -> (r: Vec<Candidate>)
    requires
        fits(text@),
    ensures
        cands_view(r@) == cands_bytes(text@, tag_calls(text@, strings_view(known@), pairs_view(schemas@))),
{
    let t = chars_of(text);
    let cs = tag_candidates_in(t.as_slice(), known, schemas);
    let table = byte_table(t.as_slice());
    cands_to_bytes(t.as_slice(), &table, &cs)
}

/// Every element in `text` named after one of `known` (`<tool …/>` or
/// `<tool …>…</tool>`), names taken in ascending order, with byte spans.
pub fn tool_element_candidates(text: &str, known: &Vec<String>) -> (r: Vec<Candidate>)
    requires
        fits(text@),
    ensures
        cands_view(r@) == cands_bytes(text@, element_calls(text@, sorted_names(strings_view(known@)))),
{
    let ghost ks = strings_view(known@);
    let mut names: Vec<Vec<char>> = Vec::new();
    let mut q: usize = 0;
    assert(chars_seqs(names@) =~= ks.take(0));
    while q < known.len()
        invariant
            q <= known@.len(),
            chars_seqs(names@) == ks.take(q as int),
            ks == strings_view(known@),
        decreases known.len() - q,
    {
        let ghost before = chars_seqs(names@);
        let c = chars_of(known[q].as_str());
        let ghost cv = c@;
        names.push(c);
        assert(chars_seqs(names@) =~= before.push(cv));
        assert(ks.take(q + 1) =~= ks.take(q as int).push(ks[q as int]));
        q = q + 1;
    }
    assert(ks.take(q as int) =~= ks);
    let ordered = sort_names(&names);
    let t = chars_of(text);
    let cs = element_candidates_in(t.as_slice(), &ordered);
    let table = byte_table(t.as_slice());
    cands_to_bytes(t.as_slice(), &table, &cs)
}

} // verus!
