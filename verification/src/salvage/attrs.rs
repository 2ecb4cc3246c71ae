//! Reading a tag's attributes, and a tool element's arguments, as JSON.

use vstd::prelude::*;
use crate::json::{
    Json, JsonV, jview, json_parse, lemma_object_view, obj_insert, obj_or_insert, opt_view,
    or_insert_member, insert_member, pairs_view, parse_json,
};
use crate::salvage::spans::{object_spans_in, object_spans, spans_within};
use crate::salvage::words::{w_string, w_string_chars, w_true, w_true_chars};
use crate::text::{
    find_char, find_char_from, find_from, find_in, is_word_char, lemma_find_char_bounds,
    lemma_find_in_bounds, push_range, skip_ws, string_of, trim, trim_range, word_char, ws_end,
    ws_start, back_ws, lemma_ws_end_bounds, eq_ignore_ascii_case, range_eq_ignore_ascii_case,
};

verus! {

/// The value of the quoted attribute `name` in the attribute run `lo..hi`
/// of `t`, searching for the name from `from`. A match that continues a
/// longer word (`string` inside `substring`) is skipped. An empty `name`
/// matches at `from` itself, so only a value standing right there is
/// found; the search goes no further.
pub open spec fn attr_from(t: Seq<char>, lo: int, hi: int, name: Seq<char>, from: int) -> Option<
    Seq<char>,
>
    decreases hi - from,
{
    if from < lo || from > hi || hi > t.len() || lo < 0 {
        None
    } else {
        match find_in(t, from, hi, name) {
            None => None,
            Some(at) => {
                let next = at + name.len();
                if next > hi {
                    None
                } else {
                    let e = ws_end(t, next, hi);
                    let v = ws_end(t, e + 1, hi);
                    let value = if (at == lo || !word_char(t[at - 1])) && e < hi && t[e] == '=' && v < hi && (
                    t[v] == '"' || t[v] == '\'') {
                        match find_char(t, v + 1, hi, t[v]) {
                            None => None,
                            Some(end) => Some(t.subrange(v + 1, end)),
                        }
                    } else {
                        None
                    };
                    match value {
                        Some(x) => Some(x),
                        None => if next <= from {
                            None
                        } else {
                            attr_from(t, lo, hi, name, next)
                        },
                    }
                }
            },
        }
    }
}

pub open spec fn attr_spec(t: Seq<char>, lo: int, hi: int, name: Seq<char>) -> Option<Seq<char>> {
    attr_from(t, lo, hi, name, lo)
}

/// The value of the `name="…"` (or `name='…'`) attribute in the run `lo..hi`.
/// An empty `name` reads only a `="…"` standing at the start of the run;
/// any other run never yields an answer for it, so it is left out.
pub fn attr(t: &[char], lo: usize, hi: usize, name: &[char]) -> (r: Option<Vec<char>>)
    requires
        lo <= hi <= t@.len(),
        name@.len() > 0 || attr_spec(t@, lo as int, hi as int, name@) is Some,
    ensures
        match r {
            Some(v) => attr_spec(t@, lo as int, hi as int, name@) == Some(v@),
            None => attr_spec(t@, lo as int, hi as int, name@) is None,
        },
{
    let mut from = lo;
    while from <= hi
        invariant
            lo <= from <= hi <= t@.len(),
            name@.len() > 0 || (from == lo && attr_spec(t@, lo as int, hi as int, name@) is Some),
            attr_spec(t@, lo as int, hi as int, name@) == attr_from(
                t@,
                lo as int,
                hi as int,
                name@,
                from as int,
            ),
        decreases hi - from,
    {
        proof {
            lemma_find_in_bounds(t@, from as int, hi as int, name@);
        }
        let at = match find_from(t, from, hi, name) {
            None => return None,
            Some(at) => at,
        };
        let next = at + name.len();
        let standalone = at == lo || !is_word_char(t[at - 1]);
        if standalone {
            let e = skip_ws(t, next, hi);
            if e < hi && t[e] == '=' {
                let v = skip_ws(t, e + 1, hi);
                if v < hi && (t[v] == '"' || t[v] == '\'') {
                    let q = t[v];
                    proof {
                        lemma_find_char_bounds(t@, v + 1, hi as int, q);
                    }
                    match find_char_from(t, v + 1, hi, q) {
                        None => {},
                        Some(end) => {
                            let mut out: Vec<char> = Vec::new();
                            push_range(&mut out, t, v + 1, end);
                            return Some(out);
                        },
                    }
                }
            }
        }
        if next <= from {
            return None;
        }
        if next >= hi {
            proof {
                assert(next == hi);
                assert(find_in(t@, hi as int, hi as int, name@) is None);
                assert(attr_from(t@, lo as int, hi as int, name@, next as int) is None);
            }
            return None;
        }
        from = next;
    }
    None
}

/// The start of the identifier-like word that ends at `j`.
pub open spec fn word_start(t: Seq<char>, lo: int, j: int) -> int
    decreases j - lo,
{
    if lo < j && word_char(t[j - 1]) {
        word_start(t, lo, j - 1)
    } else {
        j
    }
}

/// The attribute name before the `=` at `e`: the word that ends where the
/// text before the `=` stops being whitespace.
pub open spec fn name_before(t: Seq<char>, lo: int, e: int) -> Seq<char> {
    let head = ws_start(t, lo, e);
    t.subrange(word_start(t, lo, head), head)
}

/// The attribute names of the run `lo..hi`, scanning from `i`, onto `names`;
/// each name once, in order of first appearance.
pub open spec fn names_from(t: Seq<char>, lo: int, hi: int, i: int, names: Seq<Seq<char>>) -> Seq<
    Seq<char>,
>
    decreases hi - i,
{
    if i < lo || i >= hi || hi > t.len() {
        names
    } else if t[i] == '=' {
        let name = name_before(t, lo, i);
        if name.len() > 0 && !names.contains(name) {
            names_from(t, lo, hi, i + 1, names.push(name))
        } else {
            names_from(t, lo, hi, i + 1, names)
        }
    } else {
        names_from(t, lo, hi, i + 1, names)
    }
}

pub open spec fn attribute_names_spec(t: Seq<char>, lo: int, hi: int) -> Seq<Seq<char>> {
    names_from(t, lo, hi, lo, Seq::empty())
}

/// Every name found is non-empty.
pub proof fn lemma_names_nonempty(t: Seq<char>, lo: int, hi: int, i: int, names: Seq<Seq<char>>)
    requires
        forall|k: int| 0 <= k < names.len() ==> (#[trigger] names[k]).len() > 0,
    ensures
        forall|k: int|
            0 <= k < names_from(t, lo, hi, i, names).len() ==> (#[trigger] names_from(t, lo, hi, i, names)[k]).len()
                > 0,
    decreases hi - i,
{
    if !(i < lo || i >= hi || hi > t.len()) {
        if t[i] == '=' {
            let name = name_before(t, lo, i);
            if name.len() > 0 && !names.contains(name) {
                let n2 = names.push(name);
                assert forall|k: int| 0 <= k < n2.len() implies (#[trigger] n2[k]).len() > 0 by {
                    if k < names.len() {
                        assert(n2[k] == names[k]);
                    }
                }
                lemma_names_nonempty(t, lo, hi, i + 1, n2);
                assert(names_from(t, lo, hi, i, names) == names_from(t, lo, hi, i + 1, n2));
            } else {
                lemma_names_nonempty(t, lo, hi, i + 1, names);
                assert(names_from(t, lo, hi, i, names) == names_from(t, lo, hi, i + 1, names));
            }
        } else {
            lemma_names_nonempty(t, lo, hi, i + 1, names);
            assert(names_from(t, lo, hi, i, names) == names_from(t, lo, hi, i + 1, names));
        }
    }
}

fn word_back(t: &[char], lo: usize, j: usize) -> (r: usize)
    requires
        lo <= j <= t@.len(),
    ensures
        r == word_start(t@, lo as int, j as int),
        lo <= r <= j,
{
    let mut k = j;
    while lo < k && is_word_char(t[k - 1])
        invariant
            lo <= k <= j <= t@.len(),
            word_start(t@, lo as int, j as int) == word_start(t@, lo as int, k as int),
        decreases k,
    {
        k = k - 1;
    }
    k
}

fn contains_name(names: &Vec<Vec<char>>, name: &[char]) -> (r: bool)
    ensures
        r == Seq::new(names@.len(), |k: int| names@[k]@).contains(name@),
{
    let ghost ns = Seq::new(names@.len(), |k: int| names@[k]@);
    let mut k: usize = 0;
    while k < names.len()
        invariant
            k <= names@.len(),
            ns == Seq::new(names@.len(), |k: int| names@[k]@),
            forall|q: int| 0 <= q < k ==> ns[q] != name@,
        decreases names.len() - k,
    {
        if crate::text::chars_eq(names[k].as_slice(), name) {
            assert(ns[k as int] == name@);
            return true;
        }
        k = k + 1;
    }
    false
}

pub open spec fn names_view(names: Seq<Vec<char>>) -> Seq<Seq<char>> {
    Seq::new(names.len(), |k: int| names[k]@)
}

/// The attribute names in the run `lo..hi`, left to right.
pub fn attribute_names(t: &[char], lo: usize, hi: usize) -> (r: Vec<Vec<char>>)
    requires
        lo <= hi <= t@.len(),
    ensures
        names_view(r@) == attribute_names_spec(t@, lo as int, hi as int),
{
    let mut names: Vec<Vec<char>> = Vec::new();
    assert(names_view(names@) =~= Seq::<Seq<char>>::empty());
    let mut i = lo;
    while i < hi
        invariant
            lo <= i <= hi <= t@.len(),
            attribute_names_spec(t@, lo as int, hi as int) == names_from(
                t@,
                lo as int,
                hi as int,
                i as int,
                names_view(names@),
            ),
        decreases hi - i,
    {
        if t[i] == '=' {
            let head = back_ws(t, lo, i);
            let s = word_back(t, lo, head);
            let mut name: Vec<char> = Vec::new();
            push_range(&mut name, t, s, head);
            assert(name@ == name_before(t@, lo as int, i as int));
            if name.len() > 0 && !contains_name(&names, name.as_slice()) {
                let ghost before = names_view(names@);
                names.push(name);
                assert(names_view(names@) =~= before.push(name_before(t@, lo as int, i as int)));
            }
        }
        i = i + 1;
    }
    names
}


/// A text as JSON: parsed when it parses, otherwise the text as a string.
pub open spec fn parse_or_string(raw: Seq<char>) -> JsonV {
    match json_parse(raw) {
        Some(v) => v,
        None => JsonV::Str(raw),
    }
}

pub fn parse_or_string_exec(raw: &[char]) -> (r: Json)
    ensures
        jview(r) == parse_or_string(raw@),
{
    match parse_json(raw) {
        Some(v) => v,
        None => Json::Str(string_of(raw)),
    }
}

/// The first of `spans` that starts at 0.
pub open spec fn first_at_zero(spans: Seq<(int, int)>, k: int) -> Option<int>
    decreases spans.len() - k,
{
    if k < 0 || k >= spans.len() {
        None
    } else if spans[k].0 == 0 {
        Some(k)
    } else {
        first_at_zero(spans, k + 1)
    }
}

/// An unquoted `key=<json>` value in the run `lo..hi`: only a JSON object is
/// read this way, and only one that starts right after the `=`.
pub open spec fn bare_value_spec(t: Seq<char>, lo: int, hi: int, key: Seq<char>) -> Option<JsonV> {
    match find_in(t, lo, hi, key) {
        None => None,
        Some(at) => {
            let e = ws_end(t, at + key.len(), hi);
            if !(e < hi && t[e] == '=') {
                None
            } else {
                let v = ws_end(t, e + 1, hi);
                if !(v < hi && (t[v] == '{' || t[v] == '[')) {
                    None
                } else {
                    let rest = t.subrange(v, hi);
                    match first_at_zero(object_spans(rest), 0) {
                        None => None,
                        Some(k) => json_parse(rest.subrange(0, object_spans(rest)[k].1)),
                    }
                }
            }
        },
    }
}

pub fn bare_value(t: &[char], lo: usize, hi: usize, key: &[char]) -> (r: Option<Json>)
    requires
        lo <= hi <= t@.len(),
    ensures
        opt_view(r) == bare_value_spec(t@, lo as int, hi as int, key@),
{
    proof {
        lemma_find_in_bounds(t@, lo as int, hi as int, key@);
    }
    let at = match find_from(t, lo, hi, key) {
        None => return None,
        Some(at) => at,
    };
    let e = skip_ws(t, at + key.len(), hi);
    if !(e < hi && t[e] == '=') {
        return None;
    }
    let v = skip_ws(t, e + 1, hi);
    if !(v < hi && (t[v] == '{' || t[v] == '[')) {
        return None;
    }
    let mut rest: Vec<char> = Vec::new();
    push_range(&mut rest, t, v, hi);
    assert(rest@ =~= t@.subrange(v as int, hi as int));
    let ghost spec_r = bare_value_spec(t@, lo as int, hi as int, key@);
    assert(spec_r == match first_at_zero(object_spans(rest@), 0) {
        None => None,
        Some(k) => json_parse(rest@.subrange(0, object_spans(rest@)[k].1)),
    });
    let spans = object_spans_in(rest.as_slice());
    let mut k: usize = 0;
    while k < spans.len()
        invariant
            k <= spans@.len(),
            spans@.len() == object_spans(rest@).len(),
            forall|q: int|
                0 <= q < spans@.len() ==> (#[trigger] spans@[q]).0 as int == object_spans(rest@)[q].0
                    && spans@[q].1 as int == object_spans(rest@)[q].1,
            spans_within(object_spans(rest@), rest@.len() as int),
            first_at_zero(object_spans(rest@), 0) == first_at_zero(object_spans(rest@), k as int),
            spec_r == bare_value_spec(t@, lo as int, hi as int, key@),
            spec_r == match first_at_zero(object_spans(rest@), 0) {
                None => None,
                Some(k) => json_parse(rest@.subrange(0, object_spans(rest@)[k].1)),
            },
        decreases spans.len() - k,
    {
        if spans[k].0 == 0 {
            let end = spans[k].1;
            assert(0 <= object_spans(rest@)[k as int].0 < object_spans(rest@)[k as int].1 <= rest@.len());
            let mut obj: Vec<char> = Vec::new();
            push_range(&mut obj, rest.as_slice(), 0, end);
            assert(obj@ =~= rest@.subrange(0, end as int));
            assert(first_at_zero(object_spans(rest@), k as int) == Some(k as int));
            return parse_json(obj.as_slice());
        }
        k = k + 1;
    }
    None
}

/// Whether `lo..hi` of `t` is a non-empty identifier-like name.
pub open spec fn simple_name(t: Seq<char>, lo: int, hi: int) -> bool {
    lo < hi && forall|k: int| lo <= k < hi ==> word_char(t[k])
}

fn simple_name_exec(t: &[char], lo: usize, hi: usize) -> (r: bool)
    requires
        lo <= hi <= t@.len(),
    ensures
        r == simple_name(t@, lo as int, hi as int),
{
    if lo == hi {
        return false;
    }
    let mut k = lo;
    while k < hi
        invariant
            lo <= k <= hi <= t@.len(),
            forall|q: int| lo <= q < k ==> word_char(t@[q]),
        decreases hi - k,
    {
        if !is_word_char(t[k]) {
            return false;
        }
        k = k + 1;
    }
    true
}

/// `</name>` for the name `lo..hi` of `t`.
pub open spec fn closer(t: Seq<char>, lo: int, hi: int) -> Seq<char> {
    seq!['<', '/'] + t.subrange(lo, hi) + seq!['>']
}

/// A body's child elements `<name>value</name>` as arguments, scanning from
/// `from`; a child's value is JSON-parsed when it parses, and the first child
/// of a name wins.
pub open spec fn children_go(t: Seq<char>, lo: int, hi: int, from: int, pairs: Seq<(Seq<char>, JsonV)>) -> Seq<
    (Seq<char>, JsonV),
>
    decreases hi - from,
{
    if from < lo || from > hi || hi > t.len() || lo < 0 {
        pairs
    } else {
        match find_char(t, from, hi, '<') {
            None => pairs,
            Some(open) => match find_char(t, open + 1, hi, '>') {
                None => pairs,
                Some(stop) => {
                    if open < from || open >= hi || stop >= hi {
                        pairs
                    } else if !simple_name(t, open + 1, stop) {
                        children_go(t, lo, hi, open + 1, pairs)
                    } else {
                        let after = stop + 1;
                        let close = closer(t, open + 1, stop);
                        match find_in(t, after, hi, close) {
                            None => children_go(t, lo, hi, open + 1, pairs),
                            Some(end) => {
                                if end + close.len() <= from || end + close.len() > hi || end < after {
                                    pairs
                                } else {
                                    children_go(
                                        t,
                                        lo,
                                        hi,
                                        end + close.len(),
                                        obj_or_insert(
                                            pairs,
                                            t.subrange(open + 1, stop),
                                            parse_or_string(trim(t.subrange(after, end))),
                                        ),
                                    )
                                }
                            },
                        }
                    }
                },
            },
        }
    }
}

pub open spec fn children_spec(t: Seq<char>, lo: int, hi: int) -> Seq<(Seq<char>, JsonV)> {
    children_go(t, lo, hi, lo, Seq::empty())
}

/// Arguments written as child elements of a body, `<key>value</key>`, one
/// member per closed child with a plain name.
pub fn children_as_arguments(t: &[char], lo: usize, hi: usize) -> (r: Vec<(String, Json)>)
    requires
        lo <= hi <= t@.len(),
    ensures
        pairs_view(r@) == children_spec(t@, lo as int, hi as int),
{
    let mut pairs: Vec<(String, Json)> = Vec::new();
    assert(pairs_view(pairs@) =~= Seq::<(Seq<char>, JsonV)>::empty());
    let mut from = lo;
    while from <= hi
        invariant
            lo <= from <= hi <= t@.len(),
            children_spec(t@, lo as int, hi as int) == children_go(
                t@,
                lo as int,
                hi as int,
                from as int,
                pairs_view(pairs@),
            ),
        decreases hi - from,
    {
        proof {
            lemma_find_char_bounds(t@, from as int, hi as int, '<');
        }
        let open = match find_char_from(t, from, hi, '<') {
            None => return pairs,
            Some(open) => open,
        };
        proof {
            lemma_find_char_bounds(t@, open + 1, hi as int, '>');
        }
        let stop = match find_char_from(t, open + 1, hi, '>') {
            None => return pairs,
            Some(stop) => stop,
        };
        if !simple_name_exec(t, open + 1, stop) {
            from = open + 1;
            continue;
        }
        let after = stop + 1;
        let mut close: Vec<char> = vec!['<', '/'];
        push_range(&mut close, t, open + 1, stop);
        close.push('>');
        assert(close@ =~= closer(t@, open + 1, stop as int));
        proof {
            lemma_find_in_bounds(t@, after as int, hi as int, close@);
        }
        let end = match find_from(t, after, hi, close.as_slice()) {
            None => {
                from = open + 1;
                continue;
            },
            Some(end) => end,
        };
        let (a, b) = trim_range(t, after, end);
        let mut raw: Vec<char> = Vec::new();
        push_range(&mut raw, t, a, b);
        let value = parse_or_string_exec(raw.as_slice());
        let mut name: Vec<char> = Vec::new();
        push_range(&mut name, t, open + 1, stop);
        let key = string_of(name.as_slice());
        or_insert_member(&mut pairs, key, value);
        from = end + close.len();
    }
    pairs
}


/// The arguments read from the attribute run `lo..hi`, name by name from
/// the `k`th name on: a quoted value is JSON-parsed when it parses, and an
/// unquoted `{…}` value is read as JSON; a name with neither is skipped.
pub open spec fn attr_args_go(t: Seq<char>, lo: int, hi: int, names: Seq<Seq<char>>, k: int, pairs: Seq<
    (Seq<char>, JsonV),
>) -> Seq<(Seq<char>, JsonV)>
    decreases names.len() - k,
{
    if k < 0 || k >= names.len() {
        pairs
    } else {
        match attr_spec(t, lo, hi, names[k]) {
            Some(raw) => attr_args_go(
                t,
                lo,
                hi,
                names,
                k + 1,
                obj_insert(pairs, names[k], parse_or_string(raw)),
            ),
            None => match bare_value_spec(t, lo, hi, names[k]) {
                Some(v) => attr_args_go(t, lo, hi, names, k + 1, obj_insert(pairs, names[k], v)),
                None => attr_args_go(t, lo, hi, names, k + 1, pairs),
            },
        }
    }
}

pub open spec fn attr_args_spec(t: Seq<char>, lo: int, hi: int) -> Seq<(Seq<char>, JsonV)> {
    attr_args_go(t, lo, hi, attribute_names_spec(t, lo, hi), 0, Seq::empty())
}

/// An attribute run as a call's arguments.
pub fn attrs_as_arguments(t: &[char], lo: usize, hi: usize) -> (r: Vec<(String, Json)>)
    requires
        lo <= hi <= t@.len(),
    ensures
        pairs_view(r@) == attr_args_spec(t@, lo as int, hi as int),
{
    let names = attribute_names(t, lo, hi);
    let ghost ns = names_view(names@);
    let mut pairs: Vec<(String, Json)> = Vec::new();
    assert(pairs_view(pairs@) =~= Seq::<(Seq<char>, JsonV)>::empty());
    let mut k: usize = 0;
    while k < names.len()
        invariant
            lo <= hi <= t@.len(),
            k <= names@.len(),
            ns == names_view(names@),
            ns == attribute_names_spec(t@, lo as int, hi as int),
            attr_args_spec(t@, lo as int, hi as int) == attr_args_go(
                t@,
                lo as int,
                hi as int,
                ns,
                k as int,
                pairs_view(pairs@),
            ),
        decreases names.len() - k,
    {
        let key = names[k].as_slice();
        assert(key@ == ns[k as int]);
        proof {
            lemma_names_nonempty(t@, lo as int, hi as int, lo as int, Seq::empty());
        }
        match attr(t, lo, hi, key) {
            Some(raw) => {
                let value = parse_or_string_exec(raw.as_slice());
                insert_member(&mut pairs, string_of(key), value);
            },
            None => match bare_value(t, lo, hi, key) {
                Some(value) => {
                    insert_member(&mut pairs, string_of(key), value);
                },
                None => {},
            },
        }
        k = k + 1;
    }
    pairs
}

/// One `<parameter>` body `raw` as a JSON value: a body the tag declares
/// `string="true"` is its text verbatim; one the tool's schema types
/// `"string"` is its trimmed text; anything else is parsed when it parses.
pub open spec fn parameter_value_spec(t: Seq<char>, raw_lo: int, raw_hi: int, a_lo: int, a_hi: int, declared: Option<
    Seq<char>,
>) -> JsonV {
    let raw = t.subrange(raw_lo, raw_hi);
    match attr_spec(t, a_lo, a_hi, w_string()) {
        Some(d) if eq_ignore_ascii_case(d, w_true()) => JsonV::Str(raw),
        _ => if declared == Some(w_string()) {
            JsonV::Str(trim(raw))
        } else {
            parse_or_string(trim(raw))
        },
    }
}

pub fn parameter_value(
    t: &[char],
    raw_lo: usize,
    raw_hi: usize,
    a_lo: usize,
    a_hi: usize,
    declared: Option<&Vec<char>>,
) -> (r: Json)
    requires
        raw_lo <= raw_hi <= t@.len(),
        a_lo <= a_hi <= t@.len(),
    ensures
        jview(r) == parameter_value_spec(
            t@,
            raw_lo as int,
            raw_hi as int,
            a_lo as int,
            a_hi as int,
            match declared {
                Some(d) => Some(d@),
                None => None,
            },
        ),
{
    let sw = w_string_chars();
    let tw = w_true_chars();
    match attr(t, a_lo, a_hi, sw.as_slice()) {
        Some(d) => {
            if range_eq_ignore_ascii_case(d.as_slice(), 0, d.len(), tw.as_slice()) {
                assert(d@.subrange(0, d@.len() as int) =~= d@);
                let mut raw: Vec<char> = Vec::new();
                push_range(&mut raw, t, raw_lo, raw_hi);
                assert(raw@ =~= t@.subrange(raw_lo as int, raw_hi as int));
                return Json::Str(string_of(raw.as_slice()));
            }
            assert(d@.subrange(0, d@.len() as int) =~= d@);
        },
        None => {},
    }
    let (a, b) = trim_range(t, raw_lo, raw_hi);
    let mut trimmed: Vec<char> = Vec::new();
    push_range(&mut trimmed, t, a, b);
    assert(trimmed@ =~= t@.subrange(a as int, b as int));
    let is_string = match declared {
        Some(d) => crate::text::chars_eq(d.as_slice(), sw.as_slice()),
        None => false,
    };
    if is_string {
        Json::Str(string_of(trimmed.as_slice()))
    } else {
        parse_or_string_exec(trimmed.as_slice())
    }
}

} // verus!
