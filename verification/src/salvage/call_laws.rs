//! What the recovery does with each shape of call, stated over all inputs:
//! which JSON objects are calls with no arguments, how a `<parameter>` body
//! is typed, that every element named after a tool is a call, and which
//! envelopes are cut with the calls they wrap.

use vstd::prelude::*;
use crate::json::{JsonV, get_member, json_parse, key_index_from, lemma_key_index_from, obj_get};
use crate::salvage::attrs::{attr_spec, parameter_value_spec};
use crate::salvage::calls::{
    ArgumentsV, arg_keys, as_known_call_spec, call_name_keys, first_present, first_str_spec, name_keys,
    resolve_args_spec,
};
use crate::salvage::candidates::{CandV, elements_go, self_closing};
use crate::salvage::recover::envelope_go;
use crate::salvage::tags::{find_tag_spec, tag_at_spec, undecorated_at};
use crate::salvage::words::{
    w_args, w_arguments, w_call, w_function, w_function_name, w_id, w_index, w_input, w_name, w_parameters,
    w_params, w_string, w_tool, w_tool_name, w_true, w_type,
};
use crate::text::{eq_ignore_ascii_case, find_char, lemma_find_char_bounds, trim};

verus! {

// ------------------------------------------------------------- JSON calls

/// A key that names a tool or that a model stamps on a call without
/// arguments: `name`, `call`, `tool`, `tool_name`, `function_name`, `id`,
/// `type` or `index`.
pub open spec fn name_or_incidental_key(k: Seq<char>) -> bool {
    k == w_name() || k == w_call() || k == w_tool() || k == w_tool_name() || k == w_function_name() || k
        == w_id() || k == w_type() || k == w_index()
}

/// A key that can carry a call's arguments: `arguments`, `args`,
/// `parameters`, `params` or `input`.
pub open spec fn argument_key(k: Seq<char>) -> bool {
    k == w_arguments() || k == w_args() || k == w_parameters() || k == w_params() || k == w_input()
}

proof fn lemma_absent(p: Seq<(Seq<char>, JsonV)>, key: Seq<char>)
    requires
        forall|i: int| 0 <= i < p.len() ==> p[i].0 != key,
    ensures
        obj_get(p, key) is None,
{
    lemma_key_index_from(p, key, 0);
}

proof fn lemma_no_argument_key(p: Seq<(Seq<char>, JsonV)>)
    requires
        forall|i: int| 0 <= i < p.len() ==> !argument_key(#[trigger] p[i].0),
    ensures
        resolve_args_spec(p) == ArgumentsV::Missing,
{
    let ks = arg_keys();
    assert forall|j: int| 0 <= j < ks.len() implies obj_get(p, #[trigger] ks[j]) is None by {
        assert forall|i: int| 0 <= i < p.len() implies p[i].0 != ks[j] by {
            assert(!argument_key(p[i].0));
        }
        lemma_absent(p, ks[j]);
    }
    assert(first_present(p, ks, 5) is None);
    assert(first_present(p, ks, 4) is None);
    assert(first_present(p, ks, 3) is None);
    assert(first_present(p, ks, 2) is None);
    assert(first_present(p, ks, 1) is None);
    assert(first_present(p, ks, 0) is None);
}

/// A call with no arguments written as a bare object is recovered: when a
/// call-family key names a tool and the name found under the name keys is
/// an offered tool, and every other key is a name key or `id`, `type` or
/// `index`, the object is a call to that tool with empty arguments, marker
/// or not.
pub proof fn lemma_bare_call_without_arguments(p: Seq<(Seq<char>, JsonV)>, known: Seq<Seq<char>>, marked: bool)
    requires
        forall|i: int| 0 <= i < p.len() ==> name_or_incidental_key(#[trigger] p[i].0),
        first_str_spec(p, call_name_keys()) is Some,
        first_str_spec(p, name_keys()) matches Some(n) && known.contains(n),
    ensures
        as_known_call_spec(JsonV::Object(p), known, marked) == Some(
            (first_str_spec(p, name_keys())->0, JsonV::Object(Seq::empty())),
        ),
{
    assert forall|i: int| 0 <= i < p.len() implies p[i].0 != w_function() && !argument_key(
        #[trigger] p[i].0,
    ) by {
        let k = p[i].0;
        assert(name_or_incidental_key(k));
        assert(w_function().len() == 8);
        assert(w_tool_name()[0] != w_arguments()[0]);
        assert(w_name()[0] != w_args()[0]);
        assert(w_call()[0] != w_args()[0]);
        assert(w_tool()[0] != w_args()[0]);
        assert(w_type()[0] != w_args()[0]);
        assert(w_index()[2] != w_input()[2]);
        assert(w_function_name().len() == 13);
    }
    lemma_absent(p, w_function());
    lemma_no_argument_key(p);
}

/// A call in the function wrapper with no arguments is recovered: when the
/// `function` member is an object whose name keys name an offered tool and
/// none of whose keys carries arguments, the value is a call to that tool
/// with empty arguments, whatever else it holds.
pub proof fn lemma_wrapped_call_without_arguments(
    v: JsonV,
    fp: Seq<(Seq<char>, JsonV)>,
    known: Seq<Seq<char>>,
    marked: bool,
)
    requires
        get_member(v, w_function()) == Some(JsonV::Object(fp)),
        forall|i: int| 0 <= i < fp.len() ==> !argument_key(#[trigger] fp[i].0),
        first_str_spec(fp, name_keys()) matches Some(n) && known.contains(n),
    ensures
        as_known_call_spec(v, known, marked) == Some(
            (first_str_spec(fp, name_keys())->0, JsonV::Object(Seq::empty())),
        ),
{
    lemma_no_argument_key(fp);
}

// ------------------------------------------------------- parameter bodies

/// Whether the attribute run `a_lo..a_hi` declares `string="true"`, in any
/// ASCII case.
pub open spec fn declares_string(t: Seq<char>, a_lo: int, a_hi: int) -> bool {
    match attr_spec(t, a_lo, a_hi, w_string()) {
        Some(d) => eq_ignore_ascii_case(d, w_true()),
        None => false,
    }
}

/// A `<parameter>` body is kept verbatim only under `string="true"`, in any
/// ASCII case. Under any other `string` attribute, or none, and with no
/// schema typing the argument a string, a body that parses as JSON is that
/// JSON value, and one the schema types a string is its trimmed text.
pub proof fn lemma_parameter_body_typing(
    t: Seq<char>,
    raw_lo: int,
    raw_hi: int,
    a_lo: int,
    a_hi: int,
    declared: Option<Seq<char>>,
)
    ensures
        declares_string(t, a_lo, a_hi) ==> parameter_value_spec(t, raw_lo, raw_hi, a_lo, a_hi, declared)
            == JsonV::Str(t.subrange(raw_lo, raw_hi)),
        (!declares_string(t, a_lo, a_hi) && declared != Some(w_string()) && json_parse(
            trim(t.subrange(raw_lo, raw_hi)),
        ) is Some) ==> parameter_value_spec(t, raw_lo, raw_hi, a_lo, a_hi, declared) == json_parse(
            trim(t.subrange(raw_lo, raw_hi)),
        )->0,
        (!declares_string(t, a_lo, a_hi) && declared == Some(w_string())) ==> parameter_value_spec(
            t,
            raw_lo,
            raw_hi,
            a_lo,
            a_hi,
            declared,
        ) == JsonV::Str(trim(t.subrange(raw_lo, raw_hi))),
{
}

// ----------------------------------------------------------------- tags

proof fn lemma_tag_at_bounds(t: Seq<char>, start: int, kw: Seq<char>, closing: bool)
    requires
        0 <= start,
    ensures
        tag_at_spec(t, start, kw, closing) matches Some(g) ==> g.0 == start && start < g.1 <= t.len(),
{
    let p = start + 1;
    if 1 <= p <= t.len() {
        let p2 = if closing {
            p + 1
        } else {
            p
        };
        match undecorated_at(t, p2, kw) {
            Some(q) => {
                let r = q + kw.len();
                if r >= 0 {
                    lemma_find_char_bounds(t, r, t.len() as int, '>');
                }
            },
            None => {},
        }
    }
}

/// A tag found from `i` starts there or later and ends within the text.
pub proof fn lemma_find_tag_bounds(t: Seq<char>, i: int, kw: Seq<char>, closing: bool)
    requires
        0 <= i,
    ensures
        find_tag_spec(t, i, kw, closing) matches Some(g) ==> i <= g.0 < g.1 <= t.len(),
    decreases t.len() - i,
{
    if i <= t.len() {
        lemma_find_char_bounds(t, i, t.len() as int, '<');
        match find_char(t, i, t.len() as int, '<') {
            None => {},
            Some(k) => {
                lemma_tag_at_bounds(t, k, kw, closing);
                if tag_at_spec(t, k, kw, closing) is None && k + 1 > i && k < t.len() {
                    lemma_find_tag_bounds(t, k + 1, kw, closing);
                }
            },
        }
    }
}

// -------------------------------------------------------------- elements

proof fn lemma_elements_acc(t: Seq<char>, name: Seq<char>, from: int, acc: Seq<CandV>)
    requires
        0 <= from,
    ensures
        elements_go(t, name, from, acc) == acc + elements_go(t, name, from, Seq::empty()),
    decreases t.len() - from,
{
    match find_tag_spec(t, from, name, false) {
        None => {
            assert(acc + Seq::<CandV>::empty() =~= acc);
        },
        Some(open) => {
            let e = Seq::<CandV>::empty();
            let (a1, e1) = if self_closing(t, open.2, open.3) {
                let c = (
                    open.0,
                    open.1,
                    name,
                    JsonV::Object(crate::salvage::candidates::element_args(t, open.2, open.3, open.1, open.1)),
                );
                (acc.push(c), e.push(c))
            } else {
                match find_tag_spec(t, open.1, name, true) {
                    None => (acc, e),
                    Some(close) => {
                        let c = (
                            open.0,
                            close.1,
                            name,
                            JsonV::Object(
                                crate::salvage::candidates::element_args(t, open.2, open.3, open.1, close.0),
                            ),
                        );
                        (acc.push(c), e.push(c))
                    },
                }
            };
            assert(a1 =~= acc + e1);
            if from < open.1 <= t.len() {
                lemma_elements_acc(t, name, open.1, a1);
                lemma_elements_acc(t, name, open.1, e1);
                assert(acc + (e1 + elements_go(t, name, open.1, e)) =~= (acc + e1) + elements_go(
                    t,
                    name,
                    open.1,
                    e,
                ));
            }
        },
    }
}

/// Every element named after a tool is a call, not only the first: the
/// calls found from `from` are the first element's own, when it is
/// complete (self-closing, or closed by its own close tag), at the head,
/// followed by every call found after that element's opening tag.
pub proof fn lemma_every_element_is_a_call(t: Seq<char>, name: Seq<char>, from: int)
    requires
        0 <= from,
        find_tag_spec(t, from, name, false) is Some,
    ensures
        ({
            let open = find_tag_spec(t, from, name, false)->0;
            let found = elements_go(t, name, from, Seq::empty());
            let rest = elements_go(t, name, open.1, Seq::empty());
            if self_closing(t, open.2, open.3) || find_tag_spec(t, open.1, name, true) is Some {
                found.len() == rest.len() + 1 && found[0].0 == open.0 && found[0].2 == name && found.skip(1)
                    == rest
            } else {
                found == rest
            }
        }),
{
    let open = find_tag_spec(t, from, name, false)->0;
    lemma_find_tag_bounds(t, from, name, false);
    let found = elements_go(t, name, from, Seq::empty());
    let rest = elements_go(t, name, open.1, Seq::empty());
    if self_closing(t, open.2, open.3) || find_tag_spec(t, open.1, name, true) is Some {
        let c = found[0];
        let a1 = if self_closing(t, open.2, open.3) {
            Seq::<CandV>::empty().push(
                (
                    open.0,
                    open.1,
                    name,
                    JsonV::Object(crate::salvage::candidates::element_args(t, open.2, open.3, open.1, open.1)),
                ),
            )
        } else {
            let close = find_tag_spec(t, open.1, name, true)->0;
            Seq::<CandV>::empty().push(
                (
                    open.0,
                    close.1,
                    name,
                    JsonV::Object(crate::salvage::candidates::element_args(t, open.2, open.3, open.1, close.0)),
                ),
            )
        };
        assert(found == elements_go(t, name, open.1, a1));
        lemma_elements_acc(t, name, open.1, a1);
        assert((a1 + rest).skip(1) =~= rest);
    } else {
        assert(found == elements_go(t, name, open.1, Seq::empty()));
    }
}

// ------------------------------------------------------------- envelopes

proof fn lemma_envelope_acc(t: Seq<char>, kw: Seq<char>, cuts: Seq<(int, int)>, from: int, acc: Seq<(int, int)>)
    requires
        0 <= from,
    ensures
        envelope_go(t, kw, cuts, from, acc) == acc + envelope_go(t, kw, cuts, from, Seq::empty()),
    decreases t.len() - from,
{
    let e = Seq::<(int, int)>::empty();
    match find_tag_spec(t, from, kw, false) {
        None => {
            assert(acc + e =~= acc);
        },
        Some(open) => match find_tag_spec(t, open.1, kw, true) {
            None => {
                assert(acc + e =~= acc);
            },
            Some(close) => {
                let w = crate::salvage::recover::wraps_cut(cuts, open.1, close.0);
                let a1 = if w {
                    acc.push((open.0, open.1)).push((close.0, close.1))
                } else {
                    acc
                };
                let e1 = if w {
                    e.push((open.0, open.1)).push((close.0, close.1))
                } else {
                    e
                };
                assert(a1 =~= acc + e1);
                if from < close.1 <= t.len() {
                    lemma_envelope_acc(t, kw, cuts, close.1, a1);
                    lemma_envelope_acc(t, kw, cuts, close.1, e1);
                    assert(acc + (e1 + envelope_go(t, kw, cuts, close.1, e)) =~= (acc + e1) + envelope_go(
                        t,
                        kw,
                        cuts,
                        close.1,
                        e,
                    ));
                }
            },
        },
    }
}

/// An envelope is cut exactly when it wraps a recovered call: the first
/// complete `kw` envelope from `from` has its open and close tags cut when
/// at least one cut lies between them, whatever cuts lie outside it, and is
/// left alone otherwise; the envelopes after it are judged the same way.
pub proof fn lemma_envelope_cut_iff_it_wraps_a_call(
    t: Seq<char>,
    kw: Seq<char>,
    cuts: Seq<(int, int)>,
    from: int,
)
    requires
        0 <= from,
        find_tag_spec(t, from, kw, false) is Some,
        find_tag_spec(t, (find_tag_spec(t, from, kw, false)->0).1, kw, true) is Some,
    ensures
        ({
            let open = find_tag_spec(t, from, kw, false)->0;
            let close = find_tag_spec(t, open.1, kw, true)->0;
            let found = envelope_go(t, kw, cuts, from, Seq::empty());
            let rest = envelope_go(t, kw, cuts, close.1, Seq::empty());
            if exists|k: int| 0 <= k < cuts.len() && (#[trigger] cuts[k]).0 >= open.1 && cuts[k].1 <= close.0 {
                found == seq![(open.0, open.1), (close.0, close.1)] + rest
            } else {
                found == rest
            }
        }),
{
    let open = find_tag_spec(t, from, kw, false)->0;
    lemma_find_tag_bounds(t, from, kw, false);
    let close = find_tag_spec(t, open.1, kw, true)->0;
    lemma_find_tag_bounds(t, open.1, kw, true);
    let e = Seq::<(int, int)>::empty();
    if exists|k: int| 0 <= k < cuts.len() && (#[trigger] cuts[k]).0 >= open.1 && cuts[k].1 <= close.0 {
        let a1 = e.push((open.0, open.1)).push((close.0, close.1));
        assert(envelope_go(t, kw, cuts, from, e) == envelope_go(t, kw, cuts, close.1, a1));
        lemma_envelope_acc(t, kw, cuts, close.1, a1);
        assert(a1 =~= seq![(open.0, open.1), (close.0, close.1)]);
    } else {
        assert(envelope_go(t, kw, cuts, from, e) == envelope_go(t, kw, cuts, close.1, e));
    }
}

} // verus!
